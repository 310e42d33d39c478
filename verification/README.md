# Sonar

DHCP diagnosis for local IPv4 networks. The logic is a verified library; the
program around it opens the network and shows a window.

A diagnosis is one of two:

- The full scan broadcasts a DHCPDISCOVER three times and collects the offers.
  Then it asks every server that was found, and the addresses that routers
  commonly have, for their Ethernet address and sends each that answers a
  DHCPDISCOVER of its own.
- The loop test broadcasts one DHCPDISCOVER once and listens. Two offers less
  than 100 ms apart give away a loop.

## Layout

`src/` is the library, all of it verified with Verus:

| module | what it holds |
| --- | --- |
| `text`, `addr` | numbers and addresses as text and as octets |
| `draw` | random numbers |
| `wire` | Ethernet, ARP, IPv4 and UDP as bytes |
| `dhcp` | the DHCPDISCOVER and the offers |
| `channels`, `receiver` | opening the channels and waiting on them |
| `steps` | events and actions between the library and the network |
| `arp` | asking a station for its Ethernet address |
| `servers` | the table of servers and the list that is shown |
| `scan`, `scan_laws` | the full scan, and what holds of every run of it |
| `looptest` | the loop test and its verdict |
| `interfaces` | which interfaces can be used and which is selected |
| `panel` | the log, the list of servers, and what is copied |

A diagnosis never touches the network itself. It is a state with an `action`
that says what is to be done and a `step` that takes what came of it. Time is a
number of nanoseconds that comes with each event.

`app/` performs the actions with pnet and a UDP socket, and shows the window
with Slint. To run it, Slint needs one of its backends, and sending raw frames
needs administrator rights (and Npcap on Windows).

## What is trusted

Calls into other crates stand behind small functions whose contracts are taken
on trust: the IPv4 checksum and the text of an Ethernet address from pnet,
encoding and decoding of messages from dhcproto, random numbers from rand, the
time of day from chrono. Each says in its comment what is claimed.
