//! What the user sees: the log, the list of servers, and what of them is copied.

use crate::text::{lines_view, no_lines, push_line, push_text};
use vstd::prelude::*;

verus! {

/// What stands in place of the servers while none is known.
pub open spec fn placeholder() -> Seq<char> {
    "（暂无）"@
}

// ---------------------------------------------------------------------------
// The log

/// Whether `s` is the number `n` in two decimal digits.
pub open spec fn two_digits(s: Seq<char>, n: nat) -> bool {
    s == seq![(48 + n / 10) as char, (48 + n % 10) as char]
}

/// Whether `s` is a time of day such as `07:05:59`.
pub open spec fn is_clock_text(s: Seq<char>) -> bool {
    exists|hour: nat, minute: nat, second: nat|
        {
            &&& hour < 24
            &&& minute < 60
            &&& second < 60
            &&& s.len() == 8
            &&& #[trigger] two_digits(s.subrange(0, 2), hour)
            &&& s[2] == ':'
            &&& #[trigger] two_digits(s.subrange(3, 5), minute)
            &&& s[5] == ':'
            &&& #[trigger] two_digits(s.subrange(6, 8), second)
        }
}

/// Calls chrono: `Local::now`, then `format` with the pattern for hours, minutes
/// and seconds, each of which it writes as two digits. Which time it is cannot be
/// said; the contract claims that it is one. A clock that is set to a year before
/// 1970 makes `now` panic.
#[verifier::external_body]
fn local_time(pattern: &str) -> (r: String)
    requires
        pattern@ == "%H:%M:%S"@,
    ensures
        is_clock_text(r@),
{
    chrono::Local::now().format(pattern).to_string()
}

/// Whether `time` came of a reading of the clock.
pub closed spec fn is_clock_reading(time: Seq<char>) -> bool {
    exists|text: String|
        text@ == time && #[trigger] call_ensures(local_time, ("%H:%M:%S",), text)
}

/// A message as it stands in the log.
pub open spec fn stamped_text(time: Seq<char>, msg: Seq<char>) -> Seq<char> {
    "["@ + time + "] "@ + msg + "\n"@
}

/// A message as it stands in the log, with the time at which it came.
pub fn stamped(time: &str, msg: &str) -> (r: String)
    ensures
        r@ == stamped_text(time@, msg@),
{
    let mut line = "[".to_owned();
    line.append(time);
    line.append("] ");
    line.append(msg);
    line.append("\n");
    line
}

/// Whether `line` is `msg` with a time of day in front of it that was read from
/// the clock.
pub open spec fn is_log_line(line: Seq<char>, msg: Seq<char>) -> bool {
    exists|time: Seq<char>|
        is_clock_text(time) && is_clock_reading(time) && line == #[trigger] stamped_text(time, msg)
}

/// Appends a message to the log, with the time of day.
pub fn log(buf: &mut Vec<String>, msg: &str)
    ensures
        final(buf)@.len() == old(buf)@.len() + 1,
        final(buf)@.drop_last() == old(buf)@,
        is_log_line(final(buf)@.last()@, msg@),
{
    let time = local_time("%H:%M:%S");
    let line = stamped(time.as_str(), msg);
    assert(call_ensures(local_time, ("%H:%M:%S",), time));
    assert(is_clock_reading(time@));
    assert(is_log_line(line@, msg@));
    buf.push(line);
    assert(buf@.drop_last() =~= old(buf)@);
}

/// All lines one after the other.
pub open spec fn joined(lines: Seq<Seq<char>>) -> Seq<char>
    decreases lines.len(),
{
    if lines.len() == 0 {
        seq![]
    } else {
        joined(lines.drop_last()) + lines.last()
    }
}

/// Moves the messages that have come to the end of the text that is shown. If
/// none has come, there is nothing new to show.
pub fn drain_log(shown: &str, buf: &mut Vec<String>) -> (r: Option<String>)
    ensures
        final(buf)@.len() == 0,
        r is Some <==> old(buf)@.len() > 0,
        r matches Some(text) ==> text@ == shown@ + joined(lines_view(old(buf)@)),
{
    if buf.len() == 0 {
        return None;
    }
    let mut text = shown.to_owned();
    let mut next: usize = 0;
    let ghost lines = lines_view(buf@);
    assert(text@ =~= shown@ + joined(lines.take(0)));
    while next < buf.len()
        invariant
            next <= buf@.len(),
            lines == lines_view(buf@),
            text@ == shown@ + joined(lines.take(next as int)),
        decreases buf@.len() - next,
    {
        text.append(buf[next].as_str());
        assert(lines.take(next + 1).drop_last() =~= lines.take(next as int));
        assert(lines.take(next + 1).last() == buf@[next as int]@);
        next = next + 1;
        assert(text@ =~= shown@ + joined(lines.take(next as int)));
    }
    assert(lines.take(next as int) =~= lines);
    buf.clear();
    Some(text)
}

// ---------------------------------------------------------------------------
// The list of servers

/// The lines with a line break between each two.
pub open spec fn broken_up(lines: Seq<Seq<char>>) -> Seq<char>
    decreases lines.len(),
{
    if lines.len() == 0 {
        seq![]
    } else if lines.len() == 1 {
        lines[0]
    } else {
        broken_up(lines.drop_last()) + "\n"@ + lines.last()
    }
}

/// Takes the servers that a scan has listed, as one text. If none are listed, the
/// text that is shown stays.
pub fn drain_servers(buf: &mut Vec<String>) -> (r: Option<String>)
    ensures
        final(buf)@.len() == 0,
        r is Some <==> old(buf)@.len() > 0,
        r matches Some(text) ==> text@ == broken_up(lines_view(old(buf)@)),
{
    if buf.len() == 0 {
        return None;
    }
    let mut text = buf[0].clone();
    let mut next: usize = 1;
    let ghost lines = lines_view(buf@);
    assert(text@ == broken_up(lines.take(1)));
    while next < buf.len()
        invariant
            1 <= next <= buf@.len(),
            lines == lines_view(buf@),
            text@ == broken_up(lines.take(next as int)),
        decreases buf@.len() - next,
    {
        text.append("\n");
        text.append(buf[next].as_str());
        assert(lines.take(next + 1).drop_last() =~= lines.take(next as int));
        assert(lines.take(next + 1).last() == buf@[next as int]@);
        next = next + 1;
    }
    assert(lines.take(next as int) =~= lines);
    buf.clear();
    Some(text)
}

// ---------------------------------------------------------------------------
// Copying

/// Whether a text is put on the clipboard: an empty one is not.
pub fn is_copied(text: &str) -> (r: bool)
    ensures
        r == (text@.len() > 0),
{
    !text.is_empty()
}

/// What is copied of the list of servers: nothing while no server is known.
pub fn server_text_to_copy(shown: String) -> (r: String)
    ensures
        r@ == if shown@ == placeholder() {
            Seq::<char>::empty()
        } else {
            shown@
        },
{
    if shown == "（暂无）".to_owned() {
        String::new()
    } else {
        shown
    }
}

/// What is shown once everything has been cleared: an empty log, and no servers.
pub fn cleared() -> (r: (String, String))
    ensures
        r.0@ == Seq::<char>::empty(),
        r.1@ == placeholder(),
{
    (String::new(), "（暂无）".to_owned())
}

// ---------------------------------------------------------------------------
// Beginning and end of a diagnosis

/// What is diagnosed.
#[derive(Clone, Copy, PartialEq, Eq, Structural, Debug)]
pub enum Diagnosis {
    FullScan,
    LoopTest,
}

/// A title between two rules.
pub open spec fn ruled(title: Seq<char>) -> Seq<Seq<char>> {
    seq![
        "========================================"@,
        title,
        "========================================"@,
    ]
}

pub open spec fn opening_lines(what: Diagnosis) -> Seq<Seq<char>> {
    match what {
        Diagnosis::FullScan => ruled(" 开始全面 DHCP 发现"@),
        Diagnosis::LoopTest => ruled(" 网络环路检测开始"@),
    }
}

pub open spec fn error_lines(failure: Option<Seq<char>>) -> Seq<Seq<char>> {
    match failure {
        Some(cause) => seq!["[错误] "@ + cause],
        None => seq![],
    }
}

pub open spec fn closing_lines(what: Diagnosis, failure: Option<Seq<char>>) -> Seq<Seq<char>> {
    error_lines(failure).push(""@) + match what {
        Diagnosis::FullScan => ruled(" 全面 DHCP 发现扫描完成"@),
        Diagnosis::LoopTest => ruled(" 网络环路检测完成"@),
    }
}

fn push_ruled(lines: &mut Vec<String>, title: &str)
    ensures
        lines_view(final(lines)@) == lines_view(old(lines)@) + ruled(title@),
{
    push_text(lines, "========================================");
    push_text(lines, title);
    push_text(lines, "========================================");
    assert(lines_view(lines@) =~= lines_view(old(lines)@) + ruled(title@));
}

/// The lines that a diagnosis begins with.
pub fn opening(what: Diagnosis) -> (r: Vec<String>)
    ensures
        lines_view(r@) == opening_lines(what),
{
    let mut lines = no_lines();
    match what {
        Diagnosis::FullScan => push_ruled(&mut lines, " 开始全面 DHCP 发现"),
        Diagnosis::LoopTest => push_ruled(&mut lines, " 网络环路检测开始"),
    }
    assert(lines_view(lines@) =~= opening_lines(what));
    lines
}

/// The lines that a diagnosis ends with, whether it failed or not.
pub fn closing(what: Diagnosis, outcome: &Result<(), String>) -> (r: Vec<String>)
    ensures
        lines_view(r@) == closing_lines(
            what,
            match outcome {
                Ok(_) => None,
                Err(cause) => Some(cause@),
            },
        ),
{
    let mut lines = no_lines();
    if let Err(cause) = outcome {
        let mut line = "[错误] ".to_owned();
        line.append(cause.as_str());
        push_line(&mut lines, line);
    }
    push_text(&mut lines, "");
    match what {
        Diagnosis::FullScan => push_ruled(&mut lines, " 全面 DHCP 发现扫描完成"),
        Diagnosis::LoopTest => push_ruled(&mut lines, " 网络环路检测完成"),
    }
    assert(lines_view(lines@) =~= closing_lines(
        what,
        match outcome {
            Ok(_) => None,
            Err(cause) => Some(cause@),
        },
    ));
    lines
}

// ---------------------------------------------------------------------------
// Laws

/// Nothing of the log is lost or shown twice: showing the messages in two parts
/// shows what showing them at once does.
pub proof fn log_is_shown_once(first: Seq<Seq<char>>, second: Seq<Seq<char>>)
    ensures
        joined(first + second) == joined(first) + joined(second),
    decreases second.len(),
{
    if second.len() == 0 {
        assert(first + second =~= first);
        assert(joined(first) + joined(second) =~= joined(first));
    } else {
        log_is_shown_once(first, second.drop_last());
        assert((first + second).drop_last() =~= first + second.drop_last());
        assert((first + second).last() == second.last());
        assert(joined(first + second) =~= joined(first) + joined(second));
    }
}

/// One message is shown as it is.
pub proof fn one_message_is_shown_as_it_is(line: Seq<char>)
    ensures
        joined(seq![line]) == line,
        broken_up(seq![line]) == line,
        joined(Seq::<Seq<char>>::empty()) == Seq::<char>::empty(),
{
    assert(seq![line].drop_last() =~= Seq::<Seq<char>>::empty());
    assert(joined(seq![line].drop_last()) =~= Seq::<char>::empty());
    assert(joined(seq![line]) =~= line);
}

/// The list of servers has a line break between each two of its lines and nowhere
/// else.
pub proof fn lines_are_broken_up(first: Seq<Seq<char>>, second: Seq<Seq<char>>)
    requires
        first.len() > 0,
        second.len() > 0,
    ensures
        broken_up(first + second) == broken_up(first) + "\n"@ + broken_up(second),
    decreases second.len(),
{
    let all = first + second;
    assert(all.drop_last() =~= first + second.drop_last());
    assert(all.last() == second.last());
    if second.len() == 1 {
        assert(first + second.drop_last() =~= first);
        assert(broken_up(second) == second[0]);
    } else {
        lines_are_broken_up(first, second.drop_last());
        assert(broken_up(all) =~= broken_up(first) + "\n"@ + broken_up(second));
    }
}

/// A message stands in the log behind its time, with a line break at the end.
pub proof fn message_stands_behind_its_time(time: Seq<char>, msg: Seq<char>)
    ensures
        ({
            let line = stamped_text(time, msg);
            &&& line.len() == time.len() + msg.len() + 4
            &&& line[0] == '['
            &&& line.subrange(1, 1 + time.len() as int) == time
            &&& line[1 + time.len() as int] == ']'
            &&& line[2 + time.len() as int] == ' '
            &&& line.subrange(3 + time.len() as int, line.len() - 1) == msg
            &&& line.last() == '\n'
        }),
{
    reveal_strlit("[");
    reveal_strlit("] ");
    reveal_strlit("\n");
    let line = stamped_text(time, msg);
    assert(line.subrange(1, 1 + time.len() as int) =~= time);
    assert(line.subrange(3 + time.len() as int, line.len() - 1) =~= msg);
}

/// A failure is told first; all else at the end is the same as without it.
pub proof fn failure_is_told_first(what: Diagnosis, cause: Seq<char>)
    ensures
        closing_lines(what, Some(cause)) == seq!["[错误] "@ + cause] + closing_lines(what, None),
        closing_lines(what, None).len() == 4,
{
    assert(closing_lines(what, Some(cause)) =~= seq!["[错误] "@ + cause] + closing_lines(what, None));
}

} // verus!
