//! Text made of numbers: decimal and hexadecimal notation.

use vstd::prelude::*;

verus! {

/// `String::push` of the standard library appends one character.
pub assume_specification[ String::push ](s: &mut String, c: char)
    ensures
        final(s)@ == old(s)@.push(c),
;

/// The character that stands for the decimal digit `d`.
pub open spec fn decimal_digit(d: nat) -> char {
    (48 + d) as char
}

/// `n` in decimal notation, without leading zeros.
pub open spec fn decimal(n: nat) -> Seq<char>
    decreases n,
{
    if n < 10 {
        seq![decimal_digit(n)]
    } else {
        decimal(n / 10).push(decimal_digit(n % 10))
    }
}

/// The character that stands for the hexadecimal digit `d`, in capitals.
pub open spec fn hex_digit(d: nat) -> char {
    if d < 10 {
        (48 + d) as char
    } else {
        (55 + d) as char
    }
}

/// The lowest `width` hexadecimal digits of `n`, in capitals.
pub open spec fn hex(n: nat, width: nat) -> Seq<char>
    decreases width,
{
    if width == 0 {
        seq![]
    } else {
        hex(n / 16, (width - 1) as nat).push(hex_digit(n % 16))
    }
}

/// Appends `n` in decimal notation.
pub fn push_decimal(out: &mut String, n: u64)
    ensures
        final(out)@ == old(out)@ + decimal(n as nat),
    decreases n,
{
    if n >= 10 {
        push_decimal(out, n / 10);
    }
    let digit: u8 = (n % 10) as u8;
    out.push((48 + digit) as char);
    assert(out@ =~= old(out)@ + decimal(n as nat));
}

/// Appends the lowest `width` hexadecimal digits of `n`, in capitals.
pub fn push_hex(out: &mut String, n: u32, width: u8)
    ensures
        final(out)@ == old(out)@ + hex(n as nat, width as nat),
    decreases width,
{
    if width > 0 {
        push_hex(out, n / 16, width - 1);
        let digit: u8 = (n % 16) as u8;
        if digit < 10 {
            out.push((48 + digit) as char);
        } else {
            out.push((55 + digit) as char);
        }
    }
    assert(out@ =~= old(out)@ + hex(n as nat, width as nat));
}

/// The views of the lines of a text.
pub open spec fn lines_view(lines: Seq<String>) -> Seq<Seq<char>> {
    lines.map_values(|s: String| s@)
}

/// Appends a line.
pub fn push_line(lines: &mut Vec<String>, line: String)
    ensures
        lines_view(final(lines)@) == lines_view(old(lines)@).push(line@),
{
    lines.push(line);
    assert(lines_view(lines@) =~= lines_view(old(lines)@).push(line@));
}

/// Appends a line of fixed text.
pub fn push_text(lines: &mut Vec<String>, line: &str)
    ensures
        lines_view(final(lines)@) == lines_view(old(lines)@).push(line@),
{
    push_line(lines, line.to_owned());
}

/// No lines.
pub fn no_lines() -> (r: Vec<String>)
    ensures
        lines_view(r@) == Seq::<Seq<char>>::empty(),
{
    let lines: Vec<String> = Vec::new();
    assert(lines_view(lines@) =~= Seq::<Seq<char>>::empty());
    lines
}

// ---------------------------------------------------------------------------
// Laws

/// The number that decimal digits spell.
pub open spec fn decimal_value(s: Seq<char>) -> int
    decreases s.len(),
{
    if s.len() == 0 {
        0
    } else {
        10 * decimal_value(s.drop_last()) + (s.last() as int - '0' as int)
    }
}

/// A number in decimal notation reads back: it is spelt by digits alone, without
/// a leading zero.
pub proof fn decimal_reads_back(n: nat)
    ensures
        decimal_value(decimal(n)) == n,
        decimal(n).len() >= 1,
        forall|i: int| 0 <= i < decimal(n).len() ==> '0' <= #[trigger] decimal(n)[i] <= '9',
        decimal(n)[0] == '0' ==> n == 0,
    decreases n,
{
    if n < 10 {
        assert(decimal(n).drop_last() =~= seq![]);
        assert(decimal_value(decimal(n)) == n) by {
            reveal_with_fuel(decimal_value, 2);
        }
    } else {
        decimal_reads_back(n / 10);
        assert(decimal(n).drop_last() =~= decimal(n / 10));
        assert(decimal(n)[0] == decimal(n / 10)[0]);
        assert forall|i: int| 0 <= i < decimal(n).len() implies '0' <= #[trigger] decimal(n)[i]
            <= '9' by {
            if i < decimal(n / 10).len() {
                assert(decimal(n)[i] == decimal(n / 10)[i]);
            }
        }
    }
}

/// The number that hexadecimal digits in capitals spell.
pub open spec fn hex_value(s: Seq<char>) -> int
    decreases s.len(),
{
    if s.len() == 0 {
        0
    } else {
        16 * hex_value(s.drop_last()) + if s.last() <= '9' {
            s.last() as int - '0' as int
        } else {
            s.last() as int - 'A' as int + 10
        }
    }
}

/// How many numbers `width` hexadecimal digits can spell.
pub open spec fn hex_range(width: nat) -> nat
    decreases width,
{
    if width == 0 {
        1
    } else {
        16 * hex_range((width - 1) as nat)
    }
}

/// A number that has room reads back from hexadecimal notation of a given width.
pub proof fn hex_reads_back(n: nat, width: nat)
    requires
        n < hex_range(width),
    ensures
        hex(n, width).len() == width,
        hex_value(hex(n, width)) == n,
        forall|i: int|
            0 <= i < width ==> '0' <= #[trigger] hex(n, width)[i] <= '9' || 'A' <= hex(n, width)[i]
                <= 'F',
    decreases width,
{
    if width > 0 {
        let front = hex(n / 16, (width - 1) as nat);
        hex_reads_back(n / 16, (width - 1) as nat);
        assert(hex(n, width).drop_last() =~= front);
        assert forall|i: int| 0 <= i < width implies '0' <= #[trigger] hex(n, width)[i] <= '9'
            || 'A' <= hex(n, width)[i] <= 'F' by {
            if i < width - 1 {
                assert(hex(n, width)[i] == front[i]);
            }
        }
    }
}

/// Eight hexadecimal digits spell every 32-bit number.
pub proof fn eight_digits_are_enough(n: u32)
    ensures
        hex(n as nat, 8).len() == 8,
        hex_value(hex(n as nat, 8)) == n,
{
    reveal_with_fuel(hex_range, 9);
    assert(hex_range(8) == 0x1_0000_0000);
    hex_reads_back(n as nat, 8);
}

} // verus!
