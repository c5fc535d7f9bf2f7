use vstd::prelude::*;

verus! {

/// Relies on `String::push`: the character is appended at the end.
pub assume_specification[ String::push ](s: &mut String, ch: char)
    ensures
        final(s)@ == old(s)@.push(ch),
;

/// The character of the decimal digit `d`.
pub open spec fn digit_char(d: nat) -> char {
    ((48 + d) as u8) as char
}

/// The decimal rendering of `n`, without sign or leading zeros.
pub open spec fn decimal_text(n: nat) -> Seq<char>
    decreases n,
{
    if n < 10 {
        seq![digit_char(n)]
    } else {
        decimal_text(n / 10).push(digit_char(n % 10))
    }
}

/// The decimal rendering of `n`.
pub fn decimal(n: u64) -> (r: String)
    ensures
        r@ == decimal_text(n as nat),
    decreases n,
{
    if n < 10 {
        let mut s = String::new();
        s.push((48u8 + n as u8) as char);
        s
    } else {
        let mut s = decimal(n / 10);
        s.push((48u8 + (n % 10) as u8) as char);
        s
    }
}

/// The line that closes every report: two line breaks and the time of the
/// update in epoch seconds.
pub open spec fn updated_line(now: nat) -> Seq<char> {
    "\n\naktualisiert: <t:"@ + decimal_text(now) + ">"@
}

/// Appends the closing line of a report for time `now`.
pub fn push_updated_line(s: &mut String, now: u64)
    ensures
        final(s)@ == old(s)@ + updated_line(now as nat),
{
    let mut line = String::from_str("\n\naktualisiert: <t:");
    line.append(decimal(now).as_str());
    line.append(">");
    s.append(line.as_str());
}

} // verus!
