//! Text helpers: decimal numbers, whitespace trimming and durations.

use vstd::prelude::*;

verus! {

/// Calls `String::push`: `s` gets `c` appended at its end.
#[verifier::external_body]
pub(crate) fn push_char(s: &mut String, c: char)
    ensures
        final(s)@ == old(s)@.push(c),
{
    s.push(c);
}

/// Whitespace as `char::is_whitespace` defines it (the Unicode `White_Space` property).
pub open spec fn is_unicode_whitespace(c: char) -> bool {
    let u = c as u32;
    ||| 0x09 <= u <= 0x0D
    ||| u == 0x20
    ||| u == 0x85
    ||| u == 0xA0
    ||| u == 0x1680
    ||| 0x2000 <= u <= 0x200A
    ||| u == 0x2028
    ||| u == 0x2029
    ||| u == 0x202F
    ||| u == 0x205F
    ||| u == 0x3000
}

/// `s` without its leading whitespace.
pub open spec fn trim_start_spec(s: Seq<char>) -> Seq<char>
    decreases s.len(),
{
    if s.len() > 0 && is_unicode_whitespace(s[0]) {
        trim_start_spec(s.drop_first())
    } else {
        s
    }
}

/// `s` without its trailing whitespace.
pub open spec fn trim_end_spec(s: Seq<char>) -> Seq<char>
    decreases s.len(),
{
    if s.len() > 0 && is_unicode_whitespace(s.last()) {
        trim_end_spec(s.drop_last())
    } else {
        s
    }
}

/// `s` without leading and trailing whitespace.
pub open spec fn trim_spec(s: Seq<char>) -> Seq<char> {
    trim_end_spec(trim_start_spec(s))
}

/// Calls `str::trim`: the slice of `s` without leading and trailing
/// Unicode whitespace.
#[verifier::external_body]
pub(crate) fn trim_str(s: &str) -> (r: &str)
    ensures
        r@ == trim_spec(s@),
{
    s.trim()
}

/// The first `n` characters of `s` (all of it if shorter), as a new `String`.
pub fn first_chars(s: &str, n: usize) -> (r: String)
    ensures
        r@ == s@.take(if s@.len() < n { s@.len() as int } else { n as int }),
{
    let len = s.unicode_len();
    let k = if len < n { len } else { n };
    let sub = s.substring_char(0, k);
    proof {
        assert(s@.subrange(0, k as int) =~= s@.take(k as int));
    }
    String::from_str(sub)
}

/// The character of a decimal digit.
pub open spec fn digit_char(d: int) -> char {
    (48 + d) as char
}

/// Decimal representation of `n`, without leading zeros.
pub open spec fn decimal(n: nat) -> Seq<char>
    decreases n,
{
    if n < 10 {
        seq![digit_char(n as int)]
    } else {
        decimal(n / 10).push(digit_char((n % 10) as int))
    }
}

/// Append the decimal representation of `n` to `s`.
pub fn push_decimal(s: &mut String, n: u64)
    ensures
        final(s)@ == old(s)@ + decimal(n as nat),
    decreases n,
{
    if n >= 10 {
        push_decimal(s, n / 10);
    }
    let d: u8 = (n % 10) as u8;
    let c = (48u8 + d) as char;
    push_char(s, c);
    proof {
        if n >= 10 {
            assert(decimal(n as nat) == decimal((n / 10) as nat).push(digit_char((n % 10) as int)));
        }
        assert(c == digit_char((n % 10) as int));
    }
}

/// Text of a duration given in milliseconds: the two largest units among
/// days, hours, minutes and seconds ("2d 3h", "1h 5m", "4m 0s"), or only
/// seconds below one minute ("42s").
pub open spec fn duration_text(ms: nat) -> Seq<char> {
    let seconds = ms / 1000;
    let minutes = seconds / 60;
    let hours = minutes / 60;
    let days = hours / 24;
    if days > 0 {
        decimal(days) + seq!['d', ' '] + decimal(hours % 24) + seq!['h']
    } else if hours > 0 {
        decimal(hours) + seq!['h', ' '] + decimal(minutes % 60) + seq!['m']
    } else if minutes > 0 {
        decimal(minutes) + seq!['m', ' '] + decimal(seconds % 60) + seq!['s']
    } else {
        decimal(seconds) + seq!['s']
    }
}

/// Format a duration in milliseconds for a date-range label.
pub fn format_duration(ms: u64) -> (r: String)
    ensures
        r@ == duration_text(ms as nat),
{
    let seconds = ms / 1000;
    let minutes = seconds / 60;
    let hours = minutes / 60;
    let days = hours / 24;
    let mut s = String::new();
    if days > 0 {
        push_decimal(&mut s, days);
        push_char(&mut s, 'd');
        push_char(&mut s, ' ');
        push_decimal(&mut s, hours % 24);
        push_char(&mut s, 'h');
    } else if hours > 0 {
        push_decimal(&mut s, hours);
        push_char(&mut s, 'h');
        push_char(&mut s, ' ');
        push_decimal(&mut s, minutes % 60);
        push_char(&mut s, 'm');
    } else if minutes > 0 {
        push_decimal(&mut s, minutes);
        push_char(&mut s, 'm');
        push_char(&mut s, ' ');
        push_decimal(&mut s, seconds % 60);
        push_char(&mut s, 's');
    } else {
        push_decimal(&mut s, seconds);
        push_char(&mut s, 's');
    }
    proof {
        assert(s@ =~= duration_text(ms as nat));
    }
    s
}

} // verus!
