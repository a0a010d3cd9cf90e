//! Verified text helpers: decimal rendering of counters, duration and byte
//! formatting for reports, and the ASCII case folding used to classify file
//! extensions.

use vstd::prelude::*;

verus! {

/// The decimal digit character for a value below ten.
pub open spec fn digit_char(d: int) -> char {
    if d == 0 {
        '0'
    } else if d == 1 {
        '1'
    } else if d == 2 {
        '2'
    } else if d == 3 {
        '3'
    } else if d == 4 {
        '4'
    } else if d == 5 {
        '5'
    } else if d == 6 {
        '6'
    } else if d == 7 {
        '7'
    } else if d == 8 {
        '8'
    } else {
        '9'
    }
}

/// The decimal rendering of a non-negative integer, most significant digit
/// first, with no leading zeros (`0` itself renders as "0").
pub open spec fn spec_decimal(n: int) -> Seq<char>
    decreases n,
{
    if n < 10 {
        seq![digit_char(n)]
    } else {
        spec_decimal(n / 10).push(digit_char(n % 10))
    }
}

fn digit_str(d: u128) -> (r: &'static str)
    requires
        d < 10,
    ensures
        r@ == seq![digit_char(d as int)],
{
    proof {
        reveal_strlit("0");
        reveal_strlit("1");
        reveal_strlit("2");
        reveal_strlit("3");
        reveal_strlit("4");
        reveal_strlit("5");
        reveal_strlit("6");
        reveal_strlit("7");
        reveal_strlit("8");
        reveal_strlit("9");
    }
    let r: &'static str = if d == 0 {
        "0"
    } else if d == 1 {
        "1"
    } else if d == 2 {
        "2"
    } else if d == 3 {
        "3"
    } else if d == 4 {
        "4"
    } else if d == 5 {
        "5"
    } else if d == 6 {
        "6"
    } else if d == 7 {
        "7"
    } else if d == 8 {
        "8"
    } else {
        "9"
    };
    proof {
        assert(r@ =~= seq![digit_char(d as int)]);
    }
    r
}

/// Renders a counter or measurement in decimal.
pub fn format_u128(n: u128) -> (s: String)
    ensures
        s@ == spec_decimal(n as int),
    decreases n,
{
    if n < 10 {
        let d = digit_str(n);
        d.to_owned()
    } else {
        let mut s = format_u128(n / 10);
        s.append(digit_str(n % 10));
        proof {
            assert(s@ =~= spec_decimal(n as int));
        }
        s
    }
}

/// The rendering of a duration given in milliseconds: minutes and seconds
/// appear only when non-zero, the millisecond remainder always appears.
pub open spec fn spec_fmt_duration(t: int) -> Seq<char> {
    let millis = t % 1000;
    let secs = (t / 1000) % 60;
    let mins = (t / 1000) / 60;
    (if mins > 0 {
        spec_decimal(mins) + "m "@
    } else {
        Seq::<char>::empty()
    }) + (if secs > 0 {
        spec_decimal(secs) + "s "@
    } else {
        Seq::<char>::empty()
    }) + spec_decimal(millis) + "ms"@
}

/// Renders a duration, given as a number of milliseconds, as minutes,
/// seconds and milliseconds, leaving out the leading parts that are zero.
pub fn fmt_duration(duration: u128) -> (s: String)
    ensures
        s@ == spec_fmt_duration(duration as int),
{
    proof {
        reveal_strlit("m ");
        reveal_strlit("s ");
        reveal_strlit("ms");
    }
    let millis = duration % 1000;
    let secs = (duration / 1000) % 60;
    let mins = (duration / 1000) / 60;
    let mut s = String::new();
    if mins > 0 {
        let part = format_u128(mins);
        s.append(part.as_str());
        s.append("m ");
    }
    if secs > 0 {
        let part = format_u128(secs);
        s.append(part.as_str());
        s.append("s ");
    }
    let part = format_u128(millis);
    s.append(part.as_str());
    s.append("ms");
    proof {
        assert(s@ =~= spec_fmt_duration(duration as int));
    }
    s
}

/// Two-digit rendering of a fraction in hundredths, zero-padded on the left.
pub open spec fn spec_two_frac_digits(f: int) -> Seq<char> {
    if f < 10 {
        seq!['0', digit_char(f)]
    } else {
        spec_decimal(f)
    }
}

/// The rendering of a byte count: plain bytes below one KiB, otherwise KiB
/// or MiB with two fractional digits, rounded to the nearest hundredth
/// (half away from zero).
pub open spec fn spec_fmt_bytes(b: int) -> Seq<char> {
    if b < 1024 {
        spec_decimal(b) + " B"@
    } else if b < 1048576 {
        let h = (b * 100 + 512) / 1024;
        spec_decimal(h / 100) + "."@ + spec_two_frac_digits(h % 100) + " KiB"@
    } else {
        let h = (b * 100 + 524288) / 1048576;
        spec_decimal(h / 100) + "."@ + spec_two_frac_digits(h % 100) + " MiB"@
    }
}

/// Renders a byte count for the log: B below one KiB, otherwise KiB or MiB
/// with two fractional digits.
pub fn fmt_bytes(bytes: u64) -> (s: String)
    ensures
        s@ == spec_fmt_bytes(bytes as int),
{
    proof {
        reveal_strlit(" B");
        reveal_strlit(".");
        reveal_strlit(" KiB");
        reveal_strlit(" MiB");
        reveal_strlit("0");
    }
    if bytes < 1024 {
        let mut s = format_u128(bytes as u128);
        s.append(" B");
        proof {
            assert(s@ =~= spec_fmt_bytes(bytes as int));
        }
        s
    } else {
        let (h, unit): (u128, &'static str) = if bytes < 1048576 {
            ((bytes as u128 * 100 + 512) / 1024, " KiB")
        } else {
            ((bytes as u128 * 100 + 524288) / 1048576, " MiB")
        };
        let mut s = format_u128(h / 100);
        s.append(".");
        let frac = h % 100;
        if frac < 10 {
            s.append("0");
        }
        let part = format_u128(frac);
        s.append(part.as_str());
        s.append(unit);
        proof {
            assert(s@ =~= spec_fmt_bytes(bytes as int));
        }
        s
    }
}

/// Lower-cases an ASCII letter and leaves every other character unchanged.
pub open spec fn lower_char(c: char) -> char {
    if c == 'A' {
        'a'
    } else if c == 'B' {
        'b'
    } else if c == 'C' {
        'c'
    } else if c == 'D' {
        'd'
    } else if c == 'E' {
        'e'
    } else if c == 'F' {
        'f'
    } else if c == 'G' {
        'g'
    } else if c == 'H' {
        'h'
    } else if c == 'I' {
        'i'
    } else if c == 'J' {
        'j'
    } else if c == 'K' {
        'k'
    } else if c == 'L' {
        'l'
    } else if c == 'M' {
        'm'
    } else if c == 'N' {
        'n'
    } else if c == 'O' {
        'o'
    } else if c == 'P' {
        'p'
    } else if c == 'Q' {
        'q'
    } else if c == 'R' {
        'r'
    } else if c == 'S' {
        's'
    } else if c == 'T' {
        't'
    } else if c == 'U' {
        'u'
    } else if c == 'V' {
        'v'
    } else if c == 'W' {
        'w'
    } else if c == 'X' {
        'x'
    } else if c == 'Y' {
        'y'
    } else if c == 'Z' {
        'z'
    } else {
        c
    }
}

/// The character-wise ASCII lower-casing of a character sequence.
pub open spec fn lower_chars(s: Seq<char>) -> Seq<char> {
    s.map(|i: int, c: char| lower_char(c))
}

fn lower_char_exec(c: char) -> (r: char)
    ensures
        r == lower_char(c),
{
    if c == 'A' {
        'a'
    } else if c == 'B' {
        'b'
    } else if c == 'C' {
        'c'
    } else if c == 'D' {
        'd'
    } else if c == 'E' {
        'e'
    } else if c == 'F' {
        'f'
    } else if c == 'G' {
        'g'
    } else if c == 'H' {
        'h'
    } else if c == 'I' {
        'i'
    } else if c == 'J' {
        'j'
    } else if c == 'K' {
        'k'
    } else if c == 'L' {
        'l'
    } else if c == 'M' {
        'm'
    } else if c == 'N' {
        'n'
    } else if c == 'O' {
        'o'
    } else if c == 'P' {
        'p'
    } else if c == 'Q' {
        'q'
    } else if c == 'R' {
        'r'
    } else if c == 'S' {
        's'
    } else if c == 'T' {
        't'
    } else if c == 'U' {
        'u'
    } else if c == 'V' {
        'v'
    } else if c == 'W' {
        'w'
    } else if c == 'X' {
        'x'
    } else if c == 'Y' {
        'y'
    } else if c == 'Z' {
        'z'
    } else {
        c
    }
}

/// Compares two strings for equality up to ASCII letter case.
pub fn eq_ignore_ascii_case(s: &str, t: &str) -> (r: bool)
    ensures
        r == (lower_chars(s@) == lower_chars(t@)),
{
    let n = s.unicode_len();
    if n != t.unicode_len() {
        proof {
            assert(lower_chars(s@).len() == s@.len());
            assert(lower_chars(t@).len() == t@.len());
        }
        return false;
    }
    let mut i: usize = 0;
    while i < n
        invariant
            n == s@.len(),
            n == t@.len(),
            i <= n,
            forall|j: int| 0 <= j < i ==> lower_char(s@[j]) == lower_char(t@[j]),
        decreases n - i,
    {
        if lower_char_exec(s.get_char(i)) != lower_char_exec(t.get_char(i)) {
            proof {
                assert(lower_chars(s@)[i as int] != lower_chars(t@)[i as int]);
            }
            return false;
        }
        i += 1;
    }
    proof {
        assert(lower_chars(s@) =~= lower_chars(t@));
    }
    true
}

} // verus!
