use vstd::prelude::*;
use vstd::string::{StrSliceExecFns, StringExecFns};

verus! {

/// Whether `c` is a decimal digit.
pub open spec fn is_digit(c: char) -> bool {
    '0' <= c && c <= '9'
}

/// The number a digit sequence denotes, most significant digit first.
pub open spec fn dec_value(s: Seq<char>) -> int
    decreases s.len(),
{
    if s.len() == 0 {
        0
    } else {
        dec_value(s.drop_last()) * 10 + (s.last() as int - '0' as int)
    }
}

/// The digit part of a port string: everything after an optional
/// leading plus sign, as the standard parser for unsigned numbers
/// accepts it.
pub open spec fn digit_part(s: Seq<char>) -> Seq<char> {
    if s.len() > 0 && s[0] == '+' {
        s.drop_first()
    } else {
        s
    }
}

/// Whether `s` denotes a port: a non-empty run of digits (after an
/// optional plus sign) whose value fits in sixteen bits.
pub open spec fn is_port_number(s: Seq<char>) -> bool {
    &&& digit_part(s).len() > 0
    &&& (forall|i: int| 0 <= i < digit_part(s).len() ==> is_digit(digit_part(s)[i]))
    &&& dec_value(digit_part(s)) <= 65535
}

/// The port a string denotes, when it denotes one.
pub open spec fn spec_port_value(s: Seq<char>) -> Option<u16> {
    if is_port_number(s) {
        Some(dec_value(digit_part(s)) as u16)
    } else {
        None
    }
}

/// The port a session actually connects with: the denoted number, or
/// the standard default when the string denotes none.
pub open spec fn spec_effective_port(s: Seq<char>) -> u16 {
    match spec_port_value(s) {
        Some(n) => n,
        None => 5432,
    }
}

/// A digit sequence denotes a non-negative number.
proof fn lemma_dec_value_nonneg(s: Seq<char>)
    requires
        forall|i: int| 0 <= i < s.len() ==> is_digit(s[i]),
    ensures
        dec_value(s) >= 0,
    decreases s.len(),
{
    if s.len() > 0 {
        lemma_dec_value_nonneg(s.drop_last());
    }
}

/// Extending a digit sequence never shrinks its value.
proof fn lemma_dec_value_prefix(s: Seq<char>, m: int)
    requires
        forall|i: int| 0 <= i < s.len() ==> is_digit(s[i]),
        0 <= m <= s.len(),
    ensures
        dec_value(s.subrange(0, m)) <= dec_value(s),
    decreases s.len() - m,
{
    if m < s.len() {
        let t = s.subrange(0, m + 1);
        assert(t.drop_last() =~= s.subrange(0, m));
        lemma_dec_value_nonneg(s.subrange(0, m));
        lemma_dec_value_prefix(s, m + 1);
    } else {
        assert(s.subrange(0, m) =~= s);
    }
}

/// Reads a port string as the session does: the denoted number when it
/// is one, the standard default otherwise.
pub fn effective_port(s: &str) -> (r: u16)
    ensures
        r == spec_effective_port(s@),
{
    match parse_port(s) {
        Some(n) => n,
        None => 5432,
    }
}

/// Reads the number a port string denotes, when it denotes one.
pub fn parse_port(s: &str) -> (r: Option<u16>)
    ensures
        r == spec_port_value(s@),
{
    let len = s.unicode_len();
    let start: usize = if len > 0 && s.get_char(0) == '+' {
        1
    } else {
        0
    };
    proof {
        assert(digit_part(s@) =~= s@.subrange(start as int, len as int));
    }
    if start >= len {
        return None;
    }
    let ghost d = digit_part(s@);
    let mut value: u32 = 0;
    let mut i: usize = start;
    while i < len
        invariant
            start <= i <= len,
            len == s@.len(),
            d == digit_part(s@),
            d =~= s@.subrange(start as int, len as int),
            start < len,
            forall|j: int| 0 <= j < i - start ==> is_digit(d[j]),
            value == dec_value(d.subrange(0, i - start)),
            value <= 65535,
        decreases len - i,
    {
        let c = s.get_char(i);
        proof {
            assert(d[i - start] == s@[i as int]);
        }
        if c < '0' || c > '9' {
            proof {
                assert(!is_digit(d[i - start]));
            }
            return None;
        }
        let digit: u32 = c as u32 - '0' as u32;
        let next: u32 = value * 10 + digit;
        proof {
            let t = d.subrange(0, i - start + 1);
            assert(t.drop_last() =~= d.subrange(0, i - start));
            assert(t.last() == d[i - start]);
        }
        if next > 65535 {
            proof {
                if forall|j: int| 0 <= j < d.len() ==> is_digit(d[j]) {
                    lemma_dec_value_prefix(d, i - start + 1);
                    assert(dec_value(d) > 65535);
                }
                assert(!is_port_number(s@));
            }
            return None;
        }
        value = next;
        i = i + 1;
    }
    proof {
        assert(d.subrange(0, len - start) =~= d);
        assert(is_port_number(s@));
    }
    Some(value as u16)
}

/// The character for one digit.
pub open spec fn spec_digit_char(d: int) -> char {
    if d == 0 {
        '0'
    } else if d == 1 {
        '1'
    } else if d == 2 {
        '2'
    } else if d == 3 {
        '3'
    } else if d == 4 {
        '4'
    } else if d == 5 {
        '5'
    } else if d == 6 {
        '6'
    } else if d == 7 {
        '7'
    } else if d == 8 {
        '8'
    } else {
        '9'
    }
}

/// The decimal writing of a number, without sign or padding.
pub open spec fn spec_decimal(n: int) -> Seq<char>
    decreases n,
{
    if n < 10 {
        seq![spec_digit_char(n)]
    } else {
        spec_decimal(n / 10).push(spec_digit_char(n % 10))
    }
}

/// The one-character string for one digit.
fn digit_str(d: u16) -> (r: &'static str)
    requires
        d < 10,
    ensures
        r@ == seq![spec_digit_char(d as int)],
{
    proof {
        reveal_strlit("0");
        reveal_strlit("1");
        reveal_strlit("2");
        reveal_strlit("3");
        reveal_strlit("4");
        reveal_strlit("5");
        reveal_strlit("6");
        reveal_strlit("7");
        reveal_strlit("8");
        reveal_strlit("9");
    }
    let r = match d {
        0 => "0",
        1 => "1",
        2 => "2",
        3 => "3",
        4 => "4",
        5 => "5",
        6 => "6",
        7 => "7",
        8 => "8",
        _ => "9",
    };
    proof {
        assert(r@ =~= seq![spec_digit_char(d as int)]);
    }
    r
}

/// Writes `n` in decimal.
pub fn decimal_string(n: u16) -> (r: String)
    ensures
        r@ == spec_decimal(n as int),
    decreases n,
{
    if n < 10 {
        let mut s = String::new();
        s.append(digit_str(n));
        proof {
            assert(s@ =~= spec_decimal(n as int));
        }
        s
    } else {
        let mut s = decimal_string(n / 10);
        s.append(digit_str(n % 10));
        proof {
            assert(s@ =~= spec_decimal(n as int));
        }
        s
    }
}

} // verus!
