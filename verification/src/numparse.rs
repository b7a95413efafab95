//! Decimal integer parsing as `str::parse` does it for `u32` and `i128`:
//! an optional sign, then one or more ASCII digits, within the type's range.
use vstd::prelude::*;
use crate::chars::slice_chars;

verus! {

pub open spec fn is_digit(c: char) -> bool {
    '0' <= c && c <= '9'
}

pub open spec fn digit_value(c: char) -> nat {
    (c as int - '0' as int) as nat
}

pub open spec fn all_digits(s: Seq<char>) -> bool {
    forall|i: int| 0 <= i < s.len() ==> is_digit(#[trigger] s[i])
}

/// The number the digits of `s` denote, most significant first.
pub open spec fn digits_value(s: Seq<char>) -> nat
    decreases s.len(),
{
    if s.len() == 0 {
        0
    } else {
        digits_value(s.drop_last()) * 10 + digit_value(s.last())
    }
}

/// The digits of an unsigned number text: `s` without one leading `+`.
pub open spec fn unsigned_digits(s: Seq<char>) -> Seq<char> {
    if s.len() > 0 && s[0] == '+' {
        s.drop_first()
    } else {
        s
    }
}

/// The value of an unsigned decimal text, if it is one.
pub open spec fn parse_nat(s: Seq<char>) -> Option<nat> {
    let d = unsigned_digits(s);
    if d.len() > 0 && all_digits(d) {
        Some(digits_value(d))
    } else {
        None
    }
}

/// The value of a signed decimal text, if it is one.
pub open spec fn parse_int(s: Seq<char>) -> Option<int> {
    if s.len() > 0 && s[0] == '-' {
        let d = s.drop_first();
        if d.len() > 0 && all_digits(d) {
            Some(-(digits_value(d) as int))
        } else {
            None
        }
    } else {
        match parse_nat(s) {
            Some(n) => Some(n as int),
            None => None,
        }
    }
}

/// Whether `s.parse::<u32>()` succeeds.
pub open spec fn parses_u32(s: Seq<char>) -> bool {
    parse_nat(s) matches Some(n) && n <= u32::MAX
}

/// Whether `s.parse::<i128>()` succeeds.
pub open spec fn parses_i128(s: Seq<char>) -> bool {
    parse_int(s) matches Some(v) && i128::MIN <= v <= i128::MAX
}

/// The value of the digits of `d`, if they are one or more digits denoting
/// at most `limit`.
fn bounded_digits(d: &Vec<char>, limit: u128) -> (r: Option<u128>)
    ensures
        match r {
            Some(v) => d@.len() > 0 && all_digits(d@) && v == digits_value(d@) && v <= limit,
            None => !(d@.len() > 0 && all_digits(d@) && digits_value(d@) <= limit),
        },
{
    if d.len() == 0 {
        return None;
    }
    let mut acc: u128 = 0;
    let mut over = false;
    let mut i: usize = 0;
    assert(d@.subrange(0, 0) =~= Seq::<char>::empty());
    while i < d.len()
        invariant
            i <= d@.len(),
            all_digits(d@.subrange(0, i as int)),
            !over ==> acc == digits_value(d@.subrange(0, i as int)) && acc <= limit,
            over ==> digits_value(d@.subrange(0, i as int)) > limit,
        decreases d@.len() - i,
    {
        let c = d[i];
        if !('0' <= c && c <= '9') {
            assert(!all_digits(d@)) by {
                assert(!is_digit(d@[i as int]));
            }
            return None;
        }
        let dv: u32 = (c as u32) - ('0' as u32);
        let ghost pre = d@.subrange(0, i as int + 1);
        assert(pre.drop_last() =~= d@.subrange(0, i as int));
        assert(pre.last() == c);
        assert(dv == digit_value(c));
        assert(dv <= 9);
        if !over {
            if dv as u128 <= limit && acc <= (limit - dv as u128) / 10 {
                acc = acc * 10 + dv as u128;
            } else {
                over = true;
            }
        }
        i += 1;
        assert(all_digits(d@.subrange(0, i as int))) by {
            assert forall|k: int| 0 <= k < i implies is_digit(#[trigger] d@.subrange(0, i as int)[k]) by {
                if k < i - 1 {
                    assert(d@.subrange(0, i as int)[k] == d@.subrange(0, i - 1)[k]);
                }
            }
        }
    }
    assert(d@.subrange(0, d@.len() as int) =~= d@);
    if over {
        None
    } else {
        Some(acc)
    }
}

/// `s.parse::<u32>()`, as an `Option`.
pub fn parse_u32(s: &Vec<char>) -> (r: Option<u32>)
    ensures
        match r {
            Some(v) => parses_u32(s@) && parse_nat(s@) == Some(v as nat),
            None => !parses_u32(s@),
        },
{
    let d = if s.len() > 0 && s[0] == '+' {
        slice_chars(s, 1, s.len())
    } else {
        slice_chars(s, 0, s.len())
    };
    assert(s@.subrange(0, s@.len() as int) =~= s@);
    assert(s@.len() > 0 ==> s@.subrange(1, s@.len() as int) =~= s@.drop_first());
    match bounded_digits(&d, 0xffff_ffff) {
        Some(v) => Some(v as u32),
        None => None,
    }
}

/// `s.parse::<i128>()`, as an `Option`.
pub fn parse_i128(s: &Vec<char>) -> (r: Option<i128>)
    ensures
        match r {
            Some(v) => parses_i128(s@) && parse_int(s@) == Some(v as int),
            None => !parses_i128(s@),
        },
{
    assert(s@.subrange(0, s@.len() as int) =~= s@);
    assert(s@.len() > 0 ==> s@.subrange(1, s@.len() as int) =~= s@.drop_first());
    if s.len() > 0 && s[0] == '-' {
        let d = slice_chars(s, 1, s.len());
        match bounded_digits(&d, 0x8000_0000_0000_0000_0000_0000_0000_0000) {
            Some(v) => {
                if v == 0x8000_0000_0000_0000_0000_0000_0000_0000 {
                    Some(i128::MIN)
                } else {
                    Some(-(v as i128))
                }
            },
            None => None,
        }
    } else {
        let d = if s.len() > 0 && s[0] == '+' {
            slice_chars(s, 1, s.len())
        } else {
            slice_chars(s, 0, s.len())
        };
        match bounded_digits(&d, 0x7fff_ffff_ffff_ffff_ffff_ffff_ffff_ffff) {
            Some(v) => Some(v as i128),
            None => None,
        }
    }
}

} // verus!

verus! {

/// Whether `s.parse::<usize>()` succeeds.
pub open spec fn parses_usize(s: Seq<char>) -> bool {
    parse_nat(s) matches Some(n) && n <= usize::MAX
}

/// `s.parse::<usize>()`, as an `Option`.
pub fn parse_usize(s: &Vec<char>) -> (r: Option<usize>)
    ensures
        match r {
            Some(v) => parses_usize(s@) && parse_nat(s@) == Some(v as nat),
            None => !parses_usize(s@),
        },
{
    let d = if s.len() > 0 && s[0] == '+' {
        slice_chars(s, 1, s.len())
    } else {
        slice_chars(s, 0, s.len())
    };
    assert(s@.subrange(0, s@.len() as int) =~= s@);
    assert(s@.len() > 0 ==> s@.subrange(1, s@.len() as int) =~= s@.drop_first());
    match bounded_digits(&d, usize::MAX as u128) {
        Some(v) => Some(v as usize),
        None => None,
    }
}

} // verus!
