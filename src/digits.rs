use vstd::prelude::*;

verus! {

pub open spec fn is_digit_byte(b: u8) -> bool {
    48 <= b <= 57
}

pub open spec fn all_digits(s: Seq<u8>) -> bool {
    forall|i: int| 0 <= i < s.len() ==> is_digit_byte(#[trigger] s[i])
}

/// The value of a run of decimal digits, most significant first.
pub open spec fn digits_value(s: Seq<u8>) -> nat
    decreases s.len(),
{
    if s.len() == 0 {
        0
    } else {
        digits_value(s.drop_last()) * 10 + (s.last() - 48) as nat
    }
}

/// One for a leading `+` or `-`, else zero.
pub open spec fn sign_len(s: Seq<u8>) -> int {
    if s.len() > 0 && (s[0] == 43 || s[0] == 45) {
        1
    } else {
        0
    }
}

pub open spec fn is_negative(s: Seq<u8>) -> bool {
    s.len() > 0 && s[0] == 45
}

/// The integer that `s` writes in base ten, with an optional sign.
pub open spec fn integer_value(s: Seq<u8>) -> Option<int> {
    let body = s.subrange(sign_len(s), s.len() as int);
    if body.len() > 0 && all_digits(body) {
        Some(
            if is_negative(s) {
                -(digits_value(body) as int)
            } else {
                digits_value(body) as int
            },
        )
    } else {
        None
    }
}

/// The integer that `s` writes, where it fits in an `i32`.
pub open spec fn i32_value(s: Seq<u8>) -> Option<int> {
    match integer_value(s) {
        Some(v) => if i32::MIN <= v <= i32::MAX {
            Some(v)
        } else {
            None
        },
        None => None,
    }
}

pub fn is_digit(b: u8) -> (r: bool)
    ensures
        r == is_digit_byte(b),
{
    48 <= b && b <= 57
}

/// Reads `s[start..end]` as a base-ten `i32` with an optional sign.
pub fn parse_i32(s: &[u8], start: usize, end: usize) -> (r: Option<i32>)
    requires
        start <= end <= s@.len(),
    ensures
        match r {
            Some(v) => i32_value(s@.subrange(start as int, end as int)) == Some(v as int),
            None => i32_value(s@.subrange(start as int, end as int)) is None,
        },
{
    let ghost f = s@.subrange(start as int, end as int);
    let mut i: usize = start;
    let mut neg = false;
    if i < end && (s[i] == 43 || s[i] == 45) {
        neg = s[i] == 45;
        i += 1;
    }
    let body_start = i;
    assert(f.subrange(sign_len(f), f.len() as int) =~= s@.subrange(body_start as int, end as int));
    assert(neg == is_negative(f));
    if i == end {
        return None;
    }
    let mut acc: u64 = 0;
    let mut big = false;
    while i < end
        invariant
            body_start <= i <= end <= s@.len(),
            f == s@.subrange(start as int, end as int),
            f.subrange(sign_len(f), f.len() as int) == s@.subrange(body_start as int, end as int),
            neg == is_negative(f),
            body_start < end,
            all_digits(s@.subrange(body_start as int, i as int)),
            !big ==> acc as int == digits_value(s@.subrange(body_start as int, i as int)) && acc
                <= 2147483648,
            big ==> digits_value(s@.subrange(body_start as int, i as int)) > 2147483648,
        decreases end - i,
    {
        let b = s[i];
        if !is_digit(b) {
            assert(s@.subrange(body_start as int, end as int)[i - body_start] == b);
            assert(!all_digits(s@.subrange(body_start as int, end as int)));
            assert(integer_value(f) is None);
            return None;
        }
        let ghost prev = s@.subrange(body_start as int, i as int);
        assert(s@.subrange(body_start as int, i + 1).drop_last() =~= prev);
        if !big {
            let next: u64 = acc * 10 + (b - 48) as u64;
            if next > 2147483648 {
                big = true;
            } else {
                acc = next;
            }
        }
        i += 1;
    }
    if big {
        return None;
    }
    if neg {
        Some((-(acc as i64)) as i32)
    } else if acc <= 2147483647 {
        Some(acc as i32)
    } else {
        None
    }
}

} // verus!
