use vstd::prelude::*;
use vstd::utf8::encode_utf8;

use crate::digits::{digits_value, is_digit, is_digit_byte, is_negative, sign_len};
use crate::time::ParseError;

verus! {

/// Billionths of an hour in one hour: the resolution at which offsets are held.
pub const UNITS_PER_HOUR: i64 = 1_000_000_000;

/// The widest offset accepted, in units of `UNITS_PER_HOUR`.
pub const MAX_UNITS: i64 = 14_000_000_000;

/// A UTC offset in hours, held exactly as a whole number of billionths of an
/// hour, with magnitude at most fourteen hours.
#[derive(Debug, PartialEq, Eq, Structural, Clone, Copy)]
pub struct Offset {
    units: i64,
}

/// The first index at or after `i` that does not hold a digit.
pub open spec fn digit_run_end(s: Seq<u8>, i: int) -> int
    decreases s.len() - i,
{
    if 0 <= i < s.len() && is_digit_byte(s[i]) {
        digit_run_end(s, i + 1)
    } else {
        i
    }
}

/// Where the whole-hours digits end.
pub open spec fn int_end(s: Seq<u8>) -> int {
    digit_run_end(s, sign_len(s))
}

pub open spec fn has_point(s: Seq<u8>) -> bool {
    int_end(s) < s.len() && s[int_end(s)] == 46
}

/// Where the fraction digits end.
pub open spec fn frac_end(s: Seq<u8>) -> int {
    if has_point(s) {
        digit_run_end(s, int_end(s) + 1)
    } else {
        int_end(s)
    }
}

/// `s` is an optional sign, digits, and optionally a point and more digits,
/// with at least one digit in all.
pub open spec fn is_decimal(s: Seq<u8>) -> bool {
    &&& frac_end(s) == s.len()
    &&& (int_end(s) > sign_len(s) || frac_end(s) > int_end(s) + 1)
}

/// The first nine fraction digits, with zeros appended where there are fewer.
pub open spec fn pad9(f: Seq<u8>) -> Seq<u8> {
    if f.len() >= 9 {
        f.take(9)
    } else {
        f + Seq::new((9 - f.len()) as nat, |i: int| 48u8)
    }
}

/// The value of decimal `s` in billionths of an hour; fraction digits past
/// the ninth are dropped.
pub open spec fn decimal_units(s: Seq<u8>) -> int {
    let whole = digits_value(s.subrange(sign_len(s), int_end(s)));
    let frac = if has_point(s) {
        digits_value(pad9(s.subrange(int_end(s) + 1, frac_end(s))))
    } else {
        0
    };
    let m = whole * UNITS_PER_HOUR + frac;
    if is_negative(s) {
        -m
    } else {
        m
    }
}

pub open spec fn pow10(n: nat) -> nat
    decreases n,
{
    if n == 0 {
        1
    } else {
        10 * pow10((n - 1) as nat)
    }
}

proof fn lemma_pow10_bound(n: nat)
    requires
        n <= 9,
    ensures
        pow10(n) <= 1_000_000_000,
{
    reveal_with_fuel(pow10, 10);
}

/// Past this magnitude, in billionths of an hour, a value read is reported
/// as one unit beyond it.
pub const READ_LIMIT_UNITS: i64 = 1_000_000_000_000_000;

/// `d` held to one unit beyond `READ_LIMIT_UNITS` either way.
pub open spec fn clamp_units(d: int) -> int {
    if d > READ_LIMIT_UNITS {
        READ_LIMIT_UNITS + 1
    } else if d < -READ_LIMIT_UNITS {
        -(READ_LIMIT_UNITS + 1)
    } else {
        d
    }
}

/// Reads `text` as a decimal number of hours, in billionths of an hour: an
/// optional sign, digits, and optionally a point and more digits. Fails with
/// `MalformedFormat` when it is no such number; the magnitude is not checked.
pub fn parse_offset(text: &str) -> (r: Result<i64, ParseError>)
    ensures
        r is Err <==> !is_decimal(encode_utf8(text@)),
        r matches Err(e) ==> e == ParseError::MalformedFormat,
        r matches Ok(u) ==> u as int == clamp_units(decimal_units(encode_utf8(text@))),
{
    let s = text.as_bytes();
    let ghost q = s@;
    let n = s.len();
    let mut i: usize = 0;
    let neg = n > 0 && s[0] == 45;
    if n > 0 && (s[0] == 43 || s[0] == 45) {
        i = 1;
    }
    let sign = i;
    let mut whole: u64 = 0;
    let mut big = false;
    while i < n && is_digit(s[i])
        invariant
            q == s@,
            n == q.len(),
            sign == sign_len(q),
            sign <= i <= n,
            digit_run_end(q, sign as int) == digit_run_end(q, i as int),
            forall|j: int| sign <= j < i ==> is_digit_byte(#[trigger] q[j]),
            !big ==> whole as int == digits_value(q.subrange(sign as int, i as int)) && whole
                <= 1_000_000,
            big ==> digits_value(q.subrange(sign as int, i as int)) > 1_000_000,
        decreases n - i,
    {
        assert(q.subrange(sign as int, i + 1).drop_last() =~= q.subrange(sign as int, i as int));
        if !big {
            let next: u64 = whole * 10 + (s[i] - 48) as u64;
            if next > 1_000_000 {
                big = true;
            } else {
                whole = next;
            }
        }
        i += 1;
    }
    let int_stop = i;
    assert(int_stop == int_end(q));
    let point = i < n && s[i] == 46;
    assert(point == has_point(q));
    if point {
        i += 1;
        while i < n && is_digit(s[i])
            invariant
                q == s@,
                n == q.len(),
                int_stop < i <= n,
                digit_run_end(q, int_stop + 1) == digit_run_end(q, i as int),
                forall|j: int| int_stop < j < i ==> is_digit_byte(#[trigger] q[j]),
            decreases n - i,
        {
            i += 1;
        }
    }
    let stop = i;
    assert(stop == frac_end(q));
    if stop != n || (int_stop == sign && !(point && stop > int_stop + 1)) {
        return Err(ParseError::MalformedFormat);
    }
    let ghost f = if point {
        q.subrange(int_stop + 1, stop as int)
    } else {
        Seq::<u8>::empty()
    };
    let mut frac: u64 = 0;
    let mut j: usize = 0;
    while j < 9
        invariant
            q == s@,
            n == q.len(),
            int_stop <= stop == n,
            point ==> int_stop + 1 <= stop,
            point ==> f == q.subrange(int_stop + 1, stop as int),
            point ==> forall|k: int| int_stop < k < stop ==> is_digit_byte(#[trigger] q[k]),
            !point ==> f == Seq::<u8>::empty() && frac == 0,
            j <= 9,
            frac as int == digits_value(pad9(f).take(j as int)),
            frac < pow10(j as nat),
        decreases 9 - j,
    {
        let d: u8 = if point && j < stop - int_stop - 1 {
            s[int_stop + 1 + j]
        } else {
            48
        };
        proof {
            if j < f.len() {
                assert(f[j as int] == d);
                assert(pad9(f)[j as int] == f[j as int]);
            } else {
                assert(pad9(f)[j as int] == 48u8);
            }
            assert(pad9(f).take(j + 1).drop_last() =~= pad9(f).take(j as int));
            lemma_pow10_bound(j as nat);
            let p = pow10(j as nat);
            let a = frac as int;
            assert(a * 10 + (d - 48) < 10 * p) by (nonlinear_arith)
                requires a < p, 0 <= d - 48 <= 9;
        }
        frac = frac * 10 + (d - 48) as u64;
        j += 1;
    }
    proof {
        lemma_pow10_bound(9);
        assert(pad9(f).take(9) =~= pad9(f));
    }
    let ghost whole_value = digits_value(q.subrange(sign as int, int_stop as int)) as int;
    let ghost frac_value = if point {
        digits_value(pad9(q.subrange(int_stop + 1, stop as int))) as int
    } else {
        0
    };
    assert(frac_value == frac as int);
    assert(decimal_units(q) == if neg {
        -(whole_value * UNITS_PER_HOUR + frac_value)
    } else {
        whole_value * UNITS_PER_HOUR + frac_value
    });
    let magnitude: u64 = if big {
        assert(whole_value * UNITS_PER_HOUR + frac_value > READ_LIMIT_UNITS) by (nonlinear_arith)
            requires whole_value > 1_000_000, frac_value >= 0;
        READ_LIMIT_UNITS as u64 + 1
    } else {
        let m: u64 = whole * (UNITS_PER_HOUR as u64) + frac;
        assert(m as int == whole_value * UNITS_PER_HOUR + frac_value);
        if m > READ_LIMIT_UNITS as u64 {
            READ_LIMIT_UNITS as u64 + 1
        } else {
            m
        }
    };
    if neg {
        Ok(-(magnitude as i64))
    } else {
        Ok(magnitude as i64)
    }
}

impl View for Offset {
    type V = int;

    closed spec fn view(&self) -> int {
        self.units as int
    }
}

impl Offset {
    pub open spec fn wf(&self) -> bool {
        -MAX_UNITS <= self@ <= MAX_UNITS
    }

    /// The offset `units` billionths of an hour.
    pub fn from_units(units: i64) -> (r: Offset)
        requires
            -MAX_UNITS <= units <= MAX_UNITS,
        ensures
            r@ == units as int,
            r.wf(),
    {
        Offset { units }
    }

    /// The offset in billionths of an hour.
    pub fn units(&self) -> (r: i64)
        ensures
            r as int == self@,
    {
        self.units
    }
}

} // verus!
