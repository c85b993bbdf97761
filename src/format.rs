use vstd::prelude::*;

use crate::convert::{Day, Output};

verus! {

pub open spec fn digit_char(d: nat) -> char {
    seq!['0', '1', '2', '3', '4', '5', '6', '7', '8', '9'][d as int]
}

/// The base-ten digits of `n`, without leading zeros.
pub open spec fn decimal_digits(n: nat) -> Seq<char>
    decreases n,
{
    if n < 10 {
        seq![digit_char(n)]
    } else {
        decimal_digits(n / 10).push(digit_char(n % 10))
    }
}

/// `v` in base ten, with `-` first when it is negative.
pub open spec fn signed_decimal(v: int) -> Seq<char> {
    if v < 0 {
        seq!['-'] + decimal_digits((-v) as nat)
    } else {
        decimal_digits(v as nat)
    }
}

/// `v` in base ten, filled on the left with `0` to at least two characters.
pub open spec fn two_wide(v: int) -> Seq<char> {
    if signed_decimal(v).len() < 2 {
        seq!['0'] + signed_decimal(v)
    } else {
        signed_decimal(v)
    }
}

pub open spec fn day_label(d: Day) -> Seq<char> {
    match d {
        Day::Today => "Today"@,
        Day::NextDay => "Next Day"@,
        Day::PrevDay => "Previous Day"@,
    }
}

/// The one-character string of digit `d`.
fn digit_str(d: u64) -> (r: &'static str)
    requires
        d < 10,
    ensures
        r@ == seq![digit_char(d as nat)],
{
    proof {
        reveal_strlit("0");
        reveal_strlit("1");
        reveal_strlit("2");
        reveal_strlit("3");
        reveal_strlit("4");
        reveal_strlit("5");
        reveal_strlit("6");
        reveal_strlit("7");
        reveal_strlit("8");
        reveal_strlit("9");
        assert(seq![digit_char(d as nat)] =~= seq![
            seq!['0', '1', '2', '3', '4', '5', '6', '7', '8', '9'][d as int],
        ]);
    }
    if d == 0 {
        "0"
    } else if d == 1 {
        "1"
    } else if d == 2 {
        "2"
    } else if d == 3 {
        "3"
    } else if d == 4 {
        "4"
    } else if d == 5 {
        "5"
    } else if d == 6 {
        "6"
    } else if d == 7 {
        "7"
    } else if d == 8 {
        "8"
    } else {
        "9"
    }
}

proof fn lemma_decimal_digits_len(n: nat)
    ensures
        decimal_digits(n).len() >= 1,
        n >= 10 ==> decimal_digits(n).len() >= 2,
    decreases n,
{
    if n >= 10 {
        lemma_decimal_digits_len(n / 10);
    }
}

/// `v` in base ten, filled on the left with `0` to width two.
fn two_wide_string(v: i32) -> (r: String)
    ensures
        r@ == two_wide(v as int),
{
    let mag: u64 = if v < 0 {
        (-(v as i64)) as u64
    } else {
        v as u64
    };
    let ghost whole = decimal_digits(mag as nat);
    let mut low: Vec<u64> = Vec::new();
    let ghost mut suffix: Seq<char> = Seq::empty();
    let mut cur: u64 = mag;
    while cur >= 10
        invariant
            whole == decimal_digits(mag as nat),
            whole == decimal_digits(cur as nat) + suffix,
            suffix.len() == low@.len(),
            forall|k: int| 0 <= k < low@.len() ==> #[trigger] low@[k] < 10,
            forall|k: int|
                0 <= k < low@.len() ==> suffix[k] == digit_char(
                    #[trigger] low@[low@.len() - 1 - k] as nat,
                ),
        decreases cur,
    {
        let d = cur % 10;
        proof {
            let next = seq![digit_char(d as nat)] + suffix;
            assert(decimal_digits(cur as nat) == decimal_digits((cur / 10) as nat).push(
                digit_char(d as nat),
            ));
            assert(decimal_digits(cur as nat) + suffix =~= decimal_digits((cur / 10) as nat)
                + next);
            suffix = next;
        }
        let ghost old_low = low@;
        low.push(d);
        proof {
            assert forall|k: int| 0 <= k < low@.len() implies suffix[k] == digit_char(
                #[trigger] low@[low@.len() - 1 - k] as nat,
            ) by {
                if k > 0 {
                    assert(low@[low@.len() - 1 - k] == old_low[old_low.len() - 1 - (k - 1)]);
                }
            }
        }
        cur = cur / 10;
    }
    let mut out = String::new();
    proof {
        lemma_decimal_digits_len(mag as nat);
        reveal_strlit("-");
        reveal_strlit("0");
    }
    if v < 0 {
        out.append("-");
    } else if v < 10 {
        out.append("0");
    }
    let ghost lead = out@;
    out.append(digit_str(cur));
    let mut j: usize = low.len();
    while j > 0
        invariant
            j <= low@.len(),
            suffix.len() == low@.len(),
            forall|k: int| 0 <= k < low@.len() ==> #[trigger] low@[k] < 10,
            forall|k: int|
                0 <= k < low@.len() ==> suffix[k] == digit_char(
                    #[trigger] low@[low@.len() - 1 - k] as nat,
                ),
            out@ == lead + decimal_digits(cur as nat) + suffix.take(low@.len() - j),
        decreases j,
    {
        j -= 1;
        out.append(digit_str(low[j]));
        proof {
            let t = low@.len() - j;
            assert(low@.len() - 1 - (t - 1) == j);
            assert(suffix[t - 1] == digit_char(low@[low@.len() - 1 - (t - 1)] as nat));
            assert(suffix.take(t - 1).push(suffix[t - 1]) =~= suffix.take(t));
        }
    }
    proof {
        assert(suffix.take(suffix.len() as int) =~= suffix);
        assert(out@ =~= lead + whole);
        if v < 0 {
            assert((-(v as int)) as nat == mag as nat);
        }
    }
    out
}

impl Output {
    /// The line that reports this result: the day's label, then the time as
    /// `HH:MM:SS`.
    pub fn format_output(&self) -> (r: String)
        ensures
            r@ == day_label(self.day) + ": "@ + two_wide(self.time.hour as int) + ":"@ + two_wide(
                self.time.minute as int,
            ) + ":"@ + two_wide(self.time.second as int),
    {
        let label: &str = match self.day {
            Day::Today => "Today",
            Day::NextDay => "Next Day",
            Day::PrevDay => "Previous Day",
        };
        let mut out = String::from_str(label);
        out.append(": ");
        out.append(two_wide_string(self.time.hour).as_str());
        out.append(":");
        out.append(two_wide_string(self.time.minute).as_str());
        out.append(":");
        out.append(two_wide_string(self.time.second).as_str());
        out
    }
}

} // verus!
