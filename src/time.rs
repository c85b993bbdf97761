use vstd::prelude::*;
use vstd::utf8::encode_utf8;

use crate::digits::{i32_value, parse_i32};

verus! {

/// Why a time of day or an offset could not be read.
#[derive(Debug, PartialEq, Eq, Structural, Clone, Copy)]
pub enum ParseError {
    MissingArgument(Argument),
    MalformedFormat,
    InvalidHour,
    InvalidMinute,
    InvalidSecond,
    InvalidTimezone,
}

/// The positional inputs, in order.
#[derive(Debug, PartialEq, Eq, Structural, Clone, Copy)]
pub enum Argument {
    Time,
    SourceOffset,
    TargetOffset,
}

/// A clock time. A well-formed one has each field within its bounds.
#[derive(Debug, PartialEq, Eq, Structural, Clone, Copy)]
pub struct Time {
    pub hour: i32,
    pub minute: i32,
    pub second: i32,
}

/// The first index at or after `i` that holds a `:`, or the length of `s`.
pub open spec fn next_colon(s: Seq<u8>, i: int) -> int
    decreases s.len() - i,
{
    if 0 <= i < s.len() && s[i] != 58 {
        next_colon(s, i + 1)
    } else {
        i
    }
}

/// The `:`-separated fields of `s` from index `start` on.
pub open spec fn fields_from(s: Seq<u8>, start: int) -> Seq<Seq<u8>>
    decreases s.len() - start,
    via fields_from_decreases
{
    let e = next_colon(s, start);
    if start < 0 || e >= s.len() {
        seq![s.subrange(start, s.len() as int)]
    } else {
        seq![s.subrange(start, e)] + fields_from(s, e + 1)
    }
}

proof fn lemma_next_colon(s: Seq<u8>, i: int)
    ensures
        i <= next_colon(s, i),
        0 <= i <= s.len() ==> next_colon(s, i) <= s.len(),
    decreases s.len() - i,
{
    if 0 <= i < s.len() && s[i] != 58 {
        lemma_next_colon(s, i + 1);
    }
}

#[via_fn]
proof fn fields_from_decreases(s: Seq<u8>, start: int) {
    lemma_next_colon(s, start);
}

pub open spec fn fields(s: Seq<u8>) -> Seq<Seq<u8>> {
    fields_from(s, 0)
}

pub open spec fn all_fields_parse(fs: Seq<Seq<u8>>) -> bool {
    forall|k: int| 0 <= k < fs.len() ==> (#[trigger] i32_value(fs[k])) is Some
}

/// What reading `s` as `hour:minute:second` yields.
pub open spec fn parsed_time(s: Seq<u8>) -> Result<Time, ParseError> {
    let fs = fields(s);
    if !all_fields_parse(fs) || fs.len() != 3 {
        Err(ParseError::MalformedFormat)
    } else {
        let h = i32_value(fs[0])->0;
        let m = i32_value(fs[1])->0;
        let sec = i32_value(fs[2])->0;
        if !(0 <= h <= 23) {
            Err(ParseError::InvalidHour)
        } else if !(0 <= m <= 59) {
            Err(ParseError::InvalidMinute)
        } else if !(0 <= sec <= 59) {
            Err(ParseError::InvalidSecond)
        } else {
            Ok(Time { hour: h as i32, minute: m as i32, second: sec as i32 })
        }
    }
}

impl Time {
    pub open spec fn wf(&self) -> bool {
        &&& 0 <= self.hour <= 23
        &&& 0 <= self.minute <= 59
        &&& 0 <= self.second <= 59
    }

    /// Reads `tstring` as `hour:minute:second` and checks each field's bounds,
    /// in that order.
    pub fn build(tstring: &String) -> (r: Result<Time, ParseError>)
        ensures
            r == parsed_time(encode_utf8(tstring@)),
            r matches Ok(t) ==> t.wf(),
    {
        let bytes = tstring.as_str().as_bytes();
        let ghost s = bytes@;
        let Ok(time_vec) = Time::parse_vec(bytes) else {
            return Err(ParseError::MalformedFormat);
        };
        if time_vec.len() != 3 {
            return Err(ParseError::MalformedFormat);
        }
        proof {
            assert((i32_value(fields(s)[0])) is Some);
            assert((i32_value(fields(s)[1])) is Some);
            assert((i32_value(fields(s)[2])) is Some);
        }
        let hour = time_vec[0];
        let minute = time_vec[1];
        let second = time_vec[2];

        if hour < 0 || hour > 23 {
            return Err(ParseError::InvalidHour);
        }
        if minute < 0 || minute > 59 {
            return Err(ParseError::InvalidMinute);
        }
        if second < 0 || second > 59 {
            return Err(ParseError::InvalidSecond);
        }
        Ok(Time { hour, minute, second })
    }

    /// Reads each `:`-separated field of `text` as an `i32`.
    pub fn parse_vec(text: &[u8]) -> (r: Result<Vec<i32>, ParseError>)
        ensures
            match r {
                Ok(v) => {
                    &&& all_fields_parse(fields(text@))
                    &&& v@.len() == fields(text@).len()
                    &&& forall|k: int|
                        0 <= k < v@.len() ==> i32_value(fields(text@)[k]) == Some(
                            #[trigger] v@[k] as int,
                        )
                },
                Err(e) => e == ParseError::MalformedFormat && !all_fields_parse(fields(text@)),
            },
    {
        let ghost s = text@;
        let mut return_vec: Vec<i32> = Vec::new();
        let ghost mut done: Seq<Seq<u8>> = Seq::empty();
        let mut start: usize = 0;
        let mut i: usize = 0;
        let n = text.len();
        while i < n
            invariant
                s == text@,
                n == s.len(),
                start <= i <= n,
                next_colon(s, start as int) == next_colon(s, i as int),
                fields(s) == done + fields_from(s, start as int),
                return_vec@.len() == done.len(),
                forall|k: int|
                    0 <= k < done.len() ==> i32_value(done[k]) == Some(
                        #[trigger] return_vec@[k] as int,
                    ),
            decreases n - i,
        {
            if text[i] == 58 {
                let ghost field = s.subrange(start as int, i as int);
                assert(fields(s)[done.len() as int] == field);
                let Some(v) = parse_i32(text, start, i) else {
                    return Err(ParseError::MalformedFormat);
                };
                return_vec.push(v);
                proof {
                    lemma_next_colon(s, start as int);
                    assert(fields_from(s, start as int) =~= seq![field] + fields_from(s, i + 1));
                    done = done.push(field);
                    assert(fields(s) =~= done + fields_from(s, i + 1));
                }
                start = i + 1;
            }
            i += 1;
        }
        let ghost field = s.subrange(start as int, n as int);
        proof {
            lemma_next_colon(s, start as int);
            assert(fields_from(s, start as int) =~= seq![field]);
        }
        assert(fields(s)[done.len() as int] == field);
        let Some(v) = parse_i32(text, start, n) else {
            return Err(ParseError::MalformedFormat);
        };
        return_vec.push(v);
        proof {
            done = done.push(field);
            assert(fields(s) =~= done);
            assert forall|k: int| 0 <= k < fields(s).len() implies (#[trigger] i32_value(
                fields(s)[k],
            )) is Some by {
                assert(i32_value(done[k]) == Some(return_vec@[k] as int));
            }
        }
        Ok(return_vec)
    }
}

} // verus!
