use vstd::prelude::*;

use vstd::utf8::encode_utf8;

use crate::offset::{
    decimal_units, is_decimal, parse_offset, Offset, MAX_UNITS, UNITS_PER_HOUR,
};
use crate::time::{parsed_time, Argument, ParseError, Time};

verus! {

/// Which day a converted time falls on, relative to the input's day.
#[derive(Debug, PartialEq, Eq, Structural, Clone, Copy)]
pub enum Day {
    Today,
    PrevDay,
    NextDay,
}

/// A validated conversion request: a time and the source and target offsets.
#[derive(Debug, PartialEq, Eq, Structural, Clone, Copy)]
pub struct Config {
    pub time: Time,
    pub tz: Offset,
    pub tztc: Offset,
}

/// The converted time and its day marker.
#[derive(Debug, PartialEq, Eq, Structural, Clone, Copy)]
pub struct Output {
    pub time: Time,
    pub day: Day,
}

/// `s` reads as an offset of at most fourteen hours either way.
pub open spec fn offset_accepted(s: Seq<char>) -> bool {
    &&& is_decimal(encode_utf8(s))
    &&& -MAX_UNITS <= decimal_units(encode_utf8(s)) <= MAX_UNITS
}

impl Config {
    pub open spec fn wf(&self) -> bool {
        &&& self.time.wf()
        &&& self.tz.wf()
        &&& self.tztc.wf()
    }

    /// Assembles a request from the time, source offset and target offset, in
    /// that order; later arguments are ignored.
    pub fn build(args: &Vec<String>) -> (r: Result<Config, ParseError>)
        ensures
            args@.len() == 0 ==> r == Err::<Config, ParseError>(
                ParseError::MissingArgument(Argument::Time),
            ),
            args@.len() == 1 ==> r == Err::<Config, ParseError>(
                ParseError::MissingArgument(Argument::SourceOffset),
            ),
            args@.len() == 2 ==> r == Err::<Config, ParseError>(
                ParseError::MissingArgument(Argument::TargetOffset),
            ),
            args@.len() >= 3 ==> {
                let t = parsed_time(encode_utf8(args@[0]@));
                match t {
                    Err(e) => r == Err::<Config, ParseError>(e),
                    Ok(time) => if offset_accepted(args@[1]@) && offset_accepted(args@[2]@) {
                        &&& r matches Ok(c)
                        &&& c.wf()
                        &&& c.time == time
                        &&& c.tz@ == decimal_units(encode_utf8(args@[1]@))
                        &&& c.tztc@ == decimal_units(encode_utf8(args@[2]@))
                    } else {
                        r == Err::<Config, ParseError>(ParseError::InvalidTimezone)
                    },
                }
            },
    {
        if args.len() == 0 {
            return Err(ParseError::MissingArgument(Argument::Time));
        }
        if args.len() == 1 {
            return Err(ParseError::MissingArgument(Argument::SourceOffset));
        }
        if args.len() == 2 {
            return Err(ParseError::MissingArgument(Argument::TargetOffset));
        }
        let time = match Time::build(&args[0]) {
            Ok(t) => t,
            Err(e) => return Err(e),
        };
        let Ok(tz_units) = parse_offset(args[1].as_str()) else {
            return Err(ParseError::InvalidTimezone);
        };
        let Ok(tztc_units) = parse_offset(args[2].as_str()) else {
            return Err(ParseError::InvalidTimezone);
        };
        if tz_units < -MAX_UNITS || tz_units > MAX_UNITS || tztc_units < -MAX_UNITS || tztc_units
            > MAX_UNITS {
            return Err(ParseError::InvalidTimezone);
        }
        let tz = Offset::from_units(tz_units);
        let tztc = Offset::from_units(tztc_units);
        Ok(Config { time, tz, tztc })
    }
}

pub open spec fn opposite(d: Day) -> Day {
    match d {
        Day::Today => Day::Today,
        Day::PrevDay => Day::NextDay,
        Day::NextDay => Day::PrevDay,
    }
}

/// Integer division rounding toward zero, for a positive divisor.
pub open spec fn trunc_div(a: int, b: int) -> int {
    if a >= 0 {
        a / b
    } else {
        -((-a) / b)
    }
}

/// The whole hours of an offset difference given in billionths of an hour.
pub open spec fn hour_shift(delta: int) -> int {
    trunc_div(delta, UNITS_PER_HOUR as int)
}

/// The whole minutes of what is left of the difference after its whole hours.
pub open spec fn minute_shift(delta: int) -> int {
    trunc_div((delta - hour_shift(delta) * UNITS_PER_HOUR) * 60, UNITS_PER_HOUR as int)
}

pub open spec fn raw_minute(t: Time, delta: int) -> int {
    t.minute + minute_shift(delta)
}

/// The hour carried out of (1) or borrowed into (-1) the minute field.
pub open spec fn minute_carry(t: Time, delta: int) -> int {
    if raw_minute(t, delta) >= 60 {
        1
    } else if raw_minute(t, delta) < 0 {
        -1
    } else {
        0
    }
}

pub open spec fn shifted_minute(t: Time, delta: int) -> int {
    raw_minute(t, delta) - 60 * minute_carry(t, delta)
}

/// The hour after the shift and the minute carry, before the day wraps.
pub open spec fn carried_hour(t: Time, delta: int) -> int {
    t.hour + hour_shift(delta) + minute_carry(t, delta)
}

/// One wrap across midnight, at most.
pub open spec fn wrapped_hour(h: int) -> int {
    if h >= 24 {
        h - 24
    } else if h < 0 {
        h + 24
    } else {
        h
    }
}

pub open spec fn day_of(h: int) -> Day {
    if h >= 24 {
        Day::NextDay
    } else if h < 0 {
        Day::PrevDay
    } else {
        Day::Today
    }
}

/// The time `t` moved by `delta` billionths of an hour.
pub open spec fn shifted(t: Time, delta: int) -> Output {
    Output {
        time: Time {
            hour: wrapped_hour(carried_hour(t, delta)) as i32,
            minute: shifted_minute(t, delta) as i32,
            second: t.second,
        },
        day: day_of(carried_hour(t, delta)),
    }
}

pub open spec fn delta(c: Config) -> int {
    c.tztc@ - c.tz@
}

/// What converting `c` yields.
pub open spec fn converted(c: Config) -> Output {
    shifted(c.time, delta(c))
}

proof fn lemma_shift_bounds(delta: int)
    requires
        -2 * 14_000_000_000 <= delta <= 2 * 14_000_000_000,
    ensures
        -28 <= hour_shift(delta) <= 28,
        -59 <= minute_shift(delta) <= 59,
        -(UNITS_PER_HOUR as int) < delta - hour_shift(delta) * UNITS_PER_HOUR < UNITS_PER_HOUR,
{
    let u = UNITS_PER_HOUR as int;
    let rem = delta - hour_shift(delta) * u;
    if delta >= 0 {
        assert(0 <= rem < u);
        assert(0 <= rem * 60 / u <= 59) by (nonlinear_arith)
            requires 0 <= rem < u, u == 1_000_000_000;
    } else {
        assert(-u < rem <= 0);
        assert(0 <= (-rem) * 60 / u <= 59) by (nonlinear_arith)
            requires 0 <= -rem < u, u == 1_000_000_000;
    }
}

/// Converts the time of `config` from the source offset to the target offset.
pub fn convert(config: Config) -> (r: Output)
    requires
        config.wf(),
    ensures
        r == converted(config),
{
    let t = config.time;
    let d: i64 = config.tztc.units() - config.tz.units();
    proof {
        lemma_shift_bounds(d as int);
    }
    let hours: i64 = if d >= 0 {
        d / UNITS_PER_HOUR
    } else {
        -((-d) / UNITS_PER_HOUR)
    };
    let rem: i64 = d - hours * UNITS_PER_HOUR;
    let minutes: i64 = if rem >= 0 {
        rem * 60 / UNITS_PER_HOUR
    } else {
        -((-rem) * 60 / UNITS_PER_HOUR)
    };
    let mut day = Day::Today;
    let mut converted_hour: i64 = t.hour as i64 + hours;
    let mut converted_minute: i64 = t.minute as i64 + minutes;

    if converted_minute >= 60 {
        converted_minute -= 60;
        converted_hour += 1;
    } else if converted_minute < 0 {
        converted_minute += 60;
        converted_hour -= 1;
    }

    if converted_hour >= 24 {
        converted_hour -= 24;
        day = Day::NextDay;
    } else if converted_hour < 0 {
        converted_hour += 24;
        day = Day::PrevDay;
    }

    Output {
        time: Time { hour: converted_hour as i32, minute: converted_minute as i32, second: t.second },
        day,
    }
}

/// A well-formed request always yields minutes and seconds within 0..=59, and
/// an hour within 0..=23 when the offsets differ by at most twenty-four hours.
pub proof fn lemma_converted_in_range(c: Config)
    requires
        c.wf(),
    ensures
        0 <= converted(c).time.minute <= 59,
        0 <= converted(c).time.second <= 59,
        -24 * UNITS_PER_HOUR <= c.tztc@ - c.tz@ <= 24 * UNITS_PER_HOUR ==> converted(c).time.wf(),
{
    let d = delta(c);
    lemma_shift_bounds(d);
    if -24 * UNITS_PER_HOUR <= d <= 24 * UNITS_PER_HOUR {
        assert(-24 <= hour_shift(d) <= 24);
        if hour_shift(d) == 24 || hour_shift(d) == -24 {
            assert(d - hour_shift(d) * UNITS_PER_HOUR == 0);
            assert(minute_shift(d) == 0);
        }
    }
}

/// Equal source and target offsets leave the time as it is, on the same day.
pub proof fn lemma_zero_delta(c: Config)
    requires
        c.wf(),
        c.tz == c.tztc,
    ensures
        converted(c) == (Output { time: c.time, day: Day::Today }),
{
}

/// Converting back from the target offset to the source offset restores the
/// original time; the day marker of the way back is the opposite of the first,
/// so both are `Today` when the first conversion stays on the same day.
pub proof fn lemma_round_trip(c: Config)
    requires
        c.wf(),
        converted(c).time.wf(),
    ensures
        converted(Config { time: converted(c).time, tz: c.tztc, tztc: c.tz }).time == c.time,
        converted(Config { time: converted(c).time, tz: c.tztc, tztc: c.tz }).day == opposite(
            converted(c).day,
        ),
{
    let d = delta(c);
    lemma_shift_bounds(d);
    lemma_shift_bounds(-d);
    assert(hour_shift(-d) == -hour_shift(d));
    assert(minute_shift(-d) == -minute_shift(d));
}

} // verus!
