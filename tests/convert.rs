use tzcon::{convert, parse_offset, Argument, Config, Day, Offset, Output, ParseError, Time};

fn offset(text: &str) -> Offset {
    Offset::from_units(parse_offset(text).unwrap())
}

fn config(hour: i32, minute: i32, second: i32, tz: &str, tztc: &str) -> Config {
    Config { time: Time { hour, minute, second }, tz: offset(tz), tztc: offset(tztc) }
}

fn args(items: &[&str]) -> Vec<String> {
    items.iter().map(|s| s.to_string()).collect()
}

#[test]
fn simple_convert() {
    let config = Config {
        time: Time { hour: 00, minute: 00, second: 30 },
        tz: offset("3.5"),
        tztc: offset("5.0"),
    };

    assert_eq!(
        Output { time: Time { hour: 01, minute: 30, second: 30 }, day: Day::Today },
        convert(config)
    );
}

#[test]
fn incremental_convert() {
    assert_eq!(
        Output { time: Time { hour: 02, minute: 00, second: 30 }, day: Day::Today },
        convert(Config {
            time: Time { hour: 00, minute: 30, second: 30 },
            tz: offset("3.5"),
            tztc: offset("5.0"),
        })
    );
    assert_eq!(
        Output { time: Time { hour: 01, minute: 00, second: 00 }, day: Day::NextDay },
        convert(Config {
            time: Time { hour: 23, minute: 00, second: 00 },
            tz: offset("3.0"),
            tztc: offset("5.0"),
        })
    );
}

#[test]
fn converts_into_previous_day() {
    let out = convert(config(0, 10, 5, "5.0", "3.0"));
    assert_eq!(out, Output { time: Time { hour: 22, minute: 10, second: 5 }, day: Day::PrevDay });
}

#[test]
fn negative_fraction_borrows_an_hour() {
    let out = convert(config(0, 10, 0, "0", "-0.5"));
    assert_eq!(out, Output { time: Time { hour: 23, minute: 40, second: 0 }, day: Day::PrevDay });
}

#[test]
fn sub_minute_fraction_is_truncated() {
    // 0.01 hours is 36 seconds: no whole minute.
    let out = convert(config(10, 0, 0, "0", "0.01"));
    assert_eq!(out, Output { time: Time { hour: 10, minute: 0, second: 0 }, day: Day::Today });
    // 0.02 hours is 72 seconds: one whole minute.
    let out = convert(config(10, 0, 0, "0", "-0.02"));
    assert_eq!(out, Output { time: Time { hour: 9, minute: 59, second: 0 }, day: Day::Today });
}

#[test]
fn widest_difference_wraps_only_once() {
    let out = convert(config(23, 30, 0, "-14", "14"));
    assert_eq!(out, Output { time: Time { hour: 27, minute: 30, second: 0 }, day: Day::NextDay });
}

#[test]
fn equal_offsets_keep_the_time() {
    let out = convert(config(13, 47, 9, "-7.25", "-7.25"));
    assert_eq!(out, Output { time: Time { hour: 13, minute: 47, second: 9 }, day: Day::Today });
}

#[test]
fn converting_back_restores_the_time() {
    let first = convert(config(8, 20, 45, "3.5", "-4.75"));
    assert_eq!(first, Output { time: Time { hour: 0, minute: 5, second: 45 }, day: Day::Today });
    let back = convert(Config { time: first.time, tz: offset("-4.75"), tztc: offset("3.5") });
    assert_eq!(back, Output { time: Time { hour: 8, minute: 20, second: 45 }, day: Day::Today });

    let first = convert(config(23, 0, 0, "3.0", "5.0"));
    assert_eq!(first.day, Day::NextDay);
    let back = convert(Config { time: first.time, tz: offset("5.0"), tztc: offset("3.0") });
    assert_eq!(back, Output { time: Time { hour: 23, minute: 0, second: 0 }, day: Day::PrevDay });
}

#[test]
fn time_bounds() {
    assert_eq!(Time::build(&"24:00:00".to_string()), Err(ParseError::InvalidHour));
    assert_eq!(Time::build(&"23:60:00".to_string()), Err(ParseError::InvalidMinute));
    assert_eq!(Time::build(&"23:59:60".to_string()), Err(ParseError::InvalidSecond));
    assert_eq!(Time::build(&"-1:00:00".to_string()), Err(ParseError::InvalidHour));
    assert_eq!(Time::build(&"24:60:60".to_string()), Err(ParseError::InvalidHour));
    assert_eq!(
        Time::build(&"23:59:59".to_string()),
        Ok(Time { hour: 23, minute: 59, second: 59 })
    );
    assert_eq!(Time::build(&"+7:05:00".to_string()), Ok(Time { hour: 7, minute: 5, second: 0 }));
}

#[test]
fn malformed_times() {
    for text in ["ab:00:00", "12:00", "12:00:00:00", "", "1::2", "12:0x:00", "99999999999:00:00", "+:00:00"] {
        assert_eq!(Time::build(&text.to_string()), Err(ParseError::MalformedFormat), "{text}");
    }
}

#[test]
fn parse_vec_reads_every_field() {
    assert_eq!(Time::parse_vec(b"1:-2:+3:4"), Ok(vec![1, -2, 3, 4]));
    assert_eq!(Time::parse_vec(b"2147483647:-2147483648"), Ok(vec![2147483647, -2147483648]));
    assert_eq!(Time::parse_vec(b"2147483648"), Err(ParseError::MalformedFormat));
    assert_eq!(Time::parse_vec(b"5:"), Err(ParseError::MalformedFormat));
}

#[test]
fn offsets_are_read_exactly() {
    assert_eq!(parse_offset("3.5"), Ok(3_500_000_000));
    assert_eq!(parse_offset("-0.25"), Ok(-250_000_000));
    assert_eq!(parse_offset("+.5"), Ok(500_000_000));
    assert_eq!(parse_offset("7."), Ok(7_000_000_000));
    assert_eq!(parse_offset("0.1234567891"), Ok(123_456_789));
    assert_eq!(parse_offset("14.0"), Ok(14_000_000_000));
    assert_eq!(parse_offset("-14.0"), Ok(-14_000_000_000));
    assert_eq!(offset("3.5").units(), 3_500_000_000);
}

#[test]
fn offsets_are_read_without_a_range_check() {
    assert_eq!(parse_offset("14.1"), Ok(14_100_000_000));
    assert_eq!(parse_offset("100"), Ok(100_000_000_000));
    assert_eq!(parse_offset("-1000000"), Ok(-1_000_000_000_000_000));
    assert_eq!(parse_offset("1000000.000000001"), Ok(1_000_000_000_000_001));
    assert_eq!(parse_offset("100000000000000000000"), Ok(1_000_000_000_000_001));
    assert_eq!(parse_offset("-99999999999999999999.5"), Ok(-1_000_000_000_000_001));
}

#[test]
fn malformed_offsets() {
    for text in ["", ".", "-", "abc", "1.2.3", "1e3", " 3", "+-1"] {
        assert_eq!(parse_offset(text), Err(ParseError::MalformedFormat), "{text}");
    }
}

#[test]
fn build_checks_offsets() {
    assert!(Config::build(&args(&["12:00:00", "14.0", "-14.0"])).is_ok());
    assert_eq!(Config::build(&args(&["12:00:00", "14.1", "0"])), Err(ParseError::InvalidTimezone));
    assert_eq!(Config::build(&args(&["12:00:00", "0", "-14.1"])), Err(ParseError::InvalidTimezone));
    assert_eq!(
        Config::build(&args(&["12:00:00", "-14.000000001", "0"])),
        Err(ParseError::InvalidTimezone)
    );
    assert_eq!(
        Config::build(&args(&["12:00:00", "100000000000000000000", "0"])),
        Err(ParseError::InvalidTimezone)
    );
    assert_eq!(Config::build(&args(&["12:00:00", "0", "x"])), Err(ParseError::InvalidTimezone));
    assert_eq!(Config::build(&args(&["12:60:00", "0", "x"])), Err(ParseError::InvalidMinute));
    let c = Config::build(&args(&["00:00:30", "3.5", "5.0", "extra"])).unwrap();
    assert_eq!(c, config(0, 0, 30, "3.5", "5"));
}

#[test]
fn build_reports_missing_arguments() {
    assert_eq!(Config::build(&args(&[])), Err(ParseError::MissingArgument(Argument::Time)));
    assert_eq!(
        Config::build(&args(&["12:00:00"])),
        Err(ParseError::MissingArgument(Argument::SourceOffset))
    );
    assert_eq!(
        Config::build(&args(&["12:00:00", "1"])),
        Err(ParseError::MissingArgument(Argument::TargetOffset))
    );
}

#[test]
fn output_lines() {
    let out = convert(config(0, 0, 30, "3.5", "5.0"));
    assert_eq!(out.format_output(), "Today: 01:30:30");
    let out = convert(config(23, 0, 0, "3.0", "5.0"));
    assert_eq!(out.format_output(), "Next Day: 01:00:00");
    let out = convert(config(0, 10, 5, "5.0", "3.0"));
    assert_eq!(out.format_output(), "Previous Day: 22:10:05");
    let out = Output { time: Time { hour: -5, minute: 7, second: 123 }, day: Day::PrevDay };
    assert_eq!(out.format_output(), "Previous Day: -5:07:123");
}

#[test]
fn a_difference_of_a_whole_day_stays_in_range() {
    let out = convert(config(0, 0, 0, "-12", "12"));
    assert_eq!(out, Output { time: Time { hour: 0, minute: 0, second: 0 }, day: Day::NextDay });
    let out = convert(config(23, 59, 59, "-10", "14"));
    assert_eq!(out, Output { time: Time { hour: 23, minute: 59, second: 59 }, day: Day::NextDay });
    let out = convert(config(0, 0, 1, "12", "-12"));
    assert_eq!(out, Output { time: Time { hour: 0, minute: 0, second: 1 }, day: Day::PrevDay });
}

#[test]
fn fields_are_padded_to_two_characters() {
    let out = Output { time: Time { hour: 10, minute: 0, second: 9 }, day: Day::Today };
    assert_eq!(out.format_output(), "Today: 10:00:09");
    let out = Output { time: Time { hour: -12, minute: 2147483647, second: -2147483648 }, day: Day::NextDay };
    assert_eq!(out.format_output(), "Next Day: -12:2147483647:-2147483648");
}
