use odata_params::filters::{
    parse_str, to_query_string, CompareOperator, Date, DateTime, Decimal, Error, Expr, Time, Uuid,
    Value,
};

fn compared_with(value: Value) -> Result<Expr, Error> {
    Ok(Expr::Compare(
        Box::new(Expr::Identifier("it".to_owned())),
        CompareOperator::Equal,
        Box::new(Expr::Value(value)),
    ))
}

fn days_of_month(year: i32, month: u32) -> u32 {
    let leap = year % 4 == 0 && (year % 100 != 0 || year % 400 == 0);
    match month {
        2 if leap => 29,
        2 => 28,
        4 | 6 | 9 | 11 => 30,
        _ => 31,
    }
}

#[test]
fn dates_are_the_days_of_the_calendar() {
    for year in [0, 1, 4, 100, 400, 1900, 2000, 2023, 2024, 2100, 9999] {
        for month in 0..=13u32 {
            for day in 0..=32u32 {
                let text = format!("it eq {:04}-{:02}-{:02}", year, month, day);
                let exists = (1..=12).contains(&month) && (1..=days_of_month(year, month)).contains(&day);
                let expected = if exists {
                    compared_with(Value::Date(Date::from_ymd_opt(year, month, day).unwrap()))
                } else {
                    Err(Error::ParsingDate)
                };
                assert_eq!(Date::from_ymd_opt(year, month, day).is_some(), exists, "{}", text);
                assert_eq!(parse_str(&text), expected, "{}", text);
            }
        }
    }
}

fn nanoseconds_of(fraction: &str) -> u32 {
    let mut digits: String = fraction.chars().take(9).collect();
    while digits.len() < 9 {
        digits.push('0');
    }
    digits.parse().unwrap()
}

#[test]
fn times_are_the_times_of_the_day() {
    let seconds: [Option<u32>; 6] = [None, Some(0), Some(7), Some(59), Some(60), Some(61)];
    let fractions = ["", "5", "05", "000000001", "999999999", "1234567891", "0000000000"];
    for hour in 0..=25u32 {
        for padded in [true, false] {
            if !padded && hour > 9 {
                continue;
            }
            for minute in [0u32, 1, 30, 59, 60, 99] {
                for second in seconds {
                    for fraction in fractions {
                        if second.is_none() && !fraction.is_empty() {
                            continue;
                        }
                        let mut text = if padded {
                            format!("{:02}:{:02}", hour, minute)
                        } else {
                            format!("{}:{:02}", hour, minute)
                        };
                        if let Some(second) = second {
                            text.push_str(&format!(":{:02}", second));
                        }
                        if !fraction.is_empty() {
                            text.push('.');
                            text.push_str(fraction);
                        }
                        let whole = second.unwrap_or(0);
                        let nanos = if fraction.is_empty() { 0 } else { nanoseconds_of(fraction) };
                        let expected = if hour > 23 || minute > 59 || whole > 60 {
                            Err(Error::ParsingTime)
                        } else if whole == 60 {
                            compared_with(Value::Time(
                                Time::from_hms_nano_opt(hour, minute, 59, nanos + 1_000_000_000)
                                    .unwrap(),
                            ))
                        } else {
                            compared_with(Value::Time(
                                Time::from_hms_nano_opt(hour, minute, whole, nanos).unwrap(),
                            ))
                        };
                        assert_eq!(parse_str(&format!("it eq {}", text)), expected, "{}", text);
                    }
                }
            }
        }
    }
}

fn day_before(year: i32, month: u32, day: u32) -> (i32, u32, u32) {
    if day > 1 {
        (year, month, day - 1)
    } else if month > 1 {
        (year, month - 1, days_of_month(year, month - 1))
    } else {
        (year - 1, 12, 31)
    }
}

fn day_after(year: i32, month: u32, day: u32) -> (i32, u32, u32) {
    if day < days_of_month(year, month) {
        (year, month, day + 1)
    } else if month < 12 {
        (year, month + 1, 1)
    } else {
        (year + 1, 1, 1)
    }
}

#[test]
fn offsets_move_local_time_to_utc() {
    let dates = [
        (2024, 2, 28),
        (2024, 2, 29),
        (2024, 3, 1),
        (2023, 2, 28),
        (2023, 3, 1),
        (2023, 12, 31),
        (2024, 1, 1),
        (1, 1, 1),
        (0, 1, 1),
        (9999, 12, 31),
        (2000, 2, 29),
        (1900, 2, 28),
    ];
    let times = [(0, 0, 0, 0u32), (0, 30, 0, 0), (12, 34, 56, 789_000_000), (23, 59, 59, 0), (23, 59, 60, 0)];
    for (year, month, day) in dates {
        for (hour, minute, second, nanos) in times {
            for negative in [false, true] {
                for hours in [0i64, 1, 5, 12, 23, 24, 99] {
                    for minutes in [0i64, 1, 30, 59, 60] {
                        for form in 0..3 {
                            if form == 2 && minutes != 0 {
                                continue;
                            }
                            let sign = if negative { '-' } else { '+' };
                            let mark = match form {
                                0 => format!("{}{:02}:{:02}", sign, hours, minutes),
                                1 => format!("{}{:02}{:02}", sign, hours, minutes),
                                _ => format!("{}{:02}", sign, hours),
                            };
                            let mut text = format!(
                                "it eq {:04}-{:02}-{:02}T{:02}:{:02}:{:02}",
                                year, month, day, hour, minute, second
                            );
                            if nanos > 0 {
                                text.push_str(&format!(".{:09}", nanos));
                            }
                            text.push_str(&mark);
                            let offset = hours * 3600 + minutes * 60;
                            let expected = if minutes > 59 || offset >= 86400 {
                                Err(Error::ParsingTimeZone)
                            } else {
                                let offset = if negative { -offset } else { offset };
                                let shown = if second == 60 { 59 } else { second };
                                let leap = if second == 60 { 1_000_000_000 } else { 0 };
                                let mut at = (hour * 3600 + minute * 60 + shown) as i64 - offset;
                                let mut date = (year, month, day);
                                if at < 0 {
                                    at += 86400;
                                    date = day_before(year, month, day);
                                } else if at >= 86400 {
                                    at -= 86400;
                                    date = day_after(year, month, day);
                                }
                                let at = at as u32;
                                compared_with(Value::DateTime(DateTime::new(
                                    Date::from_ymd_opt(date.0, date.1, date.2).unwrap(),
                                    Time::from_hms_nano_opt(
                                        at / 3600,
                                        at / 60 % 60,
                                        at % 60,
                                        nanos + leap,
                                    )
                                    .unwrap(),
                                )))
                            };
                            assert_eq!(parse_str(&text), expected, "{}", text);
                        }
                    }
                }
            }
        }
    }
}

fn canonical(integer: &str, fraction: Option<&str>) -> String {
    let kept = integer.trim_start_matches('0');
    let mut text = if kept.is_empty() { "0".to_owned() } else { kept.to_owned() };
    let fraction = fraction.unwrap_or("").trim_end_matches('0');
    if !fraction.is_empty() {
        text.push('.');
        text.push_str(fraction);
    }
    text
}

#[test]
fn numbers_are_held_without_idle_zeros() {
    let integers = ["0", "00", "7", "10", "0010", "1000000", "123456789012345678901234567890"];
    let fractions = [
        None,
        Some(""),
        Some("0"),
        Some("00"),
        Some("5"),
        Some("50"),
        Some("05"),
        Some("0500"),
        Some("000000000000000000001"),
        Some("123456789012345678901234567890"),
    ];
    for integer in integers {
        for fraction in fractions {
            let text = match fraction {
                Some(fraction) => format!("{}.{}", integer, fraction),
                None => integer.to_owned(),
            };
            let expected = canonical(integer, fraction);
            assert_eq!(Decimal::from_str(&text).unwrap().as_str(), expected, "{}", text);
            let negative = if expected == "0" { expected.clone() } else { format!("-{}", expected) };
            assert_eq!(
                Decimal::from_str(&format!("-{}", text)).unwrap().as_str(),
                negative,
                "-{}",
                text
            );
            let tree = parse_str(&format!("it eq {}", text)).unwrap();
            assert_eq!(
                tree,
                compared_with(Value::Number(Decimal::from_str(&expected).unwrap())).unwrap()
            );
            assert_eq!(to_query_string(&tree).unwrap(), format!("it eq {}", expected));
        }
    }
}

#[test]
fn identifiers_of_128_bits_are_their_bytes() {
    for seed in 0..64u32 {
        let mut bytes = [0u8; 16];
        for (i, byte) in bytes.iter_mut().enumerate() {
            *byte = (seed.wrapping_mul(2654435761).wrapping_add(i as u32 * 40503) >> (i % 13)) as u8;
        }
        let mut lower = String::new();
        for (i, byte) in bytes.iter().enumerate() {
            if i == 4 || i == 6 || i == 8 || i == 10 {
                lower.push('-');
            }
            lower.push_str(&format!("{:02x}", byte));
        }
        let upper = lower.to_uppercase();
        let id = Uuid::from_bytes(bytes);
        assert_eq!(Uuid::parse_str(&lower), Ok(id));
        assert_eq!(Uuid::parse_str(&upper), Ok(id));
        assert_eq!(parse_str(&format!("it eq {}", upper)), compared_with(Value::Uuid(id)));
        assert_eq!(
            to_query_string(&Expr::Value(Value::Uuid(id))).unwrap(),
            lower
        );
    }
}

#[test]
fn written_instants_are_read_back() {
    for (year, month, day) in [(0, 1, 1), (33, 3, 3), (2024, 2, 29), (9999, 12, 31)] {
        for (hour, minute, second, nanos) in
            [(0, 0, 0, 0u32), (1, 2, 3, 4_000_000), (23, 59, 59, 999_000_000), (23, 59, 59, 1_500_000_000)]
        {
            let instant = DateTime::new(
                Date::from_ymd_opt(year, month, day).unwrap(),
                Time::from_hms_nano_opt(hour, minute, second, nanos).unwrap(),
            );
            let tree = compared_with(Value::DateTime(instant)).unwrap();
            let text = to_query_string(&tree).unwrap();
            assert_eq!(parse_str(&text), Ok(tree), "{}", text);
        }
    }
}
