use odata_params::filters::{
    parse_str, to_query_string, write_query_string, CompareOperator, Date, DateTime, Decimal,
    Error, Expr, FunctionsTypeMap, IdentifiersTypeMap, Time, Type, Uuid, ValidationError, Value,
};

fn name(text: &str) -> Expr {
    Expr::Identifier(text.to_owned())
}

fn literal(text: &str) -> Expr {
    Expr::Value(Value::Number(Decimal::from_str(text).unwrap()))
}

fn equal(left: Expr, right: Expr) -> Expr {
    Expr::Compare(Box::new(left), CompareOperator::Equal, Box::new(right))
}

fn instant_of(filter: &str) -> DateTime {
    match parse_str(filter).expect("valid filter tree") {
        Expr::Compare(_, _, right) => match *right {
            Expr::Value(Value::DateTime(instant)) => instant,
            other => panic!("no instant: {:?}", other),
        },
        other => panic!("no comparison: {:?}", other),
    }
}

fn time_of(filter: &str) -> Time {
    match parse_str(filter).expect("valid filter tree") {
        Expr::Compare(_, _, right) => match *right {
            Expr::Value(Value::Time(time)) => time,
            other => panic!("no time: {:?}", other),
        },
        other => panic!("no comparison: {:?}", other),
    }
}

fn text_of(value: Value) -> String {
    to_query_string(&Expr::Value(value)).expect("valid filter")
}

#[test]
fn text_outside_the_grammar_is_refused() {
    assert_eq!(parse_str(""), Err(Error::Parsing));
    assert_eq!(parse_str("aa eq"), Err(Error::Parsing));
    assert_eq!(parse_str("aa eq 1 bb"), Err(Error::Parsing));
    assert_eq!(parse_str("(aa eq 1"), Err(Error::Parsing));
    assert_eq!(parse_str("aa eq 'open"), Err(Error::Parsing));
    assert_eq!(parse_str("ff(aa, )"), Err(Error::Parsing));
}

#[test]
fn identifier_needs_two_characters() {
    assert_eq!(parse_str("a eq 1"), Err(Error::Parsing));
    assert_eq!(parse_str("ab eq 1"), Ok(equal(name("ab"), literal("1"))));
    assert_eq!(parse_str("_1 eq 1"), Ok(equal(name("_1"), literal("1"))));
}

#[test]
fn date_that_is_no_day_is_refused() {
    assert_eq!(parse_str("dd eq 2024-02-30"), Err(Error::ParsingDate));
    assert_eq!(parse_str("dd eq 2023-02-29"), Err(Error::ParsingDate));
    assert_eq!(parse_str("dd eq 2024-13-01"), Err(Error::ParsingDate));
    assert_eq!(parse_str("dd eq 2024-00-10"), Err(Error::ParsingDate));
    assert_eq!(
        parse_str("dd eq 2024-02-29"),
        Ok(equal(name("dd"), Expr::Value(Value::Date(Date::from_ymd_opt(2024, 2, 29).unwrap()))))
    );
    assert_eq!(
        parse_str("dd eq 0000-01-01"),
        Ok(equal(name("dd"), Expr::Value(Value::Date(Date::from_ymd_opt(0, 1, 1).unwrap()))))
    );
}

#[test]
fn time_out_of_range_is_refused() {
    assert_eq!(parse_str("tt eq 25:00"), Err(Error::ParsingTime));
    assert_eq!(parse_str("tt eq 12:60"), Err(Error::ParsingTime));
    assert_eq!(parse_str("tt eq 12:00:61"), Err(Error::ParsingTime));
    assert_eq!(parse_str("at eq 2024-06-24T24:00:00Z"), Err(Error::ParsingTime));
}

#[test]
fn time_forms() {
    assert_eq!(time_of("tt eq 1:02"), Time::from_hms_opt(1, 2, 0).unwrap());
    assert_eq!(time_of("tt eq 23:59:59"), Time::from_hms_opt(23, 59, 59).unwrap());
    assert_eq!(time_of("tt eq 1:02:03.5"), Time::from_hms_nano_opt(1, 2, 3, 500_000_000).unwrap());
    assert_eq!(
        time_of("tt eq 1:02:03.1234567891"),
        Time::from_hms_nano_opt(1, 2, 3, 123_456_789).unwrap()
    );
    assert_eq!(
        time_of("tt eq 23:59:60"),
        Time::from_hms_nano_opt(23, 59, 59, 1_000_000_000).unwrap()
    );
    assert_eq!(
        time_of("tt eq 23:59:60.25"),
        Time::from_hms_nano_opt(23, 59, 59, 1_250_000_000).unwrap()
    );
}

#[test]
fn offset_out_of_range_is_refused() {
    assert_eq!(parse_str("at eq 2024-06-24T12:34:56+25:00"), Err(Error::ParsingTimeZone));
    assert_eq!(parse_str("at eq 2024-06-24T12:34:56+0260"), Err(Error::ParsingTimeZone));
    assert_eq!(parse_str("at eq 2024-06-24T12:34:56-24"), Err(Error::ParsingTimeZone));
}

#[test]
fn unknown_zone_is_refused() {
    assert_eq!(parse_str("at eq 2024-06-24T12:34:56Mars/Phobos"), Err(Error::ParsingTimeZoneNamed));
}

#[test]
fn local_time_that_no_clock_shows_is_refused() {
    assert_eq!(
        parse_str("at eq 2024-03-31T02:30:00Europe/Berlin"),
        Err(Error::ParsingDateTime)
    );
}

#[test]
fn local_time_shown_twice_is_the_earlier_instant() {
    assert_eq!(
        instant_of("at eq 2024-10-27T02:30:00Europe/Berlin"),
        DateTime::from_ymd_and_hms(2024, 10, 27, 0, 30, 0).unwrap()
    );
}

#[test]
fn failures_of_a_date_time_come_in_order() {
    assert_eq!(parse_str("at eq 2024-02-30T25:00:00+25:00"), Err(Error::ParsingDate));
    assert_eq!(parse_str("at eq 2024-02-28T25:00:00+25:00"), Err(Error::ParsingTime));
    assert_eq!(parse_str("at eq 2024-02-28T23:00:00Nowhere"), Err(Error::ParsingTimeZoneNamed));
}

#[test]
fn same_instant_in_different_forms() {
    let utc = instant_of("at eq 2024-06-24T10:34:56Z");
    assert_eq!(instant_of("at eq 2024-06-24T10:34:56+0000"), utc);
    assert_eq!(instant_of("at eq 2024-06-24T10:34:56+00:00"), utc);
    assert_eq!(instant_of("at eq 2024-06-24T10:34:56-00"), utc);
    assert_eq!(instant_of("at eq 2024-06-24T12:34:56+02:00"), utc);
    assert_eq!(instant_of("at eq 2024-06-24T12:34:56+0200"), utc);
    assert_eq!(instant_of("at eq 2024-06-24T12:34:56+02"), utc);
    assert_eq!(instant_of("at eq 2024-06-24T12:34:56Europe/Berlin"), utc);
    assert_eq!(instant_of("at eq 2024-06-24T05:04:56-05:30"), utc);
    assert_eq!(utc, DateTime::from_ymd_and_hms(2024, 6, 24, 10, 34, 56).unwrap());
}

#[test]
fn offset_moves_the_date() {
    assert_eq!(
        instant_of("at eq 2024-01-01T00:30:00+01:00"),
        DateTime::from_ymd_and_hms(2023, 12, 31, 23, 30, 0).unwrap()
    );
    assert_eq!(
        instant_of("at eq 2024-02-28T23:30:00-01:00"),
        DateTime::from_ymd_and_hms(2024, 2, 29, 0, 30, 0).unwrap()
    );
    assert_eq!(
        instant_of("at eq 2023-02-28T23:30:00-01:00"),
        DateTime::from_ymd_and_hms(2023, 3, 1, 0, 30, 0).unwrap()
    );
    assert_eq!(
        instant_of("at eq 2024-03-01T00:00:00+00:01"),
        DateTime::from_ymd_and_hms(2024, 2, 29, 23, 59, 0).unwrap()
    );
    assert_eq!(
        text_of(Value::DateTime(instant_of("at eq 9999-12-31T23:00:00-02:00"))),
        "+10000-01-01T01:00:00.000Z"
    );
    assert_eq!(
        text_of(Value::DateTime(instant_of("at eq 0000-01-01T00:00:00+00:30"))),
        "-0001-12-31T23:30:00.000Z"
    );
}

#[test]
fn date_time_keeps_the_fraction() {
    let instant = instant_of("at eq 2024-06-24T12:34:56.789123+02");
    assert_eq!(
        instant,
        DateTime::new(
            Date::from_ymd_opt(2024, 6, 24).unwrap(),
            Time::from_hms_nano_opt(10, 34, 56, 789_123_000).unwrap()
        )
    );
    assert_eq!(text_of(Value::DateTime(instant)), "2024-06-24T10:34:56.789Z");
}

#[test]
fn escape_that_names_no_character_is_refused() {
    assert_eq!(parse_str(r"ss eq '\uD800'"), Err(Error::ParsingUnicodeCodePoint));
    assert_eq!(parse_str(r"ss eq '\u110000'"), Err(Error::ParsingUnicodeCodePoint));
    assert_eq!(parse_str(r"ss eq '\u123456789'"), Err(Error::ParsingUnicodeCodePoint));
    assert_eq!(
        parse_str(r"ss eq '\u03A9f'"),
        Ok(equal(name("ss"), Expr::Value(Value::String("\u{3A9F}".to_owned()))))
    );
    assert_eq!(
        parse_str(r"ss eq '\u0000004A'"),
        Ok(equal(name("ss"), Expr::Value(Value::String("J".to_owned()))))
    );
    assert_eq!(
        parse_str(r"ss eq '\u10FFFF'"),
        Ok(equal(name("ss"), Expr::Value(Value::String("\u{10FFFF}".to_owned()))))
    );
}

#[test]
fn escapes_are_decoded() {
    assert_eq!(
        parse_str(r"ss eq 'a\nb\rc\td\\e\'f'"),
        Ok(equal(name("ss"), Expr::Value(Value::String("a\nb\rc\td\\e'f".to_owned()))))
    );
    assert_eq!(
        parse_str(r"ss eq 'a\xb\'"),
        Err(Error::Parsing)
    );
    assert_eq!(
        parse_str(r"ss eq 'a\xb\u'"),
        Ok(equal(name("ss"), Expr::Value(Value::String("a\\xb\\u".to_owned()))))
    );
    assert_eq!(
        parse_str("ss eq ''"),
        Ok(equal(name("ss"), Expr::Value(Value::String(String::new()))))
    );
}

#[test]
fn failure_of_a_literal_needs_a_text_that_follows_the_grammar() {
    assert_eq!(parse_str("2024-13-45 eq 25:00"), Err(Error::ParsingTime));
    assert_eq!(parse_str("2024-13-45 eq 12:00"), Err(Error::ParsingDate));
    assert_eq!(parse_str("2024-13-45 eq"), Err(Error::Parsing));
    assert_eq!(parse_str("aa eq 2024-13-45 or bb eq 25:00"), Err(Error::ParsingDate));
    assert_eq!(parse_str("ff(25:00, 2024-13-45)"), Err(Error::ParsingTime));
}

#[test]
fn connectives_group_to_the_right() {
    assert_eq!(
        parse_str("aa and bb or cc"),
        Ok(Expr::And(
            Box::new(name("aa")),
            Box::new(Expr::Or(Box::new(name("bb")), Box::new(name("cc"))))
        ))
    );
    assert_eq!(
        parse_str("aa or bb and cc"),
        Ok(Expr::Or(
            Box::new(name("aa")),
            Box::new(Expr::And(Box::new(name("bb")), Box::new(name("cc"))))
        ))
    );
    assert_eq!(
        parse_str("not aa or bb"),
        Ok(Expr::Not(Box::new(Expr::Or(Box::new(name("aa")), Box::new(name("bb"))))))
    );
    assert_eq!(
        parse_str("(not aa) or bb"),
        Ok(Expr::Or(Box::new(Expr::Not(Box::new(name("aa")))), Box::new(name("bb"))))
    );
}

#[test]
fn keywords_in_any_case() {
    assert_eq!(
        parse_str("aa eq TRUE and bb eq False and cc eq NuLL"),
        Ok(Expr::And(
            Box::new(equal(name("aa"), Expr::Value(Value::Bool(true)))),
            Box::new(Expr::And(
                Box::new(equal(name("bb"), Expr::Value(Value::Bool(false)))),
                Box::new(equal(name("cc"), Expr::Value(Value::Null)))
            ))
        ))
    );
    assert_eq!(parse_str("nullable eq 1"), Err(Error::Parsing));
}

#[test]
fn lists_may_be_empty() {
    assert_eq!(parse_str("now()"), Ok(Expr::Function("now".to_owned(), vec![])));
    assert_eq!(parse_str("aa in ()"), Ok(Expr::In(Box::new(name("aa")), vec![])));
    assert_eq!(
        parse_str("aa in ( 1 ,2 )"),
        Ok(Expr::In(Box::new(name("aa")), vec![literal("1"), literal("2")]))
    );
}

#[test]
fn numbers_are_exact_and_canonical() {
    assert_eq!(Decimal::from_str("007.500").unwrap().as_str(), "7.5");
    assert_eq!(Decimal::from_str("100").unwrap().as_str(), "100");
    assert_eq!(Decimal::from_str("0.0").unwrap().as_str(), "0");
    assert_eq!(Decimal::from_str("12.").unwrap().as_str(), "12");
    assert_eq!(Decimal::from_str("0.05").unwrap().as_str(), "0.05");
    assert_eq!(Decimal::from_str("-1.50").unwrap().as_str(), "-1.5");
    assert_eq!(Decimal::from_str("-0").unwrap().as_str(), "0");
    assert_eq!(
        Decimal::from_str("18446744073709551616.000000000000000000010").unwrap().as_str(),
        "18446744073709551616.00000000000000000001"
    );
    assert_eq!(Decimal::from_str("1.0").unwrap(), Decimal::from_str("1.00").unwrap());
    assert_ne!(Decimal::from_str("99.99").unwrap(), Decimal::from_str("99.990001").unwrap());
    assert_eq!(Decimal::from_str(""), Err(Error::ParsingNumber));
    assert_eq!(Decimal::from_str(".5"), Err(Error::ParsingNumber));
    assert_eq!(Decimal::from_str("1e5"), Err(Error::ParsingNumber));
    assert_eq!(Decimal::from_str("+1"), Err(Error::ParsingNumber));
    assert_eq!(Decimal::from_str("1.2.3"), Err(Error::ParsingNumber));
    assert_eq!(parse_str("aa eq 1.50"), Ok(equal(name("aa"), literal("1.5"))));
    assert_eq!(parse_str("aa eq 1."), Ok(equal(name("aa"), literal("1"))));
}

#[test]
fn literals_are_written_in_canonical_form() {
    assert_eq!(text_of(Value::Null), "null");
    assert_eq!(text_of(Value::Bool(false)), "false");
    assert_eq!(text_of(Value::Number(Decimal::from_str("1.50").unwrap())), "1.5");
    assert_eq!(
        text_of(Value::Uuid(Uuid::from_bytes([
            0xC0, 0xBD, 0x12, 0xF1, 0x9C, 0xAD, 0x40, 0x81, 0x97, 0x7A, 0x04, 0xB5, 0xAF, 0x7E,
            0xDA, 0x0E
        ]))),
        "c0bd12f1-9cad-4081-977a-04b5af7eda0e"
    );
    assert_eq!(text_of(Value::Date(Date::from_ymd_opt(33, 1, 2).unwrap())), "0033-01-02");
    assert_eq!(text_of(Value::Date(Date::from_ymd_opt(12345, 1, 2).unwrap())), "+12345-01-02");
    assert_eq!(text_of(Value::Date(Date::from_ymd_opt(-44, 3, 15).unwrap())), "-0044-03-15");
    assert_eq!(
        text_of(Value::Time(Time::from_hms_nano_opt(1, 2, 3, 999_999_999).unwrap())),
        "01:02:03"
    );
    assert_eq!(
        text_of(Value::Time(Time::from_hms_nano_opt(23, 59, 59, 1_000_000_000).unwrap())),
        "23:59:60"
    );
    assert_eq!(
        text_of(Value::DateTime(DateTime::new(
            Date::from_ymd_opt(2023, 6, 25).unwrap(),
            Time::from_hms_nano_opt(13, 0, 7, 45_678_901).unwrap()
        ))),
        "2023-06-25T13:00:07.045Z"
    );
    assert_eq!(
        text_of(Value::String("a'b\\c\nd\re\tf Ω".to_owned())),
        r"'a\'b\\c\nd\re\tf Ω'"
    );
}

#[test]
fn identifier_of_128_bits_is_read_in_either_case() {
    let bytes = [
        0xc0, 0xbd, 0x12, 0xf1, 0x9c, 0xad, 0x40, 0x81, 0x97, 0x7a, 0x04, 0xb5, 0xaf, 0x7e, 0xda,
        0x0e,
    ];
    assert_eq!(
        Uuid::parse_str("C0BD12F1-9cad-4081-977A-04b5af7eda0e"),
        Ok(Uuid::from_bytes(bytes))
    );
    assert_eq!(Uuid::parse_str("C0BD12F1-9cad-4081-977A-04b5af7eda0e").unwrap().as_bytes(), &bytes);
    assert_eq!(Uuid::parse_str("c0bd12f19cad4081977a04b5af7eda0e"), Err(Error::ParsingUuid));
    assert_eq!(Uuid::parse_str("c0bd12f1-9cad-4081-977a-04b5af7eda0"), Err(Error::ParsingUuid));
    assert_eq!(Uuid::parse_str("c0bd12f1-9cad-4081-977a-04b5af7eda0g"), Err(Error::ParsingUuid));
    assert_eq!(Uuid::parse_str("c0bd12f1-9cad-4081-977a104b5af7eda0e"), Err(Error::ParsingUuid));
    assert_eq!(Uuid::parse_str("{c0bd12f1-9cad-4081-977a-04b5af7eda0e}"), Err(Error::ParsingUuid));
    assert_eq!(Uuid::parse_str(""), Err(Error::ParsingUuid));
    assert_eq!(
        parse_str("12345678-1234-1234-1234-123456789abc eq 1"),
        Ok(equal(
            Expr::Value(Value::Uuid(Uuid::from_bytes([
                0x12, 0x34, 0x56, 0x78, 0x12, 0x34, 0x12, 0x34, 0x12, 0x34, 0x12, 0x34, 0x56, 0x78,
                0x9a, 0xbc
            ]))),
            literal("1")
        ))
    );
}

#[test]
fn names_that_begin_with_not() {
    assert_eq!(parse_str("note eq 1"), Ok(equal(name("note"), literal("1"))));
    assert_eq!(
        parse_str("notes eq 1"),
        Ok(Expr::Not(Box::new(equal(name("es"), literal("1")))))
    );
    assert_eq!(
        parse_str("nota(1)"),
        Ok(Expr::Function("nota".to_owned(), vec![literal("1")]))
    );
    let tree = Expr::Or(Box::new(name("not_")), Box::new(name("notx")));
    assert_eq!(to_query_string(&tree).unwrap(), "not_ or notx");
    assert_eq!(parse_str("not_ or notx"), Ok(tree));
}

#[test]
fn constructors_refuse_what_is_no_value() {
    assert_eq!(Date::from_ymd_opt(2023, 2, 29), None);
    assert_eq!(Date::from_ymd_opt(2000, 2, 29).map(|d| d.day()), Some(29));
    assert_eq!(Date::from_ymd_opt(1900, 2, 29), None);
    assert_eq!(Date::from_ymd_opt(2024, 4, 31), None);
    assert_eq!(Date::from_ymd_opt(262143, 1, 1), None);
    assert_eq!(Date::from_ymd_opt(-262143, 1, 1).map(|d| d.year()), Some(-262143));
    assert_eq!(Time::from_hms_opt(24, 0, 0), None);
    assert_eq!(Time::from_hms_nano_opt(1, 2, 3, 1_000_000_000), None);
    assert_eq!(Time::from_hms_nano_opt(1, 2, 59, 2_000_000_000), None);
    assert_eq!(Time::from_hms_nano_opt(1, 2, 59, 1_999_999_999).map(|t| t.nanosecond()), Some(1_999_999_999));
    assert_eq!(DateTime::from_ymd_and_hms(2024, 2, 30, 0, 0, 0), None);
}

#[test]
fn canonical_text_is_read_back() {
    let trees = vec![
        Expr::Or(
            Box::new(Expr::And(Box::new(name("aa")), Box::new(name("bb")))),
            Box::new(Expr::And(Box::new(name("cc")), Box::new(name("dd")))),
        ),
        Expr::And(
            Box::new(equal(name("aa"), literal("1.5"))),
            Box::new(Expr::Not(Box::new(Expr::In(
                Box::new(name("bb")),
                vec![
                    Expr::Value(Value::String("x'y\\z\n".to_owned())),
                    Expr::Value(Value::Null),
                    Expr::Function(
                        "concat".to_owned(),
                        vec![name("cc"), Expr::Or(Box::new(name("dd")), Box::new(name("ee")))],
                    ),
                ],
            )))),
        ),
        equal(
            Expr::Value(Value::Uuid(Uuid::from_bytes([
                1, 2, 3, 4, 5, 6, 7, 8, 9, 10, 11, 12, 13, 14, 15, 255,
            ]))),
            Expr::Value(Value::DateTime(DateTime::new(
                Date::from_ymd_opt(2023, 6, 25).unwrap(),
                Time::from_hms_nano_opt(23, 59, 59, 1_007_000_000).unwrap(),
            ))),
        ),
        equal(
            Expr::Value(Value::Date(Date::from_ymd_opt(999, 12, 31).unwrap())),
            Expr::Value(Value::Time(Time::from_hms_opt(0, 0, 0).unwrap())),
        ),
        Expr::Function("now".to_owned(), vec![]),
    ];
    for tree in trees {
        let text = to_query_string(&tree).expect("valid filter");
        assert_eq!(parse_str(&text), Ok(tree));
    }
}

#[test]
fn both_operands_in_parentheses() {
    let tree = Expr::Or(
        Box::new(Expr::And(Box::new(name("aa")), Box::new(name("bb")))),
        Box::new(Expr::And(Box::new(name("cc")), Box::new(name("dd")))),
    );
    let text = to_query_string(&tree).expect("valid filter");
    assert_eq!(text, "(aa and bb) or (cc and dd)");
    assert_eq!(parse_str(&text), Ok(tree));
}

#[test]
fn text_is_appended() {
    let mut out = String::from("$filter=");
    assert_eq!(write_query_string(&mut out, &equal(name("aa"), literal("1"))), Ok(()));
    assert_eq!(out, "$filter=aa eq 1");
}

#[test]
fn names_of_failures_and_operators() {
    assert_eq!(Error::Parsing.to_string(), "Parsing");
    assert_eq!(Error::ParsingUnicodeCodePoint.to_string(), "ParsingUnicodeCodePoint");
    assert_eq!(Error::ParsingTimeZoneNamed.to_string(), "ParsingTimeZoneNamed");
    assert_eq!(CompareOperator::Equal.to_string(), "eq");
    assert_eq!(CompareOperator::NotEqual.to_string(), "ne");
    assert_eq!(CompareOperator::GreaterThan.to_string(), "gt");
    assert_eq!(CompareOperator::GreaterOrEqual.to_string(), "ge");
    assert_eq!(CompareOperator::LessThan.to_string(), "lt");
    assert_eq!(CompareOperator::LessOrEqual.as_str(), "le");
}

#[test]
fn copies_are_equal() {
    let tree = Expr::In(
        Box::new(name("aa")),
        vec![literal("1"), Expr::Function("ff".to_owned(), vec![name("bb")])],
    );
    assert_eq!(tree.clone(), tree);
}

fn schema() -> (IdentifiersTypeMap, FunctionsTypeMap) {
    let mut identifiers = IdentifiersTypeMap::new();
    identifiers.insert("count".to_owned(), Type::Number);
    identifiers.insert("title".to_owned(), Type::String);
    identifiers.insert("done".to_owned(), Type::Boolean);
    let mut functions = FunctionsTypeMap::new();
    functions.insert("pair".to_owned(), vec![Type::Number, Type::Number], None, Type::Boolean);
    functions.insert("join".to_owned(), vec![Type::String], Some(Type::String), Type::String);
    (identifiers, functions)
}

#[test]
fn null_may_be_compared_with_anything() {
    let (identifiers, functions) = schema();
    assert_eq!(Expr::Value(Value::Null).validate(&identifiers, &functions), Ok(Type::Null));
    assert_eq!(
        equal(name("count"), Expr::Value(Value::Null)).validate(&identifiers, &functions),
        Ok(Type::Boolean)
    );
    assert_eq!(
        Expr::In(Box::new(name("title")), vec![Expr::Value(Value::Null)])
            .validate(&identifiers, &functions),
        Ok(Type::Boolean)
    );
    assert_eq!(
        Expr::And(Box::new(Expr::Value(Value::Null)), Box::new(name("done")))
            .validate(&identifiers, &functions),
        Err(ValidationError::ComparingIncompatibleTypes { lhs: Type::Null, rhs: Type::Boolean })
    );
    assert_eq!(
        Expr::Function("pair".to_owned(), vec![Expr::Value(Value::Null), literal("1")])
            .validate(&identifiers, &functions),
        Err(ValidationError::IncorrectFunctionArgumentType {
            name: "pair".to_owned(),
            position: 1,
            expected: Type::Number,
            given: Type::Null,
        })
    );
}

#[test]
fn operands_of_connectives_are_truth_values() {
    let (identifiers, functions) = schema();
    assert_eq!(
        Expr::Or(Box::new(name("done")), Box::new(name("count")))
            .validate(&identifiers, &functions),
        Err(ValidationError::ComparingIncompatibleTypes { lhs: Type::Boolean, rhs: Type::Number })
    );
    assert_eq!(
        Expr::Not(Box::new(name("title"))).validate(&identifiers, &functions),
        Err(ValidationError::ComparingIncompatibleTypes { lhs: Type::Boolean, rhs: Type::String })
    );
    assert_eq!(
        Expr::Not(Box::new(equal(name("title"), name("title")))).validate(&identifiers, &functions),
        Ok(Type::Boolean)
    );
}

#[test]
fn literals_have_the_type_of_their_kind() {
    let (identifiers, functions) = schema();
    let cases = vec![
        (Value::Uuid(Uuid::from_bytes([0; 16])), Type::Uuid),
        (Value::Date(Date::from_ymd_opt(2024, 1, 1).unwrap()), Type::Date),
        (Value::Time(Time::from_hms_opt(1, 1, 1).unwrap()), Type::Time),
        (
            Value::DateTime(DateTime::from_ymd_and_hms(2024, 1, 1, 1, 1, 1).unwrap()),
            Type::DateTime,
        ),
    ];
    for (value, ty) in cases {
        assert_eq!(value.type_of(), ty);
        assert_eq!(Expr::Value(value).validate(&identifiers, &functions), Ok(ty));
    }
}

#[test]
fn calls_are_held_to_their_signature() {
    let (identifiers, functions) = schema();
    assert_eq!(
        Expr::Function("none".to_owned(), vec![]).validate(&identifiers, &functions),
        Err(ValidationError::UndefinedFunction { name: "none".to_owned() })
    );
    assert_eq!(
        Expr::Function("pair".to_owned(), vec![literal("1")]).validate(&identifiers, &functions),
        Err(ValidationError::IncorrectFunctionArgumentCount {
            name: "pair".to_owned(),
            expected: 2,
            given: 1,
        })
    );
    assert_eq!(
        Expr::Function("pair".to_owned(), vec![literal("1"), literal("2"), literal("3")])
            .validate(&identifiers, &functions),
        Err(ValidationError::IncorrectFunctionArgumentCount {
            name: "pair".to_owned(),
            expected: 2,
            given: 3,
        })
    );
    assert_eq!(
        Expr::Function("join".to_owned(), vec![name("title"), name("title"), name("count")])
            .validate(&identifiers, &functions),
        Err(ValidationError::IncorrectFunctionArgumentType {
            name: "join".to_owned(),
            position: 3,
            expected: Type::String,
            given: Type::Number,
        })
    );
    assert_eq!(
        Expr::Function("join".to_owned(), vec![name("title")]).validate(&identifiers, &functions),
        Ok(Type::String)
    );
    assert_eq!(
        Expr::Function("join".to_owned(), vec![]).validate(&identifiers, &functions),
        Err(ValidationError::IncorrectFunctionArgumentCount {
            name: "join".to_owned(),
            expected: 1,
            given: 0,
        })
    );
}

#[test]
fn first_thing_that_does_not_fit_is_reported() {
    let (identifiers, functions) = schema();
    assert_eq!(
        Expr::Function("pair".to_owned(), vec![name("title"), name("unknown")])
            .validate(&identifiers, &functions),
        Err(ValidationError::IncorrectFunctionArgumentType {
            name: "pair".to_owned(),
            position: 1,
            expected: Type::Number,
            given: Type::String,
        })
    );
    assert_eq!(
        equal(name("unknown"), name("other")).validate(&identifiers, &functions),
        Err(ValidationError::UndefinedIdentifier { name: "unknown".to_owned() })
    );
    assert_eq!(
        Expr::In(Box::new(name("count")), vec![literal("1"), name("title"), name("unknown")])
            .validate(&identifiers, &functions),
        Err(ValidationError::ComparingIncompatibleTypes { lhs: Type::Number, rhs: Type::String })
    );
    assert_eq!(identifiers.get("count"), Some(Type::Number));
    assert_eq!(identifiers.get("unknown"), None);
    assert!(functions.contains("pair"));
    assert!(!functions.contains("unknown"));
}
