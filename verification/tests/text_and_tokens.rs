use sparkling::text::{chars_of, decimal_of, parse_unsigned, split_chars, string_from_chars};
use sparkling::time::{day_earlier, day_start, hour, weekday, DateTime};
use sparkling::tokens::{
    tokenize_route, tokenize_stop_name, tokenize_time, tokenize_time_delta, Token, TrainingSequence,
};

fn pieces(s: &str, sep: char) -> Vec<String> {
    let cs = chars_of(s);
    split_chars(&cs, sep).iter().map(|p| string_from_chars(p)).collect()
}

#[test]
fn split_keeps_empty_pieces() {
    assert_eq!(pieces("a|b|c", '|'), vec!["a", "b", "c"]);
    assert_eq!(pieces("", '|'), vec![""]);
    assert_eq!(pieces("|", '|'), vec!["", ""]);
    assert_eq!(pieces("10:05:00", ':'), vec!["10", "05", "00"]);
}

#[test]
fn split_matches_std_split() {
    for s in ["x||y", "|lead", "trail|", "no separator", "Rådhuset|Sätra"] {
        let expected: Vec<String> = s.split('|').map(|x| x.to_string()).collect();
        assert_eq!(pieces(s, '|'), expected);
    }
}

#[test]
fn parse_unsigned_matches_std() {
    for s in ["0", "42", "+7", "", "+", "-1", "65535", "65536", "12a", " 1", "007"] {
        let cs = chars_of(s);
        let expected = s.parse::<u16>().ok().map(|v| v as u32);
        assert_eq!(parse_unsigned(&cs, 65535), expected, "input {:?}", s);
        let expected32 = s.parse::<u32>().ok();
        assert_eq!(parse_unsigned(&cs, u32::MAX), expected32, "input {:?}", s);
    }
    let big = chars_of("4294967296");
    assert_eq!(parse_unsigned(&big, u32::MAX), None);
}

#[test]
fn decimal_rendering() {
    assert_eq!(decimal_of(0), b"0".to_vec());
    assert_eq!(decimal_of(181), b"181".to_vec());
    assert_eq!(decimal_of(u64::MAX), u64::MAX.to_string().into_bytes());
}

#[test]
fn string_round_trip() {
    let s = "Hässelby strand";
    assert_eq!(string_from_chars(&chars_of(s)), s);
}

#[test]
fn time_delta_tokens() {
    assert_eq!(tokenize_time_delta(0).0, 15);
    assert_eq!(tokenize_time_delta(59).0, 15);
    assert_eq!(tokenize_time_delta(-59).0, 15);
    assert_eq!(tokenize_time_delta(60).0, 16);
    assert_eq!(tokenize_time_delta(-61).0, 14);
    assert_eq!(tokenize_time_delta(-30).0, 15);
    assert_eq!(tokenize_time_delta(899).0, 29);
    assert_eq!(tokenize_time_delta(900).0, 30);
    assert_eq!(tokenize_time_delta(-900).0, 0);
    assert_eq!(tokenize_time_delta(i64::MIN).0, 0);
    assert_eq!(tokenize_time_delta(i64::MAX).0, 30);
}

#[test]
fn route_tokens() {
    assert_eq!(tokenize_route("9011001001000000", 0).0, 34);
    assert_eq!(tokenize_route("9011001001100000", 1).0, 42);
    assert_eq!(tokenize_route("9011001001900000", 1).0, 47);
}

#[test]
fn stop_name_tokens() {
    assert_eq!(tokenize_stop_name("Kungsträdgården").0, 48);
    assert_eq!(tokenize_stop_name("T-Centralen").0, 49);
    assert_eq!(tokenize_stop_name("Globen").0, 149);
    assert_eq!(tokenize_stop_name("S:t Eriksplan").0, 117);
}

#[test]
fn time_tokens() {
    // 2024-01-01 was a Monday; 10:00 UTC
    let t = DateTime { seconds: 1704103200, nanos: 0 };
    let (day, hour_token) = tokenize_time(t);
    assert_eq!(day.0, 150);
    assert_eq!(hour_token.0, 167);
    // 1970-01-01 was a Thursday
    assert_eq!(weekday(DateTime { seconds: 0, nanos: 0 }), 3);
    // 1969-12-31 23:30 was a Wednesday
    assert_eq!(weekday(DateTime { seconds: -1800, nanos: 0 }), 2);
    assert_eq!(hour(DateTime { seconds: -1800, nanos: 0 }), 23);
}

#[test]
fn day_start_of_timestamps() {
    assert_eq!(day_start(86401), Some(86400));
    assert_eq!(day_start(1704100200), Some(1704067200));
    assert_eq!(day_start(u64::MAX), Some(-86400));
    assert_eq!(day_start(8210266876799), Some(8210266876799 - 86399));
    assert_eq!(day_start(8210266876800), None);
}

#[test]
fn day_earlier_moves_back_a_day() {
    let t = DateTime { seconds: 1704103200, nanos: 5 };
    assert_eq!(day_earlier(t), Some(DateTime { seconds: 1704103200 - 86400, nanos: 5 }));
    // a leap second leaves it first
    let leap = DateTime { seconds: 86399, nanos: 1_000_000_500 };
    assert_eq!(day_earlier(leap), Some(DateTime { seconds: 0, nanos: 500 }));
    let first = DateTime { seconds: -8334601228800, nanos: 0 };
    assert_eq!(day_earlier(first), None);
}

#[test]
fn token_types_hold_values() {
    let seq = TrainingSequence(vec![Token(31), Token(32)]);
    assert_eq!(seq.0.len(), 2);
    assert_eq!(seq.0[1].0, 32);
}

#[test]
fn route_tokens_are_distinct_within_34_to_47() {
    let routes = [
        "9011001001000000", "9011001001100000", "9011001001300000", "9011001001400000",
        "9011001001700000", "9011001001800000", "9011001001900000",
    ];
    let mut seen = std::collections::HashSet::new();
    for r in routes.iter() {
        for d in 0..2u8 {
            let t = tokenize_route(r, d).0;
            assert!((34..=47).contains(&t));
            assert!(seen.insert(t));
        }
    }
    assert_eq!(seen.len(), 14);
}
