use monitor_switcher::display::ccd::Luid;
use monitor_switcher::error::{caused_by, causes, report_error, Error};
use monitor_switcher::log::{entry, preamble, rotate, LocalTime, MAX_BYTES};
use monitor_switcher::names::NameMap;
use monitor_switcher::text::{
    comes_before, decimal_text, hex_text, is_ascii_alphanumeric, is_whitespace, joined, padded_text,
    parse_unsigned, same_text, signed_decimal_text, split_at, to_lower, trimmed, trimmed_end,
};
use monitor_switcher::winerr::Answer;

#[test]
fn white_space_is_what_the_standard_library_takes_for_it() {
    for c in '\0'..=char::MAX {
        assert_eq!(is_whitespace(c), c.is_whitespace(), "{:x}", c as u32);
        assert_eq!(is_ascii_alphanumeric(c), c.is_ascii_alphanumeric(), "{:x}", c as u32);
    }
}

#[test]
fn trimming_and_folding_agree_with_the_standard_library() {
    for s in ["", " ", "\u{a0}x y\u{3000}", "ÄB cD", "\t\na\r\n", "x"] {
        assert_eq!(trimmed(s), s.trim());
        assert_eq!(trimmed_end(s), s.trim_end());
        assert_eq!(to_lower(s), s.to_ascii_lowercase());
    }
}

#[test]
fn numbers_are_written_as_the_standard_library_writes_them() {
    for n in [0u32, 1, 9, 10, 99, 100, 4711, u32::MAX] {
        assert_eq!(decimal_text(n as u128), format!("{n}"));
        assert_eq!(padded_text(n, 4), format!("{n:04}"));
        assert_eq!(hex_text(n, 8), format!("{n:08X}"));
        assert_eq!(hex_text(n & 0xFF, 2), format!("{:02X}", n & 0xFF));
    }
    assert_eq!(decimal_text(u128::MAX), u128::MAX.to_string());
    for n in [i32::MIN, -10, -1, 0, 1, i32::MAX] {
        assert_eq!(signed_decimal_text(n), n.to_string());
    }
}

#[test]
fn numbers_are_read_as_the_standard_library_reads_them() {
    for s in ["0", "15", "+15", "007", "4294967295", "4294967296", "", "+", "-1", "1 ", "f", "1_0"] {
        assert_eq!(parse_unsigned(s, 10, u32::MAX), s.parse::<u32>().ok(), "{s:?}");
        assert_eq!(
            parse_unsigned(s, 16, 255),
            u8::from_str_radix(s, 16).ok().map(u32::from),
            "{s:?}"
        );
    }
}

#[test]
fn texts_split_and_join() {
    assert_eq!(split_at("a++b", '+'), ["a", "", "b"]);
    assert_eq!(split_at("", '+'), [""]);
    assert_eq!(joined(&split_at("x+y+z", '+'), "+"), "x+y+z");
    assert_eq!(joined(&[], ", "), "");
    assert!(same_text("é", "é") && !same_text("a", "A"));
}

#[test]
fn texts_are_ordered_as_in_the_standard_library() {
    let all = ["", "a", "aa", "b", "Z", "é", "\u{FFFF}", "🖥"];
    for a in all {
        for b in all {
            assert_eq!(comes_before(a, b), a < b, "{a:?} {b:?}");
        }
    }
}

#[test]
fn names_are_kept_in_order_and_once() {
    let mut map: NameMap<u32> = NameMap::default();
    assert!(map.is_empty());
    for (name, value) in [("tv", 1), ("main", 2), ("Attic", 3), ("tv", 4)] {
        map.insert(name.to_string(), value);
    }
    assert_eq!(map.keys(), ["Attic", "main", "tv"]);
    assert_eq!(map.len(), 3);
    assert_eq!(map.get("tv"), Some(&4));
    assert_eq!(map.get("TV"), None);
    assert_eq!(map.position("main"), Some(1));
    assert_eq!((map.name_at(0).as_str(), *map.value_at(0)), ("Attic", 3));
    assert!(map.contains_key("main") && !map.contains_key(""));
}

#[test]
fn an_error_is_reported_with_its_causes() {
    let error = Error::Nested {
        doing: "applying".to_string(),
        inner: Box::new(Error::Context {
            doing: "reading".to_string(),
            cause: "no".to_string(),
        }),
    };
    assert_eq!(error.message(), "applying: reading: no");
    assert_eq!(causes(&error), ["applying", "reading", "no"]);
    assert_eq!(caused_by(&error), ["  caused by: reading", "  caused by: no"]);
    assert_eq!(
        report_error(&error),
        ["error: applying", "  caused by: reading", "  caused by: no"]
    );
}

#[test]
fn every_error_says_what_it_is() {
    let answer = || Answer { code: 87, message: None };
    for (error, said) in [
        (Error::BufferSizes { answer: answer() }, "GetDisplayConfigBufferSizes"),
        (Error::Query { answer: answer() }, "QueryDisplayConfig"),
        (Error::KeptChanging, "kept changing"),
        (Error::AdapterName { answer: answer() }, "ERROR_INVALID_PARAMETER (87)"),
        (Error::NoAdapter { adapter: Luid { low_part: 7, high_part: 0 } }, "7"),
        (Error::Validation { answer: answer() }, "validation failed: ERROR_INVALID_PARAMETER (87)"),
        (
            Error::NotConnected { target_id: 9, device: "gpu".to_string(), present: vec!["a".to_string(), "b".to_string()] },
            "target 9 on adapter gpu is not connected.\n  Currently connected: a, b",
        ),
        (
            Error::NoFreeSource { target_id: 9, wanted: 5 },
            "no free GPU source for target 9 — the adapter cannot drive 5 outputs at once",
        ),
    ] {
        assert!(error.message().contains(said), "{}", error.message());
    }
}

#[test]
fn the_log_is_stamped_and_turned_over() {
    let at = LocalTime { year: 2024, month: 3, day: 9, hour: 7, minute: 5, second: 0 };
    assert_eq!(at.stamp(), "2024-03-09 07:05:00");
    assert_eq!(entry(&at, "autostart off"), "2024-03-09 07:05:00 autostart off");
    assert!(!rotate(None));
    assert!(!rotate(Some(MAX_BYTES - 1)));
    assert!(rotate(Some(MAX_BYTES)));
    assert_eq!(MAX_BYTES, 1 << 20);
    assert_eq!(preamble(None), [0xEF, 0xBB, 0xBF]);
    assert_eq!(preamble(Some(0)), [0xEF, 0xBB, 0xBF]);
    assert!(preamble(Some(1)).is_empty());
}
