//! Texts, numbers, lists and maps.

use broccoli_plugins::checkers::types::JudgeFile;
use broccoli_plugins::icpc::board::{problems_query, times_query};
use broccoli_plugins::ids::{has_id, insert_sorted, sorted_ids};
use broccoli_plugins::ioi::score::{
    attempt_results_query, case_points_query, submission_results_query,
};
use broccoli_plugins::ioi::subtasks::test_case_reference_keys;
use broccoli_plugins::judging::{sanitize_optional_text, Points, TestCaseRow};
use broccoli_plugins::letters::letters;
use broccoli_plugins::pairs::PairMap;
use broccoli_plugins::sql::{bind_ids, Params, QueryBuilder, SqlValue};
use broccoli_plugins::text::{
    decimal, decimal_i64, is_control_char, is_whitespace, parse_i32, parse_i64, text_less,
    to_ascii_lower, trim, trim_end,
};
use broccoli_plugins::textmap::TextMap;
use broccoli_plugins::utf8::decode_prefix;

#[test]
fn numbers_read_back() {
    for n in [0, 7, -7, 10, 1999, i64::MAX, i64::MIN] {
        assert_eq!(decimal_i64(n), n.to_string());
        assert_eq!(parse_i64(&decimal_i64(n)), Some(n));
    }
    assert_eq!(decimal(u64::MAX), "18446744073709551615");
}

#[test]
fn numbers_are_read_as_a_whole() {
    assert_eq!(parse_i32("+5"), Some(5));
    assert_eq!(parse_i32("-005"), Some(-5));
    for s in ["", "-", "+", " 5", "5 ", "5x", "2147483648", "--5"] {
        assert_eq!(parse_i32(s), None, "{s:?}");
    }
    assert_eq!(parse_i32("-2147483648"), Some(i32::MIN));
    assert_eq!(parse_i64("9223372036854775808"), None);
}

#[test]
fn trimming_twice_changes_nothing() {
    for s in ["", " ", "\u{a0}a b\u{3000}\n", "a", "\t\ta"] {
        assert_eq!(trim(s), s.trim());
        assert_eq!(trim(&trim(s)), trim(s));
        assert_eq!(trim_end(s), s.trim_end());
    }
}

#[test]
fn white_and_control_characters_are_those_of_unicode() {
    for c in (0..=0x3100u32).chain([0xfeff]).filter_map(char::from_u32) {
        assert_eq!(is_whitespace(c), c.is_whitespace(), "{c:?}");
        assert_eq!(is_control_char(c), c.is_control(), "{c:?}");
    }
    assert_eq!(to_ascii_lower("\u{c4}BC"), "\u{c4}bc");
}

#[test]
fn texts_are_ordered_as_strings() {
    let texts = ["", "a", "ab", "b", "A", "\u{e9}", "\u{ff5e}", "\u{1f600}"];
    for a in texts {
        for b in texts {
            assert_eq!(text_less(a, b), a < b, "{a:?} {b:?}");
        }
    }
}

#[test]
fn letters_do_not_repeat() {
    let mut seen: Vec<String> = (0..1000).map(letters).collect();
    assert_eq!(seen[701], "ZZ");
    assert_eq!(seen[702], "AAA");
    seen.sort();
    seen.dedup();
    assert_eq!(seen.len(), 1000);
}

#[test]
fn ids_are_sorted_and_distinct() {
    assert_eq!(
        sorted_ids(&vec![Some(3), None, Some(1), Some(3)]),
        vec![1, 3]
    );
    let mut ids = vec![1, 3];
    insert_sorted(&mut ids, 2);
    insert_sorted(&mut ids, 3);
    assert_eq!(ids, vec![1, 2, 3]);
    assert!(has_id(&ids, 2) && !has_id(&ids, 4));
}

#[test]
fn maps_keep_the_last_value() {
    let mut pairs = PairMap::new();
    pairs.insert((1, 2), 'a');
    pairs.insert((2, 1), 'b');
    pairs.insert((1, 2), 'c');
    assert_eq!(pairs.len(), 2);
    assert_eq!(pairs.get(&(1, 2)), Some(&'c'));
    assert_eq!(pairs.get(&(2, 2)), None);
    let mut texts = TextMap::new();
    texts.insert("a", 1);
    texts.insert("a", 2);
    texts.or_insert("a", 3);
    texts.or_insert("b", 4);
    assert_eq!((texts.get("a"), texts.get("b")), (Some(&2), Some(&4)));
    assert_eq!(texts.copy().get("a"), Some(&2));
    assert_eq!(texts.get("c"), None);
}

#[test]
fn bytes_decode_up_to_an_open_character() {
    let text = "a\u{e9}\u{20ac}\u{1f600}";
    let bytes = text.as_bytes();
    for n in 0..=bytes.len() {
        let Ok((chars, used)) = decode_prefix(&bytes[..n]) else {
            panic!("the bytes so far are a text");
        };
        let decoded: String = chars.into_iter().collect();
        assert_eq!(decoded, text[..used]);
        assert!(n - used < 4);
    }
    for bad in [
        &b"\xff"[..],
        b"\xc0\x80",
        b"\xed\xa0\x80",
        b"\xf5\x80\x80\x80",
        b"a\x80",
    ] {
        assert!(decode_prefix(bad).is_err());
    }
}

#[test]
fn stored_text_holds_no_nul() {
    assert_eq!(
        sanitize_optional_text(&Some("a\0b\0".into())).as_deref(),
        Some("a\u{fffd}b\u{fffd}")
    );
    assert_eq!(sanitize_optional_text(&None), None);
}

#[test]
fn values_are_bound_in_order() {
    let mut p = Params::new();
    assert_eq!(bind_ids(&mut p, &vec![5, 6]), "$1,$2");
    assert_eq!(p.bind_text("x"), "$3");
    assert_eq!(
        p.args,
        vec![SqlValue::Int(5), SqlValue::Int(6), SqlValue::Text("x".into())]
    );
    let mut q = QueryBuilder::new();
    q.text("SELECT ");
    q.maybe_int(None);
    q.text(", ");
    q.maybe_string(&Some("y".into()));
    let q = q.finish();
    assert_eq!(q.sql, "SELECT NULL, $1");
    assert_eq!(q.args, vec![SqlValue::Text("y".into())]);
}

#[test]
fn contests_are_read_by_id() {
    assert_eq!(
        problems_query(4).sql,
        "SELECT problem_id, label FROM contest_problem WHERE contest_id = $1 ORDER BY position"
    );
    assert!(times_query(4).sql.ends_with("FROM contest WHERE id = $1"));
    assert_eq!(times_query(4).args, vec![SqlValue::Int(4)]);
    assert_eq!(
        submission_results_query(4, 9).args,
        vec![SqlValue::Int(9), SqlValue::Int(4)]
    );
    assert_eq!(
        attempt_results_query(1, 2, 3).args,
        vec![SqlValue::Int(1), SqlValue::Int(2), SqlValue::Int(3)]
    );
    assert_eq!(case_points_query(2).args, vec![SqlValue::Int(2)]);
}

#[test]
fn cases_go_by_label_and_id() {
    let case = |label: Option<&str>| TestCaseRow {
        id: 7,
        score: Points {
            value: 1u8,
            positive: true,
        },
        is_sample: false,
        position: 0,
        description: None,
        label: label.map(String::from),
        input: JudgeFile::Missing,
        expected_output: JudgeFile::Missing,
        is_custom: false,
    };
    assert_eq!(test_case_reference_keys(&case(Some("a"))), vec!["a", "7"]);
    assert_eq!(test_case_reference_keys(&case(None)), vec!["7"]);
    assert_eq!(test_case_reference_keys(&case(Some("7"))), vec!["7"]);
}
