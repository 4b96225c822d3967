use rfmetrics::json::{atom_of, parse_json, Json};
use rfmetrics::num::{
    hundred, is_nonzero, is_same_num, lower_of, one, upper_of, zero, Num,
};
use rfmetrics::order::{is_text_less, order_of, sorted_texts};
use rfmetrics::text::{
    begins, dec_i64, dec_u64, dec_usize, first_chars_of, full_lines_of, has, head_before, holds,
    is_blank, joined, lines_of, padded_of, parse_i64, parse_u32, parse_u64, parse_u8, parse_usize,
    same, split_of, trimmed, trimmed_end, trimmed_start, words_of,
};

fn num(v: f64) -> Num {
    Num { bits: v.to_bits() }
}

fn strings(v: &[&str]) -> Vec<String> {
    v.iter().map(|s| s.to_string()).collect()
}

#[test]
fn white_space_is_trimmed() {
    assert_eq!(trimmed("  a b\t\n"), "a b");
    assert_eq!(trimmed("\u{2003}x\u{a0}"), "x");
    assert_eq!(trimmed_start("  a "), "a ");
    assert_eq!(trimmed_end("  a "), "  a");
    assert!(is_blank(" \t\r\n"));
    assert!(!is_blank(" x"));
}

#[test]
fn lines_end_as_they_do_in_std() {
    for s in ["", "a", "a\n", "a\r\nb", "a\n\nb\r", "\n", "\r\n", "a\rb\n"] {
        let std: Vec<String> = s.lines().map(|l| l.to_owned()).collect();
        assert_eq!(lines_of(s), std, "{s:?}");
    }
}

#[test]
fn words_and_fields_are_those_of_std() {
    for s in ["", " ", "a b", "  a \t b\u{2009}c ", "x"] {
        let std: Vec<String> = s.split_whitespace().map(|l| l.to_owned()).collect();
        assert_eq!(words_of(s), std, "{s:?}");
        let fields: Vec<String> = s.split(' ').map(|l| l.to_owned()).collect();
        assert_eq!(split_of(s, ' '), fields, "{s:?}");
    }
}

#[test]
fn full_lines_are_trimmed() {
    assert_eq!(full_lines_of(" a \n\n \nb"), strings(&["a", "b"]));
}

#[test]
fn texts_are_searched() {
    assert!(holds("abcabc", "cab"));
    assert!(!holds("abc", "cb"));
    assert!(holds("abc", ""));
    assert!(begins("abc", "ab"));
    assert!(!begins("abc", "b"));
    assert_eq!(head_before("a--b--c", "--"), "a");
    assert_eq!(head_before("abc", "--"), "abc");
    assert!(same("ä", "ä"));
    assert!(has(&strings(&["a", "b"]), "b"));
    assert!(!has(&strings(&["a", "b"]), "c"));
}

#[test]
fn texts_are_cut_and_joined() {
    assert_eq!(first_chars_of("añb", 2), "añ");
    assert_eq!(first_chars_of("ab", 9), "ab");
    assert_eq!(joined(&strings(&["a", "", "b"]), ", "), "a, , b");
    assert_eq!(joined(&Vec::new(), ","), "");
}

#[test]
fn numbers_print_and_read_back() {
    for n in [0u64, 7, 10, 99, 1234567890, u64::MAX] {
        assert_eq!(dec_u64(n), n.to_string());
        assert_eq!(parse_u64(&dec_u64(n)), Some(n));
    }
    for n in [0i64, -1, 42, i64::MIN, i64::MAX] {
        assert_eq!(dec_i64(n), n.to_string());
        assert_eq!(parse_i64(&dec_i64(n)), Some(n));
    }
    assert_eq!(dec_usize(305), "305");
    assert_eq!(padded_of(7, 6), "000007");
    assert_eq!(padded_of(1234567, 6), "1234567");
}

#[test]
fn numbers_read_as_std_reads_them() {
    for s in ["", "+", "-", "+5", "-5", "05", "5 ", "0x5", "255", "256", "4294967295",
        "4294967296", "18446744073709551615", "18446744073709551616", "-9223372036854775808",
        "9223372036854775808", "١"]
    {
        assert_eq!(parse_u64(s), s.parse().ok(), "{s}");
        assert_eq!(parse_u32(s), s.parse().ok(), "{s}");
        assert_eq!(parse_u8(s), s.parse().ok(), "{s}");
        assert_eq!(parse_usize(s), s.parse().ok(), "{s}");
        assert_eq!(parse_i64(s), s.parse().ok(), "{s}");
    }
}

#[test]
fn doubles_compare_as_they_do_in_std() {
    let all = [
        0.0, -0.0, 1.0, -1.0, 1.5, 100.0, f64::INFINITY, f64::NEG_INFINITY, f64::NAN, 5e-324, -5e-324,
    ];
    for a in all {
        assert_eq!(num(a).is_nan(), a.is_nan());
        assert_eq!(num(a).is_finite(), a.is_finite());
        assert_eq!(num(a).is_infinite(), a.is_infinite());
        assert_eq!(num(a).is_zero(), a == 0.0);
        assert_eq!(num(a).is_positive(), a > 0.0);
        for b in all {
            assert_eq!(num(a).is_less(num(b)), a < b, "{a} {b}");
            assert_eq!(num(a).is_equal(num(b)), a == b, "{a} {b}");
            assert_eq!(num(a).total_key() < num(b).total_key(), a.total_cmp(&b).is_lt(), "{a} {b}");
            assert_eq!(
                f64::from_bits(lower_of(num(a), num(b)).bits).total_cmp(&a.min(b)).is_eq()
                    || a.min(b) == f64::from_bits(lower_of(num(a), num(b)).bits),
                true,
                "{a} {b}"
            );
            assert_eq!(
                f64::from_bits(upper_of(num(a), num(b)).bits).total_cmp(&a.max(b)).is_eq()
                    || a.max(b) == f64::from_bits(upper_of(num(a), num(b)).bits),
                true,
                "{a} {b}"
            );
            assert_eq!(is_same_num(Some(num(a)), Some(num(b))), Some(a) == Some(b));
        }
    }
    assert_eq!((zero(), one(), hundred()), (num(0.0), num(1.0), num(100.0)));
    assert!(is_same_num(None, None));
    assert!(!is_same_num(None, Some(zero())));
    assert!(!is_nonzero(Some(num(-0.0))));
    assert!(!is_nonzero(None));
    assert!(is_nonzero(Some(num(f64::NAN))));
}

#[test]
fn sorting_is_stable() {
    let keys: Vec<i128> = vec![3, 1, 3, 0, 1];
    assert_eq!(order_of(&keys), vec![3, 1, 4, 0, 2]);
    assert_eq!(order_of(&Vec::new()), Vec::<usize>::new());
}

#[test]
fn texts_sort_as_they_do_in_std() {
    let mut v = strings(&["b", "", "a", "ab", "B", "é", "z", "a"]);
    let ours = sorted_texts(&v);
    v.sort();
    assert_eq!(ours, v);
    for a in &v {
        for b in &v {
            assert_eq!(is_text_less(a, b), a < b, "{a} {b}");
        }
    }
}

#[test]
fn json_is_read_as_a_tree() {
    let j = parse_json("{\"b\": [1, 2.5, \" x \"], \"a\": null, \"t\": true}").unwrap();
    match &j {
        Json::Object(m) => {
            let keys: Vec<&str> = m.iter().map(|e| e.0.as_str()).collect();
            assert_eq!(keys, vec!["b", "a", "t"]);
        },
        _ => panic!("an object"),
    }
    match j.get("b") {
        Some(Json::Array(v)) => {
            assert_eq!(v.len(), 3);
            assert_eq!(atom_of(&v[0]), Some("1".to_owned()));
            assert_eq!(atom_of(&v[1]), Some("2.5".to_owned()));
            assert_eq!(atom_of(&v[2]), Some("x".to_owned()));
        },
        _ => panic!("an array"),
    }
    assert!(matches!(j.get("a"), Some(Json::Null)));
    assert!(matches!(j.get("t"), Some(Json::Bool(true))));
    assert!(j.get("c").is_none());
    assert_eq!(atom_of(&Json::Null), None);
}

#[test]
fn what_is_no_json_is_not_read() {
    assert!(parse_json("{").is_none());
    assert!(parse_json("").is_none());
}
