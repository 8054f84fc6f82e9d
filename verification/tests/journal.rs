use matrix_core::journal::format_ts;
use matrix_core::{Journal, Json};

fn texts(j: &mut Journal) -> Vec<String> {
    j.take_pending().iter().map(|l| Journal::line_text(l, "1709208000.007")).collect()
}

#[test]
fn entries_survive_the_file() {
    let mut j = Journal::open(&vec![], true);
    assert_eq!(j.append("kernel", "sys.start", Json::object().with("n", Json::num(1)), Json::Null), 1);
    assert_eq!(j.append("echo", "plugin.loaded", Json::object(), Json::str("undo")), 2);
    let lines = texts(&mut j);
    assert!(j.take_pending().is_empty());
    let entries = Journal::read_all(&lines);
    assert_eq!(entries.len(), 2);
    assert_eq!((entries[0].seq, entries[1].seq), (1, 2));
    assert_eq!(entries[0].fiber, "kernel");
    assert_eq!(entries[0].kind, "sys.start");
    assert_eq!(entries[0].ts, "1709208000.007");
    assert_eq!(entries[0].args, Json::object().with("n", Json::num(1)));
    assert_eq!(entries[1].undo, Json::str("undo"));
    // A journal that opens the file goes on after it.
    let mut again = Journal::open(&lines, true);
    assert_eq!(again.append("kernel", "sys.start", Json::Null, Json::Null), 3);
}

#[test]
fn broken_lines_are_passed_over() {
    let lines = vec![
        "{\"seq\":4,\"fiber\":\"a\",\"kind\":\"k\",\"args\":{}}".to_string(),
        "not json".to_string(),
        "".to_string(),
        "{\"seq\":2,\"fiber\":\"b\",\"kind\":\"k\"}".to_string(),
    ];
    let entries = Journal::read_all(&lines);
    assert_eq!(entries.iter().map(|e| e.seq).collect::<Vec<_>>(), vec![2, 4]);
    assert_eq!(entries[0].fiber, "b");
    assert_eq!(Journal::tail(&lines, 1).iter().map(|e| e.seq).collect::<Vec<_>>(), vec![4]);
    assert_eq!(Journal::tail(&lines, 9).len(), 2);
}

#[test]
fn adopted_numbers_never_go_back() {
    let mut j = Journal::open(&vec![], false);
    j.adopt_seq(41);
    j.adopt_seq(7);
    assert_eq!(j.append("kernel", "k", Json::Null, Json::Null), 42);
    j.reset();
    assert!(j.take_pending().is_empty());
}

#[test]
fn timestamps_have_three_digits_of_milliseconds() {
    assert_eq!(format_ts(0, 0), "0.000");
    assert_eq!(format_ts(951_782_400, 5), "951782400.005");
    assert_eq!(format_ts(12, 50), "12.050");
    assert_eq!(format_ts(1_709_251_199, 999), "1709251199.999");
}

#[test]
fn json_texts_are_read_and_written() {
    let v = Json::read("{\"b\":[1,-2,2.50,true,null],\"a\":\"\\u00e9\\n\"}").unwrap();
    assert_eq!(v.str_at("a").unwrap(), "\u{e9}\n");
    let items = v.get("b").unwrap().as_array().unwrap();
    assert_eq!(items[0], Json::num(1));
    assert_eq!(items[1].as_i64(), Some(-2));
    assert_eq!(items[1].as_u64(), None);
    assert_eq!(v.text(), "{\"a\":\"\u{e9}\\n\",\"b\":[1,-2,2.5,true,null]}");
    assert!(Json::read("{").is_err());
    assert!(Json::read("").is_err());
}

#[test]
fn values_nested_too_deep_are_written_but_not_read() {
    let nested = |depth: usize| {
        let mut v = Json::Null;
        for _ in 0..depth {
            v = Json::list(vec![v]);
        }
        v
    };
    assert_eq!(Json::read(&nested(127).text()).unwrap(), nested(127));
    assert!(Json::read(&nested(128).text()).is_err());
}
