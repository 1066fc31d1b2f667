use jaeger_stats::lex::{insert_sorted, text_before};
use jaeger_stats::output::{
    ends_with, output_format, process_file_or_folder, replace_all, write_stats, InputKind,
    OutputFormat,
};
use jaeger_stats::raw_jaeger::{parse_u32_chars, JaegerTag, TagError, TagValue};
use jaeger_stats::report::{Chapter, Report};
use jaeger_stats::text::{
    chars_of, decimal_string, find_char, find_name, get_numbered_lines, is_space_char,
    split_chars, trim_chars,
};

fn chars(s: &str) -> Vec<char> {
    s.chars().collect()
}

fn tag_of(value: TagValue) -> JaegerTag {
    JaegerTag { key: "k".to_string(), type_id: "t".to_string(), value }
}

#[test]
fn report_is_written_chapter_by_chapter() {
    let mut report = Report::new();
    assert!(report.report(Chapter::Summary, "read 2 files".to_string()));
    assert!(!report.report(Chapter::Analysis, "first".to_string()));
    assert!(!report.report(Chapter::Analysis, "second".to_string()));
    assert_eq!(report.chapters(), 3);
    assert_eq!(
        report.write_report(),
        "Summary\nread 2 files\n\n\nIngest\n\n\n\nAnalysis\nfirst\nsecond\n\n"
    );
}

#[test]
fn report_is_empty_after_writing_and_takes_new_messages() {
    let mut report = Report::new();
    report.report(Chapter::Issues, "late".to_string());
    assert_eq!(report.chapters(), 5);
    assert_eq!(
        report.write_report(),
        "Summary\n\n\n\nIngest\n\n\n\nAnalysis\n\n\n\nDetails\n\n\n\nIssues\nlate\n\n"
    );
    assert_eq!(report.chapters(), 0);
    assert_eq!(report.write_report(), "");
    assert!(report.report(Chapter::Summary, "again".to_string()));
    assert_eq!(report.messages(Chapter::Summary), vec!["again".to_string()]);
    assert!(report.messages(Chapter::Details).is_empty());
    assert_eq!(report.write_report(), "Summary\nagain\n\n");
}

#[test]
fn chapters_in_order() {
    assert_eq!(Chapter::Summary.index(), 0);
    assert_eq!(Chapter::Ingest.index(), 1);
    assert_eq!(Chapter::Analysis.index(), 2);
    assert_eq!(Chapter::Details.index(), 3);
    assert_eq!(Chapter::Issues.index(), 4);
    assert_eq!(Chapter::Details.title(), "Details");
    assert_eq!(Chapter::Issues.title(), "Issues");
}

#[test]
fn tag_from_json_value() {
    let make = |v: serde_json::Value| JaegerTag::from_json("k".to_string(), "t".to_string(), &v);
    let t = make(serde_json::Value::String("server".to_string()));
    assert_eq!(t.key, "k");
    assert_eq!(t.type_id, "t");
    assert_eq!(t.get_string(), Ok("server".to_string()));
    assert_eq!(make(serde_json::Value::Number(serde_json::Number::from(503))).get_i32(), Ok(503));
    assert_eq!(make(serde_json::Value::Number(serde_json::Number::from(-7))).get_i32(), Ok(-7));
    assert_eq!(
        make(serde_json::Value::Number(serde_json::Number::from(u64::MAX))).get_i32(),
        Err(TagError::NotANumber)
    );
    assert_eq!(
        make(serde_json::Value::Number(serde_json::Number::from_f64(1.5).unwrap())).get_i32(),
        Err(TagError::NotANumber)
    );
    assert!(matches!(make(serde_json::Value::Bool(true)).value, TagValue::Bool(true)));
    assert!(matches!(make(serde_json::Value::Null).value, TagValue::Null));
    assert!(matches!(make(serde_json::Value::Array(Vec::new())).value, TagValue::Array));
    assert!(matches!(
        make(serde_json::Value::Object(serde_json::Map::new())).value,
        TagValue::Object
    ));
}

#[test]
fn tag_string_accessor() {
    assert_eq!(tag_of(TagValue::String("server".to_string())).get_string(), Ok("server".to_string()));
    assert_eq!(tag_of(TagValue::Number(Some(3))).get_string(), Err(TagError::NotAString));
    assert_eq!(tag_of(TagValue::Null).get_string(), Err(TagError::NotAString));
    assert_eq!(tag_of(TagValue::Array).get_string(), Err(TagError::NotAString));
    assert_eq!(tag_of(TagValue::Object).get_string(), Err(TagError::NotAString));
    assert_eq!(tag_of(TagValue::Bool(true)).get_string(), Err(TagError::NotAString));
}

#[test]
fn tag_u32_accessor() {
    assert_eq!(tag_of(TagValue::String(" 200 ".to_string())).to_u32(), Ok(200));
    assert_eq!(tag_of(TagValue::String("+7".to_string())).to_u32(), Ok(7));
    assert_eq!(tag_of(TagValue::String("007".to_string())).to_u32(), Ok(7));
    assert_eq!(tag_of(TagValue::String("4294967295".to_string())).to_u32(), Ok(u32::MAX));
    assert_eq!(tag_of(TagValue::String("4294967296".to_string())).to_u32(), Err(TagError::NotAU32));
    assert_eq!(tag_of(TagValue::String("99999999999999999999999".to_string())).to_u32(), Err(TagError::NotAU32));
    assert_eq!(tag_of(TagValue::String("-1".to_string())).to_u32(), Err(TagError::NotAU32));
    assert_eq!(tag_of(TagValue::String("".to_string())).to_u32(), Err(TagError::NotAU32));
    assert_eq!(tag_of(TagValue::String("+".to_string())).to_u32(), Err(TagError::NotAU32));
    assert_eq!(tag_of(TagValue::String("12a".to_string())).to_u32(), Err(TagError::NotAU32));
    assert_eq!(tag_of(TagValue::String("1 2".to_string())).to_u32(), Err(TagError::NotAU32));
    assert_eq!(tag_of(TagValue::Number(Some(200))).to_u32(), Err(TagError::NotAString));
    assert_eq!(parse_u32_chars(&chars("42")), Some(42));
    assert_eq!(parse_u32_chars(&chars("++1")), None);
}

#[test]
fn tag_i32_accessor() {
    assert_eq!(tag_of(TagValue::Number(Some(200))).get_i32(), Ok(200));
    assert_eq!(tag_of(TagValue::Number(Some(-5))).get_i32(), Ok(-5));
    assert_eq!(tag_of(TagValue::Number(Some(i32::MAX as i64))).get_i32(), Ok(i32::MAX));
    assert_eq!(tag_of(TagValue::Number(Some(i32::MIN as i64))).get_i32(), Ok(i32::MIN));
    assert_eq!(tag_of(TagValue::Number(Some(i32::MAX as i64 + 1))).get_i32(), Err(TagError::OutOfRange));
    assert_eq!(tag_of(TagValue::Number(Some(i32::MIN as i64 - 1))).get_i32(), Err(TagError::OutOfRange));
    assert_eq!(tag_of(TagValue::Number(None)).get_i32(), Err(TagError::NotANumber));
    assert_eq!(tag_of(TagValue::String("200".to_string())).get_i32(), Err(TagError::NotANumber));
}

#[test]
fn output_format_by_extension() {
    assert_eq!(output_format("json"), Some(OutputFormat::Json));
    assert_eq!(output_format("bson"), Some(OutputFormat::Bson));
    assert_eq!(output_format("bincode"), Some(OutputFormat::Bincode));
    assert_eq!(output_format("csv"), None);
    assert_eq!(output_format("JSON"), None);
}

#[test]
fn stats_file_takes_the_extension() {
    let (name, format) = write_stats("out/cummulative_trace_stats.csv", "bson").unwrap();
    assert_eq!(name, "out/cummulative_trace_stats.bson");
    assert_eq!(format, OutputFormat::Bson);
    let (name, _) = write_stats("a.csv.csv/b.cs", "json").unwrap();
    assert_eq!(name, "a.json.json/b.cs");
    let (name, _) = write_stats("plain", "bincode").unwrap();
    assert_eq!(name, "plain");
}

#[test]
fn unknown_format_is_an_error() {
    let err = write_stats("stats.csv", "xml").unwrap_err();
    assert_eq!(err.ext, "xml");
}

#[test]
fn input_is_a_file_or_a_folder_by_its_name() {
    assert_eq!(process_file_or_folder("traces/one.json"), Ok(InputKind::File));
    assert_eq!(process_file_or_folder("traces/"), Ok(InputKind::Folder));
    assert_eq!(process_file_or_folder("traces\\"), Ok(InputKind::Folder));
    assert!(process_file_or_folder("traces").is_err());
    assert!(process_file_or_folder("").is_err());
    assert!(process_file_or_folder("one.json.bak").is_err());
}

#[test]
fn replace_and_suffix() {
    assert_eq!(replace_all(&chars("aXXbXXX"), &chars("XX"), &chars("-")), chars("a-b-X"));
    assert_eq!(replace_all(&chars("abc"), &chars(""), &chars("-")), chars("abc"));
    assert_eq!(replace_all(&chars(""), &chars("a"), &chars("b")), chars(""));
    assert!(ends_with(&chars("file.json"), &chars(".json")));
    assert!(!ends_with(&chars("json"), &chars(".json")));
    assert!(ends_with(&chars("x"), &chars("")));
}

#[test]
fn text_helpers() {
    assert_eq!(chars_of("héllo"), chars("héllo"));
    assert_eq!(trim_chars(&chars(" \t a b \r\n")), chars("a b"));
    assert_eq!(trim_chars(&chars("\u{3000}x\u{a0}")), chars("x"));
    assert_eq!(trim_chars(&chars("   ")), chars(""));
    assert_eq!(trim_chars(&chars("")), chars(""));
    assert_eq!(
        split_chars(&chars("a&&b&"), '&'),
        vec![chars("a"), chars(""), chars("b"), chars("")]
    );
    assert_eq!(split_chars(&chars(""), '&'), vec![chars("")]);
    assert_eq!(find_char(&chars("abc"), 'c'), 2);
    assert_eq!(find_char(&chars("abc"), 'z'), 3);
    assert_eq!(find_name(&vec!["a".to_string(), "b".to_string()], "b"), 1);
    assert_eq!(find_name(&vec!["a".to_string(), "b".to_string()], "c"), 2);
    assert_eq!(decimal_string(0), "0");
    assert_eq!(decimal_string(7), "7");
    assert_eq!(decimal_string(1203), "1203");
    assert_eq!(decimal_string(usize::MAX), usize::MAX.to_string());
}

#[test]
fn lines_are_numbered_from_zero() {
    let lines = vec!["svcA/POST".to_string(), String::new(), "svcB/GET".to_string()];
    assert_eq!(get_numbered_lines(lines), "0: svcA/POST\n1: \n2: svcB/GET");
    assert_eq!(get_numbered_lines(Vec::new()), "");
    let many: Vec<String> = (0..12).map(|i| format!("l{}", i)).collect();
    assert!(get_numbered_lines(many).ends_with("\n10: l10\n11: l11"));
}

#[test]
fn white_space_is_what_trim_strips() {
    for code in 0..0x11_0000u32 {
        if let Some(c) = char::from_u32(code) {
            assert_eq!(is_space_char(c), c.is_whitespace());
        }
    }
}

#[test]
fn texts_in_dictionary_order() {
    assert!(text_before(&chars("a"), &chars("b")));
    assert!(text_before(&chars("a"), &chars("ab")));
    assert!(text_before(&chars(""), &chars("a")));
    assert!(!text_before(&chars("a"), &chars("a")));
    assert!(!text_before(&chars("b"), &chars("ab")));
    assert!(text_before(&chars("Z"), &chars("a")));
    let words = ["b", "a", "ab", "", "a", "é", "z"];
    for x in words {
        for y in words {
            assert_eq!(text_before(&chars(x), &chars(y)), x < y);
        }
    }
}

#[test]
fn sorted_insert_keeps_order_and_drops_repeats() {
    let mut list: Vec<String> = Vec::new();
    for w in ["m", "b", "z", "b", "a", "m"] {
        insert_sorted(&mut list, w);
    }
    assert_eq!(list, vec!["a".to_string(), "b".to_string(), "m".to_string(), "z".to_string()]);
}
