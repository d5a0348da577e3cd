use mj_local_llm_hub::device::{
    lines_of, meminfo_total_bytes, meminfo_total_kib, parse_memory_report, second_word_of,
};
use mj_local_llm_hub::json::Json;
use mj_local_llm_hub::json::JsonNumber::{Float, NegInt, PosInt};
use mj_local_llm_hub::schema::matches_schema;
use mj_local_llm_hub::text::{decimal_string, hex_encode, parse_u64, replace, trim};

#[test]
fn reads_meminfo() {
    let content = "MemFree:  100 kB\nMemTotal:       16318420 kB\r\nMemTotal: 1 kB\n";
    assert_eq!(meminfo_total_kib(content), Some(16_318_420));
    assert_eq!(meminfo_total_bytes(content), Some(16_318_420 * 1024));
    assert_eq!(meminfo_total_kib("MemFree: 1 kB\n"), None);
    assert_eq!(meminfo_total_kib("MemTotal:\n"), None);
    assert_eq!(meminfo_total_kib("MemTotal: lots kB"), None);
    assert_eq!(meminfo_total_kib(" MemTotal: 5 kB"), None);
}

#[test]
fn lines_and_words_follow_std() {
    for text in ["a\nb\r\nc", "a\n", "", "\n\n", "x\r", "one\r\n"] {
        let std_lines: Vec<String> = text.lines().map(String::from).collect();
        assert_eq!(lines_of(text), std_lines, "{text:?}");
    }
    for text in ["  a  b c", "a", "", "a\u{3000}b", "x\ty\nz"] {
        assert_eq!(second_word_of(text), text.split_whitespace().nth(1).map(String::from));
    }
}

#[test]
fn memory_reports_are_trimmed_numbers() {
    assert_eq!(parse_memory_report(" 17179869184\r\n"), Some(17_179_869_184));
    assert_eq!(parse_memory_report("+12"), Some(12));
    assert_eq!(parse_memory_report("-12"), None);
    assert_eq!(parse_memory_report(""), None);
    assert_eq!(parse_memory_report("18446744073709551616"), None);
    assert_eq!(parse_u64("18446744073709551615"), Some(u64::MAX));
    assert_eq!(parse_u64("+"), None);
}

#[test]
fn text_helpers_match_std() {
    for text in ["  x y \t", "\u{a0}z\u{2028}", "", "   "] {
        assert_eq!(trim(text), text.trim());
    }
    assert_eq!(decimal_string(0), "0");
    assert_eq!(decimal_string(11434), "11434");
    assert_eq!(hex_encode(&[0x00, 0xab, 0x7f]), "00ab7f");
    assert_eq!(replace("aaa", "aa", "b"), "aaa".replace("aa", "b"));
}

#[test]
fn schema_subset() {
    let obj = |fields: Vec<(&str, Json)>| {
        Json::Object(fields.into_iter().map(|(k, v)| (k.to_string(), v)).collect())
    };
    let s = |t: &str| Json::String(t.to_string());
    let schema = obj(vec![
        ("type", s("array")),
        ("items", obj(vec![("type", s("integer"))])),
    ]);
    let ints = Json::Array(vec![Json::Number(PosInt(1)), Json::Number(NegInt(-2))]);
    assert!(matches_schema(&ints, &schema));
    let floats = Json::Array(vec![Json::Number(Float("1.5".into()))]);
    assert!(!matches_schema(&floats, &schema));
    assert!(matches_schema(&floats, &obj(vec![])));
    assert!(!matches_schema(&s("x"), &obj(vec![("type", s("unknown"))])));
    assert!(!matches_schema(&s("x"), &obj(vec![("required", Json::Array(vec![]))])));
    assert!(matches_schema(&Json::Null, &obj(vec![("type", s("null"))])));
}
