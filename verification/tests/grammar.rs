use csv_to_json::csv::parse_csv;
use csv_to_json::numbers::is_number_text;
use csv_to_json::wildcard::pattern_matches;

fn matches(pattern: &str, name: &str) -> bool {
    pattern_matches(&pattern.as_bytes().to_vec(), &name.as_bytes().to_vec())
}

fn records_of(content: &[u8]) -> Vec<Vec<String>> {
    parse_csv(&content.to_vec())
        .into_iter()
        .map(|rec| {
            rec.into_iter().map(|f| String::from_utf8(f).expect("field is valid text")).collect()
        })
        .collect()
}

#[test]
fn number_grammar_accepts_json_numbers() {
    for ok in ["0", "1", "42", "-7", "3.25", "-0.5", "1e3", "1E3", "2e+10", "2e-10", "0.0", "9.9e9"]
    {
        assert!(is_number_text(ok.as_bytes()), "{ok} should be a number");
    }
}

#[test]
fn number_grammar_rejects_non_numbers() {
    for bad in [
        "", "-", "01", "00", "1.", ".5", "1e", "1e+", "1a", "+1", "--1", "1.2.3", "0x1F", " 1",
        "1 ", "NaN", "Infinity", "1,000",
    ] {
        assert!(!is_number_text(bad.as_bytes()), "{bad} should not be a number");
    }
}

#[test]
fn number_grammar_agrees_with_serde_json() {
    let cases = [
        "0", "1", "42", "-7", "3.25", "-0.5", "1e3", "2e+10", "0.0", "", "-", "01", "1.", ".5",
        "1e", "1a", "+1", "1.2.3", "123456789012345678901234567890",
    ];
    for c in cases {
        let theirs = serde_json::from_str::<serde_json::Number>(c).is_ok();
        assert_eq!(is_number_text(c.as_bytes()), theirs, "disagreement on {c:?}");
    }
}

#[test]
fn wildcard_literal_and_classes() {
    assert!(matches("score", "score"));
    assert!(!matches("score", "scores"));
    assert!(!matches("score", "a score"));
    assert!(matches("s?ore", "score"));
    assert!(!matches("s?ore", "sore"));
    assert!(matches("s*", "score"));
    assert!(matches("*e", "score"));
    assert!(matches("*", ""));
    assert!(matches("*", "anything"));
    assert!(matches("a*b*c", "a-x-b-y-c"));
    assert!(!matches("a*b*c", "a-x-c"));
    assert!(!matches("", "x"));
    assert!(matches("", ""));
}

#[test]
fn wildcard_agrees_with_wildmatch() {
    let patterns = ["score", "s*", "*e", "s?ore", "a*b*c", "*", "?", ""];
    let names = ["score", "sore", "a-x-b-y-c", "", "s", "e", "amount_net"];
    for p in patterns {
        let w = wildmatch::WildMatch::new(p);
        for n in names {
            assert_eq!(matches(p, n), w.matches(n), "disagreement on {p:?} vs {n:?}");
        }
    }
}

#[test]
fn csv_plain_records() {
    let recs = records_of(b"a,b,c\n1,2,3\n");
    assert_eq!(recs, vec![vec!["a", "b", "c"], vec!["1", "2", "3"]]);
}

#[test]
fn csv_quoted_fields() {
    let recs = records_of(b"\"x,y\",plain\n\"he said \"\"hi\"\"\",\"line\nbreak\"\n");
    assert_eq!(recs, vec![vec!["x,y", "plain"], vec!["he said \"hi\"", "line\nbreak"]]);
}

#[test]
fn csv_crlf_and_blank_lines() {
    let recs = records_of(b"a,b\r\n1,2\r\n\r\n\n3,4\n");
    assert_eq!(recs, vec![vec!["a", "b"], vec!["1", "2"], vec!["3", "4"]]);
}

#[test]
fn csv_empty_fields() {
    let recs = records_of(b"a,,c\n,,\n");
    assert_eq!(recs, vec![vec!["a", "", "c"], vec!["", "", ""]]);
}

#[test]
fn csv_unterminated_quote_runs_to_end() {
    let recs = records_of(b"\"open\n");
    assert_eq!(recs, vec![vec!["open\n"]]);
}

#[test]
fn csv_cr_only_terminators() {
    let recs = records_of(b"a,b\r1,2\r");
    assert_eq!(recs, vec![vec!["a", "b"], vec!["1", "2"]]);
}

#[test]
fn multibyte_text_passes_through() {
    let content = "n\u{e9}v\n\u{e9}rt\u{e9}k\n";
    let recs = records_of(content.as_bytes());
    assert_eq!(recs, vec![vec!["n\u{e9}v"], vec!["\u{e9}rt\u{e9}k"]]);
}

#[test]
fn csv_agrees_with_csv_reader() {
    let inputs: [&[u8]; 4] = [
        b"a,b,c\n1,2,3\n",
        b"\"x,y\",plain\r\n\"he said \"\"hi\"\"\",\"line\nbreak\"\r\n",
        b"a,,c\n,,\n",
        b"one\ntwo\nthree\n",
    ];
    for input in inputs {
        let mine = records_of(input);
        let mut rdr = csv::ReaderBuilder::new()
            .has_headers(false)
            .flexible(true)
            .from_reader(input);
        let theirs: Vec<Vec<String>> = rdr
            .records()
            .map(|r| r.expect("record parses").iter().map(|f| f.to_string()).collect())
            .collect();
        assert_eq!(mine, theirs, "disagreement on {:?}", String::from_utf8_lossy(input));
    }
}
