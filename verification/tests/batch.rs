use csv_to_json::convert::{first_failure, ErrorKind};
use csv_to_json::paths::{build_output_path, collect_files, has_json_marker, parent_dir};
use csv_to_json::ApplicationOptions;

fn options_with_output(output: Option<&str>) -> ApplicationOptions {
    ApplicationOptions {
        input: Vec::new(),
        output: output.map(|o| o.as_bytes().to_vec()),
        numeric_fields: None,
        auto_numbers: false,
        pretty_print: false,
    }
}

fn derive(output: Option<&str>, input: &str, single: bool) -> String {
    let o = output.map(|o| o.as_bytes().to_vec());
    let out = build_output_path(&o, &input.as_bytes().to_vec(), single);
    String::from_utf8(out).expect("path is valid text")
}

#[test]
fn no_output_appends_json_beside_input() {
    assert_eq!(derive(None, "data/a.csv", true), "data/a.csv.json");
    assert_eq!(derive(None, "a.csv", false), "a.csv.json");
}

#[test]
fn explicit_file_used_verbatim_for_single_input() {
    assert_eq!(derive(Some("out/result.json"), "data/a.csv", true), "out/result.json");
}

#[test]
fn explicit_file_is_a_directory_base_for_many_inputs() {
    assert_eq!(derive(Some("out.json"), "data/a.csv", false), "out.json/data/a.csv.json");
}

#[test]
fn directory_base_preserves_nesting() {
    assert_eq!(derive(Some("out"), "data/sub/a.csv", true), "out/data/sub/a.csv.json");
    assert_eq!(derive(Some("out"), "a.csv", false), "out/a.csv.json");
}

#[test]
fn absolute_input_nests_beneath_directory_base() {
    assert_eq!(derive(Some("out"), "/data/a.csv", false), "out/data/a.csv.json");
}

#[test]
fn derivation_is_repeatable() {
    let first = derive(Some("out"), "data/a.csv", false);
    let second = derive(Some("out"), "data/a.csv", false);
    assert_eq!(first, second);
}

#[test]
fn json_marker_detection() {
    assert!(has_json_marker(&b"x.json".to_vec()));
    assert!(has_json_marker(&b"dir/x.json/rest".to_vec()));
    assert!(!has_json_marker(&b"x.js".to_vec()));
    assert!(!has_json_marker(&b"jsonx".to_vec()));
    assert!(!has_json_marker(&Vec::new()));
}

#[test]
fn parent_dir_of_derived_paths() {
    assert_eq!(parent_dir(&b"out/data/a.csv.json".to_vec()), b"out/data".to_vec());
    assert_eq!(parent_dir(&b"a.csv.json".to_vec()), Vec::<u8>::new());
}

#[test]
fn collect_files_pairs_each_input() {
    let opts = options_with_output(None);
    let resolved = vec![b"a.csv".to_vec(), b"b.csv".to_vec()];
    let units = collect_files(&resolved, &opts);
    assert_eq!(units.len(), 2);
    assert_eq!(units[0].input, b"a.csv".to_vec());
    assert_eq!(units[0].output, b"a.csv.json".to_vec());
    assert_eq!(units[1].input, b"b.csv".to_vec());
    assert_eq!(units[1].output, b"b.csv.json".to_vec());
}

#[test]
fn collect_files_single_explicit_output() {
    let opts = options_with_output(Some("only.json"));
    let resolved = vec![b"data/a.csv".to_vec()];
    let units = collect_files(&resolved, &opts);
    assert_eq!(units.len(), 1);
    assert_eq!(units[0].output, b"only.json".to_vec());
}

#[test]
fn collect_files_directory_output_for_many() {
    let opts = options_with_output(Some("out"));
    let resolved = vec![b"x/a.csv".to_vec(), b"y/b.csv".to_vec()];
    let units = collect_files(&resolved, &opts);
    assert_eq!(units[0].output, b"out/x/a.csv.json".to_vec());
    assert_eq!(units[1].output, b"out/y/b.csv.json".to_vec());
}

#[test]
fn first_failure_reports_earliest() {
    let outcomes = vec![None, Some(ErrorKind::InputNotFound), Some(ErrorKind::OutputWrite)];
    assert_eq!(first_failure(&outcomes), Some(1));
}

#[test]
fn first_failure_none_when_all_succeed() {
    let outcomes: Vec<Option<ErrorKind>> = vec![None, None];
    assert_eq!(first_failure(&outcomes), None);
    assert_eq!(first_failure(&Vec::new()), None);
}

#[test]
fn stdout_mode_needs_single_unit_and_no_output() {
    let no_output = options_with_output(None);
    let with_output = options_with_output(Some("out"));
    assert!(csv_to_json::convert::stdout_mode(&no_output, 1));
    assert!(!csv_to_json::convert::stdout_mode(&no_output, 2));
    assert!(!csv_to_json::convert::stdout_mode(&no_output, 0));
    assert!(!csv_to_json::convert::stdout_mode(&with_output, 1));
}

#[test]
fn default_options_are_inert() {
    let opts = ApplicationOptions::default();
    assert_eq!(opts.input, vec![Vec::<u8>::new()]);
    assert!(opts.output.is_none());
    assert!(opts.numeric_fields.is_none());
    assert!(!opts.auto_numbers);
    assert!(!opts.pretty_print);
}
