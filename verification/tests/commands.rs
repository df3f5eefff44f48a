use cl_utils::commands::clean_json::Extractor;
use cl_utils::commands::explode_line;
use cl_utils::commands::get_line;
use cl_utils::commands::join_lines;
use cl_utils::commands::line_count_est::LineSample;
use cl_utils::commands::line_sim;
use cl_utils::commands::mix_lines;
use cl_utils::commands::remove_regex;
use cl_utils::commands::str_slice;

/// The estimate the program prints for a sample and a file size.
fn estimate(sample: &LineSample, file_size: u64) -> u64 {
    if sample.lines() == 0 {
        return 0;
    }
    let bytes_per_line = sample.bytes() as f64 / sample.lines() as f64;
    (file_size as f64 / bytes_per_line).round() as u64
}

fn lines_of(input: &str) -> Vec<String> {
    input.lines().map(|l| l.to_string()).collect()
}

fn explode_all(input: &str, sep: &str) -> Vec<String> {
    let args = explode_line::Args { sep: sep.to_string() };
    let mut out = Vec::new();
    for line in input.lines() {
        out.extend(explode_line::explode(line, &args.sep));
    }
    out
}

fn slice_all(input: &str, a: Option<i64>, b: Option<i64>, step: i64) -> Vec<String> {
    let args = str_slice::Args { a, b, step };
    input.lines().map(|l| str_slice::slice_line(l, &args)).collect()
}

fn replace_all_lines(pattern: &str, replacement: &str, input: &str) -> Result<Vec<String>, String> {
    let args = remove_regex::Args { pattern: pattern.to_string(), replacement: replacement.to_string() };
    match remove_regex::Replacer::new(&args) {
        Ok(r) => Ok(input.lines().map(|l| r.apply(l)).collect()),
        Err(e) => Err(e.message),
    }
}

#[test]
fn clean_json_extracts_first_brace_blob() {
    let input = "prefix {\"a\":1} suffix\nno json here\n{\"b\":2}\n";
    let ex = Extractor::new().ok().expect("the blob pattern compiles");
    let out: Vec<String> = input.lines().filter_map(|l| ex.extract(l)).collect();
    assert_eq!(out, vec!["{\"a\":1}".to_string(), "{\"b\":2}".to_string()]);
}

#[test]
fn explode_line_default_space_separator() {
    assert_eq!(explode_all("  a  b   c\nd e\n", " "), vec!["a", "b", "c", "d", "e"]);
}

#[test]
fn explode_line_custom_separator() {
    assert_eq!(explode_all("a,,b,c\n,x,\n", ","), vec!["a", "b", "c", "x"]);
}

#[test]
fn get_line_prints_nth() {
    let input = lines_of("one\ntwo\nthree\nfour\n");
    assert_eq!(get_line::get_line(&input, &get_line::Args { n: 1 }), Some("one".to_string()));
    assert_eq!(get_line::get_line(&input, &get_line::Args { n: 3 }), Some("three".to_string()));
}

#[test]
fn get_line_out_of_range_prints_nothing() {
    let input = lines_of("a\nb\n");
    assert_eq!(get_line::get_line(&input, &get_line::Args { n: 99 }), None);
}

#[test]
fn join_lines_default_pairs_with_space() {
    let args = join_lines::Args { n: 2, s: " ".to_string() };
    assert_eq!(join_lines::join_lines(&lines_of("a\nb\nc\nd\n"), &args), vec!["a b", "c d"]);
}

#[test]
fn join_lines_flushes_partial_group() {
    let args = join_lines::Args { n: 3, s: ",".to_string() };
    assert_eq!(join_lines::join_lines(&lines_of("a\nb\nc\nd\ne\n"), &args), vec!["a,b,c", "d,e"]);
}

#[test]
fn replace_regex_substitutes_matches() {
    let out = replace_all_lines(r"\d+", "N", "abc123def\n42\nno digits\n");
    assert_eq!(out, Ok(vec!["abcNdef".to_string(), "N".to_string(), "no digits".to_string()]));
}

#[test]
fn replace_regex_supports_capture_refs() {
    let out = replace_all_lines(r"(\w+)@(\w+)", "$2.$1", "user@host\n");
    assert_eq!(out, Ok(vec!["host.user".to_string()]));
}

#[test]
fn replace_regex_invalid_pattern_errors() {
    assert!(replace_all_lines("(", "x", "x\n").is_err());
}

#[test]
fn str_slice_positive_range() {
    assert_eq!(slice_all("abcdef\nhello\n", Some(1), Some(4), 1), vec!["bcd", "ell"]);
}

#[test]
fn str_slice_negative_indices() {
    assert_eq!(slice_all("abcdef\n", Some(-3), Some(-1), 1), vec!["de"]);
}

#[test]
fn str_slice_reverse_step() {
    assert_eq!(slice_all("abc\n", None, None, -1), vec!["cba"]);
}

#[test]
fn str_slice_unicode_chars() {
    // 4 chars: é, l, è, v -> slice [1:3] -> "lè"
    assert_eq!(slice_all("élève\n", Some(1), Some(3), 1), vec!["lè"]);
}

#[test]
fn str_slice_step_zero_returns_empty() {
    assert_eq!(slice_all("abcdef\n", None, None, 0), vec![""]);
}

#[test]
fn line_sim_identical_strings_score_one() {
    let out = line_sim::line_sim("hello hello", &line_sim::Args { sep: " ".to_string() });
    let ratio: f64 = out[0].parse().unwrap();
    assert!((ratio - 1.0).abs() < 1e-9, "ratio={ratio}");
}

#[test]
fn line_sim_skips_lines_without_separator() {
    let out = line_sim::line_sim("no-comma-here", &line_sim::Args { sep: ",".to_string() });
    assert!(out.is_empty());
}

#[test]
fn mix_lines_preserves_multiset() {
    let input = "1\n2\n3\n4\n5\n6\n7\n8\n9\n10\n";
    let mut got = mix_lines::mix_lines(&lines_of(input), &mix_lines::Args { n: 3 });
    let mut want = lines_of(input);
    got.sort();
    want.sort();
    assert_eq!(got, want);
}

#[test]
fn line_count_est_matches_for_uniform_file() {
    let mut sample = LineSample::new();
    for _ in 0..10 {
        sample.add("abcdefghij");
    }
    assert_eq!(sample.bytes(), 110);
    assert_eq!(sample.lines(), 10);
    // 100 lines of 10 characters and a newline.
    assert_eq!(estimate(&sample, 1100), 100);
}

#[test]
fn line_count_est_empty_file_is_zero() {
    let sample = LineSample::new();
    assert_eq!(sample.lines(), 0);
    assert_eq!(estimate(&sample, 0), 0);
}
