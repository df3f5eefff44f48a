use cl_utils::commands::clean_json::Extractor;
use cl_utils::commands::explode_line::explode;
use cl_utils::commands::get_line;
use cl_utils::commands::join_lines::{self, Joiner};
use cl_utils::commands::line_count_est::LineSample;
use cl_utils::commands::line_sim;
use cl_utils::commands::mix_lines::{self, Mixer};
use cl_utils::commands::plot_distr::{self, BinCounts, Placement};
use cl_utils::commands::plot_ts;
use cl_utils::commands::random_num;
use cl_utils::commands::remove_regex;
use cl_utils::commands::str_slice::python_slice;
use cl_utils::commands::try_parse_json::{self, ParseTally};
use cl_utils::commands::value_counts::{self, Counter};
use cl_utils::io::write_line;
use cl_utils::text::trim_str;

fn strings(v: &[&str]) -> Vec<String> {
    v.iter().map(|s| s.to_string()).collect()
}

#[test]
fn trim_removes_unicode_white_space_and_is_idempotent() {
    let once = trim_str("\u{3000}\t x y \u{a0}\u{2028}");
    assert_eq!(once, "x y");
    assert_eq!(trim_str(&once), once);
    assert_eq!(trim_str(" \n\r "), "");
}

#[test]
fn explode_with_empty_separator_splits_every_character() {
    assert_eq!(explode("a b", ""), strings(&["a", "b"]));
}

#[test]
fn explode_takes_separator_matches_left_to_right() {
    assert_eq!(explode("xaaay", "aa"), strings(&["x", "ay"]));
    assert_eq!(explode("   ", ","), Vec::<String>::new());
}

#[test]
fn explode_parts_are_trimmed_and_nonblank() {
    for part in explode(" a ;; b\t; ;c ", ";") {
        assert!(!part.is_empty());
        assert_eq!(trim_str(&part), part);
    }
}

#[test]
fn slice_with_steps_other_than_one() {
    assert_eq!(python_slice("abcdef", None, None, 2), "ace");
    assert_eq!(python_slice("abcdef", None, None, -2), "fdb");
    assert_eq!(python_slice("abcdef", Some(1), Some(100), 3), "be");
    assert_eq!(python_slice("abcdef", Some(-100), Some(2), 1), "ab");
}

#[test]
fn slice_with_extreme_steps_stops_without_overflow() {
    assert_eq!(python_slice("abcdef", None, None, i64::MAX), "a");
    assert_eq!(python_slice("abcdef", None, None, i64::MIN), "f");
    assert_eq!(python_slice("abcdef", Some(i64::MAX), Some(i64::MIN), -1), "fedcba");
}

#[test]
fn slice_reverse_and_negative_index_laws() {
    assert_eq!(python_slice("héllo", None, None, -1), "olléh");
    assert_eq!(python_slice("abcdef", Some(-2), None, 1), python_slice("abcdef", Some(4), None, 1));
    assert_eq!(python_slice("abcdef", Some(1), Some(4), 1), "bcd");
    assert_eq!(python_slice("abcdef", Some(4), Some(1), 1), "");
    assert_eq!(python_slice("", None, None, -1), "");
}

#[test]
fn value_counts_orders_by_count_then_first_occurrence() {
    let lines = strings(&["b", "a", " b ", "c", "a", "b"]);
    assert_eq!(value_counts::value_counts(&lines), strings(&["1 c", "2 a", "3 b"]));
    let ties = strings(&["x", "y", "x", "y", "z"]);
    assert_eq!(value_counts::value_counts(&ties), strings(&["1 z", "2 x", "2 y"]));
}

#[test]
fn value_counts_prints_counts_in_decimal() {
    let mut c = Counter::new();
    for _ in 0..105 {
        c.add("z");
    }
    c.add("q");
    assert_eq!(c.lines_seen(), 106);
    assert_eq!(c.report(), strings(&["1 q", "105 z"]));
    assert_eq!(value_counts::value_counts(&Vec::new()), Vec::<String>::new());
}

#[test]
fn mixer_holds_until_full_then_emits_held_lines() {
    let mut m = Mixer::new(&mix_lines::Args { n: 2 });
    assert_eq!(m.push(" a "), None);
    assert_eq!(m.push("b"), None);
    let out = m.push("c").expect("a full reservoir emits");
    assert!(out == "a" || out == "b");
    let mut all = m.finish();
    all.push(out);
    all.sort();
    assert_eq!(all, strings(&["a", "b", "c"]));
}

#[test]
fn mixer_with_zero_capacity_holds_one_line() {
    let mut m = Mixer::new(&mix_lines::Args { n: 0 });
    assert_eq!(m.push("a"), None);
    assert_eq!(m.push("b"), Some("a".to_string()));
    assert_eq!(m.finish(), strings(&["b"]));
}

#[test]
fn join_lines_group_count_and_zero_group_size() {
    let lines = strings(&["1", "2", "3", "4", "5", "6", "7"]);
    let out = join_lines::join_lines(&lines, &join_lines::Args { n: 3, s: "-".to_string() });
    assert_eq!(out, strings(&["1-2-3", "4-5-6", "7"]));
    let ones = join_lines::join_lines(&strings(&[" a ", "b"]), &join_lines::Args { n: 0, s: ",".to_string() });
    assert_eq!(ones, strings(&["a", "b"]));
}

#[test]
fn joiner_emits_when_group_fills() {
    let mut j = Joiner::new(&join_lines::Args { n: 2, s: "+".to_string() });
    assert_eq!(j.push(" x"), None);
    assert_eq!(j.push("y "), Some("x+y".to_string()));
    assert_eq!(j.finish(), None);
    assert_eq!(j.push("z"), None);
    assert_eq!(j.finish(), Some("z".to_string()));
}

#[test]
fn get_line_zero_is_nothing() {
    let lines = strings(&["a"]);
    assert_eq!(get_line::get_line(&lines, &get_line::Args { n: 0 }), None);
}

#[test]
fn line_sample_counts_bytes_with_newlines() {
    let mut s = LineSample::new();
    s.add("abc");
    assert_eq!((s.bytes(), s.lines()), (4, 1));
    s.add("");
    s.add("é");
    // 'é' is two bytes.
    assert_eq!((s.bytes(), s.lines()), (8, 3));
}

#[test]
fn line_sim_with_empty_separator_compares_empty_and_line() {
    let out = line_sim::line_sim("  ab ", &line_sim::Args { sep: String::new() });
    assert_eq!(out.len(), 4);
    assert_eq!(out[1], "\t -> ");
    assert_eq!(out[2], "\t -> ab");
    assert_eq!(out[3], "");
    assert_eq!(out[0], "0");
}

#[test]
fn line_sim_trims_both_sides() {
    let out = line_sim::line_sim(" abc | abd ", &line_sim::Args { sep: "|".to_string() });
    assert_eq!(out[1], "\t -> abc");
    assert_eq!(out[2], "\t -> abd");
    let ratio: f64 = out[0].parse().unwrap();
    assert!(ratio > 0.6 && ratio < 0.7, "ratio={ratio}");
}

#[test]
fn clean_json_spans_first_open_to_last_close() {
    let ex = Extractor::new().ok().expect("the blob pattern compiles");
    assert_eq!(ex.extract("x {a} y {b} z"), Some("{a} y {b}".to_string()));
    assert_eq!(ex.extract("} only {"), None);
    assert_eq!(ex.extract("plain"), None);
}

#[test]
fn remove_regex_with_empty_replacement_removes() {
    let args = remove_regex::Args { pattern: "[0-9]".to_string(), replacement: String::new() };
    let r = remove_regex::Replacer::new(&args).ok().expect("valid pattern");
    assert_eq!(r.apply("a1b22c"), "abc");
}

#[test]
fn labels_lose_double_quotes() {
    assert_eq!(plot_ts::gnuplot_label("say \"hi\""), "say 'hi'");
}

#[test]
fn split_point_takes_first_white_space() {
    assert_eq!(plot_ts::split_point("  12   3.5 "), Some(("12".to_string(), "3.5".to_string())));
    assert_eq!(plot_ts::split_point("abc"), None);
    assert_eq!(plot_ts::split_point("   "), None);
    assert_eq!(plot_ts::split_point("a\tb c"), Some(("a".to_string(), "b c".to_string())));
}

#[test]
fn xtics_label_every_step() {
    assert_eq!(plot_ts::xtics(&strings(&["a", "b\""])), "set xtics rotate by -45 (\"a\" 0, \"b'\" 1)\n");
    let many: Vec<String> = (0..45).map(|i| format!("d{i}")).collect();
    let line = plot_ts::xtics(&many);
    assert!(line.contains("\"d0\" 0, \"d2\" 2, \"d4\" 4"));
    assert!(line.ends_with("\"d44\" 44)\n"));
}

#[test]
fn script_quotes_settings_and_wraps_data() {
    let args = plot_ts::Args { title: Some("My \"T\"".to_string()), xlabel: None, ylabel: Some("y".to_string()) };
    let s = plot_ts::script(&args, true, &Vec::new(), "1 2\n");
    assert_eq!(
        s,
        "set title \"My \\\"T\\\"\"\nset ylabel \"y\"\nset grid\nplot '-' using 1:2 with linespoints pt 7 ps 0.5 notitle\n1 2\ne\npause -1 'Press Enter to close...'\n"
    );
}

#[test]
fn json_tally_counts_and_summarises() {
    let mut t = ParseTally::new();
    assert!(t.check("{\"a\": [1, 2]}").is_ok());
    assert!(t.check("nope").is_err());
    assert!(t.check("3").is_ok());
    assert_eq!(t.checked(), 3);
    assert_eq!(t.summary(), "HITS 2 MISSES 1");
    assert_eq!(try_parse_json::failure_note("x"), "Failed parse of: x");
    assert!(!try_parse_json::progress_due(0));
    assert!(try_parse_json::progress_due(1024));
    assert!(!try_parse_json::progress_due(1025));
    assert!(try_parse_json::progress_due(2048));
}

#[test]
fn write_line_appends_utf8_and_newline() {
    let mut out = b"x".to_vec();
    write_line(&mut out, "hé");
    assert_eq!(out, vec![b'x', b'h', 0xc3, 0xa9, b'\n']);
}

#[test]
fn bins_grow_below_and_above() {
    let mut b = BinCounts::new(4);
    assert_eq!(b.place(Placement::Inside(1)), 0);
    assert_eq!(b.counts_vec(), &vec![0, 1, 0, 0]);
    assert_eq!(b.place(Placement::Below(3)), 3);
    assert_eq!(b.counts_vec(), &vec![1, 0, 0, 0, 1, 0, 0]);
    assert_eq!(b.place(Placement::Above(9)), 0);
    assert_eq!(b.counts_vec(), &vec![1, 0, 0, 0, 1, 0, 0, 0, 0, 1]);
    assert_eq!(b.place(Placement::Below(0)), 1);
    assert_eq!(b.counts_vec().len(), 11);
    assert_eq!(b.counts_vec()[0], 1);
    assert_eq!(b.counts_vec().iter().sum::<u64>(), 4);
}

#[test]
fn bins_stop_growing_at_the_cap() {
    let mut b = BinCounts::new(plot_distr::HARD_BIN_CAP);
    assert_eq!(b.place(Placement::Below(5)), 0);
    assert_eq!(b.place(Placement::Above(plot_distr::HARD_BIN_CAP)), 0);
    let c = b.counts_vec();
    assert_eq!(c.len(), plot_distr::HARD_BIN_CAP);
    assert_eq!(c[0], 1);
    assert_eq!(c[c.len() - 1], 1);
}

#[test]
fn layout_helpers_clamp() {
    assert_eq!(plot_distr::clamp_bin_count(0), plot_distr::MIN_BINS);
    assert_eq!(plot_distr::clamp_bin_count(1000), plot_distr::MAX_BINS);
    assert_eq!(plot_distr::clamp_bin_count(50), 50);
    assert_eq!(plot_distr::sample_size(&plot_distr::Args { log: false, sample: 0 }), 2);
    assert_eq!(plot_distr::sample_size(&plot_distr::Args { log: true, sample: 9 }), 9);
}

#[test]
fn random_num_defaults_to_uniform() {
    assert!(random_num::distribution(&random_num::Args { distr: None }) == random_num::Distr::Unif);
    let norm = random_num::Args { distr: Some(random_num::Distr::Norm) };
    assert!(random_num::distribution(&norm) == random_num::Distr::Norm);
}

#[test]
fn mix_lines_emits_no_line_before_it_can() {
    let lines: Vec<String> = (0..20).map(|i| i.to_string()).collect();
    let out = mix_lines::mix_lines(&lines, &mix_lines::Args { n: 4 });
    assert_eq!(out.len(), 20);
    for (j, x) in out.iter().enumerate() {
        let pos = lines.iter().position(|l| l == x).unwrap();
        assert!(pos < j + 4, "line {x} printed at {j}");
    }
}

#[test]
fn slice_identities_and_strides() {
    let s = "abcdéfgh";
    assert_eq!(python_slice(&python_slice(s, None, None, -1), None, None, -1), s);
    assert_eq!(python_slice(s, None, None, 1), s);
    for k in 1..5 {
        for (a, b) in [(None, None), (Some(1), Some(-1)), (Some(-5), None), (Some(6), Some(2))] {
            assert_eq!(python_slice(s, a, b, k), python_slice(&python_slice(s, a, b, 1), None, None, k));
        }
    }
}

#[test]
fn line_sim_equal_sides_score_one() {
    let out = line_sim::line_sim("x|x", &line_sim::Args { sep: "|".to_string() });
    assert_eq!(out[0], "1");
    let empty = line_sim::line_sim("|", &line_sim::Args { sep: "|".to_string() });
    assert_eq!(empty[0], "1");
}

#[test]
fn bins_count_the_values_placed() {
    let mut b = BinCounts::new(5);
    assert_eq!(b.values(), 0);
    b.place(Placement::Inside(4));
    b.place(Placement::Below(2));
    b.place(Placement::Above(20));
    assert_eq!(b.values(), 3);
    assert_eq!(b.counts_vec().iter().sum::<u64>(), 3);
}

#[test]
fn mix_lines_prints_each_line_within_capacity_of_its_arrival() {
    let lines: Vec<String> = (0..30).map(|i| i.to_string()).collect();
    for cap in 1..5 {
        let out = mix_lines::mix_lines(&lines, &mix_lines::Args { n: cap });
        for (j, x) in out.iter().enumerate() {
            let pos = lines.iter().position(|l| l == x).unwrap();
            assert!(pos < j + cap, "line {x} printed at {j} with capacity {cap}");
        }
    }
}
