//! One module per command.
pub mod str_slice;
pub mod explode_line;
pub mod join_lines;
pub mod value_counts;
pub mod mix_lines;
pub mod clean_json;
pub mod remove_regex;
pub mod line_sim;
pub mod get_line;
pub mod line_count_est;
pub mod random_num;
pub mod try_parse_json;
pub mod plot_distr;
pub mod plot_ts;
