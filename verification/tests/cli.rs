use tinylua::cli::{output_path, replace_all_of, target_from_args};
use tinylua::sema::Target;

fn args(xs: &[&str]) -> Vec<String> {
    xs.iter().map(|s| s.to_string()).collect()
}

#[test]
fn target_defaults_to_avr() {
    assert_eq!(target_from_args(&args(&["tinylua-cli", "blink.lua"])), Target::Avr);
    assert_eq!(target_from_args(&args(&["tinylua-cli", "blink.lua", "--target"])), Target::Avr);
    assert_eq!(target_from_args(&args(&["tinylua-cli", "blink.lua", "--target", "arm"])), Target::Avr);
}

#[test]
fn target_esp32_is_recognised() {
    assert_eq!(target_from_args(&args(&["tinylua-cli", "blink.lua", "--target", "esp32"])), Target::Esp32);
    assert_eq!(target_from_args(&args(&["tinylua-cli", "--target", "esp32", "blink.lua"])), Target::Esp32);
}

#[test]
fn only_the_first_target_flag_counts() {
    assert_eq!(target_from_args(&args(&["c", "--target", "avr", "--target", "esp32"])), Target::Avr);
    assert_eq!(target_from_args(&args(&["c", "--target", "esp32", "--target", "avr"])), Target::Esp32);
}

#[test]
fn output_path_replaces_the_extension() {
    assert_eq!(output_path("blink.lua"), "blink.rs");
    assert_eq!(output_path("dir/blink.lua"), "dir/blink.rs");
    assert_eq!(output_path("noext"), "noext");
    assert_eq!(output_path("a.lua.lua"), "a.rs.rs");
    assert_eq!(output_path("x.luax"), "x.rsx");
}

#[test]
fn replace_all_matches_std() {
    for (s, p, r) in [("aaaa", "aa", "b"), ("abcabc", "bc", "X"), ("", "x", "y"), ("xyz", "xyz", ""), ("ab", "abc", "z")] {
        assert_eq!(replace_all_of(s, p, r), s.replace(p, r));
    }
}
