use desx::exec_cleanup::{
    exec_display, split_basename_and_args, strip_field_codes, tidy_stripped_exec,
};

#[test]
fn strips_single_char_field_codes() {
    assert_eq!(strip_field_codes("firefox %u").unwrap(), "firefox");
    assert_eq!(strip_field_codes("chromium %U").unwrap(), "chromium");
    assert_eq!(strip_field_codes("editor %f").unwrap(), "editor");
    assert_eq!(strip_field_codes("thunar %F").unwrap(), "thunar");
    assert_eq!(strip_field_codes("app %i").unwrap(), "app");
    assert_eq!(strip_field_codes("app %c").unwrap(), "app");
    assert_eq!(strip_field_codes("app %k").unwrap(), "app");
}

#[test]
fn preserves_literal_percent_escape() {
    assert_eq!(strip_field_codes("echo 100%%").unwrap(), "echo 100%");
    assert_eq!(strip_field_codes("progress %% %u").unwrap(), "progress %");
}

#[test]
fn collapses_whitespace_from_stripped_codes() {
    assert_eq!(
        strip_field_codes("env FOO=1 app  %u  --flag").unwrap(),
        "env FOO=1 app --flag"
    );
}

#[test]
fn empty_and_unaffected_inputs() {
    assert_eq!(strip_field_codes("").unwrap(), "");
    assert_eq!(strip_field_codes("plain command").unwrap(), "plain command");
}

#[test]
fn split_basename_handles_plain_command() {
    assert_eq!(
        split_basename_and_args("firefox"),
        ("firefox".to_string(), String::new())
    );
}

#[test]
fn split_basename_strips_path() {
    assert_eq!(
        split_basename_and_args("/usr/bin/firefox --new-window"),
        ("firefox".to_string(), "--new-window".to_string())
    );
}

#[test]
fn split_basename_preserves_multi_arg() {
    assert_eq!(
        split_basename_and_args("/opt/google/chrome/chrome --profile-directory=Default"),
        (
            "chrome".to_string(),
            "--profile-directory=Default".to_string()
        )
    );
}

#[test]
fn exec_display_no_args() {
    assert_eq!(exec_display("/usr/bin/firefox"), "firefox");
}

#[test]
fn exec_display_with_args() {
    assert_eq!(
        exec_display("/usr/bin/firefox --new-window"),
        "firefox --new-window"
    );
}

#[test]
fn exec_display_trims_input() {
    assert_eq!(exec_display("   firefox   "), "firefox");
}

#[test]
fn tidy_restores_marks_collapses_and_trims() {
    assert_eq!(tidy_stripped_exec("  echo\u{feff}  done \t "), "echo% done");
    assert_eq!(tidy_stripped_exec("  echo%  done \t "), "echo% done");
    assert_eq!(tidy_stripped_exec(""), "");
    assert_eq!(tidy_stripped_exec(" \u{a0}\u{3000} "), "");
}

#[test]
fn stripped_output_is_single_spaced() {
    let out = strip_field_codes("\t a %f \u{2003} b %U\n").unwrap();
    assert_eq!(out, "a b");
    assert!(!out.contains("  "));
    assert_eq!(out.trim(), out);
}

#[test]
fn only_listed_codes_are_removed() {
    assert_eq!(strip_field_codes("app %d %x %U").unwrap(), "app %d %x");
    assert_eq!(strip_field_codes("%%u").unwrap(), "%u");
    assert_eq!(strip_field_codes("%%%u").unwrap(), "%");
}

#[test]
fn file_name_rules_follow_path_components() {
    assert_eq!(split_basename_and_args("/usr/bin/").0, "bin");
    assert_eq!(split_basename_and_args("foo/.").0, "foo");
    assert_eq!(split_basename_and_args("foo/..").0, "foo/..");
    assert_eq!(split_basename_and_args("/").0, "/");
    assert_eq!(split_basename_and_args("./run  a  b ").0, "run");
    assert_eq!(split_basename_and_args("./run  a  b ").1, "a  b");
    assert_eq!(split_basename_and_args("   ").0, "");
}

#[test]
fn split_uses_any_unicode_whitespace() {
    assert_eq!(
        split_basename_and_args("/bin/app\u{2009}--x"),
        ("app".to_string(), "--x".to_string())
    );
}

#[test]
fn percent_mark_in_the_line_comes_out_as_percent() {
    assert_eq!(strip_field_codes("a\u{feff}b").unwrap(), "a%b");
    assert_eq!(strip_field_codes("x\u{feff}%% %u").unwrap(), "x%%");
    assert_eq!(strip_field_codes("\u{feff}u").unwrap(), "%u");
    assert_eq!(tidy_stripped_exec("a\u{feff}b"), "a%b");
}

#[test]
fn escape_splits_before_codes() {
    assert_eq!(strip_field_codes("%%%%").unwrap(), "%%");
    assert_eq!(strip_field_codes("%%f%f").unwrap(), "%f");
    assert_eq!(strip_field_codes("%").unwrap(), "%");
}
