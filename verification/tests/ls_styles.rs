use vtcode_runloop::ls_styles::{LsColor, LsStyle, LsStyles, bold_color};
use vtcode_runloop::output::truncate_chars_to_width;

fn classes(items: &[(&str, LsStyle)]) -> Vec<(String, LsStyle)> {
    items.iter().map(|(k, s)| (k.to_string(), *s)).collect()
}

#[test]
fn detects_ls_styles_for_directories_and_executables() {
    let dir_style = bold_color(LsColor::Blue);
    let exec_style = bold_color(LsColor::Green);
    let ls = LsStyles::from_components(classes(&[("di", dir_style), ("ex", exec_style)]), Vec::new());
    assert_eq!(ls.style_for_line("folder/"), Some(dir_style));
    assert_eq!(ls.style_for_line("script*"), Some(exec_style));
}

#[test]
fn applies_extension_based_styles() {
    let ls = LsStyles::from_components(Vec::new(), classes(&[(".rs", bold_color(LsColor::Red))]));
    assert!(ls.style_for_line("main.rs").is_some());
}

#[test]
fn extension_matching_requires_dot_boundary() {
    let ls = LsStyles::from_components(Vec::new(), classes(&[(".rs", bold_color(LsColor::Green))]));
    assert!(ls.style_for_line("helpers").is_none());
    assert!(ls.style_for_line("helpers.rs").is_some());
}

#[test]
fn long_listing_type_letters_and_markers_pick_classes() {
    let ls = LsStyles::from_env();
    assert_eq!(ls.style_for_line("drwxr-xr-x 2 me me 4096 Jan 1 src"), Some(bold_color(LsColor::Blue)));
    assert_eq!(ls.style_for_line("lrwxrwxrwx 1 me me 7 Jan 1 link -> x"), Some(bold_color(LsColor::Cyan)));
    assert_eq!(ls.style_for_line("  \"pipe|\"  "), Some(bold_color(LsColor::Yellow)));
    assert_eq!(ls.style_for_line("sock="), Some(bold_color(LsColor::Magenta)));
    assert_eq!(ls.style_for_line("crw-rw-rw- 1 root root tty"), Some(bold_color(LsColor::Yellow)));
    assert_eq!(ls.style_for_line("-rw-r--r-- 1 me me 10 Jan 1 notes.txt"), None);
    assert_eq!(ls.style_for_line("   "), None);
}

#[test]
fn later_class_entries_replace_earlier_ones_and_marker_wins_over_letter() {
    let red = bold_color(LsColor::Red);
    let ls = LsStyles::from_components(
        classes(&[("di", bold_color(LsColor::Blue)), ("di", red), ("ex", bold_color(LsColor::Green))]),
        Vec::new(),
    );
    assert_eq!(ls.style_for_line("docs/"), Some(red));
    assert_eq!(ls.style_for_line("dist*"), Some(bold_color(LsColor::Green)));
    let only_ex = LsStyles::from_components(classes(&[("ex", bold_color(LsColor::Green))]), Vec::new());
    assert_eq!(only_ex.style_for_line("a**"), Some(bold_color(LsColor::Green)));
    assert_eq!(only_ex.style_for_line("dir/"), None);
}

#[test]
fn width_truncation_counts_display_columns() {
    assert_eq!(truncate_chars_to_width("hello", 0), "");
    assert_eq!(truncate_chars_to_width("hello", 3), "hel");
    assert_eq!(truncate_chars_to_width("hello", 10), "hello");
    assert_eq!(truncate_chars_to_width("\u{4e16}\u{754c}x", 3), "\u{4e16}");
    assert_eq!(truncate_chars_to_width("a\tb", 2), "a\t");
}
