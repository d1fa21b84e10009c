use mycat::number_content_process;
use mycat::show_ends_content_process;
use mycat::show_nonprinting_content_process;
use mycat::show_tabs_content_process;
use mycat::squeeze_blank_content_process;

#[test]
fn nonprinting_leaves_plain_text_alone() {
    let out = show_nonprinting_content_process(String::from("abc\n"));
    assert_eq!(out, "abc\n");
}

#[test]
fn nonprinting_leaves_tab_raw() {
    let out = show_nonprinting_content_process(String::from("a\tb\n"));
    assert_eq!(out, "a\tb\n");
}

#[test]
fn nonprinting_shows_del_as_caret_question() {
    let out = show_nonprinting_content_process(String::from("\u{7F}\n"));
    assert_eq!(out, "^?\n");
}

#[test]
fn nonprinting_encodes_multibyte_chars_byte_by_byte() {
    let out = show_nonprinting_content_process(String::from("\u{3042}\n"));
    assert_eq!(out, "M-cM-^AM-^B\n");
}

#[test]
fn nonprinting_shows_control_chars() {
    let out = show_nonprinting_content_process(String::from("a\u{1}b\n"));
    assert_eq!(out, "a^Ab\n");
}

#[test]
fn squeeze_collapses_runs_of_blank_lines() {
    let out = squeeze_blank_content_process(String::from("\n\n\nabc\n"));
    assert_eq!(out, "\nabc\n");
}

#[test]
fn squeeze_collapses_two_blanks_to_one() {
    let out = squeeze_blank_content_process(String::from("a\n\n\nb\n\n\n\n\nc\n"));
    assert_eq!(out, "a\n\nb\n\nc\n");
}

#[test]
fn squeeze_keeps_nonblank_lines() {
    let out = squeeze_blank_content_process(String::from("a\nb\nc\n"));
    assert_eq!(out, "a\nb\nc\n");
}

#[test]
fn squeeze_is_idempotent() {
    let once = squeeze_blank_content_process(String::from("x\n\n\n\ny\n\nz\n"));
    let twice = squeeze_blank_content_process(once.clone());
    assert_eq!(twice, once);
}

#[test]
fn tabs_become_caret_i() {
    let out = show_tabs_content_process(String::from("a\tb\n"));
    assert_eq!(out, "a^Ib\n");
}

#[test]
fn tabs_several_per_line() {
    let out = show_tabs_content_process(String::from("\t\t\nx\ty\n"));
    assert_eq!(out, "^I^I\nx^Iy\n");
}

#[test]
fn ends_appends_one_dollar_per_line() {
    let out = show_ends_content_process(String::from("a\nb\n"));
    assert_eq!(out, "a$\nb$\n");
}

#[test]
fn ends_marks_blank_lines_too() {
    let out = show_ends_content_process(String::from("\n\n"));
    assert_eq!(out, "$\n$\n");
}

#[test]
fn numbering_starts_at_one() {
    let r = number_content_process(1, false, String::from("abc\n"));
    assert_eq!(r.len(), 2);
    assert_eq!(r[0], "     1\tabc\n");
    assert_eq!(r[1], "2");
}

#[test]
fn numbering_counter_zero_means_start_at_one() {
    let r = number_content_process(0, false, String::from("a\nb\n"));
    assert_eq!(r[0], "     1\ta\n     2\tb\n");
    assert_eq!(r[1], "3");
}

#[test]
fn numbering_carries_counter_across_sources() {
    let first = number_content_process(0, false, String::from("a\n"));
    assert_eq!(first[0], "     1\ta\n");
    let carried: i32 = first[1].parse().unwrap();
    assert_eq!(carried, 2);
    let second = number_content_process(carried, false, String::from("b\n"));
    assert_eq!(second[0], "     2\tb\n");
    assert_eq!(second[1], "3");
}

#[test]
fn numbering_nonblank_skips_blank_lines() {
    let r = number_content_process(1, true, String::from("a\n\nb\n"));
    assert_eq!(r[0], "     1\ta\n\n     2\tb\n");
    assert_eq!(r[1], "3");
}

#[test]
fn numbering_all_numbers_blank_lines() {
    let r = number_content_process(1, false, String::from("a\n\nb\n"));
    assert_eq!(r[0], "     1\ta\n     2\t\n     3\tb\n");
    assert_eq!(r[1], "4");
}

#[test]
fn numbering_wide_counter_overflows_field() {
    let r = number_content_process(1234567, false, String::from("abc\n"));
    assert_eq!(r[0], "1234567\tabc\n");
    assert_eq!(r[1], "1234568");
}

#[test]
fn numbering_negative_counter_is_rendered() {
    let r = number_content_process(-5, false, String::from("x\n"));
    assert_eq!(r[0], "    -5\tx\n");
    assert_eq!(r[1], "-4");
}

#[test]
fn empty_input_stays_empty() {
    assert_eq!(show_nonprinting_content_process(String::new()), "");
    assert_eq!(squeeze_blank_content_process(String::new()), "");
    assert_eq!(show_tabs_content_process(String::new()), "");
    assert_eq!(show_ends_content_process(String::new()), "");
}

#[test]
fn numbering_empty_input_keeps_counter() {
    let r = number_content_process(0, false, String::new());
    assert_eq!(r[0], "");
    assert_eq!(r[1], "1");
    let r = number_content_process(41, true, String::new());
    assert_eq!(r[0], "");
    assert_eq!(r[1], "41");
}

#[test]
fn missing_trailing_newline_gains_one() {
    assert_eq!(show_tabs_content_process(String::from("abc")), "abc\n");
    assert_eq!(show_ends_content_process(String::from("abc")), "abc$\n");
}
