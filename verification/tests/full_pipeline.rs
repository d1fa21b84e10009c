use mycat::render;
use mycat::render_checked;
use mycat::PipelineConfig;

fn plain() -> PipelineConfig {
    PipelineConfig {
        show_nonprinting: false,
        squeeze_blank: false,
        show_tabs: false,
        number_all: false,
        number_nonblank: false,
        show_ends: false,
    }
}

#[test]
fn no_flags_is_identity_on_newline_terminated_text() {
    let cfg = plain();
    let (out, counter) = render(&cfg, 0, String::from("abc\n"));
    assert_eq!(out, "abc\n");
    assert_eq!(counter, 0);
}

#[test]
fn show_all_expands_to_nonprinting_ends_tabs() {
    let cfg = PipelineConfig::from_flags(
        true, false, false, false, false, false, false, false, false, false,
    );
    assert!(cfg.show_nonprinting);
    assert!(cfg.show_ends);
    assert!(cfg.show_tabs);
    assert!(!cfg.squeeze_blank);
    assert!(!cfg.number_all);
    assert!(!cfg.number_nonblank);
    let (out, _) = render(&cfg, 0, String::from("a\t\u{1}b\n"));
    assert_eq!(out, "a^I^Ab$\n");
}

#[test]
fn e_equivalent_expands_to_nonprinting_and_ends() {
    let cfg = PipelineConfig::from_flags(
        false, false, true, false, false, false, false, false, false, false,
    );
    assert!(cfg.show_nonprinting);
    assert!(cfg.show_ends);
    assert!(!cfg.show_tabs);
    let (out, _) = render(&cfg, 0, String::from("a\tb\n"));
    assert_eq!(out, "a\tb$\n");
}

#[test]
fn t_equivalent_expands_to_nonprinting_and_tabs() {
    let cfg = PipelineConfig::from_flags(
        false, false, false, false, false, false, true, false, false, false,
    );
    assert!(cfg.show_nonprinting);
    assert!(cfg.show_tabs);
    assert!(!cfg.show_ends);
    let (out, _) = render(&cfg, 0, String::from("a\tb\n"));
    assert_eq!(out, "a^Ib\n");
}

#[test]
fn unbuffered_flag_has_no_effect() {
    let with_u = PipelineConfig::from_flags(
        false, false, false, false, false, false, false, false, true, false,
    );
    assert_eq!(with_u, plain());
}

#[test]
fn ends_never_doubles_with_tabs_and_numbering() {
    let mut cfg = plain();
    cfg.show_tabs = true;
    cfg.number_all = true;
    cfg.show_ends = true;
    let (out, counter) = render(&cfg, 0, String::from("a\tb\nc\n"));
    assert_eq!(out, "     1\ta^Ib$\n     2\tc$\n");
    assert_eq!(counter, 3);
    assert_eq!(out.matches('$').count(), 2);
}

#[test]
fn squeeze_then_number_counts_squeezed_lines() {
    let mut cfg = plain();
    cfg.squeeze_blank = true;
    cfg.number_all = true;
    let (out, counter) = render(&cfg, 0, String::from("a\n\n\n\nb\n"));
    assert_eq!(out, "     1\ta\n     2\t\n     3\tb\n");
    assert_eq!(counter, 4);
}

#[test]
fn render_counter_carries_across_sources() {
    let mut cfg = plain();
    cfg.number_all = true;
    let (out1, counter) = render(&cfg, 0, String::from("a\n"));
    assert_eq!(out1, "     1\ta\n");
    let (out2, counter) = render(&cfg, counter, String::from("b\n"));
    assert_eq!(out2, "     2\tb\n");
    assert_eq!(counter, 3);
}

#[test]
fn render_counter_untouched_without_numbering() {
    let mut cfg = plain();
    cfg.show_ends = true;
    let (_, counter) = render(&cfg, 7, String::from("a\n"));
    assert_eq!(counter, 7);
}

#[test]
fn nonblank_numbering_keeps_blank_lines_bare() {
    let mut cfg = plain();
    cfg.number_nonblank = true;
    let (out, counter) = render(&cfg, 0, String::from("a\n\nb\n"));
    assert_eq!(out, "     1\ta\n\n     2\tb\n");
    assert_eq!(counter, 3);
}

#[test]
fn render_checked_accepts_ordinary_input() {
    let mut cfg = plain();
    cfg.number_all = true;
    let res = render_checked(&cfg, 0, String::from("a\nb\n"));
    let (out, counter) = res.expect("counter bound holds for tiny input");
    assert_eq!(out, "     1\ta\n     2\tb\n");
    assert_eq!(counter, 3);
}

#[test]
fn render_checked_refuses_counter_overflow() {
    let mut cfg = plain();
    cfg.number_all = true;
    let res = render_checked(&cfg, i32::MAX, String::from("a\nb\n"));
    assert!(res.is_none());
}

#[test]
fn trailing_newline_is_added_by_stages() {
    let cfg = {
        let mut c = plain();
        c.show_ends = true;
        c
    };
    let (out, _) = render(&cfg, 0, String::from("abc"));
    assert_eq!(out, "abc$\n");
}
