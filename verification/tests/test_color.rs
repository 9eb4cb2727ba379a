use minilisp::color::{ansi, back, bg, bgfg, couple, fg, fore, invert_bw, reset, wrap};

#[test]
fn wrap_folds_into_range() {
    assert_eq!(wrap(0), 0);
    assert_eq!(wrap(10), 10);
    assert_eq!(wrap(254), 254);
    assert_eq!(wrap(255), 0);
    assert_eq!(wrap(256), 1);
}

#[test]
fn invert_bw_picks_contrast() {
    assert_eq!(invert_bw(0), 255);
    assert_eq!(invert_bw(8), 255);
    assert_eq!(invert_bw(16), 255);
    assert_eq!(invert_bw(23), 255);
    assert_eq!(invert_bw(24), 16);
    assert_eq!(invert_bw(232), 255);
    assert_eq!(invert_bw(236), 255);
    assert_eq!(invert_bw(237), 16);
    assert_eq!(invert_bw(100), 16);
}

#[test]
fn couple_pairs_color_and_contrast() {
    assert_eq!(couple(16), (16, 255));
    assert_eq!(couple(100), (100, 16));
}

#[test]
fn fg_and_bg_build_escapes() {
    assert_eq!(fg("x", 10), "\x1b[1;38;5;10mx");
    assert_eq!(bg("x", 10), "\x1b[1;48;5;10mx");
    assert_eq!(reset("x"), "x\x1b[0m");
}

#[test]
fn composed_styles() {
    assert_eq!(bgfg("a", 196, 16), "\x1b[1;48;5;16m\x1b[1;38;5;196ma");
    assert_eq!(ansi("a", 196, 16), "\x1b[1;48;5;16m\x1b[1;38;5;196ma\x1b[0m");
    assert_eq!(fore("a", 100), ansi("a", 100, 16));
    assert_eq!(back("a", 100), ansi("a", 16, 100));
}
