use rich_progress_bar::{
    bar_string, compose_inline, compose_new_line, decimal_string, filled_length, Colors,
    DisplayMode, RichProgressBar, NEW_LINE_WIDTH,
};

fn new_line_bar(total: u64, bar_length: usize) -> RichProgressBar {
    let mut b = RichProgressBar::new();
    b.set_total(total)
        .set_bar_length(bar_length)
        .set_display_mode(DisplayMode::NewLine);
    b
}

fn expected_new_line(bar: &str, percent: &str) -> String {
    format!("[{:<50}] {}%\n", bar, percent)
}

#[test]
fn defaults_of_a_new_bar() {
    let b = RichProgressBar::new();
    assert_eq!(b.get_total(), 100);
    assert_eq!(b.get_current(), 0);
    assert_eq!(b.get_bar_length(), 90);
    assert_eq!(b.get_color(), Colors::White);
    assert_eq!(*b.get_display_mode(), DisplayMode::Inline);
    assert_eq!(b.bar(), " ".repeat(90));
    assert_eq!(b.percentage(), 0);
}

#[test]
fn count_after_n_increments_from_fresh() {
    for n in 0..=10u64 {
        let mut b = new_line_bar(10, 10);
        for _ in 0..n {
            b.inc();
        }
        assert_eq!(b.get_current(), n);
    }
}

#[test]
fn count_is_clamped_at_total() {
    let mut b = new_line_bar(3, 3);
    for _ in 0..10 {
        b.inc();
        assert!(b.get_current() <= b.get_total());
    }
    assert_eq!(b.get_current(), 3);
    assert_eq!(b.get_total(), 3);
}

#[test]
fn fill_count_is_rounded_and_bar_keeps_its_width() {
    let mut b = new_line_bar(3, 7);
    b.inc();
    // 7 * 1/3 = 2.33 rounds to 2
    assert_eq!(b.bar(), "==     ");
    b.inc();
    // 7 * 2/3 = 4.67 rounds to 5
    assert_eq!(b.bar(), "=====  ");
    assert_eq!(b.percentage(), 67);
    let bar = b.bar();
    let fills = bar.chars().filter(|c| *c == '=').count();
    let spaces = bar.chars().filter(|c| *c == ' ').count();
    assert_eq!(fills, 5);
    assert_eq!(fills + spaces, 7);
}

#[test]
fn halves_round_away_from_zero() {
    assert_eq!(filled_length(1, 1, 2), 1);
    assert_eq!(filled_length(3, 1, 2), 2);
    assert_eq!(filled_length(100, 1, 8), 13);
    assert_eq!(filled_length(100, 1, 3), 33);
    assert_eq!(filled_length(10, 0, 7), 0);
}

#[test]
fn configuration_is_seen_at_once_and_keeps_the_count() {
    let mut b = new_line_bar(4, 8);
    b.inc();
    b.set_color(Colors::BrightCyan);
    assert_eq!(b.get_color(), Colors::BrightCyan);
    b.set_bar_length(4);
    assert_eq!(b.get_bar_length(), 4);
    assert_eq!(b.bar(), "=   ");
    b.set_display_mode(DisplayMode::Inline);
    assert_eq!(*b.get_display_mode(), DisplayMode::Inline);
    assert_eq!(b.get_current(), 1);
    assert_eq!(b.get_total(), 4);
    b.set_display_mode(DisplayMode::NewLine);
    assert_eq!(b.render(), expected_new_line("=   ", "25"));
}

#[test]
fn half_way_on_ten_cells() {
    let mut b = new_line_bar(10, 10);
    let mut last = String::new();
    for _ in 0..5 {
        last = b.inc();
    }
    assert_eq!(b.bar(), "=====     ");
    assert_eq!(b.percentage(), 50);
    assert_eq!(last, expected_new_line("=====     ", "50"));
    assert!(last.contains("50%"));
}

#[test]
fn thirds_on_three_cells() {
    let mut b = new_line_bar(3, 3);
    b.inc();
    assert_eq!(b.bar(), "=  ");
    b.inc();
    assert_eq!(b.bar(), "== ");
    b.inc();
    assert_eq!(b.bar(), "===");
    assert_eq!(b.percentage(), 100);
}

#[test]
fn increments_past_completion_still_render() {
    let mut b = new_line_bar(100, 20);
    let mut frames = 0;
    for i in 0..200 {
        let frame = b.inc();
        frames += 1;
        if i >= 99 {
            assert_eq!(frame, expected_new_line(&"=".repeat(20), "100"));
        }
    }
    assert_eq!(frames, 200);
    assert_eq!(b.get_current(), 100);
}

#[test]
fn zero_length_bar_has_no_cells() {
    let mut b = new_line_bar(2, 0);
    let frame = b.inc();
    assert_eq!(b.bar(), "");
    // the new-line frame still pads the empty bar to its fixed width
    assert_eq!(frame, expected_new_line("", "50"));
    assert!(frame.starts_with(&format!("[{}]", " ".repeat(50))));
}

#[test]
fn zero_length_inline_bar_shows_empty_brackets() {
    let mut b = RichProgressBar::new();
    b.set_total(2).set_bar_length(0);
    let frame = b.inc();
    // plain where colouring is off, white (code 37) where it is on
    let plain = "\r[] 50%";
    let white = "\r[\u{1b}[37m\u{1b}[0m] \u{1b}[37m50\u{1b}[0m%";
    assert!(frame == plain || frame == white, "{:?}", frame);
}

#[test]
fn new_line_frame_has_no_carriage_return() {
    let mut b = new_line_bar(4, 4);
    let frame = b.inc();
    assert!(!frame.contains('\r'));
    assert!(frame.starts_with("[=   "));
    assert!(frame.ends_with("] 25%\n"));
}

#[test]
fn zero_total_is_complete() {
    let mut b = new_line_bar(0, 5);
    let frame = b.inc();
    assert_eq!(b.get_current(), 0);
    assert_eq!(b.bar(), "=====");
    assert_eq!(b.percentage(), 100);
    assert_eq!(frame, expected_new_line("=====", "100"));
}

#[test]
fn count_past_a_lowered_total_renders_full() {
    let mut b = new_line_bar(10, 4);
    for _ in 0..6 {
        b.inc();
    }
    b.set_total(3);
    assert_eq!(b.get_current(), 6);
    assert_eq!(b.bar(), "====");
    assert_eq!(b.percentage(), 100);
}

#[test]
fn large_counts_do_not_overflow() {
    assert_eq!(filled_length(usize::MAX, u64::MAX - 1, u64::MAX), usize::MAX - 1);
    assert_eq!(filled_length(usize::MAX, u64::MAX / 2, u64::MAX), usize::MAX / 2);
    // usize::MAX / 2 is an odd number halved: the half rounds up
    assert_eq!(filled_length(usize::MAX, 1, 2), usize::MAX / 2 + 1);
    assert_eq!(filled_length(usize::MAX, u64::MAX, u64::MAX), usize::MAX);
}

#[test]
fn long_bar_is_cut_in_new_line_mode() {
    let mut b = new_line_bar(2, 60);
    let frame = b.inc();
    assert_eq!(b.bar(), format!("{}{}", "=".repeat(30), " ".repeat(30)));
    let field = format!("{}{}", "=".repeat(30), " ".repeat(20));
    assert_eq!(frame, format!("[{}] 50%\n", field));
    assert_eq!(NEW_LINE_WIDTH, 50);
    assert_eq!(compose_new_line(&"x".repeat(51), "1"), format!("[{}] 1%\n", "x".repeat(50)));
    assert_eq!(compose_new_line(&"x".repeat(50), "1"), format!("[{}] 1%\n", "x".repeat(50)));
}

#[test]
fn pieces_of_a_frame() {
    assert_eq!(bar_string(5, 2), "==   ");
    assert_eq!(bar_string(0, 0), "");
    assert_eq!(decimal_string(0), "0");
    assert_eq!(decimal_string(7), "7");
    assert_eq!(decimal_string(1234567890), "1234567890");
    assert_eq!(decimal_string(u64::MAX), u64::MAX.to_string());
    assert_eq!(compose_inline("ab", "12"), "\r[ab] 12%");
    assert_eq!(compose_new_line("ab", "12"), expected_new_line("ab", "12"));
}

#[test]
fn inline_frame_is_painted_in_the_configured_color() {
    colored::control::set_override(true);
    let mut b = RichProgressBar::new();
    b.set_total(10).set_bar_length(10).set_color(Colors::Green);
    let mut frame = String::new();
    for _ in 0..5 {
        frame = b.inc();
    }
    assert_eq!(
        frame,
        "\r[\u{1b}[32m=====     \u{1b}[0m] \u{1b}[32m50\u{1b}[0m%"
    );
    b.set_color(Colors::Red);
    assert_eq!(
        b.render(),
        "\r[\u{1b}[31m=====     \u{1b}[0m] \u{1b}[31m50\u{1b}[0m%"
    );
    b.set_color(Colors::BrightBlue);
    let frame = b.render();
    assert_eq!(
        frame,
        "\r[\u{1b}[94m=====     \u{1b}[0m] \u{1b}[94m50\u{1b}[0m%"
    );
    assert!(!frame.contains('\n'));
    b.set_color(Colors::TrueColor { r: 1, g: 2, b: 3 });
    let frame = b.render();
    assert!(!frame.contains('\n'));
    assert!(frame.contains("=====     \u{1b}[0m"));
    assert!(frame.starts_with("\r[\u{1b}[38;2;1;2;3m") || frame.starts_with("\r[\u{1b}[30m"));
}
