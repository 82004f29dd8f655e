use roll_flow::failure::Failure;
use roll_flow::tui::output::{
    error_lines, panel_rect, status_style, LineKind, Panel, Status, SCROLLBACK,
};
use roll_flow::tui::style::{Color, Rect};

fn panel_with(n: usize) -> Panel {
    let mut p = Panel::new("git push".to_string());
    for i in 0..n {
        p.push(LineKind::Stdout, format!("line {i}"));
    }
    p
}

fn texts(panel: &Panel, height: usize) -> Vec<String> {
    panel.window(height).iter().map(|l| l.text.clone()).collect()
}

#[test]
fn the_window_shows_the_tail_by_default() {
    let p = panel_with(10);
    assert_eq!(texts(&p, 3), vec!["line 7", "line 8", "line 9"]);
}

#[test]
fn fewer_lines_than_the_window_shows_them_all() {
    let p = panel_with(2);
    assert_eq!(texts(&p, 5), vec!["line 0", "line 1"]);
}

#[test]
fn scrolling_up_moves_the_window_back_and_stops_following() {
    let mut p = panel_with(10);
    p.scroll_up(2);
    assert_eq!(texts(&p, 3), vec!["line 5", "line 6", "line 7"]);
    // New output must not yank the view back to the tail while scrolled up.
    p.push(LineKind::Stdout, "line 10".to_string());
    assert_eq!(texts(&p, 3), vec!["line 5", "line 6", "line 7"]);
}

#[test]
fn scrolling_back_to_the_tail_resumes_following() {
    let mut p = panel_with(10);
    p.scroll_up(4);
    p.scroll_down(4);
    p.push(LineKind::Stdout, "line 10".to_string());
    assert_eq!(texts(&p, 1), vec!["line 10"]);
}

#[test]
fn scroll_up_cannot_run_past_the_start() {
    let mut p = panel_with(3);
    p.scroll_up(99);
    assert_eq!(texts(&p, 3), vec!["line 0"]);
}

#[test]
fn end_jumps_to_the_tail_from_anywhere() {
    let mut p = panel_with(10);
    p.scroll_up(5);
    p.scroll_to_end();
    assert_eq!(texts(&p, 2), vec!["line 8", "line 9"]);
}

#[test]
fn scrollback_is_capped_and_drops_the_oldest_lines() {
    let p = panel_with(SCROLLBACK + 5);
    assert_eq!(p.lines.len(), SCROLLBACK);
    assert_eq!(p.lines.front().unwrap().text, "line 5");
}

#[test]
fn dropping_an_old_line_keeps_a_scrolled_reader_on_the_same_text() {
    let mut p = panel_with(SCROLLBACK);
    p.scroll_up(10);
    let before = texts(&p, 1);
    p.push(LineKind::Stdout, "overflow".to_string());
    assert_eq!(texts(&p, 1), before);
}

#[test]
fn status_drives_both_the_colour_and_the_mark() {
    assert_eq!(status_style(Status::Done, '⠋'), (Color::Green, " ✓ ".into()));
    assert_eq!(
        status_style(Status::Failed, '⠋'),
        (Color::Red, " ✗ ".into())
    );
    assert_eq!(
        status_style(Status::Running, '⠹'),
        (Color::Yellow, " ⠹ ".into())
    );
}

#[test]
fn the_panel_sits_in_the_bottom_right_inset_by_one() {
    let area = Rect {
        x: 0,
        y: 0,
        width: 100,
        height: 40,
    };
    let r = panel_rect(area, 50);
    assert_eq!(r.width, 60, "clamped to the maximum width");
    assert_eq!(r.height, 12, "clamped to the maximum height");
    assert_eq!(r.x + r.width, 99, "one cell of right margin");
    assert_eq!(r.y + r.height, 39, "one cell of bottom margin");
}

#[test]
fn the_panel_shrinks_to_its_content_and_stays_anchored() {
    let area = Rect {
        x: 0,
        y: 0,
        width: 100,
        height: 40,
    };
    // One line of output should not draw a mostly-empty twelve-row box.
    let one = panel_rect(area, 1);
    assert_eq!(one.height, 3, "one line plus two borders");
    assert_eq!(one.y + one.height, 39, "still hugs the bottom");
    // An empty panel still needs a border and a row to draw into.
    assert_eq!(panel_rect(area, 0).height, 3);
    assert!(panel_rect(area, 4).height < panel_rect(area, 8).height);
}

#[test]
fn a_tiny_area_yields_a_rect_that_still_fits_inside_it() {
    // A panel wider than its frame would panic inside ratatui rather than
    // clipping, so the clamp has to hold at every size.
    for (w, h) in [(10u16, 4u16), (1, 1), (24, 6), (0, 0), (100, 2)] {
        let area = Rect {
            x: 2,
            y: 3,
            width: w,
            height: h,
        };
        let r = panel_rect(area, 40);
        assert!(r.width <= area.width, "{w}x{h} width {}", r.width);
        assert!(r.height <= area.height, "{w}x{h} height {}", r.height);
        assert!(
            r.x + r.width <= area.x + area.width,
            "{w}x{h} overflows right"
        );
        assert!(
            r.y + r.height <= area.y + area.height,
            "{w}x{h} overflows bottom"
        );
    }
}

#[test]
fn a_finished_job_appends_its_result_lines_and_flips_the_status() {
    let mut p = panel_with(1);
    p.finish_ok(vec!["Pushed roll/1".to_string()]);
    assert_eq!(p.status(), Status::Done);
    assert!(!p.is_running());
    assert_eq!(p.lines.back().unwrap().text, "Pushed roll/1");
    assert_eq!(p.lines.back().unwrap().kind, LineKind::Result);
}

#[test]
fn error_lines_flatten_the_whole_anyhow_chain() {
    let err = Failure::msg("root cause".to_string())
        .context("middle".to_string())
        .context("top".to_string());
    let lines = error_lines(&err);
    assert_eq!(lines[0], "Error: top");
    assert_eq!(lines[1], "  caused by: middle");
    assert_eq!(lines[2], "  caused by: root cause");
}
