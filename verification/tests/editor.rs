use icmc_gui::editor::{jump_target, line_end_byte_offset, line_start_byte_offset, Editor};
use icmc_gui::goto_line::GotoLine;
use icmc_gui::gutter::Gutter;

#[test]
fn line_offsets() {
    let t = "ab\ncd\nef";
    assert_eq!(line_start_byte_offset(t, 0), 0);
    assert_eq!(line_start_byte_offset(t, 1), 0);
    assert_eq!(line_end_byte_offset(t, 1), 2);
    assert_eq!(line_start_byte_offset(t, 2), 3);
    assert_eq!(line_end_byte_offset(t, 2), 5);
    assert_eq!(line_start_byte_offset(t, 3), 6);
    assert_eq!(line_end_byte_offset(t, 3), 8);
    assert_eq!(line_start_byte_offset(t, 4), 8);
    assert_eq!(line_end_byte_offset(t, 4), 8);
    assert_eq!(line_end_byte_offset("é\nü", 2), 5);
    assert_eq!(line_start_byte_offset("", 3), 0);
}

#[test]
fn jump_target_prefers_goto_line() {
    assert_eq!(jump_target("ab\ncd", Some(2), Some(0..1)), Some(5..5));
    assert_eq!(jump_target("ab\ncd", None, Some(0..1)), Some(0..1));
    assert_eq!(jump_target("ab\ncd", None, None), None);
}

#[test]
fn goto_line_submit() {
    let mut g = GotoLine::default();
    g.activate();
    assert!(g.open);
    assert!(g.take_focus_request());
    g.input = " 12 ".to_string();
    assert_eq!(g.submit(), Some(12));
    assert!(!g.open);
    assert_eq!(g.input, "");
    g.activate();
    g.input = "0".to_string();
    assert_eq!(g.submit(), Some(1));
    g.activate();
    g.input = "+5".to_string();
    assert_eq!(g.submit(), Some(5));
    g.activate();
    g.input = "abc".to_string();
    assert_eq!(g.submit(), None);
    assert!(g.open);
    assert_eq!(g.input, "abc");
    g.input = "-3".to_string();
    assert_eq!(g.submit(), None);
}

#[test]
fn gutter_numbers_lines() {
    let mut g = Gutter::default();
    g.update("");
    assert_eq!(g.line_count(), 1);
    assert_eq!(g.text(), "1");
    g.update("a\nb\n");
    assert_eq!(g.line_count(), 3);
    assert_eq!(g.text(), "1\n2\n3");
    g.update("\n\n\n\n\n\n\n\n\n");
    assert_eq!(g.line_count(), 10);
    assert_eq!(g.text(), " 1\n 2\n 3\n 4\n 5\n 6\n 7\n 8\n 9\n10");
    g.update("x\r\ny");
    assert_eq!(g.line_count(), 2);
    assert_eq!(g.text(), "1\n2");
}

#[test]
fn editor_overlays_exclude_each_other() {
    let mut e = Editor::default();
    e.open_find();
    assert!(e.find.open && !e.goto.open);
    e.activate_goto();
    assert!(e.goto.open && !e.find.open);
    e.open_replace();
    assert!(e.find.open && e.find.replace_open && !e.goto.open);
    assert!(e.overlay_open());
    e.close_overlays();
    assert!(!e.overlay_open());
}

#[test]
fn overlays_keep_find_settings() {
    let mut e = Editor::default();
    e.open_replace();
    e.find.query = "ab".to_string();
    e.find.replacement = "cd".to_string();
    e.find.case_sensitive = true;
    e.find.whole_word = true;
    e.activate_goto();
    e.open_find();
    e.close_overlays();
    assert_eq!(e.find.query, "ab");
    assert_eq!(e.find.replacement, "cd");
    assert!(e.find.case_sensitive && e.find.whole_word);
    assert_eq!(e.find.current(), 0);
}
