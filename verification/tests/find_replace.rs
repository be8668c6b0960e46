use icmc_gui::find_replace::{FindActions, FindReplace};

fn none() -> FindActions {
    FindActions { go_next: false, go_prev: false, replace_one: false, replace_all: false }
}

#[test]
fn matches_follow_the_query_and_options() {
    let mut f = FindReplace::default();
    f.query = "ab".to_string();
    assert_eq!(f.matches("ab AB ab"), vec![0..2, 3..5, 6..8]);
    f.case_sensitive = true;
    assert_eq!(f.matches("ab AB ab"), vec![0..2, 6..8]);
    assert_eq!(f.matches("xx ab"), vec![3..5]);
}

#[test]
fn open_and_close() {
    let mut f = FindReplace::default();
    f.open_replace();
    assert!(f.open && f.replace_open);
    assert!(f.take_focus_request());
    assert!(!f.take_focus_request());
    f.close();
    assert!(!f.open && !f.replace_open);
    f.open_find();
    assert!(f.open && !f.replace_open);
}

#[test]
fn closed_bar_starts_no_frame() {
    let mut f = FindReplace::default();
    assert!(f.begin_frame("abc").is_none());
}

#[test]
fn next_and_previous_cycle() {
    let mut f = FindReplace::default();
    f.open_find();
    f.query = "a".to_string();
    let mut code = "a b a b a".to_string();
    // first frame: just opened, selects the current (first) match
    let fr = f.begin_frame(&code).unwrap();
    assert_eq!(fr.matches(), &[0..1, 4..5, 8..9]);
    assert_eq!(f.finish_frame(&mut code, fr, none()), Some(0..1));
    f.take_focus_request();
    let fr = f.begin_frame(&code).unwrap();
    let next = FindActions { go_next: true, ..none() };
    assert_eq!(f.finish_frame(&mut code, fr, next), Some(4..5));
    assert_eq!(f.current(), 1);
    let fr = f.begin_frame(&code).unwrap();
    let prev = FindActions { go_prev: true, ..none() };
    assert_eq!(f.finish_frame(&mut code, fr, prev), Some(0..1));
    let fr = f.begin_frame(&code).unwrap();
    let prev = FindActions { go_prev: true, ..none() };
    assert_eq!(f.finish_frame(&mut code, fr, prev), Some(8..9));
    assert_eq!(f.current(), 2);
    // nothing pressed, query unchanged: no selection
    let fr = f.begin_frame(&code).unwrap();
    assert_eq!(f.finish_frame(&mut code, fr, none()), None);
    assert_eq!(code, "a b a b a");
}

#[test]
fn replace_all_replaces_every_match() {
    let mut f = FindReplace::default();
    f.open_replace();
    f.query = "a".to_string();
    f.replacement = "xy".to_string();
    let mut code = "a b a".to_string();
    let fr = f.begin_frame(&code).unwrap();
    let all = FindActions { replace_all: true, ..none() };
    assert_eq!(f.finish_frame(&mut code, fr, all), None);
    assert_eq!(code, "xy b xy");
    assert_eq!(f.current(), 0);
}

#[test]
fn replace_one_replaces_current_and_selects_next() {
    let mut f = FindReplace::default();
    f.open_replace();
    f.query = "é".to_string();
    f.replacement = "e".to_string();
    let mut code = "é-é-é".to_string();
    let fr = f.begin_frame(&code).unwrap();
    f.finish_frame(&mut code, fr, none());
    let fr = f.begin_frame(&code).unwrap();
    let next = FindActions { go_next: true, ..none() };
    assert_eq!(f.finish_frame(&mut code, fr, next), Some(3..5));
    let fr = f.begin_frame(&code).unwrap();
    let one = FindActions { replace_one: true, ..none() };
    // "é-e-é": the remaining matches are at bytes 0..2 and 5..7; current stays 1
    assert_eq!(f.finish_frame(&mut code, fr, one), Some(5..7));
    assert_eq!(code, "é-e-é");
    assert_eq!(f.current(), 1);
}

#[test]
fn replace_one_of_last_match_leaves_nothing_selected() {
    let mut f = FindReplace::default();
    f.open_replace();
    f.query = "x".to_string();
    f.replacement = "y".to_string();
    let mut code = "axb".to_string();
    let fr = f.begin_frame(&code).unwrap();
    let one = FindActions { replace_one: true, ..none() };
    assert_eq!(f.finish_frame(&mut code, fr, one), None);
    assert_eq!(code, "ayb");
    assert_eq!(f.current(), 0);
}

#[test]
fn changed_query_selects_current_match() {
    let mut f = FindReplace::default();
    f.open_find();
    f.take_focus_request();
    let mut code = "one two".to_string();
    f.query = "two".to_string();
    let fr = f.begin_frame(&code).unwrap();
    assert_eq!(f.finish_frame(&mut code, fr, none()), Some(4..7));
    let fr = f.begin_frame(&code).unwrap();
    assert_eq!(f.finish_frame(&mut code, fr, none()), None);
}
