use icmc_gui::file_explorer::{
    context_action, edit_outcome, file_icon, forget_deleted, plan_create, plan_rename,
    take_pending_delete, ContextAction, EditOutcome, Entry, FileExplorer, FileIcon, InlineEdit,
};

fn listing() -> Vec<(String, bool)> {
    vec![
        ("/r/b.txt".to_string(), false),
        ("/r/Zed".to_string(), true),
        ("/r/a.txt".to_string(), false),
        ("/r/alpha".to_string(), true),
        ("/r/B.txt".to_string(), false),
    ]
}

#[test]
fn entry_is_named_after_its_last_component() {
    let e = Entry::new("/tmp/x/foo.asm".to_string(), false);
    assert_eq!(e.name, "foo.asm");
    assert!(!e.expanded && e.children.is_empty());
    assert_eq!(Entry::new("/".to_string(), true).name, "");
}

#[test]
fn children_sort_directories_first_then_by_name() {
    let f = FileExplorer::new("/r".to_string(), true, listing());
    let names: Vec<&str> = f.root.children.iter().map(|c| c.name.as_str()).collect();
    // "b.txt" and "B.txt" compare equal ignoring case and keep listing order
    assert_eq!(names, vec!["alpha", "Zed", "a.txt", "b.txt", "B.txt"]);
    assert!(f.root.expanded);
    assert_eq!(f.workspace_path(), "/r");
}

#[test]
fn resync_keeps_expansion_of_known_children() {
    let mut f = FileExplorer::new("/r".to_string(), true, listing());
    f.root.children[0].expanded = true;
    f.root.children[0].children.push(Entry::new("/r/alpha/x".to_string(), false));
    let mut l = listing();
    l.push(("/r/c".to_string(), false));
    f.root.sync_children(l);
    assert_eq!(f.root.children[0].name, "alpha");
    assert!(f.root.children[0].expanded);
    assert_eq!(f.root.children[0].children.len(), 1);
    assert_eq!(f.root.children.len(), 6);
    assert!(!f.root.children[1].expanded);
}

#[test]
fn files_are_not_listed() {
    let mut e = Entry::new("/r/a.txt".to_string(), false);
    e.sync_children(listing());
    assert!(e.children.is_empty());
}

#[test]
fn set_workspace_resets_edits() {
    let mut f = FileExplorer::new("/r".to_string(), true, listing());
    f.pending_delete = Some("/r/a.txt".to_string());
    f.inline_edit = InlineEdit::Creating {
        parent: "/r".to_string(),
        is_dir: false,
        buffer: String::new(),
        focus_requested: false,
    };
    f.set_workspace("/s".to_string(), true, vec![]);
    assert_eq!(f.workspace_path(), "/s");
    assert!(f.root.children.is_empty());
    assert!(f.pending_delete.is_none());
    assert!(matches!(f.inline_edit, InlineEdit::Inactive));
}

#[test]
fn remove_child_drops_the_deleted_path() {
    let mut f = FileExplorer::new("/r".to_string(), true, listing());
    f.root.remove_child("/r/a.txt");
    assert_eq!(f.root.children.len(), 4);
    assert!(f.root.children.iter().all(|c| c.path != "/r/a.txt"));
}

#[test]
fn remove_child_compares_paths_by_component() {
    let mut f = FileExplorer::new("/r".to_string(), true, listing());
    f.root.remove_child("/r//a.txt");
    assert_eq!(f.root.children.len(), 4);
}

#[test]
fn code_files_get_the_code_icon() {
    assert_eq!(file_icon("/r/main.asm"), FileIcon::Code);
    assert_eq!(file_icon("/r/lib.rs"), FileIcon::Code);
    assert_eq!(file_icon("/r/notes.md"), FileIcon::Code);
    assert_eq!(file_icon("/r/photo.png"), FileIcon::Document);
    assert_eq!(file_icon("/r/Makefile"), FileIcon::Document);
    assert_eq!(file_icon("/r/.asm"), FileIcon::Document);
}

#[test]
fn edit_outcomes() {
    assert_eq!(edit_outcome(false, true, true, false), EditOutcome::Commit);
    assert_eq!(edit_outcome(false, true, false, true), EditOutcome::Cancel);
    assert_eq!(edit_outcome(false, false, false, false), EditOutcome::Cancel);
    assert_eq!(edit_outcome(true, false, false, false), EditOutcome::Editing);
    assert_eq!(edit_outcome(false, true, false, false), EditOutcome::Editing);
    assert_eq!(edit_outcome(false, false, true, false), EditOutcome::Cancel);
}

#[test]
fn new_file_from_a_file_row_goes_beside_it() {
    let file = Entry::new("/r/a.txt".to_string(), false);
    let mut edit = InlineEdit::Inactive;
    let mut pending = None;
    context_action(&file, false, ContextAction::NewFile, &mut edit, &mut pending);
    match &edit {
        InlineEdit::Creating { parent, is_dir, buffer, focus_requested } => {
            assert_eq!(parent, "/r");
            assert!(!is_dir && buffer.is_empty() && !focus_requested);
        }
        _ => panic!("expected a creation"),
    }
    let dir = Entry::new("/r/sub".to_string(), true);
    context_action(&dir, false, ContextAction::NewFolder, &mut edit, &mut pending);
    match &edit {
        InlineEdit::Creating { parent, is_dir, .. } => {
            assert_eq!(parent, "/r/sub");
            assert!(*is_dir);
        }
        _ => panic!("expected a creation"),
    }
    assert!(pending.is_none());
}

#[test]
fn root_cannot_be_renamed_or_deleted() {
    let root = Entry::new("/r".to_string(), true);
    let mut edit = InlineEdit::Inactive;
    let mut pending = None;
    context_action(&root, true, ContextAction::Rename, &mut edit, &mut pending);
    context_action(&root, true, ContextAction::Delete, &mut edit, &mut pending);
    assert!(matches!(edit, InlineEdit::Inactive));
    assert!(pending.is_none());
    let file = Entry::new("/r/a.txt".to_string(), false);
    context_action(&file, false, ContextAction::Rename, &mut edit, &mut pending);
    assert!(edit.is_renaming("/r/a.txt"));
    assert!(!edit.is_renaming("/r/b.txt"));
    context_action(&file, false, ContextAction::Delete, &mut edit, &mut pending);
    assert_eq!(pending.as_deref(), Some("/r/a.txt"));
}

#[test]
fn focus_is_requested_once() {
    let mut edit = InlineEdit::Creating {
        parent: "/r".to_string(),
        is_dir: false,
        buffer: String::new(),
        focus_requested: false,
    };
    assert!(edit.take_focus_request());
    assert!(!edit.take_focus_request());
    assert!(edit.is_creating_in("/r"));
    assert!(!InlineEdit::Inactive.take_focus_request());
}

#[test]
fn rename_uses_the_trimmed_name() {
    let e = Entry::new("/r/a.txt".to_string(), false);
    let (p, n) = plan_rename(&e, "  b.asm ").unwrap();
    assert_eq!(p, "/r/b.asm");
    assert_eq!(n, "b.asm");
    assert!(plan_rename(&e, "a.txt").is_none());
    assert!(plan_rename(&e, "   ").is_none());
}

#[test]
fn renaming_the_open_file_moves_it() {
    let mut e = Entry::new("/r/a.txt".to_string(), false);
    let mut open = Some("/r/a.txt".to_string());
    assert!(e.is_open_file(&open));
    e.apply_rename("/r/b.txt".to_string(), "b.txt".to_string(), &mut open);
    assert_eq!(open.as_deref(), Some("/r/b.txt"));
    assert_eq!(e.name, "b.txt");
    let mut other = Some("/r/c.txt".to_string());
    e.apply_rename("/r/d.txt".to_string(), "d.txt".to_string(), &mut other);
    assert_eq!(other.as_deref(), Some("/r/c.txt"));
}

#[test]
fn create_joins_the_trimmed_name() {
    assert_eq!(plan_create("/r", " new.asm").as_deref(), Some("/r/new.asm"));
    assert!(plan_create("/r", "").is_none());
}

#[test]
fn pending_delete_is_taken_by_its_parent() {
    let f = FileExplorer::new("/r".to_string(), true, listing());
    let mut pending = Some("/r/a.txt".to_string());
    let sub = Entry::new("/r/alpha".to_string(), true);
    assert!(take_pending_delete(&mut pending, &sub).is_none());
    assert!(pending.is_some());
    assert_eq!(take_pending_delete(&mut pending, &f.root).as_deref(), Some("/r/a.txt"));
    assert!(pending.is_none());
    let mut open = Some("/r/a.txt".to_string());
    assert!(!forget_deleted(&mut open, "/r/b.txt"));
    assert!(forget_deleted(&mut open, "/r/a.txt"));
    assert!(open.is_none());
}

#[test]
fn toggling_a_directory() {
    let mut e = Entry::new("/r/sub".to_string(), true);
    assert!(e.toggle_expanded());
    assert!(!e.toggle_expanded());
    assert!(!e.is_open_file(&Some("/r/sub".to_string())));
}

#[test]
fn imports_land_in_the_root() {
    let f = FileExplorer::new("/r".to_string(), true, vec![]);
    assert_eq!(f.import_destination("/home/u/prog.asm"), "/r/prog.asm");
}

#[test]
fn extension_is_after_the_last_dot() {
    assert_eq!(file_icon("/r/archive.tar.md"), FileIcon::Code);
    assert_eq!(file_icon("/r/notes."), FileIcon::Document);
    assert_eq!(file_icon("/r/.hidden.rs"), FileIcon::Code);
    assert_eq!(file_icon("/r/dir.asm/"), FileIcon::Code);
}
