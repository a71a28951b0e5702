use backup_brogue::engine::{letter, Action, ActionKind, App, DeleteState, Key};
use backup_brogue::save::{has_prefix, has_suffix, is_brogue_save, Entry, Save, SaveFile, State};
use backup_brogue::scan::get_state;
use std::path::PathBuf;

fn file(name: &str, modified: u64) -> Entry {
    Entry { name: name.to_string(), modified, is_dir: false }
}

fn dir(name: &str) -> Entry {
    Entry { name: name.to_string(), modified: 0, is_dir: true }
}

fn app_with(save_files: &Vec<Entry>, backup_files: &Vec<Entry>) -> App {
    let mut app = App::new(PathBuf::from("saves"), PathBuf::from("backup"));
    app.update_state(save_files, backup_files);
    app
}

fn describe(actions: &[Action]) -> Vec<(ActionKind, String)> {
    actions.iter().map(|a| (a.kind, a.name.clone())).collect()
}

fn names(state: &State) -> Vec<String> {
    state.saves.iter().map(|s| s.key()).collect()
}

#[test]
fn prefix_and_suffix() {
    assert!(has_prefix("Saved #1", "Saved"));
    assert!(has_prefix("Saved", "Saved"));
    assert!(!has_prefix("Save", "Saved"));
    assert!(!has_prefix("saved #1", "Saved"));
    assert!(has_prefix("anything", ""));
    assert!(has_suffix("a.broguesave", ".broguesave"));
    assert!(!has_suffix("a.broguesave.bak", ".broguesave"));
    assert!(!has_suffix("broguesave", ".broguesave"));
}

#[test]
fn save_file_filter() {
    assert!(is_brogue_save("Saved #1.broguesave", false));
    assert!(is_brogue_save("Saved #272472511 at depth 1 (easy).broguesave", false));
    assert!(!is_brogue_save("Saved #1.broguesave", true));
    assert!(!is_brogue_save("notes.txt", false));
    assert!(!is_brogue_save("Saved #1.txt", false));
    assert!(!is_brogue_save("Recording #1.broguesave", false));
    assert!(!is_brogue_save("Savedbroguesave", false));
}

#[test]
fn scan_keeps_only_save_files() {
    let origin = vec![file("Saved #1.broguesave", 5), file("notes.txt", 6), dir("Saved #2.broguesave")];
    let state = get_state(&origin, &vec![]);
    assert_eq!(names(&state), vec!["Saved #1.broguesave".to_string()]);
    assert!(matches!(state.saves[0], Save::OriginalFileOnly(_)));
}

#[test]
fn scan_classifies_each_name_once() {
    let origin = vec![file("Saved o.broguesave", 1), file("Saved c.broguesave", 2)];
    let backup = vec![file("Saved b.broguesave", 3), file("Saved c.broguesave", 4)];
    let state = get_state(&origin, &backup);
    assert_eq!(state.saves.len(), 3);
    for s in &state.saves {
        match s {
            Save::OriginalFileOnly(f) => assert_eq!(f.name, "Saved o.broguesave"),
            Save::BackupFileOnly(f) => assert_eq!(f.name, "Saved b.broguesave"),
            Save::Both(o, b) => {
                assert_eq!(o.name, "Saved c.broguesave");
                assert_eq!(b.name, "Saved c.broguesave");
                assert_eq!(o.modified, 2);
                assert_eq!(b.modified, 4);
            }
        }
    }
}

#[test]
fn scan_takes_the_first_entry_of_a_repeated_name() {
    let origin = vec![file("Saved a.broguesave", 1), file("Saved a.broguesave", 9)];
    let backup = vec![file("Saved a.broguesave", 4), file("Saved a.broguesave", 7)];
    let state = get_state(&origin, &backup);
    assert_eq!(state.saves.len(), 1);
    match &state.saves[0] {
        Save::Both(o, b) => {
            assert_eq!(o.modified, 1);
            assert_eq!(b.modified, 4);
        }
        _ => panic!("expected a record in both directories"),
    }
    assert_eq!(state.saves[0].sort_by(), 4);
}

#[test]
fn scan_of_empty_directories_is_empty() {
    let state = get_state(&vec![], &vec![]);
    assert!(state.saves.is_empty());
}

#[test]
fn scan_orders_by_recency() {
    let origin = vec![file("Saved late.broguesave", 30), file("Saved pair.broguesave", 10)];
    let backup = vec![file("Saved pair.broguesave", 20), file("Saved early.broguesave", 5)];
    let state = get_state(&origin, &backup);
    assert_eq!(
        names(&state),
        vec![
            "Saved early.broguesave".to_string(),
            "Saved pair.broguesave".to_string(),
            "Saved late.broguesave".to_string()
        ]
    );
    assert_eq!(state.saves[1].sort_by(), 20);
    let later_pair = get_state(&vec![file("Saved pair.broguesave", 40), file("Saved x.broguesave", 35)],
        &vec![file("Saved pair.broguesave", 1)]);
    assert_eq!(names(&later_pair), vec!["Saved x.broguesave".to_string(), "Saved pair.broguesave".to_string()]);
    assert_eq!(later_pair.saves[1].sort_by(), 40);
}

#[test]
fn sync_copies_missing_sides() {
    let origin = vec![file("Saved o.broguesave", 1), file("Saved c.broguesave", 2)];
    let backup = vec![file("Saved b.broguesave", 3), file("Saved c.broguesave", 4)];
    let mut app = app_with(&origin, &backup);
    let actions = app.on_tick();
    assert_eq!(
        describe(&actions),
        vec![
            (ActionKind::CopyToBackup, "Saved o.broguesave".to_string()),
            (ActionKind::CopyToSave, "Saved b.broguesave".to_string()),
        ]
    );
    assert_eq!(app.delete_state, DeleteState::NotDeleting);
}

#[test]
fn sync_converges_and_is_idempotent() {
    let origin = vec![file("Saved o1.broguesave", 1), file("Saved o2.broguesave", 2)];
    let backup = vec![file("Saved b1.broguesave", 3)];
    let mut app = app_with(&origin, &backup);
    let first = app.on_tick();
    assert_eq!(first.len(), 3);
    let both = vec![
        file("Saved o1.broguesave", 1),
        file("Saved o2.broguesave", 2),
        file("Saved b1.broguesave", 3),
    ];
    app.update_state(&both, &both);
    assert_eq!(app.state.saves.len(), 3);
    assert!(app.state.saves.iter().all(|s| matches!(s, Save::Both(_, _))));
    assert!(app.on_tick().is_empty());
    assert!(app.on_tick().is_empty());
}

#[test]
fn synced_records_are_never_copied() {
    let listing = vec![file("Saved c.broguesave", 2)];
    let mut app = app_with(&listing, &vec![file("Saved c.broguesave", 99)]);
    assert!(app.on_tick().is_empty());
}

#[test]
fn delete_synced_removes_backup_then_save() {
    let listing = vec![file("Saved c.broguesave", 2)];
    let mut app = app_with(&listing, &listing);
    app.delete_state = DeleteState::Delete(0);
    let actions = app.on_tick();
    assert_eq!(
        describe(&actions),
        vec![
            (ActionKind::RemoveFromBackup, "Saved c.broguesave".to_string()),
            (ActionKind::RemoveFromSave, "Saved c.broguesave".to_string()),
        ]
    );
    assert_eq!(app.delete_state, DeleteState::NotDeleting);
    app.update_state(&vec![], &vec![]);
    assert!(app.state.saves.is_empty());
}

#[test]
fn delete_one_sided_removes_only_that_file() {
    let mut app = app_with(&vec![file("Saved o.broguesave", 1)], &vec![file("Saved b.broguesave", 2)]);
    app.delete_state = DeleteState::Delete(0);
    assert_eq!(describe(&app.on_tick()), vec![(ActionKind::RemoveFromSave, "Saved o.broguesave".to_string())]);
    app.delete_state = DeleteState::Delete(1);
    assert_eq!(describe(&app.on_tick()), vec![(ActionKind::RemoveFromBackup, "Saved b.broguesave".to_string())]);
    app.delete_state = DeleteState::Delete(1);
    assert_eq!(describe(&app.on_tick()), vec![(ActionKind::RemoveFromBackup, "Saved b.broguesave".to_string())]);
    assert_eq!(app.delete_state, DeleteState::NotDeleting);
}

#[test]
fn delete_out_of_range_waits() {
    let mut app = app_with(&vec![file("Saved o.broguesave", 1)], &vec![]);
    app.delete_state = DeleteState::Delete(5);
    assert!(app.on_tick().is_empty());
    assert_eq!(app.delete_state, DeleteState::Delete(5));
}

#[test]
fn awaiting_index_still_syncs() {
    let mut app = app_with(&vec![file("Saved o.broguesave", 1)], &vec![]);
    app.delete_state = DeleteState::AwaitingIndex;
    assert_eq!(describe(&app.on_tick()), vec![(ActionKind::CopyToBackup, "Saved o.broguesave".to_string())]);
    assert_eq!(app.delete_state, DeleteState::AwaitingIndex);
}

#[test]
fn keys_drive_the_delete_selection() {
    let mut app = App::new(PathBuf::from("saves"), PathBuf::from("backup"));
    assert!(!app.on_key(Key::Char('c')));
    assert_eq!(app.delete_state, DeleteState::NotDeleting);
    assert!(!app.on_key(Key::Char('d')));
    assert_eq!(app.delete_state, DeleteState::AwaitingIndex);
    assert!(!app.on_key(Key::Char('C')));
    assert_eq!(app.delete_state, DeleteState::AwaitingIndex);
    assert!(!app.on_key(Key::Char('c')));
    assert_eq!(app.delete_state, DeleteState::Delete(2));
    assert!(!app.on_key(Key::Esc));
    assert_eq!(app.delete_state, DeleteState::NotDeleting);
    assert!(!app.on_key(Key::Other));
    assert!(app.on_key(Key::Char('q')));
}

#[test]
fn letters_name_positions() {
    assert_eq!(letter(0), 'a');
    assert_eq!(letter(2), 'c');
    assert_eq!(letter(25), 'z');
}

#[test]
fn labels_show_code_arrows_and_name() {
    let f = |n: &str, m: u64| SaveFile { name: n.to_string(), modified: m };
    assert_eq!(Save::OriginalFileOnly(f("Saved a.broguesave", 1)).label(), "SAVE S<-xB Saved a.broguesave");
    assert_eq!(Save::BackupFileOnly(f("Saved b.broguesave", 1)).label(), "BACK Sx->B Saved b.broguesave");
    assert_eq!(
        Save::Both(f("Saved c.broguesave", 1), f("Saved c.broguesave", 2)).label(),
        "SYNC S<->B Saved c.broguesave"
    );
    assert_eq!(Save::Both(f("Saved c.broguesave", 7), f("Saved c.broguesave", 2)).sort_by(), 7);
}

#[test]
fn new_app_starts_empty() {
    let app = App::new(PathBuf::from("saves"), PathBuf::from("backup"));
    assert_eq!(app.save_dir, PathBuf::from("saves"));
    assert_eq!(app.backup_dir, PathBuf::from("backup"));
    assert!(app.state.saves.is_empty());
    assert_eq!(app.delete_state, DeleteState::NotDeleting);
}
