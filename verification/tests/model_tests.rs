use gguf_cleaner::model::{App, Command, FileInfo, KeyAction, ScanMessage};

fn app_with(sizes: &[u64]) -> App {
    let mut app = App::new();
    for (k, s) in sizes.iter().enumerate() {
        app.record(ScanMessage::File(FileInfo { path: format!("/tmp/f{}.gguf", k), size: *s }));
    }
    app
}

#[test]
fn record_keeps_sequences_parallel() {
    let mut app = App::new();
    assert_eq!(app.files.len(), app.selected.len());
    let msgs = vec![
        ScanMessage::Directory(String::from("/a")),
        ScanMessage::File(FileInfo { path: String::from("/a/x.gguf"), size: 7 }),
        ScanMessage::Error(String::from("permission denied")),
        ScanMessage::File(FileInfo { path: String::from("/a/y.gguf"), size: 9 }),
        ScanMessage::Done,
    ];
    for m in msgs {
        app.record(m);
        assert_eq!(app.files.len(), app.selected.len());
    }
    assert_eq!(app.files.len(), 2);
}

#[test]
fn record_updates_counters_and_cursor() {
    let mut app = App::new();
    assert_eq!(app.cursor, None);
    assert!(app.scanning);
    app.record(ScanMessage::Directory(String::from("/models")));
    assert_eq!(app.dirs_scanned, 1);
    assert_eq!(app.current_path, "/models");
    app.record(ScanMessage::File(FileInfo { path: String::from("/models/a.gguf"), size: 10 }));
    assert_eq!(app.files_found, 1);
    assert_eq!(app.cursor, Some(0));
    app.record(ScanMessage::File(FileInfo { path: String::from("/models/b.gguf"), size: 20 }));
    assert_eq!(app.files_found, 2);
    assert_eq!(app.cursor, Some(0));
    app.record(ScanMessage::Done);
    assert!(!app.scanning);
}

#[test]
fn scan_error_does_not_stop_consumption() {
    let mut app = App::new();
    app.record(ScanMessage::File(FileInfo { path: String::from("/a/x.gguf"), size: 1 }));
    app.record(ScanMessage::Error(String::from("unreadable subtree: /a/locked")));
    app.record(ScanMessage::File(FileInfo { path: String::from("/b/y.gguf"), size: 2 }));
    app.record(ScanMessage::Done);
    assert_eq!(app.files.len(), 2);
    assert!(!app.scanning);
    assert_eq!(app.files[0].path, "/a/x.gguf");
    assert_eq!(app.files[1].path, "/b/y.gguf");
}

#[test]
fn toggle_flips_flag_under_cursor() {
    let mut app = app_with(&[5, 6]);
    assert_eq!(app.selected, vec![false, false]);
    app.toggle_selected();
    assert_eq!(app.selected, vec![true, false]);
    app.toggle_selected();
    assert_eq!(app.selected, vec![false, false]);
}

#[test]
fn toggle_on_empty_model_is_noop() {
    let mut app = App::new();
    app.toggle_selected();
    assert_eq!(app.files.len(), 0);
    assert_eq!(app.selected.len(), 0);
    assert_eq!(app.cursor, None);
}

#[test]
fn select_all_then_deselect_all_clears_everything() {
    let mut app = app_with(&[100, 200, 400]);
    app.toggle_selected();
    app.select_all();
    assert_eq!(app.selected, vec![true, true, true]);
    assert_eq!(app.get_selected_size(), 700);
    app.deselect_all();
    assert_eq!(app.selected, vec![false, false, false]);
    assert_eq!(app.get_selected_size(), 0);
}

#[test]
fn cursor_wraps_forward_and_backward() {
    let mut app = app_with(&[1, 2, 3]);
    assert_eq!(app.cursor, Some(0));
    app.previous();
    assert_eq!(app.cursor, Some(2));
    app.next();
    assert_eq!(app.cursor, Some(0));
    app.next();
    app.next();
    assert_eq!(app.cursor, Some(2));
    app.next();
    assert_eq!(app.cursor, Some(0));
}

#[test]
fn cursor_moves_on_empty_model_are_noops() {
    let mut app = App::new();
    app.next();
    assert_eq!(app.cursor, None);
    app.previous();
    assert_eq!(app.cursor, None);
}

#[test]
fn selected_byte_total_of_first_and_third() {
    let mut app = app_with(&[100, 200, 400]);
    app.toggle_selected();
    app.next();
    app.next();
    app.toggle_selected();
    assert_eq!(app.selected, vec![true, false, true]);
    assert_eq!(app.get_selected_size(), 500);
}

#[test]
fn selected_byte_total_handles_huge_sizes() {
    let mut app = App::new();
    assert_eq!(app.get_selected_size(), 0);
    app.record(ScanMessage::File(FileInfo { path: String::from("/big/a.gguf"), size: u64::MAX }));
    app.record(ScanMessage::File(FileInfo { path: String::from("/big/b.gguf"), size: u64::MAX }));
    app.select_all();
    assert_eq!(app.get_selected_size(), 2 * (u64::MAX as u128));
}

#[test]
fn delete_selected_removes_only_selected() {
    let mut app = app_with(&[100, 200, 400]);
    app.toggle_selected();
    app.next();
    app.next();
    app.toggle_selected();
    let removed = std::cell::RefCell::new(Vec::new());
    let r = app.delete_selected(|p: String| {
        removed.borrow_mut().push(p);
        Ok(())
    });
    assert!(r.is_ok());
    assert_eq!(*removed.borrow(), vec!["/tmp/f0.gguf", "/tmp/f2.gguf"]);
    assert_eq!(app.files.len(), 1);
    assert_eq!(app.files[0].path, "/tmp/f1.gguf");
    assert_eq!(app.selected, vec![false]);
    assert_eq!(app.cursor, Some(0));
}

#[test]
fn delete_everything_empties_model_and_cursor() {
    let mut app = app_with(&[1, 2]);
    app.select_all();
    let r = app.delete_selected(|_p: String| Ok(()));
    assert!(r.is_ok());
    assert_eq!(app.files.len(), 0);
    assert_eq!(app.selected.len(), 0);
    assert_eq!(app.cursor, None);
}

#[test]
fn delete_with_nothing_selected_calls_nothing() {
    let mut app = app_with(&[1, 2]);
    let calls = std::cell::Cell::new(0u32);
    let r = app.delete_selected(|_p: String| {
        calls.set(calls.get() + 1);
        Ok(())
    });
    assert!(r.is_ok());
    assert_eq!(calls.get(), 0);
    assert_eq!(app.files.len(), 2);
}

#[test]
fn delete_failure_halts_batch_and_keeps_rest() {
    let mut app = app_with(&[10, 20, 30, 40]);
    app.select_all();
    let r = app.delete_selected(|p: String| {
        if p == "/tmp/f1.gguf" {
            Err(String::from("not found"))
        } else {
            Ok(())
        }
    });
    assert_eq!(r, Err(String::from("not found")));
    // The first file is gone; the failing one and everything after stay.
    assert_eq!(app.files.len(), 3);
    assert_eq!(app.files[0].path, "/tmp/f1.gguf");
    assert_eq!(app.files[1].path, "/tmp/f2.gguf");
    assert_eq!(app.files[2].path, "/tmp/f3.gguf");
    assert_eq!(app.selected, vec![true, true, true]);
    assert_eq!(app.cursor, Some(0));
}

#[test]
fn delete_failure_clamps_cursor() {
    let mut app = app_with(&[10, 20, 30]);
    app.next();
    app.next();
    assert_eq!(app.cursor, Some(2));
    app.select_all();
    let r = app.delete_selected(|p: String| {
        if p == "/tmp/f2.gguf" {
            Err(String::from("permission denied"))
        } else {
            Ok(())
        }
    });
    assert_eq!(r, Err(String::from("permission denied")));
    assert_eq!(app.files.len(), 1);
    assert_eq!(app.cursor, Some(0));
}

#[test]
fn handle_key_dispatches_commands() {
    let mut app = app_with(&[1, 2]);
    assert_eq!(app.handle_key(Command::MoveDown), KeyAction::Handled);
    assert_eq!(app.cursor, Some(1));
    assert_eq!(app.handle_key(Command::MoveUp), KeyAction::Handled);
    assert_eq!(app.cursor, Some(0));
    assert_eq!(app.handle_key(Command::ToggleSelect), KeyAction::Handled);
    assert_eq!(app.selected, vec![true, false]);
    assert_eq!(app.handle_key(Command::SelectAll), KeyAction::Handled);
    assert_eq!(app.selected, vec![true, true]);
    assert_eq!(app.handle_key(Command::DeselectAll), KeyAction::Handled);
    assert_eq!(app.selected, vec![false, false]);
    assert_eq!(app.handle_key(Command::Other), KeyAction::Handled);
    assert_eq!(app.handle_key(Command::DeleteSelected), KeyAction::RequestDelete);
    assert_eq!(app.handle_key(Command::Quit), KeyAction::RequestQuit);
    assert_eq!(app.files.len(), 2);
}
