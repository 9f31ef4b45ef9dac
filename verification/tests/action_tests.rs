use magic_pocket::actions::clipboard_content_for;
use magic_pocket::actions::get_toggle_shortcut;
use magic_pocket::actions::window_toggle_action;
use magic_pocket::actions::ClipboardContent;
use magic_pocket::actions::WindowAction;
use magic_pocket::record::ClipboardKind;
use magic_pocket::record::ClipboardRecord;
use magic_pocket::record::Timestamp;

fn record(kind: ClipboardKind) -> ClipboardRecord {
    ClipboardRecord {
        id: "r1".to_string(),
        kind,
        content: String::new(),
        searchable_text: String::new(),
        created_at: Timestamp { secs: 0, nanos: 0 },
        favorite: false,
        tags: Vec::new(),
        text: None,
        image_path: None,
        image_width: None,
        image_height: None,
        file_paths: Vec::new(),
    }
}

#[test]
fn toggle_shortcut_is_ctrl_shift_space() {
    assert_eq!(get_toggle_shortcut(), "Ctrl+Shift+Space");
}

#[test]
fn focused_visible_window_is_hidden() {
    assert_eq!(window_toggle_action(true, false, true), WindowAction::Hide);
}

#[test]
fn other_windows_are_shown() {
    assert_eq!(window_toggle_action(true, false, false), WindowAction::Show { unminimize: false });
    assert_eq!(window_toggle_action(false, false, true), WindowAction::Show { unminimize: false });
    assert_eq!(window_toggle_action(true, true, true), WindowAction::Show { unminimize: true });
    assert_eq!(window_toggle_action(false, true, false), WindowAction::Show { unminimize: true });
}

#[test]
fn text_record_copies_its_text() {
    let mut r = record(ClipboardKind::Text);
    r.text = Some("hello".to_string());
    match clipboard_content_for(&r) {
        Ok(ClipboardContent::Text(t)) => assert_eq!(t, "hello"),
        other => panic!("unexpected content {:?}", other),
    }
    let empty = record(ClipboardKind::Text);
    match clipboard_content_for(&empty) {
        Ok(ClipboardContent::Text(t)) => assert_eq!(t, ""),
        other => panic!("unexpected content {:?}", other),
    }
}

#[test]
fn image_record_copies_its_file_or_fails() {
    let mut r = record(ClipboardKind::Image);
    r.image_path = Some("/tmp/x.png".to_string());
    match clipboard_content_for(&r) {
        Ok(ClipboardContent::Image(p)) => assert_eq!(p, "/tmp/x.png"),
        other => panic!("unexpected content {:?}", other),
    }
    let missing = record(ClipboardKind::Image);
    match clipboard_content_for(&missing) {
        Err(e) => assert_eq!(e, "image asset not found"),
        other => panic!("unexpected content {:?}", other),
    }
}

#[test]
fn files_record_copies_its_paths() {
    let mut r = record(ClipboardKind::Files);
    r.file_paths = vec!["/a".to_string(), "/b".to_string()];
    match clipboard_content_for(&r) {
        Ok(ClipboardContent::Files(f)) => assert_eq!(f, vec!["/a".to_string(), "/b".to_string()]),
        other => panic!("unexpected content {:?}", other),
    }
}
