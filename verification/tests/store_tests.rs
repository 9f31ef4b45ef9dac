use magic_pocket::capture::capture_from_files;
use magic_pocket::capture::capture_from_text;
use magic_pocket::capture::image_capture;
use magic_pocket::capture::ClipboardCapture;
use magic_pocket::digest::hash_bytes;
use magic_pocket::record::ClipboardKind;
use magic_pocket::record::ClipboardRecord;
use magic_pocket::record::Timestamp;
use magic_pocket::store::image_to_read;
use magic_pocket::store::signature_for_record;
use magic_pocket::store::ClipboardStore;
use magic_pocket::store::PersistedClipboardState;

fn text_record(id: &str, text: &str) -> ClipboardRecord {
    ClipboardRecord {
        id: id.to_string(),
        kind: ClipboardKind::Text,
        content: text.to_string(),
        searchable_text: text.to_string(),
        created_at: Timestamp { secs: 1_700_000_000, nanos: 5 },
        favorite: false,
        tags: Vec::new(),
        text: Some(text.to_string()),
        image_path: None,
        image_width: None,
        image_height: None,
        file_paths: Vec::new(),
    }
}

fn image_record(id: &str, path: Option<&str>) -> ClipboardRecord {
    ClipboardRecord {
        id: id.to_string(),
        kind: ClipboardKind::Image,
        content: "图片 1 × 1".to_string(),
        searchable_text: "图片 1 1".to_string(),
        created_at: Timestamp { secs: 1_700_000_000, nanos: 0 },
        favorite: false,
        tags: Vec::new(),
        text: None,
        image_path: path.map(|p| p.to_string()),
        image_width: Some(1),
        image_height: Some(1),
        file_paths: Vec::new(),
    }
}

fn t0() -> Timestamp {
    Timestamp { secs: 1_700_000_100, nanos: 9 }
}

fn fresh() -> String {
    "0f8fad5b-d9cb-469f-a165-70867728950e".to_string()
}

fn empty_store() -> ClipboardStore {
    let (store, evicted) =
        ClipboardStore::load(None, None, Vec::new(), "/tmp/h.json".to_string(), "/tmp/img".to_string());
    assert!(evicted.is_empty());
    store
}

fn store_with(entries: Vec<ClipboardRecord>, max: usize) -> ClipboardStore {
    let present = vec![true; entries.len()];
    let state = PersistedClipboardState { max_entries: max, entries };
    let (store, _) =
        ClipboardStore::load(Some(state), None, present, "/tmp/h.json".to_string(), "/tmp/img".to_string());
    store
}

fn ids(records: &[ClipboardRecord]) -> Vec<String> {
    records.iter().map(|r| r.id.clone()).collect()
}

fn no_images(store: &ClipboardStore) -> Vec<Option<Vec<u8>>> {
    vec![None; store.list().len()]
}

#[test]
fn load_without_saved_state_is_empty_with_default_limit() {
    let store = empty_store();
    assert!(store.list().is_empty());
    assert_eq!(store.max_entries(), 100);
    assert_eq!(store.last_seen_signature(), &None);
    assert_eq!(store.storage_path(), "/tmp/h.json");
    assert_eq!(store.image_dir(), "/tmp/img");
}

#[test]
fn load_restores_entries_and_clamps_limit() {
    let store = store_with(vec![text_record("a", "first"), text_record("b", "second")], 3);
    assert_eq!(ids(&store.list()), vec!["a", "b"]);
    assert_eq!(store.max_entries(), 20);
    assert_eq!(store.last_seen_signature(), &Some("text:first".to_string()));
}

#[test]
fn load_drops_records_with_missing_image_files() {
    let entries = vec![
        text_record("a", "x"),
        image_record("b", Some("/gone.png")),
        image_record("c", Some("/here.png")),
        image_record("d", None),
    ];
    let state = PersistedClipboardState { max_entries: 100, entries };
    let (store, evicted) = ClipboardStore::load(
        Some(state),
        None,
        vec![false, false, true, false],
        String::new(),
        String::new(),
    );
    assert_eq!(ids(&store.list()), vec!["a", "c", "d"]);
    assert!(evicted.is_empty());
}

#[test]
fn load_removes_oldest_beyond_limit() {
    let entries: Vec<ClipboardRecord> = (0..25).map(|i| text_record(&format!("r{i}"), &format!("t{i}"))).collect();
    let state = PersistedClipboardState { max_entries: 10, entries };
    let (store, evicted) =
        ClipboardStore::load(Some(state), None, vec![true; 25], String::new(), String::new());
    let kept = store.list();
    assert_eq!(kept.len(), 20);
    assert_eq!(kept[0].id, "r0");
    assert_eq!(kept[19].id, "r19");
    assert_eq!(ids(&evicted), vec!["r24", "r23", "r22", "r21", "r20"]);
}

#[test]
fn load_takes_image_signature_from_first_image_bytes() {
    let bytes = vec![9u8, 8, 7];
    let state = PersistedClipboardState { max_entries: 50, entries: vec![image_record("a", Some("/i.png"))] };
    let (store, _) = ClipboardStore::load(Some(state), Some(bytes.clone()), vec![true], String::new(), String::new());
    assert_eq!(store.last_seen_signature(), &Some(format!("image:{}", hash_bytes(&bytes))));
}

#[test]
fn new_text_capture_goes_first() {
    let mut store = store_with(vec![text_record("a", "old")], 100);
    let images = no_images(&store);
    let out = store.upsert_capture(capture_from_text("new text").unwrap(), images, t0(), fresh());
    assert!(out.changed);
    assert!(out.image_write.is_none());
    assert!(out.evicted.is_empty());
    let list = store.list();
    assert_eq!(list.len(), 2);
    assert_eq!(list[0].text.as_deref(), Some("new text"));
    assert_eq!(list[0].kind, ClipboardKind::Text);
    assert_eq!(list[0].content, "new text");
    assert!(!list[0].favorite);
    assert!(list[0].tags.is_empty());
    assert_eq!(list[0].id, fresh());
    assert_eq!(list[1].id, "a");
    assert_eq!(store.last_seen_signature(), &Some("text:new text".to_string()));
}

#[test]
fn repeating_a_capture_changes_nothing() {
    let mut store = empty_store();
    let out1 = store.upsert_capture(capture_from_text("same").unwrap(), Vec::new(), t0(), fresh());
    assert!(out1.changed);
    let before = ids(&store.list());
    let c = capture_from_text("same").unwrap();
    assert!(store.is_repeat(&c));
    let images = no_images(&store);
    let out2 = store.upsert_capture(c, images, t0(), fresh());
    assert!(!out2.changed);
    assert!(out2.evicted.is_empty());
    assert_eq!(ids(&store.list()), before);
}

#[test]
fn known_content_moves_to_front_keeping_id_mark_and_tags() {
    let mut store = store_with(vec![text_record("a", "one"), text_record("b", "two")], 100);
    store.toggle_favorite("b").unwrap();
    store.update_tags("b", vec!["x".to_string()]).unwrap();
    let images = no_images(&store);
    let now = Timestamp { secs: 42, nanos: 7 };
    let out = store.upsert_capture_at(
        capture_from_text("two").unwrap(),
        images,
        now,
        "fresh".to_string(),
        String::new(),
    );
    assert!(out.changed);
    let list = store.list();
    assert_eq!(ids(&list), vec!["b", "a"]);
    assert!(list[0].favorite);
    assert_eq!(list[0].tags, vec!["x".to_string()]);
    assert_eq!(list[0].created_at, now);
}

#[test]
fn image_capture_asks_for_its_file_to_be_written() {
    let mut store = empty_store();
    let png = vec![1u8, 2, 3];
    let out = store.upsert_capture_at(
        image_capture(4, 5, png.clone()),
        Vec::new(),
        Timestamp { secs: 1, nanos: 0 },
        "id-1".to_string(),
        "/img/id-1.png".to_string(),
    );
    let write = out.image_write.unwrap();
    assert_eq!(write.path, "/img/id-1.png");
    assert_eq!(write.png_bytes, png);
    let list = store.list();
    assert_eq!(list[0].id, "id-1");
    assert_eq!(list[0].image_path.as_deref(), Some("/img/id-1.png"));
    assert_eq!(list[0].image_width, Some(4));
    assert_eq!(list[0].image_height, Some(5));
    assert_eq!(store.last_seen_signature(), &Some(format!("image:{}", hash_bytes(&png))));
}

#[test]
fn image_record_is_found_by_its_file_bytes() {
    let png = vec![5u8, 6, 7];
    let mut store = store_with(vec![text_record("t", "x"), image_record("img", Some("/img/img.png"))], 100);
    let out = store.upsert_capture_at(
        image_capture(1, 1, png.clone()),
        vec![None, Some(png.clone())],
        Timestamp { secs: 2, nanos: 0 },
        "fresh".to_string(),
        "/img/img.png".to_string(),
    );
    assert!(out.changed);
    assert_eq!(ids(&store.list()), vec!["img", "t"]);
}

#[test]
fn upsert_beyond_limit_removes_oldest() {
    let entries: Vec<ClipboardRecord> = (0..20).map(|i| text_record(&format!("r{i}"), &format!("t{i}"))).collect();
    let mut store = store_with(entries, 20);
    let images = no_images(&store);
    let out = store.upsert_capture(capture_from_text("newest").unwrap(), images, t0(), fresh());
    assert_eq!(ids(&out.evicted), vec!["r19"]);
    let list = store.list();
    assert_eq!(list.len(), 20);
    assert_eq!(list[0].text.as_deref(), Some("newest"));
}

#[test]
fn upsert_files_capture_records_paths() {
    let mut store = empty_store();
    let c = capture_from_files(vec!["/tmp/a.txt".to_string()]).unwrap();
    store.upsert_capture(c, Vec::new(), t0(), fresh());
    let list = store.list();
    assert_eq!(list[0].kind, ClipboardKind::Files);
    assert_eq!(list[0].file_paths, vec!["/tmp/a.txt".to_string()]);
    assert_eq!(list[0].content, "a.txt");
}

#[test]
fn toggle_favorite_twice_restores() {
    let mut store = store_with(vec![text_record("a", "1"), text_record("b", "2")], 100);
    let once = store.toggle_favorite("b").unwrap();
    assert!(once[1].favorite);
    assert!(!once[0].favorite);
    let twice = store.toggle_favorite("b").unwrap();
    assert!(!twice[1].favorite);
    assert!(store.toggle_favorite("zzz").is_none());
}

#[test]
fn update_tags_cleans_tags() {
    let mut store = store_with(vec![text_record("a", "1")], 100);
    let list = store
        .update_tags("a", vec![" x ".to_string(), "x".to_string(), "".to_string(), "y".to_string()])
        .unwrap();
    assert_eq!(list[0].tags, vec!["x".to_string(), "y".to_string()]);
    assert!(store.update_tags("missing", vec!["x".to_string()]).is_none());
}

#[test]
fn set_limit_clamps_and_removes_oldest() {
    let entries: Vec<ClipboardRecord> = (0..30).map(|i| text_record(&format!("r{i}"), &format!("t{i}"))).collect();
    let mut store = store_with(entries, 100);
    let (list, evicted) = store.set_limit(5);
    assert_eq!(store.max_entries(), 20);
    assert_eq!(list.len(), 20);
    assert_eq!(evicted.len(), 10);
    assert_eq!(evicted[0].id, "r29");
    let (list, evicted) = store.set_limit(10_000);
    assert_eq!(store.max_entries(), 500);
    assert_eq!(list.len(), 20);
    assert!(evicted.is_empty());
}

#[test]
fn delete_record_removes_it_and_resets_last_seen() {
    let mut store = store_with(vec![text_record("a", "1"), text_record("b", "2")], 100);
    assert_eq!(store.image_to_read_after_delete("a"), None);
    let out = store.delete_record("a", &None).unwrap();
    assert_eq!(out.removed.id, "a");
    assert_eq!(ids(&out.entries), vec!["b"]);
    assert_eq!(store.last_seen_signature(), &Some("text:2".to_string()));
    let out = store.delete_record("b", &None).unwrap();
    assert!(out.entries.is_empty());
    assert_eq!(store.last_seen_signature(), &None);
    assert!(store.delete_record("b", &None).is_none());
}

#[test]
fn delete_names_the_image_to_read_for_the_new_front() {
    let store = store_with(vec![text_record("a", "1"), image_record("b", Some("/img/b.png"))], 100);
    assert_eq!(store.image_to_read_after_delete("a"), Some("/img/b.png".to_string()));
    assert_eq!(store.image_to_read_after_delete("b"), None);
    assert_eq!(store.image_to_read_after_delete("nope"), None);
}

#[test]
fn get_by_id_finds_first_match() {
    let store = store_with(vec![text_record("a", "1"), text_record("a", "2")], 100);
    assert_eq!(store.get_by_id("a").unwrap().text.as_deref(), Some("1"));
    assert!(store.get_by_id("b").is_none());
}

#[test]
fn copied_back_record_is_not_stored_again() {
    let mut store = store_with(vec![text_record("a", "hello"), text_record("b", "other")], 100);
    let record = store.get_by_id("b").unwrap();
    store.mark_last_seen_from_record(&record, &None);
    let c = capture_from_text("other").unwrap();
    assert!(store.is_repeat(&c));
    let images = no_images(&store);
    let out = store.upsert_capture(c, images, t0(), fresh());
    assert!(!out.changed);
    assert_eq!(ids(&store.list()), vec!["a", "b"]);
}

#[test]
fn signatures_of_records() {
    let t = text_record("a", "hi");
    assert_eq!(signature_for_record(&t, &None), "text:hi");
    let mut untexted = text_record("a", "hi");
    untexted.text = None;
    assert_eq!(signature_for_record(&untexted, &None), "text:");
    let img = image_record("i", Some("/p.png"));
    assert_eq!(signature_for_record(&img, &None), "image:");
    assert_eq!(signature_for_record(&img, &Some(b"abc".to_vec())), format!("image:{}", hash_bytes(b"abc")));
    let mut files = text_record("f", "");
    files.kind = ClipboardKind::Files;
    files.file_paths = vec!["/a".to_string(), "/b".to_string()];
    assert_eq!(signature_for_record(&files, &None), "files:/a|/b");
}

#[test]
fn images_to_read_names_image_files_only() {
    let store = store_with(
        vec![text_record("a", "1"), image_record("b", Some("/b.png")), image_record("c", None)],
        100,
    );
    assert_eq!(store.images_to_read(), vec![None, Some("/b.png".to_string()), None]);
    assert_eq!(image_to_read(&image_record("x", Some("/x.png"))), Some("/x.png".to_string()));
}

#[test]
fn payload_and_snapshot_carry_records_and_limit() {
    let store = store_with(vec![text_record("a", "1")], 42);
    let payload = store.payload();
    assert_eq!(payload.max_entries, 42);
    assert_eq!(ids(&payload.entries), vec!["a"]);
    let snapshot = store.snapshot();
    assert_eq!(snapshot.max_entries, 42);
    assert_eq!(ids(&snapshot.entries), vec!["a"]);
}

#[test]
fn capture_kinds_are_kept() {
    let c = capture_from_text("k").unwrap();
    assert!(matches!(c, ClipboardCapture::Text { .. }));
}

#[test]
fn stored_image_file_lives_in_the_image_dir_under_its_id() {
    let mut store = empty_store();
    let out = store.upsert_capture(image_capture(2, 2, vec![7u8, 7, 7]), Vec::new(), t0(), fresh());
    let list = store.list();
    let expected = format!("/tmp/img/{}.png", fresh());
    assert_eq!(list[0].id, fresh());
    assert_eq!(list[0].image_path.as_deref(), Some(expected.as_str()));
    assert_eq!(out.image_write.unwrap().path, expected);
}

#[test]
fn known_image_keeps_its_file_name() {
    let png = vec![3u8, 1, 4];
    let mut store = store_with(vec![image_record("old-id", Some("/tmp/img/old-id.png"))], 100);
    let out = store.upsert_capture(image_capture(1, 1, png.clone()), vec![Some(png)], t0(), fresh());
    assert!(out.changed);
    let list = store.list();
    assert_eq!(list[0].id, "old-id");
    assert_eq!(list[0].image_path.as_deref(), Some("/tmp/img/old-id.png"));
}

#[test]
fn landing_record_id_picks_the_matching_record() {
    let store = store_with(vec![text_record("a", "x"), text_record("b", "y")], 100);
    let images = no_images(&store);
    assert_eq!(store.landing_record_id(&"text:y".to_string(), &images, &fresh()), "b");
    assert_eq!(store.landing_record_id(&"text:z".to_string(), &images, &fresh()), fresh());
}

#[test]
fn stored_record_gets_the_given_time() {
    let mut store = empty_store();
    store.upsert_capture(capture_from_text("now").unwrap(), Vec::new(), t0(), fresh());
    assert_eq!(store.list()[0].created_at, t0());
}

#[test]
fn store_len_counts_records() {
    let store = store_with(vec![text_record("a", "1"), text_record("b", "2")], 100);
    assert_eq!(store.len(), 2);
}

#[test]
fn saving_and_loading_gives_the_same_history() {
    let store = store_with(vec![text_record("a", "1"), text_record("b", "2")], 30);
    let snapshot = store.snapshot();
    let n = snapshot.entries.len();
    let (loaded, evicted) =
        ClipboardStore::load(Some(snapshot), None, vec![true; n], String::new(), String::new());
    assert!(evicted.is_empty());
    assert_eq!(ids(&loaded.list()), ids(&store.list()));
    assert_eq!(loaded.max_entries(), 30);
    assert_eq!(loaded.last_seen_signature(), &Some("text:1".to_string()));
}

#[test]
fn deleted_id_is_gone_and_others_still_found() {
    let mut store = store_with(vec![text_record("a", "1"), text_record("b", "2"), text_record("c", "3")], 100);
    store.delete_record("b", &None).unwrap();
    assert!(store.get_by_id("b").is_none());
    assert_eq!(store.get_by_id("a").unwrap().text.as_deref(), Some("1"));
    assert_eq!(store.get_by_id("c").unwrap().text.as_deref(), Some("3"));
}

#[test]
fn copying_again_keeps_one_record_per_content() {
    let mut store = store_with(vec![text_record("a", "1"), text_record("b", "2")], 100);
    let images = no_images(&store);
    store.upsert_capture(capture_from_text("2").unwrap(), images, t0(), fresh());
    let images = no_images(&store);
    store.upsert_capture(capture_from_text("1").unwrap(), images, t0(), fresh());
    let sigs: Vec<String> = store.list().iter().map(|r| signature_for_record(r, &None)).collect();
    assert_eq!(sigs, vec!["text:1".to_string(), "text:2".to_string()]);
}

fn store_with_image_dir(dir: &str) -> ClipboardStore {
    let (store, _) = ClipboardStore::load(None, None, Vec::new(), String::new(), dir.to_string());
    store
}

#[test]
fn image_dir_ending_in_separator_gets_no_second_one() {
    let mut store = store_with_image_dir("/tmp/img/");
    store.upsert_capture(image_capture(1, 1, vec![1u8]), Vec::new(), t0(), fresh());
    let expected = format!("/tmp/img/{}.png", fresh());
    assert_eq!(store.list()[0].image_path.as_deref(), Some(expected.as_str()));
}

#[test]
fn empty_image_dir_gives_the_bare_file_name() {
    let mut store = store_with_image_dir("");
    store.upsert_capture(image_capture(1, 1, vec![2u8]), Vec::new(), t0(), fresh());
    let expected = format!("{}.png", fresh());
    assert_eq!(store.list()[0].image_path.as_deref(), Some(expected.as_str()));
}
