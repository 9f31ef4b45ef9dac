use magic_pocket::capture::capture_from_files;
use magic_pocket::capture::capture_from_image;
use magic_pocket::capture::capture_from_text;
use magic_pocket::capture::files_capture;
use magic_pocket::capture::image_capture;
use magic_pocket::capture::image_to_png;
use magic_pocket::capture::ClipboardCapture;
use magic_pocket::digest::hash_bytes;

fn strings(items: &[&str]) -> Vec<String> {
    items.iter().map(|s| s.to_string()).collect()
}

#[test]
fn text_capture_is_trimmed() {
    match capture_from_text("  hello\nthere  ") {
        Some(ClipboardCapture::Text { signature, display, searchable_text, text }) => {
            assert_eq!(signature, "text:hello\nthere");
            assert_eq!(display, "hello there");
            assert_eq!(searchable_text, "hello\nthere");
            assert_eq!(text, "hello\nthere");
        }
        other => panic!("unexpected capture {:?}", other),
    }
}

#[test]
fn blank_text_gives_no_capture() {
    assert!(capture_from_text("").is_none());
    assert!(capture_from_text(" \n\t\u{3000}").is_none());
}

#[test]
fn capture_signature_accessor() {
    let c = capture_from_text("abc").unwrap();
    assert_eq!(c.signature(), "text:abc");
}

#[test]
fn files_capture_with_one_name_shows_it() {
    let c = files_capture(strings(&["/home/u/report.pdf"]), strings(&["report.pdf"])).unwrap();
    match c {
        ClipboardCapture::Files { signature, display, searchable_text, file_paths } => {
            assert_eq!(signature, "files:/home/u/report.pdf");
            assert_eq!(display, "report.pdf");
            assert_eq!(searchable_text, "report.pdf /home/u/report.pdf");
            assert_eq!(file_paths, strings(&["/home/u/report.pdf"]));
        }
        other => panic!("unexpected capture {:?}", other),
    }
}

#[test]
fn files_capture_with_several_names_counts_them() {
    let c = files_capture(strings(&["/a/x.txt", "/b/y.txt", "/c"]), strings(&["x.txt", "y.txt", "c"]))
        .unwrap();
    match c {
        ClipboardCapture::Files { signature, display, searchable_text, .. } => {
            assert_eq!(signature, "files:/a/x.txt|/b/y.txt|/c");
            assert_eq!(display, "3 个文件");
            assert_eq!(searchable_text, "x.txt y.txt c /a/x.txt /b/y.txt /c");
        }
        other => panic!("unexpected capture {:?}", other),
    }
}

#[test]
fn empty_file_list_gives_no_capture() {
    assert!(files_capture(Vec::new(), Vec::new()).is_none());
    assert!(capture_from_files(Vec::new()).is_none());
}

#[test]
fn capture_from_files_finds_file_names() {
    let c = capture_from_files(strings(&["/tmp/a.txt", "/tmp/b.txt"])).unwrap();
    match c {
        ClipboardCapture::Files { signature, display, searchable_text, file_paths } => {
            assert_eq!(signature, "files:/tmp/a.txt|/tmp/b.txt");
            assert_eq!(display, "2 个文件");
            assert_eq!(searchable_text, "a.txt b.txt /tmp/a.txt /tmp/b.txt");
            assert_eq!(file_paths.len(), 2);
        }
        other => panic!("unexpected capture {:?}", other),
    }
    let single = capture_from_files(strings(&["/tmp/notes.md"])).unwrap();
    match single {
        ClipboardCapture::Files { display, .. } => assert_eq!(display, "notes.md"),
        other => panic!("unexpected capture {:?}", other),
    }
}

#[test]
fn image_capture_names_size_and_hash() {
    let png = vec![1u8, 2, 3, 4];
    let expected_hash = hash_bytes(&png);
    match image_capture(640, 480, png.clone()) {
        ClipboardCapture::Image { signature, display, searchable_text, png_bytes, width, height } => {
            assert_eq!(signature, format!("image:{expected_hash}"));
            assert_eq!(display, "图片 640 × 480");
            assert_eq!(searchable_text, "图片 640 480");
            assert_eq!(png_bytes, png);
            assert_eq!((width, height), (640, 480));
        }
        other => panic!("unexpected capture {:?}", other),
    }
}

#[test]
fn image_to_png_encodes_rgba() {
    let rgba = vec![255u8, 0, 0, 255, 0, 255, 0, 255];
    let png = image_to_png(2, 1, rgba).unwrap();
    assert_eq!(&png[..8], &[0x89, b'P', b'N', b'G', 0x0d, 0x0a, 0x1a, 0x0a]);
}

#[test]
fn image_to_png_refuses_short_buffer() {
    assert!(image_to_png(2, 2, vec![0u8; 15]).is_none());
}

#[test]
fn capture_from_image_encodes_and_signs() {
    let rgba = vec![10u8, 20, 30, 255];
    let c = capture_from_image(1, 1, rgba.clone()).unwrap();
    let png = image_to_png(1, 1, rgba).unwrap();
    match c {
        ClipboardCapture::Image { signature, display, png_bytes, .. } => {
            assert_eq!(signature, format!("image:{}", hash_bytes(&png)));
            assert_eq!(display, "图片 1 × 1");
            assert_eq!(png_bytes, png);
        }
        other => panic!("unexpected capture {:?}", other),
    }
    assert!(capture_from_image(3, 3, vec![0u8; 4]).is_none());
}

use magic_pocket::capture::capture_clipboard;
use magic_pocket::capture::ClipboardImage;

fn pixel() -> ClipboardImage {
    ClipboardImage { width: 1, height: 1, bytes: vec![1, 2, 3, 255] }
}

#[test]
fn clipboard_files_come_first() {
    let c = capture_clipboard(Some(strings(&["/tmp/a.txt"])), Some(pixel()), Some("text".to_string()));
    assert!(matches!(c, Some(ClipboardCapture::Files { .. })));
}

#[test]
fn clipboard_image_comes_before_text() {
    let c = capture_clipboard(Some(Vec::new()), Some(pixel()), Some("text".to_string()));
    assert!(matches!(c, Some(ClipboardCapture::Image { .. })));
}

#[test]
fn clipboard_text_when_image_cannot_be_encoded() {
    let broken = ClipboardImage { width: 4, height: 4, bytes: vec![0u8; 3] };
    let c = capture_clipboard(None, Some(broken), Some(" text ".to_string()));
    match c {
        Some(ClipboardCapture::Text { text, .. }) => assert_eq!(text, "text"),
        other => panic!("unexpected capture {:?}", other),
    }
}

#[test]
fn clipboard_with_nothing_usable_gives_nothing() {
    assert!(capture_clipboard(None, None, Some("   ".to_string())).is_none());
    assert!(capture_clipboard(None, None, None).is_none());
}

#[test]
fn plain_path_is_its_own_file_name() {
    match capture_from_files(strings(&["notes.txt"])).unwrap() {
        ClipboardCapture::Files { display, searchable_text, .. } => {
            assert_eq!(display, "notes.txt");
            assert_eq!(searchable_text, "notes.txt notes.txt");
        }
        other => panic!("unexpected capture {:?}", other),
    }
}

#[test]
fn path_ending_in_parent_has_no_file_name() {
    match capture_from_files(strings(&["/tmp/.."])).unwrap() {
        ClipboardCapture::Files { display, searchable_text, .. } => {
            assert_eq!(display, "0 个文件");
            assert_eq!(searchable_text, " /tmp/..");
        }
        other => panic!("unexpected capture {:?}", other),
    }
}

#[test]
fn file_list_decides_even_with_an_oversized_image() {
    let oversized = ClipboardImage { width: 1, height: 1, bytes: vec![0u8; 64] };
    let c = capture_clipboard(Some(strings(&["/home/a.txt"])), Some(oversized), None);
    match c {
        Some(ClipboardCapture::Files { display, .. }) => assert_eq!(display, "a.txt"),
        other => panic!("unexpected capture {:?}", other),
    }
}
