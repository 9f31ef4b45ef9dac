use vstd::prelude::*;
use crate::record::ClipboardKind;
use crate::record::ClipboardRecord;
use crate::record::RecordModel;

verus! {

/// The key combination that shows or hides the window.
pub fn get_toggle_shortcut() -> (r: &'static str)
    ensures
        r@ == "Ctrl+Shift+Space"@,
{
    "Ctrl+Shift+Space"
}

/// What the shortcut does to the main window.
#[derive(Debug, PartialEq, Eq, Structural)]
pub enum WindowAction {
    /// Hide the window.
    Hide,
    /// Show the window (restoring it first where it is minimized) and focus it.
    Show { unminimize: bool },
}

/// What the shortcut does to a window in the given state: a window that is
/// visible, not minimized and focused is hidden; any other is shown, restored
/// if minimized, and focused.
pub fn window_toggle_action(visible: bool, minimized: bool, focused: bool) -> (r: WindowAction)
    ensures
        r == (if visible && !minimized && focused {
            WindowAction::Hide
        } else {
            WindowAction::Show { unminimize: minimized }
        }),
{
    if visible && !minimized && focused {
        WindowAction::Hide
    } else {
        WindowAction::Show { unminimize: minimized }
    }
}

/// What copying a record back puts on the clipboard.
#[derive(Debug)]
pub enum ClipboardContent {
    /// This text.
    Text(String),
    /// The image in the file at this path.
    Image(String),
    /// These files.
    Files(Vec<String>),
}

/// The message when an image record has no image file.
pub open spec fn missing_image_message() -> Seq<char> {
    "image asset not found"@
}

/// What copying `r` back puts on the clipboard: a text record's text (empty
/// where it has none), an image record's image file, or a file record's paths;
/// an error where an image record has no image path.
pub open spec fn content_matches(r: RecordModel, out: Result<ClipboardContent, String>) -> bool {
    match r.kind {
        ClipboardKind::Text => out matches Ok(ClipboardContent::Text(t)) && t@ == match r.text {
            Some(t) => t,
            None => Seq::empty(),
        },
        ClipboardKind::Image => match r.image_path {
            Some(p) => out matches Ok(ClipboardContent::Image(q)) && q@ == p,
            None => out matches Err(e) && e@ == missing_image_message(),
        },
        ClipboardKind::Files => out matches Ok(ClipboardContent::Files(f)) && f.deep_view()
            == r.file_paths,
    }
}

/// What copying `record` back puts on the clipboard.
pub fn clipboard_content_for(record: &ClipboardRecord) -> (r: Result<ClipboardContent, String>)
    ensures
        content_matches(record@, r),
{
    match record.kind {
        ClipboardKind::Text => {
            let t = match &record.text {
                Some(t) => t.clone(),
                None => String::new(),
            };
            Ok(ClipboardContent::Text(t))
        },
        ClipboardKind::Image => match &record.image_path {
            Some(p) => Ok(ClipboardContent::Image(p.clone())),
            None => Err("image asset not found".to_owned()),
        },
        ClipboardKind::Files => Ok(ClipboardContent::Files(crate::record::copy_strings(&record.file_paths))),
    }
}

} // verus!
