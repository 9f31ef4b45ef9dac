use vstd::prelude::*;
use crate::digest::hash_bytes;
use crate::digest::hash_text;
use crate::text::chars_of;
use crate::text::decimal_spec;
use crate::text::decimal_string;
use crate::text::join_spec;
use crate::text::join_strings;
use crate::text::string_of;
use crate::text::summarize_text;
use crate::text::summary_of;
use crate::text::trim;
use crate::text::trim_chars;

verus! {

/// What was read from the clipboard, ready to be stored: its signature (by
/// which a repeat is recognised), the line the history shows, the text a search
/// looks in, and the content itself.
#[derive(Debug)]
pub enum ClipboardCapture {
    Text { signature: String, display: String, searchable_text: String, text: String },
    Image {
        signature: String,
        display: String,
        searchable_text: String,
        png_bytes: Vec<u8>,
        width: u32,
        height: u32,
    },
    Files {
        signature: String,
        display: String,
        searchable_text: String,
        file_paths: Vec<String>,
    },
}

/// The signature of a capture.
pub open spec fn capture_signature(c: ClipboardCapture) -> Seq<char> {
    match c {
        ClipboardCapture::Text { signature, .. } => signature@,
        ClipboardCapture::Image { signature, .. } => signature@,
        ClipboardCapture::Files { signature, .. } => signature@,
    }
}

impl ClipboardCapture {
    /// The signature of this capture.
    pub fn signature(&self) -> (r: &String)
        ensures
            r@ == capture_signature(*self),
    {
        match self {
            ClipboardCapture::Text { signature, .. } => signature,
            ClipboardCapture::Image { signature, .. } => signature,
            ClipboardCapture::Files { signature, .. } => signature,
        }
    }
}

/// The line the history shows for a capture.
pub open spec fn capture_display(c: ClipboardCapture) -> Seq<char> {
    match c {
        ClipboardCapture::Text { display, .. } => display@,
        ClipboardCapture::Image { display, .. } => display@,
        ClipboardCapture::Files { display, .. } => display@,
    }
}

/// The text a search looks in for a capture.
pub open spec fn capture_searchable(c: ClipboardCapture) -> Seq<char> {
    match c {
        ClipboardCapture::Text { searchable_text, .. } => searchable_text@,
        ClipboardCapture::Image { searchable_text, .. } => searchable_text@,
        ClipboardCapture::Files { searchable_text, .. } => searchable_text@,
    }
}

/// The signature of a text: `"text:"` followed by the text.
pub open spec fn text_signature(text: Seq<char>) -> Seq<char> {
    "text:"@ + text
}

/// The signature of an image: `"image:"` followed by the hash of its PNG bytes.
pub open spec fn image_signature(png: Seq<u8>) -> Seq<char> {
    "image:"@ + hash_text(png)
}

/// The signature of a file list: `"files:"` followed by the paths joined with `'|'`.
pub open spec fn files_signature(paths: Seq<Seq<char>>) -> Seq<char> {
    "files:"@ + join_spec(paths, "|"@)
}

/// The history line of an image: `"图片 {width} × {height}"`.
pub open spec fn image_display(width: u32, height: u32) -> Seq<char> {
    "图片 "@ + decimal_spec(width as nat) + " × "@ + decimal_spec(height as nat)
}

/// The search text of an image: `"图片 {width} {height}"`.
pub open spec fn image_searchable(width: u32, height: u32) -> Seq<char> {
    "图片 "@ + decimal_spec(width as nat) + " "@ + decimal_spec(height as nat)
}

/// The history line of a file list: the one file name, or how many names there are.
pub open spec fn files_display(names: Seq<Seq<char>>) -> Seq<char> {
    if names.len() == 1 {
        names[0]
    } else {
        decimal_spec(names.len()) + " 个文件"@
    }
}

/// The search text of a file list: the names, then the paths, each joined with spaces.
pub open spec fn files_searchable(names: Seq<Seq<char>>, paths: Seq<Seq<char>>) -> Seq<char> {
    join_spec(names, " "@) + " "@ + join_spec(paths, " "@)
}

/// Whether `c` is the text capture of `text`.
pub open spec fn is_text_capture_of(c: ClipboardCapture, text: Seq<char>) -> bool {
    &&& c matches ClipboardCapture::Text { signature, display, searchable_text, text: t }
    &&& signature@ == text_signature(trim(text))
    &&& display@ == summary_of(trim(text))
    &&& searchable_text@ == trim(text)
    &&& t@ == trim(text)
}

/// Whether `c` is the image capture of a `width` by `height` image encoded as `png`.
pub open spec fn is_image_capture_of(c: ClipboardCapture, width: u32, height: u32, png: Seq<u8>) -> bool {
    &&& c matches ClipboardCapture::Image {
        signature,
        display,
        searchable_text,
        png_bytes,
        width: w,
        height: h,
    }
    &&& signature@ == image_signature(png)
    &&& display@ == image_display(width, height)
    &&& searchable_text@ == image_searchable(width, height)
    &&& png_bytes@ == png
    &&& w == width
    &&& h == height
}

/// Whether `c` is the capture of the file list `paths` whose file names are `names`.
pub open spec fn is_files_capture_of(
    c: ClipboardCapture,
    paths: Seq<Seq<char>>,
    names: Seq<Seq<char>>,
) -> bool {
    &&& c matches ClipboardCapture::Files { signature, display, searchable_text, file_paths }
    &&& signature@ == files_signature(paths)
    &&& display@ == files_display(names)
    &&& searchable_text@ == files_searchable(names, paths)
    &&& file_paths.deep_view() == paths
}

/// The capture of a text read from the clipboard: none where the text is only
/// white space; else the trimmed text.
pub fn capture_from_text(text: &str) -> (r: Option<ClipboardCapture>)
    ensures
        r is None <==> trim(text@).len() == 0,
        r matches Some(c) ==> is_text_capture_of(c, text@),
{
    let chars = chars_of(text);
    let trimmed_chars = trim_chars(&chars);
    if trimmed_chars.len() == 0 {
        return None;
    }
    let trimmed = string_of(&trimmed_chars);
    let mut signature = "text:".to_owned();
    signature.append(trimmed.as_str());
    let display = summarize_text(trimmed.as_str());
    let searchable_text = trimmed.clone();
    Some(ClipboardCapture::Text { signature, display, searchable_text, text: trimmed })
}

/// The capture of a file list whose file names are `file_names`: none where the
/// list is empty.
pub fn files_capture(file_paths: Vec<String>, file_names: Vec<String>) -> (r: Option<
    ClipboardCapture,
>)
    ensures
        r is None <==> file_paths@.len() == 0,
        r matches Some(c) ==> is_files_capture_of(c, file_paths.deep_view(), file_names.deep_view()),
{
    if file_paths.len() == 0 {
        return None;
    }
    let display = if file_names.len() == 1 {
        assert(file_names.deep_view()[0] == file_names@[0]@);
        file_names[0].clone()
    } else {
        let mut d = decimal_string(file_names.len() as u64);
        d.append(" 个文件");
        d
    };
    let names_joined = join_strings(&file_names, " ");
    let paths_joined = join_strings(&file_paths, " ");
    let mut searchable_text = names_joined;
    searchable_text.append(" ");
    searchable_text.append(paths_joined.as_str());
    let mut signature = "files:".to_owned();
    let bar_joined = join_strings(&file_paths, "|");
    signature.append(bar_joined.as_str());
    Some(ClipboardCapture::Files { signature, display, searchable_text, file_paths })
}

/// Whether `part` stands somewhere in `whole` as a contiguous piece.
pub open spec fn is_part_of(part: Seq<char>, whole: Seq<char>) -> bool {
    exists|i: int| 0 <= i && i + part.len() <= whole.len() && #[trigger] whole.subrange(i, i + part.len()) == part
}

/// Whether `name` is a file name with no path syntax on any platform: not
/// empty, without `'/'`, `'\\'` or `':'`.
pub open spec fn plain_file_name(name: Seq<char>) -> bool {
    &&& name.len() > 0
    &&& !name.contains('/')
    &&& !name.contains('\\')
    &&& !name.contains(':')
}

/// Whether `c` separates path components somewhere: `'/'` or `'\\'`.
pub open spec fn is_separator(c: char) -> bool {
    c == '/' || c == '\\'
}

/// Whether `path` begins with two separators, as a Windows UNC, device or
/// verbatim (`\\?\`) path does; in those, what separates components
/// follows other rules.
pub open spec fn has_double_separator_start(path: Seq<char>) -> bool {
    path.len() >= 2 && is_separator(path[0]) && is_separator(path[1])
}

/// Whether `name` is a plain file name that is not `.` or `..`.
pub open spec fn normal_file_name(name: Seq<char>) -> bool {
    plain_file_name(name) && name != seq!['.'] && name != seq!['.', '.']
}

/// What holds of the file name `name` found (or not) in `path` on every
/// platform: a name found is a non-empty piece of the path, and holds no
/// `'/'` unless the path begins with two separators; a path that is itself a
/// normal file name is its own name; and a path (not beginning with two
/// separators) that ends in `'/'` and a normal file name has that name.
pub open spec fn file_name_fact(path: Seq<char>, name: Option<Seq<char>>) -> bool {
    &&& name matches Some(n) ==> n.len() > 0 && is_part_of(n, path)
    &&& !has_double_separator_start(path) ==> (name matches Some(n) ==> !n.contains('/'))
    &&& normal_file_name(path) ==> name == Some(path)
    &&& forall|d: Seq<char>, n: Seq<char>|
        !has_double_separator_start(path) && path == d + seq!['/'] + n && normal_file_name(n)
            ==> name == Some(n)
}

/// The names found, in order, skipping the paths where none was found.
pub open spec fn found_names(found: Seq<Option<Seq<char>>>) -> Seq<Seq<char>>
    decreases found.len(),
{
    if found.len() == 0 {
        Seq::empty()
    } else {
        let before = found_names(found.drop_last());
        match found.last() {
            Some(n) => before.push(n),
            None => before,
        }
    }
}

/// The file name of `path`, if it has one (`std::path::Path::file_name`).
/// Trusted: a name returned is the final normal component of the path, which
/// std borrows from the path, so it is a non-empty piece of it. Outside paths
/// that begin with two separators (Windows UNC, device and verbatim paths,
/// where `'/'` may not separate), `'/'` separates components on every
/// platform, so a name holds no `'/'`, and a path ending in `'/'` and a
/// normal file name has that name; a path that is a single normal component
/// is its own name. Which component is final in other paths (as where `'\\'`
/// ends the directory part) depends on the platform, and is not stated.
#[verifier::external_body]
fn file_name_of(path: &String) -> (r: Option<String>)
    ensures
        file_name_fact(path@, r.deep_view()),
{
    std::path::Path::new(path.as_str()).file_name().map(|n| n.to_string_lossy().to_string())
}

/// Whether `c` is the capture of `paths` with, as file names, the names found
/// in each path in order.
pub open spec fn is_files_capture_found(c: ClipboardCapture, paths: Seq<Seq<char>>) -> bool {
    exists|found: Seq<Option<Seq<char>>>|
        found.len() == paths.len() && (forall|i: int|
            0 <= i < paths.len() ==> file_name_fact(paths[i], #[trigger] found[i]))
            && is_files_capture_of(c, paths, found_names(found))
}

/// The capture of a file list read from the clipboard: none where the list is
/// empty; the file names shown are those found in each path, in path order.
pub fn capture_from_files(file_paths: Vec<String>) -> (r: Option<ClipboardCapture>)
    ensures
        r is None <==> file_paths@.len() == 0,
        r matches Some(c) ==> is_files_capture_found(c, file_paths.deep_view()),
{
    let ghost paths = file_paths.deep_view();
    let ghost mut found: Seq<Option<Seq<char>>> = Seq::empty();
    let mut names: Vec<String> = Vec::new();
    let n = file_paths.len();
    for i in 0..n
        invariant
            n == file_paths@.len(),
            paths == file_paths.deep_view(),
            found.len() == i,
            forall|k: int| 0 <= k < i ==> file_name_fact(paths[k], #[trigger] found[k]),
            names.deep_view() == found_names(found),
    {
        assert(paths[i as int] == file_paths@[i as int]@);
        let name = file_name_of(&file_paths[i]);
        let ghost prev = found;
        proof {
            found = found.push(name.deep_view());
            assert(found.drop_last() =~= prev);
        }
        if let Some(nm) = name {
            let ghost nb = names@;
            names.push(nm);
            assert(names@ == nb.push(nm));
            assert(names.deep_view() =~= found_names(prev).push(nm@));
        }
    }
    let ghost names_view = names.deep_view();
    let r = files_capture(file_paths, names);
    proof {
        if r is Some {
            assert(found.len() == paths.len() && (forall|i: int|
                0 <= i < paths.len() ==> file_name_fact(paths[i], #[trigger] found[i]))
                && is_files_capture_of(r->0, paths, found_names(found)));
        }
    }
    r
}

/// The PNG encoding of a `width` by `height` RGBA image whose pixels are `rgba`,
/// or none where it cannot be encoded.
pub uninterp spec fn png_encoding(width: u32, height: u32, rgba: Seq<u8>) -> Option<Seq<u8>>;

/// The bytes of an optional buffer.
pub open spec fn opt_bytes(o: Option<Vec<u8>>) -> Option<Seq<u8>> {
    match o {
        Some(v) => Some(v@),
        None => None,
    }
}

/// Encodes RGBA pixels as PNG (`image::ImageBuffer::from_raw`, then
/// `image::DynamicImage::write_to` with `ImageFormat::Png`).
/// Trusted: the result is the encoding named `png_encoding` of the arguments,
/// and it is none where `rgba` holds fewer than `4 * width * height` bytes, as
/// `from_raw` documents. A longer buffer is left out: the PNG encoder asserts
/// that the buffer is exactly that long, and would panic.
#[verifier::external_body]
fn encode_png(width: u32, height: u32, rgba: Vec<u8>) -> (r: Option<Vec<u8>>)
    requires
        rgba@.len() <= 4 * (width as int) * (height as int),
    ensures
        opt_bytes(r) == png_encoding(width, height, rgba@),
        rgba@.len() < 4 * (width as int) * (height as int) ==> r is None,
{
    let buffer: image::RgbaImage = image::ImageBuffer::from_raw(width, height, rgba)?;
    let mut png_bytes = Vec::new();
    let mut cursor = std::io::Cursor::new(&mut png_bytes);
    image::DynamicImage::ImageRgba8(buffer).write_to(&mut cursor, image::ImageFormat::Png).ok()?;
    Some(png_bytes)
}

/// The PNG encoding of an RGBA image whose size the clipboard gave as `width`
/// and `height` (each cut to 32 bits). A buffer longer than the image needs
/// is left out, as the encoder panics on it.
pub fn image_to_png(width: usize, height: usize, rgba: Vec<u8>) -> (r: Option<Vec<u8>>)
    requires
        rgba@.len() <= 4 * ((width as u32) as int) * ((height as u32) as int),
    ensures
        opt_bytes(r) == png_encoding(width as u32, height as u32, rgba@),
        rgba@.len() < 4 * ((width as u32) as int) * ((height as u32) as int) ==> r is None,
{
    encode_png(width as u32, height as u32, rgba)
}

/// The capture of a `width` by `height` image encoded as `png_bytes`.
pub fn image_capture(width: u32, height: u32, png_bytes: Vec<u8>) -> (r: ClipboardCapture)
    ensures
        is_image_capture_of(r, width, height, png_bytes@),
{
    let hash = hash_bytes(png_bytes.as_slice());
    let mut signature = "image:".to_owned();
    signature.append(hash.as_str());
    let w = decimal_string(width as u64);
    let h = decimal_string(height as u64);
    let mut display = "图片 ".to_owned();
    display.append(w.as_str());
    display.append(" × ");
    display.append(h.as_str());
    let mut searchable_text = "图片 ".to_owned();
    searchable_text.append(w.as_str());
    searchable_text.append(" ");
    searchable_text.append(h.as_str());
    ClipboardCapture::Image { signature, display, searchable_text, png_bytes, width, height }
}

/// The capture of an RGBA image read from the clipboard: none where it cannot
/// be encoded as PNG (as where it holds fewer bytes than the image needs).
pub fn capture_from_image(width: usize, height: usize, rgba: Vec<u8>) -> (r: Option<
    ClipboardCapture,
>)
    requires
        rgba@.len() <= 4 * ((width as u32) as int) * ((height as u32) as int),
    ensures
        rgba@.len() < 4 * ((width as u32) as int) * ((height as u32) as int) ==> r is None,
        r is None <==> png_encoding(width as u32, height as u32, rgba@) is None,
        r matches Some(c) ==> is_image_capture_of(
            c,
            width as u32,
            height as u32,
            png_encoding(width as u32, height as u32, rgba@)->0,
        ),
{
    match image_to_png(width, height, rgba) {
        Some(png) => Some(image_capture(width as u32, height as u32, png)),
        None => None,
    }
}


/// An image as the clipboard holds it: its size and its RGBA pixels.
pub struct ClipboardImage {
    pub width: usize,
    pub height: usize,
    pub bytes: Vec<u8>,
}

/// The capture of what the clipboard holds, given what could be read of it as
/// a file list, an image and a text. A non-empty file list comes first; else
/// an image that can be encoded as PNG; else a text that is not only white
/// space; else nothing. Where no file list decides, an image buffer longer
/// than its size needs is left out, as the PNG encoder panics on it.
pub fn capture_clipboard(
    file_list: Option<Vec<String>>,
    image: Option<ClipboardImage>,
    text: Option<String>,
) -> (r: Option<ClipboardCapture>)
    requires
        !(file_list matches Some(paths) && paths@.len() > 0) ==> (image matches Some(img)
            ==> img.bytes@.len() <= 4 * ((img.width as u32) as int) * ((img.height as u32) as int)),
    ensures
        ({
            let has_files = file_list matches Some(paths) && paths@.len() > 0;
            let has_image = image matches Some(img) && png_encoding(
                img.width as u32,
                img.height as u32,
                img.bytes@,
            ) is Some;
            let has_text = text matches Some(t) && trim(t@).len() > 0;
            &&& r is None <==> !has_files && !has_image && !has_text
            &&& has_files ==> (r matches Some(c) && is_files_capture_found(
                c,
                file_list->0.deep_view(),
            ))
            &&& !has_files && has_image ==> (r matches Some(c) && is_image_capture_of(
                c,
                image->0.width as u32,
                image->0.height as u32,
                png_encoding(image->0.width as u32, image->0.height as u32, image->0.bytes@)->0,
            ))
            &&& !has_files && !has_image && has_text ==> (r matches Some(c) && is_text_capture_of(
                c,
                text->0@,
            ))
        }),
{
    if let Some(paths) = file_list {
        if paths.len() > 0 {
            return capture_from_files(paths);
        }
    }
    if let Some(img) = image {
        let c = capture_from_image(img.width, img.height, img.bytes);
        if c.is_some() {
            return c;
        }
    }
    if let Some(t) = text {
        return capture_from_text(t.as_str());
    }
    None
}

} // verus!
