use vstd::prelude::*;

verus! {

/// What a clipboard record holds.
#[derive(Clone, Copy, Debug, PartialEq, Eq, Structural)]
pub enum ClipboardKind {
    Text,
    Image,
    Files,
}

/// A point in time in UTC: whole seconds since the Unix epoch and the
/// nanoseconds past that second.
#[derive(Clone, Copy, Debug, PartialEq, Eq, Structural)]
pub struct Timestamp {
    pub secs: i64,
    pub nanos: u32,
}

/// One entry of the clipboard history.
#[derive(Debug, Clone)]
pub struct ClipboardRecord {
    pub id: String,
    pub kind: ClipboardKind,
    pub content: String,
    pub searchable_text: String,
    pub created_at: Timestamp,
    pub favorite: bool,
    pub tags: Vec<String>,
    pub text: Option<String>,
    pub image_path: Option<String>,
    pub image_width: Option<u32>,
    pub image_height: Option<u32>,
    pub file_paths: Vec<String>,
}

/// A record as plain values: each string as its characters.
pub struct RecordModel {
    pub id: Seq<char>,
    pub kind: ClipboardKind,
    pub content: Seq<char>,
    pub searchable_text: Seq<char>,
    pub created_at: Timestamp,
    pub favorite: bool,
    pub tags: Seq<Seq<char>>,
    pub text: Option<Seq<char>>,
    pub image_path: Option<Seq<char>>,
    pub image_width: Option<u32>,
    pub image_height: Option<u32>,
    pub file_paths: Seq<Seq<char>>,
}

impl View for ClipboardRecord {
    type V = RecordModel;

    open spec fn view(&self) -> RecordModel {
        RecordModel {
            id: self.id@,
            kind: self.kind,
            content: self.content@,
            searchable_text: self.searchable_text@,
            created_at: self.created_at,
            favorite: self.favorite,
            tags: self.tags.deep_view(),
            text: self.text.deep_view(),
            image_path: self.image_path.deep_view(),
            image_width: self.image_width,
            image_height: self.image_height,
            file_paths: self.file_paths.deep_view(),
        }
    }
}

/// The models of a list of records, in order.
pub open spec fn records_view(records: Seq<ClipboardRecord>) -> Seq<RecordModel> {
    records.map_values(|r: ClipboardRecord| r@)
}

/// A copy of a list of strings.
pub fn copy_strings(v: &Vec<String>) -> (r: Vec<String>)
    ensures
        r.deep_view() == v.deep_view(),
{
    let mut r: Vec<String> = Vec::new();
    let n = v.len();
    for i in 0..n
        invariant
            n == v@.len(),
            r@.len() == i,
            r.deep_view() =~= v.deep_view().take(i as int),
    {
        let c = v[i].clone();
        let ghost prev = r@;
        r.push(c);
        assert(r@ == prev.push(c));
        assert(r.deep_view() =~= v.deep_view().take(i + 1)) by {
            assert(r.deep_view()[i as int] == c@);
            assert(v.deep_view()[i as int] == v@[i as int]@);
        }
    }
    assert(v.deep_view().take(n as int) =~= v.deep_view());
    r
}

/// A copy of an optional string.
pub fn copy_opt_string(v: &Option<String>) -> (r: Option<String>)
    ensures
        r.deep_view() == v.deep_view(),
{
    match v {
        Some(s) => Some(s.clone()),
        None => None,
    }
}

impl ClipboardRecord {
    /// A copy of this record.
    pub fn duplicate(&self) -> (r: ClipboardRecord)
        ensures
            r@ == self@,
    {
        ClipboardRecord {
            id: self.id.clone(),
            kind: self.kind,
            content: self.content.clone(),
            searchable_text: self.searchable_text.clone(),
            created_at: self.created_at,
            favorite: self.favorite,
            tags: copy_strings(&self.tags),
            text: copy_opt_string(&self.text),
            image_path: copy_opt_string(&self.image_path),
            image_width: self.image_width,
            image_height: self.image_height,
            file_paths: copy_strings(&self.file_paths),
        }
    }
}

/// Copies of `records`, in order.
pub fn copy_records(records: &Vec<ClipboardRecord>) -> (r: Vec<ClipboardRecord>)
    ensures
        records_view(r@) == records_view(records@),
{
    let mut r: Vec<ClipboardRecord> = Vec::new();
    let n = records.len();
    for i in 0..n
        invariant
            n == records@.len(),
            r@.len() == i,
            records_view(r@) =~= records_view(records@).take(i as int),
    {
        let c = records[i].duplicate();
        let ghost prev = r@;
        r.push(c);
        assert(r@ == prev.push(c));
        assert(records_view(r@) =~= records_view(records@).take(i + 1)) by {
            assert(records_view(r@)[i as int] == c@);
        }
    }
    assert(records_view(records@).take(n as int) =~= records_view(records@));
    r
}

} // verus!
