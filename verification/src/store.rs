use vstd::prelude::*;
use std::collections::VecDeque;
use crate::capture::capture_signature;
use crate::capture::files_signature;
use crate::capture::opt_bytes;
use crate::capture::plain_file_name;
use crate::capture::has_double_separator_start;
use crate::capture::text_signature;
use crate::capture::ClipboardCapture;
use crate::digest::hash_bytes;
use crate::digest::hash_text;
use crate::limits::clamp_limit;
use crate::limits::normalize_limit;
use crate::limits::DEFAULT_MAX_ENTRIES;
use crate::limits::MAX_ALLOWED_ENTRIES;
use crate::limits::MIN_ALLOWED_ENTRIES;
use crate::record::records_view;
use crate::record::ClipboardKind;
use crate::record::ClipboardRecord;
use crate::record::RecordModel;
use crate::record::Timestamp;
use crate::text::dedupe_spec;
use crate::text::dedupe_tags;
use crate::text::join_strings;

verus! {

broadcast use vstd::std_specs::vecdeque::axiom_spec_len;

/// The first index below `n` at which `p` holds, if there is one.
pub open spec fn first_where(n: int, p: spec_fn(int) -> bool) -> Option<int> {
    if exists|i: int| 0 <= i < n && #[trigger] p(i) {
        Some(choose|i: int| 0 <= i < n && #[trigger] p(i) && forall|j: int| 0 <= j < i ==> !#[trigger] p(j))
    } else {
        None
    }
}

proof fn lemma_first_where_found(n: int, p: spec_fn(int) -> bool, i: int)
    requires
        0 <= i < n,
        p(i),
        forall|j: int| 0 <= j < i ==> !#[trigger] p(j),
    ensures
        first_where(n, p) == Some(i),
{
    let k = choose|k: int| 0 <= k < n && #[trigger] p(k) && forall|j: int| 0 <= j < k ==> !#[trigger] p(j);
    assert(0 <= k < n && p(k) && forall|j: int| 0 <= j < k ==> !#[trigger] p(j));
    if k < i {
        assert(!p(k));
    }
    if i < k {
        assert(!p(i));
    }
}

proof fn lemma_least_witness(p: spec_fn(int) -> bool, k: int) -> (m: int)
    requires
        0 <= k,
        p(k),
    ensures
        0 <= m <= k,
        p(m),
        forall|j: int| 0 <= j < m ==> !#[trigger] p(j),
    decreases k,
{
    if exists|j: int| 0 <= j < k && #[trigger] p(j) {
        let j = choose|j: int| 0 <= j < k && #[trigger] p(j);
        lemma_least_witness(p, j)
    } else {
        k
    }
}

/// `first_where` gives the least index below `n` at which `p` holds, or none
/// where there is no such index.
pub proof fn lemma_first_where(n: int, p: spec_fn(int) -> bool)
    ensures
        match first_where(n, p) {
            Some(i) => 0 <= i < n && p(i) && forall|j: int| 0 <= j < i ==> !#[trigger] p(j),
            None => forall|j: int| 0 <= j < n ==> !#[trigger] p(j),
        },
{
    if exists|k: int| 0 <= k < n && #[trigger] p(k) {
        let k = choose|k: int| 0 <= k < n && #[trigger] p(k);
        let m = lemma_least_witness(p, k);
        lemma_first_where_found(n, p, m);
    }
}

proof fn lemma_first_where_none(n: int, p: spec_fn(int) -> bool)
    requires
        forall|j: int| 0 <= j < n ==> !#[trigger] p(j),
    ensures
        first_where(n, p) is None,
{
}

/// What a record's signature is, given the bytes of its image file where one
/// could be read: `"text:"` and its text, `"image:"` and the hash of the image
/// file (nothing after the colon where the file could not be read), or
/// `"files:"` and its paths joined with `'|'`.
pub open spec fn record_signature(r: RecordModel, image_bytes: Option<Seq<u8>>) -> Seq<char> {
    match r.kind {
        ClipboardKind::Text => text_signature(
            match r.text {
                Some(t) => t,
                None => Seq::empty(),
            },
        ),
        ClipboardKind::Image => "image:"@ + match image_bytes {
            Some(b) => hash_text(b),
            None => Seq::empty(),
        },
        ClipboardKind::Files => files_signature(r.file_paths),
    }
}

/// The image file whose bytes a record's signature needs: its image path, for
/// an image record that has one.
pub open spec fn record_image_source(r: RecordModel) -> Option<Seq<char>> {
    match r.kind {
        ClipboardKind::Image => r.image_path,
        _ => None,
    }
}

/// The signature of `record`, given the bytes of its image file where one was
/// read (see `image_to_read`).
pub fn signature_for_record(record: &ClipboardRecord, image_bytes: &Option<Vec<u8>>) -> (r: String)
    ensures
        r@ == record_signature(record@, opt_bytes(*image_bytes)),
{
    match record.kind {
        ClipboardKind::Text => {
            let mut s = "text:".to_owned();
            match &record.text {
                Some(t) => s.append(t.as_str()),
                None => {
                    assert(s@ =~= "text:"@ + Seq::<char>::empty());
                },
            }
            s
        },
        ClipboardKind::Image => {
            let mut s = "image:".to_owned();
            match image_bytes {
                Some(b) => {
                    let h = hash_bytes(b.as_slice());
                    s.append(h.as_str());
                },
                None => {
                    assert(s@ =~= "image:"@ + Seq::<char>::empty());
                },
            }
            s
        },
        ClipboardKind::Files => {
            let mut s = "files:".to_owned();
            let joined = join_strings(&record.file_paths, "|");
            s.append(joined.as_str());
            s
        },
    }
}

/// The image file that must be read to know `record`'s signature, if any.
pub fn image_to_read(record: &ClipboardRecord) -> (r: Option<String>)
    ensures
        r.deep_view() == record_image_source(record@),
{
    match record.kind {
        ClipboardKind::Image => match &record.image_path {
            Some(p) => Some(p.clone()),
            None => None,
        },
        _ => None,
    }
}

/// The state saved between runs: the history limit and the records.
#[derive(Debug)]
pub struct PersistedClipboardState {
    pub max_entries: usize,
    pub entries: Vec<ClipboardRecord>,
}

/// What the history window is sent: the records and the history limit.
#[derive(Debug)]
pub struct ClipboardPayload {
    pub entries: Vec<ClipboardRecord>,
    pub max_entries: usize,
}

/// The clipboard history: newest record first, never more records than the
/// limit, and the signature of the content last seen on the clipboard.
pub struct ClipboardStore {
    entries: VecDeque<ClipboardRecord>,
    max_entries: usize,
    last_seen_signature: Option<String>,
    storage_path: String,
    image_dir: String,
}

/// A store as plain values.
#[verifier::ext_equal]
pub struct StoreModel {
    pub entries: Seq<RecordModel>,
    pub max_entries: nat,
    pub last_seen_signature: Option<Seq<char>>,
    pub storage_path: Seq<char>,
    pub image_dir: Seq<char>,
}

/// A store's limit is in the accepted range and it holds no more records than that.
pub open spec fn model_wf(m: StoreModel) -> bool {
    &&& MIN_ALLOWED_ENTRIES <= m.max_entries <= MAX_ALLOWED_ENTRIES
    &&& m.entries.len() <= m.max_entries
}

/// `entries` cut down to `max` records, the oldest going first.
pub open spec fn evict_to(entries: Seq<RecordModel>, max: nat) -> Seq<RecordModel> {
    if entries.len() > max {
        entries.take(max as int)
    } else {
        entries
    }
}

/// The records that cutting `entries` down to `max` removes, in the order they
/// are removed: the oldest first.
pub open spec fn evicted_by(entries: Seq<RecordModel>, max: nat) -> Seq<RecordModel> {
    if entries.len() > max {
        Seq::new((entries.len() - max) as nat, |k: int| entries[entries.len() - 1 - k])
    } else {
        Seq::empty()
    }
}

/// `entries` without the records whose image file is missing: the record at
/// index `i` stays where it has no image path or `present[i]` holds.
pub open spec fn retain_present(entries: Seq<RecordModel>, present: Seq<bool>) -> Seq<RecordModel>
    decreases entries.len(),
{
    if entries.len() == 0 {
        Seq::empty()
    } else {
        let kept = retain_present(entries.drop_last(), present);
        let last = entries.last();
        if last.image_path is None || present[entries.len() - 1] {
            kept.push(last)
        } else {
            kept
        }
    }
}

proof fn lemma_retain_present_len(entries: Seq<RecordModel>, present: Seq<bool>)
    ensures
        retain_present(entries, present).len() <= entries.len(),
    decreases entries.len(),
{
    if entries.len() > 0 {
        lemma_retain_present_len(entries.drop_last(), present);
    }
}

/// The records of the saved state, if one was read.
pub open spec fn restored_entries(restored: Option<PersistedClipboardState>) -> Seq<RecordModel> {
    match restored {
        Some(s) => records_view(s.entries@),
        None => Seq::empty(),
    }
}

/// The limit of the saved state brought into range, or the default limit.
pub open spec fn restored_limit(restored: Option<PersistedClipboardState>) -> nat {
    match restored {
        Some(s) => clamp_limit(s.max_entries as int) as nat,
        None => DEFAULT_MAX_ENTRIES as nat,
    }
}

/// The signature of the first saved record, if there is one.
pub open spec fn restored_last_seen(
    restored: Option<PersistedClipboardState>,
    first_image: Option<Seq<u8>>,
) -> Option<Seq<char>> {
    let e = restored_entries(restored);
    if e.len() > 0 {
        Some(record_signature(e[0], first_image))
    } else {
        None
    }
}

/// The index of the first record whose id is `id`, if there is one.
pub open spec fn first_with_id(entries: Seq<RecordModel>, id: Seq<char>) -> Option<int> {
    first_where(entries.len() as int, |k: int| entries[k].id == id)
}

/// `r` with its favorite mark flipped.
pub open spec fn favorite_flipped(r: RecordModel) -> RecordModel {
    RecordModel { favorite: !r.favorite, ..r }
}

/// The signature of the first of `entries`, if there is one.
pub open spec fn front_signature(entries: Seq<RecordModel>, image_bytes: Option<Seq<u8>>) -> Option<
    Seq<char>,
> {
    if entries.len() > 0 {
        Some(record_signature(entries[0], image_bytes))
    } else {
        None
    }
}

/// The image file whose bytes the signature of the first of `entries` needs.
pub open spec fn front_image_source(entries: Seq<RecordModel>) -> Option<Seq<char>> {
    if entries.len() > 0 {
        record_image_source(entries[0])
    } else {
        None
    }
}

/// What deleting a record gives back: copies of the records kept, and the record removed.
pub struct DeleteOutcome {
    pub entries: Vec<ClipboardRecord>,
    pub removed: ClipboardRecord,
}

/// The bytes of each record's image file, where one was read.
pub open spec fn images_view(images: Seq<Option<Vec<u8>>>) -> Seq<Option<Seq<u8>>> {
    images.map_values(|o: Option<Vec<u8>>| opt_bytes(o))
}

/// The index of the first record whose signature is `sig`, if there is one.
pub open spec fn first_signature_match(
    entries: Seq<RecordModel>,
    images: Seq<Option<Seq<u8>>>,
    sig: Seq<char>,
) -> Option<int> {
    first_where(entries.len() as int, |k: int| record_signature(entries[k], images[k]) == sig)
}

/// The record a capture makes, with the given id, favorite mark, tags, time,
/// and (for an image) image file path.
pub open spec fn record_from_capture(
    id: Seq<char>,
    favorite: bool,
    tags: Seq<Seq<char>>,
    capture: ClipboardCapture,
    now: Timestamp,
    image_path: Seq<char>,
) -> RecordModel {
    match capture {
        ClipboardCapture::Text { display, searchable_text, text, .. } => RecordModel {
            id,
            kind: ClipboardKind::Text,
            content: display@,
            searchable_text: searchable_text@,
            created_at: now,
            favorite,
            tags,
            text: Some(text@),
            image_path: None,
            image_width: None,
            image_height: None,
            file_paths: Seq::empty(),
        },
        ClipboardCapture::Image { display, searchable_text, width, height, .. } => RecordModel {
            id,
            kind: ClipboardKind::Image,
            content: display@,
            searchable_text: searchable_text@,
            created_at: now,
            favorite,
            tags,
            text: None,
            image_path: Some(image_path),
            image_width: Some(width),
            image_height: Some(height),
            file_paths: Seq::empty(),
        },
        ClipboardCapture::Files { display, searchable_text, file_paths, .. } => RecordModel {
            id,
            kind: ClipboardKind::Files,
            content: display@,
            searchable_text: searchable_text@,
            created_at: now,
            favorite,
            tags,
            text: None,
            image_path: None,
            image_width: None,
            image_height: None,
            file_paths: file_paths.deep_view(),
        },
    }
}

/// The records after a capture that is not a repeat lands: the record with
/// the same signature updated and moved to the front, or else a new record in
/// front; nothing removed yet.
pub open spec fn upserted_entries(
    entries: Seq<RecordModel>,
    images: Seq<Option<Seq<u8>>>,
    capture: ClipboardCapture,
    now: Timestamp,
    fresh_id: Seq<char>,
    image_path: Seq<char>,
) -> Seq<RecordModel> {
    match first_signature_match(entries, images, capture_signature(capture)) {
        Some(i) => seq![
            record_from_capture(
                entries[i].id,
                entries[i].favorite,
                entries[i].tags,
                capture,
                now,
                image_path,
            ),
        ] + entries.remove(i),
        None => seq![record_from_capture(fresh_id, false, Seq::empty(), capture, now, image_path)]
            + entries,
    }
}

/// An image file to write: where, and its PNG bytes.
pub struct ImageWrite {
    pub path: String,
    pub png_bytes: Vec<u8>,
}

/// An image file to write, as plain values.
pub open spec fn image_write_view(w: Option<ImageWrite>) -> Option<(Seq<char>, Seq<u8>)> {
    match w {
        Some(w) => Some((w.path@, w.png_bytes@)),
        None => None,
    }
}

/// The image file a capture needs written: for an image, its PNG bytes at `image_path`.
pub open spec fn image_write_of(capture: ClipboardCapture, image_path: Seq<char>) -> Option<
    (Seq<char>, Seq<u8>),
> {
    match capture {
        ClipboardCapture::Image { png_bytes, .. } => Some((image_path, png_bytes@)),
        _ => None,
    }
}

/// What storing a capture gives back: whether the history changed, the image
/// file to write, and the records removed for the limit, oldest first.
pub struct UpsertOutcome {
    pub changed: bool,
    pub image_write: Option<ImageWrite>,
    pub evicted: Vec<ClipboardRecord>,
}

/// How storing `capture` takes the store from `pre` to `post` with outcome `out`.
pub open spec fn upsert_post(
    pre: StoreModel,
    post: StoreModel,
    out: UpsertOutcome,
    capture: ClipboardCapture,
    images: Seq<Option<Seq<u8>>>,
    now: Timestamp,
    fresh_id: Seq<char>,
    image_path: Seq<char>,
) -> bool {
    let sig = capture_signature(capture);
    if pre.last_seen_signature == Some(sig) {
        &&& post == pre
        &&& !out.changed
        &&& out.image_write is None
        &&& out.evicted@.len() == 0
    } else {
        let grown = upserted_entries(pre.entries, images, capture, now, fresh_id, image_path);
        &&& out.changed
        &&& post == (StoreModel {
            entries: evict_to(grown, pre.max_entries),
            last_seen_signature: Some(sig),
            ..pre
        })
        &&& records_view(out.evicted@) == evicted_by(grown, pre.max_entries)
        &&& image_write_view(out.image_write) == image_write_of(capture, image_path)
    }
}

/// The record a capture makes with the given id, mark, tags, time and image
/// file path, and the image file it needs written.
fn build_record(
    id: String,
    favorite: bool,
    tags: Vec<String>,
    capture: ClipboardCapture,
    now: Timestamp,
    image_path: String,
) -> (r: (ClipboardRecord, Option<ImageWrite>))
    ensures
        r.0@ == record_from_capture(id@, favorite, tags.deep_view(), capture, now, image_path@),
        image_write_view(r.1) == image_write_of(capture, image_path@),
{
    let no_paths: Vec<String> = Vec::new();
    assert(no_paths.deep_view() =~= Seq::<Seq<char>>::empty());
    match capture {
        ClipboardCapture::Text { display, searchable_text, text, .. } => (
            ClipboardRecord {
                id,
                kind: ClipboardKind::Text,
                content: display,
                searchable_text,
                created_at: now,
                favorite,
                tags,
                text: Some(text),
                image_path: None,
                image_width: None,
                image_height: None,
                file_paths: no_paths,
            },
            None,
        ),
        ClipboardCapture::Image { display, searchable_text, png_bytes, width, height, .. } => (
            ClipboardRecord {
                id,
                kind: ClipboardKind::Image,
                content: display,
                searchable_text,
                created_at: now,
                favorite,
                tags,
                text: None,
                image_path: Some(image_path.clone()),
                image_width: Some(width),
                image_height: Some(height),
                file_paths: no_paths,
            },
            Some(ImageWrite { path: image_path, png_bytes }),
        ),
        ClipboardCapture::Files { display, searchable_text, file_paths, .. } => (
            ClipboardRecord {
                id,
                kind: ClipboardKind::Files,
                content: display,
                searchable_text,
                created_at: now,
                favorite,
                tags,
                text: None,
                image_path: None,
                image_width: None,
                image_height: None,
                file_paths,
            },
            None,
        ),
    }
}

/// The id of the record a capture lands in: that of the first record with the
/// capture's signature, or else the fresh id.
pub open spec fn landing_id(
    entries: Seq<RecordModel>,
    images: Seq<Option<Seq<u8>>>,
    sig: Seq<char>,
    fresh_id: Seq<char>,
) -> Seq<char> {
    match first_signature_match(entries, images, sig) {
        Some(i) => entries[i].id,
        None => fresh_id,
    }
}

/// The name of the image file of record `id`: the id followed by `".png"`.
pub open spec fn asset_file_name(id: Seq<char>) -> Seq<char> {
    id + ".png"@
}

/// Whether `joined` is `name` appended to the directory `dir`: just `name`
/// where `dir` is empty; `dir` then `name` where `dir` ends in `'/'`; `dir`,
/// a separator (`'/'` or `'\\'`), then `name` where `dir` ends in any other
/// character but `'\\'` or `':'`; and `dir`, at most one separator, then `name`
/// where `dir` ends in `'\\'` or `':'` (whether a separator comes depends on
/// the platform there).
pub open spec fn joined_path(dir: Seq<char>, name: Seq<char>, joined: Seq<char>) -> bool {
    if dir.len() == 0 {
        joined == name
    } else if dir.last() == '/' {
        joined == dir + name
    } else if dir.last() != '\\' && dir.last() != ':' {
        ||| joined == dir + seq!['/'] + name
        ||| joined == dir + seq!['\\'] + name
    } else {
        ||| joined == dir + name
        ||| joined == dir + seq!['/'] + name
        ||| joined == dir + seq!['\\'] + name
    }
}

/// `name` appended to the directory path `dir` (`std::path::Path::join`).
/// Trusted: where `name` is a plain file name (see `plain_file_name`), so that
/// it is neither absolute nor prefixed on any platform, and `dir` does not
/// begin with two separators (a Windows UNC, device or verbatim path, which
/// std may normalize on joining), the result is as `joined_path` says: a
/// separator is added after a non-empty `dir` unless it ends in one; only
/// after `'\\'` (a separator on Windows alone) or `':'` (a bare Windows drive)
/// does the platform decide. Nothing is stated for other arguments.
#[verifier::external_body]
fn join_path(dir: &String, name: &String) -> (r: String)
    ensures
        plain_file_name(name@) && !has_double_separator_start(dir@) ==> joined_path(dir@, name@, r@),
{
    std::path::Path::new(dir.as_str()).join(name.as_str()).to_string_lossy().to_string()
}

/// The records of `v`, in order, in a double-ended queue.
fn into_deque(v: Vec<ClipboardRecord>) -> (d: VecDeque<ClipboardRecord>)
    ensures
        d@ == v@,
{
    let ghost all = v@;
    let mut v = v;
    let mut d: VecDeque<ClipboardRecord> = VecDeque::new();
    while v.len() > 0
        invariant
            all == v@ + d@,
        decreases v@.len(),
    {
        let ghost vb = v@;
        let ghost db = d@;
        let r = v.pop().unwrap();
        d.push_front(r);
        assert(vb =~= v@.push(r));
        assert(v@ + d@ =~= vb + db);
    }
    assert(all =~= d@);
    d
}

/// Copies of the records of `records`, in order.
fn copy_deque(records: &VecDeque<ClipboardRecord>) -> (r: Vec<ClipboardRecord>)
    ensures
        records_view(r@) == records_view(records@),
{
    let mut r: Vec<ClipboardRecord> = Vec::new();
    let n = records.len();
    for i in 0..n
        invariant
            n == records@.len(),
            r@.len() == i,
            records_view(r@) =~= records_view(records@).take(i as int),
    {
        let c = records[i].duplicate();
        let ghost prev = r@;
        r.push(c);
        assert(r@ == prev.push(c));
        assert(records_view(r@) =~= records_view(records@).take(i + 1)) by {
            assert(records_view(r@)[i as int] == c@);
        }
    }
    assert(records_view(records@).take(n as int) =~= records_view(records@));
    r
}

impl ClipboardStore {
    /// The store as plain values.
    pub closed spec fn model(&self) -> StoreModel {
        StoreModel {
            entries: records_view(self.entries@),
            max_entries: self.max_entries as nat,
            last_seen_signature: self.last_seen_signature.deep_view(),
            storage_path: self.storage_path@,
            image_dir: self.image_dir@,
        }
    }

    /// The store keeps its limit in range and holds no more records than it.
    pub open spec fn wf(&self) -> bool {
        model_wf(self.model())
    }

    /// Removes the oldest records until no more than the limit remain, and
    /// gives back those removed, oldest first, so that their image files can go.
    pub fn enforce_limit(&mut self) -> (evicted: Vec<ClipboardRecord>)
        ensures
            final(self).model() == (StoreModel {
                entries: evict_to(old(self).model().entries, old(self).model().max_entries),
                ..old(self).model()
            }),
            records_view(evicted@) == evicted_by(
                old(self).model().entries,
                old(self).model().max_entries,
            ),
    {
        let ghost pre = records_view(self.entries@);
        let ghost max = self.max_entries as nat;
        let mut evicted: Vec<ClipboardRecord> = Vec::new();
        while self.entries.len() > self.max_entries
            invariant
                self.max_entries == max,
                self.storage_path == old(self).storage_path,
                self.image_dir == old(self).image_dir,
                self.last_seen_signature == old(self).last_seen_signature,
                pre == records_view(old(self).entries@),
                max == old(self).max_entries,
                max <= self.entries@.len() <= pre.len() || (self.entries@.len() == pre.len() && pre.len() <= max),
                records_view(self.entries@) == pre.take(self.entries@.len() as int),
                evicted@.len() == pre.len() - self.entries@.len(),
                forall|k: int|
                    0 <= k < evicted@.len() ==> (#[trigger] evicted@[k])@ == pre[pre.len() - 1 - k],
            decreases self.entries@.len(),
        {
            let ghost before = self.entries@;
            let r = self.entries.pop_back().unwrap();
            assert(self.entries@ =~= before.drop_last());
            assert(records_view(self.entries@) =~= pre.take(self.entries@.len() as int));
            assert(r == before[before.len() - 1]);
            assert(records_view(before)[before.len() - 1] == r@);
            assert(pre.take(before.len() as int)[before.len() - 1] == pre[before.len() - 1]);
            let ghost ev_before = evicted@;
            evicted.push(r);
            assert(evicted@ == ev_before.push(r));
        }
        proof {
            if pre.len() > max {
                assert(records_view(evicted@) =~= evicted_by(pre, max));
            } else {
                assert(records_view(evicted@) =~= evicted_by(pre, max));
                assert(pre.take(pre.len() as int) =~= pre);
            }
            assert(records_view(self.entries@) =~= evict_to(pre, max));
        }
        evicted
    }

    /// Drops the records whose image file is missing: the record at index `i`
    /// stays where it has no image path or `image_present[i]` holds.
    pub fn remove_missing_assets(&mut self, image_present: &Vec<bool>)
        requires
            image_present@.len() == old(self).model().entries.len(),
        ensures
            final(self).model() == (StoreModel {
                entries: retain_present(old(self).model().entries, image_present@),
                ..old(self).model()
            }),
            final(self).model().entries.len() <= old(self).model().entries.len(),
            old(self).wf() ==> final(self).wf(),
    {
        let ghost pre = records_view(self.entries@);
        let mut rest: VecDeque<ClipboardRecord> = VecDeque::new();
        std::mem::swap(&mut rest, &mut self.entries);
        let mut kept: VecDeque<ClipboardRecord> = VecDeque::new();
        let n = rest.len();
        let mut i: usize = 0;
        while i < n
            invariant
                n == pre.len(),
                i <= n,
                records_view(rest@) == pre.subrange(i as int, n as int),
                rest@.len() == n - i,
                image_present@.len() == n,
                records_view(kept@) == retain_present(pre.take(i as int), image_present@),
            decreases n - i,
        {
            let ghost rest_before = rest@;
            let r = rest.pop_front().unwrap();
            assert(records_view(rest_before)[0] == r@);
            assert(r@ == pre[i as int]);
            assert(rest@ =~= rest_before.subrange(1, rest_before.len() as int));
            assert forall|k: int| 0 <= k < rest@.len() implies (#[trigger] records_view(rest@)[k]) == pre[i + 1 + k] by {
                assert(records_view(rest@)[k] == rest_before[k + 1]@);
                assert(records_view(rest_before)[k + 1] == pre.subrange(i as int, n as int)[k + 1]);
            }
            assert(records_view(rest@) =~= pre.subrange(i + 1, n as int));
            assert(pre.take(i + 1).drop_last() =~= pre.take(i as int));
            let keep = match &r.image_path {
                Some(_) => image_present[i],
                None => true,
            };
            if keep {
                let ghost kb = kept@;
                kept.push_back(r);
                assert(records_view(kept@) =~= records_view(kb).push(r@));
            }
            i = i + 1;
        }
        assert(pre.take(n as int) =~= pre);
        self.entries = kept;
        proof {
            lemma_retain_present_len(pre, image_present@);
        }
    }

    /// Builds the store at start-up from the state saved before, if any was
    /// read. The last seen signature is that of the first saved record (whose
    /// image file, for an image record, was read into `first_image`); then the
    /// records whose image file is missing are dropped (`image_present[i]` tells
    /// whether the image file of record `i` exists) and the oldest records beyond
    /// the limit are removed and given back, so that their image files can go.
    pub fn load(
        restored: Option<PersistedClipboardState>,
        first_image: Option<Vec<u8>>,
        image_present: Vec<bool>,
        storage_path: String,
        image_dir: String,
    ) -> (r: (ClipboardStore, Vec<ClipboardRecord>))
        requires
            restored matches Some(s) ==> image_present@.len() == s.entries@.len(),
        ensures
            r.0.wf(),
            r.0.model() == (StoreModel {
                entries: evict_to(
                    retain_present(restored_entries(restored), image_present@),
                    restored_limit(restored),
                ),
                max_entries: restored_limit(restored),
                last_seen_signature: restored_last_seen(restored, opt_bytes(first_image)),
                storage_path: storage_path@,
                image_dir: image_dir@,
            }),
            records_view(r.1@) == evicted_by(
                retain_present(restored_entries(restored), image_present@),
                restored_limit(restored),
            ),
    {
        let mut store = match restored {
            Some(state) => {
                let last_seen = if state.entries.len() > 0 {
                    Some(signature_for_record(&state.entries[0], &first_image))
                } else {
                    None
                };
                ClipboardStore {
                    entries: into_deque(state.entries),
                    max_entries: normalize_limit(state.max_entries),
                    last_seen_signature: last_seen,
                    storage_path,
                    image_dir,
                }
            },
            None => ClipboardStore {
                entries: VecDeque::new(),
                max_entries: DEFAULT_MAX_ENTRIES,
                last_seen_signature: None,
                storage_path,
                image_dir,
            },
        };
        assert(records_view(store.entries@) =~= restored_entries(restored));
        if image_present.len() == store.entries.len() {
            store.remove_missing_assets(&image_present);
        } else {
            assert(retain_present(Seq::<RecordModel>::empty(), image_present@) =~= Seq::<RecordModel>::empty());
        }
        let evicted = store.enforce_limit();
        (store, evicted)
    }

    /// Takes out the record at index `i`.
    fn remove_at(&mut self, i: usize) -> (r: ClipboardRecord)
        requires
            i < old(self).entries@.len(),
        ensures
            r == old(self).entries@[i as int],
            final(self).entries@ == old(self).entries@.remove(i as int),
            final(self).max_entries == old(self).max_entries,
            final(self).last_seen_signature == old(self).last_seen_signature,
            final(self).storage_path == old(self).storage_path,
            final(self).image_dir == old(self).image_dir,
    {
        self.entries.remove(i).unwrap()
    }

    /// How many records the history holds.
    pub fn len(&self) -> (r: usize)
        ensures
            r == self.model().entries.len(),
    {
        self.entries.len()
    }

    /// The history limit.
    pub fn max_entries(&self) -> (r: usize)
        ensures
            r == self.model().max_entries,
    {
        self.max_entries
    }

    /// Where the history is saved.
    pub fn storage_path(&self) -> (r: &String)
        ensures
            r@ == self.model().storage_path,
    {
        &self.storage_path
    }

    /// The directory that holds the image files.
    pub fn image_dir(&self) -> (r: &String)
        ensures
            r@ == self.model().image_dir,
    {
        &self.image_dir
    }

    /// The signature of the content last seen on the clipboard.
    pub fn last_seen_signature(&self) -> (r: &Option<String>)
        ensures
            r.deep_view() == self.model().last_seen_signature,
    {
        &self.last_seen_signature
    }

    /// Copies of the records, newest first.
    pub fn list(&self) -> (r: Vec<ClipboardRecord>)
        ensures
            records_view(r@) == self.model().entries,
    {
        copy_deque(&self.entries)
    }

    /// What the history window is sent: the records and the limit.
    pub fn payload(&self) -> (r: ClipboardPayload)
        ensures
            records_view(r.entries@) == self.model().entries,
            r.max_entries == self.model().max_entries,
    {
        ClipboardPayload { entries: copy_deque(&self.entries), max_entries: self.max_entries }
    }

    /// What is saved between runs: the limit and the records.
    pub fn snapshot(&self) -> (r: PersistedClipboardState)
        ensures
            records_view(r.entries@) == self.model().entries,
            r.max_entries == self.model().max_entries,
    {
        PersistedClipboardState { max_entries: self.max_entries, entries: copy_deque(&self.entries) }
    }

    /// A copy of the first record whose id is `id`, if there is one.
    pub fn get_by_id(&self, id: &str) -> (r: Option<ClipboardRecord>)
        ensures
            match first_with_id(self.model().entries, id@) {
                Some(i) => r matches Some(rec) && rec@ == self.model().entries[i],
                None => r is None,
            },
    {
        match self.position_of_id(id) {
            Some(i) => Some(self.entries[i].duplicate()),
            None => None,
        }
    }

    /// The index of the first record whose id is `id`, if there is one.
    fn position_of_id(&self, id: &str) -> (r: Option<usize>)
        ensures
            r matches Some(i) ==> i < self.entries@.len(),
            match r {
                Some(i) => first_with_id(self.model().entries, id@) == Some(i as int),
                None => first_with_id(self.model().entries, id@) is None,
            },
    {
        let ghost es = self.model().entries;
        let ghost p = |k: int| es[k].id == id@;
        let key = id.to_owned();
        let n = self.entries.len();
        for i in 0..n
            invariant
                n == self.entries@.len(),
                key@ == id@,
                es == self.model().entries,
                p == (|k: int| es[k].id == id@),
                forall|j: int| 0 <= j < i ==> !#[trigger] p(j),
        {
            assert(es[i as int] == self.entries@[i as int]@);
            if self.entries[i].id == key {
                proof {
                    lemma_first_where_found(es.len() as int, p, i as int);
                }
                return Some(i);
            }
        }
        proof {
            lemma_first_where_none(es.len() as int, p);
        }
        None
    }

    /// For each record in order, the image file that must be read to know its
    /// signature, if any.
    pub fn images_to_read(&self) -> (r: Vec<Option<String>>)
        ensures
            r@.len() == self.model().entries.len(),
            forall|i: int|
                0 <= i < r@.len() ==> (#[trigger] r@[i]).deep_view() == record_image_source(
                    self.model().entries[i],
                ),
    {
        let mut r: Vec<Option<String>> = Vec::new();
        let n = self.entries.len();
        for i in 0..n
            invariant
                n == self.entries@.len(),
                r@.len() == i,
                forall|k: int|
                    0 <= k < i ==> (#[trigger] r@[k]).deep_view() == record_image_source(
                        self.model().entries[k],
                    ),
        {
            r.push(image_to_read(&self.entries[i]));
        }
        r
    }

    /// Flips the favorite mark of the first record whose id is `id` and gives
    /// back copies of all records; none where no record has that id.
    pub fn toggle_favorite(&mut self, id: &str) -> (r: Option<Vec<ClipboardRecord>>)
        ensures
            old(self).wf() ==> final(self).wf(),
            match first_with_id(old(self).model().entries, id@) {
                None => r is None && final(self).model() == old(self).model(),
                Some(i) => {
                    &&& final(self).model() == (StoreModel {
                        entries: old(self).model().entries.update(
                            i,
                            favorite_flipped(old(self).model().entries[i]),
                        ),
                        ..old(self).model()
                    })
                    &&& r matches Some(l) && records_view(l@) == final(self).model().entries
                },
            },
    {
        match self.position_of_id(id) {
            None => None,
            Some(i) => {
                let ghost pre = records_view(self.entries@);
                let mut rec = self.remove_at(i);
                rec.favorite = !rec.favorite;
                self.entries.insert(i, rec);
                assert(records_view(self.entries@) =~= pre.update(
                    i as int,
                    favorite_flipped(pre[i as int]),
                ));
                Some(self.list())
            },
        }
    }

    /// Replaces the tags of the first record whose id is `id` with the cleaned
    /// `tags` (see `dedupe_tags`) and gives back copies of all records; none
    /// where no record has that id.
    pub fn update_tags(&mut self, id: &str, tags: Vec<String>) -> (r: Option<Vec<ClipboardRecord>>)
        ensures
            old(self).wf() ==> final(self).wf(),
            match first_with_id(old(self).model().entries, id@) {
                None => r is None && final(self).model() == old(self).model(),
                Some(i) => {
                    &&& final(self).model() == (StoreModel {
                        entries: old(self).model().entries.update(
                            i,
                            RecordModel {
                                tags: dedupe_spec(tags.deep_view()),
                                ..old(self).model().entries[i]
                            },
                        ),
                        ..old(self).model()
                    })
                    &&& r matches Some(l) && records_view(l@) == final(self).model().entries
                },
            },
    {
        match self.position_of_id(id) {
            None => None,
            Some(i) => {
                let ghost pre = records_view(self.entries@);
                let cleaned = dedupe_tags(tags);
                let mut rec = self.remove_at(i);
                rec.tags = cleaned;
                self.entries.insert(i, rec);
                assert(records_view(self.entries@) =~= pre.update(
                    i as int,
                    RecordModel { tags: dedupe_spec(tags.deep_view()), ..pre[i as int] },
                ));
                Some(self.list())
            },
        }
    }

    /// Sets the history limit to `limit` brought into range, removes the oldest
    /// records beyond it, and gives back copies of the records kept and the
    /// records removed (oldest first), so that their image files can go.
    pub fn set_limit(&mut self, limit: usize) -> (r: (Vec<ClipboardRecord>, Vec<ClipboardRecord>))
        ensures
            final(self).wf(),
            final(self).model() == (StoreModel {
                entries: evict_to(old(self).model().entries, clamp_limit(limit as int) as nat),
                max_entries: clamp_limit(limit as int) as nat,
                ..old(self).model()
            }),
            records_view(r.0@) == final(self).model().entries,
            records_view(r.1@) == evicted_by(
                old(self).model().entries,
                clamp_limit(limit as int) as nat,
            ),
    {
        self.max_entries = normalize_limit(limit);
        let evicted = self.enforce_limit();
        (self.list(), evicted)
    }

    /// The image file to read before `delete_record(id, ..)`: that of the record
    /// that will then be first, where its signature needs one.
    pub fn image_to_read_after_delete(&self, id: &str) -> (r: Option<String>)
        ensures
            r.deep_view() == match first_with_id(self.model().entries, id@) {
                Some(i) => front_image_source(self.model().entries.remove(i)),
                None => None,
            },
    {
        match self.position_of_id(id) {
            None => None,
            Some(i) => {
                let ghost rest = self.model().entries.remove(i as int);
                if self.entries.len() < 2 {
                    assert(rest.len() == 0);
                    None
                } else {
                    let j: usize = if i == 0 { 1 } else { 0 };
                    assert(rest[0] == self.model().entries[j as int]);
                    image_to_read(&self.entries[j])
                }
            },
        }
    }

    /// Removes the first record whose id is `id`, and takes as last seen the
    /// signature of the record that is then first (`front_image` holds its image
    /// file where `image_to_read_after_delete` named one). Gives back copies of
    /// the records kept and the record removed, so that its image file can go;
    /// none where no record has that id.
    pub fn delete_record(&mut self, id: &str, front_image: &Option<Vec<u8>>) -> (r: Option<
        DeleteOutcome,
    >)
        ensures
            old(self).wf() ==> final(self).wf(),
            match first_with_id(old(self).model().entries, id@) {
                None => r is None && final(self).model() == old(self).model(),
                Some(i) => {
                    &&& final(self).model() == (StoreModel {
                        entries: old(self).model().entries.remove(i),
                        last_seen_signature: front_signature(
                            old(self).model().entries.remove(i),
                            opt_bytes(*front_image),
                        ),
                        ..old(self).model()
                    })
                    &&& r matches Some(o) && o.removed@ == old(self).model().entries[i]
                        && records_view(o.entries@) == final(self).model().entries
                },
            },
    {
        match self.position_of_id(id) {
            None => None,
            Some(i) => {
                let ghost pre = records_view(self.entries@);
                let removed = self.remove_at(i);
                assert(records_view(self.entries@) =~= pre.remove(i as int));
                self.last_seen_signature = if self.entries.len() > 0 {
                    Some(signature_for_record(&self.entries[0], front_image))
                } else {
                    None
                };
                Some(DeleteOutcome { entries: self.list(), removed })
            },
        }
    }

    /// Takes the signature of `record` as the last seen one (`image_bytes`
    /// holds its image file where `image_to_read` named one), so that the
    /// content just put back on the clipboard is not stored again.
    pub fn mark_last_seen_from_record(&mut self, record: &ClipboardRecord, image_bytes: &Option<Vec<u8>>)
        ensures
            old(self).wf() ==> final(self).wf(),
            final(self).model() == (StoreModel {
                last_seen_signature: Some(record_signature(record@, opt_bytes(*image_bytes))),
                ..old(self).model()
            }),
    {
        self.last_seen_signature = Some(signature_for_record(record, image_bytes));
    }

    /// Whether `capture` is what the clipboard held when last seen, so that
    /// storing it would change nothing.
    pub fn is_repeat(&self, capture: &ClipboardCapture) -> (r: bool)
        ensures
            r == (self.model().last_seen_signature == Some(capture_signature(*capture))),
    {
        match &self.last_seen_signature {
            Some(s) => *s == *capture.signature(),
            None => false,
        }
    }

    /// The index of the first record whose signature (given the bytes of each
    /// record's image file in `images`) is `sig`, if there is one.
    fn position_of_signature(&self, sig: &String, images: &Vec<Option<Vec<u8>>>) -> (r: Option<usize>)
        requires
            images@.len() == self.entries@.len(),
        ensures
            r matches Some(i) ==> i < self.entries@.len(),
            match r {
                Some(i) => first_signature_match(self.model().entries, images_view(images@), sig@)
                    == Some(i as int),
                None => first_signature_match(
                    self.model().entries,
                    images_view(images@),
                    sig@,
                ) is None,
            },
    {
        let ghost es = self.model().entries;
        let ghost iv = images_view(images@);
        let ghost p = |k: int| record_signature(es[k], iv[k]) == sig@;
        let n = self.entries.len();
        for i in 0..n
            invariant
                n == self.entries@.len(),
                images@.len() == n,
                es == self.model().entries,
                iv == images_view(images@),
                p == (|k: int| record_signature(es[k], iv[k]) == sig@),
                forall|j: int| 0 <= j < i ==> !#[trigger] p(j),
        {
            assert(es[i as int] == self.entries@[i as int]@);
            assert(iv[i as int] == opt_bytes(images@[i as int]));
            let s = signature_for_record(&self.entries[i], &images[i]);
            if s == *sig {
                proof {
                    lemma_first_where_found(es.len() as int, p, i as int);
                }
                return Some(i);
            }
        }
        proof {
            lemma_first_where_none(es.len() as int, p);
        }
        None
    }

    /// Stores a capture, given the time and the fresh id it gets if it is new,
    /// and the path its image file gets if it is an image. Nothing changes where
    /// the capture is what the clipboard held when last seen. Otherwise it is
    /// taken as last seen; a record with the same signature (`entry_images`
    /// holds each record's image file where `images_to_read` named one) is
    /// updated and moved to the front, keeping its id, mark and tags; else a new
    /// record goes to the front. Then the oldest records beyond the limit are
    /// removed. The outcome says whether anything changed, which image file to
    /// write (before the removed records' image files are deleted), and which
    /// records were removed, oldest first.
    pub fn upsert_capture_at(
        &mut self,
        capture: ClipboardCapture,
        entry_images: Vec<Option<Vec<u8>>>,
        now: Timestamp,
        fresh_id: String,
        image_path: String,
    ) -> (r: UpsertOutcome)
        requires
            old(self).wf(),
            entry_images@.len() == old(self).model().entries.len(),
        ensures
            final(self).wf(),
            upsert_post(
                old(self).model(),
                final(self).model(),
                r,
                capture,
                images_view(entry_images@),
                now,
                fresh_id@,
                image_path@,
            ),
    {
        if self.is_repeat(&capture) {
            return UpsertOutcome { changed: false, image_write: None, evicted: Vec::new() };
        }
        let ghost pre = self.model();
        let sig = capture.signature().clone();
        let found = self.position_of_signature(&sig, &entry_images);
        self.last_seen_signature = Some(sig);
        let ghost grown = upserted_entries(
            pre.entries,
            images_view(entry_images@),
            capture,
            now,
            fresh_id@,
            image_path@,
        );
        let image_write = match found {
            Some(i) => {
                let existing = self.remove_at(i);
                let ghost rest = records_view(self.entries@);
                assert(rest =~= pre.entries.remove(i as int));
                let ClipboardRecord { id, favorite, tags, .. } = existing;
                let (rec, write) = build_record(id, favorite, tags, capture, now, image_path);
                self.entries.push_front(rec);
                assert(records_view(self.entries@) =~= seq![rec@] + rest);
                write
            },
            None => {
                let (rec, write) = Self::new_record(fresh_id, capture, now, image_path);
                let ghost before = records_view(self.entries@);
                self.entries.push_front(rec);
                assert(records_view(self.entries@) =~= seq![rec@] + before);
                write
            },
        };
        assert(records_view(self.entries@) == grown);
        let evicted = self.enforce_limit();
        UpsertOutcome { changed: true, image_write, evicted }
    }

    /// A new record for a capture: not a favorite and without tags.
    pub fn new_record(id: String, capture: ClipboardCapture, now: Timestamp, image_path: String) -> (r: (
        ClipboardRecord,
        Option<ImageWrite>,
    ))
        ensures
            r.0@ == record_from_capture(id@, false, Seq::empty(), capture, now, image_path@),
            image_write_view(r.1) == image_write_of(capture, image_path@),
    {
        let tags: Vec<String> = Vec::new();
        assert(tags.deep_view() =~= Seq::<Seq<char>>::empty());
        build_record(id, false, tags, capture, now, image_path)
    }

    /// The id of the record a capture with signature `sig` lands in (given the
    /// bytes of each record's image file in `images`): that of the first record
    /// with the same signature, or else `fresh_id`.
    pub fn landing_record_id(&self, sig: &String, images: &Vec<Option<Vec<u8>>>, fresh_id: &String) -> (r:
        String)
        requires
            images@.len() == self.model().entries.len(),
        ensures
            r@ == landing_id(self.model().entries, images_view(images@), sig@, fresh_id@),
    {
        match self.position_of_signature(sig, images) {
            Some(i) => self.entries[i].id.clone(),
            None => fresh_id.clone(),
        }
    }

    /// Stores a capture read from the clipboard (see `upsert_capture_at`),
    /// taken at `now`, with `fresh_id` for a new record; an image lands in the
    /// image directory under the id of the record it lands in, followed by
    /// `".png"`.
    pub fn upsert_capture(
        &mut self,
        capture: ClipboardCapture,
        entry_images: Vec<Option<Vec<u8>>>,
        now: Timestamp,
        fresh_id: String,
    ) -> (r: UpsertOutcome)
        requires
            old(self).wf(),
            entry_images@.len() == old(self).model().entries.len(),
        ensures
            final(self).wf(),
            exists|image_path: Seq<char>|
                #[trigger] upsert_post(
                    old(self).model(),
                    final(self).model(),
                    r,
                    capture,
                    images_view(entry_images@),
                    now,
                    fresh_id@,
                    image_path,
                ) && (capture is Image ==> {
                    let name = asset_file_name(
                        landing_id(
                            old(self).model().entries,
                            images_view(entry_images@),
                            capture_signature(capture),
                            fresh_id@,
                        ),
                    );
                    plain_file_name(name) && !has_double_separator_start(old(self).model().image_dir)
                        ==> joined_path(old(self).model().image_dir, name, image_path)
                }),
    {
        let image_path = match &capture {
            ClipboardCapture::Image { signature, .. } => {
                let id = self.landing_record_id(signature, &entry_images, &fresh_id);
                let mut name = id;
                name.append(".png");
                join_path(&self.image_dir, &name)
            },
            _ => String::new(),
        };
        let ghost path = image_path@;
        let ghost images = images_view(entry_images@);
        let ghost pre = self.model();
        let ghost fresh = fresh_id@;
        let r = self.upsert_capture_at(capture, entry_images, now, fresh_id, image_path);
        assert(upsert_post(pre, self.model(), r, capture, images, now, fresh, path));
        r
    }

}

} // verus!
