use vstd::prelude::*;
use crate::capture::capture_signature;
use crate::capture::capture_display;
use crate::capture::capture_searchable;
use crate::capture::files_signature;
use crate::capture::image_signature;
use crate::capture::is_files_capture_of;
use crate::capture::is_image_capture_of;
use crate::capture::is_text_capture_of;
use crate::capture::text_signature;
use crate::capture::ClipboardCapture;
use crate::record::RecordModel;
use crate::record::Timestamp;
use crate::store::evict_to;
use crate::store::evicted_by;
use crate::store::front_signature;
use crate::store::restored_entries;
use crate::store::restored_last_seen;
use crate::store::restored_limit;
use crate::store::retain_present;
use crate::store::PersistedClipboardState;
use crate::record::records_view;
use crate::record::ClipboardKind;
use crate::text::summary_of;
use crate::text::trim;
use crate::text::lemma_summary_shape;
use crate::text::lemma_trim_drops_white_space_ends;
use crate::text::SUMMARY_CHARS;
use crate::limits::clamp_limit;
use crate::store::favorite_flipped;
use crate::store::first_signature_match;
use crate::store::first_with_id;
use crate::store::lemma_first_where;
use crate::store::model_wf;
use crate::store::record_from_capture;
use crate::store::record_signature;
use crate::store::upsert_post;
use crate::store::upserted_entries;
use crate::store::StoreModel;
use crate::store::UpsertOutcome;

verus! {

/// A capture whose signature is the one its content gives: a text capture's
/// that of its text, an image capture's that of its PNG bytes, a file capture's
/// that of its paths.
pub open spec fn capture_consistent(c: ClipboardCapture) -> bool {
    match c {
        ClipboardCapture::Text { signature, text, .. } => signature@ == text_signature(text@),
        ClipboardCapture::Image { signature, png_bytes, .. } => signature@ == image_signature(
            png_bytes@,
        ),
        ClipboardCapture::Files { signature, file_paths, .. } => signature@ == files_signature(
            file_paths.deep_view(),
        ),
    }
}

/// The bytes a capture's image file holds once written: its PNG bytes, for an image.
pub open spec fn written_image(c: ClipboardCapture) -> Option<Seq<u8>> {
    match c {
        ClipboardCapture::Image { png_bytes, .. } => Some(png_bytes@),
        _ => None,
    }
}

/// The captures made from clipboard content are consistent.
pub proof fn lemma_captures_consistent(
    c: ClipboardCapture,
    text: Seq<char>,
    width: u32,
    height: u32,
    png: Seq<u8>,
    paths: Seq<Seq<char>>,
    names: Seq<Seq<char>>,
)
    ensures
        is_text_capture_of(c, text) ==> capture_consistent(c),
        is_image_capture_of(c, width, height, png) ==> capture_consistent(c),
        is_files_capture_of(c, paths, names) ==> capture_consistent(c),
{
}

/// A record made from a consistent capture has the capture's signature (for an
/// image, once its image file holds the capture's PNG bytes), whatever its id,
/// mark, tags, time and image path: so the content that made a record is
/// recognised as a repeat of it.
pub proof fn lemma_record_keeps_capture_signature(
    id: Seq<char>,
    favorite: bool,
    tags: Seq<Seq<char>>,
    c: ClipboardCapture,
    now: Timestamp,
    image_path: Seq<char>,
)
    requires
        capture_consistent(c),
    ensures
        record_signature(record_from_capture(id, favorite, tags, c, now, image_path), written_image(c))
            == capture_signature(c),
{
}

/// The records that stay behind the one a capture lands in: all but the first
/// record with the capture's signature, in order.
pub open spec fn records_kept_by_upsert(
    entries: Seq<RecordModel>,
    images: Seq<Option<Seq<u8>>>,
    c: ClipboardCapture,
) -> Seq<RecordModel> {
    match first_signature_match(entries, images, capture_signature(c)) {
        Some(i) => entries.remove(i),
        None => entries,
    }
}

/// Storing a capture that is not a repeat puts the record it makes first in
/// the history, keeps the limit and the history within it, and takes the
/// capture's signature as last seen; that first record has the capture's
/// signature, and behind it come the other records in their old order, only
/// the oldest being dropped.
pub proof fn lemma_upsert_front(
    pre: StoreModel,
    post: StoreModel,
    out: UpsertOutcome,
    c: ClipboardCapture,
    images: Seq<Option<Seq<u8>>>,
    now: Timestamp,
    fresh_id: Seq<char>,
    image_path: Seq<char>,
)
    requires
        model_wf(pre),
        capture_consistent(c),
        upsert_post(pre, post, out, c, images, now, fresh_id, image_path),
        pre.last_seen_signature != Some(capture_signature(c)),
    ensures
        model_wf(post),
        out.changed,
        post.last_seen_signature == Some(capture_signature(c)),
        post.entries.len() > 0,
        post.entries[0].kind == record_from_capture(fresh_id, false, Seq::empty(), c, now, image_path).kind,
        record_signature(post.entries[0], written_image(c)) == capture_signature(c),
        post.max_entries == pre.max_entries,
        post.entries[0].content == capture_display(c),
        post.entries[0].searchable_text == capture_searchable(c),
        post.entries.drop_first() == records_kept_by_upsert(pre.entries, images, c).take(
            post.entries.len() - 1,
        ),
{
    let grown = upserted_entries(pre.entries, images, c, now, fresh_id, image_path);
    let sig = capture_signature(c);
    match first_signature_match(pre.entries, images, sig) {
        Some(i) => {
            lemma_first_where(
                pre.entries.len() as int,
                |k: int| record_signature(pre.entries[k], images[k]) == sig,
            );
            lemma_record_keeps_capture_signature(
                pre.entries[i].id,
                pre.entries[i].favorite,
                pre.entries[i].tags,
                c,
                now,
                image_path,
            );
        },
        None => {
            lemma_record_keeps_capture_signature(fresh_id, false, Seq::empty(), c, now, image_path);
        },
    }
    assert(grown.len() > 0);
    assert(evict_to(grown, pre.max_entries)[0] == grown[0]);
    let rest = records_kept_by_upsert(pre.entries, images, c);
    assert(grown.drop_first() =~= rest);
    assert(post.entries.drop_first() =~= rest.take(post.entries.len() - 1));
}

/// Storing the same capture twice in a row changes the history once: the
/// second time nothing changes and nothing is written or removed.
pub proof fn lemma_upsert_repeat_is_noop(
    pre: StoreModel,
    mid: StoreModel,
    post: StoreModel,
    out1: UpsertOutcome,
    out2: UpsertOutcome,
    c: ClipboardCapture,
    images1: Seq<Option<Seq<u8>>>,
    images2: Seq<Option<Seq<u8>>>,
    now1: Timestamp,
    now2: Timestamp,
    fresh1: Seq<char>,
    fresh2: Seq<char>,
    path1: Seq<char>,
    path2: Seq<char>,
)
    requires
        upsert_post(pre, mid, out1, c, images1, now1, fresh1, path1),
        upsert_post(mid, post, out2, c, images2, now2, fresh2, path2),
    ensures
        post == mid,
        !out2.changed,
        out2.image_write is None,
        out2.evicted@.len() == 0,
{
}

/// Flipping the favorite mark of the same record twice gives back the history
/// as it was.
pub proof fn lemma_toggle_favorite_twice(entries: Seq<RecordModel>, id: Seq<char>)
    requires
        first_with_id(entries, id) is Some,
    ensures
        ({
            let i = first_with_id(entries, id)->0;
            let once = entries.update(i, favorite_flipped(entries[i]));
            &&& first_with_id(once, id) == Some(i)
            &&& once.update(i, favorite_flipped(once[i])) == entries
        }),
{
    let i = first_with_id(entries, id)->0;
    let p = |k: int| entries[k].id == id;
    lemma_first_where(entries.len() as int, p);
    let once = entries.update(i, favorite_flipped(entries[i]));
    let q = |k: int| once[k].id == id;
    assert forall|k: int| 0 <= k < entries.len() implies #[trigger] q(k) == p(k) by {
        assert(once[k].id == entries[k].id);
    }
    lemma_first_where(once.len() as int, q);
    assert(q(i));
    let j = first_with_id(once, id)->0;
    if j < i {
        assert(!p(j));
    }
    if i < j {
        assert(!q(i));
    }
    assert(once.update(i, favorite_flipped(once[i])) =~= entries);
}


/// Once a record is marked as last seen (as happens when it is copied back to
/// the clipboard), reading back content with that record's signature changes
/// nothing: copying a record back does not store it again.
pub proof fn lemma_copied_back_is_repeat(
    pre: StoreModel,
    r: RecordModel,
    image_bytes: Option<Seq<u8>>,
    post: StoreModel,
    out: UpsertOutcome,
    c: ClipboardCapture,
    images: Seq<Option<Seq<u8>>>,
    now: Timestamp,
    fresh_id: Seq<char>,
    image_path: Seq<char>,
)
    requires
        capture_signature(c) == record_signature(r, image_bytes),
        upsert_post(
            StoreModel { last_seen_signature: Some(record_signature(r, image_bytes)), ..pre },
            post,
            out,
            c,
            images,
            now,
            fresh_id,
            image_path,
        ),
    ensures
        post == (StoreModel { last_seen_signature: Some(record_signature(r, image_bytes)), ..pre }),
        !out.changed,
{
}


/// Cutting the history to a limit keeps the newest records in order, keeps no
/// more than the limit, and reports every record it drops, oldest first: no
/// record is lost without being given back.
pub proof fn lemma_eviction_accounts_for_every_record(entries: Seq<RecordModel>, max: nat)
    ensures
        evict_to(entries, max).len() <= max,
        evict_to(entries, max) == entries.take(evict_to(entries, max).len() as int),
        evict_to(entries, max).len() + evicted_by(entries, max).len() == entries.len(),
        forall|k: int|
            0 <= k < evicted_by(entries, max).len() ==> #[trigger] evicted_by(entries, max)[k]
                == entries[entries.len() - 1 - k],
{
    if entries.len() <= max {
        assert(entries.take(entries.len() as int) =~= entries);
    }
}


/// Every record the missing-image filter keeps is one of the records it was
/// given, whose image file is present (or which has no image file).
pub proof fn lemma_retain_present_keeps_present(entries: Seq<RecordModel>, present: Seq<bool>)
    ensures
        forall|k: int|
            0 <= k < retain_present(entries, present).len() ==> exists|i: int|
                0 <= i < entries.len() && entries[i] == #[trigger] retain_present(entries, present)[k]
                    && (entries[i].image_path is None || present[i]),
    decreases entries.len(),
{
    if entries.len() > 0 {
        let init = entries.drop_last();
        lemma_retain_present_keeps_present(init, present);
        let kept = retain_present(entries, present);
        let before = retain_present(init, present);
        assert forall|k: int| 0 <= k < kept.len() implies exists|i: int|
            0 <= i < entries.len() && entries[i] == #[trigger] kept[k] && (entries[i].image_path is None
                || present[i]) by {
            if k < before.len() {
                assert(kept[k] == before[k]);
                let i = choose|i: int|
                    0 <= i < init.len() && init[i] == #[trigger] before[k] && (init[i].image_path is None
                        || present[i]);
                assert(entries[i] == init[i]);
            } else {
                assert(kept[k] == entries.last());
                assert(entries[entries.len() - 1] == entries.last());
            }
        }
    }
}

/// Where every image file is present, the missing-image filter keeps all records.
pub proof fn lemma_retain_all_present(entries: Seq<RecordModel>, present: Seq<bool>)
    requires
        present.len() >= entries.len(),
        forall|i: int| 0 <= i < entries.len() && (#[trigger] entries[i]).image_path is Some ==> present[i],
    ensures
        retain_present(entries, present) == entries,
    decreases entries.len(),
{
    if entries.len() > 0 {
        let init = entries.drop_last();
        assert forall|i: int| 0 <= i < init.len() && (#[trigger] init[i]).image_path is Some implies present[i] by {
            assert(init[i] == entries[i]);
        }
        lemma_retain_all_present(init, present);
        assert(entries[entries.len() - 1] == entries.last());
        assert(init.push(entries.last()) =~= entries);
    }
}

/// Saving a well-formed history and loading what was saved gives the same
/// records in the same order and the same limit, drops nothing, and takes the
/// first record's signature as last seen (where every image file is still there).
pub proof fn lemma_snapshot_load_round_trip(
    m: StoreModel,
    state: PersistedClipboardState,
    present: Seq<bool>,
    first_image: Option<Seq<u8>>,
)
    requires
        model_wf(m),
        records_view(state.entries@) == m.entries,
        state.max_entries == m.max_entries,
        present.len() == m.entries.len(),
        forall|i: int| 0 <= i < m.entries.len() && (#[trigger] m.entries[i]).image_path is Some ==> present[i],
    ensures
        restored_limit(Some(state)) == m.max_entries,
        evict_to(retain_present(restored_entries(Some(state)), present), restored_limit(Some(state)))
            == m.entries,
        evicted_by(retain_present(restored_entries(Some(state)), present), restored_limit(Some(state))).len()
            == 0,
        restored_last_seen(Some(state), first_image) == front_signature(m.entries, first_image),
{
    lemma_retain_all_present(m.entries, present);
    assert(clamp_limit(state.max_entries as int) == state.max_entries as int);
}

/// Whether no two records share an id.
pub open spec fn ids_distinct(entries: Seq<RecordModel>) -> bool {
    forall|i: int, j: int|
        0 <= i < entries.len() && 0 <= j < entries.len() && i != j ==> (#[trigger] entries[i]).id != (
        #[trigger] entries[j]).id
}

/// Where ids are distinct, after the record with id `id` is deleted no record
/// has that id any more, and looking up any other id `other` finds the same
/// record as before (or none, as before).
pub proof fn lemma_lookup_after_delete(entries: Seq<RecordModel>, id: Seq<char>, other: Seq<char>)
    requires
        ids_distinct(entries),
        first_with_id(entries, id) is Some,
        other != id,
    ensures
        first_with_id(entries.remove(first_with_id(entries, id)->0), id) is None,
        match first_with_id(entries, other) {
            Some(j) => first_with_id(entries.remove(first_with_id(entries, id)->0), other) matches Some(k)
                && entries.remove(first_with_id(entries, id)->0)[k] == entries[j],
            None => first_with_id(entries.remove(first_with_id(entries, id)->0), other) is None,
        },
{
    let p = |k: int| entries[k].id == id;
    lemma_first_where(entries.len() as int, p);
    let i = first_with_id(entries, id)->0;
    let rest = entries.remove(i);
    let q = |k: int| rest[k].id == id;
    lemma_first_where(rest.len() as int, q);
    assert forall|k: int| 0 <= k < rest.len() implies !#[trigger] q(k) by {
        if k < i {
            assert(rest[k] == entries[k]);
        } else {
            assert(rest[k] == entries[k + 1]);
        }
    }
    let po = |k: int| entries[k].id == other;
    let qo = |k: int| rest[k].id == other;
    lemma_first_where(entries.len() as int, po);
    lemma_first_where(rest.len() as int, qo);
    match first_with_id(entries, other) {
        Some(j) => {
            assert(j != i);
            let k = if j < i { j } else { j - 1 };
            assert(rest[k] == entries[j]);
            assert(qo(k));
            let f = first_with_id(rest, other)->0;
            if f < k {
                let g = if f < i { f } else { f + 1 };
                assert(rest[f] == entries[g]);
                assert(po(g));
                assert(g != j);
            }
            if k < f {
                assert(!qo(k));
            }
        },
        None => {
            assert forall|k: int| 0 <= k < rest.len() implies !#[trigger] qo(k) by {
                if k < i {
                    assert(rest[k] == entries[k]);
                    assert(!po(k));
                } else {
                    assert(rest[k] == entries[k + 1]);
                    assert(!po(k + 1));
                }
            }
        },
    }
}


/// Whether no two records have the same signature, given the bytes of each
/// record's image file in `images`.
pub open spec fn signatures_distinct(entries: Seq<RecordModel>, images: Seq<Option<Seq<u8>>>) -> bool {
    forall|i: int, j: int|
        0 <= i < entries.len() && 0 <= j < entries.len() && i != j ==> record_signature(
            #[trigger] entries[i],
            images[i],
        ) != record_signature(#[trigger] entries[j], images[j])
}

/// The image file bytes of each record after a capture lands: the capture's
/// PNG bytes for the record it lands in, and the others' as before.
pub open spec fn images_after_upsert(
    entries: Seq<RecordModel>,
    images: Seq<Option<Seq<u8>>>,
    c: ClipboardCapture,
) -> Seq<Option<Seq<u8>>> {
    match first_signature_match(entries, images, capture_signature(c)) {
        Some(i) => seq![written_image(c)] + images.remove(i),
        None => seq![written_image(c)] + images,
    }
}

/// Where no two records share a signature, storing a consistent capture keeps
/// it so (once the capture's image file is written): copying the same content
/// again never leaves two records for it.
pub proof fn lemma_upsert_keeps_signatures_distinct(
    pre: StoreModel,
    post: StoreModel,
    out: UpsertOutcome,
    c: ClipboardCapture,
    images: Seq<Option<Seq<u8>>>,
    now: Timestamp,
    fresh_id: Seq<char>,
    image_path: Seq<char>,
)
    requires
        images.len() == pre.entries.len(),
        capture_consistent(c),
        signatures_distinct(pre.entries, images),
        upsert_post(pre, post, out, c, images, now, fresh_id, image_path),
    ensures
        !out.changed ==> post == pre,
        out.changed ==> signatures_distinct(
            post.entries,
            images_after_upsert(pre.entries, images, c).take(post.entries.len() as int),
        ),
{
    if out.changed {
        let sig = capture_signature(c);
        let e = pre.entries;
        let grown = upserted_entries(e, images, c, now, fresh_id, image_path);
        let imgs = images_after_upsert(e, images, c);
        let p = |k: int| record_signature(e[k], images[k]) == sig;
        lemma_first_where(e.len() as int, p);
        let m = first_signature_match(e, images, sig);
        // where each later record of `grown` came from in `e`
        let from = |k: int|
            match m {
                Some(i) => if k - 1 < i {
                    k - 1
                } else {
                    k
                },
                None => k - 1,
            };
        match m {
            Some(i) => {
                lemma_record_keeps_capture_signature(e[i].id, e[i].favorite, e[i].tags, c, now, image_path);
            },
            None => {
                lemma_record_keeps_capture_signature(fresh_id, false, Seq::empty(), c, now, image_path);
            },
        }
        assert(grown.len() == imgs.len());
        assert forall|k: int| 1 <= k < grown.len() implies 0 <= #[trigger] from(k) < e.len() && grown[k]
            == e[from(k)] && imgs[k] == images[from(k)] && (m matches Some(i) ==> from(k) != i) by {
        }
        assert forall|a: int, b: int|
            0 <= a < grown.len() && 0 <= b < grown.len() && a != b implies record_signature(
            #[trigger] grown[a],
            imgs[a],
        ) != record_signature(#[trigger] grown[b], imgs[b]) by {
            if a == 0 {
                assert(record_signature(grown[0], imgs[0]) == sig);
                assert(grown[b] == e[from(b)] && imgs[b] == images[from(b)]);
                if let Some(i) = m {
                    assert(e[from(b)] == e[from(b)]);
                    assert(record_signature(e[i], images[i]) == sig);
                } else {
                    assert(!p(from(b)));
                }
            } else if b == 0 {
                assert(record_signature(grown[0], imgs[0]) == sig);
                assert(grown[a] == e[from(a)] && imgs[a] == images[from(a)]);
                if let Some(i) = m {
                    assert(record_signature(e[i], images[i]) == sig);
                } else {
                    assert(!p(from(a)));
                }
            } else {
                assert(from(a) != from(b));
                assert(grown[a] == e[from(a)] && imgs[a] == images[from(a)]);
                assert(grown[b] == e[from(b)] && imgs[b] == images[from(b)]);
            }
        }
        let n = post.entries.len() as int;
        assert(post.entries =~= grown.take(n));
        assert forall|a: int, b: int|
            0 <= a < n && 0 <= b < n && a != b implies record_signature(
            #[trigger] post.entries[a],
            imgs.take(n)[a],
        ) != record_signature(#[trigger] post.entries[b], imgs.take(n)[b]) by {
            assert(post.entries[a] == grown[a]);
            assert(post.entries[b] == grown[b]);
        }
    }
}


/// A record shows what its capture shows: its history line is the capture's
/// display line and its search text the capture's search text, whatever the
/// record's id, mark, tags, time and image path.
pub proof fn lemma_record_shows_capture(
    id: Seq<char>,
    favorite: bool,
    tags: Seq<Seq<char>>,
    c: ClipboardCapture,
    now: Timestamp,
    image_path: Seq<char>,
)
    ensures
        record_from_capture(id, favorite, tags, c, now, image_path).content == capture_display(c),
        record_from_capture(id, favorite, tags, c, now, image_path).searchable_text
            == capture_searchable(c),
{
}

/// A record made from copied text shows one line: the summary of the trimmed
/// text, with no line break and at most 181 characters, while it keeps the
/// trimmed text itself whole.
pub proof fn lemma_text_record_is_one_line(
    x: Seq<char>,
    id: Seq<char>,
    favorite: bool,
    tags: Seq<Seq<char>>,
    c: ClipboardCapture,
    now: Timestamp,
    image_path: Seq<char>,
)
    requires
        is_text_capture_of(c, x),
    ensures
        ({
            let r = record_from_capture(id, favorite, tags, c, now, image_path);
            &&& r.kind == ClipboardKind::Text
            &&& r.content == summary_of(trim(x))
            &&& !r.content.contains('\n')
            &&& !r.content.contains('\r')
            &&& r.content.len() <= SUMMARY_CHARS + 1
            &&& r.text == Some(trim(x))
            &&& r.searchable_text == trim(x)
        }),
{
    lemma_summary_shape(trim(x));
}

/// Copying a line with a Windows line ending (`"\r\n"`) captures the same as
/// copying it without: the same text and the same signature, so it is not
/// stored as a second record.
pub proof fn lemma_crlf_copy_is_same_capture(x: Seq<char>, with_crlf: ClipboardCapture, plain: ClipboardCapture)
    requires
        is_text_capture_of(with_crlf, x + seq!['\r', '\n']),
        is_text_capture_of(plain, x),
    ensures
        capture_signature(with_crlf) == capture_signature(plain),
        capture_display(with_crlf) == capture_display(plain),
{
    assert(x + seq!['\r', '\n'] =~= (x + seq!['\r']) + seq!['\n']);
    lemma_trim_drops_white_space_ends(x + seq!['\r'], '\n');
    lemma_trim_drops_white_space_ends(x, '\r');
}

} // verus!
