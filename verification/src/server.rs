//! The IPC request handlers: each takes the history store (the caller holds
//! its exclusive lock) and a decoded or raw request body, mutates the store
//! by the store's own rules, and produces the JSON response body together
//! with any entry to forward to the clipboard-owning thread.

use vstd::prelude::*;

use crate::entry::{entry_eq, spec_display, spec_display_limited, ClipboardData, EntryModel};
use crate::protocol::{decode_set_by_idx, decode_set_text, encode_empty_response,
    encode_list_result, encode_text_result, spec_decode_set_by_idx, spec_decode_set_text,
    spec_enc_list_result, spec_enc_text_result, ProtocolError};
use crate::storage::{spec_insert, spec_promote, spec_trim, ClipboardStorage};
use crate::text::take_limit;

verus! {

/// The character limit applied to each display string served by `list`.
pub const DISPLAY_LIMIT: usize = 512;

/// The display strings that `list` serves: one per entry, front first, each
/// truncated to the display limit.
pub open spec fn spec_display_list(h: Seq<EntryModel>) -> Seq<Seq<char>> {
    h.map_values(|m: EntryModel| spec_display_limited(m, DISPLAY_LIMIT as int))
}

/// The text that `get latest text` serves: the front entry's full display
/// string, or the empty string for an empty history.
pub open spec fn spec_latest_text(h: Seq<EntryModel>) -> Seq<char> {
    if h.len() > 0 {
        spec_display(h[0])
    } else {
        Seq::empty()
    }
}

/// Serves `list`: the display strings of the whole history, truncated to
/// the display limit, as a JSON response body.
pub fn list_clipboard(storage: &ClipboardStorage) -> (r: String)
    requires
        storage.wf(),
    ensures
        r@ == spec_enc_list_result(spec_display_list(storage@)),
{
    let entries = storage.list();
    let mut items: Vec<String> = Vec::new();
    let n: usize = entries.len();
    for i in 0..n
        invariant
            n == entries@.len(),
            n == storage@.len(),
            storage.wf(),
            forall|j: int| 0 <= j < n ==> (#[trigger] entries@[j])@ == storage@[j],
            items@.len() == i,
            forall|j: int| 0 <= j < i ==> (#[trigger] items.deep_view()[j]) == spec_display_list(
                storage@,
            )[j],
    {
        let shown = entries[i].to_string_with_limit(DISPLAY_LIMIT);
        let ghost prev = items.deep_view();
        let ghost shown_view = shown@;
        items.push(shown);
        proof {
            assert(items.deep_view() =~= prev.push(shown_view));
            assert(spec_display_list(storage@)[i as int] == spec_display_limited(
                storage@[i as int],
                DISPLAY_LIMIT as int,
            ));
        }
    }
    proof {
        assert(items.deep_view() =~= spec_display_list(storage@));
    }
    encode_list_result(&items)
}

/// Serves `get latest text`: the front entry's display string, or the
/// empty string, as a JSON response body.
pub fn get_latest_text(storage: &ClipboardStorage) -> (r: String)
    requires
        storage.wf(),
    ensures
        r@ == spec_enc_text_result(spec_latest_text(storage@)),
{
    match storage.get_latest_data() {
        Some(d) => {
            let t = d.to_display_string();
            encode_text_result(t.as_str())
        },
        None => {
            let empty = String::new();
            encode_text_result(empty.as_str())
        },
    }
}

/// Serves `set text`: inserts the given text as the new front entry and
/// hands back the resulting front entry for the clipboard write-back,
/// together with the empty response body. A malformed body is rejected and
/// the history is untouched.
pub fn set_text(storage: &mut ClipboardStorage, body: &str) -> (r: Result<
    (String, ClipboardData),
    ProtocolError,
>)
    requires
        old(storage).wf(),
    ensures
        final(storage).wf(),
        final(storage).spec_max_size() == old(storage).spec_max_size(),
        (match spec_decode_set_text(body@) {
            Some(t) => {
                &&& final(storage)@ == spec_insert(
                    old(storage)@,
                    EntryModel::Text { text: t },
                    old(storage).spec_max_size() as int,
                )
                &&& r matches Ok(p) && p.0@ == "{}"@ && p.1@ == final(storage)@[0]
            },
            None => {
                &&& final(storage)@ == old(storage)@
                &&& r matches Err(e) && e == ProtocolError::MalformedBody
            },
        }),
{
    match decode_set_text(body) {
        Some(t) => {
            let data = ClipboardData::Text(t);
            storage.insert_data(data);
            proof {
                lemma_insert_nonempty(
                    old(storage)@,
                    EntryModel::Text { text: spec_decode_set_text(body@)->Some_0 },
                    old(storage).spec_max_size() as int,
                );
            }
            match storage.get_latest_data() {
                Some(front) => {
                    let fwd = front.duplicate();
                    Ok((encode_empty_response(), fwd))
                },
                None => {
                    proof {
                        assert(false);
                    }
                    Err(ProtocolError::MalformedBody)
                },
            }
        },
        None => Err(ProtocolError::MalformedBody),
    }
}

/// Serves `set by index`: promotes the entry at the given index and hands
/// back the promoted entry, if any, for the clipboard write-back, together
/// with the empty response body. An out-of-range index is a silent no-op;
/// a malformed body is rejected and the history is untouched.
pub fn set_by_idx(storage: &mut ClipboardStorage, body: &str) -> (r: Result<
    (String, Option<ClipboardData>),
    ProtocolError,
>)
    requires
        old(storage).wf(),
    ensures
        final(storage).wf(),
        final(storage).spec_max_size() == old(storage).spec_max_size(),
        (match spec_decode_set_by_idx(body@) {
            Some(idx) => {
                &&& final(storage)@ == spec_promote(old(storage)@, idx)
                &&& (match r {
                    Ok(p) => {
                        &&& p.0@ == "{}"@
                        &&& (idx < old(storage)@.len() ==> (p.1 matches Some(e) && e@ == old(
                            storage,
                        )@[idx] && e@ == final(storage)@[0]))
                        &&& (idx >= old(storage)@.len() ==> p.1 is None)
                    },
                    Err(_) => false,
                })
            },
            None => {
                &&& final(storage)@ == old(storage)@
                &&& r matches Err(e) && e == ProtocolError::MalformedBody
            },
        }),
{
    match decode_set_by_idx(body) {
        Some(idx) => {
            let moved = storage.move_to_front(idx);
            Ok((encode_empty_response(), moved))
        },
        None => Err(ProtocolError::MalformedBody),
    }
}

/// An insert always leaves at least one entry.
pub proof fn lemma_insert_nonempty(s: Seq<EntryModel>, e: EntryModel, max: int)
    requires
        max >= 0,
    ensures
        spec_insert(s, e, max).len() > 0,
{
    if s.len() > 0 && entry_eq(s[0], e) {
        assert(spec_trim(s, max).len() > 0);
    } else {
        assert((seq![e] + s).len() > 0);
        assert(spec_trim(seq![e] + s, max).len() > 0);
    }
}

/// Setting a text and then reading the latest text gives the text back,
/// whole; and the first display string that `list` then serves is the same
/// text cut to the display limit.
pub proof fn lemma_set_text_then_latest(h: Seq<EntryModel>, t: Seq<char>, max: int)
    requires
        max >= 0,
    ensures
        spec_insert(h, EntryModel::Text { text: t }, max).len() > 0,
        spec_insert(h, EntryModel::Text { text: t }, max)[0] == (EntryModel::Text { text: t }),
        spec_latest_text(spec_insert(h, EntryModel::Text { text: t }, max)) == t,
        spec_display_list(spec_insert(h, EntryModel::Text { text: t }, max))[0] == take_limit(
            t,
            DISPLAY_LIMIT as int,
        ),
{
    let e = EntryModel::Text { text: t };
    lemma_insert_nonempty(h, e, max);
    let out = spec_insert(h, e, max);
    if h.len() > 0 && entry_eq(h[0], e) {
        assert(h[0] matches EntryModel::Text { text: t1 } && t1 == t);
        assert(spec_trim(h, max)[0] == h[0]);
        assert(out[0] == e);
    } else {
        assert((seq![e] + h)[0] == e);
        assert(spec_trim(seq![e] + h, max)[0] == e);
    }
    assert(spec_display(e) == t);
    assert(spec_display_list(out)[0] == spec_display_limited(e, DISPLAY_LIMIT as int));
}

/// Truncation is exact: a text entry's limited display string is the text
/// cut to the limit, character-for-character, while the full display
/// string keeps the whole text.
pub proof fn lemma_display_truncation(t: Seq<char>, limit: int)
    requires
        limit >= 0,
    ensures
        spec_display(EntryModel::Text { text: t }) == t,
        t.len() >= limit ==> spec_display_limited(EntryModel::Text { text: t }, limit) == t.take(
            limit,
        ),
        spec_display_limited(EntryModel::Text { text: t }, limit).len() == (if t.len() <= limit {
            t.len() as int
        } else {
            limit
        }),
{
    if t.len() >= limit {
        if t.len() == limit {
            assert(t.take(limit) =~= t);
        }
    }
}

} // verus!
