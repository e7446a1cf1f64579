//! The clipboard entry type: a closed tagged union of the content kinds the
//! daemon records, with payload-based equality and derived display strings.

use vstd::prelude::*;

use crate::hashing::{content_hash, spec_content_hash};
use crate::stamp::{now_stamp, Timestamp};
use crate::text::{join_nl, push_char, spec_join_nl, take_limit, truncate_chars, u64_to_dec,
    spec_dec};

verus! {

/// A raw image payload: the pixel bytes, the dimensions shown in the
/// entry's display string, and the layout fields needed to rebuild the
/// image for a clipboard write-back. Identity and display depend on the
/// bytes and dimensions alone.
#[derive(Debug)]
pub struct PixelBuffer {
    pub width: u32,
    pub height: u32,
    pub has_alpha: bool,
    pub bits_per_sample: u32,
    pub rowstride: u32,
    pub bytes: Vec<u8>,
}

/// One recorded clipboard content item.
///
/// An image entry carries its pixel buffer, the content-hash computed once
/// at ingestion time, and the capture timestamp.
#[derive(Debug)]
pub enum ClipboardData {
    Text(String),
    Url(Vec<String>),
    Html(String),
    Image(PixelBuffer, String, Timestamp),
}

/// The mathematical value of a clipboard entry.
pub ghost enum EntryModel {
    Text { text: Seq<char> },
    Url { uris: Seq<Seq<char>> },
    Html { markup: Seq<char> },
    Image { bytes: Seq<u8>, width: u32, height: u32, hash: Seq<char>, stamp: Timestamp },
}

impl View for ClipboardData {
    type V = EntryModel;

    open spec fn view(&self) -> EntryModel {
        match self {
            ClipboardData::Text(t) => EntryModel::Text { text: t@ },
            ClipboardData::Url(u) => EntryModel::Url { uris: u.deep_view() },
            ClipboardData::Html(h) => EntryModel::Html { markup: h@ },
            ClipboardData::Image(buf, hash, stamp) => EntryModel::Image {
                bytes: buf.bytes@,
                width: buf.width,
                height: buf.height,
                hash: hash@,
                stamp: *stamp,
            },
        }
    }
}

impl EntryModel {
    /// An image entry's hash is the content-hash of its pixel bytes and its
    /// timestamp holds calendar values.
    pub open spec fn wf(self) -> bool {
        match self {
            EntryModel::Image { bytes, hash, stamp, .. } => {
                &&& hash == spec_content_hash(bytes)
                &&& stamp.wf()
            },
            _ => true,
        }
    }
}

/// Semantic equality between entries: text, URI lists and markup compare by
/// value; images compare by content-hash only, never by pixel buffer,
/// dimensions or timestamp.
pub open spec fn entry_eq(a: EntryModel, b: EntryModel) -> bool {
    match (a, b) {
        (EntryModel::Text { text: t1 }, EntryModel::Text { text: t2 }) => t1 == t2,
        (EntryModel::Url { uris: u1 }, EntryModel::Url { uris: u2 }) => u1 == u2,
        (EntryModel::Html { markup: h1 }, EntryModel::Html { markup: h2 }) => h1 == h2,
        (
            EntryModel::Image { hash: h1, .. },
            EntryModel::Image { hash: h2, .. },
        ) => h1 == h2,
        _ => false,
    }
}

/// `entry_eq` is reflexive.
pub proof fn lemma_entry_eq_reflexive(a: EntryModel)
    ensures
        entry_eq(a, a),
{
}

/// `entry_eq` is symmetric.
pub proof fn lemma_entry_eq_symmetric(a: EntryModel, b: EntryModel)
    ensures
        entry_eq(a, b) == entry_eq(b, a),
{
}

/// Image entries are equal exactly when their hashes are equal: the pixel
/// buffer, the dimensions and the capture timestamp play no part.
pub proof fn lemma_image_eq_ignores_all_but_hash(a: EntryModel, b: EntryModel)
    requires
        a matches EntryModel::Image { .. },
        b matches EntryModel::Image { .. },
    ensures
        entry_eq(a, b) == (a->Image_hash == b->Image_hash),
{
}

/// Well-formed image entries built from the same pixel bytes are equal,
/// whatever their timestamps or dimensions.
pub proof fn lemma_image_identity(a: EntryModel, b: EntryModel)
    requires
        a.wf(),
        b.wf(),
        a matches EntryModel::Image { .. },
        b matches EntryModel::Image { .. },
        a->Image_bytes == b->Image_bytes,
    ensures
        entry_eq(a, b),
{
}

fn clone_bytes(v: &Vec<u8>) -> (r: Vec<u8>)
    ensures
        r@ == v@,
{
    let mut r: Vec<u8> = Vec::new();
    let n: usize = v.len();
    for i in 0..n
        invariant
            n == v@.len(),
            r@ == v@.take(i as int),
    {
        r.push(v[i]);
        assert(r@ =~= v@.take(i + 1));
    }
    assert(r@ =~= v@);
    r
}

pub(crate) fn clone_strings(v: &Vec<String>) -> (r: Vec<String>)
    ensures
        r.deep_view() == v.deep_view(),
{
    let mut r: Vec<String> = Vec::new();
    let n: usize = v.len();
    for i in 0..n
        invariant
            n == v@.len(),
            r@.len() == i,
            forall|j: int| 0 <= j < i ==> r.deep_view()[j] == v.deep_view()[j],
    {
        r.push(v[i].clone());
    }
    assert(r.deep_view() =~= v.deep_view());
    r
}

fn strings_eq(a: &Vec<String>, b: &Vec<String>) -> (r: bool)
    ensures
        r == (a.deep_view() == b.deep_view()),
{
    if a.len() != b.len() {
        proof {
            assert(a.deep_view().len() == a@.len());
            assert(b.deep_view().len() == b@.len());
        }
        return false;
    }
    let n: usize = a.len();
    for i in 0..n
        invariant
            n == a@.len() == b@.len(),
            a.deep_view().len() == b.deep_view().len() == n,
            forall|j: int| 0 <= j < i ==> a.deep_view()[j] == b.deep_view()[j],
    {
        if !a[i].eq(&b[i]) {
            assert(a.deep_view()[i as int] != b.deep_view()[i as int]);
            return false;
        }
    }
    assert(a.deep_view() =~= b.deep_view());
    true
}

impl ClipboardData {
    /// The content-hash attached to an image entry, computed once at
    /// ingestion from the raw pixel bytes: always 32 lowercase hex
    /// characters.
    pub fn calc_image_hash(bytes: &Vec<u8>) -> (r: String)
        ensures
            r@ == spec_content_hash(bytes@),
            r@.len() == 32,
    {
        content_hash(bytes)
    }

    /// Builds an image entry from a pixel buffer, computing its identity
    /// hash and stamping it with the current wall-clock time.
    pub fn new_image(buf: PixelBuffer) -> (r: ClipboardData)
        ensures
            r@ matches EntryModel::Image { bytes, width, height, hash, stamp } && bytes
                == buf.bytes@ && width == buf.width && height == buf.height && hash
                == spec_content_hash(buf.bytes@),
            r@.wf(),
    {
        let hash = ClipboardData::calc_image_hash(&buf.bytes);
        let stamp = now_stamp();
        ClipboardData::Image(buf, hash, stamp)
    }

    /// Builds a URI-list entry; an empty list is rejected, as an ingestion
    /// failure.
    pub fn new_uri_list(uris: Vec<String>) -> (r: Option<ClipboardData>)
        ensures
            uris@.len() == 0 <==> r is None,
            r matches Some(e) ==> e@ == (EntryModel::Url { uris: uris.deep_view() }),
    {
        if uris.len() == 0 {
            None
        } else {
            Some(ClipboardData::Url(uris))
        }
    }

    /// Whether two entries hold the same content, by the entry equality
    /// rules.
    pub fn same_content(&self, other: &ClipboardData) -> (r: bool)
        ensures
            r == entry_eq(self@, other@),
    {
        match (self, other) {
            (ClipboardData::Text(t1), ClipboardData::Text(t2)) => t1.eq(t2),
            (ClipboardData::Url(u1), ClipboardData::Url(u2)) => strings_eq(u1, u2),
            (ClipboardData::Html(h1), ClipboardData::Html(h2)) => h1.eq(h2),
            (ClipboardData::Image(_, h1, _), ClipboardData::Image(_, h2, _)) => h1.eq(h2),
            _ => false,
        }
    }

    /// An exact copy of the entry.
    pub fn duplicate(&self) -> (r: ClipboardData)
        ensures
            r@ == self@,
    {
        match self {
            ClipboardData::Text(t) => ClipboardData::Text(t.clone()),
            ClipboardData::Url(u) => ClipboardData::Url(clone_strings(u)),
            ClipboardData::Html(h) => ClipboardData::Html(h.clone()),
            ClipboardData::Image(buf, hash, stamp) => ClipboardData::Image(
                PixelBuffer {
                    width: buf.width,
                    height: buf.height,
                    has_alpha: buf.has_alpha,
                    bits_per_sample: buf.bits_per_sample,
                    rowstride: buf.rowstride,
                    bytes: clone_bytes(&buf.bytes),
                },
                hash.clone(),
                *stamp,
            ),
        }
    }
}

/// The human-readable size that the `byte-unit` crate renders for a byte
/// count. It depends on the count alone.
pub uninterp spec fn byte_label_of(n: u64) -> Seq<char>;

/// Relies on `byte_unit::Byte::from_bytes` and the display of
/// `Byte::get_appropriate_unit(false)`: a human-readable decimal-unit size,
/// a pure function of the byte count.
#[verifier::external_body]
fn byte_unit_label(n: u64) -> (r: String)
    ensures
        r@ == byte_label_of(n),
{
    byte_unit::Byte::from_bytes(n as u128).get_appropriate_unit(false).to_string()
}

/// The display string of an image entry:
/// `[image: <hash>, <MM-DD HH:MM:SS>, <width>x<height>, <size>]`.
pub open spec fn spec_image_label(
    hash: Seq<char>,
    stamp: Timestamp,
    width: u32,
    height: u32,
    byte_len: u64,
) -> Seq<char> {
    "[image: "@ + hash + ", "@ + stamp.spec_render() + ", "@ + spec_dec(width as int) + "x"@
        + spec_dec(height as int) + ", "@ + byte_label_of(byte_len) + "]"@
}

/// The full display string of an entry: text and markup render as
/// themselves, URI lists join their entries with newlines, and images render
/// as their summary label.
pub open spec fn spec_display(m: EntryModel) -> Seq<char> {
    match m {
        EntryModel::Text { text } => text,
        EntryModel::Url { uris } => spec_join_nl(uris),
        EntryModel::Html { markup } => markup,
        EntryModel::Image { bytes, width, height, hash, stamp } => spec_image_label(
            hash,
            stamp,
            width,
            height,
            bytes.len() as u64,
        ),
    }
}

/// The display string truncated to a character limit, whatever the
/// entry's kind: truncation is applied at render time, never at storage
/// time.
pub open spec fn spec_display_limited(m: EntryModel, limit: int) -> Seq<char> {
    take_limit(spec_display(m), limit)
}

/// No rendered display string exceeds its limit, whatever the entry's
/// kind.
pub proof fn lemma_display_limit_bound(m: EntryModel, limit: int)
    requires
        limit >= 0,
    ensures
        spec_display_limited(m, limit).len() <= limit,
{
}

impl ClipboardData {
    fn image_label(
        hash: &String,
        stamp: &Timestamp,
        width: u32,
        height: u32,
        byte_len: u64,
    ) -> (r: String)
        requires
            stamp.wf(),
        ensures
            r@ == spec_image_label(hash@, *stamp, width, height, byte_len),
    {
        let mut r = String::from_str("[image: ");
        r.append(hash.as_str());
        r.append(", ");
        r.append(stamp.render().as_str());
        r.append(", ");
        r.append(u64_to_dec(width as u64).as_str());
        r.append("x");
        r.append(u64_to_dec(height as u64).as_str());
        r.append(", ");
        r.append(byte_unit_label(byte_len).as_str());
        r.append("]");
        assert(r@ =~= spec_image_label(hash@, *stamp, width, height, byte_len));
        r
    }

    /// The full display string of the entry.
    pub fn to_display_string(&self) -> (r: String)
        requires
            self@.wf(),
        ensures
            r@ == spec_display(self@),
    {
        match self {
            ClipboardData::Text(t) => t.clone(),
            ClipboardData::Url(u) => join_nl(u),
            ClipboardData::Html(h) => h.clone(),
            ClipboardData::Image(buf, hash, stamp) => ClipboardData::image_label(
                hash,
                stamp,
                buf.width,
                buf.height,
                buf.bytes.len() as u64,
            ),
        }
    }

    /// The display string truncated to at most `limit` characters.
    pub fn to_string_with_limit(&self, limit: usize) -> (r: String)
        requires
            self@.wf(),
        ensures
            r@ == spec_display_limited(self@, limit as int),
    {
        let full = self.to_display_string();
        truncate_chars(full.as_str(), limit)
    }
}

} // verus!
