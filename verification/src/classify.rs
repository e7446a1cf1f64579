//! Content classification: given the content-type offers a clipboard owner
//! advertises, pick the single best-fit entry kind. Richer representations
//! outrank plainer ones, so a simultaneous HTML and plain-text offer is
//! ingested as HTML, never as text.

use vstd::prelude::*;

verus! {

/// The closed set of content kinds the daemon can ingest, plus the
/// no-handleable-offer marker.
#[derive(Clone, Copy, PartialEq, Eq, Structural, Debug)]
pub enum ClipboardDataType {
    Unsupported,
    Text,
    Url,
    Html,
    Image,
}

impl ClipboardDataType {
    /// The wire code of each kind, as used for clipboard target registration.
    pub open spec fn spec_code(self) -> u32 {
        match self {
            ClipboardDataType::Unsupported => 0,
            ClipboardDataType::Text => 5,
            ClipboardDataType::Url => 10,
            ClipboardDataType::Html => 15,
            ClipboardDataType::Image => 20,
        }
    }

    /// Returns the kind's wire code. The codes double as priority ranks:
    /// Image > Html > Url > Text > Unsupported.
    pub fn code(self) -> (r: u32)
        ensures
            r == self.spec_code(),
    {
        match self {
            ClipboardDataType::Unsupported => 0,
            ClipboardDataType::Text => 5,
            ClipboardDataType::Url => 10,
            ClipboardDataType::Html => 15,
            ClipboardDataType::Image => 20,
        }
    }

    /// The kind a wire code stands for.
    pub open spec fn spec_from_u32(n: u32) -> ClipboardDataType {
        if n == 5 {
            ClipboardDataType::Text
        } else if n == 10 {
            ClipboardDataType::Url
        } else if n == 15 {
            ClipboardDataType::Html
        } else if n == 20 {
            ClipboardDataType::Image
        } else {
            ClipboardDataType::Unsupported
        }
    }

    /// Decodes a wire code; unknown codes decode to `Unsupported`.
    pub fn from_u32(n: u32) -> (r: ClipboardDataType)
        ensures
            r == ClipboardDataType::spec_from_u32(n),
    {
        match n {
            5u32 => ClipboardDataType::Text,
            10u32 => ClipboardDataType::Url,
            15u32 => ClipboardDataType::Html,
            20u32 => ClipboardDataType::Image,
            _ => ClipboardDataType::Unsupported,
        }
    }
}

/// Decoding a kind's own code gives the kind back.
pub proof fn lemma_code_round_trip(t: ClipboardDataType)
    ensures
        ClipboardDataType::spec_from_u32(t.spec_code()) == t,
{
}

/// What the lowercase folding of the `str::to_lowercase` call returns for a
/// target atom name. It depends on the characters alone.
pub uninterp spec fn lower_of(s: Seq<char>) -> Seq<char>;

/// Relies on `str::to_lowercase`: the result depends on the characters
/// alone.
#[verifier::external_body]
fn to_lowercase(s: &str) -> (r: String)
    ensures
        r@ == lower_of(s@),
{
    s.to_lowercase()
}

/// Whether `p` is a prefix of `s`.
pub open spec fn spec_has_prefix(s: Seq<char>, p: Seq<char>) -> bool {
    p.len() <= s.len() && s.take(p.len() as int) == p
}

fn str_eq_str(a: &str, b: &str) -> (r: bool)
    ensures
        r == (a@ == b@),
{
    let an: usize = a.unicode_len();
    let bn: usize = b.unicode_len();
    if an != bn {
        return false;
    }
    for i in 0..an
        invariant
            an == a@.len(),
            an == b@.len(),
            forall|j: int| 0 <= j < i ==> a@[j] == b@[j],
    {
        if a.get_char(i) != b.get_char(i) {
            return false;
        }
    }
    assert(a@ =~= b@);
    true
}

fn str_has_prefix(s: &str, p: &str) -> (r: bool)
    ensures
        r == spec_has_prefix(s@, p@),
{
    let sn: usize = s.unicode_len();
    let pn: usize = p.unicode_len();
    if pn > sn {
        return false;
    }
    for i in 0..pn
        invariant
            sn == s@.len(),
            pn == p@.len(),
            pn <= sn,
            forall|j: int| 0 <= j < i ==> s@[j] == p@[j],
    {
        if s.get_char(i) != p.get_char(i) {
            assert(s@.take(pn as int)[i as int] != p@[i as int]);
            return false;
        }
    }
    assert(s@.take(pn as int) =~= p@);
    true
}

/// The kind a single already-lowercased target atom name classifies as:
/// the UTF-8 string targets and `text/...` names are text, `text/uri-list`
/// is a URI list, `text/html` is markup, `image/...` names are images, and
/// anything else is unsupported.
pub open spec fn spec_classify_name(low: Seq<char>) -> ClipboardDataType {
    if low == "utf8_string"@ || low == "string"@ {
        ClipboardDataType::Text
    } else if low == "text/uri-list"@ {
        ClipboardDataType::Url
    } else if low == "text/html"@ {
        ClipboardDataType::Html
    } else if spec_has_prefix(low, "text/"@) {
        ClipboardDataType::Text
    } else if spec_has_prefix(low, "image/"@) {
        ClipboardDataType::Image
    } else {
        ClipboardDataType::Unsupported
    }
}

/// Classifies one already-lowercased target atom name.
pub fn classify_lower(low: &str) -> (r: ClipboardDataType)
    ensures
        r == spec_classify_name(low@),
{
    if str_eq_str(low, "utf8_string") || str_eq_str(low, "string") {
        ClipboardDataType::Text
    } else if str_eq_str(low, "text/uri-list") {
        ClipboardDataType::Url
    } else if str_eq_str(low, "text/html") {
        ClipboardDataType::Html
    } else if str_has_prefix(low, "text/") {
        ClipboardDataType::Text
    } else if str_has_prefix(low, "image/") {
        ClipboardDataType::Image
    } else {
        ClipboardDataType::Unsupported
    }
}

/// Classifies one target atom name, case-insensitively.
pub fn classify_name(name: &str) -> (r: ClipboardDataType)
    ensures
        r == spec_classify_name(lower_of(name@)),
{
    let low = to_lowercase(name);
    classify_lower(low.as_str())
}

/// The highest-priority kind among the offered names (already lowercased):
/// the maximum by wire code, or `Unsupported` when no name is handleable or
/// the list is empty.
pub open spec fn spec_best_kind(lows: Seq<Seq<char>>) -> ClipboardDataType
    decreases lows.len(),
{
    if lows.len() == 0 {
        ClipboardDataType::Unsupported
    } else {
        let rest = spec_best_kind(lows.drop_last());
        let last = spec_classify_name(lows.last());
        if last.spec_code() >= rest.spec_code() {
            last
        } else {
            rest
        }
    }
}

/// Picks the one kind to ingest from a set of offered target atom names:
/// the highest-priority kind across all offers, case-insensitively.
pub fn classify_offers(names: &Vec<String>) -> (r: ClipboardDataType)
    ensures
        r == spec_best_kind(names.deep_view().map_values(|s: Seq<char>| lower_of(s))),
{
    let ghost lows = names.deep_view().map_values(|s: Seq<char>| lower_of(s));
    let mut best = ClipboardDataType::Unsupported;
    let n: usize = names.len();
    assert(lows.len() == n);
    for i in 0..n
        invariant
            n == names@.len(),
            lows == names.deep_view().map_values(|s: Seq<char>| lower_of(s)),
            lows.len() == n,
            best == spec_best_kind(lows.take(i as int)),
    {
        let kind = classify_name(names[i].as_str());
        proof {
            assert(lows[i as int] == lower_of(names.deep_view()[i as int]));
            assert(names.deep_view()[i as int] == names@[i as int]@);
            assert(lows.take(i + 1).drop_last() =~= lows.take(i as int));
            assert(lows.take(i + 1).last() == lows[i as int]);
        }
        if kind.code() >= best.code() {
            best = kind;
        }
    }
    assert(lows.take(n as int) =~= lows);
    best
}

/// The chosen kind's priority is at least that of every offer.
pub proof fn lemma_best_kind_ge(lows: Seq<Seq<char>>, i: int)
    requires
        0 <= i < lows.len(),
    ensures
        spec_best_kind(lows).spec_code() >= spec_classify_name(lows[i]).spec_code(),
    decreases lows.len(),
{
    if i < lows.len() - 1 {
        lemma_best_kind_ge(lows.drop_last(), i);
        assert(lows.drop_last()[i] == lows[i]);
    }
}

/// The classifier never shadows markup with plain text: when some offer
/// classifies as HTML and none as an image, the chosen kind is HTML —
/// never text, whatever else is offered.
pub proof fn lemma_html_outranks_text(lows: Seq<Seq<char>>)
    requires
        exists|i: int| 0 <= i < lows.len() && spec_classify_name(#[trigger] lows[i])
            == ClipboardDataType::Html,
        forall|i: int| 0 <= i < lows.len() ==> spec_classify_name(#[trigger] lows[i])
            != ClipboardDataType::Image,
    ensures
        spec_best_kind(lows) == ClipboardDataType::Html,
{
    let i = choose|i: int| 0 <= i < lows.len() && spec_classify_name(#[trigger] lows[i])
        == ClipboardDataType::Html;
    lemma_best_kind_ge(lows, i);
    lemma_best_kind_bounded(lows);
}

/// The chosen kind never outranks every offer: it is `Unsupported`, or the
/// kind of some offer.
pub proof fn lemma_best_kind_bounded(lows: Seq<Seq<char>>)
    ensures
        spec_best_kind(lows) == ClipboardDataType::Unsupported || exists|i: int|
            0 <= i < lows.len() && spec_classify_name(#[trigger] lows[i]) == spec_best_kind(lows),
    decreases lows.len(),
{
    if lows.len() > 0 {
        lemma_best_kind_bounded(lows.drop_last());
        let rest = spec_best_kind(lows.drop_last());
        if spec_best_kind(lows) == rest && rest != ClipboardDataType::Unsupported {
            let i = choose|i: int| 0 <= i < lows.drop_last().len() && spec_classify_name(
                #[trigger] lows.drop_last()[i]) == rest;
            assert(lows[i] == lows.drop_last()[i]);
        }
    }
}

} // verus!
