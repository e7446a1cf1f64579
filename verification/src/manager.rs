//! The daemon core: the manager owns the history store and carries the
//! watcher's decisions — ingest newly offered content, restore the latest
//! entry when clipboard ownership is lost — and the write-back plan that
//! maps an entry onto clipboard target registrations and data-provider
//! answers.

use vstd::prelude::*;

use crate::classify::ClipboardDataType;
use crate::entry::{ClipboardData, EntryModel};
use crate::text::spec_join_nl;
use crate::storage::{spec_insert, ClipboardStorage};
use crate::text::join_nl;

verus! {

/// What the data-provider callback hands to a consumer that asked for a
/// given clipboard target: either plain text or the URI list itself.
pub enum ProvidedPayload {
    TextPayload(String),
    UriPayload(Vec<String>),
}

impl ClipboardData {
    /// The clipboard targets registered for an entry that is written back
    /// through a data-provider: name and wire code of each. URI lists
    /// offer the URI target with a plain-text fallback; markup offers the
    /// HTML target with a plain-text fallback. Text and images are written
    /// directly and register no provider targets.
    pub fn write_targets(&self) -> (r: Vec<(String, u32)>)
        ensures
            (match self@ {
                EntryModel::Url { .. } => {
                    &&& r@.len() == 2
                    &&& r@[0].0@ == "text/uri-list"@ && r@[0].1
                        == ClipboardDataType::Url.spec_code()
                    &&& r@[1].0@ == "UTF8_STRING"@ && r@[1].1
                        == ClipboardDataType::Text.spec_code()
                },
                EntryModel::Html { .. } => {
                    &&& r@.len() == 2
                    &&& r@[0].0@ == "text/html"@ && r@[0].1 == ClipboardDataType::Html.spec_code()
                    &&& r@[1].0@ == "UTF8_STRING"@ && r@[1].1
                        == ClipboardDataType::Text.spec_code()
                },
                _ => r@.len() == 0,
            }),
    {
        let mut r: Vec<(String, u32)> = Vec::new();
        match self {
            ClipboardData::Url(_) => {
                r.push((String::from_str("text/uri-list"), ClipboardDataType::Url.code()));
                r.push((String::from_str("UTF8_STRING"), ClipboardDataType::Text.code()));
            },
            ClipboardData::Html(_) => {
                r.push((String::from_str("text/html"), ClipboardDataType::Html.code()));
                r.push((String::from_str("UTF8_STRING"), ClipboardDataType::Text.code()));
            },
            _ => {},
        }
        r
    }

    /// The data-provider answer when a consumer requests the target with
    /// the given wire code: a URI-list entry hands out its URIs for the
    /// URI target and the newline-joined text for the text target; a
    /// markup entry hands out its markup for both the HTML and the text
    /// target; anything else is refused.
    pub fn provide(&self, data_type: u32) -> (r: Option<ProvidedPayload>)
        ensures
            (match self@ {
                EntryModel::Url { uris } => {
                    if ClipboardDataType::spec_from_u32(data_type) == ClipboardDataType::Url {
                        r matches Some(p) && p matches ProvidedPayload::UriPayload(u)
                            && u.deep_view() == uris
                    } else if ClipboardDataType::spec_from_u32(data_type)
                        == ClipboardDataType::Text {
                        r matches Some(p) && p matches ProvidedPayload::TextPayload(t) && t@
                            == spec_join_nl(uris)
                    } else {
                        r is None
                    }
                },
                EntryModel::Html { markup } => {
                    if ClipboardDataType::spec_from_u32(data_type) == ClipboardDataType::Html
                        || ClipboardDataType::spec_from_u32(data_type)
                        == ClipboardDataType::Text {
                        r matches Some(p) && p matches ProvidedPayload::TextPayload(t) && t@
                            == markup
                    } else {
                        r is None
                    }
                },
                _ => r is None,
            }),
    {
        match self {
            ClipboardData::Url(uris) => {
                match ClipboardDataType::from_u32(data_type) {
                    ClipboardDataType::Url => Some(
                        ProvidedPayload::UriPayload(crate::entry::clone_strings(uris)),
                    ),
                    ClipboardDataType::Text => Some(
                        ProvidedPayload::TextPayload(join_nl(uris)),
                    ),
                    _ => None,
                }
            },
            ClipboardData::Html(markup) => {
                match ClipboardDataType::from_u32(data_type) {
                    ClipboardDataType::Html => Some(
                        ProvidedPayload::TextPayload(markup.clone()),
                    ),
                    ClipboardDataType::Text => Some(
                        ProvidedPayload::TextPayload(markup.clone()),
                    ),
                    _ => None,
                }
            },
            _ => None,
        }
    }
}

/// The daemon core: the bounded history store, owned exclusively; the
/// caller serialises access behind one lock.
pub struct ClipboardManager {
    storage: ClipboardStorage,
}

impl View for ClipboardManager {
    type V = Seq<EntryModel>;

    closed spec fn view(&self) -> Seq<EntryModel> {
        self.storage@
    }
}

impl ClipboardManager {
    /// The configured bound; zero means unbounded.
    pub closed spec fn spec_max_size(&self) -> usize {
        self.storage.spec_max_size()
    }

    /// The manager's store never exceeds its bound and holds only
    /// well-formed entries.
    pub open spec fn wf(&self) -> bool {
        &&& self.spec_max_size() != 0 ==> self@.len() <= self.spec_max_size()
        &&& forall|i: int| 0 <= i < self@.len() ==> (#[trigger] self@[i]).wf()
    }

    /// Creates a manager with an empty history and the given bound (zero
    /// = unbounded).
    pub fn new(max_size: usize) -> (r: ClipboardManager)
        ensures
            r@ == Seq::<EntryModel>::empty(),
            r.spec_max_size() == max_size,
            r.wf(),
    {
        ClipboardManager { storage: ClipboardStorage::new(max_size) }
    }

    /// The history store, for the read-only request handlers.
    pub fn storage(&self) -> (r: &ClipboardStorage)
        ensures
            r@ == self@,
            r.spec_max_size() == self.spec_max_size(),
            r.wf() == self.wf(),
    {
        &self.storage
    }

    /// Serves `set text` against this manager's store.
    pub fn handle_set_text(&mut self, body: &str) -> (r: Result<
        (String, ClipboardData),
        crate::protocol::ProtocolError,
    >)
        requires
            old(self).wf(),
        ensures
            final(self).wf(),
            final(self).spec_max_size() == old(self).spec_max_size(),
            (match crate::protocol::spec_decode_set_text(body@) {
                Some(t) => {
                    &&& final(self)@ == spec_insert(
                        old(self)@,
                        EntryModel::Text { text: t },
                        old(self).spec_max_size() as int,
                    )
                    &&& r matches Ok(p) && p.0@ == "{}"@ && p.1@ == final(self)@[0]
                },
                None => {
                    &&& final(self)@ == old(self)@
                    &&& r matches Err(e) && e == crate::protocol::ProtocolError::MalformedBody
                },
            }),
    {
        crate::server::set_text(&mut self.storage, body)
    }

    /// Serves `set by index` against this manager's store.
    pub fn handle_set_by_idx(&mut self, body: &str) -> (r: Result<
        (String, Option<ClipboardData>),
        crate::protocol::ProtocolError,
    >)
        requires
            old(self).wf(),
        ensures
            final(self).wf(),
            final(self).spec_max_size() == old(self).spec_max_size(),
            (match crate::protocol::spec_decode_set_by_idx(body@) {
                Some(idx) => {
                    &&& final(self)@ == crate::storage::spec_promote(old(self)@, idx)
                    &&& (match r {
                        Ok(p) => {
                            &&& p.0@ == "{}"@
                            &&& (idx < old(self)@.len() ==> (p.1 matches Some(e) && e@ == old(
                                self,
                            )@[idx] && e@ == final(self)@[0]))
                            &&& (idx >= old(self)@.len() ==> p.1 is None)
                        },
                        Err(_) => false,
                    })
                },
                None => {
                    &&& final(self)@ == old(self)@
                    &&& r matches Err(e) && e == crate::protocol::ProtocolError::MalformedBody
                },
            }),
    {
        crate::server::set_by_idx(&mut self.storage, body)
    }

    /// Ingests one classified, fetched clipboard content item: the
    /// watcher's step when some application owns the clipboard and offers
    /// handleable content.
    pub fn ingest(&mut self, data: ClipboardData)
        requires
            old(self).wf(),
            data@.wf(),
        ensures
            final(self).wf(),
            final(self).spec_max_size() == old(self).spec_max_size(),
            final(self)@ == spec_insert(old(self)@, data@, old(self).spec_max_size() as int),
    {
        self.storage.insert_data(data);
    }

    /// The entry to write back onto the clipboard when ownership was lost
    /// without a successor: the most recent entry, or nothing when the
    /// history is empty.
    pub fn restore_candidate(&self) -> (r: Option<ClipboardData>)
        ensures
            (match r {
                Some(e) => self@.len() > 0 && e@ == self@[0],
                None => self@.len() == 0,
            }),
    {
        match self.storage.get_latest_data() {
            Some(d) => Some(d.duplicate()),
            None => None,
        }
    }
}

} // verus!
