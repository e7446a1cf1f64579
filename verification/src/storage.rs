//! The clipboard history store: an ordered sequence of entries,
//! most-recent-first, with dedup-against-the-front insertion and eviction
//! from the back when a configured bound is exceeded.

use std::collections::VecDeque;

use vstd::prelude::*;

use crate::entry::{entry_eq, lemma_entry_eq_reflexive, ClipboardData, EntryModel};
use crate::UNLIMITED_SIZE;

verus! {

/// `s` cut to at most `max` entries, oldest dropped first; a bound of zero
/// means unbounded.
pub open spec fn spec_trim(s: Seq<EntryModel>, max: int) -> Seq<EntryModel> {
    if max == 0 || s.len() <= max {
        s
    } else {
        s.take(max)
    }
}

/// The insertion rule: a value equal to the current front is dropped, any
/// other value becomes the new front; then the history is trimmed to its
/// bound.
pub open spec fn spec_insert(s: Seq<EntryModel>, e: EntryModel, max: int) -> Seq<EntryModel> {
    if s.len() > 0 && entry_eq(s[0], e) {
        spec_trim(s, max)
    } else {
        spec_trim(seq![e] + s, max)
    }
}

/// The promotion rule: the entry at `i` moves to the front; an out-of-range
/// index leaves the history unchanged.
pub open spec fn spec_promote(s: Seq<EntryModel>, i: int) -> Seq<EntryModel> {
    if 0 <= i < s.len() {
        seq![s[i]] + s.remove(i)
    } else {
        s
    }
}

/// The bounded, deduplicated clipboard history.
pub struct ClipboardStorage {
    max_size: usize,
    datas: VecDeque<ClipboardData>,
}

impl View for ClipboardStorage {
    type V = Seq<EntryModel>;

    closed spec fn view(&self) -> Seq<EntryModel> {
        self.datas@.map_values(|d: ClipboardData| d@)
    }
}

impl ClipboardStorage {
    /// The configured bound; zero means unbounded.
    pub closed spec fn spec_max_size(&self) -> usize {
        self.max_size
    }

    /// The store never exceeds its bound and holds only well-formed
    /// entries.
    pub open spec fn wf(&self) -> bool {
        &&& self.spec_max_size() != 0 ==> self@.len() <= self.spec_max_size()
        &&& forall|i: int| 0 <= i < self@.len() ==> (#[trigger] self@[i]).wf()
    }

    /// Creates an empty history with the given bound (zero = unbounded).
    pub fn new(max_size: usize) -> (r: ClipboardStorage)
        ensures
            r@ == Seq::<EntryModel>::empty(),
            r.spec_max_size() == max_size,
            r.wf(),
    {
        let r = ClipboardStorage { max_size, datas: VecDeque::new() };
        assert(r@ =~= Seq::<EntryModel>::empty());
        r
    }

    /// Inserts an entry by the dedup-on-front rule, then evicts from the
    /// back while the history is over its bound. Always succeeds.
    pub fn insert_data(&mut self, data: ClipboardData)
        requires
            old(self).wf(),
            data@.wf(),
        ensures
            final(self).wf(),
            final(self).spec_max_size() == old(self).spec_max_size(),
            final(self)@ == spec_insert(old(self)@, data@, old(self).spec_max_size() as int),
    {
        let ghost old_model = self@;
        let ghost e = data@;
        if self.datas.len() == 0 {
            self.datas.push_front(data);
            assert(self@ =~= seq![e] + old_model);
        } else if !self.datas[0].same_content(&data) {
            self.datas.push_front(data);
            assert(self@ =~= seq![e] + old_model);
        } else {
            assert(self@ =~= old_model);
        }

        let ghost pre_trim = self@;
        if self.max_size != UNLIMITED_SIZE {
            while self.datas.len() > self.max_size
                invariant
                    self.max_size != 0,
                    self.max_size == old(self).max_size,
                    self@.len() == self.datas@.len(),
                    self@.len() <= pre_trim.len(),
                    self@ =~= pre_trim.take(self@.len() as int),
                    self@.len() >= self.max_size || self@ =~= pre_trim,
                decreases self@.len(),
            {
                let ghost before = self@;
                self.datas.pop_back();
                assert(self@ =~= before.take(before.len() - 1));
                assert(self@ =~= pre_trim.take(self@.len() as int));
            }
            assert(self@.len() <= self.max_size);
            assert(self@ =~= spec_trim(pre_trim, self.max_size as int));
        } else {
            assert(self@ =~= spec_trim(pre_trim, self.max_size as int));
        }
        assert(forall|i: int|
            0 <= i < self@.len() ==> (#[trigger] self@[i]) == pre_trim[i]);
    }

    /// The most recent entry, or nothing when the history is empty.
    pub fn get_latest_data(&self) -> (r: Option<&ClipboardData>)
        ensures
            match r {
                Some(e) => self@.len() > 0 && e@ == self@[0],
                None => self@.len() == 0,
            },
    {
        if self.datas.len() == 0 {
            None
        } else {
            Some(&self.datas[0])
        }
    }

    /// A front-to-back snapshot of the history; recency is not affected.
    pub fn list(&self) -> (r: Vec<&ClipboardData>)
        ensures
            r@.len() == self@.len(),
            forall|i: int| 0 <= i < r@.len() ==> (#[trigger] r@[i])@ == self@[i],
    {
        let mut r: Vec<&ClipboardData> = Vec::new();
        let n: usize = self.datas.len();
        for i in 0..n
            invariant
                n == self.datas@.len(),
                self@.len() == n,
                r@.len() == i,
                forall|j: int| 0 <= j < i ==> (#[trigger] r@[j])@ == self@[j],
        {
            r.push(&self.datas[i]);
        }
        r
    }

    /// Moves the entry at `idx` to the front and returns a copy of it; an
    /// out-of-range index changes nothing and returns nothing.
    pub fn move_to_front(&mut self, idx: usize) -> (r: Option<ClipboardData>)
        requires
            old(self).wf(),
        ensures
            final(self).wf(),
            final(self).spec_max_size() == old(self).spec_max_size(),
            final(self)@ == spec_promote(old(self)@, idx as int),
            match r {
                Some(e) => idx < old(self)@.len() && e@ == old(self)@[idx as int] && e@
                    == final(self)@[0],
                None => idx >= old(self)@.len(),
            },
    {
        let ghost old_model = self@;
        if let Some(data) = self.datas.remove(idx) {
            let ghost removed = self@;
            let ghost e = data@;
            let front = data.duplicate();
            self.datas.push_front(data);
            proof {
                assert(self@ =~= seq![e] + removed);
                assert(removed =~= old_model.remove(idx as int));
                assert(self@ =~= spec_promote(old_model, idx as int));
                assert(forall|i: int|
                    0 <= i < self@.len() ==> exists|j: int|
                        0 <= j < old_model.len() && (#[trigger] self@[i]) == old_model[j]);
            }
            Some(front)
        } else {
            assert(self@ =~= spec_promote(old_model, idx as int));
            None
        }
    }
}

/// Promotion is a rotation of the prefix ending at the promoted index:
/// the promoted entry becomes the front, the entries before it shift one
/// place back, the entries after it stay put, and the length is kept.
pub proof fn lemma_promote_rotation(s: Seq<EntryModel>, i: int)
    requires
        0 <= i < s.len(),
    ensures
        spec_promote(s, i).len() == s.len(),
        spec_promote(s, i)[0] == s[i],
        forall|j: int| 1 <= j <= i ==> spec_promote(s, i)[j] == s[j - 1],
        forall|j: int| i < j < s.len() ==> spec_promote(s, i)[j] == s[j],
{
    let out = spec_promote(s, i);
    assert(out == seq![s[i]] + s.remove(i));
    assert forall|j: int| 1 <= j <= i implies out[j] == s[j - 1] by {
        assert(out[j] == s.remove(i)[j - 1]);
    }
    assert forall|j: int| i < j < s.len() implies out[j] == s[j] by {
        assert(out[j] == s.remove(i)[j - 1]);
    }
}

/// Inserting a value equal to the current front of a within-bound history
/// changes nothing: neither the length nor any entry.
pub proof fn lemma_insert_same_front_is_noop(s: Seq<EntryModel>, e: EntryModel, max: int)
    requires
        s.len() > 0,
        entry_eq(s[0], e),
        max == 0 || s.len() <= max,
    ensures
        spec_insert(s, e, max) == s,
{
}

/// Inserting the same value twice in a row gives the same history as
/// inserting it once.
pub proof fn lemma_insert_twice_idempotent(s: Seq<EntryModel>, e: EntryModel, max: int)
    requires
        max >= 0,
    ensures
        spec_insert(spec_insert(s, e, max), e, max) == spec_insert(s, e, max),
{
    lemma_entry_eq_reflexive(e);
    let s1 = spec_insert(s, e, max);
    if s.len() > 0 && entry_eq(s[0], e) {
        assert(s1.len() > 0 && entry_eq(s1[0], e));
    } else {
        assert((seq![e] + s)[0] == e);
        assert(s1.len() > 0 && entry_eq(s1[0], e));
    }
    assert(spec_insert(s1, e, max) =~= spec_trim(s1, max));
    assert(spec_trim(s1, max) =~= s1);
}

/// With a nonzero bound, an insert never leaves more than `max` entries.
pub proof fn lemma_insert_bounded(s: Seq<EntryModel>, e: EntryModel, max: int)
    requires
        max > 0,
    ensures
        spec_insert(s, e, max).len() <= max,
{
}

/// A value different from the current front always becomes a new front;
/// the surviving older entries keep their order, equal values deeper in the
/// history included.
pub proof fn lemma_insert_distinct_prepends(s: Seq<EntryModel>, e: EntryModel, max: int)
    requires
        max >= 0,
        s.len() == 0 || !entry_eq(s[0], e),
    ensures
        spec_insert(s, e, max) == spec_trim(seq![e] + s, max),
        spec_insert(s, e, max)[0] == e,
        forall|j: int|
            1 <= j < spec_insert(s, e, max).len() ==> spec_insert(s, e, max)[j] == s[j - 1],
{
    assert((seq![e] + s)[0] == e);
    if max != 0 && (seq![e] + s).len() > max {
        assert(spec_trim(seq![e] + s, max)[0] == e);
    }
}

} // verus!
