//! Runtime entry model: the working set of per-day texts of one session.
//!
//! The model is built from a loaded [`Diary`] and converted back into one
//! before each save. Entry creation is an explicit get-or-create operation;
//! entries are removed only by an explicit delete. The text being edited
//! lives in the embedding program's buffer capability; the model holds the
//! authoritative texts, refreshed from a captured snapshot before a save.

use vstd::prelude::*;

use crate::date::Date;
use crate::diary::{lemma_to_map_contains, Diary};

verus! {

/// `m` with an empty entry added under `d` if none exists.
pub open spec fn with_default(m: Map<Date, Seq<char>>, d: Date) -> Map<Date, Seq<char>> {
    if m.contains_key(d) {
        m
    } else {
        m.insert(d, Seq::<char>::empty())
    }
}

/// `m` with the texts of `snap` applied in order: a snapshot text for a day
/// that has an entry replaces that entry's text; other days are ignored.
pub open spec fn with_snapshot(m: Map<Date, Seq<char>>, snap: Seq<(Date, Seq<char>)>) -> Map<
    Date,
    Seq<char>,
>
    decreases snap.len(),
{
    if snap.len() == 0 {
        m
    } else {
        let m1 = with_snapshot(m, snap.drop_last());
        let e = snap.last();
        if m1.contains_key(e.0) {
            m1.insert(e.0, e.1)
        } else {
            m1
        }
    }
}

/// Applying a snapshot never adds or removes entries.
pub proof fn lemma_with_snapshot_dom(m: Map<Date, Seq<char>>, snap: Seq<(Date, Seq<char>)>)
    ensures
        with_snapshot(m, snap).dom() == m.dom(),
    decreases snap.len(),
{
    if snap.len() > 0 {
        lemma_with_snapshot_dom(m, snap.drop_last());
        assert(with_snapshot(m, snap).dom() =~= m.dom());
    }
}

/// The session's working set: one owned text per calendar day.
pub struct EntryModel {
    pub doc: Diary,
}

impl View for EntryModel {
    type V = Map<Date, Seq<char>>;

    open spec fn view(&self) -> Map<Date, Seq<char>> {
        self.doc@
    }
}

impl EntryModel {
    /// All keys are well-formed dates, none repeated.
    pub open spec fn wf(self) -> bool {
        self.doc.wf()
    }

    /// An empty working set.
    pub fn new() -> (r: EntryModel)
        ensures
            r.wf(),
            r@ == Map::<Date, Seq<char>>::empty(),
    {
        EntryModel { doc: Diary::new() }
    }

    /// Adopts a loaded document as the working set.
    pub fn from_document(doc: Diary) -> (r: EntryModel)
        requires
            doc.wf(),
        ensures
            r.wf(),
            r@ == doc@,
    {
        EntryModel { doc }
    }

    /// Whether an entry exists for `d`.
    pub fn contains(&self, d: Date) -> (r: bool)
        requires
            self.wf(),
        ensures
            r == self@.contains_key(d),
    {
        self.doc.contains(d)
    }

    /// The entry text for `d`, if any.
    pub fn get(&self, d: Date) -> (r: Option<&String>)
        requires
            self.wf(),
        ensures
            r matches Some(t) ==> self@.contains_key(d) && t@ == self@[d],
            r is None ==> !self@.contains_key(d),
    {
        self.doc.get(d)
    }

    /// Explicit get-or-create: after the call an entry exists for `d`,
    /// empty if it was absent.
    pub fn ensure_entry(&mut self, d: Date)
        requires
            old(self).wf(),
            d.wf(),
        ensures
            final(self).wf(),
            final(self)@ == with_default(old(self)@, d),
            final(self)@.contains_key(d),
    {
        if !self.doc.contains(d) {
            let s = String::new();
            self.doc.set(d, s);
        }
    }

    /// Removes the entry for `d`, if any.
    pub fn remove_entry(&mut self, d: Date)
        requires
            old(self).wf(),
        ensures
            final(self).wf(),
            final(self)@ == old(self)@.remove(d),
    {
        self.doc.remove(d);
    }

    /// Replaces entry texts with a freshly captured snapshot of the
    /// buffers' current content. A snapshot day without an entry is
    /// ignored; no entry is created or removed.
    pub fn apply_snapshot(&mut self, snap: &Vec<(Date, String)>)
        requires
            old(self).wf(),
        ensures
            final(self).wf(),
            final(self)@ == with_snapshot(old(self)@, crate::codec::view_pairs(snap@)),
            final(self)@.dom() == old(self)@.dom(),
    {
        let ghost sv = crate::codec::view_pairs(snap@);
        let n = snap.len();
        let mut i: usize = 0;
        while i < n
            invariant
                i <= n,
                n == snap@.len(),
                sv == crate::codec::view_pairs(snap@),
                self.wf(),
                self@ == with_snapshot(old(self)@, sv.take(i as int)),
            decreases n - i,
        {
            let d = snap[i].0;
            proof {
                assert(sv.take(i as int + 1).drop_last() =~= sv.take(i as int));
                assert(sv.take(i as int + 1).last() == sv[i as int]);
                assert(sv[i as int] == (snap@[i as int].0, snap@[i as int].1@));
            }
            if self.doc.contains(d) {
                proof {
                    lemma_to_map_contains(crate::codec::view_pairs(self.doc.entries@), d);
                    let vp = crate::codec::view_pairs(self.doc.entries@);
                    let k = choose|k: int| 0 <= k < vp.len() && (#[trigger] vp[k]).0 == d;
                    assert(self.doc.entries@[k].0 == d);
                    assert(d.wf());
                }
                let t = snap[i].1.clone();
                self.doc.set(d, t);
            }
            i += 1;
        }
        proof {
            assert(sv.take(n as int) =~= sv);
            lemma_with_snapshot_dom(old(self)@, sv);
        }
    }
}

} // verus!
