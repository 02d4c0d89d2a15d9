//! Connections that come and go, each under a number of its own.

use vstd::prelude::*;

verus! {

/// Whether entries are numbered in ascending order below `next`, so that no two have the
/// same number.
pub open spec fn numbered<T>(entries: Seq<(u64, T)>, next: u64) -> bool {
    &&& forall|i: int| 0 <= i < entries.len() ==> (#[trigger] entries[i]).0 < next
    &&& forall|i: int, j: int|
        0 <= i < j < entries.len() ==> (#[trigger] entries[i]).0 < (#[trigger] entries[j]).0
}

/// Tells the entry with this number from all others.
pub open spec fn another_than<T>(number: u64) -> spec_fn((u64, T)) -> bool {
    |entry: (u64, T)| entry.0 != number
}

/// The entries that are left when the one with this number leaves.
pub open spec fn without<T>(entries: Seq<(u64, T)>, number: u64) -> Seq<(u64, T)> {
    entries.filter(another_than(number))
}

/// The entries for which `keep` says so.
pub open spec fn kept<T>(entries: Seq<(u64, T)>, keep: Seq<bool>) -> Seq<(u64, T)>
    decreases entries.len(),
{
    if entries.len() == 0 {
        Seq::empty()
    } else {
        let before = kept(entries.drop_last(), keep.drop_last());
        if keep.last() {
            before.push(entries.last())
        } else {
            before
        }
    }
}

/// One that enters is there with all who were there before.
pub proof fn law_entering<T>(entries: Seq<(u64, T)>, entering: (u64, T), entry: (u64, T))
    ensures
        entries.push(entering).contains(entry) == (entries.contains(entry) || entry == entering),
{
    if entries.contains(entry) {
        let i = choose|i: int| 0 <= i < entries.len() && entries[i] == entry;
        assert(entries.push(entering)[i] == entry);
    }
    assert(entries.push(entering)[entries.len() as int] == entering);
}

/// One that leaves takes nobody along: every other one still is there, and it is not.
pub proof fn law_leaving<T>(entries: Seq<(u64, T)>, number: u64, entry: (u64, T))
    ensures
        without(entries, number).contains(entry) == (entries.contains(entry) && entry.0 != number),
{
    let stays = another_than::<T>(number);
    let left = entries.filter(stays);
    if left.contains(entry) {
        let i = choose|i: int| 0 <= i < left.len() && left[i] == entry;
        entries.lemma_filter_pred(stays, i);
        entries.lemma_filter_contains_rev(stays, entry);
    }
    if entries.contains(entry) && entry.0 != number {
        let i = choose|i: int| 0 <= i < entries.len() && entries[i] == entry;
        entries.lemma_filter_contains(stays, i);
    }
}

/// Where all are kept, nobody goes.
pub proof fn law_keeping_all<T>(entries: Seq<(u64, T)>, keep: Seq<bool>)
    requires
        entries.len() == keep.len(),
        forall|i: int| 0 <= i < keep.len() ==> keep[i],
    ensures
        kept(entries, keep) == entries,
    decreases entries.len(),
{
    if entries.len() > 0 {
        law_keeping_all(entries.drop_last(), keep.drop_last());
        assert(entries.drop_last().push(entries.last()) =~= entries);
    } else {
        assert(kept(entries, keep) =~= entries);
    }
}

/// Where some are not kept, exactly those go.
pub proof fn law_keeping_some<T>(entries: Seq<(u64, T)>, keep: Seq<bool>, i: int)
    requires
        exists|next: u64| #[trigger] numbered(entries, next),
        entries.len() == keep.len(),
        0 <= i < entries.len(),
    ensures
        kept(entries, keep).contains(entries[i]) == keep[i],
    decreases entries.len(),
{
    let front = entries.drop_last();
    let before = kept(front, keep.drop_last());
    let next = choose|next: u64| #[trigger] numbered(entries, next);
    assert(numbered(front, next));
    if i < front.len() {
        law_keeping_some(front, keep.drop_last(), i);
        assert(entries[i].0 < entries.last().0);
    } else {
        assert(numbered(front, entries.last().0));
        lemma_kept_numbered(front, keep.drop_last(), entries.last().0);
    }
    if keep.last() {
        law_entering(before, entries.last(), entries[i]);
    }
}

/// Keeping some keeps the numbering, and brings in nobody.
pub proof fn lemma_kept_numbered<T>(entries: Seq<(u64, T)>, keep: Seq<bool>, next: u64)
    requires
        numbered(entries, next),
    ensures
        numbered(kept(entries, keep), next),
        forall|entry: (u64, T)|
            #[trigger] kept(entries, keep).contains(entry) ==> entries.contains(entry),
    decreases entries.len(),
{
    if entries.len() > 0 {
        let front = entries.drop_last();
        let before = kept(front, keep.drop_last());
        assert(numbered(front, entries.last().0));
        lemma_kept_numbered(front, keep.drop_last(), entries.last().0);
        assert(entries =~= front.push(entries.last()));
        assert forall|entry: (u64, T)| #[trigger]
            kept(entries, keep).contains(entry) implies entries.contains(entry) by {
            law_entering(front, entries.last(), entry);
            law_entering(before, entries.last(), entry);
        }
    }
}

/// Removing one keeps the numbering.
pub proof fn lemma_without_numbered<T>(entries: Seq<(u64, T)>, number: u64, next: u64)
    requires
        numbered(entries, next),
    ensures
        numbered(without(entries, number), next),
    decreases entries.len(),
{
    reveal(Seq::filter);
    if entries.len() > 0 {
        let front = entries.drop_last();
        assert(numbered(front, entries.last().0));
        lemma_without_numbered(front, number, entries.last().0);
    }
}

/// Connections, oldest first, each under a number that is never given out again.
pub struct Roster<T> {
    entries: Vec<(u64, T)>,
    next: u64,
}

impl<T> View for Roster<T> {
    type V = Seq<(u64, T)>;

    closed spec fn view(&self) -> Seq<(u64, T)> {
        self.entries@
    }
}

impl<T> Roster<T> {
    /// The number of the next entry.
    pub closed spec fn upcoming(self) -> u64 {
        self.next
    }

    /// The numbers tell the entries apart, and the next one will have a new one.
    pub open spec fn wf(self) -> bool {
        numbered(self@, self.upcoming())
    }

    /// Nobody is there.
    pub fn new() -> (roster: Roster<T>)
        ensures
            roster.wf(),
            roster@ == Seq::<(u64, T)>::empty(),
            roster.upcoming() == 0,
    {
        Roster { entries: Vec::new(), next: 0 }
    }

    /// Whether a number is left for another entry.
    pub fn has_room(&self) -> (room: bool)
        ensures
            room == (self.upcoming() < u64::MAX),
    {
        self.next < u64::MAX
    }

    /// Lets one in, under a number of its own.
    pub fn enter(&mut self, item: T) -> (number: u64)
        requires
            old(self).wf(),
            old(self).upcoming() < u64::MAX,
        ensures
            final(self).wf(),
            number == old(self).upcoming(),
            final(self)@ == old(self)@.push((number, item)),
            final(self).upcoming() == number + 1,
    {
        let number: u64 = self.next;
        self.entries.push((number, item));
        self.next = number + 1;
        number
    }

    /// How many there are.
    pub fn len(&self) -> (count: usize)
        ensures
            count == self@.len(),
    {
        self.entries.len()
    }

    /// The entry at an index, without its number.
    pub fn get(&self, index: usize) -> (item: &T)
        requires
            index < self@.len(),
        ensures
            *item == self@[index as int].1,
    {
        &self.entries[index].1
    }

    /// Removes those for which `keep` does not say that they stay.
    pub fn retain(&mut self, keep: &[bool])
        requires
            old(self).wf(),
            keep@.len() == old(self)@.len(),
        ensures
            final(self).wf(),
            final(self)@ == kept(old(self)@, keep@),
            final(self).upcoming() == old(self).upcoming(),
            forall|i: int|
                0 <= i < keep@.len() ==> final(self)@.contains(#[trigger] old(self)@[i])
                    == keep@[i],
            forall|entry: (u64, T)| #[trigger]
                final(self)@.contains(entry) ==> old(self)@.contains(entry),
    {
        let ghost all = self@;
        let mut seen: usize = 0;
        let mut i: usize = 0;
        assert(kept(all.take(0), keep@.take(0)) =~= self@.take(0));
        while seen < keep.len()
            invariant
                i <= seen <= all.len() == keep@.len(),
                self.entries@.len() - i == all.len() - seen,
                self@.take(i as int) == kept(all.take(seen as int), keep@.take(seen as int)),
                self@.skip(i as int) == all.skip(seen as int),
                self.upcoming() == old(self).upcoming(),
            decreases keep@.len() - seen,
        {
            let ghost before = self@;
            proof {
                assert(all.take(seen + 1).drop_last() =~= all.take(seen as int));
                assert(keep@.take(seen + 1).drop_last() =~= keep@.take(seen as int));
                assert(all.skip(seen as int)[0] == all[seen as int]);
                assert(before.skip(i as int)[0] == before[i as int]);
                assert(all.skip(seen + 1) =~= all.skip(seen as int).skip(1));
            }
            if keep[seen] {
                i += 1;
                assert(self@.take(i as int) =~= before.take(i - 1).push(before[i - 1]));
                assert(self@.skip(i as int) =~= before.skip(i - 1).skip(1));
            } else {
                let _ = self.entries.remove(i);
                assert(self@.take(i as int) =~= before.take(i as int));
                assert(self@.skip(i as int) =~= before.skip(i as int).skip(1));
            }
            seen += 1;
        }
        proof {
            assert(all.take(seen as int) =~= all);
            assert(keep@.take(seen as int) =~= keep@);
            assert(self@.take(i as int) =~= self@);
            lemma_kept_numbered(all, keep@, self.next);
            assert forall|k: int| 0 <= k < keep@.len() implies self@.contains(#[trigger] all[k])
                == keep@[k] by {
                law_keeping_some(all, keep@, k);
            }
        }
    }

    /// Removes the one with this number. One that is not there any more stays away.
    pub fn leave(&mut self, number: u64)
        requires
            old(self).wf(),
        ensures
            final(self).wf(),
            final(self)@ == without(old(self)@, number),
            final(self).upcoming() == old(self).upcoming(),
            forall|entry: (u64, T)| #[trigger]
                final(self)@.contains(entry) == (old(self)@.contains(entry) && entry.0 != number),
    {
        let ghost all = self@;
        let ghost stays = another_than::<T>(number);
        let ghost mut seen: int = 0;
        let mut i: usize = 0;
        assert(all.take(0).filter(stays) =~= Seq::empty()) by {
            reveal(Seq::filter);
        }
        while i < self.entries.len()
            invariant
                i <= self.entries@.len(),
                0 <= seen <= all.len(),
                self.entries@.len() - i == all.len() - seen,
                stays == another_than::<T>(number),
                self@.take(i as int) == all.take(seen).filter(stays),
                self@.skip(i as int) == all.skip(seen),
                self.upcoming() == old(self).upcoming(),
            decreases self.entries@.len() - i,
        {
            let ghost before = self@;
            proof {
                reveal(Seq::filter);
                assert(all.take(seen + 1).drop_last() =~= all.take(seen));
                assert(all.skip(seen)[0] == all[seen]);
                assert(before.skip(i as int)[0] == before[i as int]);
                assert(all.skip(seen + 1) =~= all.skip(seen).skip(1));
            }
            if self.entries[i].0 == number {
                let _ = self.entries.remove(i);
                assert(self@.take(i as int) =~= before.take(i as int));
                assert(self@.skip(i as int) =~= before.skip(i as int).skip(1));
            } else {
                i += 1;
                assert(self@.take(i as int) =~= before.take(i - 1).push(before[i - 1]));
                assert(self@.skip(i as int) =~= before.skip(i - 1).skip(1));
            }
            proof {
                seen = seen + 1;
            }
        }
        proof {
            assert(all.take(seen) =~= all);
            assert(self@.take(i as int) =~= self@);
            lemma_without_numbered(all, number, self.next);
            assert forall|entry: (u64, T)| #[trigger]
                self@.contains(entry) == (all.contains(entry) && entry.0 != number) by {
                law_leaving(all, number, entry);
            }
        }
    }
}

/// Entries are numbered if each number is below that of the next entry to come, and each is
/// above those before it.
pub proof fn law_numbered<T>(entries: Seq<(u64, T)>, next: u64)
    ensures
        numbered(entries, next) <==> {
            &&& forall|i: int| 0 <= i < entries.len() ==> (#[trigger] entries[i]).0 < next
            &&& forall|i: int, j: int|
                0 <= i < j < entries.len() ==> (#[trigger] entries[i]).0 < (
                #[trigger] entries[j]).0
        },
{
}

/// The one with a number leaves its place, and all others close up; without it nothing
/// changes.
pub proof fn law_leaving_by_index<T>(entries: Seq<(u64, T)>, number: u64, next: u64)
    requires
        numbered(entries, next),
    ensures
        forall|k: int|
            0 <= k < entries.len() && (#[trigger] entries[k]).0 == number ==> without(
                entries,
                number,
            ) == entries.remove(k),
        (forall|k: int| 0 <= k < entries.len() ==> (#[trigger] entries[k]).0 != number) ==> without(
            entries,
            number,
        ) == entries,
    decreases entries.len(),
{
    reveal(Seq::filter);
    if entries.len() > 0 {
        let front = entries.drop_last();
        let last = entries.last();
        assert(numbered(front, last.0));
        assert(entries[entries.len() - 1] == last);
        assert(entries =~= front.push(last));
        law_leaving_by_index(front, number, last.0);
        assert forall|k: int| 0 <= k < front.len() implies #[trigger] front[k] == entries[k] by {}
        assert forall|k: int| 0 <= k < entries.len() && (#[trigger] entries[k]).0
            == number implies without(entries, number) == entries.remove(k) by {
            if k < front.len() {
                assert(front[k].0 == number);
                assert(last.0 != number);
                assert(without(front, number) == front.remove(k));
                assert(without(entries, number) =~= entries.remove(k));
            } else {
                assert forall|j: int| 0 <= j < front.len() implies (#[trigger] front[j]).0
                    != number by {
                    assert(entries[j].0 < entries[k].0);
                }
                assert(without(entries, number) =~= entries.remove(k));
            }
        }
        if forall|k: int| 0 <= k < entries.len() ==> (#[trigger] entries[k]).0 != number {
            assert forall|k: int| 0 <= k < front.len() implies (#[trigger] front[k]).0
                != number by {
                assert(front[k] == entries[k]);
            }
        }
    } else {
        assert(without(entries, number) =~= entries);
    }
}

/// Those who are kept stay in the order in which they were.
pub proof fn law_kept_in_order<T>(entries: Seq<(u64, T)>, keep: Seq<bool>, next: u64)
    requires
        numbered(entries, next),
    ensures
        forall|i: int, j: int|
            0 <= i < j < kept(entries, keep).len() ==> (#[trigger] kept(entries, keep)[i]).0 < (
            #[trigger] kept(entries, keep)[j]).0,
        forall|entry: (u64, T)|
            #[trigger] kept(entries, keep).contains(entry) ==> entries.contains(entry),
{
    lemma_kept_numbered(entries, keep, next);
}

/// Where one is judged last, all before it are kept as they would be without it.
pub proof fn law_kept_one_by_one<T>(
    entries: Seq<(u64, T)>,
    keep: Seq<bool>,
    entry: (u64, T),
    stays: bool,
)
    requires
        entries.len() == keep.len(),
    ensures
        kept(entries.push(entry), keep.push(stays)) == if stays {
            kept(entries, keep).push(entry)
        } else {
            kept(entries, keep)
        },
{
    assert(entries.push(entry).drop_last() =~= entries);
    assert(keep.push(stays).drop_last() =~= keep);
}

} // verus!
