use crate::units::{span, BuildingID, BusStopID, CarID, Duration, PersonID, Time};
use std::collections::BTreeMap;
use std::marker::PhantomData;
use vstd::prelude::*;

verus! {

broadcast use vstd::std_specs::btree::group_btree_axioms;

/// A kind of space whose instances each hold their own occupants.
pub trait SpaceKey {
    /// The number that tells this space apart from the others of its kind.
    spec fn key_of(&self) -> usize;

    /// This space's number.
    fn key(&self) -> (r: usize)
        ensures
            r == self.key_of(),
    ;
}

impl SpaceKey for BuildingID {
    open spec fn key_of(&self) -> usize {
        self.0
    }

    fn key(&self) -> (r: usize) {
        self.0
    }
}

impl SpaceKey for BusStopID {
    open spec fn key_of(&self) -> usize {
        self.0
    }

    fn key(&self) -> (r: usize) {
        self.0
    }
}

impl SpaceKey for CarID {
    open spec fn key_of(&self) -> usize {
        self.0
    }

    fn key(&self) -> (r: usize) {
        self.0
    }
}

/// Who is in a space and since when, in order of arrival.
pub type Occupants = Seq<(PersonID, Time)>;

/// Everyone in `s` but `p`, in the same order.
pub open spec fn without(s: Occupants, p: PersonID) -> Occupants
    decreases s.len(),
{
    if s.len() == 0 {
        s
    } else if s.last().0 == p {
        without(s.drop_last(), p)
    } else {
        without(s.drop_last(), p).push(s.last())
    }
}

/// When `p` entered, going by the latest record of `p` in `s`.
pub open spec fn entered_at(s: Occupants, p: PersonID) -> Option<Time>
    decreases s.len(),
{
    if s.len() == 0 {
        None
    } else if s.last().0 == p {
        Some(s.last().1)
    } else {
        entered_at(s.drop_last(), p)
    }
}

/// How long two people overlapped: from whichever arrived later until `now`.
pub open spec fn overlap(now: Time, theirs: Time, mine: Time) -> Duration {
    Duration(span(if theirs.0 >= mine.0 { theirs.0 } else { mine.0 }, now.0))
}

/// Each of `rest`, with how long it overlapped someone who entered at `mine`
/// and leaves at `now`.
pub open spec fn overlaps(rest: Occupants, now: Time, mine: Time) -> Seq<(PersonID, Duration)> {
    rest.map_values(|o: (PersonID, Time)| (o.0, overlap(now, o.1, mine)))
}

/// What leaving a space with occupants `s` reports: nothing when `p` was not
/// recorded there, else everyone left with their overlap.
pub open spec fn leave_report(s: Occupants, p: PersonID, now: Time) -> Option<Seq<(PersonID, Duration)>> {
    match entered_at(s, p) {
        None => None,
        Some(mine) => Some(overlaps(without(s, p), now, mine)),
    }
}

/// Someone with no record in a space is absent from it.
pub proof fn lemma_no_record_absent(s: Occupants, p: PersonID)
    requires
        forall|i: int| 0 <= i < s.len() ==> s[i].0 != p,
    ensures
        entered_at(s, p) is None,
        without(s, p) == s,
    decreases s.len(),
{
    if s.len() > 0 {
        lemma_no_record_absent(s.drop_last(), p);
        assert(s.drop_last().push(s.last()) == s);
    }
}

/// Nobody left in a space after `p` leaves it is `p`.
pub proof fn lemma_without_has_no_record(s: Occupants, p: PersonID)
    ensures
        forall|i: int| 0 <= i < without(s, p).len() ==> without(s, p)[i].0 != p,
    decreases s.len(),
{
    if s.len() > 0 {
        lemma_without_has_no_record(s.drop_last(), p);
        let w = without(s.drop_last(), p);
        if s.last().0 != p {
            assert forall|i: int| 0 <= i < w.push(s.last()).len() implies w.push(s.last())[i].0 != p by {
                if i < w.len() {
                    assert(w.push(s.last())[i] == w[i]);
                }
            }
        }
    }
}

/// Leaving a space one never entered reports absence, and the space keeps
/// its occupants.
pub proof fn lemma_leave_never_entered(s: Occupants, p: PersonID, now: Time)
    requires
        forall|i: int| 0 <= i < s.len() ==> s[i].0 != p,
    ensures
        leave_report(s, p, now) is None,
        without(s, p) == s,
{
    lemma_no_record_absent(s, p);
}

/// One who enters an empty space and leaves it again overlapped nobody, and
/// the space is empty again.
pub proof fn lemma_lone_occupant(p: PersonID, t: Time, now: Time)
    ensures
        leave_report(seq![(p, t)], p, now) == Some(Seq::<(PersonID, Duration)>::empty()),
        without(seq![(p, t)], p) == Seq::<(PersonID, Time)>::empty(),
{
    let s = seq![(p, t)];
    let e = Seq::<(PersonID, Time)>::empty();
    assert(s.drop_last() == e);
    assert(without(e, p) == e);
    assert(entered_at(e, p) is None);
    assert(overlaps(e, now, t) =~= Seq::<(PersonID, Duration)>::empty());
}

/// Two people enter an empty space at `t1 <= t2`; whichever of them leaves at
/// `t3 >= t2` overlapped the other for `t3 - t2`.
pub proof fn lemma_two_occupants(a: PersonID, b: PersonID, t1: Time, t2: Time, t3: Time)
    requires
        a != b,
        t1.0 <= t2.0 <= t3.0,
    ensures
        leave_report(seq![(a, t1), (b, t2)], a, t3) == Some(seq![(b, Duration((t3.0 - t2.0) as u64))]),
        leave_report(seq![(a, t1), (b, t2)], b, t3) == Some(seq![(a, Duration((t3.0 - t2.0) as u64))]),
{
    let e = Seq::<(PersonID, Time)>::empty();
    let s1 = seq![(a, t1)];
    let s = seq![(a, t1), (b, t2)];
    assert(s.drop_last() == s1);
    assert(s1.drop_last() == e);
    assert(without(e, a) == e);
    assert(without(e, b) == e);
    assert(entered_at(e, a) is None);
    assert(without(s1, a) == e);
    assert(e.push((a, t1)) == s1);
    assert(without(s1, b) == s1);
    assert(entered_at(s1, a) == Some(t1));
    assert(e.push((b, t2)) == seq![(b, t2)]);
    assert(without(s, a) == seq![(b, t2)]);
    assert(without(s, b) == s1);
    assert(overlaps(seq![(b, t2)], t3, t1) =~= seq![(b, Duration((t3.0 - t2.0) as u64))]);
    assert(overlaps(s1, t3, t2) =~= seq![(a, Duration((t3.0 - t2.0) as u64))]);
}

/// However many stay behind, each one's overlap with the leaver runs from
/// the later of that one's own entry and the leaver's entry.
pub proof fn lemma_each_overlap_own_entry(s: Occupants, p: PersonID, now: Time)
    requires
        entered_at(s, p) is Some,
    ensures
        ({
            let mine = entered_at(s, p).unwrap();
            let rest = without(s, p);
            let r = leave_report(s, p, now).unwrap();
            &&& r.len() == rest.len()
            &&& forall|i: int|
                0 <= i < r.len() ==> r[i].0 == rest[i].0 && r[i].1.0 == span(
                    if rest[i].1.0 >= mine.0 { rest[i].1.0 } else { mine.0 },
                    now.0,
                )
        }),
{
}

/// A second leave of the same space by the same person, with no entry in
/// between, reports absence and changes nothing.
pub proof fn lemma_duplicate_leave(s: Occupants, p: PersonID, now: Time)
    ensures
        leave_report(without(s, p), p, now) is None,
        without(without(s, p), p) == without(s, p),
{
    lemma_without_has_no_record(s, p);
    lemma_no_record_absent(without(s, p), p);
}

/// The ledger `m` after `p` enters space `k` at `now`.
pub open spec fn after_enter(m: Map<usize, Occupants>, k: usize, p: PersonID, now: Time) -> Map<usize, Occupants> {
    m.insert(k, m[k].push((p, now)))
}

/// The ledger `m` after `p` tries to leave space `k`: `p` is gone from it
/// when `p` was recorded there, and nothing changes otherwise.
pub open spec fn after_leave(m: Map<usize, Occupants>, k: usize, p: PersonID) -> Map<usize, Occupants> {
    if entered_at(m[k], p) is Some {
        m.insert(k, without(m[k], p))
    } else {
        m
    }
}

/// The occupants of every space of one kind, each tracked separately.
pub struct SharedSpace<T> {
    occupants: BTreeMap<usize, Vec<(PersonID, Time)>>,
    kind: PhantomData<T>,
}

impl<T: SpaceKey> SharedSpace<T> {
    /// The occupants of each space, keyed by the space's number; a space that
    /// nobody entered is empty.
    pub closed spec fn view(&self) -> Map<usize, Occupants> {
        Map::new(
            |k: usize| true,
            |k: usize|
                if self.occupants@.contains_key(k) {
                    self.occupants@[k]@
                } else {
                    Seq::empty()
                },
        )
    }

    /// A ledger in which every space is empty.
    pub fn new() -> (r: SharedSpace<T>)
        ensures
            forall|k: usize| r@[k] == Seq::<(PersonID, Time)>::empty(),
    {
        SharedSpace { occupants: BTreeMap::new(), kind: PhantomData }
    }

    /// Records that `person` entered `space` at `now`.
    pub fn person_enters_space(&mut self, now: Time, person: PersonID, space: T)
        ensures
            final(self)@ == after_enter(old(self)@, space.key_of(), person, now),
    {
        let key = space.key();
        let mut here = match self.occupants.remove(&key) {
            Some(v) => v,
            None => Vec::new(),
        };
        here.push((person, now));
        self.occupants.insert(key, here);
        assert(final(self)@ =~= old(self)@.insert(key, old(self)@[key].push((person, now))));
    }

    /// Removes `person` from `space` at `now`. Returns everyone still there,
    /// in order of arrival, each with how long they were there together with
    /// `person`; or `None` when `person` was not recorded in `space`, in which
    /// case nothing changes.
    pub fn person_leaves_space(&mut self, now: Time, person: PersonID, space: T) -> (r: Option<Vec<(PersonID, Duration)>>)
        ensures
            r is Some == leave_report(old(self)@[space.key_of()], person, now) is Some,
            r is Some ==> r.unwrap()@ == leave_report(old(self)@[space.key_of()], person, now).unwrap(),
            final(self)@ == after_leave(old(self)@, space.key_of(), person),
    {
        let key = space.key();
        let ghost s = self@[key];
        let here = match self.occupants.remove(&key) {
            Some(v) => v,
            None => Vec::new(),
        };
        assert(here@ == s);
        let mut kept: Vec<(PersonID, Time)> = Vec::new();
        let mut inside_since: Option<Time> = None;
        let mut i: usize = 0;
        while i < here.len()
            invariant
                i <= here@.len(),
                kept@ == without(here@.take(i as int), person),
                inside_since == entered_at(here@.take(i as int), person),
            decreases here@.len() - i,
        {
            let entry = here[i];
            assert(here@.take(i + 1).drop_last() == here@.take(i as int));
            if entry.0 == person {
                inside_since = Some(entry.1);
            } else {
                kept.push(entry);
            }
            i = i + 1;
        }
        assert(here@.take(here@.len() as int) == here@);
        match inside_since {
            None => {
                self.occupants.insert(key, here);
                assert(final(self)@ =~= old(self)@);
                None
            },
            Some(mine) => {
                let mut report: Vec<(PersonID, Duration)> = Vec::new();
                let mut j: usize = 0;
                while j < kept.len()
                    invariant
                        j <= kept@.len(),
                        report@ == overlaps(kept@.take(j as int), now, mine),
                    decreases kept@.len() - j,
                {
                    let (p, t) = kept[j];
                    report.push((p, now.since(t.latest(mine))));
                    assert(kept@.take(j + 1) == kept@.take(j as int).push(kept@[j as int]));
                    assert(report@ =~= overlaps(kept@.take(j + 1), now, mine));
                    j = j + 1;
                }
                assert(kept@.take(kept@.len() as int) == kept@);
                self.occupants.insert(key, kept);
                assert(final(self)@ =~= old(self)@.insert(key, without(s, person)));
                Some(report)
            },
        }
    }
}

} // verus!
