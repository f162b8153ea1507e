use crate::random::{gen_range, gen_ratio};
use crate::shared_space::{after_enter, after_leave, leave_report, Occupants, SharedSpace};
use crate::units::{later, BuildingID, BusStopID, CarID, Duration, PersonID, Time, SECONDS_PER_HOUR};
use rand_xorshift::XorShiftRng;
use std::collections::{BTreeMap, BTreeSet};
use vstd::prelude::*;

verus! {

broadcast use vstd::std_specs::btree::group_btree_axioms, vstd::laws_cmp::group_laws_cmp;

/// Chance, one in this many, that a person is infected when the run starts.
pub const INITIAL_INFECTION_ONE_IN: u32 = 10;

/// Chance, one in this many, that an eligible pair passes on the infection.
pub const TRANSMISSION_ONE_IN: u32 = 10;

/// Chance, one in this many, that a newly infected person will be hospitalized.
pub const HOSPITALIZATION_ONE_IN: u32 = 10;

/// A pair can pass on the infection only when their overlap is strictly longer
/// than this many seconds.
pub const TRANSMISSION_MIN_OVERLAP: u64 = 3600;

/// Earliest delay, in seconds, from infection to hospitalization.
pub const HOSPITALIZATION_DELAY_MIN: u64 = 3600;

/// Delays from infection to hospitalization stay below this many seconds.
pub const HOSPITALIZATION_DELAY_MAX: u64 = 10800;

/// Work that the model asks to have handed back to it later.
#[derive(Clone, Copy, Debug, PartialEq, Eq, Structural, PartialOrd, Ord, Hash)]
pub enum Cmd {
    BecomeHospitalized(PersonID),
}

/// The person a command is about.
pub open spec fn cmd_person(c: Cmd) -> PersonID {
    match c {
        Cmd::BecomeHospitalized(p) => p,
    }
}

/// What a trip of one person is starting to do.
#[derive(Clone, Copy, Debug, PartialEq, Eq, Structural)]
pub enum TripPhaseType {
    WaitingForBus(BusStopID),
    RidingBus(BusStopID, CarID),
    Walking,
    Other,
}

/// Something that happened in the mobility simulation.
#[derive(Clone, Copy, Debug, PartialEq, Eq, Structural)]
pub enum Event {
    PersonEntersBuilding(PersonID, BuildingID),
    PersonLeavesBuilding(PersonID, BuildingID),
    TripPhaseStarting(PersonID, TripPhaseType),
    Other,
}

/// Commands the model asked for, each with the time at which it is due, in
/// the order they were asked for. The host moves them into its own
/// time-ordered queue and hands each back through `handle_cmd` when due.
pub struct Scheduler {
    queue: Vec<(Time, Cmd)>,
}

impl Scheduler {
    pub closed spec fn view(&self) -> Seq<(Time, Cmd)> {
        self.queue@
    }

    pub fn new() -> (r: Scheduler)
        ensures
            r@ == Seq::<(Time, Cmd)>::empty(),
    {
        Scheduler { queue: Vec::new() }
    }

    /// Asks for `cmd` to be handed back at `time`.
    pub fn push(&mut self, time: Time, cmd: Cmd)
        ensures
            final(self)@ == old(self)@.push((time, cmd)),
    {
        self.queue.push((time, cmd));
    }

    /// Hands out every command asked for so far and forgets them.
    pub fn take_pending(&mut self) -> (r: Vec<(Time, Cmd)>)
        ensures
            r@ == old(self)@,
            final(self)@ == Seq::<(Time, Cmd)>::empty(),
    {
        let mut out: Vec<(Time, Cmd)> = Vec::new();
        std::mem::swap(&mut out, &mut self.queue);
        out
    }
}

/// `t` is a time at which a hospitalization for someone infected at `now`
/// may fall due.
pub open spec fn hospitalization_time(now: Time, t: Time) -> bool {
    ||| now.0 + HOSPITALIZATION_DELAY_MIN <= t.0 < now.0 + HOSPITALIZATION_DELAY_MAX
    ||| (t.0 == u64::MAX && now.0 + HOSPITALIZATION_DELAY_MAX > u64::MAX + 1)
}

/// The queue went from `before` to `after` by appending only hospitalizations
/// of people in `newly`, each due at a time allowed for an infection at `now`.
pub open spec fn schedules_only(
    before: Seq<(Time, Cmd)>,
    after: Seq<(Time, Cmd)>,
    now: Time,
    newly: Set<usize>,
) -> bool {
    &&& before.len() <= after.len()
    &&& after.take(before.len() as int) == before
    &&& forall|k: int|
        before.len() <= k < after.len() ==> {
            &&& newly.contains(cmd_person((#[trigger] after[k]).1).0)
            &&& hospitalization_time(now, after[k].0)
        }
}

/// The numbers of the people of `pop` whose draw in `draws` succeeded.
pub open spec fn chosen(pop: Seq<PersonID>, draws: Seq<bool>) -> Set<usize> {
    Set::new(|q: usize| exists|j: int| 0 <= j < pop.len() && j < draws.len() && draws[j] && pop[j].0 == q)
}

/// Nobody appears twice in `pop`.
pub open spec fn distinct(pop: Seq<PersonID>) -> bool {
    forall|i: int, j: int| 0 <= i < j < pop.len() ==> pop[i] != pop[j]
}

/// From index `from` on, the commands in `q` are each for a different person.
pub open spec fn at_most_one_each(from: int, q: Seq<(Time, Cmd)>) -> bool {
    forall|k1: int, k2: int|
        from <= k1 < k2 < q.len() ==> cmd_person((#[trigger] q[k1]).1) != cmd_person((#[trigger] q[k2]).1)
}

/// An overlap long enough to pass on the infection.
pub open spec fn long_enough(d: Duration) -> bool {
    d.0 > TRANSMISSION_MIN_OVERLAP
}

/// Who catches the infection from a pair: `person`, whose status is
/// `person_sick`, and `other`, whose status is `other_sick`, overlapped for
/// `overlap`; `drew` is the outcome of the transmission draw, which is only
/// taken when exactly one of them is infected and the overlap is long enough.
pub open spec fn pair_outcome(
    person: PersonID,
    person_sick: bool,
    other: PersonID,
    other_sick: bool,
    overlap: Duration,
    drew: bool,
) -> Option<PersonID> {
    if person_sick != other_sick && long_enough(overlap) && drew {
        Some(if person_sick { other } else { person })
    } else {
        None
    }
}

/// The infected set after `person` met each of `others` in turn, starting
/// from `inf`, where the pair with `others[j]` drew `draws[j]`; each pair sees
/// the infections of the pairs before it.
pub open spec fn spread(
    inf: Set<usize>,
    person: PersonID,
    others: Seq<(PersonID, Duration)>,
    draws: Seq<bool>,
) -> Set<usize>
    decreases others.len(),
{
    if others.len() == 0 || draws.len() == 0 {
        inf
    } else {
        let before = spread(inf, person, others.drop_last(), draws.drop_last());
        let other = others.last().0;
        match pair_outcome(
            person,
            before.contains(person.0),
            other,
            before.contains(other.0),
            others.last().1,
            draws.last(),
        ) {
            Some(w) => before.insert(w.0),
            None => before,
        }
    }
}

/// No pair of `person` with one of `others` is eligible for a draw given the
/// infected set `inf`: each shares `person`'s status or overlapped too briefly.
pub open spec fn no_pair_eligible(inf: Set<usize>, person: PersonID, others: Seq<(PersonID, Duration)>) -> bool {
    forall|j: int|
        0 <= j < others.len() ==> inf.contains(person.0) == inf.contains(#[trigger] others[j].0.0)
            || !long_enough(others[j].1)
}

/// What may come of `person` leaving a space shared with `others`: the
/// infected set is what the pairs give for some outcome of their draws, it
/// stays within the bounds above, and when no pair is eligible no draw is
/// taken at all.
pub open spec fn transmission_outcome(
    inf_before: Set<usize>,
    inf_after: Set<usize>,
    queue_before: Seq<(Time, Cmd)>,
    queue_after: Seq<(Time, Cmd)>,
    rng_before: XorShiftRng,
    rng_after: XorShiftRng,
    now: Time,
    person: PersonID,
    others: Seq<(PersonID, Duration)>,
) -> bool {
    &&& transmission_bounds(inf_before, inf_after, queue_before, queue_after, now, person, others)
    &&& exists|draws: Seq<bool>|
        draws.len() == others.len() && inf_after == #[trigger] spread(inf_before, person, others, draws)
    &&& no_pair_eligible(inf_before, person, others) ==> rng_after == rng_before
}

/// The queue `q` after a newly infected `person` at `now` drew `delay`: the
/// delay to hospitalization, or `None` for no hospitalization.
pub open spec fn hospitalization_after(
    q: Seq<(Time, Cmd)>,
    now: Time,
    person: PersonID,
    delay: Option<Duration>,
) -> Seq<(Time, Cmd)> {
    match delay {
        Some(d) => q.push((Time(later(now.0, d.0)), Cmd::BecomeHospitalized(person))),
        None => q,
    }
}

/// Bounds on what may come of `person` leaving a space shared with
/// `others`, whatever is drawn: infected people stay infected; `person` catches it only from someone among
/// `others` who was infected before and overlapped long enough; anyone else
/// catches it only from `person`, when `person` ends up infected and they
/// overlapped long enough; and the only commands asked for are
/// hospitalizations of the newly infected.
pub open spec fn transmission_bounds(
    inf_before: Set<usize>,
    inf_after: Set<usize>,
    queue_before: Seq<(Time, Cmd)>,
    queue_after: Seq<(Time, Cmd)>,
    now: Time,
    person: PersonID,
    others: Seq<(PersonID, Duration)>,
) -> bool {
    &&& inf_before.subset_of(inf_after)
    &&& (inf_after.contains(person.0) && !inf_before.contains(person.0)) ==> exists|j: int|
        0 <= j < others.len() && long_enough(others[j].1) && #[trigger] inf_before.contains(
            others[j].0.0,
        )
    &&& forall|q: usize|
        #![trigger inf_after.contains(q)]
        inf_after.contains(q) && !inf_before.contains(q) && q != person.0 ==> {
            &&& inf_after.contains(person.0)
            &&& exists|j: int| 0 <= j < others.len() && others[j].0.0 == q && long_enough(others[j].1)
        }
    &&& schedules_only(queue_before, queue_after, now, inf_after.difference(inf_before))
}

/// An outcome that infects nobody also schedules nothing.
proof fn lemma_no_new_infection_no_command(
    inf_before: Set<usize>,
    inf_after: Set<usize>,
    queue_before: Seq<(Time, Cmd)>,
    queue_after: Seq<(Time, Cmd)>,
    now: Time,
    person: PersonID,
    others: Seq<(PersonID, Duration)>,
)
    requires
        transmission_bounds(inf_before, inf_after, queue_before, queue_after, now, person, others),
        forall|q: usize| inf_after.contains(q) ==> inf_before.contains(q),
    ensures
        inf_after == inf_before,
        queue_after == queue_before,
{
    assert(inf_after =~= inf_before);
    if queue_after.len() > queue_before.len() {
        let k = queue_before.len() as int;
        assert(inf_after.difference(inf_before).contains(cmd_person(queue_after[k].1).0));
    }
    assert(queue_after =~= queue_after.take(queue_before.len() as int));
}

/// Overlaps of at most the threshold pass on nothing: when none is longer,
/// no draw is taken, nobody is infected and nothing is scheduled.
pub proof fn lemma_short_overlaps_change_nothing(
    inf_before: Set<usize>,
    inf_after: Set<usize>,
    queue_before: Seq<(Time, Cmd)>,
    queue_after: Seq<(Time, Cmd)>,
    rng_before: XorShiftRng,
    rng_after: XorShiftRng,
    now: Time,
    person: PersonID,
    others: Seq<(PersonID, Duration)>,
)
    requires
        transmission_outcome(
            inf_before,
            inf_after,
            queue_before,
            queue_after,
            rng_before,
            rng_after,
            now,
            person,
            others,
        ),
        forall|j: int| 0 <= j < others.len() ==> others[j].1.0 <= TRANSMISSION_MIN_OVERLAP,
    ensures
        inf_after == inf_before,
        queue_after == queue_before,
        rng_after == rng_before,
{
    assert(no_pair_eligible(inf_before, person, others));
    assert forall|q: usize| inf_after.contains(q) implies inf_before.contains(q) by {
        if !inf_before.contains(q) && q != person.0 {
            let j = choose|j: int| 0 <= j < others.len() && others[j].0.0 == q && long_enough(others[j].1);
        }
    }
    lemma_no_new_infection_no_command(inf_before, inf_after, queue_before, queue_after, now, person, others);
}

/// Only a pair of one infected and one uninfected person can pass on the
/// infection: when `person` and all of `others` share one status, no draw is
/// taken, nobody is infected and nothing is scheduled.
pub proof fn lemma_same_status_change_nothing(
    inf_before: Set<usize>,
    inf_after: Set<usize>,
    queue_before: Seq<(Time, Cmd)>,
    queue_after: Seq<(Time, Cmd)>,
    rng_before: XorShiftRng,
    rng_after: XorShiftRng,
    now: Time,
    person: PersonID,
    others: Seq<(PersonID, Duration)>,
)
    requires
        transmission_outcome(
            inf_before,
            inf_after,
            queue_before,
            queue_after,
            rng_before,
            rng_after,
            now,
            person,
            others,
        ),
        forall|j: int|
            0 <= j < others.len() ==> inf_before.contains(others[j].0.0) == inf_before.contains(person.0),
    ensures
        inf_after == inf_before,
        queue_after == queue_before,
        rng_after == rng_before,
{
    assert(no_pair_eligible(inf_before, person, others));
    assert(inf_after.contains(person.0) ==> inf_before.contains(person.0)) by {
        if inf_after.contains(person.0) && !inf_before.contains(person.0) {
            let j = choose|j: int|
                0 <= j < others.len() && long_enough(others[j].1) && #[trigger] inf_before.contains(others[j].0.0);
        }
    }
    assert forall|q: usize| inf_after.contains(q) implies inf_before.contains(q) by {
        if !inf_before.contains(q) && q != person.0 {
            let j = choose|j: int| 0 <= j < others.len() && others[j].0.0 == q && long_enough(others[j].1);
            assert(inf_before.contains(others[j].0.0));
        }
    }
    lemma_no_new_infection_no_command(inf_before, inf_after, queue_before, queue_after, now, person, others);
}

/// A pair that changed nothing keeps the outcome of the pairs before it
/// valid for the longer list.
proof fn lemma_outcome_extend(
    inf0: Set<usize>,
    inf1: Set<usize>,
    q0: Seq<(Time, Cmd)>,
    q1: Seq<(Time, Cmd)>,
    now: Time,
    person: PersonID,
    pre: Seq<(PersonID, Duration)>,
    next: (PersonID, Duration),
)
    requires
        transmission_bounds(inf0, inf1, q0, q1, now, person, pre),
    ensures
        transmission_bounds(inf0, inf1, q0, q1, now, person, pre.push(next)),
        forall|j: int| 0 <= j < pre.len() ==> pre.push(next)[j] == pre[j],
{
    let post = pre.push(next);
    assert forall|j: int| 0 <= j < pre.len() implies post[j] == pre[j] by {}
    if inf1.contains(person.0) && !inf0.contains(person.0) {
        let j = choose|j: int| 0 <= j < pre.len() && long_enough(pre[j].1) && #[trigger] inf0.contains(pre[j].0.0);
        assert(post[j] == pre[j]);
    }
    assert forall|q: usize| #![trigger inf1.contains(q)]
        inf1.contains(q) && !inf0.contains(q) && q != person.0 implies {
            &&& inf1.contains(person.0)
            &&& exists|j: int| 0 <= j < post.len() && post[j].0.0 == q && long_enough(post[j].1)
        } by {
        let j = choose|j: int| 0 <= j < pre.len() && pre[j].0.0 == q && long_enough(pre[j].1);
        assert(post[j] == pre[j]);
    }
}

/// What `p` leaving a space whose occupants were `s` does to the infected
/// set, the command queue and the generator: nothing when `p` was not
/// recorded there, else
/// what transmission may do with the overlaps reported.
pub open spec fn leave_outcome(
    inf_before: Set<usize>,
    inf_after: Set<usize>,
    queue_before: Seq<(Time, Cmd)>,
    queue_after: Seq<(Time, Cmd)>,
    rng_before: XorShiftRng,
    rng_after: XorShiftRng,
    now: Time,
    p: PersonID,
    s: Occupants,
) -> bool {
    match leave_report(s, p, now) {
        Some(r) => transmission_outcome(
            inf_before,
            inf_after,
            queue_before,
            queue_after,
            rng_before,
            rng_after,
            now,
            p,
            r,
        ),
        None => inf_after == inf_before && queue_after == queue_before && rng_after == rng_before,
    }
}

/// Who catches the infection from a pair, given the outcome `drew` of the
/// pair's transmission draw; `None` when nobody does.
pub fn pair_target(
    person: PersonID,
    person_sick: bool,
    other: PersonID,
    other_sick: bool,
    overlap: Duration,
    drew: bool,
) -> (r: Option<PersonID>)
    ensures
        r == pair_outcome(person, person_sick, other, other_sick, overlap, drew),
{
    if person_sick != other_sick && overlap.0 > TRANSMISSION_MIN_OVERLAP && drew {
        if person_sick {
            Some(other)
        } else {
            Some(person)
        }
    } else {
        None
    }
}

/// Asks for the hospitalization of `person`, infected at `now`, after the
/// drawn `delay`; asks for nothing when no hospitalization was drawn.
pub fn schedule_hospitalization(scheduler: &mut Scheduler, now: Time, person: PersonID, delay: Option<Duration>)
    ensures
        final(scheduler)@ == hospitalization_after(old(scheduler)@, now, person, delay),
{
    match delay {
        Some(d) => scheduler.push(now.offset(d), Cmd::BecomeHospitalized(person)),
        None => {},
    }
}

/// Infection and hospitalization of a population, driven by who shares
/// buildings, bus stops and buses with whom, and for how long.
pub struct PandemicModel {
    infected: BTreeSet<usize>,
    hospitalized: BTreeSet<usize>,
    bldgs: SharedSpace<BuildingID>,
    bus_stops: SharedSpace<BusStopID>,
    buses: SharedSpace<CarID>,
    person_to_bus: BTreeMap<usize, CarID>,
    rng: XorShiftRng,
    initialized: bool,
}

impl PandemicModel {
    /// The numbers of everyone infected.
    pub closed spec fn infected(&self) -> Set<usize> {
        self.infected@
    }

    /// The numbers of everyone hospitalized.
    pub closed spec fn hospitalized(&self) -> Set<usize> {
        self.hospitalized@
    }

    /// Who is in which building, and since when.
    pub closed spec fn buildings(&self) -> Map<usize, Occupants> {
        self.bldgs@
    }

    /// Who waits at which bus stop, and since when.
    pub closed spec fn stops(&self) -> Map<usize, Occupants> {
        self.bus_stops@
    }

    /// Who rides in which bus, and since when.
    pub closed spec fn rides(&self) -> Map<usize, Occupants> {
        self.buses@
    }

    /// The bus each person is riding, by person number.
    pub closed spec fn riding(&self) -> Map<usize, CarID> {
        self.person_to_bus@
    }

    pub closed spec fn is_initialized(&self) -> bool {
        self.initialized
    }

    /// The generator that every chance decision draws from, in its current state.
    pub closed spec fn rng(&self) -> XorShiftRng {
        self.rng
    }

    /// Nobody is infected before the seed infections are drawn.
    pub closed spec fn wf(&self) -> bool {
        !self.initialized ==> self.infected@ == Set::<usize>::empty()
    }

    /// A model in which nobody is infected, every space is empty and no seed
    /// infections have been drawn yet; every chance is drawn from `rng`.
    pub fn new(rng: XorShiftRng) -> (r: PandemicModel)
        ensures
            r.infected() == Set::<usize>::empty(),
            r.hospitalized() == Set::<usize>::empty(),
            forall|k: usize| r.buildings()[k] == Seq::<(PersonID, Time)>::empty(),
            forall|k: usize| r.stops()[k] == Seq::<(PersonID, Time)>::empty(),
            forall|k: usize| r.rides()[k] == Seq::<(PersonID, Time)>::empty(),
            r.riding() == Map::<usize, CarID>::empty(),
            !r.is_initialized(),
            r.rng() == rng,
            r.wf(),
    {
        PandemicModel {
            infected: BTreeSet::new(),
            hospitalized: BTreeSet::new(),
            bldgs: SharedSpace::new(),
            bus_stops: SharedSpace::new(),
            buses: SharedSpace::new(),
            person_to_bus: BTreeMap::new(),
            rng,
            initialized: false,
        }
    }

    /// Seeds the infection at the start of the day: each person of
    /// `population` takes one draw and is infected when it succeeds. Must
    /// come once, before any event or command.
    pub fn initialize(&mut self, population: &Vec<PersonID>, scheduler: &mut Scheduler)
        requires
            old(self).wf(),
            !old(self).is_initialized(),
        ensures
            final(self).is_initialized(),
            final(self).wf(),
            exists|draws: Seq<bool>|
                draws.len() == population@.len() && final(self).infected() == #[trigger] chosen(
                    population@,
                    draws,
                ),
            schedules_only(
                old(scheduler)@,
                final(scheduler)@,
                Time(0),
                final(self).infected().difference(old(self).infected()),
            ),
            distinct(population@) ==> at_most_one_each(old(scheduler)@.len() as int, final(scheduler)@),
            final(self).hospitalized() == old(self).hospitalized(),
            final(self).buildings() == old(self).buildings(),
            final(self).stops() == old(self).stops(),
            final(self).rides() == old(self).rides(),
            final(self).riding() == old(self).riding(),
    {
        let ghost q0 = scheduler@;
        let ghost mut draws: Seq<bool> = Seq::empty();
        assert(q0.take(q0.len() as int) =~= q0);
        assert(self.infected@ =~= chosen(population@, draws));
        let mut i: usize = 0;
        while i < population.len()
            invariant
                i <= population@.len(),
                !self.initialized,
                draws.len() == i,
                self.infected@ == chosen(population@, draws),
                schedules_only(q0, scheduler@, Time(0), self.infected@),
                distinct(population@) ==> at_most_one_each(q0.len() as int, scheduler@),
                self.hospitalized == old(self).hospitalized,
                self.bldgs == old(self).bldgs,
                self.bus_stops == old(self).bus_stops,
                self.buses == old(self).buses,
                self.person_to_bus == old(self).person_to_bus,
            decreases population@.len() - i,
        {
            let person = population[i];
            let drew = gen_ratio(&mut self.rng, 1, INITIAL_INFECTION_ONE_IN);
            let ghost inf1 = self.infected@;
            let ghost q1 = scheduler@;
            self.seed_one(person, drew, scheduler);
            proof {
                let next = draws.push(drew);
                assert(population@[i as int] == person);
                assert(self.infected@ =~= chosen(population@, next)) by {
                    assert forall|q: usize| chosen(population@, next).contains(q) implies self.infected@.contains(q) by {
                        let j = choose|j: int| 0 <= j < population@.len() && j < next.len() && next[j] && population@[j].0 == q;
                        if j < i {
                            assert(next[j] == draws[j]);
                        }
                    }
                    assert forall|q: usize| self.infected@.contains(q) implies chosen(population@, next).contains(q) by {
                        if inf1.contains(q) {
                            let j = choose|j: int| 0 <= j < population@.len() && j < draws.len() && draws[j] && population@[j].0 == q;
                            assert(next[j] == draws[j]);
                        } else {
                            assert(next[i as int] == drew);
                        }
                    }
                }
                draws = next;
                let q2 = scheduler@;
                if q2 != q1 {
                    let t = choose|t: Time|
                        hospitalization_time(Time(0), t) && q2 == #[trigger] q1.push(
                            (t, Cmd::BecomeHospitalized(person)),
                        );
                    assert(q2.take(q1.len() as int) == q1);
                    assert(drew);
                    assert(self.infected@.contains(person.0));
                    if distinct(population@) {
                        // Nobody seeded before `person` is `person`, so no
                        // earlier command is for them.
                        assert(!inf1.contains(person.0)) by {
                            if inf1.contains(person.0) {
                                let j = choose|j: int|
                                    0 <= j < population@.len() && j < i && draws[j] && population@[j].0 == person.0;
                                assert(population@[j] == population@[i as int]);
                            }
                        }
                        assert forall|k1: int, k2: int|
                            q0.len() <= k1 < k2 < q2.len() implies cmd_person((#[trigger] q2[k1]).1)
                            != cmd_person((#[trigger] q2[k2]).1) by {
                            assert(q2[k1] == q1[k1]);
                            if k2 < q1.len() {
                                assert(q2[k2] == q1[k2]);
                            } else {
                                assert(q2[k2] == (t, Cmd::BecomeHospitalized(person)));
                                assert(inf1.contains(cmd_person(q1[k1].1).0));
                            }
                        }
                    }
                }
                assert(q2.take(q0.len() as int) =~= q1.take(q0.len() as int));
                assert forall|k: int| q0.len() <= k < q2.len() implies {
                    &&& self.infected@.contains(cmd_person((#[trigger] q2[k]).1).0)
                    &&& hospitalization_time(Time(0), q2[k].0)
                } by {
                    if k < q1.len() {
                        assert(q2[k] == q1[k]);
                    } else {
                        let t = choose|t: Time|
                            hospitalization_time(Time(0), t) && q2 == #[trigger] q1.push(
                                (t, Cmd::BecomeHospitalized(person)),
                            );
                        assert(q2[k] == (t, Cmd::BecomeHospitalized(person)));
                    }
                }
                assert(q0.len() <= q2.len());
                assert(q2.take(q0.len() as int) == q0);
            }
            i = i + 1;
        }
        self.initialized = true;
        assert(self.infected@.difference(Set::<usize>::empty()) =~= self.infected@);
    }

    /// Applies one event of the mobility simulation at `now`. Entering a
    /// building or starting to wait at a stop records the person there.
    /// Leaving a building, boarding a bus (which leaves the stop) and walking
    /// after a ride (which leaves the bus) remove the person and let the
    /// infection pass between them and those who stay; a leave from a space
    /// the person was not recorded in is dropped. Boarding also records the
    /// person in the bus and remembers which bus they ride.
    pub fn handle_event(&mut self, now: Time, ev: &Event, scheduler: &mut Scheduler)
        requires
            old(self).is_initialized(),
        ensures
            final(self).is_initialized(),
            final(self).wf(),
            final(self).hospitalized() == old(self).hospitalized(),
            match *ev {
                Event::PersonEntersBuilding(p, b) => {
                    &&& final(self).buildings() == after_enter(old(self).buildings(), b.0, p, now)
                    &&& final(self).infected() == old(self).infected()
                    &&& final(scheduler)@ == old(scheduler)@
                    &&& final(self).rng() == old(self).rng()
                    &&& final(self).stops() == old(self).stops()
                    &&& final(self).rides() == old(self).rides()
                    &&& final(self).riding() == old(self).riding()
                },
                Event::PersonLeavesBuilding(p, b) => {
                    &&& final(self).buildings() == after_leave(old(self).buildings(), b.0, p)
                    &&& leave_outcome(
                        old(self).infected(),
                        final(self).infected(),
                        old(scheduler)@,
                        final(scheduler)@,
                        old(self).rng(),
                        final(self).rng(),
                        now,
                        p,
                        old(self).buildings()[b.0],
                    )
                    &&& final(self).stops() == old(self).stops()
                    &&& final(self).rides() == old(self).rides()
                    &&& final(self).riding() == old(self).riding()
                },
                Event::TripPhaseStarting(p, TripPhaseType::WaitingForBus(stop)) => {
                    &&& final(self).stops() == after_enter(old(self).stops(), stop.0, p, now)
                    &&& final(self).infected() == old(self).infected()
                    &&& final(scheduler)@ == old(scheduler)@
                    &&& final(self).rng() == old(self).rng()
                    &&& final(self).buildings() == old(self).buildings()
                    &&& final(self).rides() == old(self).rides()
                    &&& final(self).riding() == old(self).riding()
                },
                Event::TripPhaseStarting(p, TripPhaseType::RidingBus(stop, bus)) => {
                    &&& final(self).stops() == after_leave(old(self).stops(), stop.0, p)
                    &&& leave_outcome(
                        old(self).infected(),
                        final(self).infected(),
                        old(scheduler)@,
                        final(scheduler)@,
                        old(self).rng(),
                        final(self).rng(),
                        now,
                        p,
                        old(self).stops()[stop.0],
                    )
                    &&& final(self).rides() == after_enter(old(self).rides(), bus.0, p, now)
                    &&& final(self).riding() == old(self).riding().insert(p.0, bus)
                    &&& final(self).buildings() == old(self).buildings()
                },
                Event::TripPhaseStarting(p, TripPhaseType::Walking) => if old(self).riding().contains_key(p.0) {
                    let bus = old(self).riding()[p.0];
                    &&& final(self).rides() == after_leave(old(self).rides(), bus.0, p)
                    &&& leave_outcome(
                        old(self).infected(),
                        final(self).infected(),
                        old(scheduler)@,
                        final(scheduler)@,
                        old(self).rng(),
                        final(self).rng(),
                        now,
                        p,
                        old(self).rides()[bus.0],
                    )
                    &&& final(self).riding() == old(self).riding().remove(p.0)
                    &&& final(self).buildings() == old(self).buildings()
                    &&& final(self).stops() == old(self).stops()
                } else {
                    &&& final(self).infected() == old(self).infected()
                    &&& final(scheduler)@ == old(scheduler)@
                    &&& final(self).rng() == old(self).rng()
                    &&& final(self).buildings() == old(self).buildings()
                    &&& final(self).stops() == old(self).stops()
                    &&& final(self).rides() == old(self).rides()
                    &&& final(self).riding() == old(self).riding()
                },
                _ => {
                    &&& final(self).infected() == old(self).infected()
                    &&& final(scheduler)@ == old(scheduler)@
                    &&& final(self).rng() == old(self).rng()
                    &&& final(self).buildings() == old(self).buildings()
                    &&& final(self).stops() == old(self).stops()
                    &&& final(self).rides() == old(self).rides()
                    &&& final(self).riding() == old(self).riding()
                },
            },
    {
        match ev {
            Event::PersonEntersBuilding(person, bldg) => {
                self.bldgs.person_enters_space(now, *person, *bldg);
            },
            Event::PersonLeavesBuilding(person, bldg) => {
                if let Some(others) = self.bldgs.person_leaves_space(now, *person, *bldg) {
                    self.transmission(now, *person, others, scheduler);
                }
            },
            Event::TripPhaseStarting(person, phase) => {
                let person = *person;
                match phase {
                    TripPhaseType::WaitingForBus(stop) => {
                        self.bus_stops.person_enters_space(now, person, *stop);
                    },
                    TripPhaseType::RidingBus(stop, bus) => {
                        if let Some(others) = self.bus_stops.person_leaves_space(now, person, *stop) {
                            self.transmission(now, person, others, scheduler);
                        }
                        self.buses.person_enters_space(now, person, *bus);
                        self.person_to_bus.insert(person.0, *bus);
                    },
                    TripPhaseType::Walking => {
                        // Walking is the only phase that can follow a bus
                        // ride, so it marks the end of one.
                        if let Some(bus) = self.person_to_bus.remove(&person.0) {
                            if let Some(others) = self.buses.person_leaves_space(now, person, bus) {
                                self.transmission(now, person, others, scheduler);
                            }
                        }
                    },
                    TripPhaseType::Other => {},
                }
            },
            Event::Other => {},
        }
    }

    /// Applies a command that has fallen due. A hospitalization is recorded
    /// as it stands, whatever the person's state.
    pub fn handle_cmd(&mut self, _now: Time, cmd: Cmd, scheduler: &mut Scheduler)
        requires
            old(self).is_initialized(),
        ensures
            final(self).is_initialized(),
            final(self).wf(),
            final(self).hospitalized() == old(self).hospitalized().insert(cmd_person(cmd).0),
            final(self).rng() == old(self).rng(),
            final(self).infected() == old(self).infected(),
            final(scheduler)@ == old(scheduler)@,
            final(self).buildings() == old(self).buildings(),
            final(self).stops() == old(self).stops(),
            final(self).rides() == old(self).rides(),
            final(self).riding() == old(self).riding(),
    {
        match cmd {
            Cmd::BecomeHospitalized(person) => {
                self.hospitalized.insert(person.0);
            },
        }
    }

    /// Whether `person` is infected.
    pub fn is_infected(&self, person: PersonID) -> (r: bool)
        ensures
            r == self.infected().contains(person.0),
    {
        self.infected.contains(&person.0)
    }

    /// Whether `person` is hospitalized.
    pub fn is_hospitalized(&self, person: PersonID) -> (r: bool)
        ensures
            r == self.hospitalized().contains(person.0),
    {
        self.hospitalized.contains(&person.0)
    }

    /// Whether the seed infections have been drawn.
    pub fn initialized(&self) -> (r: bool)
        ensures
            r == self.is_initialized(),
    {
        self.initialized
    }

    /// A delay drawn uniformly from `[low, high)`.
    fn rand_duration(&mut self, low: Duration, high: Duration) -> (r: Duration)
        requires
            low.0 < high.0,
        ensures
            low.0 <= r.0 < high.0,
            final(self).infected == old(self).infected,
            final(self).hospitalized == old(self).hospitalized,
            final(self).bldgs == old(self).bldgs,
            final(self).bus_stops == old(self).bus_stops,
            final(self).buses == old(self).buses,
            final(self).person_to_bus == old(self).person_to_bus,
            final(self).initialized == old(self).initialized,
    {
        Duration::seconds(gen_range(&mut self.rng, low.0, high.0))
    }

    /// `person` spent the given time with each of `other_occupants`; each
    /// pair in which exactly one is infected and whose overlap is long
    /// enough takes one draw, and passes on the infection at `now` when the
    /// draw succeeds. Pairs are taken in order, and each sees the infections
    /// of the pairs before it.
    fn transmission(
        &mut self,
        now: Time,
        person: PersonID,
        other_occupants: Vec<(PersonID, Duration)>,
        scheduler: &mut Scheduler,
    )
        ensures
            transmission_outcome(
                old(self).infected@,
                final(self).infected@,
                old(scheduler)@,
                final(scheduler)@,
                old(self).rng,
                final(self).rng,
                now,
                person,
                other_occupants@,
            ),
            final(self).hospitalized == old(self).hospitalized,
            final(self).bldgs == old(self).bldgs,
            final(self).bus_stops == old(self).bus_stops,
            final(self).buses == old(self).buses,
            final(self).person_to_bus == old(self).person_to_bus,
            final(self).initialized == old(self).initialized,
    {
        let ghost inf0 = self.infected@;
        let ghost q0 = scheduler@;
        let ghost others = other_occupants@;
        let ghost mut draws: Seq<bool> = Seq::empty();
        assert(q0.take(q0.len() as int) =~= q0);
        assert(others.take(0) =~= Seq::<(PersonID, Duration)>::empty());
        let mut i: usize = 0;
        while i < other_occupants.len()
            invariant
                i <= others.len(),
                others == other_occupants@,
                transmission_bounds(inf0, self.infected@, q0, scheduler@, now, person, others.take(i as int)),
                draws.len() == i,
                self.infected@ == spread(inf0, person, others.take(i as int), draws),
                no_pair_eligible(inf0, person, others) ==> self.infected@ == inf0 && self.rng == old(self).rng,
                self.hospitalized == old(self).hospitalized,
                self.bldgs == old(self).bldgs,
                self.bus_stops == old(self).bus_stops,
                self.buses == old(self).buses,
                self.person_to_bus == old(self).person_to_bus,
                self.initialized == old(self).initialized,
            decreases others.len() - i,
        {
            let (other, overlap) = other_occupants[i];
            let ghost inf1 = self.infected@;
            let ghost q1 = scheduler@;
            let ghost pre = others.take(i as int);
            let ghost post = others.take(i + 1);
            assert(post == pre.push((other, overlap)));
            let person_sick = self.infected.contains(&person.0);
            let other_sick = self.infected.contains(&other.0);
            let mut drew = false;
            if person_sick != other_sick && overlap.0 > TRANSMISSION_MIN_OVERLAP {
                drew = gen_ratio(&mut self.rng, 1, TRANSMISSION_ONE_IN);
            }
            let target = pair_target(person, person_sick, other, other_sick, overlap, drew);
            proof {
                assert(post.drop_last() == pre);
                assert(draws.push(drew).drop_last() == draws);
                draws = draws.push(drew);
                if no_pair_eligible(inf0, person, others) {
                    assert(others[i as int] == (other, overlap));
                }
            }
            match target {
                None => {
                    proof {
                        lemma_outcome_extend(inf0, inf1, q0, q1, now, person, pre, (other, overlap));
                    }
                },
                Some(who) => {
                    self.become_infected(now, who, scheduler);
                    proof {
                        lemma_outcome_extend(inf0, inf1, q0, q1, now, person, pre, (other, overlap));
                        assert(post[i as int] == (other, overlap));
                        if !person_sick {
                            // `other` was infected, and not during this batch:
                            // only `person` could have passed it on, and
                            // `person` is not infected.
                            assert(inf0.contains(other.0));
                        }
                        let inf2 = self.infected@;
                        let newly = inf2.difference(inf0);
                        assert(inf1.difference(inf0).subset_of(newly));
                        assert(newly.contains(who.0));
                        let q2 = scheduler@;
                        if q2 != q1 {
                            let t = choose|t: Time|
                                hospitalization_time(now, t) && q2 == #[trigger] q1.push(
                                    (t, Cmd::BecomeHospitalized(who)),
                                );
                            assert(q2.take(q1.len() as int) == q1);
                        }
                        assert(q2.take(q0.len() as int) =~= q1.take(q0.len() as int));
                        assert forall|k: int| q0.len() <= k < q2.len() implies {
                            &&& newly.contains(cmd_person((#[trigger] q2[k]).1).0)
                            &&& hospitalization_time(now, q2[k].0)
                        } by {
                            if k < q1.len() {
                                assert(q2[k] == q1[k]);
                                assert(inf1.difference(inf0).contains(cmd_person(q1[k].1).0));
                            } else {
                                let t = choose|t: Time|
                                    hospitalization_time(now, t) && q2 == #[trigger] q1.push(
                                        (t, Cmd::BecomeHospitalized(who)),
                                    );
                                assert(q2[k] == (t, Cmd::BecomeHospitalized(who)));
                            }
                        }
                        assert(q0.len() <= q2.len());
                        assert(q2.take(q0.len() as int) == q0);
                        assert(schedules_only(q0, q2, now, newly));
                    }
                },
            }
            i = i + 1;
        }
        assert(others.take(others.len() as int) == others);
        assert(draws.len() == others.len() && self.infected@ == spread(inf0, person, others, draws));
    }

    /// Marks `person` infected at `now`, and with some chance asks for their
    /// hospitalization a random delay later.
    fn become_infected(&mut self, now: Time, person: PersonID, scheduler: &mut Scheduler)
        ensures
            final(self).infected@ == old(self).infected@.insert(person.0),
            final(self).hospitalized == old(self).hospitalized,
            final(self).bldgs == old(self).bldgs,
            final(self).bus_stops == old(self).bus_stops,
            final(self).buses == old(self).buses,
            final(self).person_to_bus == old(self).person_to_bus,
            final(self).initialized == old(self).initialized,
            exists|delay: Option<Duration>|
                (delay is Some ==> HOSPITALIZATION_DELAY_MIN <= delay.unwrap().0 < HOSPITALIZATION_DELAY_MAX)
                    && final(scheduler)@ == #[trigger] hospitalization_after(old(scheduler)@, now, person, delay),
            final(scheduler)@ == old(scheduler)@ || exists|t: Time|
                hospitalization_time(now, t) && final(scheduler)@ == #[trigger] old(scheduler)@.push(
                    (t, Cmd::BecomeHospitalized(person)),
                ),
    {
        self.infected.insert(person.0);
        let mut delay: Option<Duration> = None;
        if gen_ratio(&mut self.rng, 1, HOSPITALIZATION_ONE_IN) {
            delay = Some(
                self.rand_duration(
                    Duration::seconds(HOSPITALIZATION_DELAY_MIN),
                    Duration::seconds(HOSPITALIZATION_DELAY_MAX),
                ),
            );
        }
        schedule_hospitalization(scheduler, now, person, delay);
        proof {
            if delay is Some {
                let t = Time(later(now.0, delay.unwrap().0));
                assert(hospitalization_time(now, t));
            }
        }
    }

    /// Seeds the infection in `person` when `drew`, the outcome of their
    /// seeding draw, says so; nothing happens otherwise.
    fn seed_one(&mut self, person: PersonID, drew: bool, scheduler: &mut Scheduler)
        ensures
            final(self).infected@ == if drew {
                old(self).infected@.insert(person.0)
            } else {
                old(self).infected@
            },
            !drew ==> final(scheduler)@ == old(scheduler)@ && final(self).rng == old(self).rng,
            final(scheduler)@ == old(scheduler)@ || exists|t: Time|
                hospitalization_time(Time(0), t) && final(scheduler)@ == #[trigger] old(scheduler)@.push(
                    (t, Cmd::BecomeHospitalized(person)),
                ),
            final(self).hospitalized == old(self).hospitalized,
            final(self).bldgs == old(self).bldgs,
            final(self).bus_stops == old(self).bus_stops,
            final(self).buses == old(self).buses,
            final(self).person_to_bus == old(self).person_to_bus,
            final(self).initialized == old(self).initialized,
    {
        if drew {
            self.become_infected(Time::start_of_day(), person, scheduler);
        }
    }
}

} // verus!
