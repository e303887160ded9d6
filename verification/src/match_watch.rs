//! Noticing that the other side of a topic has gone.
use crate::time;
use crate::time::{checked_later, Nanos};
use vstd::prelude::*;

verus! {

/// Whether anyone is on the other side.
#[derive(Debug, Clone, Copy, PartialEq, Eq, Structural)]
pub enum MatchState {
    Present,
    /// No one since that moment, and whether that has been reported.
    Absent { since: Nanos, notified: bool },
}

/// Watches whether a peer is matched. One that has been absent for the timeout
/// counts as gone.
#[derive(Debug, Clone, Copy, PartialEq, Eq, Structural)]
pub struct MatchWatch {
    pub timeout: Nanos,
    pub state: MatchState,
}

impl MatchWatch {
    /// What is known after `current_count` peers were reported as matched.
    pub open spec fn updated(self, current_count: u32, now: Nanos) -> Self {
        MatchWatch {
            state: if current_count != 0 {
                MatchState::Present
            } else if self.state is Present {
                MatchState::Absent { since: now, notified: false }
            } else {
                self.state
            },
            ..self
        }
    }

    /// Whether the peer counts as gone.
    pub open spec fn absent(self, now: Nanos) -> bool {
        match self.state {
            MatchState::Absent { since, notified } => time::between(since, now) >= self.timeout,
            MatchState::Present => false,
        }
    }

    /// When the absence is to be reported; none where there is none or it has
    /// been reported.
    pub open spec fn deadline(self) -> Option<Nanos> {
        match self.state {
            MatchState::Absent { since, notified } => if notified {
                None
            } else {
                time::later(since, self.timeout)
            },
            MatchState::Present => None,
        }
    }

    /// What is known after the absence was reported.
    pub open spec fn marked(self) -> Self {
        MatchWatch {
            state: match self.state {
                MatchState::Absent { since, notified } => MatchState::Absent {
                    since,
                    notified: true,
                },
                MatchState::Present => MatchState::Present,
            },
            ..self
        }
    }

    /// A watch that starts with no peer.
    pub fn new_at(timeout: Nanos, now: Nanos) -> (r: Self)
        ensures
            r == (MatchWatch {
                timeout,
                state: MatchState::Absent { since: now, notified: false },
            }),
    {
        MatchWatch { timeout, state: MatchState::Absent { since: now, notified: false } }
    }

    /// Takes the number of peers that are matched now.
    pub fn update_at(&mut self, current_count: u32, now: Nanos)
        ensures
            *final(self) == old(self).updated(current_count, now),
    {
        if current_count == 0 {
            if matches!(self.state, MatchState::Present) {
                self.state = MatchState::Absent { since: now, notified: false };
            }
        } else {
            self.state = MatchState::Present;
        }
    }

    /// Whether the peer counts as gone.
    pub fn is_absent_at(&self, now: Nanos) -> (r: bool)
        ensures
            r == self.absent(now),
    {
        match self.state {
            MatchState::Absent { since, .. } => now.saturating_sub(since) >= self.timeout,
            MatchState::Present => false,
        }
    }

    /// When the absence is to be reported.
    pub fn absence_deadline(&self) -> (r: Option<Nanos>)
        ensures
            r == self.deadline(),
    {
        match self.state {
            MatchState::Absent { since, notified } => if notified {
                None
            } else {
                checked_later(since, self.timeout)
            },
            MatchState::Present => None,
        }
    }

    pub fn timeout(&self) -> (r: Nanos)
        ensures
            r == self.timeout,
    {
        self.timeout
    }

    /// Notes that the absence was reported.
    pub fn mark_notified(&mut self)
        ensures
            *final(self) == old(self).marked(),
    {
        match self.state {
            MatchState::Absent { since, .. } => {
                self.state = MatchState::Absent { since, notified: true };
            },
            MatchState::Present => {},
        }
    }
}

/// What a look at one watched entry gives.
#[derive(Debug, Clone, Copy, PartialEq, Eq, Structural)]
pub struct Look {
    /// Whether the entry still exists.
    pub alive: bool,
    /// When its absence is to be reported.
    pub deadline: Option<Nanos>,
}

/// The entries that still exist, in their order.
pub open spec fn surviving<W>(entries: Seq<W>, alive: Seq<bool>) -> Seq<W>
    decreases entries.len(),
{
    if entries.len() == 0 {
        Seq::empty()
    } else {
        let before = surviving(entries.drop_last(), alive.drop_last());
        if alive.last() {
            before.push(entries.last())
        } else {
            before
        }
    }
}

/// Whether the absence of an entry is to be reported now.
pub open spec fn is_due(look: Look, now: Nanos) -> bool {
    look.alive && look.deadline is Some && look.deadline->0 <= now
}

/// Whether the absence of an entry is to be reported later.
pub open spec fn is_coming(look: Look, now: Nanos) -> bool {
    look.alive && look.deadline is Some && look.deadline->0 > now
}

/// Where the entries stand whose absence is to be reported now.
pub open spec fn due(looks: Seq<Look>, now: Nanos) -> Seq<usize>
    decreases looks.len(),
{
    if looks.len() == 0 {
        Seq::empty()
    } else {
        let before = due(looks.drop_last(), now);
        if is_due(looks.last(), now) {
            before.push((looks.len() - 1) as usize)
        } else {
            before
        }
    }
}

/// Whether `nearest` is the first deadline to come.
pub open spec fn is_nearest(looks: Seq<Look>, now: Nanos, nearest: Option<Nanos>) -> bool {
    match nearest {
        None => forall|i: int| 0 <= i < looks.len() ==> !is_coming(#[trigger] looks[i], now),
        Some(deadline) => {
            &&& exists|i: int|
                0 <= i < looks.len() && is_coming(#[trigger] looks[i], now) && looks[i].deadline
                    == Some(deadline)
            &&& forall|i: int|
                0 <= i < looks.len() && is_coming(#[trigger] looks[i], now) ==> deadline
                    <= looks[i].deadline->0
        },
    }
}

/// What a scan found.
#[derive(Debug)]
pub struct Scan {
    /// Where the entries stood whose absence is to be reported.
    pub expired: Vec<usize>,
    /// The state of the watchdog at the time of the scan.
    pub seen_generation: u64,
    /// The first deadline to come.
    pub nearest: Option<Nanos>,
}

/// How long to wait for the next scan.
#[derive(Debug, Clone, Copy, PartialEq, Eq, Structural)]
pub enum Waiting {
    /// Not at all.
    Rescan,
    /// That long, or until something changes.
    AtMost(Nanos),
    /// Until something changes.
    UntilChange,
}

/// How long to wait, given that the scan saw `seen_generation`.
pub open spec fn waiting(
    generation: u64,
    seen_generation: u64,
    nearest: Option<Nanos>,
    now: Nanos,
) -> Waiting {
    if generation != seen_generation {
        Waiting::Rescan
    } else {
        match nearest {
            Some(deadline) => if deadline > now {
                Waiting::AtMost((deadline - now) as Nanos)
            } else {
                Waiting::Rescan
            },
            None => Waiting::UntilChange,
        }
    }
}

/// Keeps the watched entries. Each change gets a new generation.
#[derive(Debug)]
pub struct Watchdog<W> {
    pub entries: Vec<W>,
    pub generation: u64,
}

impl<W> Watchdog<W> {
    pub fn new() -> (r: Self)
        ensures
            r.entries@.len() == 0,
            r.generation == 0,
    {
        Watchdog { entries: Vec::new(), generation: 0 }
    }

    /// Drops the entries that do not exist any more.
    fn sweep(&mut self, alive: &Vec<bool>)
        requires
            old(self).entries@.len() == alive@.len(),
        ensures
            final(self).entries@ == surviving(old(self).entries@, alive@),
            final(self).generation == old(self).generation,
    {
        let ghost given = self.entries@;
        let mut seen: usize = 0;
        let mut i: usize = 0;
        assert(given.take(0) =~= Seq::empty());
        assert(self.entries@.take(0) =~= surviving(given.take(0), alive@.take(0)));
        assert(self.entries@.skip(0) =~= given.skip(0));
        while seen < alive.len()
            invariant
                i <= seen <= alive.len(),
                given.len() == alive.len(),
                self.generation == old(self).generation,
                self.entries@.len() - i == given.len() - seen,
                self.entries@.take(i as int) == surviving(
                    given.take(seen as int),
                    alive@.take(seen as int),
                ),
                self.entries@.skip(i as int) == given.skip(seen as int),
            decreases alive.len() - seen,
        {
            proof {
                assert(given.take(seen + 1).drop_last() =~= given.take(seen as int));
                assert(alive@.take(seen + 1).drop_last() =~= alive@.take(seen as int));
                assert(self.entries@.skip(i as int)[0] == given.skip(seen as int)[0]);
                assert(self.entries@[i as int] == given[seen as int]);
                assert forall|j: int| 0 <= j < given.len() - seen implies self.entries@[i + j]
                    == #[trigger] given[seen + j] by {
                    assert(self.entries@.skip(i as int)[j] == given.skip(seen as int)[j]);
                }
            }
            let ghost before = self.entries@;
            if alive[seen] {
                i = i + 1;
                proof {
                    assert(self.entries@.take(i as int) =~= before.take(i - 1).push(
                        given[seen as int],
                    ));
                    assert(self.entries@.skip(i as int) =~= given.skip(seen + 1)) by {
                        assert forall|j: int| 0 <= j < given.len() - seen - 1 implies #[trigger] self.entries@.skip(i as int)[j] == given.skip(seen + 1)[j] by {
                            assert(self.entries@[i - 1 + (j + 1)] == given[seen + (j + 1)]);
                        }
                    }
                }
            } else {
                let _ = self.entries.remove(i);
                proof {
                    assert(self.entries@.take(i as int) =~= before.take(i as int));
                    assert(self.entries@.skip(i as int) =~= given.skip(seen + 1)) by {
                        assert forall|j: int| 0 <= j < given.len() - seen - 1 implies #[trigger] self.entries@.skip(i as int)[j] == given.skip(seen + 1)[j] by {
                            assert(before[i + (j + 1)] == given[seen + (j + 1)]);
                        }
                    }
                }
            }
            seen = seen + 1;
        }
        assert(given.take(seen as int) =~= given);
        assert(alive@.take(seen as int) =~= alive@);
        assert(self.entries@.take(i as int) =~= self.entries@);
    }

    /// Adds an entry, and drops those that do not exist any more.
    pub fn register(&mut self, alive: &Vec<bool>, entry: W)
        requires
            old(self).entries@.len() == alive@.len(),
            old(self).generation < u64::MAX,
        ensures
            final(self).entries@ == surviving(old(self).entries@, alive@).push(entry),
            final(self).generation == old(self).generation + 1,
    {
        self.sweep(alive);
        self.entries.push(entry);
        self.generation = self.generation + 1;
    }

    /// Notes that a deadline may have changed.
    pub fn reschedule(&mut self)
        requires
            old(self).generation < u64::MAX,
        ensures
            final(self).entries@ == old(self).entries@,
            final(self).generation == old(self).generation + 1,
    {
        self.generation = self.generation + 1;
    }

    /// Looks at all entries: which are to be reported now, and when the next is.
    /// Those that do not exist any more are dropped.
    pub fn scan(&mut self, looks: &Vec<Look>, now: Nanos) -> (r: Scan)
        requires
            old(self).entries@.len() == looks@.len(),
        ensures
            r.expired@ == due(looks@, now),
            r.seen_generation == old(self).generation,
            is_nearest(looks@, now, r.nearest),
            final(self).entries@ == surviving(
                old(self).entries@,
                looks@.map_values(|look: Look| look.alive),
            ),
            final(self).generation == old(self).generation,
    {
        let mut expired: Vec<usize> = Vec::new();
        let mut alive: Vec<bool> = Vec::new();
        let mut nearest: Option<Nanos> = None;
        let mut i: usize = 0;
        assert(looks@.take(0) =~= Seq::empty());
        while i < looks.len()
            invariant
                i <= looks.len(),
                alive@.len() == i,
                forall|j: int| 0 <= j < i ==> alive@[j] == looks@[j].alive,
                expired@ == due(looks@.take(i as int), now),
                is_nearest(looks@.take(i as int), now, nearest),
            decreases looks.len() - i,
        {
            let look = looks[i];
            let ghost before = looks@.take(i as int);
            let ghost after = looks@.take(i + 1);
            let ghost was = nearest;
            proof {
                assert(after.drop_last() =~= before);
                assert(after.last() == look);
                assert(forall|j: int| 0 <= j < before.len() ==> after[j] == before[j]);
            }
            alive.push(look.alive);
            if look.alive {
                match look.deadline {
                    Some(deadline) => if deadline <= now {
                        expired.push(i);
                    } else {
                        nearest = match nearest {
                            Some(n) => if n < deadline {
                                Some(n)
                            } else {
                                Some(deadline)
                            },
                            None => Some(deadline),
                        };
                    },
                    None => {},
                }
            }
            proof {
                if let Some(d) = was {
                    let k = choose|k: int|
                        0 <= k < before.len() && is_coming(#[trigger] before[k], now)
                            && before[k].deadline == Some(d);
                    assert(after[k] == before[k]);
                }
                assert(after[i as int] == look);
                assert forall|j: int| 0 <= j < after.len() && is_coming(#[trigger] after[j], now)
                    implies nearest is Some && nearest->0 <= after[j].deadline->0 by {
                    if j < i {
                        assert(is_coming(before[j], now));
                    }
                }
                assert(is_nearest(after, now, nearest));
            }
            i = i + 1;
        }
        assert(looks@.take(i as int) =~= looks@);
        assert(alive@ =~= looks@.map_values(|look: Look| look.alive));
        self.sweep(&alive);
        Scan { expired, seen_generation: self.generation, nearest }
    }

    /// How long to wait after a scan.
    pub fn wait_for_next(&self, seen_generation: u64, nearest: Option<Nanos>, now: Nanos) -> (r:
        Waiting)
        ensures
            r == waiting(self.generation, seen_generation, nearest, now),
    {
        if self.generation != seen_generation {
            return Waiting::Rescan;
        }
        match nearest {
            Some(deadline) => if deadline > now {
                Waiting::AtMost(deadline - now)
            } else {
                Waiting::Rescan
            },
            None => Waiting::UntilChange,
        }
    }
}

/// A report of no peers while there already was none changes nothing: the
/// absence counts from its start.
pub proof fn law_absence_keeps_its_start(watch: MatchWatch, now: Nanos)
    requires
        watch.state is Absent,
    ensures
        watch.updated(0, now) == watch,
{
}

/// A peer that comes back ends the absence at once.
pub proof fn law_peer_ends_absence(watch: MatchWatch, current_count: u32, now: Nanos, later: Nanos)
    requires
        current_count > 0,
    ensures
        !watch.updated(current_count, now).absent(later),
        watch.updated(current_count, now).deadline() is None,
{
}

/// What is known after reports of how many peers were matched, and when.
pub open spec fn after_reports(watch: MatchWatch, reports: Seq<(u32, Nanos)>) -> MatchWatch
    decreases reports.len(),
{
    if reports.len() == 0 {
        watch
    } else {
        after_reports(watch, reports.drop_last()).updated(reports.last().0, reports.last().1)
    }
}

/// A watch that starts with no peer counts it as gone just where no one has been
/// there for the timeout: since the start, or since the number of peers last
/// fell to zero. That was with report `fall`, where all from there on are of no
/// peers and the one before is of some. As long as there are peers, none is
/// gone.
pub proof fn law_absence_counts_from_the_last_fall(
    timeout: Nanos,
    start: Nanos,
    reports: Seq<(u32, Nanos)>,
    fall: int,
    now: Nanos,
)
    requires
        0 <= fall <= reports.len(),
        forall|i: int| fall <= i < reports.len() ==> (#[trigger] reports[i]).0 == 0,
        fall > 0 ==> reports[fall - 1].0 > 0,
    ensures
        ({
            let watch = MatchWatch {
                timeout,
                state: MatchState::Absent { since: start, notified: false },
            };
            after_reports(watch, reports).absent(now) <==> if fall == 0 {
                time::between(start, now) >= timeout
            } else {
                fall < reports.len() && time::between(reports[fall].1, now) >= timeout
            }
        }),
{
    let watch = MatchWatch { timeout, state: MatchState::Absent { since: start, notified: false } };
    lemma_after_reports(watch, start, reports, fall);
}

proof fn lemma_after_reports(
    watch: MatchWatch,
    start: Nanos,
    reports: Seq<(u32, Nanos)>,
    fall: int,
)
    requires
        watch.state == (MatchState::Absent { since: start, notified: false }),
        0 <= fall <= reports.len(),
        forall|i: int| fall <= i < reports.len() ==> (#[trigger] reports[i]).0 == 0,
        fall > 0 ==> reports[fall - 1].0 > 0,
    ensures
        after_reports(watch, reports) == (MatchWatch {
            state: if fall == 0 {
                MatchState::Absent { since: start, notified: false }
            } else if fall < reports.len() {
                MatchState::Absent { since: reports[fall].1, notified: false }
            } else {
                MatchState::Present
            },
            ..watch
        }),
    decreases reports.len(),
{
    let front = reports.drop_last();
    if fall < reports.len() {
        assert(forall|i: int| 0 <= i < front.len() ==> front[i] == reports[i]);
        lemma_after_reports(watch, start, front, fall);
        assert(reports[reports.len() - 1].0 == 0);
    } else if reports.len() > 0 {
        lemma_timeout_stays(watch, front);
    }
}

proof fn lemma_timeout_stays(watch: MatchWatch, reports: Seq<(u32, Nanos)>)
    ensures
        after_reports(watch, reports).timeout == watch.timeout,
    decreases reports.len(),
{
    if reports.len() > 0 {
        lemma_timeout_stays(watch, reports.drop_last());
    }
}

/// A reported absence has no deadline, and is an absence still.
pub proof fn law_reported_absence_stays(watch: MatchWatch, now: Nanos)
    ensures
        watch.marked().deadline() is None,
        watch.marked().absent(now) == watch.absent(now),
{
}

/// From the deadline on, and not before, the peer counts as gone.
pub proof fn law_deadline_is_when_absence_begins(watch: MatchWatch, now: Nanos)
    requires
        watch.deadline() is Some,
    ensures
        watch.absent(now) <==> now >= watch.deadline()->0 || watch.timeout == 0,
{
}

/// A registration or a change of a deadline between a scan and the waiting is
/// not missed: the next scan follows at once.
pub proof fn law_change_is_not_missed(
    seen_generation: u64,
    changes: nat,
    nearest: Option<Nanos>,
    now: Nanos,
)
    requires
        changes > 0,
        seen_generation + changes <= u64::MAX,
    ensures
        waiting((seen_generation + changes) as u64, seen_generation, nearest, now) is Rescan,
{
}

/// No deadline is slept over: where one is to come, the waiting ends with the
/// first.
pub proof fn law_no_deadline_is_slept_over(
    looks: Seq<Look>,
    nearest: Option<Nanos>,
    scanned: Nanos,
    now: Nanos,
    generation: u64,
    i: int,
)
    requires
        is_nearest(looks, scanned, nearest),
        0 <= i < looks.len(),
        is_coming(looks[i], scanned),
    ensures
        match waiting(generation, generation, nearest, now) {
            Waiting::Rescan => true,
            Waiting::AtMost(span) => now + span <= looks[i].deadline->0,
            Waiting::UntilChange => false,
        },
{
}

/// A scan reports an entry just where it exists and has a deadline that has
/// come. It reports each once, in the order of the entries, and nothing else.
pub proof fn law_scan_reports_all_that_is_due(looks: Seq<Look>, now: Nanos)
    requires
        looks.len() <= usize::MAX,
    ensures
        forall|i: usize|
            i < looks.len() ==> (#[trigger] due(looks, now).contains(i) <==> looks[i as int].alive && (
            looks[i as int].deadline matches Some(deadline) && deadline <= now)),
        forall|k: int| 0 <= k < due(looks, now).len() ==> #[trigger] due(looks, now)[k] < looks.len(),
        forall|j: int, k: int|
            0 <= j < k < due(looks, now).len() ==> due(looks, now)[j] < due(looks, now)[k],
    decreases looks.len(),
{
    if looks.len() > 0 {
        let front = looks.drop_last();
        let last = (looks.len() - 1) as usize;
        let before = due(front, now);
        let all = due(looks, now);
        law_scan_reports_all_that_is_due(front, now);
        assert forall|i: usize| i < looks.len() implies (#[trigger] all.contains(i) <==> looks[i as int].alive && (
        looks[i as int].deadline matches Some(deadline) && deadline <= now)) by {
            if before.contains(i) {
                let k = choose|k: int| 0 <= k < before.len() && before[k] == i;
                assert(all[k] == i);
            }
            if all.contains(i) && i != last {
                let k = choose|k: int| 0 <= k < all.len() && all[k] == i;
                assert(before[k] == i);
            }
            if is_due(looks.last(), now) {
                assert(all[before.len() as int] == last);
            }
            if i < last {
                assert(before.contains(i) <==> is_due(front[i as int], now));
                assert(front[i as int] == looks[i as int]);
            } else if before.contains(i) {
                let k = choose|k: int| 0 <= k < before.len() && before[k] == i;
                assert(before[k] < front.len());
            }
        }
    }
}

/// No entry is lost between two scans: one that exists and has a deadline is
/// reported by the scan, or the nearest deadline to come is not later than its
/// own. The nearest deadline is one of an entry that exists, and lies ahead.
pub proof fn law_every_deadline_is_reported_or_bounds_the_wait(
    looks: Seq<Look>,
    now: Nanos,
    nearest: Option<Nanos>,
    i: int,
)
    requires
        looks.len() <= usize::MAX,
        is_nearest(looks, now, nearest),
        0 <= i < looks.len(),
        looks[i].alive,
        looks[i].deadline is Some,
    ensures
        due(looks, now).contains(i as usize) || (nearest is Some && nearest->0
            <= looks[i].deadline->0),
        nearest matches Some(first) ==> first > now && exists|k: int|
            0 <= k < looks.len() && (#[trigger] looks[k]).alive && looks[k].deadline == Some(first),
{
    law_scan_reports_all_that_is_due(looks, now);
    let place = i as usize;
    assert(due(looks, now).contains(place) <==> is_due(looks[i], now));
    if !is_due(looks[i], now) {
        assert(is_coming(looks[i], now));
    }
}

/// Where no entry that exists has a deadline ahead, there is no nearest one; else
/// there is.
pub proof fn law_nearest_deadline_is_there_or_not(
    looks: Seq<Look>,
    now: Nanos,
    nearest: Option<Nanos>,
)
    requires
        is_nearest(looks, now, nearest),
    ensures
        nearest is None <==> forall|i: int|
            0 <= i < looks.len() && (#[trigger] looks[i]).alive && looks[i].deadline is Some
                ==> looks[i].deadline->0 <= now,
{
    if nearest is None {
        assert forall|i: int|
            0 <= i < looks.len() && (#[trigger] looks[i]).alive && looks[i].deadline is Some implies looks[i].deadline->0
            <= now by {
            assert(!is_coming(looks[i], now));
        }
    } else {
        let k = choose|k: int|
            0 <= k < looks.len() && is_coming(#[trigger] looks[k], now) && looks[k].deadline
                == nearest;
        assert(looks[k].alive);
    }
}

/// A scan keeps the entries that exist, in their order, and no other.
pub proof fn law_scan_keeps_what_exists<W>(entries: Seq<W>, alive: Seq<bool>)
    requires
        entries.len() == alive.len(),
    ensures
        ({
            let kept = Seq::new(entries.len(), |i: int| i).filter(|i: int| alive[i]);
            &&& surviving(entries, alive).len() == kept.len()
            &&& forall|k: int|
                0 <= k < kept.len() ==> #[trigger] surviving(entries, alive)[k] == entries[kept[k]]
        }),
    decreases entries.len(),
{
    reveal(Seq::filter);
    let places = Seq::new(entries.len(), |i: int| i);
    if entries.len() > 0 {
        let front = entries.drop_last();
        let living = alive.drop_last();
        law_scan_keeps_what_exists(front, living);
        assert(places.drop_last() =~= Seq::new(front.len(), |i: int| i));
        lemma_same_places(places.drop_last(), |i: int| alive[i], |i: int| living[i]);
        let before = places.drop_last().filter(|i: int| living[i]);
        lemma_places_below(front.len(), living);
    } else {
        assert(places =~= Seq::<int>::empty());
    }
}

proof fn lemma_places_below(len: nat, alive: Seq<bool>)
    ensures
        ({
            let kept = Seq::new(len, |i: int| i).filter(|i: int| alive[i]);
            forall|k: int| 0 <= k < kept.len() ==> 0 <= #[trigger] kept[k] < len
        }),
    decreases len,
{
    reveal(Seq::filter);
    let places = Seq::new(len, |i: int| i);
    if len > 0 {
        assert(places.drop_last() =~= Seq::new((len - 1) as nat, |i: int| i));
        lemma_places_below((len - 1) as nat, alive);
        let before = places.drop_last().filter(|i: int| alive[i]);
        let kept = places.filter(|i: int| alive[i]);
        assert forall|k: int| 0 <= k < kept.len() implies 0 <= #[trigger] kept[k] < len by {
            if k < before.len() {
                assert(kept[k] == before[k]);
            } else {
                assert(kept[k] == places.last());
            }
        }
    } else {
        assert(places =~= Seq::<int>::empty());
    }
}

proof fn lemma_same_places(places: Seq<int>, a: spec_fn(int) -> bool, b: spec_fn(int) -> bool)
    requires
        forall|i: int| 0 <= i < places.len() ==> a(#[trigger] places[i]) == b(places[i]),
    ensures
        places.filter(a) == places.filter(b),
    decreases places.len(),
{
    reveal(Seq::filter);
    if places.len() > 0 {
        let front = places.drop_last();
        assert(forall|i: int| 0 <= i < front.len() ==> front[i] == places[i]);
        lemma_same_places(front, a, b);
        assert(a(places[places.len() - 1]) == b(places[places.len() - 1]));
    }
}

/// A peer of which no one has been there since a moment counts as gone from the
/// moment on that lies the timeout later, and not before; at once, where there
/// is no timeout. One that is there never does.
pub proof fn law_absence_begins_after_the_timeout(watch: MatchWatch, now: Nanos)
    ensures
        watch.state is Present ==> !watch.absent(now),
        watch.state matches MatchState::Absent { since, .. } ==> (watch.absent(now) <==> now
            >= since + watch.timeout || watch.timeout == 0),
{
}

/// An absence that was not reported is to be reported when the timeout is over,
/// where the clock can show that; 63 bits of seconds are what it can show. None
/// is reported twice, and none where there is a peer.
pub proof fn law_absence_is_reported_after_the_timeout(watch: MatchWatch)
    ensures
        watch.state is Present ==> watch.deadline() is None,
        watch.state matches MatchState::Absent { since, notified } ==> {
            &&& notified ==> watch.deadline() is None
            &&& !notified && since + watch.timeout < 9_223_372_036_854_775_808 * 1_000_000_000
                ==> (watch.deadline() matches Some(deadline) && deadline - watch.timeout == since)
            &&& since + watch.timeout >= 9_223_372_036_854_775_808 * 1_000_000_000
                ==> watch.deadline() is None
        },
{
}

/// A report of peers ends an absence, one of none begins an absence, and neither
/// touches the timeout. A new absence counts from the report and has not been
/// told.
pub proof fn law_reports_begin_and_end_absence(watch: MatchWatch, current_count: u32, now: Nanos)
    ensures
        watch.updated(current_count, now).timeout == watch.timeout,
        current_count > 0 <==> watch.updated(current_count, now).state is Present,
        watch.state is Present && current_count == 0 ==> (watch.updated(
            current_count,
            now,
        ).state matches MatchState::Absent { since, notified } && since == now && !notified),
{
}

/// The waiting ends with the nearest deadline, neither before nor after it,
/// where nothing changes; without one it ends with a change alone.
pub proof fn law_wait_is_for_the_nearest_deadline(
    generation: u64,
    seen_generation: u64,
    nearest: Option<Nanos>,
    now: Nanos,
)
    ensures
        ({
            let w = waiting(generation, seen_generation, nearest, now);
            &&& generation != seen_generation ==> w is Rescan
            &&& generation == seen_generation ==> (w is UntilChange <==> nearest is None)
            &&& w matches Waiting::AtMost(span) ==> nearest == Some((now + span) as Nanos) && now
                + span <= Nanos::MAX && span > 0
            &&& generation == seen_generation && w is Rescan ==> nearest is Some && nearest->0
                <= now
        }),
{
}

} // verus!
