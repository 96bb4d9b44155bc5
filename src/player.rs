use crate::color::Rgba;
use crate::timeline::Timeline;
use vstd::prelude::*;

verus! {

/// A timeline bound to a target, with the time it has run so far.
#[derive(Clone, Debug)]
pub struct Entry {
    pub handle: u64,
    pub target: usize,
    pub timeline: Timeline,
    pub elapsed: u64,
}

/// Raised once when the timeline of `handle` finishes its last repetition.
#[derive(Clone, Copy, Debug, PartialEq, Eq, Structural)]
pub struct Completion {
    pub handle: u64,
    pub payload: Option<u64>,
}

/// Whether target `id` still exists.
pub open spec fn resolves(targets: Seq<Option<Rgba>>, id: int) -> bool {
    0 <= id < targets.len() && targets[id] is Some
}

/// Elapsed time of `e` after `dt` more, clamped to the end of its timeline.
pub open spec fn advanced(e: Entry, dt: int) -> int {
    if e.elapsed + dt >= e.timeline.end_ms() {
        e.timeline.end_ms()
    } else {
        e.elapsed + dt
    }
}

pub open spec fn stepped(e: Entry, dt: int) -> Entry {
    Entry { handle: e.handle, target: e.target, timeline: e.timeline, elapsed: advanced(e, dt) as u64 }
}

pub open spec fn finishes(t0: Seq<Option<Rgba>>, e: Entry, dt: int) -> bool {
    resolves(t0, e.target as int) && e.timeline.complete_at(advanced(e, dt))
}

pub open spec fn stays(t0: Seq<Option<Rgba>>, e: Entry, dt: int) -> bool {
    resolves(t0, e.target as int) && !e.timeline.complete_at(advanced(e, dt))
}

/// Entries still active after one tick over the first `k` entries.
pub open spec fn kept(t0: Seq<Option<Rgba>>, es: Seq<Entry>, dt: int, k: int) -> Seq<Entry>
    decreases k,
{
    if k <= 0 {
        Seq::empty()
    } else if stays(t0, es[k - 1], dt) {
        kept(t0, es, dt, k - 1).push(stepped(es[k - 1], dt))
    } else {
        kept(t0, es, dt, k - 1)
    }
}

/// Completion events of one tick over the first `k` entries, in their order.
pub open spec fn events(t0: Seq<Option<Rgba>>, es: Seq<Entry>, dt: int, k: int) -> Seq<Completion>
    decreases k,
{
    if k <= 0 {
        Seq::empty()
    } else if finishes(t0, es[k - 1], dt) {
        events(t0, es, dt, k - 1).push(
            Completion { handle: es[k - 1].handle, payload: es[k - 1].timeline.payload },
        )
    } else {
        events(t0, es, dt, k - 1)
    }
}

/// Number of entries among the first `k` whose target no longer resolves.
pub open spec fn dropped(t0: Seq<Option<Rgba>>, es: Seq<Entry>, k: int) -> int
    decreases k,
{
    if k <= 0 {
        0
    } else if resolves(t0, es[k - 1].target as int) {
        dropped(t0, es, k - 1)
    } else {
        dropped(t0, es, k - 1) + 1
    }
}

/// Targets after the first `k` entries wrote their values, in order.
pub open spec fn writes(t0: Seq<Option<Rgba>>, es: Seq<Entry>, dt: int, k: int) -> Seq<Option<Rgba>>
    decreases k,
{
    if k <= 0 {
        t0
    } else {
        let prev = writes(t0, es, dt, k - 1);
        let e = es[k - 1];
        if resolves(t0, e.target as int) && e.timeline.value_at_spec(advanced(e, dt)) is Some {
            prev.update(e.target as int, e.timeline.value_at_spec(advanced(e, dt)))
        } else {
            prev
        }
    }
}

proof fn lemma_writes_shape(t0: Seq<Option<Rgba>>, es: Seq<Entry>, dt: int, k: int)
    ensures
        writes(t0, es, dt, k).len() == t0.len(),
        forall|j: int|
            0 <= j < t0.len() ==> (#[trigger] writes(t0, es, dt, k)[j] is Some <==> t0[j] is Some),
    decreases k,
{
    if k > 0 {
        lemma_writes_shape(t0, es, dt, k - 1);
    }
}

proof fn lemma_dropped_bound(t0: Seq<Option<Rgba>>, es: Seq<Entry>, dt: int, k: int)
    requires
        0 <= k,
    ensures
        0 <= dropped(t0, es, k),
        dropped(t0, es, k) + kept(t0, es, dt, k).len() <= k,
    decreases k,
{
    if k > 0 {
        lemma_dropped_bound(t0, es, dt, k - 1);
    }
}

/// Once no entry carries `handle`, no tick completes it and no tick brings
/// it back: the events and the surviving entries of every later tick leave
/// it out too.
pub proof fn lemma_cancelled_never_completes(
    t0: Seq<Option<Rgba>>,
    es: Seq<Entry>,
    dt: int,
    k: int,
    handle: u64,
)
    requires
        forall|i: int| 0 <= i < es.len() ==> (#[trigger] es[i]).handle != handle,
        k <= es.len(),
    ensures
        forall|j: int|
            0 <= j < events(t0, es, dt, k).len() ==> (#[trigger] events(t0, es, dt, k)[j]).handle
                != handle,
        forall|j: int|
            0 <= j < kept(t0, es, dt, k).len() ==> (#[trigger] kept(t0, es, dt, k)[j]).handle
                != handle,
    decreases k,
{
    if k > 0 {
        lemma_cancelled_never_completes(t0, es, dt, k - 1, handle);
    }
}

/// A lone entry completes in the tick that takes it to the end of its last
/// repetition, and only then: earlier ticks emit nothing and keep it, that
/// tick emits one event with the timeline's payload and removes it.
pub proof fn lemma_completes_once_at_end(t0: Seq<Option<Rgba>>, e: Entry, dt: int)
    requires
        resolves(t0, e.target as int),
        e.timeline.wf(),
        e.elapsed <= e.timeline.end_ms(),
        dt >= 0,
    ensures
        e.elapsed + dt < e.timeline.end_ms() ==> events(t0, seq![e], dt, 1).len() == 0 && kept(
            t0,
            seq![e],
            dt,
            1,
        ) == seq![stepped(e, dt)],
        e.elapsed + dt >= e.timeline.end_ms() ==> events(t0, seq![e], dt, 1) == seq![
            Completion { handle: e.handle, payload: e.timeline.payload },
        ] && kept(t0, seq![e], dt, 1).len() == 0,
{
    let es = seq![e];
    assert(es[0] == e);
    assert(events(t0, es, dt, 0) =~= Seq::<Completion>::empty());
    assert(kept(t0, es, dt, 0) =~= Seq::<Entry>::empty());
    assert(Seq::<Entry>::empty().push(stepped(e, dt)) =~= seq![stepped(e, dt)]);
    assert(Seq::<Completion>::empty().push(
        Completion { handle: e.handle, payload: e.timeline.payload },
    ) =~= seq![Completion { handle: e.handle, payload: e.timeline.payload }]);
}

/// The set of running timelines.
pub struct Player {
    pub entries: Vec<Entry>,
    pub next_handle: u64,
    /// How many entries were dropped because their target had gone.
    pub unresolved: u64,
}

impl Player {
    pub open spec fn wf(&self) -> bool {
        &&& forall|i: int|
            0 <= i < self.entries.len() ==> (#[trigger] self.entries@[i]).timeline.wf()
                && self.entries@[i].elapsed <= self.entries@[i].timeline.end_ms()
                && self.entries@[i].handle < self.next_handle
        &&& forall|i: int, j: int|
            0 <= i < j < self.entries.len() ==> (#[trigger] self.entries@[i]).handle
                < (#[trigger] self.entries@[j]).handle
        &&& self.unresolved + self.entries.len() <= self.next_handle
    }

    pub fn new() -> (r: Player)
        ensures
            r.wf(),
            r.entries@.len() == 0,
            r.next_handle == 0,
            r.unresolved == 0,
    {
        Player { entries: Vec::new(), next_handle: 0, unresolved: 0 }
    }

    /// Starts `timeline` on `target` and returns its new handle; `None`
    /// once every handle has been given out.
    pub fn play(&mut self, target: usize, timeline: Timeline) -> (r: Option<u64>)
        requires
            old(self).wf(),
            timeline.wf(),
        ensures
            final(self).wf(),
            final(self).unresolved == old(self).unresolved,
            old(self).next_handle == u64::MAX ==> r is None && final(self).entries@ == old(self).entries@ && final(self).next_handle == old(self).next_handle,
            old(self).next_handle < u64::MAX ==> r == Some(old(self).next_handle)
                && final(self).next_handle == old(self).next_handle + 1
                && final(self).entries@ == old(self).entries@.push(
                (Entry { handle: old(self).next_handle, target, timeline, elapsed: 0 }),
            ),
    {
        if self.next_handle == u64::MAX {
            return None;
        }
        let h = self.next_handle;
        self.entries.push(Entry { handle: h, target, timeline, elapsed: 0 });
        self.next_handle = h + 1;
        Some(h)
    }

    /// Stops the timeline of `handle` before it completes; it then never
    /// raises a completion event. Returns whether it was running.
    pub fn cancel(&mut self, handle: u64) -> (r: bool)
        requires
            old(self).wf(),
        ensures
            final(self).wf(),
            final(self).next_handle == old(self).next_handle,
            final(self).unresolved == old(self).unresolved,
            r == exists|i: int|
                0 <= i < old(self).entries.len() && (#[trigger] old(self).entries@[i]).handle
                    == handle,
            r ==> exists|i: int|
                0 <= i < old(self).entries.len() && (#[trigger] old(self).entries@[i]).handle
                    == handle && final(self).entries@ == old(self).entries@.remove(i),
            !r ==> final(self).entries@ == old(self).entries@,
            forall|i: int|
                0 <= i < final(self).entries.len() ==> (#[trigger] final(self).entries@[i]).handle
                    != handle,
    {
        let n = self.entries.len();
        let mut i: usize = 0;
        while i < n
            invariant
                n == self.entries.len(),
                i <= n,
                self.wf(),
                self.entries@ == old(self).entries@,
                self.next_handle == old(self).next_handle,
                self.unresolved == old(self).unresolved,
                forall|j: int| 0 <= j < i ==> (#[trigger] self.entries@[j]).handle != handle,
            decreases n - i,
        {
            if self.entries[i].handle == handle {
                let ghost before = self.entries@;
                self.entries.remove(i);
                assert(forall|j: int|
                    0 <= j < self.entries.len() ==> #[trigger] self.entries@[j] == if j < i {
                        before[j]
                    } else {
                        before[j + 1]
                    });
                assert forall|j: int|
                    0 <= j < self.entries.len() implies (#[trigger] self.entries@[j]).handle
                    != handle by {
                    if j >= i {
                        assert(before[i as int].handle < before[j + 1].handle);
                    }
                }
                assert forall|a: int, b: int|
                    0 <= a < b < self.entries.len() implies (#[trigger] self.entries@[a]).handle
                    < (#[trigger] self.entries@[b]).handle by {
                    let a2 = if a < i {
                        a
                    } else {
                        a + 1
                    };
                    let b2 = if b < i {
                        b
                    } else {
                        b + 1
                    };
                    assert(before[a2].handle < before[b2].handle);
                }
                assert forall|j: int| 0 <= j < self.entries.len() implies (
                #[trigger] self.entries@[j]).timeline.wf() && self.entries@[j].elapsed
                    <= self.entries@[j].timeline.end_ms() && self.entries@[j].handle
                    < self.next_handle by {
                    let j2 = if j < i {
                        j
                    } else {
                        j + 1
                    };
                    assert(before[j2] == self.entries@[j]);
                }
                return true;
            }
            i = i + 1;
        }
        false
    }

    /// Advances every running timeline by `dt` milliseconds, in the order
    /// they were started. An entry whose target no longer resolves is
    /// dropped and counted; any other writes its current value (if any) to
    /// its target, and one that reaches the end of its last repetition
    /// raises its completion event and leaves.
    pub fn tick(&mut self, dt: u64, targets: &mut Vec<Option<Rgba>>) -> (r: Vec<Completion>)
        requires
            old(self).wf(),
        ensures
            final(self).wf(),
            final(self).next_handle == old(self).next_handle,
            final(self).entries@ == kept(
                old(targets)@,
                old(self).entries@,
                dt as int,
                old(self).entries.len() as int,
            ),
            r@ == events(
                old(targets)@,
                old(self).entries@,
                dt as int,
                old(self).entries.len() as int,
            ),
            final(targets)@ == writes(
                old(targets)@,
                old(self).entries@,
                dt as int,
                old(self).entries.len() as int,
            ),
            final(self).unresolved == old(self).unresolved + dropped(
                old(targets)@,
                old(self).entries@,
                old(self).entries.len() as int,
            ),
    {
        let ghost t0 = targets@;
        let ghost es = self.entries@;
        let ghost next = self.next_handle;
        let n = self.entries.len();
        let mut rest: Vec<Entry> = Vec::new();
        std::mem::swap(&mut self.entries, &mut rest);
        let mut out: Vec<Entry> = Vec::new();
        let mut evs: Vec<Completion> = Vec::new();
        let mut lost: u64 = self.unresolved;
        let mut i: usize = 0;
        while i < n
            invariant
                n == es.len(),
                i <= n,
                rest@ == es.subrange(i as int, n as int),
                out@ == kept(t0, es, dt as int, i as int),
                evs@ == events(t0, es, dt as int, i as int),
                targets@ == writes(t0, es, dt as int, i as int),
                lost == old(self).unresolved + dropped(t0, es, i as int),
                old(self).unresolved + n <= next,
                es == old(self).entries@,
                t0 == old(targets)@,
                next == old(self).next_handle,
                forall|a: int|
                    0 <= a < es.len() ==> (#[trigger] es[a]).timeline.wf() && es[a].elapsed
                        <= es[a].timeline.end_ms() && es[a].handle < next,
                forall|a: int, b: int|
                    0 <= a < b < es.len() ==> (#[trigger] es[a]).handle < (#[trigger] es[b]).handle,
                forall|a: int|
                    0 <= a < out.len() ==> (#[trigger] out@[a]).timeline.wf() && out@[a].elapsed
                        <= out@[a].timeline.end_ms() && out@[a].handle < next,
                forall|a: int, b: int|
                    0 <= a < b < out.len() ==> (#[trigger] out@[a]).handle < (#[trigger] out@[b]).handle,
                forall|a: int, j: int|
                    0 <= a < out.len() && i <= j < n ==> (#[trigger] out@[a]).handle < (
                    #[trigger] es[j]).handle,
            decreases n - i,
        {
            proof {
                lemma_writes_shape(t0, es, dt as int, i as int);
                lemma_dropped_bound(t0, es, dt as int, i as int);
            }
            assert(rest@[0] == es[i as int]);
            let mut e = rest.remove(0);
            let end = e.timeline.end();
            let t = e.target;
            if t >= targets.len() || targets[t].is_none() {
                assert(!resolves(t0, t as int));
                lost = lost + 1;
            } else {
                let now = if dt >= end - e.elapsed {
                    end
                } else {
                    e.elapsed + dt
                };
                assert(now == advanced(es[i as int], dt as int));
                let v = e.timeline.value_at(now);
                match v {
                    Some(c) => {
                        targets.set(t, Some(c));
                    },
                    None => {},
                }
                if now >= end {
                    evs.push(Completion { handle: e.handle, payload: e.timeline.payload });
                } else {
                    e.elapsed = now;
                    assert(e == stepped(es[i as int], dt as int));
                    out.push(e);
                }
            }
            assert(rest@ =~= es.subrange(i as int + 1, n as int));
            i = i + 1;
        }
        proof {
            lemma_dropped_bound(t0, es, dt as int, n as int);
        }
        self.entries = out;
        self.unresolved = lost;
        evs
    }
}

} // verus!
