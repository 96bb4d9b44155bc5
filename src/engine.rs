use crate::color::Rgba;
use crate::player::{events, writes, Completion, Entry, Player};
use crate::splash::{color, flash_segments, splash_text_timeline, splash_timer_to, swatch_spec, Swatch};
use crate::state::{
    change_state_to, change_state_to_spec, next_state, ordinal_spec, state_of, AppState, StateError, STATE_COUNT,
};
use crate::timeline::Segment;
use vstd::prelude::*;

verus! {

/// `n + 1`, staying at the top once there.
pub open spec fn bump(n: u64) -> u64 {
    if n < u64::MAX {
        (n + 1) as u64
    } else {
        n
    }
}

fn bump_exec(n: u64) -> (r: u64)
    ensures
        r == bump(n),
{
    if n < u64::MAX {
        n + 1
    } else {
        n
    }
}

/// State reached from `s` after handling the first `k` completion events:
/// each payload is a request for the state of that ordinal.
pub open spec fn states_after(s: AppState, evs: Seq<Completion>, k: int) -> AppState
    decreases k,
{
    if k <= 0 {
        s
    } else {
        let p = states_after(s, evs, k - 1);
        match evs[k - 1].payload {
            Some(n) => next_state(p, state_of(n as int)),
            None => p,
        }
    }
}

proof fn lemma_remove_keeps(s: Seq<Entry>, j: int)
    requires
        0 <= j < s.len(),
    ensures
        forall|i: int|
            0 <= i < s.len() && i != j ==> (#[trigger] s.remove(j)).contains(s[i]),
        forall|i: int|
            0 <= i < s.len() - 1 ==> s.contains(#[trigger] s.remove(j)[i]),
{
    let r = s.remove(j);
    assert forall|i: int| 0 <= i < s.len() && i != j implies (#[trigger] s.remove(j)).contains(
        s[i],
    ) by {
        if i < j {
            assert(r[i] == s[i]);
        } else {
            assert(r[i - 1] == s[i]);
        }
    }
    assert forall|i: int| 0 <= i < s.len() - 1 implies s.contains(#[trigger] s.remove(j)[i]) by {
        if i < j {
            assert(s[i] == r[i]);
        } else {
            assert(s[i + 1] == r[i]);
        }
    }
}

/// The splash screen's entry action: the main text flashes white, the sub
/// text light grey, and a timer requests the home screen after
/// `SPLASH_HOLD_MS`. Returns the three handles, or none when the player has
/// fewer than three handles left.
pub fn show_splash(player: &mut Player, main_text: usize, sub_text: usize) -> (r: Vec<u64>)
    requires
        old(player).wf(),
    ensures
        final(player).wf(),
        final(player).unresolved == old(player).unresolved,
        old(player).next_handle > u64::MAX - 3 ==> r@.len() == 0 && final(player).entries@ == old(player).entries@ && final(player).next_handle == old(player).next_handle,
        old(player).next_handle <= u64::MAX - 3 ==> ({
            let n = old(player).next_handle;
            let k = old(player).entries@.len() as int;
            let es = final(player).entries@;
            &&& r@ == seq![n, (n + 1) as u64, (n + 2) as u64]
            &&& final(player).next_handle == n + 3
            &&& es.len() == k + 3
            &&& es.subrange(0, k) == old(player).entries@
            &&& es[k].handle == n && es[k].target == main_text
            &&& es[k].timeline.segs() == flash_segments(
                swatch_spec(Swatch::Black),
                swatch_spec(Swatch::White),
            )
            &&& es[k + 1].handle == n + 1 && es[k + 1].target == sub_text
            &&& es[k + 1].timeline.segs() == flash_segments(
                swatch_spec(Swatch::Black),
                swatch_spec(Swatch::LightGrey),
            )
            &&& es[k + 2].handle == n + 2 && es[k + 2].target == main_text
            &&& es[k + 2].timeline.segs() == seq![Segment::Delay { duration_ms: 4000 }]
            &&& es[k + 2].timeline.payload == Some(ordinal_spec(AppState::Home) as u64)
            &&& es[k].elapsed == 0 && es[k + 1].elapsed == 0 && es[k + 2].elapsed == 0
        }),
{
    let mut handles: Vec<u64> = Vec::new();
    if player.next_handle > u64::MAX - 3 {
        return handles;
    }
    let ghost k = player.entries@.len();
    let black = color(Swatch::Black);
    let main = splash_text_timeline(black, color(Swatch::White));
    let sub = splash_text_timeline(black, color(Swatch::LightGrey));
    let timer = splash_timer_to(AppState::Home.ordinal());
    let a = player.play(main_text, main).unwrap();
    let b = player.play(sub_text, sub).unwrap();
    let c = player.play(main_text, timer).unwrap();
    handles.push(a);
    handles.push(b);
    handles.push(c);
    assert(player.entries@.subrange(0, k as int) =~= old(player).entries@);
    handles
}

/// The application: its current state, the running timelines, and what it
/// has observed.
pub struct App {
    pub state: AppState,
    pub player: Player,
    /// Handles armed by the current state's entry action.
    pub owned: Vec<u64>,
    /// By state ordinal: whether leaving that state cancels what it armed.
    pub cancel_on_exit: [bool; 7],
    pub main_text: usize,
    pub sub_text: usize,
    /// How many entry actions have run.
    pub entries_run: u64,
    /// How many requests named the current state.
    pub redundant: u64,
    /// How many requests named no state.
    pub invalid: u64,
}

impl App {
    pub open spec fn wf(&self) -> bool {
        &&& self.player.wf()
        &&& forall|k: int|
            0 <= k < self.owned.len() ==> #[trigger] self.owned@[k] < self.player.next_handle
    }

    pub open spec fn cancels(&self, s: AppState) -> bool {
        self.cancel_on_exit@[ordinal_spec(s) as int]
    }

    /// Starts in the splash state and runs its entry action.
    pub fn new(main_text: usize, sub_text: usize, cancel_on_exit: [bool; 7]) -> (r: App)
        ensures
            r.wf(),
            r.state == AppState::Splash,
            r.entries_run == 1,
            r.redundant == 0,
            r.invalid == 0,
            r.cancel_on_exit == cancel_on_exit,
            r.owned@.len() == 3,
            r.player.entries@.len() == 3,
            r.player.unresolved == 0,
    {
        let mut player = Player::new();
        let owned = show_splash(&mut player, main_text, sub_text);
        App {
            state: AppState::Splash,
            player,
            owned,
            cancel_on_exit,
            main_text,
            sub_text,
            entries_run: 1,
            redundant: 0,
            invalid: 0,
        }
    }

    /// Leaves the current state: cancels the timelines it armed when its
    /// policy says so, and forgets them either way.
    fn leave(&mut self)
        requires
            old(self).wf(),
        ensures
            final(self).wf(),
            final(self).owned@.len() == 0,
            final(self).state == old(self).state,
            final(self).cancel_on_exit == old(self).cancel_on_exit,
            final(self).main_text == old(self).main_text,
            final(self).sub_text == old(self).sub_text,
            final(self).entries_run == old(self).entries_run,
            final(self).redundant == old(self).redundant,
            final(self).invalid == old(self).invalid,
            final(self).player.next_handle == old(self).player.next_handle,
            final(self).player.unresolved == old(self).player.unresolved,
            !old(self).cancels(old(self).state) ==> final(self).player.entries@ == old(self).player.entries@,
            old(self).cancels(old(self).state) ==> (forall|i: int|
                0 <= i < final(self).player.entries.len() ==> !old(self).owned@.contains(
                    (#[trigger] final(self).player.entries@[i]).handle,
                )),
            forall|i: int|
                0 <= i < old(self).player.entries.len() && !old(self).owned@.contains(
                    (#[trigger] old(self).player.entries@[i]).handle,
                ) ==> final(self).player.entries@.contains(old(self).player.entries@[i]),
    {
        let ghost es0 = self.player.entries@;
        let ghost o = self.owned@;
        let idx = self.state.ordinal() as usize;
        if self.cancel_on_exit[idx] {
            let n = self.owned.len();
            let mut k: usize = 0;
            while k < n
                invariant
                    n == o.len(),
                    k <= n,
                    o == self.owned@,
                    es0 == old(self).player.entries@,
                    self.player.wf(),
                    self.player.next_handle == old(self).player.next_handle,
                    self.player.unresolved == old(self).player.unresolved,
                    self.state == old(self).state,
                    self.cancel_on_exit == old(self).cancel_on_exit,
                    self.main_text == old(self).main_text,
                    self.sub_text == old(self).sub_text,
                    self.entries_run == old(self).entries_run,
                    self.redundant == old(self).redundant,
                    self.invalid == old(self).invalid,
                    forall|m: int, i: int|
                        0 <= m < k && 0 <= i < self.player.entries.len() ==> (
                        #[trigger] self.player.entries@[i]).handle != #[trigger] o[m],
                    forall|i: int|
                        0 <= i < es0.len() && !o.contains((#[trigger] es0[i]).handle)
                            ==> self.player.entries@.contains(es0[i]),
                decreases n - k,
            {
                let h = self.owned[k];
                let ghost cur = self.player.entries@;
                let found = self.player.cancel(h);
                proof {
                    if found {
                        let j = choose|j: int|
                            0 <= j < cur.len() && (#[trigger] cur[j]).handle == h
                                && self.player.entries@ == cur.remove(j);
                        lemma_remove_keeps(cur, j);
                        assert forall|m: int, i: int|
                            0 <= m < k + 1 && 0 <= i < self.player.entries.len() implies (
                            #[trigger] self.player.entries@[i]).handle != #[trigger] o[m] by {
                            if m < k {
                                assert(cur.contains(cur.remove(j)[i]));
                            }
                        }
                        assert forall|i: int|
                            0 <= i < es0.len() && !o.contains(
                                (#[trigger] es0[i]).handle,
                            ) implies self.player.entries@.contains(es0[i]) by {
                            let w = choose|w: int| 0 <= w < cur.len() && cur[w] == es0[i];
                            assert(o[k as int] == h);
                            assert(w != j);
                        }
                    }
                }
                k = k + 1;
            }
            assert forall|i: int| 0 <= i < self.player.entries.len() implies !o.contains(
                (#[trigger] self.player.entries@[i]).handle,
            ) by {
                if o.contains(self.player.entries@[i].handle) {
                    let m = choose|m: int| 0 <= m < o.len() && o[m] == self.player.entries@[i].handle;
                    assert(self.player.entries@[i].handle != o[m]);
                }
            }
        } else {
            assert forall|i: int|
                0 <= i < es0.len() && !o.contains(
                    (#[trigger] es0[i]).handle,
                ) implies self.player.entries@.contains(es0[i]) by {
                assert(self.player.entries@[i] == es0[i]);
            }
        }
        self.owned = Vec::new();
    }

    /// Runs the entry action of `s`: the splash state arms its timelines,
    /// the others arm none.
    fn enter(&mut self, s: AppState)
        requires
            old(self).wf(),
            old(self).owned@.len() == 0,
        ensures
            final(self).wf(),
            final(self).entries_run == bump(old(self).entries_run),
            final(self).state == old(self).state,
            final(self).cancel_on_exit == old(self).cancel_on_exit,
            final(self).main_text == old(self).main_text,
            final(self).sub_text == old(self).sub_text,
            final(self).redundant == old(self).redundant,
            final(self).invalid == old(self).invalid,
            final(self).player.unresolved == old(self).player.unresolved,
            final(self).player.entries@.len() >= old(self).player.entries@.len(),
            final(self).player.entries@.subrange(0, old(self).player.entries@.len() as int) == old(self).player.entries@,
            forall|i: int|
                old(self).player.entries@.len() <= i < final(self).player.entries@.len()
                    ==> #[trigger] final(self).player.entries@[i].handle >= old(self).player.next_handle,
            s != AppState::Splash ==> final(self).player.entries@ == old(self).player.entries@
                && final(self).player.next_handle == old(self).player.next_handle
                && final(self).owned@.len() == 0,
    {
        self.entries_run = bump_exec(self.entries_run);
        if s == AppState::Splash {
            let handles = show_splash(&mut self.player, self.main_text, self.sub_text);
            self.owned = handles;
        } else {
            assert(self.player.entries@.subrange(0, self.player.entries@.len() as int)
                =~= self.player.entries@);
        }
    }

    /// Handles a request for `requested` (`None` when it named no state).
    /// A valid new state is entered at once: the current state is left
    /// (see `cancel_on_exit`) and the new one's entry action runs once.
    /// Otherwise nothing changes but the matching diagnostic counter.
    pub fn request(&mut self, requested: Option<AppState>) -> (r: Result<AppState, StateError>)
        requires
            old(self).wf(),
        ensures
            final(self).wf(),
            final(self).state == next_state(old(self).state, requested),
            requested is None ==> r == Err::<AppState, StateError>(StateError::InvalidStateRequest),
            requested == Some(old(self).state) ==> r == Err::<AppState, StateError>(
                StateError::RedundantStateRequest,
            ),
            requested matches Some(s) ==> (s != old(self).state ==> r == Ok::<AppState, StateError>(
                s,
            )),
            r is Err ==> final(self).player.entries@ == old(self).player.entries@
                && final(self).player.next_handle == old(self).player.next_handle
                && final(self).owned@ == old(self).owned@
                && final(self).entries_run == old(self).entries_run,
            r == Err::<AppState, StateError>(StateError::InvalidStateRequest) ==> final(self).invalid == bump(old(self).invalid) && final(self).redundant == old(self).redundant,
            r == Err::<AppState, StateError>(StateError::RedundantStateRequest) ==> final(self).redundant == bump(old(self).redundant) && final(self).invalid == old(self).invalid,
            r is Ok ==> final(self).entries_run == bump(old(self).entries_run) && final(self).redundant == old(self).redundant && final(self).invalid == old(self).invalid,
            r is Ok && old(self).cancels(old(self).state) ==> (forall|i: int|
                0 <= i < final(self).player.entries.len() ==> !old(self).owned@.contains(
                    (#[trigger] final(self).player.entries@[i]).handle,
                )),
            r is Ok && !old(self).cancels(old(self).state) ==> final(self).player.entries@.subrange(
                0,
                old(self).player.entries@.len() as int,
            ) == old(self).player.entries@,
            r is Ok ==> forall|i: int|
                0 <= i < old(self).player.entries.len() && !old(self).owned@.contains(
                    (#[trigger] old(self).player.entries@[i]).handle,
                ) ==> final(self).player.entries@.contains(old(self).player.entries@[i]),
            r is Ok && final(self).state != AppState::Splash ==> final(self).owned@.len() == 0
                && final(self).player.next_handle == old(self).player.next_handle,
    {
        let r = change_state_to(self.state, requested);
        match r {
            Ok(s) => {
                self.leave();
                let ghost mid = self.player.entries@;
                self.state = s;
                self.enter(s);
                proof {
                    let fin = self.player.entries@;
                    assert forall|i: int| 0 <= i < mid.len() implies fin[i] == mid[i] by {
                        assert(fin.subrange(0, mid.len() as int)[i] == fin[i]);
                    }
                    assert forall|i: int|
                        0 <= i < old(self).player.entries.len() && !old(self).owned@.contains(
                            (#[trigger] old(self).player.entries@[i]).handle,
                        ) implies fin.contains(old(self).player.entries@[i]) by {
                        let w = choose|w: int|
                            0 <= w < mid.len() && mid[w] == old(self).player.entries@[i];
                        assert(fin[w] == mid[w]);
                    }
                    if old(self).cancels(old(self).state) {
                        assert forall|i: int| 0 <= i < fin.len() implies !old(self).owned@.contains(
                            (#[trigger] fin[i]).handle,
                        ) by {
                            if i >= mid.len() {
                                if old(self).owned@.contains(fin[i].handle) {
                                    let m = choose|m: int|
                                        0 <= m < old(self).owned@.len() && old(self).owned@[m]
                                            == fin[i].handle;
                                    assert(old(self).owned@[m] < old(self).player.next_handle);
                                }
                            } else {
                                assert(fin[i] == mid[i]);
                            }
                        }
                    } else {
                        assert(fin.subrange(0, mid.len() as int) =~= mid);
                    }
                }
            },
            Err(StateError::InvalidStateRequest) => {
                self.invalid = bump_exec(self.invalid);
            },
            Err(StateError::RedundantStateRequest) => {
                self.redundant = bump_exec(self.redundant);
            },
        }
        r
    }

    /// Handles a request given as a state ordinal; one that names no state
    /// is an invalid request.
    pub fn request_ordinal(&mut self, n: u64) -> (r: Result<AppState, StateError>)
        requires
            old(self).wf(),
        ensures
            final(self).wf(),
            final(self).state == next_state(old(self).state, state_of(n as int)),
            n >= STATE_COUNT ==> r == Err::<AppState, StateError>(StateError::InvalidStateRequest)
                && final(self).invalid == bump(old(self).invalid) && final(self).player.entries@
                == old(self).player.entries@ && final(self).owned@ == old(self).owned@
                && final(self).entries_run == old(self).entries_run,
            n < STATE_COUNT ==> r == change_state_to_spec(old(self).state, state_of(n as int)),
    {
        self.request(AppState::from_ordinal(n))
    }

    /// Consumes one completion event: a payload is a request for the state
    /// of that ordinal; an event without one requests nothing.
    pub fn handle_completion(&mut self, c: Completion) -> (r: Option<Result<AppState, StateError>>)
        requires
            old(self).wf(),
        ensures
            final(self).wf(),
            c.payload is None ==> r is None && final(self).state == old(self).state,
            c.payload matches Some(n) ==> final(self).state == next_state(
                old(self).state,
                state_of(n as int),
            ) && r == Some(change_state_to_spec(old(self).state, state_of(n as int))),
    {
        match c.payload {
            Some(n) => Some(self.request_ordinal(n)),
            None => None,
        }
    }

    /// One frame: advances every timeline by `dt` milliseconds against
    /// `targets`, then handles the completion events in the order raised.
    pub fn tick(&mut self, dt: u64, targets: &mut Vec<Option<Rgba>>) -> (r: Vec<Completion>)
        requires
            old(self).wf(),
        ensures
            final(self).wf(),
            r@ == events(
                old(targets)@,
                old(self).player.entries@,
                dt as int,
                old(self).player.entries.len() as int,
            ),
            final(targets)@ == writes(
                old(targets)@,
                old(self).player.entries@,
                dt as int,
                old(self).player.entries.len() as int,
            ),
            final(self).state == states_after(old(self).state, r@, r@.len() as int),
    {
        let evs = self.player.tick(dt, targets);
        let n = evs.len();
        let mut i: usize = 0;
        while i < n
            invariant
                n == evs.len(),
                i <= n,
                self.wf(),
                self.state == states_after(old(self).state, evs@, i as int),
            decreases n - i,
        {
            let _ = self.handle_completion(evs[i]);
            i = i + 1;
        }
        evs
    }
}

} // verus!
