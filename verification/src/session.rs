//! The rollback session: frame numbering, input delay, repeat-last-input
//! prediction, misprediction detection and resimulation.
//!
//! The session owns the world, a history of frame snapshots, and two input
//! ledgers per player: the authoritative inputs received so far, and the
//! inputs actually used to simulate each frame. Its central invariant ties
//! the world and every retained snapshot to [`spec_sim`] over the used
//! inputs; its central guarantee is that after [`RollbackSession::advance`]
//! the world is exactly what simulating from frame 0 with every known
//! authoritative input (and the documented prediction for the rest) yields
//! — as if those inputs had been known from the start.
//!
//! An authoritative input that contradicts a prediction in a frame whose
//! restore snapshot has already left the bounded history window is fatal:
//! the session reports desynchronization and must be abandoned, never
//! silently continued.

use vstd::prelude::*;

verus! {

use crate::input::{Input, spec_idle};
use crate::step::{spec_sim, spec_step, lemma_sim_prefix_agree, step};
use crate::world::{Config, ConfigV, FRAME_LIMIT, WorldState, WorldV, spec_initial_world};

/// A session-fatal condition reported to the host.
#[derive(Clone, Copy, PartialEq, Eq, Structural, Debug)]
pub enum SessionError {
    /// An authoritative input contradicted a prediction in a frame whose
    /// snapshot is no longer retained: the peers cannot reconverge.
    Desynchronized,
    /// A second, different input arrived for a (player, frame) slot that
    /// already holds an authoritative input.
    ConflictingInput,
}

/// The authoritative input recorded for a frame, if any.
pub open spec fn auth_at(auth: Seq<Option<Input>>, f: int) -> Option<Input> {
    if 0 <= f < auth.len() {
        auth[f]
    } else {
        None
    }
}

/// Repeat-last-input prediction: the authoritative input of the nearest
/// earlier frame, or the neutral record while nothing is known yet.
pub open spec fn spec_predicted(auth: Seq<Option<Input>>, f: int) -> Input
    decreases f,
{
    if f <= 0 {
        spec_idle()
    } else if auth_at(auth, f - 1) is Some {
        auth_at(auth, f - 1)->0
    } else {
        spec_predicted(auth, f - 1)
    }
}

/// The input the session uses to simulate frame `f`: the authoritative one
/// when it has arrived, the prediction otherwise.
pub open spec fn spec_pick(auth: Seq<Option<Input>>, f: int) -> Input {
    if auth_at(auth, f) is Some {
        auth_at(auth, f)->0
    } else {
        spec_predicted(auth, f)
    }
}

/// The inputs [`spec_pick`] chooses for each frame in `lo..hi`.
pub open spec fn spec_picks(auth: Seq<Option<Input>>, lo: int, hi: int) -> Seq<Input> {
    Seq::new((hi - lo) as nat, |i: int| spec_pick(auth, lo + i))
}

/// Whether both players' authoritative inputs for frame `f` have arrived.
pub open spec fn frame_confirmed(a0: Seq<Option<Input>>, a1: Seq<Option<Input>>, f: int) -> bool {
    auth_at(a0, f) is Some && auth_at(a1, f) is Some
}

/// Length of the maximal confirmed prefix of the first `n` frames: the
/// number of frames from the start for which every earlier frame holds
/// both players' authoritative inputs.
pub open spec fn spec_confirmed(a0: Seq<Option<Input>>, a1: Seq<Option<Input>>, n: int) -> int
    decreases n,
{
    if n <= 0 {
        0
    } else {
        let c = spec_confirmed(a0, a1, n - 1);
        if c == n - 1 && frame_confirmed(a0, a1, n - 1) {
            n
        } else {
            c
        }
    }
}

/// A fully confirmed stretch of frames is its own confirmed prefix.
proof fn lemma_confirmed_prefix(a0: Seq<Option<Input>>, a1: Seq<Option<Input>>, c: int)
    requires
        0 <= c,
        forall|f: int| 0 <= f < c ==> #[trigger] frame_confirmed(a0, a1, f),
    ensures
        spec_confirmed(a0, a1, c) == c,
    decreases c,
{
    if c > 0 {
        lemma_confirmed_prefix(a0, a1, c - 1);
    }
}

/// The confirmed prefix stops for good at the first unconfirmed frame.
proof fn lemma_confirmed_stops(a0: Seq<Option<Input>>, a1: Seq<Option<Input>>, c: int, n: int)
    requires
        0 <= c <= n,
        spec_confirmed(a0, a1, c) == c,
        c < n ==> !frame_confirmed(a0, a1, c),
    ensures
        spec_confirmed(a0, a1, n) == c,
    decreases n - c,
{
    if c < n {
        lemma_confirmed_stops(a0, a1, c, n - 1);
    }
}

/// Prediction only looks at frames that hold an authoritative input:
/// skipping a stretch of empty slots does not change it.
pub proof fn lemma_predicted_skip(auth: Seq<Option<Input>>, lo: int, hi: int)
    requires
        0 <= lo <= hi,
        forall|j: int| lo <= j < hi ==> auth_at(auth, j) is None,
    ensures
        spec_predicted(auth, hi) == spec_predicted(auth, lo),
    decreases hi - lo,
{
    if hi > lo {
        lemma_predicted_skip(auth, lo, hi - 1);
    }
}

/// Computes the repeat-last-input prediction for frame `f` by scanning the
/// ledger backwards from the nearest earlier slot.
fn predicted_scan(auth: &Vec<Option<Input>>, f: usize) -> (r: Input)
    requires
        forall|k: int| 0 <= k < auth@.len() ==> ((#[trigger] auth@[k]) matches Some(i) ==> i.wf()),
    ensures
        r == spec_predicted(auth@, f as int),
        r.wf(),
{
    let mut k: usize = if f < auth.len() {
        f
    } else {
        auth.len()
    };
    proof {
        lemma_predicted_skip(auth@, k as int, f as int);
    }
    while k > 0
        invariant
            k <= auth@.len(),
            forall|j: int| 0 <= j < auth@.len() ==> ((#[trigger] auth@[j]) matches Some(i)
                ==> i.wf()),
            spec_predicted(auth@, f as int) == spec_predicted(auth@, k as int),
        decreases k,
    {
        k = k - 1;
        if let Some(i) = auth[k] {
            return i;
        }
    }
    Input::idle()
}

/// Picks the input for frame `f` out of an authoritative ledger.
fn pick_input(auth: &Vec<Option<Input>>, f: usize) -> (r: Input)
    requires
        forall|k: int| 0 <= k < auth@.len() ==> ((#[trigger] auth@[k]) matches Some(i) ==> i.wf()),
    ensures
        r == spec_pick(auth@, f as int),
        r.wf(),
{
    if f < auth.len() {
        if let Some(i) = auth[f] {
            return i;
        }
    }
    predicted_scan(auth, f)
}

/// The authoritative input stored for a frame, if any.
fn get_auth(auth: &Vec<Option<Input>>, frame: usize) -> (r: Option<Input>)
    ensures
        r == auth_at(auth@, frame as int),
{
    if frame < auth.len() {
        auth[frame]
    } else {
        None
    }
}

/// Records an authoritative input in a ledger, growing it with empty slots
/// as needed. Returns false, changing nothing, if the slot already holds a
/// different input.
fn set_auth(auth: &mut Vec<Option<Input>>, frame: usize, input: Input) -> (r: bool)
    requires
        frame < usize::MAX,
    ensures
        r == !(auth_at(old(auth)@, frame as int) matches Some(x) && x != input),
        !r ==> final(auth)@ == old(auth)@,
        r ==> auth_at(final(auth)@, frame as int) == Some(input),
        r ==> forall|k: int| k != frame ==> auth_at(final(auth)@, k) == auth_at(old(auth)@, k),
        r ==> final(auth)@.len() == (if old(auth)@.len() >= frame + 1 {
            old(auth)@.len() as int
        } else {
            frame + 1
        }),
{
    if frame < auth.len() {
        if let Some(x) = auth[frame] {
            return x == input;
        }
        auth[frame] = Some(input);
        return true;
    }
    let ghost orig = auth@;
    while auth.len() < frame
        invariant
            orig.len() <= auth@.len() <= frame,
            auth@.subrange(0, orig.len() as int) == orig,
            forall|k: int| orig.len() <= k < auth@.len() ==> (#[trigger] auth@[k]) is None,
        decreases frame - auth@.len(),
    {
        auth.push(None);
    }
    auth.push(Some(input));
    proof {
        assert forall|k: int| k != frame implies auth_at(auth@, k) == auth_at(orig, k) by {
            if 0 <= k < orig.len() {
                assert(auth@[k] == orig.subrange(0, orig.len() as int)[k]);
            }
        }
    }
    true
}

/// A two-peer rollback session in its running state. Peer discovery and
/// transport are external; they hand the session decoded inputs and call
/// [`RollbackSession::advance`] once per tick.
pub struct RollbackSession {
    /// The constants surface, identical on both peers.
    pub cfg: Config,
    /// Which of the two handles is driven by [`RollbackSession::add_local_input`].
    pub local_handle: usize,
    /// The frame-0 world.
    pub initial: WorldState,
    /// The world after the last simulated frame.
    pub current: WorldState,
    /// Authoritative inputs per frame, player 0.
    pub auth0: Vec<Option<Input>>,
    /// Authoritative inputs per frame, player 1.
    pub auth1: Vec<Option<Input>>,
    /// Inputs used to simulate each frame so far, player 0.
    pub used0: Vec<Input>,
    /// Inputs used to simulate each frame so far, player 1.
    pub used1: Vec<Input>,
    /// Snapshot of the world after each simulated frame; entries that left
    /// the history window are evicted to `None`.
    pub snaps: Vec<Option<WorldState>>,
    /// The earliest simulated frame whose used input is contradicted by an
    /// authoritative input, awaiting resimulation.
    pub rollback_from: Option<usize>,
}

impl RollbackSession {
    /// Number of frames simulated so far; also the next frame to simulate.
    pub open spec fn frames(self) -> int {
        self.used0@.len() as int
    }

    /// Frames before this one are known to have been simulated with every
    /// authoritative input that has arrived.
    pub open spec fn r_eff(self) -> int {
        match self.rollback_from {
            Some(r) => r as int,
            None => self.frames(),
        }
    }

    /// The session invariant.
    pub open spec fn wf(self) -> bool {
        &&& self.cfg@.wf()
        &&& self.local_handle <= 1
        &&& self.initial@.wf(self.cfg@)
        &&& self.initial@.frame == 0
        &&& self.used1@.len() == self.frames()
        &&& self.snaps@.len() == self.frames()
        &&& self.frames() <= FRAME_LIMIT
        &&& forall|f: int| 0 <= f < self.frames() ==> (#[trigger] self.used0@[f]).wf()
        &&& forall|f: int| 0 <= f < self.frames() ==> (#[trigger] self.used1@[f]).wf()
        &&& forall|f: int|
            0 <= f < self.auth0@.len() ==> ((#[trigger] self.auth0@[f]) matches Some(i) ==> i.wf())
        &&& forall|f: int|
            0 <= f < self.auth1@.len() ==> ((#[trigger] self.auth1@[f]) matches Some(i) ==> i.wf())
        &&& self.current@ == spec_sim(
            self.cfg@,
            self.initial@,
            self.used0@,
            self.used1@,
            self.frames(),
        )
        &&& self.current@.wf(self.cfg@)
        &&& self.current@.frame == self.frames()
        &&& forall|g: int|
            self.frames() - self.cfg@.history_window <= g < self.frames() && 0 <= g
                ==> (#[trigger] self.snaps@[g]) is Some
        &&& forall|g: int|
            0 <= g < self.frames() ==> ((#[trigger] self.snaps@[g]) matches Some(ws) ==> {
                &&& ws@ == spec_sim(self.cfg@, self.initial@, self.used0@, self.used1@, g + 1)
                &&& ws@.wf(self.cfg@)
                &&& ws@.frame == g + 1
            })
        &&& self.rollback_from matches Some(r) ==> r < self.frames() && (r == 0 || self.snaps@[r
            - 1] is Some)
        &&& forall|f: int|
            0 <= f < self.r_eff() ==> ((#[trigger] auth_at(self.auth0@, f)) matches Some(x)
                ==> self.used0@[f] == x)
        &&& forall|f: int|
            0 <= f < self.r_eff() ==> ((#[trigger] auth_at(self.auth1@, f)) matches Some(x)
                ==> self.used1@[f] == x)
    }

    /// Opens a session at frame 0 on the shared starting world.
    pub fn new(cfg: &Config, local_handle: usize) -> (s: RollbackSession)
        requires
            cfg@.wf(),
            local_handle <= 1,
        ensures
            s.wf(),
            s.frames() == 0,
            s.cfg == *cfg,
            s.local_handle == local_handle,
            s.initial@ == spec_initial_world(cfg@),
            s.current@ == spec_initial_world(cfg@),
            s.rollback_from is None,
            s.auth0@.len() == 0,
            s.auth1@.len() == 0,
    {
        let initial = WorldState::initial(cfg);
        let current = initial.duplicate();
        RollbackSession {
            cfg: *cfg,
            local_handle,
            initial,
            current,
            auth0: Vec::new(),
            auth1: Vec::new(),
            used0: Vec::new(),
            used1: Vec::new(),
            snaps: Vec::new(),
            rollback_from: None,
        }
    }

    /// The named player's authoritative ledger.
    pub open spec fn auth_of(self, h: int) -> Seq<Option<Input>> {
        if h == 0 {
            self.auth0@
        } else {
            self.auth1@
        }
    }

    /// The named player's used-input ledger.
    pub open spec fn used_of(self, h: int) -> Seq<Input> {
        if h == 0 {
            self.used0@
        } else {
            self.used1@
        }
    }

    /// Stores the authoritative input a peer sent for `(handle, frame)`.
    ///
    /// If the frame was already simulated with a different input, the frame
    /// becomes (or lowers) the pending rollback point — provided the
    /// snapshot needed to resimulate from it is still retained; if it is
    /// not, the input came too late and the session is desynchronized.
    /// A slot can be filled once: re-delivery of the same record is
    /// accepted idly (transport is at-least-once), a contradicting record
    /// is refused.
    pub fn receive_remote_input(&mut self, handle: usize, frame: usize, input: Input) -> (r:
        Result<(), SessionError>)
        requires
            old(self).wf(),
            handle <= 1,
            input.wf(),
            frame < FRAME_LIMIT,
        ensures
            final(self).wf(),
            final(self).cfg == old(self).cfg,
            final(self).local_handle == old(self).local_handle,
            final(self).initial@ == old(self).initial@,
            final(self).current@ == old(self).current@,
            final(self).used0@ == old(self).used0@,
            final(self).used1@ == old(self).used1@,
            final(self).snaps@ == old(self).snaps@,
            final(self).auth_of(1 - handle) == old(self).auth_of(1 - handle),
            r == Err::<(), SessionError>(SessionError::ConflictingInput) <==> (auth_at(
                old(self).auth_of(handle as int),
                frame as int,
            ) matches Some(x) && x != input),
            r == Err::<(), SessionError>(SessionError::Desynchronized) <==> {
                &&& auth_at(old(self).auth_of(handle as int), frame as int) is None
                &&& frame < old(self).r_eff()
                &&& old(self).used_of(handle as int)[frame as int] != input
                &&& frame > 0
                &&& old(self).snaps@[frame - 1] is None
            },
            r is Err ==> final(self).auth_of(handle as int) == old(self).auth_of(handle as int)
                && final(self).rollback_from == old(self).rollback_from,
            r is Ok ==> auth_at(final(self).auth_of(handle as int), frame as int) == Some(input),
            r is Ok ==> forall|k: int|
                k != frame ==> auth_at(final(self).auth_of(handle as int), k) == auth_at(
                    old(self).auth_of(handle as int),
                    k,
                ),
            r is Ok ==> final(self).rollback_from == (if auth_at(
                old(self).auth_of(handle as int),
                frame as int,
            ) is None && frame < old(self).r_eff() && old(self).used_of(handle as int)[frame as int]
                != input {
                Some(frame)
            } else {
                old(self).rollback_from
            }),
    {
        let a = if handle == 0 {
            get_auth(&self.auth0, frame)
        } else {
            get_auth(&self.auth1, frame)
        };
        if let Some(x) = a {
            if x != input {
                return Err(SessionError::ConflictingInput);
            }
            return Ok(());
        }
        let frames = self.used0.len();
        let r_eff = match self.rollback_from {
            Some(r) => r,
            None => frames,
        };
        if frame < r_eff {
            let u = if handle == 0 {
                self.used0[frame]
            } else {
                self.used1[frame]
            };
            if u != input {
                if frame > 0 {
                    let have = match &self.snaps[frame - 1] {
                        Some(_) => true,
                        None => false,
                    };
                    if !have {
                        return Err(SessionError::Desynchronized);
                    }
                }
                self.rollback_from = Some(frame);
            }
        }
        if handle == 0 {
            set_auth(&mut self.auth0, frame, input);
        } else {
            set_auth(&mut self.auth1, frame, input);
        }
        proof {
            let h = handle as int;
            assert forall|f: int|
                0 <= f < self.auth0@.len() implies ((#[trigger] self.auth0@[f]) matches Some(i)
                ==> i.wf()) by {
                if h == 0 {
                    if f == frame {
                        assert(auth_at(self.auth0@, f) == Some(input));
                    } else {
                        assert(auth_at(self.auth0@, f) == auth_at(old(self).auth0@, f));
                    }
                }
            }
            assert forall|f: int|
                0 <= f < self.auth1@.len() implies ((#[trigger] self.auth1@[f]) matches Some(i)
                ==> i.wf()) by {
                if h == 1 {
                    if f == frame {
                        assert(auth_at(self.auth1@, f) == Some(input));
                    } else {
                        assert(auth_at(self.auth1@, f) == auth_at(old(self).auth1@, f));
                    }
                }
            }
            assert forall|f: int|
                0 <= f < self.r_eff() implies ((#[trigger] auth_at(self.auth0@, f)) matches Some(
                x,
            ) ==> self.used0@[f] == x) by {
                assert(0 <= f < old(self).r_eff());
                assert(auth_at(old(self).auth0@, f) matches Some(x) ==> old(self).used0@[f] == x);
                if f == frame && h == 0 {
                    assert(auth_at(self.auth0@, f) == Some(input));
                    assert(self.used0@[f] == input);
                } else {
                    assert(auth_at(self.auth0@, f) == auth_at(old(self).auth0@, f));
                }
            }
            assert forall|f: int|
                0 <= f < self.r_eff() implies ((#[trigger] auth_at(self.auth1@, f)) matches Some(
                x,
            ) ==> self.used1@[f] == x) by {
                assert(0 <= f < old(self).r_eff());
                assert(auth_at(old(self).auth1@, f) matches Some(x) ==> old(self).used1@[f] == x);
                if f == frame && h == 1 {
                    assert(auth_at(self.auth1@, f) == Some(input));
                    assert(self.used1@[f] == input);
                } else {
                    assert(auth_at(self.auth1@, f) == auth_at(old(self).auth1@, f));
                }
            }
            assert(self.wf());
        }
        Ok(())
    }

    /// Appends the local player's input for the current local frame: the
    /// next frame to simulate plus the configured input delay. The delay
    /// gives the record time to cross the network before the remote peer
    /// needs it. A repeated call for the same frame must carry the same
    /// record.
    pub fn add_local_input(&mut self, input: Input) -> (r: Result<(), SessionError>)
        requires
            old(self).wf(),
            input.wf(),
        ensures
            final(self).wf(),
            final(self).cfg == old(self).cfg,
            final(self).local_handle == old(self).local_handle,
            final(self).initial@ == old(self).initial@,
            final(self).current@ == old(self).current@,
            final(self).used0@ == old(self).used0@,
            final(self).used1@ == old(self).used1@,
            final(self).snaps@ == old(self).snaps@,
            final(self).rollback_from == old(self).rollback_from,
            final(self).auth_of(1 - old(self).local_handle) == old(self).auth_of(
                1 - old(self).local_handle,
            ),
            ({
                let f = old(self).frames() + old(self).cfg@.input_delay;
                &&& r == Err::<(), SessionError>(SessionError::ConflictingInput) <==> (auth_at(
                    old(self).auth_of(old(self).local_handle as int),
                    f,
                ) matches Some(x) && x != input)
                &&& !(r == Err::<(), SessionError>(SessionError::Desynchronized))
                &&& r is Err ==> final(self).auth_of(old(self).local_handle as int) == old(
                    self,
                ).auth_of(old(self).local_handle as int)
                &&& r is Ok ==> auth_at(final(self).auth_of(old(self).local_handle as int), f)
                    == Some(input)
                &&& r is Ok ==> forall|k: int|
                    k != f ==> auth_at(final(self).auth_of(old(self).local_handle as int), k)
                        == auth_at(old(self).auth_of(old(self).local_handle as int), k)
            }),
    {
        let f = self.used0.len() + self.cfg.input_delay;
        let ok = if self.local_handle == 0 {
            set_auth(&mut self.auth0, f, input)
        } else {
            set_auth(&mut self.auth1, f, input)
        };
        proof {
            let h = old(self).local_handle as int;
            let f0 = old(self).frames() + old(self).cfg@.input_delay;
            assert forall|f: int|
                0 <= f < self.auth0@.len() implies ((#[trigger] self.auth0@[f]) matches Some(i)
                ==> i.wf()) by {
                if h == 0 && ok {
                    if f == f0 {
                        assert(auth_at(self.auth0@, f) == Some(input));
                    } else {
                        assert(auth_at(self.auth0@, f) == auth_at(old(self).auth0@, f));
                    }
                }
            }
            assert forall|f: int|
                0 <= f < self.auth1@.len() implies ((#[trigger] self.auth1@[f]) matches Some(i)
                ==> i.wf()) by {
                if h == 1 && ok {
                    if f == f0 {
                        assert(auth_at(self.auth1@, f) == Some(input));
                    } else {
                        assert(auth_at(self.auth1@, f) == auth_at(old(self).auth1@, f));
                    }
                }
            }
            assert forall|f: int|
                0 <= f < self.r_eff() implies ((#[trigger] auth_at(self.auth0@, f)) matches Some(
                x,
            ) ==> self.used0@[f] == x) by {
                assert(0 <= f < old(self).r_eff());
                assert(f < f0);
                assert(auth_at(old(self).auth0@, f) matches Some(x) ==> old(self).used0@[f] == x);
                if ok && h == 0 {
                    assert(auth_at(self.auth0@, f) == auth_at(old(self).auth0@, f));
                } else {
                    assert(self.auth0@ == old(self).auth0@);
                }
            }
            assert forall|f: int|
                0 <= f < self.r_eff() implies ((#[trigger] auth_at(self.auth1@, f)) matches Some(
                x,
            ) ==> self.used1@[f] == x) by {
                assert(0 <= f < old(self).r_eff());
                assert(f < f0);
                assert(auth_at(old(self).auth1@, f) matches Some(x) ==> old(self).used1@[f] == x);
                if ok && h == 1 {
                    assert(auth_at(self.auth1@, f) == auth_at(old(self).auth1@, f));
                } else {
                    assert(self.auth1@ == old(self).auth1@);
                }
            }
            assert(self.wf());
        }
        if ok {
            Ok(())
        } else {
            Err(SessionError::ConflictingInput)
        }
    }

    /// Advances the session by one frame, rolling back first if a
    /// misprediction is pending.
    ///
    /// If a rollback point exists, the world is restored from the snapshot
    /// just before it and every frame from there on is resimulated with the
    /// inputs now known — authoritative where they have arrived, predicted
    /// otherwise — replacing the stale snapshots. Then the next frame is
    /// simulated the same way. Afterwards the world is exactly what
    /// simulating every frame from the start with the now-known inputs
    /// yields: rollback leaves no other trace.
    #[verifier::rlimit(100)]
    #[verifier::spinoff_prover]
    pub fn advance(&mut self)
        requires
            old(self).wf(),
            old(self).frames() < FRAME_LIMIT,
        ensures
            final(self).wf(),
            final(self).frames() == old(self).frames() + 1,
            final(self).rollback_from is None,
            final(self).cfg == old(self).cfg,
            final(self).local_handle == old(self).local_handle,
            final(self).initial@ == old(self).initial@,
            final(self).auth0@ == old(self).auth0@,
            final(self).auth1@ == old(self).auth1@,
            final(self).used0@ == old(self).used0@.subrange(0, old(self).r_eff())
                + spec_picks(old(self).auth0@, old(self).r_eff(), old(self).frames() + 1),
            final(self).used1@ == old(self).used1@.subrange(0, old(self).r_eff())
                + spec_picks(old(self).auth1@, old(self).r_eff(), old(self).frames() + 1),
            final(self).current@ == spec_sim(
                old(self).cfg@,
                old(self).initial@,
                final(self).used0@,
                final(self).used1@,
                old(self).frames() + 1,
            ),
    {
        let frames = self.used0.len();
        let start: usize = match self.rollback_from {
            Some(r) => r,
            None => frames,
        };
        let mut u0: Vec<Input> = Vec::new();
        let mut u1: Vec<Input> = Vec::new();
        let mut sn: Vec<Option<WorldState>> = Vec::new();
        let mut g: usize = 0;
        while g < start
            invariant
                old(self).wf(),
                self == old(self),
                frames == self.used0@.len(),
                start <= frames,
                g <= start,
                u0@ =~= self.used0@.subrange(0, g as int),
                u1@ =~= self.used1@.subrange(0, g as int),
                sn@.len() == g,
                forall|k: int|
                    0 <= k < g ==> ((#[trigger] sn@[k]) is Some <==> self.snaps@[k] is Some),
                forall|k: int|
                    0 <= k < g ==> ((#[trigger] sn@[k]) matches Some(ws) ==> self.snaps@[k]
                        matches Some(wo) && ws@ == wo@),
            decreases start - g,
        {
            u0.push(self.used0[g]);
            u1.push(self.used1[g]);
            match &self.snaps[g] {
                Some(ws) => {
                    let d = ws.duplicate();
                    sn.push(Some(d));
                },
                None => {
                    sn.push(None);
                },
            }
            proof {
                assert(u0@ =~= self.used0@.subrange(0, g + 1));
                assert(u1@ =~= self.used1@.subrange(0, g + 1));
            }
            g += 1;
        }
        let mut s: WorldState = if start == 0 {
            self.initial.duplicate()
        } else {
            match &self.snaps[start - 1] {
                Some(ws) => ws.duplicate(),
                None => {
                    proof {
                        assert(false);
                    }
                    self.initial.duplicate()
                },
            }
        };
        proof {
            lemma_sim_prefix_agree(
                self.cfg@,
                self.initial@,
                self.used0@,
                self.used1@,
                u0@,
                u1@,
                start as int,
            );
            assert(s@ == spec_sim(self.cfg@, self.initial@, u0@, u1@, start as int));
            assert forall|k: int| 0 <= k < start implies (#[trigger] u0@[k]).wf() by {
                assert(u0@[k] == self.used0@[k]);
            }
            assert forall|k: int| 0 <= k < start implies (#[trigger] u1@[k]).wf() by {
                assert(u1@[k] == self.used1@[k]);
            }
            assert forall|k: int|
                0 <= k < start implies ((#[trigger] sn@[k]) matches Some(ws) ==> {
                &&& ws@ == spec_sim(self.cfg@, self.initial@, u0@, u1@, k + 1)
                &&& ws@.wf(self.cfg@)
                &&& ws@.frame == k + 1
            }) by {
                if sn@[k] is Some {
                    assert(self.snaps@[k] matches Some(wo) ==> wo@ == spec_sim(
                        self.cfg@,
                        self.initial@,
                        self.used0@,
                        self.used1@,
                        k + 1,
                    ));
                    lemma_sim_prefix_agree(
                        self.cfg@,
                        self.initial@,
                        self.used0@,
                        self.used1@,
                        u0@,
                        u1@,
                        k + 1,
                    );
                }
            }
        }
        let mut f = start;
        while f <= frames
            invariant
                old(self).wf(),
                self == old(self),
                frames == self.used0@.len(),
                frames < FRAME_LIMIT,
                start == old(self).r_eff(),
                start <= f <= frames + 1,
                u0@.len() == f,
                u1@.len() == f,
                sn@.len() == f,
                u0@.subrange(0, start as int) =~= self.used0@.subrange(0, start as int),
                u1@.subrange(0, start as int) =~= self.used1@.subrange(0, start as int),
                forall|k: int| start <= k < f ==> #[trigger] u0@[k] == spec_pick(self.auth0@, k),
                forall|k: int| start <= k < f ==> #[trigger] u1@[k] == spec_pick(self.auth1@, k),
                forall|k: int| 0 <= k < f ==> (#[trigger] u0@[k]).wf(),
                forall|k: int| 0 <= k < f ==> (#[trigger] u1@[k]).wf(),
                s@ == spec_sim(self.cfg@, self.initial@, u0@, u1@, f as int),
                s@.wf(self.cfg@),
                s@.frame == f,
                forall|k: int|
                    0 <= k < start ==> ((#[trigger] sn@[k]) is Some <==> self.snaps@[k] is Some),
                forall|k: int| start <= k < f ==> (#[trigger] sn@[k]) is Some,
                forall|k: int|
                    0 <= k < f ==> ((#[trigger] sn@[k]) matches Some(ws) ==> {
                        &&& ws@ == spec_sim(self.cfg@, self.initial@, u0@, u1@, k + 1)
                        &&& ws@.wf(self.cfg@)
                        &&& ws@.frame == k + 1
                    }),
            decreases frames + 1 - f,
        {
            let i0 = pick_input(&self.auth0, f);
            let i1 = pick_input(&self.auth1, f);
            let ghost u0_before = u0@;
            let ghost u1_before = u1@;
            s = step(&self.cfg, &s, &i0, &i1);
            u0.push(i0);
            u1.push(i1);
            sn.push(Some(s.duplicate()));
            proof {
                lemma_sim_prefix_agree(
                    self.cfg@,
                    self.initial@,
                    u0_before,
                    u1_before,
                    u0@,
                    u1@,
                    f as int,
                );
                assert(s@ == spec_sim(self.cfg@, self.initial@, u0@, u1@, f + 1));
                assert(u0@.subrange(0, start as int) =~= u0_before.subrange(0, start as int));
                assert(u1@.subrange(0, start as int) =~= u1_before.subrange(0, start as int));
                assert forall|k: int|
                    0 <= k < f + 1 implies ((#[trigger] sn@[k]) matches Some(ws) ==> {
                    &&& ws@ == spec_sim(self.cfg@, self.initial@, u0@, u1@, k + 1)
                    &&& ws@.wf(self.cfg@)
                    &&& ws@.frame == k + 1
                }) by {
                    if k < f {
                        lemma_sim_prefix_agree(
                            self.cfg@,
                            self.initial@,
                            u0_before,
                            u1_before,
                            u0@,
                            u1@,
                            k + 1,
                        );
                    }
                }
            }
            f += 1;
        }
        proof {
            assert(u0@ =~= old(self).used0@.subrange(0, start as int) + spec_picks(
                self.auth0@,
                start as int,
                frames + 1,
            ));
            assert(u1@ =~= old(self).used1@.subrange(0, start as int) + spec_picks(
                self.auth1@,
                start as int,
                frames + 1,
            ));
        }
        self.used0 = u0;
        self.used1 = u1;
        self.snaps = sn;
        self.current = s;
        self.rollback_from = None;
        let newframes = frames + 1;
        if newframes > self.cfg.history_window {
            let evict = newframes - 1 - self.cfg.history_window;
            self.snaps[evict] = None;
        }
        proof {
            let cfg = self.cfg@;
            let w = cfg.history_window;
            assert forall|k: int|
                newframes - w <= k < newframes && 0 <= k implies (#[trigger] self.snaps@[k])
                is Some by {
                if k < start {
                    assert(old(self).snaps@[k] is Some);
                }
            }
            assert forall|f2: int|
                0 <= f2 < self.r_eff() implies ((#[trigger] auth_at(self.auth0@, f2)) matches Some(
                x,
            ) ==> self.used0@[f2] == x) by {
                if f2 < start {
                    assert(self.used0@[f2] == old(self).used0@[f2]);
                    assert(auth_at(old(self).auth0@, f2) matches Some(x) ==> old(self).used0@[f2]
                        == x);
                } else {
                    assert(self.used0@[f2] == spec_pick(self.auth0@, f2));
                }
            }
            assert forall|f2: int|
                0 <= f2 < self.r_eff() implies ((#[trigger] auth_at(self.auth1@, f2)) matches Some(
                x,
            ) ==> self.used1@[f2] == x) by {
                if f2 < start {
                    assert(self.used1@[f2] == old(self).used1@[f2]);
                    assert(auth_at(old(self).auth1@, f2) matches Some(x) ==> old(self).used1@[f2]
                        == x);
                } else {
                    assert(self.used1@[f2] == spec_pick(self.auth1@, f2));
                }
            }
            assert(self.wf());
        }
    }

    /// The current frame number: how many frames have been simulated.
    pub fn current_frame(&self) -> (r: usize)
        requires
            self.wf(),
        ensures
            r == self.frames(),
    {
        self.used0.len()
    }

    /// Whether a detected misprediction is still awaiting resimulation.
    pub fn rollback_pending(&self) -> (r: bool)
        requires
            self.wf(),
        ensures
            r == (self.rollback_from is Some),
    {
        match self.rollback_from {
            Some(_) => true,
            None => false,
        }
    }

    /// Read-only access to the world after the last simulated frame, for
    /// the renderer.
    pub fn world(&self) -> (r: &WorldState)
        ensures
            r == &self.current,
    {
        &self.current
    }

    /// The input the session would guess for a player and frame whose
    /// authoritative input has not arrived: the authoritative input of the
    /// nearest earlier frame, or the neutral record when none exists yet.
    pub fn predicted_input(&self, handle: usize, frame: usize) -> (r: Input)
        requires
            self.wf(),
            handle <= 1,
        ensures
            r == spec_predicted(self.auth_of(handle as int), frame as int),
            r.wf(),
    {
        if handle == 0 {
            predicted_scan(&self.auth0, frame)
        } else {
            predicted_scan(&self.auth1, frame)
        }
    }

    /// Number of frames from the start that are fully confirmed: every
    /// earlier frame has both players' authoritative inputs.
    pub fn confirmed_frames(&self) -> (r: usize)
        requires
            self.wf(),
        ensures
            r == spec_confirmed(self.auth0@, self.auth1@, self.frames()),
            r <= self.frames(),
            forall|f: int| 0 <= f < r ==> #[trigger] frame_confirmed(self.auth0@, self.auth1@, f),
            r < self.frames() ==> !frame_confirmed(self.auth0@, self.auth1@, r as int),
    {
        let frames = self.used0.len();
        let mut c: usize = 0;
        while c < frames && c < self.auth0.len() && c < self.auth1.len() && self.auth0[c].is_some()
            && self.auth1[c].is_some()
            invariant
                c <= frames,
                frames == self.frames(),
                forall|f: int|
                    0 <= f < c ==> #[trigger] frame_confirmed(self.auth0@, self.auth1@, f),
            decreases frames - c,
        {
            c += 1;
        }
        proof {
            lemma_confirmed_prefix(self.auth0@, self.auth1@, c as int);
            lemma_confirmed_stops(self.auth0@, self.auth1@, c as int, frames as int);
        }
        c
    }

    /// Diagnostic for observability overlays: how many simulated frames
    /// still rest on prediction, that is, lie past the confirmed prefix.
    pub fn frames_ahead(&self) -> (r: usize)
        requires
            self.wf(),
        ensures
            r == self.frames() - spec_confirmed(self.auth0@, self.auth1@, self.frames()),
    {
        let c = self.confirmed_frames();
        self.used0.len() - c
    }
}

/// Continuing a simulation from the world as it stood after frame `lo`,
/// through frame `hi`.
pub open spec fn spec_resim(
    cfg: ConfigV,
    w: WorldV,
    in0: Seq<Input>,
    in1: Seq<Input>,
    lo: int,
    hi: int,
) -> WorldV
    decreases hi - lo,
{
    if hi <= lo {
        w
    } else {
        spec_step(cfg, spec_resim(cfg, w, in0, in1, lo, hi - 1), in0[hi - 1], in1[hi - 1])
    }
}

/// Rollback equivalence: simulating the first `r` frames with predicted
/// input histories, then rolling back to the frame-`r` snapshot and
/// resimulating through frame `n` with the true histories, yields exactly
/// the world that simulating all `n` frames with the true histories from
/// the start would have — provided the histories agree before the rollback
/// point, which the session guarantees by choosing the earliest
/// mispredicted frame as that point.
pub proof fn lemma_rollback_equivalence(
    cfg: ConfigV,
    init: WorldV,
    p0: Seq<Input>,
    p1: Seq<Input>,
    t0: Seq<Input>,
    t1: Seq<Input>,
    r: int,
    n: int,
)
    requires
        0 <= r <= n,
        forall|k: int| 0 <= k < r ==> p0[k] == t0[k] && p1[k] == t1[k],
    ensures
        spec_resim(cfg, spec_sim(cfg, init, p0, p1, r), t0, t1, r, n) == spec_sim(
            cfg,
            init,
            t0,
            t1,
            n,
        ),
    decreases n - r,
{
    if n == r {
        lemma_sim_prefix_agree(cfg, init, p0, p1, t0, t1, r);
    } else {
        lemma_rollback_equivalence(cfg, init, p0, p1, t0, t1, r, n - 1);
    }
}

} // verus!
