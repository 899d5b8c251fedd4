//! The synthesis/playback scheduler: consumes positions in strict numeric
//! order, waits for the synthesized audio of the next position, and enforces
//! that exactly one sentence plays at a time, in generation order, no matter
//! in which order synthesis completes.

use std::collections::HashMap;
use vstd::prelude::*;

verus! {

broadcast use vstd::std_specs::hash::group_hash_axioms;

/// What the driving loop should do next.
pub enum AdvanceStep {
    /// A sentence is audibly playing; nothing may start.
    Busy,
    /// No synthesis result for the next position yet; suspend and retry.
    Waiting,
    /// Synthesis of `position` failed; its audio is skipped and the cursor
    /// has moved on.
    Skip { position: u64 },
    /// Playback of `position` has started; report back when it completes.
    Play { position: u64 },
}

/// The positions whose playback completed, in the order they played: the
/// entries of the log marked as played.
pub open spec fn played_positions(log: Seq<(u64, bool)>) -> Seq<u64>
    decreases log.len(),
{
    if log.len() == 0 {
        Seq::empty()
    } else {
        played_positions(log.drop_last()) + (if log.last().1 {
            seq![log.last().0]
        } else {
            Seq::<u64>::empty()
        })
    }
}

/// The cursor has passed exactly the positions 1 up to `cursor - 1`, each
/// recorded once, in numeric order, marked played or skipped.
pub open spec fn log_wf(log: Seq<(u64, bool)>, cursor: u64) -> bool {
    &&& cursor >= 1
    &&& log.len() == cursor - 1
    &&& forall|i: int| 0 <= i < log.len() ==> (#[trigger] log[i]).0 == i + 1
}

proof fn lemma_played_positions_bounded(log: Seq<(u64, bool)>)
    requires
        forall|i: int| 0 <= i < log.len() ==> (#[trigger] log[i]).0 == i + 1,
    ensures
        forall|k: int|
            0 <= k < played_positions(log).len() ==> 1 <= #[trigger] played_positions(log)[k]
                <= log.len(),
    decreases log.len(),
{
    if log.len() > 0 {
        let rest = log.drop_last();
        lemma_played_positions_bounded(rest);
        let p = played_positions(log);
        let pr = played_positions(rest);
        assert(log.last().0 == log.len());
        assert forall|k: int| 0 <= k < p.len() implies 1 <= #[trigger] p[k] <= log.len() by {
            if k < pr.len() {
                assert(p[k] == pr[k]);
            } else {
                assert(log.last().1 && p[k] == log.last().0);
            }
        }
    }
}

/// Law: playback order equals generation order. Whatever the pattern of
/// synthesis successes and failures, the positions that play do so in
/// strictly increasing position order.
pub proof fn lemma_playback_strictly_increasing(log: Seq<(u64, bool)>)
    requires
        forall|i: int| 0 <= i < log.len() ==> (#[trigger] log[i]).0 == i + 1,
    ensures
        forall|i: int, j: int|
            0 <= i < j < played_positions(log).len() ==> #[trigger] played_positions(log)[i]
                < #[trigger] played_positions(log)[j],
    decreases log.len(),
{
    if log.len() > 0 {
        let rest = log.drop_last();
        lemma_playback_strictly_increasing(rest);
        lemma_played_positions_bounded(rest);
        let p = played_positions(log);
        let pr = played_positions(rest);
        assert(log.last().0 == log.len());
        assert forall|i: int, j: int| 0 <= i < j < p.len() implies #[trigger] p[i]
            < #[trigger] p[j] by {
            assert(p[i] == pr[i]);
            if j < pr.len() {
                assert(p[j] == pr[j]);
            } else {
                assert(log.last().1 && p[j] == log.last().0);
                assert(pr[i] <= rest.len());
            }
        }
    }
}

/// Law: when no position's synthesis or playback fails, the playback order
/// is exactly 1, 2, ..., N.
pub proof fn lemma_playback_exact_order(log: Seq<(u64, bool)>)
    requires
        forall|i: int| 0 <= i < log.len() ==> (#[trigger] log[i]).0 == i + 1,
        forall|i: int| 0 <= i < log.len() ==> (#[trigger] log[i]).1,
    ensures
        played_positions(log) == Seq::new(log.len(), |i: int| (i + 1) as u64),
    decreases log.len(),
{
    if log.len() == 0 {
        assert(played_positions(log) =~= Seq::new(log.len(), |i: int| (i + 1) as u64));
    } else {
        let rest = log.drop_last();
        lemma_playback_exact_order(rest);
        assert(log.last().1);
        assert(played_positions(log) =~= Seq::new(log.len(), |i: int| (i + 1) as u64));
    }
}

/// Serializes playback in position order. Synthesis results may be reported
/// for any position in any order; playback of position n starts only once
/// every position below n has played or been skipped, and only one sentence
/// plays at a time.
pub struct Scheduler {
    cursor: u64,
    playing: bool,
    results: HashMap<u64, bool>,
    log: Ghost<Seq<(u64, bool)>>,
}

impl Scheduler {
    /// The next position expected to play.
    pub closed spec fn cursor_position(&self) -> u64 {
        self.cursor
    }

    /// Whether a sentence is audibly playing right now.
    pub closed spec fn is_playing(&self) -> bool {
        self.playing
    }

    /// The synthesis outcomes reported so far, by position.
    pub closed spec fn synthesis_results(&self) -> Map<u64, bool> {
        self.results@
    }

    /// One entry per position the cursor has passed: the position and
    /// whether its audio actually played (as opposed to being skipped).
    pub closed spec fn playback_log(&self) -> Seq<(u64, bool)> {
        self.log@
    }

    /// The cursor starts at 1 and the log records every passed position in
    /// order.
    pub closed spec fn wf(&self) -> bool {
        log_wf(self.log@, self.cursor)
    }

    /// A well-formed scheduler's log satisfies the hypotheses of the
    /// ordering laws.
    pub proof fn lemma_wf_log(&self)
        requires
            self.wf(),
        ensures
            log_wf(self.playback_log(), self.cursor_position()),
    {
    }

    /// Law, at the scheduler level: whatever happened so far, the positions
    /// that have played did so in strictly increasing position order.
    pub proof fn lemma_playback_order(&self)
        requires
            self.wf(),
        ensures
            forall|i: int, j: int|
                0 <= i < j < played_positions(self.playback_log()).len()
                    ==> #[trigger] played_positions(self.playback_log())[i]
                    < #[trigger] played_positions(self.playback_log())[j],
    {
        lemma_playback_strictly_increasing(self.playback_log());
    }

    /// A fresh scheduler, waiting for position 1, with nothing playing.
    pub fn new() -> (s: Self)
        ensures
            s.wf(),
            s.cursor_position() == 1,
            !s.is_playing(),
            s.synthesis_results() == Map::<u64, bool>::empty(),
            s.playback_log() == Seq::<(u64, bool)>::empty(),
    {
        Scheduler {
            cursor: 1,
            playing: false,
            results: HashMap::new(),
            log: Ghost(Seq::empty()),
        }
    }

    /// The next position expected to play.
    pub fn position(&self) -> (p: u64)
        ensures
            p == self.cursor_position(),
    {
        self.cursor
    }

    /// Whether a sentence is audibly playing right now.
    pub fn busy(&self) -> (b: bool)
        ensures
            b == self.is_playing(),
    {
        self.playing
    }

    /// Records that synthesis of `position` completed, successfully or not.
    /// Synthesis may run out of lockstep with playback, so any position may
    /// be reported at any time.
    pub fn record_synthesis(&mut self, position: u64, ok: bool)
        requires
            old(self).wf(),
        ensures
            final(self).wf(),
            final(self).synthesis_results() == old(self).synthesis_results().insert(position, ok),
            final(self).cursor_position() == old(self).cursor_position(),
            final(self).is_playing() == old(self).is_playing(),
            final(self).playback_log() == old(self).playback_log(),
    {
        let _ = self.results.insert(position, ok);
    }

    /// Decides the next move: start playback of the cursor position if its
    /// synthesis succeeded, skip it if synthesis failed, otherwise wait —
    /// and never start anything while a sentence is playing.
    pub fn try_advance(&mut self) -> (step: AdvanceStep)
        requires
            old(self).wf(),
            old(self).cursor_position() < u64::MAX,
        ensures
            final(self).wf(),
            final(self).synthesis_results() == old(self).synthesis_results(),
            match step {
                AdvanceStep::Busy => {
                    &&& old(self).is_playing()
                    &&& *final(self) == *old(self)
                },
                AdvanceStep::Waiting => {
                    &&& !old(self).is_playing()
                    &&& !old(self).synthesis_results().contains_key(old(self).cursor_position())
                    &&& *final(self) == *old(self)
                },
                AdvanceStep::Play { position } => {
                    &&& !old(self).is_playing()
                    &&& position == old(self).cursor_position()
                    &&& old(self).synthesis_results()[position] == true
                    &&& final(self).is_playing()
                    &&& final(self).cursor_position() == old(self).cursor_position()
                    &&& final(self).playback_log() == old(self).playback_log()
                },
                AdvanceStep::Skip { position } => {
                    &&& !old(self).is_playing()
                    &&& position == old(self).cursor_position()
                    &&& old(self).synthesis_results()[position] == false
                    &&& !final(self).is_playing()
                    &&& final(self).cursor_position() == old(self).cursor_position() + 1
                    &&& final(self).playback_log() == old(self).playback_log().push(
                        (position, false),
                    )
                },
            },
    {
        if self.playing {
            return AdvanceStep::Busy;
        }
        let position = self.cursor;
        match self.results.get(&position) {
            None => AdvanceStep::Waiting,
            Some(ok) => {
                if *ok {
                    self.playing = true;
                    AdvanceStep::Play { position }
                } else {
                    self.cursor = self.cursor + 1;
                    proof {
                        self.log@ = self.log@.push((position, false));
                    }
                    AdvanceStep::Skip { position }
                }
            },
        }
    }

    /// Records that playback of the cursor position finished; the cursor
    /// moves to the next position.
    pub fn playback_complete(&mut self)
        requires
            old(self).wf(),
            old(self).is_playing(),
            old(self).cursor_position() < u64::MAX,
        ensures
            final(self).wf(),
            !final(self).is_playing(),
            final(self).cursor_position() == old(self).cursor_position() + 1,
            final(self).playback_log() == old(self).playback_log().push(
                (old(self).cursor_position(), true),
            ),
            final(self).synthesis_results() == old(self).synthesis_results(),
    {
        let position = self.cursor;
        self.playing = false;
        self.cursor = self.cursor + 1;
        proof {
            self.log@ = self.log@.push((position, true));
        }
    }

    /// Whether the session is over: the stream has ended, every assigned
    /// position has been passed, and nothing is still playing.
    pub fn is_complete(&self, stream_done: bool, last_assigned: u64) -> (r: bool)
        ensures
            r == (stream_done && !self.is_playing() && self.cursor_position() > last_assigned),
    {
        stream_done && !self.playing && self.cursor > last_assigned
    }
}

} // verus!
