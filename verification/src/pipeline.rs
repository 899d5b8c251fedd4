//! The ingestion pipeline: newline-delimited records from the generation
//! feed are parsed, their text is fed to the boundary detector, and each
//! completed sentence is assigned a position and published into the sentence
//! store. A record that fails to parse is skipped, never fatal.

use vstd::prelude::*;
use crate::boundary::BoundaryDetector;
use crate::boundary::boundary_signal;
use crate::boundary::feed_emission;
use crate::boundary::feed_pending;
use crate::boundary::finish_emission;
use crate::sequencer::Sequencer;
use crate::store::SentenceStore;
use crate::text::nonempty_lines;
use crate::text::split_nonempty_lines;
use crate::text::lemma_nonempty_lines_len;

verus! {

/// What a well-formed transport record holds: the incremental text fragment
/// and the completion flag; `None` stands for a malformed record. JSON
/// parsing is involved, so the outcome is named rather than written out; it
/// is a function of the line text alone.
pub uninterp spec fn record_of(line: Seq<char>) -> Option<(Seq<char>, bool)>;

/// Relies on `serde_json::from_str` and `serde_json::Value`'s accessors
/// (`get`, `as_str`, `as_bool`): the line parses exactly when it is a JSON
/// object whose field "response" is a string and whose field "done" is a
/// boolean, and parsing is deterministic in the line text.
#[verifier::external_body]
fn parse_record(line: &str) -> (r: Option<(String, bool)>)
    ensures
        r.deep_view() == record_of(line@),
{
    let value: serde_json::Value = serde_json::from_str(line).ok()?;
    let text = value.get("response")?.as_str()?.to_string();
    let done = value.get("done")?.as_bool()?;
    Some((text, done))
}

/// The published sentences, as text.
pub open spec fn text_view(m: Map<u64, String>) -> Map<u64, Seq<char>> {
    m.map_values(|t: String| t@)
}

proof fn lemma_text_view_insert(m: Map<u64, String>, k: u64, v: String)
    ensures
        text_view(m.insert(k, v)) == text_view(m).insert(k, v@),
{
    assert(text_view(m.insert(k, v)) =~= text_view(m).insert(k, v@));
}

proof fn lemma_text_view_remove(m: Map<u64, String>, k: u64)
    ensures
        text_view(m.remove(k)) == text_view(m).remove(k),
{
    assert(text_view(m.remove(k)) =~= text_view(m).remove(k));
}

/// Abstract state of the pipeline: the pending buffer, the next position the
/// sequencer will assign, and the sentences published so far.
pub struct PipelineModel {
    pub pending: Seq<char>,
    pub next_position: int,
    pub sentences: Map<u64, Seq<char>>,
}

/// How one record line moves the pipeline: a malformed line is skipped; a
/// well-formed one feeds the boundary detector, and a completed sentence is
/// published under the next position.
pub open spec fn step_line(m: PipelineModel, line: Seq<char>) -> PipelineModel {
    match record_of(line) {
        None => m,
        Some((text, _done)) => match feed_emission(m.pending, text) {
            Some(sentence) => PipelineModel {
                pending: feed_pending(m.pending, text),
                next_position: m.next_position + 1,
                sentences: m.sentences.insert(m.next_position as u64, sentence),
            },
            None => PipelineModel {
                pending: feed_pending(m.pending, text),
                next_position: m.next_position,
                sentences: m.sentences,
            },
        },
    }
}

/// `step_line`, folded over a sequence of lines.
pub open spec fn run_lines(m: PipelineModel, lines: Seq<Seq<char>>) -> PipelineModel
    decreases lines.len(),
{
    if lines.len() == 0 {
        m
    } else {
        step_line(run_lines(m, lines.drop_last()), lines.last())
    }
}

/// Whether any well-formed record among the lines carries the completion
/// flag.
pub open spec fn any_done(lines: Seq<Seq<char>>) -> bool
    decreases lines.len(),
{
    if lines.len() == 0 {
        false
    } else {
        any_done(lines.drop_last()) || (match record_of(lines.last()) {
            Some((_text, done)) => done,
            None => false,
        })
    }
}

/// How the end of the stream moves the pipeline: a non-empty pending buffer
/// is published as one final sentence.
pub open spec fn finish_step(m: PipelineModel) -> PipelineModel {
    match finish_emission(m.pending) {
        None => m,
        Some(sentence) => PipelineModel {
            pending: Seq::empty(),
            next_position: m.next_position + 1,
            sentences: m.sentences.insert(m.next_position as u64, sentence),
        },
    }
}

/// The store holds exactly the positions 1 up to the last assigned one: no
/// gap, no reuse, and no position the sequencer has not reached.
pub open spec fn positions_contiguous(m: PipelineModel) -> bool {
    forall|p: u64| #[trigger] m.sentences.contains_key(p) <==> 1 <= p < m.next_position
}

proof fn lemma_run_lines_next_position(m: PipelineModel, lines: Seq<Seq<char>>)
    ensures
        m.next_position <= run_lines(m, lines).next_position <= m.next_position + lines.len(),
    decreases lines.len(),
{
    if lines.len() > 0 {
        lemma_run_lines_next_position(m, lines.drop_last());
    }
}

/// Law: however many records arrive, well-formed or not, the published
/// positions stay contiguous from 1: an entry for position n is only ever
/// created once every position below n has been filled.
pub proof fn lemma_run_lines_contiguous(m: PipelineModel, lines: Seq<Seq<char>>)
    requires
        positions_contiguous(m),
        1 <= m.next_position,
        m.next_position + lines.len() <= u64::MAX,
    ensures
        positions_contiguous(run_lines(m, lines)),
    decreases lines.len(),
{
    if lines.len() > 0 {
        let rest = lines.drop_last();
        lemma_run_lines_contiguous(m, rest);
        lemma_run_lines_next_position(m, rest);
        let mk = run_lines(m, rest);
        let stepped = step_line(mk, lines.last());
        if stepped.next_position == mk.next_position + 1 {
            assert forall|p: u64| #[trigger] stepped.sentences.contains_key(p) implies 1 <= p
                < stepped.next_position by {
                if p != mk.next_position as u64 {
                    assert(mk.sentences.contains_key(p));
                }
            }
            assert forall|p: u64| 1 <= p < stepped.next_position implies #[trigger]
                stepped.sentences.contains_key(p) by {
                if p < mk.next_position {
                    assert(mk.sentences.contains_key(p));
                }
            }
        }
    }
}

/// The outcome of ingesting one record line.
pub enum LineOutcome {
    /// The record failed to parse and was skipped.
    Malformed,
    /// The record's text accumulated without completing a sentence.
    Accumulated { done: bool },
    /// The record completed a sentence, published under `position`.
    Published { position: u64, done: bool },
}

/// The outcome of ingesting one transport chunk.
pub struct ChunkOutcome {
    /// How many sentences the chunk completed.
    pub published: u64,
    /// Whether any record in the chunk carried the completion flag.
    pub done: bool,
}

/// Boundary detector, sequencer and sentence store, wired together.
pub struct Pipeline {
    detector: BoundaryDetector,
    sequencer: Sequencer,
    store: SentenceStore,
}

impl View for Pipeline {
    type V = PipelineModel;

    closed spec fn view(&self) -> PipelineModel {
        PipelineModel {
            pending: self.detector@,
            next_position: self.sequencer.next_position() as int,
            sentences: text_view(self.store@),
        }
    }
}

impl Pipeline {
    /// Positions are assigned from 1 upward, and the store never holds a
    /// position the sequencer has not assigned yet.
    pub closed spec fn wf(&self) -> bool {
        &&& self.sequencer.wf()
        &&& forall|p: u64|
            #[trigger] self.store@.contains_key(p) ==> 1 <= p < self.sequencer.next_position()
    }

    /// A fresh pipeline: empty buffer, first position 1, empty store.
    pub fn new() -> (p: Self)
        ensures
            p.wf(),
            p@.pending == Seq::<char>::empty(),
            p@.next_position == 1,
            p@.sentences == Map::<u64, Seq<char>>::empty(),
    {
        let p = Pipeline {
            detector: BoundaryDetector::new(),
            sequencer: Sequencer::new(),
            store: SentenceStore::new(),
        };
        proof {
            assert(text_view(p.store@) =~= Map::<u64, Seq<char>>::empty());
        }
        p
    }

    /// The position the next completed sentence will receive.
    pub fn next_position(&self) -> (p: u64)
        ensures
            p == self@.next_position,
    {
        self.sequencer.peek()
    }

    /// Publishes a completed sentence: assigns it the next position and
    /// inserts it into the store, which the sequencing invariant shows can
    /// never hit an occupied position.
    fn publish(&mut self, sentence_text: String) -> (position: u64)
        requires
            old(self).wf(),
            old(self)@.next_position < u64::MAX,
        ensures
            final(self).wf(),
            position == old(self)@.next_position,
            final(self)@.pending == old(self)@.pending,
            final(self)@.next_position == old(self)@.next_position + 1,
            final(self)@.sentences == old(self)@.sentences.insert(position, sentence_text@),
    {
        let position = self.sequencer.assign();
        let ghost store_before = self.store@;
        match self.store.insert(position, sentence_text) {
            Ok(()) => {
                proof {
                    lemma_text_view_insert(store_before, position, sentence_text);
                    assert forall|p: u64| #[trigger] self.store@.contains_key(p) implies 1 <= p
                        < self.sequencer.next_position() by {
                        assert(self.store@ == store_before.insert(position, sentence_text));
                        if p != position {
                            assert(store_before.contains_key(p));
                            assert(old(self).store@.contains_key(p));
                        }
                    }
                }
                position
            },
            Err(_) => {
                // The store only holds positions below the one just
                // assigned, so the insert cannot find it occupied.
                vstd::pervasive::unreached()
            },
        }
    }

    /// Ingests one record line. A malformed record is skipped and the state
    /// is unchanged; otherwise the record's text is fed to the boundary
    /// detector and a completed sentence is published.
    pub fn ingest_line(&mut self, line: &str) -> (r: LineOutcome)
        requires
            old(self).wf(),
            old(self)@.next_position < u64::MAX,
        ensures
            final(self).wf(),
            final(self)@ == step_line(old(self)@, line@),
            final(self)@.next_position <= old(self)@.next_position + 1,
            match r {
                LineOutcome::Malformed => record_of(line@) is None,
                LineOutcome::Accumulated { done } => record_of(line@) matches Some((text, d))
                    && !boundary_signal(text) && d == done,
                LineOutcome::Published { position, done } => record_of(line@) matches Some(
                    (text, d),
                ) && boundary_signal(text) && d == done && position == old(self)@.next_position,
            },
    {
        match parse_record(line) {
            None => LineOutcome::Malformed,
            Some((text, done)) => {
                let emitted = self.detector.feed(text.as_str());
                match emitted {
                    None => LineOutcome::Accumulated { done },
                    Some(sentence_text) => {
                        let position = self.publish(sentence_text);
                        LineOutcome::Published { position, done }
                    },
                }
            },
        }
    }

    /// Ingests one transport chunk: every non-empty line is ingested in
    /// order.
    pub fn ingest_chunk(&mut self, chunk: &str) -> (r: ChunkOutcome)
        requires
            old(self).wf(),
            old(self)@.next_position + chunk@.len() <= u64::MAX,
        ensures
            final(self).wf(),
            final(self)@ == run_lines(old(self)@, nonempty_lines(chunk@)),
            r.done == any_done(nonempty_lines(chunk@)),
            r.published == final(self)@.next_position - old(self)@.next_position,
    {
        let lines = split_nonempty_lines(chunk);
        proof {
            lemma_nonempty_lines_len(chunk@);
        }
        let ghost m0 = self@;
        let ghost all: Seq<Seq<char>> = nonempty_lines(chunk@);
        let base = self.next_position();
        let mut done = false;
        let mut k: usize = 0;
        proof {
            assert(all.take(0) =~= Seq::<Seq<char>>::empty());
        }
        while k < lines.len()
            invariant
                self.wf(),
                k <= lines.len(),
                lines.deep_view() == all,
                lines@.len() == all.len(),
                all == nonempty_lines(chunk@),
                all.len() <= chunk@.len(),
                m0.next_position + chunk@.len() <= u64::MAX,
                self@ == run_lines(m0, all.take(k as int)),
                done == any_done(all.take(k as int)),
                m0.next_position <= self@.next_position <= m0.next_position + k,
                base == m0.next_position,
            decreases lines.len() - k,
        {
            proof {
                assert(all.take(k as int + 1).drop_last() =~= all.take(k as int));
                assert(all.take(k as int + 1).last() == all[k as int]);
                assert(lines.deep_view()[k as int] == lines@[k as int]@);
            }
            let outcome = self.ingest_line(lines[k].as_str());
            match outcome {
                LineOutcome::Malformed => {},
                LineOutcome::Accumulated { done: d } => {
                    if d {
                        done = true;
                    }
                },
                LineOutcome::Published { position: _, done: d } => {
                    if d {
                        done = true;
                    }
                },
            }
            k = k + 1;
        }
        proof {
            assert(all.take(all.len() as int) =~= all);
        }
        let next_now = self.next_position();
        ChunkOutcome { published: next_now - base, done }
    }

    /// Signals end of stream: a non-empty pending buffer is published as one
    /// final sentence, whose position is returned.
    pub fn finish_stream(&mut self) -> (r: Option<u64>)
        requires
            old(self).wf(),
            old(self)@.next_position < u64::MAX,
        ensures
            final(self).wf(),
            final(self)@ == finish_step(old(self)@),
            match r {
                Some(position) => old(self)@.pending.len() > 0 && position == old(
                    self,
                )@.next_position,
                None => old(self)@.pending.len() == 0,
            },
    {
        let emitted = self.detector.finish();
        match emitted {
            None => {
                proof {
                    assert(old(self)@.pending =~= Seq::<char>::empty());
                }
                None
            },
            Some(sentence_text) => {
                let position = self.publish(sentence_text);
                Some(position)
            },
        }
    }

    /// The sentence published under `position`, if it is still held.
    pub fn sentence_at(&self, position: u64) -> (r: Option<&String>)
        ensures
            match r {
                Some(text) => self@.sentences.contains_key(position) && text@
                    == self@.sentences[position],
                None => !self@.sentences.contains_key(position),
            },
    {
        self.store.get(position)
    }

    /// Removes and returns the sentence at `position`: the store is consumed
    /// strictly forward, so a played position can be discarded.
    pub fn discard_sentence(&mut self, position: u64) -> (r: Option<String>)
        requires
            old(self).wf(),
        ensures
            final(self).wf(),
            final(self)@.pending == old(self)@.pending,
            final(self)@.next_position == old(self)@.next_position,
            final(self)@.sentences == old(self)@.sentences.remove(position),
            match r {
                Some(text) => old(self)@.sentences.contains_key(position) && text@ == old(
                    self,
                )@.sentences[position],
                None => !old(self)@.sentences.contains_key(position),
            },
    {
        let ghost store_before = self.store@;
        let r = self.store.take(position);
        proof {
            lemma_text_view_remove(store_before, position);
        }
        r
    }
}

} // verus!
