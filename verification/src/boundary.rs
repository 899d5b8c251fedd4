//! Incremental sentence boundary detection over a live stream of text
//! fragments.
//!
//! Fragments are appended to a pending buffer; the newly arrived fragment
//! alone is lexed for a punctuation-class token, and on the first such token
//! the whole buffer is emitted as a completed sentence.

use sentence::SentenceTokenizer;
use sentence::Token;
use vstd::prelude::*;
use crate::text::strip_nl;
use crate::text::strip_leading_newline;

verus! {

/// Whether the sentence tokenizer finds a punctuation-class token anywhere in
/// the fragment. The lexing is involved (regular expressions over whitespace-
/// split spans), so the result is named rather than written out; it is a
/// function of the fragment text alone.
pub uninterp spec fn boundary_signal(frag: Seq<char>) -> bool;

/// Relies on `sentence::SentenceTokenizer::tokenize`: deterministic,
/// stateless lexing of the fragment into tokens, some of which are
/// punctuation-class. A fragment that is empty produces no tokens at all,
/// hence no punctuation token.
#[verifier::external_body]
fn detect_punctuation(frag: &str) -> (r: bool)
    ensures
        r == boundary_signal(frag@),
        frag@.len() == 0 ==> !r,
{
    let tokenizer = SentenceTokenizer::new();
    let tokens = tokenizer.tokenize(frag);
    for token in tokens {
        if let Token::Punctuation(_) = token {
            return true;
        }
    }
    false
}

/// The pending buffer after one fragment has been fed: cleared when the
/// fragment carries a boundary signal, extended by the fragment otherwise.
pub open spec fn feed_pending(pending: Seq<char>, frag: Seq<char>) -> Seq<char> {
    if boundary_signal(frag) {
        Seq::empty()
    } else {
        pending + frag
    }
}

/// The sentence emitted when one fragment is fed, if any: the whole buffer,
/// fragment included, after the cosmetic leading-line-break strip.
pub open spec fn feed_emission(pending: Seq<char>, frag: Seq<char>) -> Option<Seq<char>> {
    if boundary_signal(frag) {
        Some(strip_nl(pending + frag))
    } else {
        None
    }
}

/// The sentence emitted at end of stream: the remaining buffer, if non-empty,
/// regardless of punctuation.
pub open spec fn finish_emission(pending: Seq<char>) -> Option<Seq<char>> {
    if pending.len() == 0 {
        None
    } else {
        Some(strip_nl(pending))
    }
}

/// Accumulates fragments and decides when enough text has arrived to form a
/// complete sentence. The view is the pending, not-yet-emitted text.
pub struct BoundaryDetector {
    pending: String,
}

impl View for BoundaryDetector {
    type V = Seq<char>;

    closed spec fn view(&self) -> Seq<char> {
        self.pending@
    }
}

impl BoundaryDetector {
    /// A fresh detector with an empty pending buffer.
    pub fn new() -> (d: Self)
        ensures
            d@ == Seq::<char>::empty(),
    {
        BoundaryDetector { pending: String::new() }
    }

    /// Feeds one fragment. The fragment is appended to the pending buffer;
    /// if the fragment itself carries a boundary signal, the whole buffer is
    /// emitted as a completed sentence and the buffer is cleared.
    pub fn feed(&mut self, frag: &str) -> (emitted: Option<String>)
        ensures
            final(self)@ == feed_pending(old(self)@, frag@),
            emitted.deep_view() == feed_emission(old(self)@, frag@),
    {
        self.pending.append(frag);
        if detect_punctuation(frag) {
            let sentence_text = strip_leading_newline(self.pending.as_str());
            self.pending = String::new();
            Some(sentence_text)
        } else {
            None
        }
    }

    /// Signals end of stream: a non-empty remainder is emitted as one final
    /// sentence regardless of punctuation; the buffer ends empty either way.
    pub fn finish(&mut self) -> (emitted: Option<String>)
        ensures
            final(self)@ == Seq::<char>::empty(),
            emitted.deep_view() == finish_emission(old(self)@),
    {
        if self.pending.as_str().unicode_len() == 0 {
            None
        } else {
            let sentence_text = strip_leading_newline(self.pending.as_str());
            self.pending = String::new();
            Some(sentence_text)
        }
    }
}

/// The concatenation of a sequence of fragments, in input order.
pub open spec fn concat_frags(frags: Seq<Seq<char>>) -> Seq<char>
    decreases frags.len(),
{
    if frags.len() == 0 {
        Seq::empty()
    } else {
        concat_frags(frags.drop_last()) + frags.last()
    }
}

/// The pending buffer after feeding every fragment in order, starting empty.
pub open spec fn run_pending(frags: Seq<Seq<char>>) -> Seq<char>
    decreases frags.len(),
{
    if frags.len() == 0 {
        Seq::empty()
    } else {
        feed_pending(run_pending(frags.drop_last()), frags.last())
    }
}

/// The concatenation of the raw text of every sentence emitted while feeding
/// the fragments in order, starting empty. "Raw" is the buffer content as
/// emitted, before the cosmetic leading-line-break strip.
pub open spec fn run_emitted_raw(frags: Seq<Seq<char>>) -> Seq<char>
    decreases frags.len(),
{
    if frags.len() == 0 {
        Seq::empty()
    } else {
        let before = run_pending(frags.drop_last());
        run_emitted_raw(frags.drop_last()) + (if boundary_signal(frags.last()) {
            before + frags.last()
        } else {
            Seq::empty()
        })
    }
}

/// Law: no text is lost or duplicated. For every sequence of fragments, the
/// raw text of the emitted sentences followed by the remaining pending buffer
/// is exactly the concatenation of the input fragments. Each emitted sentence
/// differs from its raw text only by the documented strip of one leading line
/// break (see `feed_emission` and `strip_nl`).
pub proof fn lemma_stream_text_preserved(frags: Seq<Seq<char>>)
    ensures
        run_emitted_raw(frags) + run_pending(frags) == concat_frags(frags),
    decreases frags.len(),
{
    if frags.len() == 0 {
        assert(run_emitted_raw(frags) + run_pending(frags) =~= concat_frags(frags));
    } else {
        let rest = frags.drop_last();
        lemma_stream_text_preserved(rest);
        if boundary_signal(frags.last()) {
            assert(run_emitted_raw(frags) + run_pending(frags) =~= (run_emitted_raw(rest)
                + run_pending(rest)) + frags.last());
        } else {
            assert(run_emitted_raw(frags) + run_pending(frags) =~= (run_emitted_raw(rest)
                + run_pending(rest)) + frags.last());
        }
    }
}

/// Law: a fragment without a boundary signal never yields a sentence; the
/// accumulated text simply grows by that fragment.
pub proof fn lemma_no_boundary_accumulates(pending: Seq<char>, frag: Seq<char>)
    requires
        !boundary_signal(frag),
    ensures
        feed_emission(pending, frag) is None,
        feed_pending(pending, frag) == pending + frag,
{
}

/// Law: end of stream with a non-empty pending buffer yields exactly one
/// final sentence carrying that remainder (after the cosmetic strip); an
/// empty buffer yields none.
pub proof fn lemma_finish_flushes_remainder(pending: Seq<char>)
    ensures
        pending.len() > 0 ==> finish_emission(pending) == Some(strip_nl(pending)),
        pending.len() == 0 ==> finish_emission(pending) is None,
{
}

} // verus!
