//! Text cleanup applied to a completed sentence before it is published.

use vstd::prelude::*;

verus! {

/// The cosmetic cleanup applied to a finished sentence: if the buffered text
/// begins with a stray line break left by the transport, exactly one leading
/// line break is removed; nothing else is trimmed.
pub open spec fn strip_nl(s: Seq<char>) -> Seq<char> {
    if s.len() > 0 && s[0] == '\n' {
        s.subrange(1, s.len() as int)
    } else {
        s
    }
}

/// The non-empty lines of `s`, read left to right with `cur` as the line
/// accumulated so far: a line break closes the current line (an empty one is
/// dropped), any other character extends it, and a non-empty trailing line
/// counts as well.
pub open spec fn split_acc(s: Seq<char>, cur: Seq<char>) -> Seq<Seq<char>>
    decreases s.len(),
{
    if s.len() == 0 {
        if cur.len() == 0 {
            Seq::empty()
        } else {
            seq![cur]
        }
    } else if s[0] == '\n' {
        (if cur.len() == 0 {
            Seq::<Seq<char>>::empty()
        } else {
            seq![cur]
        }) + split_acc(s.subrange(1, s.len() as int), Seq::empty())
    } else {
        split_acc(s.subrange(1, s.len() as int), cur.push(s[0]))
    }
}

/// The newline-delimited records carried by one transport chunk, with empty
/// lines dropped.
pub open spec fn nonempty_lines(s: Seq<char>) -> Seq<Seq<char>> {
    split_acc(s, Seq::empty())
}

proof fn lemma_split_acc_len(s: Seq<char>, cur: Seq<char>)
    ensures
        split_acc(s, cur).len() <= s.len() + if cur.len() == 0 {
            0int
        } else {
            1int
        },
    decreases s.len(),
{
    if s.len() == 0 {
    } else if s[0] == '\n' {
        lemma_split_acc_len(s.subrange(1, s.len() as int), Seq::empty());
    } else {
        lemma_split_acc_len(s.subrange(1, s.len() as int), cur.push(s[0]));
    }
}

/// A chunk of n characters carries at most n lines.
pub proof fn lemma_nonempty_lines_len(s: Seq<char>)
    ensures
        nonempty_lines(s).len() <= s.len(),
{
    lemma_split_acc_len(s, Seq::empty());
}

/// Splits a transport chunk into its non-empty lines.
pub fn split_nonempty_lines(chunk: &str) -> (lines: Vec<String>)
    ensures
        lines.deep_view() == nonempty_lines(chunk@),
{
    let n = chunk.unicode_len();
    let mut lines: Vec<String> = Vec::new();
    let mut start: usize = 0;
    let mut i: usize = 0;
    proof {
        assert(chunk@.subrange(0, n as int) =~= chunk@);
        assert(chunk@.subrange(0, 0) =~= Seq::<char>::empty());
        assert(lines.deep_view() =~= Seq::<Seq<char>>::empty());
        assert(lines.deep_view() + split_acc(chunk@, Seq::empty()) =~= split_acc(
            chunk@,
            Seq::empty(),
        ));
    }
    while i < n
        invariant
            start <= i <= n,
            n == chunk@.len(),
            lines.deep_view() + split_acc(
                chunk@.subrange(i as int, n as int),
                chunk@.subrange(start as int, i as int),
            ) == nonempty_lines(chunk@),
        decreases n - i,
    {
        let c = chunk.get_char(i);
        proof {
            let tail = chunk@.subrange(i as int, n as int);
            assert(tail[0] == chunk@[i as int]);
            assert(tail.subrange(1, tail.len() as int) =~= chunk@.subrange(
                i as int + 1,
                n as int,
            ));
        }
        if c == '\n' {
            let ghost cur = chunk@.subrange(start as int, i as int);
            if i > start {
                let line = chunk.substring_char(start, i).to_owned();
                let ghost before = lines.deep_view();
                lines.push(line);
                proof {
                    assert(lines.deep_view() =~= before.push(cur));
                    assert(lines.deep_view() + split_acc(
                        chunk@.subrange(i as int + 1, n as int),
                        Seq::empty(),
                    ) =~= before + (seq![cur] + split_acc(
                        chunk@.subrange(i as int + 1, n as int),
                        Seq::empty(),
                    )));
                }
            } else {
                proof {
                    assert(cur.len() == 0);
                    assert(seq![cur].len() == 1);
                }
            }
            start = i + 1;
            proof {
                assert(chunk@.subrange(start as int, start as int) =~= Seq::<char>::empty());
            }
        } else {
            proof {
                let cur = chunk@.subrange(start as int, i as int);
                assert(chunk@.subrange(start as int, i as int + 1) =~= cur.push(
                    chunk@[i as int],
                ));
            }
        }
        i = i + 1;
    }
    proof {
        assert(chunk@.subrange(n as int, n as int).len() == 0);
    }
    if n > start {
        let line = chunk.substring_char(start, n).to_owned();
        let ghost before = lines.deep_view();
        let ghost cur = chunk@.subrange(start as int, n as int);
        lines.push(line);
        proof {
            assert(lines.deep_view() =~= before.push(cur));
            assert(before.push(cur) =~= before + seq![cur]);
        }
    }
    lines
}

/// Removes exactly one leading line break, if present.
pub fn strip_leading_newline(s: &str) -> (r: String)
    ensures
        r@ == strip_nl(s@),
{
    let n = s.unicode_len();
    if n > 0 && s.get_char(0) == '\n' {
        let rest = s.substring_char(1, n);
        rest.to_owned()
    } else {
        s.to_owned()
    }
}

} // verus!
