//! The journal document format: lines, and what each line means on replay.

use vstd::prelude::*;
use crate::text::{push_char, string_of_chars};

verus! {

/// First character of a line that carries no state (headers, section titles).
pub const COMMENT_MARK: char = '#';

/// First character of a removal line; the path follows it.
pub const REMOVED_MARK: char = ' ';

/// One operation on the known file set, as contracts and proofs speak of it.
pub enum Op {
    Add(Seq<char>),
    Remove(Seq<char>),
}

/// One state-carrying line of a journal document.
#[derive(Clone, Debug)]
pub enum Entry {
    Added(String),
    Removed(String),
}

impl View for Entry {
    type V = Op;

    open spec fn view(&self) -> Op {
        match self {
            Entry::Added(p) => Op::Add(p@),
            Entry::Removed(p) => Op::Remove(p@),
        }
    }
}

/// The pieces of `s` between line feeds, in order; there is always at least
/// one (the text after the last line feed, possibly empty).
pub open spec fn split_lines(s: Seq<char>) -> Seq<Seq<char>>
    decreases s.len(),
{
    if s.len() == 0 {
        seq![Seq::<char>::empty()]
    } else {
        let prev = split_lines(s.drop_last());
        if s.last() == '\n' {
            prev.push(Seq::<char>::empty())
        } else {
            prev.update(prev.len() - 1, prev.last().push(s.last()))
        }
    }
}

/// A line without its carriage return, if it ends with one.
pub open spec fn strip_cr(line: Seq<char>) -> Seq<char> {
    if line.len() > 0 && line.last() == '\r' {
        line.drop_last()
    } else {
        line
    }
}

/// What a line (already stripped) says: nothing for an empty or comment
/// line, a removal for a line opened by the removal mark, else an addition.
pub open spec fn line_op(line: Seq<char>) -> Option<Op> {
    if line.len() == 0 {
        None
    } else if line[0] == COMMENT_MARK {
        None
    } else if line[0] == REMOVED_MARK {
        Some(Op::Remove(line.drop_first()))
    } else {
        Some(Op::Add(line))
    }
}

/// The operations of a sequence of lines, in order.
pub open spec fn lines_ops(lines: Seq<Seq<char>>) -> Seq<Op>
    decreases lines.len(),
{
    if lines.len() == 0 {
        Seq::empty()
    } else {
        lines_ops(lines.drop_last()) + match line_op(strip_cr(lines.last())) {
            Some(op) => seq![op],
            None => Seq::empty(),
        }
    }
}

/// The operations that a document's text records, in order.
pub open spec fn document_ops(text: Seq<char>) -> Seq<Op> {
    lines_ops(split_lines(text))
}

pub proof fn lemma_split_lines_nonempty(s: Seq<char>)
    ensures
        split_lines(s).len() >= 1,
    decreases s.len(),
{
    if s.len() > 0 {
        lemma_split_lines_nonempty(s.drop_last());
    }
}

/// Reads the entry that one line holds, if any.
pub fn line_entry(line: &Vec<char>) -> (r: Option<Entry>)
    ensures
        r matches Some(e) ==> line_op(strip_cr(line@)) == Some(e@),
        r is None ==> line_op(strip_cr(line@)) is None,
{
    let mut n: usize = line.len();
    if n > 0 && line[n - 1] == '\r' {
        n = n - 1;
    }
    proof {
        assert(strip_cr(line@) == line@.subrange(0, n as int));
    }
    if n == 0 {
        None
    } else if line[0] == COMMENT_MARK {
        None
    } else if line[0] == REMOVED_MARK {
        let p = string_of_chars(line.as_slice(), 1, n);
        proof {
            assert(line@.subrange(0, n as int).drop_first() == line@.subrange(1, n as int));
        }
        Some(Entry::Removed(p))
    } else {
        let p = string_of_chars(line.as_slice(), 0, n);
        Some(Entry::Added(p))
    }
}


/// Reads every state-carrying line of a document, in order. Lines end at a
/// line feed; a carriage return before it is dropped; empty and comment lines
/// are skipped.
pub fn parse_document(text: &str) -> (r: Vec<Entry>)
    ensures
        r@.map_values(|e: Entry| e@) == document_ops(text@),
{
    let mut entries: Vec<Entry> = Vec::new();
    let mut cur: Vec<char> = Vec::new();
    let ghost mut seen: Seq<char> = Seq::empty();
    proof {
        assert(split_lines(seen) == seq![Seq::<char>::empty()]);
        assert(split_lines(seen).drop_last() == Seq::<Seq<char>>::empty());
        assert(entries@.map_values(|e: Entry| e@) =~= Seq::<Op>::empty());
    }
    for c in it: text.chars()
        invariant
            it.seq() == text@,
            seen == text@.take(it.index() as int),
            split_lines(seen).len() >= 1,
            cur@ == split_lines(seen).last(),
            entries@.map_values(|e: Entry| e@) == lines_ops(split_lines(seen).drop_last()),
    {
        let ghost before = seen;
        proof {
            seen = seen.push(c);
            assert(seen == text@.take(it.index() + 1));
            assert(seen.drop_last() == before);
        }
        if c == '\n' {
            let e = line_entry(&cur);
            proof {
                let ls = split_lines(before);
                assert(split_lines(seen) == ls.push(Seq::<char>::empty()));
                assert(split_lines(seen).drop_last() == ls);
            }
            match e {
                Some(e) => {
                    let ghost old_entries = entries@;
                    entries.push(e);
                    proof {
                        assert(entries@.map_values(|e: Entry| e@) =~= old_entries.map_values(|e: Entry| e@).push(e@));
                    }
                },
                None => {},
            }
            proof {
                let ls = split_lines(before);
                assert(lines_ops(ls) == lines_ops(ls.drop_last()) + match line_op(strip_cr(ls.last())) {
                    Some(op) => seq![op],
                    None => Seq::<Op>::empty(),
                });
                assert(entries@.map_values(|e: Entry| e@) =~= lines_ops(split_lines(seen).drop_last()));
            }
            cur = Vec::new();
            proof {
                assert(cur@ =~= split_lines(seen).last());
            }
        } else {
            cur.push(c);
            proof {
                let ls = split_lines(before);
                assert(split_lines(seen) == ls.update(ls.len() - 1, ls.last().push(c)));
                assert(split_lines(seen).drop_last() =~= ls.drop_last());
            }
        }
    }
    proof {
        assert(seen == text@);
    }
    let e = line_entry(&cur);
    match e {
        Some(e) => {
            let ghost old_entries = entries@;
            entries.push(e);
            proof {
                assert(entries@.map_values(|e: Entry| e@) =~= old_entries.map_values(|e: Entry| e@).push(e@));
            }
        },
        None => {},
    }
    proof {
        let ls = split_lines(seen);
        assert(ls.drop_last().push(ls.last()) =~= ls);
        assert(entries@.map_values(|e: Entry| e@) =~= lines_ops(ls));
    }
    entries
}

} // verus!
