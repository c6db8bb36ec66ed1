//! The differ: what was added and removed since the known state, and the
//! text of the journal document that records it.

use vstd::prelude::*;
use crate::journal::{COMMENT_MARK, REMOVED_MARK};
use crate::known::{KnownSet, paths_of, reconstruct, replay, texts_of, strictly_sorted};
use crate::text::{push_char, push_text};

verus! {

/// The change between the known file set and a live listing.
pub struct Delta {
    /// Live paths that the known set does not hold, in listing order.
    pub added: Vec<String>,
    /// Known paths that the listing does not hold, each once, in increasing
    /// order.
    pub removed: Vec<String>,
}

/// The live paths that `known` does not hold, in listing order.
pub open spec fn additions(known: Set<Seq<char>>, live: Seq<Seq<char>>) -> Seq<Seq<char>> {
    live.filter(|p: Seq<char>| !known.contains(p))
}

/// The known paths that `live` does not list.
pub open spec fn removals(known: Set<Seq<char>>, live: Seq<Seq<char>>) -> Set<Seq<char>> {
    known.difference(live.to_set())
}

/// Compares the known set with a live listing. Each live path that the set
/// lacks is an addition; each known path that the listing lacks is a removal,
/// and removals are listed in increasing order.
pub fn compute_delta(known: &KnownSet, live: &Vec<String>) -> (r: Delta)
    requires
        known.wf(),
    ensures
        paths_of(r.added@) == additions(known@, paths_of(live@)),
        paths_of(r.removed@).no_duplicates(),
        strictly_sorted(paths_of(r.removed@)),
        paths_of(r.removed@).to_set() == removals(known@, paths_of(live@)),
        paths_of(r.added@).to_set().disjoint(paths_of(r.removed@).to_set()),
{
    let mut rest = known.duplicate();
    let ghost k = known@;
    let ghost lv = paths_of(live@);
    let mut added: Vec<String> = Vec::new();
    let mut i: usize = 0;
    while i < live.len()
        invariant
            i <= live@.len(),
            rest.wf(),
            known.wf(),
            k == known@,
            lv == paths_of(live@),
            rest@ == k.difference(lv.take(i as int).to_set()),
            paths_of(added@) == additions(k, lv.take(i as int)),
        decreases live@.len() - i,
    {
        let p = &live[i];
        let ghost pre = lv.take(i as int);
        proof {
            assert(lv.take(i + 1) =~= pre.push(p@));
            pre.lemma_push_to_set_commute(p@);
            pre.lemma_filter_push(p@, |q: Seq<char>| !k.contains(q));
        }
        if known.contains(p.as_str()) {
            rest.remove(p.as_str());
            assert(rest@ =~= k.difference(lv.take(i + 1).to_set()));
        } else {
            let ghost before = paths_of(added@);
            added.push(p.clone());
            assert(paths_of(added@) =~= before.push(p@));
            assert(rest@ =~= k.difference(lv.take(i + 1).to_set()));
        }
        i = i + 1;
    }
    assert(lv.take(i as int) =~= lv);
    let removed = rest.to_vec();
    proof {
        let a = paths_of(added@);
        let pred = |q: Seq<char>| !k.contains(q);
        assert forall|q: Seq<char>| a.to_set().contains(q) implies !paths_of(removed@).to_set().contains(q) by {
            assert(a.contains(q));
            lv.lemma_filter_contains_rev(pred, q);
            let t = choose|t: int| 0 <= t < a.len() && a[t] == q;
            lv.lemma_filter_pred(pred, t);
        }
        assert(a.to_set().disjoint(paths_of(removed@).to_set()));
    }
    Delta { added, removed }
}

/// The header line of a document: the comment mark, the stamp in
/// parentheses, and the description.
pub open spec fn header_line(stamp: Seq<char>, description: Seq<char>) -> Seq<char> {
    seq![COMMENT_MARK, ' ', '('] + stamp + seq![')', ' '] + description
}

/// The title line of the removal section.
pub open spec fn deleted_title() -> Seq<char> {
    seq![COMMENT_MARK, ' ', 'D', 'e', 'l', 'e', 't', 'e', 'd']
}

/// A removal line: the removal mark, then the path.
pub open spec fn removal_line(p: Seq<char>) -> Seq<char> {
    seq![REMOVED_MARK] + p
}

/// The lines of a document: the header, one line per addition, and, when
/// there are removals, an empty line, the section title and one removal line
/// per removal.
pub open spec fn document_lines(
    stamp: Seq<char>,
    description: Seq<char>,
    added: Seq<Seq<char>>,
    removed: Seq<Seq<char>>,
) -> Seq<Seq<char>> {
    seq![header_line(stamp, description)] + added + if removed.len() == 0 {
        Seq::empty()
    } else {
        seq![Seq::<char>::empty(), deleted_title()] + removed.map_values(|p: Seq<char>| removal_line(p))
    }
}

/// Lines each followed by a line feed.
pub open spec fn join_lines(lines: Seq<Seq<char>>) -> Seq<char>
    decreases lines.len(),
{
    if lines.len() == 0 {
        Seq::empty()
    } else {
        join_lines(lines.drop_last()) + lines.last().push('\n')
    }
}

/// The full text of a document.
pub open spec fn document_text(
    stamp: Seq<char>,
    description: Seq<char>,
    added: Seq<Seq<char>>,
    removed: Seq<Seq<char>>,
) -> Seq<char> {
    join_lines(document_lines(stamp, description, added, removed))
}

pub proof fn lemma_join_push(lines: Seq<Seq<char>>, l: Seq<char>)
    ensures
        join_lines(lines.push(l)) == join_lines(lines) + l.push('\n'),
{
    assert(lines.push(l).drop_last() =~= lines);
}

/// Writes a list of lines, each prefixed by `mark` when one is given.
fn push_lines(out: &mut String, ps: &Vec<String>, mark: Option<char>, Ghost(done): Ghost<Seq<Seq<char>>>)
    requires
        old(out)@ == join_lines(done),
    ensures
        final(out)@ == join_lines(done + match mark {
            Some(m) => paths_of(ps@).map_values(|p: Seq<char>| seq![m] + p),
            None => paths_of(ps@),
        }),
{
    let ghost lines = match mark {
        Some(m) => paths_of(ps@).map_values(|p: Seq<char>| seq![m] + p),
        None => paths_of(ps@),
    };
    let mut i: usize = 0;
    while i < ps.len()
        invariant
            i <= ps@.len(),
            lines.len() == ps@.len(),
            lines == match mark {
                Some(m) => paths_of(ps@).map_values(|p: Seq<char>| seq![m] + p),
                None => paths_of(ps@),
            },
            out@ == join_lines(done + lines.take(i as int)),
        decreases ps@.len() - i,
    {
        match mark {
            Some(m) => push_char(out, m),
            None => {},
        }
        push_text(out, ps[i].as_str());
        push_char(out, '\n');
        proof {
            assert(done + lines.take(i + 1) =~= (done + lines.take(i as int)).push(lines[i as int]));
            lemma_join_push(done + lines.take(i as int), lines[i as int]);
            match mark {
                Some(m) => {
                    assert(lines[i as int] == seq![m] + ps@[i as int]@);
                },
                None => {},
            }
        }
        i = i + 1;
    }
    assert(lines.take(i as int) =~= lines);
}

/// The text of the document that records a delta.
pub fn render_document(stamp: &str, description: &str, delta: &Delta) -> (r: String)
    ensures
        r@ == document_text(stamp@, description@, paths_of(delta.added@), paths_of(delta.removed@)),
{
    let mut out = String::new();
    push_char(&mut out, COMMENT_MARK);
    push_char(&mut out, ' ');
    push_char(&mut out, '(');
    push_text(&mut out, stamp);
    push_char(&mut out, ')');
    push_char(&mut out, ' ');
    push_text(&mut out, description);
    push_char(&mut out, '\n');
    let ghost head = seq![header_line(stamp@, description@)];
    proof {
        lemma_join_push(Seq::empty(), header_line(stamp@, description@));
        assert(Seq::<Seq<char>>::empty().push(header_line(stamp@, description@)) =~= head);
        assert(out@ =~= join_lines(head));
    }
    push_lines(&mut out, &delta.added, None, Ghost(head));
    let ghost with_added = head + paths_of(delta.added@);
    if delta.removed.len() > 0 {
        push_char(&mut out, '\n');
        push_char(&mut out, COMMENT_MARK);
        push_char(&mut out, ' ');
        push_char(&mut out, 'D');
        push_char(&mut out, 'e');
        push_char(&mut out, 'l');
        push_char(&mut out, 'e');
        push_char(&mut out, 't');
        push_char(&mut out, 'e');
        push_char(&mut out, 'd');
        push_char(&mut out, '\n');
        let ghost mid = with_added.push(Seq::<char>::empty()).push(deleted_title());
        proof {
            lemma_join_push(with_added, Seq::<char>::empty());
            lemma_join_push(with_added.push(Seq::<char>::empty()), deleted_title());
            assert(out@ =~= join_lines(mid));
        }
        push_lines(&mut out, &delta.removed, Some(REMOVED_MARK), Ghost(mid));
        proof {
            let rl = paths_of(delta.removed@).map_values(|p: Seq<char>| seq![REMOVED_MARK] + p);
            assert(paths_of(delta.removed@).map_values(|p: Seq<char>| removal_line(p)) =~= rl);
            assert(mid + rl =~= document_lines(stamp@, description@, paths_of(delta.added@), paths_of(delta.removed@)));
        }
    } else {
        assert(with_added =~= document_lines(stamp@, description@, paths_of(delta.added@), paths_of(delta.removed@)));
    }
    out
}

/// A new document and the delta it records.
pub struct NextDocument {
    pub delta: Delta,
    pub text: String,
}

/// One run of the journal: rebuilds the known file set from the history
/// (oldest document first), compares it with the live listing, and writes
/// the document that records the difference.
pub fn next_document(history: &Vec<String>, live: &Vec<String>, stamp: &str, description: &str) -> (r:
    NextDocument)
    ensures
        paths_of(r.delta.added@) == additions(replay(texts_of(history@)), paths_of(live@)),
        paths_of(r.delta.removed@).no_duplicates(),
        strictly_sorted(paths_of(r.delta.removed@)),
        paths_of(r.delta.removed@).to_set() == removals(replay(texts_of(history@)), paths_of(live@)),
        r.text@ == document_text(stamp@, description@, paths_of(r.delta.added@), paths_of(r.delta.removed@)),
{
    let known = reconstruct(history);
    let delta = compute_delta(&known, live);
    let text = render_document(stamp, description, &delta);
    NextDocument { delta, text }
}

} // verus!
