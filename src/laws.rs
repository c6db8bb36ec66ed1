//! Laws of replay and of the differ, stated over the mathematical model.

use vstd::prelude::*;
use crate::journal::{Op, COMMENT_MARK, REMOVED_MARK, split_lines, strip_cr, line_op, lines_ops, document_ops};
use crate::known::{apply_op, apply_ops, history_ops, replay};
use crate::delta::{
    additions, removals, header_line, deleted_title, removal_line, document_lines, join_lines,
    document_text, lemma_join_push,
};

verus! {

/// The path an operation is about.
pub open spec fn op_path(op: Op) -> Seq<char> {
    match op {
        Op::Add(p) => p,
        Op::Remove(p) => p,
    }
}

/// What the last operation on `p` in `ops` says of it: `Some(true)` for an
/// addition, `Some(false)` for a removal, `None` when no operation names it.
pub open spec fn last_word(ops: Seq<Op>, p: Seq<char>) -> Option<bool>
    decreases ops.len(),
{
    if ops.len() == 0 {
        None
    } else if op_path(ops.last()) == p {
        Some(ops.last() is Add)
    } else {
        last_word(ops.drop_last(), p)
    }
}

/// After a fold, a path is present exactly when its last operation added it,
/// or, with no operation on it, when it was present before.
pub proof fn lemma_apply_ops_membership(s: Set<Seq<char>>, ops: Seq<Op>, p: Seq<char>)
    ensures
        apply_ops(s, ops).contains(p) == match last_word(ops, p) {
            Some(b) => b,
            None => s.contains(p),
        },
    decreases ops.len(),
{
    if ops.len() > 0 {
        lemma_apply_ops_membership(s, ops.drop_last(), p);
    }
}

/// Applying the same operations a second time changes nothing.
pub proof fn lemma_apply_ops_twice(s: Set<Seq<char>>, ops: Seq<Op>)
    ensures
        apply_ops(apply_ops(s, ops), ops) == apply_ops(s, ops),
{
    assert forall|p: Seq<char>| apply_ops(apply_ops(s, ops), ops).contains(p) == apply_ops(s, ops).contains(p) by {
        lemma_apply_ops_membership(apply_ops(s, ops), ops, p);
        lemma_apply_ops_membership(s, ops, p);
    }
    assert(apply_ops(apply_ops(s, ops), ops) =~= apply_ops(s, ops));
}

proof fn lemma_history_append(a: Seq<Seq<char>>, b: Seq<Seq<char>>)
    ensures
        history_ops(a + b) == history_ops(a) + history_ops(b),
    decreases b.len(),
{
    if b.len() == 0 {
        assert(a + b =~= a);
        assert(history_ops(a) + history_ops(b) =~= history_ops(a));
    } else {
        assert((a + b).drop_last() =~= a + b.drop_last());
        lemma_history_append(a, b.drop_last());
        assert(history_ops(a) + (history_ops(b.drop_last()) + document_ops(b.last())) =~= (history_ops(a)
            + history_ops(b.drop_last())) + document_ops(b.last()));
    }
}

/// Replay is idempotent: replaying a history, then the same documents again
/// in the same order, gives the same known file set as replaying it once.
pub proof fn lemma_replay_idempotent(docs: Seq<Seq<char>>)
    ensures
        replay(docs + docs) == replay(docs),
{
    lemma_history_append(docs, docs);
    crate::known::lemma_apply_ops_append(Set::empty(), history_ops(docs), history_ops(docs));
    lemma_apply_ops_twice(Set::empty(), history_ops(docs));
}

/// Removing a path that the set does not hold leaves the set unchanged.
pub proof fn lemma_remove_absent_is_noop(s: Set<Seq<char>>, p: Seq<char>)
    requires
        !s.contains(p),
    ensures
        apply_op(s, Op::Remove(p)) == s,
{
    assert(s.remove(p) =~= s);
}

/// A path that a document can record as an addition and read back as the
/// same addition: not empty, not opened by the comment or removal mark, with
/// no line feed and no final carriage return.
pub open spec fn recordable(p: Seq<char>) -> bool {
    &&& p.len() > 0
    &&& p[0] != COMMENT_MARK
    &&& p[0] != REMOVED_MARK
    &&& !p.contains('\n')
    &&& p.last() != '\r'
}

/// A path that a removal line can carry and give back: no line feed and no
/// final carriage return.
pub open spec fn removable(p: Seq<char>) -> bool {
    &&& !p.contains('\n')
    &&& (p.len() == 0 || p.last() != '\r')
}

proof fn lemma_split_append(s: Seq<char>, t: Seq<char>)
    requires
        !t.contains('\n'),
    ensures
        split_lines(s + t) == split_lines(s).update(
            split_lines(s).len() - 1,
            split_lines(s).last() + t,
        ),
    decreases t.len(),
{
    crate::journal::lemma_split_lines_nonempty(s);
    let ls = split_lines(s);
    if t.len() == 0 {
        assert(s + t =~= s);
        assert(ls.last() + t =~= ls.last());
        assert(ls.update(ls.len() - 1, ls.last()) =~= ls);
    } else {
        let t0 = t.drop_last();
        assert(!t0.contains('\n')) by {
            if t0.contains('\n') {
                let j = choose|j: int| 0 <= j < t0.len() && t0[j] == '\n';
                assert(t[j] == '\n');
            }
        }
        assert(t.last() != '\n') by {
            assert(t[t.len() - 1] == t.last());
        }
        lemma_split_append(s, t0);
        assert((s + t).drop_last() =~= s + t0);
        assert((s + t).last() == t.last());
        let prev = split_lines(s + t0);
        crate::journal::lemma_split_lines_nonempty(s + t0);
        assert((ls.last() + t0).push(t.last()) =~= ls.last() + t);
        assert(prev.update(prev.len() - 1, prev.last().push(t.last())) =~= ls.update(
            ls.len() - 1,
            ls.last() + t,
        ));
    }
}

/// Joining lines without line feeds and splitting again gives the lines
/// back, followed by the empty piece after the final line feed.
pub proof fn lemma_split_join(lines: Seq<Seq<char>>)
    requires
        forall|i: int| 0 <= i < lines.len() ==> !(#[trigger] lines[i]).contains('\n'),
    ensures
        split_lines(join_lines(lines)) == lines.push(Seq::<char>::empty()),
    decreases lines.len(),
{
    if lines.len() == 0 {
        assert(split_lines(Seq::<char>::empty()) =~= lines.push(Seq::<char>::empty()));
    } else {
        let front = lines.drop_last();
        let l = lines.last();
        assert forall|i: int| 0 <= i < front.len() implies !(#[trigger] front[i]).contains('\n') by {
            assert(front[i] == lines[i]);
        }
        lemma_split_join(front);
        assert(!l.contains('\n')) by {
            assert(l == lines[lines.len() - 1]);
        }
        let j = join_lines(front);
        lemma_split_append(j, l);
        assert(join_lines(lines) == (j + l).push('\n'));
        assert((j + l).push('\n').drop_last() =~= j + l);
        let ls = front.push(Seq::<char>::empty());
        assert(ls.last() + l =~= l);
        assert(ls.update(ls.len() - 1, l) =~= lines);
    }
}

proof fn lemma_lines_ops_append(a: Seq<Seq<char>>, b: Seq<Seq<char>>)
    ensures
        lines_ops(a + b) == lines_ops(a) + lines_ops(b),
    decreases b.len(),
{
    if b.len() == 0 {
        assert(a + b =~= a);
        assert(lines_ops(a) + lines_ops(b) =~= lines_ops(a));
    } else {
        assert((a + b).drop_last() =~= a + b.drop_last());
        assert((a + b).last() == b.last());
        lemma_lines_ops_append(a, b.drop_last());
        let tail = match line_op(strip_cr(b.last())) {
            Some(op) => seq![op],
            None => Seq::<Op>::empty(),
        };
        assert(lines_ops(a) + (lines_ops(b.drop_last()) + tail) =~= (lines_ops(a) + lines_ops(b.drop_last()))
            + tail);
    }
}

proof fn lemma_lines_ops_additions(ps: Seq<Seq<char>>)
    requires
        forall|i: int| 0 <= i < ps.len() ==> recordable(#[trigger] ps[i]),
    ensures
        lines_ops(ps) == ps.map_values(|p: Seq<char>| Op::Add(p)),
    decreases ps.len(),
{
    if ps.len() > 0 {
        let front = ps.drop_last();
        assert forall|i: int| 0 <= i < front.len() implies recordable(#[trigger] front[i]) by {
            assert(front[i] == ps[i]);
        }
        lemma_lines_ops_additions(front);
        assert(recordable(ps[ps.len() - 1]));
        assert(strip_cr(ps.last()) == ps.last());
        assert(ps.map_values(|p: Seq<char>| Op::Add(p)) =~= front.map_values(|p: Seq<char>| Op::Add(p))
            + seq![Op::Add(ps.last())]);
    }
}

proof fn lemma_lines_ops_removals(ps: Seq<Seq<char>>)
    requires
        forall|i: int| 0 <= i < ps.len() ==> removable(#[trigger] ps[i]),
    ensures
        lines_ops(ps.map_values(|p: Seq<char>| removal_line(p))) == ps.map_values(|p: Seq<char>| Op::Remove(p)),
    decreases ps.len(),
{
    if ps.len() > 0 {
        let front = ps.drop_last();
        assert forall|i: int| 0 <= i < front.len() implies removable(#[trigger] front[i]) by {
            assert(front[i] == ps[i]);
        }
        lemma_lines_ops_removals(front);
        let ls = ps.map_values(|p: Seq<char>| removal_line(p));
        assert(ls.drop_last() =~= front.map_values(|p: Seq<char>| removal_line(p)));
        let l = ps.last();
        assert(removable(ps[ps.len() - 1]));
        assert(ls.last() == removal_line(l));
        assert(removal_line(l).last() != '\r') by {
            if l.len() > 0 {
                assert(removal_line(l).last() == l.last());
            }
        }
        assert(strip_cr(removal_line(l)) == removal_line(l));
        assert(removal_line(l).drop_first() =~= l);
        assert(ps.map_values(|p: Seq<char>| Op::Remove(p)) =~= front.map_values(|p: Seq<char>| Op::Remove(p))
            + seq![Op::Remove(l)]);
    }
}

proof fn lemma_apply_additions(s: Set<Seq<char>>, ps: Seq<Seq<char>>)
    ensures
        apply_ops(s, ps.map_values(|p: Seq<char>| Op::Add(p))) == s.union(ps.to_set()),
    decreases ps.len(),
{
    let ops = ps.map_values(|p: Seq<char>| Op::Add(p));
    if ps.len() == 0 {
        assert(s.union(ps.to_set()) =~= s);
    } else {
        assert(ops.drop_last() =~= ps.drop_last().map_values(|p: Seq<char>| Op::Add(p)));
        lemma_apply_additions(s, ps.drop_last());
        assert(ps.drop_last().push(ps.last()) =~= ps);
        ps.drop_last().lemma_push_to_set_commute(ps.last());
        assert(s.union(ps.drop_last().to_set()).insert(ps.last()) =~= s.union(ps.to_set()));
    }
}

proof fn lemma_apply_removals(s: Set<Seq<char>>, ps: Seq<Seq<char>>)
    ensures
        apply_ops(s, ps.map_values(|p: Seq<char>| Op::Remove(p))) == s.difference(ps.to_set()),
    decreases ps.len(),
{
    let ops = ps.map_values(|p: Seq<char>| Op::Remove(p));
    if ps.len() == 0 {
        assert(s.difference(ps.to_set()) =~= s);
    } else {
        assert(ops.drop_last() =~= ps.drop_last().map_values(|p: Seq<char>| Op::Remove(p)));
        lemma_apply_removals(s, ps.drop_last());
        assert(ps.drop_last().push(ps.last()) =~= ps);
        ps.drop_last().lemma_push_to_set_commute(ps.last());
        assert(s.difference(ps.drop_last().to_set()).remove(ps.last()) =~= s.difference(ps.to_set()));
    }
}

proof fn lemma_comment_line_ops(h: Seq<char>)
    requires
        h.len() >= 2,
        h[0] == COMMENT_MARK,
    ensures
        lines_ops(seq![h]) == Seq::<Op>::empty(),
{
    let ls = seq![h];
    assert(ls.drop_last() =~= Seq::<Seq<char>>::empty());
    assert(lines_ops(Seq::<Seq<char>>::empty()) =~= Seq::<Op>::empty());
    assert(ls.last() == h);
    assert(strip_cr(h).len() > 0);
    assert(strip_cr(h)[0] == COMMENT_MARK);
    assert(line_op(strip_cr(h)) is None);
    assert(lines_ops(ls) =~= Seq::<Op>::empty());
}

/// The operations that a rendered document records: its additions, then its
/// removals.
pub proof fn lemma_document_ops(
    stamp: Seq<char>,
    description: Seq<char>,
    added: Seq<Seq<char>>,
    removed: Seq<Seq<char>>,
)
    requires
        !stamp.contains('\n'),
        !description.contains('\n'),
        forall|i: int| 0 <= i < added.len() ==> recordable(#[trigger] added[i]),
        forall|i: int| 0 <= i < removed.len() ==> removable(#[trigger] removed[i]),
    ensures
        document_ops(document_text(stamp, description, added, removed)) == added.map_values(
            |p: Seq<char>| Op::Add(p),
        ) + removed.map_values(|p: Seq<char>| Op::Remove(p)),
{
    let h = header_line(stamp, description);
    let lines = document_lines(stamp, description, added, removed);
    let rl = removed.map_values(|p: Seq<char>| removal_line(p));
    let tail = if removed.len() == 0 {
        Seq::<Seq<char>>::empty()
    } else {
        seq![Seq::<char>::empty(), deleted_title()] + rl
    };
    assert(lines == seq![h] + added + tail);
    assert(!h.contains('\n')) by {
        if h.contains('\n') {
            let j = choose|j: int| 0 <= j < h.len() && h[j] == '\n';
            if j >= 3 && j < 3 + stamp.len() {
                assert(stamp[j - 3] == '\n');
            } else if j >= 5 + stamp.len() {
                assert(description[j - 5 - stamp.len()] == '\n');
            }
        }
    }
    assert(!deleted_title().contains('\n')) by {
        if deleted_title().contains('\n') {
            let j = choose|j: int| 0 <= j < deleted_title().len() && deleted_title()[j] == '\n';
        }
    }
    assert forall|i: int| 0 <= i < lines.len() implies !(#[trigger] lines[i]).contains('\n') by {
        if i == 0 {
        } else if i < 1 + added.len() {
            assert(lines[i] == added[i - 1]);
            assert(recordable(added[i - 1]));
        } else {
            let k = i - 1 - added.len();
            assert(lines[i] == tail[k]);
            if k >= 2 {
                let p = removed[k - 2];
                assert(removable(p));
                assert(tail[k] == removal_line(p));
                if removal_line(p).contains('\n') {
                    let j = choose|j: int| 0 <= j < removal_line(p).len() && removal_line(p)[j] == '\n';
                    assert(p[j - 1] == '\n');
                }
            }
        }
    }
    lemma_split_join(lines);
    let text = document_text(stamp, description, added, removed);
    assert(lines_ops(lines.push(Seq::<char>::empty())) == lines_ops(lines)) by {
        assert(lines.push(Seq::<char>::empty()).drop_last() =~= lines);
        assert(lines_ops(lines) + Seq::<Op>::empty() =~= lines_ops(lines));
    }
    assert(lines_ops(seq![h]) =~= Seq::<Op>::empty()) by {
        lemma_comment_line_ops(h);
    }
    lemma_lines_ops_append(seq![h], added);
    lemma_lines_ops_append(seq![h] + added, tail);
    lemma_lines_ops_additions(added);
    if removed.len() > 0 {
        let two = seq![Seq::<char>::empty(), deleted_title()];
        lemma_lines_ops_append(two, rl);
        assert(lines_ops(two) =~= Seq::<Op>::empty()) by {
            let e = Seq::<char>::empty();
            assert(two =~= seq![e] + seq![deleted_title()]);
            lemma_lines_ops_append(seq![e], seq![deleted_title()]);
            lemma_comment_line_ops(deleted_title());
            assert(seq![e].drop_last() =~= Seq::<Seq<char>>::empty());
            assert(lines_ops(Seq::<Seq<char>>::empty()) =~= Seq::<Op>::empty());
            assert(line_op(strip_cr(seq![e].last())) is None);
            assert(lines_ops(seq![e]) =~= Seq::<Op>::empty());
        }
        lemma_lines_ops_removals(removed);
        assert(Seq::<Op>::empty() + removed.map_values(|p: Seq<char>| Op::Remove(p)) =~= removed.map_values(
            |p: Seq<char>| Op::Remove(p),
        ));
    } else {
        assert(lines_ops(tail) =~= Seq::<Op>::empty());
        assert(removed.map_values(|p: Seq<char>| Op::Remove(p)) =~= Seq::<Op>::empty());
    }
    assert(Seq::<Op>::empty() + added.map_values(|p: Seq<char>| Op::Add(p)) =~= added.map_values(
        |p: Seq<char>| Op::Add(p),
    ));
    assert(lines_ops(seq![h] + added) + lines_ops(tail) =~= added.map_values(|p: Seq<char>| Op::Add(p))
        + removed.map_values(|p: Seq<char>| Op::Remove(p)));
}

/// Round trip: a document written from the delta between the replayed
/// history and a live listing, appended to that history, replays to exactly
/// the set of live paths.
pub proof fn lemma_round_trip(
    docs: Seq<Seq<char>>,
    stamp: Seq<char>,
    description: Seq<char>,
    live: Seq<Seq<char>>,
    added: Seq<Seq<char>>,
    removed: Seq<Seq<char>>,
)
    requires
        !stamp.contains('\n'),
        !description.contains('\n'),
        forall|i: int| 0 <= i < live.len() ==> recordable(#[trigger] live[i]),
        forall|p: Seq<char>| #[trigger] removals(replay(docs), live).contains(p) ==> removable(p),
        added == additions(replay(docs), live),
        removed.to_set() == removals(replay(docs), live),
    ensures
        replay(docs.push(document_text(stamp, description, added, removed))) == live.to_set(),
{
    let k = replay(docs);
    let d = document_text(stamp, description, added, removed);
    let pred = |q: Seq<char>| !k.contains(q);
    assert forall|i: int| 0 <= i < added.len() implies recordable(#[trigger] added[i]) by {
        live.lemma_filter_contains_rev(pred, added[i]);
        assert(added.contains(added[i]));
        assert(live.contains(added[i]));
    }
    assert forall|i: int| 0 <= i < removed.len() implies removable(#[trigger] removed[i]) by {
        assert(removed.to_set().contains(removed[i]));
    }
    lemma_document_ops(stamp, description, added, removed);
    assert(docs.push(d).drop_last() =~= docs);
    crate::known::lemma_apply_ops_append(Set::empty(), history_ops(docs), document_ops(d));
    let adds = added.map_values(|p: Seq<char>| Op::Add(p));
    let rems = removed.map_values(|p: Seq<char>| Op::Remove(p));
    crate::known::lemma_apply_ops_append(k, adds, rems);
    lemma_apply_additions(k, added);
    lemma_apply_removals(k.union(added.to_set()), removed);
    assert forall|q: Seq<char>| added.to_set().contains(q) <==> (live.contains(q) && !k.contains(q)) by {
        if live.contains(q) && !k.contains(q) {
            let i = choose|i: int| 0 <= i < live.len() && live[i] == q;
            live.lemma_filter_contains(pred, i);
        }
        if added.contains(q) {
            live.lemma_filter_contains_rev(pred, q);
        }
    }
    assert(k.union(added.to_set()).difference(removed.to_set()) =~= live.to_set());
}

} // verus!
