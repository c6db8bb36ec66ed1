//! The known file set: unique path strings, and the fold that rebuilds it.

use vstd::prelude::*;
use crate::journal::{Op, Entry, document_ops, parse_document};
use crate::order::{lex_lt, lemma_lex_irreflexive, lemma_lex_transitive, compare_chars};
use crate::text::{chars_of, string_of_chars};

verus! {

/// What one operation does to a set of paths: an addition inserts, a removal
/// deletes (and deleting an absent path changes nothing).
pub open spec fn apply_op(s: Set<Seq<char>>, op: Op) -> Set<Seq<char>> {
    match op {
        Op::Add(p) => s.insert(p),
        Op::Remove(p) => s.remove(p),
    }
}

/// The operations applied one by one, oldest first.
pub open spec fn apply_ops(s: Set<Seq<char>>, ops: Seq<Op>) -> Set<Seq<char>>
    decreases ops.len(),
{
    if ops.len() == 0 {
        s
    } else {
        apply_op(apply_ops(s, ops.drop_last()), ops.last())
    }
}

/// Every operation recorded by a sequence of documents, in document order.
pub open spec fn history_ops(docs: Seq<Seq<char>>) -> Seq<Op>
    decreases docs.len(),
{
    if docs.len() == 0 {
        Seq::empty()
    } else {
        history_ops(docs.drop_last()) + document_ops(docs.last())
    }
}

/// The known file set that a history of documents gives: all of their
/// operations folded into an empty set, oldest document first.
pub open spec fn replay(docs: Seq<Seq<char>>) -> Set<Seq<char>> {
    apply_ops(Set::empty(), history_ops(docs))
}

/// The texts of a list of documents.
pub open spec fn texts_of(docs: Seq<String>) -> Seq<Seq<char>> {
    docs.map_values(|d: String| d@)
}

/// The paths of a list of strings.
pub open spec fn paths_of(v: Seq<String>) -> Seq<Seq<char>> {
    v.map_values(|s: String| s@)
}

pub proof fn lemma_apply_ops_append(s: Set<Seq<char>>, a: Seq<Op>, b: Seq<Op>)
    ensures
        apply_ops(s, a + b) == apply_ops(apply_ops(s, a), b),
    decreases b.len(),
{
    if b.len() == 0 {
        assert(a + b =~= a);
    } else {
        assert((a + b).drop_last() =~= a + b.drop_last());
        lemma_apply_ops_append(s, a, b.drop_last());
    }
}

/// The characters of each key.
pub open spec fn keys_of(v: Seq<Vec<char>>) -> Seq<Seq<char>> {
    v.map_values(|k: Vec<char>| k@)
}

/// Every path comes strictly before the next one.
pub open spec fn strictly_sorted(s: Seq<Seq<char>>) -> bool {
    forall|i: int, j: int| 0 <= i < j < s.len() ==> lex_lt(#[trigger] s[i], #[trigger] s[j])
}

proof fn lemma_sorted_no_duplicates(s: Seq<Seq<char>>)
    requires
        strictly_sorted(s),
    ensures
        s.no_duplicates(),
{
    assert forall|i: int, j: int| 0 <= i < s.len() && 0 <= j < s.len() && i != j implies s[i] != s[j] by {
        lemma_lex_irreflexive(s[i]);
        if i < j {
            assert(lex_lt(s[i], s[j]));
        } else {
            assert(lex_lt(s[j], s[i]));
        }
    }
}

fn copy_chars(v: &Vec<char>) -> (r: Vec<char>)
    ensures
        r@ == v@,
{
    let mut r: Vec<char> = Vec::new();
    let mut i: usize = 0;
    while i < v.len()
        invariant
            i <= v@.len(),
            r@ == v@.take(i as int),
        decreases v@.len() - i,
    {
        r.push(v[i]);
        assert(r@ =~= v@.take(i + 1));
        i = i + 1;
    }
    assert(v@.take(i as int) =~= v@);
    r
}

/// A set of unique paths, kept in lexicographic order so that a lookup
/// takes a logarithmic number of comparisons.
pub struct KnownSet {
    keys: Vec<Vec<char>>,
}

impl View for KnownSet {
    type V = Set<Seq<char>>;

    closed spec fn view(&self) -> Set<Seq<char>> {
        keys_of(self.keys@).to_set()
    }
}

impl KnownSet {
    /// The paths are held in strictly increasing order, hence each once.
    pub closed spec fn wf(&self) -> bool {
        strictly_sorted(keys_of(self.keys@))
    }

    /// An empty set.
    pub fn new() -> (r: KnownSet)
        ensures
            r.wf(),
            r@ == Set::<Seq<char>>::empty(),
    {
        let r = KnownSet { keys: Vec::new() };
        assert(keys_of(r.keys@) =~= Seq::<Seq<char>>::empty());
        assert(r@ =~= Set::<Seq<char>>::empty());
        r
    }

    /// Binary search: whether `p` is held, and its index if so, else the
    /// index at which it would stand.
    fn search(&self, p: &Vec<char>) -> (r: (bool, usize))
        requires
            self.wf(),
        ensures
            r.1 <= self.keys@.len(),
            forall|i: int| 0 <= i < r.1 ==> lex_lt(#[trigger] keys_of(self.keys@)[i], p@),
            r.0 ==> r.1 < self.keys@.len() && keys_of(self.keys@)[r.1 as int] == p@,
            !r.0 ==> forall|i: int| r.1 <= i < self.keys@.len() ==> lex_lt(p@, #[trigger] keys_of(self.keys@)[i]),
    {
        let ghost ks = keys_of(self.keys@);
        let mut lo: usize = 0;
        let mut hi: usize = self.keys.len();
        while lo < hi
            invariant
                lo <= hi <= self.keys@.len(),
                ks == keys_of(self.keys@),
                strictly_sorted(ks),
                forall|i: int| 0 <= i < lo ==> lex_lt(#[trigger] ks[i], p@),
                forall|i: int| hi <= i < self.keys@.len() ==> lex_lt(p@, #[trigger] ks[i]),
            decreases hi - lo,
        {
            let mid = lo + (hi - lo) / 2;
            let c = compare_chars(&self.keys[mid], p);
            assert(ks[mid as int] == self.keys@[mid as int]@);
            if c == 0 {
                return (true, mid);
            } else if c < 0 {
                assert forall|i: int| 0 <= i < mid + 1 implies lex_lt(#[trigger] ks[i], p@) by {
                    if i < mid {
                        lemma_lex_transitive(ks[i], ks[mid as int], p@);
                    }
                }
                lo = mid + 1;
            } else {
                assert forall|i: int| mid <= i < self.keys@.len() implies lex_lt(p@, #[trigger] ks[i]) by {
                    if i > mid {
                        lemma_lex_transitive(p@, ks[mid as int], ks[i]);
                    }
                }
                hi = mid;
            }
        }
        (false, lo)
    }

    /// Whether the set holds `p`.
    pub fn contains(&self, p: &str) -> (r: bool)
        requires
            self.wf(),
        ensures
            r == self@.contains(p@),
    {
        let cs = chars_of(p);
        let (found, i) = self.search(&cs);
        proof {
            let ks = keys_of(self.keys@);
            if found {
                assert(ks.contains(p@));
            } else {
                assert(!ks.contains(p@)) by {
                    if ks.contains(p@) {
                        let j = choose|j: int| 0 <= j < ks.len() && ks[j] == p@;
                        lemma_lex_irreflexive(p@);
                        if j < i {
                            assert(lex_lt(ks[j], p@));
                        } else {
                            assert(lex_lt(p@, ks[j]));
                        }
                    }
                }
            }
        }
        found
    }

    /// Adds `p`; the set is unchanged if it already holds it.
    pub fn insert(&mut self, p: String)
        requires
            old(self).wf(),
        ensures
            final(self).wf(),
            final(self)@ == old(self)@.insert(p@),
    {
        let cs = chars_of(p.as_str());
        let (found, pos) = self.search(&cs);
        let ghost before = keys_of(self.keys@);
        if found {
            assert(before.contains(p@));
            assert(self@.insert(p@) =~= self@);
        } else {
            self.keys.insert(pos, cs);
            proof {
                let after = keys_of(self.keys@);
                assert(after =~= before.insert(pos as int, p@));
                assert forall|i: int, j: int| 0 <= i < j < after.len() implies lex_lt(#[trigger] after[i], #[trigger] after[j]) by {
                    if j < pos {
                        assert(lex_lt(before[i], before[j]));
                    } else if j == pos {
                    } else if i < pos {
                        assert(lex_lt(before[i], before[j - 1]));
                    } else if i == pos {
                        assert(after[j] == before[j - 1]);
                    } else {
                        assert(lex_lt(before[i - 1], before[j - 1]));
                    }
                }
                assert forall|q: Seq<char>| after.contains(q) <==> (before.contains(q) || q == p@) by {
                    if after.contains(q) {
                        let j = choose|j: int| 0 <= j < after.len() && after[j] == q;
                        if j < pos {
                            assert(before[j] == q);
                        } else if j > pos {
                            assert(before[j - 1] == q);
                        }
                    }
                    if before.contains(q) {
                        let j = choose|j: int| 0 <= j < before.len() && before[j] == q;
                        if j < pos {
                            assert(after[j] == q);
                        } else {
                            assert(after[j + 1] == q);
                        }
                    }
                    if q == p@ {
                        assert(after[pos as int] == q);
                    }
                }
                assert forall|q: Seq<char>| after.to_set().contains(q) <==> before.to_set().insert(p@).contains(q) by {
                    assert(after.to_set().contains(q) == after.contains(q));
                    assert(before.to_set().contains(q) == before.contains(q));
                }
                assert(after.to_set() =~= before.to_set().insert(p@));
            }
        }
    }

    /// Deletes `p`; the set is unchanged if it does not hold it.
    pub fn remove(&mut self, p: &str)
        requires
            old(self).wf(),
        ensures
            final(self).wf(),
            final(self)@ == old(self)@.remove(p@),
    {
        let cs = chars_of(p);
        let (found, pos) = self.search(&cs);
        let ghost before = keys_of(self.keys@);
        if !found {
            assert(!before.contains(p@)) by {
                if before.contains(p@) {
                    let j = choose|j: int| 0 <= j < before.len() && before[j] == p@;
                    lemma_lex_irreflexive(p@);
                    if j < pos {
                        assert(lex_lt(before[j], p@));
                    } else {
                        assert(lex_lt(p@, before[j]));
                    }
                }
            }
            assert(self@.remove(p@) =~= self@);
        } else {
            self.keys.remove(pos);
            proof {
                let after = keys_of(self.keys@);
                assert(after =~= before.remove(pos as int));
                assert forall|i: int, j: int| 0 <= i < j < after.len() implies lex_lt(#[trigger] after[i], #[trigger] after[j]) by {
                    let bi = if i < pos { i } else { i + 1 };
                    let bj = if j < pos { j } else { j + 1 };
                    assert(lex_lt(before[bi], before[bj]));
                }
                lemma_sorted_no_duplicates(before);
                assert forall|q: Seq<char>| after.contains(q) <==> (before.contains(q) && q != p@) by {
                    if after.contains(q) {
                        let j = choose|j: int| 0 <= j < after.len() && after[j] == q;
                        let bj = if j < pos { j } else { j + 1 };
                        assert(before[bj] == q);
                        assert(bj != pos);
                    }
                    if before.contains(q) && q != p@ {
                        let j = choose|j: int| 0 <= j < before.len() && before[j] == q;
                        assert(j != pos);
                        if j < pos {
                            assert(after[j] == q);
                        } else {
                            assert(after[j - 1] == q);
                        }
                    }
                }
                assert forall|q: Seq<char>| after.to_set().contains(q) <==> before.to_set().remove(p@).contains(q) by {
                    assert(after.to_set().contains(q) == after.contains(q));
                    assert(before.to_set().contains(q) == before.contains(q));
                }
                assert(after.to_set() =~= before.to_set().remove(p@));
            }
        }
    }

    /// A copy of the set.
    pub fn duplicate(&self) -> (r: KnownSet)
        requires
            self.wf(),
        ensures
            r.wf(),
            r@ == self@,
    {
        let mut keys: Vec<Vec<char>> = Vec::new();
        let mut i: usize = 0;
        while i < self.keys.len()
            invariant
                i <= self.keys@.len(),
                keys_of(keys@) == keys_of(self.keys@).take(i as int),
            decreases self.keys@.len() - i,
        {
            let k = copy_chars(&self.keys[i]);
            let ghost before = keys_of(keys@);
            keys.push(k);
            assert(keys_of(keys@) =~= before.push(self.keys@[i as int]@));
            assert(keys_of(keys@) =~= keys_of(self.keys@).take(i + 1));
            i = i + 1;
        }
        assert(keys_of(self.keys@).take(i as int) =~= keys_of(self.keys@));
        KnownSet { keys }
    }

    /// The paths, each once, in increasing order.
    pub fn to_vec(&self) -> (r: Vec<String>)
        requires
            self.wf(),
        ensures
            paths_of(r@).no_duplicates(),
            strictly_sorted(paths_of(r@)),
            paths_of(r@).to_set() == self@,
    {
        let mut r: Vec<String> = Vec::new();
        let mut i: usize = 0;
        while i < self.keys.len()
            invariant
                i <= self.keys@.len(),
                paths_of(r@) == keys_of(self.keys@).take(i as int),
            decreases self.keys@.len() - i,
        {
            let k = &self.keys[i];
            let s = string_of_chars(k.as_slice(), 0, k.len());
            let ghost before = paths_of(r@);
            assert(k@.subrange(0, k@.len() as int) =~= k@);
            r.push(s);
            assert(paths_of(r@) =~= before.push(self.keys@[i as int]@));
            assert(paths_of(r@) =~= keys_of(self.keys@).take(i + 1));
            i = i + 1;
        }
        assert(keys_of(self.keys@).take(i as int) =~= keys_of(self.keys@));
        proof {
            lemma_sorted_no_duplicates(paths_of(r@));
        }
        r
    }

    /// Applies one entry: an addition inserts its path, a removal deletes it.
    pub fn apply(&mut self, e: &Entry)
        requires
            old(self).wf(),
        ensures
            final(self).wf(),
            final(self)@ == apply_op(old(self)@, e@),
    {
        match e {
            Entry::Added(p) => self.insert(p.clone()),
            Entry::Removed(p) => self.remove(p.as_str()),
        }
    }

    /// Applies entries in order.
    pub fn apply_all(&mut self, entries: &Vec<Entry>)
        requires
            old(self).wf(),
        ensures
            final(self).wf(),
            final(self)@ == apply_ops(old(self)@, entries@.map_values(|e: Entry| e@)),
    {
        let ghost start = self@;
        let mut i: usize = 0;
        while i < entries.len()
            invariant
                i <= entries@.len(),
                self.wf(),
                self@ == apply_ops(start, entries@.take(i as int).map_values(|e: Entry| e@)),
            decreases entries@.len() - i,
        {
            self.apply(&entries[i]);
            proof {
                let ops = entries@.take(i + 1).map_values(|e: Entry| e@);
                assert(ops.drop_last() =~= entries@.take(i as int).map_values(|e: Entry| e@));
            }
            i = i + 1;
        }
        assert(entries@.take(i as int) =~= entries@);
    }

    /// Replays one document's text on the set.
    pub fn replay_document(&mut self, text: &str)
        requires
            old(self).wf(),
        ensures
            final(self).wf(),
            final(self)@ == apply_ops(old(self)@, document_ops(text@)),
    {
        let entries = parse_document(text);
        self.apply_all(&entries);
    }
}

/// Rebuilds the known file set from documents given oldest first.
pub fn reconstruct(docs: &Vec<String>) -> (r: KnownSet)
    ensures
        r.wf(),
        r@ == replay(texts_of(docs@)),
{
    let mut k = KnownSet::new();
    let mut i: usize = 0;
    while i < docs.len()
        invariant
            i <= docs@.len(),
            k.wf(),
            k@ == replay(texts_of(docs@.take(i as int))),
        decreases docs@.len() - i,
    {
        let ghost before = texts_of(docs@.take(i as int));
        k.replay_document(docs[i].as_str());
        proof {
            let now = texts_of(docs@.take(i + 1));
            assert(now.drop_last() =~= before);
            assert(now.last() == docs@[i as int]@);
            lemma_apply_ops_append(Set::empty(), history_ops(before), document_ops(docs@[i as int]@));
        }
        i = i + 1;
    }
    assert(docs@.take(i as int) =~= docs@);
    k
}

} // verus!
