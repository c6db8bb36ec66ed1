//! Lexicographic order on paths, by character code: the order in which the
//! known file set keeps its paths and lists its removals.

use vstd::prelude::*;

verus! {

/// `a` comes strictly before `b`: at the first position where they differ
/// `a` has the smaller character, or `a` is a proper prefix of `b`.
pub open spec fn lex_lt(a: Seq<char>, b: Seq<char>) -> bool
    decreases a.len(),
{
    if a.len() == 0 {
        b.len() > 0
    } else if b.len() == 0 {
        false
    } else if a[0] != b[0] {
        a[0] < b[0]
    } else {
        lex_lt(a.drop_first(), b.drop_first())
    }
}

/// No path comes before itself.
pub proof fn lemma_lex_irreflexive(a: Seq<char>)
    ensures
        !lex_lt(a, a),
    decreases a.len(),
{
    if a.len() > 0 {
        lemma_lex_irreflexive(a.drop_first());
    }
}

/// Of two different paths, one comes before the other, and never both.
pub proof fn lemma_lex_total(a: Seq<char>, b: Seq<char>)
    ensures
        a != b ==> (lex_lt(a, b) || lex_lt(b, a)),
        !(lex_lt(a, b) && lex_lt(b, a)),
    decreases a.len(),
{
    if a.len() > 0 && b.len() > 0 {
        if a[0] == b[0] {
            lemma_lex_total(a.drop_first(), b.drop_first());
            if a != b {
                assert(a.drop_first() != b.drop_first()) by {
                    if a.drop_first() == b.drop_first() {
                        assert(a =~= seq![a[0]] + a.drop_first());
                        assert(b =~= seq![b[0]] + b.drop_first());
                    }
                }
            }
        } else {
        }
    } else if a.len() == 0 && b.len() == 0 {
        assert(a =~= b);
    }
}

/// The order is transitive.
pub proof fn lemma_lex_transitive(a: Seq<char>, b: Seq<char>, c: Seq<char>)
    requires
        lex_lt(a, b),
        lex_lt(b, c),
    ensures
        lex_lt(a, c),
    decreases a.len(),
{
    if a.len() > 0 && b.len() > 0 && c.len() > 0 {
        if a[0] == b[0] && b[0] == c[0] {
            lemma_lex_transitive(a.drop_first(), b.drop_first(), c.drop_first());
        }
    }
}

/// Compares two paths given as characters: -1 when `a` comes first, 0 when
/// they are equal, 1 when `b` comes first.
pub fn compare_chars(a: &Vec<char>, b: &Vec<char>) -> (r: i8)
    ensures
        r == 0 <==> a@ == b@,
        r < 0 <==> lex_lt(a@, b@),
        r > 0 <==> lex_lt(b@, a@),
{
    proof {
        lemma_lex_total(a@, b@);
        lemma_lex_irreflexive(a@);
    }
    let mut i: usize = 0;
    assert(a@.subrange(0, a@.len() as int) =~= a@);
    assert(b@.subrange(0, b@.len() as int) =~= b@);
    while i < a.len() && i < b.len() && a[i] == b[i]
        invariant
            i <= a@.len(),
            i <= b@.len(),
            a@.subrange(0, i as int) == b@.subrange(0, i as int),
            lex_lt(a@, b@) == lex_lt(a@.subrange(i as int, a@.len() as int), b@.subrange(i as int, b@.len() as int)),
            lex_lt(b@, a@) == lex_lt(b@.subrange(i as int, b@.len() as int), a@.subrange(i as int, a@.len() as int)),
        decreases a@.len() - i,
    {
        proof {
            let sa = a@.subrange(i as int, a@.len() as int);
            let sb = b@.subrange(i as int, b@.len() as int);
            assert(sa.drop_first() =~= a@.subrange(i + 1, a@.len() as int));
            assert(sb.drop_first() =~= b@.subrange(i + 1, b@.len() as int));
            assert(sa[0] == sb[0]);
            assert(a@.subrange(0, i + 1) =~= a@.subrange(0, i as int).push(a@[i as int]));
            assert(b@.subrange(0, i + 1) =~= b@.subrange(0, i as int).push(b@[i as int]));
        }
        i = i + 1;
    }
    let sa = Ghost(a@.subrange(i as int, a@.len() as int));
    let sb = Ghost(b@.subrange(i as int, b@.len() as int));
    if i == a.len() && i == b.len() {
        assert(a@ =~= a@.subrange(0, i as int));
        assert(b@ =~= b@.subrange(0, i as int));
        0
    } else if i == a.len() {
        assert(sa@.len() == 0 && sb@.len() > 0);
        assert(a@ != b@) by {
            if a@ == b@ {
                assert(a@.len() == b@.len());
            }
        }
        -1
    } else if i == b.len() {
        assert(sb@.len() == 0 && sa@.len() > 0);
        assert(a@ != b@) by {
            if a@ == b@ {
                assert(a@.len() == b@.len());
            }
        }
        1
    } else {
        assert(sa@[0] == a@[i as int] && sb@[0] == b@[i as int]);
        assert(a@ != b@) by {
            if a@ == b@ {
                assert(a@[i as int] == b@[i as int]);
            }
        }
        if a[i] < b[i] {
            -1
        } else {
            1
        }
    }
}

} // verus!
