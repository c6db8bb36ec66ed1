//! The journal store's naming rules: which files are journal documents, and
//! what a new document is called.

use vstd::prelude::*;
use crate::text::{chars_of, push_char, push_text, string_of_chars};

verus! {

/// Index just past the last `/` of a path, or 0 when it has none.
pub open spec fn name_start(p: Seq<char>) -> int
    decreases p.len(),
{
    if p.len() == 0 {
        0
    } else if p.last() == '/' {
        p.len() as int
    } else {
        name_start(p.drop_last())
    }
}

/// The last component of a path: the text after its last `/`.
pub open spec fn file_name(p: Seq<char>) -> Seq<char> {
    p.subrange(name_start(p), p.len() as int)
}

/// Index of the last `.` of a name, or -1 when it has none.
pub open spec fn last_dot(n: Seq<char>) -> int
    decreases n.len(),
{
    if n.len() == 0 {
        -1
    } else if n.last() == '.' {
        n.len() - 1
    } else {
        last_dot(n.drop_last())
    }
}

/// The extension of a path: the text after the last `.` of its file name,
/// when that dot is not the name's first character and the name is not `..`.
pub open spec fn extension(p: Seq<char>) -> Option<Seq<char>> {
    let n = file_name(p);
    if n == seq!['.', '.'] || last_dot(n) <= 0 {
        None
    } else {
        Some(n.subrange(last_dot(n) + 1, n.len() as int))
    }
}

/// The extension that marks journal documents.
pub open spec fn journal_ext() -> Seq<char> {
    seq!['m', 'd']
}

/// Whether a path names a journal document.
pub open spec fn is_journal_spec(p: Seq<char>) -> bool {
    extension(p) == Some(journal_ext())
}

proof fn lemma_name_start_bounds(p: Seq<char>)
    ensures
        0 <= name_start(p) <= p.len(),
    decreases p.len(),
{
    if p.len() > 0 {
        lemma_name_start_bounds(p.drop_last());
    }
}

proof fn lemma_last_dot_bounds(n: Seq<char>)
    ensures
        -1 <= last_dot(n) < n.len(),
        last_dot(n) >= 0 ==> n[last_dot(n)] == '.',
    decreases n.len(),
{
    if n.len() > 0 {
        lemma_last_dot_bounds(n.drop_last());
    }
}

/// The extension of a path, if it has one.
pub fn extension_of(path: &str) -> (r: Option<String>)
    ensures
        r matches Some(e) ==> extension(path@) == Some(e@),
        r is None ==> extension(path@) is None,
{
    let cs = chars_of(path);
    let ghost p = cs@;
    let mut start: usize = cs.len();
    assert(p.take(p.len() as int) =~= p);
    while start > 0 && cs[start - 1] != '/'
        invariant
            start <= cs@.len(),
            p == cs@,
            name_start(p) == name_start(p.take(start as int)),
        decreases start,
    {
        assert(p.take(start as int).drop_last() =~= p.take(start - 1));
        start = start - 1;
    }
    proof {
        if start == 0 {
            assert(p.take(0) =~= Seq::<char>::empty());
        } else {
            assert(p.take(start as int).last() == '/');
        }
        lemma_name_start_bounds(p);
    }
    let ghost n = p.subrange(start as int, p.len() as int);
    let mut dot: usize = cs.len();
    assert(n.take(n.len() as int) =~= n);
    while dot > start && cs[dot - 1] != '.'
        invariant
            start <= dot <= cs@.len(),
            p == cs@,
            n.len() == p.len() - start,
            forall|j: int| 0 <= j < n.len() ==> n[j] == p[start + j],
            n == p.subrange(start as int, p.len() as int),
            last_dot(n) == last_dot(n.take(dot - start)),
        decreases dot,
    {
        assert(n.take(dot - start).drop_last() =~= n.take(dot - 1 - start));
        dot = dot - 1;
    }
    proof {
        assert(n.take(p.len() - start) =~= n);
        if dot == start {
            assert(n.take(0) =~= Seq::<char>::empty());
            assert(last_dot(n) == -1);
        } else {
            assert(n.take(dot - start).last() == '.');
            assert(last_dot(n) == dot - 1 - start);
        }
    }
    let len = cs.len();
    if len - start == 2 && cs[start] == '.' && cs[start + 1] == '.' {
        assert(n =~= seq!['.', '.']);
        None
    } else if dot - start <= 1 {
        proof {
            if len - start == 2 {
                assert(n != seq!['.', '.']) by {
                    if n == seq!['.', '.'] {
                        assert(n[0] == '.' && n[1] == '.');
                    }
                }
            }
        }
        None
    } else {
        assert(n != seq!['.', '.']) by {
            if n == seq!['.', '.'] {
                assert(n.len() == 2);
                assert(n[dot - 1 - start] == '.');
            }
        }
        let e = string_of_chars(cs.as_slice(), dot, len);
        assert(e@ =~= n.subrange(last_dot(n) + 1, n.len() as int));
        Some(e)
    }
}

/// Whether a path names a journal document: its extension is the journal
/// extension. Files without an extension are not documents.
pub fn is_journal_path(path: &str) -> (r: bool)
    ensures
        r == is_journal_spec(path@),
{
    match extension_of(path) {
        None => false,
        Some(e) => {
            let cs = chars_of(e.as_str());
            let r = cs.len() == 2 && cs[0] == 'm' && cs[1] == 'd';
            proof {
                if r {
                    assert(e@ =~= journal_ext());
                } else if e@ == journal_ext() {
                    assert(cs@[0] == 'm' && cs@[1] == 'd');
                }
            }
            r
        },
    }
}

/// The journal documents among a listing, in the listing's order.
pub fn select_documents(paths: Vec<String>) -> (r: Vec<String>)
    ensures
        crate::known::paths_of(r@) == crate::known::paths_of(paths@).filter(
            |p: Seq<char>| is_journal_spec(p),
        ),
{
    let ghost all = crate::known::paths_of(paths@);
    let mut r: Vec<String> = Vec::new();
    let mut i: usize = 0;
    while i < paths.len()
        invariant
            i <= paths@.len(),
            all == crate::known::paths_of(paths@),
            crate::known::paths_of(r@) == all.take(i as int).filter(|p: Seq<char>| is_journal_spec(p)),
        decreases paths@.len() - i,
    {
        proof {
            assert(all.take(i + 1) =~= all.take(i as int).push(all[i as int]));
            all.take(i as int).lemma_filter_push(all[i as int], |p: Seq<char>| is_journal_spec(p));
        }
        if is_journal_path(paths[i].as_str()) {
            let ghost before = crate::known::paths_of(r@);
            r.push(paths[i].clone());
            assert(crate::known::paths_of(r@) =~= before.push(all[i as int]));
        }
        i = i + 1;
    }
    assert(all.take(i as int) =~= all);
    r
}

/// The text that chrono writes for a whole second since the Unix epoch in
/// the form `%Y-%m-%d_%H:%M:%S`, in UTC.
pub uninterp spec fn utc_stamp(secs: int) -> Seq<char>;

/// The last second of the year 9999, UTC, in seconds since the Unix epoch.
pub const LAST_FOUR_DIGIT_SECOND: i64 = 253402300799;

/// Relies on chrono's `DateTime::<Utc>::from_timestamp` (`None` outside the
/// dates it can hold, which reach far past the year 9999) and
/// `format("%Y-%m-%d_%H:%M:%S")`, whose text depends on the second alone and
/// is made of digits, signs, `-`, `_` and `:`; for the years 0 to 9999 the
/// year takes four digits and no sign, so the text is 19 characters long.
#[verifier::external_body]
fn format_utc_stamp(secs: i64) -> (r: Option<String>)
    ensures
        0 <= secs <= LAST_FOUR_DIGIT_SECOND ==> r is Some,
        r matches Some(s) ==> s@ == utc_stamp(secs as int) && !s@.contains('\n'),
        r matches Some(s) ==> 0 <= secs <= LAST_FOUR_DIGIT_SECOND ==> s@.len() == 19,
{
    match chrono::DateTime::<chrono::Utc>::from_timestamp(secs, 0) {
        Some(t) => Some(t.format("%Y-%m-%d_%H:%M:%S").to_string()),
        None => None,
    }
}

/// The file name of the document stamped `stamp`: the stamp, a dot and the
/// journal extension.
pub open spec fn file_name_for(stamp: Seq<char>) -> Seq<char> {
    stamp + seq!['.'] + journal_ext()
}

/// The file name of the document stamped `stamp`.
pub fn journal_file_name(stamp: &str) -> (r: String)
    ensures
        r@ == file_name_for(stamp@),
{
    let mut r = String::new();
    push_text(&mut r, stamp);
    push_char(&mut r, '.');
    push_char(&mut r, 'm');
    push_char(&mut r, 'd');
    assert(r@ =~= file_name_for(stamp@));
    r
}

/// The stamp of a new document and the file name it is stored under.
pub struct JournalName {
    pub stamp: String,
    pub file_name: String,
}

/// Names the document of a run made at `secs` seconds after the Unix epoch;
/// `None` when the time lies outside the dates that can be written. From 1970
/// to the end of the year 9999 a name is always given, and its stamp has a
/// fixed width of 19 characters.
pub fn journal_name(secs: i64) -> (r: Option<JournalName>)
    ensures
        0 <= secs <= LAST_FOUR_DIGIT_SECOND ==> r is Some,
        r matches Some(n) ==> 0 <= secs <= LAST_FOUR_DIGIT_SECOND ==> n.stamp@.len() == 19,
        r matches Some(n) ==> {
            &&& n.stamp@ == utc_stamp(secs as int)
            &&& !n.stamp@.contains('\n')
            &&& n.file_name@ == file_name_for(n.stamp@)
        },
{
    match format_utc_stamp(secs) {
        None => None,
        Some(stamp) => {
            let file_name = journal_file_name(stamp.as_str());
            Some(JournalName { stamp, file_name })
        },
    }
}

} // verus!
