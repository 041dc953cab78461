//! Listing rows and the order in which they are shown.
use vstd::prelude::*;

verus! {

/// One row of a listing.
pub struct DirEntry {
    pub name: String,
    pub path: String,
    pub is_dir: bool,
    /// `None` while the count is not yet known.
    pub file_count: Option<usize>,
}

/// The lower-case form of a string, as `str::to_lowercase` gives it.
pub uninterp spec fn lower_of(s: Seq<char>) -> Seq<char>;

/// Relies on `str::to_lowercase`: the result depends on the characters alone.
#[verifier::external_body]
fn lowercase(s: &str) -> (r: String)
    ensures
        r@ == lower_of(s@),
{
    s.to_lowercase()
}

/// Strict lexicographic order on characters, as `str`'s `Ord` compares.
pub open spec fn lex_lt(a: Seq<char>, b: Seq<char>) -> bool
    decreases a.len(),
{
    if a.len() == 0 {
        b.len() > 0
    } else if b.len() == 0 {
        false
    } else if a[0] != b[0] {
        (a[0] as u32) < (b[0] as u32)
    } else {
        lex_lt(a.drop_first(), b.drop_first())
    }
}

pub proof fn lemma_lex_lt_transitive(a: Seq<char>, b: Seq<char>, c: Seq<char>)
    requires
        lex_lt(a, b),
        lex_lt(b, c),
    ensures
        lex_lt(a, c),
    decreases a.len(),
{
    if a.len() > 0 && b.len() > 0 && c.len() > 0 && a[0] == b[0] && b[0] == c[0] {
        lemma_lex_lt_transitive(a.drop_first(), b.drop_first(), c.drop_first());
    }
}

pub proof fn lemma_lex_lt_irreflexive(a: Seq<char>)
    ensures
        !lex_lt(a, a),
    decreases a.len(),
{
    if a.len() > 0 {
        lemma_lex_lt_irreflexive(a.drop_first());
    }
}

/// Case-insensitive name order of two rows.
pub open spec fn name_lt(a: DirEntry, b: DirEntry) -> bool {
    lex_lt(lower_of(a.name@), lower_of(b.name@))
}

/// Whether row `a` is shown strictly before row `b`: directories before
/// files; directories by known count descending, known before unknown, then
/// by name; files by name.
pub open spec fn precedes(a: DirEntry, b: DirEntry) -> bool {
    if a.is_dir != b.is_dir {
        a.is_dir
    } else if a.is_dir {
        match (a.file_count, b.file_count) {
            (Some(x), Some(y)) => x > y || (x == y && name_lt(a, b)),
            (Some(_), None) => true,
            (None, Some(_)) => false,
            (None, None) => name_lt(a, b),
        }
    } else {
        name_lt(a, b)
    }
}

/// No row is preceded by a row that comes after it.
pub open spec fn is_sorted(s: Seq<DirEntry>) -> bool {
    forall|i: int, j: int| 0 <= i < j < s.len() ==> !precedes(#[trigger] s[j], #[trigger] s[i])
}

pub proof fn lemma_precedes_transitive(a: DirEntry, b: DirEntry, c: DirEntry)
    requires
        precedes(a, b),
        precedes(b, c),
    ensures
        precedes(a, c),
{
    if name_lt(a, b) && name_lt(b, c) {
        lemma_lex_lt_transitive(lower_of(a.name@), lower_of(b.name@), lower_of(c.name@));
    }
}

pub proof fn lemma_precedes_irreflexive(a: DirEntry)
    ensures
        !precedes(a, a),
{
    lemma_lex_lt_irreflexive(lower_of(a.name@));
}

/// Decides `lex_lt` on two strings.
pub fn lex_less(a: &str, b: &str) -> (r: bool)
    ensures
        r == lex_lt(a@, b@),
{
    let na = a.unicode_len();
    let nb = b.unicode_len();
    let mut i: usize = 0;
    assert(a@.skip(0) =~= a@);
    assert(b@.skip(0) =~= b@);
    while i < na && i < nb
        invariant
            na == a@.len(),
            nb == b@.len(),
            i <= na,
            i <= nb,
            lex_lt(a@, b@) == lex_lt(a@.skip(i as int), b@.skip(i as int)),
        decreases na - i,
    {
        let ca = a.get_char(i);
        let cb = b.get_char(i);
        assert(a@.skip(i as int)[0] == ca);
        assert(b@.skip(i as int)[0] == cb);
        if ca != cb {
            return (ca as u32) < (cb as u32);
        }
        assert(a@.skip(i as int).drop_first() =~= a@.skip(i + 1));
        assert(b@.skip(i as int).drop_first() =~= b@.skip(i + 1));
        i = i + 1;
    }
    i == na && i < nb
}

/// Decides `precedes` on two rows.
pub fn entry_precedes(a: &DirEntry, b: &DirEntry) -> (r: bool)
    ensures
        r == precedes(*a, *b),
{
    if a.is_dir != b.is_dir {
        return a.is_dir;
    }
    let la = lowercase(a.name.as_str());
    let lb = lowercase(b.name.as_str());
    if a.is_dir {
        match (a.file_count, b.file_count) {
            (Some(x), Some(y)) => x > y || (x == y && lex_less(la.as_str(), lb.as_str())),
            (Some(_), None) => true,
            (None, Some(_)) => false,
            (None, None) => lex_less(la.as_str(), lb.as_str()),
        }
    } else {
        lex_less(la.as_str(), lb.as_str())
    }
}

/// Sorts rows by `precedes`, keeping the relative order of rows that neither
/// precedes the other.
pub fn sort_entries(v: Vec<DirEntry>) -> (r: Vec<DirEntry>)
    ensures
        r@.to_multiset() == v@.to_multiset(),
        is_sorted(r@),
        is_sorted(v@) ==> r@ == v@,
{
    broadcast use vstd::seq_lib::to_multiset_build, vstd::seq_lib::to_multiset_insert;

    let ghost s = v@;
    let mut rest = v;
    let mut out: Vec<DirEntry> = Vec::new();
    let n = rest.len();
    let mut k: usize = 0;
    assert(s.subrange(0, 0) =~= out@);
    while k < n
        invariant
            n == s.len(),
            k <= n,
            rest@ == s.subrange(k as int, n as int),
            out@.to_multiset() == s.subrange(0, k as int).to_multiset(),
            is_sorted(out@),
            is_sorted(s) ==> out@ == s.subrange(0, k as int),
        decreases n - k,
    {
        let x = rest.remove(0);
        assert(x == s[k as int]);
        assert(rest@ =~= s.subrange(k + 1, n as int));
        let mut p: usize = 0;
        while p < out.len() && !entry_precedes(&x, &out[p])
            invariant
                p <= out.len(),
                forall|q: int| 0 <= q < p ==> !precedes(x, #[trigger] out@[q]),
            decreases out.len() - p,
        {
            p = p + 1;
        }
        let ghost before = out@;
        proof {
            if is_sorted(s) {
                assert forall|q: int| 0 <= q < before.len() implies !precedes(x, #[trigger] before[q]) by {
                    assert(before[q] == s[q]);
                }
            }
            assert forall|q: int| p <= q < before.len() implies !precedes(#[trigger] before[q], x) by {
                assert(precedes(x, before[p as int]));
                if precedes(before[q], x) {
                    lemma_precedes_transitive(before[q], x, before[p as int]);
                    lemma_precedes_irreflexive(before[p as int]);
                }
            }
        }
        out.insert(p, x);
        proof {
            assert(out@ =~= before.insert(p as int, x));
            assert(s.subrange(0, k + 1) =~= s.subrange(0, k as int).push(x));
            vstd::seq_lib::to_multiset_insert(before, p as int, x);
            vstd::seq_lib::to_multiset_build(s.subrange(0, k as int), x);
            assert forall|i: int, j: int| 0 <= i < j < out@.len() implies !precedes(
                #[trigger] out@[j],
                #[trigger] out@[i],
            ) by {
                if i < p && j == p {
                } else if i == p && j > p {
                    assert(out@[j] == before[j - 1]);
                } else if i < p && j > p {
                    assert(out@[j] == before[j - 1]);
                } else {
                }
            }
            if is_sorted(s) {
                assert(p == before.len()) by {
                    if p < before.len() {
                        assert(before[p as int] == s[p as int]);
                    }
                }
                assert(out@ =~= s.subrange(0, k + 1));
            }
        }
        k = k + 1;
    }
    assert(s.subrange(0, n as int) =~= s);
    out
}

} // verus!
