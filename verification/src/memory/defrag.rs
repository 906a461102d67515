//! The health report of the context repository: files that grew too long,
//! pairs of files on the same topics, and files whose topics other files
//! already cover.

use vstd::prelude::*;

use crate::text::{chars_of, contains, contains_seq, segs_view, str_eq, views_of};

verus! {

broadcast use vstd::string::group_string_axioms;

/// A file longer than the line limit.
pub struct OversizedFile {
    pub path: String,
    pub line_count: usize,
}

/// Two files whose descriptions share at least two significant terms.
pub struct DuplicatePair {
    pub path_a: String,
    pub path_b: String,
    pub shared_terms: Vec<String>,
}

/// A file whose description terms all occur in other files.
pub struct DeletionCandidate {
    pub path: String,
    pub covered_by: String,
}

/// What an analysis of the repository found.
pub struct DefragReport {
    pub oversized: Vec<OversizedFile>,
    pub duplicates: Vec<DuplicatePair>,
    pub deletion_candidates: Vec<DeletionCandidate>,
}

impl DefragReport {
    /// Whether the report found nothing.
    pub fn is_empty(&self) -> (r: bool)
        ensures
            r == (self.oversized@.len() == 0 && self.duplicates@.len() == 0
                && self.deletion_candidates@.len() == 0),
    {
        self.oversized.len() == 0 && self.duplicates.len() == 0
            && self.deletion_candidates.len() == 0
    }
}

/// The number of lines above which a file counts as oversized.
pub open spec fn line_limit() -> int {
    200
}

/// The path and line count of each oversized file.
pub open spec fn oversized_views(v: Seq<OversizedFile>) -> Seq<(Seq<char>, int)> {
    Seq::new(v.len(), |i: int| (v[i].path@, v[i].line_count as int))
}

/// The two paths and the shared terms of each duplicate pair.
pub open spec fn duplicate_views(v: Seq<DuplicatePair>) -> Seq<(Seq<char>, Seq<char>, Seq<Seq<char>>)> {
    Seq::new(v.len(), |i: int| (v[i].path_a@, v[i].path_b@, views_of(v[i].shared_terms@)))
}

/// The path and the covering path of each deletion candidate.
pub open spec fn candidate_views(v: Seq<DeletionCandidate>) -> Seq<(Seq<char>, Seq<char>)> {
    Seq::new(v.len(), |i: int| (v[i].path@, v[i].covered_by@))
}

/// The term lists of a list of files.
pub open spec fn term_views(v: Seq<Vec<String>>) -> Seq<Seq<Seq<char>>> {
    Seq::new(v.len(), |i: int| views_of(v[i]@))
}

/// The files from index `i` on whose line counts exceed the limit, with their
/// line counts.
pub open spec fn oversized_from(paths: Seq<Seq<char>>, lines: Seq<int>, i: int) -> Seq<(Seq<char>, int)>
    decreases paths.len() - i,
{
    if i < 0 || i >= paths.len() {
        seq![]
    } else if lines[i] > line_limit() {
        seq![(paths[i], lines[i])] + oversized_from(paths, lines, i + 1)
    } else {
        oversized_from(paths, lines, i + 1)
    }
}

/// The terms of `a` from index `k` on that `b` holds too, in the order of `a`.
pub open spec fn shared_from(a: Seq<Seq<char>>, b: Seq<Seq<char>>, k: int) -> Seq<Seq<char>>
    decreases a.len() - k,
{
    if k < 0 || k >= a.len() {
        seq![]
    } else if b.contains(a[k]) {
        seq![a[k]] + shared_from(a, b, k + 1)
    } else {
        shared_from(a, b, k + 1)
    }
}

/// The terms of `a` that `b` holds too, in the order of `a`.
pub open spec fn shared(a: Seq<Seq<char>>, b: Seq<Seq<char>>) -> Seq<Seq<char>> {
    shared_from(a, b, 0)
}

/// The pairs of file `i` with the files from index `j` on that share at least
/// two terms with it.
pub open spec fn pairs_row(paths: Seq<Seq<char>>, terms: Seq<Seq<Seq<char>>>, i: int, j: int) -> Seq<
    (Seq<char>, Seq<char>, Seq<Seq<char>>),
>
    decreases paths.len() - j,
{
    if j < 0 || j >= paths.len() {
        seq![]
    } else if shared(terms[i], terms[j]).len() >= 2 {
        seq![(paths[i], paths[j], shared(terms[i], terms[j]))] + pairs_row(paths, terms, i, j + 1)
    } else {
        pairs_row(paths, terms, i, j + 1)
    }
}

/// The pairs `(i, j)` with `i` from index `i` on and `j` after `i` that share
/// at least two terms.
pub open spec fn pairs_from(paths: Seq<Seq<char>>, terms: Seq<Seq<Seq<char>>>, i: int) -> Seq<
    (Seq<char>, Seq<char>, Seq<Seq<char>>),
>
    decreases paths.len() - i,
{
    if i < 0 || i >= paths.len() {
        seq![]
    } else {
        pairs_row(paths, terms, i, i + 1) + pairs_from(paths, terms, i + 1)
    }
}

/// Every term of `terms` occurs in `content`.
pub open spec fn covers_all(terms: Seq<Seq<char>>, content: Seq<char>) -> bool {
    forall|k: int| 0 <= k < terms.len() ==> contains_seq(content, #[trigger] terms[k])
}

/// The first file from index `j` on, other than `idx`, that holds every term.
pub open spec fn first_full_cover(terms: Seq<Seq<char>>, lowered: Seq<Seq<char>>, idx: int, j: int) -> Option<
    int,
>
    decreases lowered.len() - j,
{
    if j < 0 || j >= lowered.len() {
        None
    } else if j != idx && covers_all(terms, lowered[j]) {
        Some(j)
    } else {
        first_full_cover(terms, lowered, idx, j + 1)
    }
}

/// `t` occurs in some file other than `idx`.
pub open spec fn covered_elsewhere(t: Seq<char>, lowered: Seq<Seq<char>>, idx: int) -> bool {
    exists|j: int| 0 <= j < lowered.len() && j != idx && contains_seq(#[trigger] lowered[j], t)
}

/// Each of the terms occurs in some file other than `idx`.
pub open spec fn all_covered_elsewhere(terms: Seq<Seq<char>>, lowered: Seq<Seq<char>>, idx: int) -> bool {
    forall|k: int| 0 <= k < terms.len() ==> covered_elsewhere(#[trigger] terms[k], lowered, idx)
}

/// How many of the terms from index `k` on occur in `content`.
pub open spec fn count_from(terms: Seq<Seq<char>>, content: Seq<char>, k: int) -> nat
    decreases terms.len() - k,
{
    if k < 0 || k >= terms.len() {
        0
    } else if contains_seq(content, terms[k]) {
        1 + count_from(terms, content, k + 1)
    } else {
        count_from(terms, content, k + 1)
    }
}

/// The file that holds the most of the terms, among the files from index `j`
/// on other than `idx` and the best so far `cur` (count, index); of files with
/// equal counts the last one wins.
pub open spec fn best_cover(
    terms: Seq<Seq<char>>,
    lowered: Seq<Seq<char>>,
    idx: int,
    j: int,
    cur: Option<(nat, int)>,
) -> Option<int>
    decreases lowered.len() - j,
{
    if j < 0 || j >= lowered.len() {
        match cur {
            Some(c) => Some(c.1),
            None => None,
        }
    } else if j == idx {
        best_cover(terms, lowered, idx, j + 1, cur)
    } else {
        let c = count_from(terms, lowered[j], 0);
        match cur {
            Some(b) => if c >= b.0 {
                best_cover(terms, lowered, idx, j + 1, Some((c, j)))
            } else {
                best_cover(terms, lowered, idx, j + 1, cur)
            },
            None => best_cover(terms, lowered, idx, j + 1, Some((c, j))),
        }
    }
}

/// The file that covers file `idx`: the first other file that holds all its
/// terms; failing that, where each term occurs in some other file, the other
/// file that holds the most of them.
pub open spec fn cover_of(terms: Seq<Seq<Seq<char>>>, lowered: Seq<Seq<char>>, idx: int) -> Option<int> {
    match first_full_cover(terms[idx], lowered, idx, 0) {
        Some(j) => Some(j),
        None => if all_covered_elsewhere(terms[idx], lowered, idx) {
            best_cover(terms[idx], lowered, idx, 0, None)
        } else {
            None
        },
    }
}

/// The deletion candidates among the files from index `i` on: each file with
/// terms that another file covers, with the path of that file.
pub open spec fn candidates_from(
    paths: Seq<Seq<char>>,
    terms: Seq<Seq<Seq<char>>>,
    lowered: Seq<Seq<char>>,
    i: int,
) -> Seq<(Seq<char>, Seq<char>)>
    decreases paths.len() - i,
{
    if i < 0 || i >= paths.len() {
        seq![]
    } else if terms[i].len() > 0 && cover_of(terms, lowered, i) is Some {
        seq![(paths[i], paths[cover_of(terms, lowered, i)->0])] + candidates_from(
            paths,
            terms,
            lowered,
            i + 1,
        )
    } else {
        candidates_from(paths, terms, lowered, i + 1)
    }
}

proof fn lemma_oversized_entries(paths: Seq<Seq<char>>, lines: Seq<int>, i: int)
    requires
        lines.len() == paths.len(),
        0 <= i,
    ensures
        forall|k: int|
            #![trigger oversized_from(paths, lines, i)[k]]
            0 <= k < oversized_from(paths, lines, i).len() ==> exists|m: int|
                #![trigger paths[m]]
                i <= m < paths.len() && oversized_from(paths, lines, i)[k] == (paths[m], lines[m])
                    && lines[m] > line_limit(),
    decreases paths.len() - i,
{
    if i < paths.len() {
        lemma_oversized_entries(paths, lines, i + 1);
        let s = oversized_from(paths, lines, i);
        let t = oversized_from(paths, lines, i + 1);
        assert forall|k: int| #![trigger s[k]] 0 <= k < s.len() implies exists|m: int|
            #![trigger paths[m]]
            i <= m < paths.len() && s[k] == (paths[m], lines[m]) && lines[m] > line_limit() by {
            if lines[i] > line_limit() {
                if k == 0 {
                    assert(s[0] == (paths[i], lines[i]));
                } else {
                    assert(s[k] == t[k - 1]);
                    let m = choose|m: int|
                        #![trigger paths[m]]
                        i + 1 <= m < paths.len() && t[k - 1] == (paths[m], lines[m]) && lines[m] > line_limit();
                    assert(s[k] == (paths[m], lines[m]));
                }
            } else {
                assert(s[k] == t[k]);
                let m = choose|m: int|
                    #![trigger paths[m]]
                    i + 1 <= m < paths.len() && t[k] == (paths[m], lines[m]) && lines[m] > line_limit();
                assert(s[k] == (paths[m], lines[m]));
            }
        }
    }
}

proof fn lemma_shared_held_by_both(a: Seq<Seq<char>>, b: Seq<Seq<char>>, k: int)
    requires
        0 <= k,
    ensures
        forall|n: int|
            0 <= n < shared_from(a, b, k).len() ==> a.contains(#[trigger] shared_from(a, b, k)[n])
                && b.contains(shared_from(a, b, k)[n]),
    decreases a.len() - k,
{
    if k < a.len() {
        lemma_shared_held_by_both(a, b, k + 1);
        let s = shared_from(a, b, k);
        let t = shared_from(a, b, k + 1);
        assert forall|n: int| 0 <= n < s.len() implies a.contains(#[trigger] s[n]) && b.contains(s[n]) by {
            if b.contains(a[k]) {
                if n == 0 {
                    assert(s[0] == a[k]);
                } else {
                    assert(s[n] == t[n - 1]);
                }
            } else {
                assert(s[n] == t[n]);
            }
        }
    }
}

/// A duplicate pair of files `i` and `j` of the list: `i` before `j`, and
/// at least two shared terms.
pub open spec fn is_pair_of(
    e: (Seq<char>, Seq<char>, Seq<Seq<char>>),
    paths: Seq<Seq<char>>,
    terms: Seq<Seq<Seq<char>>>,
    i: int,
    j: int,
) -> bool {
    &&& 0 <= i < j < paths.len()
    &&& e == (paths[i], paths[j], shared(terms[i], terms[j]))
    &&& shared(terms[i], terms[j]).len() >= 2
}

proof fn lemma_pairs_row_entries(paths: Seq<Seq<char>>, terms: Seq<Seq<Seq<char>>>, i: int, j: int)
    requires
        terms.len() == paths.len(),
        0 <= i < j,
    ensures
        forall|k: int|
            #![trigger pairs_row(paths, terms, i, j)[k]]
            0 <= k < pairs_row(paths, terms, i, j).len() ==> exists|m: int|
                #![trigger paths[m]]
                j <= m && is_pair_of(pairs_row(paths, terms, i, j)[k], paths, terms, i, m),
    decreases paths.len() - j,
{
    if j < paths.len() {
        lemma_pairs_row_entries(paths, terms, i, j + 1);
        let s = pairs_row(paths, terms, i, j);
        let t = pairs_row(paths, terms, i, j + 1);
        assert forall|k: int| #![trigger s[k]] 0 <= k < s.len() implies exists|m: int|
            #![trigger paths[m]]
            j <= m && is_pair_of(s[k], paths, terms, i, m) by {
            if shared(terms[i], terms[j]).len() >= 2 {
                if k == 0 {
                    assert(is_pair_of(s[0], paths, terms, i, j));
                } else {
                    assert(s[k] == t[k - 1]);
                    let m = choose|m: int|
                        #![trigger paths[m]]
                        j + 1 <= m && is_pair_of(t[k - 1], paths, terms, i, m);
                    assert(is_pair_of(s[k], paths, terms, i, m));
                }
            } else {
                assert(s[k] == t[k]);
                let m = choose|m: int| #![trigger paths[m]] j + 1 <= m && is_pair_of(t[k], paths, terms, i, m);
                assert(is_pair_of(s[k], paths, terms, i, m));
            }
        }
    }
}

proof fn lemma_pairs_entries(paths: Seq<Seq<char>>, terms: Seq<Seq<Seq<char>>>, i: int)
    requires
        terms.len() == paths.len(),
        0 <= i,
    ensures
        forall|k: int|
            #![trigger pairs_from(paths, terms, i)[k]]
            0 <= k < pairs_from(paths, terms, i).len() ==> exists|a: int, b: int|
                #![trigger paths[a], paths[b]]
                i <= a && is_pair_of(pairs_from(paths, terms, i)[k], paths, terms, a, b),
    decreases paths.len() - i,
{
    if i < paths.len() {
        lemma_pairs_entries(paths, terms, i + 1);
        lemma_pairs_row_entries(paths, terms, i, i + 1);
        let row = pairs_row(paths, terms, i, i + 1);
        let t = pairs_from(paths, terms, i + 1);
        let s = pairs_from(paths, terms, i);
        assert(s == row + t);
        assert forall|k: int| #![trigger s[k]] 0 <= k < s.len() implies exists|a: int, b: int|
            #![trigger paths[a], paths[b]]
            i <= a && is_pair_of(s[k], paths, terms, a, b) by {
            if k < row.len() {
                assert(s[k] == row[k]);
                let m = choose|m: int| #![trigger paths[m]] i + 1 <= m && is_pair_of(row[k], paths, terms, i, m);
                assert(is_pair_of(s[k], paths, terms, i, m));
            } else {
                assert(s[k] == t[k - row.len()]);
                let (a, b) = choose|a: int, b: int|
                    #![trigger paths[a], paths[b]]
                    i + 1 <= a && is_pair_of(t[k - row.len()], paths, terms, a, b);
                assert(is_pair_of(s[k], paths, terms, a, b));
            }
        }
    }
}

proof fn lemma_first_full_cover(terms: Seq<Seq<char>>, lowered: Seq<Seq<char>>, idx: int, j: int)
    requires
        0 <= j,
    ensures
        first_full_cover(terms, lowered, idx, j) matches Some(c) ==> j <= c < lowered.len() && c != idx
            && covers_all(terms, lowered[c]),
    decreases lowered.len() - j,
{
    if j < lowered.len() {
        lemma_first_full_cover(terms, lowered, idx, j + 1);
    }
}

proof fn lemma_best_cover(
    terms: Seq<Seq<char>>,
    lowered: Seq<Seq<char>>,
    idx: int,
    j: int,
    cur: Option<(nat, int)>,
)
    requires
        0 <= j,
        cur matches Some(b) ==> 0 <= b.1 < lowered.len() && b.1 != idx,
    ensures
        best_cover(terms, lowered, idx, j, cur) matches Some(c) ==> 0 <= c < lowered.len() && c != idx,
    decreases lowered.len() - j,
{
    if j < lowered.len() {
        if j == idx {
            lemma_best_cover(terms, lowered, idx, j + 1, cur);
        } else {
            let c = count_from(terms, lowered[j], 0);
            lemma_best_cover(terms, lowered, idx, j + 1, Some((c, j)));
            lemma_best_cover(terms, lowered, idx, j + 1, cur);
        }
    }
}

proof fn lemma_cover_of(terms: Seq<Seq<Seq<char>>>, lowered: Seq<Seq<char>>, idx: int)
    requires
        0 <= idx < terms.len(),
    ensures
        cover_of(terms, lowered, idx) matches Some(c) ==> 0 <= c < lowered.len() && c != idx
            && all_covered_elsewhere(terms[idx], lowered, idx),
{
    lemma_first_full_cover(terms[idx], lowered, idx, 0);
    lemma_best_cover(terms[idx], lowered, idx, 0, None);
    if let Some(c) = first_full_cover(terms[idx], lowered, idx, 0) {
        assert forall|k: int| 0 <= k < terms[idx].len() implies covered_elsewhere(
            #[trigger] terms[idx][k],
            lowered,
            idx,
        ) by {
            assert(contains_seq(lowered[c], terms[idx][k]));
        }
    }
}

/// A deletion candidate: file `i` of the list, which has terms, each of
/// them occurring in some other file, covered by file `j`, another file of
/// the list.
pub open spec fn is_candidate_of(
    e: (Seq<char>, Seq<char>),
    paths: Seq<Seq<char>>,
    terms: Seq<Seq<Seq<char>>>,
    lowered: Seq<Seq<char>>,
    i: int,
    j: int,
) -> bool {
    &&& 0 <= i < paths.len()
    &&& 0 <= j < paths.len()
    &&& i != j
    &&& e == (paths[i], paths[j])
    &&& terms[i].len() > 0
    &&& all_covered_elsewhere(terms[i], lowered, i)
}

proof fn lemma_candidate_entries(
    paths: Seq<Seq<char>>,
    terms: Seq<Seq<Seq<char>>>,
    lowered: Seq<Seq<char>>,
    i: int,
)
    requires
        terms.len() == paths.len(),
        lowered.len() == paths.len(),
        0 <= i,
    ensures
        forall|k: int|
            #![trigger candidates_from(paths, terms, lowered, i)[k]]
            0 <= k < candidates_from(paths, terms, lowered, i).len() ==> exists|a: int, b: int|
                #![trigger paths[a], paths[b]]
                i <= a && is_candidate_of(
                    candidates_from(paths, terms, lowered, i)[k],
                    paths,
                    terms,
                    lowered,
                    a,
                    b,
                ),
    decreases paths.len() - i,
{
    if i < paths.len() {
        lemma_candidate_entries(paths, terms, lowered, i + 1);
        lemma_cover_of(terms, lowered, i);
        let s = candidates_from(paths, terms, lowered, i);
        let t = candidates_from(paths, terms, lowered, i + 1);
        assert forall|k: int| #![trigger s[k]] 0 <= k < s.len() implies exists|a: int, b: int|
            #![trigger paths[a], paths[b]]
            i <= a && is_candidate_of(s[k], paths, terms, lowered, a, b) by {
            if terms[i].len() > 0 && cover_of(terms, lowered, i) is Some {
                let c = cover_of(terms, lowered, i)->0;
                if k == 0 {
                    assert(is_candidate_of(s[0], paths, terms, lowered, i, c));
                } else {
                    assert(s[k] == t[k - 1]);
                    let (a, b) = choose|a: int, b: int|
                        #![trigger paths[a], paths[b]]
                        i + 1 <= a && is_candidate_of(t[k - 1], paths, terms, lowered, a, b);
                    assert(is_candidate_of(s[k], paths, terms, lowered, a, b));
                }
            } else {
                assert(s[k] == t[k]);
                let (a, b) = choose|a: int, b: int|
                    #![trigger paths[a], paths[b]]
                    i + 1 <= a && is_candidate_of(t[k], paths, terms, lowered, a, b);
                assert(is_candidate_of(s[k], paths, terms, lowered, a, b));
            }
        }
    }
}

/// Law of the report: each oversized file is a file of the list with more
/// lines than the limit; each duplicate pair is two files of the list, the
/// first before the second, sharing at least two terms that both files'
/// terms hold; each deletion candidate is a file of the list with terms,
/// each of which occurs in some other file, covered by another file of the
/// list.
pub proof fn lemma_report_entries_as_described(
    paths: Seq<Seq<char>>,
    terms: Seq<Seq<Seq<char>>>,
    lowered: Seq<Seq<char>>,
    lines: Seq<int>,
)
    requires
        terms.len() == paths.len(),
        lowered.len() == paths.len(),
        lines.len() == paths.len(),
    ensures
        forall|k: int|
            #![trigger oversized_from(paths, lines, 0)[k]]
            0 <= k < oversized_from(paths, lines, 0).len() ==> exists|m: int|
                #![trigger paths[m]]
                0 <= m < paths.len() && oversized_from(paths, lines, 0)[k] == (paths[m], lines[m])
                    && lines[m] > line_limit(),
        forall|k: int|
            #![trigger pairs_from(paths, terms, 0)[k]]
            0 <= k < pairs_from(paths, terms, 0).len() ==> exists|a: int, b: int|
                #![trigger paths[a], paths[b]]
                is_pair_of(pairs_from(paths, terms, 0)[k], paths, terms, a, b),
        forall|a: int, b: int, n: int|
            0 <= a < b < paths.len() && 0 <= n < shared(terms[a], terms[b]).len() ==> terms[a].contains(
                #[trigger] shared(terms[a], terms[b])[n],
            ) && terms[b].contains(shared(terms[a], terms[b])[n]),
        forall|k: int|
            #![trigger candidates_from(paths, terms, lowered, 0)[k]]
            0 <= k < candidates_from(paths, terms, lowered, 0).len() ==> exists|a: int, b: int|
                #![trigger paths[a], paths[b]]
                is_candidate_of(
                    candidates_from(paths, terms, lowered, 0)[k],
                    paths,
                    terms,
                    lowered,
                    a,
                    b,
                ),
{
    lemma_oversized_entries(paths, lines, 0);
    lemma_pairs_entries(paths, terms, 0);
    lemma_candidate_entries(paths, terms, lowered, 0);
    assert forall|a: int, b: int, n: int|
        0 <= a < b < paths.len() && 0 <= n < shared(terms[a], terms[b]).len() implies terms[a].contains(
        #[trigger] shared(terms[a], terms[b])[n],
    ) && terms[b].contains(shared(terms[a], terms[b])[n]) by {
        lemma_shared_held_by_both(terms[a], terms[b], 0);
    }
}

/// The pairs of file `a` with each later file `b`, with the terms they
/// share, in the order of `b`.
pub open spec fn pairs_with_later(paths: Seq<Seq<char>>, terms: Seq<Seq<Seq<char>>>, a: int) -> Seq<
    (Seq<char>, Seq<char>, Seq<Seq<char>>),
> {
    Seq::new(
        (paths.len() - a - 1) as nat,
        |m: int| (paths[a], paths[a + 1 + m], shared(terms[a], terms[a + 1 + m])),
    )
}

/// Every pair of files `a` before `b`, with the terms they share, ordered by
/// `a` and then by `b`.
pub open spec fn all_pairs(paths: Seq<Seq<char>>, terms: Seq<Seq<Seq<char>>>) -> Seq<
    (Seq<char>, Seq<char>, Seq<Seq<char>>),
> {
    Seq::new(paths.len(), |a: int| pairs_with_later(paths, terms, a)).flatten()
}

/// The pair shares at least two terms.
pub open spec fn shares_two(e: (Seq<char>, Seq<char>, Seq<Seq<char>>)) -> bool {
    e.2.len() >= 2
}

proof fn lemma_pairs_row_filter(paths: Seq<Seq<char>>, terms: Seq<Seq<Seq<char>>>, a: int, j: int)
    requires
        terms.len() == paths.len(),
        0 <= a < j <= paths.len(),
    ensures
        pairs_row(paths, terms, a, j) == pairs_with_later(paths, terms, a).subrange(
            j - a - 1,
            paths.len() - a - 1,
        ).filter(|e: (Seq<char>, Seq<char>, Seq<Seq<char>>)| shares_two(e)),
    decreases paths.len() - j,
{
    let row = pairs_with_later(paths, terms, a);
    let pred = |e: (Seq<char>, Seq<char>, Seq<Seq<char>>)| shares_two(e);
    let sub = row.subrange(j - a - 1, paths.len() - a - 1);
    if j == paths.len() {
        assert(sub =~= Seq::<(Seq<char>, Seq<char>, Seq<Seq<char>>)>::empty());
        assert(sub.filter(pred) =~= Seq::<(Seq<char>, Seq<char>, Seq<Seq<char>>)>::empty());
    } else {
        lemma_pairs_row_filter(paths, terms, a, j + 1);
        let rest = row.subrange(j - a, paths.len() - a - 1);
        assert(sub =~= seq![row[j - a - 1]] + rest);
        rest.lemma_filter_prepend(row[j - a - 1], pred);
        assert(row[j - a - 1] == (paths[a], paths[j], shared(terms[a], terms[j])));
        if !shares_two(row[j - a - 1]) {
            assert(Seq::<(Seq<char>, Seq<char>, Seq<Seq<char>>)>::empty() + rest.filter(pred) =~= rest.filter(
                pred,
            ));
        }
    }
}

proof fn lemma_pairs_from_filter(paths: Seq<Seq<char>>, terms: Seq<Seq<Seq<char>>>, i: int)
    requires
        terms.len() == paths.len(),
        0 <= i <= paths.len(),
    ensures
        pairs_from(paths, terms, i) == Seq::new(paths.len(), |a: int| pairs_with_later(paths, terms, a)).subrange(
            i,
            paths.len() as int,
        ).flatten().filter(|e: (Seq<char>, Seq<char>, Seq<Seq<char>>)| shares_two(e)),
    decreases paths.len() - i,
{
    let all = Seq::new(paths.len(), |a: int| pairs_with_later(paths, terms, a));
    let pred = |e: (Seq<char>, Seq<char>, Seq<Seq<char>>)| shares_two(e);
    let sub = all.subrange(i, paths.len() as int);
    if i == paths.len() {
        assert(sub =~= Seq::<Seq<(Seq<char>, Seq<char>, Seq<Seq<char>>)>>::empty());
        assert(sub.flatten() =~= Seq::<(Seq<char>, Seq<char>, Seq<Seq<char>>)>::empty());
        assert(sub.flatten().filter(pred) =~= Seq::<(Seq<char>, Seq<char>, Seq<Seq<char>>)>::empty());
    } else {
        lemma_pairs_from_filter(paths, terms, i + 1);
        lemma_pairs_row_filter(paths, terms, i, i + 1);
        let row = pairs_with_later(paths, terms, i);
        assert(row.subrange(0, paths.len() - i - 1) =~= row);
        assert(sub.first() == row);
        assert(sub.drop_first() =~= all.subrange(i + 1, paths.len() as int));
        assert(sub.flatten() == row + all.subrange(i + 1, paths.len() as int).flatten());
        Seq::filter_distributes_over_add(row, all.subrange(i + 1, paths.len() as int).flatten(), pred);
    }
}

/// The term is held by the list `b`.
pub open spec fn held_by(b: Seq<Seq<char>>) -> spec_fn(Seq<char>) -> bool {
    |t: Seq<char>| b.contains(t)
}

proof fn lemma_shared_filter(a: Seq<Seq<char>>, b: Seq<Seq<char>>, k: int)
    requires
        0 <= k <= a.len(),
    ensures
        shared_from(a, b, k) == a.subrange(k, a.len() as int).filter(held_by(b)),
    decreases a.len() - k,
{
    let sub = a.subrange(k, a.len() as int);
    if k == a.len() {
        assert(sub =~= Seq::<Seq<char>>::empty());
        assert(sub.filter(held_by(b)) =~= Seq::<Seq<char>>::empty());
    } else {
        lemma_shared_filter(a, b, k + 1);
        let rest = a.subrange(k + 1, a.len() as int);
        assert(sub =~= seq![a[k]] + rest);
        rest.lemma_filter_prepend(a[k], held_by(b));
        if !b.contains(a[k]) {
            assert(Seq::<Seq<char>>::empty() + rest.filter(held_by(b)) =~= rest.filter(held_by(b)));
        }
    }
}

/// Law of the shared terms: they are the terms of the first list that the
/// second holds, in the order of the first.
pub proof fn lemma_shared_is_the_common_terms(a: Seq<Seq<char>>, b: Seq<Seq<char>>)
    ensures
        shared(a, b) == a.filter(held_by(b)),
{
    lemma_shared_filter(a, b, 0);
    assert(a.subrange(0, a.len() as int) =~= a);
}

/// The file is over the line limit.
pub open spec fn over_limit(e: (Seq<char>, int)) -> bool {
    e.1 > line_limit()
}

proof fn lemma_oversized_filter(paths: Seq<Seq<char>>, lines: Seq<int>, i: int)
    requires
        lines.len() == paths.len(),
        0 <= i <= paths.len(),
    ensures
        oversized_from(paths, lines, i) == Seq::new(paths.len(), |n: int| (paths[n], lines[n])).subrange(
            i,
            paths.len() as int,
        ).filter(|e: (Seq<char>, int)| over_limit(e)),
    decreases paths.len() - i,
{
    let all = Seq::new(paths.len(), |n: int| (paths[n], lines[n]));
    let pred = |e: (Seq<char>, int)| over_limit(e);
    let sub = all.subrange(i, paths.len() as int);
    if i == paths.len() {
        assert(sub =~= Seq::<(Seq<char>, int)>::empty());
        assert(sub.filter(pred) =~= Seq::<(Seq<char>, int)>::empty());
    } else {
        lemma_oversized_filter(paths, lines, i + 1);
        let rest = all.subrange(i + 1, paths.len() as int);
        assert(sub =~= seq![all[i]] + rest);
        rest.lemma_filter_prepend(all[i], pred);
        if !over_limit(all[i]) {
            assert(Seq::<(Seq<char>, int)>::empty() + rest.filter(pred) =~= rest.filter(pred));
        }
    }
}

/// Law of the oversized report: it is exactly the files, in list order,
/// whose line count exceeds the limit, each with its line count.
pub proof fn lemma_oversized_are_the_long_files(paths: Seq<Seq<char>>, lines: Seq<int>)
    requires
        lines.len() == paths.len(),
    ensures
        oversized_from(paths, lines, 0) == Seq::new(paths.len(), |n: int| (paths[n], lines[n])).filter(
            |e: (Seq<char>, int)| over_limit(e),
        ),
{
    lemma_oversized_filter(paths, lines, 0);
    assert(Seq::new(paths.len(), |n: int| (paths[n], lines[n])).subrange(0, paths.len() as int) =~= Seq::new(
        paths.len(),
        |n: int| (paths[n], lines[n]),
    ));
}

/// Law of the duplicate report: it is exactly the pairs of files `a` before
/// `b`, at any distance apart, that share at least two terms, ordered by `a`
/// and then by `b`; in particular every such pair is reported.
pub proof fn lemma_duplicates_are_all_pairs_sharing_two(paths: Seq<Seq<char>>, terms: Seq<Seq<Seq<char>>>)
    requires
        terms.len() == paths.len(),
    ensures
        pairs_from(paths, terms, 0) == all_pairs(paths, terms).filter(
            |e: (Seq<char>, Seq<char>, Seq<Seq<char>>)| shares_two(e),
        ),
        forall|a: int, b: int|
            0 <= a < b < paths.len() && (#[trigger] shared(terms[a], terms[b])).len() >= 2
                ==> pairs_from(paths, terms, 0).contains((paths[a], paths[b], shared(terms[a], terms[b]))),
{
    lemma_pairs_from_filter(paths, terms, 0);
    let all = Seq::new(paths.len(), |a: int| pairs_with_later(paths, terms, a));
    let pred = |e: (Seq<char>, Seq<char>, Seq<Seq<char>>)| shares_two(e);
    assert(all.subrange(0, paths.len() as int) =~= all);
    assert forall|a: int, b: int|
        0 <= a < b < paths.len() && (#[trigger] shared(terms[a], terms[b])).len() >= 2 implies pairs_from(
        paths,
        terms,
        0,
    ).contains((paths[a], paths[b], shared(terms[a], terms[b]))) by {
        let e = (paths[a], paths[b], shared(terms[a], terms[b]));
        assert(all[a][b - a - 1] == e);
        lemma_flatten_has(all, a, b - a - 1);
        let flat = all.flatten();
        let p = choose|p: int| 0 <= p < flat.len() && flat[p] == e;
        assert(pred(e));
        flat.lemma_filter_contains(pred, p);
    }
}

proof fn lemma_flatten_has<A>(s: Seq<Seq<A>>, i: int, k: int)
    requires
        0 <= i < s.len(),
        0 <= k < s[i].len(),
    ensures
        s.flatten().contains(s[i][k]),
    decreases s.len(),
{
    assert(s.flatten() == s.first() + s.drop_first().flatten());
    if i == 0 {
        assert(s.flatten()[k] == s[0][k]);
    } else {
        lemma_flatten_has(s.drop_first(), i - 1, k);
        let t = s.drop_first().flatten();
        let p = choose|p: int| 0 <= p < t.len() && t[p] == s[i][k];
        assert(s.flatten()[s.first().len() + p] == s[i][k]);
    }
}

/// An optional index as a mathematical integer.
pub open spec fn opt_int(o: Option<usize>) -> Option<int> {
    match o {
        Some(j) => Some(j as int),
        None => None,
    }
}

fn contains_term(content: &[char], t: &String) -> (b: bool)
    ensures
        b == contains_seq(content@, t@),
{
    let tc = chars_of(t.as_str());
    contains(content, tc.as_slice())
}

fn holds_term(list: &Vec<String>, t: &String) -> (b: bool)
    ensures
        b == views_of(list@).contains(t@),
{
    let ghost lv = views_of(list@);
    let mut i: usize = 0;
    while i < list.len()
        invariant
            i <= list@.len(),
            lv == views_of(list@),
            forall|k: int| 0 <= k < i ==> lv[k] != t@,
        decreases list@.len() - i,
    {
        if str_eq(list[i].as_str(), t.as_str()) {
            assert(lv[i as int] == t@);
            return true;
        }
        i = i + 1;
    }
    false
}

/// The terms of `a` that `b` holds too, in the order of `a`.
fn shared_terms(a: &Vec<String>, b: &Vec<String>) -> (r: Vec<String>)
    ensures
        views_of(r@) == shared(views_of(a@), views_of(b@)),
{
    let ghost av = views_of(a@);
    let ghost bv = views_of(b@);
    let mut out: Vec<String> = Vec::new();
    let mut k: usize = 0;
    while k < a.len()
        invariant
            k <= a@.len(),
            av == views_of(a@),
            bv == views_of(b@),
            views_of(out@) + shared_from(av, bv, k as int) == shared_from(av, bv, 0),
        decreases a@.len() - k,
    {
        let ghost before = views_of(out@);
        if holds_term(b, &a[k]) {
            let t = a[k].clone();
            out.push(t);
            assert(views_of(out@) =~= before.push(av[k as int]));
            assert(views_of(out@) + shared_from(av, bv, k + 1) =~= before + shared_from(
                av,
                bv,
                k as int,
            ));
        }
        k = k + 1;
    }
    assert(views_of(out@) =~= views_of(out@) + shared_from(av, bv, k as int));
    out
}

fn covers_all_exec(terms: &Vec<String>, content: &[char]) -> (b: bool)
    ensures
        b == covers_all(views_of(terms@), content@),
{
    let ghost tv = views_of(terms@);
    let mut k: usize = 0;
    while k < terms.len()
        invariant
            k <= terms@.len(),
            tv == views_of(terms@),
            forall|m: int| 0 <= m < k ==> contains_seq(content@, #[trigger] tv[m]),
        decreases terms@.len() - k,
    {
        if !contains_term(content, &terms[k]) {
            assert(!contains_seq(content@, tv[k as int]));
            return false;
        }
        k = k + 1;
    }
    true
}

fn count_exec(terms: &Vec<String>, content: &[char]) -> (r: usize)
    ensures
        r == count_from(views_of(terms@), content@, 0),
{
    let ghost tv = views_of(terms@);
    let mut n: usize = 0;
    let mut k: usize = 0;
    while k < terms.len()
        invariant
            k <= terms@.len(),
            n <= k,
            tv == views_of(terms@),
            n + count_from(tv, content@, k as int) == count_from(tv, content@, 0),
        decreases terms@.len() - k,
    {
        if contains_term(content, &terms[k]) {
            n = n + 1;
        }
        k = k + 1;
    }
    n
}

fn first_full_exec(terms: &Vec<String>, lowered: &Vec<Vec<char>>, idx: usize) -> (r: Option<usize>)
    ensures
        opt_int(r) == first_full_cover(views_of(terms@), segs_view(lowered@), idx as int, 0),
        r matches Some(j) ==> j < lowered@.len(),
{
    let ghost tv = views_of(terms@);
    let ghost lv = segs_view(lowered@);
    let mut j: usize = 0;
    while j < lowered.len()
        invariant
            j <= lowered@.len(),
            tv == views_of(terms@),
            lv == segs_view(lowered@),
            first_full_cover(tv, lv, idx as int, 0) == first_full_cover(tv, lv, idx as int, j as int),
        decreases lowered@.len() - j,
    {
        assert(lv[j as int] == lowered@[j as int]@);
        if j != idx && covers_all_exec(terms, lowered[j].as_slice()) {
            return Some(j);
        }
        j = j + 1;
    }
    None
}

fn covered_elsewhere_exec(t: &String, lowered: &Vec<Vec<char>>, idx: usize) -> (b: bool)
    ensures
        b == covered_elsewhere(t@, segs_view(lowered@), idx as int),
{
    let ghost lv = segs_view(lowered@);
    let mut j: usize = 0;
    while j < lowered.len()
        invariant
            j <= lowered@.len(),
            lv == segs_view(lowered@),
            forall|m: int| 0 <= m < j && m != idx ==> !contains_seq(#[trigger] lv[m], t@),
        decreases lowered@.len() - j,
    {
        assert(lv[j as int] == lowered@[j as int]@);
        if j != idx && contains_term(lowered[j].as_slice(), t) {
            return true;
        }
        j = j + 1;
    }
    false
}

fn all_covered_exec(terms: &Vec<String>, lowered: &Vec<Vec<char>>, idx: usize) -> (b: bool)
    ensures
        b == all_covered_elsewhere(views_of(terms@), segs_view(lowered@), idx as int),
{
    let ghost tv = views_of(terms@);
    let mut k: usize = 0;
    while k < terms.len()
        invariant
            k <= terms@.len(),
            tv == views_of(terms@),
            forall|m: int|
                0 <= m < k ==> covered_elsewhere(#[trigger] tv[m], segs_view(lowered@), idx as int),
        decreases terms@.len() - k,
    {
        if !covered_elsewhere_exec(&terms[k], lowered, idx) {
            assert(!covered_elsewhere(tv[k as int], segs_view(lowered@), idx as int));
            return false;
        }
        k = k + 1;
    }
    true
}

/// An optional (count, index) pair as mathematical integers.
pub open spec fn opt_pair(o: Option<(usize, usize)>) -> Option<(nat, int)> {
    match o {
        Some(p) => Some((p.0 as nat, p.1 as int)),
        None => None,
    }
}

fn best_exec(terms: &Vec<String>, lowered: &Vec<Vec<char>>, idx: usize) -> (r: Option<usize>)
    ensures
        opt_int(r) == best_cover(views_of(terms@), segs_view(lowered@), idx as int, 0, None),
        r matches Some(j) ==> j < lowered@.len(),
{
    let ghost tv = views_of(terms@);
    let ghost lv = segs_view(lowered@);
    let mut cur: Option<(usize, usize)> = None;
    let mut j: usize = 0;
    while j < lowered.len()
        invariant
            j <= lowered@.len(),
            tv == views_of(terms@),
            lv == segs_view(lowered@),
            best_cover(tv, lv, idx as int, 0, None) == best_cover(
                tv,
                lv,
                idx as int,
                j as int,
                opt_pair(cur),
            ),
            cur matches Some(b) ==> b.1 < j,
        decreases lowered@.len() - j,
    {
        if j != idx {
            assert(lv[j as int] == lowered@[j as int]@);
            let c = count_exec(terms, lowered[j].as_slice());
            match cur {
                Some(b) => {
                    if c >= b.0 {
                        cur = Some((c, j));
                    }
                },
                None => {
                    cur = Some((c, j));
                },
            }
        }
        j = j + 1;
    }
    match cur {
        Some(b) => Some(b.1),
        None => None,
    }
}

fn cover_exec(terms: &Vec<Vec<String>>, lowered: &Vec<Vec<char>>, idx: usize) -> (r: Option<usize>)
    requires
        idx < terms@.len(),
    ensures
        opt_int(r) == cover_of(term_views(terms@), segs_view(lowered@), idx as int),
        r matches Some(j) ==> j < lowered@.len(),
{
    assert(term_views(terms@)[idx as int] == views_of(terms@[idx as int]@));
    match first_full_exec(&terms[idx], lowered, idx) {
        Some(j) => Some(j),
        None => {
            if all_covered_exec(&terms[idx], lowered, idx) {
                best_exec(&terms[idx], lowered, idx)
            } else {
                None
            }
        },
    }
}

/// Line counts as mathematical integers.
pub open spec fn counts_view(v: Seq<usize>) -> Seq<int> {
    Seq::new(v.len(), |i: int| v[i] as int)
}

/// The report on a list of files, given by their paths, their significant
/// description terms, their lowercased contents and their line counts, all in
/// the same order.
pub open spec fn report_matches(
    r: DefragReport,
    paths: Seq<Seq<char>>,
    terms: Seq<Seq<Seq<char>>>,
    lowered: Seq<Seq<char>>,
    lines: Seq<int>,
) -> bool {
    &&& oversized_views(r.oversized@) == oversized_from(paths, lines, 0)
    &&& duplicate_views(r.duplicates@) == pairs_from(paths, terms, 0)
    &&& candidate_views(r.deletion_candidates@) == candidates_from(paths, terms, lowered, 0)
}

/// Analyses a list of files, given by their paths, their significant
/// description terms, their lowercased contents and their line counts: the
/// files over the line limit, the pairs that share two terms or more, and the
/// files whose terms other files cover.
pub fn analyze_files(
    paths: &Vec<String>,
    terms: &Vec<Vec<String>>,
    lowered: &Vec<Vec<char>>,
    line_counts: &Vec<usize>,
) -> (r: DefragReport)
    requires
        terms@.len() == paths@.len(),
        lowered@.len() == paths@.len(),
        line_counts@.len() == paths@.len(),
    ensures
        report_matches(
            r,
            views_of(paths@),
            term_views(terms@),
            segs_view(lowered@),
            counts_view(line_counts@),
        ),
{
    let ghost pv = views_of(paths@);
    let ghost tv = term_views(terms@);
    let ghost lv = segs_view(lowered@);
    let ghost cv = counts_view(line_counts@);
    let n = paths.len();
    let mut oversized: Vec<OversizedFile> = Vec::new();
    let mut i: usize = 0;
    while i < n
        invariant
            i <= n == paths@.len() == line_counts@.len(),
            pv == views_of(paths@),
            cv == counts_view(line_counts@),
            oversized_views(oversized@) + oversized_from(pv, cv, i as int) == oversized_from(pv, cv, 0),
        decreases n - i,
    {
        let ghost before = oversized_views(oversized@);
        if line_counts[i] > 200 {
            oversized.push(OversizedFile { path: paths[i].clone(), line_count: line_counts[i] });
            assert(oversized_views(oversized@) =~= before.push((pv[i as int], cv[i as int])));
            assert(oversized_views(oversized@) + oversized_from(pv, cv, i + 1) =~= before
                + oversized_from(pv, cv, i as int));
        }
        i = i + 1;
    }
    assert(oversized_views(oversized@) =~= oversized_views(oversized@) + oversized_from(pv, cv, n as int));
    let mut duplicates: Vec<DuplicatePair> = Vec::new();
    let mut a: usize = 0;
    while a < n
        invariant
            a <= n == paths@.len() == terms@.len(),
            pv == views_of(paths@),
            tv == term_views(terms@),
            duplicate_views(duplicates@) + pairs_from(pv, tv, a as int) == pairs_from(pv, tv, 0),
        decreases n - a,
    {
        let ghost row_start = duplicate_views(duplicates@);
        let mut b: usize = a + 1;
        while b < n
            invariant
                a < b <= n,
                n == paths@.len() == terms@.len(),
                pv == views_of(paths@),
                tv == term_views(terms@),
                duplicate_views(duplicates@) + pairs_row(pv, tv, a as int, b as int) == row_start
                    + pairs_row(pv, tv, a as int, a + 1),
            decreases n - b,
        {
            let ghost before = duplicate_views(duplicates@);
            let common = shared_terms(&terms[a], &terms[b]);
            assert(tv[a as int] == views_of(terms@[a as int]@));
            assert(tv[b as int] == views_of(terms@[b as int]@));
            if common.len() >= 2 {
                let ghost cv2 = views_of(common@);
                duplicates.push(
                    DuplicatePair {
                        path_a: paths[a].clone(),
                        path_b: paths[b].clone(),
                        shared_terms: common,
                    },
                );
                assert(duplicate_views(duplicates@) =~= before.push((pv[a as int], pv[b as int], cv2)));
                assert(duplicate_views(duplicates@) + pairs_row(pv, tv, a as int, b + 1) =~= before
                    + pairs_row(pv, tv, a as int, b as int));
            }
            b = b + 1;
        }
        assert(pairs_row(pv, tv, a as int, b as int) =~= Seq::<(Seq<char>, Seq<char>, Seq<Seq<char>>)>::empty());
        assert(duplicate_views(duplicates@) + pairs_from(pv, tv, a + 1) =~= row_start + pairs_from(
            pv,
            tv,
            a as int,
        ));
        a = a + 1;
    }
    assert(duplicate_views(duplicates@) =~= duplicate_views(duplicates@) + pairs_from(pv, tv, n as int));
    let mut candidates: Vec<DeletionCandidate> = Vec::new();
    let mut c: usize = 0;
    while c < n
        invariant
            c <= n == paths@.len() == terms@.len() == lowered@.len(),
            pv == views_of(paths@),
            tv == term_views(terms@),
            lv == segs_view(lowered@),
            candidate_views(candidates@) + candidates_from(pv, tv, lv, c as int) == candidates_from(
                pv,
                tv,
                lv,
                0,
            ),
        decreases n - c,
    {
        let ghost before = candidate_views(candidates@);
        assert(tv[c as int] == views_of(terms@[c as int]@));
        if terms[c].len() > 0 {
            match cover_exec(terms, lowered, c) {
                Some(j) => {
                    candidates.push(
                        DeletionCandidate { path: paths[c].clone(), covered_by: paths[j].clone() },
                    );
                    assert(candidate_views(candidates@) =~= before.push((pv[c as int], pv[j as int])));
                    assert(candidate_views(candidates@) + candidates_from(pv, tv, lv, c + 1) =~= before
                        + candidates_from(pv, tv, lv, c as int));
                },
                None => {},
            }
        }
        c = c + 1;
    }
    assert(candidate_views(candidates@) =~= candidate_views(candidates@) + candidates_from(
        pv,
        tv,
        lv,
        n as int,
    ));
    DefragReport { oversized, duplicates, deletion_candidates: candidates }
}

} // verus!
