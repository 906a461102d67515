//! The context repository: markdown notes with a front-matter description,
//! listed, searched and analysed for oversized, overlapping and redundant
//! files.

use vstd::prelude::*;
use vstd::utf8::encode_utf8;

use crate::error::{is_backend_error, OrgaError};
use crate::memory::defrag::{analyze_files, counts_view, report_matches, term_views};
pub use crate::memory::defrag::{DefragReport, DeletionCandidate, DuplicatePair, OversizedFile};
use crate::order::{
    has_key, insert_sorted_unique, keyed_with, lemma_lex_le_antisymmetric, lemma_lex_le_reflexive,
    lemma_lex_le_transitive, lemma_strictly_sorted_unique, lex_le, lex_lt, sort_by_key,
    sorted_by_key, strictly_sorted, Keyed,
};
use crate::text::{
    pair_views, alphanumeric, ascii_alnum, ascii_lower_char, ascii_lowered, ascii_upper_char,
    ascii_uppercased, at_least_three_bytes, is_ascii_char, is_ascii_text, chars_eq, contains, contains_seq, join_strings, joined_by,
    push_str, is_alphanumeric, lowercased, to_lowercase, views_of, chars_of, find, first_index, lemma_first_index, lines_exec, lines_of, segs_view,
    ends_with, ends_with_seq, starts_with, starts_with_seq, str_eq, string_of, string_of_range, trim_both, trim_chars, TrimSet,
};

verus! {

broadcast use vstd::string::group_string_axioms;

/// `"---"`, which opens and closes the front matter of a note.
pub open spec fn fence() -> Seq<char> {
    seq!['-', '-', '-']
}

/// `"description:"`, the key of the description line of the front matter.
pub open spec fn description_key() -> Seq<char> {
    seq!['d', 'e', 's', 'c', 'r', 'i', 'p', 't', 'i', 'o', 'n', ':']
}

/// The front matter of `content`: the text between an opening `---` at its
/// very start and the next `---`.
pub open spec fn frontmatter_of(content: Seq<char>) -> Option<Seq<char>> {
    if !starts_with_seq(content, fence()) {
        None
    } else {
        let after = content.subrange(3, content.len() as int);
        let end = first_index(after, fence());
        if end < 0 {
            None
        } else {
            Some(after.subrange(0, end))
        }
    }
}

/// What follows the key on the first of `lines` from index `k` on that starts
/// with `description:`.
pub open spec fn description_rest(lines: Seq<Seq<char>>, k: int) -> Option<Seq<char>>
    decreases lines.len() - k,
{
    if k < 0 || k >= lines.len() {
        None
    } else if starts_with_seq(lines[k], description_key()) {
        Some(lines[k].subrange(12, lines[k].len() as int))
    } else {
        description_rest(lines, k + 1)
    }
}

/// A description value with white space and then double and single quotes
/// taken off both ends.
pub open spec fn unquoted(rest: Seq<char>) -> Seq<char> {
    trim_both(
        trim_both(trim_both(rest, TrimSet::WhiteSpace), TrimSet::Char('"')),
        TrimSet::Char('\''),
    )
}

/// The description that the front matter of `content` gives, or the empty
/// text where it gives none.
pub open spec fn description_of(content: Seq<char>) -> Seq<char> {
    match frontmatter_of(content) {
        None => Seq::empty(),
        Some(fm) => match description_rest(lines_of(fm), 0) {
            None => Seq::empty(),
            Some(rest) => unquoted(rest),
        },
    }
}

fn frontmatter_exec(cs: &[char]) -> (r: Option<Vec<char>>)
    ensures
        match r {
            Some(v) => frontmatter_of(cs@) == Some(v@),
            None => frontmatter_of(cs@) is None,
        },
{
    let fence_chars = vec!['-', '-', '-'];
    assert(fence_chars@ =~= fence());
    if !starts_with(cs, fence_chars.as_slice()) {
        return None;
    }
    let mut after: Vec<char> = Vec::new();
    let mut i: usize = 3;
    while i < cs.len()
        invariant
            3 <= i <= cs@.len(),
            after@ == cs@.subrange(3, i as int),
        decreases cs@.len() - i,
    {
        after.push(cs[i]);
        i = i + 1;
        assert(after@ =~= cs@.subrange(3, i as int));
    }
    let found = find(after.as_slice(), fence_chars.as_slice());
    proof {
        lemma_first_index(after@, fence(), found);
    }
    match found {
        Some(e) => {
            let mut fm: Vec<char> = Vec::new();
            let mut k: usize = 0;
            while k < e
                invariant
                    k <= e <= after@.len(),
                    fm@ == after@.subrange(0, k as int),
                decreases e - k,
            {
                fm.push(after[k]);
                k = k + 1;
                assert(fm@ =~= after@.subrange(0, k as int));
            }
            Some(fm)
        },
        None => None,
    }
}

fn description_exec(lines: &Vec<Vec<char>>) -> (r: Option<Vec<char>>)
    ensures
        match r {
            Some(v) => description_rest(segs_view(lines@), 0) == Some(v@),
            None => description_rest(segs_view(lines@), 0) is None,
        },
{
    let ghost lv = segs_view(lines@);
    let key = vec!['d', 'e', 's', 'c', 'r', 'i', 'p', 't', 'i', 'o', 'n', ':'];
    assert(key@ =~= description_key());
    let mut k: usize = 0;
    while k < lines.len()
        invariant
            k <= lines@.len(),
            lv == segs_view(lines@),
            key@ == description_key(),
            description_rest(lv, 0) == description_rest(lv, k as int),
        decreases lines@.len() - k,
    {
        let line = &lines[k];
        assert(line@ == lv[k as int]);
        if starts_with(line.as_slice(), key.as_slice()) {
            let mut rest: Vec<char> = Vec::new();
            let mut j: usize = 12;
            while j < line.len()
                invariant
                    12 <= j <= line@.len(),
                    rest@ == line@.subrange(12, j as int),
                decreases line@.len() - j,
            {
                rest.push(line[j]);
                j = j + 1;
                assert(rest@ =~= line@.subrange(12, j as int));
            }
            return Some(rest);
        }
        k = k + 1;
    }
    None
}

/// The description in the front matter of a note (see `description_of`).
pub fn extract_frontmatter_description(content: &str) -> (r: String)
    ensures
        r@ == description_of(content@),
{
    let cs = chars_of(content);
    let fm = match frontmatter_exec(cs.as_slice()) {
        Some(v) => v,
        None => {
            return String::new();
        },
    };
    let lines = lines_exec(fm.as_slice());
    match description_exec(&lines) {
        Some(rest) => {
            let a = trim_chars(rest.as_slice(), &TrimSet::WhiteSpace);
            let b = trim_chars(a.as_slice(), &TrimSet::Char('"'));
            let c = trim_chars(b.as_slice(), &TrimSet::Char('\''));
            string_of(c.as_slice())
        },
        None => String::new(),
    }
}

/// The pieces of `s` between the characters that are not alphanumeric, empty
/// pieces included.
pub open spec fn words_of(s: Seq<char>) -> Seq<Seq<char>>
    decreases s.len(),
{
    if s.len() == 0 {
        seq![Seq::<char>::empty()]
    } else if !alphanumeric(s.last()) {
        words_of(s.drop_last()).push(Seq::<char>::empty())
    } else {
        let p = words_of(s.drop_last());
        p.update(p.len() - 1, p.last().push(s.last()))
    }
}

pub proof fn lemma_words_of_nonempty(s: Seq<char>)
    ensures
        words_of(s).len() >= 1,
    decreases s.len(),
{
    if s.len() > 0 {
        lemma_words_of_nonempty(s.drop_last());
    }
}

/// The words that carry no topic.
pub open spec fn stopwords() -> Seq<Seq<char>> {
    seq![
        seq!['t', 'h', 'e'],
        seq!['a', 'n', 'd'],
        seq!['f', 'o', 'r'],
        seq!['n', 'o', 't'],
        seq!['a', 'r', 'e'],
        seq!['w', 'a', 's'],
        seq!['b', 'u', 't'],
        seq!['i', 't', 's'],
    ]
}

/// A lowercase word that names a topic: at least three bytes of UTF-8, and no
/// stopword.
pub open spec fn significant(w: Seq<char>) -> bool {
    encode_utf8(w).len() >= 3 && !stopwords().contains(w)
}

/// `t` is a significant term of the description `d`: the lowercase form of
/// one of its words, and significant.
pub open spec fn is_term_of(t: Seq<char>, d: Seq<char>) -> bool {
    significant(t) && exists|i: int|
        0 <= i < words_of(d).len() && t == lowercased(#[trigger] words_of(d)[i])
}

/// `r` lists the significant terms of `d`, each once, in order.
pub open spec fn term_list(r: Seq<Seq<char>>, d: Seq<char>) -> bool {
    strictly_sorted(r) && forall|t: Seq<char>| r.contains(t) <==> is_term_of(t, d)
}

/// The significant terms of the description `d`, each once, in order.
pub open spec fn terms_of(d: Seq<char>) -> Seq<Seq<char>> {
    choose|r: Seq<Seq<char>>| term_list(r, d)
}

/// The words of `s` where ASCII letters and digits make up the words: the
/// pieces between the other characters, empty pieces included.
pub open spec fn ascii_words_of(s: Seq<char>) -> Seq<Seq<char>>
    decreases s.len(),
{
    if s.len() == 0 {
        seq![Seq::<char>::empty()]
    } else if !ascii_alnum(s.last()) {
        ascii_words_of(s.drop_last()).push(Seq::<char>::empty())
    } else {
        let p = ascii_words_of(s.drop_last());
        p.update(p.len() - 1, p.last().push(s.last()))
    }
}

/// `t` is a significant term of the ASCII description `d`: the ASCII
/// lowercase form of one of its words, and significant.
pub open spec fn is_ascii_term_of(t: Seq<char>, d: Seq<char>) -> bool {
    significant(t) && exists|i: int|
        0 <= i < ascii_words_of(d).len() && t == ascii_lowered(#[trigger] ascii_words_of(d)[i])
}

/// `r` lists the significant terms of the ASCII description `d`, each once,
/// in order.
pub open spec fn ascii_term_list(r: Seq<Seq<char>>, d: Seq<char>) -> bool {
    strictly_sorted(r) && forall|t: Seq<char>| r.contains(t) <==> is_ascii_term_of(t, d)
}

proof fn lemma_ascii_words_nonempty(s: Seq<char>)
    ensures
        ascii_words_of(s).len() >= 1,
    decreases s.len(),
{
    if s.len() > 0 {
        lemma_ascii_words_nonempty(s.drop_last());
    }
}

proof fn lemma_words_are_ascii_words(s: Seq<char>)
    requires
        forall|k: int| 0 <= k < s.len() ==> alphanumeric(#[trigger] s[k]) == ascii_alnum(s[k]),
    ensures
        words_of(s) == ascii_words_of(s),
    decreases s.len(),
{
    if s.len() > 0 {
        let d = s.drop_last();
        assert forall|k: int| 0 <= k < d.len() implies alphanumeric(#[trigger] d[k]) == ascii_alnum(d[k]) by {
            assert(d[k] == s[k]);
        }
        lemma_words_are_ascii_words(d);
        assert(alphanumeric(s[s.len() - 1]) == ascii_alnum(s[s.len() - 1]));
    }
}

proof fn lemma_upper_words(s: Seq<char>)
    ensures
        ascii_words_of(ascii_uppercased(s)).len() == ascii_words_of(s).len(),
        forall|k: int|
            0 <= k < ascii_words_of(s).len() ==> #[trigger] ascii_words_of(ascii_uppercased(s))[k]
                == ascii_uppercased(ascii_words_of(s)[k]),
    decreases s.len(),
{
    let u = ascii_uppercased(s);
    if s.len() > 0 {
        let d = s.drop_last();
        lemma_upper_words(d);
        lemma_ascii_words_nonempty(d);
        assert(u.drop_last() =~= ascii_uppercased(d));
        let c = s.last();
        assert(u.last() == ascii_upper_char(c));
        assert(ascii_alnum(ascii_upper_char(c)) == ascii_alnum(c));
        let p = ascii_words_of(d);
        let q = ascii_words_of(ascii_uppercased(d));
        if ascii_alnum(c) {
            assert(ascii_uppercased(p.last().push(c)) =~= q.last().push(ascii_upper_char(c)));
        } else {
            assert(ascii_uppercased(Seq::<char>::empty()) =~= Seq::<char>::empty());
        }
    } else {
        assert(ascii_uppercased(Seq::<char>::empty()) =~= Seq::<char>::empty());
        assert(u =~= Seq::<char>::empty());
    }
}

proof fn lemma_lower_of_upper(w: Seq<char>)
    ensures
        ascii_lowered(ascii_uppercased(w)) == ascii_lowered(w),
{
    assert(ascii_lowered(ascii_uppercased(w)) =~= ascii_lowered(w));
}

/// Law of the significant terms of ASCII text: they do not depend on the
/// case of its letters, so the terms of a description and of the same
/// description in capitals are the same list.
pub proof fn lemma_terms_ignore_ascii_case(d: Seq<char>, r1: Seq<Seq<char>>, r2: Seq<Seq<char>>)
    requires
        ascii_term_list(r1, d),
        ascii_term_list(r2, ascii_uppercased(d)),
    ensures
        r1 == r2,
{
    lemma_upper_words(d);
    let ud = ascii_uppercased(d);
    assert forall|t: Seq<char>| r1.contains(t) <==> r2.contains(t) by {
        if is_ascii_term_of(t, d) {
            let i = choose|i: int| 0 <= i < ascii_words_of(d).len() && t == ascii_lowered(#[trigger] ascii_words_of(d)[i]);
            lemma_lower_of_upper(ascii_words_of(d)[i]);
            assert(t == ascii_lowered(ascii_words_of(ud)[i]));
        }
        if is_ascii_term_of(t, ud) {
            let i = choose|i: int| 0 <= i < ascii_words_of(ud).len() && t == ascii_lowered(#[trigger] ascii_words_of(ud)[i]);
            lemma_lower_of_upper(ascii_words_of(d)[i]);
            assert(t == ascii_lowered(ascii_words_of(d)[i]));
        }
    }
    lemma_strictly_sorted_unique(r1, r2);
}

/// Uppercasing keeps text ASCII.
pub proof fn lemma_uppercased_is_ascii(d: Seq<char>)
    requires
        is_ascii_text(d),
    ensures
        is_ascii_text(ascii_uppercased(d)),
{
    assert forall|i: int| 0 <= i < ascii_uppercased(d).len() implies is_ascii_char(#[trigger] ascii_uppercased(d)[i]) by {
        assert(is_ascii_char(d[i]));
    }
}

fn is_stopword(w: &[char]) -> (b: bool)
    ensures
        b == stopwords().contains(w@),
{
    let words = vec![
        vec!['t', 'h', 'e'],
        vec!['a', 'n', 'd'],
        vec!['f', 'o', 'r'],
        vec!['n', 'o', 't'],
        vec!['a', 'r', 'e'],
        vec!['w', 'a', 's'],
        vec!['b', 'u', 't'],
        vec!['i', 't', 's'],
    ];
    assert(segs_view(words@) =~= stopwords());
    let mut i: usize = 0;
    while i < words.len()
        invariant
            i <= words@.len(),
            segs_view(words@) == stopwords(),
            forall|k: int| 0 <= k < i ==> stopwords()[k] != w@,
        decreases words@.len() - i,
    {
        if chars_eq(words[i].as_slice(), w) {
            assert(stopwords()[i as int] == w@);
            return true;
        }
        i = i + 1;
    }
    false
}

/// `x` is the lowercase form of one of the first `n` words of `ws`.
pub open spec fn lowered_among(ws: Seq<Seq<char>>, n: int, x: Seq<char>) -> bool {
    exists|k: int| 0 <= k < n && x == lowercased(#[trigger] ws[k])
}

/// Adds the lowercase form of `word` to `terms` where it is significant.
fn add_term(terms: &mut Vec<String>, word: &[char])
    requires
        strictly_sorted(views_of(old(terms)@)),
    ensures
        strictly_sorted(views_of(final(terms)@)),
        forall|x: Seq<char>|
            #[trigger] views_of(final(terms)@).contains(x) <==> (views_of(old(terms)@).contains(x) || (
            x == lowercased(word@) && significant(x))),
        is_ascii_text(word@) ==> lowercased(word@) == ascii_lowered(word@),
{
    let w = string_of(word);
    let lower = to_lowercase(w.as_str());
    let lc = chars_of(lower.as_str());
    if at_least_three_bytes(lc.as_slice()) && !is_stopword(lc.as_slice()) {
        insert_sorted_unique(terms, lower);
    }
}

/// The significant terms of a description: its words, lowercased, without
/// those under three bytes and the stopwords, sorted, each once.
pub fn extract_significant_terms(description: &str) -> (r: Vec<String>)
    ensures
        term_list(views_of(r@), description@),
        views_of(r@) == terms_of(description@),
        is_ascii_text(description@) ==> ascii_term_list(views_of(r@), description@),
{
    let cs = chars_of(description);
    let mut terms: Vec<String> = Vec::new();
    let mut word: Vec<char> = Vec::new();
    let mut i: usize = 0;
    assert(words_of(cs@.subrange(0, 0)) =~= seq![Seq::<char>::empty()]);
    while i < cs.len()
        invariant
            i <= cs@.len(),
            cs@ == description@,
            strictly_sorted(views_of(terms@)),
            words_of(cs@.subrange(0, i as int)).last() == word@,
            words_of(cs@.subrange(0, i as int)).len() >= 1,
            forall|x: Seq<char>|
                #[trigger] views_of(terms@).contains(x) <==> (significant(x) && lowered_among(
                    words_of(cs@.subrange(0, i as int)),
                    words_of(cs@.subrange(0, i as int)).len() - 1,
                    x,
                )),
            is_ascii_text(cs@) ==> forall|k: int|
                0 <= k < i ==> alphanumeric(#[trigger] cs@[k]) == ascii_alnum(cs@[k]),
            is_ascii_text(cs@) ==> forall|k: int|
                0 <= k < words_of(cs@.subrange(0, i as int)).len() - 1 ==> lowercased(
                    #[trigger] words_of(cs@.subrange(0, i as int))[k],
                ) == ascii_lowered(words_of(cs@.subrange(0, i as int))[k]),
            is_ascii_text(cs@) ==> is_ascii_text(word@),
        decreases cs@.len() - i,
    {
        let ghost pre = cs@.subrange(0, i as int);
        let ghost wp = words_of(pre);
        let c = cs[i];
        assert(cs@.subrange(0, i + 1).drop_last() =~= pre);
        assert(cs@.subrange(0, i + 1).last() == c);
        let ghost word_before = word@;
        if is_alphanumeric(c) {
            word.push(c);
            proof {
                let wn = words_of(cs@.subrange(0, i + 1));
                assert(wn == wp.update(wp.len() - 1, wp.last().push(c)));
                if is_ascii_text(cs@) {
                    assert(is_ascii_char(cs@[i as int]));
                    assert forall|k: int| 0 <= k < word@.len() implies is_ascii_char(#[trigger] word@[k]) by {
                        if k < word_before.len() {
                            assert(word@[k] == word_before[k]);
                        }
                    }
                    assert forall|k: int| 0 <= k < wn.len() - 1 implies lowercased(#[trigger] wn[k])
                        == ascii_lowered(wn[k]) by {
                        assert(wn[k] == wp[k]);
                    }
                }
                assert forall|x: Seq<char>|
                    #[trigger] lowered_among(wp, wp.len() - 1, x) <==> lowered_among(
                        wn,
                        wn.len() - 1,
                        x,
                    ) by {
                    if lowered_among(wp, wp.len() - 1, x) {
                        let k = choose|k: int| 0 <= k < wp.len() - 1 && x == lowercased(#[trigger] wp[k]);
                        assert(wn[k] == wp[k]);
                    }
                    if lowered_among(wn, wn.len() - 1, x) {
                        let k = choose|k: int| 0 <= k < wn.len() - 1 && x == lowercased(#[trigger] wn[k]);
                        assert(wn[k] == wp[k]);
                    }
                }
            }
        } else {
            let ghost before = views_of(terms@);
            add_term(&mut terms, word.as_slice());
            proof {
                let wn = words_of(cs@.subrange(0, i + 1));
                assert(wn == wp.push(Seq::<char>::empty()));
                if is_ascii_text(cs@) {
                    assert(is_ascii_char(cs@[i as int]));
                    assert forall|k: int| 0 <= k < wn.len() - 1 implies lowercased(#[trigger] wn[k])
                        == ascii_lowered(wn[k]) by {
                        assert(wn[k] == wp[k]);
                    }
                    assert(is_ascii_text(Seq::<char>::empty()));
                }
                assert forall|x: Seq<char>|
                    views_of(terms@).contains(x) <==> (significant(x) && lowered_among(
                        wn,
                        wn.len() - 1,
                        x,
                    )) by {
                    if views_of(terms@).contains(x) {
                        if before.contains(x) {
                            assert(lowered_among(wp, wp.len() - 1, x));
                            let k = choose|k: int| 0 <= k < wp.len() - 1 && x == lowercased(#[trigger] wp[k]);
                            assert(wn[k] == wp[k]);
                        } else {
                            assert(wn[wp.len() - 1] == word@);
                        }
                    }
                    if significant(x) && lowered_among(wn, wn.len() - 1, x) {
                        let k = choose|k: int| 0 <= k < wn.len() - 1 && x == lowercased(#[trigger] wn[k]);
                        if k < wp.len() - 1 {
                            assert(wn[k] == wp[k]);
                        } else {
                            assert(wn[k] == word@);
                        }
                    }
                }
            }
            word = Vec::new();
        }
        proof {
            if is_ascii_text(cs@) {
                assert(alphanumeric(cs@[i as int]) == ascii_alnum(cs@[i as int]));
            }
        }
        i = i + 1;
    }
    assert(cs@.subrange(0, cs@.len() as int) =~= cs@);
    let ghost before = views_of(terms@);
    add_term(&mut terms, word.as_slice());
    proof {
        let wd = words_of(description@);
        assert forall|t: Seq<char>| views_of(terms@).contains(t) <==> is_term_of(t, description@) by {
            if views_of(terms@).contains(t) {
                if before.contains(t) {
                    assert(lowered_among(wd, wd.len() - 1, t));
                    let k = choose|k: int| 0 <= k < wd.len() - 1 && t == lowercased(#[trigger] wd[k]);
                    assert(0 <= k < wd.len() && t == lowercased(wd[k]));
                } else {
                    assert(t == lowercased(word@));
                    assert(wd[wd.len() - 1] == word@);
                }
            }
            if is_term_of(t, description@) {
                let k = choose|k: int| 0 <= k < wd.len() && t == lowercased(#[trigger] wd[k]);
                if k < wd.len() - 1 {
                    assert(lowered_among(wd, wd.len() - 1, t));
                } else {
                    assert(t == lowercased(word@));
                }
            }
        }
        lemma_terms_of(views_of(terms@), description@);
        if is_ascii_text(description@) {
            lemma_words_are_ascii_words(description@);
            assert forall|k: int| 0 <= k < wd.len() implies lowercased(#[trigger] wd[k]) == ascii_lowered(
                wd[k],
            ) by {
                if k == wd.len() - 1 {
                    assert(wd[k] == word@);
                }
            }
            assert forall|t: Seq<char>| views_of(terms@).contains(t) <==> is_ascii_term_of(t, description@) by {
                if is_term_of(t, description@) {
                    let k = choose|k: int| 0 <= k < wd.len() && t == lowercased(#[trigger] wd[k]);
                    assert(t == ascii_lowered(ascii_words_of(description@)[k]));
                }
                if is_ascii_term_of(t, description@) {
                    let k = choose|k: int|
                        0 <= k < ascii_words_of(description@).len() && t == ascii_lowered(
                            #[trigger] ascii_words_of(description@)[k],
                        );
                    assert(t == lowercased(wd[k]));
                }
            }
        }
    }
    terms
}

/// A list of the significant terms is the list of them.
pub proof fn lemma_terms_of(r: Seq<Seq<char>>, d: Seq<char>)
    requires
        term_list(r, d),
    ensures
        terms_of(d) == r,
{
    let c = terms_of(d);
    assert(term_list(c, d));
    lemma_strictly_sorted_unique(c, r);
}

/// A note of the repository: its path relative to the repository root and its
/// text.
pub struct MemoryFile {
    pub path: String,
    pub content: String,
}

impl Keyed for MemoryFile {
    open spec fn key(&self) -> Seq<char> {
        self.path@
    }

    fn key_str(&self) -> (r: &str) {
        self.path.as_str()
    }
}

/// A note as the repository lists it: its path and its description.
pub struct ContextEntry {
    pub path: String,
    pub description: String,
}

/// The size of the repository.
pub struct RepoStats {
    pub file_count: usize,
    pub total_size_kb: u64,
}

/// The paths of a list of notes.
pub open spec fn paths_of(files: Seq<MemoryFile>) -> Seq<Seq<char>> {
    Seq::new(files.len(), |i: int| files[i].path@)
}

/// The significant description terms of each of a list of notes.
pub open spec fn terms_of_files(files: Seq<MemoryFile>) -> Seq<Seq<Seq<char>>> {
    Seq::new(files.len(), |i: int| terms_of(description_of(files[i].content@)))
}

/// The lowercased text of each of a list of notes.
pub open spec fn lowered_of(files: Seq<MemoryFile>) -> Seq<Seq<char>> {
    Seq::new(files.len(), |i: int| lowercased(files[i].content@))
}

/// The number of lines of each of a list of notes.
pub open spec fn line_counts_of(files: Seq<MemoryFile>) -> Seq<int> {
    Seq::new(files.len(), |i: int| lines_of(files[i].content@).len() as int)
}

/// The lines from index `k` on whose lowercase form holds `q`, each with the
/// note's path and its line number (from 1).
pub open spec fn line_hits(path: Seq<char>, lines: Seq<Seq<char>>, q: Seq<char>, k: int) -> Seq<
    (Seq<char>, int, Seq<char>),
>
    decreases lines.len() - k,
{
    if k < 0 || k >= lines.len() {
        seq![]
    } else if contains_seq(lowercased(lines[k]), q) {
        seq![(path, k + 1, lines[k])] + line_hits(path, lines, q, k + 1)
    } else {
        line_hits(path, lines, q, k + 1)
    }
}

/// The matching lines of the notes from index `i` on, note by note.
pub open spec fn file_hits(files: Seq<MemoryFile>, q: Seq<char>, i: int) -> Seq<
    (Seq<char>, int, Seq<char>),
>
    decreases files.len() - i,
{
    if i < 0 || i >= files.len() {
        seq![]
    } else {
        line_hits(files[i].path@, lines_of(files[i].content@), q, 0) + file_hits(files, q, i + 1)
    }
}

/// The lines of a note, each with the note's path and its number from 1.
pub open spec fn numbered_lines(path: Seq<char>, lines: Seq<Seq<char>>) -> Seq<(Seq<char>, int, Seq<char>)> {
    Seq::new(lines.len(), |k: int| (path, k + 1, lines[k]))
}

/// Every line of every note, note after note in the order of `files`.
pub open spec fn all_numbered_lines(files: Seq<MemoryFile>) -> Seq<(Seq<char>, int, Seq<char>)> {
    Seq::new(files.len(), |i: int| numbered_lines(files[i].path@, lines_of(files[i].content@))).flatten()
}

/// The numbered line holds the query `q` in its lowercase form.
pub open spec fn line_holds(q: Seq<char>) -> spec_fn((Seq<char>, int, Seq<char>)) -> bool {
    |h: (Seq<char>, int, Seq<char>)| contains_seq(lowercased(h.2), q)
}

proof fn lemma_line_hits_filter(path: Seq<char>, lines: Seq<Seq<char>>, q: Seq<char>, k: int)
    requires
        0 <= k <= lines.len(),
    ensures
        line_hits(path, lines, q, k) == numbered_lines(path, lines).subrange(k, lines.len() as int).filter(
            line_holds(q),
        ),
    decreases lines.len() - k,
{
    let nl = numbered_lines(path, lines);
    if k == lines.len() {
        assert(nl.subrange(k, lines.len() as int) =~= Seq::<(Seq<char>, int, Seq<char>)>::empty());
        assert(Seq::<(Seq<char>, int, Seq<char>)>::empty().filter(line_holds(q)) =~= Seq::<
            (Seq<char>, int, Seq<char>),
        >::empty());
    } else {
        lemma_line_hits_filter(path, lines, q, k + 1);
        let rest = nl.subrange(k + 1, lines.len() as int);
        assert(nl.subrange(k, lines.len() as int) =~= seq![nl[k]] + rest);
        rest.lemma_filter_prepend(nl[k], line_holds(q));
        assert(nl[k] == (path, k + 1, lines[k]));
        if contains_seq(lowercased(lines[k]), q) {
            assert(line_holds(q)(nl[k]));
        } else {
            assert(!line_holds(q)(nl[k]));
            assert(Seq::<(Seq<char>, int, Seq<char>)>::empty() + rest.filter(line_holds(q)) =~= rest.filter(
                line_holds(q),
            ));
        }
    }
}

proof fn lemma_file_hits_filter(files: Seq<MemoryFile>, q: Seq<char>, i: int)
    requires
        0 <= i <= files.len(),
    ensures
        file_hits(files, q, i) == Seq::new(
            files.len(),
            |n: int| numbered_lines(files[n].path@, lines_of(files[n].content@)),
        ).subrange(i, files.len() as int).flatten().filter(line_holds(q)),
    decreases files.len() - i,
{
    let all = Seq::new(files.len(), |n: int| numbered_lines(files[n].path@, lines_of(files[n].content@)));
    let sub = all.subrange(i, files.len() as int);
    if i == files.len() {
        assert(sub =~= Seq::<Seq<(Seq<char>, int, Seq<char>)>>::empty());
        assert(sub.flatten() =~= Seq::<(Seq<char>, int, Seq<char>)>::empty());
        assert(sub.flatten().filter(line_holds(q)) =~= Seq::<(Seq<char>, int, Seq<char>)>::empty());
    } else {
        lemma_file_hits_filter(files, q, i + 1);
        let lines = lines_of(files[i].content@);
        lemma_line_hits_filter(files[i].path@, lines, q, 0);
        let nl = numbered_lines(files[i].path@, lines);
        assert(nl.subrange(0, lines.len() as int) =~= nl);
        assert(sub.first() == nl);
        assert(sub.drop_first() =~= all.subrange(i + 1, files.len() as int));
        assert(sub.flatten() == nl + all.subrange(i + 1, files.len() as int).flatten());
        Seq::filter_distributes_over_add(nl, all.subrange(i + 1, files.len() as int).flatten(), line_holds(q));
    }
}

/// Law of search: the hits are exactly the lines of all the notes, note
/// after note in path order and line after line, that hold the query in
/// their lowercase form, each with its note's path and its number from 1.
pub proof fn lemma_search_hits_every_matching_line(files: Seq<MemoryFile>, q: Seq<char>)
    ensures
        file_hits(files, q, 0) == all_numbered_lines(files).filter(line_holds(q)),
        forall|i: int, k: int|
            0 <= i < files.len() && 0 <= k < lines_of(files[i].content@).len() && contains_seq(
                lowercased(#[trigger] lines_of(files[i].content@)[k]),
                q,
            ) ==> file_hits(files, q, 0).contains((files[i].path@, k + 1, lines_of(files[i].content@)[k])),
{
    lemma_file_hits_filter(files, q, 0);
    let all = Seq::new(files.len(), |n: int| numbered_lines(files[n].path@, lines_of(files[n].content@)));
    assert(all.subrange(0, files.len() as int) =~= all);
    assert forall|i: int, k: int|
        0 <= i < files.len() && 0 <= k < lines_of(files[i].content@).len() && contains_seq(
            lowercased(#[trigger] lines_of(files[i].content@)[k]),
            q,
        ) implies file_hits(files, q, 0).contains((files[i].path@, k + 1, lines_of(files[i].content@)[k])) by {
        let h = (files[i].path@, k + 1, lines_of(files[i].content@)[k]);
        assert(all[i][k] == h);
        lemma_flatten_holds(all, i, k);
        let flat = all.flatten();
        let p = choose|p: int| 0 <= p < flat.len() && flat[p] == h;
        assert(line_holds(q)(h));
        flat.lemma_filter_contains(line_holds(q), p);
    }
}

proof fn lemma_flatten_holds<A>(s: Seq<Seq<A>>, i: int, k: int)
    requires
        0 <= i < s.len(),
        0 <= k < s[i].len(),
    ensures
        s.flatten().contains(s[i][k]),
    decreases s.len(),
{
    assert(s.flatten() == s.first() + s.drop_first().flatten());
    if i == 0 {
        assert(s.flatten()[k] == s[0][k]);
    } else {
        lemma_flatten_holds(s.drop_first(), i - 1, k);
        let t = s.drop_first().flatten();
        let p = choose|p: int| 0 <= p < t.len() && t[p] == s[i][k];
        assert(s.flatten()[s.first().len() + p] == s[i][k]);
    }
}

/// Search results as mathematical values.
pub open spec fn hit_views(v: Seq<(String, usize, String)>) -> Seq<(Seq<char>, int, Seq<char>)> {
    Seq::new(v.len(), |i: int| (v[i].0@, v[i].1 as int, v[i].2@))
}

/// Some note other than `rel_path` holds, in its lowercase form, one of the
/// terms.
pub open spec fn topics_covered(files: Seq<MemoryFile>, rel_path: Seq<char>, terms: Seq<Seq<char>>) -> bool {
    exists|i: int, k: int|
        0 <= i < files.len() && 0 <= k < terms.len() && files[i].path@ != rel_path && contains_seq(
            lowercased(#[trigger] files[i].content@),
            #[trigger] terms[k],
        )
}

/// The message of the error that refuses to delete a note.
pub open spec fn delete_refusal(rel_path: Seq<char>, terms: Seq<Seq<char>>) -> Seq<char> {
    "cannot delete '"@ + rel_path + "': no other file covers its topics (description terms: "@
        + joined_by(terms, ", "@) + ")"@
}

/// The sum of the sizes.
pub open spec fn total_of(sizes: Seq<u64>) -> int
    decreases sizes.len(),
{
    if sizes.len() == 0 {
        0
    } else {
        total_of(sizes.drop_last()) + sizes.last()
    }
}

/// The path of a note: it ends in `.md`.
pub open spec fn is_note_path(p: Seq<char>) -> bool {
    ends_with_seq(p, ".md"@)
}

/// The first element of `s`, where it has one.
pub open spec fn first_only<T>(s: Seq<T>) -> Seq<T> {
    if s.len() == 0 {
        seq![]
    } else {
        seq![s[0]]
    }
}

/// The note that a repository made of `files` holds at the path `p`: the
/// first of the files given with that path, where `p` is a note's path.
pub open spec fn kept_at(files: Seq<MemoryFile>, p: Seq<char>) -> Seq<MemoryFile> {
    if is_note_path(p) {
        first_only(keyed_with(files, p))
    } else {
        seq![]
    }
}

/// The paths of the files are strictly increasing, so no path occurs twice.
pub open spec fn strictly_by_path(s: Seq<MemoryFile>) -> bool {
    forall|i: int, j: int| 0 <= i < j < s.len() ==> lex_lt(#[trigger] s[i].path@, #[trigger] s[j].path@)
}

/// Every file of `s` has a note's path.
pub open spec fn all_notes(s: Seq<MemoryFile>) -> bool {
    forall|i: int| 0 <= i < s.len() ==> is_note_path(#[trigger] s[i].path@)
}

/// The notes of an agent's context repository, sorted by path.
pub struct ContextRepository {
    root: String,
    agent_name: String,
    files: Vec<MemoryFile>,
}

impl ContextRepository {
    #[verifier::type_invariant]
    spec fn files_sorted(self) -> bool {
        &&& sorted_by_key(self.files@)
        &&& strictly_by_path(self.files@)
        &&& all_notes(self.files@)
    }

    /// The notes, sorted by path.
    pub closed spec fn files_view(&self) -> Seq<MemoryFile> {
        self.files@
    }

    /// The directory of the repository.
    pub closed spec fn root_dir(&self) -> Seq<char> {
        self.root@
    }

    /// The name under which the agent commits.
    pub closed spec fn agent(&self) -> Seq<char> {
        self.agent_name@
    }

    /// The repository at `root` of the agent `agent_name`, holding the notes
    /// among `files`: those with a `.md` path, sorted by path, and of files
    /// given with the same path the first.
    pub fn new(root: String, agent_name: String, files: Vec<MemoryFile>) -> (r: Self)
        ensures
            r.root_dir() == root@,
            r.agent() == agent_name@,
            sorted_by_key(r.files_view()),
            strictly_by_path(r.files_view()),
            all_notes(r.files_view()),
            forall|path: Seq<char>| #[trigger] keyed_with(r.files_view(), path) == kept_at(files@, path),
    {
        let ghost input = files@;
        let mut sorted = files;
        sort_by_key(&mut sorted);
        let ghost sv = sorted@;
        let md = chars_of(".md");
        let mut out: Vec<MemoryFile> = Vec::new();
        let mut i: usize = 0;
        proof {
            assert forall|p: Seq<char>| #[trigger] keyed_with(out@, p) == kept_at(sv.subrange(0, 0), p) by {
                assert(sv.subrange(0, 0) =~= Seq::<MemoryFile>::empty());
                assert(keyed_with(Seq::<MemoryFile>::empty(), p) =~= Seq::<MemoryFile>::empty());
                assert(keyed_with(out@, p) =~= Seq::<MemoryFile>::empty());
            }
        }
        while i < sorted.len()
            invariant
                i <= sv.len(),
                sv == sorted@,
                md@ == ".md"@,
                sorted_by_key(sv),
                strictly_by_path(out@),
                all_notes(out@),
                forall|k: int, j: int|
                    0 <= k < out@.len() && i <= j < sv.len() ==> lex_le(#[trigger] out@[k].path@, #[trigger] sv[j].path@),
                out@.len() > 0 ==> forall|m: int|
                    0 <= m < i && is_note_path(#[trigger] sv[m].path@) ==> lex_le(sv[m].path@, out@.last().path@),
                out@.len() == 0 ==> forall|m: int| 0 <= m < i ==> !is_note_path(#[trigger] sv[m].path@),
                forall|p: Seq<char>| #[trigger] keyed_with(out@, p) == kept_at(sv.subrange(0, i as int), p),
            decreases sv.len() - i,
        {
            let x = &sorted[i];
            let ghost kx = x.path@;
            let ghost pre = sv.subrange(0, i as int);
            assert(sv.subrange(0, i + 1) =~= pre.push(sv[i as int]));
            assert forall|p: Seq<char>| #[trigger] keyed_with(sv.subrange(0, i + 1), p) == keyed_with(pre, p)
                + (if kx == p { seq![sv[i as int]] } else { seq![] }) by {
                pre.lemma_filter_push(sv[i as int], has_key::<MemoryFile>(p));
                if kx == p {
                    assert(keyed_with(pre, p).push(sv[i as int]) =~= keyed_with(pre, p) + seq![sv[i as int]]);
                } else {
                    assert(keyed_with(pre, p) =~= keyed_with(pre, p) + Seq::<MemoryFile>::empty());
                }
            }
            let pc = chars_of(x.path.as_str());
            let note = ends_with(pc.as_slice(), md.as_slice());
            let fresh = out.len() == 0 || !str_eq(out[out.len() - 1].path.as_str(), x.path.as_str());
            if note && fresh {
                proof {
                    if keyed_with(pre, kx).len() > 0 {
                        pre.lemma_filter_pred(has_key::<MemoryFile>(kx), 0);
                        let f = keyed_with(pre, kx)[0];
                        assert(keyed_with(pre, kx).contains(f));
                        pre.lemma_filter_contains_rev(has_key::<MemoryFile>(kx), f);
                        let m = choose|m: int| 0 <= m < pre.len() && pre[m] == f;
                        assert(sv[m] == f);
                        assert(is_note_path(sv[m].path@));
                        if out@.len() > 0 {
                            assert(lex_le(out@.last().path@, sv[i as int].path@));
                            lemma_lex_le_antisymmetric(out@.last().path@, kx);
                        }
                    }
                    assert(keyed_with(out@, kx) =~= Seq::<MemoryFile>::empty());
                }
                let ghost old_out = out@;
                let y = MemoryFile { path: x.path.clone(), content: x.content.clone() };
                assert(y == sv[i as int]);
                out.push(y);
                proof {
                    assert forall|p: Seq<char>| #[trigger] keyed_with(out@, p) == kept_at(
                        sv.subrange(0, i + 1),
                        p,
                    ) by {
                        old_out.lemma_filter_push(sv[i as int], has_key::<MemoryFile>(p));
                        assert(out@ == old_out.push(sv[i as int]));
                        assert(is_note_path(kx));
                        if p == kx {
                            assert(keyed_with(pre, kx) + seq![sv[i as int]] =~= seq![sv[i as int]]);
                            assert(keyed_with(old_out, p).push(sv[i as int]) =~= seq![sv[i as int]]);
                            assert(first_only(seq![sv[i as int]]) =~= seq![sv[i as int]]);
                            assert(keyed_with(sv.subrange(0, i + 1), p) == keyed_with(pre, p) + seq![sv[i as int]]);
                            assert(keyed_with(out@, p) == seq![sv[i as int]]);
                            assert(kept_at(sv.subrange(0, i + 1), p) == seq![sv[i as int]]);
                        } else {
                            assert(keyed_with(pre, p) + Seq::<MemoryFile>::empty() =~= keyed_with(pre, p));
                            assert(keyed_with(sv.subrange(0, i + 1), p) == keyed_with(pre, p));
                            assert(keyed_with(out@, p) == keyed_with(old_out, p));
                            assert(kept_at(sv.subrange(0, i + 1), p) == kept_at(pre, p));
                        }
                    }
                    assert forall|a: int, b: int| 0 <= a < b < out@.len() implies lex_lt(
                        #[trigger] out@[a].path@,
                        #[trigger] out@[b].path@,
                    ) by {
                        if b == out@.len() - 1 {
                            assert(lex_le(old_out[a].path@, sv[i as int].path@));
                            if old_out[a].path@ == kx {
                                assert(has_key::<MemoryFile>(kx)(old_out[a]));
                                old_out.lemma_filter_contains(has_key::<MemoryFile>(kx), a);
                                assert(keyed_with(old_out, kx).len() > 0);
                            }
                        } else {
                            assert(out@[a] == old_out[a]);
                            assert(out@[b] == old_out[b]);
                        }
                    }
                    assert forall|k: int, j: int|
                        0 <= k < out@.len() && i + 1 <= j < sv.len() implies lex_le(
                        #[trigger] out@[k].path@,
                        #[trigger] sv[j].path@,
                    ) by {
                        if k == out@.len() - 1 {
                            assert(lex_le(sv[i as int].key(), sv[j].key()));
                        } else {
                            assert(out@[k] == old_out[k]);
                        }
                    }
                    assert forall|m: int| 0 <= m < i + 1 && is_note_path(#[trigger] sv[m].path@) implies lex_le(
                        sv[m].path@,
                        out@.last().path@,
                    ) by {
                        if m == i {
                            lemma_lex_le_reflexive(kx);
                        } else {
                            assert(lex_le(sv[m].key(), sv[i as int].key()));
                        }
                    }
                }
            } else {
                proof {
                    if note {
                        let last = out@.last();
                        assert(last.path@ == kx);
                        assert(has_key::<MemoryFile>(kx)(out@[out@.len() - 1]));
                        out@.lemma_filter_contains(has_key::<MemoryFile>(kx), out@.len() - 1);
                        assert(keyed_with(out@, kx).len() > 0);
                        assert(keyed_with(pre, kx).len() > 0);
                        assert(first_only(keyed_with(pre, kx) + seq![sv[i as int]]) =~= first_only(
                            keyed_with(pre, kx),
                        ));
                        lemma_lex_le_reflexive(kx);
                    }
                    assert forall|p: Seq<char>| #[trigger] keyed_with(out@, p) == kept_at(
                        sv.subrange(0, i + 1),
                        p,
                    ) by {
                        if p == kx && note {
                            assert(first_only(keyed_with(pre, kx) + seq![sv[i as int]]) =~= first_only(
                                keyed_with(pre, kx),
                            ));
                        }
                        if p != kx {
                            assert(keyed_with(pre, p) + Seq::<MemoryFile>::empty() =~= keyed_with(pre, p));
                        }
                    }
                }
            }
            i = i + 1;
        }
        proof {
            assert(sv.subrange(0, sv.len() as int) =~= sv);
            assert forall|a: int, b: int| 0 <= a < b < out@.len() implies lex_le(
                #[trigger] out@[a].key(),
                #[trigger] out@[b].key(),
            ) by {
                assert(lex_lt(out@[a].path@, out@[b].path@));
            }
            assert forall|p: Seq<char>| #[trigger] keyed_with(out@, p) == kept_at(input, p) by {
                assert(keyed_with(sv, p) == keyed_with(input, p));
            }
        }
        ContextRepository { root, agent_name, files: out }
    }

    /// The directory of the repository.
    pub fn root(&self) -> (r: &str)
        ensures
            r@ == self.root_dir(),
    {
        self.root.as_str()
    }

    /// The name under which the agent commits.
    pub fn agent_name(&self) -> (r: &str)
        ensures
            r@ == self.agent(),
    {
        self.agent_name.as_str()
    }

    /// The notes: each path with the description from its front matter,
    /// sorted by path.
    pub fn list(&self) -> (r: Vec<ContextEntry>)
        ensures
            r@.len() == self.files_view().len(),
            forall|i: int|
                0 <= i < r@.len() ==> (#[trigger] r@[i]).path@ == self.files_view()[i].path@
                    && r@[i].description@ == description_of(self.files_view()[i].content@),
            forall|i: int, j: int|
                0 <= i < j < r@.len() ==> lex_lt(#[trigger] r@[i].path@, #[trigger] r@[j].path@),
            forall|i: int| 0 <= i < r@.len() ==> is_note_path(#[trigger] r@[i].path@),
    {
        proof {
            use_type_invariant(self);
        }
        let mut out: Vec<ContextEntry> = Vec::new();
        let mut i: usize = 0;
        while i < self.files.len()
            invariant
                i <= self.files@.len(),
                out@.len() == i,
                forall|k: int|
                    0 <= k < i ==> (#[trigger] out@[k]).path@ == self.files@[k].path@
                        && out@[k].description@ == description_of(self.files@[k].content@),
            decreases self.files@.len() - i,
        {
            let f = &self.files[i];
            let description = extract_frontmatter_description(f.content.as_str());
            out.push(ContextEntry { path: f.path.clone(), description });
            i = i + 1;
        }
        proof {
            assert forall|a: int, b: int| 0 <= a < b < out@.len() implies lex_lt(
                #[trigger] out@[a].path@,
                #[trigger] out@[b].path@,
            ) by {
                assert(lex_lt(self.files@[a].path@, self.files@[b].path@));
            }
            assert forall|a: int| 0 <= a < out@.len() implies is_note_path(#[trigger] out@[a].path@) by {
                assert(is_note_path(self.files@[a].path@));
            }
        }
        out
    }

    /// The lines of the notes whose lowercase form holds the lowercase form
    /// of `query`: each with the note's path and its line number, from 1.
    pub fn search(&self, query: &str) -> (r: Vec<(String, usize, String)>)
        ensures
            hit_views(r@) == file_hits(self.files_view(), lowercased(query@), 0),
    {
        let ghost fv = self.files@;
        let q = to_lowercase(query);
        let qc = chars_of(q.as_str());
        let mut out: Vec<(String, usize, String)> = Vec::new();
        let mut i: usize = 0;
        while i < self.files.len()
            invariant
                i <= self.files@.len(),
                fv == self.files@,
                qc@ == lowercased(query@),
                hit_views(out@) + file_hits(fv, qc@, i as int) == file_hits(fv, qc@, 0),
            decreases self.files@.len() - i,
        {
            let f = &self.files[i];
            let cs = chars_of(f.content.as_str());
            let lines = lines_exec(cs.as_slice());
            let ghost lv = segs_view(lines@);
            let ghost file_start = hit_views(out@);
            let mut k: usize = 0;
            while k < lines.len()
                invariant
                    k <= lines@.len(),
                    lv == segs_view(lines@),
                    lv == lines_of(f.content@),
                    qc@ == lowercased(query@),
                    hit_views(out@) + line_hits(f.path@, lv, qc@, k as int) == file_start + line_hits(
                        f.path@,
                        lv,
                        qc@,
                        0,
                    ),
                decreases lines@.len() - k,
            {
                let ghost before = hit_views(out@);
                let line = string_of(lines[k].as_slice());
                let lower = to_lowercase(line.as_str());
                let lc = chars_of(lower.as_str());
                assert(line@ == lv[k as int]);
                if contains(lc.as_slice(), qc.as_slice()) {
                    let ghost lineview = line@;
                    out.push((f.path.clone(), k + 1, line));
                    assert(hit_views(out@) =~= before.push((f.path@, k + 1, lineview)));
                    assert(hit_views(out@) + line_hits(f.path@, lv, qc@, k + 1) =~= before + line_hits(
                        f.path@,
                        lv,
                        qc@,
                        k as int,
                    ));
                }
                k = k + 1;
            }
            assert(hit_views(out@) + file_hits(fv, qc@, i + 1) =~= file_start + file_hits(
                fv,
                qc@,
                i as int,
            ));
            i = i + 1;
        }
        assert(hit_views(out@) =~= hit_views(out@) + file_hits(fv, qc@, i as int));
        out
    }

    /// The health report of the repository (see `analyze_files`), over the
    /// notes in path order: each note's path, the significant terms of its
    /// description, its lowercased text and its number of lines.
    pub fn analyze(&self) -> (r: DefragReport)
        ensures
            report_matches(
                r,
                paths_of(self.files_view()),
                terms_of_files(self.files_view()),
                lowered_of(self.files_view()),
                line_counts_of(self.files_view()),
            ),
    {
        let ghost fv = self.files@;
        let mut paths: Vec<String> = Vec::new();
        let mut terms: Vec<Vec<String>> = Vec::new();
        let mut lowered: Vec<Vec<char>> = Vec::new();
        let mut counts: Vec<usize> = Vec::new();
        let mut i: usize = 0;
        while i < self.files.len()
            invariant
                i <= self.files@.len(),
                fv == self.files@,
                paths@.len() == i,
                terms@.len() == i,
                lowered@.len() == i,
                counts@.len() == i,
                views_of(paths@) == paths_of(fv).subrange(0, i as int),
                term_views(terms@) == terms_of_files(fv).subrange(0, i as int),
                segs_view(lowered@) == lowered_of(fv).subrange(0, i as int),
                counts_view(counts@) == line_counts_of(fv).subrange(0, i as int),
            decreases self.files@.len() - i,
        {
            let f = &self.files[i];
            let description = extract_frontmatter_description(f.content.as_str());
            let t = extract_significant_terms(description.as_str());
            let lower = to_lowercase(f.content.as_str());
            let lc = chars_of(lower.as_str());
            let cs = chars_of(f.content.as_str());
            let lines = lines_exec(cs.as_slice());
            let ghost tview = views_of(t@);
            let ghost lcview = lc@;
            let ghost pview = f.path@;
            let ghost pv0 = views_of(paths@);
            let ghost tv0 = term_views(terms@);
            let ghost lv0 = segs_view(lowered@);
            let ghost cv0 = counts_view(counts@);
            paths.push(f.path.clone());
            terms.push(t);
            lowered.push(lc);
            counts.push(lines.len());
            assert(segs_view(lines@).len() == lines@.len());
            assert(views_of(paths@) =~= pv0.push(pview));
            assert(term_views(terms@) =~= tv0.push(tview));
            assert(segs_view(lowered@) =~= lv0.push(lcview));
            assert(counts_view(counts@) =~= cv0.push(lines@.len() as int));
            i = i + 1;
            assert(views_of(paths@) =~= paths_of(fv).subrange(0, i as int));
            assert(term_views(terms@) =~= terms_of_files(fv).subrange(0, i as int));
            assert(segs_view(lowered@) =~= lowered_of(fv).subrange(0, i as int));
            assert(counts_view(counts@) =~= line_counts_of(fv).subrange(0, i as int));
        }
        assert(paths_of(fv).subrange(0, i as int) =~= paths_of(fv));
        assert(terms_of_files(fv).subrange(0, i as int) =~= terms_of_files(fv));
        assert(lowered_of(fv).subrange(0, i as int) =~= lowered_of(fv));
        assert(line_counts_of(fv).subrange(0, i as int) =~= line_counts_of(fv));
        analyze_files(&paths, &terms, &lowered, &counts)
    }

    /// Whether the note at `rel_path`, whose text is `content`, may be
    /// deleted: where its description has significant terms, some other note
    /// must hold one of them, else the deletion is refused.
    pub fn check_delete(&self, rel_path: &str, content: &str) -> (r: Result<(), OrgaError>)
        ensures
            ({
                let terms = terms_of(description_of(content@));
                match r {
                    Ok(()) => terms.len() == 0 || topics_covered(self.files_view(), rel_path@, terms),
                    Err(e) => terms.len() > 0 && !topics_covered(self.files_view(), rel_path@, terms)
                        && is_backend_error(e, delete_refusal(rel_path@, terms)),
                }
            }),
    {
        let ghost fv = self.files@;
        let description = extract_frontmatter_description(content);
        let terms = extract_significant_terms(description.as_str());
        let ghost tv = views_of(terms@);
        if terms.len() == 0 {
            return Ok(());
        }
        let rp = chars_of(rel_path);
        let mut i: usize = 0;
        while i < self.files.len()
            invariant
                i <= self.files@.len(),
                fv == self.files@,
                rp@ == rel_path@,
                tv == views_of(terms@),
                tv == terms_of(description_of(content@)),
                forall|a: int, k: int|
                    0 <= a < i && 0 <= k < tv.len() && fv[a].path@ != rel_path@ ==> !contains_seq(
                        lowercased(#[trigger] fv[a].content@),
                        #[trigger] tv[k],
                    ),
            decreases self.files@.len() - i,
        {
            let f = &self.files[i];
            let pc = chars_of(f.path.as_str());
            if !chars_eq(pc.as_slice(), rp.as_slice()) {
                assert(fv[i as int].path@ != rel_path@);
                let lower = to_lowercase(f.content.as_str());
                let lc = chars_of(lower.as_str());
                let mut k: usize = 0;
                while k < terms.len()
                    invariant
                        k <= terms@.len(),
                        tv == views_of(terms@),
                        tv == terms_of(description_of(content@)),
                        lc@ == lowercased(fv[i as int].content@),
                        i < fv.len(),
                        fv == self.files@,
                        fv[i as int].path@ != rel_path@,
                        forall|m: int| 0 <= m < k ==> !contains_seq(lc@, #[trigger] tv[m]),
                    decreases terms@.len() - k,
                {
                    let tc = chars_of(terms[k].as_str());
                    if contains(lc.as_slice(), tc.as_slice()) {
                        assert(contains_seq(lowercased(fv[i as int].content@), tv[k as int]));
                        assert(topics_covered(fv, rel_path@, tv));
                        return Ok(());
                    }
                    k = k + 1;
                }
            }
            i = i + 1;
        }
        let mut msg = String::new();
        push_str(&mut msg, "cannot delete '");
        push_str(&mut msg, rel_path);
        push_str(&mut msg, "': no other file covers its topics (description terms: ");
        let joined = join_strings(terms.as_slice(), ", ");
        push_str(&mut msg, joined.as_str());
        push_str(&mut msg, ")");
        Err(OrgaError::BackendError(msg))
    }

    /// The pinned notes: those directly in the `system` folder, in path order,
    /// each with its text.
    pub fn system_files(&self) -> (r: Vec<(String, String)>)
        ensures
            pair_views(r@) == pinned_from(self.files_view(), 0),
            forall|k: int| 0 <= k < r@.len() ==> is_note_path((#[trigger] r@[k]).0@),
    {
        proof {
            use_type_invariant(self);
            lemma_pinned_are_notes(self.files@, 0);
        }
        let ghost fv = self.files@;
        let prefix = chars_of("system/");
        let mut out: Vec<(String, String)> = Vec::new();
        let mut i: usize = 0;
        while i < self.files.len()
            invariant
                i <= self.files@.len(),
                fv == self.files@,
                prefix@ == "system/"@,
                pair_views(out@) + pinned_from(fv, i as int) == pinned_from(fv, 0),
            decreases self.files@.len() - i,
        {
            let f = &self.files[i];
            let pc = chars_of(f.path.as_str());
            let ghost before = pair_views(out@);
            if starts_with(pc.as_slice(), prefix.as_slice()) && !has_char_from(pc.as_slice(), prefix.len(), '/') {
                out.push((f.path.clone(), f.content.clone()));
                assert(pair_views(out@) =~= before.push((fv[i as int].path@, fv[i as int].content@)));
                assert(pair_views(out@) + pinned_from(fv, i + 1) =~= before + pinned_from(fv, i as int));
            }
            i = i + 1;
        }
        assert(pair_views(out@) =~= pair_views(out@) + pinned_from(fv, i as int));
        assert forall|k: int| 0 <= k < out@.len() implies is_note_path((#[trigger] out@[k]).0@) by {
            assert(pair_views(out@)[k].0 == out@[k].0@);
        }
        out
    }

    /// The number of notes and their total size in KiB (rounded down), given
    /// the size in bytes of each note.
    pub fn repo_stats(&self, sizes: &[u64]) -> (r: RepoStats)
        requires
            sizes@.len() == self.files_view().len(),
            total_of(sizes@) <= u64::MAX,
        ensures
            r.file_count == self.files_view().len(),
            r.total_size_kb == total_of(sizes@) / 1024,
    {
        let mut total: u64 = 0;
        let mut i: usize = 0;
        while i < sizes.len()
            invariant
                i <= sizes@.len(),
                total == total_of(sizes@.subrange(0, i as int)),
                total_of(sizes@) <= u64::MAX,
            decreases sizes@.len() - i,
        {
            proof {
                lemma_total_prefix(sizes@, i as int + 1);
                assert(sizes@.subrange(0, i + 1).drop_last() =~= sizes@.subrange(0, i as int));
            }
            total = total + sizes[i];
            i = i + 1;
        }
        assert(sizes@.subrange(0, sizes@.len() as int) =~= sizes@);
        RepoStats { file_count: self.files.len(), total_size_kb: total / 1024 }
    }
}

/// A prefix of the sizes sums to no more than all of them.
proof fn lemma_total_prefix(sizes: Seq<u64>, n: int)
    requires
        0 <= n <= sizes.len(),
    ensures
        total_of(sizes.subrange(0, n)) <= total_of(sizes),
    decreases sizes.len(),
{
    if n < sizes.len() {
        assert(sizes.drop_last().subrange(0, n) =~= sizes.subrange(0, n));
        lemma_total_prefix(sizes.drop_last(), n);
    } else {
        assert(sizes.subrange(0, n) =~= sizes);
    }
}

/// The note sits directly in the `system` folder.
pub open spec fn pinned(path: Seq<char>) -> bool {
    starts_with_seq(path, "system/"@) && !path.subrange("system/"@.len() as int, path.len() as int).contains('/')
}

/// The pinned notes from index `i` on, with their texts.
pub open spec fn pinned_from(files: Seq<MemoryFile>, i: int) -> Seq<(Seq<char>, Seq<char>)>
    decreases files.len() - i,
{
    if i < 0 || i >= files.len() {
        seq![]
    } else if pinned(files[i].path@) {
        seq![(files[i].path@, files[i].content@)] + pinned_from(files, i + 1)
    } else {
        pinned_from(files, i + 1)
    }
}

proof fn lemma_pinned_are_notes(files: Seq<MemoryFile>, i: int)
    requires
        all_notes(files),
        0 <= i,
    ensures
        forall|k: int|
            0 <= k < pinned_from(files, i).len() ==> is_note_path((#[trigger] pinned_from(files, i)[k]).0),
    decreases files.len() - i,
{
    if i < files.len() {
        lemma_pinned_are_notes(files, i + 1);
        let s = pinned_from(files, i);
        let t = pinned_from(files, i + 1);
        assert forall|k: int| 0 <= k < s.len() implies is_note_path((#[trigger] s[k]).0) by {
            if pinned(files[i].path@) {
                if k == 0 {
                    assert(is_note_path(files[i].path@));
                } else {
                    assert(s[k] == t[k - 1]);
                }
            } else {
                assert(s[k] == t[k]);
            }
        }
    }
}

fn has_char_from(s: &[char], from: usize, c: char) -> (b: bool)
    requires
        from <= s@.len(),
    ensures
        b == s@.subrange(from as int, s@.len() as int).contains(c),
{
    let mut k: usize = from;
    while k < s.len()
        invariant
            from <= k <= s@.len(),
            forall|m: int| from <= m < k ==> s@[m] != c,
        decreases s@.len() - k,
    {
        if s[k] == c {
            assert(s@.subrange(from as int, s@.len() as int)[k - from] == c);
            return true;
        }
        k = k + 1;
    }
    proof {
        let t = s@.subrange(from as int, s@.len() as int);
        assert forall|m: int| 0 <= m < t.len() implies t[m] != c by {
            assert(t[m] == s@[from + m]);
        }
    }
    false
}

/// The note a new repository starts with, at `system/overview.md`.
pub fn initial_overview() -> (r: &'static str)
    ensures
        r@ == "---\ndescription: Board overview and active context\n---\n\n# Overview\n\nThis is the agent context repository. Update this file with board-level project context.\n"@,
{
    "---\ndescription: Board overview and active context\n---\n\n# Overview\n\nThis is the agent context repository. Update this file with board-level project context.\n"
}

/// The message of the commit that deletes a note.
pub fn delete_commit_message(rel_path: &str) -> (r: String)
    ensures
        r@ == "delete: "@ + rel_path@,
{
    let mut s = String::new();
    push_str(&mut s, "delete: ");
    push_str(&mut s, rel_path);
    s
}

} // verus!
