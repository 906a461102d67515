//! Character-level helpers shared by the parsers and renderers of the crate.
//!
//! Text is handled as a sequence of Unicode scalar values (`Seq<char>`), the
//! view that vstd gives `str` and `String`.

use vstd::prelude::*;
use vstd::utf8::{encode_scalar, encode_utf8, is_scalar};

verus! {

broadcast use vstd::string::group_string_axioms;

/// `pat` occurs in `s` starting at index `i`.
pub open spec fn matches_at(s: Seq<char>, pat: Seq<char>, i: int) -> bool {
    0 <= i && i + pat.len() <= s.len() && s.subrange(i, i + pat.len()) == pat
}

/// `pat` occurs somewhere in `s`.
pub open spec fn contains_seq(s: Seq<char>, pat: Seq<char>) -> bool {
    exists|i: int| #[trigger] matches_at(s, pat, i)
}

pub open spec fn starts_with_seq(s: Seq<char>, pat: Seq<char>) -> bool {
    pat.len() <= s.len() && s.subrange(0, pat.len() as int) == pat
}

pub open spec fn ends_with_seq(s: Seq<char>, pat: Seq<char>) -> bool {
    pat.len() <= s.len() && s.subrange(s.len() - pat.len(), s.len() as int) == pat
}

/// `Some(i)` where `i` is the last index at which `pat` occurs in `s`.
pub open spec fn last_match(s: Seq<char>, pat: Seq<char>, r: Option<usize>) -> bool {
    match r {
        Some(i) => matches_at(s, pat, i as int) && forall|j: int|
            i < j ==> !#[trigger] matches_at(s, pat, j),
        None => forall|j: int| !#[trigger] matches_at(s, pat, j),
    }
}

/// `Some(i)` where `i` is the first index at which `pat` occurs in `s`.
pub open spec fn first_match(s: Seq<char>, pat: Seq<char>, r: Option<usize>) -> bool {
    match r {
        Some(i) => matches_at(s, pat, i as int) && forall|j: int|
            j < i ==> !#[trigger] matches_at(s, pat, j),
        None => forall|j: int| !#[trigger] matches_at(s, pat, j),
    }
}

/// The first index at which `pat` occurs in `s`, or -1 where it does not
/// occur.
pub closed spec fn first_index(s: Seq<char>, pat: Seq<char>) -> int {
    if exists|i: int| #[trigger] matches_at(s, pat, i) {
        choose|i: int|
            #[trigger] matches_at(s, pat, i) && forall|j: int| j < i ==> !matches_at(s, pat, j)
    } else {
        -1
    }
}

/// `first_match` and `first_index` agree.
pub proof fn lemma_first_index(s: Seq<char>, pat: Seq<char>, r: Option<usize>)
    requires
        first_match(s, pat, r),
    ensures
        first_index(s, pat) == match r {
            Some(i) => i as int,
            None => -1,
        },
{
    match r {
        Some(i) => {
            assert(matches_at(s, pat, i as int));
            let k = choose|k: int|
                #[trigger] matches_at(s, pat, k) && forall|j: int| j < k ==> !matches_at(s, pat, j);
            assert(matches_at(s, pat, i as int) && forall|j: int| j < i ==> !matches_at(s, pat, j));
            if k < i {
                assert(!matches_at(s, pat, k));
            }
            if k > i {
                assert(!matches_at(s, pat, i as int));
            }
        },
        None => {},
    }
}

/// The last index at or below `i` where `pat` occurs in `s`, or -1.
pub open spec fn last_index_from(s: Seq<char>, pat: Seq<char>, i: int) -> int
    decreases i + 1,
{
    if i < 0 {
        -1
    } else if matches_at(s, pat, i) {
        i
    } else {
        last_index_from(s, pat, i - 1)
    }
}

/// The last index where `pat` occurs in `s`, or -1.
pub open spec fn last_index(s: Seq<char>, pat: Seq<char>) -> int {
    last_index_from(s, pat, s.len() as int)
}

proof fn lemma_last_index_from(s: Seq<char>, pat: Seq<char>, i: int, k: int)
    requires
        k <= i,
        -1 <= k,
        k >= 0 ==> matches_at(s, pat, k),
        forall|j: int| k < j <= i ==> !#[trigger] matches_at(s, pat, j),
    ensures
        last_index_from(s, pat, i) == k,
    decreases i + 1,
{
    if i >= 0 && i != k {
        lemma_last_index_from(s, pat, i - 1, k);
    }
}

/// `last_match` and `last_index` agree.
pub proof fn lemma_last_index(s: Seq<char>, pat: Seq<char>, r: Option<usize>)
    requires
        last_match(s, pat, r),
    ensures
        last_index(s, pat) == match r {
            Some(i) => i as int,
            None => -1,
        },
{
    match r {
        Some(i) => lemma_last_index_from(s, pat, s.len() as int, i as int),
        None => lemma_last_index_from(s, pat, s.len() as int, -1),
    }
}

/// `last_index` is an occurrence, and the last one.
pub proof fn lemma_last_index_props(s: Seq<char>, pat: Seq<char>, i: int)
    requires
        -1 <= i <= s.len(),
    ensures
        last_index_from(s, pat, i) >= 0 ==> matches_at(s, pat, last_index_from(s, pat, i)),
        -1 <= last_index_from(s, pat, i) <= i,
        forall|j: int|
            last_index_from(s, pat, i) < j <= i ==> !#[trigger] matches_at(s, pat, j),
    decreases i + 1,
{
    if i >= 0 {
        lemma_last_index_props(s, pat, i - 1);
    }
}

/// `String::push` appends one character to the string.
#[verifier::external_body]
fn push_char(s: &mut String, c: char)
    ensures
        final(s)@ == old(s)@.push(c),
{
    s.push(c);
}

/// The characters of `s`, in order.
pub fn chars_of(s: &str) -> (v: Vec<char>)
    ensures
        v@ == s@,
{
    let mut v: Vec<char> = Vec::new();
    for c in iter: s.chars()
        invariant
            v@ == iter.seq().take(iter.index() as int),
    {
        v.push(c);
    }
    v
}

/// The string made of the characters of `v`, in order.
pub fn string_of(v: &[char]) -> (s: String)
    ensures
        s@ == v@,
{
    let mut s = String::new();
    let mut i: usize = 0;
    while i < v.len()
        invariant
            i <= v@.len(),
            s@ == v@.subrange(0, i as int),
        decreases v@.len() - i,
    {
        push_char(&mut s, v[i]);
        i = i + 1;
        assert(s@ == v@.subrange(0, i as int));
    }
    assert(v@.subrange(0, v@.len() as int) == v@);
    s
}

/// The string made of the characters `v[from..to]`.
pub fn string_of_range(v: &[char], from: usize, to: usize) -> (s: String)
    requires
        from <= to <= v@.len(),
    ensures
        s@ == v@.subrange(from as int, to as int),
{
    let mut s = String::new();
    let mut i: usize = from;
    while i < to
        invariant
            from <= i <= to,
            to <= v@.len(),
            s@ == v@.subrange(from as int, i as int),
        decreases to - i,
    {
        push_char(&mut s, v[i]);
        i = i + 1;
        assert(s@ == v@.subrange(from as int, i as int));
    }
    s
}

/// Appends the characters of `v` to `s`.
pub fn push_chars(s: &mut String, v: &[char])
    ensures
        final(s)@ == old(s)@ + v@,
{
    let mut i: usize = 0;
    while i < v.len()
        invariant
            i <= v@.len(),
            s@ == old(s)@ + v@.subrange(0, i as int),
        decreases v@.len() - i,
    {
        push_char(s, v[i]);
        i = i + 1;
        assert(s@ == old(s)@ + v@.subrange(0, i as int));
    }
    assert(v@.subrange(0, v@.len() as int) == v@);
}

/// Appends `t` to `s`.
pub fn push_str(s: &mut String, t: &str)
    ensures
        final(s)@ == old(s)@ + t@,
{
    let v = chars_of(t);
    push_chars(s, v.as_slice());
}

/// Whether `pat` occurs in `s` at index `i`.
pub fn matches_at_exec(s: &[char], pat: &[char], i: usize) -> (b: bool)
    ensures
        b == matches_at(s@, pat@, i as int),
{
    if pat.len() > s.len() || i > s.len() - pat.len() {
        return false;
    }
    let n = s.len();
    let mut k: usize = 0;
    while k < pat.len()
        invariant
            k <= pat@.len(),
            n == s@.len(),
            i + pat@.len() <= s@.len(),
            forall|m: int| 0 <= m < k ==> s@[i + m] == pat@[m],
        decreases pat@.len() - k,
    {
        if s[i + k] != pat[k] {
            assert(s@.subrange(i as int, i + pat@.len())[k as int] != pat@[k as int]);
            return false;
        }
        k = k + 1;
    }
    assert(s@.subrange(i as int, i + pat@.len()) =~= pat@);
    true
}

/// The last index at which `pat` occurs in `s`.
pub fn rfind(s: &[char], pat: &[char]) -> (r: Option<usize>)
    ensures
        last_match(s@, pat@, r),
{
    if pat.len() > s.len() {
        return None;
    }
    let mut i: usize = s.len() - pat.len();
    loop
        invariant
            i <= s@.len() - pat@.len(),
            pat@.len() <= s@.len(),
            forall|j: int| i < j ==> !#[trigger] matches_at(s@, pat@, j),
        decreases i,
    {
        if matches_at_exec(s, pat, i) {
            return Some(i);
        }
        if i == 0 {
            return None;
        }
        i = i - 1;
    }
}

/// The first index at which `pat` occurs in `s`.
pub fn find(s: &[char], pat: &[char]) -> (r: Option<usize>)
    ensures
        first_match(s@, pat@, r),
{
    if pat.len() > s.len() {
        return None;
    }
    let last = s.len() - pat.len();
    let mut i: usize = 0;
    loop
        invariant
            i <= last,
            last == s@.len() - pat@.len(),
            pat@.len() <= s@.len(),
            forall|j: int| j < i ==> !#[trigger] matches_at(s@, pat@, j),
        decreases last - i,
    {
        if matches_at_exec(s, pat, i) {
            return Some(i);
        }
        if i == last {
            return None;
        }
        i = i + 1;
    }
}

/// Whether `s` starts with `pat`.
pub fn starts_with(s: &[char], pat: &[char]) -> (b: bool)
    ensures
        b == starts_with_seq(s@, pat@),
{
    matches_at_exec(s, pat, 0)
}

/// Whether `s` ends with `pat`.
pub fn ends_with(s: &[char], pat: &[char]) -> (b: bool)
    ensures
        b == ends_with_seq(s@, pat@),
{
    if pat.len() > s.len() {
        return false;
    }
    matches_at_exec(s, pat, s.len() - pat.len())
}

/// Whether `pat` occurs in `s`.
pub fn contains(s: &[char], pat: &[char]) -> (b: bool)
    ensures
        b == contains_seq(s@, pat@),
{
    match find(s, pat) {
        Some(i) => true,
        None => false,
    }
}

/// Whether two character sequences are equal.
pub fn chars_eq(a: &[char], b: &[char]) -> (r: bool)
    ensures
        r == (a@ == b@),
{
    if a.len() != b.len() {
        return false;
    }
    let r = matches_at_exec(a, b, 0);
    assert(r ==> a@.subrange(0, b@.len() as int) =~= a@);
    assert(a@ == b@ ==> a@.subrange(0, b@.len() as int) =~= a@);
    r
}

/// Whether two strings hold the same characters.
pub fn str_eq(a: &str, b: &str) -> (r: bool)
    ensures
        r == (a@ == b@),
{
    let x = chars_of(a);
    let y = chars_of(b);
    chars_eq(x.as_slice(), y.as_slice())
}

/// A copy of `s`.
pub fn str_to_string(s: &str) -> (r: String)
    ensures
        r@ == s@,
{
    let mut r = String::new();
    push_str(&mut r, s);
    r
}


/// The parts joined with `sep` between each two of them.
pub open spec fn joined_by(parts: Seq<Seq<char>>, sep: Seq<char>) -> Seq<char>
    decreases parts.len(),
{
    if parts.len() == 0 {
        seq![]
    } else if parts.len() == 1 {
        parts[0]
    } else {
        joined_by(parts.drop_last(), sep) + sep + parts.last()
    }
}

/// The texts of a list of strings.
pub open spec fn views_of(v: Seq<String>) -> Seq<Seq<char>> {
    Seq::new(v.len(), |i: int| v[i]@)
}

/// The strings of `v` joined with `sep` between each two of them.
pub fn join_strings(v: &[String], sep: &str) -> (r: String)
    ensures
        r@ == joined_by(views_of(v@), sep@),
{
    let mut out = String::new();
    let mut i: usize = 0;
    let ghost vs = views_of(v@);
    assert(vs.subrange(0, 0) =~= Seq::<Seq<char>>::empty());
    while i < v.len()
        invariant
            i <= v@.len(),
            vs == views_of(v@),
            out@ == joined_by(vs.subrange(0, i as int), sep@),
        decreases v@.len() - i,
    {
        assert(vs.subrange(0, i + 1).drop_last() =~= vs.subrange(0, i as int));
        assert(vs.subrange(0, i + 1).last() == v@[i as int]@);
        if i > 0 {
            push_str(&mut out, sep);
        } else {
            assert(vs.subrange(0, 1) =~= seq![v@[0]@]);
        }
        push_str(&mut out, v[i].as_str());
        i = i + 1;
    }
    assert(vs.subrange(0, vs.len() as int) =~= vs);
    out
}

/// The pieces of `s` between the separators `sep`, empty pieces included.
pub open spec fn split_on(s: Seq<char>, sep: char) -> Seq<Seq<char>>
    decreases s.len(),
{
    if s.len() == 0 {
        seq![Seq::<char>::empty()]
    } else if s.last() == sep {
        split_on(s.drop_last(), sep).push(Seq::<char>::empty())
    } else {
        let p = split_on(s.drop_last(), sep);
        p.update(p.len() - 1, p.last().push(s.last()))
    }
}

pub proof fn lemma_split_on_nonempty(s: Seq<char>, sep: char)
    ensures
        split_on(s, sep).len() >= 1,
    decreases s.len(),
{
    if s.len() > 0 {
        lemma_split_on_nonempty(s.drop_last(), sep);
    }
}

/// The character sequences held by a list of character vectors.
pub open spec fn segs_view(v: Seq<Vec<char>>) -> Seq<Seq<char>> {
    Seq::new(v.len(), |i: int| v[i]@)
}

/// The pieces of `s` between the separators `sep`, empty pieces included.
pub fn split_exec(s: &[char], sep: char) -> (r: Vec<Vec<char>>)
    ensures
        segs_view(r@) == split_on(s@, sep),
{
    let mut out: Vec<Vec<char>> = Vec::new();
    out.push(Vec::new());
    let mut i: usize = 0;
    assert(segs_view(out@) =~= split_on(s@.subrange(0, 0), sep));
    while i < s.len()
        invariant
            i <= s@.len(),
            out@.len() >= 1,
            segs_view(out@) == split_on(s@.subrange(0, i as int), sep),
        decreases s@.len() - i,
    {
        let c = s[i];
        let ghost pre = s@.subrange(0, i as int);
        assert(s@.subrange(0, i + 1).drop_last() =~= pre);
        assert(s@.subrange(0, i + 1).last() == c);
        if c == sep {
            out.push(Vec::new());
            assert(segs_view(out@) =~= split_on(pre, sep).push(Seq::<char>::empty()));
        } else {
            let last = out.len() - 1;
            let mut seg = out.remove(last);
            seg.push(c);
            out.push(seg);
            proof {
                let p = split_on(pre, sep);
                assert(segs_view(out@) =~= p.update(p.len() - 1, p.last().push(c)));
            }
        }
        i = i + 1;
    }
    assert(s@.subrange(0, s@.len() as int) =~= s@);
    out
}

/// The lines of `s`, as `str::lines` gives them: split at each `\n`, a `\r`
/// right before it dropped too, and no empty line after a final `\n`.
pub open spec fn lines_of(s: Seq<char>) -> Seq<Seq<char>> {
    let segs = split_on(s, '\n');
    let n: int = if s.len() == 0 {
        0
    } else if s.last() == '\n' {
        segs.len() - 1
    } else {
        segs.len() as int
    };
    Seq::new(
        n as nat,
        |i: int|
            if i < segs.len() - 1 && segs[i].len() > 0 && segs[i].last() == '\r' {
                segs[i].drop_last()
            } else {
                segs[i]
            },
    )
}

/// The lines of `s` (see `lines_of`).
pub fn lines_exec(s: &[char]) -> (r: Vec<Vec<char>>)
    ensures
        segs_view(r@) == lines_of(s@),
{
    let segs = split_exec(s, '\n');
    proof {
        lemma_split_on_nonempty(s@, '\n');
    }
    let n: usize = if s.len() == 0 {
        0
    } else if s[s.len() - 1] == '\n' {
        segs.len() - 1
    } else {
        segs.len()
    };
    let ghost sv = segs_view(segs@);
    let mut out: Vec<Vec<char>> = Vec::new();
    let mut i: usize = 0;
    while i < n
        invariant
            i <= n <= segs@.len(),
            sv == segs_view(segs@),
            n == lines_of(s@).len(),
            sv == split_on(s@, '\n'),
            segs_view(out@) == lines_of(s@).subrange(0, i as int),
        decreases n - i,
    {
        let seg = &segs[i];
        let mut line: Vec<char> = Vec::new();
        let mut end = seg.len();
        if i + 1 < segs.len() && end > 0 && seg[end - 1] == '\r' {
            end = end - 1;
        }
        let mut k: usize = 0;
        while k < end
            invariant
                k <= end <= seg@.len(),
                line@ == seg@.subrange(0, k as int),
            decreases end - k,
        {
            line.push(seg[k]);
            k = k + 1;
        }
        assert(seg@ == sv[i as int]);
        assert(line@ =~= lines_of(s@)[i as int]);
        let ghost before = out@;
        let ghost lv = line@;
        out.push(line);
        assert(segs_view(out@) =~= segs_view(before).push(lv));
        i = i + 1;
        assert(segs_view(out@) =~= lines_of(s@).subrange(0, i as int));
    }
    assert(lines_of(s@).subrange(0, n as int) =~= lines_of(s@));
    out
}

/// `c` has the Unicode `White_Space` property, which is what `char::is_whitespace`
/// and `str::trim` go by.
pub open spec fn is_white_space(c: char) -> bool {
    ('\u{9}' <= c && c <= '\u{d}') || c == ' ' || c == '\u{85}' || c == '\u{a0}' || c == '\u{1680}'
        || ('\u{2000}' <= c && c <= '\u{200a}') || c == '\u{2028}' || c == '\u{2029}'
        || c == '\u{202f}' || c == '\u{205f}' || c == '\u{3000}'
}

/// Whether `c` has the Unicode `White_Space` property.
pub fn white_space(c: char) -> (b: bool)
    ensures
        b == is_white_space(c),
{
    ('\u{9}' <= c && c <= '\u{d}') || c == ' ' || c == '\u{85}' || c == '\u{a0}' || c == '\u{1680}'
        || ('\u{2000}' <= c && c <= '\u{200a}') || c == '\u{2028}' || c == '\u{2029}'
        || c == '\u{202f}' || c == '\u{205f}' || c == '\u{3000}'
}

/// Which characters a trim takes away: white space, or one given character.
pub enum TrimSet {
    WhiteSpace,
    Char(char),
}

/// `c` is taken away by a trim of the kind `t`.
pub open spec fn trimmed_by(t: TrimSet, c: char) -> bool {
    match t {
        TrimSet::WhiteSpace => is_white_space(c),
        TrimSet::Char(x) => c == x,
    }
}

fn in_trim_set(t: &TrimSet, c: char) -> (b: bool)
    ensures
        b == trimmed_by(*t, c),
{
    match t {
        TrimSet::WhiteSpace => white_space(c),
        TrimSet::Char(x) => c == *x,
    }
}

/// `s` without the characters of `t` at its start.
pub open spec fn trim_front(s: Seq<char>, t: TrimSet) -> Seq<char>
    decreases s.len(),
{
    if s.len() > 0 && trimmed_by(t, s[0]) {
        trim_front(s.drop_first(), t)
    } else {
        s
    }
}

/// `s` without the characters of `t` at its end.
pub open spec fn trim_back(s: Seq<char>, t: TrimSet) -> Seq<char>
    decreases s.len(),
{
    if s.len() > 0 && trimmed_by(t, s.last()) {
        trim_back(s.drop_last(), t)
    } else {
        s
    }
}

/// `s` without the characters of `t` at either end (`str::trim`,
/// `str::trim_matches`).
pub open spec fn trim_both(s: Seq<char>, t: TrimSet) -> Seq<char> {
    trim_back(trim_front(s, t), t)
}

/// `s` without the characters of `t` at either end.
pub fn trim_chars(s: &[char], t: &TrimSet) -> (r: Vec<char>)
    ensures
        r@ == trim_both(s@, *t),
{
    let n = s.len();
    let mut i: usize = 0;
    assert(s@.subrange(0, n as int) =~= s@);
    while i < n && in_trim_set(t, s[i])
        invariant
            i <= n == s@.len(),
            trim_front(s@, *t) == trim_front(s@.subrange(i as int, n as int), *t),
        decreases n - i,
    {
        assert(s@.subrange(i as int, n as int).drop_first() =~= s@.subrange(i + 1, n as int));
        i = i + 1;
    }
    let ghost front = s@.subrange(i as int, n as int);
    assert(trim_front(s@, *t) == front);
    let mut j: usize = n;
    assert(front.subrange(0, (j - i) as int) =~= front);
    while j > i && in_trim_set(t, s[j - 1])
        invariant
            i <= j <= n == s@.len(),
            front == s@.subrange(i as int, n as int),
            trim_back(front, *t) == trim_back(front.subrange(0, j - i), *t),
        decreases j,
    {
        assert(front.subrange(0, j - i).drop_last() =~= front.subrange(0, j - 1 - i));
        assert(front.subrange(0, j - i).last() == s@[j - 1]);
        j = j - 1;
    }
    let mut out: Vec<char> = Vec::new();
    let mut k: usize = i;
    while k < j
        invariant
            i <= k <= j <= n == s@.len(),
            out@ == s@.subrange(i as int, k as int),
        decreases j - k,
    {
        out.push(s[k]);
        k = k + 1;
        assert(out@ =~= s@.subrange(i as int, k as int));
    }
    assert(out@ =~= front.subrange(0, j - i));
    out
}

/// `c` is an ASCII character.
pub open spec fn is_ascii_char(c: char) -> bool {
    (c as u32) < 128
}

/// Every character of `s` is ASCII.
pub open spec fn is_ascii_text(s: Seq<char>) -> bool {
    forall|i: int| 0 <= i < s.len() ==> is_ascii_char(#[trigger] s[i])
}

/// `c` is an ASCII letter or digit.
pub open spec fn ascii_alnum(c: char) -> bool {
    ('a' <= c && c <= 'z') || ('A' <= c && c <= 'Z') || ('0' <= c && c <= '9')
}

/// `c` with an ASCII capital letter made small.
pub open spec fn ascii_lower_char(c: char) -> char {
    if 'A' <= c && c <= 'Z' {
        ((c as u32) + 32) as char
    } else {
        c
    }
}

/// `c` with an ASCII small letter made capital.
pub open spec fn ascii_upper_char(c: char) -> char {
    if 'a' <= c && c <= 'z' {
        ((c as u32) - 32) as char
    } else {
        c
    }
}

/// `s` with its ASCII capital letters made small.
pub open spec fn ascii_lowered(s: Seq<char>) -> Seq<char> {
    Seq::new(s.len(), |i: int| ascii_lower_char(s[i]))
}

/// `s` with its ASCII small letters made capital.
pub open spec fn ascii_uppercased(s: Seq<char>) -> Seq<char> {
    Seq::new(s.len(), |i: int| ascii_upper_char(s[i]))
}

/// What `char::is_alphanumeric` answers for `c`: whether it is alphabetic or
/// numeric in the Unicode tables of the standard library.
pub uninterp spec fn alphanumeric(c: char) -> bool;

/// What `str::to_lowercase` gives for `s`: its lowercase mapping by the
/// Unicode tables of the standard library.
pub uninterp spec fn lowercased(s: Seq<char>) -> Seq<char>;

/// `char::is_alphanumeric`: whether `c` is alphabetic or numeric. Of an
/// ASCII character, it answers whether it is a letter or a digit, as the
/// documentation of `is_alphabetic` and `is_numeric` has it for ASCII.
#[verifier::external_body]
pub(crate) fn is_alphanumeric(c: char) -> (b: bool)
    ensures
        b == alphanumeric(c),
        is_ascii_char(c) ==> (b <==> ascii_alnum(c)),
{
    c.is_alphanumeric()
}

/// `str::to_lowercase`: the lowercase mapping of `s`. Of ASCII text, the
/// mapping makes each capital letter small and keeps every other character.
#[verifier::external_body]
pub(crate) fn to_lowercase(s: &str) -> (r: String)
    ensures
        r@ == lowercased(s@),
        is_ascii_text(s@) ==> r@ == ascii_lowered(s@),
{
    s.to_lowercase()
}

/// The number of bytes that `c` takes in UTF-8.
pub open spec fn char_width(c: char) -> nat {
    if c <= '\u{7f}' {
        1
    } else if c <= '\u{7ff}' {
        2
    } else if c <= '\u{ffff}' {
        3
    } else {
        4
    }
}

proof fn lemma_char_width(c: char)
    ensures
        encode_scalar(c as u32).len() == char_width(c),
{
    broadcast use vstd::utf8::char_is_scalar;

    assert(is_scalar(c as u32));
}

/// Each character takes at least one byte of UTF-8.
proof fn lemma_encode_len(s: Seq<char>)
    ensures
        encode_utf8(s).len() >= s.len(),
        s.len() == 1 ==> encode_utf8(s).len() == char_width(s[0]),
        s.len() == 2 ==> encode_utf8(s).len() == char_width(s[0]) + char_width(s[1]),
    decreases s.len(),
{
    if s.len() > 0 {
        lemma_char_width(s[0]);
        lemma_encode_len(s.drop_first());
        if s.len() == 2 {
            assert(s.drop_first()[0] == s[1]);
        }
    }
}

fn char_width_exec(c: char) -> (w: usize)
    ensures
        w == char_width(c),
{
    if c <= '\u{7f}' {
        1
    } else if c <= '\u{7ff}' {
        2
    } else if c <= '\u{ffff}' {
        3
    } else {
        4
    }
}

/// Whether the UTF-8 form of `s` takes at least three bytes.
pub fn at_least_three_bytes(s: &[char]) -> (b: bool)
    ensures
        b == (encode_utf8(s@).len() >= 3),
{
    proof {
        lemma_encode_len(s@);
    }
    if s.len() >= 3 {
        true
    } else if s.len() == 2 {
        char_width_exec(s[0]) + char_width_exec(s[1]) >= 3
    } else if s.len() == 1 {
        char_width_exec(s[0]) >= 3
    } else {
        false
    }
}

/// The text of an optional string.
pub open spec fn opt_view(o: Option<String>) -> Option<Seq<char>> {
    match o {
        Some(s) => Some(s@),
        None => None,
    }
}

/// The decimal digit for `d`, below ten.
pub open spec fn digit_char(d: nat) -> char {
    if d == 0 {
        '0'
    } else if d == 1 {
        '1'
    } else if d == 2 {
        '2'
    } else if d == 3 {
        '3'
    } else if d == 4 {
        '4'
    } else if d == 5 {
        '5'
    } else if d == 6 {
        '6'
    } else if d == 7 {
        '7'
    } else if d == 8 {
        '8'
    } else {
        '9'
    }
}

/// `n` written in decimal, without leading zeros.
pub open spec fn decimal(n: nat) -> Seq<char>
    decreases n,
{
    if n < 10 {
        seq![digit_char(n)]
    } else {
        decimal(n / 10).push(digit_char(n % 10))
    }
}

fn digit_exec(d: u64) -> (c: char)
    requires
        d < 10,
    ensures
        c == digit_char(d as nat),
{
    if d == 0 {
        '0'
    } else if d == 1 {
        '1'
    } else if d == 2 {
        '2'
    } else if d == 3 {
        '3'
    } else if d == 4 {
        '4'
    } else if d == 5 {
        '5'
    } else if d == 6 {
        '6'
    } else if d == 7 {
        '7'
    } else if d == 8 {
        '8'
    } else {
        '9'
    }
}

/// `n` written in decimal (see `decimal`).
pub fn decimal_string(n: u64) -> (r: String)
    ensures
        r@ == decimal(n as nat),
    decreases n,
{
    if n < 10 {
        let c = digit_exec(n);
        let v = vec![c];
        assert(v@ =~= seq![digit_char(n as nat)]);
        string_of(v.as_slice())
    } else {
        let mut s = decimal_string(n / 10);
        let c = digit_exec(n % 10);
        push_char(&mut s, c);
        s
    }
}

/// What `format!("{:?}", s)` writes for the text `s`: the text in double
/// quotes, with the characters that `str::escape_debug` escapes escaped.
pub uninterp spec fn debug_text(s: Seq<char>) -> Seq<char>;

/// The `Debug` form of `s` (see `debug_text`).
#[verifier::external_body]
pub(crate) fn debug_string(s: &str) -> (r: String)
    ensures
        r@ == debug_text(s@),
{
    format!("{:?}", s)
}

/// `s` with every occurrence of the non-empty `pat` replaced by `rep`,
/// taking the occurrences from left to right without overlaps, as
/// `str::replace` does.
pub open spec fn replaced(s: Seq<char>, pat: Seq<char>, rep: Seq<char>) -> Seq<char>
    decreases s.len(),
{
    if pat.len() == 0 || s.len() < pat.len() {
        s
    } else if s.subrange(0, pat.len() as int) == pat {
        rep + replaced(s.subrange(pat.len() as int, s.len() as int), pat, rep)
    } else {
        seq![s[0]] + replaced(s.drop_first(), pat, rep)
    }
}

/// `s` with every occurrence of `pat` replaced by `rep` (see `replaced`).
pub fn replace_all(s: &str, pat: &str, rep: &str) -> (r: String)
    requires
        pat@.len() > 0,
    ensures
        r@ == replaced(s@, pat@, rep@),
{
    let cs = chars_of(s);
    let pc = chars_of(pat);
    let rc = chars_of(rep);
    let n = cs.len();
    let mut out: Vec<char> = Vec::new();
    let mut i: usize = 0;
    assert(cs@.subrange(0, n as int) =~= cs@);
    while i < n
        invariant
            i <= n == cs@.len(),
            pc@ == pat@,
            rc@ == rep@,
            pat@.len() > 0,
            out@ + replaced(cs@.subrange(i as int, n as int), pc@, rc@) == replaced(cs@, pc@, rc@),
        decreases n - i,
    {
        let ghost rest = cs@.subrange(i as int, n as int);
        if matches_at_exec(cs.as_slice(), pc.as_slice(), i) {
            assert(rest.subrange(0, pc@.len() as int) =~= cs@.subrange(i as int, i + pc@.len()));
            assert(rest.subrange(pc@.len() as int, rest.len() as int) =~= cs@.subrange(
                i + pc@.len(),
                n as int,
            ));
            let ghost before = out@;
            let mut k: usize = 0;
            while k < rc.len()
                invariant
                    k <= rc@.len(),
                    out@ == before + rc@.subrange(0, k as int),
                decreases rc@.len() - k,
            {
                out.push(rc[k]);
                k = k + 1;
                assert(out@ =~= before + rc@.subrange(0, k as int));
            }
            assert(rc@.subrange(0, rc@.len() as int) =~= rc@);
            assert(out@ + replaced(cs@.subrange(i + pc@.len(), n as int), pc@, rc@) =~= before + (rc@
                + replaced(cs@.subrange(i + pc@.len(), n as int), pc@, rc@)));
            i = i + pc.len();
        } else {
            proof {
                if rest.len() >= pc@.len() {
                    assert(rest.subrange(0, pc@.len() as int) =~= cs@.subrange(i as int, i + pc@.len()));
                }
            }
            assert(rest.drop_first() =~= cs@.subrange(i + 1, n as int));
            assert(rest[0] == cs@[i as int]);
            let ghost before = out@;
            out.push(cs[i]);
            assert(out@ + replaced(cs@.subrange(i + 1, n as int), pc@, rc@) =~= before + (seq![cs@[i as int]]
                + replaced(cs@.subrange(i + 1, n as int), pc@, rc@)));
            i = i + 1;
        }
    }
    assert(cs@.subrange(n as int, n as int) =~= Seq::<char>::empty());
    assert(out@ + replaced(Seq::<char>::empty(), pc@, rc@) =~= out@);
    string_of(out.as_slice())
}

/// Pairs of texts as mathematical values.
pub open spec fn pair_views(v: Seq<(String, String)>) -> Seq<(Seq<char>, Seq<char>)> {
    Seq::new(v.len(), |i: int| (v[i].0@, v[i].1@))
}

/// The code of `c` with an ASCII capital taken to lowercase.
pub open spec fn ascii_folded(c: char) -> int {
    if 'A' <= c && c <= 'Z' {
        (c as u32) + 32
    } else {
        c as u32 as int
    }
}

/// `a` and `b` are the same text but for the case of ASCII letters
/// (`str::eq_ignore_ascii_case`).
pub open spec fn same_ignoring_ascii_case(a: Seq<char>, b: Seq<char>) -> bool {
    a.len() == b.len() && forall|i: int| 0 <= i < a.len() ==> ascii_folded(#[trigger] a[i]) == ascii_folded(b[i])
}

fn ascii_folded_exec(c: char) -> (r: u32)
    ensures
        r as int == ascii_folded(c),
{
    if 'A' <= c && c <= 'Z' {
        (c as u32) + 32
    } else {
        c as u32
    }
}

/// Whether two texts are the same but for the case of ASCII letters.
pub fn eq_ignore_ascii_case(a: &str, b: &str) -> (r: bool)
    ensures
        r == same_ignoring_ascii_case(a@, b@),
{
    let x = chars_of(a);
    let y = chars_of(b);
    if x.len() != y.len() {
        return false;
    }
    let mut i: usize = 0;
    while i < x.len()
        invariant
            i <= x@.len() == y@.len(),
            x@ == a@,
            y@ == b@,
            forall|k: int| 0 <= k < i ==> ascii_folded(#[trigger] x@[k]) == ascii_folded(y@[k]),
        decreases x@.len() - i,
    {
        if ascii_folded_exec(x[i]) != ascii_folded_exec(y[i]) {
            return false;
        }
        i = i + 1;
    }
    true
}

} // verus!
