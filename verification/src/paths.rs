//! Paths as `/`-separated text.
//!
//! The crate treats paths as logical identifiers (memory keys, workspace
//! paths, listings shown to the language model) and always writes them with
//! `/` separators.

use vstd::prelude::*;

use crate::text::{
    chars_eq, chars_of, lemma_split_on_nonempty, push_chars, segs_view, split_exec, split_on,
    starts_with_seq, string_of, string_of_range,
};

verus! {

broadcast use vstd::string::group_string_axioms;

/// `b` appended to `a` as a path: an absolute `b` replaces `a`, an empty `a`
/// gives `b`, and a separator is put between the two where `a` does not end
/// with one.
pub open spec fn joined(a: Seq<char>, b: Seq<char>) -> Seq<char> {
    if b.len() > 0 && b[0] == '/' {
        b
    } else if a.len() == 0 {
        b
    } else if a[a.len() - 1] == '/' {
        a + b
    } else {
        a.push('/') + b
    }
}

/// Appends the path `b` to the path `a`.
pub fn join_path(a: &str, b: &str) -> (r: String)
    ensures
        r@ == joined(a@, b@),
{
    let x = chars_of(a);
    let y = chars_of(b);
    if y.len() > 0 && y[0] == '/' {
        return string_of(y.as_slice());
    }
    if x.len() == 0 {
        return string_of(y.as_slice());
    }
    let mut out = string_of(x.as_slice());
    if x[x.len() - 1] != '/' {
        let sep = vec!['/'];
        push_chars(&mut out, sep.as_slice());
        assert(sep@ =~= seq!['/']);
        assert(x@ + seq!['/'] =~= x@.push('/'));
    }
    push_chars(&mut out, y.as_slice());
    out
}

/// The prefix `"~/"`.
pub open spec fn home_prefix() -> Seq<char> {
    seq!['~', '/']
}

/// `path` with a leading `~/` replaced by the home directory `home`.
pub open spec fn tilde_expanded(path: Seq<char>, home: Seq<char>) -> Seq<char> {
    if starts_with_seq(path, home_prefix()) {
        joined(home, path.subrange(2, path.len() as int))
    } else {
        path
    }
}

/// Expands a leading `~/` in `path` to the home directory `home`; any other
/// path is returned as it is.
pub fn expand_tilde(path: &str, home: &str) -> (r: String)
    ensures
        r@ == tilde_expanded(path@, home@),
{
    let p = chars_of(path);
    if p.len() >= 2 && p[0] == '~' && p[1] == '/' {
        assert(p@.subrange(0, 2) =~= home_prefix());
        let rest = string_of_range(p.as_slice(), 2, p.len());
        join_path(home, rest.as_str())
    } else {
        proof {
            if starts_with_seq(p@, home_prefix()) {
                assert(p@.subrange(0, 2)[0] == '~');
                assert(p@.subrange(0, 2)[1] == '/');
            }
        }
        string_of(p.as_slice())
    }
}

/// The pieces of `s` between the `/` separators, empty pieces included.
pub open spec fn segments(s: Seq<char>) -> Seq<Seq<char>> {
    split_on(s, '/')
}

/// `"."`
pub open spec fn cur_dir() -> Seq<char> {
    seq!['.']
}

/// `".."`
pub open spec fn parent_dir() -> Seq<char> {
    seq!['.', '.']
}

/// One component of a path, as the standard library's `Path::components`
/// yields it on Unix.
pub ghost enum Comp {
    Root,
    Cur,
    Parent,
    Normal(Seq<char>),
}

/// The component that a non-empty segment stands for.
pub open spec fn segment_comp(seg: Seq<char>) -> Comp {
    if seg == parent_dir() {
        Comp::Parent
    } else {
        Comp::Normal(seg)
    }
}

/// The components of the segments from index `i` on: empty segments and
/// `.` are dropped, `..` is a parent component.
pub open spec fn comps_from(segs: Seq<Seq<char>>, i: int) -> Seq<Comp>
    decreases segs.len() - i,
{
    if i < 0 || i >= segs.len() {
        seq![]
    } else if segs[i].len() == 0 || segs[i] == cur_dir() {
        comps_from(segs, i + 1)
    } else {
        seq![segment_comp(segs[i])] + comps_from(segs, i + 1)
    }
}

/// The components of the path `s`: the root of an absolute path, a leading
/// `.` of a relative path, then `..` and named components; empty components
/// and any other `.` are left out.
pub open spec fn components(s: Seq<char>) -> Seq<Comp> {
    let segs = segments(s);
    if s.len() > 0 && s[0] == '/' {
        seq![Comp::Root] + comps_from(segs, 1)
    } else if segs[0] == cur_dir() {
        seq![Comp::Cur] + comps_from(segs, 1)
    } else {
        comps_from(segs, 0)
    }
}

/// The named segments that remain of `segs` once `.` and empty segments are
/// dropped and each `..` takes away the segment before it (none at the top).
pub open spec fn resolved(segs: Seq<Seq<char>>) -> Seq<Seq<char>>
    decreases segs.len(),
{
    if segs.len() == 0 {
        seq![]
    } else {
        let prev = resolved(segs.drop_last());
        let c = segs.last();
        if c.len() == 0 || c == cur_dir() {
            prev
        } else if c == parent_dir() {
            if prev.len() > 0 {
                prev.drop_last()
            } else {
                prev
            }
        } else {
            prev.push(c)
        }
    }
}

/// Law of resolution: what remains are named segments only, none of them
/// empty, `.` or `..`, and no more of them than there were segments.
pub proof fn lemma_resolved_are_names(segs: Seq<Seq<char>>)
    ensures
        resolved(segs).len() <= segs.len(),
        forall|i: int|
            0 <= i < resolved(segs).len() ==> (#[trigger] resolved(segs)[i]).len() > 0
                && resolved(segs)[i] != cur_dir() && resolved(segs)[i] != parent_dir(),
    decreases segs.len(),
{
    if segs.len() > 0 {
        lemma_resolved_are_names(segs.drop_last());
    }
}

/// The segments joined with `/` between them.
pub open spec fn joined_segments(segs: Seq<Seq<char>>) -> Seq<char>
    decreases segs.len(),
{
    if segs.len() == 0 {
        seq![]
    } else if segs.len() == 1 {
        segs[0]
    } else {
        joined_segments(segs.drop_last()).push('/') + segs.last()
    }
}

/// The path `s` with `.` and `..` resolved lexically, as the crate's
/// normalisation does it: absolute paths stay absolute.
pub open spec fn normalized(s: Seq<char>) -> Seq<char> {
    if s.len() > 0 && s[0] == '/' {
        seq!['/'] + joined_segments(resolved(segments(s)))
    } else {
        joined_segments(resolved(segments(s)))
    }
}

/// A named path segment: not empty, without `/`, and neither `.` nor `..`.
pub open spec fn is_name(seg: Seq<char>) -> bool {
    seg.len() > 0 && !seg.contains('/') && seg != cur_dir() && seg != parent_dir()
}

/// Every segment of `segs` is a name.
pub open spec fn all_names(segs: Seq<Seq<char>>) -> bool {
    forall|i: int| 0 <= i < segs.len() ==> is_name(#[trigger] segs[i])
}

proof fn lemma_names_drop_last(n: Seq<Seq<char>>)
    requires
        n.len() > 0,
        all_names(n),
    ensures
        all_names(n.drop_last()),
        is_name(n.last()),
{
    assert(is_name(n[n.len() - 1]));
    assert forall|i: int| 0 <= i < n.drop_last().len() implies is_name(#[trigger] n.drop_last()[i]) by {
        assert(n.drop_last()[i] == n[i]);
    }
}

proof fn lemma_split_without_separator(w: Seq<char>)
    requires
        !w.contains('/'),
    ensures
        split_on(w, '/') == seq![w],
    decreases w.len(),
{
    if w.len() > 0 {
        let d = w.drop_last();
        if d.contains('/') {
            let i = choose|i: int| 0 <= i < d.len() && d[i] == '/';
            assert(w[i] == '/');
        }
        if w.last() == '/' {
            assert(w[w.len() - 1] == '/');
        }
        lemma_split_without_separator(d);
        assert(d.push(w.last()) =~= w);
        assert(seq![d].update(0, d.push(w.last())) =~= seq![w]);
    } else {
        assert(w =~= Seq::<char>::empty());
    }
}

proof fn lemma_split_around_separator(x: Seq<char>, y: Seq<char>)
    ensures
        split_on(x.push('/') + y, '/') == split_on(x, '/') + split_on(y, '/'),
    decreases y.len(),
{
    let s = x.push('/') + y;
    if y.len() == 0 {
        assert(s =~= x.push('/'));
        assert(x.push('/').drop_last() =~= x);
        assert(split_on(y, '/') =~= seq![Seq::<char>::empty()]);
        assert(split_on(x, '/').push(Seq::<char>::empty()) =~= split_on(x, '/') + split_on(y, '/'));
    } else {
        assert(s.drop_last() =~= x.push('/') + y.drop_last());
        assert(s.last() == y.last());
        lemma_split_around_separator(x, y.drop_last());
        lemma_split_on_nonempty(y.drop_last(), '/');
        let p = split_on(x, '/');
        let q = split_on(y.drop_last(), '/');
        if y.last() == '/' {
            assert((p + q).push(Seq::<char>::empty()) =~= p + q.push(Seq::<char>::empty()));
        } else {
            assert((p + q).update((p + q).len() - 1, (p + q).last().push(y.last())) =~= p + q.update(
                q.len() - 1,
                q.last().push(y.last()),
            ));
        }
    }
}

proof fn lemma_joined_segments_ends(n: Seq<Seq<char>>)
    requires
        n.len() > 0,
        all_names(n),
    ensures
        joined_segments(n).len() > 0,
        joined_segments(n)[0] == n[0][0],
        joined_segments(n).last() == n.last().last(),
    decreases n.len(),
{
    if n.len() > 1 {
        lemma_names_drop_last(n);
        lemma_joined_segments_ends(n.drop_last());
    }
    assert(is_name(n[0]));
    assert(is_name(n[n.len() - 1]));
}

proof fn lemma_joined_segments_concat(a: Seq<Seq<char>>, b: Seq<Seq<char>>)
    requires
        a.len() > 0,
        b.len() > 0,
    ensures
        joined_segments(a).push('/') + joined_segments(b) == joined_segments(a + b),
    decreases b.len(),
{
    if b.len() == 1 {
        assert((a + b).drop_last() =~= a);
        assert((a + b).last() == b[0]);
    } else {
        let d = b.drop_last();
        lemma_joined_segments_concat(a, d);
        assert((a + b).drop_last() =~= a + d);
        assert((a + b).last() == b.last());
        assert(joined_segments(a).push('/') + (joined_segments(d).push('/') + b.last()) =~= (
        joined_segments(a).push('/') + joined_segments(d)).push('/') + b.last());
    }
}

proof fn lemma_split_joined_segments(n: Seq<Seq<char>>)
    requires
        n.len() > 0,
        all_names(n),
    ensures
        split_on(joined_segments(n), '/') == n,
    decreases n.len(),
{
    lemma_names_drop_last(n);
    if n.len() == 1 {
        lemma_split_without_separator(n[0]);
        assert(seq![n[0]] =~= n);
    } else {
        let d = n.drop_last();
        lemma_split_joined_segments(d);
        lemma_split_without_separator(n.last());
        lemma_split_around_separator(joined_segments(d), n.last());
        assert(d + seq![n.last()] =~= n);
    }
}

proof fn lemma_resolved_names(n: Seq<Seq<char>>)
    requires
        all_names(n),
    ensures
        resolved(seq![Seq::<char>::empty()] + n) == n,
    decreases n.len(),
{
    let s = seq![Seq::<char>::empty()] + n;
    if n.len() == 0 {
        assert(s.drop_last() =~= Seq::<Seq<char>>::empty());
        assert(s.last() =~= Seq::<char>::empty());
        assert(resolved(s.drop_last()) =~= Seq::<Seq<char>>::empty());
        assert(n =~= Seq::<Seq<char>>::empty());
    } else {
        let d = n.drop_last();
        lemma_names_drop_last(n);
        lemma_resolved_names(d);
        assert(s.drop_last() =~= seq![Seq::<char>::empty()] + d);
        assert(s.last() == n.last());
        assert(resolved(s) == resolved(s.drop_last()).push(s.last()));
        assert(d.push(n.last()) =~= n);
    }
}

proof fn lemma_comps_from_names(s: Seq<Seq<char>>, i: int)
    requires
        0 <= i <= s.len(),
        forall|k: int| i <= k < s.len() ==> is_name(#[trigger] s[k]),
    ensures
        comps_from(s, i) == Seq::new((s.len() - i) as nat, |k: int| Comp::Normal(s[i + k])),
    decreases s.len() - i,
{
    if i < s.len() {
        lemma_comps_from_names(s, i + 1);
        assert(is_name(s[i]));
        assert(comps_from(s, i) =~= Seq::new((s.len() - i) as nat, |k: int| Comp::Normal(s[i + k])));
    } else {
        assert(comps_from(s, i) =~= Seq::new((s.len() - i) as nat, |k: int| Comp::Normal(s[i + k])));
    }
}

proof fn lemma_absolute_names(n: Seq<Seq<char>>)
    requires
        n.len() > 0,
        all_names(n),
    ensures
        segments(seq!['/'] + joined_segments(n)) == seq![Seq::<char>::empty()] + n,
        normalized(seq!['/'] + joined_segments(n)) == seq!['/'] + joined_segments(n),
        components(seq!['/'] + joined_segments(n)) == seq![Comp::Root] + Seq::new(
            n.len(),
            |k: int| Comp::Normal(n[k]),
        ),
{
    let p = seq!['/'] + joined_segments(n);
    assert(p =~= Seq::<char>::empty().push('/') + joined_segments(n));
    lemma_split_around_separator(Seq::<char>::empty(), joined_segments(n));
    lemma_split_joined_segments(n);
    assert(split_on(Seq::<char>::empty(), '/') =~= seq![Seq::<char>::empty()]);
    lemma_resolved_names(n);
    let segs = seq![Seq::<char>::empty()] + n;
    assert forall|k: int| 1 <= k < segs.len() implies is_name(#[trigger] segs[k]) by {
        assert(segs[k] == n[k - 1]);
    }
    lemma_comps_from_names(segs, 1);
    assert(Seq::new((segs.len() - 1) as nat, |k: int| Comp::Normal(segs[1 + k])) =~= Seq::new(
        n.len(),
        |k: int| Comp::Normal(n[k]),
    ));
}

/// Law of joining and resolving: a relative path made of names, appended
/// to an absolute path made of names, resolves to the two joined, and its
/// components begin with those of the absolute path.
pub proof fn lemma_names_stay_below(a: Seq<Seq<char>>, b: Seq<Seq<char>>)
    requires
        a.len() > 0,
        b.len() > 0,
        all_names(a),
        all_names(b),
    ensures
        joined(seq!['/'] + joined_segments(a), joined_segments(b)) == seq!['/'] + joined_segments(
            a + b,
        ),
        normalized(joined(seq!['/'] + joined_segments(a), joined_segments(b))) == seq!['/']
            + joined_segments(a + b),
        comps_start_with(
            normalized(joined(seq!['/'] + joined_segments(a), joined_segments(b))),
            seq!['/'] + joined_segments(a),
        ),
{
    let root = seq!['/'] + joined_segments(a);
    lemma_joined_segments_ends(a);
    lemma_joined_segments_ends(b);
    assert(is_name(b[0]));
    assert(is_name(a[a.len() - 1]));
    if b[0][0] == '/' {
        assert(b[0].contains('/'));
    }
    if a.last().last() == '/' {
        assert(a.last()[a.last().len() - 1] == '/');
        assert(a.last().contains('/'));
    }
    assert(root[root.len() - 1] == joined_segments(a).last());
    lemma_joined_segments_concat(a, b);
    assert(joined(root, joined_segments(b)) =~= seq!['/'] + joined_segments(a + b));
    assert forall|i: int| 0 <= i < (a + b).len() implies is_name(#[trigger] (a + b)[i]) by {
        if i < a.len() {
            assert((a + b)[i] == a[i]);
        } else {
            assert((a + b)[i] == b[i - a.len()]);
        }
    }
    lemma_absolute_names(a + b);
    lemma_absolute_names(a);
    let cp = components(seq!['/'] + joined_segments(a + b));
    let cr = components(root);
    assert(cp.subrange(0, cr.len() as int) =~= cr);
}

/// The components of `p` begin with all the components of `root`.
pub open spec fn comps_start_with(p: Seq<char>, root: Seq<char>) -> bool {
    components(root).len() <= components(p).len() && components(p).subrange(
        0,
        components(root).len() as int,
    ) == components(root)
}

/// A component of a path.
pub enum PathComponent {
    RootDir,
    CurDir,
    ParentDir,
    Normal(String),
}

impl PathComponent {
    pub open spec fn comp(&self) -> Comp {
        match self {
            PathComponent::RootDir => Comp::Root,
            PathComponent::CurDir => Comp::Cur,
            PathComponent::ParentDir => Comp::Parent,
            PathComponent::Normal(s) => Comp::Normal(s@),
        }
    }
}

/// The components of a list of path components.
pub open spec fn comps_of(v: Seq<PathComponent>) -> Seq<Comp> {
    Seq::new(v.len(), |i: int| v[i].comp())
}

fn is_cur_dir(seg: &[char]) -> (b: bool)
    ensures
        b == (seg@ == cur_dir()),
{
    let r = seg.len() == 1 && seg[0] == '.';
    proof {
        if r {
            assert(seg@ =~= cur_dir());
        }
    }
    r
}

fn is_parent_dir(seg: &[char]) -> (b: bool)
    ensures
        b == (seg@ == parent_dir()),
{
    let r = seg.len() == 2 && seg[0] == '.' && seg[1] == '.';
    proof {
        if r {
            assert(seg@ =~= parent_dir());
        }
    }
    r
}

/// The components of the path `p` (see `components`).
pub fn path_components(p: &str) -> (r: Vec<PathComponent>)
    ensures
        comps_of(r@) == components(p@),
{
    let s = chars_of(p);
    let segs = split_exec(s.as_slice(), '/');
    proof {
        lemma_split_on_nonempty(s@, '/');
    }
    let mut out: Vec<PathComponent> = Vec::new();
    let start: usize;
    if s.len() > 0 && s[0] == '/' {
        out.push(PathComponent::RootDir);
        start = 1;
    } else if is_cur_dir(segs[0].as_slice()) {
        out.push(PathComponent::CurDir);
        start = 1;
    } else {
        start = 0;
    }
    let ghost head = comps_of(out@);
    let mut i: usize = segs.len();
    let ghost sg = segs_view(segs@);
    // build the tail from the end, so that it matches comps_from
    let mut tail: Vec<PathComponent> = Vec::new();
    assert(comps_of(tail@) =~= comps_from(sg, i as int));
    while i > start
        invariant
            start <= i <= segs@.len(),
            sg == segs_view(segs@),
            comps_of(tail@) == comps_from(sg, i as int),
        decreases i,
    {
        i = i - 1;
        let seg = &segs[i];
        assert(seg@ == sg[i as int]);
        if seg.len() == 0 || is_cur_dir(seg.as_slice()) {
        } else if is_parent_dir(seg.as_slice()) {
            tail.insert(0, PathComponent::ParentDir);
            assert(comps_of(tail@) =~= seq![segment_comp(sg[i as int])] + comps_from(sg, i + 1));
        } else {
            tail.insert(0, PathComponent::Normal(string_of(seg.as_slice())));
            assert(comps_of(tail@) =~= seq![segment_comp(sg[i as int])] + comps_from(sg, i + 1));
        }
    }
    let ghost before = out@;
    out.append(&mut tail);
    assert(comps_of(out@) =~= comps_of(before) + comps_from(sg, start as int));
    out
}

/// The path `p` with `.` and `..` resolved lexically (see `normalized`).
pub fn normalize_path(p: &str) -> (r: String)
    ensures
        r@ == normalized(p@),
{
    let s = chars_of(p);
    let segs = split_exec(s.as_slice(), '/');
    let ghost sg = segs_view(segs@);
    let mut kept: Vec<Vec<char>> = Vec::new();
    let mut i: usize = 0;
    assert(sg.subrange(0, 0) =~= Seq::<Seq<char>>::empty());
    while i < segs.len()
        invariant
            i <= segs@.len(),
            sg == segs_view(segs@),
            segs_view(kept@) == resolved(sg.subrange(0, i as int)),
        decreases segs@.len() - i,
    {
        let seg = &segs[i];
        assert(sg.subrange(0, i + 1).drop_last() =~= sg.subrange(0, i as int));
        assert(sg.subrange(0, i + 1).last() == seg@);
        if seg.len() == 0 || is_cur_dir(seg.as_slice()) {
        } else if is_parent_dir(seg.as_slice()) {
            if kept.len() > 0 {
                let last = kept.len() - 1;
                let _ = kept.remove(last);
                assert(segs_view(kept@) =~= resolved(sg.subrange(0, i as int)).drop_last());
            }
        } else {
            let mut copy: Vec<char> = Vec::new();
            let mut k: usize = 0;
            while k < seg.len()
                invariant
                    k <= seg@.len(),
                    copy@ == seg@.subrange(0, k as int),
                decreases seg@.len() - k,
            {
                copy.push(seg[k]);
                k = k + 1;
                assert(copy@ =~= seg@.subrange(0, k as int));
            }
            assert(copy@ =~= seg@);
            kept.push(copy);
            assert(segs_view(kept@) =~= resolved(sg.subrange(0, i as int)).push(seg@));
        }
        i = i + 1;
    }
    assert(sg.subrange(0, sg.len() as int) =~= sg);
    let mut out = String::new();
    if s.len() > 0 && s[0] == '/' {
        let root = vec!['/'];
        push_chars(&mut out, root.as_slice());
        assert(root@ =~= seq!['/']);
    }
    let ghost prefix = out@;
    let mut j: usize = 0;
    while j < kept.len()
        invariant
            j <= kept@.len(),
            out@ == prefix + joined_segments(segs_view(kept@).subrange(0, j as int)),
        decreases kept@.len() - j,
    {
        let ghost kv = segs_view(kept@);
        assert(kv.subrange(0, j + 1).drop_last() =~= kv.subrange(0, j as int));
        if j > 0 {
            let sep = vec!['/'];
            push_chars(&mut out, sep.as_slice());
            assert(sep@ =~= seq!['/']);
        } else {
            assert(kv.subrange(0, 0) =~= Seq::<Seq<char>>::empty());
        }
        push_chars(&mut out, kept[j].as_slice());
        assert(out@ =~= prefix + joined_segments(kv.subrange(0, j + 1)));
        j = j + 1;
    }
    assert(segs_view(kept@).subrange(0, kept@.len() as int) =~= segs_view(kept@));
    out
}

fn comp_eq(a: &PathComponent, b: &PathComponent) -> (r: bool)
    ensures
        r == (a.comp() == b.comp()),
{
    match (a, b) {
        (PathComponent::RootDir, PathComponent::RootDir) => true,
        (PathComponent::CurDir, PathComponent::CurDir) => true,
        (PathComponent::ParentDir, PathComponent::ParentDir) => true,
        (PathComponent::Normal(x), PathComponent::Normal(y)) => {
            let xs = chars_of(x.as_str());
            let ys = chars_of(y.as_str());
            chars_eq(xs.as_slice(), ys.as_slice())
        },
        _ => false,
    }
}

/// Whether the components of `p` begin with those of `root`.
pub fn path_starts_with(p: &str, root: &str) -> (r: bool)
    ensures
        r == comps_start_with(p@, root@),
{
    let pc = path_components(p);
    let rc = path_components(root);
    if rc.len() > pc.len() {
        return false;
    }
    let mut i: usize = 0;
    while i < rc.len()
        invariant
            i <= rc@.len() <= pc@.len(),
            comps_of(pc@) == components(p@),
            comps_of(rc@) == components(root@),
            forall|k: int| 0 <= k < i ==> comps_of(pc@)[k] == comps_of(rc@)[k],
        decreases rc@.len() - i,
    {
        if !comp_eq(&pc[i], &rc[i]) {
            assert(components(p@).subrange(0, components(root@).len() as int)[i as int]
                != components(root@)[i as int]);
            return false;
        }
        i = i + 1;
    }
    assert(components(p@).subrange(0, components(root@).len() as int) =~= components(root@));
    true
}

} // verus!
