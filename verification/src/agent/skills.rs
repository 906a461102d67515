//! Skills: markdown instructions with a front matter that says when they
//! apply, and the choice of the skills that apply to a ticket.

use vstd::prelude::*;

use crate::models::TicketSummary;
use crate::order::{keyed_with, sort_by_key, sorted_by_key, Keyed};
use crate::text::{
    ascii_lowered, is_ascii_text, lowercased, to_lowercase, views_of, chars_eq, chars_of, find, first_index, lemma_first_index, lines_exec, lines_of, opt_view,
    segs_view, starts_with, starts_with_seq, string_of, string_of_range, trim_both, trim_chars,
    trim_front, white_space, TrimSet,
};

verus! {

broadcast use vstd::string::group_string_axioms;

/// A skill: its name, description and instructions, and when it applies.
#[derive(Debug, Clone)]
pub struct SkillMeta {
    pub name: String,
    pub description: String,
    pub body: String,
    pub match_always: bool,
    pub match_column: Option<String>,
    pub match_label: Option<String>,
}

/// What the front matter of a skill has said so far, line by line.
pub ghost struct SkillFields {
    pub name: Option<Seq<char>>,
    pub description: Option<Seq<char>>,
    pub in_metadata: bool,
    pub match_always: bool,
    pub match_column: Option<Seq<char>>,
    pub match_label: Option<Seq<char>>,
}

/// Nothing said yet.
pub open spec fn no_fields() -> SkillFields {
    SkillFields {
        name: None,
        description: None,
        in_metadata: false,
        match_always: false,
        match_column: None,
        match_label: None,
    }
}

/// The value after the key `key` on the line: white space and then double
/// quotes taken off both ends.
pub open spec fn field_value(line: Seq<char>, key: Seq<char>) -> Seq<char> {
    trim_both(
        trim_both(line.subrange(key.len() as int, line.len() as int), TrimSet::WhiteSpace),
        TrimSet::Char('"'),
    )
}

/// The fields after one more line of front matter.
pub open spec fn skill_step(st: SkillFields, raw: Seq<char>) -> SkillFields {
    let line = trim_both(raw, TrimSet::WhiteSpace);
    if line == "metadata:"@ {
        SkillFields { in_metadata: true, ..st }
    } else {
        let st1 = if !st.in_metadata {
            st
        } else if starts_with_seq(line, "orga-match-always:"@) {
            SkillFields {
                match_always: field_value(line, "orga-match-always:"@) == "true"@,
                ..st
            }
        } else if starts_with_seq(line, "orga-match-column:"@) {
            SkillFields { match_column: Some(field_value(line, "orga-match-column:"@)), ..st }
        } else if starts_with_seq(line, "orga-match-label:"@) {
            SkillFields { match_label: Some(field_value(line, "orga-match-label:"@)), ..st }
        } else if !starts_with_seq(line, " "@) && line.len() > 0 {
            SkillFields { in_metadata: false, ..st }
        } else {
            st
        };
        if st1.in_metadata {
            st1
        } else if starts_with_seq(line, "name:"@) {
            SkillFields { name: Some(field_value(line, "name:"@)), ..st1 }
        } else if starts_with_seq(line, "description:"@) {
            SkillFields { description: Some(field_value(line, "description:"@)), ..st1 }
        } else {
            st1
        }
    }
}

/// The fields after the lines from index `k` on.
pub open spec fn skill_fold(lines: Seq<Seq<char>>, k: int, st: SkillFields) -> SkillFields
    decreases lines.len() - k,
{
    if k < 0 || k >= lines.len() {
        st
    } else {
        skill_fold(lines, k + 1, skill_step(st, lines[k]))
    }
}

/// A skill as mathematical values.
pub ghost struct SkillView {
    pub name: Seq<char>,
    pub description: Seq<char>,
    pub body: Seq<char>,
    pub match_always: bool,
    pub match_column: Option<Seq<char>>,
    pub match_label: Option<Seq<char>>,
}

impl SkillMeta {
    pub open spec fn view_skill(&self) -> SkillView {
        SkillView {
            name: self.name@,
            description: self.description@,
            body: self.body@,
            match_always: self.match_always,
            match_column: opt_view(self.match_column),
            match_label: opt_view(self.match_label),
        }
    }
}

/// The skill that `content` describes: after leading white space, a front
/// matter between `---` and a line that starts with `---`, with a non-empty
/// `name:`; the body is what follows, without leading white space.
pub open spec fn parsed_skill(content: Seq<char>) -> Option<SkillView> {
    let c = trim_front(content, TrimSet::WhiteSpace);
    if !starts_with_seq(c, "---"@) {
        None
    } else {
        let rest = c.subrange(3, c.len() as int);
        let end = first_index(rest, "\n---"@);
        if end < 0 {
            None
        } else {
            let fm = rest.subrange(0, end);
            let body = trim_front(rest.subrange(end + 4, rest.len() as int), TrimSet::WhiteSpace);
            let st = skill_fold(lines_of(fm), 0, no_fields());
            match st.name {
                Some(n) => if n.len() > 0 {
                    Some(
                        SkillView {
                            name: n,
                            description: match st.description {
                                Some(d) => d,
                                None => Seq::empty(),
                            },
                            body,
                            match_always: st.match_always,
                            match_column: st.match_column,
                            match_label: st.match_label,
                        },
                    )
                } else {
                    None
                },
                None => None,
            }
        }
    }
}

struct FieldsExec {
    name: Option<String>,
    description: Option<String>,
    in_metadata: bool,
    match_always: bool,
    match_column: Option<String>,
    match_label: Option<String>,
}

spec fn fields_view(f: FieldsExec) -> SkillFields {
    SkillFields {
        name: opt_view(f.name),
        description: opt_view(f.description),
        in_metadata: f.in_metadata,
        match_always: f.match_always,
        match_column: opt_view(f.match_column),
        match_label: opt_view(f.match_label),
    }
}

fn field_value_exec(line: &[char], key: &[char]) -> (r: String)
    requires
        key@.len() <= line@.len(),
    ensures
        r@ == field_value(line@, key@),
{
    let rest = string_of_range(line, key.len(), line.len());
    let rc = chars_of(rest.as_str());
    let a = trim_chars(rc.as_slice(), &TrimSet::WhiteSpace);
    let b = trim_chars(a.as_slice(), &TrimSet::Char('"'));
    string_of(b.as_slice())
}

fn step_exec(st: &mut FieldsExec, raw: &[char])
    ensures
        fields_view(*final(st)) == skill_step(fields_view(*old(st)), raw@),
{
    let line = trim_chars(raw, &TrimSet::WhiteSpace);
    let metadata = chars_of("metadata:");
    if chars_eq(line.as_slice(), metadata.as_slice()) {
        st.in_metadata = true;
        return;
    }
    if st.in_metadata {
        let always = chars_of("orga-match-always:");
        let column = chars_of("orga-match-column:");
        let label = chars_of("orga-match-label:");
        let space = chars_of(" ");
        if starts_with(line.as_slice(), always.as_slice()) {
            let v = field_value_exec(line.as_slice(), always.as_slice());
            let vc = chars_of(v.as_str());
            let t = chars_of("true");
            st.match_always = chars_eq(vc.as_slice(), t.as_slice());
        } else if starts_with(line.as_slice(), column.as_slice()) {
            st.match_column = Some(field_value_exec(line.as_slice(), column.as_slice()));
        } else if starts_with(line.as_slice(), label.as_slice()) {
            st.match_label = Some(field_value_exec(line.as_slice(), label.as_slice()));
        } else if !starts_with(line.as_slice(), space.as_slice()) && line.len() > 0 {
            st.in_metadata = false;
        }
    }
    if !st.in_metadata {
        let name = chars_of("name:");
        let description = chars_of("description:");
        if starts_with(line.as_slice(), name.as_slice()) {
            st.name = Some(field_value_exec(line.as_slice(), name.as_slice()));
        } else if starts_with(line.as_slice(), description.as_slice()) {
            st.description = Some(field_value_exec(line.as_slice(), description.as_slice()));
        }
    }
}

/// The skill that `content` describes (see `parsed_skill`), or `None` where
/// it has no front matter or no name.
pub fn parse_skill(content: &str) -> (r: Option<SkillMeta>)
    ensures
        match r {
            Some(sk) => parsed_skill(content@) == Some(sk.view_skill()),
            None => parsed_skill(content@) is None,
        },
{
    let raw = chars_of(content);
    let c = trim_front_chars(raw.as_slice());
    let open = chars_of("---");
    proof {
        reveal_strlit("---");
        reveal_strlit("\n---");
    }
    if !starts_with(c.as_slice(), open.as_slice()) {
        return None;
    }
    let mut rest: Vec<char> = Vec::new();
    let mut i: usize = 3;
    while i < c.len()
        invariant
            3 <= i <= c@.len(),
            rest@ == c@.subrange(3, i as int),
        decreases c@.len() - i,
    {
        rest.push(c[i]);
        i = i + 1;
        assert(rest@ =~= c@.subrange(3, i as int));
    }
    let close = chars_of("\n---");
    let found = find(rest.as_slice(), close.as_slice());
    proof {
        lemma_first_index(rest@, "\n---"@, found);
    }
    let end = match found {
        Some(e) => e,
        None => {
            return None;
        },
    };
    let fm = string_of_range(rest.as_slice(), 0, end);
    let after = string_of_range(rest.as_slice(), end + 4, rest.len());
    let after_chars = chars_of(after.as_str());
    let body_chars = trim_front_chars(after_chars.as_slice());
    let body = string_of(body_chars.as_slice());
    let fm_chars = chars_of(fm.as_str());
    let lines = lines_exec(fm_chars.as_slice());
    let ghost lv = segs_view(lines@);
    let mut st = FieldsExec {
        name: None,
        description: None,
        in_metadata: false,
        match_always: false,
        match_column: None,
        match_label: None,
    };
    let mut k: usize = 0;
    while k < lines.len()
        invariant
            k <= lines@.len(),
            lv == segs_view(lines@),
            skill_fold(lv, 0, no_fields()) == skill_fold(lv, k as int, fields_view(st)),
        decreases lines@.len() - k,
    {
        assert(lv[k as int] == lines@[k as int]@);
        step_exec(&mut st, lines[k].as_slice());
        k = k + 1;
    }
    let name = match st.name {
        Some(n) => n,
        None => {
            return None;
        },
    };
    if name.as_str().is_empty() {
        return None;
    }
    let description = match st.description {
        Some(d) => d,
        None => String::new(),
    };
    Some(
        SkillMeta {
            name,
            description,
            body,
            match_always: st.match_always,
            match_column: st.match_column,
            match_label: st.match_label,
        },
    )
}

fn trim_front_chars(s: &[char]) -> (r: Vec<char>)
    ensures
        r@ == trim_front(s@, TrimSet::WhiteSpace),
{
    let mut i: usize = 0;
    let n = s.len();
    assert(s@.subrange(0, n as int) =~= s@);
    while i < n && white_space(s[i])
        invariant
            i <= n == s@.len(),
            trim_front(s@, TrimSet::WhiteSpace) == trim_front(s@.subrange(i as int, n as int), TrimSet::WhiteSpace),
        decreases n - i,
    {
        assert(s@.subrange(i as int, n as int).drop_first() =~= s@.subrange(i + 1, n as int));
        i = i + 1;
    }
    let mut out: Vec<char> = Vec::new();
    let mut k: usize = i;
    while k < n
        invariant
            i <= k <= n == s@.len(),
            out@ == s@.subrange(i as int, k as int),
        decreases n - k,
    {
        out.push(s[k]);
        k = k + 1;
        assert(out@ =~= s@.subrange(i as int, k as int));
    }
    out
}

/// The labels of the ticket, lowercased.
pub open spec fn lowered_labels(t: TicketSummary) -> Seq<Seq<char>> {
    Seq::new(t.labels@.len(), |i: int| lowercased(t.labels@[i]@))
}

/// The skill names that the labels from index `k` on ask for with a
/// `skill:` prefix, in order.
pub open spec fn requests_from(labels: Seq<Seq<char>>, k: int) -> Seq<Seq<char>>
    decreases labels.len() - k,
{
    if k < 0 || k >= labels.len() {
        seq![]
    } else if starts_with_seq(labels[k], "skill:"@) {
        seq![labels[k].subrange("skill:"@.len() as int, labels[k].len() as int)] + requests_from(
            labels,
            k + 1,
        )
    } else {
        requests_from(labels, k + 1)
    }
}

/// The skill applies to the ticket: always, by the ticket's column, by one
/// of its labels, or because a `skill:` label names it; columns and labels
/// compare in lowercase.
pub open spec fn activates(sk: SkillMeta, t: TicketSummary) -> bool {
    ||| sk.match_always
    ||| (match sk.match_column {
        Some(c) => lowercased(c@) == lowercased(t.list_name@),
        None => false,
    })
    ||| (match sk.match_label {
        Some(l) => lowered_labels(t).contains(lowercased(l@)),
        None => false,
    })
    ||| requests_from(lowered_labels(t), 0).contains(sk.name@)
}

/// The indices of the skills from index `i` on that apply to the ticket,
/// skipping a skill whose name is in `seen` or was taken before.
pub open spec fn matched_from(skills: Seq<SkillMeta>, t: TicketSummary, i: int, seen: Seq<Seq<char>>) -> Seq<
    int,
>
    decreases skills.len() - i,
{
    if i < 0 || i >= skills.len() {
        seq![]
    } else if activates(skills[i], t) && !seen.contains(skills[i].name@) {
        seq![i] + matched_from(skills, t, i + 1, seen.push(skills[i].name@))
    } else {
        matched_from(skills, t, i + 1, seen)
    }
}

proof fn lemma_matched_from(skills: Seq<SkillMeta>, t: TicketSummary, i: int, seen: Seq<Seq<char>>)
    requires
        0 <= i,
    ensures
        forall|k: int|
            0 <= k < matched_from(skills, t, i, seen).len() ==> {
                let m = #[trigger] matched_from(skills, t, i, seen)[k];
                &&& i <= m < skills.len()
                &&& activates(skills[m], t)
                &&& !seen.contains(skills[m].name@)
            },
        forall|a: int, b: int|
            0 <= a < b < matched_from(skills, t, i, seen).len() ==> #[trigger] matched_from(
                skills,
                t,
                i,
                seen,
            )[a] < #[trigger] matched_from(skills, t, i, seen)[b] && skills[matched_from(
                skills,
                t,
                i,
                seen,
            )[a]].name@ != skills[matched_from(skills, t, i, seen)[b]].name@,
        forall|j: int|
            i <= j < skills.len() && #[trigger] activates(skills[j], t) ==> seen.contains(skills[j].name@)
                || exists|k: int|
                0 <= k < matched_from(skills, t, i, seen).len() && skills[matched_from(
                    skills,
                    t,
                    i,
                    seen,
                )[k]].name@ == skills[j].name@,
    decreases skills.len() - i,
{
    let m = matched_from(skills, t, i, seen);
    if i < skills.len() {
        let n = skills[i].name@;
        if activates(skills[i], t) && !seen.contains(n) {
            let seen2 = seen.push(n);
            lemma_matched_from(skills, t, i + 1, seen2);
            let m2 = matched_from(skills, t, i + 1, seen2);
            assert(m == seq![i] + m2);
            assert forall|k: int| 0 <= k < m.len() implies {
                let x = #[trigger] m[k];
                &&& i <= x < skills.len()
                &&& activates(skills[x], t)
                &&& !seen.contains(skills[x].name@)
            } by {
                if k > 0 {
                    assert(m[k] == m2[k - 1]);
                    let x = m2[k - 1];
                    if seen.contains(skills[x].name@) {
                        let w = choose|w: int| 0 <= w < seen.len() && seen[w] == skills[x].name@;
                        assert(seen2[w] == skills[x].name@);
                    }
                }
            }
            assert forall|a: int, b: int| 0 <= a < b < m.len() implies #[trigger] m[a] < #[trigger] m[b]
                && skills[m[a]].name@ != skills[m[b]].name@ by {
                assert(m[b] == m2[b - 1]);
                if a == 0 {
                    assert(seen2[seen.len() as int] == n);
                    assert(!seen2.contains(skills[m2[b - 1]].name@));
                } else {
                    assert(m[a] == m2[a - 1]);
                }
            }
            assert forall|j: int| i <= j < skills.len() && #[trigger] activates(skills[j], t) implies seen.contains(
                skills[j].name@,
            ) || exists|k: int| 0 <= k < m.len() && skills[m[k]].name@ == skills[j].name@ by {
                if j == i {
                    assert(m[0] == i);
                } else if seen2.contains(skills[j].name@) {
                    let w = choose|w: int| 0 <= w < seen2.len() && seen2[w] == skills[j].name@;
                    if w == seen.len() {
                        assert(m[0] == i);
                    } else {
                        assert(seen[w] == skills[j].name@);
                    }
                } else {
                    let k2 = choose|k: int| 0 <= k < m2.len() && skills[m2[k]].name@ == skills[j].name@;
                    assert(m[k2 + 1] == m2[k2]);
                }
            }
        } else {
            lemma_matched_from(skills, t, i + 1, seen);
        }
    }
}

/// Laws of skill matching: each skill it takes applies to the ticket, they
/// keep their order and no two share a name, and every skill that applies
/// has its name among those taken.
pub proof fn lemma_match_skills_laws(skills: Seq<SkillMeta>, t: TicketSummary)
    ensures
        forall|k: int|
            0 <= k < matched_from(skills, t, 0, seq![]).len() ==> 0 <= #[trigger] matched_from(
                skills,
                t,
                0,
                seq![],
            )[k] < skills.len() && activates(skills[matched_from(skills, t, 0, seq![])[k]], t),
        forall|a: int, b: int|
            0 <= a < b < matched_from(skills, t, 0, seq![]).len() ==> #[trigger] matched_from(
                skills,
                t,
                0,
                seq![],
            )[a] < #[trigger] matched_from(skills, t, 0, seq![])[b] && skills[matched_from(
                skills,
                t,
                0,
                seq![],
            )[a]].name@ != skills[matched_from(skills, t, 0, seq![])[b]].name@,
        forall|j: int|
            0 <= j < skills.len() && #[trigger] activates(skills[j], t) ==> exists|k: int|
                0 <= k < matched_from(skills, t, 0, seq![]).len() && skills[matched_from(
                    skills,
                    t,
                    0,
                    seq![],
                )[k]].name@ == skills[j].name@,
{
    lemma_matched_from(skills, t, 0, seq![]);
    assert forall|j: int| 0 <= j < skills.len() && #[trigger] activates(skills[j], t) implies exists|k: int|
        0 <= k < matched_from(skills, t, 0, seq![]).len() && skills[matched_from(
            skills,
            t,
            0,
            seq![],
        )[k]].name@ == skills[j].name@ by {
        assert(!Seq::<Seq<char>>::empty().contains(skills[j].name@));
    }
}

/// Law of matching by label: a skill whose label equals, ignoring case, a
/// label of the ticket at any position applies to the ticket, and a skill of
/// its name is among those taken; so does one whose label equals a ticket
/// label ignoring ASCII case, under the ASCII comparison.
pub proof fn lemma_label_match_at_any_position(skills: Seq<SkillMeta>, t: TicketSummary)
    ensures
        forall|j: int, i: int|
            0 <= j < skills.len() && 0 <= i < t.labels@.len() && (#[trigger] skills[j]).match_label is Some
                && lowercased(#[trigger] t.labels@[i]@) == lowercased(skills[j].match_label->0@) ==> activates(
                skills[j],
                t,
            ) && exists|k: int|
                0 <= k < matched_from(skills, t, 0, seq![]).len() && skills[matched_from(
                    skills,
                    t,
                    0,
                    seq![],
                )[k]].name@ == skills[j].name@,
        forall|j: int, i: int|
            0 <= j < skills.len() && 0 <= i < t.labels@.len() && (#[trigger] skills[j]).match_label is Some
                && ascii_lowered(#[trigger] t.labels@[i]@) == ascii_lowered(skills[j].match_label->0@)
                ==> activates_ascii(skills[j], t),
{
    lemma_match_skills_laws(skills, t);
    assert forall|j: int, i: int|
        0 <= j < skills.len() && 0 <= i < t.labels@.len() && (#[trigger] skills[j]).match_label is Some
            && lowercased(#[trigger] t.labels@[i]@) == lowercased(skills[j].match_label->0@) implies activates(
        skills[j],
        t,
    ) && exists|k: int|
        0 <= k < matched_from(skills, t, 0, seq![]).len() && skills[matched_from(skills, t, 0, seq![])[k]].name@
            == skills[j].name@ by {
        assert(lowered_labels(t)[i] == lowercased(t.labels@[i]@));
        assert(activates(skills[j], t));
    }
    assert forall|j: int, i: int|
        0 <= j < skills.len() && 0 <= i < t.labels@.len() && (#[trigger] skills[j]).match_label is Some
            && ascii_lowered(#[trigger] t.labels@[i]@) == ascii_lowered(skills[j].match_label->0@)
            implies activates_ascii(skills[j], t) by {
        assert(ascii_lowered_labels(t)[i] == ascii_lowered(t.labels@[i]@));
    }
}

proof fn lemma_requests_hold(labels: Seq<Seq<char>>, k: int, i: int)
    requires
        0 <= k <= i < labels.len(),
        starts_with_seq(labels[i], "skill:"@),
    ensures
        requests_from(labels, k).contains(labels[i].subrange("skill:"@.len() as int, labels[i].len() as int)),
    decreases labels.len() - k,
{
    let x = labels[i].subrange("skill:"@.len() as int, labels[i].len() as int);
    if k == i {
        assert(requests_from(labels, k)[0] == x);
    } else {
        lemma_requests_hold(labels, k + 1, i);
        let rest = requests_from(labels, k + 1);
        let p = choose|p: int| 0 <= p < rest.len() && rest[p] == x;
        if starts_with_seq(labels[k], "skill:"@) {
            assert(requests_from(labels, k)[p + 1] == x);
        } else {
            assert(requests_from(labels, k)[p] == x);
        }
    }
}

/// Law of activation: a skill applies to the ticket where it always applies,
/// where its column equals the ticket's ignoring case, and where any label
/// of the ticket, lowercased, is `skill:` followed by the skill's name.
pub proof fn lemma_activation_signals(sk: SkillMeta, t: TicketSummary)
    ensures
        sk.match_always ==> activates(sk, t),
        sk.match_column matches Some(c) && lowercased(c@) == lowercased(t.list_name@) ==> activates(sk, t),
        forall|i: int|
            0 <= i < t.labels@.len() && #[trigger] lowercased(t.labels@[i]@) == "skill:"@ + sk.name@ ==> activates(
                sk,
                t,
            ),
{
    assert forall|i: int|
        0 <= i < t.labels@.len() && #[trigger] lowercased(t.labels@[i]@) == "skill:"@ + sk.name@ implies activates(
        sk,
        t,
    ) by {
        let l = lowered_labels(t);
        assert(l[i] == "skill:"@ + sk.name@);
        assert(l[i].subrange(0, "skill:"@.len() as int) =~= "skill:"@);
        lemma_requests_hold(l, 0, i);
        assert(l[i].subrange("skill:"@.len() as int, l[i].len() as int) =~= sk.name@);
    }
}

fn holds_text(list: &Vec<String>, t: &[char]) -> (b: bool)
    ensures
        b == views_of(list@).contains(t@),
{
    let ghost lv = views_of(list@);
    let mut i: usize = 0;
    while i < list.len()
        invariant
            i <= list@.len(),
            lv == views_of(list@),
            forall|k: int| 0 <= k < i ==> lv[k] != t@,
        decreases list@.len() - i,
    {
        let c = chars_of(list[i].as_str());
        if chars_eq(c.as_slice(), t) {
            assert(lv[i as int] == t@);
            return true;
        }
        i = i + 1;
    }
    false
}

/// The labels of the ticket with their ASCII capitals made small.
pub open spec fn ascii_lowered_labels(t: TicketSummary) -> Seq<Seq<char>> {
    Seq::new(t.labels@.len(), |i: int| ascii_lowered(t.labels@[i]@))
}

/// The ticket's column and labels are ASCII text.
pub open spec fn ascii_ticket(t: TicketSummary) -> bool {
    &&& is_ascii_text(t.list_name@)
    &&& forall|i: int| 0 <= i < t.labels@.len() ==> is_ascii_text(#[trigger] t.labels@[i]@)
}

/// The skill's column and label, where it has them, are ASCII text.
pub open spec fn ascii_skill(sk: SkillMeta) -> bool {
    &&& (sk.match_column matches Some(c) ==> is_ascii_text(c@))
    &&& (sk.match_label matches Some(l) ==> is_ascii_text(l@))
}

/// `activates` for ASCII text: columns and labels compare with their ASCII
/// capitals made small, so that the case of their letters does not matter.
pub open spec fn activates_ascii(sk: SkillMeta, t: TicketSummary) -> bool {
    ||| sk.match_always
    ||| (match sk.match_column {
        Some(c) => ascii_lowered(c@) == ascii_lowered(t.list_name@),
        None => false,
    })
    ||| (match sk.match_label {
        Some(l) => ascii_lowered_labels(t).contains(ascii_lowered(l@)),
        None => false,
    })
    ||| requests_from(ascii_lowered_labels(t), 0).contains(sk.name@)
}

fn activates_exec(
    sk: &SkillMeta,
    column: &[char],
    labels: &Vec<String>,
    requests: &Vec<String>,
    t: &TicketSummary,
) -> (b: bool)
    requires
        column@ == lowercased(t.list_name@),
        views_of(labels@) == lowered_labels(*t),
        views_of(requests@) == requests_from(lowered_labels(*t), 0),
        ascii_ticket(*t) ==> column@ == ascii_lowered(t.list_name@) && lowered_labels(*t)
            == ascii_lowered_labels(*t),
    ensures
        b == activates(*sk, *t),
        ascii_ticket(*t) && ascii_skill(*sk) ==> b == activates_ascii(*sk, *t),
{
    if sk.match_always {
        return true;
    }
    match &sk.match_column {
        Some(c) => {
            let lc = to_lowercase(c.as_str());
            let lcc = chars_of(lc.as_str());
            if chars_eq(lcc.as_slice(), column) {
                return true;
            }
        },
        None => {},
    }
    match &sk.match_label {
        Some(l) => {
            let ll = to_lowercase(l.as_str());
            let llc = chars_of(ll.as_str());
            if holds_text(labels, llc.as_slice()) {
                return true;
            }
        },
        None => {},
    }
    let nc = chars_of(sk.name.as_str());
    holds_text(requests, nc.as_slice())
}

/// The labels of the ticket lowercased, and the skill names that they ask
/// for with a `skill:` prefix.
fn label_requests(ticket: &TicketSummary) -> (r: (Vec<String>, Vec<String>))
    ensures
        views_of(r.0@) == lowered_labels(*ticket),
        views_of(r.1@) == requests_from(lowered_labels(*ticket), 0),
        ascii_ticket(*ticket) ==> lowered_labels(*ticket) == ascii_lowered_labels(*ticket),
{
    let ghost lab = lowered_labels(*ticket);
    let mut labels: Vec<String> = Vec::new();
    let mut i: usize = 0;
    while i < ticket.labels.len()
        invariant
            i <= ticket.labels@.len(),
            lab == lowered_labels(*ticket),
            views_of(labels@) == lab.subrange(0, i as int),
            forall|k: int|
                0 <= k < i && is_ascii_text(#[trigger] ticket.labels@[k]@) ==> lowercased(ticket.labels@[k]@)
                    == ascii_lowered(ticket.labels@[k]@),
        decreases ticket.labels@.len() - i,
    {
        let l = to_lowercase(ticket.labels[i].as_str());
        let ghost before = views_of(labels@);
        let ghost lview = l@;
        labels.push(l);
        assert(views_of(labels@) =~= before.push(lview));
        i = i + 1;
        assert(views_of(labels@) =~= lab.subrange(0, i as int));
    }
    assert(lab.subrange(0, lab.len() as int) =~= lab);
    proof {
        if ascii_ticket(*ticket) {
            assert(lowered_labels(*ticket) =~= ascii_lowered_labels(*ticket));
        }
    }
    let prefix = chars_of("skill:");
    let mut requests: Vec<String> = Vec::new();
    let mut k: usize = 0;
    while k < labels.len()
        invariant
            k <= labels@.len(),
            views_of(labels@) == lab,
            prefix@ == "skill:"@,
            views_of(requests@) + requests_from(lab, k as int) == requests_from(lab, 0),
        decreases labels@.len() - k,
    {
        let lc = chars_of(labels[k].as_str());
        let ghost before = views_of(requests@);
        assert(lc@ == lab[k as int]);
        if starts_with(lc.as_slice(), prefix.as_slice()) {
            let rest = string_of_range(lc.as_slice(), prefix.len(), lc.len());
            let ghost rview = rest@;
            requests.push(rest);
            assert(views_of(requests@) =~= before.push(rview));
            assert(views_of(requests@) + requests_from(lab, k + 1) =~= before + requests_from(
                lab,
                k as int,
            ));
        }
        k = k + 1;
    }
    assert(views_of(requests@) =~= views_of(requests@) + requests_from(lab, k as int));
    (labels, requests)
}

/// The skills that apply to the ticket (see `activates`), in their order,
/// without a second skill of a name already taken.
pub fn match_skills<'a>(skills: &'a [SkillMeta], ticket: &TicketSummary) -> (r: Vec<&'a SkillMeta>)
    ensures
        r@.len() == matched_from(skills@, *ticket, 0, seq![]).len(),
        forall|k: int|
            0 <= k < r@.len() ==> *r@[k] == skills@[#[trigger] matched_from(skills@, *ticket, 0, seq![])[k]],
        ascii_ticket(*ticket) ==> forall|j: int|
            0 <= j < skills@.len() && ascii_skill(#[trigger] skills@[j]) ==> (activates(skills@[j], *ticket)
                <==> activates_ascii(skills@[j], *ticket)),
{
    let col_string = to_lowercase(ticket.list_name.as_str());
    let column = chars_of(col_string.as_str());
    let (labels, requests) = label_requests(ticket);
    let ghost total = matched_from(skills@, *ticket, 0, seq![]);
    let mut seen: Vec<String> = Vec::new();
    let mut out: Vec<&'a SkillMeta> = Vec::new();
    let ghost mut taken: Seq<int> = seq![];
    let mut j: usize = 0;
    assert(views_of(seen@) =~= Seq::<Seq<char>>::empty());
    assert(total =~= taken + matched_from(skills@, *ticket, 0, views_of(seen@)));
    while j < skills.len()
        invariant
            j <= skills@.len(),
            column@ == lowercased(ticket.list_name@),
            views_of(labels@) == lowered_labels(*ticket),
            views_of(requests@) == requests_from(lowered_labels(*ticket), 0),
            total == matched_from(skills@, *ticket, 0, seq![]),
            total == taken + matched_from(skills@, *ticket, j as int, views_of(seen@)),
            out@.len() == taken.len(),
            forall|m: int| 0 <= m < taken.len() ==> 0 <= #[trigger] taken[m] < skills@.len() && *out@[m]
                == skills@[taken[m]],
            ascii_ticket(*ticket) ==> column@ == ascii_lowered(ticket.list_name@) && lowered_labels(*ticket)
                == ascii_lowered_labels(*ticket),
            ascii_ticket(*ticket) ==> forall|k: int|
                0 <= k < j && ascii_skill(#[trigger] skills@[k]) ==> (activates(skills@[k], *ticket)
                    <==> activates_ascii(skills@[k], *ticket)),
        decreases skills@.len() - j,
    {
        let sk = &skills[j];
        let nc = chars_of(sk.name.as_str());
        let act = activates_exec(sk, column.as_slice(), &labels, &requests, ticket);
        if act && !holds_text(&seen, nc.as_slice()) {
            let ghost before = views_of(seen@);
            seen.push(sk.name.clone());
            assert(views_of(seen@) =~= before.push(sk.name@));
            out.push(sk);
            proof {
                assert(taken + matched_from(skills@, *ticket, j as int, before) =~= taken.push(j as int)
                    + matched_from(skills@, *ticket, j + 1, views_of(seen@)));
                taken = taken.push(j as int);
            }
        }
        j = j + 1;
    }
    assert(taken =~= taken + matched_from(skills@, *ticket, j as int, views_of(seen@)));
    out
}

/// Some skill of the list has the name `name`.
pub open spec fn names_a_skill(skills: Seq<SkillMeta>, name: Seq<char>) -> bool {
    exists|i: int| 0 <= i < skills.len() && (#[trigger] skills[i]).name@ == name
}

/// The requests from index `k` on that name no skill of the list, in order.
pub open spec fn unmatched_from(skills: Seq<SkillMeta>, requests: Seq<Seq<char>>, k: int) -> Seq<Seq<char>>
    decreases requests.len() - k,
{
    if k < 0 || k >= requests.len() {
        seq![]
    } else if names_a_skill(skills, requests[k]) {
        unmatched_from(skills, requests, k + 1)
    } else {
        seq![requests[k]] + unmatched_from(skills, requests, k + 1)
    }
}

fn names_a_skill_exec(skills: &[SkillMeta], name: &String) -> (b: bool)
    ensures
        b == names_a_skill(skills@, name@),
{
    let nc = chars_of(name.as_str());
    let mut i: usize = 0;
    while i < skills.len()
        invariant
            i <= skills@.len(),
            nc@ == name@,
            forall|k: int| 0 <= k < i ==> (#[trigger] skills@[k]).name@ != name@,
        decreases skills@.len() - i,
    {
        let sc = chars_of(skills[i].name.as_str());
        if chars_eq(sc.as_slice(), nc.as_slice()) {
            return true;
        }
        i = i + 1;
    }
    false
}

/// The skill names that the ticket's `skill:` labels ask for but that no
/// skill of the list has, once for each such label, in label order: the
/// requests to report as not found.
pub fn unmatched_skill_requests(skills: &[SkillMeta], ticket: &TicketSummary) -> (r: Vec<String>)
    ensures
        views_of(r@) == unmatched_from(skills@, requests_from(lowered_labels(*ticket), 0), 0),
        forall|q: Seq<char>|
            #![trigger names_a_skill(skills@, q)]
            requests_from(lowered_labels(*ticket), 0).contains(q) ==> (names_a_skill(skills@, q) <==> exists|k: int|
                0 <= k < matched_from(skills@, *ticket, 0, seq![]).len() && skills@[matched_from(
                    skills@,
                    *ticket,
                    0,
                    seq![],
                )[k]].name@ == q),
{
    proof {
        lemma_match_skills_laws(skills@, *ticket);
        let m = matched_from(skills@, *ticket, 0, seq![]);
        assert forall|q: Seq<char>|
            #![trigger names_a_skill(skills@, q)]
            requests_from(lowered_labels(*ticket), 0).contains(q) implies (names_a_skill(skills@, q) <==> exists|k: int|
                0 <= k < m.len() && skills@[m[k]].name@ == q) by {
            if names_a_skill(skills@, q) {
                let i = choose|i: int| 0 <= i < skills@.len() && (#[trigger] skills@[i]).name@ == q;
                assert(activates(skills@[i], *ticket));
            }
            if exists|k: int| 0 <= k < m.len() && skills@[m[k]].name@ == q {
                let k = choose|k: int| 0 <= k < m.len() && skills@[m[k]].name@ == q;
                assert(0 <= m[k] < skills@.len());
                assert(skills@[m[k]].name@ == q);
            }
        }
    }
    let (_labels, requests) = label_requests(ticket);
    let ghost rq = views_of(requests@);
    let mut out: Vec<String> = Vec::new();
    let mut k: usize = 0;
    while k < requests.len()
        invariant
            k <= requests@.len(),
            rq == views_of(requests@),
            views_of(out@) + unmatched_from(skills@, rq, k as int) == unmatched_from(skills@, rq, 0),
        decreases requests@.len() - k,
    {
        let ghost before = views_of(out@);
        if !names_a_skill_exec(skills, &requests[k]) {
            let q = requests[k].clone();
            out.push(q);
            assert(views_of(out@) =~= before.push(rq[k as int]));
            assert(views_of(out@) + unmatched_from(skills@, rq, k + 1) =~= before + unmatched_from(
                skills@,
                rq,
                k as int,
            ));
        }
        k = k + 1;
    }
    assert(views_of(out@) =~= views_of(out@) + unmatched_from(skills@, rq, k as int));
    out
}

impl Keyed for SkillMeta {
    open spec fn key(&self) -> Seq<char> {
        self.name@
    }

    fn key_str(&self) -> (r: &str) {
        self.name.as_str()
    }
}

/// The skills ordered by name; skills of the same name keep their order.
pub fn sort_skills(skills: Vec<SkillMeta>) -> (r: Vec<SkillMeta>)
    ensures
        r@.to_multiset() == skills@.to_multiset(),
        sorted_by_key(r@),
        forall|name: Seq<char>| #[trigger] keyed_with(r@, name) == keyed_with(skills@, name),
{
    let mut v = skills;
    sort_by_key(&mut v);
    v
}

} // verus!
