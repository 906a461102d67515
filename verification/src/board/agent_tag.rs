//! The markdown agent tag that board backends append to outbound comments so
//! that they can later recognise their own comments when listing tickets.
//!
//! The format is `"\n\n_[orga:{agent_name}]_"`, the same for every backend.

use vstd::prelude::*;

use crate::text::{
    chars_of, contains_seq, ends_with, ends_with_seq, last_index, lemma_last_index, lemma_last_index_props, matches_at, push_chars, push_str, rfind, string_of,
    string_of_range,
};

verus! {

broadcast use vstd::string::group_string_axioms;

/// The opening of the tag: `"\n\n_[orga:"`.
pub open spec fn tag_open() -> Seq<char> {
    seq!['\n', '\n', '_', '[', 'o', 'r', 'g', 'a', ':']
}

/// The closing of the tag: `"]_"`.
pub open spec fn tag_close() -> Seq<char> {
    seq![']', '_']
}

/// `text` followed by the tag of `agent_name`; `text` itself when the name is
/// empty.
pub open spec fn tagged(text: Seq<char>, agent_name: Seq<char>) -> Seq<char> {
    if agent_name.len() == 0 {
        text
    } else {
        text + tag_open() + agent_name + tag_close()
    }
}

/// What `parse_agent_tag` gives back: where the text ends with a tag whose
/// opening is the last one in the text and whose name is not empty, the text
/// before the tag and the name; otherwise the text and no name.
pub open spec fn untagged(text: Seq<char>) -> (Seq<char>, Option<Seq<char>>) {
    let pos = last_index(text, tag_open());
    if pos >= 0 && ends_with_seq(text, tag_close()) && pos + 11 < text.len() {
        (text.subrange(0, pos), Some(text.subrange(pos + 9, text.len() - 2)))
    } else {
        (text, None)
    }
}

fn tag_open_chars() -> (v: Vec<char>)
    ensures
        v@ == tag_open(),
{
    let v = vec!['\n', '\n', '_', '[', 'o', 'r', 'g', 'a', ':'];
    assert(v@ =~= tag_open());
    v
}

fn tag_close_chars() -> (v: Vec<char>)
    ensures
        v@ == tag_close(),
{
    let v = vec![']', '_'];
    assert(v@ =~= tag_close());
    v
}

/// Appends the agent tag to `text`. An empty `agent_name` leaves the text as
/// it is, so that a backend without a configured name adds no stray suffix.
pub fn append_agent_tag(text: &str, agent_name: &str) -> (r: String)
    ensures
        r@ == tagged(text@, agent_name@),
{
    let name = chars_of(agent_name);
    let mut out = String::new();
    push_str(&mut out, text);
    if name.len() == 0 {
        return out;
    }
    let open = tag_open_chars();
    let close = tag_close_chars();
    push_chars(&mut out, open.as_slice());
    push_chars(&mut out, name.as_slice());
    push_chars(&mut out, close.as_slice());
    out
}

/// Splits a trailing agent tag off `text`: the content before the tag and the
/// agent's name, or `text` unchanged and `None` where it carries no tag.
pub fn parse_agent_tag(text: &str) -> (r: (String, Option<String>))
    ensures
        r.0@ == untagged(text@).0,
        r.1.deep_view() == untagged(text@).1,
{
    let t = chars_of(text);
    let open = tag_open_chars();
    let close = tag_close_chars();
    match rfind(t.as_slice(), open.as_slice()) {
        Some(pos) => {
            proof {
                lemma_last_index(t@, tag_open(), Some(pos));
            }
            if ends_with(t.as_slice(), close.as_slice()) && t.len() - pos > 11 {
                let content = string_of_range(t.as_slice(), 0, pos);
                let name = string_of_range(t.as_slice(), pos + 9, t.len() - 2);
                (content, Some(name))
            } else {
                (string_of(t.as_slice()), None)
            }
        },
        None => {
            proof {
                lemma_last_index(t@, tag_open(), None);
            }
            (string_of(t.as_slice()), None)
        },
    }
}

proof fn lemma_no_later_opening(text: Seq<char>, agent_name: Seq<char>, j: int)
    requires
        agent_name.len() > 0,
        !contains_seq(agent_name, tag_open()),
        text.len() < j,
    ensures
        !matches_at(tagged(text, agent_name), tag_open(), j),
{
    let t = tagged(text, agent_name);
    let n = text.len() as int;
    let m = agent_name.len() as int;
    assert(t.len() == n + 11 + m);
    if matches_at(t, tag_open(), j) {
        assert(t.subrange(j, j + 9)[0] == '\n');
        assert(t.subrange(j, j + 9)[8] == ':');
        if j < n + 9 {
            assert(t[j] == tag_open()[j - n]);
        } else if j + 9 <= n + 9 + m {
            assert(agent_name.subrange(j - n - 9, j - n) =~= t.subrange(j, j + 9));
            assert(matches_at(agent_name, tag_open(), j - n - 9));
        } else {
            assert(t[j + 8] == tag_close()[j + 8 - n - 9 - m]);
        }
    }
}

/// A comment that an agent tagged is recognised as the agent's: the tag is
/// split off again and yields the text and the name, provided the name is not
/// empty and does not itself hold the opening of a tag.
#[verifier::rlimit(50)]
pub proof fn lemma_parse_after_append(text: Seq<char>, agent_name: Seq<char>)
    requires
        agent_name.len() > 0,
        !contains_seq(agent_name, tag_open()),
    ensures
        untagged(tagged(text, agent_name)) == (text, Some(agent_name)),
{
    let t = tagged(text, agent_name);
    let n = text.len() as int;
    let m = agent_name.len() as int;
    assert(t.len() == n + 11 + m);
    assert(t.subrange(n, n + 9) =~= tag_open());
    assert(matches_at(t, tag_open(), n));
    assert forall|j: int| n < j implies !#[trigger] matches_at(t, tag_open(), j) by {
        lemma_no_later_opening(text, agent_name, j);
    }
    lemma_last_index_props(t, tag_open(), t.len() as int);
    let pos = last_index(t, tag_open());
    assert(pos == n) by {
        if pos > n {
        } else if pos < n {
            assert(!matches_at(t, tag_open(), n));
        }
    }
    assert(t.subrange(t.len() - 2, t.len() as int) =~= tag_close());
    assert(t.subrange(0, n) =~= text);
    assert(t.subrange(n + 9, t.len() - 2) =~= agent_name);
}

/// A recognised tag is exactly what `append_agent_tag` would have added: the
/// content and the name put back together give the tagged text again.
pub proof fn lemma_append_after_parse(text: Seq<char>)
    requires
        untagged(text).1 is Some,
    ensures
        tagged(untagged(text).0, untagged(text).1->0) == text,
{
    lemma_last_index_props(text, tag_open(), text.len() as int);
    let pos = last_index(text, tag_open());
    let name = untagged(text).1->0;
    assert(name.len() > 0);
    assert(text.subrange(pos, pos + 9) == tag_open());
    assert(text.subrange(text.len() - 2, text.len() as int) == tag_close());
    assert(text.subrange(0, pos) + tag_open() + name + tag_close() =~= text);
}

} // verus!
