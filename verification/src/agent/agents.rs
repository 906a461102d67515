//! Subagents written as markdown files: a YAML front matter with the
//! settings, and a body with the system prompt.

use vstd::prelude::*;

use crate::config::SubagentConfig;
use crate::text::{
    chars_of, find, first_index, lemma_first_index, push_str, starts_with, starts_with_seq,
    string_of, string_of_range, trim_both, trim_chars, TrimSet,
};

verus! {

broadcast use vstd::string::group_string_axioms;

/// The settings in the front matter of a markdown subagent.
pub struct SubagentFrontmatter {
    pub description: Option<String>,
    pub tools: Vec<String>,
    pub skills: Vec<String>,
    pub max_actions: Option<usize>,
}

/// `s` without one leading newline, where it starts with one.
pub open spec fn without_newline(s: Seq<char>) -> Seq<char> {
    if s.len() > 0 && s[0] == '\n' {
        s.drop_first()
    } else {
        s
    }
}

/// The front matter and the body of a markdown subagent: the text must start
/// with `---`; after it (and a newline) the front matter runs to the next
/// `\n---`, and the body follows that (without a newline right after it).
pub open spec fn frontmatter_split(content: Seq<char>) -> Result<(Seq<char>, Seq<char>), Seq<char>> {
    if !starts_with_seq(content, "---"@) {
        Err("missing frontmatter: file must start with '---'"@)
    } else {
        let rest = without_newline(content.subrange(3, content.len() as int));
        let close = first_index(rest, "\n---"@);
        if close < 0 {
            Err("missing closing '---' in frontmatter"@)
        } else {
            Ok(
                (
                    rest.subrange(0, close),
                    without_newline(rest.subrange(close + 4, rest.len() as int)),
                ),
            )
        }
    }
}

fn without_newline_exec(s: &[char]) -> (r: Vec<char>)
    ensures
        r@ == without_newline(s@),
{
    let start: usize = if s.len() > 0 && s[0] == '\n' {
        1
    } else {
        0
    };
    let mut out: Vec<char> = Vec::new();
    let mut k: usize = start;
    while k < s.len()
        invariant
            start <= k <= s@.len(),
            out@ == s@.subrange(start as int, k as int),
        decreases s@.len() - k,
    {
        out.push(s[k]);
        k = k + 1;
        assert(out@ =~= s@.subrange(start as int, k as int));
    }
    assert(s@.len() > 0 ==> s@.drop_first() =~= s@.subrange(1, s@.len() as int));
    assert(s@.subrange(0, s@.len() as int) =~= s@);
    out
}

/// The front matter and the body of a markdown subagent (see
/// `frontmatter_split`), or the error that says what is missing.
pub fn split_frontmatter(content: &str) -> (r: Result<(String, String), String>)
    ensures
        match r {
            Ok((fm, body)) => frontmatter_split(content@) == Ok::<(Seq<char>, Seq<char>), Seq<char>>(
                (fm@, body@),
            ),
            Err(e) => frontmatter_split(content@) == Err::<(Seq<char>, Seq<char>), Seq<char>>(e@),
        },
{
    proof {
        reveal_strlit("---");
        reveal_strlit("\n---");
    }
    let cs = chars_of(content);
    let open = chars_of("---");
    if !starts_with(cs.as_slice(), open.as_slice()) {
        let mut e = String::new();
        push_str(&mut e, "missing frontmatter: file must start with '---'");
        return Err(e);
    }
    let after = string_of_range(cs.as_slice(), 3, cs.len());
    let after_chars = chars_of(after.as_str());
    let rest = without_newline_exec(after_chars.as_slice());
    let close_pat = chars_of("\n---");
    let found = find(rest.as_slice(), close_pat.as_slice());
    proof {
        lemma_first_index(rest@, "\n---"@, found);
    }
    match found {
        Some(close) => {
            let fm = string_of_range(rest.as_slice(), 0, close);
            let tail = string_of_range(rest.as_slice(), close + 4, rest.len());
            let tail_chars = chars_of(tail.as_str());
            let body = without_newline_exec(tail_chars.as_slice());
            Ok((fm, string_of(body.as_slice())))
        },
        None => {
            let mut e = String::new();
            push_str(&mut e, "missing closing '---' in frontmatter");
            Err(e)
        },
    }
}

/// The subagent named `name` with the settings `fm` and the body `body`: the
/// description must be there and not empty; the body, without white space at
/// either end, is the system prompt unless it is empty.
pub fn subagent_from_frontmatter(name: &str, fm: SubagentFrontmatter, body: &str) -> (r: Result<
    SubagentConfig,
    String,
>)
    ensures
        match r {
            Ok(sub) => fm.description matches Some(d) && d@.len() > 0 && sub.name@ == name@
                && sub.description@ == d@ && sub.tools == fm.tools && sub.skills == fm.skills
                && sub.model is None && sub.max_actions == fm.max_actions && sub.system_prompt.deep_view()
                == (if trim_both(body@, TrimSet::WhiteSpace).len() == 0 {
                None
            } else {
                Some(trim_both(body@, TrimSet::WhiteSpace))
            }),
            Err(e) => !(fm.description matches Some(d) && d@.len() > 0) && e@
                == "missing required field: description"@,
        },
{
    let description = match fm.description {
        Some(d) => {
            if d.as_str().is_empty() {
                let mut e = String::new();
                push_str(&mut e, "missing required field: description");
                return Err(e);
            }
            d
        },
        None => {
            let mut e = String::new();
            push_str(&mut e, "missing required field: description");
            return Err(e);
        },
    };
    let bc = chars_of(body);
    let trimmed = trim_chars(bc.as_slice(), &TrimSet::WhiteSpace);
    let system_prompt = if trimmed.len() == 0 {
        None
    } else {
        Some(string_of(trimmed.as_slice()))
    };
    let mut n = String::new();
    push_str(&mut n, name);
    Ok(
        SubagentConfig {
            name: n,
            description,
            tools: fm.tools,
            skills: fm.skills,
            model: None,
            max_actions: fm.max_actions,
            system_prompt,
        },
    )
}

} // verus!
