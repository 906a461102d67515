//! The per-ticket scratch workspace: where a ticket's files live, which
//! relative paths stay inside it, and how its listing is written.

use vstd::prelude::*;

use crate::error::{is_backend_error, OrgaError};
use crate::order::{sort_by_key, sorted_by_key, Keyed};
use crate::paths::{
    all_names, comps_of, comps_start_with, components, is_name, join_path, joined,
    joined_segments, lemma_names_stay_below, normalize_path, normalized, path_components,
    path_starts_with, Comp, PathComponent,
};
use crate::text::{chars_of, join_strings, joined_by, str_to_string, string_of, views_of};

verus! {

broadcast use vstd::string::group_string_axioms;

/// A character that cannot stand in a directory name on some platform.
pub open spec fn is_unsafe_id_char(c: char) -> bool {
    c == '/' || c == ':' || c == '\\' || c == '*' || c == '?' || c == '"' || c == '<' || c == '>'
        || c == '|'
}

/// `s` with every character that cannot stand in a directory name replaced by
/// `_`.
pub open spec fn sanitized(s: Seq<char>) -> Seq<char> {
    Seq::new(s.len(), |i: int| if is_unsafe_id_char(s[i]) { '_' } else { s[i] })
}

/// Laws of the sanitised ticket id: it has the id's length, no character
/// that cannot stand in a directory name, the id's other characters in
/// place, and sanitising it again changes nothing.
pub proof fn lemma_sanitized_is_safe(s: Seq<char>)
    ensures
        sanitized(s).len() == s.len(),
        forall|i: int| 0 <= i < s.len() ==> !is_unsafe_id_char(#[trigger] sanitized(s)[i]),
        forall|i: int| 0 <= i < s.len() && !is_unsafe_id_char(s[i]) ==> #[trigger] sanitized(s)[i] == s[i],
        sanitized(sanitized(s)) == sanitized(s),
{
    assert(sanitized(sanitized(s)) =~= sanitized(s));
}

/// The message of the error given for a path that leaves the workspace.
pub open spec fn escape_message() -> Seq<char> {
    "path escapes workspace root"@
}

/// The text of one path component, as it is written in a `/`-separated path.
pub open spec fn comp_text(c: Comp) -> Seq<char> {
    match c {
        Comp::Root => seq!['/'],
        Comp::Cur => seq!['.'],
        Comp::Parent => seq!['.', '.'],
        Comp::Normal(s) => s,
    }
}

/// The components of `p` written one after the other with `/` between them.
pub open spec fn slashed(p: Seq<char>) -> Seq<char> {
    let cs = components(p);
    joined_by(Seq::new(cs.len(), |i: int| comp_text(cs[i])), seq!['/'])
}

/// The ticket workspaces below a base directory.
pub struct WorkspaceStore {
    base: String,
}

impl WorkspaceStore {
    /// The base directory.
    pub closed spec fn base_dir(&self) -> Seq<char> {
        self.base@
    }

    /// The directory of the ticket `ticket_id`.
    pub open spec fn ticket_root_spec(&self, ticket_id: Seq<char>) -> Seq<char> {
        joined(self.base_dir(), sanitized(ticket_id))
    }

    /// The full path that `path` names in the workspace of `ticket_id`, with
    /// `.` and `..` resolved.
    pub open spec fn resolved_path(&self, ticket_id: Seq<char>, path: Seq<char>) -> Seq<char> {
        normalized(joined(self.ticket_root_spec(ticket_id), path))
    }

    /// Law of the workspace: below a base directory written as an absolute
    /// path of names, and for a ticket whose sanitised id is a name, a
    /// relative path made of names stays inside the ticket's directory and
    /// resolves to that directory followed by the path.
    pub proof fn lemma_named_paths_stay_inside(
        &self,
        base: Seq<Seq<char>>,
        ticket_id: Seq<char>,
        path: Seq<Seq<char>>,
    )
        requires
            self.base_dir() == seq!['/'] + joined_segments(base),
            base.len() > 0,
            all_names(base),
            is_name(sanitized(ticket_id)),
            path.len() > 0,
            all_names(path),
        ensures
            self.ticket_root_spec(ticket_id) == seq!['/'] + joined_segments(
                base.push(sanitized(ticket_id)),
            ),
            self.resolved_path(ticket_id, joined_segments(path)) == seq!['/'] + joined_segments(
                base.push(sanitized(ticket_id)) + path,
            ),
            comps_start_with(
                self.resolved_path(ticket_id, joined_segments(path)),
                self.ticket_root_spec(ticket_id),
            ),
    {
        let id = sanitized(ticket_id);
        let one = seq![id];
        assert(all_names(one)) by {
            assert forall|i: int| 0 <= i < one.len() implies is_name(#[trigger] one[i]) by {
                assert(one[i] == id);
            }
        }
        assert(joined_segments(one) == id);
        lemma_names_stay_below(base, one);
        assert(base + one =~= base.push(id));
        let root_names = base.push(id);
        assert(all_names(root_names)) by {
            assert forall|i: int| 0 <= i < root_names.len() implies is_name(#[trigger] root_names[i]) by {
                if i < base.len() {
                    assert(root_names[i] == base[i]);
                }
            }
        }
        lemma_names_stay_below(root_names, path);
    }

    /// A store whose workspaces live below `base`.
    pub fn new(base: String) -> (r: Self)
        ensures
            r.base_dir() == base@,
    {
        WorkspaceStore { base }
    }

    /// `ticket_id` with every character that cannot stand in a directory
    /// name replaced by `_`.
    pub fn sanitize_ticket_id(ticket_id: &str) -> (r: String)
        ensures
            r@ == sanitized(ticket_id@),
    {
        let cs = chars_of(ticket_id);
        let mut out: Vec<char> = Vec::new();
        let mut i: usize = 0;
        while i < cs.len()
            invariant
                i <= cs@.len(),
                cs@ == ticket_id@,
                out@ == sanitized(cs@).subrange(0, i as int),
            decreases cs@.len() - i,
        {
            let c = cs[i];
            if c == '/' || c == ':' || c == '\\' || c == '*' || c == '?' || c == '"' || c == '<'
                || c == '>' || c == '|' {
                out.push('_');
            } else {
                out.push(c);
            }
            i = i + 1;
            assert(out@ =~= sanitized(cs@).subrange(0, i as int));
        }
        assert(sanitized(cs@).subrange(0, cs@.len() as int) =~= sanitized(cs@));
        string_of(out.as_slice())
    }

    /// The directory of the ticket `ticket_id`: the sanitised id below the
    /// base directory.
    pub fn ticket_root_path(&self, ticket_id: &str) -> (r: String)
        ensures
            r@ == self.ticket_root_spec(ticket_id@),
    {
        let id = Self::sanitize_ticket_id(ticket_id);
        join_path(self.base.as_str(), id.as_str())
    }

    /// The full path of `path` in the workspace of `ticket_id`, or an error
    /// where it resolves to a place outside that workspace.
    pub fn safe_path(&self, ticket_id: &str, path: &str) -> (r: Result<String, OrgaError>)
        ensures
            match r {
                Ok(p) => comps_start_with(
                    self.resolved_path(ticket_id@, path@),
                    self.ticket_root_spec(ticket_id@),
                ) && p@ == self.resolved_path(ticket_id@, path@),
                Err(e) => !comps_start_with(
                    self.resolved_path(ticket_id@, path@),
                    self.ticket_root_spec(ticket_id@),
                ) && is_backend_error(e, escape_message()),
            },
    {
        let root = self.ticket_root_path(ticket_id);
        let joined_path = join_path(root.as_str(), path);
        let full = normalize_path(joined_path.as_str());
        if !path_starts_with(full.as_str(), root.as_str()) {
            return Err(OrgaError::BackendError(str_to_string("path escapes workspace root")));
        }
        Ok(full)
    }

    /// The listing of a ticket's workspace, given the relative paths of its
    /// files: the paths sorted, one per line.
    pub fn list(&self, paths: Vec<String>) -> (r: String)
        ensures
            exists|s: Seq<String>|
                s.to_multiset() == paths@.to_multiset() && sorted_by_key(s) && r@ == joined_by(
                    views_of(s),
                    seq!['\n'],
                ),
    {
        let mut v = paths;
        sort_by_key(&mut v);
        let r = join_strings(v.as_slice(), "\n");
        proof {
            reveal_strlit("\n");
            assert("\n"@ =~= seq!['\n']);
        }
        r
    }
}

/// The relative path `rel` written with `/` separators: its components, one
/// after the other.
pub fn to_slash(rel: &str) -> (r: String)
    ensures
        r@ == slashed(rel@),
{
    let comps = path_components(rel);
    let mut texts: Vec<String> = Vec::new();
    let mut i: usize = 0;
    let ghost cs = components(rel@);
    let ghost parts = Seq::new(cs.len(), |k: int| comp_text(cs[k]));
    while i < comps.len()
        invariant
            i <= comps@.len(),
            comps_of(comps@) == cs,
            parts == Seq::new(cs.len(), |k: int| comp_text(cs[k])),
            views_of(texts@) == parts.subrange(0, i as int),
        decreases comps@.len() - i,
    {
        assert(comps_of(comps@)[i as int] == comps@[i as int].comp());
        let t = match &comps[i] {
            PathComponent::RootDir => str_to_string("/"),
            PathComponent::CurDir => str_to_string("."),
            PathComponent::ParentDir => str_to_string(".."),
            PathComponent::Normal(s) => str_to_string(s.as_str()),
        };
        proof {
            reveal_strlit("/");
            reveal_strlit(".");
            reveal_strlit("..");
            assert(t@ =~= parts[i as int]);
        }
        let ghost before = texts@;
        texts.push(t);
        assert(texts@ == before.push(t));
        assert(views_of(texts@) =~= views_of(before).push(t@));
        i = i + 1;
        assert(views_of(texts@) =~= parts.subrange(0, i as int));
    }
    assert(parts.subrange(0, parts.len() as int) =~= parts);
    let r = join_strings(texts.as_slice(), "/");
    proof {
        reveal_strlit("/");
        assert("/"@ =~= seq!['/']);
    }
    r
}

impl Keyed for String {
    open spec fn key(&self) -> Seq<char> {
        self@
    }

    fn key_str(&self) -> (r: &str) {
        self.as_str()
    }
}

} // verus!
