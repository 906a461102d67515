//! Artifacts: files an agent commits for a ticket to a git repository,
//! where they live and how the commits and their retries go.

use vstd::prelude::*;

use crate::error::{is_backend_error, OrgaError};
use crate::paths::{join_path, joined};
use crate::text::{decimal, decimal_string, push_str, str_to_string};

verus! {

broadcast use vstd::string::group_string_axioms;

/// How to authenticate to the artifact repository's remote.
#[derive(Clone, Default)]
pub struct GitAuth {
    pub ssh_key: Option<String>,
    pub ssh_passphrase: Option<String>,
    pub http_username: Option<String>,
    pub http_password: Option<String>,
}

/// Where an artifact lives in the repository:
/// `artifacts/<ticket>/<agent>/<name>` below the repository root.
pub open spec fn artifact_location(repo: Seq<char>, ticket_id: Seq<char>, agent_name: Seq<char>, name: Seq<char>) -> Seq<char> {
    joined(joined(joined(joined(repo, "artifacts"@), ticket_id), agent_name), name)
}

/// Where an artifact lives (see `artifact_location`).
pub fn artifact_path(repo: &str, ticket_id: &str, agent_name: &str, name: &str) -> (r: String)
    ensures
        r@ == artifact_location(repo@, ticket_id@, agent_name@, name@),
{
    let a = join_path(repo, "artifacts");
    let b = join_path(a.as_str(), ticket_id);
    let c = join_path(b.as_str(), agent_name);
    join_path(c.as_str(), name)
}

/// The message of the commit that adds an artifact.
pub fn commit_message(ticket_id: &str, agent_name: &str, name: &str) -> (r: String)
    ensures
        r@ == "artifact("@ + ticket_id@ + "/"@ + agent_name@ + "): "@ + name@,
{
    let mut s = String::new();
    push_str(&mut s, "artifact(");
    push_str(&mut s, ticket_id);
    push_str(&mut s, "/");
    push_str(&mut s, agent_name);
    push_str(&mut s, "): ");
    push_str(&mut s, name);
    s
}

/// The e-mail address an agent commits under.
pub fn commit_email(agent_name: &str) -> (r: String)
    ensures
        r@ == agent_name@ + "@orga"@,
{
    let mut s = String::new();
    push_str(&mut s, agent_name);
    push_str(&mut s, "@orga");
    s
}

/// The refspec that pushes a branch to the branch of the same name.
pub fn push_refspec(branch: &str) -> (r: String)
    ensures
        r@ == "refs/heads/"@ + branch@ + ":refs/heads/"@ + branch@,
{
    let mut s = String::new();
    push_str(&mut s, "refs/heads/");
    push_str(&mut s, branch);
    push_str(&mut s, ":refs/heads/");
    push_str(&mut s, branch);
    s
}

/// The reference of a branch of a remote.
pub fn remote_ref(remote: &str, branch: &str) -> (r: String)
    ensures
        r@ == "refs/remotes/"@ + remote@ + "/"@ + branch@,
{
    let mut s = String::new();
    push_str(&mut s, "refs/remotes/");
    push_str(&mut s, remote);
    push_str(&mut s, "/");
    push_str(&mut s, branch);
    s
}

/// The credentials to offer a remote.
pub enum Credential {
    /// The SSH key at the path, for the user, with the passphrase.
    SshKey { username: String, key_path: String, passphrase: Option<String> },
    /// The SSH agent's keys for the user.
    SshAgent { username: String },
    /// A user name and password.
    UserPass { username: String, password: String },
    /// None that the remote accepts.
    Unsupported,
}

/// The credentials to offer, by what the remote allows: an SSH key (the
/// configured one, or else the SSH agent's) for the user in the URL or
/// `git`; else the configured user name and password (empty where not set);
/// else none.
pub fn choose_credential(
    auth: &GitAuth,
    username_from_url: Option<&str>,
    allows_ssh_key: bool,
    allows_user_pass: bool,
) -> (r: Credential)
    ensures
        allows_ssh_key ==> match auth.ssh_key {
            Some(k) => r matches Credential::SshKey { username, key_path, passphrase } && username@
                == match username_from_url {
                Some(u) => u@,
                None => "git"@,
            } && key_path@ == k@ && passphrase == auth.ssh_passphrase,
            None => r matches Credential::SshAgent { username } && username@ == match username_from_url {
                Some(u) => u@,
                None => "git"@,
            },
        },
        !allows_ssh_key && allows_user_pass ==> (r matches Credential::UserPass { username, password }
            && username@ == match auth.http_username {
            Some(u) => u@,
            None => Seq::<char>::empty(),
        } && password@ == match auth.http_password {
            Some(p) => p@,
            None => Seq::<char>::empty(),
        }),
        !allows_ssh_key && !allows_user_pass ==> r is Unsupported,
{
    if allows_ssh_key {
        let username = match username_from_url {
            Some(u) => str_to_string(u),
            None => str_to_string("git"),
        };
        return match &auth.ssh_key {
            Some(k) => Credential::SshKey {
                username,
                key_path: k.clone(),
                passphrase: match &auth.ssh_passphrase {
                    Some(p) => Some(p.clone()),
                    None => None,
                },
            },
            None => Credential::SshAgent { username },
        };
    }
    if allows_user_pass {
        let username = match &auth.http_username {
            Some(u) => u.clone(),
            None => String::new(),
        };
        let password = match &auth.http_password {
            Some(p) => p.clone(),
            None => String::new(),
        };
        return Credential::UserPass { username, password };
    }
    Credential::Unsupported
}

/// The waits between the attempts to commit to a remote, in milliseconds.
pub open spec fn retry_delays() -> Seq<u64> {
    seq![100u64, 200u64, 400u64]
}

/// The progress of committing an artifact to a remote: the attempts made
/// and the error of the last one.
pub struct CommitAttempts {
    made: usize,
    last_error: String,
}

/// What to do after a failed attempt: wait and try again, or give up with
/// the error.
pub enum RetryStep {
    WaitThenRetry(u64),
    GiveUp(OrgaError),
}

impl CommitAttempts {
    #[verifier::type_invariant]
    spec fn within_attempts(self) -> bool {
        self.made <= 3
    }

    /// The attempts made so far.
    pub closed spec fn attempts_made(&self) -> nat {
        self.made as nat
    }

    /// No attempt made yet.
    pub fn new() -> (r: Self)
        ensures
            r.attempts_made() == 0,
    {
        CommitAttempts { made: 0, last_error: String::new() }
    }

    /// After an attempt that failed with `error`: wait the delay of that
    /// attempt and retry while attempts are left, else give up with an
    /// error that counts the attempts and names the last error.
    pub fn after_failure(&mut self, error: String) -> (r: RetryStep)
        requires
            old(self).attempts_made() < 3,
        ensures
            final(self).attempts_made() == old(self).attempts_made() + 1,
            final(self).attempts_made() < 3 ==> (r matches RetryStep::WaitThenRetry(d) && d
                == retry_delays()[old(self).attempts_made() as int]),
            final(self).attempts_made() == 3 ==> (r matches RetryStep::GiveUp(e) && is_backend_error(
                e,
                "commit failed after 3 attempts: "@ + error@,
            )),
    {
        proof {
            use_type_invariant(&*self);
        }
        let attempt = self.made;
        self.made = self.made + 1;
        self.last_error = error;
        if self.made < 3 {
            let delay: u64 = if attempt == 0 {
                100
            } else {
                200
            };
            RetryStep::WaitThenRetry(delay)
        } else {
            let mut m = String::new();
            push_str(&mut m, "commit failed after 3 attempts: ");
            push_str(&mut m, self.last_error.as_str());
            RetryStep::GiveUp(OrgaError::BackendError(m))
        }
    }
}

} // verus!
