//! The service's configuration, fixed at start-up.

use crate::path::{join, spec_join};
use vstd::prelude::*;
use vstd::string::*;

verus! {

/// What the service is started with.
#[derive(Clone, Debug)]
pub struct Config {
    /// The address the server listens on.
    pub bind: String,
    /// The directory under which the channels are stored.
    pub root: String,
    /// The seconds an indexing loop sleeps between two passes.
    pub index_sleep_time: u64,
    /// The tokens that authorize an upload.
    pub tokens: Vec<String>,
}

/// Whether `token` is one of `tokens`.
pub open spec fn listed(tokens: Seq<String>, token: Seq<char>) -> bool {
    exists|i: int| 0 <= i < tokens.len() && (#[trigger] tokens[i])@ == token
}

impl Config {
    /// Whether an upload that presents `token` is authorized: exactly when the
    /// token is one of the configured ones.
    pub fn accepts(&self, token: &str) -> (ok: bool)
        ensures
            ok == listed(self.tokens@, token@),
    {
        let wanted = String::from_str(token);
        let mut i: usize = 0;
        while i < self.tokens.len()
            invariant
                i <= self.tokens.len(),
                wanted@ == token@,
                forall|j: int| 0 <= j < i ==> (#[trigger] self.tokens@[j])@ != token@,
            decreases self.tokens.len() - i,
        {
            if self.tokens[i] == wanted {
                return true;
            }
            i += 1;
        }
        false
    }
}

/// The directories in which the configuration file is looked for, in order:
/// the service's directory under the user's configuration directory, then the
/// one under `/etc`.
pub open spec fn spec_config_dirs(user_dir: Seq<char>) -> Seq<Seq<char>> {
    seq![spec_join(user_dir, "conda-hoster"@), spec_join("/etc"@, "conda-hoster"@)]
}

/// The configuration file in the directory `dir`.
pub open spec fn spec_config_file(dir: Seq<char>) -> Seq<char> {
    spec_join(dir, "config.toml"@)
}

/// The configuration that is written where none is found, for a service that
/// keeps its channels under the user's data directory `data_dir`.
pub open spec fn spec_default_text(data_dir: Seq<char>) -> Seq<char> {
    "bind = \"0.0.0.0:8088\"\nroot = \""@ + data_dir
        + "/conda-hoster/web-root\"\nindex_sleep_time = 10\ntokens = []\n"@
}

/// The directories in which the configuration file is looked for, in order.
pub fn config_dirs(user_dir: &str) -> (dirs: Vec<String>)
    ensures
        dirs.deep_view() == spec_config_dirs(user_dir@),
{
    let mut dirs: Vec<String> = Vec::new();
    dirs.push(join(user_dir, "conda-hoster"));
    dirs.push(join("/etc", "conda-hoster"));
    assert(dirs.deep_view() =~= spec_config_dirs(user_dir@));
    dirs
}

/// The configuration file in the directory `dir`.
pub fn config_file(dir: &str) -> (file: String)
    ensures
        file@ == spec_config_file(dir@),
{
    join(dir, "config.toml")
}

/// Whether a file is at one of the places at least.
pub open spec fn any_present(present: Seq<bool>) -> bool {
    exists|j: int| 0 <= j < present.len() && present[j]
}

/// Which of the places looked at holds the configuration to use, given for
/// each place whether a file is there: the first place with a file, or the
/// first place of all where none has one.
pub fn pick_config(present: &Vec<bool>) -> (chosen: usize)
    ensures
        any_present(present@) ==> chosen < present@.len() && present@[chosen as int],
        any_present(present@) ==> forall|j: int| 0 <= j < chosen ==> !present@[j],
        !any_present(present@) ==> chosen == 0,
{
    let mut i: usize = 0;
    while i < present.len()
        invariant
            i <= present.len(),
            forall|j: int| 0 <= j < i ==> !present@[j],
        decreases present.len() - i,
    {
        if present[i] {
            return i;
        }
        i += 1;
    }
    0
}

/// The configuration that is written where none is found.
pub fn default_text(data_dir: &str) -> (text: String)
    ensures
        text@ == spec_default_text(data_dir@),
{
    String::from_str("bind = \"0.0.0.0:8088\"\nroot = \"").concat(data_dir).concat(
        "/conda-hoster/web-root\"\nindex_sleep_time = 10\ntokens = []\n",
    )
}

} // verus!
