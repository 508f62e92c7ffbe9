//! The profile and label settings that the tool runs with.
use vstd::prelude::*;
use crate::classify::IssueKind;

verus! {

/// An account on the issue tracker.
#[derive(Debug, Clone)]
pub struct Profile {
    pub name: String,
    pub api_key: String,
}

/// The tracker label that stands for each kind of issue.
#[derive(Debug, Clone)]
pub struct LabelNames {
    pub fixme: String,
    pub todo: String,
}

/// The settings as they are written down: every profile, and the label names.
#[derive(Debug)]
pub struct ConfigFile {
    pub profiles: Vec<Profile>,
    pub label_names: LabelNames,
}

/// The settings a run uses: one profile, and the label names.
#[derive(Debug)]
pub struct Config {
    pub profile: Profile,
    pub label_names: LabelNames,
}

/// Why settings could not be used.
#[derive(Debug, Clone, Copy, PartialEq, Eq, Structural)]
pub enum ConfigError {
    /// The settings name no profile.
    NoProfiles,
}

/// `FIXME` as text.
pub open spec fn fixme_name() -> Seq<char> {
    seq!['F', 'I', 'X', 'M', 'E']
}

/// `TODO` as text.
pub open spec fn todo_name() -> Seq<char> {
    seq!['T', 'O', 'D', 'O']
}

impl LabelNames {
    /// The label name for issues of kind `kind`.
    pub open spec fn name_for(&self, kind: IssueKind) -> Seq<char> {
        match kind {
            IssueKind::FIXME => self.fixme@,
            IssueKind::TODO => self.todo@,
        }
    }

    /// The label name for issues of kind `issue_kind`.
    pub fn label_rename_for(&self, issue_kind: IssueKind) -> (r: &str)
        ensures
            r@ == self.name_for(issue_kind),
    {
        match issue_kind {
            IssueKind::FIXME => self.fixme.as_str(),
            IssueKind::TODO => self.todo.as_str(),
        }
    }
}

impl ConfigFile {
    /// The settings of a run: the last profile written down, with the label
    /// names; an error when no profile is written down.
    pub fn into_config(self) -> (r: Result<Config, ConfigError>)
        ensures
            match r {
                Ok(c) => self.profiles@.len() > 0 && c.profile == self.profiles@.last()
                    && c.label_names == self.label_names,
                Err(e) => self.profiles@.len() == 0 && e == ConfigError::NoProfiles,
            },
    {
        let mut profiles = self.profiles;
        match profiles.pop() {
            Some(profile) => Ok(Config { profile, label_names: self.label_names }),
            None => Err(ConfigError::NoProfiles),
        }
    }
}

/// No profile is chosen unless the settings name one.
pub fn default_profile_default() -> (r: Option<Profile>)
    ensures
        r is None,
{
    None
}

/// The label names used when the settings give none: `FIXME` and `TODO`.
pub fn label_names_default() -> (r: LabelNames)
    ensures
        r.fixme@ == fixme_name(),
        r.todo@ == todo_name(),
{
    LabelNames { fixme: label_name_fixme_default(), todo: label_name_todo_default() }
}

/// The label name for `FIXME` issues when the settings give none.
pub fn label_name_fixme_default() -> (r: String)
    ensures
        r@ == fixme_name(),
{
    proof {
        reveal_strlit("FIXME");
    }
    let r = "FIXME".to_owned();
    assert(r@ =~= fixme_name());
    r
}

/// The label name for `TODO` issues when the settings give none.
pub fn label_name_todo_default() -> (r: String)
    ensures
        r@ == todo_name(),
{
    proof {
        reveal_strlit("TODO");
    }
    let r = "TODO".to_owned();
    assert(r@ =~= todo_name());
    r
}

} // verus!
