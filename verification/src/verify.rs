//! Verification of the shim setup: given what the filesystem shows at
//! each expected link name and what the executable-path search found
//! for that name, decides whether the setup is correct and, when not,
//! what exactly is wrong. Gathering the observations is left to the
//! caller.
use vstd::prelude::*;

use crate::text::str_eq;

verus! {

/// The overall verdict over the whole shim set.
#[derive(Debug, Clone)]
pub enum ConfigurationCheck {
    Correct,
    Incorrect(IncorrectConfiguration),
}

/// What is wrong with the shim setup, with the offending path.
#[derive(Debug, Clone)]
pub enum IncorrectConfiguration {
    WrongBinary(String),
    LinkNotFound,
    NotASymlink(String),
    MissingSymLink(String),
    PathNotFound,
}

/// What stands at one expected link name.
#[derive(Debug, Clone, Copy, PartialEq, Eq, Structural)]
pub enum LinkState {
    Missing,
    NotALink,
    Link,
}

/// What the executable-path search found for one name.
#[derive(Debug, Clone)]
pub enum PathLookup {
    Found(String),
    BinaryNotFound,
    PathUnavailable,
}

/// One observation: the expected link path, what stands there, and
/// what the executable-path search found for the name.
#[derive(Debug, Clone)]
pub struct LinkCheck {
    pub path: String,
    pub state: LinkState,
    pub lookup: PathLookup,
}

/// Whether two verdicts describe the same finding at the same path.
pub open spec fn spec_incorrect_eq(a: IncorrectConfiguration, b: IncorrectConfiguration) -> bool {
    match (a, b) {
        (IncorrectConfiguration::WrongBinary(x), IncorrectConfiguration::WrongBinary(y)) => x@
            == y@,
        (IncorrectConfiguration::LinkNotFound, IncorrectConfiguration::LinkNotFound) => true,
        (IncorrectConfiguration::NotASymlink(x), IncorrectConfiguration::NotASymlink(y)) => x@
            == y@,
        (IncorrectConfiguration::MissingSymLink(x), IncorrectConfiguration::MissingSymLink(y)) => x@
            == y@,
        (IncorrectConfiguration::PathNotFound, IncorrectConfiguration::PathNotFound) => true,
        _ => false,
    }
}

/// Whether two overall verdicts agree.
pub open spec fn spec_check_eq(a: ConfigurationCheck, b: ConfigurationCheck) -> bool {
    match (a, b) {
        (ConfigurationCheck::Correct, ConfigurationCheck::Correct) => true,
        (ConfigurationCheck::Incorrect(x), ConfigurationCheck::Incorrect(y)) => spec_incorrect_eq(
            x,
            y,
        ),
        _ => false,
    }
}

impl PartialEq for IncorrectConfiguration {
    fn eq(&self, other: &Self) -> (r: bool) {
        match (self, other) {
            (IncorrectConfiguration::WrongBinary(x), IncorrectConfiguration::WrongBinary(y)) =>
                str_eq(x.as_str(), y.as_str()),
            (IncorrectConfiguration::LinkNotFound, IncorrectConfiguration::LinkNotFound) => true,
            (IncorrectConfiguration::NotASymlink(x), IncorrectConfiguration::NotASymlink(y)) =>
                str_eq(x.as_str(), y.as_str()),
            (
                IncorrectConfiguration::MissingSymLink(x),
                IncorrectConfiguration::MissingSymLink(y),
            ) => str_eq(x.as_str(), y.as_str()),
            (IncorrectConfiguration::PathNotFound, IncorrectConfiguration::PathNotFound) => true,
            _ => false,
        }
    }
}

impl vstd::std_specs::cmp::PartialEqSpecImpl for IncorrectConfiguration {
    open spec fn obeys_eq_spec() -> bool {
        true
    }

    open spec fn eq_spec(&self, other: &Self) -> bool {
        spec_incorrect_eq(*self, *other)
    }
}

impl PartialEq for ConfigurationCheck {
    fn eq(&self, other: &Self) -> (r: bool) {
        match (self, other) {
            (ConfigurationCheck::Correct, ConfigurationCheck::Correct) => true,
            (ConfigurationCheck::Incorrect(x), ConfigurationCheck::Incorrect(y)) => x == y,
            _ => false,
        }
    }
}

impl vstd::std_specs::cmp::PartialEqSpecImpl for ConfigurationCheck {
    open spec fn obeys_eq_spec() -> bool {
        true
    }

    open spec fn eq_spec(&self, other: &Self) -> bool {
        spec_check_eq(*self, *other)
    }
}

impl IncorrectConfiguration {
    /// The finding as an actionable message, with the offending path
    /// and the remediation spelled out.
    pub fn to_string(&self) -> (r: String)
        ensures
            match self {
                IncorrectConfiguration::NotASymlink(p) => r@ == "The binary at: "@ + p@
                    + " was expected to be a symlink to nodeup. Try removing and running `nodeup control link` to reconfigure."@,
                IncorrectConfiguration::MissingSymLink(p) => r@
                    == "Missing a symlink to nodeup at: "@ + p@
                    + ". Try running `nodeup control link` to configure the symlinks"@,
                IncorrectConfiguration::PathNotFound => r@
                    == "Can't find the Path environment variable."@,
                IncorrectConfiguration::LinkNotFound => r@
                    == "Can't find the links for node, npm, and npx in your Path environment variable. Try running `nodeup control link` and adding the printed path to your Path environment variable."@,
                IncorrectConfiguration::WrongBinary(p) => r@ == "The binary at "@ + p@
                    + " has priority over the symlink to nodeup. This can be fixed by moving the path to the Nodeup symlinks to the beginning of the Path environment variable"@,
            },
    {
        match self {
            IncorrectConfiguration::NotASymlink(p) => {
                let mut s = String::from_str("The binary at: ");
                s.append(p.as_str());
                s.append(
                    " was expected to be a symlink to nodeup. Try removing and running `nodeup control link` to reconfigure.",
                );
                s
            },
            IncorrectConfiguration::MissingSymLink(p) => {
                let mut s = String::from_str("Missing a symlink to nodeup at: ");
                s.append(p.as_str());
                s.append(". Try running `nodeup control link` to configure the symlinks");
                s
            },
            IncorrectConfiguration::PathNotFound => String::from_str(
                "Can't find the Path environment variable.",
            ),
            IncorrectConfiguration::LinkNotFound => String::from_str(
                "Can't find the links for node, npm, and npx in your Path environment variable. Try running `nodeup control link` and adding the printed path to your Path environment variable.",
            ),
            IncorrectConfiguration::WrongBinary(p) => {
                let mut s = String::from_str("The binary at ");
                s.append(p.as_str());
                s.append(
                    " has priority over the symlink to nodeup. This can be fixed by moving the path to the Nodeup symlinks to the beginning of the Path environment variable",
                );
                s
            },
        }
    }
}

/// The verdict one observation warrants: a missing or non-link entry is
/// named as such; for a present link, the executable-path search must
/// find exactly the link, or the search's failure is named.
pub open spec fn spec_verify_link(c: LinkCheck) -> ConfigurationCheck {
    match c.state {
        LinkState::Missing => ConfigurationCheck::Incorrect(
            IncorrectConfiguration::MissingSymLink(c.path),
        ),
        LinkState::NotALink => ConfigurationCheck::Incorrect(
            IncorrectConfiguration::NotASymlink(c.path),
        ),
        LinkState::Link => match c.lookup {
            PathLookup::BinaryNotFound => ConfigurationCheck::Incorrect(
                IncorrectConfiguration::LinkNotFound,
            ),
            PathLookup::PathUnavailable => ConfigurationCheck::Incorrect(
                IncorrectConfiguration::PathNotFound,
            ),
            PathLookup::Found(p) => if p@ == c.path@ {
                ConfigurationCheck::Correct
            } else {
                ConfigurationCheck::Incorrect(IncorrectConfiguration::WrongBinary(p))
            },
        },
    }
}

/// The verdict over a whole set of observations: the first incorrect
/// one, else correct.
pub open spec fn spec_verify_links(s: Seq<LinkCheck>) -> ConfigurationCheck
    decreases s.len(),
{
    if s.len() == 0 {
        ConfigurationCheck::Correct
    } else {
        match spec_verify_link(s[0]) {
            ConfigurationCheck::Correct => spec_verify_links(s.skip(1)),
            bad => bad,
        }
    }
}

/// Decides the verdict for one observation.
fn verify_link(check: LinkCheck) -> (r: ConfigurationCheck)
    ensures
        r == spec_verify_link(check),
{
    match check.state {
        LinkState::Missing => ConfigurationCheck::Incorrect(
            IncorrectConfiguration::MissingSymLink(check.path),
        ),
        LinkState::NotALink => ConfigurationCheck::Incorrect(
            IncorrectConfiguration::NotASymlink(check.path),
        ),
        LinkState::Link => match check.lookup {
            PathLookup::BinaryNotFound => ConfigurationCheck::Incorrect(
                IncorrectConfiguration::LinkNotFound,
            ),
            PathLookup::PathUnavailable => ConfigurationCheck::Incorrect(
                IncorrectConfiguration::PathNotFound,
            ),
            PathLookup::Found(p) => {
                if str_eq(p.as_str(), check.path.as_str()) {
                    ConfigurationCheck::Correct
                } else {
                    ConfigurationCheck::Incorrect(IncorrectConfiguration::WrongBinary(p))
                }
            },
        },
    }
}

/// Decides the verdict over a whole set of observations, one per
/// expected shim name: the first incorrect one, else correct.
pub fn verify_links(checks: Vec<LinkCheck>) -> (r: ConfigurationCheck)
    ensures
        r == spec_verify_links(checks@),
{
    let ghost s = checks@;
    let mut remaining = checks;
    while remaining.len() > 0
        invariant
            s == checks@,
            spec_verify_links(s) == spec_verify_links(remaining@),
        decreases remaining.len(),
    {
        let ghost before = remaining@;
        let check = remaining.remove(0);
        proof {
            assert(before[0] == check);
            assert(remaining@ =~= before.skip(1));
        }
        let verdict = verify_link(check);
        proof {
            assert(spec_verify_links(before) == (match spec_verify_link(before[0]) {
                ConfigurationCheck::Correct => spec_verify_links(before.skip(1)),
                bad => bad,
            }));
        }
        match verdict {
            ConfigurationCheck::Correct => {},
            ConfigurationCheck::Incorrect(bad) => {
                return ConfigurationCheck::Incorrect(bad);
            },
        }
    }
    ConfigurationCheck::Correct
}

} // verus!
