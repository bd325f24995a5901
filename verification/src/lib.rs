//! A version manager for a language runtime: versioned build
//! identifiers, a durable override store with atomic updates and
//! upward-search resolution, and the decision logic behind shim
//! dispatch, link management and setup verification. Filesystem,
//! network and process work stays with the binary around this library;
//! every rule here is stated in a contract and proved.
use vstd::prelude::*;

pub mod config;
pub mod local;
pub mod nodeup_files;
pub mod registry;
pub mod target;
pub mod text;
pub mod verify;
pub mod version;

use crate::config::{assoc_map, keys_unique, spec_resolve, Config, ConfigError, Resolution};
use crate::local::LocalError;
use crate::target::{spec_target_chars, spec_target_parts, Target};
use crate::text::{spec_join, str_eq};

verus! {

pub const NODE_EXECUTABLE: &'static str = "node";

pub const NPM_EXECUTABLE: &'static str = "npm";

pub const NPX_EXECUTABLE: &'static str = "npx";

/// What the manager was doing when a failure surfaced.
#[derive(Debug, Copy, Clone, PartialEq, Eq, Structural)]
pub enum ErrorTask {
    ActiveVersions,
    ChangingDefault,
    Executing,
    Installing,
    Linking,
    Override,
    Removing,
    RemovingOverride,
    Verify,
}

/// The text of a task, in the imperative mood, for error messages.
pub open spec fn spec_task_text(t: ErrorTask) -> Seq<char> {
    match t {
        ErrorTask::ActiveVersions => "list active versions"@,
        ErrorTask::ChangingDefault => "change default"@,
        ErrorTask::Executing => "execute command"@,
        ErrorTask::Installing => "install node"@,
        ErrorTask::Linking => "create sym links"@,
        ErrorTask::Override => "create override"@,
        ErrorTask::Removing => "remove node"@,
        ErrorTask::RemovingOverride => "remove override"@,
        ErrorTask::Verify => "verify setup"@,
    }
}

impl ErrorTask {
    /// The task's text for error messages.
    pub fn to_string(&self) -> (r: String)
        ensures
            r@ == spec_task_text(*self),
    {
        match self {
            ErrorTask::ActiveVersions => String::from_str("list active versions"),
            ErrorTask::ChangingDefault => String::from_str("change default"),
            ErrorTask::Executing => String::from_str("execute command"),
            ErrorTask::Installing => String::from_str("install node"),
            ErrorTask::Linking => String::from_str("create sym links"),
            ErrorTask::Override => String::from_str("create override"),
            ErrorTask::Removing => String::from_str("remove node"),
            ErrorTask::RemovingOverride => String::from_str("remove override"),
            ErrorTask::Verify => String::from_str("verify setup"),
        }
    }
}

/// A failure of the link manager.
#[derive(Debug, Clone)]
pub enum LinkingError {
    /// A filesystem operation on the named path failed.
    IO { path: String, message: String },
    /// Something that is not a symbolic link already stands at the
    /// named path; it is never overwritten.
    AlreadyExists { path: String },
}

/// A failure of the manager, naming the task in progress and the cause.
#[derive(Debug, Clone)]
pub enum NodeupError {
    Local { source: LocalError, task: ErrorTask },
    IO { message: String, task: ErrorTask, path: String },
    Config { source: ConfigError, task: ErrorTask },
    Linking { source: LinkingError, task: ErrorTask },
    /// No override, marker or default decides a version here; the user
    /// can recover by setting a default.
    NoVersionFound,
}

/// The targets denoted by a listing of install-directory names, in
/// order; names that are no canonical target name are passed over.
pub open spec fn spec_installed(names: Seq<String>) -> Seq<Target>
    decreases names.len(),
{
    if names.len() == 0 {
        Seq::empty()
    } else {
        let rest = spec_installed(names.drop_last());
        match spec_target_parts(names.last()@) {
            Some(t) => rest.push(t),
            None => rest,
        }
    }
}

/// Reads the installed builds out of a listing of the download
/// directory's entry names: every name in canonical target form counts,
/// all others are passed over.
pub fn installed_versions(names: &Vec<String>) -> (r: Vec<Target>)
    ensures
        r@ == spec_installed(names@),
{
    let mut out: Vec<Target> = Vec::new();
    let len = names.len();
    let mut i: usize = 0;
    proof {
        assert(names@.take(0) =~= Seq::<String>::empty());
    }
    while i < len
        invariant
            len == names@.len(),
            0 <= i <= len,
            out@ == spec_installed(names@.take(i as int)),
        decreases len - i,
    {
        proof {
            assert(names@.take(i + 1).drop_last() =~= names@.take(i as int));
            assert(names@.take(i + 1).last() == names@[i as int]);
        }
        match Target::parse(names[i].as_str()) {
            Ok(t) => {
                out.push(t);
            },
            Err(_) => {},
        }
        i = i + 1;
    }
    proof {
        assert(names@.take(len as int) =~= names@);
    }
    out
}

/// What stands at a name in the link directory.
#[derive(Debug, Copy, Clone, PartialEq, Eq, Structural)]
pub enum EntryKind {
    /// Nothing stands there (also: the directory itself is missing).
    Absent,
    /// A symbolic link stands there.
    SymbolicLink,
    /// A regular file or any other non-link entry stands there.
    OtherEntry,
}

/// What to do about one shim name.
#[derive(Debug, Copy, Clone, PartialEq, Eq, Structural)]
pub enum LinkAction {
    /// Create the link (creating the directory first when missing).
    CreateLink,
    /// A link already stands there: already configured, nothing to do.
    AlreadyLinked,
}

/// Decides one shim name from what stands at its path: create over
/// nothing, keep an existing link, and refuse — naming the path — to
/// touch anything else.
pub fn link_decision(existing: EntryKind, path: String) -> (r: Result<LinkAction, LinkingError>)
    ensures
        existing == EntryKind::Absent ==> r == Ok::<LinkAction, LinkingError>(
            LinkAction::CreateLink,
        ),
        existing == EntryKind::SymbolicLink ==> r == Ok::<LinkAction, LinkingError>(
            LinkAction::AlreadyLinked,
        ),
        existing == EntryKind::OtherEntry ==> (r matches Err(LinkingError::AlreadyExists {
            path: p,
        }) && p == path),
{
    match existing {
        EntryKind::Absent => Ok(LinkAction::CreateLink),
        EntryKind::SymbolicLink => Ok(LinkAction::AlreadyLinked),
        EntryKind::OtherEntry => Err(LinkingError::AlreadyExists { path }),
    }
}

/// The link directory as the link manager sees it: whether it exists,
/// and what stands at each name in it.
pub struct LinkDirModel {
    pub exists: bool,
    pub entries: Map<Seq<char>, EntryKind>,
}

/// What stands at a name: nothing, when the directory itself is absent.
pub open spec fn spec_entry(d: LinkDirModel, name: Seq<char>) -> EntryKind {
    if !d.exists || !d.entries.contains_key(name) {
        EntryKind::Absent
    } else {
        d.entries[name]
    }
}

/// Linking one name: create over nothing — a missing directory is
/// created and starts empty — keep an existing link, and refuse to
/// touch anything else.
pub open spec fn spec_link_one(d: LinkDirModel, name: Seq<char>) -> Option<LinkDirModel> {
    match spec_entry(d, name) {
        EntryKind::Absent => Some(
            LinkDirModel {
                exists: true,
                entries: (if d.exists {
                    d.entries
                } else {
                    Map::empty()
                }).insert(name, EntryKind::SymbolicLink),
            },
        ),
        EntryKind::SymbolicLink => Some(d),
        EntryKind::OtherEntry => None,
    }
}

/// Linking a run of names in order, stopping at the first refusal: the
/// directory state afterwards, and the offending name when one refused.
pub open spec fn spec_link_all(d: LinkDirModel, names: Seq<Seq<char>>) -> (
    LinkDirModel,
    Option<Seq<char>>,
)
    decreases names.len(),
{
    if names.len() == 0 {
        (d, None)
    } else {
        match spec_link_one(d, names[0]) {
            None => (d, Some(names[0])),
            Some(d2) => spec_link_all(d2, names.skip(1)),
        }
    }
}

/// After a successful run, every linked name holds a symbolic link,
/// and every other name stands as it did before.
pub proof fn lemma_link_all_success(d: LinkDirModel, names: Seq<Seq<char>>)
    requires
        spec_link_all(d, names).1 is None,
    ensures
        forall|i: int|
            0 <= i < names.len() ==> spec_entry(spec_link_all(d, names).0, #[trigger] names[i])
                == EntryKind::SymbolicLink,
        forall|n: Seq<char>|
            !names.contains(n) ==> spec_entry(spec_link_all(d, names).0, n) == spec_entry(d, n),
    decreases names.len(),
{
    if names.len() > 0 {
        let n0 = names[0];
        match spec_link_one(d, n0) {
            None => {},
            Some(d2) => {
                lemma_link_all_success(d2, names.skip(1));
                assert forall|i: int|
                    0 <= i < names.len() implies spec_entry(
                    spec_link_all(d, names).0,
                    #[trigger] names[i],
                ) == EntryKind::SymbolicLink by {
                    if i > 0 {
                        assert(names.skip(1)[i - 1] == names[i]);
                    } else {
                        assert(spec_entry(d2, n0) == EntryKind::SymbolicLink);
                        if !names.skip(1).contains(n0) {
                            assert(spec_entry(spec_link_all(d2, names.skip(1)).0, n0)
                                == spec_entry(d2, n0));
                        }
                    }
                }
                assert forall|n: Seq<char>|
                    !names.contains(n) implies spec_entry(spec_link_all(d, names).0, n)
                    == spec_entry(d, n) by {
                    assert(names[0] != n);
                    assert(forall|j: int|
                        0 <= j < names.skip(1).len() ==> #[trigger] names.skip(1)[j] == names[j
                            + 1]);
                    assert(!names.skip(1).contains(n));
                    assert(spec_entry(d2, n) == spec_entry(d, n));
                }
            },
        }
    }
}

/// A run over names that all hold symbolic links changes nothing and
/// refuses nothing.
proof fn lemma_link_all_stable(d: LinkDirModel, names: Seq<Seq<char>>)
    requires
        forall|i: int|
            0 <= i < names.len() ==> spec_entry(d, #[trigger] names[i])
                == EntryKind::SymbolicLink,
    ensures
        spec_link_all(d, names) == (d, None::<Seq<char>>),
    decreases names.len(),
{
    if names.len() > 0 {
        assert(spec_entry(d, names[0]) == EntryKind::SymbolicLink);
        assert(forall|j: int|
            0 <= j < names.skip(1).len() ==> #[trigger] names.skip(1)[j] == names[j + 1]);
        lemma_link_all_stable(d, names.skip(1));
    }
}

/// The link manager is idempotent: after one successful run over a set
/// of names, a second run over the same names succeeds as well and
/// leaves the directory exactly as the first run left it.
pub proof fn lemma_link_idempotent(d: LinkDirModel, names: Seq<Seq<char>>)
    requires
        spec_link_all(d, names).1 is None,
    ensures
        spec_link_all(spec_link_all(d, names).0, names) == (
            spec_link_all(d, names).0,
            None::<Seq<char>>,
        ),
{
    lemma_link_all_success(d, names);
    lemma_link_all_stable(spec_link_all(d, names).0, names);
}

/// The link manager rejects a collision without touching it: when a
/// non-link entry stands at the first colliding name, the run fails
/// naming exactly that name, and the entry stands afterwards exactly
/// as it did before.
pub proof fn lemma_link_collision(d: LinkDirModel, names: Seq<Seq<char>>, i: int)
    requires
        0 <= i < names.len(),
        forall|j: int|
            0 <= j < i ==> spec_entry(d, #[trigger] names[j]) != EntryKind::OtherEntry,
        spec_entry(d, names[i]) == EntryKind::OtherEntry,
    ensures
        spec_link_all(d, names).1 == Some(names[i]),
        spec_entry(spec_link_all(d, names).0, names[i]) == EntryKind::OtherEntry,
    decreases names.len(),
{
    let n0 = names[0];
    match spec_link_one(d, n0) {
        None => {
            assert(spec_entry(d, n0) == EntryKind::OtherEntry);
            assert(i == 0);
        },
        Some(d2) => {
            assert(spec_entry(d, n0) != EntryKind::OtherEntry);
            assert(i != 0);
            assert(names[i] != n0);
            assert(spec_entry(d2, names[i]) == EntryKind::OtherEntry);
            assert(forall|j: int|
                0 <= j < names.skip(1).len() ==> #[trigger] names.skip(1)[j] == names[j + 1]);
            assert forall|j: int|
                0 <= j < i - 1 implies spec_entry(d2, #[trigger] names.skip(1)[j])
                != EntryKind::OtherEntry by {
                assert(names.skip(1)[j] == names[j + 1]);
                if names[j + 1] == n0 {
                    assert(spec_entry(d2, n0) == EntryKind::SymbolicLink || spec_entry(d2, n0)
                        == spec_entry(d, n0));
                } else {
                    assert(spec_entry(d2, names[j + 1]) == EntryKind::Absent || spec_entry(
                        d2,
                        names[j + 1],
                    ) == spec_entry(d, names[j + 1]));
                }
            }
            lemma_link_collision(d2, names.skip(1), i - 1);
        },
    }
}

/// How the dispatcher reads its own invocation name: its own name puts
/// it in command handling; a shimmed executable's name asks for a
/// dispatch; any other name is a misconfigured shim set.
#[derive(Debug, Copy, Clone, PartialEq, Eq, Structural)]
pub enum Invocation {
    Manager,
    Node,
    Npm,
    Npx,
    Unrecognized,
}

/// The invocation an executable name denotes.
pub open spec fn spec_classify(name: Seq<char>) -> Invocation {
    if name == "nodeup"@ {
        Invocation::Manager
    } else if name == "node"@ {
        Invocation::Node
    } else if name == "npm"@ {
        Invocation::Npm
    } else if name == "npx"@ {
        Invocation::Npx
    } else {
        Invocation::Unrecognized
    }
}

/// Classifies the name the process was invoked as.
pub fn classify_invocation(name: &str) -> (r: Invocation)
    ensures
        r == spec_classify(name@),
{
    if str_eq(name, "nodeup") {
        Invocation::Manager
    } else if str_eq(name, "node") {
        Invocation::Node
    } else if str_eq(name, "npm") {
        Invocation::Npm
    } else if str_eq(name, "npx") {
        Invocation::Npx
    } else {
        Invocation::Unrecognized
    }
}

/// Where a target's copy of an executable lives:
/// `<download-dir>/<target-canonical-name>/bin/<name>`.
pub open spec fn spec_bin_path(download_dir: Seq<char>, t: Target, bin: Seq<char>) -> Seq<char> {
    spec_join(spec_join(spec_join(download_dir, spec_target_chars(t)), "bin"@), bin)
}

/// The path of one executable inside one build's installation.
pub fn bin_path(download_dir: &str, target: &Target, bin: &str) -> (r: String)
    ensures
        r@ == spec_bin_path(download_dir@, *target, bin@),
{
    let base = crate::local::target_path(download_dir, target);
    let with_bin = crate::text::join_path(base.as_str(), "bin");
    crate::text::join_path(with_bin.as_str(), bin)
}

/// The dispatch decision: resolves the active target for the current
/// directory through the override store and names the real binary to
/// transfer control to. A successful transfer is terminal — the
/// dispatcher's process image becomes that binary — so everything here
/// is decided before it. With nothing resolved, the caller is told that
/// no version is active; a resolution fault is reported under the
/// executing task.
pub fn resolve_bin_path(
    config: &Config,
    from_dir: &str,
    markers: &Vec<(String, String)>,
    download_dir: &str,
    bin: &str,
) -> (r: Result<String, NodeupError>)
    requires
        config.wf(),
        keys_unique(markers@),
    ensures
        match spec_resolve(config@, assoc_map(markers@), from_dir@) {
            Resolution::ByOverride(t) => r matches Ok(p) && p@ == spec_bin_path(
                download_dir@,
                t,
                bin@,
            ),
            Resolution::ByMarker(t) => r matches Ok(p) && p@ == spec_bin_path(
                download_dir@,
                t,
                bin@,
            ),
            Resolution::MarkerInvalid(d) => r matches Err(NodeupError::Config { source, task })
                && task == ErrorTask::Executing && (source matches ConfigError::ParseError {
                path,
                ..
            } && path@ == d),
            Resolution::UseDefault => if config@.contains_key("default"@) {
                r matches Ok(p) && p@ == spec_bin_path(download_dir@, config@["default"@], bin@)
            } else {
                r matches Err(e) && e is NoVersionFound
            },
        },
{
    match config.get_active_target(from_dir, markers) {
        Ok(Some(t)) => Ok(bin_path(download_dir, &t, bin)),
        Ok(None) => Err(NodeupError::NoVersionFound),
        Err(source) => Err(NodeupError::Config { source, task: ErrorTask::Executing }),
    }
}

} // verus!
