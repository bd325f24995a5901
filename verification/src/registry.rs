//! The toolchain registry's interface boundary: the canonical download
//! URL for a build, and the choice of the newest long-term-support
//! version among the versions a registry listing offers. Fetching and
//! unpacking are left to the caller.
use vstd::prelude::*;

use crate::target::{
    spec_target_chars, spec_version_chars, spec_version_le, spec_version_parts, Target, Version,
};
use crate::text::push_char;

verus! {

pub const BASE_URL: &'static str = "https://nodejs.org/dist/";

/// One entry of the registry's version listing: a version text and
/// whether it is marked as a long-term-support release.
#[derive(Debug, Clone)]
pub struct AvailableVersion {
    pub version: String,
    pub lts: bool,
}

/// Full download URL of a build:
/// `<base>/<version>/<target-canonical-name>.tar.gz`.
pub open spec fn spec_download_url(t: Target) -> Seq<char> {
    BASE_URL@ + spec_version_chars(
        t.version.major as nat,
        t.version.minor as nat,
        t.version.patch as nat,
    ) + seq!['/'] + spec_target_chars(t) + ".tar.gz"@
}

/// An entry that counts for the long-term-support choice: marked as
/// such, with a version text that parses.
pub open spec fn spec_lts_candidate(av: AvailableVersion) -> bool {
    av.lts && spec_version_parts(av.version@) is Some
}

/// The version an entry denotes.
pub open spec fn spec_entry_version(av: AvailableVersion) -> Version
    recommends
        spec_version_parts(av.version@) is Some,
{
    let parts = spec_version_parts(av.version@)->Some_0;
    Version { major: parts.0 as usize, minor: parts.1 as usize, patch: parts.2 as usize }
}

/// The URL a build is downloaded from.
pub fn get_node_download_url(target: Target) -> (r: String)
    ensures
        r@ == spec_download_url(target),
{
    let mut url = String::from_str(BASE_URL);
    let vtext = target.version.to_string();
    url.append(vtext.as_str());
    push_char(&mut url, '/');
    let ttext = target.to_string();
    url.append(ttext.as_str());
    url.append(".tar.gz");
    proof {
        assert(url@ =~= spec_download_url(target));
    }
    url
}

/// The newest long-term-support version in a registry listing: the
/// maximum, under the numeric triple order, of the versions of entries
/// marked long-term-support whose version text parses. `None` when the
/// listing has no such entry. Entries whose text does not parse are
/// passed over.
pub fn latest_lts(available: &Vec<AvailableVersion>) -> (r: Option<Version>)
    ensures
        r is None <==> (forall|k: int|
            0 <= k < available@.len() ==> !spec_lts_candidate(available@[k])),
        r matches Some(best) ==> (exists|k: int|
            0 <= k < available@.len() && spec_lts_candidate(available@[k]) && spec_entry_version(
                available@[k],
            ) == best),
        r matches Some(best) ==> (forall|k: int|
            0 <= k < available@.len() && spec_lts_candidate(available@[k])
                ==> spec_version_le(spec_entry_version(available@[k]), best)),
{
    let mut best: Option<Version> = None;
    let len = available.len();
    let mut i: usize = 0;
    while i < len
        invariant
            len == available@.len(),
            0 <= i <= len,
            best is None <==> (forall|k: int|
                0 <= k < i ==> !spec_lts_candidate(available@[k])),
            best matches Some(b) ==> (exists|k: int|
                0 <= k < i && spec_lts_candidate(available@[k]) && spec_entry_version(
                    available@[k],
                ) == b),
            best matches Some(b) ==> (forall|k: int|
                0 <= k < i && spec_lts_candidate(available@[k]) ==> spec_version_le(
                    spec_entry_version(available@[k]),
                    b,
                )),
        decreases len - i,
    {
        let entry = &available[i];
        if entry.lts {
            match Version::parse(entry.version.as_str()) {
                Ok(v) => {
                    proof {
                        assert(spec_lts_candidate(available@[i as int]));
                        assert(spec_entry_version(available@[i as int]) == v);
                    }
                    match best {
                        None => {
                            best = Some(v);
                        },
                        Some(b) => {
                            if b.le(&v) {
                                best = Some(v);
                            }
                        },
                    }
                },
                Err(_) => {},
            }
        }
        i = i + 1;
    }
    best
}

} // verus!
