//! A standalone version identifier: the minimal parser for the
//! three-component form, kept free of the target naming scheme.
use vstd::prelude::*;

use crate::target::{
    self, dot_at, num_ok, num_rest, num_val, spec_strip_v, spec_version_parts,
};

verus! {

/// An ordered (major, minor, patch) triple.
#[derive(Debug, Clone, Copy, PartialEq, Eq, Structural, PartialOrd, Ord)]
pub struct Version {
    pub major: usize,
    pub minor: usize,
    pub patch: usize,
}

/// A fault while reading version text, carrying the text that failed.
#[derive(Debug, Clone)]
pub enum VersionTextError {
    Number { content: String },
    Dot { content: String },
}

impl Version {
    /// Reads a version from text: an optional leading `v`, then three
    /// dot-separated decimal numbers; text after the patch number is
    /// ignored. The error carries the text at the point of failure.
    pub fn parse(content: &str) -> (r: Result<Version, VersionTextError>)
        ensures
            r is Ok <==> spec_version_parts(content@) is Some,
            r matches Ok(v) ==> spec_version_parts(content@) == Some(
                (v.major as nat, v.minor as nat, v.patch as nat),
            ),
            r matches Err(e) ==> ({
                let b0 = spec_strip_v(content@);
                let r0 = num_rest(b0);
                let b1 = r0.skip(1);
                let r1 = num_rest(b1);
                match e {
                    VersionTextError::Number { content: c } => (!num_ok(b0) && c@ == b0) || (
                    num_ok(b0) && dot_at(r0) && !num_ok(b1) && c@ == b1) || (num_ok(b0) && dot_at(
                        r0,
                    ) && num_ok(b1) && dot_at(r1) && !num_ok(r1.skip(1)) && c@ == r1.skip(1)),
                    VersionTextError::Dot { content: c } => (num_ok(b0) && !dot_at(r0) && c@ == r0)
                        || (num_ok(b0) && dot_at(r0) && num_ok(b1) && !dot_at(r1) && c@ == r1),
                }
            }),
    {
        let len = content.unicode_len();
        let rest: &str = if len > 0 && content.get_char(0) == 'v' {
            content.substring_char(1, len)
        } else {
            content
        };
        proof {
            assert(rest@ =~= spec_strip_v(content@));
        }

        let (major, rest) = match parse_number(rest) {
            Ok(p) => p,
            Err(e) => {
                return Err(e);
            },
        };
        let (_, rest) = match parse_dot(rest) {
            Ok(p) => p,
            Err(e) => {
                return Err(e);
            },
        };
        let (minor, rest) = match parse_number(rest) {
            Ok(p) => p,
            Err(e) => {
                return Err(e);
            },
        };
        let (_, rest) = match parse_dot(rest) {
            Ok(p) => p,
            Err(e) => {
                return Err(e);
            },
        };
        let (patch, _) = match parse_number(rest) {
            Ok(p) => p,
            Err(e) => {
                return Err(e);
            },
        };

        Ok(Version { major, minor, patch })
    }
}

/// Reads a leading run of decimal digits as a number and returns it with
/// the remaining text.
pub fn parse_number(content: &str) -> (r: Result<(usize, &str), VersionTextError>)
    ensures
        match r {
            Ok((n, rest)) => num_ok(content@) && n == num_val(content@) && rest@ == num_rest(
                content@,
            ),
            Err(e) => !num_ok(content@) && (e matches VersionTextError::Number { content: c }
                && c@ == content@),
        },
{
    match target::parse_number(content) {
        Ok(p) => Ok(p),
        Err(_) => Err(VersionTextError::Number { content: String::from_str(content) }),
    }
}

/// Reads a leading dot.
pub fn parse_dot(content: &str) -> (r: Result<((), &str), VersionTextError>)
    ensures
        match r {
            Ok((_, rest)) => dot_at(content@) && rest@ == content@.skip(1),
            Err(e) => !dot_at(content@) && (e matches VersionTextError::Dot { content: c } && c@
                == content@),
        },
{
    match target::parse_dot(content) {
        Ok((_, rest)) => Ok(((), rest)),
        Err(_) => Err(VersionTextError::Dot { content: String::from_str(content) }),
    }
}

} // verus!
