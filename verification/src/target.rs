//! The versioned-identifier model: a three-component numeric `Version`,
//! an operating-system tag, and the `Target` pairing the two, with
//! parsing, canonical display, and ordering.
use vstd::prelude::*;

use crate::text::{
    all_digits, append_decimal, dec_digits, digit_run_end, digit_val, digits_val, is_digit_char,
    lemma_dec_digits_props, lemma_digit_run_end_is, lemma_digits_val_prefix_mono,
    lemma_until_char_is, lemma_until_char_props, push_char, str_eq, until_char,
};

verus! {

/// A low-level fault while reading a token of the canonical text forms.
#[derive(Debug, Clone)]
pub enum ParseError {
    UnexpectedChar { expected: char, found: char },
    UnexpectedEndOfInput,
    InvalidNumber { content: String },
}

/// Which component of a version failed to parse, and why.
#[derive(Debug, Clone)]
pub enum VersionError {
    Major { source: ParseError },
    Minor { source: ParseError },
    Patch { source: ParseError },
}

/// Which part of a target's canonical name failed to parse, and why.
#[derive(Debug, Clone)]
pub enum TargetError {
    Version { source: VersionError },
    Separator { source: ParseError, after: &'static str },
    OperatingSystem { source: OperatingSystemError },
}

/// An operating-system token outside the closed set of supported tags.
#[derive(Debug, Clone)]
pub enum OperatingSystemError {
    Unrecognized(String),
}

/// A specific runtime build: an operating-system tag and a version.
#[derive(Debug, PartialEq, Eq, Copy, Clone, Structural)]
pub struct Target {
    pub os: OperatingSystem,
    pub version: Version,
}

/// An ordered (major, minor, patch) triple. The derived ordering is the
/// lexicographic one, which coincides with `spec_version_le` below.
#[derive(Debug, Clone, Copy, PartialEq, Eq, Structural, PartialOrd, Ord)]
pub struct Version {
    pub major: usize,
    pub minor: usize,
    pub patch: usize,
}

/// The closed set of supported operating-system tags.
#[derive(Debug, Copy, Clone, PartialEq, Eq, Structural)]
pub enum OperatingSystem {
    Darwin,
    Linux,
    Windows,
}

/// The input with one leading `v` removed, when present.
pub open spec fn spec_strip_v(s: Seq<char>) -> Seq<char> {
    if s.len() > 0 && s[0] == 'v' {
        s.skip(1)
    } else {
        s
    }
}

/// A number token can be read here: at least one leading digit, and the
/// digit run's value fits the machine word.
pub open spec fn num_ok(s: Seq<char>) -> bool {
    digit_run_end(s) > 0 && digits_val(s.take(digit_run_end(s))) <= usize::MAX
}

/// Value of the leading digit run.
pub open spec fn num_val(s: Seq<char>) -> nat {
    digits_val(s.take(digit_run_end(s)))
}

/// What follows the leading digit run.
pub open spec fn num_rest(s: Seq<char>) -> Seq<char> {
    s.skip(digit_run_end(s))
}

/// The input starts with a dot.
pub open spec fn dot_at(s: Seq<char>) -> bool {
    s.len() > 0 && s[0] == '.'
}

/// The (major, minor, patch) triple a version text denotes, or `None`
/// where the text does not parse: an optional `v`, then three digit runs
/// separated by dots. Text after the patch run is ignored.
pub open spec fn spec_version_parts(s: Seq<char>) -> Option<(nat, nat, nat)> {
    let b0 = spec_strip_v(s);
    if !num_ok(b0) {
        None
    } else {
        let r0 = num_rest(b0);
        if !dot_at(r0) {
            None
        } else {
            let b1 = r0.skip(1);
            if !num_ok(b1) {
                None
            } else {
                let r1 = num_rest(b1);
                if !dot_at(r1) {
                    None
                } else {
                    let b2 = r1.skip(1);
                    if !num_ok(b2) {
                        None
                    } else {
                        Some((num_val(b0), num_val(b1), num_val(b2)))
                    }
                }
            }
        }
    }
}

/// The major component cannot be read.
pub open spec fn version_fails_major(s: Seq<char>) -> bool {
    !num_ok(spec_strip_v(s))
}

/// The major component reads, but the first dot or the minor component
/// cannot be read.
pub open spec fn version_fails_minor(s: Seq<char>) -> bool {
    let b0 = spec_strip_v(s);
    num_ok(b0) && {
        let r0 = num_rest(b0);
        !dot_at(r0) || !num_ok(r0.skip(1))
    }
}

/// Major, first dot and minor read, but the second dot or the patch
/// component cannot be read.
pub open spec fn version_fails_patch(s: Seq<char>) -> bool {
    let b0 = spec_strip_v(s);
    num_ok(b0) && {
        let r0 = num_rest(b0);
        dot_at(r0) && num_ok(r0.skip(1)) && {
            let r1 = num_rest(r0.skip(1));
            !dot_at(r1) || !num_ok(r1.skip(1))
        }
    }
}

/// Canonical text of a version: `v<major>.<minor>.<patch>`.
pub open spec fn spec_version_chars(major: nat, minor: nat, patch: nat) -> Seq<char> {
    seq!['v'] + dec_digits(major) + seq!['.'] + dec_digits(minor) + seq!['.'] + dec_digits(patch)
}

/// Numeric triple order: major first, then minor, then patch.
pub open spec fn spec_version_le(a: Version, b: Version) -> bool {
    a.major < b.major || (a.major == b.major && (a.minor < b.minor || (a.minor == b.minor
        && a.patch <= b.patch)))
}

/// Decides whether a character is a decimal digit.
fn digit_check(c: char) -> (r: bool)
    ensures
        r == is_digit_char(c),
{
    let u = c as u32;
    48 <= u && u <= 57
}

/// Reads a leading run of decimal digits as a number and returns it with
/// the remaining text. Fails, naming the whole input, when no digit leads
/// the input or the run's value does not fit the machine word.
pub fn parse_number(content: &str) -> (r: Result<(usize, &str), ParseError>)
    ensures
        match r {
            Ok((n, rest)) => num_ok(content@) && n == num_val(content@) && rest@ == num_rest(
                content@,
            ),
            Err(e) => !num_ok(content@) && (e matches ParseError::InvalidNumber { content: c }
                && c@ == content@),
        },
{
    let ghost s = content@;
    let len = content.unicode_len();
    let mut end: usize = 0;
    while end < len && digit_check(content.get_char(end))
        invariant
            s == content@,
            len == s.len(),
            0 <= end <= len,
            forall|i: int| 0 <= i < end ==> is_digit_char(s[i]),
        decreases len - end,
    {
        end = end + 1;
    }
    proof {
        lemma_digit_run_end_is(s, end as int);
    }
    if end == 0 {
        return Err(ParseError::InvalidNumber { content: String::from_str(content) });
    }
    let mut val: usize = 0;
    let mut i: usize = 0;
    while i < end
        invariant
            s == content@,
            len == s.len(),
            0 < end <= len,
            end == digit_run_end(s),
            0 <= i <= end,
            forall|k: int| 0 <= k < end ==> is_digit_char(s[k]),
            val == digits_val(s.take(i as int)),
        decreases end - i,
    {
        let c = content.get_char(i);
        let d = (c as u32 - 48) as usize;
        proof {
            assert(is_digit_char(s[i as int]));
            assert(d == digit_val(s[i as int]));
            assert(s.take(i + 1).drop_last() =~= s.take(i as int));
            assert(s.take(i + 1).last() == s[i as int]);
        }
        let stepped = match val.checked_mul(10) {
            Some(v10) => v10.checked_add(d),
            None => None,
        };
        match stepped {
            Some(v) => {
                val = v;
            },
            None => {
                proof {
                    assert(digits_val(s.take(i + 1)) > usize::MAX);
                    lemma_digits_val_prefix_mono(s, i + 1, end as int);
                }
                return Err(ParseError::InvalidNumber { content: String::from_str(content) });
            },
        }
        i = i + 1;
    }
    let rest = content.substring_char(end, len);
    proof {
        assert(rest@ =~= num_rest(s));
    }
    Ok((val, rest))
}

/// Reads one expected character off the front of the input.
pub fn take_char(expected: char, content: &str) -> (r: Result<(char, &str), ParseError>)
    ensures
        match r {
            Ok((c, rest)) => content@.len() > 0 && content@[0] == expected && c == expected
                && rest@ == content@.skip(1),
            Err(e) => match e {
                ParseError::UnexpectedChar { expected: e2, found } => content@.len() > 0
                    && content@[0] != expected && e2 == expected && found == content@[0],
                ParseError::UnexpectedEndOfInput => content@.len() == 0,
                _ => false,
            },
        },
{
    let len = content.unicode_len();
    if len == 0 {
        return Err(ParseError::UnexpectedEndOfInput);
    }
    let ch = content.get_char(0);
    if ch == expected {
        let rest = content.substring_char(1, len);
        proof {
            assert(rest@ =~= content@.skip(1));
        }
        Ok((ch, rest))
    } else {
        Err(ParseError::UnexpectedChar { expected, found: ch })
    }
}

/// Reads a leading dot.
pub fn parse_dot(content: &str) -> (r: Result<(char, &str), ParseError>)
    ensures
        match r {
            Ok((c, rest)) => dot_at(content@) && c == '.' && rest@ == content@.skip(1),
            Err(e) => !dot_at(content@) && match e {
                ParseError::UnexpectedChar { expected, found } => content@.len() > 0 && expected
                    == '.' && found == content@[0],
                ParseError::UnexpectedEndOfInput => content@.len() == 0,
                _ => false,
            },
        },
{
    take_char('.', content)
}

/// Reads a leading dash.
pub fn parse_dash(content: &str) -> (r: Result<(char, &str), ParseError>)
    ensures
        match r {
            Ok((c, rest)) => content@.len() > 0 && content@[0] == '-' && c == '-' && rest@
                == content@.skip(1),
            Err(e) => (content@.len() == 0 || content@[0] != '-') && match e {
                ParseError::UnexpectedChar { expected, found } => content@.len() > 0 && expected
                    == '-' && found == content@[0],
                ParseError::UnexpectedEndOfInput => content@.len() == 0,
                _ => false,
            },
        },
{
    take_char('-', content)
}

impl Version {
    /// Reads a version from text: an optional leading `v`, then three
    /// dot-separated decimal numbers. Text after the patch number is
    /// ignored. The error names the component that failed.
    pub fn parse(content: &str) -> (r: Result<Version, VersionError>)
        ensures
            r is Ok <==> spec_version_parts(content@) is Some,
            r matches Ok(v) ==> spec_version_parts(content@) == Some(
                (v.major as nat, v.minor as nat, v.patch as nat),
            ),
            r matches Err(e) ==> ({
                let b0 = spec_strip_v(content@);
                let r0 = num_rest(b0);
                let b1 = r0.skip(1);
                let r1 = num_rest(b1);
                let b2 = r1.skip(1);
                match e {
                    VersionError::Major { source } => version_fails_major(content@) && (source
                        matches ParseError::InvalidNumber { content: c } && c@ == b0),
                    VersionError::Minor { source } => version_fails_minor(content@) && match source {
                        ParseError::UnexpectedEndOfInput => r0.len() == 0,
                        ParseError::UnexpectedChar { expected, found } => expected == '.'
                            && r0.len() > 0 && r0[0] != '.' && found == r0[0],
                        ParseError::InvalidNumber { content: c } => dot_at(r0) && !num_ok(b1)
                            && c@ == b1,
                    },
                    VersionError::Patch { source } => version_fails_patch(content@) && match source {
                        ParseError::UnexpectedEndOfInput => r1.len() == 0,
                        ParseError::UnexpectedChar { expected, found } => expected == '.'
                            && r1.len() > 0 && r1[0] != '.' && found == r1[0],
                        ParseError::InvalidNumber { content: c } => dot_at(r1) && !num_ok(b2)
                            && c@ == b2,
                    },
                }
            }),
    {
        let len = content.unicode_len();
        let rest: &str = if len > 0 && content.get_char(0) == 'v' {
            content.substring_char(1, len)
        } else {
            content
        };
        proof {
            assert(rest@ =~= spec_strip_v(content@));
        }

        let (major, rest) = match parse_number(rest) {
            Ok(p) => p,
            Err(e) => {
                return Err(VersionError::Major { source: e });
            },
        };
        let (_, rest) = match parse_dot(rest) {
            Ok(p) => p,
            Err(e) => {
                return Err(VersionError::Minor { source: e });
            },
        };
        let (minor, rest) = match parse_number(rest) {
            Ok(p) => p,
            Err(e) => {
                return Err(VersionError::Minor { source: e });
            },
        };
        let (_, rest) = match parse_dot(rest) {
            Ok(p) => p,
            Err(e) => {
                return Err(VersionError::Patch { source: e });
            },
        };
        let (patch, _) = match parse_number(rest) {
            Ok(p) => p,
            Err(e) => {
                return Err(VersionError::Patch { source: e });
            },
        };

        Ok(Version { major, minor, patch })
    }

    /// Canonical text form, `v<major>.<minor>.<patch>`.
    pub fn to_string(&self) -> (r: String)
        ensures
            r@ == spec_version_chars(self.major as nat, self.minor as nat, self.patch as nat),
    {
        let mut s = String::new();
        push_char(&mut s, 'v');
        append_decimal(&mut s, self.major);
        push_char(&mut s, '.');
        append_decimal(&mut s, self.minor);
        push_char(&mut s, '.');
        append_decimal(&mut s, self.patch);
        proof {
            assert(s@ =~= spec_version_chars(
                self.major as nat,
                self.minor as nat,
                self.patch as nat,
            ));
        }
        s
    }

    /// Numeric triple comparison, `self <= other`.
    pub fn le(&self, other: &Version) -> (r: bool)
        ensures
            r == spec_version_le(*self, *other),
    {
        if self.major != other.major {
            self.major < other.major
        } else if self.minor != other.minor {
            self.minor < other.minor
        } else {
            self.patch <= other.patch
        }
    }
}

/// `spec_version_le` is a total order on versions, consistent with the
/// numeric comparison of the (major, minor, patch) triples: reflexive,
/// antisymmetric, transitive, and total.
pub proof fn lemma_version_order_total(a: Version, b: Version, c: Version)
    ensures
        spec_version_le(a, a),
        spec_version_le(a, b) && spec_version_le(b, a) ==> a == b,
        spec_version_le(a, b) && spec_version_le(b, c) ==> spec_version_le(a, c),
        spec_version_le(a, b) || spec_version_le(b, a),
{
}

/// Canonical version text reads back as the triple it was made from: the
/// round trip from a version through display and parse is the identity.
pub proof fn lemma_version_round_trip(major: nat, minor: nat, patch: nat)
    requires
        major <= usize::MAX,
        minor <= usize::MAX,
        patch <= usize::MAX,
    ensures
        spec_version_parts(spec_version_chars(major, minor, patch)) == Some(
            (major, minor, patch),
        ),
{
    let s = spec_version_chars(major, minor, patch);
    let dm = dec_digits(major);
    let di = dec_digits(minor);
    let dp = dec_digits(patch);
    lemma_dec_digits_props(major);
    lemma_dec_digits_props(minor);
    lemma_dec_digits_props(patch);

    assert(s[0] == 'v');
    let b0 = spec_strip_v(s);
    let tail1 = seq!['.'] + di + seq!['.'] + dp;
    assert(b0 =~= dm + tail1);
    lemma_digit_prefix(dm, tail1);
    assert(num_ok(b0) && num_val(b0) == major);
    let r0 = num_rest(b0);
    assert(r0 =~= tail1);
    assert(dot_at(r0));

    let b1 = r0.skip(1);
    let tail2 = seq!['.'] + dp;
    assert(b1 =~= di + tail2);
    lemma_digit_prefix(di, tail2);
    assert(num_ok(b1) && num_val(b1) == minor);
    let r1 = num_rest(b1);
    assert(r1 =~= tail2);
    assert(dot_at(r1));

    let b2 = r1.skip(1);
    assert(b2 =~= dp);
    lemma_digit_prefix(dp, Seq::<char>::empty());
    assert(b2 =~= dp + Seq::<char>::empty());
    assert(num_ok(b2) && num_val(b2) == patch);
}

/// The canonical token of an operating-system tag, as it appears both in
/// the remote distribution naming and in local install-directory names.
pub open spec fn spec_os_token(os: OperatingSystem) -> Seq<char> {
    match os {
        OperatingSystem::Linux => "linux"@,
        OperatingSystem::Windows => "win"@,
        OperatingSystem::Darwin => "darwin"@,
    }
}

/// The operating system a token denotes, if recognized.
pub open spec fn spec_os_of_token(t: Seq<char>) -> Option<OperatingSystem> {
    if t == "linux"@ {
        Some(OperatingSystem::Linux)
    } else if t == "win"@ {
        Some(OperatingSystem::Windows)
    } else if t == "darwin"@ {
        Some(OperatingSystem::Darwin)
    } else {
        None
    }
}

/// Canonical text of a target, `node-v<major>.<minor>.<patch>-<os>-x64`:
/// at once the suffix of the remote download URL and the name of the
/// local installation directory.
pub open spec fn spec_target_chars(t: Target) -> Seq<char> {
    "node-"@ + spec_version_chars(
        t.version.major as nat,
        t.version.minor as nat,
        t.version.patch as nat,
    ) + seq!['-'] + spec_os_token(t.os) + "-x64"@
}

/// The input with the five-character runtime prefix removed; a shorter
/// input is left empty.
pub open spec fn spec_after_prefix(s: Seq<char>) -> Seq<char> {
    if s.len() < 5 {
        s.skip(s.len() as int)
    } else {
        s.skip(5)
    }
}

/// The version portion of a target name: after the runtime prefix, up to
/// the next dash.
pub open spec fn spec_target_version_text(s: Seq<char>) -> Seq<char> {
    let r = spec_after_prefix(s);
    r.take(until_char(r, '-'))
}

/// What follows the version portion, starting at the separating dash.
pub open spec fn spec_target_after_version(s: Seq<char>) -> Seq<char> {
    let r = spec_after_prefix(s);
    r.skip(until_char(r, '-'))
}

/// The operating-system token of a target name: after the dash that
/// follows the version, up to the next dash.
pub open spec fn spec_target_os_text(s: Seq<char>) -> Seq<char> {
    let r = spec_target_after_version(s).skip(1);
    r.take(until_char(r, '-'))
}

/// The target a name denotes, or `None` where it does not parse. The
/// runtime prefix is skipped without being checked, and the architecture
/// suffix is consumed without being validated, as the naming scheme
/// leaves both fixed.
pub open spec fn spec_target_parts(s: Seq<char>) -> Option<Target> {
    match spec_version_parts(spec_target_version_text(s)) {
        None => None,
        Some((major, minor, patch)) => {
            if spec_target_after_version(s).len() == 0 {
                None
            } else {
                match spec_os_of_token(spec_target_os_text(s)) {
                    None => None,
                    Some(os) => Some(
                        Target {
                            os,
                            version: Version {
                                major: major as usize,
                                minor: minor as usize,
                                patch: patch as usize,
                            },
                        },
                    ),
                }
            }
        },
    }
}

impl OperatingSystem {
    /// Reads an operating-system token; an unrecognized token fails,
    /// carrying the offending text.
    pub fn parse(content: &str) -> (r: Result<Self, OperatingSystemError>)
        ensures
            match r {
                Ok(os) => spec_os_of_token(content@) == Some(os),
                Err(e) => spec_os_of_token(content@) is None && (e
                    matches OperatingSystemError::Unrecognized(t) && t@ == content@),
            },
    {
        if str_eq(content, "linux") {
            Ok(OperatingSystem::Linux)
        } else if str_eq(content, "win") {
            Ok(OperatingSystem::Windows)
        } else if str_eq(content, "darwin") {
            Ok(OperatingSystem::Darwin)
        } else {
            Err(OperatingSystemError::Unrecognized(String::from_str(content)))
        }
    }

    /// The canonical token for this tag.
    pub fn to_string(&self) -> (r: String)
        ensures
            r@ == spec_os_token(*self),
    {
        match self {
            OperatingSystem::Linux => String::from_str("linux"),
            OperatingSystem::Windows => String::from_str("win"),
            OperatingSystem::Darwin => String::from_str("darwin"),
        }
    }
}

impl Default for OperatingSystem {
    /// The tag of the platform this build targets.
    fn default() -> (r: Self)
        ensures
            r == OperatingSystem::Linux,
    {
        OperatingSystem::Linux
    }
}

impl Target {
    pub fn new(os: OperatingSystem, version: Version) -> (r: Self)
        ensures
            r == (Target { os, version }),
    {
        Target { os, version }
    }

    /// Reads a target from its canonical local-directory name, such as a
    /// name of the form `node-v<major>.<minor>.<patch>-<os>-x64`. The
    /// error names the part that failed.
    pub fn parse(content: &str) -> (r: Result<Self, TargetError>)
        ensures
            r is Ok <==> spec_target_parts(content@) is Some,
            r matches Ok(t) ==> spec_target_parts(content@) == Some(t),
            r matches Err(e) ==> match e {
                TargetError::Version { .. } => spec_version_parts(
                    spec_target_version_text(content@),
                ) is None,
                TargetError::Separator { source, after } => spec_version_parts(
                    spec_target_version_text(content@),
                ) is Some && spec_target_after_version(content@).len() == 0 && (source
                    matches ParseError::UnexpectedEndOfInput) && after@ == "version"@,
                TargetError::OperatingSystem { source } => spec_version_parts(
                    spec_target_version_text(content@),
                ) is Some && spec_target_after_version(content@).len() > 0 && spec_os_of_token(
                    spec_target_os_text(content@),
                ) is None && (source matches OperatingSystemError::Unrecognized(t) && t@
                    == spec_target_os_text(content@)),
            },
    {
        let len = content.unicode_len();
        let start = if len < 5 {
            len
        } else {
            5
        };
        let rest = content.substring_char(start, len);
        proof {
            assert(rest@ =~= spec_after_prefix(content@));
        }

        let end_index = position_of_dash(rest);
        proof {
            lemma_until_char_props(rest@, '-');
        }
        let version_string = rest.substring_char(0, end_index);
        let rest = rest.substring_char(end_index, rest.unicode_len());
        proof {
            assert(version_string@ =~= spec_target_version_text(content@));
            assert(rest@ =~= spec_target_after_version(content@));
        }
        let version = match Version::parse(version_string) {
            Ok(v) => v,
            Err(source) => {
                return Err(TargetError::Version { source });
            },
        };

        let rest = match parse_dash(rest) {
            Ok((_, r)) => r,
            Err(source) => {
                proof {
                    lemma_until_char_props(spec_after_prefix(content@), '-');
                }
                return Err(TargetError::Separator { source, after: "version" });
            },
        };

        let end_index = position_of_dash(rest);
        proof {
            lemma_until_char_props(rest@, '-');
        }
        let os_string = rest.substring_char(0, end_index);
        proof {
            assert(os_string@ =~= spec_target_os_text(content@));
        }
        let os = match OperatingSystem::parse(os_string) {
            Ok(os) => os,
            Err(source) => {
                return Err(TargetError::OperatingSystem { source });
            },
        };

        Ok(Target::new(os, version))
    }

    /// Pairs a version with the build platform's default tag.
    pub fn from_version(version: Version) -> (r: Self)
        ensures
            r == (Target { os: OperatingSystem::Linux, version }),
    {
        Target::new(Default::default(), version)
    }

    pub fn version(&self) -> (r: Version)
        ensures
            r == self.version,
    {
        self.version
    }

    /// Canonical text form; the single source of truth for both the
    /// download URL suffix and the local install-directory name.
    pub fn to_string(&self) -> (r: String)
        ensures
            r@ == spec_target_chars(*self),
    {
        let mut s = String::from_str("node-");
        let vtext = self.version.to_string();
        s.append(vtext.as_str());
        push_char(&mut s, '-');
        let otext = self.os.to_string();
        s.append(otext.as_str());
        s.append("-x64");
        proof {
            assert(s@ =~= spec_target_chars(*self));
        }
        s
    }
}

/// Index of the first dash, or the length when there is none.
fn position_of_dash(content: &str) -> (r: usize)
    ensures
        r == until_char(content@, '-'),
{
    let ghost s = content@;
    let len = content.unicode_len();
    let mut i: usize = 0;
    while i < len && content.get_char(i) != '-'
        invariant
            s == content@,
            len == s.len(),
            0 <= i <= len,
            forall|k: int| 0 <= k < i ==> s[k] != '-',
        decreases len - i,
    {
        i = i + 1;
    }
    proof {
        lemma_until_char_is(s, '-', i as int);
    }
    i
}

/// Canonical target text reads back as the target it was made from: the
/// round trip from a target through display and parse is the identity,
/// for every supported operating-system tag.
pub proof fn lemma_target_round_trip(t: Target)
    ensures
        spec_target_parts(spec_target_chars(t)) == Some(t),
{
    let ma = t.version.major as nat;
    let mi = t.version.minor as nat;
    let pa = t.version.patch as nat;
    let v = spec_version_chars(ma, mi, pa);
    let os = spec_os_token(t.os);
    let s = spec_target_chars(t);
    reveal_strlit("node-");
    reveal_strlit("-x64");
    reveal_strlit("linux");
    reveal_strlit("win");
    reveal_strlit("darwin");
    lemma_dec_digits_props(ma);
    lemma_dec_digits_props(mi);
    lemma_dec_digits_props(pa);

    assert(s.len() >= 5);
    let r = spec_after_prefix(s);
    assert(r =~= v + (seq!['-'] + os + "-x64"@));

    assert(forall|i: int| 0 <= i < v.len() ==> v[i] != '-') by {
        lemma_version_chars_no_char(ma, mi, pa, '-');
    }
    lemma_until_char_is(r, '-', v.len() as int);
    assert(spec_target_version_text(s) =~= v);
    lemma_version_round_trip(ma, mi, pa);

    let after = spec_target_after_version(s);
    assert(after =~= seq!['-'] + os + "-x64"@);
    assert(after.len() > 0);
    let q = after.skip(1);
    assert(q =~= os + "-x64"@);
    assert(forall|i: int| 0 <= i < os.len() ==> os[i] != '-');
    assert(q[os.len() as int] == '-');
    assert forall|i: int| 0 <= i < os.len() implies q[i] != '-' by {
        assert(q[i] == os[i]);
    }
    lemma_until_char_is(q, '-', os.len() as int);
    assert(spec_target_os_text(s) =~= os);
    assert(spec_os_of_token(os) == Some(t.os)) by {
        match t.os {
            OperatingSystem::Linux => {},
            OperatingSystem::Windows => {
                assert(os.len() == 3 && "linux"@.len() == 5);
            },
            OperatingSystem::Darwin => {
                assert(os.len() == 6 && "linux"@.len() == 5 && "win"@.len() == 3);
            },
        }
    }
}

/// No character of a canonical version text equals `c`, for any `c`
/// outside the digits, `v` and the dot.
pub proof fn lemma_version_chars_no_char(major: nat, minor: nat, patch: nat, c: char)
    requires
        c != 'v',
        c != '.',
        !is_digit_char(c),
    ensures
        forall|i: int|
            0 <= i < spec_version_chars(major, minor, patch).len() ==> spec_version_chars(
                major,
                minor,
                patch,
            )[i] != c,
{
    let s = spec_version_chars(major, minor, patch);
    lemma_dec_digits_props(major);
    lemma_dec_digits_props(minor);
    lemma_dec_digits_props(patch);
    let dm = dec_digits(major);
    let di = dec_digits(minor);
    let dp = dec_digits(patch);
    assert forall|i: int| 0 <= i < s.len() implies s[i] != c by {
        let j1 = 1 + dm.len();
        let j2 = j1 + 1 + di.len();
        if i == 0 {
            assert(s[i] == 'v');
        } else if i < j1 {
            assert(s[i] == dm[i - 1]);
        } else if i == j1 {
            assert(s[i] == '.');
        } else if i < j2 {
            assert(s[i] == di[i - j1 - 1]);
        } else if i == j2 {
            assert(s[i] == '.');
        } else {
            assert(s[i] == dp[i - j2 - 1]);
        }
    }
}

/// No character of a canonical target text equals `c`, for any `c`
/// outside the digits and the letters, dash and dot of the naming
/// scheme.
pub proof fn lemma_target_chars_no_char(t: Target, c: char)
    requires
        c != 'n',
        c != 'o',
        c != 'd',
        c != 'e',
        c != '-',
        c != 'v',
        c != '.',
        c != 'x',
        c != '6',
        c != '4',
        c != 'l',
        c != 'i',
        c != 'u',
        c != 'w',
        c != 'a',
        c != 'r',
        !is_digit_char(c),
    ensures
        forall|i: int|
            0 <= i < spec_target_chars(t).len() ==> spec_target_chars(t)[i] != c,
{
    let s = spec_target_chars(t);
    let v = spec_version_chars(
        t.version.major as nat,
        t.version.minor as nat,
        t.version.patch as nat,
    );
    let os = spec_os_token(t.os);
    reveal_strlit("node-");
    reveal_strlit("-x64");
    reveal_strlit("linux");
    reveal_strlit("win");
    reveal_strlit("darwin");
    lemma_version_chars_no_char(
        t.version.major as nat,
        t.version.minor as nat,
        t.version.patch as nat,
        c,
    );
    assert forall|i: int| 0 <= i < s.len() implies s[i] != c by {
        let j1 = 5 + v.len();
        let j2 = j1 + 1 + os.len();
        if i < 5 {
            assert(s[i] == "node-"@[i]);
        } else if i < j1 {
            assert(s[i] == v[i - 5]);
        } else if i == j1 {
            assert(s[i] == '-');
        } else if i < j2 {
            assert(s[i] == os[i - j1 - 1]);
            match t.os {
                OperatingSystem::Linux => {},
                OperatingSystem::Windows => {},
                OperatingSystem::Darwin => {},
            }
        } else {
            assert(s[i] == "-x64"@[i - j2]);
        }
    }
}

/// For a digit sequence followed by text that does not begin with a
/// digit, the leading digit run is exactly the digit sequence.
proof fn lemma_digit_prefix(d: Seq<char>, rest: Seq<char>)
    requires
        all_digits(d),
        rest.len() == 0 || !is_digit_char(rest[0]),
    ensures
        digit_run_end(d + rest) == d.len(),
        (d + rest).take(d.len() as int) == d,
        (d + rest).skip(d.len() as int) == rest,
        num_val(d + rest) == digits_val(d),
        num_ok(d + rest) <==> d.len() > 0 && digits_val(d) <= usize::MAX,
{
    let s = d + rest;
    assert forall|i: int| 0 <= i < d.len() implies is_digit_char(s[i]) by {
        assert(s[i] == d[i]);
    }
    if (d.len() as int) < s.len() {
        assert(s[d.len() as int] == rest[0]);
    }
    lemma_digit_run_end_is(s, d.len() as int);
    assert(s.take(d.len() as int) =~= d);
    assert(s.skip(d.len() as int) =~= rest);
}

} // verus!
