use vstd::prelude::*;

use crate::strutil::{push_char, string_from_chars};

verus! {

/// A semantic version, modelled as its three numeric components.
/// Comparison is total: major, then minor, then patch.
#[derive(Debug, Clone, Copy, PartialEq, Eq, Structural)]
pub struct Version {
    pub major: u64,
    pub minor: u64,
    pub patch: u64,
}

impl View for Version {
    type V = Version;

    open spec fn view(&self) -> Version {
        *self
    }
}

/// Strict order on versions: major, then minor, then patch.
pub open spec fn version_lt(a: Version, b: Version) -> bool {
    a.major < b.major || (a.major == b.major && (a.minor < b.minor || (a.minor == b.minor
        && a.patch < b.patch)))
}

pub open spec fn version_le(a: Version, b: Version) -> bool {
    version_lt(a, b) || a == b
}

impl Version {
    pub open spec fn spec_new(major: u64, minor: u64, patch: u64) -> Version {
        Version { major, minor, patch }
    }

    /// Builds the version with the given components.
    pub fn new(major: u64, minor: u64, patch: u64) -> (r: Version)
        ensures
            r == Version::spec_new(major, minor, patch),
    {
        Version { major, minor, patch }
    }

    /// Decides the strict version order.
    pub fn lt(&self, other: &Version) -> (r: bool)
        ensures
            r == version_lt(*self, *other),
    {
        if self.major != other.major {
            self.major < other.major
        } else if self.minor != other.minor {
            self.minor < other.minor
        } else {
            self.patch < other.patch
        }
    }
}

/// The order on versions is total: any two versions compare.
pub proof fn lemma_version_order_total(a: Version, b: Version)
    ensures
        version_lt(a, b) || version_lt(b, a) || a == b,
{
}

/// The digit character for `d`.
pub open spec fn digit_char(d: int) -> char {
    if d == 0 {
        '0'
    } else if d == 1 {
        '1'
    } else if d == 2 {
        '2'
    } else if d == 3 {
        '3'
    } else if d == 4 {
        '4'
    } else if d == 5 {
        '5'
    } else if d == 6 {
        '6'
    } else if d == 7 {
        '7'
    } else if d == 8 {
        '8'
    } else {
        '9'
    }
}

/// The decimal representation of `n`, most significant digit first,
/// with no leading zeros (a single `'0'` for zero).
pub open spec fn dec_rep(n: int) -> Seq<char>
    decreases n,
{
    if n < 10 {
        seq![digit_char(n)]
    } else {
        dec_rep(n / 10).push(digit_char(n % 10))
    }
}

/// The decimal form "major.minor.patch" of a version.
pub open spec fn version_rep(v: Version) -> Seq<char> {
    dec_rep(v.major as int) + seq!['.'] + dec_rep(v.minor as int) + seq!['.'] + dec_rep(
        v.patch as int,
    )
}

fn digit_char_exec(d: u64) -> (c: char)
    requires
        d < 10,
    ensures
        c == digit_char(d as int),
{
    match d {
        0 => '0',
        1 => '1',
        2 => '2',
        3 => '3',
        4 => '4',
        5 => '5',
        6 => '6',
        7 => '7',
        8 => '8',
        _ => '9',
    }
}

/// Appends the decimal digits of `n` to `out`.
pub fn push_dec_chars(out: &mut Vec<char>, n: u64)
    ensures
        final(out)@ == old(out)@ + dec_rep(n as int),
    decreases n,
{
    if n >= 10 {
        push_dec_chars(out, n / 10);
    }
    out.push(digit_char_exec(n % 10));
    assert(out@ =~= old(out)@ + dec_rep(n as int));
}

/// Appends "major.minor.patch" to `out`.
pub fn push_version_chars(out: &mut Vec<char>, v: &Version)
    ensures
        final(out)@ == old(out)@ + version_rep(*v),
{
    push_dec_chars(out, v.major);
    out.push('.');
    push_dec_chars(out, v.minor);
    out.push('.');
    push_dec_chars(out, v.patch);
    assert(out@ =~= old(out)@ + version_rep(*v));
}

impl Version {
    /// The decimal form "major.minor.patch" of this version.
    pub fn version_string(&self) -> (r: String)
        ensures
            r@ == version_rep(*self),
    {
        let mut out: Vec<char> = Vec::new();
        push_version_chars(&mut out, self);
        string_from_chars(&out)
    }
}

/// What semver's `Version::parse` makes of a string: `None` where it
/// fails, else the major, minor and patch components. The result is a
/// function of the characters alone.
pub uninterp spec fn semver_of(s: Seq<char>) -> Option<(u64, u64, u64)>;

/// Relies on semver's `Version::parse`: it reads a semantic version from
/// a string, deterministically; pre-release and build metadata are
/// dropped here, only the three numeric components are kept.
#[verifier::external_body]
pub fn parse_semver(s: &str) -> (r: Option<Version>)
    ensures
        match semver_of(s@) {
            Some(t) => r == Some(Version { major: t.0, minor: t.1, patch: t.2 }),
            None => r is None,
        },
{
    match semver::Version::parse(s) {
        Ok(v) => Some(Version { major: v.major, minor: v.minor, patch: v.patch }),
        Err(_) => None,
    }
}

} // verus!
