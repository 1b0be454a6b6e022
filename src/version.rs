use vstd::prelude::*;
use vstd::string::*;

use crate::number::{decimal, decimal_string, parse_u32, u32_of};
use crate::text::{split, split_on, views};

verus! {

/// A three-part version number `major.minor.patch`.
#[derive(Debug, Clone, Copy, PartialEq, Eq, Structural)]
pub struct Version {
    pub major: u32,
    pub minor: u32,
    pub patch: u32,
}

/// The version after one carrying increment: the patch goes up by one; a patch
/// above nine rolls over to zero and carries into the minor; a minor above nine
/// rolls over to zero and carries into the major.
pub open spec fn incremented(v: Version) -> Version {
    let patch = v.patch + 1;
    let (patch, minor) = if patch > 9 { (0int, v.minor + 1) } else { (patch, v.minor as int) };
    let (minor, major) = if minor > 9 { (0int, v.major + 1) } else { (minor, v.major as int) };
    Version { major: major as u32, minor: minor as u32, patch: patch as u32 }
}

/// Whether every field that a carrying increment raises stays within `u32`.
pub open spec fn increment_fits(v: Version) -> bool {
    &&& v.patch < u32::MAX
    &&& (v.patch + 1 > 9 ==> v.minor < u32::MAX)
    &&& ((if v.patch + 1 > 9 { v.minor + 1 } else { v.minor as int }) > 9 ==> v.major < u32::MAX)
}

/// The version that `s` spells as `major.minor.patch`: exactly three pieces
/// between dots, each a decimal `u32`.
pub open spec fn version_of(s: Seq<char>) -> Option<Version> {
    let parts = split_on(s, '.');
    if parts.len() == 3 && u32_of(parts[0]) is Some && u32_of(parts[1]) is Some && u32_of(
        parts[2],
    ) is Some {
        Some(
            Version {
                major: u32_of(parts[0])->0,
                minor: u32_of(parts[1])->0,
                patch: u32_of(parts[2])->0,
            },
        )
    } else {
        None
    }
}

/// The text `major.minor.patch` of a version.
pub open spec fn dotted(v: Version) -> Seq<char> {
    decimal(v.major as nat) + seq!['.'] + decimal(v.minor as nat) + seq!['.'] + decimal(
        v.patch as nat,
    )
}

/// The text that introduces the version in a state file.
pub open spec fn version_lead() -> Seq<char> {
    seq!['v', 'e', 'r', 's', 'i', 'o', 'n', ' ', '=', ' ']
}

/// The line `version = major.minor.patch`.
pub open spec fn version_line(v: Version) -> Seq<char> {
    version_lead() + dotted(v)
}

/// Below nine, the patch goes up by one and the minor and major stay as they
/// are (for a minor that is a single digit).
pub proof fn lemma_incr_bumps_patch(v: Version)
    requires
        v.patch <= 8,
        v.minor <= 9,
    ensures
        incremented(v) == (Version { major: v.major, minor: v.minor, patch: (v.patch + 1) as u32 }),
{
}

/// A patch of nine rolls over to zero and carries into the minor; when the
/// minor is nine as well it rolls over too and carries into the major.
pub proof fn lemma_incr_carries(v: Version)
    requires
        v.patch == 9,
        v.minor <= 9,
        v.minor == 9 ==> v.major < u32::MAX,
    ensures
        v.minor < 9 ==> incremented(v) == (Version {
            major: v.major,
            minor: (v.minor + 1) as u32,
            patch: 0,
        }),
        v.minor == 9 ==> incremented(v) == (Version { major: (v.major + 1) as u32, minor: 0, patch: 0 }),
{
}

impl Version {
    /// Increments the version by one patch, carrying into minor and major.
    pub fn incr(&mut self)
        requires
            increment_fits(*old(self)),
        ensures
            *final(self) == incremented(*old(self)),
    {
        self.patch = self.patch + 1;
        if self.patch > 9 {
            self.patch = 0;
            self.minor = self.minor + 1;
        }
        if self.minor > 9 {
            self.minor = 0;
            self.major = self.major + 1;
        }
    }

    /// Whether a carrying increment of this version stays within `u32`.
    pub fn fits_increment(&self) -> (r: bool)
        ensures
            r == increment_fits(*self),
    {
        if self.patch == u32::MAX {
            return false;
        }
        if self.patch + 1 <= 9 {
            self.minor <= 9 || self.major < u32::MAX
        } else {
            self.minor < u32::MAX && (self.minor + 1 <= 9 || self.major < u32::MAX)
        }
    }

    /// Whether `s` is exactly three decimal `u32` numerals separated by dots,
    /// the text that `parse` reads.
    pub fn is_version(s: &str) -> (r: bool)
        ensures
            r == (version_of(s@) is Some),
    {
        let parts = split(s, '.');
        if parts.len() != 3 {
            return false;
        }
        let ghost pv = views(parts@);
        assert(pv[0] == parts@[0]@ && pv[1] == parts@[1]@ && pv[2] == parts@[2]@);
        parse_u32(parts[0].as_str()).is_some() && parse_u32(parts[1].as_str()).is_some()
            && parse_u32(parts[2].as_str()).is_some()
    }

    /// Reads `major.minor.patch`. Text that is not exactly three decimal `u32`
    /// numerals separated by dots is a fatal error and is left out; callers
    /// test it first with `is_version`.
    pub fn parse(s: &str) -> (r: Version)
        requires
            version_of(s@) is Some,
        ensures
            r == version_of(s@)->0,
    {
        let parts = split(s, '.');
        let ghost pv = views(parts@);
        assert(pv[0] == parts@[0]@ && pv[1] == parts@[1]@ && pv[2] == parts@[2]@);
        let major = parse_u32(parts[0].as_str()).unwrap();
        let minor = parse_u32(parts[1].as_str()).unwrap();
        let patch = parse_u32(parts[2].as_str()).unwrap();
        Version { major, minor, patch }
    }

    /// The line `version = major.minor.patch`, without a line break.
    pub fn to_line(&self) -> (r: String)
        ensures
            r@ == version_line(*self),
    {
        let mut out = String::from_str("version = ");
        proof {
            reveal_strlit("version = ");
            reveal_strlit(".");
        }
        out.append(decimal_string(self.major).as_str());
        out.append(".");
        out.append(decimal_string(self.minor).as_str());
        out.append(".");
        out.append(decimal_string(self.patch).as_str());
        assert(out@ =~= version_line(*self));
        out
    }
}

} // verus!
