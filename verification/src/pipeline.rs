//! The package specification given on the command line.

use vstd::prelude::*;
use crate::Error;
use crate::package::{PackageRef, ref_chars, valid_ref_chars};
use crate::version::{Version, version_wf, version_chars, valid_version_chars, parse_version};

verus! {

/// The first index of `c` in `s` at or after `i`, or the length when `c`
/// does not occur there.
pub open spec fn first_index_from(s: Seq<char>, c: char, i: int) -> int
    decreases s.len() - i,
{
    if i < 0 || i >= s.len() {
        s.len() as int
    } else if s[i] == c {
        i
    } else {
        first_index_from(s, c, i + 1)
    }
}

/// A package spec is a reference, optionally followed by `@` and a version.
/// The split is at the first `@`; labels never contain one.
pub open spec fn valid_spec_chars(s: Seq<char>) -> bool {
    let a = first_index_from(s, '@', 0);
    if a == s.len() {
        valid_ref_chars(s)
    } else {
        valid_ref_chars(s.subrange(0, a)) && valid_version_chars(
            s.subrange(a + 1, s.len() as int),
        )
    }
}

/// What the user asked for: a package and, optionally, an explicit version.
pub struct PackageSpec {
    pub package: PackageRef,
    pub version: Option<Version>,
}

impl PackageSpec {
    /// Parses `<namespace>:<name>[@<version>]`.
    pub fn parse(s: &str) -> (r: Result<PackageSpec, Error>)
        ensures
            (r is Ok) <==> valid_spec_chars(s@),
            r matches Ok(ps) ==> ({
                let a = first_index_from(s@, '@', 0);
                &&& ps.package.wf()
                &&& (a == s@.len() ==> ps.version is None && ref_chars(
                    ps.package@.0,
                    ps.package@.1,
                ) == s@)
                &&& (a < s@.len() ==> (ps.version matches Some(v) && version_wf(v) && ref_chars(
                    ps.package@.0,
                    ps.package@.1,
                ) == s@.subrange(0, a) && version_chars(v) == s@.subrange(a + 1, s@.len() as int)))
            }),
            r matches Err(e) ==> e is InvalidReference,
    {
        let n = s.unicode_len();
        let mut i: usize = 0;
        while i < n && s.get_char(i) != '@'
            invariant
                n == s@.len(),
                0 <= i <= n,
                first_index_from(s@, '@', 0) == first_index_from(s@, '@', i as int),
            decreases n - i,
        {
            i += 1;
            proof {
                assert(first_index_from(s@, '@', (i - 1) as int) == first_index_from(
                    s@,
                    '@',
                    i as int,
                ));
            }
        }
        proof {
            assert(first_index_from(s@, '@', i as int) == i);
        }
        if i == n {
            match PackageRef::parse(s) {
                Ok(p) => Ok(PackageSpec { package: p, version: None }),
                Err(e) => Err(e),
            }
        } else {
            let rs = s.substring_char(0, i);
            let vs = s.substring_char(i + 1, n);
            let p = match PackageRef::parse(rs) {
                Ok(p) => p,
                Err(e) => {
                    return Err(e);
                },
            };
            let v = match parse_version(vs) {
                Ok(v) => v,
                Err(e) => {
                    return Err(e);
                },
            };
            Ok(PackageSpec { package: p, version: Some(v) })
        }
    }

    /// Whether resolution needs the registry's release list: only when no
    /// explicit version was given.
    pub fn version_query_needed(&self) -> (r: bool)
        ensures
            r == (self.version is None),
    {
        match &self.version {
            Option::None => true,
            Option::Some(_) => false,
        }
    }
}

} // verus!
