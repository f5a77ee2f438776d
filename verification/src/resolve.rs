//! Version resolution: choosing which release of a package to fetch.

use vstd::prelude::*;
use crate::Error;
use crate::version::{
    Version, version_lt, version_lt_exec, lemma_version_lt_trans, lemma_version_lt_irrefl,
};

verus! {

/// One known release of a package, as reported by the registry.
pub struct ReleaseInfo {
    pub version: Version,
    pub yanked: bool,
}

/// Some release in the list is not yanked.
pub open spec fn any_non_yanked(releases: Seq<ReleaseInfo>) -> bool {
    exists|i: int| 0 <= i < releases.len() && !(#[trigger] releases[i]).yanked
}

/// `v` is the version of a non-yanked release and no non-yanked release has
/// higher precedence.
pub open spec fn latest_non_yanked(releases: Seq<ReleaseInfo>, v: Version) -> bool {
    &&& exists|i: int|
        0 <= i < releases.len() && !(#[trigger] releases[i]).yanked && releases[i].version == v
    &&& forall|i: int|
        0 <= i < releases.len() && !(#[trigger] releases[i]).yanked ==> !version_lt(
            v,
            releases[i].version,
        )
}

/// Picks the maximum-precedence non-yanked release, ignoring every yanked
/// one whatever its magnitude.
pub fn select_latest<'a>(releases: &'a Vec<ReleaseInfo>) -> (r: Result<&'a Version, Error>)
    ensures
        (r is Ok) <==> any_non_yanked(releases@),
        r matches Ok(v) ==> latest_non_yanked(releases@, *v),
        r matches Err(e) ==> e is NoReleasesFound,
{
    let mut best: usize = 0;
    let mut have: bool = false;
    let mut i: usize = 0;
    while i < releases.len()
        invariant
            0 <= i <= releases@.len(),
            have ==> best < i && !releases@[best as int].yanked,
            have ==> forall|k: int|
                0 <= k < i && !(#[trigger] releases@[k]).yanked ==> !version_lt(
                    releases@[best as int].version,
                    releases@[k].version,
                ),
            !have ==> forall|k: int| 0 <= k < i ==> (#[trigger] releases@[k]).yanked,
        decreases releases@.len() - i,
    {
        if !releases[i].yanked {
            if !have {
                proof {
                    lemma_version_lt_irrefl(releases@[i as int].version);
                }
                best = i;
                have = true;
            } else if version_lt_exec(&releases[best].version, &releases[i].version) {
                proof {
                    let bv = releases@[best as int].version;
                    let iv = releases@[i as int].version;
                    assert forall|k: int|
                        0 <= k < i + 1 && !(#[trigger] releases@[k]).yanked implies !version_lt(
                        iv,
                        releases@[k].version,
                    ) by {
                        if k < i {
                            if version_lt(iv, releases@[k].version) {
                                lemma_version_lt_trans(bv, iv, releases@[k].version);
                                assert(false);
                            }
                        } else {
                            lemma_version_lt_irrefl(iv);
                        }
                    }
                }
                best = i;
            }
        }
        i += 1;
    }
    if have {
        Ok(&releases[best].version)
    } else {
        Err(Error::NoReleasesFound)
    }
}

/// Resolves the version to fetch. An explicit version is returned unchanged,
/// without reading the release list; otherwise the latest non-yanked release
/// wins, and `NoReleasesFound` is reported when every release is yanked or
/// there is none.
pub fn resolve_version<'a>(
    explicit: Option<&'a Version>,
    releases: &'a Vec<ReleaseInfo>,
) -> (r: Result<&'a Version, Error>)
    ensures
        explicit matches Some(ev) ==> r matches Ok(v) && v == ev,
        explicit is None ==> ((r is Ok) <==> any_non_yanked(releases@)),
        explicit is None ==> (r matches Ok(v) ==> latest_non_yanked(releases@, *v)),
        r matches Err(e) ==> e is NoReleasesFound && explicit is None,
{
    match explicit {
        Option::Some(v) => Ok(v),
        Option::None => select_latest(releases),
    }
}

} // verus!
