//! Output publishing: the final destination path and the overwrite rule.

use vstd::prelude::*;
use crate::Error;
use crate::package::PackageRef;
use crate::version::{Version, version_chars, version_to_string};
use crate::format::{wasm_ext, wit_ext};

verus! {

/// Whether the output path selects directory mode: it ends with a slash.
pub open spec fn directory_mode(output: Seq<char>) -> bool {
    output.len() > 0 && output[output.len() - 1] == '/'
}

/// The synthesized file name for directory-mode output:
/// `namespace_name@version.ext`, where the extension is `wit` when decoded
/// text is being published and `wasm` otherwise.
pub open spec fn synthesized_name(
    ns: Seq<char>,
    nm: Seq<char>,
    v: Version,
    has_text: bool,
) -> Seq<char> {
    ns + seq!['_'] + nm + seq!['@'] + version_chars(v) + seq!['.'] + (if has_text {
        wit_ext()
    } else {
        wasm_ext()
    })
}

/// The final destination: in directory mode the synthesized name appended
/// to the directory, otherwise the output path verbatim.
pub open spec fn final_path_chars(
    output: Seq<char>,
    ns: Seq<char>,
    nm: Seq<char>,
    v: Version,
    has_text: bool,
) -> Seq<char> {
    if directory_mode(output) {
        output + synthesized_name(ns, nm, v, has_text)
    } else {
        output
    }
}

/// Detects directory mode.
pub fn output_is_directory(output: &str) -> (r: bool)
    ensures
        r == directory_mode(output@),
{
    let n = output.unicode_len();
    if n == 0 {
        return false;
    }
    output.get_char(n - 1) == '/'
}

/// Computes the final destination path for the artifact.
pub fn final_output_path(output: &str, pkg: &PackageRef, version: &Version, has_text: bool) -> (r:
    String)
    ensures
        r@ == final_path_chars(output@, pkg@.0, pkg@.1, *version, has_text),
{
    if !output_is_directory(output) {
        return output.to_owned();
    }
    let mut s = output.to_owned();
    s.append(pkg.namespace().as_str());
    s.append("_");
    s.append(pkg.name().as_str());
    s.append("@");
    let vs = version_to_string(version);
    s.append(vs.as_str());
    s.append(".");
    if has_text {
        s.append("wit");
    } else {
        s.append("wasm");
    }
    proof {
        reveal_strlit("_");
        reveal_strlit("@");
        reveal_strlit(".");
        reveal_strlit("wit");
        reveal_strlit("wasm");
        assert("_"@ =~= seq!['_']);
        assert("@"@ =~= seq!['@']);
        assert("."@ =~= seq!['.']);
        assert("wit"@ =~= wit_ext());
        assert("wasm"@ =~= wasm_ext());
        assert(s@ =~= final_path_chars(output@, pkg@.0, pkg@.1, *version, has_text));
    }
    s
}

/// Permits the write unless the destination exists and overwriting was not
/// requested. The caller supplies whether the destination exists.
pub fn check_overwrite(path: &str, exists: bool, overwrite: bool) -> (r: Result<(), Error>)
    ensures
        r is Ok <==> (overwrite || !exists),
        r matches Err(e) ==> (e matches Error::OutputExists(p) && p@ == path@),
{
    if overwrite || !exists {
        Ok(())
    } else {
        Err(Error::OutputExists(path.to_owned()))
    }
}

} // verus!
