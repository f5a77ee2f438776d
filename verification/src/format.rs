//! Output-format selection and the handling of decode outcomes.

use vstd::prelude::*;
use crate::Error;

verus! {

/// The output format choice. `Auto` is a resolution request and never
/// reaches the publisher as a final state.
#[derive(Clone, Copy, Debug, PartialEq, Eq, Structural)]
pub enum Format {
    Auto,
    Wasm,
    Wit,
}

/// The last index of `c` in `p`, or -1 when `c` does not occur.
pub open spec fn last_index_of(p: Seq<char>, c: char) -> int
    decreases p.len(),
{
    if p.len() == 0 {
        -1
    } else if p.last() == c {
        p.len() - 1
    } else {
        last_index_of(p.drop_last(), c)
    }
}

/// The path with trailing separators stripped: the final component of
/// `out.wasm/` is `out.wasm`.
pub open spec fn strip_trailing_slashes(p: Seq<char>) -> Seq<char>
    decreases p.len(),
{
    if p.len() > 0 && p.last() == '/' {
        strip_trailing_slashes(p.drop_last())
    } else {
        p
    }
}

/// The extension of a path: the text after the last dot of the last
/// segment, trailing separators ignored, provided that dot is not the
/// segment's first character.
pub open spec fn path_ext(p: Seq<char>) -> Option<Seq<char>> {
    let q = strip_trailing_slashes(p);
    let d = last_index_of(q, '.');
    if d > last_index_of(q, '/') + 1 {
        Option::Some(q.subrange(d + 1, q.len() as int))
    } else {
        Option::None
    }
}

/// The `wasm` extension.
pub open spec fn wasm_ext() -> Seq<char> {
    seq!['w', 'a', 's', 'm']
}

/// The `wit` extension.
pub open spec fn wit_ext() -> Seq<char> {
    seq!['w', 'i', 't']
}

/// The format that reaches the detector: an explicit request is honored
/// outright; `Auto` adopts a recognized extension of the output path;
/// otherwise it stays `Auto`, to be settled by content sniffing.
pub open spec fn effective_format(requested: Format, path: Seq<char>) -> Format {
    if requested != Format::Auto {
        requested
    } else {
        match path_ext(path) {
            Option::Some(e) => if e == wasm_ext() {
                Format::Wasm
            } else if e == wit_ext() {
                Format::Wit
            } else {
                Format::Auto
            },
            Option::None => Format::Auto,
        }
    }
}

proof fn lemma_last_index_found(p: Seq<char>, c: char, d: int)
    requires
        0 <= d < p.len(),
        p[d] == c,
        forall|j: int| d < j < p.len() ==> p[j] != c,
    ensures
        last_index_of(p, c) == d,
    decreases p.len(),
{
    if d < p.len() - 1 {
        lemma_last_index_found(p.drop_last(), c, d);
    }
}

proof fn lemma_last_index_absent(p: Seq<char>, c: char)
    requires
        forall|j: int| 0 <= j < p.len() ==> p[j] != c,
    ensures
        last_index_of(p, c) == -1,
    decreases p.len(),
{
    if p.len() > 0 {
        lemma_last_index_absent(p.drop_last(), c);
    }
}

proof fn lemma_strip_at(p: Seq<char>, m: int)
    requires
        0 <= m <= p.len(),
        forall|j: int| m <= j < p.len() ==> p[j] == '/',
        m > 0 ==> p[m - 1] != '/',
    ensures
        strip_trailing_slashes(p) == p.subrange(0, m),
    decreases p.len() - m,
{
    if m < p.len() {
        assert(p.last() == '/');
        lemma_strip_at(p.drop_last(), m);
        assert(p.drop_last().subrange(0, m) =~= p.subrange(0, m));
    } else {
        assert(p.subrange(0, m) =~= p);
    }
}

/// Finds the last occurrence of a character before `end`.
fn rfind_char_before(s: &str, c: char, end: usize) -> (r: Option<usize>)
    requires
        end <= s@.len(),
    ensures
        r matches Some(d) ==> d < end && last_index_of(s@.subrange(0, end as int), c) == d,
        r is None ==> last_index_of(s@.subrange(0, end as int), c) == -1,
{
    let mut i: usize = end;
    while i > 0
        invariant
            i <= end,
            end <= s@.len(),
            forall|j: int| i <= j < end ==> s@[j] != c,
        decreases i,
    {
        i -= 1;
        if s.get_char(i) == c {
            proof {
                let q = s@.subrange(0, end as int);
                assert(q[i as int] == s@[i as int]);
                assert forall|j: int| i < j < q.len() implies q[j] != c by {
                    assert(q[j] == s@[j]);
                }
                lemma_last_index_found(q, c, i as int);
            }
            return Some(i);
        }
    }
    proof {
        let q = s@.subrange(0, end as int);
        assert forall|j: int| 0 <= j < q.len() implies q[j] != c by {
            assert(q[j] == s@[j]);
        }
        lemma_last_index_absent(q, c);
    }
    None
}

/// Compares two strings character by character.
pub fn str_eq(a: &str, b: &str) -> (r: bool)
    ensures
        r == (a@ == b@),
{
    let an = a.unicode_len();
    let bn = b.unicode_len();
    if an != bn {
        proof {
            if a@ == b@ {
                assert(a@.len() == b@.len());
            }
        }
        return false;
    }
    let mut i: usize = 0;
    while i < an
        invariant
            0 <= i <= an,
            an == a@.len(),
            bn == b@.len(),
            an == bn,
            forall|j: int| 0 <= j < i ==> a@[j] == b@[j],
        decreases an - i,
    {
        if a.get_char(i) != b.get_char(i) {
            proof {
                if a@ == b@ {
                    assert(a@[i as int] == b@[i as int]);
                }
            }
            return false;
        }
        i += 1;
    }
    proof {
        assert(a@ =~= b@);
    }
    true
}

/// The extension of a path, as `path_ext` defines it.
pub fn path_extension(path: &str) -> (r: Option<String>)
    ensures
        (r is Some) == (path_ext(path@) is Some),
        r matches Some(e) ==> path_ext(path@) matches Some(x) && e@ == x,
{
    let n = path.unicode_len();
    let mut m: usize = n;
    while m > 0 && path.get_char(m - 1) == '/'
        invariant
            m <= n,
            n == path@.len(),
            forall|j: int| m <= j < n ==> path@[j] == '/',
        decreases m,
    {
        m -= 1;
    }
    proof {
        lemma_strip_at(path@, m as int);
    }
    let dot = rfind_char_before(path, '.', m);
    let slash = rfind_char_before(path, '/', m);
    match dot {
        Option::None => None,
        Option::Some(di) => {
            let start: usize = match slash {
                Option::None => 0,
                Option::Some(si) => si + 1,
            };
            if di > start {
                let e = path.substring_char(di + 1, m);
                proof {
                    let q = path@.subrange(0, m as int);
                    assert(e@ =~= q.subrange(di + 1, q.len() as int));
                }
                Some(e.to_owned())
            } else {
                None
            }
        },
    }
}

/// Whether content must be sniffed: only when the effective format is not
/// `Wasm` — an explicit binary request never consults the decoder.
pub fn sniff_needed(effective: Format) -> (r: bool)
    ensures
        r == (effective != Format::Wasm),
{
    !matches!(effective, Format::Wasm)
}

/// Decides the effective format from the request and the output path.
pub fn decide_format(requested: Format, output_path: &str) -> (r: Format)
    ensures
        r == effective_format(requested, output_path@),
{
    if !matches!(requested, Format::Auto) {
        return requested;
    }
    match path_extension(output_path) {
        Option::None => Format::Auto,
        Option::Some(e) => {
            proof {
                reveal_strlit("wasm");
                reveal_strlit("wit");
                assert("wasm"@ =~= wasm_ext());
                assert("wit"@ =~= wit_ext());
            }
            if str_eq(e.as_str(), "wasm") {
                Format::Wasm
            } else if str_eq(e.as_str(), "wit") {
                Format::Wit
            } else {
                Format::Auto
            }
        },
    }
}

/// What the component decoder reported for fetched content bytes.
pub enum DecodeOutcome {
    /// A named interface package: its canonical printed text.
    InterfaceText(String),
    /// Some other artifact kind, e.g. a plain module: kept as raw binary.
    OtherArtifact,
    /// Decoding failed, with the decoder's message.
    Failed(String),
}

/// The decision the detection rules prescribe for a decode outcome: an
/// interface package gives its text, another artifact kind gives raw
/// binary, and a decode failure is fatal exactly when the format was
/// forced to `Wit` — otherwise it degrades to raw binary.
pub open spec fn outcome_result(effective: Format, o: DecodeOutcome) -> Result<
    Option<String>,
    Error,
> {
    match o {
        DecodeOutcome::InterfaceText(t) => Ok(Some(t)),
        DecodeOutcome::OtherArtifact => Ok(None),
        DecodeOutcome::Failed(m) => if effective == Format::Wit {
            Err(Error::DecodeError(m))
        } else {
            Ok(None)
        },
    }
}

/// Applies the detection rules to a decode outcome.
pub fn apply_decode_outcome(effective: Format, outcome: DecodeOutcome) -> (r: Result<
    Option<String>,
    Error,
>)
    requires
        effective != Format::Wasm,
    ensures
        r == outcome_result(effective, outcome),
{
    match outcome {
        DecodeOutcome::InterfaceText(t) => Ok(Some(t)),
        DecodeOutcome::OtherArtifact => Ok(None),
        DecodeOutcome::Failed(m) => {
            if matches!(effective, Format::Wit) {
                Err(Error::DecodeError(m))
            } else {
                Ok(None)
            }
        },
    }
}

} // verus!
