//! Package references: the `namespace:name` identity of a package.

use vstd::prelude::*;
use crate::Error;
use crate::label::{Label, valid_label, is_label_char, check_label};

verus! {

/// The canonical text of a reference: namespace, one colon, name.
pub open spec fn ref_chars(ns: Seq<char>, nm: Seq<char>) -> Seq<char> {
    ns + seq![':'] + nm
}

/// A string is a well-formed reference when some colon splits it into two
/// valid labels. Labels never contain a colon, so at most one split works.
pub open spec fn valid_ref_chars(s: Seq<char>) -> bool {
    exists|i: int|
        0 <= i < s.len() && #[trigger] s[i] == ':' && valid_label(s.subrange(0, i))
            && valid_label(s.subrange(i + 1, s.len() as int))
}

/// A package reference, consisting of kebab-case namespace and name, e.g.
/// `wasm-pkg:loader`. Constructed only through validated parsing.
pub struct PackageRef {
    namespace: Label,
    name: Label,
}

impl View for PackageRef {
    type V = (Seq<char>, Seq<char>);

    closed spec fn view(&self) -> (Seq<char>, Seq<char>) {
        (self.namespace@, self.name@)
    }
}

/// A valid label has no colon in it.
pub proof fn lemma_label_has_no_colon(s: Seq<char>)
    requires
        valid_label(s),
    ensures
        forall|i: int| 0 <= i < s.len() ==> #[trigger] s[i] != ':',
{
    assert forall|i: int| 0 <= i < s.len() implies #[trigger] s[i] != ':' by {
        assert(is_label_char(s[i]));
    }
}

impl PackageRef {
    /// Both sides of the constructed reference satisfy the label grammar.
    pub open spec fn wf(&self) -> bool {
        valid_label(self@.0) && valid_label(self@.1)
    }

    /// Returns the namespace of the package.
    pub fn namespace(&self) -> (r: &Label)
        ensures
            r@ == self@.0,
    {
        &self.namespace
    }

    /// Returns the name of the package.
    pub fn name(&self) -> (r: &Label)
        ensures
            r@ == self@.1,
    {
        &self.name
    }

    /// Parses `namespace:name`, failing unless exactly one colon separates
    /// two valid labels. A string without any colon is reported as missing
    /// the separator.
    pub fn parse(s: &str) -> (r: Result<PackageRef, Error>)
        ensures
            r is Ok <==> valid_ref_chars(s@),
            r matches Ok(p) ==> p.wf() && ref_chars(p@.0, p@.1) == s@,
            r matches Err(e) ==> e is InvalidReference,
            (forall|i: int| 0 <= i < s@.len() ==> #[trigger] s@[i] != ':') ==> (r matches Err(e)
                && e matches Error::InvalidReference(m) && m@ == "missing expected ':'"@),
    {
        let n = s.unicode_len();
        let mut i: usize = 0;
        while i < n && s.get_char(i) != ':'
            invariant
                n == s@.len(),
                0 <= i <= n,
                forall|j: int| 0 <= j < i ==> #[trigger] s@[j] != ':',
            decreases n - i,
        {
            i += 1;
        }
        if i == n {
            proof {
                assert forall|j: int| 0 <= j < s@.len() implies #[trigger] s@[j] != ':' by {}
            }
            return Err(Error::InvalidReference(String::from_str("missing expected ':'")));
        }
        let ns = s.substring_char(0, i);
        let nm = s.substring_char(i + 1, n);
        let ns_ok = check_label(ns);
        let nm_ok = check_label(nm);
        if ns_ok && nm_ok {
            proof {
                assert(s@[i as int] == ':');
                assert(valid_ref_chars(s@));
            }
            match (Label::parse(ns), Label::parse(nm)) {
                (Ok(namespace), Ok(name)) => {
                    let p = PackageRef { namespace, name };
                    proof {
                        assert(ref_chars(p@.0, p@.1) =~= s@);
                    }
                    Ok(p)
                }
                _ => {
                    // unreachable: both labels were just validated
                    Err(Error::InvalidReference(String::from_str("invalid label")))
                }
            }
        } else {
            proof {
                assert forall|j: int|
                    0 <= j < s@.len() && #[trigger] s@[j] == ':' implies !(valid_label(
                    s@.subrange(0, j),
                ) && valid_label(s@.subrange(j + 1, s@.len() as int))) by {
                    if j < i {
                        assert(s@[j] != ':');
                    } else if j == i {
                        assert(s@.subrange(0, j) == ns@);
                        assert(s@.subrange(j + 1, s@.len() as int) == nm@);
                    } else {
                        // the left side would contain the first colon
                        let left = s@.subrange(0, j);
                        assert(left[i as int] == ':');
                        if valid_label(left) {
                            lemma_label_has_no_colon(left);
                        }
                    }
                }
            }
            Err(Error::InvalidReference(String::from_str("invalid label")))
        }
    }

    /// Renders the canonical `namespace:name` form.
    pub fn to_string(&self) -> (r: String)
        ensures
            r@ == ref_chars(self@.0, self@.1),
    {
        let mut out = String::new();
        out.append(self.namespace.as_str());
        out.append(":");
        out.append(self.name.as_str());
        proof {
            reveal_strlit(":");
            assert(out@ =~= ref_chars(self@.0, self@.1));
        }
        out
    }
}

/// Law: the canonical text determines the reference. Two well-formed
/// references with the same rendering have the same namespace and name, so
/// parsing a rendered reference gives back an equal reference.
pub proof fn lemma_ref_chars_injective(a0: Seq<char>, a1: Seq<char>, b0: Seq<char>, b1: Seq<char>)
    requires
        valid_label(a0),
        valid_label(a1),
        valid_label(b0),
        valid_label(b1),
        ref_chars(a0, a1) == ref_chars(b0, b1),
    ensures
        a0 == b0,
        a1 == b1,
{
    let s = ref_chars(a0, a1);
    lemma_label_has_no_colon(a0);
    lemma_label_has_no_colon(b0);
    assert(s[a0.len() as int] == ':');
    assert(s[b0.len() as int] == ':');
    if a0.len() < b0.len() {
        assert(s[a0.len() as int] == b0[a0.len() as int]);
        assert(false);
    }
    if b0.len() < a0.len() {
        assert(s[b0.len() as int] == a0[b0.len() as int]);
        assert(false);
    }
    assert forall|k: int| 0 <= k < a0.len() implies a0[k] == b0[k] by {
        assert(s[k] == a0[k]);
        assert(ref_chars(b0, b1)[k] == b0[k]);
    }
    assert(a0 =~= b0);
    assert(s.len() == a0.len() + 1 + a1.len());
    assert(ref_chars(b0, b1).len() == b0.len() + 1 + b1.len());
    assert(a1.len() == b1.len());
    assert forall|k: int| 0 <= k < a1.len() implies a1[k] == b1[k] by {
        assert(s[a0.len() + 1 + k] == a1[k]);
        assert(ref_chars(b0, b1)[b0.len() + 1 + k] == b1[k]);
    }
    assert(a1 =~= b1);
}

/// Law: rendering a well-formed reference yields a string that parses, and
/// every well-formed reference with that rendering is the same reference.
pub proof fn lemma_render_parse_round_trip(p: PackageRef)
    requires
        p.wf(),
    ensures
        valid_ref_chars(ref_chars(p@.0, p@.1)),
        forall|q: PackageRef|
            q.wf() && ref_chars(q@.0, q@.1) == ref_chars(p@.0, p@.1) ==> q@ == p@,
{
    let s = ref_chars(p@.0, p@.1);
    let i = p@.0.len() as int;
    assert(s[i] == ':');
    assert(s.subrange(0, i) =~= p@.0);
    assert(s.subrange(i + 1, s.len() as int) =~= p@.1);
    assert(valid_ref_chars(s));
    assert forall|q: PackageRef|
        q.wf() && ref_chars(q@.0, q@.1) == ref_chars(p@.0, p@.1) implies q@ == p@ by {
        lemma_ref_chars_injective(q@.0, q@.1, p@.0, p@.1);
    }
}

} // verus!
