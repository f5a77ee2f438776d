//! Kebab-case label validation: the grammar of each side of a package
//! reference.

use vstd::prelude::*;
use crate::Error;

verus! {

/// A character a label may contain: a lowercase ASCII letter, a digit, or a
/// hyphen.
pub open spec fn is_label_char(c: char) -> bool {
    (97 <= c as u32 && c as u32 <= 122)  // 'a'..='z'
    || (48 <= c as u32 && c as u32 <= 57)  // '0'..='9'
    || c == '-'
}

/// A valid label: non-empty, made of label characters, with no leading,
/// trailing, or consecutive hyphens.
pub open spec fn valid_label(s: Seq<char>) -> bool {
    &&& s.len() > 0
    &&& forall|i: int| 0 <= i < s.len() ==> is_label_char(#[trigger] s[i])
    &&& s[0] != '-'
    &&& s[s.len() - 1] != '-'
    &&& forall|i: int| 0 < i < s.len() ==> !(#[trigger] s[i] == '-' && s[i - 1] == '-')
}

/// Checks the label grammar character by character.
pub fn check_label(s: &str) -> (r: bool)
    ensures
        r == valid_label(s@),
{
    let n = s.unicode_len();
    if n == 0 {
        return false;
    }
    if s.get_char(0) == '-' {
        return false;
    }
    if s.get_char(n - 1) == '-' {
        return false;
    }
    let mut i: usize = 0;
    while i < n
        invariant
            n == s@.len(),
            0 <= i <= n,
            forall|j: int| 0 <= j < i ==> is_label_char(#[trigger] s@[j]),
            forall|j: int| 0 < j < i ==> !(#[trigger] s@[j] == '-' && s@[j - 1] == '-'),
        decreases n - i,
    {
        let c = s.get_char(i);
        let u = c as u32;
        if !((97 <= u && u <= 122) || (48 <= u && u <= 57) || c == '-') {
            return false;
        }
        if i > 0 && c == '-' {
            if s.get_char(i - 1) == '-' {
                return false;
            }
        }
        i += 1;
    }
    true
}

/// A validated kebab-case identifier segment, as used for the namespace and
/// name of a package. Constructed only through `parse`.
pub struct Label {
    text: String,
}

impl View for Label {
    type V = Seq<char>;

    closed spec fn view(&self) -> Seq<char> {
        self.text@
    }
}

impl Label {
    /// The constructed label always satisfies the label grammar.
    pub open spec fn wf(&self) -> bool {
        valid_label(self@)
    }

    /// Parses a label, rejecting anything outside the kebab-case grammar.
    pub fn parse(s: &str) -> (r: Result<Label, Error>)
        ensures
            r is Ok <==> valid_label(s@),
            r matches Ok(l) ==> l@ == s@ && l.wf(),
            r matches Err(e) ==> e is InvalidReference,
    {
        if check_label(s) {
            Ok(Label { text: s.to_owned() })
        } else {
            Err(Error::InvalidReference(String::from_str("invalid label")))
        }
    }

    /// The label's text.
    pub fn as_str(&self) -> (r: &str)
        ensures
            r@ == self@,
    {
        self.text.as_str()
    }
}

} // verus!
