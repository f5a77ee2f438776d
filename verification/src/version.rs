//! Semantic versions: representation, precedence ordering, rendering, and
//! parsing.

use vstd::prelude::*;
use crate::Error;

verus! {

/// A decimal digit character.
pub open spec fn is_digit(c: char) -> bool {
    48 <= c as u32 && c as u32 <= 57
}

/// A character a pre-release identifier may contain: an ASCII letter, a
/// digit, or a hyphen.
pub open spec fn is_ident_char(c: char) -> bool {
    is_digit(c) || (65 <= c as u32 && c as u32 <= 90) || (97 <= c as u32 && c as u32 <= 122)
        || c == '-'
}

/// One dot-separated pre-release identifier.
#[derive(Clone)]
pub enum PreId {
    /// An all-digit identifier: compared numerically.
    Num(u64),
    /// An identifier with at least one non-digit: compared character by
    /// character.
    Alpha(String),
}

/// A well-formed pre-release identifier: an alphanumeric one is non-empty,
/// uses only identifier characters, and holds at least one non-digit (an
/// all-digit identifier is represented numerically).
pub open spec fn pre_id_wf(p: PreId) -> bool {
    match p {
        PreId::Num(_) => true,
        PreId::Alpha(s) => s@.len() > 0 && (forall|i: int|
            0 <= i < s@.len() ==> is_ident_char(#[trigger] s@[i])) && (exists|i: int|
            0 <= i < s@.len() && !is_digit(#[trigger] s@[i])),
    }
}

/// A semantic version: `major.minor.patch` with an optional pre-release.
#[derive(Clone)]
pub struct Version {
    pub major: u64,
    pub minor: u64,
    pub patch: u64,
    pub pre: Vec<PreId>,
}

/// Every pre-release identifier of the version is well formed.
pub open spec fn version_wf(v: Version) -> bool {
    forall|i: int| 0 <= i < v.pre@.len() ==> pre_id_wf(#[trigger] v.pre@[i])
}

/// Lexicographic character order, compared by code point from position `i`:
/// a strict prefix precedes its extensions.
pub open spec fn chars_lt_from(a: Seq<char>, b: Seq<char>, i: int) -> bool
    decreases b.len() - i,
{
    if i >= b.len() {
        false
    } else if i >= a.len() {
        true
    } else if (a[i] as u32) < (b[i] as u32) {
        true
    } else if (b[i] as u32) < (a[i] as u32) {
        false
    } else {
        chars_lt_from(a, b, i + 1)
    }
}

/// Strict precedence of pre-release identifiers: numeric before
/// alphanumeric, numeric by value, alphanumeric lexicographically.
pub open spec fn pre_id_lt(a: PreId, b: PreId) -> bool {
    match (a, b) {
        (PreId::Num(x), PreId::Num(y)) => x < y,
        (PreId::Num(_), PreId::Alpha(_)) => true,
        (PreId::Alpha(_), PreId::Num(_)) => false,
        (PreId::Alpha(x), PreId::Alpha(y)) => chars_lt_from(x@, y@, 0),
    }
}

/// Lexicographic order on pre-release identifier sequences from position
/// `i`: a strict prefix precedes its extensions.
pub open spec fn pre_seq_lt_from(a: Seq<PreId>, b: Seq<PreId>, i: int) -> bool
    decreases b.len() - i,
{
    if i >= b.len() {
        false
    } else if i >= a.len() {
        true
    } else if pre_id_lt(a[i], b[i]) {
        true
    } else if pre_id_lt(b[i], a[i]) {
        false
    } else {
        pre_seq_lt_from(a, b, i + 1)
    }
}

/// Pre-release precedence: any pre-release precedes the absence of one;
/// two pre-releases compare lexicographically.
pub open spec fn pre_lt(a: Seq<PreId>, b: Seq<PreId>) -> bool {
    if a.len() == 0 {
        false
    } else if b.len() == 0 {
        true
    } else {
        pre_seq_lt_from(a, b, 0)
    }
}

/// Strict semantic-version precedence: major, then minor, then patch, then
/// pre-release precedence.
pub open spec fn version_lt(a: Version, b: Version) -> bool {
    a.major < b.major || (a.major == b.major && (a.minor < b.minor || (a.minor == b.minor && (
    a.patch < b.patch || (a.patch == b.patch && pre_lt(a.pre@, b.pre@))))))
}

proof fn lemma_chars_lt_irrefl(a: Seq<char>, i: int)
    ensures
        !chars_lt_from(a, a, i),
    decreases a.len() - i,
{
    if i < a.len() {
        lemma_chars_lt_irrefl(a, i + 1);
    }
}

proof fn lemma_chars_lt_trans(a: Seq<char>, b: Seq<char>, c: Seq<char>, i: int)
    requires
        chars_lt_from(a, b, i),
        chars_lt_from(b, c, i),
    ensures
        chars_lt_from(a, c, i),
    decreases b.len() - i,
{
    if i < a.len() && i < b.len() && i < c.len() && (a[i] as u32) == (b[i] as u32) && (b[i] as u32)
        == (c[i] as u32) {
        lemma_chars_lt_trans(a, b, c, i + 1);
    }
}

proof fn lemma_chars_equiv_lt_left(a: Seq<char>, b: Seq<char>, c: Seq<char>, i: int)
    requires
        !chars_lt_from(a, b, i),
        !chars_lt_from(b, a, i),
        chars_lt_from(b, c, i),
    ensures
        chars_lt_from(a, c, i),
    decreases b.len() - i,
{
    if i < a.len() && i < b.len() && i < c.len() && (a[i] as u32) == (b[i] as u32) && (b[i] as u32)
        == (c[i] as u32) {
        lemma_chars_equiv_lt_left(a, b, c, i + 1);
    }
}

proof fn lemma_chars_equiv_lt_right(a: Seq<char>, b: Seq<char>, c: Seq<char>, i: int)
    requires
        chars_lt_from(a, b, i),
        !chars_lt_from(b, c, i),
        !chars_lt_from(c, b, i),
    ensures
        chars_lt_from(a, c, i),
    decreases b.len() - i,
{
    if i < a.len() && i < b.len() && i < c.len() && (a[i] as u32) == (b[i] as u32) && (b[i] as u32)
        == (c[i] as u32) {
        lemma_chars_equiv_lt_right(a, b, c, i + 1);
    }
}

proof fn lemma_pre_id_lt_irrefl(x: PreId)
    ensures
        !pre_id_lt(x, x),
{
    match x {
        PreId::Num(_) => {},
        PreId::Alpha(s) => {
            lemma_chars_lt_irrefl(s@, 0);
        },
    }
}

proof fn lemma_pre_id_lt_trans(x: PreId, y: PreId, z: PreId)
    requires
        pre_id_lt(x, y),
        pre_id_lt(y, z),
    ensures
        pre_id_lt(x, z),
{
    match (x, y, z) {
        (PreId::Alpha(a), PreId::Alpha(b), PreId::Alpha(c)) => {
            lemma_chars_lt_trans(a@, b@, c@, 0);
        },
        _ => {},
    }
}

proof fn lemma_pre_id_equiv_lt_left(x: PreId, y: PreId, z: PreId)
    requires
        !pre_id_lt(x, y),
        !pre_id_lt(y, x),
        pre_id_lt(y, z),
    ensures
        pre_id_lt(x, z),
{
    match (x, y, z) {
        (PreId::Alpha(a), PreId::Alpha(b), PreId::Alpha(c)) => {
            lemma_chars_equiv_lt_left(a@, b@, c@, 0);
        },
        _ => {},
    }
}

proof fn lemma_pre_id_equiv_lt_right(x: PreId, y: PreId, z: PreId)
    requires
        pre_id_lt(x, y),
        !pre_id_lt(y, z),
        !pre_id_lt(z, y),
    ensures
        pre_id_lt(x, z),
{
    match (x, y, z) {
        (PreId::Alpha(a), PreId::Alpha(b), PreId::Alpha(c)) => {
            lemma_chars_equiv_lt_right(a@, b@, c@, 0);
        },
        _ => {},
    }
}

proof fn lemma_pre_seq_lt_irrefl(a: Seq<PreId>, i: int)
    ensures
        !pre_seq_lt_from(a, a, i),
    decreases a.len() - i,
{
    if i < a.len() {
        lemma_pre_id_lt_irrefl(a[i]);
        lemma_pre_seq_lt_irrefl(a, i + 1);
    }
}

proof fn lemma_pre_seq_lt_trans(a: Seq<PreId>, b: Seq<PreId>, c: Seq<PreId>, i: int)
    requires
        pre_seq_lt_from(a, b, i),
        pre_seq_lt_from(b, c, i),
    ensures
        pre_seq_lt_from(a, c, i),
    decreases b.len() - i,
{
    if i >= c.len() || i >= a.len() {
        return ;
    }
    if i >= b.len() {
        return ;
    }
    let xa = a[i];
    let xb = b[i];
    let xc = c[i];
    if pre_id_lt(xa, xb) {
        if pre_id_lt(xb, xc) {
            lemma_pre_id_lt_trans(xa, xb, xc);
        } else if !pre_id_lt(xc, xb) {
            lemma_pre_id_equiv_lt_right(xa, xb, xc);
        }
    } else if !pre_id_lt(xb, xa) {
        if pre_id_lt(xb, xc) {
            lemma_pre_id_equiv_lt_left(xa, xb, xc);
        } else if !pre_id_lt(xc, xb) {
            // identifiers equivalent at this position on both sides
            if pre_id_lt(xa, xc) {
            } else if pre_id_lt(xc, xa) {
                lemma_pre_id_equiv_lt_left(xb, xc, xa);
                lemma_pre_id_lt_irrefl(xa);
                assert(false);
            } else {
                lemma_pre_seq_lt_trans(a, b, c, i + 1);
            }
        }
    }
}

/// Law: no version precedes itself.
pub proof fn lemma_version_lt_irrefl(v: Version)
    ensures
        !version_lt(v, v),
{
    lemma_pre_seq_lt_irrefl(v.pre@, 0);
}

/// Law: semantic-version precedence is transitive.
pub proof fn lemma_version_lt_trans(a: Version, b: Version, c: Version)
    requires
        version_lt(a, b),
        version_lt(b, c),
    ensures
        version_lt(a, c),
{
    if a.major == c.major && a.minor == c.minor && a.patch == c.patch {
        if a.pre@.len() > 0 && b.pre@.len() > 0 && c.pre@.len() > 0 {
            lemma_pre_seq_lt_trans(a.pre@, b.pre@, c.pre@, 0);
        }
    }
}

fn chars_lt_exec(a: &str, b: &str) -> (r: bool)
    ensures
        r == chars_lt_from(a@, b@, 0),
{
    let an = a.unicode_len();
    let bn = b.unicode_len();
    let mut i: usize = 0;
    loop
        invariant
            an == a@.len(),
            bn == b@.len(),
            0 <= i,
            chars_lt_from(a@, b@, 0) == chars_lt_from(a@, b@, i as int),
        decreases bn - i,
    {
        if i >= bn {
            return false;
        }
        if i >= an {
            return true;
        }
        let ca = a.get_char(i) as u32;
        let cb = b.get_char(i) as u32;
        if ca < cb {
            return true;
        }
        if cb < ca {
            return false;
        }
        i += 1;
    }
}

fn pre_id_lt_exec(x: &PreId, y: &PreId) -> (r: bool)
    ensures
        r == pre_id_lt(*x, *y),
{
    match (x, y) {
        (PreId::Num(a), PreId::Num(b)) => *a < *b,
        (PreId::Num(_), PreId::Alpha(_)) => true,
        (PreId::Alpha(_), PreId::Num(_)) => false,
        (PreId::Alpha(a), PreId::Alpha(b)) => chars_lt_exec(a.as_str(), b.as_str()),
    }
}

fn pre_seq_lt_exec(a: &Vec<PreId>, b: &Vec<PreId>) -> (r: bool)
    ensures
        r == pre_seq_lt_from(a@, b@, 0),
{
    let mut i: usize = 0;
    loop
        invariant
            0 <= i,
            pre_seq_lt_from(a@, b@, 0) == pre_seq_lt_from(a@, b@, i as int),
        decreases b.len() - i,
    {
        if i >= b.len() {
            return false;
        }
        if i >= a.len() {
            return true;
        }
        if pre_id_lt_exec(&a[i], &b[i]) {
            return true;
        }
        if pre_id_lt_exec(&b[i], &a[i]) {
            return false;
        }
        i += 1;
    }
}

/// The character of a single decimal digit.
pub open spec fn digit_char(d: nat) -> char {
    if d == 0 {
        '0'
    } else if d == 1 {
        '1'
    } else if d == 2 {
        '2'
    } else if d == 3 {
        '3'
    } else if d == 4 {
        '4'
    } else if d == 5 {
        '5'
    } else if d == 6 {
        '6'
    } else if d == 7 {
        '7'
    } else if d == 8 {
        '8'
    } else {
        '9'
    }
}

/// The decimal rendering of a number, without leading zeros.
pub open spec fn dec_chars(n: nat) -> Seq<char>
    decreases n,
{
    if n < 10 {
        seq![digit_char(n)]
    } else {
        dec_chars(n / 10).push(digit_char(n % 10))
    }
}

/// The rendering of one pre-release identifier.
pub open spec fn pre_id_chars(p: PreId) -> Seq<char> {
    match p {
        PreId::Num(n) => dec_chars(n as nat),
        PreId::Alpha(s) => s@,
    }
}

/// The rendering of the identifiers from position `i` on, joined by dots.
pub open spec fn pre_ids_chars_from(p: Seq<PreId>, i: int) -> Seq<char>
    decreases p.len() - i,
{
    if i < 0 || i >= p.len() {
        Seq::empty()
    } else if i == p.len() - 1 {
        pre_id_chars(p[i])
    } else {
        pre_id_chars(p[i]) + seq!['.'] + pre_ids_chars_from(p, i + 1)
    }
}

/// The canonical text of a version: `major.minor.patch`, then `-` and the
/// dot-joined pre-release identifiers if there are any.
pub open spec fn version_chars(v: Version) -> Seq<char> {
    dec_chars(v.major as nat) + seq!['.'] + dec_chars(v.minor as nat) + seq!['.'] + dec_chars(
        v.patch as nat,
    ) + (if v.pre@.len() == 0 {
        Seq::<char>::empty()
    } else {
        seq!['-'] + pre_ids_chars_from(v.pre@, 0)
    })
}

fn digit_str(d: u64) -> (r: &'static str)
    requires
        d < 10,
    ensures
        r@ == seq![digit_char(d as nat)],
{
    proof {
        reveal_strlit("0");
        reveal_strlit("1");
        reveal_strlit("2");
        reveal_strlit("3");
        reveal_strlit("4");
        reveal_strlit("5");
        reveal_strlit("6");
        reveal_strlit("7");
        reveal_strlit("8");
        reveal_strlit("9");
    }
    let r = match d {
        0 => "0",
        1 => "1",
        2 => "2",
        3 => "3",
        4 => "4",
        5 => "5",
        6 => "6",
        7 => "7",
        8 => "8",
        _ => "9",
    };
    proof {
        assert(r@ =~= seq![digit_char(d as nat)]);
    }
    r
}

/// Renders a number in decimal, without leading zeros.
pub fn u64_to_dec_string(n: u64) -> (r: String)
    ensures
        r@ == dec_chars(n as nat),
    decreases n,
{
    if n < 10 {
        digit_str(n).to_owned()
    } else {
        let mut s = u64_to_dec_string(n / 10);
        s.append(digit_str(n % 10));
        proof {
            assert(s@ =~= dec_chars(n as nat));
        }
        s
    }
}

/// Renders the canonical text of a version.
pub fn version_to_string(v: &Version) -> (r: String)
    ensures
        r@ == version_chars(*v),
{
    proof {
        reveal_strlit(".");
        reveal_strlit("-");
        assert("."@ =~= seq!['.']);
        assert("-"@ =~= seq!['-']);
    }
    let mut s = u64_to_dec_string(v.major);
    s.append(".");
    let minor = u64_to_dec_string(v.minor);
    s.append(minor.as_str());
    s.append(".");
    let patch = u64_to_dec_string(v.patch);
    s.append(patch.as_str());
    if v.pre.len() == 0 {
        proof {
            assert(s@ =~= version_chars(*v));
        }
        return s;
    }
    s.append("-");
    append_pre_id(&mut s, &v.pre[0]);
    let mut i: usize = 1;
    proof {
        if v.pre@.len() > 1 {
            assert(pre_ids_chars_from(v.pre@, 0) == pre_id_chars(v.pre@[0]) + seq!['.']
                + pre_ids_chars_from(v.pre@, 1));
        }
        assert(v.pre@.len() == 1 ==> s@ =~= version_chars(*v));
        assert(v.pre@.len() > 1 ==> s@ + seq!['.'] + pre_ids_chars_from(v.pre@, 1) =~=
            version_chars(*v));
    }
    while i < v.pre.len()
        invariant
            1 <= i <= v.pre@.len(),
            i < v.pre@.len() ==> s@ + seq!['.'] + pre_ids_chars_from(v.pre@, i as int)
                == version_chars(*v),
            i == v.pre@.len() ==> s@ == version_chars(*v),
        decreases v.pre@.len() - i,
    {
        proof {
            reveal_strlit(".");
            assert("."@ =~= seq!['.']);
        }
        s.append(".");
        append_pre_id(&mut s, &v.pre[i]);
        proof {
            if i + 1 < v.pre@.len() {
                assert(pre_ids_chars_from(v.pre@, i as int) == pre_id_chars(v.pre@[i as int])
                    + seq!['.'] + pre_ids_chars_from(v.pre@, i + 1));
                assert(s@ + seq!['.'] + pre_ids_chars_from(v.pre@, i + 1) =~= version_chars(*v));
            } else {
                assert(pre_ids_chars_from(v.pre@, i as int) == pre_id_chars(v.pre@[i as int]));
                assert(s@ =~= version_chars(*v));
            }
        }
        i += 1;
    }
    s
}

fn append_pre_id(s: &mut String, p: &PreId)
    ensures
        final(s)@ == old(s)@ + pre_id_chars(*p),
{
    match p {
        PreId::Num(n) => {
            let t = u64_to_dec_string(*n);
            s.append(t.as_str());
        },
        PreId::Alpha(a) => {
            s.append(a.as_str());
        },
    }
}

proof fn lemma_chars_equiv(a: Seq<char>, b: Seq<char>, i: int)
    requires
        0 <= i <= a.len(),
        0 <= i <= b.len(),
        !chars_lt_from(a, b, i),
        !chars_lt_from(b, a, i),
    ensures
        a.len() == b.len(),
        a.subrange(i, a.len() as int) == b.subrange(i, b.len() as int),
    decreases a.len() - i,
{
    if i >= a.len() && i >= b.len() {
        assert(a.subrange(i, a.len() as int) =~= b.subrange(i, b.len() as int));
    } else if i >= b.len() {
        assert(chars_lt_from(b, a, i));
    } else if i >= a.len() {
        assert(chars_lt_from(a, b, i));
    } else {
        assert((a[i] as u32) == (b[i] as u32));
        lemma_char_eq_by_code(a[i], b[i]);
        lemma_chars_equiv(a, b, i + 1);
        assert forall|k: int| i <= k < a.len() implies a[k] == b[k] by {
            if k > i {
                assert(a.subrange(i + 1, a.len() as int)[k - (i + 1)] == b.subrange(
                    i + 1,
                    b.len() as int,
                )[k - (i + 1)]);
            }
        }
        assert(a.subrange(i, a.len() as int) =~= b.subrange(i, b.len() as int));
    }
}

proof fn lemma_pre_seq_equiv(a: Seq<PreId>, b: Seq<PreId>, i: int)
    requires
        0 <= i <= a.len(),
        0 <= i <= b.len(),
        !pre_seq_lt_from(a, b, i),
        !pre_seq_lt_from(b, a, i),
    ensures
        a.len() == b.len(),
        pre_ids_chars_from(a, i) == pre_ids_chars_from(b, i),
    decreases a.len() - i,
{
    if i >= a.len() && i >= b.len() {
    } else if i >= b.len() {
        assert(pre_seq_lt_from(b, a, i));
    } else if i >= a.len() {
        assert(pre_seq_lt_from(a, b, i));
    } else {
        assert(!pre_id_lt(a[i], b[i]) && !pre_id_lt(b[i], a[i]));
        match (a[i], b[i]) {
            (PreId::Num(x), PreId::Num(y)) => {
                assert(x == y);
            },
            (PreId::Alpha(x), PreId::Alpha(y)) => {
                lemma_chars_equiv(x@, y@, 0);
                assert(x@.subrange(0, x@.len() as int) =~= x@);
                assert(y@.subrange(0, y@.len() as int) =~= y@);
                assert(pre_id_chars(a[i]) == pre_id_chars(b[i]));
            },
            _ => {},
        }
        lemma_pre_seq_equiv(a, b, i + 1);
    }
}

/// Law: version precedence is a total order up to rendering — two versions
/// neither of which precedes the other have the same canonical text, so a
/// maximal version is the maximum.
pub proof fn lemma_version_precedence_connected(a: Version, b: Version)
    requires
        !version_lt(a, b),
        !version_lt(b, a),
    ensures
        version_chars(a) == version_chars(b),
{
    assert(a.major == b.major && a.minor == b.minor && a.patch == b.patch);
    if a.pre@.len() == 0 && b.pre@.len() == 0 {
    } else if a.pre@.len() == 0 || b.pre@.len() == 0 {
        assert(pre_lt(a.pre@, b.pre@) || pre_lt(b.pre@, a.pre@));
    } else {
        lemma_pre_seq_equiv(a.pre@, b.pre@, 0);
    }
}

/// Decides strict semantic-version precedence.
pub fn version_lt_exec(a: &Version, b: &Version) -> (r: bool)
    ensures
        r == version_lt(*a, *b),
{
    if a.major != b.major {
        return a.major < b.major;
    }
    if a.minor != b.minor {
        return a.minor < b.minor;
    }
    if a.patch != b.patch {
        return a.patch < b.patch;
    }
    if a.pre.len() == 0 {
        return false;
    }
    if b.pre.len() == 0 {
        return true;
    }
    pre_seq_lt_exec(&a.pre, &b.pre)
}

/// Index just past the run of digits starting at `i`.
pub open spec fn digits_end(s: Seq<char>, i: int) -> int
    decreases s.len() - i,
{
    if 0 <= i < s.len() && is_digit(s[i]) {
        digits_end(s, i + 1)
    } else {
        i
    }
}

/// Index just past the run of identifier characters starting at `i`.
pub open spec fn ident_end(s: Seq<char>, i: int) -> int
    decreases s.len() - i,
{
    if 0 <= i < s.len() && is_ident_char(s[i]) {
        ident_end(s, i + 1)
    } else {
        i
    }
}

/// The value of the digits `s[i..j)`, read in decimal.
pub open spec fn digits_val(s: Seq<char>, i: int, j: int) -> int
    decreases j - i,
{
    if i >= j {
        0
    } else {
        digits_val(s, i, j - 1) * 10 + (s[j - 1] as u32 - 48)
    }
}

/// The digits `s[i..j)` form a numeric field: non-empty, no leading zero,
/// and a value that fits the machine word.
pub open spec fn num_field(s: Seq<char>, i: int, j: int) -> bool {
    &&& i < j
    &&& (j - i > 1 ==> s[i] as u32 != 48)
    &&& digits_val(s, i, j) <= u64::MAX as int
}

/// The identifier characters `s[i..j)` form one valid pre-release
/// identifier: non-empty, and an all-digit one obeys the numeric rules.
pub open spec fn valid_pre_id_range(s: Seq<char>, i: int, j: int) -> bool {
    &&& i < j
    &&& (digits_end(s, i) == j ==> num_field(s, i, j))
}

/// The text from `i` on is a valid dot-separated pre-release section.
pub open spec fn valid_pre_chars(s: Seq<char>, i: int) -> bool
    decreases s.len() - i,
{
    let j = ident_end(s, i);
    &&& valid_pre_id_range(s, i, j)
    &&& (j == s.len() || (j < s.len() && s[j] == '.' && valid_pre_chars(s, j + 1)))
}

/// The whole string is a valid version: three dot-separated numeric
/// fields, optionally followed by `-` and a pre-release section.
pub open spec fn valid_version_chars(s: Seq<char>) -> bool {
    let d1 = digits_end(s, 0);
    let d2 = digits_end(s, d1 + 1);
    let d3 = digits_end(s, d2 + 1);
    &&& num_field(s, 0, d1)
    &&& d1 < s.len() && s[d1] == '.'
    &&& num_field(s, d1 + 1, d2)
    &&& d2 < s.len() && s[d2] == '.'
    &&& num_field(s, d2 + 1, d3)
    &&& (d3 == s.len() || (d3 < s.len() && s[d3] == '-' && valid_pre_chars(s, d3 + 1)))
}

proof fn lemma_digits_val_lower(s: Seq<char>, i: int, j: int)
    requires
        i + 1 < j <= s.len(),
        forall|k: int| i <= k < j ==> is_digit(#[trigger] s[k]),
        s[i] as u32 != 48,
    ensures
        digits_val(s, i, j) >= 10,
    decreases j - i,
{
    if j - i == 2 {
        assert(digits_val(s, i, i) == 0);
        assert(digits_val(s, i, i + 1) == s[i] as u32 - 48);
    } else {
        lemma_digits_val_lower(s, i, j - 1);
    }
}

proof fn lemma_digits_val_nonneg(s: Seq<char>, i: int, j: int)
    requires
        forall|k: int| i <= k < j ==> is_digit(#[trigger] s[k]),
    ensures
        digits_val(s, i, j) >= 0,
    decreases j - i,
{
    if i < j {
        lemma_digits_val_nonneg(s, i, j - 1);
    }
}

proof fn lemma_char_eq_by_code(a: char, b: char)
    requires
        a as u32 == b as u32,
    ensures
        a == b,
{
    vstd::utf8::char_u32_cast(a, a as u32);
    vstd::utf8::char_u32_cast(b, b as u32);
}

proof fn lemma_dec_chars_digits(s: Seq<char>, i: int, j: int)
    requires
        0 <= i < j <= s.len(),
        forall|k: int| i <= k < j ==> is_digit(#[trigger] s[k]),
        j - i > 1 ==> s[i] as u32 != 48,
        digits_val(s, i, j) <= u64::MAX as int,
    ensures
        dec_chars(digits_val(s, i, j) as nat) =~= s.subrange(i, j),
    decreases j - i,
{
    lemma_digits_val_nonneg(s, i, j);
    let v = digits_val(s, i, j);
    if j - i == 1 {
        assert(digits_val(s, i, i) == 0);
        assert(v == s[i] as u32 - 48);
        assert(dec_chars(v as nat) == seq![digit_char(v as nat)]);
        assert(digit_char(v as nat) as u32 == 48 + v);
        lemma_char_eq_by_code(digit_char(v as nat), s[i]);
        assert(dec_chars(v as nat) =~= s.subrange(i, j));
    } else {
        let a = digits_val(s, i, j - 1);
        let d = s[j - 1] as u32 - 48;
        lemma_digits_val_nonneg(s, i, j - 1);
        if j - i == 2 {
            assert(digits_val(s, i, i) == 0);
            assert(a == s[i] as u32 - 48);
            assert(a >= 1);
        } else {
            lemma_digits_val_lower(s, i, j - 1);
        }
        assert(v == a * 10 + d);
        assert(v / 10 == a && v % 10 == d) by (nonlinear_arith)
            requires
                v == a * 10 + d,
                0 <= d < 10,
                a >= 0,
        ;
        assert(v >= 10);
        lemma_dec_chars_digits(s, i, j - 1);
        assert(dec_chars(v as nat) == dec_chars(a as nat).push(digit_char(d as nat)));
        assert(digit_char(d as nat) as u32 == 48 + d);
        lemma_char_eq_by_code(digit_char(d as nat), s[j - 1]);
        assert(dec_chars(v as nat) =~= s.subrange(i, j));
    }
}

fn is_digit_exec(c: char) -> (r: bool)
    ensures
        r == is_digit(c),
{
    let u = c as u32;
    48 <= u && u <= 57
}

fn is_ident_char_exec(c: char) -> (r: bool)
    ensures
        r == is_ident_char(c),
{
    let u = c as u32;
    (48 <= u && u <= 57) || (65 <= u && u <= 90) || (97 <= u && u <= 122) || c == '-'
}

/// Scans the maximal digit run from `start` and accepts it as a numeric
/// field, reporting its value; rejects an empty run, a leading zero, and a
/// value that does not fit.
fn scan_number(s: &str, start: usize, n: usize) -> (r: Option<(u64, usize)>)
    requires
        n == s@.len(),
        start <= n,
    ensures
        r matches Some(p) ==> {
            &&& p.1 == digits_end(s@, start as int)
            &&& start < p.1 <= n
            &&& num_field(s@, start as int, p.1 as int)
            &&& p.0 as int == digits_val(s@, start as int, p.1 as int)
            &&& forall|k: int| start <= k < p.1 ==> is_digit(#[trigger] s@[k])
        },
        r is None ==> !num_field(s@, start as int, digits_end(s@, start as int)),
{
    let mut j: usize = start;
    let mut val: u64 = 0;
    while j < n && is_digit_exec(s.get_char(j))
        invariant
            n == s@.len(),
            start <= j <= n,
            forall|k: int| start <= k < j ==> is_digit(#[trigger] s@[k]),
            val as int == digits_val(s@, start as int, j as int),
            digits_end(s@, start as int) == digits_end(s@, j as int),
        decreases n - j,
    {
        let c = s.get_char(j);
        let d = (c as u32 - 48) as u64;
        if val > (u64::MAX - d) / 10 {
            // the digit run does not fit the machine word
            proof {
                let de = digits_end(s@, start as int);
                assert(digits_end(s@, j as int) == digits_end(s@, (j + 1) as int));
                lemma_digits_end_props(s@, j + 1);
                assert(de >= j + 1);
                assert(forall|m: int| start <= m < de ==> is_digit(#[trigger] s@[m]));
                assert(digits_val(s@, start as int, j + 1) == val * 10 + d);
                assert(val * 10 + d > u64::MAX) by (nonlinear_arith)
                    requires
                        val > (u64::MAX - d) / 10,
                        d <= 9,
                ;
                lemma_digits_val_mono_digits(s@, start as int, j + 1, de);
            }
            return None;
        }
        val = val * 10 + d;
        j += 1;
        proof {
            assert(digits_end(s@, (j - 1) as int) == digits_end(s@, j as int));
        }
    }
    proof {
        assert(digits_end(s@, j as int) == j);
    }
    if j == start {
        return None;
    }
    if j > start + 1 && s.get_char(start) as u32 == 48 {
        return None;
    }
    Some((val, j))
}

proof fn lemma_digits_end_props(s: Seq<char>, i: int)
    requires
        0 <= i <= s.len(),
    ensures
        i <= digits_end(s, i) <= s.len(),
        forall|k: int| i <= k < digits_end(s, i) ==> is_digit(#[trigger] s[k]),
    decreases s.len() - i,
{
    if i < s.len() && is_digit(s[i]) {
        lemma_digits_end_props(s, i + 1);
    }
}

proof fn lemma_digits_val_mono_digits(s: Seq<char>, i: int, j: int, k: int)
    requires
        i <= j <= k,
        forall|m: int| i <= m < k ==> is_digit(#[trigger] s[m]),
    ensures
        digits_val(s, i, k) >= digits_val(s, i, j),
    decreases k - j,
{
    if j < k {
        lemma_digits_val_mono_digits(s, i, j, k - 1);
        lemma_digits_val_nonneg(s, i, k - 1);
    }
}

/// Scans the maximal identifier run from `start`.
fn scan_idents(s: &str, start: usize, n: usize) -> (r: usize)
    requires
        n == s@.len(),
        start <= n,
    ensures
        r == ident_end(s@, start as int),
        start <= r <= n,
        forall|k: int| start <= k < r ==> is_ident_char(#[trigger] s@[k]),
        r < n ==> !is_ident_char(s@[r as int]),
{
    let mut j: usize = start;
    while j < n && is_ident_char_exec(s.get_char(j))
        invariant
            n == s@.len(),
            start <= j <= n,
            forall|k: int| start <= k < j ==> is_ident_char(#[trigger] s@[k]),
            ident_end(s@, start as int) == ident_end(s@, j as int),
        decreases n - j,
    {
        j += 1;
        proof {
            assert(ident_end(s@, (j - 1) as int) == ident_end(s@, j as int));
        }
    }
    proof {
        assert(ident_end(s@, j as int) == j);
    }
    j
}

proof fn lemma_pre_ids_push_from(p: Seq<PreId>, x: PreId, i: int)
    requires
        0 <= i < p.len(),
    ensures
        pre_ids_chars_from(p.push(x), i) == pre_ids_chars_from(p, i) + seq!['.'] + pre_id_chars(x),
    decreases p.len() - i,
{
    if i == p.len() - 1 {
        assert(p.push(x)[i] == p[i]);
        assert(p.push(x)[p.len() as int] == x);
        assert(pre_ids_chars_from(p.push(x), i + 1) == pre_id_chars(x));
        assert(pre_ids_chars_from(p.push(x), i) == pre_id_chars(p[i]) + seq!['.'] + pre_id_chars(
            x,
        ));
    } else {
        lemma_pre_ids_push_from(p, x, i + 1);
        assert(p.push(x)[i] == p[i]);
    }
}

/// Parses one pre-release identifier occupying `s[start..end)`.
fn parse_pre_id(s: &str, start: usize, end: usize, n: usize) -> (r: Option<PreId>)
    requires
        n == s@.len(),
        start <= end <= n,
        end == ident_end(s@, start as int),
        forall|k: int| start <= k < end ==> is_ident_char(#[trigger] s@[k]),
        end < n ==> !is_ident_char(s@[end as int]),
    ensures
        r matches Some(p) ==> valid_pre_id_range(s@, start as int, end as int) && pre_id_wf(p)
            && pre_id_chars(p) == s@.subrange(start as int, end as int),
        r is None ==> !valid_pre_id_range(s@, start as int, end as int),
{
    if end == start {
        return None;
    }
    // find where the digit run ends inside the identifier run
    let mut dj: usize = start;
    while dj < end && is_digit_exec(s.get_char(dj))
        invariant
            n == s@.len(),
            start <= dj <= end,
            end <= n,
            forall|k: int| start <= k < dj ==> is_digit(#[trigger] s@[k]),
            digits_end(s@, start as int) == digits_end(s@, dj as int),
        decreases end - dj,
    {
        dj += 1;
        proof {
            assert(digits_end(s@, (dj - 1) as int) == digits_end(s@, dj as int));
        }
    }
    if dj == end {
        proof {
            // the character after the run, if any, is no identifier character,
            // hence no digit
            assert(digits_end(s@, end as int) == end);
        }
        match scan_number(s, start, n) {
            Option::Some((val, j)) => {
                proof {
                    assert(j == end);
                    lemma_dec_chars_digits(s@, start as int, end as int);
                }
                Some(PreId::Num(val))
            },
            Option::None => None,
        }
    } else {
        proof {
            assert(!is_digit(s@[dj as int]));
        }
        let t = s.substring_char(start, end);
        let u = t.to_owned();
        proof {
            assert(u@.len() == end - start);
            assert forall|k: int| 0 <= k < u@.len() implies is_ident_char(u@[k]) by {
                assert(u@[k] == s@[start + k]);
            }
            assert(u@[(dj - start) as int] == s@[dj as int]);
            assert(!is_digit(u@[(dj - start) as int]));
        }
        let p = PreId::Alpha(u);
        proof {
            assert(pre_id_wf(p));
        }
        Some(p)
    }
}

/// Parses the canonical text of a version: `major.minor.patch`, optionally
/// followed by `-` and dot-separated pre-release identifiers. Succeeds
/// exactly on well-formed version strings; the parsed version renders back
/// to the input.
pub fn parse_version(s: &str) -> (r: Result<Version, Error>)
    ensures
        (r is Ok) <==> valid_version_chars(s@),
        r matches Ok(v) ==> version_wf(v) && version_chars(v) == s@,
        r matches Err(e) ==> e is InvalidReference,
{
    let n = s.unicode_len();
    let (major, d1) = match scan_number(s, 0, n) {
        Option::Some(p) => p,
        Option::None => {
            return Err(Error::InvalidReference(String::from_str("invalid version")));
        },
    };
    if d1 >= n || s.get_char(d1) != '.' {
        return Err(Error::InvalidReference(String::from_str("invalid version")));
    }
    let (minor, d2) = match scan_number(s, d1 + 1, n) {
        Option::Some(p) => p,
        Option::None => {
            return Err(Error::InvalidReference(String::from_str("invalid version")));
        },
    };
    if d2 >= n || s.get_char(d2) != '.' {
        return Err(Error::InvalidReference(String::from_str("invalid version")));
    }
    let (patch, d3) = match scan_number(s, d2 + 1, n) {
        Option::Some(p) => p,
        Option::None => {
            return Err(Error::InvalidReference(String::from_str("invalid version")));
        },
    };
    proof {
        reveal_strlit(".");
        reveal_strlit("-");
        assert("."@ =~= seq!['.']);
        assert("-"@ =~= seq!['-']);
        lemma_dec_chars_digits(s@, 0, d1 as int);
        lemma_dec_chars_digits(s@, d1 + 1, d2 as int);
        lemma_dec_chars_digits(s@, d2 + 1, d3 as int);
    }
    proof {
        assert(s@.subrange(0, d3 as int) =~= s@.subrange(0, d1 as int) + seq!['.'] + s@.subrange(
            d1 + 1,
            d2 as int,
        ) + seq!['.'] + s@.subrange(d2 + 1, d3 as int));
    }
    if d3 == n {
        let v = Version { major, minor, patch, pre: Vec::new() };
        proof {
            assert(s@.subrange(0, d3 as int) =~= s@);
            assert(version_chars(v) =~= s@);
        }
        return Ok(v);
    }
    if s.get_char(d3) != '-' {
        return Err(Error::InvalidReference(String::from_str("invalid version")));
    }
    let pre_start = d3 + 1;
    let mut pre: Vec<PreId> = Vec::new();
    let mut i: usize = pre_start;
    let ghost head = s@.subrange(0, pre_start as int);
    proof {
        assert(head =~= dec_chars(major as nat) + seq!['.'] + dec_chars(minor as nat) + seq!['.']
            + dec_chars(patch as nat) + seq!['-']);
    }
    loop
        invariant
            n == s@.len(),
            pre_start <= i <= n,
            head == s@.subrange(0, pre_start as int),
            head =~= dec_chars(major as nat) + seq!['.'] + dec_chars(minor as nat) + seq!['.']
                + dec_chars(patch as nat) + seq!['-'],
            valid_version_chars(s@) == valid_pre_chars(s@, i as int),
            pre@.len() == 0 ==> i == pre_start,
            pre@.len() > 0 ==> s@.subrange(pre_start as int, i as int) == pre_ids_chars_from(
                pre@,
                0,
            ) + seq!['.'],
            forall|k: int| 0 <= k < pre@.len() ==> pre_id_wf(#[trigger] pre@[k]),
        decreases n - i,
    {
        let k = scan_idents(s, i, n);
        let id = match parse_pre_id(s, i, k, n) {
            Option::Some(p) => p,
            Option::None => {
                return Err(Error::InvalidReference(String::from_str("invalid version")));
            },
        };
        proof {
            if pre@.len() > 0 {
                lemma_pre_ids_push_from(pre@, id, 0);
            }
            assert(s@.subrange(pre_start as int, k as int) =~= s@.subrange(
                pre_start as int,
                i as int,
            ) + s@.subrange(i as int, k as int));
        }
        pre.push(id);
        if k == n {
            let v = Version { major, minor, patch, pre };
            proof {
                assert(s@.subrange(pre_start as int, n as int) == pre_ids_chars_from(v.pre@, 0));
                assert(s@ =~= head + s@.subrange(pre_start as int, n as int));
                assert(version_chars(v) =~= s@);
            }
            return Ok(v);
        }
        if s.get_char(k) != '.' {
            return Err(Error::InvalidReference(String::from_str("invalid version")));
        }
        proof {
            if pre@.len() > 0 {
                assert(s@.subrange(pre_start as int, (k + 1) as int) =~= s@.subrange(
                    pre_start as int,
                    k as int,
                ) + seq!['.']);
            }
        }
        i = k + 1;
    }
}

} // verus!
