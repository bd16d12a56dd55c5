//! Small helpers: archive extensions, version comparison, temporary names and
//! the left / middle / right text extraction that the device listing parser
//! relies on.
use vstd::prelude::*;
use std::cmp::Ordering;
use crate::text::{
    chars_of, find_chars_from, find_from, find_spec, lemma_find_from_props, occurs_at,
    push_char, spec_to_lowercase, string_of, to_lowercase,
};
use crate::utils::version::{compare_versions, version_comparable, version_order};

verus! {

// ---------------------------------------------------------------------------
// Archives
// ---------------------------------------------------------------------------

/// The extensions of the archive formats that 7-Zip unpacks here.
pub open spec fn archive_extensions_spec() -> Seq<Seq<char>> {
    seq!["7z"@, "zip"@, "rar"@, "cab"@, "tar"@, "wim"@]
}

fn archive_extensions() -> (r: Vec<&'static str>)
    ensures
        r@.len() == archive_extensions_spec().len(),
        forall|i: int| 0 <= i < r@.len() ==> r@[i]@ == #[trigger] archive_extensions_spec()[i],
{
    vec!["7z", "zip", "rar", "cab", "tar", "wim"]
}

/// Whether a file with extension `extension` is an archive: the extension
/// equals one of the supported ones when both are lower-cased.
pub fn isArchive(extension: &str) -> (r: bool)
    ensures
        r == exists|i: int|
            0 <= i < archive_extensions_spec().len() && spec_to_lowercase(extension@)
                == spec_to_lowercase(#[trigger] archive_extensions_spec()[i]),
{
    let supportExtension = archive_extensions();
    let lower = to_lowercase(extension);
    let mut k: usize = 0;
    while k < supportExtension.len()
        invariant
            k <= supportExtension@.len(),
            supportExtension@.len() == archive_extensions_spec().len(),
            forall|i: int|
                0 <= i < supportExtension@.len() ==> supportExtension@[i]@
                    == #[trigger] archive_extensions_spec()[i],
            lower@ == spec_to_lowercase(extension@),
            forall|i: int|
                0 <= i < k ==> spec_to_lowercase(extension@) != spec_to_lowercase(
                    #[trigger] archive_extensions_spec()[i],
                ),
        decreases supportExtension@.len() - k,
    {
        let item = to_lowercase(supportExtension[k]);
        if lower == item {
            assert(spec_to_lowercase(extension@) == spec_to_lowercase(
                archive_extensions_spec()[k as int],
            ));
            return true;
        }
        k = k + 1;
    }
    false
}

// ---------------------------------------------------------------------------
// Versions
// ---------------------------------------------------------------------------

/// The order of two dotted versions (`10.0.1` > `9.8` , `1.0` == `1`).
pub fn compareVersiopn(version1: &str, version2: &str) -> (r: Ordering)
    requires
        version_comparable(version1@, version2@),
    ensures
        (r == Ordering::Greater) == (version_order(version1@, version2@) == 1),
        (r == Ordering::Less) == (version_order(version1@, version2@) == -1),
        (r == Ordering::Equal) == (version_order(version1@, version2@) == 0),
{
    proof {
        crate::utils::version::law_version_order_range(version1@, version2@);
    }
    let c = compare_versions(version1, version2);
    if c > 0 {
        Ordering::Greater
    } else if c < 0 {
        Ordering::Less
    } else {
        Ordering::Equal
    }
}

// ---------------------------------------------------------------------------
// Temporary names
// ---------------------------------------------------------------------------

pub open spec fn is_ascii_alphanumeric(c: char) -> bool {
    ('a' <= c && c <= 'z') || ('A' <= c && c <= 'Z') || ('0' <= c && c <= '9')
}

/// Calls `fastrand::alphanumeric`, which draws one of `A-Z`, `a-z`, `0-9`
/// from the thread's generator. Which one is left open.
#[verifier::external_body]
fn random_alphanumeric() -> (c: char)
    ensures
        is_ascii_alphanumeric(c),
{
    fastrand::alphanumeric()
}

/// A name for a temporary file or directory: `prefix`, then `rand_len`
/// random ASCII letters and digits, then `suffix`.
pub fn getTmpName(prefix: &str, suffix: &str, rand_len: usize) -> (r: String)
    ensures
        r@.len() == prefix@.len() + rand_len + suffix@.len(),
        r@.take(prefix@.len() as int) == prefix@,
        r@.skip(prefix@.len() + rand_len) == suffix@,
        forall|i: int|
            prefix@.len() <= i < prefix@.len() + rand_len ==> is_ascii_alphanumeric(
                #[trigger] r@[i],
            ),
{
    let mut buf = String::from_str(prefix);
    let mut k: usize = 0;
    while k < rand_len
        invariant
            k <= rand_len,
            buf@.len() == prefix@.len() + k,
            buf@.take(prefix@.len() as int) == prefix@,
            forall|i: int|
                prefix@.len() <= i < prefix@.len() + k ==> is_ascii_alphanumeric(
                    #[trigger] buf@[i],
                ),
        decreases rand_len - k,
    {
        let c = random_alphanumeric();
        let ghost before = buf@;
        push_char(&mut buf, c);
        assert(buf@.take(prefix@.len() as int) =~= before.take(prefix@.len() as int));
        k = k + 1;
    }
    let ghost body = buf@;
    buf.append(suffix);
    assert(buf@.take(prefix@.len() as int) =~= body.take(prefix@.len() as int));
    assert(buf@.skip(prefix@.len() + rand_len) =~= suffix@);
    buf
}

// ---------------------------------------------------------------------------
// Text extraction
// ---------------------------------------------------------------------------

/// The part of `s` before the first occurrence of `right`.
pub open spec fn left_of(s: Seq<char>, right: Seq<char>) -> Option<Seq<char>> {
    match find_spec(s, right) {
        Some(i) => Some(s.take(i)),
        None => None,
    }
}

/// The text between the first `start` and the first `end` after it; `None`
/// when either is missing.
pub open spec fn center_of(s: Seq<char>, start: Seq<char>, end: Seq<char>) -> Option<Seq<char>> {
    match find_spec(s, start) {
        Some(a) => match find_from(s, end, a + start.len()) {
            Some(e) => Some(s.subrange(a + start.len(), e)),
            None => None,
        },
        None => None,
    }
}

/// The part of `s` after the first occurrence of `left`.
pub open spec fn right_of(s: Seq<char>, left: Seq<char>) -> Option<Seq<char>> {
    match find_spec(s, left) {
        Some(i) => Some(s.skip(i + left.len())),
        None => None,
    }
}

/// Text extraction around markers.
pub trait String_utils: View<V = Seq<char>> {
    /// The text left of the first `right`.
    fn get_string_left(&self, right: &str) -> (r: Result<String, String>)
        ensures
            match left_of(self@, right@) {
                Some(t) => r is Ok && r->Ok_0@ == t,
                None => r is Err,
            },
    ;

    /// The text between the first `start` and the first `end` after it.
    fn get_string_center(&self, start: &str, end: &str) -> (r: Result<String, String>)
        ensures
            match center_of(self@, start@, end@) {
                Some(t) => r is Ok && r->Ok_0@ == t,
                None => r is Err,
            },
    ;

    /// The text right of the first `left`.
    fn get_string_right(&self, left: &str) -> (r: Result<String, String>)
        ensures
            match right_of(self@, left@) {
                Some(t) => r is Ok && r->Ok_0@ == t,
                None => r is Err,
            },
    ;
}

fn subrange_string(v: &Vec<char>, from: usize, to: usize) -> (r: String)
    requires
        from <= to <= v@.len(),
    ensures
        r@ == v@.subrange(from as int, to as int),
{
    let mut r = String::new();
    let mut i: usize = from;
    while i < to
        invariant
            from <= i <= to,
            to <= v@.len(),
            r@ == v@.subrange(from as int, i as int),
        decreases to - i,
    {
        push_char(&mut r, v[i]);
        i = i + 1;
        assert(r@ =~= v@.subrange(from as int, i as int));
    }
    r
}

impl String_utils for String {
    fn get_string_left(&self, right: &str) -> (r: Result<String, String>) {
        let s = chars_of(self.as_str());
        let p = chars_of(right);
        match find_chars_from(&s, &p, 0) {
            Some(endSize) => {
                proof {
                    lemma_find_from_props(s@, p@, 0);
                }
                Ok(subrange_string(&s, 0, endSize))
            },
            None => Err(String::from_str("发生错误-查找结束位置失败")),
        }
    }

    fn get_string_center(&self, start: &str, end: &str) -> (r: Result<String, String>) {
        let s = chars_of(self.as_str());
        let a = chars_of(start);
        let e = chars_of(end);
        let startSize = match find_chars_from(&s, &a, 0) {
            Some(i) => i,
            None => {
                return Err(String::from_str("发生错误-查找起始位置失败"));
            },
        };
        proof {
            lemma_find_from_props(s@, a@, 0);
            assert(occurs_at(s@, a@, startSize as int));
        }
        let alen = a.len();
        let slen = s.len();
        assert(startSize + alen <= slen);
        let from = startSize + alen;
        let endSize = match find_chars_from(&s, &e, from) {
            Some(i) => i,
            None => {
                return Err(String::from_str("发生错误-查找结束位置失败"));
            },
        };
        proof {
            lemma_find_from_props(s@, e@, from as int);
        }
        Ok(subrange_string(&s, from, endSize))
    }

    fn get_string_right(&self, left: &str) -> (r: Result<String, String>) {
        let s = chars_of(self.as_str());
        let p = chars_of(left);
        match find_chars_from(&s, &p, 0) {
            Some(startSize) => {
                proof {
                    lemma_find_from_props(s@, p@, 0);
                    assert(occurs_at(s@, p@, startSize as int));
                }
                let plen = p.len();
                let slen = s.len();
                assert(startSize + plen <= slen);
                Ok(subrange_string(&s, startSize + plen, slen))
            },
            None => Err(String::from_str("发生错误-查找左边位置失败")),
        }
    }
}

/// The text left of the first occurrence of a marker, the marker itself and
/// the text right of it put back together give the whole text.
pub proof fn law_left_marker_right(s: Seq<char>, p: Seq<char>)
    requires
        find_spec(s, p) is Some,
    ensures
        left_of(s, p).unwrap() + p + right_of(s, p).unwrap() == s,
{
    lemma_find_from_props(s, p, 0);
    let i = find_spec(s, p).unwrap();
    assert(s.take(i) + p + s.skip(i + p.len()) =~= s);
}

} // verus!
