//! Path helpers over plain strings: the parent and final component come from
//! `std::path::Path`, the bucket key of a path is computed here.
use vstd::prelude::*;

verus! {

/// What `std::path::Path::parent` returns for a path, as characters.
pub uninterp spec fn spec_path_parent(p: Seq<char>) -> Option<Seq<char>>;

/// What `std::path::Path::file_name` returns for a path, as characters.
pub uninterp spec fn spec_path_file_name(p: Seq<char>) -> Option<Seq<char>>;

/// Calls `std::path::Path::parent`. Claims that the result is the named
/// parent of `p`, and that a parent, being `p` without its final component,
/// is shorter than `p`.
#[verifier::external_body]
pub(crate) fn path_parent(p: &str) -> (r: Option<String>)
    ensures
        match r {
            Some(q) => spec_path_parent(p@) == Some(q@) && q@.len() < p@.len(),
            None => spec_path_parent(p@) is None,
        },
{
    match std::path::Path::new(p).parent() {
        Some(q) => Some(q.to_string_lossy().into_owned()),
        None => None,
    }
}

/// Calls `std::path::Path::file_name`. Claims only that the result is the
/// named final component of `p`.
#[verifier::external_body]
pub(crate) fn path_file_name(p: &str) -> (r: Option<String>)
    ensures
        match r {
            Some(q) => spec_path_file_name(p@) == Some(q@),
            None => spec_path_file_name(p@) is None,
        },
{
    match std::path::Path::new(p).file_name() {
        Some(q) => Some(q.to_string_lossy().into_owned()),
        None => None,
    }
}

/// The display name of a path: its final component, or the whole path when
/// it has none (such as `/`).
pub open spec fn spec_display_name(p: Seq<char>) -> Seq<char> {
    match spec_path_file_name(p) {
        Some(n) => n,
        None => p,
    }
}

pub fn display_name(p: &str) -> (r: String)
    ensures
        r@ == spec_display_name(p@),
{
    match path_file_name(p) {
        Some(n) => n,
        None => p.to_string(),
    }
}

pub open spec fn hash_step(h: u64, c: char) -> u64 {
    (h ^ (c as u64)).wrapping_mul(1099511628211u64)
}

/// FNV-1a over the code points of a path; used only to bucket paths.
pub open spec fn path_hash(s: Seq<char>) -> u64
    decreases s.len(),
{
    if s.len() == 0 {
        14695981039346656037u64
    } else {
        hash_step(path_hash(s.drop_last()), s.last())
    }
}

pub fn compute_path_hash(s: &str) -> (h: u64)
    ensures
        h == path_hash(s@),
{
    let chars = crate::text::str_chars(s);
    let mut h: u64 = 14695981039346656037u64;
    let mut i: usize = 0;
    while i < chars.len()
        invariant
            i <= chars@.len(),
            chars@ == s@,
            h == path_hash(chars@.take(i as int)),
        decreases chars@.len() - i,
    {
        let c = chars[i];
        proof {
            assert(chars@.take(i as int + 1).drop_last() =~= chars@.take(i as int));
        }
        h = (h ^ (c as u64)).wrapping_mul(1099511628211u64);
        i += 1;
    }
    assert(chars@.take(i as int) =~= s@);
    h
}

/// What `std::path::Path::components` yields for a path, each component as
/// characters.
pub uninterp spec fn spec_path_components(p: Seq<char>) -> Seq<Seq<char>>;

/// Calls `std::path::Path::components`. Claims only that the components are
/// the named ones, in order.
#[verifier::external_body]
pub(crate) fn path_components(p: &str) -> (r: Vec<String>)
    ensures
        r@.map_values(|c: String| c@) == spec_path_components(p@),
{
    std::path::Path::new(p).components().map(|c| c.as_os_str().to_string_lossy().into_owned()).collect()
}

/// The ASCII lower-case form of a character; other characters are kept.
pub open spec fn ascii_lower(c: char) -> char {
    if 'A' <= c && c <= 'Z' {
        ((c as u32) + 32) as char
    } else {
        c
    }
}

/// Whether two texts are equal when ASCII letters are compared without
/// regard to case (as `str::eq_ignore_ascii_case` compares them).
pub open spec fn eq_ignore_ascii_case(a: Seq<char>, b: Seq<char>) -> bool {
    a.len() == b.len() && forall|i: int| 0 <= i < a.len() ==> ascii_lower(#[trigger] a[i]) == ascii_lower(b[i])
}

fn lower_code(c: char) -> (r: u32)
    ensures
        r == ascii_lower(c) as u32,
{
    if 'A' <= c && c <= 'Z' {
        (c as u32) + 32
    } else {
        c as u32
    }
}

/// Compares two texts, ASCII letters without regard to case.
pub fn ascii_case_insensitive_eq(a: &str, b: &str) -> (r: bool)
    ensures
        r == eq_ignore_ascii_case(a@, b@),
{
    let x = crate::text::str_chars(a);
    let y = crate::text::str_chars(b);
    if x.len() != y.len() {
        return false;
    }
    let mut i: usize = 0;
    while i < x.len()
        invariant
            x@ == a@,
            y@ == b@,
            x@.len() == y@.len(),
            i <= x@.len(),
            forall|j: int| 0 <= j < i ==> ascii_lower(#[trigger] x@[j]) == ascii_lower(y@[j]),
        decreases x@.len() - i,
    {
        if lower_code(x[i]) != lower_code(y[i]) {
            return false;
        }
        i += 1;
    }
    true
}

/// Whether some component of the path equals `name`, ASCII letters compared
/// without regard to case.
pub open spec fn has_component(p: Seq<char>, name: Seq<char>) -> bool {
    exists|k: int|
        0 <= k < spec_path_components(p).len() && eq_ignore_ascii_case(
            #[trigger] spec_path_components(p)[k],
            name,
        )
}

pub fn path_has_component(p: &str, name: &str) -> (r: bool)
    ensures
        r == has_component(p@, name@),
{
    let comps = path_components(p);
    let ghost views = comps@.map_values(|c: String| c@);
    let mut k: usize = 0;
    while k < comps.len()
        invariant
            k <= comps@.len(),
            views == comps@.map_values(|c: String| c@),
            views == spec_path_components(p@),
            forall|j: int| 0 <= j < k ==> !eq_ignore_ascii_case(#[trigger] views[j], name@),
        decreases comps@.len() - k,
    {
        if ascii_case_insensitive_eq(comps[k].as_str(), name) {
            assert(views[k as int] == comps@[k as int]@);
            return true;
        }
        assert(views[k as int] == comps@[k as int]@);
        k += 1;
    }
    false
}

} // verus!
