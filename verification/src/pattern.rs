//! The fixed exclusion rules applied to bare file names.
//!
//! Before a directory entry is handed to the classifier, its bare name is
//! matched case-insensitively against a fixed set of glob patterns (editor
//! swap files, version-control directories, desktop metadata files). `*`
//! matches any run of bytes and `?` any single byte; a pattern without
//! wildcards matches only that literal name.

use vstd::prelude::*;
use vstd::slice::slice_to_vec;
use vstd::string::StringSliceAdditionalSpecFns;

verus! {

/// ASCII uppercase letters folded to lowercase; every other byte unchanged.
pub open spec fn lower(b: u8) -> u8 {
    if 65 <= b && b <= 90 {
        (b + 32) as u8
    } else {
        b
    }
}

/// Case-insensitive glob match of pattern `p` against name `s`: `*` (byte 42)
/// matches any run of bytes, `?` (byte 63) any single byte, and any other
/// pattern byte exactly the same byte up to ASCII case.
pub open spec fn glob_match(p: Seq<u8>, s: Seq<u8>) -> bool
    decreases p.len() + s.len(),
{
    if p.len() == 0 {
        s.len() == 0
    } else if p[0] == 42 {
        glob_match(p.skip(1), s) || (s.len() > 0 && glob_match(p, s.skip(1)))
    } else if s.len() == 0 {
        false
    } else if p[0] == 63 || lower(p[0]) == lower(s[0]) {
        glob_match(p.skip(1), s.skip(1))
    } else {
        false
    }
}

fn lower_byte(b: u8) -> (r: u8)
    ensures
        r == lower(b),
{
    if 65 <= b && b <= 90 {
        b + 32
    } else {
        b
    }
}

fn glob_match_at(p: &Vec<u8>, s: &Vec<u8>, i: usize, j: usize) -> (r: bool)
    requires
        i <= p.len(),
        j <= s.len(),
    ensures
        r == glob_match(p@.skip(i as int), s@.skip(j as int)),
    decreases p.len() - i + s.len() - j,
{
    proof {
        if i < p.len() {
            assert(p@.skip(i as int)[0] == p@[i as int]);
            assert(p@.skip(i as int).skip(1) =~= p@.skip(i as int + 1));
        }
        if j < s.len() {
            assert(s@.skip(j as int)[0] == s@[j as int]);
            assert(s@.skip(j as int).skip(1) =~= s@.skip(j as int + 1));
        }
    }
    if i == p.len() {
        j == s.len()
    } else if p[i] == 42 {
        if glob_match_at(p, s, i + 1, j) {
            true
        } else if j < s.len() {
            glob_match_at(p, s, i, j + 1)
        } else {
            false
        }
    } else if j == s.len() {
        false
    } else if p[i] == 63 || lower_byte(p[i]) == lower_byte(s[j]) {
        glob_match_at(p, s, i + 1, j + 1)
    } else {
        false
    }
}

/// Does `name` match the glob pattern `pattern`, ignoring ASCII case?
pub fn glob_match_bytes(pattern: &Vec<u8>, name: &Vec<u8>) -> (r: bool)
    ensures
        r == glob_match(pattern@, name@),
{
    proof {
        assert(pattern@.skip(0) =~= pattern@);
        assert(name@.skip(0) =~= name@);
    }
    glob_match_at(pattern, name, 0, 0)
}

/// The fixed exclusion patterns, in the order they are tried.
pub open spec fn exclusion_patterns() -> Seq<Seq<u8>> {
    seq![
        ".DS_Store".spec_bytes(),
        "._*".spec_bytes(),
        "Thumbs.db".spec_bytes(),
        "desktop.ini".spec_bytes(),
        "$RECYCLE.BIN".spec_bytes(),
        ".directory".spec_bytes(),
        ".hidden".spec_bytes(),
        ".Trash-*".spec_bytes(),
        "*.swp".spec_bytes(),
        "*~".spec_bytes(),
        ".lock".spec_bytes(),
        ".git".spec_bytes(),
        ".svn".spec_bytes(),
        ".hg".spec_bytes(),
        ".bzr".spec_bytes(),
        ".idea".spec_bytes(),
        ".vscode".spec_bytes(),
    ]
}

/// A name is excluded when any of the fixed patterns matches it.
pub open spec fn is_excluded_spec(name: Seq<u8>) -> bool {
    exists|k: int|
        0 <= k < exclusion_patterns().len() && #[trigger] glob_match(
            exclusion_patterns()[k],
            name,
        )
}

/// The exclusion patterns as byte vectors, in the order of
/// `exclusion_patterns`.
fn exclusion_pattern_list() -> (pats: Vec<Vec<u8>>)
    ensures
        pats@.len() == exclusion_patterns().len(),
        forall|k: int| 0 <= k < pats@.len() ==> pats@[k]@ == exclusion_patterns()[k],
{
    let mut pats: Vec<Vec<u8>> = Vec::new();
    pats.push(slice_to_vec(".DS_Store".as_bytes()));
    pats.push(slice_to_vec("._*".as_bytes()));
    pats.push(slice_to_vec("Thumbs.db".as_bytes()));
    pats.push(slice_to_vec("desktop.ini".as_bytes()));
    pats.push(slice_to_vec("$RECYCLE.BIN".as_bytes()));
    pats.push(slice_to_vec(".directory".as_bytes()));
    pats.push(slice_to_vec(".hidden".as_bytes()));
    pats.push(slice_to_vec(".Trash-*".as_bytes()));
    pats.push(slice_to_vec("*.swp".as_bytes()));
    pats.push(slice_to_vec("*~".as_bytes()));
    pats.push(slice_to_vec(".lock".as_bytes()));
    pats.push(slice_to_vec(".git".as_bytes()));
    pats.push(slice_to_vec(".svn".as_bytes()));
    pats.push(slice_to_vec(".hg".as_bytes()));
    pats.push(slice_to_vec(".bzr".as_bytes()));
    pats.push(slice_to_vec(".idea".as_bytes()));
    pats.push(slice_to_vec(".vscode".as_bytes()));
    pats
}

/// Does `name` fall under any of the fixed exclusion patterns?
pub fn is_excluded(name: &Vec<u8>) -> (r: bool)
    ensures
        r == is_excluded_spec(name@),
{
    let pats = exclusion_pattern_list();
    let mut k: usize = 0;
    while k < pats.len()
        invariant
            k <= pats.len(),
            pats@.len() == exclusion_patterns().len(),
            forall|j: int| 0 <= j < pats@.len() ==> pats@[j]@ == exclusion_patterns()[j],
            forall|j: int| 0 <= j < k ==> !#[trigger] glob_match(exclusion_patterns()[j], name@),
        decreases pats.len() - k,
    {
        if glob_match_bytes(&pats[k], name) {
            return true;
        }
        k += 1;
    }
    false
}

} // verus!
