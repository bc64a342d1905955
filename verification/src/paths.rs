//! Byte-level path reasoning: hidden names and components, extensions, and
//! the name of the compressed sibling artifact.
//!
//! A path is a byte string whose components are separated by a slash (byte
//! value 46 is the dot, 47 the slash). An entry is hidden when its own name
//! begins with a dot.

use vstd::prelude::*;

verus! {

/// The name of a single entry is hidden: it begins with a dot.
pub open spec fn hidden_name(name: Seq<u8>) -> bool {
    name.len() > 0 && name[0] == 46
}

/// Position `i` of path `p` begins a hidden component: a dot that stands
/// first in the path or right after a separator. (46 is `.`, 47 is `/`.)
pub open spec fn hidden_at(p: Seq<u8>, i: int) -> bool {
    p[i] == 46 && (i == 0 || p[i - 1] == 47)
}

/// Some component of the path is hidden.
pub open spec fn has_hidden_component(p: Seq<u8>) -> bool {
    exists|i: int| 0 <= i < p.len() && hidden_at(p, i)
}

/// Decides whether a single entry name is hidden.
pub fn is_hidden_name(name: &Vec<u8>) -> (b: bool)
    ensures
        b == hidden_name(name@),
{
    name.len() > 0 && name[0] == 46
}

/// `j` marks the extension of the path's final component: the last dot of
/// that component, not standing first in it. Everything after `j` is the
/// extension.
pub open spec fn ext_marker(p: Seq<u8>, j: int) -> bool {
    &&& 1 <= j < p.len()
    &&& p[j] == 46
    &&& p[j - 1] != 47
    &&& forall|k: int| j < k < p.len() ==> p[k] != 46 && p[k] != 47
}

/// The path's final component has an extension.
pub open spec fn has_extension(p: Seq<u8>) -> bool {
    exists|j: int| ext_marker(p, j)
}

/// The extension: what follows the marking dot. Meaningful only when
/// `has_extension` holds.
pub open spec fn extension_of(p: Seq<u8>) -> Seq<u8> {
    p.subrange((choose|j: int| ext_marker(p, j)) + 1, p.len() as int)
}

/// At most one position can mark the extension.
pub proof fn lemma_ext_marker_unique(p: Seq<u8>, j1: int, j2: int)
    requires
        ext_marker(p, j1),
        ext_marker(p, j2),
    ensures
        j1 == j2,
{
    if j1 < j2 {
        assert(p[j2] != 46);
    }
    if j2 < j1 {
        assert(p[j1] != 46);
    }
}

/// A marker pins the extension down.
pub proof fn lemma_extension_from_marker(p: Seq<u8>, j: int)
    requires
        ext_marker(p, j),
    ensures
        has_extension(p),
        extension_of(p) == p.subrange(j + 1, p.len() as int),
{
    assert(has_extension(p));
    let jc = choose|j2: int| ext_marker(p, j2);
    lemma_ext_marker_unique(p, j, jc);
}

/// The triple of bytes spells one of the nine allowed asset extensions:
/// vmt, vtf, vtx, phy, mdl, vvd, wav, mp3, bsp (exact case).
pub open spec fn allowed_triple(a: u8, b: u8, c: u8) -> bool {
    ||| (a == 118 && b == 109 && c == 116)  // vmt
    ||| (a == 118 && b == 116 && c == 102)  // vtf
    ||| (a == 118 && b == 116 && c == 120)  // vtx
    ||| (a == 112 && b == 104 && c == 121)  // phy
    ||| (a == 109 && b == 100 && c == 108)  // mdl
    ||| (a == 118 && b == 118 && c == 100)  // vvd
    ||| (a == 119 && b == 97 && c == 118)  // wav
    ||| (a == 109 && b == 112 && c == 51)  // mp3
    ||| (a == 98 && b == 115 && c == 112)  // bsp
}

/// The extension is in the fixed allow-list.
pub open spec fn allowed_extension(e: Seq<u8>) -> bool {
    e.len() == 3 && allowed_triple(e[0], e[1], e[2])
}

/// The path names a file of one of the allowed asset types.
pub open spec fn wants_compression(p: Seq<u8>) -> bool {
    has_extension(p) && allowed_extension(extension_of(p))
}

/// The compressed sibling's path: the source file's full path with the
/// compressed suffix (`.bz2`, bytes 46 98 122 50) appended.
pub open spec fn artifact_path_of(p: Seq<u8>) -> Seq<u8> {
    p + seq![46u8, 98u8, 122u8, 50u8]
}

/// A path in the shape the scanner produces: nonempty, with a nonempty
/// final component.
pub open spec fn wf_path(p: Seq<u8>) -> bool {
    p.len() > 0 && p[p.len() - 1] != 47
}

/// A compressed sibling is never itself an asset to compress: its extension
/// is the compressed suffix, which the allow-list does not hold.
pub proof fn lemma_artifact_not_wanted(p: Seq<u8>)
    requires
        wf_path(p),
    ensures
        !wants_compression(artifact_path_of(p)),
        wf_path(artifact_path_of(p)),
{
    let a = artifact_path_of(p);
    let j = p.len() as int;
    assert(a[j] == 46);
    assert(a[j - 1] == p[j - 1]);
    assert(ext_marker(a, j));
    lemma_extension_from_marker(a, j);
    assert(extension_of(a) =~= seq![98u8, 122u8, 50u8]);
}

/// Decides whether any component of the path is hidden.
pub fn path_has_hidden_component(p: &Vec<u8>) -> (b: bool)
    ensures
        b == has_hidden_component(p@),
{
    let n = p.len();
    let mut i: usize = 0;
    while i < n
        invariant
            n == p@.len(),
            0 <= i <= n,
            forall|k: int| 0 <= k < i ==> !hidden_at(p@, k),
        decreases n - i,
    {
        if p[i] == 46 && (i == 0 || p[i - 1] == 47) {
            assert(hidden_at(p@, i as int));
            return true;
        }
        i = i + 1;
    }
    false
}

/// Decides whether the path's extension is in the allow-list.
pub fn has_allowed_extension(p: &Vec<u8>) -> (b: bool)
    ensures
        b == wants_compression(p@),
{
    let n = p.len();
    let mut i: usize = n;
    while i > 0 && p[i - 1] != 46 && p[i - 1] != 47
        invariant
            0 <= i <= n,
            n == p@.len(),
            forall|k: int| i <= k < n ==> p@[k] != 46 && p@[k] != 47,
        decreases i,
    {
        i = i - 1;
    }
    if i >= 2 && p[i - 1] == 46 && p[i - 2] != 47 {
        proof {
            assert(ext_marker(p@, i - 1));
            lemma_extension_from_marker(p@, i - 1);
            assert(extension_of(p@) =~= p@.subrange(i as int, n as int));
        }
        if n - i == 3 {
            let a = p[i];
            let b = p[i + 1];
            let c = p[i + 2];
            proof {
                assert(extension_of(p@)[0] == a);
                assert(extension_of(p@)[1] == b);
                assert(extension_of(p@)[2] == c);
            }
            (a == 118 && b == 109 && c == 116) || (a == 118 && b == 116 && c == 102) || (a == 118
                && b == 116 && c == 120) || (a == 112 && b == 104 && c == 121) || (a == 109 && b
                == 100 && c == 108) || (a == 118 && b == 118 && c == 100) || (a == 119 && b == 97
                && c == 118) || (a == 109 && b == 112 && c == 51) || (a == 98 && b == 115 && c
                == 112)
        } else {
            false
        }
    } else {
        proof {
            assert forall|j: int| !ext_marker(p@, j) by {
                if 1 <= j < n {
                    if j >= i as int {
                        assert(p@[j] != 46);
                    } else if j < i - 1 {
                        assert(p@[i - 1] == 46 || p@[i - 1] == 47);
                    }
                }
            }
        }
        false
    }
}

/// Copies a byte string.
pub fn copy_bytes(p: &Vec<u8>) -> (r: Vec<u8>)
    ensures
        r@ == p@,
{
    let n = p.len();
    let mut r: Vec<u8> = Vec::new();
    let mut i: usize = 0;
    while i < n
        invariant
            0 <= i <= n,
            n == p@.len(),
            r@ == p@.take(i as int),
        decreases n - i,
    {
        r.push(p[i]);
        proof {
            assert(r@ =~= p@.take(i + 1));
        }
        i = i + 1;
    }
    proof {
        assert(r@ =~= p@);
    }
    r
}

/// Builds the compressed sibling's path.
pub fn artifact_path(p: &Vec<u8>) -> (r: Vec<u8>)
    ensures
        r@ == artifact_path_of(p@),
{
    let mut r = copy_bytes(p);
    r.push(46);
    r.push(98);
    r.push(122);
    r.push(50);
    proof {
        assert(r@ =~= artifact_path_of(p@));
    }
    r
}

/// Compares two byte strings for equality.
pub fn bytes_equal(a: &Vec<u8>, b: &Vec<u8>) -> (r: bool)
    ensures
        r == (a@ == b@),
{
    let n = a.len();
    if n != b.len() {
        return false;
    }
    let mut i: usize = 0;
    while i < n
        invariant
            0 <= i <= n,
            n == a@.len(),
            n == b@.len(),
            forall|k: int| 0 <= k < i ==> a@[k] == b@[k],
        decreases n - i,
    {
        if a[i] != b[i] {
            return false;
        }
        i = i + 1;
    }
    proof {
        assert(a@ =~= b@);
    }
    true
}

} // verus!
