//! Metadata snapshots for a versioned filesystem.
//!
//! The library captures a point-in-time record of a filesystem entry's
//! metadata (inode statistics, resolved owner and group identity, extended
//! attributes, capture time), encodes it into a compact binary form that can
//! be decoded back without loss — credential fields excepted, which are
//! always redacted to a fixed placeholder — and persists it under an
//! exclusive per-path lock into a metadata directory resolved by a
//! [`BackStore`].

use vstd::prelude::*;

pub mod codec;
pub mod meta;
pub mod wrappers;

verus! {

/// The path separator byte `'/'`.
pub const SEP: u8 = 47;

/// OS error code: invalid argument.
pub const EINVAL: i32 = 22;

/// OS error code: out of memory.
pub const ENOMEM: i32 = 12;

/// OS error code: device or resource busy.
pub const EBUSY: i32 = 16;

/// OS error code: file exists.
pub const EEXIST: i32 = 17;

/// OS error code: no data available (no such extended attribute).
pub const ENODATA: i32 = 61;

/// Joining follows the rule of `PathBuf::join`: an absolute `partial`
/// (one starting with the separator) replaces the base entirely.
pub open spec fn spec_join(base: Seq<u8>, partial: Seq<u8>) -> Seq<u8> {
    if partial.len() > 0 && partial[0] == SEP {
        partial
    } else {
        base + seq![SEP] + partial
    }
}

/// Join a base path and a partial path, both given as platform byte strings.
pub fn join_bytes(base: &[u8], partial: &[u8]) -> (r: Vec<u8>)
    ensures
        r@ == spec_join(base@, partial@),
{
    if partial.len() > 0 && *vstd::slice::slice_index_get(partial, 0) == SEP {
        vstd::slice::slice_to_vec(partial)
    } else {
        let mut v = vstd::slice::slice_to_vec(base);
        v.push(SEP);
        let mut rest = vstd::slice::slice_to_vec(partial);
        v.append(&mut rest);
        proof {
            assert(v@ =~= base@ + seq![SEP] + partial@);
        }
        v
    }
}

/// Whether a byte string holds an embedded terminator byte, which no
/// platform-native path may.
pub open spec fn has_nul(b: Seq<u8>) -> bool {
    b.contains(0u8)
}

/// Scan a byte string for an embedded terminator byte.
pub fn contains_nul(b: &[u8]) -> (r: bool)
    ensures
        r == has_nul(b@),
{
    let mut i: usize = 0;
    while i < b.len()
        invariant
            i <= b@.len(),
            forall|j: int| 0 <= j < i ==> b@[j] != 0u8,
        decreases b@.len() - i,
    {
        if *vstd::slice::slice_index_get(b, i) == 0 {
            proof {
                assert(b@[i as int] == 0u8);
                assert(b@.contains(0u8));
            }
            return true;
        }
        i += 1;
    }
    proof {
        assert(!b@.contains(0u8));
    }
    false
}

/// Resolves a logical (partial) path to physical storage locations.
///
/// The two resolutions a metadata pipeline needs: where the metadata
/// directory for a logical path lives, and where the most current physical
/// copy of the entry itself lives. Implementations must be deterministic for
/// a given configuration; errors are OS-style integer codes.
pub trait BackStore {
    /// Physical location of the metadata directory for `partial`.
    fn metadir_path(&self, partial: &[u8]) -> Result<Vec<u8>, i32>;

    /// Most current physical location of the entry at `partial`.
    fn highest_path(&self, partial: &[u8]) -> Result<Vec<u8>, i32>;
}

/// The byte string `/tmp/foo/meta`, root of the metadata tree.
pub open spec fn meta_root() -> Seq<u8> {
    seq![47u8, 116u8, 109u8, 112u8, 47u8, 102u8, 111u8, 111u8, 47u8, 109u8, 101u8, 116u8, 97u8]
}

/// The byte string `/tmp/foo/highest`, root of the current-copy tree.
pub open spec fn highest_root() -> Seq<u8> {
    seq![
        47u8, 116u8, 109u8, 112u8, 47u8, 102u8, 111u8, 111u8, 47u8, 104u8, 105u8, 103u8, 104u8,
        101u8, 115u8, 116u8,
    ]
}

fn meta_root_vec() -> (v: Vec<u8>)
    ensures
        v@ == meta_root(),
{
    let mut v: Vec<u8> = Vec::new();
    v.push(47);
    v.push(116);
    v.push(109);
    v.push(112);
    v.push(47);
    v.push(102);
    v.push(111);
    v.push(111);
    v.push(47);
    v.push(109);
    v.push(101);
    v.push(116);
    v.push(97);
    proof {
        assert(v@ =~= meta_root());
    }
    v
}

fn highest_root_vec() -> (v: Vec<u8>)
    ensures
        v@ == highest_root(),
{
    let mut v: Vec<u8> = Vec::new();
    v.push(47);
    v.push(116);
    v.push(109);
    v.push(112);
    v.push(47);
    v.push(102);
    v.push(111);
    v.push(111);
    v.push(47);
    v.push(104);
    v.push(105);
    v.push(103);
    v.push(104);
    v.push(101);
    v.push(115);
    v.push(116);
    proof {
        assert(v@ =~= highest_root());
    }
    v
}

/// Reference back-store: resolves every logical path under fixed roots.
#[derive(Debug, Clone)]
pub struct AiFs {
    pub root: Vec<u8>,
}

impl AiFs {
    /// Build a store rooted at `root`; the lower-layer path and the optional
    /// key are accepted for interface compatibility and not used by the
    /// resolution rules.
    pub fn new(root: &[u8], _lower: &str, _key: Option<String>) -> (r: Self)
        ensures
            r.root@ == root@,
    {
        AiFs { root: vstd::slice::slice_to_vec(root) }
    }
}

impl BackStore for AiFs {
    fn metadir_path(&self, partial: &[u8]) -> (r: Result<Vec<u8>, i32>)
        ensures
            r is Ok && r->Ok_0@ == spec_join(meta_root(), partial@),
    {
        let base = meta_root_vec();
        Ok(join_bytes(base.as_slice(), partial))
    }

    fn highest_path(&self, partial: &[u8]) -> (r: Result<Vec<u8>, i32>)
        ensures
            r is Ok && r->Ok_0@ == spec_join(highest_root(), partial@),
    {
        let base = highest_root_vec();
        Ok(join_bytes(base.as_slice(), partial))
    }
}

} // verus!
