use vstd::prelude::*;

verus! {

/// The identity of a signer: a master-key fingerprint together with a
/// derivation path. The fingerprint is read as a big-endian 32-bit integer
/// and each path step as its raw index value (hardened steps carry the top
/// bit). A key origin and an observed signing key are both such pairs.
#[derive(Debug, Clone, PartialEq, Eq)]
pub struct KeySource {
    pub fingerprint: u32,
    pub derivation_path: Vec<u32>,
}

impl View for KeySource {
    type V = (u32, Seq<u32>);

    open spec fn view(&self) -> (u32, Seq<u32>) {
        (self.fingerprint, self.derivation_path@)
    }
}

/// Whether an extended key's derivation tail ends in a wildcard step, and
/// of which kind.
#[derive(Debug, Clone, Copy, PartialEq, Eq)]
pub enum WildcardKind {
    Absent,
    Unhardened,
    Hardened,
}

/// The parts of a multipath extended key that the policy rules read.
#[derive(Debug, Clone, PartialEq, Eq)]
pub struct MultiXKey {
    /// Origin of the key, if it carries one.
    pub origin: Option<KeySource>,
    /// The wildcard kind of the derivation tails.
    pub wildcard: WildcardKind,
    /// The alternative derivation tails, one per path; never reordered.
    pub derivation_paths: Vec<Vec<u32>>,
}

/// The parts of a descriptor public key that the policy rules read: which
/// kind of key it is and, for a multipath extended key, its origin,
/// wildcard and derivation tails.
#[derive(Debug, Clone, PartialEq, Eq)]
pub enum DescKey {
    /// A single raw public key, not derivable.
    SinglePub,
    /// An extended key with a single derivation tail.
    SingleXPub,
    /// An extended key with several alternative derivation tails.
    MultiXPub(MultiXKey),
}

/// The wallet's signing model for one descriptor key: a multipath extended
/// key that carries an origin, ends in an unhardened wildcard, and has
/// exactly two derivation tails whose final indexes are 0 (receive) and 1
/// (change), in that order.
pub open spec fn spec_valid_desc_key(key: DescKey) -> bool {
    match key {
        DescKey::MultiXPub(x) => {
            &&& x.origin is Some
            &&& x.wildcard is Unhardened
            &&& x.derivation_paths@.len() == 2
            &&& x.derivation_paths@[0]@.len() >= 1
            &&& x.derivation_paths@[0]@.last() == 0u32
            &&& x.derivation_paths@[1]@.len() >= 1
            &&& x.derivation_paths@[1]@.last() == 1u32
        }
        _ => false,
    }
}

/// Whether one descriptor key is usable under the wallet's signing model:
/// derivable (wildcard), multipath with exactly the receive and change
/// tails, and origin-tagged so an external signer can be pointed at it.
pub fn is_valid_desc_key(key: &DescKey) -> (r: bool)
    ensures
        r == spec_valid_desc_key(*key),
{
    match key {
        DescKey::MultiXPub(x) => {
            let wildcard_ok = match x.wildcard {
                WildcardKind::Unhardened => true,
                _ => false,
            };
            if !(x.origin.is_some() && wildcard_ok && x.derivation_paths.len() == 2) {
                return false;
            }
            let p0 = &x.derivation_paths[0];
            let p1 = &x.derivation_paths[1];
            p0.len() >= 1 && p1.len() >= 1 && p0[p0.len() - 1] == 0 && p1[p1.len() - 1] == 1
        }
        _ => false,
    }
}

/// The origin a key carries, if any: only multipath extended keys can
/// carry one here.
pub open spec fn spec_key_origin(key: DescKey) -> Option<KeySource> {
    match key {
        DescKey::MultiXPub(x) => x.origin,
        _ => None,
    }
}

/// Returns the origin of a multipath descriptor key, or `None` for any
/// other key.
pub fn key_origin(key: &DescKey) -> (r: Option<&KeySource>)
    ensures
        r is Some <==> spec_key_origin(*key) is Some,
        r matches Some(o) ==> spec_key_origin(*key) == Some(*o),
{
    match key {
        DescKey::MultiXPub(x) => match &x.origin {
            Some(o) => Some(o),
            None => None,
        },
        _ => None,
    }
}

/// Copies a derivation path step by step.
pub fn copy_path(p: &Vec<u32>) -> (r: Vec<u32>)
    ensures
        r@ == p@,
{
    let mut out: Vec<u32> = Vec::new();
    let mut i: usize = 0;
    while i < p.len()
        invariant
            i <= p.len(),
            out@ == p@.take(i as int),
        decreases p.len() - i,
    {
        out.push(p[i]);
        proof {
            assert(p@.take(i as int).push(p@[i as int]) =~= p@.take(i + 1 as int));
        }
        i = i + 1;
    }
    proof {
        assert(p@.take(p@.len() as int) =~= p@);
    }
    out
}

/// Copies a key source.
pub fn copy_key_source(k: &KeySource) -> (r: KeySource)
    ensures
        r@ == k@,
{
    KeySource { fingerprint: k.fingerprint, derivation_path: copy_path(&k.derivation_path) }
}

/// Whether two key sources are the same signer identity.
pub fn key_source_eq(a: &KeySource, b: &KeySource) -> (r: bool)
    ensures
        r == (a@ == b@),
{
    if a.fingerprint != b.fingerprint {
        return false;
    }
    if a.derivation_path.len() != b.derivation_path.len() {
        return false;
    }
    let mut i: usize = 0;
    while i < a.derivation_path.len()
        invariant
            i <= a.derivation_path.len(),
            a.derivation_path@.len() == b.derivation_path@.len(),
            a.fingerprint == b.fingerprint,
            forall|j: int| 0 <= j < i ==> a.derivation_path@[j] == b.derivation_path@[j],
        decreases a.derivation_path.len() - i,
    {
        if a.derivation_path[i] != b.derivation_path[i] {
            return false;
        }
        i = i + 1;
    }
    proof {
        assert(a.derivation_path@ =~= b.derivation_path@);
    }
    true
}

} // verus!
