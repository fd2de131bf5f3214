//! The bridge to the descriptor layer: type declarations and trusted
//! wrappers around miniscript, which parses descriptors and lifts scripts
//! to semantic policy trees. Everything the policy rules read is converted
//! here, once, to the crate's own plain-value types; the logic above is
//! verified against those.

use miniscript::policy::Liftable;
use std::str::FromStr;

use vstd::prelude::*;

use crate::keys::{DescKey, KeySource, MultiXKey, WildcardKind};
use crate::semantic::{spec_tree_keys_in, spec_wf_tree, PolicyNode};

verus! {

#[verifier::external_type_specification]
#[verifier::external_body]
pub struct ExDescriptorPublicKey(miniscript::descriptor::DescriptorPublicKey);

#[verifier::external_type_specification]
#[verifier::external_body]
pub struct ExWildcard(miniscript::descriptor::Wildcard);

#[verifier::external_type_specification]
#[verifier::external_body]
pub struct ExFingerprint(miniscript::bitcoin::bip32::Fingerprint);

#[verifier::external_type_specification]
#[verifier::external_body]
pub struct ExDerivationPath(miniscript::bitcoin::bip32::DerivationPath);

/// A parsed multipath output descriptor, as the descriptor layer hands it
/// over. The parsed value is opaque to the verifier: the policy rules
/// never read it directly, only the conversions below do, once, when a
/// policy is built from it.
#[verifier::external_body]
pub struct MultipathDescriptor {
    inner: miniscript::Descriptor<miniscript::DescriptorPublicKey>,
}

/// The text a held descriptor was parsed from. Its model: the contracts
/// below speak of a descriptor only through this text.
pub uninterp spec fn descriptor_text(desc: MultipathDescriptor) -> Seq<char>;

/// What recognizing, lifting and converting the descriptor of a given
/// text yields: nothing for text that is not a `wsh()` descriptor holding
/// a plain miniscript (or that fails to lift), else the script's keys and
/// its normalized semantic policy in the crate's model. miniscript's
/// parser, `iter_pk`, `lift` and `normalized` are deterministic functions
/// of the text, so the result carries a name as a function of it.
pub uninterp spec fn wsh_inputs_of(text: Seq<char>) -> Option<(Seq<DescKey>, PolicyNode)>;

impl View for MultipathDescriptor {
    type V = Seq<char>;

    open spec fn view(&self) -> Seq<char> {
        descriptor_text(*self)
    }
}

/// The model of a recognition result.
pub open spec fn wsh_inputs_model(r: Option<(Vec<DescKey>, PolicyNode)>) -> Option<
    (Seq<DescKey>, PolicyNode),
> {
    match r {
        Some((keys, tree)) => Some((keys@, tree)),
        None => None,
    }
}

/// A lifted semantic policy, held opaquely between the lift and its
/// conversion to this crate's tree.
#[verifier::external_body]
struct SemanticTree {
    inner: miniscript::policy::Semantic<miniscript::DescriptorPublicKey>,
}

impl MultipathDescriptor {
    /// Relies on miniscript's descriptor parser: the text form of a
    /// descriptor becomes the parsed descriptor, or nothing when the
    /// text is not a valid descriptor. The held descriptor's model is
    /// the text it was parsed from.
    #[verifier::external_body]
    pub fn from_descriptor_str(text: &str) -> (r: Option<MultipathDescriptor>)
        ensures
            r matches Some(desc) ==> descriptor_text(desc) == text@,
    {
        match miniscript::Descriptor::<miniscript::DescriptorPublicKey>::from_str(text) {
            Ok(inner) => Some(MultipathDescriptor { inner }),
            Err(_) => None,
        }
    }
}

/// Relies on bitcoin's `DerivationPath` iteration and `u32::from` on
/// `ChildNumber`: each step becomes its raw index value (hardened steps
/// carry the top bit).
#[verifier::external_body]
fn path_steps(path: &miniscript::bitcoin::bip32::DerivationPath) -> Vec<u32> {
    path.into_iter().map(|c| u32::from(*c)).collect()
}

/// Relies on bitcoin's `Fingerprint::to_bytes`: a key origin becomes the
/// fingerprint read as a big-endian integer and the path as raw step
/// values.
#[verifier::external_body]
fn key_source_model(
    origin: &(miniscript::bitcoin::bip32::Fingerprint, miniscript::bitcoin::bip32::DerivationPath),
) -> KeySource {
    KeySource {
        fingerprint: u32::from_be_bytes(origin.0.to_bytes()),
        derivation_path: path_steps(&origin.1),
    }
}

/// Relies on miniscript's `Wildcard`: its three variants are carried over
/// one for one.
#[verifier::external_body]
fn wildcard_model(wildcard: &miniscript::descriptor::Wildcard) -> WildcardKind {
    match wildcard {
        miniscript::descriptor::Wildcard::None => WildcardKind::Absent,
        miniscript::descriptor::Wildcard::Unhardened => WildcardKind::Unhardened,
        miniscript::descriptor::Wildcard::Hardened => WildcardKind::Hardened,
    }
}

/// Relies on miniscript's `DescriptorPublicKey`: its three variants are
/// told apart one for one, and a multipath key's origin, wildcard and
/// derivation tails (in their stored order) are carried over.
#[verifier::external_body]
fn key_model(pk: &miniscript::descriptor::DescriptorPublicKey) -> DescKey {
    match pk {
        miniscript::descriptor::DescriptorPublicKey::Single(..) => DescKey::SinglePub,
        miniscript::descriptor::DescriptorPublicKey::XPub(..) => DescKey::SingleXPub,
        miniscript::descriptor::DescriptorPublicKey::MultiXPub(xpub) => DescKey::MultiXPub(
            MultiXKey {
                origin: xpub.origin.as_ref().map(key_source_model),
                wildcard: wildcard_model(&xpub.wildcard),
                derivation_paths: xpub.derivation_paths.paths().iter().map(path_steps).collect(),
            },
        ),
    }
}

/// Relies on miniscript's semantic `Policy`: key checks, thresholds and
/// relative-timelock leaves are carried over one for one (a timelock by
/// its raw consensus value), and every other primitive becomes `Other`.
#[verifier::external_body]
fn policy_node_model(policy: &SemanticTree) -> PolicyNode {
    match &policy.inner {
        miniscript::policy::Semantic::Key(pk) => PolicyNode::Key(key_model(pk)),
        miniscript::policy::Semantic::Older(seq) => PolicyNode::Older(seq.0),
        miniscript::policy::Semantic::Threshold(k, subs) => PolicyNode::Thresh(
            *k,
            subs.iter().map(|s| policy_node_model(&SemanticTree { inner: s.clone() })).collect(),
        ),
        _ => PolicyNode::Other,
    }
}

/// Relies on miniscript's descriptor layer: `Descriptor::Wsh` and
/// `WshInner::Ms` recognize a `wsh()` descriptor holding a plain
/// miniscript; `iter_pk` yields every public key the script references;
/// `lift` and `normalized` produce the flattened semantic policy of the
/// script. Returns `None` for any other descriptor form, or when lifting
/// fails.
///
/// The guarantees stated hold of miniscript as its source shows: the
/// whole recognition is a deterministic function of the descriptor's
/// text, named `wsh_inputs_of`; every threshold `lift` and `normalized`
/// build or pass through asks for at least one and at most all of its
/// sub-policies; and every key of the lifted policy is one of the keys
/// `iter_pk` yields.
#[verifier::external_body]
pub(crate) fn wsh_policy_inputs(desc: &MultipathDescriptor) -> (r: Option<
    (Vec<DescKey>, PolicyNode),
>)
    ensures
        wsh_inputs_model(r) == wsh_inputs_of(desc@),
        r matches Some(inputs) ==> spec_wf_tree(inputs.1) && spec_tree_keys_in(
            inputs.1,
            inputs.0@,
        ),
{
    let ms = match &desc.inner {
        miniscript::Descriptor::Wsh(wsh) => match wsh.as_inner() {
            miniscript::descriptor::WshInner::Ms(ms) => ms,
            _ => return None,
        },
        _ => return None,
    };
    let keys: Vec<DescKey> = ms.iter_pk().map(|pk| key_model(&pk)).collect();
    let tree = policy_node_model(&SemanticTree { inner: ms.lift().ok()?.normalized() });
    Some((keys, tree))
}

} // verus!
