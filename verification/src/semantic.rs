use vstd::prelude::*;

use crate::keys::DescKey;

verus! {

/// A lifted spending-policy tree, reduced to the shapes this wallet model
/// distinguishes: a key check, a k-of-n threshold over sub-policies, a
/// relative-timelock leaf, or any other script primitive.
#[derive(Debug, PartialEq, Eq)]
pub enum PolicyNode {
    /// A signature check against one descriptor key.
    Key(DescKey),
    /// k-of-n threshold: satisfactions must be provided for k sub-policies.
    Thresh(usize, Vec<PolicyNode>),
    /// A relative-timelock restriction, with its raw consensus encoding.
    Older(u32),
    /// Any other script primitive (absolute locktime, hash preimage,
    /// trivial or unsatisfiable): never part of a supported branch.
    Other,
}

/// Whether a policy node is a single key check or one threshold over key
/// checks only (no nested thresholds, no timelocks).
pub open spec fn spec_single_key_or_multisig(node: PolicyNode) -> bool {
    match node {
        PolicyNode::Key(_) => true,
        PolicyNode::Thresh(_k, subs) => forall|i: int| 0 <= i < subs@.len() ==> subs@[i] is Key,
        _ => false,
    }
}

/// Whether a policy node represents a key check (or several of them).
#[verifier::loop_isolation(false)]
pub fn is_single_key_or_multisig(policy: &PolicyNode) -> (r: bool)
    ensures
        r == spec_single_key_or_multisig(*policy),
{
    match policy {
        PolicyNode::Key(_) => true,
        PolicyNode::Thresh(_, subs) => {
            let mut i: usize = 0;
            while i < subs.len()
                invariant
                    i <= subs.len(),
                    forall|j: int| 0 <= j < i ==> subs@[j] is Key,
                decreases subs.len() - i,
            {
                match &subs[i] {
                    PolicyNode::Key(_) => {}
                    _ => {
                        proof {
                            assert(subs@[i as int] !is Key);
                        }
                        return false;
                    }
                }
                i = i + 1;
            }
            true
        }
        _ => false,
    }
}

/// Every threshold of the tree asks for at least one and at most all of
/// its sub-policies. The lift transform and its normalization only build
/// such thresholds.
pub open spec fn spec_wf_tree(node: PolicyNode) -> bool
    decreases node,
{
    match node {
        PolicyNode::Thresh(k, subs) => {
            &&& 1 <= k <= subs@.len()
            &&& forall|i: int| 0 <= i < subs@.len() ==> spec_wf_tree(#[trigger] subs@[i])
        }
        _ => true,
    }
}

/// Every key checked somewhere in the tree is one of `keys`.
pub open spec fn spec_tree_keys_in(node: PolicyNode, keys: Seq<DescKey>) -> bool
    decreases node,
{
    match node {
        PolicyNode::Key(k) => keys.contains(k),
        PolicyNode::Thresh(_k, subs) => forall|i: int|
            0 <= i < subs@.len() ==> spec_tree_keys_in(#[trigger] subs@[i], keys),
        _ => true,
    }
}

} // verus!
