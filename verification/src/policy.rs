use vstd::prelude::*;

use crate::error::LianaDescError;
use crate::keys::{is_valid_desc_key, spec_valid_desc_key, DescKey};
use crate::paths::{
    spec_from_primary_path, spec_from_recovery_path, spec_key_node_keys, spec_nofn_scan,
    spec_path_has_origins, spec_path_keys, PathInfo, PathModel, PathSpendInfo,
};
use crate::semantic::{
    is_single_key_or_multisig, spec_single_key_or_multisig, spec_tree_keys_in, spec_wf_tree,
    PolicyNode,
};

verus! {

/// The index of the first key failing validation, or -1 when every key
/// passes.
pub open spec fn spec_first_invalid(keys: Seq<DescKey>) -> int
    decreases keys.len(),
{
    if keys.len() == 0 {
        -1
    } else if !spec_valid_desc_key(keys[0]) {
        0
    } else {
        let rest = spec_first_invalid(keys.drop_first());
        if rest < 0 {
            -1
        } else {
            rest + 1
        }
    }
}

/// The first invalid key is the one an in-order scan stops at, and there
/// is none exactly when every key is valid.
pub proof fn lemma_first_invalid(keys: Seq<DescKey>)
    ensures
        spec_first_invalid(keys) == -1 <==> (forall|i: int|
            0 <= i < keys.len() ==> spec_valid_desc_key(#[trigger] keys[i])),
        spec_first_invalid(keys) != -1 ==> {
            let at = spec_first_invalid(keys);
            &&& 0 <= at < keys.len()
            &&& !spec_valid_desc_key(keys[at])
            &&& forall|i: int| 0 <= i < at ==> spec_valid_desc_key(#[trigger] keys[i])
        },
    decreases keys.len(),
{
    if keys.len() > 0 && spec_valid_desc_key(keys[0]) {
        lemma_first_invalid(keys.drop_first());
        assert forall|i: int| 0 <= i < keys.len() implies keys.drop_first()[i - 1] == keys[i] || i
            == 0 by {}
    }
}

/// What building a policy from a script's keys and its lifted, normalized
/// semantic tree returns. Every key must pass validation (the first
/// failure is reported); the tree must be a boolean OR of exactly two
/// branches, exactly one of which is a plain key set: that one is the
/// primary path, the other must classify as a recovery path.
pub open spec fn spec_liana_policy(keys: Seq<DescKey>, tree: PolicyNode) -> Result<
    (PathModel, (u16, PathModel)),
    LianaDescError,
> {
    if spec_first_invalid(keys) != -1 {
        Err(LianaDescError::InvalidKey(keys[spec_first_invalid(keys)]))
    } else {
        match tree {
            PolicyNode::Thresh(k, subs) => {
                if k == 1 && subs@.len() == 2 {
                    let keyish0 = spec_single_key_or_multisig(subs@[0]);
                    let keyish1 = spec_single_key_or_multisig(subs@[1]);
                    if keyish0 && !keyish1 {
                        spec_assemble_policy(subs@[0], subs@[1])
                    } else if !keyish0 && keyish1 {
                        spec_assemble_policy(subs@[1], subs@[0])
                    } else {
                        Err(LianaDescError::IncompatibleDesc)
                    }
                } else {
                    Err(LianaDescError::IncompatibleDesc)
                }
            }
            _ => Err(LianaDescError::IncompatibleDesc),
        }
    }
}

/// Classification of the two branches once they are told apart.
pub open spec fn spec_assemble_policy(prim: PolicyNode, reco: PolicyNode) -> Result<
    (PathModel, (u16, PathModel)),
    LianaDescError,
> {
    match spec_from_primary_path(prim) {
        Err(e) => Err(e),
        Ok(pm) => match spec_from_recovery_path(reco) {
            Err(e) => Err(e),
            Ok((tl, rm)) => Ok((pm, (tl, rm))),
        },
    }
}

/// The validated two-branch spending policy of a wallet: a primary path,
/// available immediately, and a recovery path, available once its
/// relative timelock has matured. Built once per descriptor and immutable
/// afterwards.
#[derive(Debug, PartialEq, Eq)]
pub struct LianaPolicy {
    pub primary_path: PathInfo,
    pub recovery_path: (u16, PathInfo),
}

impl View for LianaPolicy {
    type V = (PathModel, (u16, PathModel));

    open spec fn view(&self) -> (PathModel, (u16, PathModel)) {
        (self.primary_path@, (self.recovery_path.0, self.recovery_path.1@))
    }
}

/// The model of a policy-building result.
pub open spec fn policy_result_model(r: Result<LianaPolicy, LianaDescError>) -> Result<
    (PathModel, (u16, PathModel)),
    LianaDescError,
> {
    match r {
        Ok(p) => Ok(p@),
        Err(e) => Err(e),
    }
}

/// What building a policy from a descriptor of a given text returns:
/// text that does not name a liftable plain-miniscript `wsh()`
/// descriptor is incompatible, and everything else goes through the
/// builder on the recognized keys and tree.
pub open spec fn spec_descriptor_policy(text: Seq<char>) -> Result<
    (PathModel, (u16, PathModel)),
    LianaDescError,
> {
    match crate::lift::wsh_inputs_of(text) {
        Some((keys, tree)) => spec_liana_policy(keys, tree),
        None => Err(LianaDescError::IncompatibleDesc),
    }
}

impl LianaPolicy {
    /// Builds the policy from the keys a script references (in reference
    /// order) and the script's lifted, normalized semantic policy tree.
    /// All-or-nothing: on any failure no partial policy is returned.
    #[verifier::loop_isolation(false)]
    pub fn from_normalized_policy(keys: Vec<DescKey>, policy: PolicyNode) -> (r: Result<
        LianaPolicy,
        LianaDescError,
    >)
        ensures
            policy_result_model(r) == spec_liana_policy(keys@, policy),
    {
        proof {
            lemma_first_invalid(keys@);
        }
        let mut ks = keys;
        let mut i: usize = 0;
        while i < ks.len()
            invariant
                i <= ks.len(),
                ks@ == keys@,
                forall|j: int| 0 <= j < i ==> spec_valid_desc_key(#[trigger] ks@[j]),
            decreases ks.len() - i,
        {
            if !is_valid_desc_key(&ks[i]) {
                let bad = ks.remove(i);
                return Err(LianaDescError::InvalidKey(bad));
            }
            i = i + 1;
        }

        let (k, subs) = match policy {
            PolicyNode::Thresh(k, subs) => (k, subs),
            _ => {
                return Err(LianaDescError::IncompatibleDesc);
            }
        };
        if !(k == 1 && subs.len() == 2) {
            return Err(LianaDescError::IncompatibleDesc);
        }
        let keyish0 = is_single_key_or_multisig(&subs[0]);
        let keyish1 = is_single_key_or_multisig(&subs[1]);
        let mut subs = subs;
        let second = subs.remove(1);
        let first = subs.remove(0);
        let (prim, reco) = if keyish0 && !keyish1 {
            (first, second)
        } else if !keyish0 && keyish1 {
            (second, first)
        } else {
            return Err(LianaDescError::IncompatibleDesc);
        };
        let primary_path = match PathInfo::from_primary_path(prim) {
            Ok(p) => p,
            Err(e) => {
                return Err(e);
            }
        };
        let recovery_path = match PathInfo::from_recovery_path(reco) {
            Ok(t) => t,
            Err(e) => {
                return Err(e);
            }
        };
        Ok(LianaPolicy { primary_path, recovery_path })
    }

    /// Creates the policy from a descriptor: checks that it is the one
    /// targeted form (a `wsh()` holding a plain miniscript), validates
    /// every key the script references, lifts the script to its
    /// normalized semantic policy and classifies the two spending
    /// branches. The result is pinned as a function of the descriptor's
    /// text, and any accepted policy is structurally sound.
    pub fn from_multipath_descriptor(desc: &crate::lift::MultipathDescriptor) -> (r: Result<
        LianaPolicy,
        LianaDescError,
    >)
        ensures
            policy_result_model(r) == spec_descriptor_policy(desc@),
            r matches Ok(p) ==> spec_policy_sane(p@),
    {
        match crate::lift::wsh_policy_inputs(desc) {
            None => Err(LianaDescError::IncompatibleDesc),
            Some(inputs) => {
                let (keys, tree) = inputs;
                let ghost gk = keys@;
                let ghost gt = tree;
                proof {
                    assert(crate::lift::wsh_inputs_of(desc@) == Some((gk, gt)));
                }
                let r = Self::from_normalized_policy(keys, tree);
                proof {
                    if r is Ok {
                        lemma_accepted_policy_sane(gk, gt);
                    }
                }
                r
            }
        }
    }

    /// The primary spending path.
    pub fn primary_path(&self) -> (r: &PathInfo)
        ensures
            *r == self.primary_path,
    {
        &self.primary_path
    }

    /// The timelock value and path information of the recovery path.
    pub fn recovery_path(&self) -> (r: (u16, &PathInfo))
        ensures
            r.0 == self.recovery_path.0,
            *r.1 == self.recovery_path.1,
    {
        (self.recovery_path.0, &self.recovery_path.1)
    }
}

/// Structural soundness of one classified path: a single key, or a
/// threshold asking for at least one and at most all of at least one key.
pub open spec fn spec_path_wf(m: PathModel) -> bool {
    match m {
        PathModel::Single(_k) => true,
        PathModel::Multi(t, ks) => 1 <= t <= ks.len() && ks.len() >= 1,
    }
}

/// Every key of a classified path passes the key validator.
pub open spec fn spec_path_keys_valid(m: PathModel) -> bool {
    forall|i: int|
        0 <= i < spec_path_keys(m).len() ==> spec_valid_desc_key(#[trigger] spec_path_keys(m)[i])
}

/// Structural soundness of a whole accepted policy: both paths well
/// formed, every key of both paths valid, and the recovery timelock
/// nonzero (and, as a 16-bit value, at most 65535).
pub open spec fn spec_policy_sane(v: (PathModel, (u16, PathModel))) -> bool {
    &&& spec_path_wf(v.0)
    &&& spec_path_wf(v.1.1)
    &&& spec_path_keys_valid(v.0)
    &&& spec_path_keys_valid(v.1.1)
    &&& 1 <= v.1.0 <= 0xffff
}

/// A key drawn from a list of valid keys is valid.
proof fn lemma_contained_key_valid(keys: Seq<DescKey>, key: DescKey)
    requires
        keys.contains(key),
        forall|i: int| 0 <= i < keys.len() ==> spec_valid_desc_key(#[trigger] keys[i]),
    ensures
        spec_valid_desc_key(key),
{
    let i = choose|i: int| 0 <= i < keys.len() && keys[i] == key;
}

/// A node accepted as a primary path yields a well-formed path whose
/// keys, being keys of the tree, are all valid.
proof fn lemma_primary_model_props(policy: PolicyNode, keys: Seq<DescKey>)
    requires
        spec_wf_tree(policy),
        spec_tree_keys_in(policy, keys),
        forall|i: int| 0 <= i < keys.len() ==> spec_valid_desc_key(#[trigger] keys[i]),
        spec_from_primary_path(policy) is Ok,
    ensures
        spec_path_wf(spec_from_primary_path(policy)->Ok_0),
        spec_path_keys_valid(spec_from_primary_path(policy)->Ok_0),
{
    let m = spec_from_primary_path(policy)->Ok_0;
    match policy {
        PolicyNode::Key(key) => {
            lemma_contained_key_valid(keys, key);
        }
        PolicyNode::Thresh(_k, subs) => {
            assert forall|i: int|
                0 <= i < spec_path_keys(m).len() implies spec_valid_desc_key(
                #[trigger] spec_path_keys(m)[i]) by {
                assert(spec_tree_keys_in(subs@[i], keys));
                assert(spec_path_keys(m)[i] == subs@[i]->Key_0);
                lemma_contained_key_valid(keys, subs@[i]->Key_0);
            }
        }
        _ => {}
    }
}

/// An in-order scan of the folded N-of-N shape that succeeds returns all
/// and only the key leaves, in order, plus a nonzero timelock once one
/// was seen.
proof fn lemma_nofn_scan_props(
    subs: Seq<PolicyNode>,
    tl: Option<u16>,
    acc: Seq<DescKey>,
    keys: Seq<DescKey>,
)
    requires
        forall|i: int| 0 <= i < subs.len() ==> spec_tree_keys_in(#[trigger] subs[i], keys),
        forall|i: int| 0 <= i < keys.len() ==> spec_valid_desc_key(#[trigger] keys[i]),
        forall|i: int| 0 <= i < acc.len() ==> spec_valid_desc_key(#[trigger] acc[i]),
        tl matches Some(t) ==> 1 <= t,
    ensures
        spec_nofn_scan(subs, tl, acc) matches Ok(p) ==> {
            &&& p.1.len() + (if tl is None && p.0 is Some {
                1int
            } else {
                0int
            }) == acc.len() + subs.len()
            &&& (tl is Some ==> p.0 == tl)
            &&& forall|i: int| 0 <= i < p.1.len() ==> spec_valid_desc_key(#[trigger] p.1[i])
            &&& (p.0 matches Some(t) ==> 1 <= t)
        },
    decreases subs.len(),
{
    if subs.len() > 0 {
        assert forall|i: int|
            0 <= i < subs.drop_first().len() implies spec_tree_keys_in(
            #[trigger] subs.drop_first()[i], keys) by {
            assert(subs.drop_first()[i] == subs[i + 1]);
        }
        match subs[0] {
            PolicyNode::Key(key) => {
                assert(spec_tree_keys_in(subs[0], keys));
                lemma_contained_key_valid(keys, key);
                assert(forall|i: int|
                    0 <= i < acc.push(key).len() ==> spec_valid_desc_key(
                        #[trigger] acc.push(key)[i],
                    ));
                lemma_nofn_scan_props(subs.drop_first(), tl, acc.push(key), keys);
            }
            PolicyNode::Older(v) => {
                if tl is None && 1 <= v <= 0xffff {
                    lemma_nofn_scan_props(subs.drop_first(), Some(v as u16), acc, keys);
                }
            }
            _ => {}
        }
    }
}

/// A node accepted as a recovery path yields a well-formed path of valid
/// keys and a nonzero timelock.
proof fn lemma_recovery_model_props(policy: PolicyNode, keys: Seq<DescKey>)
    requires
        spec_wf_tree(policy),
        spec_tree_keys_in(policy, keys),
        forall|i: int| 0 <= i < keys.len() ==> spec_valid_desc_key(#[trigger] keys[i]),
        spec_from_recovery_path(policy) is Ok,
    ensures
        spec_path_wf(spec_from_recovery_path(policy)->Ok_0.1),
        spec_path_keys_valid(spec_from_recovery_path(policy)->Ok_0.1),
        1 <= spec_from_recovery_path(policy)->Ok_0.0,
{
    match policy {
        PolicyNode::Thresh(k, subs) => {
            if k == 2 && subs@.len() == 2 {
                let chosen = if spec_single_key_or_multisig(subs@[0]) {
                    subs@[0]
                } else {
                    subs@[1]
                };
                assert(spec_tree_keys_in(chosen, keys) && spec_wf_tree(chosen));
                lemma_primary_model_props(chosen, keys);
            } else if k == subs@.len() && subs@.len() > 2 {
                lemma_nofn_scan_props(subs@, None, Seq::empty(), keys);
            }
        }
        _ => {}
    }
}

/// Soundness of every accepted policy, over well-formed builder inputs
/// (a policy tree from the lift transform, whose keys the key list
/// covers): both paths are structurally a single key or a k-of-n with
/// `1 <= k <= n`, every key of both paths passes the key validator, and
/// the recovery timelock is in `[1, 65535]`.
pub proof fn lemma_accepted_policy_sane(keys: Seq<DescKey>, tree: PolicyNode)
    requires
        spec_wf_tree(tree),
        spec_tree_keys_in(tree, keys),
        spec_liana_policy(keys, tree) is Ok,
    ensures
        spec_policy_sane(spec_liana_policy(keys, tree)->Ok_0),
{
    lemma_first_invalid(keys);
    match tree {
        PolicyNode::Thresh(_k, subs) => {
            let keyish0 = spec_single_key_or_multisig(subs@[0]);
            let (prim, reco) = if keyish0 {
                (subs@[0], subs@[1])
            } else {
                (subs@[1], subs@[0])
            };
            assert(spec_wf_tree(prim) && spec_wf_tree(reco));
            assert(spec_tree_keys_in(prim, keys) && spec_tree_keys_in(reco, keys));
            lemma_primary_model_props(prim, keys);
            lemma_recovery_model_props(reco, keys);
        }
        _ => {}
    }
}

/// Every key of a structurally sound policy's paths carries an origin,
/// so the accounting operations apply to both paths.
pub proof fn lemma_sane_paths_have_origins(v: (PathModel, (u16, PathModel)))
    requires
        spec_policy_sane(v),
    ensures
        spec_path_has_origins(v.0),
        spec_path_has_origins(v.1.1),
{
}

/// Building a policy is deterministic: two runs over the same keys and
/// the same tree return the same model, error or policy alike.
pub proof fn lemma_builder_idempotent(
    keys: Seq<DescKey>,
    tree: PolicyNode,
    r1: Result<LianaPolicy, LianaDescError>,
    r2: Result<LianaPolicy, LianaDescError>,
)
    requires
        policy_result_model(r1) == spec_liana_policy(keys, tree),
        policy_result_model(r2) == spec_liana_policy(keys, tree),
    ensures
        policy_result_model(r1) == policy_result_model(r2),
{
}

/// Building from a descriptor is deterministic too: two runs over
/// descriptors of the same text return the same model, error or policy
/// alike.
pub proof fn lemma_descriptor_builder_idempotent(
    text: Seq<char>,
    r1: Result<LianaPolicy, LianaDescError>,
    r2: Result<LianaPolicy, LianaDescError>,
)
    requires
        policy_result_model(r1) == spec_descriptor_policy(text),
        policy_result_model(r2) == spec_descriptor_policy(text),
    ensures
        policy_result_model(r1) == policy_result_model(r2),
{
}

/// A scan over key leaves alone appends exactly their keys, in order.
proof fn lemma_scan_all_keys(subs: Seq<PolicyNode>, tl: Option<u16>, acc: Seq<DescKey>)
    requires
        forall|i: int| 0 <= i < subs.len() ==> (#[trigger] subs[i]) is Key,
    ensures
        spec_nofn_scan(subs, tl, acc) == Ok::<_, LianaDescError>(
            (tl, acc + spec_key_node_keys(subs)),
        ),
    decreases subs.len(),
{
    if subs.len() == 0 {
        assert(acc + spec_key_node_keys(subs) =~= acc);
    } else {
        lemma_scan_all_keys(subs.drop_first(), tl, acc.push(subs[0]->Key_0));
        assert(acc.push(subs[0]->Key_0) + spec_key_node_keys(subs.drop_first()) =~= acc
            + spec_key_node_keys(subs));
    }
}

/// Round trip of the folded N-of-N recovery form: a threshold that asks
/// for all of one leading timelock leaf and n key leaves classifies back
/// to exactly those keys, all of them required, with that timelock.
pub proof fn lemma_nofn_round_trip(policy: PolicyNode, tl: u32, keys: Seq<DescKey>)
    requires
        1 <= tl <= 0xffff,
        policy matches PolicyNode::Thresh(k, subs) && {
            &&& k == subs@.len()
            &&& subs@.len() == keys.len() + 1
            &&& keys.len() >= 2
            &&& subs@[0] == PolicyNode::Older(tl)
            &&& forall|i: int| 1 <= i < subs@.len() ==> subs@[i] == PolicyNode::Key(keys[i - 1])
        },
    ensures
        spec_from_recovery_path(policy) == Ok::<_, LianaDescError>(
            (tl as u16, PathModel::Multi(keys.len() as int, keys)),
        ),
{
    match policy {
        PolicyNode::Thresh(_k, subs) => {
            assert forall|i: int| 0 <= i < subs@.drop_first().len() implies (
            #[trigger] subs@.drop_first()[i]) is Key by {
                assert(subs@.drop_first()[i] == subs@[i + 1]);
            }
            lemma_scan_all_keys(subs@.drop_first(), Some(tl as u16), Seq::empty());
            assert(spec_key_node_keys(subs@.drop_first()) =~= keys);
            assert(Seq::<DescKey>::empty() + keys =~= keys);
        }
        _ => {}
    }
}

/// Partial spend information for a transaction against a whole policy.
#[derive(Debug, Clone, PartialEq, Eq)]
pub struct PartialSpendInfo {
    /// Signature progress on the primary path.
    pub primary_path: PathSpendInfo,
    /// Signature progress on the recovery path; absent when that path is
    /// not available (its timelock has not matured) or was not evaluated.
    pub recovery_path: Option<PathSpendInfo>,
}

impl PartialSpendInfo {
    /// Gathers the per-path spend information of one inspection.
    pub fn new(primary_path: PathSpendInfo, recovery_path: Option<PathSpendInfo>) -> (r:
        PartialSpendInfo)
        ensures
            r.primary_path == primary_path,
            r.recovery_path == recovery_path,
    {
        PartialSpendInfo { primary_path, recovery_path }
    }

    /// Signature progress on the primary path.
    pub fn primary_path(&self) -> (r: &PathSpendInfo)
        ensures
            *r == self.primary_path,
    {
        &self.primary_path
    }

    /// Signature progress on the recovery path, when it was evaluated.
    pub fn recovery_path(&self) -> (r: &Option<PathSpendInfo>)
        ensures
            *r == self.recovery_path,
    {
        &self.recovery_path
    }
}

} // verus!
