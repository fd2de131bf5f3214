use vstd::pervasive::unreached;
use vstd::prelude::*;

use crate::error::LianaDescError;
use crate::keys::{
    copy_key_source, key_origin, key_source_eq, spec_key_origin, DescKey, KeySource,
};
use crate::semantic::{is_single_key_or_multisig, spec_single_key_or_multisig, PolicyNode};
use crate::timelock::{csv_check, spec_csv_check};

verus! {

/// Information about a single spending path of the descriptor: either one
/// key, or a threshold over an ordered list of keys.
#[derive(Debug, Clone, PartialEq, Eq)]
pub enum PathInfo {
    Single(DescKey),
    Multi(usize, Vec<DescKey>),
}

/// The mathematical shape of a spending path: its threshold and its keys.
pub enum PathModel {
    Single(DescKey),
    Multi(int, Seq<DescKey>),
}

impl View for PathInfo {
    type V = PathModel;

    open spec fn view(&self) -> PathModel {
        match *self {
            PathInfo::Single(k) => PathModel::Single(k),
            PathInfo::Multi(t, ks) => PathModel::Multi(t as int, ks@),
        }
    }
}

/// The keys of a classified path, in order.
pub open spec fn spec_path_keys(m: PathModel) -> Seq<DescKey> {
    match m {
        PathModel::Single(k) => seq![k],
        PathModel::Multi(_t, ks) => ks,
    }
}

/// The number of signatures a classified path requires.
pub open spec fn spec_path_threshold(m: PathModel) -> int {
    match m {
        PathModel::Single(_k) => 1,
        PathModel::Multi(t, _ks) => t,
    }
}

/// The keys extracted from a sequence of key nodes, in order.
pub open spec fn spec_key_node_keys(subs: Seq<PolicyNode>) -> Seq<DescKey> {
    subs.map_values(|s: PolicyNode| s->Key_0)
}

/// What classifying a policy node as a primary path returns: a key leaf
/// becomes `Single`, a threshold over key leaves becomes `Multi` with the
/// sub-node order kept, and every other shape is incompatible.
pub open spec fn spec_from_primary_path(policy: PolicyNode) -> Result<PathModel, LianaDescError> {
    match policy {
        PolicyNode::Key(key) => Ok(PathModel::Single(key)),
        PolicyNode::Thresh(k, subs) => {
            if forall|i: int| 0 <= i < subs@.len() ==> subs@[i] is Key {
                Ok(PathModel::Multi(k as int, spec_key_node_keys(subs@)))
            } else {
                Err(LianaDescError::IncompatibleDesc)
            }
        }
        _ => Err(LianaDescError::IncompatibleDesc),
    }
}

/// The model of a primary-path classification result.
pub open spec fn path_result_model(r: Result<PathInfo, LianaDescError>) -> Result<
    PathModel,
    LianaDescError,
> {
    match r {
        Ok(p) => Ok(p@),
        Err(e) => Err(e),
    }
}

/// Classifying a node succeeds as a primary path exactly when it is a
/// single key or one threshold over keys.
pub proof fn lemma_primary_ok_iff_keyish(policy: PolicyNode)
    ensures
        spec_from_primary_path(policy) is Ok <==> spec_single_key_or_multisig(policy),
{
}

impl PathInfo {
    /// Classifies a policy node as the primary spending path of the
    /// wallet: a set of keys with no timelock. Fails with an incompatible
    /// descriptor on any other shape.
    #[verifier::loop_isolation(false)]
    pub fn from_primary_path(policy: PolicyNode) -> (r: Result<PathInfo, LianaDescError>)
        ensures
            path_result_model(r) == spec_from_primary_path(policy),
    {
        match policy {
            PolicyNode::Key(key) => Ok(PathInfo::Single(key)),
            PolicyNode::Thresh(k, subs) => {
                let ghost subs0 = subs@;
                let mut rest = subs;
                let mut keys: Vec<DescKey> = Vec::new();
                while rest.len() > 0
                    invariant
                        keys@.len() + rest@.len() == subs0.len(),
                        rest@ == subs0.skip(keys@.len() as int),
                        forall|j: int|
                            0 <= j < keys@.len() ==> subs0[j] is Key && keys@[j] == subs0[j]->Key_0,
                    decreases rest@.len(),
                {
                    let ghost done = keys@.len() as int;
                    let sub = rest.remove(0);
                    proof {
                        assert(subs0.skip(done).remove(0) =~= subs0.skip(done + 1));
                        assert(sub == subs0[done]);
                    }
                    match sub {
                        PolicyNode::Key(key) => keys.push(key),
                        _ => {
                            proof {
                                assert(subs0[done] !is Key);
                            }
                            return Err(LianaDescError::IncompatibleDesc);
                        }
                    }
                }
                proof {
                    assert forall|i: int| 0 <= i < subs0.len() implies subs0[i] is Key by {
                        assert(keys@[i] == subs0[i]->Key_0);
                    }
                    assert(keys@ =~= spec_key_node_keys(subs0));
                }
                Ok(PathInfo::Multi(k, keys))
            }
            _ => Err(LianaDescError::IncompatibleDesc),
        }
    }
}

/// What classifying the two-sub recovery shape `thresh(2, [older, keys])`
/// returns: the first timelock leaf gives the timelock (rejecting an
/// out-of-domain value), the first key-or-multisig sub gives the keys, and
/// a pair missing either is incompatible.
pub open spec fn spec_recovery_pair(subs: Seq<PolicyNode>) -> Result<
    (u16, PathModel),
    LianaDescError,
>
    recommends
        subs.len() == 2,
{
    let tl_raw = if subs[0] is Older {
        Some(subs[0]->Older_0)
    } else if subs[1] is Older {
        Some(subs[1]->Older_0)
    } else {
        None::<u32>
    };
    match tl_raw {
        None => Err(LianaDescError::IncompatibleDesc),
        Some(v) => match spec_csv_check(v) {
            Err(e) => Err(e),
            Ok(tl) => {
                let keyish = if spec_single_key_or_multisig(subs[0]) {
                    Some(subs[0])
                } else if spec_single_key_or_multisig(subs[1]) {
                    Some(subs[1])
                } else {
                    None::<PolicyNode>
                };
                match keyish {
                    None => Err(LianaDescError::IncompatibleDesc),
                    Some(sub) => match spec_from_primary_path(sub) {
                        Ok(p) => Ok((tl, p)),
                        Err(e) => Err(e),
                    },
                }
            }
        },
    }
}

/// One step per sub-node of the folded N-of-N recovery shape, in order: a
/// key leaf joins the key list, the single timelock leaf sets the timelock
/// (a second one, or an out-of-domain value, fails), and anything else is
/// incompatible.
pub open spec fn spec_nofn_scan(
    subs: Seq<PolicyNode>,
    tl: Option<u16>,
    keys: Seq<DescKey>,
) -> Result<(Option<u16>, Seq<DescKey>), LianaDescError>
    decreases subs.len(),
{
    if subs.len() == 0 {
        Ok((tl, keys))
    } else {
        match subs[0] {
            PolicyNode::Key(k) => spec_nofn_scan(subs.drop_first(), tl, keys.push(k)),
            PolicyNode::Older(v) => {
                if tl is Some {
                    Err(LianaDescError::IncompatibleDesc)
                } else {
                    match spec_csv_check(v) {
                        Ok(t) => spec_nofn_scan(subs.drop_first(), Some(t), keys),
                        Err(e) => Err(e),
                    }
                }
            }
            _ => Err(LianaDescError::IncompatibleDesc),
        }
    }
}

/// What classifying a policy node as a recovery path returns. The node
/// must be a threshold, in one of the two shapes normalization produces:
/// `thresh(2, [older, keys])` (the general and single-key case), or the
/// folded N-of-N form `thresh(n, [sub_1, .., sub_n])` with `n > 2`,
/// exactly one sub a timelock leaf and all others key leaves, which
/// becomes `Multi(n - 1, keys)`. Everything else is incompatible.
pub open spec fn spec_from_recovery_path(policy: PolicyNode) -> Result<
    (u16, PathModel),
    LianaDescError,
> {
    match policy {
        PolicyNode::Thresh(k, subs) => {
            if k == 2 && subs@.len() == 2 {
                spec_recovery_pair(subs@)
            } else if k == subs@.len() && subs@.len() > 2 {
                match spec_nofn_scan(subs@, None, Seq::empty()) {
                    Ok((tl_opt, keys)) => match tl_opt {
                        Some(tl) => Ok((tl, PathModel::Multi(k - 1, keys))),
                        None => Err(LianaDescError::IncompatibleDesc),
                    },
                    Err(e) => Err(e),
                }
            } else {
                Err(LianaDescError::IncompatibleDesc)
            }
        }
        _ => Err(LianaDescError::IncompatibleDesc),
    }
}

/// The model of a recovery-path classification result.
pub open spec fn recovery_result_model(r: Result<(u16, PathInfo), LianaDescError>) -> Result<
    (u16, PathModel),
    LianaDescError,
> {
    match r {
        Ok((t, p)) => Ok((t, p@)),
        Err(e) => Err(e),
    }
}

impl PathInfo {
    /// Classifies a policy node as the recovery spending path of the
    /// wallet: a set of keys behind a relative timelock, in one of the two
    /// shapes normalization produces. Fails with an incompatible
    /// descriptor on any other shape and with an insane timelock on an
    /// out-of-domain timelock value.
    #[verifier::loop_isolation(false)]
    pub fn from_recovery_path(policy: PolicyNode) -> (r: Result<(u16, PathInfo), LianaDescError>)
        ensures
            recovery_result_model(r) == spec_from_recovery_path(policy),
    {
        let (k, subs) = match policy {
            PolicyNode::Thresh(k, subs) => (k, subs),
            _ => {
                return Err(LianaDescError::IncompatibleDesc);
            }
        };
        if k == 2 && subs.len() == 2 {
            // The general case (as well as the single-key case): the sub
            // that is not the timelock has the same form as a primary path.
            let raw = match &subs[0] {
                PolicyNode::Older(v) => *v,
                _ => match &subs[1] {
                    PolicyNode::Older(v) => *v,
                    _ => {
                        return Err(LianaDescError::IncompatibleDesc);
                    }
                },
            };
            let tl = match csv_check(raw) {
                Ok(t) => t,
                Err(e) => {
                    return Err(e);
                }
            };
            let mut subs = subs;
            let chosen = if is_single_key_or_multisig(&subs[0]) {
                subs.remove(0)
            } else if is_single_key_or_multisig(&subs[1]) {
                subs.remove(1)
            } else {
                return Err(LianaDescError::IncompatibleDesc);
            };
            match PathInfo::from_primary_path(chosen) {
                Ok(p) => Ok((tl, p)),
                Err(e) => Err(e),
            }
        } else if k == subs.len() && subs.len() > 2 {
            // The folded N-of-N case: all subs but one timelock leaf must
            // be key leaves (a threshold of keys would have been folded
            // into the general shape by normalization).
            let ghost subs0 = subs@;
            let mut rest = subs;
            let mut tl_opt: Option<u16> = None;
            let mut keys: Vec<DescKey> = Vec::new();
            while rest.len() > 0
                invariant
                    spec_nofn_scan(subs0, None, Seq::empty()) == spec_nofn_scan(
                        rest@,
                        tl_opt,
                        keys@,
                    ),
                decreases rest@.len(),
            {
                let ghost rest_before = rest@;
                let sub = rest.remove(0);
                proof {
                    assert(rest_before.remove(0) =~= rest_before.drop_first());
                    assert(sub == rest_before[0]);
                }
                match sub {
                    PolicyNode::Key(key) => keys.push(key),
                    PolicyNode::Older(v) => {
                        if tl_opt.is_some() {
                            return Err(LianaDescError::IncompatibleDesc);
                        }
                        let t = match csv_check(v) {
                            Ok(t) => t,
                            Err(e) => {
                                return Err(e);
                            }
                        };
                        tl_opt = Some(t);
                    }
                    _ => {
                        return Err(LianaDescError::IncompatibleDesc);
                    }
                }
            }
            let tl = match tl_opt {
                Some(t) => t,
                None => {
                    return Err(LianaDescError::IncompatibleDesc);
                }
            };
            Ok((tl, PathInfo::Multi(k - 1, keys)))
        } else {
            Err(LianaDescError::IncompatibleDesc)
        }
    }
}

/// Whether every key of a classified path carries an origin. Paths built
/// through descriptor validation always do; calling the accounting
/// operations on a path built otherwise is a programming error, not a
/// recoverable condition, so they require this instead of failing.
pub open spec fn spec_path_has_origins(m: PathModel) -> bool {
    forall|i: int|
        0 <= i < spec_path_keys(m).len() ==> spec_key_origin(#[trigger] spec_path_keys(m)[i]) is Some
}

/// The origin identities of a path's keys, in key order.
pub open spec fn spec_path_origins(m: PathModel) -> Seq<(u32, Seq<u32>)> {
    spec_path_keys(m).map_values(|k: DescKey| spec_key_origin(k)->Some_0@)
}

/// The identities a list of key sources stands for.
pub open spec fn spec_source_views(sources: Seq<KeySource>) -> Seq<(u32, Seq<u32>)> {
    sources.map_values(|o: KeySource| o@)
}

/// The set of origin identities, as a list: each origin once, in the
/// order of its first appearance.
pub open spec fn spec_origin_set(origins: Seq<(u32, Seq<u32>)>) -> Seq<(u32, Seq<u32>)>
    decreases origins.len(),
{
    if origins.len() == 0 {
        Seq::empty()
    } else {
        let rest = spec_origin_set(origins.drop_last());
        if rest.contains(origins.last()) {
            rest
        } else {
            rest.push(origins.last())
        }
    }
}

/// The origin set has exactly the members of the origin list.
pub proof fn lemma_origin_set_members(origins: Seq<(u32, Seq<u32>)>, origin: (u32, Seq<u32>))
    ensures
        spec_origin_set(origins).contains(origin) <==> origins.contains(origin),
    decreases origins.len(),
{
    if origins.len() > 0 {
        let rest = spec_origin_set(origins.drop_last());
        let last = origins.last();
        lemma_origin_set_members(origins.drop_last(), origin);
        assert(origins.drop_last().contains(origin) || last == origin ==> origins.contains(
            origin,
        )) by {
            if origins.drop_last().contains(origin) {
                let i = choose|i: int|
                    0 <= i < origins.drop_last().len() && origins.drop_last()[i] == origin;
                assert(origins[i] == origin);
            } else if last == origin {
                assert(origins[origins.len() - 1] == origin);
            }
        }
        assert(origins.contains(origin) ==> origins.drop_last().contains(origin) || last
            == origin) by {
            if origins.contains(origin) {
                let i = choose|i: int| 0 <= i < origins.len() && origins[i] == origin;
                if i < origins.len() - 1 {
                    assert(origins.drop_last()[i] == origin);
                }
            }
        }
        if !rest.contains(last) {
            assert(rest.push(last).contains(origin) ==> rest.contains(origin) || last
                == origin) by {
                if rest.push(last).contains(origin) {
                    let i = choose|i: int|
                        0 <= i < rest.push(last).len() && rest.push(last)[i] == origin;
                    if i < rest.len() {
                        assert(rest[i] == origin);
                    }
                }
            }
            assert(rest.contains(origin) ==> rest.push(last).contains(origin)) by {
                if rest.contains(origin) {
                    let i = choose|i: int| 0 <= i < rest.len() && rest[i] == origin;
                    assert(rest.push(last)[i] == origin);
                }
            }
            assert(last == origin ==> rest.push(last).contains(origin)) by {
                assert(rest.push(last)[rest.len() as int] == last);
            }
        }
    }
}

/// The origin set is a set: no origin appears in it twice.
pub proof fn lemma_origin_set_distinct(origins: Seq<(u32, Seq<u32>)>)
    ensures
        forall|i: int, j: int|
            0 <= i < j < spec_origin_set(origins).len() ==> spec_origin_set(origins)[i]
                != spec_origin_set(origins)[j],
    decreases origins.len(),
{
    if origins.len() > 0 {
        lemma_origin_set_distinct(origins.drop_last());
        let rest = spec_origin_set(origins.drop_last());
        let s = spec_origin_set(origins);
        if !rest.contains(origins.last()) {
            assert forall|i: int, j: int| 0 <= i < j < s.len() implies s[i] != s[j] by {
                if j < rest.len() {
                    assert(s[i] == rest[i] && s[j] == rest[j]);
                } else {
                    assert(s[i] == rest[i] && s[j] == origins.last());
                    assert(!rest.contains(origins.last()));
                }
            }
        }
    }
}

/// The identities and counts a signature tally stands for.
pub open spec fn spec_entry_views(entries: Seq<(KeySource, usize)>) -> Seq<
    ((u32, Seq<u32>), int),
> {
    entries.map_values(|e: (KeySource, usize)| (e.0@, e.1 as int))
}

/// The origin an observed signing key belongs to: its derivation path
/// without the final two steps (the branch selector and address index
/// appended at signing time), or nothing when the path is too short to be
/// one of this wallet's keys.
pub open spec fn spec_signer_origin(signer: (u32, Seq<u32>)) -> Option<(u32, Seq<u32>)> {
    if signer.1.len() >= 2 {
        Some((signer.0, signer.1.take(signer.1.len() - 2)))
    } else {
        None
    }
}

/// One signature from `origin` added to a tally: the first entry with
/// that origin is incremented, or a fresh entry with count one is
/// appended.
pub open spec fn spec_bump(
    entries: Seq<((u32, Seq<u32>), int)>,
    origin: (u32, Seq<u32>),
) -> Seq<((u32, Seq<u32>), int)>
    decreases entries.len(),
{
    if entries.len() == 0 {
        seq![(origin, 1int)]
    } else if entries[0].0 == origin {
        seq![(entries[0].0, entries[0].1 + 1)] + entries.drop_first()
    } else {
        seq![entries[0]] + spec_bump(entries.drop_first(), origin)
    }
}

/// The signature count and per-origin tally over a list of observed
/// signers, in observation order: a signer whose derived origin is one of
/// `origins` counts, every other signer is ignored.
pub open spec fn spec_spend_scan(
    origins: Seq<(u32, Seq<u32>)>,
    signers: Seq<(u32, Seq<u32>)>,
) -> (int, Seq<((u32, Seq<u32>), int)>)
    decreases signers.len(),
{
    if signers.len() == 0 {
        (0int, Seq::empty())
    } else {
        let prev = spec_spend_scan(origins, signers.drop_last());
        match spec_signer_origin(signers.last()) {
            Some(o) => if origins.contains(o) {
                (prev.0 + 1, spec_bump(prev.1, o))
            } else {
                prev
            },
            None => prev,
        }
    }
}

/// Bumping the origin of the first matching entry rewrites exactly that
/// entry.
proof fn lemma_bump_found(
    entries: Seq<((u32, Seq<u32>), int)>,
    origin: (u32, Seq<u32>),
    idx: int,
)
    requires
        0 <= idx < entries.len(),
        entries[idx].0 == origin,
        forall|j: int| 0 <= j < idx ==> entries[j].0 != origin,
    ensures
        spec_bump(entries, origin) == entries.update(idx, (origin, entries[idx].1 + 1)),
    decreases idx,
{
    if idx == 0 {
        assert(seq![(entries[0].0, entries[0].1 + 1)] + entries.drop_first() =~= entries.update(
            0,
            (origin, entries[0].1 + 1),
        ));
    } else {
        lemma_bump_found(entries.drop_first(), origin, idx - 1);
        assert(entries.drop_first()[idx - 1] == entries[idx]);
        assert(seq![entries[0]] + entries.drop_first().update(
            idx - 1,
            (origin, entries[idx].1 + 1),
        ) =~= entries.update(idx, (origin, entries[idx].1 + 1)));
    }
}

/// Bumping an origin absent from the tally appends a fresh entry.
proof fn lemma_bump_missing(entries: Seq<((u32, Seq<u32>), int)>, origin: (u32, Seq<u32>))
    requires
        forall|j: int| 0 <= j < entries.len() ==> entries[j].0 != origin,
    ensures
        spec_bump(entries, origin) == entries.push((origin, 1int)),
    decreases entries.len(),
{
    if entries.len() == 0 {
        assert(seq![(origin, 1int)] =~= entries.push((origin, 1int)));
    } else {
        lemma_bump_missing(entries.drop_first(), origin);
        assert(seq![entries[0]] + entries.drop_first().push((origin, 1int)) =~= entries.push(
            (origin, 1int),
        ));
    }
}

/// A bump keeps every count at least one and raises the ceiling by at
/// most one.
proof fn lemma_bump_bounds(
    entries: Seq<((u32, Seq<u32>), int)>,
    origin: (u32, Seq<u32>),
    bound: int,
)
    requires
        bound >= 0,
        forall|j: int| 0 <= j < entries.len() ==> 1 <= (#[trigger] entries[j]).1 <= bound,
    ensures
        forall|j: int|
            0 <= j < spec_bump(entries, origin).len() ==> 1 <= (#[trigger] spec_bump(
                entries,
                origin,
            )[j]).1 <= bound + 1,
    decreases entries.len(),
{
    let b = spec_bump(entries, origin);
    if entries.len() == 0 {
    } else if entries[0].0 == origin {
        assert forall|j: int| 0 <= j < b.len() implies 1 <= (#[trigger] b[j]).1 <= bound + 1 by {
            if j > 0 {
                assert(b[j] == entries[j]);
            }
        }
    } else {
        lemma_bump_bounds(entries.drop_first(), origin, bound);
        assert forall|j: int| 0 <= j < b.len() implies 1 <= (#[trigger] b[j]).1 <= bound + 1 by {
            if j > 0 {
                assert(b[j] == spec_bump(entries.drop_first(), origin)[j - 1]);
            } else {
                assert(b[0] == entries[0]);
            }
        }
    }
}

/// Over any signer list, the total is at most the number of signers and
/// every per-origin count stays between one and the total.
proof fn lemma_scan_bounds(origins: Seq<(u32, Seq<u32>)>, signers: Seq<(u32, Seq<u32>)>)
    ensures
        0 <= spec_spend_scan(origins, signers).0 <= signers.len(),
        forall|j: int|
            0 <= j < spec_spend_scan(origins, signers).1.len() ==> 1 <= (#[trigger] spec_spend_scan(
                origins,
                signers,
            ).1[j]).1 <= spec_spend_scan(origins, signers).0,
    decreases signers.len(),
{
    if signers.len() > 0 {
        lemma_scan_bounds(origins, signers.drop_last());
        let prev = spec_spend_scan(origins, signers.drop_last());
        match spec_signer_origin(signers.last()) {
            Some(o) => {
                if origins.contains(o) {
                    lemma_bump_bounds(prev.1, o, prev.0);
                }
            }
            None => {}
        }
    }
}

/// Whether some entry of a tally carries the given origin.
pub open spec fn spec_tally_has(entries: Seq<((u32, Seq<u32>), int)>, origin: (u32, Seq<u32>)) -> bool {
    exists|j: int| 0 <= j < entries.len() && entries[j].0 == origin
}

/// A bump keeps the tally's origins distinct and adds no origin but the
/// bumped one.
proof fn lemma_bump_keys(entries: Seq<((u32, Seq<u32>), int)>, origin: (u32, Seq<u32>))
    requires
        forall|i: int, j: int| 0 <= i < j < entries.len() ==> entries[i].0 != entries[j].0,
    ensures
        forall|i: int, j: int|
            0 <= i < j < spec_bump(entries, origin).len() ==> spec_bump(entries, origin)[i].0
                != spec_bump(entries, origin)[j].0,
        forall|i: int|
            0 <= i < spec_bump(entries, origin).len() ==> (#[trigger] spec_bump(entries, origin)[i]).0
                == origin || spec_tally_has(entries, spec_bump(entries, origin)[i].0),
    decreases entries.len(),
{
    let b = spec_bump(entries, origin);
    if entries.len() == 0 {
    } else if entries[0].0 == origin {
        assert forall|i: int| 0 <= i < b.len() implies (#[trigger] b[i]).0 == origin
            || spec_tally_has(entries, b[i].0) by {
            if i > 0 {
                assert(b[i] == entries[i]);
            }
        }
        assert forall|i: int, j: int| 0 <= i < j < b.len() implies b[i].0 != b[j].0 by {
            assert(b[j] == entries[j]);
            if i > 0 {
                assert(b[i] == entries[i]);
            }
        }
    } else {
        lemma_bump_keys(entries.drop_first(), origin);
        let rest = spec_bump(entries.drop_first(), origin);
        assert forall|i: int| 0 <= i < b.len() implies (#[trigger] b[i]).0 == origin
            || spec_tally_has(entries, b[i].0) by {
            if i > 0 {
                assert(b[i] == rest[i - 1]);
                if rest[i - 1].0 != origin {
                    let j = choose|j: int|
                        0 <= j < entries.drop_first().len()
                            && entries.drop_first()[j].0 == rest[i - 1].0;
                    assert(entries[j + 1].0 == rest[i - 1].0);
                }
            }
        }
        assert forall|i: int, j: int| 0 <= i < j < b.len() implies b[i].0 != b[j].0 by {
            assert(b[j] == rest[j - 1]);
            if i > 0 {
                assert(b[i] == rest[i - 1]);
            } else {
                if rest[j - 1].0 == entries[0].0 {
                    assert(rest[j - 1].0 != origin);
                    let jj = choose|jj: int|
                        0 <= jj < entries.drop_first().len()
                            && entries.drop_first()[jj].0 == rest[j - 1].0;
                    assert(entries[jj + 1].0 == entries[0].0);
                }
            }
        }
    }
}

/// The tally is a mapping: each origin appears at most once, only origins
/// of the path appear, and every entry carries at least one signature.
pub proof fn lemma_tally_is_mapping(
    origins: Seq<(u32, Seq<u32>)>,
    signers: Seq<(u32, Seq<u32>)>,
)
    ensures
        forall|i: int, j: int|
            0 <= i < j < spec_spend_scan(origins, signers).1.len() ==> spec_spend_scan(
                origins,
                signers,
            ).1[i].0 != spec_spend_scan(origins, signers).1[j].0,
        forall|i: int|
            0 <= i < spec_spend_scan(origins, signers).1.len() ==> origins.contains(
                (#[trigger] spec_spend_scan(origins, signers).1[i]).0,
            ) && 1 <= spec_spend_scan(origins, signers).1[i].1,
    decreases signers.len(),
{
    lemma_scan_bounds(origins, signers);
    if signers.len() > 0 {
        lemma_tally_is_mapping(origins, signers.drop_last());
        let prev = spec_spend_scan(origins, signers.drop_last());
        match spec_signer_origin(signers.last()) {
            Some(o) => {
                if origins.contains(o) {
                    lemma_bump_keys(prev.1, o);
                    let b = spec_bump(prev.1, o);
                    assert forall|i: int| 0 <= i < b.len() implies origins.contains(
                        (#[trigger] b[i]).0,
                    ) by {
                        if b[i].0 != o {
                            let j = choose|j: int| 0 <= j < prev.1.len() && prev.1[j].0 == b[i].0;
                            assert(origins.contains(prev.1[j].0));
                        }
                    }
                }
            }
            None => {}
        }
    }
}

/// Whether `candidate` is one of the listed origins.
#[verifier::loop_isolation(false)]
fn contains_origin(origins: &Vec<KeySource>, candidate: &KeySource) -> (r: bool)
    ensures
        r == spec_source_views(origins@).contains(candidate@),
{
    let mut i: usize = 0;
    while i < origins.len()
        invariant
            i <= origins.len(),
            forall|j: int| 0 <= j < i ==> spec_source_views(origins@)[j] != candidate@,
        decreases origins.len() - i,
    {
        if key_source_eq(&origins[i], candidate) {
            proof {
                assert(spec_source_views(origins@)[i as int] == candidate@);
            }
            return true;
        }
        i = i + 1;
    }
    proof {
        assert forall|j: int|
            0 <= j < spec_source_views(origins@).len() implies spec_source_views(origins@)[j]
            != candidate@ by {}
    }
    false
}

/// Adds one observed signature from `origin` to the tally.
#[verifier::loop_isolation(false)]
fn record_signature(entries: &mut Vec<(KeySource, usize)>, origin: KeySource)
    requires
        forall|j: int| 0 <= j < old(entries)@.len() ==> (#[trigger] old(entries)@[j]).1
            < usize::MAX,
    ensures
        spec_entry_views(final(entries)@) == spec_bump(spec_entry_views(old(entries)@), origin@),
{
    let ghost entries0 = entries@;
    let mut idx: usize = 0;
    while idx < entries.len()
        invariant
            idx <= entries@.len(),
            entries@ == entries0,
            forall|j: int| 0 <= j < idx ==> spec_entry_views(entries0)[j].0 != origin@,
        decreases entries@.len() - idx,
    {
        if key_source_eq(&entries[idx].0, &origin) {
            let count = entries[idx].1;
            let found = entries.remove(idx);
            entries.insert(idx, (found.0, count + 1));
            proof {
                lemma_bump_found(spec_entry_views(entries0), origin@, idx as int);
                assert(entries0.remove(idx as int).insert(idx as int, (found.0, (count + 1) as usize))
                    =~= entries0.update(idx as int, (found.0, (count + 1) as usize)));
                assert(spec_entry_views(entries@) =~= spec_entry_views(entries0).update(
                    idx as int,
                    (origin@, count + 1),
                ));
            }
            return;
        }
        idx = idx + 1;
    }
    entries.push((origin, 1));
    proof {
        lemma_bump_missing(spec_entry_views(entries0), origin@);
        assert(spec_entry_views(entries@) =~= spec_entry_views(entries0).push((origin@, 1int)));
    }
}

/// Partial spend information for one spending path: how many of the
/// required signatures are present, and from which keys.
#[derive(Debug, Clone, PartialEq, Eq)]
pub struct PathSpendInfo {
    /// The required number of signatures to spend through this path.
    pub threshold: usize,
    /// The number of signatures provided, duplicates included.
    pub sigs_count: usize,
    /// The keys for which a signature was provided and the number (always
    /// at least one) of signatures provided for each.
    pub signed_pubkeys: Vec<(KeySource, usize)>,
}

impl View for PathSpendInfo {
    type V = (int, int, Seq<((u32, Seq<u32>), int)>);

    open spec fn view(&self) -> (int, int, Seq<((u32, Seq<u32>), int)>) {
        (self.threshold as int, self.sigs_count as int, spec_entry_views(self.signed_pubkeys@))
    }
}

impl PathInfo {
    /// The required number of signatures for spending through this path,
    /// and the set of key origins that can contribute one: each origin
    /// once, in the order of its first appearance among the keys.
    #[verifier::loop_isolation(false)]
    pub fn thresh_origins(&self) -> (r: (usize, Vec<KeySource>))
        requires
            spec_path_has_origins(self@),
        ensures
            r.0 as int == spec_path_threshold(self@),
            spec_source_views(r.1@) == spec_origin_set(spec_path_origins(self@)),
    {
        match self {
            PathInfo::Single(key) => {
                proof {
                    assert(spec_path_keys(self@)[0] == *key);
                }
                let o = match key_origin(key) {
                    Some(o) => o,
                    None => unreached(),
                };
                let origins = vec![copy_key_source(o)];
                proof {
                    let ov = spec_path_origins(self@);
                    assert(ov.drop_last() =~= Seq::<(u32, Seq<u32>)>::empty());
                    assert(spec_origin_set(Seq::<(u32, Seq<u32>)>::empty()) =~= Seq::<
                        (u32, Seq<u32>),
                    >::empty());
                    assert(spec_source_views(origins@) =~= spec_origin_set(ov));
                }
                (1, origins)
            }
            PathInfo::Multi(k, keys) => {
                let ghost ov = spec_path_origins(self@);
                let mut origins: Vec<KeySource> = Vec::new();
                let mut i: usize = 0;
                while i < keys.len()
                    invariant
                        i <= keys.len(),
                        spec_source_views(origins@) == spec_origin_set(ov.take(i as int)),
                    decreases keys.len() - i,
                {
                    proof {
                        assert(spec_path_keys(self@)[i as int] == keys@[i as int]);
                        assert(ov.take(i + 1 as int).drop_last() =~= ov.take(i as int));
                        assert(ov.take(i + 1 as int).last() == ov[i as int]);
                    }
                    let o = match key_origin(&keys[i]) {
                        Some(o) => o,
                        None => unreached(),
                    };
                    if !contains_origin(&origins, o) {
                        let ghost before = origins@;
                        origins.push(copy_key_source(o));
                        proof {
                            assert(spec_source_views(origins@) =~= spec_source_views(before).push(
                                ov[i as int],
                            ));
                        }
                    }
                    i = i + 1;
                }
                proof {
                    assert(ov.take(ov.len() as int) =~= ov);
                }
                (*k, origins)
            }
        }
    }

    /// The spend information for this path, given every (fingerprint,
    /// derivation path) pair that signed the transaction. Each signer is
    /// mapped back to a key origin by dropping its final two derivation
    /// steps; signers outside this path's key set are ignored, and
    /// duplicate signatures from one key are counted without satisfying
    /// the threshold twice (the threshold comparison is the caller's).
    #[verifier::loop_isolation(false)]
    pub fn spend_info(&self, all_pubkeys_signed: &Vec<KeySource>) -> (r: PathSpendInfo)
        requires
            spec_path_has_origins(self@),
        ensures
            r@.0 == spec_path_threshold(self@),
            r@.1 == spec_spend_scan(
                spec_path_origins(self@),
                spec_source_views(all_pubkeys_signed@),
            ).0,
            r@.2 == spec_spend_scan(
                spec_path_origins(self@),
                spec_source_views(all_pubkeys_signed@),
            ).1,
    {
        let ghost ov = spec_path_origins(self@);
        let ghost sv = spec_source_views(all_pubkeys_signed@);
        let (threshold, origins) = self.thresh_origins();
        let mut sigs_count: usize = 0;
        let mut signed_pubkeys: Vec<(KeySource, usize)> = Vec::new();
        let mut i: usize = 0;
        while i < all_pubkeys_signed.len()
            invariant
                i <= all_pubkeys_signed.len(),
                sigs_count as int == spec_spend_scan(ov, sv.take(i as int)).0,
                spec_entry_views(signed_pubkeys@) == spec_spend_scan(ov, sv.take(i as int)).1,
            decreases all_pubkeys_signed.len() - i,
        {
            proof {
                lemma_scan_bounds(ov, sv.take(i as int));
                assert(sv.take(i + 1 as int).drop_last() =~= sv.take(i as int));
                assert(sv.take(i + 1 as int).last() == sv[i as int]);
                assert(sv[i as int] == all_pubkeys_signed@[i as int]@);
            }
            let s = &all_pubkeys_signed[i];
            if s.derivation_path.len() >= 2 {
                let plen = s.derivation_path.len() - 2;
                let mut parent_path: Vec<u32> = Vec::new();
                let mut j: usize = 0;
                while j < plen
                    invariant
                        j <= plen,
                        parent_path@ == s.derivation_path@.take(j as int),
                    decreases plen - j,
                {
                    parent_path.push(s.derivation_path[j]);
                    proof {
                        assert(s.derivation_path@.take(j as int).push(
                            s.derivation_path@[j as int],
                        ) =~= s.derivation_path@.take(j + 1 as int));
                    }
                    j = j + 1;
                }
                let parent = KeySource {
                    fingerprint: s.fingerprint,
                    derivation_path: parent_path,
                };
                proof {
                    assert(spec_signer_origin(sv[i as int]) == Some(parent@));
                    lemma_origin_set_members(ov, parent@);
                }
                if contains_origin(&origins, &parent) {
                    proof {
                        let m = spec_spend_scan(ov, sv.take(i as int));
                        assert forall|j: int|
                            0 <= j < signed_pubkeys@.len() implies (
                        #[trigger] signed_pubkeys@[j]).1 < usize::MAX by {
                            assert(m.1[j].1 <= m.0);
                            assert(spec_entry_views(signed_pubkeys@)[j].1 == signed_pubkeys@[j].1
                                as int);
                        }
                    }
                    record_signature(&mut signed_pubkeys, parent);
                    sigs_count = sigs_count + 1;
                }
            }
            i = i + 1;
        }
        proof {
            assert(sv.take(sv.len() as int) =~= sv);
        }
        PathSpendInfo { threshold, sigs_count, signed_pubkeys }
    }
}

} // verus!
