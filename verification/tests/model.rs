use liana_policy::error::LianaDescError;
use liana_policy::keys::{
    is_valid_desc_key, key_origin, DescKey, KeySource, MultiXKey, WildcardKind,
};
use liana_policy::paths::{PathInfo, PathSpendInfo};
use liana_policy::policy::{LianaPolicy, PartialSpendInfo};
use liana_policy::semantic::{is_single_key_or_multisig, PolicyNode};
use liana_policy::timelock::csv_check;

fn origin(fingerprint: u32, path: Vec<u32>) -> KeySource {
    KeySource {
        fingerprint,
        derivation_path: path,
    }
}

fn good_key(fingerprint: u32) -> DescKey {
    DescKey::MultiXPub(MultiXKey {
        origin: Some(origin(fingerprint, vec![0x8000_0030, 0x8000_0001])),
        wildcard: WildcardKind::Unhardened,
        derivation_paths: vec![vec![0], vec![1]],
    })
}

#[test]
fn error_messages() {
    assert_eq!(
        LianaDescError::IncompatibleDesc.message(),
        "incompatible descriptor"
    );
    assert_eq!(
        LianaDescError::InvalidKey(DescKey::SinglePub).message(),
        "invalid descriptor key"
    );
    assert_eq!(
        LianaDescError::InsaneTimelock(0).message(),
        "invalid relative timelock value"
    );
}

#[test]
fn csv_check_rejects_zero() {
    assert_eq!(csv_check(0), Err(LianaDescError::InsaneTimelock(0)));
}

#[test]
fn csv_check_rejects_time_unit_flag() {
    assert_eq!(
        csv_check(0x0040_0000),
        Err(LianaDescError::InsaneTimelock(0x0040_0000))
    );
}

#[test]
fn csv_check_accepts_block_heights() {
    assert_eq!(csv_check(144), Ok(144));
    assert_eq!(csv_check(1), Ok(1));
    assert_eq!(csv_check(65535), Ok(65535));
    assert_eq!(csv_check(65536), Err(LianaDescError::InsaneTimelock(65536)));
}

#[test]
fn valid_desc_key_accepted() {
    assert!(is_valid_desc_key(&good_key(0xaabbccdd)));
}

#[test]
fn key_without_origin_rejected() {
    let key = DescKey::MultiXPub(MultiXKey {
        origin: None,
        wildcard: WildcardKind::Unhardened,
        derivation_paths: vec![vec![0], vec![1]],
    });
    assert!(!is_valid_desc_key(&key));
}

#[test]
fn key_with_hardened_wildcard_rejected() {
    let key = DescKey::MultiXPub(MultiXKey {
        origin: Some(origin(1, vec![0x8000_0000])),
        wildcard: WildcardKind::Hardened,
        derivation_paths: vec![vec![0], vec![1]],
    });
    assert!(!is_valid_desc_key(&key));
}

#[test]
fn key_with_wrong_tails_rejected() {
    let swapped = DescKey::MultiXPub(MultiXKey {
        origin: Some(origin(1, vec![0x8000_0000])),
        wildcard: WildcardKind::Unhardened,
        derivation_paths: vec![vec![1], vec![0]],
    });
    assert!(!is_valid_desc_key(&swapped));
    let three = DescKey::MultiXPub(MultiXKey {
        origin: Some(origin(1, vec![0x8000_0000])),
        wildcard: WildcardKind::Unhardened,
        derivation_paths: vec![vec![0], vec![1], vec![2]],
    });
    assert!(!is_valid_desc_key(&three));
}

#[test]
fn single_keys_rejected() {
    assert!(!is_valid_desc_key(&DescKey::SinglePub));
    assert!(!is_valid_desc_key(&DescKey::SingleXPub));
    assert_eq!(key_origin(&DescKey::SinglePub), None);
}

#[test]
fn classifier_accepts_keys_and_multisig() {
    assert!(is_single_key_or_multisig(&PolicyNode::Key(good_key(1))));
    assert!(is_single_key_or_multisig(&PolicyNode::Thresh(
        2,
        vec![PolicyNode::Key(good_key(1)), PolicyNode::Key(good_key(2))],
    )));
    assert!(!is_single_key_or_multisig(&PolicyNode::Older(144)));
    assert!(!is_single_key_or_multisig(&PolicyNode::Thresh(
        1,
        vec![PolicyNode::Key(good_key(1)), PolicyNode::Older(144)],
    )));
}

#[test]
fn primary_path_from_key_and_multisig() {
    assert_eq!(
        PathInfo::from_primary_path(PolicyNode::Key(good_key(1))),
        Ok(PathInfo::Single(good_key(1)))
    );
    assert_eq!(
        PathInfo::from_primary_path(PolicyNode::Thresh(
            2,
            vec![PolicyNode::Key(good_key(1)), PolicyNode::Key(good_key(2))],
        )),
        Ok(PathInfo::Multi(2, vec![good_key(1), good_key(2)]))
    );
}

#[test]
fn primary_path_rejects_nested_threshold() {
    // A nested threshold of thresholds is not a key set.
    let nested = PolicyNode::Thresh(
        2,
        vec![
            PolicyNode::Thresh(
                2,
                vec![PolicyNode::Key(good_key(1)), PolicyNode::Key(good_key(2))],
            ),
            PolicyNode::Key(good_key(3)),
        ],
    );
    assert_eq!(
        PathInfo::from_primary_path(nested),
        Err(LianaDescError::IncompatibleDesc)
    );
}

#[test]
fn recovery_path_general_case() {
    let node = PolicyNode::Thresh(
        2,
        vec![
            PolicyNode::Older(144),
            PolicyNode::Thresh(
                2,
                vec![PolicyNode::Key(good_key(1)), PolicyNode::Key(good_key(2))],
            ),
        ],
    );
    assert_eq!(
        PathInfo::from_recovery_path(node),
        Ok((144, PathInfo::Multi(2, vec![good_key(1), good_key(2)])))
    );
}

#[test]
fn recovery_path_single_key_case() {
    let node = PolicyNode::Thresh(
        2,
        vec![PolicyNode::Key(good_key(7)), PolicyNode::Older(25)],
    );
    assert_eq!(
        PathInfo::from_recovery_path(node),
        Ok((25, PathInfo::Single(good_key(7))))
    );
}

#[test]
fn recovery_path_n_of_n_round_trip() {
    // threshold(4, [older(T), key1, key2, key3]) is the folded form of a
    // 3-of-3 multisig behind a timelock.
    let node = PolicyNode::Thresh(
        4,
        vec![
            PolicyNode::Older(90),
            PolicyNode::Key(good_key(1)),
            PolicyNode::Key(good_key(2)),
            PolicyNode::Key(good_key(3)),
        ],
    );
    assert_eq!(
        PathInfo::from_recovery_path(node),
        Ok((
            90,
            PathInfo::Multi(3, vec![good_key(1), good_key(2), good_key(3)])
        ))
    );
}

#[test]
fn recovery_path_rejects_malformed_thresholds() {
    // No timelock at all.
    let no_older = PolicyNode::Thresh(
        2,
        vec![PolicyNode::Key(good_key(1)), PolicyNode::Key(good_key(2))],
    );
    assert_eq!(
        PathInfo::from_recovery_path(no_older),
        Err(LianaDescError::IncompatibleDesc)
    );
    // Threshold not equal to the number of subs: the timelock would not
    // be mandatory.
    let loose = PolicyNode::Thresh(
        3,
        vec![
            PolicyNode::Older(10),
            PolicyNode::Key(good_key(1)),
            PolicyNode::Key(good_key(2)),
            PolicyNode::Key(good_key(3)),
        ],
    );
    assert_eq!(
        PathInfo::from_recovery_path(loose),
        Err(LianaDescError::IncompatibleDesc)
    );
    // Two timelocks.
    let two_olders = PolicyNode::Thresh(
        4,
        vec![
            PolicyNode::Older(10),
            PolicyNode::Older(20),
            PolicyNode::Key(good_key(1)),
            PolicyNode::Key(good_key(2)),
        ],
    );
    assert_eq!(
        PathInfo::from_recovery_path(two_olders),
        Err(LianaDescError::IncompatibleDesc)
    );
    // Not a threshold.
    assert_eq!(
        PathInfo::from_recovery_path(PolicyNode::Key(good_key(1))),
        Err(LianaDescError::IncompatibleDesc)
    );
}

#[test]
fn recovery_path_rejects_insane_timelock() {
    let zero = PolicyNode::Thresh(
        4,
        vec![
            PolicyNode::Older(0),
            PolicyNode::Key(good_key(1)),
            PolicyNode::Key(good_key(2)),
            PolicyNode::Key(good_key(3)),
        ],
    );
    assert_eq!(
        PathInfo::from_recovery_path(zero),
        Err(LianaDescError::InsaneTimelock(0))
    );
    let pair = PolicyNode::Thresh(
        2,
        vec![PolicyNode::Older(0x0040_0000), PolicyNode::Key(good_key(1))],
    );
    assert_eq!(
        PathInfo::from_recovery_path(pair),
        Err(LianaDescError::InsaneTimelock(0x0040_0000))
    );
}

#[test]
fn builder_from_normalized_policy() {
    let keys = vec![good_key(1), good_key(2), good_key(3)];
    let tree = PolicyNode::Thresh(
        1,
        vec![
            PolicyNode::Thresh(
                2,
                vec![PolicyNode::Key(good_key(1)), PolicyNode::Key(good_key(2))],
            ),
            PolicyNode::Thresh(
                2,
                vec![PolicyNode::Older(144), PolicyNode::Key(good_key(3))],
            ),
        ],
    );
    let policy = LianaPolicy::from_normalized_policy(keys, tree).unwrap();
    assert_eq!(
        policy.primary_path(),
        &PathInfo::Multi(2, vec![good_key(1), good_key(2)])
    );
    let (timelock, recovery) = policy.recovery_path();
    assert_eq!(timelock, 144);
    assert_eq!(recovery, &PathInfo::Single(good_key(3)));
}

#[test]
fn builder_reports_first_invalid_key() {
    let keys = vec![good_key(1), DescKey::SingleXPub, DescKey::SinglePub];
    let tree = PolicyNode::Other;
    assert_eq!(
        LianaPolicy::from_normalized_policy(keys, tree),
        Err(LianaDescError::InvalidKey(DescKey::SingleXPub))
    );
}

#[test]
fn builder_rejects_wrong_top_level() {
    // Not a 1-of-2: the top level must be an OR of exactly two branches.
    let keys = vec![good_key(1), good_key(2)];
    let tree = PolicyNode::Thresh(
        2,
        vec![
            PolicyNode::Key(good_key(1)),
            PolicyNode::Thresh(
                2,
                vec![PolicyNode::Older(144), PolicyNode::Key(good_key(2))],
            ),
        ],
    );
    assert_eq!(
        LianaPolicy::from_normalized_policy(keys, tree),
        Err(LianaDescError::IncompatibleDesc)
    );
}

#[test]
fn builder_rejects_ambiguous_branches() {
    // Both branches are plain key sets: no recovery path can be told.
    let keys = vec![good_key(1), good_key(2)];
    let tree = PolicyNode::Thresh(
        1,
        vec![PolicyNode::Key(good_key(1)), PolicyNode::Key(good_key(2))],
    );
    assert_eq!(
        LianaPolicy::from_normalized_policy(keys, tree),
        Err(LianaDescError::IncompatibleDesc)
    );
    // Neither branch is a plain key set.
    let keys = vec![good_key(1), good_key(2)];
    let tree = PolicyNode::Thresh(
        1,
        vec![
            PolicyNode::Thresh(
                2,
                vec![PolicyNode::Older(10), PolicyNode::Key(good_key(1))],
            ),
            PolicyNode::Thresh(
                2,
                vec![PolicyNode::Older(20), PolicyNode::Key(good_key(2))],
            ),
        ],
    );
    assert_eq!(
        LianaPolicy::from_normalized_policy(keys, tree),
        Err(LianaDescError::IncompatibleDesc)
    );
}

#[test]
fn builder_rejects_nested_threshold_primary() {
    // A primary branch that is a threshold of thresholds is not a key
    // set, so no branch classifies as primary.
    let keys = vec![good_key(1), good_key(2), good_key(3)];
    let tree = PolicyNode::Thresh(
        1,
        vec![
            PolicyNode::Thresh(
                2,
                vec![
                    PolicyNode::Thresh(
                        2,
                        vec![PolicyNode::Key(good_key(1)), PolicyNode::Key(good_key(2))],
                    ),
                    PolicyNode::Key(good_key(3)),
                ],
            ),
            PolicyNode::Thresh(
                2,
                vec![PolicyNode::Older(144), PolicyNode::Key(good_key(3))],
            ),
        ],
    );
    assert_eq!(
        LianaPolicy::from_normalized_policy(keys, tree),
        Err(LianaDescError::IncompatibleDesc)
    );
}

#[test]
fn thresh_origins_of_both_shapes() {
    let single = PathInfo::Single(good_key(0x11111111));
    let (threshold, origins) = single.thresh_origins();
    assert_eq!(threshold, 1);
    assert_eq!(
        origins,
        vec![origin(0x11111111, vec![0x8000_0030, 0x8000_0001])]
    );

    let multi = PathInfo::Multi(2, vec![good_key(1), good_key(2), good_key(3)]);
    let (threshold, origins) = multi.thresh_origins();
    assert_eq!(threshold, 2);
    assert_eq!(
        origins,
        vec![
            origin(1, vec![0x8000_0030, 0x8000_0001]),
            origin(2, vec![0x8000_0030, 0x8000_0001]),
            origin(3, vec![0x8000_0030, 0x8000_0001]),
        ]
    );
}

#[test]
fn thresh_origins_deduplicates_shared_origins() {
    // Two keys claiming the same origin yield one entry: the result is a
    // set of origins, not a list per key.
    let path = PathInfo::Multi(2, vec![good_key(9), good_key(9), good_key(4)]);
    let (threshold, origins) = path.thresh_origins();
    assert_eq!(threshold, 2);
    assert_eq!(
        origins,
        vec![
            origin(9, vec![0x8000_0030, 0x8000_0001]),
            origin(4, vec![0x8000_0030, 0x8000_0001]),
        ]
    );
}

#[test]
fn spend_info_counts_duplicates_and_ignores_strangers() {
    // Multi(2, [A, B, C]); A signed twice (same derived key), D is not a
    // key of this path: two signatures in total, both attributed to A.
    let path = PathInfo::Multi(
        2,
        vec![
            good_key(0xaaaaaaaa),
            good_key(0xbbbbbbbb),
            good_key(0xcccccccc),
        ],
    );
    let signer_a = origin(0xaaaaaaaa, vec![0x8000_0030, 0x8000_0001, 0, 5]);
    let signer_d = origin(0xdddddddd, vec![0x8000_0030, 0x8000_0001, 0, 5]);
    let signers = vec![signer_a.clone(), signer_a, signer_d];
    let info = path.spend_info(&signers);
    assert_eq!(info.threshold, 2);
    assert_eq!(info.sigs_count, 2);
    assert_eq!(
        info.signed_pubkeys,
        vec![(origin(0xaaaaaaaa, vec![0x8000_0030, 0x8000_0001]), 2)]
    );
}

#[test]
fn spend_info_ignores_short_derivation_paths() {
    // A signer whose derivation path has fewer than two steps cannot be
    // one of the wallet's keys.
    let path = PathInfo::Single(good_key(0xaaaaaaaa));
    let signers = vec![origin(0xaaaaaaaa, vec![5])];
    let info = path.spend_info(&signers);
    assert_eq!(info.sigs_count, 0);
    assert_eq!(info.signed_pubkeys, vec![]);
    assert_eq!(info.threshold, 1);
}

#[test]
fn partial_spend_info_accessors() {
    let primary = PathSpendInfo {
        threshold: 2,
        sigs_count: 1,
        signed_pubkeys: vec![(origin(1, vec![0]), 1)],
    };
    let info = PartialSpendInfo::new(primary.clone(), None);
    assert_eq!(info.primary_path(), &primary);
    assert_eq!(info.recovery_path(), &None);
    let with_recovery = PartialSpendInfo::new(primary.clone(), Some(primary.clone()));
    assert_eq!(with_recovery.recovery_path(), &Some(primary));
}
