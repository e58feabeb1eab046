use game_server::host_recovery::{encode_manifest, validate_manifest};
use game_server::{MatchHostRecoveryError, MatchId};

fn ids() -> Vec<MatchId> {
    ["alpha", "beta"]
        .into_iter()
        .map(|id| MatchId::new(id).unwrap())
        .collect()
}

#[test]
fn manifest_is_versioned_sorted_and_exact() {
    let ids = ids();
    let manifest = encode_manifest(&ids);
    assert_eq!(manifest, "GSHR 1\nalpha\nbeta\n");
    assert_eq!(validate_manifest(&manifest, &ids), Ok(()));
}

#[test]
fn manifest_rejects_missing_extra_or_reordered_matches() {
    let ids = ids();
    for manifest in [
        "GSHR 1\nalpha\n",
        "GSHR 1\nalpha\nbeta\ngamma\n",
        "GSHR 1\nbeta\nalpha\n",
    ] {
        assert!(matches!(
            validate_manifest(manifest, &ids),
            Err(MatchHostRecoveryError::Manifest(_))
        ));
    }
}
