use roblox_slang::merge::{LocalMap, MergeEngine, MergeStrategy};

fn s(x: &str) -> String {
    x.to_string()
}

fn create_test_local() -> LocalMap {
    let mut local = LocalMap::new();
    local.insert(s("ui.button.buy"), s("en"), s("Buy"));
    local.insert(s("ui.button.sell"), s("en"), s("Sell"));
    local.insert(s("ui.button.buy"), s("id"), s("Beli"));
    local
}

fn create_test_cloud() -> LocalMap {
    let mut cloud = LocalMap::new();
    cloud.insert(s("ui.button.buy"), s("en"), s("Purchase"));
    cloud.insert(s("ui.button.cancel"), s("en"), s("Cancel"));
    cloud
}

#[test]
fn test_compute_diff() {
    let local = create_test_local();
    let cloud = create_test_cloud();

    let diff = MergeEngine::compute_diff(&local, &cloud);

    assert_eq!(diff.added_local.len(), 2);
    assert!(diff.added_local.contains(&(s("ui.button.sell"), s("en"), s("Sell"))));
    assert!(diff.added_local.contains(&(s("ui.button.buy"), s("id"), s("Beli"))));

    assert_eq!(diff.added_cloud.len(), 1);
    assert!(diff.added_cloud.contains(&(s("ui.button.cancel"), s("en"), s("Cancel"))));

    assert_eq!(diff.modified_both.len(), 1);
    assert_eq!(diff.modified_both[0].0, "ui.button.buy");
    assert_eq!(diff.modified_both[0].1, "en");
    assert_eq!(diff.modified_both[0].2, "Buy");
    assert_eq!(diff.modified_both[0].3, "Purchase");

    assert_eq!(diff.deleted_local.len(), 1);
}

#[test]
fn test_overwrite_strategy() {
    let local = create_test_local();
    let cloud = create_test_cloud();

    let diff = MergeEngine::compute_diff(&local, &cloud);
    let result = MergeEngine::apply_strategy(&diff, MergeStrategy::Overwrite, &local);

    assert_eq!(result.to_upload.len(), 3);
    assert_eq!(result.to_download.len(), 0);
    assert_eq!(result.conflicts.len(), 0);
}

#[test]
fn test_merge_strategy() {
    let local = create_test_local();
    let cloud = create_test_cloud();

    let diff = MergeEngine::compute_diff(&local, &cloud);
    let result = MergeEngine::apply_strategy(&diff, MergeStrategy::Merge, &local);

    assert_eq!(result.to_upload.len(), 2);
    assert_eq!(result.to_download.len(), 2);
    assert_eq!(result.conflicts.len(), 0);
}

#[test]
fn test_skip_conflicts_strategy() {
    let local = create_test_local();
    let cloud = create_test_cloud();

    let diff = MergeEngine::compute_diff(&local, &cloud);
    let result = MergeEngine::apply_strategy(&diff, MergeStrategy::SkipConflicts, &local);

    assert_eq!(result.to_upload.len(), 2);
    assert_eq!(result.to_download.len(), 1);
    assert_eq!(result.conflicts.len(), 1);
    assert_eq!(result.conflicts[0].key, "ui.button.buy");
    assert_eq!(result.conflicts[0].locale, "en");
    assert_eq!(result.conflicts[0].local_value, "Buy");
    assert_eq!(result.conflicts[0].cloud_value, "Purchase");
}

#[test]
fn test_empty_diff() {
    let local = LocalMap::new();
    let cloud = LocalMap::new();

    let diff = MergeEngine::compute_diff(&local, &cloud);

    assert_eq!(diff.added_local.len(), 0);
    assert_eq!(diff.added_cloud.len(), 0);
    assert_eq!(diff.modified_both.len(), 0);
    assert_eq!(diff.deleted_local.len(), 0);
}

#[test]
fn test_identical_translations() {
    let mut local = LocalMap::new();
    local.insert(s("ui.button"), s("en"), s("Buy"));

    let cloud = local.clone();

    let diff = MergeEngine::compute_diff(&local, &cloud);

    assert_eq!(diff.added_local.len(), 0);
    assert_eq!(diff.added_cloud.len(), 0);
    assert_eq!(diff.modified_both.len(), 0);
    assert_eq!(diff.deleted_local.len(), 0);
}

#[test]
fn local_only_record_is_added_and_overwrite_uploads_it() {
    let mut local = LocalMap::new();
    local.insert(s("a"), s("en"), s("Buy"));
    let cloud = LocalMap::new();
    let diff = MergeEngine::compute_diff(&local, &cloud);
    assert_eq!(diff.added_local, vec![(s("a"), s("en"), s("Buy"))]);
    let result = MergeEngine::apply_strategy(&diff, MergeStrategy::Overwrite, &local);
    assert_eq!(result.to_upload, vec![(s("a"), s("en"), s("Buy"))]);
    assert!(result.to_download.is_empty());
    assert!(result.conflicts.is_empty());
}

#[test]
fn differing_values_conflict_under_each_strategy() {
    let mut local = LocalMap::new();
    local.insert(s("a"), s("en"), s("Buy"));
    let mut cloud = LocalMap::new();
    cloud.insert(s("a"), s("en"), s("Purchase"));
    let diff = MergeEngine::compute_diff(&local, &cloud);
    assert_eq!(diff.modified_both, vec![(s("a"), s("en"), s("Buy"), s("Purchase"))]);

    let merged = MergeEngine::apply_strategy(&diff, MergeStrategy::Merge, &local);
    assert_eq!(merged.to_download, vec![(s("a"), s("en"), s("Purchase"))]);
    assert!(merged.conflicts.is_empty());

    let skipped = MergeEngine::apply_strategy(&diff, MergeStrategy::SkipConflicts, &local);
    assert_eq!(skipped.conflicts.len(), 1);
    assert_eq!(skipped.conflicts[0].key, "a");
    assert_eq!(skipped.conflicts[0].locale, "en");
    assert_eq!(skipped.conflicts[0].local_value, "Buy");
    assert_eq!(skipped.conflicts[0].cloud_value, "Purchase");
    assert!(skipped.to_upload.is_empty());
    assert!(skipped.to_download.is_empty());
}

#[test]
fn cloud_only_record_is_downloaded_by_merge_and_skip() {
    let local = LocalMap::new();
    let mut cloud = LocalMap::new();
    cloud.insert(s("b"), s("en"), s("Cancel"));
    let diff = MergeEngine::compute_diff(&local, &cloud);
    assert_eq!(diff.added_cloud, vec![(s("b"), s("en"), s("Cancel"))]);
    assert_eq!(diff.deleted_local, vec![(s("b"), s("en"))]);
    for strategy in [MergeStrategy::Merge, MergeStrategy::SkipConflicts] {
        let result = MergeEngine::apply_strategy(&diff, strategy, &local);
        assert!(result.to_download.contains(&(s("b"), s("en"), s("Cancel"))));
    }
}

#[test]
fn every_pair_falls_in_exactly_one_class() {
    let local = create_test_local();
    let cloud = create_test_cloud();
    let diff = MergeEngine::compute_diff(&local, &cloud);
    let pairs = [
        ("ui.button.buy", "en"),
        ("ui.button.sell", "en"),
        ("ui.button.buy", "id"),
        ("ui.button.cancel", "en"),
    ];
    for (k, l) in pairs {
        let unchanged = match (local.get(&s(k), &s(l)), cloud.get(&s(k), &s(l))) {
            (Some(a), Some(b)) => a == b,
            _ => false,
        };
        let in_local = diff.added_local.iter().any(|r| r.0 == k && r.1 == l);
        let in_cloud = diff.added_cloud.iter().any(|r| r.0 == k && r.1 == l);
        let in_both = diff.modified_both.iter().any(|r| r.0 == k && r.1 == l);
        let count = [unchanged, in_local, in_cloud, in_both].iter().filter(|b| **b).count();
        assert_eq!(count, 1, "{} {}", k, l);
    }
}

#[test]
fn insert_replaces_the_value_of_a_pair() {
    let mut m = LocalMap::new();
    m.insert(s("k"), s("en"), s("one"));
    m.insert(s("k"), s("en"), s("two"));
    assert_eq!(m.len(), 1);
    assert_eq!(m.get(&s("k"), &s("en")), Some(&s("two")));
    assert_eq!(m.get(&s("k"), &s("id")), None);
}

#[test]
fn strategy_names() {
    assert_eq!(MergeStrategy::from_name("Merge"), Some(MergeStrategy::Merge));
    assert_eq!(MergeStrategy::from_name("OVERWRITE"), Some(MergeStrategy::Overwrite));
    assert_eq!(MergeStrategy::from_name("skip_conflicts"), Some(MergeStrategy::SkipConflicts));
    assert_eq!(MergeStrategy::from_lowercase_name("skip-conflicts"), Some(MergeStrategy::SkipConflicts));
    assert_eq!(MergeStrategy::from_name("both"), None);
}
