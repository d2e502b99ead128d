use vault_sync::sync::{sync_action, SyncAction};

#[test]
fn unchanged_file_is_up_to_date() {
    assert_eq!(sync_action("A=1\n", Some("A=1\n"), false), SyncAction::UpToDate);
    assert_eq!(sync_action("A=1\n", Some("A=1\n"), true), SyncAction::UpToDate);
}

#[test]
fn changed_or_missing_file_is_updated_or_previewed() {
    assert_eq!(sync_action("A=2\n", Some("A=1\n"), false), SyncAction::Update);
    assert_eq!(sync_action("A=2\n", Some("A=1\n"), true), SyncAction::WouldUpdate);
    assert_eq!(sync_action("A=2\n", None, false), SyncAction::Update);
    assert_eq!(sync_action("A=2\n", None, true), SyncAction::WouldUpdate);
    assert_eq!(sync_action("", None, false), SyncAction::Update);
}
