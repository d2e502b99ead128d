//! What `sync` does with each fetched secret.

use vstd::prelude::*;
use crate::text::str_equal;

verus! {

/// What `sync` does with one secret.
#[derive(Debug, PartialEq, Eq, Structural)]
pub enum SyncAction {
    /// The file differs from the secret; a dry run only reports it.
    WouldUpdate,
    /// The file differs from the secret and is overwritten with it.
    Update,
    /// The file already holds the secret.
    UpToDate,
}

/// The action for a secret whose value is `value`, given what its file holds
/// now (`None` when it cannot be read) and whether this is a dry run.
pub open spec fn planned_action(value: Seq<char>, existing: Option<Seq<char>>, dry_run: bool) -> SyncAction {
    if existing == Some(value) {
        SyncAction::UpToDate
    } else if dry_run {
        SyncAction::WouldUpdate
    } else {
        SyncAction::Update
    }
}

/// The view of an optional string slice.
pub open spec fn opt_str_view(o: Option<&str>) -> Option<Seq<char>> {
    match o {
        Some(s) => Some(s@),
        None => None,
    }
}

/// Decides what `sync` does with a fetched secret.
pub fn sync_action(value: &str, existing: Option<&str>, dry_run: bool) -> (r: SyncAction)
    ensures
        r == planned_action(value@, opt_str_view(existing), dry_run),
{
    let unchanged = match existing {
        Some(e) => str_equal(e, value),
        None => false,
    };
    if unchanged {
        SyncAction::UpToDate
    } else if dry_run {
        SyncAction::WouldUpdate
    } else {
        SyncAction::Update
    }
}

/// A dry run previews a sync exactly: it reports "would update" for the very
/// secrets that a real sync overwrites, agrees on those that are up to date,
/// and never overwrites anything itself.
pub proof fn lemma_dry_run_previews_sync(value: Seq<char>, existing: Option<Seq<char>>)
    ensures
        planned_action(value, existing, true) == SyncAction::WouldUpdate <==> planned_action(
            value,
            existing,
            false,
        ) == SyncAction::Update,
        planned_action(value, existing, true) == SyncAction::UpToDate <==> planned_action(
            value,
            existing,
            false,
        ) == SyncAction::UpToDate,
        planned_action(value, existing, true) != SyncAction::Update,
{
}

/// A file is left alone exactly when it already holds the secret's value:
/// a file holding anything else (a shorter or longer text, say, or one that
/// differs anywhere), or that cannot be read, is overwritten, or reported in a
/// dry run; and once a sync has written the value, the next finds it up to
/// date.
pub proof fn lemma_up_to_date_only_when_equal(value: Seq<char>, existing: Option<Seq<char>>, dry_run: bool)
    ensures
        planned_action(value, existing, dry_run) == SyncAction::UpToDate <==> existing == Some(
            value,
        ),
        existing != Some(value) && !dry_run ==> planned_action(value, existing, dry_run)
            == SyncAction::Update,
        existing != Some(value) && dry_run ==> planned_action(value, existing, dry_run)
            == SyncAction::WouldUpdate,
        planned_action(value, Some(value), dry_run) == SyncAction::UpToDate,
        existing matches Some(e) && e.len() != value.len() ==> planned_action(value, existing, dry_run)
            != SyncAction::UpToDate,
{
}

} // verus!
