use crate::types::{Config, OperationType, ProjectSetup};
use vstd::prelude::*;

verus! {

/// What must happen to the project root before the tree is materialized.
#[derive(Clone, Copy, Debug, PartialEq, Eq, Structural)]
pub enum RootAction {
    /// No directory carries the new name yet and no rename applies:
    /// create the root fresh.
    FreshCreate,
    /// A prior configuration's root exists under its old name: rename it.
    RenameFromPrior,
    /// An explicitly supplied old name exists on disk: rename it.
    RenameFromDeadname,
    /// The root already carries the new name; nothing to do.
    NoOp,
}

/// The root reconciliation rule, in priority order. A supplied deadname
/// is considered first: if a directory of that name exists it is renamed,
/// otherwise the new root is created when missing. Without a deadname, an
/// update whose loaded prior root exists on disk under a different name
/// renames it; otherwise the root is created when missing.
pub open spec fn spec_decide(
    has_deadname: bool,
    deadname_exists: bool,
    new_exists: bool,
    is_update: bool,
    has_prior: bool,
    prior_exists: bool,
    prior_differs: bool,
) -> RootAction {
    if has_deadname {
        if deadname_exists {
            RootAction::RenameFromDeadname
        } else if !new_exists {
            RootAction::FreshCreate
        } else {
            RootAction::NoOp
        }
    } else if is_update && has_prior && prior_exists && prior_differs {
        RootAction::RenameFromPrior
    } else if !new_exists {
        RootAction::FreshCreate
    } else {
        RootAction::NoOp
    }
}

/// Decides what to do with the project root. The caller probes the
/// filesystem and passes three facts: whether a directory named after the
/// deadname exists, whether one named after the prior root exists, and
/// whether one named after the new root exists.
pub fn decide_root_action(
    old_setup: &ProjectSetup,
    setup: &ProjectSetup,
    op_type: &OperationType,
    old_config_exists: bool,
    deadname_exists: bool,
    prior_exists: bool,
    new_exists: bool,
) -> (a: RootAction)
    ensures
        a == spec_decide(
            setup.deadname is Some,
            deadname_exists,
            new_exists,
            *op_type is Update,
            old_config_exists,
            prior_exists,
            old_setup.name@ != setup.name@,
        ),
{
    match &setup.deadname {
        Some(_) => {
            if deadname_exists {
                RootAction::RenameFromDeadname
            } else if !new_exists {
                RootAction::FreshCreate
            } else {
                RootAction::NoOp
            }
        },
        None => {
            let is_update = match op_type {
                OperationType::Update => true,
                OperationType::New => false,
            };
            let differs = !old_setup.name.eq(&setup.name);
            if is_update && old_config_exists && prior_exists && differs {
                RootAction::RenameFromPrior
            } else if !new_exists {
                RootAction::FreshCreate
            } else {
                RootAction::NoOp
            }
        },
    }
}

/// Overwrites the stored root name with the newly requested one, leaving
/// everything else in the configuration untouched; the next invocation
/// then compares against the most recent name.
pub fn update_root_name(config: &mut Config, name: &String)
    ensures
        final(config).setup.name == *name,
        final(config).setup.days == old(config).setup.days,
        final(config).setup.cameras == old(config).setup.cameras,
        final(config).setup.sound_sources == old(config).setup.sound_sources,
        final(config).setup.deadname == old(config).setup.deadname,
        final(config).file_structure == old(config).file_structure,
{
    config.setup.name = name.clone();
}

/// A supplied deadname that exists on disk always wins: no other fact
/// changes the decision away from renaming the deadname directory.
pub proof fn lemma_deadname_precedence(
    deadname_exists: bool,
    new_exists: bool,
    is_update: bool,
    has_prior: bool,
    prior_exists: bool,
    prior_differs: bool,
)
    requires
        deadname_exists,
    ensures
        spec_decide(
            true,
            deadname_exists,
            new_exists,
            is_update,
            has_prior,
            prior_exists,
            prior_differs,
        ) == RootAction::RenameFromDeadname,
{
}

} // verus!
