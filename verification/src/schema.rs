//! Which schema versions a library file can be opened at, and the upgrade
//! steps that bring an older file to the current version.
use vstd::prelude::*;

use crate::errors::DatabaseError;
use crate::text::{chars_eq, chars_of};

verus! {

/// The schema version this library writes.
pub const CURRENT_SCHEMA_VERSION: u32 = 17;

/// The oldest schema version that can still be upgraded.
pub const MINIMUM_UPGRADABLE_SCHEMA_VERSION: u32 = 8;

/// What opening a file at some schema version takes.
#[derive(Debug, Clone, Copy, PartialEq, Eq, Structural)]
pub enum SchemaPlan {
    /// The file is current.
    Current,
    /// The file is new: the current schema is created at once.
    Create,
    /// The file is upgraded one version at a time from `from`.
    Upgrade { from: u32 },
}

/// What opening a file at `version` takes, or why it cannot be opened: a
/// newer version is refused, as is a non-empty one below the oldest
/// upgradable version.
pub open spec fn schema_plan_spec(version: u32) -> Result<SchemaPlan, DatabaseError> {
    if version > CURRENT_SCHEMA_VERSION {
        Err(DatabaseError::UnsupportedSchemaVersion { found: version, supported: CURRENT_SCHEMA_VERSION })
    } else if version == CURRENT_SCHEMA_VERSION {
        Ok(SchemaPlan::Current)
    } else if version == 0 {
        Ok(SchemaPlan::Create)
    } else if version < MINIMUM_UPGRADABLE_SCHEMA_VERSION {
        Err(DatabaseError::LegacySchemaVersion { found: version, minimum: MINIMUM_UPGRADABLE_SCHEMA_VERSION })
    } else {
        Ok(SchemaPlan::Upgrade { from: version })
    }
}

/// Decides how a file at `version` is opened (see `schema_plan_spec`).
pub fn schema_plan(version: u32) -> (r: Result<SchemaPlan, DatabaseError>)
    ensures
        match (r, schema_plan_spec(version)) {
            (Ok(a), Ok(b)) => a == b,
            (Err(DatabaseError::UnsupportedSchemaVersion { found, supported }), Err(
                DatabaseError::UnsupportedSchemaVersion { found: f, supported: s },
            )) => found == f && supported == s,
            (Err(DatabaseError::LegacySchemaVersion { found, minimum }), Err(
                DatabaseError::LegacySchemaVersion { found: f, minimum: m },
            )) => found == f && minimum == m,
            _ => false,
        },
{
    if version > CURRENT_SCHEMA_VERSION {
        Err(DatabaseError::UnsupportedSchemaVersion { found: version, supported: CURRENT_SCHEMA_VERSION })
    } else if version == CURRENT_SCHEMA_VERSION {
        Ok(SchemaPlan::Current)
    } else if version == 0 {
        Ok(SchemaPlan::Create)
    } else if version < MINIMUM_UPGRADABLE_SCHEMA_VERSION {
        Err(DatabaseError::LegacySchemaVersion { found: version, minimum: MINIMUM_UPGRADABLE_SCHEMA_VERSION })
    } else {
        Ok(SchemaPlan::Upgrade { from: version })
    }
}

/// The versions an upgrade from `from` passes through, in order: each
/// version after `from` up to the current one.
pub fn upgrade_steps(from: u32) -> (r: Vec<u32>)
    requires
        MINIMUM_UPGRADABLE_SCHEMA_VERSION <= from < CURRENT_SCHEMA_VERSION,
    ensures
        r@.len() == CURRENT_SCHEMA_VERSION - from,
        forall|i: int| 0 <= i < r@.len() ==> r@[i] == from + 1 + i,
{
    let mut steps: Vec<u32> = Vec::new();
    let mut v = from;
    while v < CURRENT_SCHEMA_VERSION
        invariant
            from <= v <= CURRENT_SCHEMA_VERSION,
            steps@.len() == v - from,
            forall|i: int| 0 <= i < steps@.len() ==> steps@[i] == from + 1 + i,
        decreases CURRENT_SCHEMA_VERSION - v,
    {
        v = v + 1;
        steps.push(v);
    }
    steps
}

/// Every upgrade ends at the current version, one version per step.
pub proof fn lemma_upgrade_reaches_current(from: u32, steps: Seq<u32>)
    requires
        MINIMUM_UPGRADABLE_SCHEMA_VERSION <= from < CURRENT_SCHEMA_VERSION,
        steps.len() == CURRENT_SCHEMA_VERSION - from,
        forall|i: int| 0 <= i < steps.len() ==> steps[i] == from + 1 + i,
    ensures
        steps.len() > 0,
        steps.last() == CURRENT_SCHEMA_VERSION,
        forall|i: int| 0 < i < steps.len() ==> #[trigger] steps[i] == steps[i - 1] + 1,
{
}

/// The answer of an integrity check: `ok` passes, anything else is the
/// failure reported.
pub fn integrity_result(result: String) -> (r: Result<(), DatabaseError>)
    ensures
        result@ == "ok"@ ==> r is Ok,
        result@ != "ok"@ ==> (r matches Err(DatabaseError::IntegrityCheckFailed(m)) && m@ == result@),
{
    if chars_eq(&chars_of(result.as_str()), &chars_of("ok")) {
        Ok(())
    } else {
        Err(DatabaseError::IntegrityCheckFailed(result))
    }
}

} // verus!
