//! Schema versioning: which migrations an on-disk database still needs,
//! read from its `PRAGMA user_version`.

use vstd::prelude::*;

verus! {

/// The schema version this build writes.
pub const SCHEMA_VERSION: i64 = 3;

/// The migrations a database at some version still needs, and whether its
/// recorded version must then be raised.
#[derive(Debug, Clone, Copy, PartialEq, Eq)]
pub struct MigrationPlan {
    /// Create the table and its timestamp index.
    pub to_v1: bool,
    /// Add the pin flag.
    pub to_v2: bool,
    /// Relabel existing textual content as `TEXT`.
    pub to_v3: bool,
    /// Record `SCHEMA_VERSION` afterwards.
    pub set_version: bool,
}

/// The plan for a database that records `version`: every migration above
/// it, and the new version recorded when it is behind.
pub open spec fn plan_of(version: i64) -> MigrationPlan {
    MigrationPlan {
        to_v1: version < 1,
        to_v2: version < 2,
        to_v3: version < 3,
        set_version: version < SCHEMA_VERSION,
    }
}

/// The version a database records once its plan has been carried out.
pub open spec fn version_after(version: i64) -> i64 {
    if plan_of(version).set_version {
        SCHEMA_VERSION
    } else {
        version
    }
}

/// The plan that runs nothing and records nothing.
pub open spec fn nothing_to_do(p: MigrationPlan) -> bool {
    !p.to_v1 && !p.to_v2 && !p.to_v3 && !p.set_version
}

/// Law: after one initialisation the database records the newer of its old
/// version and `SCHEMA_VERSION`, and a second initialisation then runs no
/// migration and records no version.
pub proof fn law_initialisation_is_idempotent(version: i64)
    ensures
        version_after(version) == (if version < SCHEMA_VERSION { SCHEMA_VERSION } else { version }),
        nothing_to_do(plan_of(version_after(version))),
        version_after(version_after(version)) == version_after(version),
{
}

/// Schema setup and migrations, gated by the recorded version.
pub struct SchemaManager;

impl SchemaManager {
    /// Exactly the migrations above `version` run, in order.
    pub fn plan(version: i64) -> (r: MigrationPlan)
        ensures
            r == plan_of(version),
            r.to_v1 == (version < 1),
            r.to_v2 == (version < 2),
            r.to_v3 == (version < 3),
            r.set_version == (version < SCHEMA_VERSION),
    {
        MigrationPlan {
            to_v1: version < 1,
            to_v2: version < 2,
            to_v3: version < 3,
            set_version: version < SCHEMA_VERSION,
        }
    }
}

} // verus!
