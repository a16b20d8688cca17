//! Bringing the schema of a database up to date, step by step.
use vstd::prelude::*;

use crate::error::{ErrorView, StoreError};
use crate::text::{decimal, decimal_text};

verus! {

/// How many steps there are. A database whose version is this has seen them all.
pub const MIGRATION_COUNT: u64 = 4;

/// Events, labels and cached states.
pub const MIGRATION_1: &'static str =
    "CREATE TABLE IF NOT EXISTS events (
        stream TEXT NOT NULL,
        seq    INTEGER NOT NULL,
        kind   TEXT NOT NULL,
        patch  TEXT NOT NULL,
        meta   TEXT NOT NULL,
        at_ms  INTEGER NOT NULL,
        PRIMARY KEY (stream, seq)
    );
    CREATE INDEX IF NOT EXISTS ix_events_stream_at ON events(stream, at_ms);

    CREATE TABLE IF NOT EXISTS labels (
        stream TEXT NOT NULL,
        name   TEXT NOT NULL,
        at_seq INTEGER NOT NULL,
        PRIMARY KEY (stream, name)
    );

    CREATE TABLE IF NOT EXISTS cache (
        stream TEXT NOT NULL,
        at_seq INTEGER NOT NULL,
        state  TEXT NOT NULL,
        PRIMARY KEY (stream, at_seq)
    );";

/// Checkpoints of sinks.
pub const MIGRATION_2: &'static str =
    "CREATE TABLE IF NOT EXISTS sink_checkpoints (
        sink_id TEXT NOT NULL,
        stream  TEXT NOT NULL,
        at_seq  INTEGER NOT NULL,
        PRIMARY KEY (sink_id, stream)
    );";

/// The read model.
pub const MIGRATION_3: &'static str =
    "CREATE TABLE IF NOT EXISTS read_model (
        stream     TEXT NOT NULL PRIMARY KEY,
        state      TEXT NOT NULL,
        last_seq   INTEGER NOT NULL,
        updated_at INTEGER NOT NULL,
        live       INTEGER NOT NULL DEFAULT 1
    );
    CREATE INDEX IF NOT EXISTS ix_read_model_updated ON read_model(updated_at);";

/// No event is changed or removed, by whatever connection.
pub const MIGRATION_4: &'static str =
    "CREATE TRIGGER IF NOT EXISTS trg_events_no_update
    BEFORE UPDATE ON events
    BEGIN
        SELECT RAISE(ABORT, 'ai-store events are append-only (UPDATE denied)');
    END;

    CREATE TRIGGER IF NOT EXISTS trg_events_no_delete
    BEFORE DELETE ON events
    BEGIN
        SELECT RAISE(ABORT, 'ai-store events are append-only (DELETE denied)');
    END;";

/// The statements of step `number`, which leads to the version of that number.
pub open spec fn migration_sql(number: int) -> Seq<char> {
    if number == 1 {
        MIGRATION_1@
    } else if number == 2 {
        MIGRATION_2@
    } else if number == 3 {
        MIGRATION_3@
    } else {
        MIGRATION_4@
    }
}

/// One step. It runs in a transaction of its own, together with the change of the
/// version.
#[derive(Debug, PartialEq, Eq)]
pub struct Migration {
    /// The version that the step leads to.
    pub version: i64,
    /// The statements.
    pub sql: &'static str,
}

/// The number that a version is reported as: the bits of a negative one are taken
/// for a number without sign.
pub open spec fn version_number(version: i64) -> nat {
    if version < 0 {
        (version + 0x1_0000_0000_0000_0000) as nat
    } else {
        version as nat
    }
}

/// The message for a database that was written by a later release.
pub open spec fn newer_words(version: i64) -> Seq<char> {
    "database schema version "@ + decimal(version_number(version))
        + " is newer than this build of ai-store-sqlite supports ("@ + decimal(
        MIGRATION_COUNT as nat,
    ) + " known migrations); refusing to open"@
}

/// The bits of `version` as a number without sign.
fn unsigned_version(version: i64) -> (r: u64)
    ensures
        r == version_number(version),
{
    if version < 0 {
        // The negative numbers are those that lie below two to the sixty-fourth
        // by their distance from zero.
        let distance: u64 = if version == i64::MIN {
            0x8000_0000_0000_0000u64
        } else {
            (0 - version) as u64
        };
        u64::MAX - distance + 1
    } else {
        version as u64
    }
}

/// `steps` lead from version `version` to the latest, one version at a time.
pub open spec fn steps_from(version: int, steps: Seq<Migration>) -> bool {
    &&& 0 <= version <= MIGRATION_COUNT
    &&& steps.len() == MIGRATION_COUNT - version
    &&& forall|i: int|
        0 <= i < steps.len() ==> (#[trigger] steps[i]).version == version + i + 1
            && steps[i].sql@ == migration_sql(version + i + 1)
}

/// The version of a database of version `version` that has taken `steps`.
pub open spec fn version_after(version: int, steps: Seq<Migration>) -> int {
    if steps.len() == 0 {
        version
    } else {
        steps.last().version as int
    }
}

/// A database that has taken the steps that were pending has the latest version,
/// and nothing is pending any more.
pub proof fn nothing_is_pending_after_the_last_step(
    version: int,
    first: Seq<Migration>,
    second: Seq<Migration>,
)
    requires
        steps_from(version, first),
        steps_from(version_after(version, first), second),
    ensures
        version_after(version, first) == MIGRATION_COUNT,
        second.len() == 0,
{
    if first.len() > 0 {
        assert(first[first.len() - 1].version == version + first.len());
    }
}

/// The steps that a database of version `version` still has to take, in order.
pub fn pending_migrations(version: i64) -> (r: Result<Vec<Migration>, StoreError>)
    ensures
        match r {
            Ok(steps) => steps_from(version as int, steps@),
            Err(e) => !(0 <= version <= MIGRATION_COUNT) && e@ == ErrorView::Backend(
                newer_words(version),
            ),
        },
{
    if version < 0 || version > MIGRATION_COUNT as i64 {
        let mut words = "database schema version ".to_owned();
        words.append(decimal_text(unsigned_version(version)).as_str());
        words.append(" is newer than this build of ai-store-sqlite supports (");
        words.append(decimal_text(MIGRATION_COUNT).as_str());
        words.append(" known migrations); refusing to open");
        return Err(StoreError::Backend(words));
    }
    let mut steps: Vec<Migration> = Vec::new();
    let mut number: i64 = version;
    while number < MIGRATION_COUNT as i64
        invariant
            0 <= version <= number <= MIGRATION_COUNT,
            steps@.len() == number - version,
            forall|i: int|
                0 <= i < steps@.len() ==> (#[trigger] steps@[i]).version == version + i + 1
                    && steps@[i].sql@ == migration_sql(version + i + 1),
        decreases MIGRATION_COUNT - number,
    {
        number = number + 1;
        let sql = match number {
            1 => MIGRATION_1,
            2 => MIGRATION_2,
            3 => MIGRATION_3,
            _ => MIGRATION_4,
        };
        steps.push(Migration { version: number, sql });
    }
    Ok(steps)
}

/// A version is reported as the number without sign that has the same bits: one that
/// fits into sixty-four of them, and differs from the version by a multiple of two to
/// the sixty-fourth. The message says that number, and how many steps are known.
pub proof fn a_version_is_reported_by_its_bits(version: i64)
    ensures
        0 <= version_number(version) < 0x1_0000_0000_0000_0000,
        (version_number(version) - version) % 0x1_0000_0000_0000_0000 == 0,
        newer_words(version) == "database schema version "@ + decimal(version_number(version))
            + " is newer than this build of ai-store-sqlite supports ("@ + decimal(4)
            + " known migrations); refusing to open"@,
{
}

/// A database is opened at every version from zero to the latest and at no other, and
/// takes one step for each version that it lacks, in order.
pub proof fn a_database_takes_the_steps_that_it_lacks(
    version: i64,
    r: Result<Vec<Migration>, StoreError>,
)
    requires
        call_ensures(pending_migrations, (version,), r),
    ensures
        r is Ok <==> 0 <= version <= 4,
        r matches Ok(steps) ==> {
            &&& steps@.len() == 4 - version
            &&& forall|i: int|
                0 <= i < steps@.len() ==> {
                    let to = version + i + 1;
                    &&& (#[trigger] steps@[i]).version == to
                    &&& to == 1 ==> steps@[i].sql@ == MIGRATION_1@
                    &&& to == 2 ==> steps@[i].sql@ == MIGRATION_2@
                    &&& to == 3 ==> steps@[i].sql@ == MIGRATION_3@
                    &&& to == 4 ==> steps@[i].sql@ == MIGRATION_4@
                }
        },
        r matches Err(e) ==> e@ == ErrorView::Backend(newer_words(version)),
{
}

} // verus!
