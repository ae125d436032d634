//! Persistence records and the versioned schema migrations of the local
//! database.

use vstd::prelude::*;

verus! {

/// A device as stored in the database.
#[derive(Clone, Debug)]
pub struct DeviceEntity {
    pub id: Option<i64>,
    pub remote_id: String,
    pub name: String,
    pub device_type: String,
    pub connection_type: String,
    pub paired: bool,
    pub last_connected: Option<i64>,
    pub firmware_version: Option<String>,
    pub battery_level: Option<i32>,
    pub created_at: i64,
    pub updated_at: i64,
}

/// Common create, read, update and delete operations of a repository of
/// entities `T` keyed by `ID`.
pub trait Repository<T, ID>: Send + Sync {
    /// Every entity.
    fn get_all(&self) -> Result<Vec<T>, anyhow::Error>;

    /// The entity with the given identifier, if any.
    fn get_by_id(&self, id: ID) -> Result<Option<T>, anyhow::Error>;

    /// Stores a new entity and returns its identifier.
    fn insert(&self, entity: T) -> Result<ID, anyhow::Error>;

    /// Replaces the entity with the given identifier.
    fn update(&self, id: ID, entity: T) -> Result<(), anyhow::Error>;

    /// Removes the entity with the given identifier.
    fn delete(&self, id: ID) -> Result<(), anyhow::Error>;
}

/// Removes the device stored under `id` from `devices`, handing back what
/// the repository reports.
pub fn delete_device<R: Repository<DeviceEntity, i64>>(devices: &R, id: i64) -> Result<
    (),
    anyhow::Error,
> {
    crate::application::command(|| devices.delete(id))
}

/// One versioned change of the database schema.
pub trait Migration: Send + Sync {
    /// The version number, a timestamp of the form YYYYMMDDHHMMSS.
    fn version(&self) -> i64;

    /// What the migration does.
    fn description(&self) -> &str;

    /// SQL that applies the migration.
    fn up(&self) -> &str;

    /// SQL that reverts the migration, where it can be reverted.
    fn down(&self) -> Option<&str> {
        None
    }
}

/// The tables of saved places and devices.
pub struct InitialSchema {}

impl Migration for InitialSchema {
    fn version(&self) -> (r: i64)
        ensures
            r == 20231201000000,
    {
        20231201000000
    }

    fn description(&self) -> &str {
        "Create initial schema with saved_places and devices tables"
    }

    fn up(&self) -> &str {
        "
        CREATE TABLE IF NOT EXISTS saved_places (
            id INTEGER PRIMARY KEY AUTOINCREMENT,
            type_id INTEGER,
            source TEXT NOT NULL,
            remote_id TEXT,
            name TEXT NOT NULL,
            address TEXT,
            lat REAL NOT NULL,
            lon REAL NOT NULL,
            created_at INTEGER NOT NULL
        );

        CREATE INDEX IF NOT EXISTS idx_saved_places_created_at ON saved_places(created_at);

        CREATE TABLE IF NOT EXISTS devices (
            id INTEGER PRIMARY KEY AUTOINCREMENT,
            remote_id TEXT NOT NULL UNIQUE,
            name TEXT NOT NULL,
            device_type TEXT NOT NULL,
            connection_type TEXT NOT NULL,
            paired INTEGER NOT NULL DEFAULT 0,
            last_connected INTEGER,
            firmware_version TEXT,
            battery_level INTEGER,
            created_at INTEGER NOT NULL,
            updated_at INTEGER NOT NULL
        );

        CREATE INDEX IF NOT EXISTS idx_devices_remote_id ON devices(remote_id);
        CREATE INDEX IF NOT EXISTS idx_devices_name ON devices(name);
        "
    }

    fn down(&self) -> (r: Option<&str>)
        ensures
            r is Some,
    {
        Some("
        DROP INDEX IF EXISTS idx_devices_name;
        DROP INDEX IF EXISTS idx_devices_remote_id;
        DROP TABLE IF EXISTS devices;
        DROP INDEX IF EXISTS idx_saved_places_created_at;
        DROP TABLE IF EXISTS saved_places;
        ")
    }
}

/// The table of downloaded offline map regions.
pub struct OfflineRegionsSchema {}

impl Migration for OfflineRegionsSchema {
    fn version(&self) -> (r: i64)
        ensures
            r == 20250212000000,
    {
        20250212000000
    }

    fn description(&self) -> &str {
        "Create offline_regions table for downloaded map regions"
    }

    fn up(&self) -> &str {
        "
        CREATE TABLE IF NOT EXISTS offline_regions (
            id TEXT PRIMARY KEY,
            name TEXT NOT NULL,
            north REAL NOT NULL,
            south REAL NOT NULL,
            east REAL NOT NULL,
            west REAL NOT NULL,
            min_zoom INTEGER NOT NULL,
            max_zoom INTEGER NOT NULL,
            relative_path TEXT NOT NULL,
            size_bytes INTEGER NOT NULL,
            created_at INTEGER NOT NULL
        );
        CREATE INDEX IF NOT EXISTS idx_offline_regions_created_at ON offline_regions(created_at);
        "
    }

    fn down(&self) -> (r: Option<&str>)
        ensures
            r is Some,
    {
        Some("
        DROP INDEX IF EXISTS idx_offline_regions_created_at;
        DROP TABLE IF EXISTS offline_regions;
        ")
    }
}

/// Every registered migration, in chronological order.
pub fn get_all_migrations() -> (r: Vec<Box<dyn Migration>>)
    ensures
        r@.len() == 1,
{
    let initial: Box<dyn Migration> = Box::new(InitialSchema {});
    let r: Vec<Box<dyn Migration>> = vec![initial];
    r
}

/// `s` is in strictly ascending order.
pub open spec fn strictly_ascending(s: Seq<i64>) -> bool {
    forall|i: int, j: int| 0 <= i < j < s.len() ==> s[i] < s[j]
}

/// Whether `versions` holds `v`.
pub fn holds_version(versions: &Vec<i64>, v: i64) -> (r: bool)
    ensures
        r == versions@.contains(v),
{
    let mut i: usize = 0;
    while i < versions.len()
        invariant
            i <= versions@.len(),
            forall|j: int| 0 <= j < i ==> versions@[j] != v,
        decreases versions@.len() - i,
    {
        if versions[i] == v {
            assert(versions@[i as int] == v);
            return true;
        }
        i = i + 1;
    }
    false
}

/// The versions of `available` that are not among `applied`, each once, in
/// ascending order: the migrations still to run, in the order to run them.
pub fn pending_versions(available: &Vec<i64>, applied: &Vec<i64>) -> (r: Vec<i64>)
    ensures
        strictly_ascending(r@),
        forall|v: i64| #[trigger]
            r@.contains(v) <==> (available@.contains(v) && !applied@.contains(v)),
{
    let mut r: Vec<i64> = Vec::new();
    let mut k: usize = 0;
    while k < available.len()
        invariant
            k <= available@.len(),
            strictly_ascending(r@),
            forall|v: i64| #[trigger]
                r@.contains(v) <==> (available@.subrange(0, k as int).contains(v)
                    && !applied@.contains(v)),
        decreases available@.len() - k,
    {
        let v = available[k];
        let ghost before = r@;
        proof {
            let pre = available@.subrange(0, k as int);
            let pre2 = available@.subrange(0, k + 1);
            assert(pre2 =~= pre.push(v));
            assert forall|x: i64| #[trigger] pre2.contains(x) <==> (pre.contains(x) || x == v) by {
                if pre2.contains(x) {
                    let i = choose|i: int| 0 <= i < pre2.len() && pre2[i] == x;
                    if i < k {
                        assert(pre[i] == x);
                    }
                }
                if pre.contains(x) {
                    let i = choose|i: int| 0 <= i < pre.len() && pre[i] == x;
                    assert(pre2[i] == x);
                }
                if x == v {
                    assert(pre2[k as int] == v);
                }
            }
        }
        let in_applied = holds_version(applied, v);
        let in_pending = holds_version(&r, v);
        if !in_applied && !in_pending {
            let mut p: usize = 0;
            while p < r.len() && r[p] < v
                invariant
                    p <= r@.len(),
                    r@ == before,
                    forall|j: int| 0 <= j < p ==> r@[j] < v,
                decreases r@.len() - p,
            {
                p = p + 1;
            }
            r.insert(p, v);
            proof {
                assert(r@ == before.insert(p as int, v));
                assert forall|i: int, j: int| 0 <= i < j < r@.len() implies r@[i] < r@[j] by {
                    if p < before.len() {
                        assert(before[p as int] >= v);
                        assert(before[p as int] != v) by {
                            assert(before.contains(before[p as int]));
                        }
                    }
                    if j < p {
                    } else if j == p {
                    } else if i < p {
                        assert(before[i] < v);
                        assert(before[p as int] > v || p == before.len());
                        if i < p && j > p {
                            assert(before[p as int] <= before[j - 1]);
                        }
                    } else if i == p {
                        assert(before[p as int] <= before[j - 1]);
                    }
                }
                assert forall|x: i64| #[trigger] r@.contains(x) <==> (before.contains(x) || x
                    == v) by {
                    if r@.contains(x) {
                        let i = choose|i: int| 0 <= i < r@.len() && r@[i] == x;
                        if i < p {
                            assert(before[i] == x);
                        } else if i > p {
                            assert(before[i - 1] == x);
                        }
                    }
                    if before.contains(x) {
                        let i = choose|i: int| 0 <= i < before.len() && before[i] == x;
                        if i < p {
                            assert(r@[i] == x);
                        } else {
                            assert(r@[i + 1] == x);
                        }
                    }
                    if x == v {
                        assert(r@[p as int] == v);
                    }
                }
            }
        }
        k = k + 1;
    }
    assert(available@.subrange(0, available@.len() as int) =~= available@);
    r
}

/// The last `steps` versions of `applied`, newest first: the migrations to
/// revert, in the order to revert them.
pub fn rollback_versions(applied: &Vec<i64>, steps: usize) -> (r: Vec<i64>)
    ensures
        r@.len() == if steps < applied@.len() {
            steps as int
        } else {
            applied@.len() as int
        },
        forall|i: int| 0 <= i < r@.len() ==> #[trigger] r@[i] == applied@[applied@.len() - 1 - i],
{
    let mut r: Vec<i64> = Vec::new();
    let n: usize = applied.len();
    while r.len() < steps && r.len() < n
        invariant
            n == applied@.len(),
            r@.len() <= n,
            r@.len() <= steps,
            forall|i: int| 0 <= i < r@.len() ==> #[trigger] r@[i] == applied@[n - 1 - i],
        decreases n - r@.len(),
    {
        let v = applied[n - 1 - r.len()];
        r.push(v);
    }
    r
}

} // verus!
