//! The schema migrations, in order, and which of them a database at a given
//! version still needs.

use vstd::prelude::*;

verus! {

/// One migration step: its version, its name and the SQL script that
/// performs it, by file name in the `migrations` directory.
#[derive(Clone, Copy, Debug)]
pub struct Migration {
    pub version: u32,
    pub name: &'static str,
    pub sql_file: &'static str,
}

/// The versions of the migrations, in the order they are applied.
pub open spec fn migration_versions() -> Seq<u32> {
    seq![1u32, 2, 3, 4, 5, 6]
}

/// All migrations, in order of version.
pub fn get_migrations() -> (ms: Vec<Migration>)
    ensures
        ms@.len() == 6,
        forall|i: int| 0 <= i < 6 ==> #[trigger] ms@[i].version == migration_versions()[i],
        ms@[0].name@ == "create_core_tables"@ && ms@[0].sql_file@ == "001_init.sql"@,
        ms@[1].name@ == "add_performance_indexes"@ && ms@[1].sql_file@ == "002_add_indexes.sql"@,
        ms@[2].name@ == "api_key_direct_storage"@ && ms@[2].sql_file@ == "003_api_key.sql"@,
        ms@[3].name@ == "cost_tracking"@ && ms@[3].sql_file@ == "004_cost_tracking.sql"@,
        ms@[4].name@ == "add_use_batch_api"@ && ms@[4].sql_file@ == "005_add_use_batch_api.sql"@,
        ms@[5].name@ == "add_segment_cost"@ && ms@[5].sql_file@ == "006_add_segment_cost.sql"@,
{
    let mut ms: Vec<Migration> = Vec::new();
    ms.push(Migration { version: 1, name: "create_core_tables", sql_file: "001_init.sql" });
    ms.push(Migration { version: 2, name: "add_performance_indexes", sql_file: "002_add_indexes.sql" });
    ms.push(Migration { version: 3, name: "api_key_direct_storage", sql_file: "003_api_key.sql" });
    ms.push(Migration { version: 4, name: "cost_tracking", sql_file: "004_cost_tracking.sql" });
    ms.push(Migration { version: 5, name: "add_use_batch_api", sql_file: "005_add_use_batch_api.sql" });
    ms.push(Migration { version: 6, name: "add_segment_cost", sql_file: "006_add_segment_cost.sql" });
    ms
}

/// The migrations a database at version `current` still needs: those of a
/// higher version, in order.
pub fn pending_migrations(current: u32) -> (ms: Vec<Migration>)
    ensures
        ms@.map_values(|m: Migration| m.version) == migration_versions().filter(|v: u32| v > current),
{
    let all = get_migrations();
    let mut ms: Vec<Migration> = Vec::new();
    let mut i: usize = 0;
    while i < all.len()
        invariant
            i <= all.len(),
            all@.len() == 6,
            forall|k: int| 0 <= k < 6 ==> #[trigger] all@[k].version == migration_versions()[k],
            ms@.map_values(|m: Migration| m.version) == migration_versions().take(i as int).filter(|v: u32| v > current),
        decreases all.len() - i,
    {
        let m = all[i];
        proof {
            let vs = migration_versions();
            assert(vs.take(i + 1).drop_last() =~= vs.take(i as int));
            vs.take(i + 1).filter_lemma(|v: u32| v > current);
            reveal(Seq::filter);
        }
        if m.version > current {
            ms.push(m);
        }
        proof {
            let vs = migration_versions();
            assert(vs.take(i + 1).drop_last() =~= vs.take(i as int));
            assert(vs.take(i + 1).last() == m.version);
            if m.version > current {
                assert(ms@.map_values(|m: Migration| m.version) =~= ms@.drop_last().map_values(|m: Migration| m.version).push(m.version));
            } else {
            }
        }
        i = i + 1;
    }
    proof {
        assert(migration_versions().take(6) =~= migration_versions());
    }
    ms
}

/// The versions still to apply at version `current`.
pub open spec fn pending_versions(current: u32) -> Seq<u32> {
    migration_versions().filter(|v: u32| v > current)
}

/// The version a database reaches by applying what is pending at `current`:
/// the last pending version, or `current` when nothing is pending.
pub open spec fn version_after(current: u32) -> u32 {
    let p = pending_versions(current);
    if p.len() == 0 { current } else { p.last() }
}

/// Applying the pending migrations runs each newer version once, in
/// ascending order, and leaves the database at the larger of its version
/// and the last migration's; applying again then runs nothing.
pub proof fn lemma_migrations_idempotent(current: u32)
    ensures
        forall|i: int, j: int| 0 <= i < j < pending_versions(current).len()
            ==> pending_versions(current)[i] < pending_versions(current)[j],
        forall|i: int| 0 <= i < pending_versions(current).len() ==> pending_versions(current)[i] > current,
        version_after(current) == if current >= 6 { current } else { 6 },
        pending_versions(version_after(current)).len() == 0,
{
    reveal_with_fuel(Seq::filter, 7);
    let vs = migration_versions();
    if current >= 6 {
        assert(pending_versions(current) =~= Seq::<u32>::empty());
    } else if current == 5 {
        assert(pending_versions(current) =~= seq![6u32]);
    } else if current == 4 {
        assert(pending_versions(current) =~= seq![5u32, 6]);
    } else if current == 3 {
        assert(pending_versions(current) =~= seq![4u32, 5, 6]);
    } else if current == 2 {
        assert(pending_versions(current) =~= seq![3u32, 4, 5, 6]);
    } else if current == 1 {
        assert(pending_versions(current) =~= seq![2u32, 3, 4, 5, 6]);
    } else {
        assert(pending_versions(current) =~= seq![1u32, 2, 3, 4, 5, 6]);
    }
    assert(pending_versions(6) =~= Seq::<u32>::empty());
}

} // verus!
