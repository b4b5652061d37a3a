//! Schema migrations for the catalog store.
//!
//! A migration is identified by its version; applying a set of pending
//! migrations records, in order, each version not already applied. The
//! catalog's own migration sequence is fixed; opening a store applies
//! whatever part of it is still pending.

use vstd::prelude::*;

use crate::store::CatalogStore;

verus! {

/// A schema migration: a version number and a human-readable name.
#[derive(Debug, Clone, Copy, PartialEq)]
pub struct Migration {
    /// The migration's version; versions are applied in sequence order
    /// and recorded once each.
    pub version: u32,
    /// A human-readable name, recorded alongside the version.
    pub name: &'static str,
}

/// The mathematical value of a [`Migration`].
#[verifier::ext_equal]
pub ghost struct MigrationVal {
    /// The migration's version.
    pub version: int,
    /// Its human-readable name.
    pub name: Seq<char>,
}

impl View for Migration {
    type V = MigrationVal;

    open spec fn view(&self) -> MigrationVal {
        MigrationVal { version: self.version as int, name: self.name@ }
    }
}

/// The views of a sequence of migrations.
pub open spec fn migrations_view(v: Seq<Migration>) -> Seq<MigrationVal> {
    Seq::new(v.len(), |i: int| v[i]@)
}

/// Whether a version is already recorded.
pub open spec fn version_applied(applied: Seq<(int, Seq<char>)>, version: int) -> bool {
    exists|i: int| 0 <= i < applied.len() && (#[trigger] applied[i]).0 == version
}

/// The record list after applying one migration: unchanged when its
/// version is already recorded, extended by one record otherwise.
pub open spec fn apply_one(applied: Seq<(int, Seq<char>)>, m: MigrationVal) -> Seq<(int, Seq<char>)> {
    if version_applied(applied, m.version) {
        applied
    } else {
        applied.push((m.version, m.name))
    }
}

/// The record list after applying a sequence of migrations in order.
pub open spec fn apply_all(
    applied: Seq<(int, Seq<char>)>,
    migs: Seq<MigrationVal>,
) -> Seq<(int, Seq<char>)>
    decreases migs.len(),
{
    if migs.len() == 0 {
        applied
    } else {
        apply_all(apply_one(applied, migs[0]), migs.drop_first())
    }
}

/// Migration safety: applying a migration sequence in one pass leaves the
/// same record as applying any leading part first and the rest later —
/// so a store migrated to version `k` and later upgraded ends up exactly
/// as one migrated in a single run.
pub proof fn lemma_migration_split(
    applied: Seq<(int, Seq<char>)>,
    migs: Seq<MigrationVal>,
    k: int,
)
    requires
        0 <= k <= migs.len(),
    ensures
        apply_all(applied, migs) == apply_all(
            apply_all(applied, migs.subrange(0, k)),
            migs.subrange(k, migs.len() as int),
        ),
    decreases k,
{
    if k == 0 {
        assert(migs.subrange(0, 0).len() == 0);
        assert(migs.subrange(0, migs.len() as int) =~= migs);
    } else {
        let head = migs[0];
        let rest = migs.drop_first();
        assert(migs.subrange(0, k)[0] == head);
        assert(migs.subrange(0, k).drop_first() =~= rest.subrange(0, k - 1));
        assert(migs.subrange(k, migs.len() as int) =~= rest.subrange(k - 1, rest.len() as int));
        lemma_migration_split(apply_one(applied, head), rest, k - 1);
    }
}

/// The catalog's migration sequence, as mathematical values.
pub open spec fn spec_catalog_migrations() -> Seq<MigrationVal> {
    seq![
        MigrationVal { version: 1, name: "initial_schema"@ },
        MigrationVal { version: 2, name: "vocabulary_tables"@ },
    ]
}

/// The catalog's migration sequence: the initial entity schema, then the
/// vocabulary tables.
pub fn catalog_migrations() -> (r: Vec<Migration>)
    ensures
        migrations_view(r@) == spec_catalog_migrations(),
{
    let mut r: Vec<Migration> = Vec::new();
    r.push(Migration { version: 1, name: "initial_schema" });
    r.push(Migration { version: 2, name: "vocabulary_tables" });
    proof {
        assert(migrations_view(r@) =~= spec_catalog_migrations());
    }
    r
}

impl CatalogStore {
    /// Apply every pending migration, in order, recording each version
    /// not already recorded; everything else in the store is untouched.
    pub fn apply_migrations(&mut self, migrations: &Vec<Migration>)
        ensures
            final(self)@ == (crate::store::StoreVal {
                migrations: apply_all(old(self)@.migrations, migrations_view(migrations@)),
                ..old(self)@
            }),
    {
        let ghost migs = migrations_view(migrations@);
        let mut i: usize = 0;
        proof {
            assert(migs.subrange(0, migs.len() as int) =~= migs);
            assert(self@ =~= (crate::store::StoreVal {
                migrations: apply_all(self@.migrations, migs.subrange(0, 0)),
                ..self@
            }));
        }
        while i < migrations.len()
            invariant
                migs == migrations_view(migrations@),
                i <= migs.len(),
                self@ == (crate::store::StoreVal {
                    migrations: apply_all(old(self)@.migrations, migs.subrange(0, i as int)),
                    ..old(self)@
                }),
            decreases migs.len() - i,
        {
            let m = &migrations[i];
            let mut seen = false;
            let mut j: usize = 0;
            while j < self.migrations.len()
                invariant
                    j <= self@.migrations.len(),
                    m == &migrations@[i as int],
                    seen ==> version_applied(self@.migrations, m@.version),
                    !seen ==> forall|k: int|
                        0 <= k < j ==> (#[trigger] self@.migrations[k]).0 != m@.version,
                    seen ==> j == self@.migrations.len(),
                decreases self@.migrations.len() - j,
            {
                if self.migrations[j].0 == m.version {
                    proof {
                        assert(self@.migrations[j as int].0 == m@.version);
                    }
                    seen = true;
                    j = self.migrations.len();
                } else {
                    j += 1;
                }
            }
            let ghost before = self@;
            if !seen {
                proof {
                    assert(!version_applied(self@.migrations, m@.version));
                }
                self.migrations.push((m.version, m.name.to_owned()));
                proof {
                    assert(self@.migrations =~= before.migrations.push((m@.version, m@.name)));
                    assert(self@ =~= (crate::store::StoreVal {
                        migrations: apply_one(before.migrations, m@),
                        ..before
                    }));
                }
            } else {
                proof {
                    assert(self@ =~= (crate::store::StoreVal {
                        migrations: apply_one(before.migrations, m@),
                        ..before
                    }));
                }
            }
            proof {
                lemma_migration_split(old(self)@.migrations, migs.subrange(0, i + 1), i as int);
                assert(migs.subrange(0, i + 1).subrange(0, i as int) =~= migs.subrange(
                    0,
                    i as int,
                ));
                assert(migs.subrange(0, i + 1).subrange(i as int, i + 1) =~= seq![migs[i as int]]);
                assert(m@ == migs[i as int]);
                assert(before.migrations == apply_all(
                    old(self)@.migrations,
                    migs.subrange(0, i as int),
                ));
                assert(apply_all(
                    apply_all(old(self)@.migrations, migs.subrange(0, i as int)),
                    seq![migs[i as int]],
                ) == apply_one(before.migrations, m@)) by {
                    assert(seq![migs[i as int]][0] == migs[i as int]);
                    assert(seq![migs[i as int]].drop_first() =~= Seq::<MigrationVal>::empty());
                    assert(apply_all(apply_one(before.migrations, migs[i as int]),
                        seq![migs[i as int]].drop_first()) == apply_one(
                        before.migrations,
                        migs[i as int],
                    ));
                }
                assert(self@ =~= (crate::store::StoreVal {
                    migrations: apply_all(old(self)@.migrations, migs.subrange(0, i + 1)),
                    ..old(self)@
                }));
            }
            i += 1;
        }
        proof {
            assert(migs.subrange(0, migs.len() as int) =~= migs);
        }
    }

    /// Open a fresh catalog: an empty store with the catalog's migration
    /// sequence applied.
    pub fn open() -> (r: CatalogStore)
        ensures
            r@.wf(),
            r@.works.len() == 0,
            r@.items.len() == 0,
            r@.assertions.len() == 0,
            r@.migrations == apply_all(
                Seq::<(int, Seq<char>)>::empty(),
                spec_catalog_migrations(),
            ),
    {
        let mut store = CatalogStore::new();
        proof {
            assert(store@.migrations =~= Seq::<(int, Seq<char>)>::empty());
        }
        let migs = catalog_migrations();
        store.apply_migrations(&migs);
        store
    }
}

} // verus!
