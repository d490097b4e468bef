//! The on-disk schema of the column-family database: which column
//! families a database may hold, how its schema version is stored, and
//! the open sequence that migrates older layouts. The database engine
//! itself is driven by the caller; these functions make every decision.

use vstd::prelude::*;

use crate::storage::{SchemaProblem, StorageError};

verus! {

/// The schema version this binary writes.
pub const SCHEMA_VERSION_CURRENT: u32 = 3;

/// Every column family this binary knows.
pub open spec fn known_cfs() -> Seq<Seq<char>> {
    seq![
        "default"@, "accounts"@, "blocks"@, "transactions"@, "meta"@, "height_index"@,
        "tx_seq_index"@, "receipts"@, "tasks"@,
    ]
}

/// The column families every database, even the oldest layout, holds.
pub open spec fn required_cfs() -> Seq<Seq<char>> {
    seq!["accounts"@, "blocks"@, "transactions"@, "meta"@, "height_index"@, "tx_seq_index"@]
}

/// The column families later versions added, in the order they came.
pub open spec fn migration_cfs() -> Seq<Seq<char>> {
    seq!["receipts"@, "tasks"@]
}

/// The names of a list of strings.
pub open spec fn names(s: Seq<String>) -> Seq<Seq<char>> {
    Seq::new(s.len(), |i: int| s[i]@)
}

fn push_name(v: &mut Vec<String>, s: &str)
    ensures
        names(final(v)@) == names(old(v)@).push(s@),
{
    let ghost pre = v@;
    v.push(s.to_owned());
    proof {
        assert(names(v@) =~= names(pre).push(s@));
    }
}

/// The known column families.
pub fn known_cf_names() -> (r: Vec<String>)
    ensures
        names(r@) == known_cfs(),
{
    let mut v: Vec<String> = Vec::new();
    push_name(&mut v, "default");
    push_name(&mut v, "accounts");
    push_name(&mut v, "blocks");
    push_name(&mut v, "transactions");
    push_name(&mut v, "meta");
    push_name(&mut v, "height_index");
    push_name(&mut v, "tx_seq_index");
    push_name(&mut v, "receipts");
    push_name(&mut v, "tasks");
    proof {
        assert(names(v@) =~= known_cfs());
    }
    v
}

/// The required column families.
pub fn required_cf_names() -> (r: Vec<String>)
    ensures
        names(r@) == required_cfs(),
{
    let mut v: Vec<String> = Vec::new();
    push_name(&mut v, "accounts");
    push_name(&mut v, "blocks");
    push_name(&mut v, "transactions");
    push_name(&mut v, "meta");
    push_name(&mut v, "height_index");
    push_name(&mut v, "tx_seq_index");
    proof {
        assert(names(v@) =~= required_cfs());
    }
    v
}

/// The column families the migrations create.
pub fn migration_cf_names() -> (r: Vec<String>)
    ensures
        names(r@) == migration_cfs(),
{
    let mut v: Vec<String> = Vec::new();
    push_name(&mut v, "receipts");
    push_name(&mut v, "tasks");
    proof {
        assert(names(v@) =~= migration_cfs());
    }
    v
}

/// Whether `name` is one of `list`.
pub fn contains_name(list: &Vec<String>, name: &String) -> (r: bool)
    ensures
        r == names(list@).contains(name@),
{
    let mut i: usize = 0;
    while i < list.len()
        invariant
            0 <= i <= list@.len(),
            forall|j: int| 0 <= j < i ==> list@[j]@ != name@,
        decreases list@.len() - i,
    {
        if list[i] == *name {
            proof {
                assert(names(list@)[i as int] == name@);
            }
            return true;
        }
        i += 1;
    }
    false
}

/// The first step of opening a database.
#[derive(Clone, Copy, Debug, PartialEq, Eq)]
pub enum OpenStep {
    /// No database exists at the path: create one with every known column
    /// family and stamp the current version.
    CreateFresh,
    /// Open exactly the listed column families, then read the version.
    OpenExisting,
}

/// What the rest of an open must do: create these column families, then
/// stamp the current version when `stamp` says so.
#[derive(Debug, PartialEq, Eq)]
pub struct MigrationPlan {
    pub create: Vec<String>,
    pub stamp: bool,
}

/// The layout of an opened database: its column families and the schema
/// version it carries.
#[derive(Debug, PartialEq, Eq)]
pub struct RocksDbStorage {
    column_families: Vec<String>,
    schema_version: u32,
}

/// The stored schema version: absent means the oldest layout (1); four
/// bytes are a big-endian number; anything else is malformed.
pub open spec fn spec_schema_version(stored: Option<Seq<u8>>) -> Option<u32> {
    match stored {
        None => Some(1),
        Some(b) => if b.len() == 4 {
            Some((b[0] * 16777216 + b[1] * 65536 + b[2] * 256 + b[3]) as u32)
        } else {
            None
        },
    }
}

/// Decodes the stored schema version.
pub fn read_schema_version(stored: Option<&Vec<u8>>) -> (r: Result<u32, StorageError>)
    ensures
        match spec_schema_version(
            match stored {
                Some(b) => Some(b@),
                None => None,
            },
        ) {
            Some(v) => r == Ok::<u32, StorageError>(v),
            None => r matches Err(StorageError::Schema(SchemaProblem::MalformedVersion)),
        },
{
    match stored {
        None => Ok(1),
        Some(b) => {
            if b.len() != 4 {
                return Err(StorageError::Schema(SchemaProblem::MalformedVersion));
            }
            let v: u64 = (b[0] as u64) * 16777216 + (b[1] as u64) * 65536 + (b[2] as u64) * 256
                + (b[3] as u64);
            Ok(v as u32)
        },
    }
}

/// The stored form of a schema version.
pub fn write_schema_version(version: u32) -> (r: Vec<u8>)
    ensures
        spec_schema_version(Some(r@)) == Some(version),
        r@.len() == 4,
{
    let mut out: Vec<u8> = Vec::new();
    out.push((version / 16777216) as u8);
    out.push(((version / 65536) % 256) as u8);
    out.push(((version / 256) % 256) as u8);
    out.push((version % 256) as u8);
    proof {
        let b = out@;
        assert(b[0] * 16777216 + b[1] * 65536 + b[2] * 256 + b[3] == version);
    }
    out
}

/// Every name in `list` is known.
pub open spec fn all_known(list: Seq<Seq<char>>) -> bool {
    forall|k: int| 0 <= k < list.len() ==> known_cfs().contains(#[trigger] list[k])
}

/// Every required column family is in `list`.
pub open spec fn all_required_present(list: Seq<Seq<char>>) -> bool {
    forall|j: int| 0 <= j < required_cfs().len() ==> list.contains(#[trigger] required_cfs()[j])
}

/// `n` is the first name in `l` that is not known.
pub open spec fn first_unknown_is(l: Seq<Seq<char>>, n: Seq<char>) -> bool {
    exists|k: int| 0 <= k < l.len() && #[trigger] l[k] == n && !known_cfs().contains(n) && all_known(l.take(k))
}

/// `n` is the first required name (in required order) absent from `l`.
pub open spec fn first_missing_is(l: Seq<Seq<char>>, n: Seq<char>) -> bool {
    exists|j: int|
        0 <= j < required_cfs().len() && #[trigger] required_cfs()[j] == n && !l.contains(n) && forall|i: int|
            0 <= i < j ==> l.contains(#[trigger] required_cfs()[i])
}

impl RocksDbStorage {
    /// The column families of the opened database.
    pub closed spec fn spec_column_families(&self) -> Seq<Seq<char>> {
        names(self.column_families@)
    }

    /// The schema version of the opened database.
    pub closed spec fn spec_schema_version(&self) -> u32 {
        self.schema_version
    }

    /// Decides how to open a database whose existing column families are
    /// `existing` (`None` when no database exists at the path). A column
    /// family this binary does not know is refused first (the first one
    /// listed); then a missing required one (the first in required order).
    pub fn open(existing: Option<&Vec<String>>) -> (r: Result<OpenStep, StorageError>)
        ensures
            existing is None <==> r matches Ok(OpenStep::CreateFresh),
            r matches Ok(OpenStep::OpenExisting) ==> existing matches Some(list) && all_known(names(list@))
                && all_required_present(names(list@)),
            r matches Err(StorageError::Schema(SchemaProblem::UnknownColumnFamily(n))) ==> existing matches Some(
                list,
            ) && first_unknown_is(names(list@), n@),
            r matches Err(StorageError::Schema(SchemaProblem::MissingColumnFamily(n))) ==> existing matches Some(
                list,
            ) && all_known(names(list@)) && first_missing_is(names(list@), n@),
            r is Err ==> (r matches Err(StorageError::Schema(SchemaProblem::UnknownColumnFamily(_))) || r matches Err(
                StorageError::Schema(SchemaProblem::MissingColumnFamily(_)),
            )),
    {
        let list = match existing {
            None => return Ok(OpenStep::CreateFresh),
            Some(l) => l,
        };
        let ghost l = names(list@);
        let known = known_cf_names();
        let mut k: usize = 0;
        while k < list.len()
            invariant
                0 <= k <= list@.len(),
                existing == Some(list),
                l == names(list@),
                names(known@) == known_cfs(),
                all_known(l.take(k as int)),
            decreases list@.len() - k,
        {
            if !contains_name(&known, &list[k]) {
                let n = list[k].clone();
                proof {
                    assert(l[k as int] == n@);
                    assert(!known_cfs().contains(l[k as int]));
                    assert(0 <= k < l.len() && l[k as int] == n@ && !known_cfs().contains(l[k as int])
                        && all_known(l.take(k as int)));
                    assert(exists|kk: int|
                        0 <= kk < l.len() && #[trigger] l[kk] == n@ && !known_cfs().contains(l[kk])
                            && all_known(l.take(kk)));
                    assert(existing == Some(list));
                }
                return Err(StorageError::Schema(SchemaProblem::UnknownColumnFamily(n)));
            }
            proof {
                assert forall|i: int| 0 <= i < k + 1 implies known_cfs().contains(
                    #[trigger] l.take(k + 1)[i],
                ) by {
                    if i < k {
                        assert(l.take(k + 1)[i] == l.take(k as int)[i]);
                    }
                }
            }
            k += 1;
        }
        proof {
            assert(l.take(list@.len() as int) =~= l);
        }
        let required = required_cf_names();
        let mut j: usize = 0;
        while j < required.len()
            invariant
                0 <= j <= required@.len(),
                existing == Some(list),
                l == names(list@),
                all_known(l),
                names(required@) == required_cfs(),
                forall|i: int| 0 <= i < j ==> l.contains(#[trigger] required_cfs()[i]),
            decreases required@.len() - j,
        {
            if !contains_name(list, &required[j]) {
                let n = required[j].clone();
                proof {
                    assert(required_cfs()[j as int] == n@);
                    assert(!l.contains(n@));
                }
                return Err(StorageError::Schema(SchemaProblem::MissingColumnFamily(n)));
            }
            j += 1;
        }
        Ok(OpenStep::OpenExisting)
    }

    /// The layout of a freshly created database: every known column family
    /// but "default" (which the engine always has) and the current version.
    pub fn create_fresh() -> (r: (RocksDbStorage, Vec<String>))
        ensures
            names(r.1@) == known_cfs().drop_first(),
            r.0.spec_column_families() == known_cfs(),
            r.0.spec_schema_version() == SCHEMA_VERSION_CURRENT,
    {
        let known = known_cf_names();
        proof {
            assert(names(known@).len() == known@.len());
        }
        let mut create: Vec<String> = Vec::new();
        proof {
            assert(names(create@) =~= known_cfs().subrange(1, 1));
        }
        let mut i: usize = 1;
        while i < known.len()
            invariant
                1 <= i <= known@.len(),
                names(known@) == known_cfs(),
                names(create@) == known_cfs().subrange(1, i as int),
            decreases known@.len() - i,
        {
            let ghost pre = create@;
            let c = known[i].clone();
            create.push(c);
            proof {
                assert(names(pre).len() == pre.len());
                assert(create@ == pre.push(c));
                assert(c@ == known_cfs()[i as int]);
                assert(names(create@) =~= known_cfs().subrange(1, i + 1));
            }
            i += 1;
        }
        proof {
            assert(known_cfs().subrange(1, 9) =~= known_cfs().drop_first());
        }
        (RocksDbStorage { column_families: known, schema_version: SCHEMA_VERSION_CURRENT }, create)
    }

    /// Completes an open once the existing column families `present` are
    /// open and the stored version bytes are read: refuses a newer schema
    /// before any change, plans the creation of each absent migration
    /// column family, and stamps the current version when the stored one
    /// is older. Returns the resulting layout and the plan.
    pub fn finish_open(present: Vec<String>, stored_version: Option<&Vec<u8>>) -> (r: Result<(RocksDbStorage, MigrationPlan), StorageError>)
        ensures
            match spec_schema_version(
                match stored_version {
                    Some(b) => Some(b@),
                    None => None,
                },
            ) {
                None => r matches Err(StorageError::Schema(SchemaProblem::MalformedVersion)),
                Some(v) => if v > SCHEMA_VERSION_CURRENT {
                    r matches Err(StorageError::Schema(SchemaProblem::NewerVersion { found, supported }))
                        && found == v && supported == SCHEMA_VERSION_CURRENT
                } else {
                    r matches Ok((db, plan)) && names(plan.create@) == migration_cfs().filter(
                        |c: Seq<char>| !names(present@).contains(c),
                    ) && plan.stamp == (v < SCHEMA_VERSION_CURRENT) && db.spec_column_families()
                        == names(present@) + names(plan.create@) && db.spec_schema_version()
                        == SCHEMA_VERSION_CURRENT
                },
            },
    {
        let version = match read_schema_version(stored_version) {
            Err(e) => return Err(e),
            Ok(v) => v,
        };
        if version > SCHEMA_VERSION_CURRENT {
            return Err(
                StorageError::Schema(
                    SchemaProblem::NewerVersion { found: version, supported: SCHEMA_VERSION_CURRENT },
                ),
            );
        }
        let migrations = migration_cf_names();
        let ghost m = migration_cfs();
        let ghost pred = |c: Seq<char>| !names(present@).contains(c);
        let mut create: Vec<String> = Vec::new();
        let mut i: usize = 0;
        while i < migrations.len()
            invariant
                0 <= i <= migrations@.len(),
                names(migrations@) == m,
                m == migration_cfs(),
                pred == (|c: Seq<char>| !names(present@).contains(c)),
                names(create@) == m.take(i as int).filter(pred),
            decreases migrations@.len() - i,
        {
            proof {
                assert(m.take(i + 1) =~= m.take(i as int).push(m[i as int]));
                m.take(i as int).lemma_filter_push(m[i as int], pred);
            }
            if !contains_name(&present, &migrations[i]) {
                let ghost pre = create@;
                create.push(migrations[i].clone());
                proof {
                    assert(names(create@) =~= names(pre).push(m[i as int]));
                }
            }
            i += 1;
        }
        proof {
            assert(m.take(2) =~= m);
        }
        let mut all = present;
        let ghost before = names(all@);
        let mut k: usize = 0;
        while k < create.len()
            invariant
                0 <= k <= create@.len(),
                names(all@) == before + names(create@).take(k as int),
            decreases create@.len() - k,
        {
            let ghost pre = all@;
            let c = create[k].clone();
            all.push(c);
            proof {
                assert(names(pre).len() == pre.len());
                assert(names(create@).len() == create@.len());
                assert(all@ == pre.push(c));
                assert(c@ == names(create@)[k as int]);
                assert(names(create@).take(k + 1) =~= names(create@).take(k as int).push(c@));
                assert(names(all@) =~= names(pre).push(c@));
                assert(names(all@) =~= before + names(create@).take(k + 1));
            }
            k += 1;
        }
        proof {
            assert(names(create@).take(create@.len() as int) =~= names(create@));
        }
        let plan = MigrationPlan { create, stamp: version < SCHEMA_VERSION_CURRENT };
        Ok((RocksDbStorage { column_families: all, schema_version: SCHEMA_VERSION_CURRENT }, plan))
    }

    /// The schema version of the opened database.
    pub fn schema_version(&self) -> (r: u32)
        ensures
            r == self.spec_schema_version(),
    {
        self.schema_version
    }

    /// The column families of the opened database.
    pub fn column_families(&self) -> (r: &Vec<String>)
        ensures
            names(r@) == self.spec_column_families(),
    {
        &self.column_families
    }
}

} // verus!
