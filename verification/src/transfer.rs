//! Which files can be taken for saves.
use crate::errors::StoreError;
use crate::store::DATABASE_SCHEMA_VERSION;
use crate::text::same_text;
use vstd::prelude::*;

verus! {

/// How large a save can be: 256 MiB.
pub const MAX_SAVE_BYTES: u64 = 268_435_456;

/// What a function that looks at a save returns: success, or a report of damage.
pub open spec fn reports(r: Result<(), StoreError>, good: bool, report: Seq<char>) -> bool {
    if good {
        r is Ok
    } else {
        r matches Err(StoreError::Integrity(text)) && text@ == report
    }
}

/// A save has some bytes and not too many.
pub fn check_size(size: u64) -> (r: Result<(), StoreError>)
    ensures
        reports(r, 0 < size <= MAX_SAVE_BYTES, "save size outside supported limits"@),
{
    if size == 0 || size > MAX_SAVE_BYTES {
        return Err(StoreError::Integrity("save size outside supported limits".to_owned()));
    }
    Ok(())
}

/// A save has the version of these tables.
pub fn check_save_version(version: i64) -> (r: Result<(), StoreError>)
    ensures
        match r {
            Ok(_) => version == DATABASE_SCHEMA_VERSION,
            Err(e) => version != DATABASE_SCHEMA_VERSION && e == (StoreError::UnsupportedSchema {
                actual: version,
                expected: DATABASE_SCHEMA_VERSION,
            }),
        },
{
    if version != DATABASE_SCHEMA_VERSION {
        return Err(
            StoreError::UnsupportedSchema { actual: version, expected: DATABASE_SCHEMA_VERSION },
        );
    }
    Ok(())
}

/// One entry of the schema of a file: its type, its name and how it is made.
#[derive(Clone, Debug)]
pub struct SchemaEntry {
    pub entry_type: String,
    pub name: String,
    pub sql: Option<String>,
}

/// An entry of a schema, as a mathematical value.
pub ghost struct EntryModel {
    pub entry_type: Seq<char>,
    pub name: Seq<char>,
    pub sql: Option<Seq<char>>,
}

impl View for SchemaEntry {
    type V = EntryModel;

    open spec fn view(&self) -> EntryModel {
        EntryModel {
            entry_type: self.entry_type@,
            name: self.name@,
            sql: match self.sql {
                Some(text) => Some(text@),
                None => None,
            },
        }
    }
}

/// A schema, as a mathematical value.
pub open spec fn schema_model(entries: Seq<SchemaEntry>) -> Seq<EntryModel> {
    entries.map_values(|e: SchemaEntry| e@)
}

fn same_entry(a: &SchemaEntry, b: &SchemaEntry) -> (r: bool)
    ensures
        r == (a@ == b@),
{
    let same_sql: bool = match (&a.sql, &b.sql) {
        (Some(x), Some(y)) => same_text(x.as_str(), y.as_str()),
        (None, None) => true,
        _ => false,
    };
    same_sql && same_text(a.entry_type.as_str(), b.entry_type.as_str()) && same_text(
        a.name.as_str(),
        b.name.as_str(),
    )
}

/// A save has exactly these tables.
pub fn check_schema(saved: &Vec<SchemaEntry>, expected: &Vec<SchemaEntry>) -> (r: Result<
    (),
    StoreError,
>)
    ensures
        reports(
            r,
            schema_model(saved@) == schema_model(expected@),
            "save schema does not match this build"@,
        ),
{
    let mut same: bool = saved.len() == expected.len();
    proof {
        if !same {
            assert(schema_model(saved@).len() != schema_model(expected@).len());
        }
    }
    let mut i: usize = 0;
    while same && i < saved.len()
        invariant
            same ==> i <= saved@.len() == expected@.len(),
            same ==> forall|j: int| 0 <= j < i ==> #[trigger] saved@[j]@ == expected@[j]@,
            !same ==> schema_model(saved@) != schema_model(expected@),
        decreases saved@.len() - i,
    {
        if !same_entry(&saved[i], &expected[i]) {
            proof {
                assert(schema_model(saved@)[i as int] != schema_model(expected@)[i as int]);
            }
            same = false;
        }
        i = i + 1;
    }
    proof {
        if same {
            assert(schema_model(saved@) =~= schema_model(expected@));
        }
    }
    if !same {
        return Err(StoreError::Integrity("save schema does not match this build".to_owned()));
    }
    Ok(())
}

/// A save is whole, and its rows belong together.
pub fn check_health(report: &str, broken_keys: bool) -> (r: Result<(), StoreError>)
    ensures
        reports(
            r,
            report@ == "ok"@ && !broken_keys,
            "save integrity or foreign key check failed"@,
        ),
{
    if !same_text(report, "ok") || broken_keys {
        return Err(StoreError::Integrity("save integrity or foreign key check failed".to_owned()));
    }
    Ok(())
}

/// A save is not copied onto itself.
pub fn check_distinct(same: bool) -> (r: Result<(), StoreError>)
    ensures
        reports(r, !same, "source and destination must differ"@),
{
    if same {
        return Err(StoreError::Integrity("source and destination must differ".to_owned()));
    }
    Ok(())
}

/// A copy is good only when it is complete.
pub fn check_complete(done: bool) -> (r: Result<(), StoreError>)
    ensures
        reports(r, done, "save is busy; retry before starting the game"@),
{
    if !done {
        return Err(
            StoreError::Integrity("save is busy; retry before starting the game".to_owned()),
        );
    }
    Ok(())
}

} // verus!
