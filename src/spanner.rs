//! The destination store: its database name and the statements that the
//! migration sends to it.

use vstd::prelude::*;
use crate::collections::{
    default_entries, first_bad_row, merged, all_rows_ok, resolved_id, Collection, Collections, Entry,
};
use crate::error::MigrationError;
use crate::records::{sort_index_or_zero, Bso, User};
use crate::sql::{build_insert, column_names, insert_text, SqlValue};
use crate::text::{int_literal, string_literal};

verus! {

broadcast use vstd::string::group_string_axioms;

/// Reads the destination's collections that are in use, one row of id and
/// name per collection id, in order of id.
pub const COLLECTIONS_QUERY: &'static str = "SELECT DISTINCT uc.collection_id, cc.name FROM user_collections AS uc, collections AS cc WHERE uc.collection_id = cc.collection_id ORDER BY uc.collection_id";

/// Whether `url::Url::parse` accepts the text as an absolute URL.
pub uninterp spec fn url_parses(raw: Seq<char>) -> bool;

/// The host that `url::Url::host_str` gives for the parsed text.
pub uninterp spec fn url_host(raw: Seq<char>) -> Option<Seq<char>>;

/// The path that `url::Url::path` gives for the parsed text.
pub uninterp spec fn url_path(raw: Seq<char>) -> Seq<char>;

/// The text of the `url::ParseError` for text that does not parse.
pub uninterp spec fn url_error(raw: Seq<char>) -> Seq<char>;

/// Relies on `url::Url::parse` to read the DSN, on `Url::host_str` and
/// `Url::path` for its host and path, and on the error's `Display` text.
#[verifier::external_body]
fn parse_url(raw: &str) -> (r: Result<(Option<String>, String), String>)
    ensures
        r is Ok <==> url_parses(raw@),
        r matches Ok((h, p)) ==> p@ == url_path(raw@) && match h {
            Some(h) => url_host(raw@) == Some(h@),
            None => url_host(raw@) is None,
        },
        r matches Err(e) ==> e@ == url_error(raw@),
{
    match url::Url::parse(raw) {
        Ok(u) => Ok((u.host_str().map(|h| h.to_owned()), u.path().to_owned())),
        Err(e) => Err(e.to_string()),
    }
}

/// The database name that a DSN denotes: its host followed by its path.
pub open spec fn database_name_of(raw: Seq<char>) -> Option<Seq<char>> {
    if url_parses(raw) {
        match url_host(raw) {
            Some(h) => Some(h + url_path(raw)),
            None => None,
        }
    } else {
        None
    }
}

/// Why a DSN names no database.
pub open spec fn dsn_problem(raw: Seq<char>) -> Seq<char> {
    if url_parses(raw) {
        "the URL has no host"@
    } else {
        url_error(raw)
    }
}

/// The database name of a DSN: its host followed by its path.
fn get_path(raw: &str) -> (r: Result<String, MigrationError>)
    ensures
        match r {
            Ok(name) => database_name_of(raw@) == Some(name@),
            Err(MigrationError::InvalidDsn { dsn, reason }) => database_name_of(raw@) is None && dsn@ == raw@
                && reason@ == dsn_problem(raw@),
            Err(_) => false,
        },
{
    match parse_url(raw) {
        Ok((Some(host), path)) => {
            let mut name = host;
            name.append(path.as_str());
            Ok(name)
        },
        Ok((None, _)) => Err(
            MigrationError::InvalidDsn {
                dsn: String::from_str(raw),
                reason: String::from_str("the URL has no host"),
            },
        ),
        Err(e) => Err(MigrationError::InvalidDsn { dsn: String::from_str(raw), reason: e }),
    }
}

/// The destination's columns of the collection definitions.
pub open spec fn collection_columns() -> Seq<Seq<char>> {
    seq!["collection_id"@, "name"@]
}

/// The destination's columns of a user's collections.
pub open spec fn user_collection_columns() -> Seq<Seq<char>> {
    seq!["collection_id"@, "fxa_kid"@, "fxa_uid"@, "modified"@]
}

/// The destination's columns of a record.
pub open spec fn bso_columns() -> Seq<Seq<char>> {
    seq![
        "collection_id"@,
        "fxa_kid"@,
        "fxa_uid"@,
        "bso_id"@,
        "expiry"@,
        "modified"@,
        "payload"@,
        "sortindex"@,
    ]
}

/// The literals of a collection definition.
pub open spec fn collection_row(e: Entry) -> Seq<Seq<char>> {
    seq![int_literal(e.1 as int), string_literal(e.0)]
}

/// The literals of one collection of a user.
pub open spec fn user_collection_row(user: &User, e: Entry) -> Seq<Seq<char>> {
    seq![int_literal(e.1 as int), string_literal(user.fxa_kid@), string_literal(user.fxa_uid@), int_literal(e.2 as int)]
}

/// The literals of one record of a user, under its resolved collection id.
pub open spec fn bso_row(registry: Seq<Entry>, user: &User, b: &Bso) -> Seq<Seq<char>> {
    seq![
        int_literal(resolved_id(registry, b) as int),
        string_literal(user.fxa_kid@),
        string_literal(user.fxa_uid@),
        string_literal(b.bso_id@),
        int_literal(b.expiry as int),
        int_literal(b.modify as int),
        string_literal(b.payload@),
        int_literal(sort_index_or_zero(b)),
    ]
}

/// The statement for some rows: none where there are no rows.
pub open spec fn statement(table: Seq<char>, columns: Seq<Seq<char>>, rows: Seq<Seq<Seq<char>>>) -> Option<
    Seq<char>,
> {
    if rows.len() == 0 {
        None
    } else {
        Some(insert_text(table, columns, rows))
    }
}

/// Whether an optional statement is the one given.
pub open spec fn is_statement(r: Option<String>, s: Option<Seq<char>>) -> bool {
    match r {
        Some(t) => s == Some(t@),
        None => s is None,
    }
}

/// The destination store, named by its database.
pub struct Spanner {
    database_name: String,
}

impl Spanner {
    /// The name of the destination database.
    pub closed spec fn name(&self) -> Seq<char> {
        self.database_name@
    }

    /// Takes the destination database from the DSNs of source and
    /// destination: both must be set, and the destination's must be a URL
    /// with a host.
    pub fn new(spanner_dsn: &Option<String>, mysql_dsn: &Option<String>) -> (r: Result<Spanner, MigrationError>)
        ensures
            match r {
                Ok(s) => spanner_dsn is Some && mysql_dsn is Some && database_name_of(spanner_dsn->0@) == Some(
                    s.name(),
                ),
                Err(MigrationError::MissingDsn) => spanner_dsn is None || mysql_dsn is None,
                Err(MigrationError::InvalidDsn { dsn, reason }) => spanner_dsn is Some && mysql_dsn is Some
                    && database_name_of(spanner_dsn->0@) is None && dsn@ == spanner_dsn->0@ && reason@
                    == dsn_problem(spanner_dsn->0@),
                Err(_) => false,
            },
    {
        match (spanner_dsn, mysql_dsn) {
            (Some(dsn), Some(_)) => {
                let database_name = get_path(dsn.as_str())?;
                Ok(Spanner { database_name })
            },
            _ => Err(MigrationError::MissingDsn),
        }
    }

    /// The name of the destination database.
    pub fn database_name(&self) -> (r: &String)
        ensures
            r@ == self.name(),
    {
        &self.database_name
    }

    /// The collection registry: the built-in collections with the rows of
    /// `COLLECTIONS_QUERY` merged over them.
    pub fn get_collections(&self, rows: &Vec<Vec<String>>) -> (r: Result<Collections, MigrationError>)
        ensures
            match r {
                Ok(c) => c.wf() && all_rows_ok(rows.deep_view()) && c@ == merged(default_entries(), rows.deep_view()),
                Err(MigrationError::InvalidCollectionRow { row }) => first_bad_row(rows.deep_view(), row as int),
                Err(_) => false,
            },
    {
        let mut collections = Collections::default();
        collections.merge_rows(rows)?;
        Ok(collections)
    }

    /// The statement that defines the given collections in the destination.
    pub fn add_new_collections(&self, new_collections: &Collections) -> (r: Option<String>)
        ensures
            is_statement(
                r,
                statement("collections"@, collection_columns(), new_collections@.map_values(|e: Entry| collection_row(e))),
            ),
    {
        let items = new_collections.items();
        let ghost want = new_collections@.map_values(|e: Entry| collection_row(e));
        let mut rows: Vec<Vec<SqlValue>> = Vec::new();
        let mut i: usize = 0;
        while i < items.len()
            invariant
                i <= items@.len(),
                items@.map_values(|c: Collection| c@) == new_collections@,
                want == new_collections@.map_values(|e: Entry| collection_row(e)),
                rows.deep_view() =~= want.subrange(0, i as int),
            decreases items@.len() - i,
        {
            let c = &items[i];
            assert(new_collections@[i as int] == c@);
            let mut row: Vec<SqlValue> = Vec::new();
            row.push(SqlValue::Int(c.collection as i64));
            row.push(SqlValue::Text(c.name.clone()));
            assert(row.deep_view() =~= collection_row(c@));
            let ghost before = rows.deep_view();
            let ghost rv = row.deep_view();
            rows.push(row);
            assert(rows.deep_view() =~= before.push(rv));
            i = i + 1;
        }
        assert(want.subrange(0, i as int) =~= want);
        let columns: Vec<&str> = vec!["collection_id", "name"];
        assert(column_names(columns@) =~= collection_columns());
        build_insert("collections", &columns, &rows)
    }

    /// The statement that records `collections` as the user's collections.
    pub fn load_user_collections(&self, user: &User, collections: &Vec<Collection>) -> (r: Option<String>)
        ensures
            is_statement(
                r,
                statement(
                    "user_collections"@,
                    user_collection_columns(),
                    collections@.map_values(|c: Collection| user_collection_row(user, c@)),
                ),
            ),
    {
        let ghost want = collections@.map_values(|c: Collection| user_collection_row(user, c@));
        let mut rows: Vec<Vec<SqlValue>> = Vec::new();
        let mut i: usize = 0;
        while i < collections.len()
            invariant
                i <= collections@.len(),
                want == collections@.map_values(|c: Collection| user_collection_row(user, c@)),
                rows.deep_view() =~= want.subrange(0, i as int),
            decreases collections@.len() - i,
        {
            let c = &collections[i];
            let mut row: Vec<SqlValue> = Vec::new();
            row.push(SqlValue::Int(c.collection as i64));
            row.push(SqlValue::Text(user.fxa_kid.clone()));
            row.push(SqlValue::Text(user.fxa_uid.clone()));
            row.push(SqlValue::Int(c.last_modified));
            assert(row.deep_view() =~= user_collection_row(user, c@));
            let ghost before = rows.deep_view();
            let ghost rv = row.deep_view();
            rows.push(row);
            assert(rows.deep_view() =~= before.push(rv));
            i = i + 1;
        }
        assert(want.subrange(0, i as int) =~= want);
        let columns: Vec<&str> = vec!["collection_id", "fxa_kid", "fxa_uid", "modified"];
        assert(column_names(columns@) =~= user_collection_columns());
        build_insert("user_collections", &columns, &rows)
    }

    /// The statement that writes the user's records, each under the id of
    /// the registered collection of its name, or else the id it carries.
    pub fn add_user_bsos(&self, user: &User, bsos: &Vec<Bso>, collections: &Collections) -> (r: Option<String>)
        requires
            collections.wf(),
        ensures
            is_statement(
                r,
                statement("bso"@, bso_columns(), bsos@.map_values(|b: Bso| bso_row(collections@, user, &b))),
            ),
    {
        let ghost want = bsos@.map_values(|b: Bso| bso_row(collections@, user, &b));
        let mut rows: Vec<Vec<SqlValue>> = Vec::new();
        let mut i: usize = 0;
        while i < bsos.len()
            invariant
                i <= bsos@.len(),
                collections.wf(),
                want == bsos@.map_values(|b: Bso| bso_row(collections@, user, &b)),
                rows.deep_view() =~= want.subrange(0, i as int),
            decreases bsos@.len() - i,
        {
            let b = &bsos[i];
            let id = collections.resolve_id(b);
            let sort_index: i64 = match b.sort_index {
                Some(v) => v as i64,
                None => 0,
            };
            let mut row: Vec<SqlValue> = Vec::new();
            row.push(SqlValue::Int(id as i64));
            row.push(SqlValue::Text(user.fxa_kid.clone()));
            row.push(SqlValue::Text(user.fxa_uid.clone()));
            row.push(SqlValue::Text(b.bso_id.clone()));
            row.push(SqlValue::Int(b.expiry));
            row.push(SqlValue::Int(b.modify));
            row.push(SqlValue::Text(b.payload.clone()));
            row.push(SqlValue::Int(sort_index));
            assert(row.deep_view() =~= bso_row(collections@, user, b));
            let ghost before = rows.deep_view();
            let ghost rv = row.deep_view();
            rows.push(row);
            assert(rows.deep_view() =~= before.push(rv));
            i = i + 1;
        }
        assert(want.subrange(0, i as int) =~= want);
        let columns: Vec<&str> = vec![
            "collection_id",
            "fxa_kid",
            "fxa_uid",
            "bso_id",
            "expiry",
            "modified",
            "payload",
            "sortindex",
        ];
        assert(column_names(columns@) =~= bso_columns());
        build_insert("bso", &columns, &rows)
    }
}

} // verus!
