//! What an intercepted call records, and where: the decisions of the hook and of
//! the access recorder, apart from the store itself.
use vstd::prelude::*;
use vstd::string::{StringExecFns, StringSliceAdditionalSpecFns};
use vstd::utf8::{decode_utf8, valid_utf8};
use crate::filter::{path_allowed, valid_path_to_insert};
use crate::text::{first_char_from, find_char_from, lemma_first_char_bounds};
use vstd::string::StrSliceExecFns;

verus! {

/// What `Path::file_stem` gives for a path: its file name without the last
/// extension, or nothing where the path has no file name.
pub uninterp spec fn file_stem_of(path: Seq<char>) -> Option<Seq<char>>;

/// Relies on std::str::from_utf8: it succeeds exactly on valid UTF-8, and the
/// text it gives holds those very bytes.
#[verifier::external_body]
fn utf8_text(bytes: &[u8]) -> (r: Option<&str>)
    ensures
        r is Some <==> valid_utf8(bytes@),
        r matches Some(s) ==> s.spec_bytes() == bytes@,
{
    std::str::from_utf8(bytes).ok()
}

/// Relies on std::path::Path::file_stem for the stem of the store's file name.
#[verifier::external_body]
fn file_stem(path: &str) -> (r: Option<&str>)
    ensures
        match r {
            Some(s) => file_stem_of(path@) == Some(s@),
            None => file_stem_of(path@) is None,
        },
{
    match std::path::Path::new(path).file_stem() {
        Some(stem) => stem.to_str(),
        None => None,
    }
}

/// The table of a store whose file stem is `stem`: the stem up to its first `.`.
pub open spec fn table_of_stem(stem: Seq<char>) -> Seq<char> {
    stem.subrange(0, first_char_from(stem, '.', 0))
}

/// The table of the store at `path`, named after the store's file.
pub open spec fn store_table(path: Seq<char>) -> Option<Seq<char>> {
    match file_stem_of(path) {
        Some(stem) => Some(table_of_stem(stem)),
        None => None,
    }
}

/// The statement that adds one path to `table`; the path is its one parameter.
pub open spec fn insert_sql(table: Seq<char>) -> Seq<char> {
    "INSERT INTO "@ + table + " VALUES (?)"@
}

/// The statement that makes `table`, a text column of paths under a
/// uniqueness constraint.
pub open spec fn create_table_sql(table: Seq<char>) -> Seq<char> {
    "CREATE TABLE IF NOT EXISTS "@ + table + "(path TEXT, unique(path))"@
}

/// The statement that lists every path of `table`.
pub open spec fn select_all_sql(table: Seq<char>) -> Seq<char> {
    "SELECT * FROM "@ + table
}

/// The path text that an intercepted call on `raw` records, the store's
/// location being `binding`: none where the binding is absent, the store has
/// no table name, the bytes are not UTF-8, or a deny rule matches.
pub open spec fn recorded_path(binding: Option<Seq<char>>, raw: Seq<u8>) -> Option<Seq<char>> {
    match binding {
        Some(b) => if store_table(b) is Some && valid_utf8(raw) && path_allowed(raw) {
            Some(decode_utf8(raw))
        } else {
            None
        },
        None => None,
    }
}

/// The view of an optional binding.
pub open spec fn binding_view(binding: Option<&str>) -> Option<Seq<char>> {
    match binding {
        Some(b) => Some(b@),
        None => None,
    }
}

/// The text of an observed path where it is valid UTF-8 and no deny rule
/// matches it; nothing otherwise.
pub fn path_to_record(raw: &[u8]) -> (r: Option<&str>)
    ensures
        r is Some <==> valid_utf8(raw@) && path_allowed(raw@),
        r matches Some(s) ==> s.spec_bytes() == raw@ && s@ == decode_utf8(raw@),
{
    match utf8_text(raw) {
        Some(text) => {
            proof {
                vstd::utf8::encode_utf8_decode_utf8(text@);
            }
            if valid_path_to_insert(text) {
                Some(text)
            } else {
                None
            }
        },
        None => None,
    }
}

/// The table named by a store file's stem: the stem up to its first `.`.
pub fn table_name_from_stem(stem: &str) -> (r: &str)
    ensures
        r@ == table_of_stem(stem@),
{
    let n = stem.unicode_len();
    let dot = find_char_from(stem, n, '.', 0);
    proof {
        lemma_first_char_bounds(stem@, '.', 0);
    }
    stem.substring_char(0, dot)
}

/// The table of the store at `store_path`, named after the store's file.
pub fn table_name(store_path: &str) -> (r: Option<&str>)
    ensures
        match r {
            Some(t) => store_table(store_path@) == Some(t@),
            None => store_table(store_path@) is None,
        },
{
    match file_stem(store_path) {
        Some(stem) => Some(table_name_from_stem(stem)),
        None => None,
    }
}

/// The statement that adds one path to `table`.
pub fn insert_statement(table: &str) -> (r: String)
    ensures
        r@ == insert_sql(table@),
{
    let mut s = String::from_str("INSERT INTO ");
    s.append(table);
    s.append(" VALUES (?)");
    s
}

/// The statement that makes `table` where it does not exist yet.
pub fn create_table_statement(table: &str) -> (r: String)
    ensures
        r@ == create_table_sql(table@),
{
    let mut s = String::from_str("CREATE TABLE IF NOT EXISTS ");
    s.append(table);
    s.append("(path TEXT, unique(path))");
    s
}

/// The statement that lists every path of `table`.
pub fn select_all_statement(table: &str) -> (r: String)
    ensures
        r@ == select_all_sql(table@),
{
    let mut s = String::from_str("SELECT * FROM ");
    s.append(table);
    s
}

/// One insertion into the session's store.
pub struct Insertion {
    /// Where the store is.
    pub store_path: String,
    /// The statement to run, with the path as its one parameter.
    pub statement: String,
    /// The path to record.
    pub path: String,
}

/// What an intercepted call on the path `raw` asks of the store, the store's
/// location being `store_binding`. Nothing at all where the binding is absent,
/// so that the call is only forwarded.
pub fn record_plan(store_binding: Option<&str>, raw: &[u8]) -> (r: Option<Insertion>)
    ensures
        store_binding is None ==> r is None,
        !path_allowed(raw@) ==> r is None,
        match r {
            Some(ins) => {
                &&& recorded_path(binding_view(store_binding), raw@) == Some(ins.path@)
                &&& binding_view(store_binding) == Some(ins.store_path@)
                &&& ins.statement@ == insert_sql(store_table(ins.store_path@).unwrap())
            },
            None => recorded_path(binding_view(store_binding), raw@) is None,
        },
{
    match store_binding {
        None => None,
        Some(b) => match table_name(b) {
            None => None,
            Some(table) => match path_to_record(raw) {
                None => None,
                Some(path) => Some(
                    Insertion {
                        store_path: b.to_owned(),
                        statement: insert_statement(table),
                        path: path.to_owned(),
                    },
                ),
            },
        },
    }
}

} // verus!
