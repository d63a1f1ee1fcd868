//! The storage decisions: where the store lives, what a fresh store holds,
//! and how whole-store content maps to and from records. The caller does
//! the actual file and environment access and hands plain values in.
use vstd::prelude::*;
use vstd::string::StrSliceExecFns;
use vstd::string::StringExecFns;

use crate::decode::decode_todos;
use crate::encode::encode_todos;
use crate::format::{decode_spec, enc_todos};
use crate::model::{Todo, TodoView};
use crate::roundtrip::lemma_store_round_trip;

verus! {

/// Why a storage operation failed.
#[derive(Debug)]
pub enum ActaError {
    /// Wraps the text of an underlying I/O failure.
    Io(String),
    /// The store content cannot be read as a list of records; wraps a
    /// description of the fault.
    Parse(String),
    /// The user's home directory could not be determined.
    HomeDir,
}

impl ActaError {
    /// A line of text describing the failure, for display.
    pub fn message(&self) -> (r: String)
        ensures
            self matches ActaError::Io(m) ==> r@ == "IO error: "@ + m@,
            self matches ActaError::Parse(m) ==> r@ == "Parse error: "@ + m@,
            self is HomeDir ==> r@ == "Could not find home directory"@,
    {
        match self {
            ActaError::Io(m) => String::from_str("IO error: ").concat(m.as_str()),
            ActaError::Parse(m) => String::from_str("Parse error: ").concat(m.as_str()),
            ActaError::HomeDir => String::from_str("Could not find home directory"),
        }
    }
}

/// The file name the store is kept under, inside the home directory.
pub open spec fn store_file_name() -> Seq<char> {
    seq!['.', 'a', 'c', 't', 'a']
}

/// The full store path for a given home directory.
pub open spec fn store_path_of(home: Seq<char>) -> Seq<char> {
    home + seq!['/'] + store_file_name()
}

/// The content a store file must hold after initialization: whatever it
/// already held, or an empty list if it did not exist.
pub open spec fn init_content_spec(file: Option<Seq<char>>) -> Seq<char> {
    match file {
        None => seq!['[', ']'],
        Some(c) => c,
    }
}

/// Ensuring the store exists twice changes nothing after the first time:
/// the content the second pass leaves is the content the first left, and
/// the path, a function of the home directory alone, is the same both
/// times.
pub proof fn lemma_init_idempotent(file: Option<Seq<char>>)
    ensures
        init_content_spec(Some(init_content_spec(file))) == init_content_spec(file),
{
}

/// On a host with no prior store file, initialization writes exactly an
/// empty list, and reading that content back yields no records.
pub proof fn lemma_first_access_empty()
    ensures
        init_content_spec(None) == seq!['[', ']'],
        decode_spec(seq!['[', ']']) == Some(Seq::<TodoView>::empty()),
{
    lemma_store_round_trip(Seq::<TodoView>::empty());
    assert(enc_todos(Seq::<TodoView>::empty()) =~= seq!['[', ']']);
}

/// Initializes the storage state for the given environment: `home` is the
/// user's home directory if the host can name one, `existing` the current
/// store content if the file exists. Returns the store path and the
/// content the file must hold; when no home directory exists, fails
/// without naming a path, so nothing is ever created anywhere.
pub fn init(home: Option<&str>, existing: Option<String>) -> (r: Result<
    (String, String),
    ActaError,
>)
    ensures
        home is None ==> r == Err::<(String, String), ActaError>(ActaError::HomeDir),
        home matches Some(h) ==> r matches Ok(p) && p.0@ == store_path_of(h@) && p.1@
            == init_content_spec(
            match existing {
                Some(c) => Some(c@),
                None => None,
            },
        ),
{
    match home {
        None => Err(ActaError::HomeDir),
        Some(h) => {
            let path = String::from_str(h).concat("/.acta");
            proof {
                reveal_strlit("/.acta");
                assert("/.acta"@ =~= seq!['/'] + store_file_name());
                assert(path@ =~= store_path_of(h@));
            }
            let content = match existing {
                Some(c) => c,
                None => {
                    let empty = String::from_str("[]");
                    proof {
                        reveal_strlit("[]");
                        assert("[]"@ =~= seq!['[', ']']);
                    }
                    empty
                },
            };
            Ok((path, content))
        },
    }
}

/// What one whole load of the store reports: the environment failure, the
/// parse failure, or the records.
pub enum LoadOutcome {
    /// the environment names no home directory
    NoHome,
    /// the store content does not parse
    BadContent,
    /// the records, in store order
    Loaded(Seq<TodoView>),
}

/// One whole load operation, from the environment in: the home directory
/// if the host names one, and the store file's content if the file
/// exists. Yields what the operation reports and the file as the
/// operation leaves it; the caller performs exactly the file effect the
/// second component prescribes, so an unchanged component means no file
/// is created, read or modified anywhere. [`init`] and [`read`] are the
/// verified pieces of this cycle.
pub open spec fn load_cycle(home: Option<Seq<char>>, file: Option<Seq<char>>) -> (LoadOutcome,
    Option<Seq<char>>,
) {
    match home {
        None => (LoadOutcome::NoHome, file),
        Some(h) => {
            let content = init_content_spec(file);
            match decode_spec(content) {
                None => (LoadOutcome::BadContent, Some(content)),
                Some(ts) => (LoadOutcome::Loaded(ts), Some(content)),
            }
        },
    }
}

/// One whole save operation: whether it succeeds, and the file as it
/// leaves it. [`init`] and [`write`] are the verified pieces of this
/// cycle.
pub open spec fn save_cycle(
    home: Option<Seq<char>>,
    file: Option<Seq<char>>,
    ts: Seq<TodoView>,
) -> (bool, Option<Seq<char>>) {
    match home {
        None => (false, file),
        Some(h) => (true, Some(enc_todos(ts))),
    }
}

/// NO HOME, NOTHING TOUCHED: when the environment cannot supply a home
/// directory, the whole load and the whole save both surface the
/// home-directory failure and leave the file system exactly as it was —
/// no file is created, read or modified anywhere, whatever records were
/// to be written.
pub proof fn lemma_no_home_touches_nothing(file: Option<Seq<char>>, ts: Seq<TodoView>)
    ensures
        load_cycle(None, file) == (LoadOutcome::NoHome, file),
        save_cycle(None, file, ts) == (false, file),
{
}

/// Saving any records and loading on the same host yields them back.
pub proof fn lemma_cycle_round_trip(home: Seq<char>, file: Option<Seq<char>>, ts: Seq<TodoView>)
    ensures
        load_cycle(Some(home), save_cycle(Some(home), file, ts).1) == (
            LoadOutcome::Loaded(ts),
            Some(enc_todos(ts)),
        ),
{
    lemma_store_round_trip(ts);
}

/// Reads records out of store content. Every well-formed store text
/// yields its records; anything else is a parse failure, never a partial
/// or default list.
pub fn read(content: &str) -> (r: Result<Vec<Todo>, ActaError>)
    ensures
        decode_spec(content@) matches Some(ts) ==> (r matches Ok(v) && v.deep_view() == ts),
        decode_spec(content@) is None ==> (r matches Err(e) && (e matches ActaError::Parse(m) && m@
            == "malformed store content"@)),
{
    match decode_todos(content) {
        Some(v) => Ok(v),
        None => Err(ActaError::Parse(String::from_str("malformed store content"))),
    }
}

/// Renders records as the store content that a later read yields back:
/// the canonical whole-file replacement text.
pub fn write(todos: &Vec<Todo>) -> (r: String)
    ensures
        r@ == enc_todos(todos.deep_view()),
        decode_spec(r@) == Some(todos.deep_view()),
{
    proof {
        lemma_store_round_trip(todos.deep_view());
    }
    encode_todos(todos)
}

} // verus!
