//! The command-line grammar: a command name and its typed arguments,
//! parsed from plain argument strings into a closed set of operations.
//! The `sp_*` functions define the grammar; `parse_args` is proved to
//! return exactly what they denote. Conflicting listing selectors are
//! rejected here, before any storage access can happen.
use vstd::prelude::*;
use vstd::string::StringExecFns;

use crate::decode::{digit_value, is_digit_char};
use crate::format::{digit_val, digits_val, is_digit};
use crate::text::str_to_chars;

verus! {

/// The parsed invocation: a chosen command, or none at all.
#[derive(Debug)]
pub struct Args {
    pub command: Option<Commands>,
}

/// The closed set of operations the tool offers.
#[derive(Debug)]
pub enum Commands {
    List { completed: bool, pending: bool },
    Add { todo: String },
    Complete { id: u64 },
    Edit { id: u64, todo: String },
    Delete { id: u64 },
    Export {},
}

/// Why an invocation was rejected.
#[derive(Debug, Clone, Copy, PartialEq, Eq, Structural)]
pub enum ArgsError {
    /// The first argument names no known command.
    UnknownCommand,
    /// An argument fits no flag of the chosen command.
    UnexpectedArgument,
    /// A flag appears twice.
    DuplicateArgument,
    /// Both listing selectors appear at once.
    ConflictingArguments,
    /// A flag that takes a value stands last, without one.
    MissingValue,
    /// A required flag is absent.
    MissingArgument,
    /// An id value is not an unsigned decimal number in range.
    InvalidNumber,
}

/// Mathematical image of [`Commands`]: text as character sequences.
pub enum CommandsView {
    List { completed: bool, pending: bool },
    Add { todo: Seq<char> },
    Complete { id: u64 },
    Edit { id: u64, todo: Seq<char> },
    Delete { id: u64 },
    Export,
}

/// Mathematical image of [`Args`].
pub struct ArgsView {
    pub command: Option<CommandsView>,
}

impl DeepView for Commands {
    type V = CommandsView;

    open spec fn deep_view(&self) -> CommandsView {
        match self {
            Commands::List { completed, pending } => CommandsView::List {
                completed: *completed,
                pending: *pending,
            },
            Commands::Add { todo } => CommandsView::Add { todo: todo@ },
            Commands::Complete { id } => CommandsView::Complete { id: *id },
            Commands::Edit { id, todo } => CommandsView::Edit { id: *id, todo: todo@ },
            Commands::Delete { id } => CommandsView::Delete { id: *id },
            Commands::Export {  } => CommandsView::Export,
        }
    }
}

impl DeepView for Args {
    type V = ArgsView;

    open spec fn deep_view(&self) -> ArgsView {
        ArgsView { command: self.command.deep_view() }
    }
}

// ---------------------------------------------------------------------------
// The grammar
// ---------------------------------------------------------------------------
pub open spec fn is_completed_flag(t: Seq<char>) -> bool {
    t == seq!['-', 'c'] || t == seq!['-', '-', 'c', 'o', 'm', 'p', 'l', 'e', 't', 'e', 'd']
}

pub open spec fn is_pending_flag(t: Seq<char>) -> bool {
    t == seq!['-', 'p'] || t == seq!['-', '-', 'p', 'e', 'n', 'd', 'i', 'n', 'g']
}

pub open spec fn is_todo_flag(t: Seq<char>) -> bool {
    t == seq!['-', 't'] || t == seq!['-', '-', 't', 'o', 'd', 'o']
}

pub open spec fn is_id_flag(t: Seq<char>) -> bool {
    t == seq!['-', 'i'] || t == seq!['-', '-', 'i', 'd']
}

/// The number an id value token denotes: a non-empty run of decimal
/// digits whose value fits a machine word.
pub open spec fn sp_tok_u64(t: Seq<char>) -> Option<u64> {
    if t.len() >= 1 && (forall|k: int| 0 <= k < t.len() ==> is_digit(#[trigger] t[k]))
        && digits_val(t, 0, t.len() as int) <= u64::MAX {
        Some(digits_val(t, 0, t.len() as int) as u64)
    } else {
        None
    }
}

/// The listing selectors, each at most once and never both.
pub open spec fn sp_list(toks: Seq<Seq<char>>, i: int, completed: bool, pending: bool) -> Result<
    CommandsView,
    ArgsError,
>
    decreases toks.len() - i,
{
    if !(0 <= i && i < toks.len()) {
        Ok(CommandsView::List { completed, pending })
    } else if is_completed_flag(toks[i]) {
        if pending {
            Err(ArgsError::ConflictingArguments)
        } else if completed {
            Err(ArgsError::DuplicateArgument)
        } else {
            sp_list(toks, i + 1, true, pending)
        }
    } else if is_pending_flag(toks[i]) {
        if completed {
            Err(ArgsError::ConflictingArguments)
        } else if pending {
            Err(ArgsError::DuplicateArgument)
        } else {
            sp_list(toks, i + 1, completed, true)
        }
    } else {
        Err(ArgsError::UnexpectedArgument)
    }
}

/// The one required text flag of the add command.
pub open spec fn sp_add(toks: Seq<Seq<char>>) -> Result<CommandsView, ArgsError> {
    if toks.len() == 1 {
        Err(ArgsError::MissingArgument)
    } else if !is_todo_flag(toks[1]) {
        Err(ArgsError::UnexpectedArgument)
    } else if toks.len() == 2 {
        Err(ArgsError::MissingValue)
    } else if toks.len() > 3 {
        Err(ArgsError::UnexpectedArgument)
    } else {
        Ok(CommandsView::Add { todo: toks[2] })
    }
}

/// The one required id flag of the complete and delete commands.
pub open spec fn sp_id_value(toks: Seq<Seq<char>>) -> Result<u64, ArgsError> {
    if toks.len() == 1 {
        Err(ArgsError::MissingArgument)
    } else if !is_id_flag(toks[1]) {
        Err(ArgsError::UnexpectedArgument)
    } else if toks.len() == 2 {
        Err(ArgsError::MissingValue)
    } else if toks.len() > 3 {
        Err(ArgsError::UnexpectedArgument)
    } else {
        match sp_tok_u64(toks[2]) {
            None => Err(ArgsError::InvalidNumber),
            Some(v) => Ok(v),
        }
    }
}

/// The two required flags of the edit command, in either order.
pub open spec fn sp_edit(
    toks: Seq<Seq<char>>,
    i: int,
    id: Option<u64>,
    todo: Option<Seq<char>>,
) -> Result<CommandsView, ArgsError>
    decreases toks.len() - i,
{
    if !(0 <= i && i < toks.len()) {
        match (id, todo) {
            (Some(id), Some(todo)) => Ok(CommandsView::Edit { id, todo }),
            _ => Err(ArgsError::MissingArgument),
        }
    } else if is_id_flag(toks[i]) {
        if id is Some {
            Err(ArgsError::DuplicateArgument)
        } else if i + 1 >= toks.len() {
            Err(ArgsError::MissingValue)
        } else {
            match sp_tok_u64(toks[i + 1]) {
                None => Err(ArgsError::InvalidNumber),
                Some(v) => sp_edit(toks, i + 2, Some(v), todo),
            }
        }
    } else if is_todo_flag(toks[i]) {
        if todo is Some {
            Err(ArgsError::DuplicateArgument)
        } else if i + 1 >= toks.len() {
            Err(ArgsError::MissingValue)
        } else {
            sp_edit(toks, i + 2, id, Some(toks[i + 1]))
        }
    } else {
        Err(ArgsError::UnexpectedArgument)
    }
}

/// What an argument list denotes: the chosen command and its values, no
/// command at all, or the error the invocation is rejected with.
pub open spec fn parse_args_spec(toks: Seq<Seq<char>>) -> Result<ArgsView, ArgsError> {
    if toks.len() == 0 {
        Ok(ArgsView { command: None })
    } else if toks[0] == seq!['l', 'i', 's', 't'] {
        match sp_list(toks, 1, false, false) {
            Ok(c) => Ok(ArgsView { command: Some(c) }),
            Err(e) => Err(e),
        }
    } else if toks[0] == seq!['a', 'd', 'd'] {
        match sp_add(toks) {
            Ok(c) => Ok(ArgsView { command: Some(c) }),
            Err(e) => Err(e),
        }
    } else if toks[0] == seq!['c', 'o', 'm', 'p', 'l', 'e', 't', 'e'] {
        match sp_id_value(toks) {
            Ok(id) => Ok(ArgsView { command: Some(CommandsView::Complete { id }) }),
            Err(e) => Err(e),
        }
    } else if toks[0] == seq!['e', 'd', 'i', 't'] {
        match sp_edit(toks, 1, None, None) {
            Ok(c) => Ok(ArgsView { command: Some(c) }),
            Err(e) => Err(e),
        }
    } else if toks[0] == seq!['d', 'e', 'l', 'e', 't', 'e'] {
        match sp_id_value(toks) {
            Ok(id) => Ok(ArgsView { command: Some(CommandsView::Delete { id }) }),
            Err(e) => Err(e),
        }
    } else if toks[0] == seq!['e', 'x', 'p', 'o', 'r', 't'] {
        if toks.len() > 1 {
            Err(ArgsError::UnexpectedArgument)
        } else {
            Ok(ArgsView { command: Some(CommandsView::Export) })
        }
    } else {
        Err(ArgsError::UnknownCommand)
    }
}

// ---------------------------------------------------------------------------
// The parser
// ---------------------------------------------------------------------------
/// Whether a token equals either spelling of a flag.
fn flag_matches(t: &String, short: &str, long: &str) -> (r: bool)
    ensures
        r == (t@ == short@ || t@ == long@),
{
    let s = String::from_str(short);
    let l = String::from_str(long);
    *t == s || *t == l
}

fn is_completed_tok(t: &String) -> (r: bool)
    ensures
        r == is_completed_flag(t@),
{
    proof {
        reveal_strlit("-c");
        reveal_strlit("--completed");
        assert("-c"@ =~= seq!['-', 'c']);
        assert("--completed"@ =~= seq!['-', '-', 'c', 'o', 'm', 'p', 'l', 'e', 't', 'e', 'd']);
    }
    flag_matches(t, "-c", "--completed")
}

fn is_pending_tok(t: &String) -> (r: bool)
    ensures
        r == is_pending_flag(t@),
{
    proof {
        reveal_strlit("-p");
        reveal_strlit("--pending");
        assert("-p"@ =~= seq!['-', 'p']);
        assert("--pending"@ =~= seq!['-', '-', 'p', 'e', 'n', 'd', 'i', 'n', 'g']);
    }
    flag_matches(t, "-p", "--pending")
}

fn is_todo_tok(t: &String) -> (r: bool)
    ensures
        r == is_todo_flag(t@),
{
    proof {
        reveal_strlit("-t");
        reveal_strlit("--todo");
        assert("-t"@ =~= seq!['-', 't']);
        assert("--todo"@ =~= seq!['-', '-', 't', 'o', 'd', 'o']);
    }
    flag_matches(t, "-t", "--todo")
}

fn is_id_tok(t: &String) -> (r: bool)
    ensures
        r == is_id_flag(t@),
{
    proof {
        reveal_strlit("-i");
        reveal_strlit("--id");
        assert("-i"@ =~= seq!['-', 'i']);
        assert("--id"@ =~= seq!['-', '-', 'i', 'd']);
    }
    flag_matches(t, "-i", "--id")
}

/// Running value of a digit prefix never shrinks as digits follow.
proof fn lemma_digits_val_prefix(s: Seq<char>, j: int, l: int)
    requires
        0 <= j <= l <= s.len(),
        forall|k: int| 0 <= k < l ==> is_digit(#[trigger] s[k]),
    ensures
        digits_val(s, 0, j) <= digits_val(s, 0, l),
    decreases l - j,
{
    if j < l {
        lemma_digits_val_prefix(s, j + 1, l);
        assert(digits_val(s, 0, j + 1) == digits_val(s, 0, j) * 10 + digit_val(s[j]));
    }
}

/// Parse an id value token.
fn parse_id_tok(t: &String) -> (r: Option<u64>)
    ensures
        r == sp_tok_u64(t@),
{
    let s = str_to_chars(t.as_str());
    let n = s.len();
    if n == 0 {
        return None;
    }
    let mut acc: u128 = 0;
    let mut k: usize = 0;
    while k < n
        invariant
            0 <= k <= n,
            n == s@.len(),
            s@ == t@,
            forall|m: int| 0 <= m < k ==> is_digit(#[trigger] s@[m]),
            acc == digits_val(s@, 0, k as int),
            acc <= u64::MAX,
        decreases n - k,
    {
        let c = s[k];
        if !is_digit_char(c) {
            proof {
                assert(!is_digit(t@[k as int]));
            }
            return None;
        }
        acc = acc * 10 + digit_value(c) as u128;
        k = k + 1;
        proof {
            assert(digits_val(s@, 0, k as int) == digits_val(s@, 0, k - 1 as int) * 10 + digit_val(
                s@[k - 1],
            ));
        }
        if acc > u64::MAX as u128 {
            proof {
                if forall|m: int| 0 <= m < n ==> is_digit(#[trigger] s@[m]) {
                    lemma_digits_val_prefix(s@, k as int, n as int);
                }
            }
            return None;
        }
    }
    Some(acc as u64)
}

/// Parse the listing selectors after the command name.
fn parse_list(args: &Vec<String>) -> (r: Result<Commands, ArgsError>)
    ensures
        r matches Ok(c) ==> sp_list(args.deep_view(), 1, false, false) == Ok::<
            CommandsView,
            ArgsError,
        >(c.deep_view()),
        r matches Err(e) ==> sp_list(args.deep_view(), 1, false, false) == Err::<
            CommandsView,
            ArgsError,
        >(e),
{
    let n = args.len();
    let mut completed = false;
    let mut pending = false;
    let mut i: usize = 1;
    if n == 0 {
        return Ok(Commands::List { completed: false, pending: false });
    }
    while i < n
        invariant
            1 <= i <= n,
            n == args@.len(),
            sp_list(args.deep_view(), 1, false, false) == sp_list(
                args.deep_view(),
                i as int,
                completed,
                pending,
            ),
        decreases n - i,
    {
        proof {
            assert(args.deep_view()[i as int] == args@[i as int]@);
        }
        if is_completed_tok(&args[i]) {
            if pending {
                return Err(ArgsError::ConflictingArguments);
            }
            if completed {
                return Err(ArgsError::DuplicateArgument);
            }
            completed = true;
        } else if is_pending_tok(&args[i]) {
            if completed {
                return Err(ArgsError::ConflictingArguments);
            }
            if pending {
                return Err(ArgsError::DuplicateArgument);
            }
            pending = true;
        } else {
            return Err(ArgsError::UnexpectedArgument);
        }
        i = i + 1;
    }
    Ok(Commands::List { completed, pending })
}

/// Parse the flags of the edit command after the command name.
fn parse_edit(args: &Vec<String>) -> (r: Result<Commands, ArgsError>)
    requires
        args@.len() >= 1,
    ensures
        r matches Ok(c) ==> sp_edit(args.deep_view(), 1, None, None) == Ok::<
            CommandsView,
            ArgsError,
        >(c.deep_view()),
        r matches Err(e) ==> sp_edit(args.deep_view(), 1, None, None) == Err::<
            CommandsView,
            ArgsError,
        >(e),
{
    let n = args.len();
    let mut id: Option<u64> = None;
    let mut todo: Option<String> = None;
    let mut i: usize = 1;
    while i < n
        invariant
            1 <= i <= n,
            n == args@.len(),
            sp_edit(args.deep_view(), 1, None, None) == sp_edit(
                args.deep_view(),
                i as int,
                id,
                match todo {
                    Some(s) => Some(s@),
                    None => None,
                },
            ),
        decreases n - i,
    {
        proof {
            assert(args.deep_view()[i as int] == args@[i as int]@);
        }
        if is_id_tok(&args[i]) {
            if id.is_some() {
                return Err(ArgsError::DuplicateArgument);
            }
            if i + 1 >= n {
                return Err(ArgsError::MissingValue);
            }
            proof {
                assert(args.deep_view()[i + 1] == args@[i + 1]@);
            }
            match parse_id_tok(&args[i + 1]) {
                None => {
                    return Err(ArgsError::InvalidNumber);
                },
                Some(v) => {
                    id = Some(v);
                },
            }
            i = i + 2;
        } else if is_todo_tok(&args[i]) {
            if todo.is_some() {
                return Err(ArgsError::DuplicateArgument);
            }
            if i + 1 >= n {
                return Err(ArgsError::MissingValue);
            }
            proof {
                assert(args.deep_view()[i + 1] == args@[i + 1]@);
            }
            todo = Some(args[i + 1].clone());
            i = i + 2;
        } else {
            return Err(ArgsError::UnexpectedArgument);
        }
    }
    match (id, todo) {
        (Some(id), Some(todo)) => Ok(Commands::Edit { id, todo }),
        _ => Err(ArgsError::MissingArgument),
    }
}

/// Parse the one-flag commands' argument list shape.
fn parse_id_cmd(args: &Vec<String>) -> (r: Result<u64, ArgsError>)
    requires
        args@.len() >= 1,
    ensures
        r == sp_id_value(args.deep_view()),
{
    let n = args.len();
    if n == 1 {
        return Err(ArgsError::MissingArgument);
    }
    proof {
        assert(args.deep_view()[1] == args@[1]@);
    }
    if !is_id_tok(&args[1]) {
        return Err(ArgsError::UnexpectedArgument);
    }
    if n == 2 {
        return Err(ArgsError::MissingValue);
    }
    if n > 3 {
        return Err(ArgsError::UnexpectedArgument);
    }
    proof {
        assert(args.deep_view()[2] == args@[2]@);
    }
    match parse_id_tok(&args[2]) {
        None => Err(ArgsError::InvalidNumber),
        Some(v) => Ok(v),
    }
}

/// Parse a whole invocation, the program name already stripped. An empty
/// list chooses no command; the first argument names the command and the
/// rest are its flags, exactly as the grammar above lays them out.
pub fn parse_args(args: &Vec<String>) -> (r: Result<Args, ArgsError>)
    ensures
        r matches Ok(a) ==> parse_args_spec(args.deep_view()) == Ok::<ArgsView, ArgsError>(
            a.deep_view(),
        ),
        r matches Err(e) ==> parse_args_spec(args.deep_view()) == Err::<ArgsView, ArgsError>(e),
{
    let n = args.len();
    if n == 0 {
        return Ok(Args { command: None });
    }
    proof {
        assert(args.deep_view()[0] == args@[0]@);
        reveal_strlit("list");
        reveal_strlit("add");
        reveal_strlit("complete");
        reveal_strlit("edit");
        reveal_strlit("delete");
        reveal_strlit("export");
        assert("list"@ =~= seq!['l', 'i', 's', 't']);
        assert("add"@ =~= seq!['a', 'd', 'd']);
        assert("complete"@ =~= seq!['c', 'o', 'm', 'p', 'l', 'e', 't', 'e']);
        assert("edit"@ =~= seq!['e', 'd', 'i', 't']);
        assert("delete"@ =~= seq!['d', 'e', 'l', 'e', 't', 'e']);
        assert("export"@ =~= seq!['e', 'x', 'p', 'o', 'r', 't']);
    }
    let head = &args[0];
    if *head == String::from_str("list") {
        match parse_list(args) {
            Ok(c) => Ok(Args { command: Some(c) }),
            Err(e) => Err(e),
        }
    } else if *head == String::from_str("add") {
        if n == 1 {
            return Err(ArgsError::MissingArgument);
        }
        proof {
            assert(args.deep_view()[1] == args@[1]@);
        }
        if !is_todo_tok(&args[1]) {
            return Err(ArgsError::UnexpectedArgument);
        }
        if n == 2 {
            return Err(ArgsError::MissingValue);
        }
        if n > 3 {
            return Err(ArgsError::UnexpectedArgument);
        }
        proof {
            assert(args.deep_view()[2] == args@[2]@);
        }
        Ok(Args { command: Some(Commands::Add { todo: args[2].clone() }) })
    } else if *head == String::from_str("complete") {
        match parse_id_cmd(args) {
            Ok(id) => Ok(Args { command: Some(Commands::Complete { id }) }),
            Err(e) => Err(e),
        }
    } else if *head == String::from_str("edit") {
        match parse_edit(args) {
            Ok(c) => Ok(Args { command: Some(c) }),
            Err(e) => Err(e),
        }
    } else if *head == String::from_str("delete") {
        match parse_id_cmd(args) {
            Ok(id) => Ok(Args { command: Some(Commands::Delete { id }) }),
            Err(e) => Err(e),
        }
    } else if *head == String::from_str("export") {
        if n > 1 {
            return Err(ArgsError::UnexpectedArgument);
        }
        Ok(Args { command: Some(Commands::Export {  }) })
    } else {
        Err(ArgsError::UnknownCommand)
    }
}

// ---------------------------------------------------------------------------
// The selectors exclude one another
// ---------------------------------------------------------------------------
/// No token spells both selectors.
proof fn lemma_selector_flags_disjoint(t: Seq<char>)
    ensures
        !(is_completed_flag(t) && is_pending_flag(t)),
{
    if is_completed_flag(t) && is_pending_flag(t) {
        assert(t[1] == 'c' || t[2] == 'c');
        assert(false);
    }
}

/// Selector parsing with both selectors still ahead, or one recorded and
/// the other ahead, always ends in rejection.
proof fn lemma_sp_list_conflict(toks: Seq<Seq<char>>, i: int, completed: bool, pending: bool)
    requires
        0 <= i,
        completed || exists|k: int| i <= k < toks.len() && is_completed_flag(#[trigger] toks[k]),
        pending || exists|k: int| i <= k < toks.len() && is_pending_flag(#[trigger] toks[k]),
        !(completed && pending),
    ensures
        sp_list(toks, i, completed, pending) is Err,
    decreases toks.len() - i,
{
    if i >= toks.len() {
        assert(completed && pending);
    } else {
        let t = toks[i];
        lemma_selector_flags_disjoint(t);
        if is_completed_flag(t) {
            if !pending && !completed {
                let k = choose|k: int|
                    i <= k < toks.len() && is_pending_flag(#[trigger] toks[k]);
                assert(k != i);
                lemma_sp_list_conflict(toks, i + 1, true, pending);
            }
        } else if is_pending_flag(t) {
            if !pending && !completed {
                let k = choose|k: int|
                    i <= k < toks.len() && is_completed_flag(#[trigger] toks[k]);
                assert(k != i);
                lemma_sp_list_conflict(toks, i + 1, completed, true);
            }
        }
    }
}

/// MUTUAL EXCLUSION: an invocation of the listing command that carries
/// both the completed and the pending selector is rejected by argument
/// parsing — no command, and so no storage access, ever comes of it.
pub proof fn lemma_conflicting_selectors_rejected(toks: Seq<Seq<char>>)
    requires
        toks.len() >= 1,
        toks[0] == seq!['l', 'i', 's', 't'],
        exists|k: int| 1 <= k < toks.len() && is_completed_flag(#[trigger] toks[k]),
        exists|k: int| 1 <= k < toks.len() && is_pending_flag(#[trigger] toks[k]),
    ensures
        parse_args_spec(toks) is Err,
{
    lemma_sp_list_conflict(toks, 1, false, false);
}

} // verus!
