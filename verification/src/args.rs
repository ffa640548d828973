//! Command-line options: values behind flags, and the bearer-token flags. Invalid
//! input is an error with a one-line message; the caller prints it and exits.
use vstd::prelude::*;

use crate::text::{parse_uint, split_lines, trim};
use crate::text::{concat_assoc, lines, parsed_uint, texts, trimmed, IntError};

verus! {

/// Why a command cannot run: a message, the exit status, and whether the usage
/// text follows the message.
#[derive(Debug, Clone, PartialEq, Eq)]
pub struct CliError {
    pub message: String,
    pub code: u8,
    pub usage: bool,
}

/// An error as a value: message, exit status, usage.
pub type Failure = (Seq<char>, int, bool);

impl View for CliError {
    type V = Failure;

    open spec fn view(&self) -> Failure {
        (self.message@, self.code as int, self.usage)
    }
}

/// An error on the command line itself.
pub open spec fn usage_error(message: Seq<char>) -> Failure {
    (message, 2, false)
}

/// An error on the command line itself.
pub fn misuse(message: String) -> (r: CliError)
    ensures
        r@ == usage_error(message@),
{
    CliError { message, code: 2, usage: false }
}

// ── Values ───────────────────────────────────────────────────────────────────

/// The value behind the flag at index `i`.
pub open spec fn text_arg(args: Seq<Seq<char>>, i: int, flag: Seq<char>) -> Result<Seq<char>, Failure> {
    if 0 <= i + 1 < args.len() {
        Ok(args[i + 1])
    } else {
        Err(usage_error("error: "@ + flag + " requires a value"@))
    }
}

/// The number at most `max` behind the flag at index `i`.
pub open spec fn uint_arg(
    args: Seq<Seq<char>>,
    i: int,
    flag: Seq<char>,
    kind: Seq<char>,
    max: nat,
) -> Result<nat, Failure> {
    match text_arg(args, i, flag) {
        Err(e) => Err(e),
        Ok(raw) => match parsed_uint(raw, max) {
            Ok(n) => Ok(n),
            Err(e) => Err(
                usage_error(
                    "error: invalid "@ + kind + " for "@ + flag + ": '"@ + raw + "' ("@ + e.text()
                        + ")"@,
                ),
            ),
        },
    }
}

/// The argument that is not known.
pub open spec fn unknown(arg: Seq<char>) -> Failure {
    usage_error("error: unknown argument: "@ + arg)
}

/// The value behind the flag at index `i`, which advances to it.
pub fn take_value<'a>(args: &'a Vec<String>, i: &mut usize, flag: &str) -> (r: Result<
    &'a String,
    CliError,
>)
    requires
        *old(i) < usize::MAX,
    ensures
        *final(i) == *old(i) + 1,
        match (r, text_arg(texts(args@), *old(i) as int, flag@)) {
            (Ok(v), Ok(t)) => v@ == t && *final(i) < args@.len(),
            (Err(e), Err(f)) => e@ == f,
            _ => false,
        },
{
    let n: usize = args.len();
    *i = *i + 1;
    if *i < n {
        assert(texts(args@)[*i as int] == args@[*i as int]@);
        Ok(&args[*i])
    } else {
        let mut message: String = "error: ".to_string();
        message.append(flag);
        message.append(" requires a value");
        Err(misuse(message))
    }
}

/// The number at most `max` behind the flag at index `i`, which advances to it.
pub fn parse_value(args: &Vec<String>, i: &mut usize, flag: &str, kind: &str, max: u64) -> (r: Result<
    u64,
    CliError,
>)
    requires
        *old(i) < usize::MAX,
    ensures
        *final(i) == *old(i) + 1,
        match (r, uint_arg(texts(args@), *old(i) as int, flag@, kind@, max as nat)) {
            (Ok(v), Ok(n)) => v == n && v <= max && *final(i) < args@.len(),
            (Err(e), Err(f)) => e@ == f,
            _ => false,
        },
{
    match take_value(args, i, flag) {
        Err(e) => Err(e),
        Ok(raw) => match parse_uint(raw, max) {
            Ok(n) => Ok(n),
            Err(e) => {
                let mut message: String = "error: invalid ".to_string();
                message.append(kind);
                message.append(" for ");
                message.append(flag);
                message.append(": '");
                message.append(raw);
                message.append("' (");
                message.append(&e.message());
                message.append(")");
                Err(misuse(message))
            },
        },
    }
}

/// The error on an argument that is not known.
pub fn unknown_arg(arg: &str) -> (r: CliError)
    ensures
        r@ == unknown(arg@),
{
    let mut message: String = "error: unknown argument: ".to_string();
    message.append(arg);
    misuse(message)
}

/// Whether an interval can be sampled at.
pub open spec fn interval_error(interval_ms: nat) -> Option<Failure> {
    if interval_ms == 0 {
        Some(usage_error("error: --interval must be greater than 0"@))
    } else {
        None
    }
}

/// Refuses an interval of zero.
pub fn require_positive_interval(interval_ms: u64) -> (r: Result<(), CliError>)
    ensures
        match (r, interval_error(interval_ms as nat)) {
            (Ok(_), None) => true,
            (Err(e), Some(f)) => e@ == f,
            _ => false,
        },
{
    if interval_ms == 0 {
        Err(misuse("error: --interval must be greater than 0".to_string()))
    } else {
        Ok(())
    }
}

// ── Bearer token ─────────────────────────────────────────────────────────────

/// Where a bearer token comes from. An installed agent is given the file, not
/// what is in it.
#[derive(Debug, Clone, Copy, PartialEq, Eq)]
pub enum AuthArg<'a> {
    Absent,
    Inline(&'a str),
    File(&'a str),
}

/// Where a bearer token comes from, as a value.
pub enum AuthSource {
    Absent,
    Inline(Seq<char>),
    File(Seq<char>),
}

impl<'a> View for AuthArg<'a> {
    type V = AuthSource;

    open spec fn view(&self) -> AuthSource {
        match *self {
            AuthArg::Absent => AuthSource::Absent,
            AuthArg::Inline(t) => AuthSource::Inline(t@),
            AuthArg::File(p) => AuthSource::File(p@),
        }
    }
}

/// The text of an option that may be absent.
pub open spec fn opt_text(s: Option<String>) -> Option<Seq<char>> {
    match s {
        Some(t) => Some(t@),
        None => None,
    }
}

/// The text of a token that may be absent.
pub open spec fn token_text(s: Option<&str>) -> Option<Seq<char>> {
    match s {
        Some(t) => Some(t@),
        None => None,
    }
}

/// An inline token goes before a file.
pub open spec fn auth_source(inline: Option<Seq<char>>, file: Option<Seq<char>>) -> AuthSource {
    match (inline, file) {
        (Some(t), _) => AuthSource::Inline(t),
        (None, Some(p)) => AuthSource::File(p),
        (None, None) => AuthSource::Absent,
    }
}

/// Where the bearer token comes from.
pub fn auth_arg<'a>(inline: &'a Option<String>, file: &'a Option<String>) -> (r: AuthArg<'a>)
    ensures
        r@ == auth_source(opt_text(*inline), opt_text(*file)),
{
    match (inline, file) {
        (Some(t), _) => AuthArg::Inline(t.as_str()),
        (None, Some(p)) => AuthArg::File(p.as_str()),
        (None, None) => AuthArg::Absent,
    }
}

/// The token in the contents of an auth file: the first line, trimmed.
pub open spec fn token_in_file(contents: Seq<char>) -> Seq<char> {
    if lines(contents).len() > 0 {
        trimmed(lines(contents)[0])
    } else {
        Seq::empty()
    }
}

/// The bearer token in the contents of the auth file at `path`.
pub fn read_auth_file(path: &str, contents: &str) -> (r: Result<String, CliError>)
    ensures
        match r {
            Ok(t) => t@ == token_in_file(contents@) && t@.len() > 0,
            Err(e) => token_in_file(contents@).len() == 0 && e@ == (
                "error: auth file '"@ + path@ + "' is empty"@,
                1int,
                false,
            ),
        },
{
    let all = split_lines(contents);
    let token: String = if all.len() > 0 {
        assert(texts(all@)[0] == all@[0]@);
        trim(&all[0])
    } else {
        String::new()
    };
    if token.as_str().is_empty() {
        let mut message: String = "error: auth file '".to_string();
        message.append(path);
        message.append("' is empty");
        Err(CliError { message, code: 1, usage: false })
    } else {
        Ok(token)
    }
}

/// The error on both token flags together.
pub open spec fn auth_conflict() -> Failure {
    usage_error("error: --auth and --auth-file are mutually exclusive"@)
}

/// Refuses both token flags together.
pub fn check_auth_exclusive(inline: &Option<String>, file: &Option<String>) -> (r: Result<(), CliError>)
    ensures
        match r {
            Ok(_) => !(inline is Some && file is Some),
            Err(e) => inline is Some && file is Some && e@ == auth_conflict(),
        },
{
    if inline.is_some() && file.is_some() {
        Err(misuse("error: --auth and --auth-file are mutually exclusive".to_string()))
    } else {
        Ok(())
    }
}

/// The token that is required or sent: the inline one, else the one that was read
/// from the file.
pub fn resolve_auth(inline: Option<String>, from_file: Option<String>) -> (r: Option<String>)
    ensures
        r == (if inline is Some { inline } else { from_file }),
{
    match inline {
        Some(t) => Some(t),
        None => from_file,
    }
}

} // verus!
