//! The command `serve`: an agent that answers over HTTP.
use vstd::prelude::*;

use vstd::utf8::{decode_utf8, encode_utf8, valid_utf8};

use crate::args::{
    check_auth_exclusive, parse_value, require_positive_interval, take_value, unknown_arg, CliError,
};
use crate::args::{
    auth_conflict, interval_error, opt_text, text_arg, token_text, uint_arg, unknown, AuthSource,
    Failure,
};
use crate::calendar::{utc_text, write_utc};
use crate::http::{constant_time_eq, extract_bearer, extract_path, http_response};
use crate::http::{
    bearer_in, body_of, one_line, path_in, request_text, requests_carry_path_and_token, response_text,
    responses_are_read_back,
};
use crate::json::object_text;
use crate::launchd::start_args;
use crate::prometheus::{metrics_to_prometheus, GAUGES};
use crate::prometheus::host_gauges;
use crate::sampler::Metrics;
use crate::serialize::{now_secs, write_metrics_json_at, AgentInfo};
use crate::serialize::metrics_fields;
use crate::text::{chars_of, find_char, same, text_of};
use crate::text::{dec, dec_parses_back, find, lemma_find_is, texts, white};

verus! {

/// Usage text.
pub const USAGE: &'static str = "\
Usage: power-monitor serve [--bind <addr>] [-p <port>] [-i <ms>]\n\
\x20                          [--auth <token> | --auth-file <path>] [--install | --uninstall]\n\
\n\
Serve a JSON snapshot and Prometheus metrics over HTTP.\n\
\n\
Options:\n\
\x20     --bind ADDR    Bind address (default 127.0.0.1; 0.0.0.0 for LAN)\n\
\x20 -p, --port N       Listen port (default 9090)\n\
\x20 -i, --interval N   Sampling interval in ms (default 1000)\n\
\x20     --auth TOKEN   Require 'Authorization: Bearer TOKEN' on every request\n\
\x20                    (insecure: visible in ps/shell history — prefer --auth-file)\n\
\x20     --auth-file F  Read the bearer token from the first line of file F\n\
\x20     --install      Install and start as a launchd user agent\n\
\x20     --uninstall    Stop and remove the launchd agent\n\
\x20 -h, --help         Show this help\n\
\n\
Endpoints:  GET /json   GET /metrics\n\
\n\
Examples:\n\
\x20 power-monitor serve\n\
\x20 curl http://127.0.0.1:9090/json\n\
\x20 power-monitor serve --bind 0.0.0.0 --auth-file ~/.pm-token --install\n";

/// Appends the usage text.
pub fn write_usage(out: &mut String)
    ensures
        final(out)@ == old(out)@ + USAGE@,
{
    out.append(USAGE);
}

/// Name of the installed agent.
pub const AGENT: &'static str = "power-monitor";

/// Options of `serve`.
#[derive(Debug, Clone, PartialEq, Eq)]
pub struct ServeArgs {
    pub bind: String,
    pub port: u16,
    pub interval_ms: u64,
    pub auth_token: Option<String>,
    pub auth_file: Option<String>,
    pub install: bool,
    pub uninstall: bool,
}

/// Options of `serve`, as values.
pub struct ServeOptions {
    pub bind: Seq<char>,
    pub port: nat,
    pub interval_ms: nat,
    pub auth_token: Option<Seq<char>>,
    pub auth_file: Option<Seq<char>>,
    pub install: bool,
    pub uninstall: bool,
}

impl View for ServeArgs {
    type V = ServeOptions;

    open spec fn view(&self) -> ServeOptions {
        ServeOptions {
            bind: self.bind@,
            port: self.port as nat,
            interval_ms: self.interval_ms as nat,
            auth_token: opt_text(self.auth_token),
            auth_file: opt_text(self.auth_file),
            install: self.install,
            uninstall: self.uninstall,
        }
    }
}

/// What `serve` is asked to do.
#[derive(Debug, Clone, PartialEq, Eq)]
pub enum ServeAction {
    Help,
    Uninstall,
    Install(ServeArgs),
    Serve(ServeArgs),
}

/// What `serve` is asked to do, as a value.
pub enum ServeRequest {
    Help,
    Uninstall,
    Install(ServeOptions),
    Serve(ServeOptions),
}

impl View for ServeAction {
    type V = ServeRequest;

    open spec fn view(&self) -> ServeRequest {
        match *self {
            ServeAction::Help => ServeRequest::Help,
            ServeAction::Uninstall => ServeRequest::Uninstall,
            ServeAction::Install(a) => ServeRequest::Install(a@),
            ServeAction::Serve(a) => ServeRequest::Serve(a@),
        }
    }
}

/// What `serve` does when nothing else is asked.
pub open spec fn defaults() -> ServeOptions {
    ServeOptions {
        bind: "127.0.0.1"@,
        port: 9090,
        interval_ms: 1000,
        auth_token: None,
        auth_file: None,
        install: false,
        uninstall: false,
    }
}

/// What follows from the options: both token flags are refused first; uninstalling
/// asks for nothing else; and an interval must be positive.
pub open spec fn planned(o: ServeOptions) -> Result<ServeRequest, Failure> {
    if o.auth_token is Some && o.auth_file is Some {
        Err(auth_conflict())
    } else if o.uninstall {
        Ok(ServeRequest::Uninstall)
    } else {
        match interval_error(o.interval_ms) {
            Some(e) => Err(e),
            None => if o.install {
                Ok(ServeRequest::Install(o))
            } else {
                Ok(ServeRequest::Serve(o))
            },
        }
    }
}

/// What the arguments from index `i` on ask for, with the options so far.
pub open spec fn parsed_from(args: Seq<Seq<char>>, i: int, o: ServeOptions) -> Result<
    ServeRequest,
    Failure,
>
    decreases args.len() - i,
{
    if i >= args.len() {
        planned(o)
    } else if args[i] == "--bind"@ {
        match text_arg(args, i, "--bind"@) {
            Ok(v) => parsed_from(args, i + 2, ServeOptions { bind: v, ..o }),
            Err(e) => Err(e),
        }
    } else if args[i] == "-p"@ || args[i] == "--port"@ {
        match uint_arg(args, i, "--port"@, "port"@, u16::MAX as nat) {
            Ok(n) => parsed_from(args, i + 2, ServeOptions { port: n, ..o }),
            Err(e) => Err(e),
        }
    } else if args[i] == "-i"@ || args[i] == "--interval"@ {
        match uint_arg(args, i, "--interval"@, "interval"@, u64::MAX as nat) {
            Ok(n) => parsed_from(args, i + 2, ServeOptions { interval_ms: n, ..o }),
            Err(e) => Err(e),
        }
    } else if args[i] == "--auth"@ {
        match text_arg(args, i, "--auth"@) {
            Ok(v) => parsed_from(args, i + 2, ServeOptions { auth_token: Some(v), ..o }),
            Err(e) => Err(e),
        }
    } else if args[i] == "--auth-file"@ {
        match text_arg(args, i, "--auth-file"@) {
            Ok(v) => parsed_from(args, i + 2, ServeOptions { auth_file: Some(v), ..o }),
            Err(e) => Err(e),
        }
    } else if args[i] == "--install"@ {
        parsed_from(args, i + 1, ServeOptions { install: true, ..o })
    } else if args[i] == "--uninstall"@ {
        parsed_from(args, i + 1, ServeOptions { uninstall: true, ..o })
    } else if args[i] == "-h"@ || args[i] == "--help"@ {
        Ok(ServeRequest::Help)
    } else {
        Err(unknown(args[i]))
    }
}

fn plan(o: ServeArgs) -> (r: Result<ServeAction, CliError>)
    ensures
        match (r, planned(o@)) {
            (Ok(a), Ok(b)) => a@ == b,
            (Err(e), Err(f)) => e@ == f,
            _ => false,
        },
{
    match check_auth_exclusive(&o.auth_token, &o.auth_file) {
        Err(e) => {
            return Err(e);
        },
        Ok(_) => {},
    }
    if o.uninstall {
        return Ok(ServeAction::Uninstall);
    }
    match require_positive_interval(o.interval_ms) {
        Err(e) => {
            return Err(e);
        },
        Ok(_) => {},
    }
    if o.install {
        Ok(ServeAction::Install(o))
    } else {
        Ok(ServeAction::Serve(o))
    }
}

/// What the arguments ask for.
pub fn run(args: &Vec<String>) -> (r: Result<ServeAction, CliError>)
    ensures
        match (r, parsed_from(texts(args@), 0, defaults())) {
            (Ok(a), Ok(b)) => a@ == b,
            (Err(e), Err(f)) => e@ == f,
            _ => false,
        },
{
    let mut o = ServeArgs {
        bind: "127.0.0.1".to_string(),
        port: 9090,
        interval_ms: 1000,
        auth_token: None,
        auth_file: None,
        install: false,
        uninstall: false,
    };
    let mut i: usize = 0;
    let ghost all = texts(args@);
    while i < args.len()
        invariant
            all == texts(args@),
            i <= args.len(),
            parsed_from(all, i as int, o@) == parsed_from(all, 0, defaults()),
        decreases args.len() - i,
    {
        let arg: &String = &args[i];
        assert(all[i as int] == arg@);
        if same(arg, "--bind") {
            match take_value(args, &mut i, "--bind") {
                Ok(v) => {
                    o.bind = v.clone();
                },
                Err(e) => {
                    return Err(e);
                },
            }
        } else if same(arg, "-p") || same(arg, "--port") {
            match parse_value(args, &mut i, "--port", "port", 0xffff) {
                Ok(n) => {
                    o.port = n as u16;
                },
                Err(e) => {
                    return Err(e);
                },
            }
        } else if same(arg, "-i") || same(arg, "--interval") {
            match parse_value(args, &mut i, "--interval", "interval", 0xffff_ffff_ffff_ffff) {
                Ok(n) => {
                    o.interval_ms = n;
                },
                Err(e) => {
                    return Err(e);
                },
            }
        } else if same(arg, "--auth") {
            match take_value(args, &mut i, "--auth") {
                Ok(v) => {
                    o.auth_token = Some(v.clone());
                },
                Err(e) => {
                    return Err(e);
                },
            }
        } else if same(arg, "--auth-file") {
            match take_value(args, &mut i, "--auth-file") {
                Ok(v) => {
                    o.auth_file = Some(v.clone());
                },
                Err(e) => {
                    return Err(e);
                },
            }
        } else if same(arg, "--install") {
            o.install = true;
        } else if same(arg, "--uninstall") {
            o.uninstall = true;
        } else if same(arg, "-h") || same(arg, "--help") {
            return Ok(ServeAction::Help);
        } else {
            return Err(unknown_arg(arg));
        }
        i = i + 1;
    }
    plan(o)
}

// ── Answering ────────────────────────────────────────────────────────────────

/// The path of a request without its query; empty if the request is malformed.
pub open spec fn route_in(head: Seq<u8>) -> Seq<char> {
    match path_in(head) {
        Some(p) => p.take(find(p, 0, '?')),
        None => Seq::empty(),
    }
}

/// The path of a request without its query; empty if the request is malformed.
pub fn route_of(head: &[u8]) -> (r: String)
    ensures
        r@ == route_in(head@),
{
    match extract_path(head) {
        Some(p) => {
            let v = chars_of(&p);
            let j: usize = find_char(&v, 0, '?');
            assert(v@.subrange(0, j as int) == p@.take(j as int));
            text_of(&v, 0, j)
        },
        None => {
            String::new()
        },
    }
}

/// Whether a request may be answered: no token is required, or it presents the
/// required one.
pub open spec fn admitted(head: Seq<u8>, auth: Option<Seq<char>>) -> bool {
    match auth {
        Some(required) => bearer_in(head) == Some(required),
        None => true,
    }
}

/// Whether a request may be answered.
pub fn is_admitted(head: &[u8], auth: Option<&str>) -> (r: bool)
    ensures
        r == admitted(head@, token_text(auth)),
{
    match auth {
        Some(required) => {
            match extract_bearer(head) {
                Some(t) => constant_time_eq(Some(t.as_str()), required),
                None => false,
            }
        },
        None => true,
    }
}

/// The answer to a request without the required token.
pub open spec fn refusal() -> Seq<char> {
    response_text("401 Unauthorized"@, "application/json"@, "{\"error\":\"unauthorized\"}"@)
}

/// The answer to a connection for which no slot is free.
pub open spec fn busy() -> Seq<char> {
    response_text("503 Service Unavailable"@, "application/json"@, "{\"error\":\"server busy\"}"@)
}

/// The answer to a request without the required token.
pub fn refuse() -> (r: Vec<u8>)
    ensures
        r@ == encode_utf8(refusal()),
{
    http_response("401 Unauthorized", "application/json", "{\"error\":\"unauthorized\"}")
}

/// The answer to a connection for which no slot is free.
pub fn server_busy() -> (r: Vec<u8>)
    ensures
        r@ == encode_utf8(busy()),
{
    http_response("503 Service Unavailable", "application/json", "{\"error\":\"server busy\"}")
}

/// The answer of an agent to a request head at the time `secs`; none to an empty
/// one.
pub open spec fn answer(
    head: Seq<u8>,
    m: Metrics<String>,
    gauges: Seq<Option<String>>,
    info: AgentInfo,
    auth: Option<Seq<char>>,
    secs: u64,
) -> Option<Seq<char>> {
    if head.len() == 0 {
        None
    } else if !admitted(head, auth) {
        Some(refusal())
    } else if route_in(head) == "/json"@ {
        Some(
            response_text(
                "200 OK"@,
                "application/json"@,
                object_text(metrics_fields(m, info, secs)),
            ),
        )
    } else if route_in(head) == "/metrics"@ {
        Some(
            response_text(
                "200 OK"@,
                "text/plain; version=0.0.4; charset=utf-8"@,
                host_gauges(info.chip@, info.hostname@, gauges, GAUGES as int),
            ),
        )
    } else {
        Some(
            response_text(
                "404 Not Found"@,
                "application/json"@,
                "{\"error\":\"not found\",\"timestamp\":\""@ + utc_text(secs) + "\"}"@,
            ),
        )
    }
}

/// The answer to a request at a given time, in seconds since the start of 1970; none
/// to an empty one.
pub fn answer_at(
    head: &[u8],
    m: &Metrics<String>,
    gauges: &Vec<Option<String>>,
    info: &AgentInfo,
    auth: Option<&str>,
    secs: u64,
) -> (r: Option<Vec<u8>>)
    requires
        gauges@.len() == GAUGES,
    ensures
        match (r, answer(head@, *m, gauges@, *info, token_text(auth), secs)) {
            (Some(a), Some(b)) => a@ == encode_utf8(b),
            (None, None) => true,
            _ => false,
        },
{
    if head.len() == 0 {
        return None;
    }
    if !is_admitted(head, auth) {
        return Some(refuse());
    }
    let route = route_of(head);
    if same(&route, "/json") {
        let mut body: String = String::new();
        write_metrics_json_at(&mut body, m, info, secs);
        assert(body@ == object_text(metrics_fields(*m, *info, secs)));
        Some(http_response("200 OK", "application/json", &body))
    } else if same(&route, "/metrics") {
        let body = metrics_to_prometheus(gauges, &info.chip, &info.hostname);
        Some(http_response("200 OK", "text/plain; version=0.0.4; charset=utf-8", &body))
    } else {
        let mut body: String = "{\"error\":\"not found\",\"timestamp\":\"".to_string();
        write_utc(&mut body, secs);
        body.append("\"}");
        Some(http_response("404 Not Found", "application/json", &body))
    }
}

/// The answer of an agent to a request head; none to an empty one.
pub fn handle_connection(
    head: &[u8],
    m: &Metrics<String>,
    gauges: &Vec<Option<String>>,
    info: &AgentInfo,
    auth: Option<&str>,
) -> (r: Option<Vec<u8>>)
    requires
        gauges@.len() == GAUGES,
    ensures
        exists|secs: u64|
            match (r, #[trigger] answer(head@, *m, gauges@, *info, token_text(auth), secs)) {
                (Some(a), Some(b)) => a@ == encode_utf8(b),
                (None, None) => true,
                _ => false,
            },
{
    let secs: u64 = now_secs();
    answer_at(head, m, gauges, info, auth, secs)
}

/// Where a token is required, a request that does not present it is refused, on
/// every path; and the refusal says nothing of the snapshot.
pub proof fn requests_without_the_token_are_refused(
    head: Seq<u8>,
    m: Metrics<String>,
    gauges: Seq<Option<String>>,
    info: AgentInfo,
    required: Seq<char>,
    secs: u64,
)
    requires
        head.len() > 0,
        bearer_in(head) != Some(required),
    ensures
        answer(head, m, gauges, info, Some(required), secs) == Some(refusal()),
{
}

/// A collector that was given an agent's token reads from the agent's answer the
/// snapshot that the agent shows.
pub proof fn polls_read_what_agents_show(
    target: Seq<char>,
    token: Seq<char>,
    m: Metrics<String>,
    gauges: Seq<Option<String>>,
    info: AgentInfo,
    secs: u64,
)
    requires
        one_line(target),
        one_line(token),
        token.len() > 0,
        !white(token[0]),
        !white(token.last()),
    ensures
        ({
            let sent = encode_utf8(request_text(target, Some(token)));
            let shown = object_text(metrics_fields(m, info, secs));
            &&& answer(sent, m, gauges, info, Some(token), secs) matches Some(text)
            &&& valid_utf8(encode_utf8(text))
            &&& body_of(decode_utf8(encode_utf8(text))) == Some(Ok::<Seq<char>, Seq<char>>(shown))
        }),
{
    let sent = encode_utf8(request_text(target, Some(token)));
    let shown = object_text(metrics_fields(m, info, secs));
    requests_carry_path_and_token(target, token);
    assert(sent.len() > 0) by {
        if sent.len() == 0 {
            assert(path_in(sent) is None) by {
                assert(sent =~= Seq::<u8>::empty());
                let none = Seq::<char>::empty();
                assert(decode_utf8(sent.take(0)).len() == 0);
            }
        }
    }
    reveal_strlit("/json");
    let p = "/json"@;
    lemma_find_is(p, 0, '?', 5);
    assert(p.take(5) =~= p);
    reveal_strlit("200 OK");
    reveal_strlit("200");
    reveal_strlit(" ");
    reveal_strlit("OK");
    reveal_strlit("application/json");
    assert("200 OK"@ =~= "200"@ + " "@ + "OK"@);
    responses_are_read_back("200"@, "OK"@, "application/json"@, shown);
}

/// The options differ from one another.
proof fn lemma_flags_differ()
    ensures
        "--bind"@ != "--port"@,
        "--bind"@ != "--interval"@,
        "--bind"@ != "--auth"@,
        "--bind"@ != "--auth-file"@,
        "--bind"@ != "-p"@,
        "--bind"@ != "-i"@,
        "--bind"@ != "--install"@,
        "--bind"@ != "--uninstall"@,
        "--bind"@ != "-h"@,
        "--bind"@ != "--help"@,
        "-p"@ != "-i"@,
        "-p"@ != "--interval"@,
        "-p"@ != "--auth"@,
        "-p"@ != "--auth-file"@,
        "-p"@ != "--install"@,
        "-p"@ != "--uninstall"@,
        "-p"@ != "-h"@,
        "-p"@ != "--help"@,
        "--port"@ != "-i"@,
        "--port"@ != "--interval"@,
        "--port"@ != "--auth"@,
        "--port"@ != "--auth-file"@,
        "--port"@ != "--install"@,
        "--port"@ != "--uninstall"@,
        "--port"@ != "-h"@,
        "--port"@ != "--help"@,
        "-i"@ != "--auth"@,
        "-i"@ != "--auth-file"@,
        "-i"@ != "--install"@,
        "-i"@ != "--uninstall"@,
        "-i"@ != "-h"@,
        "-i"@ != "--help"@,
        "--interval"@ != "--auth"@,
        "--interval"@ != "--auth-file"@,
        "--interval"@ != "--install"@,
        "--interval"@ != "--uninstall"@,
        "--interval"@ != "-h"@,
        "--interval"@ != "--help"@,
        "--auth"@ != "--auth-file"@,
        "--auth"@ != "--install"@,
        "--auth"@ != "--uninstall"@,
        "--auth"@ != "-h"@,
        "--auth"@ != "--help"@,
        "--auth-file"@ != "--install"@,
        "--auth-file"@ != "--uninstall"@,
        "--auth-file"@ != "-h"@,
        "--auth-file"@ != "--help"@,
        "--install"@ != "--uninstall"@,
        "--install"@ != "-h"@,
        "--install"@ != "--help"@,
        "--uninstall"@ != "-h"@,
        "--uninstall"@ != "--help"@,
{
    reveal_strlit("--bind");
    reveal_strlit("-p");
    reveal_strlit("--port");
    reveal_strlit("-i");
    reveal_strlit("--interval");
    reveal_strlit("--auth");
    reveal_strlit("--auth-file");
    reveal_strlit("--install");
    reveal_strlit("--uninstall");
    reveal_strlit("-h");
    reveal_strlit("--help");
    assert("--bind"@[2] != "--port"@[2]);
    assert("--bind"@[2] != "--auth"@[2]);
    assert("--bind"@[2] != "--help"@[2]);
    assert("-p"@[1] != "-i"@[1]);
    assert("-p"@[1] != "-h"@[1]);
    assert("--port"@[2] != "--auth"@[2]);
    assert("--port"@[2] != "--help"@[2]);
    assert("-i"@[1] != "-h"@[1]);
    assert("--auth"@[2] != "--help"@[2]);
    assert("--auth-file"@[2] != "--uninstall"@[2]);
    assert("--interval"@.len() != "--install"@.len());
    assert("--auth"@.len() != "--auth-file"@.len());
}

/// The arguments of an installed agent ask for what was asked for when it was installed:
/// its address, port, interval and token; and they do not install it again.
pub proof fn installed_agents_start_as_asked(
    exe: Seq<char>,
    bind: Seq<char>,
    port: nat,
    interval_ms: nat,
    auth: AuthSource,
)
    requires
        port <= 65535,
        0 < interval_ms <= u64::MAX,
    ensures
        parsed_from(
            start_args(exe, "serve"@, "--bind"@, bind, port, interval_ms, auth),
            2,
            defaults(),
        ) == Ok::<ServeRequest, Failure>(
            ServeRequest::Serve(
                ServeOptions {
                    bind,
                    port,
                    interval_ms,
                    auth_token: if auth is Inline {
                        Some(auth->Inline_0)
                    } else {
                        None
                    },
                    auth_file: if auth is File {
                        Some(auth->File_0)
                    } else {
                        None
                    },
                    install: false,
                    uninstall: false,
                },
            ),
        ),
{
    let args = start_args(exe, "serve"@, "--bind"@, bind, port, interval_ms, auth);
    let o = ServeOptions { bind, ..defaults() };
    assert(args[2] == "--bind"@ && args[3] == bind);
    options_set_their_part(args, 2, defaults(), 0);
    assert(args[4] == "--port"@ && args[5] == dec(port));
    options_set_their_part(args, 4, o, port);
    let o = ServeOptions { port, ..o };
    assert(args[6] == "--interval"@ && args[7] == dec(interval_ms));
    options_set_their_part(args, 6, o, interval_ms);
    let o = ServeOptions { interval_ms, ..o };
    match auth {
        AuthSource::Absent => {},
        AuthSource::Inline(token) => {
            assert(args[8] == "--auth"@ && args[9] == token);
            options_set_their_part(args, 8, o, 0);
        },
        AuthSource::File(path) => {
            assert(args[8] == "--auth-file"@ && args[9] == path);
            options_set_their_part(args, 8, o, 0);
        },
    }
}

/// Each option sets one thing and leaves the rest to the arguments behind it; an option
/// and its short form ask for the same. One that lacks its value is refused, and so is
/// what is no option.
pub proof fn options_set_their_part(args: Seq<Seq<char>>, i: int, o: ServeOptions, n: nat)
    requires
        0 <= i < args.len(),
    ensures
        i + 1 < args.len() && args[i] == "--bind"@ ==> parsed_from(args, i, o) == parsed_from(
            args,
            i + 2,
            (ServeOptions { bind: args[i + 1], ..o }),
        ),
        i + 1 < args.len() && (args[i] == "-p"@ || args[i] == "--port"@) && n <= 65535 && args[i + 1] == dec(n) ==> parsed_from(args, i, o) == parsed_from(
            args,
            i + 2,
            (ServeOptions { port: n, ..o }),
        ),
        i + 1 < args.len() && (args[i] == "-i"@ || args[i] == "--interval"@) && n <= u64::MAX && args[i + 1] == dec(n) ==> parsed_from(args, i, o) == parsed_from(
            args,
            i + 2,
            (ServeOptions { interval_ms: n, ..o }),
        ),
        i + 1 < args.len() && args[i] == "--auth"@ ==> parsed_from(args, i, o) == parsed_from(
            args,
            i + 2,
            (ServeOptions { auth_token: Some(args[i + 1]), ..o }),
        ),
        i + 1 < args.len() && args[i] == "--auth-file"@ ==> parsed_from(args, i, o) == parsed_from(
            args,
            i + 2,
            (ServeOptions { auth_file: Some(args[i + 1]), ..o }),
        ),
        args[i] == "--install"@ ==> parsed_from(args, i, o) == parsed_from(
            args,
            i + 1,
            (ServeOptions { install: true, ..o }),
        ),
        args[i] == "--uninstall"@ ==> parsed_from(args, i, o) == parsed_from(
            args,
            i + 1,
            (ServeOptions { uninstall: true, ..o }),
        ),
        args[i] == "-h"@ || args[i] == "--help"@ ==> parsed_from(args, i, o) == Ok::<
            ServeRequest,
            Failure,
        >(ServeRequest::Help),
        i + 1 == args.len() && (args[i] == "--bind"@ || args[i] == "-p"@ || args[i] == "--port"@ || args[i] == "-i"@ || args[i] == "--interval"@ || args[i] == "--auth"@ || args[i] == "--auth-file"@) ==> parsed_from(args, i, o) is Err,
        args[i] != "--bind"@ && args[i] != "-p"@ && args[i] != "--port"@ && args[i] != "-i"@ && args[i] != "--interval"@ && args[i] != "--auth"@ && args[i] != "--auth-file"@ && args[i] != "--install"@ && args[i] != "--uninstall"@ && args[i] != "-h"@ && args[i] != "--help"@ ==> parsed_from(args, i, o)
            == Err::<ServeRequest, Failure>(("error: unknown argument: "@ + args[i], 2, false)),
{
    lemma_flags_differ();
    if n <= 65535 {
        dec_parses_back(n, u16::MAX as nat);
    }
    if n <= u64::MAX {
        dec_parses_back(n, u64::MAX as nat);
    }
}

/// Without arguments an agent serves this machine alone, on port 9090, once a second,
/// and asks for no token.
pub proof fn agents_serve_this_machine_by_default()
    ensures
        parsed_from(Seq::empty(), 0, defaults()) matches Ok(ServeRequest::Serve(o)) && o.bind
            == "127.0.0.1"@ && o.port == 9090 && o.interval_ms == 1000 && o.auth_token is None
            && o.auth_file is None,
{
}

/// The query of a request does not matter to where it goes.
pub proof fn queries_do_not_matter(a: Seq<u8>, b: Seq<u8>, path: Seq<char>, query: Seq<char>)
    requires
        !path.contains('?'),
        path_in(a) == Some(path),
        path_in(b) == Some(path + "?"@ + query),
    ensures
        route_in(a) == path,
        route_in(b) == path,
{
    reveal_strlit("?");
    assert forall|k: int| 0 <= k < path.len() implies path[k] != '?' by {
        if path[k] == '?' {
            assert(path.contains('?'));
        }
    }
    lemma_find_is(path, 0, '?', path.len() as int);
    assert(path.take(path.len() as int) =~= path);
    let long = path + "?"@ + query;
    lemma_find_is(long, 0, '?', path.len() as int);
    assert(long.take(path.len() as int) =~= path);
}

/// An agent that admits a request answers it by its path: the snapshot, the gauges, or
/// that there is nothing; and it answers every request that is not empty.
pub proof fn agents_answer_by_path(
    head: Seq<u8>,
    m: Metrics<String>,
    gauges: Seq<Option<String>>,
    info: AgentInfo,
    auth: Option<Seq<char>>,
    secs: u64,
)
    requires
        head.len() > 0,
        auth is None || bearer_in(head) == auth,
    ensures
        ({
            let a = answer(head, m, gauges, info, auth, secs);
            &&& a is Some
            &&& route_in(head) == "/json"@ ==> a == Some(
                response_text(
                    "200 OK"@,
                    "application/json"@,
                    object_text(metrics_fields(m, info, secs)),
                ),
            )
            &&& route_in(head) == "/metrics"@ ==> a == Some(
                response_text(
                    "200 OK"@,
                    "text/plain; version=0.0.4; charset=utf-8"@,
                    host_gauges(info.chip@, info.hostname@, gauges, GAUGES as int),
                ),
            )
            &&& route_in(head) != "/json"@ && route_in(head) != "/metrics"@ ==> a == Some(
                response_text(
                    "404 Not Found"@,
                    "application/json"@,
                    "{\"error\":\"not found\",\"timestamp\":\""@ + utc_text(secs) + "\"}"@,
                ),
            )
        }),
{
    reveal_strlit("/json");
    reveal_strlit("/metrics");
    assert("/json"@.len() != "/metrics"@.len());
}

/// What is done about the options: with two tokens nothing; else an agent is taken away
/// whenever that is asked for, and it is set up or run with the very options that were
/// given, if it has an interval above zero.
pub proof fn plans_follow_the_options(o: ServeOptions)
    ensures
        planned(o) is Err <==> (o.auth_token is Some && o.auth_file is Some) || (!o.uninstall
            && o.interval_ms == 0),
        planned(o) is Ok && o.uninstall ==> planned(o) == Ok::<ServeRequest, Failure>(
            ServeRequest::Uninstall,
        ),
        planned(o) is Ok && !o.uninstall && o.install ==> planned(o) == Ok::<ServeRequest, Failure>(
            ServeRequest::Install(o),
        ),
        planned(o) is Ok && !o.uninstall && !o.install ==> planned(o) == Ok::<ServeRequest, Failure>(
            ServeRequest::Serve(o),
        ),
        planned(o) matches Err(e) ==> e.1 == 2 && !e.2,
{
}

} // verus!
