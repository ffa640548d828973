//! The command `collect`: aggregates many agents into one fleet dashboard.
use vstd::prelude::*;

use vstd::utf8::encode_utf8;

use crate::args::{check_auth_exclusive, parse_value, take_value, unknown_arg, CliError};
use crate::args::{
    auth_conflict, opt_text, text_arg, token_text, uint_arg, unknown, AuthSource, Failure,
};
use crate::fleet::build_snapshot_at;
use crate::fleet::snapshot_fields;
use crate::hosts::parse_hosts;
use crate::hosts::hosts_of;
use crate::http::http_response;
use crate::http::response_text;
use crate::json::object_text;
use crate::launchd::start_args;
use crate::prometheus::{fleet_to_prometheus, LiveHost};
use crate::prometheus::{complete, fleet_text};
use crate::serialize::now_secs;
use crate::serve_cmd::{is_admitted, refuse, route_of};
use crate::serve_cmd::{admitted, refusal, route_in};
use crate::text::{push_dec, same};
use crate::text::{dec, dec_parses_back, texts};

verus! {

/// Usage text.
pub const USAGE: &'static str = "\
Usage: power-monitor collect (--host <list> | --tailnet) [options]\n\
\n\
Aggregate many 'serve' agents into one fleet dashboard.\n\
\n\
Options:\n\
\x20     --host LIST     Comma-separated agent targets (host[:port])\n\
\x20     --tailnet       Auto-discover hosts via 'tailscale status'\n\
\x20                     (mutually exclusive with --host)\n\
\x20 -p, --port N        Dashboard HTTP listen port (default 8080)\n\
\x20 -i, --interval N    Poll interval in ms per agent (default 1000)\n\
\x20     --auth TOKEN    Forward 'Authorization: Bearer TOKEN' to every agent\n\
\x20                     (insecure: visible in ps/shell history — prefer --auth-file)\n\
\x20     --auth-file F   Read the bearer token from the first line of file F\n\
\x20     --install       Install and start as a launchd user agent\n\
\x20     --uninstall     Stop and remove the launchd agent\n\
\x20 -h, --help          Show this help\n\
\n\
Endpoints:\n\
\x20 GET /          dashboard HTML\n\
\x20 GET /stream    Server-Sent Events (fleet snapshot)\n\
\x20 GET /snapshot  one-shot JSON snapshot\n\
\x20 GET /metrics   aggregated Prometheus text (all hosts)\n\
\n\
Examples:\n\
\x20 power-monitor collect --host mac01,mac02,mac03\n\
\x20 power-monitor collect --tailnet --port 8080 --install\n";

/// Appends the usage text.
pub fn write_usage(out: &mut String)
    ensures
        final(out)@ == old(out)@ + USAGE@,
{
    out.append(USAGE);
}

/// Name of the installed collector.
pub const AGENT: &'static str = "power-monitor-collect";

/// Port on which an agent is asked if its target names none.
pub const AGENT_PORT: u16 = 9090;

/// Options of `collect`.
#[derive(Debug, Clone, PartialEq, Eq)]
pub struct CollectArgs {
    pub hosts: Option<String>,
    pub tailnet: bool,
    pub port: u16,
    pub interval_ms: u64,
    pub auth_token: Option<String>,
    pub auth_file: Option<String>,
    pub install: bool,
    pub uninstall: bool,
}

/// Options of `collect`, as values.
pub struct CollectOptions {
    pub hosts: Option<Seq<char>>,
    pub tailnet: bool,
    pub port: nat,
    pub interval_ms: nat,
    pub auth_token: Option<Seq<char>>,
    pub auth_file: Option<Seq<char>>,
    pub install: bool,
    pub uninstall: bool,
}

impl View for CollectArgs {
    type V = CollectOptions;

    open spec fn view(&self) -> CollectOptions {
        CollectOptions {
            hosts: opt_text(self.hosts),
            tailnet: self.tailnet,
            port: self.port as nat,
            interval_ms: self.interval_ms as nat,
            auth_token: opt_text(self.auth_token),
            auth_file: opt_text(self.auth_file),
            install: self.install,
            uninstall: self.uninstall,
        }
    }
}

/// What `collect` is asked to do.
#[derive(Debug, Clone, PartialEq, Eq)]
pub enum CollectAction {
    Help,
    Uninstall,
    /// Find the hosts in the tailnet first.
    Discover(CollectArgs),
    /// Go on with the given hosts.
    Proceed(CollectArgs),
}

/// What `collect` is asked to do, as a value.
pub enum CollectRequest {
    Help,
    Uninstall,
    Discover(CollectOptions),
    Proceed(CollectOptions),
}

impl View for CollectAction {
    type V = CollectRequest;

    open spec fn view(&self) -> CollectRequest {
        match *self {
            CollectAction::Help => CollectRequest::Help,
            CollectAction::Uninstall => CollectRequest::Uninstall,
            CollectAction::Discover(a) => CollectRequest::Discover(a@),
            CollectAction::Proceed(a) => CollectRequest::Proceed(a@),
        }
    }
}

/// What `collect` does when nothing else is asked.
pub open spec fn defaults() -> CollectOptions {
    CollectOptions {
        hosts: None,
        tailnet: false,
        port: 8080,
        interval_ms: 1000,
        auth_token: None,
        auth_file: None,
        install: false,
        uninstall: false,
    }
}

/// What follows from the options: both token flags are refused first; uninstalling
/// asks for nothing else; and the hosts are given or found, but not both.
pub open spec fn planned(o: CollectOptions) -> Result<CollectRequest, Failure> {
    if o.auth_token is Some && o.auth_file is Some {
        Err(auth_conflict())
    } else if o.uninstall {
        Ok(CollectRequest::Uninstall)
    } else if o.tailnet {
        if o.hosts is Some {
            Err(("error: --tailnet and --host are mutually exclusive"@, 1, false))
        } else {
            Ok(CollectRequest::Discover(o))
        }
    } else if o.hosts is Some {
        Ok(CollectRequest::Proceed(o))
    } else {
        Err(("error: --host or --tailnet is required"@, 2, true))
    }
}

/// What the arguments from index `i` on ask for, with the options so far.
pub open spec fn parsed_from(args: Seq<Seq<char>>, i: int, o: CollectOptions) -> Result<
    CollectRequest,
    Failure,
>
    decreases args.len() - i,
{
    if i >= args.len() {
        planned(o)
    } else if args[i] == "--host"@ || args[i] == "--hosts"@ {
        match text_arg(args, i, "--host"@) {
            Ok(v) => parsed_from(args, i + 2, CollectOptions { hosts: Some(v), ..o }),
            Err(e) => Err(e),
        }
    } else if args[i] == "--tailnet"@ {
        parsed_from(args, i + 1, CollectOptions { tailnet: true, ..o })
    } else if args[i] == "-p"@ || args[i] == "--port"@ {
        match uint_arg(args, i, "--port"@, "port"@, u16::MAX as nat) {
            Ok(n) => parsed_from(args, i + 2, CollectOptions { port: n, ..o }),
            Err(e) => Err(e),
        }
    } else if args[i] == "-i"@ || args[i] == "--interval"@ {
        match uint_arg(args, i, "--interval"@, "interval"@, u64::MAX as nat) {
            Ok(n) => parsed_from(args, i + 2, CollectOptions { interval_ms: n, ..o }),
            Err(e) => Err(e),
        }
    } else if args[i] == "--auth"@ {
        match text_arg(args, i, "--auth"@) {
            Ok(v) => parsed_from(args, i + 2, CollectOptions { auth_token: Some(v), ..o }),
            Err(e) => Err(e),
        }
    } else if args[i] == "--auth-file"@ {
        match text_arg(args, i, "--auth-file"@) {
            Ok(v) => parsed_from(args, i + 2, CollectOptions { auth_file: Some(v), ..o }),
            Err(e) => Err(e),
        }
    } else if args[i] == "--install"@ {
        parsed_from(args, i + 1, CollectOptions { install: true, ..o })
    } else if args[i] == "--uninstall"@ {
        parsed_from(args, i + 1, CollectOptions { uninstall: true, ..o })
    } else if args[i] == "-h"@ || args[i] == "--help"@ {
        Ok(CollectRequest::Help)
    } else {
        Err(unknown(args[i]))
    }
}

fn plan(o: CollectArgs) -> (r: Result<CollectAction, CliError>)
    ensures
        match (r, planned(o@)) {
            (Ok(a), Ok(b)) => a@ == b,
            (Err(e), Err(f)) => e@ == f,
            _ => false,
        },
{
    match check_auth_exclusive(&o.auth_token, &o.auth_file) {
        Err(e) => {
            return Err(e);
        },
        Ok(_) => {},
    }
    if o.uninstall {
        return Ok(CollectAction::Uninstall);
    }
    if o.tailnet {
        if o.hosts.is_some() {
            Err(
                CliError {
                    message: "error: --tailnet and --host are mutually exclusive".to_string(),
                    code: 1,
                    usage: false,
                },
            )
        } else {
            Ok(CollectAction::Discover(o))
        }
    } else if o.hosts.is_some() {
        Ok(CollectAction::Proceed(o))
    } else {
        Err(
            CliError {
                message: "error: --host or --tailnet is required".to_string(),
                code: 2,
                usage: true,
            },
        )
    }
}

/// What the arguments ask for.
pub fn run(args: &Vec<String>) -> (r: Result<CollectAction, CliError>)
    ensures
        match (r, parsed_from(texts(args@), 0, defaults())) {
            (Ok(a), Ok(b)) => a@ == b,
            (Err(e), Err(f)) => e@ == f,
            _ => false,
        },
{
    let mut o = CollectArgs {
        hosts: None,
        tailnet: false,
        port: 8080,
        interval_ms: 1000,
        auth_token: None,
        auth_file: None,
        install: false,
        uninstall: false,
    };
    let mut i: usize = 0;
    let ghost all = texts(args@);
    while i < args.len()
        invariant
            all == texts(args@),
            i <= args.len(),
            parsed_from(all, i as int, o@) == parsed_from(all, 0, defaults()),
        decreases args.len() - i,
    {
        let arg: &String = &args[i];
        assert(all[i as int] == arg@);
        if same(arg, "--host") || same(arg, "--hosts") {
            match take_value(args, &mut i, "--host") {
                Ok(v) => {
                    o.hosts = Some(v.clone());
                },
                Err(e) => {
                    return Err(e);
                },
            }
        } else if same(arg, "--tailnet") {
            o.tailnet = true;
        } else if same(arg, "-p") || same(arg, "--port") {
            match parse_value(args, &mut i, "--port", "port", 0xffff) {
                Ok(n) => {
                    o.port = n as u16;
                },
                Err(e) => {
                    return Err(e);
                },
            }
        } else if same(arg, "-i") || same(arg, "--interval") {
            match parse_value(args, &mut i, "--interval", "interval", 0xffff_ffff_ffff_ffff) {
                Ok(n) => {
                    o.interval_ms = n;
                },
                Err(e) => {
                    return Err(e);
                },
            }
        } else if same(arg, "--auth") {
            match take_value(args, &mut i, "--auth") {
                Ok(v) => {
                    o.auth_token = Some(v.clone());
                },
                Err(e) => {
                    return Err(e);
                },
            }
        } else if same(arg, "--auth-file") {
            match take_value(args, &mut i, "--auth-file") {
                Ok(v) => {
                    o.auth_file = Some(v.clone());
                },
                Err(e) => {
                    return Err(e);
                },
            }
        } else if same(arg, "--install") {
            o.install = true;
        } else if same(arg, "--uninstall") {
            o.uninstall = true;
        } else if same(arg, "-h") || same(arg, "--help") {
            return Ok(CollectAction::Help);
        } else {
            return Err(unknown_arg(arg));
        }
        i = i + 1;
    }
    plan(o)
}

/// The first `n` texts with `sep` between them.
pub open spec fn join(all: Seq<Seq<char>>, sep: Seq<char>, n: int) -> Seq<char>
    decreases n,
{
    if n <= 0 {
        Seq::empty()
    } else if n == 1 {
        all[0]
    } else {
        join(all, sep, n - 1) + sep + all[n - 1]
    }
}

/// The texts with `sep` between them.
pub fn join_texts(all: &Vec<String>, sep: &str) -> (r: String)
    ensures
        r@ == join(texts(all@), sep@, all@.len() as int),
{
    let ghost t = texts(all@);
    let mut out: String = String::new();
    let mut i: usize = 0;
    while i < all.len()
        invariant
            i <= all.len(),
            t == texts(all@),
            out@ == join(t, sep@, i as int),
        decreases all.len() - i,
    {
        assert(t[i as int] == all@[i as int]@);
        if i > 0 {
            out.append(sep);
        } else {
            assert(Seq::<char>::empty() + t[0] == t[0]);
        }
        out.append(&all[i]);
        i += 1;
    }
    out
}

/// What discovery comes to: the host list of the peers that were found. `error`
/// tells why the peers could not be listed.
pub fn discovered(found: Result<Vec<String>, String>) -> (r: Result<String, CliError>)
    ensures
        match (found, r) {
            (Ok(hosts), Ok(list)) => hosts@.len() > 0 && list@ == join(
                texts(hosts@),
                ","@,
                hosts@.len() as int,
            ),
            (Ok(hosts), Err(e)) => hosts@.len() == 0 && e@ == (
                "error: tailscale status returned no online peers"@,
                1int,
                false,
            ),
            (Err(why), Err(e)) => e@ == (
                "error: tailscale discovery failed: "@ + why@,
                1int,
                false,
            ),
            (Err(_), Ok(_)) => false,
        },
{
    match found {
        Ok(hosts) => {
            if hosts.len() == 0 {
                Err(
                    CliError {
                        message: "error: tailscale status returned no online peers".to_string(),
                        code: 1,
                        usage: false,
                    },
                )
            } else {
                Ok(join_texts(&hosts, ","))
            }
        },
        Err(why) => {
            let mut message: String = "error: tailscale discovery failed: ".to_string();
            message.append(&why);
            Err(CliError { message, code: 1, usage: false })
        },
    }
}

/// What is said of the peers that were found.
pub fn discovery_notice(hosts: &Vec<String>) -> (r: String)
    ensures
        r@ == "Discovered "@ + dec(hosts@.len()) + " host(s) via Tailscale: "@ + join(
            texts(hosts@),
            ", "@,
            hosts@.len() as int,
        ),
{
    let mut out: String = "Discovered ".to_string();
    push_dec(&mut out, hosts.len() as u64);
    out.append(" host(s) via Tailscale: ");
    out.append(&join_texts(hosts, ", "));
    out
}

/// The targets of the host list.
pub fn targets(hosts: &str) -> (r: Result<Vec<String>, CliError>)
    ensures
        match r {
            Ok(v) => texts(v@) == hosts_of(hosts@, AGENT_PORT as nat) && texts(v@) == hosts_of(
                hosts@,
                9090,
            ) && v@.len() > 0,
            Err(e) => hosts_of(hosts@, AGENT_PORT as nat).len() == 0 && e@ == (
                "no valid hosts in --host"@,
                1int,
                false,
            ),
        },
{
    let v = parse_hosts(hosts, AGENT_PORT);
    assert(texts(v@).len() == v@.len());
    if v.len() == 0 {
        Err(CliError { message: "no valid hosts in --host".to_string(), code: 1, usage: false })
    } else {
        Ok(v)
    }
}

// ── Answering ────────────────────────────────────────────────────────────────

/// What a collector does with a request.
#[derive(Debug, Clone, Copy, PartialEq, Eq, Structural)]
pub enum Route {
    /// Close without an answer.
    Drop,
    Refuse,
    Dashboard,
    Snapshot,
    Metrics,
    /// Push snapshots until the client leaves.
    Stream,
    NotFound,
}

/// What a collector does with a request.
pub open spec fn routed(head: Seq<u8>, auth: Option<Seq<char>>) -> Route {
    let route = route_in(head);
    if head.len() == 0 {
        Route::Drop
    } else if !admitted(head, auth) {
        Route::Refuse
    } else if route == "/"@ || route == "/index.html"@ {
        Route::Dashboard
    } else if route == "/snapshot"@ {
        Route::Snapshot
    } else if route == "/metrics"@ {
        Route::Metrics
    } else if route == "/stream"@ {
        Route::Stream
    } else {
        Route::NotFound
    }
}

/// What a collector does with a request.
pub fn route_request(head: &[u8], auth: Option<&str>) -> (r: Route)
    ensures
        r == routed(head@, token_text(auth)),
{
    if head.len() == 0 {
        return Route::Drop;
    }
    if !is_admitted(head, auth) {
        return Route::Refuse;
    }
    let route = route_of(head);
    if same(&route, "/") || same(&route, "/index.html") {
        Route::Dashboard
    } else if same(&route, "/snapshot") {
        Route::Snapshot
    } else if same(&route, "/metrics") {
        Route::Metrics
    } else if same(&route, "/stream") {
        Route::Stream
    } else {
        Route::NotFound
    }
}

/// What precedes the events of a snapshot stream.
pub const STREAM_HEAD: &'static str = "\
HTTP/1.1 200 OK\r\n\
Content-Type: text/event-stream\r\n\
Cache-Control: no-cache\r\n\
Connection: keep-alive\r\n\
Access-Control-Allow-Origin: *\r\n\
\r\n";

/// The answer on a route at the time `secs`, if it is a single one. `blocks` are
/// the hosts of the snapshot and `live` those of the metrics.
pub open spec fn answer(
    route: Route,
    dashboard: Seq<char>,
    blocks: Seq<String>,
    live: Seq<LiveHost>,
    poll_interval_ms: u64,
    secs: u64,
) -> Option<Seq<char>> {
    match route {
        Route::Drop => None,
        Route::Stream => None,
        Route::Refuse => Some(refusal()),
        Route::Dashboard => Some(
            response_text("200 OK"@, "text/html; charset=utf-8"@, dashboard),
        ),
        Route::Snapshot => Some(
            response_text(
                "200 OK"@,
                "application/json"@,
                object_text(snapshot_fields(blocks, poll_interval_ms, secs)),
            ),
        ),
        Route::Metrics => Some(
            response_text(
                "200 OK"@,
                "text/plain; version=0.0.4; charset=utf-8"@,
                fleet_text(live),
            ),
        ),
        Route::NotFound => Some(
            response_text("404 Not Found"@, "application/json"@, "{\"error\":\"not found\"}"@),
        ),
    }
}

/// The answer on a route at a given time, in seconds since the start of 1970; none
/// where the connection is dropped or streamed to.
pub fn answer_at(
    route: Route,
    dashboard: &str,
    blocks: &Vec<String>,
    live: &Vec<LiveHost>,
    poll_interval_ms: u64,
    secs: u64,
) -> (r: Option<Vec<u8>>)
    requires
        complete(live@),
    ensures
        match (r, answer(route, dashboard@, blocks@, live@, poll_interval_ms, secs)) {
            (Some(a), Some(b)) => a@ == encode_utf8(b),
            (None, None) => true,
            _ => false,
        },
{
    match route {
        Route::Drop | Route::Stream => None,
        Route::Refuse => Some(refuse()),
        Route::Dashboard => Some(http_response("200 OK", "text/html; charset=utf-8", dashboard)),
        Route::Snapshot => {
            let mut body: String = String::new();
            build_snapshot_at(&mut body, blocks, poll_interval_ms, secs);
            assert(body@ == object_text(snapshot_fields(blocks@, poll_interval_ms, secs)));
            Some(http_response("200 OK", "application/json", &body))
        },
        Route::Metrics => {
            let body = fleet_to_prometheus(live);
            Some(http_response("200 OK", "text/plain; version=0.0.4; charset=utf-8", &body))
        },
        Route::NotFound => Some(
            http_response("404 Not Found", "application/json", "{\"error\":\"not found\"}"),
        ),
    }
}

/// The answer on a route, if it is a single one. The hosts need be given only for
/// the route that shows them.
pub fn handle_connection(
    route: Route,
    dashboard: &str,
    blocks: &Vec<String>,
    live: &Vec<LiveHost>,
    poll_interval_ms: u64,
) -> (r: Option<Vec<u8>>)
    requires
        complete(live@),
    ensures
        exists|secs: u64|
            match (
                r,
                #[trigger] answer(route, dashboard@, blocks@, live@, poll_interval_ms, secs),
            ) {
                (Some(a), Some(b)) => a@ == encode_utf8(b),
                (None, None) => true,
                _ => false,
            },
{
    let secs: u64 = now_secs();
    answer_at(route, dashboard, blocks, live, poll_interval_ms, secs)
}

/// Where a token is required, a request that does not present it is refused, on
/// every path.
pub proof fn requests_without_the_token_are_refused(head: Seq<u8>, required: Seq<char>)
    requires
        head.len() > 0,
        crate::http::bearer_in(head) != Some(required),
    ensures
        routed(head, Some(required)) == Route::Refuse,
{
}

/// The options differ from one another.
proof fn lemma_flags_differ()
    ensures
        "--host"@ != "--tailnet"@,
        "--hosts"@ != "--tailnet"@,
        "--host"@ != "-p"@,
        "--host"@ != "--port"@,
        "--hosts"@ != "-p"@,
        "--hosts"@ != "--port"@,
        "--host"@ != "-i"@,
        "--host"@ != "--interval"@,
        "--hosts"@ != "-i"@,
        "--hosts"@ != "--interval"@,
        "--host"@ != "--auth"@,
        "--hosts"@ != "--auth"@,
        "--host"@ != "--auth-file"@,
        "--hosts"@ != "--auth-file"@,
        "--host"@ != "--install"@,
        "--hosts"@ != "--install"@,
        "--host"@ != "--uninstall"@,
        "--hosts"@ != "--uninstall"@,
        "--host"@ != "-h"@,
        "--host"@ != "--help"@,
        "--hosts"@ != "-h"@,
        "--hosts"@ != "--help"@,
        "--tailnet"@ != "-p"@,
        "--tailnet"@ != "--port"@,
        "--tailnet"@ != "-i"@,
        "--tailnet"@ != "--interval"@,
        "--tailnet"@ != "--auth"@,
        "--tailnet"@ != "--auth-file"@,
        "--tailnet"@ != "--install"@,
        "--tailnet"@ != "--uninstall"@,
        "--tailnet"@ != "-h"@,
        "--tailnet"@ != "--help"@,
        "-p"@ != "-i"@,
        "-p"@ != "--interval"@,
        "--port"@ != "-i"@,
        "--port"@ != "--interval"@,
        "-p"@ != "--auth"@,
        "--port"@ != "--auth"@,
        "-p"@ != "--auth-file"@,
        "--port"@ != "--auth-file"@,
        "-p"@ != "--install"@,
        "--port"@ != "--install"@,
        "-p"@ != "--uninstall"@,
        "--port"@ != "--uninstall"@,
        "-p"@ != "-h"@,
        "-p"@ != "--help"@,
        "--port"@ != "-h"@,
        "--port"@ != "--help"@,
        "-i"@ != "--auth"@,
        "--interval"@ != "--auth"@,
        "-i"@ != "--auth-file"@,
        "--interval"@ != "--auth-file"@,
        "-i"@ != "--install"@,
        "--interval"@ != "--install"@,
        "-i"@ != "--uninstall"@,
        "--interval"@ != "--uninstall"@,
        "-i"@ != "-h"@,
        "-i"@ != "--help"@,
        "--interval"@ != "-h"@,
        "--interval"@ != "--help"@,
        "--auth"@ != "--auth-file"@,
        "--auth"@ != "--install"@,
        "--auth"@ != "--uninstall"@,
        "--auth"@ != "-h"@,
        "--auth"@ != "--help"@,
        "--auth-file"@ != "--install"@,
        "--auth-file"@ != "--uninstall"@,
        "--auth-file"@ != "-h"@,
        "--auth-file"@ != "--help"@,
        "--install"@ != "--uninstall"@,
        "--install"@ != "-h"@,
        "--install"@ != "--help"@,
        "--uninstall"@ != "-h"@,
        "--uninstall"@ != "--help"@,
{
    reveal_strlit("--host");
    reveal_strlit("--hosts");
    reveal_strlit("--tailnet");
    reveal_strlit("-p");
    reveal_strlit("--port");
    reveal_strlit("-i");
    reveal_strlit("--interval");
    reveal_strlit("--auth");
    reveal_strlit("--auth-file");
    reveal_strlit("--install");
    reveal_strlit("--uninstall");
    reveal_strlit("-h");
    reveal_strlit("--help");
    assert("--host"@[2] != "--port"@[2]);
    assert("--host"@[2] != "--auth"@[2]);
    assert("--host"@[3] != "--help"@[3]);
    assert("--tailnet"@[2] != "--install"@[2]);
    assert("-p"@[1] != "-i"@[1]);
    assert("-p"@[1] != "-h"@[1]);
    assert("--port"@[2] != "--auth"@[2]);
    assert("--port"@[2] != "--help"@[2]);
    assert("-i"@[1] != "-h"@[1]);
    assert("--auth"@[2] != "--help"@[2]);
    assert("--auth-file"@[2] != "--uninstall"@[2]);
    assert("--interval"@.len() != "--install"@.len());
    assert("--auth"@.len() != "--auth-file"@.len());
}

/// The arguments of an installed collector ask for what was asked for when it was
/// installed: its hosts, port, interval and token; and they do not install it again.
pub proof fn installed_collectors_start_as_asked(
    exe: Seq<char>,
    hosts: Seq<char>,
    port: nat,
    interval_ms: nat,
    auth: AuthSource,
)
    requires
        port <= 65535,
        interval_ms <= u64::MAX,
    ensures
        parsed_from(
            start_args(exe, "collect"@, "--host"@, hosts, port, interval_ms, auth),
            2,
            defaults(),
        ) == Ok::<CollectRequest, Failure>(
            CollectRequest::Proceed(
                CollectOptions {
                    hosts: Some(hosts),
                    tailnet: false,
                    port,
                    interval_ms,
                    auth_token: if auth is Inline {
                        Some(auth->Inline_0)
                    } else {
                        None
                    },
                    auth_file: if auth is File {
                        Some(auth->File_0)
                    } else {
                        None
                    },
                    install: false,
                    uninstall: false,
                },
            ),
        ),
{
    let args = start_args(exe, "collect"@, "--host"@, hosts, port, interval_ms, auth);
    let o = CollectOptions { hosts: Some(hosts), ..defaults() };
    assert(args[2] == "--host"@ && args[3] == hosts);
    options_set_their_part(args, 2, defaults(), 0);
    assert(args[4] == "--port"@ && args[5] == dec(port));
    options_set_their_part(args, 4, o, port);
    let o = CollectOptions { port, ..o };
    assert(args[6] == "--interval"@ && args[7] == dec(interval_ms));
    options_set_their_part(args, 6, o, interval_ms);
    let o = CollectOptions { interval_ms, ..o };
    match auth {
        AuthSource::Absent => {},
        AuthSource::Inline(token) => {
            assert(args[8] == "--auth"@ && args[9] == token);
            options_set_their_part(args, 8, o, 0);
        },
        AuthSource::File(path) => {
            assert(args[8] == "--auth-file"@ && args[9] == path);
            options_set_their_part(args, 8, o, 0);
        },
    }
}

/// Each option sets one thing and leaves the rest to the arguments behind it; an option
/// and its short form ask for the same. One that lacks its value is refused, and so is
/// what is no option.
pub proof fn options_set_their_part(args: Seq<Seq<char>>, i: int, o: CollectOptions, n: nat)
    requires
        0 <= i < args.len(),
    ensures
        i + 1 < args.len() && (args[i] == "--host"@ || args[i] == "--hosts"@) ==> parsed_from(args, i, o) == parsed_from(
            args,
            i + 2,
            (CollectOptions { hosts: Some(args[i + 1]), ..o }),
        ),
        i + 1 < args.len() && (args[i] == "-p"@ || args[i] == "--port"@) && n <= 65535 && args[i + 1] == dec(n) ==> parsed_from(args, i, o) == parsed_from(
            args,
            i + 2,
            (CollectOptions { port: n, ..o }),
        ),
        i + 1 < args.len() && (args[i] == "-i"@ || args[i] == "--interval"@) && n <= u64::MAX && args[i + 1] == dec(n) ==> parsed_from(args, i, o) == parsed_from(
            args,
            i + 2,
            (CollectOptions { interval_ms: n, ..o }),
        ),
        i + 1 < args.len() && args[i] == "--auth"@ ==> parsed_from(args, i, o) == parsed_from(
            args,
            i + 2,
            (CollectOptions { auth_token: Some(args[i + 1]), ..o }),
        ),
        i + 1 < args.len() && args[i] == "--auth-file"@ ==> parsed_from(args, i, o) == parsed_from(
            args,
            i + 2,
            (CollectOptions { auth_file: Some(args[i + 1]), ..o }),
        ),
        args[i] == "--tailnet"@ ==> parsed_from(args, i, o) == parsed_from(
            args,
            i + 1,
            (CollectOptions { tailnet: true, ..o }),
        ),
        args[i] == "--install"@ ==> parsed_from(args, i, o) == parsed_from(
            args,
            i + 1,
            (CollectOptions { install: true, ..o }),
        ),
        args[i] == "--uninstall"@ ==> parsed_from(args, i, o) == parsed_from(
            args,
            i + 1,
            (CollectOptions { uninstall: true, ..o }),
        ),
        args[i] == "-h"@ || args[i] == "--help"@ ==> parsed_from(args, i, o) == Ok::<
            CollectRequest,
            Failure,
        >(CollectRequest::Help),
        i + 1 == args.len() && (args[i] == "--host"@ || args[i] == "--hosts"@ || args[i] == "-p"@ || args[i] == "--port"@ || args[i] == "-i"@ || args[i] == "--interval"@ || args[i] == "--auth"@ || args[i] == "--auth-file"@) ==> parsed_from(args, i, o) is Err,
        args[i] != "--host"@ && args[i] != "--hosts"@ && args[i] != "--tailnet"@ && args[i] != "-p"@ && args[i] != "--port"@ && args[i] != "-i"@ && args[i] != "--interval"@ && args[i] != "--auth"@ && args[i] != "--auth-file"@ && args[i] != "--install"@ && args[i] != "--uninstall"@ && args[i] != "-h"@ && args[i] != "--help"@ ==> parsed_from(args, i, o)
            == Err::<CollectRequest, Failure>(("error: unknown argument: "@ + args[i], 2, false)),
{
    lemma_flags_differ();
    if n <= 65535 {
        dec_parses_back(n, u16::MAX as nat);
    }
    if n <= u64::MAX {
        dec_parses_back(n, u64::MAX as nat);
    }
}

/// A collector with given hosts listens on port 8080 and polls once a second, without a
/// token, if nothing else is asked.
pub proof fn collectors_poll_once_a_second_by_default(hosts: Seq<char>)
    ensures
        parsed_from(seq!["--host"@, hosts], 0, defaults()) matches Ok(CollectRequest::Proceed(o))
            && o.hosts == Some(hosts) && o.port == 8080 && o.interval_ms == 1000 && o.auth_token is None
            && o.auth_file is None && !o.install && !o.tailnet,
{
    reveal_with_fuel(parsed_from, 3);
    let args = seq!["--host"@, hosts];
    assert(args[0] == "--host"@ && args[1] == hosts);
}

/// What is done about the options: with two tokens nothing; else a collector is taken
/// away whenever that is asked for; and it polls the hosts that were given, or those that
/// it finds, of which exactly one must be asked for.
pub proof fn plans_follow_the_options(o: CollectOptions)
    ensures
        planned(o) is Err <==> (o.auth_token is Some && o.auth_file is Some) || (!o.uninstall && (
        o.tailnet <==> o.hosts is Some)),
        planned(o) is Ok && o.uninstall ==> planned(o) == Ok::<CollectRequest, Failure>(
            CollectRequest::Uninstall,
        ),
        planned(o) is Ok && !o.uninstall && o.tailnet ==> planned(o) == Ok::<
            CollectRequest,
            Failure,
        >(CollectRequest::Discover(o)),
        planned(o) is Ok && !o.uninstall && !o.tailnet ==> planned(o) == Ok::<
            CollectRequest,
            Failure,
        >(CollectRequest::Proceed(o)),
{
}

/// A collector that admits a request goes by its path, and by nothing else.
pub proof fn collectors_go_by_path(head: Seq<u8>, auth: Option<Seq<char>>)
    requires
        head.len() > 0,
        auth is None || crate::http::bearer_in(head) == auth,
    ensures
        routed(head, auth) == Route::Dashboard <==> route_in(head) == "/"@ || route_in(head)
            == "/index.html"@,
        routed(head, auth) == Route::Snapshot <==> route_in(head) == "/snapshot"@,
        routed(head, auth) == Route::Metrics <==> route_in(head) == "/metrics"@,
        routed(head, auth) == Route::Stream <==> route_in(head) == "/stream"@,
        routed(head, auth) != Route::Drop,
        routed(head, auth) != Route::Refuse,
{
    reveal_strlit("/");
    reveal_strlit("/index.html");
    reveal_strlit("/snapshot");
    reveal_strlit("/metrics");
    reveal_strlit("/stream");
    assert("/"@.len() != "/index.html"@.len());
    assert("/"@.len() != "/snapshot"@.len());
    assert("/"@.len() != "/metrics"@.len());
    assert("/"@.len() != "/stream"@.len());
    assert("/index.html"@.len() != "/snapshot"@.len());
    assert("/index.html"@.len() != "/metrics"@.len());
    assert("/index.html"@.len() != "/stream"@.len());
    assert("/snapshot"@.len() != "/metrics"@.len());
    assert("/snapshot"@.len() != "/stream"@.len());
    assert("/metrics"@.len() != "/stream"@.len());
}

/// What a collector answers with on each route that has one answer: its status, the kind
/// of its content, and the content.
pub proof fn collectors_answer_by_route(
    dashboard: Seq<char>,
    blocks: Seq<String>,
    live: Seq<LiveHost>,
    poll_interval_ms: u64,
    secs: u64,
)
    ensures
        answer(Route::Dashboard, dashboard, blocks, live, poll_interval_ms, secs) == Some(
            response_text("200 OK"@, "text/html; charset=utf-8"@, dashboard),
        ),
        answer(Route::Snapshot, dashboard, blocks, live, poll_interval_ms, secs) == Some(
            response_text(
                "200 OK"@,
                "application/json"@,
                object_text(snapshot_fields(blocks, poll_interval_ms, secs)),
            ),
        ),
        answer(Route::Metrics, dashboard, blocks, live, poll_interval_ms, secs) == Some(
            response_text("200 OK"@, "text/plain; version=0.0.4; charset=utf-8"@, fleet_text(live)),
        ),
        answer(Route::NotFound, dashboard, blocks, live, poll_interval_ms, secs) == Some(
            response_text("404 Not Found"@, "application/json"@, "{\"error\":\"not found\"}"@),
        ),
        answer(Route::Refuse, dashboard, blocks, live, poll_interval_ms, secs) == Some(
            response_text("401 Unauthorized"@, "application/json"@, "{\"error\":\"unauthorized\"}"@),
        ),
        answer(Route::Drop, dashboard, blocks, live, poll_interval_ms, secs) is None,
        answer(Route::Stream, dashboard, blocks, live, poll_interval_ms, secs) is None,
{
}

/// A list grows by one text, behind the separator if it is not the first.
pub proof fn lists_grow_by_one(all: Seq<Seq<char>>, one: Seq<char>, sep: Seq<char>)
    ensures
        join(all.push(one), sep, all.len() as int + 1) == if all.len() == 0 {
            one
        } else {
            join(all, sep, all.len() as int) + sep + one
        },
{
    lemma_join_front(all.push(one), all, sep, all.len() as int);
}

proof fn lemma_join_front(a: Seq<Seq<char>>, b: Seq<Seq<char>>, sep: Seq<char>, n: int)
    requires
        n <= a.len(),
        n <= b.len(),
        forall|k: int| 0 <= k < n ==> a[k] == b[k],
    ensures
        join(a, sep, n) == join(b, sep, n),
    decreases n,
{
    if n > 1 {
        lemma_join_front(a, b, sep, n - 1);
    }
}

} // verus!
