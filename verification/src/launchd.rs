//! Installing an agent: its argument list, and the property list that the service
//! manager reads.
use vstd::prelude::*;

use crate::args::AuthArg;
use crate::args::AuthSource;
use crate::text::decimal;
use crate::text::{concat_assoc, dec, texts};

verus! {

/// An argument list as it stands in a property list.
pub open spec fn args_xml(args: Seq<Seq<char>>, n: int) -> Seq<char>
    decreases n,
{
    if n <= 0 {
        Seq::empty()
    } else {
        args_xml(args, n - 1) + "\t\t<string>"@ + args[n - 1] + "</string>\n"@
    }
}

/// What stands before the label.
pub const HEAD: &'static str = "\
<?xml version=\"1.0\" encoding=\"UTF-8\"?>\n\
<!DOCTYPE plist PUBLIC \"-//Apple//DTD PLIST 1.0//EN\" \"http://www.apple.com/DTDs/PropertyList-1.0.dtd\">\n\
<plist version=\"1.0\">\n\
<dict>\n\
\t<key>Label</key>\n\
\t<string>";

/// What stands between the label and the arguments.
pub const ARGUMENTS: &'static str =
    "</string>\n\t<key>ProgramArguments</key>\n\t<array>\n";

/// What stands between the arguments and the log file.
pub const OPTIONS: &'static str = "\
\t</array>\n\
\t<key>RunAtLoad</key>\n\
\t<true/>\n\
\t<key>KeepAlive</key>\n\
\t<true/>\n\
\t<key>StandardErrorPath</key>\n\
\t<string>/tmp/";

/// What stands behind the log file.
pub const TAIL: &'static str = ".log</string>\n</dict>\n</plist>\n";

/// The property list of an agent: its name labels it and names its log file.
pub open spec fn plist_text(name: Seq<char>, args: Seq<Seq<char>>) -> Seq<char> {
    HEAD@ + "com."@ + name + ARGUMENTS@ + args_xml(args, args.len() as int) + OPTIONS@ + name
        + TAIL@
}

/// The property list of an agent.
pub fn build_plist(name: &str, args: &Vec<String>) -> (r: String)
    ensures
        r@ == plist_text(name@, texts(args@)),
{
    let mut out: String = HEAD.to_string();
    out.append("com.");
    out.append(name);
    out.append(ARGUMENTS);
    let ghost before = out@;
    let ghost all = texts(args@);
    let mut i: usize = 0;
    assert(before + Seq::<char>::empty() == before);
    while i < args.len()
        invariant
            i <= args.len(),
            all == texts(args@),
            out@ == before + args_xml(all, i as int),
        decreases args.len() - i,
    {
        broadcast use concat_assoc;

        assert(all[i as int] == args@[i as int]@);
        out.append("\t\t<string>");
        out.append(&args[i]);
        out.append("</string>\n");
        i += 1;
    }
    out.append(OPTIONS);
    out.append(name);
    out.append(TAIL);
    out
}

/// The file name of an agent's property list below the home directory.
pub open spec fn plist_name(name: Seq<char>) -> Seq<char> {
    "Library/LaunchAgents/com."@ + name + ".plist"@
}

/// The file name of an agent's property list below the home directory.
pub fn plist_path(name: &str) -> (r: String)
    ensures
        r@ == plist_name(name@),
{
    let mut out: String = "Library/LaunchAgents/com.".to_string();
    out.append(name);
    out.append(".plist");
    out
}

/// The arguments with which an installed agent is started. A token file is passed
/// on as a path, so that the token itself is not stored.
pub open spec fn start_args(
    exe: Seq<char>,
    command: Seq<char>,
    flag: Seq<char>,
    value: Seq<char>,
    port: nat,
    interval_ms: nat,
    auth: AuthSource,
) -> Seq<Seq<char>> {
    let common = seq![
        exe,
        command,
        flag,
        value,
        "--port"@,
        dec(port),
        "--interval"@,
        dec(interval_ms),
    ];
    match auth {
        AuthSource::Absent => common,
        AuthSource::Inline(token) => common.push("--auth"@).push(token),
        AuthSource::File(path) => common.push("--auth-file"@).push(path),
    }
}

/// The arguments with which an installed agent is started.
pub fn install_args(
    exe: &str,
    command: &str,
    flag: &str,
    value: &str,
    port: u16,
    interval_ms: u64,
    auth: AuthArg,
) -> (r: Vec<String>)
    ensures
        texts(r@) == start_args(
            exe@,
            command@,
            flag@,
            value@,
            port as nat,
            interval_ms as nat,
            auth@,
        ),
{
    let mut r: Vec<String> = Vec::new();
    r.push(exe.to_string());
    r.push(command.to_string());
    r.push(flag.to_string());
    r.push(value.to_string());
    r.push("--port".to_string());
    r.push(decimal(port as u64));
    r.push("--interval".to_string());
    r.push(decimal(interval_ms));
    match auth {
        AuthArg::Absent => {},
        AuthArg::Inline(token) => {
            r.push("--auth".to_string());
            r.push(token.to_string());
        },
        AuthArg::File(path) => {
            r.push("--auth-file".to_string());
            r.push(path.to_string());
        },
    }
    assert(texts(r@) =~= start_args(
        exe@,
        command@,
        flag@,
        value@,
        port as nat,
        interval_ms as nat,
        auth@,
    ));
    r
}

/// With a token file the token stands nowhere in the arguments: they are the same
/// whatever the file holds.
pub proof fn token_files_are_passed_by_path(
    exe: Seq<char>,
    command: Seq<char>,
    flag: Seq<char>,
    value: Seq<char>,
    port: nat,
    interval_ms: nat,
    path: Seq<char>,
)
    ensures
        ({
            let args = start_args(
                exe,
                command,
                flag,
                value,
                port,
                interval_ms,
                AuthSource::File(path),
            );
            args.len() == 10 && args[8] == "--auth-file"@ && args[9] == path
        }),
{
}

/// Each argument stands in a line of its own, in the order of the arguments.
pub proof fn arguments_are_listed_in_order(args: Seq<Seq<char>>, arg: Seq<char>)
    ensures
        args_xml(args.push(arg), args.len() as int + 1) == args_xml(args, args.len() as int)
            + "\t\t<string>"@ + arg + "</string>\n"@,
        args_xml(Seq::empty(), 0).len() == 0,
{
    lemma_args_front(args.push(arg), args, args.len() as int);
}

proof fn lemma_args_front(a: Seq<Seq<char>>, b: Seq<Seq<char>>, n: int)
    requires
        n <= a.len(),
        n <= b.len(),
        forall|k: int| 0 <= k < n ==> a[k] == b[k],
    ensures
        args_xml(a, n) == args_xml(b, n),
    decreases n,
{
    if n > 0 {
        lemma_args_front(a, b, n - 1);
    }
}

} // verus!
