use power_monitor::args::{
    auth_arg, check_auth_exclusive, parse_value, read_auth_file, require_positive_interval,
    resolve_auth, take_value, unknown_arg, AuthArg, CliError,
};
use power_monitor::cli::{dashboard_options, dispatch, print_help_for, version_detail, Command};
use power_monitor::collect_cmd;
use power_monitor::collect_cmd::{discovered, discovery_notice, join_texts, targets, CollectAction};
use power_monitor::completion_cmd;
use power_monitor::completion_cmd::Shell;
use power_monitor::doctor_cmd;
use power_monitor::doctor_cmd::{paint, report, sampler_detail, sensors_detail, DoctorAction};
use power_monitor::fan_cmd;
use power_monitor::fan_cmd::{FanAction, FanEvent, FanStep};
use power_monitor::launchd::{build_plist, install_args, plist_path};
use power_monitor::man_cmd;
use power_monitor::man_cmd::{install_base, installed_notice, ManAction, ManBase};
use power_monitor::pipe_cmd;
use power_monitor::pipe_cmd::{wants_more, PipeAction};
use power_monitor::serve_cmd;
use power_monitor::serve_cmd::ServeAction;

fn args(list: &[&str]) -> Vec<String> {
    list.iter().map(|s| s.to_string()).collect()
}

fn refusal<T>(r: Result<T, CliError>) -> (String, u8) {
    match r {
        Ok(_) => panic!("accepted"),
        Err(e) => (e.message, e.code),
    }
}

fn words(message: &str, code: u8) -> (String, u8) {
    (message.to_string(), code)
}

#[test]
fn values_follow_their_flag() {
    let a = args(&["-p", "8080", "-i"]);
    let mut i = 0;
    assert_eq!(parse_value(&a, &mut i, "-p", "port", 65535).ok(), Some(8080));
    assert_eq!(i, 1);
    i = 2;
    assert_eq!(refusal(take_value(&a, &mut i, "-i")), words("error: -i requires a value", 2));
    let mut past: usize = a.len() + 3;
    assert_eq!(refusal(take_value(&a, &mut past, "-i")), words("error: -i requires a value", 2));
    assert_eq!(past, a.len() + 4);
    let b = args(&["-p", "many"]);
    let mut i = 0;
    assert_eq!(
        refusal(parse_value(&b, &mut i, "-p", "port", 65535)),
        words("error: invalid port for -p: 'many' (invalid digit found in string)", 2)
    );
    assert_eq!(unknown_arg("--x").message, "error: unknown argument: --x");
}

#[test]
fn intervals_are_positive() {
    assert!(require_positive_interval(1).is_ok());
    assert_eq!(
        refusal(require_positive_interval(0)),
        words("error: --interval must be greater than 0", 2)
    );
}

#[test]
fn tokens_come_from_one_place() {
    let token = Some("t".to_string());
    let file = Some("/etc/token".to_string());
    assert!(check_auth_exclusive(&token, &None).is_ok());
    assert!(check_auth_exclusive(&None, &file).is_ok());
    assert_eq!(
        refusal(check_auth_exclusive(&token, &file)),
        words("error: --auth and --auth-file are mutually exclusive", 2)
    );
    assert!(matches!(auth_arg(&None, &None), AuthArg::Absent));
    assert!(matches!(auth_arg(&token, &None), AuthArg::Inline("t")));
    assert!(matches!(auth_arg(&None, &file), AuthArg::File("/etc/token")));
    assert_eq!(read_auth_file("/etc/token", " secret \n").ok().as_deref(), Some("secret"));
    assert_eq!(
        refusal(read_auth_file("/etc/token", "\n")).0,
        "error: auth file '/etc/token' is empty"
    );
    assert_eq!(resolve_auth(token.clone(), file.clone()), token);
    assert_eq!(resolve_auth(None, file.clone()), file);
}

#[test]
fn pipe_arguments() {
    match pipe_cmd::run(&args(&["-s", "3", "-i", "250"])) {
        Ok(PipeAction::Stream(a)) => assert_eq!((a.samples, a.interval_ms), (3, 250)),
        _ => panic!("refused"),
    }
    assert!(matches!(pipe_cmd::run(&args(&["--help"])), Ok(PipeAction::Help)));
    assert!(pipe_cmd::run(&args(&["-i", "soon"])).is_err());
    assert!(pipe_cmd::run(&args(&["--what"])).is_err());
    assert!(wants_more(0, 1_000_000));
    assert!(wants_more(3, 2) && !wants_more(3, 3));
}

#[test]
fn serve_arguments() {
    match serve_cmd::run(&args(&["--bind", "0.0.0.0", "-p", "9999", "-i", "500", "--auth", "t"])) {
        Ok(ServeAction::Serve(a)) => {
            assert_eq!((a.bind.as_str(), a.port, a.interval_ms), ("0.0.0.0", 9999, 500));
            assert_eq!(a.auth_token.as_deref(), Some("t"));
        }
        _ => panic!("refused"),
    }
    assert!(matches!(serve_cmd::run(&args(&["--install"])), Ok(ServeAction::Install(_))));
    assert!(matches!(serve_cmd::run(&args(&["--uninstall"])), Ok(ServeAction::Uninstall)));
    assert!(matches!(serve_cmd::run(&args(&["-h"])), Ok(ServeAction::Help)));
    assert!(serve_cmd::run(&args(&["-p", "70000"])).is_err());
    assert!(serve_cmd::run(&args(&["--auth", "t", "--auth-file", "f"])).is_err());
}

#[test]
fn collect_arguments() {
    match collect_cmd::run(&args(&["--host", "a,b", "-p", "8081"])) {
        Ok(CollectAction::Proceed(a)) => {
            assert_eq!(a.hosts.as_deref(), Some("a,b"));
            assert_eq!(a.port, 8081);
        }
        _ => panic!("refused"),
    }
    assert!(matches!(collect_cmd::run(&args(&["--tailnet"])), Ok(CollectAction::Discover(_))));
    assert!(matches!(collect_cmd::run(&args(&["--help"])), Ok(CollectAction::Help)));
    assert_eq!(
        refusal(collect_cmd::run(&args(&["--tailnet", "--host", "a"]))).0,
        "error: --tailnet and --host are mutually exclusive"
    );
    assert_eq!(
        refusal(collect_cmd::run(&args(&[]))).0,
        "error: --host or --tailnet is required"
    );
}

#[test]
fn discovery_has_to_find_something() {
    let found = args(&["mac01", "mac02"]);
    assert_eq!(join_texts(&found, ", "), "mac01, mac02");
    assert_eq!(discovered(Ok(found.clone())).ok().as_deref(), Some("mac01,mac02"));
    assert_eq!(
        discovery_notice(&found),
        "Discovered 2 host(s) via Tailscale: mac01, mac02"
    );
    assert_eq!(
        refusal(discovered(Ok(vec![]))).0,
        "error: tailscale status returned no online peers"
    );
    assert_eq!(
        refusal(discovered(Err("not found".to_string()))).0,
        "error: tailscale discovery failed: not found"
    );
    assert_eq!(targets("a,b:1").ok(), Some(args(&["a:9090", "b:1"])));
    assert!(targets(" , ").is_err());
}

#[test]
fn completion_knows_three_shells() {
    assert!(matches!(completion_cmd::run(&args(&["bash"])), Ok(Shell::Bash)));
    assert!(matches!(completion_cmd::run(&args(&["zsh"])), Ok(Shell::Zsh)));
    assert!(matches!(completion_cmd::run(&args(&["fish"])), Ok(Shell::Fish)));
    assert_eq!(
        refusal(completion_cmd::run(&args(&["tcsh"]))).0,
        "error: unknown shell 'tcsh' (expected bash, zsh, or fish)"
    );
    assert_eq!(
        refusal(completion_cmd::run(&args(&[]))).0,
        "error: completion requires a shell: bash, zsh, or fish"
    );
    assert!(Shell::Bash.script().contains("complete -F"));
    assert!(Shell::Zsh.script().starts_with("#compdef"));
    assert!(Shell::Fish.script().contains("complete -c power-monitor"));
}

#[test]
fn man_pages_are_installed_under_home() {
    assert!(matches!(man_cmd::run(&args(&[])), Ok(ManAction::Print)));
    match man_cmd::run(&args(&["--install", "/opt/man"])) {
        Ok(ManAction::Install(Some(dir))) => assert_eq!(dir, "/opt/man"),
        _ => panic!("refused"),
    }
    assert_eq!(
        refusal(man_cmd::run(&args(&["--what"]))).0,
        "error: unknown argument for man: --what"
    );
    assert!(matches!(install_base(true, false), Ok(ManBase::Given)));
    assert!(matches!(install_base(false, true), Ok(ManBase::Home)));
    assert_eq!(
        refusal(install_base(false, false)).0,
        "error: could not determine HOME; pass an explicit DIR"
    );
    assert!(installed_notice("/x/man1/power-monitor.1", "/x").contains("/x/man1/power-monitor.1"));
}

#[test]
fn fan_arguments() {
    assert!(matches!(fan_cmd::run(&args(&["max"])), Ok(FanAction::Max)));
    assert!(matches!(fan_cmd::run(&args(&["auto"])), Ok(FanAction::Auto)));
    assert_eq!(refusal(fan_cmd::run(&args(&[]))).0, "error: fan requires a subcommand");
    assert_eq!(
        refusal(fan_cmd::run(&args(&["max", "now"]))).0,
        "error: fan max takes no arguments"
    );
    assert_eq!(refusal(fan_cmd::run(&args(&["off"]))).0, "error: unknown fan command: off");
}

#[test]
fn held_fans_are_handed_back() {
    let mut step = FanStep::Open;
    let mut seen = vec![step];
    for e in [FanEvent::Done, FanEvent::Fans(2), FanEvent::Done, FanEvent::Done, FanEvent::Done] {
        step = step.next(e, true);
        seen.push(step);
    }
    assert_eq!(
        seen,
        vec![
            FanStep::Open,
            FanStep::Count,
            FanStep::Force,
            FanStep::Hold,
            FanStep::Restore,
            FanStep::Exit(0)
        ]
    );
    assert_eq!(FanStep::Count.next(FanEvent::Fans(0), true), FanStep::Exit(0));
    assert_eq!(FanStep::Count.next(FanEvent::Fans(1), false), FanStep::Restore);
    assert_eq!(FanStep::Restore.next(FanEvent::Failed, true), FanStep::Exit(1));
}

#[test]
fn the_doctor_reports() {
    assert!(matches!(
        doctor_cmd::run(&args(&["--no-color"])),
        Ok(DoctorAction::Check { no_color: true })
    ));
    assert_eq!(
        refusal(doctor_cmd::run(&args(&["--x"]))).0,
        "error: unknown argument for doctor: --x"
    );
    let plain = paint(false);
    let sensors = Ok(sensors_detail(2, "45", "44"));
    let sampler = Ok(sampler_detail("Apple M5", 4, 6, 10, "12.3"));
    let (text, well) = report(&plain, true, &sensors, &sampler);
    assert!(well);
    assert!(text.contains("Apple M5"));
    let (_, well) = report(&plain, true, &Err("no service".to_string()), &sampler);
    assert!(!well);
}

#[test]
fn commands_are_dispatched() {
    assert!(matches!(dispatch(&args(&[])), Ok(Command::Dashboard)));
    assert!(matches!(dispatch(&args(&["pipe"])), Ok(Command::Pipe)));
    assert!(matches!(dispatch(&args(&["serve", "-p", "1"])), Ok(Command::Serve)));
    assert!(matches!(dispatch(&args(&["collect"])), Ok(Command::Collect)));
    assert!(matches!(dispatch(&args(&["--version"])), Ok(Command::Version)));
    assert!(matches!(dispatch(&args(&["--help"])), Ok(Command::Help(None))));
    let (message, code) = refusal(dispatch(&args(&["serv"])));
    assert!(message.starts_with("error: unknown command: serv"), "{message}");
    assert!(message.contains("serve"));
    assert_eq!(code, 2);
    assert_eq!(dashboard_options(&args(&["--no-color"])).ok(), Some(true));
    assert_eq!(dashboard_options(&args(&[])).ok(), Some(false));
    let detail = version_detail("1.2.3", "2026-01-01", "abc");
    assert!(detail.contains("1.2.3") && detail.contains("abc"));
    assert!(print_help_for(None, &detail).starts_with("NAME:"));
    assert_eq!(print_help_for(Some("fan"), &detail), fan_cmd::USAGE);
}

#[test]
fn agents_are_described_to_launchd() {
    let list = install_args("/bin/pm", "serve", "--bind", "127.0.0.1", 9090, 1000, AuthArg::Absent);
    assert_eq!(
        list,
        args(&["/bin/pm", "serve", "--bind", "127.0.0.1", "--port", "9090", "--interval", "1000"])
    );
    let list =
        install_args("/bin/pm", "serve", "--bind", "0.0.0.0", 9090, 1000, AuthArg::File("/t"));
    assert_eq!(&list[8..], &args(&["--auth-file", "/t"])[..]);
    let plist = build_plist("power-monitor", &args(&["/bin/pm", "serve"]));
    assert!(plist.contains("<string>/bin/pm</string>"));
    assert!(plist.contains("power-monitor"));
    assert!(plist_path("power-monitor").contains("Library/LaunchAgents"));
}
