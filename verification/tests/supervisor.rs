use procstar::env::{build, EnvInherit, EnvSpec};
use procstar::envjson::{parse_env_spec, serialize_env_spec};
use procstar::err::{ProcError, SpecError};
use procstar::fd::{get_fd_name, parse_fd_name, CaptureBuffer, CaptureFormat, FdHandler, FdRes};
use procstar::launch::{
    check_restricted, get_exe, get_restricted_exe, make_fd_handlers, plan_starts, restrict_exe,
    CaptureMode, FdSpec, ProcSpec, DEFAULT_CAPTURE_CAP,
};
use procstar::proc::{Proc, ProcStat, Rusage, Status, WaitInfo};
use procstar::registry::{wait_idle_done, wait_running_done, Notification, Procs};
use procstar::state::State;

fn s(x: &str) -> String {
    String::from(x)
}

fn pairs(ps: &[(&str, &str)]) -> Vec<(String, String)> {
    ps.iter().map(|(a, b)| (s(a), s(b))).collect()
}

fn lookup<'a>(env: &'a [(String, String)], key: &str) -> Option<&'a str> {
    env.iter().find(|(k, _)| k == key).map(|(_, v)| v.as_str())
}

fn rusage0() -> Rusage {
    Rusage { utime_us: 0, stime_us: 0, maxrss_kb: 0 }
}

// ---------------------------------------------------------------- env json

#[test]
fn empty() {
    let e = parse_env_spec(r#" {} "#).unwrap();
    assert!(matches!(e.inherit, EnvInherit::All));
    assert_eq!(e.vars.len(), 0);
}

#[test]
fn inherit_none() {
    let e = parse_env_spec(r#" {"inherit": false} "#).unwrap();
    assert!(matches!(e.inherit, EnvInherit::NoInherit));
    assert_eq!(e.vars.len(), 0);
}

#[test]
fn inherit_vars() {
    let e = parse_env_spec(r#" {"inherit": ["HOME", "USER", "PATH"]} "#).unwrap();
    match &e.inherit {
        EnvInherit::Vars(names) => {
            assert_eq!(names.len(), 3);
            assert_eq!(names[0], "HOME");
            assert_eq!(names[1], "USER");
            assert_eq!(names[2], "PATH");
        }
        _ => panic!("expected a named inheritance list"),
    }
    assert_eq!(e.vars.len(), 0);
}

#[test]
fn vars() {
    let e = parse_env_spec(r#" {"vars": {"FOO": "42", "BAR": "somewhere with drinks"}} "#)
        .unwrap();
    assert!(matches!(e.inherit, EnvInherit::All));
    assert_eq!(e.vars.len(), 2);
    assert_eq!(lookup(&e.vars, "FOO"), Some("42"));
    assert_eq!(lookup(&e.vars, "BAR"), Some("somewhere with drinks"));
}

#[test]
fn env_json_round_trips() {
    let cases = vec![
        EnvSpec { inherit: EnvInherit::All, vars: vec![] },
        EnvSpec { inherit: EnvInherit::NoInherit, vars: pairs(&[("FOO", "1")]) },
        EnvSpec {
            inherit: EnvInherit::Vars(vec![s("HOME"), s("USER")]),
            vars: pairs(&[("A", "x\"y\\z"), ("B", "")]),
        },
        EnvSpec { inherit: EnvInherit::Vars(vec![]), vars: vec![] },
    ];
    for e in cases {
        let text = serialize_env_spec(&e);
        let back = parse_env_spec(text.as_str()).unwrap();
        match (&e.inherit, &back.inherit) {
            (EnvInherit::All, EnvInherit::All) => {}
            (EnvInherit::NoInherit, EnvInherit::NoInherit) => {}
            (EnvInherit::Vars(a), EnvInherit::Vars(b)) => assert_eq!(a, b),
            _ => panic!("inheritance changed over the round trip"),
        }
        assert_eq!(e.vars, back.vars);
    }
}

#[test]
fn env_json_rejects_malformed() {
    assert!(parse_env_spec("").is_none());
    assert!(parse_env_spec("{").is_none());
    assert!(parse_env_spec(r#"{"inherit": maybe}"#).is_none());
    assert!(parse_env_spec(r#"{"other": true}"#).is_none());
    assert!(parse_env_spec(r#"{} trailing"#).is_none());
}

// ---------------------------------------------------------------- env build

#[test]
fn build_inherit_listed_and_override() {
    let parent = pairs(&[("HOME", "/h"), ("USER", "u")]);
    let spec = EnvSpec {
        inherit: EnvInherit::Vars(vec![s("HOME")]),
        vars: pairs(&[("FOO", "1")]),
    };
    let env = build(&parent, &spec);
    assert_eq!(env.len(), 2);
    assert_eq!(lookup(&env, "HOME"), Some("/h"));
    assert_eq!(lookup(&env, "FOO"), Some("1"));
    assert_eq!(lookup(&env, "USER"), None);
}

#[test]
fn build_overrides_win_on_collision() {
    let parent = pairs(&[("HOME", "/h"), ("LANG", "C")]);
    let spec = EnvSpec { inherit: EnvInherit::All, vars: pairs(&[("HOME", "/elsewhere")]) };
    let env = build(&parent, &spec);
    assert_eq!(env.len(), 2);
    assert_eq!(lookup(&env, "HOME"), Some("/elsewhere"));
    assert_eq!(lookup(&env, "LANG"), Some("C"));
}

#[test]
fn build_inherit_nothing() {
    let parent = pairs(&[("HOME", "/h")]);
    let spec = EnvSpec { inherit: EnvInherit::NoInherit, vars: vec![] };
    let env = build(&parent, &spec);
    assert_eq!(env.len(), 0);
}

// ---------------------------------------------------------------- fd names

#[test]
fn fd_names_parse_and_print() {
    assert_eq!(parse_fd_name("stdin"), Some(0));
    assert_eq!(parse_fd_name("stdout"), Some(1));
    assert_eq!(parse_fd_name("stderr"), Some(2));
    assert_eq!(parse_fd_name("7"), Some(7));
    assert_eq!(parse_fd_name("42"), Some(42));
    assert_eq!(parse_fd_name(""), None);
    assert_eq!(parse_fd_name("out"), None);
    assert_eq!(parse_fd_name("1x"), None);
    assert_eq!(parse_fd_name("1234567890"), None);
    assert_eq!(get_fd_name(0), "stdin");
    assert_eq!(get_fd_name(1), "stdout");
    assert_eq!(get_fd_name(2), "stderr");
    assert_eq!(get_fd_name(17), "17");
    assert_eq!(parse_fd_name(get_fd_name(305).as_str()), Some(305));
}

// ---------------------------------------------------------------- capture

#[test]
fn capture_keeps_bytes_within_cap() {
    let mut buf = CaptureBuffer::new(16);
    buf.append(b"hello ");
    buf.append(b"world");
    assert_eq!(buf.data, b"hello world".to_vec());
    assert!(!buf.truncated);
    assert_eq!(buf.get_data(0, None), b"hello world".to_vec());
    assert_eq!(buf.get_data(6, Some(11)), b"world".to_vec());
    assert_eq!(buf.get_data(100, None), Vec::<u8>::new());
}

#[test]
fn capture_truncates_at_cap() {
    let mut buf = CaptureBuffer::new(4);
    buf.append(b"abcdef");
    assert_eq!(buf.data, b"abcd".to_vec());
    assert!(buf.truncated);
    buf.append(b"gh");
    assert_eq!(buf.data, b"abcd".to_vec());
    assert!(buf.truncated);
}

#[test]
fn fd_handler_results() {
    assert!(FdHandler::Inherit.get_result().is_none());
    let file = FdHandler::File { path: s("/tmp/out.log") };
    match file.get_result() {
        Some(FdRes::File { path }) => assert_eq!(path, "/tmp/out.log"),
        _ => panic!("expected a file result"),
    }
    let mut buf = CaptureBuffer::new(8);
    buf.append(b"hi\n");
    let capture = FdHandler::Capture { format: CaptureFormat::Text, buf };
    match capture.get_result() {
        Some(FdRes::Capture { format, data, truncated }) => {
            assert_eq!(format, CaptureFormat::Text);
            assert_eq!(data, b"hi\n".to_vec());
            assert!(!truncated);
        }
        _ => panic!("expected a capture result"),
    }
}

// ---------------------------------------------------------------- status

#[test]
fn status_decodes_exit_and_signal() {
    let exited = Status::new(2 << 8);
    assert_eq!(exited.exit_code, Some(2));
    assert_eq!(exited.signum, None);
    assert!(!exited.core_dump);

    let zero = Status::new(0);
    assert_eq!(zero.exit_code, Some(0));

    let reserved = Status::new(63 << 8);
    assert_eq!(reserved.exit_code, Some(63));

    let signaled = Status::new(15);
    assert_eq!(signaled.exit_code, None);
    assert_eq!(signaled.signum, Some(15));
    assert!(!signaled.core_dump);

    let dumped = Status::new(6 | 0x80);
    assert_eq!(dumped.signum, Some(6));
    assert!(dumped.core_dump);
}

// ---------------------------------------------------------------- record

#[test]
fn record_state_machine() {
    let mut p = Proc::new(100, vec![]);
    assert_eq!(p.get_state(), State::Running);

    let mut errs = vec![s("execve failed: /no/such/file")];
    p.append_errors(&mut errs);
    assert_eq!(p.get_state(), State::Error);
    assert!(p.errors[0].contains("execve failed"));

    let w = WaitInfo { pid: 100, status: 63 << 8, rusage: rusage0() };
    let stat = Some(ProcStat { pid: 100, raw: s("100 (x) Z") });
    p.finalize(w, stat);
    assert_eq!(p.get_state(), State::Terminated);
    assert!(p.stop_time.is_some());
    assert!(p.elapsed_ms.is_some());
    assert_eq!(p.proc_stat.as_ref().unwrap().pid, 100);

    let res = p.to_result(None);
    assert_eq!(res.state, State::Terminated);
    assert_eq!(res.pid, 100);
    assert_eq!(res.status.unwrap().exit_code, Some(63));
    assert!(res.rusage.is_some());
    assert!(res.proc_statm.is_none());
    assert_eq!(res.errors.len(), 1);
}

#[test]
fn record_capture_and_fd_data() {
    let handlers = make_fd_handlers(
        &vec![
            (1, FdSpec::Capture { mode: CaptureMode::Memory, format: CaptureFormat::Text }),
            (0, FdSpec::NullRead),
        ],
        DEFAULT_CAPTURE_CAP,
    );
    let mut p = Proc::new(7, handlers);
    assert!(p.append_capture(1, b"hi\n"));
    assert!(!p.append_capture(0, b"nope"));
    assert!(!p.append_capture(9, b"nope"));
    assert_eq!(p.get_fd_data(1, 0, None).unwrap(), Some(b"hi\n".to_vec()));
    assert_eq!(p.get_fd_data(0, 0, None).unwrap(), None);
    match p.get_fd_data(5, 0, None) {
        Err(ProcError::NoFd(5)) => {}
        _ => panic!("expected a missing-fd error"),
    }
    let res = p.to_result(None);
    assert_eq!(res.fds.len(), 2);
    assert_eq!(res.fds[0].0, "stdout");
    match &res.fds[0].1 {
        Some(FdRes::Capture { data, .. }) => assert_eq!(data, &b"hi\n".to_vec()),
        _ => panic!("expected captured output"),
    }
}

// ---------------------------------------------------------------- registry

#[test]
fn registry_lifecycle_notifications_in_order() {
    let mut procs = Procs::new();
    let mut notes: Vec<Notification> = Vec::new();

    notes.push(procs.insert(s("e"), Proc::new(41, vec![])));
    assert_eq!(procs.len(), 1);

    let w = WaitInfo { pid: 41, status: 0, rusage: rusage0() };
    assert!(procs.finalize_proc("e", w, None));
    notes.push(procs.notify_not_running("e").unwrap());
    assert!(procs.notify_not_running("e").is_none());

    let (_proc, delete) = procs.remove_if_not_running("e").unwrap();
    notes.push(delete);

    match &notes[..] {
        [Notification::Start(a), Notification::NotRunning(b), Notification::Delete(c)] => {
            assert_eq!(a, "e");
            assert_eq!(b, "e");
            assert_eq!(c, "e");
        }
        _ => panic!("expected the full lifecycle, in order"),
    }
    assert_eq!(procs.len(), 0);
}

#[test]
fn registry_remove_running_is_refused() {
    let mut procs = Procs::new();
    procs.insert(s("d"), Proc::new(55, vec![]));
    match procs.remove_if_not_running("d") {
        Err(ProcError::ProcRunning(id)) => assert_eq!(id, "d"),
        _ => panic!("expected the running-record refusal"),
    }
    assert_eq!(procs.len(), 1);
    match procs.remove_if_not_running("nope") {
        Err(ProcError::NoProcId(id)) => assert_eq!(id, "nope"),
        _ => panic!("expected the unknown-id refusal"),
    }
}

#[test]
fn registry_sorted_order_and_queries() {
    let mut procs = Procs::new();
    procs.insert(s("b"), Proc::new(2, vec![]));
    procs.insert(s("a"), Proc::new(1, vec![]));
    procs.insert(s("c"), Proc::new(3, vec![]));
    assert_eq!(procs.get_proc_ids(), vec![s("a"), s("b"), s("c")]);
    assert_eq!(procs.len(), 3);
    assert_eq!(procs.get("b").unwrap().pid, 2);
    assert!(procs.get("zzz").is_none());
    let (first_id, first) = procs.first().unwrap();
    assert_eq!(first_id, "a");
    assert_eq!(first.pid, 1);

    let w = WaitInfo { pid: 1, status: 0, rusage: rusage0() };
    assert!(procs.finalize_proc("a", w, None));
    let (run_id, run) = procs.first_running().unwrap();
    assert_eq!(run_id, "b");
    assert_eq!(run.pid, 2);
    assert_eq!(procs.running_pids(), vec![2, 3]);

    let (pop_id, popped, note) = procs.pop().unwrap();
    assert_eq!(pop_id, "a");
    assert_eq!(popped.pid, 1);
    assert!(matches!(note, Notification::Delete(_)));
}

#[test]
fn registry_collect_results_empties_and_deletes() {
    let mut procs = Procs::new();
    procs.set_shutdown_on_idle();
    procs.insert(s("y"), Proc::new(20, vec![]));
    procs.insert(s("x"), Proc::new(10, vec![]));
    let (results, notes) = procs.collect_results();
    assert_eq!(procs.len(), 0);
    assert!(procs.shutdown);
    assert_eq!(results.len(), 2);
    assert_eq!(results[0].0, "x");
    assert_eq!(results[1].0, "y");
    assert_eq!(results[0].1.pid, 10);
    match &notes[..] {
        [Notification::Delete(a), Notification::Delete(b)] => {
            assert_eq!(a, "x");
            assert_eq!(b, "y");
        }
        _ => panic!("expected one delete per record, in id order"),
    }
}

#[test]
fn registry_finalize_rules() {
    let mut procs = Procs::new();
    procs.insert(s("p"), Proc::new(77, vec![]));
    let wrong_pid = WaitInfo { pid: 78, status: 0, rusage: rusage0() };
    assert!(!procs.finalize_proc("p", wrong_pid, None));
    let w = WaitInfo { pid: 77, status: 0, rusage: rusage0() };
    assert!(procs.finalize_proc("p", w, None));
    // a record is finalized at most once
    assert!(!procs.finalize_proc("p", w, None));
    assert!(!procs.finalize_proc("q", w, None));
}

#[test]
fn registry_error_drain_goes_to_record() {
    let mut procs = Procs::new();
    procs.insert(s("r"), Proc::new(9, vec![]));
    let mut errs = vec![s("restricted executable: /usr/bin/true")];
    assert!(procs.append_errors_to("r", &mut errs));
    assert!(errs.is_empty());
    let rec = procs.get("r").unwrap();
    assert_eq!(rec.get_state(), State::Error);
    assert!(rec.errors[0].contains("restricted executable"));
}

#[test]
fn wait_decisions() {
    let not_running = Notification::NotRunning(s("a"));
    let delete = Notification::Delete(s("a"));
    let start = Notification::Start(s("a"));
    assert!(wait_running_done(&not_running, "a"));
    assert!(wait_running_done(&delete, "a"));
    assert!(!wait_running_done(&start, "a"));
    assert!(!wait_running_done(&not_running, "b"));
    assert!(wait_idle_done(&delete, "a"));
    assert!(!wait_idle_done(&not_running, "a"));
}

// ---------------------------------------------------------------- launch

fn plain_spec(argv: &[&str]) -> ProcSpec {
    ProcSpec {
        argv: argv.iter().map(|a| s(a)).collect(),
        exe: None,
        env: EnvSpec { inherit: EnvInherit::All, vars: vec![] },
        fds: vec![],
    }
}

#[test]
fn empty_batch_starts_nothing() {
    let procs = Procs::new();
    let plans = plan_starts(&vec![], &procs, &vec![], &None).unwrap();
    assert_eq!(plans.len(), 0);
}

#[test]
fn duplicate_id_in_batch_rejected() {
    let procs = Procs::new();
    let specs = vec![
        (s("a"), plain_spec(&["/bin/true"])),
        (s("a"), plain_spec(&["/bin/false"])),
    ];
    match plan_starts(&specs, &procs, &vec![], &None) {
        Err(SpecError::DuplicateProcId(id)) => assert_eq!(id, "a"),
        _ => panic!("expected the duplicate id to reject the batch"),
    }
}

#[test]
fn duplicate_id_against_registry_rejected() {
    let mut procs = Procs::new();
    procs.insert(s("a"), Proc::new(5, vec![]));
    let specs = vec![(s("a"), plain_spec(&["/bin/true"]))];
    match plan_starts(&specs, &procs, &vec![], &None) {
        Err(SpecError::DuplicateProcId(id)) => assert_eq!(id, "a"),
        _ => panic!("expected the duplicate id to reject the batch"),
    }
}

#[test]
fn plan_resolves_exe_env_and_fds() {
    let procs = Procs::new();
    let mut spec = plain_spec(&["/bin/sh", "-c", "echo hi"]);
    spec.env = EnvSpec {
        inherit: EnvInherit::Vars(vec![s("HOME")]),
        vars: pairs(&[("FOO", "1")]),
    };
    spec.fds = vec![(
        s("stdout"),
        FdSpec::Capture { mode: CaptureMode::Memory, format: CaptureFormat::Text },
    )];
    let parent = pairs(&[("HOME", "/h"), ("USER", "u")]);
    let plans = plan_starts(&vec![(s("b"), spec)], &procs, &parent, &None).unwrap();
    assert_eq!(plans.len(), 1);
    let plan = &plans[0];
    assert_eq!(plan.proc_id, "b");
    assert_eq!(plan.exe, "/bin/sh");
    assert_eq!(plan.argv, vec![s("/bin/sh"), s("-c"), s("echo hi")]);
    assert_eq!(lookup(&plan.env, "HOME"), Some("/h"));
    assert_eq!(lookup(&plan.env, "FOO"), Some("1"));
    assert_eq!(lookup(&plan.env, "USER"), None);
    assert_eq!(plan.fds.len(), 1);
    assert_eq!(plan.fds[0].0, 1);
    assert!(plan.restricted_error.is_none());
}

#[test]
fn bad_fd_names_and_dups_rejected() {
    let procs = Procs::new();
    let mut spec = plain_spec(&["/bin/true"]);
    spec.fds = vec![(s("bogus"), FdSpec::Inherit)];
    match plan_starts(&vec![(s("a"), spec)], &procs, &vec![], &None) {
        Err(SpecError::InvalidFdName(name)) => assert_eq!(name, "bogus"),
        _ => panic!("expected the fd name to be rejected"),
    }

    let mut spec = plain_spec(&["/bin/true"]);
    spec.fds = vec![(s("stdout"), FdSpec::Dup { from: 9 })];
    match plan_starts(&vec![(s("a"), spec)], &procs, &vec![], &None) {
        Err(SpecError::UnknownFdRef(name)) => assert_eq!(name, "stdout"),
        _ => panic!("expected the unknown duplication target to be rejected"),
    }

    let mut spec = plain_spec(&["/bin/true"]);
    spec.fds = vec![
        (s("stdout"), FdSpec::Dup { from: 2 }),
        (s("stderr"), FdSpec::Dup { from: 1 }),
    ];
    match plan_starts(&vec![(s("a"), spec)], &procs, &vec![], &None) {
        Err(SpecError::FdDupCycle(_)) => {}
        _ => panic!("expected the duplication cycle to be rejected"),
    }

    let mut spec = plain_spec(&["/bin/true"]);
    spec.fds = vec![
        (s("stdout"), FdSpec::Dup { from: 2 }),
        (s("stderr"), FdSpec::File { path: s("/tmp/log") }),
    ];
    let plans = plan_starts(&vec![(s("a"), spec)], &procs, &vec![], &None).unwrap();
    assert_eq!(plans[0].fds.len(), 2);
}

#[test]
fn malformed_specs_rejected() {
    let procs = Procs::new();
    match plan_starts(&vec![(s(""), plain_spec(&["/bin/true"]))], &procs, &vec![], &None) {
        Err(SpecError::MalformedSpec(_)) => {}
        _ => panic!("expected the empty id to be rejected"),
    }
    match plan_starts(&vec![(s("a"), plain_spec(&[]))], &procs, &vec![], &None) {
        Err(SpecError::MalformedSpec(_)) => {}
        _ => panic!("expected the empty command line to be rejected"),
    }
}

#[test]
fn restriction_checked_per_spec() {
    let mut restriction: Option<String> = None;
    assert!(get_restricted_exe(&restriction).is_none());
    restrict_exe(&mut restriction, "/usr/bin/true");
    assert_eq!(get_restricted_exe(&restriction).unwrap(), "/usr/bin/true");

    assert!(check_restricted(&restriction, "/usr/bin/true").is_none());
    let msg = check_restricted(&restriction, "/bin/sh").unwrap();
    assert!(msg.contains("restricted executable"));
    assert_eq!(msg, "restricted executable: /usr/bin/true");

    let procs = Procs::new();
    let specs = vec![(s("a"), plain_spec(&["/bin/sh"]))];
    let plans = plan_starts(&specs, &procs, &vec![], &restriction).unwrap();
    assert!(plans[0].restricted_error.as_ref().unwrap().contains("restricted executable"));
}

#[test]
fn exe_defaults_to_argv0() {
    let spec = plain_spec(&["/bin/echo", "hi"]);
    assert_eq!(get_exe(&spec), "/bin/echo");
    let mut spec = plain_spec(&["echo", "hi"]);
    spec.exe = Some(s("/usr/bin/echo"));
    assert_eq!(get_exe(&spec), "/usr/bin/echo");
}
