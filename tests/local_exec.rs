use local_exec::error::CapturedWorkdirError;
use local_exec::outputs::{
    collect_child_outputs, exit_code_from_status, finish_run, needs_output_snapshot,
    output_globs, should_keep_sandbox, ChildOutput, RunOutcome,
};
use local_exec::process::{apply_chroot, KeepSandboxes, Process, WorkdirSymlink};
use local_exec::script::{quote_arg, run_sh_script};
use local_exec::text::{decimal_text, replace_all_in, same_text};
use local_exec::workdir::{
    executable_path, exclusive_spawn, join_text, parent_dirs, parent_text, rebase_symlinks,
    spawn_lock_for, strip_base_text, workdir_additions, SpawnLock,
};

fn s(v: &str) -> String {
    v.to_string()
}

fn request(argv: &[&str]) -> Process {
    Process {
        argv: argv.iter().map(|a| a.to_string()).collect(),
        env: vec![],
        working_directory: None,
        output_files: vec![],
        output_directories: vec![],
        jdk_home: None,
        timeout_ms: None,
        description: s("test process"),
        keep_sandboxes: KeepSandboxes::Never,
    }
}

fn link(src: &str, dst: &str) -> WorkdirSymlink {
    WorkdirSymlink { src: s(src), dst: s(dst) }
}

#[test]
fn chroot_is_substituted_in_env_values_and_argv() {
    let mut req = request(&["/bin/sh", "-c", "echo $X {chroot}"]);
    req.env = vec![(s("X"), s("{chroot}/marker")), (s("{chroot}"), s("plain"))];
    req.working_directory = Some(s("{chroot}"));
    apply_chroot("/tmp/pants-sandbox-abc", &mut req);
    assert_eq!(req.env[0], (s("X"), s("/tmp/pants-sandbox-abc/marker")));
    assert_eq!(req.env[1], (s("{chroot}"), s("plain")));
    assert_eq!(req.argv[2], "echo $X /tmp/pants-sandbox-abc");
    assert_eq!(req.argv[0], "/bin/sh");
    assert_eq!(req.working_directory, Some(s("{chroot}")));
}

#[test]
fn every_placeholder_occurrence_is_replaced() {
    assert_eq!(replace_all_in("{chroot}{chroot}/x{chroot", "{chroot}", "/s"), "/s/s/x{chroot");
    assert_eq!(replace_all_in("", "{chroot}", "/s"), "");
    assert_eq!(replace_all_in("{{chroot}}", "{chroot}", "P"), "{P}");
}

#[test]
fn keep_sandboxes_names_round_trip() {
    for k in [KeepSandboxes::Always, KeepSandboxes::Never, KeepSandboxes::OnFailure] {
        assert_eq!(KeepSandboxes::from_name(k.name()), Some(k));
    }
    assert_eq!(KeepSandboxes::from_name("on_failure"), Some(KeepSandboxes::OnFailure));
    assert_eq!(KeepSandboxes::from_name("OnFailure"), None);
    assert_eq!(KeepSandboxes::from_name(""), None);
}

#[test]
fn child_outputs_are_collected_in_order() {
    let mut out = vec![];
    let mut err = vec![];
    let events = vec![
        Ok(ChildOutput::Stdout(b"hel".to_vec())),
        Ok(ChildOutput::Stderr(b"oops".to_vec())),
        Ok(ChildOutput::Stdout(b"lo".to_vec())),
        Ok(ChildOutput::Exit(0)),
    ];
    assert_eq!(collect_child_outputs(&mut out, &mut err, events), Ok(0));
    assert_eq!(out, b"hello".to_vec());
    assert_eq!(err, b"oops".to_vec());
}

#[test]
fn missing_exit_event_gives_exit_code_one() {
    let mut out = vec![];
    let mut err = vec![];
    assert_eq!(collect_child_outputs(&mut out, &mut err, vec![]), Ok(1));
    assert!(out.is_empty() && err.is_empty());
}

#[test]
fn failed_event_stops_collection() {
    let mut out = vec![];
    let mut err = vec![];
    let events = vec![
        Ok(ChildOutput::Stdout(b"a".to_vec())),
        Err(s("broken pipe")),
        Ok(ChildOutput::Stdout(b"b".to_vec())),
    ];
    assert_eq!(collect_child_outputs(&mut out, &mut err, events), Err(s("broken pipe")));
    assert_eq!(out, b"a".to_vec());
}

#[test]
fn large_stdout_is_fully_captured() {
    let mut out = Vec::with_capacity(8192);
    let mut err = Vec::with_capacity(8192);
    let chunk = vec![b'x'; 8192];
    let mut events: Vec<Result<ChildOutput, String>> =
        (0..40).map(|_| Ok(ChildOutput::Stdout(chunk.clone()))).collect();
    events.push(Ok(ChildOutput::Exit(3)));
    assert_eq!(collect_child_outputs(&mut out, &mut err, events), Ok(3));
    assert_eq!(out.len(), 40 * 8192);
    assert!(out.iter().all(|b| *b == b'x'));
}

#[test]
fn exit_code_comes_from_code_or_signal() {
    assert_eq!(exit_code_from_status(Some(2), Some(9)), Some(2));
    assert_eq!(exit_code_from_status(None, Some(15)), Some(-15));
    assert_eq!(exit_code_from_status(None, None), None);
}

#[test]
fn timeout_ends_run_with_sigterm_and_notice() {
    let mut req = request(&["/bin/sleep", "10"]);
    req.output_files = vec![s("out.txt")];
    let mut stderr = b"partial".to_vec();
    let drained = Err(CapturedWorkdirError::Timeout { timeout_ms: 100, description: s("sleepy") });
    let r = finish_run(&req, drained, &mut stderr);
    assert_eq!(r.ok(), Some(RunOutcome { exit_code: -15, capture_outputs: false }));
    let text = String::from_utf8(stderr).unwrap();
    assert_eq!(
        text,
        "partial\n\nExceeded timeout of 0.1 seconds when executing local process: sleepy"
    );
}

#[test]
fn zero_timeout_gives_sigterm_exit_code() {
    let req = request(&["/bin/true"]);
    let mut stderr = vec![];
    let drained = Err(CapturedWorkdirError::Timeout { timeout_ms: 0, description: s("d") });
    let r = finish_run(&req, drained, &mut stderr).ok().unwrap();
    assert_eq!(r.exit_code, -15);
    assert!(String::from_utf8(stderr).unwrap().contains("0.0 seconds"));
}

#[test]
fn no_declared_outputs_means_empty_output_digest() {
    let req = request(&["/bin/true"]);
    assert!(!needs_output_snapshot(&req));
    let mut stderr = vec![];
    let r = finish_run(&req, Ok(0), &mut stderr).ok().unwrap();
    assert_eq!(r, RunOutcome { exit_code: 0, capture_outputs: false });
    let mut with_outputs = request(&["/bin/true"]);
    with_outputs.output_directories = vec![s("dist")];
    let r = finish_run(&with_outputs, Ok(7), &mut stderr).ok().unwrap();
    assert_eq!(r, RunOutcome { exit_code: 7, capture_outputs: true });
    assert!(stderr.is_empty());
}

#[test]
fn other_errors_pass_through_finish() {
    let req = request(&["/bin/true"]);
    let mut stderr = vec![];
    let r = finish_run(&req, Err(CapturedWorkdirError::Retryable(s("ipc"))), &mut stderr);
    match r {
        Err(CapturedWorkdirError::Retryable(m)) => assert_eq!(m, "ipc"),
        _ => panic!("expected the retryable error"),
    }
    assert!(stderr.is_empty());
}

#[test]
fn error_messages() {
    let t = CapturedWorkdirError::Timeout { timeout_ms: 1500, description: s("p") };
    assert_eq!(t.message(), "Exceeded timeout of 1.5 seconds when executing local process: p");
    let t = CapturedWorkdirError::Timeout { timeout_ms: 12_340, description: s("p") };
    assert_eq!(t.message(), "Exceeded timeout of 12.3 seconds when executing local process: p");
    assert_eq!(CapturedWorkdirError::Retryable(s("try")).message(), "try (retryable error)");
    assert_eq!(CapturedWorkdirError::Fatal(s("bad")).message(), "bad");
    match CapturedWorkdirError::from(s("x")) {
        CapturedWorkdirError::Fatal(m) => assert_eq!(m, "x"),
        _ => panic!("expected a fatal error"),
    }
}

#[test]
fn sandbox_keep_policy() {
    assert!(should_keep_sandbox(KeepSandboxes::Always, Some(0)));
    assert!(should_keep_sandbox(KeepSandboxes::Always, None));
    assert!(!should_keep_sandbox(KeepSandboxes::Never, Some(1)));
    assert!(!should_keep_sandbox(KeepSandboxes::Never, None));
    assert!(should_keep_sandbox(KeepSandboxes::OnFailure, Some(1)));
    assert!(should_keep_sandbox(KeepSandboxes::OnFailure, None));
    assert!(!should_keep_sandbox(KeepSandboxes::OnFailure, Some(0)));
}

#[test]
fn empty_argv_is_fatal() {
    let req = request(&[]);
    match executable_path("/sb", &req) {
        Err(CapturedWorkdirError::Fatal(_)) => {}
        _ => panic!("expected a fatal error"),
    }
}

#[test]
fn executable_path_inside_sandbox() {
    let mut req = request(&["bin/tool", "arg"]);
    assert_eq!(executable_path("/sb", &req).ok().unwrap(), Some(s("/sb/bin/tool")));
    req.working_directory = Some(s("sub/dir"));
    assert_eq!(executable_path("/sb", &req).ok().unwrap(), Some(s("/sb/sub/dir/bin/tool")));
    let abs = request(&["/bin/sh"]);
    assert_eq!(executable_path("/sb", &abs).ok().unwrap(), None);
}

#[test]
fn sandbox_resident_executable_spawns_exclusively() {
    let req = request(&["./run_me"]);
    let exe = executable_path("/sb", &req).ok().unwrap();
    assert_eq!(spawn_lock_for(exclusive_spawn(&exe, true)), SpawnLock::Exclusive);
    assert_eq!(spawn_lock_for(exclusive_spawn(&exe, false)), SpawnLock::Shared);
    assert_eq!(spawn_lock_for(exclusive_spawn(&None, true)), SpawnLock::Shared);
}

#[test]
fn parent_dirs_are_unique_and_non_empty() {
    let paths = vec![s("a/b/c.txt"), s("a/b/d.txt"), s("top.txt"), s("x/y"), s("")];
    let dirs = parent_dirs(&paths);
    assert_eq!(dirs, vec![s("a/b"), s("x")]);
    assert_eq!(parent_text("top.txt"), Some(s("")));
    assert_eq!(parent_text(""), None);
}

#[test]
fn additions_hold_links_jdk_and_output_parents() {
    let mut req = request(&["/bin/true"]);
    req.jdk_home = Some(s("/opt/jdk"));
    req.output_files = vec![s("out/a.txt")];
    req.output_directories = vec![s("gen/classes")];
    let links = vec![link("imm/abc", "/cache/imm/abc"), link("caches/pip", "/cache/named/pip")];
    let a = workdir_additions(&req, &links, &vec![s("src/main.py")]).ok().unwrap();
    let got: Vec<(String, String)> = a.links.iter().map(|l| (l.src.clone(), l.dst.clone())).collect();
    assert_eq!(
        got,
        vec![
            (s("imm/abc"), s("/cache/imm/abc")),
            (s("caches/pip"), s("/cache/named/pip")),
            (s(".jdk"), s("/opt/jdk")),
        ]
    );
    assert_eq!(a.dirs, vec![s("out"), s("gen")]);
}

#[test]
fn symlink_colliding_with_input_is_fatal() {
    let req = request(&["/bin/true"]);
    let links = vec![link("tools", "/cache/named/tools")];
    match workdir_additions(&req, &links, &vec![s("README"), s("tools")]) {
        Err(CapturedWorkdirError::Fatal(_)) => {}
        _ => panic!("expected a fatal error"),
    }
    let dup = vec![link("t", "/a"), link("t", "/b")];
    assert!(workdir_additions(&req, &dup, &vec![]).is_err());
    let mut with_out = request(&["/bin/true"]);
    with_out.output_files = vec![s("t/x")];
    assert!(workdir_additions(&with_out, &vec![link("t", "/a")], &vec![]).is_err());
    assert!(workdir_additions(&with_out, &vec![link("u", "/a")], &vec![]).is_ok());
}

#[test]
fn symlink_targets_move_below_prefix() {
    let links = vec![link("imm/abc", "/cache/imm/abc"), link("imm/root", "/cache/imm")];
    let moved = rebase_symlinks(&links, "/cache/imm", "/mnt/imm").ok().unwrap();
    assert_eq!(moved[0].src, "imm/abc");
    assert_eq!(moved[0].dst, "/mnt/imm/abc");
    assert_eq!(moved[1].dst, "/mnt/imm/");
    assert!(rebase_symlinks(&vec![link("x", "/cache/immx/y")], "/cache/imm", "/mnt").is_err());
    assert_eq!(strip_base_text("/a/b/c", "/a"), Some(s("b/c")));
    assert_eq!(strip_base_text("/ab", "/a"), None);
}

#[test]
fn paths_join_like_std() {
    assert_eq!(join_text("/sb", "x/y"), "/sb/x/y");
    assert_eq!(join_text("/sb/", "x"), "/sb/x");
    assert_eq!(join_text("/sb", "/abs"), "/abs");
    assert_eq!(join_text("", "x"), "x");
}

#[test]
fn output_globs_cover_directories_and_files() {
    let globs = output_globs(&vec![s("out.txt")], &vec![s(""), s("dist")]);
    assert_eq!(globs, vec![s("."), s("./**"), s("dist"), s("dist/**"), s("out.txt")]);
    assert!(output_globs(&vec![], &vec![]).is_empty());
}

#[test]
fn replay_script_text() {
    let env = vec![(s("A"), s("b c")), (s("PATH"), s(""))];
    let argv = vec![s("/bin/echo"), s("hi")];
    let text = run_sh_script("/tmp/sb", &env, &Some(s("sub")), &argv).unwrap();
    assert_eq!(
        text,
        "#!/usr/bin/env bash\n# This command line should execute the same process as pants did internally.\ncd /tmp/sb/sub\nenv -i A=$'b c' PATH='' /bin/echo hi\n"
    );
}

#[test]
fn quoting_changes_text_that_needs_it() {
    assert_eq!(quote_arg("plain"), Some(s("plain")));
    assert_eq!(quote_arg("a b"), Some(s("$'a b'")));
    assert_eq!(quote_arg(""), Some(s("''")));
}

#[test]
fn decimal_and_text_helpers() {
    assert_eq!(decimal_text(0), "0");
    assert_eq!(decimal_text(907), "907");
    assert_eq!(decimal_text(u64::MAX), u64::MAX.to_string());
    assert!(same_text("abc", "abc"));
    assert!(!same_text("abc", "abd"));
}
