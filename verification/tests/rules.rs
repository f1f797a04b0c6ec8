use ulatencyd::info::{ProcessInfo, SchedPolicy, SessionOrigin};
use ulatencyd::rules::{
    compile_rule, default_priority, merge_action, resolve_profile_action, rule_file_kind,
    rule_files, Action, ActionToml, ExceptionList, MatchToml, Matchers, ProfileToml, RuleEngine,
    RuleFile, RuleFileKind, RuleToml,
};

fn make_proc(comm: &str) -> ProcessInfo {
    ProcessInfo {
        pid: 1234,
        ppid: 1,
        uid: 1000,
        gid: 1000,
        comm: comm.to_string(),
        cmdline: vec![comm.to_string()],
        exe: None,
        threads: 1,
        vm_rss_kb: 0,
        sched_policy: SchedPolicy::Normal,
        nice: 0,
        cgroup_path: None,
        session_origin: SessionOrigin::Unknown,
        is_kernel_thread: false,
        environ: vec![],
    }
}

fn texts(v: &[&str]) -> Vec<String> {
    v.iter().map(|s| s.to_string()).collect()
}

fn rule(name: &str, priority: i32, comm: &[&str], action: ActionToml, continue_: bool) -> RuleToml {
    RuleToml {
        name: name.to_string(),
        priority,
        match_: MatchToml { comm: texts(comm), ..Default::default() },
        action,
        continue_,
    }
}

fn file(rule: Vec<RuleToml>) -> RuleFile {
    RuleFile { rule, profile: vec![] }
}

#[test]
fn exception_list_exact_match() {
    let ex = ExceptionList::default();
    let proc = make_proc("chrt");
    assert!(ex.is_exempt(&proc, &[]));
}

#[test]
fn exception_list_ancestor() {
    let ex = ExceptionList::default();
    let proc = make_proc("my-app");
    let ancestors = vec!["gamemoderun".to_string()];
    assert!(ex.is_exempt(&proc, &ancestors));
}

#[test]
fn exception_list_normal_not_exempt() {
    let ex = ExceptionList::default();
    let proc = make_proc("firefox");
    assert!(!ex.is_exempt(&proc, &[]));
}

#[test]
fn matchers_comm_match() {
    let m = Matchers { comm: vec!["pipewire".to_string()], ..Default::default() };
    let proc = make_proc("pipewire");
    assert!(m.matches(&proc, None));
}

#[test]
fn matchers_comm_no_match() {
    let m = Matchers { comm: vec!["jackd".to_string()], ..Default::default() };
    let proc = make_proc("firefox");
    assert!(!m.matches(&proc, None));
}

#[test]
fn wildmatch_cgroup_glob() {
    let pattern = "/user.slice/*.service";
    let glob = wildmatch::WildMatch::new(pattern);
    assert!(glob.matches("/user.slice/app.service"));
    assert!(!glob.matches("/system.slice/app.service"));

    let m = Matchers { cgroup_path_glob: Some(pattern.to_string()), ..Default::default() };
    let mut proc = make_proc("app");
    proc.cgroup_path = Some("/user.slice/app.service".to_string());
    assert!(m.matches(&proc, None));
    proc.cgroup_path = Some("/system.slice/app.service".to_string());
    assert!(!m.matches(&proc, None));
}

#[test]
fn ancestors_on_the_exact_list_alone_exempt_nobody() {
    let ex = ExceptionList::default();
    assert!(ex.is_exempt(&make_proc("systemd"), &[]));
    assert!(!ex.is_exempt(&make_proc("bash"), &texts(&["systemd", "dbus"])));
    assert!(ex.is_exempt(&make_proc("bash"), &texts(&["systemd", "nice"])));
}

#[test]
fn wildcards_follow_the_outside_matcher() {
    let cases = [
        ("*", "", true),
        ("?", "", false),
        ("a*b?d", "axxbcd", true),
        ("a*b?d", "abd", false),
        ("*.service", "x.service.d", false),
        ("/a/?", "/a/b", true),
        ("**x", "x", true),
    ];
    for (pattern, s, expected) in cases {
        let m = Matchers { cgroup_path_glob: Some(pattern.to_string()), ..Default::default() };
        let mut proc = make_proc("p");
        proc.cgroup_path = Some(s.to_string());
        assert_eq!(m.matches(&proc, None), expected, "{} {}", pattern, s);
    }
}

#[test]
fn every_predicate_has_to_hold() {
    let mut proc = make_proc("my-synth");
    proc.cmdline = texts(&["/usr/bin/my-synth", "--realtime", "-p", "4"]);
    proc.exe = Some("/usr/bin/my-synth".to_string());
    proc.threads = 4;
    proc.vm_rss_kb = 100 * 1024;
    proc.environ = vec![("JACK".to_string(), "1".to_string())];
    proc.cgroup_path = Some("/user.slice/x".to_string());
    let m = Matchers {
        comm_prefix: texts(&["my-"]),
        cmdline_contains: texts(&["--realtime -p"]),
        exe_path: texts(&["/usr//bin/./my-synth"]),
        uid: vec![0, 1000],
        env_set: texts(&["JACK"]),
        min_threads: Some(4),
        min_rss_mb: Some(100),
        parent_comm: texts(&["bash"]),
        cgroup_path_contains: texts(&["user"]),
        cgroup_path_exact: Some("/user.slice/x".to_string()),
        ..Default::default()
    };
    assert!(m.matches(&proc, Some("bash")));
    assert!(!m.matches(&proc, Some("zsh")));
    assert!(!m.matches(&proc, None));

    let mut other = proc.copied();
    other.vm_rss_kb = 100 * 1024 - 1;
    assert!(!m.matches(&other, Some("bash")));
    let mut other = proc.copied();
    other.threads = 3;
    assert!(!m.matches(&other, Some("bash")));
    let mut other = proc.copied();
    other.environ = vec![];
    assert!(!m.matches(&other, Some("bash")));
    let mut other = proc.copied();
    other.exe = None;
    assert!(!m.matches(&other, Some("bash")));
    let mut other = proc.copied();
    other.uid = 1;
    assert!(!m.matches(&other, Some("bash")));
    let mut other = proc.copied();
    other.cgroup_path = Some("/user.slice/xy".to_string());
    assert!(!m.matches(&other, Some("bash")));
    let mut other = proc.copied();
    other.cmdline = texts(&["--realtime", "x", "-p"]);
    assert!(!m.matches(&other, Some("bash")));
}

#[test]
fn a_process_without_cgroup_path() {
    let proc = make_proc("p");
    let contains = Matchers { cgroup_path_contains: texts(&["user"]), ..Default::default() };
    assert!(!contains.matches(&proc, None));
    assert!(Matchers::default().matches(&proc, None));
    let glob = Matchers { cgroup_path_glob: Some("*".to_string()), ..Default::default() };
    assert!(!glob.matches(&proc, None));
    let exact = Matchers { cgroup_path_exact: Some("/".to_string()), ..Default::default() };
    assert!(!exact.matches(&proc, None));
}

#[test]
fn compiling_tells_patterns_from_paths() {
    let mut r = rule("r", 7, &["x"], ActionToml::default(), false);
    r.match_.cgroup_path = Some("/a/*".to_string());
    let c = compile_rule(&r);
    assert_eq!(c.matchers.cgroup_path_glob.as_deref(), Some("/a/*"));
    assert_eq!(c.matchers.cgroup_path_exact, None);
    r.match_.cgroup_path = Some("/a/?".to_string());
    assert!(compile_rule(&r).matchers.cgroup_path_glob.is_some());
    r.match_.cgroup_path = Some("/a/b".to_string());
    r.action.apply_to_children = Some(true);
    r.action.continue_ = Some(true);
    let c = compile_rule(&r);
    assert_eq!(c.matchers.cgroup_path_glob, None);
    assert_eq!(c.matchers.cgroup_path_exact.as_deref(), Some("/a/b"));
    assert_eq!(c.action.rule_name, "r");
    assert_eq!(c.priority, 7);
    assert!(c.action.apply_to_children);
    assert!(c.continue_);
    assert_eq!(default_priority(), 50);
}

#[test]
fn highest_priority_wins_and_file_order_breaks_ties() {
    let low = ActionToml { nice: Some(1), ..Default::default() };
    let first = ActionToml { nice: Some(2), ..Default::default() };
    let second = ActionToml { nice: Some(3), ..Default::default() };
    let engine = RuleEngine::load(&vec![
        file(vec![rule("low", 10, &["app"], low, false)]),
        file(vec![
            rule("first", 90, &["app"], first, false),
            rule("second", 90, &["app"], second, false),
        ]),
    ]);
    assert_eq!(engine.rule_count(), 3);
    let names: Vec<&str> = engine.rules.iter().map(|r| r.name.as_str()).collect();
    assert_eq!(names, ["first", "second", "low"]);
    let a = engine.classify(&make_proc("app"), &[]).unwrap();
    assert_eq!(a.rule_name, "first");
    assert_eq!(a.nice, Some(2));
    assert!(engine.classify(&make_proc("other"), &[]).is_none());
}

#[test]
fn continuing_rules_fill_open_fields() {
    let a = ActionToml {
        cgroup: Some("interactive".to_string()),
        apply_to_children: Some(true),
        ..Default::default()
    };
    let b = ActionToml {
        cgroup: Some("idle".to_string()),
        nice: Some(-3),
        oom_score_adj: Some(-100),
        ..Default::default()
    };
    let c = ActionToml { io_weight: Some(7), ..Default::default() };
    let engine = RuleEngine::load(&vec![file(vec![
        rule("a", 30, &["app"], a, true),
        rule("b", 20, &["app"], b, false),
        rule("c", 10, &["app"], c, false),
    ])]);
    let act = engine.classify(&make_proc("app"), &[]).unwrap();
    assert_eq!(act.rule_name, "a");
    assert_eq!(act.cgroup.as_deref(), Some("interactive"));
    assert_eq!(act.nice, Some(-3));
    assert_eq!(act.oom_score_adj, Some(-100));
    assert_eq!(act.io_weight, None);
    assert!(act.apply_to_children);
}

#[test]
fn exempt_processes_get_no_action() {
    let any = ActionToml { nice: Some(5), ..Default::default() };
    let engine = RuleEngine::load(&vec![file(vec![rule("all", 50, &[], any, false)])]);
    assert!(engine.classify(&make_proc("bash"), &[]).is_some());
    assert!(engine.classify(&make_proc("taskset"), &[]).is_none());
    assert!(engine.classify(&make_proc("bash"), &texts(&["zsh", "ionice"])).is_none());
}

#[test]
fn realtime_policy_is_not_made_normal() {
    for (name, kept) in [
        ("normal", false),
        ("other", true),
        ("batch", true),
        ("idle", true),
        ("fifo", true),
        ("rr", true),
        ("round_robin", true),
        ("unknown", true),
    ] {
        let action = ActionToml {
            sched_policy: Some(name.to_string()),
            nice: Some(0),
            ..Default::default()
        };
        let engine = RuleEngine::load(&vec![file(vec![rule("n", 50, &[], action, false)])]);
        let mut proc = make_proc("jackd");
        assert_eq!(engine.classify(&proc, &[]).unwrap().sched_policy.as_deref(), Some(name));
        for policy in [SchedPolicy::Fifo(10), SchedPolicy::RoundRobin(1), SchedPolicy::Deadline] {
            proc.sched_policy = policy;
            let a = engine.classify(&proc, &[]).unwrap();
            assert_eq!(a.sched_policy.is_some(), kept);
            assert_eq!(a.nice, Some(0));
        }
        proc.sched_policy = SchedPolicy::Batch;
        assert!(engine.classify(&proc, &[]).unwrap().sched_policy.is_some());
    }
}

#[test]
fn parent_is_the_first_ancestor() {
    let mut r = rule("p", 50, &[], ActionToml { nice: Some(1), ..Default::default() }, false);
    r.match_.parent_comm = texts(&["make"]);
    let engine = RuleEngine::load(&vec![file(vec![r])]);
    assert!(engine.classify(&make_proc("cc"), &texts(&["make", "bash"])).is_some());
    assert!(engine.classify(&make_proc("cc"), &texts(&["bash", "make"])).is_none());
}

#[test]
fn reloading_replaces_the_rules() {
    let one = ActionToml { nice: Some(1), ..Default::default() };
    let mut engine = RuleEngine::load(&vec![file(vec![rule("one", 50, &["x"], one, false)])]);
    assert!(!engine.wants_environ());
    let mut r = rule("two", 50, &["y"], ActionToml::default(), false);
    r.match_.env_set = texts(&["A"]);
    engine.reload(&vec![file(vec![r])]);
    assert!(engine.wants_environ());
    assert!(engine.classify(&make_proc("x"), &[]).is_none());
    let mut p = make_proc("y");
    assert!(engine.classify(&p, &[]).is_none());
    p.environ = vec![("A".to_string(), String::new())];
    assert!(engine.classify(&p, &[]).is_some());
}

#[test]
fn profiles_inherit_and_override() {
    let base = ActionToml {
        cgroup: Some("rt".to_string()),
        nice: Some(-10),
        script: Some("s".to_string()),
        ..Default::default()
    };
    let known = vec![("sound".to_string(), base)];
    let own = ActionToml {
        nice: Some(-5),
        io_weight: Some(9),
        script: Some("t".to_string()),
        ..Default::default()
    };
    let p = ProfileToml {
        name: "jack".to_string(),
        inherits: Some("sound".to_string()),
        action: own.copied(),
    };
    let r = resolve_profile_action(&p, &known);
    assert_eq!(r.cgroup.as_deref(), Some("rt"));
    assert_eq!(r.nice, Some(-5));
    assert_eq!(r.io_weight, Some(9));
    assert_eq!(r.script.as_deref(), Some("t"));
    assert_eq!(r.continue_, None);
    let child = ProfileToml {
        name: "c".to_string(),
        inherits: Some("sound".to_string()),
        action: ActionToml { continue_: Some(true), ..Default::default() },
    };
    let r = resolve_profile_action(&child, &known);
    assert_eq!(r.script.as_deref(), Some("s"));
    assert_eq!(r.continue_, Some(true));
    let orphan = ProfileToml {
        name: "x".to_string(),
        inherits: Some("nobody".to_string()),
        action: own,
    };
    let r = resolve_profile_action(&orphan, &known);
    assert_eq!(r.cgroup, None);
    assert_eq!(r.script.as_deref(), Some("t"));
}

#[test]
fn merging_fills_only_open_fields() {
    let mut dst = Action { nice: Some(1), rule_name: "d".to_string(), ..Default::default() };
    let src = Action {
        nice: Some(2),
        cgroup: Some("idle".to_string()),
        recheck_secs: Some(3),
        apply_to_children: true,
        rule_name: "s".to_string(),
        ..Default::default()
    };
    merge_action(&mut dst, &src);
    assert_eq!(dst.nice, Some(1));
    assert_eq!(dst.cgroup.as_deref(), Some("idle"));
    assert_eq!(dst.recheck_secs, Some(3));
    assert!(!dst.apply_to_children);
    assert_eq!(dst.rule_name, "d");
}

#[test]
fn rule_files_are_loaded_alphabetically() {
    let names = texts(&["20-b.toml", "README", "10-a.json", ".json", "20-a.json", "10-a.json.bak"]);
    let files = rule_files(&names);
    assert_eq!(files, texts(&["10-a.json", "20-a.json", "20-b.toml"]));
    assert_eq!(rule_file_kind("x.json"), Some(RuleFileKind::Json));
    assert_eq!(rule_file_kind("x.toml"), Some(RuleFileKind::Toml));
    assert_eq!(rule_file_kind("x.yaml"), None);
}
