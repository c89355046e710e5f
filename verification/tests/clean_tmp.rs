use dot_agent_deck::clean_tmp::{
    classify, collect, distinct_roots, human_bytes, human_duration, human_size, is_owned,
    moved_base_note, options_within, owner_of, parse_args, parse_pid, pid_is_alive, report,
    run_begin, run_conclude, run_gather, run_unreadable, scan_roots, settle, sum_bytes, sweep,
    usage, Candidate, DirSize, Entry, Found, Options, Owner, ProcessProbe, Reason, RunOutput,
    SizeWalk, Step, Sweep, Verdict, MAX_LISTED, MAX_SIZE_WALK_DEPTH, MAX_SIZE_WALK_ENTRIES,
};
use dot_agent_deck::path::NativePath;

const HOUR: u64 = 3600;

fn opts(max_age: u64) -> Options {
    Options {
        max_age,
        apply: false,
        include_untagged: false,
        roots: vec![],
    }
}

fn candidate(name: &str, bytes: u64, age_hours: u64, verdict: Verdict) -> Candidate {
    Candidate {
        path: NativePath::new(&format!("/tmp/{name}")),
        bytes,
        size_truncated: false,
        age: HOUR * age_hours,
        verdict,
    }
}

fn verdict(reap: bool, reason: Reason) -> Verdict {
    Verdict { reap, reason }
}

fn found(name: &str, bytes: u64, age: u64) -> Found {
    Found {
        path: NativePath::new(&format!("/tmp/{name}")),
        name: Some(name.to_string()),
        is_dir: true,
        age,
        size: DirSize {
            bytes,
            truncated: false,
        },
    }
}

/// One scripted answer for every PID.
struct FakeProbe(Option<bool>);

impl FakeProbe {
    fn dead() -> Self {
        Self(Some(false))
    }
    fn live() -> Self {
        Self(Some(true))
    }
    fn unanswerable() -> Self {
        Self(None)
    }
}

impl ProcessProbe for FakeProbe {
    fn is_alive(&self, _pid: i32) -> Option<bool> {
        self.0
    }
}

/// A probe that answers per PID.
struct DeadPids(Vec<i32>);

impl ProcessProbe for DeadPids {
    fn is_alive(&self, pid: i32) -> Option<bool> {
        Some(!self.0.contains(&pid))
    }
}

fn strings(args: &[&str]) -> Vec<String> {
    args.iter().map(|a| a.to_string()).collect()
}

#[test]
fn owned_prefixes_are_reaped_by_default() {
    assert!(is_owned("dad-tests-1234-AbCdEf", false));
    assert!(is_owned("dot-agent-deck-test-lock-AbCdEf", false));
}

#[test]
fn untagged_tempfile_prefix_is_opt_in() {
    assert!(!is_owned(".tmpAbCdEf", false));
    assert!(is_owned(".tmpAbCdEf", true));
}

#[test]
fn unrelated_names_are_never_reaped() {
    for name in ["systemd-private-abc", "dad-screenshot.txt", "opencode"] {
        assert!(!is_owned(name, true), "{name} should not be reaped");
    }
}

#[test]
fn symlinks_named_like_owned_dirs_are_skipped() {
    let mut link = found("dad-tests-1-lnk", 0, 0);
    link.is_dir = false;
    let mut nameless = found("dad-tests-1-x", 0, 0);
    nameless.name = None;
    let target = found("real-target", 0, 0);
    let kept = collect(&[target, link, nameless], &opts(0), &FakeProbe::dead());
    assert!(kept.is_empty(), "symlink was collected: {kept:?}");
}

#[test]
fn the_owning_pid_is_read_out_of_the_root_name() {
    assert_eq!(parse_pid("dad-tests-12345-AbCdEf"), Some(12345));
    assert_eq!(parse_pid("dad-tests-7-a-b-c"), Some(7));
    for name in [
        ".tmpAbCdEf",
        "dot-agent-deck-test-lock-AbCdEf",
        "dad-tests-",
        "dad-tests--AbCdEf",
        "dad-tests-notapid-AbCdEf",
        "dad-tests-12x-AbCdEf",
        "dad-tests-0-AbCdEf",
        "dad-tests-99999999999999-AbCdEf",
    ] {
        assert_eq!(parse_pid(name), None, "{name} must not yield a PID");
    }
}

#[test]
fn ownership_decides_first_and_age_only_where_it_cannot() {
    let max_age = HOUR * 6;
    let fresh = HOUR;
    let stale = HOUR * 9;

    for age in [fresh, stale] {
        assert_eq!(
            classify(Owner::Dead, age, max_age),
            Verdict {
                reap: true,
                reason: Reason::DeadPid
            },
            "a dead owner is reaped at any age"
        );
        assert_eq!(
            classify(Owner::Live, age, max_age),
            Verdict {
                reap: false,
                reason: Reason::LivePid
            },
            "a live owner is kept at any age"
        );
    }

    assert_eq!(
        classify(Owner::Unknown, stale, max_age),
        Verdict {
            reap: true,
            reason: Reason::UntaggedAge
        }
    );
    assert_eq!(
        classify(Owner::Unknown, fresh, max_age),
        Verdict {
            reap: false,
            reason: Reason::UntaggedAge
        }
    );
}

#[test]
fn a_live_pid_has_exactly_one_outcome_and_an_unanswerable_one_falls_back() {
    let name = "dad-tests-4242-AbCdEf";
    assert_eq!(owner_of(name, &FakeProbe::live()), Owner::Live);
    assert_eq!(owner_of(name, &FakeProbe::dead()), Owner::Dead);
    assert_eq!(owner_of(name, &FakeProbe::unanswerable()), Owner::Unknown);
    assert_eq!(owner_of(".tmpAbCdEf", &FakeProbe::live()), Owner::Unknown);
}

#[test]
fn a_dead_pid_is_reaped_even_when_younger_than_the_threshold() {
    let entries = [found("dad-tests-4242-AbCdEf", 2048, 0)];
    let cands = collect(&entries, &opts(HOUR * 24), &FakeProbe::dead());
    assert_eq!(cands.len(), 1);
    assert_eq!(cands[0].verdict, verdict(true, Reason::DeadPid));
    assert_eq!(cands[0].bytes, 2048);
    assert!(!cands[0].size_truncated);
}

#[test]
fn a_live_pid_is_kept_even_when_older_than_the_threshold() {
    let entries = [found("dad-tests-4242-AbCdEf", 0, HOUR * 100)];
    let cands = collect(&entries, &opts(0), &FakeProbe::live());
    assert_eq!(cands.len(), 1);
    assert_eq!(cands[0].verdict, verdict(false, Reason::LivePid));
}

#[test]
fn a_live_pid_is_kept_whatever_timestamp_the_root_carries() {
    let entries = [
        found("dad-tests-77-ancient", 512, u64::MAX),
        found("dad-tests-77-futuristic", 512, 0),
    ];
    let options = Options {
        max_age: 0,
        apply: true,
        include_untagged: false,
        roots: vec![],
    };
    let plan = sweep("/tmp", collect(&entries, &options, &FakeProbe::live()), &options);
    assert!(plan.doomed.is_empty());
    assert!(!plan.report.contains("reap:"), "{}", plan.report);
    assert!(plan.report.contains("live-pid"), "{}", plan.report);
    let applied = settle(plan, &[]);
    assert_eq!(applied.removed, 0, "{}", applied.report);

    let dead = [found("dad-tests-4242-futuristic", 0, 0)];
    let cands = collect(&dead, &opts(HOUR * 24), &FakeProbe::dead());
    assert_eq!(
        cands[0].verdict,
        Verdict {
            reap: true,
            reason: Reason::DeadPid
        },
        "a dead PID is reaped whatever the root's timestamp"
    );
}

#[test]
fn names_without_a_usable_pid_fall_back_to_the_age_rule() {
    for name in [
        "dot-agent-deck-test-lock-AbCdEf",
        "dad-tests-notapid-AbCdEf",
        "dad-tests--AbCdEf",
    ] {
        let stale = collect(&[found(name, 0, 0)], &opts(0), &FakeProbe::dead());
        assert_eq!(
            stale[0].verdict,
            verdict(true, Reason::UntaggedAge),
            "{name} past the threshold"
        );
        let fresh = collect(&[found(name, 0, 0)], &opts(HOUR), &FakeProbe::dead());
        assert_eq!(
            fresh[0].verdict,
            verdict(false, Reason::UntaggedAge),
            "{name} under the threshold"
        );
    }
}

#[test]
fn apply_removes_only_the_reap_slice() {
    let entries = [
        found("dad-tests-111-AbCdEf", 1024, 0),
        found("dad-tests-222-GhIjKl", 1024, 0),
    ];
    let probe = DeadPids(vec![111]);

    let dry = sweep("/tmp", collect(&entries, &opts(0), &probe), &opts(0));
    assert!(dry.doomed.is_empty(), "a dry run must delete nothing");
    assert!(dry.report.contains("dry run"), "{}", dry.report);

    let options = Options {
        max_age: 0,
        apply: true,
        include_untagged: false,
        roots: vec![],
    };
    let plan = sweep("/tmp", collect(&entries, &options, &probe), &options);
    assert_eq!(plan.doomed.len(), 1);
    assert_eq!(plan.doomed[0].path.as_str(), "/tmp/dad-tests-111-AbCdEf");
    let applied = settle(plan, &[Ok(())]);
    assert_eq!(applied.removed, 1);
    assert_eq!(applied.freed, 1024);
    assert!(!applied.freed_truncated);
    assert!(applied.failures.is_empty(), "{:?}", applied.failures);
    assert!(applied.report.contains("live-pid"), "{}", applied.report);
    assert!(!applied.report.contains("dry run"), "{}", applied.report);
}

#[test]
fn the_report_attributes_every_decision_to_a_reason() {
    let reap = vec![
        candidate(
            "dad-tests-101-AbCdEf",
            2048,
            1,
            Verdict {
                reap: true,
                reason: Reason::DeadPid,
            },
        ),
        candidate(
            ".tmpAbCdEf",
            1024,
            9,
            Verdict {
                reap: true,
                reason: Reason::UntaggedAge,
            },
        ),
    ];
    let keep = vec![
        candidate(
            "dad-tests-202-AbCdEf",
            4096,
            12,
            Verdict {
                reap: false,
                reason: Reason::LivePid,
            },
        ),
        candidate(
            "dot-agent-deck-test-lock-GhIjKl",
            512,
            1,
            Verdict {
                reap: false,
                reason: Reason::UntaggedAge,
            },
        ),
    ];

    let text = report("/tmp", &reap, &keep, HOUR * 6);
    for needle in [
        "dead-pid",
        "untagged",
        "live-pid",
        "owning process is gone",
        "owning process is still running",
    ] {
        assert!(text.contains(needle), "missing {needle:?} in:\n{text}");
    }
    assert!(text.contains("reap: 2 dir(s)"), "{text}");
    assert!(text.contains("keep: 2 dir(s)"), "{text}");
    assert!(!text.contains('≥'), "nothing was truncated:\n{text}");
    assert!(
        !text.contains("recycled"),
        "the recycled reason is gone:\n{text}"
    );
    assert_eq!(
        text,
        "     2.0 KB  dead-pid    1h old  \"/tmp/dad-tests-101-AbCdEf\"
     1.0 KB  untagged    9h old  \"/tmp/.tmpAbCdEf\"
reap: 2 dir(s), 3.0 KB in /tmp
  dead-pid     1 dir(s)     2.0 KB  owning process is gone — reaped at any age
  untagged     1 dir(s)     1.0 KB  no owning PID in the name; older than 6h
keep: 2 dir(s), 4.5 KB
  live-pid     1 dir(s)     4.0 KB  owning process is still running — never reaped
  untagged     1 dir(s)      512 B  no owning PID in the name; younger than 6h
"
    );
}

#[test]
fn an_empty_reap_set_still_says_why_the_survivors_were_kept() {
    let keep = vec![candidate(
        "dad-tests-202-AbCdEf",
        4096,
        12,
        Verdict {
            reap: false,
            reason: Reason::LivePid,
        },
    )];
    let text = report("/tmp", &[], &keep, HOUR * 6);
    assert!(text.contains("nothing to reap in /tmp"), "{text}");
    assert!(text.contains("live-pid"), "{text}");
    assert!(!text.contains("older than 6h"), "{text}");
}

#[test]
fn a_long_reap_list_is_truncated_but_fully_counted() {
    let reap: Vec<Candidate> = (0..MAX_LISTED + 5)
        .map(|i| {
            candidate(
                &format!("dad-tests-{i}-AbCdEf"),
                1024,
                1,
                Verdict {
                    reap: true,
                    reason: Reason::DeadPid,
                },
            )
        })
        .collect();
    let text = report("/tmp", &reap, &[], HOUR * 6);
    assert_eq!(
        text.lines().filter(|l| l.contains("dad-tests-")).count(),
        MAX_LISTED
    );
    assert!(text.contains("… and 5 more"), "{text}");
    assert!(text.contains("dead-pid"), "{text}");
    assert!(
        text.contains(&format!("{} dir(s)", MAX_LISTED + 5)),
        "the summary must count every candidate, not just the listed ones:\n{text}"
    );
}

#[test]
fn hostile_path_names_are_escaped_before_printing() {
    let reap = vec![candidate(
        "dad-tests-101-\u{1b}]52;c;aGk=\u{7}\nreap: 999 dir(s)",
        2048,
        1,
        Verdict {
            reap: true,
            reason: Reason::DeadPid,
        },
    )];
    let text = report("/tmp", &reap, &[], HOUR * 6);
    assert!(
        !text.contains('\u{1b}') && !text.contains('\u{7}'),
        "control characters reached the terminal:\n{text:?}"
    );
    assert!(text.contains("\\u{1b}]52"), "{text:?}");
    assert!(
        text.lines().filter(|l| l.contains("dad-tests-101")).count() == 1,
        "an embedded newline forged a second line:\n{text:?}"
    );
}

/// A tree to walk over.
enum Node {
    Bad,
    File(u64),
    /// Whether it can be opened, whether it is still a directory then, and its entries.
    Dir(bool, bool, Vec<Node>),
}

fn dir(entries: Vec<Node>) -> Node {
    Node::Dir(true, true, entries)
}

/// Walk over a tree, as its steps are asked for.
fn measure(root: &Node, max_entries: usize, max_depth: usize) -> SizeWalk {
    let mut walk = SizeWalk::new(max_entries, max_depth);
    let mut queued = vec![root];
    while walk.has_next() {
        let (opened, still, entries) = match queued.pop() {
            Some(Node::Dir(opened, still, entries)) => (*opened, *still, entries),
            _ => panic!("only directories are queued"),
        };
        if !walk.enter(opened, still) {
            continue;
        }
        for entry in entries {
            let seen = match entry {
                Node::Bad => Entry::Unreadable,
                Node::File(len) => Entry::Other(*len),
                Node::Dir(..) => Entry::Directory,
            };
            match walk.visit(seen) {
                Step::Next => {}
                Step::Descend => queued.push(entry),
                Step::Stop => break,
            }
        }
    }
    walk
}

fn files(n: usize, len: u64) -> Vec<Node> {
    (0..n).map(|_| Node::File(len)).collect()
}

#[test]
fn an_oversized_tree_stops_walking_and_reports_a_lower_bound() {
    let flat = dir(files(6, 100));
    let full = measure(&flat, 100, 8).size();
    assert_eq!(full.bytes, 600);
    assert!(!full.truncated);

    let capped = measure(&flat, 3, 8).size();
    assert!(capped.truncated, "the entry budget must stop the walk");
    assert!(capped.bytes < 600, "a truncated walk is a lower bound");
    assert_eq!(capped.bytes, 300);

    let mut entries = files(6, 100);
    entries.push(dir(vec![dir(vec![dir(vec![Node::File(4096)])])]));
    let nested = dir(entries);
    let shallow = measure(&nested, 100, 1).size();
    assert!(shallow.truncated, "the depth budget must stop the descent");
    assert_eq!(shallow.bytes, 600, "nothing below the depth cap is counted");
    let deep = measure(&nested, 100, 3).size();
    assert!(!deep.truncated);
    assert_eq!(deep.bytes, 4696);

    assert_eq!(
        owner_of("dad-tests-4242-AbCdEf", &FakeProbe::dead()),
        Owner::Dead
    );
}

#[test]
fn exabyte_sparse_files_saturate_instead_of_aborting_the_sweep() {
    const HUGE: u64 = 8_000_000_000_000_000_000;
    let walk = measure(&dir(files(3, HUGE)), 100, 8);
    let one = walk.size();
    assert_eq!(one.bytes, u64::MAX, "the walk must saturate, not wrap");
    assert!(!one.truncated);

    let entries = [
        found("dad-tests-2147483647-AbCdEf", one.bytes, 0),
        found("dad-tests-2147483646-GhIjKl", one.bytes, 0),
    ];
    let options = Options {
        max_age: 0,
        apply: true,
        include_untagged: false,
        roots: vec![],
    };
    let plan = sweep("/tmp", collect(&entries, &options, &FakeProbe::dead()), &options);
    let applied = settle(plan, &[Ok(()), Ok(())]);
    assert_eq!(applied.removed, 2, "{}", applied.report);
    assert_eq!(applied.freed, u64::MAX);
    assert!(applied.failures.is_empty(), "{:?}", applied.failures);
    assert!(applied.report.contains("dead-pid"), "{}", applied.report);
}

#[test]
fn group_and_grand_totals_saturate() {
    let reap = vec![
        candidate(
            "dad-tests-101-AbCdEf",
            u64::MAX,
            1,
            Verdict {
                reap: true,
                reason: Reason::DeadPid,
            },
        ),
        candidate(
            "dad-tests-102-GhIjKl",
            u64::MAX,
            1,
            Verdict {
                reap: true,
                reason: Reason::DeadPid,
            },
        ),
    ];
    let text = report("/tmp", &reap, &[], HOUR * 6);
    assert!(text.contains("reap: 2 dir(s)"), "{text}");
    assert!(text.contains("dead-pid"), "{text}");
}

#[test]
fn an_enormous_older_than_saturates_rather_than_panicking() {
    let args = vec!["--older-than".to_string(), u64::MAX.to_string()];
    let parsed = parse_args(&args).expect("parse").expect("options");
    assert_eq!(parsed.max_age, u64::MAX);
}

#[test]
fn a_truncated_size_is_marked_as_a_lower_bound() {
    let mut reap = vec![candidate(
        "dad-tests-101-AbCdEf",
        5 * 1024 * 1024,
        1,
        Verdict {
            reap: true,
            reason: Reason::DeadPid,
        },
    )];
    reap[0].size_truncated = true;
    let text = report("/tmp", &reap, &[], HOUR * 6);
    assert!(text.contains("≥ 5.0 MB"), "{text}");
    assert!(text.contains("reap: 1 dir(s), ≥ 5.0 MB"), "{text}");
    assert!(text.contains("lower bounds"), "{text}");
}

// --- the command line ---

#[test]
fn the_command_line_is_read() {
    assert_eq!(
        parse_args(&[]),
        Ok(Some(Options {
            max_age: 6 * HOUR,
            apply: false,
            include_untagged: false,
            roots: vec![],
        }))
    );
    assert_eq!(
        parse_args(&strings(&[
            "--apply",
            "--older-than",
            "2",
            "--include-untagged",
            "--older-than",
            "+03"
        ])),
        Ok(Some(Options {
            max_age: 3 * HOUR,
            apply: true,
            include_untagged: true,
            roots: vec![],
        }))
    );
    assert_eq!(parse_args(&strings(&["--apply", "-h", "--what"])), Ok(None));
    assert_eq!(parse_args(&strings(&["--help"])), Ok(None));
    assert_eq!(
        parse_args(&strings(&["--older-than"])),
        Err("--older-than needs a value in hours".to_string())
    );
    for raw in ["", "x", "1.5", "-1", "+", "18446744073709551616", " 1", "--apply"] {
        assert_eq!(
            parse_args(&strings(&["--older-than", raw])),
            Err(format!("--older-than expects whole hours, got {raw:?}"))
        );
        assert!(raw.parse::<u64>().is_err());
    }
    assert_eq!(
        parse_args(&strings(&["--what\n"])),
        Err("unknown argument \"--what\\n\"".to_string())
    );
}

#[test]
fn directories_can_be_named() {
    let o = parse_args(&strings(&["--root", "/my/base", "--apply"])).unwrap().unwrap();
    assert!(o.apply);
    assert_eq!(o.roots, vec!["/my/base"]);
    let two = parse_args(&strings(&["--root", "/a", "--root", "--apply"])).unwrap().unwrap();
    assert_eq!(two.roots, vec!["/a", "--apply"]);
    assert!(!two.apply);
    assert_eq!(
        parse_args(&strings(&["--apply", "--root"])),
        Err("--root needs a directory".to_string())
    );
    assert!(parse_args(&[]).unwrap().unwrap().roots.is_empty());
}

fn named(roots: &[&str], include_untagged: bool) -> Options {
    Options {
        include_untagged,
        roots: strings(roots),
        ..opts(HOUR)
    }
}

fn scanned(roots: &[(&str, bool)]) -> Vec<(String, bool)> {
    roots.iter().map(|(r, u)| (r.to_string(), *u)).collect()
}

#[test]
fn named_directories_replace_the_standard_ones() {
    let scan = |o: &Options| scan_roots(o, "/var/tmp/dad-e2e-7", "/tmp");
    assert_eq!(
        scan(&named(&[], false)),
        scanned(&[("/var/tmp/dad-e2e-7", false), ("/tmp", false)])
    );
    assert_eq!(
        scan(&named(&[], true)),
        scanned(&[("/var/tmp/dad-e2e-7", false), ("/tmp", true)])
    );
    assert_eq!(
        scan(&named(&["/my/base", "/b"], false)),
        scanned(&[("/my/base", false), ("/b", false)])
    );
    assert_eq!(scan(&named(&["/my/base"], true)), scanned(&[("/my/base", true)]));
    let within = options_within(&named(&["/my/base"], true), false);
    assert_eq!(within, named(&["/my/base"], false));
}

#[test]
fn directories_that_are_absent_or_repeated_are_left_out() {
    let at = |dir: &str| Some(dir.to_string());
    let roots = || scanned(&[("/private", false), ("/tmp", true), ("/tmp/.", true), ("/gone", true)]);
    assert_eq!(
        distinct_roots(roots(), &[at("/private"), at("/tmp"), at("/tmp"), None]),
        scanned(&[("/private", false), ("/tmp", true)])
    );
    assert_eq!(
        distinct_roots(roots(), &[at("/x"), at("/x"), at("/x"), at("/y")]),
        scanned(&[("/private", false), ("/gone", true)])
    );
    assert_eq!(
        distinct_roots(roots(), &[None, at("/tmp"), None, None]),
        scanned(&[("/tmp", true)])
    );
    assert!(distinct_roots(roots(), &[None, None, None, None]).is_empty());
    assert!(distinct_roots(vec![], &[]).is_empty());
}

#[test]
fn a_moved_base_is_pointed_out_unless_it_was_named() {
    let note = |roots: &[&str], base: &str| {
        moved_base_note(&named(roots, false), Some(&NativePath::new(base)))
    };
    assert_eq!(moved_base_note(&named(&[], false), None), None);
    assert_eq!(
        note(&[], "/my/base"),
        Some(
            "note: DAD_E2E_TMPDIR is set to \"/my/base\", which is not scanned unless it is \
             named. To reap it: cargo xtask clean-e2e-tmp --root \"/my/base\""
                .to_string()
        )
    );
    assert_eq!(note(&["/a", "/my/base"], "/my/base"), None);
    assert_eq!(note(&["/my/./base/"], "/my/base"), None);
    assert!(note(&["/my"], "/my/base").is_some());
    let escaped = note(&[], "/my\n/base").unwrap();
    assert!(escaped.contains("\"/my\\n/base\""), "{escaped}");
}

fn printed(stdout: &str, stderr: &[&str], exit_code: u8) -> RunOutput {
    RunOutput {
        stdout: stdout.to_string(),
        stderr: strings(stderr),
        exit_code,
    }
}

#[test]
fn the_outputs_of_several_directories_are_gathered() {
    let all = run_gather(
        Some("note: x".to_string()),
        &[
            printed("a\n", &["one", "two"], 1),
            printed("", &[], 0),
            printed("b\n", &["three"], 0),
        ],
    );
    assert_eq!(all.stdout, "note: x\na\nb\n");
    assert_eq!(all.stderr, vec!["one", "two", "three"]);
    assert_eq!(all.exit_code, 1);
    let single = run_gather(None, &[printed("a\n", &["one"], 2)]);
    assert_eq!(single.stdout, "a\n");
    assert_eq!(single.stderr, vec!["one"]);
    assert_eq!(single.exit_code, 2);
    let none = run_gather(None, &[]);
    assert_eq!((none.stdout.as_str(), none.exit_code), ("", 0));
    assert!(none.stderr.is_empty());
}

#[test]
fn the_command_begins_with_help_a_complaint_or_options() {
    let help = run_begin(&strings(&["-h"])).unwrap_err();
    assert_eq!(help.stdout, usage());
    assert!(help.stderr.is_empty());
    assert_eq!(help.exit_code, 0);
    let complaint = run_begin(&strings(&["nonsense"])).unwrap_err();
    assert_eq!(complaint.stdout, usage());
    assert_eq!(
        complaint.stderr,
        vec!["xtask clean-e2e-tmp: unknown argument \"nonsense\""]
    );
    assert_eq!(complaint.exit_code, 2);
    assert!(run_begin(&strings(&["--apply"])).unwrap().apply);
    assert!(usage().starts_with(
        "usage: cargo xtask clean-e2e-tmp [--older-than <hours>] [--apply] [--include-untagged] [--root <dir>]\n\nReaps stale"
    ));
    assert!(usage().contains("(default: 6). It does NOT hold back a dead PID.\n"));
    assert!(usage().contains("when no other Rust build or tool is running.\n"));
    assert!(usage().contains("  --root <dir>          scan this directory INSTEAD of"));
}

#[test]
fn an_unreadable_directory_ends_the_command() {
    let output = run_unreadable("/gone", "not found");
    assert_eq!(output.stdout, "");
    assert_eq!(
        output.stderr,
        vec!["xtask clean-e2e-tmp: cannot read /gone: not found"]
    );
    assert_eq!(output.exit_code, 1);
}

fn done(removed: usize, freed: u64, failures: &[&str]) -> Sweep {
    Sweep {
        report: "the report\n".to_string(),
        removed,
        freed,
        freed_truncated: false,
        failures: strings(failures),
    }
}

#[test]
fn the_command_fails_exactly_when_a_directory_was_left() {
    let quiet = run_conclude(done(0, 0, &[]));
    assert_eq!(quiet.stdout, "the report\n");
    assert!(quiet.stderr.is_empty());
    assert_eq!(quiet.exit_code, 0);
    let fine = run_conclude(done(2, 2048, &[]));
    assert_eq!(fine.stdout, "the report\nremoved 2 dir(s), freed 2.0 KB\n");
    assert_eq!(fine.exit_code, 0);
    let failed = run_conclude(done(0, 0, &["  failed to remove \"/tmp/x\": busy"]));
    assert_eq!(failed.stdout, "the report\nremoved 0 dir(s), freed 0 B\n");
    assert_eq!(
        failed.stderr,
        vec![
            "  failed to remove \"/tmp/x\": busy",
            "1 dir(s) could not be removed"
        ]
    );
    assert_eq!(failed.exit_code, 1);
}

#[test]
fn deletions_are_settled_one_by_one() {
    let options = Options {
        max_age: 0,
        apply: true,
        include_untagged: false,
        roots: vec![],
    };
    let mut cut = found("dad-tests-3-c", 5, 0);
    cut.size.truncated = true;
    let entries = [
        found("dad-tests-1-a", 10, 0),
        found("dad-tests-2-\n", 30, 0),
        cut,
        found("dad-tests-4-d", 20, 0),
    ];
    let plan = sweep("/tmp", collect(&entries, &options, &FakeProbe::dead()), &options);
    let paths: Vec<&str> = plan.doomed.iter().map(|c| c.path.as_str()).collect();
    assert_eq!(
        paths,
        vec![
            "/tmp/dad-tests-2-\n",
            "/tmp/dad-tests-4-d",
            "/tmp/dad-tests-1-a",
            "/tmp/dad-tests-3-c"
        ]
    );
    let outcome = settle(
        plan,
        &[
            Err("busy".to_string()),
            Ok(()),
            Err("denied".to_string()),
            Ok(()),
        ],
    );
    assert_eq!(outcome.removed, 2);
    assert_eq!(outcome.freed, 25);
    assert!(outcome.freed_truncated);
    assert_eq!(
        outcome.failures,
        vec![
            "  failed to remove \"/tmp/dad-tests-2-\\n\": busy",
            "  failed to remove \"/tmp/dad-tests-1-a\": denied"
        ]
    );
}

// --- ownership ---

#[test]
fn a_root_is_named_after_its_process() {
    for pid in [1, 9, 10, 4242, i32::MAX] {
        assert_eq!(parse_pid(&format!("dad-tests-{pid}-x-y")), Some(pid));
    }
    assert_eq!(parse_pid("dad-tests-007-x"), Some(7));
    assert_eq!(parse_pid("dad-tests-12-"), Some(12));
    assert_eq!(parse_pid("dad-tests-12"), None);
    assert_eq!(owner_of("dad-tests-12", &FakeProbe::dead()), Owner::Unknown);
    assert_eq!(parse_pid("dad-tests-2147483648-x"), None);
    assert_eq!(parse_pid("dad-tests-+1-x"), None);
    assert_eq!(parse_pid("dad-tests-١-x"), None);
}

#[test]
fn only_no_such_process_means_dead() {
    const NO_SUCH_PROCESS: i32 = 3;
    const NOT_PERMITTED: i32 = 1;
    assert_eq!(pid_is_alive(true, None, NO_SUCH_PROCESS), Some(true));
    assert_eq!(
        pid_is_alive(false, Some(NO_SUCH_PROCESS), NO_SUCH_PROCESS),
        Some(false)
    );
    assert_eq!(
        pid_is_alive(false, Some(NOT_PERMITTED), NO_SUCH_PROCESS),
        Some(true)
    );
    assert_eq!(pid_is_alive(false, None, NO_SUCH_PROCESS), Some(true));
}

#[test]
fn the_shared_prefix_is_collected_on_request() {
    let entries = [found(".tmpX", 1, HOUR * 9), found("other", 1, HOUR * 9)];
    assert!(collect(&entries, &opts(HOUR), &FakeProbe::dead()).is_empty());
    let asked = Options {
        include_untagged: true,
        ..opts(HOUR)
    };
    let cands = collect(&entries, &asked, &FakeProbe::dead());
    assert_eq!(cands.len(), 1);
    assert_eq!(cands[0].verdict, verdict(true, Reason::UntaggedAge));
    assert_eq!(cands[0].age, HOUR * 9);
}

#[test]
fn the_largest_come_first_and_equals_keep_their_order() {
    let entries = [
        found("dad-tests-1-a", 5, 0),
        found("dad-tests-2-b", 9, 0),
        found("dad-tests-3-c", 5, 0),
        found("dad-tests-4-d", 1, 0),
        found("dad-tests-5-e", 9, 0),
    ];
    let names: Vec<String> = collect(&entries, &opts(0), &FakeProbe::live())
        .iter()
        .map(|c| c.path.as_str().to_string())
        .collect();
    assert_eq!(
        names,
        strings(&[
            "/tmp/dad-tests-2-b",
            "/tmp/dad-tests-5-e",
            "/tmp/dad-tests-1-a",
            "/tmp/dad-tests-3-c",
            "/tmp/dad-tests-4-d"
        ])
    );
}

// --- sizes and ages ---

/// The size as double-precision arithmetic shows it.
fn shown_by_floats(bytes: u64) -> String {
    const UNITS: [&str; 5] = ["B", "KB", "MB", "GB", "TB"];
    let mut value = bytes as f64;
    let mut unit = 0;
    while value >= 1024.0 && unit < UNITS.len() - 1 {
        value /= 1024.0;
        unit += 1;
    }
    if unit == 0 {
        format!("{bytes} B")
    } else {
        format!("{value:.1} {}", UNITS[unit])
    }
}

#[test]
fn sizes_are_shown_as_floats_would_show_them() {
    assert_eq!(human_bytes(0), "0 B");
    assert_eq!(human_bytes(1023), "1023 B");
    assert_eq!(human_bytes(1024), "1.0 KB");
    assert_eq!(human_bytes(1280), "1.2 KB");
    assert_eq!(human_bytes(1792), "1.8 KB");
    assert_eq!(human_bytes(1024 * 1024 - 1), "1024.0 KB");
    assert_eq!(human_bytes(u64::MAX), "16777216.0 TB");
    let mut numbers: Vec<u64> = (0..5000).collect();
    for shift in 10..64u32 {
        let base = 1u64 << shift;
        for offset in [0, 1, 2, 3, 51, 102, 103, 1023, 1024, 1025] {
            numbers.push(base.saturating_add(offset));
            numbers.push(base - offset.min(base));
            numbers.push(base / 20 * 21 + offset);
            numbers.push((base / 4 * 5).saturating_add(offset));
        }
    }
    let mut seed = 0x9e37_79b9_7f4a_7c15u64;
    for i in 0..20000u32 {
        seed = seed.wrapping_mul(6364136223846793005).wrapping_add(1442695040888963407);
        numbers.push(seed >> (i % 54));
        numbers.push(u64::MAX - (seed >> (40 + i % 24)));
    }
    for n in numbers {
        assert_eq!(human_bytes(n), shown_by_floats(n), "at {n}");
    }
}

#[test]
fn sizes_and_ages_for_people() {
    assert_eq!(human_size(2048, false), "2.0 KB");
    assert_eq!(human_size(2048, true), "≥ 2.0 KB");
    assert_eq!(human_duration(0), "0h");
    assert_eq!(human_duration(2 * HOUR - 1), "1h");
    assert_eq!(human_duration(47 * HOUR), "47h");
    assert_eq!(human_duration(48 * HOUR), "2d");
    assert_eq!(human_duration(71 * HOUR), "2d");
    assert_eq!(sum_bytes(&[1, 2, 3]), 6);
    assert_eq!(sum_bytes(&[u64::MAX, 1]), u64::MAX);
    assert_eq!(sum_bytes(&[]), 0);
}

/// A file below so many directories.
fn buried(levels: usize) -> Node {
    (0..levels).fold(dir(vec![Node::File(1)]), |inner, _| dir(vec![inner]))
}

#[test]
fn a_walk_goes_down_to_its_depth() {
    let walk = measure(&buried(64), MAX_SIZE_WALK_ENTRIES, MAX_SIZE_WALK_DEPTH);
    assert_eq!(walk.seen, 65);
    assert_eq!(walk.size().bytes, 1);
    assert!(!walk.size().truncated);
    let cut = measure(&buried(65), MAX_SIZE_WALK_ENTRIES, MAX_SIZE_WALK_DEPTH);
    assert_eq!(cut.seen, 65);
    assert_eq!(cut.size().bytes, 0);
    assert!(cut.size().truncated);

    let none = measure(&dir(files(1, 1)), 0, 0);
    assert!(none.size().truncated);
    assert_eq!(none.size().bytes, 0);
    assert!(!none.has_next());
    assert!(!measure(&dir(vec![]), 0, 0).size().truncated);
}

#[test]
fn a_walk_enters_only_what_is_still_a_directory() {
    let replaced = Node::Dir(true, false, files(3, 10));
    let closed = Node::Dir(false, true, files(3, 10));
    let tree = dir(vec![Node::File(5), replaced, closed, Node::Bad]);
    let walk = measure(&tree, 100, 8);
    assert_eq!(walk.seen, 4);
    assert_eq!(walk.size().bytes, 5);
    assert!(!walk.size().truncated);
    let gone = measure(&Node::Dir(true, false, files(3, 10)), 100, 8);
    assert_eq!(gone.seen, 0);
    assert_eq!(gone.size().bytes, 0);
    assert!(!gone.size().truncated);
    let mut walk = SizeWalk::new(9, 9);
    assert!(walk.has_next());
    assert!(walk.enter(true, true));
    assert!(!walk.has_next());
    assert_eq!(walk.visit(Entry::Directory), Step::Descend);
    assert!(!walk.enter(false, true));
    assert_eq!(walk.depth, 1);
}

#[test]
fn a_walk_meets_its_budgets_exactly() {
    let tree = || dir(vec![Node::File(1), dir(files(2, 10)), Node::Bad, dir(files(1, 100))]);
    for (max_entries, seen, truncated) in [(7, 7, false), (8, 7, false), (6, 6, true), (4, 4, true)] {
        let walk = measure(&tree(), max_entries, 1);
        assert_eq!(walk.seen, seen);
        assert_eq!(walk.size().truncated, truncated, "{max_entries}");
        assert!(walk.size().bytes <= 121);
        assert!(!walk.has_next());
    }
    assert_eq!(measure(&tree(), 7, 1).size().bytes, 121);
    assert_eq!(measure(&tree(), 5, 1).size().bytes, 101);
    let shallow = measure(&tree(), 7, 0).size();
    assert_eq!(shallow.bytes, 1);
    assert!(shallow.truncated);
}

// --- reports ---

#[test]
fn a_report_on_nothing_says_so() {
    assert_eq!(
        report("/tmp", &[], &[], HOUR),
        "nothing to reap in /tmp (no dirs this repo owns)\n"
    );
    let plan = sweep("/tmp", vec![], &opts(0));
    assert_eq!(
        plan.report,
        "nothing to reap in /tmp (no dirs this repo owns)\n"
    );
}

#[test]
fn a_dry_run_ends_with_a_note() {
    let entries = [found("dad-tests-1-a", 5, 0)];
    let plan = sweep("/tmp", collect(&entries, &opts(0), &FakeProbe::dead()), &opts(0));
    assert!(plan
        .report
        .ends_with("\n\ndry run — nothing removed. Re-run with --apply to delete.\n"));
    let kept = sweep("/tmp", collect(&entries, &opts(0), &FakeProbe::live()), &opts(0));
    assert!(!kept.report.contains("dry run"));
}

#[test]
fn paths_are_listed_as_paths_are_shown() {
    for name in ["dad-tests-1-it's", "dad-tests-1-\u{301}x", "dad-tests-1-\"q\"", "dad-tests-1-\t"] {
        let path = format!("/tmp/{name}");
        let text = report("/tmp", &[candidate(name, 1, 1, verdict(true, Reason::DeadPid))], &[], HOUR);
        let shown = format!("{:?}", std::path::Path::new(&path));
        assert!(text.contains(&shown), "{shown} is not in {text}");
    }
}

#[test]
fn no_name_adds_a_line_to_a_report() {
    let hostile: Vec<Candidate> = (0u32..0x100)
        .filter_map(char::from_u32)
        .enumerate()
        .take(MAX_LISTED)
        .map(|(i, c)| candidate(&format!("{i}{c}\r\n\u{7f}x"), 1, 1, verdict(true, Reason::DeadPid)))
        .collect();
    let text = report("/tmp", &hostile, &[], HOUR);
    assert_eq!(text.lines().count(), MAX_LISTED + 2);
    for line in text.lines() {
        assert!(!line.chars().any(|c| c.is_ascii_control()), "{line:?}");
    }
}
