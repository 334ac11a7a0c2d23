use ws::tools::{
    apply_edits, bash_result, bytes_written, kill_args, command_path, find_args, generate_session_id, grep_args, logs_result,
    parse_find_output, parse_grep_output, read_result, search_root_of, session_dir_name, sort_entries,
    write_result, BackgroundSessions, CommandOutcome, EditOp, KillStep, LsEntry,
};

fn edit(old: &str, new: &str) -> EditOp {
    EditOp { old_text: old.to_string(), new_text: new.to_string() }
}

#[test]
fn edits_apply_in_order_and_report_refusals() {
    let edits = vec![edit("foo", "bar"), edit("", "x"), edit("missing", "y"), edit("bar", "baz")];
    let (text, result) = apply_edits("foo foo qux", &edits);
    assert_eq!(text, "baz baz qux");
    assert_eq!(result.applied, 2);
    assert_eq!(
        result.errors,
        vec!["edit[1]: old_text is empty".to_string(), "edit[2]: old_text not found".to_string()]
    );
}

#[test]
fn refused_edits_change_nothing() {
    let edits = vec![edit("", "x"), edit("absent", "y")];
    let (text, result) = apply_edits("unchanged", &edits);
    assert_eq!(text, "unchanged");
    assert_eq!(result.applied, 0);
    assert_eq!(result.errors.len(), 2);
}

#[test]
fn replacing_with_the_same_text_keeps_it() {
    let (text, result) = apply_edits("a-b-a", &vec![edit("a", "a")]);
    assert_eq!(text, "a-b-a");
    assert_eq!(result.applied, 1);
}

#[test]
fn reads_whole_files_and_line_ranges() {
    let content = "one\ntwo\nthree\nfour";
    let all = read_result(content, None, None);
    assert_eq!(all.content, content);
    assert_eq!(all.size, 18);
    let mid = read_result(content, Some(2), Some(2));
    assert_eq!(mid.content, "two\nthree\n");
    assert_eq!(mid.size, 10);
    assert_eq!(read_result(content, Some(0), Some(1)).content, "one\n");
    assert_eq!(read_result(content, Some(4), None).content, "four");
    assert_eq!(read_result(content, Some(9), None).content, "");
    assert_eq!(read_result(content, None, Some(usize::MAX)).content, content);
    assert_eq!(read_result("héllo", None, None).size, 6);
}

#[test]
fn grep_output_is_read_line_by_line() {
    let out = "/w/a.rs:3:let x = 1;\n/w/b.rs:10:a:b\nnot a match\n/w/c.rs:x:bad\n/w/d.rs:7\n";
    let r = parse_grep_output(out);
    assert_eq!(r.matches.len(), 3);
    assert_eq!(r.matches[0].path, "/w/a.rs");
    assert_eq!(r.matches[0].line_number, 3);
    assert_eq!(r.matches[0].text, "let x = 1;");
    assert_eq!(r.matches[1].text, "a:b");
    assert_eq!(r.matches[2].path, "/w/d.rs");
    assert_eq!(r.matches[2].text, "");
}

#[test]
fn find_output_is_one_file_per_line() {
    assert_eq!(parse_find_output("/a\n/b\n").files, vec!["/a".to_string(), "/b".to_string()]);
    assert!(parse_find_output("").files.is_empty());
}

#[test]
fn search_commands() {
    assert_eq!(search_root_of(None), ".");
    assert_eq!(search_root_of(Some("/w")), "/w");
    assert_eq!(grep_args("fn main", "/w"), vec!["-rnHI", "--", "fn main", "/w"]);
    assert_eq!(find_args("/w", None), vec!["/w", "-type", "f"]);
    assert_eq!(find_args("/w", Some("*.rs")), vec!["/w", "-type", "f", "-name", "*.rs"]);
    assert_eq!(session_dir_name("00ab"), "ws-00ab");
}

#[test]
fn write_reports_bytes() {
    assert_eq!(write_result("").size, 0);
    assert_eq!(write_result("ü!").size, 3);
}

#[test]
fn bash_outcomes() {
    let ok = bash_result(CommandOutcome::Completed {
        stdout: "out".to_string(),
        stderr: "err".to_string(),
        code: Some(3),
    });
    assert_eq!((ok.stdout.as_str(), ok.stderr.as_str(), ok.exit_code), ("out", "err", 3));
    let signalled = bash_result(CommandOutcome::Completed {
        stdout: String::new(),
        stderr: String::new(),
        code: None,
    });
    assert_eq!(signalled.exit_code, -1);
    let failed = bash_result(CommandOutcome::Failed("no sh".to_string()));
    assert_eq!((failed.stdout.as_str(), failed.stderr.as_str(), failed.exit_code), ("", "no sh", -1));
    let late = bash_result(CommandOutcome::TimedOut);
    assert_eq!((late.stderr.as_str(), late.exit_code), ("command timed out", -1));
}

#[test]
fn commands_see_the_nix_profile_first() {
    assert_eq!(
        command_path("/home/u", "/usr/bin:/bin"),
        "/home/u/.local/state/nix/profile/bin:/usr/bin:/bin"
    );
}

#[test]
fn session_ids_are_sixteen_hex_digits() {
    assert_eq!(generate_session_id(0), "0000000000000000");
    assert_eq!(generate_session_id(255), "00000000000000ff");
    assert_eq!(generate_session_id(0x1234_5678_9abc_def0), "123456789abcdef0");
    assert_eq!(generate_session_id(0x1_0000_0000_0000_0000), "10000000000000000");
}

#[test]
fn background_sessions_lifecycle() {
    let mut s = BackgroundSessions::new();
    assert_eq!(s.get_status("x").unwrap_err().0, "session not found");
    s.start("a".to_string(), 42, "sleep 9", "/tmp/ws-a".to_string());
    let st = s.get_status("a").unwrap();
    assert_eq!((st.pid, st.command.as_str(), st.running, st.exit_code), (42, "sleep 9", true, None));
    match s.kill_session("a").unwrap() {
        KillStep::Signal(pid) => assert_eq!(pid, 42),
        KillStep::Done(_) => panic!("expected a signal"),
    }
    let k = s.killed("a", true);
    assert!(k.killed);
    assert_eq!(k.message, "SIGTERM sent");
    let st = s.get_status("a").unwrap();
    assert_eq!((st.running, st.exit_code), (false, Some(-15)));
    match s.kill_session("a").unwrap() {
        KillStep::Done(r) => assert_eq!((r.killed, r.message.as_str()), (false, "already exited")),
        KillStep::Signal(_) => panic!("already exited"),
    }
    assert!(s.kill_session("nope").is_err());
}

#[test]
fn sessions_without_pid_and_failed_kills() {
    let mut s = BackgroundSessions::new();
    s.start("p0".to_string(), 0, "true", "/tmp/ws-p0".to_string());
    match s.kill_session("p0").unwrap() {
        KillStep::Done(r) => assert_eq!((r.killed, r.message.as_str()), (false, "no pid")),
        KillStep::Signal(_) => panic!("no pid to signal"),
    }
    s.start("b".to_string(), 7, "run", "/tmp/ws-b".to_string());
    let k = s.killed("b", false);
    assert_eq!((k.killed, k.message.as_str()), (false, "kill command failed"));
    assert!(s.get_status("b").unwrap().running);
    s.exited("b", Some(0));
    let (running, code, dir) = s.log_source("b").unwrap();
    assert_eq!((running, code, dir.as_str()), (false, Some(0), "/tmp/ws-b"));
    let k = s.killed("b", true);
    assert!(k.killed);
    assert_eq!(s.get_status("b").unwrap().exit_code, Some(0));
    let all = s.list_sessions();
    assert_eq!(all.len(), 2);
    assert_eq!(all[0].session_id, "p0");
    assert_eq!(all[1].session_id, "b");
}

#[test]
fn logs_report_byte_lengths() {
    let l = logs_result("añb".to_string(), String::new(), true, None);
    assert_eq!((l.stdout_len, l.stderr_len, l.running, l.exit_code), (4, 0, true, None));
}

#[test]
fn directory_entries_sort_by_name() {
    let e = |n: &str| LsEntry { name: n.to_string(), is_dir: false, size: 1 };
    let sorted = sort_entries(vec![e("b"), e("B"), e("a"), e("ab"), e("a")]);
    let names: Vec<&str> = sorted.iter().map(|x| x.name.as_str()).collect();
    assert_eq!(names, vec!["B", "a", "a", "ab", "b"]);
}

#[test]
fn kills_reach_the_process_group() {
    assert_eq!(kill_args(4242), vec!["--", "-4242"]);
    assert_eq!(bytes_written(&[1, 2, 3]).size, 3);
}

#[test]
fn searches_return_at_most_two_hundred_results() {
    let mut out = String::new();
    for i in 0..250 {
        out.push_str(&format!("/w/a.rs:{}:line {}\n", i + 1, i));
    }
    let long = "x".repeat(600);
    let r = parse_grep_output(&format!("/w/b.rs:1:{}\n", long));
    assert_eq!(r.matches[0].text.chars().count(), 500);
    let r = parse_grep_output(&out);
    assert_eq!(r.matches.len(), 200);
    assert_eq!(r.matches[199].line_number, 200);
    let files: String = (0..300).map(|i| format!("/w/f{}\n", i)).collect();
    let f = parse_find_output(&files);
    assert_eq!(f.files.len(), 200);
    assert_eq!(f.files[199], "/w/f199");
}
