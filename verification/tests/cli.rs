use sqlite3_rsync_cli::args::{default_log_level, num_vs, parse_args, ArgError, LogLevel, ParseEnd};
use sqlite3_rsync_cli::paths::{file_tail, host_separator};
use sqlite3_rsync_cli::shell::append_escaped_arg;

// ── file_tail ────────────────────────────────────────────────────────────

#[test]
fn file_tail_plain_filename() {
    assert_eq!(file_tail("mydb.sqlite"), "mydb.sqlite");
}

#[test]
fn file_tail_with_path() {
    assert_eq!(file_tail("/home/user/mydb.sqlite"), "mydb.sqlite");
}

#[test]
fn file_tail_trailing_slash() {
    assert_eq!(file_tail("/home/user/"), "");
}

#[test]
fn file_tail_empty() {
    assert_eq!(file_tail(""), "");
}

// ── host_separator ───────────────────────────────────────────────────────

#[test]
fn host_separator_user_at_host() {
    let s = "user@host.example.com:/path/to/db";
    let pos = host_separator(s).unwrap();
    assert_eq!(&s[..pos], "user@host.example.com");
    assert_eq!(&s[pos + 1..], "/path/to/db");
}

#[test]
fn host_separator_simple_host() {
    let s = "host:/data/db.sqlite";
    assert_eq!(host_separator(s), Some(4));
}

#[test]
fn host_separator_local_path() {
    assert_eq!(host_separator("/local/path.db"), None);
}

#[test]
fn host_separator_relative_path() {
    assert_eq!(host_separator("relative/path.db"), None);
}

#[test]
fn host_separator_slash_before_colon() {
    // "/dir/host:path" — the slash comes before the colon, so it's local
    assert_eq!(host_separator("/dir/host:path"), None);
}

#[test]
fn host_separator_no_colon() {
    assert_eq!(host_separator("nodomain"), None);
}

// ── num_vs ───────────────────────────────────────────────────────────────

#[test]
fn num_vs_single_v() {
    assert_eq!(num_vs("-v"), 1);
}

#[test]
fn num_vs_triple_v() {
    assert_eq!(num_vs("-vvv"), 3);
}

#[test]
fn num_vs_double_dash() {
    assert_eq!(num_vs("--vvv"), 3);
}

#[test]
fn num_vs_not_v_flag() {
    assert_eq!(num_vs("-verbose"), 0);
}

#[test]
fn num_vs_no_dash() {
    assert_eq!(num_vs("vvv"), 0);
}

#[test]
fn num_vs_empty() {
    assert_eq!(num_vs(""), 0);
}

#[test]
fn num_vs_mixed() {
    // "-vvvx" is not a pure v-flag
    assert_eq!(num_vs("-vvvx"), 0);
}

// ── append_escaped_arg ───────────────────────────────────────────────────

#[test]
fn escaped_arg_plain_word() {
    let mut s = String::new();
    let ok = append_escaped_arg(&mut s, "hello", false);
    assert!(ok);
    assert_eq!(s, "hello");
}

#[test]
fn escaped_arg_space_in_value() {
    let mut s = String::new();
    let ok = append_escaped_arg(&mut s, "hello world", false);
    assert!(ok);
    // Must be quoted somehow
    assert!(s.contains("hello") && s.contains("world"));
    assert!(s.starts_with('\'') || s.starts_with('"'));
}

#[test]
fn escaped_arg_multiple_args_space_separated() {
    let mut s = String::new();
    append_escaped_arg(&mut s, "ssh", false);
    append_escaped_arg(&mut s, "host", false);
    assert!(s.contains(' '));
}

#[test]
fn escaped_arg_filename_starting_with_dash() {
    let mut s = String::new();
    let ok = append_escaped_arg(&mut s, "-mydb.sqlite", true);
    assert!(ok);
    // Should prepend ./ to prevent shell misinterpretation
    assert!(s.contains("./") || s.contains(".\\"));
}

// ── more on the same functions ───────────────────────────────────────────

fn args_of(v: &[&str]) -> Vec<String> {
    v.iter().map(|s| s.to_string()).collect()
}

#[test]
fn file_tail_keeps_non_ascii_names() {
    assert_eq!(file_tail("/données/base.db"), "base.db");
    assert_eq!(file_tail("dir/é"), "é");
}

#[test]
fn host_separator_backslash_before_colon() {
    assert_eq!(host_separator("dir\\host:path"), None);
    assert_eq!(host_separator(":path"), Some(0));
    assert_eq!(host_separator("h:a:b"), Some(1));
}

#[test]
fn num_vs_edge_cases() {
    assert_eq!(num_vs("-"), 0);
    assert_eq!(num_vs("--"), 0);
    assert_eq!(num_vs("---v"), 0);
    let many = format!("-{}", "v".repeat(300));
    assert_eq!(num_vs(&many), (300 % 256) as u8);
}

#[test]
fn escaped_arg_single_quote_uses_backslashes() {
    let mut s = String::new();
    assert!(append_escaped_arg(&mut s, "it's here", false));
    assert_eq!(s, "it\\'s\\ here");
}

#[test]
fn escaped_arg_dash_file_with_quote() {
    let mut s = String::new();
    assert!(append_escaped_arg(&mut s, "-x's", true));
    assert_eq!(s, "./-x\\'s");
}

#[test]
fn escaped_arg_dash_file_quoted() {
    let mut s = String::from("cmd");
    assert!(append_escaped_arg(&mut s, "-x y", true));
    assert_eq!(s, "cmd './-x y'");
}

#[test]
fn escaped_arg_dash_not_a_file_is_plain() {
    let mut s = String::new();
    assert!(append_escaped_arg(&mut s, "--replica", false));
    assert_eq!(s, "--replica");
}

#[test]
fn escaped_arg_illegal_bytes_leave_command_unchanged() {
    let mut s = String::from("ssh");
    assert!(!append_escaped_arg(&mut s, "a\nb", false));
    assert!(!append_escaped_arg(&mut s, "café", true));
    assert_eq!(s, "ssh");
}

#[test]
fn escaped_arg_special_characters_quoted() {
    let mut s = String::new();
    assert!(append_escaped_arg(&mut s, "2>/dev/null", false));
    assert_eq!(s, "'2>/dev/null'");
}

#[test]
fn default_log_level_from_v_flags() {
    assert_eq!(default_log_level(&args_of(&["prog", "a", "b"])), LogLevel::Warn);
    assert_eq!(default_log_level(&args_of(&["prog", "-v"])), LogLevel::Info);
    assert_eq!(default_log_level(&args_of(&["prog", "-v", "--v"])), LogLevel::Debug);
    assert_eq!(default_log_level(&args_of(&["prog", "-vvvv"])), LogLevel::Trace);
    assert_eq!(default_log_level(&args_of(&["-vvv"])), LogLevel::Warn);
}

#[test]
fn parse_two_databases() {
    let r = parse_args(&args_of(&["prog", "a.db", "host:b.db"]), 2);
    assert!(matches!(r.end, ParseEnd::Ready));
    assert_eq!(r.options.origin.as_deref(), Some("a.db"));
    assert_eq!(r.options.replica.as_deref(), Some("host:b.db"));
    assert_eq!(r.options.ssh, "ssh");
    assert_eq!(r.options.exe, "sqlite3_rsync");
    assert_eq!(r.options.port, 0);
    assert_eq!(r.options.protocol, None);
    assert_eq!(r.options.verbose, 0);
}

#[test]
fn parse_options_with_values() {
    let r = parse_args(
        &args_of(&[
            "prog", "--ssh", "/usr/bin/ssh", "-p", "2222", "--exe", "rsync3", "--wal-only",
            "--commcheck", "--errorfile", "e.txt", "--debugfile", "d.txt",
            "--remote-errorfile", "re.txt", "--remote-debugfile", "rd.txt", "-vv", "--v",
            "--logfile", "l1", "-logfile", "l2", "o.db", "r.db",
        ]),
        2,
    );
    assert!(matches!(r.end, ParseEnd::Ready));
    let o = &r.options;
    assert_eq!(o.ssh, "/usr/bin/ssh");
    assert_eq!(o.port, 2222);
    assert_eq!(o.exe, "rsync3");
    assert!(o.wal_only && o.comm_check);
    assert_eq!(o.err_file.as_deref(), Some("e.txt"));
    assert_eq!(o.debug_file.as_deref(), Some("d.txt"));
    assert_eq!(o.remote_err_file.as_deref(), Some("re.txt"));
    assert_eq!(o.remote_debug_file.as_deref(), Some("rd.txt"));
    assert_eq!(o.verbose, 3);
    assert_eq!(o.log_files, vec!["l1".to_string(), "l2".to_string()]);
}

#[test]
fn parse_protocol_is_clamped() {
    let r = parse_args(&args_of(&["p", "--protocol", "9", "a", "b"]), 2);
    assert_eq!(r.options.protocol, Some(2));
    let r = parse_args(&args_of(&["p", "--protocol", "0", "a", "b"]), 2);
    assert_eq!(r.options.protocol, Some(1));
    let r = parse_args(&args_of(&["p", "--protocol", "junk", "a", "b"]), 2);
    assert_eq!(r.options.protocol, Some(1));
    let r = parse_args(&args_of(&["p", "--protocol", "+2", "a", "b"]), 3);
    assert_eq!(r.options.protocol, Some(2));
    let r = parse_args(&args_of(&["p", "--protocol", "300", "a", "b"]), 3);
    assert_eq!(r.options.protocol, Some(1));
}

#[test]
fn parse_port_errors() {
    let r = parse_args(&args_of(&["p", "-p", "70000", "a", "b"]), 2);
    assert!(matches!(r.end, ParseEnd::Failed(ArgError::InvalidPort(ref s)) if s == "70000"));
    let r = parse_args(&args_of(&["p", "--port", "0"]), 2);
    assert!(matches!(r.end, ParseEnd::Failed(ArgError::InvalidPort(_))));
    let r = parse_args(&args_of(&["p", "--port", "-22", "a", "b"]), 2);
    assert!(matches!(r.end, ParseEnd::Failed(ArgError::InvalidPort(_))));
    let r = parse_args(&args_of(&["p", "--port", "65535", "a", "b"]), 2);
    assert_eq!(r.options.port, 65535);
    let r = parse_args(&args_of(&["p", "a", "b", "-p"]), 2);
    assert!(matches!(r.end, ParseEnd::Failed(ArgError::MissingArgument(ref s)) if s == "--port"));
}

#[test]
fn parse_refusals() {
    let r = parse_args(&args_of(&["p", "--bogus", "a", "b"]), 2);
    assert!(matches!(r.end, ParseEnd::Failed(ArgError::UnknownOption(ref s)) if s == "--bogus"));
    let r = parse_args(&args_of(&["p", "--", "a", "b"]), 2);
    assert!(matches!(r.end, ParseEnd::Failed(ArgError::UnknownOption(ref s)) if s == "--"));
    let r = parse_args(&args_of(&["p", "a", "b", "c"]), 2);
    assert!(matches!(r.end, ParseEnd::Failed(ArgError::UnexpectedArgument(ref s)) if s == "c"));
    let r = parse_args(&args_of(&["p"]), 2);
    assert!(matches!(r.end, ParseEnd::Failed(ArgError::MissingOrigin)));
    let r = parse_args(&args_of(&["p", "a"]), 2);
    assert!(matches!(r.end, ParseEnd::Failed(ArgError::MissingReplica)));
    let r = parse_args(&args_of(&["p", "--origin", "--replica", "a", "b"]), 2);
    assert!(matches!(r.end, ParseEnd::Failed(ArgError::BadOptionCombination)));
    let r = parse_args(&args_of(&["p", "a", "b", "--ssh"]), 2);
    assert!(matches!(r.end, ParseEnd::Failed(ArgError::MissingArgument(ref s)) if s == "--ssh"));
}

#[test]
fn parse_stops_early() {
    let r = parse_args(&args_of(&["p", "--logfile", "l", "--version", "--bogus"]), 2);
    assert!(matches!(r.end, ParseEnd::ShowVersion));
    assert_eq!(r.options.log_files, vec!["l".to_string()]);
    let r = parse_args(&args_of(&["p", "-?"]), 2);
    assert!(matches!(r.end, ParseEnd::ShowHelp));
    let r = parse_args(&args_of(&["p", "--help"]), 2);
    assert!(matches!(r.end, ParseEnd::ShowHelp));
    let r = parse_args(&args_of(&["p", "a", "--arg-escape-check", "b"]), 2);
    assert!(matches!(r.end, ParseEnd::EscapeCheck(2)));
}

#[test]
fn parse_serving_sides() {
    let r = parse_args(&args_of(&["p", "--origin", "a", "b"]), 2);
    assert!(matches!(r.end, ParseEnd::Ready));
    assert!(r.options.serve_origin && !r.options.serve_replica);
    let r = parse_args(&args_of(&["p", "-replica", "a", "b"]), 2);
    assert!(r.options.serve_replica);
}
