use sqlite3_rsync_cli::args::parse_args;
use sqlite3_rsync_cli::commands::{add_path_argument, append_file_opts, build_ssh_prefix};
use sqlite3_rsync_cli::numbers::{append_decimal, parse_i32_text, parse_unsigned_text};
use sqlite3_rsync_cli::session::{
    local_command_args, local_replica_command, plan_sync, split_remote_name, PlanError,
    RemoteSession, RemoteSide, RemoteSync, SessionEnd, SpawnFailure, SyncPlan,
};
use sqlite3_rsync_cli::paths::host_separator_on;
use sqlite3_rsync_cli::shell::{
    append_escaped_arg, append_escaped_arg_on, arg_escape_check, first_illegal_byte, Platform,
};

const PATH_WORD: &str = "'PATH=$HOME/bin:/usr/local/bin:/opt/homebrew/bin:/opt/local/bin:$PATH'";

fn args_of(v: &[&str]) -> Vec<String> {
    v.iter().map(|s| s.to_string()).collect()
}

/// How a POSIX shell reads one word made of plain characters, backslash
/// escapes and single-quoted runs.
fn sh_read_word(w: &str) -> String {
    let mut out = String::new();
    let mut chars = w.chars();
    while let Some(c) = chars.next() {
        match c {
            '\\' => out.push(chars.next().unwrap()),
            '\'' => {
                for q in chars.by_ref() {
                    if q == '\'' {
                        break;
                    }
                    out.push(q);
                }
            }
            _ => out.push(c),
        }
    }
    out
}

fn word_of(z: &str, is_filename: bool) -> String {
    let mut s = String::new();
    assert!(append_escaped_arg(&mut s, z, is_filename));
    s
}

#[test]
fn escaped_words_read_back() {
    for z in ["plain", "a b", "it's", "a'b c", "$HOME", "x;y|z", "*?[]", "#c", "(x)", "a\\b"] {
        assert_eq!(sh_read_word(&word_of(z, false)), z);
        assert_eq!(sh_read_word(&word_of(z, true)), z);
    }
    assert_eq!(sh_read_word(&word_of("-db", true)), "./-db");
    assert_eq!(sh_read_word(&word_of("-d'b", true)), "./-d'b");
    assert_eq!(sh_read_word(&word_of("-d b", true)), "./-d b");
}

#[test]
fn first_illegal_byte_reports_the_byte() {
    assert_eq!(first_illegal_byte("ab\tc\n"), Some(9));
    assert_eq!(first_illegal_byte("é"), Some(0xc3));
    assert_eq!(first_illegal_byte("ok it's fine"), None);
    assert_eq!(first_illegal_byte(""), None);
}

#[test]
fn arg_escape_check_line() {
    let args = args_of(&["prog", "a b", "--arg-escape-check", "-x"]);
    assert_eq!(arg_escape_check(&args, 2, Platform::Posix), "prog 'a b' --arg-escape-check './-x'");
    let args = args_of(&["prog", "bad\u{1}", "ok"]);
    assert_eq!(arg_escape_check(&args, 5, Platform::Posix), "prog ok");
}

#[test]
fn path_argument_is_quoted() {
    let mut s = String::from("ssh");
    add_path_argument(&mut s, Platform::Posix);
    assert_eq!(s, format!("ssh {}", PATH_WORD));
}

#[test]
fn ssh_prefix_with_port_and_retry() {
    let mut cmd = String::new();
    build_ssh_prefix(&mut cmd, "ssh", 2222, "user@host", false, Platform::Posix);
    assert_eq!(cmd, "ssh -p 2222 -e none 'user@host'");
    let mut cmd = String::new();
    build_ssh_prefix(&mut cmd, "/opt/my ssh", 0, "host", true, Platform::Posix);
    assert_eq!(cmd, format!("'/opt/my ssh' -e none host {}", PATH_WORD));
}

#[test]
fn file_opts_and_commcheck_verbosity() {
    let mut cmd = String::from("x");
    let mut verbose = 0u8;
    append_file_opts(&mut cmd, &Some("e f".to_string()), &None, true, true, &mut verbose, Platform::Posix);
    assert_eq!(cmd, "x --commcheck --errorfile 'e f' --wal-only");
    assert_eq!(verbose, 1);
    let mut cmd = String::new();
    let mut verbose = 3u8;
    append_file_opts(&mut cmd, &None, &Some("-d".to_string()), false, true, &mut verbose, Platform::Posix);
    assert_eq!(cmd, "--commcheck --debugfile './-d'");
    assert_eq!(verbose, 3);
    let mut cmd = String::from("y");
    let mut verbose = 0u8;
    append_file_opts(&mut cmd, &None, &None, false, false, &mut verbose, Platform::Posix);
    assert_eq!(cmd, "y");
    assert_eq!(verbose, 0);
}

fn job(side: RemoteSide, comm_check: bool) -> RemoteSync {
    RemoteSync {
        side,
        host: "h".to_string(),
        remote_path: "/r/db".to_string(),
        local_tail: "l.db".to_string(),
        ssh: "ssh".to_string(),
        port: 0,
        exe: "sqlite3_rsync".to_string(),
        remote_err_file: None,
        remote_debug_file: None,
        wal_only: false,
        comm_check,
        platform: Platform::Posix,
    }
}

#[test]
fn remote_session_commands_and_retries() {
    let j = job(RemoteSide::Origin, false);
    let mut s = RemoteSession::new();
    let mut verbose = 0u8;
    assert_eq!(
        s.command(&j, &mut verbose),
        "ssh -e none h sqlite3_rsync --origin /r/db l.db '2>/dev/null'"
    );
    assert!(matches!(s.spawn_failed(verbose), SpawnFailure::Retry { announce: false }));
    assert_eq!(s.retry_count(), 1);
    assert_eq!(
        s.command(&j, &mut verbose),
        format!("ssh -e none h {} sqlite3_rsync --origin /r/db l.db", PATH_WORD)
    );
    assert!(matches!(s.spawn_failed(verbose), SpawnFailure::GiveUp));
    assert!(matches!(s.session_finished(0), SessionEnd::Finished));
}

#[test]
fn remote_session_retries_when_no_hash_sent() {
    let j = job(RemoteSide::Replica, false);
    let mut s = RemoteSession::new();
    let mut verbose = 2u8;
    assert_eq!(s.command(&j, &mut verbose), "ssh -e none h sqlite3_rsync --replica l.db /r/db");
    assert!(matches!(s.session_finished(0), SessionEnd::Retry));
    assert!(matches!(s.session_finished(0), SessionEnd::Finished));
    let mut s = RemoteSession::new();
    assert!(matches!(s.spawn_failed(2), SpawnFailure::Retry { announce: true }));
    let mut s = RemoteSession::new();
    assert!(matches!(s.session_finished(5), SessionEnd::Finished));
    assert_eq!(s.retry_count(), 0);
}

#[test]
fn remote_session_commcheck_raises_verbosity() {
    let j = job(RemoteSide::Origin, true);
    let s = RemoteSession::new();
    let mut verbose = 0u8;
    assert_eq!(
        s.command(&j, &mut verbose),
        "ssh -e none h sqlite3_rsync --origin --commcheck /r/db l.db '2>/dev/null'"
    );
    assert_eq!(verbose, 1);
}

#[test]
fn plan_remote_origin() {
    let p = parse_args(&args_of(&["p", "-p", "22", "user@host:/x/db", "dir/r.db"]), 2);
    match plan_sync(&p.options, Platform::Posix) {
        Ok(SyncPlan::Remote(j)) => {
            assert_eq!(j.side, RemoteSide::Origin);
            assert_eq!(j.host, "user@host");
            assert_eq!(j.remote_path, "/x/db");
            assert_eq!(j.local_tail, "r.db");
            assert_eq!(j.port, 22);
        }
        _ => panic!("expected a remote origin"),
    }
}

#[test]
fn plan_remote_replica() {
    let p = parse_args(&args_of(&["p", "/a/o.db", "host:r.db"]), 2);
    match plan_sync(&p.options, Platform::Posix) {
        Ok(SyncPlan::Remote(j)) => {
            assert_eq!(j.side, RemoteSide::Replica);
            assert_eq!(j.host, "host");
            assert_eq!(j.remote_path, "r.db");
            assert_eq!(j.local_tail, "o.db");
        }
        _ => panic!("expected a remote replica"),
    }
}

#[test]
fn plan_other_cases() {
    let p = parse_args(&args_of(&["p", "a:x", "b:y"]), 2);
    assert!(matches!(plan_sync(&p.options, Platform::Posix), Err(PlanError::BothRemote)));
    let p = parse_args(&args_of(&["p", "a.db", "b.db"]), 2);
    assert!(matches!(plan_sync(&p.options, Platform::Posix), Ok(SyncPlan::Local)));
    let p = parse_args(&args_of(&["p", "--origin", "a:x", "b:y"]), 2);
    assert!(matches!(plan_sync(&p.options, Platform::Posix), Ok(SyncPlan::ServeOrigin)));
    let p = parse_args(&args_of(&["p", "--replica", "a", "b"]), 2);
    assert!(matches!(plan_sync(&p.options, Platform::Posix), Ok(SyncPlan::ServeReplica)));
}

#[test]
fn split_remote_name_keeps_everything() {
    let (h, p) = split_remote_name("hôte:/chemin/é.db", 5);
    assert_eq!(h, "hôte");
    assert_eq!(p, "/chemin/é.db");
    assert_eq!(format!("{}:{}", h, p), "hôte:/chemin/é.db");
}

#[test]
fn local_command_line() {
    let p = parse_args(
        &args_of(&["p", "--remote-errorfile", "err.log", "--wal-only", "a.db", "b b.db"]),
        2,
    );
    let mut verbose = 0u8;
    let cmd = local_replica_command(
        "/usr/bin/sqlite3_rsync",
        "a.db",
        "b b.db",
        &p.options,
        &mut verbose,
        Platform::Posix,
    );
    assert_eq!(
        cmd,
        "/usr/bin/sqlite3_rsync --replica --errorfile err.log --wal-only a.db 'b b.db'"
    );
}

#[test]
fn decimal_text() {
    let mut s = String::from("-p ");
    append_decimal(&mut s, 0);
    assert_eq!(s, "-p 0");
    let mut s = String::new();
    append_decimal(&mut s, 4294967295);
    assert_eq!(s, "4294967295");
}

#[test]
fn unsigned_text() {
    assert_eq!(parse_unsigned_text(b"+12", 255), Some(12));
    assert_eq!(parse_unsigned_text(b"007", 255), Some(7));
    assert_eq!(parse_unsigned_text(b"256", 255), None);
    assert_eq!(parse_unsigned_text(b"+", 255), None);
    assert_eq!(parse_unsigned_text(b"", 255), None);
    assert_eq!(parse_unsigned_text(b"-1", 255), None);
    assert_eq!(parse_unsigned_text(b" 1", 255), None);
    assert_eq!(parse_unsigned_text(b"99999999999999999999", 255), None);
}

#[test]
fn i32_text() {
    assert_eq!(parse_i32_text(b"-5"), Some(-5));
    assert_eq!(parse_i32_text(b"+7"), Some(7));
    assert_eq!(parse_i32_text(b"2147483647"), Some(i32::MAX));
    assert_eq!(parse_i32_text(b"2147483648"), None);
    assert_eq!(parse_i32_text(b"-2147483648"), Some(i32::MIN));
    assert_eq!(parse_i32_text(b"-"), None);
    assert_eq!(parse_i32_text(b"12a"), None);
    for s in ["0", "65535", "-0", "+0", "0022", "99999999999"] {
        assert_eq!(parse_i32_text(s.as_bytes()), s.parse::<i32>().ok());
    }
}

fn windows_word(z: &str, is_filename: bool) -> String {
    let mut s = String::new();
    assert!(append_escaped_arg_on(&mut s, z, is_filename, Platform::Windows));
    s
}

#[test]
fn windows_quoting() {
    assert_eq!(windows_word("hello", false), "hello");
    assert_eq!(windows_word("a!b", false), "a!b");
    assert_eq!(windows_word("c\\dir", true), "c\\dir");
    assert_eq!(windows_word("hello world", false), "\"hello world\"");
    assert_eq!(windows_word("-mydb.sqlite", true), "\".\\-mydb.sqlite\"");
    assert_eq!(windows_word("/abs path", true), "\"./abs path\"");
    assert_eq!(windows_word("a\"b", false), "\"a\"\"b\"");
    assert_eq!(windows_word("a b\\c", false), "\"a b\\\\c\"");
    assert_eq!(windows_word("100% x", true), "\"100%%cd:~,% x\"");
    assert_eq!(windows_word("100% x", false), "\"100% x\"");
    assert_eq!(windows_word("2>/dev/null", false), "\"2>/dev/null\"");
    let mut s = String::from("cmd");
    assert!(!append_escaped_arg_on(&mut s, "bad\ttab", false, Platform::Windows));
    assert!(append_escaped_arg_on(&mut s, "x y", false, Platform::Windows));
    assert_eq!(s, "cmd \"x y\"");
}

#[test]
fn posix_and_windows_agree_on_plain_words() {
    for z in ["plain", "a.b", "x_y-z", "C:file"] {
        let mut p = String::new();
        append_escaped_arg(&mut p, z, false);
        assert_eq!(p, windows_word(z, false));
    }
}

#[test]
fn windows_drive_letters_are_local() {
    assert_eq!(host_separator_on("C:/data/db.sqlite", Platform::Windows), None);
    assert_eq!(host_separator_on("d:\\data\\db.sqlite", Platform::Windows), None);
    assert_eq!(host_separator_on("C:/data/db.sqlite", Platform::Posix), Some(1));
    assert_eq!(host_separator_on("C:db", Platform::Windows), Some(1));
    assert_eq!(host_separator_on("1:/x", Platform::Windows), Some(1));
    assert_eq!(host_separator_on("host:/x", Platform::Windows), Some(4));
}

#[test]
fn windows_plan_keeps_drive_paths_local() {
    let p = parse_args(&args_of(&["p", "C:/o.db", "host:r.db"]), 2);
    match plan_sync(&p.options, Platform::Windows) {
        Ok(SyncPlan::Remote(j)) => {
            assert_eq!(j.side, RemoteSide::Replica);
            assert_eq!(j.host, "host");
            assert_eq!(j.local_tail, "o.db");
            assert_eq!(j.platform, Platform::Windows);
        }
        _ => panic!("expected a remote replica"),
    }
    assert!(matches!(plan_sync(&p.options, Platform::Posix), Err(PlanError::BothRemote)));
}

#[test]
fn windows_remote_command() {
    let mut j = job(RemoteSide::Origin, false);
    j.platform = Platform::Windows;
    j.remote_path = "/r db".to_string();
    let s = RemoteSession::new();
    let mut verbose = 0u8;
    assert_eq!(
        s.command(&j, &mut verbose),
        "ssh -e none h sqlite3_rsync --origin \"./r db\" l.db \"2>/dev/null\""
    );
}

#[test]
fn user_args_in_command_order() {
    let mut j = job(RemoteSide::Replica, false);
    j.remote_debug_file = Some("dbg".to_string());
    assert_eq!(j.user_args(), vec!["ssh", "h", "sqlite3_rsync", "dbg", "l.db", "/r/db"]);
    let j = job(RemoteSide::Origin, false);
    assert_eq!(j.user_args(), vec!["ssh", "h", "sqlite3_rsync", "/r/db", "l.db"]);
    let p = parse_args(&args_of(&["p", "--remote-errorfile", "e", "a", "b"]), 2);
    assert_eq!(
        local_command_args("exe", "a", "b", &p.options),
        vec!["exe", "e", "a", "b"]
    );
}
