use kafka_term::remote::{
    du_command, entry_from_stat, find_command, find_output_paths, map_sftp_error,
    parse_du_output, parse_ls_la_output, retry_with_sudo, shell_escape, sudo_cat_command, sudo_cat_result,
    sudo_ls_command, sudo_ls_result, ErrorCode, SshError, StatInfo,
};
use kafka_term::types::{DirectoryEntry, EntryType};

#[test]
fn parse_du_output_valid_tab_separated() {
    let result = parse_du_output("1234\t/some/path");
    assert_eq!(result.unwrap(), 1234);
}

#[test]
fn parse_du_output_valid_spaces() {
    let result = parse_du_output("5678   /path/to/dir");
    assert_eq!(result.unwrap(), 5678);
}

#[test]
fn parse_du_output_empty() {
    let result = parse_du_output("");
    assert!(result.is_err());
    match result.unwrap_err() {
        SshError::ConnectionFailed(msg) => {
            assert!(msg.contains("empty output"));
        }
        other => panic!("Expected ConnectionFailed, got: {:?}", other),
    }
}

#[test]
fn parse_du_output_whitespace_only() {
    let result = parse_du_output("   \t\n  ");
    assert!(result.is_err());
    match result.unwrap_err() {
        SshError::ConnectionFailed(msg) => {
            assert!(msg.contains("empty output"));
        }
        other => panic!("Expected ConnectionFailed, got: {:?}", other),
    }
}

#[test]
fn parse_du_output_invalid_number() {
    let result = parse_du_output("abc\t/path");
    assert!(result.is_err());
    match result.unwrap_err() {
        SshError::ConnectionFailed(msg) => {
            assert!(msg.contains("Could not parse directory size"));
            assert_eq!(msg, "Could not parse directory size from: abc");
        }
        other => panic!("Expected ConnectionFailed, got: {:?}", other),
    }
}

#[test]
fn parse_du_output_only_number() {
    let result = parse_du_output("1234");
    assert_eq!(result.unwrap(), 1234);
}

#[test]
fn parse_du_output_large_value() {
    let result = parse_du_output("18446744073709551615\t/big/dir");
    assert_eq!(result.unwrap(), u64::MAX);
}

#[test]
fn parse_du_output_too_large_value() {
    assert!(parse_du_output("18446744073709551616\t/big/dir").is_err());
}

#[test]
fn parse_du_output_with_leading_newline() {
    let result = parse_du_output("\n9999\t/path");
    assert_eq!(result.unwrap(), 9999);
}

#[test]
fn parse_du_output_with_trailing_newline() {
    let result = parse_du_output("4321\t/path\n");
    assert_eq!(result.unwrap(), 4321);
}

#[test]
fn du_parsing_round_trip() {
    for (n, p) in [(0u64, "a"), (42, "/x y/z"), (u64::MAX, ". _/"), (7, "   ")] {
        let formatted = format!("{}\t{}", n, p);
        assert_eq!(parse_du_output(&formatted).unwrap(), n);
    }
}

fn format_ls_la_output(entries: &[DirectoryEntry]) -> String {
    entries
        .iter()
        .map(|entry| {
            let type_char = match entry.entry_type {
                EntryType::File => '-',
                EntryType::Directory => 'd',
                EntryType::Symlink => 'l',
            };
            let name_part = if entry.entry_type == EntryType::Symlink {
                format!("{} -> /dev/null", entry.name)
            } else {
                entry.name.clone()
            };
            format!("{}rw-r--r--  1 user group {} Jan  1 00:00 {}", type_char, entry.size, name_part)
        })
        .collect::<Vec<_>>()
        .join("\n")
}

#[test]
fn ls_la_parsing_round_trip() {
    let entries = vec![
        DirectoryEntry { name: "a file".to_string(), path: "/test/a file".to_string(), entry_type: EntryType::File, size: 12 },
        DirectoryEntry { name: "sub".to_string(), path: "/test/sub".to_string(), entry_type: EntryType::Directory, size: 4096 },
        DirectoryEntry { name: "ln".to_string(), path: "/test/ln".to_string(), entry_type: EntryType::Symlink, size: u64::MAX },
        DirectoryEntry { name: "x-y".to_string(), path: "/test/x-y".to_string(), entry_type: EntryType::File, size: 0 },
    ];
    let parsed = parse_ls_la_output(&format_ls_la_output(&entries), "/test");
    assert_eq!(parsed.len(), entries.len());
    for (o, p) in entries.iter().zip(parsed.iter()) {
        assert_eq!(p.name, o.name);
        assert_eq!(p.path, o.path);
        assert_eq!(p.entry_type, o.entry_type);
        assert_eq!(p.size, o.size);
    }
}

#[test]
fn ls_la_skips_header_dots_and_short_lines() {
    let out = "total 12\n\
drwxr-xr-x  2 root root 4096 Jan  1 00:00 .\n\
drwxr-xr-x  3 root root 4096 Jan  1 00:00 ..\n\
-rw-r--r--  1 root root 10 Jan  1 00:00 secret.txt\n\
garbage line\n\
-rw-r--r--  1 root root notanumber Jan  1 00:00 bad\n";
    let parsed = parse_ls_la_output(out, "/root");
    assert_eq!(parsed.len(), 1);
    assert_eq!(parsed[0].name, "secret.txt");
    assert_eq!(parsed[0].path, "/root/secret.txt");
    assert_eq!(parsed[0].size, 10);
}

#[test]
fn shell_escape_quotes() {
    assert_eq!(shell_escape("/a b/c"), "'/a b/c'");
    assert_eq!(shell_escape("it's"), "'it'\\''s'");
}

#[test]
fn remote_commands() {
    assert_eq!(du_command("/var/log"), "du -sb '/var/log'");
    assert_eq!(sudo_cat_command("/etc/shadow"), "sudo cat '/etc/shadow'");
    assert_eq!(sudo_ls_command("/root"), "LC_ALL=C sudo ls -la '/root'");
    assert_eq!(find_command("/home/u", "it's"), "find '/home/u' -name '*it'\\''s*' 2>/dev/null");
}

#[test]
fn error_messages() {
    assert_eq!(SshError::Timeout.message(), "Operation timed out");
    assert_eq!(SshError::ConnectionLost.message(), "Connection lost");
    assert_eq!(SshError::PermissionDenied("/x".to_string()).message(), "Permission denied: /x");
    assert_eq!(SshError::ConnectionFailed("boom".to_string()).message(), "Connection failed: boom");
    assert_eq!(SshError::AuthenticationFailed("key".to_string()).message(), "Authentication failed: key");
    assert_eq!(SshError::IoError("eof".to_string()).message(), "I/O error: eof");
}

#[test]
fn io_errors_map_to_timeout_or_io() {
    assert!(matches!(SshError::from_io(true, "t".to_string()), SshError::Timeout));
    match SshError::from_io(false, "reset".to_string()) {
        SshError::IoError(m) => assert_eq!(m, "reset"),
        other => panic!("unexpected {:?}", other),
    }
}

#[test]
fn sftp_errors_are_classified() {
    assert!(matches!(
        map_sftp_error(ErrorCode::Session(-9), "timed out", "[Session(-9)] timed out".to_string(), "/p"),
        SshError::Timeout
    ));
    match map_sftp_error(ErrorCode::Sftp(3), "no", "[SFTP(3)] no".to_string(), "/p") {
        SshError::PermissionDenied(p) => assert_eq!(p, "/p"),
        other => panic!("unexpected {:?}", other),
    }
    match map_sftp_error(ErrorCode::Sftp(4), "Permission problem", "x".to_string(), "/q") {
        SshError::PermissionDenied(p) => assert_eq!(p, "/q"),
        other => panic!("unexpected {:?}", other),
    }
    match map_sftp_error(ErrorCode::Sftp(2), "no such file", "[SFTP(2)] no such file".to_string(), "/q") {
        SshError::ConnectionFailed(m) => assert_eq!(m, "[SFTP(2)] no such file"),
        other => panic!("unexpected {:?}", other),
    }
}

#[test]
fn stat_entries() {
    let e = entry_from_stat("/var/log/syslog", Some(StatInfo { is_dir: false, is_symlink: false, size: Some(77) }));
    assert_eq!(e.name, "syslog");
    assert_eq!(e.path, "/var/log/syslog");
    assert_eq!(e.entry_type, EntryType::File);
    assert_eq!(e.size, 77);
    let d = entry_from_stat("/var/log", Some(StatInfo { is_dir: true, is_symlink: true, size: None }));
    assert_eq!(d.entry_type, EntryType::Directory);
    assert_eq!(d.size, 0);
    let l = entry_from_stat("/a/l", Some(StatInfo { is_dir: false, is_symlink: true, size: Some(5) }));
    assert_eq!(l.entry_type, EntryType::Symlink);
    let u = entry_from_stat("/a/u", None);
    assert_eq!(u.entry_type, EntryType::File);
    assert_eq!(u.size, 0);
    assert_eq!(entry_from_stat("/", None).name, "");
}

#[test]
fn find_output_lines() {
    let out = "/home/u/app.log\n  /home/u/logs/app.log.1  \n\n/\n/home/u/x/..\n";
    assert_eq!(find_output_paths(out), vec!["/home/u/app.log".to_string(), "/home/u/logs/app.log.1".to_string()]);
    assert!(find_output_paths("").is_empty());
}

#[test]
fn sudo_cat_outcomes() {
    assert_eq!(sudo_cat_result(10, "", 0, "/f").unwrap(), 10);
    match sudo_cat_result(10, "sudo: a password is required\n", 1, "/f") {
        Err(SshError::PermissionDenied(p)) => assert_eq!(p, "/f"),
        other => panic!("unexpected {:?}", other),
    }
    match sudo_cat_result(0, "cat: /f: No such file", -1, "/f") {
        Err(SshError::ConnectionFailed(m)) => assert_eq!(m, "sudo cat command failed with exit status -1"),
        other => panic!("unexpected {:?}", other),
    }
}

#[test]
fn sudo_ls_outcomes() {
    let ok = sudo_ls_result("-rw-r--r-- 1 root root 3 Jan  1 00:00 f\n", "", 0, "/root").unwrap();
    assert_eq!(ok.len(), 1);
    assert_eq!(ok[0].path, "/root/f");
    match sudo_ls_result("", "sudo: no tty present", 1, "/root") {
        Err(SshError::PermissionDenied(p)) => assert_eq!(p, "/root"),
        other => panic!("unexpected {:?}", other),
    }
    match sudo_ls_result("", "  ls: cannot access  \n", 2, "/root") {
        Err(SshError::ConnectionFailed(m)) => assert_eq!(m, "sudo ls -la exited with status 2: ls: cannot access"),
        other => panic!("unexpected {:?}", other),
    }
}

#[test]
fn sudo_retry_only_for_refusal_with_sudo_on() {
    let refused = SshError::PermissionDenied("/root".to_string());
    assert!(retry_with_sudo(&refused, true));
    assert!(!retry_with_sudo(&refused, false));
    assert!(!retry_with_sudo(&SshError::Timeout, true));
    assert!(!retry_with_sudo(&SshError::ConnectionLost, true));
    assert!(!retry_with_sudo(&SshError::IoError("x".to_string()), true));
}
