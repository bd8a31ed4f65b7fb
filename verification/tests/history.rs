use ihistory::history::{
    assemble_records, decode_record, delete_entry, detect_history_file, encode_record,
    history_from_lines, is_blocked, is_self_command, is_zsh_format, load_blocklist, load_history,
    parse_bash_line, parse_zsh_line, promote_all, read_lines, remove_command, HistoryEntry,
    HistoryFile,
};

fn commands(entries: &[HistoryEntry]) -> Vec<String> {
    entries.iter().map(|e| e.command.clone()).collect()
}

fn no_blocklist() -> Vec<String> {
    Vec::new()
}

#[test]
fn test_parse_zsh_line_extended() {
    let line = ": 1706500000:0;git status";
    let parsed = parse_zsh_line(line).expect("valid zsh extended format should parse");
    assert_eq!(parsed.command, "git status");
    assert_eq!(parsed.timestamp, Some(1706500000));
}

#[test]
fn test_parse_zsh_line_plain() {
    let line = "ls -la";
    let parsed = parse_zsh_line(line).expect("plain command should parse");
    assert_eq!(parsed.command, "ls -la");
    assert_eq!(parsed.timestamp, None);
}

#[test]
fn test_parse_bash_line() {
    let line = "  cd ~/projects  ";
    assert_eq!(parse_bash_line(line), Some("cd ~/projects".to_string()));
}

#[test]
fn test_parse_empty_line() {
    assert_eq!(parse_bash_line(""), None);
    assert_eq!(parse_bash_line("   "), None);
}

#[test]
fn repeated_command_stands_where_it_was_last_used() {
    let log = b": 100:0;git status\n: 200:0;git push\n: 100:0;git status";
    let entries = load_history(log, true, &no_blocklist(), 0);
    assert_eq!(commands(&entries), vec!["git status", "git push"]);
    assert_eq!(entries[0].timestamp, Some(100));
    assert_eq!(entries[1].timestamp, Some(200));
}

#[test]
fn canonical_order_is_most_recent_first() {
    let log = b": 100:0;git status\n: 200:0;git push\n";
    let entries = load_history(log, true, &no_blocklist(), 0);
    assert_eq!(commands(&entries), vec!["git push", "git status"]);
    assert_eq!(entries[0].timestamp, Some(200));
    assert_eq!(entries[1].timestamp, Some(100));
    assert_eq!(entries[0].raw_line, Some(": 200:0;git push".to_string()));
}

#[test]
fn no_two_entries_share_a_command() {
    let log = b"a\nb\na\nc\nb\na\n";
    let entries = load_history(log, false, &no_blocklist(), 0);
    assert_eq!(commands(&entries), vec!["a", "b", "c"]);
}

#[test]
fn position_follows_last_occurrence_not_timestamp() {
    let log = b": 900:0;new stamp\n: 100:0;old stamp\n";
    let entries = load_history(log, true, &no_blocklist(), 0);
    assert_eq!(commands(&entries), vec!["old stamp", "new stamp"]);
    assert_eq!(entries[0].timestamp, Some(100));
}

#[test]
fn loading_twice_gives_the_same_history() {
    let log = b": 1:0;ls\n: 2:0;cd\n: 3:0;ls\nplain\n";
    let blocklist = vec!["cd".to_string()];
    let first = load_history(log, true, &blocklist, 0);
    let second = load_history(log, true, &blocklist, 0);
    assert_eq!(commands(&first), commands(&second));
    assert_eq!(commands(&first), vec!["plain", "ls"]);
    for (a, b) in first.iter().zip(second.iter()) {
        assert_eq!(a.timestamp, b.timestamp);
        assert_eq!(a.raw_line, b.raw_line);
    }
}

#[test]
fn continuation_joins_lines_with_a_line_break() {
    let log = b": 50:0;echo one \\\necho two\n: 60:0;ls\n";
    let entries = load_history(log, true, &no_blocklist(), 0);
    assert_eq!(commands(&entries), vec!["ls", "echo one \\\necho two"]);
    assert_eq!(entries[1].timestamp, Some(50));
    assert_eq!(entries[1].raw_line, Some(": 50:0;echo one \\\necho two".to_string()));
}

#[test]
fn multi_line_command_survives_the_deletion_log() {
    let log = b": 50:0;echo one \\\necho two\n: 60:0;ls\n";
    let entries = load_history(log, true, &no_blocklist(), 0);
    let record = delete_entry(&entries[1]);
    assert_eq!(record, "echo one \\\0echo two");
    assert!(!record.contains('\n'));
    let blocklist = load_blocklist(&vec![record]);
    assert_eq!(blocklist, vec!["echo one \\\necho two".to_string()]);
    let reloaded = load_history(log, true, &blocklist, 0);
    assert_eq!(commands(&reloaded), vec!["ls"]);
}

#[test]
fn record_round_trip() {
    assert_eq!(encode_record("a\nb\nc"), "a\0b\0c");
    assert_eq!(decode_record("a\0b\0c"), "a\nb\nc");
    assert_eq!(decode_record(&encode_record("plain")), "plain");
    assert_eq!(encode_record(""), "");
}

#[test]
fn open_continuation_at_end_is_dropped() {
    let log = b"ls\necho \\";
    let entries = load_history(log, true, &no_blocklist(), 0);
    assert_eq!(commands(&entries), vec!["ls"]);
}

#[test]
fn continuation_runs_until_a_line_without_marker() {
    let log = b"a \\\nb \\\nc\nd\n";
    let entries = load_history(log, true, &no_blocklist(), 0);
    assert_eq!(commands(&entries), vec!["d", "a \\\nb \\\nc"]);
}

#[test]
fn self_commands_are_dropped() {
    let log = b"ih\nihistory\nih foo\nihistory --init zsh\nihx\nls\n";
    let entries = load_history(log, false, &no_blocklist(), 0);
    assert_eq!(commands(&entries), vec!["ls", "ihx"]);
    assert!(is_self_command("ih"));
    assert!(is_self_command("ihistory"));
    assert!(is_self_command("ih "));
    assert!(is_self_command("ihistory x"));
    assert!(!is_self_command("ihx"));
    assert!(!is_self_command(" ih"));
    assert!(!is_self_command("i"));
    assert!(!is_self_command(""));
}

#[test]
fn blocklist_drops_exact_matches_only() {
    let log = b"rm -rf /\nrm -rf /tmp\nls\n";
    let blocklist = vec!["rm -rf /".to_string()];
    let entries = load_history(log, false, &blocklist, 0);
    assert_eq!(commands(&entries), vec!["ls", "rm -rf /tmp"]);
    assert!(is_blocked(&blocklist, &"rm -rf /".to_string()));
    assert!(!is_blocked(&blocklist, &"rm -rf".to_string()));
}

#[test]
fn limit_keeps_the_most_recent() {
    let log = b"a\nb\nc\nd\n";
    assert_eq!(commands(&load_history(log, false, &no_blocklist(), 2)), vec!["d", "c"]);
    assert_eq!(commands(&load_history(log, false, &no_blocklist(), 0)), vec!["d", "c", "b", "a"]);
    assert_eq!(commands(&load_history(log, false, &no_blocklist(), 9)), vec!["d", "c", "b", "a"]);
    let blocklist = vec!["d".to_string()];
    assert_eq!(commands(&load_history(log, false, &blocklist, 2)), vec!["c", "b"]);
}

#[test]
fn plain_lines_are_trimmed_and_blank_lines_dropped() {
    let log = b"  ls  \n\n   \n\tcd\t\n";
    let entries = load_history(log, false, &no_blocklist(), 0);
    assert_eq!(commands(&entries), vec!["cd", "ls"]);
    assert_eq!(entries[1].raw_line, Some("  ls  ".to_string()));
    assert_eq!(entries[1].timestamp, None);
    assert_eq!(parse_bash_line("\u{3000}x\u{a0}"), Some("x".to_string()));
}

#[test]
fn empty_log_has_no_entries() {
    assert!(load_history(b"", true, &no_blocklist(), 0).is_empty());
    assert!(load_history(b"", false, &no_blocklist(), 0).is_empty());
    assert!(load_history(b"\n\n", true, &no_blocklist(), 0).is_empty());
}

#[test]
fn invalid_utf8_is_replaced() {
    let log = b"ab\xffcd\nls\n";
    let entries = load_history(log, false, &no_blocklist(), 0);
    assert_eq!(commands(&entries), vec!["ls", "ab\u{fffd}cd"]);
}

#[test]
fn read_lines_splits_on_line_ends() {
    assert_eq!(read_lines(b"a\nb"), vec!["a", "b"]);
    assert_eq!(read_lines(b"a\nb\n"), vec!["a", "b", ""]);
    assert_eq!(read_lines(b""), vec![""]);
    assert_eq!(read_lines(b"\n"), vec!["", ""]);
    assert_eq!(read_lines("h\u{e9}\n".as_bytes()), vec!["h\u{e9}", ""]);
}

#[test]
fn zsh_line_forms() {
    assert!(parse_zsh_line("").is_none());
    assert!(parse_zsh_line(": ").is_none());
    assert!(parse_zsh_line(": 1:0;").is_none());
    let no_semi = parse_zsh_line(": abc").unwrap();
    assert_eq!(no_semi.command, "abc");
    assert_eq!(no_semi.timestamp, None);
    assert_eq!(no_semi.raw_line, ": abc");
    let bad_epoch = parse_zsh_line(": x:0;ls").unwrap();
    assert_eq!(bad_epoch.command, "ls");
    assert_eq!(bad_epoch.timestamp, None);
    let no_duration = parse_zsh_line(": 77;ls;pwd").unwrap();
    assert_eq!(no_duration.command, "ls;pwd");
    assert_eq!(no_duration.timestamp, Some(77));
    let colon_only = parse_zsh_line(":x").unwrap();
    assert_eq!(colon_only.command, ":x");
}

#[test]
fn epoch_is_read_as_i64() {
    let stamp = |line: &str| parse_zsh_line(line).unwrap().timestamp;
    assert_eq!(stamp(": 9223372036854775807:0;x"), Some(i64::MAX));
    assert_eq!(stamp(": 9223372036854775808:0;x"), None);
    assert_eq!(stamp(": -9223372036854775808:0;x"), Some(i64::MIN));
    assert_eq!(stamp(": -9223372036854775809:0;x"), None);
    assert_eq!(stamp(": +5:0;x"), Some(5));
    assert_eq!(stamp(": -5:0;x"), Some(-5));
    assert_eq!(stamp(": 0007:0;x"), Some(7));
    assert_eq!(stamp(": :0;x"), None);
    assert_eq!(stamp(": -:0;x"), None);
    assert_eq!(stamp(": 1 :0;x"), None);
    assert_eq!(stamp(": 00000000000000000000000000000012:0;x"), Some(12));
    assert_eq!(stamp(": 99999999999999999999x:0;x"), None);
}

#[test]
fn promotion_moves_a_repeated_command_to_the_end() {
    let lines: Vec<String> = vec!["a", "b", "a"].into_iter().map(String::from).collect();
    let records = assemble_records(&lines, false);
    assert_eq!(commands(&records), vec!["a", "b", "a"]);
    let order = promote_all(&records);
    assert_eq!(commands(&order), vec!["b", "a"]);
    let mut order = order;
    remove_command(&mut order, &"b".to_string());
    assert_eq!(commands(&order), vec!["a"]);
}

#[test]
fn zsh_format_is_told_by_the_path() {
    assert!(is_zsh_format("/home/u/.zsh_history"));
    assert!(is_zsh_format("zsh"));
    assert!(!is_zsh_format("/home/u/.bash_history"));
    assert!(!is_zsh_format("zs"));
    assert!(!is_zsh_format(""));
}

#[test]
fn history_file_detection() {
    assert_eq!(detect_history_file(Some("/bin/zsh"), true, true), Some(HistoryFile::Zsh));
    assert_eq!(detect_history_file(Some("/bin/bash"), true, true), Some(HistoryFile::Bash));
    assert_eq!(detect_history_file(Some("/bin/bash"), true, false), Some(HistoryFile::Zsh));
    assert_eq!(detect_history_file(Some("/bin/zsh"), false, true), Some(HistoryFile::Bash));
    assert_eq!(detect_history_file(Some("/bin/fish"), true, true), Some(HistoryFile::Zsh));
    assert_eq!(detect_history_file(None, false, true), Some(HistoryFile::Bash));
    assert_eq!(detect_history_file(None, false, false), None);
    assert_eq!(HistoryFile::Zsh.file_name(), ".zsh_history");
    assert_eq!(HistoryFile::Bash.file_name(), ".bash_history");
}

#[test]
fn history_from_decoded_lines() {
    let lines: Vec<String> = [
        ": 100:0;git status",
        ": 200:0;git push",
        ": 250:0;ih git",
        ": 300:0;echo one\\",
        "two",
        ": 100:0;git status",
        "",
    ]
    .iter()
    .map(|line| line.to_string())
    .collect();
    let blocklist = vec!["git push".to_string()];
    let entries = history_from_lines(&lines, true, &blocklist, 0);
    assert_eq!(commands(&entries), vec!["git status", "echo one\\\ntwo"]);
    assert_eq!(entries[0].timestamp, Some(100));
    assert_eq!(entries[1].timestamp, Some(300));
    let entries = history_from_lines(&lines, true, &Vec::new(), 2);
    assert_eq!(commands(&entries), vec!["git status", "echo one\\\ntwo"]);
    let entries = history_from_lines(&lines, true, &Vec::new(), 0);
    assert_eq!(commands(&entries), vec!["git status", "echo one\\\ntwo", "git push"]);
    let entries = history_from_lines(&lines, false, &Vec::new(), 1);
    assert_eq!(commands(&entries), vec![": 100:0;git status"]);
}

#[test]
fn valid_utf8_lines_are_decoded_as_they_stand() {
    let content = "echo h\u{e9}llo\nls \u{4e16}\u{754c}\n".as_bytes();
    let lines = read_lines(content);
    assert_eq!(lines, vec!["echo h\u{e9}llo", "ls \u{4e16}\u{754c}", ""]);
}
