use ihistory::history::HistoryEntry;
use ihistory::search::{
    can_align, score_match, SearchEngine, CELL_BYTES, MAX_CHOICE, MAX_PATTERN, PREFIX_BONUS,
};

fn make_entry(cmd: &str) -> HistoryEntry {
    HistoryEntry { command: cmd.to_string(), timestamp: None, raw_line: None }
}

fn make_entries(commands: &[&str]) -> Vec<HistoryEntry> {
    commands.iter().map(|&cmd| make_entry(cmd)).collect()
}

fn commands_of(results: &[ihistory::search::SearchResult]) -> Vec<String> {
    results.iter().map(|r| r.entry.command.clone()).collect()
}

#[test]
fn test_empty_query_returns_all() {
    let engine = SearchEngine::new();
    let entries = make_entries(&["git status", "ls -la", "cd ~"]);
    let results = engine.search(&entries, "");
    assert_eq!(results.len(), 3);
}

#[test]
fn test_fuzzy_match() {
    let engine = SearchEngine::new();
    let entries = make_entries(&["git commit -m 'test'", "git push", "ls -la"]);
    let results = engine.search(&entries, "gco");
    assert!(!results.is_empty());
    assert!(results[0].entry.command.contains("commit"));
}

#[test]
fn test_case_insensitive() {
    let engine = SearchEngine::new();
    let entries = make_entries(&["Git Status", "git push"]);
    let results = engine.search(&entries, "GIT");
    assert_eq!(results.len(), 2);
}

#[test]
fn test_no_match() {
    let engine = SearchEngine::new();
    let entries = make_entries(&["git status", "ls -la"]);
    let results = engine.search(&entries, "xyz123");
    assert!(results.is_empty());
}

#[test]
fn test_substring_match() {
    let engine = SearchEngine::new();
    let entries = make_entries(&["vim config.local.yaml", "ls -la"]);
    let results = engine.search(&entries, "local");
    assert_eq!(results.len(), 1);
    assert!(results[0].entry.command.contains("local"));
}

#[test]
fn empty_query_keeps_order_and_has_no_indices() {
    let engine = SearchEngine::new();
    let entries = make_entries(&["git status", "ls -la", "cd ~"]);
    let results = engine.search(&entries, "");
    assert_eq!(commands_of(&results), vec!["git status", "ls -la", "cd ~"]);
    for result in &results {
        assert!(result.indices.is_empty());
        assert_eq!(result.score, 0);
    }
}

#[test]
fn git_entries_rank_above_ls_for_gst() {
    let engine = SearchEngine::new();
    let entries = make_entries(&["git status", "git stash", "ls"]);
    let results = engine.search(&entries, "gst");
    let commands = commands_of(&results);
    assert!(commands.contains(&"git status".to_string()));
    assert!(commands.contains(&"git stash".to_string()));
    let position = |wanted: &str| commands.iter().position(|c| c == wanted);
    if let Some(ls) = position("ls") {
        assert!(position("git status").unwrap() < ls);
        assert!(position("git stash").unwrap() < ls);
    }
}

#[test]
fn prefix_match_outranks_better_fuzzy_match() {
    let engine = SearchEngine::new();
    // The second command aligns more densely at word starts, but only the
    // last one begins with the query.
    let entries = make_entries(&["echo make", "x/make-all/make", "make test"]);
    let results = engine.search(&entries, "make");
    assert_eq!(results.len(), 3);
    assert_eq!(results[0].entry.command, "make test");
    assert!(results[0].score >= PREFIX_BONUS + (i32::MIN as i64));
    assert!(results[1].score <= i32::MAX as i64);
    assert!(results[2].score <= i32::MAX as i64);
}

#[test]
fn prefix_bonus_is_added_to_the_alignment_score() {
    let engine = SearchEngine::new();
    let with_prefix = engine.search(&make_entries(&["git push"]), "git");
    let without = engine.search(&make_entries(&["a git push"]), "git");
    assert_eq!(with_prefix.len(), 1);
    assert_eq!(without.len(), 1);
    assert!(with_prefix[0].score > PREFIX_BONUS / 2);
    assert!(without[0].score < PREFIX_BONUS / 2);
    assert_eq!(with_prefix[0].indices, vec![0, 1, 2]);
    assert_eq!(without[0].indices, vec![2, 3, 4]);
}

#[test]
fn results_are_in_descending_order_of_score() {
    let engine = SearchEngine::new();
    let entries = make_entries(&[
        "cargo build",
        "cd build",
        "make build-all",
        "b",
        "rebuild things",
        "build",
    ]);
    let results = engine.search(&entries, "build");
    assert!(results.len() >= 5);
    for pair in results.windows(2) {
        assert!(pair[0].score >= pair[1].score);
    }
    assert_eq!(results[0].entry.command, "build");
}

#[test]
fn equal_scores_keep_the_order_of_the_entries() {
    let engine = SearchEngine::new();
    let entries = make_entries(&["ls -la", "ls -la", "ls -la"]);
    let mut entries = entries;
    entries[0].timestamp = Some(1);
    entries[1].timestamp = Some(2);
    entries[2].timestamp = Some(3);
    let results = engine.search(&entries, "ls");
    let stamps: Vec<Option<i64>> = results.iter().map(|r| r.entry.timestamp).collect();
    assert_eq!(stamps, vec![Some(1), Some(2), Some(3)]);
}

#[test]
fn substring_only_match_has_score_zero_and_no_indices() {
    let engine = SearchEngine::new();
    // Lowercasing turns the Kelvin sign into `k`; the matcher compares ASCII
    // case only and finds no alignment.
    let entries = make_entries(&["echo \u{212A}elvin"]);
    let results = engine.search(&entries, "kelvin");
    assert_eq!(results.len(), 1);
    assert_eq!(results[0].score, 0);
    assert!(results[0].indices.is_empty());
}

#[test]
fn default_engine_searches_like_a_new_one() {
    let engine = SearchEngine::default();
    let entries = make_entries(&["git status", "ls -la"]);
    let results = engine.search(&entries, "git");
    assert_eq!(commands_of(&results), vec!["git status"]);
}

#[test]
fn scoring_from_what_the_matcher_found() {
    let entry = make_entry("git push");
    let aligned = score_match(&entry, Some((42, vec![0, 1])), false, false).unwrap();
    assert_eq!((aligned.score, aligned.indices.clone()), (42, vec![0, 1]));
    assert_eq!(aligned.entry.command, "git push");
    let boosted = score_match(&entry, Some((42, vec![0, 1])), true, true).unwrap();
    assert_eq!(boosted.score, 42 + PREFIX_BONUS);
    let substring = score_match(&entry, None, true, false).unwrap();
    assert_eq!((substring.score, substring.indices.len()), (0, 0));
    let prefix_only = score_match(&entry, None, true, true).unwrap();
    assert_eq!(prefix_only.score, PREFIX_BONUS);
    assert!(score_match(&entry, None, false, false).is_none());
    assert!(score_match(&entry, None, false, true).is_none());
    let negative = score_match(&entry, Some((-7, vec![3])), false, true).unwrap();
    assert_eq!(negative.score, PREFIX_BONUS - 7);
    let held = score_match(&entry, Some((i64::MAX, Vec::new())), false, true).unwrap();
    assert_eq!(held.score, i64::MAX);
    assert_eq!(PREFIX_BONUS, 4_294_967_296);
}

#[test]
fn matcher_takes_what_its_arithmetic_can() {
    assert!(can_align(0, 0));
    assert!(can_align(10, 3));
    assert!(can_align(100_000, 64));
    assert!(can_align(1_000_000, 10));
    assert!(!can_align(0, MAX_PATTERN as usize + 1));
    assert!(!can_align(MAX_CHOICE as usize + 1, 0));
    let lengths: [usize; 7] =
        [0, 1, 4_095, 65_536, 1 << 20, MAX_PATTERN as usize, MAX_CHOICE as usize];
    for &choice in &lengths {
        for &pattern in &lengths {
            let bytes = (choice as u128 + 1) * (pattern as u128 + 1) * (CELL_BYTES as u128);
            let expected = pattern as u64 <= MAX_PATTERN
                && choice as u64 <= MAX_CHOICE
                && bytes <= isize::MAX as u128;
            assert_eq!(can_align(choice, pattern), expected, "{} {}", choice, pattern);
        }
    }
}

#[test]
fn long_command_is_aligned() {
    let engine = SearchEngine::new();
    let mut long = String::from("echo ");
    while long.chars().count() <= 70_000 {
        long.push_str("abcdefgh ");
    }
    let entries = vec![make_entry(&long), make_entry("ls")];
    // The query is a subsequence of the command, and no substring of it.
    let results = engine.search(&entries, "eabc");
    assert_eq!(commands_of(&results), vec![long.clone()]);
    assert_eq!(results[0].indices.len(), 4);
    assert!(results[0].indices.windows(2).all(|pair| pair[0] < pair[1]));
    assert!(results[0].indices.iter().all(|&at| at < long.chars().count()));
    assert!(results[0].score <= i32::MAX as i64);
    let results = engine.search(&entries, "ECHO");
    assert_eq!(commands_of(&results), vec![long.clone()]);
    assert_eq!(results[0].indices, vec![0, 1, 2, 3]);
    assert!(results[0].score > PREFIX_BONUS);
}

#[test]
fn alignment_does_not_depend_on_earlier_ones() {
    let engine = SearchEngine::new();
    let alone = engine.search(&make_entries(&["lxll"]), "ll");
    assert_eq!(alone.len(), 1);
    assert_eq!(alone[0].score, 43);
    assert_eq!(alone[0].indices, vec![0, 2]);
    let after = engine.search(&make_entries(&["ls -la /tmp/", "lxll"]), "ll");
    let again = after.iter().find(|r| r.entry.command == "lxll").unwrap();
    assert_eq!(again.score, alone[0].score);
    assert_eq!(again.indices, alone[0].indices);
    let once_more = engine.search(&make_entries(&["lxll"]), "ll");
    assert_eq!(once_more[0].score, alone[0].score);
    assert_eq!(once_more[0].indices, alone[0].indices);
}

#[test]
fn positions_are_rising_offsets_into_the_command() {
    let engine = SearchEngine::new();
    let entries = make_entries(&["git commit --amend", "cargo test", "gcc main.c -o main"]);
    for query in ["gc", "cm", "mn", "t"] {
        for result in engine.search(&entries, query) {
            let length = result.entry.command.chars().count();
            assert!(result.indices.windows(2).all(|pair| pair[0] < pair[1]));
            assert!(result.indices.iter().all(|&at| at < length));
        }
    }
}

#[test]
fn prefix_is_told_with_case_ignored() {
    let engine = SearchEngine::new();
    let entries = make_entries(&["legit", "Git Status"]);
    let results = engine.search(&entries, "gIT");
    assert_eq!(commands_of(&results), vec!["Git Status".to_string(), "legit".to_string()]);
    assert!(results[0].score >= PREFIX_BONUS + (i32::MIN as i64));
    assert!(results[1].score <= i32::MAX as i64);
}

#[test]
fn entry_is_found_as_subsequence_or_substring() {
    let engine = SearchEngine::new();
    let entries = make_entries(&["a-b-c", "cba", "ABC", "ab", "xaxbxcx", "bca"]);
    let results = engine.search(&entries, "abc");
    let mut found = commands_of(&results);
    found.sort();
    assert_eq!(found, vec!["ABC".to_string(), "a-b-c".to_string(), "xaxbxcx".to_string()]);
    let results = engine.search(&entries, "aBc");
    assert_eq!(results.len(), 3);
}
