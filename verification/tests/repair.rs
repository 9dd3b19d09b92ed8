use mgit::repair::{
    check_and_fix_refs, collect_complaints, is_fetch_head_corrupted, is_fsck_complaint,
    is_ref_corrupted, is_valid_ref_content, repair_repository, split_lines, CheckerOutput,
    FileRead, RefFile, RepairError, RepairResult, RepoSnapshot,
};

fn text(s: &str) -> FileRead {
    FileRead::Text(s.to_string())
}

fn ref_file(path: &str, read: FileRead) -> RefFile {
    RefFile { path: path.to_string(), read }
}

const SHA1: &str = "0123456789abcdefABCDEF0123456789abcdef01";

fn snapshot() -> RepoSnapshot {
    RepoSnapshot {
        has_git_dir: true,
        fetch_head: Some(text("")),
        refs: vec![
            ref_file(".git/refs/heads/main", text(&format!("{}\n", SHA1))),
            ref_file(".git/refs/heads/broken", text("garbage")),
            ref_file(".git/refs/remotes/origin/HEAD", text("ref: refs/remotes/origin/main\n")),
            ref_file(".git/refs/tags/v1", FileRead::Unreadable),
        ],
        checker: Some(CheckerOutput {
            stderr: "error: bad object\nwarning: something\r\nfatal: stop".to_string(),
            stdout: "dangling commit 1\nsome error: here\n".to_string(),
        }),
    }
}

fn apply(snapshot: &RepoSnapshot, result: &RepairResult) -> RepoSnapshot {
    RepoSnapshot {
        has_git_dir: snapshot.has_git_dir,
        fetch_head: if result.fixed_fetch_head { None } else { snapshot.fetch_head.clone() },
        refs: snapshot
            .refs
            .iter()
            .filter(|r| !result.removed_corrupted_refs.contains(&r.path))
            .cloned()
            .collect(),
        checker: snapshot.checker.clone(),
    }
}

#[test]
fn valid_reference_contents() {
    assert!(is_valid_ref_content(SHA1));
    assert!(is_valid_ref_content(&"a".repeat(64)));
    assert!(is_valid_ref_content("ref: refs/heads/main"));
    assert!(is_valid_ref_content("ref:"));
    assert!(!is_valid_ref_content(""));
    assert!(!is_valid_ref_content(&"a".repeat(39)));
    assert!(!is_valid_ref_content(&"a".repeat(41)));
    assert!(!is_valid_ref_content(&"a".repeat(63)));
    assert!(!is_valid_ref_content(&"a".repeat(65)));
    assert!(!is_valid_ref_content(&format!("{}g", "a".repeat(39))));
    assert!(!is_valid_ref_content(&format!("{}é", "a".repeat(39))));
    assert!(!is_valid_ref_content(&format!("{}é", "a".repeat(38))));
    assert!(!is_valid_ref_content("Ref: refs/heads/main"));
    assert!(!is_valid_ref_content(" ref: refs/heads/main"));
}

#[test]
fn reference_files_are_trimmed_before_the_check() {
    assert!(!is_ref_corrupted(&text(&format!("  {}\r\n\t", SHA1))));
    assert!(!is_ref_corrupted(&text("\nref: refs/heads/x\n")));
    assert!(is_ref_corrupted(&text("   \n")));
    assert!(is_ref_corrupted(&text("")));
    assert!(is_ref_corrupted(&FileRead::Unreadable));
    assert!(is_ref_corrupted(&text(&format!("{} {}", SHA1, SHA1))));
}

#[test]
fn fetch_marker_damage() {
    assert!(is_fetch_head_corrupted(&FileRead::Unreadable));
    assert!(is_fetch_head_corrupted(&text("")));
    assert!(is_fetch_head_corrupted(&text("abc\0def")));
    assert!(is_fetch_head_corrupted(&text("\0")));
    assert!(!is_fetch_head_corrupted(&text("abc")));
    assert!(!is_fetch_head_corrupted(&text(" ")));
}

#[test]
fn lines_are_split_like_text_lines() {
    for sample in [
        "",
        "\n",
        "a",
        "a\n",
        "a\nb",
        "a\r\nb\r\n",
        "a\r",
        "a\r\n\r\n",
        "\r\n",
        "\n\n",
        "x\ry\nz",
        "é→\nü",
    ] {
        let expected: Vec<String> = sample.lines().map(|l| l.to_string()).collect();
        assert_eq!(split_lines(sample), expected, "for {:?}", sample);
    }
}

#[test]
fn complaints_hold_error_or_fatal() {
    assert!(is_fsck_complaint("error: x"));
    assert!(is_fsck_complaint("a fatal: b"));
    assert!(is_fsck_complaint("xerror:"));
    assert!(!is_fsck_complaint("error :"));
    assert!(!is_fsck_complaint("Error: x"));
    assert!(!is_fsck_complaint("warning: x"));
    assert!(!is_fsck_complaint(""));
    let mut found = vec!["kept".to_string()];
    collect_complaints(&mut found, "ok\nerror: one\r\nfine\nfatal: two");
    assert_eq!(found, vec!["kept", "error: one", "fatal: two"]);
}

#[test]
fn repair_finds_what_is_damaged() {
    let result = repair_repository(&snapshot()).unwrap();
    assert!(result.fixed_fetch_head);
    assert_eq!(
        result.removed_corrupted_refs,
        vec![".git/refs/heads/broken".to_string(), ".git/refs/tags/v1".to_string()]
    );
    assert_eq!(
        result.fsck_errors,
        vec!["error: bad object".to_string(), "fatal: stop".to_string(), "some error: here".to_string()]
    );
    assert!(result.needs_attention);
    assert!(result.has_fixes());
    assert_eq!(check_and_fix_refs(&snapshot().refs), result.removed_corrupted_refs);
}

#[test]
fn repair_twice_on_a_clean_repository_reports_no_fixes() {
    let clean = RepoSnapshot {
        has_git_dir: true,
        fetch_head: Some(text("abc\n")),
        refs: vec![ref_file(".git/refs/heads/main", text(SHA1))],
        checker: None,
    };
    let first = repair_repository(&clean).unwrap();
    assert!(!first.has_fixes());
    assert!(!first.needs_attention);
    assert!(first.fsck_errors.is_empty());
    let second = repair_repository(&apply(&clean, &first)).unwrap();
    assert!(!second.has_fixes());
}

#[test]
fn second_repair_after_fixes_reports_none() {
    let damaged = snapshot();
    let first = repair_repository(&damaged).unwrap();
    assert!(first.has_fixes());
    let second = repair_repository(&apply(&damaged, &first)).unwrap();
    assert!(!second.has_fixes());
    assert!(!second.fixed_fetch_head);
    assert!(second.removed_corrupted_refs.is_empty());
    // what the checker reports is not repaired
    assert!(second.needs_attention);
}

#[test]
fn missing_marker_needs_no_fix() {
    let mut s = snapshot();
    s.fetch_head = None;
    s.refs.clear();
    s.checker = None;
    let result = repair_repository(&s).unwrap();
    assert!(!result.fixed_fetch_head);
    assert!(!result.has_fixes());
}

#[test]
fn only_a_missing_repository_is_an_error() {
    let mut s = snapshot();
    s.has_git_dir = false;
    assert_eq!(repair_repository(&s).unwrap_err(), RepairError::NotARepository);
}
