use kodex::ingest::{char_count_exec, commit_log_cuttable_exec, commit_proposals, readme_cuttable_exec, readme_proposal_exec};

#[test]
fn commits_become_proposals() {
    let log = "abc1234 Fix crash when parsing empty files\nabc1235 wip stuff that is long enough\nabc1236 Refactor the storage layer a bit\nshort\nabc1234 Fix crash when parsing empty files\n";
    assert!(commit_log_cuttable_exec(log));
    let existing = vec!["commit:abc1236".to_string()];
    let ps = commit_proposals(log, "proj", &existing);
    assert_eq!(ps.len(), 1);
    assert_eq!(ps[0].title, "Fix crash when parsing empty files");
    assert_eq!(ps[0].knowledge_type, "bug_pattern");
    assert_eq!(ps[0].description, "From git commit abc1234 in proj");
    assert_eq!(ps[0].tags, vec!["commit:abc1234".to_string(), "project:proj".to_string(), "git-commit".to_string()]);
    let ps = commit_proposals(log, "proj", &vec![]);
    assert_eq!(ps.len(), 2);
    assert_eq!(ps[1].knowledge_type, "decision");
}

#[test]
fn commit_lines_cut_at_bytes() {
    assert!(!commit_log_cuttable_exec("abcdefé more text here\n"));
    assert!(commit_log_cuttable_exec("a€defg h more text\n"));
    assert_eq!(char_count_exec(&['a', '€', 'd'], 4), Some(2));
    assert_eq!(char_count_exec(&['a', '€', 'd'], 3), None);
    assert_eq!(char_count_exec(&['a'], 2), None);
}

#[test]
fn readme_overview() {
    let content = "# Title\n\nThis project does things and more things for everyone.\nSecond line.\n\nOther para\n";
    assert!(readme_cuttable_exec(content, "proj", &vec![]));
    let p = readme_proposal_exec(content, "proj", &vec![]).unwrap();
    assert_eq!(p.title, "proj project overview");
    assert_eq!(p.knowledge_type, "architecture");
    assert_eq!(p.description, "This project does things and more things for everyone. Second line.");
    assert_eq!(p.tags, vec!["readme:proj".to_string(), "project:proj".to_string(), "readme".to_string()]);
    assert!(readme_proposal_exec(content, "proj", &vec!["readme:proj".to_string()]).is_none());
    assert!(readme_proposal_exec("# short", "proj", &vec![]).is_none());
    let tiny = "# A heading that is long enough to pass fifty bytes\n\nshort\n";
    assert!(readme_proposal_exec(tiny, "proj", &vec![]).is_none());
}

#[test]
fn long_readme_is_cut() {
    let body = "x".repeat(600);
    let content = format!("# T\n{body}\n");
    let p = readme_proposal_exec(&content, "p", &vec![]).unwrap();
    assert_eq!(p.description, format!("{}...", "x".repeat(500)));
    let bad = format!("# T\na{}\n", "é".repeat(300));
    assert!(!readme_cuttable_exec(&bad, "p", &vec![]));
}
