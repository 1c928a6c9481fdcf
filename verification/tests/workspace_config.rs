use kodex::config::load_config;
use kodex::types::KodexError;

#[test]
fn reads_projects_output_and_vault() {
    let text = "# workspace\nprojects:\n  - ~/code/a\n  - /abs/b  \n\noutput: out-dir\nvault: ~/notes\n";
    let c = load_config(text, Some("/home/u")).unwrap();
    assert_eq!(c.projects, vec!["/home/u/code/a".to_string(), "/abs/b".to_string()]);
    assert_eq!(c.output, "out-dir");
    assert_eq!(c.vault.as_deref(), Some("/home/u/notes"));
}

#[test]
fn default_output_and_no_home() {
    let c = load_config("projects:\n- ~/x\n", None).unwrap();
    assert_eq!(c.projects, vec!["~/x".to_string()]);
    assert_eq!(c.output, "engram-workspace");
    assert!(c.vault.is_none());
}

#[test]
fn list_ends_at_other_keys() {
    let text = "projects:\n- a\nname: x\n- b\n";
    let c = load_config(text, None).unwrap();
    assert_eq!(c.projects, vec!["a".to_string()]);
    let text = "projects:\n- - a\n";
    assert_eq!(load_config(text, None).unwrap().projects, vec!["a".to_string()]);
}

#[test]
fn no_projects_is_an_error() {
    match load_config("output: o\n", None) {
        Err(KodexError::Other(m)) => assert_eq!(m, "No projects listed in workspace config"),
        other => panic!("unexpected {other:?}"),
    }
    assert!(load_config("projects:\n", None).is_err());
}
