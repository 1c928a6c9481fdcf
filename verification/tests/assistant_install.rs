use kodex::install::install_assistant_config;
use kodex::schema::Json;

fn obj(fields: Vec<(&str, Json)>) -> Json {
    Json::Object(fields.into_iter().map(|(k, v)| (k.to_string(), v)).collect())
}

fn s(x: &str) -> Json {
    Json::Str(x.to_string())
}

fn get<'a>(j: &'a Json, k: &str) -> Option<&'a Json> {
    match j {
        Json::Object(fs) => fs.iter().find(|(n, _)| n == k).map(|(_, v)| v),
        _ => None,
    }
}

fn text(j: Option<&Json>) -> Option<&str> {
    match j {
        Some(Json::Str(x)) => Some(x.as_str()),
        _ => None,
    }
}

#[test]
fn install_into_empty_documents() {
    let plan = install_assistant_config(obj(vec![]), obj(vec![]), "/bin/kodex", "post");
    assert!(!plan.already_registered);
    assert!(plan.wrote_post && plan.wrote_start);
    let entry = get(get(&plan.config, "mcpServers").unwrap(), "kodex").unwrap();
    assert_eq!(text(get(entry, "type")), Some("stdio"));
    assert_eq!(text(get(entry, "command")), Some("/bin/kodex"));
    match get(entry, "args") {
        Some(Json::Array(a)) => assert_eq!(a.len(), 1),
        other => panic!("unexpected args {other:?}"),
    }
    let hooks = get(&plan.settings, "hooks").unwrap();
    match get(hooks, "SessionStart") {
        Some(Json::Array(a)) => {
            let inner = match get(&a[0], "hooks") {
                Some(Json::Array(h)) => &h[0],
                other => panic!("unexpected {other:?}"),
            };
            assert_eq!(text(get(inner, "command")), Some("/bin/kodex context --inline-top-k 3 2>/dev/null"));
        }
        other => panic!("unexpected {other:?}"),
    }
    match get(hooks, "PostToolUse") {
        Some(Json::Array(a)) => assert_eq!(text(get(&a[0], "matcher")), Some("Write")),
        other => panic!("unexpected {other:?}"),
    }
}

#[test]
fn install_keeps_what_is_there() {
    let config = obj(vec![
        ("theme", s("dark")),
        ("mcpServers", obj(vec![("other", s("x")), ("kodex", s("mine"))])),
    ]);
    let settings = obj(vec![
        ("mcpServers", obj(vec![])),
        ("model", s("m")),
        ("hooks", obj(vec![("SessionStart", s("keep"))])),
    ]);
    let plan = install_assistant_config(config, settings, "k", "post");
    assert!(plan.already_registered);
    assert!(plan.wrote_post && !plan.wrote_start);
    assert_eq!(text(get(&plan.config, "theme")), Some("dark"));
    let servers = get(&plan.config, "mcpServers").unwrap();
    assert_eq!(text(get(servers, "kodex")), Some("mine"));
    assert_eq!(text(get(servers, "other")), Some("x"));
    assert!(get(&plan.settings, "mcpServers").is_none());
    assert_eq!(text(get(&plan.settings, "model")), Some("m"));
    let hooks = get(&plan.settings, "hooks").unwrap();
    assert_eq!(text(get(hooks, "SessionStart")), Some("keep"));
    assert!(get(hooks, "PostToolUse").is_some());
}

#[test]
fn test_install_idempotent() {
    let first = install_assistant_config(obj(vec![]), obj(vec![]), "/bin/kodex", "post");
    let second = install_assistant_config(first.config, first.settings, "/bin/kodex", "post");
    // "already registered" for the server, and no hook written a second time.
    assert!(second.already_registered, "second install should be a no-op");
    assert!(!second.wrote_post && !second.wrote_start, "second install should be a no-op for hooks");
}
