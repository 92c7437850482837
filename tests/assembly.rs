use rehost::assembly::{
    apply_replacements, assemble, Configuration, FileDeclaration, Replacement, RequestMethod,
    STATUS_NOT_FOUND, STATUS_OK,
};
use rehost::source::{last_non_empty_segment, source_name, Location, SourceError};
use rehost::table::StringMap;

fn rep(from: &str, to: &str) -> Replacement {
    Replacement { from: from.to_string(), to: to.to_string() }
}

fn local(path: &str, rename: Option<&str>, reps: Vec<Replacement>) -> FileDeclaration {
    FileDeclaration {
        location: Location::Local { path: path.to_string() },
        rename: rename.map(|s| s.to_string()),
        replacements: reps,
    }
}

#[test]
fn replacements_compose_in_order() {
    let vars = StringMap::new();
    let reps = vec![rep("A", "X"), rep("X", "Y")];
    assert_eq!(apply_replacements("AB", &reps, &vars, None), "YB");
}

#[test]
fn replacement_target_is_expanded() {
    let mut vars = StringMap::new();
    vars.insert("v".to_string(), "1.2".to_string());
    let reps = vec![rep("VERSION", "=v{v}")];
    assert_eq!(apply_replacements("ver VERSION", &reps, &vars, None), "ver =v1.2");
}

#[test]
fn local_name_is_file_name() {
    let loc = Location::Local { path: "/srv/docs/readme.txt".to_string() };
    assert_eq!(source_name(&loc), Ok("readme.txt".to_string()));
}

#[test]
fn local_without_file_name_is_io_error() {
    assert_eq!(source_name(&Location::Local { path: "/".to_string() }), Err(SourceError::Io));
    assert_eq!(source_name(&Location::Local { path: "".to_string() }), Err(SourceError::Io));
    assert_eq!(source_name(&Location::Local { path: "a/..".to_string() }), Err(SourceError::Io));
}

#[test]
fn url_name_is_last_segment() {
    let loc = Location::External { url: "https://example.com/files/data.json".to_string() };
    assert_eq!(source_name(&loc), Ok("data.json".to_string()));
}

#[test]
fn url_name_skips_empty_segments() {
    let loc = Location::External { url: "https://example.com/files/".to_string() };
    assert_eq!(source_name(&loc), Ok("files".to_string()));
}

#[test]
fn url_without_path_is_fetch_error() {
    let loc = Location::External { url: "https://example.com".to_string() };
    assert_eq!(source_name(&loc), Err(SourceError::Fetch));
}

#[test]
fn malformed_url_is_fetch_error() {
    let loc = Location::External { url: "not a url".to_string() };
    assert_eq!(source_name(&loc), Err(SourceError::Fetch));
}

#[test]
fn last_non_empty_segment_picks_last() {
    let segs = vec!["a".to_string(), "b".to_string(), "".to_string()];
    assert_eq!(last_non_empty_segment(&segs), Some("b".to_string()));
    assert_eq!(last_non_empty_segment(&vec!["".to_string()]), None);
}

fn two_file_config() -> Configuration {
    let mut vars = StringMap::new();
    vars.insert("who".to_string(), "world".to_string());
    Configuration {
        vars,
        files: vec![
            local("/srv/readme.txt", None, vec![rep("NAME", "hi {who}")]),
            local("/srv/other.txt", Some("renamed.txt"), vec![]),
        ],
    }
}

#[test]
fn assemble_builds_store() {
    let config = two_file_config();
    let contents = vec!["say NAME".to_string(), "other".to_string()];
    let store = assemble(&config, &contents, None).unwrap();
    assert_eq!(store.get("readme.txt").map(|s| s.as_str()), Some("say hi world"));
    assert_eq!(store.get("renamed.txt").map(|s| s.as_str()), Some("other"));
    assert_eq!(store.get("other.txt"), None);
}

#[test]
fn later_declaration_wins() {
    let config = Configuration {
        vars: StringMap::new(),
        files: vec![
            local("/a/same.txt", None, vec![]),
            local("/b/first.txt", Some("same.txt"), vec![]),
        ],
    };
    let contents = vec!["earlier".to_string(), "later".to_string()];
    let store = assemble(&config, &contents, None).unwrap();
    assert_eq!(store.get("same.txt").map(|s| s.as_str()), Some("later"));
    assert_eq!(store.get("first.txt"), None);
}

#[test]
fn assemble_fails_on_first_unnamed_source() {
    let config = Configuration {
        vars: StringMap::new(),
        files: vec![
            local("/ok.txt", None, vec![]),
            FileDeclaration {
                location: Location::External { url: "https://example.com".to_string() },
                rename: Some("x".to_string()),
                replacements: vec![],
            },
            local("/", None, vec![]),
        ],
    };
    let contents = vec!["a".to_string(), "b".to_string(), "c".to_string()];
    assert_eq!(assemble(&config, &contents, None).err(), Some(SourceError::Fetch));
}

#[test]
fn assemble_uses_env_when_given() {
    let mut vars = StringMap::new();
    vars.insert("who".to_string(), "vars".to_string());
    let mut env = StringMap::new();
    env.insert("WHO".to_string(), "env".to_string());
    let config = Configuration { vars, files: vec![local("/r.txt", None, vec![rep("W", "-{who}")])] };
    let contents = vec!["W".to_string()];
    let store = assemble(&config, &contents, Some(&env)).unwrap();
    assert_eq!(store.get("r.txt").map(|s| s.as_str()), Some("-env"));
}

#[test]
fn serve_get_missing_is_not_found() {
    let config = two_file_config();
    let contents = vec!["say NAME".to_string(), "other".to_string()];
    let store = assemble(&config, &contents, None).unwrap();
    let r = store.respond(RequestMethod::Get, "/missing");
    assert_eq!(r.status, STATUS_NOT_FOUND);
    assert_eq!(r.status, 404);
    assert_eq!(r.body, "");
}

#[test]
fn serve_get_present_is_ok() {
    let config = two_file_config();
    let contents = vec!["say NAME".to_string(), "other".to_string()];
    let store = assemble(&config, &contents, None).unwrap();
    let r = store.respond(RequestMethod::Get, "/readme.txt");
    assert_eq!(r.status, STATUS_OK);
    assert_eq!(r.status, 200);
    assert_eq!(r.body, "say hi world");
}

#[test]
fn serve_other_method_is_not_found() {
    let config = two_file_config();
    let contents = vec!["say NAME".to_string(), "other".to_string()];
    let store = assemble(&config, &contents, None).unwrap();
    let r = store.respond(RequestMethod::Other, "/readme.txt");
    assert_eq!(r.status, 404);
    let r = store.respond(RequestMethod::Get, "readme.txt");
    assert_eq!(r.status, 404);
    let r = store.respond(RequestMethod::Get, "/README.TXT");
    assert_eq!(r.status, 404);
}
