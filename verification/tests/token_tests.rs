use vault_sync::token::{
    bws_search_dirs, resolve_bws_token, token_from_bws_file, token_from_env, BwsFile, BwsSearch,
    TokenError,
};

fn dir(parts: &[&str]) -> Vec<String> {
    parts.iter().map(|p| p.to_string()).collect()
}

#[test]
fn token_from_simple_file() {
    assert_eq!(token_from_bws_file("BWS_ACCESS_TOKEN=abc\n").as_deref(), Some("abc"));
}

#[test]
fn token_skips_comments_blank_lines_and_other_keys() {
    let content = "# comment\n\n  OTHER=1\nBWS_ACCESS_TOKEN = \"quoted\" \r\n";
    assert_eq!(token_from_bws_file(content).as_deref(), Some("quoted"));
}

#[test]
fn token_strips_single_quotes_after_double_quotes() {
    assert_eq!(token_from_bws_file("BWS_ACCESS_TOKEN='x y'").as_deref(), Some("x y"));
    assert_eq!(token_from_bws_file("BWS_ACCESS_TOKEN=\"'z'\"").as_deref(), Some("z"));
}

#[test]
fn token_keeps_later_equals_signs() {
    assert_eq!(token_from_bws_file("BWS_ACCESS_TOKEN=a=b").as_deref(), Some("a=b"));
}

#[test]
fn empty_values_are_skipped() {
    let content = "BWS_ACCESS_TOKEN=\nBWS_ACCESS_TOKEN=\"\"\nBWS_ACCESS_TOKEN=second";
    assert_eq!(token_from_bws_file(content).as_deref(), Some("second"));
    assert_eq!(token_from_bws_file("BWS_ACCESS_TOKEN=  ").as_deref(), None);
    assert_eq!(token_from_bws_file("#BWS_ACCESS_TOKEN=x").as_deref(), None);
    assert_eq!(token_from_bws_file("").as_deref(), None);
}

fn found(content: &str) -> BwsSearch {
    BwsSearch::Found(BwsFile { location: "/h/.bws".to_string(), content: content.to_string() })
}

#[test]
fn env_token_value() {
    assert_eq!(token_from_env(Some("t")).as_deref(), Some("t"));
    assert_eq!(token_from_env(Some("")), None);
    assert_eq!(token_from_env(None), None);
}

#[test]
fn file_token_comes_before_the_environment() {
    assert_eq!(resolve_bws_token(Some("envtok"), &found("BWS_ACCESS_TOKEN=filetok\n")).unwrap(), "filetok");
    assert_eq!(resolve_bws_token(None, &found("BWS_ACCESS_TOKEN=f")).unwrap(), "f");
}

#[test]
fn environment_is_the_fallback() {
    assert_eq!(resolve_bws_token(Some("e"), &BwsSearch::NoFile).unwrap(), "e");
    assert_eq!(resolve_bws_token(Some("e"), &BwsSearch::HomeNotSet).unwrap(), "e");
    assert_eq!(resolve_bws_token(Some("e"), &BwsSearch::NoCurrentDir).unwrap(), "e");
}

#[test]
fn resolve_errors() {
    match resolve_bws_token(Some("e"), &found("OTHER=1")) {
        Err(e @ TokenError::MissingInFile { .. }) => {
            assert_eq!(e.message(), "Found /h/.bws but it does not contain BWS_ACCESS_TOKEN")
        }
        _ => panic!("expected MissingInFile"),
    }
    match resolve_bws_token(Some(""), &BwsSearch::NoFile) {
        Err(e @ TokenError::NotFound) => assert_eq!(
            e.message(),
            "BWS_ACCESS_TOKEN not found. Set it as an environment variable or in a .bws file."
        ),
        _ => panic!("expected NotFound"),
    }
    match resolve_bws_token(None, &BwsSearch::HomeNotSet) {
        Err(e @ TokenError::HomeNotSet) => assert_eq!(e.message(), "HOME not set"),
        _ => panic!("expected HomeNotSet"),
    }
    match resolve_bws_token(Some(""), &BwsSearch::NoCurrentDir) {
        Err(e @ TokenError::NoCurrentDir) => {
            assert_eq!(e.message(), "Failed to get current directory")
        }
        _ => panic!("expected NoCurrentDir"),
    }
}

#[test]
fn search_walks_up_to_home() {
    let dirs = bws_search_dirs(&dir(&["/", "home", "u", "proj", "sub"]), &dir(&["/", "home", "u"]));
    assert_eq!(
        dirs,
        vec![
            dir(&["/", "home", "u", "proj", "sub"]),
            dir(&["/", "home", "u", "proj"]),
            dir(&["/", "home", "u"]),
        ]
    );
}

#[test]
fn search_outside_home_checks_only_the_working_directory() {
    let dirs = bws_search_dirs(&dir(&["/", "tmp", "x"]), &dir(&["/", "home", "u"]));
    assert_eq!(dirs, vec![dir(&["/", "tmp", "x"])]);
}

#[test]
fn search_stops_at_the_root() {
    let dirs = bws_search_dirs(&dir(&["/", "a"]), &dir(&[]));
    assert_eq!(dirs, vec![dir(&["/", "a"]), dir(&["/"])]);
    let at_home = bws_search_dirs(&dir(&["/", "home"]), &dir(&["/", "home"]));
    assert_eq!(at_home, vec![dir(&["/", "home"])]);
}
