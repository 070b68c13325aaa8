use simple_gal::folder::Folder;
use simple_gal::forwarded_identity::ForwardedIdentity;
use simple_gal::options::{Group, LogLevel, Options, OptionsInternal};

fn folder(
    path: &str,
    inheritable: Option<bool>,
    breaks_inheritance: Option<bool>,
    allowed: Option<Vec<&str>>,
    denied: Option<Vec<&str>>,
) -> Folder {
    Folder {
        path: path.to_string(),
        inheritable,
        breaks_inheritance,
        allowed: allowed.map(|v| v.into_iter().map(|s| s.to_string()).collect()),
        denied: denied.map(|v| v.into_iter().map(|s| s.to_string()).collect()),
    }
}

fn options_with(groups: Vec<Group>, folders: Vec<Folder>) -> Options {
    let oi = OptionsInternal {
        log_level: None,
        access_control_allow_origin: None,
        thumb_folder_path: "/thumbs".to_string(),
        log_file: "/tmp/gallery.log".to_string(),
        audit_file: None,
        static_site_path: "/site".to_string(),
        groups,
        folders,
        prometheus_metrics_port: None,
    };
    Options::from_internal(oi, None)
}

#[test]
fn inheritance_allows_descendants() {
    let o = options_with(
        vec![],
        vec![folder("/media", Some(true), None, Some(vec!["u@x"]), None)],
    );
    assert!(o.is_folder_allowed("/media/2020", "u@x"));
    assert!(!o.is_folder_allowed("/media/2020", "v@x"));
}

#[test]
fn breaking_inheritance_discards_ancestors() {
    let o = options_with(
        vec![],
        vec![
            folder("/media", Some(true), None, Some(vec!["u@x"]), None),
            folder("/media/private", Some(true), Some(true), Some(vec!["v@x"]), None),
        ],
    );
    assert!(!o.is_folder_allowed("/media/private/a", "u@x"));
    assert!(o.is_folder_allowed("/media/private/a", "v@x"));
}

#[test]
fn non_inheritable_rule_covers_only_itself() {
    let o = options_with(vec![], vec![folder("/m", Some(false), None, Some(vec!["u@x"]), None)]);
    assert!(o.is_folder_allowed("/m", "u@x"));
    assert!(!o.is_folder_allowed("/m/sub", "u@x"));
}

#[test]
fn group_reference_expands_to_members() {
    let team = Group {
        name: "team".to_string(),
        members_email: vec!["a@x".to_string(), "b@x".to_string()],
    };
    let o = options_with(vec![team], vec![folder("/t", Some(true), None, Some(vec!["#team"]), None)]);
    assert!(o.is_folder_allowed("/t/f", "a@x"));
    assert!(o.is_folder_allowed("/t/f", "b@x"));
    assert!(!o.is_folder_allowed("/t/f", "c@x"));
}

#[test]
fn denial_wins_over_allowance() {
    let o = options_with(
        vec![],
        vec![folder("/m", Some(true), None, Some(vec!["u@x"]), Some(vec!["u@x"]))],
    );
    assert!(!o.is_folder_allowed("/m", "u@x"));
    assert!(!o.is_folder_allowed("/m/sub", "u@x"));
}

#[test]
fn denial_in_ancestor_reaches_descendants() {
    let o = options_with(
        vec![],
        vec![
            folder("/m", Some(true), None, Some(vec!["u@x"]), None),
            folder("/m/a", Some(true), None, None, Some(vec!["u@x"])),
        ],
    );
    assert!(o.is_folder_allowed("/m", "u@x"));
    assert!(!o.is_folder_allowed("/m/a", "u@x"));
    assert!(!o.is_folder_allowed("/m/a/deep", "u@x"));
}

#[test]
fn prefix_match_is_literal_not_segment_aware() {
    let o = options_with(vec![], vec![folder("/a/b", Some(true), None, Some(vec!["u@x"]), None)]);
    // "/a/b" is a string prefix of "/a/bc": the rule applies there too.
    assert!(o.is_folder_allowed("/a/bc", "u@x"));
}

#[test]
fn unmatched_path_is_denied() {
    let o = options_with(vec![], vec![folder("/m", Some(true), None, Some(vec!["u@x"]), None)]);
    assert!(!o.is_folder_allowed("/other", "u@x"));
}

#[test]
fn missing_group_reference_covers_nobody() {
    let o = options_with(vec![], vec![folder("/m", Some(true), None, Some(vec!["#ghosts"]), None)]);
    assert!(!o.is_folder_allowed("/m", "u@x"));
}

#[test]
fn explode_group_substitutes_members_in_order() {
    let team = Group {
        name: "team".to_string(),
        members_email: vec!["a@x".to_string(), "b@x".to_string()],
    };
    let o = options_with(vec![team], vec![]);
    let exploded = o.explode_group(vec![
        "#team".to_string(),
        "x@y".to_string(),
        "#missing".to_string(),
    ]);
    assert_eq!(exploded, vec!["a@x".to_string(), "b@x".to_string(), "x@y".to_string()]);
}

#[test]
fn folder_order_in_config_does_not_matter() {
    let rules = |swap: bool| {
        let a = folder("/media", Some(true), None, Some(vec!["u@x"]), None);
        let b = folder("/media/private", Some(true), Some(true), Some(vec!["v@x"]), None);
        if swap { vec![b, a] } else { vec![a, b] }
    };
    let o1 = options_with(vec![], rules(false));
    let o2 = options_with(vec![], rules(true));
    for path in ["/media", "/media/x", "/media/private", "/media/private/a"] {
        for user in ["u@x", "v@x", "w@x"] {
            assert_eq!(o1.is_folder_allowed(path, user), o2.is_folder_allowed(path, user));
        }
    }
}

#[test]
fn replacing_a_group_with_its_members_changes_no_decision() {
    let team = || Group {
        name: "team".to_string(),
        members_email: vec!["a@x".to_string(), "b@x".to_string()],
    };
    let by_reference = options_with(
        vec![team()],
        vec![
            folder("/t", Some(true), None, Some(vec!["#team"]), None),
            folder("/t/private", Some(true), Some(true), None, Some(vec!["#team"])),
        ],
    );
    let by_members = options_with(
        vec![team()],
        vec![
            folder("/t", Some(true), None, Some(vec!["a@x", "b@x"]), None),
            folder("/t/private", Some(true), Some(true), None, Some(vec!["a@x", "b@x"])),
        ],
    );
    for path in ["/t", "/t/f", "/t/private", "/t/private/x"] {
        for user in ["a@x", "b@x", "c@x"] {
            assert_eq!(
                by_reference.is_folder_allowed(path, user),
                by_members.is_folder_allowed(path, user)
            );
        }
    }
}

#[test]
fn repeated_calls_decide_alike() {
    let o = options_with(
        vec![],
        vec![folder("/media", Some(true), None, Some(vec!["u@x"]), None)],
    );
    for _ in 0..3 {
        assert!(o.is_folder_allowed("/media/x", "u@x"));
        assert!(!o.is_folder_allowed("/media/x", "v@x"));
    }
}

#[test]
fn loading_sorts_folders_by_path() {
    let o = options_with(
        vec![],
        vec![
            folder("/z", None, None, None, None),
            folder("/a/b", None, None, None, None),
            folder("/a", None, None, None, None),
        ],
    );
    let paths: Vec<&str> = o.folders.iter().map(|f| f.path.as_str()).collect();
    assert_eq!(paths, vec!["/a", "/a/b", "/z"]);
}

#[test]
fn identity_gate_checks_force_and_known_emails() {
    let team = Group { name: "g".to_string(), members_email: vec!["a@x".to_string()] };
    let o = options_with(vec![team], vec![]);
    assert!(o.identity_allowed(&ForwardedIdentity::new("a@x".to_string())));
    assert!(!o.identity_allowed(&ForwardedIdentity::new("z@x".to_string())));
    assert!(o.identity_allowed(&ForwardedIdentity::new_forced("z@x".to_string())));
}

#[test]
fn resolve_identity_prefers_forced_user() {
    let id = ForwardedIdentity::resolve(Some("op@x".to_string()), vec!["a@x".to_string()]);
    let id = id.expect("forced user always yields an identity");
    assert_eq!(id.email, "op@x");
    assert!(id.forced());
}

#[test]
fn resolve_identity_requires_exactly_one_header() {
    let id = ForwardedIdentity::resolve(None, vec!["a@x".to_string()]);
    let id = id.expect("one header value yields an identity");
    assert_eq!(id.email, "a@x");
    assert!(!id.forced());
    assert!(ForwardedIdentity::resolve(None, vec![]).is_none());
    assert!(
        ForwardedIdentity::resolve(None, vec!["a@x".to_string(), "b@x".to_string()]).is_none()
    );
}

#[test]
fn log_level_names_translate_with_info_fallback() {
    let level = |name: Option<&str>| {
        let oi = OptionsInternal {
            log_level: name.map(|s| s.to_string()),
            access_control_allow_origin: None,
            thumb_folder_path: String::new(),
            log_file: String::new(),
            audit_file: None,
            static_site_path: String::new(),
            groups: vec![],
            folders: vec![],
            prometheus_metrics_port: None,
        };
        Options::from_internal(oi, None).log_level
    };
    assert_eq!(level(Some("Error")), LogLevel::Error);
    assert_eq!(level(Some("Warn")), LogLevel::Warn);
    assert_eq!(level(Some("Info")), LogLevel::Info);
    assert_eq!(level(Some("Debug")), LogLevel::Debug);
    assert_eq!(level(Some("Trace")), LogLevel::Trace);
    assert_eq!(level(Some("Off")), LogLevel::Off);
    assert_eq!(level(Some("loud")), LogLevel::Info);
    assert_eq!(level(None), LogLevel::Info);
}

#[test]
fn first_level_lists_minimal_entry_points() {
    let o = options_with(
        vec![],
        vec![
            folder("/media", Some(true), None, Some(vec!["u@x"]), None),
            folder("/media/sub", Some(false), None, Some(vec!["u@x"]), None),
            folder("/other", Some(false), None, Some(vec!["v@x"]), None),
        ],
    );
    let mut mine = o.first_level_allowed_folders("u@x");
    mine.sort();
    // "/media" covers its subtree by inheritance, so "/media/sub" is not
    // listed again; "/other" belongs to someone else.
    assert_eq!(mine, vec!["/media".to_string()]);
    let theirs = o.first_level_allowed_folders("v@x");
    assert_eq!(theirs, vec!["/other".to_string()]);
}

#[test]
fn non_inheritable_chain_lists_each_step() {
    let o = options_with(
        vec![],
        vec![
            folder("/m", Some(false), None, Some(vec!["u@x"]), None),
            folder("/m/a", Some(false), None, Some(vec!["u@x"]), None),
        ],
    );
    let mut mine = o.first_level_allowed_folders("u@x");
    mine.sort();
    assert_eq!(mine, vec!["/m".to_string(), "/m/a".to_string()]);
}

#[test]
fn ancestors_pair_each_rule_with_its_topmost_prefix() {
    let o = options_with(
        vec![],
        vec![
            folder("/a", None, None, None, None),
            folder("/a/b", None, None, None, None),
            folder("/c", None, None, None, None),
        ],
    );
    let ancestors = o.calculate_ancestors();
    assert_eq!(ancestors.len(), 3);
    assert_eq!(ancestors[0].0.path, "/a");
    assert_eq!(ancestors[0].1.path, "/a");
    assert_eq!(ancestors[1].0.path, "/a/b");
    assert_eq!(ancestors[1].1.path, "/a");
    assert_eq!(ancestors[2].0.path, "/c");
    assert_eq!(ancestors[2].1.path, "/c");
}

#[test]
fn first_level_map_covers_every_known_email() {
    let team = Group {
        name: "team".to_string(),
        members_email: vec!["a@x".to_string(), "b@x".to_string()],
    };
    let o = options_with(
        vec![team],
        vec![folder("/t", Some(true), None, Some(vec!["#team"]), None)],
    );
    let map = o.calculate_first_level_folders_for_every_user();
    assert_eq!(map.len(), 2);
    for (email, folders) in &map {
        assert!(email == "a@x" || email == "b@x");
        assert_eq!(folders, &vec!["/t".to_string()]);
    }
}
