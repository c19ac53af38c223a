use deft::error::RevolError;
use deft::manifest::{Dependency, LockedDependency, Lockfile, Manifest, Profiles};
use deft::resolver::{
    build_lockfile, deft_home, CacheAction, CacheCheckout, direct_dependency_names, package_name, parse_mappings, probe_url, tag_candidates,
    Mappings, Resolver,
};

#[test]
fn tag_candidates_tries_both_v_prefix_spellings() {
    assert_eq!(tag_candidates("3.12.0"), vec!["3.12.0", "v3.12.0"]);
    assert_eq!(tag_candidates("v3.12.0"), vec!["v3.12.0", "3.12.0"]);
    assert_eq!(tag_candidates("v"), vec!["v", "vv"]);
}

#[test]
fn package_name_takes_last_segment_without_git_suffix() {
    assert_eq!(package_name("gh:xntas/json"), "json");
    assert_eq!(package_name("gh:user/http_parser.git"), "http_parser");
}

// ---------------------------------------------------------------------------
// Further cases
// ---------------------------------------------------------------------------

#[test]
fn package_name_strips_repeated_git_suffixes_and_handles_no_slash() {
    assert_eq!(package_name("x.git.git"), "x");
    assert_eq!(package_name("plain"), "plain");
    assert_eq!(package_name("a/b/"), "");
}

#[test]
fn deft_home_prefers_explicit_then_home() {
    assert_eq!(deft_home(Some("/opt/deft"), Some("/home/u")).unwrap(), "/opt/deft");
    assert_eq!(deft_home(Some(""), Some("/home/u")).unwrap(), "/home/u/.deft");
    assert!(matches!(deft_home(None, None), Err(RevolError::Environment(m)) if m == "HOME is not set; cannot locate ~/.deft"));
    assert!(matches!(deft_home(None, Some("")), Err(RevolError::Environment(m)) if m == "HOME is empty"));
}

#[test]
fn probe_url_drops_the_git_suffix() {
    assert_eq!(probe_url("https://github.com/u/r.git"), "https://github.com/u/r/info/refs?service=git-upload-pack");
}

#[test]
fn mapping_file_parses_comments_blank_lines_and_later_entries_win() {
    let text = "# the index\n\ngh:a/x   https://one.example/x.git  # first\ngh:b/y https://two.example/y\ngh:a/x https://three.example/x\n";
    let m = parse_mappings("/home/u/.deft/deft-libs", text).unwrap();
    assert_eq!(m.get("gh:a/x").as_deref(), Some("https://three.example/x"));
    assert_eq!(m.get("gh:b/y").as_deref(), Some("https://two.example/y"));
    assert_eq!(m.get("gh:c/z"), None);
}

#[test]
fn mapping_file_rejects_a_line_with_one_word() {
    let err = parse_mappings("libs", "gh:a/x https://x\nlonely\n").unwrap_err();
    assert_eq!(err.message(), "dependency resolution failed: malformed mapping in libs on line 2: 'lonely'");
}

fn resolver(mappings: Mappings) -> Resolver {
    Resolver::open("/home/u/.deft".to_string(), mappings, false)
}

#[test]
fn shorthand_mapping_prefers_the_table_then_github() {
    let m = parse_mappings("libs", "gh:a/x https://mirror/x.git\n").unwrap();
    let r = resolver(m);
    assert_eq!(r.map_shorthand("gh:a/x").unwrap(), "https://mirror/x.git");
    assert_eq!(r.map_shorthand("gh:user/lib").unwrap(), "https://github.com/user/lib.git");
    let err = r.map_shorthand("gh:too/many/parts").unwrap_err();
    assert_eq!(
        err.message(),
        "dependency resolution failed: no mapping for 'gh:too/many/parts' in /home/u/.deft/deft-libs and it is not a recognized shorthand"
    );
    assert!(r.map_shorthand("bitbucket:user/lib").is_err());
    assert_eq!(r.home(), "/home/u/.deft");
}

fn manifest(deps: &[(&str, &str, Option<&str>)]) -> Manifest {
    Manifest {
        workspace: None,
        package: None,
        features: Vec::new(),
        profile: Profiles { c: None, cpp: None },
        dependencies: deps
            .iter()
            .map(|(k, v, t)| {
                (k.to_string(), Dependency { version: v.to_string(), features: Vec::new(), tag: t.map(|s| s.to_string()) })
            })
            .collect(),
    }
}

#[test]
fn resolve_all_plans_each_dependency_and_pins_locked_versions() {
    let r = resolver(Mappings::empty());
    let m = manifest(&[("gh:user/json", "3.11", None), ("gh:user/zlib", "1.3", Some("v1.3.1"))]);
    let lock = Lockfile {
        dependencies: vec![
            LockedDependency {
                name: "json".to_string(),
                source: "git+https://github.com/user/json.git".to_string(),
                checksum: "abc123".to_string(),
                version: "3.11".to_string(),
                dependencies: Vec::new(),
            },
            LockedDependency {
                name: "zlib".to_string(),
                source: String::new(),
                checksum: "def456".to_string(),
                version: "1.2".to_string(),
                dependencies: Vec::new(),
            },
        ],
    };
    let plans = r.resolve_all(&m, Some(&lock)).unwrap();
    assert_eq!(plans.len(), 2);
    assert_eq!(plans[0].name, "json");
    assert_eq!(plans[0].source, "git+https://github.com/user/json.git");
    assert_eq!(plans[0].tag, "3.11");
    assert_eq!(plans[0].dest, "/home/u/.deft/cache/json-3.11");
    assert_eq!(plans[0].pinned.as_deref(), Some("abc123"));
    assert_eq!(plans[1].tag, "v1.3.1");
    assert_eq!(plans[1].pinned, None);

    let fresh = r.resolve_all(&m, None).unwrap();
    assert!(fresh.iter().all(|p| p.pinned.is_none()));

    let bad = manifest(&[("gh:user/json", "1", None), ("nope", "1", None)]);
    assert!(matches!(r.resolve_all(&bad, None), Err(RevolError::Resolution(_))));
}

#[test]
fn resolved_takes_the_pin_or_the_trimmed_head() {
    let r = resolver(Mappings::empty());
    let m = manifest(&[("gh:user/json", "3.11", None)]);
    let plan = r.resolve_all(&m, None).unwrap().remove(0);
    let dep = plan.resolved("  0123abcd\n", vec!["zlib".to_string()]);
    assert_eq!(dep.checksum, "0123abcd");
    assert_eq!(dep.cache_path, "/home/u/.deft/cache/json-3.11");
    let lock = build_lockfile(&[dep]);
    assert_eq!(lock.dependencies.len(), 1);
    assert_eq!(lock.dependencies[0].name, "json");
    assert_eq!(lock.dependencies[0].checksum, "0123abcd");
    assert_eq!(lock.dependencies[0].dependencies, vec!["zlib"]);
}

#[test]
fn direct_dependency_names_are_sorted_package_names() {
    let m = manifest(&[("gh:b/zlib", "1", None), ("gh:a/abseil.git", "1", None), ("gh:c/json", "1", None)]);
    assert_eq!(direct_dependency_names(&m), vec!["abseil", "json", "zlib"]);
}

#[test]
fn cache_checkout_tries_each_spelling_then_gives_up() {
    let (mut st, mut action) = CacheCheckout::begin(true, 2);
    let mut seen = vec![action];
    while !matches!(action, CacheAction::Done | CacheAction::NoCachedTag | CacheAction::NoTag | CacheAction::CloneFailed) {
        (st, action) = st.advance(false);
        seen.push(action);
    }
    assert_eq!(
        seen,
        vec![
            CacheAction::FetchTag(0),
            CacheAction::CheckoutTag(0),
            CacheAction::FetchTag(1),
            CacheAction::CheckoutTag(1),
            CacheAction::NoCachedTag,
        ]
    );
}

#[test]
fn fresh_checkout_falls_back_to_a_full_clone_and_still_needs_a_tag() {
    let (st, a) = CacheCheckout::begin(false, 2);
    assert_eq!(a, CacheAction::Probe);
    let (st, a) = st.advance(true);
    assert_eq!(a, CacheAction::CloneTag(0));
    let (st, a) = st.advance(false);
    assert_eq!(a, CacheAction::CloneTag(1));
    let (st, a) = st.advance(false);
    assert_eq!(a, CacheAction::CloneFull);
    let (st, a) = st.advance(true);
    assert_eq!(a, CacheAction::CheckoutTag(0));
    let (st, a) = st.advance(false);
    assert_eq!(a, CacheAction::CheckoutTag(1));
    let (_, a) = st.advance(true);
    assert_eq!(a, CacheAction::Done);

    let (st, _) = CacheCheckout::begin(false, 1);
    let (st, _) = st.advance(true);
    let (st, a) = st.advance(false);
    assert_eq!(a, CacheAction::CloneFull);
    let (_, a) = st.advance(false);
    assert_eq!(a, CacheAction::CloneFailed);
}
