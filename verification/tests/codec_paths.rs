use nianjia::config::Config;
use nianjia::command_prelude::CommandInfo;
use nianjia::errors::{internal, CliError, NianjiaError};
use nianjia::flock::Filesystem;
use nianjia::key::{split_on, ConfigKey, ConfigKeyPart};
use nianjia::paths::{
    ancestors, config_file_candidates, config_paths_to_read, credentials_path,
    executable_candidates, home_config_path, is_bare_name, parent_of_path, path_join,
    pick_first_existing, resolve_executable, ExecResolution,
};

#[test]
fn key_to_env_uppercases_and_prefixes() {
    let key = ConfigKey::from_str("term.verbose");
    assert_eq!(key.to_env(), "NIANJIA_TERM_VERBOSE");
    assert_eq!(key.to_config(), "term.verbose");
}

#[test]
fn key_dashes_become_underscores_in_env_form() {
    let key = ConfigKey::from_str("build.target-dir");
    assert_eq!(key.to_env(), "NIANJIA_BUILD_TARGET_DIR");
    assert_eq!(key.to_config(), "build.target-dir");
}

#[test]
fn case_sensitive_part_is_kept_as_is() {
    let part = ConfigKeyPart::CasePart("MiXeD".to_string());
    assert_eq!(part.to_env(), "MiXeD");
    assert_eq!(part.to_config(), "MiXeD");
    let insensitive = ConfigKeyPart::Part("mi-xed".to_string());
    assert_eq!(insensitive.to_env(), "MI_XED");
    assert_eq!(insensitive.to_config(), "mi-xed");
}

#[test]
fn split_on_splits_and_keeps_empties() {
    let parts = split_on("a.b.c", '.');
    assert_eq!(parts, vec!["a", "b", "c"]);
    let parts = split_on("", '.');
    assert_eq!(parts, vec![""]);
    let parts = split_on(".a.", '.');
    assert_eq!(parts, vec!["", "a", ""]);
}

#[test]
fn parent_walks_toward_root() {
    assert_eq!(parent_of_path(&"/a/b/c".to_string()), Some("/a/b".to_string()));
    assert_eq!(parent_of_path(&"/a".to_string()), Some("/".to_string()));
    assert_eq!(parent_of_path(&"/".to_string()), None);
    assert_eq!(parent_of_path(&"rel".to_string()), Some("".to_string()));
    assert_eq!(parent_of_path(&"".to_string()), None);
}

#[test]
fn parent_disregards_trailing_separators() {
    assert_eq!(parent_of_path(&"/a/b/".to_string()), Some("/a".to_string()));
    assert_eq!(parent_of_path(&"/a/b///".to_string()), Some("/a".to_string()));
    assert_eq!(parent_of_path(&"rel/".to_string()), Some("".to_string()));
    assert_eq!(parent_of_path(&"//".to_string()), None);
}

#[test]
fn ancestors_yields_nearest_first_and_honors_stop() {
    let mut walk = ancestors(&"/a/b".to_string(), &None);
    assert_eq!(walk.next(), Some("/a/b".to_string()));
    assert_eq!(walk.next(), Some("/a".to_string()));
    assert_eq!(walk.next(), Some("/".to_string()));
    assert_eq!(walk.next(), None);

    let mut stopped = ancestors(&"/a/b/c".to_string(), &Some("/a/b".to_string()));
    assert_eq!(stopped.next(), Some("/a/b/c".to_string()));
    assert_eq!(stopped.next(), Some("/a/b".to_string()));
    assert_eq!(stopped.next(), None);
}

#[test]
fn config_candidates_follow_ancestry() {
    let cands = config_file_candidates(&"/w/p".to_string(), &None);
    assert_eq!(
        cands,
        vec![
            "/w/p/.nianjia/config".to_string(),
            "/w/.nianjia/config".to_string(),
            "/.nianjia/config".to_string(),
        ]
    );
}

#[test]
fn home_config_added_unless_already_visited() {
    let existing = vec!["/w/p/.nianjia/config".to_string()];
    let with_home = config_paths_to_read(&existing, &"/home/u/.nianjia".to_string(), true);
    assert_eq!(
        with_home,
        vec![
            "/w/p/.nianjia/config".to_string(),
            "/home/u/.nianjia/config".to_string(),
        ]
    );
    let without = config_paths_to_read(&existing, &"/home/u/.nianjia".to_string(), false);
    assert_eq!(without, existing);
    let visited = vec!["/home/u/.nianjia/config".to_string()];
    let skipped = config_paths_to_read(&visited, &"/home/u/.nianjia".to_string(), true);
    assert_eq!(skipped, visited);
}

#[test]
fn home_paths_are_joined() {
    assert_eq!(home_config_path(&"/home/u/.nianjia".to_string()), "/home/u/.nianjia/config");
    assert_eq!(
        credentials_path(&"/home/u/.nianjia".to_string()),
        "/home/u/.nianjia/credentials"
    );
    assert_eq!(path_join(&"/a/".to_string(), "b"), "/a/b");
    assert_eq!(path_join(&"/a".to_string(), "/abs"), "/abs");
    assert_eq!(path_join(&"".to_string(), "x"), "x");
}

#[test]
fn bare_name_resolves_through_path_list() {
    let exec = "tool".to_string();
    assert!(is_bare_name(&exec));
    let resolution = resolve_executable(
        &exec,
        &Some("/usr/bin:/custom/bin".to_string()),
        &"".to_string(),
    )
    .unwrap();
    let candidates = match resolution {
        ExecResolution::Search(c) => c,
        _ => panic!("bare name searches the path list"),
    };
    assert_eq!(candidates, vec!["/usr/bin/tool".to_string(), "/custom/bin/tool".to_string()]);
    // Only /custom/bin/tool exists as a regular file.
    let exists = vec![false, true];
    let found = pick_first_existing(&candidates, &exists, &exec).unwrap();
    assert_eq!(found, "/custom/bin/tool");
}

#[test]
fn missing_executable_reports_search_failure() {
    let exec = "tool".to_string();
    let candidates = executable_candidates(
        &exec,
        &"/usr/bin".to_string(),
        &"".to_string(),
    );
    let err = pick_first_existing(&candidates, &vec![false], &exec).expect_err("nothing exists");
    assert_eq!(err.chain[0], "no executable for `tool` found in PATH");
}

#[test]
fn executable_suffix_adds_second_candidate() {
    let cands = executable_candidates(
        &"tool".to_string(),
        &"/bin".to_string(),
        &"exe".to_string(),
    );
    assert_eq!(cands, vec!["/bin/tool".to_string(), "/bin/tool.exe".to_string()]);
}

#[test]
fn qualified_name_is_canonicalized_directly() {
    let r = resolve_executable(&"./tool".to_string(), &None, &"".to_string()).unwrap();
    assert!(matches!(r, ExecResolution::Canonicalize(p) if p == "./tool"));
}

#[test]
fn bare_name_without_path_fails() {
    let err = resolve_executable(&"tool".to_string(), &None, &"".to_string()).expect_err("no PATH");
    assert_eq!(err.chain[0], "no PATH");
}

#[test]
fn filesystem_joins_and_unlocks() {
    let fs = Filesystem::new("/root/dir".to_string());
    let joined = fs.join("sub");
    assert_eq!(joined.into_path_unlocked(), "/root/dir/sub");
    let mut fs2 = Filesystem::new("/root".to_string());
    fs2.push("leaf");
    assert_eq!(fs2.into_path_unlocked(), "/root/leaf");
}

#[test]
fn error_chain_truncates_at_internal_unless_verbose() {
    let err = internal("deep fault".to_string())
        .context("middle".to_string())
        .context("outer".to_string());
    let (verbose_causes, complete) = err.shown_causes(true);
    assert_eq!(verbose_causes, vec!["middle".to_string(), "deep fault".to_string()]);
    assert!(complete);
    let (terse_causes, complete) = err.shown_causes(false);
    assert_eq!(terse_causes, vec!["middle".to_string()]);
    assert!(!complete);
}

#[test]
fn plain_error_chain_shows_fully() {
    let err = NianjiaError::msg("root".to_string()).context("outer".to_string());
    let (causes, complete) = err.shown_causes(false);
    assert_eq!(causes, vec!["root".to_string()]);
    assert!(complete);
}

#[test]
fn cli_error_marks_internal_as_unknown() {
    let e = CliError::new(internal("boom".to_string()), 101);
    assert!(e.unknown);
    assert_eq!(e.exit_code, 101);
    let wrapped = CliError::new(internal("boom".to_string()).context("ctx".to_string()), 101);
    assert!(!wrapped.unknown);
    let silent = CliError::code(0);
    assert!(silent.error.is_none());
    assert_eq!(silent.exit_code, 0);
}

#[test]
fn command_info_names_both_kinds() {
    let b = CommandInfo::BuiltIn { name: "run".to_string(), about: None };
    assert_eq!(b.name(), "run");
    let e = CommandInfo::External { name: "ext".to_string(), path: "/bin/ext".to_string() };
    assert_eq!(e.name(), "ext");
}

#[test]
fn config_owns_cwd_and_home() {
    let config = Config::new(
        "/w".to_string(),
        Filesystem::new("/h/.nianjia".to_string()),
        Vec::new(),
    );
    assert_eq!(config.cwd(), "/w");
    assert_eq!(config.home().root, "/h/.nianjia");
}
