use nianjia::config::{ColorChoice, Config, Definition, Verbosity};
use nianjia::flock::Filesystem;
use nianjia::toml_compat::{parse, ParseWarning, TomlValue};
use nianjia::value::ConfigValue;

fn config_with(files: Vec<(&str, &str)>, credentials: Option<(&str, &str)>) -> Config {
    config_with_env(files, credentials, Vec::new())
}

fn config_with_env(
    files: Vec<(&str, &str)>,
    credentials: Option<(&str, &str)>,
    env: Vec<(String, String)>,
) -> Config {
    let files: Vec<(String, String)> = files
        .into_iter()
        .map(|(p, c)| (p.to_string(), c.to_string()))
        .collect();
    let credentials = credentials.map(|(p, c)| (p.to_string(), c.to_string()));
    let mut config = Config::new(
        "/work/project".to_string(),
        Filesystem::new("/home/user/.nianjia".to_string()),
        env,
    );
    config
        .load_values(&files, &credentials)
        .expect("configuration should load");
    config
}

fn get_table<'a>(cv: &'a ConfigValue, key: &str) -> &'a ConfigValue {
    match cv {
        ConfigValue::Table(entries, _) => {
            for (k, v) in entries {
                if k == key {
                    return v;
                }
            }
            panic!("key {} not found", key);
        }
        _ => panic!("not a table"),
    }
}

fn table_keys(cv: &ConfigValue) -> Vec<String> {
    match cv {
        ConfigValue::Table(entries, _) => entries.iter().map(|(k, _)| k.clone()).collect(),
        _ => panic!("not a table"),
    }
}

fn parse_value(text: &str) -> ConfigValue {
    let (doc, warning) = parse(text).expect("parse should succeed");
    assert!(warning.is_none());
    ConfigValue::from_toml(&"test".to_string(), &doc).expect("conversion should succeed")
}

#[test]
fn merge_tables_unions_keys() {
    let mut a = parse_value("x = 1\n[t]\np = true\n");
    let b = parse_value("y = \"s\"\n[t]\nq = false\n");
    a.merge(b).expect("tables merge");
    let mut keys = table_keys(&a);
    keys.sort();
    assert_eq!(keys, vec!["t".to_string(), "x".to_string(), "y".to_string()]);
    let mut nested = table_keys(get_table(&a, "t"));
    nested.sort();
    assert_eq!(nested, vec!["p".to_string(), "q".to_string()]);
}

#[test]
fn merge_is_associative_on_example() {
    let texts = ["l = [\"a\"]\nx = 1\n", "l = [\"b\"]\ny = 2\n", "l = [\"c\"]\nx = 9\n"];
    let mut left = parse_value(texts[0]);
    left.merge(parse_value(texts[1])).unwrap();
    left.merge(parse_value(texts[2])).unwrap();

    let mut right_tail = parse_value(texts[1]);
    right_tail.merge(parse_value(texts[2])).unwrap();
    let mut right = parse_value(texts[0]);
    right.merge(right_tail).unwrap();

    let lefts = list_items(get_table(&left, "l"));
    let rights = list_items(get_table(&right, "l"));
    assert_eq!(lefts, vec!["a", "b", "c"]);
    assert_eq!(lefts, rights);
    assert_eq!(scalar_int(get_table(&left, "x")), 1);
    assert_eq!(scalar_int(get_table(&right, "x")), 1);
}

fn list_items(cv: &ConfigValue) -> Vec<String> {
    match cv {
        ConfigValue::List(items, _) => items.iter().map(|(v, _)| v.clone()).collect(),
        _ => panic!("not a list"),
    }
}

fn scalar_int(cv: &ConfigValue) -> i64 {
    match cv {
        ConfigValue::Integer(i, _) => *i,
        _ => panic!("not an integer"),
    }
}

#[test]
fn merge_lists_concatenates_never_dedups() {
    let mut a = parse_value("l = [\"x\", \"y\"]\n");
    let b = parse_value("l = [\"y\", \"z\"]\n");
    a.merge(b).expect("lists merge");
    assert_eq!(list_items(get_table(&a, "l")), vec!["x", "y", "y", "z"]);
}

#[test]
fn merge_scalar_keeps_first_value() {
    let mut a = parse_value("x = 1\n");
    let b = parse_value("x = 2\n");
    a.merge(b).expect("scalars merge as no-op");
    assert_eq!(scalar_int(get_table(&a, "x")), 1);
}

#[test]
fn merge_table_with_scalar_is_conflict() {
    let mut a = parse_value("[t]\nx = 1\n");
    let b = parse_value("t = 5\n");
    let err = a.merge(b).expect_err("type conflict");
    assert!(err.internal_from.is_some());
    let joined = err.chain.join("\n");
    assert!(joined.contains("expected table, but found integer"));
}

#[test]
fn nearest_directory_wins_for_scalars_lists_accumulate() {
    let config = config_with(
        vec![
            ("/work/project/.nianjia/config", "x = 1\nl = [\"near\"]\n"),
            ("/work/.nianjia/config", "x = 2\nl = [\"far\"]\n"),
        ],
        None,
    );
    let x = config.get_string("x");
    // x is an integer, so the string accessor reports the kind.
    assert!(x.is_err());
    let near = config.get_list("l").unwrap().unwrap();
    let items: Vec<String> = near.val.iter().map(|(v, _)| v.clone()).collect();
    assert_eq!(items, vec!["near".to_string(), "far".to_string()]);
    let vals = config.values();
    let x_cv = vals.iter().find(|(k, _)| k == "x").map(|(_, v)| v).unwrap();
    match x_cv {
        ConfigValue::Integer(i, path) => {
            assert_eq!(*i, 1);
            assert_eq!(path, "/work/project/.nianjia/config");
        }
        _ => panic!("x should be an integer"),
    }
}

#[test]
fn absent_key_is_not_an_error() {
    let config = config_with(vec![("/work/project/.nianjia/config", "x = 1\n")], None);
    assert!(config.get_bool("no.such.key").unwrap().is_none());
    assert!(config.get_string("missing").unwrap().is_none());
    assert!(config.get_list("also.missing").unwrap().is_none());
}

#[test]
fn accessors_on_empty_configuration() {
    let config = config_with(vec![], None);
    assert!(config.get_bool("term.verbose").unwrap().is_none());
    assert!(config.get_string("term.color").unwrap().is_none());
}

#[test]
fn credentials_scalar_overrides_directory_config() {
    let config = config_with(
        vec![("/work/project/.nianjia/config", "y = \"from-config\"\n")],
        Some(("/home/user/.nianjia/credentials", "y = \"from-credentials\"\n")),
    );
    let y = config.get_string("y").unwrap().unwrap();
    assert_eq!(y.val, "from-credentials");
}

#[test]
fn bare_token_migrates_to_registry() {
    let config = config_with(
        vec![],
        Some(("/home/user/.nianjia/credentials", "token = \"t\"\n")),
    );
    let tok = config.get_string("registry.token").unwrap().unwrap();
    assert_eq!(tok.val, "t");
    assert!(config.get_string("token").unwrap().is_none());
}

#[test]
fn bare_token_dropped_when_registry_exists() {
    let config = config_with(
        vec![],
        Some((
            "/home/user/.nianjia/credentials",
            "token = \"t\"\n[registry]\ntoken = \"kept\"\n",
        )),
    );
    let tok = config.get_string("registry.token").unwrap().unwrap();
    assert_eq!(tok.val, "kept");
    assert!(config.get_string("token").unwrap().is_none());
}

#[test]
fn environment_outranks_files_for_bool_and_string() {
    let env = vec![
        ("NIANJIA_TERM_VERBOSE".to_string(), "true".to_string()),
        ("NIANJIA_TERM_COLOR".to_string(), "never".to_string()),
    ];
    let config = config_with_env(
        vec![(
            "/work/project/.nianjia/config",
            "[term]\nverbose = false\ncolor = \"always\"\n",
        )],
        None,
        env,
    );
    let v = config.get_bool("term.verbose").unwrap().unwrap();
    assert_eq!(v.val, true);
    match v.definition {
        Definition::Environment(name) => assert_eq!(name, "NIANJIA_TERM_VERBOSE"),
        _ => panic!("should come from the environment"),
    }
    let c = config.get_string("term.color").unwrap().unwrap();
    assert_eq!(c.val, "never");
    match c.definition {
        Definition::Environment(name) => assert_eq!(name, "NIANJIA_TERM_COLOR"),
        _ => panic!("should come from the environment"),
    }
}

#[test]
fn environment_bool_parse_failure_names_variable() {
    let env = vec![("NIANJIA_TERM_VERBOSE".to_string(), "maybe".to_string())];
    let config = config_with_env(vec![], None, env);
    let err = config.get_bool("term.verbose").expect_err("bad boolean");
    assert_eq!(
        err.error.chain[0],
        "provided string was not `true` or `false`"
    );
    match err.definition {
        Some(Definition::Environment(name)) => assert_eq!(name, "NIANJIA_TERM_VERBOSE"),
        _ => panic!("definition should name the environment variable"),
    }
}

#[test]
fn lenient_parse_warns_once_naming_file() {
    let config = config_with(
        vec![("/work/project/.nianjia/config", "[a] b = 1")],
        None,
    );
    assert_eq!(config.warnings().len(), 1);
    assert!(config.warnings()[0].contains("/work/project/.nianjia/config"));
    assert!(config
        .warnings()[0]
        .contains("requires newlines after table definitions"));
    // The file still parsed.
    let vals = config.values();
    assert_eq!(vals.len(), 1);
    assert_eq!(vals[0].0, "a");
}

#[test]
fn strict_parse_warns_nothing() {
    let (_, warning) = parse("[a]\nb = 1\n").unwrap();
    assert!(warning.is_none());
}

#[test]
fn lenient_newline_parse_reports_kind() {
    let (doc, warning) = parse("[a] b = 1").unwrap();
    assert!(matches!(warning, Some(ParseWarning::MissingNewline)));
    assert!(matches!(doc, TomlValue::Table(_)));
}

#[test]
fn unparsable_text_reports_first_error() {
    let err = parse("not == toml").expect_err("should fail");
    assert_eq!(err.chain[0], "could not parse input as TOML");
    assert_eq!(err.chain.len(), 2);
}

#[test]
fn round_trip_recovers_keys_and_tags() {
    let cv = parse_value("s = \"v\"\ni = 3\nb = true\nl = [\"e\"]\n[t]\nk = 1\n");
    let mut keys = table_keys(&cv);
    keys.sort();
    assert_eq!(keys, vec!["b", "i", "l", "s", "t"]);
    assert!(matches!(get_table(&cv, "s"), ConfigValue::String(..)));
    assert!(matches!(get_table(&cv, "i"), ConfigValue::Integer(..)));
    assert!(matches!(get_table(&cv, "b"), ConfigValue::Boolean(..)));
    assert!(matches!(get_table(&cv, "l"), ConfigValue::List(..)));
    assert!(matches!(get_table(&cv, "t"), ConfigValue::Table(..)));
}

#[test]
fn array_of_non_strings_is_rejected() {
    let (doc, _) = parse("x = [1]\n").unwrap();
    let err = ConfigValue::from_toml(&"f".to_string(), &doc).expect_err("non-string list");
    let joined = err.chain.join("\n");
    assert!(joined.contains("expected string but found integer in list"));
}

#[test]
fn float_value_is_of_unknown_type() {
    let (doc, _) = parse("x = 1.5\n").unwrap();
    let err = ConfigValue::from_toml(&"f".to_string(), &doc).expect_err("float rejected");
    let joined = err.chain.join("\n");
    assert!(joined.contains("found TOML configuration value of unknown type `float`"));
}

#[test]
fn traversal_through_scalar_is_conflict() {
    let config = config_with(vec![("/work/project/.nianjia/config", "a = 1\n")], None);
    let err = config.get_bool("a.b").expect_err("conflict");
    assert!(err.error.chain[0].contains("expected table for configuration key `a`"));
    assert!(err.error.chain[0].contains("but found integer"));
    assert!(err.error.chain[0].contains("/work/project/.nianjia/config"));
}

#[test]
fn wrong_kind_reports_expected_type() {
    let config = config_with(
        vec![("/work/project/.nianjia/config", "x = \"text\"\n")],
        None,
    );
    let err = config.get_bool("x").expect_err("not a boolean");
    assert_eq!(err.error.chain[0], "`x` expected true/false, but found a string");
    let err2 = config.get_list("x").expect_err("not a list");
    assert!(err2.chain[0].starts_with("invalid configuration for key `x`"));
    assert!(err2.chain[0].contains("expected a list, but found a string for `x`"));
}

#[test]
fn configure_decides_verbosity_and_color() {
    let mut config = config_with(vec![], None);
    config
        .configure(1, None, &None, false, false, &None, &Vec::new())
        .unwrap();
    assert_eq!(config.verbosity, Verbosity::Verbose);
    config
        .configure(0, Some(true), &None, false, false, &None, &Vec::new())
        .unwrap();
    assert_eq!(config.verbosity, Verbosity::Quiet);
    config
        .configure(0, None, &Some("never".to_string()), false, false, &None, &Vec::new())
        .unwrap();
    assert_eq!(config.verbosity, Verbosity::Normal);
    assert_eq!(config.color_choice, ColorChoice::Never);
}

#[test]
fn configure_rejects_verbose_and_quiet_together() {
    let mut config = config_with(vec![], None);
    let err = config
        .configure(1, Some(true), &None, false, false, &None, &Vec::new())
        .expect_err("clash");
    assert_eq!(err.chain[0], "cannot set both --verbose and --quiet");
}

#[test]
fn configure_rejects_unknown_color_word() {
    let mut config = config_with(vec![], None);
    let err = config
        .configure(0, None, &Some("pink".to_string()), false, false, &None, &Vec::new())
        .expect_err("bad color");
    assert_eq!(
        err.chain[0],
        "argument for --color must be auto, always, or never, but found `pink`"
    );
}

#[test]
fn configure_reads_term_settings_from_config() {
    let mut config = config_with(
        vec![(
            "/work/project/.nianjia/config",
            "[term]\nverbose = true\ncolor = \"always\"\n",
        )],
        None,
    );
    config
        .configure(0, None, &None, false, false, &None, &Vec::new())
        .unwrap();
    assert_eq!(config.verbosity, Verbosity::Verbose);
    assert_eq!(config.color_choice, ColorChoice::Always);
}

#[test]
fn conflict_prefix_names_segments_walked() {
    let config = config_with(
        vec![("/work/project/.nianjia/config", "[a]\nb = 1\n")],
        None,
    );
    let err = config.get_bool("a.b.c").expect_err("conflict below a.b");
    assert!(err.error.chain[0].contains("expected table for configuration key `a.b`"));
}

#[test]
fn definition_renders_path_or_environment() {
    let p = Definition::Path("/etc/x".to_string());
    assert_eq!(p.describe(), "/etc/x");
    let e = Definition::Environment("NIANJIA_X".to_string());
    assert_eq!(e.describe(), "environment variable `NIANJIA_X`");
}

#[test]
fn config_error_describes_definition_and_chain() {
    let env = vec![("NIANJIA_TERM_VERBOSE".to_string(), "maybe".to_string())];
    let config = config_with_env(vec![], None, env);
    let err = config.get_bool("term.verbose").expect_err("bad boolean");
    assert_eq!(
        err.describe(),
        "error in environment variable `NIANJIA_TERM_VERBOSE`: \
         provided string was not `true` or `false`"
    );
}

#[test]
fn integer_extremes_survive_parsing() {
    let cv = parse_value("hi = 9223372036854775807\nlo = -9223372036854775808\n");
    assert_eq!(scalar_int(get_table(&cv, "hi")), i64::MAX);
    assert_eq!(scalar_int(get_table(&cv, "lo")), i64::MIN);
}

#[test]
fn empty_input_parses_to_empty_table() {
    let cv = parse_value("");
    assert_eq!(table_keys(&cv).len(), 0);
}

#[test]
fn first_failing_file_decides_the_error() {
    let mut config = Config::new(
        "/w".to_string(),
        Filesystem::new("/h".to_string()),
        Vec::new(),
    );
    let files = vec![
        ("/w/.nianjia/config".to_string(), "x = 1\n".to_string()),
        ("/v/.nianjia/config".to_string(), "not == toml".to_string()),
        ("/u/.nianjia/config".to_string(), "x = 2\n".to_string()),
    ];
    let err = config.load_values(&files, &None).expect_err("second file fails");
    assert_eq!(err.chain.len(), 4);
    assert_eq!(err.chain[0], "could not load Nianjia configuration");
    assert_eq!(
        err.chain[1],
        "could not parse TOML configuration in `/v/.nianjia/config`"
    );
    assert_eq!(err.chain[2], "could not parse input as TOML");
}

#[test]
fn merge_conflict_error_names_file_and_key() {
    let mut config = Config::new(
        "/w".to_string(),
        Filesystem::new("/h".to_string()),
        Vec::new(),
    );
    let files = vec![
        ("/w/.nianjia/config".to_string(), "[t]\nx = 1\n".to_string()),
        ("/v/.nianjia/config".to_string(), "t = 5\n".to_string()),
    ];
    let err = config.load_values(&files, &None).expect_err("kinds clash");
    assert!(err.internal_from.is_some());
    assert_eq!(err.chain[0], "could not load Nianjia configuration");
    assert_eq!(err.chain[1], "failed to merge configuration at `/v/.nianjia/config`");
    assert!(err.chain[2].starts_with("failed to merge key `t` between files:"));
    assert!(err.chain[2].contains("file 1: /w/.nianjia/config"));
    assert!(err.chain[2].contains("file 2: /v/.nianjia/config"));
    assert_eq!(err.chain[3], "expected table, but found integer");
}

#[test]
fn credentials_parse_error_has_no_outer_context() {
    let mut config = Config::new(
        "/w".to_string(),
        Filesystem::new("/h".to_string()),
        Vec::new(),
    );
    let err = config
        .load_values(&Vec::new(), &Some(("/h/credentials".to_string(), "not == toml".to_string())))
        .expect_err("credentials fail to parse");
    assert_eq!(err.chain.len(), 3);
    assert_eq!(err.chain[0], "could not parse TOML configuration in `/h/credentials`");
    assert_eq!(err.chain[1], "could not parse input as TOML");
}

#[test]
fn duplicate_table_header_parses_with_warning() {
    let text = "[a.b]\nx = 1\n[a]\ny = 2\n[a]\nz = 3\n";
    let (_, warning) = parse(text).expect("duplicate headers tolerated");
    assert!(matches!(warning, Some(ParseWarning::DuplicateTable)));
}
