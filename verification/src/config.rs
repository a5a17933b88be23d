use vstd::prelude::*;

use crate::errors::NianjiaError;
use crate::flock::Filesystem;
use crate::key::{
    config_key_of, env_key_of, join_with, split_on, split_on_spec, ConfigKey, KeyPartModel,
};
use crate::toml_compat::{
    ladder_doc, ladder_warning, strict_err_of, warning_duplicate_text, warning_newline_text,
    ParseWarning,
};
use crate::value::{from_toml_err_chain, merge_err_chain, toml_to_cv};
use crate::toml_compat::toml_ok;
use crate::value::{
    merged, mergeable,
    desc_of, lookup_parts, unique_keys, ConfigValue, CvModel, Lookup,
};

verus! {

/// The requested verbosity of output.
#[derive(Debug, Clone, Copy, PartialEq, Eq, Structural)]
pub enum Verbosity {
    Verbose,
    Normal,
    Quiet,
}

/// Whether messages should use color output.
#[derive(Debug, Clone, Copy, PartialEq, Eq, Structural)]
pub enum ColorChoice {
    /// Force color output.
    Always,
    /// Force disable color output.
    Never,
    /// Guess whether to use color output from the terminal.
    NianjiaAuto,
}

/// The model of where a resolved value was defined.
pub enum DefModel {
    Path(Seq<char>),
    Environment(Seq<char>),
}

/// Where a resolved value was defined: a configuration file, or an
/// environment variable.  Used for diagnostics only, never for logic.
#[derive(Debug)]
pub enum Definition {
    Path(String),
    Environment(String),
}

impl View for Definition {
    type V = DefModel;

    open spec fn view(&self) -> DefModel {
        match self {
            Definition::Path(p) => DefModel::Path(p@),
            Definition::Environment(k) => DefModel::Environment(k@),
        }
    }
}

/// How a definition shows in messages.
pub open spec fn def_text(d: DefModel) -> Seq<char> {
    match d {
        DefModel::Path(p) => p,
        DefModel::Environment(k) => "environment variable `"@ + k + "`"@,
    }
}

impl Definition {
    /// The definition as error messages show it.
    pub fn describe(&self) -> (r: String)
        ensures
            r@ == def_text(self@),
    {
        match self {
            Definition::Path(p) => p.clone(),
            Definition::Environment(k) => {
                let mut s = String::from_str("environment variable `");
                s.append(k.as_str());
                s.append("`");
                s
            },
        }
    }
}

/// A resolved scalar together with where it was defined.  (Named apart
/// from the TOML parser's own value type.)
#[derive(Debug)]
pub struct ResolvedValue<T> {
    pub val: T,
    pub definition: Definition,
}

/// An optional resolved scalar.
pub type OptValue<T> = Option<ResolvedValue<T>>;

/// An error from a typed lookup, with the definition it concerns when one
/// is known.
#[derive(Debug)]
pub struct ConfigError {
    pub error: NianjiaError,
    pub definition: Option<Definition>,
}

impl ConfigError {
    /// The carried error is well formed.
    pub open spec fn wf(self) -> bool {
        self.error.wf()
    }

    /// An error with one message, tied to a definition.
    pub fn new(message: String, definition: Definition) -> (r: ConfigError)
        ensures
            r.wf(),
            r.error.chain@.len() == 1,
            r.error.chain@[0]@ == message@,
            !r.error.is_internal(),
            r.definition matches Some(d) && d@ == definition@,
    {
        ConfigError { error: NianjiaError::msg(message), definition: Some(definition) }
    }

    /// The error for a key resolved to a value of the wrong kind.
    pub fn expected(key: &str, wanted: &str, found: &ConfigValue) -> (r: ConfigError)
        ensures
            r.wf(),
            !r.error.is_internal(),
            r.error.chain@.len() == 1,
            r.error.chain@[0]@ == expected_text(key@, wanted@, found.model()),
            r.definition matches Some(d) && d@ == DefModel::Path(found.model().src()),
    {
        let mut msg = String::from_str("`");
        msg.append(key);
        msg.append("` expected ");
        msg.append(wanted);
        msg.append(", but found a ");
        msg.append(found.desc());
        ConfigError {
            error: NianjiaError::msg(msg),
            definition: Some(Definition::Path(found.definition_path().clone())),
        }
    }

    /// Turns a bare error into one with no definition attached.
    pub fn from_error(error: NianjiaError) -> (r: ConfigError)
        requires
            error.wf(),
        ensures
            r.wf(),
            r.error == error,
            r.definition is None,
    {
        ConfigError { error, definition: None }
    }
}

impl ConfigError {
    /// This error as one displayable message: the definition it
    /// concerns, then the message chain, each cause on its own line.
    pub fn describe(&self) -> (r: String)
        requires
            self.wf(),
        ensures
            r@ == match self.definition {
                Some(d) => "error in "@ + def_text(d@) + ": "@ + chain_text(
                    self.error.chain@.map_values(|m: String| m@),
                ),
                None => chain_text(self.error.chain@.map_values(|m: String| m@)),
            },
    {
        let joined = join_chain(&self.error.chain);
        match &self.definition {
            Some(d) => {
                let mut s = String::from_str("error in ");
                s.append(d.describe().as_str());
                s.append(": ");
                s.append(joined.as_str());
                s
            },
            None => joined,
        }
    }
}

/// A message chain as one displayable message.
pub open spec fn chain_text(chain: Seq<Seq<char>>) -> Seq<char> {
    join_with(chain, "\nCaused by:\n  "@)
}

/// Joins a message chain for display.
fn join_chain(chain: &Vec<String>) -> (r: String)
    ensures
        r@ == chain_text(chain@.map_values(|m: String| m@)),
{
    let ghost texts = chain@.map_values(|m: String| m@);
    let mut out = String::new();
    let mut i: usize = 0;
    while i < chain.len()
        invariant
            i <= chain@.len(),
            texts == chain@.map_values(|m: String| m@),
            texts.len() == chain@.len(),
            out@ == join_with(texts.take(i as int), "\nCaused by:\n  "@),
        decreases chain@.len() - i,
    {
        if i > 0 {
            out.append("\nCaused by:\n  ");
        }
        out.append(chain[i].as_str());
        proof {
            assert(texts.take(i + 1).drop_last() =~= texts.take(i as int));
            assert(texts.take(i + 1).last() == texts[i as int]);
            if i == 0 {
                assert(join_with(texts.take(1), "\nCaused by:\n  "@) == texts[0]);
            }
        }
        i += 1;
    }
    proof {
        assert(texts.take(texts.len() as int) =~= texts);
    }
    out
}

/// The message for a key resolved to a value of the wrong kind.
pub open spec fn expected_text(key: Seq<char>, wanted: Seq<char>, found: CvModel) -> Seq<char> {
    "`"@ + key + "` expected "@ + wanted + ", but found a "@ + desc_of(found)
}

/// The message for a traversal that met a non-table value after `depth`
/// of the key's segments.
pub open spec fn conflict_text(parts: Seq<Seq<char>>, depth: int, found: CvModel) -> Seq<char> {
    "expected table for configuration key `"@ + join_with(parts.take(depth), "."@)
        + "`, but found "@ + desc_of(found) + " in "@ + found.src()
}

/// The first value bound to this name in an environment snapshot.
pub open spec fn env_first(env: Seq<(String, String)>, name: Seq<char>) -> Option<Seq<char>>
    decreases env.len(),
{
    if env.len() == 0 {
        None
    } else if env[0].0@ == name {
        Some(env[0].1@)
    } else {
        env_first(env.drop_first(), name)
    }
}

/// Configuration information for the tool itself, not specific to any one
/// run: the merged value tree, loaded once, the environment snapshot
/// taken at construction, the working directory, and the output settings
/// that `configure` decides.
pub struct Config {
    /// The location of the user's home directory.
    pub home_path: Filesystem,
    /// The merged configuration tree, once loaded.
    pub values: Option<Vec<(String, ConfigValue)>>,
    /// The current working directory.
    pub cwd: String,
    /// Environment variables captured at construction; only valid-Unicode
    /// pairs are handed in.
    pub env: Vec<(String, String)>,
    /// Deprecation warnings collected while parsing, for the caller's
    /// output sink.
    pub warnings: Vec<String>,
    /// How verbose messages should be.
    pub verbosity: Verbosity,
    /// Whether messages should use color output.
    pub color_choice: ColorChoice,
}

impl Config {
    /// Every loaded table is well formed.
    pub open spec fn wf(self) -> bool {
        match self.values {
            Some(v) => unique_keys(v@) && forall|i: int|
                0 <= i < v@.len() ==> (#[trigger] v@[i]).1.wf(),
            None => true,
        }
    }

    /// Whether the merged tree has been loaded.
    pub open spec fn loaded(self) -> bool {
        self.values is Some
    }

    /// The merged tree as a map from top-level key to model value.
    pub open spec fn tree(self) -> Map<Seq<char>, CvModel> {
        match self.values {
            Some(v) => ConfigValue::table_model(v@),
            None => Map::empty(),
        }
    }

    /// A configuration over the given working directory, home directory
    /// and environment snapshot; the tree is loaded separately.
    pub fn new(cwd: String, home_path: Filesystem, env: Vec<(String, String)>) -> (r: Config)
        ensures
            r.wf(),
            !r.loaded(),
            r.cwd == cwd,
            r.home_path == home_path,
            r.env == env,
            r.warnings@.len() == 0,
            r.verbosity == Verbosity::Verbose,
            r.color_choice == ColorChoice::NianjiaAuto,
    {
        Config {
            home_path,
            values: None,
            cwd,
            env,
            warnings: Vec::new(),
            verbosity: Verbosity::Verbose,
            color_choice: ColorChoice::NianjiaAuto,
        }
    }

    /// The user's home directory.
    pub fn home(&self) -> (r: &Filesystem)
        ensures
            r == &self.home_path,
    {
        &self.home_path
    }

    /// The current working directory.
    pub fn cwd(&self) -> (r: &String)
        ensures
            r == &self.cwd,
    {
        &self.cwd
    }

    /// The loaded configuration tree.
    pub fn values(&self) -> (r: &Vec<(String, ConfigValue)>)
        requires
            self.loaded(),
        ensures
            self.values == Some(*r),
    {
        match &self.values {
            Some(v) => v,
            None => vstd::pervasive::unreached(),
        }
    }

    /// The deprecation warnings collected while loading.
    pub fn warnings(&self) -> (r: &Vec<String>)
        ensures
            r == &self.warnings,
    {
        &self.warnings
    }

    /// The first value of this environment variable in the snapshot.
    fn env_var(&self, name: &String) -> (r: Option<String>)
        ensures
            match env_first(self.env@, name@) {
                Some(v) => r matches Some(s) && s@ == v,
                None => r is None,
            },
    {
        let mut j: usize = 0;
        proof {
            assert(self.env@.skip(0) =~= self.env@);
        }
        while j < self.env.len()
            invariant
                j <= self.env@.len(),
                env_first(self.env@, name@) == env_first(self.env@.skip(j as int), name@),
            decreases self.env@.len() - j,
        {
            if self.env[j].0 == *name {
                return Some(self.env[j].1.clone());
            }
            proof {
                assert(self.env@.skip(j as int).drop_first() =~= self.env@.skip(j + 1));
            }
            j += 1;
        }
        None
    }
}

/// Joins the first `upto` segments with dots, for diagnostics.
fn join_dotted(parts: &Vec<String>, upto: usize) -> (r: String)
    requires
        upto <= parts@.len(),
    ensures
        r@ == join_with(parts@.map_values(|x: String| x@).take(upto as int), "."@),
{
    let ghost texts = parts@.map_values(|x: String| x@);
    let mut out = String::new();
    let mut i: usize = 0;
    while i < upto
        invariant
            i <= upto <= parts@.len(),
            texts == parts@.map_values(|x: String| x@),
            out@ == join_with(texts.take(i as int), "."@),
        decreases upto - i,
    {
        if i > 0 {
            out.append(".");
        }
        out.append(parts[i].as_str());
        proof {
            assert(texts.take(i + 1).drop_last() =~= texts.take(i as int));
            assert(texts.take(i + 1).last() == texts[i as int]);
            if i == 0 {
                assert(join_with(texts.take(1), "."@) == texts[0]);
            }
        }
        i += 1;
    }
    out
}

impl Config {
    /// Resolves a dotted key against the merged tree, walking one table
    /// level per segment: a missing segment is not an error, but a
    /// non-table met while segments remain is a type conflict naming the
    /// dotted prefix walked so far.
    #[verifier::loop_isolation(false)]
    pub fn get_cv(&self, key: &str) -> (r: Result<Option<ConfigValue>, NianjiaError>)
        requires
            self.wf(),
            self.loaded(),
        ensures
            match lookup_parts(self.tree(), split_on_spec(key@, '.')) {
                Lookup::Found(v) => r matches Ok(ov) && ov matches Some(cv) && cv.wf()
                    && cv.model() == v,
                Lookup::Absent => r matches Ok(ov) && ov is None,
                Lookup::Conflict { depth, found } => r matches Err(e) && e.wf()
                    && !e.is_internal() && e.chain@.len() == 1 && e.chain@[0]@ == conflict_text(
                    split_on_spec(key@, '.'),
                    depth,
                    found,
                ),
            },
    {
        let parts = split_on(key, '.');
        let ghost partviews = split_on_spec(key@, '.');
        let vals: &Vec<(String, ConfigValue)> = self.values();
        let mut cur: &Vec<(String, ConfigValue)> = vals;
        let ghost mut cur_map = self.tree();
        let mut idx: usize = 0;
        proof {
            assert(partviews.skip(0) =~= partviews);
        }
        while idx < parts.len()
            invariant
                idx <= parts@.len(),
                partviews.len() == parts@.len(),
                forall|t: int| 0 <= t < parts@.len() ==> (#[trigger] parts@[t])@ == partviews[t],
                unique_keys(cur@),
                forall|t: int| 0 <= t < cur@.len() ==> (#[trigger] cur@[t]).1.wf(),
                cur_map == ConfigValue::table_model(cur@),
                lookup_parts(self.tree(), partviews) == lift_lookup(
                    lookup_parts(cur_map, partviews.skip(idx as int)),
                    idx as int,
                ),
            decreases parts@.len() - idx,
        {
            proof {
                crate::value::lemma_table_model_dom(cur@, cur@.len() as int);
            }
            match crate::value::find_key(cur, &parts[idx]) {
                None => {
                    proof {
                        assert(!cur_map.dom().contains(partviews.skip(idx as int)[0]));
                    }
                    return Ok(None);
                },
                Some(j) => {
                    proof {
                        crate::value::lemma_table_model_index(cur@, cur@.len() as int, j as int);
                        assert(cur_map[partviews.skip(idx as int)[0]] == cur@[j as int].1.model());
                    }
                    if idx == parts.len() - 1 {
                        return Ok(Some(cur[j].1.clone_value()));
                    }
                    proof {
                        assert(partviews.skip(idx as int).drop_first() =~= partviews.skip(idx + 1));
                    }
                    match &cur[j].1 {
                        ConfigValue::Table(sub, _) => {
                            cur = sub;
                            proof {
                                cur_map = ConfigValue::table_model(sub@);
                            }
                        },
                        other => {
                            let prefix = join_dotted(&parts, idx + 1);
                            let mut msg = String::from_str(
                                "expected table for configuration key `",
                            );
                            msg.append(prefix.as_str());
                            msg.append("`, but found ");
                            msg.append(other.desc());
                            msg.append(" in ");
                            msg.append(other.definition_path().as_str());
                            proof {
                                assert(partviews.take(idx + 1) =~= partviews.skip(0).take(idx + 1));
                            }
                            return Err(NianjiaError::msg(msg));
                        },
                    }
                },
            }
            idx += 1;
        }
        proof {
            assert(partviews.skip(partviews.len() as int) =~= Seq::<Seq<char>>::empty());
        }
        // A key always has at least one segment, so the loop above
        // returns before running out; an empty segment list resolves to
        // nothing being found.
        Ok(None)
    }
}

/// A lookup outcome seen from `add` levels further up: only a conflict's
/// depth shifts.
pub open spec fn lift_lookup(l: Lookup, add: int) -> Lookup {
    match l {
        Lookup::Conflict { depth, found } => Lookup::Conflict { depth: depth + add, found },
        other => other,
    }
}

/// Parses the text of a boolean, as an environment override is parsed.
pub fn parse_bool(s: &str) -> (r: Result<bool, ()>)
    ensures
        s@ == "true"@ ==> (r matches Ok(b) && b == true),
        s@ == "false"@ ==> (r matches Ok(b) && b == false),
        (s@ != "true"@ && s@ != "false"@) ==> r is Err,
{
    proof {
        reveal_strlit("true");
        reveal_strlit("false");
        assert("true"@.len() == 4);
        assert("false"@.len() == 5);
        assert("true"@ != "false"@);
    }
    let owned = s.to_owned();
    if owned == String::from_str("true") {
        Ok(true)
    } else if owned == String::from_str("false") {
        Ok(false)
    } else {
        Err(())
    }
}

/// What a typed lookup sees before typing: the environment override when
/// the variable is set, else the outcome in the merged tree.
pub enum AccessOutcome {
    /// The named environment variable is set to this raw text.
    Env(Seq<char>, Seq<char>),
    /// The merged tree holds this value for the key.
    Tree(CvModel),
    /// The key is set nowhere.
    Missing,
    /// Traversal met a non-table value in the tree.
    Conflict { depth: int, found: CvModel },
}

impl Config {
    /// Resolves a key: the environment outranks the merged tree.
    pub open spec fn access(self, parts: Seq<KeyPartModel>) -> AccessOutcome {
        match env_first(self.env@, env_key_of(parts)) {
            Some(raw) => AccessOutcome::Env(env_key_of(parts), raw),
            None => match lookup_parts(
                self.tree(),
                split_on_spec(config_key_of(parts), '.'),
            ) {
                Lookup::Found(v) => AccessOutcome::Tree(v),
                Lookup::Absent => AccessOutcome::Missing,
                Lookup::Conflict { depth, found } => AccessOutcome::Conflict { depth, found },
            },
        }
    }

    /// Resolves a key to a boolean: the environment variable, when set,
    /// must read `true` or `false`; otherwise the merged tree must hold a
    /// boolean under the key; a key set nowhere is not an error.
    pub fn get_bool_priv(&self, key: &ConfigKey) -> (r: Result<OptValue<bool>, ConfigError>)
        requires
            self.wf(),
            self.loaded(),
        ensures
            match self.access(key@) {
                AccessOutcome::Env(n, raw) => {
                    if raw == "true"@ || raw == "false"@ {
                        r matches Ok(ov) && ov matches Some(rv) && rv.val == (raw == "true"@)
                            && rv.definition@ == DefModel::Environment(n)
                    } else {
                        r matches Err(ce) && (ce.wf() && ce.definition is Some
                            && ce.definition->0@ == DefModel::Environment(n)
                            && ce.error.chain@.len() == 1 && ce.error.chain@[0]@
                            == "provided string was not `true` or `false`"@)
                    }
                },
                AccessOutcome::Tree(v) => match v {
                    CvModel::Boolean(b, p) => r matches Ok(ov) && ov matches Some(rv) && rv.val
                        == b && rv.definition@ == DefModel::Path(p),
                    other => r matches Err(ce) && (ce.wf() && ce.definition is Some
                        && ce.definition->0@ == DefModel::Path(other.src())
                        && ce.error.chain@.len() == 1 && ce.error.chain@[0]@ == expected_text(
                        config_key_of(key@),
                        "true/false"@,
                        other,
                    )),
                },
                AccessOutcome::Missing => r matches Ok(ov) && ov is None,
                AccessOutcome::Conflict { depth, found } => r matches Err(ce) && ce.wf()
                    && ce.definition is None && ce.error.chain@.len() == 1
                    && ce.error.chain@[0]@ == conflict_text(
                    split_on_spec(config_key_of(key@), '.'),
                    depth,
                    found,
                ),
            },
    {
        let env_name = key.to_env();
        match self.env_var(&env_name) {
            Some(raw) => match parse_bool(raw.as_str()) {
                Ok(b) => Ok(
                    Some(ResolvedValue { val: b, definition: Definition::Environment(env_name) }),
                ),
                Err(()) => Err(
                    ConfigError::new(
                        String::from_str("provided string was not `true` or `false`"),
                        Definition::Environment(env_name),
                    ),
                ),
            },
            None => {
                let config_key = key.to_config();
                match self.get_cv(config_key.as_str()) {
                    Err(e) => Err(ConfigError::from_error(e)),
                    Ok(None) => Ok(None),
                    Ok(Some(cv)) => match cv {
                        ConfigValue::Boolean(b, path) => Ok(
                            Some(ResolvedValue { val: b, definition: Definition::Path(path) }),
                        ),
                        other => Err(
                            ConfigError::expected(config_key.as_str(), "true/false", &other),
                        ),
                    },
                }
            },
        }
    }

    /// Resolves a dotted key to a boolean.
    pub fn get_bool(&self, key: &str) -> (r: Result<OptValue<bool>, ConfigError>)
        requires
            self.wf(),
            self.loaded(),
        ensures
            match self.access(
                split_on_spec(key@, '.').map_values(|p: Seq<char>| KeyPartModel::Part(p)),
            ) {
                AccessOutcome::Env(n, raw) => {
                    if raw == "true"@ || raw == "false"@ {
                        r matches Ok(ov) && ov matches Some(rv) && rv.val == (raw == "true"@)
                            && rv.definition@ == DefModel::Environment(n)
                    } else {
                        r matches Err(ce) && (ce.wf() && ce.definition is Some
                            && ce.definition->0@ == DefModel::Environment(n))
                    }
                },
                AccessOutcome::Tree(v) => match v {
                    CvModel::Boolean(b, p) => r matches Ok(ov) && ov matches Some(rv) && rv.val
                        == b && rv.definition@ == DefModel::Path(p),
                    other => r matches Err(ce) && (ce.wf() && ce.definition is Some
                        && ce.definition->0@ == DefModel::Path(other.src())),
                },
                AccessOutcome::Missing => r matches Ok(ov) && ov is None,
                AccessOutcome::Conflict { depth, found } => r matches Err(ce) && ce.wf()
                    && ce.definition is None,
            },
    {
        self.get_bool_priv(&ConfigKey::from_str(key))
    }

    /// Resolves a key to a string: the environment variable, when set, is
    /// taken as it stands; otherwise the merged tree must hold a string
    /// under the key; a key set nowhere is not an error.
    pub fn get_string_priv(&self, key: &ConfigKey) -> (r: Result<OptValue<String>, ConfigError>)
        requires
            self.wf(),
            self.loaded(),
        ensures
            match self.access(key@) {
                AccessOutcome::Env(n, raw) => r matches Ok(ov) && ov matches Some(rv) && rv.val@
                    == raw && rv.definition@ == DefModel::Environment(n),
                AccessOutcome::Tree(v) => match v {
                    CvModel::String(s, p) => r matches Ok(ov) && ov matches Some(rv) && rv.val@
                        == s && rv.definition@ == DefModel::Path(p),
                    other => r matches Err(ce) && (ce.wf() && ce.definition is Some
                        && ce.definition->0@ == DefModel::Path(other.src())
                        && ce.error.chain@.len() == 1 && ce.error.chain@[0]@ == expected_text(
                        config_key_of(key@),
                        "a string"@,
                        other,
                    )),
                },
                AccessOutcome::Missing => r matches Ok(ov) && ov is None,
                AccessOutcome::Conflict { depth, found } => r matches Err(ce) && ce.wf()
                    && ce.definition is None && ce.error.chain@.len() == 1
                    && ce.error.chain@[0]@ == conflict_text(
                    split_on_spec(config_key_of(key@), '.'),
                    depth,
                    found,
                ),
            },
    {
        let env_name = key.to_env();
        match self.env_var(&env_name) {
            Some(raw) => Ok(
                Some(ResolvedValue { val: raw, definition: Definition::Environment(env_name) }),
            ),
            None => {
                let config_key = key.to_config();
                match self.get_cv(config_key.as_str()) {
                    Err(e) => Err(ConfigError::from_error(e)),
                    Ok(None) => Ok(None),
                    Ok(Some(cv)) => match cv {
                        ConfigValue::String(s, path) => Ok(
                            Some(ResolvedValue { val: s, definition: Definition::Path(path) }),
                        ),
                        other => Err(
                            ConfigError::expected(config_key.as_str(), "a string", &other),
                        ),
                    },
                }
            },
        }
    }

    /// Resolves a dotted key to a string.
    pub fn get_string(&self, key: &str) -> (r: Result<OptValue<String>, ConfigError>)
        requires
            self.wf(),
            self.loaded(),
        ensures
            match self.access(
                split_on_spec(key@, '.').map_values(|p: Seq<char>| KeyPartModel::Part(p)),
            ) {
                AccessOutcome::Env(n, raw) => r matches Ok(ov) && ov matches Some(rv) && rv.val@
                    == raw && rv.definition@ == DefModel::Environment(n),
                AccessOutcome::Tree(v) => match v {
                    CvModel::String(s, p) => r matches Ok(ov) && ov matches Some(rv) && rv.val@
                        == s && rv.definition@ == DefModel::Path(p),
                    other => r matches Err(ce) && (ce.wf() && ce.definition is Some
                        && ce.definition->0@ == DefModel::Path(other.src())),
                },
                AccessOutcome::Missing => r matches Ok(ov) && ov is None,
                AccessOutcome::Conflict { depth, found } => r matches Err(ce) && ce.wf()
                    && ce.definition is None,
            },
    {
        self.get_string_priv(&ConfigKey::from_str(key))
    }

    /// Resolves a dotted key to a list.  The environment is deliberately
    /// not consulted here.
    pub fn get_list(&self, key: &str) -> (r: Result<
        OptValue<Vec<(String, String)>>,
        NianjiaError,
    >)
        requires
            self.wf(),
            self.loaded(),
        ensures
            match lookup_parts(self.tree(), split_on_spec(key@, '.')) {
                Lookup::Found(v) => match v {
                    CvModel::List(items, p) => r matches Ok(ov) && ov matches Some(rv)
                        && rv.val@.map_values(|it: (String, String)| (it.0@, it.1@)) == items
                        && rv.definition@ == DefModel::Path(p),
                    other => r matches Err(e) && e.wf() && !e.is_internal() && e.chain@.len() == 1
                        && e.chain@[0]@ == list_expected_text(key@, other),
                },
                Lookup::Absent => r matches Ok(ov) && ov is None,
                Lookup::Conflict { depth, found } => r matches Err(e) && e.wf()
                    && !e.is_internal() && e.chain@.len() == 1 && e.chain@[0]@ == conflict_text(
                    split_on_spec(key@, '.'),
                    depth,
                    found,
                ),
            },
    {
        match self.get_cv(key) {
            Err(e) => Err(e),
            Ok(None) => Ok(None),
            Ok(Some(cv)) => match cv {
                ConfigValue::List(items, path) => Ok(
                    Some(ResolvedValue { val: items, definition: Definition::Path(path) }),
                ),
                other => {
                    let inner = other.expected("list", key);
                    let mut msg = String::from_str("invalid configuration for key `");
                    msg.append(key);
                    msg.append("`\n");
                    msg.append(inner.chain[0].as_str());
                    Err(NianjiaError::msg(msg))
                },
            },
        }
    }
}

/// What one configuration file does to the accumulated tree: it fails
/// to parse, fails to convert, fails to merge, or merges to a new tree.
pub enum FileOutcome {
    /// All three grammars of the fallback ladder refuse the text.
    ParseFail,
    /// The document parses but holds a value the configuration rejects.
    ConvertFail,
    /// The converted value clashes in kind with the tree so far.
    MergeFail,
    /// The tree after the file is folded in.
    Merged(CvModel),
}

/// The empty root table every load starts from.
pub open spec fn load_root() -> CvModel {
    CvModel::Table(Map::empty(), "."@)
}

/// One file folded into the tree: the fallback ladder, the conversion
/// sourced at the file's path, then the merge.
pub open spec fn file_step(t: CvModel, path: Seq<char>, text: Seq<char>) -> FileOutcome {
    match ladder_doc(text) {
        None => FileOutcome::ParseFail,
        Some(doc) => if !toml_ok(doc) {
            FileOutcome::ConvertFail
        } else if !mergeable(t, toml_to_cv(doc, path)) {
            FileOutcome::MergeFail
        } else {
            FileOutcome::Merged(merged(t, toml_to_cv(doc, path)))
        },
    }
}

/// The tree after folding the first `cnt` files into `t`, nearest
/// first, or the first failing file's index and failure kind.
pub open spec fn fold_files(t: CvModel, files: Seq<(String, String)>, cnt: int) -> Result<
    CvModel,
    (int, FileOutcome),
>
    decreases cnt,
{
    if cnt <= 0 {
        Ok(t)
    } else {
        match fold_files(t, files, cnt - 1) {
            Err(e) => Err(e),
            Ok(acc) => match file_step(acc, files[cnt - 1].0@, files[cnt - 1].1@) {
                FileOutcome::Merged(next) => Ok(next),
                other => Err((cnt - 1, other)),
            },
        }
    }
}

/// The folded tree over the first `cnt` files, where the fold succeeds.
pub open spec fn fold_tree(files: Seq<(String, String)>, cnt: int) -> CvModel {
    match fold_files(load_root(), files, cnt) {
        Ok(t) => t,
        Err(_) => load_root(),
    }
}

/// A failed fold stays failed as more files follow: the first failure
/// decides.
pub proof fn lemma_fold_err_propagates(
    t: CvModel,
    files: Seq<(String, String)>,
    i: int,
    cnt: int,
)
    requires
        0 <= i <= cnt <= files.len(),
        fold_files(t, files, i) is Err,
    ensures
        fold_files(t, files, cnt) == fold_files(t, files, i),
    decreases cnt,
{
    if cnt > i {
        lemma_fold_err_propagates(t, files, i, cnt - 1);
    }
}

/// The credentials overlay applied to the folded tree: parse, convert,
/// migrate, then merge the tree into the credentials value.
pub open spec fn credentials_step(t: CvModel, path: Seq<char>, text: Seq<char>) -> FileOutcome {
    match ladder_doc(text) {
        None => FileOutcome::ParseFail,
        Some(doc) => if !toml_ok(doc) {
            FileOutcome::ConvertFail
        } else if !mergeable(cred_migrated(toml_to_cv(doc, path)), t) {
            FileOutcome::MergeFail
        } else {
            FileOutcome::Merged(merged(cred_migrated(toml_to_cv(doc, path)), t))
        },
    }
}

/// The deprecation warning one file owes: nothing, or the lenient
/// grammar's text naming the file.
pub open spec fn warning_texts_of(path: Seq<char>, text: Seq<char>) -> Seq<Seq<char>> {
    match ladder_warning(text) {
        None => Seq::empty(),
        Some(ParseWarning::MissingNewline) => seq![warning_newline_text(path)],
        Some(ParseWarning::DuplicateTable) => seq![warning_duplicate_text(path)],
    }
}

/// The deprecation warnings the first `cnt` files owe, in file order.
pub open spec fn warnings_of(files: Seq<(String, String)>, cnt: int) -> Seq<Seq<char>>
    decreases cnt,
{
    if cnt <= 0 {
        Seq::empty()
    } else {
        warnings_of(files, cnt - 1) + warning_texts_of(files[cnt - 1].0@, files[cnt - 1].1@)
    }
}

/// The context wrapped around a file that did not parse.
pub open spec fn parse_ctx(path: Seq<char>) -> Seq<char> {
    "could not parse TOML configuration in `"@ + path + "`"@
}

/// The context wrapped around a file whose document was rejected.
pub open spec fn load_ctx(path: Seq<char>) -> Seq<char> {
    "failed to load TOML configuration from `"@ + path + "`"@
}

/// The context wrapped around a file whose merge clashed.
pub open spec fn merge_ctx(path: Seq<char>) -> Seq<char> {
    "failed to merge configuration at `"@ + path + "`"@
}

/// The context a failure kind puts on the failing file.
pub open spec fn fail_ctx(kind: FileOutcome, path: Seq<char>) -> Seq<char> {
    match kind {
        FileOutcome::ParseFail => parse_ctx(path),
        FileOutcome::ConvertFail => load_ctx(path),
        FileOutcome::MergeFail => merge_ctx(path),
        FileOutcome::Merged(_) => Seq::empty(),
    }
}

/// The compatibility rewrite for a credentials table: a top-level
/// `token` moves under a synthesized `registry` table, unless a
/// `registry` entry already exists, in which case the bare `token` is
/// dropped and the existing entry is left alone.
pub open spec fn cred_migrated(c: CvModel) -> CvModel {
    match c {
        CvModel::Table(t, s) => {
            if t.dom().contains("token"@) {
                let tok = t["token"@];
                let removed = t.remove("token"@);
                if removed.dom().contains("registry"@) {
                    CvModel::Table(removed, s)
                } else {
                    CvModel::Table(
                        removed.insert(
                            "registry"@,
                            CvModel::Table(Map::empty().insert("token"@, tok), "."@),
                        ),
                        s,
                    )
                }
            } else {
                c
            }
        },
        _ => c,
    }
}

/// Applies the credentials compatibility rewrite to a parsed credentials
/// value.
pub fn migrate_credentials(cred: ConfigValue) -> (r: ConfigValue)
    requires
        cred.wf(),
    ensures
        r.wf(),
        r.model() == cred_migrated(cred.model()),
{
    match cred {
        ConfigValue::Table(entries, src) => {
            let ghost t = ConfigValue::table_model(entries@);
            proof {
                crate::value::lemma_table_model_dom(entries@, entries@.len() as int);
            }
            let mut entries = entries;
            let token_key = String::from_str("token");
            match crate::value::find_key(&entries, &token_key) {
                None => {
                    proof {
                        assert(!t.dom().contains("token"@));
                    }
                    ConfigValue::Table(entries, src)
                },
                Some(j) => {
                    proof {
                        crate::value::lemma_table_model_index(
                            entries@,
                            entries@.len() as int,
                            j as int,
                        );
                        crate::value::lemma_table_model_remove(entries@, j as int);
                    }
                    let ghost entries_before = entries@;
                    let pair = crate::value::remove_entry(&mut entries, j);
                    let tok = pair.1;
                    proof {
                        assert forall|a: int, b: int|
                            0 <= a < b < entries@.len() implies (#[trigger] entries@[a]).0@ != (
                        #[trigger] entries@[b]).0@ by {
                            let a0 = if a < j { a } else { a + 1 };
                            let b0 = if b < j { b } else { b + 1 };
                            assert(entries@[a] == entries_before[a0]);
                            assert(entries@[b] == entries_before[b0]);
                        }
                        assert forall|a: int| 0 <= a < entries@.len() implies (
                        #[trigger] entries@[a]).1.wf() by {
                            let a0 = if a < j { a } else { a + 1 };
                            assert(entries@[a] == entries_before[a0]);
                        }
                        crate::value::lemma_table_model_dom(entries@, entries@.len() as int);
                    }
                    let registry_key = String::from_str("registry");
                    match crate::value::find_key(&entries, &registry_key) {
                        Some(_) => {
                            proof {
                                assert(ConfigValue::table_model(entries@).dom().contains(
                                    "registry"@,
                                ));
                            }
                            ConfigValue::Table(entries, src)
                        },
                        None => {
                            proof {
                                assert(!ConfigValue::table_model(entries@).dom().contains(
                                    "registry"@,
                                ));
                            }
                            let mut regmap: Vec<(String, ConfigValue)> = Vec::new();
                            regmap.push((String::from_str("token"), tok));
                            let ghost regentries = regmap@;
                            let reg = ConfigValue::Table(regmap, String::from_str("."));
                            let ghost regm = reg.model();
                            let ghost before_push = entries@;
                            entries.push((registry_key, reg));
                            proof {
                                crate::value::lemma_table_model_congruence(
                                    entries@,
                                    before_push,
                                    before_push.len() as int,
                                );
                                assert(ConfigValue::table_model(entries@)
                                    == ConfigValue::table_model_upto(
                                    entries@,
                                    before_push.len() as int,
                                ).insert("registry"@, regm));
                                assert(regm->Table_0 =~= Map::empty().insert(
                                    "token"@,
                                    t["token"@],
                                )) by {
                                    reveal_with_fuel(ConfigValue::table_model_upto, 3);
                                    assert(regentries.len() == 1);
                                    assert(regentries[0].0@ == "token"@);
                                    assert(regentries[0].1.model() == t["token"@]);
                                    assert(regm->Table_0 == ConfigValue::table_model_upto(
                                        regentries,
                                        1,
                                    ));
                                    assert(ConfigValue::table_model_upto(regentries, 1)
                                        == ConfigValue::table_model_upto(regentries, 0).insert(
                                        regentries[0].0@,
                                        regentries[0].1.model(),
                                    ));
                                    assert(ConfigValue::table_model_upto(regentries, 0) =~= Map::<
                                        Seq<char>,
                                        CvModel,
                                    >::empty());
                                }
                                assert forall|a: int, b: int|
                                    0 <= a < b < entries@.len() implies (
                                #[trigger] entries@[a]).0@ != (#[trigger] entries@[b]).0@ by {
                                    if b < entries@.len() - 1 {
                                        assert(entries@[a] == before_push[a]);
                                        assert(entries@[b] == before_push[b]);
                                    } else {
                                        assert(entries@[a] == before_push[a]);
                                        assert(entries@[b].0@ == "registry"@);
                                    }
                                }
                                assert forall|a: int| 0 <= a < entries@.len() implies (
                                #[trigger] entries@[a]).1.wf() by {
                                    if a < entries@.len() - 1 {
                                        assert(entries@[a] == before_push[a]);
                                    } else {
                                        assert(entries@[a].1.model() == regm);
                                        assert(regentries.len() == 1);
                                        assert(entries@[a].1 is Table);
                                    }
                                }
                            }
                            ConfigValue::Table(entries, src)
                        },
                    }
                },
            }
        },
        other => other,
    }
}

impl Config {
    /// Overlays a parsed credentials value on the merged tree with
    /// inverted precedence: after the compatibility rewrite, the tree is
    /// merged into the credentials value, so credentials scalars override
    /// anything from directory or home configuration while tables and
    /// lists accumulate.
    pub fn apply_credentials(cfg: &mut ConfigValue, cred: ConfigValue) -> (r: Result<
        (),
        NianjiaError,
    >)
        requires
            old(cfg).wf(),
            cred.wf(),
        ensures
            r is Ok <==> mergeable(cred_migrated(cred.model()), old(cfg).model()),
            r is Ok ==> final(cfg).wf() && final(cfg).model() == merged(
                cred_migrated(cred.model()),
                old(cfg).model(),
            ),
            r matches Err(e) ==> (e.wf() && e.is_internal() && *final(cfg) == *old(cfg)
                && merge_err_chain(
                cred_migrated(cred.model()),
                old(cfg).model(),
                e.chain_text(),
            )),
    {
        let migrated = migrate_credentials(cred);
        let own = cfg.clone_value();
        match migrated.merged_with(own) {
            Ok(v) => {
                *cfg = v;
                Ok(())
            },
            Err(e) => Err(e),
        }
    }

    /// Folds the given configuration files, nearest first, into one
    /// merged tree, then overlays the credentials file, and caches the
    /// result.  The cached tree is exactly the fold the file texts call
    /// for; the first failing file decides the error and its context;
    /// and exactly the leniently parsed files' deprecation warnings are
    /// appended, in file order, for the caller's output sink.
    pub fn load_values(&mut self, files: &Vec<(String, String)>, credentials: &Option<
        (String, String),
    >) -> (r: Result<(), NianjiaError>)
        requires
            old(self).wf(),
        ensures
            final(self).wf(),
            final(self).cwd == old(self).cwd,
            final(self).env == old(self).env,
            final(self).home_path == old(self).home_path,
            final(self).verbosity == old(self).verbosity,
            final(self).color_choice == old(self).color_choice,
            r is Ok ==> final(self).loaded(),
            r is Err ==> final(self).values == old(self).values,
            r matches Err(e) ==> e.wf(),
            match fold_files(load_root(), files@, files@.len() as int) {
                Err((i, kind)) => r matches Err(e) && (e.chain@.len() >= 2 && e.chain_text()[0]
                    == "could not load Nianjia configuration"@ && e.chain_text()[1] == fail_ctx(
                    kind,
                    files@[i].0@,
                ) && (kind is ParseFail ==> (!e.is_internal() && e.chain@.len() == 4
                    && e.chain_text()[2] == "could not parse input as TOML"@ && e.chain_text()[3]
                    == strict_err_of(files@[i].1@))) && (kind is ConvertFail ==> (
                !e.is_internal() && from_toml_err_chain(
                    ladder_doc(files@[i].1@)->0,
                    e.chain_text().skip(2),
                ))) && (kind is MergeFail ==> (e.is_internal() && merge_err_chain(
                    fold_tree(files@, i),
                    toml_to_cv(ladder_doc(files@[i].1@)->0, files@[i].0@),
                    e.chain_text().skip(2),
                )))),
                Ok(t) => match credentials {
                    None => r is Ok && t is Table && final(self).tree() == t->Table_0,
                    Some(cred) => match credentials_step(t, cred.0@, cred.1@) {
                        FileOutcome::Merged(u) => r is Ok && u is Table && final(self).tree()
                            == u->Table_0,
                        FileOutcome::ParseFail => r matches Err(e) && (!e.is_internal()
                            && e.chain@.len() == 3 && e.chain_text()[0] == parse_ctx(cred.0@)
                            && e.chain_text()[1] == "could not parse input as TOML"@
                            && e.chain_text()[2] == strict_err_of(cred.1@)),
                        FileOutcome::ConvertFail => r matches Err(e) && (!e.is_internal()
                            && e.chain@.len() >= 1 && e.chain_text()[0] == load_ctx(cred.0@)
                            && from_toml_err_chain(
                            ladder_doc(cred.1@)->0,
                            e.chain_text().skip(1),
                        )),
                        FileOutcome::MergeFail => r matches Err(e) && (e.is_internal()
                            && merge_err_chain(
                            cred_migrated(toml_to_cv(ladder_doc(cred.1@)->0, cred.0@)),
                            t,
                            e.chain_text(),
                        )),
                    },
                },
            },
            final(self).warnings@.map_values(|m: String| m@) == old(self).warnings@.map_values(
                |m: String| m@,
            ) + (match fold_files(load_root(), files@, files@.len() as int) {
                Err((i, _)) => warnings_of(files@, i + 1),
                Ok(_) => warnings_of(files@, files@.len() as int) + (match credentials {
                    Some(cred) => warning_texts_of(cred.0@, cred.1@),
                    None => Seq::<Seq<char>>::empty(),
                }),
            }),
    {
        let mut cfg = ConfigValue::Table(Vec::new(), String::from_str("."));
        proof {
            assert(cfg.model()->Table_0 =~= load_root()->Table_0);
            assert(cfg.model() == load_root());
            assert(old(self).warnings@.map_values(|m: String| m@) + warnings_of(files@, 0)
                =~= old(self).warnings@.map_values(|m: String| m@));
        }
        let mut i: usize = 0;
        while i < files.len()
            invariant
                i <= files@.len(),
                cfg.wf(),
                cfg is Table,
                fold_files(load_root(), files@, i as int) == Ok::<CvModel, (int, FileOutcome)>(
                    cfg.model(),
                ),
                self.cwd == old(self).cwd,
                self.env == old(self).env,
                self.home_path == old(self).home_path,
                self.verbosity == old(self).verbosity,
                self.color_choice == old(self).color_choice,
                self.values == old(self).values,
                self.wf(),
                self.warnings@.map_values(|m: String| m@) == old(self).warnings@.map_values(
                    |m: String| m@,
                ) + warnings_of(files@, i as int),
            decreases files@.len() - i,
        {
            let path = &files[i].0;
            let contents = &files[i].1;
            let ghost fpath = files@[i as int].0@;
            let ghost ftext = files@[i as int].1@;
            let ghost acc = cfg.model();
            match crate::toml_compat::parse(contents.as_str()) {
                Err(e) => {
                    proof {
                        assert(file_step(acc, fpath, ftext) is ParseFail);
                        assert(fold_files(load_root(), files@, i + 1) == Err::<
                            CvModel,
                            (int, FileOutcome),
                        >((i as int, FileOutcome::ParseFail)));
                        lemma_fold_err_propagates(
                            load_root(),
                            files@,
                            i + 1,
                            files@.len() as int,
                        );
                        assert(warning_texts_of(fpath, ftext) =~= Seq::<Seq<char>>::empty());
                        assert(warnings_of(files@, i + 1) =~= warnings_of(files@, i as int));
                    }
                    let mut ctx = String::from_str("could not parse TOML configuration in `");
                    ctx.append(path.as_str());
                    ctx.append("`");
                    let ghost ctxv = ctx@;
                    let inner = e.context(ctx);
                    let wrapped = inner.context(
                        String::from_str("could not load Nianjia configuration"),
                    );
                    proof {
                        crate::errors::lemma_chain_after_two_contexts(
                            e,
                            inner,
                            wrapped,
                            ctxv,
                            "could not load Nianjia configuration"@,
                        );
                        assert(wrapped.chain_text()[2] == e.chain_text()[0]);
                        assert(wrapped.chain_text()[3] == e.chain_text()[1]);
                    }
                    return Err(wrapped);
                },
                Ok(parsed) => {
                    let (doc, warn) = parsed;
                    let ghost docm = doc@;
                    proof {
                        assert(ladder_doc(ftext) == Some(docm));
                    }
                    match warn {
                        Some(w) => {
                            let m = crate::toml_compat::warning_message(&w, path);
                            let ghost wbefore = self.warnings@;
                            self.warnings.push(m);
                            proof {
                                assert(self.warnings@.map_values(|mm: String| mm@)
                                    =~= wbefore.map_values(|mm: String| mm@) + seq![m@]);
                                assert(warning_texts_of(fpath, ftext) =~= seq![m@]);
                            }
                        },
                        None => {
                            proof {
                                assert(warning_texts_of(fpath, ftext) =~= Seq::<
                                    Seq<char>,
                                >::empty());
                            }
                        },
                    }
                    proof {
                        assert(self.warnings@.map_values(|mm: String| mm@) =~= old(
                            self,
                        ).warnings@.map_values(|mm: String| mm@) + warnings_of(files@, i + 1));
                    }
                    match ConfigValue::from_toml(path, &doc) {
                        Err(e) => {
                            proof {
                                assert(file_step(acc, fpath, ftext) is ConvertFail);
                                assert(fold_files(load_root(), files@, i + 1) == Err::<
                                    CvModel,
                                    (int, FileOutcome),
                                >((i as int, FileOutcome::ConvertFail)));
                                lemma_fold_err_propagates(
                                    load_root(),
                                    files@,
                                    i + 1,
                                    files@.len() as int,
                                );
                            }
                            let mut ctx = String::from_str(
                                "failed to load TOML configuration from `",
                            );
                            ctx.append(path.as_str());
                            ctx.append("`");
                            let ghost ctxv = ctx@;
                            let inner = e.context(ctx);
                            let wrapped = inner.context(
                                String::from_str("could not load Nianjia configuration"),
                            );
                            proof {
                                crate::errors::lemma_chain_after_two_contexts(
                                    e,
                                    inner,
                                    wrapped,
                                    ctxv,
                                    "could not load Nianjia configuration"@,
                                );
                                assert(wrapped.chain_text().skip(2) =~= e.chain_text());
                            }
                            return Err(wrapped);
                        },
                        Ok(value) => {
                            proof {
                                assert(value.model() == toml_to_cv(docm, fpath));
                            }
                            match cfg.merge(value) {
                                Err(e) => {
                                    proof {
                                        assert(file_step(acc, fpath, ftext) is MergeFail);
                                        assert(fold_files(load_root(), files@, i + 1) == Err::<
                                            CvModel,
                                            (int, FileOutcome),
                                        >((i as int, FileOutcome::MergeFail)));
                                        lemma_fold_err_propagates(
                                            load_root(),
                                            files@,
                                            i + 1,
                                            files@.len() as int,
                                        );
                                        assert(fold_tree(files@, i as int) == acc);
                                    }
                                    let mut ctx = String::from_str(
                                        "failed to merge configuration at `",
                                    );
                                    ctx.append(path.as_str());
                                    ctx.append("`");
                                    let ghost ctxv = ctx@;
                                    let inner = e.context(ctx);
                                    let wrapped = inner.context(
                                        String::from_str("could not load Nianjia configuration"),
                                    );
                                    proof {
                                        crate::errors::lemma_chain_after_two_contexts(
                                            e,
                                            inner,
                                            wrapped,
                                            ctxv,
                                            "could not load Nianjia configuration"@,
                                        );
                                        assert(wrapped.chain_text().skip(2) =~= e.chain_text());
                                    }
                                    return Err(wrapped);
                                },
                                Ok(()) => {
                                    proof {
                                        assert(file_step(acc, fpath, ftext)
                                            == FileOutcome::Merged(cfg.model()));
                                        assert(fold_files(load_root(), files@, i + 1) == Ok::<
                                            CvModel,
                                            (int, FileOutcome),
                                        >(cfg.model()));
                                        assert(cfg.model() is Table);
                                    }
                                },
                            }
                        },
                    }
                },
            }
            i += 1;
        }
        let ghost t = cfg.model();
        match credentials {
            Some(pair) => {
                let cpath = &pair.0;
                let ghost cpv = pair.0@;
                let ghost ctv = pair.1@;
                match crate::toml_compat::parse(pair.1.as_str()) {
                    Err(e) => {
                        proof {
                            assert(credentials_step(t, cpv, ctv) is ParseFail);
                            assert(warning_texts_of(cpv, ctv) =~= Seq::<Seq<char>>::empty());
                            assert(self.warnings@.map_values(|mm: String| mm@) =~= old(
                                self,
                            ).warnings@.map_values(|mm: String| mm@) + (warnings_of(
                                files@,
                                files@.len() as int,
                            ) + warning_texts_of(cpv, ctv)));
                        }
                        let mut ctx = String::from_str("could not parse TOML configuration in `");
                        ctx.append(cpath.as_str());
                        ctx.append("`");
                        let ghost ctxv = ctx@;
                        let wrapped = e.context(ctx);
                        proof {
                            crate::errors::lemma_chain_after_context(e, wrapped, ctxv);
                            assert(wrapped.chain_text()[1] == e.chain_text()[0]);
                            assert(wrapped.chain_text()[2] == e.chain_text()[1]);
                        }
                        return Err(wrapped);
                    },
                    Ok(parsed) => {
                        let (doc, warn) = parsed;
                        let ghost docm = doc@;
                        proof {
                            assert(ladder_doc(ctv) == Some(docm));
                        }
                        match warn {
                            Some(w) => {
                                let m = crate::toml_compat::warning_message(&w, cpath);
                                let ghost wbefore = self.warnings@;
                                self.warnings.push(m);
                                proof {
                                    assert(self.warnings@.map_values(|mm: String| mm@)
                                        =~= wbefore.map_values(|mm: String| mm@) + seq![m@]);
                                    assert(warning_texts_of(cpv, ctv) =~= seq![m@]);
                                }
                            },
                            None => {
                                proof {
                                    assert(warning_texts_of(cpv, ctv) =~= Seq::<
                                        Seq<char>,
                                    >::empty());
                                }
                            },
                        }
                        proof {
                            assert(self.warnings@.map_values(|mm: String| mm@) =~= old(
                                self,
                            ).warnings@.map_values(|mm: String| mm@) + (warnings_of(
                                files@,
                                files@.len() as int,
                            ) + warning_texts_of(cpv, ctv)));
                        }
                        match ConfigValue::from_toml(cpath, &doc) {
                            Err(e) => {
                                proof {
                                    assert(credentials_step(t, cpv, ctv) is ConvertFail);
                                }
                                let mut ctx = String::from_str(
                                    "failed to load TOML configuration from `",
                                );
                                ctx.append(cpath.as_str());
                                ctx.append("`");
                                let ghost ctxv = ctx@;
                                let wrapped = e.context(ctx);
                                proof {
                                    crate::errors::lemma_chain_after_context(e, wrapped, ctxv);
                                    assert(wrapped.chain_text().skip(1) =~= e.chain_text());
                                }
                                return Err(wrapped);
                            },
                            Ok(value) => {
                                proof {
                                    assert(value.model() == toml_to_cv(docm, cpv));
                                }
                                match Self::apply_credentials(&mut cfg, value) {
                                    Err(e) => {
                                        proof {
                                            assert(credentials_step(t, cpv, ctv) is MergeFail);
                                        }
                                        return Err(e);
                                    },
                                    Ok(()) => {
                                        proof {
                                            assert(credentials_step(t, cpv, ctv)
                                                == FileOutcome::Merged(cfg.model()));
                                            assert(cfg.model() is Table);
                                        }
                                    },
                                }
                            },
                        }
                    },
                }
            },
            None => {},
        }
        match cfg {
            ConfigValue::Table(entries, _) => {
                self.values = Some(entries);
                Ok(())
            },
            _ => vstd::pervasive::unreached(),
        }
    }
}

/// The verbosity the command line and configuration together call for:
/// the command line outranks the configuration, and `--quiet` outranks
/// a configured verbose.
pub open spec fn decided_verbosity(verbose: u32, cfg: Option<bool>, quiet: Option<bool>) -> Verbosity {
    if verbose >= 1 && quiet is None {
        Verbosity::Verbose
    } else if verbose == 0 && quiet == Some(true) {
        Verbosity::Quiet
    } else if verbose == 0 && quiet is None && cfg == Some(true) {
        Verbosity::Verbose
    } else {
        Verbosity::Normal
    }
}

/// The color choice a `--color` argument names, or nothing for an
/// argument that names none.
pub open spec fn decided_color(ec: Option<Seq<char>>) -> Option<ColorChoice> {
    match ec {
        None => Some(ColorChoice::NianjiaAuto),
        Some(c) => if c == "always"@ {
            Some(ColorChoice::Always)
        } else if c == "never"@ {
            Some(ColorChoice::Never)
        } else if c == "auto"@ {
            Some(ColorChoice::NianjiaAuto)
        } else {
            None
        },
    }
}

impl Config {
    /// The configured boolean under a key, taken as unset on any error,
    /// as `configure` reads it.
    pub open spec fn cfg_bool_opt(self, parts: Seq<KeyPartModel>) -> Option<bool> {
        match self.access(parts) {
            AccessOutcome::Env(_, raw) => if raw == "true"@ {
                Some(true)
            } else if raw == "false"@ {
                Some(false)
            } else {
                None
            },
            AccessOutcome::Tree(v) => match v {
                CvModel::Boolean(b, _) => Some(b),
                _ => None,
            },
            _ => None,
        }
    }

    /// The configured string under a key, taken as unset on any error,
    /// as `configure` reads it.
    pub open spec fn cfg_string_opt(self, parts: Seq<KeyPartModel>) -> Option<Seq<char>> {
        match self.access(parts) {
            AccessOutcome::Env(_, raw) => Some(raw),
            AccessOutcome::Tree(v) => match v {
                CvModel::String(s, _) => Some(s),
                _ => None,
            },
            _ => None,
        }
    }

    /// The color named on the command line, or failing that in the
    /// configuration.
    pub open spec fn effective_color(self, color: Option<Seq<char>>) -> Option<Seq<char>> {
        match color {
            Some(c) => Some(c),
            None => self.cfg_string_opt(
                split_on_spec("term.color"@, '.').map_values(|p: Seq<char>| KeyPartModel::Part(p)),
            ),
        }
    }

    /// Settles the output settings from the command line and the
    /// configuration: the command line outranks `term.verbose` and
    /// `term.color`, asking for both `--verbose` and `--quiet` is
    /// refused, and so is a color word other than auto, always or never.
    /// Errors in the configuration files themselves are ignored here.
    pub fn configure(
        &mut self,
        verbose: u32,
        quiet: Option<bool>,
        color: &Option<String>,
        frozen: bool,
        locked: bool,
        target_dir: &Option<String>,
        unstable_flags: &Vec<String>,
    ) -> (r: Result<(), NianjiaError>)
        requires
            old(self).wf(),
            old(self).loaded(),
        ensures
            final(self).values == old(self).values,
            final(self).cwd == old(self).cwd,
            final(self).env == old(self).env,
            final(self).home_path == old(self).home_path,
            final(self).warnings == old(self).warnings,
            ({
                let clash = verbose >= 1 && quiet == Some(true);
                let cfg_verbose = old(self).cfg_bool_opt(
                    split_on_spec("term.verbose"@, '.').map_values(
                        |p: Seq<char>| KeyPartModel::Part(p),
                    ),
                );
                let ec = old(self).effective_color(
                    match color {
                        Some(c) => Some(c@),
                        None => None,
                    },
                );
                &&& (clash ==> (r matches Err(e) && (e.wf() && !e.is_internal()
                    && e.chain@.len() == 1 && e.chain@[0]@
                    == "cannot set both --verbose and --quiet"@) && *final(self) == *old(self)))
                &&& (!clash ==> final(self).verbosity == decided_verbosity(
                    verbose,
                    cfg_verbose,
                    quiet,
                ))
                &&& (!clash ==> match decided_color(ec) {
                    Some(cc) => r is Ok && final(self).color_choice == cc,
                    None => r matches Err(e) && (e.wf() && !e.is_internal() && e.chain@.len() == 1
                        && e.chain@[0]@ == color_error_text(ec->0) && final(self).color_choice
                        == old(self).color_choice),
                })
            }),
    {
        let cfg_verbose: Option<bool> = match self.get_bool("term.verbose") {
            Ok(Some(v)) => Some(v.val),
            Ok(None) => None,
            Err(_) => None,
        };
        let cfg_color: Option<String> = match self.get_string("term.color") {
            Ok(Some(v)) => Some(v.val),
            Ok(None) => None,
            Err(_) => None,
        };
        let want_verbose = verbose >= 1;
        let quiet_true = match quiet {
            Some(q) => q,
            None => false,
        };
        let quiet_none = match quiet {
            Some(_) => false,
            None => true,
        };
        if want_verbose && quiet_true {
            return Err(
                NianjiaError::msg(String::from_str("cannot set both --verbose and --quiet")),
            );
        }
        let verbosity = if want_verbose && quiet_none {
            Verbosity::Verbose
        } else if !want_verbose && quiet_true {
            Verbosity::Quiet
        } else if !want_verbose && quiet_none && cfg_verbose == Some(true) {
            Verbosity::Verbose
        } else {
            Verbosity::Normal
        };
        self.verbosity = verbosity;
        let effective: Option<&String> = match color {
            Some(c) => Some(c),
            None => match &cfg_color {
                Some(c) => Some(c),
                None => None,
            },
        };
        match effective {
            None => {
                self.color_choice = ColorChoice::NianjiaAuto;
                Ok(())
            },
            Some(c) => {
                if *c == String::from_str("always") {
                    self.color_choice = ColorChoice::Always;
                    Ok(())
                } else if *c == String::from_str("never") {
                    self.color_choice = ColorChoice::Never;
                    Ok(())
                } else if *c == String::from_str("auto") {
                    self.color_choice = ColorChoice::NianjiaAuto;
                    Ok(())
                } else {
                    let mut msg = String::from_str(
                        "argument for --color must be auto, always, or never, but found `",
                    );
                    msg.append(c.as_str());
                    msg.append("`");
                    Err(NianjiaError::msg(msg))
                }
            },
        }
    }
}

/// The message for a color argument that names no color choice.
pub open spec fn color_error_text(arg: Seq<char>) -> Seq<char> {
    "argument for --color must be auto, always, or never, but found `"@ + arg + "`"@
}

/// The message for a key that should have held a list.
pub open spec fn list_expected_text(key: Seq<char>, found: CvModel) -> Seq<char> {
    "invalid configuration for key `"@ + key + "`\n"@ + crate::value::cv_expected_text(
        "list"@,
        key,
        found,
    )
}

} // verus!
