use vstd::prelude::*;

use crate::errors::NianjiaError;
use crate::toml_compat::{TomlValue, TomlModel, toml_ok, toml_unique_keys, lemma_items_model, lemma_entries_model};

verus! {

/// A typed configuration value, tagged with the path of the file it was
/// loaded from (its provenance).
#[derive(Debug)]
pub enum ConfigValue {
    Integer(i64, String),
    String(String, String),
    Boolean(bool, String),
    List(Vec<(String, String)>, String),
    Table(Vec<(String, ConfigValue)>, String),
}

/// The mathematical model of a `ConfigValue`: strings become sequences of
/// characters and a table becomes a map from key to model value.
pub enum CvModel {
    Integer(i64, Seq<char>),
    String(Seq<char>, Seq<char>),
    Boolean(bool, Seq<char>),
    List(Seq<(Seq<char>, Seq<char>)>, Seq<char>),
    Table(Map<Seq<char>, CvModel>, Seq<char>),
}

impl CvModel {
    /// The provenance recorded on this node.
    pub open spec fn src(self) -> Seq<char> {
        match self {
            CvModel::Integer(_, p) => p,
            CvModel::String(_, p) => p,
            CvModel::Boolean(_, p) => p,
            CvModel::List(_, p) => p,
            CvModel::Table(_, p) => p,
        }
    }

    /// Whether this node is a scalar, that is neither a list nor a table.
    pub open spec fn is_scalar(self) -> bool {
        match self {
            CvModel::Integer(..) => true,
            CvModel::String(..) => true,
            CvModel::Boolean(..) => true,
            CvModel::List(..) => false,
            CvModel::Table(..) => false,
        }
    }

    /// Every table in the tree has a finite key set.
    pub open spec fn wf(self) -> bool
        decreases self,
    {
        match self {
            CvModel::Table(t, _) => t.dom().finite() && forall|k: Seq<char>|
                t.dom().contains(k) ==> (#[trigger] t[k]).wf(),
            _ => true,
        }
    }
}

/// Whether merging `b` into `a` succeeds: lists only merge with lists,
/// tables only with tables (recursively on shared keys), and scalars
/// tolerate any other scalar.
pub open spec fn mergeable(a: CvModel, b: CvModel) -> bool
    decreases a,
{
    match (a, b) {
        (CvModel::List(..), CvModel::List(..)) => true,
        (CvModel::Table(m, _), CvModel::Table(n, _)) => forall|k: Seq<char>|
            m.dom().contains(k) && n.dom().contains(k) ==> mergeable(#[trigger] m[k], n[k]),
        (CvModel::List(..), _) => false,
        (CvModel::Table(..), _) => false,
        (_, CvModel::List(..)) => false,
        (_, CvModel::Table(..)) => false,
        _ => true,
    }
}

/// The result of merging `b` into `a`: lists concatenate, tables take the
/// union of their keys and merge shared keys recursively, and in every
/// other case `a` is kept unchanged.  Because configuration files are
/// folded in nearest first, keeping `a` is what makes scalars
/// nearest-wins.
pub open spec fn merged(a: CvModel, b: CvModel) -> CvModel
    decreases a,
{
    match (a, b) {
        (CvModel::List(x, s), CvModel::List(y, _)) => CvModel::List(x + y, s),
        (CvModel::Table(m, s), CvModel::Table(n, _)) => CvModel::Table(
            Map::new(
                |k: Seq<char>| m.dom().contains(k) || n.dom().contains(k),
                |k: Seq<char>|
                    if m.dom().contains(k) && n.dom().contains(k) {
                        merged(m[k], n[k])
                    } else if m.dom().contains(k) {
                        m[k]
                    } else {
                        n[k]
                    },
            ),
            s,
        ),
        _ => a,
    }
}

/// The key-by-key union of two table maps; keys present in both are
/// merged recursively.  This is the map inside `merged` of two tables.
pub open spec fn merged_tables(m: Map<Seq<char>, CvModel>, n: Map<Seq<char>, CvModel>) -> Map<
    Seq<char>,
    CvModel,
> {
    Map::new(
        |k: Seq<char>| m.dom().contains(k) || n.dom().contains(k),
        |k: Seq<char>|
            if m.dom().contains(k) && n.dom().contains(k) {
                merged(m[k], n[k])
            } else if m.dom().contains(k) {
                m[k]
            } else {
                n[k]
            },
    )
}

/// Merging two tables gives a table over `merged_tables`, keeping the
/// first operand's provenance.
pub proof fn lemma_merged_table(
    m: Map<Seq<char>, CvModel>,
    n: Map<Seq<char>, CvModel>,
    s1: Seq<char>,
    s2: Seq<char>,
)
    ensures
        merged(CvModel::Table(m, s1), CvModel::Table(n, s2)) == CvModel::Table(
            merged_tables(m, n),
            s1,
        ),
{
    assert(merged(CvModel::Table(m, s1), CvModel::Table(n, s2))->Table_0 =~= merged_tables(m, n));
}

/// The message for a value standing where another kind was asked for.
pub open spec fn cv_expected_text(wanted: Seq<char>, key: Seq<char>, found: CvModel) -> Seq<char> {
    "expected a "@ + wanted + ", but found a "@ + desc_of(found) + " for `"@ + key + "` in "@
        + found.src()
}

/// The context naming a key whose nested merge failed, with the two
/// files that defined it.
pub open spec fn merge_key_ctx(k: Seq<char>, src1: Seq<char>, src2: Seq<char>) -> Seq<char> {
    "failed to merge key `"@ + k + "` between files:\n  file 1: "@ + src1 + "\n  file 2: "@
        + src2
}

/// The type-conflict message for two values of incompatible kinds.
pub open spec fn mismatch_text(a: CvModel, b: CvModel) -> Seq<char> {
    "expected "@ + desc_of(a) + ", but found "@ + desc_of(b)
}

/// The shape of a merge error's message chain: one context for each key
/// walked into, ending in the type-conflict message of the two values
/// that clashed.  Which of several clashing keys is named is left open,
/// as a table has no entry order.
pub open spec fn merge_err_chain(a: CvModel, b: CvModel, chain: Seq<Seq<char>>) -> bool
    decreases a,
{
    if a is Table && b is Table {
        exists|k: Seq<char>|
            #![auto]
            a->Table_0.dom().contains(k) && b->Table_0.dom().contains(k) && !mergeable(
                a->Table_0[k],
                b->Table_0[k],
            ) && chain.len() >= 1 && chain[0] == merge_key_ctx(
                k,
                a->Table_0[k].src(),
                b->Table_0[k].src(),
            ) && merge_err_chain(a->Table_0[k], b->Table_0[k], chain.skip(1))
    } else {
        chain == seq![mismatch_text(a, b)]
    }
}

/// The kind of a raw TOML value, as the parser names it.
pub open spec fn toml_desc_of(t: TomlModel) -> Seq<char> {
    match t {
        TomlModel::String(..) => "string"@,
        TomlModel::Integer(..) => "integer"@,
        TomlModel::Boolean(..) => "boolean"@,
        TomlModel::Array(..) => "array"@,
        TomlModel::Table(..) => "table"@,
        TomlModel::Float => "float"@,
        TomlModel::Datetime => "datetime"@,
    }
}

/// The message for a TOML value of a kind the configuration cannot
/// represent.
pub open spec fn unknown_type_text(t: TomlModel) -> Seq<char> {
    "found TOML configuration value of unknown type `"@ + toml_desc_of(t) + "`"@
}

/// The message for a non-string element in a configuration list.
pub open spec fn list_elem_text(t: TomlModel) -> Seq<char> {
    "expected string but found "@ + toml_desc_of(t) + " in list"@
}

/// The context naming a table key whose value failed to convert.
pub open spec fn parse_key_ctx(k: Seq<char>) -> Seq<char> {
    "failed to parse key `"@ + k + "`"@
}

/// The shape of a conversion error's message chain: one context for each
/// table key walked into (always the first offending entry, in document
/// order), ending in the message for the first offending array element
/// or the unrepresentable kind.
pub open spec fn from_toml_err_chain(t: TomlModel, chain: Seq<Seq<char>>) -> bool
    decreases t,
{
    match t {
        TomlModel::Float => chain == seq![unknown_type_text(t)],
        TomlModel::Datetime => chain == seq![unknown_type_text(t)],
        TomlModel::Array(items) => exists|i: int|
            #![auto]
            0 <= i < items.len() && !(items[i] matches TomlModel::String(_)) && (forall|j: int|
                0 <= j < i ==> (#[trigger] items[j]) matches TomlModel::String(_)) && chain == seq![
                list_elem_text(items[i]),
            ],
        TomlModel::Table(entries) => exists|i: int|
            #![auto]
            0 <= i < entries.len() && !toml_ok(entries[i].1) && (forall|j: int|
                0 <= j < i ==> toml_ok((#[trigger] entries[j]).1)) && chain.len() >= 1 && chain[0]
                == parse_key_ctx(entries[i].0) && from_toml_err_chain(
                entries[i].1,
                chain.skip(1),
            ),
        _ => false,
    }
}

/// The kind of a model value, as error messages name it.
pub open spec fn desc_of(v: CvModel) -> Seq<char> {
    match v {
        CvModel::Table(..) => "table"@,
        CvModel::List(..) => "array"@,
        CvModel::String(..) => "string"@,
        CvModel::Boolean(..) => "boolean"@,
        CvModel::Integer(..) => "integer"@,
    }
}

/// The outcome of resolving a dotted key against a table tree.
pub enum Lookup {
    /// The final segment reached this value.
    Found(CvModel),
    /// Some segment was missing; the key is simply not set.
    Absent,
    /// After `depth` segments a non-table value was met while more
    /// segments remained.
    Conflict { depth: int, found: CvModel },
}

/// Resolves key segments against a table map, one level at a time.
pub open spec fn lookup_parts(t: Map<Seq<char>, CvModel>, parts: Seq<Seq<char>>) -> Lookup
    decreases parts.len(),
{
    if parts.len() == 0 {
        Lookup::Absent
    } else if !t.dom().contains(parts[0]) {
        Lookup::Absent
    } else if parts.len() == 1 {
        Lookup::Found(t[parts[0]])
    } else {
        match t[parts[0]] {
            CvModel::Table(sub, _) => match lookup_parts(sub, parts.drop_first()) {
                Lookup::Conflict { depth, found } => Lookup::Conflict { depth: depth + 1, found },
                other => other,
            },
            other => Lookup::Conflict { depth: 1, found: other },
        }
    }
}

/// Pairwise-distinct keys in a table's entry list.
pub open spec fn unique_keys(entries: Seq<(String, ConfigValue)>) -> bool {
    forall|i: int, j: int| 0 <= i < j < entries.len() ==> entries[i].0@ != entries[j].0@
}

/// The set of keys among the first `cnt` entries.
pub open spec fn keys_upto(entries: Seq<(String, ConfigValue)>, cnt: int) -> Set<Seq<char>> {
    Set::new(|k: Seq<char>| exists|i: int| 0 <= i < cnt && entries[i].0@ == k)
}

impl ConfigValue {
    /// The model of this value.
    pub open spec fn model(self) -> CvModel
        decreases self, 0int,
    {
        match self {
            ConfigValue::Integer(i, p) => CvModel::Integer(i, p@),
            ConfigValue::String(s, p) => CvModel::String(s@, p@),
            ConfigValue::Boolean(b, p) => CvModel::Boolean(b, p@),
            ConfigValue::List(items, p) => CvModel::List(
                items@.map_values(|it: (String, String)| (it.0@, it.1@)),
                p@,
            ),
            ConfigValue::Table(entries, p) => CvModel::Table(
                Self::table_model_upto(entries@, entries@.len() as int),
                p@,
            ),
        }
    }

    /// The map holding the first `cnt` entries of a table, later entries
    /// taking precedence over earlier ones with the same key.
    pub open spec fn table_model_upto(entries: Seq<(String, ConfigValue)>, cnt: int) -> Map<
        Seq<char>,
        CvModel,
    >
        decreases entries, cnt,
    {
        if cnt <= 0 || entries.len() < cnt {
            Map::empty()
        } else {
            Self::table_model_upto(entries, cnt - 1).insert(
                entries[cnt - 1].0@,
                entries[cnt - 1].1.model(),
            )
        }
    }

    /// The map a whole entry list stands for.
    pub open spec fn table_model(entries: Seq<(String, ConfigValue)>) -> Map<Seq<char>, CvModel> {
        Self::table_model_upto(entries, entries.len() as int)
    }

    /// Table keys are pairwise distinct, recursively.
    pub open spec fn wf(self) -> bool
        decreases self,
    {
        match self {
            ConfigValue::Table(entries, _) => unique_keys(entries@) && (forall|i: int|
                0 <= i < entries@.len() ==> (#[trigger] entries@[i]).1.wf()),
            _ => true,
        }
    }

    /// A short description of this value's kind, used in error messages.
    pub fn desc(&self) -> (r: &'static str)
        ensures
            r@ == desc_of(self.model()),
    {
        match self {
            ConfigValue::Table(..) => "table",
            ConfigValue::List(..) => "array",
            ConfigValue::String(..) => "string",
            ConfigValue::Boolean(..) => "boolean",
            ConfigValue::Integer(..) => "integer",
        }
    }

    /// The path of the file this value was defined in.
    pub fn definition_path(&self) -> (r: &String)
        ensures
            r@ == self.model().src(),
    {
        match self {
            ConfigValue::Boolean(_, p) => p,
            ConfigValue::Integer(_, p) => p,
            ConfigValue::String(_, p) => p,
            ConfigValue::List(_, p) => p,
            ConfigValue::Table(_, p) => p,
        }
    }

    /// A structural copy of this value.
    #[verifier::loop_isolation(false)]
    pub fn clone_value(&self) -> (r: ConfigValue)
        ensures
            r.model() == self.model(),
            self.wf() ==> r.wf(),
        decreases self,
    {
        match self {
            ConfigValue::Integer(i, p) => ConfigValue::Integer(*i, p.clone()),
            ConfigValue::String(s, p) => ConfigValue::String(s.clone(), p.clone()),
            ConfigValue::Boolean(b, p) => ConfigValue::Boolean(*b, p.clone()),
            ConfigValue::List(items, p) => {
                let mut out: Vec<(String, String)> = Vec::new();
                let mut i: usize = 0;
                while i < items.len()
                    invariant
                        i <= items.len(),
                        out@.len() == i as int,
                        forall|t: int|
                            0 <= t < i ==> out@[t].0@ == items@[t].0@ && out@[t].1@
                                == items@[t].1@,
                    decreases items.len() - i,
                {
                    out.push((items[i].0.clone(), items[i].1.clone()));
                    i += 1;
                }
                proof {
                    assert(out@.map_values(|it: (String, String)| (it.0@, it.1@))
                        =~= items@.map_values(|it: (String, String)| (it.0@, it.1@)));
                }
                ConfigValue::List(out, p.clone())
            },
            ConfigValue::Table(entries, p) => {
                let mut out: Vec<(String, ConfigValue)> = Vec::new();
                let mut i: usize = 0;
                while i < entries.len()
                    invariant
                        i <= entries.len(),
                        out@.len() == i as int,
                        forall|t: int|
                            0 <= t < i ==> (#[trigger] out@[t]).0@ == entries@[t].0@
                                && out@[t].1.model() == entries@[t].1.model() && (entries@[t].1.wf()
                                ==> out@[t].1.wf()),
                    decreases entries.len() - i,
                {
                    proof {
                        assert(decreases_to!(*self => *entries));
                        assert(decreases_to!(*entries => entries@[i as int]));
                    }
                    let cv = entries[i].1.clone_value();
                    out.push((entries[i].0.clone(), cv));
                    i += 1;
                }
                proof {
                    lemma_table_model_congruence(out@, entries@, entries@.len() as int);
                }
                ConfigValue::Table(out, p.clone())
            },
        }
    }
}

/// The index of the first entry with the given key, if any.
pub fn find_key(entries: &Vec<(String, ConfigValue)>, key: &String) -> (r: Option<usize>)
    ensures
        match r {
            Some(j) => j < entries@.len() && entries@[j as int].0@ == key@,
            None => forall|t: int| 0 <= t < entries@.len() ==> (#[trigger] entries@[t]).0@ != key@,
        },
{
    let mut j: usize = 0;
    while j < entries.len()
        invariant
            j <= entries@.len(),
            forall|t: int| 0 <= t < j ==> (#[trigger] entries@[t]).0@ != key@,
        decreases entries@.len() - j,
    {
        if entries[j].0 == *key {
            return Some(j);
        }
        j += 1;
    }
    None
}

/// The type-conflict error reported when two values of incompatible kinds
/// meet under the same key.
fn mismatch_err(adesc: &str, bdesc: &str) -> (r: NianjiaError)
    ensures
        r.wf(),
        r.is_internal(),
        r.chain@.len() == 1,
        r.chain@[0]@ == "expected "@ + adesc@ + ", but found "@ + bdesc@,
{
    let mut s = String::from_str("expected ");
    s.append(adesc);
    s.append(", but found ");
    s.append(bdesc);
    crate::errors::internal(s)
}

impl ConfigValue {
    /// Builds the merge of `from` into `self` without modifying either:
    /// lists concatenate, tables union their keys and merge shared keys
    /// recursively, a scalar keeps `self`'s value whatever scalar arrives,
    /// and any other pairing of kinds is a type-conflict error.
    #[verifier::loop_isolation(false)]
    pub fn merged_with(&self, from: ConfigValue) -> (r: Result<ConfigValue, NianjiaError>)
        requires
            self.wf(),
            from.wf(),
        ensures
            r is Ok <==> mergeable(self.model(), from.model()),
            r matches Ok(v) ==> v.wf() && v.model() == merged(self.model(), from.model()),
            r matches Err(e) ==> (e.wf() && e.is_internal() && merge_err_chain(
                self.model(),
                from.model(),
                e.chain_text(),
            )),
        decreases self,
    {
        let ghost from0 = from;
        let adesc = self.desc();
        let bdesc = from.desc();
        match from {
            ConfigValue::List(y, _) => match self {
                ConfigValue::List(x, s) => {
                    let mut out: Vec<(String, String)> = Vec::new();
                    let mut i: usize = 0;
                    while i < x.len()
                        invariant
                            i <= x@.len(),
                            out@.len() == i as int,
                            forall|t: int|
                                0 <= t < i ==> (#[trigger] out@[t]).0@ == x@[t].0@ && out@[t].1@
                                    == x@[t].1@,
                        decreases x@.len() - i,
                    {
                        out.push((x[i].0.clone(), x[i].1.clone()));
                        i += 1;
                    }
                    let mut tail = y;
                    out.append(&mut tail);
                    proof {
                        let f = |it: (String, String)| (it.0@, it.1@);
                        assert(out@.map_values(f) =~= x@.map_values(f) + from0->List_0@.map_values(
                            f,
                        ));
                    }
                    Ok(ConfigValue::List(out, s.clone()))
                },
                _ => {
                    let e = mismatch_err(adesc, bdesc);
                    proof {
                        assert(e.chain_text() =~= seq![mismatch_text(self.model(), from0.model())]);
                    }
                    Err(e)
                },
            },
            ConfigValue::Table(n, _) => match self {
                ConfigValue::Table(m, s) => {
                    let ghost am = ConfigValue::table_model(m@);
                    let ghost bm = ConfigValue::table_model(n@);
                    proof {
                        lemma_table_model_dom(m@, m@.len() as int);
                        lemma_table_model_dom(n@, n@.len() as int);
                        assert(ConfigValue::table_model(n@) =~= bm.remove_keys(
                            keys_upto(m@, 0),
                        ));
                    }
                    let mut rest = n;
                    let mut out: Vec<(String, ConfigValue)> = Vec::new();
                    let mut i: usize = 0;
                    while i < m.len()
                        invariant
                            i <= m@.len(),
                            out@.len() == i as int,
                            forall|t: int| 0 <= t < i ==> (#[trigger] out@[t]).0@ == m@[t].0@,
                            forall|t: int| 0 <= t < i ==> (#[trigger] out@[t]).1.wf(),
                            forall|t: int|
                                0 <= t < i ==> (#[trigger] out@[t]).1.model() == (
                                if bm.dom().contains(m@[t].0@) {
                                    merged(am[m@[t].0@], bm[m@[t].0@])
                                } else {
                                    am[m@[t].0@]
                                }),
                            forall|t: int|
                                0 <= t < i && bm.dom().contains(#[trigger] m@[t].0@) ==> mergeable(
                                    am[m@[t].0@],
                                    bm[m@[t].0@],
                                ),
                            unique_keys(rest@),
                            forall|t: int| 0 <= t < rest@.len() ==> (#[trigger] rest@[t]).1.wf(),
                            ConfigValue::table_model(rest@) == bm.remove_keys(
                                keys_upto(m@, i as int),
                            ),
                        decreases m@.len() - i,
                    {
                        proof {
                            assert(decreases_to!(*self => *m));
                            assert(decreases_to!(*m => m@[i as int]));
                            lemma_table_model_index(m@, m@.len() as int, i as int);
                            lemma_table_model_dom(rest@, rest@.len() as int);
                        }
                        let ghost k = m@[i as int].0@;
                        let ghost rest_before = rest@;
                        match find_key(&rest, &m[i].0) {
                            Some(j) => {
                                proof {
                                    lemma_table_model_index(rest@, rest@.len() as int, j as int);
                                    lemma_table_model_remove(rest@, j as int);
                                    assert(bm.dom().contains(k));
                                    assert(bm[k] == rest@[j as int].1.model());
                                }
                                let p2 = rest[j].1.definition_path().clone();
                                let (bk, bv) = remove_entry(&mut rest, j);
                                proof {
                                    assert forall|t: int, u: int|
                                        0 <= t < u < rest@.len() implies (#[trigger] rest@[t]).0@
                                        != (#[trigger] rest@[u]).0@ by {
                                        let t0 = if t < j { t } else { t + 1 };
                                        let u0 = if u < j { u } else { u + 1 };
                                        assert(rest@[t] == rest_before[t0]);
                                        assert(rest@[u] == rest_before[u0]);
                                    }
                                    assert forall|t: int| 0 <= t < rest@.len() implies (
                                    #[trigger] rest@[t]).1.wf() by {
                                        let t0 = if t < j { t } else { t + 1 };
                                        assert(rest@[t] == rest_before[t0]);
                                    }
                                    assert(ConfigValue::table_model(rest@) =~= bm.remove_keys(
                                        keys_upto(m@, i + 1),
                                    ));
                                }
                                match m[i].1.merged_with(bv) {
                                    Ok(v) => {
                                        out.push((bk, v));
                                    },
                                    Err(e) => {
                                        let mut msg = String::from_str("failed to merge key `");
                                        msg.append(m[i].0.as_str());
                                        msg.append("` between files:\n  file 1: ");
                                        msg.append(m[i].1.definition_path().as_str());
                                        msg.append("\n  file 2: ");
                                        msg.append(p2.as_str());
                                        let wrapped = e.context(msg);
                                        proof {
                                            assert(am.dom().contains(k) && bm.dom().contains(k)
                                                && !mergeable(am[k], bm[k]));
                                            assert(!mergeable(self.model(), from0.model()));
                                            assert(wrapped.chain_text().skip(1)
                                                =~= e.chain_text());
                                            assert(wrapped.chain_text()[0] == merge_key_ctx(
                                                k,
                                                am[k].src(),
                                                bm[k].src(),
                                            ));
                                            assert(merge_err_chain(
                                                self.model(),
                                                from0.model(),
                                                wrapped.chain_text(),
                                            ));
                                        }
                                        return Err(wrapped);
                                    },
                                }
                            },
                            None => {
                                proof {
                                    assert(!ConfigValue::table_model(rest@).dom().contains(k));
                                    assert(!keys_upto(m@, i as int).contains(k));
                                    assert(!bm.dom().contains(k));
                                    assert(ConfigValue::table_model(rest@) =~= bm.remove_keys(
                                        keys_upto(m@, i + 1),
                                    ));
                                }
                                let cv = m[i].1.clone_value();
                                out.push((m[i].0.clone(), cv));
                            },
                        }
                        i += 1;
                    }
                    let ghost o_part = out@;
                    let ghost r_part = rest@;
                    out.append(&mut rest);
                    proof {
                        lemma_merged_table(am, bm, s@, from0.model().src());
                        lemma_table_model_dom(r_part, r_part.len() as int);
                        lemma_table_model_dom(out@, out@.len() as int);
                        assert forall|t: int, u: int|
                            0 <= t < u < out@.len() implies (#[trigger] out@[t]).0@ != (
                        #[trigger] out@[u]).0@ by {
                            if u >= o_part.len() {
                                assert(ConfigValue::table_model(r_part).dom().contains(
                                    r_part[u - o_part.len()].0@,
                                ));
                                if t < o_part.len() {
                                    assert(keys_upto(m@, m@.len() as int).contains(out@[t].0@));
                                }
                            }
                        }
                        assert forall|kk: Seq<char>|
                            ConfigValue::table_model(out@).dom().contains(kk) implies
                            ConfigValue::table_model(out@)[kk] == merged_tables(am, bm)[kk] by {
                            let t = choose|t: int|
                                0 <= t < out@.len() && (#[trigger] out@[t]).0@ == kk;
                            assert forall|u: int| t < u < out@.len() implies (
                            #[trigger] out@[u]).0@ != kk by {}
                            lemma_table_model_index(out@, out@.len() as int, t);
                            if t < o_part.len() {
                                assert(am.dom().contains(kk)) by {
                                    assert(m@[t].0@ == kk);
                                }
                            } else {
                                lemma_table_model_index(r_part, r_part.len() as int, t
                                    - o_part.len());
                                assert(ConfigValue::table_model(r_part).dom().contains(kk));
                                assert(!am.dom().contains(kk));
                                assert(ConfigValue::table_model(r_part)[kk] == bm[kk]);
                            }
                        }
                        assert(ConfigValue::table_model(out@).dom() =~= merged_tables(
                            am,
                            bm,
                        ).dom()) by {
                            assert forall|kk: Seq<char>|
                                ConfigValue::table_model(out@).dom().contains(kk) implies
                                merged_tables(am, bm).dom().contains(kk) by {
                                let t = choose|t: int|
                                    0 <= t < out@.len() && (#[trigger] out@[t]).0@ == kk;
                                if t < o_part.len() {
                                    assert(m@[t].0@ == kk);
                                } else {
                                    assert(r_part[t - o_part.len()].0@ == kk);
                                    assert(ConfigValue::table_model(r_part).dom().contains(kk));
                                }
                            }
                            assert forall|kk: Seq<char>|
                                merged_tables(am, bm).dom().contains(kk) implies
                                ConfigValue::table_model(out@).dom().contains(kk) by {
                                if am.dom().contains(kk) {
                                    let t = choose|t: int|
                                        0 <= t < m@.len() && (#[trigger] m@[t]).0@ == kk;
                                    assert(out@[t].0@ == kk);
                                } else {
                                    assert(ConfigValue::table_model(r_part).dom().contains(kk));
                                    let u = choose|u: int|
                                        0 <= u < r_part.len() && (#[trigger] r_part[u]).0@ == kk;
                                    assert(out@[o_part.len() + u].0@ == kk);
                                }
                            }
                        }
                        assert(ConfigValue::table_model(out@) =~= merged_tables(am, bm));
                        assert forall|kk: Seq<char>|
                            am.dom().contains(kk) && bm.dom().contains(kk) implies mergeable(
                            #[trigger] am[kk],
                            bm[kk],
                        ) by {
                            let t = choose|t: int| 0 <= t < m@.len() && (#[trigger] m@[t]).0@ == kk;
                        }
                        assert(mergeable(self.model(), from0.model()));
                    }
                    Ok(ConfigValue::Table(out, s.clone()))
                },
                _ => {
                    let e = mismatch_err(adesc, bdesc);
                    proof {
                        assert(e.chain_text() =~= seq![mismatch_text(self.model(), from0.model())]);
                    }
                    Err(e)
                },
            },
            _ => match self {
                ConfigValue::List(..) => {
                    let e = mismatch_err(adesc, bdesc);
                    proof {
                        assert(e.chain_text() =~= seq![mismatch_text(self.model(), from0.model())]);
                    }
                    Err(e)
                },
                ConfigValue::Table(..) => {
                    let e = mismatch_err(adesc, bdesc);
                    proof {
                        assert(e.chain_text() =~= seq![mismatch_text(self.model(), from0.model())]);
                    }
                    Err(e)
                },
                _ => Ok(self.clone_value()),
            },
        }
    }

    /// The error for this value standing where a `wanted` kind was
    /// asked for under `key`.
    pub fn expected(&self, wanted: &str, key: &str) -> (r: NianjiaError)
        ensures
            r.wf(),
            !r.is_internal(),
            r.chain@.len() == 1,
            r.chain@[0]@ == cv_expected_text(wanted@, key@, self.model()),
    {
        let mut msg = String::from_str("expected a ");
        msg.append(wanted);
        msg.append(", but found a ");
        msg.append(self.desc());
        msg.append(" for `");
        msg.append(key);
        msg.append("` in ");
        msg.append(self.definition_path().as_str());
        NianjiaError::msg(msg)
    }

    /// Merges `from` into `self` in place; on a type conflict `self` is
    /// left unchanged and the error is returned.
    pub fn merge(&mut self, from: ConfigValue) -> (r: Result<(), NianjiaError>)
        requires
            old(self).wf(),
            from.wf(),
        ensures
            r is Ok <==> mergeable(old(self).model(), from.model()),
            r is Ok ==> final(self).wf() && final(self).model() == merged(
                old(self).model(),
                from.model(),
            ),
            r matches Err(e) ==> (*final(self) == *old(self) && e.wf() && e.is_internal()
                && merge_err_chain(old(self).model(), from.model(), e.chain_text())),
    {
        match self.merged_with(from) {
            Ok(v) => {
                *self = v;
                Ok(())
            },
            Err(e) => Err(e),
        }
    }
}

/// Removes and returns the entry at `j`.
pub(crate) fn remove_entry(entries: &mut Vec<(String, ConfigValue)>, j: usize) -> (r: (
    String,
    ConfigValue,
))
    requires
        j < old(entries)@.len(),
    ensures
        r == old(entries)@[j as int],
        final(entries)@ == old(entries)@.remove(j as int),
{
    entries.remove(j)
}

/// The configuration value a raw TOML value stands for, every node
/// sourced at `path`.  Only meaningful where `toml_ok` holds.
pub open spec fn toml_to_cv(t: TomlModel, path: Seq<char>) -> CvModel
    decreases t, 0int,
{
    match t {
        TomlModel::String(s) => CvModel::String(s, path),
        TomlModel::Integer(i) => CvModel::Integer(i, path),
        TomlModel::Boolean(b) => CvModel::Boolean(b, path),
        TomlModel::Array(items) => CvModel::List(
            items.map_values(|x: TomlModel| (x->String_0, path)),
            path,
        ),
        TomlModel::Table(entries) => CvModel::Table(
            cv_table_of(entries, entries.len() as int, path),
            path,
        ),
        TomlModel::Float => vstd::pervasive::arbitrary(),
        TomlModel::Datetime => vstd::pervasive::arbitrary(),
    }
}

/// The table map of the first `cnt` raw TOML entries, each value
/// converted and sourced at `path`.
pub open spec fn cv_table_of(entries: Seq<(Seq<char>, TomlModel)>, cnt: int, path: Seq<char>) -> Map<
    Seq<char>,
    CvModel,
>
    decreases entries, cnt,
{
    if cnt <= 0 || entries.len() < cnt {
        Map::empty()
    } else {
        cv_table_of(entries, cnt - 1, path).insert(
            entries[cnt - 1].0,
            toml_to_cv(entries[cnt - 1].1, path),
        )
    }
}

/// Entry lists whose keys and converted models agree pairwise below `cnt`
/// give the same table map.
pub proof fn lemma_from_toml_table(
    built: Seq<(String, ConfigValue)>,
    em: Seq<(Seq<char>, TomlModel)>,
    cnt: int,
    path: Seq<char>,
)
    requires
        cnt <= built.len(),
        cnt <= em.len(),
        forall|t: int|
            0 <= t < cnt ==> (#[trigger] built[t]).0@ == em[t].0 && built[t].1.model()
                == toml_to_cv(em[t].1, path),
    ensures
        ConfigValue::table_model_upto(built, cnt) == cv_table_of(em, cnt, path),
    decreases cnt,
{
    if cnt > 0 {
        lemma_from_toml_table(built, em, cnt - 1, path);
    }
}

impl ConfigValue {
    /// Converts a raw TOML document into a configuration value whose
    /// every node carries `path` as its provenance.  Arrays must hold
    /// strings only, and floats and datetimes are of unknown type to the
    /// configuration; both are rejected.
    #[verifier::loop_isolation(false)]
    pub fn from_toml(path: &String, toml: &TomlValue) -> (r: Result<ConfigValue, NianjiaError>)
        requires
            toml_unique_keys(toml@),
        ensures
            r is Ok <==> toml_ok(toml@),
            r matches Ok(v) ==> v.wf() && v.model() == toml_to_cv(toml@, path@),
            r matches Err(e) ==> (e.wf() && !e.is_internal() && from_toml_err_chain(
                toml@,
                e.chain_text(),
            )),
        decreases toml,
    {
        match toml {
            TomlValue::String(s) => Ok(ConfigValue::String(s.clone(), path.clone())),
            TomlValue::Boolean(b) => Ok(ConfigValue::Boolean(*b, path.clone())),
            TomlValue::Integer(i) => Ok(ConfigValue::Integer(*i, path.clone())),
            TomlValue::Array(items) => {
                let ghost im = TomlValue::items_model_upto(items@, items@.len() as int);
                proof {
                    lemma_items_model(items@, items@.len() as int);
                }
                let mut out: Vec<(String, String)> = Vec::new();
                let mut i: usize = 0;
                while i < items.len()
                    invariant
                        i <= items@.len(),
                        out@.len() == i as int,
                        forall|t: int| 0 <= t < i ==> (#[trigger] im[t]) matches TomlModel::String(_),
                        forall|t: int|
                            0 <= t < i ==> (#[trigger] out@[t]).0@ == im[t]->String_0
                                && out@[t].1@ == path@,
                    decreases items@.len() - i,
                {
                    match &items[i] {
                        TomlValue::String(s) => {
                            out.push((s.clone(), path.clone()));
                        },
                        other => {
                            let mut msg = String::from_str("expected string but found ");
                            msg.append(other.type_str());
                            msg.append(" in list");
                            let e = NianjiaError::msg(msg);
                            proof {
                                assert(!(im[i as int] matches TomlModel::String(_)));
                                assert(e.chain_text() =~= seq![list_elem_text(im[i as int])]);
                            }
                            return Err(e);
                        },
                    }
                    i += 1;
                }
                proof {
                    assert(out@.map_values(|it: (String, String)| (it.0@, it.1@)) =~= im.map_values(
                        |x: TomlModel| (x->String_0, path@),
                    ));
                }
                Ok(ConfigValue::List(out, path.clone()))
            },
            TomlValue::Table(entries) => {
                let ghost em = TomlValue::entries_model_upto(entries@, entries@.len() as int);
                proof {
                    lemma_entries_model(entries@, entries@.len() as int);
                }
                let mut out: Vec<(String, ConfigValue)> = Vec::new();
                let mut i: usize = 0;
                while i < entries.len()
                    invariant
                        i <= entries@.len(),
                        out@.len() == i as int,
                        forall|t: int| 0 <= t < i ==> toml_ok((#[trigger] em[t]).1),
                        forall|t: int|
                            0 <= t < i ==> (#[trigger] out@[t]).0@ == em[t].0 && out@[t].1.wf()
                                && out@[t].1.model() == toml_to_cv(em[t].1, path@),
                    decreases entries@.len() - i,
                {
                    proof {
                        assert(decreases_to!(*toml => *entries));
                        assert(decreases_to!(*entries => entries@[i as int]));
                    }
                    match Self::from_toml(path, &entries[i].1) {
                        Ok(v) => {
                            out.push((entries[i].0.clone(), v));
                        },
                        Err(e) => {
                            let mut msg = String::from_str("failed to parse key `");
                            msg.append(entries[i].0.as_str());
                            msg.append("`");
                            let wrapped = e.context(msg);
                            proof {
                                assert(!toml_ok((em[i as int]).1));
                                assert(wrapped.chain_text().skip(1) =~= e.chain_text());
                                assert(wrapped.chain_text()[0] == parse_key_ctx(em[i as int].0));
                            }
                            return Err(wrapped);
                        },
                    }
                    i += 1;
                }
                proof {
                    lemma_from_toml_table(out@, em, em.len() as int, path@);
                    assert forall|t: int, u: int|
                        0 <= t < u < out@.len() implies (#[trigger] out@[t]).0@ != (
                    #[trigger] out@[u]).0@ by {
                        assert(em[t].0 != em[u].0);
                    }
                }
                Ok(ConfigValue::Table(out, path.clone()))
            },
            TomlValue::Float => {
                let mut msg = String::from_str("found TOML configuration value of unknown type `");
                msg.append(toml.type_str());
                msg.append("`");
                let e = NianjiaError::msg(msg);
                proof {
                    assert(e.chain_text() =~= seq![unknown_type_text(toml@)]);
                }
                Err(e)
            },
            TomlValue::Datetime => {
                let mut msg = String::from_str("found TOML configuration value of unknown type `");
                msg.append(toml.type_str());
                msg.append("`");
                let e = NianjiaError::msg(msg);
                proof {
                    assert(e.chain_text() =~= seq![unknown_type_text(toml@)]);
                }
                Err(e)
            },
        }
    }
}

/// Two entry lists that agree, pairwise below `cnt`, on key text and model
/// give the same partial table map.
pub proof fn lemma_table_model_congruence(
    e1: Seq<(String, ConfigValue)>,
    e2: Seq<(String, ConfigValue)>,
    cnt: int,
)
    requires
        cnt <= e1.len(),
        cnt <= e2.len(),
        forall|i: int|
            0 <= i < cnt ==> (#[trigger] e1[i]).0@ == e2[i].0@ && e1[i].1.model()
                == e2[i].1.model(),
    ensures
        ConfigValue::table_model_upto(e1, cnt) == ConfigValue::table_model_upto(e2, cnt),
    decreases cnt,
{
    if cnt > 0 {
        lemma_table_model_congruence(e1, e2, cnt - 1);
    }
}

/// The keys of a partial table map are exactly the keys of the entries it
/// was built from, and the map is finite.
pub proof fn lemma_table_model_dom(e: Seq<(String, ConfigValue)>, cnt: int)
    requires
        cnt <= e.len(),
    ensures
        ConfigValue::table_model_upto(e, cnt).dom() =~= keys_upto(e, cnt),
        ConfigValue::table_model_upto(e, cnt).dom().finite(),
    decreases cnt,
{
    if cnt > 0 {
        lemma_table_model_dom(e, cnt - 1);
    }
}

/// When entry `i` holds the last occurrence of its key below `cnt`, the
/// partial table map sends that key to that entry's value.
pub proof fn lemma_table_model_index(e: Seq<(String, ConfigValue)>, cnt: int, i: int)
    requires
        0 <= i < cnt <= e.len(),
        forall|j: int| i < j < cnt ==> (#[trigger] e[j]).0@ != e[i].0@,
    ensures
        ConfigValue::table_model_upto(e, cnt).dom().contains(e[i].0@),
        ConfigValue::table_model_upto(e, cnt)[e[i].0@] == e[i].1.model(),
    decreases cnt,
{
    if i < cnt - 1 {
        lemma_table_model_index(e, cnt - 1, i);
    }
}

/// Removing an entry of a uniquely-keyed list removes exactly its key from
/// the table map.
pub proof fn lemma_table_model_remove(e: Seq<(String, ConfigValue)>, j: int)
    requires
        unique_keys(e),
        0 <= j < e.len(),
    ensures
        ConfigValue::table_model(e.remove(j)) =~= ConfigValue::table_model(e).remove(e[j].0@),
{
    let er = e.remove(j);
    lemma_table_model_dom(e, e.len() as int);
    lemma_table_model_dom(er, er.len() as int);
    assert forall|k: Seq<char>|
        ConfigValue::table_model(er).dom().contains(k)
            <==> ConfigValue::table_model(e).remove(e[j].0@).dom().contains(k) by {
        if exists|t: int| 0 <= t < er.len() && er[t].0@ == k {
            let t = choose|t: int| 0 <= t < er.len() && er[t].0@ == k;
            let orig = if t < j {
                t
            } else {
                t + 1
            };
            assert(e[orig].0@ == k);
        }
        if k != e[j].0@ && exists|t: int| 0 <= t < e.len() && e[t].0@ == k {
            let t = choose|t: int| 0 <= t < e.len() && e[t].0@ == k;
            let nw = if t < j {
                t
            } else {
                t - 1
            };
            assert(er[nw].0@ == k);
        }
    };
    assert forall|k: Seq<char>| ConfigValue::table_model(er).dom().contains(k) implies
        ConfigValue::table_model(er)[k] == ConfigValue::table_model(e)[k] by {
        let t = choose|t: int| 0 <= t < er.len() && er[t].0@ == k;
        let orig = if t < j {
            t
        } else {
            t + 1
        };
        assert(e[orig].0@ == k);
        assert forall|u: int| t < u < er.len() implies (#[trigger] er[u]).0@ != k by {
            let uorig = if u < j {
                u
            } else {
                u + 1
            };
            assert(er[u] == e[uorig]);
        }
        lemma_table_model_index(er, er.len() as int, t);
        assert forall|u: int| orig < u < e.len() implies (#[trigger] e[u]).0@ != k by {}
        lemma_table_model_index(e, e.len() as int, orig);
    };
}

} // verus!

