use vstd::prelude::*;

use crate::errors::NianjiaError;

verus! {

/// A raw TOML document as plain values: what the configuration logic
/// reads of a parsed file.  Floats and datetimes carry no payload because
/// configuration rejects them by kind alone.
#[derive(Debug)]
pub enum TomlValue {
    String(String),
    Integer(i64),
    Boolean(bool),
    Array(Vec<TomlValue>),
    Table(Vec<(String, TomlValue)>),
    Float,
    Datetime,
}

/// The mathematical model of a raw TOML value.
pub enum TomlModel {
    String(Seq<char>),
    Integer(i64),
    Boolean(bool),
    Array(Seq<TomlModel>),
    Table(Seq<(Seq<char>, TomlModel)>),
    Float,
    Datetime,
}

impl TomlValue {
    /// The model of this value.
    pub open spec fn model(self) -> TomlModel
        decreases self, 0int,
    {
        match self {
            TomlValue::String(s) => TomlModel::String(s@),
            TomlValue::Integer(i) => TomlModel::Integer(i),
            TomlValue::Boolean(b) => TomlModel::Boolean(b),
            TomlValue::Array(items) => TomlModel::Array(
                Self::items_model_upto(items@, items@.len() as int),
            ),
            TomlValue::Table(entries) => TomlModel::Table(
                Self::entries_model_upto(entries@, entries@.len() as int),
            ),
            TomlValue::Float => TomlModel::Float,
            TomlValue::Datetime => TomlModel::Datetime,
        }
    }

    /// The models of the first `cnt` array items.
    pub open spec fn items_model_upto(items: Seq<TomlValue>, cnt: int) -> Seq<TomlModel>
        decreases items, cnt,
    {
        if cnt <= 0 || items.len() < cnt {
            Seq::empty()
        } else {
            Self::items_model_upto(items, cnt - 1).push(items[cnt - 1].model())
        }
    }

    /// The models of the first `cnt` table entries.
    pub open spec fn entries_model_upto(entries: Seq<(String, TomlValue)>, cnt: int) -> Seq<
        (Seq<char>, TomlModel),
    >
        decreases entries, cnt,
    {
        if cnt <= 0 || entries.len() < cnt {
            Seq::empty()
        } else {
            Self::entries_model_upto(entries, cnt - 1).push(
                (entries[cnt - 1].0@, entries[cnt - 1].1.model()),
            )
        }
    }
}

/// The model of the first `cnt` array items is their models, in order.
pub proof fn lemma_items_model(items: Seq<TomlValue>, cnt: int)
    requires
        0 <= cnt <= items.len(),
    ensures
        TomlValue::items_model_upto(items, cnt).len() == cnt,
        forall|t: int|
            0 <= t < cnt ==> TomlValue::items_model_upto(items, cnt)[t] == (
            #[trigger] items[t]).model(),
    decreases cnt,
{
    if cnt > 0 {
        lemma_items_model(items, cnt - 1);
    }
}

/// The model of the first `cnt` table entries is their keys and models,
/// in order.
pub proof fn lemma_entries_model(entries: Seq<(String, TomlValue)>, cnt: int)
    requires
        0 <= cnt <= entries.len(),
    ensures
        TomlValue::entries_model_upto(entries, cnt).len() == cnt,
        forall|t: int|
            0 <= t < cnt ==> TomlValue::entries_model_upto(entries, cnt)[t] == ((
            #[trigger] entries[t]).0@, entries[t].1.model()),
    decreases cnt,
{
    if cnt > 0 {
        lemma_entries_model(entries, cnt - 1);
    }
}

impl View for TomlValue {
    type V = TomlModel;

    open spec fn view(&self) -> TomlModel {
        self.model()
    }
}

/// Every table in the tree has pairwise-distinct keys, as a map-backed
/// TOML table guarantees.
pub open spec fn toml_unique_keys(t: TomlModel) -> bool
    decreases t,
{
    match t {
        TomlModel::Array(items) => forall|i: int|
            0 <= i < items.len() ==> toml_unique_keys(#[trigger] items[i]),
        TomlModel::Table(entries) => (forall|i: int, j: int|
            0 <= i < j < entries.len() ==> entries[i].0 != entries[j].0) && (forall|i: int|
            0 <= i < entries.len() ==> toml_unique_keys((#[trigger] entries[i]).1)),
        _ => true,
    }
}

/// Whether configuration accepts this TOML value: scalars, arrays of
/// strings, and tables of accepted values; floats and datetimes are of
/// unknown type to the configuration.
pub open spec fn toml_ok(t: TomlModel) -> bool
    decreases t,
{
    match t {
        TomlModel::String(..) => true,
        TomlModel::Integer(..) => true,
        TomlModel::Boolean(..) => true,
        TomlModel::Array(items) => forall|i: int|
            0 <= i < items.len() ==> (#[trigger] items[i]) matches TomlModel::String(_),
        TomlModel::Table(entries) => forall|i: int|
            0 <= i < entries.len() ==> toml_ok((#[trigger] entries[i]).1),
        TomlModel::Float => false,
        TomlModel::Datetime => false,
    }
}

impl TomlValue {
    /// The kind of this value, named as the TOML parser names it.
    pub fn type_str(&self) -> (r: &'static str)
        ensures
            r@ == crate::value::toml_desc_of(self@),
    {
        match self {
            TomlValue::String(..) => "string",
            TomlValue::Integer(..) => "integer",
            TomlValue::Boolean(..) => "boolean",
            TomlValue::Array(..) => "array",
            TomlValue::Table(..) => "table",
            TomlValue::Float => "float",
            TomlValue::Datetime => "datetime",
        }
    }
}

#[verifier::external_type_specification]
#[verifier::external_body]
pub struct ExTomlValue(toml::Value);

/// The document the strict TOML grammar yields for this text, if any.
pub uninterp spec fn strict_toml_of(text: Seq<char>) -> Option<TomlModel>;

/// The strict TOML parser's error message for this text; meaningful
/// where the strict grammar refuses it.
pub uninterp spec fn strict_err_of(text: Seq<char>) -> Seq<char>;

/// The document the grammar with the newline requirement relaxed yields
/// for this text, if any.
pub uninterp spec fn newline_toml_of(text: Seq<char>) -> Option<TomlModel>;

/// The document the grammar tolerating duplicate table headers yields
/// for this text, if any.
pub uninterp spec fn dup_toml_of(text: Seq<char>) -> Option<TomlModel>;

/// Relies on the structure of toml::Value: each variant is carried over
/// one for one, and table keys are pairwise distinct because a TOML table
/// is backed by a map.  This is the conversion step the parse wrappers
/// below share.
#[verifier::external_body]
fn raw_of_toml(v: toml::Value) -> (r: TomlValue)
    ensures
        toml_unique_keys(r@),
{
    match v {
        toml::Value::String(s) => TomlValue::String(s),
        toml::Value::Integer(i) => TomlValue::Integer(i),
        toml::Value::Float(_) => TomlValue::Float,
        toml::Value::Boolean(b) => TomlValue::Boolean(b),
        toml::Value::Datetime(_) => TomlValue::Datetime,
        toml::Value::Array(items) => TomlValue::Array(
            items.into_iter().map(raw_of_toml).collect(),
        ),
        toml::Value::Table(t) => TomlValue::Table(
            t.into_iter().map(|(k, item)| (k, raw_of_toml(item))).collect(),
        ),
    }
}

/// Relies on toml's strict parser, `toml::Value`'s `FromStr`: the
/// outcome and the error message are functions of the text alone.
#[verifier::external_body]
fn parse_strict(text: &str) -> (r: Result<TomlValue, String>)
    ensures
        r matches Ok(v) ==> (Some(v@) == strict_toml_of(text@) && toml_unique_keys(v@)),
        r matches Err(m) ==> (strict_toml_of(text@) is None && m@ == strict_err_of(text@)),
{
    match text.parse::<toml::Value>() {
        Ok(v) => Ok(raw_of_toml(v)),
        Err(e) => Err(e.to_string()),
    }
}

/// Relies on toml::de::Deserializer with the newline requirement after a
/// table header relaxed: the outcome is a function of the text alone.
#[verifier::external_body]
fn parse_lenient_newline(text: &str) -> (r: Option<TomlValue>)
    ensures
        r matches Some(v) ==> (Some(v@) == newline_toml_of(text@) && toml_unique_keys(v@)),
        r is None ==> newline_toml_of(text@) is None,
{
    let mut de = toml::de::Deserializer::new(text);
    de.set_require_newline_after_table(false);
    match <toml::Value as serde::de::Deserialize>::deserialize(&mut de) {
        Ok(v) => Some(raw_of_toml(v)),
        Err(_) => None,
    }
}

/// Relies on toml::de::Deserializer tolerating a duplicate table header
/// after a longer one: the outcome is a function of the text alone.
#[verifier::external_body]
fn parse_lenient_dup(text: &str) -> (r: Option<TomlValue>)
    ensures
        r matches Some(v) ==> (Some(v@) == dup_toml_of(text@) && toml_unique_keys(v@)),
        r is None ==> dup_toml_of(text@) is None,
{
    let mut de = toml::de::Deserializer::new(text);
    de.set_allow_duplicate_after_longer_table(true);
    match <toml::Value as serde::de::Deserialize>::deserialize(&mut de) {
        Ok(v) => Some(raw_of_toml(v)),
        Err(_) => None,
    }
}

/// The document the fallback ladder accepts for this text, if any: the
/// strict grammar first, then the newline-lenient grammar, then the
/// duplicate-table-lenient grammar.
pub open spec fn ladder_doc(text: Seq<char>) -> Option<TomlModel> {
    match strict_toml_of(text) {
        Some(m) => Some(m),
        None => match newline_toml_of(text) {
            Some(m) => Some(m),
            None => dup_toml_of(text),
        },
    }
}

/// The deprecation warning the ladder owes for this text: which lenient
/// grammar had to accept it, if any did.
pub open spec fn ladder_warning(text: Seq<char>) -> Option<ParseWarning> {
    match strict_toml_of(text) {
        Some(_) => None,
        None => match newline_toml_of(text) {
            Some(_) => Some(ParseWarning::MissingNewline),
            None => match dup_toml_of(text) {
                Some(_) => Some(ParseWarning::DuplicateTable),
                None => None,
            },
        },
    }
}

/// Which lenient grammar accepted a file that the strict grammar refused.
#[derive(Debug)]
pub enum ParseWarning {
    /// A table header was not followed by a newline.
    MissingNewline,
    /// A table header was defined again after a more specific one.
    DuplicateTable,
}

/// The deprecation warning shown for a file that only a lenient grammar
/// accepts.
pub fn warning_message(warning: &ParseWarning, file: &String) -> (r: String)
    ensures
        warning is MissingNewline ==> r@ == warning_newline_text(file@),
        warning is DuplicateTable ==> r@ == warning_duplicate_text(file@),
{
    match warning {
        ParseWarning::MissingNewline => {
            let mut s = String::from_str(
                "TOML file found which contains invalid syntax and will soon not parse\nat `",
            );
            s.append(file.as_str());
            s.append(
                "`.\n\nThe TOML spec requires newlines after table definitions (e.g., `[a] b = 1` is\ninvalid), but this file has a table header which does not have a newline after\nit. A newline needs to be added and this warning will soon become a hard error\nin the future.",
            );
            s
        },
        ParseWarning::DuplicateTable => {
            let mut s = String::from_str(
                "TOML file found which contains invalid syntax and will soon not parse\nat `",
            );
            s.append(file.as_str());
            s.append(
                "`.\n\nThe TOML spec requires that each table header is defined at most once, but\nhistorical versions of NIANJIA have erroneously accepted this file. The table\ndefinitions will need to be merged together with one table header to proceed,\nand this will become a hard error in the future.",
            );
            s
        },
    }
}

/// The warning text for a file with a table header missing its newline.
pub open spec fn warning_newline_text(file: Seq<char>) -> Seq<char> {
    "TOML file found which contains invalid syntax and will soon not parse\nat `"@ + file
        + "`.\n\nThe TOML spec requires newlines after table definitions (e.g., `[a] b = 1` is\ninvalid), but this file has a table header which does not have a newline after\nit. A newline needs to be added and this warning will soon become a hard error\nin the future."@
}

/// The warning text for a file with a duplicate table header.
pub open spec fn warning_duplicate_text(file: Seq<char>) -> Seq<char> {
    "TOML file found which contains invalid syntax and will soon not parse\nat `"@ + file
        + "`.\n\nThe TOML spec requires that each table header is defined at most once, but\nhistorical versions of NIANJIA have erroneously accepted this file. The table\ndefinitions will need to be merged together with one table header to proceed,\nand this will become a hard error in the future."@
}

/// The parser-fallback policy over the three parse outcomes: a strict
/// success is taken silently; otherwise the first lenient success is
/// taken with its deprecation warning; otherwise the strict parser's own
/// error is reported, wrapped in a fixed context.
pub fn parse_outcome(
    strict: Result<TomlValue, String>,
    lenient_newline: Option<TomlValue>,
    lenient_duplicate: Option<TomlValue>,
) -> (r: Result<(TomlValue, Option<ParseWarning>), NianjiaError>)
    ensures
        strict matches Ok(v) ==> r == Ok::<_, NianjiaError>((v, None::<ParseWarning>)),
        lenient_newline matches Some(v) ==> (strict is Err ==> r == Ok::<_, NianjiaError>(
            (v, Some(ParseWarning::MissingNewline)),
        )),
        lenient_duplicate matches Some(v) ==> (strict is Err && lenient_newline is None ==> r
            == Ok::<_, NianjiaError>((v, Some(ParseWarning::DuplicateTable)))),
        strict matches Err(first) ==> (lenient_newline is None && lenient_duplicate is None ==> (
        r matches Err(e) && e.wf() && !e.is_internal() && e.chain@.len() == 2 && e.chain@[0]@
            == "could not parse input as TOML"@ && e.chain@[1]@ == first@)),
{
    match strict {
        Ok(v) => Ok((v, None)),
        Err(first) => match lenient_newline {
            Some(v) => Ok((v, Some(ParseWarning::MissingNewline))),
            None => match lenient_duplicate {
                Some(v) => Ok((v, Some(ParseWarning::DuplicateTable))),
                None => Err(
                    NianjiaError::msg(first).context(
                        String::from_str("could not parse input as TOML"),
                    ),
                ),
            },
        },
    }
}

/// Parses file text as TOML, retrying with increasingly lenient grammar
/// variants; a lenient success carries the deprecation warning the caller
/// must surface for the file.
pub fn parse(text: &str) -> (r: Result<(TomlValue, Option<ParseWarning>), NianjiaError>)
    ensures
        r is Ok <==> ladder_doc(text@) is Some,
        r matches Ok(p) ==> (Some(p.0@) == ladder_doc(text@) && p.1 == ladder_warning(text@)
            && toml_unique_keys(p.0@)),
        r matches Err(e) ==> (e.wf() && !e.is_internal() && e.chain@.len() == 2 && e.chain@[0]@
            == "could not parse input as TOML"@ && e.chain@[1]@ == strict_err_of(text@)),
{
    let strict = parse_strict(text);
    let mut lenient_newline: Option<TomlValue> = None;
    let mut lenient_duplicate: Option<TomlValue> = None;
    if strict.is_err() {
        lenient_newline = parse_lenient_newline(text);
        lenient_duplicate = parse_lenient_dup(text);
    }
    parse_outcome(strict, lenient_newline, lenient_duplicate)
}

} // verus!
