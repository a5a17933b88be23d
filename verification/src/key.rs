use vstd::prelude::*;

verus! {

/// The Unicode uppercase of a string, as `str::to_uppercase` computes it.
pub uninterp spec fn upper_of(s: Seq<char>) -> Seq<char>;

/// Relies on str::to_uppercase: the result depends on the characters
/// alone.
#[verifier::external_body]
fn to_uppercase(s: &str) -> (r: String)
    ensures
        r@ == upper_of(s@),
{
    s.to_uppercase()
}

/// A dash turned into an underscore, every other character unchanged.
pub open spec fn undashed(c: char) -> char {
    if c == '-' {
        '_'
    } else {
        c
    }
}

/// Relies on str::replace: replacing every match of a one-character
/// pattern with a one-character string maps the characters one for one.
#[verifier::external_body]
fn replace_dashes(s: &str) -> (r: String)
    ensures
        r@ == s@.map_values(|c: char| undashed(c)),
{
    s.replace('-', "_")
}

/// The parts joined with the separator between them.
pub open spec fn join_with(parts: Seq<Seq<char>>, sep: Seq<char>) -> Seq<char>
    decreases parts.len(),
{
    if parts.len() == 0 {
        Seq::empty()
    } else if parts.len() == 1 {
        parts[0]
    } else {
        join_with(parts.drop_last(), sep) + sep + parts.last()
    }
}

/// The text split at every occurrence of the separator; always at least
/// one (possibly empty) part.
pub open spec fn split_on_spec(s: Seq<char>, sep: char) -> Seq<Seq<char>>
    decreases s.len(),
{
    if s.len() == 0 {
        seq![Seq::<char>::empty()]
    } else {
        let rest = split_on_spec(s.drop_first(), sep);
        if s[0] == sep {
            seq![Seq::<char>::empty()] + rest
        } else {
            seq![seq![s[0]] + rest[0]] + rest.drop_first()
        }
    }
}

/// Splitting never yields an empty sequence of parts.
pub proof fn lemma_split_nonempty(s: Seq<char>, sep: char)
    ensures
        split_on_spec(s, sep).len() >= 1,
    decreases s.len(),
{
    if s.len() > 0 {
        lemma_split_nonempty(s.drop_first(), sep);
    }
}

/// When the first `j` characters hold no separator and position `j` is a
/// separator or the end, the split starts with that prefix as its first
/// part.
pub proof fn lemma_split_first(s: Seq<char>, sep: char, j: int)
    requires
        0 <= j <= s.len(),
        forall|t: int| 0 <= t < j ==> s[t] != sep,
        j == s.len() || s[j] == sep,
    ensures
        split_on_spec(s, sep) == if j == s.len() {
            seq![s]
        } else {
            seq![s.take(j)] + split_on_spec(s.skip(j + 1), sep)
        },
    decreases s.len(),
{
    lemma_split_nonempty(s, sep);
    if s.len() == 0 {
        assert(s =~= Seq::<char>::empty());
    } else if j == 0 {
        assert(s[0] == sep);
        assert(s.take(0) =~= Seq::<char>::empty());
        assert(s.skip(1) =~= s.drop_first());
        assert(split_on_spec(s, sep) =~= seq![s.take(0)] + split_on_spec(s.skip(1), sep));
    } else {
        let tail = s.drop_first();
        lemma_split_first(tail, sep, j - 1);
        lemma_split_nonempty(tail, sep);
        let rest = split_on_spec(tail, sep);
        if j == s.len() {
            assert(rest == seq![tail]);
            assert(seq![s[0]] + rest[0] =~= s);
            assert(split_on_spec(s, sep) =~= seq![s]);
        } else {
            assert(rest == seq![tail.take(j - 1)] + split_on_spec(tail.skip(j), sep));
            assert(seq![s[0]] + rest[0] =~= s.take(j));
            assert(tail.skip(j) =~= s.skip(j + 1));
            assert(rest.drop_first() =~= split_on_spec(s.skip(j + 1), sep));
            assert(split_on_spec(s, sep) =~= seq![s.take(j)] + split_on_spec(s.skip(j + 1), sep));
        }
    }
}

/// Splits text at every occurrence of the separator.
pub fn split_on(s: &str, sep: char) -> (r: Vec<String>)
    ensures
        r@.map_values(|x: String| x@) == split_on_spec(s@, sep),
        r@.len() >= 1,
{
    let ghost target = split_on_spec(s@, sep);
    proof {
        lemma_split_nonempty(s@, sep);
        assert(s@.skip(0) =~= s@);
    }
    let n = s.unicode_len();
    let mut parts: Vec<String> = Vec::new();
    let mut start: usize = 0;
    let mut i: usize = 0;
    while i < n
        invariant
            start <= i <= n == s@.len(),
            forall|t: int| start <= t < i ==> s@[t] != sep,
            target == parts@.map_values(|x: String| x@) + split_on_spec(s@.skip(start as int), sep),
        decreases n - i,
    {
        if s.get_char(i) == sep {
            let piece = s.substring_char(start, i);
            let ghost parts_before = parts@;
            parts.push(piece.to_owned());
            proof {
                lemma_split_first(s@.skip(start as int), sep, i - start);
                assert(s@.skip(start as int).take(i - start) =~= piece@);
                assert(s@.skip(start as int).skip(i - start + 1) =~= s@.skip(i + 1));
                assert(parts@.map_values(|x: String| x@) =~= parts_before.map_values(
                    |x: String| x@,
                ) + seq![piece@]);
                assert(seq![piece@] + split_on_spec(s@.skip(i + 1), sep) =~= split_on_spec(
                    s@.skip(start as int),
                    sep,
                ));
            }
            start = i + 1;
        }
        i += 1;
    }
    let piece = s.substring_char(start, n);
    let ghost parts_before = parts@;
    parts.push(piece.to_owned());
    proof {
        lemma_split_first(s@.skip(start as int), sep, n - start);
        assert(s@.skip(start as int) =~= piece@);
        assert(parts@.map_values(|x: String| x@) =~= parts_before.map_values(|x: String| x@)
            + seq![piece@]);
        assert(parts@.map_values(|x: String| x@) =~= target);
    }
    parts
}

/// Joining after peeling a leading part prefixes that part and one
/// separator.
proof fn lemma_join_with_cons(p: Seq<char>, rest: Seq<Seq<char>>, sep: Seq<char>)
    requires
        rest.len() >= 1,
    ensures
        join_with(seq![p] + rest, sep) == p + sep + join_with(rest, sep),
    decreases rest.len(),
{
    let whole = seq![p] + rest;
    if rest.len() == 1 {
        assert(whole.drop_last() =~= seq![p]);
        assert(whole.last() == rest[0]);
        assert(join_with(seq![p], sep) == p);
        assert(join_with(rest, sep) == rest[0]);
        assert(whole.len() == 2);
        assert(join_with(whole, sep) == join_with(whole.drop_last(), sep) + sep + whole.last());
    } else {
        lemma_join_with_cons(p, rest.drop_last(), sep);
        assert(whole.drop_last() =~= seq![p] + rest.drop_last());
        assert(whole.last() == rest.last());
        assert((p + sep + join_with(rest.drop_last(), sep)) + sep + rest.last() =~= p + sep + (
        join_with(rest.drop_last(), sep) + sep + rest.last()));
    }
}

/// Splitting on a separator and joining the parts with it again gives
/// back the original text.
pub proof fn lemma_join_split(s: Seq<char>, sep: char)
    ensures
        join_with(split_on_spec(s, sep), seq![sep]) == s,
    decreases s.len(),
{
    lemma_split_nonempty(s, sep);
    if s.len() == 0 {
        assert(join_with(split_on_spec(s, sep), seq![sep]) =~= s);
    } else {
        let tail = s.drop_first();
        lemma_join_split(tail, sep);
        lemma_split_nonempty(tail, sep);
        let rest = split_on_spec(tail, sep);
        if s[0] == sep {
            lemma_join_with_cons(Seq::empty(), rest, seq![sep]);
            assert(Seq::<char>::empty() + seq![sep] + join_with(rest, seq![sep]) =~= s);
        } else {
            let first = seq![s[0]] + rest[0];
            if rest.len() == 1 {
                assert(split_on_spec(s, sep) =~= seq![first]);
                assert(first =~= s);
            } else {
                lemma_join_with_cons(first, rest.drop_first(), seq![sep]);
                assert(split_on_spec(s, sep) =~= seq![first] + rest.drop_first());
                lemma_join_with_cons(rest[0], rest.drop_first(), seq![sep]);
                assert(seq![rest[0]] + rest.drop_first() =~= rest);
                assert(tail == rest[0] + seq![sep] + join_with(rest.drop_first(), seq![sep]));
                assert(first + seq![sep] + join_with(rest.drop_first(), seq![sep]) =~= seq![
                    s[0],
                ] + (rest[0] + seq![sep] + join_with(rest.drop_first(), seq![sep])));
                assert(seq![s[0]] + tail =~= s);
            }
        }
    }
}

/// A key parsed from a dotted string renders back to exactly that
/// string: the split and join forms of the codec invert each other.
pub proof fn lemma_config_key_round_trip(s: Seq<char>)
    ensures
        config_key_of(split_on_spec(s, '.').map_values(|p: Seq<char>| KeyPartModel::Part(p)))
            == s,
{
    lemma_join_split(s, '.');
    let parts = split_on_spec(s, '.');
    assert(parts.map_values(|p: Seq<char>| KeyPartModel::Part(p)).map_values(
        |p: KeyPartModel| p.config_text(),
    ) =~= parts);
    assert("."@ =~= seq!['.']) by {
        reveal_strlit(".");
    }
}

/// The model of one key segment: its text, and whether the environment
/// form must match it case-sensitively.
pub enum KeyPartModel {
    Part(Seq<char>),
    CasePart(Seq<char>),
}

impl KeyPartModel {
    /// This segment as it appears in an environment-variable name.
    pub open spec fn env_text(self) -> Seq<char> {
        match self {
            KeyPartModel::Part(s) => upper_of(s.map_values(|c: char| undashed(c))),
            KeyPartModel::CasePart(s) => s,
        }
    }

    /// This segment as it appears in a dotted configuration key.
    pub open spec fn config_text(self) -> Seq<char> {
        match self {
            KeyPartModel::Part(s) => s,
            KeyPartModel::CasePart(s) => s,
        }
    }
}

/// A segment of a configuration key: case-insensitive by default, or
/// case-sensitive.
pub enum ConfigKeyPart {
    /// Case-insensitive part (upper-cased in environment keys).
    Part(String),
    /// Case-sensitive part (environment keys must match exactly).
    CasePart(String),
}

impl View for ConfigKeyPart {
    type V = KeyPartModel;

    open spec fn view(&self) -> KeyPartModel {
        match self {
            ConfigKeyPart::Part(s) => KeyPartModel::Part(s@),
            ConfigKeyPart::CasePart(s) => KeyPartModel::CasePart(s@),
        }
    }
}

impl ConfigKeyPart {
    /// This segment in environment-variable form.
    pub fn to_env(&self) -> (r: String)
        ensures
            r@ == self@.env_text(),
    {
        match self {
            ConfigKeyPart::Part(s) => to_uppercase(replace_dashes(s.as_str()).as_str()),
            ConfigKeyPart::CasePart(s) => s.clone(),
        }
    }

    /// This segment in dotted-key form.
    pub fn to_config(&self) -> (r: String)
        ensures
            r@ == self@.config_text(),
    {
        match self {
            ConfigKeyPart::Part(s) => s.clone(),
            ConfigKeyPart::CasePart(s) => s.clone(),
        }
    }
}

/// The environment-variable name a key resolves to: the namespace prefix,
/// then the segments in environment form, joined with underscores.
pub open spec fn env_key_of(parts: Seq<KeyPartModel>) -> Seq<char> {
    "NIANJIA_"@ + join_with(parts.map_values(|p: KeyPartModel| p.env_text()), "_"@)
}

/// The dotted configuration key a key resolves to.
pub open spec fn config_key_of(parts: Seq<KeyPartModel>) -> Seq<char> {
    join_with(parts.map_values(|p: KeyPartModel| p.config_text()), "."@)
}

/// Key for a configuration variable: a sequence of segments.
pub struct ConfigKey(pub Vec<ConfigKeyPart>);

/// The models of a sequence of key segments.
pub open spec fn parts_model(parts: Seq<ConfigKeyPart>) -> Seq<KeyPartModel> {
    parts.map_values(|p: ConfigKeyPart| p@)
}

impl View for ConfigKey {
    type V = Seq<KeyPartModel>;

    open spec fn view(&self) -> Seq<KeyPartModel> {
        parts_model(self.0@)
    }
}

impl ConfigKey {
    /// Splits a dotted key into case-insensitive segments.
    pub fn from_str(key: &str) -> (r: ConfigKey)
        ensures
            r@ == split_on_spec(key@, '.').map_values(|p: Seq<char>| KeyPartModel::Part(p)),
            r.0@.len() >= 1,
    {
        let ghost as_part = |p: Seq<char>| KeyPartModel::Part(p);
        let raw = split_on(key, '.');
        proof {
            lemma_split_nonempty(key@, '.');
        }
        let mut parts: Vec<ConfigKeyPart> = Vec::new();
        let mut i: usize = 0;
        while i < raw.len()
            invariant
                i <= raw@.len(),
                raw@.map_values(|x: String| x@) == split_on_spec(key@, '.'),
                parts_model(parts@) == split_on_spec(key@, '.').take(i as int).map_values(as_part),
                as_part == (|p: Seq<char>| KeyPartModel::Part(p)),
            decreases raw@.len() - i,
        {
            let ghost parts_before = parts@;
            parts.push(ConfigKeyPart::Part(raw[i].clone()));
            proof {
                let sp = split_on_spec(key@, '.');
                assert(parts_model(parts@) =~= parts_model(parts_before) + seq![
                    as_part(raw@[i as int]@),
                ]);
                assert(sp.take(i + 1).map_values(as_part) =~= sp.take(i as int).map_values(as_part)
                    + seq![as_part(sp[i as int])]);
            }
            i += 1;
        }
        proof {
            let sp = split_on_spec(key@, '.');
            assert(sp.take(sp.len() as int) =~= sp);
        }
        ConfigKey(parts)
    }

    /// The environment-variable name for this key.
    pub fn to_env(&self) -> (r: String)
        ensures
            r@ == env_key_of(self@),
    {
        let mut out = String::from_str("NIANJIA_");
        let mut i: usize = 0;
        let ghost texts = self@.map_values(|p: KeyPartModel| p.env_text());
        while i < self.0.len()
            invariant
                i <= self.0@.len(),
                texts == self@.map_values(|p: KeyPartModel| p.env_text()),
                texts.len() == self.0@.len(),
                out@ == "NIANJIA_"@ + join_with(texts.take(i as int), "_"@),
            decreases self.0@.len() - i,
        {
            if i > 0 {
                out.append("_");
            }
            let part = self.0[i].to_env();
            out.append(part.as_str());
            proof {
                assert(texts.take(i + 1).drop_last() =~= texts.take(i as int));
                assert(texts.take(i + 1).last() == texts[i as int]);
                if i == 0 {
                    assert(join_with(texts.take(1), "_"@) == texts[0]);
                }
            }
            i += 1;
        }
        proof {
            assert(texts.take(self.0@.len() as int) =~= texts);
        }
        out
    }

    /// The dotted configuration key for this key.
    pub fn to_config(&self) -> (r: String)
        ensures
            r@ == config_key_of(self@),
    {
        let mut out = String::new();
        let mut i: usize = 0;
        let ghost texts = self@.map_values(|p: KeyPartModel| p.config_text());
        while i < self.0.len()
            invariant
                i <= self.0@.len(),
                texts == self@.map_values(|p: KeyPartModel| p.config_text()),
                texts.len() == self.0@.len(),
                out@ == join_with(texts.take(i as int), "."@),
            decreases self.0@.len() - i,
        {
            if i > 0 {
                out.append(".");
            }
            let part = self.0[i].to_config();
            out.append(part.as_str());
            proof {
                assert(texts.take(i + 1).drop_last() =~= texts.take(i as int));
                assert(texts.take(i + 1).last() == texts[i as int]);
                if i == 0 {
                    assert(join_with(texts.take(1), "."@) == texts[0]);
                }
            }
            i += 1;
        }
        proof {
            assert(texts.take(self.0@.len() as int) =~= texts);
        }
        out
    }
}

} // verus!
