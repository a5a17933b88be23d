use vstd::prelude::*;

use crate::config::{env_first, AccessOutcome, Config, cred_migrated};
use crate::key::{config_key_of, env_key_of, split_on_spec, KeyPartModel};
use crate::toml_compat::{toml_ok, TomlModel};
use crate::value::{
    cv_table_of, lemma_merged_table, lookup_parts, merged, merged_tables, mergeable, toml_to_cv,
    CvModel,
};

verus! {

/// Merging two tables yields exactly the union of their key sets.
pub proof fn lemma_merged_table_keys_union(
    m: Map<Seq<char>, CvModel>,
    n: Map<Seq<char>, CvModel>,
)
    ensures
        merged_tables(m, n).dom() == m.dom() + n.dom(),
{
    assert(merged_tables(m, n).dom() =~= m.dom() + n.dom());
}

/// For a key held as a nested table by both operands, the merged entry's
/// own key set is again the union of both nested key sets; with the
/// union law above this holds on recursively.
pub proof fn lemma_merged_nested_keys_union(
    m: Map<Seq<char>, CvModel>,
    n: Map<Seq<char>, CvModel>,
    k: Seq<char>,
)
    requires
        m.dom().contains(k),
        n.dom().contains(k),
        m[k] is Table,
        n[k] is Table,
    ensures
        merged_tables(m, n)[k] is Table,
        merged_tables(m, n)[k]->Table_0.dom() == m[k]->Table_0.dom() + n[k]->Table_0.dom(),
{
    lemma_merged_table(m[k]->Table_0, n[k]->Table_0, m[k].src(), n[k].src());
    assert(CvModel::Table(m[k]->Table_0, m[k].src()) == m[k]);
    assert(CvModel::Table(n[k]->Table_0, n[k].src()) == n[k]);
    lemma_merged_table_keys_union(m[k]->Table_0, n[k]->Table_0);
}

/// Merging two lists always concatenates, first operand first: nothing
/// is dropped and nothing is deduplicated.
pub proof fn lemma_merged_list_concat(a: CvModel, b: CvModel)
    requires
        a is List,
        b is List,
    ensures
        merged(a, b) is List,
        merged(a, b)->List_0 == a->List_0 + b->List_0,
        merged(a, b)->List_0.len() == a->List_0.len() + b->List_0.len(),
{
}

/// A scalar key defined in the nearer of two sources keeps the nearer
/// value: configuration files are folded nearest first, and a scalar
/// already present is left untouched by a later merge, whatever scalar
/// kind arrives.  Lists and tables under the same key accumulate
/// instead.
pub proof fn lemma_scalar_nearest_wins(
    m: Map<Seq<char>, CvModel>,
    n: Map<Seq<char>, CvModel>,
    k: Seq<char>,
)
    requires
        m.dom().contains(k),
        m[k].is_scalar(),
    ensures
        merged_tables(m, n)[k] == m[k],
{
}

/// Lists under the same key in two sources accumulate in source order.
pub proof fn lemma_list_key_accumulates(
    m: Map<Seq<char>, CvModel>,
    n: Map<Seq<char>, CvModel>,
    k: Seq<char>,
)
    requires
        m.dom().contains(k),
        n.dom().contains(k),
        m[k] is List,
        n[k] is List,
    ensures
        merged_tables(m, n)[k] is List,
        merged_tables(m, n)[k]->List_0 == m[k]->List_0 + n[k]->List_0,
{
    lemma_merged_list_concat(m[k], n[k]);
}

/// Merging a parsed configuration into the empty root table adopts its
/// entries while the root keeps its own provenance: folding files into
/// the fresh root therefore resolves, key by key, to `merged_tables`
/// over the files in nearest-first order.
pub proof fn lemma_fold_from_empty_root(a: CvModel, s: Seq<char>)
    requires
        a is Table,
    ensures
        merged(CvModel::Table(Map::empty(), s), a) == CvModel::Table(a->Table_0, s),
{
    lemma_merged_table(Map::empty(), a->Table_0, s, a.src());
    assert(merged_tables(Map::<Seq<char>, CvModel>::empty(), a->Table_0) =~= a->Table_0);
}

/// For a key absent from every configuration source and not set in the
/// environment, resolution reports the key as missing; the accessors
/// then return "not found", never an error.
pub proof fn lemma_absent_key_is_missing(c: Config, parts: Seq<KeyPartModel>)
    requires
        env_first(c.env@, env_key_of(parts)) is None,
        lookup_parts(c.tree(), split_on_spec(config_key_of(parts), '.')) is Absent,
    ensures
        c.access(parts) == AccessOutcome::Missing,
{
}

/// A scalar in the credentials file overrides the same scalar key from
/// any directory or home configuration: the overlay merges the tree
/// into the credentials value, and the first operand's scalar wins.
pub proof fn lemma_credentials_scalar_overrides(
    cred_table: Map<Seq<char>, CvModel>,
    cfg_table: Map<Seq<char>, CvModel>,
    k: Seq<char>,
)
    requires
        cred_table.dom().contains(k),
        cred_table[k].is_scalar(),
        cfg_table.dom().contains(k),
    ensures
        merged_tables(cred_table, cfg_table)[k] == cred_table[k],
{
    lemma_scalar_nearest_wins(cred_table, cfg_table, k);
}

/// A bare top-level `token` in a credentials table with no `registry`
/// entry becomes `registry.token`, and the bare key disappears.
pub proof fn lemma_token_migrated(t: Map<Seq<char>, CvModel>, s: Seq<char>)
    requires
        t.dom().contains("token"@),
        !t.dom().contains("registry"@),
    ensures
        cred_migrated(CvModel::Table(t, s)) is Table,
        !cred_migrated(CvModel::Table(t, s))->Table_0.dom().contains("token"@),
        cred_migrated(CvModel::Table(t, s))->Table_0.dom().contains("registry"@),
        cred_migrated(CvModel::Table(t, s))->Table_0["registry"@] == CvModel::Table(
            Map::<Seq<char>, CvModel>::empty().insert("token"@, t["token"@]),
            "."@,
        ),
{
}

/// A bare top-level `token` beside an existing `registry` entry is
/// dropped, and the existing entry is left exactly as it was.
pub proof fn lemma_token_dropped_beside_registry(t: Map<Seq<char>, CvModel>, s: Seq<char>)
    requires
        t.dom().contains("token"@),
        t.dom().contains("registry"@),
    ensures
        cred_migrated(CvModel::Table(t, s)) == CvModel::Table(t.remove("token"@), s),
        cred_migrated(CvModel::Table(t, s))->Table_0["registry"@] == t["registry"@],
{
    assert("token"@ != "registry"@) by {
        reveal_strlit("token");
        reveal_strlit("registry");
        assert("token"@.len() == 5);
        assert("registry"@.len() == 8);
    }
}

/// The migration touches only the `token` and `registry` keys: any
/// other entry of a credentials table survives it unchanged.
pub proof fn lemma_migration_keeps_other_keys(c: CvModel, k: Seq<char>)
    requires
        c is Table,
        k != "token"@,
        k != "registry"@,
    ensures
        cred_migrated(c) is Table,
        cred_migrated(c)->Table_0.dom().contains(k) == c->Table_0.dom().contains(k),
        c->Table_0.dom().contains(k) ==> cred_migrated(c)->Table_0[k] == c->Table_0[k],
{
}

/// Through the whole overlay: a scalar in the credentials file under
/// any key the migration leaves alone overrides whatever the merged
/// directory and home tree holds under that key.  The two keys the
/// migration itself rewrites, `token` and `registry`, are excluded.
pub proof fn lemma_overlay_scalar_overrides(cred: CvModel, cfg: CvModel, k: Seq<char>)
    requires
        cred is Table,
        cfg is Table,
        cred->Table_0.dom().contains(k),
        cred->Table_0[k].is_scalar(),
        k != "token"@,
        k != "registry"@,
    ensures
        merged(cred_migrated(cred), cfg) is Table,
        merged(cred_migrated(cred), cfg)->Table_0[k] == cred->Table_0[k],
{
    lemma_migration_keeps_other_keys(cred, k);
    let mc = cred_migrated(cred);
    lemma_merged_table(mc->Table_0, cfg->Table_0, mc.src(), cfg.src());
    assert(CvModel::Table(mc->Table_0, mc.src()) == mc);
    assert(CvModel::Table(cfg->Table_0, cfg.src()) == cfg);
    lemma_scalar_nearest_wins(mc->Table_0, cfg->Table_0, k);
}

/// Through the whole overlay: a bare `token` in a credentials file with
/// no `registry` table, overlaid on a tree that defines neither key,
/// ends as `registry.token`, and the bare key is gone.
pub proof fn lemma_overlay_token_migrates(cred: CvModel, cfg: CvModel)
    requires
        cred is Table,
        cfg is Table,
        cred->Table_0.dom().contains("token"@),
        !cred->Table_0.dom().contains("registry"@),
        !cfg->Table_0.dom().contains("token"@),
        !cfg->Table_0.dom().contains("registry"@),
    ensures
        merged(cred_migrated(cred), cfg) is Table,
        !merged(cred_migrated(cred), cfg)->Table_0.dom().contains("token"@),
        merged(cred_migrated(cred), cfg)->Table_0.dom().contains("registry"@),
        merged(cred_migrated(cred), cfg)->Table_0["registry"@] == CvModel::Table(
            Map::<Seq<char>, CvModel>::empty().insert("token"@, cred->Table_0["token"@]),
            "."@,
        ),
{
    lemma_token_migrated(cred->Table_0, cred.src());
    assert(CvModel::Table(cred->Table_0, cred.src()) == cred);
    let mc = cred_migrated(cred);
    lemma_merged_table(mc->Table_0, cfg->Table_0, mc.src(), cfg.src());
    assert(CvModel::Table(cfg->Table_0, cfg.src()) == cfg);
    assert(merged_tables(mc->Table_0, cfg->Table_0)["registry"@] == mc->Table_0["registry"@]);
}

/// A set environment variable always outranks any file-sourced value:
/// whenever the key's environment name is bound in the snapshot, the
/// boolean and string accessors resolve from the environment and never
/// look at the merged tree.  The list accessor deliberately has no
/// environment override.
pub proof fn lemma_env_outranks_files(c: Config, parts: Seq<KeyPartModel>)
    requires
        env_first(c.env@, env_key_of(parts)) is Some,
    ensures
        c.access(parts) == AccessOutcome::Env(
            env_key_of(parts),
            env_first(c.env@, env_key_of(parts))->0,
        ),
{
}

/// The keys of a converted TOML table are exactly the keys written in
/// the raw table.
pub proof fn lemma_round_trip_keys(
    entries: Seq<(Seq<char>, TomlModel)>,
    cnt: int,
    path: Seq<char>,
)
    requires
        cnt <= entries.len(),
    ensures
        cv_table_of(entries, cnt, path).dom() =~= Set::new(
            |k: Seq<char>| exists|i: int| 0 <= i < cnt && entries[i].0 == k,
        ),
    decreases cnt,
{
    if cnt > 0 {
        lemma_round_trip_keys(entries, cnt - 1, path);
    }
}

/// Each key of a uniquely-keyed raw TOML table resolves, after
/// conversion, to the conversion of the value written under it.
pub proof fn lemma_round_trip_entry(
    entries: Seq<(Seq<char>, TomlModel)>,
    cnt: int,
    i: int,
    path: Seq<char>,
)
    requires
        0 <= i < cnt <= entries.len(),
        forall|j: int| i < j < cnt ==> (#[trigger] entries[j]).0 != entries[i].0,
    ensures
        cv_table_of(entries, cnt, path).dom().contains(entries[i].0),
        cv_table_of(entries, cnt, path)[entries[i].0] == toml_to_cv(entries[i].1, path),
    decreases cnt,
{
    if i < cnt - 1 {
        lemma_round_trip_entry(entries, cnt - 1, i, path);
    }
}

/// Conversion keeps every accepted value's kind: a TOML string becomes
/// a string value, an integer an integer, a boolean a boolean, an array
/// a list of strings and a table a table.  With the key law above,
/// re-traversing a converted table recovers every key written with the
/// matching variant tag.
pub proof fn lemma_round_trip_tag(t: TomlModel, path: Seq<char>)
    requires
        toml_ok(t),
    ensures
        t is String <==> toml_to_cv(t, path) is String,
        t is Integer <==> toml_to_cv(t, path) is Integer,
        t is Boolean <==> toml_to_cv(t, path) is Boolean,
        t is Array <==> toml_to_cv(t, path) is List,
        t is Table <==> toml_to_cv(t, path) is Table,
{
}

/// Merging is associative on merge-compatible values: folding files in
/// one pass or merging partial results gives the same tree.
pub proof fn lemma_merge_associative(a: CvModel, b: CvModel, c: CvModel)
    requires
        a.wf(),
        b.wf(),
        c.wf(),
        mergeable(a, b),
        mergeable(merged(a, b), c),
    ensures
        merged(merged(a, b), c) == merged(a, merged(b, c)),
    decreases a,
{
    match (a, b, c) {
        (CvModel::List(x, _), CvModel::List(y, _), CvModel::List(z, _)) => {
            assert((x + y) + z =~= x + (y + z));
        },
        (CvModel::Table(ma, sa), CvModel::Table(mb, sb), CvModel::Table(mc, sc)) => {
            lemma_merged_table(ma, mb, sa, sb);
            lemma_merged_table(mb, mc, sb, sc);
            let ab = merged_tables(ma, mb);
            let bc = merged_tables(mb, mc);
            lemma_merged_table(ab, mc, sa, sc);
            lemma_merged_table(ma, bc, sa, sb);
            assert forall|k: Seq<char>|
                merged_tables(ab, mc).dom().contains(k) implies merged_tables(ab, mc)[k]
                == merged_tables(ma, bc)[k] by {
                if ma.dom().contains(k) && mb.dom().contains(k) && mc.dom().contains(k) {
                    assert(mergeable(ma[k], mb[k]));
                    assert(ab[k] == merged(ma[k], mb[k]));
                    assert(mergeable(merged(ma[k], mb[k]), mc[k]));
                    lemma_merge_associative(ma[k], mb[k], mc[k]);
                } else if ma.dom().contains(k) && mb.dom().contains(k) {
                    assert(ab[k] == merged(ma[k], mb[k]));
                    assert(bc[k] == mb[k]);
                } else if ma.dom().contains(k) && mc.dom().contains(k) {
                    assert(ab[k] == ma[k]);
                    assert(bc[k] == mc[k]);
                } else if mb.dom().contains(k) && mc.dom().contains(k) {
                    assert(ab[k] == mb[k]);
                    assert(bc[k] == merged(mb[k], mc[k]));
                } else {
                }
            }
            assert(merged_tables(ab, mc) =~= merged_tables(ma, bc));
        },
        _ => {
            assert(a.is_scalar() && b.is_scalar() && c.is_scalar()) by {
                if a is List || a is Table {
                } else {
                    assert(b.is_scalar());
                    assert(merged(a, b) == a);
                }
            }
        },
    }
}

} // verus!
