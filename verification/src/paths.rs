use vstd::prelude::*;

use crate::errors::NianjiaError;
use crate::key::{split_on, split_on_spec};

verus! {

/// The index of the last separator in the text, or -1 when there is none.
pub open spec fn last_slash(s: Seq<char>) -> int
    decreases s.len(),
{
    if s.len() == 0 {
        -1
    } else if s[s.len() - 1] == '/' {
        s.len() - 1
    } else {
        last_slash(s.drop_last())
    }
}

/// The last separator sits before every separator-free suffix.
pub proof fn lemma_last_slash_scan(s: Seq<char>, j: int)
    requires
        0 <= j <= s.len(),
        forall|t: int| j <= t < s.len() ==> s[t] != '/',
    ensures
        last_slash(s) == last_slash(s.take(j)),
    decreases s.len() - j,
{
    if j < s.len() {
        lemma_last_slash_scan(s, j + 1);
        assert(s.take(j + 1).drop_last() =~= s.take(j));
        assert(last_slash(s.take(j + 1)) == last_slash(s.take(j)));
    } else {
        assert(s.take(j) =~= s);
    }
}

/// Positions and bounds of the last separator.
pub proof fn lemma_last_slash_bounds(s: Seq<char>)
    ensures
        -1 <= last_slash(s) < s.len(),
        last_slash(s) >= 0 ==> s[last_slash(s)] == '/',
        forall|t: int| last_slash(s) < t < s.len() ==> s[t] != '/',
    decreases s.len(),
{
    if s.len() > 0 && s[s.len() - 1] != '/' {
        lemma_last_slash_bounds(s.drop_last());
        assert forall|t: int| last_slash(s) < t < s.len() implies s[t] != '/' by {
            if t < s.len() - 1 {
                assert(s.drop_last()[t] == s[t]);
            }
        }
    }
}

/// The path with its trailing separators removed, a lone root
/// separator excepted, as `Path::parent` disregards them.
pub open spec fn trim_trailing(s: Seq<char>) -> Seq<char>
    decreases s.len(),
{
    if s.len() > 1 && s[s.len() - 1] == '/' {
        trim_trailing(s.drop_last())
    } else {
        s
    }
}

/// Trimming never lengthens a path, and what remains ends in a
/// separator only when it is the lone root separator.
pub proof fn lemma_trim_trailing(s: Seq<char>)
    ensures
        trim_trailing(s).len() <= s.len(),
        trim_trailing(s).len() > 1 ==> trim_trailing(s)[trim_trailing(s).len() - 1] != '/',
    decreases s.len(),
{
    if s.len() > 1 && s[s.len() - 1] == '/' {
        lemma_trim_trailing(s.drop_last());
    }
}

/// The parent directory of a path, in the path model this library uses:
/// trailing separators are disregarded, then the text up to the last
/// separator remains; the root and an empty path have no parent.
pub open spec fn parent_of(s: Seq<char>) -> Option<Seq<char>> {
    let b = trim_trailing(s);
    if b.len() == 0 || b == "/"@ {
        None
    } else {
        let i = last_slash(b);
        if i == -1 {
            Some(Seq::empty())
        } else if i == 0 {
            Some("/"@)
        } else {
            Some(b.take(i))
        }
    }
}

/// A parent is strictly shorter than its path.
pub proof fn lemma_parent_shorter(s: Seq<char>)
    requires
        parent_of(s) is Some,
    ensures
        parent_of(s)->0.len() < s.len(),
{
    let b = trim_trailing(s);
    lemma_trim_trailing(s);
    lemma_last_slash_bounds(b);
    let i = last_slash(b);
    if i == 0 {
        reveal_strlit("/");
        assert(b.len() >= 1);
        if b.len() == 1 {
            assert(b =~= "/"@);
        }
    }
}

/// The parent of this path, if it has one.
#[verifier::loop_isolation(false)]
pub fn parent_of_path(s: &String) -> (r: Option<String>)
    ensures
        r matches Some(p) ==> parent_of(s@) == Some(p@),
        r is None ==> parent_of(s@) is None,
{
    proof {
        reveal_strlit("/");
        lemma_trim_trailing(s@);
    }
    let full = s.as_str().unicode_len();
    if full == 0 {
        proof {
            assert(trim_trailing(s@) =~= s@);
        }
        return None;
    }
    let mut n: usize = full;
    proof {
        assert(s@.take(full as int) =~= s@);
    }
    while n > 1 && s.as_str().get_char(n - 1) == '/'
        invariant
            1 <= n <= full,
            trim_trailing(s@) == trim_trailing(s@.take(n as int)),
        decreases n,
    {
        proof {
            assert(s@.take(n as int).drop_last() =~= s@.take(n - 1));
        }
        n -= 1;
    }
    let ghost b = trim_trailing(s@);
    proof {
        assert(s@.take(n as int).len() == n as int);
        assert(b == s@.take(n as int));
        lemma_last_slash_bounds(b);
    }
    let mut j: usize = n;
    while j > 0
        invariant
            j <= n,
            forall|t: int| j <= t < n ==> s@[t] != '/',
        decreases j,
    {
        if s.as_str().get_char(j - 1) == '/' {
            proof {
                assert(forall|t: int| j <= t < b.len() ==> b[t] == s@[t]);
                lemma_last_slash_scan(b, j as int);
                assert(b.take(j as int).drop_last() =~= b.take(j - 1));
                assert(last_slash(b) == j - 1) by {
                    assert(b.take(j as int)[j - 1] == '/');
                }
            }
            if j - 1 == 0 {
                if n == 1 {
                    proof {
                        assert(b =~= "/"@);
                    }
                    return None;
                }
                proof {
                    assert(b.len() > 1 ==> b != "/"@);
                }
                return Some(String::from_str("/"));
            }
            let p = s.as_str().substring_char(0, j - 1);
            proof {
                assert(p@ =~= b.take(j - 1));
                assert(b.len() > 1 ==> b != "/"@);
            }
            return Some(p.to_owned());
        }
        j -= 1;
    }
    proof {
        assert(forall|t: int| 0 <= t < b.len() ==> b[t] == s@[t]);
        lemma_last_slash_scan(b, 0);
        assert(b.take(0) =~= Seq::<char>::empty());
        assert(last_slash(b) == -1);
        assert(b.len() > 0);
        assert(b != "/"@) by {
            assert("/"@[0] == '/');
        }
    }
    Some(String::new())
}

/// The sequence of a directory and its ancestors, nearest first, stopping
/// at the filesystem root or at the injected stop directory.
pub struct PathAncestors {
    /// The directory the next call yields, if any.
    pub current: Option<String>,
    /// Walking stops after this directory is yielded.
    pub stop_at: Option<String>,
}

/// Starts an ancestry walk at `path`, stopping early at `stop_at`.
pub fn ancestors(path: &String, stop_at: &Option<String>) -> (r: PathAncestors)
    ensures
        r.current matches Some(c) && c@ == path@,
        r.stop_at matches Some(x) ==> (stop_at matches Some(y) && x@ == y@),
        r.stop_at is None <==> stop_at is None,
{
    let stop = match stop_at {
        Some(s) => Some(s.clone()),
        None => None,
    };
    PathAncestors { current: Some(path.clone()), stop_at: stop }
}

impl PathAncestors {
    /// Yields the current directory and steps to its parent; after the
    /// stop directory, or the root, nothing follows.
    pub fn next(&mut self) -> (r: Option<String>)
        ensures
            final(self).stop_at == old(self).stop_at,
            old(self).current is None ==> (r is None && final(self).current is None),
            old(self).current matches Some(p) ==> (r matches Some(q) && q@ == p@),
            old(self).current matches Some(p) ==> (if old(self).spec_stops_at(p@) {
                final(self).current is None
            } else {
                match parent_of(p@) {
                    Some(par) => final(self).current matches Some(c) && c@ == par,
                    None => final(self).current is None,
                }
            }),
    {
        let path = match &self.current {
            Some(p) => p.clone(),
            None => {
                return None;
            },
        };
        let stops = match &self.stop_at {
            Some(stop) => *stop == path,
            None => false,
        };
        if stops {
            self.current = None;
        } else {
            self.current = parent_of_path(&path);
        }
        Some(path)
    }

    /// Whether the walk is configured to stop after this directory.
    pub open spec fn spec_stops_at(self, p: Seq<char>) -> bool {
        match self.stop_at {
            Some(s) => s@ == p,
            None => false,
        }
    }
}

/// A directory and its ancestors, nearest first, ending at the root or
/// at the stop directory.
pub open spec fn ancestor_dirs(p: Seq<char>, stop_at: Option<Seq<char>>) -> Seq<Seq<char>>
    decreases p.len(),
    via ancestor_dirs_dec
{
    if stop_at == Some(p) {
        seq![p]
    } else {
        match parent_of(p) {
            None => seq![p],
            Some(par) => seq![p] + ancestor_dirs(par, stop_at),
        }
    }
}

#[via_fn]
proof fn ancestor_dirs_dec(p: Seq<char>, stop_at: Option<Seq<char>>) {
    if stop_at != Some(p) && parent_of(p) is Some {
        lemma_parent_shorter(p);
    }
}

/// One path joined under another: an absolute second path stands alone;
/// otherwise a separator is placed between them unless one is already
/// there.
pub open spec fn join_path(a: Seq<char>, b: Seq<char>) -> Seq<char> {
    if b.len() > 0 && b[0] == '/' {
        b
    } else if a.len() == 0 {
        b
    } else if a[a.len() - 1] == '/' {
        a + b
    } else {
        a + "/"@ + b
    }
}

/// Joins a path onto a base directory.
pub fn path_join(a: &String, b: &str) -> (r: String)
    ensures
        r@ == join_path(a@, b@),
{
    proof {
        reveal_strlit("/");
    }
    if !b.is_empty() && b.get_char(0) == '/' {
        return b.to_owned();
    }
    if a.as_str().is_empty() {
        return b.to_owned();
    }
    let alen = a.as_str().unicode_len();
    let mut out = a.clone();
    if a.as_str().get_char(alen - 1) != '/' {
        out.append("/");
    }
    out.append(b);
    out
}

/// Whether the text holds a path separator anywhere.
pub open spec fn has_slash(s: Seq<char>) -> bool {
    exists|i: int| 0 <= i < s.len() && s[i] == '/'
}

/// Whether this invocation name is a bare name, with no path separator.
pub fn is_bare_name(s: &String) -> (r: bool)
    ensures
        r == !has_slash(s@),
{
    let n = s.as_str().unicode_len();
    let mut i: usize = 0;
    while i < n
        invariant
            i <= n == s@.len(),
            forall|t: int| 0 <= t < i ==> s@[t] != '/',
        decreases n - i,
    {
        if s.as_str().get_char(i) == '/' {
            return false;
        }
        i += 1;
    }
    true
}

/// The candidate executable paths for a bare name: the name under each
/// directory of the search path in order and, where the platform has an
/// executable suffix, the name with that suffix appended as well.
pub open spec fn spec_candidates(exec: Seq<char>, path_var: Seq<char>, suffix: Seq<char>) -> Seq<
    Seq<char>,
> {
    split_on_spec(path_var, ':').flat_map(
        |dir: Seq<char>|
            if suffix.len() == 0 {
                seq![join_path(dir, exec)]
            } else {
                seq![join_path(dir, exec), join_path(dir, exec) + "."@ + suffix]
            },
    )
}

/// Builds the candidate executable paths for a bare name searched along
/// a separator-joined path list.
pub fn executable_candidates(exec: &String, path_var: &String, exe_suffix: &String) -> (r: Vec<
    String,
>)
    ensures
        r@.map_values(|x: String| x@) == spec_candidates(exec@, path_var@, exe_suffix@),
{
    let ghost per_dir = |dir: Seq<char>|
        if exe_suffix@.len() == 0 {
            seq![join_path(dir, exec@)]
        } else {
            seq![join_path(dir, exec@), join_path(dir, exec@) + "."@ + exe_suffix@]
        };
    let dirs = split_on(path_var.as_str(), ':');
    let mut out: Vec<String> = Vec::new();
    let mut i: usize = 0;
    let ghost dirviews = dirs@.map_values(|x: String| x@);
    while i < dirs.len()
        invariant
            i <= dirs@.len(),
            dirviews == dirs@.map_values(|x: String| x@),
            dirviews == split_on_spec(path_var@, ':'),
            per_dir == (|dir: Seq<char>|
                if exe_suffix@.len() == 0 {
                    seq![join_path(dir, exec@)]
                } else {
                    seq![join_path(dir, exec@), join_path(dir, exec@) + "."@ + exe_suffix@]
                }),
            out@.map_values(|x: String| x@) == dirviews.take(i as int).flat_map(per_dir),
        decreases dirs@.len() - i,
    {
        let ghost out_before = out@;
        let candidate = path_join(&dirs[i], exec.as_str());
        if exe_suffix.as_str().is_empty() {
            out.push(candidate);
        } else {
            let mut with_suffix = candidate.clone();
            with_suffix.append(".");
            with_suffix.append(exe_suffix.as_str());
            out.push(candidate);
            out.push(with_suffix);
        }
        proof {
            reveal_strlit(".");
            assert(dirviews.take(i + 1).drop_last() =~= dirviews.take(i as int));
            dirviews.take(i as int).lemma_flat_map_push(per_dir, dirviews[i as int]);
            assert(dirviews.take(i + 1) =~= dirviews.take(i as int).push(dirviews[i as int]));
            assert(out@.map_values(|x: String| x@) =~= out_before.map_values(|x: String| x@)
                + per_dir(dirviews[i as int]));
        }
        i += 1;
    }
    proof {
        assert(dirviews.take(dirviews.len() as int) =~= dirviews);
    }
    out
}

/// The conventional configuration file under one directory.
pub open spec fn config_file_of(dir: Seq<char>) -> Seq<char> {
    join_path(join_path(dir, ".nianjia"@), "config"@)
}

/// The candidate configuration files along an ancestry walk, nearest
/// directory first.
pub open spec fn spec_config_candidates(cwd: Seq<char>, stop_at: Option<Seq<char>>) -> Seq<
    Seq<char>,
> {
    ancestor_dirs(cwd, stop_at).map_values(|d: Seq<char>| config_file_of(d))
}

/// Lists the candidate configuration files for a working directory:
/// `.nianjia/config` under it and under each of its ancestors, nearest
/// first, stopping at the root or at the injected stop directory.
pub fn config_file_candidates(cwd: &String, stop_at: &Option<String>) -> (r: Vec<String>)
    ensures
        r@.map_values(|x: String| x@) == spec_config_candidates(
            cwd@,
            match stop_at {
                Some(s) => Some(s@),
                None => None,
            },
        ),
{
    let ghost stop = match stop_at {
        Some(s) => Some(s@),
        None => None::<Seq<char>>,
    };
    let mut walker = ancestors(cwd, stop_at);
    let mut out: Vec<String> = Vec::new();
    let ghost mut remaining = ancestor_dirs(cwd@, stop);
    proof {
        assert(out@.map_values(|x: String| x@) =~= Seq::<Seq<char>>::empty());
    }
    loop
        invariant
            match walker.current {
                Some(c) => remaining == ancestor_dirs(c@, stop),
                None => remaining == Seq::<Seq<char>>::empty(),
            },
            match walker.stop_at {
                Some(s) => stop == Some(s@),
                None => stop is None,
            },
            out@.map_values(|x: String| x@) + remaining.map_values(
                |d: Seq<char>| config_file_of(d),
            ) == spec_config_candidates(cwd@, stop),
        ensures
            out@.map_values(|x: String| x@) == spec_config_candidates(cwd@, stop),
        decreases (match walker.current {
            Some(c) => c@.len() as int + 1,
            None => 0,
        }),
    {
        let ghost walker_before = walker;
        match walker.next() {
            None => {
                proof {
                    assert(remaining == Seq::<Seq<char>>::empty());
                    assert(remaining.map_values(|d: Seq<char>| config_file_of(d)) =~= Seq::<
                        Seq<char>,
                    >::empty());
                    assert(out@.map_values(|x: String| x@) + remaining.map_values(
                        |d: Seq<char>| config_file_of(d),
                    ) =~= out@.map_values(|x: String| x@));
                }
                break ;
            },
            Some(dir) => {
                proof {
                    if parent_of(dir@) is Some {
                        lemma_parent_shorter(dir@);
                    }
                    assert(remaining == ancestor_dirs(dir@, stop));
                    assert(remaining[0] == dir@);
                }
                let file = path_join(&path_join(&dir, ".nianjia"), "config");
                let ghost out_before = out@;
                out.push(file);
                proof {
                    let f = |d: Seq<char>| config_file_of(d);
                    assert(out@.map_values(|x: String| x@) =~= out_before.map_values(
                        |x: String| x@,
                    ) + seq![config_file_of(dir@)]);
                    assert(remaining.map_values(f) =~= seq![config_file_of(dir@)]
                        + remaining.drop_first().map_values(f));
                    assert(out_before.map_values(|x: String| x@) + remaining.map_values(f)
                        =~= out@.map_values(|x: String| x@) + remaining.drop_first().map_values(
                        f,
                    ));
                    remaining = remaining.drop_first();
                    if walker_before.spec_stops_at(dir@) {
                        assert(stop == Some(dir@));
                        assert(remaining =~= Seq::<Seq<char>>::empty());
                    } else {
                        assert(stop != Some(dir@));
                        match parent_of(dir@) {
                            Some(par) => {
                                assert(remaining =~= ancestor_dirs(par, stop));
                            },
                            None => {
                                assert(remaining =~= Seq::<Seq<char>>::empty());
                            },
                        }
                    }
                }
            },
        }
    }
    out
}

/// The home directory's configuration file.
pub fn home_config_path(home: &String) -> (r: String)
    ensures
        r@ == join_path(home@, "config"@),
{
    path_join(home, "config")
}

/// The home directory's credentials file.
pub fn credentials_path(home: &String) -> (r: String)
    ensures
        r@ == join_path(home@, "credentials"@),
{
    path_join(home, "credentials")
}

/// The configuration files to read, in merge order: the candidates found
/// to exist, nearest first, then the home configuration unless it was
/// already among them.
pub fn config_paths_to_read(existing: &Vec<String>, home: &String, home_config_exists: bool) -> (r:
    Vec<String>)
    ensures
        r@.map_values(|x: String| x@) == existing@.map_values(|x: String| x@) + (if (
        home_config_exists && !existing@.map_values(|x: String| x@).contains(
            join_path(home@, "config"@),
        )) {
            seq![join_path(home@, "config"@)]
        } else {
            Seq::<Seq<char>>::empty()
        }),
{
    let home_config = home_config_path(home);
    let mut out: Vec<String> = Vec::new();
    let mut seen = false;
    let mut i: usize = 0;
    while i < existing.len()
        invariant
            i <= existing@.len(),
            out@ == existing@.take(i as int),
            seen == existing@.map_values(|x: String| x@).take(i as int).contains(home_config@),
        decreases existing@.len() - i,
    {
        let ghost before = existing@.map_values(|x: String| x@).take(i as int);
        if existing[i] == home_config {
            seen = true;
        }
        out.push(existing[i].clone());
        proof {
            let all = existing@.map_values(|x: String| x@);
            assert(all.take(i + 1) =~= before.push(all[i as int]));
            if before.contains(home_config@) || all[i as int] == home_config@ {
                assert(all.take(i + 1).contains(home_config@)) by {
                    if all[i as int] == home_config@ {
                        assert(all.take(i + 1)[i as int] == home_config@);
                    } else {
                        let w = choose|w: int| 0 <= w < before.len() && before[w] == home_config@;
                        assert(all.take(i + 1)[w] == home_config@);
                    }
                }
            } else {
                assert forall|w: int| 0 <= w < all.take(i + 1).len() implies #[trigger] all.take(
                    i + 1,
                )[w] != home_config@ by {
                    if w < i {
                        assert(before[w] == all.take(i + 1)[w]);
                    }
                }
            }
            assert(out@ =~= existing@.take(i + 1));
        }
        i += 1;
    }
    proof {
        let all = existing@.map_values(|x: String| x@);
        assert(all.take(all.len() as int) =~= all);
        assert(existing@.take(existing@.len() as int) =~= existing@);
    }
    if home_config_exists && !seen {
        let ghost out_before = out@;
        out.push(home_config);
        proof {
            let all = existing@.map_values(|x: String| x@);
            assert(out@.map_values(|x: String| x@) =~= all + seq![join_path(home@, "config"@)]);
        }
    } else {
        proof {
            let all = existing@.map_values(|x: String| x@);
            assert(out@.map_values(|x: String| x@) =~= all);
        }
    }
    out
}

/// How the running executable's own path is to be resolved: a bare name
/// is searched along the path list; anything else is canonicalized as it
/// stands.
#[derive(Debug)]
pub enum ExecResolution {
    /// Probe these candidate paths in order; the first regular file wins.
    Search(Vec<String>),
    /// The name already has path components: canonicalize it directly.
    Canonicalize(String),
}

/// Decides how to resolve the running executable's invocation name: a
/// bare name needs the search path, anything else is canonicalized
/// directly.
pub fn resolve_executable(exec: &String, path_var: &Option<String>, exe_suffix: &String) -> (r:
    Result<ExecResolution, NianjiaError>)
    ensures
        has_slash(exec@) ==> (r matches Ok(x) && x matches ExecResolution::Canonicalize(p) && p@
            == exec@),
        !has_slash(exec@) ==> match path_var {
            Some(pv) => r matches Ok(x) && x matches ExecResolution::Search(c)
                && c@.map_values(|s: String| s@) == spec_candidates(exec@, pv@, exe_suffix@),
            None => r matches Err(e) && e.wf() && !e.is_internal() && e.chain@.len() == 1
                && e.chain@[0]@ == "no PATH"@,
        },
{
    if is_bare_name(exec) {
        match path_var {
            Some(pv) => Ok(ExecResolution::Search(executable_candidates(exec, pv, exe_suffix))),
            None => Err(NianjiaError::msg(String::from_str("no PATH"))),
        }
    } else {
        Ok(ExecResolution::Canonicalize(exec.clone()))
    }
}

/// Picks the first candidate reported to exist; with none, the search
/// failed and the error names the executable.
pub fn pick_first_existing(candidates: &Vec<String>, exists: &Vec<bool>, exec: &String) -> (r:
    Result<String, NianjiaError>)
    requires
        exists@.len() == candidates@.len(),
    ensures
        r is Ok <==> exists|i: int| 0 <= i < exists@.len() && exists@[i],
        r matches Ok(c) ==> exists|i: int|
            0 <= i < exists@.len() && exists@[i] && c@ == candidates@[i]@ && (forall|j: int|
                0 <= j < i ==> !exists@[j]),
        r matches Err(e) ==> e.wf() && !e.is_internal() && e.chain@.len() == 1 && e.chain@[0]@
            == "no executable for `"@ + exec@ + "` found in PATH"@,
{
    let mut i: usize = 0;
    while i < candidates.len()
        invariant
            i <= candidates@.len() == exists@.len(),
            forall|j: int| 0 <= j < i ==> !exists@[j],
        decreases candidates@.len() - i,
    {
        if exists[i] {
            return Ok(candidates[i].clone());
        }
        i += 1;
    }
    let mut msg = String::from_str("no executable for `");
    msg.append(exec.as_str());
    msg.append("` found in PATH");
    Err(NianjiaError::msg(msg))
}

} // verus!
