use vstd::prelude::*;

use crate::text::{chars_of, concatenated, contains_char, owned, push_char, strs};

verus! {

/// `dir` joined with `name` the way `Path::join` does on Unix: an absolute
/// `name` replaces `dir`; otherwise a `/` is put between them unless `dir` is
/// empty or already ends with `/`.
pub open spec fn spec_path_join(dir: Seq<char>, name: Seq<char>) -> Seq<char> {
    if name.len() > 0 && name[0] == '/' {
        name
    } else if dir.len() == 0 {
        name
    } else if dir.last() == '/' {
        dir + name
    } else {
        dir + seq!['/'] + name
    }
}

/// Joins a path and a file name.
pub fn path_join(dir: &str, name: &str) -> (res: String)
    ensures
        res@ == spec_path_join(dir@, name@),
{
    let d = chars_of(dir);
    let n = chars_of(name);
    if n.len() > 0 && n[0] == '/' {
        owned(name)
    } else if d.len() == 0 {
        owned(name)
    } else if d[d.len() - 1] == '/' {
        concatenated(dir, name)
    } else {
        let mut r = owned(dir);
        push_char(&mut r, '/');
        let r2 = concatenated(r.as_str(), name);
        r2
    }
}

/// The pieces of `s` from index `i` on, cut at each `:`, `cur` being the
/// piece being read and `acc` the pieces already cut.
pub open spec fn split_colon_from(s: Seq<char>, i: int, cur: Seq<char>, acc: Seq<Seq<char>>) -> Seq<
    Seq<char>,
>
    decreases s.len() - i,
{
    if i >= s.len() || i < 0 {
        acc.push(cur)
    } else if s[i] == ':' {
        split_colon_from(s, i + 1, seq![], acc.push(cur))
    } else {
        split_colon_from(s, i + 1, cur.push(s[i]), acc)
    }
}

/// The pieces of `s` between colons (`str::split(':')`): there is always at
/// least one, and empty pieces are kept.
pub open spec fn spec_split_colon(s: Seq<char>) -> Seq<Seq<char>> {
    split_colon_from(s, 0, seq![], seq![])
}

/// Cuts `s` at each `:`.
pub fn split_colon(s: &str) -> (res: Vec<String>)
    ensures
        strs(res@) == spec_split_colon(s@),
{
    let cs = chars_of(s);
    let mut acc: Vec<String> = Vec::new();
    let mut cur = String::new();
    let mut i: usize = 0;
    assert(strs(acc@) =~= Seq::<Seq<char>>::empty());
    while i < cs.len()
        invariant
            cs@ == s@,
            i <= cs@.len(),
            spec_split_colon(s@) == split_colon_from(cs@, i as int, cur@, strs(acc@)),
        decreases cs@.len() - i,
    {
        if cs[i] == ':' {
            assert(strs(acc@.push(cur)) =~= strs(acc@).push(cur@));
            acc.push(cur);
            cur = String::new();
        } else {
            push_char(&mut cur, cs[i]);
        }
        i = i + 1;
    }
    assert(strs(acc@.push(cur)) =~= strs(acc@).push(cur@));
    acc.push(cur);
    acc
}

/// The search path used when `PATH` is not set.
pub open spec fn default_search_path() -> Seq<char> {
    "/usr/bin:/bin"@
}

/// The search path: the value of `PATH` if given, else the default one.
pub open spec fn search_path(path_env: Option<Seq<char>>) -> Seq<char> {
    match path_env {
        Some(p) => p,
        None => default_search_path(),
    }
}

/// The paths to try for `cmd`, in order: `cmd` itself when it holds a `/`,
/// else `cmd` joined with each directory of the search path.
pub open spec fn spec_candidates(cmd: Seq<char>, path_env: Option<Seq<char>>) -> Seq<Seq<char>> {
    if cmd.contains('/') {
        seq![cmd]
    } else {
        spec_split_colon(search_path(path_env)).map_values(|d: Seq<char>| spec_path_join(d, cmd))
    }
}

proof fn lemma_split_piece(s: Seq<char>, i: int, w: Seq<char>, cur: Seq<char>, acc: Seq<Seq<char>>)
    requires
        0 <= i,
        i + w.len() <= s.len(),
        s.subrange(i, i + w.len()) == w,
        !w.contains(':'),
    ensures
        split_colon_from(s, i, cur, acc) == split_colon_from(s, i + w.len(), cur + w, acc),
    decreases w.len(),
{
    if w.len() == 0 {
        assert(cur + w =~= cur);
    } else {
        assert(s[i] == s.subrange(i, i + w.len())[0]);
        assert(s[i] == w[0]);
        assert(s.subrange(i + 1, i + 1 + w.skip(1).len()) =~= w.skip(1));
        assert(!w.skip(1).contains(':')) by {
            if w.skip(1).contains(':') {
                let j = choose|j: int| 0 <= j < w.skip(1).len() && w.skip(1)[j] == ':';
                assert(w[j + 1] == ':');
            }
        }
        lemma_split_piece(s, i + 1, w.skip(1), cur.push(w[0]), acc);
        assert(cur.push(w[0]) + w.skip(1) =~= cur + w);
    }
}

/// A text without `:` is one piece; two texts without `:` joined by one `:`
/// are cut back into those two pieces (empty pieces included).
pub proof fn law_split_colon_pieces(a: Seq<char>, b: Seq<char>)
    requires
        !a.contains(':'),
        !b.contains(':'),
    ensures
        spec_split_colon(a) == seq![a],
        spec_split_colon(a + seq![':'] + b) == seq![a, b],
{
    let e: Seq<char> = seq![];
    let et: Seq<Seq<char>> = seq![];
    assert(a.subrange(0, a.len() as int) =~= a);
    lemma_split_piece(a, 0, a, e, et);
    assert(e + a =~= a);
    let s = a + seq![':'] + b;
    let al = a.len() as int;
    assert(s.subrange(0, al) =~= a);
    lemma_split_piece(s, 0, a, e, et);
    assert(s[al] == ':');
    assert(s.subrange(al + 1, al + 1 + b.len()) =~= b);
    lemma_split_piece(s, al + 1, b, e, et.push(a));
    assert(e + b =~= b);
    assert(et.push(a).push(b) =~= seq![a, b]);
}

/// Without `PATH`, a command name without `/` is looked for in `/usr/bin`,
/// then in `/bin`; a name with a `/` is taken as the path itself.
pub proof fn law_default_search(cmd: Seq<char>)
    ensures
        !cmd.contains('/') ==> spec_candidates(cmd, None) == seq![
            "/usr/bin"@ + seq!['/'] + cmd,
            "/bin"@ + seq!['/'] + cmd,
        ],
        cmd.contains('/') ==> spec_candidates(cmd, None) == seq![cmd],
{
    reveal_strlit("/usr/bin:/bin");
    reveal_strlit("/usr/bin");
    reveal_strlit("/bin");
    let u = "/usr/bin"@;
    let b = "/bin"@;
    assert(u =~= seq!['/', 'u', 's', 'r', '/', 'b', 'i', 'n']);
    assert(b =~= seq!['/', 'b', 'i', 'n']);
    assert("/usr/bin:/bin"@ =~= u + seq![':'] + b);
    assert(!u.contains(':')) by {
        if u.contains(':') {
            let j = choose|j: int| 0 <= j < u.len() && u[j] == ':';
        }
    }
    assert(!b.contains(':')) by {
        if b.contains(':') {
            let j = choose|j: int| 0 <= j < b.len() && b[j] == ':';
        }
    }
    law_split_colon_pieces(u, b);
    if !cmd.contains('/') {
        if cmd.len() > 0 {
            assert(cmd[0] != '/');
        }
        let ds = spec_split_colon(default_search_path());
        assert(ds == seq![u, b]);
        assert(u.last() == 'n');
        assert(b.last() == 'n');
        assert(ds.map_values(|d: Seq<char>| spec_path_join(d, cmd)) =~= seq![
            u + seq!['/'] + cmd,
            b + seq!['/'] + cmd,
        ]);
    }
}

/// The view of an optional string slice.
pub open spec fn opt_view(o: Option<&str>) -> Option<Seq<char>> {
    match o {
        Some(s) => Some(s@),
        None => None,
    }
}

/// The paths to try for `cmd`, in order.
pub fn candidate_paths(cmd: &str, path_env: Option<&str>) -> (res: Vec<String>)
    ensures
        strs(res@) == spec_candidates(cmd@, opt_view(path_env)),
{
    if contains_char(cmd, '/') {
        let mut v: Vec<String> = Vec::new();
        v.push(owned(cmd));
        assert(strs(v@) =~= seq![cmd@]);
        return v;
    }
    let dirs = match path_env {
        Some(p) => split_colon(p),
        None => split_colon("/usr/bin:/bin"),
    };
    let ghost ds = strs(dirs@);
    assert(ds == spec_split_colon(search_path(opt_view(path_env))));
    let mut res: Vec<String> = Vec::new();
    let mut i: usize = 0;
    assert(strs(res@) =~= Seq::<Seq<char>>::empty());
    while i < dirs.len()
        invariant
            i <= dirs@.len(),
            ds == strs(dirs@),
            strs(res@) == ds.take(i as int).map_values(|d: Seq<char>| spec_path_join(d, cmd@)),
        decreases dirs@.len() - i,
    {
        let p = path_join(dirs[i].as_str(), cmd);
        proof {
            assert(ds[i as int] == dirs@[i as int]@);
            assert(strs(res@.push(p)) =~= strs(res@).push(p@));
            assert(ds.take(i + 1).map_values(|d: Seq<char>| spec_path_join(d, cmd@)) =~= ds.take(
                i as int,
            ).map_values(|d: Seq<char>| spec_path_join(d, cmd@)).push(p@));
        }
        res.push(p);
        i = i + 1;
    }
    assert(ds.take(dirs@.len() as int) =~= ds);
    res
}

/// Some call of `probe` on a path with the characters `x` may return `b`.
pub open spec fn probe_says<F: Fn(&str) -> bool>(probe: F, x: Seq<char>, b: bool) -> bool {
    exists|s: &str| s@ == x && call_ensures(probe, (s,), b)
}

/// `res` is a possible outcome of trying the candidate paths `c` in order
/// with `probe`: the first one it accepts, or none when it accepts none.
pub open spec fn resolution<F: Fn(&str) -> bool>(probe: F, c: Seq<Seq<char>>, res: Option<Seq<char>>) -> bool {
    match res {
        Some(p) => exists|i: int|
            0 <= i < c.len() && #[trigger] c[i] == p && probe_says(probe, c[i], true) && forall|j: int|
                0 <= j < i ==> probe_says(probe, #[trigger] c[j], false),
        None => forall|j: int| 0 <= j < c.len() ==> probe_says(probe, #[trigger] c[j], false),
    }
}

/// The view of an optional string.
pub open spec fn opt_string_view(o: Option<String>) -> Option<Seq<char>> {
    match o {
        Some(s) => Some(s@),
        None => None,
    }
}

/// Finds the executable for `cmd`: the first of its candidate paths (see
/// `spec_candidates`) that `probe` accepts. `probe` tells whether a path
/// names an executable regular file.
pub fn resolve_path<F: Fn(&str) -> bool>(cmd: &str, path_env: Option<&str>, probe: F) -> (res:
    Option<String>)
    requires
        forall|s: &str| call_requires(probe, (s,)),
    ensures
        resolution(probe, spec_candidates(cmd@, opt_view(path_env)), opt_string_view(res)),
{
    let cands = candidate_paths(cmd, path_env);
    let ghost c = strs(cands@);
    let mut i: usize = 0;
    while i < cands.len()
        invariant
            i <= cands@.len(),
            c == strs(cands@),
            c == spec_candidates(cmd@, opt_view(path_env)),
            forall|s: &str| call_requires(probe, (s,)),
            forall|j: int| 0 <= j < i ==> probe_says(probe, #[trigger] c[j], false),
        decreases cands@.len() - i,
    {
        let s = cands[i].as_str();
        let ok = probe(s);
        assert(c[i as int] == s@);
        assert(probe_says(probe, c[i as int], ok));
        if ok {
            let p = owned(s);
            assert(c[i as int] == p@);
            return Some(p);
        }
        i = i + 1;
    }
    None
}

} // verus!
