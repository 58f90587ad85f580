use vstd::prelude::*;

use crate::order::{lemma_lt_irreflexive, lemma_lt_total, lemma_lt_transitive, seq_lt, str_lt};
use crate::strmap::StrMap;
use crate::text::{
    chars_of, concatenated, contains_char, contains_str, is_whitespace, is_ws, lemma_trim_start_pad,
    owned, push_char, string_of, strs, trim_start,
};

verus! {

/// A completion offered to the user: the text shown in the list and the text
/// that replaces the word being completed.
#[derive(Debug)]
pub struct Candidate {
    pub display: String,
    pub replacement: String,
}

impl View for Candidate {
    type V = (Seq<char>, Seq<char>);

    open spec fn view(&self) -> (Seq<char>, Seq<char>) {
        (self.display@, self.replacement@)
    }
}

impl Candidate {
    /// A copy of this candidate.
    pub fn duplicate(&self) -> (c: Candidate)
        ensures
            c@ == self@,
    {
        Candidate { display: self.display.clone(), replacement: self.replacement.clone() }
    }
}

/// The views of a sequence of candidates.
pub open spec fn cand_views(v: Seq<Candidate>) -> Seq<(Seq<char>, Seq<char>)> {
    v.map_values(|c: Candidate| c@)
}

/// The candidates of `s` whose display is `k`, in order.
pub open spec fn with_display(s: Seq<(Seq<char>, Seq<char>)>, k: Seq<char>) -> Seq<
    (Seq<char>, Seq<char>),
>
    decreases s.len(),
{
    if s.len() == 0 {
        seq![]
    } else {
        with_display(s.drop_last(), k) + if s.last().0 == k {
            seq![s.last()]
        } else {
            Seq::<(Seq<char>, Seq<char>)>::empty()
        }
    }
}

/// The candidates are in order of their display text.
pub open spec fn sorted_by_display(s: Seq<(Seq<char>, Seq<char>)>) -> bool {
    forall|i: int, j: int| 0 <= i < j < s.len() ==> !seq_lt(#[trigger] s[j].0, #[trigger] s[i].0)
}

/// `out` is `input` sorted by display text, candidates with the same display
/// keeping their order (`sort_by` on the display, which is stable).
pub open spec fn stably_sorted(
    input: Seq<(Seq<char>, Seq<char>)>,
    out: Seq<(Seq<char>, Seq<char>)>,
) -> bool {
    &&& sorted_by_display(out)
    &&& forall|k: Seq<char>| #[trigger] with_display(out, k) == with_display(input, k)
}

proof fn lemma_with_display_add(a: Seq<(Seq<char>, Seq<char>)>, b: Seq<(Seq<char>, Seq<char>)>, k: Seq<char>)
    ensures
        with_display(a + b, k) == with_display(a, k) + with_display(b, k),
    decreases b.len(),
{
    if b.len() == 0 {
        assert(a + b =~= a);
        assert(with_display(a, k) + with_display(b, k) =~= with_display(a, k));
    } else {
        assert((a + b).drop_last() =~= a + b.drop_last());
        assert((a + b).last() == b.last());
        lemma_with_display_add(a, b.drop_last(), k);
        let t = if b.last().0 == k {
            seq![b.last()]
        } else {
            Seq::<(Seq<char>, Seq<char>)>::empty()
        };
        assert(with_display(a, k) + with_display(b.drop_last(), k) + t =~= with_display(a, k) + (
        with_display(b.drop_last(), k) + t));
    }
}

proof fn lemma_with_display_none(s: Seq<(Seq<char>, Seq<char>)>, k: Seq<char>)
    requires
        forall|i: int| 0 <= i < s.len() ==> (#[trigger] s[i]).0 != k,
    ensures
        with_display(s, k) == Seq::<(Seq<char>, Seq<char>)>::empty(),
    decreases s.len(),
{
    if s.len() > 0 {
        assert forall|i: int| 0 <= i < s.drop_last().len() implies (#[trigger] s.drop_last()[i]).0
            != k by {
            assert(s.drop_last()[i] == s[i]);
        }
        lemma_with_display_none(s.drop_last(), k);
        assert(s.last() == s[s.len() - 1]);
        assert(with_display(s, k) =~= Seq::<(Seq<char>, Seq<char>)>::empty());
    }
}

/// The candidates sorted by display text, stably.
pub fn sort_candidates(v: Vec<Candidate>) -> (out: Vec<Candidate>)
    ensures
        stably_sorted(cand_views(v@), cand_views(out@)),
{
    let ghost input = cand_views(v@);
    let mut out: Vec<Candidate> = Vec::new();
    let n = v.len();
    let mut i: usize = 0;
    assert(cand_views(out@) =~= Seq::<(Seq<char>, Seq<char>)>::empty());
    assert(input.take(0) =~= Seq::<(Seq<char>, Seq<char>)>::empty());
    while i < n
        invariant
            n == v@.len(),
            input == cand_views(v@),
            i <= n,
            sorted_by_display(cand_views(out@)),
            forall|k: Seq<char>| #[trigger]
                with_display(cand_views(out@), k) == with_display(input.take(i as int), k),
        decreases n - i,
    {
        let x = v[i].duplicate();
        let ghost o = cand_views(out@);
        let mut p: usize = 0;
        while p < out.len() && !str_lt(x.display.as_str(), out[p].display.as_str())
            invariant
                p <= out@.len(),
                o == cand_views(out@),
                forall|j: int| 0 <= j < p ==> !seq_lt(x@.0, (#[trigger] o[j]).0),
            decreases out@.len() - p,
        {
            assert(o[p as int] == out@[p as int]@);
            p = p + 1;
        }
        proof {
            if p < out@.len() {
                assert(o[p as int] == out@[p as int]@);
                assert(seq_lt(x@.0, o[p as int].0));
            }
        }
        let ghost xv = x@;
        out.insert(p, x);
        proof {
            let o2 = cand_views(out@);
            assert(o2 =~= o.take(p as int) + seq![xv] + o.skip(p as int));
            // elements from p on come strictly after x
            assert forall|j: int| p <= j < o.len() implies seq_lt(xv.0, (#[trigger] o[j]).0) by {
                if j > p {
                    assert(!seq_lt(o[j].0, o[p as int].0));
                    lemma_lt_total(o[j].0, o[p as int].0);
                    if o[j].0 != o[p as int].0 {
                        lemma_lt_transitive(xv.0, o[p as int].0, o[j].0);
                    }
                }
            }
            // sorted
            assert forall|a: int, b: int| 0 <= a < b < o2.len() implies !seq_lt(
                #[trigger] o2[b].0,
                #[trigger] o2[a].0,
            ) by {
                if b < p {
                    assert(o2[a] == o[a] && o2[b] == o[b]);
                } else if b == p {
                    assert(o2[a] == o[a] && o2[b] == xv);
                } else if a > p {
                    assert(o2[a] == o[a - 1] && o2[b] == o[b - 1]);
                } else if a == p {
                    assert(o2[a] == xv && o2[b] == o[b - 1]);
                    assert(seq_lt(xv.0, o[b - 1].0));
                    if seq_lt(o[b - 1].0, xv.0) {
                        lemma_lt_transitive(xv.0, o[b - 1].0, xv.0);
                        lemma_lt_irreflexive(xv.0);
                    }
                } else {
                    assert(o2[a] == o[a] && o2[b] == o[b - 1]);
                    assert(!seq_lt(xv.0, o[a].0));
                    assert(seq_lt(xv.0, o[b - 1].0));
                    if seq_lt(o[b - 1].0, o[a].0) {
                        lemma_lt_total(xv.0, o[a].0);
                        if xv.0 == o[a].0 {
                            lemma_lt_transitive(xv.0, o[b - 1].0, o[a].0);
                            lemma_lt_irreflexive(xv.0);
                        } else {
                            lemma_lt_transitive(o[a].0, xv.0, o[b - 1].0);
                            lemma_lt_transitive(o[a].0, o[b - 1].0, o[a].0);
                            lemma_lt_irreflexive(o[a].0);
                        }
                    }
                }
            }
            // each display keeps its candidates, in order
            assert(input.take(i + 1) =~= input.take(i as int).push(xv));
            assert(input[i as int] == xv);
            assert forall|k: Seq<char>| #[trigger]
                with_display(o2, k) == with_display(input.take(i + 1), k) by {
                lemma_with_display_add(o.take(p as int) + seq![xv], o.skip(p as int), k);
                lemma_with_display_add(o.take(p as int), seq![xv], k);
                lemma_with_display_add(o.take(p as int), o.skip(p as int), k);
                assert(o.take(p as int) + o.skip(p as int) =~= o);
                assert(seq![xv].drop_last() =~= Seq::<(Seq<char>, Seq<char>)>::empty());
                assert(with_display(Seq::<(Seq<char>, Seq<char>)>::empty(), k) =~= Seq::<(Seq<char>, Seq<char>)>::empty());
                assert(input.take(i + 1).drop_last() =~= input.take(i as int));
                if xv.0 == k {
                    assert forall|j: int| 0 <= j < o.skip(p as int).len() implies (
                    #[trigger] o.skip(p as int)[j]).0 != k by {
                        assert(o.skip(p as int)[j] == o[p + j]);
                        assert(seq_lt(xv.0, o[p + j].0));
                        lemma_lt_irreflexive(xv.0);
                    }
                    lemma_with_display_none(o.skip(p as int), k);
                    assert(with_display(o.take(p as int), k) + Seq::<(Seq<char>, Seq<char>)>::empty()
                        =~= with_display(o.take(p as int), k));
                    assert(Seq::<(Seq<char>, Seq<char>)>::empty() + seq![xv] =~= seq![xv]);
                } else {
                    assert(Seq::<(Seq<char>, Seq<char>)>::empty() + Seq::<(Seq<char>, Seq<char>)>::empty()
                        =~= Seq::<(Seq<char>, Seq<char>)>::empty());
                    assert(with_display(o.take(p as int), k) + Seq::<(Seq<char>, Seq<char>)>::empty()
                        =~= with_display(o.take(p as int), k));
                    assert(with_display(input.take(i as int), k) + Seq::<(Seq<char>, Seq<char>)>::empty()
                        =~= with_display(input.take(i as int), k));
                }
            }
        }
        i = i + 1;
    }
    assert(input.take(n as int) =~= input);
    out
}


/// The index where the word ending at the cursor starts in `before` (the line
/// up to the cursor): just after its last white space, or 0.
pub open spec fn word_start(before: Seq<char>) -> int
    decreases before.len(),
{
    if before.len() == 0 {
        0
    } else if is_ws(before.last()) {
        before.len() as int
    } else {
        word_start(before.drop_last())
    }
}

/// The first word of `s` (`split_whitespace().next()`), or an empty one.
pub open spec fn first_word(s: Seq<char>) -> Seq<char> {
    leading_word(trim_start(s))
}

/// The characters of `t` up to its first white space.
pub open spec fn leading_word(t: Seq<char>) -> Seq<char>
    decreases t.len(),
{
    if t.len() == 0 || is_ws(t[0]) {
        seq![]
    } else {
        seq![t[0]] + leading_word(t.skip(1))
    }
}

/// `p` is a prefix of `s`.
pub open spec fn is_prefix(p: Seq<char>, s: Seq<char>) -> bool {
    p.len() <= s.len() && s.take(p.len() as int) == p
}

/// The command candidates for the word `w`, in the order of `commands`: each
/// command that starts with `w`, shown as itself and completed with a space.
pub open spec fn command_matches(commands: Seq<Seq<char>>, w: Seq<char>) -> Seq<
    (Seq<char>, Seq<char>),
>
    decreases commands.len(),
{
    if commands.len() == 0 {
        seq![]
    } else {
        command_matches(commands.drop_last(), w) + if is_prefix(w, commands.last()) {
            seq![(commands.last(), commands.last() + " "@)]
        } else {
            Seq::<(Seq<char>, Seq<char>)>::empty()
        }
    }
}

/// The command candidates for `w` are exactly the commands that start with
/// `w`, each shown as itself and completed with a space after it.
pub proof fn law_command_matches_are_the_prefixed_commands(
    commands: Seq<Seq<char>>,
    w: Seq<char>,
    d: Seq<char>,
    r: Seq<char>,
)
    ensures
        command_matches(commands, w).contains((d, r)) <==> (commands.contains(d) && is_prefix(w, d)
            && r == d + " "@),
    decreases commands.len(),
{
    if commands.len() > 0 {
        let init = commands.drop_last();
        let last = commands.last();
        law_command_matches_are_the_prefixed_commands(init, w, d, r);
        let tail = if is_prefix(w, last) {
            seq![(last, last + " "@)]
        } else {
            Seq::<(Seq<char>, Seq<char>)>::empty()
        };
        let m = command_matches(init, w);
        assert(command_matches(commands, w) == m + tail);
        if (m + tail).contains((d, r)) {
            let i = choose|i: int| 0 <= i < (m + tail).len() && (m + tail)[i] == (d, r);
            if i < m.len() {
                assert(m[i] == (d, r));
                assert(m.contains((d, r)));
                let j = choose|j: int| 0 <= j < init.len() && init[j] == d;
                assert(commands[j] == d);
            } else {
                assert(tail[i - m.len()] == (d, r));
                assert(commands[commands.len() - 1] == d);
            }
        }
        if commands.contains(d) && is_prefix(w, d) && r == d + " "@ {
            let j = choose|j: int| 0 <= j < commands.len() && commands[j] == d;
            if j < init.len() {
                assert(init[j] == d);
                assert(m.contains((d, r)));
                let i = choose|i: int| 0 <= i < m.len() && m[i] == (d, r);
                assert((m + tail)[i] == (d, r));
            } else {
                assert(last == d);
                assert((m + tail)[m.len() as int] == (d, r));
            }
        }
    }
}

/// The word being completed is the end of the line before the cursor back
/// to the last white space: it holds no white space, and it starts the line
/// or follows a white space.
pub proof fn law_word_at_cursor(before: Seq<char>)
    ensures
        0 <= word_start(before) <= before.len(),
        word_start(before) == 0 || is_ws(before[word_start(before) - 1]),
        forall|k: int| word_start(before) <= k < before.len() ==> !is_ws(#[trigger] before[k]),
    decreases before.len(),
{
    if before.len() > 0 && !is_ws(before.last()) {
        let d = before.drop_last();
        law_word_at_cursor(d);
        assert forall|k: int| word_start(before) <= k < before.len() implies !is_ws(
            #[trigger] before[k],
        ) by {
            if k < d.len() {
                assert(before[k] == d[k]);
            }
        }
        if word_start(d) > 0 {
            assert(before[word_start(d) - 1] == d[word_start(d) - 1]);
        }
    }
}

proof fn lemma_leading_word(w: Seq<char>, rest: Seq<char>)
    requires
        forall|k: int| 0 <= k < w.len() ==> !is_ws(#[trigger] w[k]),
        rest.len() == 0 || is_ws(rest[0]),
    ensures
        leading_word(w + rest) == w,
    decreases w.len(),
{
    if w.len() == 0 {
        assert(w + rest =~= rest);
    } else {
        assert((w + rest)[0] == w[0]);
        assert((w + rest).skip(1) =~= w.skip(1) + rest);
        assert forall|k: int| 0 <= k < w.skip(1).len() implies !is_ws(#[trigger] w.skip(1)[k]) by {
            assert(w.skip(1)[k] == w[k + 1]);
        }
        lemma_leading_word(w.skip(1), rest);
        assert(seq![w[0]] + w.skip(1) =~= w);
    }
}

/// The first word of a line is the text after the leading white space up to
/// the next white space (or the end): the command whose completion script is
/// looked up.
pub proof fn law_first_word(pre: Seq<char>, w: Seq<char>, rest: Seq<char>)
    requires
        forall|k: int| 0 <= k < pre.len() ==> is_ws(#[trigger] pre[k]),
        w.len() > 0,
        forall|k: int| 0 <= k < w.len() ==> !is_ws(#[trigger] w[k]),
        rest.len() == 0 || is_ws(rest[0]),
    ensures
        first_word(pre + w + rest) == w,
{
    assert(pre + w + rest =~= pre + (w + rest));
    assert((w + rest)[0] == w[0]);
    lemma_trim_start_pad(pre, w + rest);
    lemma_leading_word(w, rest);
}

/// How the completion of a line goes on.
pub enum CompletionPlan {
    /// Complete the command name: the candidates, to replace from `start`.
    Commands { start: usize, candidates: Vec<Candidate> },
    /// Run the completion script registered for the command, and replace from `start`.
    Script { start: usize, script: String },
    /// Complete a file name.
    Filenames,
}

/// The commands that can be completed: the builtins and the files found in
/// the directories of `PATH`, each name once.
pub struct ShellCompleter {
    commands: Vec<String>,
}

impl ShellCompleter {
    /// The command names.
    pub closed spec fn commands(&self) -> Seq<Seq<char>> {
        strs(self.commands@)
    }

    /// No name occurs twice.
    pub closed spec fn wf(&self) -> bool {
        self.commands().no_duplicates()
    }

    /// A completer for the builtin names `builtin_names` and the entries
    /// `path_entries` of the directories of `PATH`.
    pub fn new(builtin_names: &[String], path_entries: &[String]) -> (c: ShellCompleter)
        ensures
            c.wf(),
            c.commands().to_set() == strs(builtin_names@).to_set().union(
                strs(path_entries@).to_set(),
            ),
    {
        let mut commands: Vec<String> = Vec::new();
        let ghost b = strs(builtin_names@);
        let ghost e = strs(path_entries@);
        let mut i: usize = 0;
        assert(strs(commands@) =~= Seq::<Seq<char>>::empty());
        while i < builtin_names.len()
            invariant
                i <= builtin_names@.len(),
                b == strs(builtin_names@),
                strs(commands@).no_duplicates(),
                strs(commands@).to_set() == b.take(i as int).to_set(),
            decreases builtin_names@.len() - i,
        {
            assert(b[i as int] == builtin_names@[i as int]@);
            assert(b.take(i + 1) =~= b.take(i as int).push(b[i as int]));
            let ghost before = strs(commands@);
            if !contains_str(commands.as_slice(), builtin_names[i].as_str()) {
                let s = builtin_names[i].clone();
                assert(strs(commands@.push(s)) =~= strs(commands@).push(s@));
                commands.push(s);
                proof {
                    before.lemma_push_to_set_commute(s@);
                    assert forall|a: int, c: int| 0 <= a < c < strs(commands@).len() implies strs(commands@)[a] != strs(commands@)[c] by {
                        if c == before.len() {
                            assert(before[a] == strs(commands@)[a]);
                            assert(before.contains(before[a]));
                        } else {
                            assert(before[a] == strs(commands@)[a] && before[c] == strs(commands@)[c]);
                        }
                    }
                }
            } else {
                assert(before.to_set().contains(builtin_names@[i as int]@));
                assert(before.to_set().insert(builtin_names@[i as int]@) =~= before.to_set());
            }
            proof { b.take(i as int).lemma_push_to_set_commute(b[i as int]); }
            assert(b.take(i + 1).to_set() =~= b.take(i as int).to_set().insert(b[i as int]));
            i = i + 1;
        }
        assert(b.take(builtin_names@.len() as int) =~= b);
        let mut j: usize = 0;
        assert(e.take(0).to_set() =~= Set::<Seq<char>>::empty());
        assert(b.to_set().union(Set::<Seq<char>>::empty()) =~= b.to_set());
        while j < path_entries.len()
            invariant
                j <= path_entries@.len(),
                e == strs(path_entries@),
                strs(commands@).no_duplicates(),
                strs(commands@).to_set() == b.to_set().union(e.take(j as int).to_set()),
            decreases path_entries@.len() - j,
        {
            assert(e[j as int] == path_entries@[j as int]@);
            assert(e.take(j + 1) =~= e.take(j as int).push(e[j as int]));
            let ghost before = strs(commands@);
            if !contains_str(commands.as_slice(), path_entries[j].as_str()) {
                let s = path_entries[j].clone();
                assert(strs(commands@.push(s)) =~= strs(commands@).push(s@));
                commands.push(s);
                proof {
                    before.lemma_push_to_set_commute(s@);
                    assert forall|a: int, c: int| 0 <= a < c < strs(commands@).len() implies strs(commands@)[a] != strs(commands@)[c] by {
                        if c == before.len() {
                            assert(before[a] == strs(commands@)[a]);
                            assert(before.contains(before[a]));
                        } else {
                            assert(before[a] == strs(commands@)[a] && before[c] == strs(commands@)[c]);
                        }
                    }
                }
            } else {
                assert(before.to_set().contains(path_entries@[j as int]@));
                assert(before.to_set().insert(path_entries@[j as int]@) =~= before.to_set());
            }
            proof { e.take(j as int).lemma_push_to_set_commute(e[j as int]); }
            assert(e.take(j + 1).to_set() =~= e.take(j as int).to_set().insert(e[j as int]));
            assert(b.to_set().union(e.take(j + 1).to_set()) =~= b.to_set().union(
                e.take(j as int).to_set(),
            ).insert(e[j as int]));
            j = j + 1;
        }
        assert(e.take(path_entries@.len() as int) =~= e);
        ShellCompleter { commands }
    }

    /// Decides how to complete `line` with the cursor after its first `pos`
    /// characters: the command name when the word at the cursor is the first
    /// one and has no `/`; else the completion script registered in `specs`
    /// for the first word of the line, if any; else a file name.
    pub fn complete_plan(&self, line: &str, pos: usize, specs: &StrMap) -> (plan: CompletionPlan)
        requires
            pos <= line@.len(),
            specs.wf(),
        ensures
            ({
                let before = line@.take(pos as int);
                let ws = word_start(before);
                let word = before.skip(ws);
                if ws == 0 && !word.contains('/') {
                    plan matches CompletionPlan::Commands { start, candidates } && start == 0
                        && stably_sorted(
                        command_matches(self.commands(), word),
                        cand_views(candidates@),
                    )
                } else {
                    let fw = first_word(line@);
                    if specs@.dom().contains(fw) {
                        plan matches CompletionPlan::Script { start, script } && start == ws
                            && script@ == specs@[fw]
                    } else {
                        plan is Filenames
                    }
                }
            }),
    {
        let cs = chars_of(line);
        let mut ws: usize = pos;
        assert(line@.take(pos as int) =~= cs@.take(pos as int));
        while ws > 0 && !is_whitespace(cs[ws - 1])
            invariant
                cs@ == line@,
                ws <= pos <= cs@.len(),
                word_start(line@.take(pos as int)) == word_start(cs@.take(ws as int)),
            decreases ws,
        {
            assert(cs@.take(ws as int).drop_last() =~= cs@.take(ws - 1));
            ws = ws - 1;
        }
        let ghost before = line@.take(pos as int);
        assert(word_start(before) == ws);
        let word = string_of(&cs.as_slice()[ws..pos]);
        assert(word@ =~= before.skip(ws as int));
        if ws == 0 && !contains_char(word.as_str(), '/') {
            let mut found: Vec<Candidate> = Vec::new();
            let mut i: usize = 0;
            let ghost c = self.commands();
            assert(c.take(0) =~= Seq::<Seq<char>>::empty());
            assert(cand_views(found@) =~= Seq::<(Seq<char>, Seq<char>)>::empty());
            while i < self.commands.len()
                invariant
                    i <= self.commands@.len(),
                    c == strs(self.commands@),
                    cand_views(found@) == command_matches(c.take(i as int), word@),
                decreases self.commands@.len() - i,
            {
                let cmd = &self.commands[i];
                assert(c[i as int] == cmd@);
                assert(c.take(i + 1).drop_last() =~= c.take(i as int));
                if starts_with(cmd.as_str(), word.as_str()) {
                    let cand = Candidate { display: cmd.clone(), replacement: concatenated(cmd.as_str(), " ") };
                    assert(cand_views(found@.push(cand)) =~= cand_views(found@) + seq![cand@]);
                    found.push(cand);
                } else {
                    assert(cand_views(found@) =~= cand_views(found@) + Seq::<(Seq<char>, Seq<char>)>::empty());
                }
                i = i + 1;
            }
            assert(c.take(self.commands@.len() as int) =~= c);
            let candidates = sort_candidates(found);
            return CompletionPlan::Commands { start: 0, candidates };
        }
        let fw = first_word_of(&cs);
        match specs.get(fw.as_str()) {
            Some(script) => CompletionPlan::Script { start: ws, script: script.clone() },
            None => CompletionPlan::Filenames,
        }
    }
}

/// Whether `s` starts with `p`.
pub fn starts_with(s: &str, p: &str) -> (b: bool)
    ensures
        b == is_prefix(p@, s@),
{
    let x = chars_of(s);
    let y = chars_of(p);
    if y.len() > x.len() {
        return false;
    }
    let mut i: usize = 0;
    while i < y.len()
        invariant
            x@ == s@,
            y@ == p@,
            y@.len() <= x@.len(),
            i <= y@.len(),
            forall|j: int| 0 <= j < i ==> x@[j] == y@[j],
        decreases y@.len() - i,
    {
        if x[i] != y[i] {
            assert(x@.take(y@.len() as int)[i as int] != y@[i as int]);
            return false;
        }
        i = i + 1;
    }
    assert(x@.take(y@.len() as int) =~= y@);
    true
}

/// The first word of the characters `cs`.
fn first_word_of(cs: &Vec<char>) -> (w: String)
    ensures
        w@ == first_word(cs@),
{
    let n = cs.len();
    let mut i: usize = 0;
    assert(cs@.skip(0) =~= cs@);
    while i < n && is_whitespace(cs[i])
        invariant
            n == cs@.len(),
            i <= n,
            trim_start(cs@) == trim_start(cs@.skip(i as int)),
        decreases n - i,
    {
        assert(cs@.skip(i as int).skip(1) =~= cs@.skip(i + 1));
        i = i + 1;
    }
    let ghost t = cs@.skip(i as int);
    assert(trim_start(cs@) == t);
    let mut j: usize = i;
    assert(t.skip(0) =~= t);
    assert(Seq::<char>::empty() + leading_word(t) =~= leading_word(t));
    while j < n && !is_whitespace(cs[j])
        invariant
            n == cs@.len(),
            i <= j <= n,
            t == cs@.skip(i as int),
            leading_word(t) == cs@.subrange(i as int, j as int) + leading_word(t.skip(j - i)),
        decreases n - j,
    {
        assert(t.skip(j - i)[0] == cs@[j as int]);
        assert(t.skip(j - i).skip(1) =~= t.skip(j - i + 1));
        assert(cs@.subrange(i as int, j + 1) =~= cs@.subrange(i as int, j as int) + seq![cs@[j as int]]);
        j = j + 1;
    }
    assert(leading_word(t.skip(j - i)) =~= Seq::<char>::empty());
    string_of(&cs.as_slice()[i..j])
}


/// The non-empty lines of `s` from index `i` on (`str::lines` with the empty
/// lines left out), `cur` being the line being read and `acc` the lines kept.
/// A line ended by a newline loses one carriage return before it.
pub open spec fn output_lines_from(s: Seq<char>, i: int, cur: Seq<char>, acc: Seq<Seq<char>>) -> Seq<
    Seq<char>,
>
    decreases s.len() - i,
{
    if i >= s.len() || i < 0 {
        if cur.len() > 0 {
            acc.push(cur)
        } else {
            acc
        }
    } else if s[i] == '\n' {
        let l = if cur.len() > 0 && cur.last() == '\r' {
            cur.drop_last()
        } else {
            cur
        };
        output_lines_from(s, i + 1, seq![], if l.len() > 0 {
            acc.push(l)
        } else {
            acc
        })
    } else {
        output_lines_from(s, i + 1, cur.push(s[i]), acc)
    }
}

/// The non-empty lines of `s`.
pub open spec fn nonempty_lines(s: Seq<char>) -> Seq<Seq<char>> {
    output_lines_from(s, 0, seq![], seq![])
}

/// The candidate for a line printed by a completion script: shown as it is,
/// completed with a space after it.
pub open spec fn line_candidate(l: Seq<char>) -> (Seq<char>, Seq<char>) {
    (l, l + " "@)
}

/// The candidates that the output `output` of a completion script gives: one
/// per non-empty line, sorted by display text.
pub fn script_candidates(output: &str) -> (r: Vec<Candidate>)
    ensures
        stably_sorted(
            nonempty_lines(output@).map_values(|l: Seq<char>| line_candidate(l)),
            cand_views(r@),
        ),
{
    let cs = chars_of(output);
    let mut lines: Vec<String> = Vec::new();
    let mut cur: Vec<char> = Vec::new();
    let mut i: usize = 0;
    assert(strs(lines@) =~= Seq::<Seq<char>>::empty());
    while i < cs.len()
        invariant
            cs@ == output@,
            i <= cs@.len(),
            nonempty_lines(output@) == output_lines_from(cs@, i as int, cur@, strs(lines@)),
        decreases cs@.len() - i,
    {
        if cs[i] == '\n' {
            let ghost c0 = cur@;
            if cur.len() > 0 && cur[cur.len() - 1] == '\r' {
                let _ = cur.pop();
                assert(cur@ =~= c0.drop_last());
            }
            if cur.len() > 0 {
                let l = string_of(cur.as_slice());
                assert(strs(lines@.push(l)) =~= strs(lines@).push(l@));
                lines.push(l);
            }
            cur = Vec::new();
            assert(cur@ =~= Seq::<char>::empty());
        } else {
            cur.push(cs[i]);
        }
        i = i + 1;
    }
    if cur.len() > 0 {
        let l = string_of(cur.as_slice());
        assert(strs(lines@.push(l)) =~= strs(lines@).push(l@));
        lines.push(l);
    }
    let ghost ls = strs(lines@);
    assert(ls == nonempty_lines(output@));
    let mut cands: Vec<Candidate> = Vec::new();
    let mut j: usize = 0;
    assert(cand_views(cands@) =~= Seq::<(Seq<char>, Seq<char>)>::empty());
    while j < lines.len()
        invariant
            j <= lines@.len(),
            ls == strs(lines@),
            cand_views(cands@) == ls.take(j as int).map_values(|l: Seq<char>| line_candidate(l)),
        decreases lines@.len() - j,
    {
        assert(ls[j as int] == lines@[j as int]@);
        let c = Candidate { display: lines[j].clone(), replacement: concatenated(lines[j].as_str(), " ") };
        assert(cand_views(cands@.push(c)) =~= cand_views(cands@).push(c@));
        assert(ls.take(j + 1).map_values(|l: Seq<char>| line_candidate(l)) =~= ls.take(
            j as int,
        ).map_values(|l: Seq<char>| line_candidate(l)).push(line_candidate(ls[j as int])));
        cands.push(c);
        j = j + 1;
    }
    assert(ls.take(lines@.len() as int) =~= ls);
    sort_candidates(cands)
}

/// `s` ends with `c`.
pub open spec fn ends_with_char(s: Seq<char>, c: char) -> bool {
    s.len() > 0 && s.last() == c
}

/// A file-name candidate as the shell shows it: a `/` after the display of a
/// directory, and a space after the replacement of anything that is not a
/// directory and does not end with a space already.
pub open spec fn decorate(p: (Seq<char>, Seq<char>)) -> (Seq<char>, Seq<char>) {
    (
        if ends_with_char(p.1, '/') {
            p.0 + "/"@
        } else {
            p.0
        },
        if !ends_with_char(p.1, '/') && !ends_with_char(p.1, ' ') {
            p.1 + " "@
        } else {
            p.1
        },
    )
}

/// Whether `s` ends with `c`.
fn ends_with(s: &str, c: char) -> (b: bool)
    ensures
        b == ends_with_char(s@, c),
{
    let cs = chars_of(s);
    cs.len() > 0 && cs[cs.len() - 1] == c
}

/// The candidates from the file-name completer, decorated (see `decorate`)
/// and sorted by display text.
pub fn filename_candidates(pairs: &[Candidate]) -> (r: Vec<Candidate>)
    ensures
        stably_sorted(
            cand_views(pairs@).map_values(|p: (Seq<char>, Seq<char>)| decorate(p)),
            cand_views(r@),
        ),
{
    let ghost pv = cand_views(pairs@);
    let mut cands: Vec<Candidate> = Vec::new();
    let mut j: usize = 0;
    assert(cand_views(cands@) =~= Seq::<(Seq<char>, Seq<char>)>::empty());
    while j < pairs.len()
        invariant
            j <= pairs@.len(),
            pv == cand_views(pairs@),
            cand_views(cands@) == pv.take(j as int).map_values(
                |p: (Seq<char>, Seq<char>)| decorate(p),
            ),
        decreases pairs@.len() - j,
    {
        let p = &pairs[j];
        assert(pv[j as int] == p@);
        let slash = ends_with(p.replacement.as_str(), '/');
        let display = if slash {
            concatenated(p.display.as_str(), "/")
        } else {
            p.display.clone()
        };
        let replacement = if !slash && !ends_with(p.replacement.as_str(), ' ') {
            concatenated(p.replacement.as_str(), " ")
        } else {
            p.replacement.clone()
        };
        let c = Candidate { display, replacement };
        assert(c@ == decorate(p@));
        assert(cand_views(cands@.push(c)) =~= cand_views(cands@).push(c@));
        assert(pv.take(j + 1).map_values(|p: (Seq<char>, Seq<char>)| decorate(p)) =~= pv.take(
            j as int,
        ).map_values(|p: (Seq<char>, Seq<char>)| decorate(p)).push(decorate(pv[j as int])));
        cands.push(c);
        j = j + 1;
    }
    assert(pv.take(pairs@.len() as int) =~= pv);
    sort_candidates(cands)
}

/// A directory (its replacement ends with `/`) is shown with a `/` after it
/// and its replacement is kept, so that completion can go on inside it;
/// anything else is shown as it is and completed with a space, unless its
/// replacement already ends with one.
pub proof fn law_decorate_directories_and_files(display: Seq<char>, rep: Seq<char>)
    ensures
        ends_with_char(rep, '/') ==> decorate((display, rep)) == (display + "/"@, rep),
        !ends_with_char(rep, '/') && ends_with_char(rep, ' ') ==> decorate((display, rep)) == (
            display,
            rep,
        ),
        !ends_with_char(rep, '/') && !ends_with_char(rep, ' ') ==> decorate((display, rep)) == (
            display,
            rep + " "@,
        ),
{
}

proof fn lemma_output_lines(s: Seq<char>, i: int, cur: Seq<char>, acc: Seq<Seq<char>>)
    requires
        0 <= i,
        forall|k: int| 0 <= k < acc.len() ==> (#[trigger] acc[k]).len() > 0 && !acc[k].contains(
            '\n',
        ),
        !cur.contains('\n'),
    ensures
        forall|k: int|
            0 <= k < output_lines_from(s, i, cur, acc).len() ==> (#[trigger] output_lines_from(
                s,
                i,
                cur,
                acc,
            )[k]).len() > 0 && !output_lines_from(s, i, cur, acc)[k].contains('\n'),
    decreases s.len() - i,
{
    if i >= s.len() {
        if cur.len() == 0 {
            assert(output_lines_from(s, i, cur, acc) == acc);
        } else {
            assert(output_lines_from(s, i, cur, acc) == acc.push(cur));
            assert forall|k: int| 0 <= k < acc.push(cur).len() implies (#[trigger] acc.push(
                cur,
            )[k]).len() > 0 && !acc.push(cur)[k].contains('\n') by {
                if k < acc.len() {
                    assert(acc.push(cur)[k] == acc[k]);
                }
            }
        }
    } else if s[i] == '\n' {
        let l = if cur.len() > 0 && cur.last() == '\r' {
            cur.drop_last()
        } else {
            cur
        };
        assert(!l.contains('\n')) by {
            if l.contains('\n') {
                let j = choose|j: int| 0 <= j < l.len() && l[j] == '\n';
                assert(cur[j] == l[j]);
            }
        }
        let acc2 = if l.len() > 0 {
            acc.push(l)
        } else {
            acc
        };
        assert forall|k: int| 0 <= k < acc2.len() implies (#[trigger] acc2[k]).len() > 0
            && !acc2[k].contains('\n') by {
            if k < acc.len() {
                assert(acc2[k] == acc[k]);
            }
        }
        assert(!Seq::<char>::empty().contains('\n'));
        lemma_output_lines(s, i + 1, seq![], acc2);
        assert(output_lines_from(s, i, cur, acc) == output_lines_from(s, i + 1, seq![], acc2));
    } else {
        assert(!cur.push(s[i]).contains('\n')) by {
            if cur.push(s[i]).contains('\n') {
                let j = choose|j: int| 0 <= j < cur.push(s[i]).len() && cur.push(s[i])[j] == '\n';
                if j < cur.len() {
                    assert(cur[j] == cur.push(s[i])[j]);
                }
            }
        }
        lemma_output_lines(s, i + 1, cur.push(s[i]), acc);
        assert(output_lines_from(s, i, cur, acc) == output_lines_from(s, i + 1, cur.push(s[i]), acc));
    }
}

/// Each line a completion script prints gives a candidate only when it is
/// not empty, and a candidate never holds a line break.
pub proof fn law_script_lines_not_empty(output: Seq<char>)
    ensures
        forall|k: int|
            0 <= k < nonempty_lines(output).len() ==> (#[trigger] nonempty_lines(output)[k]).len()
                > 0 && !nonempty_lines(output)[k].contains('\n'),
{
    assert(!Seq::<char>::empty().contains('\n'));
    lemma_output_lines(output, 0, seq![], seq![]);
}

} // verus!
