use vstd::prelude::*;

use crate::parser::{flush, pipeline_from, redir_kind_of, spec_build, spec_extract, spec_parse, spec_parse_pipeline, spec_tokenize, tokenize_from, CommandView, QuoteMode, RedirKind};

verus! {

// ---------------------------------------------------------------------------
// Tokenizer
// ---------------------------------------------------------------------------
/// `w` with a backslash put before each of its characters.
pub open spec fn escaped(w: Seq<char>) -> Seq<char>
    decreases w.len(),
{
    if w.len() == 0 {
        seq![]
    } else {
        seq!['\\', w[0]] + escaped(w.skip(1))
    }
}

/// A character that the tokenizer keeps as it is outside quotes.
pub open spec fn is_plain_char(c: char) -> bool {
    c != ' ' && c != '\t' && c != '\'' && c != '"' && c != '\\'
}

/// A word that is not empty and holds plain characters only.
pub open spec fn is_plain_word(w: Seq<char>) -> bool {
    w.len() > 0 && forall|k: int| 0 <= k < w.len() ==> is_plain_char(#[trigger] w[k])
}

/// The words of `ws` separated by single spaces.
pub open spec fn join_words(ws: Seq<Seq<char>>) -> Seq<char>
    decreases ws.len(),
{
    if ws.len() == 0 {
        seq![]
    } else if ws.len() == 1 {
        ws[0]
    } else {
        ws[0] + seq![' '] + join_words(ws.skip(1))
    }
}

proof fn lemma_escaped_len(w: Seq<char>)
    ensures
        escaped(w).len() == 2 * w.len(),
    decreases w.len(),
{
    if w.len() > 0 {
        lemma_escaped_len(w.skip(1));
    }
}

proof fn lemma_escaped_step(s: Seq<char>, i: int, w: Seq<char>, cur: Seq<char>, toks: Seq<Seq<char>>)
    requires
        0 <= i,
        i + 2 * w.len() <= s.len(),
        s.subrange(i, i + 2 * w.len()) == escaped(w),
    ensures
        tokenize_from(s, i, QuoteMode::Plain, cur, toks) == tokenize_from(
            s,
            i + 2 * w.len(),
            QuoteMode::Plain,
            cur + w,
            toks,
        ),
    decreases w.len(),
{
    if w.len() == 0 {
        assert(cur + w =~= cur);
    } else {
        lemma_escaped_len(w.skip(1));
        let e = escaped(w);
        assert(e[0] == '\\');
        assert(e[1] == w[0]);
        assert(s[i] == s.subrange(i, i + 2 * w.len())[0]);
        assert(s[i + 1] == s.subrange(i, i + 2 * w.len())[1]);
        assert(s.subrange(i + 2, i + 2 + 2 * w.skip(1).len()) =~= e.skip(2));
        assert(e.skip(2) =~= escaped(w.skip(1)));
        lemma_escaped_step(s, i + 2, w.skip(1), cur.push(w[0]), toks);
        assert(cur.push(w[0]) + w.skip(1) =~= cur + w);
    }
}

/// Escaping every character of a word with a backslash gives back exactly that
/// word as the one token of the line.
pub proof fn law_escaped_word_is_one_token(w: Seq<char>)
    requires
        w.len() > 0,
    ensures
        spec_tokenize(escaped(w)) == Ok::<Seq<Seq<char>>, Seq<char>>(seq![w]),
{
    let s = escaped(w);
    lemma_escaped_len(w);
    assert(s.subrange(0, 2 * w.len() as int) =~= s);
    lemma_escaped_step(s, 0, w, seq![], seq![]);
    assert(Seq::<char>::empty() + w =~= w);
    assert(flush(seq![], w) =~= seq![w]);
}

proof fn lemma_plain_step(s: Seq<char>, i: int, w: Seq<char>, cur: Seq<char>, toks: Seq<Seq<char>>)
    requires
        0 <= i,
        i + w.len() <= s.len(),
        s.subrange(i, i + w.len()) == w,
        forall|k: int| 0 <= k < w.len() ==> is_plain_char(#[trigger] w[k]),
    ensures
        tokenize_from(s, i, QuoteMode::Plain, cur, toks) == tokenize_from(
            s,
            i + w.len(),
            QuoteMode::Plain,
            cur + w,
            toks,
        ),
    decreases w.len(),
{
    if w.len() == 0 {
        assert(cur + w =~= cur);
    } else {
        assert(s[i] == s.subrange(i, i + w.len())[0]);
        assert(is_plain_char(w[0]));
        assert(s.subrange(i + 1, i + 1 + w.skip(1).len()) =~= w.skip(1));
        assert forall|k: int| 0 <= k < w.skip(1).len() implies is_plain_char(#[trigger] w.skip(1)[k]) by {
            assert(w.skip(1)[k] == w[k + 1]);
        }
        lemma_plain_step(s, i + 1, w.skip(1), cur.push(w[0]), toks);
        assert(cur.push(w[0]) + w.skip(1) =~= cur + w);
    }
}

proof fn lemma_join_tokens(s: Seq<char>, i: int, ws: Seq<Seq<char>>, toks: Seq<Seq<char>>)
    requires
        0 <= i <= s.len(),
        s.skip(i) == join_words(ws),
        forall|k: int| 0 <= k < ws.len() ==> is_plain_word(#[trigger] ws[k]),
    ensures
        tokenize_from(s, i, QuoteMode::Plain, seq![], toks) == Ok::<Seq<Seq<char>>, Seq<char>>(
            toks + ws,
        ),
    decreases ws.len(),
{
    if ws.len() == 0 {
        assert(s.skip(i).len() == 0);
        assert(toks + ws =~= toks);
        assert(flush(toks, seq![]) == toks);
    } else {
        let w = ws[0];
        assert(is_plain_word(w));
        let j = join_words(ws);
        if ws.len() == 1 {
            assert(j == w);
            assert(s.subrange(i, i + w.len()) =~= w);
            lemma_plain_step(s, i, w, seq![], toks);
            assert(Seq::<char>::empty() + w =~= w);
            assert(i + w.len() == s.len());
            assert(flush(toks, w) == toks.push(w));
            assert(toks.push(w) =~= toks + ws);
        } else {
            let rest = join_words(ws.skip(1));
            assert(j == w + seq![' '] + rest);
            assert(s.skip(i).len() == j.len());
            assert(j.len() == w.len() + 1 + rest.len());
            assert forall|k: int| 0 <= k < w.len() implies #[trigger] s.subrange(i, i + w.len())[k]
                == w[k] by {
                assert(s.skip(i)[k] == j[k]);
            }
            assert(s.subrange(i, i + w.len()) =~= w);
            lemma_plain_step(s, i, w, seq![], toks);
            assert(Seq::<char>::empty() + w =~= w);
            assert(s.skip(i)[w.len() as int] == j[w.len() as int]);
            assert(s[i + w.len()] == ' ');
            assert forall|k: int| 0 <= k < rest.len() implies #[trigger] s.skip(i + w.len() + 1)[k]
                == rest[k] by {
                assert(s.skip(i)[w.len() + 1 + k] == j[w.len() + 1 + k]);
            }
            assert(s.skip(i + w.len() + 1) =~= rest);
            assert forall|k: int| 0 <= k < ws.skip(1).len() implies is_plain_word(
                #[trigger] ws.skip(1)[k],
            ) by {
                assert(ws.skip(1)[k] == ws[k + 1]);
            }
            lemma_join_tokens(s, i + w.len() + 1, ws.skip(1), toks.push(w));
            assert(flush(toks, w) == toks.push(w));
            assert(toks.push(w) + ws.skip(1) =~= toks + ws);
        }
    }
}

/// Plain words joined by single spaces are split back into exactly those words.
pub proof fn law_plain_words_round_trip(ws: Seq<Seq<char>>)
    requires
        forall|k: int| 0 <= k < ws.len() ==> is_plain_word(#[trigger] ws[k]),
    ensures
        spec_tokenize(join_words(ws)) == Ok::<Seq<Seq<char>>, Seq<char>>(ws),
{
    let s = join_words(ws);
    assert(s.skip(0) =~= s);
    lemma_join_tokens(s, 0, ws, seq![]);
    assert(Seq::<Seq<char>>::empty() + ws =~= ws);
}

proof fn lemma_single_quoted_step(
    s: Seq<char>,
    i: int,
    w: Seq<char>,
    cur: Seq<char>,
    toks: Seq<Seq<char>>,
)
    requires
        0 <= i,
        i + w.len() <= s.len(),
        s.subrange(i, i + w.len()) == w,
        forall|k: int| 0 <= k < w.len() ==> #[trigger] w[k] != '\'',
    ensures
        tokenize_from(s, i, QuoteMode::Single, cur, toks) == tokenize_from(
            s,
            i + w.len(),
            QuoteMode::Single,
            cur + w,
            toks,
        ),
    decreases w.len(),
{
    if w.len() == 0 {
        assert(cur + w =~= cur);
    } else {
        assert(s[i] == s.subrange(i, i + w.len())[0]);
        assert(s.subrange(i + 1, i + 1 + w.skip(1).len()) =~= w.skip(1));
        assert forall|k: int| 0 <= k < w.skip(1).len() implies #[trigger] w.skip(1)[k] != '\'' by {
            assert(w.skip(1)[k] == w[k + 1]);
        }
        lemma_single_quoted_step(s, i + 1, w.skip(1), cur.push(w[0]), toks);
        assert(cur.push(w[0]) + w.skip(1) =~= cur + w);
    }
}

/// Text between single quotes is taken literally, whatever it holds besides a
/// single quote; an empty pair of quotes gives no token.
pub proof fn law_single_quotes_keep_text(w: Seq<char>)
    requires
        forall|k: int| 0 <= k < w.len() ==> #[trigger] w[k] != '\'',
    ensures
        spec_tokenize(seq!['\''] + w + seq!['\'']) == Ok::<Seq<Seq<char>>, Seq<char>>(
            if w.len() > 0 {
                seq![w]
            } else {
                seq![]
            },
        ),
{
    let s = seq!['\''] + w + seq!['\''];
    let e: Seq<char> = seq![];
    let et: Seq<Seq<char>> = seq![];
    let wl = w.len() as int;
    assert(s.len() == wl + 2);
    assert(s[0] == '\'');
    assert(tokenize_from(s, 0, QuoteMode::Plain, e, et) == tokenize_from(s, 1, QuoteMode::Single, e, et));
    assert(s.subrange(1, 1 + wl) =~= w);
    lemma_single_quoted_step(s, 1, w, e, et);
    assert(e + w =~= w);
    assert(s[1 + wl] == '\'');
    assert(tokenize_from(s, 1 + wl, QuoteMode::Single, w, et) == tokenize_from(s, 2 + wl, QuoteMode::Plain, w, et));
    assert(tokenize_from(s, 2 + wl, QuoteMode::Plain, w, et) == Ok::<Seq<Seq<char>>, Seq<char>>(flush(et, w)));
}

proof fn lemma_double_quoted_step(
    s: Seq<char>,
    i: int,
    w: Seq<char>,
    cur: Seq<char>,
    toks: Seq<Seq<char>>,
)
    requires
        0 <= i,
        i + w.len() <= s.len(),
        s.subrange(i, i + w.len()) == w,
        forall|k: int| 0 <= k < w.len() ==> #[trigger] w[k] != '"' && w[k] != '\\',
    ensures
        tokenize_from(s, i, QuoteMode::Double, cur, toks) == tokenize_from(
            s,
            i + w.len(),
            QuoteMode::Double,
            cur + w,
            toks,
        ),
    decreases w.len(),
{
    if w.len() == 0 {
        assert(cur + w =~= cur);
    } else {
        assert(s[i] == s.subrange(i, i + w.len())[0]);
        assert(w[0] != '"' && w[0] != '\\');
        assert(s.subrange(i + 1, i + 1 + w.skip(1).len()) =~= w.skip(1));
        assert forall|k: int| 0 <= k < w.skip(1).len() implies #[trigger] w.skip(1)[k] != '"'
            && w.skip(1)[k] != '\\' by {
            assert(w.skip(1)[k] == w[k + 1]);
        }
        lemma_double_quoted_step(s, i + 1, w.skip(1), cur.push(w[0]), toks);
        assert(cur.push(w[0]) + w.skip(1) =~= cur + w);
    }
}

/// Text between double quotes is taken literally when it holds no double
/// quote and no backslash: blanks and single quotes included, it makes one
/// token (none when it is empty). In particular a single quote does not end
/// double quotes.
pub proof fn law_double_quotes_keep_text(w: Seq<char>)
    requires
        forall|k: int| 0 <= k < w.len() ==> #[trigger] w[k] != '"' && w[k] != '\\',
    ensures
        spec_tokenize(seq!['"'] + w + seq!['"']) == Ok::<Seq<Seq<char>>, Seq<char>>(
            if w.len() > 0 {
                seq![w]
            } else {
                seq![]
            },
        ),
{
    let s = seq!['"'] + w + seq!['"'];
    let e: Seq<char> = seq![];
    let et: Seq<Seq<char>> = seq![];
    let wl = w.len() as int;
    assert(s.len() == wl + 2);
    assert(s[0] == '"');
    assert(tokenize_from(s, 0, QuoteMode::Plain, e, et) == tokenize_from(s, 1, QuoteMode::Double, e, et));
    assert(s.subrange(1, 1 + wl) =~= w);
    lemma_double_quoted_step(s, 1, w, e, et);
    assert(e + w =~= w);
    assert(s[1 + wl] == '"');
    assert(tokenize_from(s, 1 + wl, QuoteMode::Double, w, et) == tokenize_from(s, 2 + wl, QuoteMode::Plain, w, et));
    assert(tokenize_from(s, 2 + wl, QuoteMode::Plain, w, et) == Ok::<Seq<Seq<char>>, Seq<char>>(flush(et, w)));
}

proof fn lemma_escaped_in_double_step(
    s: Seq<char>,
    i: int,
    w: Seq<char>,
    cur: Seq<char>,
    toks: Seq<Seq<char>>,
)
    requires
        0 <= i,
        i + 2 * w.len() <= s.len(),
        s.subrange(i, i + 2 * w.len()) == escaped(w),
    ensures
        tokenize_from(s, i, QuoteMode::Double, cur, toks) == tokenize_from(
            s,
            i + 2 * w.len(),
            QuoteMode::Double,
            cur + w,
            toks,
        ),
    decreases w.len(),
{
    if w.len() == 0 {
        assert(cur + w =~= cur);
    } else {
        lemma_escaped_len(w.skip(1));
        let e = escaped(w);
        assert(e[0] == '\\');
        assert(e[1] == w[0]);
        assert(s[i] == s.subrange(i, i + 2 * w.len())[0]);
        assert(s[i + 1] == s.subrange(i, i + 2 * w.len())[1]);
        assert(s.subrange(i + 2, i + 2 + 2 * w.skip(1).len()) =~= e.skip(2));
        assert(e.skip(2) =~= escaped(w.skip(1)));
        lemma_escaped_in_double_step(s, i + 2, w.skip(1), cur.push(w[0]), toks);
        assert(cur.push(w[0]) + w.skip(1) =~= cur + w);
    }
}

/// Inside double quotes a backslash takes the next character literally,
/// whatever it is (a double quote or a backslash included): a word with each
/// character escaped, between double quotes, gives back exactly that word.
pub proof fn law_double_quotes_escape(w: Seq<char>)
    requires
        w.len() > 0,
    ensures
        spec_tokenize(seq!['"'] + escaped(w) + seq!['"']) == Ok::<Seq<Seq<char>>, Seq<char>>(
            seq![w],
        ),
{
    let s = seq!['"'] + escaped(w) + seq!['"'];
    let e: Seq<char> = seq![];
    let et: Seq<Seq<char>> = seq![];
    lemma_escaped_len(w);
    let el = 2 * w.len() as int;
    assert(s.len() == el + 2);
    assert(s[0] == '"');
    assert(s.subrange(1, 1 + el) =~= escaped(w));
    lemma_escaped_in_double_step(s, 1, w, e, et);
    assert(e + w =~= w);
    assert(s[1 + el] == '"');
    assert(tokenize_from(s, 1 + el, QuoteMode::Double, w, et) == tokenize_from(s, 2 + el, QuoteMode::Plain, w, et));
    assert(flush(et, w) =~= seq![w]);
}

/// A double quote that is never closed is an error, whatever plain text
/// follows it.
pub proof fn law_unclosed_double_quote(w: Seq<char>)
    requires
        forall|k: int| 0 <= k < w.len() ==> #[trigger] w[k] != '"' && w[k] != '\\',
    ensures
        spec_tokenize(seq!['"'] + w) == Err::<Seq<Seq<char>>, Seq<char>>("unclosed double quote"@),
{
    let s = seq!['"'] + w;
    let e: Seq<char> = seq![];
    let et: Seq<Seq<char>> = seq![];
    assert(s[0] == '"');
    assert(s.subrange(1, 1 + w.len() as int) =~= w);
    lemma_double_quoted_step(s, 1, w, e, et);
}

/// A single quote that is never closed is an error, whatever text without a
/// single quote follows it.
pub proof fn law_unclosed_single_quote(w: Seq<char>)
    requires
        forall|k: int| 0 <= k < w.len() ==> #[trigger] w[k] != '\'',
    ensures
        spec_tokenize(seq!['\''] + w) == Err::<Seq<Seq<char>>, Seq<char>>("unclosed single quote"@),
{
    let s = seq!['\''] + w;
    let e: Seq<char> = seq![];
    let et: Seq<Seq<char>> = seq![];
    assert(s[0] == '\'');
    assert(s.subrange(1, 1 + w.len() as int) =~= w);
    lemma_single_quoted_step(s, 1, w, e, et);
}

/// A word followed by a double-quoted text holding a single quote, such as
/// `echo "don't panic"`, gives the word and the quoted text as two tokens.
pub proof fn law_word_then_double_quoted(a: Seq<char>, w: Seq<char>)
    requires
        is_plain_word(a),
        w.len() > 0,
        forall|k: int| 0 <= k < w.len() ==> #[trigger] w[k] != '"' && w[k] != '\\',
    ensures
        spec_tokenize(a + seq![' ', '"'] + w + seq!['"']) == Ok::<Seq<Seq<char>>, Seq<char>>(
            seq![a, w],
        ),
{
    let s = a + seq![' ', '"'] + w + seq!['"'];
    let e: Seq<char> = seq![];
    let et: Seq<Seq<char>> = seq![];
    let al = a.len() as int;
    let wl = w.len() as int;
    assert(s.len() == al + wl + 3);
    assert(s.subrange(0, al) =~= a);
    lemma_plain_step(s, 0, a, e, et);
    assert(e + a =~= a);
    assert(s[al] == ' ');
    assert(flush(et, a) == seq![a]);
    assert(tokenize_from(s, al, QuoteMode::Plain, a, et) == tokenize_from(
        s,
        al + 1,
        QuoteMode::Plain,
        e,
        seq![a],
    ));
    assert(s[al + 1] == '"');
    assert(tokenize_from(s, al + 1, QuoteMode::Plain, e, seq![a]) == tokenize_from(
        s,
        al + 2,
        QuoteMode::Double,
        e,
        seq![a],
    ));
    assert(s.subrange(al + 2, al + 2 + wl) =~= w);
    lemma_double_quoted_step(s, al + 2, w, e, seq![a]);
    assert(e + w =~= w);
    assert(s[al + 2 + wl] == '"');
    assert(tokenize_from(s, al + 2 + wl, QuoteMode::Double, w, seq![a]) == tokenize_from(
        s,
        al + 3 + wl,
        QuoteMode::Plain,
        w,
        seq![a],
    ));
    assert(flush(seq![a], w) =~= seq![a, w]);
}

// ---------------------------------------------------------------------------
// Redirection operators
// ---------------------------------------------------------------------------
proof fn lemma_operator_literals()
    ensures
        ">"@ == seq!['>'],
        "1>"@ == seq!['1', '>'],
        ">>"@ == seq!['>', '>'],
        "1>>"@ == seq!['1', '>', '>'],
        "2>"@ == seq!['2', '>'],
        "2>>"@ == seq!['2', '>', '>'],
{
    reveal_strlit(">");
    reveal_strlit("1>");
    reveal_strlit(">>");
    reveal_strlit("1>>");
    reveal_strlit("2>");
    reveal_strlit("2>>");
    assert(">"@ =~= seq!['>']);
    assert("1>"@ =~= seq!['1', '>']);
    assert(">>"@ =~= seq!['>', '>']);
    assert("1>>"@ =~= seq!['1', '>', '>']);
    assert("2>"@ =~= seq!['2', '>']);
    assert("2>>"@ =~= seq!['2', '>', '>']);
}

/// Each redirection operator names its stream and mode: `>` and `1>`
/// truncate standard output, `>>` and `1>>` append to it, `2>` truncates
/// standard error and `2>>` appends to it.
pub proof fn law_redirection_operators()
    ensures
        redir_kind_of(">"@) == Some(RedirKind::Overwrite),
        redir_kind_of("1>"@) == Some(RedirKind::Overwrite),
        redir_kind_of(">>"@) == Some(RedirKind::Append),
        redir_kind_of("1>>"@) == Some(RedirKind::Append),
        redir_kind_of("2>"@) == Some(RedirKind::StderrOverwrite),
        redir_kind_of("2>>"@) == Some(RedirKind::StderrAppend),
{
    lemma_operator_literals();
    assert(seq!['>'].len() == 1);
    assert(seq!['1', '>'].len() == 2);
    assert(seq!['>', '>'].len() == 2);
    assert(seq!['1', '>', '>'].len() == 3);
    assert(seq!['2', '>'].len() == 2);
    assert(seq!['2', '>', '>'].len() == 3);
    assert(seq!['>', '>'][0] != seq!['1', '>'][0]);
    assert(seq!['>', '>'][0] != seq!['2', '>'][0]);
    assert(seq!['2', '>'][0] != seq!['1', '>'][0]);
    assert(seq!['2', '>', '>'][0] != seq!['1', '>', '>'][0]);
}

/// In `c OP f`, with `c` not an operator, the command keeps `c` as its only
/// word and gets one redirection to `f` of the kind that `OP` names; so
/// `c >> f` appends to `f` and `c > f` truncates it.
pub proof fn law_command_with_one_redirection(c: Seq<char>, op: Seq<char>, f: Seq<char>)
    requires
        redir_kind_of(c) is None,
        redir_kind_of(op) is Some,
    ensures
        spec_extract(seq![c, op, f]) == Ok::<
            (Seq<Seq<char>>, Seq<(RedirKind, Seq<char>)>),
            Seq<char>,
        >((seq![c], seq![(redir_kind_of(op)->0, f)])),
        op == ">>"@ ==> spec_extract(seq![c, op, f]) == Ok::<
            (Seq<Seq<char>>, Seq<(RedirKind, Seq<char>)>),
            Seq<char>,
        >((seq![c], seq![(RedirKind::Append, f)])),
        op == ">"@ ==> spec_extract(seq![c, op, f]) == Ok::<
            (Seq<Seq<char>>, Seq<(RedirKind, Seq<char>)>),
            Seq<char>,
        >((seq![c], seq![(RedirKind::Overwrite, f)])),
{
    law_redirection_operators();
    let t = seq![c, op, f];
    let k = redir_kind_of(op)->0;
    let rest = seq![op, f];
    let ew: Seq<Seq<char>> = seq![];
    let er: Seq<(RedirKind, Seq<char>)> = seq![];
    assert(t[0] == c);
    assert(t.skip(1) =~= rest);
    assert(rest[0] == op);
    assert(rest[1] == f);
    assert(rest.skip(2) =~= ew);
    assert(spec_extract(ew) == Ok::<(Seq<Seq<char>>, Seq<(RedirKind, Seq<char>)>), Seq<char>>(
        (ew, er),
    ));
    assert(seq![(k, f)] + er =~= seq![(k, f)]);
    assert(spec_extract(rest) == Ok::<(Seq<Seq<char>>, Seq<(RedirKind, Seq<char>)>), Seq<char>>(
        (ew, seq![(k, f)]),
    ));
    assert(seq![c] + ew =~= seq![c]);
}

proof fn lemma_operators_are_plain_words(op: Seq<char>)
    requires
        redir_kind_of(op) is Some,
    ensures
        is_plain_word(op),
{
    lemma_operator_literals();
}

/// A line `c OP f` of three plain words, `OP` a redirection operator and `f`
/// not `&`, parses to the command `c` with no argument, in the foreground,
/// with the one redirection to `f` of the kind that `OP` names; with `>>` that
/// is `(Append, f)`, with `>` it is `(Overwrite, f)`.
pub proof fn law_parse_one_redirection(c: Seq<char>, op: Seq<char>, f: Seq<char>)
    requires
        is_plain_word(c),
        is_plain_word(f),
        redir_kind_of(c) is None,
        redir_kind_of(op) is Some,
        f != "&"@,
    ensures
        spec_parse(c + seq![' '] + op + seq![' '] + f) == Ok::<CommandView, Seq<char>>(
            CommandView {
                name: c,
                args: seq![],
                redirects: seq![(redir_kind_of(op)->0, f)],
                is_background: false,
            },
        ),
        op == ">>"@ ==> spec_parse(c + seq![' '] + op + seq![' '] + f) == Ok::<
            CommandView,
            Seq<char>,
        >(
            CommandView {
                name: c,
                args: seq![],
                redirects: seq![(RedirKind::Append, f)],
                is_background: false,
            },
        ),
        op == ">"@ ==> spec_parse(c + seq![' '] + op + seq![' '] + f) == Ok::<
            CommandView,
            Seq<char>,
        >(
            CommandView {
                name: c,
                args: seq![],
                redirects: seq![(RedirKind::Overwrite, f)],
                is_background: false,
            },
        ),
{
    lemma_operators_are_plain_words(op);
    let ws = seq![c, op, f];
    assert forall|k: int| 0 <= k < ws.len() implies is_plain_word(#[trigger] ws[k]) by {
        if k == 0 {
            assert(ws[k] == c);
        } else if k == 1 {
            assert(ws[k] == op);
        } else {
            assert(ws[k] == f);
        }
    }
    law_plain_words_round_trip(ws);
    assert(ws.skip(1) =~= seq![op, f]);
    assert(seq![op, f].skip(1) =~= seq![f]);
    assert(join_words(seq![f]) == f);
    assert(join_words(seq![op, f]) == op + seq![' '] + f);
    assert(join_words(ws) == c + seq![' '] + (op + seq![' '] + f));
    assert(c + seq![' '] + op + seq![' '] + f =~= c + seq![' '] + (op + seq![' '] + f));
    law_command_with_one_redirection(c, op, f);
    assert(ws.last() == f);
    let words = seq![c];
    assert(words.skip(1) =~= Seq::<Seq<char>>::empty());
}

/// `w` between single quotes.
pub open spec fn single_quoted(w: Seq<char>) -> Seq<char> {
    seq!['\''] + w + seq!['\'']
}

/// The words of `ws`, each between single quotes, separated by single spaces.
pub open spec fn join_single_quoted(ws: Seq<Seq<char>>) -> Seq<char>
    decreases ws.len(),
{
    if ws.len() == 0 {
        seq![]
    } else if ws.len() == 1 {
        single_quoted(ws[0])
    } else {
        single_quoted(ws[0]) + seq![' '] + join_single_quoted(ws.skip(1))
    }
}

/// A word that single quotes can hold as one token: not empty, no single quote.
pub open spec fn is_quotable_word(w: Seq<char>) -> bool {
    w.len() > 0 && forall|k: int| 0 <= k < w.len() ==> #[trigger] w[k] != '\''
}

proof fn lemma_quoted_join_tokens(s: Seq<char>, i: int, ws: Seq<Seq<char>>, toks: Seq<Seq<char>>)
    requires
        0 <= i <= s.len(),
        s.skip(i) == join_single_quoted(ws),
        forall|k: int| 0 <= k < ws.len() ==> is_quotable_word(#[trigger] ws[k]),
    ensures
        tokenize_from(s, i, QuoteMode::Plain, seq![], toks) == Ok::<Seq<Seq<char>>, Seq<char>>(
            toks + ws,
        ),
    decreases ws.len(),
{
    let e: Seq<char> = seq![];
    if ws.len() == 0 {
        assert(s.skip(i).len() == 0);
        assert(toks + ws =~= toks);
        assert(flush(toks, e) == toks);
    } else {
        let w = ws[0];
        assert(is_quotable_word(w));
        let wl = w.len() as int;
        let q = single_quoted(w);
        let j = join_single_quoted(ws);
        assert(q.len() == wl + 2);
        assert(q[0] == '\'');
        assert(q[wl + 1] == '\'');
        assert forall|m: int| 0 <= m < wl implies #[trigger] q[1 + m] == w[m] by {}
        if ws.len() == 1 {
            assert(j == q);
        } else {
            assert(j == q + seq![' '] + join_single_quoted(ws.skip(1)));
        }
        assert(s.skip(i).len() == j.len());
        assert(j.len() >= q.len());
        assert forall|k: int| 0 <= k < q.len() implies #[trigger] s[i + k] == q[k] by {
            assert(s.skip(i)[k] == j[k]);
        }
        assert(s[i] == '\'') by {
            assert(s[i + 0] == q[0]);
        }
        assert(tokenize_from(s, i, QuoteMode::Plain, e, toks) == tokenize_from(
            s,
            i + 1,
            QuoteMode::Single,
            e,
            toks,
        ));
        assert forall|m: int| 0 <= m < wl implies #[trigger] s.subrange(i + 1, i + 1 + wl)[m]
            == w[m] by {
            assert(s[i + (1 + m)] == q[1 + m]);
        }
        assert(s.subrange(i + 1, i + 1 + wl) =~= w);
        lemma_single_quoted_step(s, i + 1, w, e, toks);
        assert(e + w =~= w);
        assert(s[i + 1 + wl] == '\'') by {
            assert(s[i + (wl + 1)] == q[wl + 1]);
        }
        assert(tokenize_from(s, i + 1 + wl, QuoteMode::Single, w, toks) == tokenize_from(
            s,
            i + 2 + wl,
            QuoteMode::Plain,
            w,
            toks,
        ));
        assert(flush(toks, w) == toks.push(w));
        if ws.len() == 1 {
            assert(i + 2 + wl == s.len());
            assert(toks.push(w) =~= toks + ws);
        } else {
            let rest = join_single_quoted(ws.skip(1));
            assert(j[wl + 2] == ' ');
            assert(s[i + 2 + wl] == ' ') by {
                assert(s.skip(i)[wl + 2] == j[wl + 2]);
            }
            assert forall|k: int| 0 <= k < rest.len() implies #[trigger] s.skip(i + wl + 3)[k]
                == rest[k] by {
                assert(s.skip(i)[wl + 3 + k] == j[wl + 3 + k]);
            }
            assert(s.skip(i + wl + 3) =~= rest);
            assert forall|k: int| 0 <= k < ws.skip(1).len() implies is_quotable_word(
                #[trigger] ws.skip(1)[k],
            ) by {
                assert(ws.skip(1)[k] == ws[k + 1]);
            }
            lemma_quoted_join_tokens(s, i + wl + 3, ws.skip(1), toks.push(w));
            assert(toks.push(w) + ws.skip(1) =~= toks + ws);
        }
    }
}

/// Putting each word between single quotes and joining them with single
/// spaces gives the words back as the tokens, whatever they hold besides a
/// single quote (blanks, double quotes, backslashes included).
pub proof fn law_single_quoted_words_round_trip(ws: Seq<Seq<char>>)
    requires
        forall|k: int| 0 <= k < ws.len() ==> is_quotable_word(#[trigger] ws[k]),
    ensures
        spec_tokenize(join_single_quoted(ws)) == Ok::<Seq<Seq<char>>, Seq<char>>(ws),
{
    let s = join_single_quoted(ws);
    assert(s.skip(0) =~= s);
    lemma_quoted_join_tokens(s, 0, ws, seq![]);
    assert(Seq::<Seq<char>>::empty() + ws =~= ws);
}

/// A space or a tab: what separates words outside quotes.
pub open spec fn is_blank(c: char) -> bool {
    c == ' ' || c == '\t'
}

/// The pieces of `s` from index `i` on, cut at each blank, the first one
/// starting with `cur` (empty pieces kept).
pub open spec fn blank_pieces_from(s: Seq<char>, i: int, cur: Seq<char>) -> Seq<Seq<char>>
    decreases s.len() - i,
{
    if i >= s.len() || i < 0 {
        seq![cur]
    } else if is_blank(s[i]) {
        seq![cur] + blank_pieces_from(s, i + 1, seq![])
    } else {
        blank_pieces_from(s, i + 1, cur.push(s[i]))
    }
}

/// The pieces of `s` cut at each space and tab (`split(|c| c == ' ' || c == '\t')`).
pub open spec fn blank_pieces(s: Seq<char>) -> Seq<Seq<char>> {
    blank_pieces_from(s, 0, seq![])
}

/// The pieces of `ps` that are not empty, in order.
pub open spec fn drop_empty(ps: Seq<Seq<char>>) -> Seq<Seq<char>>
    decreases ps.len(),
{
    if ps.len() == 0 {
        seq![]
    } else {
        (if ps[0].len() > 0 {
            seq![ps[0]]
        } else {
            Seq::<Seq<char>>::empty()
        }) + drop_empty(ps.skip(1))
    }
}

/// `s` holds no quote and no backslash.
pub open spec fn has_no_quoting(s: Seq<char>) -> bool {
    forall|k: int| 0 <= k < s.len() ==> #[trigger] s[k] != '\'' && s[k] != '"' && s[k] != '\\'
}

proof fn lemma_drop_empty_cons(x: Seq<char>, ps: Seq<Seq<char>>)
    ensures
        drop_empty(seq![x] + ps) == (if x.len() > 0 {
            seq![x]
        } else {
            Seq::<Seq<char>>::empty()
        }) + drop_empty(ps),
{
    assert((seq![x] + ps)[0] == x);
    assert((seq![x] + ps).skip(1) =~= ps);
}

proof fn lemma_unquoted_tokens(s: Seq<char>, i: int, cur: Seq<char>, toks: Seq<Seq<char>>)
    requires
        0 <= i,
        has_no_quoting(s),
    ensures
        tokenize_from(s, i, QuoteMode::Plain, cur, toks) == Ok::<Seq<Seq<char>>, Seq<char>>(
            toks + drop_empty(blank_pieces_from(s, i, cur)),
        ),
    decreases s.len() - i,
{
    let h = if cur.len() > 0 {
        seq![cur]
    } else {
        Seq::<Seq<char>>::empty()
    };
    if i >= s.len() {
        lemma_drop_empty_cons(cur, seq![]);
        assert(drop_empty(Seq::<Seq<char>>::empty()) =~= Seq::<Seq<char>>::empty());
        assert(seq![cur] + Seq::<Seq<char>>::empty() =~= seq![cur]);
        assert(h + Seq::<Seq<char>>::empty() =~= h);
        assert(flush(toks, cur) =~= toks + h);
    } else {
        let c = s[i];
        assert(c != '\'' && c != '"' && c != '\\');
        if is_blank(c) {
            lemma_unquoted_tokens(s, i + 1, seq![], flush(toks, cur));
            let rest = blank_pieces_from(s, i + 1, seq![]);
            lemma_drop_empty_cons(cur, rest);
            assert(flush(toks, cur) =~= toks + h);
            assert(toks + h + drop_empty(rest) =~= toks + (h + drop_empty(rest)));
        } else {
            lemma_unquoted_tokens(s, i + 1, cur.push(c), toks);
        }
    }
}

/// A line with no quote and no backslash splits into the non-empty pieces
/// between its spaces and tabs; any other character, a newline included,
/// stays inside a word.
pub proof fn law_unquoted_line_splits_at_blanks(s: Seq<char>)
    requires
        has_no_quoting(s),
    ensures
        spec_tokenize(s) == Ok::<Seq<Seq<char>>, Seq<char>>(drop_empty(blank_pieces(s))),
{
    lemma_unquoted_tokens(s, 0, seq![], seq![]);
    assert(Seq::<Seq<char>>::empty() + drop_empty(blank_pieces(s)) =~= drop_empty(blank_pieces(s)));
}

// ---------------------------------------------------------------------------
// Commands and pipelines
// ---------------------------------------------------------------------------
/// The number of `|` tokens in `t`.
pub open spec fn count_pipes(t: Seq<Seq<char>>) -> nat
    decreases t.len(),
{
    if t.len() == 0 {
        0
    } else {
        (if t[0] == "|"@ {
            1nat
        } else {
            0nat
        }) + count_pipes(t.skip(1))
    }
}

proof fn lemma_pipeline_from_shape(t: Seq<Seq<char>>, cur: Seq<Seq<char>>)
    ensures
        pipeline_from(t, cur) matches Ok(cs) ==> cs.len() == count_pipes(t) + 1 && forall|k: int|
            0 <= k < cs.len() ==> !(#[trigger] cs[k]).is_background,
    decreases t.len(),
{
    if t.len() > 0 {
        if t[0] == "|"@ {
            lemma_pipeline_from_shape(t.skip(1), seq![]);
        } else {
            lemma_pipeline_from_shape(t.skip(1), cur.push(t[0]));
        }
    }
}

/// A parsed pipeline has one command more than its line has `|` tokens, and
/// none of its commands runs in the background.
pub proof fn law_pipeline_shape(s: Seq<char>)
    ensures
        spec_parse_pipeline(s) matches Ok(cs) ==> (spec_tokenize(s) matches Ok(t) && cs.len()
            == count_pipes(t) + 1 && forall|k: int|
            0 <= k < cs.len() ==> !(#[trigger] cs[k]).is_background),
{
    if let Ok(t) = spec_tokenize(s) {
        lemma_pipeline_from_shape(t, seq![]);
    }
}

/// The segments of `t` between `|` tokens, `cur` being the tokens of the
/// segment being read; there is one segment more than there are `|` tokens.
pub open spec fn pipe_segments(t: Seq<Seq<char>>, cur: Seq<Seq<char>>) -> Seq<Seq<Seq<char>>>
    decreases t.len(),
{
    if t.len() == 0 {
        seq![cur]
    } else if t[0] == "|"@ {
        seq![cur] + pipe_segments(t.skip(1), seq![])
    } else {
        pipe_segments(t.skip(1), cur.push(t[0]))
    }
}

proof fn lemma_pipeline_from_segments(t: Seq<Seq<char>>, cur: Seq<Seq<char>>)
    ensures
        pipeline_from(t, cur) matches Ok(cs) ==> ({
            let segs = pipe_segments(t, cur);
            &&& cs.len() == segs.len()
            &&& forall|k: int|
                0 <= k < segs.len() ==> (#[trigger] segs[k]).len() > 0 && spec_build(segs[k], false)
                    == Ok::<CommandView, Seq<char>>(cs[k])
        }),
    decreases t.len(),
{
    if t.len() == 0 {
    } else if t[0] == "|"@ {
        lemma_pipeline_from_segments(t.skip(1), seq![]);
        if let Ok(cs) = pipeline_from(t, cur) {
            let segs = pipe_segments(t, cur);
            let rest = pipe_segments(t.skip(1), seq![]);
            let cs2 = pipeline_from(t.skip(1), seq![])->Ok_0;
            assert(segs == seq![cur] + rest);
            assert(cs == seq![cs[0]] + cs2);
            assert forall|k: int| 0 <= k < segs.len() implies (#[trigger] segs[k]).len() > 0
                && spec_build(segs[k], false) == Ok::<CommandView, Seq<char>>(cs[k]) by {
                if k > 0 {
                    assert(segs[k] == rest[k - 1]);
                    assert(cs[k] == cs2[k - 1]);
                }
            }
        }
    } else {
        lemma_pipeline_from_segments(t.skip(1), cur.push(t[0]));
    }
}

/// Each command of a parsed pipeline is built from the tokens between two
/// `|` tokens (or the ends of the line), none of these segments is empty,
/// and there is one command per segment.
pub proof fn law_pipeline_segments(s: Seq<char>)
    ensures
        spec_parse_pipeline(s) matches Ok(cs) ==> (spec_tokenize(s) matches Ok(t) && ({
            let segs = pipe_segments(t, seq![]);
            &&& cs.len() == segs.len()
            &&& cs.len() == count_pipes(t) + 1
            &&& forall|k: int|
                0 <= k < segs.len() ==> (#[trigger] segs[k]).len() > 0 && spec_build(segs[k], false)
                    == Ok::<CommandView, Seq<char>>(cs[k])
        })),
{
    if let Ok(t) = spec_tokenize(s) {
        lemma_pipeline_from_segments(t, seq![]);
        law_pipeline_shape(s);
    }
}

proof fn lemma_pipeline_without_pipes(t: Seq<Seq<char>>, cur: Seq<Seq<char>>)
    requires
        forall|k: int| 0 <= k < t.len() ==> #[trigger] t[k] != "|"@,
        cur.len() + t.len() > 0,
    ensures
        pipeline_from(t, cur) == match spec_build(cur + t, false) {
            Ok(c) => Ok::<Seq<CommandView>, Seq<char>>(seq![c]),
            Err(e) => Err(e),
        },
    decreases t.len(),
{
    if t.len() == 0 {
        assert(cur + t =~= cur);
    } else {
        assert(t[0] != "|"@);
        assert forall|k: int| 0 <= k < t.skip(1).len() implies #[trigger] t.skip(1)[k] != "|"@ by {
            assert(t.skip(1)[k] == t[k + 1]);
        }
        lemma_pipeline_without_pipes(t.skip(1), cur.push(t[0]));
        assert(cur.push(t[0]) + t.skip(1) =~= cur + t);
    }
}

/// A line with no `|` token and no final `&` token parses the same way as a
/// pipeline of one command and as a single command; when it is rejected, both
/// reject it with the same message.
pub proof fn law_pipeline_of_one_command(s: Seq<char>)
    requires
        spec_tokenize(s) matches Ok(t) ==> (forall|k: int| 0 <= k < t.len() ==> #[trigger] t[k] != "|"@)
            && (t.len() == 0 || t.last() != "&"@),
    ensures
        spec_parse_pipeline(s) == match spec_parse(s) {
            Ok(c) => Ok::<Seq<CommandView>, Seq<char>>(seq![c]),
            Err(e) => Err(e),
        },
{
    if let Ok(t) = spec_tokenize(s) {
        if t.len() > 0 {
            lemma_pipeline_without_pipes(t, seq![]);
            assert(Seq::<Seq<char>>::empty() + t =~= t);
        }
    }
}

// ---------------------------------------------------------------------------
// Redirections
// ---------------------------------------------------------------------------
/// Extracting redirections accounts for every token: each word is kept and
/// each redirection takes two tokens.
pub proof fn law_extract_accounts_for_tokens(t: Seq<Seq<char>>)
    ensures
        spec_extract(t) matches Ok((w, r)) ==> w.len() + 2 * r.len() == t.len(),
    decreases t.len(),
{
    if t.len() > 0 {
        match redir_kind_of(t[0]) {
            Some(k) => if t.len() >= 2 {
                law_extract_accounts_for_tokens(t.skip(2));
            },
            None => {
                law_extract_accounts_for_tokens(t.skip(1));
            },
        }
    }
}

/// Tokens that are not redirection operators are all kept as words, in order,
/// and give no redirection.
pub proof fn law_extract_without_operators(t: Seq<Seq<char>>)
    requires
        forall|k: int| 0 <= k < t.len() ==> redir_kind_of(#[trigger] t[k]) is None,
    ensures
        spec_extract(t) == Ok::<(Seq<Seq<char>>, Seq<(RedirKind, Seq<char>)>), Seq<char>>(
            (t, seq![]),
        ),
    decreases t.len(),
{
    if t.len() == 0 {
        assert(t =~= Seq::<Seq<char>>::empty());
    } else {
        assert(redir_kind_of(t[0]) is None);
        assert forall|k: int| 0 <= k < t.skip(1).len() implies redir_kind_of(
            #[trigger] t.skip(1)[k],
        ) is None by {
            assert(t.skip(1)[k] == t[k + 1]);
        }
        law_extract_without_operators(t.skip(1));
        assert(seq![t[0]] + t.skip(1) =~= t);
    }
}


proof fn lemma_tokens_not_empty(
    s: Seq<char>,
    i: int,
    mode: QuoteMode,
    cur: Seq<char>,
    toks: Seq<Seq<char>>,
)
    requires
        forall|k: int| 0 <= k < toks.len() ==> (#[trigger] toks[k]).len() > 0,
    ensures
        tokenize_from(s, i, mode, cur, toks) matches Ok(ts) ==> forall|k: int|
            0 <= k < ts.len() ==> (#[trigger] ts[k]).len() > 0,
    decreases s.len() - i,
{
    if i >= s.len() || i < 0 {
    } else {
        let c = s[i];
        let flushed = flush(toks, cur);
        assert forall|k: int| 0 <= k < flushed.len() implies (#[trigger] flushed[k]).len() > 0 by {
            if k < toks.len() {
                assert(flushed[k] == toks[k]);
            }
        }
        match mode {
            QuoteMode::Single => {
                lemma_tokens_not_empty(s, i + 1, QuoteMode::Plain, cur, toks);
                lemma_tokens_not_empty(s, i + 1, QuoteMode::Single, cur.push(c), toks);
            },
            QuoteMode::Double => {
                lemma_tokens_not_empty(s, i + 1, QuoteMode::Plain, cur, toks);
                if i + 1 < s.len() {
                    lemma_tokens_not_empty(s, i + 2, QuoteMode::Double, cur.push(s[i + 1]), toks);
                }
                lemma_tokens_not_empty(s, i + 1, QuoteMode::Double, cur.push(c), toks);
            },
            QuoteMode::Plain => {
                lemma_tokens_not_empty(s, i + 1, QuoteMode::Plain, seq![], flushed);
                lemma_tokens_not_empty(s, i + 1, QuoteMode::Single, cur, toks);
                lemma_tokens_not_empty(s, i + 1, QuoteMode::Double, cur, toks);
                if i + 1 < s.len() {
                    lemma_tokens_not_empty(s, i + 2, QuoteMode::Plain, cur.push(s[i + 1]), toks);
                }
                lemma_tokens_not_empty(s, i + 1, QuoteMode::Plain, cur.push(c), toks);
            },
        }
    }
}

/// The tokenizer never gives an empty token (an empty pair of quotes makes
/// no token of its own).
pub proof fn law_tokens_are_not_empty(s: Seq<char>)
    ensures
        spec_tokenize(s) matches Ok(ts) ==> forall|k: int| 0 <= k < ts.len() ==> (#[trigger] ts[k]).len()
            > 0,
{
    lemma_tokens_not_empty(s, 0, QuoteMode::Plain, seq![], seq![]);
}

/// A single command runs in the background exactly when its last token is `&`.
pub proof fn law_background_marker(s: Seq<char>)
    ensures
        spec_parse(s) matches Ok(c) ==> (spec_tokenize(s) matches Ok(t) && c.is_background == (t.last()
            == "&"@)),
{
}

} // verus!
