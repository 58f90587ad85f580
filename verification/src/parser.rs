use vstd::prelude::*;

use crate::error::{is_parse_error, ShellError};
use crate::text::{chars_of, clone_strs, concatenated, push_char, str_eq, strs};

verus! {

/// The kind of a redirection, without its file name.
#[derive(Clone, Copy, PartialEq, Eq, Structural, Debug)]
pub enum RedirKind {
    /// `>` or `1>`: standard output to a file, truncated.
    Overwrite,
    /// `>>` or `1>>`: standard output to a file, appended.
    Append,
    /// `2>`: standard error to a file, truncated.
    StderrOverwrite,
    /// `2>>`: standard error to a file, appended.
    StderrAppend,
}

/// A redirection of an output stream to a file.
#[derive(Debug)]
pub enum Redirection {
    /// Standard output to a file (truncate).
    Overwrite(String),
    /// Standard output to a file (append).
    Append(String),
    /// Standard error to a file (truncate).
    StderrOverwrite(String),
    /// Standard error to a file (append).
    StderrAppend(String),
}

impl View for Redirection {
    type V = (RedirKind, Seq<char>);

    open spec fn view(&self) -> (RedirKind, Seq<char>) {
        match self {
            Redirection::Overwrite(f) => (RedirKind::Overwrite, f@),
            Redirection::Append(f) => (RedirKind::Append, f@),
            Redirection::StderrOverwrite(f) => (RedirKind::StderrOverwrite, f@),
            Redirection::StderrAppend(f) => (RedirKind::StderrAppend, f@),
        }
    }
}

/// A parsed command.
#[derive(Debug)]
pub struct ParsedCommand {
    pub name: String,
    pub args: Vec<String>,
    pub redirects: Vec<Redirection>,
    pub is_background: bool,
}

/// What a parsed command stands for.
pub struct CommandView {
    pub name: Seq<char>,
    pub args: Seq<Seq<char>>,
    pub redirects: Seq<(RedirKind, Seq<char>)>,
    pub is_background: bool,
}

/// The views of a sequence of redirections.
pub open spec fn redirs(v: Seq<Redirection>) -> Seq<(RedirKind, Seq<char>)> {
    v.map_values(|r: Redirection| r@)
}

impl View for ParsedCommand {
    type V = CommandView;

    open spec fn view(&self) -> CommandView {
        CommandView {
            name: self.name@,
            args: strs(self.args@),
            redirects: redirs(self.redirects@),
            is_background: self.is_background,
        }
    }
}

/// A sequence of commands joined by `|`.
#[derive(Debug)]
pub struct Pipeline {
    pub commands: Vec<ParsedCommand>,
}

/// The views of a sequence of commands.
pub open spec fn cmds(v: Seq<ParsedCommand>) -> Seq<CommandView> {
    v.map_values(|c: ParsedCommand| c@)
}

impl View for Pipeline {
    type V = Seq<CommandView>;

    open spec fn view(&self) -> Seq<CommandView> {
        cmds(self.commands@)
    }
}

/// Where the tokenizer stands with respect to quotes.
#[derive(Clone, Copy, PartialEq, Eq, Structural)]
pub enum QuoteMode {
    Plain,
    Single,
    Double,
}

/// `toks`, with `cur` appended as a token when it is not empty.
pub open spec fn flush(toks: Seq<Seq<char>>, cur: Seq<char>) -> Seq<Seq<char>> {
    if cur.len() > 0 {
        toks.push(cur)
    } else {
        toks
    }
}

/// The result of tokenizing `s` from index `i` on, in quote mode `mode`, with
/// the characters `cur` of the token being read and the tokens `toks` already
/// complete. Blanks (space, tab) separate tokens outside quotes; single quotes
/// keep everything up to the next single quote; double quotes keep everything
/// up to the next double quote, where a backslash takes the next character
/// literally; outside quotes a backslash takes the next character literally.
pub open spec fn tokenize_from(
    s: Seq<char>,
    i: int,
    mode: QuoteMode,
    cur: Seq<char>,
    toks: Seq<Seq<char>>,
) -> Result<Seq<Seq<char>>, Seq<char>>
    decreases s.len() - i,
{
    if i >= s.len() || i < 0 {
        match mode {
            QuoteMode::Single => Err("unclosed single quote"@),
            QuoteMode::Double => Err("unclosed double quote"@),
            QuoteMode::Plain => Ok(flush(toks, cur)),
        }
    } else {
        let c = s[i];
        match mode {
            QuoteMode::Single => if c == '\'' {
                tokenize_from(s, i + 1, QuoteMode::Plain, cur, toks)
            } else {
                tokenize_from(s, i + 1, QuoteMode::Single, cur.push(c), toks)
            },
            QuoteMode::Double => if c == '"' {
                tokenize_from(s, i + 1, QuoteMode::Plain, cur, toks)
            } else if c == '\\' {
                if i + 1 < s.len() {
                    tokenize_from(s, i + 2, QuoteMode::Double, cur.push(s[i + 1]), toks)
                } else {
                    Err("trailing backslash in double quotes"@)
                }
            } else {
                tokenize_from(s, i + 1, QuoteMode::Double, cur.push(c), toks)
            },
            QuoteMode::Plain => if c == ' ' || c == '\t' {
                tokenize_from(s, i + 1, QuoteMode::Plain, seq![], flush(toks, cur))
            } else if c == '\'' {
                tokenize_from(s, i + 1, QuoteMode::Single, cur, toks)
            } else if c == '"' {
                tokenize_from(s, i + 1, QuoteMode::Double, cur, toks)
            } else if c == '\\' {
                if i + 1 < s.len() {
                    tokenize_from(s, i + 2, QuoteMode::Plain, cur.push(s[i + 1]), toks)
                } else {
                    Err("trailing backslash"@)
                }
            } else {
                tokenize_from(s, i + 1, QuoteMode::Plain, cur.push(c), toks)
            },
        }
    }
}

/// The tokens of `s`, or the message of the error it is rejected with.
pub open spec fn spec_tokenize(s: Seq<char>) -> Result<Seq<Seq<char>>, Seq<char>> {
    tokenize_from(s, 0, QuoteMode::Plain, seq![], seq![])
}

/// A vector of strings that stands for `Ok(v)` or a parse error for `Err(m)`.
pub open spec fn strs_result_matches(
    r: Result<Vec<String>, ShellError>,
    spec: Result<Seq<Seq<char>>, Seq<char>>,
) -> bool {
    match (r, spec) {
        (Ok(t), Ok(v)) => strs(t@) == v,
        (Err(e), Err(m)) => is_parse_error(e, m),
        _ => false,
    }
}

/// Splits a command line into words, honouring quotes and backslashes.
pub fn tokenize(input: &str) -> (res: Result<Vec<String>, ShellError>)
    ensures
        strs_result_matches(res, spec_tokenize(input@)),
{
    let chars = chars_of(input);
    let n = chars.len();
    let mut tokens: Vec<String> = Vec::new();
    let mut current = String::new();
    let mut mode = QuoteMode::Plain;
    let mut i: usize = 0;
    assert(strs(tokens@) =~= Seq::<Seq<char>>::empty());
    while i < n
        invariant
            n == chars@.len(),
            chars@ == input@,
            i <= n,
            spec_tokenize(input@) == tokenize_from(chars@, i as int, mode, current@, strs(tokens@)),
        decreases n - i,
    {
        let c = chars[i];
        match mode {
            QuoteMode::Single => {
                if c == '\'' {
                    mode = QuoteMode::Plain;
                } else {
                    push_char(&mut current, c);
                }
                i = i + 1;
            },
            QuoteMode::Double => {
                if c == '"' {
                    mode = QuoteMode::Plain;
                    i = i + 1;
                } else if c == '\\' {
                    if i + 1 < n {
                        push_char(&mut current, chars[i + 1]);
                        i = i + 2;
                    } else {
                        return Err(ShellError::parse_error("trailing backslash in double quotes"));
                    }
                } else {
                    push_char(&mut current, c);
                    i = i + 1;
                }
            },
            QuoteMode::Plain => {
                if c == ' ' || c == '\t' {
                    if !current.as_str().is_empty() {
                        proof {
                            assert(strs(tokens@.push(current)) =~= strs(tokens@).push(current@));
                        }
                        tokens.push(current);
                        current = String::new();
                    } else {
                        assert(current@ =~= Seq::<char>::empty());
                    }
                    i = i + 1;
                } else if c == '\'' {
                    mode = QuoteMode::Single;
                    i = i + 1;
                } else if c == '"' {
                    mode = QuoteMode::Double;
                    i = i + 1;
                } else if c == '\\' {
                    if i + 1 < n {
                        push_char(&mut current, chars[i + 1]);
                        i = i + 2;
                    } else {
                        return Err(ShellError::parse_error("trailing backslash"));
                    }
                } else {
                    push_char(&mut current, c);
                    i = i + 1;
                }
            },
        }
    }
    match mode {
        QuoteMode::Single => Err(ShellError::parse_error("unclosed single quote")),
        QuoteMode::Double => Err(ShellError::parse_error("unclosed double quote")),
        QuoteMode::Plain => {
            if !current.as_str().is_empty() {
                proof {
                    assert(strs(tokens@.push(current)) =~= strs(tokens@).push(current@));
                }
                tokens.push(current);
            }
            Ok(tokens)
        },
    }
}


/// The redirection kind a token names, if it is a redirection operator.
pub open spec fn redir_kind_of(t: Seq<char>) -> Option<RedirKind> {
    if t == ">"@ || t == "1>"@ {
        Some(RedirKind::Overwrite)
    } else if t == "2>"@ {
        Some(RedirKind::StderrOverwrite)
    } else if t == ">>"@ || t == "1>>"@ {
        Some(RedirKind::Append)
    } else if t == "2>>"@ {
        Some(RedirKind::StderrAppend)
    } else {
        None
    }
}

/// The message of the error for a redirection operator `op` with no file name after it.
pub open spec fn missing_filename_msg(op: Seq<char>) -> Seq<char> {
    "missing filename for '"@ + op + "'"@
}

/// Splits `t` into the words that are not part of a redirection and the
/// redirections, each operator taking the token right after it as its file
/// name; both keep the order of `t`. An operator at the end is an error.
pub open spec fn spec_extract(t: Seq<Seq<char>>) -> Result<
    (Seq<Seq<char>>, Seq<(RedirKind, Seq<char>)>),
    Seq<char>,
>
    decreases t.len(),
{
    if t.len() == 0 {
        Ok((seq![], seq![]))
    } else {
        match redir_kind_of(t[0]) {
            Some(k) => if t.len() < 2 {
                Err(missing_filename_msg(t[0]))
            } else {
                match spec_extract(t.skip(2)) {
                    Ok((w, r)) => Ok((w, seq![(k, t[1])] + r)),
                    Err(e) => Err(e),
                }
            },
            None => match spec_extract(t.skip(1)) {
                Ok((w, r)) => Ok((seq![t[0]] + w, r)),
                Err(e) => Err(e),
            },
        }
    }
}

/// `words` and `rs` put in front of the result `r` of extracting the rest.
pub open spec fn extract_prepend(
    words: Seq<Seq<char>>,
    rs: Seq<(RedirKind, Seq<char>)>,
    r: Result<(Seq<Seq<char>>, Seq<(RedirKind, Seq<char>)>), Seq<char>>,
) -> Result<(Seq<Seq<char>>, Seq<(RedirKind, Seq<char>)>), Seq<char>> {
    match r {
        Ok((w, x)) => Ok((words + w, rs + x)),
        Err(e) => Err(e),
    }
}

/// The redirection kind `t` names, if any.
fn redirect_kind(t: &String) -> (res: Option<RedirKind>)
    ensures
        res == redir_kind_of(t@),
{
    let s = t.as_str();
    if str_eq(s, ">") || str_eq(s, "1>") {
        Some(RedirKind::Overwrite)
    } else if str_eq(s, "2>") {
        Some(RedirKind::StderrOverwrite)
    } else if str_eq(s, ">>") || str_eq(s, "1>>") {
        Some(RedirKind::Append)
    } else if str_eq(s, "2>>") {
        Some(RedirKind::StderrAppend)
    } else {
        None
    }
}

/// The redirection of kind `k` to `file`.
fn make_redirection(k: RedirKind, file: String) -> (r: Redirection)
    ensures
        r@ == (k, file@),
{
    match k {
        RedirKind::Overwrite => Redirection::Overwrite(file),
        RedirKind::Append => Redirection::Append(file),
        RedirKind::StderrOverwrite => Redirection::StderrOverwrite(file),
        RedirKind::StderrAppend => Redirection::StderrAppend(file),
    }
}

/// The token after the operator at `op_index`, which names the file of the redirection.
fn next_token_as_filename(tokens: &[String], op_index: usize) -> (res: Result<String, ShellError>)
    requires
        op_index < tokens@.len(),
    ensures
        op_index + 1 < tokens@.len() ==> (res matches Ok(f) && f@ == tokens@[op_index + 1]@),
        op_index + 1 >= tokens@.len() ==> (res matches Err(e) && is_parse_error(
            e,
            missing_filename_msg(tokens@[op_index as int]@),
        )),
{
    if op_index >= tokens.len() - 1 {
        let m = concatenated("missing filename for '", tokens[op_index].as_str());
        let m2 = concatenated(m.as_str(), "'");
        return Err(ShellError::ParseError(m2));
    }
    Ok(tokens[op_index + 1].clone())
}

/// Removes the redirections from `tokens` and returns them in the order they appear.
fn extract_redirects(tokens: &mut Vec<String>) -> (res: Result<Vec<Redirection>, ShellError>)
    ensures
        match (res, spec_extract(strs(old(tokens)@))) {
            (Ok(rs), Ok((w, x))) => strs(final(tokens)@) == w && redirs(rs@) == x,
            (Err(e), Err(m)) => is_parse_error(e, m),
            _ => false,
        },
{
    let ghost orig = strs(tokens@);
    let mut words: Vec<String> = Vec::new();
    let mut redirects: Vec<Redirection> = Vec::new();
    let n = tokens.len();
    let mut i: usize = 0;
    assert(strs(words@) =~= Seq::<Seq<char>>::empty());
    assert(redirs(redirects@) =~= Seq::<(RedirKind, Seq<char>)>::empty());
    assert(orig.skip(0) =~= orig);
    while i < n
        invariant
            n == tokens@.len(),
            orig == strs(tokens@),
            i <= n,
            spec_extract(orig) == extract_prepend(
                strs(words@),
                redirs(redirects@),
                spec_extract(orig.skip(i as int)),
            ),
        decreases n - i,
    {
        let ghost rest = orig.skip(i as int);
        assert(rest[0] == tokens@[i as int]@);
        match redirect_kind(&tokens[i]) {
            Some(k) => {
                let file = next_token_as_filename(tokens.as_slice(), i);
                match file {
                    Err(e) => {
                        return Err(e);
                    },
                    Ok(f) => {
                        assert(rest[1] == tokens@[i + 1]@);
                        assert(rest.skip(2) =~= orig.skip(i + 2));
                        let r = make_redirection(k, f);
                        proof {
                            assert(redirs(redirects@.push(r)) =~= redirs(redirects@).push(r@));
                            assert(redirs(redirects@).push(r@) =~= redirs(redirects@) + seq![r@]);
                            let tail = spec_extract(orig.skip(i + 2));
                            if let Ok((w, x)) = tail {
                                assert(redirs(redirects@) + (seq![r@] + x) =~= (redirs(redirects@)
                                    + seq![r@]) + x);
                            }
                        }
                        redirects.push(r);
                        i = i + 2;
                    },
                }
            },
            None => {
                let t = tokens[i].clone();
                assert(rest.skip(1) =~= orig.skip(i + 1));
                proof {
                    assert(strs(words@.push(t)) =~= strs(words@).push(t@));
                    assert(strs(words@).push(t@) =~= strs(words@) + seq![t@]);
                    let tail = spec_extract(orig.skip(i + 1));
                    if let Ok((w, x)) = tail {
                        assert(strs(words@) + (seq![t@] + w) =~= (strs(words@) + seq![t@]) + w);
                    }
                }
                words.push(t);
                i = i + 1;
            },
        }
    }
    assert(orig.skip(n as int) =~= Seq::<Seq<char>>::empty());
    assert(strs(words@) + Seq::<Seq<char>>::empty() =~= strs(words@));
    assert(redirs(redirects@) + Seq::<(RedirKind, Seq<char>)>::empty() =~= redirs(redirects@));
    *tokens = words;
    Ok(redirects)
}


/// The command that the tokens `t` make; a final `&` marks it as a
/// background command when `allow_background` holds.
pub open spec fn spec_build(t: Seq<Seq<char>>, allow_background: bool) -> Result<CommandView, Seq<char>> {
    let bg = allow_background && t.len() > 0 && t.last() == "&"@;
    let w = if bg {
        t.drop_last()
    } else {
        t
    };
    match spec_extract(w) {
        Err(e) => Err(e),
        Ok((words, rs)) => if words.len() == 0 {
            Err("missing command"@)
        } else {
            Ok(
                CommandView {
                    name: words[0],
                    args: words.skip(1),
                    redirects: rs,
                    is_background: bg,
                },
            )
        },
    }
}

/// The command that `s` parses to, or the message of the error it is rejected with.
pub open spec fn spec_parse(s: Seq<char>) -> Result<CommandView, Seq<char>> {
    match spec_tokenize(s) {
        Err(e) => Err(e),
        Ok(t) => if t.len() == 0 {
            Err("empty command"@)
        } else {
            spec_build(t, true)
        },
    }
}

/// The commands that the tokens `t` make, `cur` being the tokens of the
/// command being read; each `|` token ends a command.
pub open spec fn pipeline_from(t: Seq<Seq<char>>, cur: Seq<Seq<char>>) -> Result<
    Seq<CommandView>,
    Seq<char>,
>
    decreases t.len(),
{
    if t.len() == 0 {
        if cur.len() == 0 {
            Err("unexpected end of pipeline"@)
        } else {
            match spec_build(cur, false) {
                Ok(c) => Ok(seq![c]),
                Err(e) => Err(e),
            }
        }
    } else if t[0] == "|"@ {
        if cur.len() == 0 {
            Err("unexpected |"@)
        } else {
            match spec_build(cur, false) {
                Err(e) => Err(e),
                Ok(c) => match pipeline_from(t.skip(1), seq![]) {
                    Ok(cs) => Ok(seq![c] + cs),
                    Err(e) => Err(e),
                },
            }
        }
    } else {
        pipeline_from(t.skip(1), cur.push(t[0]))
    }
}

/// The pipeline that `s` parses to, or the message of the error it is rejected with.
pub open spec fn spec_parse_pipeline(s: Seq<char>) -> Result<Seq<CommandView>, Seq<char>> {
    match spec_tokenize(s) {
        Err(e) => Err(e),
        Ok(t) => if t.len() == 0 {
            Err("empty command"@)
        } else {
            pipeline_from(t, seq![])
        },
    }
}

/// `r` stands for the spec result `spec`: equal views, or a parse error with that message.
pub open spec fn command_result_matches(
    r: Result<ParsedCommand, ShellError>,
    spec: Result<CommandView, Seq<char>>,
) -> bool {
    match (r, spec) {
        (Ok(c), Ok(v)) => c@ == v,
        (Err(e), Err(m)) => is_parse_error(e, m),
        _ => false,
    }
}

/// `r` stands for the spec result `spec`: equal views, or a parse error with that message.
pub open spec fn pipeline_result_matches(
    r: Result<Pipeline, ShellError>,
    spec: Result<Seq<CommandView>, Seq<char>>,
) -> bool {
    match (r, spec) {
        (Ok(p), Ok(v)) => p@ == v,
        (Err(e), Err(m)) => is_parse_error(e, m),
        _ => false,
    }
}

/// Builds a command from its tokens; a final `&` makes it a background
/// command when `allow_background` holds.
fn build_command_from_tokens(tokens: &[String], allow_background: bool) -> (res: Result<
    ParsedCommand,
    ShellError,
>)
    ensures
        command_result_matches(res, spec_build(strs(tokens@), allow_background)),
{
    let mut words = clone_strs(tokens);
    let ghost t = strs(tokens@);
    let is_background = if allow_background && words.len() > 0 && str_eq(
        words[words.len() - 1].as_str(),
        "&",
    ) {
        let _ = words.pop();
        assert(strs(words@) =~= t.drop_last());
        true
    } else {
        false
    };
    let redirects = match extract_redirects(&mut words) {
        Ok(r) => r,
        Err(e) => {
            return Err(e);
        },
    };
    if words.len() == 0 {
        return Err(ShellError::parse_error("missing command"));
    }
    let ghost w = strs(words@);
    let name = words.remove(0);
    assert(strs(words@) =~= w.skip(1));
    Ok(ParsedCommand { name, args: words, redirects, is_background })
}

/// Parses a command line holding one command.
pub fn parse(input: &str) -> (res: Result<ParsedCommand, ShellError>)
    ensures
        command_result_matches(res, spec_parse(input@)),
{
    let tokens = match tokenize(input) {
        Ok(t) => t,
        Err(e) => {
            return Err(e);
        },
    };
    if tokens.len() == 0 {
        return Err(ShellError::parse_error("empty command"));
    }
    build_command_from_tokens(tokens.as_slice(), true)
}

/// `cs` put in front of the result `r` of parsing the rest of a pipeline.
pub open spec fn pipeline_prepend(cs: Seq<CommandView>, r: Result<Seq<CommandView>, Seq<char>>) -> Result<
    Seq<CommandView>,
    Seq<char>,
> {
    match r {
        Ok(x) => Ok(cs + x),
        Err(e) => Err(e),
    }
}

/// Parses a command line whose commands are joined by `|`.
pub fn parse_pipeline(input: &str) -> (res: Result<Pipeline, ShellError>)
    ensures
        pipeline_result_matches(res, spec_parse_pipeline(input@)),
{
    let tokens = match tokenize(input) {
        Ok(t) => t,
        Err(e) => {
            return Err(e);
        },
    };
    if tokens.len() == 0 {
        return Err(ShellError::parse_error("empty command"));
    }
    let ghost t = strs(tokens@);
    let mut commands: Vec<ParsedCommand> = Vec::new();
    let mut cur_tokens: Vec<String> = Vec::new();
    let n = tokens.len();
    let mut i: usize = 0;
    assert(t.skip(0) =~= t);
    assert(cmds(commands@) =~= Seq::<CommandView>::empty());
    assert(strs(cur_tokens@) =~= Seq::<Seq<char>>::empty());
    while i < n
        invariant
            n == tokens@.len(),
            t == strs(tokens@),
            i <= n,
            spec_parse_pipeline(input@) == pipeline_prepend(
                cmds(commands@),
                pipeline_from(t.skip(i as int), strs(cur_tokens@)),
            ),
        decreases n - i,
    {
        let ghost rest = t.skip(i as int);
        assert(rest[0] == tokens@[i as int]@);
        assert(rest.skip(1) =~= t.skip(i + 1));
        if str_eq(tokens[i].as_str(), "|") {
            if cur_tokens.len() == 0 {
                return Err(ShellError::parse_error("unexpected |"));
            }
            let cmd = match build_command_from_tokens(cur_tokens.as_slice(), false) {
                Ok(c) => c,
                Err(e) => {
                    return Err(e);
                },
            };
            proof {
                assert(cmds(commands@.push(cmd)) =~= cmds(commands@).push(cmd@));
                let tail = pipeline_from(t.skip(i + 1), seq![]);
                if let Ok(x) = tail {
                    assert(cmds(commands@) + (seq![cmd@] + x) =~= cmds(commands@).push(cmd@) + x);
                }
            }
            commands.push(cmd);
            cur_tokens = Vec::new();
            assert(strs(cur_tokens@) =~= Seq::<Seq<char>>::empty());
        } else {
            let tok = tokens[i].clone();
            assert(strs(cur_tokens@.push(tok)) =~= strs(cur_tokens@).push(tok@));
            cur_tokens.push(tok);
        }
        i = i + 1;
    }
    assert(t.skip(n as int) =~= Seq::<Seq<char>>::empty());
    if cur_tokens.len() == 0 {
        return Err(ShellError::parse_error("unexpected end of pipeline"));
    }
    let cmd = match build_command_from_tokens(cur_tokens.as_slice(), false) {
        Ok(c) => c,
        Err(e) => {
            return Err(e);
        },
    };
    proof {
        assert(cmds(commands@.push(cmd)) =~= cmds(commands@) + seq![cmd@]);
    }
    commands.push(cmd);
    Ok(Pipeline { commands })
}

} // verus!
