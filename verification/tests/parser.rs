use minishell::error::ShellError;
use minishell::parser::{parse, parse_pipeline, tokenize, Redirection};

fn parse_message(e: ShellError) -> String {
    match e {
        ShellError::ParseError(m) => m,
        other => panic!("not a parse error: {:?}", other),
    }
}

#[test]
fn test_simple() {
    let cmd = parse("echo hello").unwrap();
    assert_eq!(cmd.name, "echo");
    assert_eq!(cmd.args, vec!["hello"]);
}

#[test]
fn test_quote() {
    let cmd = parse(r#"echo "a b" c"#).unwrap();
    assert_eq!(cmd.args, vec!["a b", "c"]);
}

#[test]
fn test_unclosed_quote() {
    assert!(parse("echo \"hello").is_err());
}

#[test]
fn tokenize_blanks_and_tabs() {
    let t = tokenize("  a \t b   c ").unwrap();
    assert_eq!(t, vec!["a", "b", "c"]);
    assert!(tokenize("   ").unwrap().is_empty());
}

#[test]
fn tokenize_single_quotes_are_literal() {
    let t = tokenize(r#"'a "b" \c' d"#).unwrap();
    assert_eq!(t, vec![r#"a "b" \c"#, "d"]);
}

#[test]
fn tokenize_empty_quotes_give_no_token() {
    assert!(tokenize("''").unwrap().is_empty());
    assert_eq!(tokenize("a'' b").unwrap(), vec!["a", "b"]);
}

#[test]
fn tokenize_backslashes() {
    assert_eq!(tokenize(r"a\ b").unwrap(), vec!["a b"]);
    assert_eq!(tokenize(r#""x\"y""#).unwrap(), vec![r#"x"y"#]);
    assert_eq!(tokenize(r"\e\c\h\o").unwrap(), vec!["echo"]);
}

#[test]
fn tokenize_adjacent_quotes_join() {
    assert_eq!(tokenize(r#"a"b c"'d'"#).unwrap(), vec!["ab cd"]);
}

#[test]
fn tokenize_errors() {
    assert_eq!(parse_message(tokenize("a\\").unwrap_err()), "trailing backslash");
    assert_eq!(
        parse_message(tokenize("\"a\\").unwrap_err()),
        "trailing backslash in double quotes"
    );
    assert_eq!(parse_message(tokenize("'a").unwrap_err()), "unclosed single quote");
    assert_eq!(parse_message(tokenize("\"a").unwrap_err()), "unclosed double quote");
}

#[test]
fn parse_redirections_in_order() {
    let cmd = parse("ls -l > out.txt 2>> err.txt extra 1>> more").unwrap();
    assert_eq!(cmd.name, "ls");
    assert_eq!(cmd.args, vec!["-l", "extra"]);
    assert_eq!(cmd.redirects.len(), 3);
    assert!(matches!(&cmd.redirects[0], Redirection::Overwrite(f) if f == "out.txt"));
    assert!(matches!(&cmd.redirects[1], Redirection::StderrAppend(f) if f == "err.txt"));
    assert!(matches!(&cmd.redirects[2], Redirection::Append(f) if f == "more"));
    assert!(!cmd.is_background);
}

#[test]
fn parse_redirection_operator_as_file_name() {
    let cmd = parse("echo 2> >").unwrap();
    assert!(matches!(&cmd.redirects[0], Redirection::StderrOverwrite(f) if f == ">"));
    assert!(cmd.args.is_empty());
}

#[test]
fn parse_background() {
    let cmd = parse("sleep 10 &").unwrap();
    assert_eq!(cmd.name, "sleep");
    assert_eq!(cmd.args, vec!["10"]);
    assert!(cmd.is_background);
    let quoted = parse("echo '&'").unwrap();
    assert!(quoted.is_background);
    assert!(quoted.args.is_empty());
}

#[test]
fn parse_errors() {
    assert_eq!(parse_message(parse("").unwrap_err()), "empty command");
    assert_eq!(parse_message(parse("&").unwrap_err()), "missing command");
    assert_eq!(parse_message(parse("> f").unwrap_err()), "missing command");
    assert_eq!(parse_message(parse("echo >").unwrap_err()), "missing filename for '>'");
    assert_eq!(parse_message(parse("echo a 2>>").unwrap_err()), "missing filename for '2>>'");
}

#[test]
fn parse_pipeline_splits_commands() {
    let p = parse_pipeline("cat f | grep x > out | wc -l &").unwrap();
    assert_eq!(p.commands.len(), 3);
    assert_eq!(p.commands[0].name, "cat");
    assert_eq!(p.commands[1].name, "grep");
    assert!(matches!(&p.commands[1].redirects[0], Redirection::Overwrite(f) if f == "out"));
    assert_eq!(p.commands[2].args, vec!["-l", "&"]);
    assert!(p.commands.iter().all(|c| !c.is_background));
}

#[test]
fn parse_pipeline_errors() {
    assert_eq!(parse_message(parse_pipeline("").unwrap_err()), "empty command");
    assert_eq!(parse_message(parse_pipeline("| a").unwrap_err()), "unexpected |");
    assert_eq!(parse_message(parse_pipeline("a | | b").unwrap_err()), "unexpected |");
    assert_eq!(parse_message(parse_pipeline("a |").unwrap_err()), "unexpected end of pipeline");
    assert_eq!(parse_message(parse_pipeline("> f | b").unwrap_err()), "missing command");
    assert_eq!(parse_message(parse_pipeline("a 'b").unwrap_err()), "unclosed single quote");
}

#[test]
fn parse_pipeline_of_one_command_matches_parse() {
    let a = parse("grep -v x > out").unwrap();
    let p = parse_pipeline("grep -v x > out").unwrap();
    assert_eq!(p.commands.len(), 1);
    assert_eq!(p.commands[0].name, a.name);
    assert_eq!(p.commands[0].args, a.args);
    assert_eq!(p.commands[0].redirects.len(), a.redirects.len());
}

#[test]
fn quoted_pipe_is_a_separator_token() {
    let p = parse_pipeline("echo '|' b").unwrap();
    assert_eq!(p.commands.len(), 2);
    assert_eq!(p.commands[1].name, "b");
}

#[test]
fn single_quoted_words_round_trip() {
    let words = vec!["a b", "\tx\"y\\", "plain", "|", "> f"];
    let line = words.iter().map(|w| format!("'{}'", w)).collect::<Vec<_>>().join(" ");
    assert_eq!(tokenize(&line).unwrap(), words);
}

#[test]
fn pipeline_commands_come_from_segments() {
    let p = parse_pipeline("a 1 > f | b 2 | c").unwrap();
    assert_eq!(p.commands.len(), 3);
    assert_eq!(p.commands[0].name, "a");
    assert_eq!(p.commands[0].args, vec!["1"]);
    assert_eq!(p.commands[1].args, vec!["2"]);
    assert!(p.commands[2].args.is_empty());
    let glued = parse_pipeline("ls|wc").unwrap();
    assert_eq!(glued.commands.len(), 1);
    assert_eq!(glued.commands[0].name, "ls|wc");
}

#[test]
fn unquoted_lines_split_at_blanks() {
    for line in ["a  b\tc", "  lead", "trail \t", "new\nline here", "", "x>y 2>z"] {
        let expected: Vec<String> = line
            .split(|c: char| c == ' ' || c == '\t')
            .filter(|s| !s.is_empty())
            .map(String::from)
            .collect();
        assert_eq!(tokenize(line).unwrap(), expected, "{:?}", line);
    }
}
