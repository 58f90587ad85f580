use minishell::error::ShellError;

#[test]
fn messages() {
    assert_eq!(ShellError::ParseError("x".to_string()).message(), "Parse error: x");
    assert_eq!(ShellError::CommandNotFound("foo".to_string()).message(), "foo: command not found");
    assert_eq!(ShellError::BuiltinError("cd: x".to_string()).message(), "cd: x");
    let io = std::io::Error::new(std::io::ErrorKind::Other, "disk full");
    let e: ShellError = io.into();
    assert_eq!(e.message(), "I/O error: disk full");
}
