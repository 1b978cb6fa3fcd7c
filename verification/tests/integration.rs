use aliasc::dsl::{parse_template, ArgumentSegment, SourceSpan, Template};
use std::path::PathBuf;

#[test]
fn portable_parser_rejects_unsafe_syntax_and_bad_all_arguments() {
    let span = SourceSpan { file: PathBuf::from("fixture"), line: 1, column: 1 };
    assert!(parse_template("Shell:cmd[echo hi]", &span, &[]).is_err());
    assert!(parse_template("echo \"@*\"", &span, &[]).is_err());
    assert!(parse_template("A=one echo", &span, &[]).is_err());
    assert!(parse_template("echo $HOME", &span, &[]).is_err());
    let parsed = parse_template("\\foo", &span, &[]).unwrap();
    let Template::Command(command) = parsed else { panic!("expected command template") };
    assert!(matches!(&command.pipeline.commands[0].arguments[0].segments[..], [ArgumentSegment::Literal(value)] if value == "\\foo"));
}
