use aliasc::dsl::{
    diagnostic_text, parse_template, span_text, valid_env, valid_name, Argument, ArgumentSegment,
    CommandTemplate, Diagnostic, Severity, SourceSpan, Template,
};
use std::path::PathBuf;

fn span() -> SourceSpan {
    SourceSpan { file: PathBuf::from("alias"), line: 3, column: 7 }
}

fn parse(body: &str) -> Result<Template, Diagnostic> {
    parse_template(body, &span(), &[PathBuf::from("alias"), PathBuf::from("child")])
}

fn message(body: &str) -> String {
    let d = parse(body).unwrap_err();
    assert_eq!(d.severity, Severity::Error);
    assert_eq!(d.span.file, PathBuf::from("alias"));
    assert_eq!(d.span.line, 3);
    assert_eq!(d.span.column, 7);
    assert_eq!(d.include_stack, vec![PathBuf::from("alias"), PathBuf::from("child")]);
    d.message
}

fn command(body: &str) -> CommandTemplate {
    match parse(body).unwrap() {
        Template::Command(c) => c,
        other => panic!("expected a command, got {:?}", other),
    }
}

fn literal(a: &Argument) -> &str {
    match &a.segments[..] {
        [ArgumentSegment::Literal(v)] => v.as_str(),
        other => panic!("expected one literal, got {:?}", other),
    }
}

#[test]
fn names_are_checked() {
    assert!(valid_env("PATH"));
    assert!(valid_env("_x1"));
    assert!(!valid_env("1x"));
    assert!(!valid_env(""));
    assert!(!valid_env("A-B"));
    assert!(valid_name("PiWeb"));
    assert!(valid_name("foo-helper"));
    assert!(!valid_name(""));
    assert!(!valid_name("a b"));
    assert!(!valid_name("a=b"));
    assert!(!valid_name("a\u{3000}b"));
}

#[test]
fn plain_commands_take_arguments_implicitly() {
    let c = command("  echo hello  ");
    assert!(c.implicit_all);
    assert!(!c.bypass_shell_function);
    assert_eq!(c.pipeline.commands.len(), 1);
    let args = &c.pipeline.commands[0].arguments;
    assert_eq!(args.len(), 2);
    assert_eq!(literal(&args[0]), "echo");
    assert_eq!(literal(&args[1]), "hello");
}

#[test]
fn placeholders_and_quotes() {
    let c = command("rg @* '@1' \"a b\" @@x @0 @");
    assert!(!c.implicit_all);
    let args = &c.pipeline.commands[0].arguments;
    assert_eq!(args.len(), 7);
    assert!(args[1].all_arguments);
    assert!(matches!(&args[1].segments[..], [ArgumentSegment::AllArguments]));
    assert!(args[2].quoted);
    assert_eq!(literal(&args[2]), "@1");
    assert_eq!(literal(&args[3]), "a b");
    assert!(matches!(&args[4].segments[..], [ArgumentSegment::LiteralAt, ArgumentSegment::Literal(x)] if x == "x"));
    assert!(matches!(&args[5].segments[..], [ArgumentSegment::Literal(x)] if x == "@0"));
    assert_eq!(literal(&args[6]), "@");
    let c = command("printf \"@2:${HOME}\"");
    assert!(!c.implicit_all);
    let a = &c.pipeline.commands[0].arguments[1];
    assert!(a.quoted && !a.all_arguments);
    assert!(matches!(&a.segments[..], [ArgumentSegment::Positional(2), ArgumentSegment::Literal(colon), ArgumentSegment::EnvRef(home)] if colon == ":" && home == "HOME"));
}

#[test]
fn escapes_in_double_quotes() {
    let c = command("echo \"a\\\"b\" 'c\\d'");
    let args = &c.pipeline.commands[0].arguments;
    assert_eq!(literal(&args[1]), "a\"b");
    assert_eq!(literal(&args[2]), "c\\d");
}

#[test]
fn pipelines_and_redirections() {
    let c = command("cat < in.txt | sort >> out.txt");
    assert_eq!(c.pipeline.commands.len(), 2);
    let first = &c.pipeline.commands[0];
    assert_eq!(literal(&first.arguments[0]), "cat");
    assert_eq!(literal(first.input.as_ref().unwrap()), "in.txt");
    let second = &c.pipeline.commands[1];
    let (target, append) = second.output.as_ref().unwrap();
    assert_eq!(literal(target), "out.txt");
    assert!(*append);
    let c = command("ls>x");
    let (target, append) = c.pipeline.commands[0].output.as_ref().unwrap();
    assert_eq!(literal(target), "x");
    assert!(!*append);
}

#[test]
fn command_substitutions_nest() {
    let c = command("outer $(inner first | filter second)x");
    let a = &c.pipeline.commands[0].arguments[1];
    match &a.segments[..] {
        [ArgumentSegment::CommandSubstitution(inner), ArgumentSegment::Literal(x)] => {
            assert_eq!(x, "x");
            assert_eq!(inner.pipeline.commands.len(), 2);
            assert_eq!(literal(&inner.pipeline.commands[1].arguments[0]), "filter");
        }
        other => panic!("unexpected {:?}", other),
    }
}

#[test]
fn command_errors_have_their_messages() {
    assert_eq!(message("a | | b"), "pipeline has an empty command");
    assert_eq!(message("a > > b"), "redirection is missing a target");
    assert_eq!(message("a >"), "redirection is missing a target");
    assert_eq!(message("a > @*"), "@* cannot be a redirection target");
    assert_eq!(message("a < x < y"), "more than one input redirection");
    assert_eq!(message("a > x >> y"), "more than one output redirection");
    assert_eq!(message("   "), "expected a command invocation");
    assert_eq!(message("A=one echo"), "name=value command prefixes are not portable Alias DSL syntax");
    assert_eq!(message("echo x@*"), "@* must be an unquoted standalone argument");
    assert_eq!(message("echo ${HOME"), "unclosed ${...} environment reference");
    assert_eq!(message("echo ${1X}"), "invalid environment variable name `1X`");
    assert_eq!(message("echo $(ls"), "unclosed $(...) command substitution");
    assert_eq!(message("echo $HOME"), "bare $NAME is not Alias DSL v2 syntax; use ${NAME}");
    assert_eq!(message("echo 'x"), "unclosed quoted argument");
    assert_eq!(message("Shell:cmd[echo hi]"), "Shell:<dialect>[...] is not supported by Alias DSL v2");
    assert_eq!(message("a; b"), "portable template contains unsupported shell syntax");
    assert_eq!(message("a && b"), "portable template contains unsupported shell syntax");
    assert_eq!(message("a || b"), "portable template contains unsupported shell syntax");
    assert_eq!(message("echo \"`x`\""), "portable template contains unsupported shell syntax");
}

#[test]
fn shell_syntax_inside_quotes_is_literal() {
    let c = command("echo 'a;b' \"c && d\" e&f");
    let args = &c.pipeline.commands[0].arguments;
    assert_eq!(literal(&args[1]), "a;b");
    assert_eq!(literal(&args[2]), "c && d");
    assert_eq!(literal(&args[3]), "e&f");
}

#[test]
fn environment_templates() {
    match parse("SetEnv(A=1 B=two=2)").unwrap() {
        Template::SetEnv(v) => assert_eq!(v, vec![("A".to_string(), "1".to_string()), ("B".to_string(), "two=2".to_string())]),
        other => panic!("unexpected {:?}", other),
    }
    match parse("UnsetEnv( A B )").unwrap() {
        Template::UnsetEnv(v) => assert_eq!(v, vec!["A".to_string(), "B".to_string()]),
        other => panic!("unexpected {:?}", other),
    }
    match parse("WithEnv(MODE=1) tool --flag").unwrap() {
        Template::WithEnv { vars, body } => {
            assert_eq!(vars, vec![("MODE".to_string(), "1".to_string())]);
            assert_eq!(literal(&body.unwrap().pipeline.commands[0].arguments[1]), "--flag");
        }
        other => panic!("unexpected {:?}", other),
    }
    match parse("WithEnv(MODE=1)").unwrap() {
        Template::WithEnv { body, .. } => assert!(body.is_none()),
        other => panic!("unexpected {:?}", other),
    }
    assert_eq!(message("SetEnv()"), "expected at least one environment assignment");
    assert_eq!(message("SetEnv(A)"), "expected NAME=value");
    assert_eq!(message("SetEnv(1A=x)"), "invalid environment variable name `1A`");
    assert_eq!(message("UnsetEnv()"), "expected at least one environment variable name");
    assert_eq!(message("UnsetEnv(A b-c)"), "invalid environment variable name `b-c`");
    assert_eq!(message("WithEnv(A=1"), "unclosed WithEnv(...)");
}

#[test]
fn first_available_templates() {
    match parse("FirstAvailable(bat --plain, cat)").unwrap() {
        Template::FirstAvailable(v) => {
            assert_eq!(v.len(), 2);
            assert_eq!(literal(&v[0].pipeline.commands[0].arguments[1]), "--plain");
            assert_eq!(literal(&v[1].pipeline.commands[0].arguments[0]), "cat");
            assert!(v.iter().all(|c| !c.bypass_shell_function));
        }
        other => panic!("unexpected {:?}", other),
    }
    match parse("FirstAvailable(echo \"a,b\", f $(g x, y))").unwrap() {
        Template::FirstAvailable(v) => assert_eq!(v.len(), 2),
        other => panic!("unexpected {:?}", other),
    }
    assert_eq!(message("FirstAvailable(a, )"), "FirstAvailable has an empty candidate");
    assert_eq!(message("FirstAvailable()"), "FirstAvailable has an empty candidate");
}

#[test]
fn wrapped_forms_need_their_closing_parenthesis_at_the_end() {
    let c = command("SetEnv(A=1) x");
    assert_eq!(literal(&c.pipeline.commands[0].arguments[0]), "SetEnv(A=1)");
}

#[test]
fn substitution_end_is_counted_in_bytes() {
    let c = command("echo $(é)x");
    let a = &c.pipeline.commands[0].arguments[1];
    assert!(matches!(&a.segments[..], [ArgumentSegment::CommandSubstitution(_)]));
}

#[test]
fn clones_keep_the_tree() {
    let c = command("a $(b @1) < in");
    let d = c.clone();
    assert_eq!(format!("{:?}", c), format!("{:?}", d));
    let t = parse("FirstAvailable(x, y)").unwrap();
    assert_eq!(format!("{:?}", t.clone()), format!("{:?}", t));
}

#[test]
fn diagnostics_render_as_text() {
    assert_eq!(span_text("alias", 12, 3), "alias:12:3");
    assert_eq!(
        diagnostic_text("alias", 2, 1, Severity::Error, "bad", &vec!["alias".to_string()]),
        "alias:2:1: error: bad"
    );
    assert_eq!(
        diagnostic_text("child", 10, 0, Severity::Warning, "odd", &vec!["alias".to_string(), "child".to_string()]),
        "child:10:0: warning: odd\n  include stack: alias -> child"
    );
}
