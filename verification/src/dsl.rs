//! The Alias DSL v2 template language: its syntax tree, the diagnostics it
//! reports, and the parser for definition bodies.

use vstd::prelude::*;
use std::path::PathBuf;
use crate::context::Context;
use crate::lex::{
    parse_assignments, parse_command, parse_names, spec_parse_assignments, spec_parse_command,
    spec_parse_names,
};
use crate::scan::{
    has_forbidden_shell_syntax, matching_paren, spec_forbidden, spec_matching_paren,
    spec_split_top, spec_wrapped, split_top, wrapped,
};
use crate::text::{
    append_chars, copy_range, is_ascii_alpha, is_ascii_digit, is_whitespace, spec_is_ascii_alpha,
    spec_is_ascii_digit, spec_is_whitespace, spec_starts_with, spec_trim, starts_with,
    string_from, to_chars, trim, trim_bounds,
};

verus! {

/// `std::path::PathBuf`, declared so that paths can be carried through
/// spans and diagnostics; nothing inside a path is visible here.
#[verifier::external_type_specification]
#[verifier::external_body]
pub struct ExPathBuf(PathBuf);

/// Trusted: `PathBuf::clone` returns a copy of the path, which the contract
/// states as equality with the original.
pub assume_specification[ <PathBuf as Clone>::clone ](p: &PathBuf) -> (r: PathBuf)
    ensures
        r == *p,
;

/// A position in a source file.
#[derive(Clone, Debug)]
pub struct SourceSpan {
    pub file: PathBuf,
    pub line: usize,
    pub column: usize,
}

#[derive(Clone, Copy, Debug, PartialEq, Eq, Structural)]
pub enum Severity {
    Error,
    Warning,
}

/// A message about a source file, with the chain of includes that led to it.
#[derive(Clone, Debug)]
pub struct Diagnostic {
    pub severity: Severity,
    pub message: String,
    pub span: SourceSpan,
    pub include_stack: Vec<PathBuf>,
}

impl Diagnostic {
    pub fn error(span: SourceSpan, message: String, include_stack: Vec<PathBuf>) -> (r: Self)
        ensures
            r.severity == Severity::Error,
            r.message == message,
            r.span == span,
            r.include_stack == include_stack,
    {
        Diagnostic { severity: Severity::Error, message, span, include_stack }
    }

    pub fn warning(span: SourceSpan, message: String, include_stack: Vec<PathBuf>) -> (r: Self)
        ensures
            r.severity == Severity::Warning,
            r.message == message,
            r.span == span,
            r.include_stack == include_stack,
    {
        Diagnostic { severity: Severity::Warning, message, span, include_stack }
    }
}

/// A definition as read from a source file, before its body is parsed.
#[derive(Clone, Debug)]
pub struct RawDefinition {
    pub name: String,
    pub body: String,
    pub section: Option<String>,
    pub span: SourceSpan,
    pub include_stack: Vec<PathBuf>,
    pub local: bool,
}

/// A definition with its parsed template.
#[derive(Debug)]
pub struct Definition {
    pub name: String,
    pub template: Template,
    pub span: SourceSpan,
    pub legacy: bool,
    pub context: Context,
}

#[derive(Debug)]
pub enum Template {
    Command(CommandTemplate),
    SetEnv(Vec<(String, String)>),
    UnsetEnv(Vec<String>),
    WithEnv { vars: Vec<(String, String)>, body: Option<Box<CommandTemplate>> },
    FirstAvailable(Vec<CommandTemplate>),
    LegacyCmdTemplate(String),
}

#[derive(Debug)]
pub struct CommandTemplate {
    pub pipeline: Pipeline,
    pub implicit_all: bool,
    pub bypass_shell_function: bool,
}

#[derive(Debug)]
pub struct Pipeline {
    pub commands: Vec<CommandInvocation>,
}

#[derive(Debug)]
pub struct CommandInvocation {
    pub arguments: Vec<Argument>,
    pub input: Option<Argument>,
    pub output: Option<(Argument, bool)>,
    pub bypass_shell_function: bool,
}

#[derive(Debug)]
pub struct Argument {
    pub segments: Vec<ArgumentSegment>,
    pub quoted: bool,
    pub all_arguments: bool,
}

#[derive(Debug)]
pub enum ArgumentSegment {
    Literal(String),
    EnvRef(String),
    Positional(u8),
    AllArguments,
    LiteralAt,
    CommandSubstitution(Box<CommandTemplate>),
}

// ---------------------------------------------------------------------------
// The mathematical model of the syntax tree: strings become `Seq<char>` and
// vectors become `Seq`.

pub enum SegmentModel {
    Literal(Seq<char>),
    EnvRef(Seq<char>),
    Positional(u8),
    AllArguments,
    LiteralAt,
    CommandSubstitution(Box<CommandModel>),
}

pub struct ArgumentModel {
    pub segments: Seq<SegmentModel>,
    pub quoted: bool,
    pub all_arguments: bool,
}

pub struct InvocationModel {
    pub arguments: Seq<ArgumentModel>,
    pub input: Option<ArgumentModel>,
    pub output: Option<(ArgumentModel, bool)>,
    pub bypass_shell_function: bool,
}

pub struct CommandModel {
    pub commands: Seq<InvocationModel>,
    pub implicit_all: bool,
    pub bypass_shell_function: bool,
}

pub enum TemplateModel {
    Command(CommandModel),
    SetEnv(Seq<(Seq<char>, Seq<char>)>),
    UnsetEnv(Seq<Seq<char>>),
    WithEnv { vars: Seq<(Seq<char>, Seq<char>)>, body: Option<CommandModel> },
    FirstAvailable(Seq<CommandModel>),
    LegacyCmdTemplate(Seq<char>),
}

pub open spec fn segment_model(s: ArgumentSegment) -> SegmentModel
    decreases s, 0int,
{
    match s {
        ArgumentSegment::Literal(t) => SegmentModel::Literal(t@),
        ArgumentSegment::EnvRef(t) => SegmentModel::EnvRef(t@),
        ArgumentSegment::Positional(n) => SegmentModel::Positional(n),
        ArgumentSegment::AllArguments => SegmentModel::AllArguments,
        ArgumentSegment::LiteralAt => SegmentModel::LiteralAt,
        ArgumentSegment::CommandSubstitution(c) => SegmentModel::CommandSubstitution(
            Box::new(command_model(*c)),
        ),
    }
}

pub open spec fn segments_model(s: Seq<ArgumentSegment>) -> Seq<SegmentModel>
    decreases s, 1int,
{
    if s.len() == 0 {
        Seq::empty()
    } else {
        segments_model(s.drop_last()).push(segment_model(s.last()))
    }
}

pub open spec fn argument_model(a: Argument) -> ArgumentModel
    decreases a, 2int,
{
    ArgumentModel {
        segments: segments_model(a.segments@),
        quoted: a.quoted,
        all_arguments: a.all_arguments,
    }
}

pub open spec fn arguments_model(s: Seq<Argument>) -> Seq<ArgumentModel>
    decreases s, 3int,
{
    if s.len() == 0 {
        Seq::empty()
    } else {
        arguments_model(s.drop_last()).push(argument_model(s.last()))
    }
}

pub open spec fn invocation_model(i: CommandInvocation) -> InvocationModel
    decreases i, 4int,
{
    InvocationModel {
        arguments: arguments_model(i.arguments@),
        input: match i.input {
            Some(a) => Some(argument_model(a)),
            None => None,
        },
        output: match i.output {
            Some(o) => Some((argument_model(o.0), o.1)),
            None => None,
        },
        bypass_shell_function: i.bypass_shell_function,
    }
}

pub open spec fn invocations_model(s: Seq<CommandInvocation>) -> Seq<InvocationModel>
    decreases s, 5int,
{
    if s.len() == 0 {
        Seq::empty()
    } else {
        invocations_model(s.drop_last()).push(invocation_model(s.last()))
    }
}

pub open spec fn command_model(c: CommandTemplate) -> CommandModel
    decreases c, 6int,
{
    CommandModel {
        commands: invocations_model(c.pipeline.commands@),
        implicit_all: c.implicit_all,
        bypass_shell_function: c.bypass_shell_function,
    }
}

pub open spec fn commands_model(s: Seq<CommandTemplate>) -> Seq<CommandModel> {
    Seq::new(s.len(), |i: int| command_model(s[i]))
}

pub open spec fn pairs_model(s: Seq<(String, String)>) -> Seq<(Seq<char>, Seq<char>)> {
    Seq::new(s.len(), |i: int| (s[i].0@, s[i].1@))
}

pub open spec fn names_model(s: Seq<String>) -> Seq<Seq<char>> {
    Seq::new(s.len(), |i: int| s[i]@)
}

pub open spec fn template_model(t: Template) -> TemplateModel {
    match t {
        Template::Command(c) => TemplateModel::Command(command_model(c)),
        Template::SetEnv(v) => TemplateModel::SetEnv(pairs_model(v@)),
        Template::UnsetEnv(v) => TemplateModel::UnsetEnv(names_model(v@)),
        Template::WithEnv { vars, body } => TemplateModel::WithEnv {
            vars: pairs_model(vars@),
            body: match body {
                Some(b) => Some(command_model(*b)),
                None => None,
            },
        },
        Template::FirstAvailable(v) => TemplateModel::FirstAvailable(commands_model(v@)),
        Template::LegacyCmdTemplate(s) => TemplateModel::LegacyCmdTemplate(s@),
    }
}

impl View for ArgumentSegment {
    type V = SegmentModel;

    open spec fn view(&self) -> SegmentModel {
        segment_model(*self)
    }
}

impl View for Argument {
    type V = ArgumentModel;

    open spec fn view(&self) -> ArgumentModel {
        argument_model(*self)
    }
}

impl View for CommandInvocation {
    type V = InvocationModel;

    open spec fn view(&self) -> InvocationModel {
        invocation_model(*self)
    }
}

impl View for CommandTemplate {
    type V = CommandModel;

    open spec fn view(&self) -> CommandModel {
        command_model(*self)
    }
}

impl View for Template {
    type V = TemplateModel;

    open spec fn view(&self) -> TemplateModel {
        template_model(*self)
    }
}

pub proof fn lemma_segments_model(s: Seq<ArgumentSegment>)
    ensures
        segments_model(s).len() == s.len(),
        forall|k: int| 0 <= k < s.len() ==> #[trigger] segments_model(s)[k] == segment_model(s[k]),
    decreases s.len(),
{
    if s.len() > 0 {
        lemma_segments_model(s.drop_last());
    }
}

pub proof fn lemma_segments_model_push(s: Seq<ArgumentSegment>, x: ArgumentSegment)
    ensures
        segments_model(s.push(x)) == segments_model(s).push(segment_model(x)),
{
    assert(s.push(x).drop_last() =~= s);
}

pub proof fn lemma_arguments_model(s: Seq<Argument>)
    ensures
        arguments_model(s).len() == s.len(),
        forall|k: int| 0 <= k < s.len() ==> #[trigger] arguments_model(s)[k] == argument_model(s[k]),
    decreases s.len(),
{
    if s.len() > 0 {
        lemma_arguments_model(s.drop_last());
    }
}

pub proof fn lemma_arguments_model_push(s: Seq<Argument>, x: Argument)
    ensures
        arguments_model(s.push(x)) == arguments_model(s).push(argument_model(x)),
{
    assert(s.push(x).drop_last() =~= s);
}

pub proof fn lemma_invocations_model(s: Seq<CommandInvocation>)
    ensures
        invocations_model(s).len() == s.len(),
        forall|k: int| 0 <= k < s.len() ==> #[trigger] invocations_model(s)[k] == invocation_model(s[k]),
    decreases s.len(),
{
    if s.len() > 0 {
        lemma_invocations_model(s.drop_last());
    }
}

pub proof fn lemma_invocations_model_push(s: Seq<CommandInvocation>, x: CommandInvocation)
    ensures
        invocations_model(s.push(x)) == invocations_model(s).push(invocation_model(x)),
{
    assert(s.push(x).drop_last() =~= s);
}

// ---------------------------------------------------------------------------
// Names.

/// An environment variable name: an ASCII letter or `_`, then ASCII letters,
/// digits or `_`.
pub open spec fn spec_valid_env(name: Seq<char>) -> bool {
    &&& name.len() > 0
    &&& (spec_is_ascii_alpha(name[0]) || name[0] == '_')
    &&& forall|i: int|
        1 <= i < name.len() ==> (spec_is_ascii_alpha(#[trigger] name[i]) || spec_is_ascii_digit(
            name[i],
        ) || name[i] == '_')
}

/// A definition name: not empty, without white space or `=`.
pub open spec fn spec_valid_name(name: Seq<char>) -> bool {
    &&& name.len() > 0
    &&& forall|i: int| 0 <= i < name.len() ==> !spec_is_whitespace(#[trigger] name[i])
    &&& forall|i: int| 0 <= i < name.len() ==> #[trigger] name[i] != '='
}

pub(crate) fn valid_env_chars(name: &Vec<char>) -> (r: bool)
    ensures
        r == spec_valid_env(name@),
{
    if name.len() == 0 {
        return false;
    }
    let first = name[0];
    if !(is_ascii_alpha(first) || first == '_') {
        return false;
    }
    let mut i: usize = 1;
    while i < name.len()
        invariant
            1 <= i <= name.len(),
            forall|k: int|
                1 <= k < i ==> (spec_is_ascii_alpha(#[trigger] name@[k]) || spec_is_ascii_digit(
                    name@[k],
                ) || name@[k] == '_'),
        decreases name.len() - i,
    {
        let c = name[i];
        if !(is_ascii_alpha(c) || is_ascii_digit(c) || c == '_') {
            return false;
        }
        i = i + 1;
    }
    true
}

/// Whether `name` is a valid environment variable name.
pub fn valid_env(name: &str) -> (r: bool)
    ensures
        r == spec_valid_env(name@),
{
    valid_env_chars(&to_chars(name))
}

/// Whether `name` is a valid definition name.
pub fn valid_name(name: &str) -> (r: bool)
    ensures
        r == spec_valid_name(name@),
{
    let v = to_chars(name);
    if v.len() == 0 {
        return false;
    }
    let mut i: usize = 0;
    while i < v.len()
        invariant
            i <= v.len(),
            v@ == name@,
            forall|k: int| 0 <= k < i ==> !spec_is_whitespace(#[trigger] v@[k]),
            forall|k: int| 0 <= k < i ==> #[trigger] v@[k] != '=',
        decreases v.len() - i,
    {
        if is_whitespace(v[i]) || v[i] == '=' {
            assert(spec_is_whitespace(v@[i as int]) || v@[i as int] == '=');
            return false;
        }
        i = i + 1;
    }
    true
}


// ---------------------------------------------------------------------------
// Templates.

pub open spec fn msg_shell_dialect() -> Seq<char> {
    "Shell:<dialect>[...] is not supported by Alias DSL v2"@
}

pub open spec fn msg_forbidden_syntax() -> Seq<char> {
    "portable template contains unsupported shell syntax"@
}

pub open spec fn msg_unclosed_with_env() -> Seq<char> {
    "unclosed WithEnv(...)"@
}

pub open spec fn msg_empty_candidate() -> Seq<char> {
    "FirstAvailable has an empty candidate"@
}

pub open spec fn msg_no_candidate() -> Seq<char> {
    "FirstAvailable needs a candidate"@
}

/// The candidates of `FirstAvailable(...)` from piece `k` on, appended to `acc`.
pub open spec fn candidates_from(
    pieces: Seq<Seq<char>>,
    k: int,
    acc: Seq<CommandModel>,
) -> Result<Seq<CommandModel>, Seq<char>>
    decreases pieces.len() - k,
{
    if k < 0 || k >= pieces.len() {
        if acc.len() == 0 {
            Err(msg_no_candidate())
        } else {
            Ok(acc)
        }
    } else {
        let p = spec_trim(pieces[k]);
        if p.len() == 0 {
            Err(msg_empty_candidate())
        } else {
            match spec_parse_command(p) {
                Err(e) => Err(e),
                Ok(c) => candidates_from(pieces, k + 1, acc.push(c)),
            }
        }
    }
}

/// `WithEnv(vars) command`, the command optional; `rest` follows `WithEnv(`.
pub open spec fn spec_with_env(rest: Seq<char>) -> Result<TemplateModel, Seq<char>> {
    match spec_matching_paren(rest) {
        None => Err(msg_unclosed_with_env()),
        Some(end) => match spec_parse_assignments(rest.take(end)) {
            Err(e) => Err(e),
            Ok(vars) => {
                let tail = spec_trim(rest.skip(end + 1));
                if tail.len() == 0 {
                    Ok(TemplateModel::WithEnv { vars, body: None })
                } else {
                    match spec_parse_command(tail) {
                        Ok(c) => Ok(TemplateModel::WithEnv { vars, body: Some(c) }),
                        Err(e) => Err(e),
                    }
                }
            },
        },
    }
}

/// The template that a definition body denotes, or the message of the error
/// that rejects it. The body is trimmed; then, in this order: `Shell:`
/// dialect blocks and shell syntax are rejected; `SetEnv(...)`,
/// `UnsetEnv(...)`, `WithEnv(...) command` and `FirstAvailable(...)` are
/// recognised; anything else is a command pipeline.
pub open spec fn spec_parse_template(body: Seq<char>) -> Result<TemplateModel, Seq<char>> {
    let b = spec_trim(body);
    if spec_starts_with(b, "Shell:"@) {
        Err(msg_shell_dialect())
    } else if spec_forbidden(b) {
        Err(msg_forbidden_syntax())
    } else if spec_wrapped(b, "SetEnv"@) is Some {
        match spec_parse_assignments(spec_wrapped(b, "SetEnv"@)->0) {
            Ok(v) => Ok(TemplateModel::SetEnv(v)),
            Err(e) => Err(e),
        }
    } else if spec_wrapped(b, "UnsetEnv"@) is Some {
        match spec_parse_names(spec_wrapped(b, "UnsetEnv"@)->0) {
            Ok(v) => Ok(TemplateModel::UnsetEnv(v)),
            Err(e) => Err(e),
        }
    } else if spec_starts_with(b, "WithEnv("@) {
        spec_with_env(b.skip("WithEnv("@.len() as int))
    } else if spec_wrapped(b, "FirstAvailable"@) is Some {
        match candidates_from(spec_split_top(spec_wrapped(b, "FirstAvailable"@)->0, ','), 0, Seq::empty()) {
            Ok(v) => Ok(TemplateModel::FirstAvailable(v)),
            Err(e) => Err(e),
        }
    } else {
        match spec_parse_command(b) {
            Ok(c) => Ok(TemplateModel::Command(c)),
            Err(e) => Err(e),
        }
    }
}

fn pairs_of(v: Vec<(String, String)>, Ghost(m): Ghost<Seq<(Seq<char>, Seq<char>)>>) -> (r: Vec<(String, String)>)
    requires
        v@.len() == m.len(),
        forall|k: int| 0 <= k < m.len() ==> (#[trigger] v@[k]).0@ == m[k].0 && v@[k].1@ == m[k].1,
    ensures
        r == v,
        pairs_model(r@) == m,
{
    assert(pairs_model(v@) =~= m);
    v
}

fn with_env(rest: &Vec<char>) -> (r: Result<Template, String>)
    ensures
        match spec_with_env(rest@) {
            Ok(t) => r matches Ok(x) && x@ == t,
            Err(e) => r matches Err(m) && m@ == e,
        },
{
    let end = match matching_paren(rest) {
        Some(e) => e,
        None => return Err(string_from("unclosed WithEnv(...)")),
    };
    let inner = copy_range(rest, 0, end);
    let vars = match parse_assignments(&inner) {
        Ok(v) => v,
        Err(e) => return Err(e),
    };
    let ghost vm = spec_parse_assignments(rest@.take(end as int))->Ok_0;
    let vars = pairs_of(vars, Ghost(vm));
    let after = copy_range(rest, end + 1, rest.len());
    let tail = trim(&after);
    if tail.len() == 0 {
        return Ok(Template::WithEnv { vars, body: None });
    }
    match parse_command(&tail) {
        Ok(c) => Ok(Template::WithEnv { vars, body: Some(Box::new(c)) }),
        Err(e) => Err(e),
    }
}

fn candidates(pieces: &Vec<Vec<char>>) -> (r: Result<Vec<CommandTemplate>, String>)
    ensures
        match candidates_from(Seq::new(pieces@.len(), |m: int| pieces@[m]@), 0, Seq::empty()) {
            Ok(v) => r matches Ok(x) && commands_model(x@) == v,
            Err(e) => r matches Err(m) && m@ == e,
        },
{
    let ghost ps = Seq::new(pieces@.len(), |m: int| pieces@[m]@);
    let mut out: Vec<CommandTemplate> = Vec::new();
    let mut k: usize = 0;
    assert(commands_model(out@) =~= Seq::<CommandModel>::empty());
    while k < pieces.len()
        invariant
            k <= pieces.len(),
            ps == Seq::new(pieces@.len(), |m: int| pieces@[m]@),
            candidates_from(ps, 0, Seq::empty()) == candidates_from(ps, k as int, commands_model(out@)),
        decreases pieces.len() - k,
    {
        let p = trim(&pieces[k]);
        if p.len() == 0 {
            return Err(string_from("FirstAvailable has an empty candidate"));
        }
        let c = match parse_command(&p) {
            Ok(c) => c,
            Err(e) => return Err(e),
        };
        let ghost before = out@;
        out.push(c);
        assert(commands_model(out@) =~= commands_model(before).push(command_model(c)));
        k = k + 1;
    }
    if out.len() == 0 {
        return Err(string_from("FirstAvailable needs a candidate"));
    }
    Ok(out)
}

/// Parses a trimmed body; the error is the diagnostic's message.
fn parse_body(body: &Vec<char>) -> (r: Result<Template, String>)
    ensures
        match spec_parse_template(body@) {
            Ok(t) => r matches Ok(x) && x@ == t,
            Err(e) => r matches Err(m) && m@ == e,
        },
{
    let b = trim(body);
    let shell = to_chars("Shell:");
    if starts_with(&b, &shell) {
        return Err(string_from("Shell:<dialect>[...] is not supported by Alias DSL v2"));
    }
    if has_forbidden_shell_syntax(&b) {
        return Err(string_from("portable template contains unsupported shell syntax"));
    }
    match wrapped(&b, "SetEnv") {
        Some(content) => {
            return match parse_assignments(&content) {
                Ok(v) => {
                    let ghost vm = spec_parse_assignments(content@)->Ok_0;
                    Ok(Template::SetEnv(pairs_of(v, Ghost(vm))))
                },
                Err(e) => Err(e),
            };
        },
        None => {},
    }
    match wrapped(&b, "UnsetEnv") {
        Some(content) => {
            return match parse_names(&content) {
                Ok(v) => {
                    assert(names_model(v@) =~= spec_parse_names(content@)->Ok_0);
                    Ok(Template::UnsetEnv(v))
                },
                Err(e) => Err(e),
            };
        },
        None => {},
    }
    let with = to_chars("WithEnv(");
    if starts_with(&b, &with) {
        let rest = copy_range(&b, with.len(), b.len());
        assert(rest@ == b@.skip("WithEnv("@.len() as int));
        return with_env(&rest);
    }
    match wrapped(&b, "FirstAvailable") {
        Some(content) => {
            let pieces = split_top(&content, ',');
            assert(Seq::new(pieces@.len(), |m: int| pieces@[m]@) =~= spec_split_top(content@, ','));
            return match candidates(&pieces) {
                Ok(v) => Ok(Template::FirstAvailable(v)),
                Err(e) => Err(e),
            };
        },
        None => {},
    }
    match parse_command(&b) {
        Ok(c) => Ok(Template::Command(c)),
        Err(e) => Err(e),
    }
}

/// A copy of a source span.
fn copy_span(span: &SourceSpan) -> (r: SourceSpan)
    ensures
        r == *span,
{
    SourceSpan { file: span.file.clone(), line: span.line, column: span.column }
}

/// A copy of an include stack.
fn copy_stack(stack: &[PathBuf]) -> (r: Vec<PathBuf>)
    ensures
        r@ == stack@,
{
    let mut r: Vec<PathBuf> = Vec::new();
    let mut k: usize = 0;
    while k < stack.len()
        invariant
            k <= stack.len(),
            r@ == stack@.take(k as int),
        decreases stack.len() - k,
    {
        r.push(stack[k].clone());
        k = k + 1;
        assert(r@ =~= stack@.take(k as int));
    }
    assert(stack@.take(stack.len() as int) =~= stack@);
    r
}

/// An error diagnostic at `span` with a copy of `stack` as its include stack.
fn err(span: &SourceSpan, message: String, stack: &[PathBuf]) -> (r: Diagnostic)
    ensures
        r.severity == Severity::Error,
        r.message == message,
        r.span == *span,
        r.include_stack@ == stack@,
{
    Diagnostic::error(copy_span(span), message, copy_stack(stack))
}

/// Parses a definition body. On success the template is the one that
/// `spec_parse_template` gives for the body; on failure the diagnostic is an
/// error at `span`, with `stack` as its include stack and the message that
/// `spec_parse_template` gives.
pub fn parse_template(body: &str, span: &SourceSpan, stack: &[PathBuf]) -> (r: Result<Template, Diagnostic>)
    ensures
        match spec_parse_template(body@) {
            Ok(t) => r matches Ok(x) && x@ == t,
            Err(m) => r matches Err(d) && d.message@ == m && d.severity == Severity::Error
                && d.span == *span && d.include_stack@ == stack@,
        },
{
    let chars = to_chars(body);
    match parse_body(&chars) {
        Ok(t) => Ok(t),
        Err(m) => Err(err(span, m, stack)),
    }
}


// ---------------------------------------------------------------------------
// Diagnostic text.

/// The decimal digits of a number.
pub open spec fn decimal(n: nat) -> Seq<char>
    decreases n,
{
    if n < 10 {
        seq![((n + 48) as u8) as char]
    } else {
        decimal(n / 10).push((((n % 10) + 48) as u8) as char)
    }
}

/// The elements of `list` separated by `sep`.
pub open spec fn join(list: Seq<Seq<char>>, sep: Seq<char>) -> Seq<char>
    decreases list.len(),
{
    if list.len() == 0 {
        Seq::empty()
    } else if list.len() == 1 {
        list[0]
    } else {
        join(list.drop_last(), sep) + sep + list.last()
    }
}

/// `file:line:column`.
pub open spec fn spec_span_text(file: Seq<char>, line: nat, column: nat) -> Seq<char> {
    file + ":"@ + decimal(line) + ":"@ + decimal(column)
}

pub open spec fn severity_word(s: Severity) -> Seq<char> {
    match s {
        Severity::Error => "error"@,
        Severity::Warning => "warning"@,
    }
}

/// `span: severity: message`, followed by the include stack joined by
/// ` -> ` on a line of its own when more than one file is on it.
pub open spec fn spec_diagnostic_text(
    file: Seq<char>,
    line: nat,
    column: nat,
    severity: Severity,
    message: Seq<char>,
    stack: Seq<Seq<char>>,
) -> Seq<char> {
    spec_span_text(file, line, column) + ": "@ + severity_word(severity) + ": "@ + message + if stack.len() > 1 {
        "\n  include stack: "@ + join(stack, " -> "@)
    } else {
        Seq::empty()
    }
}

fn decimal_exec(n: usize) -> (r: Vec<char>)
    ensures
        r@ == decimal(n as nat),
    decreases n,
{
    if n < 10 {
        let b: u8 = (n as u8) + 48;
        let mut v: Vec<char> = Vec::new();
        v.push(b as char);
        assert(v@ =~= decimal(n as nat));
        v
    } else {
        let mut v = decimal_exec(n / 10);
        let b: u8 = ((n % 10) as u8) + 48;
        v.push(b as char);
        v
    }
}

/// `file:line:column`, the text of a source span.
pub fn span_text(file: &str, line: usize, column: usize) -> (r: String)
    ensures
        r@ == spec_span_text(file@, line as nat, column as nat),
{
    let mut t = string_from(file);
    append_chars(&mut t, &to_chars(":"));
    append_chars(&mut t, &decimal_exec(line));
    append_chars(&mut t, &to_chars(":"));
    append_chars(&mut t, &decimal_exec(column));
    t
}

/// The text of a diagnostic, given the text of its file and of the files on
/// its include stack.
pub fn diagnostic_text(
    file: &str,
    line: usize,
    column: usize,
    severity: Severity,
    message: &str,
    stack: &Vec<String>,
) -> (r: String)
    ensures
        r@ == spec_diagnostic_text(file@, line as nat, column as nat, severity, message@,
            Seq::new(stack@.len(), |i: int| stack@[i]@)),
{
    let ghost st = Seq::new(stack@.len(), |i: int| stack@[i]@);
    let mut t = span_text(file, line, column);
    append_chars(&mut t, &to_chars(": "));
    let word = match severity {
        Severity::Error => "error",
        Severity::Warning => "warning",
    };
    append_chars(&mut t, &to_chars(word));
    append_chars(&mut t, &to_chars(": "));
    append_chars(&mut t, &to_chars(message));
    if stack.len() > 1 {
        append_chars(&mut t, &to_chars("\n  include stack: "));
        let ghost before = t@;
        let sep = to_chars(" -> ");
        let mut k: usize = 0;
        while k < stack.len()
            invariant
                k <= stack.len(),
                st == Seq::new(stack@.len(), |i: int| stack@[i]@),
                sep@ == " -> "@,
                t@ == before + join(st.take(k as int), " -> "@),
            decreases stack.len() - k,
        {
            proof {
                assert(st.take(k + 1).drop_last() =~= st.take(k as int));
                assert(st.take(k + 1).last() == stack@[k as int]@);
            }
            if k > 0 {
                append_chars(&mut t, &sep);
            } else {
                assert(st.take(1) =~= seq![stack@[0]@]);
            }
            append_chars(&mut t, &to_chars(stack[k].as_str()));
            k = k + 1;
            assert(t@ =~= before + join(st.take(k as int), " -> "@));
        }
        assert(st.take(stack.len() as int) =~= st);
    }
    t
}


// ---------------------------------------------------------------------------
// Copies of syntax trees.

fn clone_text(t: &String) -> (r: String)
    ensures
        r@ == t@,
{
    t.clone()
}

fn clone_segment(s: &ArgumentSegment) -> (r: ArgumentSegment)
    ensures
        segment_model(r) == segment_model(*s),
    decreases s, 0int,
{
    match s {
        ArgumentSegment::Literal(t) => ArgumentSegment::Literal(clone_text(t)),
        ArgumentSegment::EnvRef(t) => ArgumentSegment::EnvRef(clone_text(t)),
        ArgumentSegment::Positional(n) => ArgumentSegment::Positional(*n),
        ArgumentSegment::AllArguments => ArgumentSegment::AllArguments,
        ArgumentSegment::LiteralAt => ArgumentSegment::LiteralAt,
        ArgumentSegment::CommandSubstitution(c) => ArgumentSegment::CommandSubstitution(
            Box::new(clone_command(&**c)),
        ),
    }
}

fn clone_segments(v: &Vec<ArgumentSegment>) -> (r: Vec<ArgumentSegment>)
    ensures
        segments_model(r@) == segments_model(v@),
    decreases v, 1int,
{
    let mut r: Vec<ArgumentSegment> = Vec::new();
    let mut k: usize = 0;
    while k < v.len()
        invariant
            k <= v.len(),
            segments_model(r@) == segments_model(v@.take(k as int)),
        decreases v.len() - k,
    {
        assert(decreases_to!(v => v@[k as int]));
        let x = clone_segment(&v[k]);
        proof {
            lemma_segments_model_push(r@, x);
            lemma_segments_model_push(v@.take(k as int), v@[k as int]);
            assert(v@.take(k + 1) =~= v@.take(k as int).push(v@[k as int]));
        }
        r.push(x);
        k = k + 1;
    }
    assert(v@.take(v.len() as int) =~= v@);
    r
}

fn clone_argument(a: &Argument) -> (r: Argument)
    ensures
        argument_model(r) == argument_model(*a),
    decreases a, 2int,
{
    Argument { segments: clone_segments(&a.segments), quoted: a.quoted, all_arguments: a.all_arguments }
}

fn clone_arguments(v: &Vec<Argument>) -> (r: Vec<Argument>)
    ensures
        arguments_model(r@) == arguments_model(v@),
    decreases v, 3int,
{
    let mut r: Vec<Argument> = Vec::new();
    let mut k: usize = 0;
    while k < v.len()
        invariant
            k <= v.len(),
            arguments_model(r@) == arguments_model(v@.take(k as int)),
        decreases v.len() - k,
    {
        assert(decreases_to!(v => v@[k as int]));
        let x = clone_argument(&v[k]);
        proof {
            lemma_arguments_model_push(r@, x);
            lemma_arguments_model_push(v@.take(k as int), v@[k as int]);
            assert(v@.take(k + 1) =~= v@.take(k as int).push(v@[k as int]));
        }
        r.push(x);
        k = k + 1;
    }
    assert(v@.take(v.len() as int) =~= v@);
    r
}

fn clone_invocation(i: &CommandInvocation) -> (r: CommandInvocation)
    ensures
        invocation_model(r) == invocation_model(*i),
    decreases i, 4int,
{
    let input = match &i.input {
        Some(a) => Some(clone_argument(a)),
        None => None,
    };
    let output = match &i.output {
        Some(o) => Some((clone_argument(&o.0), o.1)),
        None => None,
    };
    CommandInvocation {
        arguments: clone_arguments(&i.arguments),
        input,
        output,
        bypass_shell_function: i.bypass_shell_function,
    }
}

fn clone_invocations(v: &Vec<CommandInvocation>) -> (r: Vec<CommandInvocation>)
    ensures
        invocations_model(r@) == invocations_model(v@),
    decreases v, 5int,
{
    let mut r: Vec<CommandInvocation> = Vec::new();
    let mut k: usize = 0;
    while k < v.len()
        invariant
            k <= v.len(),
            invocations_model(r@) == invocations_model(v@.take(k as int)),
        decreases v.len() - k,
    {
        assert(decreases_to!(v => v@[k as int]));
        let x = clone_invocation(&v[k]);
        proof {
            lemma_invocations_model_push(r@, x);
            lemma_invocations_model_push(v@.take(k as int), v@[k as int]);
            assert(v@.take(k + 1) =~= v@.take(k as int).push(v@[k as int]));
        }
        r.push(x);
        k = k + 1;
    }
    assert(v@.take(v.len() as int) =~= v@);
    r
}

fn clone_command(c: &CommandTemplate) -> (r: CommandTemplate)
    ensures
        command_model(r) == command_model(*c),
    decreases c, 6int,
{
    CommandTemplate {
        pipeline: Pipeline { commands: clone_invocations(&c.pipeline.commands) },
        implicit_all: c.implicit_all,
        bypass_shell_function: c.bypass_shell_function,
    }
}


fn clone_pairs(v: &Vec<(String, String)>) -> (r: Vec<(String, String)>)
    ensures
        pairs_model(r@) == pairs_model(v@),
{
    let mut r: Vec<(String, String)> = Vec::new();
    let mut k: usize = 0;
    while k < v.len()
        invariant
            k <= v.len(),
            r@.len() == k,
            pairs_model(r@) == pairs_model(v@.take(k as int)),
        decreases v.len() - k,
    {
        let ghost before = r@;
        r.push((clone_text(&v[k].0), clone_text(&v[k].1)));
        proof {
            assert forall|i: int| 0 <= i < k implies #[trigger] pairs_model(r@)[i] == pairs_model(v@.take(k + 1))[i] by {
                assert(pairs_model(before)[i] == pairs_model(v@.take(k as int))[i]);
                assert(r@[i] == before[i]);
            }
        }
        k = k + 1;
        assert(pairs_model(r@) =~= pairs_model(v@.take(k as int)));
    }
    assert(v@.take(v.len() as int) =~= v@);
    r
}

fn clone_names(v: &Vec<String>) -> (r: Vec<String>)
    ensures
        names_model(r@) == names_model(v@),
{
    let mut r: Vec<String> = Vec::new();
    let mut k: usize = 0;
    while k < v.len()
        invariant
            k <= v.len(),
            r@.len() == k,
            names_model(r@) == names_model(v@.take(k as int)),
        decreases v.len() - k,
    {
        let ghost before = r@;
        r.push(clone_text(&v[k]));
        proof {
            assert forall|i: int| 0 <= i < k implies #[trigger] names_model(r@)[i] == names_model(v@.take(k + 1))[i] by {
                assert(names_model(before)[i] == names_model(v@.take(k as int))[i]);
                assert(r@[i] == before[i]);
            }
        }
        k = k + 1;
        assert(names_model(r@) =~= names_model(v@.take(k as int)));
    }
    assert(v@.take(v.len() as int) =~= v@);
    r
}

fn clone_commands(v: &Vec<CommandTemplate>) -> (r: Vec<CommandTemplate>)
    ensures
        commands_model(r@) == commands_model(v@),
{
    let mut r: Vec<CommandTemplate> = Vec::new();
    let mut k: usize = 0;
    while k < v.len()
        invariant
            k <= v.len(),
            r@.len() == k,
            commands_model(r@) == commands_model(v@.take(k as int)),
        decreases v.len() - k,
    {
        let ghost before = r@;
        r.push(clone_command(&v[k]));
        proof {
            assert forall|i: int| 0 <= i < k implies #[trigger] commands_model(r@)[i] == commands_model(v@.take(k + 1))[i] by {
                assert(commands_model(before)[i] == commands_model(v@.take(k as int))[i]);
                assert(r@[i] == before[i]);
            }
        }
        k = k + 1;
        assert(commands_model(r@) =~= commands_model(v@.take(k as int)));
    }
    assert(v@.take(v.len() as int) =~= v@);
    r
}

fn clone_template(t: &Template) -> (r: Template)
    ensures
        template_model(r) == template_model(*t),
{
    match t {
        Template::Command(c) => Template::Command(clone_command(c)),
        Template::SetEnv(v) => Template::SetEnv(clone_pairs(v)),
        Template::UnsetEnv(v) => Template::UnsetEnv(clone_names(v)),
        Template::WithEnv { vars, body } => Template::WithEnv {
            vars: clone_pairs(vars),
            body: match body {
                Some(b) => Some(Box::new(clone_command(&**b))),
                None => None,
            },
        },
        Template::FirstAvailable(v) => Template::FirstAvailable(clone_commands(v)),
        Template::LegacyCmdTemplate(s) => Template::LegacyCmdTemplate(clone_text(s)),
    }
}

impl Clone for ArgumentSegment {
    fn clone(&self) -> (r: Self)
        ensures
            r@ == self@,
    {
        clone_segment(self)
    }
}

impl Clone for Argument {
    fn clone(&self) -> (r: Self)
        ensures
            r@ == self@,
    {
        clone_argument(self)
    }
}

impl Clone for CommandInvocation {
    fn clone(&self) -> (r: Self)
        ensures
            r@ == self@,
    {
        clone_invocation(self)
    }
}

impl Clone for Pipeline {
    fn clone(&self) -> (r: Self)
        ensures
            invocations_model(r.commands@) == invocations_model(self.commands@),
    {
        Pipeline { commands: clone_invocations(&self.commands) }
    }
}

impl Clone for CommandTemplate {
    fn clone(&self) -> (r: Self)
        ensures
            r@ == self@,
    {
        clone_command(self)
    }
}

impl Clone for Template {
    fn clone(&self) -> (r: Self)
        ensures
            r@ == self@,
    {
        clone_template(self)
    }
}

impl Clone for Definition {
    fn clone(&self) -> (r: Self)
        ensures
            r.name@ == self.name@,
            r.template@ == self.template@,
            r.span == self.span,
            r.legacy == self.legacy,
            crate::context::same_context(r.context, self.context),
    {
        Definition {
            name: clone_text(&self.name),
            template: clone_template(&self.template),
            span: copy_span(&self.span),
            legacy: self.legacy,
            context: self.context.clone(),
        }
    }
}

}
