//! The tokenizer for portable command templates and the parser that builds
//! command pipelines from its tokens. The two call each other: a `$(...)`
//! command substitution is parsed as a command while its enclosing word is
//! tokenized.

use vstd::prelude::*;
use crate::dsl::{
    Argument, ArgumentModel, ArgumentSegment, CommandInvocation, CommandModel, CommandTemplate,
    InvocationModel, Pipeline, SegmentModel, argument_model, arguments_model, invocation_model,
    invocations_model, lemma_arguments_model, lemma_arguments_model_push, lemma_invocations_model,
    lemma_invocations_model_push, lemma_segments_model, lemma_segments_model_push, segment_model,
    segments_model, spec_valid_env, valid_env_chars,
};
use crate::scan::{lemma_matching_paren_bound, matching_paren, spec_matching_paren};
use crate::text::{copy_range, is_ascii_digit, is_whitespace, spec_is_ascii_digit, spec_is_whitespace, string_from, string_of, append_chars, to_chars};

verus! {

/// The operators that the tokenizer recognises outside quotes.
#[derive(Clone, Copy, Debug, PartialEq, Eq, Structural)]
pub enum OpKind {
    Pipe,
    Input,
    Output,
    Append,
}

/// A token: a word with its literal text and its parsed argument, or an operator.
pub enum Tok {
    Word(Vec<char>, Argument),
    Op(OpKind),
}

pub enum TokModel {
    Word { raw: Seq<char>, arg: ArgumentModel },
    Op(OpKind),
}

pub open spec fn tok_model(t: Tok) -> TokModel {
    match t {
        Tok::Word(raw, arg) => TokModel::Word { raw: raw@, arg: argument_model(arg) },
        Tok::Op(op) => TokModel::Op(op),
    }
}

pub open spec fn toks_model(s: Seq<Tok>) -> Seq<TokModel> {
    Seq::new(s.len(), |i: int| tok_model(s[i]))
}

// ---------------------------------------------------------------------------
// Messages.

pub open spec fn msg_standalone_all() -> Seq<char> {
    "@* must be an unquoted standalone argument"@
}

pub open spec fn msg_unclosed_env() -> Seq<char> {
    "unclosed ${...} environment reference"@
}

pub open spec fn msg_invalid_env(name: Seq<char>) -> Seq<char> {
    "invalid environment variable name `"@ + name + "`"@
}

pub open spec fn msg_unclosed_substitution() -> Seq<char> {
    "unclosed $(...) command substitution"@
}

pub open spec fn msg_bare_dollar() -> Seq<char> {
    "bare $NAME is not Alias DSL v2 syntax; use ${NAME}"@
}

pub open spec fn msg_unclosed_quote() -> Seq<char> {
    "unclosed quoted argument"@
}

pub open spec fn msg_empty_pipeline_command() -> Seq<char> {
    "pipeline has an empty command"@
}

pub open spec fn msg_missing_redirect_target() -> Seq<char> {
    "redirection is missing a target"@
}

pub open spec fn msg_all_redirect_target() -> Seq<char> {
    "@* cannot be a redirection target"@
}

pub open spec fn msg_two_inputs() -> Seq<char> {
    "more than one input redirection"@
}

pub open spec fn msg_two_outputs() -> Seq<char> {
    "more than one output redirection"@
}

pub open spec fn msg_expected_command() -> Seq<char> {
    "expected a command invocation"@
}

pub open spec fn msg_assignment_prefix() -> Seq<char> {
    "name=value command prefixes are not portable Alias DSL syntax"@
}

/// The message naming an invalid environment variable.
pub fn invalid_env_message(name: &Vec<char>) -> (r: String)
    ensures
        r@ == msg_invalid_env(name@),
{
    let mut m = string_from("invalid environment variable name `");
    append_chars(&mut m, name);
    let tick = to_chars("`");
    append_chars(&mut m, &tick);
    m
}

// ---------------------------------------------------------------------------
// The tokenizer, specified.

/// The number of bytes that UTF-8 takes for a character.
pub open spec fn utf8_width(c: char) -> nat {
    let u = c as u32;
    if u < 0x80 {
        1
    } else if u < 0x800 {
        2
    } else if u < 0x10000 {
        3
    } else {
        4
    }
}

/// The number of bytes that UTF-8 takes for a character sequence.
pub open spec fn utf8_len(s: Seq<char>) -> nat
    decreases s.len(),
{
    if s.len() == 0 {
        0
    } else {
        utf8_len(s.drop_last()) + utf8_width(s.last())
    }
}

/// The literal text of a word: its literal segments, with `@` for each `@@`.
pub open spec fn raw_text(segs: Seq<SegmentModel>) -> Seq<char>
    decreases segs.len(),
{
    if segs.len() == 0 {
        Seq::empty()
    } else {
        raw_text(segs.drop_last()) + match segs.last() {
            SegmentModel::Literal(v) => v,
            SegmentModel::LiteralAt => seq!['@'],
            _ => Seq::empty(),
        }
    }
}

pub open spec fn has_all_arguments(segs: Seq<SegmentModel>) -> bool {
    exists|k: int| 0 <= k < segs.len() && #[trigger] segs[k] is AllArguments
}

/// The tokenizer's state between characters.
pub struct LexState {
    pub out: Seq<TokModel>,
    pub buf: Seq<char>,
    pub segs: Seq<SegmentModel>,
    pub quote: Option<char>,
    pub quoted: bool,
}

pub open spec fn lex_init() -> LexState {
    LexState { out: Seq::empty(), buf: Seq::empty(), segs: Seq::empty(), quote: None, quoted: false }
}

/// Pending literal text closed into a segment.
pub open spec fn close_buf(st: LexState) -> LexState {
    if st.buf.len() > 0 {
        LexState {
            out: st.out,
            buf: Seq::empty(),
            segs: st.segs.push(SegmentModel::Literal(st.buf)),
            quote: st.quote,
            quoted: st.quoted,
        }
    } else {
        st
    }
}

/// The pending segments closed into a word token.
pub open spec fn flush(st: LexState) -> Result<LexState, Seq<char>> {
    let st1 = close_buf(st);
    if st1.segs.len() == 0 {
        Ok(st1)
    } else {
        let all = st1.segs.len() == 1 && st1.segs[0] is AllArguments && !st1.quoted;
        if has_all_arguments(st1.segs) && !all {
            Err(msg_standalone_all())
        } else {
            Ok(
                LexState {
                    out: st1.out.push(
                        TokModel::Word {
                            raw: raw_text(st1.segs),
                            arg: ArgumentModel {
                                segments: st1.segs,
                                quoted: st1.quoted,
                                all_arguments: all,
                            },
                        },
                    ),
                    buf: Seq::empty(),
                    segs: Seq::empty(),
                    quote: st1.quote,
                    quoted: st1.quoted,
                },
            )
        }
    }
}

pub open spec fn with_buf(st: LexState, buf: Seq<char>) -> LexState {
    LexState { out: st.out, buf, segs: st.segs, quote: st.quote, quoted: st.quoted }
}

pub open spec fn with_quote(st: LexState, quote: Option<char>, quoted: bool) -> LexState {
    LexState { out: st.out, buf: st.buf, segs: st.segs, quote, quoted }
}

pub open spec fn with_seg(st: LexState, seg: SegmentModel) -> LexState {
    LexState { out: st.out, buf: st.buf, segs: st.segs.push(seg), quote: st.quote, quoted: st.quoted }
}

pub open spec fn with_op(st: LexState, op: OpKind) -> LexState {
    LexState { out: st.out.push(TokModel::Op(op)), buf: st.buf, segs: st.segs, quote: st.quote, quoted: false }
}

/// The first index `j >= from` with `s[j] == '}'`, or `s.len()`.
pub open spec fn close_brace_from(s: Seq<char>, from: int) -> int
    decreases s.len() - from,
{
    if from < 0 || from >= s.len() {
        s.len() as int
    } else if s[from] == '}' {
        from
    } else {
        close_brace_from(s, from + 1)
    }
}

pub proof fn lemma_close_brace_bound(s: Seq<char>, from: int)
    requires
        0 <= from,
    ensures
        from <= close_brace_from(s, from) <= s.len() || (from > s.len() && close_brace_from(s, from) == s.len()),
        close_brace_from(s, from) < s.len() ==> s[close_brace_from(s, from)] == '}',
        forall|m: int| from <= m < close_brace_from(s, from) ==> s[m] != '}',
    decreases s.len() - from,
{
    if from < s.len() && s[from] != '}' {
        lemma_close_brace_bound(s, from + 1);
    }
}

/// The tokens of `s[i..]`, starting from state `st`.
pub open spec fn lex_from(s: Seq<char>, i: int, st: LexState) -> Result<Seq<TokModel>, Seq<char>>
    decreases s.len(), 0int, s.len() - i,
{
    if i < 0 || i >= s.len() {
        if st.quote is Some {
            Err(msg_unclosed_quote())
        } else {
            match flush(st) {
                Ok(f) => Ok(f.out),
                Err(e) => Err(e),
            }
        }
    } else {
        let c = s[i];
        let has_next = i + 1 < s.len();
        if st.quote is Some && st.quote->0 == '"' && c == '\\' && has_next {
            lex_from(s, i + 2, with_buf(st, st.buf.push(s[i + 1])))
        } else if st.quote is Some && c == st.quote->0 {
            lex_from(s, i + 1, with_quote(st, None, st.quoted))
        } else if st.quote == Some('\'') {
            lex_from(s, i + 1, with_buf(st, st.buf.push(c)))
        } else if st.quote is None && (c == '\'' || c == '"') {
            lex_from(s, i + 1, with_quote(st, Some(c), true))
        } else if st.quote is None && spec_is_whitespace(c) {
            match flush(st) {
                Ok(f) => lex_from(s, i + 1, with_quote(f, None, false)),
                Err(e) => Err(e),
            }
        } else if st.quote is None && (c == '|' || c == '<' || c == '>') {
            match flush(st) {
                Ok(f) => if c == '>' && has_next && s[i + 1] == '>' {
                    lex_from(s, i + 2, with_op(f, OpKind::Append))
                } else {
                    lex_from(
                        s,
                        i + 1,
                        with_op(
                            f,
                            if c == '|' {
                                OpKind::Pipe
                            } else if c == '<' {
                                OpKind::Input
                            } else {
                                OpKind::Output
                            },
                        ),
                    )
                },
                Err(e) => Err(e),
            }
        } else if c == '$' && has_next && s[i + 1] == '{' {
            let j = close_brace_from(s, i + 2);
            proof {
                lemma_close_brace_bound(s, i + 2);
            }
            if j >= s.len() {
                Err(msg_unclosed_env())
            } else {
                let name = s.subrange(i + 2, j);
                if !spec_valid_env(name) {
                    Err(msg_invalid_env(name))
                } else {
                    lex_from(s, j + 1, with_seg(close_buf(st), SegmentModel::EnvRef(name)))
                }
            }
        } else if c == '$' && has_next && s[i + 1] == '(' {
            let rest = s.subrange(i + 2, s.len() as int);
            match spec_matching_paren(rest) {
                None => Err(msg_unclosed_substitution()),
                Some(end) => {
                    proof {
                        lemma_matching_paren_bound(rest, 0, 0, None);
                    }
                    let sub = rest.take(end);
                    match spec_parse_command(sub) {
                        Err(e) => Err(e),
                        Ok(cmd) => {
                            let next = i + utf8_len(sub) + 3;
                            lex_from(
                                s,
                                if next < s.len() { next } else { s.len() as int },
                                with_seg(
                                    close_buf(st),
                                    SegmentModel::CommandSubstitution(Box::new(cmd)),
                                ),
                            )
                        },
                    }
                },
            }
        } else if c == '$' {
            Err(msg_bare_dollar())
        } else if c == '@' {
            let st1 = close_buf(st);
            if has_next && s[i + 1] == '@' {
                lex_from(s, i + 2, with_seg(st1, SegmentModel::LiteralAt))
            } else if has_next && s[i + 1] == '*' {
                lex_from(s, i + 2, with_seg(st1, SegmentModel::AllArguments))
            } else if has_next && spec_is_ascii_digit(s[i + 1]) && s[i + 1] != '0' {
                lex_from(
                    s,
                    i + 2,
                    with_seg(st1, SegmentModel::Positional(((s[i + 1] as u32) - 48) as u8)),
                )
            } else {
                lex_from(s, i + 1, with_buf(st1, seq!['@']))
            }
        } else {
            lex_from(s, i + 1, with_buf(st, st.buf.push(c)))
        }
    }
}

/// The tokens of a template text.
pub open spec fn spec_tokenize(s: Seq<char>) -> Result<Seq<TokModel>, Seq<char>>
    decreases s.len(), 1int, 0int,
{
    lex_from(s, 0, lex_init())
}

/// The command pipeline that a template text denotes.
pub open spec fn spec_parse_command(s: Seq<char>) -> Result<CommandModel, Seq<char>>
    decreases s.len(), 2int, 0int,
{
    match spec_tokenize(s) {
        Err(e) => Err(e),
        Ok(toks) => build_from(toks, 0, build_init()),
    }
}

// ---------------------------------------------------------------------------
// Building a pipeline from tokens, specified.

pub open spec fn empty_invocation() -> InvocationModel {
    InvocationModel { arguments: Seq::empty(), input: None, output: None, bypass_shell_function: false }
}

/// Whether an argument refers to `@1`..`@9` or `@*` directly.
pub open spec fn spec_contains_placeholder(a: ArgumentModel) -> bool {
    exists|k: int|
        0 <= k < a.segments.len() && (#[trigger] a.segments[k] is Positional
            || a.segments[k] is AllArguments)
}

/// The index of the first `c` in `t` at or after `from`.
pub open spec fn index_of_from(t: Seq<char>, c: char, from: int) -> Option<int>
    decreases t.len() - from,
{
    if from < 0 || from >= t.len() {
        None
    } else if t[from] == c {
        Some(from)
    } else {
        index_of_from(t, c, from + 1)
    }
}

pub open spec fn index_of(t: Seq<char>, c: char) -> Option<int> {
    index_of_from(t, c, 0)
}

pub proof fn lemma_index_of_bound(t: Seq<char>, c: char, from: int)
    requires
        0 <= from,
    ensures
        index_of_from(t, c, from) matches Some(k) ==> from <= k < t.len() && t[k] == c,
    decreases t.len() - from,
{
    if from < t.len() && t[from] != c {
        lemma_index_of_bound(t, c, from + 1);
    }
}

/// An unquoted single literal `NAME=value` with a valid variable name.
pub open spec fn spec_is_assignment_word(a: ArgumentModel) -> bool {
    !a.quoted && a.segments.len() == 1 && match a.segments[0] {
        SegmentModel::Literal(t) => match index_of(t, '=') {
            Some(k) => spec_valid_env(t.take(k)),
            None => false,
        },
        _ => false,
    }
}

pub struct BuildState {
    pub done: Seq<InvocationModel>,
    pub current: InvocationModel,
    pub need: Option<OpKind>,
    pub saw: bool,
    pub any_placeholder: bool,
}

pub open spec fn build_init() -> BuildState {
    BuildState { done: Seq::empty(), current: empty_invocation(), need: None, saw: false, any_placeholder: false }
}

pub open spec fn build_finish(b: BuildState) -> Result<CommandModel, Seq<char>> {
    if b.need is Some {
        Err(msg_missing_redirect_target())
    } else if !b.saw || b.current.arguments.len() == 0 {
        Err(msg_expected_command())
    } else {
        let cmds = b.done.push(b.current);
        if exists|k: int|
            0 <= k < cmds.len() && #[trigger] cmds[k].arguments.len() > 0 && spec_is_assignment_word(
                cmds[k].arguments[0],
            ) {
            Err(msg_assignment_prefix())
        } else {
            Ok(CommandModel { commands: cmds, implicit_all: !b.any_placeholder, bypass_shell_function: false })
        }
    }
}

/// The pipeline built from `toks[k..]`, starting from state `b`.
pub open spec fn build_from(toks: Seq<TokModel>, k: int, b: BuildState) -> Result<CommandModel, Seq<char>>
    decreases toks.len() - k,
{
    if k < 0 || k >= toks.len() {
        build_finish(b)
    } else {
        match toks[k] {
            TokModel::Op(OpKind::Pipe) => if b.current.arguments.len() == 0 {
                Err(msg_empty_pipeline_command())
            } else {
                build_from(
                    toks,
                    k + 1,
                    BuildState {
                        done: b.done.push(b.current),
                        current: empty_invocation(),
                        need: b.need,
                        saw: b.saw,
                        any_placeholder: b.any_placeholder,
                    },
                )
            },
            TokModel::Op(op) => if b.need is Some {
                Err(msg_missing_redirect_target())
            } else {
                build_from(
                    toks,
                    k + 1,
                    BuildState { done: b.done, current: b.current, need: Some(op), saw: b.saw, any_placeholder: b.any_placeholder },
                )
            },
            TokModel::Word { raw, arg } => {
                let any = b.any_placeholder || spec_contains_placeholder(arg);
                match b.need {
                    Some(op) => if arg.all_arguments {
                        Err(msg_all_redirect_target())
                    } else if op == OpKind::Input {
                        if b.current.input is Some {
                            Err(msg_two_inputs())
                        } else {
                            build_from(
                                toks,
                                k + 1,
                                BuildState {
                                    done: b.done,
                                    current: InvocationModel { input: Some(arg), ..b.current },
                                    need: None,
                                    saw: true,
                                    any_placeholder: any,
                                },
                            )
                        }
                    } else {
                        if b.current.output is Some {
                            Err(msg_two_outputs())
                        } else {
                            build_from(
                                toks,
                                k + 1,
                                BuildState {
                                    done: b.done,
                                    current: InvocationModel {
                                        output: Some((arg, op == OpKind::Append)),
                                        ..b.current
                                    },
                                    need: None,
                                    saw: true,
                                    any_placeholder: any,
                                },
                            )
                        }
                    },
                    None => build_from(
                        toks,
                        k + 1,
                        BuildState {
                            done: b.done,
                            current: InvocationModel {
                                arguments: b.current.arguments.push(arg),
                                ..b.current
                            },
                            need: None,
                            saw: true,
                            any_placeholder: any,
                        },
                    ),
                }
            },
        }
    }
}

/// The literal text of the word tokens, in order.
pub open spec fn words_of(toks: Seq<TokModel>) -> Seq<Seq<char>>
    decreases toks.len(),
{
    if toks.len() == 0 {
        Seq::empty()
    } else {
        match toks.last() {
            TokModel::Word { raw, arg } => words_of(toks.drop_last()).push(raw),
            TokModel::Op(_) => words_of(toks.drop_last()),
        }
    }
}


// ---------------------------------------------------------------------------
// Properties of the specified tokenizer and builder.

/// `@*` stands alone: an argument that holds `@*` holds nothing else and is
/// unquoted, and exactly such an argument is marked `all_arguments`.
pub open spec fn arg_wf(a: ArgumentModel) -> bool {
    &&& a.all_arguments == (a.segments.len() == 1 && a.segments[0] is AllArguments && !a.quoted)
    &&& has_all_arguments(a.segments) ==> a.all_arguments
}

pub open spec fn tok_wf(t: TokModel) -> bool {
    t matches TokModel::Word { raw, arg } ==> arg_wf(arg)
}

pub open spec fn toks_wf(t: Seq<TokModel>) -> bool {
    forall|k: int| 0 <= k < t.len() ==> tok_wf(#[trigger] t[k])
}

/// Every argument of an invocation is well formed, and no redirection
/// target is `@*`.
pub open spec fn invocation_wf(i: InvocationModel) -> bool {
    &&& forall|k: int| 0 <= k < i.arguments.len() ==> arg_wf(#[trigger] i.arguments[k])
    &&& (i.input matches Some(a) ==> arg_wf(a) && !a.all_arguments)
    &&& (i.output matches Some(o) ==> arg_wf(o.0) && !o.0.all_arguments)
}

pub proof fn lemma_flush_wf(st: LexState)
    requires
        toks_wf(st.out),
    ensures
        flush(st) matches Ok(f) ==> toks_wf(f.out),
{
    let st1 = close_buf(st);
    if let Ok(f) = flush(st) {
        if st1.segs.len() > 0 {
            assert forall|k: int| 0 <= k < f.out.len() implies tok_wf(#[trigger] f.out[k]) by {
                if k < st.out.len() {
                    assert(f.out[k] == st.out[k]);
                }
            }
        }
    }
}

pub proof fn lemma_lex_wf(s: Seq<char>, i: int, st: LexState)
    requires
        toks_wf(st.out),
    ensures
        lex_from(s, i, st) matches Ok(t) ==> toks_wf(t),
    decreases s.len() - i,
{
    if i < 0 || i >= s.len() {
        lemma_flush_wf(st);
    } else {
        let c = s[i];
        let has_next = i + 1 < s.len();
        if st.quote is Some && st.quote->0 == '"' && c == '\\' && has_next {
            lemma_lex_wf(s, i + 2, with_buf(st, st.buf.push(s[i + 1])));
        } else if st.quote is Some && c == st.quote->0 {
            lemma_lex_wf(s, i + 1, with_quote(st, None, st.quoted));
        } else if st.quote == Some('\'') {
            lemma_lex_wf(s, i + 1, with_buf(st, st.buf.push(c)));
        } else if st.quote is None && (c == '\'' || c == '"') {
            lemma_lex_wf(s, i + 1, with_quote(st, Some(c), true));
        } else if st.quote is None && spec_is_whitespace(c) {
            lemma_flush_wf(st);
            if let Ok(f) = flush(st) {
                lemma_lex_wf(s, i + 1, with_quote(f, None, false));
            }
        } else if st.quote is None && (c == '|' || c == '<' || c == '>') {
            lemma_flush_wf(st);
            if let Ok(f) = flush(st) {
                if c == '>' && has_next && s[i + 1] == '>' {
                    let n = with_op(f, OpKind::Append);
                    assert(toks_wf(n.out)) by {
                        assert forall|k: int| 0 <= k < n.out.len() implies tok_wf(#[trigger] n.out[k]) by {
                            if k < f.out.len() {
                                assert(n.out[k] == f.out[k]);
                            }
                        }
                    }
                    lemma_lex_wf(s, i + 2, n);
                } else {
                    let op = if c == '|' {
                        OpKind::Pipe
                    } else if c == '<' {
                        OpKind::Input
                    } else {
                        OpKind::Output
                    };
                    let n = with_op(f, op);
                    assert(toks_wf(n.out)) by {
                        assert forall|k: int| 0 <= k < n.out.len() implies tok_wf(#[trigger] n.out[k]) by {
                            if k < f.out.len() {
                                assert(n.out[k] == f.out[k]);
                            }
                        }
                    }
                    lemma_lex_wf(s, i + 1, n);
                }
            }
        } else if c == '$' && has_next && s[i + 1] == '{' {
            let j = close_brace_from(s, i + 2);
            lemma_close_brace_bound(s, i + 2);
            if j < s.len() {
                let name = s.subrange(i + 2, j);
                if spec_valid_env(name) {
                    lemma_lex_wf(s, j + 1, with_seg(close_buf(st), SegmentModel::EnvRef(name)));
                }
            }
        } else if c == '$' && has_next && s[i + 1] == '(' {
            let rest = s.subrange(i + 2, s.len() as int);
            if let Some(end) = spec_matching_paren(rest) {
                lemma_matching_paren_bound(rest, 0, 0, None);
                let sub = rest.take(end);
                if let Ok(cmd) = spec_parse_command(sub) {
                    let next = i + utf8_len(sub) + 3;
                    lemma_lex_wf(
                        s,
                        if next < s.len() { next } else { s.len() as int },
                        with_seg(close_buf(st), SegmentModel::CommandSubstitution(Box::new(cmd))),
                    );
                }
            }
        } else if c == '$' {
        } else if c == '@' {
            let st1 = close_buf(st);
            if has_next && s[i + 1] == '@' {
                lemma_lex_wf(s, i + 2, with_seg(st1, SegmentModel::LiteralAt));
            } else if has_next && s[i + 1] == '*' {
                lemma_lex_wf(s, i + 2, with_seg(st1, SegmentModel::AllArguments));
            } else if has_next && spec_is_ascii_digit(s[i + 1]) && s[i + 1] != '0' {
                lemma_lex_wf(
                    s,
                    i + 2,
                    with_seg(st1, SegmentModel::Positional(((s[i + 1] as u32) - 48) as u8)),
                );
            } else {
                lemma_lex_wf(s, i + 1, with_buf(st1, seq!['@']));
            }
        } else {
            lemma_lex_wf(s, i + 1, with_buf(st, st.buf.push(c)));
        }
    }
}

pub proof fn lemma_build_wf(toks: Seq<TokModel>, k: int, b: BuildState)
    requires
        toks_wf(toks),
        forall|j: int| 0 <= j < b.done.len() ==> invocation_wf(#[trigger] b.done[j]),
        invocation_wf(b.current),
    ensures
        build_from(toks, k, b) matches Ok(c) ==> forall|j: int|
            0 <= j < c.commands.len() ==> invocation_wf(#[trigger] c.commands[j]),
    decreases toks.len() - k,
{
    if k < 0 || k >= toks.len() {
        if let Ok(c) = build_from(toks, k, b) {
            assert forall|j: int| 0 <= j < c.commands.len() implies invocation_wf(#[trigger] c.commands[j]) by {
                if j < b.done.len() {
                    assert(c.commands[j] == b.done[j]);
                }
            }
        }
    } else {
        assert(tok_wf(toks[k]));
        match toks[k] {
            TokModel::Op(OpKind::Pipe) => if b.current.arguments.len() != 0 {
                let nb = BuildState {
                    done: b.done.push(b.current),
                    current: empty_invocation(),
                    need: b.need,
                    saw: b.saw,
                    any_placeholder: b.any_placeholder,
                };
                assert forall|j: int| 0 <= j < nb.done.len() implies invocation_wf(#[trigger] nb.done[j]) by {
                    if j < b.done.len() {
                        assert(nb.done[j] == b.done[j]);
                    }
                }
                lemma_build_wf(toks, k + 1, nb);
            },
            TokModel::Op(op) => if b.need is None {
                lemma_build_wf(
                    toks,
                    k + 1,
                    BuildState { done: b.done, current: b.current, need: Some(op), saw: b.saw, any_placeholder: b.any_placeholder },
                );
            },
            TokModel::Word { raw, arg } => {
                let any = b.any_placeholder || spec_contains_placeholder(arg);
                match b.need {
                    Some(op) => if !arg.all_arguments {
                        if op == OpKind::Input {
                            if b.current.input is None {
                                lemma_build_wf(
                                    toks,
                                    k + 1,
                                    BuildState {
                                        done: b.done,
                                        current: InvocationModel { input: Some(arg), ..b.current },
                                        need: None,
                                        saw: true,
                                        any_placeholder: any,
                                    },
                                );
                            }
                        } else {
                            if b.current.output is None {
                                lemma_build_wf(
                                    toks,
                                    k + 1,
                                    BuildState {
                                        done: b.done,
                                        current: InvocationModel {
                                            output: Some((arg, op == OpKind::Append)),
                                            ..b.current
                                        },
                                        need: None,
                                        saw: true,
                                        any_placeholder: any,
                                    },
                                );
                            }
                        }
                    },
                    None => {
                        let cur = InvocationModel {
                            arguments: b.current.arguments.push(arg),
                            ..b.current
                        };
                        assert forall|j: int| 0 <= j < cur.arguments.len() implies arg_wf(#[trigger] cur.arguments[j]) by {
                            if j < b.current.arguments.len() {
                                assert(cur.arguments[j] == b.current.arguments[j]);
                            }
                        }
                        lemma_build_wf(
                            toks,
                            k + 1,
                            BuildState { done: b.done, current: cur, need: None, saw: true, any_placeholder: any },
                        );
                    },
                }
            },
        }
    }
}

/// Every command pipeline that the parser accepts is made of well-formed
/// invocations.
pub proof fn lemma_parse_command_wf(s: Seq<char>)
    ensures
        spec_parse_command(s) matches Ok(c) ==> forall|j: int|
            0 <= j < c.commands.len() ==> invocation_wf(#[trigger] c.commands[j]),
{
    lemma_lex_wf(s, 0, lex_init());
    if let Ok(t) = spec_tokenize(s) {
        lemma_build_wf(t, 0, build_init());
    }
}

/// Whether an invocation refers to a positional argument or `@*` in an
/// argument or a redirection target.
pub open spec fn invocation_has_placeholder(i: InvocationModel) -> bool {
    ||| exists|k: int| 0 <= k < i.arguments.len() && spec_contains_placeholder(#[trigger] i.arguments[k])
    ||| (i.input matches Some(a) && spec_contains_placeholder(a))
    ||| (i.output matches Some(o) && spec_contains_placeholder(o.0))
}

pub open spec fn any_placeholder(cmds: Seq<InvocationModel>) -> bool {
    exists|j: int| 0 <= j < cmds.len() && invocation_has_placeholder(#[trigger] cmds[j])
}

proof fn lemma_any_placeholder_push(cmds: Seq<InvocationModel>, x: InvocationModel)
    ensures
        any_placeholder(cmds.push(x)) == (any_placeholder(cmds) || invocation_has_placeholder(x)),
{
    let n = cmds.push(x);
    if any_placeholder(cmds) {
        let j = choose|j: int| 0 <= j < cmds.len() && invocation_has_placeholder(#[trigger] cmds[j]);
        assert(n[j] == cmds[j]);
    }
    if invocation_has_placeholder(x) {
        assert(n[cmds.len() as int] == x);
    }
    if any_placeholder(n) {
        let j = choose|j: int| 0 <= j < n.len() && invocation_has_placeholder(#[trigger] n[j]);
        if j < cmds.len() {
            assert(n[j] == cmds[j]);
        }
    }
}

pub open spec fn build_any_ok(b: BuildState) -> bool {
    b.any_placeholder == (any_placeholder(b.done) || invocation_has_placeholder(b.current))
}

pub proof fn lemma_build_placeholder(toks: Seq<TokModel>, k: int, b: BuildState)
    requires
        build_any_ok(b),
    ensures
        build_from(toks, k, b) matches Ok(c) ==> c.implicit_all == !any_placeholder(c.commands),
    decreases toks.len() - k,
{
    if k < 0 || k >= toks.len() {
        lemma_any_placeholder_push(b.done, b.current);
    } else {
        match toks[k] {
            TokModel::Op(OpKind::Pipe) => if b.current.arguments.len() != 0 {
                lemma_any_placeholder_push(b.done, b.current);
                let nb = BuildState {
                    done: b.done.push(b.current),
                    current: empty_invocation(),
                    need: b.need,
                    saw: b.saw,
                    any_placeholder: b.any_placeholder,
                };
                lemma_build_placeholder(toks, k + 1, nb);
            },
            TokModel::Op(op) => if b.need is None {
                lemma_build_placeholder(
                    toks,
                    k + 1,
                    BuildState { done: b.done, current: b.current, need: Some(op), saw: b.saw, any_placeholder: b.any_placeholder },
                );
            },
            TokModel::Word { raw, arg } => {
                let any = b.any_placeholder || spec_contains_placeholder(arg);
                match b.need {
                    Some(op) => if !arg.all_arguments {
                        if op == OpKind::Input {
                            if b.current.input is None {
                                let cur = InvocationModel { input: Some(arg), ..b.current };
                                assert(cur.arguments == b.current.arguments);
                                assert(cur.output == b.current.output);
                                assert(invocation_has_placeholder(cur) == (invocation_has_placeholder(b.current) || spec_contains_placeholder(arg)));
                                lemma_build_placeholder(
                                    toks,
                                    k + 1,
                                    BuildState { done: b.done, current: cur, need: None, saw: true, any_placeholder: any },
                                );
                            }
                        } else {
                            if b.current.output is None {
                                let cur = InvocationModel {
                                    output: Some((arg, op == OpKind::Append)),
                                    ..b.current
                                };
                                assert(cur.arguments == b.current.arguments);
                                assert(cur.input == b.current.input);
                                assert(invocation_has_placeholder(cur) == (invocation_has_placeholder(b.current) || spec_contains_placeholder(arg)));
                                lemma_build_placeholder(
                                    toks,
                                    k + 1,
                                    BuildState { done: b.done, current: cur, need: None, saw: true, any_placeholder: any },
                                );
                            }
                        }
                    },
                    None => {
                        let cur = InvocationModel {
                            arguments: b.current.arguments.push(arg),
                            ..b.current
                        };
                        let old_args = b.current.arguments;
                        assert(cur.arguments[old_args.len() as int] == arg);
                        if exists|m: int| 0 <= m < old_args.len() && spec_contains_placeholder(#[trigger] old_args[m]) {
                            let m = choose|m: int| 0 <= m < old_args.len() && spec_contains_placeholder(#[trigger] old_args[m]);
                            assert(cur.arguments[m] == old_args[m]);
                        }
                        if exists|m: int| 0 <= m < cur.arguments.len() && spec_contains_placeholder(#[trigger] cur.arguments[m]) {
                            let m = choose|m: int| 0 <= m < cur.arguments.len() && spec_contains_placeholder(#[trigger] cur.arguments[m]);
                            if m < old_args.len() {
                                assert(cur.arguments[m] == old_args[m]);
                            }
                        }
                        assert(invocation_has_placeholder(cur) == (invocation_has_placeholder(b.current) || spec_contains_placeholder(arg)));
                        lemma_build_placeholder(
                            toks,
                            k + 1,
                            BuildState { done: b.done, current: cur, need: None, saw: true, any_placeholder: any },
                        );
                    },
                }
            },
        }
    }
}

/// A parsed pipeline takes the caller's arguments implicitly exactly when
/// none of its arguments or redirection targets refers to `@1`..`@9` or `@*`.
pub proof fn lemma_parse_command_implicit_all(s: Seq<char>)
    ensures
        spec_parse_command(s) matches Ok(c) ==> c.implicit_all == !any_placeholder(c.commands),
{
    if let Ok(t) = spec_tokenize(s) {
        let b = build_init();
        assert(!invocation_has_placeholder(b.current));
        lemma_build_placeholder(t, 0, b);
    }
}

pub proof fn lemma_build_shape(toks: Seq<TokModel>, k: int, b: BuildState)
    requires
        forall|j: int| 0 <= j < b.done.len() ==> (#[trigger] b.done[j]).arguments.len() > 0,
    ensures
        build_from(toks, k, b) matches Ok(c) ==> c.commands.len() >= 1 && forall|j: int|
            0 <= j < c.commands.len() ==> (#[trigger] c.commands[j]).arguments.len() > 0
                && !spec_is_assignment_word(c.commands[j].arguments[0]),
    decreases toks.len() - k,
{
    if k < 0 || k >= toks.len() {
        if let Ok(c) = build_from(toks, k, b) {
            assert forall|j: int| 0 <= j < c.commands.len() implies (#[trigger] c.commands[j]).arguments.len() > 0
                && !spec_is_assignment_word(c.commands[j].arguments[0]) by {
                if j < b.done.len() {
                    assert(c.commands[j] == b.done[j]);
                }
            }
        }
    } else {
        match toks[k] {
            TokModel::Op(OpKind::Pipe) => if b.current.arguments.len() != 0 {
                let nb = BuildState {
                    done: b.done.push(b.current),
                    current: empty_invocation(),
                    need: b.need,
                    saw: b.saw,
                    any_placeholder: b.any_placeholder,
                };
                assert forall|j: int| 0 <= j < nb.done.len() implies (#[trigger] nb.done[j]).arguments.len() > 0 by {
                    if j < b.done.len() {
                        assert(nb.done[j] == b.done[j]);
                    }
                }
                lemma_build_shape(toks, k + 1, nb);
            },
            TokModel::Op(op) => if b.need is None {
                lemma_build_shape(
                    toks,
                    k + 1,
                    BuildState { done: b.done, current: b.current, need: Some(op), saw: b.saw, any_placeholder: b.any_placeholder },
                );
            },
            TokModel::Word { raw, arg } => {
                let any = b.any_placeholder || spec_contains_placeholder(arg);
                match b.need {
                    Some(op) => if !arg.all_arguments {
                        if op == OpKind::Input {
                            if b.current.input is None {
                                lemma_build_shape(
                                    toks,
                                    k + 1,
                                    BuildState {
                                        done: b.done,
                                        current: InvocationModel { input: Some(arg), ..b.current },
                                        need: None,
                                        saw: true,
                                        any_placeholder: any,
                                    },
                                );
                            }
                        } else {
                            if b.current.output is None {
                                lemma_build_shape(
                                    toks,
                                    k + 1,
                                    BuildState {
                                        done: b.done,
                                        current: InvocationModel {
                                            output: Some((arg, op == OpKind::Append)),
                                            ..b.current
                                        },
                                        need: None,
                                        saw: true,
                                        any_placeholder: any,
                                    },
                                );
                            }
                        }
                    },
                    None => {
                        lemma_build_shape(
                            toks,
                            k + 1,
                            BuildState {
                                done: b.done,
                                current: InvocationModel { arguments: b.current.arguments.push(arg), ..b.current },
                                need: None,
                                saw: true,
                                any_placeholder: any,
                            },
                        );
                    },
                }
            },
        }
    }
}

/// A parsed pipeline has at least one command, every command has a command
/// word, and no command starts with a `NAME=value` prefix.
pub proof fn lemma_parse_command_shape(s: Seq<char>)
    ensures
        spec_parse_command(s) matches Ok(c) ==> c.commands.len() >= 1 && forall|j: int|
            0 <= j < c.commands.len() ==> (#[trigger] c.commands[j]).arguments.len() > 0
                && !spec_is_assignment_word(c.commands[j].arguments[0]),
{
    if let Ok(t) = spec_tokenize(s) {
        lemma_build_shape(t, 0, build_init());
    }
}

// ---------------------------------------------------------------------------
// The tokenizer, implemented.

pub open spec fn lex_model(
    out: Seq<Tok>,
    buf: Seq<char>,
    segs: Seq<ArgumentSegment>,
    quote: Option<char>,
    quoted: bool,
) -> LexState {
    LexState { out: toks_model(out), buf, segs: segments_model(segs), quote, quoted }
}

proof fn lemma_toks_model_push(s: Seq<Tok>, t: Tok)
    ensures
        toks_model(s.push(t)) == toks_model(s).push(tok_model(t)),
{
    assert(toks_model(s.push(t)) =~= toks_model(s).push(tok_model(t)));
}

/// Closes pending literal text into a segment.
fn close_buf_exec(buf: &mut Vec<char>, segs: &mut Vec<ArgumentSegment>)
    ensures
        old(buf)@.len() > 0 ==> final(buf)@ == Seq::<char>::empty() && segments_model(final(segs)@)
            == segments_model(old(segs)@).push(SegmentModel::Literal(old(buf)@)),
        old(buf)@.len() == 0 ==> final(buf)@ == old(buf)@ && final(segs)@ == old(segs)@,
{
    if buf.len() > 0 {
        let mut lit: Vec<char> = Vec::new();
        std::mem::swap(&mut lit, buf);
        let seg = ArgumentSegment::Literal(string_of(&lit));
        proof {
            lemma_segments_model_push(segs@, seg);
        }
        segs.push(seg);
    }
}

fn is_all_segment(seg: &ArgumentSegment) -> (r: bool)
    ensures
        r == (segment_model(*seg) is AllArguments),
{
    match seg {
        ArgumentSegment::AllArguments => true,
        _ => false,
    }
}

fn any_all_segment(segs: &Vec<ArgumentSegment>) -> (r: bool)
    ensures
        r == has_all_arguments(segments_model(segs@)),
{
    proof {
        lemma_segments_model(segs@);
    }
    let mut k: usize = 0;
    while k < segs.len()
        invariant
            k <= segs.len(),
            segments_model(segs@).len() == segs@.len(),
            forall|m: int| 0 <= m < k ==> !(#[trigger] segments_model(segs@)[m] is AllArguments),
        decreases segs.len() - k,
    {
        proof {
            lemma_segments_model(segs@);
        }
        if is_all_segment(&segs[k]) {
            assert(segments_model(segs@)[k as int] is AllArguments);
            return true;
        }
        k = k + 1;
    }
    false
}

/// The literal text of a word's segments.
fn raw_chars(segs: &Vec<ArgumentSegment>) -> (r: Vec<char>)
    ensures
        r@ == raw_text(segments_model(segs@)),
{
    let mut r: Vec<char> = Vec::new();
    let mut k: usize = 0;
    while k < segs.len()
        invariant
            k <= segs.len(),
            r@ == raw_text(segments_model(segs@.take(k as int))),
        decreases segs.len() - k,
    {
        proof {
            assert(segs@.take(k + 1) =~= segs@.take(k as int).push(segs@[k as int]));
            lemma_segments_model_push(segs@.take(k as int), segs@[k as int]);
            let m = segments_model(segs@.take(k + 1));
            assert(m.drop_last() =~= segments_model(segs@.take(k as int)));
        }
        match &segs[k] {
            ArgumentSegment::Literal(t) => {
                let mut v = to_chars(t.as_str());
                r.append(&mut v);
            },
            ArgumentSegment::LiteralAt => {
                r.push('@');
                assert(r@ =~= raw_text(segments_model(segs@.take(k + 1))));
            },
            _ => {},
        }
        k = k + 1;
        assert(r@ =~= raw_text(segments_model(segs@.take(k as int))));
    }
    assert(segs@.take(segs.len() as int) =~= segs@);
    r
}

/// Closes the pending segments into a word token.
fn flush_word(
    out: &mut Vec<Tok>,
    buf: &mut Vec<char>,
    segs: &mut Vec<ArgumentSegment>,
    quote: Option<char>,
    quoted: bool,
) -> (r: Result<(), String>)
    ensures
        match flush(lex_model(old(out)@, old(buf)@, old(segs)@, quote, quoted)) {
            Ok(f) => r is Ok && f == lex_model(final(out)@, final(buf)@, final(segs)@, quote, quoted),
            Err(e) => r matches Err(m) && m@ == e,
        },
{
    close_buf_exec(buf, segs);
    if segs.len() == 0 {
        assert(segments_model(segs@) =~= Seq::<SegmentModel>::empty());
        return Ok(());
    }
    proof {
        lemma_segments_model(segs@);
    }
    let all = segs.len() == 1 && is_all_segment(&segs[0]) && !quoted;
    if !all && any_all_segment(segs) {
        return Err(string_from("@* must be an unquoted standalone argument"));
    }
    let raw = raw_chars(segs);
    let ghost closed = segs@;
    let ghost st1 = close_buf(lex_model(old(out)@, old(buf)@, old(segs)@, quote, quoted));
    assert(st1.segs == segments_model(closed));
    assert(all == (st1.segs.len() == 1 && st1.segs[0] is AllArguments && !st1.quoted));
    let mut taken: Vec<ArgumentSegment> = Vec::new();
    taken.append(segs);
    assert(taken@ =~= closed);
    let arg = Argument { segments: taken, quoted, all_arguments: all };
    let t = Tok::Word(raw, arg);
    proof {
        lemma_toks_model_push(out@, t);
    }
    out.push(t);
    assert(segments_model(segs@) =~= Seq::<SegmentModel>::empty());
    proof {
        let f = flush(lex_model(old(out)@, old(buf)@, old(segs)@, quote, quoted));
        assert(f is Ok);
        assert(f->Ok_0.out == toks_model(out@));
        assert(f->Ok_0.buf =~= buf@);
        assert(f->Ok_0.segs =~= segments_model(segs@));
    }
    Ok(())
}

/// The number of bytes that UTF-8 takes for the characters.
fn utf8_len_exec(v: &Vec<char>) -> (r: u128)
    ensures
        r == utf8_len(v@),
        r <= 4 * v@.len(),
{
    let mut r: u128 = 0;
    let mut k: usize = 0;
    while k < v.len()
        invariant
            k <= v.len(),
            r == utf8_len(v@.take(k as int)),
            r <= 4 * k,
        decreases v.len() - k,
    {
        let u = v[k] as u32;
        let w: u128 = if u < 0x80 {
            1
        } else if u < 0x800 {
            2
        } else if u < 0x10000 {
            3
        } else {
            4
        };
        proof {
            assert(v@.take(k + 1).drop_last() =~= v@.take(k as int));
        }
        r = r + w;
        k = k + 1;
    }
    assert(v@.take(v.len() as int) =~= v@);
    r
}

/// The tokens of a template text.
#[verifier::rlimit(100)]
pub fn tokenize(s: &Vec<char>) -> (r: Result<Vec<Tok>, String>)
    ensures
        match spec_tokenize(s@) {
            Ok(t) => r matches Ok(v) && toks_model(v@) == t,
            Err(e) => r matches Err(m) && m@ == e,
        },
    decreases s@.len(), 1int,
{
    let n = s.len();
    let mut out: Vec<Tok> = Vec::new();
    let mut buf: Vec<char> = Vec::new();
    let mut segs: Vec<ArgumentSegment> = Vec::new();
    let mut quote: Option<char> = None;
    let mut quoted = false;
    let mut i: usize = 0;
    assert(lex_model(out@, buf@, segs@, quote, quoted) =~= lex_init()) by {
        assert(toks_model(out@) =~= Seq::<TokModel>::empty());
        assert(segments_model(segs@) =~= Seq::<SegmentModel>::empty());
    }
    while i < n
        invariant
            n == s.len(),
            i <= n,
            spec_tokenize(s@) == lex_from(s@, i as int, lex_model(out@, buf@, segs@, quote, quoted)),
        decreases n - i,
    {
        let c = s[i];
        let has_next = i + 1 < n;
        match quote {
            Some(q) => {
                if q == '"' && c == '\\' && has_next {
                    buf.push(s[i + 1]);
                    i = i + 2;
                    continue;
                }
                if c == q {
                    quote = None;
                    i = i + 1;
                    continue;
                }
                if q == '\'' {
                    buf.push(c);
                    i = i + 1;
                    continue;
                }
            },
            None => {
                if c == '\'' || c == '"' {
                    quote = Some(c);
                    quoted = true;
                    i = i + 1;
                    continue;
                }
                if is_whitespace(c) {
                    match flush_word(&mut out, &mut buf, &mut segs, quote, quoted) {
                        Ok(()) => {},
                        Err(e) => return Err(e),
                    }
                    quoted = false;
                    i = i + 1;
                    continue;
                }
                if c == '|' || c == '<' || c == '>' {
                    match flush_word(&mut out, &mut buf, &mut segs, quote, quoted) {
                        Ok(()) => {},
                        Err(e) => return Err(e),
                    }
                    quoted = false;
                    if c == '>' && has_next && s[i + 1] == '>' {
                        let t = Tok::Op(OpKind::Append);
                        proof { lemma_toks_model_push(out@, t); }
                        out.push(t);
                        i = i + 2;
                    } else {
                        let op = if c == '|' {
                            OpKind::Pipe
                        } else if c == '<' {
                            OpKind::Input
                        } else {
                            OpKind::Output
                        };
                        let t = Tok::Op(op);
                        proof { lemma_toks_model_push(out@, t); }
                        out.push(t);
                        i = i + 1;
                    }
                    continue;
                }
            },
        }
        if c == '$' && has_next && s[i + 1] == '{' {
            let mut j = i + 2;
            while j < n && s[j] != '}'
                invariant
                    n == s.len(),
                    i + 2 <= j <= n,
                    close_brace_from(s@, i + 2) == close_brace_from(s@, j as int),
                decreases n - j,
            {
                j = j + 1;
            }
            if j == n {
                return Err(string_from("unclosed ${...} environment reference"));
            }
            let name = copy_range(s, i + 2, j);
            if !valid_env_chars(&name) {
                return Err(invalid_env_message(&name));
            }
            close_buf_exec(&mut buf, &mut segs);
            let seg = ArgumentSegment::EnvRef(string_of(&name));
            proof { lemma_segments_model_push(segs@, seg); }
            segs.push(seg);
            i = j + 1;
            continue;
        }
        if c == '$' && has_next && s[i + 1] == '(' {
            let rest = copy_range(s, i + 2, n);
            let end = match matching_paren(&rest) {
                Some(e) => e,
                None => return Err(string_from("unclosed $(...) command substitution")),
            };
            let sub = copy_range(&rest, 0, end);
            assert(sub@ == rest@.take(end as int));
            let cmd = match parse_command(&sub) {
                Ok(c) => c,
                Err(e) => return Err(e),
            };
            let width = utf8_len_exec(&sub);
            close_buf_exec(&mut buf, &mut segs);
            let seg = ArgumentSegment::CommandSubstitution(Box::new(cmd));
            proof { lemma_segments_model_push(segs@, seg); }
            segs.push(seg);
            let next: u128 = (i as u128) + width + 3;
            if next < n as u128 {
                i = next as usize;
            } else {
                i = n;
            }
            continue;
        }
        if c == '$' {
            return Err(string_from("bare $NAME is not Alias DSL v2 syntax; use ${NAME}"));
        }
        if c == '@' {
            close_buf_exec(&mut buf, &mut segs);
            if has_next && s[i + 1] == '@' {
                let seg = ArgumentSegment::LiteralAt;
                proof { lemma_segments_model_push(segs@, seg); }
                segs.push(seg);
                i = i + 2;
            } else if has_next && s[i + 1] == '*' {
                let seg = ArgumentSegment::AllArguments;
                proof { lemma_segments_model_push(segs@, seg); }
                segs.push(seg);
                i = i + 2;
            } else if has_next && is_ascii_digit(s[i + 1]) && s[i + 1] != '0' {
                let d = s[i + 1] as u32;
                let seg = ArgumentSegment::Positional((d - 48) as u8);
                proof { lemma_segments_model_push(segs@, seg); }
                segs.push(seg);
                i = i + 2;
            } else {
                buf.push('@');
                assert(buf@ =~= seq!['@']);
                i = i + 1;
            }
            continue;
        }
        buf.push(c);
        i = i + 1;
    }
    if quote.is_some() {
        return Err(string_from("unclosed quoted argument"));
    }
    match flush_word(&mut out, &mut buf, &mut segs, quote, quoted) {
        Ok(()) => {},
        Err(e) => return Err(e),
    }
    Ok(out)
}

// ---------------------------------------------------------------------------
// Building a pipeline, implemented.

pub open spec fn build_model(
    done: Seq<CommandInvocation>,
    current: CommandInvocation,
    need: Option<OpKind>,
    saw: bool,
    any_placeholder: bool,
) -> BuildState {
    BuildState {
        done: invocations_model(done),
        current: invocation_model(current),
        need,
        saw,
        any_placeholder,
    }
}

fn contains_placeholder(a: &Argument) -> (r: bool)
    ensures
        r == spec_contains_placeholder(argument_model(*a)),
{
    proof {
        lemma_segments_model(a.segments@);
    }
    let mut k: usize = 0;
    while k < a.segments.len()
        invariant
            k <= a.segments.len(),
            segments_model(a.segments@).len() == a.segments@.len(),
            forall|m: int|
                0 <= m < k ==> !(#[trigger] segments_model(a.segments@)[m] is Positional
                    || segments_model(a.segments@)[m] is AllArguments),
        decreases a.segments.len() - k,
    {
        proof {
            lemma_segments_model(a.segments@);
        }
        match &a.segments[k] {
            ArgumentSegment::Positional(_) => {
                assert(segments_model(a.segments@)[k as int] is Positional);
                return true;
            },
            ArgumentSegment::AllArguments => {
                assert(segments_model(a.segments@)[k as int] is AllArguments);
                return true;
            },
            _ => {},
        }
        k = k + 1;
    }
    false
}

fn index_of_exec(t: &Vec<char>, c: char) -> (r: Option<usize>)
    ensures
        r matches Some(k) ==> index_of(t@, c) == Some(k as int) && k < t.len(),
        r is None ==> index_of(t@, c) is None,
{
    proof {
        lemma_index_of_bound(t@, c, 0);
    }
    let mut k: usize = 0;
    while k < t.len()
        invariant
            k <= t.len(),
            index_of(t@, c) == index_of_from(t@, c, k as int),
        decreases t.len() - k,
    {
        if t[k] == c {
            return Some(k);
        }
        k = k + 1;
    }
    None
}

fn is_assignment_word(a: &Argument) -> (r: bool)
    ensures
        r == spec_is_assignment_word(argument_model(*a)),
{
    proof {
        lemma_segments_model(a.segments@);
    }
    if a.quoted || a.segments.len() != 1 {
        return false;
    }
    match &a.segments[0] {
        ArgumentSegment::Literal(t) => {
            let v = to_chars(t.as_str());
            match index_of_exec(&v, '=') {
                Some(k) => valid_env_chars(&copy_range(&v, 0, k)),
                None => false,
            }
        },
        _ => false,
    }
}

fn new_invocation() -> (r: CommandInvocation)
    ensures
        invocation_model(r) == empty_invocation(),
{
    let r = CommandInvocation { arguments: Vec::new(), input: None, output: None, bypass_shell_function: false };
    assert(arguments_model(r.arguments@) =~= Seq::<ArgumentModel>::empty());
    r
}

/// The pipeline that a token sequence denotes.
fn build_command(tokens: Vec<Tok>) -> (r: Result<CommandTemplate, String>)
    ensures
        match build_from(toks_model(tokens@), 0, build_init()) {
            Ok(m) => r matches Ok(c) && c@ == m,
            Err(e) => r matches Err(x) && x@ == e,
        },
{
    let ghost all = toks_model(tokens@);
    let mut toks = tokens;
    let mut done: Vec<CommandInvocation> = Vec::new();
    let mut current = new_invocation();
    let mut need: Option<OpKind> = None;
    let mut saw = false;
    let mut any = false;
    let ghost mut k: int = 0;
    assert(build_model(done@, current, need, saw, any) =~= build_init()) by {
        assert(invocations_model(done@) =~= Seq::<InvocationModel>::empty());
    }
    assert(toks_model(toks@) =~= all.skip(0));
    while toks.len() > 0
        invariant
            0 <= k <= all.len(),
            all == toks_model(tokens@),
            toks_model(toks@) == all.skip(k),
            build_from(all, 0, build_init()) == build_from(all, k, build_model(done@, current, need, saw, any)),
        decreases toks.len(),
    {
        let ghost before = toks@;
        assert(toks_model(before).len() == before.len());
        assert(k < all.len());
        let t = toks.remove(0);
        let ghost bm = build_model(done@, current, need, saw, any);
        proof {
            assert(toks_model(before)[0] == tok_model(t));
            assert(all.skip(k)[0] == all[k]);
            assert(all[k] == tok_model(t));
            assert(toks@ =~= before.subrange(1, before.len() as int));
            assert forall|j: int| 0 <= j < toks@.len() implies toks_model(toks@)[j] == all.skip(k + 1)[j] by {
                assert(toks@[j] == before[j + 1]);
                assert(toks_model(before)[j + 1] == all.skip(k)[j + 1]);
            }
            assert(toks_model(toks@) =~= all.skip(k + 1));
        }
        match t {
            Tok::Op(OpKind::Pipe) => {
                if current.arguments.len() == 0 {
                    proof { lemma_arguments_model(current.arguments@); }
                    assert(build_from(all, k, bm) == Err::<CommandModel, Seq<char>>(msg_empty_pipeline_command()));
                    return Err(string_from("pipeline has an empty command"));
                }
                proof {
                    lemma_arguments_model(current.arguments@);
                    lemma_invocations_model_push(done@, current);
                }
                done.push(current);
                current = new_invocation();
            },
            Tok::Op(op) => {
                if need.is_some() {
                    assert(build_from(all, k, bm) == Err::<CommandModel, Seq<char>>(msg_missing_redirect_target()));
                    return Err(string_from("redirection is missing a target"));
                }
                need = Some(op);
            },
            Tok::Word(_raw, arg) => {
                let ph = contains_placeholder(&arg);
                any = any || ph;
                saw = true;
                match need {
                    Some(op) => {
                        if arg.all_arguments {
                            assert(build_from(all, k, bm) == Err::<CommandModel, Seq<char>>(msg_all_redirect_target()));
                    return Err(string_from("@* cannot be a redirection target"));
                        }
                        if op == OpKind::Input {
                            if current.input.is_some() {
                                assert(build_from(all, k, bm) == Err::<CommandModel, Seq<char>>(msg_two_inputs()));
                    return Err(string_from("more than one input redirection"));
                            }
                            current.input = Some(arg);
                        } else {
                            if current.output.is_some() {
                                assert(build_from(all, k, bm) == Err::<CommandModel, Seq<char>>(msg_two_outputs()));
                    return Err(string_from("more than one output redirection"));
                            }
                            current.output = Some((arg, op == OpKind::Append));
                        }
                        need = None;
                    },
                    None => {
                        proof { lemma_arguments_model_push(current.arguments@, arg); }
                        current.arguments.push(arg);
                    },
                }
            },
        }
        proof {
            k = k + 1;
        }
    }
    assert(k == all.len()) by {
        assert(toks_model(toks@).len() == 0);
    }
    let ghost bfinal = build_model(done@, current, need, saw, any);
    assert(build_from(all, 0, build_init()) == build_finish(bfinal));
    if need.is_some() {
        return Err(string_from("redirection is missing a target"));
    }
    proof { lemma_arguments_model(current.arguments@); }
    if !saw || current.arguments.len() == 0 {
        return Err(string_from("expected a command invocation"));
    }
    proof { lemma_invocations_model_push(done@, current); }
    done.push(current);
    let ghost cmds = invocations_model(done@);
    assert(cmds == bfinal.done.push(bfinal.current));
    proof { lemma_invocations_model(done@); }
    let mut idx: usize = 0;
    while idx < done.len()
        invariant
            idx <= done.len(),
            cmds == invocations_model(done@),
            cmds == bfinal.done.push(bfinal.current),
            bfinal.need is None,
            bfinal.saw,
            bfinal.current.arguments.len() > 0,
            bfinal.any_placeholder == any,
            all == toks_model(tokens@),
            build_from(all, 0, build_init()) == build_finish(bfinal),
            cmds.len() == done@.len(),
            forall|m: int| 0 <= m < done@.len() ==> #[trigger] cmds[m] == invocation_model(done@[m]),
            forall|m: int|
                0 <= m < idx ==> !(#[trigger] cmds[m].arguments.len() > 0 && spec_is_assignment_word(
                    cmds[m].arguments[0],
                )),
        decreases done.len() - idx,
    {
        proof { lemma_arguments_model(done@[idx as int].arguments@); }
        if done[idx].arguments.len() > 0 && is_assignment_word(&done[idx].arguments[0]) {
            assert(cmds[idx as int].arguments.len() > 0 && spec_is_assignment_word(cmds[idx as int].arguments[0]));
            assert(build_finish(bfinal) == Err::<CommandModel, Seq<char>>(msg_assignment_prefix()));
            return Err(string_from("name=value command prefixes are not portable Alias DSL syntax"));
        }
        idx = idx + 1;
    }
    Ok(CommandTemplate { pipeline: Pipeline { commands: done }, implicit_all: !any, bypass_shell_function: false })
}

/// The command pipeline that a template text denotes.
pub fn parse_command(s: &Vec<char>) -> (r: Result<CommandTemplate, String>)
    ensures
        match spec_parse_command(s@) {
            Ok(m) => r matches Ok(c) && c@ == m,
            Err(e) => r matches Err(x) && x@ == e,
        },
    decreases s@.len(), 2int,
{
    let toks = match tokenize(s) {
        Ok(t) => t,
        Err(e) => return Err(e),
    };
    build_command(toks)
}


// ---------------------------------------------------------------------------
// Word lists: environment assignments and variable names.

pub open spec fn msg_expected_assignment() -> Seq<char> {
    "expected NAME=value"@
}

pub open spec fn msg_no_assignment() -> Seq<char> {
    "expected at least one environment assignment"@
}

pub open spec fn msg_no_names() -> Seq<char> {
    "expected at least one environment variable name"@
}

/// The literal text of the words of `s`, operators dropped.
pub open spec fn spec_split_words(s: Seq<char>) -> Result<Seq<Seq<char>>, Seq<char>> {
    match spec_tokenize(s) {
        Ok(t) => Ok(words_of(t)),
        Err(e) => Err(e),
    }
}

/// `NAME=value` words split at their first `=`, appended to `acc`.
pub open spec fn assignments_from(
    ws: Seq<Seq<char>>,
    k: int,
    acc: Seq<(Seq<char>, Seq<char>)>,
) -> Result<Seq<(Seq<char>, Seq<char>)>, Seq<char>>
    decreases ws.len() - k,
{
    if k < 0 || k >= ws.len() {
        if acc.len() == 0 {
            Err(msg_no_assignment())
        } else {
            Ok(acc)
        }
    } else {
        let w = ws[k];
        match index_of(w, '=') {
            None => Err(msg_expected_assignment()),
            Some(p) => if !spec_valid_env(w.take(p)) {
                Err(msg_invalid_env(w.take(p)))
            } else {
                assignments_from(ws, k + 1, acc.push((w.take(p), w.skip(p + 1))))
            },
        }
    }
}

/// The environment assignments that a text lists.
pub open spec fn spec_parse_assignments(s: Seq<char>) -> Result<Seq<(Seq<char>, Seq<char>)>, Seq<char>> {
    match spec_split_words(s) {
        Err(e) => Err(e),
        Ok(ws) => assignments_from(ws, 0, Seq::empty()),
    }
}

/// The index of the first word from `k` on that is not a valid variable name.
pub open spec fn first_invalid_from(ws: Seq<Seq<char>>, k: int) -> Option<int>
    decreases ws.len() - k,
{
    if k < 0 || k >= ws.len() {
        None
    } else if !spec_valid_env(ws[k]) {
        Some(k)
    } else {
        first_invalid_from(ws, k + 1)
    }
}

/// The environment variable names that a text lists.
pub open spec fn spec_parse_names(s: Seq<char>) -> Result<Seq<Seq<char>>, Seq<char>> {
    match spec_split_words(s) {
        Err(e) => Err(e),
        Ok(ws) => if ws.len() == 0 {
            Err(msg_no_names())
        } else {
            match first_invalid_from(ws, 0) {
                Some(k) => Err(msg_invalid_env(ws[k])),
                None => Ok(ws),
            }
        },
    }
}

pub proof fn lemma_first_invalid_bound(ws: Seq<Seq<char>>, k: int)
    requires
        0 <= k,
    ensures
        first_invalid_from(ws, k) matches Some(m) ==> k <= m < ws.len(),
    decreases ws.len() - k,
{
    if k < ws.len() && spec_valid_env(ws[k]) {
        lemma_first_invalid_bound(ws, k + 1);
    }
}

/// The literal text of the words of `s`.
pub fn split_words(s: &Vec<char>) -> (r: Result<Vec<Vec<char>>, String>)
    ensures
        match spec_split_words(s@) {
            Ok(ws) => r matches Ok(v) && v@.len() == ws.len() && forall|k: int|
                0 <= k < ws.len() ==> #[trigger] v@[k]@ == ws[k],
            Err(e) => r matches Err(m) && m@ == e,
        },
{
    let toks = match tokenize(s) {
        Ok(t) => t,
        Err(e) => return Err(e),
    };
    let ghost tm = toks_model(toks@);
    let mut out: Vec<Vec<char>> = Vec::new();
    let mut k: usize = 0;
    while k < toks.len()
        invariant
            k <= toks.len(),
            tm == toks_model(toks@),
            out@.len() == words_of(tm.take(k as int)).len(),
            forall|m: int| 0 <= m < out@.len() ==> #[trigger] out@[m]@ == words_of(tm.take(k as int))[m],
        decreases toks.len() - k,
    {
        proof {
            assert(tm.take(k + 1).drop_last() =~= tm.take(k as int));
            assert(tm.take(k + 1).last() == tok_model(toks@[k as int]));
        }
        match &toks[k] {
            Tok::Word(raw, _) => {
                let w = copy_range(raw, 0, raw.len());
                out.push(w);
            },
            Tok::Op(_) => {},
        }
        k = k + 1;
    }
    assert(tm.take(toks.len() as int) =~= tm);
    Ok(out)
}

/// The environment assignments that a text lists.
pub fn parse_assignments(s: &Vec<char>) -> (r: Result<Vec<(String, String)>, String>)
    ensures
        match spec_parse_assignments(s@) {
            Ok(v) => r matches Ok(x) && x@.len() == v.len() && forall|k: int|
                0 <= k < v.len() ==> (#[trigger] x@[k]).0@ == v[k].0 && x@[k].1@ == v[k].1,
            Err(e) => r matches Err(m) && m@ == e,
        },
{
    let words = match split_words(s) {
        Ok(w) => w,
        Err(e) => return Err(e),
    };
    let ghost ws = Seq::new(words@.len(), |m: int| words@[m]@);
    assert(spec_split_words(s@) == Ok::<Seq<Seq<char>>, Seq<char>>(ws)) by {
        assert(ws =~= words_of(toks_model_of(s@)));
    }
    let mut out: Vec<(String, String)> = Vec::new();
    let ghost mut acc: Seq<(Seq<char>, Seq<char>)> = Seq::empty();
    let mut k: usize = 0;
    while k < words.len()
        invariant
            k <= words.len(),
            ws == Seq::new(words@.len(), |m: int| words@[m]@),
            spec_parse_assignments(s@) == assignments_from(ws, k as int, acc),
            out@.len() == acc.len(),
            forall|m: int| 0 <= m < acc.len() ==> (#[trigger] out@[m]).0@ == acc[m].0 && out@[m].1@ == acc[m].1,
        decreases words.len() - k,
    {
        let w = &words[k];
        match index_of_exec(w, '=') {
            None => return Err(string_from("expected NAME=value")),
            Some(p) => {
                let name = copy_range(w, 0, p);
                if !valid_env_chars(&name) {
                    return Err(invalid_env_message(&name));
                }
                let value = copy_range(w, p + 1, w.len());
                proof {
                    acc = acc.push((name@, value@));
                }
                out.push((string_of(&name), string_of(&value)));
            },
        }
        k = k + 1;
    }
    if out.len() == 0 {
        return Err(string_from("expected at least one environment assignment"));
    }
    Ok(out)
}

/// The environment variable names that a text lists.
pub fn parse_names(s: &Vec<char>) -> (r: Result<Vec<String>, String>)
    ensures
        match spec_parse_names(s@) {
            Ok(v) => r matches Ok(x) && x@.len() == v.len() && forall|k: int|
                0 <= k < v.len() ==> #[trigger] x@[k]@ == v[k],
            Err(e) => r matches Err(m) && m@ == e,
        },
{
    let words = match split_words(s) {
        Ok(w) => w,
        Err(e) => return Err(e),
    };
    let ghost ws = Seq::new(words@.len(), |m: int| words@[m]@);
    assert(spec_split_words(s@) == Ok::<Seq<Seq<char>>, Seq<char>>(ws)) by {
        assert(ws =~= words_of(toks_model_of(s@)));
    }
    if words.len() == 0 {
        return Err(string_from("expected at least one environment variable name"));
    }
    proof {
        lemma_first_invalid_bound(ws, 0);
    }
    let mut out: Vec<String> = Vec::new();
    let mut k: usize = 0;
    while k < words.len()
        invariant
            k <= words.len(),
            ws == Seq::new(words@.len(), |m: int| words@[m]@),
            first_invalid_from(ws, 0) == first_invalid_from(ws, k as int),
            spec_split_words(s@) == Ok::<Seq<Seq<char>>, Seq<char>>(ws),
            ws.len() > 0,
            out@.len() == k,
            forall|m: int| 0 <= m < k ==> #[trigger] out@[m]@ == ws[m],
        decreases words.len() - k,
    {
        if !valid_env_chars(&words[k]) {
            assert(ws[k as int] == words@[k as int]@);
            assert(first_invalid_from(ws, k as int) == Some(k as int));
            return Err(invalid_env_message(&words[k]));
        }
        out.push(string_of(&words[k]));
        k = k + 1;
    }
    Ok(out)
}

/// The tokens of a text, when it tokenizes.
pub open spec fn toks_model_of(s: Seq<char>) -> Seq<TokModel> {
    match spec_tokenize(s) {
        Ok(t) => t,
        Err(_) => Seq::empty(),
    }
}

}
