use vstd::prelude::*;
use crate::text::{chars_of, string_of, chars_eq_str, chars_contain, owned, push_chars, push_str};
use crate::errors::{Location, LocView};
use crate::ast::{LispExpr, SourceExpr, ExprView, SourceView, source_view, sources_view, expr_view, lemma_sources_view_ext};
use crate::literals::{int_literal, float_literal, parse_int, is_float_literal};
use crate::text::push_chars_range;
use crate::text::{signed_decimal, decimal};
use crate::literals::is_digit;
use crate::input::is_white_space;
use crate::strings::{lemma_no_space, lemma_decimal_digits, law_number_text_round_trip};

verus! {
/// A token of the source text with the position of its first character.
#[derive(Debug, Clone)]
pub struct Token {
    pub text: String,
    pub line: usize,
    pub column: usize,
}

pub struct TokView {
    pub text: Seq<char>,
    pub line: nat,
    pub column: nat,
}

impl View for Token {
    type V = TokView;

    open spec fn view(&self) -> TokView {
        TokView { text: self.text@, line: self.line as nat, column: self.column as nat }
    }
}

pub open spec fn toks_view(v: Seq<Token>) -> Seq<TokView> {
    Seq::new(v.len(), |i: int| v[i]@)
}

/// The state of the tokenizer between two characters.
pub struct LexState {
    pub tokens: Seq<TokView>,
    pub current: Seq<char>,
    pub line: nat,
    pub column: nat,
    pub token_start_column: nat,
    pub in_string: bool,
    pub string_content: Seq<char>,
    pub string_start_line: nat,
    pub string_start_column: nat,
    pub in_comment: bool,
}

pub open spec fn lex_init() -> LexState {
    LexState {
        tokens: Seq::empty(),
        current: Seq::empty(),
        line: 1,
        column: 1,
        token_start_column: 1,
        in_string: false,
        string_content: Seq::empty(),
        string_start_line: 1,
        string_start_column: 1,
        in_comment: false,
    }
}

/// Ends the token being read, if any.
pub open spec fn flush(st: LexState) -> LexState {
    if st.current.len() > 0 {
        LexState {
            tokens: st.tokens.push(TokView { text: st.current, line: st.line, column: st.token_start_column }),
            current: Seq::empty(),
            ..st
        }
    } else {
        st
    }
}

/// Characters that form a token of their own.
pub open spec fn is_punct(c: char) -> bool {
    c == '(' || c == ')' || c == '\'' || c == '`' || c == ',' || c == '@' || c == '#'
}

/// Reads one character.
pub open spec fn lex_step(st: LexState, ch: char) -> LexState {
    if st.in_comment {
        if ch == '\n' {
            LexState { in_comment: false, line: st.line + 1, column: 1, token_start_column: 1, ..st }
        } else {
            LexState { column: st.column + 1, ..st }
        }
    } else if st.in_string {
        if ch == '"' {
            LexState {
                tokens: st.tokens.push(TokView {
                    text: seq!['"'] + st.string_content + seq!['"'],
                    line: st.string_start_line,
                    column: st.string_start_column,
                }),
                string_content: Seq::empty(),
                in_string: false,
                column: st.column + 1,
                token_start_column: st.column + 1,
                ..st
            }
        } else if ch == '\n' {
            LexState { string_content: st.string_content.push(ch), line: st.line + 1, column: 1, ..st }
        } else {
            LexState { string_content: st.string_content.push(ch), column: st.column + 1, ..st }
        }
    } else if ch == '"' {
        let f = flush(st);
        LexState {
            in_string: true,
            string_start_line: f.line,
            string_start_column: f.column,
            column: f.column + 1,
            ..f
        }
    } else if ch == ';' {
        let reader_macro = st.tokens.len() > 0 && st.tokens.last().text == seq!['#'];
        let f = flush(st);
        if reader_macro {
            LexState {
                tokens: f.tokens.push(TokView { text: seq![';'], line: f.line, column: f.column }),
                column: f.column + 1,
                token_start_column: f.column + 1,
                ..f
            }
        } else {
            LexState { in_comment: true, column: f.column + 1, ..f }
        }
    } else if is_punct(ch) {
        let f = flush(st);
        LexState {
            tokens: f.tokens.push(TokView { text: seq![ch], line: f.line, column: f.column }),
            column: f.column + 1,
            token_start_column: f.column + 1,
            ..f
        }
    } else if ch == '\n' {
        let f = flush(st);
        LexState { line: f.line + 1, column: 1, token_start_column: 1, ..f }
    } else if ch == ' ' || ch == '\t' || ch == '\r' {
        let f = flush(st);
        LexState { column: f.column + 1, token_start_column: f.column + 1, ..f }
    } else {
        LexState {
            token_start_column: if st.current.len() == 0 { st.column } else { st.token_start_column },
            current: st.current.push(ch),
            column: st.column + 1,
            ..st
        }
    }
}

/// The tokenizer state after reading all of `s`.
pub open spec fn lex_run(s: Seq<char>) -> LexState
    decreases s.len(),
{
    if s.len() == 0 {
        lex_init()
    } else {
        lex_step(lex_run(s.drop_last()), s.last())
    }
}

/// The tokens of a source text. Whitespace separates tokens, `;` starts a
/// comment to the end of the line (but is a token of its own right after `#`),
/// strings are single tokens with their quotes, and `( ) ' ` , @ #` are tokens
/// of their own. An unterminated string yields no token.
pub open spec fn lex(s: Seq<char>) -> Seq<TokView> {
    flush(lex_run(s)).tokens
}

/// What the parser relies on of each token.
pub open spec fn tok_ok(t: TokView) -> bool {
    &&& t.text.len() > 0
    &&& t.text[0] == '"' ==> t.text.len() >= 2
    &&& t.line >= 1
    &&& t.column >= 1
}

pub open spec fn lex_state_ok(st: LexState) -> bool {
    &&& forall|k: int| 0 <= k < st.tokens.len() ==> #[trigger] tok_ok(st.tokens[k])
    &&& !st.current.contains('"')
    &&& st.line >= 1
    &&& st.column >= 1
    &&& st.token_start_column >= 1
    &&& st.string_start_line >= 1
    &&& st.string_start_column >= 1
}

proof fn lemma_lex_step_ok(st: LexState, ch: char)
    requires
        lex_state_ok(st),
    ensures
        lex_state_ok(lex_step(st, ch)),
{
    let f = flush(st);
    assert(lex_state_ok(f));
    let r = lex_step(st, ch);
    if !st.in_comment && !st.in_string && !(ch == '"') && !(ch == ';') && !is_punct(ch) && !(ch == '\n')
        && !(ch == ' ' || ch == '\t' || ch == '\r') {
        assert(!st.current.push(ch).contains('"')) by {
            if st.current.push(ch).contains('"') {
                let k = choose|k: int| 0 <= k < st.current.push(ch).len() && st.current.push(ch)[k] == '"';
                if k < st.current.len() {
                    assert(st.current[k] == '"');
                }
            }
        }
    }
    assert forall|k: int| 0 <= k < r.tokens.len() implies #[trigger] tok_ok(r.tokens[k]) by {
        if k < f.tokens.len() {
            if k < st.tokens.len() {
                assert(tok_ok(st.tokens[k]));
            } else {
                assert(f.tokens[k].text == st.current);
                assert(st.current[0] != '"') by {
                    if st.current[0] == '"' {
                        assert(st.current.contains('"'));
                    }
                }
            }
        }
    }
}

proof fn lemma_lex_run_ok(s: Seq<char>)
    ensures
        lex_state_ok(lex_run(s)),
        lex_state_ok(flush(lex_run(s))),
    decreases s.len(),
{
    if s.len() > 0 {
        lemma_lex_run_ok(s.drop_last());
        lemma_lex_step_ok(lex_run(s.drop_last()), s.last());
    }
    let st = lex_run(s);
    let f = flush(st);
    assert forall|k: int| 0 <= k < f.tokens.len() implies #[trigger] tok_ok(f.tokens[k]) by {
        if k < st.tokens.len() {
            assert(tok_ok(st.tokens[k]));
        } else {
            assert(st.current[0] != '"') by {
                if st.current[0] == '"' {
                    assert(st.current.contains('"'));
                }
            }
        }
    }
}

fn make_token(text: &Vec<char>, line: usize, column: usize) -> (t: Token)
    ensures
        t@ == (TokView { text: text@, line: line as nat, column: column as nat }),
{
    Token { text: string_of(text), line, column }
}

fn quoted(content: &Vec<char>) -> (text: Vec<char>)
    ensures
        text@ == seq!['"'] + content@ + seq!['"'],
{
    let mut text: Vec<char> = Vec::new();
    text.push('"');
    let mut k: usize = 0;
    while k < content.len()
        invariant
            k <= content.len(),
            text@ == seq!['"'] + content@.subrange(0, k as int),
        decreases content.len() - k,
    {
        text.push(content[k]);
        k = k + 1;
        assert(content@.subrange(0, k as int) == content@.subrange(0, k - 1).push(content@[k - 1]));
    }
    text.push('"');
    assert(content@.subrange(0, content.len() as int) == content@);
    text
}

/// Splits source text into tokens with their positions.
pub fn tokenize(input: &str) -> (tokens: Vec<Token>)
    requires
        input@.len() < usize::MAX,
    ensures
        toks_view(tokens@) == lex(input@),
        forall|k: int| 0 <= k < tokens@.len() ==> #[trigger] tok_ok(tokens@[k]@),
{
    let s = chars_of(input);
    let mut tokens: Vec<Token> = Vec::new();
    let mut current: Vec<char> = Vec::new();
    let mut line: usize = 1;
    let mut column: usize = 1;
    let mut token_start_column: usize = 1;
    let mut in_string = false;
    let mut string_content: Vec<char> = Vec::new();
    let mut string_start_line: usize = 1;
    let mut string_start_column: usize = 1;
    let mut in_comment = false;
    let mut i: usize = 0;
    let n = s.len();
    while i < n
        invariant
            n == s@.len(),
            s@ == input@,
            n < usize::MAX,
            i <= n,
            line <= i + 1,
            column <= i + 1,
            token_start_column <= i + 1,
            string_start_line <= i + 1,
            string_start_column <= i + 1,
            ({
                let st = lex_run(s@.subrange(0, i as int));
                &&& st.tokens == toks_view(tokens@)
                &&& st.current == current@
                &&& st.line == line
                &&& st.column == column
                &&& st.token_start_column == token_start_column
                &&& st.in_string == in_string
                &&& st.string_content == string_content@
                &&& st.string_start_line == string_start_line
                &&& st.string_start_column == string_start_column
                &&& st.in_comment == in_comment
            }),
        decreases n - i,
    {
        let ch = s[i];
        proof {
            assert(s@.subrange(0, i + 1).drop_last() =~= s@.subrange(0, i as int));
        }
        let ghost t0 = toks_view(tokens@);
        let ghost st0 = lex_run(s@.subrange(0, i as int));
        let ghost st1 = lex_step(st0, ch);
        assert(lex_run(s@.subrange(0, i + 1)) == st1);
        if in_comment {
            if ch == '\n' {
                in_comment = false;
                line = line + 1;
                column = 1;
                token_start_column = 1;
            } else {
                column = column + 1;
            }
        } else if in_string {
            if ch == '"' {
                let text = quoted(&string_content);
                tokens.push(make_token(&text, string_start_line, string_start_column));
                assert(toks_view(tokens@) =~= t0.push(tokens@.last()@));
                string_content = Vec::new();
                in_string = false;
                column = column + 1;
                token_start_column = column;
            } else if ch == '\n' {
                string_content.push(ch);
                line = line + 1;
                column = 1;
            } else {
                string_content.push(ch);
                column = column + 1;
            }
        } else if ch == '"' {
            if current.len() > 0 {
                tokens.push(make_token(&current, line, token_start_column));
                assert(toks_view(tokens@) =~= t0.push(tokens@.last()@));
                current = Vec::new();
            }
            in_string = true;
            string_start_line = line;
            string_start_column = column;
            column = column + 1;
        } else if ch == ';' {
            let reader_macro = tokens.len() > 0 && {
                let last = chars_of(tokens[tokens.len() - 1].text.as_str());
                chars_eq_str(&last, "#")
            };
            proof {
                if tokens.len() > 0 {
                    assert(t0.last().text == tokens@[tokens.len() - 1].text@);
                }
                reveal_strlit("#");
                assert("#"@ =~= seq!['#']);
            }
            if current.len() > 0 {
                tokens.push(make_token(&current, line, token_start_column));
                assert(toks_view(tokens@) =~= t0.push(tokens@.last()@));
                current = Vec::new();
            }
            let ghost t1 = toks_view(tokens@);
            if reader_macro {
                let mut semi: Vec<char> = Vec::new();
                semi.push(';');
                tokens.push(make_token(&semi, line, column));
                assert(toks_view(tokens@) =~= t1.push(tokens@.last()@));
                column = column + 1;
                token_start_column = column;
            } else {
                in_comment = true;
                column = column + 1;
            }
        } else if ch == '(' || ch == ')' || ch == '\'' || ch == '`' || ch == ',' || ch == '@' || ch == '#' {
            if current.len() > 0 {
                tokens.push(make_token(&current, line, token_start_column));
                assert(toks_view(tokens@) =~= t0.push(tokens@.last()@));
                current = Vec::new();
            }
            let ghost t1 = toks_view(tokens@);
            let mut one: Vec<char> = Vec::new();
            one.push(ch);
            tokens.push(make_token(&one, line, column));
            assert(toks_view(tokens@) =~= t1.push(tokens@.last()@));
            column = column + 1;
            token_start_column = column;
        } else if ch == '\n' {
            if current.len() > 0 {
                tokens.push(make_token(&current, line, token_start_column));
                assert(toks_view(tokens@) =~= t0.push(tokens@.last()@));
                current = Vec::new();
            }
            line = line + 1;
            column = 1;
            token_start_column = 1;
        } else if ch == ' ' || ch == '\t' || ch == '\r' {
            if current.len() > 0 {
                tokens.push(make_token(&current, line, token_start_column));
                assert(toks_view(tokens@) =~= t0.push(tokens@.last()@));
                current = Vec::new();
            }
            column = column + 1;
            token_start_column = column;
        } else {
            if current.len() == 0 {
                token_start_column = column;
            }
            current.push(ch);
            column = column + 1;
        }
        assert(st1.tokens == toks_view(tokens@));
        assert(st1.current == current@);
        assert(st1.line == line);
        assert(st1.column == column);
        assert(st1.token_start_column == token_start_column);
        assert(st1.in_string == in_string);
        assert(st1.string_content == string_content@);
        assert(st1.string_start_line == string_start_line);
        assert(st1.string_start_column == string_start_column);
        assert(st1.in_comment == in_comment);
        i = i + 1;
    }
    let ghost t0 = toks_view(tokens@);
    if current.len() > 0 {
        tokens.push(make_token(&current, line, token_start_column));
        assert(toks_view(tokens@) =~= t0.push(tokens@.last()@));
    }
    proof {
        assert(s@.subrange(0, n as int) =~= s@);
        lemma_lex_run_ok(input@);
        assert forall|k: int| 0 <= k < tokens@.len() implies #[trigger] tok_ok(tokens@[k]@) by {
            assert(toks_view(tokens@)[k] == tokens@[k]@);
        }
    }
    tokens
}


/// Whether a token is a string literal: it starts and ends with a double quote.
pub open spec fn string_token(t: Seq<char>) -> bool {
    t.len() > 0 && t[0] == '"' && t.last() == '"'
}

/// What a token that opens no compound form reads as.
pub open spec fn atom_view(t: Seq<char>) -> ExprView {
    if t == "true"@ {
        ExprView::Boolean(true)
    } else if t == "false"@ {
        ExprView::Boolean(false)
    } else if string_token(t) {
        ExprView::Symbol("__STRING__"@ + t.subrange(1, t.len() - 1))
    } else if t.contains('.') || t.contains('e') || t.contains('E') {
        if float_literal(t) {
            ExprView::Float(t)
        } else if int_literal(t).is_some() {
            ExprView::Number(int_literal(t).unwrap() as i64)
        } else {
            ExprView::Symbol(t)
        }
    } else if int_literal(t).is_some() {
        ExprView::Number(int_literal(t).unwrap() as i64)
    } else {
        ExprView::Symbol(t)
    }
}

pub open spec fn tok_loc(t: TokView, file: Seq<char>) -> LocView {
    LocView { line: t.line, column: t.column, file }
}

pub open spec fn sym_at(name: Seq<char>, loc: LocView) -> SourceView {
    SourceView { expr: ExprView::Symbol(name), loc }
}

/// `(name inner)`, both at `loc`: how `'x`, `` `x``, `,x` and `,@x` read.
pub open spec fn wrapped(name: Seq<char>, inner: SourceView, loc: LocView) -> SourceView {
    SourceView { expr: ExprView::List(seq![sym_at(name, loc), inner]), loc }
}

pub open spec fn wrap_result(name: Seq<char>, r: (Result<SourceView, Seq<char>>, int), loc: LocView) -> (Result<SourceView, Seq<char>>, int) {
    match r.0 {
        Ok(e) => (Ok(wrapped(name, e, loc)), r.1),
        Err(m) => (Err(m), r.1),
    }
}

/// Reads one expression starting at token `pos`: the result, and the position
/// after it (or where reading stopped, on an error).
pub open spec fn parse_expr_at(toks: Seq<TokView>, pos: int, file: Seq<char>) -> (Result<SourceView, Seq<char>>, int)
    decreases toks.len() - pos, 1int,
{
    if pos < 0 || pos >= toks.len() {
        (Err("Unexpected end of input"@), pos)
    } else {
        let t = toks[pos].text;
        let loc = tok_loc(toks[pos], file);
        if t == "("@ {
            parse_list_at(toks, pos, file)
        } else if t == ")"@ {
            (Err("Unexpected closing parenthesis"@), pos)
        } else if t == "'"@ {
            wrap_result("quote"@, parse_expr_at(toks, pos + 1, file), loc)
        } else if t == "`"@ {
            wrap_result("quasiquote"@, parse_expr_at(toks, pos + 1, file), loc)
        } else if t == ","@ {
            if pos + 1 < toks.len() && toks[pos + 1].text == "@"@ {
                wrap_result("unquote-splicing"@, parse_expr_at(toks, pos + 2, file), loc)
            } else {
                wrap_result("unquote"@, parse_expr_at(toks, pos + 1, file), loc)
            }
        } else if t == "#"@ {
            if pos + 1 >= toks.len() {
                (Err("Unexpected end of input after '#'"@), pos + 1)
            } else {
                let d = toks[pos + 1].text;
                if d == "("@ {
                    let r = parse_list_at(toks, pos + 1, file);
                    match r.0 {
                        Ok(v) => match v.expr {
                            ExprView::List(elems) => (
                                Ok(SourceView { expr: ExprView::List(seq![sym_at("vector"@, loc)] + elems), loc }),
                                r.1,
                            ),
                            _ => (Err("Expected list after #("@), r.1),
                        },
                        Err(m) => (Err(m), r.1),
                    }
                } else if d == "t"@ {
                    (Ok(SourceView { expr: ExprView::Boolean(true), loc }), pos + 2)
                } else if d == "f"@ {
                    (Ok(SourceView { expr: ExprView::Boolean(false), loc }), pos + 2)
                } else if d == ";"@ {
                    let r = parse_expr_at(toks, pos + 2, file);
                    match r.0 {
                        Ok(_) => if r.1 <= pos || r.1 > toks.len() {
                            (Err(Seq::empty()), r.1)
                        } else {
                            parse_expr_at(toks, r.1, file)
                        },
                        Err(m) => (Err(m), r.1),
                    }
                } else if d == "'"@ {
                    parse_expr_at(toks, pos + 2, file)
                } else {
                    (Err("Unknown reader macro: #"@ + d), pos + 1)
                }
            }
        } else {
            (Ok(SourceView { expr: atom_view(t), loc }), pos + 1)
        }
    }
}

/// The `#` forms: `#t` reads as true, `#f` as false, `#'x` as `x` itself,
/// and `#(a ...)` as `(vector a ...)`, with `vector` standing where `#`
/// does.
pub proof fn law_hash_forms(toks: Seq<TokView>, pos: int, file: Seq<char>)
    requires
        0 <= pos,
        pos + 1 < toks.len(),
        toks[pos].text == "#"@,
    ensures
        ({
            let loc = LocView { line: toks[pos].line, column: toks[pos].column, file };
            let d = toks[pos + 1].text;
            &&& d == "t"@ ==> parse_expr_at(toks, pos, file) == (
                Ok::<SourceView, Seq<char>>(SourceView { expr: ExprView::Boolean(true), loc }),
                pos + 2,
            )
            &&& d == "f"@ ==> parse_expr_at(toks, pos, file) == (
                Ok::<SourceView, Seq<char>>(SourceView { expr: ExprView::Boolean(false), loc }),
                pos + 2,
            )
            &&& d == "'"@ ==> parse_expr_at(toks, pos, file) == parse_expr_at(toks, pos + 2, file)
            &&& d == "("@ ==> match parse_list_at(toks, pos + 1, file) {
                (Ok(SourceView { expr: ExprView::List(elems), loc: _ }), n) => parse_expr_at(toks, pos, file) == (
                    Ok::<SourceView, Seq<char>>(
                        SourceView { expr: ExprView::List(seq![SourceView { expr: ExprView::Symbol("vector"@), loc }] + elems), loc },
                    ),
                    n,
                ),
                _ => parse_expr_at(toks, pos, file).0 is Err,
            }
        }),
{
    reveal_strlit("(");
    reveal_strlit(")");
    reveal_strlit("'");
    reveal_strlit("`");
    reveal_strlit(",");
    reveal_strlit("#");
    reveal_strlit("t");
    reveal_strlit("f");
    reveal_strlit(";");
    let t = toks[pos].text;
    assert(t.len() == 1 && t[0] == '#');
    let d = toks[pos + 1].text;
    if d == "t"@ || d == "f"@ || d == "'"@ {
        assert(d.len() == 1 && d[0] != '(');
    }
    if d == "f"@ || d == "'"@ {
        assert(d[0] != 't');
    }
    if d == "'"@ {
        assert(d[0] != 'f' && d[0] != ';');
    }
    assert(t != "("@ && t != ")"@ && t != "'"@ && t != "`"@ && t != ","@);
}

/// Outside strings and comments, each of `( ) ' ` , @ #` is a token of its
/// own: reading it ends with a token of that one character.
pub proof fn law_punctuation_tokens(s: Seq<char>, c: char)
    requires
        c == '(' || c == ')' || c == '\'' || c == '`' || c == ',' || c == '@' || c == '#',
        !lex_run(s).in_string,
        !lex_run(s).in_comment,
    ensures
        lex(s.push(c)).len() > 0,
        lex(s.push(c)).last().text == seq![c],
{
    assert(s.push(c).drop_last() =~= s);
    assert(lex_run(s.push(c)) == lex_step(lex_run(s), c));
}

/// The words `true` and `false` read as the two booleans, and the decimal
/// text of an integer (with a leading `-` when it is negative) reads as
/// that integer.
pub proof fn law_atoms(n: i64)
    ensures
        atom_view("true"@) == ExprView::Boolean(true),
        atom_view("false"@) == ExprView::Boolean(false),
        atom_view(signed_decimal(n as int)) == ExprView::Number(n),
{
    reveal_strlit("true");
    reveal_strlit("false");
    let t = signed_decimal(n as int);
    let mag: nat = if n < 0 { (-(n as int)) as nat } else { n as nat };
    lemma_decimal_digits(mag);
    let d = decimal(mag);
    assert forall|i: int| 0 <= i < t.len() implies t[i] == '-' || is_digit(#[trigger] t[i]) by {
        if n < 0 && i > 0 {
            assert(t[i] == d[i - 1]);
        }
    }
    assert forall|i: int| 0 <= i < t.len() implies !is_white_space(#[trigger] t[i]) by {
        assert(t[i] == '-' || is_digit(t[i]));
    }
    lemma_no_space(t);
    law_number_text_round_trip(n);
    assert(t[0] != 't' && t[0] != 'f' && t[0] != '"');
    assert(t != "true"@ && t != "false"@);
    assert(!t.contains('.')) by {
        if t.contains('.') {
            let i = choose|i: int| 0 <= i < t.len() && t[i] == '.';
            assert(t[i] == '-' || is_digit(t[i]));
        }
    }
    assert(!t.contains('e')) by {
        if t.contains('e') {
            let i = choose|i: int| 0 <= i < t.len() && t[i] == 'e';
            assert(t[i] == '-' || is_digit(t[i]));
        }
    }
    assert(!t.contains('E')) by {
        if t.contains('E') {
            let i = choose|i: int| 0 <= i < t.len() && t[i] == 'E';
            assert(t[i] == '-' || is_digit(t[i]));
        }
    }
}

/// Whether the expression at token `pos` reads as the two-element list of
/// the symbol `name` and the expression that starts `skip` tokens later,
/// the list and the symbol standing where token `pos` does; an error in the
/// inner expression is the error of the whole.
pub open spec fn reads_as_form(toks: Seq<TokView>, pos: int, file: Seq<char>, name: Seq<char>, skip: int) -> bool {
    let inner = parse_expr_at(toks, pos + skip, file);
    let outer = parse_expr_at(toks, pos, file);
    let loc = LocView { line: toks[pos].line, column: toks[pos].column, file };
    &&& outer.1 == inner.1
    &&& match inner.0 {
        Ok(e) => outer.0 == Ok::<SourceView, Seq<char>>(
            SourceView { expr: ExprView::List(seq![SourceView { expr: ExprView::Symbol(name), loc }, e]), loc },
        ),
        Err(m) => outer.0 == Err::<SourceView, Seq<char>>(m),
    }
}

/// The reader's quote characters: `'x` reads as `(quote x)`, `` `x`` as
/// `(quasiquote x)`, `,x` as `(unquote x)` and `,@x` as
/// `(unquote-splicing x)`.
pub proof fn law_quote_characters(toks: Seq<TokView>, pos: int, file: Seq<char>)
    requires
        0 <= pos < toks.len(),
    ensures
        toks[pos].text == "'"@ ==> reads_as_form(toks, pos, file, "quote"@, 1),
        toks[pos].text == "`"@ ==> reads_as_form(toks, pos, file, "quasiquote"@, 1),
        toks[pos].text == ","@ && !(pos + 1 < toks.len() && toks[pos + 1].text == "@"@) ==> reads_as_form(
            toks,
            pos,
            file,
            "unquote"@,
            1,
        ),
        toks[pos].text == ","@ && pos + 1 < toks.len() && toks[pos + 1].text == "@"@ ==> reads_as_form(
            toks,
            pos,
            file,
            "unquote-splicing"@,
            2,
        ),
{
    reveal_strlit("(");
    reveal_strlit(")");
    reveal_strlit("'");
    reveal_strlit("`");
    reveal_strlit(",");
    let t = toks[pos].text;
    if t == "'"@ || t == "`"@ || t == ","@ {
        assert(t[0] != '(' && t[0] != ')');
        assert(t != "("@ && t != ")"@);
    }
    if t == "`"@ || t == ","@ {
        assert(t != "'"@);
    }
    if t == ","@ {
        assert(t != "`"@);
    }
}

/// Reads a parenthesized list whose `(` is token `pos`.
pub open spec fn parse_list_at(toks: Seq<TokView>, pos: int, file: Seq<char>) -> (Result<SourceView, Seq<char>>, int)
    decreases toks.len() - pos, 0int,
{
    if pos < 0 || pos >= toks.len() {
        (Err(Seq::empty()), pos)
    } else {
        parse_items_at(toks, pos + 1, file, Seq::empty(), tok_loc(toks[pos], file))
    }
}

/// Reads the rest of a list whose items so far are `items`, up to its `)`;
/// `(a b . c)` reads as a dotted list.
pub open spec fn parse_items_at(
    toks: Seq<TokView>,
    pos: int,
    file: Seq<char>,
    items: Seq<SourceView>,
    loc: LocView,
) -> (Result<SourceView, Seq<char>>, int)
    decreases toks.len() - pos, 2int,
{
    if pos < 0 || pos >= toks.len() {
        (Err("Unclosed list - missing closing parenthesis"@), pos)
    } else if toks[pos].text == ")"@ {
        (Ok(SourceView { expr: ExprView::List(items), loc }), pos + 1)
    } else {
        let r = parse_expr_at(toks, pos, file);
        match r.0 {
            Err(m) => (Err(m), r.1),
            Ok(e) => {
                let p = r.1;
                if p <= pos || p > toks.len() {
                    (Err(Seq::empty()), p)
                } else if p < toks.len() && toks[p].text == "."@ {
                    let q = parse_expr_at(toks, p + 1, file);
                    match q.0 {
                        Err(m) => (Err(m), q.1),
                        Ok(rest) => if q.1 < 0 || q.1 >= toks.len() || toks[q.1].text != ")"@ {
                            (Err("Expected ')' after dotted pair"@), q.1)
                        } else {
                            (Ok(SourceView { expr: ExprView::DottedList(items.push(e), Box::new(rest)), loc }), q.1 + 1)
                        },
                    }
                } else {
                    parse_items_at(toks, p, file, items.push(e), loc)
                }
            },
        }
    }
}

/// Reads every expression from token `pos` on, after the expressions `acc`.
pub open spec fn parse_all_at(toks: Seq<TokView>, pos: int, file: Seq<char>, acc: Seq<SourceView>) -> (Result<Seq<SourceView>, Seq<char>>, int)
    decreases toks.len() - pos,
{
    if pos < 0 || pos >= toks.len() {
        (Ok(acc), pos)
    } else {
        let r = parse_expr_at(toks, pos, file);
        match r.0 {
            Err(m) => (Err(m), r.1),
            Ok(e) => if r.1 <= pos || r.1 > toks.len() {
                (Err(Seq::empty()), r.1)
            } else {
                parse_all_at(toks, r.1, file, acc.push(e))
            },
        }
    }
}

/// A reader of source text into expressions.
pub struct Parser {
    tokens: Vec<Token>,
    texts: Vec<Vec<char>>,
    pos: usize,
    file: String,
}

pub open spec fn outcome_matches(r: Result<SourceExpr, String>, s: Result<SourceView, Seq<char>>) -> bool {
    match (r, s) {
        (Ok(e), Ok(v)) => source_view(e) == v,
        (Err(m), Err(sm)) => m@ == sm,
        _ => false,
    }
}

impl Parser {
    /// The tokens being read.
    pub closed spec fn token_views(&self) -> Seq<TokView> {
        toks_view(self.tokens@)
    }

    /// The index of the next token to read.
    pub closed spec fn position(&self) -> int {
        self.pos as int
    }

    /// The file name given to every location.
    pub closed spec fn file_name(&self) -> Seq<char> {
        self.file@
    }

    pub closed spec fn wf(&self) -> bool {
        &&& self.texts@.len() == self.tokens@.len()
        &&& forall|k: int| 0 <= k < self.tokens@.len() ==> #[trigger] self.texts@[k]@ == self.tokens@[k].text@
        &&& forall|k: int| 0 <= k < self.tokens@.len() ==> #[trigger] tok_ok(self.tokens@[k]@)
        &&& self.pos <= self.tokens@.len()
    }

    /// A parser of `input`, whose locations name the file `<input>`.
    pub fn new(input: &str) -> (p: Self)
        requires
            input@.len() < usize::MAX,
        ensures
            p.wf(),
            p.token_views() == lex(input@),
            p.position() == 0,
            p.file_name() == "<input>"@,
    {
        Self::new_with_file(input, owned("<input>"))
    }

    /// A parser of `input`, whose locations name the file `file`.
    pub fn new_with_file(input: &str, file: String) -> (p: Self)
        requires
            input@.len() < usize::MAX,
        ensures
            p.wf(),
            p.token_views() == lex(input@),
            p.position() == 0,
            p.file_name() == file@,
    {
        let tokens = tokenize(input);
        let mut texts: Vec<Vec<char>> = Vec::new();
        let mut i: usize = 0;
        while i < tokens.len()
            invariant
                i <= tokens.len(),
                texts@.len() == i,
                forall|k: int| 0 <= k < i ==> #[trigger] texts@[k]@ == tokens@[k].text@,
            decreases tokens.len() - i,
        {
            texts.push(chars_of(tokens[i].text.as_str()));
            i = i + 1;
        }
        Parser { tokens, texts, pos: 0, file }
    }

    proof fn lemma_text(&self, k: int)
        requires
            self.wf(),
            0 <= k < self.tokens@.len(),
        ensures
            self.token_views()[k].text == self.texts@[k]@,
            tok_ok(self.token_views()[k]),
    {
        assert(self.token_views()[k] == self.tokens@[k]@);
        assert(tok_ok(self.tokens@[k]@));
    }

    fn loc_at(&self, k: usize) -> (l: Location)
        requires
            self.wf(),
            k < self.tokens@.len(),
        ensures
            l@ == tok_loc(self.token_views()[k as int], self.file@),
    {
        assert(self.token_views()[k as int] == self.tokens@[k as int]@);
        Location::new(self.tokens[k].line, self.tokens[k].column, self.file.clone())
    }

    fn text_is(&self, k: usize, lit: &str) -> (r: bool)
        requires
            self.wf(),
            k < self.tokens@.len(),
        ensures
            r == (self.token_views()[k as int].text == lit@),
    {
        proof {
            self.lemma_text(k as int);
        }
        chars_eq_str(&self.texts[k], lit)
    }

    fn atom(&self, k: usize) -> (e: LispExpr)
        requires
            self.wf(),
            k < self.tokens@.len(),
        ensures
            expr_view(e) == atom_view(self.token_views()[k as int].text),
    {
        proof {
            self.lemma_text(k as int);
        }
        let t = &self.texts[k];
        if chars_eq_str(t, "true") {
            LispExpr::Boolean(true)
        } else if chars_eq_str(t, "false") {
            LispExpr::Boolean(false)
        } else if t.len() > 0 && t[0] == '"' && t[t.len() - 1] == '"' {
            let mut s = owned("__STRING__");
            push_chars_range(&mut s, t, 1, t.len() - 1);
            LispExpr::Symbol(s)
        } else if chars_contain(t, '.') || chars_contain(t, 'e') || chars_contain(t, 'E') {
            if is_float_literal(t) {
                LispExpr::Float(self.tokens[k].text.clone())
            } else {
                match parse_int(t) {
                    Some(n) => LispExpr::Number(n),
                    None => LispExpr::Symbol(self.tokens[k].text.clone()),
                }
            }
        } else {
            match parse_int(t) {
                Some(n) => LispExpr::Number(n),
                None => LispExpr::Symbol(self.tokens[k].text.clone()),
            }
        }
    }

    fn wrap(name: &str, inner: SourceExpr, loc: Location) -> (r: SourceExpr)
        ensures
            source_view(r) == wrapped(name@, source_view(inner), loc@),
    {
        let head = SourceExpr { expr: LispExpr::Symbol(owned(name)), location: loc.duplicate() };
        let mut items: Vec<SourceExpr> = Vec::new();
        items.push(head);
        items.push(inner);
        let r = SourceExpr { expr: LispExpr::List(items), location: loc };
        proof {
            lemma_sources_view_ext(items@);
            assert(sources_view(items@) =~= seq![sym_at(name@, loc@), source_view(inner)]);
        }
        r
    }

    /// Reads every expression that is left.
    pub fn parse_all(&mut self) -> (r: Result<Vec<SourceExpr>, String>)
        requires
            old(self).wf(),
        ensures
            final(self).wf(),
            final(self).token_views() == old(self).token_views(),
            final(self).file_name() == old(self).file_name(),
            match (r, parse_all_at(old(self).token_views(), old(self).position(), old(self).file_name(), Seq::empty()).0) {
                (Ok(v), Ok(sv)) => sources_view(v@) == sv,
                (Err(m), Err(sm)) => m@ == sm,
                _ => false,
            },
            final(self).position() == parse_all_at(old(self).token_views(), old(self).position(), old(self).file_name(), Seq::empty()).1,
    {
        let ghost toks = self.token_views();
        let ghost file = self.file@;
        let ghost p0 = self.pos as int;
        let ghost tokens0 = self.tokens;
        let ghost texts0 = self.texts;
        let mut exprs: Vec<SourceExpr> = Vec::new();
        proof {
            lemma_sources_view_ext(exprs@);
        }
        while self.pos < self.tokens.len()
            invariant
                self.wf(),
                self.tokens == tokens0,
                self.texts == texts0,
                self.file@ == file,
                toks == toks_view(tokens0@),
                toks == old(self).token_views(),
                file == old(self).file@,
                p0 == old(self).pos as int,
                parse_all_at(toks, p0, file, Seq::empty()) == parse_all_at(toks, self.pos as int, file, sources_view(exprs@)),
            decreases self.tokens@.len() - self.pos,
        {
            let ghost before = exprs@;
            let ghost pb = self.pos as int;
            let e = self.parse_expr()?;
            let ghost ev = source_view(e);
            exprs.push(e);
            proof {
                lemma_sources_view_ext(exprs@);
                lemma_sources_view_ext(before);
                assert(sources_view(exprs@) =~= sources_view(before).push(ev));
            }
        }
        Ok(exprs)
    }

    fn parse_expr(&mut self) -> (r: Result<SourceExpr, String>)
        requires
            old(self).wf(),
        ensures
            final(self).wf(),
            final(self).tokens == old(self).tokens,
            final(self).texts == old(self).texts,
            final(self).file == old(self).file,
            outcome_matches(r, parse_expr_at(old(self).token_views(), old(self).pos as int, old(self).file@).0),
            final(self).pos == parse_expr_at(old(self).token_views(), old(self).pos as int, old(self).file@).1,
            r.is_ok() ==> final(self).pos > old(self).pos,
        decreases old(self).tokens@.len() - old(self).pos, 1int,
    {
        let ghost toks = self.token_views();
        let ghost file = self.file@;
        let ghost p0 = self.pos as int;
        if self.pos >= self.tokens.len() {
            return Err(owned("Unexpected end of input"));
        }
        let pos = self.pos;
        let location = self.loc_at(pos);
        if self.text_is(pos, "(") {
            self.parse_list()
        } else if self.text_is(pos, ")") {
            Err(owned("Unexpected closing parenthesis"))
        } else if self.text_is(pos, "'") {
            self.pos = pos + 1;
            let e = self.parse_expr()?;
            Ok(Self::wrap("quote", e, location))
        } else if self.text_is(pos, "`") {
            self.pos = pos + 1;
            let e = self.parse_expr()?;
            Ok(Self::wrap("quasiquote", e, location))
        } else if self.text_is(pos, ",") {
            if pos + 1 < self.tokens.len() && self.text_is(pos + 1, "@") {
                self.pos = pos + 2;
                let e = self.parse_expr()?;
                Ok(Self::wrap("unquote-splicing", e, location))
            } else {
                self.pos = pos + 1;
                let e = self.parse_expr()?;
                Ok(Self::wrap("unquote", e, location))
            }
        } else if self.text_is(pos, "#") {
            self.pos = pos + 1;
            if pos + 1 >= self.tokens.len() {
                return Err(owned("Unexpected end of input after '#'"));
            }
            if self.text_is(pos + 1, "(") {
                let v = self.parse_list()?;
                match v.expr {
                    LispExpr::List(mut elements) => {
                        let mut call: Vec<SourceExpr> = Vec::new();
                        call.push(SourceExpr { expr: LispExpr::Symbol(owned("vector")), location: location.duplicate() });
                        let ghost ev = elements@;
                        call.append(&mut elements);
                        proof {
                            lemma_sources_view_ext(call@);
                            lemma_sources_view_ext(ev);
                            assert(sources_view(call@) =~= seq![sym_at("vector"@, location@)] + sources_view(ev));
                        }
                        Ok(SourceExpr { expr: LispExpr::List(call), location })
                    },
                    _ => Err(owned("Expected list after #(")),
                }
            } else if self.text_is(pos + 1, "t") {
                self.pos = pos + 2;
                Ok(SourceExpr { expr: LispExpr::Boolean(true), location })
            } else if self.text_is(pos + 1, "f") {
                self.pos = pos + 2;
                Ok(SourceExpr { expr: LispExpr::Boolean(false), location })
            } else if self.text_is(pos + 1, ";") {
                self.pos = pos + 2;
                let _discarded = self.parse_expr()?;
                self.parse_expr()
            } else if self.text_is(pos + 1, "'") {
                self.pos = pos + 2;
                self.parse_expr()
            } else {
                let mut m = owned("Unknown reader macro: #");
                proof {
                    self.lemma_text((pos + 1) as int);
                }
                push_chars(&mut m, &self.texts[pos + 1]);
                Err(m)
            }
        } else {
            let e = self.atom(pos);
            self.pos = pos + 1;
            Ok(SourceExpr { expr: e, location })
        }
    }

    fn parse_list(&mut self) -> (r: Result<SourceExpr, String>)
        requires
            old(self).wf(),
            old(self).pos < old(self).tokens@.len(),
        ensures
            final(self).wf(),
            final(self).tokens == old(self).tokens,
            final(self).texts == old(self).texts,
            final(self).file == old(self).file,
            outcome_matches(r, parse_list_at(old(self).token_views(), old(self).pos as int, old(self).file@).0),
            final(self).pos == parse_list_at(old(self).token_views(), old(self).pos as int, old(self).file@).1,
            r.is_ok() ==> final(self).pos > old(self).pos,
        decreases old(self).tokens@.len() - old(self).pos, 0int,
    {
        let location = self.loc_at(self.pos);
        let _n = self.tokens.len();
        self.pos = self.pos + 1;
        let items: Vec<SourceExpr> = Vec::new();
        proof {
            lemma_sources_view_ext(items@);
        }
        self.parse_items(items, location)
    }

    fn parse_items(&mut self, items: Vec<SourceExpr>, location: Location) -> (r: Result<SourceExpr, String>)
        requires
            old(self).wf(),
            old(self).pos >= 1,
        ensures
            final(self).wf(),
            final(self).tokens == old(self).tokens,
            final(self).texts == old(self).texts,
            final(self).file == old(self).file,
            outcome_matches(r, parse_items_at(old(self).token_views(), old(self).pos as int, old(self).file@, sources_view(items@), location@).0),
            final(self).pos == parse_items_at(old(self).token_views(), old(self).pos as int, old(self).file@, sources_view(items@), location@).1,
            r.is_ok() ==> final(self).pos > old(self).pos,
        decreases old(self).tokens@.len() - old(self).pos, 2int,
    {
        let mut items = items;
        if self.pos >= self.tokens.len() {
            return Err(owned("Unclosed list - missing closing parenthesis"));
        }
        let pos = self.pos;
        if self.text_is(pos, ")") {
            self.pos = pos + 1;
            return Ok(SourceExpr { expr: LispExpr::List(items), location });
        }
        let ghost old_items = items@;
        let e = self.parse_expr()?;
        let ghost ev = source_view(e);
        items.push(e);
        proof {
            lemma_sources_view_ext(items@);
            lemma_sources_view_ext(old_items);
            assert(sources_view(items@) =~= sources_view(old_items).push(ev));
        }
        let p = self.pos;
        if p < self.tokens.len() && self.text_is(p, ".") {
            self.pos = p + 1;
            let rest = self.parse_expr()?;
            if self.pos >= self.tokens.len() || !self.text_is(self.pos, ")") {
                return Err(owned("Expected ')' after dotted pair"));
            }
            self.pos = self.pos + 1;
            return Ok(SourceExpr { expr: LispExpr::DottedList(items, Box::new(rest)), location });
        }
        self.parse_items(items, location)
    }
}
} // verus!
