//! The grammar of the surface language, as functions on characters.
//!
//! Every function reads the text `s` from position `pos` on. One that can
//! fail returns what it read together with the number of characters it
//! consumed, or the place of the failure and what was expected there.
//! White space may stand before every token.

use vstd::prelude::*;
use crate::parser::{
    BlockExprView, ExprView, FunctionCallExprView, FunctionOutputView, FunctionView,
    ModuleItemView, ModuleView, StatementView,
};

verus! {

/// What the parser expected at the place where it failed.
#[derive(Debug, Clone, Copy, PartialEq, Eq, Structural)]
pub enum Expected {
    /// This character.
    Token(char),
    /// A name: a letter or `_`, then letters, digits and `_`.
    Identifier,
    /// A call or a string literal.
    Expression,
    /// The word `fn`.
    FnKeyword,
    /// The word `eff`.
    EffKeyword,
    /// The end of the text.
    EndOfInput,
}

/// A failed parse: the position of the offending character, or the length of
/// the text where the text ended too early, and what was expected there.
pub struct Failure {
    pub at: int,
    pub expected: Expected,
}

/// The white space that may stand between tokens.
pub open spec fn is_space(c: char) -> bool {
    c == ' ' || ('\t' <= c && c <= '\r')
}

pub open spec fn is_ident_start(c: char) -> bool {
    ('a' <= c && c <= 'z') || ('A' <= c && c <= 'Z') || c == '_'
}

pub open spec fn is_ident_continue(c: char) -> bool {
    is_ident_start(c) || ('0' <= c && c <= '9')
}

/// The characters that may stand inside a string literal: all but `"` and `\`.
pub open spec fn is_literal_char(c: char) -> bool {
    c != '"' && c != '\\'
}

/// The text holds `c` at `pos`.
pub open spec fn char_is(s: Seq<char>, pos: int, c: char) -> bool {
    0 <= pos < s.len() && s[pos] == c
}

/// The number of white space characters from `pos` on.
pub open spec fn spaces(s: Seq<char>, pos: int) -> nat
    decreases s.len() - pos,
{
    if 0 <= pos < s.len() && is_space(s[pos]) {
        1 + spaces(s, pos + 1)
    } else {
        0
    }
}

/// The number of characters of a name from `pos` on.
pub open spec fn ident_len(s: Seq<char>, pos: int) -> nat
    decreases s.len() - pos,
{
    if 0 <= pos < s.len() && is_ident_continue(s[pos]) {
        1 + ident_len(s, pos + 1)
    } else {
        0
    }
}

/// The number of characters of a string literal's text from `pos` on.
pub open spec fn literal_len(s: Seq<char>, pos: int) -> nat
    decreases s.len() - pos,
{
    if 0 <= pos < s.len() && is_literal_char(s[pos]) {
        1 + literal_len(s, pos + 1)
    } else {
        0
    }
}

/// The number of characters from `pos` to the end of the text.
pub open spec fn remaining(s: Seq<char>, pos: int) -> nat {
    if pos <= s.len() {
        (s.len() - pos) as nat
    } else {
        0
    }
}

/// The character `c`, after white space.
pub open spec fn token(s: Seq<char>, pos: int, c: char) -> Result<nat, Failure> {
    let p = pos + spaces(s, pos);
    if char_is(s, p, c) {
        Ok(spaces(s, pos) + 1)
    } else {
        Err(Failure { at: p, expected: Expected::Token(c) })
    }
}

/// A name, after white space.
pub open spec fn identifier(s: Seq<char>, pos: int) -> Result<(Seq<char>, nat), Failure> {
    let p = pos + spaces(s, pos);
    if 0 <= p < s.len() && is_ident_start(s[p]) {
        let n = 1 + ident_len(s, p + 1);
        Ok((s.subrange(p, p + n), spaces(s, pos) + n))
    } else {
        Err(Failure { at: p, expected: Expected::Identifier })
    }
}

/// The name `word`, after white space; `expected` is reported where another
/// name or no name stands there.
pub open spec fn keyword(s: Seq<char>, pos: int, word: Seq<char>, expected: Expected) -> Result<
    nat,
    Failure,
> {
    match identifier(s, pos) {
        Ok((name, n)) if name == word => Ok(n),
        _ => Err(Failure { at: pos + spaces(s, pos), expected }),
    }
}

/// The two characters `->`, after white space.
pub open spec fn arrow(s: Seq<char>, pos: int) -> Result<nat, Failure> {
    let p = pos + spaces(s, pos);
    if !char_is(s, p, '-') {
        Err(Failure { at: p, expected: Expected::Token('-') })
    } else if !char_is(s, p + 1, '>') {
        Err(Failure { at: p + 1, expected: Expected::Token('>') })
    } else {
        Ok(spaces(s, pos) + 2)
    }
}

/// An expression, after white space: a string literal, or a call, that is a
/// name, then its positional arguments between `(` and `)` if there are any,
/// then its children between `{` and `}` if there are any.
pub open spec fn expr(s: Seq<char>, pos: int) -> Result<(ExprView<Seq<char>>, nat), Failure>
    decreases remaining(s, pos), 0nat,
{
    let p = pos + spaces(s, pos);
    if char_is(s, p, '"') {
        let n = literal_len(s, p + 1);
        if char_is(s, p + 1 + n, '"') {
            Ok((ExprView::StringLiteral(s.subrange(p + 1, p + 1 + n)), (p + n + 2 - pos) as nat))
        } else {
            Err(Failure { at: p + 1 + n, expected: Expected::Token('"') })
        }
    } else if 0 <= p < s.len() && is_ident_start(s[p]) {
        let e = p + 1 + ident_len(s, p + 1);
        match group(s, e, '(', ')') {
            Err(f) => Err(f),
            Ok((args, n)) => match group(s, e + n, '{', '}') {
                Err(f) => Err(f),
                Ok((children, m)) => Ok(
                    (
                        ExprView::FunctionCall(
                            FunctionCallExprView { name: s.subrange(p, e), args, children },
                        ),
                        (e + n + m - pos) as nat,
                    ),
                ),
            },
        }
    } else {
        Err(Failure { at: p, expected: Expected::Expression })
    }
}

/// A list of expressions between `open` and `close`, after white space, or
/// nothing where no `open` stands there.
pub open spec fn group(s: Seq<char>, pos: int, open: char, close: char) -> Result<
    (Seq<ExprView<Seq<char>>>, nat),
    Failure,
>
    decreases remaining(s, pos), 0nat,
{
    let p = pos + spaces(s, pos);
    if !char_is(s, p, open) {
        Ok((Seq::empty(), 0))
    } else if char_is(s, p + 1 + spaces(s, p + 1), close) {
        Ok((Seq::empty(), (p + spaces(s, p + 1) + 2 - pos) as nat))
    } else {
        match items(s, p + 1, close, Seq::empty()) {
            Err(f) => Err(f),
            Ok((list, n)) => Ok((list, (p + 1 + n - pos) as nat)),
        }
    }
}

/// One or more expressions with `,` between them, then `close`. The result
/// holds `read`, the expressions already taken, before them.
pub open spec fn items(
    s: Seq<char>,
    pos: int,
    close: char,
    read: Seq<ExprView<Seq<char>>>,
) -> Result<(Seq<ExprView<Seq<char>>>, nat), Failure>
    decreases remaining(s, pos), 1nat,
{
    match expr(s, pos) {
        Err(f) => Err(f),
        Ok((e, n)) => {
            let p = pos + n + spaces(s, pos + n);
            if char_is(s, p, ',') {
                match items(s, p + 1, close, read.push(e)) {
                    Err(f) => Err(f),
                    Ok((list, m)) => Ok((list, (p + 1 + m - pos) as nat)),
                }
            } else if char_is(s, p, close) {
                Ok((read.push(e), (p + 1 - pos) as nat))
            } else {
                Err(Failure { at: p, expected: Expected::Token(close) })
            }
        },
    }
}

/// What follows the `{` of a block: statements, each an expression and `;`,
/// then the tail expression if there is one, then `}`. The result holds
/// `read`, the statements already taken, before them.
pub open spec fn body(s: Seq<char>, pos: int, read: Seq<StatementView<Seq<char>>>) -> Result<
    (BlockExprView<Seq<char>>, nat),
    Failure,
>
    decreases s.len() - pos,
{
    let p = pos + spaces(s, pos);
    if char_is(s, p, '}') {
        Ok((BlockExprView { statements: read, return_expression: None }, (p + 1 - pos) as nat))
    } else {
        match expr(s, p) {
            Err(f) => Err(f),
            Ok((e, n)) => {
                let q = p + n + spaces(s, p + n);
                if char_is(s, q, ';') {
                    match body(s, q + 1, read.push(StatementView::ExprStatement(e))) {
                        Err(f) => Err(f),
                        Ok((block, m)) => Ok((block, (q + 1 + m - pos) as nat)),
                    }
                } else if char_is(s, q, '}') {
                    Ok(
                        (
                            BlockExprView { statements: read, return_expression: Some(e) },
                            (q + 1 - pos) as nat,
                        ),
                    )
                } else {
                    Err(Failure { at: q, expected: Expected::Token('}') })
                }
            },
        }
    }
}

/// A block: `{`, then its body.
pub open spec fn block(s: Seq<char>, pos: int) -> Result<(BlockExprView<Seq<char>>, nat), Failure> {
    match token(s, pos, '{') {
        Err(f) => Err(f),
        Ok(n) => match body(s, pos + n, Seq::empty()) {
            Err(f) => Err(f),
            Ok((block, m)) => Ok((block, n + m)),
        },
    }
}

/// What a function gives: the name of its type, then `eff` and the name of
/// its effect where a name follows the type.
pub open spec fn output(s: Seq<char>, pos: int) -> Result<
    (FunctionOutputView<Seq<char>>, nat),
    Failure,
> {
    match identifier(s, pos) {
        Err(f) => Err(f),
        Ok((ty, n)) => {
            let p = pos + n + spaces(s, pos + n);
            if 0 <= p < s.len() && is_ident_start(s[p]) {
                match keyword(s, pos + n, "eff"@, Expected::EffKeyword) {
                    Err(f) => Err(f),
                    Ok(k) => match identifier(s, pos + n + k) {
                        Err(f) => Err(f),
                        Ok((eff, m)) => Ok((FunctionOutputView { ty, eff: Some(eff) }, n + k + m)),
                    },
                }
            } else {
                Ok((FunctionOutputView { ty, eff: None }, n))
            }
        },
    }
}

/// The head of a function up to its arrow: `fn`, its name, `(`, `)`, `->`.
pub open spec fn head(s: Seq<char>, pos: int) -> Result<(Seq<char>, nat), Failure> {
    match keyword(s, pos, "fn"@, Expected::FnKeyword) {
        Err(f) => Err(f),
        Ok(a) => match identifier(s, pos + a) {
            Err(f) => Err(f),
            Ok((name, b)) => match token(s, pos + a + b, '(') {
                Err(f) => Err(f),
                Ok(c) => match token(s, pos + a + b + c, ')') {
                    Err(f) => Err(f),
                    Ok(d) => match arrow(s, pos + a + b + c + d) {
                        Err(f) => Err(f),
                        Ok(e) => Ok((name, a + b + c + d + e)),
                    },
                },
            },
        },
    }
}

/// A function: its head, what it gives, and its block.
pub open spec fn function(s: Seq<char>, pos: int) -> Result<
    (FunctionView<Seq<char>>, nat),
    Failure,
> {
    match head(s, pos) {
        Err(f) => Err(f),
        Ok((name, a)) => match output(s, pos + a) {
            Err(f) => Err(f),
            Ok((output, b)) => match block(s, pos + a + b) {
                Err(f) => Err(f),
                Ok((body, c)) => Ok((FunctionView { name, inputs: (), output, body }, a + b + c)),
            },
        },
    }
}

/// A whole text: one function, then white space to the end. The module
/// holds the function under the name `main`, whatever its own name is.
pub open spec fn module(s: Seq<char>) -> Result<ModuleView<Seq<char>, Seq<char>>, Failure> {
    match function(s, 0) {
        Err(f) => Err(f),
        Ok((function, n)) => {
            let p = n + spaces(s, n as int);
            if p >= s.len() {
                Ok(ModuleView { entries: seq![("main"@, ModuleItemView::Function(function))] })
            } else {
                Err(Failure { at: p as int, expected: Expected::EndOfInput })
            }
        },
    }
}

} // verus!
