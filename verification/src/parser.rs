//! From tokens to the syntax tree.
//!
//! The grammar, with `?` for an optional part and `*` for repetition:
//!
//! ```text
//! CompUnit   := GlobalDef* EOF
//! GlobalDef  := FuncDef | Decl
//! Decl       := ("var" | "val") Ident ":" "i32" "=" Exp ";"
//! FuncDef    := "fn" Ident "(" (Param ("," Param)*)? ")" ("->" "i32")? Block
//! Param      := Ident ":" "i32"
//! Block      := "{" (Decl | Stmt)* "}"
//! Stmt       := Ident "=" Exp ";" | Block | Exp? ";" | "return" Exp? ";"
//!             | "if" "(" Exp ")" Stmt ("else" Stmt)? | "while" "(" Exp ")" Stmt
//!             | FuncDef | "continue" ";" | "break" ";"
//! Exp        := LOrExp
//! LOrExp     := LAndExp ("||" LAndExp)*
//! LAndExp    := EqExp ("&&" EqExp)*
//! EqExp      := RelExp (("==" | "!=") RelExp)*
//! RelExp     := AddExp (("<" | ">" | "<=" | ">=") AddExp)*
//! AddExp     := MulExp (("+" | "-") MulExp)*
//! MulExp     := UnaryExp (("*" | "/" | "%") UnaryExp)*
//! UnaryExp   := ("-" | "!") UnaryExp | Ident "(" (Exp ("," Exp)*)? ")" | PrimaryExp
//! PrimaryExp := "(" Exp ")" | Number | Ident
//! ```
//!
//! Binary operators group to the left, and an `else` belongs to the nearest `if`.
//!
//! The grammar stands here twice. The functions `takes_*` say how many
//! tokens a phrase takes at a position, or at which token it fails. The
//! functions `tokens_of_*` say which tokens a tree is written with. The
//! parser succeeds exactly where `takes_*` says so, and the tree it builds
//! is written with exactly the tokens it took.

use crate::ast::{
    AddExp, BType, BinaryOp, Block, BlockItem, CompUnit, Decl, EqExp, Exp, FuncDef, FuncFParam,
    FuncFParams, FuncRParams, GlobalDef, InitVal, LAndExp, LOrExp, LVal, MulExp, PrimaryExp,
    RelExp, Stmt, UnaryExp, UnaryOp, ValDecl, VarDecl,
};
use crate::error::Error;
use crate::lexer::{lexemes, tokenize, tokens_view, Delimiter, Keyword, Lexeme, Operator, Token};
use vstd::prelude::*;

verus! {

/// The token at index `pos`; the end of the text past the last token.
pub open spec fn at(ls: Seq<Lexeme>, pos: nat) -> Lexeme {
    if pos < ls.len() {
        ls[pos as int]
    } else {
        Lexeme::EOF
    }
}

/// How many tokens stand at index `pos` and after it.
pub open spec fn remaining(ls: Seq<Lexeme>, pos: nat) -> nat {
    if pos <= ls.len() {
        (ls.len() - pos) as nat
    } else {
        0
    }
}

/// The token of an operator.
pub open spec fn op(o: Operator) -> Lexeme {
    Lexeme::Operator(o)
}

/// The token of a punctuation mark.
pub open spec fn delim(d: Delimiter) -> Lexeme {
    Lexeme::Delimiters(d)
}

/// The token of a reserved word.
pub open spec fn kw(k: Keyword) -> Lexeme {
    Lexeme::Keyword(k)
}

/// `first` or, where it succeeds, `n` more tokens.
pub open spec fn plus(first: Result<nat, usize>, n: nat) -> Result<nat, usize> {
    match first {
        Ok(k) => Ok(k + n),
        Err(at) => Err(at),
    }
}

/// `n` tokens where the token at `pos` is `expected`, else a failure at `pos`.
pub open spec fn expect(ls: Seq<Lexeme>, pos: nat, expected: Lexeme, n: nat) -> Result<nat, usize> {
    if at(ls, pos) == expected {
        Ok(n)
    } else {
        Err(pos as usize)
    }
}

/// The operator of `eq` rank that the token is, if it is one.
pub open spec fn eq_operator(l: Lexeme) -> Option<BinaryOp> {
    match l {
        Lexeme::Operator(Operator::EqEq) => Some(BinaryOp::Eq),
        Lexeme::Operator(Operator::Ne) => Some(BinaryOp::Neq),
        _ => None,
    }
}

/// The operator of `rel` rank that the token is, if it is one.
pub open spec fn rel_operator(l: Lexeme) -> Option<BinaryOp> {
    match l {
        Lexeme::Operator(Operator::Lt) => Some(BinaryOp::Lt),
        Lexeme::Operator(Operator::Gt) => Some(BinaryOp::Gt),
        Lexeme::Operator(Operator::Le) => Some(BinaryOp::Leq),
        Lexeme::Operator(Operator::Ge) => Some(BinaryOp::Geq),
        _ => None,
    }
}

/// The operator of `add` rank that the token is, if it is one.
pub open spec fn add_operator(l: Lexeme) -> Option<BinaryOp> {
    match l {
        Lexeme::Operator(Operator::Plus) => Some(BinaryOp::Add),
        Lexeme::Operator(Operator::Minus) => Some(BinaryOp::Sub),
        _ => None,
    }
}

/// The operator of `mul` rank that the token is, if it is one.
pub open spec fn mul_operator(l: Lexeme) -> Option<BinaryOp> {
    match l {
        Lexeme::Operator(Operator::Star) => Some(BinaryOp::Mul),
        Lexeme::Operator(Operator::Slash) => Some(BinaryOp::Div),
        Lexeme::Operator(Operator::Percent) => Some(BinaryOp::Mod),
        _ => None,
    }
}

/// The token that the binary operator is written with.
pub open spec fn operator_lexeme(o: BinaryOp) -> Lexeme {
    match o {
        BinaryOp::Add => op(Operator::Plus),
        BinaryOp::Sub => op(Operator::Minus),
        BinaryOp::Mul => op(Operator::Star),
        BinaryOp::Div => op(Operator::Slash),
        BinaryOp::Mod => op(Operator::Percent),
        BinaryOp::Lt => op(Operator::Lt),
        BinaryOp::Gt => op(Operator::Gt),
        BinaryOp::Leq => op(Operator::Le),
        BinaryOp::Geq => op(Operator::Ge),
        BinaryOp::Eq => op(Operator::EqEq),
        BinaryOp::Neq => op(Operator::Ne),
    }
}

/// The token that the unary operator is written with.
pub open spec fn unary_lexeme(o: UnaryOp) -> Lexeme {
    match o {
        UnaryOp::Neg => op(Operator::Minus),
        UnaryOp::Not => op(Operator::Not),
    }
}

/// How many tokens the expression at `pos` takes, or the index of the token that does not fit.
pub open spec fn takes_exp(ls: Seq<Lexeme>, pos: nat) -> Result<nat, usize>
    decreases remaining(ls, pos), 20nat,
{
    takes_lor(ls, pos)
}

/// How many tokens the expression of `||` rank at `pos` takes.
pub open spec fn takes_lor(ls: Seq<Lexeme>, pos: nat) -> Result<nat, usize>
    decreases remaining(ls, pos), 19nat,
{
    match takes_land(ls, pos) {
        Err(at) => Err(at),
        Ok(k) => plus(takes_lor_tail(ls, pos + k), k),
    }
}

/// The operators of `lor` rank and their right operands from `pos` on.
pub open spec fn takes_lor_tail(ls: Seq<Lexeme>, pos: nat) -> Result<nat, usize>
    decreases remaining(ls, pos), 18nat,
{
    if at(ls, pos) == op(Operator::OrOr) {
        match takes_land(ls, pos + 1) {
            Err(at) => Err(at),
            Ok(k) => plus(takes_lor_tail(ls, pos + 1 + k), 1 + k),
        }
    } else {
        Ok(0)
    }
}

/// How many tokens the expression of `&&` rank at `pos` takes.
pub open spec fn takes_land(ls: Seq<Lexeme>, pos: nat) -> Result<nat, usize>
    decreases remaining(ls, pos), 17nat,
{
    match takes_eq(ls, pos) {
        Err(at) => Err(at),
        Ok(k) => plus(takes_land_tail(ls, pos + k), k),
    }
}

/// The operators of `land` rank and their right operands from `pos` on.
pub open spec fn takes_land_tail(ls: Seq<Lexeme>, pos: nat) -> Result<nat, usize>
    decreases remaining(ls, pos), 16nat,
{
    if at(ls, pos) == op(Operator::AndAnd) {
        match takes_eq(ls, pos + 1) {
            Err(at) => Err(at),
            Ok(k) => plus(takes_land_tail(ls, pos + 1 + k), 1 + k),
        }
    } else {
        Ok(0)
    }
}

/// How many tokens the expression of `==` rank at `pos` takes.
pub open spec fn takes_eq(ls: Seq<Lexeme>, pos: nat) -> Result<nat, usize>
    decreases remaining(ls, pos), 15nat,
{
    match takes_rel(ls, pos) {
        Err(at) => Err(at),
        Ok(k) => plus(takes_eq_tail(ls, pos + k), k),
    }
}

/// The operators of `eq` rank and their right operands from `pos` on.
pub open spec fn takes_eq_tail(ls: Seq<Lexeme>, pos: nat) -> Result<nat, usize>
    decreases remaining(ls, pos), 14nat,
{
    if eq_operator(at(ls, pos)) is Some {
        match takes_rel(ls, pos + 1) {
            Err(at) => Err(at),
            Ok(k) => plus(takes_eq_tail(ls, pos + 1 + k), 1 + k),
        }
    } else {
        Ok(0)
    }
}

/// How many tokens the expression of `<` rank at `pos` takes.
pub open spec fn takes_rel(ls: Seq<Lexeme>, pos: nat) -> Result<nat, usize>
    decreases remaining(ls, pos), 13nat,
{
    match takes_add(ls, pos) {
        Err(at) => Err(at),
        Ok(k) => plus(takes_rel_tail(ls, pos + k), k),
    }
}

/// The operators of `rel` rank and their right operands from `pos` on.
pub open spec fn takes_rel_tail(ls: Seq<Lexeme>, pos: nat) -> Result<nat, usize>
    decreases remaining(ls, pos), 12nat,
{
    if rel_operator(at(ls, pos)) is Some {
        match takes_add(ls, pos + 1) {
            Err(at) => Err(at),
            Ok(k) => plus(takes_rel_tail(ls, pos + 1 + k), 1 + k),
        }
    } else {
        Ok(0)
    }
}

/// How many tokens the expression of `+` rank at `pos` takes.
pub open spec fn takes_add(ls: Seq<Lexeme>, pos: nat) -> Result<nat, usize>
    decreases remaining(ls, pos), 11nat,
{
    match takes_mul(ls, pos) {
        Err(at) => Err(at),
        Ok(k) => plus(takes_add_tail(ls, pos + k), k),
    }
}

/// The operators of `add` rank and their right operands from `pos` on.
pub open spec fn takes_add_tail(ls: Seq<Lexeme>, pos: nat) -> Result<nat, usize>
    decreases remaining(ls, pos), 10nat,
{
    if add_operator(at(ls, pos)) is Some {
        match takes_mul(ls, pos + 1) {
            Err(at) => Err(at),
            Ok(k) => plus(takes_add_tail(ls, pos + 1 + k), 1 + k),
        }
    } else {
        Ok(0)
    }
}

/// How many tokens the expression of `*` rank at `pos` takes.
pub open spec fn takes_mul(ls: Seq<Lexeme>, pos: nat) -> Result<nat, usize>
    decreases remaining(ls, pos), 9nat,
{
    match takes_unary(ls, pos) {
        Err(at) => Err(at),
        Ok(k) => plus(takes_mul_tail(ls, pos + k), k),
    }
}

/// The operators of `mul` rank and their right operands from `pos` on.
pub open spec fn takes_mul_tail(ls: Seq<Lexeme>, pos: nat) -> Result<nat, usize>
    decreases remaining(ls, pos), 8nat,
{
    if mul_operator(at(ls, pos)) is Some {
        match takes_unary(ls, pos + 1) {
            Err(at) => Err(at),
            Ok(k) => plus(takes_mul_tail(ls, pos + 1 + k), 1 + k),
        }
    } else {
        Ok(0)
    }
}

/// How many tokens the unary expression or the call at `pos` takes.
pub open spec fn takes_unary(ls: Seq<Lexeme>, pos: nat) -> Result<nat, usize>
    decreases remaining(ls, pos), 7nat,
{
    if at(ls, pos) == op(Operator::Minus) || at(ls, pos) == op(Operator::Not) {
        plus(takes_unary(ls, pos + 1), 1)
    } else if at(ls, pos) is Identifier && at(ls, pos + 1) == delim(Delimiter::LParen) {
        if at(ls, pos + 2) == delim(Delimiter::RParen) {
            Ok(3)
        } else {
            match takes_args(ls, pos + 2) {
                Err(at) => Err(at),
                Ok(k) => expect(ls, pos + 2 + k, delim(Delimiter::RParen), k + 3),
            }
        }
    } else {
        takes_primary(ls, pos)
    }
}

/// The arguments of a call: expressions with commas between them.
pub open spec fn takes_args(ls: Seq<Lexeme>, pos: nat) -> Result<nat, usize>
    decreases remaining(ls, pos), 21nat,
{
    match takes_exp(ls, pos) {
        Err(at) => Err(at),
        Ok(k) => if at(ls, pos + k) == delim(Delimiter::Comma) {
            plus(takes_args(ls, pos + k + 1), k + 1)
        } else {
            Ok(k)
        },
    }
}

/// How many tokens the primary expression at `pos` takes.
pub open spec fn takes_primary(ls: Seq<Lexeme>, pos: nat) -> Result<nat, usize>
    decreases remaining(ls, pos), 5nat,
{
    if at(ls, pos) == delim(Delimiter::LParen) {
        match takes_exp(ls, pos + 1) {
            Err(at) => Err(at),
            Ok(k) => expect(ls, pos + 1 + k, delim(Delimiter::RParen), k + 2),
        }
    } else if at(ls, pos) is Number || at(ls, pos) is Identifier {
        Ok(1)
    } else {
        Err(pos as usize)
    }
}

/// How many tokens the declaration at `pos` takes.
pub open spec fn takes_decl(ls: Seq<Lexeme>, pos: nat) -> Result<nat, usize> {
    if !(at(ls, pos) == kw(Keyword::Var) || at(ls, pos) == kw(Keyword::Val)) {
        Err(pos as usize)
    } else if !(at(ls, pos + 1) is Identifier) {
        Err((pos + 1) as usize)
    } else if at(ls, pos + 2) != delim(Delimiter::Colon) {
        Err((pos + 2) as usize)
    } else if at(ls, pos + 3) != kw(Keyword::I32) {
        Err((pos + 3) as usize)
    } else if at(ls, pos + 4) != op(Operator::Assign) {
        Err((pos + 4) as usize)
    } else {
        match takes_exp(ls, pos + 5) {
            Err(at) => Err(at),
            Ok(k) => expect(ls, pos + 5 + k, delim(Delimiter::Semi), k + 6),
        }
    }
}

/// How many tokens the formal parameters at `pos` take: names with their
/// types, with commas between them.
pub open spec fn takes_params(ls: Seq<Lexeme>, pos: nat) -> Result<nat, usize>
    decreases remaining(ls, pos),
{
    if !(at(ls, pos) is Identifier) {
        Err(pos as usize)
    } else if at(ls, pos + 1) != delim(Delimiter::Colon) {
        Err((pos + 1) as usize)
    } else if at(ls, pos + 2) != kw(Keyword::I32) {
        Err((pos + 2) as usize)
    } else if at(ls, pos + 3) == delim(Delimiter::Comma) {
        plus(takes_params(ls, pos + 4), 4)
    } else {
        Ok(3)
    }
}

/// How many tokens the head of the function definition at `pos` takes:
/// all of it before the body.
pub open spec fn takes_head(ls: Seq<Lexeme>, pos: nat) -> Result<nat, usize> {
    if at(ls, pos) != kw(Keyword::Fn) {
        Err(pos as usize)
    } else if !(at(ls, pos + 1) is Identifier) {
        Err((pos + 1) as usize)
    } else if at(ls, pos + 2) != delim(Delimiter::LParen) {
        Err((pos + 2) as usize)
    } else {
        let params = if at(ls, pos + 3) == delim(Delimiter::RParen) {
            Ok(0nat)
        } else {
            takes_params(ls, pos + 3)
        };
        match params {
            Err(at) => Err(at),
            Ok(k) => if at(ls, pos + 3 + k) != delim(Delimiter::RParen) {
                Err((pos + 3 + k) as usize)
            } else if at(ls, pos + 4 + k) != op(Operator::Arrow) {
                Ok(k + 4)
            } else {
                expect(ls, pos + 5 + k, kw(Keyword::I32), k + 6)
            },
        }
    }
}

/// How many tokens the function definition at `pos` takes.
pub open spec fn takes_func(ls: Seq<Lexeme>, pos: nat) -> Result<nat, usize>
    decreases remaining(ls, pos), 12nat,
{
    match takes_head(ls, pos) {
        Err(at) => Err(at),
        Ok(k) => plus(takes_block(ls, pos + k), k),
    }
}

/// How many tokens the block at `pos` takes.
pub open spec fn takes_block(ls: Seq<Lexeme>, pos: nat) -> Result<nat, usize>
    decreases remaining(ls, pos), 11nat,
{
    if at(ls, pos) != delim(Delimiter::LBrace) {
        Err(pos as usize)
    } else {
        match takes_items(ls, pos + 1) {
            Err(at) => Err(at),
            Ok(k) => expect(ls, pos + 1 + k, delim(Delimiter::RBrace), k + 2),
        }
    }
}

/// How many tokens the items of a block from `pos` on take: they end
/// before the closing brace. An item that takes no token ends the
/// search with a failure: there is no such item, and the test is what
/// shows that the search for the closing brace comes to an end.
pub open spec fn takes_items(ls: Seq<Lexeme>, pos: nat) -> Result<nat, usize>
    decreases remaining(ls, pos), 15nat,
{
    if at(ls, pos) == delim(Delimiter::RBrace) || at(ls, pos) is EOF {
        Ok(0)
    } else {
        match takes_item(ls, pos) {
            Err(at) => Err(at),
            Ok(k) => if k == 0 {
                Err(pos as usize)
            } else {
                plus(takes_items(ls, pos + k), k)
            },
        }
    }
}

/// How many tokens the declaration or the statement at `pos` takes.
pub open spec fn takes_item(ls: Seq<Lexeme>, pos: nat) -> Result<nat, usize>
    decreases remaining(ls, pos), 14nat,
{
    if at(ls, pos) == kw(Keyword::Var) || at(ls, pos) == kw(Keyword::Val) {
        takes_decl(ls, pos)
    } else {
        takes_stmt(ls, pos)
    }
}

/// How many tokens `return`, `break`, `continue`, an assignment or an
/// expression statement at `pos` takes.
pub open spec fn takes_simple(ls: Seq<Lexeme>, pos: nat) -> Result<nat, usize> {
    if at(ls, pos) == kw(Keyword::Return) {
        if at(ls, pos + 1) == delim(Delimiter::Semi) {
            Ok(2)
        } else {
            match takes_exp(ls, pos + 1) {
                Err(at) => Err(at),
                Ok(k) => expect(ls, pos + 1 + k, delim(Delimiter::Semi), k + 2),
            }
        }
    } else if at(ls, pos) == kw(Keyword::Break) || at(ls, pos) == kw(Keyword::Continue) {
        expect(ls, pos + 1, delim(Delimiter::Semi), 2)
    } else if at(ls, pos) == delim(Delimiter::Semi) {
        Ok(1)
    } else if at(ls, pos) is Identifier && at(ls, pos + 1) == op(Operator::Assign) {
        match takes_exp(ls, pos + 2) {
            Err(at) => Err(at),
            Ok(k) => expect(ls, pos + 2 + k, delim(Delimiter::Semi), k + 3),
        }
    } else {
        match takes_exp(ls, pos) {
            Err(at) => Err(at),
            Ok(k) => expect(ls, pos + k, delim(Delimiter::Semi), k + 1),
        }
    }
}

/// How many tokens the condition in parentheses after the keyword at
/// `pos` takes, the keyword and the parentheses included.
pub open spec fn takes_condition(ls: Seq<Lexeme>, pos: nat) -> Result<nat, usize> {
    if at(ls, pos + 1) != delim(Delimiter::LParen) {
        Err((pos + 1) as usize)
    } else {
        match takes_exp(ls, pos + 2) {
            Err(at) => Err(at),
            Ok(k) => expect(ls, pos + 2 + k, delim(Delimiter::RParen), k + 3),
        }
    }
}

/// The tokens that a keyword and the condition in parentheses after it are
/// written with, followed by `rest`.
pub open spec fn written_condition(keyword: Lexeme, exp: Exp, rest: Seq<Lexeme>) -> Seq<Lexeme> {
    seq![keyword, delim(Delimiter::LParen)] + tokens_of_exp(
        exp,
        seq![delim(Delimiter::RParen)] + rest,
    )
}

/// How many tokens the statement at `pos` takes.
pub open spec fn takes_stmt(ls: Seq<Lexeme>, pos: nat) -> Result<nat, usize>
    decreases remaining(ls, pos), 13nat,
{
    if at(ls, pos) == kw(Keyword::If) {
        match takes_condition(ls, pos) {
            Err(at) => Err(at),
            Ok(k) => match takes_stmt(ls, pos + k) {
                Err(at) => Err(at),
                Ok(k2) => if at(ls, pos + k + k2) == kw(Keyword::Else) {
                    plus(takes_stmt(ls, pos + k + k2 + 1), k + k2 + 1)
                } else {
                    Ok(k + k2)
                },
            },
        }
    } else if at(ls, pos) == kw(Keyword::While) {
        match takes_condition(ls, pos) {
            Err(at) => Err(at),
            Ok(k) => plus(takes_stmt(ls, pos + k), k),
        }
    } else if at(ls, pos) == kw(Keyword::Fn) {
        takes_func(ls, pos)
    } else if at(ls, pos) == delim(Delimiter::LBrace) {
        takes_block(ls, pos)
    } else {
        takes_simple(ls, pos)
    }
}

/// A function definition and a declaration take at least one token.
pub proof fn lemma_global_takes(ls: Seq<Lexeme>, pos: nat)
    ensures
        takes_func(ls, pos) matches Ok(k) ==> k >= 1,
        takes_decl(ls, pos) matches Ok(k) ==> k >= 1,
{
}

/// How many tokens the global definitions from `pos` on take: they end
/// before the end of the text.
pub open spec fn takes_globals(ls: Seq<Lexeme>, pos: nat) -> Result<nat, usize>
    decreases remaining(ls, pos),
{
    if at(ls, pos) is EOF {
        Ok(0)
    } else {
        let first = if at(ls, pos) == kw(Keyword::Fn) {
            takes_func(ls, pos)
        } else {
            takes_decl(ls, pos)
        };
        match first {
            Err(at) => Err(at),
            Ok(k) => {
                proof {
                    lemma_global_takes(ls, pos);
                }
                plus(takes_globals(ls, pos + k), k)
            },
        }
    }
}

/// How many tokens the program takes: all but the end of the text, which
/// is the last of them.
pub open spec fn takes_unit(ls: Seq<Lexeme>) -> Result<nat, usize> {
    match takes_globals(ls, 0) {
        Err(at) => Err(at),
        Ok(k) => if k + 1 == ls.len() {
            Ok(k)
        } else {
            Err(k as usize)
        },
    }
}

/// The tokens that the expression is written with, followed by `rest`.
pub open spec fn tokens_of_exp(e: Exp, rest: Seq<Lexeme>) -> Seq<Lexeme>
    decreases e,
{
    tokens_of_lor(e.lor_exp, rest)
}

/// The tokens that an expression of `||` rank is written with, followed by `rest`.
pub open spec fn tokens_of_lor(e: LOrExp, rest: Seq<Lexeme>) -> Seq<Lexeme>
    decreases e,
{
    match e {
        LOrExp::And(inner) => tokens_of_land(inner, rest),
        LOrExp::Or(lhs, rhs) => tokens_of_lor(
            *lhs,
            seq![op(Operator::OrOr)] + tokens_of_land(rhs, rest),
        ),
    }
}

/// The tokens that an expression of `&&` rank is written with, followed by `rest`.
pub open spec fn tokens_of_land(e: LAndExp, rest: Seq<Lexeme>) -> Seq<Lexeme>
    decreases e,
{
    match e {
        LAndExp::Eq(inner) => tokens_of_eq(inner, rest),
        LAndExp::And(lhs, rhs) => tokens_of_land(
            *lhs,
            seq![op(Operator::AndAnd)] + tokens_of_eq(rhs, rest),
        ),
    }
}

/// The tokens that an expression of `==` rank is written with, followed by `rest`.
pub open spec fn tokens_of_eq(e: EqExp, rest: Seq<Lexeme>) -> Seq<Lexeme>
    decreases e,
{
    match e {
        EqExp::Rel(inner) => tokens_of_rel(inner, rest),
        EqExp::Eq(lhs, o, rhs) => tokens_of_eq(
            *lhs,
            seq![operator_lexeme(o)] + tokens_of_rel(rhs, rest),
        ),
    }
}

/// The tokens that an expression of `<` rank is written with, followed by `rest`.
pub open spec fn tokens_of_rel(e: RelExp, rest: Seq<Lexeme>) -> Seq<Lexeme>
    decreases e,
{
    match e {
        RelExp::Add(inner) => tokens_of_add(inner, rest),
        RelExp::Rel(lhs, o, rhs) => tokens_of_rel(
            *lhs,
            seq![operator_lexeme(o)] + tokens_of_add(rhs, rest),
        ),
    }
}

/// The tokens that an expression of `+` rank is written with, followed by `rest`.
pub open spec fn tokens_of_add(e: AddExp, rest: Seq<Lexeme>) -> Seq<Lexeme>
    decreases e,
{
    match e {
        AddExp::Mul(inner) => tokens_of_mul(inner, rest),
        AddExp::Add(lhs, o, rhs) => tokens_of_add(
            *lhs,
            seq![operator_lexeme(o)] + tokens_of_mul(rhs, rest),
        ),
    }
}

/// The tokens that an expression of `*` rank is written with, followed by `rest`.
pub open spec fn tokens_of_mul(e: MulExp, rest: Seq<Lexeme>) -> Seq<Lexeme>
    decreases e,
{
    match e {
        MulExp::Unary(inner) => tokens_of_unary(inner, rest),
        MulExp::Mul(lhs, o, rhs) => tokens_of_mul(
            *lhs,
            seq![operator_lexeme(o)] + tokens_of_unary(rhs, rest),
        ),
    }
}

/// The tokens that a unary expression or a call is written with, followed by `rest`.
pub open spec fn tokens_of_unary(e: UnaryExp, rest: Seq<Lexeme>) -> Seq<Lexeme>
    decreases e,
{
    match e {
        UnaryExp::Pri(pri) => tokens_of_primary(pri, rest),
        UnaryExp::Unary(o, una) => seq![unary_lexeme(o)] + tokens_of_unary(*una, rest),
        UnaryExp::FuncCall { ident, funcrparams } => seq![
            Lexeme::Identifier(ident@),
            delim(Delimiter::LParen),
        ] + match funcrparams {
            Some(params) => tokens_of_args(params, 0, seq![delim(Delimiter::RParen)] + rest),
            None => seq![delim(Delimiter::RParen)] + rest,
        },
    }
}

/// The tokens that the arguments from the `i`-th on are written with:
/// commas stand between them.
pub open spec fn tokens_of_args(params: FuncRParams, i: nat, rest: Seq<Lexeme>) -> Seq<Lexeme>
    decreases params, params.exps.len() - i,
{
    if i >= params.exps.len() {
        rest
    } else if i + 1 == params.exps.len() {
        tokens_of_exp(params.exps@[i as int], rest)
    } else {
        tokens_of_exp(
            params.exps@[i as int],
            seq![delim(Delimiter::Comma)] + tokens_of_args(params, i + 1, rest),
        )
    }
}

/// The tokens that a primary expression is written with, followed by `rest`.
pub open spec fn tokens_of_primary(e: PrimaryExp, rest: Seq<Lexeme>) -> Seq<Lexeme>
    decreases e,
{
    match e {
        PrimaryExp::Exp(exp) => seq![delim(Delimiter::LParen)] + tokens_of_exp(
            *exp,
            seq![delim(Delimiter::RParen)] + rest,
        ),
        PrimaryExp::Number(n) => seq![Lexeme::Number(n)] + rest,
        PrimaryExp::LVal(lval) => seq![Lexeme::Identifier(lval.ident@)] + rest,
    }
}

/// The tokens that a declaration is written with: `word` is `var` or `val`.
pub open spec fn tokens_of_declaration(
    word: Keyword,
    ident: Seq<char>,
    init: Exp,
    rest: Seq<Lexeme>,
) -> Seq<Lexeme> {
    seq![
        kw(word),
        Lexeme::Identifier(ident),
        delim(Delimiter::Colon),
        kw(Keyword::I32),
        op(Operator::Assign),
    ] + tokens_of_exp(init, seq![delim(Delimiter::Semi)] + rest)
}

/// The tokens that a declaration is written with, followed by `rest`.
pub open spec fn tokens_of_decl(d: Decl, rest: Seq<Lexeme>) -> Seq<Lexeme> {
    match d {
        Decl::VarDecl(decl) => tokens_of_declaration(
            Keyword::Var,
            decl.ident@,
            decl.initval.exp,
            rest,
        ),
        Decl::ValDecl(decl) => tokens_of_declaration(
            Keyword::Val,
            decl.ident@,
            decl.initval.exp,
            rest,
        ),
    }
}

/// The tokens that the formal parameters from the `i`-th on are written with.
pub open spec fn tokens_of_params(params: FuncFParams, i: nat, rest: Seq<Lexeme>) -> Seq<Lexeme>
    decreases params.params.len() - i,
{
    if i >= params.params.len() {
        rest
    } else {
        seq![
            Lexeme::Identifier(params.params@[i as int].ident@),
            delim(Delimiter::Colon),
            kw(Keyword::I32),
        ] + if i + 1 == params.params.len() {
            rest
        } else {
            seq![delim(Delimiter::Comma)] + tokens_of_params(params, i + 1, rest)
        }
    }
}

/// The tokens that the head of a function definition is written with:
/// all of it before the body.
pub open spec fn tokens_of_head(
    ident: Seq<char>,
    params: Option<FuncFParams>,
    btype: Option<BType>,
    rest: Seq<Lexeme>,
) -> Seq<Lexeme> {
    let result = match btype {
        Some(_) => seq![op(Operator::Arrow), kw(Keyword::I32)] + rest,
        None => rest,
    };
    let closed = seq![delim(Delimiter::RParen)] + result;
    seq![kw(Keyword::Fn), Lexeme::Identifier(ident), delim(Delimiter::LParen)] + match params {
        Some(params) => tokens_of_params(params, 0, closed),
        None => closed,
    }
}

/// The tokens that a function definition is written with.
pub open spec fn tokens_of_func(f: FuncDef, rest: Seq<Lexeme>) -> Seq<Lexeme>
    decreases f,
{
    tokens_of_head(f.ident@, f.funcfparams, f.btype, tokens_of_block(f.block, rest))
}

/// The tokens that a block is written with, followed by `rest`.
pub open spec fn tokens_of_block(b: Block, rest: Seq<Lexeme>) -> Seq<Lexeme>
    decreases b, b.items.len() + 1,
{
    seq![delim(Delimiter::LBrace)] + tokens_of_items(
        b,
        0,
        seq![delim(Delimiter::RBrace)] + rest,
    )
}

/// The tokens that the items of a block from the `i`-th on are written with.
pub open spec fn tokens_of_items(b: Block, i: nat, rest: Seq<Lexeme>) -> Seq<Lexeme>
    decreases b, b.items.len() - i,
{
    if i >= b.items.len() {
        rest
    } else {
        tokens_of_item(b.items@[i as int], tokens_of_items(b, i + 1, rest))
    }
}

/// The tokens that an item of a block is written with, followed by `rest`.
pub open spec fn tokens_of_item(item: BlockItem, rest: Seq<Lexeme>) -> Seq<Lexeme>
    decreases item,
{
    match item {
        BlockItem::Decl(decl) => tokens_of_decl(decl, rest),
        BlockItem::Stmt(stmt) => tokens_of_stmt(stmt, rest),
    }
}

/// The tokens that the `else` branch of an `if` is written with, where it has one.
pub open spec fn tokens_of_else(s: Option<Box<Stmt>>, rest: Seq<Lexeme>) -> Seq<Lexeme>
    decreases s,
{
    match s {
        None => rest,
        Some(other) => seq![kw(Keyword::Else)] + tokens_of_stmt(*other, rest),
    }
}

/// The tokens that a statement is written with.
pub open spec fn tokens_of_stmt(s: Stmt, rest: Seq<Lexeme>) -> Seq<Lexeme>
    decreases s,
{
    match s {
        Stmt::Assign(lval, exp) => seq![Lexeme::Identifier(lval.ident@), op(Operator::Assign)]
            + tokens_of_exp(exp, seq![delim(Delimiter::Semi)] + rest),
        Stmt::Block(block) => tokens_of_block(block, rest),
        Stmt::Exp(None) => seq![delim(Delimiter::Semi)] + rest,
        Stmt::Exp(Some(exp)) => tokens_of_exp(exp, seq![delim(Delimiter::Semi)] + rest),
        Stmt::Ret(None) => seq![kw(Keyword::Return), delim(Delimiter::Semi)] + rest,
        Stmt::Ret(Some(exp)) => seq![kw(Keyword::Return)] + tokens_of_exp(
            exp,
            seq![delim(Delimiter::Semi)] + rest,
        ),
        Stmt::If { condition, then_branch, else_branch } => written_condition(
            kw(Keyword::If),
            condition,
            tokens_of_stmt(*then_branch, tokens_of_else(else_branch, rest)),
        ),
        Stmt::While { condition, loopbody } => written_condition(
            kw(Keyword::While),
            condition,
            tokens_of_stmt(*loopbody, rest),
        ),
        Stmt::FuncDef(f) => tokens_of_func(f, rest),
        Stmt::Continue => seq![kw(Keyword::Continue), delim(Delimiter::Semi)] + rest,
        Stmt::Break => seq![kw(Keyword::Break), delim(Delimiter::Semi)] + rest,
    }
}

/// The tokens that the global definitions from the `i`-th on are written with.
pub open spec fn tokens_of_globals(defs: Seq<GlobalDef>, i: nat, rest: Seq<Lexeme>) -> Seq<Lexeme>
    decreases defs.len() - i,
{
    if i >= defs.len() {
        rest
    } else {
        let after = tokens_of_globals(defs, i + 1, rest);
        match defs[i as int] {
            GlobalDef::FuncDef(f) => tokens_of_func(f, after),
            GlobalDef::Decl(decl) => tokens_of_decl(decl, after),
        }
    }
}

/// The tokens that a program is written with, the end of the text being the last.
pub open spec fn tokens_of_unit(unit: CompUnit) -> Seq<Lexeme> {
    tokens_of_globals(unit.globaldefs@, 0, seq![Lexeme::EOF])
}

/// What the parser looks at in a token: all of it but the characters of a name.
#[derive(Debug, Clone, Copy, PartialEq, Eq, Structural)]
pub enum Kind {
    Keyword(Keyword),
    Identifier,
    Number(i32),
    Operator(Operator),
    Delimiters(Delimiter),
    EOF,
}

/// The kind of a token.
pub open spec fn kind_of(l: Lexeme) -> Kind {
    match l {
        Lexeme::Keyword(k) => Kind::Keyword(k),
        Lexeme::Identifier(_) => Kind::Identifier,
        Lexeme::Number(n) => Kind::Number(n),
        Lexeme::Operator(o) => Kind::Operator(o),
        Lexeme::Delimiters(d) => Kind::Delimiters(d),
        Lexeme::EOF => Kind::EOF,
    }
}

/// The tokens from index `pos` on.
pub open spec fn from(ls: Seq<Lexeme>, pos: nat) -> Seq<Lexeme> {
    ls.skip(pos as int)
}

/// The tokens from `pos` on are the token at `pos` and those after it.
pub proof fn lemma_skip(ls: Seq<Lexeme>, pos: nat)
    requires
        pos < ls.len(),
    ensures
        from(ls, pos) == seq![at(ls, pos)] + from(ls, pos + 1),
{
    assert(from(ls, pos) =~= seq![at(ls, pos)] + from(ls, pos + 1));
}

/// The tokens from `pos` on are the two tokens at `pos` and those after them.
pub proof fn lemma_skip2(ls: Seq<Lexeme>, pos: nat)
    requires
        pos + 1 < ls.len(),
    ensures
        from(ls, pos) == seq![at(ls, pos), at(ls, pos + 1)] + from(ls, pos + 2),
{
    assert(from(ls, pos) =~= seq![at(ls, pos), at(ls, pos + 1)] + from(ls, pos + 2));
}

/// The tokens from `pos` on are the three tokens at `pos` and those after them.
pub proof fn lemma_skip3(ls: Seq<Lexeme>, pos: nat)
    requires
        pos + 2 < ls.len(),
    ensures
        from(ls, pos) == seq![at(ls, pos), at(ls, pos + 1), at(ls, pos + 2)] + from(ls, pos + 3),
{
    assert(from(ls, pos) =~= seq![at(ls, pos), at(ls, pos + 1), at(ls, pos + 2)] + from(
        ls,
        pos + 3,
    ));
}

/// The tokens from `pos` on are the five tokens at `pos` and those after them.
pub proof fn lemma_skip5(ls: Seq<Lexeme>, pos: nat)
    requires
        pos + 4 < ls.len(),
    ensures
        from(ls, pos) == seq![
            at(ls, pos),
            at(ls, pos + 1),
            at(ls, pos + 2),
            at(ls, pos + 3),
            at(ls, pos + 4),
        ] + from(ls, pos + 5),
{
    assert(from(ls, pos) =~= seq![
        at(ls, pos),
        at(ls, pos + 1),
        at(ls, pos + 2),
        at(ls, pos + 3),
        at(ls, pos + 4),
    ] + from(ls, pos + 5));
}

/// A parser over a sequence of tokens.
pub struct Parser {
    tokens: Vec<Token>,
    position: usize,
}

impl Parser {
    /// The tokens that are parsed.
    pub closed spec fn lexemes(&self) -> Seq<Lexeme> {
        tokens_view(self.tokens@)
    }

    /// The index of the token at which the parser stands.
    pub closed spec fn position(&self) -> nat {
        self.position as nat
    }

    /// The parser stands within its tokens.
    pub closed spec fn wf(&self) -> bool {
        self.position <= self.tokens.len()
    }

    /// The token `offset` tokens ahead of where the parser stands.
    pub open spec fn ahead_at(&self, offset: usize) -> Lexeme {
        at(self.lexemes(), (self.position() + offset) as nat)
    }

    /// The tokens from where the parser stands.
    pub open spec fn ahead(&self) -> Seq<Lexeme> {
        from(self.lexemes(), self.position())
    }

    /// A parser at the first of `tokens`.
    pub fn new(tokens: Vec<Token>) -> (parser: Self)
        ensures
            parser.wf(),
            parser.lexemes() == tokens_view(tokens@),
            parser.position() == 0,
    {
        Parser { tokens, position: 0 }
    }

    /// The kind of the token `offset` tokens ahead.
    fn peek(&self, offset: usize) -> (k: Kind)
        requires
            self.wf(),
        ensures
            k == kind_of(self.ahead_at(offset)),
            k != Kind::EOF ==> self.position() + offset < self.lexemes().len(),
    {
        if offset >= self.tokens.len() - self.position {
            return Kind::EOF;
        }
        match &self.tokens[self.position + offset] {
            Token::Keyword(k) => Kind::Keyword(*k),
            Token::Identifier(_) => Kind::Identifier,
            Token::Number(n) => Kind::Number(*n),
            Token::Operator(o) => Kind::Operator(*o),
            Token::Delimiters(d) => Kind::Delimiters(*d),
            Token::EOF => Kind::EOF,
        }
    }

    /// The name that stands `offset` tokens ahead.
    fn consume_identifier(&self, offset: usize) -> (name: String)
        requires
            self.wf(),
            self.ahead_at(offset) is Identifier,
        ensures
            self.ahead_at(offset) == Lexeme::Identifier(name@),
    {
        match &self.tokens[self.position + offset] {
            Token::Identifier(name) => name.clone(),
            // Not reached: the token is a name.
            _ => String::new(),
        }
    }

    /// Moves `n` tokens on.
    fn next(&mut self, n: usize)
        requires
            old(self).wf(),
            old(self).position() + n <= old(self).lexemes().len(),
        ensures
            final(self).wf(),
            final(self).lexemes() == old(self).lexemes(),
            final(self).position() == old(self).position() + n,
    {
        self.position = self.position + n;
    }

    /// Moves past the token `expected`, which must stand `offset` tokens ahead.
    fn match_token(&mut self, offset: usize, expected: Kind) -> (r: Result<(), Error>)
        requires
            old(self).wf(),
            old(self).position() + offset <= old(self).lexemes().len(),
            expected != Kind::EOF,
            expected != Kind::Identifier,
        ensures
            final(self).wf(),
            final(self).lexemes() == old(self).lexemes(),
            kind_of(old(self).ahead_at(offset)) == expected ==> r is Ok && final(self).position()
                == old(self).position() + offset + 1,
            kind_of(old(self).ahead_at(offset)) != expected ==> r == Err::<(), Error>(
                Error::ParserError((old(self).position() + offset) as usize),
            ),
    {
        if self.peek(offset) == expected {
            self.next(offset + 1);
            Ok(())
        } else {
            Err(self.unexpected(offset))
        }
    }

    /// The error for the token `offset` tokens ahead.
    fn unexpected(&self, offset: usize) -> (e: Error)
        requires
            self.wf(),
            self.position() + offset <= self.lexemes().len(),
        ensures
            e == Error::ParserError((self.position() + offset) as usize),
    {
        Error::ParserError(self.position + offset)
    }
}

impl Parser {
    /// Parses an expression.
    fn parse_exp(&mut self) -> (r: Result<Exp, Error>)
        requires
            old(self).wf(),
        ensures
            final(self).wf(),
            final(self).lexemes() == old(self).lexemes(),
            match takes_exp(old(self).lexemes(), old(self).position()) {
                Ok(k) => r matches Ok(node) && final(self).position() == old(self).position() + k
                    && tokens_of_exp(node, final(self).ahead()) == old(self).ahead(),
                Err(at) => r matches Err(Error::ParserError(p)) && p == at,
            },
        decreases remaining(old(self).lexemes(), old(self).position()), 20nat,
    {
        match self.parse_lor() {
            Ok(lor_exp) => Ok(Exp { lor_exp }),
            Err(e) => Err(e),
        }
    }

    /// Whether the parser stands at the operator of `lor` rank.
    fn lor_operator(&self) -> (o: Option<()>)
        requires
            self.wf(),
        ensures
            o is Some == (at(self.lexemes(), self.position()) == op(Operator::OrOr)),
            o is Some ==> self.position() < self.lexemes().len(),
    {
        if self.peek(0) == Kind::Operator(Operator::OrOr) {
            Some(())
        } else {
            None
        }
    }

    fn parse_lor(&mut self) -> (r: Result<LOrExp, Error>)
        requires
            old(self).wf(),
        ensures
            final(self).wf(),
            final(self).lexemes() == old(self).lexemes(),
            match takes_lor(old(self).lexemes(), old(self).position()) {
                Ok(k) => r matches Ok(node) && final(self).position() == old(self).position() + k
                    && tokens_of_lor(node, final(self).ahead()) == old(self).ahead(),
                Err(at) => r matches Err(Error::ParserError(p)) && p == at,
            },
        decreases remaining(old(self).lexemes(), old(self).position()), 19nat,
    {
        let ghost start = self.position();
        match self.parse_land() {
            Err(e) => Err(e),
            Ok(first) => self.parse_lor_tail(LOrExp::And(first), Ghost(start)),
        }
    }

    /// Parses the operators of `lor` rank and their right operands from
    /// where the parser stands; `lhs` is what was parsed from `start` to there.
    fn parse_lor_tail(&mut self, lhs: LOrExp, Ghost(start): Ghost<nat>) -> (r: Result<LOrExp, Error>)
        requires
            old(self).wf(),
            tokens_of_lor(lhs, old(self).ahead()) == from(old(self).lexemes(), start),
        ensures
            final(self).wf(),
            final(self).lexemes() == old(self).lexemes(),
            match takes_lor_tail(old(self).lexemes(), old(self).position()) {
                Ok(k) => r matches Ok(node) && final(self).position() == old(self).position() + k
                    && tokens_of_lor(node, final(self).ahead()) == from(
                    old(self).lexemes(),
                    start,
                ),
                Err(at) => r matches Err(Error::ParserError(p)) && p == at,
            },
        decreases remaining(old(self).lexemes(), old(self).position()), 18nat,
    {
        match self.lor_operator() {
            None => Ok(lhs),
            Some(_) => {
                proof {
                    lemma_skip(self.lexemes(), self.position());
                }
                self.next(1);
                match self.parse_land() {
                    Err(e) => Err(e),
                    Ok(rhs) => self.parse_lor_tail(LOrExp::Or(Box::new(lhs), rhs), Ghost(start)),
                }
            },
        }
    }

    /// Whether the parser stands at the operator of `land` rank.
    fn land_operator(&self) -> (o: Option<()>)
        requires
            self.wf(),
        ensures
            o is Some == (at(self.lexemes(), self.position()) == op(Operator::AndAnd)),
            o is Some ==> self.position() < self.lexemes().len(),
    {
        if self.peek(0) == Kind::Operator(Operator::AndAnd) {
            Some(())
        } else {
            None
        }
    }

    fn parse_land(&mut self) -> (r: Result<LAndExp, Error>)
        requires
            old(self).wf(),
        ensures
            final(self).wf(),
            final(self).lexemes() == old(self).lexemes(),
            match takes_land(old(self).lexemes(), old(self).position()) {
                Ok(k) => r matches Ok(node) && final(self).position() == old(self).position() + k
                    && tokens_of_land(node, final(self).ahead()) == old(self).ahead(),
                Err(at) => r matches Err(Error::ParserError(p)) && p == at,
            },
        decreases remaining(old(self).lexemes(), old(self).position()), 17nat,
    {
        let ghost start = self.position();
        match self.parse_eq() {
            Err(e) => Err(e),
            Ok(first) => self.parse_land_tail(LAndExp::Eq(first), Ghost(start)),
        }
    }

    /// Parses the operators of `land` rank and their right operands from
    /// where the parser stands; `lhs` is what was parsed from `start` to there.
    fn parse_land_tail(&mut self, lhs: LAndExp, Ghost(start): Ghost<nat>) -> (r: Result<LAndExp, Error>)
        requires
            old(self).wf(),
            tokens_of_land(lhs, old(self).ahead()) == from(old(self).lexemes(), start),
        ensures
            final(self).wf(),
            final(self).lexemes() == old(self).lexemes(),
            match takes_land_tail(old(self).lexemes(), old(self).position()) {
                Ok(k) => r matches Ok(node) && final(self).position() == old(self).position() + k
                    && tokens_of_land(node, final(self).ahead()) == from(
                    old(self).lexemes(),
                    start,
                ),
                Err(at) => r matches Err(Error::ParserError(p)) && p == at,
            },
        decreases remaining(old(self).lexemes(), old(self).position()), 16nat,
    {
        match self.land_operator() {
            None => Ok(lhs),
            Some(_) => {
                proof {
                    lemma_skip(self.lexemes(), self.position());
                }
                self.next(1);
                match self.parse_eq() {
                    Err(e) => Err(e),
                    Ok(rhs) => self.parse_land_tail(LAndExp::And(Box::new(lhs), rhs), Ghost(start)),
                }
            },
        }
    }

    /// The operator of `eq` rank at which the parser stands, if it stands at one.
    fn eq_operator(&self) -> (o: Option<BinaryOp>)
        requires
            self.wf(),
        ensures
            o == eq_operator(at(self.lexemes(), self.position())),
            o matches Some(found) ==> self.position() < self.lexemes().len() && at(
                self.lexemes(),
                self.position(),
            ) == operator_lexeme(found),
    {
        match self.peek(0) {
            Kind::Operator(Operator::EqEq) => Some(BinaryOp::Eq),
            Kind::Operator(Operator::Ne) => Some(BinaryOp::Neq),
            _ => None,
        }
    }

    fn parse_eq(&mut self) -> (r: Result<EqExp, Error>)
        requires
            old(self).wf(),
        ensures
            final(self).wf(),
            final(self).lexemes() == old(self).lexemes(),
            match takes_eq(old(self).lexemes(), old(self).position()) {
                Ok(k) => r matches Ok(node) && final(self).position() == old(self).position() + k
                    && tokens_of_eq(node, final(self).ahead()) == old(self).ahead(),
                Err(at) => r matches Err(Error::ParserError(p)) && p == at,
            },
        decreases remaining(old(self).lexemes(), old(self).position()), 15nat,
    {
        let ghost start = self.position();
        match self.parse_rel() {
            Err(e) => Err(e),
            Ok(first) => self.parse_eq_tail(EqExp::Rel(first), Ghost(start)),
        }
    }

    /// Parses the operators of `eq` rank and their right operands from
    /// where the parser stands; `lhs` is what was parsed from `start` to there.
    fn parse_eq_tail(&mut self, lhs: EqExp, Ghost(start): Ghost<nat>) -> (r: Result<EqExp, Error>)
        requires
            old(self).wf(),
            tokens_of_eq(lhs, old(self).ahead()) == from(old(self).lexemes(), start),
        ensures
            final(self).wf(),
            final(self).lexemes() == old(self).lexemes(),
            match takes_eq_tail(old(self).lexemes(), old(self).position()) {
                Ok(k) => r matches Ok(node) && final(self).position() == old(self).position() + k
                    && tokens_of_eq(node, final(self).ahead()) == from(
                    old(self).lexemes(),
                    start,
                ),
                Err(at) => r matches Err(Error::ParserError(p)) && p == at,
            },
        decreases remaining(old(self).lexemes(), old(self).position()), 14nat,
    {
        match self.eq_operator() {
            None => Ok(lhs),
            Some(o) => {
                proof {
                    lemma_skip(self.lexemes(), self.position());
                }
                self.next(1);
                match self.parse_rel() {
                    Err(e) => Err(e),
                    Ok(rhs) => self.parse_eq_tail(EqExp::Eq(Box::new(lhs), o, rhs), Ghost(start)),
                }
            },
        }
    }

    /// The operator of `rel` rank at which the parser stands, if it stands at one.
    fn rel_operator(&self) -> (o: Option<BinaryOp>)
        requires
            self.wf(),
        ensures
            o == rel_operator(at(self.lexemes(), self.position())),
            o matches Some(found) ==> self.position() < self.lexemes().len() && at(
                self.lexemes(),
                self.position(),
            ) == operator_lexeme(found),
    {
        match self.peek(0) {
            Kind::Operator(Operator::Lt) => Some(BinaryOp::Lt),
            Kind::Operator(Operator::Gt) => Some(BinaryOp::Gt),
            Kind::Operator(Operator::Le) => Some(BinaryOp::Leq),
            Kind::Operator(Operator::Ge) => Some(BinaryOp::Geq),
            _ => None,
        }
    }

    fn parse_rel(&mut self) -> (r: Result<RelExp, Error>)
        requires
            old(self).wf(),
        ensures
            final(self).wf(),
            final(self).lexemes() == old(self).lexemes(),
            match takes_rel(old(self).lexemes(), old(self).position()) {
                Ok(k) => r matches Ok(node) && final(self).position() == old(self).position() + k
                    && tokens_of_rel(node, final(self).ahead()) == old(self).ahead(),
                Err(at) => r matches Err(Error::ParserError(p)) && p == at,
            },
        decreases remaining(old(self).lexemes(), old(self).position()), 13nat,
    {
        let ghost start = self.position();
        match self.parse_add() {
            Err(e) => Err(e),
            Ok(first) => self.parse_rel_tail(RelExp::Add(first), Ghost(start)),
        }
    }

    /// Parses the operators of `rel` rank and their right operands from
    /// where the parser stands; `lhs` is what was parsed from `start` to there.
    fn parse_rel_tail(&mut self, lhs: RelExp, Ghost(start): Ghost<nat>) -> (r: Result<RelExp, Error>)
        requires
            old(self).wf(),
            tokens_of_rel(lhs, old(self).ahead()) == from(old(self).lexemes(), start),
        ensures
            final(self).wf(),
            final(self).lexemes() == old(self).lexemes(),
            match takes_rel_tail(old(self).lexemes(), old(self).position()) {
                Ok(k) => r matches Ok(node) && final(self).position() == old(self).position() + k
                    && tokens_of_rel(node, final(self).ahead()) == from(
                    old(self).lexemes(),
                    start,
                ),
                Err(at) => r matches Err(Error::ParserError(p)) && p == at,
            },
        decreases remaining(old(self).lexemes(), old(self).position()), 12nat,
    {
        match self.rel_operator() {
            None => Ok(lhs),
            Some(o) => {
                proof {
                    lemma_skip(self.lexemes(), self.position());
                }
                self.next(1);
                match self.parse_add() {
                    Err(e) => Err(e),
                    Ok(rhs) => self.parse_rel_tail(RelExp::Rel(Box::new(lhs), o, rhs), Ghost(start)),
                }
            },
        }
    }

    /// The operator of `add` rank at which the parser stands, if it stands at one.
    fn add_operator(&self) -> (o: Option<BinaryOp>)
        requires
            self.wf(),
        ensures
            o == add_operator(at(self.lexemes(), self.position())),
            o matches Some(found) ==> self.position() < self.lexemes().len() && at(
                self.lexemes(),
                self.position(),
            ) == operator_lexeme(found),
    {
        match self.peek(0) {
            Kind::Operator(Operator::Plus) => Some(BinaryOp::Add),
            Kind::Operator(Operator::Minus) => Some(BinaryOp::Sub),
            _ => None,
        }
    }

    fn parse_add(&mut self) -> (r: Result<AddExp, Error>)
        requires
            old(self).wf(),
        ensures
            final(self).wf(),
            final(self).lexemes() == old(self).lexemes(),
            match takes_add(old(self).lexemes(), old(self).position()) {
                Ok(k) => r matches Ok(node) && final(self).position() == old(self).position() + k
                    && tokens_of_add(node, final(self).ahead()) == old(self).ahead(),
                Err(at) => r matches Err(Error::ParserError(p)) && p == at,
            },
        decreases remaining(old(self).lexemes(), old(self).position()), 11nat,
    {
        let ghost start = self.position();
        match self.parse_mul() {
            Err(e) => Err(e),
            Ok(first) => self.parse_add_tail(AddExp::Mul(first), Ghost(start)),
        }
    }

    /// Parses the operators of `add` rank and their right operands from
    /// where the parser stands; `lhs` is what was parsed from `start` to there.
    fn parse_add_tail(&mut self, lhs: AddExp, Ghost(start): Ghost<nat>) -> (r: Result<AddExp, Error>)
        requires
            old(self).wf(),
            tokens_of_add(lhs, old(self).ahead()) == from(old(self).lexemes(), start),
        ensures
            final(self).wf(),
            final(self).lexemes() == old(self).lexemes(),
            match takes_add_tail(old(self).lexemes(), old(self).position()) {
                Ok(k) => r matches Ok(node) && final(self).position() == old(self).position() + k
                    && tokens_of_add(node, final(self).ahead()) == from(
                    old(self).lexemes(),
                    start,
                ),
                Err(at) => r matches Err(Error::ParserError(p)) && p == at,
            },
        decreases remaining(old(self).lexemes(), old(self).position()), 10nat,
    {
        match self.add_operator() {
            None => Ok(lhs),
            Some(o) => {
                proof {
                    lemma_skip(self.lexemes(), self.position());
                }
                self.next(1);
                match self.parse_mul() {
                    Err(e) => Err(e),
                    Ok(rhs) => self.parse_add_tail(AddExp::Add(Box::new(lhs), o, rhs), Ghost(start)),
                }
            },
        }
    }

    /// The operator of `mul` rank at which the parser stands, if it stands at one.
    fn mul_operator(&self) -> (o: Option<BinaryOp>)
        requires
            self.wf(),
        ensures
            o == mul_operator(at(self.lexemes(), self.position())),
            o matches Some(found) ==> self.position() < self.lexemes().len() && at(
                self.lexemes(),
                self.position(),
            ) == operator_lexeme(found),
    {
        match self.peek(0) {
            Kind::Operator(Operator::Star) => Some(BinaryOp::Mul),
            Kind::Operator(Operator::Slash) => Some(BinaryOp::Div),
            Kind::Operator(Operator::Percent) => Some(BinaryOp::Mod),
            _ => None,
        }
    }

    fn parse_mul(&mut self) -> (r: Result<MulExp, Error>)
        requires
            old(self).wf(),
        ensures
            final(self).wf(),
            final(self).lexemes() == old(self).lexemes(),
            match takes_mul(old(self).lexemes(), old(self).position()) {
                Ok(k) => r matches Ok(node) && final(self).position() == old(self).position() + k
                    && tokens_of_mul(node, final(self).ahead()) == old(self).ahead(),
                Err(at) => r matches Err(Error::ParserError(p)) && p == at,
            },
        decreases remaining(old(self).lexemes(), old(self).position()), 9nat,
    {
        let ghost start = self.position();
        match self.parse_unary() {
            Err(e) => Err(e),
            Ok(first) => self.parse_mul_tail(MulExp::Unary(first), Ghost(start)),
        }
    }

    /// Parses the operators of `mul` rank and their right operands from
    /// where the parser stands; `lhs` is what was parsed from `start` to there.
    fn parse_mul_tail(&mut self, lhs: MulExp, Ghost(start): Ghost<nat>) -> (r: Result<MulExp, Error>)
        requires
            old(self).wf(),
            tokens_of_mul(lhs, old(self).ahead()) == from(old(self).lexemes(), start),
        ensures
            final(self).wf(),
            final(self).lexemes() == old(self).lexemes(),
            match takes_mul_tail(old(self).lexemes(), old(self).position()) {
                Ok(k) => r matches Ok(node) && final(self).position() == old(self).position() + k
                    && tokens_of_mul(node, final(self).ahead()) == from(
                    old(self).lexemes(),
                    start,
                ),
                Err(at) => r matches Err(Error::ParserError(p)) && p == at,
            },
        decreases remaining(old(self).lexemes(), old(self).position()), 8nat,
    {
        match self.mul_operator() {
            None => Ok(lhs),
            Some(o) => {
                proof {
                    lemma_skip(self.lexemes(), self.position());
                }
                self.next(1);
                match self.parse_unary() {
                    Err(e) => Err(e),
                    Ok(rhs) => self.parse_mul_tail(MulExp::Mul(Box::new(lhs), o, rhs), Ghost(start)),
                }
            },
        }
    }

    fn parse_unary(&mut self) -> (r: Result<UnaryExp, Error>)
        requires
            old(self).wf(),
        ensures
            final(self).wf(),
            final(self).lexemes() == old(self).lexemes(),
            match takes_unary(old(self).lexemes(), old(self).position()) {
                Ok(k) => r matches Ok(node) && final(self).position() == old(self).position() + k
                    && tokens_of_unary(node, final(self).ahead()) == old(self).ahead(),
                Err(at) => r matches Err(Error::ParserError(p)) && p == at,
            },
        decreases remaining(old(self).lexemes(), old(self).position()), 7nat,
    {
        let first = self.peek(0);
        if first == Kind::Operator(Operator::Minus) || first == Kind::Operator(Operator::Not) {
            let o = if first == Kind::Operator(Operator::Minus) {
                UnaryOp::Neg
            } else {
                UnaryOp::Not
            };
            proof {
                lemma_skip(self.lexemes(), self.position());
            }
            self.next(1);
            match self.parse_unary() {
                Err(e) => Err(e),
                Ok(inner) => Ok(UnaryExp::Unary(o, Box::new(inner))),
            }
        } else if first == Kind::Identifier && self.peek(1) == Kind::Delimiters(
            Delimiter::LParen,
        ) {
            let ident = self.consume_identifier(0);
            proof {
                lemma_skip2(self.lexemes(), self.position());
            }
            if self.peek(2) == Kind::Delimiters(Delimiter::RParen) {
                proof {
                    lemma_skip(self.lexemes(), self.position() + 2);
                }
                self.next(3);
                Ok(UnaryExp::FuncCall { ident, funcrparams: None })
            } else {
                self.next(2);
                match self.parse_args(Vec::new()) {
                    Err(e) => Err(e),
                    Ok(exps) => {
                        proof {
                            if self.position() < self.lexemes().len() {
                                lemma_skip(self.lexemes(), self.position());
                            }
                        }
                        match self.match_token(0, Kind::Delimiters(Delimiter::RParen)) {
                            Err(e) => Err(e),
                            Ok(()) => Ok(
                                UnaryExp::FuncCall {
                                    ident,
                                    funcrparams: Some(FuncRParams { exps }),
                                },
                            ),
                        }
                    },
                }
            }
        } else {
            match self.parse_primary() {
                Err(e) => Err(e),
                Ok(pri) => Ok(UnaryExp::Pri(pri)),
            }
        }
    }

    /// Parses the arguments of a call after those in `before`.
    fn parse_args(&mut self, before: Vec<Exp>) -> (r: Result<Vec<Exp>, Error>)
        requires
            old(self).wf(),
        ensures
            final(self).wf(),
            final(self).lexemes() == old(self).lexemes(),
            match takes_args(old(self).lexemes(), old(self).position()) {
                Ok(k) => r matches Ok(exps) && final(self).position() == old(self).position() + k
                    && exps.len() > before.len() && exps@.take(before.len() as int) == before@
                    && tokens_of_args(
                    FuncRParams { exps },
                    before.len() as nat,
                    final(self).ahead(),
                ) == old(self).ahead(),
                Err(at) => r matches Err(Error::ParserError(p)) && p == at,
            },
        decreases remaining(old(self).lexemes(), old(self).position()), 21nat,
    {
        let mut exps = before;
        match self.parse_exp() {
            Err(e) => Err(e),
            Ok(exp) => {
                let ghost n = exps.len();
                exps.push(exp);
                proof {
                    assert(exps@.take(n as int) =~= before@);
                }
                if self.peek(0) == Kind::Delimiters(Delimiter::Comma) {
                    proof {
                        lemma_skip(self.lexemes(), self.position());
                    }
                    self.next(1);
                    let ghost sofar = exps@;
                    match self.parse_args(exps) {
                        Err(e) => Err(e),
                        Ok(all) => {
                            proof {
                                assert(all@[n as int] == sofar[n as int]);
                                assert(all@.take(n as int) =~= sofar.take(n as int));
                            }
                            Ok(all)
                        },
                    }
                } else {
                    Ok(exps)
                }
            },
        }
    }

    fn parse_primary(&mut self) -> (r: Result<PrimaryExp, Error>)
        requires
            old(self).wf(),
        ensures
            final(self).wf(),
            final(self).lexemes() == old(self).lexemes(),
            match takes_primary(old(self).lexemes(), old(self).position()) {
                Ok(k) => r matches Ok(node) && final(self).position() == old(self).position() + k
                    && tokens_of_primary(node, final(self).ahead()) == old(self).ahead(),
                Err(at) => r matches Err(Error::ParserError(p)) && p == at,
            },
        decreases remaining(old(self).lexemes(), old(self).position()), 5nat,
    {
        match self.peek(0) {
            Kind::Delimiters(Delimiter::LParen) => {
                proof {
                    lemma_skip(self.lexemes(), self.position());
                }
                self.next(1);
                match self.parse_exp() {
                    Err(e) => Err(e),
                    Ok(exp) => {
                        proof {
                            if self.position() < self.lexemes().len() {
                                lemma_skip(self.lexemes(), self.position());
                            }
                        }
                        match self.match_token(0, Kind::Delimiters(Delimiter::RParen)) {
                            Err(e) => Err(e),
                            Ok(()) => Ok(PrimaryExp::Exp(Box::new(exp))),
                        }
                    },
                }
            },
            Kind::Number(n) => {
                proof {
                    lemma_skip(self.lexemes(), self.position());
                }
                self.next(1);
                Ok(PrimaryExp::Number(n))
            },
            Kind::Identifier => {
                let ident = self.consume_identifier(0);
                proof {
                    lemma_skip(self.lexemes(), self.position());
                }
                self.next(1);
                Ok(PrimaryExp::LVal(LVal { ident }))
            },
            _ => Err(self.unexpected(0)),
        }
    }
}

impl Parser {
    /// Moves past the semicolon at which the parser must stand.
    fn semicolon(&mut self) -> (r: Result<(), Error>)
        requires
            old(self).wf(),
        ensures
            final(self).wf(),
            final(self).lexemes() == old(self).lexemes(),
            match expect(old(self).lexemes(), old(self).position(), delim(Delimiter::Semi), 1) {
                Ok(_) => r is Ok && final(self).position() == old(self).position() + 1 && seq![
                    delim(Delimiter::Semi),
                ] + final(self).ahead() == old(self).ahead(),
                Err(at) => r matches Err(Error::ParserError(p)) && p == at,
            },
    {
        proof {
            if self.position() < self.lexemes().len() {
                lemma_skip(self.lexemes(), self.position());
            }
        }
        self.match_token(0, Kind::Delimiters(Delimiter::Semi))
    }

    /// Parses a declaration.
    fn parse_decl(&mut self) -> (r: Result<Decl, Error>)
        requires
            old(self).wf(),
        ensures
            final(self).wf(),
            final(self).lexemes() == old(self).lexemes(),
            match takes_decl(old(self).lexemes(), old(self).position()) {
                Ok(k) => r matches Ok(node) && final(self).position() == old(self).position() + k
                    && tokens_of_decl(node, final(self).ahead()) == old(self).ahead(),
                Err(at) => r matches Err(Error::ParserError(p)) && p == at,
            },
    {
        let word = self.peek(0);
        if !(word == Kind::Keyword(Keyword::Var) || word == Kind::Keyword(Keyword::Val)) {
            return Err(self.unexpected(0));
        }
        if self.peek(1) != Kind::Identifier {
            return Err(self.unexpected(1));
        }
        let ident = self.consume_identifier(1);
        if self.peek(2) != Kind::Delimiters(Delimiter::Colon) {
            return Err(self.unexpected(2));
        }
        if self.peek(3) != Kind::Keyword(Keyword::I32) {
            return Err(self.unexpected(3));
        }
        if self.peek(4) != Kind::Operator(Operator::Assign) {
            return Err(self.unexpected(4));
        }
        proof {
            lemma_skip5(self.lexemes(), self.position());
        }
        self.next(5);
        let exp = match self.parse_exp() {
            Ok(exp) => exp,
            Err(e) => {
                return Err(e);
            },
        };
        match self.semicolon() {
            Err(e) => Err(e),
            Ok(()) => {
                if word == Kind::Keyword(Keyword::Var) {
                    Ok(Decl::VarDecl(VarDecl { ident, btype: BType::I32, initval: InitVal { exp } }))
                } else {
                    Ok(Decl::ValDecl(ValDecl { ident, btype: BType::I32, initval: InitVal { exp } }))
                }
            },
        }
    }

    /// Parses the formal parameters after those in `before`.
    fn parse_params(&mut self, before: Vec<FuncFParam>) -> (r: Result<Vec<FuncFParam>, Error>)
        requires
            old(self).wf(),
        ensures
            final(self).wf(),
            final(self).lexemes() == old(self).lexemes(),
            match takes_params(old(self).lexemes(), old(self).position()) {
                Ok(k) => r matches Ok(params) && final(self).position() == old(self).position()
                    + k && params.len() > before.len() && params@.take(before.len() as int)
                    == before@ && tokens_of_params(
                    FuncFParams { params },
                    before.len() as nat,
                    final(self).ahead(),
                ) == old(self).ahead(),
                Err(at) => r matches Err(Error::ParserError(p)) && p == at,
            },
        decreases remaining(old(self).lexemes(), old(self).position()),
    {
        if self.peek(0) != Kind::Identifier {
            return Err(self.unexpected(0));
        }
        let ident = self.consume_identifier(0);
        if self.peek(1) != Kind::Delimiters(Delimiter::Colon) {
            return Err(self.unexpected(1));
        }
        if self.peek(2) != Kind::Keyword(Keyword::I32) {
            return Err(self.unexpected(2));
        }
        let mut params = before;
        let ghost n = params.len();
        params.push(FuncFParam { ident, btype: BType::I32 });
        proof {
            lemma_skip3(self.lexemes(), self.position());
            assert(params@.take(n as int) =~= before@);
        }
        if self.peek(3) == Kind::Delimiters(Delimiter::Comma) {
            proof {
                lemma_skip(self.lexemes(), self.position() + 3);
            }
            self.next(4);
            let ghost sofar = params@;
            match self.parse_params(params) {
                Err(e) => Err(e),
                Ok(all) => {
                    proof {
                        assert(all@[n as int] == sofar[n as int]);
                        assert(all@.take(n as int) =~= sofar.take(n as int));
                    }
                    Ok(all)
                },
            }
        } else {
            self.next(3);
            Ok(params)
        }
    }

    /// Parses the head of a function definition: its name, its formal
    /// parameters and its result type.
    fn parse_head(&mut self) -> (r: Result<(String, Option<FuncFParams>, Option<BType>), Error>)
        requires
            old(self).wf(),
        ensures
            final(self).wf(),
            final(self).lexemes() == old(self).lexemes(),
            match takes_head(old(self).lexemes(), old(self).position()) {
                Ok(k) => r matches Ok(head) && final(self).position() == old(self).position() + k
                    && tokens_of_head(head.0@, head.1, head.2, final(self).ahead()) == old(
                    self,
                ).ahead(),
                Err(at) => r matches Err(Error::ParserError(p)) && p == at,
            },
    {
        if self.peek(0) != Kind::Keyword(Keyword::Fn) {
            return Err(self.unexpected(0));
        }
        if self.peek(1) != Kind::Identifier {
            return Err(self.unexpected(1));
        }
        let ident = self.consume_identifier(1);
        if self.peek(2) != Kind::Delimiters(Delimiter::LParen) {
            return Err(self.unexpected(2));
        }
        proof {
            lemma_skip3(self.lexemes(), self.position());
        }
        self.next(3);
        let params = if self.peek(0) == Kind::Delimiters(Delimiter::RParen) {
            None
        } else {
            match self.parse_params(Vec::new()) {
                Ok(params) => Some(FuncFParams { params }),
                Err(e) => {
                    return Err(e);
                },
            }
        };
        proof {
            if self.position() < self.lexemes().len() {
                lemma_skip(self.lexemes(), self.position());
            }
        }
        match self.match_token(0, Kind::Delimiters(Delimiter::RParen)) {
            Err(e) => {
                return Err(e);
            },
            Ok(()) => {},
        }
        if self.peek(0) != Kind::Operator(Operator::Arrow) {
            return Ok((ident, params, None));
        }
        proof {
            if self.position() + 1 < self.lexemes().len() {
                lemma_skip2(self.lexemes(), self.position());
            }
        }
        match self.match_token(1, Kind::Keyword(Keyword::I32)) {
            Err(e) => Err(e),
            Ok(()) => Ok((ident, params, Some(BType::I32))),
        }
    }

    /// Parses a function definition.
    fn parse_func(&mut self) -> (r: Result<FuncDef, Error>)
        requires
            old(self).wf(),
        ensures
            final(self).wf(),
            final(self).lexemes() == old(self).lexemes(),
            match takes_func(old(self).lexemes(), old(self).position()) {
                Ok(k) => r matches Ok(node) && final(self).position() == old(self).position() + k
                    && tokens_of_func(node, final(self).ahead()) == old(self).ahead(),
                Err(at) => r matches Err(Error::ParserError(p)) && p == at,
            },
        decreases remaining(old(self).lexemes(), old(self).position()), 24nat,
    {
        let (ident, funcfparams, btype) = match self.parse_head() {
            Ok(head) => head,
            Err(e) => {
                return Err(e);
            },
        };
        match self.parse_block() {
            Err(e) => Err(e),
            Ok(block) => Ok(FuncDef { ident, btype, funcfparams, block }),
        }
    }

    /// Parses a block.
    fn parse_block(&mut self) -> (r: Result<Block, Error>)
        requires
            old(self).wf(),
        ensures
            final(self).wf(),
            final(self).lexemes() == old(self).lexemes(),
            match takes_block(old(self).lexemes(), old(self).position()) {
                Ok(k) => r matches Ok(node) && final(self).position() == old(self).position() + k
                    && tokens_of_block(node, final(self).ahead()) == old(self).ahead(),
                Err(at) => r matches Err(Error::ParserError(p)) && p == at,
            },
        decreases remaining(old(self).lexemes(), old(self).position()), 22nat,
    {
        if self.peek(0) != Kind::Delimiters(Delimiter::LBrace) {
            return Err(self.unexpected(0));
        }
        proof {
            lemma_skip(self.lexemes(), self.position());
        }
        self.next(1);
        let items = match self.parse_items(Vec::new()) {
            Ok(items) => items,
            Err(e) => {
                return Err(e);
            },
        };
        proof {
            if self.position() < self.lexemes().len() {
                lemma_skip(self.lexemes(), self.position());
            }
        }
        match self.match_token(0, Kind::Delimiters(Delimiter::RBrace)) {
            Err(e) => Err(e),
            Ok(()) => Ok(Block { items }),
        }
    }

    /// Parses the items of a block after those in `before`.
    fn parse_items(&mut self, before: Vec<BlockItem>) -> (r: Result<Vec<BlockItem>, Error>)
        requires
            old(self).wf(),
        ensures
            final(self).wf(),
            final(self).lexemes() == old(self).lexemes(),
            match takes_items(old(self).lexemes(), old(self).position()) {
                Ok(k) => r matches Ok(items) && final(self).position() == old(self).position() + k
                    && items.len() >= before.len() && items@.take(before.len() as int) == before@
                    && tokens_of_items(Block { items }, before.len() as nat, final(self).ahead())
                    == old(self).ahead(),
                Err(at) => r matches Err(Error::ParserError(p)) && p == at,
            },
        decreases remaining(old(self).lexemes(), old(self).position()), 30nat,
    {
        let first = self.peek(0);
        if first == Kind::Delimiters(Delimiter::RBrace) || first == Kind::EOF {
            proof {
                assert(before@.take(before.len() as int) =~= before@);
            }
            return Ok(before);
        }
        let start = self.position;
        let item = match self.parse_item() {
            Ok(item) => item,
            Err(e) => {
                return Err(e);
            },
        };
        if self.position == start {
            return Err(Error::ParserError(start));
        }
        let mut items = before;
        let ghost n = items.len();
        items.push(item);
        let ghost sofar = items@;
        proof {
            assert(sofar.take(n as int) =~= before@);
        }
        match self.parse_items(items) {
            Err(e) => Err(e),
            Ok(all) => {
                proof {
                    assert(all@[n as int] == sofar[n as int]);
                    assert(all@.take(n as int) =~= sofar.take(n as int));
                }
                Ok(all)
            },
        }
    }

    /// Parses a declaration or a statement.
    fn parse_item(&mut self) -> (r: Result<BlockItem, Error>)
        requires
            old(self).wf(),
        ensures
            final(self).wf(),
            final(self).lexemes() == old(self).lexemes(),
            match takes_item(old(self).lexemes(), old(self).position()) {
                Ok(k) => r matches Ok(node) && final(self).position() == old(self).position() + k
                    && tokens_of_item(node, final(self).ahead()) == old(self).ahead(),
                Err(at) => r matches Err(Error::ParserError(p)) && p == at,
            },
        decreases remaining(old(self).lexemes(), old(self).position()), 28nat,
    {
        let first = self.peek(0);
        if first == Kind::Keyword(Keyword::Var) || first == Kind::Keyword(Keyword::Val) {
            match self.parse_decl() {
                Err(e) => Err(e),
                Ok(decl) => Ok(BlockItem::Decl(decl)),
            }
        } else {
            match self.parse_stmt() {
                Err(e) => Err(e),
                Ok(stmt) => Ok(BlockItem::Stmt(stmt)),
            }
        }
    }

    /// Parses `return`, `break`, `continue`, an assignment or an expression statement.
    fn parse_simple(&mut self) -> (r: Result<Stmt, Error>)
        requires
            old(self).wf(),
        ensures
            final(self).wf(),
            final(self).lexemes() == old(self).lexemes(),
            match takes_simple(old(self).lexemes(), old(self).position()) {
                Ok(k) => r matches Ok(node) && final(self).position() == old(self).position() + k
                    && tokens_of_stmt(node, final(self).ahead()) == old(self).ahead(),
                Err(at) => r matches Err(Error::ParserError(p)) && p == at,
            },
    {
        let first = self.peek(0);
        if first == Kind::Keyword(Keyword::Return) {
            proof {
                lemma_skip(self.lexemes(), self.position());
            }
            if self.peek(1) == Kind::Delimiters(Delimiter::Semi) {
                proof {
                    lemma_skip2(self.lexemes(), self.position());
                }
                self.next(2);
                return Ok(Stmt::Ret(None));
            }
            self.next(1);
            let exp = match self.parse_exp() {
                Ok(exp) => exp,
                Err(e) => {
                    return Err(e);
                },
            };
            match self.semicolon() {
                Err(e) => Err(e),
                Ok(()) => Ok(Stmt::Ret(Some(exp))),
            }
        } else if first == Kind::Keyword(Keyword::Break) || first == Kind::Keyword(
            Keyword::Continue,
        ) {
            proof {
                if self.position() + 1 < self.lexemes().len() {
                    lemma_skip2(self.lexemes(), self.position());
                }
            }
            match self.match_token(1, Kind::Delimiters(Delimiter::Semi)) {
                Err(e) => Err(e),
                Ok(()) => if first == Kind::Keyword(Keyword::Break) {
                    Ok(Stmt::Break)
                } else {
                    Ok(Stmt::Continue)
                },
            }
        } else if first == Kind::Delimiters(Delimiter::Semi) {
            proof {
                lemma_skip(self.lexemes(), self.position());
            }
            self.next(1);
            Ok(Stmt::Exp(None))
        } else if first == Kind::Identifier && self.peek(1) == Kind::Operator(Operator::Assign) {
            let ident = self.consume_identifier(0);
            proof {
                lemma_skip2(self.lexemes(), self.position());
            }
            self.next(2);
            let exp = match self.parse_exp() {
                Ok(exp) => exp,
                Err(e) => {
                    return Err(e);
                },
            };
            match self.semicolon() {
                Err(e) => Err(e),
                Ok(()) => Ok(Stmt::Assign(LVal { ident }, exp)),
            }
        } else {
            let exp = match self.parse_exp() {
                Ok(exp) => exp,
                Err(e) => {
                    return Err(e);
                },
            };
            match self.semicolon() {
                Err(e) => Err(e),
                Ok(()) => Ok(Stmt::Exp(Some(exp))),
            }
        }
    }

    /// Parses the condition in parentheses after the keyword at which the
    /// parser stands, and moves past the keyword and the parentheses.
    fn parse_condition(&mut self) -> (r: Result<Exp, Error>)
        requires
            old(self).wf(),
            old(self).position() < old(self).lexemes().len(),
        ensures
            final(self).wf(),
            final(self).lexemes() == old(self).lexemes(),
            match takes_condition(old(self).lexemes(), old(self).position()) {
                Ok(k) => r matches Ok(exp) && final(self).position() == old(self).position() + k
                    && k >= 1 && written_condition(
                    at(old(self).lexemes(), old(self).position()),
                    exp,
                    final(self).ahead(),
                ) == old(self).ahead(),
                Err(at) => r matches Err(Error::ParserError(p)) && p == at,
            },
    {
        let ghost ls = self.lexemes();
        let ghost start = self.position();
        if self.peek(1) != Kind::Delimiters(Delimiter::LParen) {
            return Err(self.unexpected(1));
        }
        self.next(2);
        let exp = match self.parse_exp() {
            Ok(exp) => exp,
            Err(e) => {
                return Err(e);
            },
        };
        let ghost end = self.position();
        match self.match_token(0, Kind::Delimiters(Delimiter::RParen)) {
            Err(e) => Err(e),
            Ok(()) => {
                proof {
                    lemma_skip2(ls, start);
                    lemma_skip(ls, end);
                    assert(tokens_of_exp(exp, from(ls, end)) == from(ls, start + 2));
                    assert(seq![delim(Delimiter::RParen)] + from(ls, end + 1) == from(ls, end));
                }
                Ok(exp)
            },
        }
    }

    /// Parses a statement.
    fn parse_stmt(&mut self) -> (r: Result<Stmt, Error>)
        requires
            old(self).wf(),
        ensures
            final(self).wf(),
            final(self).lexemes() == old(self).lexemes(),
            match takes_stmt(old(self).lexemes(), old(self).position()) {
                Ok(k) => r matches Ok(node) && final(self).position() == old(self).position() + k
                    && tokens_of_stmt(node, final(self).ahead()) == old(self).ahead(),
                Err(at) => r matches Err(Error::ParserError(p)) && p == at,
            },
        decreases remaining(old(self).lexemes(), old(self).position()), 26nat,
    {
        let first = self.peek(0);
        if first == Kind::Keyword(Keyword::If) {
            self.parse_if()
        } else if first == Kind::Keyword(Keyword::While) {
            self.parse_while()
        } else if first == Kind::Keyword(Keyword::Fn) {
            match self.parse_func() {
                Err(e) => Err(e),
                Ok(f) => Ok(Stmt::FuncDef(f)),
            }
        } else if first == Kind::Delimiters(Delimiter::LBrace) {
            match self.parse_block() {
                Err(e) => Err(e),
                Ok(block) => Ok(Stmt::Block(block)),
            }
        } else {
            self.parse_simple()
        }
    }

    /// Parses an `if`, at which the parser must stand.
    fn parse_if(&mut self) -> (r: Result<Stmt, Error>)
        requires
            old(self).wf(),
            at(old(self).lexemes(), old(self).position()) == kw(Keyword::If),
        ensures
            final(self).wf(),
            final(self).lexemes() == old(self).lexemes(),
            match takes_stmt(old(self).lexemes(), old(self).position()) {
                Ok(k) => r matches Ok(node) && final(self).position() == old(self).position() + k
                    && tokens_of_stmt(node, final(self).ahead()) == old(self).ahead(),
                Err(at) => r matches Err(Error::ParserError(p)) && p == at,
            },
        decreases remaining(old(self).lexemes(), old(self).position()), 25nat,
    {
        let condition = match self.parse_condition() {
            Ok(exp) => exp,
            Err(e) => {
                return Err(e);
            },
        };
        let then_branch = match self.parse_stmt() {
            Ok(stmt) => stmt,
            Err(e) => {
                return Err(e);
            },
        };
        let ghost ls = self.lexemes();
        let ghost middle = self.position();
        if self.peek(0) != Kind::Keyword(Keyword::Else) {
            let node = Stmt::If { condition, then_branch: Box::new(then_branch), else_branch: None };
            proof {
                assert(tokens_of_else(None, from(ls, middle)) == from(ls, middle));
                assert(tokens_of_stmt(node, from(ls, middle)) == written_condition(
                    kw(Keyword::If),
                    condition,
                    tokens_of_stmt(then_branch, from(ls, middle)),
                ));
            }
            return Ok(node);
        }
        self.next(1);
        match self.parse_stmt() {
            Err(e) => Err(e),
            Ok(other) => {
                let ghost end = self.position();
                let node = Stmt::If {
                    condition,
                    then_branch: Box::new(then_branch),
                    else_branch: Some(Box::new(other)),
                };
                proof {
                    lemma_skip(ls, middle);
                    assert(tokens_of_else(Some(Box::new(other)), from(ls, end)) == from(
                        ls,
                        middle,
                    ));
                    assert(tokens_of_stmt(node, from(ls, end)) == written_condition(
                        kw(Keyword::If),
                        condition,
                        tokens_of_stmt(then_branch, from(ls, middle)),
                    ));
                }
                Ok(node)
            },
        }
    }


    /// Parses a `while`, at which the parser must stand.
    fn parse_while(&mut self) -> (r: Result<Stmt, Error>)
        requires
            old(self).wf(),
            at(old(self).lexemes(), old(self).position()) == kw(Keyword::While),
        ensures
            final(self).wf(),
            final(self).lexemes() == old(self).lexemes(),
            match takes_stmt(old(self).lexemes(), old(self).position()) {
                Ok(k) => r matches Ok(node) && final(self).position() == old(self).position() + k
                    && tokens_of_stmt(node, final(self).ahead()) == old(self).ahead(),
                Err(at) => r matches Err(Error::ParserError(p)) && p == at,
            },
        decreases remaining(old(self).lexemes(), old(self).position()), 25nat,
    {
        let condition = match self.parse_condition() {
            Ok(exp) => exp,
            Err(e) => {
                return Err(e);
            },
        };
        match self.parse_stmt() {
            Err(e) => Err(e),
            Ok(body) => Ok(Stmt::While { condition, loopbody: Box::new(body) }),
        }
    }
}

impl Parser {
    /// Parses the global definitions after those in `before`.
    fn parse_globals(&mut self, before: Vec<GlobalDef>) -> (r: Result<Vec<GlobalDef>, Error>)
        requires
            old(self).wf(),
        ensures
            final(self).wf(),
            final(self).lexemes() == old(self).lexemes(),
            match takes_globals(old(self).lexemes(), old(self).position()) {
                Ok(k) => r matches Ok(defs) && final(self).position() == old(self).position() + k
                    && defs.len() >= before.len() && defs@.take(before.len() as int) == before@
                    && at(final(self).lexemes(), final(self).position()) is EOF
                    && tokens_of_globals(defs@, before.len() as nat, final(self).ahead()) == old(
                    self,
                ).ahead(),
                Err(at) => r matches Err(Error::ParserError(p)) && p == at,
            },
        decreases remaining(old(self).lexemes(), old(self).position()),
    {
        let first = self.peek(0);
        if first == Kind::EOF {
            proof {
                assert(before@.take(before.len() as int) =~= before@);
            }
            return Ok(before);
        }
        let ghost start = self.position();
        let def = if first == Kind::Keyword(Keyword::Fn) {
            match self.parse_func() {
                Ok(f) => GlobalDef::FuncDef(f),
                Err(e) => {
                    return Err(e);
                },
            }
        } else {
            match self.parse_decl() {
                Ok(decl) => GlobalDef::Decl(decl),
                Err(e) => {
                    return Err(e);
                },
            }
        };
        proof {
            lemma_global_takes(self.lexemes(), start);
        }
        let mut defs = before;
        let ghost n = defs.len();
        defs.push(def);
        let ghost sofar = defs@;
        proof {
            assert(sofar.take(n as int) =~= before@);
        }
        match self.parse_globals(defs) {
            Err(e) => Err(e),
            Ok(all) => {
                proof {
                    assert(all@[n as int] == sofar[n as int]);
                    assert(all@.take(n as int) =~= sofar.take(n as int));
                }
                Ok(all)
            },
        }
    }

    /// Parses the tokens as a program: global definitions up to the end of
    /// the text, which must be the last token.
    ///
    /// Succeeds exactly where `takes_unit` does, and the program it gives is
    /// written with exactly the tokens of the parser. Fails with
    /// `ParserError` and the index of the first token that does not fit.
    pub fn parse(&mut self) -> (r: Result<CompUnit, Error>)
        requires
            old(self).wf(),
        ensures
            final(self).wf(),
            final(self).lexemes() == old(self).lexemes(),
            match takes_unit(old(self).lexemes()) {
                Ok(_) => r matches Ok(unit) && tokens_of_unit(unit) == old(self).lexemes(),
                Err(at) => r matches Err(Error::ParserError(p)) && p == at,
            },
    {
        self.position = 0;
        let ghost ls = self.lexemes();
        let globaldefs = match self.parse_globals(Vec::new()) {
            Ok(defs) => defs,
            Err(e) => {
                return Err(e);
            },
        };
        if self.tokens.len() - self.position != 1 {
            return Err(Error::ParserError(self.position));
        }
        proof {
            lemma_skip(ls, self.position());
            assert(from(ls, self.position() + 1) =~= Seq::<Lexeme>::empty());
            assert(self.ahead() =~= seq![Lexeme::EOF]);
            assert(from(ls, 0) =~= ls);
        }
        Ok(CompUnit { globaldefs })
    }
}

/// Reads a program from its source text.
///
/// Fails with `LexerError` where the text holds something that is no token,
/// and with `ParserError` where the tokens do not make a program; else gives
/// the program that is written with exactly the tokens of the text.
pub fn parse_program(input: &str) -> (r: Result<CompUnit, Error>)
    ensures
        match lexemes(input@) {
            Err(at) => r matches Err(Error::LexerError(p)) && p == at,
            Ok(ls) => match takes_unit(ls) {
                Err(at) => r matches Err(Error::ParserError(p)) && p == at,
                Ok(_) => r matches Ok(unit) && tokens_of_unit(unit) == ls,
            },
        },
{
    let tokens = match tokenize(input) {
        Ok(tokens) => tokens,
        Err(e) => {
            return Err(e);
        },
    };
    let mut parser = Parser::new(tokens);
    parser.parse()
}

} // verus!
