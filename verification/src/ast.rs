//! The parser: token sequence in, top-level items out.
//!
//! The grammar has expressions (integer literals, variable references,
//! right-associative addition, function calls), three statement forms, and
//! two top-level items (the entry block and function definitions).  The
//! `spec_parse_*` functions are the specification: a recursive-descent
//! description of the parse, position by position, with one token of
//! lookahead.  The executable parser is proved to return exactly what the
//! specification says, or the index of the offending token.

use crate::lex::{digits_val, parse_u32, toks_view, Token, TokenView};
use vstd::prelude::*;

verus! {

/// An expression tree node.  A node exclusively owns its children.
#[derive(Debug, PartialEq, Eq)]
pub enum Expr {
    IntLit { value: u32 },
    VarRef { variable: Vec<u8> },
    Add { lhs: Box<Expr>, rhs: Box<Expr> },
    FuncCall { func_name: Vec<u8>, args: Vec<Expr> },
}

/// One statement of a block.
#[derive(Debug, PartialEq, Eq)]
pub enum Statement {
    VarDeclaration { variable: Vec<u8>, value: Expr },
    Assignment { variable: Vec<u8>, value: Expr },
    Return { value: Expr },
}

/// A top-level declaration.
#[derive(Debug, PartialEq, Eq)]
pub enum Item {
    EntryBlock { body: Vec<Statement> },
    FuncDef { name: Vec<u8>, arg_names: Vec<Vec<u8>>, body: Vec<Statement> },
}

/// The mathematical shape of an expression.
pub enum ExprView {
    IntLit { value: u32 },
    VarRef { variable: Seq<u8> },
    Add { lhs: Box<ExprView>, rhs: Box<ExprView> },
    FuncCall { func_name: Seq<u8>, args: Seq<ExprView> },
}

/// The mathematical shape of a statement.
pub enum StatementView {
    VarDeclaration { variable: Seq<u8>, value: ExprView },
    Assignment { variable: Seq<u8>, value: ExprView },
    Return { value: ExprView },
}

/// The mathematical shape of a top-level item.
pub enum ItemView {
    EntryBlock { body: Seq<StatementView> },
    FuncDef { name: Seq<u8>, arg_names: Seq<Seq<u8>>, body: Seq<StatementView> },
}

pub open spec fn expr_view(e: Expr) -> ExprView
    decreases e,
{
    match e {
        Expr::IntLit { value } => ExprView::IntLit { value },
        Expr::VarRef { variable } => ExprView::VarRef { variable: variable@ },
        Expr::Add { lhs, rhs } => ExprView::Add {
            lhs: Box::new(expr_view(*lhs)),
            rhs: Box::new(expr_view(*rhs)),
        },
        Expr::FuncCall { func_name, args } => ExprView::FuncCall {
            func_name: func_name@,
            args: exprs_view(args@),
        },
    }
}

pub open spec fn exprs_view(s: Seq<Expr>) -> Seq<ExprView>
    decreases s,
{
    if s.len() == 0 {
        Seq::empty()
    } else {
        exprs_view(s.drop_last()).push(expr_view(s.last()))
    }
}

pub open spec fn stmt_view(s: Statement) -> StatementView {
    match s {
        Statement::VarDeclaration { variable, value } => StatementView::VarDeclaration {
            variable: variable@,
            value: expr_view(value),
        },
        Statement::Assignment { variable, value } => StatementView::Assignment {
            variable: variable@,
            value: expr_view(value),
        },
        Statement::Return { value } => StatementView::Return { value: expr_view(value) },
    }
}

pub open spec fn stmts_view(s: Seq<Statement>) -> Seq<StatementView>
    decreases s,
{
    if s.len() == 0 {
        Seq::empty()
    } else {
        stmts_view(s.drop_last()).push(stmt_view(s.last()))
    }
}

pub open spec fn params_view(s: Seq<Vec<u8>>) -> Seq<Seq<u8>> {
    s.map_values(|v: Vec<u8>| v@)
}

pub open spec fn item_view(it: Item) -> ItemView {
    match it {
        Item::EntryBlock { body } => ItemView::EntryBlock { body: stmts_view(body@) },
        Item::FuncDef { name, arg_names, body } => ItemView::FuncDef {
            name: name@,
            arg_names: params_view(arg_names@),
            body: stmts_view(body@),
        },
    }
}

pub open spec fn items_view(s: Seq<Item>) -> Seq<ItemView>
    decreases s,
{
    if s.len() == 0 {
        Seq::empty()
    } else {
        items_view(s.drop_last()).push(item_view(s.last()))
    }
}

impl View for Expr {
    type V = ExprView;

    open spec fn view(&self) -> ExprView {
        expr_view(*self)
    }
}

impl View for Statement {
    type V = StatementView;

    open spec fn view(&self) -> StatementView {
        stmt_view(*self)
    }
}

impl View for Item {
    type V = ItemView;

    open spec fn view(&self) -> ItemView {
        item_view(*self)
    }
}

pub proof fn lemma_exprs_view_push(s: Seq<Expr>, x: Expr)
    ensures
        exprs_view(s.push(x)) == exprs_view(s).push(expr_view(x)),
{
    assert(s.push(x).drop_last() =~= s);
}

pub proof fn lemma_stmts_view_push(s: Seq<Statement>, x: Statement)
    ensures
        stmts_view(s.push(x)) == stmts_view(s).push(stmt_view(x)),
{
    assert(s.push(x).drop_last() =~= s);
}

pub proof fn lemma_items_view_push(s: Seq<Item>, x: Item)
    ensures
        items_view(s.push(x)) == items_view(s).push(item_view(x)),
{
    assert(s.push(x).drop_last() =~= s);
}

pub proof fn lemma_stmts_view_len(s: Seq<Statement>)
    ensures
        stmts_view(s).len() == s.len(),
    decreases s,
{
    if s.len() > 0 {
        lemma_stmts_view_len(s.drop_last());
    }
}

pub proof fn lemma_stmts_view_index(s: Seq<Statement>, k: int)
    requires
        0 <= k < s.len(),
    ensures
        stmts_view(s).len() == s.len(),
        stmts_view(s)[k] == stmt_view(s[k]),
    decreases s,
{
    lemma_stmts_view_len(s);
    if k == s.len() - 1 {
    } else {
        lemma_stmts_view_index(s.drop_last(), k);
    }
}

pub proof fn lemma_exprs_view_len(s: Seq<Expr>)
    ensures
        exprs_view(s).len() == s.len(),
    decreases s,
{
    if s.len() > 0 {
        lemma_exprs_view_len(s.drop_last());
    }
}

pub proof fn lemma_exprs_view_index(s: Seq<Expr>, k: int)
    requires
        0 <= k < s.len(),
    ensures
        exprs_view(s).len() == s.len(),
        exprs_view(s)[k] == expr_view(s[k]),
    decreases s,
{
    lemma_exprs_view_len(s);
    if k == s.len() - 1 {
        lemma_exprs_view_len(s.drop_last());
    } else {
        lemma_exprs_view_index(s.drop_last(), k);
    }
}

/// The number of nodes of an expression tree: the termination measure of
/// the evaluator within one call depth.
pub open spec fn ev_size(e: ExprView) -> nat
    decreases e,
{
    match e {
        ExprView::IntLit { .. } => 1,
        ExprView::VarRef { .. } => 1,
        ExprView::Add { lhs, rhs } => 1 + ev_size(*lhs) + ev_size(*rhs),
        ExprView::FuncCall { args, .. } => 1 + evs_size(args),
    }
}

/// The node count of an argument list, one extra for each list cell.
pub open spec fn evs_size(s: Seq<ExprView>) -> nat
    decreases s,
{
    if s.len() == 0 {
        0
    } else {
        1 + ev_size(s[0]) + evs_size(s.drop_first())
    }
}

/// The node count of a statement: its expression's, plus one.
pub open spec fn stmt_size(s: StatementView) -> nat {
    match s {
        StatementView::VarDeclaration { value, .. } => 1 + ev_size(value),
        StatementView::Assignment { value, .. } => 1 + ev_size(value),
        StatementView::Return { value } => 1 + ev_size(value),
    }
}

/// The node count of a statement list, one extra for each list cell.
pub open spec fn stmts_size(s: Seq<StatementView>) -> nat
    decreases s.len(),
{
    if s.len() == 0 {
        0
    } else {
        1 + stmt_size(s[0]) + stmts_size(s.drop_first())
    }
}

pub proof fn lemma_evs_size_index(s: Seq<ExprView>, k: int)
    requires
        0 <= k < s.len(),
    ensures
        ev_size(s[k]) < evs_size(s),
    decreases s.len(),
{
    if k > 0 {
        lemma_evs_size_index(s.drop_first(), k - 1);
    }
}

pub proof fn lemma_stmts_size_index(s: Seq<StatementView>, k: int)
    requires
        0 <= k < s.len(),
    ensures
        stmt_size(s[k]) < stmts_size(s),
    decreases s.len(),
{
    if k > 0 {
        lemma_stmts_size_index(s.drop_first(), k - 1);
    }
}

pub proof fn lemma_items_view_len(s: Seq<Item>)
    ensures
        items_view(s).len() == s.len(),
    decreases s,
{
    if s.len() > 0 {
        lemma_items_view_len(s.drop_last());
    }
}

pub proof fn lemma_items_view_index(s: Seq<Item>, k: int)
    requires
        0 <= k < s.len(),
    ensures
        items_view(s).len() == s.len(),
        items_view(s)[k] == item_view(s[k]),
    decreases s,
{
    lemma_items_view_len(s);
    if k == s.len() - 1 {
        lemma_items_view_len(s.drop_last());
    } else {
        lemma_items_view_index(s.drop_last(), k);
    }
}

/// The index of the token at which the parse failed; the length of the
/// token sequence stands for its end.
#[derive(Debug, Clone, Copy, PartialEq, Eq, Structural)]
pub struct ParseError {
    pub pos: usize,
}

/// A parenthesized, comma-separated, possibly empty argument list, with
/// `i` at the opening parenthesis.
pub open spec fn spec_parse_call(toks: Seq<TokenView>, i: nat) -> Result<(Seq<ExprView>, nat), nat>
    decreases toks.len() - i, 3int,
{
    if i >= toks.len() || toks[i as int] != TokenView::LeftParen {
        Err(i)
    } else if i + 1 < toks.len() && toks[i as int + 1] == TokenView::RightParen {
        Ok((Seq::empty(), i + 2))
    } else {
        spec_parse_args(toks, i + 1, Seq::empty())
    }
}

/// One or more comma-separated arguments, then the closing parenthesis.
/// The `Err(j)` branch under the guard cannot arise: an expression consumes
/// at least one token; the guard keeps the recursion well-founded.
pub open spec fn spec_parse_args(toks: Seq<TokenView>, i: nat, acc: Seq<ExprView>) -> Result<
    (Seq<ExprView>, nat),
    nat,
>
    decreases toks.len() - i, 2int,
{
    match spec_parse_expr(toks, i) {
        Err(p) => Err(p),
        Ok((e, j)) => {
            let acc2 = acc.push(e);
            if j <= i || j > toks.len() {
                Err(j)
            } else if j < toks.len() && toks[j as int] == TokenView::Comma {
                spec_parse_args(toks, j + 1, acc2)
            } else if j < toks.len() && toks[j as int] == TokenView::RightParen {
                Ok((acc2, j + 1))
            } else {
                Err(j)
            }
        },
    }
}

/// A primary expression — an integer literal, a variable reference, or a
/// function call — followed by an optional `+` continuation.
pub open spec fn spec_parse_expr(toks: Seq<TokenView>, i: nat) -> Result<(ExprView, nat), nat>
    decreases toks.len() - i, 1int,
{
    if i >= toks.len() {
        Err(i)
    } else {
        match toks[i as int] {
            TokenView::Ident(name) => {
                if i + 1 < toks.len() && toks[i as int + 1] == TokenView::LeftParen {
                    match spec_parse_call(toks, i + 1) {
                        Err(p) => Err(p),
                        Ok((args, j)) => {
                            if i < j && j <= toks.len() {
                                spec_parse_expr_more(
                                    toks,
                                    j,
                                    ExprView::FuncCall { func_name: name, args },
                                )
                            } else {
                                Err(j)
                            }
                        },
                    }
                } else {
                    spec_parse_expr_more(toks, i + 1, ExprView::VarRef { variable: name })
                }
            },
            TokenView::Integer(digits) => {
                if crate::lex::is_digit_run(digits) && digits_val(digits) <= u32::MAX {
                    spec_parse_expr_more(
                        toks,
                        i + 1,
                        ExprView::IntLit { value: digits_val(digits) as u32 },
                    )
                } else {
                    Err(i)
                }
            },
            _ => Err(i),
        }
    }
}

/// After a primary expression: a `+` makes a right-associative addition,
/// anything else ends the expression.
pub open spec fn spec_parse_expr_more(toks: Seq<TokenView>, i: nat, lexpr: ExprView) -> Result<
    (ExprView, nat),
    nat,
>
    decreases toks.len() - i, 0int,
{
    if i < toks.len() && toks[i as int] == TokenView::Plus {
        match spec_parse_expr(toks, i + 1) {
            Err(p) => Err(p),
            Ok((rhs, j)) => Ok((ExprView::Add { lhs: Box::new(lexpr), rhs: Box::new(rhs) }, j)),
        }
    } else {
        Ok((lexpr, i))
    }
}

/// The statement's mandatory terminating semicolon.
pub open spec fn spec_expect_semi(toks: Seq<TokenView>, j: nat, s: StatementView) -> Result<
    (Option<StatementView>, nat),
    nat,
> {
    if j < toks.len() && toks[j as int] == TokenView::Semicolon {
        Ok((Some(s), j + 1))
    } else {
        Err(j)
    }
}

/// One token of lookahead decides: `var` starts a declaration, a bare
/// identifier an assignment, `return` a return statement; any other token
/// (or the end of input) means the block is finished and yields `None`.
pub open spec fn spec_parse_stmt(toks: Seq<TokenView>, i: nat) -> Result<
    (Option<StatementView>, nat),
    nat,
> {
    if i >= toks.len() {
        Ok((None, i))
    } else {
        match toks[i as int] {
            TokenView::Var => {
                if i + 1 >= toks.len() {
                    Err(i + 1)
                } else {
                    match toks[i as int + 1] {
                        TokenView::Ident(name) => {
                            if i + 2 < toks.len() && toks[i as int + 2] == TokenView::Equals {
                                match spec_parse_expr(toks, i + 3) {
                                    Err(p) => Err(p),
                                    Ok((e, j)) => spec_expect_semi(
                                        toks,
                                        j,
                                        StatementView::VarDeclaration { variable: name, value: e },
                                    ),
                                }
                            } else {
                                Err(i + 2)
                            }
                        },
                        _ => Err(i + 1),
                    }
                }
            },
            TokenView::Ident(name) => {
                if i + 1 < toks.len() && toks[i as int + 1] == TokenView::Equals {
                    match spec_parse_expr(toks, i + 2) {
                        Err(p) => Err(p),
                        Ok((e, j)) => spec_expect_semi(
                            toks,
                            j,
                            StatementView::Assignment { variable: name, value: e },
                        ),
                    }
                } else {
                    Err(i + 1)
                }
            },
            TokenView::Return => match spec_parse_expr(toks, i + 1) {
                Err(p) => Err(p),
                Ok((e, j)) => spec_expect_semi(toks, j, StatementView::Return { value: e }),
            },
            _ => Ok((None, i)),
        }
    }
}

/// Statements until the first token that starts none.  The `Err(j)` branch
/// under the guard cannot arise: a statement consumes at least one token.
pub open spec fn spec_parse_stmts(toks: Seq<TokenView>, i: nat, acc: Seq<StatementView>) -> Result<
    (Seq<StatementView>, nat),
    nat,
>
    decreases toks.len() - i,
{
    match spec_parse_stmt(toks, i) {
        Err(p) => Err(p),
        Ok((None, j)) => Ok((acc, j)),
        Ok((Some(s), j)) => {
            if i < j && j <= toks.len() {
                spec_parse_stmts(toks, j, acc.push(s))
            } else {
                Err(j)
            }
        },
    }
}

/// A brace-enclosed statement list.
pub open spec fn spec_parse_block(toks: Seq<TokenView>, i: nat) -> Result<
    (Seq<StatementView>, nat),
    nat,
> {
    if i < toks.len() && toks[i as int] == TokenView::LeftBrace {
        match spec_parse_stmts(toks, i + 1, Seq::empty()) {
            Err(p) => Err(p),
            Ok((ss, j)) => {
                if j < toks.len() && toks[j as int] == TokenView::RightBrace {
                    Ok((ss, j + 1))
                } else {
                    Err(j)
                }
            },
        }
    } else {
        Err(i)
    }
}

/// A comma-separated parameter-identifier list, then the closing
/// parenthesis; the empty list is valid.
pub open spec fn spec_parse_params(toks: Seq<TokenView>, i: nat, acc: Seq<Seq<u8>>) -> Result<
    (Seq<Seq<u8>>, nat),
    nat,
>
    decreases toks.len() - i,
{
    if i >= toks.len() {
        Err(i)
    } else {
        match toks[i as int] {
            TokenView::RightParen => Ok((acc, i + 1)),
            TokenView::Ident(name) => {
                let acc2 = acc.push(name);
                if i + 1 >= toks.len() {
                    Err(i + 1)
                } else if toks[i as int + 1] == TokenView::Comma {
                    if i + 2 < toks.len() && toks[i as int + 2] is Ident {
                        spec_parse_params(toks, i + 2, acc2)
                    } else {
                        Err(i + 2)
                    }
                } else if toks[i as int + 1] == TokenView::RightParen {
                    Ok((acc2, i + 2))
                } else {
                    Err(i + 1)
                }
            },
            _ => Err(i),
        }
    }
}

/// One top-level item: `begin` starts the entry block, `func` a function
/// definition.
pub open spec fn spec_parse_item(toks: Seq<TokenView>, i: nat) -> Result<(ItemView, nat), nat> {
    if i >= toks.len() {
        Err(i)
    } else {
        match toks[i as int] {
            TokenView::Begin => match spec_parse_block(toks, i + 1) {
                Err(p) => Err(p),
                Ok((ss, j)) => Ok((ItemView::EntryBlock { body: ss }, j)),
            },
            TokenView::Func => {
                if i + 1 >= toks.len() {
                    Err(i + 1)
                } else {
                    match toks[i as int + 1] {
                        TokenView::Ident(name) => {
                            if i + 2 < toks.len() && toks[i as int + 2] == TokenView::LeftParen {
                                match spec_parse_params(toks, i + 3, Seq::empty()) {
                                    Err(p) => Err(p),
                                    Ok((params, j)) => match spec_parse_block(toks, j) {
                                        Err(p) => Err(p),
                                        Ok((body, k)) => Ok(
                                            (
                                                ItemView::FuncDef {
                                                    name,
                                                    arg_names: params,
                                                    body,
                                                },
                                                k,
                                            ),
                                        ),
                                    },
                                }
                            } else {
                                Err(i + 2)
                            }
                        },
                        _ => Err(i + 1),
                    }
                }
            },
            _ => Err(i),
        }
    }
}

/// Every top-level item until the token sequence is exhausted.  The
/// `Err(j)` branch under the guard cannot arise: an item consumes at least
/// one token.
pub open spec fn spec_parse_items(toks: Seq<TokenView>, i: nat, acc: Seq<ItemView>) -> Result<
    Seq<ItemView>,
    nat,
>
    decreases toks.len() - i,
{
    if i >= toks.len() {
        Ok(acc)
    } else {
        match spec_parse_item(toks, i) {
            Err(p) => Err(p),
            Ok((it, j)) => {
                if i < j && j <= toks.len() {
                    spec_parse_items(toks, j, acc.push(it))
                } else {
                    Err(j)
                }
            },
        }
    }
}

/// The whole token sequence as a sequence of top-level items.
pub open spec fn spec_parse(toks: Seq<TokenView>) -> Result<Seq<ItemView>, nat> {
    spec_parse_items(toks, 0, Seq::empty())
}

/// Parses the parenthesized argument list of a function call.
fn parse_call(toks: &Vec<Token>, i: usize) -> (r: Result<(Vec<Expr>, usize), ParseError>)
    requires
        i <= toks@.len(),
    ensures
        (match r {
            Ok((args, j)) => spec_parse_call(toks_view(toks@), i as nat) == Ok::<
                (Seq<ExprView>, nat),
                nat,
            >((exprs_view(args@), j as nat)) && i < j <= toks@.len(),
            Err(e) => spec_parse_call(toks_view(toks@), i as nat) == Err::<
                (Seq<ExprView>, nat),
                nat,
            >(e.pos as nat),
        }),
    decreases toks@.len() - i, 3int,
{
    if i >= toks.len() || !matches!(&toks[i], Token::LeftParen) {
        return Err(ParseError { pos: i });
    }
    if i + 1 < toks.len() && matches!(&toks[i + 1], Token::RightParen) {
        let args: Vec<Expr> = Vec::new();
        return Ok((args, i + 2));
    }
    parse_args(toks, i + 1, Vec::new())
}

/// Parses one or more comma-separated arguments onto `acc`, then the
/// closing parenthesis.
fn parse_args(toks: &Vec<Token>, i: usize, acc: Vec<Expr>) -> (r: Result<
    (Vec<Expr>, usize),
    ParseError,
>)
    requires
        i <= toks@.len(),
    ensures
        (match r {
            Ok((args, j)) => spec_parse_args(toks_view(toks@), i as nat, exprs_view(acc@)) == Ok::<
                (Seq<ExprView>, nat),
                nat,
            >((exprs_view(args@), j as nat)) && i < j <= toks@.len(),
            Err(e) => spec_parse_args(toks_view(toks@), i as nat, exprs_view(acc@)) == Err::<
                (Seq<ExprView>, nat),
                nat,
            >(e.pos as nat),
        }),
    decreases toks@.len() - i, 2int,
{
    match parse_expr(toks, i) {
        Err(e) => Err(e),
        Ok((e, j)) => {
            proof {
                lemma_exprs_view_push(acc@, e);
            }
            let mut acc2 = acc;
            acc2.push(e);
            if j < toks.len() && matches!(&toks[j], Token::Comma) {
                parse_args(toks, j + 1, acc2)
            } else if j < toks.len() && matches!(&toks[j], Token::RightParen) {
                Ok((acc2, j + 1))
            } else {
                Err(ParseError { pos: j })
            }
        },
    }
}

/// Parses a primary expression and its optional `+` continuation.
fn parse_expr(toks: &Vec<Token>, i: usize) -> (r: Result<(Expr, usize), ParseError>)
    requires
        i <= toks@.len(),
    ensures
        (match r {
            Ok((e, j)) => spec_parse_expr(toks_view(toks@), i as nat) == Ok::<
                (ExprView, nat),
                nat,
            >((e@, j as nat)) && i < j <= toks@.len(),
            Err(pe) => spec_parse_expr(toks_view(toks@), i as nat) == Err::<(ExprView, nat), nat>(
                pe.pos as nat,
            ),
        }),
    decreases toks@.len() - i, 1int,
{
    if i >= toks.len() {
        return Err(ParseError { pos: i });
    }
    match &toks[i] {
        Token::Ident(name) => {
            let name_c = crate::lex::clone_bytes(name);
            if i + 1 < toks.len() && matches!(&toks[i + 1], Token::LeftParen) {
                match parse_call(toks, i + 1) {
                    Err(e) => Err(e),
                    Ok((args, j)) => parse_expr_more(
                        toks,
                        j,
                        Expr::FuncCall { func_name: name_c, args },
                    ),
                }
            } else {
                parse_expr_more(toks, i + 1, Expr::VarRef { variable: name_c })
            }
        },
        Token::Integer(digits) => {
            if crate::lex::check_digit_run(digits) {
                match parse_u32(digits) {
                    Some(v) => parse_expr_more(toks, i + 1, Expr::IntLit { value: v }),
                    None => Err(ParseError { pos: i }),
                }
            } else {
                Err(ParseError { pos: i })
            }
        },
        _ => Err(ParseError { pos: i }),
    }
}

/// After a primary expression: consumes `+` and the right-hand side, or
/// returns the primary expression unchanged.
fn parse_expr_more(toks: &Vec<Token>, i: usize, lexpr: Expr) -> (r: Result<
    (Expr, usize),
    ParseError,
>)
    requires
        i <= toks@.len(),
    ensures
        (match r {
            Ok((e, j)) => spec_parse_expr_more(toks_view(toks@), i as nat, lexpr@) == Ok::<
                (ExprView, nat),
                nat,
            >((e@, j as nat)) && i <= j <= toks@.len(),
            Err(pe) => spec_parse_expr_more(toks_view(toks@), i as nat, lexpr@) == Err::<
                (ExprView, nat),
                nat,
            >(pe.pos as nat),
        }),
    decreases toks@.len() - i, 0int,
{
    if i < toks.len() && matches!(&toks[i], Token::Plus) {
        match parse_expr(toks, i + 1) {
            Err(e) => Err(e),
            Ok((rhs, j)) => Ok((Expr::Add { lhs: Box::new(lexpr), rhs: Box::new(rhs) }, j)),
        }
    } else {
        Ok((lexpr, i))
    }
}

/// Peeks one token to decide whether a statement starts here, and parses
/// it; `None` signals that the enclosing block is finished.
fn maybe_parse_statement(toks: &Vec<Token>, i: usize) -> (r: Result<
    (Option<Statement>, usize),
    ParseError,
>)
    requires
        i <= toks@.len(),
    ensures
        (match r {
            Ok((Some(s), j)) => spec_parse_stmt(toks_view(toks@), i as nat) == Ok::<
                (Option<StatementView>, nat),
                nat,
            >((Some(s@), j as nat)) && i < j <= toks@.len(),
            Ok((None, j)) => spec_parse_stmt(toks_view(toks@), i as nat) == Ok::<
                (Option<StatementView>, nat),
                nat,
            >((None, j as nat)) && j == i,
            Err(e) => spec_parse_stmt(toks_view(toks@), i as nat) == Err::<
                (Option<StatementView>, nat),
                nat,
            >(e.pos as nat),
        }),
{
    if i >= toks.len() {
        return Ok((None, i));
    }
    match &toks[i] {
        Token::Var => {
            if i + 1 >= toks.len() {
                return Err(ParseError { pos: i + 1 });
            }
            match &toks[i + 1] {
                Token::Ident(name) => {
                    if i + 2 < toks.len() && matches!(&toks[i + 2], Token::Equals) {
                        let name_c = crate::lex::clone_bytes(name);
                        match parse_expr(toks, i + 3) {
                            Err(e) => Err(e),
                            Ok((e, j)) => {
                                if j < toks.len() && matches!(&toks[j], Token::Semicolon) {
                                    Ok(
                                        (
                                            Some(
                                                Statement::VarDeclaration {
                                                    variable: name_c,
                                                    value: e,
                                                },
                                            ),
                                            j + 1,
                                        ),
                                    )
                                } else {
                                    Err(ParseError { pos: j })
                                }
                            },
                        }
                    } else {
                        Err(ParseError { pos: i + 2 })
                    }
                },
                _ => Err(ParseError { pos: i + 1 }),
            }
        },
        Token::Ident(name) => {
            if i + 1 < toks.len() && matches!(&toks[i + 1], Token::Equals) {
                let name_c = crate::lex::clone_bytes(name);
                match parse_expr(toks, i + 2) {
                    Err(e) => Err(e),
                    Ok((e, j)) => {
                        if j < toks.len() && matches!(&toks[j], Token::Semicolon) {
                            Ok(
                                (
                                    Some(Statement::Assignment { variable: name_c, value: e }),
                                    j + 1,
                                ),
                            )
                        } else {
                            Err(ParseError { pos: j })
                        }
                    },
                }
            } else {
                Err(ParseError { pos: i + 1 })
            }
        },
        Token::Return => {
            match parse_expr(toks, i + 1) {
                Err(e) => Err(e),
                Ok((e, j)) => {
                    if j < toks.len() && matches!(&toks[j], Token::Semicolon) {
                        Ok((Some(Statement::Return { value: e }), j + 1))
                    } else {
                        Err(ParseError { pos: j })
                    }
                },
            }
        },
        _ => Ok((None, i)),
    }
}

/// Parses statements onto `acc` until none matches.
fn parse_stmts(toks: &Vec<Token>, i: usize, acc: Vec<Statement>) -> (r: Result<
    (Vec<Statement>, usize),
    ParseError,
>)
    requires
        i <= toks@.len(),
    ensures
        (match r {
            Ok((ss, j)) => spec_parse_stmts(toks_view(toks@), i as nat, stmts_view(acc@)) == Ok::<
                (Seq<StatementView>, nat),
                nat,
            >((stmts_view(ss@), j as nat)) && i <= j <= toks@.len(),
            Err(e) => spec_parse_stmts(toks_view(toks@), i as nat, stmts_view(acc@)) == Err::<
                (Seq<StatementView>, nat),
                nat,
            >(e.pos as nat),
        }),
    decreases toks@.len() - i,
{
    match maybe_parse_statement(toks, i) {
        Err(e) => Err(e),
        Ok((None, j)) => Ok((acc, j)),
        Ok((Some(s), j)) => {
            proof {
                lemma_stmts_view_push(acc@, s);
            }
            let mut acc2 = acc;
            acc2.push(s);
            parse_stmts(toks, j, acc2)
        },
    }
}

/// Parses a brace-enclosed statement list.
fn parse_block_as_stmt_list(toks: &Vec<Token>, i: usize) -> (r: Result<
    (Vec<Statement>, usize),
    ParseError,
>)
    requires
        i <= toks@.len(),
    ensures
        (match r {
            Ok((ss, j)) => spec_parse_block(toks_view(toks@), i as nat) == Ok::<
                (Seq<StatementView>, nat),
                nat,
            >((stmts_view(ss@), j as nat)) && i < j <= toks@.len(),
            Err(e) => spec_parse_block(toks_view(toks@), i as nat) == Err::<
                (Seq<StatementView>, nat),
                nat,
            >(e.pos as nat),
        }),
{
    if i < toks.len() && matches!(&toks[i], Token::LeftBrace) {
        match parse_stmts(toks, i + 1, Vec::new()) {
            Err(e) => Err(e),
            Ok((ss, j)) => {
                if j < toks.len() && matches!(&toks[j], Token::RightBrace) {
                    Ok((ss, j + 1))
                } else {
                    Err(ParseError { pos: j })
                }
            },
        }
    } else {
        Err(ParseError { pos: i })
    }
}

/// Parses a function definition's parameter-identifier list onto `acc`.
fn parse_params(toks: &Vec<Token>, i: usize, acc: Vec<Vec<u8>>) -> (r: Result<
    (Vec<Vec<u8>>, usize),
    ParseError,
>)
    requires
        i <= toks@.len(),
    ensures
        (match r {
            Ok((ps, j)) => spec_parse_params(toks_view(toks@), i as nat, params_view(acc@)) == Ok::<
                (Seq<Seq<u8>>, nat),
                nat,
            >((params_view(ps@), j as nat)) && i < j <= toks@.len(),
            Err(e) => spec_parse_params(toks_view(toks@), i as nat, params_view(acc@)) == Err::<
                (Seq<Seq<u8>>, nat),
                nat,
            >(e.pos as nat),
        }),
    decreases toks@.len() - i,
{
    if i >= toks.len() {
        return Err(ParseError { pos: i });
    }
    match &toks[i] {
        Token::RightParen => Ok((acc, i + 1)),
        Token::Ident(name) => {
            let name_c = crate::lex::clone_bytes(name);
            let ghost accv = acc@;
            let mut acc2 = acc;
            acc2.push(name_c);
            proof {
                assert(params_view(acc2@) =~= params_view(accv).push(name@));
            }
            if i + 1 >= toks.len() {
                Err(ParseError { pos: i + 1 })
            } else if matches!(&toks[i + 1], Token::Comma) {
                if i + 2 < toks.len() && matches!(&toks[i + 2], Token::Ident(_)) {
                    parse_params(toks, i + 2, acc2)
                } else {
                    Err(ParseError { pos: i + 2 })
                }
            } else if matches!(&toks[i + 1], Token::RightParen) {
                Ok((acc2, i + 2))
            } else {
                Err(ParseError { pos: i + 1 })
            }
        },
        _ => Err(ParseError { pos: i }),
    }
}

/// Parses one top-level item.
fn parse_item(toks: &Vec<Token>, i: usize) -> (r: Result<(Item, usize), ParseError>)
    requires
        i <= toks@.len(),
    ensures
        (match r {
            Ok((it, j)) => spec_parse_item(toks_view(toks@), i as nat) == Ok::<(ItemView, nat), nat>(
                (it@, j as nat),
            ) && i < j <= toks@.len(),
            Err(e) => spec_parse_item(toks_view(toks@), i as nat) == Err::<(ItemView, nat), nat>(
                e.pos as nat,
            ),
        }),
{
    if i >= toks.len() {
        return Err(ParseError { pos: i });
    }
    match &toks[i] {
        Token::Begin => match parse_block_as_stmt_list(toks, i + 1) {
            Err(e) => Err(e),
            Ok((body, j)) => Ok((Item::EntryBlock { body }, j)),
        },
        Token::Func => {
            if i + 1 >= toks.len() {
                return Err(ParseError { pos: i + 1 });
            }
            match &toks[i + 1] {
                Token::Ident(name) => {
                    if i + 2 < toks.len() && matches!(&toks[i + 2], Token::LeftParen) {
                        let name_c = crate::lex::clone_bytes(name);
                        proof {
                            assert(params_view(Seq::<Vec<u8>>::empty()) =~= Seq::<
                                Seq<u8>,
                            >::empty());
                        }
                        match parse_params(toks, i + 3, Vec::new()) {
                            Err(e) => Err(e),
                            Ok((params, j)) => match parse_block_as_stmt_list(toks, j) {
                                Err(e) => Err(e),
                                Ok((body, k)) => Ok(
                                    (
                                        Item::FuncDef { name: name_c, arg_names: params, body },
                                        k,
                                    ),
                                ),
                            },
                        }
                    } else {
                        Err(ParseError { pos: i + 2 })
                    }
                },
                _ => Err(ParseError { pos: i + 1 }),
            }
        },
        _ => Err(ParseError { pos: i }),
    }
}

/// Parses items onto `acc` until the token sequence is exhausted.
fn parse_items_from(toks: &Vec<Token>, i: usize, acc: Vec<Item>) -> (r: Result<
    Vec<Item>,
    ParseError,
>)
    requires
        i <= toks@.len(),
    ensures
        (match r {
            Ok(items) => spec_parse_items(toks_view(toks@), i as nat, items_view(acc@)) == Ok::<
                Seq<ItemView>,
                nat,
            >(items_view(items@)),
            Err(e) => spec_parse_items(toks_view(toks@), i as nat, items_view(acc@)) == Err::<
                Seq<ItemView>,
                nat,
            >(e.pos as nat),
        }),
    decreases toks@.len() - i,
{
    if i >= toks.len() {
        return Ok(acc);
    }
    match parse_item(toks, i) {
        Err(e) => Err(e),
        Ok((it, j)) => {
            proof {
                lemma_items_view_push(acc@, it);
            }
            let mut acc2 = acc;
            acc2.push(it);
            parse_items_from(toks, j, acc2)
        },
    }
}

/// Parses the whole token sequence as a sequence of top-level items, or
/// fails at the first offending token.
pub fn parse_items(toks: &Vec<Token>) -> (r: Result<Vec<Item>, ParseError>)
    ensures
        (match r {
            Ok(items) => spec_parse(toks_view(toks@)) == Ok::<Seq<ItemView>, nat>(
                items_view(items@),
            ),
            Err(e) => spec_parse(toks_view(toks@)) == Err::<Seq<ItemView>, nat>(e.pos as nat),
        }),
{
    parse_items_from(toks, 0, Vec::new())
}

} // verus!
