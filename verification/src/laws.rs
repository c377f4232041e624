//! The library's stated laws, each proved against the specification
//! semantics of the evaluator and the program builder.

use crate::ast::{ExprView, ItemView, StatementView};
use crate::interp::{
    bind_params, spec_build_program, spec_call, spec_eval_stmt, spec_exec_entry, spec_exec_stmts,
    spec_from_items, spec_reduce, spec_reduce_args, EvalErrorView, FnDefView, Frame, Value,
};
use vstd::prelude::*;

verus! {

/// A function call's result depends on the caller's scope only through the
/// argument values: two scopes under which the arguments reduce alike get
/// the same result from the call.  The callee's frame is built from the
/// argument values alone, so a callee can neither see nor corrupt the
/// caller's variables.
pub proof fn lemma_scope_isolation(
    g: Map<Seq<u8>, FnDefView>,
    vars1: Map<Seq<u8>, Value>,
    vars2: Map<Seq<u8>, Value>,
    func_name: Seq<u8>,
    args: Seq<ExprView>,
    fuel: nat,
)
    requires
        spec_reduce_args(g, vars1, args, Seq::empty(), fuel) == spec_reduce_args(
            g,
            vars2,
            args,
            Seq::empty(),
            fuel,
        ),
    ensures
        spec_reduce(g, vars1, ExprView::FuncCall { func_name, args }, fuel) == spec_reduce(
            g,
            vars2,
            ExprView::FuncCall { func_name, args },
            fuel,
        ),
{
}

/// Declaring a name already bound in the scope fails with `Redeclaration`,
/// before the initializer is reduced.
pub proof fn lemma_redeclaration_rejected(
    g: Map<Seq<u8>, FnDefView>,
    frame: Frame,
    variable: Seq<u8>,
    value: ExprView,
    fuel: nat,
)
    requires
        frame.vars.contains_key(variable),
    ensures
        spec_eval_stmt(g, frame, StatementView::VarDeclaration { variable, value }, fuel) == Err::<
            Frame,
            EvalErrorView,
        >(EvalErrorView::Redeclaration { name: variable }),
{
}

/// Assigning to a name never declared fails with `AssignToUndeclared`,
/// before the new value is reduced.
pub proof fn lemma_assign_undeclared_rejected(
    g: Map<Seq<u8>, FnDefView>,
    frame: Frame,
    variable: Seq<u8>,
    value: ExprView,
    fuel: nat,
)
    requires
        !frame.vars.contains_key(variable),
    ensures
        spec_eval_stmt(g, frame, StatementView::Assignment { variable, value }, fuel) == Err::<
            Frame,
            EvalErrorView,
        >(EvalErrorView::AssignToUndeclared { name: variable }),
{
}

/// Calling a name absent from the function table fails with
/// `UndefinedFunction`, before any argument is reduced.
pub proof fn lemma_undefined_function_rejected(
    g: Map<Seq<u8>, FnDefView>,
    vars: Map<Seq<u8>, Value>,
    func_name: Seq<u8>,
    args: Seq<ExprView>,
    fuel: nat,
)
    requires
        !g.contains_key(func_name),
    ensures
        spec_reduce(g, vars, ExprView::FuncCall { func_name, args }, fuel) == Err::<
            Value,
            EvalErrorView,
        >(EvalErrorView::UndefinedFunction { name: func_name }),
{
}

/// Calling a function with the wrong number of arguments fails with
/// `ArityMismatch`, once the arguments themselves have reduced.
pub proof fn lemma_arity_mismatch_rejected(
    g: Map<Seq<u8>, FnDefView>,
    vars: Map<Seq<u8>, Value>,
    func_name: Seq<u8>,
    args: Seq<ExprView>,
    argvals: Seq<Value>,
    fuel: nat,
)
    requires
        g.contains_key(func_name),
        spec_reduce_args(g, vars, args, Seq::empty(), fuel) == Ok::<Seq<Value>, EvalErrorView>(
            argvals,
        ),
        g[func_name].params.len() != argvals.len(),
    ensures
        spec_reduce(g, vars, ExprView::FuncCall { func_name, args }, fuel) == Err::<
            Value,
            EvalErrorView,
        >(EvalErrorView::ArityMismatch { name: func_name }),
{
}

/// A body that runs to completion without executing a `return` makes the
/// invocation fail with `MissingReturn`; a call succeeds only when the
/// body completed with the pending return value set.  No default value is
/// ever yielded.
pub proof fn lemma_missing_return(
    g: Map<Seq<u8>, FnDefView>,
    name: Seq<u8>,
    f: FnDefView,
    argvals: Seq<Value>,
    fuel: nat,
)
    ensures
        (spec_exec_stmts(
            g,
            Frame { vars: bind_params(f.params, argvals), ret: None },
            f.body,
            fuel,
        ) matches Ok(fr) && fr.ret is None) ==> spec_call(g, name, f, argvals, fuel) == Err::<
            Value,
            EvalErrorView,
        >(EvalErrorView::MissingReturn { name }),
        spec_call(g, name, f, argvals, fuel) is Ok ==> (spec_exec_stmts(
            g,
            Frame { vars: bind_params(f.params, argvals), ret: None },
            f.body,
            fuel,
        ) matches Ok(fr) && fr.ret == Some(spec_call(g, name, f, argvals, fuel)->Ok_0)),
{
}

/// A `return` statement in the entry block, when reached, fails with
/// `ReturnOutsideFunction`: the entry block must not return a value.
pub proof fn lemma_return_outside_function(
    g: Map<Seq<u8>, FnDefView>,
    frame: Frame,
    stmts: Seq<StatementView>,
    fuel: nat,
)
    requires
        stmts.len() > 0,
        stmts[0] is Return,
    ensures
        spec_exec_entry(g, frame, stmts, fuel) == Err::<Frame, EvalErrorView>(
            EvalErrorView::ReturnOutsideFunction,
        ),
{
}

/// The name a function-definition item declares; entry blocks declare
/// none.
pub open spec fn item_fname(it: ItemView) -> Seq<u8> {
    match it {
        ItemView::FuncDef { name, .. } => name,
        ItemView::EntryBlock { .. } => Seq::empty(),
    }
}

proof fn lemma_build_entry_again(
    items: Seq<ItemView>,
    entry: Option<Seq<StatementView>>,
    funcs: Map<Seq<u8>, FnDefView>,
    j: int,
)
    requires
        0 <= j < items.len(),
        items[j] is EntryBlock,
        entry is Some,
    ensures
        spec_build_program(items, entry, funcs) is Err,
    decreases items.len(),
{
    match items[0] {
        ItemView::EntryBlock { .. } => {},
        ItemView::FuncDef { name, arg_names, body } => {
            if !funcs.contains_key(name) {
                lemma_build_entry_again(
                    items.drop_first(),
                    entry,
                    funcs.insert(name, FnDefView { params: arg_names, body }),
                    j - 1,
                );
            }
        },
    }
}

proof fn lemma_build_two_entries(
    items: Seq<ItemView>,
    entry: Option<Seq<StatementView>>,
    funcs: Map<Seq<u8>, FnDefView>,
    i: int,
    j: int,
)
    requires
        0 <= i < j < items.len(),
        items[i] is EntryBlock,
        items[j] is EntryBlock,
    ensures
        spec_build_program(items, entry, funcs) is Err,
    decreases items.len(),
{
    match items[0] {
        ItemView::EntryBlock { body } => {
            if entry is None {
                lemma_build_entry_again(items.drop_first(), Some(body), funcs, j - 1);
            }
        },
        ItemView::FuncDef { name, arg_names, body } => {
            if !funcs.contains_key(name) {
                lemma_build_two_entries(
                    items.drop_first(),
                    entry,
                    funcs.insert(name, FnDefView { params: arg_names, body }),
                    i - 1,
                    j - 1,
                );
            }
        },
    }
}

/// Two entry blocks in one item sequence fail program construction with a
/// `ProgramError`, before any execution occurs: `spec_from_items` is
/// separate from `spec_exec_entry`, and `execute` is only reachable from a
/// constructed program.
pub proof fn lemma_two_entry_blocks_rejected(items: Seq<ItemView>, i: int, j: int)
    requires
        0 <= i < j < items.len(),
        items[i] is EntryBlock,
        items[j] is EntryBlock,
    ensures
        spec_from_items(items) is Err,
{
    lemma_build_two_entries(items, None, Map::empty(), i, j);
}

proof fn lemma_build_known_name(
    items: Seq<ItemView>,
    entry: Option<Seq<StatementView>>,
    funcs: Map<Seq<u8>, FnDefView>,
    i: int,
)
    requires
        0 <= i < items.len(),
        items[i] is FuncDef,
        funcs.contains_key(item_fname(items[i])),
    ensures
        spec_build_program(items, entry, funcs) is Err,
    decreases items.len(),
{
    match items[0] {
        ItemView::EntryBlock { body } => {
            if entry is None {
                lemma_build_known_name(items.drop_first(), Some(body), funcs, i - 1);
            }
        },
        ItemView::FuncDef { name, arg_names, body } => {
            if !funcs.contains_key(name) {
                lemma_build_known_name(
                    items.drop_first(),
                    entry,
                    funcs.insert(name, FnDefView { params: arg_names, body }),
                    i - 1,
                );
            }
        },
    }
}

proof fn lemma_build_dup_names(
    items: Seq<ItemView>,
    entry: Option<Seq<StatementView>>,
    funcs: Map<Seq<u8>, FnDefView>,
    i: int,
    j: int,
)
    requires
        0 <= i < j < items.len(),
        items[i] is FuncDef,
        items[j] is FuncDef,
        item_fname(items[i]) == item_fname(items[j]),
    ensures
        spec_build_program(items, entry, funcs) is Err,
    decreases items.len(),
{
    match items[0] {
        ItemView::EntryBlock { body } => {
            if entry is None {
                lemma_build_dup_names(items.drop_first(), Some(body), funcs, i - 1, j - 1);
            }
        },
        ItemView::FuncDef { name, arg_names, body } => {
            if !funcs.contains_key(name) {
                let funcs2 = funcs.insert(name, FnDefView { params: arg_names, body });
                if i == 0 {
                    lemma_build_known_name(items.drop_first(), entry, funcs2, j - 1);
                } else {
                    lemma_build_dup_names(items.drop_first(), entry, funcs2, i - 1, j - 1);
                }
            }
        },
    }
}

/// Two function definitions sharing a name fail program construction with
/// a `ProgramError`, before any execution occurs.
pub proof fn lemma_duplicate_function_rejected(items: Seq<ItemView>, i: int, j: int)
    requires
        0 <= i < j < items.len(),
        items[i] is FuncDef,
        items[j] is FuncDef,
        item_fname(items[i]) == item_fname(items[j]),
    ensures
        spec_from_items(items) is Err,
{
    lemma_build_dup_names(items, None, Map::empty(), i, j);
}

} // verus!
