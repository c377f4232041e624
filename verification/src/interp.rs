//! The evaluator: a tree-walking interpreter for the parsed items.
//!
//! The specification is a big-step semantics over mathematical maps: a
//! `Frame` holds the variables of one invocation and its pending return
//! value, and the `spec_*` functions say what every expression reduces to
//! and what every statement does to the frame, for a given call-depth
//! budget.  The executable evaluator is proved to return exactly what the
//! semantics says.
//!
//! The call-depth budget (`fuel`) models the finite call stack: each
//! function invocation consumes one unit, and exhausting the budget is
//! reported as `CallDepthExceeded`, the analogue of running out of stack.

use crate::ast::{
    ev_size, evs_size, items_view, lemma_evs_size_index, lemma_stmts_size_index,
    lemma_stmts_view_index, lemma_stmts_view_len, params_view, stmt_size, stmts_size, stmts_view,
    Expr, ExprView, Item, ItemView, Statement, StatementView,
};
use crate::lex::clone_bytes;
use vstd::prelude::*;

verus! {

/// The single runtime value kind: an unsigned 32-bit integer.
#[derive(Debug, Clone, Copy, PartialEq, Eq, Structural)]
pub enum Value {
    Int(u32),
}

/// The mathematical shape of a function definition: parameter names and
/// body statements.
pub struct FnDefView {
    pub params: Seq<Seq<u8>>,
    pub body: Seq<StatementView>,
}

/// The state of one invocation: its variables and its pending return
/// value, set at most once.
pub struct Frame {
    pub vars: Map<Seq<u8>, Value>,
    pub ret: Option<Value>,
}

/// An evaluation-time failure.  `TypeError` is reserved for operands of an
/// addition that are not integers; with the integer as the only value kind
/// no input produces it, but the taxonomy keeps the case for future value
/// kinds.
#[derive(Debug, PartialEq, Eq)]
pub enum EvalError {
    UndefinedVariable { name: Vec<u8> },
    Redeclaration { name: Vec<u8> },
    AssignToUndeclared { name: Vec<u8> },
    UndefinedFunction { name: Vec<u8> },
    ArityMismatch { name: Vec<u8> },
    MissingReturn { name: Vec<u8> },
    DoubleReturn,
    ReturnOutsideFunction,
    TypeError,
    CallDepthExceeded,
}

/// The mathematical shape of an evaluation-time failure.
pub enum EvalErrorView {
    UndefinedVariable { name: Seq<u8> },
    Redeclaration { name: Seq<u8> },
    AssignToUndeclared { name: Seq<u8> },
    UndefinedFunction { name: Seq<u8> },
    ArityMismatch { name: Seq<u8> },
    MissingReturn { name: Seq<u8> },
    DoubleReturn,
    ReturnOutsideFunction,
    TypeError,
    CallDepthExceeded,
}

impl View for EvalError {
    type V = EvalErrorView;

    open spec fn view(&self) -> EvalErrorView {
        match self {
            EvalError::UndefinedVariable { name } => EvalErrorView::UndefinedVariable {
                name: name@,
            },
            EvalError::Redeclaration { name } => EvalErrorView::Redeclaration { name: name@ },
            EvalError::AssignToUndeclared { name } => EvalErrorView::AssignToUndeclared {
                name: name@,
            },
            EvalError::UndefinedFunction { name } => EvalErrorView::UndefinedFunction {
                name: name@,
            },
            EvalError::ArityMismatch { name } => EvalErrorView::ArityMismatch { name: name@ },
            EvalError::MissingReturn { name } => EvalErrorView::MissingReturn { name: name@ },
            EvalError::DoubleReturn => EvalErrorView::DoubleReturn,
            EvalError::ReturnOutsideFunction => EvalErrorView::ReturnOutsideFunction,
            EvalError::TypeError => EvalErrorView::TypeError,
            EvalError::CallDepthExceeded => EvalErrorView::CallDepthExceeded,
        }
    }
}

/// A failure of program construction.
#[derive(Debug, PartialEq, Eq)]
pub enum ProgramError {
    MultipleEntryBlocks,
    DuplicateFunction { name: Vec<u8> },
    NoEntryBlock,
}

/// The mathematical shape of a program-construction failure.
pub enum ProgramErrorView {
    MultipleEntryBlocks,
    DuplicateFunction { name: Seq<u8> },
    NoEntryBlock,
}

impl View for ProgramError {
    type V = ProgramErrorView;

    open spec fn view(&self) -> ProgramErrorView {
        match self {
            ProgramError::MultipleEntryBlocks => ProgramErrorView::MultipleEntryBlocks,
            ProgramError::DuplicateFunction { name } => ProgramErrorView::DuplicateFunction {
                name: name@,
            },
            ProgramError::NoEntryBlock => ProgramErrorView::NoEntryBlock,
        }
    }
}

pub open spec fn eval_res_view(r: Result<Value, EvalError>) -> Result<Value, EvalErrorView> {
    match r {
        Ok(v) => Ok(v),
        Err(e) => Err(e@),
    }
}

/// The callee's fresh scope: parameter names bound to argument values,
/// positionally.
pub open spec fn bind_params(params: Seq<Seq<u8>>, vals: Seq<Value>) -> Map<Seq<u8>, Value>
    decreases params.len(),
{
    if params.len() == 0 {
        Map::empty()
    } else {
        bind_params(params.drop_last(), vals.drop_last()).insert(params.last(), vals.last())
    }
}

/// What an expression reduces to: a pure function of the function table,
/// the current variables, the expression, and the remaining call depth.
pub open spec fn spec_reduce(
    g: Map<Seq<u8>, FnDefView>,
    vars: Map<Seq<u8>, Value>,
    e: ExprView,
    fuel: nat,
) -> Result<Value, EvalErrorView>
    decreases fuel, 3 * ev_size(e),
{
    match e {
        ExprView::IntLit { value } => Ok(Value::Int(value)),
        ExprView::VarRef { variable } => {
            if vars.contains_key(variable) {
                Ok(vars[variable])
            } else {
                Err(EvalErrorView::UndefinedVariable { name: variable })
            }
        },
        ExprView::Add { lhs, rhs } => match spec_reduce(g, vars, *lhs, fuel) {
            Err(er) => Err(er),
            Ok(Value::Int(l)) => match spec_reduce(g, vars, *rhs, fuel) {
                Err(er) => Err(er),
                Ok(Value::Int(rv)) => Ok(Value::Int(l.wrapping_add(rv))),
            },
        },
        ExprView::FuncCall { func_name, args } => {
            if !g.contains_key(func_name) {
                Err(EvalErrorView::UndefinedFunction { name: func_name })
            } else {
                match spec_reduce_args(g, vars, args, Seq::empty(), fuel) {
                    Err(er) => Err(er),
                    Ok(argvals) => {
                        if g[func_name].params.len() != argvals.len() {
                            Err(EvalErrorView::ArityMismatch { name: func_name })
                        } else if fuel == 0 {
                            Err(EvalErrorView::CallDepthExceeded)
                        } else {
                            spec_call(g, func_name, g[func_name], argvals, (fuel - 1) as nat)
                        }
                    },
                }
            }
        },
    }
}

/// The argument values, reduced left to right in the caller's scope, onto
/// `acc`.
pub open spec fn spec_reduce_args(
    g: Map<Seq<u8>, FnDefView>,
    vars: Map<Seq<u8>, Value>,
    args: Seq<ExprView>,
    acc: Seq<Value>,
    fuel: nat,
) -> Result<Seq<Value>, EvalErrorView>
    decreases fuel, 3 * evs_size(args) + 2,
{
    if args.len() == 0 {
        Ok(acc)
    } else {
        match spec_reduce(g, vars, args[0], fuel) {
            Err(er) => Err(er),
            Ok(v) => spec_reduce_args(g, vars, args.drop_first(), acc.push(v), fuel),
        }
    }
}

/// A function invocation: a brand-new scope of the parameters alone, the
/// body run in it, then the pending return value — or `MissingReturn` when
/// the body completed without setting one.  The callee's result depends on
/// nothing of the caller's scope but the argument values.
pub open spec fn spec_call(
    g: Map<Seq<u8>, FnDefView>,
    name: Seq<u8>,
    f: FnDefView,
    argvals: Seq<Value>,
    fuel: nat,
) -> Result<Value, EvalErrorView>
    decreases fuel, 3 * stmts_size(f.body) + 3,
{
    match spec_exec_stmts(
        g,
        Frame { vars: bind_params(f.params, argvals), ret: None },
        f.body,
        fuel,
    ) {
        Err(er) => Err(er),
        Ok(fr) => match fr.ret {
            Some(v) => Ok(v),
            None => Err(EvalErrorView::MissingReturn { name }),
        },
    }
}

/// Statements run in order, each against the frame the previous one left.
pub open spec fn spec_exec_stmts(
    g: Map<Seq<u8>, FnDefView>,
    frame: Frame,
    stmts: Seq<StatementView>,
    fuel: nat,
) -> Result<Frame, EvalErrorView>
    decreases fuel, 3 * stmts_size(stmts) + 2,
{
    if stmts.len() == 0 {
        Ok(frame)
    } else {
        match spec_eval_stmt(g, frame, stmts[0], fuel) {
            Err(er) => Err(er),
            Ok(f2) => spec_exec_stmts(g, f2, stmts.drop_first(), fuel),
        }
    }
}

/// What one statement does to the frame: a declaration inserts a new
/// binding (`Redeclaration` if the name exists), an assignment overwrites
/// an existing one (`AssignToUndeclared` if it does not), a return sets
/// the pending return value (`DoubleReturn` if already set).  Each check
/// happens before the statement's expression is reduced.
pub open spec fn spec_eval_stmt(
    g: Map<Seq<u8>, FnDefView>,
    frame: Frame,
    s: StatementView,
    fuel: nat,
) -> Result<Frame, EvalErrorView>
    decreases fuel, 3 * stmt_size(s) + 1,
{
    match s {
        StatementView::VarDeclaration { variable, value } => {
            if frame.vars.contains_key(variable) {
                Err(EvalErrorView::Redeclaration { name: variable })
            } else {
                match spec_reduce(g, frame.vars, value, fuel) {
                    Err(er) => Err(er),
                    Ok(v) => Ok(Frame { vars: frame.vars.insert(variable, v), ret: frame.ret }),
                }
            }
        },
        StatementView::Assignment { variable, value } => {
            if !frame.vars.contains_key(variable) {
                Err(EvalErrorView::AssignToUndeclared { name: variable })
            } else {
                match spec_reduce(g, frame.vars, value, fuel) {
                    Err(er) => Err(er),
                    Ok(v) => Ok(Frame { vars: frame.vars.insert(variable, v), ret: frame.ret }),
                }
            }
        },
        StatementView::Return { value } => {
            if frame.ret is Some {
                Err(EvalErrorView::DoubleReturn)
            } else {
                match spec_reduce(g, frame.vars, value, fuel) {
                    Err(er) => Err(er),
                    Ok(v) => Ok(Frame { vars: frame.vars, ret: Some(v) }),
                }
            }
        },
    }
}

/// The entry block's statements run in order, except that a `return`
/// statement, when reached, fails with `ReturnOutsideFunction`.
pub open spec fn spec_exec_entry(
    g: Map<Seq<u8>, FnDefView>,
    frame: Frame,
    stmts: Seq<StatementView>,
    fuel: nat,
) -> Result<Frame, EvalErrorView>
    decreases stmts.len(),
{
    if stmts.len() == 0 {
        Ok(frame)
    } else if stmts[0] is Return {
        Err(EvalErrorView::ReturnOutsideFunction)
    } else {
        match spec_eval_stmt(g, frame, stmts[0], fuel) {
            Err(er) => Err(er),
            Ok(f2) => spec_exec_entry(g, f2, stmts.drop_first(), fuel),
        }
    }
}

/// The mathematical shape of a program: the entry block and the function
/// table.
pub struct ProgramView {
    pub entry: Seq<StatementView>,
    pub funcs: Map<Seq<u8>, FnDefView>,
}

/// Items partitioned in encounter order into the one entry block and the
/// named functions.
pub open spec fn spec_build_program(
    items: Seq<ItemView>,
    entry: Option<Seq<StatementView>>,
    funcs: Map<Seq<u8>, FnDefView>,
) -> Result<ProgramView, ProgramErrorView>
    decreases items.len(),
{
    if items.len() == 0 {
        match entry {
            Some(body) => Ok(ProgramView { entry: body, funcs }),
            None => Err(ProgramErrorView::NoEntryBlock),
        }
    } else {
        match items[0] {
            ItemView::EntryBlock { body } => {
                if entry is Some {
                    Err(ProgramErrorView::MultipleEntryBlocks)
                } else {
                    spec_build_program(items.drop_first(), Some(body), funcs)
                }
            },
            ItemView::FuncDef { name, arg_names, body } => {
                if funcs.contains_key(name) {
                    Err(ProgramErrorView::DuplicateFunction { name })
                } else {
                    spec_build_program(
                        items.drop_first(),
                        entry,
                        funcs.insert(name, FnDefView { params: arg_names, body }),
                    )
                }
            },
        }
    }
}

pub open spec fn spec_from_items(items: Seq<ItemView>) -> Result<ProgramView, ProgramErrorView> {
    spec_build_program(items, None, Map::empty())
}

/// The variables of one invocation, keys unique, plus the pending return
/// value.  Bindings live in a list; the newest binding for a name wins, so
/// the list's meaning is the map that `scope_view` folds it into.
#[derive(Debug)]
pub struct Context {
    vars: Vec<(Vec<u8>, Value)>,
    func_ret: Option<Value>,
}

pub open spec fn scope_view(s: Seq<(Vec<u8>, Value)>) -> Map<Seq<u8>, Value>
    decreases s,
{
    if s.len() == 0 {
        Map::empty()
    } else {
        scope_view(s.drop_last()).insert(s.last().0@, s.last().1)
    }
}

impl View for Context {
    type V = Frame;

    closed spec fn view(&self) -> Frame {
        Frame { vars: scope_view(self.vars@), ret: self.func_ret }
    }
}

/// Two byte buffers hold the same text.
pub fn bytes_eq(a: &Vec<u8>, b: &Vec<u8>) -> (r: bool)
    ensures
        r == (a@ == b@),
{
    if a.len() != b.len() {
        return false;
    }
    let mut k: usize = 0;
    while k < a.len()
        invariant
            0 <= k <= a@.len(),
            a@.len() == b@.len(),
            forall|m: int| 0 <= m < k ==> a@[m] == b@[m],
        decreases a@.len() - k,
    {
        if a[k] != b[k] {
            return false;
        }
        k = k + 1;
    }
    proof {
        assert(a@ =~= b@);
    }
    true
}

impl Context {
    /// A fresh, empty scope with no pending return value.
    pub fn new() -> (c: Context)
        ensures
            c@.vars == Map::<Seq<u8>, Value>::empty(),
            c@.ret is None,
    {
        Context { vars: Vec::new(), func_ret: None }
    }

    /// The value bound to `varname`, if any.
    pub fn get_var(&self, varname: &Vec<u8>) -> (r: Option<Value>)
        ensures
            (match r {
                Some(v) => self@.vars.contains_key(varname@) && self@.vars[varname@] == v,
                None => !self@.vars.contains_key(varname@),
            }),
    {
        let mut k: usize = self.vars.len();
        proof {
            assert(self.vars@.subrange(0, self.vars@.len() as int) =~= self.vars@);
        }
        while k > 0
            invariant
                0 <= k <= self.vars@.len(),
                self@.vars.contains_key(varname@) == scope_view(
                    self.vars@.subrange(0, k as int),
                ).contains_key(varname@),
                self@.vars.contains_key(varname@) ==> self@.vars[varname@] == scope_view(
                    self.vars@.subrange(0, k as int),
                )[varname@],
            decreases k,
        {
            let entry = &self.vars[k - 1];
            proof {
                assert(self.vars@.subrange(0, k as int).drop_last() =~= self.vars@.subrange(
                    0,
                    k - 1,
                ));
                assert(self.vars@.subrange(0, k as int).last() == self.vars@[k - 1]);
            }
            if bytes_eq(&entry.0, varname) {
                return Some(entry.1);
            }
            k = k - 1;
        }
        proof {
            assert(self.vars@.subrange(0, 0) =~= Seq::<(Vec<u8>, Value)>::empty());
        }
        None
    }

    /// Whether `varname` is bound in this scope.
    pub fn has_var(&self, varname: &Vec<u8>) -> (r: bool)
        ensures
            r == self@.vars.contains_key(varname@),
    {
        self.get_var(varname).is_some()
    }

    /// Binds `varname` to `val`, shadowing any existing binding: the
    /// scope's map gains or overwrites this one entry.
    pub fn create_var(&mut self, varname: Vec<u8>, val: Value)
        ensures
            final(self)@.vars == old(self)@.vars.insert(varname@, val),
            final(self)@.ret == old(self)@.ret,
    {
        let ghost oldvars = self.vars@;
        self.vars.push((varname, val));
        proof {
            assert(self.vars@.drop_last() =~= oldvars);
        }
    }

    /// Reduces an expression in this scope: a pure function of the scope,
    /// the function table, the expression, and the remaining call depth.
    fn reduce_expr(&self, global: &GlobalContext, expr: &Expr, fuel: u64) -> (r: Result<
        Value,
        EvalError,
    >)
        ensures
            eval_res_view(r) == spec_reduce(global@, self@.vars, expr@, fuel as nat),
        decreases fuel, 3 * ev_size(expr@),
    {
        match expr {
            Expr::IntLit { value } => Ok(Value::Int(*value)),
            Expr::VarRef { variable } => match self.get_var(variable) {
                Some(v) => Ok(v),
                None => Err(EvalError::UndefinedVariable { name: clone_bytes(variable) }),
            },
            Expr::Add { lhs, rhs } => match self.reduce_expr(global, lhs, fuel) {
                Err(e) => Err(e),
                Ok(Value::Int(l)) => match self.reduce_expr(global, rhs, fuel) {
                    Err(e) => Err(e),
                    Ok(Value::Int(rv)) => Ok(Value::Int(l.wrapping_add(rv))),
                },
            },
            Expr::FuncCall { func_name, args } => {
                match global.get_func(func_name) {
                    None => Err(EvalError::UndefinedFunction { name: clone_bytes(func_name) }),
                    Some(f) => {
                        let ghost argsv = crate::ast::exprs_view(args@);
                        let mut argvals: Vec<Value> = Vec::new();
                        let mut k: usize = 0;
                        proof {
                            crate::ast::lemma_exprs_view_len(args@);
                            assert(argsv.subrange(0, argsv.len() as int) =~= argsv);
                        }
                        while k < args.len()
                            invariant
                                0 <= k <= args@.len(),
                                argsv == crate::ast::exprs_view(args@),
                                argsv.len() == args@.len(),
                                expr@ == (ExprView::FuncCall {
                                    func_name: func_name@,
                                    args: argsv,
                                }),
                                global@.contains_key(func_name@),
                                spec_reduce_args(
                                    global@,
                                    self@.vars,
                                    argsv,
                                    Seq::empty(),
                                    fuel as nat,
                                ) == spec_reduce_args(
                                    global@,
                                    self@.vars,
                                    argsv.subrange(k as int, argsv.len() as int),
                                    argvals@,
                                    fuel as nat,
                                ),
                            decreases args@.len() - k,
                        {
                            proof {
                                crate::ast::lemma_exprs_view_index(args@, k as int);
                                lemma_evs_size_index(argsv, k as int);
                            }
                            let arg_r = self.reduce_expr(global, &args[k], fuel);
                            match arg_r {
                                Err(e) => {
                                    return Err(e);
                                },
                                Ok(v) => {
                                    argvals.push(v);
                                },
                            }
                            k = k + 1;
                            proof {
                                assert(argsv.subrange(k - 1, argsv.len() as int).drop_first()
                                    =~= argsv.subrange(k as int, argsv.len() as int));
                            }
                        }
                        proof {
                            assert(argsv.subrange(k as int, argsv.len() as int) =~= Seq::<
                                ExprView,
                            >::empty());
                        }
                        if f.arg_names.len() != argvals.len() {
                            return Err(
                                EvalError::ArityMismatch { name: clone_bytes(func_name) },
                            );
                        }
                        if fuel == 0 {
                            return Err(EvalError::CallDepthExceeded);
                        }
                        f.call(func_name, argvals, global, fuel - 1)
                    },
                }
            },
        }
    }

    /// Runs one statement against this scope, as `spec_eval_stmt` says; on
    /// failure the scope is unchanged.
    fn eval(&mut self, global: &GlobalContext, stmt: &Statement, fuel: u64) -> (r: Result<
        (),
        EvalError,
    >)
        ensures
            (match r {
                Ok(()) => spec_eval_stmt(global@, old(self)@, stmt@, fuel as nat) == Ok::<
                    Frame,
                    EvalErrorView,
                >(final(self)@),
                Err(e) => spec_eval_stmt(global@, old(self)@, stmt@, fuel as nat) == Err::<
                    Frame,
                    EvalErrorView,
                >(e@) && final(self)@ == old(self)@,
            }),
        decreases fuel, 3 * stmt_size(stmt@) + 1,
    {
        match stmt {
            Statement::VarDeclaration { variable, value } => {
                if self.has_var(variable) {
                    return Err(EvalError::Redeclaration { name: clone_bytes(variable) });
                }
                match self.reduce_expr(global, value, fuel) {
                    Err(e) => Err(e),
                    Ok(v) => {
                        self.create_var(clone_bytes(variable), v);
                        Ok(())
                    },
                }
            },
            Statement::Assignment { variable, value } => {
                if !self.has_var(variable) {
                    return Err(EvalError::AssignToUndeclared { name: clone_bytes(variable) });
                }
                match self.reduce_expr(global, value, fuel) {
                    Err(e) => Err(e),
                    Ok(v) => {
                        self.create_var(clone_bytes(variable), v);
                        Ok(())
                    },
                }
            },
            Statement::Return { value } => {
                if self.func_ret.is_some() {
                    return Err(EvalError::DoubleReturn);
                }
                match self.reduce_expr(global, value, fuel) {
                    Err(e) => Err(e),
                    Ok(v) => {
                        self.func_ret = Some(v);
                        Ok(())
                    },
                }
            },
        }
    }
}

/// A named function's parameters and body.
#[derive(Debug)]
struct Function {
    arg_names: Vec<Vec<u8>>,
    body: Vec<Statement>,
}

impl View for Function {
    type V = FnDefView;

    closed spec fn view(&self) -> FnDefView {
        FnDefView { params: params_view(self.arg_names@), body: stmts_view(self.body@) }
    }
}

impl Function {
    fn new(arg_names: Vec<Vec<u8>>, body: Vec<Statement>) -> (f: Function)
        ensures
            f@ == (FnDefView { params: params_view(arg_names@), body: stmts_view(body@) }),
    {
        Function { arg_names, body }
    }

    /// Invokes this function on already-reduced argument values, in a
    /// brand-new scope populated by the parameters alone.
    fn call(&self, name: &Vec<u8>, args: Vec<Value>, global: &GlobalContext, fuel: u64) -> (r:
        Result<Value, EvalError>)
        requires
            self@.params.len() == args@.len(),
        ensures
            eval_res_view(r) == spec_call(global@, name@, self@, args@, fuel as nat),
        decreases fuel, 3 * stmts_size(self@.body) + 3,
    {
        let mut ctx = Context::new();
        let mut k: usize = 0;
        proof {
            assert(self@.params.subrange(0, 0) =~= Seq::<Seq<u8>>::empty());
            assert(args@.subrange(0, 0) =~= Seq::<Value>::empty());
        }
        while k < self.arg_names.len()
            invariant
                0 <= k <= self.arg_names@.len(),
                self@.params.len() == args@.len(),
                self@.params.len() == self.arg_names@.len(),
                ctx@.ret is None,
                ctx@.vars == bind_params(
                    self@.params.subrange(0, k as int),
                    args@.subrange(0, k as int),
                ),
            decreases self.arg_names@.len() - k,
        {
            let pname = clone_bytes(&self.arg_names[k]);
            ctx.create_var(pname, args[k]);
            k = k + 1;
            proof {
                assert(self@.params.subrange(0, k as int).drop_last() =~= self@.params.subrange(
                    0,
                    k - 1,
                ));
                assert(args@.subrange(0, k as int).drop_last() =~= args@.subrange(0, k - 1));
                assert(self@.params.subrange(0, k as int).last() == self@.params[k - 1]);
                assert(args@.subrange(0, k as int).last() == args@[k - 1]);
            }
        }
        proof {
            assert(self@.params.subrange(0, k as int) =~= self@.params);
            assert(args@.subrange(0, k as int) =~= args@);
        }
        let ghost frame0 = Frame { vars: bind_params(self@.params, args@), ret: None };
        let mut idx: usize = 0;
        proof {
            lemma_stmts_view_len(self.body@);
            assert(self@.body.subrange(0, self@.body.len() as int) =~= self@.body);
        }
        while idx < self.body.len()
            invariant
                0 <= idx <= self.body@.len(),
                self@.body.len() == self.body@.len(),
                frame0 == (Frame { vars: bind_params(self@.params, args@), ret: None }),
                spec_exec_stmts(global@, frame0, self@.body, fuel as nat) == spec_exec_stmts(
                    global@,
                    ctx@,
                    self@.body.subrange(idx as int, self@.body.len() as int),
                    fuel as nat,
                ),
            decreases self.body@.len() - idx,
        {
            proof {
                lemma_stmts_view_index(self.body@, idx as int);
                lemma_stmts_size_index(self@.body, idx as int);
            }
            let stmt = &self.body[idx];
            match ctx.eval(global, stmt, fuel) {
                Err(e) => {
                    return Err(e);
                },
                Ok(()) => {},
            }
            idx = idx + 1;
            proof {
                assert(self@.body.subrange(idx - 1, self@.body.len() as int).drop_first()
                    =~= self@.body.subrange(idx as int, self@.body.len() as int));
            }
        }
        proof {
            assert(self@.body.subrange(idx as int, self@.body.len() as int) =~= Seq::<
                StatementView,
            >::empty());
        }
        match ctx.func_ret {
            Some(v) => Ok(v),
            None => Err(EvalError::MissingReturn { name: clone_bytes(name) }),
        }
    }
}

/// The global, read-only registry of named functions, built once before
/// execution begins.
#[derive(Debug)]
struct GlobalContext {
    functions: Vec<(Vec<u8>, Function)>,
}

pub open spec fn funcs_view(s: Seq<(Vec<u8>, Function)>) -> Map<Seq<u8>, FnDefView>
    decreases s,
{
    if s.len() == 0 {
        Map::empty()
    } else {
        funcs_view(s.drop_last()).insert(s.last().0@, s.last().1@)
    }
}

impl View for GlobalContext {
    type V = Map<Seq<u8>, FnDefView>;

    closed spec fn view(&self) -> Map<Seq<u8>, FnDefView> {
        funcs_view(self.functions@)
    }
}

impl GlobalContext {
    fn new() -> (g: GlobalContext)
        ensures
            g@ == Map::<Seq<u8>, FnDefView>::empty(),
    {
        GlobalContext { functions: Vec::new() }
    }

    /// The function registered under `func_name`, if any.
    fn get_func(&self, func_name: &Vec<u8>) -> (r: Option<&Function>)
        ensures
            (match r {
                Some(f) => self@.contains_key(func_name@) && f@ == self@[func_name@],
                None => !self@.contains_key(func_name@),
            }),
    {
        let mut k: usize = self.functions.len();
        proof {
            assert(self.functions@.subrange(0, self.functions@.len() as int) =~= self.functions@);
        }
        while k > 0
            invariant
                0 <= k <= self.functions@.len(),
                self@.contains_key(func_name@) == funcs_view(
                    self.functions@.subrange(0, k as int),
                ).contains_key(func_name@),
                self@.contains_key(func_name@) ==> self@[func_name@] == funcs_view(
                    self.functions@.subrange(0, k as int),
                )[func_name@],
            decreases k,
        {
            let entry = &self.functions[k - 1];
            proof {
                assert(self.functions@.subrange(0, k as int).drop_last() =~= self
                    .functions@
                    .subrange(0, k - 1));
                assert(self.functions@.subrange(0, k as int).last() == self.functions@[k - 1]);
            }
            if bytes_eq(&entry.0, func_name) {
                return Some(&entry.1);
            }
            k = k - 1;
        }
        proof {
            assert(self.functions@.subrange(0, 0) =~= Seq::<(Vec<u8>, Function)>::empty());
        }
        None
    }

    /// Whether a function is registered under `func_name`.
    fn has_func(&self, func_name: &Vec<u8>) -> (r: bool)
        ensures
            r == self@.contains_key(func_name@),
    {
        self.get_func(func_name).is_some()
    }

    /// Registers a function; a duplicate name fails and leaves the
    /// registry unchanged.
    fn add_func(&mut self, func_name: Vec<u8>, func: Function) -> (r: Result<(), ProgramError>)
        ensures
            (match r {
                Ok(()) => !old(self)@.contains_key(func_name@) && final(self)@ == old(
                    self,
                )@.insert(func_name@, func@),
                Err(e) => old(self)@.contains_key(func_name@) && final(self)@ == old(self)@ && e@
                    == (ProgramErrorView::DuplicateFunction { name: func_name@ }),
            }),
    {
        if self.has_func(&func_name) {
            return Err(ProgramError::DuplicateFunction { name: func_name });
        }
        let ghost oldfns = self.functions@;
        self.functions.push((func_name, func));
        proof {
            assert(self.functions@.drop_last() =~= oldfns);
        }
        Ok(())
    }
}

/// The root structure: the entry block's statements and the function
/// table, consumed by `execute`.
#[derive(Debug)]
pub struct Program {
    begin_body: Vec<Statement>,
    global: GlobalContext,
}

impl View for Program {
    type V = ProgramView;

    closed spec fn view(&self) -> ProgramView {
        ProgramView { entry: stmts_view(self.begin_body@), funcs: self.global@ }
    }
}

pub open spec fn entry_view(o: Option<Vec<Statement>>) -> Option<Seq<StatementView>> {
    match o {
        Some(b) => Some(stmts_view(b@)),
        None => None,
    }
}

impl Program {
    /// Partitions the items, in encounter order, into the one entry block
    /// and the named functions; fails with a `ProgramError` if zero or
    /// more than one entry block is present, or if two functions share a
    /// name.
    pub fn from_items(items: Vec<Item>) -> (r: Result<Program, ProgramError>)
        ensures
            (match r {
                Ok(p) => spec_from_items(items_view(items@)) == Ok::<
                    ProgramView,
                    ProgramErrorView,
                >(p@),
                Err(e) => spec_from_items(items_view(items@)) == Err::<
                    ProgramView,
                    ProgramErrorView,
                >(e@),
            }),
    {
        let mut begin_body: Option<Vec<Statement>> = None;
        let mut global = GlobalContext::new();
        let mut rest = items;
        while rest.len() > 0
            invariant
                spec_from_items(items_view(items@)) == spec_build_program(
                    items_view(rest@),
                    entry_view(begin_body),
                    global@,
                ),
            decreases rest@.len(),
        {
            proof {
                crate::ast::lemma_items_view_index(rest@, 0);
                lemma_items_view_drop_first(rest@);
            }
            let ghost restv = rest@;
            let it = rest.remove(0);
            proof {
                assert(rest@ =~= restv.drop_first());
            }
            match it {
                Item::EntryBlock { body } => {
                    if begin_body.is_some() {
                        return Err(ProgramError::MultipleEntryBlocks);
                    }
                    begin_body = Some(body);
                },
                Item::FuncDef { name, arg_names, body } => {
                    let f = Function::new(arg_names, body);
                    match global.add_func(name, f) {
                        Ok(()) => {},
                        Err(e) => {
                            return Err(e);
                        },
                    }
                },
            }
        }
        proof {
            assert(items_view(rest@) =~= Seq::<ItemView>::empty());
        }
        match begin_body {
            Some(body) => Ok(Program { begin_body: body, global }),
            None => Err(ProgramError::NoEntryBlock),
        }
    }

    /// Runs the entry block's statements, in order, against a fresh scope
    /// with read-only access to the function table, within the given
    /// call-depth budget; yields the final scope for inspection.
    pub fn execute(&self, fuel: u64) -> (r: Result<Context, EvalError>)
        ensures
            (match r {
                Ok(ctx) => spec_exec_entry(
                    self@.funcs,
                    Frame { vars: Map::empty(), ret: None },
                    self@.entry,
                    fuel as nat,
                ) == Ok::<Frame, EvalErrorView>(ctx@),
                Err(e) => spec_exec_entry(
                    self@.funcs,
                    Frame { vars: Map::empty(), ret: None },
                    self@.entry,
                    fuel as nat,
                ) == Err::<Frame, EvalErrorView>(e@),
            }),
    {
        let mut ctx = Context::new();
        let ghost frame0 = Frame { vars: Map::<Seq<u8>, Value>::empty(), ret: None };
        let mut k: usize = 0;
        proof {
            lemma_stmts_view_len(self.begin_body@);
            assert(self@.entry.subrange(0, self@.entry.len() as int) =~= self@.entry);
            assert(ctx@.vars =~= frame0.vars);
        }
        while k < self.begin_body.len()
            invariant
                0 <= k <= self.begin_body@.len(),
                self@.entry.len() == self.begin_body@.len(),
                frame0 == (Frame { vars: Map::<Seq<u8>, Value>::empty(), ret: None }),
                spec_exec_entry(self@.funcs, frame0, self@.entry, fuel as nat) == spec_exec_entry(
                    self@.funcs,
                    ctx@,
                    self@.entry.subrange(k as int, self@.entry.len() as int),
                    fuel as nat,
                ),
            decreases self.begin_body@.len() - k,
        {
            proof {
                lemma_stmts_view_index(self.begin_body@, k as int);
            }
            let stmt = &self.begin_body[k];
            if matches!(stmt, Statement::Return { .. }) {
                return Err(EvalError::ReturnOutsideFunction);
            }
            match ctx.eval(&self.global, stmt, fuel) {
                Err(e) => {
                    return Err(e);
                },
                Ok(()) => {},
            }
            k = k + 1;
            proof {
                assert(self@.entry.subrange(k - 1, self@.entry.len() as int).drop_first()
                    =~= self@.entry.subrange(k as int, self@.entry.len() as int));
            }
        }
        proof {
            assert(self@.entry.subrange(k as int, self@.entry.len() as int) =~= Seq::<
                StatementView,
            >::empty());
        }
        Ok(ctx)
    }
}

pub proof fn lemma_items_view_drop_first(s: Seq<Item>)
    requires
        s.len() > 0,
    ensures
        items_view(s.drop_first()) == items_view(s).drop_first(),
{
    crate::ast::lemma_items_view_len(s);
    crate::ast::lemma_items_view_len(s.drop_first());
    assert forall|m: int| 0 <= m < s.len() - 1 implies items_view(s.drop_first())[m] == items_view(
        s,
    ).drop_first()[m] by {
        crate::ast::lemma_items_view_index(s.drop_first(), m);
        crate::ast::lemma_items_view_index(s, m + 1);
        assert(s.drop_first()[m] == s[m + 1]);
    }
    assert(items_view(s.drop_first()) =~= items_view(s).drop_first());
}

} // verus!
