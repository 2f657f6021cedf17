use vstd::prelude::*;

use crate::builtins;
use crate::builtins::{integer_spec, RENDER_DEPTH};
use crate::error::{Runtime, RuntimeV};
use crate::node::{ident_name, node_view, nodes_view, wf_node, wf_nodes, Node, NodeV};
use crate::symbol_table::{scope_find, scope_set, st_assign, st_insert, st_lookup, SymbolTable};
use crate::token::{Token, TokenKind, TokenV};
use crate::value::{
    lists_view, spec_binary_operation, spec_display, spec_index, spec_list_assign,
    spec_unary_operation, value_of_literal, wf_lists, wf_value, Builtin, Value, ValueV,
};

verus! {

/// Why evaluation stopped early: a runtime error, or a request from the
/// program (the `exit` built-in) that the host terminate with a code.
#[derive(Debug)]
pub enum Halt {
    Error(Runtime),
    Exit(i32),
}

/// The mathematical model of a halt.
pub enum HaltV {
    Error(RuntimeV),
    Exit(i32),
}

impl View for Halt {
    type V = HaltV;

    open spec fn view(&self) -> HaltV {
        match self {
            Halt::Error(e) => HaltV::Error(e@),
            Halt::Exit(c) => HaltV::Exit(*c),
        }
    }
}

/// The model of an evaluation outcome.
pub open spec fn eval_res_view(r: Result<Value, Halt>) -> Result<ValueV, HaltV> {
    match r {
        Ok(v) => Ok(v@),
        Err(h) => Err(h@),
    }
}

/// A runtime error as a halt.
pub open spec fn halt_err(e: RuntimeV) -> Result<ValueV, HaltV> {
    Err(HaltV::Error(e))
}

/// A value-level outcome as an evaluation outcome.
pub open spec fn lift(r: Result<ValueV, RuntimeV>) -> Result<ValueV, HaltV> {
    match r {
        Ok(v) => Ok(v),
        Err(e) => Err(HaltV::Error(e)),
    }
}

/// The model of the whole evaluator state: the scope stack, the arena of
/// shared list buffers, the pending input lines (last to be read first),
/// and the output produced so far.
pub struct EvalStateV {
    pub scopes: Seq<Seq<(Seq<char>, ValueV)>>,
    pub lists: Seq<Seq<ValueV>>,
    pub inputs: Seq<Seq<char>>,
    pub output: Seq<Seq<char>>,
}

/// Every value bound in the scope stack is well-formed against the arena.
pub open spec fn wf_scopes(scopes: Seq<Seq<(Seq<char>, ValueV)>>, nlists: int) -> bool {
    forall|i: int, k: int|
        0 <= i < scopes.len() && 0 <= k < (#[trigger] scopes[i]).len() ==> wf_value(
            (#[trigger] scopes[i][k]).1,
            nlists,
        )
}

/// A coherent evaluator state: at least the global scope, and every stored
/// value well-formed against the arena.
pub open spec fn wf_state(st: EvalStateV) -> bool {
    &&& st.scopes.len() >= 1
    &&& wf_scopes(st.scopes, st.lists.len() as int)
    &&& wf_lists(st.lists)
}

/// What a built-in does to the state and yields, its arity already
/// checked.
pub open spec fn builtin_spec(b: Builtin, vs: Seq<ValueV>, st: EvalStateV) -> (
    EvalStateV,
    Result<ValueV, HaltV>,
) {
    match b {
        Builtin::Print => (
            EvalStateV {
                output: st.output.push(spec_display(vs[0], st.lists, RENDER_DEPTH as nat)),
                ..st
            },
            Ok(ValueV::NoneValue),
        ),
        Builtin::Println => (
            EvalStateV {
                output: st.output.push(
                    spec_display(vs[0], st.lists, RENDER_DEPTH as nat).push('\n'),
                ),
                ..st
            },
            Ok(ValueV::NoneValue),
        ),
        Builtin::Input => if st.inputs.len() > 0 {
            (
                EvalStateV { inputs: st.inputs.drop_last(), ..st },
                Ok(ValueV::Str(st.inputs.last())),
            )
        } else {
            (st, Ok(ValueV::NoneValue))
        },
        Builtin::Exit => match vs[0] {
            ValueV::Integer(i) => if 0 <= i <= 255 {
                (st, Err(HaltV::Exit(i)))
            } else {
                (st, Ok(ValueV::NoneValue))
            },
            _ => (st, Ok(ValueV::NoneValue)),
        },
        Builtin::Integer => (st, Ok(integer_spec(vs[0]))),
        Builtin::String => (st, Ok(ValueV::Str(spec_display(vs[0], st.lists, RENDER_DEPTH as nat)))),
    }
}

/// The scope stack with a call's parameters bound, left to right, in the
/// innermost scope.
pub open spec fn bind_params(
    scopes: Seq<Seq<(Seq<char>, ValueV)>>,
    names: Seq<Seq<char>>,
    vals: Seq<ValueV>,
    k: int,
) -> Seq<Seq<(Seq<char>, ValueV)>>
    decreases names.len() - k,
{
    if k < 0 || k >= names.len() || k >= vals.len() {
        scopes
    } else {
        bind_params(st_insert(scopes, names[k], vals[k]), names, vals, k + 1)
    }
}

/// What evaluating a node does to the state and yields. The fuel bounds
/// call depth and loop iterations: user function bodies and each loop turn
/// burn one unit, and a spent budget is reported as a halt.
pub open spec fn eval_spec(st: EvalStateV, n: NodeV, fuel: nat) -> (
    EvalStateV,
    Result<ValueV, HaltV>,
)
    decreases fuel, n, 0nat,
{
    match n {
        NodeV::Atom { value } => (st, Ok(value_of_literal(value))),
        NodeV::List { values } => {
            let (st1, r) = eval_params_spec(st, values, 0, fuel);
            match r {
                Err(h) => (st1, Err(h)),
                Ok(vs) => (
                    EvalStateV { lists: st1.lists.push(vs), ..st1 },
                    Ok(ValueV::List(st1.lists.len() as int)),
                ),
            }
        },
        NodeV::BinaryOp { left, operator, right } => {
            let (st1, rr) = eval_spec(st, *right, fuel);
            match rr {
                Err(h) => (st1, Err(h)),
                Ok(rv) => {
                    let (st2, rl) = eval_spec(st1, *left, fuel);
                    match rl {
                        Err(h) => (st2, Err(h)),
                        Ok(lv) => (st2, lift(spec_binary_operation(lv, rv, operator))),
                    }
                },
            }
        },
        NodeV::UnaryOp { operator, value } => {
            let (st1, rv) = eval_spec(st, *value, fuel);
            match rv {
                Err(h) => (st1, Err(h)),
                Ok(v) => (st1, lift(spec_unary_operation(v, operator))),
            }
        },
        NodeV::Assignment { identifier, value, is_declaration } => {
            let (st1, rv) = eval_spec(st, *value, fuel);
            match rv {
                Err(h) => (st1, Err(h)),
                Ok(v) => {
                    let name = ident_name(identifier);
                    if is_declaration {
                        (
                            EvalStateV { scopes: st_insert(st1.scopes, name, v), ..st1 },
                            Ok(ValueV::NoneValue),
                        )
                    } else {
                        let (sc2, found) = st_assign(st1.scopes, name, v);
                        if found {
                            (EvalStateV { scopes: sc2, ..st1 }, Ok(ValueV::NoneValue))
                        } else {
                            (st1, halt_err(RuntimeV::UnknownIdentifier { identifier }))
                        }
                    }
                },
            }
        },
        NodeV::ListAssignment { identifier, index, value } => {
            let (st1, rv) = eval_spec(st, *value, fuel);
            match rv {
                Err(h) => (st1, Err(h)),
                Ok(v) => {
                    let (st2, ri) = eval_spec(st1, *index, fuel);
                    match ri {
                        Err(h) => (st2, Err(h)),
                        Ok(ix) => match st_lookup(st2.scopes, ident_name(identifier)) {
                            Some(lv) => {
                                let (r, ls2) = spec_list_assign(lv, ix, v, st2.lists, identifier);
                                (EvalStateV { lists: ls2, ..st2 }, lift(r))
                            },
                            None => (st2, halt_err(RuntimeV::UnknownIdentifier { identifier })),
                        },
                    }
                },
            }
        },
        NodeV::Access { identifier } => match st_lookup(st.scopes, ident_name(identifier)) {
            Some(v) => (st, Ok(v)),
            None => (st, halt_err(RuntimeV::UnknownIdentifier { identifier })),
        },
        NodeV::Index { identifier, index } => {
            let (st1, ri) = eval_spec(st, *index, fuel);
            match ri {
                Err(h) => (st1, Err(h)),
                Ok(ix) => match st_lookup(st1.scopes, ident_name(identifier)) {
                    Some(v) => (st1, lift(spec_index(v, ix, st1.lists, identifier))),
                    None => (st1, halt_err(RuntimeV::UnknownIdentifier { identifier })),
                },
            }
        },
        NodeV::Program { statements } => eval_stmts_spec(st, statements, 0, fuel),
        NodeV::If { condition, block, else_block } => {
            let (st1, rc) = eval_spec(st, *condition, fuel);
            match rc {
                Err(h) => (st1, Err(h)),
                Ok(ValueV::Boolean(b)) => if b {
                    eval_spec(st1, *block, fuel)
                } else {
                    match else_block {
                        Some(e) => eval_spec(st1, *e, fuel),
                        None => (st1, Ok(ValueV::NoneValue)),
                    }
                },
                Ok(v) => (
                    st1,
                    halt_err(
                        RuntimeV::InvalidValue { expected: ValueV::Boolean(false), found: v },
                    ),
                ),
            }
        },
        NodeV::While { condition, block } => eval_while_spec(st, *condition, *block, fuel),
        NodeV::FuncDeclaration { identifier, arguments, body } => {
            let name = ident_name(identifier);
            let f = ValueV::Function {
                name: name,
                arguments: arguments.map_values(|t: TokenV| ident_name(t)),
                body: body,
            };
            (EvalStateV { scopes: st_insert(st.scopes, name, f), ..st }, Ok(ValueV::NoneValue))
        },
        NodeV::FuncCall { identifier, parameters } => {
            let (st1, rp) = eval_params_spec(st, parameters, 0, fuel);
            match rp {
                Err(h) => (st1, Err(h)),
                Ok(vs) => {
                    match st_lookup(st1.scopes, ident_name(identifier)) {
                        Some(ValueV::Function { name, arguments, body }) => {
                            if arguments.len() != vs.len() {
                                (
                                    st1,
                                    halt_err(
                                        RuntimeV::IncorrectParameters {
                                            name,
                                            call: identifier,
                                            expected: arguments,
                                            found: vs,
                                        },
                                    ),
                                )
                            } else if fuel == 0 {
                                (st1, halt_err(RuntimeV::OutOfFuel))
                            } else {
                                let pushed = st1.scopes.push(Seq::empty());
                                let bound = bind_params(pushed, arguments, vs, 0);
                                let (st2, rb) = eval_spec(
                                    EvalStateV { scopes: bound, ..st1 },
                                    *body,
                                    (fuel - 1) as nat,
                                );
                                (EvalStateV { scopes: st2.scopes.drop_last(), ..st2 }, rb)
                            }
                        },
                        Some(ValueV::BuiltInFunction { name, arguments, builtin }) => {
                            if arguments.len() != vs.len() {
                                (
                                    st1,
                                    halt_err(
                                        RuntimeV::IncorrectParameters {
                                            name,
                                            call: identifier,
                                            expected: arguments,
                                            found: vs,
                                        },
                                    ),
                                )
                            } else {
                                builtin_spec(builtin, vs, st1)
                            }
                        },
                        _ => (st1, halt_err(RuntimeV::UnknownIdentifier { identifier })),
                    }
                },
            }
        },
        NodeV::Return { value } => eval_spec(st, *value, fuel),
    }
}

/// Statements in order; the first non-unit result ends the block early and
/// becomes its result, which is how `return` unwinds.
pub open spec fn eval_stmts_spec(st: EvalStateV, stmts: Seq<NodeV>, k: int, fuel: nat) -> (
    EvalStateV,
    Result<ValueV, HaltV>,
)
    decreases fuel, stmts, stmts.len() - k,
{
    if k < 0 || k >= stmts.len() {
        (st, Ok(ValueV::NoneValue))
    } else {
        let (st1, r) = eval_spec(st, stmts[k], fuel);
        match r {
            Err(h) => (st1, Err(h)),
            Ok(v) => if v is NoneValue {
                eval_stmts_spec(st1, stmts, k + 1, fuel)
            } else {
                (st1, Ok(v))
            },
        }
    }
}

/// Call or list arguments, evaluated left to right in the caller's state.
pub open spec fn eval_params_spec(st: EvalStateV, ps: Seq<NodeV>, k: int, fuel: nat) -> (
    EvalStateV,
    Result<Seq<ValueV>, HaltV>,
)
    decreases fuel, ps, ps.len() - k,
{
    if k < 0 || k >= ps.len() {
        (st, Ok(Seq::empty()))
    } else {
        let (st1, r) = eval_spec(st, ps[k], fuel);
        match r {
            Err(h) => (st1, Err(h)),
            Ok(v) => {
                let (st2, r2) = eval_params_spec(st1, ps, k + 1, fuel);
                match r2 {
                    Err(h) => (st2, Err(h)),
                    Ok(vs) => (st2, Ok(seq![v] + vs)),
                }
            },
        }
    }
}

/// A `while` loop: each turn burns one unit of fuel, checks the condition,
/// and runs the body; the body's first non-unit result ends the loop and
/// becomes its value, and a condition other than true ends it with the
/// unit value.
pub open spec fn eval_while_spec(st: EvalStateV, cond: NodeV, block: NodeV, fuel: nat) -> (
    EvalStateV,
    Result<ValueV, HaltV>,
)
    decreases fuel, cond, 0nat,
{
    if fuel == 0 {
        (st, halt_err(RuntimeV::OutOfFuel))
    } else {
        let (st1, rc) = eval_spec(st, cond, (fuel - 1) as nat);
        match rc {
            Err(h) => (st1, Err(h)),
            Ok(ValueV::Boolean(b)) => if b {
                let (st2, rb) = eval_spec(st1, block, (fuel - 1) as nat);
                match rb {
                    Err(h) => (st2, Err(h)),
                    Ok(v) => if v is NoneValue {
                        eval_while_spec(st2, cond, block, (fuel - 1) as nat)
                    } else {
                        (st2, Ok(v))
                    },
                }
            } else {
                (st1, Ok(ValueV::NoneValue))
            },
            Ok(_) => (st1, Ok(ValueV::NoneValue)),
        }
    }
}

/// A found binding is one of the scope's stored values.
proof fn lemma_scope_find_mem(sc: Seq<(Seq<char>, ValueV)>, name: Seq<char>)
    ensures
        scope_find(sc, name) matches Some(v) ==> exists|k: int|
            0 <= k < sc.len() && (#[trigger] sc[k]).1 == v,
    decreases sc.len(),
{
    if sc.len() > 0 && sc[0].0 != name {
        let t = sc.subrange(1, sc.len() as int);
        lemma_scope_find_mem(t, name);
        if scope_find(t, name) is Some {
            let k = choose|k: int| 0 <= k < t.len() && (#[trigger] t[k]).1 == scope_find(
                t,
                name,
            )->0;
            assert(sc[k + 1].1 == scope_find(sc, name)->0);
        }
    }
}

/// A value looked up in a well-formed scope stack is well-formed.
proof fn lemma_st_lookup_wf(scopes: Seq<Seq<(Seq<char>, ValueV)>>, name: Seq<char>, nlists: int)
    requires
        wf_scopes(scopes, nlists),
    ensures
        st_lookup(scopes, name) matches Some(v) ==> wf_value(v, nlists),
    decreases scopes.len(),
{
    if scopes.len() > 0 {
        lemma_scope_find_mem(scopes.last(), name);
        if scope_find(scopes.last(), name) is None {
            let d = scopes.drop_last();
            assert forall|i: int, k: int|
                0 <= i < d.len() && 0 <= k < (#[trigger] d[i]).len() implies wf_value(
                (#[trigger] d[i][k]).1,
                nlists,
            ) by {
                assert(d[i] == scopes[i]);
            }
            lemma_st_lookup_wf(d, name, nlists);
        }
    }
}

/// Setting a binding keeps a scope's values well-formed.
proof fn lemma_scope_set_wf(sc: Seq<(Seq<char>, ValueV)>, name: Seq<char>, v: ValueV, nlists: int)
    requires
        forall|k: int| 0 <= k < sc.len() ==> wf_value((#[trigger] sc[k]).1, nlists),
        wf_value(v, nlists),
    ensures
        forall|k: int|
            0 <= k < scope_set(sc, name, v).len() ==> wf_value(
                (#[trigger] scope_set(sc, name, v)[k]).1,
                nlists,
            ),
    decreases sc.len(),
{
    if sc.len() > 0 && sc[0].0 != name {
        let t = sc.subrange(1, sc.len() as int);
        lemma_scope_set_wf(t, name, v, nlists);
        assert(forall|k: int|
            0 <= k < scope_set(sc, name, v).len() ==> (#[trigger] scope_set(sc, name, v)[k]) == (
            if k == 0 {
                sc[0]
            } else {
                scope_set(t, name, v)[k - 1]
            }));
    }
}

/// Declaring a binding keeps the scope stack well-formed and its depth.
proof fn lemma_st_insert_wf(
    scopes: Seq<Seq<(Seq<char>, ValueV)>>,
    name: Seq<char>,
    v: ValueV,
    nlists: int,
)
    requires
        scopes.len() > 0,
        wf_scopes(scopes, nlists),
        wf_value(v, nlists),
    ensures
        st_insert(scopes, name, v).len() == scopes.len(),
        wf_scopes(st_insert(scopes, name, v), nlists),
{
    lemma_scope_set_wf(scopes.last(), name, v, nlists);
}

/// Assigning over a binding keeps the scope stack well-formed and its
/// depth.
proof fn lemma_st_assign_wf(
    scopes: Seq<Seq<(Seq<char>, ValueV)>>,
    name: Seq<char>,
    v: ValueV,
    nlists: int,
)
    requires
        wf_scopes(scopes, nlists),
        wf_value(v, nlists),
    ensures
        st_assign(scopes, name, v).0.len() == scopes.len(),
        wf_scopes(st_assign(scopes, name, v).0, nlists),
    decreases scopes.len(),
{
    if scopes.len() > 0 {
        if scope_find(scopes.last(), name) is Some {
            lemma_scope_set_wf(scopes.last(), name, v, nlists);
        } else {
            let d = scopes.drop_last();
            assert forall|i: int, k: int|
                0 <= i < d.len() && 0 <= k < (#[trigger] d[i]).len() implies wf_value(
                (#[trigger] d[i][k]).1,
                nlists,
            ) by {
                assert(d[i] == scopes[i]);
            }
            lemma_st_assign_wf(d, name, v, nlists);
            let (rest, found) = st_assign(d, name, v);
            let whole = rest.push(scopes.last());
            assert forall|i: int, k: int|
                0 <= i < whole.len() && 0 <= k < (#[trigger] whole[i]).len() implies wf_value(
                (#[trigger] whole[i][k]).1,
                nlists,
            ) by {
                if i < rest.len() {
                    assert(whole[i] == rest[i]);
                } else {
                    assert(whole[i] == scopes.last());
                }
            }
        }
    }
}

/// A value stays well-formed as the arena grows.
proof fn lemma_wf_value_mono(v: ValueV, n1: int, n2: int)
    requires
        wf_value(v, n1),
        n1 <= n2,
    ensures
        wf_value(v, n2),
{
}

/// A well-formed scope stack stays well-formed as the arena grows.
proof fn lemma_wf_scopes_mono(scopes: Seq<Seq<(Seq<char>, ValueV)>>, n1: int, n2: int)
    requires
        wf_scopes(scopes, n1),
        n1 <= n2,
    ensures
        wf_scopes(scopes, n2),
{
}

/// Binding a call's parameters keeps the scope stack well-formed and its
/// depth.
proof fn lemma_bind_params_wf(
    scopes: Seq<Seq<(Seq<char>, ValueV)>>,
    names: Seq<Seq<char>>,
    vals: Seq<ValueV>,
    k: int,
    nlists: int,
)
    requires
        scopes.len() > 0,
        wf_scopes(scopes, nlists),
        forall|j: int| 0 <= j < vals.len() ==> wf_value(#[trigger] vals[j], nlists),
    ensures
        bind_params(scopes, names, vals, k).len() == scopes.len(),
        wf_scopes(bind_params(scopes, names, vals, k), nlists),
    decreases names.len() - k,
{
    if 0 <= k && k < names.len() && k < vals.len() {
        lemma_st_insert_wf(scopes, names[k], vals[k], nlists);
        lemma_bind_params_wf(st_insert(scopes, names[k], vals[k]), names, vals, k + 1, nlists);
    }
}

/// Binary operators yield scalars, which are well-formed under any arena.
proof fn lemma_binop_wf(a: ValueV, b: ValueV, op: TokenV, n: int)
    ensures
        spec_binary_operation(a, b, op) matches Ok(v) ==> wf_value(v, n),
{
}

/// Prefix operators yield scalars, which are well-formed under any arena.
proof fn lemma_unop_wf(a: ValueV, op: TokenV, n: int)
    ensures
        spec_unary_operation(a, op) matches Ok(v) ==> wf_value(v, n),
{
}

/// Indexing a well-formed value yields a well-formed one.
proof fn lemma_index_wf(a: ValueV, ix: ValueV, ls: Seq<Seq<ValueV>>, ident: TokenV)
    requires
        wf_lists(ls),
        wf_value(a, ls.len() as int),
    ensures
        spec_index(a, ix, ls, ident) matches Ok(v) ==> wf_value(v, ls.len() as int),
{
}

/// The text of an identifier token.
fn ident_str<'x>(t: &'x Token) -> (r: &'x str)
    requires
        crate::node::is_identifier(t@),
    ensures
        r@ == ident_name(t@),
{
    match &t.kind {
        TokenKind::Identifier(s) => s.as_str(),
        _ => vstd::pervasive::unreached(),
    }
}

/// The text of an identifier token, owned.
fn ident_string(t: &Token) -> (r: String)
    requires
        crate::node::is_identifier(t@),
    ensures
        r@ == ident_name(t@),
{
    match &t.kind {
        TokenKind::Identifier(s) => s.clone(),
        _ => vstd::pervasive::unreached(),
    }
}

/// The parameter names of a declaration's identifier tokens.
fn arg_names(args: &Vec<Token>) -> (r: Vec<String>)
    requires
        forall|j: int|
            0 <= j < args@.len() ==> crate::node::is_identifier(#[trigger] args@[j]@),
    ensures
        r@.map_values(|s: String| s@) == args@.map_values(|t: Token| t@).map_values(
            |tv: TokenV| ident_name(tv),
        ),
{
    let mut r: Vec<String> = Vec::new();
    let mut k: usize = 0;
    while k < args.len()
        invariant
            k <= args@.len(),
            r@.len() == k,
            forall|j: int|
                0 <= j < args@.len() ==> crate::node::is_identifier(#[trigger] args@[j]@),
            forall|j: int| 0 <= j < k ==> #[trigger] r@[j]@ == ident_name(args@[j]@),
        decreases args@.len() - k,
    {
        let s = ident_string(&args[k]);
        r.push(s);
        k = k + 1;
    }
    proof {
        assert(r@.map_values(|s: String| s@) =~= args@.map_values(|t: Token| t@).map_values(
            |tv: TokenV| ident_name(tv),
        ));
    }
    r
}

/// How much fuel a whole evaluation starts with: it bounds user-function
/// call depth plus loop iterations.
pub const EVAL_FUEL: u64 = 0x1_0000_0000_0000;

/// The tree-walking evaluator: a scoped symbol table, the arena of shared
/// list buffers, the pending input lines (read back to front), and the
/// output produced so far. The two I/O vectors model the console: the host
/// fills `inputs` and prints `output`.
pub struct Evaluator {
    pub symbol_table: SymbolTable,
    pub lists: Vec<Vec<Value>>,
    pub inputs: Vec<String>,
    pub output: Vec<String>,
}

impl View for Evaluator {
    type V = EvalStateV;

    open spec fn view(&self) -> EvalStateV {
        EvalStateV {
            scopes: self.symbol_table@,
            lists: lists_view(self.lists@),
            inputs: self.inputs@.map_values(|s: String| s@),
            output: self.output@.map_values(|s: String| s@),
        }
    }
}

impl Evaluator {
    /// The evaluator is coherent when its state is.
    pub open spec fn wf(&self) -> bool {
        wf_state(self@)
    }

    /// Builds an evaluator whose global scope holds the built-ins.
    pub fn new() -> (r: Evaluator)
        ensures
            r.wf(),
            r@.scopes == crate::symbol_table::with_builtins(
                seq![Seq::<(Seq<char>, ValueV)>::empty()],
            ),
            r@.lists =~= Seq::<Seq<ValueV>>::empty(),
            r@.inputs =~= Seq::<Seq<char>>::empty(),
            r@.output =~= Seq::<Seq<char>>::empty(),
    {
        let mut symbol_table = SymbolTable::new();
        proof {
            assert(symbol_table@ =~= seq![Seq::<(Seq<char>, ValueV)>::empty()]);
        }
        symbol_table.add_builtins();
        let r = Evaluator { symbol_table, lists: Vec::new(), inputs: Vec::new(), output: Vec::new() };
        proof {
            assert(r@.lists =~= Seq::<Seq<ValueV>>::empty());
            assert(r@.inputs =~= Seq::<Seq<char>>::empty());
            assert(r@.output =~= Seq::<Seq<char>>::empty());
            let s0 = seq![Seq::<(Seq<char>, ValueV)>::empty()];
            assert(wf_scopes(s0, 0));
            let b1 = crate::symbol_table::st_insert(
                s0,
                "println"@,
                crate::symbol_table::builtin_value("println"@, seq!["x"@], Builtin::Println),
            );
            lemma_st_insert_wf(
                s0,
                "println"@,
                crate::symbol_table::builtin_value("println"@, seq!["x"@], Builtin::Println),
                0,
            );
            let b2 = crate::symbol_table::st_insert(
                b1,
                "print"@,
                crate::symbol_table::builtin_value("print"@, seq!["x"@], Builtin::Print),
            );
            lemma_st_insert_wf(
                b1,
                "print"@,
                crate::symbol_table::builtin_value("print"@, seq!["x"@], Builtin::Print),
                0,
            );
            let b3 = crate::symbol_table::st_insert(
                b2,
                "exit"@,
                crate::symbol_table::builtin_value("exit"@, seq!["exit_code"@], Builtin::Exit),
            );
            lemma_st_insert_wf(
                b2,
                "exit"@,
                crate::symbol_table::builtin_value("exit"@, seq!["exit_code"@], Builtin::Exit),
                0,
            );
            let b4 = crate::symbol_table::st_insert(
                b3,
                "input"@,
                crate::symbol_table::builtin_value("input"@, Seq::empty(), Builtin::Input),
            );
            lemma_st_insert_wf(
                b3,
                "input"@,
                crate::symbol_table::builtin_value("input"@, Seq::empty(), Builtin::Input),
                0,
            );
            let b5 = crate::symbol_table::st_insert(
                b4,
                "integer"@,
                crate::symbol_table::builtin_value("integer"@, seq!["string"@], Builtin::Integer),
            );
            lemma_st_insert_wf(
                b4,
                "integer"@,
                crate::symbol_table::builtin_value("integer"@, seq!["string"@], Builtin::Integer),
                0,
            );
            lemma_st_insert_wf(
                b5,
                "string"@,
                crate::symbol_table::builtin_value("string"@, seq!["value"@], Builtin::String),
                0,
            );
        }
        r
    }

    /// Builds an evaluator over an existing table, with everything else
    /// fresh.
    pub fn from(symbol_table: SymbolTable) -> (r: Evaluator)
        requires
            symbol_table@.len() >= 1,
            wf_scopes(symbol_table@, 0),
        ensures
            r.wf(),
            r@.scopes == symbol_table@,
            r@.lists =~= Seq::<Seq<ValueV>>::empty(),
            r@.inputs =~= Seq::<Seq<char>>::empty(),
            r@.output =~= Seq::<Seq<char>>::empty(),
    {
        let r = Evaluator { symbol_table, lists: Vec::new(), inputs: Vec::new(), output: Vec::new() };
        proof {
            assert(r@.lists =~= Seq::<Seq<ValueV>>::empty());
            assert(r@.inputs =~= Seq::<Seq<char>>::empty());
            assert(r@.output =~= Seq::<Seq<char>>::empty());
        }
        r
    }

    /// Evaluates a program under the standard fuel budget; the final value
    /// and the state afterwards are exactly what `eval_spec` gives.
    pub fn evaluate(&mut self, program: &Node) -> (r: Result<Value, Halt>)
        requires
            old(self).wf(),
            wf_node(program@),
        ensures
            final (self).wf(),
            final (self)@ == eval_spec(old(self)@, program@, EVAL_FUEL as nat).0,
            eval_res_view(r) == eval_spec(old(self)@, program@, EVAL_FUEL as nat).1,
    {
        self.eval(program, EVAL_FUEL)
    }

    /// Evaluates one node with a fuel budget.
    #[verifier::rlimit(100)]
    #[verifier::spinoff_prover]
    fn eval(&mut self, node: &Node, fuel: u64) -> (r: Result<Value, Halt>)
        requires
            old(self).wf(),
            wf_node(node@),
        ensures
            final (self).wf(),
            final (self)@.scopes.len() == old(self)@.scopes.len(),
            old(self)@.lists.len() <= final (self)@.lists.len(),
            final (self)@ == eval_spec(old(self)@, node@, fuel as nat).0,
            eval_res_view(r) == eval_spec(old(self)@, node@, fuel as nat).1,
            r matches Ok(v) ==> wf_value(v@, final (self)@.lists.len() as int),
        decreases fuel, node, 3int,
    {
        match node {
            Node::Atom { value } => Ok(Value::from_literal(value)),
            Node::List { values } => {
                let vs = match self.eval_params(values, fuel) {
                    Ok(vs) => vs,
                    Err(h) => {
                        return Err(h);
                    },
                };
                let ghost stmid = self@;
                let handle = self.lists.len();
                let ghost row = vs@.map_values(|v: Value| v@);
                self.lists.push(vs);
                proof {
                    assert(lists_view(self.lists@) =~= stmid.lists.push(row));
                    assert(self@ =~~= (EvalStateV { lists: stmid.lists.push(row), ..stmid }));
                    assert forall|i: int, j: int|
                        0 <= i < self@.lists.len() && 0 <= j < (#[trigger] self@.lists[i]).len()
                            implies wf_value(
                        #[trigger] self@.lists[i][j],
                        self@.lists.len() as int,
                    ) by {
                        if i < stmid.lists.len() {
                            assert(self@.lists[i] == stmid.lists[i]);
                            lemma_wf_value_mono(
                                stmid.lists[i][j],
                                stmid.lists.len() as int,
                                self@.lists.len() as int,
                            );
                        } else {
                            assert(self@.lists[i] == row);
                            lemma_wf_value_mono(
                                row[j],
                                stmid.lists.len() as int,
                                self@.lists.len() as int,
                            );
                        }
                    }
                    lemma_wf_scopes_mono(
                        self@.scopes,
                        stmid.lists.len() as int,
                        self@.lists.len() as int,
                    );
                }
                Ok(Value::List(handle))
            },
            Node::BinaryOp { left, operator, right } => {
                let rv = match self.eval(right, fuel) {
                    Ok(v) => v,
                    Err(h) => {
                        return Err(h);
                    },
                };
                let lv = match self.eval(left, fuel) {
                    Ok(v) => v,
                    Err(h) => {
                        return Err(h);
                    },
                };
                proof {
                    lemma_binop_wf(lv@, rv@, operator@, self@.lists.len() as int);
                }
                match lv.binary_operation(rv, operator) {
                    Ok(v) => Ok(v),
                    Err(e) => Err(Halt::Error(e)),
                }
            },
            Node::UnaryOp { operator, value } => {
                let v = match self.eval(value, fuel) {
                    Ok(v) => v,
                    Err(h) => {
                        return Err(h);
                    },
                };
                proof {
                    lemma_unop_wf(v@, operator@, self@.lists.len() as int);
                }
                match v.unary_operation(operator) {
                    Ok(v) => Ok(v),
                    Err(e) => Err(Halt::Error(e)),
                }
            },
            Node::Assignment { identifier, value, is_declaration } => {
                let v = match self.eval(value, fuel) {
                    Ok(v) => v,
                    Err(h) => {
                        return Err(h);
                    },
                };
                let ghost stmid = self@;
                let ghost vv = v@;
                if *is_declaration {
                    let name = ident_string(identifier);
                    proof {
                        lemma_st_insert_wf(
                            stmid.scopes,
                            name@,
                            vv,
                            stmid.lists.len() as int,
                        );
                    }
                    self.symbol_table.insert(name, v);
                    proof {
                        assert(self@ =~~= (EvalStateV {
                            scopes: st_insert(stmid.scopes, ident_name(identifier@), vv),
                            ..stmid
                        }));
                    }
                    Ok(Value::NoneValue)
                } else {
                    proof {
                        lemma_st_assign_wf(
                            stmid.scopes,
                            ident_name(identifier@),
                            vv,
                            stmid.lists.len() as int,
                        );
                    }
                    let found = self.symbol_table.assign(ident_str(identifier), v);
                    if found {
                        proof {
                            assert(self@ =~~= (EvalStateV {
                                scopes: st_assign(stmid.scopes, ident_name(identifier@), vv).0,
                                ..stmid
                            }));
                        }
                        Ok(Value::NoneValue)
                    } else {
                        proof {
                            crate::symbol_table::lemma_st_assign_unchanged(
                                stmid.scopes,
                                ident_name(identifier@),
                                vv,
                            );
                            assert(self@ =~~= stmid);
                        }
                        Err(
                            Halt::Error(
                                Runtime::UnknownIdentifier { identifier: identifier.duplicate() },
                            ),
                        )
                    }
                }
            },
            Node::ListAssignment { identifier, index, value } => {
                let v = match self.eval(value, fuel) {
                    Ok(v) => v,
                    Err(h) => {
                        return Err(h);
                    },
                };
                let ix = match self.eval(index, fuel) {
                    Ok(v) => v,
                    Err(h) => {
                        return Err(h);
                    },
                };
                let ghost stmid = self@;
                let ghost vv = v@;
                proof {
                    lemma_st_lookup_wf(
                        stmid.scopes,
                        ident_name(identifier@),
                        stmid.lists.len() as int,
                    );
                }
                match self.symbol_table.get(ident_str(identifier)) {
                    Some(lv) => {
                        let res = lv.list_assign(&ix, v, &mut self.lists, identifier);
                        proof {
                            let ls2 = spec_list_assign(
                                lv@,
                                ix@,
                                vv,
                                stmid.lists,
                                identifier@,
                            ).1;
                            assert(lists_view(self.lists@) == ls2);
                            assert forall|i: int, j: int|
                                0 <= i < ls2.len() && 0 <= j < (#[trigger] ls2[i]).len() implies
                                wf_value(#[trigger] ls2[i][j], ls2.len() as int) by {
                                if ls2 != stmid.lists {
                                    let h = lv@->List_0;
                                    if i == h {
                                        assert(ls2[i] == stmid.lists[h].update(
                                            ix@->Integer_0 as int,
                                            vv,
                                        ));
                                    } else {
                                        assert(ls2[i] == stmid.lists[i]);
                                    }
                                }
                            }
                            assert(self@ =~~= (EvalStateV { lists: ls2, ..stmid }));
                        }
                        match res {
                            Ok(out) => Ok(out),
                            Err(e) => Err(Halt::Error(e)),
                        }
                    },
                    None => Err(
                        Halt::Error(
                            Runtime::UnknownIdentifier { identifier: identifier.duplicate() },
                        ),
                    ),
                }
            },
            Node::Access { identifier } => {
                proof {
                    lemma_st_lookup_wf(
                        self@.scopes,
                        ident_name(identifier@),
                        self@.lists.len() as int,
                    );
                }
                match self.symbol_table.get(ident_str(identifier)) {
                    Some(v) => Ok(v),
                    None => Err(
                        Halt::Error(
                            Runtime::UnknownIdentifier { identifier: identifier.duplicate() },
                        ),
                    ),
                }
            },
            Node::Index { identifier, index } => {
                let ix = match self.eval(index, fuel) {
                    Ok(v) => v,
                    Err(h) => {
                        return Err(h);
                    },
                };
                proof {
                    lemma_st_lookup_wf(
                        self@.scopes,
                        ident_name(identifier@),
                        self@.lists.len() as int,
                    );
                }
                match self.symbol_table.get(ident_str(identifier)) {
                    Some(v) => {
                        proof {
                            lemma_index_wf(v@, ix@, self@.lists, identifier@);
                        }
                        match v.index(&ix, &self.lists, identifier) {
                            Ok(out) => Ok(out),
                            Err(e) => Err(Halt::Error(e)),
                        }
                    },
                    None => Err(
                        Halt::Error(
                            Runtime::UnknownIdentifier { identifier: identifier.duplicate() },
                        ),
                    ),
                }
            },
            Node::Program { statements } => self.eval_stmts(statements, fuel),
            Node::If { condition, block, else_block } => {
                let c = match self.eval(condition, fuel) {
                    Ok(v) => v,
                    Err(h) => {
                        return Err(h);
                    },
                };
                match c {
                    Value::Boolean(b) => {
                        if b {
                            self.eval(block, fuel)
                        } else {
                            match else_block {
                                Some(e) => self.eval(e, fuel),
                                None => Ok(Value::NoneValue),
                            }
                        }
                    },
                    other => Err(
                        Halt::Error(
                            Runtime::InvalidValue {
                                expected: Value::Boolean(false),
                                found: other,
                            },
                        ),
                    ),
                }
            },
            Node::While { condition, block } => self.eval_while(condition, block, fuel),
            Node::FuncDeclaration { identifier, arguments, body } => {
                proof {
                    assert forall|j: int| 0 <= j < arguments@.len() implies
                        crate::node::is_identifier(#[trigger] arguments@[j]@) by {
                        assert(arguments@.map_values(|t: Token| t@)[j] == arguments@[j]@);
                    }
                }
                let name = ident_string(identifier);
                let names = arg_names(arguments);
                let f = Value::Function {
                    name: name.clone(),
                    arguments: names,
                    body: body.duplicate(),
                };
                let ghost st0 = self@;
                proof {
                    lemma_st_insert_wf(st0.scopes, name@, f@, st0.lists.len() as int);
                }
                self.symbol_table.insert(name, f);
                proof {
                    assert(self@ =~~= (EvalStateV {
                        scopes: st_insert(
                            st0.scopes,
                            ident_name(identifier@),
                            eval_spec_func_value(node@),
                        ),
                        ..st0
                    }));
                }
                Ok(Value::NoneValue)
            },
            Node::FuncCall { identifier, parameters } => self.eval_call(
                identifier,
                parameters,
                fuel,
            ),
            Node::Return { value } => self.eval(value, fuel),
        }
    }

    /// Runs a block's statements in order; the first non-unit result ends
    /// the block and becomes its value.
    fn eval_stmts(&mut self, stmts: &Vec<Box<Node>>, fuel: u64) -> (r: Result<Value, Halt>)
        requires
            old(self).wf(),
            wf_nodes(nodes_view(stmts@)),
        ensures
            final (self).wf(),
            final (self)@.scopes.len() == old(self)@.scopes.len(),
            old(self)@.lists.len() <= final (self)@.lists.len(),
            final (self)@ == eval_stmts_spec(old(self)@, nodes_view(stmts@), 0, fuel as nat).0,
            eval_res_view(r) == eval_stmts_spec(old(self)@, nodes_view(stmts@), 0, fuel as nat).1,
            r matches Ok(v) ==> wf_value(v@, final (self)@.lists.len() as int),
        decreases fuel, stmts, 2int,
    {
        let ghost st0 = self@;
        let ghost sv = nodes_view(stmts@);
        proof {
            crate::node::lemma_nodes_view(stmts@);
        }
        let mut k: usize = 0;
        while k < stmts.len()
            invariant
                st0 == old(self)@,
                k <= stmts@.len(),
                self.wf(),
                sv == nodes_view(stmts@),
                sv.len() == stmts@.len(),
                forall|i: int| 0 <= i < stmts@.len() ==> sv[i] == crate::node::node_view(
                    *#[trigger] stmts@[i],
                ),
                wf_nodes(sv),
                self@.scopes.len() == st0.scopes.len(),
                st0.lists.len() <= self@.lists.len(),
                eval_stmts_spec(st0, sv, 0, fuel as nat) == eval_stmts_spec(
                    self@,
                    sv,
                    k as int,
                    fuel as nat,
                ),
            decreases stmts@.len() - k,
        {
            let v = match self.eval(&stmts[k], fuel) {
                Ok(v) => v,
                Err(h) => {
                    return Err(h);
                },
            };
            if !v.is_none() {
                return Ok(v);
            }
            k = k + 1;
        }
        Ok(Value::NoneValue)
    }

    /// Evaluates argument expressions left to right in the caller's state.
    fn eval_params(&mut self, params: &Vec<Box<Node>>, fuel: u64) -> (r: Result<Vec<Value>, Halt>)
        requires
            old(self).wf(),
            wf_nodes(nodes_view(params@)),
        ensures
            final (self).wf(),
            final (self)@.scopes.len() == old(self)@.scopes.len(),
            old(self)@.lists.len() <= final (self)@.lists.len(),
            final (self)@ == eval_params_spec(old(self)@, nodes_view(params@), 0, fuel as nat).0,
            r matches Ok(vs) ==> eval_params_spec(old(self)@, nodes_view(params@), 0, fuel as nat).1
                == Ok::<Seq<ValueV>, HaltV>(vs@.map_values(|v: Value| v@)) && (forall|j: int|
                0 <= j < vs@.len() ==> wf_value(
                    (#[trigger] vs@[j])@,
                    final (self)@.lists.len() as int,
                )),
            r matches Err(h) ==> eval_params_spec(old(self)@, nodes_view(params@), 0, fuel as nat).1
                == Err::<Seq<ValueV>, HaltV>(h@),
        decreases fuel, params, 2int,
    {
        let ghost st0 = self@;
        let ghost pv = nodes_view(params@);
        proof {
            crate::node::lemma_nodes_view(params@);
        }
        let mut values: Vec<Value> = Vec::new();
        let mut k: usize = 0;
        while k < params.len()
            invariant
                st0 == old(self)@,
                k <= params@.len(),
                values@.len() == k,
                self.wf(),
                pv == nodes_view(params@),
                pv.len() == params@.len(),
                forall|i: int| 0 <= i < params@.len() ==> pv[i] == crate::node::node_view(
                    *#[trigger] params@[i],
                ),
                wf_nodes(pv),
                self@.scopes.len() == st0.scopes.len(),
                st0.lists.len() <= self@.lists.len(),
                forall|j: int|
                    0 <= j < values@.len() ==> wf_value(
                        (#[trigger] values@[j])@,
                        self@.lists.len() as int,
                    ),
                ({
                    let full = eval_params_spec(st0, pv, 0, fuel as nat);
                    let cur = eval_params_spec(self@, pv, k as int, fuel as nat);
                    full.0 == cur.0 && full.1 == (match cur.1 {
                        Ok(vs) => Ok::<Seq<ValueV>, HaltV>(
                            values@.map_values(|v: Value| v@) + vs,
                        ),
                        Err(h) => Err::<Seq<ValueV>, HaltV>(h),
                    })
                }),
            decreases params@.len() - k,
        {
            let ghost lists_before = self@.lists.len() as int;
            let v = match self.eval(&params[k], fuel) {
                Ok(v) => v,
                Err(h) => {
                    return Err(h);
                },
            };
            let ghost old_vals = values@.map_values(|v: Value| v@);
            let ghost vv = v@;
            values.push(v);
            proof {
                assert forall|j: int| 0 <= j < values@.len() implies wf_value(
                    (#[trigger] values@[j])@,
                    self@.lists.len() as int,
                ) by {
                    if j < values@.len() - 1 {
                        lemma_wf_value_mono(
                            values@[j]@,
                            lists_before,
                            self@.lists.len() as int,
                        );
                    }
                }
                let new_vals = values@.map_values(|v: Value| v@);
                assert(new_vals =~= old_vals.push(vv));
                let cur2 = eval_params_spec(self@, pv, k + 1 as int, fuel as nat);
                match cur2.1 {
                    Ok(vs2) => {
                        assert(old_vals + (seq![vv] + vs2) =~= new_vals + vs2);
                    },
                    Err(h) => {},
                }
            }
            k = k + 1;
        }
        proof {
            assert(values@.map_values(|v: Value| v@) + Seq::<ValueV>::empty() =~= values@.map_values(
                |v: Value| v@,
            ));
        }
        Ok(values)
    }

    /// Runs a `while` loop, burning one unit of fuel per turn.
    fn eval_while(&mut self, condition: &Node, block: &Node, fuel: u64) -> (r: Result<Value, Halt>)
        requires
            old(self).wf(),
            wf_node(condition@),
            wf_node(block@),
        ensures
            final (self).wf(),
            final (self)@.scopes.len() == old(self)@.scopes.len(),
            old(self)@.lists.len() <= final (self)@.lists.len(),
            final (self)@ == eval_while_spec(old(self)@, condition@, block@, fuel as nat).0,
            eval_res_view(r) == eval_while_spec(old(self)@, condition@, block@, fuel as nat).1,
            r matches Ok(v) ==> wf_value(v@, final (self)@.lists.len() as int),
        decreases fuel, condition, 3int,
    {
        let ghost st0 = self@;
        let mut f: u64 = fuel;
        loop
            invariant
                st0 == old(self)@,
                wf_node(condition@),
                wf_node(block@),
                self.wf(),
                f <= fuel,
                self@.scopes.len() == st0.scopes.len(),
                st0.lists.len() <= self@.lists.len(),
                eval_while_spec(st0, condition@, block@, fuel as nat) == eval_while_spec(
                    self@,
                    condition@,
                    block@,
                    f as nat,
                ),
            decreases f,
        {
            if f == 0 {
                return Err(Halt::Error(Runtime::OutOfFuel));
            }
            f = f - 1;
            let c = match self.eval(condition, f) {
                Ok(v) => v,
                Err(h) => {
                    return Err(h);
                },
            };
            match c {
                Value::Boolean(b) => {
                    if b {
                        let v = match self.eval(block, f) {
                            Ok(v) => v,
                            Err(h) => {
                                return Err(h);
                            },
                        };
                        if !v.is_none() {
                            return Ok(v);
                        }
                    } else {
                        return Ok(Value::NoneValue);
                    }
                },
                _ => {
                    return Ok(Value::NoneValue);
                },
            }
        }
    }

    /// Calls a function: evaluates the arguments in the caller's scope,
    /// checks the callee's arity, and either runs a user body in a fresh
    /// scope or dispatches a built-in.
    #[verifier::rlimit(100)]
    #[verifier::spinoff_prover]
    fn eval_call(&mut self, identifier: &Token, parameters: &Vec<Box<Node>>, fuel: u64) -> (r:
        Result<Value, Halt>)
        requires
            old(self).wf(),
            crate::node::is_identifier(identifier@),
            wf_nodes(nodes_view(parameters@)),
        ensures
            final (self).wf(),
            final (self)@.scopes.len() == old(self)@.scopes.len(),
            old(self)@.lists.len() <= final (self)@.lists.len(),
            final (self)@ == eval_spec(
                old(self)@,
                NodeV::FuncCall { identifier: identifier@, parameters: nodes_view(parameters@) },
                fuel as nat,
            ).0,
            eval_res_view(r) == eval_spec(
                old(self)@,
                NodeV::FuncCall { identifier: identifier@, parameters: nodes_view(parameters@) },
                fuel as nat,
            ).1,
            r matches Ok(v) ==> wf_value(v@, final (self)@.lists.len() as int),
        decreases fuel, parameters, 3int,
    {
        let values = match self.eval_params(parameters, fuel) {
            Ok(vs) => vs,
            Err(h) => {
                return Err(h);
            },
        };
        let ghost st1 = self@;
        let ghost vsv = values@.map_values(|v: Value| v@);
        proof {
            lemma_st_lookup_wf(st1.scopes, ident_name(identifier@), st1.lists.len() as int);
        }
        match self.symbol_table.get(ident_str(identifier)) {
            Some(Value::Function { name, arguments, body }) => {
                if arguments.len() != values.len() {
                    proof {
                        assert(arguments@.map_values(|s: String| s@).len() != vsv.len());
                    }
                    Err(
                        Halt::Error(
                            Runtime::IncorrectParameters {
                                name,
                                call: identifier.duplicate(),
                                expected: arguments,
                                found: values,
                            },
                        ),
                    )
                } else if fuel == 0 {
                    Err(Halt::Error(Runtime::OutOfFuel))
                } else {
                    let ghost namesv = arguments@.map_values(|s: String| s@);
                    self.symbol_table.scope();
                    let ghost pushed = self@.scopes;
                    proof {
                        assert(wf_scopes(pushed, st1.lists.len() as int));
                        lemma_bind_params_wf(pushed, namesv, vsv, 0, st1.lists.len() as int);
                    }
                    let mut k: usize = 0;
                    while k < arguments.len()
                        invariant
                            k <= arguments@.len(),
                            arguments@.len() == values@.len(),
                            namesv == arguments@.map_values(|s: String| s@),
                            vsv == values@.map_values(|v: Value| v@),
                            self.wf(),
                            self@.lists == st1.lists,
                            self@.inputs == st1.inputs,
                            self@.output == st1.output,
                            self@.scopes.len() == pushed.len(),
                            forall|j: int|
                                0 <= j < values@.len() ==> wf_value(
                                    (#[trigger] values@[j])@,
                                    st1.lists.len() as int,
                                ),
                            bind_params(pushed, namesv, vsv, 0) == bind_params(
                                self@.scopes,
                                namesv,
                                vsv,
                                k as int,
                            ),
                        decreases arguments@.len() - k,
                    {
                        let ghost scpre = self@.scopes;
                        proof {
                            lemma_st_insert_wf(
                                scpre,
                                namesv[k as int],
                                vsv[k as int],
                                st1.lists.len() as int,
                            );
                        }
                        let nm = arguments[k].clone();
                        let vl = values[k].duplicate();
                        self.symbol_table.insert(nm, vl);
                        k = k + 1;
                    }
                    proof {
                        assert(self@.scopes == bind_params(pushed, namesv, vsv, 0));
                        assert(self@ =~~= (EvalStateV {
                            scopes: bind_params(st1.scopes.push(Seq::empty()), namesv, vsv, 0),
                            ..st1
                        }));
                    }
                    let result = self.eval(&body, fuel - 1);
                    let ghost st2 = self@;
                    self.symbol_table.unscope();
                    proof {
                        assert(self@ =~~= (EvalStateV { scopes: st2.scopes.drop_last(), ..st2 }));
                        assert forall|i: int, kk: int|
                            0 <= i < self@.scopes.len() && 0 <= kk < (
                            #[trigger] self@.scopes[i]).len() implies wf_value(
                            (#[trigger] self@.scopes[i][kk]).1,
                            self@.lists.len() as int,
                        ) by {
                            assert(self@.scopes[i] == st2.scopes[i]);
                        }
                    }
                    result
                }
            },
            Some(Value::BuiltInFunction { name, arguments, builtin }) => {
                if arguments.len() != values.len() {
                    proof {
                        assert(arguments@.map_values(|s: String| s@).len() != vsv.len());
                    }
                    Err(
                        Halt::Error(
                            Runtime::IncorrectParameters {
                                name,
                                call: identifier.duplicate(),
                                expected: arguments,
                                found: values,
                            },
                        ),
                    )
                } else {
                    proof {
                        assert(values@.len() == arguments@.map_values(|s: String| s@).len());
                    }
                    match builtin {
                        Builtin::Println => {
                            let out = builtins::println(values, &self.lists, &mut self.output);
                            proof {
                                assert(self@ =~~= builtin_spec(Builtin::Println, vsv, st1).0);
                            }
                            Ok(out)
                        },
                        Builtin::Print => {
                            let out = builtins::print(values, &self.lists, &mut self.output);
                            proof {
                                assert(self@ =~~= builtin_spec(Builtin::Print, vsv, st1).0);
                            }
                            Ok(out)
                        },
                        Builtin::Input => {
                            let out = builtins::input(values, &mut self.inputs);
                            proof {
                                assert(self@ =~~= builtin_spec(Builtin::Input, vsv, st1).0);
                            }
                            Ok(out)
                        },
                        Builtin::Exit => {
                            match builtins::exit(values) {
                                Some(code) => Err(Halt::Exit(code)),
                                None => Ok(Value::NoneValue),
                            }
                        },
                        Builtin::Integer => Ok(builtins::integer(values)),
                        Builtin::String => Ok(builtins::string(values, &self.lists)),
                    }
                }
            },
            Some(other) => Err(
                Halt::Error(Runtime::UnknownIdentifier { identifier: identifier.duplicate() }),
            ),
            None => Err(
                Halt::Error(Runtime::UnknownIdentifier { identifier: identifier.duplicate() }),
            ),
        }
    }
}

/// The function value a declaration binds.
spec fn eval_spec_func_value(n: NodeV) -> ValueV {
    match n {
        NodeV::FuncDeclaration { identifier, arguments, body } => ValueV::Function {
            name: ident_name(identifier),
            arguments: arguments.map_values(|t: TokenV| ident_name(t)),
            body: body,
        },
        _ => ValueV::NoneValue,
    }
}

} // verus!
