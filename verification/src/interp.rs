//! The tree-walking interpreter and the language's semantics.
//!
//! The functions [`eval_node_s`], [`eval_seq_s`], [`eval_while_s`] and
//! [`eval_bind_args_s`] define what a program means: a statement sequence
//! is walked left to right tracking a last value and a pending return
//! value; a `return` records the pending value but does not stop the walk,
//! and the latest `return` wins.  Each carries a budget (`fuel`) that falls
//! by one per loop iteration and per function call; a run that exhausts it
//! answers `None`, and the executable evaluator reports that as
//! [`RuntimeError::OutOfSteps`].
//!
//! Evaluation is over the 64-bit encodings of IEEE-754 doubles; the
//! arithmetic itself is the uninterpreted functions of [`crate::num`].

use vstd::prelude::*;

use crate::ast::FnExprS;
use crate::ast::Node;
use crate::ast::NodeS;
use crate::ast::Op;
use crate::ast::lemma_nodes_view;
use crate::ast::node_view;
use crate::ast::nodes_view;
use crate::num::ONE_BITS;
use crate::num::ZERO_BITS;
use crate::num::add_bits;
use crate::num::div_bits;
use crate::num::eq_bits;
use crate::num::fmod_bits;
use crate::num::gt_bits;
use crate::num::lt_bits;
use crate::num::mul_bits;
use crate::num::sub_bits;
use crate::tables::FnTable;
use crate::tables::Scope;

verus! {

/// The state a program runs in: the active scope, the function table, and
/// the values printed so far.
pub struct StateS {
    pub env: Map<Seq<char>, u64>,
    pub fns: Map<Seq<char>, FnExprS>,
    pub out: Seq<u64>,
}

/// A runtime failure in the model.
pub enum ErrS {
    /// A name was read or mutated without being bound.
    UndefVar(Seq<char>),
    /// A call named a function that is not defined.
    UndefFn(Seq<char>),
    /// A function parameter is not a plain name.
    BadParam,
}

/// A runtime failure.  Evaluation is fail-fast: the first failure ends the
/// run.
#[derive(Debug, PartialEq)]
pub enum RuntimeError {
    /// A name was read or mutated without being bound.
    UndefinedVariable(String),
    /// A call named a function that is not defined.
    UndefinedFunction(String),
    /// A function parameter is not a plain name.
    InvalidParameter,
    /// The step budget handed to the evaluator ran out.
    OutOfSteps,
}

/// The model of a runtime failure.
pub open spec fn err_view(e: RuntimeError) -> ErrS {
    match e {
        RuntimeError::UndefinedVariable(s) => ErrS::UndefVar(s@),
        RuntimeError::UndefinedFunction(s) => ErrS::UndefFn(s@),
        _ => ErrS::BadParam,
    }
}

/// The encoding of the value a comparison yields: `1.0` for true, `0.0`
/// for false.
pub open spec fn bool_bits(b: bool) -> u64 {
    if b {
        ONE_BITS
    } else {
        ZERO_BITS
    }
}

/// What one operator computes from the encodings of its operands.
pub open spec fn apply_op(op: Op, l: u64, r: u64) -> u64 {
    match op {
        Op::Add => add_bits(l, r),
        Op::Sub => sub_bits(l, r),
        Op::Mul => mul_bits(l, r),
        Op::Div => div_bits(l, r),
        Op::Mod => fmod_bits(l, r),
        Op::Gt => bool_bits(gt_bits(l, r)),
        Op::Lt => bool_bits(lt_bits(l, r)),
        Op::Eqt => bool_bits(eq_bits(l, r)),
    }
}

/// What evaluating the statements `nodes` yields, with `last` the value of
/// the statement before them and `ret` the pending return value: the value
/// of the whole sequence and the state after it, a runtime failure, or
/// `None` when the budget runs out.
pub open spec fn eval_stmts_s(
    fuel: nat,
    nodes: Seq<NodeS>,
    st: StateS,
    last: u64,
    ret: Option<u64>,
) -> Option<Result<(u64, StateS), ErrS>>
    decreases fuel, nodes, 3int,
{
    if nodes.len() == 0 {
        Some(
            Ok(
                (
                    match ret {
                        Some(v) => v,
                        None => last,
                    },
                    st,
                ),
            ),
        )
    } else {
        match eval_node_s(fuel, nodes[0], st) {
            None => None,
            Some(Err(e)) => Some(Err(e)),
            Some(Ok((v, st1))) => if nodes[0] is Return {
                eval_stmts_s(fuel, nodes.drop_first(), st1, ZERO_BITS, Some(v))
            } else {
                eval_stmts_s(fuel, nodes.drop_first(), st1, v, ret)
            },
        }
    }
}

/// What evaluating a fresh statement sequence yields: an empty sequence is
/// the neutral value `0.0`.
pub open spec fn eval_seq_s(fuel: nat, nodes: Seq<NodeS>, st: StateS) -> Option<
    Result<(u64, StateS), ErrS>,
>
    decreases fuel, nodes, 4int,
{
    eval_stmts_s(fuel, nodes, st, ZERO_BITS, None)
}

/// What evaluating one node yields.
pub open spec fn eval_node_s(fuel: nat, n: NodeS, st: StateS) -> Option<
    Result<(u64, StateS), ErrS>,
>
    decreases fuel, n, 1int,
{
    match n {
        NodeS::Number(bits) => Some(Ok((bits, st))),
        NodeS::Binary { op, lhs, rhs } => match eval_seq_s(fuel, lhs, st) {
            None => None,
            Some(Err(e)) => Some(Err(e)),
            Some(Ok((l, st1))) => match eval_seq_s(fuel, rhs, st1) {
                None => None,
                Some(Err(e)) => Some(Err(e)),
                Some(Ok((r, st2))) => Some(Ok((apply_op(op, l, r), st2))),
            },
        },
        NodeS::Bind { name, value } => match eval_seq_s(fuel, value, st) {
            None => None,
            Some(Err(e)) => Some(Err(e)),
            Some(Ok((v, st1))) => Some(
                Ok((v, StateS { env: st1.env.insert(name, v), fns: st1.fns, out: st1.out })),
            ),
        },
        NodeS::Variable(name) => if st.env.contains_key(name) {
            Some(Ok((st.env[name], st)))
        } else {
            Some(Err(ErrS::UndefVar(name)))
        },
        NodeS::Return { value } => eval_seq_s(fuel, value, st),
        NodeS::Mutate { name, value } => match eval_seq_s(fuel, value, st) {
            None => None,
            Some(Err(e)) => Some(Err(e)),
            Some(Ok((v, st1))) => if st1.env.contains_key(name) {
                Some(
                    Ok((v, StateS { env: st1.env.insert(name, v), fns: st1.fns, out: st1.out })),
                )
            } else {
                Some(Err(ErrS::UndefVar(name)))
            },
        },
        NodeS::While { condition, body } => match eval_while_s(fuel, n, st) {
            None => None,
            Some(Err(e)) => Some(Err(e)),
            Some(Ok(st1)) => Some(Ok((ZERO_BITS, st1))),
        },
        NodeS::If { condition, body, else_body } => match eval_seq_s(fuel, condition, st) {
            None => None,
            Some(Err(e)) => Some(Err(e)),
            Some(Ok((c, st1))) => if !eq_bits(c, ZERO_BITS) {
                eval_seq_s(fuel, body, st1)
            } else {
                eval_seq_s(fuel, else_body, st1)
            },
        },
        NodeS::Fn(f) => Some(
            Ok((ZERO_BITS, StateS { env: st.env, fns: st.fns.insert(f.name, f), out: st.out })),
        ),
        NodeS::Call { name, args } => if !st.fns.contains_key(name) {
            Some(Err(ErrS::UndefFn(name)))
        } else {
            let f = st.fns[name];
            match eval_bind_args_s(fuel, f.args, args, st, Map::empty()) {
                None => None,
                Some(Err(e)) => Some(Err(e)),
                Some(Ok((env2, st1))) => if fuel == 0 {
                    None
                } else {
                    match eval_seq_s(
                        (fuel - 1) as nat,
                        f.body,
                        StateS { env: env2, fns: st1.fns, out: st1.out },
                    ) {
                        None => None,
                        Some(Err(e)) => Some(Err(e)),
                        Some(Ok((v, st2))) => Some(
                            Ok((v, StateS { env: st1.env, fns: st2.fns, out: st2.out })),
                        ),
                    }
                },
            }
        },
        NodeS::Print { value } => match eval_seq_s(fuel, value, st) {
            None => None,
            Some(Err(e)) => Some(Err(e)),
            Some(Ok((v, st1))) => Some(
                Ok((ZERO_BITS, StateS { env: st1.env, fns: st1.fns, out: st1.out.push(v) })),
            ),
        },
    }
}

/// What a loop yields from the state `st`: its condition is re-evaluated
/// each iteration, and the loop ends when it is IEEE-equal to `0.0`.  `n`
/// is the whole `while` node.
pub open spec fn eval_while_s(fuel: nat, n: NodeS, st: StateS) -> Option<Result<StateS, ErrS>>
    recommends
        n is While,
    decreases fuel, n, 0int,
{
    match n {
        NodeS::While { condition, body } => match eval_seq_s(fuel, condition, st) {
            None => None,
            Some(Err(e)) => Some(Err(e)),
            Some(Ok((c, st1))) => if eq_bits(c, ZERO_BITS) {
                Some(Ok(st1))
            } else {
                match eval_seq_s(fuel, body, st1) {
                    None => None,
                    Some(Err(e)) => Some(Err(e)),
                    Some(Ok((_b, st2))) => if fuel == 0 {
                        None
                    } else {
                        eval_while_s((fuel - 1) as nat, n, st2)
                    },
                }
            },
        },
        _ => Some(Ok(st)),
    }
}

/// What evaluating a call's arguments yields: each argument is evaluated
/// in the caller's state, in order, and bound to the matching parameter
/// name in the fresh scope `acc`; a parameter that is not a plain name is
/// a failure.  Arguments beyond the shorter of the two lists are ignored.
pub open spec fn eval_bind_args_s(
    fuel: nat,
    params: Seq<NodeS>,
    args: Seq<NodeS>,
    st: StateS,
    acc: Map<Seq<char>, u64>,
) -> Option<Result<(Map<Seq<char>, u64>, StateS), ErrS>>
    decreases fuel, args, 2int,
{
    if params.len() == 0 || args.len() == 0 {
        Some(Ok((acc, st)))
    } else {
        match eval_node_s(fuel, args[0], st) {
            None => None,
            Some(Err(e)) => Some(Err(e)),
            Some(Ok((v, st1))) => match params[0] {
                NodeS::Variable(pn) => eval_bind_args_s(
                    fuel,
                    params.drop_first(),
                    args.drop_first(),
                    st1,
                    acc.insert(pn, v),
                ),
                _ => Some(Err(ErrS::BadParam)),
            },
        }
    }
}

/// The state held in the evaluator's tables.
pub open spec fn state_of(env: Map<Seq<char>, u64>, fns: Map<Seq<char>, FnExprS>, out: Seq<u64>) -> StateS {
    StateS { env, fns, out }
}

/// The run of the statements `nodes` from `st0` ends as `r` says, leaving
/// the state `st1`.
pub open spec fn seq_outcome(
    fuel: nat,
    nodes: Seq<NodeS>,
    st0: StateS,
    r: Result<u64, RuntimeError>,
    st1: StateS,
) -> bool {
    match r {
        Ok(v) => eval_seq_s(fuel, nodes, st0) == Some(Ok::<_, ErrS>((v, st1))),
        Err(RuntimeError::OutOfSteps) => eval_seq_s(fuel, nodes, st0) is None,
        Err(e) => eval_seq_s(fuel, nodes, st0) == Some(Err::<(u64, StateS), ErrS>(err_view(e))),
    }
}

/// The run of the one node `n` from `st0` ends as `r` says, leaving the
/// state `st1`.
pub open spec fn node_outcome(
    fuel: nat,
    n: NodeS,
    st0: StateS,
    r: Result<u64, RuntimeError>,
    st1: StateS,
) -> bool {
    match r {
        Ok(v) => eval_node_s(fuel, n, st0) == Some(Ok::<_, ErrS>((v, st1))),
        Err(RuntimeError::OutOfSteps) => eval_node_s(fuel, n, st0) is None,
        Err(e) => eval_node_s(fuel, n, st0) == Some(Err::<(u64, StateS), ErrS>(err_view(e))),
    }
}

/// Evaluate an abstract syntax tree: the interpreter.  All variables live
/// in `globals`, printed values are appended to `output`, and `fuel` bounds
/// the number of loop iterations plus function calls.  Returns exactly
/// what [`eval_seq_s`] describes.
#[verifier::loop_isolation(false)]
pub fn eval(
    ast: &Vec<Node>,
    globals: &mut Scope,
    functions: &mut FnTable,
    output: &mut Vec<u64>,
    fuel: u64,
) -> (r: Result<u64, RuntimeError>)
    ensures
        seq_outcome(
            fuel as nat,
            nodes_view(ast@),
            state_of(old(globals)@, old(functions)@, old(output)@),
            r,
            state_of(final(globals)@, final(functions)@, final(output)@),
        ),
    decreases fuel, nodes_view(ast@), 2int,
{
    let ghost av = nodes_view(ast@);
    let ghost st0 = state_of(globals@, functions@, output@);
    proof {
        lemma_nodes_view(ast@);
    }
    let n = ast.len();
    let mut last_val: u64 = crate::num::ZERO_BITS;
    let mut ret_val: Option<u64> = None;
    let mut idx: usize = 0;
    proof {
        assert(av.skip(0) =~= av);
    }
    while idx < n
        invariant
            0 <= idx <= n == ast@.len(),
            av == nodes_view(ast@),
            av.len() == n,
            forall|j: int| 0 <= j < n ==> av[j] == node_view(ast@[j]),
            eval_stmts_s(fuel as nat, av, st0, crate::num::ZERO_BITS, None) == eval_stmts_s(
                fuel as nat,
                av.skip(idx as int),
                state_of(globals@, functions@, output@),
                last_val,
                ret_val,
            ),
        decreases n - idx,
    {
        proof {
            assert(av.skip(idx as int)[0] == av[idx as int]);
            assert(av.skip(idx as int).drop_first() =~= av.skip(idx as int + 1));
            assert(decreases_to!(av => av[idx as int]));
        }
        let node_r = eval_node(&ast[idx], globals, functions, output, fuel);
        match node_r {
            Ok(v) => {
                let is_ret = matches!(&ast[idx], Node::ReturnExpr(_));
                proof {
                    assert((node_view(ast@[idx as int]) is Return) == is_ret);
                }
                if is_ret {
                    ret_val = Some(v);
                    last_val = crate::num::ZERO_BITS;
                } else {
                    last_val = v;
                }
            },
            Err(e) => {
                return Err(e);
            },
        }
        idx = idx + 1;
    }
    proof {
        assert(av.skip(n as int) =~= Seq::<NodeS>::empty());
    }
    match ret_val {
        Some(v) => Ok(v),
        None => Ok(last_val),
    }
}

/// Evaluate one node.  Returns exactly what [`eval_node_s`] describes.
#[verifier::rlimit(100)]
#[verifier::loop_isolation(false)]
fn eval_node(
    n: &Node,
    globals: &mut Scope,
    functions: &mut FnTable,
    output: &mut Vec<u64>,
    fuel: u64,
) -> (r: Result<u64, RuntimeError>)
    ensures
        node_outcome(
            fuel as nat,
            node_view(*n),
            state_of(old(globals)@, old(functions)@, old(output)@),
            r,
            state_of(final(globals)@, final(functions)@, final(output)@),
        ),
    decreases fuel, node_view(*n), 1int,
{
    let ghost nv = node_view(*n);
    let ghost st0 = state_of(globals@, functions@, output@);
    match n {
        Node::Number(x) => Ok(x.0),
        Node::BinaryExpr(e) => {
            proof {
                assert(decreases_to!(nv => nv->Binary_lhs));
                assert(decreases_to!(nv => nv->Binary_rhs));
            }
            let l = match eval(&e.lhs, globals, functions, output, fuel) {
                Ok(v) => v,
                Err(er) => {
                    return Err(er);
                },
            };
            let r0 = match eval(&e.rhs, globals, functions, output, fuel) {
                Ok(v) => v,
                Err(er) => {
                    return Err(er);
                },
            };
            let v = match e.op {
                Op::Add => crate::num::f64_add(l, r0),
                Op::Sub => crate::num::f64_sub(l, r0),
                Op::Mul => crate::num::f64_mul(l, r0),
                Op::Div => crate::num::f64_div(l, r0),
                Op::Mod => crate::num::f64_fmod(l, r0),
                Op::Gt => if crate::num::f64_gt(l, r0) {
                    ONE_BITS
                } else {
                    ZERO_BITS
                },
                Op::Lt => if crate::num::f64_lt(l, r0) {
                    ONE_BITS
                } else {
                    ZERO_BITS
                },
                Op::Eqt => if crate::num::f64_eq(l, r0) {
                    ONE_BITS
                } else {
                    ZERO_BITS
                },
            };
            Ok(v)
        },
        Node::BindExpr(e) => {
            proof {
                assert(decreases_to!(nv => nv->Bind_value));
            }
            let v = match eval(&e.value, globals, functions, output, fuel) {
                Ok(v) => v,
                Err(er) => {
                    return Err(er);
                },
            };
            globals.insert(e.name.clone(), v);
            Ok(v)
        },
        Node::Variable(name) => {
            match globals.get(name.as_str()) {
                Some(v) => Ok(v),
                None => Err(RuntimeError::UndefinedVariable(name.clone())),
            }
        },
        Node::ReturnExpr(e) => {
            proof {
                assert(decreases_to!(nv => nv->Return_value));
            }
            eval(&e.value, globals, functions, output, fuel)
        },
        Node::MutateExpr(e) => {
            proof {
                assert(decreases_to!(nv => nv->Mutate_value));
            }
            let v = match eval(&e.value, globals, functions, output, fuel) {
                Ok(v) => v,
                Err(er) => {
                    return Err(er);
                },
            };
            if globals.contains_key(e.name.as_str()) {
                globals.insert(e.name.clone(), v);
                Ok(v)
            } else {
                Err(RuntimeError::UndefinedVariable(e.name.clone()))
            }
        },
        Node::WhileExpr(e) => {
            let mut wf = fuel;
            let ghost st_entry = state_of(globals@, functions@, output@);
            proof {
                assert(decreases_to!(nv => nv->While_condition));
                assert(decreases_to!(nv => nv->While_body));
            }
            loop
                invariant
                    wf <= fuel,
                    nv == node_view(*n),
                    nv is While,
                    n is WhileExpr,
                    nv->While_condition == nodes_view(n->WhileExpr_0.condition@),
                    nv->While_body == nodes_view(n->WhileExpr_0.body@),
                    eval_while_s(fuel as nat, nv, st_entry) == eval_while_s(
                        wf as nat,
                        nv,
                        state_of(globals@, functions@, output@),
                    ),
                    st_entry == st0,
                decreases wf,
            {
                let ghost st_a = state_of(globals@, functions@, output@);
                let c = match eval(&e.condition, globals, functions, output, wf) {
                    Ok(v) => v,
                    Err(er) => {
                        return Err(er);
                    },
                };
                if crate::num::f64_eq(c, ZERO_BITS) {
                    proof {
                        assert(eval_while_s(wf as nat, nv, st_a) == Some(
                            Ok::<StateS, ErrS>(state_of(globals@, functions@, output@)),
                        ));
                    }
                    return Ok(ZERO_BITS);
                }
                match eval(&e.body, globals, functions, output, wf) {
                    Ok(_) => (),
                    Err(er) => {
                        return Err(er);
                    },
                }
                if wf == 0 {
                    return Err(RuntimeError::OutOfSteps);
                }
                wf = wf - 1;
            }
        },
        Node::IfExpr(e) => {
            proof {
                assert(decreases_to!(nv => nv->If_condition));
                assert(decreases_to!(nv => nv->If_body));
                assert(decreases_to!(nv => nv->If_else_body));
            }
            let c = match eval(&e.condition, globals, functions, output, fuel) {
                Ok(v) => v,
                Err(er) => {
                    return Err(er);
                },
            };
            if !crate::num::f64_eq(c, ZERO_BITS) {
                eval(&e.body, globals, functions, output, fuel)
            } else {
                eval(&e.else_body, globals, functions, output, fuel)
            }
        },
        Node::FnExpr(e) => {
            let f2 = crate::ast::clone_fn_expr(e);
            functions.insert(e.name.clone(), f2);
            Ok(ZERO_BITS)
        },
        Node::FnCallExpr(e) => {
            let f = match functions.get_clone(e.name.as_str()) {
                Some(f) => f,
                None => {
                    return Err(RuntimeError::UndefinedFunction(e.name.clone()));
                },
            };
            let ghost fv = crate::ast::fn_expr_view(f);
            let ghost params_v = fv.args;
            let ghost args_v = nv->Call_args;
            proof {
                lemma_nodes_view(f.args@);
                lemma_nodes_view(e.args@);
            }
            let np = f.args.len();
            let na = e.args.len();
            let k_max = if np < na {
                np
            } else {
                na
            };
            let mut local = Scope::new();
            let mut k: usize = 0;
            proof {
                assert(params_v.skip(0) =~= params_v);
                assert(args_v.skip(0) =~= args_v);
            }
            while k < k_max
                invariant
                    0 <= k <= k_max <= params_v.len(),
                    k_max <= args_v.len(),
                    k_max == if np < na {
                        np
                    } else {
                        na
                    },
                    np == params_v.len() == f.args@.len(),
                    na == args_v.len() == e.args@.len(),
                    n is FnCallExpr,
                    nv == node_view(*n),
                    args_v == nodes_view(e.args@),
                    params_v == nodes_view(f.args@),
                    forall|j: int| 0 <= j < np ==> params_v[j] == node_view(f.args@[j]),
                    forall|j: int| 0 <= j < na ==> args_v[j] == node_view(e.args@[j]),
                    eval_bind_args_s(fuel as nat, params_v, args_v, st0, Map::empty())
                        == eval_bind_args_s(
                        fuel as nat,
                        params_v.skip(k as int),
                        args_v.skip(k as int),
                        state_of(globals@, functions@, output@),
                        local@,
                    ),
                decreases k_max - k,
            {
                let ghost st_a = state_of(globals@, functions@, output@);
                proof {
                    assert(args_v.skip(k as int)[0] == args_v[k as int]);
                    assert(params_v.skip(k as int)[0] == params_v[k as int]);
                    assert(args_v.skip(k as int).drop_first() =~= args_v.skip(k as int + 1));
                    assert(params_v.skip(k as int).drop_first() =~= params_v.skip(k as int + 1));
                    assert(decreases_to!(nv => nv->Call_args));
                    assert(decreases_to!(args_v => args_v[k as int]));
                }
                let v = match eval_node(&e.args[k], globals, functions, output, fuel) {
                    Ok(v) => v,
                    Err(er) => {
                        return Err(er);
                    },
                };
                match &f.args[k] {
                    Node::Variable(pn) => {
                        local.insert(pn.clone(), v);
                    },
                    _ => {
                        return Err(RuntimeError::InvalidParameter);
                    },
                }
                k = k + 1;
            }
            proof {
                if np < na {
                    assert(params_v.skip(k_max as int).len() == 0);
                } else {
                    assert(args_v.skip(k_max as int).len() == 0);
                }
            }
            if fuel == 0 {
                return Err(RuntimeError::OutOfSteps);
            }
            let ghost st1 = state_of(globals@, functions@, output@);
            let ghost env2 = local@;
            proof {
                assert(decreases_to!(fuel as int => (fuel - 1) as int));
            }
            let body_r = eval(&f.body, &mut local, functions, output, fuel - 1);
            match body_r {
                Ok(v) => {
                    proof {
                        assert(eval_seq_s(
                            (fuel - 1) as nat,
                            fv.body,
                            StateS { env: env2, fns: st1.fns, out: st1.out },
                        ) == Some(
                            Ok::<_, ErrS>(
                                (
                                    v,
                                    state_of(local@, functions@, output@),
                                ),
                            ),
                        ));
                    }
                    Ok(v)
                },
                Err(er) => Err(er),
            }
        },
        Node::PrintStdoutExpr(e) => {
            proof {
                assert(decreases_to!(nv => nv->Print_value));
            }
            let v = match eval(&e.value, globals, functions, output, fuel) {
                Ok(v) => v,
                Err(er) => {
                    return Err(er);
                },
            };
            output.push(v);
            Ok(ZERO_BITS)
        },
    }
}


/// Raising a sufficient budget never changes what a statement sequence
/// evaluates to.
pub proof fn lemma_stmts_mono(
    f1: nat,
    f2: nat,
    nodes: Seq<NodeS>,
    st: StateS,
    last: u64,
    ret: Option<u64>,
)
    requires
        f1 <= f2,
        eval_stmts_s(f1, nodes, st, last, ret) is Some,
    ensures
        eval_stmts_s(f2, nodes, st, last, ret) == eval_stmts_s(f1, nodes, st, last, ret),
    decreases f1, nodes, 3int,
{
    if nodes.len() > 0 {
        lemma_node_mono(f1, f2, nodes[0], st);
        match eval_node_s(f1, nodes[0], st) {
            Some(Ok((v, st1))) => {
                if nodes[0] is Return {
                    lemma_stmts_mono(f1, f2, nodes.drop_first(), st1, ZERO_BITS, Some(v));
                } else {
                    lemma_stmts_mono(f1, f2, nodes.drop_first(), st1, v, ret);
                }
            },
            _ => (),
        }
    }
}

/// Raising a sufficient budget never changes what a fresh sequence
/// evaluates to.
pub proof fn lemma_seq_mono(f1: nat, f2: nat, nodes: Seq<NodeS>, st: StateS)
    requires
        f1 <= f2,
        eval_seq_s(f1, nodes, st) is Some,
    ensures
        eval_seq_s(f2, nodes, st) == eval_seq_s(f1, nodes, st),
    decreases f1, nodes, 4int,
{
    lemma_stmts_mono(f1, f2, nodes, st, ZERO_BITS, None);
}

/// Raising a sufficient budget never changes what one node evaluates to.
pub proof fn lemma_node_mono(f1: nat, f2: nat, n: NodeS, st: StateS)
    requires
        f1 <= f2,
        eval_node_s(f1, n, st) is Some,
    ensures
        eval_node_s(f2, n, st) == eval_node_s(f1, n, st),
    decreases f1, n, 1int,
{
    match n {
        NodeS::Number(_) => (),
        NodeS::Binary { op, lhs, rhs } => {
            lemma_seq_mono(f1, f2, lhs, st);
            match eval_seq_s(f1, lhs, st) {
                Some(Ok((l, st1))) => {
                    lemma_seq_mono(f1, f2, rhs, st1);
                },
                _ => (),
            }
        },
        NodeS::Bind { name, value } => {
            lemma_seq_mono(f1, f2, value, st);
        },
        NodeS::Variable(_) => (),
        NodeS::Return { value } => {
            lemma_seq_mono(f1, f2, value, st);
        },
        NodeS::Mutate { name, value } => {
            lemma_seq_mono(f1, f2, value, st);
        },
        NodeS::While { condition, body } => {
            lemma_while_mono(f1, f2, n, st);
        },
        NodeS::If { condition, body, else_body } => {
            lemma_seq_mono(f1, f2, condition, st);
            match eval_seq_s(f1, condition, st) {
                Some(Ok((c, st1))) => {
                    if !crate::num::eq_bits(c, ZERO_BITS) {
                        lemma_seq_mono(f1, f2, body, st1);
                    } else {
                        lemma_seq_mono(f1, f2, else_body, st1);
                    }
                },
                _ => (),
            }
        },
        NodeS::Fn(_) => (),
        NodeS::Call { name, args } => {
            if st.fns.contains_key(name) {
                let f = st.fns[name];
                lemma_bind_args_mono(f1, f2, f.args, args, st, Map::empty());
                match eval_bind_args_s(f1, f.args, args, st, Map::empty()) {
                    Some(Ok((env2, st1))) => {
                        if f1 > 0 {
                            lemma_seq_mono(
                                (f1 - 1) as nat,
                                (f2 - 1) as nat,
                                f.body,
                                StateS { env: env2, fns: st1.fns, out: st1.out },
                            );
                        }
                    },
                    _ => (),
                }
            }
        },
        NodeS::Print { value } => {
            lemma_seq_mono(f1, f2, value, st);
        },
    }
}

/// Raising a sufficient budget never changes what a loop evaluates to.
pub proof fn lemma_while_mono(f1: nat, f2: nat, n: NodeS, st: StateS)
    requires
        f1 <= f2,
        eval_while_s(f1, n, st) is Some,
    ensures
        eval_while_s(f2, n, st) == eval_while_s(f1, n, st),
    decreases f1, n, 0int,
{
    match n {
        NodeS::While { condition, body } => {
            lemma_seq_mono(f1, f2, condition, st);
            match eval_seq_s(f1, condition, st) {
                Some(Ok((c, st1))) => {
                    if !crate::num::eq_bits(c, ZERO_BITS) {
                        lemma_seq_mono(f1, f2, body, st1);
                        match eval_seq_s(f1, body, st1) {
                            Some(Ok((_b, st2))) => {
                                if f1 > 0 {
                                    lemma_while_mono((f1 - 1) as nat, (f2 - 1) as nat, n, st2);
                                }
                            },
                            _ => (),
                        }
                    }
                },
                _ => (),
            }
        },
        _ => (),
    }
}

/// Raising a sufficient budget never changes how a call's arguments
/// evaluate.
pub proof fn lemma_bind_args_mono(
    f1: nat,
    f2: nat,
    params: Seq<NodeS>,
    args: Seq<NodeS>,
    st: StateS,
    acc: Map<Seq<char>, u64>,
)
    requires
        f1 <= f2,
        eval_bind_args_s(f1, params, args, st, acc) is Some,
    ensures
        eval_bind_args_s(f2, params, args, st, acc) == eval_bind_args_s(f1, params, args, st, acc),
    decreases f1, args, 2int,
{
    if params.len() > 0 && args.len() > 0 {
        lemma_node_mono(f1, f2, args[0], st);
        match eval_node_s(f1, args[0], st) {
            Some(Ok((v, st1))) => {
                match params[0] {
                    NodeS::Variable(pn) => {
                        lemma_bind_args_mono(
                            f1,
                            f2,
                            params.drop_first(),
                            args.drop_first(),
                            st1,
                            acc.insert(pn, v),
                        );
                    },
                    _ => (),
                }
            },
            _ => (),
        }
    }
}

/// Running the same program twice from the same state gives the same
/// answer, whatever sufficient budgets the two runs were given: evaluation
/// has no hidden state.
pub proof fn lemma_eval_deterministic(f1: nat, f2: nat, nodes: Seq<NodeS>, st: StateS)
    requires
        eval_seq_s(f1, nodes, st) is Some,
        eval_seq_s(f2, nodes, st) is Some,
    ensures
        eval_seq_s(f1, nodes, st) == eval_seq_s(f2, nodes, st),
{
    if f1 <= f2 {
        lemma_seq_mono(f1, f2, nodes, st);
    } else {
        lemma_seq_mono(f2, f1, nodes, st);
    }
}

/// An empty operand sequence evaluates to the neutral value `0.0` and
/// leaves the state untouched.
pub proof fn lemma_eval_empty(fuel: nat, st: StateS)
    ensures
        eval_seq_s(fuel, Seq::empty(), st) == Some(Ok::<(u64, StateS), ErrS>((ZERO_BITS, st))),
{
}

} // verus!
