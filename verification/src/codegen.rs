//! The native code generator: lowering an abstract syntax tree into a
//! control-flow-graph intermediate representation.
//!
//! A module holds one function per `fn` construct plus `main`.  A function
//! is a table of value-producing instructions and a list of basic blocks;
//! a block lists the instructions emitted into it and ends in at most one
//! terminator.  Every generated expression yields a tagged value of kind
//! float or int (a comparison result): arithmetic wants floats and yields a
//! float, comparisons want floats and yield an int, only ints steer
//! branches, and only floats may be stored, returned, passed or printed.
//!
//! The functions [`gen_node_s`], [`gen_seq_s`] and their companions are the
//! specification of the generator; the executable [`Compiler`] returns
//! exactly what they describe.

use vstd::prelude::*;

use crate::ast::FnCallExpr;
use crate::ast::FnExpr;
use crate::ast::IfExpr;
use crate::ast::WhileExpr;
use crate::ast::Node;
use crate::ast::NodeS;
use crate::ast::Op;
use crate::ast::node_view;
use crate::ast::nodes_view;
use crate::ast::lemma_nodes_view;
use crate::num::ZERO_BITS;

verus! {

/// Whether `op` is arithmetic, yielding a float; the rest are comparisons
/// yielding an int.
pub open spec fn op_is_arith(op: Op) -> bool {
    match op {
        Op::Add | Op::Sub | Op::Mul | Op::Div | Op::Mod => true,
        Op::Gt | Op::Lt | Op::Eqt => false,
    }
}

/// A value-producing or effectful instruction.  Operands name earlier
/// instructions of the same function by index.
#[derive(Debug, PartialEq)]
pub enum Inst {
    /// A float constant, by its encoding.
    ConstF(u64),
    /// The function's i-th incoming argument (a float).
    Param(usize),
    /// A fresh mutable stack slot for one float.
    Alloca,
    /// The float held in a slot.
    Load(usize),
    /// Store a float value (second) into a slot (first).
    Store(usize, usize),
    /// An arithmetic or comparison operation on two floats.
    Bin(Op, usize, usize),
    /// A call to a declared function, on float arguments, yielding a float.
    Call(String, Vec<usize>),
    /// A call to the runtime's print symbol on one float.
    Print(usize),
}

/// A block terminator.
#[derive(Debug, PartialEq, Eq, Structural, Clone, Copy)]
pub enum Term {
    /// Return a float value.
    Ret(usize),
    /// Jump to a block.
    Br(usize),
    /// Branch on an int value: to the first block when it is nonzero.
    CondBr(usize, usize, usize),
}

/// A basic block: the instructions emitted into it, in order, and its
/// terminator once one has been emitted.
#[derive(Debug, PartialEq)]
pub struct Block {
    pub insts: Vec<usize>,
    pub term: Option<Term>,
}

/// One function of the module.
#[derive(Debug, PartialEq)]
pub struct IrFunc {
    pub name: String,
    pub n_params: usize,
    pub insts: Vec<Inst>,
    pub blocks: Vec<Block>,
}

/// A generated module.
#[derive(Debug, PartialEq)]
pub struct IrModule {
    pub funcs: Vec<IrFunc>,
}

/// The model of an instruction.
pub enum InstS {
    ConstF(u64),
    Param(int),
    Alloca,
    Load(int),
    Store(int, int),
    Bin(Op, int, int),
    Call(Seq<char>, Seq<int>),
    Print(int),
}

/// The model of a terminator.
pub enum TermS {
    Ret(int),
    Br(int),
    CondBr(int, int, int),
}

#[verifier::ext_equal]
pub struct BlockS {
    pub insts: Seq<int>,
    pub term: Option<TermS>,
}

/// The model of a function.
#[verifier::ext_equal]
pub struct FuncS {
    pub name: Seq<char>,
    pub n_params: int,
    pub insts: Seq<InstS>,
    pub blocks: Seq<BlockS>,
}

/// The model of a module.
#[verifier::ext_equal]
pub struct ModuleS {
    pub funcs: Seq<FuncS>,
}

/// The model of an instruction.
pub open spec fn inst_view(i: Inst) -> InstS {
    match i {
        Inst::ConstF(b) => InstS::ConstF(b),
        Inst::Param(k) => InstS::Param(k as int),
        Inst::Alloca => InstS::Alloca,
        Inst::Load(p) => InstS::Load(p as int),
        Inst::Store(p, v) => InstS::Store(p as int, v as int),
        Inst::Bin(op, l, r) => InstS::Bin(op, l as int, r as int),
        Inst::Call(name, args) => InstS::Call(name@, args@.map_values(|x: usize| x as int)),
        Inst::Print(v) => InstS::Print(v as int),
    }
}

/// The model of a terminator.
pub open spec fn term_view(t: Term) -> TermS {
    match t {
        Term::Ret(v) => TermS::Ret(v as int),
        Term::Br(b) => TermS::Br(b as int),
        Term::CondBr(c, b1, b2) => TermS::CondBr(c as int, b1 as int, b2 as int),
    }
}

/// The model of a block.
pub open spec fn block_view(b: Block) -> BlockS {
    BlockS {
        insts: b.insts@.map_values(|x: usize| x as int),
        term: match b.term {
            None => None,
            Some(t) => Some(term_view(t)),
        },
    }
}

/// The model of a function.
pub open spec fn func_view(f: IrFunc) -> FuncS {
    FuncS {
        name: f.name@,
        n_params: f.n_params as int,
        insts: f.insts@.map_values(|i: Inst| inst_view(i)),
        blocks: f.blocks@.map_values(|b: Block| block_view(b)),
    }
}

/// The model of a module.
pub open spec fn module_view(m: IrModule) -> ModuleS {
    ModuleS { funcs: m.funcs@.map_values(|f: IrFunc| func_view(f)) }
}

/// Whether instruction `id` of `f` yields a float.
pub open spec fn produces_float(f: FuncS, id: int) -> bool {
    0 <= id < f.insts.len() && match f.insts[id] {
        InstS::ConstF(_) => true,
        InstS::Param(_) => true,
        InstS::Load(_) => true,
        InstS::Bin(op, _, _) => op_is_arith(op),
        InstS::Call(_, _) => true,
        _ => false,
    }
}

/// Whether instruction `id` of `f` yields an int (a comparison result).
pub open spec fn produces_int(f: FuncS, id: int) -> bool {
    0 <= id < f.insts.len() && match f.insts[id] {
        InstS::Bin(op, _, _) => !op_is_arith(op),
        _ => false,
    }
}

/// The index of the first function of `m` named `name`, which a call
/// resolves to.
pub open spec fn resolve_fn(m: ModuleS, name: Seq<char>, k: int) -> Option<int>
    decreases m.funcs.len() - k,
{
    if k < 0 || k >= m.funcs.len() {
        None
    } else if m.funcs[k].name == name {
        Some(k)
    } else {
        resolve_fn(m, name, k + 1)
    }
}

/// Whether every element of `args` names a float value of `f` built before
/// instruction `id`.
pub open spec fn args_ok(f: FuncS, args: Seq<int>, id: int) -> bool {
    forall|k: int| 0 <= k < args.len() ==> args[k] < id && produces_float(f, #[trigger] args[k])
}

/// Whether the instruction `ins`, at position `id` of `f`, is well formed:
/// its operands name earlier instructions of the right kind, and a call
/// names a declared function of matching arity.
pub open spec fn inst_ok(ins: InstS, id: int, f: FuncS, m: ModuleS) -> bool {
    match ins {
        InstS::ConstF(_) => true,
        InstS::Param(i) => 0 <= i < f.n_params,
        InstS::Alloca => true,
        InstS::Load(p) => 0 <= p < id && f.insts[p] is Alloca,
        InstS::Store(p, v) => 0 <= p < id && f.insts[p] is Alloca && 0 <= v < id
            && produces_float(f, v),
        InstS::Bin(_, l, r) => 0 <= l < id && produces_float(f, l) && 0 <= r < id
            && produces_float(f, r),
        InstS::Call(name, args) => args_ok(f, args, id) && (resolve_fn(m, name, 0) matches Some(k)
            && m.funcs[k].n_params == args.len()),
        InstS::Print(v) => 0 <= v < id && produces_float(f, v),
    }
}

/// Whether the terminator `t` is well formed in `f`: a return yields a
/// float, branch targets exist, and a conditional branches on an int.
pub open spec fn term_ok(t: TermS, f: FuncS) -> bool {
    match t {
        TermS::Ret(v) => produces_float(f, v),
        TermS::Br(b) => 0 <= b < f.blocks.len(),
        TermS::CondBr(c, b1, b2) => produces_int(f, c) && 0 <= b1 < f.blocks.len() && 0 <= b2
            < f.blocks.len(),
    }
}

/// Whether the function `f` is well formed within `m`: every instruction
/// and terminator is well formed, every block lists real instructions, and
/// every block ends in exactly one terminator.
pub open spec fn func_wf(f: FuncS, m: ModuleS) -> bool {
    &&& forall|i: int| 0 <= i < f.insts.len() ==> inst_ok(#[trigger] f.insts[i], i, f, m)
    &&& forall|b: int|
        0 <= b < f.blocks.len() ==> ((#[trigger] f.blocks[b].term) matches Some(t) && term_ok(
            t,
            f,
        ))
    &&& forall|b: int, k: int|
        0 <= b < f.blocks.len() && 0 <= k < f.blocks[b].insts.len() ==> 0 <= #[trigger] f.blocks[b].insts[k]
            < f.insts.len()
}

/// Whether every function of the module is well formed.
pub open spec fn module_wf(m: ModuleS) -> bool {
    forall|i: int| 0 <= i < m.funcs.len() ==> func_wf(#[trigger] m.funcs[i], m)
}

/// A failure while generating code.
#[derive(Debug, PartialEq, Eq, Structural, Clone, Copy)]
pub enum CodegenError {
    /// An int (comparison) value stood where a float was required.
    ExpectedFloat,
    /// A float value stood where a branch condition (an int) was required.
    ExpectedInt,
    /// A name was read or mutated without a slot in the active scope.
    UndefinedVariable,
    /// A call named a function not declared in the module.
    UndefinedFunction,
    /// A function parameter is not a plain name.
    InvalidParameter,
    /// A generated function failed verification and was deleted.
    InvalidFunction,
}

/// The model of a tagged value: the index of the instruction that yields
/// it, of float or int kind.
pub enum GValS {
    F(int),
    I(int),
}

/// The model of the generator's state: the module built so far, the stack
/// of scopes mapping names to slot instructions, and the insertion point.
#[verifier::ext_equal]
pub struct GenS {
    pub module: ModuleS,
    pub scopes: Seq<Map<Seq<char>, int>>,
    pub cur_fn: int,
    pub cur_block: int,
    pub fn_value: Option<int>,
}

/// The function the insertion point stands in.
pub open spec fn cur_func(g: GenS) -> FuncS {
    g.module.funcs[g.cur_fn]
}

/// The state with the current function replaced.
pub open spec fn upd_func(g: GenS, f: FuncS) -> GenS {
    GenS { module: ModuleS { funcs: g.module.funcs.update(g.cur_fn, f) }, ..g }
}

/// Add an instruction to the current function's table, and, when `place`
/// holds and the current block is still open, list it in that block.
/// Yields the new state and the instruction's index.
pub open spec fn emit_s(g: GenS, ins: InstS, place: bool) -> (GenS, int) {
    let f = cur_func(g);
    let id = f.insts.len() as int;
    let f1 = FuncS { insts: f.insts.push(ins), ..f };
    let f2 = if place && 0 <= g.cur_block < f1.blocks.len() && f1.blocks[g.cur_block].term
        is None {
        FuncS {
            blocks: f1.blocks.update(
                g.cur_block,
                BlockS { insts: f1.blocks[g.cur_block].insts.push(id), term: None },
            ),
            ..f1
        }
    } else {
        f1
    };
    (upd_func(g, f2), id)
}

/// Add an alloca to the current function, listed at the start of its entry
/// block, where every parameter slot lives.
pub open spec fn emit_entry_alloca_s(g: GenS) -> (GenS, int) {
    let f = cur_func(g);
    let id = f.insts.len() as int;
    let f1 = FuncS { insts: f.insts.push(InstS::Alloca), ..f };
    let f2 = if f1.blocks.len() > 0 {
        FuncS {
            blocks: f1.blocks.update(
                0,
                BlockS { insts: f1.blocks[0].insts.insert(0, id), term: f1.blocks[0].term },
            ),
            ..f1
        }
    } else {
        f1
    };
    (upd_func(g, f2), id)
}

/// End the current block with `t` unless it already ends in a terminator:
/// a block never receives two.
pub open spec fn set_term_s(g: GenS, t: TermS) -> GenS {
    let f = cur_func(g);
    if 0 <= g.cur_block < f.blocks.len() && f.blocks[g.cur_block].term is None {
        upd_func(
            g,
            FuncS {
                blocks: f.blocks.update(
                    g.cur_block,
                    BlockS { insts: f.blocks[g.cur_block].insts, term: Some(t) },
                ),
                ..f
            },
        )
    } else {
        g
    }
}

/// Append a fresh empty block to the current function.  Yields the new
/// state and the block's index.
pub open spec fn add_block_s(g: GenS) -> (GenS, int) {
    let f = cur_func(g);
    let b = f.blocks.len() as int;
    (upd_func(g, FuncS { blocks: f.blocks.push(BlockS { insts: Seq::empty(), term: None }), ..f }), b)
}

/// Move the insertion point to block `b` of the current function.
pub open spec fn position_s(g: GenS, b: int) -> GenS {
    GenS { cur_block: b, ..g }
}

/// Whether every parameter of a prototype is a plain name.
pub open spec fn params_are_names(args: Seq<NodeS>) -> bool {
    forall|k: int| 0 <= k < args.len() ==> (#[trigger] args[k]) is Variable
}

/// What lowering one node yields: the node's tagged value and the new
/// state, or the failure that ends the whole compilation.
pub open spec fn gen_node_s(n: NodeS, g: GenS) -> Result<(GValS, GenS), CodegenError>
    decreases n, 1int,
{
    match n {
        NodeS::Number(bits) => {
            let (g1, id) = emit_s(g, InstS::ConstF(bits), false);
            Ok((GValS::F(id), g1))
        },
        NodeS::Binary { op, lhs, rhs } => match gen_seq_s(lhs, g) {
            Err(e) => Err(e),
            Ok((lv, g1)) => match lv {
                GValS::I(_) => Err(CodegenError::ExpectedFloat),
                GValS::F(l) => match gen_seq_s(rhs, g1) {
                    Err(e) => Err(e),
                    Ok((rv, g2)) => match rv {
                        GValS::I(_) => Err(CodegenError::ExpectedFloat),
                        GValS::F(r) => {
                            let (g3, id) = emit_s(g2, InstS::Bin(op, l, r), true);
                            if op_is_arith(op) {
                                Ok((GValS::F(id), g3))
                            } else {
                                Ok((GValS::I(id), g3))
                            }
                        },
                    },
                },
            },
        },
        NodeS::Bind { name, value } => match gen_seq_s(value, g) {
            Err(e) => Err(e),
            Ok((vv, g1)) => match vv {
                GValS::I(_) => Err(CodegenError::ExpectedFloat),
                GValS::F(v) => {
                    let (g2, slot) = emit_s(g1, InstS::Alloca, true);
                    let (g3, _s) = emit_s(g2, InstS::Store(slot, v), true);
                    let top = g3.scopes.len() - 1;
                    let g4 = GenS {
                        scopes: g3.scopes.update(top, g3.scopes[top].insert(name, slot)),
                        ..g3
                    };
                    let (g5, cid) = emit_s(g4, InstS::ConstF(ZERO_BITS), false);
                    Ok((GValS::F(cid), g5))
                },
            },
        },
        NodeS::Variable(name) => {
            if g.scopes.len() > 0 && g.scopes.last().contains_key(name) {
                let (g1, id) = emit_s(g, InstS::Load(g.scopes.last()[name]), true);
                Ok((GValS::F(id), g1))
            } else {
                Err(CodegenError::UndefinedVariable)
            }
        },
        NodeS::Return { value } => match gen_seq_s(value, g) {
            Err(e) => Err(e),
            Ok((vv, g1)) => match vv {
                GValS::I(_) => Err(CodegenError::ExpectedFloat),
                GValS::F(v) => Ok((GValS::F(v), set_term_s(g1, TermS::Ret(v)))),
            },
        },
        NodeS::Mutate { name, value } => match gen_seq_s(value, g) {
            Err(e) => Err(e),
            Ok((vv, g1)) => match vv {
                GValS::I(_) => Err(CodegenError::ExpectedFloat),
                GValS::F(v) => {
                    if g1.scopes.len() > 0 && g1.scopes.last().contains_key(name) {
                        let (g2, _s) = emit_s(
                            g1,
                            InstS::Store(g1.scopes.last()[name], v),
                            true,
                        );
                        let (g3, cid) = emit_s(g2, InstS::ConstF(ZERO_BITS), false);
                        Ok((GValS::F(cid), g3))
                    } else {
                        Err(CodegenError::UndefinedVariable)
                    }
                },
            },
        },
        NodeS::While { condition, body } => {
            let (ga, cond_bb) = add_block_s(g);
            let (gb, body_bb) = add_block_s(ga);
            let (gc, end_bb) = add_block_s(gb);
            let gd = set_term_s(gc, TermS::Br(cond_bb));
            let ge = position_s(gd, cond_bb);
            match gen_seq_s(condition, ge) {
                Err(e) => Err(e),
                Ok((cv, gf)) => match cv {
                    GValS::F(_) => Err(CodegenError::ExpectedInt),
                    GValS::I(c) => {
                        let gg = set_term_s(gf, TermS::CondBr(c, body_bb, end_bb));
                        let gh = position_s(gg, body_bb);
                        match gen_stmt_list_s(body, gh) {
                            Err(e) => Err(e),
                            Ok(gi) => {
                                let gj = set_term_s(gi, TermS::Br(cond_bb));
                                let gk = position_s(gj, end_bb);
                                let (gl, cid) = emit_s(gk, InstS::ConstF(ZERO_BITS), false);
                                Ok((GValS::F(cid), gl))
                            },
                        }
                    },
                },
            }
        },
        NodeS::If { condition, body, else_body } => {
            let (ga, if_cond) = add_block_s(g);
            let (gb, then_bb) = add_block_s(ga);
            let has_else = else_body.len() > 0;
            let (gc, else_bb) = if has_else {
                add_block_s(gb)
            } else {
                (gb, 0int)
            };
            let (gd, end_bb) = add_block_s(gc);
            let ge = set_term_s(gd, TermS::Br(if_cond));
            let gf = position_s(ge, if_cond);
            match gen_seq_s(condition, gf) {
                Err(e) => Err(e),
                Ok((cv, gg)) => match cv {
                    GValS::F(_) => Err(CodegenError::ExpectedInt),
                    GValS::I(c) => {
                        let gh = set_term_s(
                            gg,
                            TermS::CondBr(c, then_bb, if has_else {
                                else_bb
                            } else {
                                end_bb
                            }),
                        );
                        let gi = position_s(gh, then_bb);
                        match gen_stmt_list_s(body, gi) {
                            Err(e) => Err(e),
                            Ok(gj) => {
                                let gk = set_term_s(gj, TermS::Br(end_bb));
                                if has_else {
                                    let gl = position_s(gk, else_bb);
                                    match gen_stmt_list_s(else_body, gl) {
                                        Err(e) => Err(e),
                                        Ok(gm) => {
                                            let gn = set_term_s(gm, TermS::Br(end_bb));
                                            let go = position_s(gn, end_bb);
                                            let (gp, cid) = emit_s(
                                                go,
                                                InstS::ConstF(ZERO_BITS),
                                                false,
                                            );
                                            Ok((GValS::F(cid), gp))
                                        },
                                    }
                                } else {
                                    let go = position_s(gk, end_bb);
                                    let (gp, cid) = emit_s(go, InstS::ConstF(ZERO_BITS), false);
                                    Ok((GValS::F(cid), gp))
                                }
                            },
                        }
                    },
                },
            }
        },
        NodeS::Fn(f) => {
            if !params_are_names(f.args) {
                Err(CodegenError::InvalidParameter)
            } else {
                let saved_fn = g.cur_fn;
                let saved_block = g.cur_block;
                let idx = g.module.funcs.len() as int;
                let nf = FuncS {
                    name: f.name,
                    n_params: f.args.len() as int,
                    insts: Seq::empty(),
                    blocks: Seq::empty(),
                };
                let g1 = GenS {
                    module: ModuleS { funcs: g.module.funcs.push(nf) },
                    scopes: g.scopes,
                    cur_fn: idx,
                    cur_block: 0,
                    fn_value: Some(idx),
                };
                let (g2, _entry) = add_block_s(g1);
                let g3 = GenS { scopes: g2.scopes.push(Map::empty()), ..g2 };
                match gen_params_s(f.args, 0, g3) {
                    Err(e) => Err(e),
                    Ok(g4) => match gen_seq_s(f.body, g4) {
                        Err(e) => Err(e),
                        Ok((_bv, g5)) => {
                            let g6 = GenS {
                                scopes: g5.scopes.drop_last(),
                                cur_fn: saved_fn,
                                cur_block: saved_block,
                                ..g5
                            };
                            if func_wf(g6.module.funcs[idx], g6.module) {
                                let (g7, cid) = emit_s(g6, InstS::ConstF(ZERO_BITS), false);
                                Ok((GValS::F(cid), g7))
                            } else {
                                Err(CodegenError::InvalidFunction)
                            }
                        },
                    },
                }
            }
        },
        NodeS::Call { name, args } => match gen_args_s(args, g, Seq::empty()) {
            Err(e) => Err(e),
            Ok((ids, g1)) => {
                if resolve_fn(g1.module, name, 0) is Some {
                    let (g2, id) = emit_s(g1, InstS::Call(name, ids), true);
                    Ok((GValS::F(id), g2))
                } else {
                    Err(CodegenError::UndefinedFunction)
                }
            },
        },
        NodeS::Print { value } => match gen_seq_s(value, g) {
            Err(e) => Err(e),
            Ok((vv, g1)) => match vv {
                GValS::I(_) => Err(CodegenError::ExpectedFloat),
                GValS::F(v) => {
                    let (g2, _p) = emit_s(g1, InstS::Print(v), true);
                    let (g3, cid) = emit_s(g2, InstS::ConstF(ZERO_BITS), false);
                    Ok((GValS::F(cid), g3))
                },
            },
        },
    }
}

/// What lowering an operand or body sequence yields: the value of its last
/// node, stopping early at a `return`; an empty sequence yields a fresh
/// `0.0` constant.
pub open spec fn gen_seq_s(nodes: Seq<NodeS>, g: GenS) -> Result<(GValS, GenS), CodegenError>
    decreases nodes, 2int,
{
    if nodes.len() == 0 {
        let (g1, cid) = emit_s(g, InstS::ConstF(ZERO_BITS), false);
        Ok((GValS::F(cid), g1))
    } else {
        match gen_node_s(nodes[0], g) {
            Err(e) => Err(e),
            Ok((v, g1)) => if nodes[0] is Return || nodes.len() == 1 {
                Ok((v, g1))
            } else {
                gen_seq_s(nodes.drop_first(), g1)
            },
        }
    }
}

/// What lowering a loop or branch body yields: every node in order, values
/// discarded, with no early stop at a `return`.
pub open spec fn gen_stmt_list_s(nodes: Seq<NodeS>, g: GenS) -> Result<GenS, CodegenError>
    decreases nodes, 2int,
{
    if nodes.len() == 0 {
        Ok(g)
    } else {
        match gen_node_s(nodes[0], g) {
            Err(e) => Err(e),
            Ok((_v, g1)) => gen_stmt_list_s(nodes.drop_first(), g1),
        }
    }
}

/// What lowering a call's arguments yields: each argument lowered in
/// order, each required to be a float.
pub open spec fn gen_args_s(args: Seq<NodeS>, g: GenS, acc: Seq<int>) -> Result<
    (Seq<int>, GenS),
    CodegenError,
>
    decreases args, 2int,
{
    if args.len() == 0 {
        Ok((acc, g))
    } else {
        match gen_node_s(args[0], g) {
            Err(e) => Err(e),
            Ok((v, g1)) => match v {
                GValS::F(id) => gen_args_s(args.drop_first(), g1, acc.push(id)),
                GValS::I(_) => Err(CodegenError::ExpectedFloat),
            },
        }
    }
}

/// What setting up a function's parameters yields: one entry-block slot
/// per parameter, the incoming argument stored into it, and the name bound
/// in the new top scope, so parameters are mutable exactly like any other
/// bound variable.
pub open spec fn gen_params_s(params: Seq<NodeS>, k: int, g: GenS) -> Result<GenS, CodegenError>
    recommends
        params_are_names(params),
    decreases params.len() - k,
{
    if k < 0 || k >= params.len() {
        Ok(g)
    } else {
        match params[k] {
            NodeS::Variable(pn) => {
                let (g1, slot) = emit_entry_alloca_s(g);
                let (g2, pid) = emit_s(g1, InstS::Param(k), false);
                let (g3, _s) = emit_s(g2, InstS::Store(slot, pid), true);
                let top = g3.scopes.len() - 1;
                let g4 = GenS {
                    scopes: g3.scopes.update(top, g3.scopes[top].insert(pn, slot)),
                    ..g3
                };
                gen_params_s(params, k + 1, g4)
            },
            _ => Err(CodegenError::InvalidParameter),
        }
    }
}

/// The generator's starting state: an empty module and one empty global
/// scope.
pub open spec fn init_gen_s() -> GenS {
    GenS {
        module: ModuleS { funcs: Seq::empty() },
        scopes: seq![Map::empty()],
        cur_fn: 0,
        cur_block: 0,
        fn_value: None,
    }
}

/// A tagged value: the index of the instruction yielding it, of float or
/// int (comparison) kind.
#[derive(Debug, PartialEq, Eq, Structural, Clone, Copy)]
pub enum GenValue {
    Float(usize),
    Int(usize),
}

/// The model of a tagged value.
pub open spec fn gval_view(v: GenValue) -> GValS {
    match v {
        GenValue::Float(id) => GValS::F(id as int),
        GenValue::Int(id) => GValS::I(id as int),
    }
}

impl GenValue {
    /// The instruction index, for an int value only.
    pub fn as_int(&self) -> (r: Option<usize>)
        ensures
            r == match *self {
                GenValue::Int(id) => Some(id),
                _ => None::<usize>,
            },
    {
        match self {
            GenValue::Int(id) => Some(*id),
            _ => None,
        }
    }

    /// The instruction index, for a float value only.
    pub fn as_float(&self) -> (r: Option<usize>)
        ensures
            r == match *self {
                GenValue::Float(id) => Some(id),
                _ => None::<usize>,
            },
    {
        match self {
            GenValue::Float(id) => Some(*id),
            _ => None,
        }
    }
}

/// What compiling a whole program yields: a `main` function of no
/// parameters wrapping the top-level statements, lowered into an entry
/// block and returning its float result unless a `return` already ended
/// the final block, plus one function per `fn` construct seen on the way.
pub open spec fn gen_main_s(nodes: Seq<NodeS>) -> Result<GenS, CodegenError> {
    let g0 = init_gen_s();
    let mf = FuncS { name: "main"@, n_params: 0, insts: Seq::empty(), blocks: Seq::empty() };
    let g1 = GenS {
        module: ModuleS { funcs: g0.module.funcs.push(mf) },
        scopes: g0.scopes,
        cur_fn: 0,
        cur_block: 0,
        fn_value: Some(0),
    };
    let (g2, _entry) = add_block_s(g1);
    match gen_seq_s(nodes, g2) {
        Err(e) => Err(e),
        Ok((rv, g3)) => match rv {
            GValS::I(_) => Err(CodegenError::ExpectedFloat),
            GValS::F(v) => Ok(set_term_s(g3, TermS::Ret(v))),
        },
    }
}


/// The code generator.  It owns the module being built, a stack of scopes
/// mapping names to slot instructions, and the insertion point.
pub struct Compiler {
    pub module: IrModule,
    pub variables: Vec<vstd::hash_map::StringHashMap<usize>>,
    cur_fn: usize,
    cur_block: usize,
    fn_value_opt: Option<usize>,
}

impl View for Compiler {
    type V = GenS;

    closed spec fn view(&self) -> GenS {
        GenS {
            module: module_view(self.module),
            scopes: self.variables@.map_values(
                |m: vstd::hash_map::StringHashMap<usize>| m@.map_values(|v: usize| v as int),
            ),
            cur_fn: self.cur_fn as int,
            cur_block: self.cur_block as int,
            fn_value: match self.fn_value_opt {
                None => None,
                Some(x) => Some(x as int),
            },
        }
    }
}

impl Compiler {
    /// The insertion point stands in a real block of a real function, and
    /// at least the global scope is active.
    pub closed spec fn wf(&self) -> bool {
        &&& self.variables.len() > 0
        &&& (self.cur_fn as int) < self.module.funcs@.len()
        &&& (self.cur_block as int) < self.module.funcs@[self.cur_fn as int].blocks@.len()
    }

    /// A fresh generator: an empty module and one empty global scope.
    pub fn new() -> (r: Self)
        ensures
            r@ == init_gen_s(),
    {
        let mut variables: Vec<vstd::hash_map::StringHashMap<usize>> = Vec::new();
        variables.push(vstd::hash_map::StringHashMap::new());
        let r = Compiler {
            module: IrModule { funcs: Vec::new() },
            variables,
            cur_fn: 0,
            cur_block: 0,
            fn_value_opt: None,
        };
        proof {
            assert(r@.module.funcs =~~= init_gen_s().module.funcs);
            assert(r@.scopes =~~= init_gen_s().scopes);
            assert(r@ =~~= init_gen_s());
        }
        r
    }

    /// Add `ins` to the current function's table and, when `place` holds
    /// and the block is open, list it in the current block.
    fn emit(&mut self, ins: Inst, place: bool) -> (id: usize)
        requires
            old(self).wf(),
        ensures
            final(self).wf(),
            final(self)@ == emit_s(old(self)@, inst_view(ins), place).0,
            id as int == emit_s(old(self)@, inst_view(ins), place).1,
    {
        let ghost g0 = self@;
        let ghost iv = inst_view(ins);
        let id = self.module.funcs[self.cur_fn].insts.len();
        self.module.funcs[self.cur_fn].insts.push(ins);
        proof {
            let f0 = cur_func(g0);
            let f1 = FuncS { insts: f0.insts.push(iv), ..f0 };
            assert(func_view(self.module.funcs@[self.cur_fn as int]) =~~= f1);
            assert(self@.module.funcs =~~= g0.module.funcs.update(g0.cur_fn, f1));
        }
        if place {
            let open_block = self.module.funcs[self.cur_fn].blocks[self.cur_block].term.is_none();
            if open_block {
                let ghost ga = self@;
                self.module.funcs[self.cur_fn].blocks[self.cur_block].insts.push(id);
                proof {
                    let f0 = cur_func(g0);
                    let f1 = FuncS { insts: f0.insts.push(iv), ..f0 };
                    let f2 = FuncS {
                        blocks: f1.blocks.update(
                            g0.cur_block,
                            BlockS {
                                insts: f1.blocks[g0.cur_block].insts.push(id as int),
                                term: None,
                            },
                        ),
                        ..f1
                    };
                    assert(block_view(
                        self.module.funcs@[self.cur_fn as int].blocks@[self.cur_block as int],
                    ) =~~= f2.blocks[g0.cur_block]);
                    assert(func_view(self.module.funcs@[self.cur_fn as int]) =~~= f2);
                    assert(self@.module.funcs =~~= g0.module.funcs.update(g0.cur_fn, f2));
                    assert(self@ =~~= emit_s(g0, iv, place).0);
                }
            } else {
                proof {
                    assert(self@ =~~= emit_s(g0, iv, place).0);
                }
            }
        } else {
            proof {
                assert(self@ =~~= emit_s(g0, iv, place).0);
            }
        }
        id
    }

    /// Add an alloca listed at the start of the entry block of the current
    /// function, where parameter slots live.  The `name` documents which
    /// variable the slot is for.
    fn create_entry_block_alloca(&mut self, name: &str) -> (id: usize)
        requires
            old(self).wf(),
        ensures
            final(self).wf(),
            final(self)@ == emit_entry_alloca_s(old(self)@).0,
            id as int == emit_entry_alloca_s(old(self)@).1,
    {
        let ghost g0 = self@;
        let id = self.module.funcs[self.cur_fn].insts.len();
        self.module.funcs[self.cur_fn].insts.push(Inst::Alloca);
        self.module.funcs[self.cur_fn].blocks[0].insts.insert(0, id);
        proof {
            let f0 = cur_func(g0);
            let f1 = FuncS { insts: f0.insts.push(InstS::Alloca), ..f0 };
            let f2 = FuncS {
                blocks: f1.blocks.update(
                    0,
                    BlockS { insts: f1.blocks[0].insts.insert(0, id as int), term: f1.blocks[0].term },
                ),
                ..f1
            };
            assert(block_view(self.module.funcs@[self.cur_fn as int].blocks@[0]) =~~= f2.blocks[0]);
            assert(func_view(self.module.funcs@[self.cur_fn as int]) =~~= f2);
            assert(self@.module.funcs =~~= g0.module.funcs.update(g0.cur_fn, f2));
            assert(self@ =~~= emit_entry_alloca_s(g0).0);
        }
        id
    }

    /// End the current block with `t` unless it already has a terminator.
    fn set_term(&mut self, t: Term)
        requires
            old(self).wf(),
        ensures
            final(self).wf(),
            final(self)@ == set_term_s(old(self)@, term_view(t)),
    {
        let ghost g0 = self@;
        let open_block = self.module.funcs[self.cur_fn].blocks[self.cur_block].term.is_none();
        if open_block {
            self.module.funcs[self.cur_fn].blocks[self.cur_block].term = Some(t);
            proof {
                let f0 = cur_func(g0);
                let f2 = FuncS {
                    blocks: f0.blocks.update(
                        g0.cur_block,
                        BlockS {
                            insts: f0.blocks[g0.cur_block].insts,
                            term: Some(term_view(t)),
                        },
                    ),
                    ..f0
                };
                assert(block_view(
                    self.module.funcs@[self.cur_fn as int].blocks@[self.cur_block as int],
                ) =~~= f2.blocks[g0.cur_block]);
                assert(func_view(self.module.funcs@[self.cur_fn as int]) =~~= f2);
                assert(self@.module.funcs =~~= g0.module.funcs.update(g0.cur_fn, f2));
                assert(self@ =~~= set_term_s(g0, term_view(t)));
            }
        } else {
            proof {
                assert(self@ =~~= set_term_s(g0, term_view(t)));
            }
        }
    }

    /// Append a fresh empty block to the current function.
    fn add_block(&mut self) -> (b: usize)
        requires
            old(self).wf(),
        ensures
            final(self).wf(),
            final(self)@ == add_block_s(old(self)@).0,
            b as int == add_block_s(old(self)@).1,
    {
        let ghost g0 = self@;
        let b = self.module.funcs[self.cur_fn].blocks.len();
        self.module.funcs[self.cur_fn].blocks.push(Block { insts: Vec::new(), term: None });
        proof {
            let f0 = cur_func(g0);
            let f2 = FuncS {
                blocks: f0.blocks.push(BlockS { insts: Seq::empty(), term: None }),
                ..f0
            };
            assert(block_view(self.module.funcs@[self.cur_fn as int].blocks@[b as int])
                =~~= BlockS { insts: Seq::empty(), term: None });
            assert(func_view(self.module.funcs@[self.cur_fn as int]) =~~= f2);
            assert(self@.module.funcs =~~= g0.module.funcs.update(g0.cur_fn, f2));
            assert(self@ =~~= add_block_s(g0).0);
        }
        b
    }

    /// Move the insertion point to block `b` of the current function.
    fn position_at_end(&mut self, b: usize)
        requires
            old(self).wf(),
            (b as int) < cur_func(old(self)@).blocks.len(),
        ensures
            final(self).wf(),
            final(self)@ == position_s(old(self)@, b as int),
    {
        let ghost g0 = self@;
        self.cur_block = b;
        proof {
            assert(self@ =~~= position_s(g0, b as int));
        }
    }

    /// Bind `name` to the slot `slot` in the innermost scope.
    fn bind_name(&mut self, name: String, slot: usize)
        requires
            old(self).wf(),
        ensures
            final(self).wf(),
            final(self)@ == (GenS {
                scopes: old(self)@.scopes.update(
                    old(self)@.scopes.len() - 1,
                    old(self)@.scopes.last().insert(name@, slot as int),
                ),
                ..old(self)@
            }),
    {
        let ghost g0 = self@;
        let top = self.variables.len() - 1;
        self.variables[top].insert(name, slot);
        proof {
            assert(self@.scopes =~~= g0.scopes.update(
                g0.scopes.len() - 1,
                g0.scopes.last().insert(name@, slot as int),
            ));
            assert(self@ =~~= GenS {
                scopes: g0.scopes.update(
                    g0.scopes.len() - 1,
                    g0.scopes.last().insert(name@, slot as int),
                ),
                ..g0
            });
        }
    }

    /// The slot bound to `name` in the innermost scope, if any.
    fn lookup_name(&self, name: &str) -> (r: Option<usize>)
        requires
            self.wf(),
        ensures
            match r {
                Some(slot) => self@.scopes.last().contains_key(name@) && slot as int
                    == self@.scopes.last()[name@],
                None => !self@.scopes.last().contains_key(name@),
            },
    {
        let top = self.variables.len() - 1;
        match self.variables[top].get(name) {
            Some(s) => Some(*s),
            None => None,
        }
    }

    /// Push a fresh empty scope for a function body.
    fn push_scope(&mut self)
        requires
            old(self).wf(),
        ensures
            final(self).wf(),
            final(self)@ == (GenS { scopes: old(self)@.scopes.push(Map::empty()), ..old(self)@ }),
    {
        let ghost g0 = self@;
        self.variables.push(vstd::hash_map::StringHashMap::new());
        proof {
            assert(self@.scopes =~~= g0.scopes.push(Map::empty()));
            assert(self@ =~~= GenS { scopes: g0.scopes.push(Map::empty()), ..g0 });
        }
    }

    /// Pop the scope of a finished function body.
    fn pop_scope(&mut self)
        requires
            old(self).wf(),
            old(self).wf_scopes_two(),
        ensures
            final(self).wf(),
            final(self)@ == (GenS { scopes: old(self)@.scopes.drop_last(), ..old(self)@ }),
    {
        let ghost g0 = self@;
        let _ = self.variables.pop();
        proof {
            assert(self@.scopes =~~= g0.scopes.drop_last());
            assert(self@ =~~= GenS { scopes: g0.scopes.drop_last(), ..g0 });
        }
    }

    /// At least two scopes are active (a function body is open).
    pub closed spec fn wf_scopes_two(&self) -> bool {
        self.variables.len() >= 2
    }
}


/// Whether instruction `id` of `f` yields a float.
fn inst_is_float(f: &IrFunc, id: usize) -> (r: bool)
    ensures
        r == produces_float(func_view(*f), id as int),
{
    if id >= f.insts.len() {
        return false;
    }
    match &f.insts[id] {
        Inst::ConstF(_) => true,
        Inst::Param(_) => true,
        Inst::Load(_) => true,
        Inst::Bin(op, _, _) => matches!(op, Op::Add | Op::Sub | Op::Mul | Op::Div | Op::Mod),
        Inst::Call(_, _) => true,
        _ => false,
    }
}

/// Whether instruction `id` of `f` yields an int.
fn inst_is_int(f: &IrFunc, id: usize) -> (r: bool)
    ensures
        r == produces_int(func_view(*f), id as int),
{
    if id >= f.insts.len() {
        return false;
    }
    match &f.insts[id] {
        Inst::Bin(op, _, _) => !matches!(op, Op::Add | Op::Sub | Op::Mul | Op::Div | Op::Mod),
        _ => false,
    }
}

/// Whether instruction `id` of `f` is an alloca.
fn inst_is_alloca(f: &IrFunc, id: usize) -> (r: bool)
    ensures
        r == (0 <= id < func_view(*f).insts.len() && func_view(*f).insts[id as int] is Alloca),
{
    if id >= f.insts.len() {
        return false;
    }
    matches!(&f.insts[id], Inst::Alloca)
}

/// The first function of `m` named `name`, if any.
#[verifier::loop_isolation(false)]
fn find_function(m: &IrModule, name: &str) -> (r: Option<usize>)
    ensures
        match r {
            Some(k) => resolve_fn(module_view(*m), name@, 0) == Some(k as int) && (k as int)
                < module_view(*m).funcs.len(),
            None => resolve_fn(module_view(*m), name@, 0) is None,
        },
{
    let ghost mv = module_view(*m);
    let n = m.funcs.len();
    let mut k: usize = 0;
    while k < n
        invariant
            0 <= k <= n == m.funcs@.len(),
            mv == module_view(*m),
            mv.funcs.len() == n,
            resolve_fn(mv, name@, 0) == resolve_fn(mv, name@, k as int),
        decreases n - k,
    {
        if crate::lex::str_eq(m.funcs[k].name.as_str(), name) {
            return Some(k);
        }
        k = k + 1;
    }
    None
}

/// Whether the instruction at position `id` of `f` is well formed within `m`.
#[verifier::loop_isolation(false)]
fn check_inst(f: &IrFunc, m: &IrModule, id: usize) -> (r: bool)
    requires
        id < f.insts@.len(),
    ensures
        r == inst_ok(func_view(*f).insts[id as int], id as int, func_view(*f), module_view(*m)),
{
    let ghost fv = func_view(*f);
    let ghost mv = module_view(*m);
    match &f.insts[id] {
        Inst::ConstF(_) => true,
        Inst::Param(i) => *i < f.n_params,
        Inst::Alloca => true,
        Inst::Load(p) => *p < id && inst_is_alloca(f, *p),
        Inst::Store(p, v) => *p < id && inst_is_alloca(f, *p) && *v < id && inst_is_float(f, *v),
        Inst::Bin(_, l, r) => *l < id && inst_is_float(f, *l) && *r < id && inst_is_float(f, *r),
        Inst::Call(name, args) => {
            let ghost args_v = args@.map_values(|x: usize| x as int);
            let na = args.len();
            let mut k: usize = 0;
            let mut all_ok = true;
            while k < na
                invariant
                    0 <= k <= na == args@.len(),
                    args_v == args@.map_values(|x: usize| x as int),
                    fv == func_view(*f),
                    all_ok == (forall|j: int|
                        0 <= j < k ==> args_v[j] < id && produces_float(fv, #[trigger] args_v[j])),
                decreases na - k,
            {
                let a = args[k];
                proof {
                    assert(args_v[k as int] == args@[k as int] as int);
                }
                if !(a < id && inst_is_float(f, a)) {
                    all_ok = false;
                }
                k = k + 1;
            }
            if !all_ok {
                false
            } else {
                match find_function(m, name.as_str()) {
                    Some(fk) => {
                        proof {
                            assert(args_v.len() == args@.len());
                        }
                        m.funcs[fk].n_params == na
                    },
                    None => false,
                }
            }
        },
        Inst::Print(v) => *v < id && inst_is_float(f, *v),
    }
}

/// Whether the function `f` is well formed within `m`: the check the
/// generator runs on each finished function before keeping it.
#[verifier::loop_isolation(false)]
pub fn verify_func(f: &IrFunc, m: &IrModule) -> (r: bool)
    ensures
        r == func_wf(func_view(*f), module_view(*m)),
{
    let ghost fv = func_view(*f);
    let ghost mv = module_view(*m);
    let ni = f.insts.len();
    let mut i: usize = 0;
    while i < ni
        invariant
            0 <= i <= ni == f.insts@.len(),
            fv == func_view(*f),
            mv == module_view(*m),
            forall|j: int| 0 <= j < i ==> inst_ok(#[trigger] fv.insts[j], j, fv, mv),
        decreases ni - i,
    {
        if !check_inst(f, m, i) {
            proof {
                assert(!inst_ok(fv.insts[i as int], i as int, fv, mv));
                assert(!func_wf(fv, mv));
            }
            return false;
        }
        i = i + 1;
    }
    let nb = f.blocks.len();
    let mut b: usize = 0;
    while b < nb
        invariant
            0 <= b <= nb == f.blocks@.len(),
            fv == func_view(*f),
            mv == module_view(*m),
            forall|j: int| 0 <= j < fv.insts.len() ==> inst_ok(#[trigger] fv.insts[j], j, fv, mv),
            forall|j: int|
                0 <= j < b ==> ((#[trigger] fv.blocks[j].term) matches Some(t) && term_ok(t, fv)),
            forall|j: int, k: int|
                0 <= j < b && 0 <= k < fv.blocks[j].insts.len() ==> 0 <= #[trigger] fv.blocks[j].insts[k]
                    < fv.insts.len(),
        decreases nb - b,
    {
        let term_good = match &f.blocks[b].term {
            None => false,
            Some(Term::Ret(v)) => inst_is_float(f, *v),
            Some(Term::Br(t)) => *t < nb,
            Some(Term::CondBr(c, t1, t2)) => inst_is_int(f, *c) && *t1 < nb && *t2 < nb,
        };
        if !term_good {
            proof {
                assert(fv.blocks[b as int] == block_view(f.blocks@[b as int]));
                assert(!(fv.blocks[b as int].term matches Some(t) && term_ok(t, fv)));
                assert(!func_wf(fv, mv));
            }
            return false;
        }
        proof {
            assert(fv.blocks[b as int] == block_view(f.blocks@[b as int]));
        }
        let nk = f.blocks[b].insts.len();
        let mut k: usize = 0;
        while k < nk
            invariant
                0 <= k <= nk == f.blocks@[b as int].insts@.len(),
                b < nb == f.blocks@.len(),
                ni == f.insts@.len(),
                fv == func_view(*f),
                forall|j: int|
                    0 <= j < k ==> 0 <= #[trigger] fv.blocks[b as int].insts[j] < fv.insts.len(),
            decreases nk - k,
        {
            if !(f.blocks[b].insts[k] < ni) {
                proof {
                    assert(fv.blocks[b as int] == block_view(f.blocks@[b as int]));
                    assert(fv.blocks[b as int].insts[k as int] == f.blocks@[b as int].insts@[k as int] as int);
                    assert(!func_wf(fv, mv));
                }
                return false;
            }
            k = k + 1;
        }
        b = b + 1;
    }
    true
}

/// Whether every function of the module is well formed: the check the
/// ahead-of-time driver runs before emitting an object file.
#[verifier::loop_isolation(false)]
pub fn verify_module(m: &IrModule) -> (r: bool)
    ensures
        r == module_wf(module_view(*m)),
{
    let ghost mv = module_view(*m);
    let n = m.funcs.len();
    let mut i: usize = 0;
    while i < n
        invariant
            0 <= i <= n == m.funcs@.len(),
            mv == module_view(*m),
            forall|j: int| 0 <= j < i ==> func_wf(#[trigger] mv.funcs[j], mv),
        decreases n - i,
    {
        if !verify_func(&m.funcs[i], m) {
            proof {
                assert(mv.funcs[i as int] == func_view(m.funcs@[i as int]));
                assert(!module_wf(mv));
            }
            return false;
        }
        i = i + 1;
    }
    true
}


/// The module only grows: no function or block disappears.
pub open spec fn grows(a: GenS, b: GenS) -> bool {
    &&& b.module.funcs.len() >= a.module.funcs.len()
    &&& forall|fi: int|
        0 <= fi < a.module.funcs.len() ==> (#[trigger] b.module.funcs[fi].blocks.len())
            >= a.module.funcs[fi].blocks.len()
}

/// Growing composes.
pub proof fn lemma_grows_trans(a: GenS, b: GenS, c: GenS)
    requires
        grows(a, b),
        grows(b, c),
    ensures
        grows(a, c),
{
    assert forall|fi: int| 0 <= fi < a.module.funcs.len() implies (
    #[trigger] c.module.funcs[fi].blocks.len()) >= a.module.funcs[fi].blocks.len() by {
        assert(b.module.funcs[fi].blocks.len() >= a.module.funcs[fi].blocks.len());
        assert(c.module.funcs[fi].blocks.len() >= b.module.funcs[fi].blocks.len());
    }
}

/// The node lowering succeeded: the state grew from `a` to `b` in the same
/// function and scope depth, and the specification agrees.
pub open spec fn gen_ok(a: GenS, b: GenS) -> bool {
    &&& grows(a, b)
    &&& b.cur_fn == a.cur_fn
    &&& b.scopes.len() == a.scopes.len()
}

/// Successes compose.
pub proof fn lemma_gen_ok_trans(a: GenS, b: GenS, c: GenS)
    requires
        gen_ok(a, b),
        gen_ok(b, c),
    ensures
        gen_ok(a, c),
{
    lemma_grows_trans(a, b, c);
}

impl Compiler {
    /// Declare the prototype of a function: its name and one float
    /// parameter per argument name.  Every parameter must be a plain name.
    fn compile_prototype(&mut self, proto: &FnExpr) -> (r: Result<usize, CodegenError>)
        requires
            old(self).wf(),
        ensures
            match r {
                Ok(idx) => final(self).wf() && params_are_names(nodes_view(proto.args@)) && idx
                    as int == old(self)@.module.funcs.len() && final(self)@ == (GenS {
                    module: ModuleS {
                        funcs: old(self)@.module.funcs.push(
                            FuncS {
                                name: proto.name@,
                                n_params: proto.args@.len() as int,
                                insts: Seq::empty(),
                                blocks: Seq::empty(),
                            },
                        ),
                    },
                    ..old(self)@
                }),
                Err(e) => e == CodegenError::InvalidParameter && !params_are_names(
                    nodes_view(proto.args@),
                ),
            },
    {
        let ghost g0 = self@;
        let ghost pv = nodes_view(proto.args@);
        proof {
            lemma_nodes_view(proto.args@);
        }
        let np = proto.args.len();
        let mut k: usize = 0;
        while k < np
            invariant
                0 <= k <= np == proto.args@.len(),
                pv == nodes_view(proto.args@),
                pv.len() == np,
                forall|j: int| 0 <= j < np ==> pv[j] == node_view(proto.args@[j]),
                forall|j: int| 0 <= j < k ==> (#[trigger] pv[j]) is Variable,
            decreases np - k,
        {
            match &proto.args[k] {
                Node::Variable(_) => (),
                _ => {
                    proof {
                        assert(!(pv[k as int] is Variable));
                        assert(!params_are_names(pv));
                    }
                    return Err(CodegenError::InvalidParameter);
                },
            }
            k = k + 1;
        }
        let idx = self.module.funcs.len();
        self.module.funcs.push(
            IrFunc {
                name: proto.name.clone(),
                n_params: proto.args.len(),
                insts: Vec::new(),
                blocks: Vec::new(),
            },
        );
        proof {
            let nf = FuncS {
                name: proto.name@,
                n_params: proto.args@.len() as int,
                insts: Seq::empty(),
                blocks: Seq::empty(),
            };
            assert(func_view(self.module.funcs@[idx as int]) =~~= nf);
            assert(self@.module.funcs =~~= g0.module.funcs.push(nf));
            assert(self@ =~~= GenS { module: ModuleS { funcs: g0.module.funcs.push(nf) }, ..g0 });
        }
        Ok(idx)
    }

    /// Lower an operand or body sequence: the value of its last node,
    /// stopping early at a `return`; an empty sequence yields a fresh
    /// `0.0` constant.  Returns exactly what [`gen_seq_s`] describes.
    #[verifier::loop_isolation(false)]
    pub fn gen_body(&mut self, nodes: &Vec<Node>) -> (r: Result<GenValue, CodegenError>)
        requires
            old(self).wf(),
        ensures
            match r {
                Ok(v) => final(self).wf() && gen_ok(old(self)@, final(self)@) && gen_seq_s(
                    nodes_view(nodes@),
                    old(self)@,
                ) == Ok::<(GValS, GenS), CodegenError>((gval_view(v), final(self)@)),
                Err(e) => gen_seq_s(nodes_view(nodes@), old(self)@) == Err::<
                    (GValS, GenS),
                    CodegenError,
                >(e),
            },
        decreases nodes_view(nodes@), 2int,
    {
        let ghost av = nodes_view(nodes@);
        let ghost g0 = self@;
        proof {
            lemma_nodes_view(nodes@);
            assert(av.skip(0) =~= av);
        }
        let n = nodes.len();
        if n == 0 {
            let id = self.emit(Inst::ConstF(ZERO_BITS), false);
            return Ok(GenValue::Float(id));
        }
        let mut k: usize = 0;
        loop
            invariant
                0 <= k < n == nodes@.len(),
                self.wf(),
                gen_ok(g0, self@),
                gen_seq_s(av, g0) == gen_seq_s(av.skip(k as int), self@),
            decreases n - k,
        {
            let ghost g_cur = self@;
            proof {
                assert(av.skip(k as int)[0] == av[k as int]);
                assert(av.skip(k as int).drop_first() =~= av.skip(k as int + 1));
                assert(decreases_to!(av => av[k as int]));
            }
            let v = match self.gen_expr(&nodes[k]) {
                Ok(v) => v,
                Err(e) => {
                    return Err(e);
                },
            };
            let is_ret = matches!(&nodes[k], Node::ReturnExpr(_));
            proof {
                assert((av[k as int] is Return) == is_ret);
                lemma_gen_ok_trans(g0, g_cur, self@);
            }
            if is_ret || k == n - 1 {
                return Ok(v);
            }
            k = k + 1;
        }
    }

    /// Lower a loop or branch body: every node in order, values discarded,
    /// with no early stop at a `return`.  Returns exactly what
    /// [`gen_stmt_list_s`] describes.
    #[verifier::loop_isolation(false)]
    fn gen_stmt_list(&mut self, nodes: &Vec<Node>) -> (r: Result<(), CodegenError>)
        requires
            old(self).wf(),
        ensures
            match r {
                Ok(()) => final(self).wf() && gen_ok(old(self)@, final(self)@) && gen_stmt_list_s(
                    nodes_view(nodes@),
                    old(self)@,
                ) == Ok::<GenS, CodegenError>(final(self)@),
                Err(e) => gen_stmt_list_s(nodes_view(nodes@), old(self)@) == Err::<
                    GenS,
                    CodegenError,
                >(e),
            },
        decreases nodes_view(nodes@), 2int,
    {
        let ghost av = nodes_view(nodes@);
        let ghost g0 = self@;
        proof {
            lemma_nodes_view(nodes@);
            assert(av.skip(0) =~= av);
        }
        let n = nodes.len();
        let mut k: usize = 0;
        while k < n
            invariant
                0 <= k <= n == nodes@.len(),
                self.wf(),
                gen_ok(g0, self@),
                gen_stmt_list_s(av, g0) == gen_stmt_list_s(av.skip(k as int), self@),
            decreases n - k,
        {
            let ghost g_cur = self@;
            proof {
                assert(av.skip(k as int)[0] == av[k as int]);
                assert(av.skip(k as int).drop_first() =~= av.skip(k as int + 1));
                assert(decreases_to!(av => av[k as int]));
            }
            match self.gen_expr(&nodes[k]) {
                Ok(_) => (),
                Err(e) => {
                    return Err(e);
                },
            }
            proof {
                lemma_gen_ok_trans(g0, g_cur, self@);
            }
            k = k + 1;
        }
        proof {
            assert(av.skip(n as int) =~= Seq::<NodeS>::empty());
        }
        Ok(())
    }

    /// Lower a loop: three fresh blocks for the re-evaluated condition,
    /// the body and the continuation.
    #[verifier::loop_isolation(false)]
    fn gen_while(&mut self, e: &WhileExpr, Ghost(nv): Ghost<NodeS>) -> (r: Result<
        GenValue,
        CodegenError,
    >)
        requires
            old(self).wf(),
            nv == (NodeS::While {
                condition: nodes_view(e.condition@),
                body: nodes_view(e.body@),
            }),
        ensures
            match r {
                Ok(v) => final(self).wf() && gen_ok(old(self)@, final(self)@) && gen_node_s(
                    nv,
                    old(self)@,
                ) == Ok::<(GValS, GenS), CodegenError>((gval_view(v), final(self)@)),
                Err(er) => gen_node_s(nv, old(self)@) == Err::<(GValS, GenS), CodegenError>(er),
            },
        decreases nv, 0int,
    {
        let ghost g0 = self@;
        proof {
            assert(decreases_to!(nv => nv->While_condition));
            assert(decreases_to!(nv => nv->While_body));
        }
        let cond_bb = self.add_block();
        let body_bb = self.add_block();
        let end_bb = self.add_block();
        self.set_term(Term::Br(cond_bb));
        self.position_at_end(cond_bb);
        let ghost ge = self@;
        let cv = match self.gen_body(&e.condition) {
            Ok(v) => v,
            Err(er) => {
                return Err(er);
            },
        };
        let cid = match cv {
            GenValue::Int(id) => id,
            GenValue::Float(_) => {
                return Err(CodegenError::ExpectedInt);
            },
        };
        proof {
            assert((body_bb as int) < cur_func(self@).blocks.len());
            assert((end_bb as int) < cur_func(self@).blocks.len());
        }
        self.set_term(Term::CondBr(cid, body_bb, end_bb));
        self.position_at_end(body_bb);
        let ghost gh = self@;
        match self.gen_stmt_list(&e.body) {
            Ok(_) => (),
            Err(er) => {
                return Err(er);
            },
        }
        proof {
            assert((cond_bb as int) < cur_func(self@).blocks.len());
            assert((end_bb as int) < cur_func(self@).blocks.len());
        }
        self.set_term(Term::Br(cond_bb));
        self.position_at_end(end_bb);
        let cid2 = self.emit(Inst::ConstF(ZERO_BITS), false);
        proof {
            lemma_gen_ok_trans(g0, ge, self@);
        }
        Ok(GenValue::Float(cid2))
    }

    /// Lower a conditional: blocks for the condition, the branch taken
    /// when it is nonzero, the optional else branch, and the continuation.
    #[verifier::loop_isolation(false)]
    #[verifier::rlimit(100)]
    fn gen_if(&mut self, e: &IfExpr, Ghost(nv): Ghost<NodeS>) -> (r: Result<
        GenValue,
        CodegenError,
    >)
        requires
            old(self).wf(),
            nv == (NodeS::If {
                condition: nodes_view(e.condition@),
                body: nodes_view(e.body@),
                else_body: nodes_view(e.else_body@),
            }),
        ensures
            match r {
                Ok(v) => final(self).wf() && gen_ok(old(self)@, final(self)@) && gen_node_s(
                    nv,
                    old(self)@,
                ) == Ok::<(GValS, GenS), CodegenError>((gval_view(v), final(self)@)),
                Err(er) => gen_node_s(nv, old(self)@) == Err::<(GValS, GenS), CodegenError>(er),
            },
        decreases nv, 0int,
    {
        let ghost g0 = self@;
        proof {
            assert(decreases_to!(nv => nv->If_condition));
            assert(decreases_to!(nv => nv->If_body));
            assert(decreases_to!(nv => nv->If_else_body));
            lemma_nodes_view(e.else_body@);
        }
        let if_cond = self.add_block();
        let then_bb = self.add_block();
        let has_else = e.else_body.len() > 0;
        let else_bb = if has_else {
            self.add_block()
        } else {
            0
        };
        let end_bb = self.add_block();
        self.set_term(Term::Br(if_cond));
        self.position_at_end(if_cond);
        let ghost gf = self@;
        let cv = match self.gen_body(&e.condition) {
            Ok(v) => v,
            Err(er) => {
                return Err(er);
            },
        };
        let cid = match cv {
            GenValue::Int(id) => id,
            GenValue::Float(_) => {
                return Err(CodegenError::ExpectedInt);
            },
        };
        proof {
            assert((then_bb as int) < cur_func(self@).blocks.len());
            assert((end_bb as int) < cur_func(self@).blocks.len());
            if has_else {
                assert((else_bb as int) < cur_func(self@).blocks.len());
            }
        }
        self.set_term(
            Term::CondBr(cid, then_bb, if has_else {
                else_bb
            } else {
                end_bb
            }),
        );
        self.position_at_end(then_bb);
        let ghost gi = self@;
        match self.gen_stmt_list(&e.body) {
            Ok(_) => (),
            Err(er) => {
                return Err(er);
            },
        }
        proof {
            assert((end_bb as int) < cur_func(self@).blocks.len());
        }
        self.set_term(Term::Br(end_bb));
        if has_else {
            proof {
                assert((else_bb as int) < cur_func(self@).blocks.len());
            }
            self.position_at_end(else_bb);
            match self.gen_stmt_list(&e.else_body) {
                Ok(_) => (),
                Err(er) => {
                    return Err(er);
                },
            }
            proof {
                assert((end_bb as int) < cur_func(self@).blocks.len());
            }
            self.set_term(Term::Br(end_bb));
        }
        self.position_at_end(end_bb);
        let cid2 = self.emit(Inst::ConstF(ZERO_BITS), false);
        proof {
            lemma_gen_ok_trans(g0, gf, self@);
        }
        Ok(GenValue::Float(cid2))
    }

    /// Lower a function definition: its prototype, an entry block with one
    /// mutable slot per parameter, its body in a fresh scope, and the
    /// verification that deletes a malformed function.
    #[verifier::loop_isolation(false)]
    #[verifier::rlimit(100)]
    fn gen_fn_def(&mut self, e: &FnExpr, Ghost(nv): Ghost<NodeS>) -> (r: Result<
        GenValue,
        CodegenError,
    >)
        requires
            old(self).wf(),
            nv == NodeS::Fn(crate::ast::fn_expr_view(*e)),
        ensures
            match r {
                Ok(v) => final(self).wf() && gen_ok(old(self)@, final(self)@) && gen_node_s(
                    nv,
                    old(self)@,
                ) == Ok::<(GValS, GenS), CodegenError>((gval_view(v), final(self)@)),
                Err(er) => gen_node_s(nv, old(self)@) == Err::<(GValS, GenS), CodegenError>(er),
            },
        decreases nv, 0int,
    {
        let ghost g0 = self@;
        let ghost fv = crate::ast::fn_expr_view(*e);
        let saved_fn = self.cur_fn;
        let saved_block = self.cur_block;
        let idx = match self.compile_prototype(e) {
            Ok(i) => i,
            Err(er) => {
                return Err(er);
            },
        };
        self.cur_fn = idx;
        self.cur_block = 0;
        self.fn_value_opt = Some(idx);
        proof {
            assert(self@.module.funcs.len() == g0.module.funcs.len() + 1);
            assert(self.module.funcs@.len() == self@.module.funcs.len());
            assert(idx < self.module.funcs@.len());
        }
        self.module.funcs[idx].blocks.push(Block { insts: Vec::new(), term: None });
        proof {
            let nf = FuncS {
                name: fv.name,
                n_params: fv.args.len() as int,
                insts: Seq::empty(),
                blocks: Seq::empty(),
            };
            let g1 = GenS {
                module: ModuleS { funcs: g0.module.funcs.push(nf) },
                scopes: g0.scopes,
                cur_fn: idx as int,
                cur_block: 0,
                fn_value: Some(idx as int),
            };
            lemma_nodes_view(e.args@);
            assert(self@ =~~= add_block_s(g1).0);
        }
        self.push_scope();
        let ghost g3 = self@;
        let ghost pv = fv.args;
        proof {
            assert(decreases_to!(nv => nv->Fn_0));
            assert(decreases_to!(nv->Fn_0 => nv->Fn_0.body));
        }
        let np = e.args.len();
        let mut k: usize = 0;
        while k < np
            invariant
                0 <= k <= np == e.args@.len(),
                self.wf(),
                gen_ok(g3, self@),
                self@.fn_value == g3.fn_value,
                pv.len() == np,
                forall|j: int| 0 <= j < np ==> pv[j] == node_view(e.args@[j]),
                params_are_names(pv),
                gen_params_s(pv, 0, g3) == gen_params_s(pv, k as int, self@),
            decreases np - k,
        {
            let ghost g_cur = self@;
            match &e.args[k] {
                Node::Variable(pn) => {
                    let slot = self.create_entry_block_alloca(pn.as_str());
                    let pid = self.emit(Inst::Param(k), false);
                    let _st = self.emit(Inst::Store(slot, pid), true);
                    self.bind_name(pn.clone(), slot);
                },
                _ => {
                    proof {
                        assert(pv[k as int] is Variable);
                        assert(false);
                    }
                    return Err(CodegenError::InvalidParameter);
                },
            }
            proof {
                lemma_gen_ok_trans(g3, g_cur, self@);
            }
            k = k + 1;
        }
        let ghost g4 = self@;
        let _bv = match self.gen_body(&e.body) {
            Ok(v) => v,
            Err(er) => {
                return Err(er);
            },
        };
        let ghost g5 = self@;
        proof {
            lemma_gen_ok_trans(g3, g4, g5);
            assert(grows(g0, g5));
            assert(saved_fn < g5.module.funcs.len());
            assert((saved_block as int) < g5.module.funcs[saved_fn as int].blocks.len());
        }
        self.cur_fn = saved_fn;
        self.cur_block = saved_block;
        self.pop_scope();
        let ghost g6 = self@;
        let ok = verify_func(&self.module.funcs[idx], &self.module);
        proof {
            assert(func_view(self.module.funcs@[idx as int]) == g6.module.funcs[idx as int]);
        }
        if ok {
            let cid = self.emit(Inst::ConstF(ZERO_BITS), false);
            proof {
                assert(gen_ok(g0, self@));
            }
            Ok(GenValue::Float(cid))
        } else {
            self.module.funcs.remove(idx);
            Err(CodegenError::InvalidFunction)
        }
    }

    /// Lower a call: each argument in the caller's context, then a call
    /// instruction naming an already declared function.
    #[verifier::loop_isolation(false)]
    fn gen_call(&mut self, e: &FnCallExpr, Ghost(nv): Ghost<NodeS>) -> (r: Result<
        GenValue,
        CodegenError,
    >)
        requires
            old(self).wf(),
            nv == (NodeS::Call { name: e.name@, args: nodes_view(e.args@) }),
        ensures
            match r {
                Ok(v) => final(self).wf() && gen_ok(old(self)@, final(self)@) && gen_node_s(
                    nv,
                    old(self)@,
                ) == Ok::<(GValS, GenS), CodegenError>((gval_view(v), final(self)@)),
                Err(er) => gen_node_s(nv, old(self)@) == Err::<(GValS, GenS), CodegenError>(er),
            },
        decreases nv, 0int,
    {
        let ghost g0 = self@;
        let ghost args_v = nodes_view(e.args@);
        proof {
            lemma_nodes_view(e.args@);
            assert(args_v.skip(0) =~= args_v);
            assert(decreases_to!(nv => nv->Call_args));
            assert(Seq::<usize>::empty().map_values(|x: usize| x as int) =~= Seq::<int>::empty());
        }
        let na = e.args.len();
        let mut acc: Vec<usize> = Vec::new();
        let mut k: usize = 0;
        while k < na
            invariant
                0 <= k <= na == e.args@.len(),
                self.wf(),
                gen_ok(g0, self@),
                args_v.len() == na,
                forall|j: int| 0 <= j < na ==> args_v[j] == node_view(e.args@[j]),
                gen_args_s(args_v, g0, Seq::empty()) == gen_args_s(
                    args_v.skip(k as int),
                    self@,
                    acc@.map_values(|x: usize| x as int),
                ),
            decreases na - k,
        {
            let ghost g_cur = self@;
            let ghost acc_v = acc@.map_values(|x: usize| x as int);
            proof {
                assert(args_v.skip(k as int)[0] == args_v[k as int]);
                assert(args_v.skip(k as int).drop_first() =~= args_v.skip(k as int + 1));
                assert(decreases_to!(args_v => args_v[k as int]));
            }
            let v = match self.gen_expr(&e.args[k]) {
                Ok(v) => v,
                Err(er) => {
                    return Err(er);
                },
            };
            let vid = match v {
                GenValue::Float(id) => id,
                GenValue::Int(_) => {
                    return Err(CodegenError::ExpectedFloat);
                },
            };
            acc.push(vid);
            proof {
                lemma_gen_ok_trans(g0, g_cur, self@);
                assert(acc@.map_values(|x: usize| x as int) =~= acc_v.push(vid as int));
            }
            k = k + 1;
        }
        proof {
            assert(args_v.skip(na as int) =~= Seq::<NodeS>::empty());
        }
        match find_function(&self.module, e.name.as_str()) {
            Some(_fk) => {
                let id = self.emit(Inst::Call(e.name.clone(), acc), true);
                Ok(GenValue::Float(id))
            },
            None => Err(CodegenError::UndefinedFunction),
        }
    }

    /// Lower one node.  Returns exactly what [`gen_node_s`] describes.
    #[verifier::rlimit(100)]
    pub fn gen_expr(&mut self, node: &Node) -> (r: Result<GenValue, CodegenError>)
        requires
            old(self).wf(),
        ensures
            match r {
                Ok(v) => final(self).wf() && gen_ok(old(self)@, final(self)@) && gen_node_s(
                    node_view(*node),
                    old(self)@,
                ) == Ok::<(GValS, GenS), CodegenError>((gval_view(v), final(self)@)),
                Err(e) => gen_node_s(node_view(*node), old(self)@) == Err::<
                    (GValS, GenS),
                    CodegenError,
                >(e),
            },
        decreases node_view(*node), 1int,
    {
        let ghost nv = node_view(*node);
        let ghost g0 = self@;
        match node {
            Node::Number(x) => {
                let id = self.emit(Inst::ConstF(x.0), false);
                Ok(GenValue::Float(id))
            },
            Node::BinaryExpr(e) => {
                proof {
                    assert(decreases_to!(nv => nv->Binary_lhs));
                    assert(decreases_to!(nv => nv->Binary_rhs));
                }
                let lv = match self.gen_body(&e.lhs) {
                    Ok(v) => v,
                    Err(er) => {
                        return Err(er);
                    },
                };
                let lid = match lv {
                    GenValue::Float(id) => id,
                    GenValue::Int(_) => {
                        return Err(CodegenError::ExpectedFloat);
                    },
                };
                let ghost g1 = self@;
                let rv = match self.gen_body(&e.rhs) {
                    Ok(v) => v,
                    Err(er) => {
                        return Err(er);
                    },
                };
                let rid = match rv {
                    GenValue::Float(id) => id,
                    GenValue::Int(_) => {
                        return Err(CodegenError::ExpectedFloat);
                    },
                };
                let ghost g2 = self@;
                let id = self.emit(Inst::Bin(e.op, lid, rid), true);
                let arith = matches!(e.op, Op::Add | Op::Sub | Op::Mul | Op::Div | Op::Mod);
                proof {
                    lemma_gen_ok_trans(g0, g1, g2);
                    lemma_gen_ok_trans(g0, g2, self@);
                }
                if arith {
                    Ok(GenValue::Float(id))
                } else {
                    Ok(GenValue::Int(id))
                }
            },
            Node::BindExpr(e) => {
                proof {
                    assert(decreases_to!(nv => nv->Bind_value));
                }
                let vv = match self.gen_body(&e.value) {
                    Ok(v) => v,
                    Err(er) => {
                        return Err(er);
                    },
                };
                let vid = match vv {
                    GenValue::Float(id) => id,
                    GenValue::Int(_) => {
                        return Err(CodegenError::ExpectedFloat);
                    },
                };
                let ghost g1 = self@;
                let slot = self.emit(Inst::Alloca, true);
                let _st = self.emit(Inst::Store(slot, vid), true);
                self.bind_name(e.name.clone(), slot);
                let cid = self.emit(Inst::ConstF(ZERO_BITS), false);
                proof {
                    lemma_gen_ok_trans(g0, g1, self@);
                }
                Ok(GenValue::Float(cid))
            },
            Node::Variable(name) => {
                match self.lookup_name(name.as_str()) {
                    Some(slot) => {
                        let id = self.emit(Inst::Load(slot), true);
                        Ok(GenValue::Float(id))
                    },
                    None => Err(CodegenError::UndefinedVariable),
                }
            },
            Node::ReturnExpr(e) => {
                proof {
                    assert(decreases_to!(nv => nv->Return_value));
                }
                let vv = match self.gen_body(&e.value) {
                    Ok(v) => v,
                    Err(er) => {
                        return Err(er);
                    },
                };
                let vid = match vv {
                    GenValue::Float(id) => id,
                    GenValue::Int(_) => {
                        return Err(CodegenError::ExpectedFloat);
                    },
                };
                let ghost g1 = self@;
                self.set_term(Term::Ret(vid));
                proof {
                    lemma_gen_ok_trans(g0, g1, self@);
                }
                Ok(GenValue::Float(vid))
            },
            Node::MutateExpr(e) => {
                proof {
                    assert(decreases_to!(nv => nv->Mutate_value));
                }
                let vv = match self.gen_body(&e.value) {
                    Ok(v) => v,
                    Err(er) => {
                        return Err(er);
                    },
                };
                let vid = match vv {
                    GenValue::Float(id) => id,
                    GenValue::Int(_) => {
                        return Err(CodegenError::ExpectedFloat);
                    },
                };
                let ghost g1 = self@;
                match self.lookup_name(e.name.as_str()) {
                    Some(slot) => {
                        let _st = self.emit(Inst::Store(slot, vid), true);
                        let cid = self.emit(Inst::ConstF(ZERO_BITS), false);
                        proof {
                            lemma_gen_ok_trans(g0, g1, self@);
                        }
                        Ok(GenValue::Float(cid))
                    },
                    None => Err(CodegenError::UndefinedVariable),
                }
            },
            Node::WhileExpr(e) => self.gen_while(e, Ghost(nv)),
            Node::IfExpr(e) => self.gen_if(e, Ghost(nv)),
            Node::FnExpr(e) => self.gen_fn_def(e, Ghost(nv)),
            Node::FnCallExpr(e) => self.gen_call(e, Ghost(nv)),
            Node::PrintStdoutExpr(e) => {
                proof {
                    assert(decreases_to!(nv => nv->Print_value));
                }
                let vv = match self.gen_body(&e.value) {
                    Ok(v) => v,
                    Err(er) => {
                        return Err(er);
                    },
                };
                let vid = match vv {
                    GenValue::Float(id) => id,
                    GenValue::Int(_) => {
                        return Err(CodegenError::ExpectedFloat);
                    },
                };
                let ghost g1 = self@;
                let _p = self.emit(Inst::Print(vid), true);
                let cid = self.emit(Inst::ConstF(ZERO_BITS), false);
                proof {
                    lemma_gen_ok_trans(g0, g1, self@);
                }
                Ok(GenValue::Float(cid))
            },
        }
    }

    /// Compile a whole program: a `main` function of no parameters
    /// wrapping the top-level statements, plus one function per `fn`
    /// construct.  Returns exactly what [`gen_main_s`] describes, handing
    /// back the index of `main`.
    pub fn gen_main(&mut self, nodes: Vec<Node>) -> (r: Result<usize, CodegenError>)
        requires
            old(self)@ == init_gen_s(),
        ensures
            match r {
                Ok(fid) => fid == 0 && final(self).wf() && gen_main_s(nodes_view(nodes@)) == Ok::<
                    GenS,
                    CodegenError,
                >(final(self)@),
                Err(e) => gen_main_s(nodes_view(nodes@)) == Err::<GenS, CodegenError>(e),
            },
    {
        let ghost g0 = self@;
        self.module.funcs.push(
            IrFunc { name: "main".to_owned(), n_params: 0, insts: Vec::new(), blocks: Vec::new() },
        );
        self.module.funcs[0].blocks.push(Block { insts: Vec::new(), term: None });
        self.fn_value_opt = Some(0);
        proof {
            let mf = FuncS { name: "main"@, n_params: 0, insts: Seq::empty(), blocks: Seq::empty() };
            let g1 = GenS {
                module: ModuleS { funcs: g0.module.funcs.push(mf) },
                scopes: g0.scopes,
                cur_fn: 0,
                cur_block: 0,
                fn_value: Some(0),
            };
            assert(self@ =~~= add_block_s(g1).0);
            assert(self@.cur_fn == 0 && self@.cur_block == 0);
            assert(self.module.funcs@.len() == self@.module.funcs.len() == 1);
            assert(func_view(self.module.funcs@[0]).blocks.len() == self.module.funcs@[0].blocks@.len());
            assert(self@.module.funcs[0].blocks.len() == 1);
            assert(self.variables@.len() == self@.scopes.len() == 1);
            assert(self.wf());
        }
        let rv = match self.gen_body(&nodes) {
            Ok(v) => v,
            Err(e) => {
                return Err(e);
            },
        };
        let vid = match rv {
            GenValue::Float(id) => id,
            GenValue::Int(_) => {
                return Err(CodegenError::ExpectedFloat);
            },
        };
        self.set_term(Term::Ret(vid));
        Ok(0)
    }

    /// Compile a whole program; the entry point of the code generator.
    pub fn codegen(&mut self, nodes: Vec<Node>) -> (r: Result<usize, CodegenError>)
        requires
            old(self)@ == init_gen_s(),
        ensures
            match r {
                Ok(fid) => fid == 0 && final(self).wf() && gen_main_s(nodes_view(nodes@)) == Ok::<
                    GenS,
                    CodegenError,
                >(final(self)@),
                Err(e) => gen_main_s(nodes_view(nodes@)) == Err::<GenS, CodegenError>(e),
            },
    {
        self.gen_main(nodes)
    }
}

} // verus!
