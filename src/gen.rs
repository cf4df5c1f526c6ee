use vstd::prelude::*;
use crate::ast::{BinaryOp, Expr, ExprType, Function, Parameter, Prototype};
use crate::error::Error;
use crate::text::cat;
use crate::ir::{body_view, insts_view, DeclView, FuncDecl, Inst, InstView, IrFunction, Linkage};
use crate::typing::{binary_result, is_float_mach, is_float_type, is_int_type, mach_of, type_text, AuroraType, MachType};
use vstd::string::StringExecFns;

verus! {

/// What the function table knows of a function.
#[derive(Clone, Copy, Debug, PartialEq, Eq, Structural)]
pub struct FnInfo {
    /// A body has been emitted.
    pub defined: bool,
    /// The id of its declaration in the module.
    pub id: usize,
    pub param_count: usize,
    pub has_return: bool,
}

/// An entry of the function table.
pub struct FunctionEntry {
    pub name: String,
    pub info: FnInfo,
}

/// A variable name bound to a variable slot.
pub struct Binding {
    pub name: String,
    pub var: usize,
}

/// What lowering an expression gives: the value it yields, if any, and
/// whether it returned from the function.
#[derive(Clone, Copy, Debug, PartialEq, Eq, Structural)]
pub struct ParseExpr {
    pub value: Option<usize>,
    pub is_return: bool,
}

impl ParseExpr {
    pub fn new(value: Option<usize>) -> (r: ParseExpr)
        ensures
            r == (ParseExpr { value, is_return: false }),
    {
        ParseExpr { value, is_return: false }
    }

    pub fn new_return(value: Option<usize>) -> (r: ParseExpr)
        ensures
            r == (ParseExpr { value, is_return: true }),
    {
        ParseExpr { value, is_return: true }
    }

    pub fn empty() -> (r: ParseExpr)
        ensures
            r == (ParseExpr { value: None, is_return: false }),
    {
        ParseExpr { value: None, is_return: false }
    }

    pub fn empty_return() -> (r: ParseExpr)
        ensures
            r == (ParseExpr { value: None, is_return: true }),
    {
        ParseExpr { value: None, is_return: true }
    }
}

/// The kinds of error that lowering reports.
pub enum Fault {
    /// Something undefined, with the error's message.
    Undefined(Seq<char>),
    Unexpected,
    MismatchedTypes(AuroraType, AuroraType),
    WrongArgumentCount,
}

/// The kind of an error.
pub open spec fn fault_of(e: Error) -> Fault {
    match e {
        Error::Undefined(m) => Fault::Undefined(m@),
        Error::MismatchedTypes(a, b) => Fault::MismatchedTypes(a, b),
        Error::WrongArgumentCount => Fault::WrongArgumentCount,
        _ => Fault::Unexpected,
    }
}

/// What the table knows of `n`; the latest entry wins.
pub open spec fn lookup_fn(t: Seq<FunctionEntry>, n: Seq<char>) -> Option<FnInfo>
    decreases t.len(),
{
    if t.len() == 0 {
        None
    } else if t.last().name@ == n {
        Some(t.last().info)
    } else {
        lookup_fn(t.drop_last(), n)
    }
}

/// The slot bound to `n`; the latest binding wins.
pub open spec fn var_of(s: Seq<Binding>, n: Seq<char>) -> Option<usize>
    decreases s.len(),
{
    if s.len() == 0 {
        None
    } else if s.last().name@ == n {
        Some(s.last().var)
    } else {
        var_of(s.drop_last(), n)
    }
}

/// The state of lowering one function: the instructions emitted, the
/// variables in scope and the next free variable slot.
pub struct Lowering {
    pub insts: Seq<InstView>,
    pub scope: Seq<Binding>,
    pub next_var: usize,
}

/// `st` with one more instruction.
pub open spec fn emit(st: Lowering, i: InstView) -> Lowering {
    Lowering { insts: st.insts.push(i), ..st }
}

/// The value of the next instruction emitted in `st`.
pub open spec fn yields(st: Lowering) -> ParseExpr {
    ParseExpr { value: Some(st.insts.len() as usize), is_return: false }
}

pub open spec fn nothing() -> ParseExpr {
    ParseExpr { value: None, is_return: false }
}

/// `st` with a fresh slot of type `m` declared and bound to `n`.
pub open spec fn declare(st: Lowering, n: String, m: MachType) -> Lowering {
    Lowering {
        insts: st.insts.push(InstView::DeclareVar(st.next_var, m)),
        scope: st.scope.push(Binding { name: n, var: st.next_var }),
        next_var: (st.next_var + 1) as usize,
    }
}

/// The message when no cast function leads from one type to another.
pub open spec fn cast_message(from: AuroraType, to: AuroraType) -> Seq<char> {
    "can't cast "@ + type_text(from) + " to "@ + type_text(to)
}

/// The name of the cast function from one type to another, `from->to`.
pub open spec fn cast_name(from: AuroraType, to: AuroraType) -> Seq<char> {
    type_text(from) + seq!['-', '>'] + type_text(to)
}

pub open spec fn int_inst(op: BinaryOp, a: usize, b: usize) -> InstView {
    match op {
        BinaryOp::Plus => InstView::Iadd(a, b),
        BinaryOp::Minus => InstView::Isub(a, b),
        _ => InstView::Imul(a, b),
    }
}

pub open spec fn float_inst(op: BinaryOp, a: usize, b: usize) -> InstView {
    match op {
        BinaryOp::Plus => InstView::Fadd(a, b),
        BinaryOp::Minus => InstView::Fsub(a, b),
        _ => InstView::Fmul(a, b),
    }
}

/// Lowers a binary operation on lowered operands `lv` and `rv`. Arithmetic
/// is chosen by the left operand's type: on integers the right operand must
/// have the same type; on floats a right operand of another type goes
/// through the cast function to the left operand's type.
pub open spec fn binary(
    op: BinaryOp,
    lt: AuroraType,
    rt: AuroraType,
    lv: usize,
    rv: usize,
    st: Lowering,
    fs: Seq<FunctionEntry>,
) -> Result<(Lowering, ParseExpr), Fault> {
    match op {
        BinaryOp::LessThan => Ok((emit(st, InstView::FcmpLessThan(lv, rv)), yields(st))),
        BinaryOp::Equal => if is_float_type(lt) {
            Ok((emit(st, InstView::FcmpEqual(lv, rv)), yields(st)))
        } else {
            Ok((emit(st, InstView::IcmpEqual(lv, rv)), yields(st)))
        },
        _ => if is_int_type(lt) {
            if rt != lt {
                Err(Fault::MismatchedTypes(lt, rt))
            } else {
                Ok((emit(st, int_inst(op, lv, rv)), yields(st)))
            }
        } else if is_float_type(lt) {
            if rt == lt {
                Ok((emit(st, float_inst(op, lv, rv)), yields(st)))
            } else if is_float_type(rt) {
                // floats of two widths: the f32 operand is widened, the
                // operation is in f64
                let st1 = emit(
                    st,
                    InstView::Fpromote(
                        if lt == AuroraType::F32 {
                            lv
                        } else {
                            rv
                        },
                    ),
                );
                let pv = st.insts.len() as usize;
                if lt == AuroraType::F32 {
                    Ok((emit(st1, float_inst(op, pv, rv)), yields(st1)))
                } else {
                    Ok((emit(st1, float_inst(op, lv, pv)), yields(st1)))
                }
            } else {
                match lookup_fn(fs, cast_name(rt, lt)) {
                    None => Err(Fault::Undefined(cast_message(rt, lt))),
                    Some(f) => if !f.has_return {
                        Err(Fault::Unexpected)
                    } else {
                        let st1 = emit(st, InstView::Call(f.id, seq![rv]));
                        let cv = st.insts.len() as usize;
                        Ok((emit(st1, float_inst(op, lv, cv)), yields(st1)))
                    },
                }
            }
        } else {
            Err(Fault::Unexpected)
        },
    }
}

/// How deep the lowering of `e` may go into its own list of children.
pub open spec fn weight(e: Expr) -> nat {
    match e.expr_type {
        ExprType::Call(_, a) => a@.len() + 1,
        ExprType::Block(es) => es@.len() + 1,
        _ => 0,
    }
}

/// The state after lowering both operands of a binary expression, when both
/// lower to values.
pub open spec fn operands_lowered(e: Expr, st: Lowering, fs: Seq<FunctionEntry>, ret: AuroraType) -> Option<
    Lowering,
> {
    match e.expr_type {
        ExprType::Binary(_, l, r) => match lower(*l, st, fs, ret) {
            Ok((st1, lo)) => if lo.value is Some {
                match lower(*r, st1, fs, ret) {
                    Ok((st2, ro)) => if ro.value is Some {
                        Some(st2)
                    } else {
                        None
                    },
                    Err(_) => None,
                }
            } else {
                None
            },
            Err(_) => None,
        },
        _ => None,
    }
}

/// An arithmetic operation on an integer left operand and a right operand
/// of another type.
pub open spec fn integer_mismatch(e: Expr) -> bool {
    match e.expr_type {
        ExprType::Binary(op, l, r) => (op == BinaryOp::Plus || op == BinaryOp::Minus || op
            == BinaryOp::Times) && is_int_type(l.type_) && r.type_ != l.type_,
        _ => false,
    }
}

/// Lowers `e` in state `st`, with the function table `fs`, in a function
/// returning `ret`: the state after it and what it yields, or the kind of
/// error met. Operands are lowered before the instruction that uses them,
/// and the children of a node from first to last.
pub open spec fn lower(e: Expr, st: Lowering, fs: Seq<FunctionEntry>, ret: AuroraType) -> Result<
    (Lowering, ParseExpr),
    Fault,
>
    decreases e, weight(e),
{
    match e.expr_type {
        ExprType::Integer(n) => match mach_of(e.type_) {
            None => Ok((st, nothing())),
            Some(m) => if is_float_mach(m) {
                Err(Fault::Unexpected)
            } else {
                Ok((emit(st, InstView::Iconst(m, n)), yields(st)))
            },
        },
        ExprType::Float(s) => match mach_of(e.type_) {
            None => Ok((st, nothing())),
            Some(m) => if is_float_mach(m) {
                Ok((emit(st, InstView::Fconst(m, s@)), yields(st)))
            } else {
                Err(Fault::Unexpected)
            },
        },
        ExprType::Boolean(b) => Ok(
            (emit(st, InstView::Iconst(MachType::I8, if b { 1 } else { 0 })), yields(st)),
        ),
        ExprType::Variable(n) => match var_of(st.scope, n@) {
            None => Err(Fault::Undefined("variable "@ + n@)),
            Some(v) => Ok((emit(st, InstView::UseVar(v)), yields(st))),
        },
        ExprType::Binary(op, l, r) => match lower(*l, st, fs, ret) {
            Err(f) => Err(f),
            Ok((st1, lo)) => match lo.value {
                None => Err(Fault::Unexpected),
                Some(lv) => match lower(*r, st1, fs, ret) {
                    Err(f) => Err(f),
                    Ok((st2, ro)) => match ro.value {
                        None => Err(Fault::Unexpected),
                        Some(rv) => binary(op, l.type_, r.type_, lv, rv, st2, fs),
                    },
                },
            },
        },
        ExprType::Call(n, args) => match lookup_fn(fs, n@) {
            None => Err(Fault::Undefined("function "@ + n@)),
            Some(f) => if f.param_count != args@.len() {
                Err(Fault::WrongArgumentCount)
            } else {
                match lower_args(e, 0, st, fs, ret, Seq::empty()) {
                    Err(x) => Err(x),
                    Ok((st1, vals)) => Ok(
                        (
                            emit(st1, InstView::Call(f.id, vals)),
                            if f.has_return {
                                yields(st1)
                            } else {
                                nothing()
                            },
                        ),
                    ),
                }
            },
        },
        ExprType::Block(_) => lower_block(e, 0, st, fs, ret),
        ExprType::Return(None) => Ok(
            (emit(st, InstView::Return(None)), ParseExpr { value: None, is_return: true }),
        ),
        ExprType::Return(Some(x)) => if x.type_ != ret {
            Err(Fault::MismatchedTypes(ret, x.type_))
        } else {
            match lower(*x, st, fs, ret) {
                Err(f) => Err(f),
                Ok((st1, o)) => match o.value {
                    None => Err(Fault::Unexpected),
                    Some(v) => Ok(
                        (
                            emit(st1, InstView::Return(Some(v))),
                            ParseExpr { value: Some(v), is_return: true },
                        ),
                    ),
                },
            }
        },
        ExprType::Let(n, None) => match mach_of(e.type_) {
            None => Err(Fault::Unexpected),
            Some(m) => if st.next_var == usize::MAX {
                Err(Fault::Unexpected)
            } else {
                Ok((declare(st, n, m), nothing()))
            },
        },
        ExprType::Let(n, Some(x)) => match lower(*x, st, fs, ret) {
            Err(f) => Err(f),
            Ok((st1, o)) => match o.value {
                None => Err(Fault::Unexpected),
                Some(v) => match mach_of(e.type_) {
                    None => Err(Fault::Unexpected),
                    Some(m) => if st1.next_var == usize::MAX {
                        Err(Fault::Unexpected)
                    } else {
                        Ok(
                            (
                                emit(declare(st1, n, m), InstView::DefVar(st1.next_var, v)),
                                ParseExpr { value: Some(v), is_return: false },
                            ),
                        )
                    },
                },
            },
        },
        ExprType::Assign(n, x) => match lower(*x, st, fs, ret) {
            Err(f) => Err(f),
            Ok((st1, o)) => match o.value {
                None => Err(Fault::Unexpected),
                Some(v) => match var_of(st1.scope, n@) {
                    None => Err(Fault::Undefined("variable "@ + n@)),
                    Some(var) => Ok(
                        (
                            emit(st1, InstView::DefVar(var, v)),
                            ParseExpr { value: Some(v), is_return: false },
                        ),
                    ),
                },
            },
        },
    }
}

/// Lowers the arguments of the call `e` from the `i`-th on, collecting
/// their values after `vals`.
pub open spec fn lower_args(
    e: Expr,
    i: nat,
    st: Lowering,
    fs: Seq<FunctionEntry>,
    ret: AuroraType,
    vals: Seq<usize>,
) -> Result<(Lowering, Seq<usize>), Fault>
    decreases e, if let ExprType::Call(_, a) = e.expr_type {
        a@.len() - i
    } else {
        0
    },
{
    match e.expr_type {
        ExprType::Call(_, args) => if i >= args@.len() {
            Ok((st, vals))
        } else {
            match lower(args@[i as int], st, fs, ret) {
                Err(f) => Err(f),
                Ok((st1, o)) => match o.value {
                    None => Err(Fault::Unexpected),
                    Some(v) => lower_args(e, i + 1, st1, fs, ret, vals.push(v)),
                },
            }
        },
        _ => Ok((st, vals)),
    }
}

/// Lowers the statements of the block `e` from the `i`-th on. A statement
/// that returns ends the block; a block that ends without one gets an
/// empty return.
pub open spec fn lower_block(
    e: Expr,
    i: nat,
    st: Lowering,
    fs: Seq<FunctionEntry>,
    ret: AuroraType,
) -> Result<(Lowering, ParseExpr), Fault>
    decreases e, if let ExprType::Block(es) = e.expr_type {
        es@.len() - i
    } else {
        0
    },
{
    match e.expr_type {
        ExprType::Block(es) => if i >= es@.len() {
            Ok((emit(st, InstView::Return(None)), nothing()))
        } else {
            match lower(es@[i as int], st, fs, ret) {
                Err(f) => Err(f),
                Ok((st1, o)) => if o.is_return {
                    Ok((st1, o))
                } else {
                    lower_block(e, i + 1, st1, fs, ret)
                },
            }
        },
        _ => Err(Fault::Unexpected),
    }
}


fn find_function(t: &Vec<FunctionEntry>, name: &String) -> (r: Option<FnInfo>)
    ensures
        r == lookup_fn(t@, name@),
{
    let mut i = t.len();
    proof {
        assert(t@.subrange(0, i as int) =~= t@);
    }
    while i > 0
        invariant
            i <= t@.len(),
            lookup_fn(t@, name@) == lookup_fn(t@.subrange(0, i as int), name@),
        decreases i,
    {
        proof {
            assert(t@.subrange(0, i as int).drop_last() =~= t@.subrange(0, i - 1));
        }
        if t[i - 1].name.eq(name) {
            return Some(t[i - 1].info);
        }
        i = i - 1;
    }
    None
}

fn find_var(s: &Vec<Binding>, name: &String) -> (r: Option<usize>)
    ensures
        r == var_of(s@, name@),
{
    let mut i = s.len();
    proof {
        assert(s@.subrange(0, i as int) =~= s@);
    }
    while i > 0
        invariant
            i <= s@.len(),
            var_of(s@, name@) == var_of(s@.subrange(0, i as int), name@),
        decreases i,
    {
        proof {
            assert(s@.subrange(0, i as int).drop_last() =~= s@.subrange(0, i - 1));
        }
        if s[i - 1].name.eq(name) {
            return Some(s[i - 1].var);
        }
        i = i - 1;
    }
    None
}

/// An error that names what is undefined: `what` followed by `name`.
fn undefined_named(what: &str, name: &str) -> (r: Error)
    ensures
        r is Undefined && r->Undefined_0@ == what@ + name@,
{
    let mut s = what.to_owned();
    s.append(name);
    Error::Undefined(s)
}

fn unexpected(what: &str) -> (r: Error)
    ensures
        r is Unexpected,
{
    Error::Unexpected(what.to_owned())
}

/// Hands out variable slots, numbered in order.
pub struct VariableBuilder {
    index: usize,
}

impl VariableBuilder {
    /// The number of the next slot.
    pub closed spec fn next_index(&self) -> usize {
        self.index
    }

    /// A builder whose first slot is numbered 0.
    pub fn new() -> (r: VariableBuilder)
        ensures
            r.next_index() == 0,
    {
        VariableBuilder { index: 0 }
    }

    /// Declares the next slot, of type `m`.
    pub fn define_var(&mut self, insts: &mut Vec<Inst>, m: MachType) -> (r: Result<usize, Error>)
        ensures
            old(self).next_index() == usize::MAX ==> r is Err && fault_of(r->Err_0)
                == Fault::Unexpected && final(self).next_index() == old(self).next_index()
                && final(insts)@ == old(insts)@,
            old(self).next_index() != usize::MAX ==> r == Ok::<usize, Error>(old(self).next_index())
                && final(self).next_index() == old(self).next_index() + 1 && insts_view(
                final(insts)@,
            ) == insts_view(old(insts)@).push(InstView::DeclareVar(old(self).next_index(), m)),
    {
        if self.index == usize::MAX {
            return Err(unexpected("too many variables"));
        }
        let var = self.index;
        insts.push(Inst::DeclareVar(var, m));
        proof {
            assert(insts_view(insts@) =~= insts_view(old(insts)@).push(InstView::DeclareVar(var, m)));
        }
        self.index = var + 1;
        Ok(var)
    }

    /// Declares the next slot, of type `m`, and writes `value` into it.
    pub fn create_var(&mut self, insts: &mut Vec<Inst>, value: usize, m: MachType) -> (r: Result<
        usize,
        Error,
    >)
        ensures
            old(self).next_index() == usize::MAX ==> r is Err && fault_of(r->Err_0)
                == Fault::Unexpected && final(self).next_index() == old(self).next_index()
                && final(insts)@ == old(insts)@,
            old(self).next_index() != usize::MAX ==> r == Ok::<usize, Error>(old(self).next_index())
                && final(self).next_index() == old(self).next_index() + 1 && insts_view(
                final(insts)@,
            ) == insts_view(old(insts)@).push(InstView::DeclareVar(old(self).next_index(), m)).push(
                InstView::DefVar(old(self).next_index(), value),
            ),
    {
        let var = self.define_var(insts, m)?;
        let ghost mid = insts_view(insts@);
        insts.push(Inst::DefVar(var, value));
        proof {
            assert(insts_view(insts@) =~= mid.push(InstView::DefVar(var, value)));
        }
        Ok(var)
    }
}

/// Lowers the body of one function.
pub struct FunctionGenerator {
    insts: Vec<Inst>,
    values: Vec<Binding>,
    variable_builder: VariableBuilder,
    return_type: AuroraType,
}

impl FunctionGenerator {
    pub closed spec fn state(&self) -> Lowering {
        Lowering {
            insts: insts_view(self.insts@),
            scope: self.values@,
            next_var: self.variable_builder.index,
        }
    }

    pub closed spec fn result_type(&self) -> AuroraType {
        self.return_type
    }

    fn push(&mut self, i: Inst) -> (r: usize)
        ensures
            final(self).state() == emit(old(self).state(), i@),
            r == old(self).state().insts.len(),
            final(self).return_type == old(self).return_type,
    {
        let r = self.insts.len();
        let ghost v = i@;
        self.insts.push(i);
        proof {
            assert(insts_view(self.insts@) =~= insts_view(old(self).insts@).push(v));
        }
        r
    }

    /// Declares a fresh variable slot of type `m`, bound to `name`.
    fn fresh_var(&mut self, name: &String, m: MachType) -> (r: Result<usize, Error>)
        ensures
            final(self).return_type == old(self).return_type,
            old(self).state().next_var == usize::MAX ==> r is Err && fault_of(r->Err_0)
                == Fault::Unexpected,
            old(self).state().next_var != usize::MAX ==> r == Ok::<usize, Error>(
                old(self).state().next_var,
            ) && final(self).state() == declare(old(self).state(), *name, m),
    {
        let var = self.variable_builder.define_var(&mut self.insts, m)?;
        self.values.push(Binding { name: name.clone(), var });
        Ok(var)
    }

    /// Declares a fresh variable slot of type `m`, writes `value` into it and
    /// binds it to `name`.
    fn fresh_var_with(&mut self, name: &String, m: MachType, value: usize) -> (r: Result<
        usize,
        Error,
    >)
        ensures
            final(self).return_type == old(self).return_type,
            old(self).state().next_var == usize::MAX ==> r is Err && fault_of(r->Err_0)
                == Fault::Unexpected,
            old(self).state().next_var != usize::MAX ==> r == Ok::<usize, Error>(
                old(self).state().next_var,
            ) && final(self).state() == emit(
                declare(old(self).state(), *name, m),
                InstView::DefVar(old(self).state().next_var, value),
            ),
    {
        let var = self.variable_builder.create_var(&mut self.insts, value, m)?;
        self.values.push(Binding { name: name.clone(), var });
        Ok(var)
    }

    /// Binds the parameters to fresh variable slots.
    fn bind_params(&mut self, ps: &Vec<Parameter>) -> (r: Result<(), Error>)
        ensures
            final(self).result_type() == old(self).result_type(),
            match setup_params(ps@, 0, old(self).state()) {
                Some(st) => r is Ok && final(self).state() == st,
                None => r is Err && fault_of(r->Err_0) == Fault::Unexpected,
            },
    {
        let ghost target = setup_params(ps@, 0, self.state());
        let mut i: usize = 0;
        while i < ps.len()
            invariant
                i <= ps@.len(),
                self.return_type == old(self).return_type,
                target == setup_params(ps@, 0, old(self).state()),
                setup_params(ps@, i as nat, self.state()) == target,
            decreases ps@.len() - i,
        {
            let m = match ps[i].type_.get_type() {
                Some(m) => m,
                None => return Err(unexpected("parameter without a machine type")),
            };
            let p = self.push(Inst::Param(i));
            self.fresh_var_with(&ps[i].name, m, p)?;
            i = i + 1;
        }
        Ok(())
    }

    /// Emits the call of the cast function `from->to` on `value`.
    fn cast(
        &mut self,
        value: usize,
        from: AuroraType,
        to: AuroraType,
        functions: &Vec<FunctionEntry>,
    ) -> (r: Result<usize, Error>)
        ensures
            final(self).return_type == old(self).return_type,
            match lookup_fn(functions@, cast_name(from, to)) {
                None => r is Err && fault_of(r->Err_0) == Fault::Undefined(cast_message(from, to))
                    && final(self).state() == old(self).state(),
                Some(f) => if !f.has_return {
                    r is Err && fault_of(r->Err_0) == Fault::Unexpected
                } else {
                    r == Ok::<usize, Error>(old(self).state().insts.len() as usize)
                        && final(self).state() == emit(
                        old(self).state(),
                        InstView::Call(f.id, seq![value]),
                    )
                },
            },
    {
        let mut name = from.name();
        let arrow = "->";
        proof {
            reveal_strlit("->");
        }
        name.append(arrow);
        let to_name = to.name();
        name.append(to_name.as_str());
        proof {
            assert(name@ =~= cast_name(from, to));
        }
        match find_function(functions, &name) {
            Some(f) => {
                if !f.has_return {
                    return Err(unexpected("cast function without a result"));
                }
                let mut args: Vec<usize> = Vec::new();
                args.push(value);
                proof {
                    assert(args@ =~= seq![value]);
                }
                let r = self.push(Inst::Call(f.id, args));
                Ok(r)
            },
            None => {
                let what = cat("can't cast ".to_owned(), from.name().as_str());
                let what = cat(what, " to ");
                let what = cat(what, to.name().as_str());
                Err(Error::Undefined(what))
            },
        }
    }

    /// Emits a binary operation on the values `lv` and `rv`, of types `lt`
    /// and `rt`.
    fn binary(
        &mut self,
        op: BinaryOp,
        lt: AuroraType,
        rt: AuroraType,
        lv: usize,
        rv: usize,
        functions: &Vec<FunctionEntry>,
    ) -> (r: Result<ParseExpr, Error>)
        ensures
            final(self).return_type == old(self).return_type,
            match binary(op, lt, rt, lv, rv, old(self).state(), functions@) {
                Ok((st, o)) => r == Ok::<ParseExpr, Error>(o) && final(self).state() == st,
                Err(f) => r is Err && fault_of(r->Err_0) == f,
            },
            (op == BinaryOp::Plus || op == BinaryOp::Minus || op == BinaryOp::Times) && is_int_type(
                lt,
            ) && rt != lt ==> r == Err::<ParseExpr, Error>(Error::MismatchedTypes(lt, rt))
                && final(self).state() == old(self).state(),
    {
        match op {
            BinaryOp::LessThan => {
                let v = self.push(Inst::FcmpLessThan(lv, rv));
                Ok(ParseExpr::new(Some(v)))
            },
            BinaryOp::Equal => {
                let v = if lt.is_float() {
                    self.push(Inst::FcmpEqual(lv, rv))
                } else {
                    self.push(Inst::IcmpEqual(lv, rv))
                };
                Ok(ParseExpr::new(Some(v)))
            },
            _ => {
                if lt.is_int() {
                    if rt != lt {
                        return Err(Error::MismatchedTypes(lt, rt));
                    }
                    let inst = match op {
                        BinaryOp::Plus => Inst::Iadd(lv, rv),
                        BinaryOp::Minus => Inst::Isub(lv, rv),
                        _ => Inst::Imul(lv, rv),
                    };
                    let v = self.push(inst);
                    Ok(ParseExpr::new(Some(v)))
                } else if lt.is_float() && rt.is_float() && rt != lt {
                    let p = if lt == AuroraType::F32 {
                        self.push(Inst::Fpromote(lv))
                    } else {
                        self.push(Inst::Fpromote(rv))
                    };
                    let (a, b) = if lt == AuroraType::F32 {
                        (p, rv)
                    } else {
                        (lv, p)
                    };
                    let inst = match op {
                        BinaryOp::Plus => Inst::Fadd(a, b),
                        BinaryOp::Minus => Inst::Fsub(a, b),
                        _ => Inst::Fmul(a, b),
                    };
                    let v = self.push(inst);
                    Ok(ParseExpr::new(Some(v)))
                } else if lt.is_float() {
                    let right = if rt == lt {
                        rv
                    } else {
                        self.cast(rv, rt, lt, functions)?
                    };
                    let inst = match op {
                        BinaryOp::Plus => Inst::Fadd(lv, right),
                        BinaryOp::Minus => Inst::Fsub(lv, right),
                        _ => Inst::Fmul(lv, right),
                    };
                    let v = self.push(inst);
                    Ok(ParseExpr::new(Some(v)))
                } else {
                    Err(unexpected("arithmetic on a type without it"))
                }
            },
        }
    }

    /// Lowers a call: the arguments in order, then the call.
    fn call(&mut self, expr: &Expr, functions: &Vec<FunctionEntry>) -> (r: Result<
        ParseExpr,
        Error,
    >)
        requires
            expr.expr_type is Call,
        ensures
            final(self).result_type() == old(self).result_type(),
            match lower(*expr, old(self).state(), functions@, old(self).result_type()) {
                Ok((st, o)) => r == Ok::<ParseExpr, Error>(o) && final(self).state() == st,
                Err(f) => r is Err && fault_of(r->Err_0) == f,
            },
            expr.expr_type is Call && lookup_fn(functions@, expr.expr_type->Call_0@) is Some
                && lookup_fn(functions@, expr.expr_type->Call_0@)->Some_0.param_count
                != expr.expr_type->Call_1@.len() ==> r == Err::<ParseExpr, Error>(
                Error::WrongArgumentCount,
            ) && final(self).state() == old(self).state(),
        decreases expr, 1nat,
    {
        let ghost ret = self.return_type;
        let ghost st0 = self.state();
        let (name, args) = match &expr.expr_type {
            ExprType::Call(name, args) => (name, args),
            _ => return Err(unexpected("call")),
        };
        match find_function(functions, name) {
            None => Err(undefined_named("function ", name.as_str())),
            Some(f) => {
                if f.param_count != args.len() {
                    return Err(Error::WrongArgumentCount);
                }
                let ghost target = lower_args(*expr, 0, st0, functions@, ret, Seq::empty());
                let mut vals: Vec<usize> = Vec::new();
                let mut i: usize = 0;
                while i < args.len()
                    invariant
                        i <= args@.len(),
                        expr.expr_type == ExprType::Call(*name, *args),
                        self.return_type == ret,
                        ret == old(self).return_type,
                        st0 == old(self).state(),
                        target == lower_args(*expr, 0, st0, functions@, ret, Seq::empty()),
                        lookup_fn(functions@, name@) == Some(f),
                        f.param_count == args@.len(),
                        lower_args(*expr, i as nat, self.state(), functions@, ret, vals@) == target,
                    decreases args@.len() - i,
                {
                    let o = self.expr(&args[i], functions)?;
                    let v = match o.value {
                        Some(v) => v,
                        None => return Err(unexpected("argument without a value")),
                    };
                    vals.push(v);
                    i = i + 1;
                }
                let c = self.push(Inst::Call(f.id, vals));
                if f.has_return {
                    Ok(ParseExpr::new(Some(c)))
                } else {
                    Ok(ParseExpr::empty())
                }
            },
        }
    }

    /// Lowers a block: its statements in order, up to the first that
    /// returns.
    fn block(&mut self, expr: &Expr, functions: &Vec<FunctionEntry>) -> (r: Result<
        ParseExpr,
        Error,
    >)
        requires
            expr.expr_type is Block,
        ensures
            final(self).result_type() == old(self).result_type(),
            match lower(*expr, old(self).state(), functions@, old(self).result_type()) {
                Ok((st, o)) => r == Ok::<ParseExpr, Error>(o) && final(self).state() == st,
                Err(f) => r is Err && fault_of(r->Err_0) == f,
            },
        decreases expr, 1nat,
    {
        let ghost ret = self.return_type;
        let ghost st0 = self.state();
        let exprs = match &expr.expr_type {
            ExprType::Block(exprs) => exprs,
            _ => return Err(unexpected("block")),
        };
        let ghost target = lower_block(*expr, 0, st0, functions@, ret);
        let mut i: usize = 0;
        while i < exprs.len()
            invariant
                i <= exprs@.len(),
                expr.expr_type == ExprType::Block(*exprs),
                self.return_type == ret,
                ret == old(self).return_type,
                st0 == old(self).state(),
                target == lower_block(*expr, 0, st0, functions@, ret),
                lower_block(*expr, i as nat, self.state(), functions@, ret) == target,
            decreases exprs@.len() - i,
        {
            let o = self.expr(&exprs[i], functions)?;
            if o.is_return {
                return Ok(o);
            }
            i = i + 1;
        }
        self.push(Inst::Return(None));
        Ok(ParseExpr::empty())
    }

    /// Lowers an expression: emits its instructions, operands first, and
    /// gives the value it yields and whether it returned.
    pub fn expr(&mut self, expr: &Expr, functions: &Vec<FunctionEntry>) -> (r: Result<
        ParseExpr,
        Error,
    >)
        ensures
            final(self).result_type() == old(self).result_type(),
            match lower(*expr, old(self).state(), functions@, old(self).result_type()) {
                Ok((st, o)) => r == Ok::<ParseExpr, Error>(o) && final(self).state() == st,
                Err(f) => r is Err && fault_of(r->Err_0) == f,
            },
            expr.expr_type is Call && lookup_fn(functions@, expr.expr_type->Call_0@) is Some
                && lookup_fn(functions@, expr.expr_type->Call_0@)->Some_0.param_count
                != expr.expr_type->Call_1@.len() ==> r == Err::<ParseExpr, Error>(
                Error::WrongArgumentCount,
            ) && final(self).state() == old(self).state(),
            integer_mismatch(*expr) && operands_lowered(
                *expr,
                old(self).state(),
                functions@,
                old(self).result_type(),
            ) is Some ==> r == Err::<ParseExpr, Error>(
                Error::MismatchedTypes(
                    expr.expr_type->Binary_1.type_,
                    expr.expr_type->Binary_2.type_,
                ),
            ) && final(self).state() == operands_lowered(
                *expr,
                old(self).state(),
                functions@,
                old(self).result_type(),
            )->Some_0,
        decreases expr, 2nat,
    {
        match &expr.expr_type {
            ExprType::Integer(n) => match expr.type_.get_type() {
                None => Ok(ParseExpr::empty()),
                Some(m) => {
                    if m.is_float() {
                        return Err(unexpected("integer literal of a float type"));
                    }
                    let v = self.push(Inst::Iconst(m, *n));
                    Ok(ParseExpr::new(Some(v)))
                },
            },
            ExprType::Float(s) => match expr.type_.get_type() {
                None => Ok(ParseExpr::empty()),
                Some(m) => {
                    if !m.is_float() {
                        return Err(unexpected("float literal of an integer type"));
                    }
                    let v = self.push(Inst::Fconst(m, s.clone()));
                    Ok(ParseExpr::new(Some(v)))
                },
            },
            ExprType::Boolean(b) => {
                let v = self.push(
                    Inst::Iconst(
                        MachType::I8,
                        if *b {
                            1
                        } else {
                            0
                        },
                    ),
                );
                Ok(ParseExpr::new(Some(v)))
            },
            ExprType::Variable(name) => match find_var(&self.values, name) {
                Some(var) => {
                    let v = self.push(Inst::UseVar(var));
                    Ok(ParseExpr::new(Some(v)))
                },
                None => Err(undefined_named("variable ", name.as_str())),
            },
            ExprType::Binary(op, left, right) => {
                let lo = self.expr(left, functions)?;
                let lv = match lo.value {
                    Some(v) => v,
                    None => return Err(unexpected("operand without a value")),
                };
                let ro = self.expr(right, functions)?;
                let rv = match ro.value {
                    Some(v) => v,
                    None => return Err(unexpected("operand without a value")),
                };
                self.binary(*op, left.type_, right.type_, lv, rv, functions)
            },
            ExprType::Call(..) => self.call(expr, functions),
            ExprType::Block(..) => self.block(expr, functions),
            ExprType::Return(None) => {
                self.push(Inst::Return(None));
                Ok(ParseExpr::empty_return())
            },
            ExprType::Return(Some(x)) => {
                if x.type_ != self.return_type {
                    return Err(Error::MismatchedTypes(self.return_type, x.type_));
                }
                let o = self.expr(x, functions)?;
                let v = match o.value {
                    Some(v) => v,
                    None => return Err(unexpected("returned expression without a value")),
                };
                self.push(Inst::Return(Some(v)));
                Ok(ParseExpr::new_return(Some(v)))
            },
            ExprType::Let(name, None) => match expr.type_.get_type() {
                None => Err(unexpected("variable without a machine type")),
                Some(m) => {
                    self.fresh_var(name, m)?;
                    Ok(ParseExpr::empty())
                },
            },
            ExprType::Let(name, Some(x)) => {
                let o = self.expr(x, functions)?;
                let v = match o.value {
                    Some(v) => v,
                    None => return Err(unexpected("initializer without a value")),
                };
                let m = match expr.type_.get_type() {
                    Some(m) => m,
                    None => return Err(unexpected("variable without a machine type")),
                };
                self.fresh_var_with(name, m, v)?;
                Ok(ParseExpr::new(Some(v)))
            },
            ExprType::Assign(name, x) => {
                let o = self.expr(x, functions)?;
                let v = match o.value {
                    Some(v) => v,
                    None => return Err(unexpected("assigned expression without a value")),
                };
                match find_var(&self.values, name) {
                    Some(var) => {
                        self.push(Inst::DefVar(var, v));
                        Ok(ParseExpr::new(Some(v)))
                    },
                    None => Err(undefined_named("variable ", name.as_str())),
                }
            },
        }
    }
}

/// No name is in the table twice.
pub open spec fn unique(t: Seq<FunctionEntry>) -> bool {
    forall|i: int, j: int| 0 <= i < j < t.len() ==> t[i].name@ != t[j].name@
}

proof fn lemma_lookup_absent(t: Seq<FunctionEntry>, n: Seq<char>)
    ensures
        lookup_fn(t, n) is None <==> forall|i: int| 0 <= i < t.len() ==> t[i].name@ != n,
    decreases t.len(),
{
    if t.len() > 0 {
        lemma_lookup_absent(t.drop_last(), n);
        if lookup_fn(t, n) is None {
            assert forall|i: int| 0 <= i < t.len() implies t[i].name@ != n by {
                if i < t.len() - 1 {
                    assert(t.drop_last()[i] == t[i]);
                }
            }
        } else if t.last().name@ != n {
            let i = choose|i: int| 0 <= i < t.len() - 1 && t.drop_last()[i].name@ == n;
            assert(t[i].name@ == n);
        }
    }
}

proof fn lemma_lookup_update(t: Seq<FunctionEntry>, k: int, e: FunctionEntry, n: Seq<char>)
    requires
        unique(t),
        0 <= k < t.len(),
        e.name@ == t[k].name@,
    ensures
        lookup_fn(t.update(k, e), n) == if n == t[k].name@ {
            Some(e.info)
        } else {
            lookup_fn(t, n)
        },
    decreases t.len(),
{
    let u = t.update(k, e);
    if k == t.len() - 1 {
        assert(u.drop_last() =~= t.drop_last());
    } else {
        assert(u.drop_last() =~= t.drop_last().update(k, e));
        assert(unique(t.drop_last())) by {
            assert forall|i: int, j: int| 0 <= i < j < t.drop_last().len() implies t.drop_last()[i].name@
                != t.drop_last()[j].name@ by {
                assert(t.drop_last()[i] == t[i] && t.drop_last()[j] == t[j]);
            }
        }
        lemma_lookup_update(t.drop_last(), k, e, n);
        assert(t.last().name@ != t[k].name@);
    }
}

proof fn lemma_lookup_remove(t: Seq<FunctionEntry>, k: int, n: Seq<char>)
    requires
        unique(t),
        0 <= k < t.len(),
    ensures
        lookup_fn(t.remove(k), n) == if n == t[k].name@ {
            None
        } else {
            lookup_fn(t, n)
        },
    decreases t.len(),
{
    let u = t.remove(k);
    assert(unique(t.drop_last())) by {
        assert forall|i: int, j: int| 0 <= i < j < t.drop_last().len() implies t.drop_last()[i].name@
            != t.drop_last()[j].name@ by {
            assert(t.drop_last()[i] == t[i] && t.drop_last()[j] == t[j]);
        }
    }
    if k == t.len() - 1 {
        assert(u =~= t.drop_last());
        lemma_lookup_absent(t.drop_last(), t[k].name@);
        assert forall|i: int| 0 <= i < t.drop_last().len() implies t.drop_last()[i].name@ != t[k].name@ by {
            assert(t.drop_last()[i] == t[i]);
        }
    } else {
        assert(u.drop_last() =~= t.drop_last().remove(k));
        assert(u.last() == t.last());
        lemma_lookup_remove(t.drop_last(), k, n);
        assert(t.last().name@ != t[k].name@);
    }
}

proof fn lemma_lookup_push_entry(t: Seq<FunctionEntry>, e: FunctionEntry, n: Seq<char>)
    ensures
        lookup_fn(t.push(e), n) == if e.name@ == n {
            Some(e.info)
        } else {
            lookup_fn(t, n)
        },
{
    assert(t.push(e).drop_last() =~= t);
}

fn index_of(t: &Vec<FunctionEntry>, name: &String) -> (r: Option<usize>)
    ensures
        r is Some ==> r->Some_0 < t@.len() && t@[r->Some_0 as int].name@ == name@ && lookup_fn(
            t@,
            name@,
        ) == Some(t@[r->Some_0 as int].info),
        r is None ==> lookup_fn(t@, name@) is None,
{
    let mut i = t.len();
    proof {
        assert(t@.subrange(0, i as int) =~= t@);
    }
    while i > 0
        invariant
            i <= t@.len(),
            lookup_fn(t@, name@) == lookup_fn(t@.subrange(0, i as int), name@),
        decreases i,
    {
        proof {
            assert(t@.subrange(0, i as int).drop_last() =~= t@.subrange(0, i - 1));
        }
        if t[i - 1].name.eq(name) {
            return Some(i - 1);
        }
        i = i - 1;
    }
    None
}

/// The machine types of a parameter list, unless one has none.
pub open spec fn signature_of(ps: Seq<Parameter>) -> Option<Seq<MachType>> {
    if forall|i: int| 0 <= i < ps.len() ==> (#[trigger] mach_of(ps[i].type_)) is Some {
        Some(Seq::new(ps.len(), |i: int| mach_of(ps[i].type_)->Some_0))
    } else {
        None
    }
}

/// The instructions that bind the parameters, from the `i`-th on, to
/// variable slots: each is read, given a fresh slot and written to it.
pub open spec fn setup_params(ps: Seq<Parameter>, i: nat, st: Lowering) -> Option<Lowering>
    decreases ps.len() - i,
{
    if i >= ps.len() {
        Some(st)
    } else {
        match mach_of(ps[i as int].type_) {
            None => None,
            Some(m) => if st.next_var == usize::MAX {
                None
            } else {
                let p = st.insts.len() as usize;
                let st1 = emit(st, InstView::Param(i as usize));
                setup_params(
                    ps,
                    i + 1,
                    emit(declare(st1, ps[i as int].name, m), InstView::DefVar(st1.next_var, p)),
                )
            },
        }
    }
}

/// The lowering of a whole function with the function table `table`,
/// variable slots numbered from `next_var` on: the parameters bound, then
/// the body.
pub open spec fn function_body(f: Function, table: Seq<FunctionEntry>, next_var: usize) -> Result<
    Lowering,
    Fault,
> {
    let start = Lowering { insts: Seq::empty(), scope: Seq::empty(), next_var };
    match setup_params(f.prototype.parameters@, 0, start) {
        None => Err(Fault::Unexpected),
        Some(st) => match lower(f.body, st, table, f.prototype.return_type) {
            Ok((st2, _)) => Ok(st2),
            Err(x) => Err(x),
        },
    }
}

/// The table with the entry for `n` marked as defined.
pub open spec fn mark_defined(t: Seq<FunctionEntry>, n: Seq<char>) -> Seq<FunctionEntry> {
    t.map_values(
        |e: FunctionEntry|
            if e.name@ == n {
                FunctionEntry { name: e.name, info: FnInfo { defined: true, ..e.info } }
            } else {
                e
            },
    )
}

/// The table after `prototype` registers `p` with an unknown name.
pub open spec fn registered(g: Generator, p: Prototype) -> Seq<FunctionEntry> {
    if g.function_info(p.function_name@) is None {
        g.table().push(
            FunctionEntry {
                name: p.function_name,
                info: FnInfo {
                    defined: false,
                    id: g.decls().len() as usize,
                    param_count: p.parameters@.len() as usize,
                    has_return: mach_of(p.return_type) is Some,
                },
            },
        )
    } else {
        g.table()
    }
}

/// Whether `prototype` accepts `p`.
pub open spec fn accepts(g: Generator, p: Prototype) -> bool {
    match g.function_info(p.function_name@) {
        None => signature_of(p.parameters@) is Some,
        Some(info) => !info.defined && info.param_count == p.parameters@.len(),
    }
}

/// The id under which `p` is declared once `prototype` accepts it.
pub open spec fn id_for(g: Generator, p: Prototype) -> usize {
    match g.function_info(p.function_name@) {
        None => g.decls().len() as usize,
        Some(info) => info.id,
    }
}

/// The module's declarations after `function` registers `p`: a new name is
/// declared with export linkage and its signature.
pub open spec fn declared_after(g: Generator, p: Prototype) -> Seq<DeclView> {
    if g.function_info(p.function_name@) is None && signature_of(p.parameters@) is Some {
        g.decls().push(
            DeclView {
                name: p.function_name@,
                params: signature_of(p.parameters@)->Some_0,
                result: mach_of(p.return_type),
                linkage: Linkage::Export,
            },
        )
    } else {
        g.decls()
    }
}

proof fn lemma_lookup_mark_exact(t: Seq<FunctionEntry>, n: Seq<char>, m: Seq<char>)
    ensures
        lookup_fn(mark_defined(t, n), m) == if m == n {
            match lookup_fn(t, n) {
                Some(i) => Some((FnInfo { defined: true, ..i })),
                None => None,
            }
        } else {
            lookup_fn(t, m)
        },
    decreases t.len(),
{
    if t.len() > 0 {
        assert(mark_defined(t, n).drop_last() =~= mark_defined(t.drop_last(), n));
        lemma_lookup_mark_exact(t.drop_last(), n, m);
    }
}

/// The body that `function` emits for `f`.
pub open spec fn emission(g: Generator, f: Function) -> Result<Lowering, Fault> {
    function_body(
        f,
        mark_defined(registered(g, f.prototype), f.prototype.function_name@),
        g.var_counter(),
    )
}

/// The body of the cast function from an integer type into the float type
/// `to`: convert the parameter and return it.
pub open spec fn cast_body(to: MachType) -> Seq<InstView> {
    seq![InstView::Param(0), InstView::FcvtFromSint(to, 0), InstView::Return(Some(1))]
}

/// The cast functions, in the order they are installed: each integer type
/// into `f32`, then into `f64`.
pub open spec fn cast_pairs() -> Seq<(AuroraType, AuroraType)> {
    seq![
        (AuroraType::I8, AuroraType::F32),
        (AuroraType::I8, AuroraType::F64),
        (AuroraType::I16, AuroraType::F32),
        (AuroraType::I16, AuroraType::F64),
        (AuroraType::I32, AuroraType::F32),
        (AuroraType::I32, AuroraType::F64),
        (AuroraType::I64, AuroraType::F32),
        (AuroraType::I64, AuroraType::F64),
    ]
}

/// The declaration of the cast function from `from` to `to`: exported, one
/// parameter of `from`'s machine type and a result of `to`'s.
pub open spec fn cast_decl(from: AuroraType, to: AuroraType) -> DeclView {
    DeclView {
        name: cast_name(from, to),
        params: seq![mach_of(from)->Some_0],
        result: mach_of(to),
        linkage: Linkage::Export,
    }
}

/// The declarations of the cast library.
pub open spec fn cast_decls() -> Seq<DeclView> {
    cast_pairs().map_values(|p: (AuroraType, AuroraType)| cast_decl(p.0, p.1))
}

/// The bodies of the cast library, declared from id `base` on.
pub open spec fn cast_bodies(base: int) -> Seq<(usize, Seq<InstView>)> {
    Seq::new(8, |k: int| ((base + k) as usize, cast_body(mach_of(cast_pairs()[k].1)->Some_0)))
}

/// The names of the cast library.
pub open spec fn is_cast_name(n: Seq<char>) -> bool {
    exists|k: int| 0 <= k < 8 && n == cast_name(cast_pairs()[k].0, cast_pairs()[k].1)
}

/// What `raw_func` leaves: the eight declarations and bodies after the old
/// ones, the casts defined under their ids, every other name as it was, and
/// the slot counter as it was.
pub open spec fn casts_added(old: Generator, new: Generator) -> bool {
    let base = old.decls().len() as int;
    &&& new.decls() == old.decls() + cast_decls()
    &&& new.emitted() == old.emitted() + cast_bodies(base)
    &&& new.var_counter() == old.var_counter()
    &&& forall|k: int|
        0 <= k < 8 ==> #[trigger] new.function_info(cast_name(cast_pairs()[k].0, cast_pairs()[k].1))
            == Some(FnInfo { defined: true, id: (base + k) as usize, param_count: 1, has_return: true })
    &&& forall|n: Seq<char>| !is_cast_name(n) ==> #[trigger] new.function_info(n) == old.function_info(n)
}

/// The cast functions are installed: one for each integer type and each
/// float type, defined, with one parameter and a result.
pub open spec fn casts_installed(g: Generator) -> bool {
    forall|from: AuroraType, to: AuroraType|
        is_int_type(from) && is_float_type(to) ==> match #[trigger] g.function_info(
            cast_name(from, to),
        ) {
            Some(info) => info.defined && info.param_count == 1 && info.has_return,
            None => false,
        }
}

/// No cast function is known yet.
pub open spec fn no_casts(g: Generator) -> bool {
    forall|from: AuroraType, to: AuroraType|
        is_int_type(from) && is_float_type(to) ==> (#[trigger] g.function_info(
            cast_name(from, to),
        )) is None
}

proof fn lemma_cast_name_injective(a: AuroraType, b: AuroraType, c: AuroraType, d: AuroraType)
    requires
        is_int_type(a),
        is_int_type(c),
        is_float_type(b),
        is_float_type(d),
        cast_name(a, b) == cast_name(c, d),
    ensures
        a == c && b == d,
{
    let x = cast_name(a, b);
    let y = cast_name(c, d);
    assert(x[1] == type_text(a)[1]);
    assert(y[1] == type_text(c)[1]);
    assert(a == c);
    let l = type_text(a).len() as int;
    assert(x[l + 3] == type_text(b)[1]);
    assert(y[l + 3] == type_text(d)[1]);
}

/// A call with as many arguments as the callee has parameters is lowered;
/// one with another number of arguments fails with `WrongArgumentCount`
/// before any argument is lowered, so nothing is emitted for it.
pub proof fn lemma_wrong_argument_count(e: Expr, st: Lowering, fs: Seq<FunctionEntry>, ret: AuroraType)
    requires
        e.expr_type is Call,
        lookup_fn(fs, e.expr_type->Call_0@) matches Some(f) && f.param_count != e.expr_type->Call_1@.len(),
    ensures
        lower(e, st, fs, ret) == Err::<(Lowering, ParseExpr), Fault>(Fault::WrongArgumentCount),
{
}

/// Integers are never widened: arithmetic on an integer left operand and a
/// right operand of another type fails with the two types.
pub proof fn lemma_no_integer_widening(
    op: BinaryOp,
    lt: AuroraType,
    rt: AuroraType,
    lv: usize,
    rv: usize,
    st: Lowering,
    fs: Seq<FunctionEntry>,
)
    requires
        op == BinaryOp::Plus || op == BinaryOp::Minus || op == BinaryOp::Times,
        is_int_type(lt),
        rt != lt,
    ensures
        binary(op, lt, rt, lv, rv, st, fs) == Err::<(Lowering, ParseExpr), Fault>(
            Fault::MismatchedTypes(lt, rt),
        ),
{
}

/// Float arithmetic on operands of different types converts the right
/// operand through the cast function into the left operand's type: a call
/// of the cast function, then the float instruction on its result.
pub proof fn lemma_float_operand_cast(
    op: BinaryOp,
    lt: AuroraType,
    rt: AuroraType,
    lv: usize,
    rv: usize,
    st: Lowering,
    fs: Seq<FunctionEntry>,
    f: FnInfo,
)
    requires
        op == BinaryOp::Plus || op == BinaryOp::Minus || op == BinaryOp::Times,
        is_float_type(lt),
        !is_float_type(rt),
        rt != lt,
        lookup_fn(fs, cast_name(rt, lt)) == Some(f),
        f.has_return,
    ensures
        binary(op, lt, rt, lv, rv, st, fs) == Ok::<(Lowering, ParseExpr), Fault>(
            (
                emit(
                    emit(st, InstView::Call(f.id, seq![rv])),
                    float_inst(op, lv, st.insts.len() as usize),
                ),
                yields(emit(st, InstView::Call(f.id, seq![rv]))),
            ),
        ),
{
}

/// Floats of two widths are added, subtracted or multiplied in `f64`: the
/// `f32` operand is widened first, and no cast function is needed.
pub proof fn lemma_float_widths_meet_in_f64(
    op: BinaryOp,
    lv: usize,
    rv: usize,
    st: Lowering,
    fs: Seq<FunctionEntry>,
)
    requires
        op == BinaryOp::Plus || op == BinaryOp::Minus || op == BinaryOp::Times,
    ensures
        binary(op, AuroraType::F32, AuroraType::F64, lv, rv, st, fs) == Ok::<
            (Lowering, ParseExpr),
            Fault,
        >(
            (
                emit(
                    emit(st, InstView::Fpromote(lv)),
                    float_inst(op, st.insts.len() as usize, rv),
                ),
                yields(emit(st, InstView::Fpromote(lv))),
            ),
        ),
        binary(op, AuroraType::F64, AuroraType::F32, lv, rv, st, fs) == Ok::<
            (Lowering, ParseExpr),
            Fault,
        >(
            (
                emit(
                    emit(st, InstView::Fpromote(rv)),
                    float_inst(op, lv, st.insts.len() as usize),
                ),
                yields(emit(st, InstView::Fpromote(rv))),
            ),
        ),
        binary_result(AuroraType::F32, AuroraType::F64) == AuroraType::F64,
        binary_result(AuroraType::F64, AuroraType::F32) == AuroraType::F64,
{
}

/// Once a function has been emitted, its name is entered as defined: any
/// later prototype or definition of that name is refused with
/// `FunctionRedef`.
pub proof fn lemma_defined_after_emission(g: Generator, f: Function)
    requires
        g.wf(),
        accepts(g, f.prototype),
    ensures
        lookup_fn(
            mark_defined(registered(g, f.prototype), f.prototype.function_name@),
            f.prototype.function_name@,
        ) matches Some(info) && info.defined,
{
    let n = f.prototype.function_name@;
    let t = registered(g, f.prototype);
    if g.function_info(n) is None {
        lemma_lookup_push_entry(g.table(), t.last(), n);
    }
    lemma_lookup_mark(t, n);
}

proof fn lemma_lookup_mark(t: Seq<FunctionEntry>, n: Seq<char>)
    requires
        lookup_fn(t, n) is Some,
    ensures
        lookup_fn(mark_defined(t, n), n) matches Some(info) && info.defined,
    decreases t.len(),
{
    let m = mark_defined(t, n);
    assert(m.drop_last() =~= mark_defined(t.drop_last(), n));
    if t.last().name@ != n {
        lemma_lookup_mark(t.drop_last(), n);
    }
}

proof fn lemma_cast_pair(k: int)
    requires
        0 <= k < 8,
    ensures
        is_int_type(cast_pairs()[k].0),
        is_float_type(cast_pairs()[k].1),
        cast_decls()[k] == cast_decl(cast_pairs()[k].0, cast_pairs()[k].1),
{
}

proof fn lemma_cast_names_differ(j: int, k: int)
    requires
        0 <= j < k < 8,
    ensures
        cast_name(cast_pairs()[j].0, cast_pairs()[j].1) != cast_name(
            cast_pairs()[k].0,
            cast_pairs()[k].1,
        ),
{
    lemma_cast_pair(j);
    lemma_cast_pair(k);
    if cast_name(cast_pairs()[j].0, cast_pairs()[j].1) == cast_name(
        cast_pairs()[k].0,
        cast_pairs()[k].1,
    ) {
        lemma_cast_name_injective(
            cast_pairs()[j].0,
            cast_pairs()[j].1,
            cast_pairs()[k].0,
            cast_pairs()[k].1,
        );
    }
}

/// The generator: the function table, the module's declarations and the
/// bodies defined so far, and the next free variable slot.
pub struct Generator {
    functions: Vec<FunctionEntry>,
    declarations: Vec<FuncDecl>,
    bodies: Vec<IrFunction>,
    variable_builder: VariableBuilder,
}

impl Generator {
    pub closed spec fn wf(&self) -> bool {
        unique(self.functions@)
    }

    /// The function table.
    pub closed spec fn table(&self) -> Seq<FunctionEntry> {
        self.functions@
    }

    /// What the function table knows of `n`.
    pub open spec fn function_info(&self, n: Seq<char>) -> Option<FnInfo> {
        lookup_fn(self.table(), n)
    }

    /// The declarations of the module, by id.
    pub closed spec fn decls(&self) -> Seq<DeclView> {
        self.declarations@.map_values(|d: FuncDecl| d@)
    }

    /// The function bodies emitted, in order.
    pub closed spec fn emitted(&self) -> Seq<(usize, Seq<InstView>)> {
        self.bodies@.map_values(|f: IrFunction| body_view(f))
    }

    pub closed spec fn var_counter(&self) -> usize {
        self.variable_builder.index
    }

    /// A generator with nothing declared.
    pub fn new() -> (r: Generator)
        ensures
            r.wf(),
            r.table() == Seq::<FunctionEntry>::empty(),
            r.decls() == Seq::<DeclView>::empty(),
            r.emitted() == Seq::<(usize, Seq<InstView>)>::empty(),
            r.var_counter() == 0,
    {
        let r = Generator {
            functions: Vec::new(),
            declarations: Vec::new(),
            bodies: Vec::new(),
            variable_builder: VariableBuilder::new(),
        };
        proof {
            assert(r.decls() =~= Seq::<DeclView>::empty());
            assert(r.emitted() =~= Seq::<(usize, Seq<InstView>)>::empty());
        }
        r
    }

    /// The declarations of the module, by id.
    pub fn declarations(&self) -> (r: &Vec<FuncDecl>)
        ensures
            r@.map_values(|d: FuncDecl| d@) == self.decls(),
    {
        &self.declarations
    }

    /// The function bodies emitted, in order.
    pub fn bodies(&self) -> (r: &Vec<IrFunction>)
        ensures
            r@.map_values(|f: IrFunction| body_view(f)) == self.emitted(),
    {
        &self.bodies
    }

    /// Registers a prototype. An unknown name is declared in the module with
    /// the given linkage and entered as not yet defined; a name already
    /// defined, or declared with another number of parameters, is refused;
    /// otherwise the existing declaration's id is given back.
    pub fn prototype(&mut self, prototype: &Prototype, linkage: Linkage) -> (r: Result<usize, Error>)
        requires
            old(self).wf(),
        ensures
            final(self).wf(),
            final(self).emitted() == old(self).emitted(),
            final(self).var_counter() == old(self).var_counter(),
            match old(self).function_info(prototype.function_name@) {
                None => match signature_of(prototype.parameters@) {
                    None => r is Err && *final(self) == *old(self),
                    Some(sig) => {
                        &&& r == Ok::<usize, Error>(old(self).decls().len() as usize)
                        &&& final(self).decls() == old(self).decls().push(
                            DeclView {
                                name: prototype.function_name@,
                                params: sig,
                                result: mach_of(prototype.return_type),
                                linkage,
                            },
                        )
                        &&& final(self).table() == old(self).table().push(
                            FunctionEntry {
                                name: prototype.function_name,
                                info: FnInfo {
                                    defined: false,
                                    id: old(self).decls().len() as usize,
                                    param_count: prototype.parameters@.len() as usize,
                                    has_return: mach_of(prototype.return_type) is Some,
                                },
                            },
                        )
                    },
                },
                Some(info) => {
                    &&& *final(self) == *old(self)
                    &&& r == if info.defined {
                        Err::<usize, Error>(Error::FunctionRedef)
                    } else if info.param_count != prototype.parameters@.len() {
                        Err::<usize, Error>(Error::FunctionRedefWithDifferentParams)
                    } else {
                        Ok::<usize, Error>(info.id)
                    }
                },
            },
    {
        match index_of(&self.functions, &prototype.function_name) {
            Some(k) => {
                let info = self.functions[k].info;
                if info.defined {
                    Err(Error::FunctionRedef)
                } else if info.param_count != prototype.parameters.len() {
                    Err(Error::FunctionRedefWithDifferentParams)
                } else {
                    Ok(info.id)
                }
            },
            None => {
                let mut params: Vec<MachType> = Vec::new();
                let mut i: usize = 0;
                while i < prototype.parameters.len()
                    invariant
                        i <= prototype.parameters@.len(),
                        params@.len() == i,
                        *self == *old(self),
                        unique(self.functions@),
                        lookup_fn(self.functions@, prototype.function_name@) is None,
                        forall|j: int|
                            0 <= j < i ==> mach_of(prototype.parameters@[j].type_) == Some(
                                #[trigger] params@[j],
                            ),
                    decreases prototype.parameters@.len() - i,
                {
                    match prototype.parameters[i].type_.get_type() {
                        Some(m) => params.push(m),
                        None => return Err(unexpected("parameter without a machine type")),
                    }
                    i = i + 1;
                }
                proof {
                    assert forall|j: int| 0 <= j < prototype.parameters@.len() implies (
                    #[trigger] mach_of(prototype.parameters@[j].type_)) is Some by {
                        assert(mach_of(prototype.parameters@[j].type_) == Some(params@[j]));
                    }
                    assert(signature_of(prototype.parameters@) is Some);
                    assert(params@ =~= signature_of(prototype.parameters@)->Some_0);
                    lemma_lookup_absent(self.functions@, prototype.function_name@);
                }
                let result = prototype.return_type.get_type();
                let id = self.declarations.len();
                let has_return = result.is_some();
                self.declarations.push(
                    FuncDecl { name: prototype.function_name.clone(), params, result, linkage },
                );
                self.functions.push(
                    FunctionEntry {
                        name: prototype.function_name.clone(),
                        info: FnInfo {
                            defined: false,
                            id,
                            param_count: prototype.parameters.len(),
                            has_return,
                        },
                    },
                );
                proof {
                    assert(self.decls() =~= old(self).decls().push(
                        DeclView {
                            name: prototype.function_name@,
                            params: params@,
                            result,
                            linkage,
                        },
                    ));
                }
                Ok(id)
            },
        }
    }

    /// Emits a function: registers its prototype with export linkage, marks
    /// it defined (so that it may call itself), binds its parameters and
    /// lowers its body. When lowering fails the function leaves the table.
    pub fn function(&mut self, function: Function) -> (r: Result<(), Error>)
        requires
            old(self).wf(),
        ensures
            final(self).wf(),
            !accepts(*old(self), function.prototype) ==> r is Err && final(self).table()
                == old(self).table() && final(self).emitted() == old(self).emitted(),
            accepts(*old(self), function.prototype) ==> (r is Ok <==> emission(
                *old(self),
                function,
            ) is Ok),
            r is Ok ==> final(self).table() == mark_defined(
                registered(*old(self), function.prototype),
                function.prototype.function_name@,
            ),
            r is Ok ==> final(self).emitted() == old(self).emitted().push(
                (id_for(*old(self), function.prototype), emission(*old(self), function)->Ok_0.insts),
            ),
            r is Ok ==> final(self).var_counter() == emission(*old(self), function)->Ok_0.next_var,
            accepts(*old(self), function.prototype) && r is Err ==> {
                &&& fault_of(r->Err_0) == emission(*old(self), function)->Err_0
                &&& final(self).function_info(function.prototype.function_name@) is None
                &&& final(self).emitted() == old(self).emitted()
            },
            old(self).function_info(function.prototype.function_name@) is Some && old(self).function_info(function.prototype.function_name@)->Some_0.defined ==> r
                == Err::<(), Error>(Error::FunctionRedef),
            old(self).function_info(function.prototype.function_name@) is Some && !old(self).function_info(function.prototype.function_name@)->Some_0.defined && old(self).function_info(function.prototype.function_name@)->Some_0.param_count
                != function.prototype.parameters@.len() ==> r == Err::<(), Error>(
                Error::FunctionRedefWithDifferentParams,
            ),
            final(self).decls() == declared_after(*old(self), function.prototype),
            forall|n: Seq<char>|
                n != function.prototype.function_name@ ==> #[trigger] final(self).function_info(n)
                    == old(self).function_info(n),
            r is Ok ==> final(self).function_info(function.prototype.function_name@) == Some(
                (FnInfo {
                    defined: true,
                    ..(lookup_fn(
                        registered(*old(self), function.prototype),
                        function.prototype.function_name@,
                    )->Some_0)
                }),
            ),
            r is Ok && old(self).function_info(function.prototype.function_name@) is None ==> final(self).function_info(function.prototype.function_name@) == Some(
                FnInfo {
                    defined: true,
                    id: old(self).decls().len() as usize,
                    param_count: function.prototype.parameters@.len() as usize,
                    has_return: mach_of(function.prototype.return_type) is Some,
                },
            ),
    {
        let ghost name = function.prototype.function_name@;
        let id = self.prototype(&function.prototype, Linkage::Export)?;
        let ghost t1 = self.functions@;
        proof {
            assert(t1 == registered(*old(self), function.prototype));
            if old(self).function_info(name) is None {
                lemma_lookup_push_entry(old(self).functions@, t1.last(), name);
            }
        }
        let k = match index_of(&self.functions, &function.prototype.function_name) {
            Some(k) => k,
            None => return Err(unexpected("function missing from the table")),
        };
        let info = self.functions[k].info;
        let entry = FunctionEntry {
            name: self.functions[k].name.clone(),
            info: FnInfo { defined: true, ..info },
        };
        self.functions.set(k, entry);
        proof {
            assert forall|i: int| 0 <= i < t1.len() && i != k implies t1[i].name@ != name by {
                if i < k {
                    assert(t1[i].name@ != t1[k as int].name@);
                } else {
                    assert(t1[k as int].name@ != t1[i].name@);
                }
            }
            assert(self.functions@ =~= mark_defined(t1, name));
            assert(unique(self.functions@)) by {
                assert forall|i: int, j: int| 0 <= i < j < self.functions@.len() implies self.functions@[i].name@
                    != self.functions@[j].name@ by {
                    assert(self.functions@[i].name@ == t1[i].name@);
                    assert(self.functions@[j].name@ == t1[j].name@);
                }
            }
        }
        let mut fg = FunctionGenerator {
            insts: Vec::new(),
            values: Vec::new(),
            variable_builder: VariableBuilder { index: self.variable_builder.index },
            return_type: function.prototype.return_type,
        };
        proof {
            assert(insts_view(fg.insts@) =~= Seq::<InstView>::empty());
            assert(fg.values@ =~= Seq::<Binding>::empty());
            assert(fg.state() == Lowering {
                insts: Seq::empty(),
                scope: Seq::empty(),
                next_var: old(self).variable_builder.index,
            });
        }
        let bound = fg.bind_params(&function.prototype.parameters);
        let lowered = match bound {
            Ok(()) => fg.expr(&function.body, &self.functions),
            Err(e) => Err(e),
        };
        match lowered {
            Ok(_) => {},
            Err(e) => {
                proof {
                    lemma_lookup_remove(self.functions@, k as int, name);
                }
                self.functions.remove(k);
                proof {
                    assert forall|n: Seq<char>| n != name implies #[trigger] lookup_fn(
                        self.functions@,
                        n,
                    ) == lookup_fn(old(self).functions@, n) by {
                        lemma_lookup_remove(mark_defined(t1, name), k as int, n);
                        lemma_lookup_mark_exact(t1, name, n);
                        if old(self).function_info(name) is None {
                            lemma_lookup_push_entry(old(self).functions@, t1.last(), n);
                        }
                    }
                    assert(unique(self.functions@)) by {
                        let before = mark_defined(t1, name);
                        assert forall|i: int, j: int| 0 <= i < j < self.functions@.len() implies self.functions@[i].name@
                            != self.functions@[j].name@ by {
                            if i < k {
                                assert(self.functions@[i] == before[i]);
                            } else {
                                assert(self.functions@[i] == before[i + 1]);
                            }
                            if j < k {
                                assert(self.functions@[j] == before[j]);
                            } else {
                                assert(self.functions@[j] == before[j + 1]);
                            }
                        }
                    }
                }
                return Err(e);
            },
        }
        self.variable_builder = fg.variable_builder;
        let body = IrFunction { id, insts: fg.insts };
        let ghost bv = body_view(body);
        self.bodies.push(body);
        proof {
            assert(self.emitted() =~= old(self).emitted().push(bv));
            assert forall|n: Seq<char>| n != name implies #[trigger] lookup_fn(self.functions@, n)
                == lookup_fn(old(self).functions@, n) by {
                lemma_lookup_mark_exact(t1, name, n);
                if old(self).function_info(name) is None {
                    lemma_lookup_push_entry(old(self).functions@, t1.last(), n);
                }
            }
            lemma_lookup_mark_exact(t1, name, name);
        }
        Ok(())
    }

    /// Installs the cast function from `from` to `to`.
    fn cast_function(&mut self, from: AuroraType, to: AuroraType) -> (r: Result<(), Error>)
        requires
            old(self).wf(),
            is_int_type(from),
            is_float_type(to),
        ensures
            final(self).wf(),
            old(self).function_info(cast_name(from, to)) is None ==> r is Ok,
            r is Ok ==> final(self).function_info(cast_name(from, to)) == Some(
                FnInfo {
                    defined: true,
                    id: old(self).decls().len() as usize,
                    param_count: 1,
                    has_return: true,
                },
            ),
            r is Ok ==> final(self).emitted() == old(self).emitted().push(
                (old(self).decls().len() as usize, cast_body(mach_of(to)->Some_0)),
            ),
            r is Ok ==> final(self).decls() == old(self).decls().push(cast_decl(from, to)),
            final(self).var_counter() == old(self).var_counter(),
            forall|n: Seq<char>|
                n != cast_name(from, to) ==> #[trigger] final(self).function_info(n)
                    == old(self).function_info(n),
    {
        let mut name = from.name();
        let arrow = "->";
        proof {
            reveal_strlit("->");
        }
        name.append(arrow);
        name.append(to.name().as_str());
        proof {
            assert(name@ =~= cast_name(from, to));
        }
        let mut parameters: Vec<Parameter> = Vec::new();
        parameters.push(Parameter { name: "val".to_owned(), type_: from });
        let prototype = Prototype { function_name: name, parameters, return_type: to };
        proof {
            assert(signature_of(prototype.parameters@) is Some);
        }
        if index_of(&self.functions, &prototype.function_name).is_some() {
            return Err(Error::FunctionRedef);
        }
        let id = self.prototype(&prototype, Linkage::Export)?;
        proof {
            assert(signature_of(prototype.parameters@)->Some_0 =~= seq![mach_of(from)->Some_0]);
            assert(self.decls() == old(self).decls().push(cast_decl(from, to)));
        }
        let k = self.functions.len() - 1;
        let ghost t1 = self.functions@;
        let info = self.functions[k].info;
        let entry = FunctionEntry {
            name: self.functions[k].name.clone(),
            info: FnInfo { defined: true, ..info },
        };
        self.functions.set(k, entry);
        proof {
            assert forall|n: Seq<char>| #[trigger]
                lookup_fn(self.functions@, n) == if n == cast_name(from, to) {
                    Some(FnInfo { defined: true, ..info })
                } else {
                    lookup_fn(old(self).functions@, n)
                } by {
                assert(self.functions@ =~= old(self).functions@.push(entry));
                lemma_lookup_push_entry(old(self).functions@, entry, n);
            }
            assert(unique(self.functions@)) by {
                assert forall|i: int, j: int| 0 <= i < j < self.functions@.len() implies self.functions@[i].name@
                    != self.functions@[j].name@ by {
                    assert(self.functions@[i].name@ == t1[i].name@);
                    assert(self.functions@[j].name@ == t1[j].name@);
                }
            }
        }
        let m = match to.get_type() {
            Some(m) => m,
            None => return Err(unexpected("cast into a type without a machine type")),
        };
        let mut insts: Vec<Inst> = Vec::new();
        insts.push(Inst::Param(0));
        insts.push(Inst::FcvtFromSint(m, 0));
        insts.push(Inst::Return(Some(1)));
        let body = IrFunction { id, insts };
        proof {
            assert(insts_view(body.insts@) =~= cast_body(m));
        }
        let ghost bv = body_view(body);
        self.bodies.push(body);
        proof {
            assert(self.emitted() =~= old(self).emitted().push(bv));
        }
        Ok(())
    }

    /// Installs the cast library: a conversion function from each signed
    /// integer type into each float type, named `from->to`.
    pub fn raw_func(&mut self) -> (r: Result<(), Error>)
        requires
            old(self).wf(),
        ensures
            final(self).wf(),
            no_casts(*old(self)) ==> r is Ok,
            r is Ok ==> casts_installed(*final(self)),
            r is Ok ==> casts_added(*old(self), *final(self)),
    {
        let pairs = vec![
            (AuroraType::I8, AuroraType::F32),
            (AuroraType::I8, AuroraType::F64),
            (AuroraType::I16, AuroraType::F32),
            (AuroraType::I16, AuroraType::F64),
            (AuroraType::I32, AuroraType::F32),
            (AuroraType::I32, AuroraType::F64),
            (AuroraType::I64, AuroraType::F32),
            (AuroraType::I64, AuroraType::F64),
        ];
        let ghost base = old(self).decls().len() as int;
        proof {
            assert(pairs@ =~= cast_pairs());
            assert(self.decls() =~= old(self).decls() + cast_decls().take(0));
            assert(self.emitted() =~= old(self).emitted() + cast_bodies(base).take(0));
        }
        let mut i: usize = 0;
        while i < pairs.len()
            invariant
                self.wf(),
                pairs@ == cast_pairs(),
                i <= 8,
                base == old(self).decls().len(),
                self.decls() == old(self).decls() + cast_decls().take(i as int),
                self.emitted() == old(self).emitted() + cast_bodies(base).take(i as int),
                self.var_counter() == old(self).var_counter(),
                forall|k: int|
                    0 <= k < i ==> #[trigger] self.function_info(
                        cast_name(cast_pairs()[k].0, cast_pairs()[k].1),
                    ) == Some(
                        FnInfo {
                            defined: true,
                            id: (base + k) as usize,
                            param_count: 1,
                            has_return: true,
                        },
                    ),
                forall|n: Seq<char>|
                    (forall|k: int|
                        0 <= k < i ==> n != cast_name(cast_pairs()[k].0, cast_pairs()[k].1))
                        ==> #[trigger] self.function_info(n) == old(self).function_info(n),
                no_casts(*old(self)) ==> forall|k: int|
                    i <= k < 8 ==> (#[trigger] self.function_info(
                        cast_name(cast_pairs()[k].0, cast_pairs()[k].1),
                    )) is None,
            decreases 8 - i,
        {
            let (from, to) = pairs[i];
            let ghost before = *self;
            proof {
                lemma_cast_pair(i as int);
            }
            match self.cast_function(from, to) {
                Ok(()) => {},
                Err(e) => {
                    return Err(e);
                },
            }
            proof {
                let n = cast_name(from, to);
                assert(self.decls() =~= old(self).decls() + cast_decls().take(i + 1));
                assert(self.emitted() =~= old(self).emitted() + cast_bodies(base).take(i + 1));
                assert forall|k: int|
                    0 <= k < i + 1 implies #[trigger] self.function_info(
                    cast_name(cast_pairs()[k].0, cast_pairs()[k].1),
                ) == Some(
                    FnInfo { defined: true, id: (base + k) as usize, param_count: 1, has_return: true },
                ) by {
                    lemma_cast_pair(k);
                    if k < i {
                        lemma_cast_names_differ(k, i as int);
                    }
                }
                assert forall|n: Seq<char>|
                    (forall|k: int|
                        0 <= k < i + 1 ==> n != cast_name(cast_pairs()[k].0, cast_pairs()[k].1))
                        implies #[trigger] self.function_info(n) == old(self).function_info(n) by {
                    assert(n != cast_name(cast_pairs()[i as int].0, cast_pairs()[i as int].1));
                    assert(forall|k: int|
                        0 <= k < i ==> n != cast_name(cast_pairs()[k].0, cast_pairs()[k].1));
                    assert(before.function_info(n) == old(self).function_info(n));
                }
                if no_casts(*old(self)) {
                    assert forall|k: int|
                        i + 1 <= k < 8 implies (#[trigger] self.function_info(
                        cast_name(cast_pairs()[k].0, cast_pairs()[k].1),
                    )) is None by {
                        lemma_cast_pair(k);
                        lemma_cast_names_differ(i as int, k);
                        assert(before.function_info(cast_name(cast_pairs()[k].0, cast_pairs()[k].1))
                            is None);
                    }
                }
            }
            i = i + 1;
        }
        proof {
            assert(cast_decls().take(8) =~= cast_decls());
            assert(cast_bodies(base).take(8) =~= cast_bodies(base));
            assert forall|n: Seq<char>| !is_cast_name(n) implies #[trigger] self.function_info(n)
                == old(self).function_info(n) by {
                assert(forall|k: int|
                    0 <= k < 8 ==> n != cast_name(cast_pairs()[k].0, cast_pairs()[k].1));
            }
            assert forall|a: AuroraType, b: AuroraType|
                is_int_type(a) && is_float_type(b) implies match #[trigger] self.function_info(
                cast_name(a, b),
            ) {
                Some(info) => info.defined && info.param_count == 1 && info.has_return,
                None => false,
            } by {
                let x: int = if a == AuroraType::I8 {
                    0
                } else if a == AuroraType::I16 {
                    2
                } else if a == AuroraType::I32 {
                    4
                } else {
                    6
                };
                let k: int = if b == AuroraType::F32 {
                    x
                } else {
                    x + 1
                };
                assert(cast_pairs()[k] == (a, b));
                assert(self.function_info(cast_name(cast_pairs()[k].0, cast_pairs()[k].1))
                    is Some);
            }
        }
        Ok(())
    }

    /// Installs what every compilation unit needs: the cast library.
    pub fn init_essential_lib(&mut self) -> (r: Result<(), Error>)
        requires
            old(self).wf(),
        ensures
            final(self).wf(),
            no_casts(*old(self)) ==> r is Ok,
            r is Ok ==> casts_installed(*final(self)),
            r is Ok ==> casts_added(*old(self), *final(self)),
    {
        self.raw_func()
    }
}

} // verus!
