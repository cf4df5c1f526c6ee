use vstd::prelude::*;
use crate::typing::MachType;

verus! {

/// How a function is linked: defined here and visible outside, or defined
/// elsewhere.
#[derive(Clone, Copy, Debug, PartialEq, Eq, Structural)]
pub enum Linkage {
    Export,
    Import,
}

/// An instruction of the low-level IR. Instructions are numbered by their
/// position in the function, and an instruction that yields a value is
/// referred to by its number.
#[derive(Debug)]
pub enum Inst {
    /// The function parameter with this index.
    Param(usize),
    Iconst(MachType, i64),
    /// A float constant of the given width, from its decimal text.
    Fconst(MachType, String),
    /// Widens an `f32` value to `f64`.
    Fpromote(usize),
    Iadd(usize, usize),
    Isub(usize, usize),
    Imul(usize, usize),
    Fadd(usize, usize),
    Fsub(usize, usize),
    Fmul(usize, usize),
    /// Float comparison `<`, yielding a boolean.
    FcmpLessThan(usize, usize),
    IcmpEqual(usize, usize),
    FcmpEqual(usize, usize),
    /// Signed integer to float conversion into the given float type.
    FcvtFromSint(MachType, usize),
    /// A call of the function with this id; it yields a value when the
    /// callee returns one.
    Call(usize, Vec<usize>),
    /// Declares variable slot `var` of the given type.
    DeclareVar(usize, MachType),
    /// Writes a value into a variable slot.
    DefVar(usize, usize),
    /// Reads a variable slot.
    UseVar(usize),
    Return(Option<usize>),
}

/// An instruction as a mathematical value.
pub enum InstView {
    Param(usize),
    Iconst(MachType, i64),
    Fconst(MachType, Seq<char>),
    Fpromote(usize),
    Iadd(usize, usize),
    Isub(usize, usize),
    Imul(usize, usize),
    Fadd(usize, usize),
    Fsub(usize, usize),
    Fmul(usize, usize),
    FcmpLessThan(usize, usize),
    IcmpEqual(usize, usize),
    FcmpEqual(usize, usize),
    FcvtFromSint(MachType, usize),
    Call(usize, Seq<usize>),
    DeclareVar(usize, MachType),
    DefVar(usize, usize),
    UseVar(usize),
    Return(Option<usize>),
}

impl View for Inst {
    type V = InstView;

    open spec fn view(&self) -> InstView {
        match self {
            Inst::Param(i) => InstView::Param(*i),
            Inst::Iconst(t, n) => InstView::Iconst(*t, *n),
            Inst::Fconst(t, s) => InstView::Fconst(*t, s@),
            Inst::Fpromote(a) => InstView::Fpromote(*a),
            Inst::Iadd(a, b) => InstView::Iadd(*a, *b),
            Inst::Isub(a, b) => InstView::Isub(*a, *b),
            Inst::Imul(a, b) => InstView::Imul(*a, *b),
            Inst::Fadd(a, b) => InstView::Fadd(*a, *b),
            Inst::Fsub(a, b) => InstView::Fsub(*a, *b),
            Inst::Fmul(a, b) => InstView::Fmul(*a, *b),
            Inst::FcmpLessThan(a, b) => InstView::FcmpLessThan(*a, *b),
            Inst::IcmpEqual(a, b) => InstView::IcmpEqual(*a, *b),
            Inst::FcmpEqual(a, b) => InstView::FcmpEqual(*a, *b),
            Inst::FcvtFromSint(t, a) => InstView::FcvtFromSint(*t, *a),
            Inst::Call(f, args) => InstView::Call(*f, args@),
            Inst::DeclareVar(v, t) => InstView::DeclareVar(*v, *t),
            Inst::DefVar(v, a) => InstView::DefVar(*v, *a),
            Inst::UseVar(v) => InstView::UseVar(*v),
            Inst::Return(a) => InstView::Return(*a),
        }
    }
}

/// The instructions of a sequence, as values.
pub open spec fn insts_view(s: Seq<Inst>) -> Seq<InstView> {
    s.map_values(|i: Inst| i@)
}

/// A function declared in the module: its name, signature and linkage.
#[derive(Debug)]
pub struct FuncDecl {
    pub name: String,
    pub params: Vec<MachType>,
    pub result: Option<MachType>,
    pub linkage: Linkage,
}

/// A declaration as a mathematical value.
pub struct DeclView {
    pub name: Seq<char>,
    pub params: Seq<MachType>,
    pub result: Option<MachType>,
    pub linkage: Linkage,
}

impl View for FuncDecl {
    type V = DeclView;

    open spec fn view(&self) -> DeclView {
        DeclView {
            name: self.name@,
            params: self.params@,
            result: self.result,
            linkage: self.linkage,
        }
    }
}

/// The body of a defined function: the id of its declaration and its
/// instructions, all in one entry block.
#[derive(Debug)]
pub struct IrFunction {
    pub id: usize,
    pub insts: Vec<Inst>,
}

/// A function body as a mathematical value: its id and instructions.
pub open spec fn body_view(f: IrFunction) -> (usize, Seq<InstView>) {
    (f.id, insts_view(f.insts@))
}

} // verus!
