use vstd::prelude::*;
use crate::ast::{params_ok, typed, BinaryOp, Expr, ExprType, Function, Parameter, Prototype};
use crate::error::Error;
use crate::lexer::{lemma_token_left, next_step, peek_step, work, Lexer, Token, TokenView};
use crate::typing::{binary_result, type_named, AuroraType};
use vstd::string::StringExecFns;

verus! {

/// A name bound to a type.
pub struct Symbol {
    pub name: String,
    pub type_: AuroraType,
}

/// The type bound to `name`; the latest binding wins.
pub open spec fn lookup(t: Seq<Symbol>, name: Seq<char>) -> Option<AuroraType>
    decreases t.len(),
{
    if t.len() == 0 {
        None
    } else if t.last().name@ == name {
        Some(t.last().type_)
    } else {
        lookup(t.drop_last(), name)
    }
}

/// A symbol table as a mathematical value: names with their types.
pub type Table = Seq<(Seq<char>, AuroraType)>;

/// The view of a symbol table.
pub open spec fn names(t: Seq<Symbol>) -> Table {
    t.map_values(|s: Symbol| (s.name@, s.type_))
}

/// The type bound to `name` in a table view; the latest binding wins.
pub open spec fn lookup_in(t: Table, name: Seq<char>) -> Option<AuroraType>
    decreases t.len(),
{
    if t.len() == 0 {
        None
    } else if t.last().0 == name {
        Some(t.last().1)
    } else {
        lookup_in(t.drop_last(), name)
    }
}

proof fn lemma_lookup_names(t: Seq<Symbol>, name: Seq<char>)
    ensures
        lookup(t, name) == lookup_in(names(t), name),
    decreases t.len(),
{
    if t.len() > 0 {
        assert(names(t).drop_last() =~= names(t.drop_last()));
        lemma_lookup_names(t.drop_last(), name);
    }
}

/// No symbol is bound to `Any`.
pub open spec fn no_any(t: Seq<Symbol>) -> bool {
    forall|i: int| 0 <= i < t.len() ==> t[i].type_ != AuroraType::Any
}

proof fn lemma_lookup_no_any(t: Seq<Symbol>, name: Seq<char>)
    requires
        no_any(t),
    ensures
        lookup(t, name) != Some(AuroraType::Any),
    decreases t.len(),
{
    if t.len() > 0 {
        lemma_lookup_no_any(t.drop_last(), name);
    }
}

fn find(t: &Vec<Symbol>, name: &String) -> (r: Option<AuroraType>)
    ensures
        r == lookup(t@, name@),
{
    let mut i = t.len();
    proof {
        assert(t@.subrange(0, i as int) =~= t@);
    }
    while i > 0
        invariant
            i <= t@.len(),
            lookup(t@, name@) == lookup(t@.subrange(0, i as int), name@),
        decreases i,
    {
        proof {
            assert(t@.subrange(0, i as int).drop_last() =~= t@.subrange(0, i - 1));
        }
        if t[i - 1].name.eq(name) {
            return Some(t[i - 1].type_);
        }
        i = i - 1;
    }
    None
}

/// The binding power of a binary operator; `==` has none.
pub open spec fn precedence_of(op: BinaryOp) -> Option<int> {
    match op {
        BinaryOp::LessThan => Some(10),
        BinaryOp::Plus | BinaryOp::Minus => Some(20),
        BinaryOp::Times => Some(40),
        BinaryOp::Equal => None,
    }
}

/// The operator a token stands for, if it is a binary operator.
pub open spec fn operator_of(t: TokenView) -> Option<BinaryOp> {
    match t {
        TokenView::LessThan => Some(BinaryOp::LessThan),
        TokenView::Minus => Some(BinaryOp::Minus),
        TokenView::Plus => Some(BinaryOp::Plus),
        TokenView::Star => Some(BinaryOp::Times),
        _ => None,
    }
}

/// The identifier that the lexer reads next, if it reads one.
pub open spec fn next_ident(l: Lexer) -> Option<Seq<char>> {
    match l.next_view().0 {
        Ok(TokenView::Identifier(s)) => Some(s),
        _ => None,
    }
}

/// An error whose message is `what`.
pub open spec fn undefined(e: Error, what: Seq<char>) -> bool {
    e is Undefined && e->Undefined_0@ == what
}

fn text(s: &str) -> (r: String)
    ensures
        r@ == s@,
{
    s.to_owned()
}

/// `e` is typed as the parser types expressions: `typed`, literals typed
/// `i64` and `f64`, and names typed by the function and variable tables.
pub open spec fn typed_under(e: Expr, funcs: Seq<Symbol>, vars: Seq<Symbol>) -> bool
    decreases e,
{
    typed(e) && match e.expr_type {
        ExprType::Integer(_) => e.type_ == AuroraType::I64,
        ExprType::Float(_) => e.type_ == AuroraType::F64,
        ExprType::Variable(n) => lookup(vars, n@) == Some(e.type_),
        ExprType::Call(n, args) => lookup(funcs, n@) == Some(e.type_) && forall|i: int|
            0 <= i < args.len() ==> typed_under(#[trigger] args[i], funcs, vars),
        ExprType::Binary(_, l, r) => typed_under(*l, funcs, vars) && typed_under(*r, funcs, vars),
        _ => false,
    }
}

/// `new` is `old` with `name` bound to `t` at the end.
pub open spec fn declared(old: Seq<Symbol>, new: Seq<Symbol>, name: Seq<char>, t: AuroraType) -> bool {
    &&& new.len() == old.len() + 1
    &&& new.drop_last() == old
    &&& new.last().name@ == name
    &&& new.last().type_ == t
}

proof fn lemma_lookup_push(t: Seq<Symbol>, s: Symbol, n: Seq<char>)
    ensures
        lookup(t.push(s), n) == if s.name@ == n {
            Some(s.type_)
        } else {
            lookup(t, n)
        },
{
    assert(t.push(s).drop_last() =~= t);
}

fn has_param(ps: &Vec<Parameter>, name: &String) -> (r: bool)
    ensures
        r == exists|i: int| 0 <= i < ps@.len() && ps@[i].name@ == name@,
{
    let mut i: usize = 0;
    while i < ps.len()
        invariant
            i <= ps@.len(),
            forall|j: int| 0 <= j < i ==> ps@[j].name@ != name@,
        decreases ps@.len() - i,
    {
        if ps[i].name.eq(name) {
            return true;
        }
        i = i + 1;
    }
    false
}

// ---------------------------------------------------------------------------
// The expression grammar, stated over the token stream.
/// The token stream: the input, the read position and the lookahead.
pub struct TokenState {
    pub s: Seq<u8>,
    pub p: int,
    pub la: Seq<TokenView>,
}

/// The token stream of a lexer.
pub open spec fn stream_of(l: Lexer) -> TokenState {
    TokenState { s: l.input(), p: l.position(), la: l.buffered() }
}

pub open spec fn stream_work(st: TokenState) -> int {
    work(st.s, st.p, st.la)
}

/// Reading one token.
pub open spec fn read(st: TokenState) -> (Result<TokenView, Error>, TokenState) {
    let (r, p, la) = next_step(st.s, st.p, st.la);
    (r, TokenState { s: st.s, p, la })
}

/// Looking at the next token without reading it.
pub open spec fn look(st: TokenState) -> (Result<TokenView, Error>, TokenState) {
    let (r, p, la) = peek_step(st.s, st.p, st.la, 0);
    (r, TokenState { s: st.s, p, la })
}

/// An expression as a mathematical value.
pub struct ExprV {
    pub kind: KindV,
    pub type_: AuroraType,
}

pub enum KindV {
    Binary(BinaryOp, Box<ExprV>, Box<ExprV>),
    Call(Seq<char>, Seq<ExprV>),
    Integer(i64),
    Float(Seq<char>),
    Variable(Seq<char>),
    Let(Seq<char>, Option<Box<ExprV>>),
    Assign(Seq<char>, Box<ExprV>),
    Return(Option<Box<ExprV>>),
    Block(Seq<ExprV>),
}

/// `e` is the expression `v`.
pub open spec fn same_expr(e: Expr, v: ExprV) -> bool
    decreases e,
{
    e.type_ == v.type_ && match e.expr_type {
        ExprType::Binary(op, l, r) => match v.kind {
            KindV::Binary(op2, l2, r2) => op == op2 && same_expr(*l, *l2) && same_expr(*r, *r2),
            _ => false,
        },
        ExprType::Call(n, args) => match v.kind {
            KindV::Call(n2, args2) => n@ == n2 && args@.len() == args2.len() && forall|i: int|
                0 <= i < args@.len() ==> same_expr(#[trigger] args@[i], args2[i]),
            _ => false,
        },
        ExprType::Integer(i) => v.kind == KindV::Integer(i),
        ExprType::Float(s) => v.kind == KindV::Float(s@),
        ExprType::Variable(n) => v.kind == KindV::Variable(n@),
        ExprType::Let(n, None) => v.kind == KindV::Let(n@, None),
        ExprType::Let(n, Some(x)) => match v.kind {
            KindV::Let(n2, Some(x2)) => n@ == n2 && same_expr(*x, *x2),
            _ => false,
        },
        ExprType::Assign(n, x) => match v.kind {
            KindV::Assign(n2, x2) => n@ == n2 && same_expr(*x, *x2),
            _ => false,
        },
        ExprType::Return(None) => v.kind == KindV::Return(None),
        ExprType::Return(Some(x)) => match v.kind {
            KindV::Return(Some(x2)) => same_expr(*x, *x2),
            _ => false,
        },
        ExprType::Block(es) => match v.kind {
            KindV::Block(vs) => es@.len() == vs.len() && forall|i: int|
                0 <= i < es@.len() ==> same_expr(#[trigger] es@[i], vs[i]),
            _ => false,
        },
        _ => false,
    }
}

/// The kinds of parse error.
pub enum ParseFault {
    /// The token expected and the token read.
    UnexpectedToken(TokenView, TokenView),
    Unexpected(Seq<char>),
    Undefined(Seq<char>),
    /// Any other error, as it is.
    Plain(Error),
    /// The work bound given was too small (it never is for the parser's own
    /// calls).
    OutOfFuel,
}

pub open spec fn fault_of(e: Error) -> ParseFault {
    match e {
        Error::UnexpectedToken(e, g) => ParseFault::UnexpectedToken(e@, g@),
        Error::Unexpected(m) => ParseFault::Unexpected(m@),
        Error::Undefined(m) => ParseFault::Undefined(m@),
        _ => ParseFault::Plain(e),
    }
}

/// Reading the token `t`.
pub open spec fn eat_of(st: TokenState, t: TokenView) -> Result<TokenState, ParseFault> {
    let (r, st1) = read(st);
    match r {
        Err(e) => Err(fault_of(e)),
        Ok(got) => if got == t {
            Ok(st1)
        } else {
            Err(ParseFault::UnexpectedToken(t, got))
        },
    }
}

/// Reading an identifier.
pub open spec fn ident_of(st: TokenState) -> Result<(Seq<char>, TokenState), ParseFault> {
    let (r, st1) = read(st);
    match r {
        Err(e) => Err(fault_of(e)),
        Ok(TokenView::Identifier(n)) => Ok((n, st1)),
        Ok(_) => Err(ParseFault::Unexpected("token, expecting identifier"@)),
    }
}

/// `expr ::= primary { binop expr }`, by precedence climbing from 0, with
/// the function table `fs` and the variable table `vs`; `f` bounds the work
/// left to read.
pub open spec fn expr_of(st: TokenState, fs: Table, vs: Table, f: nat) -> Result<
    (ExprV, TokenState),
    ParseFault,
>
    decreases f, 3nat,
{
    if stream_work(st) > f {
        Err(ParseFault::OutOfFuel)
    } else {
        match primary_of(st, fs, vs, f) {
            Err(e) => Err(e),
            Ok((l, st1)) => binary_right_of(st1, fs, vs, f, 0, l),
        }
    }
}

/// Extends `left` with the operators that bind at least as tightly as
/// `prec`. The right operand of an operator takes the operators that bind
/// more tightly than it; operators of equal precedence associate to the
/// left.
pub open spec fn binary_right_of(
    st: TokenState,
    fs: Table,
    vs: Table,
    f: nat,
    prec: int,
    left: ExprV,
) -> Result<(ExprV, TokenState), ParseFault>
    decreases f, 2nat,
{
    if stream_work(st) > f {
        Err(ParseFault::OutOfFuel)
    } else {
        let (r, st1) = look(st);
        match r {
            Err(e) => Err(fault_of(e)),
            Ok(t) => match operator_of(t) {
                None => Ok((left, st1)),
                Some(op) => match precedence_of(op) {
                    None => Err(ParseFault::Undefined("operator"@)),
                    Some(tp) => if tp < prec {
                        Ok((left, st1))
                    } else if f == 0 {
                        Err(ParseFault::OutOfFuel)
                    } else {
                        let (r2, st2) = read(st1);
                        match r2 {
                            Err(e) => Err(fault_of(e)),
                            Ok(_) => match primary_of(st2, fs, vs, (f - 1) as nat) {
                                Err(e) => Err(e),
                                Ok((right, st3)) => {
                                    let (r3, st4) = look(st3);
                                    match r3 {
                                        Err(e) => Err(fault_of(e)),
                                        Ok(t3) => {
                                            let rest = match operator_of(t3) {
                                                Some(op2) => match precedence_of(op2) {
                                                    None => Err(ParseFault::Undefined("operator"@)),
                                                    Some(p2) => if tp < p2 {
                                                        binary_right_of(
                                                            st4,
                                                            fs,
                                                            vs,
                                                            (f - 1) as nat,
                                                            tp + 1,
                                                            right,
                                                        )
                                                    } else {
                                                        Ok((right, st4))
                                                    },
                                                },
                                                None => Ok((right, st4)),
                                            };
                                            match rest {
                                                Err(e) => Err(e),
                                                Ok((right2, st5)) => binary_right_of(
                                                    st5,
                                                    fs,
                                                    vs,
                                                    (f - 1) as nat,
                                                    prec,
                                                    ExprV {
                                                        kind: KindV::Binary(
                                                            op,
                                                            Box::new(left),
                                                            Box::new(right2),
                                                        ),
                                                        type_: binary_result(
                                                            left.type_,
                                                            right2.type_,
                                                        ),
                                                    },
                                                ),
                                            }
                                        },
                                    }
                                },
                            },
                        }
                    },
                },
            },
        }
    }
}

/// Operators of equal or lower precedence associate to the left: after
/// `left op1 right`, a next operator `op2` that binds no more tightly than
/// `op1` continues with `(left op1 right)` as its left operand.
pub proof fn lemma_left_associative(
    st: TokenState,
    fs: Table,
    vs: Table,
    f: nat,
    prec: int,
    left: ExprV,
    op1: BinaryOp,
    op2: BinaryOp,
    right: ExprV,
    st3: TokenState,
)
    requires
        stream_work(st) <= f,
        f > 0,
        look(st).0 is Ok,
        operator_of(look(st).0->Ok_0) == Some(op1),
        precedence_of(op1) is Some,
        precedence_of(op1)->Some_0 >= prec,
        read(look(st).1).0 is Ok,
        primary_of(read(look(st).1).1, fs, vs, (f - 1) as nat) == Ok::<
            (ExprV, TokenState),
            ParseFault,
        >((right, st3)),
        look(st3).0 is Ok,
        operator_of(look(st3).0->Ok_0) == Some(op2),
        precedence_of(op2) is Some,
        precedence_of(op2)->Some_0 <= precedence_of(op1)->Some_0,
    ensures
        binary_right_of(st, fs, vs, f, prec, left) == binary_right_of(
            look(st3).1,
            fs,
            vs,
            (f - 1) as nat,
            prec,
            ExprV {
                kind: KindV::Binary(op1, Box::new(left), Box::new(right)),
                type_: binary_result(left.type_, right.type_),
            },
        ),
{
}

/// An operator that binds more tightly takes the right operand: after
/// `left op1 right`, a next operator `op2` of higher precedence than `op1`
/// first extends `right`, with the operators binding more tightly than
/// `op1`.
pub proof fn lemma_tighter_binds_first(
    st: TokenState,
    fs: Table,
    vs: Table,
    f: nat,
    prec: int,
    left: ExprV,
    op1: BinaryOp,
    op2: BinaryOp,
    right: ExprV,
    st3: TokenState,
)
    requires
        stream_work(st) <= f,
        f > 0,
        look(st).0 is Ok,
        operator_of(look(st).0->Ok_0) == Some(op1),
        precedence_of(op1) is Some,
        precedence_of(op1)->Some_0 >= prec,
        read(look(st).1).0 is Ok,
        primary_of(read(look(st).1).1, fs, vs, (f - 1) as nat) == Ok::<
            (ExprV, TokenState),
            ParseFault,
        >((right, st3)),
        look(st3).0 is Ok,
        operator_of(look(st3).0->Ok_0) == Some(op2),
        precedence_of(op2) is Some,
        precedence_of(op2)->Some_0 > precedence_of(op1)->Some_0,
    ensures
        binary_right_of(st, fs, vs, f, prec, left) == match binary_right_of(
            look(st3).1,
            fs,
            vs,
            (f - 1) as nat,
            precedence_of(op1)->Some_0 + 1,
            right,
        ) {
            Err(e) => Err(e),
            Ok((right2, st5)) => binary_right_of(
                st5,
                fs,
                vs,
                (f - 1) as nat,
                prec,
                ExprV {
                    kind: KindV::Binary(op1, Box::new(left), Box::new(right2)),
                    type_: binary_result(left.type_, right2.type_),
                },
            ),
        },
{
}

/// `primary ::= float | integer | "(" expr ")" | identifier [ "(" args ")" ]`.
pub open spec fn primary_of(st: TokenState, fs: Table, vs: Table, f: nat) -> Result<
    (ExprV, TokenState),
    ParseFault,
>
    decreases f, 1nat,
{
    if stream_work(st) > f {
        Err(ParseFault::OutOfFuel)
    } else {
        let (r, st1) = look(st);
        match r {
            Err(e) => Err(fault_of(e)),
            Ok(TokenView::Float(x)) => match read(st1).0 {
                Err(e) => Err(fault_of(e)),
                Ok(_) => Ok(
                    (ExprV { kind: KindV::Float(x), type_: AuroraType::F64 }, read(st1).1),
                ),
            },
            Ok(TokenView::Integer(i)) => match read(st1).0 {
                Err(e) => Err(fault_of(e)),
                Ok(_) => Ok(
                    (ExprV { kind: KindV::Integer(i), type_: AuroraType::I64 }, read(st1).1),
                ),
            },
            Ok(TokenView::OpenParen) => match eat_of(st1, TokenView::OpenParen) {
                Err(e) => Err(e),
                Ok(st2) => if f == 0 {
                    Err(ParseFault::OutOfFuel)
                } else {
                    match expr_of(st2, fs, vs, (f - 1) as nat) {
                        Err(e) => Err(e),
                        Ok((e, st3)) => match eat_of(st3, TokenView::CloseParen) {
                            Err(x) => Err(x),
                            Ok(st4) => Ok((e, st4)),
                        },
                    }
                },
            },
            Ok(TokenView::Identifier(_)) => ident_expr_of(st1, fs, vs, f),
            Ok(_) => Err(ParseFault::Unexpected("token when expecting an expression"@)),
        }
    }
}

/// A call, typed by the callee's return type, when `(` follows the name;
/// otherwise a variable, typed by the variable table.
pub open spec fn ident_expr_of(st: TokenState, fs: Table, vs: Table, f: nat) -> Result<
    (ExprV, TokenState),
    ParseFault,
>
    decreases f, 0nat,
{
    if stream_work(st) > f {
        Err(ParseFault::OutOfFuel)
    } else {
        match ident_of(st) {
            Err(e) => Err(e),
            Ok((n, st1)) => {
                let (r, st2) = look(st1);
                match r {
                    Err(e) => Err(fault_of(e)),
                    Ok(t) => if t == TokenView::OpenParen {
                        match lookup_in(fs, n) {
                            None => Err(ParseFault::Undefined("identifier "@ + n)),
                            Some(ty) => match eat_of(st2, TokenView::OpenParen) {
                                Err(e) => Err(e),
                                Ok(st3) => if f == 0 {
                                    Err(ParseFault::OutOfFuel)
                                } else {
                                    match args_of(st3, fs, vs, (f - 1) as nat) {
                                        Err(e) => Err(e),
                                        Ok((args, st4)) => match eat_of(st4, TokenView::CloseParen) {
                                            Err(e) => Err(e),
                                            Ok(st5) => Ok(
                                                (ExprV { kind: KindV::Call(n, args), type_: ty }, st5),
                                            ),
                                        },
                                    }
                                },
                            },
                        }
                    } else {
                        match lookup_in(vs, n) {
                            None => Err(ParseFault::Undefined("identifier "@ + n)),
                            Some(ty) => Ok((ExprV { kind: KindV::Variable(n), type_: ty }, st2)),
                        }
                    },
                }
            },
        }
    }
}

/// `args ::= [ expr { "," expr } ]`, up to the closing parenthesis.
pub open spec fn args_of(st: TokenState, fs: Table, vs: Table, f: nat) -> Result<
    (Seq<ExprV>, TokenState),
    ParseFault,
>
    decreases f, 5nat,
{
    if stream_work(st) > f {
        Err(ParseFault::OutOfFuel)
    } else {
        let (r, st1) = look(st);
        match r {
            Err(e) => Err(fault_of(e)),
            Ok(t) => if t == TokenView::CloseParen {
                Ok((Seq::empty(), st1))
            } else {
                match expr_of(st1, fs, vs, f) {
                    Err(e) => Err(e),
                    Ok((e, st2)) => more_args_of(st2, fs, vs, f, seq![e]),
                }
            },
        }
    }
}

/// The arguments after the first: each after a comma.
pub open spec fn more_args_of(
    st: TokenState,
    fs: Table,
    vs: Table,
    f: nat,
    acc: Seq<ExprV>,
) -> Result<(Seq<ExprV>, TokenState), ParseFault>
    decreases f, 4nat,
{
    if stream_work(st) > f {
        Err(ParseFault::OutOfFuel)
    } else {
        let (r, st1) = look(st);
        match r {
            Err(e) => Err(fault_of(e)),
            Ok(t) => if t != TokenView::Comma {
                Ok((acc, st1))
            } else {
                match eat_of(st1, TokenView::Comma) {
                    Err(e) => Err(e),
                    Ok(st2) => if f == 0 {
                        Err(ParseFault::OutOfFuel)
                    } else {
                        match expr_of(st2, fs, vs, (f - 1) as nat) {
                            Err(e) => Err(e),
                            Ok((e, st3)) => more_args_of(st3, fs, vs, (f - 1) as nat, acc.push(e)),
                        }
                    },
                }
            },
        }
    }
}

// ---------------------------------------------------------------------------
// The statement and declaration grammar.
/// An expression parsed from the current position.
pub open spec fn expr_here(st: TokenState, fs: Table, vs: Table) -> Result<(ExprV, TokenState), ParseFault> {
    expr_of(st, fs, vs, stream_work(st) as nat)
}

/// Looking `k` tokens ahead without reading.
pub open spec fn look_ahead(st: TokenState, k: nat) -> (Result<TokenView, Error>, TokenState) {
    let (r, p, la) = peek_step(st.s, st.p, st.la, k);
    (r, TokenState { s: st.s, p, la })
}

/// An identifier that names a type.
pub open spec fn type_ident_of(st: TokenState) -> Result<(AuroraType, TokenState), ParseFault> {
    match ident_of(st) {
        Err(e) => Err(e),
        Ok((n, st1)) => match type_named(n) {
            None => Err(ParseFault::Undefined("type"@)),
            Some(t) => Ok((t, st1)),
        },
    }
}

/// `let name [: type] [= expr]`, binding the variable in `vs`. A name
/// already bound, to a variable or to a function, is refused.
#[verifier::opaque]
pub open spec fn let_of(st: TokenState, fs: Table, vs: Table) -> Result<
    (ExprV, TokenState, Table),
    ParseFault,
> {
    match eat_of(st, TokenView::Let) {
        Err(e) => Err(e),
        Ok(st1) => match ident_of(st1) {
            Err(e) => Err(e),
            Ok((n, st2)) => {
                let (r, st3) = look(st2);
                match r {
                    Err(e) => Err(fault_of(e)),
                    Ok(t) => {
                        let ann: Result<(Option<AuroraType>, TokenState), ParseFault> = if t
                            == TokenView::Colon {
                            match eat_of(st3, TokenView::Colon) {
                                Err(e) => Err(e),
                                Ok(st4) => match type_ident_of(st4) {
                                    Err(e) => Err(e),
                                    Ok((ty, st5)) => Ok((Some(ty), st5)),
                                },
                            }
                        } else {
                            Ok((None, st3))
                        };
                        match ann {
                            Err(e) => Err(e),
                            Ok((a, st6)) => {
                                let (r2, st7) = look(st6);
                                match r2 {
                                    Err(e) => Err(fault_of(e)),
                                    Ok(t2) => if t2 == TokenView::Equal {
                                        match eat_of(st7, TokenView::Equal) {
                                            Err(e) => Err(e),
                                            Ok(st8) => match expr_here(st8, fs, vs) {
                                                Err(e) => Err(e),
                                                Ok((v, st9)) => if a is Some && a->Some_0
                                                    != v.type_ {
                                                    Err(
                                                        ParseFault::Plain(
                                                            Error::MismatchedTypes(
                                                                a->Some_0,
                                                                v.type_,
                                                            ),
                                                        ),
                                                    )
                                                } else if lookup_in(vs, n) is Some || lookup_in(
                                                    fs,
                                                    n,
                                                ) is Some {
                                                    Err(ParseFault::Plain(Error::VariableRedef))
                                                } else {
                                                    Ok(
                                                        (
                                                            ExprV {
                                                                kind: KindV::Let(
                                                                    n,
                                                                    Some(Box::new(v)),
                                                                ),
                                                                type_: v.type_,
                                                            },
                                                            st9,
                                                            vs.push((n, v.type_)),
                                                        ),
                                                    )
                                                },
                                            },
                                        }
                                    } else if t2 == TokenView::SemiColon {
                                        if lookup_in(vs, n) is Some || lookup_in(fs, n) is Some {
                                            Err(ParseFault::Plain(Error::VariableRedef))
                                        } else {
                                            match a {
                                                None => Err(ParseFault::Undefined("type"@)),
                                                Some(ty) => Ok(
                                                    (
                                                        ExprV {
                                                            kind: KindV::Let(n, None),
                                                            type_: ty,
                                                        },
                                                        st7,
                                                        vs.push((n, ty)),
                                                    ),
                                                ),
                                            }
                                        }
                                    } else {
                                        Err(ParseFault::Unexpected("token, expecting ';' or '='"@))
                                    },
                                }
                            },
                        }
                    },
                }
            },
        },
    }
}

/// `name = expr`.
#[verifier::opaque]
pub open spec fn assign_of(st: TokenState, fs: Table, vs: Table) -> Result<
    (ExprV, TokenState),
    ParseFault,
> {
    match ident_of(st) {
        Err(e) => Err(e),
        Ok((n, st1)) => match eat_of(st1, TokenView::Equal) {
            Err(e) => Err(e),
            Ok(st2) => match expr_here(st2, fs, vs) {
                Err(e) => Err(e),
                Ok((v, st3)) => Ok(
                    (ExprV { kind: KindV::Assign(n, Box::new(v)), type_: v.type_ }, st3),
                ),
            },
        },
    }
}

/// One statement, without its semicolon: `return [expr]`, a `let`, an
/// assignment (an identifier followed by `=`), or an expression.
#[verifier::opaque]
pub open spec fn stmt_of(st: TokenState, fs: Table, vs: Table) -> Result<
    (ExprV, TokenState, Table),
    ParseFault,
> {
    let (r, st1) = look(st);
    match r {
        Err(e) => Err(fault_of(e)),
        Ok(TokenView::Return) => match eat_of(st1, TokenView::Return) {
            Err(e) => Err(e),
            Ok(st2) => {
                let (r2, st3) = look(st2);
                match r2 {
                    Err(e) => Err(fault_of(e)),
                    Ok(t2) => if t2 == TokenView::SemiColon {
                        Ok(
                            (
                                ExprV { kind: KindV::Return(None), type_: AuroraType::Void },
                                st3,
                                vs,
                            ),
                        )
                    } else {
                        match expr_here(st3, fs, vs) {
                            Err(e) => Err(e),
                            Ok((v, st4)) => Ok(
                                (
                                    ExprV {
                                        kind: KindV::Return(Some(Box::new(v))),
                                        type_: v.type_,
                                    },
                                    st4,
                                    vs,
                                ),
                            ),
                        }
                    },
                }
            },
        },
        Ok(TokenView::Let) => let_of(st1, fs, vs),
        Ok(TokenView::Identifier(_)) => {
            let (r2, st2) = look_ahead(st1, 1);
            match r2 {
                Err(e) => Err(fault_of(e)),
                Ok(t2) => if t2 == TokenView::Equal {
                    match assign_of(st2, fs, vs) {
                        Err(e) => Err(e),
                        Ok((v, st3)) => Ok((v, st3, vs)),
                    }
                } else {
                    match expr_here(st2, fs, vs) {
                        Err(e) => Err(e),
                        Ok((v, st3)) => Ok((v, st3, vs)),
                    }
                },
            }
        },
        Ok(_) => match expr_here(st1, fs, vs) {
            Err(e) => Err(e),
            Ok((v, st2)) => Ok((v, st2, vs)),
        },
    }
}

/// Statements, each followed by a semicolon, up to and with the closing
/// brace.
pub open spec fn stmts_of(st: TokenState, fs: Table, vs: Table, acc: Seq<ExprV>, f: nat) -> Result<
    (Seq<ExprV>, TokenState, Table),
    ParseFault,
>
    decreases f,
{
    if stream_work(st) > f {
        Err(ParseFault::OutOfFuel)
    } else {
        let (r, st1) = look(st);
        match r {
            Err(e) => Err(fault_of(e)),
            Ok(t) => if t == TokenView::CloseBracket {
                match eat_of(st1, TokenView::CloseBracket) {
                    Err(e) => Err(e),
                    Ok(st2) => Ok((acc, st2, vs)),
                }
            } else {
                match stmt_of(st1, fs, vs) {
                    Err(e) => Err(e),
                    Ok((e, st2, vs2)) => match eat_of(st2, TokenView::SemiColon) {
                        Err(x) => Err(x),
                        Ok(st3) => if f == 0 {
                            Err(ParseFault::OutOfFuel)
                        } else {
                            stmts_of(st3, fs, vs2, acc.push(e), (f - 1) as nat)
                        },
                    },
                }
            },
        }
    }
}

/// `{ stmt ; ... }`, carrying the type `ty`.
#[verifier::opaque]
pub open spec fn block_of(st: TokenState, fs: Table, vs: Table, ty: AuroraType) -> Result<
    (ExprV, TokenState, Table),
    ParseFault,
> {
    match eat_of(st, TokenView::OpenBracket) {
        Err(e) => Err(e),
        Ok(st1) => match stmts_of(st1, fs, vs, Seq::empty(), stream_work(st1) as nat) {
            Err(e) => Err(e),
            Ok((es, st2, vs2)) => Ok((ExprV { kind: KindV::Block(es), type_: ty }, st2, vs2)),
        },
    }
}

/// The parameters after the opening parenthesis: `name : type`, separated
/// by commas, up to and with the closing parenthesis. Names are distinct
/// and no type is `void`; a name right after a parameter is a missing
/// comma.
pub open spec fn more_params_of(st: TokenState, acc: Table, f: nat) -> Result<
    (Table, TokenState),
    ParseFault,
>
    decreases f,
{
    if stream_work(st) > f {
        Err(ParseFault::OutOfFuel)
    } else {
        match ident_of(st) {
            Err(e) => Err(e),
            Ok((n, st1)) => match eat_of(st1, TokenView::Colon) {
                Err(e) => Err(e),
                Ok(st2) => match type_ident_of(st2) {
                    Err(e) => Err(e),
                    Ok((ty, st3)) => if ty == AuroraType::Void {
                        Err(ParseFault::Unexpected("parameter of type void"@))
                    } else if exists|i: int| 0 <= i < acc.len() && acc[i].0 == n {
                        Err(ParseFault::Plain(Error::VariableRedef))
                    } else {
                        let acc2 = acc.push((n, ty));
                        let (r, st4) = look(st3);
                        match r {
                            Err(e) => Err(fault_of(e)),
                            Ok(t) => if t == TokenView::Comma {
                                match eat_of(st4, TokenView::Comma) {
                                    Err(e) => Err(e),
                                    Ok(st5) => if f == 0 {
                                        Err(ParseFault::OutOfFuel)
                                    } else {
                                        more_params_of(st5, acc2, (f - 1) as nat)
                                    },
                                }
                            } else if t == TokenView::CloseParen {
                                match eat_of(st4, TokenView::CloseParen) {
                                    Err(e) => Err(e),
                                    Ok(st5) => Ok((acc2, st5)),
                                }
                            } else if t is Identifier {
                                Err(ParseFault::Unexpected("operator, expected ','"@))
                            } else {
                                Err(ParseFault::Unexpected("token"@))
                            },
                        }
                    },
                },
            },
        }
    }
}

/// `( [param {, param}] )`.
#[verifier::opaque]
pub open spec fn params_of(st: TokenState) -> Result<(Table, TokenState), ParseFault> {
    match eat_of(st, TokenView::OpenParen) {
        Err(e) => Err(e),
        Ok(st1) => {
            let (r, st2) = look(st1);
            match r {
                Err(e) => Err(fault_of(e)),
                Ok(t) => if t == TokenView::CloseParen {
                    match eat_of(st2, TokenView::CloseParen) {
                        Err(e) => Err(e),
                        Ok(st3) => Ok((Seq::empty(), st3)),
                    }
                } else {
                    more_params_of(st2, Seq::empty(), stream_work(st2) as nat)
                },
            }
        },
    }
}

/// A prototype as a mathematical value.
pub struct ProtoV {
    pub name: Seq<char>,
    pub params: Table,
    pub ret: AuroraType,
}

/// The view of a parameter list.
pub open spec fn param_names(ps: Seq<Parameter>) -> Table {
    ps.map_values(|p: Parameter| (p.name@, p.type_))
}

/// `p` is the prototype `v`.
pub open spec fn same_proto(p: Prototype, v: ProtoV) -> bool {
    p.function_name@ == v.name && param_names(p.parameters@) == v.params && p.return_type == v.ret
}

/// `name (params) [type]`, declaring the function in `fs`; a name declared
/// before is refused.
#[verifier::opaque]
pub open spec fn prototype_of(st: TokenState, fs: Table) -> Result<
    (ProtoV, TokenState, Table),
    ParseFault,
> {
    match ident_of(st) {
        Err(e) => Err(e),
        Ok((n, st1)) => match params_of(st1) {
            Err(e) => Err(e),
            Ok((ps, st2)) => {
                let (r, st3) = look(st2);
                match r {
                    Err(e) => Err(fault_of(e)),
                    Ok(t) => {
                        let rt: Result<(AuroraType, TokenState), ParseFault> = if t is Identifier {
                            type_ident_of(st3)
                        } else {
                            Ok((AuroraType::Void, st3))
                        };
                        match rt {
                            Err(e) => Err(e),
                            Ok((ret, st4)) => if lookup_in(fs, n) is Some {
                                Err(ParseFault::Plain(Error::FunctionRedef))
                            } else {
                                Ok((ProtoV { name: n, params: ps, ret }, st4, fs.push((n, ret))))
                            },
                        }
                    },
                }
            },
        },
    }
}

/// `fn prototype block`: the body is parsed with the parameters as its
/// variables and typed by the return type.
#[verifier::opaque]
pub open spec fn definition_of(st: TokenState, fs: Table) -> Result<
    (ProtoV, ExprV, TokenState, Table),
    ParseFault,
> {
    match eat_of(st, TokenView::Def) {
        Err(e) => Err(e),
        Ok(st1) => match prototype_of(st1, fs) {
            Err(e) => Err(e),
            Ok((p, st2, fs2)) => match block_of(st2, fs2, p.params, p.ret) {
                Err(e) => Err(e),
                Ok((body, st3, _)) => Ok((p, body, st3, fs2)),
            },
        },
    }
}

/// `extern prototype`.
#[verifier::opaque]
pub open spec fn extern_of(st: TokenState, fs: Table) -> Result<(ProtoV, TokenState, Table), ParseFault> {
    match eat_of(st, TokenView::Extern) {
        Err(e) => Err(e),
        Ok(st1) => prototype_of(st1, fs),
    }
}

/// A recursive-descent parser that types expressions as it builds them. It
/// keeps the return type of every declared function, and the types of the
/// variables of the function being parsed.
pub struct Parser {
    functions: Vec<Symbol>,
    variables: Vec<Symbol>,
    pub lexer: Lexer,
}

impl Parser {
    pub closed spec fn wf(&self) -> bool {
        &&& self.lexer.wf()
        &&& no_any(self.functions@)
        &&& no_any(self.variables@)
    }

    /// The lexer that the parser reads from.
    pub closed spec fn reader(&self) -> Lexer {
        self.lexer
    }

    /// The return type of a declared function.
    pub closed spec fn function_type(&self, name: Seq<char>) -> Option<AuroraType> {
        lookup(self.functions@, name)
    }

    /// The type of a variable of the function being parsed.
    pub closed spec fn variable_type(&self, name: Seq<char>) -> Option<AuroraType> {
        lookup(self.variables@, name)
    }

    /// The function and variable tables are the same in both.
    pub closed spec fn same_tables(&self, other: &Parser) -> bool {
        &&& forall|n: Seq<char>| #[trigger] self.function_type(n) == other.function_type(n)
        &&& forall|n: Seq<char>| #[trigger] self.variable_type(n) == other.variable_type(n)
    }

    /// `next` is a later state of this parser on the same input.
    pub closed spec fn moved_to(&self, next: &Parser) -> bool {
        &&& next.wf()
        &&& next.lexer.input() == self.lexer.input()
        &&& next.lexer.work() <= self.lexer.work()
    }

    /// A parser over `lexer` with no symbols yet.
    pub fn new(lexer: Lexer) -> (r: Parser)
        requires
            lexer.wf(),
        ensures
            r.wf(),
            r.reader() == lexer,
            forall|n: Seq<char>| r.function_type(n) is None && r.variable_type(n) is None,
    {
        Parser { functions: Vec::new(), variables: Vec::new(), lexer }
    }

    /// Parses an expression: a primary expression followed by binary
    /// operators, climbing by precedence. `f` bounds the work left to read.
    fn expr(&mut self, Ghost(f): Ghost<nat>) -> (r: Result<Expr, Error>)
        requires
            old(self).wf(),
            old(self).lexer.work() <= f,
        ensures
            old(self).moved_to(final(self)),
            final(self).functions == old(self).functions,
            final(self).variables == old(self).variables,
            r is Ok ==> typed_under(r->Ok_0, old(self).functions@, old(self).variables@),
            match expr_of(stream_of(old(self).lexer), names(old(self).functions@), names(old(self).variables@), f) {
                Ok((v, st)) => r is Ok && same_expr(r->Ok_0, v) && stream_of(final(self).lexer)
                    == st,
                Err(e) => r is Err && fault_of(r->Err_0) == e,
            },
        decreases f, 3nat,
    {
        proof {
            self.lexer.lemma_peek_then_read();
        }
        let ghost st = stream_of(self.lexer);
        let left = self.primary(Ghost(f))?;
        let ghost lv = primary_of(st, names(self.functions@), names(self.variables@), f)->Ok_0.0;
        self.binary_right(0, left, Ghost(f), Ghost(lv))
    }

    /// Extends `left` with the binary operators that bind at least as tightly
    /// as `expr_precedence`; equal precedence associates to the left.
    fn binary_right(
        &mut self,
        expr_precedence: i32,
        left: Expr,
        Ghost(f): Ghost<nat>,
        Ghost(lv): Ghost<ExprV>,
    ) -> (r: Result<Expr, Error>)
        requires
            old(self).wf(),
            old(self).lexer.work() <= f,
            typed_under(left, old(self).functions@, old(self).variables@),
            same_expr(left, lv),
        ensures
            old(self).moved_to(final(self)),
            final(self).functions == old(self).functions,
            final(self).variables == old(self).variables,
            r is Ok ==> typed_under(r->Ok_0, old(self).functions@, old(self).variables@),
            match binary_right_of(
                stream_of(old(self).lexer),
                names(old(self).functions@),
                names(old(self).variables@),
                f,
                expr_precedence as int,
                lv,
            ) {
                Ok((v, st)) => r is Ok && same_expr(r->Ok_0, v) && stream_of(final(self).lexer)
                    == st,
                Err(e) => r is Err && fault_of(r->Err_0) == e,
            },
        decreases f, 2nat,
    {
        proof {
            self.lexer.lemma_peek_then_read();
        }
        match self.binary_op()? {
            Some(op) => {
                let token_precedence = self.precedence(op)?;
                if token_precedence < expr_precedence {
                    Ok(left)
                } else {
                    proof {
                        self.lexer.lemma_peek_then_read();
                        lemma_token_left(
                            self.lexer.input(),
                            self.lexer.position(),
                            self.lexer.buffered(),
                        );
                    }
                    let _ = self.lexer.next_token()?;
                    let ghost st2 = stream_of(self.lexer);
                    let right = self.primary(Ghost((f - 1) as nat))?;
                    let ghost rv = primary_of(
                        st2,
                        names(self.functions@),
                        names(self.variables@),
                        (f - 1) as nat,
                    )->Ok_0.0;
                    proof {
                        self.lexer.lemma_peek_then_read();
                    }
                    let ghost st4 = stream_of(self.lexer);
                    let ghost mut rv2 = rv;
                    let right = match self.binary_op()? {
                        Some(next_op) => {
                            if token_precedence < self.precedence(next_op)? {
                                let ghost st5 = stream_of(self.lexer);
                                let nested = self.binary_right(
                                    token_precedence + 1,
                                    right,
                                    Ghost((f - 1) as nat),
                                    Ghost(rv),
                                )?;
                                proof {
                                    rv2 = binary_right_of(
                                        st5,
                                        names(self.functions@),
                                        names(self.variables@),
                                        (f - 1) as nat,
                                        token_precedence + 1,
                                        rv,
                                    )->Ok_0.0;
                                }
                                nested
                            } else {
                                right
                            }
                        },
                        None => right,
                    };
                    let type_ = AuroraType::binary_result(left.type_, right.type_);
                    let ghost nv = ExprV {
                        kind: KindV::Binary(op, Box::new(lv), Box::new(rv2)),
                        type_: binary_result(lv.type_, rv2.type_),
                    };
                    let left = Expr {
                        expr_type: ExprType::Binary(op, Box::new(left), Box::new(right)),
                        type_,
                    };
                    self.binary_right(expr_precedence, left, Ghost((f - 1) as nat), Ghost(nv))
                }
            },
            None => Ok(left),
        }
    }

    /// Parses a literal, a parenthesized expression, a variable or a call.
    fn primary(&mut self, Ghost(f): Ghost<nat>) -> (r: Result<Expr, Error>)
        requires
            old(self).wf(),
            old(self).lexer.work() <= f,
        ensures
            old(self).moved_to(final(self)),
            final(self).functions == old(self).functions,
            final(self).variables == old(self).variables,
            r is Ok ==> typed_under(r->Ok_0, old(self).functions@, old(self).variables@),
            match primary_of(
                stream_of(old(self).lexer),
                names(old(self).functions@),
                names(old(self).variables@),
                f,
            ) {
                Ok((v, st)) => r is Ok && same_expr(r->Ok_0, v) && stream_of(final(self).lexer)
                    == st,
                Err(e) => r is Err && fault_of(r->Err_0) == e,
            },
        decreases f, 1nat,
    {
        proof {
            self.lexer.lemma_peek_then_read();
        }
        match self.lexer.peek(0)? {
            Token::Float(x) => {
                let _ = self.lexer.next_token()?;
                Ok(Expr { expr_type: ExprType::Float(x), type_: AuroraType::F64 })
            },
            Token::Integer(i) => {
                let _ = self.lexer.next_token()?;
                Ok(Expr { expr_type: ExprType::Integer(i), type_: AuroraType::I64 })
            },
            Token::OpenParen => {
                self.eat(Token::OpenParen)?;
                let e = self.expr(Ghost((f - 1) as nat))?;
                self.eat(Token::CloseParen)?;
                Ok(e)
            },
            Token::Identifier(_) => self.ident_expr(Ghost(f)),
            _ => Err(Error::Unexpected(text("token when expecting an expression"))),
        }
    }

    /// Parses a variable, typed by the variable table, or a call, typed by
    /// the return type of the function called.
    fn ident_expr(&mut self, Ghost(f): Ghost<nat>) -> (r: Result<Expr, Error>)
        requires
            old(self).wf(),
            old(self).lexer.work() <= f,
        ensures
            old(self).moved_to(final(self)),
            final(self).functions == old(self).functions,
            final(self).variables == old(self).variables,
            r is Ok ==> typed_under(r->Ok_0, old(self).functions@, old(self).variables@),
            match ident_expr_of(
                stream_of(old(self).lexer),
                names(old(self).functions@),
                names(old(self).variables@),
                f,
            ) {
                Ok((v, st)) => r is Ok && same_expr(r->Ok_0, v) && stream_of(final(self).lexer)
                    == st,
                Err(e) => r is Err && fault_of(r->Err_0) == e,
            },
        decreases f, 0nat,
    {
        proof {
            self.lexer.lemma_peek_then_read();
        }
        let name = self.identifier()?;
        proof {
            lemma_lookup_names(self.functions@, name@);
            lemma_lookup_names(self.variables@, name@);
        }
        if self.peek_is(Token::OpenParen)? {
            let type_ = match find(&self.functions, &name) {
                Some(t) => t,
                None => {
                    let mut what = text("identifier ");
                    what.append(name.as_str());
                    return Err(Error::Undefined(what));
                },
            };
            proof {
                lemma_lookup_no_any(self.functions@, name@);
            }
            self.eat(Token::OpenParen)?;
            let ghost st3 = stream_of(self.lexer);
            let args = self.args(Ghost((f - 1) as nat))?;
            self.eat(Token::CloseParen)?;
            Ok(Expr { expr_type: ExprType::Call(name, args), type_ })
        } else {
            match find(&self.variables, &name) {
                Some(type_) => {
                    proof {
                        lemma_lookup_no_any(self.variables@, name@);
                    }
                    Ok(Expr { expr_type: ExprType::Variable(name), type_ })
                },
                None => {
                    let mut what = text("identifier ");
                    what.append(name.as_str());
                    Err(Error::Undefined(what))
                },
            }
        }
    }

    /// Parses the comma-separated arguments of a call, up to the closing
    /// parenthesis.
    fn args(&mut self, Ghost(f): Ghost<nat>) -> (r: Result<Vec<Expr>, Error>)
        requires
            old(self).wf(),
            old(self).lexer.work() <= f,
        ensures
            old(self).moved_to(final(self)),
            final(self).functions == old(self).functions,
            final(self).variables == old(self).variables,
            r is Ok ==> forall|i: int|
                0 <= i < r->Ok_0@.len() ==> typed_under(
                    #[trigger] r->Ok_0@[i],
                    old(self).functions@,
                    old(self).variables@,
                ),
            match args_of(stream_of(old(self).lexer), names(old(self).functions@), names(old(self).variables@), f) {
                Ok((vs, st)) => r is Ok && r->Ok_0@.len() == vs.len() && (forall|i: int|
                    0 <= i < vs.len() ==> same_expr(#[trigger] r->Ok_0@[i], vs[i]))
                    && stream_of(final(self).lexer) == st,
                Err(e) => r is Err && fault_of(r->Err_0) == e,
            },
        decreases f, 5nat,
    {
        proof {
            self.lexer.lemma_peek_then_read();
        }
        let ghost fs = names(self.functions@);
        let ghost vs = names(self.variables@);
        let ghost target = args_of(stream_of(self.lexer), fs, vs, f);
        if self.peek_is(Token::CloseParen)? {
            return Ok(Vec::new());
        }
        let ghost st1 = stream_of(self.lexer);
        let first = self.expr(Ghost(f))?;
        let ghost v1 = expr_of(st1, fs, vs, f)->Ok_0.0;
        let mut args: Vec<Expr> = Vec::new();
        args.push(first);
        let ghost mut acc: Seq<ExprV> = seq![v1];
        let ghost mut g: nat = f;
        loop
            invariant
                old(self).moved_to(self),
                self.functions == old(self).functions,
                self.variables == old(self).variables,
                fs == names(old(self).functions@),
                vs == names(old(self).variables@),
                target == args_of(stream_of(old(self).lexer), fs, vs, f),
                self.lexer.work() <= g,
                g <= f,
                args@.len() == acc.len(),
                forall|i: int| 0 <= i < acc.len() ==> same_expr(#[trigger] args@[i], acc[i]),
                forall|i: int|
                    0 <= i < args@.len() ==> typed_under(
                        #[trigger] args@[i],
                        old(self).functions@,
                        old(self).variables@,
                    ),
                more_args_of(stream_of(self.lexer), fs, vs, g, acc) == target,
            decreases g,
        {
            proof {
                self.lexer.lemma_peek_then_read();
            }
            if !self.peek_is(Token::Comma)? {
                return Ok(args);
            }
            self.eat(Token::Comma)?;
            let ghost st3 = stream_of(self.lexer);
            let e = self.expr(Ghost((g - 1) as nat))?;
            proof {
                acc = acc.push(expr_of(st3, fs, vs, (g - 1) as nat)->Ok_0.0);
                g = (g - 1) as nat;
            }
            args.push(e);
        }
    }

    /// Parses `let name [: type] [= value]`, up to the semicolon, and binds
    /// the variable. With both a type and a value, their types must agree;
    /// with neither, the type cannot be known.
    fn let_(&mut self) -> (r: Result<Expr, Error>)
        requires
            old(self).wf(),
        ensures
            old(self).moved_to(final(self)),
            final(self).functions == old(self).functions,
            r is Ok ==> typed(r->Ok_0),
            r is Ok ==> r->Ok_0.expr_type is Let,
            r is Ok ==> declared(
                old(self).variables@,
                final(self).variables@,
                r->Ok_0.expr_type->Let_0@,
                r->Ok_0.type_,
            ),
            r is Err ==> final(self).variables == old(self).variables,
            match let_of(
                stream_of(old(self).lexer),
                names(old(self).functions@),
                names(old(self).variables@),
            ) {
                Ok((v, st, vs)) => r is Ok && same_expr(r->Ok_0, v) && stream_of(final(self).lexer)
                    == st && names(final(self).variables@) == vs,
                Err(e) => r is Err && fault_of(r->Err_0) == e,
            },
    {
        proof {
            reveal(let_of);
        }
        self.eat(Token::Let)?;
        let name = self.identifier()?;
        proof {
            lemma_lookup_names(self.variables@, name@);
            lemma_lookup_names(self.functions@, name@);
        }
        let annotated = if self.peek_is(Token::Colon)? {
            self.eat(Token::Colon)?;
            Some(self.type_ident()?)
        } else {
            None
        };
        proof {
            self.lexer.lemma_peek_then_read();
        }
        match self.lexer.peek(0)? {
            Token::Equal => {
                self.eat(Token::Equal)?;
                let value = self.expr(Ghost(self.lexer.work()))?;
                if let Some(a) = annotated {
                    if a != value.type_ {
                        return Err(Error::MismatchedTypes(a, value.type_));
                    }
                }
                if find(&self.variables, &name).is_some() || find(&self.functions, &name).is_some() {
                    return Err(Error::VariableRedef);
                }
                let type_ = value.type_;
                self.variables.push(Symbol { name: name.clone(), type_ });
                proof {
                    assert(self.variables@.drop_last() =~= old(self).variables@);
                    assert(names(self.variables@) =~= names(old(self).variables@).push(
                        (name@, type_),
                    ));
                }
                Ok(Expr { expr_type: ExprType::Let(name, Some(Box::new(value))), type_ })
            },
            Token::SemiColon => {
                if find(&self.variables, &name).is_some() || find(&self.functions, &name).is_some() {
                    return Err(Error::VariableRedef);
                }
                match annotated {
                    Some(type_) => {
                        self.variables.push(Symbol { name: name.clone(), type_ });
                        proof {
                            assert(self.variables@.drop_last() =~= old(self).variables@);
                            assert(names(self.variables@) =~= names(old(self).variables@).push(
                                (name@, type_),
                            ));
                        }
                        Ok(Expr { expr_type: ExprType::Let(name, None), type_ })
                    },
                    None => Err(Error::Undefined(text("type"))),
                }
            },
            _ => Err(Error::Unexpected(text("token, expecting ';' or '='"))),
        }
    }

    /// Parses `name = value`.
    fn assign(&mut self) -> (r: Result<Expr, Error>)
        requires
            old(self).wf(),
        ensures
            old(self).moved_to(final(self)),
            final(self).functions == old(self).functions,
            final(self).variables == old(self).variables,
            r is Ok ==> typed(r->Ok_0) && r->Ok_0.expr_type is Assign,
            match assign_of(
                stream_of(old(self).lexer),
                names(old(self).functions@),
                names(old(self).variables@),
            ) {
                Ok((v, st)) => r is Ok && same_expr(r->Ok_0, v) && stream_of(final(self).lexer)
                    == st,
                Err(e) => r is Err && fault_of(r->Err_0) == e,
            },
    {
        proof {
            reveal(assign_of);
        }
        let name = self.identifier()?;
        self.eat(Token::Equal)?;
        let value = self.expr(Ghost(self.lexer.work()))?;
        let type_ = value.type_;
        Ok(Expr { expr_type: ExprType::Assign(name, Box::new(value)), type_ })
    }

    /// Parses one statement, without its semicolon.
    fn stmt(&mut self) -> (r: Result<Expr, Error>)
        requires
            old(self).wf(),
        ensures
            old(self).moved_to(final(self)),
            final(self).functions == old(self).functions,
            r is Ok ==> typed(r->Ok_0),
            match stmt_of(
                stream_of(old(self).lexer),
                names(old(self).functions@),
                names(old(self).variables@),
            ) {
                Ok((v, st, vs)) => r is Ok && same_expr(r->Ok_0, v) && stream_of(final(self).lexer)
                    == st && names(final(self).variables@) == vs,
                Err(e) => r is Err && fault_of(r->Err_0) == e,
            },
    {
        proof {
            reveal(stmt_of);
        }
        proof {
            self.lexer.lemma_peek_then_read();
        }
        match self.lexer.peek(0)? {
            Token::Return => {
                self.eat(Token::Return)?;
                if self.peek_is(Token::SemiColon)? {
                    Ok(Expr { expr_type: ExprType::Return(None), type_: AuroraType::Void })
                } else {
                    let value = self.expr(Ghost(self.lexer.work()))?;
                    let value_type = value.type_;
                    Ok(
                        Expr {
                            expr_type: ExprType::Return(Some(Box::new(value))),
                            type_: value_type,
                        },
                    )
                }
            },
            Token::Let => self.let_(),
            Token::Identifier(_) => {
                let second = self.lexer.peek(1)?;
                if second.same(&Token::Equal) {
                    self.assign()
                } else {
                    self.expr(Ghost(self.lexer.work()))
                }
            },
            _ => self.expr(Ghost(self.lexer.work())),
        }
    }

    /// Parses a block of statements, each ended by a semicolon. The block
    /// carries `type_`, the return type of the function it is the body of.
    fn block(&mut self, type_: AuroraType) -> (r: Result<Expr, Error>)
        requires
            old(self).wf(),
            type_ != AuroraType::Any,
        ensures
            old(self).moved_to(final(self)),
            final(self).functions == old(self).functions,
            r is Ok ==> typed(r->Ok_0),
            r is Ok ==> r->Ok_0.expr_type is Block && r->Ok_0.type_ == type_,
            match block_of(
                stream_of(old(self).lexer),
                names(old(self).functions@),
                names(old(self).variables@),
                type_,
            ) {
                Ok((v, st, vs)) => r is Ok && same_expr(r->Ok_0, v) && stream_of(final(self).lexer)
                    == st && names(final(self).variables@) == vs,
                Err(e) => r is Err && fault_of(r->Err_0) == e,
            },
    {
        proof {
            reveal(block_of);
        }
        self.eat(Token::OpenBracket)?;
        let ghost fs = names(self.functions@);
        let ghost target = stmts_of(
            stream_of(self.lexer),
            fs,
            names(self.variables@),
            Seq::empty(),
            self.lexer.work(),
        );
        let mut exprs: Vec<Expr> = Vec::new();
        let ghost mut acc: Seq<ExprV> = Seq::empty();
        let ghost mut g: nat = self.lexer.work();
        loop
            invariant
                old(self).moved_to(self),
                self.functions == old(self).functions,
                fs == names(old(self).functions@),
                type_ != AuroraType::Any,
                self.lexer.work() <= g,
                exprs@.len() == acc.len(),
                forall|i: int| 0 <= i < acc.len() ==> same_expr(#[trigger] exprs@[i], acc[i]),
                forall|i: int| 0 <= i < exprs@.len() ==> typed(#[trigger] exprs@[i]),
                stmts_of(stream_of(self.lexer), fs, names(self.variables@), acc, g) == target,
                match block_of(
                    stream_of(old(self).lexer),
                    names(old(self).functions@),
                    names(old(self).variables@),
                    type_,
                ) {
                    Ok((v, st, vs)) => target is Ok && v == (ExprV {
                        kind: KindV::Block(target->Ok_0.0),
                        type_,
                    }) && st == target->Ok_0.1 && vs == target->Ok_0.2,
                    Err(e) => target is Err && target->Err_0 == e,
                },
            decreases g,
        {
            proof {
                self.lexer.lemma_peek_then_read();
            }
            if self.peek_is(Token::CloseBracket)? {
                self.eat(Token::CloseBracket)?;
                let ghost ev = exprs@;
                let result = Expr { expr_type: ExprType::Block(exprs), type_ };
                proof {
                    assert(result.expr_type->Block_0@ == ev);
                    assert forall|i: int|
                        0 <= i < result.expr_type->Block_0@.len() implies typed(
                        #[trigger] result.expr_type->Block_0@[i],
                    ) by {
                        assert(typed(ev[i]));
                    }
                    assert(typed(result));
                }
                return Ok(result);
            }
            let ghost st1 = stream_of(self.lexer);
            let ghost vs1 = names(self.variables@);
            let e = self.stmt()?;
            proof {
                self.lexer.lemma_peek_then_read();
            }
            self.eat(Token::SemiColon)?;
            proof {
                acc = acc.push(stmt_of(st1, fs, vs1)->Ok_0.0);
                g = (g - 1) as nat;
            }
            exprs.push(e);
        }
    }

    /// Parses `( [name : type {, name : type}] )`. Names are distinct and no
    /// parameter is of type `void`.
    fn parameters(&mut self) -> (r: Result<Vec<Parameter>, Error>)
        requires
            old(self).wf(),
        ensures
            old(self).moved_to(final(self)),
            final(self).functions == old(self).functions,
            final(self).variables == old(self).variables,
            r is Ok ==> params_ok(r->Ok_0@),
            match params_of(stream_of(old(self).lexer)) {
                Ok((ps, st)) => r is Ok && param_names(r->Ok_0@) == ps && stream_of(
                    final(self).lexer,
                ) == st,
                Err(e) => r is Err && fault_of(r->Err_0) == e,
            },
    {
        proof {
            reveal(params_of);
        }
        self.eat(Token::OpenParen)?;
        let mut params: Vec<Parameter> = Vec::new();
        if self.peek_is(Token::CloseParen)? {
            self.eat(Token::CloseParen)?;
            proof {
                assert(param_names(params@) =~= Seq::<(Seq<char>, AuroraType)>::empty());
            }
            return Ok(params);
        }
        let ghost target = more_params_of(
            stream_of(self.lexer),
            Seq::empty(),
            self.lexer.work(),
        );
        let ghost mut g: nat = self.lexer.work();
        proof {
            assert(param_names(params@) =~= Seq::<(Seq<char>, AuroraType)>::empty());
        }
        loop
            invariant
                old(self).moved_to(self),
                self.functions == old(self).functions,
                self.variables == old(self).variables,
                params_ok(params@),
                self.lexer.work() <= g,
                more_params_of(stream_of(self.lexer), param_names(params@), g) == target,
                match params_of(stream_of(old(self).lexer)) {
                    Ok((ps, st)) => target == Ok::<(Table, TokenState), ParseFault>((ps, st)),
                    Err(e) => target == Err::<(Table, TokenState), ParseFault>(e),
                },
            decreases g,
        {
            let name = self.identifier()?;
            self.eat(Token::Colon)?;
            let type_ = self.type_ident()?;
            if type_ == AuroraType::Void {
                return Err(Error::Unexpected(text("parameter of type void")));
            }
            if has_param(&params, &name) {
                proof {
                    let i = choose|i: int| 0 <= i < params@.len() && params@[i].name@ == name@;
                    assert(param_names(params@)[i].0 == name@);
                }
                return Err(Error::VariableRedef);
            }
            proof {
                if exists|i: int|
                    0 <= i < param_names(params@).len() && param_names(params@)[i].0 == name@ {
                    let i = choose|i: int|
                        0 <= i < param_names(params@).len() && param_names(params@)[i].0 == name@;
                    assert(params@[i].name@ == name@);
                }
            }
            let ghost before = param_names(params@);
            params.push(Parameter { name, type_ });
            proof {
                assert(param_names(params@) =~= before.push((name@, type_)));
                self.lexer.lemma_peek_then_read();
            }
            let next = self.lexer.peek(0)?;
            match next {
                Token::Comma => {
                    self.eat(Token::Comma)?;
                    proof {
                        g = (g - 1) as nat;
                    }
                },
                Token::CloseParen => {
                    self.eat(Token::CloseParen)?;
                    return Ok(params);
                },
                Token::Identifier(_) => {
                    return Err(Error::Unexpected(text("operator, expected ','")));
                },
                _ => {
                    return Err(Error::Unexpected(text("token")));
                },
            }
        }
    }

    /// Parses `name (parameters) [type]` and declares the function; a name
    /// declared before is refused.
    fn prototype(&mut self) -> (r: Result<Prototype, Error>)
        requires
            old(self).wf(),
        ensures
            old(self).moved_to(final(self)),
            final(self).variables == old(self).variables,
            r is Ok ==> params_ok(r->Ok_0.parameters@),
            r is Ok ==> r->Ok_0.return_type != AuroraType::Any,
            r is Ok ==> lookup(old(self).functions@, r->Ok_0.function_name@) is None,
            r is Ok ==> declared(
                old(self).functions@,
                final(self).functions@,
                r->Ok_0.function_name@,
                r->Ok_0.return_type,
            ),
            r is Err ==> final(self).functions == old(self).functions,
            match prototype_of(stream_of(old(self).lexer), names(old(self).functions@)) {
                Ok((pv, st, fs)) => r is Ok && same_proto(r->Ok_0, pv) && stream_of(
                    final(self).lexer,
                ) == st && names(final(self).functions@) == fs,
                Err(e) => r is Err && fault_of(r->Err_0) == e,
            },
    {
        proof {
            reveal(prototype_of);
        }
        let function_name = self.identifier()?;
        proof {
            lemma_lookup_names(self.functions@, function_name@);
        }
        let parameters = self.parameters()?;
        proof {
            self.lexer.lemma_peek_then_read();
        }
        let return_type = match self.lexer.peek(0)? {
            Token::Identifier(_) => self.type_ident()?,
            _ => AuroraType::Void,
        };
        if find(&self.functions, &function_name).is_some() {
            return Err(Error::FunctionRedef);
        }
        self.functions.push(Symbol { name: function_name.clone(), type_: return_type });
        proof {
            assert(self.functions@.drop_last() =~= old(self).functions@);
            assert(names(self.functions@) =~= names(old(self).functions@).push(
                (function_name@, return_type),
            ));
        }
        Ok(Prototype { function_name, parameters, return_type })
    }

    /// The function table as names and return types.
    pub closed spec fn function_table(&self) -> Table {
        names(self.functions@)
    }

    /// Parses `fn prototype block`. The parameters are in scope in the body
    /// and the body is typed by the declared return type; the variables are
    /// dropped when the body ends.
    pub fn definition(&mut self) -> (r: Result<Function, Error>)
        requires
            old(self).wf(),
        ensures
            old(self).moved_to(final(self)),
            r is Ok ==> typed(r->Ok_0.body),
            r is Ok ==> r->Ok_0.body.expr_type is Block,
            r is Ok ==> r->Ok_0.body.type_ == r->Ok_0.prototype.return_type,
            r is Ok ==> params_ok(r->Ok_0.prototype.parameters@),
            r is Ok ==> old(self).function_type(r->Ok_0.prototype.function_name@) is None,
            r is Ok ==> forall|n: Seq<char>| #[trigger]
                final(self).function_type(n) == if n == r->Ok_0.prototype.function_name@ {
                    Some(r->Ok_0.prototype.return_type)
                } else {
                    old(self).function_type(n)
                },
            r is Ok ==> forall|n: Seq<char>| #[trigger] final(self).variable_type(n) is None,
            match definition_of(stream_of(old(self).reader()), old(self).function_table()) {
                Ok((pv, body, st, fs)) => r is Ok && same_proto(r->Ok_0.prototype, pv) && same_expr(
                    r->Ok_0.body,
                    body,
                ) && stream_of(final(self).reader()) == st && final(self).function_table() == fs,
                Err(e) => r is Err && fault_of(r->Err_0) == e,
            },
    {
        proof {
            reveal(definition_of);
        }
        let ghost st0 = stream_of(self.lexer);
        let ghost fs0 = names(self.functions@);
        self.eat(Token::Def)?;
        let ghost st1 = stream_of(self.lexer);
        assert(eat_of(st0, TokenView::Def) == Ok::<TokenState, ParseFault>(st1));
        let prototype = self.prototype()?;
        let ghost pres = prototype_of(st1, fs0);
        assert(pres is Ok);
        let ghost pv = pres->Ok_0.0;
        let ghost st2 = pres->Ok_0.1;
        let ghost fs2 = pres->Ok_0.2;
        let ghost funcs = self.functions@;
        let ghost lex2 = self.lexer;
        self.variables = Vec::new();
        let mut i: usize = 0;
        proof {
            assert(names(self.variables@) =~= param_names(prototype.parameters@.subrange(0, 0)));
        }
        while i < prototype.parameters.len()
            invariant
                old(self).moved_to(self),
                self.functions@ == funcs,
                self.lexer == lex2,
                declared(
                    old(self).functions@,
                    funcs,
                    prototype.function_name@,
                    prototype.return_type,
                ),
                i <= prototype.parameters@.len(),
                params_ok(prototype.parameters@),
                names(self.variables@) == param_names(prototype.parameters@.subrange(0, i as int)),
            decreases prototype.parameters@.len() - i,
        {
            let p = &prototype.parameters[i];
            let ghost before = names(self.variables@);
            self.variables.push(Symbol { name: p.name.clone(), type_: p.type_ });
            proof {
                assert(names(self.variables@) =~= before.push((p.name@, p.type_)));
                assert(param_names(prototype.parameters@.subrange(0, i + 1)) =~= param_names(
                    prototype.parameters@.subrange(0, i as int),
                ).push((p.name@, p.type_)));
            }
            i = i + 1;
        }
        proof {
            assert(prototype.parameters@.subrange(0, i as int) =~= prototype.parameters@);
        }
        assert(names(self.variables@) == pv.params);
        assert(stream_of(self.lexer) == st2);
        assert(names(self.functions@) == fs2);
        let body = self.block(prototype.return_type);
        let ghost bres = block_of(st2, fs2, pv.params, pv.ret);
        assert(definition_of(st0, fs0) == match bres {
            Err(e) => Err(e),
            Ok((b, st3, _)) => Ok((pv, b, st3, fs2)),
        });
        self.variables = Vec::new();
        let body = body?;
        proof {
            assert forall|n: Seq<char>| #[trigger]
                lookup(self.functions@, n) == if n == prototype.function_name@ {
                    Some(prototype.return_type)
                } else {
                    lookup(old(self).functions@, n)
                } by {
                lemma_lookup_push(old(self).functions@, self.functions@.last(), n);
                assert(old(self).functions@.push(self.functions@.last()) =~= self.functions@);
            }
        }
        Ok(Function { prototype, body })
    }

    /// Parses `extern prototype` and declares the function.
    pub fn extern_(&mut self) -> (r: Result<Prototype, Error>)
        requires
            old(self).wf(),
        ensures
            old(self).moved_to(final(self)),
            r is Ok ==> params_ok(r->Ok_0.parameters@),
            r is Ok ==> old(self).function_type(r->Ok_0.function_name@) is None,
            r is Ok ==> forall|n: Seq<char>| #[trigger]
                final(self).function_type(n) == if n == r->Ok_0.function_name@ {
                    Some(r->Ok_0.return_type)
                } else {
                    old(self).function_type(n)
                },
            match extern_of(stream_of(old(self).reader()), old(self).function_table()) {
                Ok((pv, st, fs)) => r is Ok && same_proto(r->Ok_0, pv) && stream_of(
                    final(self).reader(),
                ) == st && final(self).function_table() == fs,
                Err(e) => r is Err && fault_of(r->Err_0) == e,
            },
    {
        proof {
            reveal(extern_of);
        }
        self.eat(Token::Extern)?;
        let prototype = self.prototype()?;
        proof {
            assert forall|n: Seq<char>| #[trigger]
                lookup(self.functions@, n) == if n == prototype.function_name@ {
                    Some(prototype.return_type)
                } else {
                    lookup(old(self).functions@, n)
                } by {
                lemma_lookup_push(old(self).functions@, self.functions@.last(), n);
                assert(old(self).functions@.push(self.functions@.last()) =~= self.functions@);
            }
        }
        Ok(prototype)
    }

    /// Reads the next token, which must be `token`.
    fn eat(&mut self, token: Token) -> (r: Result<(), Error>)
        requires
            old(self).wf(),
        ensures
            old(self).moved_to(final(self)),
            final(self).same_tables(old(self)),
            final(self).functions == old(self).functions,
            final(self).variables == old(self).variables,
            final(self).lexer.position() == old(self).lexer.next_view().1,
            final(self).lexer.buffered() == old(self).lexer.next_view().2,
            r is Ok <==> old(self).lexer.next_view().0 == Ok::<TokenView, Error>(token@),
            r is Ok && token@ != TokenView::Eof ==> final(self).lexer.work() < old(self).lexer.work(),
            match eat_of(stream_of(old(self).lexer), token@) {
                Ok(st) => r is Ok && stream_of(final(self).lexer) == st,
                Err(e) => r is Err && fault_of(r->Err_0) == e,
            },
    {
        let current = self.lexer.next_token()?;
        if !current.same(&token) {
            return Err(Error::UnexpectedToken(token, current));
        }
        Ok(())
    }

    /// Whether the next token is `token`, without reading it.
    fn peek_is(&mut self, token: Token) -> (r: Result<bool, Error>)
        requires
            old(self).wf(),
        ensures
            old(self).moved_to(final(self)),
            final(self).functions == old(self).functions,
            final(self).variables == old(self).variables,
            r is Ok ==> (r->Ok_0 <==> old(self).lexer.peek_view(0).0 == Ok::<TokenView, Error>(
                token@,
            )),
            r is Ok ==> final(self).lexer.next_view().0 == old(self).lexer.peek_view(0).0,
            stream_of(final(self).lexer) == look(stream_of(old(self).lexer)).1,
            match look(stream_of(old(self).lexer)).0 {
                Ok(t) => r == Ok::<bool, Error>(t == token@),
                Err(e) => r is Err && fault_of(r->Err_0) == fault_of(e),
            },
    {
        proof {
            self.lexer.lemma_peek_then_read();
        }
        let t = self.lexer.peek(0)?;
        Ok(t.same(&token))
    }

    /// Reads an identifier.
    fn identifier(&mut self) -> (r: Result<String, Error>)
        requires
            old(self).wf(),
        ensures
            old(self).moved_to(final(self)),
            final(self).functions == old(self).functions,
            final(self).variables == old(self).variables,
            r is Ok <==> old(self).lexer.next_view().0 matches Ok(TokenView::Identifier(_)),
            r is Ok ==> old(self).lexer.next_view().0 == Ok::<TokenView, Error>(
                TokenView::Identifier(r->Ok_0@),
            ),
            r is Ok ==> final(self).lexer.work() < old(self).lexer.work(),
            match ident_of(stream_of(old(self).lexer)) {
                Ok((n, st)) => r is Ok && r->Ok_0@ == n && stream_of(final(self).lexer) == st,
                Err(e) => r is Err && fault_of(r->Err_0) == e,
            },
    {
        match self.lexer.next_token()? {
            Token::Identifier(identifier) => Ok(identifier),
            _ => Err(Error::Unexpected(text("token, expecting identifier"))),
        }
    }

    /// Reads an identifier that names a type.
    fn type_ident(&mut self) -> (r: Result<AuroraType, Error>)
        requires
            old(self).wf(),
        ensures
            old(self).moved_to(final(self)),
            final(self).functions == old(self).functions,
            final(self).variables == old(self).variables,
            r is Ok <==> (next_ident(old(self).lexer) is Some && type_named(
                next_ident(old(self).lexer)->Some_0,
            ) is Some),
            r is Ok ==> type_named(next_ident(old(self).lexer)->Some_0) == Some(r->Ok_0),
            r is Ok ==> r->Ok_0 != AuroraType::Any,
            next_ident(old(self).lexer) is Some && type_named(next_ident(old(self).lexer)->Some_0)
                is None ==> r is Err && undefined(r->Err_0, seq!['t', 'y', 'p', 'e']),
            match type_ident_of(stream_of(old(self).lexer)) {
                Ok((ty, st)) => r == Ok::<AuroraType, Error>(ty) && stream_of(final(self).lexer)
                    == st,
                Err(e) => r is Err && fault_of(r->Err_0) == e,
            },
    {
        let name = self.identifier()?;
        match AuroraType::from_string(&name) {
            Some(t) => Ok(t),
            None => {
                let what = text("type");
                proof {
                    reveal_strlit("type");
                    assert(what@ =~= seq!['t', 'y', 'p', 'e']);
                }
                Err(Error::Undefined(what))
            },
        }
    }

    /// The binding power of a binary operator.
    fn precedence(&self, op: BinaryOp) -> (r: Result<i32, Error>)
        ensures
            match precedence_of(op) {
                Some(p) => r == Ok::<i32, Error>(p as i32),
                None => r == Err::<i32, Error>(Error::Undefined(r->Err_0->Undefined_0)) && r->Err_0->Undefined_0@ == "operator"@,
            },
    {
        match op {
            BinaryOp::LessThan => Ok(10),
            BinaryOp::Plus | BinaryOp::Minus => Ok(20),
            BinaryOp::Times => Ok(40),
            BinaryOp::Equal => Err(Error::Undefined(text("operator"))),
        }
    }

    /// The binary operator that the next token stands for, without reading it.
    fn binary_op(&mut self) -> (r: Result<Option<BinaryOp>, Error>)
        requires
            old(self).wf(),
        ensures
            old(self).moved_to(final(self)),
            final(self).functions == old(self).functions,
            final(self).variables == old(self).variables,
            r is Ok ==> old(self).lexer.peek_view(0).0 is Ok && r->Ok_0 == operator_of(
                old(self).lexer.peek_view(0).0->Ok_0,
            ),
            r is Ok ==> final(self).lexer.next_view().0 == old(self).lexer.peek_view(0).0,
            stream_of(final(self).lexer) == look(stream_of(old(self).lexer)).1,
            match look(stream_of(old(self).lexer)).0 {
                Ok(t) => r == Ok::<Option<BinaryOp>, Error>(operator_of(t)),
                Err(e) => r is Err && fault_of(r->Err_0) == fault_of(e),
            },
    {
        proof {
            self.lexer.lemma_peek_then_read();
        }
        let op = match self.lexer.peek(0)? {
            Token::LessThan => BinaryOp::LessThan,
            Token::Minus => BinaryOp::Minus,
            Token::Plus => BinaryOp::Plus,
            Token::Star => BinaryOp::Times,
            _ => return Ok(None),
        };
        Ok(Some(op))
    }
}

} // verus!
