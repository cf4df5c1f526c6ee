use std::collections::HashMap;
use std::str::FromStr;

use aurora::gen::Generator;
use aurora::ir::{FuncDecl, Inst, IrFunction, Linkage};
use aurora::lexer::{Lexer, Token};
use aurora::parser::Parser;
use aurora::typing::MachType;

use cranelift::codegen::ir::condcodes::{FloatCC, IntCC};
use cranelift::codegen::ir::{types, AbiParam, InstBuilder, Type, Value};
use cranelift::codegen::{isa, settings};
use cranelift::frontend::{FunctionBuilder, FunctionBuilderContext, Variable};
use cranelift_module::{default_libcall_names, FuncId, Module};
use cranelift_object::{ObjectBuilder, ObjectModule};
use target_lexicon::Triple;

fn object_module() -> ObjectModule {
    let flags = settings::Flags::new(settings::builder());
    let triple = Triple::from_str("x86_64-unknown-linux-gnu").unwrap();
    let isa = isa::lookup(triple).unwrap().finish(flags).unwrap();
    ObjectModule::new(ObjectBuilder::new(isa, "program", default_libcall_names()).unwrap())
}

fn generate(src: &str) -> Generator {
    let mut parser = Parser::new(Lexer::new(src.as_bytes().to_vec()));
    let mut generator = Generator::new();
    generator.init_essential_lib().unwrap();
    loop {
        match parser.lexer.peek(0).unwrap() {
            Token::Eof => break,
            Token::SemiColon => {
                parser.lexer.next_token().unwrap();
            }
            Token::Extern => {
                let p = parser.extern_().unwrap();
                generator.prototype(&p, Linkage::Import).unwrap();
            }
            _ => {
                let f = parser.definition().unwrap();
                generator.function(f).unwrap();
            }
        }
    }
    generator
}

fn clif_type(t: MachType) -> Type {
    match t {
        MachType::I8 => types::I8,
        MachType::I16 => types::I16,
        MachType::I32 => types::I32,
        MachType::I64 => types::I64,
        MachType::F32 => types::F32,
        MachType::F64 => types::F64,
    }
}

fn declare_all(module: &mut ObjectModule, decls: &[FuncDecl]) -> Vec<FuncId> {
    decls
        .iter()
        .map(|d| {
            let mut sig = module.make_signature();
            for p in &d.params {
                sig.params.push(AbiParam::new(clif_type(*p)));
            }
            if let Some(r) = d.result {
                sig.returns.push(AbiParam::new(clif_type(r)));
            }
            let linkage = match d.linkage {
                Linkage::Export => cranelift_module::Linkage::Export,
                Linkage::Import => cranelift_module::Linkage::Import,
            };
            module.declare_function(&d.name, linkage, &sig).unwrap()
        })
        .collect()
}

/// Hands one IR body to the Cranelift builder, instruction by instruction.
fn build_body(b: &mut FunctionBuilder, module: &mut ObjectModule, ids: &[FuncId], body: &IrFunction) {
    let entry = b.create_block();
    b.append_block_params_for_function_params(entry);
    b.switch_to_block(entry);
    b.seal_block(entry);
    let params = b.block_params(entry).to_vec();
    let mut values: Vec<Option<Value>> = Vec::new();
    let mut vars: HashMap<usize, Variable> = HashMap::new();
    for inst in &body.insts {
        let v = |k: usize| values[k].unwrap();
        let r = match inst {
            Inst::Param(k) => Some(params[*k]),
            Inst::Iconst(t, n) => Some(b.ins().iconst(clif_type(*t), *n)),
            Inst::Fconst(MachType::F32, s) => Some(b.ins().f32const(f32::from_str(s).unwrap())),
            Inst::Fconst(_, s) => Some(b.ins().f64const(f64::from_str(s).unwrap())),
            Inst::Fpromote(a) => Some(b.ins().fpromote(types::F64, v(*a))),
            Inst::Iadd(x, y) => Some(b.ins().iadd(v(*x), v(*y))),
            Inst::Isub(x, y) => Some(b.ins().isub(v(*x), v(*y))),
            Inst::Imul(x, y) => Some(b.ins().imul(v(*x), v(*y))),
            Inst::Fadd(x, y) => Some(b.ins().fadd(v(*x), v(*y))),
            Inst::Fsub(x, y) => Some(b.ins().fsub(v(*x), v(*y))),
            Inst::Fmul(x, y) => Some(b.ins().fmul(v(*x), v(*y))),
            Inst::FcmpLessThan(x, y) => Some(b.ins().fcmp(FloatCC::LessThan, v(*x), v(*y))),
            Inst::IcmpEqual(x, y) => Some(b.ins().icmp(IntCC::Equal, v(*x), v(*y))),
            Inst::FcmpEqual(x, y) => Some(b.ins().fcmp(FloatCC::Equal, v(*x), v(*y))),
            Inst::FcvtFromSint(t, x) => Some(b.ins().fcvt_from_sint(clif_type(*t), v(*x))),
            Inst::Call(f, args) => {
                let args: Vec<Value> = args.iter().map(|a| v(*a)).collect();
                let local = module.declare_func_in_func(ids[*f], b.func);
                let call = b.ins().call(local, &args);
                b.inst_results(call).first().copied()
            }
            Inst::DeclareVar(var, t) => {
                vars.insert(*var, b.declare_var(clif_type(*t)));
                None
            }
            Inst::DefVar(var, x) => {
                b.try_def_var(vars[var], v(*x)).unwrap();
                None
            }
            Inst::UseVar(var) => Some(b.try_use_var(vars[var]).unwrap()),
            Inst::Return(x) => {
                match x {
                    Some(x) => b.ins().return_(&[v(*x)]),
                    None => b.ins().return_(&[]),
                };
                None
            }
        };
        values.push(r);
    }
}

fn define(module: &mut ObjectModule, ids: &Vec<FuncId>, body: &IrFunction) -> Result<(), String> {
    let id = ids[body.id];
    let mut context = module.make_context();
    context.func.signature = module.declarations().get_function_decl(id).signature.clone();
    let mut fbc = FunctionBuilderContext::new();
    let mut builder = FunctionBuilder::new(&mut context.func, &mut fbc);
    build_body(&mut builder, module, ids, body);
    builder.finalize();
    module.define_function(id, &mut context).map_err(|e| format!("{:?}", e))?;
    module.clear_context(&mut context);
    Ok(())
}

fn emit_all(g: &Generator) -> Vec<u8> {
    let mut module = object_module();
    let ids = declare_all(&mut module, g.declarations());
    assert_eq!(ids.len(), g.declarations().len());
    for body in g.bodies() {
        define(&mut module, &ids, body).unwrap();
    }
    module.finish().emit().unwrap()
}

#[test]
fn accepted_programs_pass_the_backend_verifier() {
    let programs = [
        "fn add(a: i64, b: i64) i64 { return a + b; }",
        "fn id(x: i32) i32 { let y = x; return y; }",
        "fn h(a: f64, b: i32) f64 { return a * b - a; }",
        "extern putfloatd(x: f64); fn main() { putfloatd(1.5 + 2.); return; }",
        "fn f(n: i64) i64 { let m = n * 2; m = m + 1; return f(m); }",
        "fn g(a: f32, b: f32) f32 { return (a - b) * a; }",
        "fn mix(a: f32, b: f64) f64 { return a + b; }",
        "fn h(a: f64, b: i32) f64 { return a + b; }",
    ];
    for src in programs {
        let bytes = emit_all(&generate(src));
        assert!(bytes.len() > 0, "{}", src);
    }
}

#[test]
fn cast_library_passes_the_backend_verifier() {
    let mut g = Generator::new();
    g.init_essential_lib().unwrap();
    assert!(!emit_all(&g).is_empty());
}

