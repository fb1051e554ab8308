use laspa::FnTable;
use laspa::codegen::CodegenError;
use laspa::codegen::Compiler;
use laspa::codegen::GenValue;
use laspa::codegen::Inst;
use laspa::codegen::verify_func;
use laspa::codegen::verify_module;
use laspa::lex;
use laspa::parse;

fn compile(src: &str) -> Result<Compiler, CodegenError> {
    let stmts = lex(src);
    let mut functions = FnTable::new();
    let nodes = parse(&stmts, &mut functions).unwrap();
    let mut compiler = Compiler::new();
    compiler.codegen(nodes)?;
    Ok(compiler)
}

#[test]
fn codegen_simple_sum() {
    let compiler = compile("+ 1 2").unwrap();
    assert_eq!(compiler.module.funcs.len(), 1);
    assert_eq!(compiler.module.funcs[0].name, "main");
    assert_eq!(compiler.module.funcs[0].n_params, 0);
    assert!(verify_module(&compiler.module));
}

#[test]
fn codegen_bind_and_variables() {
    let compiler = compile("let x 10; + x 2").unwrap();
    let main = &compiler.module.funcs[0];
    assert!(main.insts.iter().any(|i| matches!(i, Inst::Alloca)));
    assert!(main.insts.iter().any(|i| matches!(i, Inst::Load(_))));
    assert!(verify_module(&compiler.module));
}

#[test]
fn codegen_while_builds_three_blocks() {
    let compiler = compile("let x 0; while < x 3\n:= x + x 1;\nend\nreturn x").unwrap();
    // entry, loop condition, loop body, loop end
    assert_eq!(compiler.module.funcs[0].blocks.len(), 4);
    assert!(verify_module(&compiler.module));
}

#[test]
fn codegen_function_and_call() {
    let compiler = compile("fn sum (x y)\nreturn + x y;\nend\nreturn sum (10 2)").unwrap();
    assert_eq!(compiler.module.funcs.len(), 2);
    assert_eq!(compiler.module.funcs[1].name, "sum");
    assert_eq!(compiler.module.funcs[1].n_params, 2);
    assert!(verify_func(&compiler.module.funcs[1], &compiler.module));
    assert!(verify_module(&compiler.module));
}

#[test]
fn codegen_rejects_comparison_as_result() {
    match compile("return > 1 2") {
        Err(e) => assert_eq!(e, CodegenError::ExpectedFloat),
        Ok(_) => panic!("expected a failure"),
    }
}

#[test]
fn codegen_rejects_float_condition() {
    match compile("while 1\nend\nreturn 0") {
        Err(e) => assert_eq!(e, CodegenError::ExpectedInt),
        Ok(_) => panic!("expected a failure"),
    }
}

#[test]
fn codegen_rejects_undefined_variable() {
    match compile("return y") {
        Err(e) => assert_eq!(e, CodegenError::UndefinedVariable),
        Ok(_) => panic!("expected a failure"),
    }
}

#[test]
fn codegen_function_without_return_fails_verification() {
    match compile("fn f (x)\n+ x 1;\nend\nreturn 0") {
        Err(e) => assert_eq!(e, CodegenError::InvalidFunction),
        Ok(_) => panic!("expected a failure"),
    }
}

#[test]
fn codegen_rejects_unknown_callee() {
    let nodes = vec![laspa::Node::FnCallExpr(laspa::FnCallExpr {
        name: "missing".to_string(),
        args: vec![],
    })];
    let mut compiler = Compiler::new();
    assert_eq!(compiler.codegen(nodes), Err(CodegenError::UndefinedFunction));
}

#[test]
fn codegen_rejects_numeric_parameter() {
    match compile("fn f (1)\nreturn 0;\nend\nreturn 0") {
        Err(e) => assert_eq!(e, CodegenError::InvalidParameter),
        Ok(_) => panic!("expected a failure"),
    }
}

#[test]
fn gen_value_kinds() {
    let v = GenValue::Float(3);
    assert_eq!(v.as_float(), Some(3));
    assert_eq!(v.as_int(), None);
    let w = GenValue::Int(7);
    assert_eq!(w.as_int(), Some(7));
    assert_eq!(w.as_float(), None);
}

#[test]
fn object_names_derive_from_content() {
    let a = laspa::aot::object_file_name("module one");
    let b = laspa::aot::object_file_name("module one");
    let c = laspa::aot::object_file_name("module two");
    assert_eq!(a, b);
    assert_ne!(a, c);
    assert!(a.starts_with("output-"));
    assert!(a.ends_with(".o"));
}

#[test]
fn compute_hash_is_deterministic() {
    assert_eq!(laspa::aot::compute_hash("abc"), laspa::aot::compute_hash("abc"));
}
