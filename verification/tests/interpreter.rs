use laspa::CompileConfig;
use laspa::FnCallExpr;
use laspa::FnTable;
use laspa::Interpreter;
use laspa::LangError;
use laspa::Node;
use laspa::RuntimeError;
use laspa::Scope;
use laspa::eval;
use laspa::lex;
use laspa::parse;

fn bits(x: f64) -> u64 {
    x.to_bits()
}

#[test]
fn eval_expr() {
    let stmts = lex("return + * -2 3 - 2 3.5");
    let mut functions = FnTable::new();
    let nodes = parse(&stmts, &mut functions).unwrap();
    let mut globals = Scope::new();
    let mut run_table = FnTable::new();
    let mut output: Vec<u64> = Vec::new();
    let r = eval(&nodes, &mut globals, &mut run_table, &mut output, 1_000_000);
    assert_eq!(r, Ok(bits(-7.5)));
}

#[test]
fn interpret() {
    let config = CompileConfig::from(true, false);
    assert_eq!(
        Interpreter::from_source("+ * -2 3 - 2 3.5", &config),
        Ok(bits(-7.5))
    );
}

#[test]
fn define_variable() {
    let config = CompileConfig::from(true, false);
    assert_eq!(
        Interpreter::from_source(
            r#"
             let x 1
         "#,
            &config
        ),
        Ok(bits(1.0))
    );
}

#[test]
fn variable_arithmetic() {
    let config = CompileConfig::from(true, false);
    assert_eq!(
        Interpreter::from_source(
            "let x 2;
         let y 1;
         + x y;",
            &config
        ),
        Ok(bits(3.0))
    );
}

#[test]
fn variable_arithmetic_complex() {
    let config = CompileConfig::from(true, false);
    assert_eq!(
        Interpreter::from_source(
            "let x 2;
         let y 1;
         let z + x * y 2;
         z;",
            &config
        ),
        Ok(bits(4.0))
    );
}

#[test]
fn return_only() {
    let config = CompileConfig::from(true, false);
    assert_eq!(
        Interpreter::from_source("+ 2 3;return 1;", &config),
        Ok(bits(1.0))
    );
}

#[test]
fn while_loop() {
    let config = CompileConfig::from(true, false);
    assert_eq!(
        Interpreter::from_source(
            r#"
         let x 0;
         // let y 0;

         while < x 1000
             let i 0;
             while < i 100
                 := x + x 1;
                 := i + i 1;
             end
         end

         return + x i;
         "#,
            &config
        ),
        Ok(bits(1100.0))
    );
}

#[test]
fn if_else() {
    let config = CompileConfig::from(true, false);
    assert_eq!(
        Interpreter::from_source(
            r#"
         let x 0;
         if < x 1
             return 1;
         else
             return 2;
         end
         "#,
            &config
        ),
        Ok(bits(1.0))
    );
}

#[test]
fn if_else_swapped_comparison() {
    let config = CompileConfig::from(true, false);
    assert_eq!(
        Interpreter::from_source(
            r#"
         let x 0;
         if > x 1
             return 1;
         else
             return 2;
         end
         "#,
            &config
        ),
        Ok(bits(2.0))
    );
}

#[test]
fn only_if() {
    let config = CompileConfig::from(true, false);
    assert_eq!(
        Interpreter::from_source(
            r#"
                 let x 10;
                 let y 2

                 if < x y
                     return y
                 end

                 return x
         "#,
            &config
        ),
        Ok(bits(10.0))
    );
}

#[test]
fn function_call() {
    let config = CompileConfig::from(true, false);
    assert_eq!(
        Interpreter::from_source(
            r#"
                 fn sum (x y)
                     return + x y;
                 end

                 let i 10;
                 let d 2;

                 let z sum (i d);

                 return z
         "#,
            &config
        ),
        Ok(bits(12.0))
    );
}

#[test]
fn collatz_conjecture() {
    let config = CompileConfig::from(true, false);
    assert_eq!(
        Interpreter::from_source(
            r#"
                 fn collatz (n)
                     while > n 1
                         if == % n 2 0
                             := n / n 2
                         else
                             := n + * 3 n 1
                         end
                         print n
                     end
                     return n
                 end

                 return collatz (123)
         "#,
            &config
        ),
        Ok(bits(1.0))
    );
}

#[test]
fn empty_program_evaluates_to_zero() {
    let config = CompileConfig::from(true, false);
    assert_eq!(Interpreter::from_source("", &config), Ok(bits(0.0)));
}

#[test]
fn comment_only_evaluates_to_zero() {
    let config = CompileConfig::from(true, false);
    assert_eq!(
        Interpreter::from_source("// nothing here", &config),
        Ok(bits(0.0))
    );
}

#[test]
fn comparison_result_is_one_or_zero() {
    let config = CompileConfig::from(true, false);
    assert_eq!(Interpreter::from_source("+ > 3 2 1", &config), Ok(bits(2.0)));
    assert_eq!(Interpreter::from_source("+ < 3 2 1", &config), Ok(bits(1.0)));
    assert_eq!(Interpreter::from_source("== 2 2", &config), Ok(bits(1.0)));
}

#[test]
fn division_follows_ieee() {
    let config = CompileConfig::from(true, false);
    assert_eq!(
        Interpreter::from_source("/ 1 0", &config),
        Ok(bits(f64::INFINITY))
    );
    assert_eq!(Interpreter::from_source("/ 7 2", &config), Ok(bits(3.5)));
}

#[test]
fn modulo_is_fmod() {
    let config = CompileConfig::from(true, false);
    assert_eq!(Interpreter::from_source("% 7 3", &config), Ok(bits(1.0)));
    assert_eq!(Interpreter::from_source("% 7.5 2", &config), Ok(bits(1.5)));
}

#[test]
fn subtraction_and_negative_literals() {
    let config = CompileConfig::from(true, false);
    assert_eq!(Interpreter::from_source("- 2 3.5", &config), Ok(bits(-1.5)));
    assert_eq!(Interpreter::from_source("* -2 3", &config), Ok(bits(-6.0)));
}

#[test]
fn undefined_variable_is_reported() {
    let config = CompileConfig::from(true, false);
    assert_eq!(
        Interpreter::from_source("y", &config),
        Err(LangError::Runtime(RuntimeError::UndefinedVariable(
            "y".to_string()
        )))
    );
}

#[test]
fn mutate_unbound_variable_is_reported() {
    let config = CompileConfig::from(true, false);
    assert_eq!(
        Interpreter::from_source(":= x 1", &config),
        Err(LangError::Runtime(RuntimeError::UndefinedVariable(
            "x".to_string()
        )))
    );
}

#[test]
fn undefined_function_is_reported() {
    let nodes = vec![Node::FnCallExpr(FnCallExpr {
        name: "missing".to_string(),
        args: vec![],
    })];
    let mut globals = Scope::new();
    let mut functions = FnTable::new();
    let mut output: Vec<u64> = Vec::new();
    let r = eval(&nodes, &mut globals, &mut functions, &mut output, 1000);
    assert_eq!(
        r,
        Err(RuntimeError::UndefinedFunction("missing".to_string()))
    );
}

#[test]
fn invalid_parameter_is_reported() {
    let config = CompileConfig::from(true, false);
    assert_eq!(
        Interpreter::from_source("fn f (1)\nend\nf (2)", &config),
        Err(LangError::Runtime(RuntimeError::InvalidParameter))
    );
}

#[test]
fn endless_loop_exhausts_the_budget() {
    let stmts = lex("while == 1 1\nend");
    let mut functions = FnTable::new();
    let nodes = parse(&stmts, &mut functions).unwrap();
    let mut globals = Scope::new();
    let mut run_table = FnTable::new();
    let mut output: Vec<u64> = Vec::new();
    let r = eval(&nodes, &mut globals, &mut run_table, &mut output, 10);
    assert_eq!(r, Err(RuntimeError::OutOfSteps));
}

#[test]
fn print_collects_output() {
    let stmts = lex("print 5; print + 1 2");
    let mut functions = FnTable::new();
    let nodes = parse(&stmts, &mut functions).unwrap();
    let mut globals = Scope::new();
    let mut run_table = FnTable::new();
    let mut output: Vec<u64> = Vec::new();
    let r = eval(&nodes, &mut globals, &mut run_table, &mut output, 1000);
    assert_eq!(r, Ok(bits(0.0)));
    assert_eq!(output, vec![bits(5.0), bits(3.0)]);
}

#[test]
fn repeated_runs_agree() {
    let config = CompileConfig::from(true, false);
    let src = "let x 2; let y 3; return * x y";
    let a = Interpreter::from_source(src, &config);
    let b = Interpreter::from_source(src, &config);
    assert_eq!(a, b);
    assert_eq!(a, Ok(bits(6.0)));
}

#[test]
fn later_return_wins() {
    let config = CompileConfig::from(true, false);
    assert_eq!(
        Interpreter::from_source("return 1; return 2", &config),
        Ok(bits(2.0))
    );
}

#[test]
fn parse_failure_is_reported() {
    let config = CompileConfig::from(true, false);
    assert_eq!(
        Interpreter::from_source("+ 1", &config),
        Err(LangError::Parse(laspa::ParseError::MissingOperand))
    );
}
