use matheval_core::arith::Operation;
use matheval_core::ast::{BinaryOp, Expr, UnaryOp};
use matheval_core::bytecode::{Builtin, OpCode, Program};
use matheval_core::compiler::{combine, Compiler};
use matheval_core::error::ErrorKind;
use matheval_core::lexer::Lexer;
use matheval_core::parser::Parser;
use matheval_core::vm::call_builtin;

/// The arithmetic of the machine's doubles, on their bits.
fn unit(op: Operation) -> u64 {
    match op {
        Operation::Parse(text) => text.parse::<f64>().unwrap().to_bits(),
        Operation::Binary(op, a, b) => {
            let (a, b) = (f64::from_bits(a), f64::from_bits(b));
            let r = match op {
                BinaryOp::Add => a + b,
                BinaryOp::Sub => a - b,
                BinaryOp::Mul => a * b,
                BinaryOp::Div => a / b,
                BinaryOp::Pow => a.powf(b),
            };
            r.to_bits()
        }
        Operation::Call(f, args) => {
            let x = |i: usize| f64::from_bits(args[i]);
            let r = match f {
                Builtin::Sin => x(0).sin(),
                Builtin::Cos => x(0).cos(),
                Builtin::Tan => x(0).tan(),
                Builtin::Sqrt => x(0).sqrt(),
                Builtin::Abs => x(0).abs(),
                Builtin::Floor => x(0).floor(),
                Builtin::Ceil => x(0).ceil(),
                Builtin::Round => x(0).round(),
                Builtin::Exp => x(0).exp(),
                Builtin::Ln => x(0).ln(),
                Builtin::Log10 => x(0).log10(),
                Builtin::Max => args
                    .iter()
                    .fold(f64::NEG_INFINITY, |a, &b| a.max(f64::from_bits(b))),
                Builtin::Min => args
                    .iter()
                    .fold(f64::INFINITY, |a, &b| a.min(f64::from_bits(b))),
                Builtin::Unknown => f64::NAN,
            };
            r.to_bits()
        }
    }
}

fn bits(x: f64) -> u64 {
    x.to_bits()
}

fn double(b: u64) -> f64 {
    f64::from_bits(b)
}

fn compile_expr(input: &str) -> Program {
    let lexer = Lexer::new(input);
    let mut parser = Parser::new(lexer, &unit).unwrap();
    let ast = parser.parse(&unit).unwrap();
    Compiler::new().compile(ast, &unit).unwrap()
}

fn num(x: f64) -> Expr {
    Expr::Number(bits(x))
}

fn var(name: &str) -> Expr {
    Expr::Variable(name.to_string())
}

fn binary(op: BinaryOp, left: Expr, right: Expr) -> Expr {
    Expr::Binary { op, left: Box::new(left), right: Box::new(right) }
}

fn neg(e: Expr) -> Expr {
    Expr::Unary { op: UnaryOp::Neg, expr: Box::new(e) }
}

fn optimized(e: Expr) -> Expr {
    Compiler::new().optimize_expr(e, &unit)
}

#[test]
fn test_constant_folding_arithmetic() {
    let compiler = Compiler::new();

    // 2 + 3 should fold to 5
    let expr = Expr::Binary {
        op: BinaryOp::Add,
        left: Box::new(Expr::Number(bits(2.0))),
        right: Box::new(Expr::Number(bits(3.0))),
    };
    let optimized = compiler.optimize_expr(expr, &unit);
    assert_eq!(optimized, Expr::Number(bits(5.0)));
}

#[test]
fn test_constant_folding_multiply_zero() {
    let compiler = Compiler::new();

    // x * 0 should fold to 0
    let expr = Expr::Binary {
        op: BinaryOp::Mul,
        left: Box::new(Expr::Variable("x".to_string())),
        right: Box::new(Expr::Number(bits(0.0))),
    };
    let optimized = compiler.optimize_expr(expr, &unit);
    assert_eq!(optimized, Expr::Number(bits(0.0)));
}

#[test]
fn test_constant_folding_multiply_one() {
    let compiler = Compiler::new();

    // x * 1 should fold to x
    let expr = Expr::Binary {
        op: BinaryOp::Mul,
        left: Box::new(Expr::Variable("x".to_string())),
        right: Box::new(Expr::Number(bits(1.0))),
    };
    let optimized = compiler.optimize_expr(expr, &unit);
    assert_eq!(optimized, Expr::Variable("x".to_string()));
}

#[test]
fn test_constant_folding_power() {
    let compiler = Compiler::new();

    // 2 ^ 3 should fold to 8
    let expr = Expr::Binary {
        op: BinaryOp::Pow,
        left: Box::new(Expr::Number(bits(2.0))),
        right: Box::new(Expr::Number(bits(3.0))),
    };
    let optimized = compiler.optimize_expr(expr, &unit);
    assert_eq!(optimized, Expr::Number(bits(8.0)));
}

#[test]
fn test_constant_folding_negation() {
    let compiler = Compiler::new();

    // -5 should fold to -5
    let expr = Expr::Unary {
        op: UnaryOp::Neg,
        expr: Box::new(Expr::Number(bits(5.0))),
    };
    let optimized = compiler.optimize_expr(expr, &unit);
    assert_eq!(optimized, Expr::Number(bits(-5.0)));
}

#[test]
fn test_constant_reuse() {
    // Use a case where constants won't be folded
    let program = compile_expr("x + 1 + y + 1");
    // Should reuse constant 1.0
    assert_eq!(program.constants.len(), 1);
    assert_eq!(program.constants[0], bits(1.0));
}

#[test]
fn test_variable_resolution() {
    let program = compile_expr("x + y + x");
    assert_eq!(program.var_names.len(), 2);
    assert!(program.var_names.contains(&"x".to_string()));
    assert!(program.var_names.contains(&"y".to_string()));
}

#[test]
fn test_function_registration() {
    let program = compile_expr("sin(x) + cos(y)");
    assert_eq!(program.func_names.len(), 2);
    assert_eq!(program.func_table.len(), 2);
}

#[test]
fn test_builtin_functions() {
    let call = |f: Builtin, args: &[f64]| {
        let raw: Vec<u64> = args.iter().map(|x| x.to_bits()).collect();
        double(call_builtin(f, &raw, &unit))
    };
    assert_eq!(call(Builtin::Sin, &[0.0]), 0.0);
    assert!((call(Builtin::Cos, &[0.0]) - 1.0).abs() < 1e-10);
    assert_eq!(call(Builtin::Sqrt, &[4.0]), 2.0);
    assert_eq!(call(Builtin::Abs, &[-5.0]), 5.0);
    assert_eq!(call(Builtin::Max, &[1.0, 5.0, 3.0]), 5.0);
    assert_eq!(call(Builtin::Min, &[1.0, 5.0, 3.0]), 1.0);
}

#[test]
fn test_compact_bytecode_generation() {
    let program = compile_expr("2 + 3");
    // Should generate compact bytecode
    assert!(program.instructions.len() > 0);
    assert_eq!(program.instructions[0], OpCode::LoadConst as u8);
}

#[test]
fn test_algebraic_optimization_add_zero() {
    let compiler = Compiler::new();
    let expr = Expr::Binary {
        op: BinaryOp::Add,
        left: Box::new(Expr::Variable("x".to_string())),
        right: Box::new(Expr::Number(bits(0.0))),
    };
    let optimized = compiler.optimize_expr(expr, &unit);
    assert_eq!(optimized, Expr::Variable("x".to_string()));
}

#[test]
fn test_division_by_zero_not_folded() {
    let compiler = Compiler::new();
    let expr = Expr::Binary {
        op: BinaryOp::Div,
        left: Box::new(Expr::Number(bits(1.0))),
        right: Box::new(Expr::Number(bits(0.0))),
    };
    let optimized = compiler.optimize_expr(expr, &unit);
    // Should not fold division by zero
    assert!(matches!(optimized, Expr::Binary { .. }));
}

#[test]
fn test_unknown_function_yields_nan_without_asking_the_unit() {
    fn refusing(_: Operation) -> u64 {
        panic!("the unit is not to be asked")
    }
    let r = call_builtin(Builtin::Unknown, &[bits(1.0)], &refusing);
    assert_eq!(r, 0x7FF8_0000_0000_0000);
    assert!(double(r).is_nan());
}

#[test]
fn test_every_identity() {
    let x = || var("x");
    let zero = || num(0.0);
    let one = || num(1.0);
    assert_eq!(optimized(binary(BinaryOp::Add, x(), zero())), x());
    assert_eq!(optimized(binary(BinaryOp::Add, zero(), x())), x());
    assert_eq!(optimized(binary(BinaryOp::Sub, x(), zero())), x());
    assert_eq!(optimized(binary(BinaryOp::Mul, x(), zero())), zero());
    assert_eq!(optimized(binary(BinaryOp::Mul, zero(), x())), zero());
    assert_eq!(optimized(binary(BinaryOp::Mul, x(), one())), x());
    assert_eq!(optimized(binary(BinaryOp::Mul, one(), x())), x());
    assert_eq!(optimized(binary(BinaryOp::Div, x(), one())), x());
    assert_eq!(optimized(binary(BinaryOp::Pow, x(), zero())), one());
    assert_eq!(optimized(binary(BinaryOp::Pow, x(), one())), x());
}

#[test]
fn test_identities_that_do_not_apply() {
    let x = || var("x");
    let zero = || num(0.0);
    let one = || num(1.0);
    let kept = |op: BinaryOp, l: Expr, r: Expr| {
        assert_eq!(optimized(binary(op, l.clone(), r.clone())), binary(op, l, r));
    };
    kept(BinaryOp::Sub, zero(), x());
    kept(BinaryOp::Div, one(), x());
    kept(BinaryOp::Div, zero(), x());
    kept(BinaryOp::Div, x(), zero());
    kept(BinaryOp::Pow, one(), x());
    kept(BinaryOp::Pow, zero(), x());
    kept(BinaryOp::Add, x(), one());
    kept(BinaryOp::Add, x(), var("y"));
}

#[test]
fn test_negative_zero_is_zero_to_the_identities() {
    let x = || var("x");
    let minus_zero = || num(-0.0);
    assert_eq!(optimized(binary(BinaryOp::Add, x(), minus_zero())), x());
    assert_eq!(optimized(binary(BinaryOp::Sub, x(), minus_zero())), x());
    // the product is written as +0.0
    assert_eq!(optimized(binary(BinaryOp::Mul, x(), minus_zero())), num(0.0));
    assert_eq!(optimized(binary(BinaryOp::Pow, x(), minus_zero())), num(1.0));
    // a division by either zero is kept
    assert_eq!(
        optimized(binary(BinaryOp::Div, num(1.0), minus_zero())),
        binary(BinaryOp::Div, num(1.0), minus_zero())
    );
    // -(0) folds to -0.0, sign flipped
    assert_eq!(optimized(neg(num(0.0))), Expr::Number(0x8000_0000_0000_0000));
}

#[test]
fn test_folding_reaches_the_parent() {
    // (1 + -1) * x: the sum folds to zero, which makes the product zero
    let e = binary(
        BinaryOp::Mul,
        binary(BinaryOp::Add, num(1.0), neg(num(1.0))),
        var("x"),
    );
    assert_eq!(optimized(e), num(0.0));
    // 2 * 3 + 4 / 8 - 2 ^ 0.5
    let e = binary(
        BinaryOp::Sub,
        binary(
            BinaryOp::Add,
            binary(BinaryOp::Mul, num(2.0), num(3.0)),
            binary(BinaryOp::Div, num(4.0), num(8.0)),
        ),
        binary(BinaryOp::Pow, num(2.0), num(0.5)),
    );
    assert_eq!(optimized(e), num(6.5 - 2.0f64.powf(0.5)));
    // -(x) is kept, and a call's arguments are rewritten, not its name
    let e = Expr::Call {
        func: "sqrt".to_string(),
        args: vec![binary(BinaryOp::Add, num(1.0), num(3.0)), neg(var("y"))],
    };
    assert_eq!(
        optimized(e),
        Expr::Call { func: "sqrt".to_string(), args: vec![num(4.0), neg(var("y"))] }
    );
}

#[test]
fn test_combine_and_apply_binary() {
    assert_eq!(combine(BinaryOp::Add, num(1.5), num(2.0), &unit), num(3.5));
    assert_eq!(combine(BinaryOp::Sub, num(1.5), num(2.0), &unit), num(-0.5));
    assert_eq!(combine(BinaryOp::Mul, num(1.5), num(2.0), &unit), num(3.0));
    assert_eq!(combine(BinaryOp::Div, num(1.5), num(2.0), &unit), num(0.75));
    assert_eq!(combine(BinaryOp::Pow, num(1.5), num(2.0), &unit), num(2.25));
    assert_eq!(combine(BinaryOp::Mul, var("x"), var("x"), &unit), binary(BinaryOp::Mul, var("x"), var("x")));
}

#[test]
fn test_exact_instruction_stream() {
    let program = compile_expr("max(S - K, 0) * discount");
    assert_eq!(program.var_names, vec!["S", "K", "discount"]);
    assert_eq!(program.constants, vec![bits(0.0)]);
    assert_eq!(program.func_names, vec!["max"]);
    assert_eq!(program.func_table, vec![Builtin::Max]);
    assert_eq!(program.func_metadata.len(), 1);
    assert_eq!(program.func_metadata[0].expected_args, None);
    assert_eq!(
        program.instructions,
        vec![
            1, 0, 0, // LoadVar S
            1, 0, 1, // LoadVar K
            3, // Sub
            0, 0, 0, // LoadConst 0.0
            8, 0, 0, 2, // Call max, 2 arguments
            1, 0, 2, // LoadVar discount
            4, // Mul
        ]
    );
    assert!(program.validate());
}

#[test]
fn test_pools_hold_first_occurrences() {
    let program = compile_expr("b + a * b + sin(a) + cos(c) + sin(b) + 2 + 3 * c + 2");
    assert_eq!(program.var_names, vec!["b", "a", "c"]);
    assert_eq!(program.func_names, vec!["sin", "cos"]);
    assert_eq!(program.func_table, vec![Builtin::Sin, Builtin::Cos]);
    assert_eq!(program.func_metadata[0].expected_args, Some(1));
    assert_eq!(program.constants, vec![bits(2.0), bits(3.0)]);
    // the name of a call is recorded after the names within its arguments
    let program = compile_expr("f(g(x), h(y))");
    assert_eq!(program.func_names, vec!["g", "h", "f"]);
    assert_eq!(
        program.func_table,
        vec![Builtin::Unknown, Builtin::Unknown, Builtin::Unknown]
    );
}

#[test]
fn test_constants_are_told_apart_by_their_bits() {
    // x + 0.5 + (y - -0.5): 0.5 and -0.5 differ
    let program = compile_expr("x + 0.5 + y * -0.5 + z / 0.5");
    assert_eq!(program.constants, vec![bits(0.5), bits(-0.5)]);
    let mut compiler = Compiler::new();
    assert_eq!(compiler.add_constant(bits(0.0)).unwrap(), 0);
    assert_eq!(compiler.add_constant(bits(-0.0)).unwrap(), 1);
    assert_eq!(compiler.add_constant(bits(0.0)).unwrap(), 0);
    assert_eq!(compiler.add_constant(bits(f64::NAN)).unwrap(), 2);
    assert_eq!(compiler.add_constant(bits(f64::NAN)).unwrap(), 2);
    assert_eq!(compiler.program.constants.len(), 3);
}

#[test]
fn test_compiling_twice_gives_the_same_program() {
    let source = "max(S - K, 0) * discount + sin(x) ^ 2 / (1 - y)";
    let first = compile_expr(source);
    let second = compile_expr(source);
    assert_eq!(first.instructions, second.instructions);
    assert_eq!(first.constants, second.constants);
    assert_eq!(first.var_names, second.var_names);
    assert_eq!(first.func_names, second.func_names);
    assert_eq!(first.func_table, second.func_table);
}

#[test]
fn test_sixteen_bit_operands_are_big_endian() {
    let mut compiler = Compiler::new();
    compiler.emit_u16(0x1234);
    compiler.emit_load_const(258);
    compiler.emit_load_var(65535);
    compiler.emit_call(513, 7);
    compiler.emit_binop(BinaryOp::Pow);
    compiler.emit_unop(UnaryOp::Neg);
    assert_eq!(
        compiler.program.instructions,
        vec![0x12, 0x34, 0, 1, 2, 1, 255, 255, 8, 2, 1, 7, 6, 7]
    );
}

#[test]
fn test_pool_overflow_is_an_error() {
    let mut compiler = Compiler::new();
    for i in 0..65536u64 {
        assert_eq!(compiler.add_constant(i).unwrap() as u64, i);
    }
    // a known constant is still found
    assert_eq!(compiler.add_constant(65535).unwrap(), 65535);
    let err = compiler.add_constant(65536).unwrap_err();
    assert_eq!(err.kind, ErrorKind::PoolOverflow);
    assert!(err.position.is_none());
    assert_eq!(compiler.program.constants.len(), 65536);
    let err = compiler.compile_expr(Expr::Number(70000)).unwrap_err();
    assert_eq!(err.kind, ErrorKind::PoolOverflow);
}

#[test]
fn test_too_many_arguments_is_an_error() {
    let call = |n: usize| Expr::Call {
        func: "max".to_string(),
        args: (0..n).map(|_| var("x")).collect(),
    };
    let program = Compiler::new().compile(call(255), &unit).unwrap();
    assert_eq!(program.instructions.len(), 255 * 3 + 4);
    assert_eq!(program.instructions[255 * 3..], [8, 0, 0, 255]);
    let err = Compiler::new().compile(call(256), &unit).unwrap_err();
    assert_eq!(err.kind, ErrorKind::TooManyArguments(256));
    assert_eq!(
        err.to_string(),
        "Error: Too many arguments in function call: 256 (at most 255)"
    );
}

#[test]
fn test_resolve_names() {
    let mut compiler = Compiler::new();
    assert_eq!(compiler.resolve_var("x".to_string()).unwrap(), 0);
    assert_eq!(compiler.resolve_var("y".to_string()).unwrap(), 1);
    assert_eq!(compiler.resolve_var("x".to_string()).unwrap(), 0);
    assert_eq!(compiler.resolve_func("ln".to_string()).unwrap(), 0);
    assert_eq!(compiler.resolve_func("x".to_string()).unwrap(), 1);
    assert_eq!(compiler.resolve_func("ln".to_string()).unwrap(), 0);
    assert_eq!(compiler.program.var_names, vec!["x", "y"]);
    assert_eq!(compiler.program.func_names, vec!["ln", "x"]);
    assert_eq!(compiler.program.func_table, vec![Builtin::Ln, Builtin::Unknown]);
}
