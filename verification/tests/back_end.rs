use danskc::checker::{literal_value, CheckedExpression, Checker, LiteralFault, Type};
use danskc::codegen::{generate, generate_into, CellPool};
use danskc::common::{Error, Span};
use danskc::lexer::tokenize;
use danskc::parser::{parse, ParsedExpression};
use danskc::pipeline::{compile, compile_and_run};
use danskc::vm::{Instruction, RunOutcome, RuntimeError, MEMORY_SIZE, VM};

fn binary(op: fn(usize, usize) -> Instruction, x: i8, y: i8) -> i8 {
    let mut vm = VM::new();
    assert_eq!(vm.run_instruction(Instruction::MovValue(0, x)), Ok(()));
    assert_eq!(vm.run_instruction(Instruction::MovValue(1, y)), Ok(()));
    assert_eq!(vm.run_instruction(op(0, 1)), Ok(()));
    assert_eq!(vm.pc(), 3);
    assert_eq!(vm.read(1), Some(y));
    vm.read(0).unwrap()
}

fn checked_of(source: &str) -> Result<CheckedExpression, Vec<Error>> {
    let (tokens, _) = tokenize(0, source.as_bytes());
    let (tree, _) = parse(0, tokens);
    Checker::check(tree)
}

#[test]
fn vm_starts_zeroed() {
    let vm = VM::new();
    assert_eq!(vm.pc(), 0);
    assert_eq!(vm.read(0), Some(0));
    assert_eq!(vm.read(MEMORY_SIZE - 1), Some(0));
    assert_eq!(vm.read(MEMORY_SIZE), None);
}

#[test]
fn vm_mov_and_mov_value() {
    let mut vm = VM::new();
    assert_eq!(vm.run_instruction(Instruction::MovValue(5, -7)), Ok(()));
    assert_eq!(vm.run_instruction(Instruction::Mov(9, 5)), Ok(()));
    assert_eq!(vm.read(9), Some(-7));
    assert_eq!(vm.read(5), Some(-7));
    assert_eq!(vm.pc(), 2);
}

#[test]
fn vm_arithmetic_wraps_around() {
    assert_eq!(binary(Instruction::Add, 2, 3), 5);
    assert_eq!(binary(Instruction::Add, 127, 1), -128);
    assert_eq!(binary(Instruction::Add, -128, -1), 127);
    assert_eq!(binary(Instruction::Sub, -128, 1), 127);
    assert_eq!(binary(Instruction::Sub, 5, 7), -2);
    assert_eq!(binary(Instruction::Mul, 16, 16), 0);
    assert_eq!(binary(Instruction::Mul, -128, -128), 0);
    assert_eq!(binary(Instruction::Mul, 127, 127), 1);
    assert_eq!(binary(Instruction::Mul, -3, 5), -15);
}

#[test]
fn vm_division_rounds_toward_zero() {
    assert_eq!(binary(Instruction::Div, 7, 2), 3);
    assert_eq!(binary(Instruction::Div, -7, 2), -3);
    assert_eq!(binary(Instruction::Div, 7, -2), -3);
    assert_eq!(binary(Instruction::Div, -7, -2), 3);
    assert_eq!(binary(Instruction::Div, -128, -1), -128);
    assert_eq!(binary(Instruction::Mod, 7, 2), 1);
    assert_eq!(binary(Instruction::Mod, -7, 2), -1);
    assert_eq!(binary(Instruction::Mod, 7, -2), 1);
    assert_eq!(binary(Instruction::Mod, -128, -1), 0);
}

#[test]
fn vm_bitwise_operations() {
    assert_eq!(binary(Instruction::And, 0b0110, 0b0011), 0b0010);
    assert_eq!(binary(Instruction::Or, 0b0110, 0b0011), 0b0111);
    assert_eq!(binary(Instruction::Xor, 0b0110, 0b0011), 0b0101);
    assert_eq!(binary(Instruction::And, -1, 85), 85);
    let mut vm = VM::new();
    assert_eq!(vm.run_instruction(Instruction::Not(3)), Ok(()));
    assert_eq!(vm.read(3), Some(-1));
    assert_eq!(vm.run_instruction(Instruction::MovValue(3, 5)), Ok(()));
    assert_eq!(vm.run_instruction(Instruction::Not(3)), Ok(()));
    assert_eq!(vm.read(3), Some(-6));
}

#[test]
fn vm_comparisons_write_one_or_zero() {
    assert_eq!(binary(Instruction::Cmp, 4, 4), 1);
    assert_eq!(binary(Instruction::Cmp, 4, 5), 0);
    assert_eq!(binary(Instruction::Lt, -1, 0), 1);
    assert_eq!(binary(Instruction::Lt, 3, 3), 0);
    assert_eq!(binary(Instruction::Gt, 3, -3), 1);
    assert_eq!(binary(Instruction::Gt, -3, 3), 0);
}

#[test]
fn vm_shifts() {
    assert_eq!(binary(Instruction::ShiftLeft, 1, 7), -128);
    assert_eq!(binary(Instruction::ShiftLeft, 3, 2), 12);
    assert_eq!(binary(Instruction::ShiftLeft, 3, 9), 6);
    assert_eq!(binary(Instruction::ShiftLeft, 65, 2), 4);
    assert_eq!(binary(Instruction::ShiftRight, -8, 1), -4);
    assert_eq!(binary(Instruction::ShiftRight, -1, 3), -1);
    assert_eq!(binary(Instruction::ShiftRight, 100, 2), 25);
    assert_eq!(binary(Instruction::ShiftRight, 64, -1), 0);
    assert_eq!(binary(Instruction::ShiftRight, 5, 0), 5);
}

#[test]
fn vm_jumps_set_the_program_counter() {
    let mut vm = VM::new();
    assert_eq!(vm.run_instruction(Instruction::Jmp(7)), Ok(()));
    assert_eq!(vm.pc(), 7);
    assert_eq!(vm.run_instruction(Instruction::Jnz(2, 0)), Ok(()));
    assert_eq!(vm.pc(), 8);
    assert_eq!(vm.run_instruction(Instruction::MovValue(0, 1)), Ok(()));
    assert_eq!(vm.run_instruction(Instruction::Jnz(2, 0)), Ok(()));
    assert_eq!(vm.pc(), 2);
    assert_eq!(vm.run_instruction(Instruction::Jmp(0)), Ok(()));
    assert_eq!(vm.pc(), 0);
}

#[test]
fn vm_division_by_zero_stops_at_the_third_instruction() {
    let program = vec![
        Instruction::MovValue(0, 10),
        Instruction::MovValue(1, 0),
        Instruction::Div(0, 1),
    ];
    let mut vm = VM::new();
    let outcome = vm.run(&program, 100);
    assert_eq!(outcome, RunOutcome::Failed(RuntimeError::DivisionByZero));
    assert_eq!(vm.pc(), 2);
    assert_eq!(vm.read(0), Some(10));
    assert_eq!(vm.read(1), Some(0));
    assert_eq!(vm.run_instruction(Instruction::Mod(0, 1)), Err(RuntimeError::DivisionByZero));
    assert_eq!(vm.pc(), 2);
}

#[test]
fn vm_jump_beyond_memory_is_out_of_range() {
    let program = vec![Instruction::Jmp(MEMORY_SIZE + 5)];
    let mut vm = VM::new();
    let outcome = vm.run(&program, 100);
    assert_eq!(outcome, RunOutcome::Failed(RuntimeError::OutOfRange(MEMORY_SIZE + 5)));
    assert_eq!(vm.pc(), 0);
}

#[test]
fn vm_cell_address_beyond_memory_is_out_of_range() {
    let mut vm = VM::new();
    assert_eq!(
        vm.run_instruction(Instruction::Mov(MEMORY_SIZE, 0)),
        Err(RuntimeError::OutOfRange(MEMORY_SIZE))
    );
    assert_eq!(
        vm.run_instruction(Instruction::Add(0, usize::MAX)),
        Err(RuntimeError::OutOfRange(usize::MAX))
    );
    assert_eq!(
        vm.run_instruction(Instruction::Jnz(0, MEMORY_SIZE)),
        Err(RuntimeError::OutOfRange(MEMORY_SIZE))
    );
    assert_eq!(vm.pc(), 0);
}

#[test]
fn vm_run_counts_down_and_halts() {
    let program = vec![
        Instruction::MovValue(0, 3),
        Instruction::MovValue(1, 1),
        Instruction::Sub(0, 1),
        Instruction::Jnz(2, 0),
    ];
    let mut vm = VM::new();
    assert_eq!(vm.run(&program, 1000), RunOutcome::Halted);
    assert_eq!(vm.read(0), Some(0));
    assert_eq!(vm.pc(), 4);
}

#[test]
fn vm_run_stops_when_steps_run_out() {
    let program = vec![Instruction::MovValue(0, 1), Instruction::Jmp(0)];
    let mut vm = VM::new();
    assert_eq!(vm.run(&program, 5), RunOutcome::OutOfSteps);
    assert_eq!(vm.pc(), 1);
    assert_eq!(vm.read(0), Some(1));
    let mut fresh = VM::new();
    assert_eq!(fresh.run(&Vec::new(), 0), RunOutcome::Halted);
}

#[test]
fn literal_value_reads_decimal_digits() {
    assert_eq!(literal_value("0"), Ok(0));
    assert_eq!(literal_value("42"), Ok(42));
    assert_eq!(literal_value("007"), Ok(7));
    assert_eq!(literal_value("2147483647"), Ok(2147483647));
    assert_eq!(literal_value("2147483648"), Err(LiteralFault::OutOfRange));
    assert_eq!(literal_value("99999999999999999999999999"), Err(LiteralFault::OutOfRange));
    assert_eq!(literal_value(""), Err(LiteralFault::Malformed));
    assert_eq!(literal_value("12a"), Err(LiteralFault::Malformed));
    assert_eq!(literal_value("99999999999999999999999999x"), Err(LiteralFault::Malformed));
}

#[test]
fn check_types_a_sum() {
    let tree = checked_of("2 + (3 + 4)").ok().unwrap();
    match tree {
        CheckedExpression::Add(left, right, Type::I32, span) => {
            assert_eq!(span, Span::new(0, 0, 11));
            assert!(matches!(*left, CheckedExpression::Int(ref t, Type::I32, _) if t == "2"));
            match *right {
                CheckedExpression::Expression(_, Type::I32, group) => {
                    assert_eq!(group, Span::new(0, 4, 11));
                }
                _ => panic!("right operand is not a group"),
            }
        }
        _ => panic!("root is not a sum"),
    }
}

#[test]
fn check_reports_every_error() {
    let tree = ParsedExpression::Add(
        Box::new(ParsedExpression::Int("2147483648".to_string(), Span::new(0, 0, 10))),
        Box::new(ParsedExpression::Add(
            Box::new(ParsedExpression::Int("7".to_string(), Span::new(0, 11, 12))),
            Box::new(ParsedExpression::Int("x".to_string(), Span::new(0, 13, 14))),
            Span::new(0, 11, 14),
        )),
        Span::new(0, 0, 14),
    );
    let mut checker = Checker::new();
    let node = checker.check_expression(&tree);
    let errors = checker.errors();
    assert_eq!(errors.len(), 2);
    assert!(matches!(&errors[0], Error::SemanticError(m, _) if m == "integer literal out of range"));
    assert!(matches!(&errors[1], Error::SemanticError(m, _) if m == "malformed integer literal"));
    match node {
        CheckedExpression::Invalid(Error::SemanticError(m, cause), span) => {
            assert_eq!(m, "integer literal out of range");
            assert_eq!(cause, Span::new(0, 0, 10));
            assert_eq!(span, Span::new(0, 0, 14));
        }
        _ => panic!("root carries no error"),
    }
    let errors = Checker::check(tree).err().unwrap();
    assert_eq!(errors.len(), 2);
}

#[test]
fn check_echoes_a_parse_error() {
    let errors = checked_of("(2 + 3").err().unwrap();
    assert_eq!(errors.len(), 1);
    assert!(matches!(&errors[0], Error::SemanticError(m, _) if m == "unexpected token"));
    assert_eq!(errors[0].span(), Span::new(0, 0, 6));
}

#[test]
fn generate_lowers_a_sum() {
    let tree = checked_of("2 + 3 + 4").ok().unwrap();
    let code = generate(&tree).unwrap();
    assert_eq!(
        code,
        vec![
            Instruction::MovValue(0, 2),
            Instruction::MovValue(1, 3),
            Instruction::MovValue(2, 4),
            Instruction::Add(1, 2),
            Instruction::Add(0, 1),
        ]
    );
}

#[test]
fn generate_reuses_cells_and_wraps_literals() {
    let tree = checked_of("(300 + 200) + 128").ok().unwrap();
    let code = generate(&tree).unwrap();
    assert_eq!(
        code,
        vec![
            Instruction::MovValue(0, 44),
            Instruction::MovValue(1, -56),
            Instruction::Add(0, 1),
            Instruction::MovValue(1, -128),
            Instruction::Add(0, 1),
        ]
    );
}

#[test]
fn generate_refuses_failed_trees_and_full_pools() {
    let failed = CheckedExpression::Invalid(Error::SemanticError("no".to_string(), Span::new(0, 0, 1)), Span::new(0, 0, 1));
    assert!(generate(&failed).is_none());
    let unread = CheckedExpression::Int("1x".to_string(), Type::I32, Span::new(0, 0, 2));
    assert!(generate(&unread).is_none());
    let tree = checked_of("1 + 2 + 3").ok().unwrap();
    let mut pool = CellPool::new(2);
    let mut code = Vec::new();
    assert_eq!(generate_into(&tree, &mut pool, &mut code), None);
    pool = CellPool::new(2);
    pool.grow(1);
    let mut code = Vec::new();
    assert_eq!(generate_into(&tree, &mut pool, &mut code), Some(0));
    assert_eq!(pool.next, 1);
    assert_eq!(code.len(), 5);
}

#[test]
fn cell_pool_bumps_and_releases() {
    let mut pool = CellPool::new(2);
    assert_eq!(pool.allocate(), Some(0));
    assert_eq!(pool.allocate(), Some(1));
    assert_eq!(pool.allocate(), None);
    assert!(!pool.release(2));
    assert_eq!(pool.next, 2);
    assert!(pool.release(1));
    assert_eq!(pool.allocate(), Some(1));
    assert!(pool.release(0));
    assert_eq!(pool.next, 0);
    pool.grow(usize::MAX);
    assert_eq!(pool.limit, usize::MAX);
}

#[test]
fn compile_and_run_sums_the_literals() {
    let (vm, diagnostics) = compile_and_run("2 + 3 + 4".as_bytes(), 0);
    assert!(diagnostics.is_empty());
    let vm = vm.unwrap();
    assert_eq!(vm.read(0), Some(9));
    assert_eq!(vm.pc(), 5);
    let (vm, _) = compile_and_run("((1 + 2) + (3 + 4)) + 5".as_bytes(), 0);
    assert_eq!(vm.unwrap().read(0), Some(15));
    let (vm, _) = compile_and_run("(100 + 100)".as_bytes(), 0);
    assert_eq!(vm.unwrap().read(0), Some(-56));
    let (vm, _) = compile_and_run("2147483647 + 1".as_bytes(), 0);
    assert_eq!(vm.unwrap().read(0), Some(0));
}

#[test]
fn compile_and_run_reports_every_stage() {
    let (vm, diagnostics) = compile_and_run("(2 + 3".as_bytes(), 0);
    assert!(vm.is_none());
    assert_eq!(diagnostics.len(), 2);
    assert!(matches!(&diagnostics[0], Error::ParserError(_, _)));
    assert!(matches!(&diagnostics[1], Error::SemanticError(_, _)));
    let (vm, diagnostics) = compile_and_run("05".as_bytes(), 0);
    assert!(vm.is_none());
    assert_eq!(diagnostics.len(), 3);
    assert!(matches!(&diagnostics[0], Error::LexerError(m, _) if m == "cannot start literal with 0"));
    let (code, diagnostics) = compile("1 + 9999999999".as_bytes(), 0);
    assert!(code.is_none());
    assert_eq!(diagnostics.len(), 1);
    assert_eq!(diagnostics[0].message(), "integer literal out of range");
}

#[test]
fn compile_and_run_unspaced_source() {
    let (vm, diagnostics) = compile_and_run("(12+30)+7".as_bytes(), 3);
    assert!(diagnostics.is_empty());
    let vm = vm.unwrap();
    assert_eq!(vm.read(0), Some(49));
    assert_eq!(vm.read(1), Some(7));
    assert_eq!(vm.pc(), 5);
    let (code, diagnostics) = compile("(12+30)+7".as_bytes(), 3);
    assert!(diagnostics.is_empty());
    assert_eq!(
        code.unwrap(),
        vec![
            Instruction::MovValue(0, 12),
            Instruction::MovValue(1, 30),
            Instruction::Add(0, 1),
            Instruction::MovValue(1, 7),
            Instruction::Add(0, 1),
        ]
    );
}

#[test]
fn compile_rejects_zero_inside_an_expression() {
    let (code, diagnostics) = compile("0+1".as_bytes(), 0);
    assert!(code.is_none());
    assert!(matches!(&diagnostics[0], Error::LexerError(m, _) if m == "cannot start literal with 0"));
    let (vm, diagnostics) = compile_and_run("0".as_bytes(), 0);
    assert!(diagnostics.is_empty());
    assert_eq!(vm.unwrap().read(0), Some(0));
}

#[test]
fn checked_nodes_keep_their_spans() {
    let tree = checked_of("(5)").ok().unwrap();
    assert_eq!(*tree.span(), Span::new(0, 0, 3));
    let failed = CheckedExpression::Invalid(
        Error::SemanticError("no".to_string(), Span::new(1, 2, 3)),
        Span::new(1, 0, 9),
    );
    assert_eq!(*failed.span(), Span::new(1, 0, 9));
}

#[test]
fn compile_rejects_input_behind_the_expression() {
    let (vm, diagnostics) = compile_and_run("1 2".as_bytes(), 0);
    assert!(vm.is_none());
    assert_eq!(diagnostics.len(), 1);
    assert!(matches!(&diagnostics[0], Error::ParserError(m, _) if m == "unexpected token"));
}
