use forth::data::Data;
use forth::exec::{ExecutionError, Interp};
use forth::render::render_stack;
use forth::stack::{Stack, StackError};
use forth::token::{Func, Reserved, Token};

fn run_tokens(tokens: Vec<Token>) -> Result<Interp, (Interp, ExecutionError)> {
    let mut interp = Interp::new();
    match interp.run(&tokens) {
        Ok(()) => Ok(interp),
        Err(e) => Err((interp, e)),
    }
}

#[test]
fn add_two_and_three() {
    let interp = run_tokens(vec![Token::Int(2), Token::Int(3), Token::Func(Func::Add)])
        .unwrap();
    assert_eq!(interp.stack, vec![Data::Int(5)]);
}

#[test]
fn sub_is_first_minus_second() {
    let interp = run_tokens(vec![Token::Int(5), Token::Int(3), Token::Func(Func::Sub)])
        .unwrap();
    assert_eq!(interp.stack, vec![Data::Int(2)]);
}

#[test]
fn mul_two_literals() {
    let interp = run_tokens(vec![Token::Int(6), Token::Int(7), Token::Func(Func::Mul)])
        .unwrap();
    assert_eq!(interp.stack, vec![Data::Int(42)]);
}

#[test]
fn div_truncates_toward_zero() {
    let interp = run_tokens(vec![Token::Int(7), Token::Int(2), Token::Func(Func::Div)])
        .unwrap();
    assert_eq!(interp.stack, vec![Data::Int(3)]);
    let interp = run_tokens(vec![Token::Int(-7), Token::Int(2), Token::Func(Func::Div)])
        .unwrap();
    assert_eq!(interp.stack, vec![Data::Int(-3)]);
}

#[test]
fn div_by_zero_fails() {
    let (_, e) = run_tokens(vec![Token::Int(1), Token::Int(0), Token::Func(Func::Div)])
        .unwrap_err();
    assert!(matches!(e, ExecutionError::DivideByZero));
    assert_eq!(e.message(), "Attempt to divide by zero");
}

#[test]
fn arith_on_char_is_improper() {
    let (_, e) = run_tokens(vec![
        Token::Char('a'),
        Token::Int(1),
        Token::Func(Func::Add),
    ])
    .unwrap_err();
    assert!(matches!(e, ExecutionError::ImproperArgument));
    assert_eq!(e.message(), "Improper arguments provided");
}

#[test]
fn add_on_empty_stack_fails() {
    let (_, e) = run_tokens(vec![Token::Func(Func::Add)]).unwrap_err();
    assert!(matches!(e, ExecutionError::EmptyStack));
    assert_eq!(e.message(), "Empty stack error");
}

#[test]
fn end_to_end_one_two_three_add_add() {
    // source `1 2 3 + +`
    let interp = run_tokens(vec![
        Token::Int(1),
        Token::Int(2),
        Token::Int(3),
        Token::Func(Func::Add),
        Token::Func(Func::Add),
    ])
    .unwrap();
    assert_eq!(interp.stack, vec![Data::Int(6)]);
    assert_eq!(render_stack(&interp.stack), "6 <- Top");
}

#[test]
fn end_to_end_five_dup_mul() {
    // source `5 dup *`
    let interp = run_tokens(vec![
        Token::Int(5),
        Token::Func(Func::Dup),
        Token::Func(Func::Mul),
    ])
    .unwrap();
    assert_eq!(interp.stack, vec![Data::Int(25)]);
    assert_eq!(render_stack(&interp.stack), "25 <- Top");
}

#[test]
fn end_to_end_add_on_empty() {
    // source `+` against an empty stack
    let (interp, e) = run_tokens(vec![Token::Func(Func::Add)]).unwrap_err();
    assert!(matches!(e, ExecutionError::EmptyStack));
    assert!(interp.stack.is_empty());
}

#[test]
fn dup_duplicates_top() {
    let mut v = vec![Data::Int(7)];
    let n = v.dup().unwrap();
    assert_eq!(n, 2);
    assert_eq!(v, vec![Data::Int(7), Data::Int(7)]);
}

#[test]
fn dup_on_empty_fails() {
    let mut v: Vec<Data> = vec![];
    assert!(matches!(v.dup(), Err(StackError::EmptyStack)));
    assert!(v.is_empty());
}

#[test]
fn swap_exchanges_top_two() {
    let mut v = vec![Data::Int(1), Data::Int(2)];
    v.swap().unwrap();
    assert_eq!(v, vec![Data::Int(2), Data::Int(1)]);
}

#[test]
fn swap_on_short_stack_fails() {
    let mut v = vec![Data::Int(1)];
    assert!(matches!(v.swap(), Err(StackError::EmptyStack)));
}

#[test]
fn over_copies_second_to_top() {
    let mut v = vec![Data::Int(1), Data::Int(2)];
    let n = v.over().unwrap();
    assert_eq!(n, 3);
    assert_eq!(v, vec![Data::Int(1), Data::Int(2), Data::Int(1)]);
}

#[test]
fn over_on_short_stack_fails() {
    let mut v = vec![Data::Int(1)];
    assert!(matches!(v.over(), Err(StackError::EmptyStack)));
}

#[test]
fn rotate_moves_third_to_top() {
    let mut v = vec![Data::Int(1), Data::Int(2), Data::Int(3)];
    v.rotate().unwrap();
    assert_eq!(v, vec![Data::Int(2), Data::Int(3), Data::Int(1)]);
}

#[test]
fn rotate_on_short_stack_fails() {
    let mut v = vec![Data::Int(1), Data::Int(2)];
    assert!(matches!(v.rotate(), Err(StackError::EmptyStack)));
}

#[test]
fn engine_dup_swap_over_rotate() {
    let interp = run_tokens(vec![
        Token::Int(1),
        Token::Int(2),
        Token::Func(Func::Swap),
    ])
    .unwrap();
    assert_eq!(interp.stack, vec![Data::Int(2), Data::Int(1)]);
    let (_, e) = run_tokens(vec![Token::Func(Func::Dup)]).unwrap_err();
    assert!(matches!(e, ExecutionError::EmptyStack));
    let (_, e) = run_tokens(vec![Token::Int(1), Token::Func(Func::Rotate)]).unwrap_err();
    assert!(matches!(e, ExecutionError::EmptyStack));
    let interp = run_tokens(vec![
        Token::Int(1),
        Token::Int(2),
        Token::Func(Func::Over),
    ])
    .unwrap();
    assert_eq!(interp.stack, vec![Data::Int(1), Data::Int(2), Data::Int(1)]);
    let interp = run_tokens(vec![
        Token::Int(1),
        Token::Int(2),
        Token::Int(3),
        Token::Func(Func::Rotate),
    ])
    .unwrap();
    assert_eq!(interp.stack, vec![Data::Int(2), Data::Int(3), Data::Int(1)]);
}

#[test]
fn store_then_retrieve_round_trips() {
    let interp = run_tokens(vec![
        Token::Reserved(Reserved::Variable(String::from("m"))),
        Token::Int(42),
        Token::Keyword(String::from("m")),
        Token::Func(Func::Store),
        Token::Keyword(String::from("m")),
        Token::Func(Func::Retrieve),
    ])
    .unwrap();
    assert_eq!(interp.stack, vec![Data::Int(42)]);
    assert_eq!(interp.memory, vec![Some(Data::Int(42))]);
}

#[test]
fn store_to_unallocated_address_is_improper() {
    let (_, e) = run_tokens(vec![
        Token::Int(1),
        Token::Int(0),
        Token::Func(Func::Store),
    ])
    .unwrap_err();
    assert!(matches!(e, ExecutionError::ImproperArgument));
}

#[test]
fn store_with_char_address_is_improper() {
    let (_, e) = run_tokens(vec![
        Token::Reserved(Reserved::Variable(String::from("m"))),
        Token::Int(1),
        Token::Char('a'),
        Token::Func(Func::Store),
    ])
    .unwrap_err();
    assert!(matches!(e, ExecutionError::ImproperArgument));
}

#[test]
fn retrieve_of_unset_cell_is_invalid_memory() {
    let (_, e) = run_tokens(vec![
        Token::Reserved(Reserved::Variable(String::from("m"))),
        Token::Keyword(String::from("m")),
        Token::Func(Func::Retrieve),
    ])
    .unwrap_err();
    assert!(matches!(e, ExecutionError::InvalidMemory));
    assert_eq!(e.message(), "Memory location is invalid");
}

#[test]
fn retrieve_outside_memory_is_invalid_memory() {
    let (_, e) = run_tokens(vec![Token::Int(5), Token::Func(Func::Retrieve)]).unwrap_err();
    assert!(matches!(e, ExecutionError::InvalidMemory));
}

#[test]
fn constant_reference_pushes_copy() {
    let interp = run_tokens(vec![
        Token::Int(7),
        Token::Reserved(Reserved::Constant(String::from("c"))),
        Token::Keyword(String::from("c")),
        Token::Keyword(String::from("c")),
    ])
    .unwrap();
    assert_eq!(interp.stack, vec![Data::Int(7), Data::Int(7)]);
}

#[test]
fn constant_on_empty_stack_fails() {
    let (_, e) = run_tokens(vec![Token::Reserved(Reserved::Constant(String::from("c")))])
        .unwrap_err();
    assert!(matches!(e, ExecutionError::EmptyStack));
}

#[test]
fn variables_get_fresh_distinct_addresses() {
    let interp = run_tokens(vec![
        Token::Reserved(Reserved::Variable(String::from("a"))),
        Token::Reserved(Reserved::Variable(String::from("b"))),
        Token::Keyword(String::from("a")),
        Token::Keyword(String::from("b")),
    ])
    .unwrap();
    assert_eq!(interp.stack, vec![Data::Int(0), Data::Int(1)]);
    assert_eq!(interp.memory, vec![None, None]);
}

#[test]
fn redeclared_name_is_rebound() {
    let interp = run_tokens(vec![
        Token::Int(1),
        Token::Reserved(Reserved::Constant(String::from("c"))),
        Token::Int(2),
        Token::Reserved(Reserved::Constant(String::from("c"))),
        Token::Keyword(String::from("c")),
    ])
    .unwrap();
    assert_eq!(interp.stack, vec![Data::Int(2)]);
}

#[test]
fn unbound_reference_is_invalid_word() {
    let (_, e) = run_tokens(vec![Token::Keyword(String::from("nope"))]).unwrap_err();
    match &e {
        ExecutionError::InvalidWord(w) => assert_eq!(w, "nope"),
        _ => panic!("expected InvalidWord"),
    }
    assert_eq!(e.message(), "Invalid word: nope");
}

#[test]
fn print_writes_display_rendering() {
    let interp = run_tokens(vec![Token::Int(65), Token::Func(Func::Print)]).unwrap();
    assert_eq!(interp.output, "65");
    assert!(interp.stack.is_empty());
    let interp = run_tokens(vec![Token::Char('A'), Token::Func(Func::Print)]).unwrap();
    assert_eq!(interp.output, "A");
}

#[test]
fn prints_concatenate_without_separator() {
    let interp = run_tokens(vec![
        Token::Int(1),
        Token::Int(2),
        Token::Func(Func::Print),
        Token::Func(Func::Print),
    ])
    .unwrap();
    assert_eq!(interp.output, "21");
}

#[test]
fn debug_print_appends_line_break() {
    let interp = run_tokens(vec![Token::Int(3), Token::Func(Func::DPrint)]).unwrap();
    assert_eq!(interp.output, "Int(3)\n");
    let interp = run_tokens(vec![Token::Char('x'), Token::Func(Func::DPrint)]).unwrap();
    assert_eq!(interp.output, "Char(x)\n");
}

#[test]
fn print_on_empty_stack_fails() {
    let (_, e) = run_tokens(vec![Token::Func(Func::Print)]).unwrap_err();
    assert!(matches!(e, ExecutionError::EmptyStack));
}

#[test]
fn halt_keeps_committed_output() {
    let (interp, e) = run_tokens(vec![
        Token::Int(9),
        Token::Func(Func::Print),
        Token::Func(Func::Add),
    ])
    .unwrap_err();
    assert!(matches!(e, ExecutionError::EmptyStack));
    assert_eq!(interp.output, "9");
}

#[test]
fn wrapping_addition_at_the_edge() {
    let interp = run_tokens(vec![
        Token::Int(i32::MAX),
        Token::Int(1),
        Token::Func(Func::Add),
    ])
    .unwrap();
    assert_eq!(interp.stack, vec![Data::Int(i32::MIN)]);
}
