use codegen::ast::{
    ComparisonExp, ConditionalStatement, ElseStatement, Factor, FunctionCall, IfStatement, Program,
    Variable, AST,
};
use codegen::binary_op::Comparators;
use codegen::buffer::ASM;
use codegen::conditionals::ConditionalJumpTo;
use codegen::error::CodegenError;
use codegen::factor::{Number, TokenEnum};
use codegen::registers::Register;

fn num(i: i64) -> AST {
    AST::Factor(Factor::new(TokenEnum::Number(Number::Integer(i))))
}

fn string(text: &str) -> AST {
    AST::Factor(Factor::new(TokenEnum::StringLiteral(text.to_string())))
}

fn call(name: &str, arguments: Vec<AST>) -> AST {
    AST::FunctionCall(FunctionCall::new(name.to_string(), arguments))
}

fn less(a: i64, b: i64) -> Box<AST> {
    Box::new(AST::Comparison(ComparisonExp::new(Box::new(num(a)), Comparators::LessThan, Box::new(num(b)))))
}

fn block(n: i64) -> Box<AST> {
    Box::new(AST::Program(Program::new(vec![call("exit", vec![num(n)])])))
}

fn lines(v: &[&str]) -> Vec<String> {
    v.iter().map(|s| s.to_string()).collect()
}

fn emitted(buf: &ASM) -> Vec<String> {
    buf.labels[0].code[1..].to_vec()
}

fn ladder(elifs: usize, with_else: bool) -> AST {
    let arms = (0..elifs).map(|k| IfStatement::new(less(k as i64, 9), block(k as i64))).collect();
    let else_arm = if with_else { Some(ElseStatement::new(block(99))) } else { None };
    AST::Conditional(ConditionalStatement::new(IfStatement::new(less(1, 2), block(7)), arms, else_arm))
}

fn count_prefix(code: &[String], prefix: &str) -> usize {
    code.iter().filter(|l| l.starts_with(prefix)).count()
}

#[test]
fn if_start_consumes_condition() {
    let mut buf = ASM::default();
    buf.lock_register(Register::R8);
    buf.stack_push("r8".to_string());
    buf.if_start(ConditionalJumpTo::Else, 3);
    assert_eq!(
        emitted(&buf),
        lines(&[
            ".if_3:",
            "cmp r8, 0",
            ";; if the comparison value is false, jump to the next label altogether",
            "je .else_3",
            ""
        ])
    );
    assert!(buf.stack.is_empty());
    assert!(buf.used_registers.is_empty());
}

#[test]
fn if_end_targets() {
    let mut buf = ASM::default();
    buf.if_end(ConditionalJumpTo::ElifEnd, 3, 1);
    buf.if_end(ConditionalJumpTo::Else, 3, 1);
    buf.if_end(ConditionalJumpTo::IfEnd, 0, 1);
    assert_eq!(
        emitted(&buf),
        lines(&[
            "jmp .elif_1_2_end",
            ".if_end_1:",
            "",
            "jmp .else_end_1",
            ".if_end_1:",
            "",
            "jmp .if_end_1",
            ".if_end_1:",
            ""
        ])
    );
}

#[test]
fn elif_start_places_label_first() {
    let mut buf = ASM::default();
    buf.stack_push("0".to_string());
    buf.elif_start(1, ConditionalJumpTo::Elif, 2);
    assert_eq!(
        emitted(&buf),
        lines(&[
            ".elif_2_1:",
            "cmp 0, 0",
            ";; if the comparison value is false, jump to the next label altogether",
            "je .elif_2_2",
            ""
        ])
    );
    assert!(buf.stack.is_empty());
}

#[test]
fn elif_arm_lines() {
    let mut buf = ASM::default();
    buf.stack_push("1".to_string());
    buf.elif_start(0, ConditionalJumpTo::Elif, 2);
    buf.elif_end(0, ConditionalJumpTo::ElifEnd, 2, 2);
    buf.stack_push("1".to_string());
    buf.elif_start(1, ConditionalJumpTo::ElifEnd, 2);
    buf.else_start(2);
    buf.else_end(2);
    assert_eq!(
        emitted(&buf),
        lines(&[
            ".elif_2_0:",
            "cmp 1, 0",
            ";; if the comparison value is false, jump to the next label altogether",
            "je .elif_2_1",
            "",
            "jmp .elif_2_1_end",
            ".elif_2_0_end:",
            "",
            ".elif_2_1:",
            "cmp 1, 0",
            ";; if the comparison value is false, jump to the next label altogether",
            "je .elif_2_1_end",
            "",
            ".else_2:",
            "",
            ".else_end_2:",
            ""
        ])
    );
}

#[test]
fn ladder_with_elifs_and_else_converges() {
    for k in 0..4 {
        let mut buf = ASM::default();
        assert_eq!(ladder(k, true).visit_com(&mut buf, &vec![]), Ok(()));
        let code = emitted(&buf);
        assert_eq!(count_prefix(&code, "je "), k + 1);
        assert_eq!(count_prefix(&code, "jmp "), k + 1);
        assert!(code.iter().filter(|l| l.starts_with("jmp ")).all(|l| l == "jmp .else_end_0"));
        assert_eq!(count_prefix(&code, ".else_end_0:"), 1);
        assert!(buf.stack.is_empty());
        assert!(buf.used_registers.is_empty());
        assert_eq!(buf.num_ifs, 1);
    }
}

#[test]
fn ladder_without_else_ends_at_last_elif() {
    let mut buf = ASM::default();
    assert_eq!(ladder(2, false).visit_com(&mut buf, &vec![]), Ok(()));
    let code = emitted(&buf);
    assert!(code.iter().filter(|l| l.starts_with("jmp ")).all(|l| l == "jmp .elif_0_1_end"));
    assert!(code.contains(&"je .elif_0_0".to_string()));
    assert!(code.contains(&"je .elif_0_1".to_string()));
    assert!(code.contains(&"je .elif_0_1_end".to_string()));
    assert_eq!(code.iter().filter(|l| *l == ".elif_0_0:").count(), 1);
    assert_eq!(code.iter().filter(|l| *l == ".elif_0_1:").count(), 1);
    let label = code.iter().position(|l| l == ".elif_0_0:").unwrap();
    assert_eq!(code[label + 1], "cmp r8, 0");
    assert_eq!(code[label + 3], "je .elif_0_1");
}

#[test]
fn single_if_jumps_to_its_end() {
    let mut buf = ASM::default();
    assert_eq!(ladder(0, false).visit_com(&mut buf, &vec![]), Ok(()));
    let code = emitted(&buf);
    assert!(code.contains(&"je .if_end_0".to_string()));
    assert!(code.contains(&"jmp .if_end_0".to_string()));
    assert_eq!(count_prefix(&code, ".if_end_0:"), 1);
}

#[test]
fn nested_ladders_get_distinct_numbers() {
    let mut buf = ASM::default();
    let inner = ladder(0, false);
    let outer = AST::Conditional(ConditionalStatement::new(
        IfStatement::new(less(1, 2), Box::new(AST::Program(Program::new(vec![inner])))),
        vec![],
        None,
    ));
    assert_eq!(outer.visit_com(&mut buf, &vec![]), Ok(()));
    let code = emitted(&buf);
    assert!(code.contains(&".if_0:".to_string()));
    assert!(code.contains(&".if_1:".to_string()));
    assert_eq!(buf.num_ifs, 2);
}

#[test]
fn exit_without_argument_fails_before_emitting() {
    let mut buf = ASM::default();
    assert_eq!(call("exit", vec![]).visit_com(&mut buf, &vec![]), Err(CodegenError::ExitArity));
    assert!(emitted(&buf).is_empty());
    assert!(buf.stack.is_empty());
}

#[test]
fn exit_with_status() {
    let mut buf = ASM::default();
    assert_eq!(call("exit", vec![num(3)]).visit_com(&mut buf, &vec![]), Ok(()));
    assert_eq!(emitted(&buf), lines(&["", ";; exit", "mov rax, 60", "mov rdi, 3", "syscall", ""]));
    assert!(buf.stack.is_empty());
}

#[test]
fn write_string_and_number() {
    let mut buf = ASM::default();
    let w = call("write", vec![string("ok"), num(42)]);
    assert_eq!(w.visit_com(&mut buf, &vec![]), Ok(()));
    assert_eq!(
        emitted(&buf),
        lines(&[
            "",
            ";; write a string",
            "mov rax, 1",
            "mov rdi, 1",
            "mov rsi, string_0",
            "mov rdx, 2",
            "syscall",
            "",
            "",
            ";; write a number",
            "mov rax, 42",
            "call _printRAX",
            ""
        ])
    );
    assert!(buf.stack.is_empty());
}

#[test]
fn user_call_saves_live_registers() {
    let mut buf = ASM::default();
    buf.lock_register(Register::R8);
    buf.stack_push("r8".to_string());
    let f = call("square", vec![]);
    assert_eq!(f.visit_com(&mut buf, &vec!["square".to_string()]), Ok(()));
    assert_eq!(emitted(&buf), lines(&["push r8", "call square", "pop r8", "mov r9, rax", ""]));
    assert_eq!(buf.stack, lines(&["r8", "r9"]));
}

#[test]
fn unknown_function_is_rejected() {
    let mut buf = ASM::default();
    assert_eq!(call("nope", vec![]).visit_com(&mut buf, &vec![]), Err(CodegenError::UnknownFunction));
}

#[test]
fn program_drops_statement_results() {
    let mut buf = ASM::default();
    let p = AST::Program(Program::new(vec![num(1), string("x"), call("f", vec![])]));
    assert_eq!(p.visit_com(&mut buf, &vec!["f".to_string()]), Ok(()));
    assert!(buf.stack.is_empty());
    assert!(buf.used_registers.is_empty());
}

#[test]
fn variable_node_has_no_lowering() {
    let mut buf = ASM::default();
    let v = AST::Variable(Variable::new("int".to_string(), "x".to_string()));
    assert_eq!(v.visit_com(&mut buf, &vec![]), Err(CodegenError::UnsupportedNode));
}

#[test]
fn ladder_counter_overflow_is_reported() {
    let mut buf = ASM::default();
    buf.num_ifs = usize::MAX;
    assert_eq!(ladder(0, false).visit_com(&mut buf, &vec![]), Err(CodegenError::CounterOverflow));
    assert!(emitted(&buf).is_empty());
}
