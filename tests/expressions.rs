use codegen::ast::{BinaryOP, ComparisonExp, Factor, AST};
use codegen::binary_op::{Comparators, Operations, VarType};
use codegen::buffer::ASM;
use codegen::error::CodegenError;
use codegen::factor::{Number, TokenEnum};
use codegen::registers::Register;

fn num(i: i64) -> AST {
    AST::Factor(Factor::new(TokenEnum::Number(Number::Integer(i))))
}

fn float(text: &str) -> AST {
    AST::Factor(Factor::new(TokenEnum::Number(Number::Float(text.to_string()))))
}

fn string(text: &str) -> AST {
    AST::Factor(Factor::new(TokenEnum::StringLiteral(text.to_string())))
}

fn binary(left: AST, op: Operations, right: AST, ty: VarType, deref: usize) -> AST {
    let mut b = BinaryOP::new(Box::new(left), op, Box::new(right), deref);
    b.result_type = ty;
    AST::BinaryOp(b)
}

fn lines(v: &[&str]) -> Vec<String> {
    v.iter().map(|s| s.to_string()).collect()
}

fn emitted(buf: &ASM) -> Vec<String> {
    buf.labels[0].code[1..].to_vec()
}

#[test]
fn integer_literal_is_immediate() {
    let mut buf = ASM::default();
    assert_eq!(num(5).visit_com(&mut buf, &vec![]), Ok(()));
    assert_eq!(buf.stack, lines(&["5"]));
    assert_eq!(emitted(&buf), lines(&[""]));
    assert!(buf.used_registers.is_empty());
    assert_eq!(buf.data.len(), 2);
}

#[test]
fn negative_integer_literal() {
    let mut buf = ASM::default();
    assert_eq!(num(-120).visit_com(&mut buf, &vec![]), Ok(()));
    assert_eq!(buf.stack, lines(&["-120"]));
}

#[test]
fn float_literal_goes_through_data_segment() {
    let mut buf = ASM::default();
    assert_eq!(float("2.5").visit_com(&mut buf, &vec![]), Ok(()));
    assert_eq!(buf.data.len(), 3);
    assert_eq!(buf.data[2], "float_0 dq 2.5");
    assert_eq!(emitted(&buf), lines(&["movsd xmm2, [float_0]", ""]));
    assert_eq!(buf.stack, lines(&["xmm2"]));
    assert_eq!(buf.used_registers, vec![Register::Xmm2]);
    assert_eq!(buf.num_floats, 1);
}

#[test]
fn integer_addition() {
    let mut buf = ASM::default();
    let e = binary(num(3), Operations::Plus, num(4), VarType::Int, 0);
    assert_eq!(e.visit_com(&mut buf, &vec![]), Ok(()));
    assert_eq!(
        emitted(&buf),
        lines(&[
            "",
            "",
            "push 3",
            "push 4",
            "",
            ";; Plus get the two operands from the stack",
            "pop rax",
            "pop rbx",
            "add rax, rbx",
            "push rax",
            "",
            "pop r8",
            ""
        ])
    );
    assert_eq!(buf.stack, lines(&["r8"]));
    assert_eq!(buf.used_registers, vec![Register::R8]);
}

#[test]
fn addition_appends_only_operator_lines() {
    let mut buf = ASM::default();
    buf.stack_push("3".to_string());
    buf.stack_push("4".to_string());
    assert_eq!(buf.binary_op_nums(Operations::Plus, 0, &VarType::Int), Ok(()));
    assert_eq!(
        emitted(&buf),
        lines(&[
            ";; Plus get the two operands from the stack",
            "pop rax",
            "pop rbx",
            "add rax, rbx",
            "push rax",
            ""
        ])
    );
    assert_eq!(buf.stack, lines(&["3", "4"]));
    assert!(buf.used_registers.is_empty());
}

#[test]
fn subtraction_keeps_operand_order() {
    let mut buf = ASM::default();
    assert_eq!(buf.binary_op_nums(Operations::Minus, 0, &VarType::Int), Ok(()));
    assert_eq!(
        emitted(&buf),
        lines(&[
            ";; Minus get the two operands from the stack",
            "pop rbx",
            "pop rax",
            "sub rax, rbx",
            "push rax",
            ""
        ])
    );
}

#[test]
fn division_and_modulo_clear_rdx() {
    let mut buf = ASM::default();
    assert_eq!(buf.binary_op_nums(Operations::Divide, 0, &VarType::Int32), Ok(()));
    assert_eq!(
        emitted(&buf),
        lines(&[
            ";; Divide clean up rdx as this might mess up the final output",
            "xor rdx, rdx",
            ";; get the two operands from the stack",
            "pop rbx",
            "pop rax",
            "div rbx",
            "push rax",
            ""
        ])
    );
    let mut buf = ASM::default();
    assert_eq!(buf.binary_op_nums(Operations::Modulo, 0, &VarType::Int), Ok(()));
    assert_eq!(
        emitted(&buf),
        lines(&[
            ";; Modulo get the two operands from the stack",
            "xor rdx, rdx",
            "pop rbx",
            "pop rax",
            "div rbx",
            "mov rax, rdx",
            "push rax",
            ""
        ])
    );
    let mut buf = ASM::default();
    assert_eq!(buf.binary_op_nums(Operations::Multiply, 0, &VarType::Int), Ok(()));
    assert_eq!(
        emitted(&buf),
        lines(&[
            ";; Multiply get the two operands from the stack",
            "xor rdx, rdx",
            "pop rax",
            "pop rbx",
            "mul rbx",
            "push rax",
            ""
        ])
    );
}

#[test]
fn shift_uses_count_register() {
    let mut buf = ASM::default();
    assert_eq!(buf.binary_op_nums(Operations::ShiftLeft, 0, &VarType::Int), Ok(()));
    assert_eq!(
        emitted(&buf),
        lines(&[
            ";; ShiftLeft get the two operands from the stack",
            "xor rax, rax",
            "xor rcx, rcx",
            "pop rcx",
            "pop rax",
            ";; We can only shift left or right by 8 bits",
            "shl rax, cl",
            "push rax",
            ""
        ])
    );
}

#[test]
fn float_addition_uses_scratch_cell() {
    let mut buf = ASM::default();
    let e = binary(float("1.5"), Operations::Plus, float("2.5"), VarType::Float, 0);
    assert_eq!(e.visit_com(&mut buf, &vec![]), Ok(()));
    let code = emitted(&buf);
    assert_eq!(
        code[4..].to_vec(),
        lines(&[
            "sub rsp, 8",
            "movsd [rsp], xmm2",
            "sub rsp, 8",
            "movsd [rsp], xmm3",
            "",
            ";; Floating point addition",
            ";; Get the first operand",
            "pop QWORD [float_imm]",
            "movsd xmm0, [float_imm]",
            ";; Get the second operand",
            "pop QWORD [float_imm]",
            "movsd xmm1, [float_imm]",
            ";; floating point addition",
            "addsd xmm0, xmm1",
            "movsd [float_imm], xmm0",
            "mov rax, [float_imm]",
            "push rax",
            "",
            "pop r8",
            ""
        ])
    );
    assert_eq!(buf.stack, lines(&["r8"]));
    assert_eq!(buf.used_registers, vec![Register::R8]);
}

#[test]
fn float_subtraction_loads_right_operand_first() {
    let mut buf = ASM::default();
    assert_eq!(buf.binary_op_nums(Operations::Minus, 0, &VarType::Float), Ok(()));
    let code = emitted(&buf);
    assert_eq!(code[3], "movsd xmm1, [float_imm]");
    assert_eq!(code[6], "movsd xmm0, [float_imm]");
    assert_eq!(code[8], "subsd xmm0, xmm1");
    assert_eq!(code[11..].to_vec(), lines(&["push rax", ""]));
}

#[test]
fn float_shift_is_unsupported() {
    let mut buf = ASM::default();
    assert_eq!(
        buf.binary_op_nums(Operations::ShiftRight, 0, &VarType::Float),
        Err(CodegenError::UnsupportedOperation)
    );
    assert_eq!(
        buf.binary_op_nums(Operations::Modulo, 0, &VarType::Float),
        Err(CodegenError::UnsupportedOperation)
    );
    assert!(emitted(&buf).is_empty());
}

#[test]
fn aggregate_result_is_unsupported() {
    let mut buf = ASM::default();
    assert_eq!(
        buf.binary_op_nums(Operations::Plus, 0, &VarType::Str),
        Err(CodegenError::UnsupportedType)
    );
    assert_eq!(
        buf.binary_op_nums(Operations::Plus, 0, &VarType::Unknown),
        Err(CodegenError::UnsupportedType)
    );
    assert_eq!(
        buf.binary_op_nums(Operations::Plus, 1, &VarType::Ptr(Box::new(VarType::Float))),
        Err(CodegenError::UnsupportedType)
    );
    assert!(emitted(&buf).is_empty());
    let e = BinaryOP::new(Box::new(num(1)), Operations::Plus, Box::new(num(2)), 0);
    let mut buf = ASM::default();
    assert_eq!(AST::BinaryOp(e).visit_com(&mut buf, &vec![]), Err(CodegenError::UnsupportedType));
}

#[test]
fn pointer_to_integer_is_dereferenced() {
    let mut buf = ASM::default();
    let ty = VarType::Ptr(Box::new(VarType::Int));
    assert_eq!(buf.binary_op_nums(Operations::Plus, 2, &ty), Ok(()));
    assert_eq!(
        emitted(&buf)[4..].to_vec(),
        lines(&["mov rax, [rax]", "mov rax, [rax]", "push rax", ""])
    );
}

#[test]
fn pointer_to_char_loads_one_byte() {
    let mut buf = ASM::default();
    let ty = VarType::Ptr(Box::new(VarType::Char));
    assert_eq!(buf.binary_op_nums(Operations::Plus, 1, &ty), Ok(()));
    assert_eq!(
        emitted(&buf)[4..].to_vec(),
        lines(&[
            ";; binary op ptr -> char",
            "mov rbx, rax",
            "xor rax, rax",
            "mov al, [rbx]",
            "push rax",
            ""
        ])
    );
    let mut buf = ASM::default();
    assert_eq!(buf.binary_op_nums(Operations::Plus, 0, &ty), Ok(()));
    assert_eq!(
        emitted(&buf)[4..].to_vec(),
        lines(&[";; binary op ptr -> char", "push rax", ""])
    );
}

#[test]
fn spilling_operands_releases_registers() {
    let mut buf = ASM::default();
    buf.lock_register(Register::R9);
    buf.stack_push("r9".to_string());
    buf.stack_push("7".to_string());
    buf.spill_operands();
    assert_eq!(emitted(&buf), lines(&["push r9", "push 7", ""]));
    assert!(buf.stack.is_empty());
    assert!(buf.used_registers.is_empty());
    assert_eq!(buf.bind_result(), Ok(Register::R8));
    assert_eq!(buf.stack, lines(&["r8"]));
    assert_eq!(buf.used_registers, vec![Register::R8]);
}

#[test]
fn nested_expression_releases_registers() {
    let mut buf = ASM::default();
    let inner = binary(num(1), Operations::Plus, num(2), VarType::Int, 0);
    let e = binary(inner, Operations::Multiply, num(3), VarType::Int, 0);
    assert_eq!(e.visit_com(&mut buf, &vec![]), Ok(()));
    assert_eq!(buf.stack, lines(&["r8"]));
    assert_eq!(buf.used_registers, vec![Register::R8]);
    buf.discard(1);
    assert!(buf.stack.is_empty());
    assert!(buf.used_registers.is_empty());
}

#[test]
fn comparison_sets_flag_value() {
    let mut buf = ASM::default();
    let c = ComparisonExp::new(Box::new(num(1)), Comparators::LessThan, Box::new(num(2)));
    assert_eq!(AST::Comparison(c).visit_com(&mut buf, &vec![]), Ok(()));
    let code = emitted(&buf);
    assert_eq!(
        code[2..].to_vec(),
        lines(&[
            "push 1",
            "push 2",
            "",
            ";; Compare two numbers",
            "pop rbx",
            "pop rax",
            "xor rcx, rcx",
            "cmp rax, rbx",
            "setl cl",
            "push rcx",
            "",
            "pop r8",
            ""
        ])
    );
    assert_eq!(buf.stack, lines(&["r8"]));
}

#[test]
fn string_literal_becomes_byte_constant() {
    let mut buf = ASM::default();
    assert_eq!(string("hi\\n").visit_com(&mut buf, &vec![]), Ok(()));
    assert_eq!(buf.data[2], "string_0 db 104,105,10");
    assert_eq!(buf.stack, lines(&["string_0", "3"]));
    assert_eq!(buf.num_strings, 1);
    assert_eq!(emitted(&buf), lines(&[""]));
}

#[test]
fn string_escapes_decode() {
    let mut buf = ASM::default();
    assert_eq!(string("a\\0\\r").visit_com(&mut buf, &vec![]), Ok(()));
    assert_eq!(buf.data[2], "string_0 db 97,0,13");
    assert_eq!(string("").visit_com(&mut buf, &vec![]), Ok(()));
    assert_eq!(buf.data[3], "string_1 db ");
    assert_eq!(buf.stack, lines(&["string_0", "3", "string_1", "0"]));
}

#[test]
fn unknown_escape_is_rejected() {
    let mut buf = ASM::default();
    assert_eq!(string("a\\t").visit_com(&mut buf, &vec![]), Err(CodegenError::UnsupportedEscape));
    assert_eq!(string("a\\").visit_com(&mut buf, &vec![]), Err(CodegenError::TrailingBackslash));
    assert!(buf.stack.is_empty());
    assert_eq!(buf.data.len(), 2);
}

#[test]
fn variable_factor_has_no_lowering() {
    let mut buf = ASM::default();
    let v = AST::Factor(Factor::new(TokenEnum::Variable("x".to_string())));
    assert_eq!(v.visit_com(&mut buf, &vec![]), Err(CodegenError::UnsupportedNode));
}

#[test]
fn float_registers_run_out() {
    let mut buf = ASM::default();
    for _ in 0..8 {
        assert_eq!(float("1.0").visit_com(&mut buf, &vec![]), Ok(()));
    }
    assert_eq!(float("1.0").visit_com(&mut buf, &vec![]), Err(CodegenError::RegistersExhausted));
    assert_eq!(buf.num_floats, 8);
}

#[test]
fn constant_counter_overflow_is_reported() {
    let mut buf = ASM::default();
    buf.num_floats = usize::MAX;
    assert_eq!(float("1.0").visit_com(&mut buf, &vec![]), Err(CodegenError::CounterOverflow));
    buf.num_strings = usize::MAX;
    assert_eq!(string("a").visit_com(&mut buf, &vec![]), Err(CodegenError::CounterOverflow));
    assert_eq!(buf.data.len(), 2);
    assert!(buf.stack.is_empty());
}
