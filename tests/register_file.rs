use codegen::buffer::ASM;
use codegen::error::CodegenError;
use codegen::registers::Register;

#[test]
fn lock_then_unlock_restores_locked_set() {
    let mut buf = ASM::default();
    buf.lock_register(Register::R9);
    let before = buf.used_registers.clone();
    buf.lock_register(Register::R12);
    assert_eq!(buf.used_registers.len(), 2);
    buf.unlock_register(Register::R12);
    assert_eq!(buf.used_registers, before);
}

#[test]
fn locked_set_never_exceeds_register_count() {
    let mut buf = ASM::default();
    let mut n = 0;
    while buf.get_free_register().is_ok() {
        n += 1;
    }
    while buf.get_free_float_register().is_ok() {
        n += 1;
    }
    assert_eq!(n, 16);
    assert_eq!(buf.used_registers.len(), 16);
}

#[test]
fn allocation_follows_scan_order_then_fails() {
    let mut buf = ASM::default();
    let expected = [
        Register::R8,
        Register::R9,
        Register::R10,
        Register::R11,
        Register::R12,
        Register::R13,
        Register::R14,
        Register::R15,
    ];
    for reg in expected {
        assert_eq!(buf.get_free_register(), Ok(reg));
    }
    assert_eq!(buf.get_free_register(), Err(CodegenError::RegistersExhausted));
    assert_eq!(buf.used_registers.len(), 8);
}

#[test]
fn allocation_reuses_first_unlocked_register() {
    let mut buf = ASM::default();
    assert_eq!(buf.get_free_register(), Ok(Register::R8));
    assert_eq!(buf.get_free_register(), Ok(Register::R9));
    assert_eq!(buf.get_free_register(), Ok(Register::R10));
    buf.unlock_register(Register::R9);
    assert_eq!(buf.get_free_register(), Ok(Register::R9));
}

#[test]
fn allocation_skips_registers_reserved_for_a_call() {
    let mut buf = ASM::default();
    buf.regs_locked_for_function_call.push(Register::R8);
    assert_eq!(buf.get_free_register(), Ok(Register::R9));
}

#[test]
fn float_allocation_uses_float_registers() {
    let mut buf = ASM::default();
    assert_eq!(buf.get_free_float_register(), Ok(Register::Xmm2));
    assert_eq!(buf.get_free_float_register(), Ok(Register::Xmm3));
    assert_eq!(buf.get_free_register(), Ok(Register::R8));
}

#[test]
fn register_names_are_recognised() {
    let buf = ASM::default();
    assert_eq!(buf.is_reg_name(&"r13".to_string()), (true, Register::R13));
    assert_eq!(buf.is_reg_name(&"xmm4".to_string()), (true, Register::Xmm4));
    assert_eq!(buf.is_reg_name(&"rax".to_string()), (false, Register::R11));
    assert_eq!(buf.is_reg_name(&"5".to_string()), (false, Register::R11));
}

#[test]
fn popped_register_operand_is_unlocked() {
    let mut buf = ASM::default();
    buf.lock_register(Register::R10);
    buf.unlock_register_from_stack_value(&"r10".to_string());
    assert!(buf.used_registers.is_empty());
    buf.lock_register(Register::R10);
    buf.unlock_register_from_stack_value(&"42".to_string());
    assert_eq!(buf.used_registers, vec![Register::R10]);
}

#[test]
fn unlock_keeps_order_of_the_others() {
    let mut buf = ASM::default();
    buf.lock_register(Register::R12);
    buf.lock_register(Register::R8);
    buf.lock_register(Register::Xmm3);
    buf.unlock_register(Register::R8);
    assert_eq!(buf.used_registers, vec![Register::R12, Register::Xmm3]);
}

#[test]
fn register_operations_keep_argument_position() {
    let mut buf = ASM::default();
    buf.start_parsing_function_args();
    buf.parsing_next_function_arg();
    buf.lock_register(Register::R8);
    assert_eq!(buf.get_free_register(), Ok(Register::R9));
    assert_eq!(buf.used_registers, vec![Register::R8, Register::R9]);
    buf.unlock_register(Register::R8);
    buf.inc_num_ifs();
    assert_eq!(buf.function_argument_number, Some(1));
}
