use codegen::buffer::ASM;

#[test]
fn fresh_buffer_has_entry_label() {
    let buf = ASM::default();
    assert_eq!(buf.current_label(), "_start");
    assert_eq!(buf.labels.len(), 1);
    assert_eq!(buf.labels[0].name, "_start");
    assert_eq!(buf.labels[0].code, vec!["mov [argc], rsp".to_string()]);
    assert_eq!(buf.imports, vec!["std.asm".to_string()]);
    assert_eq!(buf.text, vec!["global _start".to_string()]);
    assert_eq!(buf.data.len(), 2);
    assert_eq!(buf.bss.len(), 3);
}

#[test]
fn changing_label_creates_it_once() {
    let mut buf = ASM::default();
    buf.change_current_label("helper".to_string());
    assert_eq!(buf.labels.len(), 2);
    buf.add_to_current_label("ret".to_string());
    buf.change_current_label("_start".to_string());
    buf.change_current_label("helper".to_string());
    assert_eq!(buf.labels.len(), 2);
    assert_eq!(buf.labels[1].code, vec!["ret".to_string(), String::new()]);
    assert_eq!(buf.current_label(), "helper");
}

#[test]
fn extend_appends_lines_and_separator() {
    let mut buf = ASM::default();
    buf.extend_current_label(vec!["a".to_string(), "b".to_string()]);
    assert_eq!(
        buf.labels[0].code,
        vec![
            "mov [argc], rsp".to_string(),
            "a".to_string(),
            "b".to_string(),
            String::new()
        ]
    );
}

#[test]
fn operand_stack_is_last_in_first_out() {
    let mut buf = ASM::default();
    assert_eq!(buf.stack_pop(), None);
    buf.stack_push("1".to_string());
    buf.stack_extend(vec!["2".to_string(), "3".to_string()]);
    assert_eq!(buf.stack_pop(), Some("3".to_string()));
    assert_eq!(buf.stack_pop(), Some("2".to_string()));
    assert_eq!(buf.stack_pop(), Some("1".to_string()));
    assert_eq!(buf.stack_pop(), None);
}

#[test]
fn ladder_counter_increments() {
    let mut buf = ASM::default();
    buf.inc_num_ifs();
    buf.inc_num_ifs();
    assert_eq!(buf.num_ifs, 2);
}

#[test]
fn argument_counting() {
    let mut buf = ASM::default();
    assert_eq!(buf.function_argument_number, None);
    buf.start_parsing_function_args();
    assert_eq!(buf.function_argument_number, Some(0));
    buf.parsing_next_function_arg();
    buf.parsing_next_function_arg();
    assert_eq!(buf.function_argument_number, Some(2));
    buf.end_parsing_function_args();
    assert_eq!(buf.function_argument_number, None);
}
