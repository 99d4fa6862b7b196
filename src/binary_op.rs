use vstd::prelude::*;
use vstd::string::*;

use crate::buffer::{lines, ASM};
use crate::operand_stack::release;
use crate::error::CodegenError;
use crate::register_file::{allocation, first_free_general};
use crate::registers::{is_general, lemma_reg_text_injective, reg_text, Register};
use crate::text::cat2;

verus! {

/// The statically known type of a value, as semantic analysis resolved it.
#[derive(Debug)]
pub enum VarType {
    Int,
    Int8,
    Int16,
    Int32,
    Str,
    Float,
    Char,
    Ptr(Box<VarType>),
    Array(Box<VarType>, usize),
    Struct(String),
    Function,
    Unknown,
}

/// An arithmetic operator.
#[derive(Clone, Copy, Debug, PartialEq, Eq, Structural)]
pub enum Operations {
    Plus,
    Minus,
    Divide,
    Multiply,
    ShiftLeft,
    ShiftRight,
    Modulo,
}

/// A comparison operator.
#[derive(Clone, Copy, Debug, PartialEq, Eq, Structural)]
pub enum Comparators {
    LessThan,
    GreaterThan,
    LessThanEq,
    GreaterThanEq,
    DoubleEquals,
    NotEquals,
}

/// Whether a type selects the floating-point instructions.
pub open spec fn is_float_type(t: VarType) -> bool {
    t is Float
}

/// The instructions that move the result from `rax` to the machine stack,
/// loading through a pointer `deref` times; `None` for a type that cannot
/// stand there.
pub open spec fn placement_lines(ty: VarType, deref: nat) -> Option<Seq<Seq<char>>> {
    match ty {
        VarType::Int | VarType::Int8 | VarType::Int16 | VarType::Int32 | VarType::Float
        | VarType::Char => Some(seq!["push rax"@]),
        VarType::Ptr(inner) => match *inner {
            VarType::Int | VarType::Int8 | VarType::Int16 | VarType::Int32 => Some(
                Seq::new(deref, |i: int| "mov rax, [rax]"@).push("push rax"@),
            ),
            VarType::Char => Some(
                seq![";; binary op ptr -> char"@] + if deref > 0 {
                    seq!["mov rbx, rax"@, "xor rax, rax"@, "mov al, [rbx]"@, "push rax"@]
                } else {
                    seq!["push rax"@]
                },
            ),
            VarType::Str => Some(
                seq![";; binary op ptr -> char"@] + if deref > 0 {
                    seq!["mov rbx, rax"@, "xor rax, rax"@, "mov rax, [rbx]"@, "push rax"@]
                } else {
                    seq!["push rax"@]
                },
            ),
            _ => None,
        },
        _ => None,
    }
}

/// A descriptor that names a floating-point register.
pub open spec fn is_float_reg_text(d: Seq<char>) -> bool {
    exists|r: Register| reg_text(r) == d && !is_general(r)
}

/// The instructions that copy the operand `d` to the machine stack.
pub open spec fn materialize(d: Seq<char>) -> Seq<Seq<char>> {
    if is_float_reg_text(d) {
        seq!["sub rsp, 8"@, "movsd [rsp], "@ + d]
    } else {
        seq!["push "@ + d]
    }
}

/// The instruction that takes the result off the machine stack into `r`.
pub open spec fn bind_line(r: Register) -> Seq<char> {
    "pop "@ + reg_text(r)
}

/// The instructions of an arithmetic operator on the two operands on top of
/// the machine stack, leaving the result in `rax`; `None` where the operator
/// has no floating-point form.
pub open spec fn op_lines(op: Operations, float: bool) -> Option<Seq<Seq<char>>> {
    if float {
        match op {
            Operations::Plus => Some(seq![
                ";; Floating point addition"@,
                ";; Get the first operand"@,
                "pop QWORD [float_imm]"@,
                "movsd xmm0, [float_imm]"@,
                ";; Get the second operand"@,
                "pop QWORD [float_imm]"@,
                "movsd xmm1, [float_imm]"@,
                ";; floating point addition"@,
                "addsd xmm0, xmm1"@,
                "movsd [float_imm], xmm0"@,
                "mov rax, [float_imm]"@,
            ]),
            Operations::Minus => Some(seq![
                ";; Floating point subtraction"@,
                ";; Get the first operand"@,
                "pop QWORD [float_imm]"@,
                "movsd xmm1, [float_imm]"@,
                ";; Get the second operand"@,
                "pop QWORD [float_imm]"@,
                "movsd xmm0, [float_imm]"@,
                ";; floating point subtraction"@,
                "subsd xmm0, xmm1"@,
                "movsd [float_imm], xmm0"@,
                "mov rax, [float_imm]"@,
            ]),
            Operations::Divide => Some(seq![
                ";; Floating point division"@,
                ";; Get the first operand"@,
                "pop QWORD [float_imm]"@,
                "movsd xmm1, [float_imm]"@,
                ";; Get the second operand"@,
                "pop QWORD [float_imm]"@,
                "movsd xmm0, [float_imm]"@,
                ";; floating point subtraction"@,
                "divsd xmm0, xmm1"@,
                "movsd [float_imm], xmm0"@,
                "mov rax, [float_imm]"@,
            ]),
            Operations::Multiply => Some(seq![
                ";; Floating point multiplication"@,
                ";; Get the first operand"@,
                "pop QWORD [float_imm]"@,
                "movsd xmm0, [float_imm]"@,
                ";; Get the second operand"@,
                "pop QWORD [float_imm]"@,
                "movsd xmm1, [float_imm]"@,
                ";; floating point addition"@,
                "mulsd xmm0, xmm1"@,
                "movsd [float_imm], xmm0"@,
                "mov rax, [float_imm]"@,
            ]),
            _ => None,
        }
    } else {
        match op {
            Operations::Plus => Some(seq![
                ";; Plus get the two operands from the stack"@,
                "pop rax"@,
                "pop rbx"@,
                "add rax, rbx"@,
            ]),
            Operations::Minus => Some(seq![
                ";; Minus get the two operands from the stack"@,
                "pop rbx"@,
                "pop rax"@,
                "sub rax, rbx"@,
            ]),
            Operations::Divide => Some(seq![
                ";; Divide clean up rdx as this might mess up the final output"@,
                "xor rdx, rdx"@,
                ";; get the two operands from the stack"@,
                "pop rbx"@,
                "pop rax"@,
                "div rbx"@,
            ]),
            Operations::Multiply => Some(seq![
                ";; Multiply get the two operands from the stack"@,
                "xor rdx, rdx"@,
                "pop rax"@,
                "pop rbx"@,
                "mul rbx"@,
            ]),
            Operations::ShiftLeft => Some(seq![
                ";; ShiftLeft get the two operands from the stack"@,
                "xor rax, rax"@,
                "xor rcx, rcx"@,
                "pop rcx"@,
                "pop rax"@,
                ";; We can only shift left or right by 8 bits"@,
                "shl rax, cl"@,
            ]),
            Operations::ShiftRight => Some(seq![
                ";; ShiftRight get the two operands from the stack"@,
                "xor rax, rax"@,
                "xor rcx, rcx"@,
                "pop rcx"@,
                "pop rax"@,
                ";; We can only shift left or right by 8 bits"@,
                "shr rax, cl"@,
            ]),
            Operations::Modulo => Some(seq![
                ";; Modulo get the two operands from the stack"@,
                "xor rdx, rdx"@,
                "pop rbx"@,
                "pop rax"@,
                "div rbx"@,
                "mov rax, rdx"@,
            ]),
        }
    }
}

/// The instructions of a comparison of the two operands on top of the machine
/// stack, pushing 1 when it holds and 0 when not.
pub open spec fn compare_lines(comp: Comparators) -> Seq<Seq<char>> {
    match comp {
        Comparators::LessThan => seq![
            ";; Compare two numbers"@,
            "pop rbx"@,
            "pop rax"@,
            "xor rcx, rcx"@,
            "cmp rax, rbx"@,
            "setl cl"@,
            "push rcx"@,
        ],
        Comparators::GreaterThan => seq![
            ";; Compare two numbers"@,
            "pop rbx"@,
            "pop rax"@,
            "xor rcx, rcx"@,
            "cmp rax, rbx"@,
            "setg cl"@,
            "push rcx"@,
        ],
        Comparators::LessThanEq => seq![
            ";; Compare two numbers"@,
            "pop rbx"@,
            "pop rax"@,
            "xor rcx, rcx"@,
            "cmp rax, rbx"@,
            "setle cl"@,
            "push rcx"@,
        ],
        Comparators::GreaterThanEq => seq![
            ";; Compare two numbers"@,
            "pop rbx"@,
            "pop rax"@,
            "xor rcx, rcx"@,
            "cmp rax, rbx"@,
            "setge cl"@,
            "push rcx"@,
        ],
        Comparators::DoubleEquals => seq![
            ";; Compare two numbers"@,
            "pop rbx"@,
            "pop rax"@,
            "xor rcx, rcx"@,
            "cmp rax, rbx"@,
            "sete cl"@,
            "push rcx"@,
        ],
        Comparators::NotEquals => seq![
            ";; Compare two numbers"@,
            "pop rbx"@,
            "pop rax"@,
            "xor rcx, rcx"@,
            "cmp rax, rbx"@,
            "setne cl"@,
            "push rcx"@,
        ],
    }
}

fn op_text(op: Operations, float: bool) -> (r: Option<Vec<String>>)
    ensures
        r is None <==> op_lines(op, float) is None,
        r matches Some(v) ==> op_lines(op, float) == Some(lines(v@)),
{
    let r = if float {
        match op {
            Operations::Plus => Some(vec![
                String::from_str(";; Floating point addition"),
                String::from_str(";; Get the first operand"),
                String::from_str("pop QWORD [float_imm]"),
                String::from_str("movsd xmm0, [float_imm]"),
                String::from_str(";; Get the second operand"),
                String::from_str("pop QWORD [float_imm]"),
                String::from_str("movsd xmm1, [float_imm]"),
                String::from_str(";; floating point addition"),
                String::from_str("addsd xmm0, xmm1"),
                String::from_str("movsd [float_imm], xmm0"),
                String::from_str("mov rax, [float_imm]"),
            ]),
            Operations::Minus => Some(vec![
                String::from_str(";; Floating point subtraction"),
                String::from_str(";; Get the first operand"),
                String::from_str("pop QWORD [float_imm]"),
                String::from_str("movsd xmm1, [float_imm]"),
                String::from_str(";; Get the second operand"),
                String::from_str("pop QWORD [float_imm]"),
                String::from_str("movsd xmm0, [float_imm]"),
                String::from_str(";; floating point subtraction"),
                String::from_str("subsd xmm0, xmm1"),
                String::from_str("movsd [float_imm], xmm0"),
                String::from_str("mov rax, [float_imm]"),
            ]),
            Operations::Divide => Some(vec![
                String::from_str(";; Floating point division"),
                String::from_str(";; Get the first operand"),
                String::from_str("pop QWORD [float_imm]"),
                String::from_str("movsd xmm1, [float_imm]"),
                String::from_str(";; Get the second operand"),
                String::from_str("pop QWORD [float_imm]"),
                String::from_str("movsd xmm0, [float_imm]"),
                String::from_str(";; floating point subtraction"),
                String::from_str("divsd xmm0, xmm1"),
                String::from_str("movsd [float_imm], xmm0"),
                String::from_str("mov rax, [float_imm]"),
            ]),
            Operations::Multiply => Some(vec![
                String::from_str(";; Floating point multiplication"),
                String::from_str(";; Get the first operand"),
                String::from_str("pop QWORD [float_imm]"),
                String::from_str("movsd xmm0, [float_imm]"),
                String::from_str(";; Get the second operand"),
                String::from_str("pop QWORD [float_imm]"),
                String::from_str("movsd xmm1, [float_imm]"),
                String::from_str(";; floating point addition"),
                String::from_str("mulsd xmm0, xmm1"),
                String::from_str("movsd [float_imm], xmm0"),
                String::from_str("mov rax, [float_imm]"),
            ]),
            _ => None,
        }
    } else {
        match op {
            Operations::Plus => Some(vec![
                String::from_str(";; Plus get the two operands from the stack"),
                String::from_str("pop rax"),
                String::from_str("pop rbx"),
                String::from_str("add rax, rbx"),
            ]),
            Operations::Minus => Some(vec![
                String::from_str(";; Minus get the two operands from the stack"),
                String::from_str("pop rbx"),
                String::from_str("pop rax"),
                String::from_str("sub rax, rbx"),
            ]),
            Operations::Divide => Some(vec![
                String::from_str(";; Divide clean up rdx as this might mess up the final output"),
                String::from_str("xor rdx, rdx"),
                String::from_str(";; get the two operands from the stack"),
                String::from_str("pop rbx"),
                String::from_str("pop rax"),
                String::from_str("div rbx"),
            ]),
            Operations::Multiply => Some(vec![
                String::from_str(";; Multiply get the two operands from the stack"),
                String::from_str("xor rdx, rdx"),
                String::from_str("pop rax"),
                String::from_str("pop rbx"),
                String::from_str("mul rbx"),
            ]),
            Operations::ShiftLeft => Some(vec![
                String::from_str(";; ShiftLeft get the two operands from the stack"),
                String::from_str("xor rax, rax"),
                String::from_str("xor rcx, rcx"),
                String::from_str("pop rcx"),
                String::from_str("pop rax"),
                String::from_str(";; We can only shift left or right by 8 bits"),
                String::from_str("shl rax, cl"),
            ]),
            Operations::ShiftRight => Some(vec![
                String::from_str(";; ShiftRight get the two operands from the stack"),
                String::from_str("xor rax, rax"),
                String::from_str("xor rcx, rcx"),
                String::from_str("pop rcx"),
                String::from_str("pop rax"),
                String::from_str(";; We can only shift left or right by 8 bits"),
                String::from_str("shr rax, cl"),
            ]),
            Operations::Modulo => Some(vec![
                String::from_str(";; Modulo get the two operands from the stack"),
                String::from_str("xor rdx, rdx"),
                String::from_str("pop rbx"),
                String::from_str("pop rax"),
                String::from_str("div rbx"),
                String::from_str("mov rax, rdx"),
            ]),
        }
    };
    proof {
        if r is Some {
            assert(lines(r.unwrap()@) =~= op_lines(op, float).unwrap());
        }
    }
    r
}

fn compare_text(comp: Comparators) -> (v: Vec<String>)
    ensures
        lines(v@) == compare_lines(comp),
{
    let v = match comp {
        Comparators::LessThan => vec![
            String::from_str(";; Compare two numbers"),
            String::from_str("pop rbx"),
            String::from_str("pop rax"),
            String::from_str("xor rcx, rcx"),
            String::from_str("cmp rax, rbx"),
            String::from_str("setl cl"),
            String::from_str("push rcx"),
        ],
        Comparators::GreaterThan => vec![
            String::from_str(";; Compare two numbers"),
            String::from_str("pop rbx"),
            String::from_str("pop rax"),
            String::from_str("xor rcx, rcx"),
            String::from_str("cmp rax, rbx"),
            String::from_str("setg cl"),
            String::from_str("push rcx"),
        ],
        Comparators::LessThanEq => vec![
            String::from_str(";; Compare two numbers"),
            String::from_str("pop rbx"),
            String::from_str("pop rax"),
            String::from_str("xor rcx, rcx"),
            String::from_str("cmp rax, rbx"),
            String::from_str("setle cl"),
            String::from_str("push rcx"),
        ],
        Comparators::GreaterThanEq => vec![
            String::from_str(";; Compare two numbers"),
            String::from_str("pop rbx"),
            String::from_str("pop rax"),
            String::from_str("xor rcx, rcx"),
            String::from_str("cmp rax, rbx"),
            String::from_str("setge cl"),
            String::from_str("push rcx"),
        ],
        Comparators::DoubleEquals => vec![
            String::from_str(";; Compare two numbers"),
            String::from_str("pop rbx"),
            String::from_str("pop rax"),
            String::from_str("xor rcx, rcx"),
            String::from_str("cmp rax, rbx"),
            String::from_str("sete cl"),
            String::from_str("push rcx"),
        ],
        Comparators::NotEquals => vec![
            String::from_str(";; Compare two numbers"),
            String::from_str("pop rbx"),
            String::from_str("pop rax"),
            String::from_str("xor rcx, rcx"),
            String::from_str("cmp rax, rbx"),
            String::from_str("setne cl"),
            String::from_str("push rcx"),
        ],
    };
    proof {
        assert(lines(v@) =~= compare_lines(comp));
    }
    v
}

fn placement_text(ty: &VarType, deref: usize) -> (r: Option<Vec<String>>)
    ensures
        r is None <==> placement_lines(*ty, deref as nat) is None,
        r matches Some(v) ==> placement_lines(*ty, deref as nat) == Some(lines(v@)),
{
    match ty {
        VarType::Int | VarType::Int8 | VarType::Int16 | VarType::Int32 | VarType::Float
        | VarType::Char => {
            let v = vec![String::from_str("push rax")];
            proof {
                assert(lines(v@) =~= seq!["push rax"@]);
            }
            Some(v)
        },
        VarType::Ptr(inner) => match &**inner {
            VarType::Int | VarType::Int8 | VarType::Int16 | VarType::Int32 => {
                let mut v: Vec<String> = Vec::new();
                let mut i: usize = 0;
                while i < deref
                    invariant
                        i <= deref,
                        lines(v@) == Seq::new(i as nat, |j: int| "mov rax, [rax]"@),
                    decreases deref - i,
                {
                    let ghost prev = lines(v@);
                    let line = String::from_str("mov rax, [rax]");
                    v.push(line);
                    i = i + 1;
                    proof {
                        assert(lines(v@) =~= prev.push(line@));
                        assert(lines(v@) =~= Seq::new(i as nat, |j: int| "mov rax, [rax]"@));
                    }
                }
                v.push(String::from_str("push rax"));
                proof {
                    assert(lines(v@) =~= Seq::new(deref as nat, |j: int| "mov rax, [rax]"@).push(
                        "push rax"@,
                    ));
                }
                Some(v)
            },
            VarType::Char => {
                let v = if deref > 0 {
                    vec![
                        String::from_str(";; binary op ptr -> char"),
                        String::from_str("mov rbx, rax"),
                        String::from_str("xor rax, rax"),
                        String::from_str("mov al, [rbx]"),
                        String::from_str("push rax"),
                    ]
                } else {
                    vec![String::from_str(";; binary op ptr -> char"), String::from_str("push rax")]
                };
                proof {
                    assert(lines(v@) =~= placement_lines(*ty, deref as nat).unwrap());
                }
                Some(v)
            },
            VarType::Str => {
                let v = if deref > 0 {
                    vec![
                        String::from_str(";; binary op ptr -> char"),
                        String::from_str("mov rbx, rax"),
                        String::from_str("xor rax, rax"),
                        String::from_str("mov rax, [rbx]"),
                        String::from_str("push rax"),
                    ]
                } else {
                    vec![String::from_str(";; binary op ptr -> char"), String::from_str("push rax")]
                };
                proof {
                    assert(lines(v@) =~= placement_lines(*ty, deref as nat).unwrap());
                }
                Some(v)
            },
            _ => None,
        },
        _ => None,
    }
}

impl ASM {
    /// The locked set once the two operands on top of the stack are released.
    pub open spec fn freed_two(&self) -> Set<Register> {
        release(
            release(self.locked(), self.operands().last()),
            self.operands().drop_last().last(),
        )
    }

    /// Copies the operand `d` to the machine stack.
    fn materialize_text(&self, d: &String) -> (v: Vec<String>)
        ensures
            lines(v@) == materialize(d@),
    {
        let (is_reg, reg) = self.is_reg_name(d);
        if is_reg && reg.is_float() {
            let v = vec![String::from_str("sub rsp, 8"), cat2("movsd [rsp], ", d.as_str())];
            proof {
                assert(lines(v@) =~= materialize(d@));
            }
            v
        } else {
            let v = vec![cat2("push ", d.as_str())];
            proof {
                if is_float_reg_text(d@) {
                    let r = choose|r: Register| reg_text(r) == d@ && !is_general(r);
                    lemma_reg_text_injective(r, reg);
                }
                assert(lines(v@) =~= materialize(d@));
            }
            v
        }
    }

    /// Consumes the two operands on top of the operand stack, releasing their
    /// registers, and copies them to the machine stack, the lower one first,
    /// so that an operator's instructions find them there.
    pub fn spill_operands(&mut self)
        requires
            old(self).wf(),
            old(self).operands_ok(),
            old(self).operands().len() >= 2,
        ensures
            final(self).wf(),
            final(self).operands_ok(),
            final(self).code() == old(self).code() + materialize(
                old(self).operands().drop_last().last(),
            ) + materialize(old(self).operands().last()) + seq![Seq::<char>::empty()],
            old(self).grows_to(final(self)),
            final(self).operands() == old(self).operands().drop_last().drop_last(),
            final(self).locked() == old(self).freed_two(),
            old(self).same_sections(final(self)),
    {
        let b = self.pop_operand();
        let ghost mid = *self;
        let a = self.pop_operand();
        let ghost popped = *self;
        let mut instructions = self.materialize_text(&a);
        let mut second = self.materialize_text(&b);
        instructions.append(&mut second);
        proof {
            assert(lines(instructions@).push(Seq::<char>::empty()) =~= materialize(a@)
                + materialize(b@) + seq![Seq::<char>::empty()]);
        }
        self.extend_current_label(instructions);
        proof {
            old(self).lemma_grows_trans(&mid, &popped);
            old(self).lemma_grows_trans(&popped, self);
        }
    }

    /// Takes the result of an operation off the machine stack into the first
    /// free general-purpose register, which is locked and pushed on the
    /// operand stack.
    pub fn bind_result(&mut self) -> (r: Result<Register, CodegenError>)
        requires
            old(self).wf(),
            old(self).operands_ok(),
        ensures
            final(self).wf(),
            r == allocation(
                first_free_general(old(self).locked(), old(self).regs_locked_for_function_call@),
            ),
            r is Err ==> *final(self) == *old(self),
            r matches Ok(reg) ==> {
                &&& final(self).code() == old(self).code() + seq![
                    bind_line(reg),
                    Seq::<char>::empty(),
                ]
                &&& old(self).grows_to(final(self))
                &&& final(self).operands() == old(self).operands().push(reg_text(reg))
                &&& final(self).locked() == old(self).locked().insert(reg)
                &&& final(self).used_registers@ == old(self).used_registers@.push(reg)
                &&& final(self).operands_ok()
                &&& old(self).same_sections(final(self))
            },
    {
        let reg = match self.get_free_register() {
            Ok(reg) => reg,
            Err(e) => {
                return Err(e);
            },
        };
        let ghost allocated_state = *self;
        proof {
            old(self).lemma_same_code_grows(&allocated_state);
            crate::register_file::lemma_first_free_available(
                old(self).locked(),
                old(self).regs_locked_for_function_call@,
                0,
                crate::registers::GENERAL_REGISTER_COUNT as int,
            );
        }
        self.add_to_current_label(cat2("pop ", reg.name().as_str()));
        let ghost emitted = *self;
        proof {
            old(self).lemma_grows_trans(&allocated_state, &emitted);
        }
        self.stack_push(reg.name());
        proof {
            emitted.lemma_same_code_grows(self);
            old(self).lemma_grows_trans(&emitted, self);
            old(self).lemma_push_fresh(self, reg);
        }
        Ok(reg)
    }

    /// Emits an arithmetic operator on the two values on top of the machine
    /// stack, the one pushed last as its right operand, with instructions
    /// chosen by the result type, and pushes the result from `rax`, loaded
    /// through a pointer `times_dereferenced` times where the type says so.
    pub fn binary_op_nums(
        &mut self,
        op: Operations,
        times_dereferenced: usize,
        result_type: &VarType,
    ) -> (r: Result<(), CodegenError>)
        requires
            old(self).wf(),
        ensures
            final(self).wf(),
            (r == Err::<(), CodegenError>(CodegenError::UnsupportedOperation)) == (op_lines(
                op,
                is_float_type(*result_type),
            ) is None),
            (r == Err::<(), CodegenError>(CodegenError::UnsupportedType)) == (op_lines(
                op,
                is_float_type(*result_type),
            ) is Some && placement_lines(*result_type, times_dereferenced as nat) is None),
            (r is Ok) == (op_lines(op, is_float_type(*result_type)) is Some && placement_lines(
                *result_type,
                times_dereferenced as nat,
            ) is Some),
            r is Err ==> *final(self) == *old(self),
            r is Ok ==> {
                &&& final(self).code() == old(self).code() + op_lines(
                    op,
                    is_float_type(*result_type),
                ).unwrap() + placement_lines(*result_type, times_dereferenced as nat).unwrap()
                    + seq![Seq::<char>::empty()]
                &&& old(self).grows_to(final(self))
                &&& final(self).operands() == old(self).operands()
                &&& final(self).locked() == old(self).locked()
                &&& final(self).used_registers@ == old(self).used_registers@
                &&& old(self).same_sections(final(self))
            },
    {
        let is_float = match result_type {
            VarType::Float => true,
            _ => false,
        };
        let mut instructions = match op_text(op, is_float) {
            Some(v) => v,
            None => {
                return Err(CodegenError::UnsupportedOperation);
            },
        };
        let mut placement = match placement_text(result_type, times_dereferenced) {
            Some(v) => v,
            None => {
                return Err(CodegenError::UnsupportedType);
            },
        };
        let ghost body = lines(instructions@) + lines(placement@);
        instructions.append(&mut placement);
        proof {
            assert(lines(instructions@).push(Seq::<char>::empty()) =~= body + seq![
                Seq::<char>::empty(),
            ]);
        }
        self.extend_current_label(instructions);
        Ok(())
    }

    /// Emits a comparison of the two values on top of the machine stack, the
    /// one pushed last on the right, pushing 1 when it holds and 0 when not.
    pub fn compare_two_numbers(&mut self, comp: Comparators)
        requires
            old(self).wf(),
        ensures
            final(self).wf(),
            final(self).code() == old(self).code() + compare_lines(comp) + seq![
                Seq::<char>::empty(),
            ],
            old(self).grows_to(final(self)),
            final(self).operands() == old(self).operands(),
            final(self).locked() == old(self).locked(),
            final(self).used_registers@ == old(self).used_registers@,
            old(self).same_sections(final(self)),
    {
        self.extend_current_label(compare_text(comp));
    }
}

} // verus!
