use vstd::prelude::*;
use vstd::string::*;

use crate::binary_op::is_float_reg_text;
use crate::buffer::{lines, ASM};
use crate::operand_stack::release;
use crate::error::CodegenError;
use crate::register_file::{allocation, first_free_general, lemma_first_free_available};
use crate::registers::{is_general, lemma_reg_text_injective, reg_text, Register};
use crate::text::{cat2, cat3};

verus! {

/// Writes the string at symbol `sym`, `len` bytes long, to standard output.
pub open spec fn write_string_lines(sym: Seq<char>, len: Seq<char>) -> Seq<Seq<char>> {
    seq![
        ";; write a string"@,
        "mov rax, 1"@,
        "mov rdi, 1"@,
        "mov rsi, "@ + sym,
        "mov rdx, "@ + len,
        "syscall"@,
    ]
}

/// The instruction that copies the operand `d` into `rax`.
pub open spec fn load_rax_line(d: Seq<char>) -> Seq<char> {
    if is_float_reg_text(d) {
        "movq rax, "@ + d
    } else {
        "mov rax, "@ + d
    }
}

/// Prints the number `d` in decimal.
pub open spec fn write_number_lines(d: Seq<char>) -> Seq<Seq<char>> {
    seq![";; write a number"@, load_rax_line(d), "call _printRAX"@]
}

/// Ends the program with status `d`.
pub open spec fn exit_lines(d: Seq<char>) -> Seq<Seq<char>> {
    seq![";; exit"@, "mov rax, 60"@, "mov rdi, "@ + d, "syscall"@]
}

/// Saves a register on the machine stack.
pub open spec fn save_line(r: Register) -> Seq<Seq<char>> {
    if is_general(r) {
        seq!["push "@ + reg_text(r)]
    } else {
        seq!["sub rsp, 8"@, "movsd [rsp], "@ + reg_text(r)]
    }
}

/// Restores a register from the machine stack.
pub open spec fn restore_line(r: Register) -> Seq<Seq<char>> {
    if is_general(r) {
        seq!["pop "@ + reg_text(r)]
    } else {
        seq!["movsd "@ + reg_text(r) + ", [rsp]"@, "add rsp, 8"@]
    }
}

/// Saves registers, the first one deepest.
pub open spec fn save_lines(regs: Seq<Register>) -> Seq<Seq<char>>
    decreases regs.len(),
{
    if regs.len() == 0 {
        Seq::empty()
    } else {
        save_lines(regs.drop_last()) + save_line(regs.last())
    }
}

/// Restores registers that `save_lines` saved, the last one first.
pub open spec fn restore_lines(regs: Seq<Register>) -> Seq<Seq<char>>
    decreases regs.len(),
{
    if regs.len() == 0 {
        Seq::empty()
    } else {
        restore_line(regs.last()) + restore_lines(regs.drop_last())
    }
}

/// Calls `name` with the live registers saved around the call, then takes
/// its result from `rax` into `r`.
pub open spec fn call_lines(saved: Seq<Register>, name: Seq<char>, r: Register) -> Seq<Seq<char>> {
    save_lines(saved) + seq!["call "@ + name] + restore_lines(saved) + seq![
        "mov "@ + reg_text(r) + ", rax"@,
    ]
}

fn save_text(r: Register) -> (v: Vec<String>)
    ensures
        lines(v@) == save_line(r),
{
    let v = if r.is_float() {
        vec![String::from_str("sub rsp, 8"), cat2("movsd [rsp], ", r.name().as_str())]
    } else {
        vec![cat2("push ", r.name().as_str())]
    };
    proof {
        assert(lines(v@) =~= save_line(r));
    }
    v
}

fn restore_text(r: Register) -> (v: Vec<String>)
    ensures
        lines(v@) == restore_line(r),
{
    let v = if r.is_float() {
        vec![cat3("movsd ", r.name().as_str(), ", [rsp]"), String::from_str("add rsp, 8")]
    } else {
        vec![cat2("pop ", r.name().as_str())]
    };
    proof {
        assert(lines(v@) =~= restore_line(r));
    }
    v
}

impl ASM {
    /// Consumes the operand on top of the stack, releasing its register.
    pub(crate) fn pop_operand(&mut self) -> (d: String)
        requires
            old(self).wf(),
            old(self).operands_ok(),
            old(self).operands().len() > 0,
        ensures
            final(self).wf(),
            final(self).operands_ok(),
            d@ == old(self).operands().last(),
            final(self).operands() == old(self).operands().drop_last(),
            final(self).locked() == release(old(self).locked(), d@),
            old(self).same_code(final(self)),
            old(self).grows_to(final(self)),
            old(self).same_sections(final(self)),
    {
        let d = self.stack_pop().unwrap();
        proof {
            let ops = old(self).operands();
            assert forall|r: Register| reg_text(r) == d@ implies self.locked().contains(r) by {
                assert(reg_text(r) == ops[ops.len() - 1]);
            }
        }
        self.unlock_register_from_stack_value(&d);
        proof {
            old(self).lemma_pop_ok(self);
            old(self).lemma_same_code_grows(self);
        }
        d
    }

    /// Copies the operand `d` into `rax`.
    fn load_rax_text(&self, d: &String) -> (s: String)
        ensures
            s@ == load_rax_line(d@),
    {
        let (is_reg, reg) = self.is_reg_name(d);
        if is_reg && reg.is_float() {
            cat2("movq rax, ", d.as_str())
        } else {
            proof {
                if is_float_reg_text(d@) {
                    let r = choose|r: Register| reg_text(r) == d@ && !is_general(r);
                    lemma_reg_text_injective(r, reg);
                }
            }
            cat2("mov rax, ", d.as_str())
        }
    }

    /// Writes a string to standard output: consumes its length on top of the
    /// stack and its symbol below it.
    pub fn func_write_string(&mut self)
        requires
            old(self).wf(),
            old(self).operands_ok(),
            old(self).operands().len() >= 2,
        ensures
            final(self).wf(),
            final(self).operands_ok(),
            final(self).code() == old(self).code() + write_string_lines(
                old(self).operands().drop_last().last(),
                old(self).operands().last(),
            ) + seq![Seq::<char>::empty()],
            old(self).grows_to(final(self)),
            final(self).operands() == old(self).operands().drop_last().drop_last(),
            final(self).locked() == old(self).freed_two(),
            old(self).same_sections(final(self)),
    {
        let len = self.pop_operand();
        let ghost mid = *self;
        let sym = self.pop_operand();
        let ghost popped = *self;
        let v = vec![
            String::from_str(";; write a string"),
            String::from_str("mov rax, 1"),
            String::from_str("mov rdi, 1"),
            cat2("mov rsi, ", sym.as_str()),
            cat2("mov rdx, ", len.as_str()),
            String::from_str("syscall"),
        ];
        self.extend_current_label(v);
        proof {
            assert(lines(v@).push(Seq::<char>::empty()) =~= write_string_lines(sym@, len@) + seq![
                Seq::<char>::empty(),
            ]);
            old(self).lemma_grows_trans(&mid, &popped);
            old(self).lemma_grows_trans(&popped, self);
        }
    }

    /// Prints the number on top of the stack, consuming it.
    pub fn func_write_number(&mut self)
        requires
            old(self).wf(),
            old(self).operands_ok(),
            old(self).operands().len() >= 1,
        ensures
            final(self).wf(),
            final(self).operands_ok(),
            final(self).code() == old(self).code() + write_number_lines(old(self).operands().last())
                + seq![Seq::<char>::empty()],
            old(self).grows_to(final(self)),
            final(self).operands() == old(self).operands().drop_last(),
            final(self).locked() == release(old(self).locked(), old(self).operands().last()),
            old(self).same_sections(final(self)),
    {
        let d = self.pop_operand();
        let ghost popped = *self;
        let v = vec![
            String::from_str(";; write a number"),
            self.load_rax_text(&d),
            String::from_str("call _printRAX"),
        ];
        self.extend_current_label(v);
        proof {
            assert(lines(v@).push(Seq::<char>::empty()) =~= write_number_lines(d@) + seq![
                Seq::<char>::empty(),
            ]);
            old(self).lemma_grows_trans(&popped, self);
        }
    }

    /// Ends the program with the status on top of the stack, consuming it.
    pub fn func_exit(&mut self)
        requires
            old(self).wf(),
            old(self).operands_ok(),
            old(self).operands().len() >= 1,
        ensures
            final(self).wf(),
            final(self).operands_ok(),
            final(self).code() == old(self).code() + exit_lines(old(self).operands().last())
                + seq![Seq::<char>::empty()],
            old(self).grows_to(final(self)),
            final(self).operands() == old(self).operands().drop_last(),
            final(self).locked() == release(old(self).locked(), old(self).operands().last()),
            old(self).same_sections(final(self)),
    {
        let d = self.pop_operand();
        let ghost popped = *self;
        let v = vec![
            String::from_str(";; exit"),
            String::from_str("mov rax, 60"),
            cat2("mov rdi, ", d.as_str()),
            String::from_str("syscall"),
        ];
        self.extend_current_label(v);
        proof {
            assert(lines(v@).push(Seq::<char>::empty()) =~= exit_lines(d@) + seq![
                Seq::<char>::empty(),
            ]);
            old(self).lemma_grows_trans(&popped, self);
        }
    }

    /// Calls the user function `name`: every locked register, in the order of
    /// `used_registers`, is saved on the machine stack before the call and
    /// restored after it, so the callee cannot clobber a pending operand; the
    /// result is then taken from `rax` into a free general-purpose register
    /// that is pushed.
    pub fn function_call(&mut self, name: &String) -> (r: Result<(), CodegenError>)
        requires
            old(self).wf(),
            old(self).operands_ok(),
        ensures
            final(self).wf(),
            r == match allocation(
                first_free_general(old(self).locked(), old(self).regs_locked_for_function_call@),
            ) {
                Ok(_) => Ok(()),
                Err(e) => Err::<(), CodegenError>(e),
            },
            r is Err ==> *final(self) == *old(self),
            r is Ok ==> {
                let reg = first_free_general(
                    old(self).locked(),
                    old(self).regs_locked_for_function_call@,
                ).unwrap();
                &&& final(self).operands_ok()
                &&& final(self).code() == old(self).code() + call_lines(
                    old(self).used_registers@,
                    name@,
                    reg,
                ) + seq![Seq::<char>::empty()]
                &&& old(self).grows_to(final(self))
                &&& final(self).operands() == old(self).operands().push(reg_text(reg))
                &&& final(self).locked() == old(self).locked().insert(reg)
                &&& final(self).used_registers@ == old(self).used_registers@.push(reg)
                &&& old(self).same_sections(final(self))
            },
    {
        let saved = self.used_registers.clone();
        let reg = match self.get_free_register() {
            Ok(reg) => reg,
            Err(e) => {
                return Err(e);
            },
        };
        let ghost allocated_state = *self;
        proof {
            old(self).lemma_same_code_grows(&allocated_state);
            lemma_first_free_available(
                old(self).locked(),
                old(self).regs_locked_for_function_call@,
                0,
                crate::registers::GENERAL_REGISTER_COUNT as int,
            );
        }
        let mut v: Vec<String> = Vec::new();
        let n = saved.len();
        let mut i: usize = 0;
        proof {
            assert(saved@.take(0) =~= Seq::<Register>::empty());
        }
        while i < n
            invariant
                n == saved@.len(),
                i <= n,
                lines(v@) == save_lines(saved@.take(i as int)),
            decreases n - i,
        {
            let ghost prev = v@;
            let mut one = save_text(saved[i]);
            v.append(&mut one);
            proof {
                assert(saved@.take(i + 1).drop_last() =~= saved@.take(i as int));
                assert(lines(v@) =~= lines(prev) + save_line(saved@[i as int]));
            }
            i = i + 1;
        }
        proof {
            assert(saved@.take(n as int) =~= saved@);
        }
        let ghost saves = lines(v@);
        v.push(cat2("call ", name.as_str()));
        let ghost with_call = lines(v@);
        proof {
            assert(with_call =~= saves + seq!["call "@ + name@]);
        }
        let mut j: usize = n;
        proof {
            assert(with_call + restore_rev(saved@, n as int) =~= with_call);
        }
        while j > 0
            invariant
                n == saved@.len(),
                j <= n,
                lines(v@) == with_call + restore_rev(saved@, j as int),
            decreases j,
        {
            let ghost prev = v@;
            let mut one = restore_text(saved[j - 1]);
            v.append(&mut one);
            proof {
                assert(lines(v@) =~= lines(prev) + restore_line(saved@[j - 1]));
                assert(restore_rev(saved@, j - 1) =~= restore_rev(saved@, j as int) + restore_line(
                    saved@[j - 1],
                ));
            }
            j = j - 1;
        }
        v.push(cat3("mov ", reg.name().as_str(), ", rax"));
        proof {
            lemma_restore_rev(saved@);
            assert(lines(v@).push(Seq::<char>::empty()) =~= call_lines(saved@, name@, reg) + seq![
                Seq::<char>::empty(),
            ]);
        }
        self.extend_current_label(v);
        let ghost emitted = *self;
        proof {
            old(self).lemma_grows_trans(&allocated_state, &emitted);
        }
        self.stack_push(reg.name());
        proof {
            emitted.lemma_same_code_grows(self);
            old(self).lemma_grows_trans(&emitted, self);
            old(self).lemma_push_fresh(self, reg);
        }
        Ok(())
    }
}

/// The restores of `regs[j..]`, from the last one down to `regs[j]`.
pub open spec fn restore_rev(regs: Seq<Register>, j: int) -> Seq<Seq<char>>
    decreases regs.len() - j,
{
    if j >= regs.len() || j < 0 {
        Seq::empty()
    } else {
        restore_rev(regs, j + 1) + restore_line(regs[j])
    }
}

proof fn lemma_restore_rev(regs: Seq<Register>)
    ensures
        restore_rev(regs, 0) == restore_lines(regs),
    decreases regs.len(),
{
    if regs.len() > 0 {
        lemma_restore_rev(regs.drop_last());
        lemma_restore_rev_shift(regs, 0);
    }
}

proof fn lemma_restore_rev_shift(regs: Seq<Register>, j: int)
    requires
        regs.len() > 0,
        0 <= j < regs.len(),
    ensures
        restore_rev(regs, j) == restore_line(regs.last()) + restore_rev(regs.drop_last(), j),
    decreases regs.len() - j,
{
    if j + 1 < regs.len() {
        lemma_restore_rev_shift(regs, j + 1);
        assert(regs.drop_last()[j] == regs[j]);
        assert(restore_rev(regs, j) =~= restore_line(regs.last()) + restore_rev(
            regs.drop_last(),
            j,
        ));
    } else {
        assert(restore_rev(regs.drop_last(), j + 1) =~= Seq::<Seq<char>>::empty());
        assert(restore_rev(regs.drop_last(), j) =~= Seq::<Seq<char>>::empty());
        assert(restore_rev(regs, j + 1) =~= Seq::<Seq<char>>::empty());
        assert(restore_rev(regs, j) =~= restore_line(regs.last()) + restore_rev(
            regs.drop_last(),
            j,
        ));
    }
}

} // verus!
