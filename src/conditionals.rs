use vstd::prelude::*;
use vstd::string::*;

use crate::buffer::ASM;
use crate::operand_stack::release;
use crate::text::{cat2, cat3, dec_nat, usize_text};

verus! {

/// Where a conditional jump of a ladder goes, chosen by the position of the
/// arm in the ladder.
#[derive(Clone, Copy, Debug, PartialEq, Eq, Structural)]
pub enum ConditionalJumpTo {
    IfEnd,
    ElifEnd,
    Else,
    Elif,
}

/// `.if_{n}`
pub open spec fn if_label(n: nat) -> Seq<char> {
    ".if_"@ + dec_nat(n)
}

/// `.if_end_{n}`
pub open spec fn if_end_label(n: nat) -> Seq<char> {
    ".if_end_"@ + dec_nat(n)
}

/// `.elif_{n}_{k}`
pub open spec fn elif_label(n: nat, k: nat) -> Seq<char> {
    ".elif_"@ + dec_nat(n) + "_"@ + dec_nat(k)
}

/// `.elif_{n}_{k}_end`
pub open spec fn elif_end_label(n: nat, k: nat) -> Seq<char> {
    elif_label(n, k) + "_end"@
}

/// `.else_{n}`
pub open spec fn else_label(n: nat) -> Seq<char> {
    ".else_"@ + dec_nat(n)
}

/// `.else_end_{n}`
pub open spec fn else_end_label(n: nat) -> Seq<char> {
    ".else_end_"@ + dec_nat(n)
}

/// The line that places a label.
pub open spec fn marker(label: Seq<char>) -> Seq<char> {
    label + ":"@
}

/// The line of an unconditional jump.
pub open spec fn jmp_line(target: Seq<char>) -> Seq<char> {
    "jmp "@ + target
}

/// Tests the condition `d` and jumps to `target` when it is zero.
pub open spec fn gate_lines(d: Seq<char>, target: Seq<char>) -> Seq<Seq<char>> {
    seq![
        "cmp "@ + d + ", 0"@,
        ";; if the comparison value is false, jump to the next label altogether"@,
        "je "@ + target,
    ]
}

/// Where the condition of the `if` arm jumps when false.
pub open spec fn if_start_target(jump_to: ConditionalJumpTo, n: nat) -> Seq<char> {
    match jump_to {
        ConditionalJumpTo::Elif => elif_label(n, 0),
        ConditionalJumpTo::Else => else_label(n),
        _ => if_end_label(n),
    }
}

/// Where the body of the `if` arm jumps when done.
pub open spec fn if_end_target(jump_to: ConditionalJumpTo, elif_len: nat, n: nat) -> Seq<char> {
    match jump_to {
        ConditionalJumpTo::ElifEnd => elif_end_label(n, (elif_len - 1) as nat),
        ConditionalJumpTo::Else => else_end_label(n),
        _ => if_end_label(n),
    }
}

/// Where the condition of elif arm `k` jumps when false.
pub open spec fn elif_start_target(k: nat, jump_to: ConditionalJumpTo, n: nat) -> Seq<char> {
    match jump_to {
        ConditionalJumpTo::Elif => elif_label(n, k + 1),
        ConditionalJumpTo::Else => else_label(n),
        _ => elif_end_label(n, k),
    }
}

/// Where the body of an elif arm jumps when done.
pub open spec fn elif_end_target(jump_to: ConditionalJumpTo, elif_len: nat, n: nat) -> Seq<char> {
    match jump_to {
        ConditionalJumpTo::Else => else_end_label(n),
        _ => elif_end_label(n, (elif_len - 1) as nat),
    }
}

fn if_label_text(n: usize) -> (s: String)
    ensures
        s@ == if_label(n as nat),
{
    cat2(".if_", usize_text(n).as_str())
}

fn if_end_label_text(n: usize) -> (s: String)
    ensures
        s@ == if_end_label(n as nat),
{
    cat2(".if_end_", usize_text(n).as_str())
}

fn elif_label_text(n: usize, k: usize) -> (s: String)
    ensures
        s@ == elif_label(n as nat, k as nat),
{
    let mut s = cat2(".elif_", usize_text(n).as_str());
    s.append("_");
    s.append(usize_text(k).as_str());
    s
}

fn elif_end_label_text(n: usize, k: usize) -> (s: String)
    ensures
        s@ == elif_end_label(n as nat, k as nat),
{
    let mut s = elif_label_text(n, k);
    s.append("_end");
    s
}

fn else_label_text(n: usize) -> (s: String)
    ensures
        s@ == else_label(n as nat),
{
    cat2(".else_", usize_text(n).as_str())
}

fn else_end_label_text(n: usize) -> (s: String)
    ensures
        s@ == else_end_label(n as nat),
{
    cat2(".else_end_", usize_text(n).as_str())
}

fn marker_text(label: &String) -> (s: String)
    ensures
        s@ == marker(label@),
{
    cat2(label.as_str(), ":")
}

fn jmp_text(target: &String) -> (s: String)
    ensures
        s@ == jmp_line(target@),
{
    cat2("jmp ", target.as_str())
}

fn gate_text(d: &String, target: &String) -> (v: Vec<String>)
    ensures
        crate::buffer::lines(v@) == gate_lines(d@, target@),
{
    let v = vec![
        cat3("cmp ", d.as_str(), ", 0"),
        String::from_str(";; if the comparison value is false, jump to the next label altogether"),
        cat2("je ", target.as_str()),
    ];
    proof {
        assert(crate::buffer::lines(v@) =~= gate_lines(d@, target@));
    }
    v
}

impl ASM {
    /// Opens ladder `if_num`: places its `if` label, consumes the condition on
    /// top of the operand stack and jumps to `jump_to` when it is zero.
    pub fn if_start(&mut self, jump_to: ConditionalJumpTo, if_num: usize)
        requires
            old(self).wf(),
            old(self).top_consumable(),
            jump_to != ConditionalJumpTo::ElifEnd,
        ensures
            final(self).wf(),
            final(self).code() == old(self).code() + seq![marker(if_label(if_num as nat))]
                + gate_lines(old(self).operands().last(), if_start_target(jump_to, if_num as nat))
                + seq![Seq::<char>::empty()],
            old(self).grows_to(final(self)),
            final(self).operands() == old(self).operands().drop_last(),
            final(self).locked() == release(old(self).locked(), old(self).operands().last()),
            old(self).same_sections(final(self)),
    {
        let target = match jump_to {
            ConditionalJumpTo::Elif => elif_label_text(if_num, 0),
            ConditionalJumpTo::Else => else_label_text(if_num),
            _ => if_end_label_text(if_num),
        };
        let stack_member = self.stack_pop().unwrap();
        let mut instructions = vec![marker_text(&if_label_text(if_num))];
        let mut gate = gate_text(&stack_member, &target);
        instructions.append(&mut gate);
        self.unlock_register_from_stack_value(&stack_member);
        let ghost mid = *self;
        self.extend_current_label(instructions);
        proof {
            assert(crate::buffer::lines(instructions@).push(Seq::<char>::empty()) =~= seq![
                marker(if_label(if_num as nat)),
            ] + gate_lines(stack_member@, target@) + seq![Seq::<char>::empty()]);
            old(self).lemma_same_code_grows(&mid);
            old(self).lemma_grows_trans(&mid, self);
        }
    }

    /// Closes the `if` arm of ladder `if_num`: jumps to `jump_to`, then places
    /// the `if` arm's end label.
    pub fn if_end(&mut self, jump_to: ConditionalJumpTo, elif_len: usize, if_num: usize)
        requires
            old(self).wf(),
            jump_to != ConditionalJumpTo::Elif,
            jump_to == ConditionalJumpTo::ElifEnd ==> elif_len >= 1,
        ensures
            final(self).wf(),
            final(self).code() == old(self).code() + seq![
                jmp_line(if_end_target(jump_to, elif_len as nat, if_num as nat)),
                marker(if_end_label(if_num as nat)),
                Seq::<char>::empty(),
            ],
            old(self).grows_to(final(self)),
            final(self).operands() == old(self).operands(),
            final(self).locked() == old(self).locked(),
            final(self).used_registers@ == old(self).used_registers@,
            old(self).same_sections(final(self)),
    {
        let target = match jump_to {
            ConditionalJumpTo::ElifEnd => elif_end_label_text(if_num, elif_len - 1),
            ConditionalJumpTo::Else => else_end_label_text(if_num),
            _ => if_end_label_text(if_num),
        };
        let instructions = vec![jmp_text(&target), marker_text(&if_end_label_text(if_num))];
        proof {
            assert(crate::buffer::lines(instructions@).push(Seq::<char>::empty()) =~= seq![
                jmp_line(target@),
                marker(if_end_label(if_num as nat)),
                Seq::<char>::empty(),
            ]);
        }
        self.extend_current_label(instructions);
    }

    /// Places the label of elif arm `elif_number` of ladder `if_num`, consumes
    /// the arm's condition on top of the operand stack and jumps to `jump_to`
    /// when it is zero.
    pub fn elif_start(&mut self, elif_number: usize, jump_to: ConditionalJumpTo, if_num: usize)
        requires
            old(self).wf(),
            old(self).top_consumable(),
            jump_to != ConditionalJumpTo::IfEnd,
            jump_to == ConditionalJumpTo::Elif ==> elif_number < usize::MAX,
        ensures
            final(self).wf(),
            final(self).code() == old(self).code() + seq![
                marker(elif_label(if_num as nat, elif_number as nat)),
            ] + gate_lines(
                old(self).operands().last(),
                elif_start_target(elif_number as nat, jump_to, if_num as nat),
            ) + seq![Seq::<char>::empty()],
            old(self).grows_to(final(self)),
            final(self).operands() == old(self).operands().drop_last(),
            final(self).locked() == release(old(self).locked(), old(self).operands().last()),
            old(self).same_sections(final(self)),
    {
        let target = match jump_to {
            ConditionalJumpTo::Elif => elif_label_text(if_num, elif_number + 1),
            ConditionalJumpTo::Else => else_label_text(if_num),
            _ => elif_end_label_text(if_num, elif_number),
        };
        let stack_member = self.stack_pop().unwrap();
        let mut instructions = vec![marker_text(&elif_label_text(if_num, elif_number))];
        let mut gate = gate_text(&stack_member, &target);
        instructions.append(&mut gate);
        self.unlock_register_from_stack_value(&stack_member);
        let ghost mid = *self;
        self.extend_current_label(instructions);
        proof {
            assert(crate::buffer::lines(instructions@).push(Seq::<char>::empty()) =~= seq![
                marker(elif_label(if_num as nat, elif_number as nat)),
            ] + gate_lines(stack_member@, target@) + seq![Seq::<char>::empty()]);
            old(self).lemma_same_code_grows(&mid);
            old(self).lemma_grows_trans(&mid, self);
        }
    }

    /// Closes elif arm `elif_number` of ladder `if_num`: jumps to the end of
    /// the ladder, then places the arm's end label. Without an else arm the
    /// end of the ladder is the end label of the last of its `elif_len` elif
    /// arms.
    pub fn elif_end(
        &mut self,
        elif_number: usize,
        jump_to: ConditionalJumpTo,
        elif_len: usize,
        if_num: usize,
    )
        requires
            old(self).wf(),
            jump_to == ConditionalJumpTo::ElifEnd || jump_to == ConditionalJumpTo::Else,
            elif_len >= 1,
        ensures
            final(self).wf(),
            final(self).code() == old(self).code() + seq![
                jmp_line(elif_end_target(jump_to, elif_len as nat, if_num as nat)),
                marker(elif_end_label(if_num as nat, elif_number as nat)),
                Seq::<char>::empty(),
            ],
            old(self).grows_to(final(self)),
            final(self).operands() == old(self).operands(),
            final(self).locked() == old(self).locked(),
            final(self).used_registers@ == old(self).used_registers@,
            old(self).same_sections(final(self)),
    {
        let target = match jump_to {
            ConditionalJumpTo::Else => else_end_label_text(if_num),
            _ => elif_end_label_text(if_num, elif_len - 1),
        };
        let instructions = vec![
            jmp_text(&target),
            marker_text(&elif_end_label_text(if_num, elif_number)),
        ];
        proof {
            assert(crate::buffer::lines(instructions@).push(Seq::<char>::empty()) =~= seq![
                jmp_line(target@),
                marker(elif_end_label(if_num as nat, elif_number as nat)),
                Seq::<char>::empty(),
            ]);
        }
        self.extend_current_label(instructions);
    }

    /// Places the label of the else arm of ladder `if_num`.
    pub fn else_start(&mut self, if_num: usize)
        requires
            old(self).wf(),
        ensures
            final(self).wf(),
            final(self).code() == old(self).code() + seq![
                marker(else_label(if_num as nat)),
                Seq::<char>::empty(),
            ],
            old(self).grows_to(final(self)),
            final(self).operands() == old(self).operands(),
            final(self).locked() == old(self).locked(),
            final(self).used_registers@ == old(self).used_registers@,
            old(self).same_sections(final(self)),
    {
        self.add_to_current_label(marker_text(&else_label_text(if_num)));
    }

    /// Places the end label of the else arm of ladder `if_num`.
    pub fn else_end(&mut self, if_num: usize)
        requires
            old(self).wf(),
        ensures
            final(self).wf(),
            final(self).code() == old(self).code() + seq![
                marker(else_end_label(if_num as nat)),
                Seq::<char>::empty(),
            ],
            old(self).grows_to(final(self)),
            final(self).operands() == old(self).operands(),
            final(self).locked() == old(self).locked(),
            final(self).used_registers@ == old(self).used_registers@,
            old(self).same_sections(final(self)),
    {
        self.add_to_current_label(marker_text(&else_end_label_text(if_num)));
    }
}

} // verus!
