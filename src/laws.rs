use vstd::prelude::*;

use crate::ast::{
    elif_arm_code, elif_arms_code, elif_exit_choice, elif_gate_choice, else_arm_code, if_arm_code,
    if_exit_choice, if_gate_choice, ladder_code, ladder_end, next_arm_label, produces, Factor, AST,
};
use crate::conditionals::{
    elif_end_label, elif_label, else_end_label, else_label, gate_lines, if_end_label, if_label,
    jmp_line, marker,
};
use crate::buffer::ASM;
use crate::conditionals::{elif_end_target, elif_start_target, if_end_target, if_start_target};
use crate::factor::TokenEnum;
use crate::register_file::{first_free_from, first_free_general};
use crate::registers::{
    lemma_distinct_registers_bounded, lemma_reg_at, lemma_reg_index_bounds, reg_at, reg_index,
    Register, GENERAL_REGISTER_COUNT, REGISTER_COUNT,
};

verus! {

/// A well-formed register file never holds more locked registers than there
/// are registers.
pub proof fn lemma_locked_bounded(s: ASM)
    requires
        s.wf(),
    ensures
        s.locked().len() <= REGISTER_COUNT,
{
    s.used_registers@.unique_seq_to_set();
    lemma_distinct_registers_bounded(s.used_registers@);
}

/// Locking a free register and then unlocking it gives back the list of
/// locked registers, in its order, and leaves the code, the operands, the
/// sections and the argument position as they were.
pub proof fn lemma_lock_unlock_round_trip(s0: ASM, s1: ASM, s2: ASM, r: Register)
    requires
        s0.wf(),
        !s0.locked().contains(r),
        s1.locked() == s0.locked().insert(r),
        s1.used_registers@ == s0.used_registers@.push(r),
        s0.same_code(&s1),
        s1.operands() == s0.operands(),
        s0.same_sections(&s1),
        s2.locked() == s1.locked().remove(r),
        s2.used_registers@ == s1.used_registers@.remove(s1.used_registers@.index_of(r)),
        s1.same_code(&s2),
        s2.operands() == s1.operands(),
        s1.same_sections(&s2),
    ensures
        s2.locked() == s0.locked(),
        s2.used_registers@ == s0.used_registers@,
        s0.same_code(&s2),
        s2.operands() == s0.operands(),
        s0.same_sections(&s2),
{
    let l = s1.used_registers@;
    let n = s0.used_registers@.len() as int;
    assert(!s0.used_registers@.contains(r));
    assert(l[n] == r);
    assert forall|j: int| 0 <= j < l.len() && l[j] == r implies j == n by {
        if j < n {
            assert(s0.used_registers@[j] == r);
        }
    }
    assert(l.contains(r));
    assert(l.index_of(r) == n);
    assert(s2.used_registers@ =~= s0.used_registers@);
    assert(s2.locked() =~= s0.locked());
}

/// The general-purpose registers of the first `k` scan positions.
pub open spec fn scan_prefix(k: int) -> Set<Register> {
    Set::new(|r: Register| reg_index(r) < k)
}

proof fn lemma_skip_prefix(k: int, i: int)
    requires
        0 <= i <= k <= GENERAL_REGISTER_COUNT,
    ensures
        first_free_from(scan_prefix(k), Seq::empty(), i, GENERAL_REGISTER_COUNT as int)
            == first_free_from(scan_prefix(k), Seq::empty(), k, GENERAL_REGISTER_COUNT as int),
    decreases k - i,
{
    if i < k {
        lemma_reg_at(i);
        assert(scan_prefix(k).contains(reg_at(i)));
        lemma_skip_prefix(k, i + 1);
    }
}

/// The allocator hands out the general-purpose registers in scan order: with
/// the first `k` locked and none reserved, it hands out the register at
/// position `k`, after which the first `k + 1` are locked; with all of them
/// locked, it has none to hand out. From an empty file, `n` allocations in a
/// row thus return the first `n` registers of the scan order, all distinct,
/// and one more than there are fails.
pub proof fn lemma_allocation_order(k: int)
    requires
        0 <= k <= GENERAL_REGISTER_COUNT,
    ensures
        scan_prefix(0) == Set::<Register>::empty(),
        k < GENERAL_REGISTER_COUNT ==> first_free_general(scan_prefix(k), Seq::empty()) == Some(
            reg_at(k),
        ) && scan_prefix(k).insert(reg_at(k)) == scan_prefix(k + 1) && reg_index(reg_at(k)) == k,
        k == GENERAL_REGISTER_COUNT ==> first_free_general(scan_prefix(k), Seq::empty()) is None,
{
    assert forall|r: Register| !scan_prefix(0).contains(r) by {
        lemma_reg_index_bounds(r);
    }
    assert(scan_prefix(0) =~= Set::<Register>::empty());
    lemma_skip_prefix(k, 0);
    if k < GENERAL_REGISTER_COUNT {
        lemma_reg_at(k);
        assert(!scan_prefix(k).contains(reg_at(k)));
        assert forall|r: Register| #![auto] scan_prefix(k).insert(reg_at(k)).contains(r)
            <==> scan_prefix(k + 1).contains(r) by {
            lemma_reg_index_bounds(r);
        }
        assert(scan_prefix(k).insert(reg_at(k)) =~= scan_prefix(k + 1));
    }
}

/// The list the allocator builds from an empty file: after `k` allocations
/// in a row with nothing reserved, the locked list is the first `k`
/// general-purpose registers in scan order, the next allocation hands out
/// the one at position `k` and appends it, and once all are taken it fails.
pub proof fn lemma_allocation_list(k: int)
    requires
        0 <= k <= GENERAL_REGISTER_COUNT,
    ensures
        Seq::new(k as nat, |i: int| reg_at(i)).no_duplicates(),
        k < GENERAL_REGISTER_COUNT ==> first_free_general(
            Seq::new(k as nat, |i: int| reg_at(i)).to_set(),
            Seq::empty(),
        ) == Some(reg_at(k)) && Seq::new(k as nat, |i: int| reg_at(i)).push(reg_at(k)) == Seq::new(
            (k + 1) as nat,
            |i: int| reg_at(i),
        ),
        k == GENERAL_REGISTER_COUNT ==> first_free_general(
            Seq::new(k as nat, |i: int| reg_at(i)).to_set(),
            Seq::empty(),
        ) is None,
{
    let list = Seq::new(k as nat, |i: int| reg_at(i));
    assert forall|i: int, j: int| 0 <= i < list.len() && 0 <= j < list.len() && i != j implies list[i]
        != list[j] by {
        lemma_reg_at(i);
        lemma_reg_at(j);
    }
    assert forall|r: Register| #![auto] list.to_set().contains(r) <==> scan_prefix(k).contains(r) by {
        lemma_reg_index_bounds(r);
        if scan_prefix(k).contains(r) {
            assert(list[reg_index(r)] == r);
        }
        if list.to_set().contains(r) {
            let i = choose|i: int| 0 <= i < list.len() && list[i] == r;
            lemma_reg_at(i);
        }
    }
    assert(list.to_set() =~= scan_prefix(k));
    lemma_allocation_order(k);
    if k < GENERAL_REGISTER_COUNT {
        assert(list.push(reg_at(k)) =~= Seq::new((k + 1) as nat, |i: int| reg_at(i)));
    }
}

/// A node whose compiled value is one operand: an arithmetic expression, a
/// comparison, a numeric literal or a call of a user function.
pub open spec fn is_single_value(node: AST) -> bool {
    match node {
        AST::BinaryOp(_) => true,
        AST::Comparison(_) => true,
        AST::Factor(f) => f.token is Number,
        AST::FunctionCall(c) => !crate::ast::is_intrinsic(c.name@),
        _ => false,
    }
}

/// Compiling an expression raises the operand stack by exactly one; when that
/// result is consumed, the operands and the locked set are those from before
/// the expression, so no register stays locked.
pub proof fn lemma_expression_balanced(node: AST, s0: ASM, s1: ASM, s2: ASM)
    requires
        is_single_value(node),
        s0.compiled(&s1, produces(node)),
        s1.popped_results(&s2, 1),
    ensures
        produces(node) == 1,
        s1.operands().len() == s0.operands().len() + 1,
        s2.operands() == s0.operands(),
        s2.locked() == s0.locked(),
{
    s0.lemma_consumed(&s1, &s2, 1);
}

/// A string literal leaves two operands, its symbol and its length; once
/// both are consumed, the operands and the locked set are as before.
pub proof fn lemma_string_literal_balanced(s: String, s0: ASM, s1: ASM, s2: ASM)
    requires
        s0.compiled(&s1, produces(AST::Factor(Factor { token: TokenEnum::StringLiteral(s) }))),
        s1.popped_results(&s2, 2),
    ensures
        s1.operands().len() == s0.operands().len() + 2,
        s2.operands() == s0.operands(),
        s2.locked() == s0.locked(),
{
    s0.lemma_consumed(&s1, &s2, 2);
}

/// In a ladder with `m` elif arms, the test of each of its `m + 1` gated arms
/// jumps, when the condition is false, to the next arm (the next elif arm,
/// else the else arm, else the end of the ladder), and the body of each of
/// them jumps to one and the same end label.
pub proof fn lemma_ladder_converges(n: nat, m: nat, has_else: bool)
    ensures
        if_start_target(if_gate_choice(m, has_else), n) == next_arm_label(n, 0, m, has_else),
        forall|k: nat|
            k < m ==> elif_start_target(k, #[trigger] elif_gate_choice(k, m, has_else), n)
                == next_arm_label(n, k + 1, m, has_else),
        if_end_target(if_exit_choice(m, has_else), m, n) == ladder_end(n, m, has_else),
        m > 0 ==> elif_end_target(elif_exit_choice(has_else), m, n) == ladder_end(n, m, has_else),
{
}

/// A conditional jump: `je ...`.
pub open spec fn is_gate_line(l: Seq<char>) -> bool {
    l.len() >= 3 && l[0] == 'j' && l[1] == 'e' && l[2] == ' '
}

/// An unconditional jump: `jmp ...`.
pub open spec fn is_jump_line(l: Seq<char>) -> bool {
    l.len() >= 4 && l[0] == 'j' && l[1] == 'm' && l[2] == 'p' && l[3] == ' '
}

/// The conditional jumps of some code, in order.
pub open spec fn gates(code: Seq<Seq<char>>) -> Seq<Seq<char>> {
    code.filter(|l: Seq<char>| is_gate_line(l))
}

/// The unconditional jumps of some code, in order.
pub open spec fn jumps(code: Seq<Seq<char>>) -> Seq<Seq<char>> {
    code.filter(|l: Seq<char>| is_jump_line(l))
}

/// Code without jumps of either kind.
pub open spec fn jump_free(code: Seq<Seq<char>>) -> bool {
    gates(code).len() == 0 && jumps(code).len() == 0
}

proof fn lemma_split(a: Seq<Seq<char>>, b: Seq<Seq<char>>)
    ensures
        gates(a + b) == gates(a) + gates(b),
        jumps(a + b) == jumps(a) + jumps(b),
{
    broadcast use Seq::filter_distributes_over_add;

}

proof fn lemma_one(l: Seq<char>)
    ensures
        gates(seq![l]) == if is_gate_line(l) {
            seq![l]
        } else {
            Seq::empty()
        },
        jumps(seq![l]) == if is_jump_line(l) {
            seq![l]
        } else {
            Seq::empty()
        },
{
    reveal_with_fuel(Seq::filter, 2);
    assert(seq![l].drop_last() =~= Seq::<Seq<char>>::empty());
}

/// A line that starts with `.` or `c` or `;`, or is empty, is no jump.
proof fn lemma_plain(l: Seq<char>)
    requires
        l.len() == 0 || l[0] == '.' || l[0] == 'c' || l[0] == ';',
    ensures
        gates(seq![l]).len() == 0,
        jumps(seq![l]).len() == 0,
{
    lemma_one(l);
}

proof fn lemma_labels_start(n: nat, k: nat)
    ensures
        marker(if_label(n))[0] == '.',
        marker(if_end_label(n))[0] == '.',
        marker(elif_label(n, k))[0] == '.',
        marker(elif_end_label(n, k))[0] == '.',
        marker(else_label(n))[0] == '.',
        marker(else_end_label(n))[0] == '.',
{
    reveal_strlit(".if_");
    reveal_strlit(".if_end_");
    reveal_strlit(".elif_");
    reveal_strlit(".else_");
    reveal_strlit(".else_end_");
    assert(marker(if_label(n))[0] == if_label(n)[0]);
    assert(marker(if_end_label(n))[0] == if_end_label(n)[0]);
    assert(marker(elif_label(n, k))[0] == elif_label(n, k)[0]);
    assert(elif_end_label(n, k)[0] == elif_label(n, k)[0]);
    assert(marker(elif_end_label(n, k))[0] == elif_end_label(n, k)[0]);
    assert(marker(else_label(n))[0] == else_label(n)[0]);
    assert(marker(else_end_label(n))[0] == else_end_label(n)[0]);
}

proof fn lemma_gate_lines(d: Seq<char>, target: Seq<char>)
    ensures
        gates(gate_lines(d, target)) == seq!["je "@ + target],
        jumps(gate_lines(d, target)).len() == 0,
{
    reveal_strlit("cmp ");
    reveal_strlit(";; if the comparison value is false, jump to the next label altogether");
    reveal_strlit("je ");
    let g = gate_lines(d, target);
    assert(g =~= seq!["cmp "@ + d + ", 0"@] + seq![
        ";; if the comparison value is false, jump to the next label altogether"@,
    ] + seq!["je "@ + target]);
    lemma_split(seq!["cmp "@ + d + ", 0"@], seq![
        ";; if the comparison value is false, jump to the next label altogether"@,
    ]);
    lemma_split(seq!["cmp "@ + d + ", 0"@] + seq![
        ";; if the comparison value is false, jump to the next label altogether"@,
    ], seq!["je "@ + target]);
    assert(("cmp "@ + d + ", 0"@)[0] == 'c');
    lemma_plain("cmp "@ + d + ", 0"@);
    lemma_plain(";; if the comparison value is false, jump to the next label altogether"@);
    lemma_one("je "@ + target);
    assert(("je "@ + target)[0] == 'j');
    assert(("je "@ + target)[1] == 'e');
    assert(("je "@ + target)[2] == ' ');
}

proof fn lemma_jmp_line(target: Seq<char>)
    ensures
        gates(seq![jmp_line(target)]).len() == 0,
        jumps(seq![jmp_line(target)]) == seq![jmp_line(target)],
{
    reveal_strlit("jmp ");
    lemma_one(jmp_line(target));
    assert(jmp_line(target)[1] == 'm');
    assert(jmp_line(target)[3] == ' ');
}

proof fn lemma_tail(target: Seq<char>, label: Seq<char>)
    requires
        label.len() > 0 && label[0] == '.',
    ensures
        gates(seq![jmp_line(target), label, Seq::<char>::empty()]).len() == 0,
        jumps(seq![jmp_line(target), label, Seq::<char>::empty()]) == seq![jmp_line(target)],
{
    let t = seq![jmp_line(target), label, Seq::<char>::empty()];
    assert(t =~= seq![jmp_line(target)] + seq![label] + seq![Seq::<char>::empty()]);
    lemma_split(seq![jmp_line(target)], seq![label]);
    lemma_split(seq![jmp_line(target)] + seq![label], seq![Seq::<char>::empty()]);
    lemma_jmp_line(target);
    lemma_plain(label);
    lemma_plain(Seq::<char>::empty());
    assert(jumps(t) =~= seq![jmp_line(target)]);
}

proof fn lemma_if_arm(
    n: nat,
    m: nat,
    has_else: bool,
    cond: Seq<Seq<char>>,
    d: Seq<char>,
    body: Seq<Seq<char>>,
)
    requires
        jump_free(cond),
        jump_free(body),
    ensures
        gates(if_arm_code(n, m, has_else, cond, d, body)) == seq![
            "je "@ + next_arm_label(n, 0, m, has_else),
        ],
        jumps(if_arm_code(n, m, has_else, cond, d, body)) == seq![
            jmp_line(ladder_end(n, m, has_else)),
        ],
{
    lemma_ladder_converges(n, m, has_else);
    lemma_labels_start(n, 0);
    let target = if_start_target(if_gate_choice(m, has_else), n);
    let p1 = cond + seq![marker(if_label(n))];
    let p2 = p1 + gate_lines(d, target);
    let p3 = p2 + seq![Seq::<char>::empty()];
    let p4 = p3 + body;
    let tail = seq![
        jmp_line(crate::conditionals::if_end_target(if_exit_choice(m, has_else), m, n)),
        marker(if_end_label(n)),
        Seq::<char>::empty(),
    ];
    assert(if_arm_code(n, m, has_else, cond, d, body) == p4 + tail);
    lemma_split(cond, seq![marker(if_label(n))]);
    lemma_split(p1, gate_lines(d, target));
    lemma_split(p2, seq![Seq::<char>::empty()]);
    lemma_split(p3, body);
    lemma_split(p4, tail);
    lemma_plain(marker(if_label(n)));
    lemma_plain(Seq::<char>::empty());
    lemma_gate_lines(d, target);
    lemma_tail(
        crate::conditionals::if_end_target(if_exit_choice(m, has_else), m, n),
        marker(if_end_label(n)),
    );
    assert(gates(p4 + tail) =~= seq!["je "@ + next_arm_label(n, 0, m, has_else)]);
    assert(jumps(p4 + tail) =~= seq![jmp_line(ladder_end(n, m, has_else))]);
}

proof fn lemma_elif_arm(
    n: nat,
    k: nat,
    m: nat,
    has_else: bool,
    cond: Seq<Seq<char>>,
    d: Seq<char>,
    body: Seq<Seq<char>>,
)
    requires
        k < m,
        jump_free(cond),
        jump_free(body),
    ensures
        gates(elif_arm_code(n, k, m, has_else, cond, d, body)) == seq![
            "je "@ + next_arm_label(n, k + 1, m, has_else),
        ],
        jumps(elif_arm_code(n, k, m, has_else, cond, d, body)) == seq![
            jmp_line(ladder_end(n, m, has_else)),
        ],
{
    lemma_ladder_converges(n, m, has_else);
    lemma_labels_start(n, k);
    let target = crate::conditionals::elif_start_target(k, elif_gate_choice(k, m, has_else), n);
    let p1 = cond + seq![marker(elif_label(n, k))];
    let p2 = p1 + gate_lines(d, target);
    let p3 = p2 + seq![Seq::<char>::empty()];
    let p4 = p3 + body;
    let tail = seq![
        jmp_line(crate::conditionals::elif_end_target(elif_exit_choice(has_else), m, n)),
        marker(elif_end_label(n, k)),
        Seq::<char>::empty(),
    ];
    assert(elif_arm_code(n, k, m, has_else, cond, d, body) == p4 + tail);
    lemma_split(cond, seq![marker(elif_label(n, k))]);
    lemma_split(p1, gate_lines(d, target));
    lemma_split(p2, seq![Seq::<char>::empty()]);
    lemma_split(p3, body);
    lemma_split(p4, tail);
    lemma_plain(marker(elif_label(n, k)));
    lemma_plain(Seq::<char>::empty());
    lemma_gate_lines(d, target);
    lemma_tail(
        crate::conditionals::elif_end_target(elif_exit_choice(has_else), m, n),
        marker(elif_end_label(n, k)),
    );
    assert(gates(p4 + tail) =~= seq!["je "@ + next_arm_label(n, k + 1, m, has_else)]);
    assert(jumps(p4 + tail) =~= seq![jmp_line(ladder_end(n, m, has_else))]);
}

proof fn lemma_else_arm(n: nat, body: Seq<Seq<char>>)
    requires
        jump_free(body),
    ensures
        jump_free(else_arm_code(n, body)),
{
    lemma_labels_start(n, 0);
    let p0 = seq![marker(else_label(n)), Seq::<char>::empty()];
    let tail = seq![marker(else_end_label(n)), Seq::<char>::empty()];
    assert(p0 =~= seq![marker(else_label(n))] + seq![Seq::<char>::empty()]);
    assert(tail =~= seq![marker(else_end_label(n))] + seq![Seq::<char>::empty()]);
    lemma_split(seq![marker(else_label(n))], seq![Seq::<char>::empty()]);
    lemma_split(seq![marker(else_end_label(n))], seq![Seq::<char>::empty()]);
    lemma_split(p0, body);
    lemma_split(p0 + body, tail);
    lemma_plain(marker(else_label(n)));
    lemma_plain(marker(else_end_label(n)));
    lemma_plain(Seq::<char>::empty());
}

proof fn lemma_elif_arms(
    n: nat,
    m: nat,
    has_else: bool,
    conds: Seq<Seq<Seq<char>>>,
    ds: Seq<Seq<char>>,
    bodies: Seq<Seq<Seq<char>>>,
    k: nat,
)
    requires
        k <= m,
        conds.len() == m,
        ds.len() == m,
        bodies.len() == m,
        forall|i: int| 0 <= i < m ==> jump_free(#[trigger] conds[i]) && jump_free(bodies[i]),
    ensures
        gates(elif_arms_code(n, m, has_else, conds, ds, bodies, k)) == Seq::new(
            k,
            |i: int| "je "@ + next_arm_label(n, (i + 1) as nat, m, has_else),
        ),
        jumps(elif_arms_code(n, m, has_else, conds, ds, bodies, k)) == Seq::new(
            k,
            |i: int| jmp_line(ladder_end(n, m, has_else)),
        ),
    decreases k,
{
    if k == 0 {
        reveal_with_fuel(Seq::filter, 1);
        assert(gates(Seq::empty()) =~= Seq::<Seq<char>>::empty());
        assert(jumps(Seq::empty()) =~= Seq::<Seq<char>>::empty());
        assert(Seq::new(0, |i: int| "je "@ + next_arm_label(n, (i + 1) as nat, m, has_else))
            =~= Seq::<Seq<char>>::empty());
        assert(Seq::new(0, |i: int| jmp_line(ladder_end(n, m, has_else))) =~= Seq::<
            Seq<char>,
        >::empty());
    } else {
        let j = (k - 1) as nat;
        lemma_elif_arms(n, m, has_else, conds, ds, bodies, j);
        lemma_elif_arm(n, j, m, has_else, conds[j as int], ds[j as int], bodies[j as int]);
        lemma_split(
            elif_arms_code(n, m, has_else, conds, ds, bodies, j),
            elif_arm_code(n, j, m, has_else, conds[j as int], ds[j as int], bodies[j as int]),
        );
        assert(gates(elif_arms_code(n, m, has_else, conds, ds, bodies, k)) =~= Seq::new(
            k,
            |i: int| "je "@ + next_arm_label(n, (i + 1) as nat, m, has_else),
        ));
        assert(jumps(elif_arms_code(n, m, has_else, conds, ds, bodies, k)) =~= Seq::new(
            k,
            |i: int| jmp_line(ladder_end(n, m, has_else)),
        ));
    }
}

/// A ladder with `m` elif arms, whose conditions and blocks hold no jumps of
/// their own, has exactly `m + 1` conditional jumps, the one of arm `i` going
/// to the arm after it, and exactly `m + 1` unconditional jumps, all to the
/// one label where the ladder ends.
pub proof fn lemma_ladder_jump_counts(
    n: nat,
    m: nat,
    has_else: bool,
    if_cond: Seq<Seq<char>>,
    if_d: Seq<char>,
    if_body: Seq<Seq<char>>,
    conds: Seq<Seq<Seq<char>>>,
    ds: Seq<Seq<char>>,
    bodies: Seq<Seq<Seq<char>>>,
    else_body: Seq<Seq<char>>,
)
    requires
        conds.len() == m,
        ds.len() == m,
        bodies.len() == m,
        jump_free(if_cond),
        jump_free(if_body),
        forall|i: int| 0 <= i < m ==> jump_free(#[trigger] conds[i]) && jump_free(bodies[i]),
        has_else ==> jump_free(else_body),
    ensures
        gates(
            ladder_code(n, m, has_else, if_cond, if_d, if_body, conds, ds, bodies, else_body),
        ) == Seq::new(m + 1, |i: int| "je "@ + next_arm_label(n, i as nat, m, has_else)),
        jumps(
            ladder_code(n, m, has_else, if_cond, if_d, if_body, conds, ds, bodies, else_body),
        ) == Seq::new(m + 1, |i: int| jmp_line(ladder_end(n, m, has_else))),
{
    let a = if_arm_code(n, m, has_else, if_cond, if_d, if_body);
    let b = elif_arms_code(n, m, has_else, conds, ds, bodies, m);
    let c = if has_else {
        else_arm_code(n, else_body)
    } else {
        Seq::empty()
    };
    lemma_if_arm(n, m, has_else, if_cond, if_d, if_body);
    lemma_elif_arms(n, m, has_else, conds, ds, bodies, m);
    if has_else {
        lemma_else_arm(n, else_body);
    } else {
        reveal_with_fuel(Seq::filter, 1);
    }
    lemma_split(a, b);
    lemma_split(a + b, c);
    assert(gates(a + b + c) =~= Seq::new(
        m + 1,
        |i: int| "je "@ + next_arm_label(n, i as nat, m, has_else),
    ));
    assert(jumps(a + b + c) =~= Seq::new(m + 1, |i: int| jmp_line(ladder_end(n, m, has_else))));
}

/// The code of a ladder ends with the label of its end, after every line
/// of every arm, so that all its unconditional jumps land past the ladder.
pub proof fn lemma_ladder_ends_at_end_label(
    n: nat,
    m: nat,
    has_else: bool,
    if_cond: Seq<Seq<char>>,
    if_d: Seq<char>,
    if_body: Seq<Seq<char>>,
    conds: Seq<Seq<Seq<char>>>,
    ds: Seq<Seq<char>>,
    bodies: Seq<Seq<Seq<char>>>,
    else_body: Seq<Seq<char>>,
)
    requires
        conds.len() == m,
        ds.len() == m,
        bodies.len() == m,
    ensures
        ({
            let code = ladder_code(
                n,
                m,
                has_else,
                if_cond,
                if_d,
                if_body,
                conds,
                ds,
                bodies,
                else_body,
            );
            code.len() >= 2 && code[code.len() - 2] == marker(ladder_end(n, m, has_else))
                && code.last() == Seq::<char>::empty()
        }),
{
    let a = if_arm_code(n, m, has_else, if_cond, if_d, if_body);
    let b = elif_arms_code(n, m, has_else, conds, ds, bodies, m);
    let code = ladder_code(n, m, has_else, if_cond, if_d, if_body, conds, ds, bodies, else_body);
    if has_else {
        let c = else_arm_code(n, else_body);
        assert(code == a + b + c);
        assert(c.len() >= 2);
        assert(c[c.len() - 2] == marker(else_end_label(n)));
        assert(code[code.len() - 2] == c[c.len() - 2]);
        assert(code.last() == c.last());
    } else if m > 0 {
        let j = (m - 1) as nat;
        let arm = elif_arm_code(n, j, m, has_else, conds[j as int], ds[j as int], bodies[j as int]);
        assert(b == elif_arms_code(n, m, has_else, conds, ds, bodies, j) + arm);
        assert(code =~= a + b);
        assert(arm[arm.len() - 2] == marker(elif_end_label(n, j)));
        assert(code[code.len() - 2] == arm[arm.len() - 2]);
        assert(code.last() == arm.last());
    } else {
        assert(b == Seq::<Seq<char>>::empty());
        assert(code =~= a);
        assert(a[a.len() - 2] == marker(if_end_label(n)));
    }
}

} // verus!
