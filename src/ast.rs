use vstd::prelude::*;
use vstd::string::*;

use crate::binary_op::{
    bind_line, compare_lines, is_float_type, materialize, op_lines, placement_lines, Comparators,
    Operations, VarType,
};
use crate::buffer::{lines, ASM};
use crate::operand_stack::{release, regs_named};
use crate::conditionals::{
    elif_end_label, elif_end_target, elif_label, elif_start_target, else_end_label, else_label,
    gate_lines, if_end_label, if_end_target, if_label, if_start_target, jmp_line, marker,
    ConditionalJumpTo,
};
use crate::error::CodegenError;
use crate::register_file::{free_float, free_general};
use crate::factor::{decode, Number, TokenEnum};
use crate::functions::{call_lines, exit_lines, write_number_lines, write_string_lines};
use crate::registers::{is_general, reg_text, Register};

verus! {

/// An arithmetic expression: `left operator right`.
#[derive(Debug)]
pub struct BinaryOP {
    pub left: Box<AST>,
    pub operator: Operations,
    pub right: Box<AST>,
    /// How many times the result is loaded through, where it is a pointer.
    pub times_dereferenced: usize,
    /// The result type; semantic analysis fills it in before code generation.
    pub result_type: VarType,
}

impl BinaryOP {
    /// An expression whose result type is not resolved yet.
    pub fn new(left: Box<AST>, operator: Operations, right: Box<AST>, times_dereferenced: usize) -> (r: Self)
        ensures
            r.left == left,
            r.operator == operator,
            r.right == right,
            r.times_dereferenced == times_dereferenced,
            r.result_type is Unknown,
    {
        BinaryOP { left, operator, right, times_dereferenced, result_type: VarType::Unknown }
    }
}

/// A comparison: `left comp_op right`.
#[derive(Debug)]
pub struct ComparisonExp {
    pub left: Box<AST>,
    pub comp_op: Comparators,
    pub right: Box<AST>,
}

impl ComparisonExp {
    pub fn new(left: Box<AST>, comp_op: Comparators, right: Box<AST>) -> (r: Self)
        ensures
            r.left == left,
            r.comp_op == comp_op,
            r.right == right,
    {
        ComparisonExp { left, comp_op, right }
    }
}

/// An `if` or `elif` arm: a condition and the block it guards.
#[derive(Debug)]
pub struct IfStatement {
    pub condition: Box<AST>,
    pub block: Box<AST>,
}

impl IfStatement {
    pub fn new(condition: Box<AST>, block: Box<AST>) -> (r: Self)
        ensures
            r.condition == condition,
            r.block == block,
    {
        IfStatement { condition, block }
    }
}

/// An `else` arm.
#[derive(Debug)]
pub struct ElseStatement {
    pub block: Box<AST>,
}

impl ElseStatement {
    pub fn new(block: Box<AST>) -> (r: Self)
        ensures
            r.block == block,
    {
        ElseStatement { block }
    }
}

/// A ladder: an `if` arm, any number of `elif` arms, and perhaps an `else` arm.
#[derive(Debug)]
pub struct ConditionalStatement {
    pub if_statement: IfStatement,
    pub elif_ladder: Vec<IfStatement>,
    pub else_statement: Option<ElseStatement>,
}

impl ConditionalStatement {
    pub fn new(
        if_statement: IfStatement,
        elif_ladder: Vec<IfStatement>,
        else_statement: Option<ElseStatement>,
    ) -> (r: Self)
        ensures
            r.if_statement == if_statement,
            r.elif_ladder == elif_ladder,
            r.else_statement == else_statement,
    {
        ConditionalStatement { if_statement, elif_ladder, else_statement }
    }
}

/// A literal or a name standing alone in an expression.
#[derive(Debug)]
pub struct Factor {
    pub token: TokenEnum,
}

impl Factor {
    pub fn new(token: TokenEnum) -> (r: Self)
        ensures
            r.token == token,
    {
        Factor { token }
    }
}

/// A call of an intrinsic (`write`, `exit`, `strlen`) or of a user function.
#[derive(Debug)]
pub struct FunctionCall {
    pub name: String,
    pub arguments: Vec<AST>,
}

impl FunctionCall {
    pub fn new(name: String, arguments: Vec<AST>) -> (r: Self)
        ensures
            r.name == name,
            r.arguments == arguments,
    {
        FunctionCall { name, arguments }
    }
}

/// A sequence of statements.
#[derive(Debug)]
pub struct Program {
    pub statements: Vec<AST>,
}

impl Program {
    pub fn new(statements: Vec<AST>) -> (r: Self)
        ensures
            r.statements == statements,
    {
        Program { statements }
    }
}

/// A declared variable: its name and the name of its type.
#[derive(Debug)]
pub struct Variable {
    pub var_name: String,
    pub var_type: String,
}

impl Variable {
    pub fn new(var_type: String, var_name: String) -> (r: Self)
        ensures
            r.var_type == var_type,
            r.var_name == var_name,
    {
        Variable { var_name, var_type }
    }
}

/// A node of the syntax tree, every child already typed.
#[derive(Debug)]
pub enum AST {
    BinaryOp(BinaryOP),
    Comparison(ComparisonExp),
    Conditional(ConditionalStatement),
    Factor(Factor),
    FunctionCall(FunctionCall),
    Program(Program),
    Variable(Variable),
}

/// Names of the calls that the code generator lowers itself.
pub open spec fn is_intrinsic(name: Seq<char>) -> bool {
    name == "write"@ || name == "exit"@ || name == "strlen"@
}

/// How many operands compiling a node leaves on the operand stack.
pub open spec fn produces(node: AST) -> nat {
    match node {
        AST::BinaryOp(_) => 1,
        AST::Comparison(_) => 1,
        AST::Factor(f) => match f.token {
            TokenEnum::StringLiteral(_) => 2,
            TokenEnum::Variable(_) => 0,
            _ => 1,
        },
        AST::FunctionCall(c) => if is_intrinsic(c.name@) {
            0
        } else {
            1
        },
        _ => 0,
    }
}

/// Whether a node can be lowered at all, with `functions` the names of the
/// user functions: every operand is one value, every operator has
/// instructions for its result type, every string literal decodes, every
/// `write` argument leaves a value, `exit` has one argument, every call
/// names an intrinsic or a user function, and no variable occurs.
pub open spec fn lowerable(node: AST, functions: Seq<Seq<char>>) -> bool
    decreases node,
{
    match node {
        AST::BinaryOp(b) => {
            &&& produces(*b.left) == 1
            &&& produces(*b.right) == 1
            &&& lowerable(*b.left, functions)
            &&& lowerable(*b.right, functions)
            &&& op_lines(b.operator, is_float_type(b.result_type)) is Some
            &&& placement_lines(b.result_type, b.times_dereferenced as nat) is Some
        },
        AST::Comparison(c) => {
            &&& produces(*c.left) == 1
            &&& produces(*c.right) == 1
            &&& lowerable(*c.left, functions)
            &&& lowerable(*c.right, functions)
        },
        AST::Factor(f) => match f.token {
            TokenEnum::StringLiteral(s) => decode(s@) is Ok,
            TokenEnum::Variable(_) => false,
            _ => true,
        },
        AST::FunctionCall(c) => if c.name@ == "write"@ {
            forall|i: int|
                0 <= i < c.arguments@.len() ==> produces(#[trigger] c.arguments@[i]) > 0
                    && lowerable(c.arguments@[i], functions)
        } else if c.name@ == "exit"@ {
            c.arguments@.len() == 1 && produces(c.arguments@[0]) == 1 && lowerable(
                c.arguments@[0],
                functions,
            )
        } else if c.name@ == "strlen"@ {
            true
        } else {
            functions.contains(c.name@)
        },
        AST::Program(p) => forall|i: int|
            0 <= i < p.statements@.len() ==> lowerable(#[trigger] p.statements@[i], functions),
        AST::Conditional(c) => {
            &&& produces(*c.if_statement.condition) == 1
            &&& lowerable(*c.if_statement.condition, functions)
            &&& lowerable(*c.if_statement.block, functions)
            &&& forall|k: int|
                0 <= k < c.elif_ladder@.len() ==> produces(*(#[trigger] c.elif_ladder@[k]).condition)
                    == 1 && lowerable(*c.elif_ladder@[k].condition, functions) && lowerable(
                    *c.elif_ladder@[k].block,
                    functions,
                )
            &&& c.else_statement matches Some(e) ==> lowerable(*e.block, functions)
        },
        AST::Variable(_) => false,
    }
}

/// The node leaves its value in a general-purpose register it locked.
pub open spec fn holds_general(node: AST) -> bool {
    match node {
        AST::BinaryOp(_) => true,
        AST::Comparison(_) => true,
        AST::FunctionCall(c) => !is_intrinsic(c.name@),
        _ => false,
    }
}

/// The node leaves its value in a floating-point register it locked.
pub open spec fn holds_float(node: AST) -> bool {
    match node {
        AST::Factor(f) => f.token matches TokenEnum::Number(Number::Float(_)),
        _ => false,
    }
}

/// The node can be compiled with `g` general-purpose and `f` floating-point
/// registers free: the left operand of an operation keeps its register while
/// the right one is compiled, and the operation takes one more once both are
/// released; every other node uses its children one after another.
pub open spec fn fits(node: AST, g: int, f: int) -> bool
    decreases node,
{
    match node {
        AST::BinaryOp(b) => {
            &&& g >= 1
            &&& fits(*b.left, g, f)
            &&& fits(
                *b.right,
                g - (if holds_general(*b.left) { 1int } else { 0int }),
                f - (if holds_float(*b.left) { 1int } else { 0int }),
            )
        },
        AST::Comparison(c) => {
            &&& g >= 1
            &&& fits(*c.left, g, f)
            &&& fits(
                *c.right,
                g - (if holds_general(*c.left) { 1int } else { 0int }),
                f - (if holds_float(*c.left) { 1int } else { 0int }),
            )
        },
        AST::Factor(ff) => ff.token matches TokenEnum::Number(Number::Float(_)) ==> f >= 1,
        AST::FunctionCall(c) => if is_intrinsic(c.name@) {
            forall|i: int| 0 <= i < c.arguments@.len() ==> fits(#[trigger] c.arguments@[i], g, f)
        } else {
            g >= 1
        },
        AST::Program(p) => forall|i: int|
            0 <= i < p.statements@.len() ==> fits(#[trigger] p.statements@[i], g, f),
        AST::Conditional(c) => {
            &&& fits(*c.if_statement.condition, g, f)
            &&& fits(*c.if_statement.block, g, f)
            &&& forall|k: int|
                0 <= k < c.elif_ladder@.len() ==> fits(*(#[trigger] c.elif_ladder@[k]).condition, g, f)
                    && fits(*c.elif_ladder@[k].block, g, f)
            &&& c.else_statement matches Some(e) ==> fits(*e.block, g, f)
        },
        AST::Variable(_) => true,
    }
}

/// More free registers never hurt.
pub proof fn lemma_fits_more(node: AST, g: int, f: int, g2: int, f2: int)
    requires
        fits(node, g, f),
        g <= g2,
        f <= f2,
    ensures
        fits(node, g2, f2),
    decreases node,
{
    match node {
        AST::BinaryOp(b) => {
            lemma_fits_more(*b.left, g, f, g2, f2);
            lemma_fits_more(
                *b.right,
                g - (if holds_general(*b.left) { 1int } else { 0int }),
                f - (if holds_float(*b.left) { 1int } else { 0int }),
                g2 - (if holds_general(*b.left) { 1int } else { 0int }),
                f2 - (if holds_float(*b.left) { 1int } else { 0int }),
            );
        },
        AST::Comparison(c) => {
            lemma_fits_more(*c.left, g, f, g2, f2);
            lemma_fits_more(
                *c.right,
                g - (if holds_general(*c.left) { 1int } else { 0int }),
                f - (if holds_float(*c.left) { 1int } else { 0int }),
                g2 - (if holds_general(*c.left) { 1int } else { 0int }),
                f2 - (if holds_float(*c.left) { 1int } else { 0int }),
            );
        },
        AST::FunctionCall(c) => {
            if is_intrinsic(c.name@) {
                assert forall|i: int| 0 <= i < c.arguments@.len() implies fits(
                    #[trigger] c.arguments@[i],
                    g2,
                    f2,
                ) by {
                    lemma_fits_more(c.arguments@[i], g, f, g2, f2);
                }
            }
        },
        AST::Program(p) => {
            assert forall|i: int| 0 <= i < p.statements@.len() implies fits(
                #[trigger] p.statements@[i],
                g2,
                f2,
            ) by {
                lemma_fits_more(p.statements@[i], g, f, g2, f2);
            }
        },
        AST::Conditional(c) => {
            lemma_fits_more(*c.if_statement.condition, g, f, g2, f2);
            lemma_fits_more(*c.if_statement.block, g, f, g2, f2);
            assert forall|k: int| 0 <= k < c.elif_ladder@.len() implies fits(
                *(#[trigger] c.elif_ladder@[k]).condition,
                g2,
                f2,
            ) && fits(*c.elif_ladder@[k].block, g2, f2) by {
                lemma_fits_more(*c.elif_ladder@[k].condition, g, f, g2, f2);
                lemma_fits_more(*c.elif_ladder@[k].block, g, f, g2, f2);
            }
            if let Some(e) = c.else_statement {
                lemma_fits_more(*e.block, g, f, g2, f2);
            }
        },
        _ => {},
    }
}

/// How many numbered constants and ladders compiling the node takes at most.
pub open spec fn uses(node: AST) -> nat
    decreases node,
{
    match node {
        AST::BinaryOp(b) => uses(*b.left) + uses(*b.right),
        AST::Comparison(c) => uses(*c.left) + uses(*c.right),
        AST::Factor(f) => match f.token {
            TokenEnum::Variable(_) => 0,
            TokenEnum::Number(Number::Integer(_)) => 0,
            _ => 1,
        },
        AST::FunctionCall(c) => uses_seq(c.arguments@),
        AST::Program(p) => uses_seq(p.statements@),
        AST::Conditional(c) => 1 + uses(*c.if_statement.condition) + uses(*c.if_statement.block)
            + uses_arms(c.elif_ladder@) + match c.else_statement {
            Some(e) => uses(*e.block),
            None => 0,
        },
        AST::Variable(_) => 0,
    }
}

/// What compiling the nodes one after another takes.
pub open spec fn uses_seq(nodes: Seq<AST>) -> nat
    decreases nodes,
{
    if nodes.len() == 0 {
        0
    } else {
        uses_seq(nodes.drop_last()) + uses(nodes.last())
    }
}

/// What compiling the elif arms one after another takes.
pub open spec fn uses_arms(arms: Seq<IfStatement>) -> nat
    decreases arms,
{
    if arms.len() == 0 {
        0
    } else {
        uses_arms(arms.drop_last()) + uses(*arms.last().condition) + uses(*arms.last().block)
    }
}

/// The counters of `s` leave room for what compiling the node takes.
pub open spec fn counters_fit(s: ASM, node: AST) -> bool {
    &&& s.num_floats + uses(node) <= usize::MAX
    &&& s.num_strings + uses(node) <= usize::MAX
    &&& s.num_ifs + uses(node) <= usize::MAX
}

/// The counters of `later` went up by at most `k` from those of `s`.
pub open spec fn counted(s: ASM, later: ASM, k: nat) -> bool {
    &&& later.num_floats <= s.num_floats + k
    &&& later.num_strings <= s.num_strings + k
    &&& later.num_ifs <= s.num_ifs + k
}

/// The registers named by the operands that compiling the node pushed: at
/// most one, general-purpose or floating-point as the node says.
pub open spec fn results_ok(s: ASM, later: ASM, node: AST) -> bool {
    let named = regs_named(later.operands().skip(s.operands().len() as int));
    &&& forall|x: Register, y: Register| named.contains(x) && named.contains(y) ==> x == y
    &&& forall|x: Register|
        #![trigger named.contains(x)]
        named.contains(x) ==> (is_general(x) ==> holds_general(node)) && (!is_general(x)
            ==> holds_float(node))
}

/// Compiling the node from `s` cannot fail: the node is lowerable, the free
/// registers suffice and the counters have room.
pub open spec fn can_succeed(s: ASM, node: AST, functions: Seq<Seq<char>>) -> bool {
    &&& lowerable(node, functions)
    &&& fits(
        node,
        free_general(s.locked(), s.regs_locked_for_function_call@) as int,
        free_float(s.locked(), s.regs_locked_for_function_call@) as int,
    )
    &&& counters_fit(s, node)
}

proof fn lemma_uses_seq_step(s: Seq<AST>, i: int)
    requires
        0 <= i < s.len(),
    ensures
        uses_seq(s.take(i + 1)) == uses_seq(s.take(i)) + uses(s[i]),
{
    assert(s.take(i + 1).drop_last() =~= s.take(i));
}

proof fn lemma_uses_seq_prefix(s: Seq<AST>, i: int)
    requires
        0 <= i <= s.len(),
    ensures
        uses_seq(s.take(i)) <= uses_seq(s),
    decreases s.len() - i,
{
    if i < s.len() {
        lemma_uses_seq_step(s, i);
        lemma_uses_seq_prefix(s, i + 1);
    } else {
        assert(s.take(i) =~= s);
    }
}

proof fn lemma_uses_arms_step(s: Seq<IfStatement>, i: int)
    requires
        0 <= i < s.len(),
    ensures
        uses_arms(s.take(i + 1)) == uses_arms(s.take(i)) + uses(*s[i].condition) + uses(
            *s[i].block,
        ),
{
    assert(s.take(i + 1).drop_last() =~= s.take(i));
}

proof fn lemma_uses_arms_prefix(s: Seq<IfStatement>, i: int)
    requires
        0 <= i <= s.len(),
    ensures
        uses_arms(s.take(i)) <= uses_arms(s),
    decreases s.len() - i,
{
    if i < s.len() {
        lemma_uses_arms_step(s, i);
        lemma_uses_arms_prefix(s, i + 1);
    } else {
        assert(s.take(i) =~= s);
    }
}

/// After compiling a node that fits, with its results still locked, the free
/// registers are those from before less the one the node holds.
proof fn lemma_free_after(s0: ASM, s1: ASM, node: AST)
    requires
        s0.pushed_results(&s1, produces(node)),
        results_ok(s0, s1, node),
        s1.regs_locked_for_function_call@ == s0.regs_locked_for_function_call@,
    ensures
        free_general(s1.locked(), s1.regs_locked_for_function_call@) + (if holds_general(node) {
            1int
        } else {
            0int
        }) >= free_general(s0.locked(), s0.regs_locked_for_function_call@),
        free_float(s1.locked(), s1.regs_locked_for_function_call@) + (if holds_float(node) {
            1int
        } else {
            0int
        }) >= free_float(s0.locked(), s0.regs_locked_for_function_call@),
{
    let named = regs_named(s1.operands().skip(s0.operands().len() as int));
    let l = s0.locked();
    let rs = s0.regs_locked_for_function_call@;
    crate::register_file::lemma_free_one_less(
        l,
        named,
        rs,
        0,
        crate::registers::GENERAL_REGISTER_COUNT as int,
    );
    crate::register_file::lemma_free_one_less(
        l,
        named,
        rs,
        crate::registers::GENERAL_REGISTER_COUNT as int,
        crate::registers::REGISTER_COUNT as int,
    );
    if !holds_general(node) {
        assert forall|x: Register| named.contains(x) implies !(0 <= crate::registers::reg_index(x)
            < crate::registers::GENERAL_REGISTER_COUNT) by {}
        crate::register_file::lemma_free_outside(
            l,
            named,
            rs,
            0,
            crate::registers::GENERAL_REGISTER_COUNT as int,
        );
    }
    if !holds_float(node) {
        assert forall|x: Register| named.contains(x) implies !(
        crate::registers::GENERAL_REGISTER_COUNT <= crate::registers::reg_index(x)
            < crate::registers::REGISTER_COUNT) by {}
        crate::register_file::lemma_free_outside(
            l,
            named,
            rs,
            crate::registers::GENERAL_REGISTER_COUNT as int,
            crate::registers::REGISTER_COUNT as int,
        );
    }
}

/// The code an operation node emits once its operands, `a` below `b`, are
/// on the operand stack, with its result taken into `reg`.
pub open spec fn operation_code(node: AST, a: Seq<char>, b: Seq<char>, reg: Register) -> Seq<
    Seq<char>,
> {
    let body = match node {
        AST::BinaryOp(o) => op_lines(o.operator, is_float_type(o.result_type)).unwrap()
            + placement_lines(o.result_type, o.times_dereferenced as nat).unwrap(),
        AST::Comparison(c) => compare_lines(c.comp_op),
        _ => Seq::empty(),
    };
    materialize(a) + materialize(b) + seq![Seq::<char>::empty()] + body + seq![
        Seq::<char>::empty(),
        bind_line(reg),
        Seq::<char>::empty(),
    ]
}

/// The code of a `write` of the first `k` of `args`: for each, the code
/// `codes[i]` that computes it, then the write of a string, with `ds[i]` its
/// symbol and its length, or the print of a number, with `ds[i]` its
/// descriptor.
pub open spec fn write_code(
    args: Seq<AST>,
    codes: Seq<Seq<Seq<char>>>,
    ds: Seq<Seq<Seq<char>>>,
    k: nat,
) -> Seq<Seq<char>>
    decreases k,
{
    if k == 0 {
        Seq::empty()
    } else {
        write_code(args, codes, ds, (k - 1) as nat) + codes[k - 1] + (if produces(args[k - 1])
            == 2 {
            write_string_lines(ds[k - 1][0], ds[k - 1][1])
        } else {
            write_number_lines(ds[k - 1][0])
        }) + seq![Seq::<char>::empty()]
    }
}

proof fn lemma_write_code_push(
    args: Seq<AST>,
    codes: Seq<Seq<Seq<char>>>,
    ds: Seq<Seq<Seq<char>>>,
    code: Seq<Seq<char>>,
    d: Seq<Seq<char>>,
    k: nat,
)
    requires
        k <= codes.len(),
        k <= ds.len(),
    ensures
        write_code(args, codes.push(code), ds.push(d), k) == write_code(args, codes, ds, k),
    decreases k,
{
    if k > 0 {
        lemma_write_code_push(args, codes, ds, code, d, (k - 1) as nat);
        assert(codes.push(code)[k - 1] == codes[k - 1]);
        assert(ds.push(d)[k - 1] == ds[k - 1]);
    }
}

/// The failures that come from running out of registers or of constant
/// numbers, not from the tree.
pub open spec fn resource_error(r: Result<(), CodegenError>) -> bool {
    r == Err::<(), CodegenError>(CodegenError::RegistersExhausted) || r == Err::<(), CodegenError>(
        CodegenError::CounterOverflow,
    )
}

/// Where the condition of the `if` arm jumps in a ladder with `m` elif arms.
pub open spec fn if_gate_choice(m: nat, has_else: bool) -> ConditionalJumpTo {
    if m > 0 {
        ConditionalJumpTo::Elif
    } else if has_else {
        ConditionalJumpTo::Else
    } else {
        ConditionalJumpTo::IfEnd
    }
}

/// Where the body of the `if` arm jumps in a ladder with `m` elif arms.
pub open spec fn if_exit_choice(m: nat, has_else: bool) -> ConditionalJumpTo {
    if has_else {
        ConditionalJumpTo::Else
    } else if m > 0 {
        ConditionalJumpTo::ElifEnd
    } else {
        ConditionalJumpTo::IfEnd
    }
}

/// Where the condition of elif arm `k` jumps in a ladder with `m` elif arms.
pub open spec fn elif_gate_choice(k: nat, m: nat, has_else: bool) -> ConditionalJumpTo {
    if k + 1 < m {
        ConditionalJumpTo::Elif
    } else if has_else {
        ConditionalJumpTo::Else
    } else {
        ConditionalJumpTo::ElifEnd
    }
}

/// Where the body of an elif arm jumps.
pub open spec fn elif_exit_choice(has_else: bool) -> ConditionalJumpTo {
    if has_else {
        ConditionalJumpTo::Else
    } else {
        ConditionalJumpTo::ElifEnd
    }
}

/// The label where every arm of ladder `n` with `m` elif arms converges.
pub open spec fn ladder_end(n: nat, m: nat, has_else: bool) -> Seq<char> {
    if has_else {
        else_end_label(n)
    } else if m > 0 {
        elif_end_label(n, (m - 1) as nat)
    } else {
        if_end_label(n)
    }
}

/// The code of the `if` arm of ladder `n` with `m` elif arms: the code `cond`
/// that computes the condition, its label, the test of the condition's
/// descriptor `d`, the code `body` of the block, and the jump to the end.
pub open spec fn if_arm_code(
    n: nat,
    m: nat,
    has_else: bool,
    cond: Seq<Seq<char>>,
    d: Seq<char>,
    body: Seq<Seq<char>>,
) -> Seq<Seq<char>> {
    cond + seq![marker(if_label(n))] + gate_lines(d, if_start_target(if_gate_choice(m, has_else), n))
        + seq![Seq::<char>::empty()] + body + seq![
        jmp_line(if_end_target(if_exit_choice(m, has_else), m, n)),
        marker(if_end_label(n)),
        Seq::<char>::empty(),
    ]
}

/// The code of elif arm `k` of ladder `n`: the code `cond` that computes the
/// condition, the arm's label, the test of its descriptor `d`, the code
/// `body` of the block, and the jump to the end.
pub open spec fn elif_arm_code(
    n: nat,
    k: nat,
    m: nat,
    has_else: bool,
    cond: Seq<Seq<char>>,
    d: Seq<char>,
    body: Seq<Seq<char>>,
) -> Seq<Seq<char>> {
    cond + seq![marker(elif_label(n, k))] + gate_lines(
        d,
        elif_start_target(k, elif_gate_choice(k, m, has_else), n),
    ) + seq![Seq::<char>::empty()] + body + seq![
        jmp_line(elif_end_target(elif_exit_choice(has_else), m, n)),
        marker(elif_end_label(n, k)),
        Seq::<char>::empty(),
    ]
}

/// The code of the first `k` elif arms of ladder `n`.
pub open spec fn elif_arms_code(
    n: nat,
    m: nat,
    has_else: bool,
    conds: Seq<Seq<Seq<char>>>,
    ds: Seq<Seq<char>>,
    bodies: Seq<Seq<Seq<char>>>,
    k: nat,
) -> Seq<Seq<char>>
    decreases k,
{
    if k == 0 {
        Seq::empty()
    } else {
        elif_arms_code(n, m, has_else, conds, ds, bodies, (k - 1) as nat) + elif_arm_code(
            n,
            (k - 1) as nat,
            m,
            has_else,
            conds[k - 1],
            ds[k - 1],
            bodies[k - 1],
        )
    }
}

/// The code of the else arm of ladder `n` with the block code `body`.
pub open spec fn else_arm_code(n: nat, body: Seq<Seq<char>>) -> Seq<Seq<char>> {
    seq![marker(else_label(n)), Seq::<char>::empty()] + body + seq![
        marker(else_end_label(n)),
        Seq::<char>::empty(),
    ]
}

/// The code of ladder `n`: its `if` arm, its `m` elif arms, and its else
/// arm when it has one.
pub open spec fn ladder_code(
    n: nat,
    m: nat,
    has_else: bool,
    if_cond: Seq<Seq<char>>,
    if_d: Seq<char>,
    if_body: Seq<Seq<char>>,
    conds: Seq<Seq<Seq<char>>>,
    ds: Seq<Seq<char>>,
    bodies: Seq<Seq<Seq<char>>>,
    else_body: Seq<Seq<char>>,
) -> Seq<Seq<char>> {
    if_arm_code(n, m, has_else, if_cond, if_d, if_body) + elif_arms_code(
        n,
        m,
        has_else,
        conds,
        ds,
        bodies,
        m,
    ) + if has_else {
        else_arm_code(n, else_body)
    } else {
        Seq::empty()
    }
}

proof fn lemma_elif_arms_push(
    n: nat,
    m: nat,
    has_else: bool,
    conds: Seq<Seq<Seq<char>>>,
    ds: Seq<Seq<char>>,
    bodies: Seq<Seq<Seq<char>>>,
    cond: Seq<Seq<char>>,
    d: Seq<char>,
    body: Seq<Seq<char>>,
    k: nat,
)
    requires
        k <= conds.len(),
        k <= ds.len(),
        k <= bodies.len(),
    ensures
        elif_arms_code(n, m, has_else, conds.push(cond), ds.push(d), bodies.push(body), k)
            == elif_arms_code(n, m, has_else, conds, ds, bodies, k),
    decreases k,
{
    if k > 0 {
        lemma_elif_arms_push(n, m, has_else, conds, ds, bodies, cond, d, body, (k - 1) as nat);
        assert(conds.push(cond)[k - 1] == conds[k - 1]);
        assert(ds.push(d)[k - 1] == ds[k - 1]);
        assert(bodies.push(body)[k - 1] == bodies[k - 1]);
    }
}

/// The label of the arm after the first `i` arms of ladder `n`: elif arm `i`
/// while there is one, then the else arm, then the end of the ladder.
pub open spec fn next_arm_label(n: nat, i: nat, m: nat, has_else: bool) -> Seq<char> {
    if i < m {
        elif_label(n, i)
    } else if has_else {
        else_label(n)
    } else {
        ladder_end(n, m, has_else)
    }
}

fn if_gate(m: usize, has_else: bool) -> (j: ConditionalJumpTo)
    ensures
        j == if_gate_choice(m as nat, has_else),
{
    if m > 0 {
        ConditionalJumpTo::Elif
    } else if has_else {
        ConditionalJumpTo::Else
    } else {
        ConditionalJumpTo::IfEnd
    }
}

fn if_exit(m: usize, has_else: bool) -> (j: ConditionalJumpTo)
    ensures
        j == if_exit_choice(m as nat, has_else),
{
    if has_else {
        ConditionalJumpTo::Else
    } else if m > 0 {
        ConditionalJumpTo::ElifEnd
    } else {
        ConditionalJumpTo::IfEnd
    }
}

fn elif_gate(k: usize, m: usize, has_else: bool) -> (j: ConditionalJumpTo)
    requires
        k < m,
    ensures
        j == elif_gate_choice(k as nat, m as nat, has_else),
{
    if k + 1 < m {
        ConditionalJumpTo::Elif
    } else if has_else {
        ConditionalJumpTo::Else
    } else {
        ConditionalJumpTo::ElifEnd
    }
}

fn elif_exit(has_else: bool) -> (j: ConditionalJumpTo)
    ensures
        j == elif_exit_choice(has_else),
{
    if has_else {
        ConditionalJumpTo::Else
    } else {
        ConditionalJumpTo::ElifEnd
    }
}

fn is_named(name: &String, s: &str) -> (b: bool)
    ensures
        b == (name@ == s@),
{
    *name == String::from_str(s)
}

/// Whether `functions` holds `name`.
fn defines(functions: &Vec<String>, name: &String) -> (b: bool)
    ensures
        b == lines(functions@).contains(name@),
{
    let n = functions.len();
    let mut i: usize = 0;
    while i < n
        invariant
            n == functions@.len(),
            i <= n,
            forall|j: int| 0 <= j < i ==> functions@[j]@ != name@,
        decreases n - i,
    {
        if functions[i] == *name {
            proof {
                assert(lines(functions@)[i as int] == name@);
            }
            return true;
        }
        i = i + 1;
    }
    proof {
        let names = lines(functions@);
        if names.contains(name@) {
            let j = choose|j: int| 0 <= j < n && #[trigger] names[j] == name@;
            assert(functions@[j]@ == name@);
        }
    }
    false
}

impl ASM {
    /// `later` follows from `self` by compiling a node that leaves `k`
    /// operands.
    pub open spec fn compiled(&self, later: &ASM, k: nat) -> bool {
        &&& later.wf()
        &&& later.operands_ok()
        &&& self.grows_to(later)
        &&& self.pushed_results(later, k)
        &&& self.same_fixed(later)
    }

    /// Consumes the top `k` operands, releasing their registers.
    pub fn discard(&mut self, k: usize)
        requires
            old(self).wf(),
            old(self).operands_ok(),
            k <= old(self).operands().len(),
        ensures
            final(self).wf(),
            final(self).operands_ok(),
            old(self).grows_to(final(self)),
            old(self).popped_results(final(self), k as nat),
            old(self).same_sections(final(self)),
    {
        let ghost ops = old(self).operands();
        let ghost n = ops.len();
        let mut i: usize = 0;
        proof {
            assert(ops.take(n as int) =~= ops);
            assert(regs_named(ops.skip(n as int)) =~= Set::<Register>::empty()) by {
                assert(ops.skip(n as int).len() == 0);
            }
            assert(old(self).locked().difference(Set::<Register>::empty()) =~= old(self).locked());
            old(self).lemma_same_code_grows(old(self));
        }
        while i < k
            invariant
                i <= k <= n,
                n == ops.len(),
                old(self).wf(),
                self.wf(),
                self.operands_ok(),
                old(self).grows_to(self),
                old(self).same_sections(self),
                self.operands() == ops.take(n - i),
                self.locked() == old(self).locked().difference(regs_named(ops.skip(n - i))),
            decreases k - i,
        {
            let ghost before = *self;
            let d = self.pop_operand();
            proof {
                old(self).lemma_grows_trans(&before, self);
                let m = n - i - 1;
                assert(d@ == ops[m]);
                assert(self.operands() =~= ops.take(m));
                assert forall|r: Register|
                    #![auto]
                    self.locked().contains(r) <==> old(self).locked().difference(
                        regs_named(ops.skip(m)),
                    ).contains(r) by {
                    if regs_named(ops.skip(m)).contains(r) {
                        let tail = ops.skip(m);
                        let q = choose|q: int| 0 <= q < tail.len() && reg_text(r) == #[trigger] tail[q];
                        if q > 0 {
                            assert(ops.skip(m + 1)[q - 1] == ops.skip(m)[q]);
                        }
                    }
                    if regs_named(ops.skip(m + 1)).contains(r) {
                        let tail = ops.skip(m + 1);
                        let q = choose|q: int| 0 <= q < tail.len() && reg_text(r) == #[trigger] tail[q];
                        assert(ops.skip(m)[q + 1] == ops.skip(m + 1)[q]);
                    }
                    if reg_text(r) == d@ {
                        assert(ops.skip(m)[0] == d@);
                    }
                }
                assert(self.locked() =~= old(self).locked().difference(regs_named(ops.skip(m))));
            }
            i = i + 1;
        }
    }
}

impl AST {
    /// How many operands compiling the node leaves on the operand stack.
    pub fn result_count(&self) -> (k: usize)
        ensures
            k == produces(*self),
    {
        match self {
            AST::BinaryOp(_) => 1,
            AST::Comparison(_) => 1,
            AST::Factor(f) => match &f.token {
                TokenEnum::StringLiteral(_) => 2,
                TokenEnum::Variable(_) => 0,
                _ => 1,
            },
            AST::FunctionCall(c) => {
                if is_named(&c.name, "write") || is_named(&c.name, "exit") || is_named(
                    &c.name,
                    "strlen",
                ) {
                    0
                } else {
                    1
                }
            },
            _ => 0,
        }
    }

    /// Compiles the node, children first: an expression leaves its result on
    /// the operand stack (a string literal its symbol and its length), a
    /// statement leaves nothing, and code is only added at the end of the
    /// current label. `functions` names the user functions that can be
    /// called.
    ///
    /// It fails on a node that is not lowerable, and otherwise only when
    /// registers or constant numbers run out; with the free registers and
    /// the counter room that the node needs, it succeeds.
    pub fn visit_com(&self, out: &mut ASM, functions: &Vec<String>) -> (r: Result<(), CodegenError>)
        requires
            old(out).wf(),
            old(out).operands_ok(),
        ensures
            final(out).wf(),
            r is Ok ==> old(out).compiled(final(out), produces(*self)),
            (*self matches AST::FunctionCall(c) && c.name@ == "exit"@ && c.arguments.len() != 1)
                ==> r == Err::<(), CodegenError>(CodegenError::ExitArity) && *final(out) == *old(
                out,
            ),
            *self is Variable ==> r == Err::<(), CodegenError>(CodegenError::UnsupportedNode),
            r is Ok && *self is Conditional ==> exists|
                if_cond: Seq<Seq<char>>,
                if_d: Seq<char>,
                if_body: Seq<Seq<char>>,
                conds: Seq<Seq<Seq<char>>>,
                ds: Seq<Seq<char>>,
                bodies: Seq<Seq<Seq<char>>>,
                else_body: Seq<Seq<char>>,
            |
                #![trigger ladder_code(
                    old(out).num_ifs as nat,
                    self->Conditional_0.elif_ladder@.len(),
                    self->Conditional_0.else_statement is Some,
                    if_cond,
                    if_d,
                    if_body,
                    conds,
                    ds,
                    bodies,
                    else_body,
                )]
                final(out).code() == old(out).code() + ladder_code(
                    old(out).num_ifs as nat,
                    self->Conditional_0.elif_ladder@.len(),
                    self->Conditional_0.else_statement is Some,
                    if_cond,
                    if_d,
                    if_body,
                    conds,
                    ds,
                    bodies,
                    else_body,
                ),
            r is Ok ==> lowerable(*self, lines(functions@)),
            lowerable(*self, lines(functions@)) ==> r is Ok || resource_error(r),
            r is Ok ==> counted(*old(out), *final(out), uses(*self)),
            r is Ok ==> results_ok(*old(out), *final(out), *self),
            can_succeed(*old(out), *self, lines(functions@)) ==> r is Ok,
            r is Ok && (*self is BinaryOp || *self is Comparison) ==> exists|
                operands_code: Seq<Seq<char>>,
                a: Seq<char>,
                b: Seq<char>,
                reg: Register,
            |
                #![trigger operation_code(*self, a, b, reg), old(out).code() + operands_code]
                final(out).code() == old(out).code() + operands_code + operation_code(
                    *self,
                    a,
                    b,
                    reg,
                ) && final(out).operands() == old(out).operands().push(reg_text(reg)),
            r is Ok && (*self matches AST::FunctionCall(c) && c.name@ == "exit"@) ==> exists|
                argument_code: Seq<Seq<char>>,
                d: Seq<char>,
            |
                #![trigger old(out).code() + argument_code + exit_lines(d)]
                final(out).code() == old(out).code() + argument_code + exit_lines(d) + seq![
                    Seq::<char>::empty(),
                ],
            r is Ok && (*self matches AST::FunctionCall(c) && !is_intrinsic(c.name@)) ==> exists|
                reg: Register,
            |
                #![trigger call_lines(old(out).used_registers@, self->FunctionCall_0.name@, reg)]
                final(out).code() == old(out).code() + call_lines(
                    old(out).used_registers@,
                    self->FunctionCall_0.name@,
                    reg,
                ) + seq![Seq::<char>::empty()] && final(out).operands() == old(out).operands().push(
                    reg_text(reg),
                ),
            r is Ok && (*self matches AST::FunctionCall(c) && c.name@ == "write"@) ==> exists|
                codes: Seq<Seq<Seq<char>>>,
                ds: Seq<Seq<Seq<char>>>,
            |
                #![trigger write_code(
                    self->FunctionCall_0.arguments@,
                    codes,
                    ds,
                    self->FunctionCall_0.arguments@.len(),
                )]
                final(out).code() == old(out).code() + write_code(
                    self->FunctionCall_0.arguments@,
                    codes,
                    ds,
                    self->FunctionCall_0.arguments@.len(),
                ),
        decreases self, 2int,
    {
        match self {
            AST::BinaryOp(_) => self.visit_two(out, functions),
            AST::Comparison(_) => self.visit_two(out, functions),
            AST::Factor(f) => {
                let r = out.generate_asm_factor(&f.token);
                proof {
                    if r is Ok {
                        lemma_factor_results(*old(out), *out, f.token);
                    }
                    if can_succeed(*old(out), *self, lines(functions@)) {
                        match f.token {
                            TokenEnum::Number(Number::Float(_)) => {
                                crate::register_file::lemma_free_found(
                                    old(out).locked(),
                                    old(out).regs_locked_for_function_call@,
                                    crate::registers::GENERAL_REGISTER_COUNT as int,
                                    crate::registers::REGISTER_COUNT as int,
                                );
                            },
                            _ => {},
                        }
                    }
                }
                r
            },
            AST::FunctionCall(_) => self.visit_call(out, functions),
            AST::Program(_) => self.visit_program(out, functions),
            AST::Conditional(_) => self.visit_ladder(out, functions),
            AST::Variable(_) => Err(CodegenError::UnsupportedNode),
        }
    }

    /// Compiles an arithmetic expression or a comparison.
    #[verifier::rlimit(60)]
    fn visit_two(&self, out: &mut ASM, functions: &Vec<String>) -> (r: Result<(), CodegenError>)
        requires
            old(out).wf(),
            old(out).operands_ok(),
            *self is BinaryOp || *self is Comparison,
        ensures
            final(out).wf(),
            r is Ok ==> old(out).compiled(final(out), 1),
            r is Ok ==> lowerable(*self, lines(functions@)),
            lowerable(*self, lines(functions@)) ==> r is Ok || resource_error(r),
            r is Ok ==> counted(*old(out), *final(out), uses(*self)),
            r is Ok ==> results_ok(*old(out), *final(out), *self),
            can_succeed(*old(out), *self, lines(functions@)) ==> r is Ok,
            r is Ok && (*self is BinaryOp || *self is Comparison) ==> exists|
                operands_code: Seq<Seq<char>>,
                a: Seq<char>,
                b: Seq<char>,
                reg: Register,
            |
                #![trigger operation_code(*self, a, b, reg), old(out).code() + operands_code]
                final(out).code() == old(out).code() + operands_code + operation_code(
                    *self,
                    a,
                    b,
                    reg,
                ) && final(out).operands() == old(out).operands().push(reg_text(reg)),
        decreases self, 1int,
    {
        let (left, right) = match self {
            AST::BinaryOp(b) => (&b.left, &b.right),
            AST::Comparison(c) => (&c.left, &c.right),
            _ => {
                return Err(CodegenError::UnsupportedNode);
            },
        };
        if left.result_count() != 1 || right.result_count() != 1 {
            return Err(CodegenError::UnsupportedNode);
        }
        let ghost s0 = *out;
        let ghost fns = lines(functions@);
        let ghost ok = can_succeed(s0, *self, fns);
        let ghost gl: int = if holds_general(**left) { 1 } else { 0 };
        let ghost fl: int = if holds_float(**left) { 1 } else { 0 };
        let ghost g0 = free_general(s0.locked(), s0.regs_locked_for_function_call@) as int;
        let ghost f0 = free_float(s0.locked(), s0.regs_locked_for_function_call@) as int;
        proof {
            if ok {
                assert(lowerable(**left, fns) && lowerable(**right, fns));
                assert(fits(**left, g0, f0) && fits(**right, g0 - gl, f0 - fl) && g0 >= 1);
                assert(uses(*self) == uses(**left) + uses(**right));
                assert(can_succeed(s0, **left, fns));
            }
        }
        match left.visit_com(out, functions) {
            Ok(_) => {},
            Err(e) => {
                return Err(e);
            },
        }
        let ghost s1 = *out;
        proof {
            if ok {
                lemma_free_after(s0, s1, **left);
                lemma_fits_more(
                    **right,
                    g0 - gl,
                    f0 - fl,
                    free_general(s1.locked(), s1.regs_locked_for_function_call@) as int,
                    free_float(s1.locked(), s1.regs_locked_for_function_call@) as int,
                );
                assert(can_succeed(s1, **right, fns));
            }
        }
        match right.visit_com(out, functions) {
            Ok(_) => {},
            Err(e) => {
                return Err(e);
            },
        }
        let ghost s2 = *out;
        proof {
            assert(uses(*self) == uses(**left) + uses(**right));
            if ok {
                crate::register_file::lemma_free_found(
                    s0.locked(),
                    s0.regs_locked_for_function_call@,
                    0,
                    crate::registers::GENERAL_REGISTER_COUNT as int,
                );
            }
            s0.lemma_pushed_trans(&s1, &s2, 1, 1);
            s0.lemma_grows_trans(&s1, &s2);
            s0.lemma_freed_two(&s2);
            assert(s2.operands().drop_last().drop_last() =~= s0.operands()) by {
                assert(s2.operands().take(s0.operands().len() as int) == s0.operands());
            }
        }
        out.spill_operands();
        let ghost s3 = *out;
        let r = match self {
            AST::BinaryOp(b) => out.binary_op_nums(b.operator, b.times_dereferenced, &b.result_type),
            AST::Comparison(c) => {
                out.compare_two_numbers(c.comp_op);
                Ok(())
            },
            _ => Err(CodegenError::UnsupportedNode),
        };
        if r.is_err() {
            return r;
        }
        let ghost s4 = *out;
        proof {
            s0.lemma_grows_trans(&s2, &s3);
            s0.lemma_grows_trans(&s3, &s4);
        }
        let reg = match out.bind_result() {
            Ok(reg) => reg,
            Err(e) => {
                return Err(e);
            },
        };
        proof {
            crate::register_file::lemma_first_free_available(
                s4.locked(),
                s4.regs_locked_for_function_call@,
                0,
                crate::registers::GENERAL_REGISTER_COUNT as int,
            );
            assert(out.operands() =~= s0.operands().push(reg_text(reg)));
            s0.lemma_pushed_register(out, reg);
            s0.lemma_grows_trans(&s4, out);
            assert(regs_named(out.operands().skip(s0.operands().len() as int)).contains(reg));
            s0.lemma_grows_code(&s2);
            let operands_code = s2.code().skip(s0.code().len() as int);
            let a = s2.operands().drop_last().last();
            let b = s2.operands().last();
            assert(out.code() =~= s0.code() + operands_code + operation_code(*self, a, b, reg));
        }
        Ok(())
    }

    /// Compiles a call.
    fn visit_call(&self, out: &mut ASM, functions: &Vec<String>) -> (r: Result<(), CodegenError>)
        requires
            old(out).wf(),
            old(out).operands_ok(),
            *self is FunctionCall,
        ensures
            final(out).wf(),
            r is Ok ==> old(out).compiled(final(out), produces(*self)),
            (*self matches AST::FunctionCall(c) && c.name@ == "exit"@ && c.arguments.len() != 1)
                ==> r == Err::<(), CodegenError>(CodegenError::ExitArity) && *final(out) == *old(
                out,
            ),
            r is Ok ==> lowerable(*self, lines(functions@)),
            lowerable(*self, lines(functions@)) ==> r is Ok || resource_error(r),
            r is Ok ==> counted(*old(out), *final(out), uses(*self)),
            r is Ok ==> results_ok(*old(out), *final(out), *self),
            can_succeed(*old(out), *self, lines(functions@)) ==> r is Ok,
            r is Ok && (*self matches AST::FunctionCall(c) && c.name@ == "exit"@) ==> exists|
                argument_code: Seq<Seq<char>>,
                d: Seq<char>,
            |
                #![trigger old(out).code() + argument_code + exit_lines(d)]
                final(out).code() == old(out).code() + argument_code + exit_lines(d) + seq![
                    Seq::<char>::empty(),
                ],
            r is Ok && (*self matches AST::FunctionCall(c) && !is_intrinsic(c.name@)) ==> exists|
                reg: Register,
            |
                #![trigger call_lines(old(out).used_registers@, self->FunctionCall_0.name@, reg)]
                final(out).code() == old(out).code() + call_lines(
                    old(out).used_registers@,
                    self->FunctionCall_0.name@,
                    reg,
                ) + seq![Seq::<char>::empty()] && final(out).operands() == old(out).operands().push(
                    reg_text(reg),
                ),
            r is Ok && (*self matches AST::FunctionCall(c) && c.name@ == "write"@) ==> exists|
                codes: Seq<Seq<Seq<char>>>,
                ds: Seq<Seq<Seq<char>>>,
            |
                #![trigger write_code(
                    self->FunctionCall_0.arguments@,
                    codes,
                    ds,
                    self->FunctionCall_0.arguments@.len(),
                )]
                final(out).code() == old(out).code() + write_code(
                    self->FunctionCall_0.arguments@,
                    codes,
                    ds,
                    self->FunctionCall_0.arguments@.len(),
                ),
        decreases self, 1int,
    {
        let c = match self {
            AST::FunctionCall(c) => c,
            _ => {
                return Err(CodegenError::UnsupportedNode);
            },
        };
        let ghost s0 = *out;
        let ghost fns = lines(functions@);
        let ghost ok = can_succeed(s0, *self, fns);
        proof {
            s0.lemma_same_code_grows(&s0);
            s0.lemma_pushed_none(&s0);
            assert(c.arguments@.take(0) =~= Seq::<AST>::empty());
            reveal_strlit("write");
            reveal_strlit("exit");
            reveal_strlit("strlen");
            assert("write"@.len() == 5);
            assert("exit"@.len() == 4);
            assert("strlen"@.len() == 6);
        }
        if is_named(&c.name, "write") {
            let n = c.arguments.len();
            let mut i: usize = 0;
            proof {
                reveal_strlit("write");
                reveal_strlit("exit");
                assert(c.name@ == "write"@);
                assert("write"@.len() == 5);
                assert("exit"@.len() == 4);
                assert(c.name@ != "exit"@);
            }
            let ghost mut codes: Seq<Seq<Seq<char>>> = Seq::empty();
            let ghost mut ds: Seq<Seq<Seq<char>>> = Seq::empty();
            while i < n
                invariant
                    c.name@ != "exit"@,
                    c.name@ == "write"@,
                    codes.len() == i,
                    ds.len() == i,
                    out.code() == s0.code() + write_code(c.arguments@, codes, ds, i as nat),
                    forall|j: int|
                        0 <= j < i ==> produces(#[trigger] c.arguments@[j]) > 0 && lowerable(
                            c.arguments@[j],
                            lines(functions@),
                        ),
                    n == c.arguments@.len(),
                    i <= n,
                    *self matches AST::FunctionCall(cc) && cc == c,
                    s0.wf(),
                    out.wf(),
                    out.operands_ok(),
                    s0.grows_to(out),
                    s0.same_fixed(out),
                    out.operands() == s0.operands(),
                    out.locked() == s0.locked(),
                    fns == lines(functions@),
                    ok == can_succeed(s0, *self, fns),
                    s0 == *old(out),
                    counted(s0, *out, uses_seq(c.arguments@.take(i as int))),
                decreases n - i,
            {
                let arg = &c.arguments[i];
                let ghost si = *out;
                proof {
                    assert(*arg == c.arguments@[i as int]);
                    lemma_uses_seq_step(c.arguments@, i as int);
                    lemma_uses_seq_prefix(c.arguments@, i + 1);
                    if ok {
                        assert(fits(c.arguments@[i as int], free_general(s0.locked(), s0.regs_locked_for_function_call@) as int, free_float(s0.locked(), s0.regs_locked_for_function_call@) as int));
                        assert(lowerable(c.arguments@[i as int], fns));
                        assert(can_succeed(si, c.arguments@[i as int], fns));
                    }
                }
                let k = arg.result_count();
                if k == 0 {
                    proof {
                        assert(produces(c.arguments@[i as int]) == 0);
                    }
                    return Err(CodegenError::UnsupportedNode);
                }
                match arg.visit_com(out, functions) {
                    Ok(_) => {},
                    Err(e) => {
                        proof {
                            if !resource_error(Err::<(), CodegenError>(e)) {
                                assert(!lowerable(c.arguments@[i as int], lines(functions@)));
                            }
                        }
                        return Err(e);
                    },
                }
                let ghost mid = *out;
                let ghost code = mid.code().skip(si.code().len() as int);
                let ghost d = if k == 2 {
                    seq![mid.operands().drop_last().last(), mid.operands().last()]
                } else {
                    seq![mid.operands().last()]
                };
                proof {
                    s0.lemma_grows_trans(&si, &mid);
                    si.lemma_grows_code(&mid);
                }
                if k == 2 {
                    proof {
                        si.lemma_freed_two(&mid);
                        assert(mid.operands().drop_last().drop_last() =~= si.operands()) by {
                            assert(mid.operands().take(si.operands().len() as int) == si.operands());
                        }
                    }
                    out.func_write_string();
                } else {
                    proof {
                        si.lemma_freed_one(&mid);
                    }
                    out.func_write_number();
                }
                proof {
                    s0.lemma_grows_trans(&mid, out);
                    lemma_write_code_push(c.arguments@, codes, ds, code, d, i as nat);
                    assert(codes.push(code)[i as int] == code);
                    assert(ds.push(d)[i as int] == d);
                    assert(out.code() =~= s0.code() + write_code(
                        c.arguments@,
                        codes.push(code),
                        ds.push(d),
                        (i + 1) as nat,
                    ));
                    codes = codes.push(code);
                    ds = ds.push(d);
                }
                i = i + 1;
            }
            proof {
                s0.lemma_pushed_none(out);
                assert(c.arguments@.take(n as int) =~= c.arguments@);
            }
            Ok(())
        } else if is_named(&c.name, "exit") {
            if c.arguments.len() != 1 {
                return Err(CodegenError::ExitArity);
            }
            let arg = &c.arguments[0];
            if arg.result_count() != 1 {
                return Err(CodegenError::UnsupportedNode);
            }
            proof {
                lemma_uses_seq_step(c.arguments@, 0);
                assert(c.arguments@.take(1) =~= c.arguments@);
                if ok {
                    assert(can_succeed(s0, c.arguments@[0], fns));
                }
            }
            match arg.visit_com(out, functions) {
                Ok(_) => {},
                Err(e) => {
                    return Err(e);
                },
            }
            let ghost mid = *out;
            proof {
                s0.lemma_freed_one(&mid);
            }
            out.func_exit();
            proof {
                s0.lemma_grows_trans(&mid, out);
                s0.lemma_pushed_none(out);
                s0.lemma_grows_code(&mid);
                let argument_code = mid.code().skip(s0.code().len() as int);
                assert(out.code() =~= s0.code() + argument_code + exit_lines(mid.operands().last())
                    + seq![Seq::<char>::empty()]);
            }
            Ok(())
        } else if is_named(&c.name, "strlen") {
            Ok(())
        } else if defines(functions, &c.name) {
            let r = out.function_call(&c.name);
            proof {
                reveal_strlit("strlen");
                if ok {
                    crate::register_file::lemma_free_found(
                        s0.locked(),
                        s0.regs_locked_for_function_call@,
                        0,
                        crate::registers::GENERAL_REGISTER_COUNT as int,
                    );
                }
                if r is Ok {
                    let reg = crate::register_file::first_free_general(
                        s0.locked(),
                        s0.regs_locked_for_function_call@,
                    ).unwrap();
                    crate::register_file::lemma_first_free_available(
                        s0.locked(),
                        s0.regs_locked_for_function_call@,
                        0,
                        crate::registers::GENERAL_REGISTER_COUNT as int,
                    );
                    s0.lemma_pushed_register(out, reg);
                    assert(regs_named(out.operands().skip(s0.operands().len() as int)).contains(
                        reg,
                    ));
                }
            }
            r
        } else {
            Err(CodegenError::UnknownFunction)
        }
    }

    /// Compiles a sequence of statements, dropping what each leaves.
    fn visit_program(&self, out: &mut ASM, functions: &Vec<String>) -> (r: Result<(), CodegenError>)
        requires
            old(out).wf(),
            old(out).operands_ok(),
            *self is Program,
        ensures
            final(out).wf(),
            r is Ok ==> old(out).compiled(final(out), 0),
            r is Ok ==> lowerable(*self, lines(functions@)),
            lowerable(*self, lines(functions@)) ==> r is Ok || resource_error(r),
            r is Ok ==> counted(*old(out), *final(out), uses(*self)),
            r is Ok ==> results_ok(*old(out), *final(out), *self),
            can_succeed(*old(out), *self, lines(functions@)) ==> r is Ok,
        decreases self, 1int,
    {
        let p = match self {
            AST::Program(p) => p,
            _ => {
                return Err(CodegenError::UnsupportedNode);
            },
        };
        let ghost s0 = *out;
        let ghost fns = lines(functions@);
        let ghost ok = can_succeed(s0, *self, fns);
        proof {
            s0.lemma_same_code_grows(&s0);
            assert(p.statements@.take(0) =~= Seq::<AST>::empty());
        }
        let n = p.statements.len();
        let mut i: usize = 0;
        while i < n
            invariant
                fns == lines(functions@),
                ok == can_succeed(s0, *self, fns),
                s0 == *old(out),
                counted(s0, *out, uses_seq(p.statements@.take(i as int))),
                n == p.statements@.len(),
                i <= n,
                *self matches AST::Program(pp) && pp == p,
                forall|j: int| 0 <= j < i ==> lowerable(#[trigger] p.statements@[j], lines(functions@)),
                s0.wf(),
                out.wf(),
                out.operands_ok(),
                s0.grows_to(out),
                s0.same_fixed(out),
                out.operands() == s0.operands(),
                out.locked() == s0.locked(),
            decreases n - i,
        {
            let statement = &p.statements[i];
            let k = statement.result_count();
            let ghost si = *out;
            proof {
                assert(*statement == p.statements@[i as int]);
                lemma_uses_seq_step(p.statements@, i as int);
                lemma_uses_seq_prefix(p.statements@, i + 1);
                if ok {
                    assert(can_succeed(si, p.statements@[i as int], fns));
                }
            }
            match statement.visit_com(out, functions) {
                Ok(_) => {},
                Err(e) => {
                    return Err(e);
                },
            }
            let ghost mid = *out;
            out.discard(k);
            proof {
                si.lemma_consumed(&mid, out, k as nat);
                s0.lemma_grows_trans(&si, &mid);
                s0.lemma_grows_trans(&mid, out);
            }
            i = i + 1;
        }
        proof {
            s0.lemma_pushed_none(out);
            assert(p.statements@.take(n as int) =~= p.statements@);
        }
        Ok(())
    }

    /// Compiles a block and drops what it leaves.
    fn visit_block(&self, out: &mut ASM, functions: &Vec<String>) -> (r: Result<(), CodegenError>)
        requires
            old(out).wf(),
            old(out).operands_ok(),
        ensures
            final(out).wf(),
            r is Ok ==> old(out).compiled(final(out), 0),
            r is Ok ==> final(out).operands() == old(out).operands() && final(out).locked() == old(
                out,
            ).locked(),
            r is Ok ==> lowerable(*self, lines(functions@)),
            lowerable(*self, lines(functions@)) ==> r is Ok || resource_error(r),
            r is Ok ==> counted(*old(out), *final(out), uses(*self)),
            r is Ok ==> results_ok(*old(out), *final(out), *self),
            can_succeed(*old(out), *self, lines(functions@)) ==> r is Ok,
        decreases self, 3int,
    {
        let k = self.result_count();
        let ghost s0 = *out;
        match self.visit_com(out, functions) {
            Ok(_) => {},
            Err(e) => {
                return Err(e);
            },
        }
        let ghost mid = *out;
        out.discard(k);
        proof {
            s0.lemma_consumed(&mid, out, k as nat);
            s0.lemma_grows_trans(&mid, out);
            s0.lemma_pushed_none(out);
        }
        Ok(())
    }

    /// Compiles a condition, leaving its value on top of the stack.
    fn visit_condition(&self, out: &mut ASM, functions: &Vec<String>) -> (r: Result<(), CodegenError>)
        requires
            old(out).wf(),
            old(out).operands_ok(),
        ensures
            final(out).wf(),
            r is Ok ==> old(out).compiled(final(out), 1) && final(out).top_consumable()
                && release(final(out).locked(), final(out).operands().last()) == old(out).locked()
                && final(out).operands().drop_last() == old(out).operands(),
            r is Ok ==> lowerable(*self, lines(functions@)) && produces(*self) == 1,
            lowerable(*self, lines(functions@)) && produces(*self) == 1 ==> r is Ok || resource_error(
                r,
            ),
            r is Ok ==> counted(*old(out), *final(out), uses(*self)),
            r is Ok ==> results_ok(*old(out), *final(out), *self),
            can_succeed(*old(out), *self, lines(functions@)) && produces(*self) == 1 ==> r is Ok,
        decreases self, 3int,
    {
        if self.result_count() != 1 {
            return Err(CodegenError::UnsupportedNode);
        }
        let ghost s0 = *out;
        let r = self.visit_com(out, functions);
        proof {
            if r is Ok {
                s0.lemma_freed_one(out);
                out.lemma_top_ok();
            }
        }
        r
    }

    /// Compiles a ladder.
    fn visit_ladder(&self, out: &mut ASM, functions: &Vec<String>) -> (r: Result<(), CodegenError>)
        requires
            old(out).wf(),
            old(out).operands_ok(),
            *self is Conditional,
        ensures
            final(out).wf(),
            r is Ok ==> exists|
                if_cond: Seq<Seq<char>>,
                if_d: Seq<char>,
                if_body: Seq<Seq<char>>,
                conds: Seq<Seq<Seq<char>>>,
                ds: Seq<Seq<char>>,
                bodies: Seq<Seq<Seq<char>>>,
                else_body: Seq<Seq<char>>,
            |
                #![trigger ladder_code(
                    old(out).num_ifs as nat,
                    self->Conditional_0.elif_ladder@.len(),
                    self->Conditional_0.else_statement is Some,
                    if_cond,
                    if_d,
                    if_body,
                    conds,
                    ds,
                    bodies,
                    else_body,
                )]
                final(out).code() == old(out).code() + ladder_code(
                    old(out).num_ifs as nat,
                    self->Conditional_0.elif_ladder@.len(),
                    self->Conditional_0.else_statement is Some,
                    if_cond,
                    if_d,
                    if_body,
                    conds,
                    ds,
                    bodies,
                    else_body,
                ),
            r is Ok ==> old(out).compiled(final(out), 0),
            r is Ok ==> lowerable(*self, lines(functions@)),
            lowerable(*self, lines(functions@)) ==> r is Ok || resource_error(r),
            r is Ok ==> counted(*old(out), *final(out), uses(*self)),
            r is Ok ==> results_ok(*old(out), *final(out), *self),
            can_succeed(*old(out), *self, lines(functions@)) ==> r is Ok,
        decreases self, 1int,
    {
        let c = match self {
            AST::Conditional(c) => c,
            _ => {
                return Err(CodegenError::UnsupportedNode);
            },
        };
        let ghost s0 = *out;
        let ghost fns = lines(functions@);
        let ghost ok = can_succeed(s0, *self, fns);
        let ghost g0 = free_general(s0.locked(), s0.regs_locked_for_function_call@) as int;
        let ghost f0 = free_float(s0.locked(), s0.regs_locked_for_function_call@) as int;
        let ghost else_uses: nat = if c.else_statement is Some {
            uses(*c.else_statement->Some_0.block)
        } else {
            0
        };
        let ghost base = 1 + uses(*c.if_statement.condition) + uses(*c.if_statement.block);
        proof {
            assert(uses(*self) == base + uses_arms(c.elif_ladder@) + else_uses);
            assert(c.elif_ladder@.take(0) =~= Seq::<IfStatement>::empty());
            lemma_uses_arms_prefix(c.elif_ladder@, 0);
        }
        if out.num_ifs == usize::MAX {
            return Err(CodegenError::CounterOverflow);
        }
        let if_num = out.num_ifs;
        out.inc_num_ifs();
        let m = c.elif_ladder.len();
        let has_else = c.else_statement.is_some();
        let ghost s1 = *out;
        proof {
            s0.lemma_same_code_grows(&s1);
            if ok {
                assert(fits(*c.if_statement.condition, g0, f0));
                assert(can_succeed(s1, *c.if_statement.condition, fns));
            }
        }
        match c.if_statement.condition.visit_condition(out, functions) {
            Ok(_) => {},
            Err(e) => {
                return Err(e);
            },
        }
        let ghost s2 = *out;
        let ghost n = if_num as nat;
        let ghost if_cond = s2.code().skip(s1.code().len() as int);
        let ghost if_d = s2.operands().last();
        proof {
            s1.lemma_grows_code(&s2);
        }
        out.if_start(if_gate(m, has_else), if_num);
        let ghost s3 = *out;
        proof {
            s0.lemma_grows_trans(&s1, &s2);
            s0.lemma_grows_trans(&s2, &s3);
            if ok {
                assert(fits(*c.if_statement.block, g0, f0));
                assert(can_succeed(s3, *c.if_statement.block, fns));
            }
        }
        match c.if_statement.block.visit_block(out, functions) {
            Ok(_) => {},
            Err(e) => {
                return Err(e);
            },
        }
        let ghost s4 = *out;
        let ghost if_body = s4.code().skip(s3.code().len() as int);
        proof {
            s3.lemma_grows_code(&s4);
        }
        out.if_end(if_exit(m, has_else), m, if_num);
        let ghost conds: Seq<Seq<Seq<char>>> = Seq::empty();
        let ghost ds: Seq<Seq<char>> = Seq::empty();
        let ghost bodies: Seq<Seq<Seq<char>>> = Seq::empty();
        proof {
            s0.lemma_grows_trans(&s3, &s4);
            s0.lemma_grows_trans(&s4, out);
            assert(out.code() =~= s0.code() + if_arm_code(n, m as nat, has_else, if_cond, if_d, if_body));
        }
        let mut k: usize = 0;
        while k < m
            invariant
                m == c.elif_ladder@.len(),
                k <= m,
                *self matches AST::Conditional(cc) && cc == c,
                produces(*c.if_statement.condition) == 1,
                lowerable(*c.if_statement.condition, lines(functions@)),
                lowerable(*c.if_statement.block, lines(functions@)),
                forall|j: int|
                    0 <= j < k ==> produces(*(#[trigger] c.elif_ladder@[j]).condition) == 1
                        && lowerable(*c.elif_ladder@[j].condition, lines(functions@)) && lowerable(
                        *c.elif_ladder@[j].block,
                        lines(functions@),
                    ),
                s0.wf(),
                out.wf(),
                out.operands_ok(),
                s0.grows_to(out),
                s0.same_fixed(out),
                out.operands() == s0.operands(),
                out.locked() == s0.locked(),
                fns == lines(functions@),
                ok == can_succeed(s0, *self, fns),
                s0 == *old(out),
                g0 == free_general(s0.locked(), s0.regs_locked_for_function_call@) as int,
                f0 == free_float(s0.locked(), s0.regs_locked_for_function_call@) as int,
                uses(*self) == base + uses_arms(c.elif_ladder@) + else_uses,
                counted(s0, *out, base + uses_arms(c.elif_ladder@.take(k as int))),
                n == s0.num_ifs,
                n == if_num as nat,
                conds.len() == k,
                ds.len() == k,
                bodies.len() == k,
                has_else == c.else_statement is Some,
                out.code() == s0.code() + if_arm_code(n, m as nat, has_else, if_cond, if_d, if_body)
                    + elif_arms_code(n, m as nat, has_else, conds, ds, bodies, k as nat),
            decreases m - k,
        {
            let arm = &c.elif_ladder[k];
            let ghost t0 = *out;
            let ghost t1 = *out;
            proof {
                assert(c.elif_ladder@[k as int] == *arm);
                lemma_uses_arms_step(c.elif_ladder@, k as int);
                lemma_uses_arms_prefix(c.elif_ladder@, k + 1);
                if ok {
                    assert(fits(*c.elif_ladder@[k as int].condition, g0, f0));
                    assert(fits(*c.elif_ladder@[k as int].block, g0, f0));
                    assert(can_succeed(t1, *arm.condition, fns));
                }
            }
            match arm.condition.visit_condition(out, functions) {
                Ok(_) => {},
                Err(e) => {
                    return Err(e);
                },
            }
            let ghost t2 = *out;
            let ghost cond = t2.code().skip(t1.code().len() as int);
            let ghost d = t2.operands().last();
            proof {
                t1.lemma_grows_code(&t2);
            }
            out.elif_start(k, elif_gate(k, m, has_else), if_num);
            let ghost t3 = *out;
            proof {
                s0.lemma_grows_trans(&t1, &t2);
                s0.lemma_grows_trans(&t2, &t3);
                if ok {
                    assert(can_succeed(t3, *arm.block, fns));
                }
            }
            match arm.block.visit_block(out, functions) {
                Ok(_) => {},
                Err(e) => {
                    return Err(e);
                },
            }
            let ghost t4 = *out;
            let ghost body = t4.code().skip(t3.code().len() as int);
            proof {
                t3.lemma_grows_code(&t4);
            }
            out.elif_end(k, elif_exit(has_else), m, if_num);
            proof {
                s0.lemma_grows_trans(&t3, &t4);
                s0.lemma_grows_trans(&t4, out);
                assert(c.elif_ladder@[k as int] == *arm);
                assert(out.code() =~= t0.code() + elif_arm_code(n, k as nat, m as nat, has_else, cond, d, body));
                lemma_elif_arms_push(n, m as nat, has_else, conds, ds, bodies, cond, d, body, k as nat);
                assert(conds.push(cond)[k as int] == cond);
                assert(ds.push(d)[k as int] == d);
                assert(bodies.push(body)[k as int] == body);
                assert(elif_arms_code(n, m as nat, has_else, conds.push(cond), ds.push(d), bodies.push(body), (k + 1) as nat)
                    == elif_arms_code(n, m as nat, has_else, conds, ds, bodies, k as nat) + elif_arm_code(n, k as nat, m as nat, has_else, cond, d, body));
            }
            proof {
                conds = conds.push(cond);
                ds = ds.push(d);
                bodies = bodies.push(body);
            }
            k = k + 1;
        }
        proof {
            assert(c.elif_ladder@.take(m as int) =~= c.elif_ladder@);
        }
        let ghost after_arms = *out;
        let ghost mut else_body: Seq<Seq<char>> = Seq::empty();
        match &c.else_statement {
            Some(e) => {
                let ghost u0 = *out;
                out.else_start(if_num);
                let ghost u1 = *out;
                proof {
                    s0.lemma_grows_trans(&u0, &u1);
                    if ok {
                        assert(fits(*e.block, g0, f0));
                        assert(can_succeed(u1, *e.block, fns));
                    }
                }
                match e.block.visit_block(out, functions) {
                    Ok(_) => {},
                    Err(err) => {
                        return Err(err);
                    },
                }
                let ghost u2 = *out;
                proof {
                    u1.lemma_grows_code(&u2);
                    else_body = u2.code().skip(u1.code().len() as int);
                }
                out.else_end(if_num);
                proof {
                    s0.lemma_grows_trans(&u1, &u2);
                    s0.lemma_grows_trans(&u2, out);
                    assert(out.code() =~= after_arms.code() + else_arm_code(n, else_body));
                }
            },
            None => {},
        }
        proof {
            s0.lemma_pushed_none(out);
            assert(out.code() =~= s0.code() + ladder_code(
                n,
                m as nat,
                has_else,
                if_cond,
                if_d,
                if_body,
                conds,
                ds,
                bodies,
                else_body,
            ));
        }
        Ok(())
    }
}

/// What compiling a factor pushes is a result.
proof fn lemma_factor_results(before: ASM, after: ASM, token: TokenEnum)
    requires
        before.operands_ok(),
        match token {
            TokenEnum::Number(crate::factor::Number::Integer(i)) => {
                &&& after.operands() == before.operands().push(crate::text::dec_int(i as int))
                &&& after.locked() == before.locked()
            },
            TokenEnum::Number(crate::factor::Number::Float(_)) => {
                let reg = crate::register_file::first_free_float(
                    before.locked(),
                    before.regs_locked_for_function_call@,
                ).unwrap();
                &&& crate::register_file::first_free_float(
                    before.locked(),
                    before.regs_locked_for_function_call@,
                ) is Some
                &&& after.operands() == before.operands().push(reg_text(reg))
                &&& after.locked() == before.locked().insert(reg)
            },
            TokenEnum::StringLiteral(s) => {
                let bytes = crate::factor::decode(s@)->Ok_0;
                &&& after.operands() == before.operands() + seq![
                    crate::factor::string_symbol(before.num_strings as nat),
                    crate::text::dec_nat(bytes.len()),
                ]
                &&& after.locked() == before.locked()
            },
            TokenEnum::Variable(_) => false,
        },
    ensures
        before.pushed_results(&after, produces(AST::Factor(Factor { token }))),
        results_ok(before, after, AST::Factor(Factor { token })),
{
    match token {
        TokenEnum::Number(crate::factor::Number::Integer(i)) => {
            crate::text::lemma_dec_int_start(i as int);
            if crate::registers::names_register(crate::text::dec_int(i as int)) {
                crate::registers::lemma_register_name_start(crate::text::dec_int(i as int));
            }
            assert(after.operands() =~= before.operands() + seq![crate::text::dec_int(i as int)]);
            before.lemma_pushed_plain(&after, seq![crate::text::dec_int(i as int)]);
        },
        TokenEnum::Number(crate::factor::Number::Float(_)) => {
            let reg = crate::register_file::first_free_float(
                before.locked(),
                before.regs_locked_for_function_call@,
            ).unwrap();
            crate::register_file::lemma_first_free_available(
                before.locked(),
                before.regs_locked_for_function_call@,
                crate::registers::GENERAL_REGISTER_COUNT as int,
                crate::registers::REGISTER_COUNT as int,
            );
            before.lemma_pushed_register(&after, reg);
            assert(regs_named(after.operands().skip(before.operands().len() as int)).contains(reg));
        },
        TokenEnum::StringLiteral(s) => {
            let bytes = crate::factor::decode(s@)->Ok_0;
            let extra = seq![
                crate::factor::string_symbol(before.num_strings as nat),
                crate::text::dec_nat(bytes.len()),
            ];
            reveal_strlit("string_");
            crate::text::lemma_dec_nat_start(bytes.len());
            assert forall|k: int| 0 <= k < extra.len() implies !crate::registers::names_register(
                #[trigger] extra[k],
            ) by {
                if crate::registers::names_register(extra[k]) {
                    crate::registers::lemma_register_name_start(extra[k]);
                    if k == 0 {
                        assert(extra[k][0] == 's');
                    }
                }
            }
            before.lemma_pushed_plain(&after, extra);
        },
        TokenEnum::Variable(_) => {},
    }
}

} // verus!
