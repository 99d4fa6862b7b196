use vstd::prelude::*;

verus! {

/// A physical register that the allocator may hand out.
///
/// The general-purpose registers come first, then the floating-point ones.
/// Registers with fixed roles (`rax`, `rbx`, `rcx`, `rdx` as scratch, `rsp`,
/// `rbp`, and `xmm0`/`xmm1` as floating-point scratch) are not part of it.
#[derive(Clone, Copy, Debug, PartialEq, Eq, Structural)]
pub enum Register {
    R8,
    R9,
    R10,
    R11,
    R12,
    R13,
    R14,
    R15,
    Xmm2,
    Xmm3,
    Xmm4,
    Xmm5,
    Xmm6,
    Xmm7,
    Xmm8,
    Xmm9,
}

/// Number of general-purpose registers; they take the scan positions
/// `0 .. GENERAL_REGISTER_COUNT`.
pub const GENERAL_REGISTER_COUNT: usize = 8;

/// Number of registers of both classes.
pub const REGISTER_COUNT: usize = 16;

/// Position of a register in the fixed scan order.
pub open spec fn reg_index(r: Register) -> int {
    match r {
        Register::R8 => 0,
        Register::R9 => 1,
        Register::R10 => 2,
        Register::R11 => 3,
        Register::R12 => 4,
        Register::R13 => 5,
        Register::R14 => 6,
        Register::R15 => 7,
        Register::Xmm2 => 8,
        Register::Xmm3 => 9,
        Register::Xmm4 => 10,
        Register::Xmm5 => 11,
        Register::Xmm6 => 12,
        Register::Xmm7 => 13,
        Register::Xmm8 => 14,
        Register::Xmm9 => 15,
    }
}

/// The register at a position of the scan order.
pub open spec fn reg_at(i: int) -> Register {
    if i <= 0 {
        Register::R8
    } else if i == 1 {
        Register::R9
    } else if i == 2 {
        Register::R10
    } else if i == 3 {
        Register::R11
    } else if i == 4 {
        Register::R12
    } else if i == 5 {
        Register::R13
    } else if i == 6 {
        Register::R14
    } else if i == 7 {
        Register::R15
    } else if i == 8 {
        Register::Xmm2
    } else if i == 9 {
        Register::Xmm3
    } else if i == 10 {
        Register::Xmm4
    } else if i == 11 {
        Register::Xmm5
    } else if i == 12 {
        Register::Xmm6
    } else if i == 13 {
        Register::Xmm7
    } else if i == 14 {
        Register::Xmm8
    } else {
        Register::Xmm9
    }
}

/// A register of the general-purpose class.
pub open spec fn is_general(r: Register) -> bool {
    reg_index(r) < GENERAL_REGISTER_COUNT
}

/// The assembly name of a register.
pub open spec fn reg_text(r: Register) -> Seq<char> {
    match r {
        Register::R8 => "r8"@,
        Register::R9 => "r9"@,
        Register::R10 => "r10"@,
        Register::R11 => "r11"@,
        Register::R12 => "r12"@,
        Register::R13 => "r13"@,
        Register::R14 => "r14"@,
        Register::R15 => "r15"@,
        Register::Xmm2 => "xmm2"@,
        Register::Xmm3 => "xmm3"@,
        Register::Xmm4 => "xmm4"@,
        Register::Xmm5 => "xmm5"@,
        Register::Xmm6 => "xmm6"@,
        Register::Xmm7 => "xmm7"@,
        Register::Xmm8 => "xmm8"@,
        Register::Xmm9 => "xmm9"@,
    }
}

/// Whether a descriptor's text names a register.
pub open spec fn names_register(s: Seq<char>) -> bool {
    exists|r: Register| reg_text(r) == s
}

pub proof fn lemma_reg_index_bounds(r: Register)
    ensures
        0 <= reg_index(r) < REGISTER_COUNT,
        reg_at(reg_index(r)) == r,
{
}

pub proof fn lemma_reg_at(i: int)
    requires
        0 <= i < REGISTER_COUNT,
    ensures
        reg_index(reg_at(i)) == i,
{
}

/// A register name starts with `r` or `x`.
pub proof fn lemma_register_name_start(s: Seq<char>)
    requires
        names_register(s),
    ensures
        s.len() > 0,
        s[0] == 'r' || s[0] == 'x',
{
    reveal_strlit("r8");
    reveal_strlit("r9");
    reveal_strlit("r10");
    reveal_strlit("r11");
    reveal_strlit("r12");
    reveal_strlit("r13");
    reveal_strlit("r14");
    reveal_strlit("r15");
    reveal_strlit("xmm2");
    reveal_strlit("xmm3");
    reveal_strlit("xmm4");
    reveal_strlit("xmm5");
    reveal_strlit("xmm6");
    reveal_strlit("xmm7");
    reveal_strlit("xmm8");
    reveal_strlit("xmm9");
    let r = choose|r: Register| reg_text(r) == s;
}

/// Distinct registers have distinct names.
pub proof fn lemma_reg_text_injective(a: Register, b: Register)
    ensures
        reg_text(a) == reg_text(b) ==> a == b,
{
    reveal_strlit("r8");
    reveal_strlit("r9");
    reveal_strlit("r10");
    reveal_strlit("r11");
    reveal_strlit("r12");
    reveal_strlit("r13");
    reveal_strlit("r14");
    reveal_strlit("r15");
    reveal_strlit("xmm2");
    reveal_strlit("xmm3");
    reveal_strlit("xmm4");
    reveal_strlit("xmm5");
    reveal_strlit("xmm6");
    reveal_strlit("xmm7");
    reveal_strlit("xmm8");
    reveal_strlit("xmm9");
    if reg_text(a) == reg_text(b) {
        let s = reg_text(a);
        assert(s.len() == reg_text(b).len());
        assert(s[s.len() - 1] == reg_text(b)[s.len() - 1]);
        assert(s[0] == reg_text(b)[0]);
        if s.len() == 3 && s[0] == 'r' {
            assert(s[1] == reg_text(b)[1]);
        }
    }
}

/// Registers pairwise distinct number at most `REGISTER_COUNT`.
pub proof fn lemma_distinct_registers_bounded(s: Seq<Register>)
    requires
        s.no_duplicates(),
    ensures
        s.len() <= REGISTER_COUNT,
{
    let idx = s.map_values(|r: Register| reg_index(r));
    assert forall|i: int, j: int| 0 <= i < idx.len() && 0 <= j < idx.len() && i != j implies idx[i]
        != idx[j] by {
        lemma_reg_index_bounds(s[i]);
        lemma_reg_index_bounds(s[j]);
    }
    assert(idx.no_duplicates());
    idx.unique_seq_to_set();
    let range = Set::new(|k: int| 0 <= k < REGISTER_COUNT);
    vstd::set_lib::lemma_int_range(0, REGISTER_COUNT as int);
    assert(range =~= vstd::set_lib::set_int_range(0, REGISTER_COUNT as int));
    assert forall|k: int| idx.to_set().contains(k) implies range.contains(k) by {
        let i = choose|i: int| 0 <= i < idx.len() && idx[i] == k;
        lemma_reg_index_bounds(s[i]);
    }
    vstd::set_lib::lemma_len_subset(idx.to_set(), range);
}

/// The register at a position of the scan order.
pub fn register_at(i: usize) -> (r: Register)
    requires
        i < REGISTER_COUNT,
    ensures
        r == reg_at(i as int),
        reg_index(r) == i,
{
    match i {
        0 => Register::R8,
        1 => Register::R9,
        2 => Register::R10,
        3 => Register::R11,
        4 => Register::R12,
        5 => Register::R13,
        6 => Register::R14,
        7 => Register::R15,
        8 => Register::Xmm2,
        9 => Register::Xmm3,
        10 => Register::Xmm4,
        11 => Register::Xmm5,
        12 => Register::Xmm6,
        13 => Register::Xmm7,
        14 => Register::Xmm8,
        _ => Register::Xmm9,
    }
}

impl Register {
    /// The assembly name of the register.
    pub fn name(&self) -> (s: String)
        ensures
            s@ == reg_text(*self),
    {
        match self {
            Register::R8 => String::from_str("r8"),
            Register::R9 => String::from_str("r9"),
            Register::R10 => String::from_str("r10"),
            Register::R11 => String::from_str("r11"),
            Register::R12 => String::from_str("r12"),
            Register::R13 => String::from_str("r13"),
            Register::R14 => String::from_str("r14"),
            Register::R15 => String::from_str("r15"),
            Register::Xmm2 => String::from_str("xmm2"),
            Register::Xmm3 => String::from_str("xmm3"),
            Register::Xmm4 => String::from_str("xmm4"),
            Register::Xmm5 => String::from_str("xmm5"),
            Register::Xmm6 => String::from_str("xmm6"),
            Register::Xmm7 => String::from_str("xmm7"),
            Register::Xmm8 => String::from_str("xmm8"),
            Register::Xmm9 => String::from_str("xmm9"),
        }
    }

    /// Whether the register is of the floating-point class.
    pub fn is_float(&self) -> (b: bool)
        ensures
            b == !is_general(*self),
    {
        match self {
            Register::R8 | Register::R9 | Register::R10 | Register::R11 | Register::R12
            | Register::R13 | Register::R14 | Register::R15 => false,
            _ => true,
        }
    }
}

} // verus!
