use vstd::prelude::*;

use crate::buffer::ASM;
use crate::operand_stack::release;
use crate::error::CodegenError;
use crate::registers::{
    lemma_reg_index_bounds, lemma_reg_text_injective, names_register, reg_at, reg_index, reg_text,
    register_at, Register, GENERAL_REGISTER_COUNT,
    REGISTER_COUNT,
};

verus! {

/// The first register of scan positions `i .. hi` that is neither locked nor
/// reserved.
pub open spec fn first_free_from(
    locked: Set<Register>,
    reserved: Seq<Register>,
    i: int,
    hi: int,
) -> Option<Register>
    decreases hi - i,
{
    if i >= hi {
        None
    } else if !locked.contains(reg_at(i)) && !reserved.contains(reg_at(i)) {
        Some(reg_at(i))
    } else {
        first_free_from(locked, reserved, i + 1, hi)
    }
}

/// What the scan finds is available and within the scanned positions.
pub proof fn lemma_first_free_available(
    locked: Set<Register>,
    reserved: Seq<Register>,
    i: int,
    hi: int,
)
    requires
        0 <= i,
        hi <= REGISTER_COUNT,
    ensures
        first_free_from(locked, reserved, i, hi) matches Some(r) ==> !locked.contains(r)
            && !reserved.contains(r) && i <= reg_index(r) < hi,
    decreases hi - i,
{
    if i < hi {
        if !locked.contains(reg_at(i)) && !reserved.contains(reg_at(i)) {
            crate::registers::lemma_reg_at(i);
        } else {
            lemma_first_free_available(locked, reserved, i + 1, hi);
        }
    }
}

/// How many registers of scan positions `i .. hi` are neither locked nor
/// reserved.
pub open spec fn free_count(locked: Set<Register>, reserved: Seq<Register>, i: int, hi: int) -> nat
    decreases hi - i,
{
    if i >= hi {
        0
    } else {
        (if !locked.contains(reg_at(i)) && !reserved.contains(reg_at(i)) {
            1nat
        } else {
            0nat
        }) + free_count(locked, reserved, i + 1, hi)
    }
}

/// How many general-purpose registers the allocator can still hand out.
pub open spec fn free_general(locked: Set<Register>, reserved: Seq<Register>) -> nat {
    free_count(locked, reserved, 0, GENERAL_REGISTER_COUNT as int)
}

/// How many floating-point registers the allocator can still hand out.
pub open spec fn free_float(locked: Set<Register>, reserved: Seq<Register>) -> nat {
    free_count(locked, reserved, GENERAL_REGISTER_COUNT as int, REGISTER_COUNT as int)
}

/// With a register free in the scanned positions, the scan finds one.
pub proof fn lemma_free_found(locked: Set<Register>, reserved: Seq<Register>, i: int, hi: int)
    requires
        free_count(locked, reserved, i, hi) > 0,
    ensures
        first_free_from(locked, reserved, i, hi) is Some,
    decreases hi - i,
{
    if i < hi && !(!locked.contains(reg_at(i)) && !reserved.contains(reg_at(i))) {
        lemma_free_found(locked, reserved, i + 1, hi);
    }
}

/// Locking registers outside the scanned positions leaves the count as it is.
pub proof fn lemma_free_outside(
    locked: Set<Register>,
    extra: Set<Register>,
    reserved: Seq<Register>,
    i: int,
    hi: int,
)
    requires
        0 <= i,
        hi <= REGISTER_COUNT,
        forall|x: Register| extra.contains(x) ==> !(i <= reg_index(x) < hi),
    ensures
        free_count(locked.union(extra), reserved, i, hi) == free_count(locked, reserved, i, hi),
    decreases hi - i,
{
    if i < hi {
        crate::registers::lemma_reg_at(i);
        assert(!extra.contains(reg_at(i)));
        lemma_free_outside(locked, extra, reserved, i + 1, hi);
    }
}

/// Locking at most one more register takes at most one from the count.
pub proof fn lemma_free_one_less(
    locked: Set<Register>,
    extra: Set<Register>,
    reserved: Seq<Register>,
    i: int,
    hi: int,
)
    requires
        0 <= i,
        hi <= REGISTER_COUNT,
        forall|x: Register, y: Register| extra.contains(x) && extra.contains(y) ==> x == y,
    ensures
        free_count(locked.union(extra), reserved, i, hi) + 1 >= free_count(locked, reserved, i, hi),
    decreases hi - i,
{
    if i < hi {
        crate::registers::lemma_reg_at(i);
        if extra.contains(reg_at(i)) {
            assert forall|x: Register| extra.contains(x) implies !(i + 1 <= reg_index(x) < hi) by {
                assert(x == reg_at(i));
            }
            lemma_free_outside(locked, extra, reserved, i + 1, hi);
        } else {
            lemma_free_one_less(locked, extra, reserved, i + 1, hi);
        }
    }
}

/// The register that the general-purpose allocator hands out, if any.
pub open spec fn first_free_general(locked: Set<Register>, reserved: Seq<Register>) -> Option<
    Register,
> {
    first_free_from(locked, reserved, 0, GENERAL_REGISTER_COUNT as int)
}

/// The register that the floating-point allocator hands out, if any.
pub open spec fn first_free_float(locked: Set<Register>, reserved: Seq<Register>) -> Option<
    Register,
> {
    first_free_from(locked, reserved, GENERAL_REGISTER_COUNT as int, REGISTER_COUNT as int)
}

/// What an allocation returns for the register it found.
pub open spec fn allocation(found: Option<Register>) -> Result<Register, CodegenError> {
    match found {
        Some(r) => Ok(r),
        None => Err(CodegenError::RegistersExhausted),
    }
}

/// The locked set after an allocation returned `r`.
pub open spec fn allocated(locked: Set<Register>, r: Result<Register, CodegenError>) -> Set<
    Register,
> {
    match r {
        Ok(reg) => locked.insert(reg),
        Err(_) => locked,
    }
}

/// Whether `v` holds `r`.
fn holds(v: &Vec<Register>, r: Register) -> (b: bool)
    ensures
        b == v@.contains(r),
{
    let n = v.len();
    let mut i: usize = 0;
    while i < n
        invariant
            n == v@.len(),
            i <= n,
            forall|j: int| 0 <= j < i ==> v@[j] != r,
        decreases n - i,
    {
        if v[i] == r {
            return true;
        }
        i = i + 1;
    }
    false
}

proof fn lemma_remove_from_set(s: Seq<Register>, i: int)
    requires
        s.no_duplicates(),
        0 <= i < s.len(),
    ensures
        s.remove(i).to_set() == s.to_set().remove(s[i]),
        s.remove(i).no_duplicates(),
{
    let t = s.remove(i);
    assert forall|r: Register| t.to_set().contains(r) <==> s.to_set().remove(s[i]).contains(r) by {
        if t.to_set().contains(r) {
            let k = choose|k: int| 0 <= k < t.len() && t[k] == r;
            if k < i {
                assert(s[k] == r);
            } else {
                assert(s[k + 1] == r);
            }
        }
        if s.to_set().remove(s[i]).contains(r) {
            let k = choose|k: int| 0 <= k < s.len() && s[k] == r;
            assert(k != i);
            if k < i {
                assert(t[k] == r);
            } else {
                assert(t[k - 1] == r);
            }
        }
    }
    assert(t.to_set() =~= s.to_set().remove(s[i]));
}

impl ASM {
    /// Locks a register that is not locked.
    pub fn lock_register(&mut self, reg_name: Register)
        requires
            old(self).wf(),
            !old(self).locked().contains(reg_name),
        ensures
            final(self).wf(),
            final(self).locked() == old(self).locked().insert(reg_name),
            final(self).used_registers@ == old(self).used_registers@.push(reg_name),
            old(self).same_code(final(self)),
            final(self).operands() == old(self).operands(),
            old(self).same_sections(final(self)),
    {
        self.used_registers.push(reg_name);
        proof {
            let s = old(self).used_registers@;
            assert forall|r: Register| s.contains(r) || r == reg_name implies #[trigger] s.push(
                reg_name,
            ).contains(r) by {
                if s.contains(r) {
                    let k = choose|k: int| 0 <= k < s.len() && s[k] == r;
                    assert(s.push(reg_name)[k] == r);
                }
                if r == reg_name {
                    assert(s.push(reg_name)[s.len() as int] == r);
                }
            }
            assert(self.locked() =~= old(self).locked().insert(reg_name));
        }
    }

    /// Unlocks a locked register.
    pub fn unlock_register(&mut self, reg_name: Register)
        requires
            old(self).wf(),
            old(self).locked().contains(reg_name),
        ensures
            final(self).wf(),
            final(self).locked() == old(self).locked().remove(reg_name),
            final(self).used_registers@ == old(self).used_registers@.remove(
                old(self).used_registers@.index_of(reg_name),
            ),
            old(self).same_code(final(self)),
            final(self).operands() == old(self).operands(),
            old(self).same_sections(final(self)),
    {
        let n = self.used_registers.len();
        let mut i: usize = 0;
        while i < n
            invariant
                *self == *old(self),
                self.wf(),
                n == self.used_registers@.len(),
                i <= n,
                forall|j: int| 0 <= j < i ==> self.used_registers@[j] != reg_name,
            decreases n - i,
        {
            if self.used_registers[i] == reg_name {
                proof {
                    lemma_remove_from_set(self.used_registers@, i as int);
                    let s = self.used_registers@;
                    let k = s.index_of(reg_name);
                    assert(s.contains(reg_name)) by {
                        assert(s[i as int] == reg_name);
                    }
                    assert(0 <= k < s.len() && s[k] == reg_name);
                    assert(k == i);
                }
                self.used_registers.remove(i);
                return;
            }
            i = i + 1;
        }
    }

    /// Unlocks the register that a popped descriptor names; a descriptor that
    /// names no register changes nothing.
    pub fn unlock_register_from_stack_value(&mut self, stack_pop_result: &String)
        requires
            old(self).wf(),
            forall|r: Register| reg_text(r) == stack_pop_result@ ==> old(self).locked().contains(r),
        ensures
            final(self).wf(),
            final(self).locked() == release(old(self).locked(), stack_pop_result@),
            !names_register(stack_pop_result@) ==> final(self).used_registers@ == old(
                self,
            ).used_registers@,
            forall|r: Register|
                reg_text(r) == stack_pop_result@ ==> final(self).used_registers@ == old(
                    self,
                ).used_registers@.remove(old(self).used_registers@.index_of(r)),
            old(self).same_code(final(self)),
            final(self).operands() == old(self).operands(),
            old(self).same_sections(final(self)),
    {
        let (is_reg, reg_name) = self.is_reg_name(stack_pop_result);
        if !is_reg {
            proof {
                assert(release(old(self).locked(), stack_pop_result@) =~= old(self).locked());
            }
            return;
        }
        self.unlock_register(reg_name);
        proof {
            assert forall|r: Register| reg_text(r) == stack_pop_result@ implies r == reg_name by {
                lemma_reg_text_injective(r, reg_name);
            }
            assert forall|r: Register| reg_text(r) == stack_pop_result@ implies self.used_registers@
                == old(self).used_registers@.remove(old(self).used_registers@.index_of(r)) by {
                lemma_reg_text_injective(r, reg_name);
            }
            assert(release(old(self).locked(), stack_pop_result@) =~= old(self).locked().remove(
                reg_name,
            ));
        }
    }

    /// Whether `name` is the name of a register, and which one; `R11` when it
    /// names none.
    pub fn is_reg_name(&self, name: &String) -> (r: (bool, Register))
        ensures
            r.0 == names_register(name@),
            r.0 ==> reg_text(r.1) == name@,
            !r.0 ==> r.1 == Register::R11,
    {
        let mut i: usize = 0;
        while i < REGISTER_COUNT
            invariant
                i <= REGISTER_COUNT,
                forall|j: int| 0 <= j < i ==> reg_text(#[trigger] reg_at(j)) != name@,
            decreases REGISTER_COUNT - i,
        {
            let reg = register_at(i);
            if reg.name() == *name {
                return (true, reg);
            }
            i = i + 1;
        }
        proof {
            assert forall|g: Register| reg_text(g) != name@ by {
                lemma_reg_index_bounds(g);
                assert(reg_text(reg_at(reg_index(g))) != name@);
            }
        }
        (false, Register::R11)
    }

    /// Locks and returns the first register of `lo .. hi` in scan order
    /// that the allocator may hand out.
    fn first_free(&mut self, lo: usize, hi: usize) -> (r: Result<Register, CodegenError>)
        requires
            old(self).wf(),
            lo <= hi <= REGISTER_COUNT,
        ensures
            final(self).wf(),
            old(self).same_code(final(self)),
            final(self).operands() == old(self).operands(),
            old(self).same_sections(final(self)),
            r == allocation(
                first_free_from(
                    old(self).locked(),
                    old(self).regs_locked_for_function_call@,
                    lo as int,
                    hi as int,
                ),
            ),
            final(self).locked() == allocated(old(self).locked(), r),
            r matches Ok(reg) ==> final(self).used_registers@ == old(self).used_registers@.push(reg),
            r is Err ==> *final(self) == *old(self),
    {
        let mut i: usize = lo;
        while i < hi
            invariant
                lo <= i <= hi <= REGISTER_COUNT,
                *self == *old(self),
                self.wf(),
                first_free_from(
                    self.locked(),
                    self.regs_locked_for_function_call@,
                    lo as int,
                    hi as int,
                ) == first_free_from(
                    self.locked(),
                    self.regs_locked_for_function_call@,
                    i as int,
                    hi as int,
                ),
            decreases hi - i,
        {
            let reg = register_at(i);
            if !holds(&self.used_registers, reg) && !holds(&self.regs_locked_for_function_call, reg) {
                self.lock_register(reg);
                return Ok(reg);
            }
            i = i + 1;
        }
        Err(CodegenError::RegistersExhausted)
    }

    /// Locks and returns the first general-purpose register in scan order that
    /// is neither locked nor reserved for a call; fails when there is none.
    pub fn get_free_register(&mut self) -> (r: Result<Register, CodegenError>)
        requires
            old(self).wf(),
        ensures
            final(self).wf(),
            old(self).same_code(final(self)),
            final(self).operands() == old(self).operands(),
            old(self).same_sections(final(self)),
            r == allocation(
                first_free_general(old(self).locked(), old(self).regs_locked_for_function_call@),
            ),
            final(self).locked() == allocated(old(self).locked(), r),
            r matches Ok(reg) ==> final(self).used_registers@ == old(self).used_registers@.push(reg),
            r is Err ==> *final(self) == *old(self),
    {
        self.first_free(0, GENERAL_REGISTER_COUNT)
    }

    /// Locks and returns the first floating-point register in scan order that
    /// is neither locked nor reserved for a call; fails when there is none.
    pub fn get_free_float_register(&mut self) -> (r: Result<Register, CodegenError>)
        requires
            old(self).wf(),
        ensures
            final(self).wf(),
            old(self).same_code(final(self)),
            final(self).operands() == old(self).operands(),
            old(self).same_sections(final(self)),
            r == allocation(
                first_free_float(old(self).locked(), old(self).regs_locked_for_function_call@),
            ),
            final(self).locked() == allocated(old(self).locked(), r),
            r matches Ok(reg) ==> final(self).used_registers@ == old(self).used_registers@.push(reg),
            r is Err ==> *final(self) == *old(self),
    {
        self.first_free(GENERAL_REGISTER_COUNT, REGISTER_COUNT)
    }
}

} // verus!
