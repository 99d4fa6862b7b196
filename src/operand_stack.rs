use vstd::prelude::*;

use crate::buffer::{lines, ASM};
use crate::registers::{lemma_reg_text_injective, names_register, reg_text, Register};

verus! {

/// The locked set once the register that a descriptor names, if any, is released.
pub open spec fn release(locked: Set<Register>, d: Seq<char>) -> Set<Register> {
    locked.filter(|r: Register| reg_text(r) != d)
}

/// The registers that some of the descriptors name.
pub open spec fn regs_named(ds: Seq<Seq<char>>) -> Set<Register> {
    Set::new(|r: Register| exists|k: int| 0 <= k < ds.len() && reg_text(r) == ds[k])
}

impl ASM {
    /// Every operand that names a register names a locked one, and no two
    /// operands name the same register.
    pub open spec fn operands_ok(&self) -> bool {
        &&& forall|i: int, r: Register|
            #![trigger reg_text(r), self.operands()[i]]
            0 <= i < self.operands().len() && reg_text(r) == self.operands()[i]
                ==> self.locked().contains(r)
        &&& forall|i: int, j: int|
            0 <= i < self.operands().len() && 0 <= j < self.operands().len() && i != j
                && names_register(#[trigger] self.operands()[i]) ==> self.operands()[i]
                != #[trigger] self.operands()[j]
    }

    /// Valid operands can give up their top one.
    pub proof fn lemma_pop_ok(&self, later: &ASM)
        requires
            self.operands_ok(),
            self.operands().len() > 0,
            later.operands() == self.operands().drop_last(),
            later.locked() == release(self.locked(), self.operands().last()),
        ensures
            later.operands_ok(),
            self.top_consumable(),
    {
        let ops = self.operands();
        let n = ops.len();
        let fin = later.operands();
        assert forall|r: Register| reg_text(r) == ops.last() implies self.locked().contains(r) by {
            assert(reg_text(r) == ops[n - 1]);
        }
        assert forall|i: int, r: Register|
            #![trigger reg_text(r), fin[i]]
            0 <= i < fin.len() && reg_text(r) == fin[i] implies later.locked().contains(r) by {
            assert(fin[i] == ops[i]);
            assert(reg_text(r) == ops[i]);
            assert(ops[i] != ops[n - 1]);
        }
        assert forall|i: int, j: int|
            0 <= i < fin.len() && 0 <= j < fin.len() && i != j && names_register(#[trigger] fin[i])
                implies fin[i] != #[trigger] fin[j] by {
            assert(fin[i] == ops[i]);
            assert(fin[j] == ops[j]);
        }
    }

    /// Pushing descriptors that name no register keeps the operands valid.
    pub proof fn lemma_push_plain(&self, later: &ASM, extra: Seq<Seq<char>>)
        requires
            self.operands_ok(),
            later.operands() == self.operands() + extra,
            later.locked() == self.locked(),
            forall|k: int| 0 <= k < extra.len() ==> !names_register(#[trigger] extra[k]),
        ensures
            later.operands_ok(),
    {
        let ops = self.operands();
        let fin = later.operands();
        assert forall|i: int, r: Register|
            #![trigger reg_text(r), fin[i]]
            0 <= i < fin.len() && reg_text(r) == fin[i] implies later.locked().contains(r) by {
            if i >= ops.len() {
                assert(fin[i] == extra[i - ops.len()]);
            } else {
                assert(fin[i] == ops[i]);
            }
        }
        assert forall|i: int, j: int|
            0 <= i < fin.len() && 0 <= j < fin.len() && i != j && names_register(#[trigger] fin[i])
                implies fin[i] != #[trigger] fin[j] by {
            if i >= ops.len() {
                assert(fin[i] == extra[i - ops.len()]);
            } else if j >= ops.len() {
                assert(fin[j] == extra[j - ops.len()]);
                assert(fin[i] == ops[i]);
            } else {
                assert(fin[i] == ops[i]);
                assert(fin[j] == ops[j]);
            }
        }
    }

    /// Pushing a register that was free, once locked, keeps the operands valid.
    pub proof fn lemma_push_fresh(&self, later: &ASM, r: Register)
        requires
            self.operands_ok(),
            !self.locked().contains(r),
            later.operands() == self.operands().push(reg_text(r)),
            later.locked() == self.locked().insert(r),
        ensures
            later.operands_ok(),
    {
        let ops = self.operands();
        let fin = later.operands();
        assert forall|i: int, g: Register|
            #![trigger reg_text(g), fin[i]]
            0 <= i < fin.len() && reg_text(g) == fin[i] implies later.locked().contains(g) by {
            if i < ops.len() {
                assert(fin[i] == ops[i]);
            } else {
                lemma_reg_text_injective(g, r);
            }
        }
        assert forall|i: int, j: int|
            0 <= i < fin.len() && 0 <= j < fin.len() && i != j && names_register(#[trigger] fin[i])
                implies fin[i] != #[trigger] fin[j] by {
            if i < ops.len() && j < ops.len() {
                assert(fin[i] == ops[i]);
                assert(fin[j] == ops[j]);
            } else if i < ops.len() {
                assert(fin[i] == ops[i]);
                assert(reg_text(r) == fin[j]);
            } else {
                assert(fin[j] == ops[j]);
                assert(reg_text(r) == fin[i]);
            }
        }
    }

    /// The operand on top of the stack may be consumed: it is there, and the
    /// register it names, if any, is locked.
    pub open spec fn top_consumable(&self) -> bool {
        &&& self.operands().len() > 0
        &&& forall|r: Register| reg_text(r) == self.operands().last() ==> self.locked().contains(r)
    }

    /// `later` holds the operands of `self` with `k` more on top, and the
    /// registers those name, which were free in `self`, are locked too.
    pub open spec fn pushed_results(&self, later: &ASM, k: nat) -> bool {
        let n = self.operands().len();
        let added = later.operands().skip(n as int);
        &&& later.operands().len() == n + k
        &&& later.operands().take(n as int) == self.operands()
        &&& later.locked() == self.locked().union(regs_named(added))
        &&& self.locked().disjoint(regs_named(added))
    }

    /// `later` holds the operands of `self` but the top `k`, and the registers
    /// those named are unlocked.
    pub open spec fn popped_results(&self, later: &ASM, k: nat) -> bool {
        let n = self.operands().len();
        &&& k <= n
        &&& later.operands() == self.operands().take(n - k)
        &&& later.locked() == self.locked().difference(
            regs_named(self.operands().skip(n - k)),
        )
    }

    /// Results pushed in two steps are results pushed at once.
    pub proof fn lemma_pushed_trans(&self, mid: &ASM, later: &ASM, k1: nat, k2: nat)
        requires
            self.pushed_results(mid, k1),
            mid.pushed_results(later, k2),
        ensures
            self.pushed_results(later, k1 + k2),
    {
        let n = self.operands().len() as int;
        let a1 = mid.operands().skip(n);
        let a2 = later.operands().skip(n + k1 as int);
        let all = later.operands().skip(n);
        assert(later.operands().take(n) =~= self.operands()) by {
            assert(later.operands().take(n + k1 as int) == mid.operands());
            assert forall|i: int| 0 <= i < n implies later.operands()[i] == self.operands()[i] by {
                assert(later.operands().take(n + k1 as int)[i] == mid.operands()[i]);
                assert(mid.operands().take(n)[i] == mid.operands()[i]);
            }
        }
        assert(all =~= a1 + a2) by {
            assert forall|i: int| 0 <= i < k1 implies all[i] == a1[i] by {
                assert(later.operands().take(n + k1 as int)[n + i] == mid.operands()[n + i]);
            }
        }
        assert(regs_named(all) =~= regs_named(a1).union(regs_named(a2))) by {
            assert forall|r: Register| regs_named(all).contains(r) implies regs_named(a1).union(
                regs_named(a2),
            ).contains(r) by {
                let k = choose|k: int| 0 <= k < all.len() && reg_text(r) == all[k];
                if k < k1 {
                    assert(a1[k] == all[k]);
                } else {
                    assert(a2[k - k1] == all[k]);
                }
            }
            assert forall|r: Register| regs_named(a1).union(regs_named(a2)).contains(r) implies regs_named(
                all,
            ).contains(r) by {
                if regs_named(a1).contains(r) {
                    let k = choose|k: int| 0 <= k < a1.len() && reg_text(r) == a1[k];
                    assert(all[k] == a1[k]);
                } else {
                    let k = choose|k: int| 0 <= k < a2.len() && reg_text(r) == a2[k];
                    assert(all[k1 + k] == a2[k]);
                }
            }
        }
        assert(later.locked() =~= self.locked().union(regs_named(all)));
    }

    /// Consuming results that were pushed restores the operands and the
    /// locked set.
    pub proof fn lemma_consumed(&self, mid: &ASM, later: &ASM, k: nat)
        requires
            self.pushed_results(mid, k),
            mid.popped_results(later, k),
        ensures
            later.operands() == self.operands(),
            later.locked() == self.locked(),
    {
        let n = self.operands().len() as int;
        assert(mid.operands().skip(n) == mid.operands().skip(mid.operands().len() - k));
        assert(later.locked() =~= self.locked());
    }

    /// The locked set before the two results on top were pushed is what
    /// remains once they are released.
    pub proof fn lemma_freed_two(&self, mid: &ASM)
        requires
            self.pushed_results(mid, 2),
        ensures
            mid.freed_two() == self.locked(),
    {
        let n = self.operands().len() as int;
        let added = mid.operands().skip(n);
        let ops = mid.operands();
        assert(added[0] == ops[n as int]);
        assert(added[1] == ops[n + 1]);
        assert(ops.last() == ops[n + 1]);
        assert(ops.drop_last().last() == ops[n as int]);
        assert forall|r: Register| #![auto] mid.freed_two().contains(r) <==> self.locked().contains(r) by {
            if self.locked().contains(r) {
                if reg_text(r) == ops[n as int] {
                    assert(regs_named(added).contains(r));
                }
                if reg_text(r) == ops[n + 1] {
                    assert(regs_named(added).contains(r));
                }
            }
            if mid.freed_two().contains(r) && !self.locked().contains(r) {
                let k = choose|k: int| 0 <= k < added.len() && reg_text(r) == added[k];
                assert(k == 0 || k == 1);
            }
        }
        assert(mid.freed_two() =~= self.locked());
    }

    /// The locked set before the result on top was pushed is what remains once
    /// it is released.
    pub proof fn lemma_freed_one(&self, mid: &ASM)
        requires
            self.pushed_results(mid, 1),
        ensures
            release(mid.locked(), mid.operands().last()) == self.locked(),
            mid.operands().drop_last() == self.operands(),
    {
        let n = self.operands().len() as int;
        let added = mid.operands().skip(n);
        let ops = mid.operands();
        assert(added[0] == ops[n as int]);
        assert(ops.last() == ops[n as int]);
        assert forall|r: Register| #![auto] release(mid.locked(), ops.last()).contains(r) <==> self.locked().contains(r) by {
            if self.locked().contains(r) {
                if reg_text(r) == ops[n as int] {
                    assert(regs_named(added).contains(r));
                }
            }
            if release(mid.locked(), ops.last()).contains(r) && !self.locked().contains(r) {
                let k = choose|k: int| 0 <= k < added.len() && reg_text(r) == added[k];
                assert(k == 0);
            }
        }
        assert(release(mid.locked(), ops.last()) =~= self.locked());
        assert(ops.drop_last() =~= self.operands()) by {
            assert(ops.take(n) == self.operands());
        }
    }

    /// Pushing the text of a register that was free, once locked, pushes a
    /// result.
    pub proof fn lemma_pushed_register(&self, later: &ASM, r: Register)
        requires
            !self.locked().contains(r),
            later.operands() == self.operands().push(reg_text(r)),
            later.locked() == self.locked().insert(r),
        ensures
            self.pushed_results(later, 1),
            regs_named(later.operands().skip(self.operands().len() as int)) == set![r],
    {
        let n = self.operands().len() as int;
        let added = later.operands().skip(n);
        assert(added =~= seq![reg_text(r)]);
        assert(later.operands().take(n) =~= self.operands());
        assert forall|g: Register| #![auto] regs_named(added).contains(g) <==> g == r by {
            if regs_named(added).contains(g) {
                let k = choose|k: int| 0 <= k < added.len() && reg_text(g) == added[k];
                lemma_reg_text_injective(g, r);
            }
            if g == r {
                assert(added[0] == reg_text(g));
            }
        }
        assert(regs_named(added) =~= set![r]);
        assert(later.locked() =~= self.locked().union(regs_named(added)));
    }

    /// Pushing descriptors that name no register pushes results.
    pub proof fn lemma_pushed_plain(&self, later: &ASM, extra: Seq<Seq<char>>)
        requires
            later.operands() == self.operands() + extra,
            later.locked() == self.locked(),
            forall|k: int| 0 <= k < extra.len() ==> !names_register(#[trigger] extra[k]),
        ensures
            self.pushed_results(later, extra.len()),
            regs_named(later.operands().skip(self.operands().len() as int)) == Set::<
                Register,
            >::empty(),
    {
        let n = self.operands().len() as int;
        let added = later.operands().skip(n);
        assert(added =~= extra);
        assert(later.operands().take(n) =~= self.operands());
        assert forall|g: Register| !regs_named(added).contains(g) by {
            if regs_named(added).contains(g) {
                let k = choose|k: int| 0 <= k < added.len() && reg_text(g) == added[k];
                assert(!names_register(extra[k]));
            }
        }
        assert(regs_named(added) =~= Set::<Register>::empty());
        assert(later.locked() =~= self.locked().union(regs_named(added)));
    }

    /// Nothing pushed.
    pub proof fn lemma_pushed_none(&self, later: &ASM)
        requires
            later.operands() == self.operands(),
            later.locked() == self.locked(),
        ensures
            self.pushed_results(later, 0),
            regs_named(later.operands().skip(self.operands().len() as int)) == Set::<
                Register,
            >::empty(),
    {
        self.lemma_pushed_plain(later, Seq::empty());
        assert(self.operands() + Seq::<Seq<char>>::empty() =~= self.operands());
    }

    /// Valid operands, one at least, can give up their top one.
    pub proof fn lemma_top_ok(&self)
        requires
            self.operands_ok(),
            self.operands().len() > 0,
        ensures
            self.top_consumable(),
    {
        let ops = self.operands();
        assert forall|r: Register| reg_text(r) == ops.last() implies self.locked().contains(r) by {
            assert(reg_text(r) == ops[ops.len() - 1]);
        }
    }

    /// Removes and returns the top of the operand stack; `None` when it is empty.
    pub fn stack_pop(&mut self) -> (r: Option<String>)
        requires
            old(self).wf(),
        ensures
            final(self).wf(),
            old(self).operands().len() == 0 ==> r is None && final(self).operands() == old(
                self,
            ).operands(),
            old(self).operands().len() > 0 ==> (r matches Some(d) && d@ == old(
                self,
            ).operands().last()) && final(self).operands() == old(self).operands().drop_last(),
            old(self).same_code(final(self)),
            final(self).locked() == old(self).locked(),
            final(self).used_registers@ == old(self).used_registers@,
            old(self).same_sections(final(self)),
    {
        let r = self.stack.pop();
        proof {
            if old(self).stack@.len() > 0 {
                assert(self.operands() =~= old(self).operands().drop_last());
            }
        }
        r
    }

    /// Pushes a descriptor on the operand stack.
    pub fn stack_push(&mut self, to_push: String)
        requires
            old(self).wf(),
        ensures
            final(self).wf(),
            final(self).operands() == old(self).operands().push(to_push@),
            old(self).same_code(final(self)),
            final(self).locked() == old(self).locked(),
            final(self).used_registers@ == old(self).used_registers@,
            old(self).same_sections(final(self)),
    {
        self.stack.push(to_push);
        proof {
            assert(self.operands() =~= old(self).operands().push(to_push@));
        }
    }

    /// Pushes descriptors on the operand stack, the first one deepest.
    pub fn stack_extend(&mut self, to_push: Vec<String>)
        requires
            old(self).wf(),
        ensures
            final(self).wf(),
            final(self).operands() == old(self).operands() + lines(to_push@),
            old(self).same_code(final(self)),
            final(self).locked() == old(self).locked(),
            final(self).used_registers@ == old(self).used_registers@,
            old(self).same_sections(final(self)),
    {
        let mut v = to_push;
        self.stack.append(&mut v);
        proof {
            assert(self.operands() =~= old(self).operands() + lines(to_push@));
        }
    }
}

} // verus!
