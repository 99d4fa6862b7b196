use vstd::prelude::*;
use vstd::string::*;

use crate::registers::Register;

verus! {

/// The lines of a buffer, each as its characters.
pub open spec fn lines(v: Seq<String>) -> Seq<Seq<char>> {
    v.map_values(|s: String| s@)
}

/// A named run of instruction lines: a jump target of the generated program.
#[derive(Debug)]
pub struct Label {
    pub name: String,
    pub code: Vec<String>,
}

impl Label {
    /// The label as its name and its lines.
    pub open spec fn view_pair(&self) -> (Seq<char>, Seq<Seq<char>>) {
        (self.name@, lines(self.code@))
    }
}

/// The state of one compilation pass: the code buffer with its sections and
/// counters, the operand stack and the register file.
#[derive(Debug)]
pub struct ASM {
    /// Source files that the program pulls in, in order.
    pub imports: Vec<String>,
    /// Top-level text directives.
    pub text: Vec<String>,
    /// Initialised constants.
    pub data: Vec<String>,
    /// Uninitialised scratch storage.
    pub bss: Vec<String>,
    /// The labels in program order, the entry label first.
    pub labels: Vec<Label>,
    pub comparison_num: usize,
    pub num_strings: usize,
    pub num_floats: usize,
    pub num_ifs: usize,
    /// The operand stack, bottom first.
    pub stack: Vec<String>,
    /// Name of the label that receives emitted lines.
    pub current_label: String,
    /// The register file: the registers currently locked.
    pub used_registers: Vec<Register>,
    /// Registers reserved across a call; the allocator never hands them out.
    /// The lowering of a call itself does not fill this list: `function_call`
    /// keeps every locked register alive by saving it on the machine stack
    /// before the call and restoring it after, in the order of
    /// `used_registers`. The list is for code that needs a register held
    /// over a call without an operand in it.
    pub regs_locked_for_function_call: Vec<Register>,
    /// While the arguments of a call are compiled, the position of the
    /// current one.
    pub function_argument_number: Option<usize>,
}

impl ASM {
    /// The labels, each as its name and its lines.
    pub open spec fn program(&self) -> Seq<(Seq<char>, Seq<Seq<char>>)> {
        self.labels@.map_values(|l: Label| l.view_pair())
    }

    /// The label names in program order.
    pub open spec fn label_names(&self) -> Seq<Seq<char>> {
        self.labels@.map_values(|l: Label| l.name@)
    }

    /// The name of the label that receives emitted lines.
    pub open spec fn cursor(&self) -> Seq<char> {
        self.current_label@
    }

    /// The operand stack, bottom first.
    pub open spec fn operands(&self) -> Seq<Seq<char>> {
        lines(self.stack@)
    }

    /// The locked registers.
    pub open spec fn locked(&self) -> Set<Register> {
        self.used_registers@.to_set()
    }

    /// Label names are unique, the cursor names a label, and no register is
    /// locked twice.
    pub open spec fn wf(&self) -> bool {
        &&& self.labels_wf()
        &&& self.used_registers@.no_duplicates()
    }

    /// Label names are unique and the cursor names a label.
    pub open spec fn labels_wf(&self) -> bool {
        &&& self.label_names().no_duplicates()
        &&& self.label_names().contains(self.current_label@)
    }

    /// Position of the current label.
    pub open spec fn cur_index(&self) -> int {
        self.label_names().index_of(self.current_label@)
    }

    /// The lines of the current label.
    pub open spec fn code(&self) -> Seq<Seq<char>> {
        self.program()[self.cur_index()].1
    }

    /// `later` has the labels and cursor of `self`, with `added` at the end of
    /// the current label.
    pub open spec fn appended(&self, later: &ASM, added: Seq<Seq<char>>) -> bool {
        &&& later.current_label@ == self.current_label@
        &&& later.program() == self.program().update(
            self.cur_index(),
            (self.current_label@, self.code() + added),
        )
    }

    /// `later` has the labels and cursor of `self`, with lines added only at
    /// the end of the current label.
    pub open spec fn grows_to(&self, later: &ASM) -> bool {
        &&& self.code().len() <= later.code().len()
        &&& self.appended(later, later.code().skip(self.code().len() as int))
    }

    /// Labels and cursor are those of `self`.
    pub open spec fn same_code(&self, later: &ASM) -> bool {
        &&& later.current_label@ == self.current_label@
        &&& later.program() == self.program()
    }

    /// Sections, counters and the call reservations are those of `self`.
    pub open spec fn same_sections(&self, later: &ASM) -> bool {
        &&& self.same_fixed(later)
        &&& later.data@ == self.data@
        &&& later.num_strings == self.num_strings
        &&& later.num_floats == self.num_floats
        &&& later.num_ifs == self.num_ifs
    }

    /// Imports, text directives, bss, the comparison counter, the call
    /// reservations and the argument position are those of `self`.
    pub open spec fn same_fixed(&self, later: &ASM) -> bool {
        &&& self.same_fixed_but_arguments(later)
        &&& later.function_argument_number == self.function_argument_number
    }

    /// Imports, text directives, bss, the comparison counter and the call
    /// reservations are those of `self`.
    pub open spec fn same_fixed_but_arguments(&self, later: &ASM) -> bool {
        &&& later.imports@ == self.imports@
        &&& later.text@ == self.text@
        &&& later.bss@ == self.bss@
        &&& later.comparison_num == self.comparison_num
        &&& later.regs_locked_for_function_call@ == self.regs_locked_for_function_call@
    }

    proof fn lemma_cur_index(&self)
        requires
            self.labels_wf(),
        ensures
            0 <= self.cur_index() < self.labels@.len(),
            self.labels@[self.cur_index()].name@ == self.current_label@,
            forall|j: int|
                0 <= j < self.labels@.len() && self.labels@[j].name@ == self.current_label@ ==> j
                    == self.cur_index(),
    {
        let names = self.label_names();
        assert(names[self.cur_index()] == self.current_label@);
        assert forall|j: int|
            0 <= j < self.labels@.len() && self.labels@[j].name@ == self.current_label@ implies j
                == self.cur_index() by {
            assert(names[j] == self.labels@[j].name@);
        }
    }

    pub proof fn lemma_appended_grows(&self, later: &ASM, added: Seq<Seq<char>>)
        requires
            self.labels_wf(),
            self.appended(later, added),
        ensures
            self.grows_to(later),
            later.code() == self.code() + added,
            later.cursor() == self.cursor(),
            later.label_names() == self.label_names(),
            later.cur_index() == self.cur_index(),
            later.labels_wf(),
    {
        self.lemma_cur_index();
        assert(later.labels@.len() == later.program().len());
        assert(later.label_names() =~= self.label_names()) by {
            assert forall|j: int| 0 <= j < self.labels@.len() implies later.labels@[j].name@
                == self.labels@[j].name@ by {
                assert(later.program()[j].0 == later.labels@[j].name@);
                assert(self.program()[j].0 == self.labels@[j].name@);
            }
        }
        assert(later.cur_index() == self.cur_index());
        assert(later.code() == self.code() + added);
        assert(later.code().skip(self.code().len() as int) =~= added);
    }

    pub proof fn lemma_same_code_grows(&self, later: &ASM)
        requires
            self.labels_wf(),
            self.same_code(later),
        ensures
            self.grows_to(later),
            later.labels_wf(),
            later.code() == self.code(),
    {
        self.lemma_cur_index();
        assert(later.labels@.len() == later.program().len());
        assert(later.label_names() =~= self.label_names()) by {
            assert forall|j: int| 0 <= j < self.labels@.len() implies later.labels@[j].name@
                == self.labels@[j].name@ by {
                assert(later.program()[j].0 == later.labels@[j].name@);
                assert(self.program()[j].0 == self.labels@[j].name@);
            }
        }
        assert(later.code().skip(self.code().len() as int) =~= Seq::<Seq<char>>::empty());
        assert(self.program().update(self.cur_index(), (self.current_label@, self.code()))
            =~= self.program());
    }

    /// What `later` holds in the current label is what `self` holds, then the
    /// added lines.
    pub proof fn lemma_grows_code(&self, later: &ASM)
        requires
            self.labels_wf(),
            self.grows_to(later),
        ensures
            later.code() == self.code() + later.code().skip(self.code().len() as int),
    {
        self.lemma_appended_grows(later, later.code().skip(self.code().len() as int));
    }

    /// Lines added after `self` in steps that only grow the current label.
    pub proof fn lemma_grows_trans(&self, mid: &ASM, later: &ASM)
        requires
            self.labels_wf(),
            self.grows_to(mid),
            mid.grows_to(later),
        ensures
            self.grows_to(later),
    {
        self.lemma_appended_grows(mid, mid.code().skip(self.code().len() as int));
        mid.lemma_appended_grows(later, later.code().skip(mid.code().len() as int));
        let a1 = mid.code().skip(self.code().len() as int);
        let a2 = later.code().skip(mid.code().len() as int);
        assert(mid.code() == self.code() + a1);
        assert(later.code() == mid.code() + a2);
        assert(later.code().skip(self.code().len() as int) =~= a1 + a2);
        assert(self.code() + (a1 + a2) =~= later.code());
        assert(later.program() =~= self.program().update(
            self.cur_index(),
            (self.current_label@, later.code()),
        ));
    }
}

impl Default for ASM {
    /// A fresh buffer: the entry label `_start`, which saves the stack top,
    /// is current; the stack and the register file are empty.
    fn default() -> (r: Self)
        ensures
            r.wf(),
            r.cursor() == "_start"@,
            r.program() == seq![("_start"@, seq!["mov [argc], rsp"@])],
            r.operands().len() == 0,
            r.locked().is_empty(),
            r.regs_locked_for_function_call@.len() == 0,
            r.function_argument_number is None,
            r.comparison_num == 0,
            r.num_strings == 0,
            r.num_floats == 0,
            r.num_ifs == 0,
            lines(r.imports@) == seq!["std.asm"@],
            lines(r.text@) == seq!["global _start"@],
            lines(r.data@) == seq![";; For floating point operations"@, "float_imm dq 0"@],
            lines(r.bss@) == seq!["digitSpace resb 100"@, "digitSpacePos resb 8"@, "argc resb 8"@],
    {
        let start = Label {
            name: String::from_str("_start"),
            code: vec![String::from_str("mov [argc], rsp")],
        };
        let r = ASM {
            imports: vec![String::from_str("std.asm")],
            text: vec![String::from_str("global _start")],
            data: vec![
                String::from_str(";; For floating point operations"),
                String::from_str("float_imm dq 0"),
            ],
            bss: vec![
                String::from_str("digitSpace resb 100"),
                String::from_str("digitSpacePos resb 8"),
                String::from_str("argc resb 8"),
            ],
            labels: vec![start],
            comparison_num: 0,
            num_strings: 0,
            num_floats: 0,
            num_ifs: 0,
            stack: Vec::new(),
            current_label: String::from_str("_start"),
            used_registers: Vec::new(),
            regs_locked_for_function_call: Vec::new(),
            function_argument_number: None,
        };
        proof {
            assert(r.label_names() =~= seq!["_start"@]);
            assert(r.label_names()[0] == r.current_label@);
            assert(lines(r.labels@[0].code@) =~= seq!["mov [argc], rsp"@]);
            assert(r.program() =~= seq![("_start"@, seq!["mov [argc], rsp"@])]);
            assert(lines(r.imports@) =~= seq!["std.asm"@]);
            assert(lines(r.text@) =~= seq!["global _start"@]);
            assert(lines(r.data@) =~= seq![";; For floating point operations"@, "float_imm dq 0"@]);
            assert(lines(r.bss@) =~= seq![
                "digitSpace resb 100"@,
                "digitSpacePos resb 8"@,
                "argc resb 8"@,
            ]);
            assert(r.locked() =~= Set::empty());
        }
        r
    }
}

impl ASM {
    /// Position of the label called `name`, if there is one.
    fn find_label(&self, name: &String) -> (r: Option<usize>)
        ensures
            r is None ==> !self.label_names().contains(name@),
            r matches Some(i) ==> i < self.labels@.len() && self.labels@[i as int].name@ == name@,
    {
        let n = self.labels.len();
        let mut i: usize = 0;
        while i < n
            invariant
                n == self.labels@.len(),
                i <= n,
                forall|j: int| 0 <= j < i ==> self.labels@[j].name@ != name@,
            decreases n - i,
        {
            if self.labels[i].name == *name {
                return Some(i);
            }
            i = i + 1;
        }
        proof {
            if self.label_names().contains(name@) {
                let j = choose|j: int| 0 <= j < self.labels@.len() && self.label_names()[j] == name@;
                assert(self.label_names()[j] == self.labels@[j].name@);
            }
        }
        None
    }

    /// Moves the cursor to the label `new_label`, creating it, empty, at the
    /// end of the program if no label has that name.
    pub fn change_current_label(&mut self, new_label: String)
        requires
            old(self).wf(),
        ensures
            final(self).wf(),
            final(self).cursor() == new_label@,
            old(self).label_names().contains(new_label@) ==> final(self).program() == old(
                self,
            ).program(),
            !old(self).label_names().contains(new_label@) ==> final(self).program() == old(
                self,
            ).program().push((new_label@, Seq::<Seq<char>>::empty())),
            final(self).operands() == old(self).operands(),
            final(self).locked() == old(self).locked(),
            final(self).used_registers@ == old(self).used_registers@,
            old(self).same_sections(final(self)),
    {
        let found = self.find_label(&new_label);
        match found {
            Some(i) => {
                proof {
                    assert(self.label_names()[i as int] == new_label@);
                }
                self.current_label = new_label;
            },
            None => {
                let label = Label { name: new_label.clone(), code: Vec::new() };
                self.labels.push(label);
                self.current_label = new_label;
                proof {
                    assert(self.label_names() =~= old(self).label_names().push(new_label@));
                    assert(self.label_names()[old(self).labels@.len() as int] == new_label@);
                    assert(lines(label.code@) =~= Seq::<Seq<char>>::empty());
                    assert(self.program() =~= old(self).program().push(
                        (new_label@, Seq::<Seq<char>>::empty()),
                    ));
                }
            },
        }
    }

    /// Appends `vec`, then a blank separator line, to the current label.
    pub fn extend_current_label(&mut self, vec: Vec<String>)
        requires
            old(self).wf(),
        ensures
            final(self).wf(),
            old(self).appended(final(self), lines(vec@).push(Seq::<char>::empty())),
            final(self).code() == old(self).code() + lines(vec@).push(Seq::<char>::empty()),
            old(self).grows_to(final(self)),
            final(self).cursor() == old(self).cursor(),
            final(self).label_names() == old(self).label_names(),
            final(self).operands() == old(self).operands(),
            final(self).locked() == old(self).locked(),
            final(self).used_registers@ == old(self).used_registers@,
            old(self).same_sections(final(self)),
    {
        proof {
            self.lemma_cur_index();
        }
        let found = self.find_label(&self.current_label);
        match found {
            Some(i) => {
                let ghost before = self.labels@;
                let mut label = self.labels.remove(i);
                let mut v = vec;
                label.code.append(&mut v);
                label.code.push(String::new());
                self.labels.insert(i, label);
                proof {
                    assert(i == old(self).cur_index());
                    assert(self.labels@ =~= before.update(i as int, label));
                    assert(lines(label.code@) =~= old(self).code() + lines(vec@).push(
                        Seq::<char>::empty(),
                    ));
                    assert(self.program() =~= old(self).program().update(
                        i as int,
                        (self.current_label@, old(self).code() + lines(vec@).push(
                            Seq::<char>::empty(),
                        )),
                    ));
                    old(self).lemma_appended_grows(
                        self,
                        lines(vec@).push(Seq::<char>::empty()),
                    );
                }
            },
            None => {},
        }
    }

    /// Appends `line`, then a blank separator line, to the current label.
    pub fn add_to_current_label(&mut self, line: String)
        requires
            old(self).wf(),
        ensures
            final(self).wf(),
            old(self).appended(final(self), seq![line@, Seq::<char>::empty()]),
            final(self).code() == old(self).code() + seq![line@, Seq::<char>::empty()],
            old(self).grows_to(final(self)),
            final(self).cursor() == old(self).cursor(),
            final(self).label_names() == old(self).label_names(),
            final(self).operands() == old(self).operands(),
            final(self).locked() == old(self).locked(),
            final(self).used_registers@ == old(self).used_registers@,
            old(self).same_sections(final(self)),
    {
        let v = vec![line];
        proof {
            assert(lines(v@).push(Seq::<char>::empty()) =~= seq![line@, Seq::<char>::empty()]);
        }
        self.extend_current_label(v);
    }

    /// The name of the label that receives emitted lines.
    pub fn current_label(&self) -> (r: String)
        ensures
            r@ == self.cursor(),
    {
        self.current_label.clone()
    }

    /// Counts one more conditional ladder.
    pub fn inc_num_ifs(&mut self)
        requires
            old(self).wf(),
            old(self).num_ifs < usize::MAX,
        ensures
            final(self).wf(),
            final(self).num_ifs == old(self).num_ifs + 1,
            old(self).same_code(final(self)),
            final(self).operands() == old(self).operands(),
            final(self).locked() == old(self).locked(),
            final(self).used_registers@ == old(self).used_registers@,
            old(self).same_fixed(final(self)),
            final(self).data@ == old(self).data@,
            final(self).num_strings == old(self).num_strings,
            final(self).num_floats == old(self).num_floats,
    {
        self.num_ifs = self.num_ifs + 1;
    }

    /// Starts counting the arguments of a call, from zero.
    pub fn start_parsing_function_args(&mut self)
        requires
            old(self).function_argument_number is None,
        ensures
            final(self).function_argument_number == Some(0usize),
            final(self).stack == old(self).stack,
            final(self).labels == old(self).labels,
            final(self).current_label == old(self).current_label,
            final(self).used_registers == old(self).used_registers,
            old(self).same_fixed_but_arguments(final(self)),
            final(self).data == old(self).data,
            final(self).num_strings == old(self).num_strings,
            final(self).num_floats == old(self).num_floats,
            final(self).num_ifs == old(self).num_ifs,
    {
        self.function_argument_number = Some(0);
    }

    /// Stops counting the arguments of a call.
    pub fn end_parsing_function_args(&mut self)
        requires
            old(self).function_argument_number is Some,
        ensures
            final(self).function_argument_number is None,
            final(self).stack == old(self).stack,
            final(self).labels == old(self).labels,
            final(self).current_label == old(self).current_label,
            final(self).used_registers == old(self).used_registers,
            old(self).same_fixed_but_arguments(final(self)),
            final(self).data == old(self).data,
            final(self).num_strings == old(self).num_strings,
            final(self).num_floats == old(self).num_floats,
            final(self).num_ifs == old(self).num_ifs,
    {
        self.function_argument_number = None;
    }

    /// Moves on to the next argument of the call.
    pub fn parsing_next_function_arg(&mut self)
        requires
            old(self).function_argument_number matches Some(k) && k < usize::MAX,
        ensures
            final(self).function_argument_number == Some(
                (old(self).function_argument_number->Some_0 + 1) as usize,
            ),
            final(self).stack == old(self).stack,
            final(self).labels == old(self).labels,
            final(self).current_label == old(self).current_label,
            final(self).used_registers == old(self).used_registers,
            old(self).same_fixed_but_arguments(final(self)),
            final(self).data == old(self).data,
            final(self).num_strings == old(self).num_strings,
            final(self).num_floats == old(self).num_floats,
            final(self).num_ifs == old(self).num_ifs,
    {
        match self.function_argument_number {
            Some(k) => {
                self.function_argument_number = Some(k + 1);
            },
            None => {},
        }
    }

}

} // verus!
