use vstd::prelude::*;
use vstd::string::*;

use crate::buffer::{lines, ASM};
use crate::error::CodegenError;
use crate::register_file::{first_free_float, lemma_first_free_available};
use crate::registers::{lemma_register_name_start, names_register, reg_text, Register};
use crate::text::{
    cat2, cat3, dec_int, dec_nat, i64_text, lemma_dec_int_start, lemma_dec_nat_start, push_decimal,
    usize_text,
};

verus! {

/// A numeric literal. A floating-point literal is carried as its source text,
/// which the assembler reads.
#[derive(Clone, Debug, PartialEq, Eq)]
pub enum Number {
    Integer(i64),
    Float(String),
}

/// A token that a factor of an expression stands for.
#[derive(Clone, Debug, PartialEq, Eq)]
pub enum TokenEnum {
    Number(Number),
    /// The characters between the quotes, escapes not yet decoded.
    StringLiteral(String),
    Variable(String),
}

/// The byte that an escape letter after a backslash stands for.
pub open spec fn escape_byte(c: char) -> Option<u8> {
    if c == 'n' {
        Some(10u8)
    } else if c == '0' {
        Some(0u8)
    } else if c == 'r' {
        Some(13u8)
    } else {
        None
    }
}

/// The byte stored for a character: its code, truncated to eight bits.
pub open spec fn char_byte(c: char) -> u8 {
    (c as u32 % 256) as u8
}

/// `p` in front of a decoded tail, or the tail's error.
pub open spec fn prepend(p: Seq<u8>, r: Result<Seq<u8>, CodegenError>) -> Result<
    Seq<u8>,
    CodegenError,
> {
    match r {
        Ok(rest) => Ok(p + rest),
        Err(e) => Err(e),
    }
}

/// The bytes of a string literal's body, or the first reason it has none.
pub open spec fn decode(s: Seq<char>) -> Result<Seq<u8>, CodegenError>
    decreases s.len(),
{
    if s.len() == 0 {
        Ok(Seq::empty())
    } else if s[0] == '\\' {
        if s.len() == 1 {
            Err(CodegenError::TrailingBackslash)
        } else {
            match escape_byte(s[1]) {
                Some(b) => prepend(seq![b], decode(s.skip(2))),
                None => Err(CodegenError::UnsupportedEscape),
            }
        }
    } else {
        prepend(seq![char_byte(s[0])], decode(s.skip(1)))
    }
}

/// Decoding fails only on a backslash.
pub proof fn lemma_decode_errors(s: Seq<char>)
    ensures
        decode(s) matches Err(e) ==> e == CodegenError::TrailingBackslash || e
            == CodegenError::UnsupportedEscape,
    decreases s.len(),
{
    if s.len() > 0 {
        if s[0] == '\\' {
            if s.len() > 1 {
                lemma_decode_errors(s.skip(2));
            }
        } else {
            lemma_decode_errors(s.skip(1));
        }
    }
}

/// Bytes in decimal, separated by commas.
pub open spec fn join_bytes(b: Seq<u8>) -> Seq<char>
    decreases b.len(),
{
    if b.len() == 0 {
        Seq::empty()
    } else if b.len() == 1 {
        dec_nat(b[0] as nat)
    } else {
        join_bytes(b.drop_last()) + ","@ + dec_nat(b.last() as nat)
    }
}

/// `string_{n}`
pub open spec fn string_symbol(n: nat) -> Seq<char> {
    "string_"@ + dec_nat(n)
}

/// `float_{n}`
pub open spec fn float_symbol(n: nat) -> Seq<char> {
    "float_"@ + dec_nat(n)
}

/// The data line of a string constant.
pub open spec fn string_data_line(n: nat, bytes: Seq<u8>) -> Seq<char> {
    string_symbol(n) + " db "@ + join_bytes(bytes)
}

/// The data line of a floating-point constant.
pub open spec fn float_data_line(n: nat, literal: Seq<char>) -> Seq<char> {
    float_symbol(n) + " dq "@ + literal
}

/// The instruction that loads a floating-point constant into `r`.
pub open spec fn float_load_line(r: Register, n: nat) -> Seq<char> {
    "movsd "@ + reg_text(r) + ", ["@ + float_symbol(n) + "]"@
}

/// Decodes the body of a string literal.
pub fn decode_string(s: &String) -> (r: Result<Vec<u8>, CodegenError>)
    ensures
        match decode(s@) {
            Ok(b) => r matches Ok(v) && v@ == b,
            Err(e) => r == Err::<Vec<u8>, CodegenError>(e),
        },
{
    let text = s.as_str();
    let n = text.unicode_len();
    let mut out: Vec<u8> = Vec::new();
    let mut i: usize = 0;
    proof {
        assert(s@.skip(0) =~= s@);
        if decode(s@) is Ok {
            assert(Seq::<u8>::empty() + decode(s@)->Ok_0 =~= decode(s@)->Ok_0);
        }
    }
    while i < n
        invariant
            n == s@.len(),
            text@ == s@,
            i <= n,
            decode(s@) == prepend(out@, decode(s@.skip(i as int))),
        decreases n - i,
    {
        let c = text.get_char(i);
        let ghost rest = s@.skip(i as int);
        assert(rest[0] == c);
        if c == '\\' {
            if i + 1 == n {
                return Err(CodegenError::TrailingBackslash);
            }
            let e = text.get_char(i + 1);
            assert(rest[1] == e);
            let b: u8 = if e == 'n' {
                10
            } else if e == '0' {
                0
            } else if e == 'r' {
                13
            } else {
                return Err(CodegenError::UnsupportedEscape);
            };
            proof {
                assert(rest.skip(2) =~= s@.skip(i + 2));
                assert(out@ + (seq![b] + decode(s@.skip(i + 2))->Ok_0) =~= out@.push(b)
                    + decode(s@.skip(i + 2))->Ok_0);
            }
            out.push(b);
            i = i + 2;
        } else {
            let b = (c as u32 % 256) as u8;
            proof {
                assert(rest.skip(1) =~= s@.skip(i + 1));
                assert(out@ + (seq![b] + decode(s@.skip(i + 1))->Ok_0) =~= out@.push(b)
                    + decode(s@.skip(i + 1))->Ok_0);
            }
            out.push(b);
            i = i + 1;
        }
    }
    proof {
        assert(s@.skip(n as int) =~= Seq::<char>::empty());
        assert(out@ + Seq::<u8>::empty() =~= out@);
    }
    Ok(out)
}

/// Writes bytes in decimal, separated by commas.
pub fn join_bytes_text(b: &Vec<u8>) -> (s: String)
    ensures
        s@ == join_bytes(b@),
{
    let mut s = String::new();
    let n = b.len();
    let mut i: usize = 0;
    proof {
        assert(b@.take(0) =~= Seq::<u8>::empty());
    }
    while i < n
        invariant
            n == b@.len(),
            i <= n,
            s@ == join_bytes(b@.take(i as int)),
        decreases n - i,
    {
        if i > 0 {
            s.append(",");
        }
        let ghost before = s@;
        push_decimal(&mut s, b[i] as u64);
        proof {
            let t = b@.take(i + 1);
            assert(t.drop_last() =~= b@.take(i as int));
            assert(t.last() == b@[i as int]);
            if i == 0 {
                assert(s@ =~= join_bytes(t));
            } else {
                assert(s@ =~= join_bytes(t));
            }
        }
        i = i + 1;
    }
    proof {
        assert(b@.take(n as int) =~= b@);
    }
    s
}

impl ASM {
    /// Places a literal on the operand stack.
    ///
    /// An integer becomes an immediate operand. A floating-point literal
    /// becomes a numbered data constant, loaded into a free floating-point
    /// register that is pushed. A string literal becomes a numbered byte
    /// constant, and its symbol, then its length in bytes, are pushed. A
    /// variable has no lowering here.
    pub fn generate_asm_factor(&mut self, token: &TokenEnum) -> (r: Result<(), CodegenError>)
        requires
            old(self).wf(),
            old(self).operands_ok(),
        ensures
            final(self).wf(),
            r is Ok ==> final(self).operands_ok() && old(self).grows_to(final(self)),
            r is Err ==> *final(self) == *old(self),
            match *token {
                TokenEnum::Number(Number::Integer(i)) => {
                    &&& r is Ok
                    &&& final(self).operands() == old(self).operands().push(dec_int(i as int))
                    &&& final(self).code() == old(self).code() + seq![Seq::<char>::empty()]
                    &&& final(self).locked() == old(self).locked()
                    &&& final(self).used_registers@ == old(self).used_registers@
                    &&& old(self).same_sections(final(self))
                },
                TokenEnum::Number(Number::Float(f)) => {
                    &&& (r == Err::<(), CodegenError>(CodegenError::CounterOverflow))
                        == (old(self).num_floats == usize::MAX)
                    &&& (r == Err::<(), CodegenError>(CodegenError::RegistersExhausted)) == (
                    old(self).num_floats < usize::MAX && first_free_float(
                        old(self).locked(),
                        old(self).regs_locked_for_function_call@,
                    ) is None)
                    &&& r is Ok || r == Err::<(), CodegenError>(CodegenError::CounterOverflow) || r
                        == Err::<(), CodegenError>(CodegenError::RegistersExhausted)
                    &&& r is Ok ==> {
                        let reg = first_free_float(
                            old(self).locked(),
                            old(self).regs_locked_for_function_call@,
                        ).unwrap();
                        let n = old(self).num_floats as nat;
                        &&& lines(final(self).data@) == lines(old(self).data@).push(
                            float_data_line(n, f@),
                        )
                        &&& final(self).code() == old(self).code() + seq![
                            float_load_line(reg, n),
                            Seq::<char>::empty(),
                        ]
                        &&& final(self).operands() == old(self).operands().push(reg_text(reg))
                        &&& final(self).locked() == old(self).locked().insert(reg)
                        &&& final(self).used_registers@ == old(self).used_registers@.push(reg)
                        &&& final(self).num_floats == old(self).num_floats + 1
                        &&& final(self).num_strings == old(self).num_strings
                        &&& final(self).num_ifs == old(self).num_ifs
                        &&& old(self).same_fixed(final(self))
                    }
                },
                TokenEnum::StringLiteral(s) => {
                    &&& decode(s@) is Err ==> r == Err::<(), CodegenError>(decode(s@)->Err_0)
                    &&& (r == Err::<(), CodegenError>(CodegenError::CounterOverflow)) == (
                    decode(s@) is Ok && old(self).num_strings == usize::MAX)
                    &&& decode(s@) is Ok ==> r is Ok || r == Err::<(), CodegenError>(
                        CodegenError::CounterOverflow,
                    )
                    &&& r is Ok ==> {
                        let bytes = decode(s@)->Ok_0;
                        let n = old(self).num_strings as nat;
                        &&& lines(final(self).data@) == lines(old(self).data@).push(
                            string_data_line(n, bytes),
                        )
                        &&& final(self).code() == old(self).code() + seq![Seq::<char>::empty()]
                        &&& final(self).operands() == old(self).operands() + seq![
                            string_symbol(n),
                            dec_nat(bytes.len()),
                        ]
                        &&& final(self).locked() == old(self).locked()
                        &&& final(self).used_registers@ == old(self).used_registers@
                        &&& final(self).num_strings == old(self).num_strings + 1
                        &&& final(self).num_floats == old(self).num_floats
                        &&& final(self).num_ifs == old(self).num_ifs
                        &&& old(self).same_fixed(final(self))
                    }
                },
                TokenEnum::Variable(_) => r == Err::<(), CodegenError>(
                    CodegenError::UnsupportedNode,
                ),
            },
    {
        match token {
            TokenEnum::Number(Number::Integer(i)) => {
                let d = i64_text(*i);
                self.stack_push(d);
                let ghost pushed = *self;
                proof {
                    lemma_dec_int_start(*i as int);
                    if names_register(d@) {
                        lemma_register_name_start(d@);
                    }
                    assert(pushed.operands() =~= old(self).operands() + seq![d@]);
                    old(self).lemma_push_plain(&pushed, seq![d@]);
                    old(self).lemma_same_code_grows(&pushed);
                }
                self.extend_current_label(Vec::new());
                proof {
                    assert(lines(Seq::<String>::empty()).push(Seq::<char>::empty()) =~= seq![
                        Seq::<char>::empty(),
                    ]);
                    old(self).lemma_grows_trans(&pushed, self);
                }
                Ok(())
            },
            TokenEnum::Number(Number::Float(f)) => {
                if self.num_floats == usize::MAX {
                    return Err(CodegenError::CounterOverflow);
                }
                let reg = match self.get_free_float_register() {
                    Ok(reg) => reg,
                    Err(e) => {
                        return Err(e);
                    },
                };
                let ghost allocated_state = *self;
                proof {
                    lemma_first_free_available(
                        old(self).locked(),
                        old(self).regs_locked_for_function_call@,
                        crate::registers::GENERAL_REGISTER_COUNT as int,
                        crate::registers::REGISTER_COUNT as int,
                    );
                    old(self).lemma_same_code_grows(&allocated_state);
                }
                let num = usize_text(self.num_floats);
                let symbol = cat2("float_", num.as_str());
                self.data.push(cat3(symbol.as_str(), " dq ", f.as_str()));
                let load = cat5_load(&reg.name(), &symbol);
                self.stack_push(reg.name());
                let ghost pushed = *self;
                proof {
                    allocated_state.lemma_same_code_grows(&pushed);
                    old(self).lemma_grows_trans(&allocated_state, &pushed);
                    old(self).lemma_push_fresh(&pushed, reg);
                }
                self.num_floats = self.num_floats + 1;
                let ghost counted = *self;
                proof {
                    pushed.lemma_same_code_grows(&counted);
                    old(self).lemma_grows_trans(&pushed, &counted);
                }
                self.extend_current_label(vec![load]);
                proof {
                    assert(lines(seq![load]).push(Seq::<char>::empty()) =~= seq![
                        load@,
                        Seq::<char>::empty(),
                    ]);
                    old(self).lemma_grows_trans(&counted, self);
                    assert(lines(self.data@) =~= lines(old(self).data@).push(
                        float_data_line(old(self).num_floats as nat, f@),
                    ));
                }
                Ok(())
            },
            TokenEnum::StringLiteral(s) => {
                proof {
                    lemma_decode_errors(s@);
                }
                let bytes = match decode_string(s) {
                    Ok(b) => b,
                    Err(e) => {
                        return Err(e);
                    },
                };
                if self.num_strings == usize::MAX {
                    return Err(CodegenError::CounterOverflow);
                }
                let num = usize_text(self.num_strings);
                let symbol = cat2("string_", num.as_str());
                self.data.push(cat3(symbol.as_str(), " db ", join_bytes_text(&bytes).as_str()));
                let ghost added = *self;
                proof {
                    assert(added.operands() == old(self).operands());
                    assert(added.locked() == old(self).locked());
                    old(self).lemma_same_code_grows(&added);
                }
                let descriptors = vec![symbol, usize_text(bytes.len())];
                self.stack_extend(descriptors);
                let ghost pushed = *self;
                proof {
                    assert(lines(descriptors@) =~= seq![
                        string_symbol(old(self).num_strings as nat),
                        dec_nat(bytes@.len()),
                    ]);
                    reveal_strlit("string_");
                    lemma_dec_nat_start(bytes@.len());
                    assert forall|k: int| 0 <= k < lines(descriptors@).len() implies !names_register(
                        #[trigger] lines(descriptors@)[k],
                    ) by {
                        if names_register(lines(descriptors@)[k]) {
                            lemma_register_name_start(lines(descriptors@)[k]);
                            if k == 0 {
                                assert(lines(descriptors@)[k][0] == 's');
                            }
                        }
                    }
                    added.lemma_push_plain(&pushed, lines(descriptors@));
                    added.lemma_same_code_grows(&pushed);
                    old(self).lemma_grows_trans(&added, &pushed);
                }
                self.num_strings = self.num_strings + 1;
                let ghost counted = *self;
                proof {
                    pushed.lemma_same_code_grows(&counted);
                    old(self).lemma_grows_trans(&pushed, &counted);
                }
                self.extend_current_label(Vec::new());
                proof {
                    assert(lines(Seq::<String>::empty()).push(Seq::<char>::empty()) =~= seq![
                        Seq::<char>::empty(),
                    ]);
                    old(self).lemma_grows_trans(&counted, self);
                    assert(lines(self.data@) =~= lines(old(self).data@).push(
                        string_data_line(old(self).num_strings as nat, bytes@),
                    ));
                }
                Ok(())
            },
            TokenEnum::Variable(_) => Err(CodegenError::UnsupportedNode),
        }
    }
}

/// `movsd {reg}, [{symbol}]`
fn cat5_load(reg: &String, symbol: &String) -> (s: String)
    ensures
        s@ == "movsd "@ + reg@ + ", ["@ + symbol@ + "]"@,
{
    crate::text::cat5("movsd ", reg.as_str(), ", [", symbol.as_str(), "]")
}

} // verus!
