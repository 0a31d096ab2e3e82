//! The instructions, group by group, as the engine carries them out.

use vstd::prelude::*;
use crate::float::{FloatOp, FloatResult, ONE_AS_DOUBLE};
use crate::instruction::{Access, Instruction, Kind};
use crate::interpreter::{BreakData, GekkoInterpreter};
use crate::machine::{in_range, with_word, word_at};
use crate::register::{comparison_field, GekkoRegister, RegisterFile, Tbr};
use crate::semantics::{
    lemma_memory_size_kept, lemma_only_stores_write_memory, lemma_pc_advances,
    lemma_with_stored_next, with_stored,
};
use crate::BASE_RW_ADRESS;
use crate::util::{
    get_bit_section, get_size_for_quantized_type, lemma_masked_is_and, make_rotation_mask,
    rotate_left, sign_extended, to_signed, u8_get_bit, wrap32,
};

verus! {

/// The condition field of a comparison.
fn compare(a: i64, b: i64, so: bool) -> (r: u8)
    ensures
        r == comparison_field(a as int, b as int, so),
{
    let order: u8 = if a < b {
        8
    } else if a > b {
        4
    } else {
        2
    };
    if so {
        order + 1
    } else {
        order
    }
}

/// The sum of two words and a carry, modulo 2^32, and whether it passed 2^32.
fn sum(a: u32, b: u32, carry: bool) -> (r: (u32, bool))
    ensures
        r.0 == wrap32(a + b + (if carry { 1int } else { 0int })),
        r.1 == (a + b + (if carry { 1int } else { 0int }) > u32::MAX),
{
    let carry_in: u64 = if carry {
        1
    } else {
        0
    };
    let total: u64 = a as u64 + b as u64 + carry_in;
    ((total % 0x1_0000_0000) as u32, total > 0xFFFF_FFFF)
}

/// The difference `a - b` modulo 2^32, and whether it fell below zero.
fn difference(a: u32, b: u32) -> (r: (u32, bool))
    ensures
        r.0 == wrap32(a - b),
        r.1 == (a - b < 0),
{
    (a.wrapping_sub(b), a < b)
}

/// A word plus an immediate moved to the upper half, modulo 2^32.
fn add_shifted(base: u32, uimm: u16) -> (r: u32)
    ensures
        r == wrap32(base + uimm * 0x1_0000),
{
    base.wrapping_add(uimm as u32 * 0x1_0000)
}

/// A signed immediate as a word: its value modulo 2^32.
fn as_word(simm: i16) -> (r: u32)
    ensures
        r == wrap32(simm as int),
{
    0u32.wrapping_add_signed(simm as i32)
}

/// The low byte of a word, sign-extended to the whole word.
fn extend_byte(data: u32) -> (r: u32)
    ensures
        r == wrap32(sign_extended(data as int, 8)),
{
    let low: u32 = data % 0x100;
    if low >= 0x80 {
        low + 0xFFFF_FF00
    } else {
        low
    }
}

impl GekkoRegister {
    /// Writes back an integer result with the flags that the instruction records.
    pub(crate) fn write_result(&mut self, dest: u8, result: u32, oe: bool, overflow: bool, rc: bool)
        requires
            dest < 32,
        ensures
            final(self)@ == old(self)@.with_result(dest as int, result, oe, overflow, rc),
    {
        self.set_gpr(dest, result);
        if oe {
            self.setxer_ov_so(overflow);
        }
        if rc {
            self.update_cr0(result);
        }
    }

    /// The register that a load or store adds its offset to, read as zero for register 0.
    pub(crate) fn base_of(&self, gpr_a: u8) -> (r: u32)
        requires
            gpr_a < 32,
        ensures
            r == self@.base(gpr_a as int),
    {
        if gpr_a == 0 {
            0
        } else {
            self.get_gpr(gpr_a)
        }
    }

    /// Tests whether a conditional branch with these options would be taken, leaving the
    /// count as it is.
    pub fn takes_branch(&self, bo: u8, bi: u8) -> (r: bool)
        requires
            bi < 32,
        ensures
            r == self@.branch_taken(bo, bi),
    {
        let dont_use_ctr = u8_get_bit(bo, 7 - 2);
        let ctr: u32 = if dont_use_ctr {
            self.ctr
        } else {
            self.ctr.wrapping_sub(1)
        };
        let ctr_ok = dont_use_ctr || ((ctr != 0) != u8_get_bit(bo, 7 - 1));
        let cond_ok = u8_get_bit(bo, 7 - 4) || (self.get_bit_cr(bi as usize) == u8_get_bit(
            bo,
            7 - 3,
        ));
        ctr_ok && cond_ok
    }
}

impl GekkoInterpreter {
    /// The address and the size of the memory that a well-formed instruction touches.
    fn footprint(&self, instruction: Instruction) -> (r: (u32, usize))
        requires
            instruction.well_formed(),
        ensures
            (r.0 as int, r.1 as int) == self@.footprint(instruction),
    {
        match instruction.get_access() {
            Access::Nothing => (BASE_RW_ADRESS, 0),
            Access::Displacement(a, d, size) => (
                self.register.compute_address_based_on_register(a, d),
                size,
            ),
            Access::Indexed(a, b, size) => (
                self.register.compute_address_based_on_pair_of_register(a, b),
                size,
            ),
        }
    }

    /// Tests whether an instruction can run from the present state.
    pub fn can_execute(&self, instruction: Instruction) -> (r: bool)
        ensures
            r == self@.can_execute(instruction),
    {
        if !instruction.is_well_formed() {
            return false;
        }
        let (address, size) = self.footprint(instruction);
        if !self.is_in_range(address, size) {
            return false;
        }
        let formed = match instruction {
            Instruction::Lmw(first, _, _) | Instruction::Stmw(first, _, _) => address as u64 + 4
                * (31 - first as u64) <= 0xFFFF_FFFF,
            Instruction::Psq_st(_, _, w, _, _) | Instruction::Psq_l(_, _, w, _, _) => w
                || address <= 0xFFFF_FFFB,
            _ => true,
        };
        let next = self.register.pc <= 0xFFFF_FFFB;
        let advances = match instruction {
            Instruction::Bx(_, _, lk) => !lk || next,
            Instruction::Bcx(bo, bi, _, _, lk) => next || !(lk || !self.register.takes_branch(
                bo,
                bi,
            )),
            Instruction::Bclrx(bo, bi, lk) => next || !(lk || !self.register.takes_branch(bo, bi)),
            _ => next,
        };
        let defined = match instruction {
            Instruction::Crxor(crb_d, _, _) => self.register.cr[crb_d as usize / 4] < 16,
            Instruction::Frsqrtex(_, _, rc) => !rc,
            Instruction::Fmulx(_, _, _, rc) => !rc,
            Instruction::Fnmsubx(_, _, _, _, rc) => !rc,
            Instruction::Frspx(_, _, rc) => !rc,
            Instruction::Psq_st(_, _, _, i, _) => get_bit_section(self.register.get_qr(i), 29, 3)
                == 0,
            Instruction::Psq_l(_, _, _, i, _) => get_bit_section(self.register.get_qr(i), 13, 3)
                == 0,
            _ => true,
        };
        formed && advances && defined
    }

    /// Adds two registers and a carry, and writes the sum back with the flags asked for.
    fn add_registers(
        &mut self,
        gpr_d: u8,
        gpr_a: u8,
        gpr_b: u8,
        carry_in: bool,
        write_carry: bool,
        oe: bool,
        rc: bool,
    )
        requires
            gpr_d < 32,
            gpr_a < 32,
            gpr_b < 32,
            old(self).register.pc + 4 <= u32::MAX,
        ensures
            final(self)@ == ({
                let r = old(self)@.register;
                let total = r.gpr[gpr_a as int] + r.gpr[gpr_b as int] + (if carry_in {
                    1int
                } else {
                    0int
                });
                let carried = if write_carry {
                    r.with_carry(total > u32::MAX)
                } else {
                    r
                };
                old(self)@.with_register(
                    carried.with_result(
                        gpr_d as int,
                        wrap32(total),
                        oe,
                        total > u32::MAX,
                        rc,
                    ).with_next_pc(),
                )
            }),
    {
        let (result, carry) = sum(
            self.register.get_gpr(gpr_a),
            self.register.get_gpr(gpr_b),
            carry_in,
        );
        if write_carry {
            self.register.set_carry(carry);
        }
        self.register.write_result(gpr_d, result, oe, carry, rc);
        self.register.increment_pc();
    }

    /// Writes a result to a register, records it in CR0 where asked, and goes on.
    fn finish(&mut self, dest: u8, result: u32, rc: bool)
        requires
            dest < 32,
            old(self).register.pc + 4 <= u32::MAX,
        ensures
            final(self)@ == old(self)@.with_register(
                old(self)@.register.with_result(
                    dest as int,
                    result,
                    false,
                    false,
                    rc,
                ).with_next_pc(),
            ),
    {
        self.register.write_result(dest, result, false, false, rc);
        self.register.increment_pc();
    }

    pub(crate) fn execute_arithmetic(&mut self, instruction: Instruction)
        requires
            old(self)@.can_execute(instruction),
        ensures
            final(self)@ == old(self)@.executed_arithmetic(instruction),
    {
        match instruction {
            Instruction::Addx(gpr_dest, gpr_1, gpr_2, oe, rc) => {
                self.add_registers(gpr_dest, gpr_1, gpr_2, false, false, oe, rc);
            },
            Instruction::Addcx(gpr_d, gpr_a, gpr_b, oe, rc) => {
                self.add_registers(gpr_d, gpr_a, gpr_b, false, true, oe, rc);
            },
            Instruction::Addex(gpr_d, gpr_a, gpr_b, oe, rc) => {
                let carry = self.register.get_carry();
                self.add_registers(gpr_d, gpr_a, gpr_b, carry, true, oe, rc);
            },
            Instruction::Subfx(gpr_d, gpr_a, gpr_b, oe, rc) => {
                let (result, overflow) = difference(
                    self.register.get_gpr(gpr_b),
                    self.register.get_gpr(gpr_a),
                );
                self.register.write_result(gpr_d, result, oe, overflow, rc);
                self.register.increment_pc();
            },
            Instruction::Addi(gpr_d, gpr_a, simm) => {
                let result = self.register.compute_address_based_on_register(gpr_a, simm);
                self.register.set_gpr(gpr_d, result);
                self.register.increment_pc();
            },
            Instruction::Addis(gpr_d, gpr_a, uimm) => {
                let result = add_shifted(self.register.base_of(gpr_a), uimm);
                self.register.set_gpr(gpr_d, result);
                self.register.increment_pc();
            },
            Instruction::Addicdot(gpr_d, gpr_a, simm) => {
                let (result, carry) = sum(self.register.get_gpr(gpr_a), as_word(simm), false);
                self.register.set_carry(carry);
                self.finish(gpr_d, result, true);
            },
            Instruction::Extsbx(gpr_s, gpr_a, rc) => {
                let result = extend_byte(self.register.get_gpr(gpr_s));
                self.finish(gpr_a, result, rc);
            },
            _ => {},
        }
    }

    pub(crate) fn execute_logic(&mut self, instruction: Instruction)
        requires
            old(self)@.can_execute(instruction),
        ensures
            final(self)@ == old(self)@.executed_logic(instruction),
    {
        match instruction {
            Instruction::Orx(gpr_s, gpr_a, gpr_b, rc) => {
                let result = self.register.get_gpr(gpr_s) | self.register.get_gpr(gpr_b);
                self.register.write_result(gpr_a, result, false, false, rc);
                self.register.increment_pc();
            },
            Instruction::Nor(gpr_s, gpr_a, gpr_b, rc) => {
                let result = !(self.register.get_gpr(gpr_s) | self.register.get_gpr(gpr_b));
                self.register.write_result(gpr_a, result, false, false, rc);
                self.register.increment_pc();
            },
            Instruction::Ori(first, second, uimm) => {
                let result = self.register.get_gpr(second) | (uimm as u32);
                self.register.set_gpr(first, result);
                self.register.increment_pc();
            },
            Instruction::Andidot(first, second, uimm) => {
                let result = self.register.get_gpr(second) & (uimm as u32);
                self.register.write_result(first, result, false, false, true);
                self.register.increment_pc();
            },
            Instruction::Crxor(crb_d, crb_a, crb_b) => {
                let value = self.register.get_bit_cr(crb_a as usize) != self.register.get_bit_cr(
                    crb_b as usize,
                );
                self.register.set_bit_cr(crb_d as usize, value);
                self.register.increment_pc();
            },
            Instruction::Rlwinmx(gpr_s, gpr_a, sh, mb, me, rc) => {
                let mask = make_rotation_mask(mb as u32, me as u32);
                let rotated = rotate_left(self.register.get_gpr(gpr_s), sh as u32);
                let result = rotated & mask;
                proof {
                    lemma_masked_is_and(rotated, mb as u32, me as u32);
                }
                self.register.write_result(gpr_a, result, false, false, rc);
                self.register.increment_pc();
            },
            Instruction::Cmpli(crf_d, gpr_a, uimm) => {
                let a = self.register.get_gpr(gpr_a) as i64;
                let so = self.register.get_xer_so();
                self.register.set_cr_field(crf_d, compare(a, uimm as i64, so));
                self.register.increment_pc();
            },
            Instruction::Cmpl(crf_d, gpr_a, gpr_b) => {
                let a = self.register.get_gpr(gpr_a) as i64;
                let b = self.register.get_gpr(gpr_b) as i64;
                let so = self.register.get_xer_so();
                self.register.set_cr_field(crf_d, compare(a, b, so));
                self.register.increment_pc();
            },
            Instruction::Cmpi(crf_d, gpr_a, simm) => {
                let a = to_signed(self.register.get_gpr(gpr_a));
                let so = self.register.get_xer_so();
                self.register.set_cr_field(crf_d, compare(a, simm as i64, so));
                self.register.increment_pc();
            },
            Instruction::Cmp(crf_d, gpr_a, gpr_b) => {
                let a = to_signed(self.register.get_gpr(gpr_a));
                let b = to_signed(self.register.get_gpr(gpr_b));
                let so = self.register.get_xer_so();
                self.register.set_cr_field(crf_d, compare(a, b, so));
                self.register.increment_pc();
            },
            _ => {},
        }
    }

    /// Counts CTR down where the branch's options say so, and tells whether the count and
    /// whether the condition let the branch go.
    pub fn check_and_apply_conditional_jump(&mut self, bo: u8, bi: u8) -> (r: (bool, bool))
        requires
            bi < 32,
        ensures
            final(self)@ == old(self)@.with_register(old(self)@.register.counted(bo)),
            r.0 == old(self)@.register.counted(bo).ctr_ok(bo),
            r.1 == old(self)@.register.counted(bo).cond_ok(bo, bi),
            (r.0 && r.1) == old(self)@.register.branch_taken(bo, bi),
    {
        let dont_use_ctr = u8_get_bit(bo, 7 - 2);
        if !dont_use_ctr {
            self.register.decrement_ctr();
        }
        let ctr_diff_0 = u8_get_bit(bo, 7 - 1);
        let ctr_ok = dont_use_ctr || ((self.register.ctr != 0) != ctr_diff_0);
        let dont_use_cond = u8_get_bit(bo, 7 - 4);
        let cond_ok = dont_use_cond || (self.register.get_bit_cr(bi as usize) == u8_get_bit(
            bo,
            7 - 3,
        ));
        (ctr_ok, cond_ok)
    }

    /// Sets PC to where a branch with displacement `words` goes: `words` instructions from
    /// `from`, or from address zero for an absolute branch.
    fn jump(&mut self, from: u32, words: i32, absolute: bool)
        requires
            -0x80_0000 <= words < 0x80_0000,
        ensures
            final(self)@ == old(self)@.with_register(
                old(self)@.register.with_pc(
                    if absolute {
                        wrap32(words * 4)
                    } else {
                        wrap32(from + words * 4)
                    },
                ),
            ),
    {
        let origin: u32 = if absolute {
            0
        } else {
            from
        };
        self.register.pc = origin.wrapping_add_signed(words * 4);
    }

    /// Sets the link register.
    fn link(&mut self, address: u32)
        ensures
            final(self)@ == old(self)@.with_register(old(self)@.register.with_lr(address)),
    {
        self.register.lr = address;
    }

    fn branch(&mut self, li: i32, aa: bool, lk: bool)
        requires
            old(self)@.can_execute(Instruction::Bx(li, aa, lk)),
        ensures
            final(self)@ == old(self)@.executed_branch(Instruction::Bx(li, aa, lk)),
    {
        let pc = self.register.pc;
        if lk {
            self.link(pc + 4);
        }
        self.jump(pc, li, aa);
    }

    fn branch_conditional(&mut self, bo: u8, bi: u8, bd: i16, aa: bool, lk: bool)
        requires
            old(self)@.can_execute(Instruction::Bcx(bo, bi, bd, aa, lk)),
        ensures
            final(self)@ == old(self)@.executed_branch(Instruction::Bcx(bo, bi, bd, aa, lk)),
    {
        let pc = self.register.pc;
        let (ctr_ok, cond_ok) = self.check_and_apply_conditional_jump(bo, bi);
        if ctr_ok && cond_ok {
            if lk {
                self.link(pc + 4);
            }
            self.jump(pc, bd as i32, aa);
        } else {
            self.register.increment_pc();
        }
    }

    fn branch_to_link(&mut self, bo: u8, bi: u8, lk: bool)
        requires
            old(self)@.can_execute(Instruction::Bclrx(bo, bi, lk)),
        ensures
            final(self)@ == old(self)@.executed_branch(Instruction::Bclrx(bo, bi, lk)),
    {
        let (ctr_ok, cond_ok) = self.check_and_apply_conditional_jump(bo, bi);
        if ctr_ok && cond_ok {
            let old_pc = self.register.pc;
            self.register.pc = self.register.lr - self.register.lr % 4;
            if lk {
                self.link(old_pc + 4);
            }
        } else {
            self.register.increment_pc();
        }
    }

    pub(crate) fn execute_branch(&mut self, instruction: Instruction)
        requires
            old(self)@.can_execute(instruction),
        ensures
            final(self)@ == old(self)@.executed_branch(instruction),
    {
        match instruction {
            Instruction::Bx(li, aa, lk) => self.branch(li, aa, lk),
            Instruction::Bcx(bo, bi, bd, aa, lk) => self.branch_conditional(bo, bi, bd, aa, lk),
            Instruction::Bclrx(bo, bi, lk) => self.branch_to_link(bo, bi, lk),
            _ => {},
        }
    }

    pub(crate) fn execute_special(&mut self, instruction: Instruction)
        requires
            old(self)@.can_execute(instruction),
        ensures
            final(self)@ == old(self)@.executed_special(instruction),
    {
        match instruction {
            Instruction::Mfspr(gpr_d, spr) => {
                let value = self.register.get_spr(spr);
                self.register.set_gpr(gpr_d, value);
                self.register.increment_pc();
            },
            Instruction::Mtspr(gpr_s, spr) => {
                let value = self.register.get_gpr(gpr_s);
                self.register.set_spr(spr, value);
                self.register.increment_pc();
            },
            Instruction::Mftb(gpr_d, tbr) => {
                let timebase = self.get_timebase();
                let value: u32 = match tbr {
                    Tbr::Tbl => (timebase % 0x1_0000_0000) as u32,
                    Tbr::Tbu => (timebase / 0x1_0000_0000) as u32,
                };
                self.register.set_gpr(gpr_d, value);
                self.register.increment_pc();
            },
            Instruction::CustomBreak => {
                self.register.increment_pc();
            },
            _ => {},
        }
    }

    fn load_multiple(&mut self, first: u8, gpr_a: u8, d: i16)
        requires
            old(self)@.can_execute(Instruction::Lmw(first, gpr_a, d)),
        ensures
            final(self)@ == old(self)@.executed_load(Instruction::Lmw(first, gpr_a, d)),
    {
        let address = self.register.compute_address_based_on_register(gpr_a, d);
        let mut r: u8 = first;
        while r < 32
            invariant
                first <= r <= 32,
                in_range(old(self)@.ram, address as int, 4 * (32 - first)),
                address + 4 * (31 - first) <= u32::MAX,
                self@.ram == old(self)@.ram,
                self@.counter == old(self)@.counter,
                self@.register =~= (RegisterFile {
                    gpr: Seq::new(
                        32,
                        |n: int|
                            if first <= n < r {
                                word_at(old(self)@.ram, address + 4 * (n - first))
                            } else {
                                old(self)@.register.gpr[n]
                            },
                    ),
                    ..old(self)@.register
                }),
            decreases 32 - r,
        {
            let value = self.read_u32(address + 4 * (r - first) as u32);
            self.register.set_gpr(r, value);
            r += 1;
        }
        self.register.increment_pc();
        assert(self@ =~= old(self)@.executed_load(Instruction::Lmw(first, gpr_a, d)));
    }

    pub(crate) fn execute_load(&mut self, instruction: Instruction)
        requires
            old(self)@.can_execute(instruction),
        ensures
            final(self)@ == old(self)@.executed_load(instruction),
    {
        match instruction {
            Instruction::Lwz(gpr_d, gpr_a, d) => {
                let address = self.register.compute_address_based_on_register(gpr_a, d);
                let new_value = self.read_u32(address);
                self.register.set_gpr(gpr_d, new_value);
                self.register.increment_pc();
            },
            Instruction::Lwzu(gpr_d, gpr_a, d) => {
                let address = self.register.compute_address_based_on_register(gpr_a, d);
                let new_value = self.read_u32(address);
                self.register.set_gpr(gpr_d, new_value);
                self.register.set_gpr(gpr_a, address);
                self.register.increment_pc();
            },
            Instruction::Lwzx(gpr_d, gpr_a, gpr_b) => {
                let address = self.register.compute_address_based_on_pair_of_register(
                    gpr_a,
                    gpr_b,
                );
                let value = self.read_u32(address);
                self.register.set_gpr(gpr_d, value);
                self.register.increment_pc();
            },
            Instruction::Lbz(gpr_d, gpr_a, d) => {
                let address = self.register.compute_address_based_on_register(gpr_a, d);
                let new_value = self.read_u8(address) as u32;
                self.register.set_gpr(gpr_d, new_value);
                self.register.increment_pc();
            },
            Instruction::Lbzu(gpr_d, gpr_a, d) => {
                let address = self.register.compute_address_based_on_register(gpr_a, d);
                let new_value = self.read_u8(address) as u32;
                self.register.set_gpr(gpr_d, new_value);
                self.register.set_gpr(gpr_a, address);
                self.register.increment_pc();
            },
            Instruction::Lhz(gpr_d, gpr_a, d) => {
                let address = self.register.compute_address_based_on_register(gpr_a, d);
                let value = self.read_u16(address) as u32;
                self.register.set_gpr(gpr_d, value);
                self.register.increment_pc();
            },
            Instruction::Lmw(gpr_d, gpr_a, d) => self.load_multiple(gpr_d, gpr_a, d),
            Instruction::Lfd(fr_d, gpr_a, d) => {
                let address = self.register.compute_address_based_on_register(gpr_a, d);
                let value = self.read_u64(address);
                self.register.set_fpr_ps0(fr_d, value);
                self.register.increment_pc();
            },
            _ => {},
        }
    }

    fn store_multiple(&mut self, first: u8, gpr_a: u8, d: i16)
        requires
            old(self)@.can_execute(Instruction::Stmw(first, gpr_a, d)),
        ensures
            final(self)@ == old(self)@.executed_store(Instruction::Stmw(first, gpr_a, d)),
    {
        let address = self.register.compute_address_based_on_register(gpr_a, d);
        let mut r: u8 = first;
        proof {
            lemma_with_stored_next(
                self@.ram,
                address as int,
                self@.register.gpr,
                first as int,
                0,
            );
        }
        while r < 32
            invariant
                first <= r <= 32,
                in_range(old(self)@.ram, address as int, 4 * (32 - first)),
                in_range(self@.ram, address as int, 4 * (32 - first)),
                address + 4 * (31 - first) <= u32::MAX,
                self@.ram == with_stored(
                    old(self)@.ram,
                    address as int,
                    old(self)@.register.gpr,
                    first as int,
                    (r - first) as nat,
                ),
                self@.counter == old(self)@.counter,
                self@.register == old(self)@.register,
            decreases 32 - r,
        {
            let value = self.register.get_gpr(r);
            proof {
                lemma_with_stored_next(
                    old(self)@.ram,
                    address as int,
                    old(self)@.register.gpr,
                    first as int,
                    (r - first) as nat,
                );
            }
            self.write_u32(address + 4 * (r - first) as u32, value);
            r += 1;
        }
        self.register.increment_pc();
    }

    pub(crate) fn execute_store(&mut self, instruction: Instruction)
        requires
            old(self)@.can_execute(instruction),
        ensures
            final(self)@ == old(self)@.executed_store(instruction),
    {
        match instruction {
            Instruction::Stw(gpr_s, gpr_a, d) => {
                let address = self.register.compute_address_based_on_register(gpr_a, d);
                let value = self.register.get_gpr(gpr_s);
                self.write_u32(address, value);
                self.register.increment_pc();
            },
            Instruction::Stwu(gpr_s, gpr_a, d) => {
                let address = self.register.compute_address_based_on_register(gpr_a, d);
                let value = self.register.get_gpr(gpr_s);
                self.write_u32(address, value);
                self.register.set_gpr(gpr_a, address);
                self.register.increment_pc();
            },
            Instruction::Stwx(gpr_s, gpr_a, gpr_b) => {
                let address = self.register.compute_address_based_on_pair_of_register(
                    gpr_a,
                    gpr_b,
                );
                let value = self.register.get_gpr(gpr_s);
                self.write_u32(address, value);
                self.register.increment_pc();
            },
            Instruction::Stb(gpr_s, gpr_a, d) => {
                let address = self.register.compute_address_based_on_register(gpr_a, d);
                let value = (self.register.get_gpr(gpr_s) % 0x100) as u8;
                self.write_u8(address, value);
                self.register.increment_pc();
            },
            Instruction::Stbu(gpr_s, gpr_a, d) => {
                let address = self.register.compute_address_based_on_register(gpr_a, d);
                let value = (self.register.get_gpr(gpr_s) % 0x100) as u8;
                self.write_u8(address, value);
                self.register.set_gpr(gpr_a, address);
                self.register.increment_pc();
            },
            Instruction::Stmw(gpr_s, gpr_a, d) => self.store_multiple(gpr_s, gpr_a, d),
            Instruction::Stfd(fr_s, gpr_a, d) => {
                let address = self.register.compute_address_based_on_register(gpr_a, d);
                let value_to_store = self.register.get_fpr_ps0(fr_s);
                self.write_u64(address, value_to_store);
                self.register.increment_pc();
            },
            Instruction::Stfdu(fr_s, gpr_a, d) => {
                let address = self.register.compute_address_based_on_register(gpr_a, d);
                let value_to_store = self.register.get_fpr_ps0(fr_s);
                self.write_u64(address, value_to_store);
                self.register.set_gpr(gpr_a, address);
                self.register.increment_pc();
            },
            _ => {},
        }
    }

    /// Stores one quantized value: for type 0 the bits of a single, unscaled.
    pub fn quantize_and_store(&mut self, single: u32, st_type: u8, _st_scale: u8, address: u32)
        requires
            st_type == 0,
            in_range(old(self)@.ram, address as int, 4),
        ensures
            final(self)@ == old(self)@.with_ram(with_word(old(self)@.ram, address as int, single)),
    {
        match st_type {
            0 => {
                // no scaling
                self.write_u32(address, single);
            },
            _ => {},
        }
    }

    /// Loads one quantized value: for type 0 the bits of a single, unscaled.
    pub fn dequantize(&self, address: u32, l_type: u8, _l_scale: u8) -> (r: u32)
        requires
            l_type == 0,
            in_range(self@.ram, address as int, 4),
        ensures
            r == word_at(self@.ram, address as int),
    {
        match l_type {
            0 => self.read_u32(address),
            _ => 0,
        }
    }

    /// Names the computation that an instruction leaves to the floating-point unit; `None`
    /// for an instruction that the engine runs alone.
    pub fn float_request(&self, instruction: Instruction) -> (r: Option<FloatOp>)
        requires
            instruction.needs_float() ==> self@.can_execute(instruction),
        ensures
            r == self@.float_request(instruction),
            r is Some <==> instruction.needs_float(),
    {
        match instruction {
            Instruction::Fmulx(_, fr_a, fr_c, _) => Some(
                FloatOp::Multiply(self.register.fpr[fr_a as usize][0], self.register.fpr[fr_c as usize][0]),
            ),
            Instruction::Fnmsubx(_, fr_a, fr_b, fr_c, _) => Some(
                FloatOp::NegMultiplySub(
                    self.register.fpr[fr_a as usize][0],
                    self.register.fpr[fr_b as usize][0],
                    self.register.fpr[fr_c as usize][0],
                ),
            ),
            Instruction::Frsqrtex(_, fr_b, _) => Some(
                FloatOp::RecipSqrt(self.register.fpr[fr_b as usize][0]),
            ),
            Instruction::Frspx(_, fr_b, _) => Some(
                FloatOp::RoundToSingle(self.register.fpr[fr_b as usize][0]),
            ),
            Instruction::Stfs(fr_s, _, _) => Some(
                FloatOp::Narrow(self.register.fpr[fr_s as usize][0]),
            ),
            Instruction::Lfs(_, gpr_a, d) => {
                let address = self.register.compute_address_based_on_register(gpr_a, d);
                Some(FloatOp::Widen(self.read_u32(address)))
            },
            Instruction::Psq_st(fr_s, _, w, _, _) => {
                if w {
                    Some(FloatOp::Narrow(self.register.fpr[fr_s as usize][0]))
                } else {
                    Some(
                        FloatOp::NarrowPair(
                            self.register.fpr[fr_s as usize][0],
                            self.register.fpr[fr_s as usize][1],
                        ),
                    )
                }
            },
            Instruction::Psq_l(_, gpr_a, w, i, d) => {
                let address = self.register.compute_address_based_on_register(gpr_a, d);
                let qr = self.register.get_qr(i);
                let lt = get_bit_section(qr, 13, 3) as u8;
                let ls = get_bit_section(qr, 2, 6) as u8;
                let c = get_size_for_quantized_type(lt);
                let first = self.dequantize(address, lt, ls);
                if w {
                    Some(FloatOp::Widen(first))
                } else {
                    Some(FloatOp::WidenPair(first, self.dequantize(address + c, lt, ls)))
                }
            },
            _ => None,
        }
    }

    fn store_quantized(&mut self, fr_s: u8, gpr_a: u8, w: bool, i: u8, d: i16, result: FloatResult)
        requires
            old(self)@.can_execute(Instruction::Psq_st(fr_s, gpr_a, w, i, d)),
        ensures
            final(self)@ == old(self)@.completed(Instruction::Psq_st(fr_s, gpr_a, w, i, d), result),
    {
        let address = self.register.compute_address_based_on_register(gpr_a, d);
        let qr = self.register.get_qr(i);
        let stt = get_bit_section(qr, 29, 3) as u8;
        let sts = get_bit_section(qr, 18, 6) as u8;
        let c = get_size_for_quantized_type(stt);
        self.quantize_and_store((result.first % 0x1_0000_0000) as u32, stt, sts, address);
        if !w {
            self.quantize_and_store((result.second % 0x1_0000_0000) as u32, stt, sts, address + c);
        }
        self.register.increment_pc();
    }

    /// Completes an instruction with the floating-point unit's answer to its request.
    pub fn execute_float(&mut self, instruction: Instruction, result: FloatResult)
        requires
            old(self)@.can_execute(instruction),
            instruction.needs_float(),
        ensures
            final(self)@ == old(self)@.completed(instruction, result),
            final(self)@.ram.len() == old(self)@.ram.len(),
            final(self)@.counter == old(self)@.counter,
            !instruction.is_store() ==> final(self)@.ram == old(self)@.ram,
            final(self)@.register.pc == old(self)@.register.pc + 4,
    {
        proof {
            lemma_memory_size_kept(old(self)@, instruction, result);
            if !instruction.is_store() {
                lemma_only_stores_write_memory(old(self)@, instruction, result);
            }
            lemma_pc_advances(old(self)@, instruction, result);
        }
        match instruction {
            Instruction::Fmulx(fr_d, _, _, _) => {
                self.register.set_fpr_ps0(fr_d, result.first);
                self.register.increment_pc();
            },
            Instruction::Fnmsubx(fr_d, _, _, _, _) => {
                self.register.set_fpr_ps0(fr_d, result.first);
                self.register.increment_pc();
            },
            Instruction::Frsqrtex(fr_d, _, _) => {
                self.register.set_fpr_ps0(fr_d, result.first);
                self.register.increment_pc();
            },
            Instruction::Frspx(fr_d, _, _) => {
                self.register.set_fpr_ps0(fr_d, result.first);
                self.register.increment_pc();
            },
            Instruction::Stfs(_, gpr_a, d) => {
                let address = self.register.compute_address_based_on_register(gpr_a, d);
                self.write_u32(address, (result.first % 0x1_0000_0000) as u32);
                self.register.increment_pc();
            },
            Instruction::Lfs(fr_d, _, _) => {
                self.register.set_fpr_both(fr_d, result.first);
                self.register.increment_pc();
            },
            Instruction::Psq_st(fr_s, gpr_a, w, i, d) => self.store_quantized(
                fr_s,
                gpr_a,
                w,
                i,
                d,
                result,
            ),
            Instruction::Psq_l(fr_d, _, w, _, _) => {
                self.register.set_fpr_ps0(fr_d, result.first);
                if w {
                    self.register.set_fpr_ps1(fr_d, ONE_AS_DOUBLE);
                } else {
                    self.register.set_fpr_ps1(fr_d, result.second);
                }
                self.register.increment_pc();
            },
            _ => {},
        }
    }

    /// Runs an instruction that needs nothing from the floating-point unit, and tells
    /// whether it was the break.
    pub fn execute(&mut self, instruction: Instruction) -> (r: BreakData)
        requires
            old(self)@.can_execute(instruction),
            !instruction.needs_float(),
        ensures
            final(self)@ == old(self)@.executed(instruction),
            r == instruction.event(),
            final(self)@.ram.len() == old(self)@.ram.len(),
            final(self)@.counter == old(self)@.counter,
            !instruction.is_store() ==> final(self)@.ram == old(self)@.ram,
            !old(self)@.takes_branch(instruction) ==> final(self)@.register.pc
                == old(self)@.register.pc + 4,
    {
        proof {
            let unused = FloatResult { first: 0, second: 0 };
            lemma_memory_size_kept(old(self)@, instruction, unused);
            if !instruction.is_store() {
                lemma_only_stores_write_memory(old(self)@, instruction, unused);
            }
            if !old(self)@.takes_branch(instruction) {
                lemma_pc_advances(old(self)@, instruction, unused);
            }
        }
        match instruction.get_kind() {
            Kind::Arithmetic => self.execute_arithmetic(instruction),
            Kind::Logic => self.execute_logic(instruction),
            Kind::Branch => self.execute_branch(instruction),
            Kind::Load => self.execute_load(instruction),
            Kind::Store => self.execute_store(instruction),
            Kind::Special => self.execute_special(instruction),
            Kind::Float => {},
        }
        match instruction {
            Instruction::CustomBreak => BreakData::Break,
            _ => BreakData::Nothing,
        }
    }
}

} // verus!
