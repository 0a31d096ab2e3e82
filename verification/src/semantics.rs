//! What each instruction does, as a function from one state of the machine to the next.

use vstd::prelude::*;
use crate::float::{FloatOp, FloatResult, ONE_AS_DOUBLE};
use crate::instruction::{decoded, Access, Instruction, Kind};
use crate::interpreter::BreakData;
use crate::machine::{
    byte_at, double_at, half_at, in_range, lower_word, upper_word, with_byte, with_double,
    with_word, word_at, word_byte, Machine,
};
use crate::register::{comparison_field, RegisterFile, Tbr};
use crate::util::{
    bit_is_set, bit_section, masked, rotated_left, sign_extended, signed32, wrap32,
};

verus! {

impl RegisterFile {
    /// The write-back of an integer result: the destination, then OV and SO where the
    /// instruction records overflow, then CR0 where it records the result.
    pub open spec fn with_result(
        self,
        dest: int,
        result: u32,
        oe: bool,
        overflow: bool,
        rc: bool,
    ) -> RegisterFile {
        let written = self.with_gpr(dest, result);
        let flagged = if oe {
            written.with_ov_so(overflow)
        } else {
            written
        };
        if rc {
            flagged.with_cr0(result)
        } else {
            flagged
        }
    }

    /// Whether a conditional branch with these options counts CTR down.
    pub open spec fn counts(bo: u8) -> bool {
        !bit_is_set(bo as int, 8, 5)
    }

    /// The registers after the count that a conditional branch makes before it decides.
    pub open spec fn counted(self, bo: u8) -> RegisterFile {
        if Self::counts(bo) {
            self.with_ctr(wrap32(self.ctr - 1))
        } else {
            self
        }
    }

    /// Whether the count lets the branch go, read after the count was made.
    pub open spec fn ctr_ok(self, bo: u8) -> bool {
        !Self::counts(bo) || ((self.ctr != 0) != bit_is_set(bo as int, 8, 6))
    }

    /// Whether the condition bit lets the branch go.
    pub open spec fn cond_ok(self, bo: u8, bi: u8) -> bool {
        bit_is_set(bo as int, 8, 3) || (self.cr_bit(bi as int) == bit_is_set(bo as int, 8, 4))
    }

    /// Whether a conditional branch with these options is taken from this state.
    pub open spec fn branch_taken(self, bo: u8, bi: u8) -> bool {
        self.counted(bo).ctr_ok(bo) && self.counted(bo).cond_ok(bo, bi)
    }

    /// The registers that `lmw` loads: from `first` up, each takes the next word of memory.
    pub open spec fn with_loaded(self, ram: Seq<u8>, address: int, first: int) -> RegisterFile {
        RegisterFile {
            gpr: Seq::new(
                32,
                |n: int|
                    if n >= first {
                        word_at(ram, address + 4 * (n - first))
                    } else {
                        self.gpr[n]
                    },
            ),
            ..self
        }
    }
}

/// Memory after `stmw` has stored `count` registers, the first of them `first`: the bytes from
/// `address` on hold those registers, four bytes each, most significant byte first.
pub open spec fn with_stored(ram: Seq<u8>, address: int, gpr: Seq<u32>, first: int, count: nat) -> Seq<
    u8,
> {
    let offset = address - crate::BASE_RW_ADRESS;
    Seq::new(
        ram.len(),
        |i: int|
            if offset <= i < offset + 4 * count {
                word_byte(gpr[first + (i - offset) / 4], (i - offset) % 4)
            } else {
                ram[i]
            },
    )
}

/// Storing one register more is storing its word after the others.
pub proof fn lemma_with_stored_next(
    ram: Seq<u8>,
    address: int,
    gpr: Seq<u32>,
    first: int,
    count: nat,
)
    requires
        in_range(ram, address, 4 * (count + 1) as int),
    ensures
        with_stored(ram, address, gpr, first, count + 1) == with_word(
            with_stored(ram, address, gpr, first, count),
            address + 4 * count,
            gpr[first + count],
        ),
        with_stored(ram, address, gpr, first, 0) == ram,
{
    let offset = address - crate::BASE_RW_ADRESS;
    let before = with_stored(ram, address, gpr, first, count);
    let after = with_word(before, address + 4 * count, gpr[first + count]);
    let all = with_stored(ram, address, gpr, first, count + 1);
    assert forall|i: int| 0 <= i < ram.len() implies all[i] == after[i] by {
        if offset + 4 * count <= i < offset + 4 * count + 4 {
            let k = i - offset - 4 * count;
            assert((i - offset) / 4 == count);
            assert((i - offset) % 4 == k);
        }
    }
    assert(all =~= after);
    assert(with_stored(ram, address, gpr, first, 0) =~= ram);
}

/// The store type that a quantization register sets: three bits at bit 29.
pub open spec fn store_type(qr: u32) -> int {
    bit_section(qr, 29, 3)
}

/// The load type that a quantization register sets: three bits at bit 13.
pub open spec fn load_type(qr: u32) -> int {
    bit_section(qr, 13, 3)
}

/// The message of a step whose opcode does not decode.
pub open spec fn decode_failure() -> Seq<char> {
    "opcode does not decode to an instruction"@
}

impl Instruction {
    /// Whether the instruction needs a number from the host's floating-point unit.
    pub open spec fn needs_float(self) -> bool {
        self.kind() == Kind::Float
    }

    /// Whether the instruction writes to memory.
    pub open spec fn is_store(self) -> bool {
        self.kind() == Kind::Store || self is Stfs || self is Psq_st
    }

    /// What the host learns of the instruction once it has run.
    pub open spec fn event(self) -> BreakData {
        if self == Instruction::CustomBreak {
            BreakData::Break
        } else {
            BreakData::Nothing
        }
    }
}

impl Machine {
    /// Whether the instruction jumps from this state rather than going on to the next one.
    pub open spec fn takes_branch(self, instruction: Instruction) -> bool {
        match instruction {
            Instruction::Bx(..) => true,
            Instruction::Bcx(bo, bi, _, _, _) => self.register.branch_taken(bo, bi),
            Instruction::Bclrx(bo, bi, _) => self.register.branch_taken(bo, bi),
            _ => false,
        }
    }

    /// The bytes of memory that the instruction reads or writes, as an address and a size;
    /// size 0 for an instruction that leaves memory alone.
    pub open spec fn footprint(self, instruction: Instruction) -> (int, int) {
        match instruction.access() {
            Access::Nothing => (crate::BASE_RW_ADRESS as int, 0),
            Access::Displacement(a, d, size) => (
                self.register.address_d(a as int, d as int) as int,
                size as int,
            ),
            Access::Indexed(a, b, size) => (
                self.register.address_x(a as int, b as int) as int,
                size as int,
            ),
        }
    }

    /// Whether the instruction can run from this state: its operands exist, the memory it
    /// touches lies in the image, each address it forms on the way fits in 32 bits, the
    /// address of the instruction after it can be formed where it is needed, the condition
    /// field that a condition bit is written to fits in four bits, and the instruction asks
    /// for nothing that the engine leaves undefined: a floating-point result recorded in
    /// CR1, a quantization type other than 0.
    pub open spec fn can_execute(self, instruction: Instruction) -> bool {
        let r = self.register;
        let (address, size) = self.footprint(instruction);
        &&& instruction.well_formed()
        &&& in_range(self.ram, address, size)
        &&& match instruction {
            Instruction::Lmw(first, _, _) => address + 4 * (31 - first) <= u32::MAX,
            Instruction::Stmw(first, _, _) => address + 4 * (31 - first) <= u32::MAX,
            Instruction::Psq_st(_, _, w, _, _) => w || address + 4 <= u32::MAX,
            Instruction::Psq_l(_, _, w, _, _) => w || address + 4 <= u32::MAX,
            _ => true,
        }
        &&& match instruction {
            Instruction::Bx(_, _, lk) => lk ==> r.pc + 4 <= u32::MAX,
            Instruction::Bcx(bo, bi, _, _, lk) => (lk || !r.branch_taken(bo, bi)) ==> r.pc + 4
                <= u32::MAX,
            Instruction::Bclrx(bo, bi, lk) => (lk || !r.branch_taken(bo, bi)) ==> r.pc + 4
                <= u32::MAX,
            _ => r.pc + 4 <= u32::MAX,
        }
        &&& match instruction {
            Instruction::Crxor(d, _, _) => r.cr[d as int / 4] < 16,
            Instruction::Frsqrtex(_, _, rc) => !rc,
            Instruction::Fmulx(_, _, _, rc) => !rc,
            Instruction::Fnmsubx(_, _, _, _, rc) => !rc,
            Instruction::Frspx(_, _, rc) => !rc,
            Instruction::Psq_st(_, _, _, i, _) => store_type(r.qr[i as int]) == 0,
            Instruction::Psq_l(_, _, _, i, _) => load_type(r.qr[i as int]) == 0,
            _ => true,
        }
    }

    /// The state after an instruction of integer arithmetic.
    pub open spec fn executed_arithmetic(self, instruction: Instruction) -> Machine {
        let r = self.register;
        match instruction {
            Instruction::Addx(d, a, b, oe, rc) => {
                let sum = r.gpr[a as int] + r.gpr[b as int];
                self.with_register(
                    r.with_result(d as int, wrap32(sum), oe, sum > u32::MAX, rc).with_next_pc(),
                )
            },
            Instruction::Addcx(d, a, b, oe, rc) => {
                let sum = r.gpr[a as int] + r.gpr[b as int];
                let carry = sum > u32::MAX;
                self.with_register(
                    r.with_carry(carry).with_result(
                        d as int,
                        wrap32(sum),
                        oe,
                        carry,
                        rc,
                    ).with_next_pc(),
                )
            },
            Instruction::Addex(d, a, b, oe, rc) => {
                let sum = r.gpr[a as int] + r.gpr[b as int] + (if r.carry() {
                    1int
                } else {
                    0int
                });
                let carry = sum > u32::MAX;
                self.with_register(
                    r.with_carry(carry).with_result(
                        d as int,
                        wrap32(sum),
                        oe,
                        carry,
                        rc,
                    ).with_next_pc(),
                )
            },
            Instruction::Subfx(d, a, b, oe, rc) => {
                let difference = r.gpr[b as int] - r.gpr[a as int];
                self.with_register(
                    r.with_result(
                        d as int,
                        wrap32(difference),
                        oe,
                        difference < 0,
                        rc,
                    ).with_next_pc(),
                )
            },
            Instruction::Addi(d, a, simm) => self.with_register(
                r.with_gpr(d as int, wrap32(r.base(a as int) + simm)).with_next_pc(),
            ),
            Instruction::Addis(d, a, uimm) => self.with_register(
                r.with_gpr(d as int, wrap32(r.base(a as int) + uimm * 0x1_0000)).with_next_pc(),
            ),
            Instruction::Addicdot(d, a, simm) => {
                let sum = r.gpr[a as int] + wrap32(simm as int);
                self.with_register(
                    r.with_carry(sum > u32::MAX).with_result(
                        d as int,
                        wrap32(sum),
                        false,
                        false,
                        true,
                    ).with_next_pc(),
                )
            },
            Instruction::Extsbx(s, a, rc) => self.with_register(
                r.with_result(
                    a as int,
                    wrap32(sign_extended(r.gpr[s as int] as int, 8)),
                    false,
                    false,
                    rc,
                ).with_next_pc(),
            ),
            _ => self,
        }
    }

    /// The state after a bitwise instruction, a rotation or a comparison.
    pub open spec fn executed_logic(self, instruction: Instruction) -> Machine {
        let r = self.register;
        match instruction {
            Instruction::Orx(s, a, b, rc) => self.with_register(
                r.with_result(
                    a as int,
                    r.gpr[s as int] | r.gpr[b as int],
                    false,
                    false,
                    rc,
                ).with_next_pc(),
            ),
            Instruction::Nor(s, a, b, rc) => self.with_register(
                r.with_result(
                    a as int,
                    !(r.gpr[s as int] | r.gpr[b as int]),
                    false,
                    false,
                    rc,
                ).with_next_pc(),
            ),
            Instruction::Ori(first, second, uimm) => self.with_register(
                r.with_gpr(first as int, r.gpr[second as int] | (uimm as u32)).with_next_pc(),
            ),
            Instruction::Andidot(first, second, uimm) => self.with_register(
                r.with_result(
                    first as int,
                    r.gpr[second as int] & (uimm as u32),
                    false,
                    false,
                    true,
                ).with_next_pc(),
            ),
            Instruction::Crxor(d, a, b) => self.with_register(
                r.with_cr_bit(d as int, r.cr_bit(a as int) != r.cr_bit(b as int)).with_next_pc(),
            ),
            Instruction::Rlwinmx(s, a, sh, mb, me, rc) => self.with_register(
                r.with_result(
                    a as int,
                    masked(rotated_left(r.gpr[s as int], sh as u32), mb as u32, me as u32),
                    false,
                    false,
                    rc,
                ).with_next_pc(),
            ),
            Instruction::Cmpli(crf, a, uimm) => self.with_register(
                r.with_cr(
                    crf as int,
                    comparison_field(r.gpr[a as int] as int, uimm as int, r.so()),
                ).with_next_pc(),
            ),
            Instruction::Cmpl(crf, a, b) => self.with_register(
                r.with_cr(
                    crf as int,
                    comparison_field(r.gpr[a as int] as int, r.gpr[b as int] as int, r.so()),
                ).with_next_pc(),
            ),
            Instruction::Cmpi(crf, a, simm) => self.with_register(
                r.with_cr(
                    crf as int,
                    comparison_field(signed32(r.gpr[a as int]), simm as int, r.so()),
                ).with_next_pc(),
            ),
            Instruction::Cmp(crf, a, b) => self.with_register(
                r.with_cr(
                    crf as int,
                    comparison_field(signed32(r.gpr[a as int]), signed32(r.gpr[b as int]), r.so()),
                ).with_next_pc(),
            ),
            _ => self,
        }
    }

    /// The state after a branch. A conditional branch first counts CTR down where its
    /// options say so; taken, it links where asked and jumps; not taken, it goes on.
    pub open spec fn executed_branch(self, instruction: Instruction) -> Machine {
        let r = self.register;
        let next = (r.pc + 4) as u32;
        match instruction {
            Instruction::Bx(li, aa, lk) => {
                let linked = if lk {
                    r.with_lr(next)
                } else {
                    r
                };
                self.with_register(
                    linked.with_pc(
                        if aa {
                            wrap32(li * 4)
                        } else {
                            wrap32(r.pc + li * 4)
                        },
                    ),
                )
            },
            Instruction::Bcx(bo, bi, bd, aa, lk) => {
                let counted = r.counted(bo);
                if r.branch_taken(bo, bi) {
                    let linked = if lk {
                        counted.with_lr(next)
                    } else {
                        counted
                    };
                    self.with_register(
                        linked.with_pc(
                            if aa {
                                wrap32(bd * 4)
                            } else {
                                wrap32(r.pc + bd * 4)
                            },
                        ),
                    )
                } else {
                    self.with_register(counted.with_next_pc())
                }
            },
            Instruction::Bclrx(bo, bi, lk) => {
                let counted = r.counted(bo);
                if r.branch_taken(bo, bi) {
                    let jumped = counted.with_pc((r.lr - r.lr % 4) as u32);
                    self.with_register(
                        if lk {
                            jumped.with_lr(next)
                        } else {
                            jumped
                        },
                    )
                } else {
                    self.with_register(counted.with_next_pc())
                }
            },
            _ => self,
        }
    }

    /// The state after a load.
    pub open spec fn executed_load(self, instruction: Instruction) -> Machine {
        let r = self.register;
        let address = self.footprint(instruction).0;
        match instruction {
            Instruction::Lwz(d, _, _) => self.with_register(
                r.with_gpr(d as int, word_at(self.ram, address)).with_next_pc(),
            ),
            Instruction::Lwzu(d, a, _) => self.with_register(
                r.with_gpr(d as int, word_at(self.ram, address)).with_gpr(
                    a as int,
                    address as u32,
                ).with_next_pc(),
            ),
            Instruction::Lwzx(d, _, _) => self.with_register(
                r.with_gpr(d as int, word_at(self.ram, address)).with_next_pc(),
            ),
            Instruction::Lbz(d, _, _) => self.with_register(
                r.with_gpr(d as int, byte_at(self.ram, address) as u32).with_next_pc(),
            ),
            Instruction::Lbzu(d, a, _) => self.with_register(
                r.with_gpr(d as int, byte_at(self.ram, address) as u32).with_gpr(
                    a as int,
                    address as u32,
                ).with_next_pc(),
            ),
            Instruction::Lhz(d, _, _) => self.with_register(
                r.with_gpr(d as int, half_at(self.ram, address) as u32).with_next_pc(),
            ),
            Instruction::Lmw(first, _, _) => self.with_register(
                r.with_loaded(self.ram, address, first as int).with_next_pc(),
            ),
            Instruction::Lfd(d, _, _) => self.with_register(
                r.with_ps0(d as int, double_at(self.ram, address)).with_next_pc(),
            ),
            _ => self,
        }
    }

    /// The state after a store.
    pub open spec fn executed_store(self, instruction: Instruction) -> Machine {
        let r = self.register;
        let address = self.footprint(instruction).0;
        match instruction {
            Instruction::Stw(s, _, _) => Machine {
                ram: with_word(self.ram, address, r.gpr[s as int]),
                register: r.with_next_pc(),
                ..self
            },
            Instruction::Stwu(s, a, _) => Machine {
                ram: with_word(self.ram, address, r.gpr[s as int]),
                register: r.with_gpr(a as int, address as u32).with_next_pc(),
                ..self
            },
            Instruction::Stwx(s, _, _) => Machine {
                ram: with_word(self.ram, address, r.gpr[s as int]),
                register: r.with_next_pc(),
                ..self
            },
            Instruction::Stb(s, _, _) => Machine {
                ram: with_byte(self.ram, address, (r.gpr[s as int] % 0x100) as u8),
                register: r.with_next_pc(),
                ..self
            },
            Instruction::Stbu(s, a, _) => Machine {
                ram: with_byte(self.ram, address, (r.gpr[s as int] % 0x100) as u8),
                register: r.with_gpr(a as int, address as u32).with_next_pc(),
                ..self
            },
            Instruction::Stmw(first, _, _) => Machine {
                ram: with_stored(self.ram, address, r.gpr, first as int, (32 - first) as nat),
                register: r.with_next_pc(),
                ..self
            },
            Instruction::Stfd(s, _, _) => Machine {
                ram: with_double(self.ram, address, r.ps0[s as int]),
                register: r.with_next_pc(),
                ..self
            },
            Instruction::Stfdu(s, a, _) => Machine {
                ram: with_double(self.ram, address, r.ps0[s as int]),
                register: r.with_gpr(a as int, address as u32).with_next_pc(),
                ..self
            },
            _ => self,
        }
    }

    /// The state after a move from or to a special register, a read of the time base, or
    /// the break.
    pub open spec fn executed_special(self, instruction: Instruction) -> Machine {
        let r = self.register;
        match instruction {
            Instruction::Mfspr(d, spr) => self.with_register(
                r.with_gpr(d as int, r.spr(spr)).with_next_pc(),
            ),
            Instruction::Mtspr(s, spr) => self.with_register(
                r.with_spr(spr, r.gpr[s as int]).with_next_pc(),
            ),
            Instruction::Mftb(d, tbr) => self.with_register(
                r.with_gpr(
                    d as int,
                    match tbr {
                        Tbr::Tbl => lower_word(self.timebase()),
                        Tbr::Tbu => upper_word(self.timebase()),
                    },
                ).with_next_pc(),
            ),
            Instruction::CustomBreak => self.with_register(r.with_next_pc()),
            _ => self,
        }
    }

    /// The state after an instruction that needs nothing from the floating-point unit.
    pub open spec fn executed(self, instruction: Instruction) -> Machine {
        match instruction.kind() {
            Kind::Arithmetic => self.executed_arithmetic(instruction),
            Kind::Logic => self.executed_logic(instruction),
            Kind::Branch => self.executed_branch(instruction),
            Kind::Load => self.executed_load(instruction),
            Kind::Store => self.executed_store(instruction),
            Kind::Special => self.executed_special(instruction),
            Kind::Float => self,
        }
    }

    /// What an instruction asks of the floating-point unit, if it asks anything.
    pub open spec fn float_request(self, instruction: Instruction) -> Option<FloatOp> {
        let r = self.register;
        let address = self.footprint(instruction).0;
        match instruction {
            Instruction::Fmulx(_, a, c, _) => Some(FloatOp::Multiply(r.ps0[a as int], r.ps0[c as int])),
            Instruction::Fnmsubx(_, a, b, c, _) => Some(
                FloatOp::NegMultiplySub(r.ps0[a as int], r.ps0[b as int], r.ps0[c as int]),
            ),
            Instruction::Frsqrtex(_, b, _) => Some(FloatOp::RecipSqrt(r.ps0[b as int])),
            Instruction::Frspx(_, b, _) => Some(FloatOp::RoundToSingle(r.ps0[b as int])),
            Instruction::Stfs(s, _, _) => Some(FloatOp::Narrow(r.ps0[s as int])),
            Instruction::Lfs(..) => Some(FloatOp::Widen(word_at(self.ram, address))),
            Instruction::Psq_st(s, _, w, _, _) => Some(
                if w {
                    FloatOp::Narrow(r.ps0[s as int])
                } else {
                    FloatOp::NarrowPair(r.ps0[s as int], r.ps1[s as int])
                },
            ),
            Instruction::Psq_l(_, _, w, _, _) => Some(
                if w {
                    FloatOp::Widen(word_at(self.ram, address))
                } else {
                    FloatOp::WidenPair(word_at(self.ram, address), word_at(self.ram, address + 4))
                },
            ),
            _ => None,
        }
    }

    /// The state after an instruction that asked the floating-point unit for `result`.
    pub open spec fn completed(self, instruction: Instruction, result: FloatResult) -> Machine {
        let r = self.register;
        let address = self.footprint(instruction).0;
        match instruction {
            Instruction::Fmulx(d, _, _, _) => self.with_register(
                r.with_ps0(d as int, result.first).with_next_pc(),
            ),
            Instruction::Fnmsubx(d, _, _, _, _) => self.with_register(
                r.with_ps0(d as int, result.first).with_next_pc(),
            ),
            Instruction::Frsqrtex(d, _, _) => self.with_register(
                r.with_ps0(d as int, result.first).with_next_pc(),
            ),
            Instruction::Frspx(d, _, _) => self.with_register(
                r.with_ps0(d as int, result.first).with_next_pc(),
            ),
            Instruction::Stfs(..) => Machine {
                ram: with_word(self.ram, address, lower_word(result.first)),
                register: r.with_next_pc(),
                ..self
            },
            Instruction::Lfs(d, _, _) => self.with_register(
                r.with_ps0(d as int, result.first).with_ps1(d as int, result.first).with_next_pc(),
            ),
            Instruction::Psq_st(_, _, w, _, _) => {
                let first = with_word(self.ram, address, lower_word(result.first));
                Machine {
                    ram: if w {
                        first
                    } else {
                        with_word(first, address + 4, lower_word(result.second))
                    },
                    register: r.with_next_pc(),
                    ..self
                }
            },
            Instruction::Psq_l(d, _, w, _, _) => self.with_register(
                r.with_ps0(d as int, result.first).with_ps1(
                    d as int,
                    if w {
                        ONE_AS_DOUBLE
                    } else {
                        result.second
                    },
                ).with_next_pc(),
            ),
            _ => self,
        }
    }

    /// The machine with one more instruction counted.
    pub open spec fn ticked(self) -> Machine {
        Machine { counter: (self.counter + 1) as u64, ..self }
    }

    /// The instruction at PC, if the word there encodes one.
    pub open spec fn fetched(self) -> Option<Instruction> {
        decoded(word_at(self.ram, self.register.pc as int))
    }

    /// Whether a step can be taken: the count has room, the word at PC lies in memory, and
    /// the instruction it encodes, if any, can run.
    pub open spec fn can_step(self) -> bool {
        &&& self.counter < u64::MAX
        &&& in_range(self.ram, self.register.pc as int, 4)
        &&& (self.fetched() is None || self.ticked().can_execute(self.fetched().unwrap()))
    }

    /// Whether the instruction at PC asks the floating-point unit for something.
    pub open spec fn waits_for_float(self) -> bool {
        match self.fetched() {
            Some(instruction) => instruction.needs_float(),
            None => false,
        }
    }

    /// What the instruction at PC asks of the floating-point unit, if it asks anything.
    pub open spec fn pending_float(self) -> Option<FloatOp> {
        match self.fetched() {
            Some(instruction) => self.float_request(instruction),
            None => None,
        }
    }

    /// The state after a step that needed nothing from the floating-point unit. A word that
    /// does not decode is counted and changes nothing else.
    pub open spec fn stepped(self) -> Machine {
        match self.fetched() {
            Some(instruction) => self.ticked().executed(instruction),
            None => self.ticked(),
        }
    }

    /// The state after a step that asked the floating-point unit for `result`.
    pub open spec fn stepped_with(self, result: FloatResult) -> Machine {
        match self.fetched() {
            Some(instruction) => self.ticked().completed(instruction, result),
            None => self.ticked(),
        }
    }

    /// Whether the machine, stepping on from this state with no help from a floating-point
    /// unit, executes the break as the instruction after `steps` others, every step on the
    /// way being one that can be taken.
    pub open spec fn breaks_after(self, steps: nat) -> bool
        decreases steps,
    {
        &&& self.can_step()
        &&& self.fetched() is Some
        &&& !self.waits_for_float()
        &&& if steps == 0 {
            self.fetched() == Some(Instruction::CustomBreak)
        } else {
            self.fetched() != Some(Instruction::CustomBreak) && self.stepped().breaks_after(
                (steps - 1) as nat,
            )
        }
    }

    /// The state after `steps` steps.
    pub open spec fn after_steps(self, steps: nat) -> Machine
        decreases steps,
    {
        if steps == 0 {
            self
        } else {
            self.stepped().after_steps((steps - 1) as nat)
        }
    }
}

/// One more step after `steps` steps is `steps + 1` steps.
pub proof fn lemma_one_more_step(machine: Machine, steps: nat)
    ensures
        machine.after_steps(steps + 1) == machine.after_steps(steps).stepped(),
    decreases steps,
{
    assert(machine.after_steps(steps + 1) == machine.stepped().after_steps(steps));
    if steps > 0 {
        lemma_one_more_step(machine.stepped(), (steps - 1) as nat);
        assert(machine.after_steps(steps) == machine.stepped().after_steps((steps - 1) as nat));
    } else {
        assert(machine.stepped().after_steps(0) == machine.stepped());
    }
}

/// What an instruction outside the stores does to memory and to the count: nothing.
proof fn lemma_registers_only(machine: Machine, instruction: Instruction)
    requires
        instruction.kind() != Kind::Store,
    ensures
        machine.executed(instruction).ram == machine.ram,
        machine.executed(instruction).counter == machine.counter,
{
    match instruction.kind() {
        Kind::Arithmetic => {
            assert(machine.executed_arithmetic(instruction).ram == machine.ram);
            assert(machine.executed_arithmetic(instruction).counter == machine.counter);
        },
        Kind::Logic => {
            assert(machine.executed_logic(instruction).ram == machine.ram);
            assert(machine.executed_logic(instruction).counter == machine.counter);
        },
        Kind::Branch => {
            assert(machine.executed_branch(instruction).ram == machine.ram);
            assert(machine.executed_branch(instruction).counter == machine.counter);
        },
        Kind::Load => {
            assert(machine.executed_load(instruction).ram == machine.ram);
            assert(machine.executed_load(instruction).counter == machine.counter);
        },
        Kind::Special => {
            assert(machine.executed_special(instruction).ram == machine.ram);
            assert(machine.executed_special(instruction).counter == machine.counter);
        },
        _ => {},
    }
}

/// An instruction that is no store leaves every byte of memory as it was.
pub proof fn lemma_only_stores_write_memory(
    machine: Machine,
    instruction: Instruction,
    result: FloatResult,
)
    requires
        !instruction.is_store(),
    ensures
        machine.executed(instruction).ram == machine.ram,
        machine.completed(instruction, result).ram == machine.ram,
{
    lemma_registers_only(machine, instruction);
}

/// A store leaves memory at its size.
proof fn lemma_store_keeps_size(machine: Machine, instruction: Instruction)
    requires
        machine.can_execute(instruction),
        instruction.kind() == Kind::Store,
    ensures
        machine.executed_store(instruction).ram.len() == machine.ram.len(),
        machine.executed_store(instruction).counter == machine.counter,
{
}

/// No instruction changes the size of memory, nor the count of instructions.
pub proof fn lemma_memory_size_kept(machine: Machine, instruction: Instruction, result: FloatResult)
    requires
        machine.can_execute(instruction),
    ensures
        machine.executed(instruction).ram.len() == machine.ram.len(),
        machine.completed(instruction, result).ram.len() == machine.ram.len(),
        machine.executed(instruction).counter == machine.counter,
        machine.completed(instruction, result).counter == machine.counter,
{
    if instruction.kind() == Kind::Store {
        lemma_store_keeps_size(machine, instruction);
    } else {
        lemma_registers_only(machine, instruction);
    }
}

/// Where an instruction that is no branch leaves PC: four bytes on.
proof fn lemma_plain_pc(machine: Machine, instruction: Instruction)
    requires
        machine.register.pc + 4 <= u32::MAX,
        instruction.kind() != Kind::Branch,
        instruction.kind() != Kind::Float,
    ensures
        machine.executed(instruction).register.pc == machine.register.pc + 4,
{
    match instruction.kind() {
        Kind::Arithmetic => {
            assert(machine.executed_arithmetic(instruction).register.pc == machine.register.pc
                + 4);
        },
        Kind::Logic => {
            assert(machine.executed_logic(instruction).register.pc == machine.register.pc + 4);
        },
        Kind::Load => {
            assert(machine.executed_load(instruction).register.pc == machine.register.pc + 4);
        },
        Kind::Store => {
            assert(machine.executed_store(instruction).register.pc == machine.register.pc + 4);
        },
        Kind::Special => {
            assert(machine.executed_special(instruction).register.pc == machine.register.pc + 4);
        },
        _ => {},
    }
}

/// Where a branch that is not taken leaves PC: four bytes on.
proof fn lemma_branch_not_taken_pc(machine: Machine, instruction: Instruction)
    requires
        machine.register.pc + 4 <= u32::MAX,
        instruction.kind() == Kind::Branch,
        !machine.takes_branch(instruction),
    ensures
        machine.executed_branch(instruction).register.pc == machine.register.pc + 4,
{
}

/// Where an instruction completed by the floating-point unit leaves PC: four bytes on.
proof fn lemma_completed_pc(machine: Machine, instruction: Instruction, result: FloatResult)
    requires
        machine.register.pc + 4 <= u32::MAX,
        instruction.kind() == Kind::Float,
    ensures
        machine.completed(instruction, result).register.pc == machine.register.pc + 4,
{
}

/// Every instruction but a branch that is taken leaves PC four bytes on; the break does too.
pub proof fn lemma_pc_advances(machine: Machine, instruction: Instruction, result: FloatResult)
    requires
        machine.can_execute(instruction),
        !machine.takes_branch(instruction),
    ensures
        !instruction.needs_float() ==> machine.executed(instruction).register.pc
            == machine.register.pc + 4,
        instruction.needs_float() ==> machine.completed(instruction, result).register.pc
            == machine.register.pc + 4,
{
    match instruction.kind() {
        Kind::Branch => {
            lemma_branch_not_taken_pc(machine, instruction);
        },
        Kind::Float => {
            lemma_completed_pc(machine, instruction, result);
        },
        _ => {
            lemma_plain_pc(machine, instruction);
        },
    }
}

/// Reducing a multiple of four modulo 2^32 gives a multiple of four.
proof fn lemma_wrap32_keeps_alignment(value: int)
    requires
        value % 4 == 0,
    ensures
        wrap32(value) % 4 == 0,
{
    let quotient = value / 0x1_0000_0000;
    assert(value == 0x1_0000_0000 * quotient + value % 0x1_0000_0000);
    assert(0x1_0000_0000 * quotient == 4 * (0x4000_0000 * quotient));
}

/// A branch from a PC that is a multiple of four goes to one.
proof fn lemma_branch_stays_aligned(machine: Machine, instruction: Instruction)
    requires
        !machine.takes_branch(instruction) ==> machine.register.pc + 4 <= u32::MAX,
        machine.register.pc % 4 == 0,
    ensures
        machine.executed_branch(instruction).register.pc % 4 == 0,
{
    let pc = machine.register.pc as int;
    let lr = machine.register.lr as int;
    let after = machine.executed_branch(instruction).register.pc;
    match instruction {
        Instruction::Bx(li, aa, lk) => {
            lemma_wrap32_keeps_alignment(li * 4);
            lemma_wrap32_keeps_alignment(pc + li * 4);
            assert(after == wrap32(li * 4) || after == wrap32(pc + li * 4));
        },
        Instruction::Bcx(bo, bi, bd, aa, lk) => {
            lemma_wrap32_keeps_alignment(bd * 4);
            lemma_wrap32_keeps_alignment(pc + bd * 4);
            assert(after == wrap32(bd * 4) || after == wrap32(pc + bd * 4) || after == pc + 4);
        },
        Instruction::Bclrx(bo, bi, lk) => {
            assert(after == lr - lr % 4 || after == pc + 4);
        },
        _ => {
            assert(after == machine.register.pc);
        },
    }
}

/// A PC that is a multiple of four stays one, whatever instruction runs.
pub proof fn lemma_pc_stays_aligned(machine: Machine, instruction: Instruction, result: FloatResult)
    requires
        machine.can_execute(instruction),
        machine.register.pc % 4 == 0,
    ensures
        machine.executed(instruction).register.pc % 4 == 0,
        machine.completed(instruction, result).register.pc % 4 == 0,
{
    lemma_completion_is_for_floats(machine, instruction, result);
    match instruction.kind() {
        Kind::Float => {
            lemma_completed_pc(machine, instruction, result);
        },
        Kind::Branch => {
            lemma_branch_stays_aligned(machine, instruction);
        },
        _ => {
            lemma_plain_pc(machine, instruction);
        },
    }
}

/// Only an instruction that asked the floating-point unit for something is completed by
/// its answer: on any other, the answer changes nothing.
pub proof fn lemma_completion_is_for_floats(
    machine: Machine,
    instruction: Instruction,
    result: FloatResult,
)
    ensures
        !instruction.needs_float() ==> machine.completed(instruction, result) == machine,
        instruction.needs_float() ==> machine.executed(instruction) == machine,
        instruction.needs_float() <==> machine.float_request(instruction) is Some,
{
}

impl RegisterFile {
    /// Writing a result back keeps the registers well formed.
    pub proof fn lemma_with_result_well_formed(
        self,
        dest: int,
        result: u32,
        oe: bool,
        overflow: bool,
        rc: bool,
    )
        requires
            self.well_formed(),
            0 <= dest < 32,
        ensures
            self.with_result(dest, result, oe, overflow, rc).well_formed(),
            self.with_result(dest, result, oe, overflow, rc).with_next_pc().well_formed(),
            self.with_carry(overflow).with_result(
                dest,
                result,
                oe,
                overflow,
                rc,
            ).with_next_pc().well_formed(),
    {
        let plain = self.with_result(dest, result, oe, overflow, rc);
        assert forall|i: int| 0 <= i < 8 implies #[trigger] plain.cr[i] < 16 by {
            assert(self.cr[i] < 16);
        }
        let carried = self.with_carry(overflow).with_result(dest, result, oe, overflow, rc);
        assert forall|i: int| 0 <= i < 8 implies #[trigger] carried.cr[i] < 16 by {
            assert(self.cr[i] < 16);
        }
    }

    /// Writing a condition field of four bits keeps the registers well formed.
    pub proof fn lemma_with_cr_well_formed(self, field: int, value: u8)
        requires
            self.well_formed(),
            0 <= field < 8,
            value < 16,
        ensures
            self.with_cr(field, value).with_next_pc().well_formed(),
    {
        let after = self.with_cr(field, value);
        assert forall|i: int| 0 <= i < 8 implies #[trigger] after.cr[i] < 16 by {
            assert(self.cr[i] < 16);
        }
    }
}

proof fn lemma_arithmetic_well_formed(machine: Machine, instruction: Instruction)
    requires
        instruction.well_formed(),
        machine.register.well_formed(),
    ensures
        machine.executed_arithmetic(instruction).register.well_formed(),
{
    let r = machine.register;
    match instruction {
        Instruction::Addx(d, a, b, oe, rc) => {
            let total = r.gpr[a as int] + r.gpr[b as int];
            r.lemma_with_result_well_formed(d as int, wrap32(total), oe, total > u32::MAX, rc);
        },
        Instruction::Addcx(d, a, b, oe, rc) => {
            let total = r.gpr[a as int] + r.gpr[b as int];
            r.lemma_with_result_well_formed(d as int, wrap32(total), oe, total > u32::MAX, rc);
        },
        Instruction::Addex(d, a, b, oe, rc) => {
            let total = r.gpr[a as int] + r.gpr[b as int] + (if r.carry() {
                1int
            } else {
                0int
            });
            r.lemma_with_result_well_formed(d as int, wrap32(total), oe, total > u32::MAX, rc);
        },
        Instruction::Subfx(d, a, b, oe, rc) => {
            let total = r.gpr[b as int] - r.gpr[a as int];
            r.lemma_with_result_well_formed(d as int, wrap32(total), oe, total < 0, rc);
        },
        Instruction::Addicdot(d, a, simm) => {
            let total = r.gpr[a as int] + wrap32(simm as int);
            r.with_carry(total > u32::MAX).lemma_with_result_well_formed(
                d as int,
                wrap32(total),
                false,
                false,
                true,
            );
        },
        Instruction::Extsbx(s, a, rc) => {
            r.lemma_with_result_well_formed(
                a as int,
                wrap32(sign_extended(r.gpr[s as int] as int, 8)),
                false,
                false,
                rc,
            );
        },
        _ => {},
    }
}

proof fn lemma_logic_well_formed(machine: Machine, instruction: Instruction)
    requires
        instruction.well_formed(),
        machine.register.well_formed(),
    ensures
        machine.executed_logic(instruction).register.well_formed(),
{
    let r = machine.register;
    match instruction {
        Instruction::Orx(s, a, b, rc) => {
            r.lemma_with_result_well_formed(
                a as int,
                r.gpr[s as int] | r.gpr[b as int],
                false,
                false,
                rc,
            );
        },
        Instruction::Nor(s, a, b, rc) => {
            r.lemma_with_result_well_formed(
                a as int,
                !(r.gpr[s as int] | r.gpr[b as int]),
                false,
                false,
                rc,
            );
        },
        Instruction::Andidot(first, second, uimm) => {
            r.lemma_with_result_well_formed(
                first as int,
                r.gpr[second as int] & (uimm as u32),
                false,
                false,
                true,
            );
        },
        Instruction::Rlwinmx(s, a, sh, mb, me, rc) => {
            r.lemma_with_result_well_formed(
                a as int,
                masked(rotated_left(r.gpr[s as int], sh as u32), mb as u32, me as u32),
                false,
                false,
                rc,
            );
        },
        Instruction::Crxor(d, a, b) => {
            crate::register::lemma_cr_bit_reads(
                r,
                d as int,
                r.cr_bit(a as int) != r.cr_bit(b as int),
                0,
            );
        },
        Instruction::Cmpli(crf, a, uimm) => {
            r.lemma_with_cr_well_formed(
                crf as int,
                comparison_field(r.gpr[a as int] as int, uimm as int, r.so()),
            );
        },
        Instruction::Cmpl(crf, a, b) => {
            r.lemma_with_cr_well_formed(
                crf as int,
                comparison_field(r.gpr[a as int] as int, r.gpr[b as int] as int, r.so()),
            );
        },
        Instruction::Cmpi(crf, a, simm) => {
            r.lemma_with_cr_well_formed(
                crf as int,
                comparison_field(signed32(r.gpr[a as int]), simm as int, r.so()),
            );
        },
        Instruction::Cmp(crf, a, b) => {
            r.lemma_with_cr_well_formed(
                crf as int,
                comparison_field(signed32(r.gpr[a as int]), signed32(r.gpr[b as int]), r.so()),
            );
        },
        _ => {},
    }
}

proof fn lemma_branch_well_formed(machine: Machine, instruction: Instruction)
    requires
        instruction.well_formed(),
        machine.register.well_formed(),
    ensures
        machine.executed_branch(instruction).register.well_formed(),
{
}

proof fn lemma_load_well_formed(machine: Machine, instruction: Instruction)
    requires
        instruction.well_formed(),
        machine.register.well_formed(),
    ensures
        machine.executed_load(instruction).register.well_formed(),
{
}

proof fn lemma_store_well_formed(machine: Machine, instruction: Instruction)
    requires
        instruction.well_formed(),
        machine.register.well_formed(),
    ensures
        machine.executed_store(instruction).register.well_formed(),
        machine.executed_special(instruction).register.well_formed(),
{
}

proof fn lemma_completed_well_formed(machine: Machine, instruction: Instruction, result: FloatResult)
    requires
        instruction.well_formed(),
        machine.register.well_formed(),
    ensures
        machine.completed(instruction, result).register.well_formed(),
{
}

/// Registers that are well formed stay so, whatever instruction runs: each bank keeps its
/// length, and each condition field stays within four bits.
pub proof fn lemma_registers_stay_well_formed(
    machine: Machine,
    instruction: Instruction,
    result: FloatResult,
)
    requires
        machine.can_execute(instruction),
        machine.register.well_formed(),
    ensures
        machine.executed(instruction).register.well_formed(),
        machine.completed(instruction, result).register.well_formed(),
{
    lemma_arithmetic_well_formed(machine, instruction);
    lemma_logic_well_formed(machine, instruction);
    lemma_branch_well_formed(machine, instruction);
    lemma_load_well_formed(machine, instruction);
    lemma_store_well_formed(machine, instruction);
    lemma_completed_well_formed(machine, instruction, result);
}

impl Machine {
    /// What holds of a machine between instructions: memory has a size that it keeps, the
    /// registers are well formed, and PC is a multiple of four.
    pub open spec fn in_order(self, ram_len: nat) -> bool {
        &&& self.ram.len() == ram_len
        &&& self.register.well_formed()
        &&& self.register.pc % 4 == 0
    }
}

/// A step keeps a machine in order and counts one instruction, with or without the
/// floating-point unit.
pub proof fn lemma_step_keeps_order(machine: Machine, ram_len: nat, result: FloatResult)
    requires
        machine.can_step(),
        machine.in_order(ram_len),
    ensures
        machine.stepped().in_order(ram_len),
        machine.stepped_with(result).in_order(ram_len),
        machine.stepped().counter == machine.counter + 1,
        machine.stepped_with(result).counter == machine.counter + 1,
{
    match machine.fetched() {
        Some(instruction) => {
            let ticked = machine.ticked();
            lemma_memory_size_kept(ticked, instruction, result);
            lemma_registers_stay_well_formed(ticked, instruction, result);
            lemma_pc_stays_aligned(ticked, instruction, result);
        },
        None => {},
    }
}

/// A run to the break keeps the machine in order at every step, and counts each one.
pub proof fn lemma_run_keeps_order(machine: Machine, ram_len: nat, steps: nat)
    requires
        machine.breaks_after(steps),
        machine.in_order(ram_len),
    ensures
        machine.after_steps(steps + 1).in_order(ram_len),
        machine.after_steps(steps + 1).counter == machine.counter + steps + 1,
    decreases steps,
{
    let unused = FloatResult { first: 0, second: 0 };
    lemma_step_keeps_order(machine, ram_len, unused);
    assert(machine.after_steps(steps + 1) == machine.stepped().after_steps(steps));
    if steps > 0 {
        lemma_run_keeps_order(machine.stepped(), ram_len, (steps - 1) as nat);
    } else {
        assert(machine.stepped().after_steps(0) == machine.stepped());
    }
}

/// A machine at the break breaks after no other step.
pub proof fn lemma_break_ends_run(machine: Machine)
    requires
        machine.can_step(),
        machine.fetched() == Some(Instruction::CustomBreak),
    ensures
        machine.breaks_after(0),
        machine.after_steps(1) == machine.stepped(),
{
    assert(machine.stepped().after_steps(0) == machine.stepped());
}

/// A machine that can take a step to a state from which the run breaks breaks one step later.
pub proof fn lemma_step_extends_run(machine: Machine, steps: nat)
    requires
        machine.can_step(),
        machine.fetched() is Some,
        machine.fetched() != Some(Instruction::CustomBreak),
        !machine.waits_for_float(),
        machine.stepped().breaks_after(steps),
    ensures
        machine.breaks_after(steps + 1),
        machine.after_steps(steps + 2) == machine.stepped().after_steps(steps + 1),
{
}

/// A run reaches its break after one number of steps only.
pub proof fn lemma_break_is_reached_once(machine: Machine, a: nat, b: nat)
    requires
        machine.breaks_after(a),
        machine.breaks_after(b),
    ensures
        a == b,
    decreases a,
{
    if a > 0 && b > 0 {
        lemma_break_is_reached_once(machine.stepped(), (a - 1) as nat, (b - 1) as nat);
    }
}

} // verus!
