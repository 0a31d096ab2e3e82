//! The instruction descriptor and the decoder that produces it from an opcode word.

use vstd::prelude::*;
use crate::register::{spr_of_field, tbr_of_field, Spr, Tbr};
use crate::util::{
    bit_is_set, bit_section, extend_sign_16, extend_sign_32, get_bit_section, get_bit_value,
    sign_extended,
};

verus! {

/// One decoded instruction with its operand fields. Displacements of branches are
/// sign-extended and not yet multiplied by four.
#[allow(non_camel_case_types)]
#[derive(Debug, PartialEq, Eq, Structural, Clone, Copy)]
pub enum Instruction {
    Addx(u8, u8, u8, bool, bool),  //rD, rA, rB, OE, Rc
    Stwu(u8, u8, i16),  //rS, rA, d
    Mfspr(u8, Spr),  //rD, spr
    Cmpli(u8, u8, u16),  //crfD, rA, UIMM
    Cmpi(u8, u8, i16),  //crfD, rA, SIMM
    Cmp(u8, u8, u8),  //crfD, rA, rB
    Stw(u8, u8, i16),  //rS, rA, d
    Stmw(u8, u8, i16),  //rS, rA, d
    Orx(u8, u8, u8, bool),  //rS, rA, rB, Rc
    Bcx(u8, u8, i16, bool, bool),  //BO, BI, BD, AA, LK
    Rlwinmx(u8, u8, u8, u8, u8, bool),  //rS, rA, SH, MB, ME, Rc
    Lwz(u8, u8, i16),  //rD, rA, d
    Lwzu(u8, u8, i16),  //rD, rA, d
    Stb(u8, u8, i16),  //rS, rA, d
    Stbu(u8, u8, i16),  //rS, rA, d
    Addis(u8, u8, u16),  //rD, rA, UIMM
    Addi(u8, u8, i16),  //rD, rA, SIMM
    Bx(i32, bool, bool),  //LI, AA, LK
    Lbz(u8, u8, i16),  //rD, rA, d
    Extsbx(u8, u8, bool),  //rS, rA, Rc
    Lwzx(u8, u8, u8),  //rD, rA, rB
    Lmw(u8, u8, i16),  //rD, rA, d
    Mtspr(u8, Spr),  //rS, spr
    Bclrx(u8, u8, bool),  //BO, BI, LK
    Stwx(u8, u8, u8),  //rS, rA, rB
    Ori(u8, u8, u16),  //first, second, UIMM
    Cmpl(u8, u8, u8),  //crfD, rA, rB
    Nor(u8, u8, u8, bool),  //rS, rA, rB, Rc
    Addicdot(u8, u8, i16),  //rD, rA, SIMM
    Mftb(u8, Tbr),  //rD, tbr
    Addcx(u8, u8, u8, bool, bool),  //rD, rA, rB, OE, Rc
    Addex(u8, u8, u8, bool, bool),  //rD, rA, rB, OE, Rc
    Lhz(u8, u8, i16),  //rD, rA, d
    Andidot(u8, u8, u16),  //first, second, UIMM
    Subfx(u8, u8, u8, bool, bool),  //rD, rA, rB, OE, Rc
    Crxor(u8, u8, u8),  //crbD, crbA, crbB
    Lbzu(u8, u8, i16),  //rD, rA, d
    Lfd(u8, u8, i16),  //frD, rA, d
    Frsqrtex(u8, u8, bool),  //frD, frB, Rc
    Fmulx(u8, u8, u8, bool),  //frD, frA, frC, Rc
    Fnmsubx(u8, u8, u8, u8, bool),  //frD, frA, frB, frC, Rc
    Frspx(u8, u8, bool),  //frD, frB, Rc
    Stfs(u8, u8, i16),  //frS, rA, d
    Lfs(u8, u8, i16),  //frD, rA, d
    Stfd(u8, u8, i16),  //frS, rA, d
    Stfdu(u8, u8, i16),  //frS, rA, d
    Psq_st(u8, u8, bool, u8, i16),  //frS, rA, W, I, d
    Psq_l(u8, u8, bool, u8, i16),  //frD, rA, W, I, d
    CustomBreak,
}

/// The groups of instructions, by what they work on.
#[derive(Debug, PartialEq, Eq, Structural, Clone, Copy)]
pub enum Kind {
    /// Sums, differences and sign extension on the general-purpose registers.
    Arithmetic,
    /// Bitwise operations, rotation, comparisons, and operations on condition bits.
    Logic,
    Branch,
    /// Loads, of integers and of the raw bits of a double.
    Load,
    /// Stores, of integers and of the raw bits of a double.
    Store,
    /// Moves from and to special registers, the time base, and the break.
    Special,
    /// Instructions that compute or convert a floating-point number.
    Float,
}

/// How an instruction addresses memory, and how many bytes it touches there.
#[derive(Debug, PartialEq, Eq, Structural, Clone, Copy)]
pub enum Access {
    /// The instruction leaves memory alone.
    Nothing,
    /// A base register and a displacement: `Displacement(base, offset, size)`.
    Displacement(u8, i16, usize),
    /// A base register and an index register: `Indexed(base, index, size)`.
    Indexed(u8, u8, usize),
}

/// The five-bit field of `opcode` that starts at bit `start`: a register number.
pub open spec fn register_field(opcode: u32, start: nat) -> u8 {
    bit_section(opcode, start, 5) as u8
}

/// The three-bit field at bit 6: a condition field's number.
pub open spec fn condition_field(opcode: u32) -> u8 {
    bit_section(opcode, 6, 3) as u8
}

/// The low half of `opcode` as an unsigned immediate.
pub open spec fn unsigned_immediate(opcode: u32) -> u16 {
    bit_section(opcode, 16, 16) as u16
}

/// The low half of `opcode` as a signed immediate.
pub open spec fn signed_immediate(opcode: u32) -> i16 {
    sign_extended(bit_section(opcode, 16, 16), 16) as i16
}

/// The ten-bit field at bit 11 that names a special-purpose or time-base register.
pub open spec fn special_field(opcode: u32) -> u16 {
    bit_section(opcode, 11, 10) as u16
}

/// The flag at bit `position`.
pub open spec fn flag(opcode: u32, position: nat) -> bool {
    bit_is_set(opcode as int, 32, position)
}

/// The instruction under primary opcode 19, by its ten-bit extended opcode.
pub open spec fn decoded_19(opcode: u32) -> Option<Instruction> {
    let extended = bit_section(opcode, 21, 10);
    let d = register_field(opcode, 6);
    let a = register_field(opcode, 11);
    let b = register_field(opcode, 16);
    if extended == 16 {
        Some(Instruction::Bclrx(d, a, flag(opcode, 31)))
    } else if extended == 193 {
        Some(Instruction::Crxor(d, a, b))
    } else {
        None
    }
}

/// The instruction under primary opcode 31, by its nine-bit extended opcode.
pub open spec fn decoded_31(opcode: u32) -> Option<Instruction> {
    let extended = bit_section(opcode, 22, 9);
    let d = register_field(opcode, 6);
    let a = register_field(opcode, 11);
    let b = register_field(opcode, 16);
    let oe = flag(opcode, 21);
    let rc = flag(opcode, 31);
    if extended == 0 {
        Some(Instruction::Cmp(condition_field(opcode), a, b))
    } else if extended == 10 {
        Some(Instruction::Addcx(d, a, b, oe, rc))
    } else if extended == 23 {
        Some(Instruction::Lwzx(d, a, b))
    } else if extended == 32 {
        Some(Instruction::Cmpl(condition_field(opcode), a, b))
    } else if extended == 40 {
        Some(Instruction::Subfx(d, a, b, oe, rc))
    } else if extended == 124 {
        Some(Instruction::Nor(d, a, b, rc))
    } else if extended == 138 {
        Some(Instruction::Addex(d, a, b, oe, rc))
    } else if extended == 151 {
        Some(Instruction::Stwx(d, a, b))
    } else if extended == 266 {
        Some(Instruction::Addx(d, a, b, oe, rc))
    } else if extended == 339 {
        match spr_of_field(special_field(opcode)) {
            Some(spr) => Some(Instruction::Mfspr(d, spr)),
            None => None,
        }
    } else if extended == 371 {
        match tbr_of_field(special_field(opcode)) {
            Some(tbr) => Some(Instruction::Mftb(d, tbr)),
            None => None,
        }
    } else if extended == 442 {
        Some(Instruction::Extsbx(d, a, rc))
    } else if extended == 444 {
        Some(Instruction::Orx(d, a, b, rc))
    } else if extended == 467 {
        match spr_of_field(special_field(opcode)) {
            Some(spr) => Some(Instruction::Mtspr(d, spr)),
            None => None,
        }
    } else {
        None
    }
}

/// The floating-point instruction under primary opcode 63, by its five-bit extended opcode.
pub open spec fn decoded_63(opcode: u32) -> Option<Instruction> {
    let extended = bit_section(opcode, 26, 5);
    let d = register_field(opcode, 6);
    let a = register_field(opcode, 11);
    let b = register_field(opcode, 16);
    let c = register_field(opcode, 21);
    let rc = flag(opcode, 31);
    if extended == 12 {
        Some(Instruction::Frspx(d, b, rc))
    } else if extended == 25 {
        Some(Instruction::Fmulx(d, a, c, rc))
    } else if extended == 26 {
        Some(Instruction::Frsqrtex(d, b, rc))
    } else if extended == 30 {
        Some(Instruction::Fnmsubx(d, a, b, c, rc))
    } else {
        None
    }
}

/// The load or store with a displacement that a primary opcode from 32 to 52 names.
pub open spec fn decoded_load_store(opcode: u32) -> Option<Instruction> {
    let primary = bit_section(opcode, 0, 6);
    let d = register_field(opcode, 6);
    let a = register_field(opcode, 11);
    let offset = signed_immediate(opcode);
    if primary == 32 {
        Some(Instruction::Lwz(d, a, offset))
    } else if primary == 33 {
        Some(Instruction::Lwzu(d, a, offset))
    } else if primary == 34 {
        Some(Instruction::Lbz(d, a, offset))
    } else if primary == 35 {
        Some(Instruction::Lbzu(d, a, offset))
    } else if primary == 36 {
        Some(Instruction::Stw(d, a, offset))
    } else if primary == 37 {
        Some(Instruction::Stwu(d, a, offset))
    } else if primary == 38 {
        Some(Instruction::Stb(d, a, offset))
    } else if primary == 39 {
        Some(Instruction::Stbu(d, a, offset))
    } else if primary == 40 {
        Some(Instruction::Lhz(d, a, offset))
    } else if primary == 46 {
        Some(Instruction::Lmw(d, a, offset))
    } else if primary == 47 {
        Some(Instruction::Stmw(d, a, offset))
    } else if primary == 48 {
        Some(Instruction::Lfs(d, a, offset))
    } else if primary == 50 {
        Some(Instruction::Lfd(d, a, offset))
    } else if primary == 52 {
        Some(Instruction::Stfs(d, a, offset))
    } else {
        None
    }
}

/// The instruction that an opcode word encodes, if it encodes one: the primary opcode is
/// the field of six bits at bit 0, and the groups 19, 31, 59 and 63 go on by an extended one.
pub open spec fn decoded(opcode: u32) -> Option<Instruction> {
    let primary = bit_section(opcode, 0, 6);
    let d = register_field(opcode, 6);
    let a = register_field(opcode, 11);
    let b = register_field(opcode, 16);
    if primary == 10 {
        Some(Instruction::Cmpli(condition_field(opcode), a, unsigned_immediate(opcode)))
    } else if primary == 11 {
        Some(Instruction::Cmpi(condition_field(opcode), a, signed_immediate(opcode)))
    } else if primary == 13 {
        Some(Instruction::Addicdot(d, a, signed_immediate(opcode)))
    } else if primary == 14 {
        Some(Instruction::Addi(d, a, signed_immediate(opcode)))
    } else if primary == 15 {
        Some(Instruction::Addis(d, a, unsigned_immediate(opcode)))
    } else if primary == 16 {
        Some(
            Instruction::Bcx(
                d,
                a,
                sign_extended(bit_section(opcode, 16, 14), 14) as i16,
                flag(opcode, 30),
                flag(opcode, 31),
            ),
        )
    } else if primary == 18 {
        Some(
            Instruction::Bx(
                sign_extended(bit_section(opcode, 6, 24), 24) as i32,
                flag(opcode, 30),
                flag(opcode, 31),
            ),
        )
    } else if primary == 19 {
        decoded_19(opcode)
    } else if primary == 21 {
        Some(
            Instruction::Rlwinmx(
                d,
                a,
                b,
                register_field(opcode, 21),
                register_field(opcode, 26),
                flag(opcode, 31),
            ),
        )
    } else if primary == 24 {
        Some(Instruction::Ori(d, a, unsigned_immediate(opcode)))
    } else if primary == 28 {
        Some(Instruction::Andidot(d, a, unsigned_immediate(opcode)))
    } else if primary == 31 {
        decoded_31(opcode)
    } else if 32 <= primary <= 52 {
        decoded_load_store(opcode)
    } else if primary == 59 {
        if bit_section(opcode, 26, 5) == 0 {
            Some(Instruction::CustomBreak)
        } else {
            None
        }
    } else if primary == 63 {
        decoded_63(opcode)
    } else {
        None
    }
}

impl Instruction {
    /// Every operand names something that exists: a register below 32, a condition field
    /// below 8, a condition bit, a shift or a mask bound below 32, a quantization register
    /// below 8; and a long branch's displacement fits in 24 bits, a conditional branch's in 14.
    pub open spec fn well_formed(self) -> bool {
        match self {
            Instruction::Addx(d, a, b, _, _) => d < 32 && a < 32 && b < 32,
            Instruction::Addcx(d, a, b, _, _) => d < 32 && a < 32 && b < 32,
            Instruction::Addex(d, a, b, _, _) => d < 32 && a < 32 && b < 32,
            Instruction::Subfx(d, a, b, _, _) => d < 32 && a < 32 && b < 32,
            Instruction::Orx(s, a, b, _) => s < 32 && a < 32 && b < 32,
            Instruction::Nor(s, a, b, _) => s < 32 && a < 32 && b < 32,
            Instruction::Lwzx(d, a, b) => d < 32 && a < 32 && b < 32,
            Instruction::Stwx(s, a, b) => s < 32 && a < 32 && b < 32,
            Instruction::Crxor(d, a, b) => d < 32 && a < 32 && b < 32,
            Instruction::Cmp(crf, a, b) => crf < 8 && a < 32 && b < 32,
            Instruction::Cmpl(crf, a, b) => crf < 8 && a < 32 && b < 32,
            Instruction::Cmpli(crf, a, _) => crf < 8 && a < 32,
            Instruction::Cmpi(crf, a, _) => crf < 8 && a < 32,
            Instruction::Stwu(s, a, _) => s < 32 && a < 32,
            Instruction::Stw(s, a, _) => s < 32 && a < 32,
            Instruction::Stmw(s, a, _) => s < 32 && a < 32,
            Instruction::Stb(s, a, _) => s < 32 && a < 32,
            Instruction::Stbu(s, a, _) => s < 32 && a < 32,
            Instruction::Lwz(d, a, _) => d < 32 && a < 32,
            Instruction::Lwzu(d, a, _) => d < 32 && a < 32,
            Instruction::Lbz(d, a, _) => d < 32 && a < 32,
            Instruction::Lbzu(d, a, _) => d < 32 && a < 32,
            Instruction::Lhz(d, a, _) => d < 32 && a < 32,
            Instruction::Lmw(d, a, _) => d < 32 && a < 32,
            Instruction::Lfd(d, a, _) => d < 32 && a < 32,
            Instruction::Lfs(d, a, _) => d < 32 && a < 32,
            Instruction::Stfs(s, a, _) => s < 32 && a < 32,
            Instruction::Stfd(s, a, _) => s < 32 && a < 32,
            Instruction::Stfdu(s, a, _) => s < 32 && a < 32,
            Instruction::Psq_st(s, a, _, i, _) => s < 32 && a < 32 && i < 8,
            Instruction::Psq_l(d, a, _, i, _) => d < 32 && a < 32 && i < 8,
            Instruction::Addis(d, a, _) => d < 32 && a < 32,
            Instruction::Addi(d, a, _) => d < 32 && a < 32,
            Instruction::Addicdot(d, a, _) => d < 32 && a < 32,
            Instruction::Ori(d, a, _) => d < 32 && a < 32,
            Instruction::Andidot(d, a, _) => d < 32 && a < 32,
            Instruction::Extsbx(s, a, _) => s < 32 && a < 32,
            Instruction::Mfspr(d, _) => d < 32,
            Instruction::Mtspr(s, _) => s < 32,
            Instruction::Mftb(d, _) => d < 32,
            Instruction::Bcx(bo, bi, bd, _, _) => bo < 32 && bi < 32 && -0x2000 <= bd < 0x2000,
            Instruction::Bclrx(bo, bi, _) => bo < 32 && bi < 32,
            Instruction::Bx(li, _, _) => -0x80_0000 <= li < 0x80_0000,
            Instruction::Rlwinmx(s, a, sh, mb, me, _) => s < 32 && a < 32 && sh < 32 && mb < 32
                && me < 32,
            Instruction::Frsqrtex(d, b, _) => d < 32 && b < 32,
            Instruction::Frspx(d, b, _) => d < 32 && b < 32,
            Instruction::Fmulx(d, a, c, _) => d < 32 && a < 32 && c < 32,
            Instruction::Fnmsubx(d, a, b, c, _) => d < 32 && a < 32 && b < 32 && c < 32,
            Instruction::CustomBreak => true,
        }
    }

    /// The group that the instruction belongs to.
    pub open spec fn kind(self) -> Kind {
        match self {
            Instruction::Addx(..) => Kind::Arithmetic,
            Instruction::Addcx(..) => Kind::Arithmetic,
            Instruction::Addex(..) => Kind::Arithmetic,
            Instruction::Subfx(..) => Kind::Arithmetic,
            Instruction::Addi(..) => Kind::Arithmetic,
            Instruction::Addis(..) => Kind::Arithmetic,
            Instruction::Addicdot(..) => Kind::Arithmetic,
            Instruction::Extsbx(..) => Kind::Arithmetic,
            Instruction::Orx(..) => Kind::Logic,
            Instruction::Nor(..) => Kind::Logic,
            Instruction::Ori(..) => Kind::Logic,
            Instruction::Andidot(..) => Kind::Logic,
            Instruction::Crxor(..) => Kind::Logic,
            Instruction::Rlwinmx(..) => Kind::Logic,
            Instruction::Cmpli(..) => Kind::Logic,
            Instruction::Cmpl(..) => Kind::Logic,
            Instruction::Cmpi(..) => Kind::Logic,
            Instruction::Cmp(..) => Kind::Logic,
            Instruction::Bx(..) => Kind::Branch,
            Instruction::Bcx(..) => Kind::Branch,
            Instruction::Bclrx(..) => Kind::Branch,
            Instruction::Lwz(..) => Kind::Load,
            Instruction::Lwzu(..) => Kind::Load,
            Instruction::Lwzx(..) => Kind::Load,
            Instruction::Lbz(..) => Kind::Load,
            Instruction::Lbzu(..) => Kind::Load,
            Instruction::Lhz(..) => Kind::Load,
            Instruction::Lmw(..) => Kind::Load,
            Instruction::Lfd(..) => Kind::Load,
            Instruction::Stw(..) => Kind::Store,
            Instruction::Stwu(..) => Kind::Store,
            Instruction::Stwx(..) => Kind::Store,
            Instruction::Stb(..) => Kind::Store,
            Instruction::Stbu(..) => Kind::Store,
            Instruction::Stmw(..) => Kind::Store,
            Instruction::Stfd(..) => Kind::Store,
            Instruction::Stfdu(..) => Kind::Store,
            Instruction::Mfspr(..) => Kind::Special,
            Instruction::Mtspr(..) => Kind::Special,
            Instruction::Mftb(..) => Kind::Special,
            Instruction::CustomBreak => Kind::Special,
            Instruction::Frsqrtex(..) => Kind::Float,
            Instruction::Fmulx(..) => Kind::Float,
            Instruction::Fnmsubx(..) => Kind::Float,
            Instruction::Frspx(..) => Kind::Float,
            Instruction::Stfs(..) => Kind::Float,
            Instruction::Lfs(..) => Kind::Float,
            Instruction::Psq_st(..) => Kind::Float,
            Instruction::Psq_l(..) => Kind::Float,
        }
    }

    /// Tells the group that the instruction belongs to.
    pub fn get_kind(&self) -> (r: Kind)
        ensures
            r == self.kind(),
    {
        match *self {
            Instruction::Addx(..)
            | Instruction::Addcx(..)
            | Instruction::Addex(..)
            | Instruction::Subfx(..)
            | Instruction::Addi(..)
            | Instruction::Addis(..)
            | Instruction::Addicdot(..)
            | Instruction::Extsbx(..) => Kind::Arithmetic,
            Instruction::Orx(..)
            | Instruction::Nor(..)
            | Instruction::Ori(..)
            | Instruction::Andidot(..)
            | Instruction::Crxor(..)
            | Instruction::Rlwinmx(..)
            | Instruction::Cmpli(..)
            | Instruction::Cmpl(..)
            | Instruction::Cmpi(..)
            | Instruction::Cmp(..) => Kind::Logic,
            Instruction::Bx(..) | Instruction::Bcx(..) | Instruction::Bclrx(..) => Kind::Branch,
            Instruction::Lwz(..)
            | Instruction::Lwzu(..)
            | Instruction::Lwzx(..)
            | Instruction::Lbz(..)
            | Instruction::Lbzu(..)
            | Instruction::Lhz(..)
            | Instruction::Lmw(..)
            | Instruction::Lfd(..) => Kind::Load,
            Instruction::Stw(..)
            | Instruction::Stwu(..)
            | Instruction::Stwx(..)
            | Instruction::Stb(..)
            | Instruction::Stbu(..)
            | Instruction::Stmw(..)
            | Instruction::Stfd(..)
            | Instruction::Stfdu(..) => Kind::Store,
            Instruction::Mfspr(..)
            | Instruction::Mtspr(..)
            | Instruction::Mftb(..)
            | Instruction::CustomBreak => Kind::Special,
            Instruction::Frsqrtex(..)
            | Instruction::Fmulx(..)
            | Instruction::Fnmsubx(..)
            | Instruction::Frspx(..)
            | Instruction::Stfs(..)
            | Instruction::Lfs(..)
            | Instruction::Psq_st(..)
            | Instruction::Psq_l(..) => Kind::Float,
        }
    }

    /// The memory that the instruction reads or writes, by the registers that address it.
    pub open spec fn access(self) -> Access {
        match self {
            Instruction::Lwz(_, a, d) => Access::Displacement(a, d, 4),
            Instruction::Lwzu(_, a, d) => Access::Displacement(a, d, 4),
            Instruction::Lwzx(_, a, b) => Access::Indexed(a, b, 4),
            Instruction::Lbz(_, a, d) => Access::Displacement(a, d, 1),
            Instruction::Lbzu(_, a, d) => Access::Displacement(a, d, 1),
            Instruction::Lhz(_, a, d) => Access::Displacement(a, d, 2),
            Instruction::Lmw(first, a, d) => Access::Displacement(a, d, (4 * (32 - first)) as usize),
            Instruction::Lfd(_, a, d) => Access::Displacement(a, d, 8),
            Instruction::Lfs(_, a, d) => Access::Displacement(a, d, 4),
            Instruction::Stw(_, a, d) => Access::Displacement(a, d, 4),
            Instruction::Stwu(_, a, d) => Access::Displacement(a, d, 4),
            Instruction::Stwx(_, a, b) => Access::Indexed(a, b, 4),
            Instruction::Stb(_, a, d) => Access::Displacement(a, d, 1),
            Instruction::Stbu(_, a, d) => Access::Displacement(a, d, 1),
            Instruction::Stmw(first, a, d) => Access::Displacement(
                a,
                d,
                (4 * (32 - first)) as usize,
            ),
            Instruction::Stfs(_, a, d) => Access::Displacement(a, d, 4),
            Instruction::Stfd(_, a, d) => Access::Displacement(a, d, 8),
            Instruction::Stfdu(_, a, d) => Access::Displacement(a, d, 8),
            Instruction::Psq_st(_, a, w, _, d) => Access::Displacement(
                a,
                d,
                if w {
                    4
                } else {
                    8
                },
            ),
            Instruction::Psq_l(_, a, w, _, d) => Access::Displacement(
                a,
                d,
                if w {
                    4
                } else {
                    8
                },
            ),
            _ => Access::Nothing,
        }
    }

    /// Tells the memory that the instruction reads or writes.
    pub fn get_access(&self) -> (r: Access)
        requires
            self.well_formed(),
        ensures
            r == self.access(),
    {
        match *self {
            Instruction::Lwz(_, a, d)
            | Instruction::Lwzu(_, a, d)
            | Instruction::Lfs(_, a, d)
            | Instruction::Stw(_, a, d)
            | Instruction::Stwu(_, a, d)
            | Instruction::Stfs(_, a, d) => Access::Displacement(a, d, 4),
            Instruction::Lwzx(_, a, b) | Instruction::Stwx(_, a, b) => Access::Indexed(a, b, 4),
            Instruction::Lbz(_, a, d)
            | Instruction::Lbzu(_, a, d)
            | Instruction::Stb(_, a, d)
            | Instruction::Stbu(_, a, d) => Access::Displacement(a, d, 1),
            Instruction::Lhz(_, a, d) => Access::Displacement(a, d, 2),
            Instruction::Lmw(first, a, d) | Instruction::Stmw(first, a, d) => Access::Displacement(
                a,
                d,
                4 * (32 - first as usize),
            ),
            Instruction::Lfd(_, a, d)
            | Instruction::Stfd(_, a, d)
            | Instruction::Stfdu(_, a, d) => Access::Displacement(a, d, 8),
            Instruction::Psq_st(_, a, w, _, d) | Instruction::Psq_l(_, a, w, _, d) => {
                Access::Displacement(
                    a,
                    d,
                    if w {
                        4
                    } else {
                        8
                    },
                )
            },
            _ => Access::Nothing,
        }
    }

    /// Tests whether every operand names something that exists.
    pub fn is_well_formed(&self) -> (r: bool)
        ensures
            r == self.well_formed(),
    {
        match *self {
            Instruction::Addx(d, a, b, _, _) => d < 32 && a < 32 && b < 32,
            Instruction::Addcx(d, a, b, _, _) => d < 32 && a < 32 && b < 32,
            Instruction::Addex(d, a, b, _, _) => d < 32 && a < 32 && b < 32,
            Instruction::Subfx(d, a, b, _, _) => d < 32 && a < 32 && b < 32,
            Instruction::Orx(s, a, b, _) => s < 32 && a < 32 && b < 32,
            Instruction::Nor(s, a, b, _) => s < 32 && a < 32 && b < 32,
            Instruction::Lwzx(d, a, b) => d < 32 && a < 32 && b < 32,
            Instruction::Stwx(s, a, b) => s < 32 && a < 32 && b < 32,
            Instruction::Crxor(d, a, b) => d < 32 && a < 32 && b < 32,
            Instruction::Cmp(crf, a, b) => crf < 8 && a < 32 && b < 32,
            Instruction::Cmpl(crf, a, b) => crf < 8 && a < 32 && b < 32,
            Instruction::Cmpli(crf, a, _) => crf < 8 && a < 32,
            Instruction::Cmpi(crf, a, _) => crf < 8 && a < 32,
            Instruction::Stwu(s, a, _) => s < 32 && a < 32,
            Instruction::Stw(s, a, _) => s < 32 && a < 32,
            Instruction::Stmw(s, a, _) => s < 32 && a < 32,
            Instruction::Stb(s, a, _) => s < 32 && a < 32,
            Instruction::Stbu(s, a, _) => s < 32 && a < 32,
            Instruction::Lwz(d, a, _) => d < 32 && a < 32,
            Instruction::Lwzu(d, a, _) => d < 32 && a < 32,
            Instruction::Lbz(d, a, _) => d < 32 && a < 32,
            Instruction::Lbzu(d, a, _) => d < 32 && a < 32,
            Instruction::Lhz(d, a, _) => d < 32 && a < 32,
            Instruction::Lmw(d, a, _) => d < 32 && a < 32,
            Instruction::Lfd(d, a, _) => d < 32 && a < 32,
            Instruction::Lfs(d, a, _) => d < 32 && a < 32,
            Instruction::Stfs(s, a, _) => s < 32 && a < 32,
            Instruction::Stfd(s, a, _) => s < 32 && a < 32,
            Instruction::Stfdu(s, a, _) => s < 32 && a < 32,
            Instruction::Psq_st(s, a, _, i, _) => s < 32 && a < 32 && i < 8,
            Instruction::Psq_l(d, a, _, i, _) => d < 32 && a < 32 && i < 8,
            Instruction::Addis(d, a, _) => d < 32 && a < 32,
            Instruction::Addi(d, a, _) => d < 32 && a < 32,
            Instruction::Addicdot(d, a, _) => d < 32 && a < 32,
            Instruction::Ori(d, a, _) => d < 32 && a < 32,
            Instruction::Andidot(d, a, _) => d < 32 && a < 32,
            Instruction::Extsbx(s, a, _) => s < 32 && a < 32,
            Instruction::Mfspr(d, _) => d < 32,
            Instruction::Mtspr(s, _) => s < 32,
            Instruction::Mftb(d, _) => d < 32,
            Instruction::Bcx(bo, bi, bd, _, _) => bo < 32 && bi < 32 && -0x2000 <= bd && bd
                < 0x2000,
            Instruction::Bclrx(bo, bi, _) => bo < 32 && bi < 32,
            Instruction::Bx(li, _, _) => -0x80_0000 <= li && li < 0x80_0000,
            Instruction::Rlwinmx(s, a, sh, mb, me, _) => s < 32 && a < 32 && sh < 32 && mb < 32
                && me < 32,
            Instruction::Frsqrtex(d, b, _) => d < 32 && b < 32,
            Instruction::Frspx(d, b, _) => d < 32 && b < 32,
            Instruction::Fmulx(d, a, c, _) => d < 32 && a < 32 && c < 32,
            Instruction::Fnmsubx(d, a, b, c, _) => d < 32 && a < 32 && b < 32 && c < 32,
            Instruction::CustomBreak => true,
        }
    }

    /// Decodes an opcode word; `None` for a word that encodes no instruction known here.
    pub fn decode_instruction(opcode: u32) -> (r: Option<Instruction>)
        ensures
            r == decoded(opcode),
            r matches Some(instruction) ==> instruction.well_formed(),
    {
        let primary_opcode = get_bit_section(opcode, 0, 6);
        Some(
            match primary_opcode {
                10 => Instruction::Cmpli(
                    read_condition_field(opcode),
                    read_register(opcode, 11),
                    read_unsigned(opcode),
                ),
                11 => Instruction::Cmpi(
                    read_condition_field(opcode),
                    read_register(opcode, 11),
                    read_signed(opcode),
                ),
                13 => Instruction::Addicdot(
                    read_register(opcode, 6),
                    read_register(opcode, 11),
                    read_signed(opcode),
                ),
                14 => Instruction::Addi(
                    read_register(opcode, 6),
                    read_register(opcode, 11),
                    read_signed(opcode),
                ),
                15 => Instruction::Addis(
                    read_register(opcode, 6),
                    read_register(opcode, 11),
                    read_unsigned(opcode),
                ),
                16 => {
                    Instruction::Bcx(
                        read_register(opcode, 6),
                        read_register(opcode, 11),
                        extend_sign_16(get_bit_section(opcode, 16, 14) as u16, 14),
                        get_bit_value(opcode, 30),
                        get_bit_value(opcode, 31),
                    )
                },
                18 => {
                    Instruction::Bx(
                        extend_sign_32(get_bit_section(opcode, 6, 24), 24),
                        get_bit_value(opcode, 30),
                        get_bit_value(opcode, 31),
                    )
                },
                19 => {
                    let secondary_opcode = get_bit_section(opcode, 21, 10);
                    match secondary_opcode {
                        16 => Instruction::Bclrx(
                            read_register(opcode, 6),
                            read_register(opcode, 11),
                            get_bit_value(opcode, 31),
                        ),
                        193 => Instruction::Crxor(
                            read_register(opcode, 6),
                            read_register(opcode, 11),
                            read_register(opcode, 16),
                        ),
                        _ => return None,
                    }
                },
                21 => Instruction::Rlwinmx(
                    read_register(opcode, 6),
                    read_register(opcode, 11),
                    read_register(opcode, 16),
                    read_register(opcode, 21),
                    read_register(opcode, 26),
                    get_bit_value(opcode, 31),
                ),
                24 => Instruction::Ori(
                    read_register(opcode, 6),
                    read_register(opcode, 11),
                    read_unsigned(opcode),
                ),
                28 => Instruction::Andidot(
                    read_register(opcode, 6),
                    read_register(opcode, 11),
                    read_unsigned(opcode),
                ),
                31 => return decode_31(opcode),
                32 => Instruction::Lwz(
                    read_register(opcode, 6),
                    read_register(opcode, 11),
                    read_signed(opcode),
                ),
                33 => Instruction::Lwzu(
                    read_register(opcode, 6),
                    read_register(opcode, 11),
                    read_signed(opcode),
                ),
                34 => Instruction::Lbz(
                    read_register(opcode, 6),
                    read_register(opcode, 11),
                    read_signed(opcode),
                ),
                35 => Instruction::Lbzu(
                    read_register(opcode, 6),
                    read_register(opcode, 11),
                    read_signed(opcode),
                ),
                36 => Instruction::Stw(
                    read_register(opcode, 6),
                    read_register(opcode, 11),
                    read_signed(opcode),
                ),
                37 => Instruction::Stwu(
                    read_register(opcode, 6),
                    read_register(opcode, 11),
                    read_signed(opcode),
                ),
                38 => Instruction::Stb(
                    read_register(opcode, 6),
                    read_register(opcode, 11),
                    read_signed(opcode),
                ),
                39 => Instruction::Stbu(
                    read_register(opcode, 6),
                    read_register(opcode, 11),
                    read_signed(opcode),
                ),
                40 => Instruction::Lhz(
                    read_register(opcode, 6),
                    read_register(opcode, 11),
                    read_signed(opcode),
                ),
                46 => Instruction::Lmw(
                    read_register(opcode, 6),
                    read_register(opcode, 11),
                    read_signed(opcode),
                ),
                47 => Instruction::Stmw(
                    read_register(opcode, 6),
                    read_register(opcode, 11),
                    read_signed(opcode),
                ),
                48 => Instruction::Lfs(
                    read_register(opcode, 6),
                    read_register(opcode, 11),
                    read_signed(opcode),
                ),
                50 => Instruction::Lfd(
                    read_register(opcode, 6),
                    read_register(opcode, 11),
                    read_signed(opcode),
                ),
                52 => Instruction::Stfs(
                    read_register(opcode, 6),
                    read_register(opcode, 11),
                    read_signed(opcode),
                ),
                59 => {
                    let extended_opcode = get_bit_section(opcode, 26, 5);
                    match extended_opcode {
                        // the break that this interpreter adds to the instruction set
                        0 => Instruction::CustomBreak,
                        _ => return None,
                    }
                },
                63 => {
                    let upper_extended_opcode = get_bit_section(opcode, 26, 5);
                    match upper_extended_opcode {
                        12 => Instruction::Frspx(
                            read_register(opcode, 6),
                            read_register(opcode, 16),
                            get_bit_value(opcode, 31),
                        ),
                        25 => Instruction::Fmulx(
                            read_register(opcode, 6),
                            read_register(opcode, 11),
                            read_register(opcode, 21),
                            get_bit_value(opcode, 31),
                        ),
                        30 => Instruction::Fnmsubx(
                            read_register(opcode, 6),
                            read_register(opcode, 11),
                            read_register(opcode, 16),
                            read_register(opcode, 21),
                            get_bit_value(opcode, 31),
                        ),
                        26 => Instruction::Frsqrtex(
                            read_register(opcode, 6),
                            read_register(opcode, 16),
                            get_bit_value(opcode, 31),
                        ),
                        _ => return None,
                    }
                },
                _ => return None,
            },
        )
    }
}

/// Reads the register number at bit `start`.
fn read_register(opcode: u32, start: usize) -> (r: u8)
    requires
        start + 5 <= 32,
    ensures
        r == register_field(opcode, start as nat),
        r < 32,
{
    get_bit_section(opcode, start, 5) as u8
}

/// Reads the number of the condition field at bit 6.
fn read_condition_field(opcode: u32) -> (r: u8)
    ensures
        r == condition_field(opcode),
        r < 8,
{
    get_bit_section(opcode, 6, 3) as u8
}

/// Reads the low half as an unsigned immediate.
fn read_unsigned(opcode: u32) -> (r: u16)
    ensures
        r == unsigned_immediate(opcode),
{
    get_bit_section(opcode, 16, 16) as u16
}

/// Reads the low half as a signed immediate.
fn read_signed(opcode: u32) -> (r: i16)
    ensures
        r == signed_immediate(opcode),
{
    extend_sign_16(get_bit_section(opcode, 16, 16) as u16, 16)
}

/// Reads the field that names a special-purpose or time-base register.
fn read_special(opcode: u32) -> (r: u16)
    ensures
        r == special_field(opcode),
{
    get_bit_section(opcode, 11, 10) as u16
}

/// Decodes the group of primary opcode 31.
fn decode_31(opcode: u32) -> (r: Option<Instruction>)
    ensures
        r == decoded_31(opcode),
        r matches Some(instruction) ==> instruction.well_formed(),
{
    let extended_opcode = get_bit_section(opcode, 22, 9);
    Some(
        match extended_opcode {
            0 => Instruction::Cmp(
                read_condition_field(opcode),
                read_register(opcode, 11),
                read_register(opcode, 16),
            ),
            10 => Instruction::Addcx(
                read_register(opcode, 6),
                read_register(opcode, 11),
                read_register(opcode, 16),
                get_bit_value(opcode, 21),
                get_bit_value(opcode, 31),
            ),
            23 => Instruction::Lwzx(
                read_register(opcode, 6),
                read_register(opcode, 11),
                read_register(opcode, 16),
            ),
            32 => Instruction::Cmpl(
                read_condition_field(opcode),
                read_register(opcode, 11),
                read_register(opcode, 16),
            ),
            40 => Instruction::Subfx(
                read_register(opcode, 6),
                read_register(opcode, 11),
                read_register(opcode, 16),
                get_bit_value(opcode, 21),
                get_bit_value(opcode, 31),
            ),
            124 => Instruction::Nor(
                read_register(opcode, 6),
                read_register(opcode, 11),
                read_register(opcode, 16),
                get_bit_value(opcode, 31),
            ),
            138 => Instruction::Addex(
                read_register(opcode, 6),
                read_register(opcode, 11),
                read_register(opcode, 16),
                get_bit_value(opcode, 21),
                get_bit_value(opcode, 31),
            ),
            151 => Instruction::Stwx(
                read_register(opcode, 6),
                read_register(opcode, 11),
                read_register(opcode, 16),
            ),
            266 => Instruction::Addx(
                read_register(opcode, 6),
                read_register(opcode, 11),
                read_register(opcode, 16),
                get_bit_value(opcode, 21),
                get_bit_value(opcode, 31),
            ),
            339 => match Spr::lookup(read_special(opcode)) {
                Some(spr) => Instruction::Mfspr(read_register(opcode, 6), spr),
                None => return None,
            },
            371 => match Tbr::lookup(read_special(opcode)) {
                Some(tbr) => Instruction::Mftb(read_register(opcode, 6), tbr),
                None => return None,
            },
            442 => Instruction::Extsbx(
                read_register(opcode, 6),
                read_register(opcode, 11),
                get_bit_value(opcode, 31),
            ),
            444 => Instruction::Orx(
                read_register(opcode, 6),
                read_register(opcode, 11),
                read_register(opcode, 16),
                get_bit_value(opcode, 31),
            ),
            467 => match Spr::lookup(read_special(opcode)) {
                Some(spr) => Instruction::Mtspr(read_register(opcode, 6), spr),
                None => return None,
            },
            _ => return None,
        },
    )
}

/// Every operand of a decoded instruction names something that exists.
pub proof fn lemma_decoded_well_formed(opcode: u32)
    ensures
        decoded(opcode) matches Some(instruction) ==> instruction.well_formed(),
{
}

/// The break opcode decodes to the break.
pub proof fn lemma_break_opcode_decodes()
    ensures
        decoded(crate::OPCODE_BREAK) == Some(Instruction::CustomBreak),
{
}

/// The break has primary opcode 59 and extended opcode 0, and no other word decodes to it:
/// it shares its encoding with no other instruction.
pub proof fn lemma_break_encoding(opcode: u32)
    ensures
        decoded(opcode) == Some(Instruction::CustomBreak) <==> (bit_section(opcode, 0, 6) == 59
            && bit_section(opcode, 26, 5) == 0),
{
}

} // verus!
