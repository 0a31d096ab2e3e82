//! The architectural register file and the names of the special-purpose registers.

use vstd::prelude::*;
use crate::util::{
    bit_is_set, get_bit_value, lemma_with_bit_reads, set_bit_value, signed32, u8_get_bit,
    with_bit, wrap32,
};
use crate::BASE_RW_ADRESS;

verus! {

/// The registers of one processor. A floating-point register holds two slots of 64 bits,
/// each kept as the bit pattern of a double.
pub struct GekkoRegister {
    /// General-purpose registers.
    pub gpr: [u32; 32],
    /// Floating-point registers: slot 0 and slot 1 of each.
    pub fpr: [[u64; 2]; 32],
    /// Address of the next instruction.
    pub pc: u32,
    /// Link register.
    pub lr: u32,
    /// Integer exception register: carry at bit 29, overflow at bit 30, summary overflow at bit 31.
    pub xer: u32,
    /// The eight condition fields, each in the low four bits of its byte: LT, GT, EQ, SO.
    pub cr: [u8; 8],
    /// Count register.
    pub ctr: u32,
    /// Graphics quantization registers.
    pub qr: [u32; 8],
}

/// The mathematical model of the register file: each bank a sequence, each floating-point
/// slot a sequence of bit patterns.
#[verifier::ext_equal]
pub struct RegisterFile {
    pub gpr: Seq<u32>,
    pub ps0: Seq<u64>,
    pub ps1: Seq<u64>,
    pub pc: u32,
    pub lr: u32,
    pub xer: u32,
    pub cr: Seq<u8>,
    pub ctr: u32,
    pub qr: Seq<u32>,
}

/// Position of the carry flag in XER.
pub const XER_CA: usize = 29;

/// Position of the overflow flag in XER.
pub const XER_OV: usize = 30;

/// Position of the summary-overflow flag in XER.
pub const XER_SO: usize = 31;

/// The condition field that a comparison of `a` with `b` gives: one of LT, GT, EQ, and a copy
/// of the summary-overflow flag in the last bit.
pub open spec fn comparison_field(a: int, b: int, so: bool) -> u8 {
    let order: u8 = if a < b {
        8
    } else if a > b {
        4
    } else {
        2
    };
    if so {
        (order + 1) as u8
    } else {
        order
    }
}

impl RegisterFile {
    /// Every bank has its full length, and every condition field fits in four bits.
    pub open spec fn well_formed(self) -> bool {
        &&& self.gpr.len() == 32
        &&& self.ps0.len() == 32
        &&& self.ps1.len() == 32
        &&& self.cr.len() == 8
        &&& self.qr.len() == 8
        &&& forall|i: int| 0 <= i < 8 ==> #[trigger] self.cr[i] < 16
    }

    /// The state after power-on: all zero, PC at the base of memory.
    pub open spec fn reset() -> Self {
        RegisterFile {
            gpr: Seq::new(32, |i: int| 0u32),
            ps0: Seq::new(32, |i: int| 0u64),
            ps1: Seq::new(32, |i: int| 0u64),
            pc: BASE_RW_ADRESS,
            lr: 0,
            xer: 0,
            cr: Seq::new(8, |i: int| 0u8),
            ctr: 0,
            qr: Seq::new(8, |i: int| 0u32),
        }
    }

    /// The registers with one general-purpose register written.
    pub open spec fn with_gpr(self, nb: int, data: u32) -> Self {
        RegisterFile { gpr: self.gpr.update(nb, data), ..self }
    }

    /// The registers with slot 0 of one floating-point register written.
    pub open spec fn with_ps0(self, nb: int, bits: u64) -> Self {
        RegisterFile { ps0: self.ps0.update(nb, bits), ..self }
    }

    /// The registers with slot 1 of one floating-point register written.
    pub open spec fn with_ps1(self, nb: int, bits: u64) -> Self {
        RegisterFile { ps1: self.ps1.update(nb, bits), ..self }
    }

    /// The registers with PC set.
    pub open spec fn with_pc(self, pc: u32) -> Self {
        RegisterFile { pc, ..self }
    }

    /// The registers with the link register set.
    pub open spec fn with_lr(self, lr: u32) -> Self {
        RegisterFile { lr, ..self }
    }

    /// The registers with XER set.
    pub open spec fn with_xer(self, xer: u32) -> Self {
        RegisterFile { xer, ..self }
    }

    /// The registers with the count register set.
    pub open spec fn with_ctr(self, ctr: u32) -> Self {
        RegisterFile { ctr, ..self }
    }

    /// The registers with one condition field written.
    pub open spec fn with_cr(self, field: int, value: u8) -> Self {
        RegisterFile { cr: self.cr.update(field, value), ..self }
    }

    /// The summary-overflow flag.
    pub open spec fn so(self) -> bool {
        bit_is_set(self.xer as int, 32, XER_SO as nat)
    }

    /// The overflow flag.
    pub open spec fn ov(self) -> bool {
        bit_is_set(self.xer as int, 32, XER_OV as nat)
    }

    /// The carry flag.
    pub open spec fn carry(self) -> bool {
        bit_is_set(self.xer as int, 32, XER_CA as nat)
    }

    /// Overflow is recorded as `value`; summary overflow is raised with it and never lowered.
    pub open spec fn with_ov_so(self, value: bool) -> Self {
        let ov = with_bit(self.xer as int, 32, XER_OV as nat, value);
        self.with_xer(with_bit(ov, 32, XER_SO as nat, value || self.so()) as u32)
    }

    /// The registers with the carry flag written.
    pub open spec fn with_carry(self, value: bool) -> Self {
        self.with_xer(with_bit(self.xer as int, 32, XER_CA as nat, value) as u32)
    }

    /// CR0 after a result `value`: its sign, and the summary-overflow flag.
    pub open spec fn with_cr0(self, value: u32) -> Self {
        self.with_cr(0, comparison_field(signed32(value), 0, self.so()))
    }

    /// The registers with PC moved on by one instruction.
    pub open spec fn with_next_pc(self) -> Self {
        self.with_pc((self.pc + 4) as u32)
    }

    /// Bit `cr_bit` of the condition register, the eight fields read as one word of 32 bits.
    pub open spec fn cr_bit(self, cr_bit: int) -> bool {
        bit_is_set(self.cr[cr_bit / 4] as int, 4, (cr_bit % 4) as nat)
    }

    /// The registers with one bit of the condition register written.
    pub open spec fn with_cr_bit(self, cr_bit: int, value: bool) -> Self {
        self.with_cr(
            cr_bit / 4,
            with_bit(self.cr[cr_bit / 4] as int, 4, (cr_bit % 4) as nat, value) as u8,
        )
    }

    /// What a load or store adds its offset to: zero for register 0, else the register.
    pub open spec fn base(self, gpr_a: int) -> int {
        if gpr_a == 0 {
            0
        } else {
            self.gpr[gpr_a] as int
        }
    }

    /// Effective address of a register and a displacement.
    pub open spec fn address_d(self, gpr_a: int, d: int) -> u32 {
        wrap32(self.base(gpr_a) + d)
    }

    /// Effective address of a pair of registers.
    pub open spec fn address_x(self, gpr_a: int, gpr_b: int) -> u32 {
        wrap32(self.base(gpr_a) + self.gpr[gpr_b])
    }

    /// The special-purpose register of that name.
    pub open spec fn spr(self, spr: Spr) -> u32 {
        match spr {
            Spr::XER => self.xer,
            Spr::LR => self.lr,
            Spr::CTR => self.ctr,
        }
    }

    /// The registers with the special-purpose register of that name written.
    pub open spec fn with_spr(self, spr: Spr, value: u32) -> Self {
        match spr {
            Spr::XER => self.with_xer(value),
            Spr::LR => self.with_lr(value),
            Spr::CTR => self.with_ctr(value),
        }
    }
}

/// A condition bit reads as it was last written, and a write to one bit leaves the others.
pub proof fn lemma_cr_bit_reads(register: RegisterFile, written: int, value: bool, read: int)
    requires
        register.cr.len() == 8,
        register.cr[written / 4] < 16,
        0 <= written < 32,
        0 <= read < 32,
    ensures
        register.with_cr_bit(written, value).cr[written / 4] < 16,
        register.well_formed() ==> register.with_cr_bit(written, value).well_formed(),
        register.with_cr_bit(written, value).cr_bit(read) == (if read == written {
            value
        } else {
            register.cr_bit(read)
        }),
{
    let field = register.cr[written / 4];
    lemma_with_bit_reads(field as u32, (28 + written % 4) as nat, value, (28 + read % 4) as nat);
    let after = register.with_cr_bit(written, value);
    if register.well_formed() {
        assert forall|i: int| 0 <= i < 8 implies #[trigger] after.cr[i] < 16 by {
            assert(register.cr[i] < 16);
        }
    }
}

/// The three flags of XER are apart: a write to the carry shows in the carry alone, and an
/// overflow recorded shows in OV as given and in SO once raised, the carry staying.
pub proof fn lemma_xer_flags(register: RegisterFile, value: bool)
    ensures
        register.with_carry(value).carry() == value,
        register.with_carry(value).ov() == register.ov(),
        register.with_carry(value).so() == register.so(),
        register.with_ov_so(value).ov() == value,
        register.with_ov_so(value).so() == (register.so() || value),
        register.with_ov_so(value).carry() == register.carry(),
{
    let xer = register.xer;
    lemma_with_bit_reads(xer, XER_CA as nat, value, XER_CA as nat);
    lemma_with_bit_reads(xer, XER_CA as nat, value, XER_OV as nat);
    lemma_with_bit_reads(xer, XER_CA as nat, value, XER_SO as nat);
    lemma_with_bit_reads(xer, XER_OV as nat, value, XER_OV as nat);
    lemma_with_bit_reads(xer, XER_OV as nat, value, XER_SO as nat);
    lemma_with_bit_reads(xer, XER_OV as nat, value, XER_CA as nat);
    let ov = with_bit(xer as int, 32, XER_OV as nat, value) as u32;
    let so = value || register.so();
    lemma_with_bit_reads(ov, XER_SO as nat, so, XER_OV as nat);
    lemma_with_bit_reads(ov, XER_SO as nat, so, XER_SO as nat);
    lemma_with_bit_reads(ov, XER_SO as nat, so, XER_CA as nat);
}

impl View for GekkoRegister {
    type V = RegisterFile;

    open spec fn view(&self) -> RegisterFile {
        RegisterFile {
            gpr: self.gpr@,
            ps0: Seq::new(32, |i: int| self.fpr@[i]@[0]),
            ps1: Seq::new(32, |i: int| self.fpr@[i]@[1]),
            pc: self.pc,
            lr: self.lr,
            xer: self.xer,
            cr: self.cr@,
            ctr: self.ctr,
            qr: self.qr@,
        }
    }
}

impl Default for GekkoRegister {
    fn default() -> (r: Self)
        ensures
            r@ == RegisterFile::reset(),
    {
        let r = Self {
            gpr: [0; 32],
            fpr: [[0; 2]; 32],
            pc: BASE_RW_ADRESS,
            lr: 0,
            xer: 0,
            cr: [0; 8],
            ctr: 0,
            qr: [0; 8],
        };
        assert(r@ =~= RegisterFile::reset());
        r
    }
}

impl GekkoRegister {
    /// Reads a general-purpose register.
    pub fn get_gpr(&self, nb: u8) -> (r: u32)
        requires
            nb < 32,
        ensures
            r == self@.gpr[nb as int],
    {
        self.gpr[nb as usize]
    }

    /// Writes a general-purpose register.
    pub fn set_gpr(&mut self, nb: u8, data: u32)
        requires
            nb < 32,
        ensures
            final(self)@ == old(self)@.with_gpr(nb as int, data),
    {
        self.gpr[nb as usize] = data;
        assert(self@ =~= old(self)@.with_gpr(nb as int, data));
    }

    /// Writes a bit pattern to slot 0 of a floating-point register.
    pub fn set_fpr_ps0(&mut self, nb: u8, value: u64)
        requires
            nb < 32,
        ensures
            final(self)@ == old(self)@.with_ps0(nb as int, value),
    {
        let mut pair = self.fpr[nb as usize];
        pair[0] = value;
        self.fpr[nb as usize] = pair;
        assert(self@ =~= old(self)@.with_ps0(nb as int, value));
    }

    /// Writes a bit pattern to slot 1 of a floating-point register.
    pub fn set_fpr_ps1(&mut self, nb: u8, value: u64)
        requires
            nb < 32,
        ensures
            final(self)@ == old(self)@.with_ps1(nb as int, value),
    {
        let mut pair = self.fpr[nb as usize];
        pair[1] = value;
        self.fpr[nb as usize] = pair;
        assert(self@ =~= old(self)@.with_ps1(nb as int, value));
    }

    /// Writes one bit pattern to both slots of a floating-point register.
    pub fn set_fpr_both(&mut self, nb: u8, value: u64)
        requires
            nb < 32,
        ensures
            final(self)@ == old(self)@.with_ps0(nb as int, value).with_ps1(nb as int, value),
    {
        self.set_fpr_ps0(nb, value);
        self.set_fpr_ps1(nb, value);
    }

    /// Reads the bit pattern in slot 0 of a floating-point register.
    pub fn get_fpr_ps0(&mut self, nb: u8) -> (r: u64)
        requires
            nb < 32,
        ensures
            r == old(self)@.ps0[nb as int],
            *final(self) == *old(self),
    {
        self.fpr[nb as usize][0]
    }

    /// Reads the bit pattern in slot 1 of a floating-point register.
    pub fn get_fpr_ps1(&mut self, nb: u8) -> (r: u64)
        requires
            nb < 32,
        ensures
            r == old(self)@.ps1[nb as int],
            *final(self) == *old(self),
    {
        self.fpr[nb as usize][1]
    }

    /// Records an overflow: OV becomes `value`, and SO is raised when `value` is set.
    pub fn setxer_ov_so(&mut self, value: bool)
        ensures
            final(self)@ == old(self)@.with_ov_so(value),
    {
        proof {
            lemma_with_bit_reads(self.xer, XER_OV as nat, value, XER_SO as nat);
            let ov = with_bit(self.xer as int, 32, XER_OV as nat, value) as u32;
            lemma_with_bit_reads(ov, XER_SO as nat, true, XER_SO as nat);
            lemma_with_bit_reads(ov, XER_SO as nat, false, XER_SO as nat);
        }
        self.xer = set_bit_value(self.xer, XER_OV, value);
        if value {
            self.xer = set_bit_value(self.xer, XER_SO, true);
        }
    }

    /// Reads the summary-overflow flag.
    pub fn get_xer_so(&mut self) -> (r: bool)
        ensures
            r == old(self)@.so(),
            *final(self) == *old(self),
    {
        get_bit_value(self.xer, XER_SO)
    }

    /// Sets CR0 from the sign of `value` and the summary-overflow flag.
    pub fn update_cr0(&mut self, value: u32)
        ensures
            final(self)@ == old(self)@.with_cr0(value),
    {
        let so = self.get_xer_so();
        let order: u8 = if value >= 0x8000_0000 {
            8
        } else if value > 0 {
            4
        } else {
            2
        };
        self.cr[0] = if so {
            order + 1
        } else {
            order
        };
        assert(self@ =~= old(self)@.with_cr0(value));
    }

    /// Moves PC on by one instruction.
    pub fn increment_pc(&mut self)
        requires
            old(self).pc + 4 <= u32::MAX,
        ensures
            final(self)@ == old(self)@.with_next_pc(),
    {
        self.pc += 4;
    }

    /// Reads bit `cr_bit` of the condition register, bit 0 being LT of CR0.
    pub fn get_bit_cr(&self, cr_bit: usize) -> (r: bool)
        requires
            cr_bit < 32,
        ensures
            r == self@.cr_bit(cr_bit as int),
    {
        u8_get_bit(self.cr[cr_bit / 4], 4 + cr_bit % 4)
    }

    /// Writes bit `cr_bit` of the condition register.
    pub fn set_bit_cr(&mut self, cr_bit: usize, value: bool)
        requires
            cr_bit < 32,
            old(self)@.cr[cr_bit as int / 4] < 16,
        ensures
            final(self)@ == old(self)@.with_cr_bit(cr_bit as int, value),
    {
        let field = self.cr[cr_bit / 4];
        let r = set_bit_value(field as u32, 28 + cr_bit % 4, value);
        proof {
            lemma_with_bit_reads(field as u32, (28 + cr_bit % 4) as nat, value, 0);
        }
        self.cr[cr_bit / 4] = r as u8;
        assert(self@ =~= old(self)@.with_cr_bit(cr_bit as int, value));
    }

    /// Counts CTR down by one, from zero around to the largest word.
    pub fn decrement_ctr(&mut self)
        ensures
            final(self)@ == old(self)@.with_ctr(wrap32(old(self).ctr - 1)),
    {
        self.ctr = self.ctr.wrapping_sub(1);
    }

    /// The effective address `(gpr_a == 0 ? 0 : GPR[gpr_a]) + d`, modulo 2^32.
    pub fn compute_address_based_on_register(&self, gpr_a: u8, d: i16) -> (r: u32)
        requires
            gpr_a < 32,
        ensures
            r == self@.address_d(gpr_a as int, d as int),
    {
        let base: u32 = if gpr_a == 0 {
            0
        } else {
            self.get_gpr(gpr_a)
        };
        base.wrapping_add_signed(d as i32)
    }

    /// Reads the special-purpose register of that name.
    pub fn get_spr(&self, spr: Spr) -> (r: u32)
        ensures
            r == self@.spr(spr),
    {
        match spr {
            Spr::XER => self.xer,
            Spr::LR => self.lr,
            Spr::CTR => self.ctr,
        }
    }

    /// Writes the special-purpose register of that name.
    pub fn set_spr(&mut self, spr: Spr, value: u32)
        ensures
            final(self)@ == old(self)@.with_spr(spr, value),
    {
        match spr {
            Spr::XER => self.xer = value,
            Spr::LR => self.lr = value,
            Spr::CTR => self.ctr = value,
        }
    }

    /// The effective address `(gpr_a == 0 ? 0 : GPR[gpr_a]) + GPR[gpr_b]`, modulo 2^32.
    pub fn compute_address_based_on_pair_of_register(&self, gpr_a: u8, gpr_b: u8) -> (r: u32)
        requires
            gpr_a < 32,
            gpr_b < 32,
        ensures
            r == self@.address_x(gpr_a as int, gpr_b as int),
    {
        let base: u32 = if gpr_a == 0 {
            0
        } else {
            self.get_gpr(gpr_a)
        };
        base.wrapping_add(self.get_gpr(gpr_b))
    }

    /// Writes the carry flag.
    pub fn set_carry(&mut self, value: bool)
        ensures
            final(self)@ == old(self)@.with_carry(value),
    {
        proof {
            lemma_with_bit_reads(self.xer, XER_CA as nat, value, 0);
        }
        self.xer = set_bit_value(self.xer, XER_CA, value);
    }

    /// Reads the carry flag.
    pub fn get_carry(&self) -> (r: bool)
        ensures
            r == self@.carry(),
    {
        get_bit_value(self.xer, XER_CA)
    }

    /// Writes a condition field.
    pub fn set_cr_field(&mut self, field: u8, value: u8)
        requires
            field < 8,
        ensures
            final(self)@ == old(self)@.with_cr(field as int, value),
    {
        self.cr[field as usize] = value;
        assert(self@ =~= old(self)@.with_cr(field as int, value));
    }

    /// Tests whether every condition field fits in four bits.
    pub fn is_well_formed(&self) -> (r: bool)
        ensures
            r == self@.well_formed(),
    {
        let mut field: usize = 0;
        while field < 8
            invariant
                field <= 8,
                forall|i: int| 0 <= i < field ==> #[trigger] self@.cr[i] < 16,
            decreases 8 - field,
        {
            if self.cr[field] >= 16 {
                return false;
            }
            field += 1;
        }
        true
    }

    /// Reads a graphics quantization register.
    pub fn get_qr(&self, id: u8) -> (r: u32)
        requires
            id < 8,
        ensures
            r == self@.qr[id as int],
    {
        self.qr[id as usize]
    }
}

/// The two halves of the time base.
#[derive(Debug, PartialEq, Eq, Structural, Clone, Copy)]
pub enum Tbr {
    Tbl,
    Tbu,
}

/// The special-purpose registers that instructions name.
#[derive(Debug, PartialEq, Eq, Structural, Clone, Copy)]
pub enum Spr {
    XER,
    LR,
    CTR,
}

/// The time-base register that the ten-bit field of `mftb` names: the register's number
/// stands in the field with its two halves of five bits exchanged, so the upper half of
/// the field holds the low five bits of the number.
pub open spec fn tbr_of_field(data: u16) -> Option<Tbr> {
    if data / 32 == 12 {
        Some(Tbr::Tbl)
    } else if data / 32 == 13 {
        Some(Tbr::Tbu)
    } else {
        None
    }
}

/// The special-purpose register that the ten-bit field of `mfspr` and `mtspr` names.
pub open spec fn spr_of_field(data: u16) -> Option<Spr> {
    if data / 32 == 1 {
        Some(Spr::XER)
    } else if data / 32 == 8 {
        Some(Spr::LR)
    } else if data / 32 == 9 {
        Some(Spr::CTR)
    } else {
        None
    }
}

impl Tbr {
    /// The register a field names, if it names one.
    pub fn lookup(data: u16) -> (r: Option<Tbr>)
        ensures
            r == tbr_of_field(data),
    {
        let number = data / 32;
        if number == 12 {
            Some(Tbr::Tbl)
        } else if number == 13 {
            Some(Tbr::Tbu)
        } else {
            None
        }
    }

    /// The time-base register that the field of an `mftb` names.
    pub fn decode_from_mftb(data: u16) -> (r: Tbr)
        requires
            tbr_of_field(data) is Some,
        ensures
            Some(r) == tbr_of_field(data),
    {
        if data / 32 == 12 {
            Tbr::Tbl
        } else {
            Tbr::Tbu
        }
    }
}

impl Spr {
    /// The register a field names, if it names one.
    pub fn lookup(data: u16) -> (r: Option<Spr>)
        ensures
            r == spr_of_field(data),
    {
        let number = data / 32;
        if number == 1 {
            Some(Spr::XER)
        } else if number == 8 {
            Some(Spr::LR)
        } else if number == 9 {
            Some(Spr::CTR)
        } else {
            None
        }
    }

    /// The special-purpose register that the field of an `mfspr` or `mtspr` names.
    pub fn decode_from_mfspr(data: u16) -> (r: Spr)
        requires
            spr_of_field(data) is Some,
        ensures
            Some(r) == spr_of_field(data),
    {
        let number = data / 32;
        if number == 1 {
            Spr::XER
        } else if number == 8 {
            Spr::LR
        } else {
            Spr::CTR
        }
    }
}

} // verus!
