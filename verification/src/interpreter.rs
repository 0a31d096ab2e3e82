//! The processor: memory image, register file and instruction count, and the engine that
//! runs instructions on them.

use vstd::prelude::*;
use crate::machine::{
    byte_at, double_at, half_at, in_range, lemma_double_round_trip, lemma_word_round_trip,
    with_byte, with_double, with_word, word_at, word_byte, zeroed, Machine,
};
use crate::float::{FloatOp, FloatResult};
use crate::instruction::Instruction;
use crate::register::GekkoRegister;
use crate::semantics::{decode_failure, lemma_break_is_reached_once, lemma_one_more_step};
use crate::BASE_RW_ADRESS;

verus! {

/// What a step reports to the host.
#[derive(Debug, PartialEq, Eq, Structural, Clone, Copy)]
pub enum BreakData {
    /// The instruction ran and nothing happened that the host has to know of.
    Nothing,
    /// The instruction was the break.
    Break,
}

/// One processor with its memory.
pub struct GekkoInterpreter {
    /// The memory image; its first byte has the address `BASE_RW_ADRESS`.
    pub ram: Vec<u8>,
    /// The registers.
    pub register: GekkoRegister,
    /// The number of steps taken.
    pub counter: u64,
}

impl View for GekkoInterpreter {
    type V = Machine;

    open spec fn view(&self) -> Machine {
        Machine { ram: self.ram@, register: self.register@, counter: self.counter }
    }
}

impl GekkoInterpreter {
    /// A processor with `ram_amount` bytes of zeroed memory, at the start of it.
    pub fn new(ram_amount: usize) -> (r: GekkoInterpreter)
        ensures
            r@ == Machine::fresh(ram_amount as nat),
    {
        let r = GekkoInterpreter {
            ram: vec![0; ram_amount],
            register: GekkoRegister::default(),
            counter: 0,
        };
        assert(r@.ram =~= zeroed(ram_amount as nat));
        r
    }

    /// The time base, which advances once in eight steps.
    pub fn get_timebase(&self) -> (r: u64)
        ensures
            r == self@.timebase(),
    {
        self.counter / 8
    }

    /// Exchanges the memory image for another and hands the old one back.
    pub fn replace_memory(&mut self, new_ram: Vec<u8>) -> (r: Vec<u8>)
        ensures
            final(self)@ == old(self)@.with_ram(new_ram@),
            r@ == old(self)@.ram,
    {
        let mut new_ram = new_ram;
        core::mem::swap(&mut self.ram, &mut new_ram);
        new_ram
    }

    /// Zeroes memory, keeping its size, and resets the registers.
    pub fn reboot(&mut self)
        ensures
            final(self)@ == old(self)@.rebooted(),
    {
        self.ram = vec![0; self.ram.len()];
        self.register = GekkoRegister::default();
        assert(self@.ram =~= zeroed(old(self)@.ram.len()));
    }

    /// The memory image.
    pub fn get_ram(&self) -> (r: &Vec<u8>)
        ensures
            r@ == self@.ram,
    {
        &self.ram
    }

    /// Whether the `size` bytes from `offset` on lie in memory.
    pub fn is_in_range(&self, offset: u32, size: usize) -> (r: bool)
        ensures
            r == in_range(self@.ram, offset as int, size as int),
    {
        offset >= BASE_RW_ADRESS && size <= self.ram.len() && (offset - BASE_RW_ADRESS) as usize
            <= self.ram.len() - size
    }

    /// Stores a word at a virtual address, most significant byte first.
    pub fn write_u32(&mut self, offset: u32, data: u32)
        requires
            in_range(old(self)@.ram, offset as int, 4),
        ensures
            final(self)@ == old(self)@.with_ram(with_word(old(self)@.ram, offset as int, data)),
            final(self)@.ram.len() == old(self)@.ram.len(),
            word_at(final(self)@.ram, offset as int) == data,
            forall|index: int|
                0 <= index < 4 ==> byte_at(final(self)@.ram, offset + index) == word_byte(
                    data,
                    index,
                ),
            forall|other: int|
                in_range(old(self)@.ram, other, 1) && (other < offset || offset + 4 <= other)
                    ==> #[trigger] byte_at(final(self)@.ram, other) == byte_at(
                    old(self)@.ram,
                    other,
                ),
            forall|other: int|
                in_range(old(self)@.ram, other, 4) && (other + 4 <= offset || offset + 4 <= other)
                    ==> #[trigger] word_at(final(self)@.ram, other) == word_at(
                    old(self)@.ram,
                    other,
                ),
    {
        proof {
            lemma_word_round_trip(old(self)@.ram, offset as int, data);
        }
        let index: usize = (offset - BASE_RW_ADRESS) as usize;
        self.ram[index] = (data / 0x100_0000) as u8;
        self.ram[index + 1] = (data / 0x1_0000 % 0x100) as u8;
        self.ram[index + 2] = (data / 0x100 % 0x100) as u8;
        self.ram[index + 3] = (data % 0x100) as u8;
        assert(self@.ram =~= with_word(old(self)@.ram, offset as int, data));
    }

    /// Stores a doubleword at a virtual address, most significant byte first.
    pub fn write_u64(&mut self, offset: u32, data: u64)
        requires
            in_range(old(self)@.ram, offset as int, 8),
        ensures
            final(self)@ == old(self)@.with_ram(with_double(old(self)@.ram, offset as int, data)),
            final(self)@.ram.len() == old(self)@.ram.len(),
            double_at(final(self)@.ram, offset as int) == data,
            forall|other: int|
                in_range(old(self)@.ram, other, 1) && (other < offset || offset + 8 <= other)
                    ==> #[trigger] byte_at(final(self)@.ram, other) == byte_at(
                    old(self)@.ram,
                    other,
                ),
    {
        proof {
            lemma_double_round_trip(old(self)@.ram, offset as int, data);
        }
        let ghost before = self@.ram;
        let index: usize = (offset - BASE_RW_ADRESS) as usize;
        let upper: u32 = (data / 0x1_0000_0000) as u32;
        let lower: u32 = (data % 0x1_0000_0000) as u32;
        self.ram[index] = (upper / 0x100_0000) as u8;
        self.ram[index + 1] = (upper / 0x1_0000 % 0x100) as u8;
        self.ram[index + 2] = (upper / 0x100 % 0x100) as u8;
        self.ram[index + 3] = (upper % 0x100) as u8;
        assert(self@.ram =~= with_word(before, offset as int, upper));
        self.ram[index + 4] = (lower / 0x100_0000) as u8;
        self.ram[index + 5] = (lower / 0x1_0000 % 0x100) as u8;
        self.ram[index + 6] = (lower / 0x100 % 0x100) as u8;
        self.ram[index + 7] = (lower % 0x100) as u8;
        assert(self@.ram =~= with_double(before, offset as int, data));
    }

    /// Stores a byte at a virtual address.
    pub fn write_u8(&mut self, offset: u32, data: u8)
        requires
            in_range(old(self)@.ram, offset as int, 1),
        ensures
            final(self)@ == old(self)@.with_ram(with_byte(old(self)@.ram, offset as int, data)),
            final(self)@.ram.len() == old(self)@.ram.len(),
            byte_at(final(self)@.ram, offset as int) == data,
            forall|other: int|
                in_range(old(self)@.ram, other, 1) && other != offset ==> #[trigger] byte_at(
                    final(self)@.ram,
                    other,
                ) == byte_at(old(self)@.ram, other),
    {
        let index: usize = (offset - BASE_RW_ADRESS) as usize;
        self.ram[index] = data;
        assert(self@.ram =~= with_byte(old(self)@.ram, offset as int, data));
    }

    /// Reads the big-endian word at a virtual address.
    pub fn read_u32(&self, offset: u32) -> (r: u32)
        requires
            in_range(self@.ram, offset as int, 4),
        ensures
            r == word_at(self@.ram, offset as int),
    {
        let index: usize = (offset - BASE_RW_ADRESS) as usize;
        self.ram[index] as u32 * 0x100_0000 + self.ram[index + 1] as u32 * 0x1_0000
            + self.ram[index + 2] as u32 * 0x100 + self.ram[index + 3] as u32
    }

    /// Reads the big-endian doubleword at a virtual address.
    pub fn read_u64(&self, offset: u32) -> (r: u64)
        requires
            in_range(self@.ram, offset as int, 8),
        ensures
            r == double_at(self@.ram, offset as int),
    {
        let index: usize = (offset - BASE_RW_ADRESS) as usize;
        let upper: u32 = self.ram[index] as u32 * 0x100_0000 + self.ram[index + 1] as u32
            * 0x1_0000 + self.ram[index + 2] as u32 * 0x100 + self.ram[index + 3] as u32;
        let lower: u32 = self.ram[index + 4] as u32 * 0x100_0000 + self.ram[index + 5] as u32
            * 0x1_0000 + self.ram[index + 6] as u32 * 0x100 + self.ram[index + 7] as u32;
        upper as u64 * 0x1_0000_0000 + lower as u64
    }

    /// Reads the big-endian halfword at a virtual address.
    pub fn read_u16(&self, offset: u32) -> (r: u16)
        requires
            in_range(self@.ram, offset as int, 2),
        ensures
            r == half_at(self@.ram, offset as int),
    {
        let index: usize = (offset - BASE_RW_ADRESS) as usize;
        self.ram[index] as u16 * 0x100 + self.ram[index + 1] as u16
    }

    /// Reads the byte at a virtual address.
    pub fn read_u8(&self, offset: u32) -> (r: u8)
        requires
            in_range(self@.ram, offset as int, 1),
        ensures
            r == byte_at(self@.ram, offset as int),
    {
        self.ram[(offset - BASE_RW_ADRESS) as usize]
    }

    /// Tests whether a step can be taken from the present state.
    pub fn can_step(&self) -> (r: bool)
        ensures
            r == self@.can_step(),
    {
        if self.counter == u64::MAX || !self.is_in_range(self.register.pc, 4) {
            return false;
        }
        match Instruction::decode_instruction(self.read_u32(self.register.pc)) {
            Some(instruction) => self.can_execute(instruction),
            None => true,
        }
    }

    /// Names what the instruction at PC asks of the floating-point unit; `None` where it
    /// asks nothing or the word at PC encodes no instruction.
    pub fn pending_float(&self) -> (r: Option<FloatOp>)
        requires
            self@.can_step(),
        ensures
            r == self@.pending_float(),
            r is Some <==> self@.waits_for_float(),
    {
        match Instruction::decode_instruction(self.read_u32(self.register.pc)) {
            Some(instruction) => self.float_request(instruction),
            None => None,
        }
    }

    /// Runs the instruction at PC. A word that encodes no instruction is an error, and
    /// nothing but the count changes.
    pub fn step(&mut self) -> (r: Result<BreakData, String>)
        requires
            old(self)@.can_step(),
            !old(self)@.waits_for_float(),
        ensures
            final(self)@ == old(self)@.stepped(),
            final(self)@.ram.len() == old(self)@.ram.len(),
            final(self)@.counter == old(self)@.counter + 1,
            match old(self)@.fetched() {
                Some(instruction) => {
                    &&& r == Ok::<BreakData, String>(instruction.event())
                    &&& !instruction.is_store() ==> final(self)@.ram == old(self)@.ram
                },
                None => {
                    &&& r matches Err(message) && message@ == decode_failure()
                    &&& final(self)@.ram == old(self)@.ram
                    &&& final(self)@.register == old(self)@.register
                },
            },
    {
        self.counter += 1;
        match Instruction::decode_instruction(self.read_u32(self.register.pc)) {
            Some(instruction) => Ok(self.execute(instruction)),
            None => Err("opcode does not decode to an instruction".to_string()),
        }
    }

    /// Runs the instruction at PC with the floating-point unit's answer to its request.
    pub fn step_float(&mut self, result: FloatResult) -> (r: Result<BreakData, String>)
        requires
            old(self)@.can_step(),
            old(self)@.waits_for_float(),
        ensures
            final(self)@ == old(self)@.stepped_with(result),
            r == Ok::<BreakData, String>(BreakData::Nothing),
            final(self)@.ram.len() == old(self)@.ram.len(),
            final(self)@.counter == old(self)@.counter + 1,
    {
        self.counter += 1;
        match Instruction::decode_instruction(self.read_u32(self.register.pc)) {
            Some(instruction) => {
                self.execute_float(instruction, result);
                Ok(BreakData::Nothing)
            },
            None => Ok(BreakData::Nothing),
        }
    }

    /// Runs the instruction at PC, whatever it is: where it asks the floating-point unit for
    /// something, `fpu` is called once, with the request, and the instruction is completed
    /// with what it answers.
    pub fn step_with<F: Fn(FloatOp) -> FloatResult>(&mut self, fpu: &F) -> (r: Result<
        BreakData,
        String,
    >)
        requires
            old(self)@.can_step(),
            forall|op: FloatOp| fpu.requires((op,)),
        ensures
            final(self)@.ram.len() == old(self)@.ram.len(),
            final(self)@.counter == old(self)@.counter + 1,
            match old(self)@.pending_float() {
                Some(op) => r == Ok::<BreakData, String>(BreakData::Nothing) && exists|
                    answer: FloatResult,
                |
                    fpu.ensures((op,), answer) && final(self)@ == old(self)@.stepped_with(answer),
                None => final(self)@ == old(self)@.stepped() && match old(self)@.fetched() {
                    Some(instruction) => r == Ok::<BreakData, String>(instruction.event()),
                    None => r matches Err(message) && message@ == decode_failure(),
                },
            },
    {
        match self.pending_float() {
            Some(op) => {
                let answer = fpu(op);
                self.step_float(answer)
            },
            None => self.step(),
        }
    }

    /// Steps until the break has run.
    pub fn run_until_event(&mut self) -> (r: BreakData)
        requires
            exists|steps: nat| old(self)@.breaks_after(steps),
        ensures
            r == BreakData::Break,
            forall|steps: nat|
                old(self)@.breaks_after(steps) ==> final(self)@ == old(self)@.after_steps(
                    steps + 1,
                ),
            final(self)@.ram.len() == old(self)@.ram.len(),
    {
        let ghost total = choose|steps: nat| old(self)@.breaks_after(steps);
        let ghost mut left = total;
        loop
            invariant
                left <= total,
                old(self)@.breaks_after(total),
                self@.breaks_after(left),
                self@ == old(self)@.after_steps((total - left) as nat),
                self@.ram.len() == old(self)@.ram.len(),
            decreases left,
        {
            proof {
                lemma_one_more_step(old(self)@, (total - left) as nat);
            }
            match self.step() {
                Ok(BreakData::Break) => {
                    proof {
                        assert forall|steps: nat| old(self)@.breaks_after(steps) implies self@
                            == old(self)@.after_steps(steps + 1) by {
                            lemma_break_is_reached_once(old(self)@, steps, total);
                        }
                    }
                    return BreakData::Break;
                },
                _ => {
                    proof {
                        left = (left - 1) as nat;
                    }
                },
            }
        }
    }
}

} // verus!
