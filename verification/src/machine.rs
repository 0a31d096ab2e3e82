//! The mathematical model of the machine: the memory image as a sequence of bytes mapped at
//! the base address, the register file, and the count of instructions run. Contracts are
//! stated over this model.

use vstd::prelude::*;
use crate::register::RegisterFile;
use crate::BASE_RW_ADRESS;

verus! {

/// The whole state of one processor.
#[verifier::ext_equal]
pub struct Machine {
    pub ram: Seq<u8>,
    pub register: RegisterFile,
    pub counter: u64,
}

/// Whether the `size` bytes from `address` on all lie in the memory image.
pub open spec fn in_range(ram: Seq<u8>, address: int, size: int) -> bool {
    BASE_RW_ADRESS <= address && address - BASE_RW_ADRESS + size <= ram.len()
}

/// The byte at a virtual address.
pub open spec fn byte_at(ram: Seq<u8>, address: int) -> u8 {
    ram[address - BASE_RW_ADRESS]
}

/// The big-endian halfword at a virtual address.
pub open spec fn half_at(ram: Seq<u8>, address: int) -> u16 {
    (byte_at(ram, address) * 0x100 + byte_at(ram, address + 1)) as u16
}

/// The big-endian word at a virtual address.
pub open spec fn word_at(ram: Seq<u8>, address: int) -> u32 {
    (byte_at(ram, address) * 0x100_0000 + byte_at(ram, address + 1) * 0x1_0000 + byte_at(
        ram,
        address + 2,
    ) * 0x100 + byte_at(ram, address + 3)) as u32
}

/// The big-endian doubleword at a virtual address.
pub open spec fn double_at(ram: Seq<u8>, address: int) -> u64 {
    (word_at(ram, address) * 0x1_0000_0000 + word_at(ram, address + 4)) as u64
}

/// Byte `index` of a word, byte 0 being the most significant.
pub open spec fn word_byte(value: u32, index: int) -> u8 {
    if index == 0 {
        (value / 0x100_0000) as u8
    } else if index == 1 {
        (value / 0x1_0000 % 0x100) as u8
    } else if index == 2 {
        (value / 0x100 % 0x100) as u8
    } else {
        (value % 0x100) as u8
    }
}

/// The upper word of a doubleword.
pub open spec fn upper_word(value: u64) -> u32 {
    (value / 0x1_0000_0000) as u32
}

/// The lower word of a doubleword.
pub open spec fn lower_word(value: u64) -> u32 {
    (value % 0x1_0000_0000) as u32
}

/// Memory with one byte stored.
pub open spec fn with_byte(ram: Seq<u8>, address: int, value: u8) -> Seq<u8> {
    ram.update(address - BASE_RW_ADRESS, value)
}

/// Memory with a word stored, most significant byte first.
pub open spec fn with_word(ram: Seq<u8>, address: int, value: u32) -> Seq<u8> {
    with_byte(
        with_byte(
            with_byte(with_byte(ram, address, word_byte(value, 0)), address + 1, word_byte(value, 1)),
            address + 2,
            word_byte(value, 2),
        ),
        address + 3,
        word_byte(value, 3),
    )
}

/// Memory with a doubleword stored, upper word first.
pub open spec fn with_double(ram: Seq<u8>, address: int, value: u64) -> Seq<u8> {
    with_word(with_word(ram, address, upper_word(value)), address + 4, lower_word(value))
}

/// Memory of the same size with every byte zero.
pub open spec fn zeroed(len: nat) -> Seq<u8> {
    Seq::new(len, |i: int| 0u8)
}

impl Machine {
    /// The state of a machine just made, with `len` bytes of memory.
    pub open spec fn fresh(len: nat) -> Machine {
        Machine { ram: zeroed(len), register: RegisterFile::reset(), counter: 0 }
    }

    /// The state after a reboot: memory zeroed at its size, registers reset, the count kept.
    pub open spec fn rebooted(self) -> Machine {
        Machine { ram: zeroed(self.ram.len()), register: RegisterFile::reset(), counter: self.counter }
    }

    pub open spec fn with_ram(self, ram: Seq<u8>) -> Machine {
        Machine { ram, ..self }
    }

    pub open spec fn with_register(self, register: RegisterFile) -> Machine {
        Machine { register, ..self }
    }

    /// The time base: one tick for every eight instructions.
    pub open spec fn timebase(self) -> u64 {
        self.counter / 8
    }
}

/// A word is the sum of its four bytes, each at its weight.
pub proof fn lemma_word_of_bytes(value: u32)
    ensures
        word_byte(value, 0) * 0x100_0000 + word_byte(value, 1) * 0x1_0000 + word_byte(value, 2)
            * 0x100 + word_byte(value, 3) == value,
{
}

/// A doubleword is its upper word times 2^32 plus its lower word.
pub proof fn lemma_double_of_words(value: u64)
    ensures
        upper_word(value) * 0x1_0000_0000 + lower_word(value) == value,
{
}

/// A stored word reads back: `write_u32(a, v); read_u32(a) == v`, at every address in range.
pub proof fn lemma_word_round_trip(ram: Seq<u8>, address: int, value: u32)
    requires
        in_range(ram, address, 4),
    ensures
        word_at(with_word(ram, address, value), address) == value,
        with_word(ram, address, value).len() == ram.len(),
{
    lemma_word_of_bytes(value);
}

/// A stored word lies in memory most significant byte first: the byte at `address` is the
/// word's top byte, the byte at `address + 3` its lowest.
pub proof fn lemma_word_is_big_endian(ram: Seq<u8>, address: int, value: u32, index: int)
    requires
        in_range(ram, address, 4),
        0 <= index < 4,
    ensures
        byte_at(with_word(ram, address, value), address + index) == word_byte(value, index),
{
}

/// A stored word leaves every byte outside its four as it was.
pub proof fn lemma_word_store_is_local(ram: Seq<u8>, address: int, value: u32, other: int)
    requires
        in_range(ram, address, 4),
        in_range(ram, other, 1),
        other < address || other >= address + 4,
    ensures
        byte_at(with_word(ram, address, value), other) == byte_at(ram, other),
{
}

/// A stored byte reads back.
pub proof fn lemma_byte_round_trip(ram: Seq<u8>, address: int, value: u8)
    requires
        in_range(ram, address, 1),
    ensures
        byte_at(with_byte(ram, address, value), address) == value,
{
}

/// A stored doubleword reads back.
pub proof fn lemma_double_round_trip(ram: Seq<u8>, address: int, value: u64)
    requires
        in_range(ram, address, 8),
    ensures
        double_at(with_double(ram, address, value), address) == value,
        with_double(ram, address, value).len() == ram.len(),
{
    let upper = upper_word(value);
    let lower = lower_word(value);
    let first = with_word(ram, address, upper);
    lemma_word_of_bytes(upper);
    lemma_word_of_bytes(lower);
    lemma_double_of_words(value);
    assert(word_at(with_word(first, address + 4, lower), address + 4) == lower);
    assert(word_at(with_word(first, address + 4, lower), address) == upper);
}

/// A machine just made is as a reboot leaves it.
pub proof fn lemma_fresh_is_rebooted(len: nat)
    ensures
        Machine::fresh(len).rebooted() == Machine::fresh(len),
{
    assert(zeroed(zeroed(len).len()) =~= zeroed(len));
}

/// A reboot after a reboot changes nothing.
pub proof fn lemma_reboot_idempotent(machine: Machine)
    ensures
        machine.rebooted().rebooted() == machine.rebooted(),
{
    assert(zeroed(zeroed(machine.ram.len()).len()) =~= zeroed(machine.ram.len()));
}

} // verus!
