//! The instruction set, the compiled unit, and the scheme by which a
//! one-byte operand addresses an index of any width.

use vstd::prelude::*;

verus! {

/// One instruction of the stack machine.
#[derive(Clone, Copy, Debug, PartialEq, Eq, Structural)]
pub enum OpCode {
    Add,
    Sub,
    Mult,
    Div,
    Store(u8),
    LoadVar(u8),
    LoadConst(u8),
    Extend(u8),
    Print,
}

/// A compiled unit: instructions, the number of variable slots that this
/// unit introduces, and the constants that its instructions address.
#[derive(Debug, PartialEq, Eq)]
pub struct Chunk {
    pub program: Vec<OpCode>,
    pub variable_size: usize,
    pub constant_pool: Vec<i32>,
}

/// The index register after one more operand byte has been folded in:
/// the register moves up by eight bits and the byte fills the low end.
pub open spec fn fold_register(register: u64, byte: u8) -> u64 {
    (register << 8) | (byte as u64)
}

/// The least-significant byte of an index: the operand of the instruction
/// that consumes the index.
pub open spec fn low_byte(index: nat) -> u8 {
    (index % 256) as u8
}

/// The `Extend` instructions that precede an instruction addressing `index`:
/// none for an index below 256, else one for each byte above the lowest,
/// most significant first, with no leading zero byte.
pub open spec fn extension_prefix(index: nat) -> Seq<OpCode>
    decreases index,
{
    if index < 256 {
        Seq::empty()
    } else {
        extension_prefix(index / 256).push(OpCode::Extend(low_byte(index / 256)))
    }
}

/// The instructions that load the constant at `index`.
pub open spec fn load_const_at(index: nat) -> Seq<OpCode> {
    extension_prefix(index).push(OpCode::LoadConst(low_byte(index)))
}

/// The instructions that load the variable in slot `index`.
pub open spec fn load_var_at(index: nat) -> Seq<OpCode> {
    extension_prefix(index).push(OpCode::LoadVar(low_byte(index)))
}

/// The instructions that store into slot `index`.
pub open spec fn store_at(index: nat) -> Seq<OpCode> {
    extension_prefix(index).push(OpCode::Store(low_byte(index)))
}

/// The index register after every byte of a run of `Extend` instructions
/// has been folded in, first to last. Other instructions in `code` are
/// passed over.
pub open spec fn fold_extensions(register: u64, code: Seq<OpCode>) -> u64
    decreases code.len(),
{
    if code.len() == 0 {
        register
    } else {
        let before = fold_extensions(register, code.drop_last());
        match code.last() {
            OpCode::Extend(b) => fold_register(before, b),
            _ => before,
        }
    }
}

/// Folding is the arithmetic it looks like: the register times 256 plus the
/// byte, less whatever does not fit in 64 bits.
pub proof fn lemma_fold_register_value(register: u64, byte: u8)
    ensures
        fold_register(register, byte) == (register as nat * 256 + byte as nat)
            % 0x1_0000_0000_0000_0000,
{
    let b = byte as u64;
    assert(((register << 8) | b) == (register * 256 + b) % 0x1_0000_0000_0000_0000)
        by (bit_vector)
        requires
            b < 256,
    ;
}

/// Folding the low byte of an index onto the rest of it gives the index back.
pub proof fn lemma_fold_low_byte(index: u64)
    ensures
        fold_register(index / 256, low_byte(index as nat)) == index,
{
    let b: u8 = (index % 256) as u8;
    assert(((index / 256) << 8) | (((index % 256) as u8) as u64) == index) by (bit_vector);
}

/// The extension prefix of an index rebuilds, from an empty register, all of
/// the index but its lowest byte; with the operand of the consuming
/// instruction folded in, the register holds exactly the index.
pub proof fn lemma_extension_roundtrip(index: u64)
    ensures
        fold_extensions(0, extension_prefix(index as nat)) == index / 256,
        fold_register(fold_extensions(0, extension_prefix(index as nat)), low_byte(index as nat))
            == index,
    decreases index,
{
    if index >= 256 {
        let upper: u64 = index / 256;
        lemma_extension_roundtrip(upper);
        lemma_fold_low_byte(upper);
        let code = extension_prefix(index as nat);
        assert(code.drop_last() =~= extension_prefix(upper as nat));
        assert(code.last() == OpCode::Extend(low_byte(upper as nat)));
    } else {
        assert(index / 256 == 0) by (bit_vector)
            requires
                index < 256,
        ;
    }
    lemma_fold_low_byte(index);
}

/// The extension prefix holds `Extend` instructions only, and exactly as
/// many as the index has significant bytes above its lowest.
pub proof fn lemma_extension_prefix_shape(index: nat)
    ensures
        forall|i: int|
            0 <= i < extension_prefix(index).len() ==> (#[trigger] extension_prefix(
                index,
            )[i]) is Extend,
        index < 256 <==> extension_prefix(index).len() == 0,
        256 <= index < 65536 <==> extension_prefix(index).len() == 1,
        index >= 256 ==> extension_prefix(index)[0] != OpCode::Extend(0),
    decreases index,
{
    if index >= 256 {
        lemma_extension_prefix_shape(index / 256);
    }
}

impl Chunk {
    /// An empty unit: no instruction, no constant, no new slot.
    pub fn new() -> (chunk: Chunk)
        ensures
            chunk.program@ == Seq::<OpCode>::empty(),
            chunk.constant_pool@ == Seq::<i32>::empty(),
            chunk.variable_size == 0,
    {
        Chunk { program: Vec::new(), variable_size: 0, constant_pool: Vec::new() }
    }
}

} // verus!
