use vstd::prelude::*;
use vstd::slice::slice_subrange;
use vstd::string::*;

use crate::instruction_table::{
    generate_instruction_table, instruction_table_spec, instruction_wf, lookup_wf, table_view,
    table_wf, Argument, Flag, Instruction, InstructionLookup, InstructionSpec, LookupSpec,
    Reg, SecondaryOperand, WordField,
};
use crate::text::{
    decimal, decimal_string, decode_direct_address, decode_memory_address, decode_register,
    decode_segment_register, direct_address_text, memory_text, register_name, segment_name,
};

verus! {

/// The addressing mode selected by a two-bit mode field.
#[derive(Clone, Copy, Debug, PartialEq, Eq, Structural)]
pub enum Mode {
    MemoryModeNoDisplacement,
    MemoryModeByteDisplacement,
    MemoryModeWordDisplacement,
    RegisterMode,
    NoMode,
}

pub open spec fn mode_of(val: u8) -> Mode {
    if val == 0 {
        Mode::MemoryModeNoDisplacement
    } else if val == 1 {
        Mode::MemoryModeByteDisplacement
    } else if val == 2 {
        Mode::MemoryModeWordDisplacement
    } else if val == 3 {
        Mode::RegisterMode
    } else {
        Mode::NoMode
    }
}

impl Mode {
    pub fn parse(val: u8) -> (r: Mode)
        ensures
            r == mode_of(val),
    {
        match val {
            0 => Mode::MemoryModeNoDisplacement,
            1 => Mode::MemoryModeByteDisplacement,
            2 => Mode::MemoryModeWordDisplacement,
            3 => Mode::RegisterMode,
            _ => Mode::NoMode,
        }
    }
}

/// Why a recognised instruction could not be decoded.
#[derive(Clone, Copy, Debug, PartialEq, Eq, Structural)]
pub enum DecodeError {
    /// A byte the instruction needs lies beyond its window of the stream.
    Truncated,
    /// A register field is decoded for an encoding without a word-size flag.
    MissingWordSize,
    /// A register/memory field is decoded before any mode field.
    MissingMode,
    /// The opcode bits and flags of an encoding do not fit in the first byte.
    FlagsOverflow,
    /// A bit field of an encoding crosses a byte boundary.
    FieldStraddlesByte,
    /// An encoding consumed no whole byte, so decoding could not advance.
    EmptyInstruction,
}

/// The value of each single-bit flag that an encoding declares.
#[derive(Clone, Copy, Debug, PartialEq, Eq, Structural)]
pub struct DecodedFlags {
    pub direction: Option<u8>,
    pub sign_extend: Option<u8>,
    pub word_size: Option<u8>,
}

/// One decoded instruction: mnemonic, operand texts and the number of bytes consumed.
#[derive(Debug)]
pub struct DecodedArgument {
    pub operand: String,
    pub source: String,
    pub destination: String,
    pub byte_count: usize,
}

pub struct DecodedSpec {
    pub mnemonic: Seq<char>,
    pub source: Seq<char>,
    pub destination: Seq<char>,
    pub byte_count: nat,
}

impl View for DecodedArgument {
    type V = DecodedSpec;

    open spec fn view(&self) -> DecodedSpec {
        DecodedSpec {
            mnemonic: self.operand@,
            source: self.source@,
            destination: self.destination@,
            byte_count: self.byte_count as nat,
        }
    }
}

pub open spec fn decoded_views(v: Seq<DecodedArgument>) -> Seq<DecodedSpec> {
    v.map_values(|d: DecodedArgument| d@)
}

// ---------------------------------------------------------------------------
// Opcode matching
// ---------------------------------------------------------------------------

/// The mask that keeps the top `n` bits of a byte.
pub open spec fn msb_mask(n: nat) -> u8 {
    (0xffu8 << ((8 - n) as u8)) as u8
}

pub open spec fn prefix_matches(b: u8, offset: nat, pattern: u8) -> bool {
    b & msb_mask(offset) == pattern
}

/// A secondary field lies in the low three bits of the first byte when it
/// starts at or before bit 6, otherwise in bits 3 to 5 of the second byte.
pub open spec fn secondary_matches(s: SecondaryOperand, b0: u8, b1: u8) -> bool {
    if s.offset <= 6 {
        b0 & 7 == s.value
    } else {
        (b1 >> 3u8) & 7 == s.value
    }
}

pub open spec fn match_group(
    cands: Seq<(SecondaryOperand, InstructionSpec)>,
    pattern: u8,
    b0: u8,
    b1: u8,
    j: nat,
) -> Option<InstructionSpec>
    decreases cands.len() - j,
{
    if j >= cands.len() {
        None
    } else if prefix_matches(b0, cands[j as int].1.offset, pattern) && secondary_matches(
        cands[j as int].0,
        b0,
        b1,
    ) {
        Some(cands[j as int].1)
    } else {
        match_group(cands, pattern, b0, b1, j + 1)
    }
}

pub open spec fn match_from(table: Seq<(u8, LookupSpec)>, b0: u8, b1: u8, i: nat) -> Option<
    InstructionSpec,
>
    decreases table.len() - i,
{
    if i >= table.len() {
        None
    } else {
        match table[i as int].1 {
            LookupSpec::Single(ins) => if prefix_matches(b0, ins.offset, table[i as int].0) {
                Some(ins)
            } else {
                match_from(table, b0, b1, i + 1)
            },
            LookupSpec::Multi(cands) => match match_group(cands, table[i as int].0, b0, b1, 0) {
                Some(ins) => Some(ins),
                None => match_from(table, b0, b1, i + 1),
            },
        }
    }
}

/// The first encoding of the table, in order, whose fixed bits match the two lookahead bytes.
pub open spec fn match_spec(table: Seq<(u8, LookupSpec)>, b0: u8, b1: u8) -> Option<
    InstructionSpec,
> {
    match_from(table, b0, b1, 0)
}

fn msb_bitmask(n: usize) -> (r: u8)
    requires
        1 <= n <= 8,
    ensures
        r == msb_mask(n as nat),
{
    0xffu8 << ((8 - n) as u8)
}

proof fn lemma_match_group_wf(
    cands: Seq<(SecondaryOperand, InstructionSpec)>,
    pattern: u8,
    b0: u8,
    b1: u8,
    j: nat,
)
    requires
        forall|k: int| 0 <= k < cands.len() ==> instruction_wf(#[trigger] cands[k].1),
    ensures
        match_group(cands, pattern, b0, b1, j) matches Some(ins) ==> instruction_wf(ins),
    decreases cands.len() - j,
{
    if j < cands.len() {
        lemma_match_group_wf(cands, pattern, b0, b1, j + 1);
    }
}

proof fn lemma_match_from_wf(table: Seq<(u8, LookupSpec)>, b0: u8, b1: u8, i: nat)
    requires
        table_wf(table),
    ensures
        match_from(table, b0, b1, i) matches Some(ins) ==> instruction_wf(ins),
    decreases table.len() - i,
{
    if i < table.len() {
        assert(lookup_wf(table[i as int].1));
        if let LookupSpec::Multi(cands) = table[i as int].1 {
            lemma_match_group_wf(cands, table[i as int].0, b0, b1, 0);
        }
        lemma_match_from_wf(table, b0, b1, i + 1);
    }
}

/// Finds the encoding that the two lookahead bytes select; `None` marks an
/// unrecognised byte.
fn decode_instruction<'a>(
    instruction_table: &'a Vec<(u8, InstructionLookup<'a>)>,
    from: &[u8; 2],
) -> (r: Option<&'a Instruction<'a>>)
    requires
        table_wf(table_view(instruction_table@)),
    ensures
        match r {
            Some(ins) => match_spec(table_view(instruction_table@), from@[0], from@[1]) == Some(
                ins@,
            ),
            None => match_spec(table_view(instruction_table@), from@[0], from@[1]) is None,
        },
{
    let ghost t = table_view(instruction_table@);
    let b0 = from[0];
    let b1 = from[1];
    let mut i: usize = 0;
    while i < instruction_table.len()
        invariant
            t == table_view(instruction_table@),
            table_wf(t),
            b0 == from@[0],
            b1 == from@[1],
            0 <= i <= instruction_table@.len(),
            match_spec(t, b0, b1) == match_from(t, b0, b1, i as nat),
        decreases instruction_table@.len() - i,
    {
        let pattern = instruction_table[i].0;
        assert(lookup_wf(t[i as int].1));
        match &instruction_table[i].1 {
            InstructionLookup::Instr(ins) => {
                if (b0 & msb_bitmask(ins.offset)) == pattern {
                    return Some(ins);
                }
            },
            InstructionLookup::MultiInstr(possible_instructions) => {
                let ghost cands = possible_instructions@.map_values(
                    |c: (SecondaryOperand, Instruction<'a>)| (c.0, c.1@),
                );
                let mut j: usize = 0;
                while j < possible_instructions.len()
                    invariant
                        t == table_view(instruction_table@),
                        table_wf(t),
                        b0 == from@[0],
                        b1 == from@[1],
                        match_spec(t, b0, b1) == match_from(t, b0, b1, i as nat),
                        0 <= i < instruction_table@.len(),
                        pattern == t[i as int].0,
                        t[i as int].1 == LookupSpec::Multi(cands),
                        cands == possible_instructions@.map_values(
                            |c: (SecondaryOperand, Instruction<'a>)| (c.0, c.1@),
                        ),
                        0 <= j <= possible_instructions@.len(),
                        match_group(cands, pattern, b0, b1, 0) == match_group(
                            cands,
                            pattern,
                            b0,
                            b1,
                            j as nat,
                        ),
                    decreases possible_instructions@.len() - j,
                {
                    let cand = &possible_instructions[j];
                    assert(cands[j as int] == (cand.0, cand.1@));
                    assert(instruction_wf(cands[j as int].1));
                    if (b0 & msb_bitmask(cand.1.offset)) == pattern {
                        let lookup = cand.0;
                        let hit = if lookup.offset <= 6 {
                            (b0 & 0b111) == lookup.value
                        } else {
                            ((b1 >> 3u8) & 0b111) == lookup.value
                        };
                        if hit {
                            assert(secondary_matches(cands[j as int].0, b0, b1));
                            assert(match_group(cands, pattern, b0, b1, j as nat) == Some(cand.1@));
                            assert(match_from(t, b0, b1, i as nat) == Some(cand.1@));
                            return Some(&cand.1);
                        }
                    }
                    j = j + 1;
                }
            },
        }
        i = i + 1;
    }
    None
}

// ---------------------------------------------------------------------------
// Flags
// ---------------------------------------------------------------------------

/// The bit at position `pos` of `b`, counting from the most significant bit.
pub open spec fn bit_at(b: u8, pos: nat) -> u8 {
    (b >> ((7 - pos) as u8)) & 1
}

pub open spec fn no_flags() -> DecodedFlags {
    DecodedFlags { direction: None, sign_extend: None, word_size: None }
}

pub open spec fn with_flag(f: DecodedFlags, which: Flag, v: u8) -> DecodedFlags {
    match which {
        Flag::D => DecodedFlags { direction: Some(v), sign_extend: f.sign_extend, word_size: f.word_size },
        Flag::S => DecodedFlags { direction: f.direction, sign_extend: Some(v), word_size: f.word_size },
        Flag::W => DecodedFlags { direction: f.direction, sign_extend: f.sign_extend, word_size: Some(v) },
    }
}

/// The flags read from `b` for the first `n` declared flags, the i-th of them
/// at bit `offset + i`.
pub open spec fn flags_prefix(b: u8, offset: nat, flags: Seq<Flag>, n: nat) -> DecodedFlags
    decreases n,
{
    if n == 0 || n > flags.len() {
        no_flags()
    } else {
        with_flag(
            flags_prefix(b, offset, flags, (n - 1) as nat),
            flags[n - 1],
            bit_at(b, (offset + n - 1) as nat),
        )
    }
}

pub open spec fn flags_spec(b: u8, offset: nat, flags: Seq<Flag>) -> DecodedFlags {
    flags_prefix(b, offset, flags, flags.len())
}

/// Reads the declared flags, one bit each, right after the fixed opcode bits.
fn decode_flags(byte: u8, offset: usize, flags: &Vec<Flag>) -> (r: DecodedFlags)
    requires
        offset + flags@.len() <= 8,
    ensures
        r == flags_spec(byte, offset as nat, flags@),
{
    let mut output = DecodedFlags { direction: None, sign_extend: None, word_size: None };
    let mut idx: usize = 0;
    while idx < flags.len()
        invariant
            offset + flags@.len() <= 8,
            0 <= idx <= flags@.len(),
            output == flags_prefix(byte, offset as nat, flags@, idx as nat),
        decreases flags@.len() - idx,
    {
        let shift: u8 = (8 - (offset + idx + 1)) as u8;
        let bit = (byte >> shift) & 1;
        match flags[idx] {
            Flag::D => {
                output = DecodedFlags { direction: Some(bit), ..output };
            },
            Flag::S => {
                output = DecodedFlags { sign_extend: Some(bit), ..output };
            },
            Flag::W => {
                output = DecodedFlags { word_size: Some(bit), ..output };
            },
        }
        idx = idx + 1;
    }
    output
}

// ---------------------------------------------------------------------------
// Argument fields
// ---------------------------------------------------------------------------

pub open spec fn field_mask(size: u8) -> u8 {
    if size == 1 {
        1
    } else if size == 2 {
        3
    } else if size == 3 {
        7
    } else {
        0
    }
}

/// The `size`-bit field of `b` that starts `offset` bits below its most significant bit.
pub open spec fn field_value(b: u8, size: u8, offset: u8) -> u8 {
    (b >> ((8 - (offset + size)) as u8)) & field_mask(size)
}

fn get_argument_value(from: u8, argument_size: u8, offset: u8) -> (r: u8)
    requires
        1 <= argument_size,
        offset + argument_size <= 8,
    ensures
        r == field_value(from, argument_size, offset),
        argument_size == 3 ==> r < 8,
        argument_size == 2 ==> r < 4,
{
    let offset_byte = from >> (8 - (offset + argument_size));
    let r = match argument_size {
        1 => offset_byte & 1,
        2 => offset_byte & 0b11,
        3 => offset_byte & 0b111,
        _ => 0,
    };
    assert(offset_byte & 7 < 8) by (bit_vector);
    assert(offset_byte & 3 < 4) by (bit_vector);
    assert(offset_byte & 0 == 0) by (bit_vector);
    r
}

/// A little-endian 16-bit word.
pub open spec fn word_le(lo: u8, hi: u8) -> nat {
    (hi as nat) * 256 + lo as nat
}

/// A byte sign-extended to 16 bits, as an unsigned value.
pub open spec fn sign_extended(b: u8) -> nat {
    if b >= 128 {
        b as nat + 0xff00
    } else {
        b as nat
    }
}

fn read_word(lo: u8, hi: u8) -> (r: u16)
    ensures
        r as nat == word_le(lo, hi),
{
    let r = ((hi as u16) << 8u16) | (lo as u16);
    assert(((hi as u16) << 8u16) | (lo as u16) == (hi as u16) * 256 + (lo as u16)) by (bit_vector);
    r
}

/// Sign-extends an immediate byte to 16 bits.
pub fn sign_extend(b: u8) -> (r: u16)
    ensures
        r as nat == sign_extended(b),
{
    if b >= 128 {
        let r = 0b1111111100000000u16 | b as u16;
        assert(b >= 128 ==> 0xff00u16 | (b as u16) == (b as u16) + 0xff00u16) by (bit_vector);
        r
    } else {
        b as u16
    }
}

/// Whether an immediate operand takes two bytes: word-size set and no sign extension.
pub open spec fn immediate_is_word(fl: DecodedFlags) -> bool {
    fl.word_size == Some(1u8) && (fl.sign_extend == Some(0u8) || fl.sign_extend is None)
}

/// The value of a one-byte immediate operand.
pub open spec fn byte_immediate(fl: DecodedFlags, b: u8) -> nat {
    if fl.word_size is Some && fl.sign_extend == Some(1u8) {
        sign_extended(b)
    } else {
        b as nat
    }
}

/// The cursor state while the argument fields of one instruction are read.
pub struct ArgState {
    /// Bit position of the cursor within the instruction's window.
    pub offset: nat,
    pub mode: Mode,
    /// A direct address was read in place of the displacement field.
    pub quirky: bool,
    /// A fixed register field claimed the destination role for the register/memory operand.
    pub reg_explicit: bool,
    /// The opcode fixes the direction to 0: the operands are exchanged at the end.
    pub swap: bool,
    pub source: Seq<char>,
    pub destination: Seq<char>,
}

pub open spec fn start_state(offset: nat) -> ArgState {
    ArgState {
        offset: offset,
        mode: Mode::NoMode,
        quirky: false,
        reg_explicit: false,
        swap: false,
        source: seq![],
        destination: seq![],
    }
}

pub open spec fn advance(st: ArgState, bits: nat) -> ArgState {
    ArgState { offset: st.offset + bits, ..st }
}

/// Gives the register/memory operand's text to the destination when a fixed
/// register field came first, else to the source.
pub open spec fn place(st: ArgState, text: Seq<char>) -> ArgState {
    if st.reg_explicit {
        ArgState { destination: text, ..st }
    } else {
        ArgState { source: text, ..st }
    }
}

pub open spec fn rm_step(from: Seq<u8>, fl: DecodedFlags, st: ArgState, rm: u8) -> Result<
    ArgState,
    DecodeError,
> {
    let sb = (st.offset / 8) as int;
    let next = advance(st, 3);
    match st.mode {
        Mode::MemoryModeNoDisplacement => if rm == 6 {
            if sb + 2 >= from.len() {
                Err(DecodeError::Truncated)
            } else {
                Ok(
                    ArgState {
                        source: decimal(word_le(from[sb + 1], from[sb + 2])),
                        quirky: true,
                        ..next
                    },
                )
            }
        } else {
            Ok(place(next, memory_text(rm, 0)))
        },
        Mode::MemoryModeByteDisplacement => if sb + 1 >= from.len() {
            Err(DecodeError::Truncated)
        } else {
            Ok(place(next, memory_text(rm, from[sb + 1] as nat)))
        },
        Mode::MemoryModeWordDisplacement => if sb + 2 >= from.len() {
            Err(DecodeError::Truncated)
        } else {
            Ok(place(next, memory_text(rm, word_le(from[sb + 1], from[sb + 2]))))
        },
        Mode::RegisterMode => match fl.word_size {
            Some(w) => Ok(place(next, register_name(w, rm))),
            None => Err(DecodeError::MissingWordSize),
        },
        Mode::NoMode => Err(DecodeError::MissingMode),
    }
}

/// Reads one argument field at the cursor.
pub open spec fn arg_step(from: Seq<u8>, fl: DecodedFlags, arg: Argument, st: ArgState) -> Result<
    ArgState,
    DecodeError,
> {
    let sb = (st.offset / 8) as int;
    let bo = st.offset % 8;
    match arg {
        Argument::Mode => if sb >= from.len() {
            Err(DecodeError::Truncated)
        } else if bo + 2 > 8 {
            Err(DecodeError::FieldStraddlesByte)
        } else {
            Ok(ArgState { mode: mode_of(field_value(from[sb], 2, bo as u8)), ..advance(st, 2) })
        },
        Argument::Rm => if sb >= from.len() {
            Err(DecodeError::Truncated)
        } else if bo + 3 > 8 {
            Err(DecodeError::FieldStraddlesByte)
        } else {
            rm_step(from, fl, st, field_value(from[sb], 3, bo as u8))
        },
        Argument::Reg(Reg::Implicit) => match fl.word_size {
            None => Err(DecodeError::MissingWordSize),
            Some(w) => if sb >= from.len() {
                Err(DecodeError::Truncated)
            } else if bo + 3 > 8 {
                Err(DecodeError::FieldStraddlesByte)
            } else {
                Ok(
                    ArgState {
                        destination: register_name(w, field_value(from[sb], 3, bo as u8)),
                        ..advance(st, 3)
                    },
                )
            },
        },
        Argument::Reg(Reg::Explicit(_)) => Ok(ArgState { reg_explicit: true, ..advance(st, 3) }),
        Argument::Word(WordField::Data) => if immediate_is_word(fl) {
            if sb + 1 >= from.len() {
                Err(DecodeError::Truncated)
            } else {
                Ok(ArgState { source: decimal(word_le(from[sb], from[sb + 1])), ..advance(st, 16) })
            }
        } else {
            if sb >= from.len() {
                Err(DecodeError::Truncated)
            } else {
                Ok(ArgState { source: decimal(byte_immediate(fl, from[sb])), ..advance(st, 8) })
            }
        },
        Argument::Word(WordField::Disp) => Ok(
            advance(
                st,
                match st.mode {
                    Mode::MemoryModeByteDisplacement => 8,
                    Mode::MemoryModeWordDisplacement => 16,
                    Mode::MemoryModeNoDisplacement => if st.quirky {
                        16
                    } else {
                        0
                    },
                    _ => 0,
                },
            ),
        ),
        Argument::Word(WordField::Addr) => match fl.word_size {
            None => Err(DecodeError::MissingWordSize),
            Some(w) => if sb + 1 >= from.len() {
                Err(DecodeError::Truncated)
            } else {
                Ok(
                    ArgState {
                        destination: register_name(w, 0),
                        source: direct_address_text(word_le(from[sb], from[sb + 1])),
                        ..advance(st, 16)
                    },
                )
            },
        },
        Argument::SegReg => if sb >= from.len() {
            Err(DecodeError::Truncated)
        } else if bo + 2 > 8 {
            Err(DecodeError::FieldStraddlesByte)
        } else {
            Ok(
                ArgState {
                    destination: segment_name(field_value(from[sb], 2, bo as u8)),
                    ..advance(st, 2)
                },
            )
        },
        Argument::FixedBit(_) => Ok(advance(st, 1)),
        Argument::Direction(v) => Ok(ArgState { swap: v == 0, ..st }),
        Argument::Byte => if sb >= from.len() {
            Err(DecodeError::Truncated)
        } else {
            Ok(ArgState { destination: decimal(from[sb] as nat), ..advance(st, 8) })
        },
    }
}

/// Reads the argument fields in order; the first failure ends the walk.
pub open spec fn run_args(from: Seq<u8>, fl: DecodedFlags, args: Seq<Argument>, st: ArgState) -> Result<
    ArgState,
    DecodeError,
>
    decreases args.len(),
{
    if args.len() == 0 {
        Ok(st)
    } else {
        match arg_step(from, fl, args[0], st) {
            Ok(next) => run_args(from, fl, args.drop_first(), next),
            Err(e) => Err(e),
        }
    }
}

/// The accumulator stands in for a destination that no field named; a
/// direction fixed to 0 then exchanges the two operands.
pub open spec fn finish_args(fl: DecodedFlags, st: ArgState) -> DecodedSpec {
    let destination = if st.destination.len() == 0 && fl.word_size is Some {
        register_name(if fl.word_size == Some(1u8) { 1u8 } else { 0u8 }, 0)
    } else {
        st.destination
    };
    DecodedSpec {
        mnemonic: seq![],
        source: if st.swap { destination } else { st.source },
        destination: if st.swap { st.source } else { destination },
        byte_count: st.offset / 8,
    }
}

pub open spec fn decode_args_spec(
    from: Seq<u8>,
    fl: DecodedFlags,
    start: nat,
    args: Seq<Argument>,
) -> Result<DecodedSpec, DecodeError> {
    match run_args(from, fl, args, start_state(start)) {
        Ok(st) => Ok(finish_args(fl, st)),
        Err(e) => Err(e),
    }
}


/// The cursor of `decode_arguments`, with the operand texts read so far.
struct ArgCursor {
    offset: usize,
    mode: Mode,
    quirky: bool,
    reg_explicit: bool,
    swap: bool,
    source: String,
    destination: String,
}

impl View for ArgCursor {
    type V = ArgState;

    closed spec fn view(&self) -> ArgState {
        ArgState {
            offset: self.offset as nat,
            mode: self.mode,
            quirky: self.quirky,
            reg_explicit: self.reg_explicit,
            swap: self.swap,
            source: self.source@,
            destination: self.destination@,
        }
    }
}

fn place_text(st: &mut ArgCursor, text: String)
    ensures
        final(st)@ == place(old(st)@, text@),
{
    if st.reg_explicit {
        st.destination = text;
    } else {
        st.source = text;
    }
}

/// Reads a register/memory field whose three bits are `rm`, with the side
/// effects that the current mode calls for.
fn decode_rm(from: &[u8], flags: &DecodedFlags, st: &mut ArgCursor, rm: u8) -> (r: Result<
    (),
    DecodeError,
>)
    requires
        rm < 8,
        old(st).offset + 3 <= usize::MAX,
    ensures
        match r {
            Ok(_) => rm_step(from@, *flags, old(st)@, rm) == Ok::<ArgState, DecodeError>(final(st)@),
            Err(e) => rm_step(from@, *flags, old(st)@, rm) == Err::<ArgState, DecodeError>(e),
        },
{
    let sb = st.offset / 8;
    match st.mode {
        Mode::MemoryModeNoDisplacement => {
            if rm == 0b110 {
                if sb + 2 >= from.len() {
                    return Err(DecodeError::Truncated);
                }
                st.source = decimal_string(read_word(from[sb + 1], from[sb + 2]));
                st.quirky = true;
            } else {
                place_text(st, decode_memory_address(rm, 0));
            }
        },
        Mode::MemoryModeByteDisplacement => {
            if sb + 1 >= from.len() {
                return Err(DecodeError::Truncated);
            }
            place_text(st, decode_memory_address(rm, from[sb + 1] as u16));
        },
        Mode::MemoryModeWordDisplacement => {
            if sb + 2 >= from.len() {
                return Err(DecodeError::Truncated);
            }
            place_text(st, decode_memory_address(rm, read_word(from[sb + 1], from[sb + 2])));
        },
        Mode::RegisterMode => {
            match flags.word_size {
                Some(w) => place_text(st, decode_register(w, rm)),
                None => {
                    return Err(DecodeError::MissingWordSize);
                },
            }
        },
        Mode::NoMode => {
            return Err(DecodeError::MissingMode);
        },
    }
    st.offset = st.offset + 3;
    Ok(())
}

/// Reads one argument field at the cursor.
fn decode_argument(from: &[u8], flags: &DecodedFlags, argument: Argument, st: &mut ArgCursor) -> (r:
    Result<(), DecodeError>)
    requires
        old(st).offset + 16 <= usize::MAX,
    ensures
        match r {
            Ok(_) => arg_step(from@, *flags, argument, old(st)@) == Ok::<ArgState, DecodeError>(final(st)@),
            Err(e) => arg_step(from@, *flags, argument, old(st)@) == Err::<ArgState, DecodeError>(e),
        },
{
    let sb = st.offset / 8;
    let byte_offset = (st.offset % 8) as u8;
    match argument {
        Argument::Mode => {
            if sb >= from.len() {
                return Err(DecodeError::Truncated);
            }
            if byte_offset + 2 > 8 {
                return Err(DecodeError::FieldStraddlesByte);
            }
            st.mode = Mode::parse(get_argument_value(from[sb], 2, byte_offset));
            st.offset = st.offset + 2;
        },
        Argument::Rm => {
            if sb >= from.len() {
                return Err(DecodeError::Truncated);
            }
            if byte_offset + 3 > 8 {
                return Err(DecodeError::FieldStraddlesByte);
            }
            let rm_idx = get_argument_value(from[sb], 3, byte_offset);
            return decode_rm(from, flags, st, rm_idx);
        },
        Argument::Reg(Reg::Implicit) => {
            match flags.word_size {
                Some(w) => {
                    if sb >= from.len() {
                        return Err(DecodeError::Truncated);
                    }
                    if byte_offset + 3 > 8 {
                        return Err(DecodeError::FieldStraddlesByte);
                    }
                    let reg = get_argument_value(from[sb], 3, byte_offset);
                    st.destination = decode_register(w, reg);
                    st.offset = st.offset + 3;
                },
                None => {
                    return Err(DecodeError::MissingWordSize);
                },
            }
        },
        Argument::Reg(Reg::Explicit(_)) => {
            st.reg_explicit = true;
            st.offset = st.offset + 3;
        },
        Argument::Word(WordField::Data) => {
            let is_word = match flags.word_size {
                Some(w) => w == 1 && match flags.sign_extend {
                    Some(s) => s == 0,
                    None => true,
                },
                None => false,
            };
            if is_word {
                if sb + 1 >= from.len() {
                    return Err(DecodeError::Truncated);
                }
                st.source = decimal_string(read_word(from[sb], from[sb + 1]));
                st.offset = st.offset + 16;
            } else {
                if sb >= from.len() {
                    return Err(DecodeError::Truncated);
                }
                let extend = flags.word_size.is_some() && match flags.sign_extend {
                    Some(s) => s == 1,
                    None => false,
                };
                let value: u16 = if extend {
                    sign_extend(from[sb])
                } else {
                    from[sb] as u16
                };
                st.source = decimal_string(value);
                st.offset = st.offset + 8;
            }
        },
        Argument::Word(WordField::Disp) => {
            let bits: usize = match st.mode {
                Mode::MemoryModeByteDisplacement => 8,
                Mode::MemoryModeWordDisplacement => 16,
                Mode::MemoryModeNoDisplacement => if st.quirky {
                    16
                } else {
                    0
                },
                _ => 0,
            };
            st.offset = st.offset + bits;
        },
        Argument::Word(WordField::Addr) => {
            match flags.word_size {
                Some(w) => {
                    if sb + 1 >= from.len() {
                        return Err(DecodeError::Truncated);
                    }
                    st.destination = decode_register(w, 0);
                    st.source = decode_direct_address(read_word(from[sb], from[sb + 1]));
                    st.offset = st.offset + 16;
                },
                None => {
                    return Err(DecodeError::MissingWordSize);
                },
            }
        },
        Argument::SegReg => {
            if sb >= from.len() {
                return Err(DecodeError::Truncated);
            }
            if byte_offset + 2 > 8 {
                return Err(DecodeError::FieldStraddlesByte);
            }
            st.destination = decode_segment_register(get_argument_value(from[sb], 2, byte_offset));
            st.offset = st.offset + 2;
        },
        Argument::FixedBit(_) => {
            st.offset = st.offset + 1;
        },
        Argument::Direction(v) => {
            st.swap = v == 0;
        },
        Argument::Byte => {
            if sb >= from.len() {
                return Err(DecodeError::Truncated);
            }
            st.destination = decimal_string(from[sb] as u16);
            st.offset = st.offset + 8;
        },
    }
    Ok(())
}

/// Reads the argument fields of one instruction from its window `from`,
/// starting at bit `starting_offset`.
fn decode_arguments(
    from: &[u8],
    flags: &DecodedFlags,
    starting_offset: usize,
    extra_args: &Vec<Argument>,
) -> (r: Result<DecodedArgument, DecodeError>)
    requires
        starting_offset + 16 * extra_args@.len() <= usize::MAX,
    ensures
        match r {
            Ok(d) => decode_args_spec(from@, *flags, starting_offset as nat, extra_args@) == Ok::<
                DecodedSpec,
                DecodeError,
            >(d@),
            Err(e) => decode_args_spec(from@, *flags, starting_offset as nat, extra_args@) == Err::<
                DecodedSpec,
                DecodeError,
            >(e),
        },
{
    let mut st = ArgCursor {
        offset: starting_offset,
        mode: Mode::NoMode,
        quirky: false,
        reg_explicit: false,
        swap: false,
        source: String::new(),
        destination: String::new(),
    };
    let ghost args = extra_args@;
    let ghost start = start_state(starting_offset as nat);
    assert(st@.source =~= start.source);
    assert(st@.destination =~= start.destination);
    assert(args.subrange(0, args.len() as int) =~= args);
    let mut i: usize = 0;
    while i < extra_args.len()
        invariant
            args == extra_args@,
            start == start_state(starting_offset as nat),
            starting_offset + 16 * args.len() <= usize::MAX,
            0 <= i <= args.len(),
            st.offset <= starting_offset + 16 * i,
            run_args(from@, *flags, args, start) == run_args(
                from@,
                *flags,
                args.subrange(i as int, args.len() as int),
                st@,
            ),
        decreases args.len() - i,
    {
        let ghost before = st@;
        let ghost rest = args.subrange(i as int, args.len() as int);
        assert(rest[0] == args[i as int]);
        assert(rest.drop_first() =~= args.subrange(i + 1, args.len() as int));
        match decode_argument(from, flags, extra_args[i], &mut st) {
            Ok(_) => {},
            Err(e) => {
                assert(run_args(from@, *flags, rest, before) == Err::<ArgState, DecodeError>(e));
                return Err(e);
            },
        }
        i = i + 1;
    }
    let ghost last = st@;
    assert(args.subrange(i as int, args.len() as int).len() == 0);
    if st.destination.unicode_len() == 0 {
        match flags.word_size {
            Some(w) => {
                let w_idx: u8 = if w == 1 {
                    1
                } else {
                    0
                };
                st.destination = decode_register(w_idx, 0);
            },
            None => {},
        }
    }
    let (source, destination) = if st.swap {
        (st.destination, st.source)
    } else {
        (st.source, st.destination)
    };
    let r = DecodedArgument { operand: String::new(), source, destination, byte_count: st.offset / 8 };
    assert(r@.mnemonic =~= finish_args(*flags, last).mnemonic);
    Ok(r)
}

// ---------------------------------------------------------------------------
// Walking the stream
// ---------------------------------------------------------------------------

/// End of the window of an instruction that starts at `idx`.
pub open spec fn window_end(ins: InstructionSpec, len: nat, idx: nat) -> nat {
    if idx + ins.max_byte_count + 1 < len {
        idx + ins.max_byte_count + 1
    } else {
        len
    }
}

/// Decodes the instruction `ins` that starts at byte `idx`: flags, fields,
/// then the swap of operands that a cleared direction flag calls for.
pub open spec fn decode_at(ins: InstructionSpec, input: Seq<u8>, idx: nat) -> Result<
    DecodedSpec,
    DecodeError,
> {
    if ins.offset + ins.flags.len() > 8 {
        Err(DecodeError::FlagsOverflow)
    } else {
        let fl = flags_spec(input[idx as int], ins.offset, ins.flags);
        let window = input.subrange(idx as int, window_end(ins, input.len(), idx) as int);
        match decode_args_spec(window, fl, ins.offset + ins.flags.len(), ins.args) {
            Err(e) => Err(e),
            Ok(d) => {
                let swap = fl.direction == Some(0u8);
                Ok(
                    DecodedSpec {
                        mnemonic: ins.mnemonic,
                        source: if swap { d.destination } else { d.source },
                        destination: if swap { d.source } else { d.destination },
                        byte_count: d.byte_count,
                    },
                )
            },
        }
    }
}

pub open spec fn prepend(s: Seq<DecodedSpec>, r: Result<Seq<DecodedSpec>, DecodeError>) -> Result<
    Seq<DecodedSpec>,
    DecodeError,
> {
    match r {
        Ok(rest) => Ok(s + rest),
        Err(e) => Err(e),
    }
}

/// Decodes the stream from byte `idx` on. A byte that starts no known encoding
/// is skipped; a recognised instruction that cannot be decoded, or that would
/// end past the stream, ends the walk.
pub open spec fn walk(table: Seq<(u8, LookupSpec)>, input: Seq<u8>, idx: nat) -> Result<
    Seq<DecodedSpec>,
    DecodeError,
>
    decreases input.len() - idx,
{
    if idx + 1 >= input.len() {
        Ok(seq![])
    } else {
        match match_spec(table, input[idx as int], input[idx + 1int]) {
            None => walk(table, input, idx + 1),
            Some(ins) => match decode_at(ins, input, idx) {
                Err(e) => Err(e),
                Ok(d) => if d.byte_count == 0 {
                    Err(DecodeError::EmptyInstruction)
                } else if idx + d.byte_count > input.len() {
                    Err(DecodeError::Truncated)
                } else if idx + d.byte_count < input.len() {
                    prepend(seq![d], walk(table, input, idx + d.byte_count))
                } else {
                    Ok(seq![d])
                },
            },
        }
    }
}

/// What the whole byte stream decodes to.
pub open spec fn decode_spec(input: Seq<u8>) -> Result<Seq<DecodedSpec>, DecodeError> {
    walk(instruction_table_spec(), input, 0)
}

proof fn lemma_table_wf()
    ensures
        table_wf(instruction_table_spec()),
{
    let t = instruction_table_spec();
    assert forall|i: int| 0 <= i < t.len() implies lookup_wf(#[trigger] t[i].1) by {
        if let LookupSpec::Multi(c) = t[i].1 {
            assert(forall|j: int| 0 <= j < c.len() ==> instruction_wf(#[trigger] c[j].1));
        }
    }
}

/// Decodes the instruction `instruction` that starts at byte `idx` of `input`.
fn decode_one(instruction: &Instruction, input: &Vec<u8>, idx: usize) -> (r: Result<
    DecodedArgument,
    DecodeError,
>)
    requires
        instruction_wf(instruction@),
        idx < input@.len(),
    ensures
        match r {
            Ok(d) => decode_at(instruction@, input@, idx as nat) == Ok::<DecodedSpec, DecodeError>(d@),
            Err(e) => decode_at(instruction@, input@, idx as nat) == Err::<DecodedSpec, DecodeError>(e),
        },
{
    if instruction.offset + instruction.flags.len() > 8 {
        return Err(DecodeError::FlagsOverflow);
    }
    let flags = decode_flags(input[idx], instruction.offset, &instruction.flags);
    let last_byte: usize = if instruction.max_byte_count + 1 < input.len() - idx {
        idx + instruction.max_byte_count + 1
    } else {
        input.len()
    };
    let window = slice_subrange(input.as_slice(), idx, last_byte);
    let mut arguments = match decode_arguments(
        window,
        &flags,
        instruction.offset + instruction.flags.len(),
        &instruction.extra_args,
    ) {
        Ok(a) => a,
        Err(e) => {
            return Err(e);
        },
    };
    if flags.direction == Some(0u8) {
        let temp = arguments.source;
        arguments.source = arguments.destination;
        arguments.destination = temp;
    }
    arguments.operand = String::from_str(instruction.operand);
    Ok(arguments)
}

/// Decodes a byte stream into instructions, in stream order.
pub fn decode_bitstream(input: Vec<u8>) -> (r: Result<Vec<DecodedArgument>, DecodeError>)
    ensures
        match r {
            Ok(v) => decode_spec(input@) == Ok::<Seq<DecodedSpec>, DecodeError>(decoded_views(v@)),
            Err(e) => decode_spec(input@) == Err::<Seq<DecodedSpec>, DecodeError>(e),
        },
{
    let instruction_table = generate_instruction_table();
    let ghost t = instruction_table_spec();
    proof {
        lemma_table_wf();
    }
    let mut output: Vec<DecodedArgument> = Vec::new();
    let mut idx: usize = 0;
    assert(prepend(decoded_views(output@), walk(t, input@, 0)) =~= walk(t, input@, 0)) by {
        match walk(t, input@, 0) {
            Ok(rest) => {
                assert(decoded_views(output@) + rest =~= rest);
            },
            Err(e) => {},
        }
    }
    while input.len() - idx > 1
        invariant
            t == instruction_table_spec(),
            table_view(instruction_table@) == t,
            table_wf(t),
            idx <= input@.len(),
            decode_spec(input@) == prepend(decoded_views(output@), walk(t, input@, idx as nat)),
        decreases input@.len() - idx,
    {
        let lookup_bytes: [u8; 2] = [input[idx], input[idx + 1]];
        assert(lookup_bytes@[0] == input@[idx as int] && lookup_bytes@[1] == input@[idx + 1]);
        match decode_instruction(&instruction_table, &lookup_bytes) {
            None => {
                idx = idx + 1;
            },
            Some(instruction) => {
                proof {
                    lemma_match_from_wf(t, input@[idx as int], input@[idx + 1], 0);
                }
                let arguments = match decode_one(instruction, &input, idx) {
                    Ok(a) => a,
                    Err(e) => {
                        return Err(e);
                    },
                };
                let bc = arguments.byte_count;
                if bc == 0 {
                    return Err(DecodeError::EmptyInstruction);
                }
                if bc > input.len() - idx {
                    return Err(DecodeError::Truncated);
                }
                let ghost d = arguments@;
                let ghost before = decoded_views(output@);
                let ghost old_idx = idx as nat;
                output.push(arguments);
                assert(decoded_views(output@) =~= before + seq![d]);
                if bc < input.len() - idx {
                    idx = idx + bc;
                    assert(walk(t, input@, old_idx) == prepend(seq![d], walk(t, input@, idx as nat)));
                    assert(prepend(before, walk(t, input@, old_idx)) == prepend(
                        decoded_views(output@),
                        walk(t, input@, idx as nat),
                    )) by {
                        match walk(t, input@, idx as nat) {
                            Ok(rest) => {
                                assert(before + (seq![d] + rest) =~= before + seq![d] + rest);
                            },
                            Err(e) => {},
                        }
                    }
                } else {
                    idx = input.len();
                    assert(walk(t, input@, old_idx) == Ok::<Seq<DecodedSpec>, DecodeError>(seq![d]));
                    assert(decoded_views(output@) + seq![] =~= decoded_views(output@));
                }
            },
        }
    }
    assert(decoded_views(output@) + seq![] =~= decoded_views(output@));
    Ok(output)
}

} // verus!
