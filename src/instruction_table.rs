use vstd::prelude::*;

verus! {

/// A single-bit flag that follows an opcode's fixed bits.
#[derive(Clone, Copy, Debug, PartialEq, Eq, Structural, Hash)]
pub enum Flag {
    /// Sign-extend the immediate operand.
    S,
    /// Word-size: 1 selects 16-bit operands, 0 selects 8-bit operands.
    W,
    /// Direction: 1 means the register field is the destination.
    D,
}

/// The role of a one- or two-byte field.
#[derive(Clone, Copy, Debug, PartialEq, Eq, Structural)]
pub enum WordField {
    /// An absolute memory address, the other operand being the accumulator.
    Addr,
    /// A displacement, whose bytes the register/memory field has already read.
    Disp,
    /// An immediate operand.
    Data,
}

/// A three-bit register field: either read from the stream (`Implicit`) or a
/// fixed value that only takes part in opcode disambiguation (`Explicit`).
#[derive(Clone, Copy, Debug, PartialEq, Eq, Structural)]
pub enum Reg {
    Implicit,
    Explicit(u8),
}

/// One typed argument field of an instruction encoding.
#[derive(Clone, Copy, Debug, PartialEq, Eq, Structural)]
pub enum Argument {
    Mode,
    Rm,
    Reg(Reg),
    Word(WordField),
    Byte,
    SegReg,
    FixedBit(u8),
    /// A direction that the opcode fixes, taking no bits: 0 makes the
    /// register, segment register or accumulator operand the source.
    Direction(u8),
}

/// The declarative description of one opcode encoding.
pub struct Instruction<'a> {
    pub operand: &'a str,
    /// One-indexed bit position where the fixed opcode bits end.
    pub offset: usize,
    /// Upper bound on the number of bytes the instruction spans.
    pub max_byte_count: usize,
    pub flags: Vec<Flag>,
    pub extra_args: Vec<Argument>,
}

/// A bit field that tells apart encodings sharing the same leading bits.
#[derive(Clone, Copy, Debug, PartialEq, Eq, Structural)]
pub struct SecondaryOperand {
    /// One-indexed starting bit of the field; bits 9 and up lie in the second byte.
    pub offset: usize,
    pub value: u8,
}

pub enum InstructionLookup<'a> {
    Instr(Instruction<'a>),
    MultiInstr(Vec<(SecondaryOperand, Instruction<'a>)>),
}

/// The mathematical content of an `Instruction`.
pub struct InstructionSpec {
    pub mnemonic: Seq<char>,
    pub offset: nat,
    pub max_byte_count: nat,
    pub flags: Seq<Flag>,
    pub args: Seq<Argument>,
}

pub enum LookupSpec {
    Single(InstructionSpec),
    Multi(Seq<(SecondaryOperand, InstructionSpec)>),
}

impl<'a> View for Instruction<'a> {
    type V = InstructionSpec;

    open spec fn view(&self) -> InstructionSpec {
        InstructionSpec {
            mnemonic: self.operand@,
            offset: self.offset as nat,
            max_byte_count: self.max_byte_count as nat,
            flags: self.flags@,
            args: self.extra_args@,
        }
    }
}

impl<'a> View for InstructionLookup<'a> {
    type V = LookupSpec;

    open spec fn view(&self) -> LookupSpec {
        match self {
            InstructionLookup::Instr(i) => LookupSpec::Single(i@),
            InstructionLookup::MultiInstr(v) => LookupSpec::Multi(
                v@.map_values(|c: (SecondaryOperand, Instruction<'a>)| (c.0, c.1@)),
            ),
        }
    }
}

/// The view of a whole table: each fixed pattern with the view of its lookup.
pub open spec fn table_view<'a>(t: Seq<(u8, InstructionLookup<'a>)>) -> Seq<(u8, LookupSpec)> {
    t.map_values(|e: (u8, InstructionLookup<'a>)| (e.0, e.1@))
}

/// An encoding is well formed when its fixed bits lie in the first byte and its
/// sizes are small enough that no cursor arithmetic can overflow.
pub open spec fn instruction_wf(i: InstructionSpec) -> bool {
    &&& 1 <= i.offset <= 8
    &&& i.max_byte_count <= 16
    &&& i.flags.len() <= 8
    &&& i.args.len() <= 16
}

pub open spec fn lookup_wf(l: LookupSpec) -> bool {
    match l {
        LookupSpec::Single(i) => instruction_wf(i),
        LookupSpec::Multi(c) => c.len() <= 16 && forall|j: int|
            0 <= j < c.len() ==> instruction_wf(#[trigger] c[j].1),
    }
}

pub open spec fn table_wf(t: Seq<(u8, LookupSpec)>) -> bool {
    forall|i: int| 0 <= i < t.len() ==> lookup_wf(#[trigger] t[i].1)
}

/// Register/memory operand paired with a register field, with direction and word-size flags.
pub open spec fn reg_rm_spec(m: Seq<char>) -> InstructionSpec {
    InstructionSpec {
        mnemonic: m,
        offset: 6,
        max_byte_count: 4,
        flags: seq![Flag::D, Flag::W],
        args: seq![
            Argument::Mode,
            Argument::Reg(Reg::Implicit),
            Argument::Rm,
            Argument::Word(WordField::Disp),
        ],
    }
}

/// Immediate to register/memory, with the register field fixed to `v`. The
/// fixed bits end where the flags begin, so that the flags fill the first byte.
pub open spec fn imm_rm_spec(m: Seq<char>, v: u8, flags: Seq<Flag>) -> InstructionSpec {
    InstructionSpec {
        mnemonic: m,
        offset: if flags.len() == 1 { 7nat } else { 6nat },
        max_byte_count: 6,
        flags: flags,
        args: seq![
            Argument::Mode,
            Argument::Reg(Reg::Explicit(v)),
            Argument::Rm,
            Argument::Word(WordField::Disp),
            Argument::Word(WordField::Data),
        ],
    }
}

/// Immediate to accumulator.
pub open spec fn acc_imm_spec(m: Seq<char>) -> InstructionSpec {
    InstructionSpec {
        mnemonic: m,
        offset: 7,
        max_byte_count: 3,
        flags: seq![Flag::W],
        args: seq![Argument::Word(WordField::Data)],
    }
}

/// Accumulator to or from a direct memory address; `args` is the address
/// field, after a fixed direction of 0 when the accumulator is stored.
pub open spec fn acc_mem_spec(m: Seq<char>, args: Seq<Argument>) -> InstructionSpec {
    InstructionSpec { mnemonic: m, offset: 7, max_byte_count: 3, flags: seq![Flag::W], args: args }
}

/// Register/memory to or from a segment register; `lead` is empty when the
/// segment register is loaded, a fixed direction of 0 when it is stored.
pub open spec fn seg_spec(m: Seq<char>, lead: Seq<Argument>) -> InstructionSpec {
    InstructionSpec {
        mnemonic: m,
        offset: 8,
        max_byte_count: 4,
        flags: seq![],
        args: lead + seq![
            Argument::Mode,
            Argument::FixedBit(0),
            Argument::SegReg,
            Argument::Rm,
            Argument::Word(WordField::Disp),
        ],
    }
}

/// A jump or loop whose single operand is a one-byte relative offset.
pub open spec fn short_jump_spec(m: Seq<char>) -> InstructionSpec {
    InstructionSpec {
        mnemonic: m,
        offset: 8,
        max_byte_count: 2,
        flags: seq![],
        args: seq![Argument::Byte],
    }
}

pub open spec fn single(pattern: u8, i: InstructionSpec) -> (u8, LookupSpec) {
    (pattern, LookupSpec::Single(i))
}

/// The supported encodings, in priority order: the first entry that matches wins.
pub open spec fn instruction_table_spec() -> Seq<(u8, LookupSpec)> {
    seq![
        single(0b10001000, reg_rm_spec("mov"@)),
        single(0b11000110, imm_rm_spec("mov"@, 0, seq![Flag::W])),
        single(0b10110000, InstructionSpec {
            mnemonic: "mov"@,
            offset: 4,
            max_byte_count: 3,
            flags: seq![Flag::W],
            args: seq![Argument::Reg(Reg::Implicit), Argument::Word(WordField::Data)],
        }),
        single(0b10100000, acc_mem_spec("mov"@, seq![Argument::Word(WordField::Addr)])),
        single(
            0b10100010,
            acc_mem_spec("mov"@, seq![Argument::Direction(0), Argument::Word(WordField::Addr)]),
        ),
        single(0b10001110, seg_spec("mov"@, seq![])),
        single(0b10001100, seg_spec("mov"@, seq![Argument::Direction(0)])),
        single(0b00000000, reg_rm_spec("add"@)),
        (0b10000000, LookupSpec::Multi(seq![
            (SecondaryOperand { offset: 11, value: 0b000 },
                imm_rm_spec("add"@, 0b000, seq![Flag::S, Flag::W])),
            (SecondaryOperand { offset: 11, value: 0b101 },
                imm_rm_spec("sub"@, 0b101, seq![Flag::S, Flag::W])),
            (SecondaryOperand { offset: 11, value: 0b111 },
                imm_rm_spec("cmp"@, 0b111, seq![Flag::S, Flag::W])),
        ])),
        single(0b00000100, acc_imm_spec("add"@)),
        single(0b00101000, reg_rm_spec("sub"@)),
        single(0b00101100, acc_imm_spec("sub"@)),
        single(0b00111000, reg_rm_spec("cmp"@)),
        single(0b00111100, acc_imm_spec("cmp"@)),
        single(0b01110100, short_jump_spec("je"@)),
        single(0b01111100, short_jump_spec("jl"@)),
        single(0b01111110, short_jump_spec("jle"@)),
        single(0b01110010, short_jump_spec("jb"@)),
        single(0b01110110, short_jump_spec("jbe"@)),
        single(0b01111010, short_jump_spec("jp"@)),
        single(0b01110000, short_jump_spec("jo"@)),
        single(0b01111000, short_jump_spec("js"@)),
        single(0b01110101, short_jump_spec("jne"@)),
        single(0b01111101, short_jump_spec("jnl"@)),
        single(0b01111111, short_jump_spec("jnle"@)),
        single(0b01110011, short_jump_spec("jnb"@)),
        single(0b01110111, short_jump_spec("jnbe"@)),
        single(0b01111011, short_jump_spec("jnp"@)),
        single(0b01110001, short_jump_spec("jno"@)),
        single(0b01111001, short_jump_spec("jns"@)),
        single(0b11100010, short_jump_spec("loop"@)),
        single(0b11100001, short_jump_spec("loopz"@)),
        single(0b11100000, short_jump_spec("loopnz"@)),
        single(0b11100011, short_jump_spec("jcxz"@)),
    ]
}

fn reg_rm<'a>(m: &'a str) -> (r: Instruction<'a>)
    ensures
        r@ == reg_rm_spec(m@),
{
    let r = Instruction {
        operand: m,
        offset: 6,
        max_byte_count: 4,
        flags: vec![Flag::D, Flag::W],
        extra_args: vec![
            Argument::Mode,
            Argument::Reg(Reg::Implicit),
            Argument::Rm,
            Argument::Word(WordField::Disp),
        ],
    };
    assert(r@.flags =~= reg_rm_spec(m@).flags);
    assert(r@.args =~= reg_rm_spec(m@).args);
    r
}

fn imm_rm<'a>(m: &'a str, v: u8, flags: Vec<Flag>) -> (r: Instruction<'a>)
    requires
        flags@.len() == 1 || flags@.len() == 2,
    ensures
        r@ == imm_rm_spec(m@, v, flags@),
{
    let offset: usize = if flags.len() == 1 { 7 } else { 6 };
    let r = Instruction {
        operand: m,
        offset: offset,
        max_byte_count: 6,
        flags: flags,
        extra_args: vec![
            Argument::Mode,
            Argument::Reg(Reg::Explicit(v)),
            Argument::Rm,
            Argument::Word(WordField::Disp),
            Argument::Word(WordField::Data),
        ],
    };
    assert(r@.args =~= imm_rm_spec(m@, v, flags@).args);
    r
}

fn acc_imm<'a>(m: &'a str) -> (r: Instruction<'a>)
    ensures
        r@ == acc_imm_spec(m@),
{
    let r = Instruction {
        operand: m,
        offset: 7,
        max_byte_count: 3,
        flags: vec![Flag::W],
        extra_args: vec![Argument::Word(WordField::Data)],
    };
    assert(r@.flags =~= acc_imm_spec(m@).flags);
    assert(r@.args =~= acc_imm_spec(m@).args);
    r
}

fn acc_mem<'a>(m: &'a str, store: bool) -> (r: Instruction<'a>)
    ensures
        r@ == acc_mem_spec(
            m@,
            if store {
                seq![Argument::Direction(0), Argument::Word(WordField::Addr)]
            } else {
                seq![Argument::Word(WordField::Addr)]
            },
        ),
{
    let extra_args = if store {
        vec![Argument::Direction(0), Argument::Word(WordField::Addr)]
    } else {
        vec![Argument::Word(WordField::Addr)]
    };
    let r = Instruction { operand: m, offset: 7, max_byte_count: 3, flags: vec![Flag::W], extra_args };
    assert(r@.flags =~= seq![Flag::W]);
    assert(r@.args =~= if store {
        seq![Argument::Direction(0), Argument::Word(WordField::Addr)]
    } else {
        seq![Argument::Word(WordField::Addr)]
    });
    r
}

fn seg<'a>(m: &'a str, store: bool) -> (r: Instruction<'a>)
    ensures
        r@ == seg_spec(m@, if store { seq![Argument::Direction(0)] } else { seq![] }),
{
    let mut extra_args: Vec<Argument> = Vec::new();
    if store {
        extra_args.push(Argument::Direction(0));
    }
    extra_args.push(Argument::Mode);
    extra_args.push(Argument::FixedBit(0));
    extra_args.push(Argument::SegReg);
    extra_args.push(Argument::Rm);
    extra_args.push(Argument::Word(WordField::Disp));
    let r = Instruction { operand: m, offset: 8, max_byte_count: 4, flags: vec![], extra_args };
    assert(r@.flags =~= seq![]);
    assert(r@.args =~= seg_spec(m@, if store { seq![Argument::Direction(0)] } else { seq![] }).args);
    r
}

fn short_jump<'a>(m: &'a str) -> (r: Instruction<'a>)
    ensures
        r@ == short_jump_spec(m@),
{
    let r = Instruction {
        operand: m,
        offset: 8,
        max_byte_count: 2,
        flags: vec![],
        extra_args: vec![Argument::Byte],
    };
    assert(r@.flags =~= short_jump_spec(m@).flags);
    assert(r@.args =~= short_jump_spec(m@).args);
    r
}

fn entry<'a>(pattern: u8, i: Instruction<'a>) -> (r: (u8, InstructionLookup<'a>))
    ensures
        r.0 == pattern,
        r.1@ == LookupSpec::Single(i@),
{
    (pattern, InstructionLookup::Instr(i))
}

/// Builds the table of supported encodings, in priority order.
pub fn generate_instruction_table<'a>() -> (r: Vec<(u8, InstructionLookup<'a>)>)
    ensures
        table_view(r@) == instruction_table_spec(),
{
    let group = vec![
        (SecondaryOperand { offset: 11, value: 0b000 }, imm_rm("add", 0b000, vec![Flag::S, Flag::W])),
        (SecondaryOperand { offset: 11, value: 0b101 }, imm_rm("sub", 0b101, vec![Flag::S, Flag::W])),
        (SecondaryOperand { offset: 11, value: 0b111 }, imm_rm("cmp", 0b111, vec![Flag::S, Flag::W])),
    ];
    let mov_imm_reg = Instruction {
        operand: "mov",
        offset: 4,
        max_byte_count: 3,
        flags: vec![Flag::W],
        extra_args: vec![Argument::Reg(Reg::Implicit), Argument::Word(WordField::Data)],
    };
    let multi = InstructionLookup::MultiInstr(group);
    proof {
        let spec_group = seq![
            (SecondaryOperand { offset: 11, value: 0b000 },
                imm_rm_spec("add"@, 0b000, seq![Flag::S, Flag::W])),
            (SecondaryOperand { offset: 11, value: 0b101 },
                imm_rm_spec("sub"@, 0b101, seq![Flag::S, Flag::W])),
            (SecondaryOperand { offset: 11, value: 0b111 },
                imm_rm_spec("cmp"@, 0b111, seq![Flag::S, Flag::W])),
        ];
        assert(spec_group[0].1.flags =~= seq![Flag::S, Flag::W]);
        assert(spec_group[1].1.flags =~= seq![Flag::S, Flag::W]);
        assert(spec_group[2].1.flags =~= seq![Flag::S, Flag::W]);
        assert(multi@ == LookupSpec::Multi(spec_group)) by {
            if let InstructionLookup::MultiInstr(g) = multi {
                assert(g@.map_values(|c: (SecondaryOperand, Instruction<'a>)| (c.0, c.1@)) =~= spec_group);
            }
        }
        assert(mov_imm_reg@.flags =~= seq![Flag::W]);
        assert(mov_imm_reg@.args =~= seq![Argument::Reg(Reg::Implicit), Argument::Word(WordField::Data)]);
    }
    let r = vec![
        entry(0b10001000, reg_rm("mov")),
        entry(0b11000110, imm_rm("mov", 0, vec![Flag::W])),
        entry(0b10110000, mov_imm_reg),
        entry(0b10100000, acc_mem("mov", false)),
        entry(0b10100010, acc_mem("mov", true)),
        entry(0b10001110, seg("mov", false)),
        entry(0b10001100, seg("mov", true)),
        entry(0b00000000, reg_rm("add")),
        (0b10000000, multi),
        entry(0b00000100, acc_imm("add")),
        entry(0b00101000, reg_rm("sub")),
        entry(0b00101100, acc_imm("sub")),
        entry(0b00111000, reg_rm("cmp")),
        entry(0b00111100, acc_imm("cmp")),
        entry(0b01110100, short_jump("je")),
        entry(0b01111100, short_jump("jl")),
        entry(0b01111110, short_jump("jle")),
        entry(0b01110010, short_jump("jb")),
        entry(0b01110110, short_jump("jbe")),
        entry(0b01111010, short_jump("jp")),
        entry(0b01110000, short_jump("jo")),
        entry(0b01111000, short_jump("js")),
        entry(0b01110101, short_jump("jne")),
        entry(0b01111101, short_jump("jnl")),
        entry(0b01111111, short_jump("jnle")),
        entry(0b01110011, short_jump("jnb")),
        entry(0b01110111, short_jump("jnbe")),
        entry(0b01111011, short_jump("jnp")),
        entry(0b01110001, short_jump("jno")),
        entry(0b01111001, short_jump("jns")),
        entry(0b11100010, short_jump("loop")),
        entry(0b11100001, short_jump("loopz")),
        entry(0b11100000, short_jump("loopnz")),
        entry(0b11100011, short_jump("jcxz")),
    ];
    assert(table_view(r@) =~= instruction_table_spec());
    r
}

} // verus!
