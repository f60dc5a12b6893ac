use vstd::prelude::*;
use vstd::string::*;

use crate::decoder::{decoded_views, DecodedArgument, DecodedSpec};
use crate::text::{parse_number, small_number};

verus! {

/// A 16-bit register held as two independently addressable bytes.
#[derive(Clone, Copy, Debug, PartialEq, Eq, Structural, Hash)]
pub struct Register {
    pub low: u8,
    pub high: u8,
}

pub open spec fn register_value(r: Register) -> nat {
    r.high as nat * 256 + r.low as nat
}

/// The register whose 16-bit value is `v`.
pub open spec fn register_of(v: nat) -> Register {
    Register { high: ((v / 256) % 256) as u8, low: (v % 256) as u8 }
}

pub fn get_register_value(reg: &Register) -> (r: u16)
    ensures
        r as nat == register_value(*reg),
{
    let r = ((reg.high as u16) << 8u16) | (reg.low as u16);
    let h = reg.high;
    let l = reg.low;
    assert(((h as u16) << 8u16) | (l as u16) == (h as u16) * 256 + (l as u16)) by (bit_vector);
    r
}

/// Which part of its parent 16-bit register a register name addresses.
#[derive(Clone, Copy, Debug, PartialEq, Eq, Structural)]
pub enum RegisterMode {
    High,
    Low,
    Universal,
}

/// The number of registers in the file.
pub const REGISTER_COUNT: usize = 12;

/// A character with ASCII upper-case letters made lower-case.
pub open spec fn ascii_lower(c: char) -> char {
    if c == 'A' {
        'a'
    } else if c == 'B' {
        'b'
    } else if c == 'C' {
        'c'
    } else if c == 'D' {
        'd'
    } else if c == 'E' {
        'e'
    } else if c == 'F' {
        'f'
    } else if c == 'G' {
        'g'
    } else if c == 'H' {
        'h'
    } else if c == 'I' {
        'i'
    } else if c == 'J' {
        'j'
    } else if c == 'K' {
        'k'
    } else if c == 'L' {
        'l'
    } else if c == 'M' {
        'm'
    } else if c == 'N' {
        'n'
    } else if c == 'O' {
        'o'
    } else if c == 'P' {
        'p'
    } else if c == 'Q' {
        'q'
    } else if c == 'R' {
        'r'
    } else if c == 'S' {
        's'
    } else if c == 'T' {
        't'
    } else if c == 'U' {
        'u'
    } else if c == 'V' {
        'v'
    } else if c == 'W' {
        'w'
    } else if c == 'X' {
        'x'
    } else if c == 'Y' {
        'y'
    } else if c == 'Z' {
        'z'
    } else {
        c
    }
}

/// A register name with its letters made lower-case: names are read without
/// regard to case.
pub open spec fn name_key(s: Seq<char>) -> Seq<char> {
    s.map_values(|c: char| ascii_lower(c))
}

fn ascii_lower_char(c: char) -> (r: char)
    ensures
        r == ascii_lower(c),
{
    if c == 'A' {
        'a'
    } else if c == 'B' {
        'b'
    } else if c == 'C' {
        'c'
    } else if c == 'D' {
        'd'
    } else if c == 'E' {
        'e'
    } else if c == 'F' {
        'f'
    } else if c == 'G' {
        'g'
    } else if c == 'H' {
        'h'
    } else if c == 'I' {
        'i'
    } else if c == 'J' {
        'j'
    } else if c == 'K' {
        'k'
    } else if c == 'L' {
        'l'
    } else if c == 'M' {
        'm'
    } else if c == 'N' {
        'n'
    } else if c == 'O' {
        'o'
    } else if c == 'P' {
        'p'
    } else if c == 'Q' {
        'q'
    } else if c == 'R' {
        'r'
    } else if c == 'S' {
        's'
    } else if c == 'T' {
        't'
    } else if c == 'U' {
        'u'
    } else if c == 'V' {
        'v'
    } else if c == 'W' {
        'w'
    } else if c == 'X' {
        'x'
    } else if c == 'Y' {
        'y'
    } else if c == 'Z' {
        'z'
    } else {
        c
    }
}

/// The slot of a 16-bit register name: the general registers, then the segment registers.
pub open spec fn slot_of(s: Seq<char>) -> Option<nat> {
    let k = name_key(s);
    if s.len() != 2 {
        None
    } else if k[0] == 'a' && k[1] == 'x' {
        Some(0)
    } else if k[0] == 'b' && k[1] == 'x' {
        Some(1)
    } else if k[0] == 'c' && k[1] == 'x' {
        Some(2)
    } else if k[0] == 'd' && k[1] == 'x' {
        Some(3)
    } else if k[0] == 's' && k[1] == 'p' {
        Some(4)
    } else if k[0] == 'b' && k[1] == 'p' {
        Some(5)
    } else if k[0] == 's' && k[1] == 'i' {
        Some(6)
    } else if k[0] == 'd' && k[1] == 'i' {
        Some(7)
    } else if k[0] == 'c' && k[1] == 's' {
        Some(8)
    } else if k[0] == 's' && k[1] == 's' {
        Some(9)
    } else if k[0] == 'd' && k[1] == 's' {
        Some(10)
    } else if k[0] == 'e' && k[1] == 's' {
        Some(11)
    } else {
        None
    }
}

pub open spec fn is_half_prefix(c: char) -> bool {
    c == 'a' || c == 'b' || c == 'c' || c == 'd'
}

/// The part of a register that a name addresses; `None` for an unknown name.
pub open spec fn register_mode_of(s: Seq<char>) -> Option<RegisterMode> {
    let k = name_key(s);
    if s.len() == 2 && is_half_prefix(k[0]) && k[1] == 'h' {
        Some(RegisterMode::High)
    } else if s.len() == 2 && is_half_prefix(k[0]) && k[1] == 'l' {
        Some(RegisterMode::Low)
    } else if slot_of(s) is Some {
        Some(RegisterMode::Universal)
    } else {
        None
    }
}

/// The name of the 16-bit register that holds a byte register: `ah` and `al`
/// live in `ax`, and so on; any other name stands for itself.
pub open spec fn parent_name(s: Seq<char>) -> Seq<char> {
    if s.len() == 2 && is_half_prefix(s[0]) && (s[1] == 'h' || s[1] == 'l') {
        seq![s[0], 'x']
    } else {
        s
    }
}

/// The slot of the 16-bit register that holds the register `s` names, read
/// without regard to case.
pub open spec fn parent_slot_of(s: Seq<char>) -> Option<nat> {
    let k = name_key(s);
    if s.len() == 2 && is_half_prefix(k[0]) && (k[1] == 'h' || k[1] == 'l') {
        slot_of(seq![k[0], 'x'])
    } else {
        slot_of(s)
    }
}

pub open spec fn slot_name(i: nat) -> Seq<char> {
    seq![
        seq!['a', 'x'],
        seq!['b', 'x'],
        seq!['c', 'x'],
        seq!['d', 'x'],
        seq!['s', 'p'],
        seq!['b', 'p'],
        seq!['s', 'i'],
        seq!['d', 'i'],
        seq!['c', 's'],
        seq!['s', 's'],
        seq!['d', 's'],
        seq!['e', 's'],
    ][i as int]
}

proof fn lemma_slot_names()
    ensures
        forall|i: nat| i < 12 ==> slot_of(#[trigger] slot_name(i)) == Some(i),
        forall|s: Seq<char>|
            #[trigger] slot_of(s) is Some ==> slot_of(s)->Some_0 < 12 && slot_name(
                slot_of(s)->Some_0,
            ) == name_key(s),
{
    assert forall|s: Seq<char>| #[trigger] slot_of(s) is Some implies slot_of(s)->Some_0 < 12
        && slot_name(slot_of(s)->Some_0) == name_key(s) by {
        let k = name_key(s);
        assert(k =~= seq![k[0], k[1]]);
    }
}

/// The two characters of a two-character name, made lower-case.
fn two_chars(s: &str) -> (r: Option<(char, char)>)
    ensures
        match r {
            Some(p) => s@.len() == 2 && p.0 == name_key(s@)[0] && p.1 == name_key(s@)[1],
            None => s@.len() != 2,
        },
{
    if s.unicode_len() != 2 {
        None
    } else {
        Some((ascii_lower_char(s.get_char(0)), ascii_lower_char(s.get_char(1))))
    }
}

/// The slot of a 16-bit register name.
fn register_slot(name: &str) -> (r: Option<usize>)
    ensures
        match r {
            Some(i) => slot_of(name@) == Some(i as nat),
            None => slot_of(name@) is None,
        },
{
    match two_chars(name) {
        None => None,
        Some(p) => match p {
            ('a', 'x') => Some(0),
            ('b', 'x') => Some(1),
            ('c', 'x') => Some(2),
            ('d', 'x') => Some(3),
            ('s', 'p') => Some(4),
            ('b', 'p') => Some(5),
            ('s', 'i') => Some(6),
            ('d', 'i') => Some(7),
            ('c', 's') => Some(8),
            ('s', 's') => Some(9),
            ('d', 's') => Some(10),
            ('e', 's') => Some(11),
            _ => None,
        },
    }
}

/// The name of the register in slot `i`.
pub fn register_name_of_slot(i: usize) -> (r: &'static str)
    requires
        i < REGISTER_COUNT,
    ensures
        r@ == slot_name(i as nat),
{
    if i == 0 {
        proof { reveal_strlit("ax"); }
        assert("ax"@ =~= slot_name(0));
        "ax"
    } else if i == 1 {
        proof { reveal_strlit("bx"); }
        assert("bx"@ =~= slot_name(1));
        "bx"
    } else if i == 2 {
        proof { reveal_strlit("cx"); }
        assert("cx"@ =~= slot_name(2));
        "cx"
    } else if i == 3 {
        proof { reveal_strlit("dx"); }
        assert("dx"@ =~= slot_name(3));
        "dx"
    } else if i == 4 {
        proof { reveal_strlit("sp"); }
        assert("sp"@ =~= slot_name(4));
        "sp"
    } else if i == 5 {
        proof { reveal_strlit("bp"); }
        assert("bp"@ =~= slot_name(5));
        "bp"
    } else if i == 6 {
        proof { reveal_strlit("si"); }
        assert("si"@ =~= slot_name(6));
        "si"
    } else if i == 7 {
        proof { reveal_strlit("di"); }
        assert("di"@ =~= slot_name(7));
        "di"
    } else if i == 8 {
        proof { reveal_strlit("cs"); }
        assert("cs"@ =~= slot_name(8));
        "cs"
    } else if i == 9 {
        proof { reveal_strlit("ss"); }
        assert("ss"@ =~= slot_name(9));
        "ss"
    } else if i == 10 {
        proof { reveal_strlit("ds"); }
        assert("ds"@ =~= slot_name(10));
        "ds"
    } else {
        proof { reveal_strlit("es"); }
        assert("es"@ =~= slot_name(11));
        "es"
    }
}

impl RegisterMode {
    pub fn parse(val: &str) -> (r: Option<RegisterMode>)
        ensures
            r == register_mode_of(val@),
    {
        match two_chars(val) {
            None => None,
            Some(p) => {
                let (a, b) = p;
                if (a == 'a' || a == 'b' || a == 'c' || a == 'd') && b == 'h' {
                    Some(RegisterMode::High)
                } else if (a == 'a' || a == 'b' || a == 'c' || a == 'd') && b == 'l' {
                    Some(RegisterMode::Low)
                } else if register_slot(val).is_some() {
                    Some(RegisterMode::Universal)
                } else {
                    None
                }
            },
        }
    }
}

/// The name of the 16-bit register that holds `reg`: `ah` and `al` live in
/// `ax`, and so on; any other name stands for itself.
pub fn get_parent_register(reg: &str) -> (r: String)
    ensures
        r@ == parent_name(reg@),
{
    if reg.unicode_len() == 2 {
        let a = reg.get_char(0);
        let b = reg.get_char(1);
        if b == 'h' || b == 'l' {
            if a == 'a' {
                proof { reveal_strlit("ax"); }
                assert("ax"@ =~= parent_name(reg@));
                return String::from_str("ax");
            } else if a == 'b' {
                proof { reveal_strlit("bx"); }
                assert("bx"@ =~= parent_name(reg@));
                return String::from_str("bx");
            } else if a == 'c' {
                proof { reveal_strlit("cx"); }
                assert("cx"@ =~= parent_name(reg@));
                return String::from_str("cx");
            } else if a == 'd' {
                proof { reveal_strlit("dx"); }
                assert("dx"@ =~= parent_name(reg@));
                return String::from_str("dx");
            }
        }
    }
    String::from_str(reg)
}

/// The slot of the 16-bit register that holds the register `name` names.
fn parent_register_slot(name: &str) -> (r: Option<usize>)
    ensures
        match r {
            Some(i) => parent_slot_of(name@) == Some(i as nat),
            None => parent_slot_of(name@) is None,
        },
{
    match two_chars(name) {
        Some(p) => {
            let (a, b) = p;
            if b == 'h' || b == 'l' {
                if a == 'a' {
                    return Some(0);
                } else if a == 'b' {
                    return Some(1);
                } else if a == 'c' {
                    return Some(2);
                } else if a == 'd' {
                    return Some(3);
                }
            }
        },
        None => {},
    }
    register_slot(name)
}

/// The registers of the simulated machine, one per slot.
pub struct RegisterFile {
    registers: Vec<Register>,
}

impl View for RegisterFile {
    type V = Seq<Register>;

    closed spec fn view(&self) -> Seq<Register> {
        self.registers@
    }
}

impl RegisterFile {
    pub open spec fn wf(&self) -> bool {
        self@.len() == REGISTER_COUNT
    }

    /// A register file with every register zero.
    pub fn new() -> (r: RegisterFile)
        ensures
            r.wf(),
            forall|i: int| 0 <= i < REGISTER_COUNT ==> #[trigger] r@[i] == (Register { low: 0, high: 0 }),
    {
        let mut registers: Vec<Register> = Vec::new();
        let mut i: usize = 0;
        while i < REGISTER_COUNT
            invariant
                0 <= i <= REGISTER_COUNT,
                registers@.len() == i,
                forall|j: int| 0 <= j < i ==> #[trigger] registers@[j] == (Register { low: 0, high: 0 }),
            decreases REGISTER_COUNT - i,
        {
            registers.push(Register { low: 0, high: 0 });
            i = i + 1;
        }
        RegisterFile { registers }
    }

    /// The register in slot `i`.
    pub fn get(&self, i: usize) -> (r: Register)
        requires
            self.wf(),
            i < REGISTER_COUNT,
        ensures
            r == self@[i as int],
    {
        self.registers[i]
    }

    fn set(&mut self, i: usize, value: Register)
        requires
            old(self).wf(),
            i < REGISTER_COUNT,
        ensures
            final(self)@ == old(self)@.update(i as int, value),
    {
        self.registers.set(i, value);
    }

    /// The 16-bit value of the register that `name` names, if it names one of
    /// the file's 16-bit registers.
    pub fn value_of(&self, name: &str) -> (r: Option<u16>)
        requires
            self.wf(),
        ensures
            match r {
                Some(v) => slot_of(name@) matches Some(i) && v as nat == register_value(self@[i as int]),
                None => slot_of(name@) is None,
            },
    {
        proof {
            lemma_slot_names();
        }
        match register_slot(name) {
            Some(i) => Some(get_register_value(&self.registers[i])),
            None => None,
        }
    }
}

/// Why an instruction could not be executed.
#[derive(Clone, Copy, Debug, PartialEq, Eq, Structural)]
pub enum ExecError {
    /// A numeric source operand is malformed or does not fit in 16 bits.
    InvalidImmediate,
    /// The source operand is neither a number nor a register name.
    InvalidSource,
    /// The destination operand is not a register name.
    InvalidDestination,
}

/// A resolved source operand.
#[derive(Clone, Copy, Debug, PartialEq, Eq, Structural)]
pub enum Source {
    /// A copy of the register that holds the named one, and the part named.
    Register(Register, RegisterMode),
    Immediate(u16),
}

/// The value of a numeric operand: `0x` and hexadecimal digits, or decimal
/// digits with an optional leading sign (a negative value wraps to 16 bits).
pub open spec fn immediate_of(s: Seq<char>) -> Option<u16> {
    if s.len() >= 2 && s[0] == '0' && s[1] == 'x' {
        match small_number(s.subrange(2, s.len() as int), 16) {
            Some(v) => Some(v as u16),
            None => None,
        }
    } else if s.len() >= 1 && s[0] == '-' {
        match small_number(s.subrange(1, s.len() as int), 10) {
            Some(v) => if v <= 0x8000 {
                Some(((0x10000 - v) % 0x10000) as u16)
            } else {
                None
            },
            None => None,
        }
    } else if s.len() >= 1 && s[0] == '+' {
        match small_number(s.subrange(1, s.len() as int), 10) {
            Some(v) => Some(v as u16),
            None => None,
        }
    } else {
        match small_number(s, 10) {
            Some(v) => Some(v as u16),
            None => None,
        }
    }
}

/// Whether an operand is written as a number rather than a register name.
pub open spec fn is_numeric(s: Seq<char>) -> bool {
    (s.len() >= 2 && s[0] == '0' && s[1] == 'x') || (s.len() >= 1 && (s[0] == '-' || s[0] == '+' || ('0' <= s[0]
        && s[0] <= '9')))
}

/// The slot of the 16-bit register that holds the register `s` names.
pub open spec fn parent_slot(s: Seq<char>) -> nat {
    parent_slot_of(s)->Some_0
}

/// Resolves a source operand against the register file.
pub open spec fn source_of(regs: Seq<Register>, s: Seq<char>) -> Result<Source, ExecError> {
    if is_numeric(s) {
        match immediate_of(s) {
            Some(v) => Ok(Source::Immediate(v)),
            None => Err(ExecError::InvalidImmediate),
        }
    } else {
        match register_mode_of(s) {
            Some(mode) => Ok(Source::Register(regs[parent_slot(s) as int], mode)),
            None => Err(ExecError::InvalidSource),
        }
    }
}

pub(crate) proof fn lemma_parent_slot(s: Seq<char>)
    requires
        register_mode_of(s) is Some,
    ensures
        parent_slot_of(s) is Some,
        parent_slot(s) < 12,
{
    lemma_slot_names();
}

fn immediate(s: &str) -> (r: Option<u16>)
    requires
        is_numeric(s@),
    ensures
        r == immediate_of(s@),
{
    let n = s.unicode_len();
    if n >= 2 && s.get_char(0) == '0' && s.get_char(1) == 'x' {
        parse_number(s, 2, 16)
    } else if s.get_char(0) == '-' {
        match parse_number(s, 1, 10) {
            Some(v) => if v <= 0x8000 {
                Some(((0x10000u32 - v as u32) % 0x10000) as u16)
            } else {
                None
            },
            None => None,
        }
    } else if s.get_char(0) == '+' {
        parse_number(s, 1, 10)
    } else {
        proof {
            assert(s@.subrange(0, s@.len() as int) =~= s@);
        }
        parse_number(s, 0, 10)
    }
}

fn get_source(registers: &RegisterFile, source: &str) -> (r: Result<Source, ExecError>)
    requires
        registers.wf(),
    ensures
        r == source_of(registers@, source@),
{
    let n = source.unicode_len();
    let numeric = n >= 1 && {
        let c = source.get_char(0);
        c == '-' || c == '+' || ('0' <= c && c <= '9')
    };
    if numeric {
        match immediate(source) {
            Some(v) => Ok(Source::Immediate(v)),
            None => Err(ExecError::InvalidImmediate),
        }
    } else {
        match RegisterMode::parse(source) {
            Some(mode) => {
                proof {
                    lemma_parent_slot(source@);
                }
                match parent_register_slot(source) {
                    Some(i) => Ok(Source::Register(registers.get(i), mode)),
                    None => Err(ExecError::InvalidSource),
                }
            },
            None => Err(ExecError::InvalidSource),
        }
    }
}

/// The byte of a source that an 8-bit destination receives.
pub open spec fn byte_operand(src: Source) -> nat {
    match src {
        Source::Register(r, RegisterMode::High) => r.high as nat,
        Source::Register(r, _) => r.low as nat,
        Source::Immediate(v) => v as nat % 256,
    }
}

/// The word of a source that a 16-bit destination receives.
pub open spec fn word_operand(src: Source) -> nat {
    match src {
        Source::Register(r, _) => register_value(r),
        Source::Immediate(v) => v as nat,
    }
}

/// The byte that `reg` names within `value`: its high byte for a high-half
/// name, else its low byte.
pub open spec fn source_part(mode: RegisterMode, value: Register) -> u8 {
    match mode {
        RegisterMode::High => value.high,
        _ => value.low,
    }
}

pub fn get_source_part(reg: &str, value: &Register) -> (r: u8)
    requires
        register_mode_of(reg@) is Some,
    ensures
        r == source_part(register_mode_of(reg@)->Some_0, *value),
{
    match RegisterMode::parse(reg) {
        Some(RegisterMode::High) => value.high,
        _ => value.low,
    }
}

#[derive(Clone, Copy, Debug, PartialEq, Eq, Structural)]
pub enum Operation {
    Mov,
    Add,
    Sub,
}

/// `b` replaces `a`, is added to it, or is subtracted from it, modulo `m`.
pub open spec fn combine(op: Operation, a: nat, b: nat, m: nat) -> nat {
    match op {
        Operation::Mov => b % m,
        Operation::Add => (a + b) % m,
        Operation::Sub => ((a - b) % (m as int)) as nat,
    }
}

/// The destination register after `op` with the source `src`: 8-bit
/// arithmetic on the addressed half, or 16-bit arithmetic on the whole register.
pub open spec fn apply(op: Operation, dest: Register, mode: RegisterMode, src: Source) -> Register {
    match mode {
        RegisterMode::High => Register {
            high: combine(op, dest.high as nat, byte_operand(src), 256) as u8,
            low: dest.low,
        },
        RegisterMode::Low => Register {
            high: dest.high,
            low: combine(op, dest.low as nat, byte_operand(src), 256) as u8,
        },
        RegisterMode::Universal => register_of(
            combine(op, register_value(dest), word_operand(src), 0x10000),
        ),
    }
}

fn combine_byte(op: Operation, a: u8, b: u8) -> (r: u8)
    ensures
        r as nat == combine(op, a as nat, b as nat, 256),
{
    match op {
        Operation::Mov => b,
        Operation::Add => ((a as u16 + b as u16) % 256) as u8,
        Operation::Sub => ((a as u16 + 256 - b as u16) % 256) as u8,
    }
}

fn combine_word(op: Operation, a: u16, b: u16) -> (r: u16)
    ensures
        r as nat == combine(op, a as nat, b as nat, 0x10000),
{
    match op {
        Operation::Mov => b,
        Operation::Add => ((a as u32 + b as u32) % 0x10000) as u16,
        Operation::Sub => ((a as u32 + 0x10000 - b as u32) % 0x10000) as u16,
    }
}

fn split_word(v: u16) -> (r: Register)
    ensures
        r == register_of(v as nat),
        register_value(r) == v as nat,
{
    Register { high: (v / 256) as u8, low: (v % 256) as u8 }
}

fn apply_operation(op: Operation, dest: Register, mode: RegisterMode, src: Source) -> (r: Register)
    ensures
        r == apply(op, dest, mode, src),
{
    match mode {
        RegisterMode::High => {
            let b = match src {
                Source::Register(reg, m) => if m == RegisterMode::High {
                    reg.high
                } else {
                    reg.low
                },
                Source::Immediate(v) => (v % 256) as u8,
            };
            Register { high: combine_byte(op, dest.high, b), low: dest.low }
        },
        RegisterMode::Low => {
            let b = match src {
                Source::Register(reg, m) => if m == RegisterMode::High {
                    reg.high
                } else {
                    reg.low
                },
                Source::Immediate(v) => (v % 256) as u8,
            };
            Register { high: dest.high, low: combine_byte(op, dest.low, b) }
        },
        RegisterMode::Universal => {
            let w = match src {
                Source::Register(reg, _) => get_register_value(&reg),
                Source::Immediate(v) => v,
            };
            split_word(combine_word(op, get_register_value(&dest), w))
        },
    }
}

/// The zero and sign condition flags.
#[derive(Clone, Copy, Debug, PartialEq, Eq, Structural)]
pub struct ConditionFlags {
    pub zero: bool,
    pub sign: bool,
}

pub open spec fn flags_for(v: nat) -> ConditionFlags {
    ConditionFlags { zero: v == 0, sign: v >= 0x8000 }
}

/// Sets Zero when the destination value is zero and Sign when its bit 15 is set.
pub fn set_flags(destination: u16, flags: &mut ConditionFlags)
    ensures
        *final(flags) == flags_for(destination as nat),
        final(flags).zero <==> destination == 0,
        final(flags).sign <==> destination & 0x8000 != 0,
{
    flags.zero = destination == 0;
    flags.sign = destination >= 32768;
    assert(destination >= 32768 <==> destination & 0x8000 != 0) by (bit_vector);
}

/// One executed step: the parent register of the destination, with its value
/// before and after.
#[derive(Debug)]
pub struct ExecutedOperation {
    pub dest_reg: String,
    pub dest_start: u16,
    pub dest_end: u16,
}

pub struct ExecutedSpec {
    pub dest_reg: Seq<char>,
    pub dest_start: nat,
    pub dest_end: nat,
}

impl View for ExecutedOperation {
    type V = ExecutedSpec;

    open spec fn view(&self) -> ExecutedSpec {
        ExecutedSpec {
            dest_reg: self.dest_reg@,
            dest_start: self.dest_start as nat,
            dest_end: self.dest_end as nat,
        }
    }
}

/// The slot of the destination and its new value, for `op` on the instruction
/// `d`. The source is resolved first, then the destination.
pub open spec fn operation_result(op: Operation, regs: Seq<Register>, d: DecodedSpec) -> Result<
    (nat, Register),
    ExecError,
> {
    match source_of(regs, d.source) {
        Err(e) => Err(e),
        Ok(src) => match register_mode_of(d.destination) {
            None => Err(ExecError::InvalidDestination),
            Some(mode) => {
                let slot = parent_slot(d.destination);
                Ok((slot, apply(op, regs[slot as int], mode, src)))
            },
        },
    }
}

pub open spec fn executed(regs: Seq<Register>, slot: nat, new: Register) -> ExecutedSpec {
    ExecutedSpec {
        dest_reg: slot_name(slot),
        dest_start: register_value(regs[slot as int]),
        dest_end: register_value(new),
    }
}

/// Computes `op` on the instruction without changing the register file.
fn compute(op: Operation, instruction: &DecodedArgument, registers: &RegisterFile) -> (r: Result<
    (usize, Register, ExecutedOperation),
    ExecError,
>)
    requires
        registers.wf(),
    ensures
        match r {
            Ok((slot, new, step)) => operation_result(op, registers@, instruction@) == Ok::<
                (nat, Register),
                ExecError,
            >((slot as nat, new)) && slot < REGISTER_COUNT && step@ == executed(
                registers@,
                slot as nat,
                new,
            ),
            Err(e) => operation_result(op, registers@, instruction@) == Err::<
                (nat, Register),
                ExecError,
            >(e),
        },
{
    let source = match get_source(registers, instruction.source.as_str()) {
        Ok(s) => s,
        Err(e) => {
            return Err(e);
        },
    };
    let mode = match RegisterMode::parse(instruction.destination.as_str()) {
        Some(m) => m,
        None => {
            return Err(ExecError::InvalidDestination);
        },
    };
    proof {
        lemma_parent_slot(instruction@.destination);
    }
    let slot = match parent_register_slot(instruction.destination.as_str()) {
        Some(i) => i,
        None => {
            return Err(ExecError::InvalidDestination);
        },
    };
    let destination = registers.get(slot);
    let new = apply_operation(op, destination, mode, source);
    let step = ExecutedOperation {
        dest_reg: String::from_str(register_name_of_slot(slot)),
        dest_start: get_register_value(&destination),
        dest_end: get_register_value(&new),
    };
    Ok((slot, new, step))
}

/// Executes `mov`: the addressed part of the destination receives the source.
/// Flags are left as they are.
pub fn execute_register_register_mov(
    instruction: &DecodedArgument,
    registers: &mut RegisterFile,
) -> (r: Result<ExecutedOperation, ExecError>)
    requires
        old(registers).wf(),
    ensures
        final(registers).wf(),
        match operation_result(Operation::Mov, old(registers)@, instruction@) {
            Ok((slot, new)) => r matches Ok(step) && step@ == executed(old(registers)@, slot, new)
                && final(registers)@ == old(registers)@.update(slot as int, new),
            Err(e) => r == Err::<ExecutedOperation, ExecError>(e) && final(registers)@ == old(
                registers,
            )@,
        },
{
    match compute(Operation::Mov, instruction, registers) {
        Ok((slot, new, step)) => {
            registers.set(slot, new);
            Ok(step)
        },
        Err(e) => Err(e),
    }
}

/// Executes `add`: the source is added to the addressed part of the
/// destination, and the flags follow the destination's new 16-bit value.
pub fn execute_register_register_add(
    instruction: &DecodedArgument,
    registers: &mut RegisterFile,
    flags: &mut ConditionFlags,
) -> (r: Result<ExecutedOperation, ExecError>)
    requires
        old(registers).wf(),
    ensures
        final(registers).wf(),
        match operation_result(Operation::Add, old(registers)@, instruction@) {
            Ok((slot, new)) => r matches Ok(step) && step@ == executed(old(registers)@, slot, new)
                && final(registers)@ == old(registers)@.update(slot as int, new) && *final(flags)
                == flags_for(register_value(new)),
            Err(e) => r == Err::<ExecutedOperation, ExecError>(e) && final(registers)@ == old(
                registers,
            )@ && *final(flags) == *old(flags),
        },
{
    match compute(Operation::Add, instruction, registers) {
        Ok((slot, new, step)) => {
            registers.set(slot, new);
            set_flags(get_register_value(&new), flags);
            Ok(step)
        },
        Err(e) => Err(e),
    }
}

/// Executes `sub`: the source is subtracted from the addressed part of the
/// destination, and the flags follow the destination's new 16-bit value.
pub fn execute_register_register_sub(
    instruction: &DecodedArgument,
    registers: &mut RegisterFile,
    flags: &mut ConditionFlags,
) -> (r: Result<ExecutedOperation, ExecError>)
    requires
        old(registers).wf(),
    ensures
        final(registers).wf(),
        match operation_result(Operation::Sub, old(registers)@, instruction@) {
            Ok((slot, new)) => r matches Ok(step) && step@ == executed(old(registers)@, slot, new)
                && final(registers)@ == old(registers)@.update(slot as int, new) && *final(flags)
                == flags_for(register_value(new)),
            Err(e) => r == Err::<ExecutedOperation, ExecError>(e) && final(registers)@ == old(
                registers,
            )@ && *final(flags) == *old(flags),
        },
{
    match compute(Operation::Sub, instruction, registers) {
        Ok((slot, new, step)) => {
            registers.set(slot, new);
            set_flags(get_register_value(&new), flags);
            Ok(step)
        },
        Err(e) => Err(e),
    }
}

/// Executes `cmp`: the subtraction is computed on a copy of the destination,
/// only to set the flags; the register file is left unchanged.
pub fn execute_register_register_cmp(
    instruction: &DecodedArgument,
    registers: &RegisterFile,
    flags: &mut ConditionFlags,
) -> (r: Result<ExecutedOperation, ExecError>)
    requires
        registers.wf(),
    ensures
        match operation_result(Operation::Sub, registers@, instruction@) {
            Ok((slot, new)) => r matches Ok(step) && step@ == executed(registers@, slot, new)
                && *final(flags) == flags_for(register_value(new)),
            Err(e) => r == Err::<ExecutedOperation, ExecError>(e) && *final(flags) == *old(flags),
        },
{
    match compute(Operation::Sub, instruction, registers) {
        Ok((_slot, new, step)) => {
            set_flags(get_register_value(&new), flags);
            Ok(step)
        },
        Err(e) => Err(e),
    }
}

/// The registers and flags of the simulated machine.
pub struct MachineSpec {
    pub regs: Seq<Register>,
    pub flags: ConditionFlags,
}

pub open spec fn initial_machine() -> MachineSpec {
    MachineSpec {
        regs: Seq::new(12, |i: int| Register { low: 0, high: 0 }),
        flags: ConditionFlags { zero: false, sign: false },
    }
}

/// Executes one instruction. `mov`, `add`, `sub` and `cmp` are interpreted and
/// leave one step in the trace; any other mnemonic leaves the machine as it is.
pub open spec fn execute_one(m: MachineSpec, d: DecodedSpec) -> Result<
    (MachineSpec, Seq<ExecutedSpec>),
    ExecError,
> {
    let op = if d.mnemonic == "mov"@ {
        Operation::Mov
    } else if d.mnemonic == "add"@ {
        Operation::Add
    } else {
        Operation::Sub
    };
    if d.mnemonic == "mov"@ || d.mnemonic == "add"@ || d.mnemonic == "sub"@ || d.mnemonic
        == "cmp"@ {
        match operation_result(op, m.regs, d) {
            Err(e) => Err(e),
            Ok((slot, new)) => Ok(
                (
                    MachineSpec {
                        regs: if d.mnemonic == "cmp"@ {
                            m.regs
                        } else {
                            m.regs.update(slot as int, new)
                        },
                        flags: if d.mnemonic == "mov"@ {
                            m.flags
                        } else {
                            flags_for(register_value(new))
                        },
                    },
                    seq![executed(m.regs, slot, new)],
                ),
            ),
        }
    } else {
        Ok((m, seq![]))
    }
}

/// Executes the instructions in order; the first failure ends the run.
pub open spec fn run(m: MachineSpec, ds: Seq<DecodedSpec>) -> Result<
    (MachineSpec, Seq<ExecutedSpec>),
    ExecError,
>
    decreases ds.len(),
{
    if ds.len() == 0 {
        Ok((m, seq![]))
    } else {
        match execute_one(m, ds[0]) {
            Err(e) => Err(e),
            Ok((next, steps)) => match run(next, ds.drop_first()) {
                Ok((last, rest)) => Ok((last, steps + rest)),
                Err(e) => Err(e),
            },
        }
    }
}

pub open spec fn with_history(
    h: Seq<ExecutedSpec>,
    r: Result<(MachineSpec, Seq<ExecutedSpec>), ExecError>,
) -> Result<(MachineSpec, Seq<ExecutedSpec>), ExecError> {
    match r {
        Ok((m, rest)) => Ok((m, h + rest)),
        Err(e) => Err(e),
    }
}

pub open spec fn executed_views(v: Seq<ExecutedOperation>) -> Seq<ExecutedSpec> {
    v.map_values(|o: ExecutedOperation| o@)
}

/// The trace of a run, the final registers and the final flags.
pub struct SimulationResult {
    pub steps: Vec<ExecutedOperation>,
    pub final_status: RegisterFile,
    pub flags: ConditionFlags,
}

fn is_mnemonic(s: &String, m: &str) -> (r: bool)
    ensures
        r == (s@ == m@),
{
    *s == String::from_str(m)
}

pub(crate) proof fn lemma_mnemonics_distinct()
    ensures
        "mov"@ != "add"@,
        "mov"@ != "sub"@,
        "mov"@ != "cmp"@,
        "add"@ != "sub"@,
        "add"@ != "cmp"@,
        "sub"@ != "cmp"@,
{
    reveal_strlit("mov");
    reveal_strlit("add");
    reveal_strlit("sub");
    reveal_strlit("cmp");
    assert("mov"@[0] != "add"@[0]);
    assert("mov"@[0] != "sub"@[0]);
    assert("mov"@[0] != "cmp"@[0]);
    assert("add"@[0] != "sub"@[0]);
    assert("add"@[0] != "cmp"@[0]);
    assert("sub"@[0] != "cmp"@[0]);
}

/// Executes one instruction; `None` for a mnemonic that is not interpreted.
fn execute_step(
    instruction: &DecodedArgument,
    registers: &mut RegisterFile,
    flags: &mut ConditionFlags,
) -> (r: Result<Option<ExecutedOperation>, ExecError>)
    requires
        old(registers).wf(),
    ensures
        final(registers).wf(),
        match execute_one(MachineSpec { regs: old(registers)@, flags: *old(flags) }, instruction@) {
            Ok((m, steps)) => r matches Ok(o) && final(registers)@ == m.regs && *final(flags)
                == m.flags && steps == match o {
                Some(step) => seq![step@],
                None => Seq::<ExecutedSpec>::empty(),
            },
            Err(e) => r == Err::<Option<ExecutedOperation>, ExecError>(e),
        },
{
    proof {
        lemma_mnemonics_distinct();
    }
    let outcome = if is_mnemonic(&instruction.operand, "mov") {
        execute_register_register_mov(instruction, registers)
    } else if is_mnemonic(&instruction.operand, "add") {
        execute_register_register_add(instruction, registers, flags)
    } else if is_mnemonic(&instruction.operand, "sub") {
        execute_register_register_sub(instruction, registers, flags)
    } else if is_mnemonic(&instruction.operand, "cmp") {
        execute_register_register_cmp(instruction, registers, flags)
    } else {
        return Ok(None);
    };
    match outcome {
        Ok(step) => Ok(Some(step)),
        Err(e) => Err(e),
    }
}

/// Executes the instructions in order on a zeroed register file.
pub fn execute_instructions(instructions: &Vec<DecodedArgument>) -> (r: Result<
    SimulationResult,
    ExecError,
>)
    ensures
        match run(initial_machine(), decoded_views(instructions@)) {
            Ok((m, steps)) => r matches Ok(res) && res.final_status.wf() && res.final_status@
                == m.regs && res.flags == m.flags && executed_views(res.steps@) == steps,
            Err(e) => r == Err::<SimulationResult, ExecError>(e),
        },
{
    let mut registers = RegisterFile::new();
    let mut flags = ConditionFlags { zero: false, sign: false };
    let mut execution_history: Vec<ExecutedOperation> = Vec::new();
    let ghost ds = decoded_views(instructions@);
    assert(registers@ =~= initial_machine().regs);
    assert(ds.subrange(0, ds.len() as int) =~= ds);
    assert(with_history(seq![], run(initial_machine(), ds)) == run(initial_machine(), ds)) by {
        if let Ok((m, rest)) = run(initial_machine(), ds) {
            assert(Seq::<ExecutedSpec>::empty() + rest =~= rest);
        }
    }
    assert(executed_views(execution_history@) =~= seq![]);
    let mut i: usize = 0;
    while i < instructions.len()
        invariant
            ds == decoded_views(instructions@),
            0 <= i <= ds.len(),
            registers.wf(),
            run(initial_machine(), ds) == with_history(
                executed_views(execution_history@),
                run(MachineSpec { regs: registers@, flags }, ds.subrange(i as int, ds.len() as int)),
            ),
        decreases ds.len() - i,
    {
        let instruction = &instructions[i];
        let ghost m = MachineSpec { regs: registers@, flags };
        let ghost rest = ds.subrange(i as int, ds.len() as int);
        let ghost hist = executed_views(execution_history@);
        assert(rest[0] == instruction@);
        assert(rest.drop_first() =~= ds.subrange(i + 1, ds.len() as int));
        match execute_step(instruction, &mut registers, &mut flags) {
            Ok(Some(step)) => {
                execution_history.push(step);
                assert(executed_views(execution_history@) =~= hist + seq![step@]);
            },
            Ok(None) => {
                assert(executed_views(execution_history@) =~= hist + Seq::<ExecutedSpec>::empty());
            },
            Err(e) => {
                return Err(e);
            },
        }
        i = i + 1;
        assert(with_history(hist, run(m, rest)) == with_history(
            executed_views(execution_history@),
            run(MachineSpec { regs: registers@, flags }, ds.subrange(i as int, ds.len() as int)),
        )) by {
            if let Ok((last, tail)) = run(
                MachineSpec { regs: registers@, flags },
                ds.subrange(i as int, ds.len() as int),
            ) {
                let s1 = execute_one(m, instruction@)->Ok_0.1;
                assert(hist + (s1 + tail) =~= (hist + s1) + tail);
            }
        }
    }
    assert(ds.subrange(i as int, ds.len() as int).len() == 0);
    assert(executed_views(execution_history@) + seq![] =~= executed_views(execution_history@));
    Ok(SimulationResult { steps: execution_history, final_status: registers, flags })
}

} // verus!
