use vstd::prelude::*;
use vstd::string::*;

verus! {

/// The character of a decimal digit.
pub open spec fn digit_char(d: nat) -> char {
    seq!['0', '1', '2', '3', '4', '5', '6', '7', '8', '9'][d as int]
}

/// The decimal representation of `n`, without leading zeros.
pub open spec fn decimal(n: nat) -> Seq<char>
    decreases n,
{
    if n < 10 {
        seq![digit_char(n)]
    } else {
        decimal(n / 10).push(digit_char(n % 10))
    }
}

fn digit_str(d: u32) -> (r: &'static str)
    requires
        d < 10,
    ensures
        r@ == seq![digit_char(d as nat)],
{
    if d == 0 {
        proof { reveal_strlit("0"); }
        assert("0"@ =~= seq![digit_char(0)]);
        "0"
    } else if d == 1 {
        proof { reveal_strlit("1"); }
        assert("1"@ =~= seq![digit_char(1)]);
        "1"
    } else if d == 2 {
        proof { reveal_strlit("2"); }
        assert("2"@ =~= seq![digit_char(2)]);
        "2"
    } else if d == 3 {
        proof { reveal_strlit("3"); }
        assert("3"@ =~= seq![digit_char(3)]);
        "3"
    } else if d == 4 {
        proof { reveal_strlit("4"); }
        assert("4"@ =~= seq![digit_char(4)]);
        "4"
    } else if d == 5 {
        proof { reveal_strlit("5"); }
        assert("5"@ =~= seq![digit_char(5)]);
        "5"
    } else if d == 6 {
        proof { reveal_strlit("6"); }
        assert("6"@ =~= seq![digit_char(6)]);
        "6"
    } else if d == 7 {
        proof { reveal_strlit("7"); }
        assert("7"@ =~= seq![digit_char(7)]);
        "7"
    } else if d == 8 {
        proof { reveal_strlit("8"); }
        assert("8"@ =~= seq![digit_char(8)]);
        "8"
    } else {
        proof { reveal_strlit("9"); }
        assert("9"@ =~= seq![digit_char(9)]);
        "9"
    }
}

/// Appends the decimal representation of `n` to `s`.
pub fn push_decimal(s: &mut String, n: u32)
    ensures
        final(s)@ == old(s)@ + decimal(n as nat),
    decreases n,
{
    if n >= 10 {
        push_decimal(s, n / 10);
    }
    s.append(digit_str(n % 10));
    assert(final(s)@ =~= old(s)@ + decimal(n as nat));
}

/// The decimal text of a 16-bit value.
pub fn decimal_string(n: u16) -> (r: String)
    ensures
        r@ == decimal(n as nat),
{
    let mut s = String::new();
    push_decimal(&mut s, n as u32);
    assert(s@ =~= decimal(n as nat));
    s
}

/// The two letters of the register that a three-bit field names, for byte
/// (`w == 0`) or word (`w == 1`) operands.
pub open spec fn register_chars(w: u8, reg: u8) -> (char, char) {
    if w == 0 {
        if reg == 0 {
            ('a', 'l')
        } else if reg == 1 {
            ('c', 'l')
        } else if reg == 2 {
            ('d', 'l')
        } else if reg == 3 {
            ('b', 'l')
        } else if reg == 4 {
            ('a', 'h')
        } else if reg == 5 {
            ('c', 'h')
        } else if reg == 6 {
            ('d', 'h')
        } else {
            ('b', 'h')
        }
    } else {
        if reg == 0 {
            ('a', 'x')
        } else if reg == 1 {
            ('c', 'x')
        } else if reg == 2 {
            ('d', 'x')
        } else if reg == 3 {
            ('b', 'x')
        } else if reg == 4 {
            ('s', 'p')
        } else if reg == 5 {
            ('b', 'p')
        } else if reg == 6 {
            ('s', 'i')
        } else {
            ('d', 'i')
        }
    }
}

pub open spec fn register_name(w: u8, reg: u8) -> Seq<char> {
    seq![register_chars(w, reg).0, register_chars(w, reg).1]
}

/// The register that a three-bit field names.
pub fn decode_register(w: u8, reg: u8) -> (r: String)
    requires
        reg < 8,
    ensures
        r@ == register_name(w, reg),
{
    let s: &str = if w == 0 {
        if reg == 0 {
            proof { reveal_strlit("al"); }
            assert("al"@ =~= register_name(0, 0));
            "al"
        } else if reg == 1 {
            proof { reveal_strlit("cl"); }
            assert("cl"@ =~= register_name(0, 1));
            "cl"
        } else if reg == 2 {
            proof { reveal_strlit("dl"); }
            assert("dl"@ =~= register_name(0, 2));
            "dl"
        } else if reg == 3 {
            proof { reveal_strlit("bl"); }
            assert("bl"@ =~= register_name(0, 3));
            "bl"
        } else if reg == 4 {
            proof { reveal_strlit("ah"); }
            assert("ah"@ =~= register_name(0, 4));
            "ah"
        } else if reg == 5 {
            proof { reveal_strlit("ch"); }
            assert("ch"@ =~= register_name(0, 5));
            "ch"
        } else if reg == 6 {
            proof { reveal_strlit("dh"); }
            assert("dh"@ =~= register_name(0, 6));
            "dh"
        } else {
            proof { reveal_strlit("bh"); }
            assert("bh"@ =~= register_name(0, 7));
            "bh"
        }
    } else {
        if reg == 0 {
            proof { reveal_strlit("ax"); }
            assert("ax"@ =~= register_name(1, 0));
            "ax"
        } else if reg == 1 {
            proof { reveal_strlit("cx"); }
            assert("cx"@ =~= register_name(1, 1));
            "cx"
        } else if reg == 2 {
            proof { reveal_strlit("dx"); }
            assert("dx"@ =~= register_name(1, 2));
            "dx"
        } else if reg == 3 {
            proof { reveal_strlit("bx"); }
            assert("bx"@ =~= register_name(1, 3));
            "bx"
        } else if reg == 4 {
            proof { reveal_strlit("sp"); }
            assert("sp"@ =~= register_name(1, 4));
            "sp"
        } else if reg == 5 {
            proof { reveal_strlit("bp"); }
            assert("bp"@ =~= register_name(1, 5));
            "bp"
        } else if reg == 6 {
            proof { reveal_strlit("si"); }
            assert("si"@ =~= register_name(1, 6));
            "si"
        } else {
            proof { reveal_strlit("di"); }
            assert("di"@ =~= register_name(1, 7));
            "di"
        }
    };
    String::from_str(s)
}

/// The base expression of a memory operand that a three-bit field names.
pub open spec fn memory_base(rm: u8) -> Seq<char> {
    let plus = seq![' ', '+', ' '];
    if rm == 0 {
        register_name(1, 3) + plus + register_name(1, 6)
    } else if rm == 1 {
        register_name(1, 3) + plus + register_name(1, 7)
    } else if rm == 2 {
        register_name(1, 5) + plus + register_name(1, 6)
    } else if rm == 3 {
        register_name(1, 5) + plus + register_name(1, 7)
    } else if rm == 4 {
        register_name(1, 6)
    } else if rm == 5 {
        register_name(1, 7)
    } else if rm == 6 {
        register_name(1, 5)
    } else {
        register_name(1, 3)
    }
}

/// The text of a memory operand: `[base]`, or `[base + displacement]` when the
/// displacement is not zero.
pub open spec fn memory_text(rm: u8, displacement: nat) -> Seq<char> {
    if displacement > 0 {
        seq!['['] + memory_base(rm) + seq![' ', '+', ' '] + decimal(displacement) + seq![']']
    } else {
        seq!['['] + memory_base(rm) + seq![']']
    }
}

fn memory_base_str(rm: u8) -> (r: &'static str)
    requires
        rm < 8,
    ensures
        r@ == memory_base(rm),
{
    if rm == 0 {
        proof { reveal_strlit("bx + si"); }
        assert("bx + si"@ =~= memory_base(0));
        "bx + si"
    } else if rm == 1 {
        proof { reveal_strlit("bx + di"); }
        assert("bx + di"@ =~= memory_base(1));
        "bx + di"
    } else if rm == 2 {
        proof { reveal_strlit("bp + si"); }
        assert("bp + si"@ =~= memory_base(2));
        "bp + si"
    } else if rm == 3 {
        proof { reveal_strlit("bp + di"); }
        assert("bp + di"@ =~= memory_base(3));
        "bp + di"
    } else if rm == 4 {
        proof { reveal_strlit("si"); }
        assert("si"@ =~= memory_base(4));
        "si"
    } else if rm == 5 {
        proof { reveal_strlit("di"); }
        assert("di"@ =~= memory_base(5));
        "di"
    } else if rm == 6 {
        proof { reveal_strlit("bp"); }
        assert("bp"@ =~= memory_base(6));
        "bp"
    } else {
        proof { reveal_strlit("bx"); }
        assert("bx"@ =~= memory_base(7));
        "bx"
    }
}

/// Renders a memory operand.
pub fn decode_memory_address(rm: u8, displacement: u16) -> (r: String)
    requires
        rm < 8,
    ensures
        r@ == memory_text(rm, displacement as nat),
{
    proof {
        reveal_strlit("[");
        reveal_strlit("]");
        reveal_strlit(" + ");
    }
    let mut s = String::from_str("[");
    s.append(memory_base_str(rm));
    if displacement > 0 {
        s.append(" + ");
        push_decimal(&mut s, displacement as u32);
    }
    s.append("]");
    assert(s@ =~= memory_text(rm, displacement as nat));
    s
}

/// The segment register that a two-bit field names.
pub open spec fn segment_name(sr: u8) -> Seq<char> {
    if sr == 0 {
        seq!['e', 's']
    } else if sr == 1 {
        seq!['c', 's']
    } else if sr == 2 {
        seq!['s', 's']
    } else {
        seq!['d', 's']
    }
}

/// Renders the segment register that a two-bit field names.
pub fn decode_segment_register(sr: u8) -> (r: String)
    ensures
        r@ == segment_name(sr),
{
    let s: &str = if sr == 0 {
        proof { reveal_strlit("es"); }
        assert("es"@ =~= segment_name(0));
        "es"
    } else if sr == 1 {
        proof { reveal_strlit("cs"); }
        assert("cs"@ =~= segment_name(1));
        "cs"
    } else if sr == 2 {
        proof { reveal_strlit("ss"); }
        assert("ss"@ =~= segment_name(2));
        "ss"
    } else {
        proof { reveal_strlit("ds"); }
        assert("ds"@ =~= segment_name(sr));
        "ds"
    };
    String::from_str(s)
}

/// The text of an absolute memory address: `[address]`.
pub open spec fn direct_address_text(address: nat) -> Seq<char> {
    seq!['['] + decimal(address) + seq![']']
}

/// Renders an absolute memory address.
pub fn decode_direct_address(address: u16) -> (r: String)
    ensures
        r@ == direct_address_text(address as nat),
{
    proof {
        reveal_strlit("[");
        reveal_strlit("]");
    }
    let mut s = String::from_str("[");
    push_decimal(&mut s, address as u32);
    s.append("]");
    assert(s@ =~= direct_address_text(address as nat));
    s
}

/// The value of a digit character in base 10 or 16; hexadecimal letters may be
/// of either case.
pub open spec fn digit_value(c: char, radix: nat) -> Option<nat> {
    if '0' <= c && c <= '9' {
        Some((c as nat - '0' as nat) as nat)
    } else if radix == 16 && 'a' <= c && c <= 'f' {
        Some((c as nat - 'a' as nat + 10) as nat)
    } else if radix == 16 && 'A' <= c && c <= 'F' {
        Some((c as nat - 'A' as nat + 10) as nat)
    } else {
        None
    }
}

/// The value of a string of digits, most significant first; `None` when a
/// character is no digit.
pub open spec fn digits_value(s: Seq<char>, radix: nat) -> Option<nat>
    decreases s.len(),
{
    if s.len() == 0 {
        Some(0)
    } else {
        match (digits_value(s.drop_last(), radix), digit_value(s.last(), radix)) {
            (Some(v), Some(d)) => Some(v * radix + d),
            _ => None,
        }
    }
}

/// A non-empty string of digits whose value fits in 16 bits.
pub open spec fn small_number(s: Seq<char>, radix: nat) -> Option<nat> {
    if s.len() > 0 && digits_value(s, radix) is Some && digits_value(s, radix)->Some_0 <= 0xffff {
        digits_value(s, radix)
    } else {
        None
    }
}

proof fn lemma_digits_prefix(s: Seq<char>, radix: nat, i: int)
    requires
        0 <= i <= s.len(),
        radix >= 1,
        digits_value(s, radix) is Some,
    ensures
        digits_value(s.subrange(0, i), radix) is Some,
        digits_value(s.subrange(0, i), radix)->Some_0 <= digits_value(s, radix)->Some_0,
    decreases s.len(),
{
    if i == s.len() {
        assert(s.subrange(0, i) =~= s);
    } else {
        let t = s.drop_last();
        assert(t.subrange(0, i) =~= s.subrange(0, i));
        lemma_digits_prefix(t, radix, i);
        let v = digits_value(t, radix)->Some_0;
        assert(v <= v * radix) by (nonlinear_arith)
            requires
                radix >= 1,
        ;
    }
}

fn char_digit(c: char, radix: u32) -> (r: Option<u32>)
    requires
        radix == 10 || radix == 16,
    ensures
        match r {
            Some(d) => digit_value(c, radix as nat) == Some(d as nat) && d < radix,
            None => digit_value(c, radix as nat) is None,
        },
{
    if '0' <= c && c <= '9' {
        Some((c as u32) - ('0' as u32))
    } else if radix == 16 && 'a' <= c && c <= 'f' {
        Some((c as u32) - ('a' as u32) + 10)
    } else if radix == 16 && 'A' <= c && c <= 'F' {
        Some((c as u32) - ('A' as u32) + 10)
    } else {
        None
    }
}

/// Reads the characters of `s` from index `from` on as a number in base
/// `radix` that fits in 16 bits.
pub fn parse_number(s: &str, from: usize, radix: u32) -> (r: Option<u16>)
    requires
        radix == 10 || radix == 16,
        from <= s@.len(),
    ensures
        match r {
            Some(v) => small_number(s@.subrange(from as int, s@.len() as int), radix as nat) == Some(
                v as nat,
            ),
            None => small_number(s@.subrange(from as int, s@.len() as int), radix as nat) is None,
        },
{
    let n = s.unicode_len();
    let ghost t = s@.subrange(from as int, s@.len() as int);
    if from >= n {
        return None;
    }
    let mut acc: u32 = 0;
    let mut i: usize = from;
    assert(t.subrange(0, 0) =~= seq![]);
    while i < n
        invariant
            n == s@.len(),
            t == s@.subrange(from as int, s@.len() as int),
            radix == 10 || radix == 16,
            from <= i <= n,
            acc <= 0xffff,
            digits_value(t.subrange(0, i - from), radix as nat) == Some(acc as nat),
        decreases n - i,
    {
        let c = s.get_char(i);
        let ghost p = t.subrange(0, i - from + 1);
        assert(p.drop_last() =~= t.subrange(0, i - from));
        assert(p.last() == c);
        match char_digit(c, radix) {
            None => {
                proof {
                    if digits_value(t, radix as nat) is Some {
                        lemma_digits_prefix(t, radix as nat, i - from + 1);
                    }
                }
                return None;
            },
            Some(d) => {
                acc = acc * radix + d;
                if acc > 0xffff {
                    proof {
                        if digits_value(t, radix as nat) is Some {
                            lemma_digits_prefix(t, radix as nat, i - from + 1);
                        }
                    }
                    return None;
                }
            },
        }
        i = i + 1;
    }
    assert(t.subrange(0, i - from) =~= t);
    Some(acc as u16)
}

} // verus!
