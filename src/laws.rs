use vstd::prelude::*;

use crate::decoder::{
    arg_step, bit_at, decode_at, decode_spec, flags_prefix, flags_spec, match_from, match_group,
    match_spec, msb_mask, no_flags, run_args, start_state, walk, window_end, with_flag, ArgState,
    DecodeError, DecodedFlags, DecodedSpec,
};
use crate::instruction_table::{
    instruction_table_spec, reg_rm_spec, Argument, Flag, InstructionSpec, LookupSpec,
    SecondaryOperand,
};
use crate::listing::{has_no, lemma_render_parse, parse_spec, render_spec};
use crate::simulator::{
    execute_one, lemma_mnemonics_distinct, lemma_parent_slot, register_mode_of,
    register_value, slot_of, ConditionFlags, MachineSpec, RegisterMode,
};
use crate::text::{
    decimal, digit_char, direct_address_text, memory_base, memory_text, register_name,
};

verus! {

// ---------------------------------------------------------------------------
// Operand texts hold no comma, mnemonics no space
// ---------------------------------------------------------------------------

proof fn lemma_digit_char(d: nat)
    requires
        d < 10,
    ensures
        '0' <= digit_char(d) <= '9',
{
    if d == 0 {
        assert(digit_char(0) == '0');
    } else if d == 1 {
        assert(digit_char(1) == '1');
    } else if d == 2 {
        assert(digit_char(2) == '2');
    } else if d == 3 {
        assert(digit_char(3) == '3');
    } else if d == 4 {
        assert(digit_char(4) == '4');
    } else if d == 5 {
        assert(digit_char(5) == '5');
    } else if d == 6 {
        assert(digit_char(6) == '6');
    } else if d == 7 {
        assert(digit_char(7) == '7');
    } else if d == 8 {
        assert(digit_char(8) == '8');
    } else if d == 9 {
        assert(digit_char(9) == '9');
    }
}

proof fn lemma_decimal_digits(n: nat)
    ensures
        forall|i: int| 0 <= i < decimal(n).len() ==> '0' <= #[trigger] decimal(n)[i] <= '9',
    decreases n,
{
    lemma_digit_char(n % 10);
    if n >= 10 {
        lemma_decimal_digits(n / 10);
        let s = decimal(n / 10);
        assert(decimal(n) == s.push(digit_char(n % 10)));
        assert forall|i: int| 0 <= i < decimal(n).len() implies '0' <= #[trigger] decimal(n)[i] <= '9' by {
            if i < s.len() {
                assert(decimal(n)[i] == s[i]);
            }
        }
    } else {
        assert(decimal(n) == seq![digit_char(n)]);
    }
}

proof fn lemma_texts_plain()
    ensures
        forall|n: nat| #[trigger] has_no(decimal(n), ','),
        forall|w: u8, r: u8| #[trigger] has_no(register_name(w, r), ','),
        forall|rm: u8, d: nat| #[trigger] has_no(memory_text(rm, d), ','),
        forall|a: nat| #[trigger] has_no(direct_address_text(a), ','),
{
    assert forall|a: nat| #[trigger] has_no(direct_address_text(a), ',') by {
        lemma_decimal_digits(a);
    }
    assert forall|n: nat| #[trigger] has_no(decimal(n), ',') by {
        lemma_decimal_digits(n);
    }
    assert forall|w: u8, r: u8| #[trigger] has_no(register_name(w, r), ',') by {}
    assert forall|rm: u8, d: nat| #[trigger] has_no(memory_text(rm, d), ',') by {
        let b = memory_base(rm);
        assert(has_no(b, ',')) by {
            assert(has_no(register_name(1, 3), ','));
            assert(has_no(register_name(1, 5), ','));
            assert(has_no(register_name(1, 6), ','));
            assert(has_no(register_name(1, 7), ','));
        }
        lemma_decimal_digits(d);
    }
}

pub open spec fn state_plain(st: ArgState) -> bool {
    has_no(st.source, ',') && has_no(st.destination, ',')
}

proof fn lemma_run_args_plain(from: Seq<u8>, fl: DecodedFlags, args: Seq<Argument>, st: ArgState)
    requires
        state_plain(st),
    ensures
        run_args(from, fl, args, st) matches Ok(last) ==> state_plain(last),
    decreases args.len(),
{
    lemma_texts_plain();
    if args.len() > 0 {
        if let Ok(next) = arg_step(from, fl, args[0], st) {
            assert(state_plain(next));
            lemma_run_args_plain(from, fl, args.drop_first(), next);
        }
    }
}

/// A decoded instruction whose line can be read back.
pub open spec fn decoded_plain(d: DecodedSpec) -> bool {
    has_no(d.mnemonic, ' ') && has_no(d.destination, ',') && has_no(d.source, ',')
}

proof fn lemma_decode_at_plain(ins: InstructionSpec, input: Seq<u8>, idx: nat)
    requires
        has_no(ins.mnemonic, ' '),
    ensures
        decode_at(ins, input, idx) matches Ok(d) ==> decoded_plain(d),
{
    lemma_texts_plain();
    if ins.offset + ins.flags.len() <= 8 {
        let fl = flags_spec(input[idx as int], ins.offset, ins.flags);
        let window = input.subrange(
            idx as int,
            window_end(ins, input.len(), idx) as int,
        );
        let start = start_state(ins.offset + ins.flags.len());
        assert(has_no(start.source, ','));
        assert(has_no(start.destination, ','));
        lemma_run_args_plain(window, fl, ins.args, start);
    }
}

pub open spec fn table_plain(t: Seq<(u8, LookupSpec)>) -> bool {
    forall|i: int|
        0 <= i < t.len() ==> match #[trigger] t[i].1 {
            LookupSpec::Single(ins) => has_no(ins.mnemonic, ' '),
            LookupSpec::Multi(c) => forall|j: int| 0 <= j < c.len() ==> has_no(#[trigger] c[j].1.mnemonic, ' '),
        }
}

proof fn lemma_table_plain()
    ensures
        table_plain(instruction_table_spec()),
{
    reveal_strlit("mov");
    reveal_strlit("add");
    reveal_strlit("sub");
    reveal_strlit("cmp");
    reveal_strlit("je");
    reveal_strlit("jl");
    reveal_strlit("jle");
    reveal_strlit("jb");
    reveal_strlit("jbe");
    reveal_strlit("jp");
    reveal_strlit("jo");
    reveal_strlit("js");
    reveal_strlit("jne");
    reveal_strlit("jnl");
    reveal_strlit("jnle");
    reveal_strlit("jnb");
    reveal_strlit("jnbe");
    reveal_strlit("jnp");
    reveal_strlit("jno");
    reveal_strlit("jns");
    reveal_strlit("loop");
    reveal_strlit("loopz");
    reveal_strlit("loopnz");
    reveal_strlit("jcxz");
    let t = instruction_table_spec();
    assert forall|i: int| 0 <= i < t.len() implies match #[trigger] t[i].1 {
        LookupSpec::Single(ins) => has_no(ins.mnemonic, ' '),
        LookupSpec::Multi(c) => forall|j: int| 0 <= j < c.len() ==> has_no(#[trigger] c[j].1.mnemonic, ' '),
    } by {
        if let LookupSpec::Multi(c) = t[i].1 {
            assert forall|j: int| 0 <= j < c.len() implies has_no(#[trigger] c[j].1.mnemonic, ' ') by {}
        }
    }
}

proof fn lemma_match_group_plain(
    cands: Seq<(SecondaryOperand, InstructionSpec)>,
    pattern: u8,
    b0: u8,
    b1: u8,
    j: nat,
)
    requires
        forall|k: int| 0 <= k < cands.len() ==> has_no(#[trigger] cands[k].1.mnemonic, ' '),
    ensures
        match_group(cands, pattern, b0, b1, j) matches Some(ins) ==> has_no(ins.mnemonic, ' '),
    decreases cands.len() - j,
{
    if j < cands.len() {
        lemma_match_group_plain(cands, pattern, b0, b1, j + 1);
    }
}

proof fn lemma_match_from_plain(t: Seq<(u8, LookupSpec)>, b0: u8, b1: u8, i: nat)
    requires
        table_plain(t),
    ensures
        match_from(t, b0, b1, i) matches Some(ins) ==> has_no(ins.mnemonic, ' '),
    decreases t.len() - i,
{
    if i < t.len() {
        let e = t[i as int].1;
        if let LookupSpec::Multi(c) = e {
            lemma_match_group_plain(c, t[i as int].0, b0, b1, 0);
        }
        lemma_match_from_plain(t, b0, b1, i + 1);
    }
}

proof fn lemma_walk_plain(t: Seq<(u8, LookupSpec)>, input: Seq<u8>, idx: nat)
    requires
        table_plain(t),
    ensures
        walk(t, input, idx) matches Ok(ds) ==> forall|k: int|
            0 <= k < ds.len() ==> decoded_plain(#[trigger] ds[k]),
    decreases input.len() - idx,
{
    if idx + 1 < input.len() {
        lemma_match_from_plain(t, input[idx as int], input[idx + 1int], 0);
        match match_spec(t, input[idx as int], input[idx + 1int]) {
            None => {
                lemma_walk_plain(t, input, idx + 1);
            },
            Some(ins) => {
                lemma_decode_at_plain(ins, input, idx);
                if let Ok(d) = decode_at(ins, input, idx) {
                    if d.byte_count > 0 && idx + d.byte_count < input.len() {
                        lemma_walk_plain(t, input, idx + d.byte_count);
                        if let Ok(rest) = walk(t, input, idx + d.byte_count) {
                            let ds = seq![d] + rest;
                            assert forall|k: int| 0 <= k < ds.len() implies decoded_plain(
                                #[trigger] ds[k],
                            ) by {
                                if k > 0 {
                                    assert(ds[k] == rest[k - 1]);
                                }
                            }
                        }
                    }
                }
            },
        }
    }
}

/// Every instruction that a byte stream decodes to, rendered as a line and
/// read back, gives again its mnemonic, destination and source.
pub proof fn lemma_decoded_round_trip(input: Seq<u8>, k: int)
    requires
        decode_spec(input) is Ok,
        0 <= k < decode_spec(input)->Ok_0.len(),
    ensures
        parse_spec(render_spec(decode_spec(input)->Ok_0[k])) == Some(
            (
                decode_spec(input)->Ok_0[k].mnemonic,
                decode_spec(input)->Ok_0[k].destination,
                decode_spec(input)->Ok_0[k].source,
            ),
        ),
{
    lemma_table_plain();
    lemma_walk_plain(instruction_table_spec(), input, 0);
    lemma_render_parse(decode_spec(input)->Ok_0[k]);
}

// ---------------------------------------------------------------------------
// Skipping unrecognised bytes
// ---------------------------------------------------------------------------

proof fn lemma_run_args_extend(
    small: Seq<u8>,
    big: Seq<u8>,
    fl: DecodedFlags,
    args: Seq<Argument>,
    st: ArgState,
)
    requires
        small.len() <= big.len(),
        forall|i: int| 0 <= i < small.len() ==> small[i] == big[i],
        run_args(small, fl, args, st) is Ok,
    ensures
        run_args(big, fl, args, st) == run_args(small, fl, args, st),
    decreases args.len(),
{
    if args.len() > 0 {
        let sb = (st.offset / 8) as int;
        if sb < small.len() {
            assert(small[sb] == big[sb]);
        }
        if sb + 1 < small.len() {
            assert(small[sb + 1] == big[sb + 1]);
        }
        if sb + 2 < small.len() {
            assert(small[sb + 2] == big[sb + 2]);
        }
        let next = arg_step(small, fl, args[0], st)->Ok_0;
        assert(arg_step(big, fl, args[0], st) == arg_step(small, fl, args[0], st));
        lemma_run_args_extend(small, big, fl, args.drop_first(), next);
    }
}

/// An instruction that decodes from the start of `a` decodes the same way
/// from the start of any longer stream that begins with `a`.
proof fn lemma_decode_at_extend(ins: InstructionSpec, a: Seq<u8>, s: Seq<u8>)
    requires
        1 <= a.len() <= s.len(),
        a =~= s.subrange(0, a.len() as int),
        decode_at(ins, a, 0) is Ok,
    ensures
        decode_at(ins, s, 0) == decode_at(ins, a, 0),
{
    assert(a[0] == s[0]);
    let fl = flags_spec(a[0], ins.offset, ins.flags);
    let wa = a.subrange(0, window_end(ins, a.len(), 0) as int);
    let ws = s.subrange(0, window_end(ins, s.len(), 0) as int);
    assert forall|i: int| 0 <= i < wa.len() implies wa[i] == ws[i] by {
        assert(wa[i] == a[i]);
    }
    lemma_run_args_extend(wa, ws, fl, ins.args, start_state(ins.offset + ins.flags.len()));
}

/// Decoding at byte `k` of `s` is decoding at the start of what follows `k`.
proof fn lemma_decode_at_shift(ins: InstructionSpec, s: Seq<u8>, k: nat, b: Seq<u8>)
    requires
        k < s.len(),
        b =~= s.subrange(k as int, s.len() as int),
    ensures
        decode_at(ins, s, k) == decode_at(ins, b, 0),
{
    assert(s[k as int] == b[0]);
    assert(s.subrange(k as int, window_end(ins, s.len(), k) as int) =~= b.subrange(
        0,
        window_end(ins, b.len(), 0) as int,
    ));
}

/// When a stream holds exactly one instruction that starts at its first byte,
/// decoding that instruction alone gives it.
proof fn lemma_single(a: Seq<u8>)
    requires
        a.len() >= 2,
        match_spec(instruction_table_spec(), a[0], a[1]) is Some,
        decode_spec(a) matches Ok(da) && da.len() == 1 && da[0].byte_count == a.len(),
    ensures
        decode_at(match_spec(instruction_table_spec(), a[0], a[1])->Some_0, a, 0) == Ok::<
            DecodedSpec,
            DecodeError,
        >(decode_spec(a)->Ok_0[0]),
{
    let t = instruction_table_spec();
    let ins = match_spec(t, a[0], a[1])->Some_0;
    let d = decode_at(ins, a, 0)->Ok_0;
    if d.byte_count < a.len() {
        let rest = walk(t, a, d.byte_count)->Ok_0;
        assert((seq![d] + rest)[0] == d);
    }
}

/// A byte that starts no known encoding, standing between two instructions,
/// is skipped: the stream decodes to the first instruction, then the second,
/// each as it decodes alone.
pub proof fn lemma_resync(a: Seq<u8>, u: u8, b: Seq<u8>)
    requires
        a.len() >= 2,
        match_spec(instruction_table_spec(), a[0], a[1]) is Some,
        decode_spec(a) matches Ok(da) && da.len() == 1 && da[0].byte_count == a.len(),
        match_spec(instruction_table_spec(), u, b[0]) is None,
        b.len() >= 2,
        match_spec(instruction_table_spec(), b[0], b[1]) is Some,
        decode_spec(b) matches Ok(db) && db.len() == 1 && db[0].byte_count == b.len(),
    ensures
        decode_spec(a + seq![u] + b) == Ok::<Seq<DecodedSpec>, DecodeError>(
            decode_spec(a)->Ok_0 + decode_spec(b)->Ok_0,
        ),
{
    let t = instruction_table_spec();
    let s = a + seq![u] + b;
    let k = a.len() + 1;
    let i1 = match_spec(t, a[0], a[1])->Some_0;
    let i2 = match_spec(t, b[0], b[1])->Some_0;
    let d1 = decode_spec(a)->Ok_0[0];
    let d2 = decode_spec(b)->Ok_0[0];
    lemma_single(a);
    lemma_single(b);
    assert(s[0] == a[0] && s[1] == a[1]);
    lemma_decode_at_extend(i1, a, s);
    assert(s[a.len() as int] == u && s[k as int] == b[0] && s[k + 1int] == b[1]);
    lemma_decode_at_shift(i2, s, k, b);
    assert(walk(t, s, k) == Ok::<Seq<DecodedSpec>, DecodeError>(seq![d2]));
    assert(walk(t, s, a.len()) == walk(t, s, k));
    assert(walk(t, s, 0) == Ok::<Seq<DecodedSpec>, DecodeError>(seq![d1] + seq![d2]));
    assert(decode_spec(a)->Ok_0 =~= seq![d1]);
    assert(decode_spec(b)->Ok_0 =~= seq![d2]);
}

// ---------------------------------------------------------------------------
// The direction flag
// ---------------------------------------------------------------------------

proof fn lemma_run_args_congruent(
    f1: Seq<u8>,
    f2: Seq<u8>,
    fl1: DecodedFlags,
    fl2: DecodedFlags,
    args: Seq<Argument>,
    st: ArgState,
)
    requires
        f1.len() == f2.len(),
        forall|i: int| st.offset / 8 <= i < f1.len() ==> f1[i] == f2[i],
        fl1.word_size == fl2.word_size,
        fl1.sign_extend == fl2.sign_extend,
    ensures
        run_args(f1, fl1, args, st) == run_args(f2, fl2, args, st),
    decreases args.len(),
{
    if args.len() > 0 {
        let sb = (st.offset / 8) as int;
        if sb < f1.len() {
            assert(f1[sb] == f2[sb]);
        }
        if sb + 1 < f1.len() {
            assert(f1[sb + 1] == f2[sb + 1]);
        }
        if sb + 2 < f1.len() {
            assert(f1[sb + 2] == f2[sb + 2]);
        }
        assert(arg_step(f1, fl1, args[0], st) == arg_step(f2, fl2, args[0], st));
        if let Ok(next) = arg_step(f1, fl1, args[0], st) {
            assert(next.offset >= st.offset);
            lemma_run_args_congruent(f1, f2, fl1, fl2, args.drop_first(), next);
        }
    }
}

/// The decoded instruction with source and destination exchanged.
pub open spec fn exchanged(r: Result<DecodedSpec, DecodeError>) -> Result<DecodedSpec, DecodeError> {
    match r {
        Ok(d) => Ok(DecodedSpec { source: d.destination, destination: d.source, ..d }),
        Err(e) => Err(e),
    }
}

/// For an encoding whose direction and word-size flags follow six fixed bits,
/// clearing the direction bit of the first byte, rather than setting it,
/// exchanges source and destination and changes nothing else.
pub proof fn lemma_direction_swap(ins: InstructionSpec, s: Seq<u8>)
    requires
        ins.offset == 6,
        ins.flags == seq![Flag::D, Flag::W],
        s.len() >= 1,
    ensures
        decode_at(ins, s.update(0, s[0] & 0xfd), 0) == exchanged(
            decode_at(ins, s.update(0, s[0] | 2), 0),
        ),
{
    let b = s[0];
    let set = s.update(0, b | 2);
    let clear = s.update(0, b & 0xfd);
    assert(((b | 2) >> 1u8) & 1 == 1) by (bit_vector);
    assert(((b & 0xfd) >> 1u8) & 1 == 0) by (bit_vector);
    assert(((b | 2) >> 0u8) & 1 == ((b & 0xfd) >> 0u8) & 1) by (bit_vector);
    let fl1 = flags_spec(set[0], 6, ins.flags);
    let fl0 = flags_spec(clear[0], 6, ins.flags);
    assert(set[0] == b | 2 && clear[0] == b & 0xfd);
    assert(bit_at(b | 2, 6) == ((b | 2) >> 1u8) & 1);
    assert(bit_at(b & 0xfd, 6) == ((b & 0xfd) >> 1u8) & 1);
    assert(bit_at(b | 2, 7) == ((b | 2) >> 0u8) & 1);
    assert(bit_at(b & 0xfd, 7) == ((b & 0xfd) >> 0u8) & 1);
    assert(ins.flags[0] == Flag::D && ins.flags[1] == Flag::W && ins.flags.len() == 2);
    assert(flags_prefix(set[0], 6, ins.flags, 0) == no_flags());
    assert(flags_prefix(clear[0], 6, ins.flags, 0) == no_flags());
    assert(flags_prefix(set[0], 6, ins.flags, 1) == with_flag(no_flags(), Flag::D, bit_at(b | 2, 6)));
    assert(flags_prefix(clear[0], 6, ins.flags, 1) == with_flag(no_flags(), Flag::D, bit_at(b & 0xfd, 6)));
    assert(fl1 == with_flag(flags_prefix(set[0], 6, ins.flags, 1), Flag::W, bit_at(b | 2, 7)));
    assert(fl0 == with_flag(flags_prefix(clear[0], 6, ins.flags, 1), Flag::W, bit_at(b & 0xfd, 7)));
    assert(fl1.direction == Some(1u8));
    assert(fl0.direction == Some(0u8));
    assert(fl1.word_size == fl0.word_size);
    let w1 = set.subrange(0, window_end(ins, set.len(), 0) as int);
    let w0 = clear.subrange(0, window_end(ins, clear.len(), 0) as int);
    lemma_run_args_congruent(w1, w0, fl1, fl0, ins.args, start_state(8));
}

proof fn lemma_masks()
    ensures
        msb_mask(4) == 0xf0u8,
        msb_mask(6) == 0xfcu8,
        msb_mask(7) == 0xfeu8,
        msb_mask(8) == 0xffu8,
{
    assert((0xffu8 << 4u8) as u8 == 0xf0u8) by (bit_vector);
    assert((0xffu8 << 2u8) as u8 == 0xfcu8) by (bit_vector);
    assert((0xffu8 << 1u8) as u8 == 0xfeu8) by (bit_vector);
    assert((0xffu8 << 0u8) as u8 == 0xffu8) by (bit_vector);
}

/// The opcode bytes `100010dw`, `000000dw`, `001010dw` and `001110dw`: the
/// register/memory forms of `mov`, `add`, `sub` and `cmp`.
pub open spec fn reg_rm_family(f: u8) -> bool {
    f == 0x88 || f == 0x00 || f == 0x28 || f == 0x38
}

/// The table slot of the register/memory encoding for the family `f`.
pub open spec fn reg_rm_slot(f: u8) -> int {
    if f == 0x88 {
        0
    } else if f == 0x00 {
        7
    } else if f == 0x28 {
        10
    } else {
        12
    }
}

pub open spec fn reg_rm_entry(f: u8) -> InstructionSpec {
    instruction_table_spec()[reg_rm_slot(f)].1->Single_0
}

/// A first byte of one of these families selects its family's encoding,
/// whatever the second byte: every earlier entry of the table fails to match.
proof fn lemma_match_reg_rm(b0: u8, b1: u8)
    requires
        reg_rm_family(b0 & 0xfc),
    ensures
        match_spec(instruction_table_spec(), b0, b1) == Some(reg_rm_entry(b0 & 0xfc)),
        reg_rm_entry(b0 & 0xfc).offset == 6,
        reg_rm_entry(b0 & 0xfc).flags == seq![Flag::D, Flag::W],
{
    let t = instruction_table_spec();
    let idx = reg_rm_slot(b0 & 0xfc);
    lemma_masks();
    if 0 < idx {
        assert(match_from(t, b0, b1, 0) == match_from(t, b0, b1, 1));
    }
    assert(((b0 & 0xfc) == 0x88 || (b0 & 0xfc) == 0x00 || (b0 & 0xfc) == 0x28 || (b0 & 0xfc) == 0x38) ==> b0 & 0xfe != 0xc6) by (bit_vector);
    if 1 < idx {
        assert(match_from(t, b0, b1, 1) == match_from(t, b0, b1, 2));
    }
    assert(((b0 & 0xfc) == 0x88 || (b0 & 0xfc) == 0x00 || (b0 & 0xfc) == 0x28 || (b0 & 0xfc) == 0x38) ==> b0 & 0xf0 != 0xb0) by (bit_vector);
    if 2 < idx {
        assert(match_from(t, b0, b1, 2) == match_from(t, b0, b1, 3));
    }
    assert(((b0 & 0xfc) == 0x88 || (b0 & 0xfc) == 0x00 || (b0 & 0xfc) == 0x28 || (b0 & 0xfc) == 0x38) ==> b0 & 0xfe != 0xa0) by (bit_vector);
    if 3 < idx {
        assert(match_from(t, b0, b1, 3) == match_from(t, b0, b1, 4));
    }
    assert(((b0 & 0xfc) == 0x88 || (b0 & 0xfc) == 0x00 || (b0 & 0xfc) == 0x28 || (b0 & 0xfc) == 0x38) ==> b0 & 0xfe != 0xa2) by (bit_vector);
    if 4 < idx {
        assert(match_from(t, b0, b1, 4) == match_from(t, b0, b1, 5));
    }
    assert(((b0 & 0xfc) == 0x88 || (b0 & 0xfc) == 0x00 || (b0 & 0xfc) == 0x28 || (b0 & 0xfc) == 0x38) ==> b0 & 0xff != 0x8e) by (bit_vector);
    if 5 < idx {
        assert(match_from(t, b0, b1, 5) == match_from(t, b0, b1, 6));
    }
    assert(((b0 & 0xfc) == 0x88 || (b0 & 0xfc) == 0x00 || (b0 & 0xfc) == 0x28 || (b0 & 0xfc) == 0x38) ==> b0 & 0xff != 0x8c) by (bit_vector);
    if 6 < idx {
        assert(match_from(t, b0, b1, 6) == match_from(t, b0, b1, 7));
    }
    if 7 < idx {
        assert(match_from(t, b0, b1, 7) == match_from(t, b0, b1, 8));
    }
    assert(((b0 & 0xfc) == 0x88 || (b0 & 0xfc) == 0x00 || (b0 & 0xfc) == 0x28 || (b0 & 0xfc) == 0x38) ==> b0 & 0xfc != 0x80) by (bit_vector);
    if 8 < idx {
        if let LookupSpec::Multi(c) = t[8].1 {
            assert(match_group(c, 0x80, b0, b1, 0) == match_group(c, 0x80, b0, b1, 1));
            assert(match_group(c, 0x80, b0, b1, 1) == match_group(c, 0x80, b0, b1, 2));
            assert(match_group(c, 0x80, b0, b1, 2) == match_group(c, 0x80, b0, b1, 3));
            assert(match_group(c, 0x80, b0, b1, 3) is None);
        }
        assert(match_from(t, b0, b1, 8) == match_from(t, b0, b1, 9));
    }
    assert(((b0 & 0xfc) == 0x88 || (b0 & 0xfc) == 0x00 || (b0 & 0xfc) == 0x28 || (b0 & 0xfc) == 0x38) ==> b0 & 0xfe != 0x04) by (bit_vector);
    if 9 < idx {
        assert(match_from(t, b0, b1, 9) == match_from(t, b0, b1, 10));
    }
    if 10 < idx {
        assert(match_from(t, b0, b1, 10) == match_from(t, b0, b1, 11));
    }
    assert(((b0 & 0xfc) == 0x88 || (b0 & 0xfc) == 0x00 || (b0 & 0xfc) == 0x28 || (b0 & 0xfc) == 0x38) ==> b0 & 0xfe != 0x2c) by (bit_vector);
    if 11 < idx {
        assert(match_from(t, b0, b1, 11) == match_from(t, b0, b1, 12));
    }
    if 12 < idx {
        assert(match_from(t, b0, b1, 12) == match_from(t, b0, b1, 13));
    }
    assert(match_from(t, b0, b1, idx as nat) == Some(t[idx].1->Single_0));
    assert(t[idx].1->Single_0.flags =~= seq![Flag::D, Flag::W]);
}

/// For the register/memory encodings of `mov`, `add`, `sub` and `cmp`, the
/// first byte with its direction bit set and with it cleared select the same
/// encoding, and the cleared form decodes to the set form with source and
/// destination exchanged.
pub proof fn lemma_direction_law(s: Seq<u8>)
    requires
        s.len() >= 2,
        s[0] & 0xfc == 0x88 || s[0] & 0xfc == 0x00 || s[0] & 0xfc == 0x28 || s[0] & 0xfc == 0x38,
    ensures
        ({
            let set = s.update(0, s[0] | 2);
            let clear = s.update(0, s[0] & 0xfd);
            &&& match_spec(instruction_table_spec(), set[0], set[1]) is Some
            &&& match_spec(instruction_table_spec(), clear[0], clear[1]) == match_spec(
                instruction_table_spec(),
                set[0],
                set[1],
            )
            &&& decode_at(match_spec(instruction_table_spec(), set[0], set[1])->Some_0, clear, 0)
                == exchanged(
                decode_at(match_spec(instruction_table_spec(), set[0], set[1])->Some_0, set, 0),
            )
        }),
{
    let b = s[0];
    let set = s.update(0, b | 2);
    let clear = s.update(0, b & 0xfd);
    assert((b | 2) & 0xfc == b & 0xfc) by (bit_vector);
    assert((b & 0xfd) & 0xfc == b & 0xfc) by (bit_vector);
    assert(set[1] == s[1] && clear[1] == s[1]);
    lemma_match_reg_rm(b | 2, s[1]);
    lemma_match_reg_rm(b & 0xfd, s[1]);
    let ins = reg_rm_entry(b & 0xfc);
    assert(ins.flags =~= seq![Flag::D, Flag::W]);
    lemma_direction_swap(ins, s);
}

// ---------------------------------------------------------------------------
// Condition flags
// ---------------------------------------------------------------------------

/// After `add`, `sub` or `cmp`, Zero is set exactly when the destination's
/// resulting 16-bit value is zero, and Sign exactly when it is 0x8000 or more.
pub proof fn lemma_arithmetic_flags(m: MachineSpec, d: DecodedSpec)
    requires
        d.mnemonic == "add"@ || d.mnemonic == "sub"@ || d.mnemonic == "cmp"@,
        execute_one(m, d) is Ok,
    ensures
        ({
            let (next, steps) = execute_one(m, d)->Ok_0;
            &&& steps.len() == 1
            &&& next.flags.zero <==> steps[0].dest_end == 0
            &&& next.flags.sign <==> steps[0].dest_end >= 0x8000
        }),
{
    lemma_mnemonics_distinct();
}

/// Subtracting a 16-bit register from itself leaves it zero, with Zero set
/// and Sign clear.
pub proof fn lemma_sub_self_zeroes(m: MachineSpec, d: DecodedSpec)
    requires
        m.regs.len() == 12,
        d.mnemonic == "sub"@,
        d.source == d.destination,
        register_mode_of(d.destination) == Some(RegisterMode::Universal),
    ensures
        execute_one(m, d) is Ok,
        execute_one(m, d)->Ok_0.0.flags == (ConditionFlags { zero: true, sign: false }),
        register_value(execute_one(m, d)->Ok_0.0.regs[slot_of(d.destination)->Some_0 as int]) == 0,
{
    lemma_mnemonics_distinct();
    lemma_parent_slot(d.destination);
    let name = d.destination;
    assert(name.len() == 2);
}

/// Decoding from byte `idx` on reads no byte before `k <= idx`.
proof fn lemma_walk_suffix(t: Seq<(u8, LookupSpec)>, s1: Seq<u8>, s2: Seq<u8>, k: nat, idx: nat)
    requires
        s1.len() == s2.len(),
        k <= idx,
        forall|i: int| k <= i < s1.len() ==> s1[i] == s2[i],
    ensures
        walk(t, s1, idx) == walk(t, s2, idx),
    decreases s1.len() - idx,
{
    if idx + 1 < s1.len() {
        assert(s1[idx as int] == s2[idx as int] && s1[idx + 1int] == s2[idx + 1int]);
        if let Some(ins) = match_spec(t, s1[idx as int], s1[idx + 1int]) {
            let tail = s1.subrange(idx as int, s1.len() as int);
            assert(tail =~= s2.subrange(idx as int, s2.len() as int));
            lemma_decode_at_shift(ins, s1, idx, tail);
            lemma_decode_at_shift(ins, s2, idx, tail);
            if let Ok(d) = decode_at(ins, s1, idx) {
                if d.byte_count > 0 && idx + d.byte_count < s1.len() {
                    lemma_walk_suffix(t, s1, s2, k, idx + d.byte_count);
                }
            }
        } else {
            lemma_walk_suffix(t, s1, s2, k, idx + 1);
        }
    }
}

/// The decoded instruction with source and destination exchanged.
pub open spec fn swapped(d: DecodedSpec) -> DecodedSpec {
    DecodedSpec { source: d.destination, destination: d.source, ..d }
}

/// For a stream that starts with a register/memory encoding of `mov`, `add`,
/// `sub` or `cmp`, clearing the direction bit of the first byte, rather than
/// setting it, exchanges source and destination of the first decoded
/// instruction and leaves the rest of the decoding, or its failure, unchanged.
pub proof fn lemma_direction_stream(s: Seq<u8>)
    requires
        s.len() >= 2,
        s[0] & 0xfc == 0x88 || s[0] & 0xfc == 0x00 || s[0] & 0xfc == 0x28 || s[0] & 0xfc == 0x38,
    ensures
        ({
            let set = s.update(0, s[0] | 2);
            let clear = s.update(0, s[0] & 0xfd);
            match decode_spec(set) {
                Ok(ds) => ds.len() >= 1 && decode_spec(clear) == Ok::<Seq<DecodedSpec>, DecodeError>(
                    ds.update(0, swapped(ds[0])),
                ),
                Err(e) => decode_spec(clear) == Err::<Seq<DecodedSpec>, DecodeError>(e),
            }
        }),
{
    let t = instruction_table_spec();
    let set = s.update(0, s[0] | 2);
    let clear = s.update(0, s[0] & 0xfd);
    lemma_direction_law(s);
    let ins = match_spec(t, set[0], set[1])->Some_0;
    if let Ok(d) = decode_at(ins, set, 0) {
        let d0 = swapped(d);
        assert(decode_at(ins, clear, 0) == Ok::<DecodedSpec, DecodeError>(d0));
        if d.byte_count > 0 && d.byte_count < s.len() {
            lemma_walk_suffix(t, set, clear, 1, d.byte_count);
            if let Ok(rest) = walk(t, set, d.byte_count) {
                assert((seq![d] + rest).update(0, d0) =~= seq![d0] + rest);
            }
        } else if d.byte_count > 0 && d.byte_count == s.len() {
            assert(seq![d].update(0, d0) =~= seq![d0]);
        }
    }
}

// ---------------------------------------------------------------------------
// Decoded instructions lie inside the stream
// ---------------------------------------------------------------------------

/// The number of bytes that a sequence of decoded instructions takes.
pub open spec fn total_bytes(ds: Seq<DecodedSpec>) -> nat
    decreases ds.len(),
{
    if ds.len() == 0 {
        0
    } else {
        ds[0].byte_count + total_bytes(ds.drop_first())
    }
}

proof fn lemma_walk_within(t: Seq<(u8, LookupSpec)>, input: Seq<u8>, idx: nat)
    requires
        idx <= input.len(),
    ensures
        walk(t, input, idx) matches Ok(ds) ==> idx + total_bytes(ds) <= input.len() && forall|k: int|
            0 <= k < ds.len() ==> #[trigger] ds[k].byte_count >= 1,
    decreases input.len() - idx,
{
    if idx + 1 < input.len() {
        match match_spec(t, input[idx as int], input[idx + 1int]) {
            None => {
                lemma_walk_within(t, input, idx + 1);
            },
            Some(ins) => {
                if let Ok(d) = decode_at(ins, input, idx) {
                    if d.byte_count > 0 && idx + d.byte_count < input.len() {
                        lemma_walk_within(t, input, idx + d.byte_count);
                        if let Ok(rest) = walk(t, input, idx + d.byte_count) {
                            let ds = seq![d] + rest;
                            assert(ds.drop_first() =~= rest);
                            assert(ds[0] == d);
                            assert(total_bytes(ds) == d.byte_count + total_bytes(rest));
                            assert(walk(t, input, idx) == Ok::<Seq<DecodedSpec>, DecodeError>(ds));
                            assert forall|k: int| 0 <= k < ds.len() implies #[trigger] ds[k].byte_count
                                >= 1 by {
                                if k > 0 {
                                    assert(ds[k] == rest[k - 1]);
                                }
                            }
                        }
                    } else if d.byte_count > 0 && idx + d.byte_count == input.len() {
                        assert(seq![d].drop_first() =~= Seq::<DecodedSpec>::empty());
                        assert(total_bytes(seq![d]) == d.byte_count + total_bytes(
                            Seq::<DecodedSpec>::empty(),
                        ));
                    }
                }
            },
        }
    }
}

/// Every decoded instruction takes at least one byte, and together they take
/// no more bytes than the stream holds: no instruction ends past its end.
pub proof fn lemma_decoded_within_input(input: Seq<u8>)
    ensures
        decode_spec(input) matches Ok(ds) ==> total_bytes(ds) <= input.len() && forall|k: int|
            0 <= k < ds.len() ==> #[trigger] ds[k].byte_count >= 1,
{
    lemma_walk_within(instruction_table_spec(), input, 0);
}

} // verus!
