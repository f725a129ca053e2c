//! The decoder's general laws, stated over the model and proved once and
//! for all: determinism, length accounting, register-name bijectivity, the
//! shape of displaced effective addresses, and label well-formedness.

use vstd::prelude::*;

use crate::constants::spec_mem_base;
use crate::error::DecodeError;
use crate::model::{as_i8, as_i16, spec_ea, spec_find_target, spec_run, spec_step, SpecRec};
use crate::render::dec_int;

verus! {

/// Decoding is deterministic: equal byte streams decode to equal listings,
/// label numbering included. `decode_instructions` ensures its result
/// equals `spec_decode` of the input, so two calls on equal inputs return
/// byte-identical output.
pub proof fn lemma_decode_deterministic(b1: Seq<u8>, b2: Seq<u8>)
    requires
        b1 == b2,
    ensures
        crate::model::spec_decode(b1) == crate::model::spec_decode(b2),
{
}

/// The number of bytes a run of records consumes: the sum of the records'
/// byte counts.
pub open spec fn consumed(rs: Seq<SpecRec>) -> int
    decreases rs.len(),
{
    if rs.len() == 0 {
        0
    } else {
        rs[0].len + consumed(rs.subrange(1, rs.len() as int))
    }
}

/// Records chain without gaps: each begins where its predecessor ended,
/// and the last ends at `end`.
pub open spec fn chained(rs: Seq<SpecRec>, end: int) -> bool {
    forall|i: int|
        0 <= i < rs.len() ==> (#[trigger] rs[i]).offset + rs[i].len == (if i + 1 < rs.len() {
            rs[i + 1].offset
        } else {
            end
        })
}

/// Length accounting over any suffix of the stream: a successful run's
/// records begin at the starting offset, chain without gaps, and consume
/// the stream to its end.
pub proof fn lemma_run_accounting(b: Seq<u8>, off: int, lt: Seq<int>)
    requires
        0 <= off <= b.len(),
        spec_run(b, off, lt) is Ok,
    ensures
        consumed(spec_run(b, off, lt)->Ok_0.0) == b.len() - off,
        spec_run(b, off, lt)->Ok_0.0.len() > 0 ==> spec_run(b, off, lt)->Ok_0.0[0].offset == off,
        chained(spec_run(b, off, lt)->Ok_0.0, b.len() as int),
        forall|i: int|
            0 <= i < spec_run(b, off, lt)->Ok_0.0.len() ==> (#[trigger] spec_run(
                b,
                off,
                lt,
            )->Ok_0.0[i]).len >= 2,
    decreases b.len() - off,
{
    let rs = spec_run(b, off, lt)->Ok_0.0;
    if off >= b.len() {
        assert(rs =~= Seq::<SpecRec>::empty());
    } else {
        let st = spec_step(b, off, lt)->Ok_0;
        let rs2 = spec_run(b, off + st.len, st.labels)->Ok_0.0;
        let rec = SpecRec { offset: off, len: st.len, text: st.text };
        crate::model::lemma_step_bounds(b, off, lt);
        lemma_run_accounting(b, off + st.len, st.labels);
        assert(rs == seq![rec] + rs2);
        assert(rs.subrange(1, rs.len() as int) =~= rs2);
        assert(rs[0] == rec);
        assert(consumed(rs) == st.len + consumed(rs2));
        assert(forall|i: int| 1 <= i < rs.len() ==> rs[i] == #[trigger] rs2[i - 1]);
        if rs2.len() == 0 {
            assert(off + st.len == b.len());
        } else {
            assert(rs[1] == rs2[0]);
        }
    }
}

/// In a chained run whose instructions all occupy at least one byte, the
/// record offsets strictly increase.
pub proof fn lemma_offsets_increasing(rs: Seq<SpecRec>, end: int, i: int, j: int)
    requires
        chained(rs, end),
        forall|k: int| 0 <= k < rs.len() ==> (#[trigger] rs[k]).len >= 1,
        0 <= i < j < rs.len(),
    ensures
        rs[i].offset < rs[j].offset,
    decreases j - i,
{
    if j == i + 1 {
    } else {
        lemma_offsets_increasing(rs, end, i, j - 1);
    }
}

/// How the label table evolves over a run: earlier entries are kept in
/// place, and no target ever appears twice.
pub proof fn lemma_run_labels(b: Seq<u8>, off: int, lt: Seq<int>)
    requires
        0 <= off,
        spec_run(b, off, lt) is Ok,
        forall|i1: int, i2: int| 0 <= i1 < i2 < lt.len() ==> #[trigger] lt[i1] != #[trigger] lt[i2],
    ensures
        ({
            let ltf = spec_run(b, off, lt)->Ok_0.1;
            &&& lt.len() <= ltf.len()
            &&& forall|i: int| 0 <= i < lt.len() ==> lt[i] == #[trigger] ltf[i]
            &&& forall|i1: int, i2: int| 0 <= i1 < i2 < ltf.len() ==> #[trigger] ltf[i1] != #[trigger] ltf[i2]
        }),
    decreases b.len() - off,
{
    if off >= b.len() {
    } else {
        let st = spec_step(b, off, lt)->Ok_0;
        if st.len >= 1 && off + st.len <= b.len() {
            assert(st.labels == lt || (st.labels.len() == lt.len() + 1 && (forall|i: int|
                0 <= i < lt.len() ==> lt[i] == #[trigger] st.labels[i]) && (forall|i: int|
                0 <= i < lt.len() ==> #[trigger] lt[i] != st.labels[lt.len() as int]))) by {
                let first = b[off];
                if (0x70 <= first && first <= 0x7F) || (0xE0 <= first && first <= 0xE3) {
                    let t = crate::model::jump_target(off, b[off + 1]);
                    if spec_find_target(lt, t) is None {
                        crate::model::lemma_find_target_absent(lt, t);
                        assert(st.labels == lt.push(t));
                        assert(forall|i: int|
                            0 <= i < lt.len() ==> lt[i] == #[trigger] st.labels[i]);
                    }
                }
            }
            lemma_run_labels(b, off + st.len, st.labels);
        }
    }
}

/// Whether some character of `t` is a space.
pub open spec fn has_space(t: Seq<char>) -> bool {
    exists|p: int| 0 <= p < t.len() && t[p] == ' '
}

/// Every register/memory-form line contains a space.
proof fn lemma_rm2rm_text_space(mn: Seq<char>, b: Seq<u8>, off: int)
    requires
        crate::model::spec_rm2rm(mn, b, off) is Ok,
    ensures
        has_space(crate::model::spec_rm2rm(mn, b, off)->Ok_0.text),
{
    reveal_strlit(" ");
    reveal_strlit(" [");
    let t = crate::model::spec_rm2rm(mn, b, off)->Ok_0.text;
    assert(t[mn.len() as int] == ' ');
}

/// Every immediate-to-memory line contains a space.
proof fn lemma_imm_to_mem_text_space(
    mn: Seq<char>,
    b: Seq<u8>,
    off: int,
    mode: int,
    rm: int,
    word: bool,
    is_data_16bit: bool,
)
    requires
        crate::model::spec_imm_to_mem(mn, b, off, mode, rm, word, is_data_16bit) is Ok,
    ensures
        has_space(crate::model::spec_imm_to_mem(mn, b, off, mode, rm, word, is_data_16bit)->Ok_0.text),
{
    reveal_strlit(" [");
    let t = crate::model::spec_imm_to_mem(mn, b, off, mode, rm, word, is_data_16bit)->Ok_0.text;
    assert(t[mn.len() as int] == ' ');
}

/// Every MOV line contains a space.
proof fn lemma_mov_text_space(b: Seq<u8>, off: int)
    requires
        0 <= off,
        crate::model::spec_decode_mov(b, off) is Ok,
    ensures
        has_space(crate::model::spec_decode_mov(b, off)->Ok_0.text),
{
    reveal_strlit("mov ");
    reveal_strlit("mov [");
    let t = crate::model::spec_decode_mov(b, off)->Ok_0.text;
    let first = b[off];
    if first >> 2 == 0b100010 {
        lemma_rm2rm_text_space("mov"@, b, off);
    } else if first >> 4 == 0b1011 {
        assert(t[3] == ' ');
    } else if first >> 1 == 0b1100011 {
        let second = b[off + 1];
        lemma_imm_to_mem_text_space(
            "mov"@,
            b,
            off,
            (second >> 6) as int,
            (second & 0b111) as int,
            (first & 0b00000001) > 0,
            (first & 0b00000001) > 0,
        );
    } else {
        assert(t[3] == ' ');
    }
}

/// Every arithmetic-family line contains a space.
proof fn lemma_arith_text_space(
    mn: Seq<char>,
    rm_opcode: u8,
    imm_rm_opcode: u8,
    acc_opcode: u8,
    group_reg: u8,
    b: Seq<u8>,
    off: int,
)
    requires
        0 <= off,
        crate::model::spec_decode_arith(mn, rm_opcode, imm_rm_opcode, acc_opcode, group_reg, b, off)
            is Ok,
    ensures
        has_space(
            crate::model::spec_decode_arith(
                mn,
                rm_opcode,
                imm_rm_opcode,
                acc_opcode,
                group_reg,
                b,
                off,
            )->Ok_0.text,
        ),
{
    reveal_strlit(" ");
    let t = crate::model::spec_decode_arith(
        mn,
        rm_opcode,
        imm_rm_opcode,
        acc_opcode,
        group_reg,
        b,
        off,
    )->Ok_0.text;
    let first = b[off];
    if first >> 2 == rm_opcode {
        lemma_rm2rm_text_space(mn, b, off);
    } else if first >> 2 == imm_rm_opcode {
        let second = b[off + 1];
        let sign = (first & 0b00000010) > 0;
        let word = (first & 0b00000001) > 0;
        let mode = (second >> 6) as int;
        let rm = (second & 0b111) as int;
        if mode == 3 {
            assert(t[mn.len() as int] == ' ');
        } else {
            lemma_imm_to_mem_text_space(mn, b, off, mode, rm, word, !sign && word);
        }
    } else {
        assert(t[mn.len() as int] == ' ');
    }
}

/// Every line a decoding step produces contains a space. (Label
/// declarations contain none, which keeps the two apart.)
proof fn lemma_step_text_space(b: Seq<u8>, off: int, lt: Seq<int>)
    requires
        0 <= off,
        spec_step(b, off, lt) is Ok,
    ensures
        has_space(spec_step(b, off, lt)->Ok_0.text),
{
    reveal_strlit(" ");
    let t = spec_step(b, off, lt)->Ok_0.text;
    let first = b[off];
    if first <= 0x05 {
        lemma_arith_text_space("add"@, 0b000000, 0b100000, 0b0000010, 0b000, b, off);
    } else if 0x28 <= first && first <= 0x2D {
        lemma_arith_text_space("sub"@, 0b001010, 0b100000, 0b0010110, 0b101, b, off);
    } else if 0x38 <= first && first <= 0x3D {
        lemma_arith_text_space("cmp"@, 0b001110, 0b100000, 0b0011110, 0b111, b, off);
    } else if (0x70 <= first && first <= 0x7F) || (0xE0 <= first && first <= 0xE3) {
        let mn = crate::model::jump_mnemonic(first)->0;
        assert(t[mn.len() as int] == ' ');
    } else if 0x80 <= first && first <= 0x83 {
        let reg = (b[off + 1] >> 3) & 0b111;
        if reg == 0b000 {
            lemma_arith_text_space("add"@, 0b000000, 0b100000, 0b0000010, 0b000, b, off);
        } else if reg == 0b101 {
            lemma_arith_text_space("sub"@, 0b001010, 0b100000, 0b0010110, 0b101, b, off);
        } else {
            lemma_arith_text_space("cmp"@, 0b001110, 0b100000, 0b0011110, 0b111, b, off);
        }
    } else {
        lemma_mov_text_space(b, off);
    }
}

/// Every record of a successful run has a space in its line.
proof fn lemma_run_texts_space(b: Seq<u8>, off: int, lt: Seq<int>)
    requires
        0 <= off,
        spec_run(b, off, lt) is Ok,
    ensures
        forall|k: int|
            0 <= k < spec_run(b, off, lt)->Ok_0.0.len() ==> has_space(
                (#[trigger] spec_run(b, off, lt)->Ok_0.0[k]).text,
            ),
    decreases b.len() - off,
{
    let rs = spec_run(b, off, lt)->Ok_0.0;
    if off >= b.len() {
    } else {
        let st = spec_step(b, off, lt)->Ok_0;
        if st.len >= 1 && off + st.len <= b.len() {
            lemma_step_text_space(b, off, lt);
            lemma_run_texts_space(b, off + st.len, st.labels);
            let rs2 = spec_run(b, off + st.len, st.labels)->Ok_0.0;
            assert(forall|k: int| 1 <= k < rs.len() ==> rs[k] == #[trigger] rs2[k - 1]);
            assert(rs[0].text == st.text);
        }
    }
}

/// The declaration line of the label with table index `i`.
pub open spec fn label_decl(i: int) -> Seq<char> {
    crate::model::label_name(i) + ":\n"@
}

/// How many lines of `out` equal `x`.
pub open spec fn count_matches(out: Seq<Seq<char>>, x: Seq<char>) -> int
    decreases out.len(),
{
    if out.len() == 0 {
        0
    } else {
        (if out[0] == x {
            1int
        } else {
            0int
        }) + count_matches(out.subrange(1, out.len() as int), x)
    }
}

proof fn lemma_count_concat(a: Seq<Seq<char>>, c: Seq<Seq<char>>, x: Seq<char>)
    ensures
        count_matches(a + c, x) == count_matches(a, x) + count_matches(c, x),
    decreases a.len(),
{
    if a.len() == 0 {
        assert(a + c =~= c);
    } else {
        let whole = a + c;
        assert(whole.subrange(1, whole.len() as int) =~= a.subrange(1, a.len() as int) + c);
        lemma_count_concat(a.subrange(1, a.len() as int), c, x);
        assert(whole[0] == a[0]);
    }
}

/// Distinct label indices have distinct declaration lines.
proof fn lemma_label_decl_injective(i1: int, i2: int)
    requires
        0 <= i1,
        0 <= i2,
        i1 != i2,
    ensures
        label_decl(i1) != label_decl(i2),
{
    reveal_strlit("label");
    reveal_strlit(":\n");
    if label_decl(i1) == label_decl(i2) {
        let n1 = crate::model::label_name(i1);
        let n2 = crate::model::label_name(i2);
        assert(":\n"@.len() == 2);
        assert(label_decl(i1).len() == n1.len() + 2);
        assert(label_decl(i2).len() == n2.len() + 2);
        assert(n1.len() == n2.len());
        assert(n1 =~= label_decl(i1).subrange(0, n1.len() as int));
        assert(n2 =~= label_decl(i2).subrange(0, n2.len() as int));
        let d1 = crate::render::dec_nat(i1 as nat);
        let d2 = crate::render::dec_nat(i2 as nat);
        assert(d1 =~= n1.subrange(5, n1.len() as int));
        assert(d2 =~= n2.subrange(5, n2.len() as int));
        crate::render::lemma_dec_nat_injective(i1 as nat, i2 as nat);
        assert(false);
    }
}

/// No character of a label declaration is a space.
proof fn lemma_label_decl_no_space(i: int)
    requires
        0 <= i,
    ensures
        forall|p: int| 0 <= p < label_decl(i).len() ==> #[trigger] label_decl(i)[p] != ' ',
{
    reveal_strlit("label");
    reveal_strlit(":\n");
    let d = crate::render::dec_nat(i as nat);
    crate::render::lemma_dec_nat_digits(i as nat);
    let decl = label_decl(i);
    assert forall|p: int| 0 <= p < decl.len() implies #[trigger] decl[p] != ' ' by {
        if p < 5 {
            assert(decl[p] == "label"@[p]);
        } else if p < 5 + d.len() {
            assert(decl[p] == d[p - 5]);
            assert(crate::render::is_digit_char(d[p - 5]));
        } else {
            assert(decl[p] == ":\n"@[p - 5 - d.len()]);
        }
    }
}

/// A line with a space never equals a label declaration.
proof fn lemma_space_not_decl(t: Seq<char>, i: int)
    requires
        0 <= i,
        has_space(t),
    ensures
        t != label_decl(i),
{
    lemma_label_decl_no_space(i);
    if t == label_decl(i) {
        let p = choose|p: int| 0 <= p < t.len() && t[p] == ' ';
        assert(label_decl(i)[p] != ' ');
        assert(false);
    }
}

proof fn lemma_count_single(a: Seq<char>, x: Seq<char>)
    ensures
        count_matches(seq![a], x) == (if a == x {
            1int
        } else {
            0int
        }),
{
    assert(seq![a].subrange(1, 1) =~= Seq::<Seq<char>>::empty());
    assert(count_matches(Seq::<Seq<char>>::empty(), x) == 0);
    assert(seq![a][0] == a);
}

proof fn lemma_count_pair(a: Seq<char>, second: Seq<char>, x: Seq<char>)
    ensures
        count_matches(seq![a, second], x) == (if a == x {
            1int
        } else {
            0int
        }) + (if second == x {
            1int
        } else {
            0int
        }),
{
    assert(seq![a, second].subrange(1, 2) =~= seq![second]);
    assert(seq![a, second][0] == a);
    lemma_count_single(second, x);
}

/// What one record contributes to the count of label `i`'s declaration:
/// one when the record sits at the label's first-found target, none
/// otherwise.
proof fn lemma_count_stitch_one(rec: SpecRec, lt: Seq<int>, i: int)
    requires
        0 <= i,
        has_space(rec.text),
    ensures
        count_matches(crate::model::spec_stitch_one(rec, lt), label_decl(i)) == (if spec_find_target(
            lt,
            rec.offset,
        ) == Some(i) {
            1int
        } else {
            0int
        }),
{
    lemma_space_not_decl(rec.text, i);
    match spec_find_target(lt, rec.offset) {
        Some(i0) => {
            crate::model::lemma_find_target_some(lt, rec.offset);
            if i0 != i {
                lemma_label_decl_injective(i0, i);
            }
            assert(crate::model::spec_stitch_one(rec, lt) =~= seq![label_decl(i0), rec.text]);
            lemma_count_pair(label_decl(i0), rec.text, label_decl(i));
        },
        None => {
            assert(crate::model::spec_stitch_one(rec, lt) =~= seq![rec.text]);
            lemma_count_single(rec.text, label_decl(i));
        },
    }
}

/// The stitched listing of records none of which sits at `lt[i]` holds no
/// declaration of label `i`.
proof fn lemma_stitch_count_zero(rs: Seq<SpecRec>, lt: Seq<int>, i: int)
    requires
        0 <= i < lt.len(),
        forall|i1: int, i2: int| 0 <= i1 < i2 < lt.len() ==> #[trigger] lt[i1] != #[trigger] lt[i2],
        forall|k: int| 0 <= k < rs.len() ==> (#[trigger] rs[k]).offset != lt[i],
        forall|k: int| 0 <= k < rs.len() ==> has_space((#[trigger] rs[k]).text),
    ensures
        count_matches(crate::model::spec_stitch(rs, lt), label_decl(i)) == 0,
    decreases rs.len(),
{
    if rs.len() > 0 {
        let head = crate::model::spec_stitch_one(rs[0], lt);
        let tail = rs.subrange(1, rs.len() as int);
        lemma_count_concat(head, crate::model::spec_stitch(tail, lt), label_decl(i));
        lemma_count_stitch_one(rs[0], lt, i);
        if spec_find_target(lt, rs[0].offset) == Some(i) {
            crate::model::lemma_find_target_some(lt, rs[0].offset);
            assert(false);
        }
        assert(forall|k: int| 0 <= k < tail.len() ==> tail[k] == #[trigger] rs[k + 1]);
        lemma_stitch_count_zero(tail, lt, i);
    }
}

/// In the stitched listing, the declaration of label `i` stands exactly
/// once, immediately before the line of the record at the label's target.
proof fn lemma_stitch_label(rs: Seq<SpecRec>, lt: Seq<int>, i: int, j: int)
    requires
        forall|i1: int, i2: int| 0 <= i1 < i2 < lt.len() ==> #[trigger] lt[i1] != #[trigger] lt[i2],
        forall|j1: int, j2: int|
            0 <= j1 < j2 < rs.len() ==> (#[trigger] rs[j1]).offset != (#[trigger] rs[j2]).offset,
        forall|k: int| 0 <= k < rs.len() ==> has_space((#[trigger] rs[k]).text),
        0 <= i < lt.len(),
        0 <= j < rs.len(),
        rs[j].offset == lt[i],
    ensures
        ({
            let out = crate::model::spec_stitch(rs, lt);
            &&& exists|p: int|
                0 <= p && p + 1 < out.len() && #[trigger] out[p] == label_decl(i) && out[p + 1]
                    == rs[j].text
            &&& count_matches(out, label_decl(i)) == 1
        }),
    decreases rs.len(),
{
    let out = crate::model::spec_stitch(rs, lt);
    let head = crate::model::spec_stitch_one(rs[0], lt);
    let tail = rs.subrange(1, rs.len() as int);
    let tail_out = crate::model::spec_stitch(tail, lt);
    lemma_count_concat(head, tail_out, label_decl(i));
    lemma_count_stitch_one(rs[0], lt, i);
    lemma_space_not_decl(rs[0].text, i);
    assert(forall|k: int| 0 <= k < tail.len() ==> tail[k] == #[trigger] rs[k + 1]);
    if j == 0 {
        assert(forall|k: int| 0 <= k < i ==> lt[k] != lt[i]);
        crate::model::lemma_find_target_first(lt, lt[i], i);
        assert(head =~= seq![label_decl(i), rs[0].text]);
        assert(out[0] == label_decl(i));
        assert(out[1] == rs[0].text);
        lemma_stitch_count_zero(tail, lt, i);
    } else {
        if spec_find_target(lt, rs[0].offset) == Some(i) {
            crate::model::lemma_find_target_some(lt, rs[0].offset);
            assert(false);
        }
        lemma_stitch_label(tail, lt, i, j - 1);
        let p0 = choose|p: int|
            0 <= p && p + 1 < tail_out.len() && #[trigger] tail_out[p] == label_decl(i)
                && tail_out[p + 1] == tail[j - 1].text;
        assert(out[head.len() + p0] == label_decl(i));
        assert(out[head.len() + p0 + 1] == rs[j].text);
    }
}

/// Length accounting: for any successful decode, the bytes consumed by the
/// decoded instructions sum to the input length, and each instruction
/// begins exactly where its predecessor ended.
pub proof fn lemma_length_accounting(b: Seq<u8>)
    requires
        spec_run(b, 0, Seq::<int>::empty()) is Ok,
    ensures
        consumed(spec_run(b, 0, Seq::<int>::empty())->Ok_0.0) == b.len(),
        chained(spec_run(b, 0, Seq::<int>::empty())->Ok_0.0, b.len() as int),
        spec_run(b, 0, Seq::<int>::empty())->Ok_0.0.len() > 0 ==> spec_run(
            b,
            0,
            Seq::<int>::empty(),
        )->Ok_0.0[0].offset == 0,
{
    lemma_run_accounting(b, 0, Seq::<int>::empty());
}

/// Register-name totality and bijectivity: every pair of a 3-bit register
/// value and a word flag names exactly one register, and distinct pairs
/// name distinct registers.
pub proof fn lemma_register_name_bijective(r1: int, w1: bool, r2: int, w2: bool)
    requires
        0 <= r1 < 8,
        0 <= r2 < 8,
        (r1, w1) != (r2, w2),
    ensures
        crate::constants::spec_register_name(r1, w1) != crate::constants::spec_register_name(
            r2,
            w2,
        ),
{
    reveal_strlit("al");
    reveal_strlit("ax");
    reveal_strlit("cl");
    reveal_strlit("cx");
    reveal_strlit("dl");
    reveal_strlit("dx");
    reveal_strlit("bl");
    reveal_strlit("bx");
    reveal_strlit("ah");
    reveal_strlit("sp");
    reveal_strlit("ch");
    reveal_strlit("bp");
    reveal_strlit("dh");
    reveal_strlit("si");
    reveal_strlit("bh");
    reveal_strlit("di");
    let n1 = crate::constants::spec_register_name(r1, w1);
    let n2 = crate::constants::spec_register_name(r2, w2);
    assert(n1.len() == 2 && n2.len() == 2);
    if n1 == n2 {
        assert(n1[0] == n2[0] && n1[1] == n2[1]);
        assert(false);
    }
}

/// Label well-formedness: when the target of the label with table index
/// `i` is the offset of the decoded instruction with record index `j`,
/// the listing holds exactly one declaration line for that label, and it
/// stands immediately before that instruction's line. (A jump whose target
/// falls on no instruction boundary — `0x75 0x00` at the end of a stream
/// jumps past it — is referenced without a declaration, as the queue of
/// pending labels is only merged at instruction boundaries.)
pub proof fn lemma_label_well_formedness(b: Seq<u8>, i: int, j: int)
    requires
        spec_run(b, 0, Seq::<int>::empty()) is Ok,
        0 <= i < spec_run(b, 0, Seq::<int>::empty())->Ok_0.1.len(),
        0 <= j < spec_run(b, 0, Seq::<int>::empty())->Ok_0.0.len(),
        spec_run(b, 0, Seq::<int>::empty())->Ok_0.0[j].offset == spec_run(
            b,
            0,
            Seq::<int>::empty(),
        )->Ok_0.1[i],
    ensures
        ({
            let rs = spec_run(b, 0, Seq::<int>::empty())->Ok_0.0;
            let out = crate::model::spec_decode(b)->Ok_0;
            &&& count_matches(out, label_decl(i)) == 1
            &&& exists|p: int|
                1 <= p && p + 1 < out.len() && #[trigger] out[p] == label_decl(i) && out[p + 1]
                    == rs[j].text
        }),
{
    let rs = spec_run(b, 0, Seq::<int>::empty())->Ok_0.0;
    let lt = spec_run(b, 0, Seq::<int>::empty())->Ok_0.1;
    let stitched = crate::model::spec_stitch(rs, lt);
    let out = crate::model::spec_decode(b)->Ok_0;
    lemma_run_accounting(b, 0, Seq::<int>::empty());
    assert forall|j1: int, j2: int|
        0 <= j1 < j2 < rs.len() implies (#[trigger] rs[j1]).offset != (
    #[trigger] rs[j2]).offset by {
        lemma_offsets_increasing(rs, b.len() as int, j1, j2);
    }
    lemma_run_labels(b, 0, Seq::<int>::empty());
    lemma_run_texts_space(b, 0, Seq::<int>::empty());
    lemma_stitch_label(rs, lt, i, j);

    reveal_strlit("bits 16\n\n");
    assert(out == seq!["bits 16\n\n"@] + stitched);
    lemma_count_concat(seq!["bits 16\n\n"@], stitched, label_decl(i));
    lemma_count_single("bits 16\n\n"@, label_decl(i));
    assert("bits 16\n\n"@[4] == ' ');
    lemma_space_not_decl("bits 16\n\n"@, i);

    let p0 = choose|p: int|
        0 <= p && p + 1 < stitched.len() && #[trigger] stitched[p] == label_decl(i) && stitched[p
            + 1] == rs[j].text;
    assert(out[1 + p0] == label_decl(i));
    assert(out[1 + p0 + 1] == rs[j].text);
}

/// Effective-address ordering: whenever the addressing mode carries a
/// nonzero displacement, the rendered address is the base expression for
/// `rm` followed by ` + ` and the signed decimal of that displacement.
pub proof fn lemma_ea_displacement_rendering(
    b: Seq<u8>,
    pos: int,
    err_off: int,
    mode: int,
    rm: int,
)
    requires
        0 <= rm < 8,
        mode == 1 || mode == 2,
        0 <= pos,
        pos + (if mode == 2 { 2int } else { 1int }) <= b.len(),
    ensures
        ({
            let disp = if mode == 2 {
                as_i16(crate::constants::spec_word_value(b[pos], b[pos + 1]))
            } else {
                as_i8(b[pos])
            };
            disp != 0 ==> spec_ea(b, pos, err_off, mode, rm) == Ok::<_, DecodeError>(
                crate::model::SpecText {
                    len: if mode == 2 { 2int } else { 1int },
                    text: spec_mem_base(rm) + " + "@ + dec_int(disp),
                },
            )
        }),
{
}

} // verus!
