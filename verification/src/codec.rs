//! The wire format of a bytecode image, as mathematical functions on byte
//! sequences.
//!
//! An image is `magic() + const_section(constants) + code_section(code)`;
//! every multi-byte quantity is big-endian.  `parse_image` is the exact
//! inverse on well-formed images, which `lemma_image_round_trip` proves.

use vstd::prelude::*;
use crate::opcode::Opcode;
use crate::value::StackVal;
use vstd::utf8::{decode_utf8, encode_utf8, valid_utf8};

verus! {

/// The eight header bytes, `GEARWORK` in ASCII.
pub open spec fn magic() -> Seq<u8> {
    seq![0x47u8, 0x45u8, 0x41u8, 0x52u8, 0x57u8, 0x4fu8, 0x52u8, 0x4bu8]
}

pub open spec fn u16_be(x: u16) -> Seq<u8> {
    seq![(x / 0x100) as u8, (x % 0x100) as u8]
}

pub open spec fn u32_be(x: u32) -> Seq<u8> {
    seq![
        (x / 0x1000000) as u8,
        ((x / 0x10000) % 0x100) as u8,
        ((x / 0x100) % 0x100) as u8,
        (x % 0x100) as u8,
    ]
}

pub open spec fn u64_be(x: u64) -> Seq<u8> {
    seq![
        (x / 0x100000000000000) as u8,
        ((x / 0x1000000000000) % 0x100) as u8,
        ((x / 0x10000000000) % 0x100) as u8,
        ((x / 0x100000000) % 0x100) as u8,
        ((x / 0x1000000) % 0x100) as u8,
        ((x / 0x10000) % 0x100) as u8,
        ((x / 0x100) % 0x100) as u8,
        (x % 0x100) as u8,
    ]
}

/// The big-endian value of the two bytes at `i`.
pub open spec fn be16_at(b: Seq<u8>, i: int) -> u16
    recommends
        0 <= i,
        i + 2 <= b.len(),
{
    (b[i] * 0x100 + b[i + 1]) as u16
}

/// The big-endian value of the four bytes at `i`.
pub open spec fn be32_at(b: Seq<u8>, i: int) -> u32
    recommends
        0 <= i,
        i + 4 <= b.len(),
{
    (b[i] * 0x1000000 + b[i + 1] * 0x10000 + b[i + 2] * 0x100 + b[i + 3]) as u32
}

/// The big-endian value of the eight bytes at `i`.
pub open spec fn be64_at(b: Seq<u8>, i: int) -> u64
    recommends
        0 <= i,
        i + 8 <= b.len(),
{
    (b[i] * 0x100000000000000 + b[i + 1] * 0x1000000000000 + b[i + 2] * 0x10000000000 + b[i + 3]
        * 0x100000000 + b[i + 4] * 0x1000000 + b[i + 5] * 0x10000 + b[i + 6] * 0x100 + b[i
        + 7]) as u64
}

pub proof fn lemma_be16_round(x: u16)
    ensures
        be16_at(u16_be(x), 0) == x,
{
}

pub proof fn lemma_be32_round(x: u32)
    ensures
        be32_at(u32_be(x), 0) == x,
{
    assert((x / 0x1000000) * 0x1000000 + ((x / 0x10000) % 0x100) * 0x10000 + ((x / 0x100) % 0x100)
        * 0x100 + (x % 0x100) == x) by (nonlinear_arith);
}

pub proof fn lemma_be64_round(x: u64)
    ensures
        be64_at(u64_be(x), 0) == x,
{
    let x = x as int;
    assert(x / 0x100 / 0x100 == x / 0x10000 && x / 0x10000 / 0x100 == x / 0x1000000 && x / 0x1000000
        / 0x100 == x / 0x100000000 && x / 0x100000000 / 0x100 == x / 0x10000000000 && x
        / 0x10000000000 / 0x100 == x / 0x1000000000000 && x / 0x1000000000000 / 0x100 == x
        / 0x100000000000000) by (nonlinear_arith)
        requires
            x >= 0,
    ;
}

/// The wire encoding of one constant-pool entry: a tag byte, then the
/// payload.  A string writes its UTF-8 byte length as a u64 first.
pub open spec fn const_bytes(v: StackVal) -> Seq<u8> {
    match v {
        StackVal::Int(i) => seq![0x00u8] + u32_be(i as u32),
        StackVal::Long(l) => seq![0x01u8] + u64_be(l as u64),
        StackVal::Float(f) => seq![0x02u8] + u32_be(f),
        StackVal::Double(d) => seq![0x03u8] + u64_be(d),
        StackVal::Str(s) => seq![0x04u8] + u64_be(encode_utf8(s).len() as u64) + encode_utf8(s),
    }
}

pub open spec fn consts_bytes(cs: Seq<StackVal>) -> Seq<u8>
    decreases cs.len(),
{
    if cs.len() == 0 {
        Seq::empty()
    } else {
        const_bytes(cs[0]) + consts_bytes(cs.drop_first())
    }
}

/// The constant-pool section: entry count as u32, then the entries.
pub open spec fn const_section(cs: Seq<StackVal>) -> Seq<u8> {
    u32_be(cs.len() as u32) + consts_bytes(cs)
}

/// The wire encoding of one instruction: opcode byte, then immediates.
pub open spec fn instr_bytes(o: Opcode) -> Seq<u8> {
    match o {
        Opcode::Ldc(i) => seq![0x00u8] + u32_be(i),
        Opcode::Dump => seq![0x01u8],
        Opcode::Add => seq![0x02u8],
        Opcode::Sub => seq![0x03u8],
        Opcode::Mul => seq![0x04u8],
        Opcode::Div => seq![0x05u8],
        Opcode::Mod => seq![0x06u8],
        Opcode::Dup => seq![0x07u8],
        Opcode::Swp => seq![0x08u8],
        Opcode::Store(k) => seq![0x09u8] + u16_be(k),
        Opcode::Load(k) => seq![0x0au8] + u16_be(k),
        Opcode::Goto(t) => seq![0x0bu8] + u32_be(t),
        Opcode::Nop => seq![0x0cu8],
        Opcode::Func(n, p) => seq![0x0du8] + u32_be(n) + seq![p],
        Opcode::Return => seq![0x0eu8],
        Opcode::Invoke(n, p) => seq![0x0fu8] + u32_be(n) + seq![p],
    }
}

pub open spec fn code_bytes(code: Seq<Opcode>) -> Seq<u8>
    decreases code.len(),
{
    if code.len() == 0 {
        Seq::empty()
    } else {
        instr_bytes(code[0]) + code_bytes(code.drop_first())
    }
}

/// The code section: instruction count as u32, then the instructions.
pub open spec fn code_section(code: Seq<Opcode>) -> Seq<u8> {
    u32_be(code.len() as u32) + code_bytes(code)
}

/// The whole image.
pub open spec fn image_bytes(cs: Seq<StackVal>, code: Seq<Opcode>) -> Seq<u8> {
    magic() + const_section(cs) + code_section(code)
}

/// A constant that the wire format can carry: a string's UTF-8 length
/// must fit the u64 length field.
pub open spec fn encodable_val(v: StackVal) -> bool {
    v matches StackVal::Str(s) ==> encode_utf8(s).len() <= u64::MAX
}

/// A pool and code vector that the wire format can carry: the two u32
/// count fields must fit.
pub open spec fn encodable(cs: Seq<StackVal>, code: Seq<Opcode>) -> bool {
    &&& cs.len() <= u32::MAX
    &&& code.len() <= u32::MAX
    &&& forall|k: int| 0 <= k < cs.len() ==> encodable_val(#[trigger] cs[k])
}

pub proof fn lemma_consts_bytes_snoc(cs: Seq<StackVal>, v: StackVal)
    ensures
        consts_bytes(cs.push(v)) == consts_bytes(cs) + const_bytes(v),
    decreases cs.len(),
{
    if cs.len() == 0 {
        assert(cs.push(v)[0] == v);
        assert(cs.push(v).drop_first() =~= Seq::<StackVal>::empty());
        assert(consts_bytes(cs.push(v)) == const_bytes(v) + consts_bytes(
            Seq::<StackVal>::empty(),
        ));
        assert(const_bytes(v) + Seq::<u8>::empty() =~= const_bytes(v));
        assert(consts_bytes(cs) == Seq::<u8>::empty());
        assert(Seq::<u8>::empty() + const_bytes(v) =~= const_bytes(v));
    } else {
        assert(cs.push(v)[0] == cs[0]);
        assert(cs.push(v).drop_first() =~= cs.drop_first().push(v));
        assert(consts_bytes(cs.push(v)) == const_bytes(cs[0]) + consts_bytes(
            cs.drop_first().push(v),
        ));
        lemma_consts_bytes_snoc(cs.drop_first(), v);
        assert(const_bytes(cs[0]) + (consts_bytes(cs.drop_first()) + const_bytes(v)) =~= (
        const_bytes(cs[0]) + consts_bytes(cs.drop_first())) + const_bytes(v));
        assert(consts_bytes(cs) == const_bytes(cs[0]) + consts_bytes(cs.drop_first()));
    }
}

pub proof fn lemma_code_bytes_snoc(code: Seq<Opcode>, o: Opcode)
    ensures
        code_bytes(code.push(o)) == code_bytes(code) + instr_bytes(o),
    decreases code.len(),
{
    if code.len() == 0 {
        assert(code.push(o)[0] == o);
        assert(code.push(o).drop_first() =~= Seq::<Opcode>::empty());
        assert(code_bytes(code.push(o)) == instr_bytes(o) + code_bytes(Seq::<Opcode>::empty()));
        assert(instr_bytes(o) + Seq::<u8>::empty() =~= instr_bytes(o));
        assert(code_bytes(code) == Seq::<u8>::empty());
        assert(Seq::<u8>::empty() + instr_bytes(o) =~= instr_bytes(o));
    } else {
        assert(code.push(o)[0] == code[0]);
        assert(code.push(o).drop_first() =~= code.drop_first().push(o));
        assert(code_bytes(code.push(o)) == instr_bytes(code[0]) + code_bytes(
            code.drop_first().push(o),
        ));
        lemma_code_bytes_snoc(code.drop_first(), o);
        assert(instr_bytes(code[0]) + (code_bytes(code.drop_first()) + instr_bytes(o)) =~= (
        instr_bytes(code[0]) + code_bytes(code.drop_first())) + instr_bytes(o));
        assert(code_bytes(code) == instr_bytes(code[0]) + code_bytes(code.drop_first()));
    }
}

/// Append the big-endian bytes of a u16.
pub(crate) fn push_u16(buf: &mut Vec<u8>, x: u16)
    ensures
        final(buf)@ == old(buf)@ + u16_be(x),
{
    buf.push((x / 0x100) as u8);
    buf.push((x % 0x100) as u8);
    assert(buf@ =~= old(buf)@ + u16_be(x));
}

/// Append the big-endian bytes of a u32.
pub(crate) fn push_u32(buf: &mut Vec<u8>, x: u32)
    ensures
        final(buf)@ == old(buf)@ + u32_be(x),
{
    buf.push((x / 0x1000000) as u8);
    buf.push(((x / 0x10000) % 0x100) as u8);
    buf.push(((x / 0x100) % 0x100) as u8);
    buf.push((x % 0x100) as u8);
    assert(buf@ =~= old(buf)@ + u32_be(x));
}

/// Append the big-endian bytes of a u64.
pub(crate) fn push_u64(buf: &mut Vec<u8>, x: u64)
    ensures
        final(buf)@ == old(buf)@ + u64_be(x),
{
    buf.push((x / 0x100000000000000) as u8);
    buf.push(((x / 0x1000000000000) % 0x100) as u8);
    buf.push(((x / 0x10000000000) % 0x100) as u8);
    buf.push(((x / 0x100000000) % 0x100) as u8);
    buf.push(((x / 0x1000000) % 0x100) as u8);
    buf.push(((x / 0x10000) % 0x100) as u8);
    buf.push(((x / 0x100) % 0x100) as u8);
    buf.push((x % 0x100) as u8);
    assert(buf@ =~= old(buf)@ + u64_be(x));
}

/// What the loader reports when it rejects an image.
pub enum LoadFault {
    /// The first bytes are not the `GEARWORK` header; carries what was
    /// observed (up to eight bytes).
    BadMagic(Seq<u8>),
    /// A constant entry starts with an unknown tag byte.
    UnknownTag(u8),
    /// An instruction starts with an unknown opcode byte.
    UnknownOpcode(u8),
    /// The image ends before a declared field.
    Truncated,
    /// A string entry's bytes are not valid UTF-8.
    Utf8,
}

/// Parse one constant entry at offset `i`.
pub open spec fn parse_const(b: Seq<u8>, i: int) -> Result<(StackVal, int), LoadFault> {
    if i < 0 || i >= b.len() {
        Err(LoadFault::Truncated)
    } else if b[i] == 0x00u8 {
        if i + 5 <= b.len() {
            Ok((StackVal::Int(be32_at(b, i + 1) as i32), i + 5))
        } else {
            Err(LoadFault::Truncated)
        }
    } else if b[i] == 0x01u8 {
        if i + 9 <= b.len() {
            Ok((StackVal::Long(be64_at(b, i + 1) as i64), i + 9))
        } else {
            Err(LoadFault::Truncated)
        }
    } else if b[i] == 0x02u8 {
        if i + 5 <= b.len() {
            Ok((StackVal::Float(be32_at(b, i + 1)), i + 5))
        } else {
            Err(LoadFault::Truncated)
        }
    } else if b[i] == 0x03u8 {
        if i + 9 <= b.len() {
            Ok((StackVal::Double(be64_at(b, i + 1)), i + 9))
        } else {
            Err(LoadFault::Truncated)
        }
    } else if b[i] == 0x04u8 {
        if i + 9 <= b.len() {
            let n = be64_at(b, i + 1) as int;
            if i + 9 + n <= b.len() {
                let raw = b.subrange(i + 9, i + 9 + n);
                if valid_utf8(raw) {
                    Ok((StackVal::Str(decode_utf8(raw)), i + 9 + n))
                } else {
                    Err(LoadFault::Utf8)
                }
            } else {
                Err(LoadFault::Truncated)
            }
        } else {
            Err(LoadFault::Truncated)
        }
    } else {
        Err(LoadFault::UnknownTag(b[i]))
    }
}

/// Parse `n` constant entries starting at offset `i`.
pub open spec fn parse_consts(b: Seq<u8>, i: int, n: nat) -> Result<(Seq<StackVal>, int), LoadFault>
    decreases n,
{
    if n == 0 {
        Ok((Seq::empty(), i))
    } else {
        match parse_const(b, i) {
            Err(e) => Err(e),
            Ok((v, j)) => match parse_consts(b, j, (n - 1) as nat) {
                Err(e) => Err(e),
                Ok((vs, k)) => Ok((seq![v] + vs, k)),
            },
        }
    }
}

/// Parse one instruction at offset `i`.
pub open spec fn parse_instr(b: Seq<u8>, i: int) -> Result<(Opcode, int), LoadFault> {
    if i < 0 || i >= b.len() {
        Err(LoadFault::Truncated)
    } else if b[i] == 0x00u8 {
        if i + 5 <= b.len() {
            Ok((Opcode::Ldc(be32_at(b, i + 1)), i + 5))
        } else {
            Err(LoadFault::Truncated)
        }
    } else if b[i] == 0x01u8 {
        Ok((Opcode::Dump, i + 1))
    } else if b[i] == 0x02u8 {
        Ok((Opcode::Add, i + 1))
    } else if b[i] == 0x03u8 {
        Ok((Opcode::Sub, i + 1))
    } else if b[i] == 0x04u8 {
        Ok((Opcode::Mul, i + 1))
    } else if b[i] == 0x05u8 {
        Ok((Opcode::Div, i + 1))
    } else if b[i] == 0x06u8 {
        Ok((Opcode::Mod, i + 1))
    } else if b[i] == 0x07u8 {
        Ok((Opcode::Dup, i + 1))
    } else if b[i] == 0x08u8 {
        Ok((Opcode::Swp, i + 1))
    } else if b[i] == 0x09u8 {
        if i + 3 <= b.len() {
            Ok((Opcode::Store(be16_at(b, i + 1)), i + 3))
        } else {
            Err(LoadFault::Truncated)
        }
    } else if b[i] == 0x0au8 {
        if i + 3 <= b.len() {
            Ok((Opcode::Load(be16_at(b, i + 1)), i + 3))
        } else {
            Err(LoadFault::Truncated)
        }
    } else if b[i] == 0x0bu8 {
        if i + 5 <= b.len() {
            Ok((Opcode::Goto(be32_at(b, i + 1)), i + 5))
        } else {
            Err(LoadFault::Truncated)
        }
    } else if b[i] == 0x0cu8 {
        Ok((Opcode::Nop, i + 1))
    } else if b[i] == 0x0du8 {
        if i + 6 <= b.len() {
            Ok((Opcode::Func(be32_at(b, i + 1), b[i + 5]), i + 6))
        } else {
            Err(LoadFault::Truncated)
        }
    } else if b[i] == 0x0eu8 {
        Ok((Opcode::Return, i + 1))
    } else if b[i] == 0x0fu8 {
        if i + 6 <= b.len() {
            Ok((Opcode::Invoke(be32_at(b, i + 1), b[i + 5]), i + 6))
        } else {
            Err(LoadFault::Truncated)
        }
    } else {
        Err(LoadFault::UnknownOpcode(b[i]))
    }
}

/// Parse `n` instructions starting at offset `i`.
pub open spec fn parse_instrs(b: Seq<u8>, i: int, n: nat) -> Result<(Seq<Opcode>, int), LoadFault>
    decreases n,
{
    if n == 0 {
        Ok((Seq::empty(), i))
    } else {
        match parse_instr(b, i) {
            Err(e) => Err(e),
            Ok((o, j)) => match parse_instrs(b, j, (n - 1) as nat) {
                Err(e) => Err(e),
                Ok((os, k)) => Ok((seq![o] + os, k)),
            },
        }
    }
}

/// Parse a whole image: header, constant pool, code.  Trailing bytes are
/// ignored, as the loader reads the stream front to back.
pub open spec fn parse_image(b: Seq<u8>) -> Result<(Seq<StackVal>, Seq<Opcode>), LoadFault> {
    if b.len() < 8 || b.take(8) != magic() {
        Err(LoadFault::BadMagic(b.take(if b.len() < 8 { b.len() as int } else { 8 })))
    } else if b.len() < 12 {
        Err(LoadFault::Truncated)
    } else {
        match parse_consts(b, 12, be32_at(b, 8) as nat) {
            Err(e) => Err(e),
            Ok((cs, i)) => {
                if i + 4 <= b.len() {
                    match parse_instrs(b, i + 4, be32_at(b, i) as nat) {
                        Err(e) => Err(e),
                        Ok((code, _)) => Ok((cs, code)),
                    }
                } else {
                    Err(LoadFault::Truncated)
                }
            },
        }
    }
}

proof fn lemma_byte_at(b: Seq<u8>, i: int, cb: Seq<u8>, k: int)
    requires
        0 <= i,
        i + cb.len() <= b.len(),
        b.subrange(i, i + cb.len()) == cb,
        0 <= k < cb.len(),
    ensures
        b[i + k] == cb[k],
{
    assert(b.subrange(i, i + cb.len())[k] == cb[k]);
}

proof fn lemma_word_at(b: Seq<u8>, i: int, cb: Seq<u8>, lo: int, w: Seq<u8>)
    requires
        0 <= i,
        i + cb.len() <= b.len(),
        b.subrange(i, i + cb.len()) == cb,
        0 <= lo,
        lo + w.len() <= cb.len(),
        forall|k: int| 0 <= k < w.len() ==> cb[lo + k] == #[trigger] w[k],
    ensures
        forall|k: int| 0 <= k < w.len() ==> b[i + lo + k] == #[trigger] w[k],
{
    assert forall|k: int| 0 <= k < w.len() implies b[i + lo + k] == #[trigger] w[k] by {
        lemma_byte_at(b, i, cb, lo + k);
    }
}

proof fn lemma_parse_const_at(b: Seq<u8>, i: int, v: StackVal)
    requires
        encodable_val(v),
        0 <= i,
        i + const_bytes(v).len() <= b.len(),
        b.subrange(i, i + const_bytes(v).len()) == const_bytes(v),
    ensures
        parse_const(b, i) == Ok::<_, LoadFault>((v, i + const_bytes(v).len())),
{
    let cb = const_bytes(v);
    lemma_byte_at(b, i, cb, 0);
    match v {
        StackVal::Int(x) => {
            let w = u32_be(x as u32);
            lemma_word_at(b, i, cb, 1, w);
            assert(b[i + 1] == w[0] && b[i + 1 + 1] == w[1] && b[i + 1 + 2] == w[2] && b[i + 1 + 3]
                == w[3]);
            lemma_be32_round(x as u32);
            assert(be32_at(b, i + 1) == be32_at(w, 0));
            assert((x as u32) as i32 == x) by (bit_vector);
        },
        StackVal::Long(x) => {
            let w = u64_be(x as u64);
            lemma_word_at(b, i, cb, 1, w);
            assert(b[i + 1] == w[0] && b[i + 1 + 1] == w[1] && b[i + 1 + 2] == w[2] && b[i + 1 + 3]
                == w[3] && b[i + 1 + 4] == w[4] && b[i + 1 + 5] == w[5] && b[i + 1 + 6] == w[6] && b[
            i + 1 + 7] == w[7]);
            lemma_be64_round(x as u64);
            assert(be64_at(b, i + 1) == be64_at(w, 0));
            assert((x as u64) as i64 == x) by (bit_vector);
        },
        StackVal::Float(x) => {
            let w = u32_be(x);
            lemma_word_at(b, i, cb, 1, w);
            assert(b[i + 1] == w[0] && b[i + 1 + 1] == w[1] && b[i + 1 + 2] == w[2] && b[i + 1 + 3]
                == w[3]);
            lemma_be32_round(x);
            assert(be32_at(b, i + 1) == be32_at(w, 0));
        },
        StackVal::Double(x) => {
            let w = u64_be(x);
            lemma_word_at(b, i, cb, 1, w);
            assert(b[i + 1] == w[0] && b[i + 1 + 1] == w[1] && b[i + 1 + 2] == w[2] && b[i + 1 + 3]
                == w[3] && b[i + 1 + 4] == w[4] && b[i + 1 + 5] == w[5] && b[i + 1 + 6] == w[6] && b[
            i + 1 + 7] == w[7]);
            lemma_be64_round(x);
            assert(be64_at(b, i + 1) == be64_at(w, 0));
        },
        StackVal::Str(s) => {
            let enc = encode_utf8(s);
            let n = enc.len() as u64;
            let w = u64_be(n);
            lemma_word_at(b, i, cb, 1, w);
            assert(b[i + 1] == w[0] && b[i + 1 + 1] == w[1] && b[i + 1 + 2] == w[2] && b[i + 1 + 3]
                == w[3] && b[i + 1 + 4] == w[4] && b[i + 1 + 5] == w[5] && b[i + 1 + 6] == w[6] && b[
            i + 1 + 7] == w[7]);
            lemma_be64_round(n);
            assert(be64_at(b, i + 1) == be64_at(w, 0));
            assert(forall|k: int| 0 <= k < enc.len() ==> cb[9 + k] == #[trigger] enc[k]);
            lemma_word_at(b, i, cb, 9, enc);
            assert(b.subrange(i + 9, i + 9 + n as int) =~= enc) by {
                assert(forall|k: int|
                    0 <= k < enc.len() ==> #[trigger] b.subrange(i + 9, i + 9 + n as int)[k] == b[i
                        + 9 + k]);
            }
            vstd::utf8::encode_utf8_valid_utf8(s);
            vstd::utf8::encode_utf8_decode_utf8(s);
        },
    }
}

proof fn lemma_parse_consts_at(b: Seq<u8>, i: int, cs: Seq<StackVal>)
    requires
        forall|k: int| 0 <= k < cs.len() ==> encodable_val(#[trigger] cs[k]),
        0 <= i,
        i + consts_bytes(cs).len() <= b.len(),
        b.subrange(i, i + consts_bytes(cs).len()) == consts_bytes(cs),
    ensures
        parse_consts(b, i, cs.len()) == Ok::<_, LoadFault>((cs, i + consts_bytes(cs).len())),
    decreases cs.len(),
{
    if cs.len() == 0 {
        assert(parse_consts(b, i, 0) == Ok::<_, LoadFault>((Seq::<StackVal>::empty(), i)));
        assert(cs =~= Seq::<StackVal>::empty());
    } else {
        let head = cs[0];
        let rest = cs.drop_first();
        let hb = const_bytes(head);
        let rb = consts_bytes(rest);
        assert(consts_bytes(cs) == hb + rb);
        assert(b.subrange(i, i + hb.len()) =~= hb) by {
            assert forall|k: int| 0 <= k < hb.len() implies b.subrange(i, i + hb.len())[k] == hb[k]
            by {
                assert(b.subrange(i, i + consts_bytes(cs).len())[k] == (hb + rb)[k]);
            }
        }
        lemma_parse_const_at(b, i, head);
        let j = i + hb.len();
        assert(b.subrange(j, j + rb.len()) =~= rb) by {
            assert forall|k: int| 0 <= k < rb.len() implies b.subrange(j, j + rb.len())[k] == rb[k]
            by {
                assert(b.subrange(i, i + consts_bytes(cs).len())[hb.len() + k] == (hb + rb)[hb.len()
                    + k]);
            }
        }
        assert(forall|k: int| 0 <= k < rest.len() ==> encodable_val(#[trigger] rest[k])) by {
            assert(forall|k: int| 0 <= k < rest.len() ==> rest[k] == cs[k + 1]);
        }
        lemma_parse_consts_at(b, j, rest);
        assert(seq![head] + rest =~= cs);
    }
}

proof fn lemma_parse_instr_at(b: Seq<u8>, i: int, o: Opcode)
    requires
        0 <= i,
        i + instr_bytes(o).len() <= b.len(),
        b.subrange(i, i + instr_bytes(o).len()) == instr_bytes(o),
    ensures
        parse_instr(b, i) == Ok::<_, LoadFault>((o, i + instr_bytes(o).len())),
{
    let ib = instr_bytes(o);
    lemma_byte_at(b, i, ib, 0);
    match o {
        Opcode::Ldc(x) => {
            let w = u32_be(x);
            lemma_word_at(b, i, ib, 1, w);
            assert(b[i + 1] == w[0] && b[i + 1 + 1] == w[1] && b[i + 1 + 2] == w[2] && b[i + 1 + 3]
                == w[3]);
            lemma_be32_round(x);
            assert(be32_at(b, i + 1) == be32_at(w, 0));
        },
        Opcode::Store(k) => {
            let w = u16_be(k);
            lemma_word_at(b, i, ib, 1, w);
            assert(b[i + 1] == w[0] && b[i + 1 + 1] == w[1]);
            lemma_be16_round(k);
            assert(be16_at(b, i + 1) == be16_at(w, 0));
        },
        Opcode::Load(k) => {
            let w = u16_be(k);
            lemma_word_at(b, i, ib, 1, w);
            assert(b[i + 1] == w[0] && b[i + 1 + 1] == w[1]);
            lemma_be16_round(k);
            assert(be16_at(b, i + 1) == be16_at(w, 0));
        },
        Opcode::Goto(t) => {
            let w = u32_be(t);
            lemma_word_at(b, i, ib, 1, w);
            assert(b[i + 1] == w[0] && b[i + 1 + 1] == w[1] && b[i + 1 + 2] == w[2] && b[i + 1 + 3]
                == w[3]);
            lemma_be32_round(t);
            assert(be32_at(b, i + 1) == be32_at(w, 0));
        },
        Opcode::Func(nm, p) => {
            let w = u32_be(nm);
            lemma_word_at(b, i, ib, 1, w);
            assert(b[i + 1] == w[0] && b[i + 1 + 1] == w[1] && b[i + 1 + 2] == w[2] && b[i + 1 + 3]
                == w[3]);
            lemma_be32_round(nm);
            assert(be32_at(b, i + 1) == be32_at(w, 0));
            lemma_byte_at(b, i, ib, 5);
        },
        Opcode::Invoke(nm, p) => {
            let w = u32_be(nm);
            lemma_word_at(b, i, ib, 1, w);
            assert(b[i + 1] == w[0] && b[i + 1 + 1] == w[1] && b[i + 1 + 2] == w[2] && b[i + 1 + 3]
                == w[3]);
            lemma_be32_round(nm);
            assert(be32_at(b, i + 1) == be32_at(w, 0));
            lemma_byte_at(b, i, ib, 5);
        },
        _ => {},
    }
}

proof fn lemma_parse_instrs_at(b: Seq<u8>, i: int, code: Seq<Opcode>)
    requires
        0 <= i,
        i + code_bytes(code).len() <= b.len(),
        b.subrange(i, i + code_bytes(code).len()) == code_bytes(code),
    ensures
        parse_instrs(b, i, code.len()) == Ok::<_, LoadFault>((code, i + code_bytes(code).len())),
    decreases code.len(),
{
    if code.len() == 0 {
        assert(parse_instrs(b, i, 0) == Ok::<_, LoadFault>((Seq::<Opcode>::empty(), i)));
        assert(code =~= Seq::<Opcode>::empty());
    } else {
        let head = code[0];
        let rest = code.drop_first();
        let hb = instr_bytes(head);
        let rb = code_bytes(rest);
        assert(code_bytes(code) == hb + rb);
        assert(b.subrange(i, i + hb.len()) =~= hb) by {
            assert forall|k: int| 0 <= k < hb.len() implies b.subrange(i, i + hb.len())[k] == hb[k]
            by {
                assert(b.subrange(i, i + code_bytes(code).len())[k] == (hb + rb)[k]);
            }
        }
        lemma_parse_instr_at(b, i, head);
        let j = i + hb.len();
        assert(b.subrange(j, j + rb.len()) =~= rb) by {
            assert forall|k: int| 0 <= k < rb.len() implies b.subrange(j, j + rb.len())[k] == rb[k]
            by {
                assert(b.subrange(i, i + code_bytes(code).len())[hb.len() + k] == (hb + rb)[hb.len()
                    + k]);
            }
        }
        lemma_parse_instrs_at(b, j, rest);
        assert(seq![head] + rest =~= code);
    }
}

/// Round-trip law: an image assembled from any pool and code the wire
/// format can carry parses back to exactly that pool and that code.  The
/// emitter's `visit_end` produces `image_bytes` of its interned pool and
/// resolved code, and the loader agrees with `parse_image`, so whatever a
/// builder emits, the loader reconstructs unchanged.
pub proof fn lemma_image_round_trip(cs: Seq<StackVal>, code: Seq<Opcode>)
    requires
        encodable(cs, code),
    ensures
        parse_image(image_bytes(cs, code)) == Ok::<_, LoadFault>((cs, code)),
{
    let b = image_bytes(cs, code);
    let cb = consts_bytes(cs);
    let ib = code_bytes(code);
    assert(b =~= magic() + u32_be(cs.len() as u32) + cb + u32_be(code.len() as u32) + ib);
    let m = magic() + u32_be(cs.len() as u32) + cb + u32_be(code.len() as u32) + ib;
    assert(b.len() == 16 + cb.len() + ib.len());
    assert(b.take(8) =~= magic());

    lemma_be32_round(cs.len() as u32);
    assert(b[8] == u32_be(cs.len() as u32)[0] && b[9] == u32_be(cs.len() as u32)[1] && b[10]
        == u32_be(cs.len() as u32)[2] && b[11] == u32_be(cs.len() as u32)[3]);
    assert(be32_at(b, 8) == be32_at(u32_be(cs.len() as u32), 0));
    assert(be32_at(b, 8) as nat == cs.len());

    assert(b.subrange(12, 12 + cb.len() as int) =~= cb);
    lemma_parse_consts_at(b, 12, cs);
    let j: int = 12 + cb.len() as int;

    lemma_be32_round(code.len() as u32);
    assert(b[j] == u32_be(code.len() as u32)[0] && b[j + 1] == u32_be(code.len() as u32)[1] && b[j
        + 2] == u32_be(code.len() as u32)[2] && b[j + 3] == u32_be(code.len() as u32)[3]);
    assert(be32_at(b, j) == be32_at(u32_be(code.len() as u32), 0));
    assert(be32_at(b, j) as nat == code.len());

    assert(b.subrange(j + 4, j + 4 + ib.len() as int) =~= ib);
    lemma_parse_instrs_at(b, j + 4, code);
}

} // verus!
