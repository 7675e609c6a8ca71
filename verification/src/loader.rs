//! The loader: validates the `GEARWORK` header, reconstructs the
//! constant pool, and decodes the instruction stream.
//!
//! `load` is proved to agree exactly with the abstract parser
//! `codec::parse_image`, on success and on every rejected input.

use vstd::prelude::*;
use crate::codec::{be16_at, be32_at, be64_at, parse_const, parse_consts, parse_image, parse_instr,
    parse_instrs, LoadFault};
use crate::opcode::Opcode;
use crate::value::Stackable;
use crate::vm::{Code, VM};
use vstd::string::StringSliceAdditionalSpecFns;
use vstd::utf8::valid_utf8;

verus! {

/// What the loader reports when it rejects an image.
#[derive(Debug)]
pub enum LoadError {
    /// The first bytes are not the `GEARWORK` header; carries what was
    /// observed (up to eight bytes).
    BadMagic(Vec<u8>),
    /// A constant entry starts with an unknown tag byte.
    UnknownTag(u8),
    /// An instruction starts with an unknown opcode byte.
    UnknownOpcode(u8),
    /// The image ends before a declared field.
    Truncated,
    /// A string entry's bytes are not valid UTF-8.
    InvalidUtf8,
}

impl View for LoadError {
    type V = LoadFault;

    closed spec fn view(&self) -> LoadFault {
        match self {
            LoadError::BadMagic(v) => LoadFault::BadMagic(v@),
            LoadError::UnknownTag(t) => LoadFault::UnknownTag(*t),
            LoadError::UnknownOpcode(o) => LoadFault::UnknownOpcode(*o),
            LoadError::Truncated => LoadFault::Truncated,
            LoadError::InvalidUtf8 => LoadFault::Utf8,
        }
    }
}

/// Relies on `core::str::from_utf8`: it accepts exactly the valid UTF-8
/// byte sequences, and the returned slice is those bytes seen as text.
#[verifier::external_body]
fn utf8_to_str(bytes: &[u8]) -> (r: Option<&str>)
    ensures
        r is Some <==> valid_utf8(bytes@),
        r matches Some(s) ==> s.spec_bytes() == bytes@,
{
    core::str::from_utf8(bytes).ok()
}

fn read_u16(b: &Vec<u8>, pos: usize) -> (r: u16)
    requires
        pos + 2 <= b@.len(),
    ensures
        r == be16_at(b@, pos as int),
{
    let n = b.len();
    b[pos] as u16 * 0x100 + b[pos + 1] as u16
}

fn read_u32(b: &Vec<u8>, pos: usize) -> (r: u32)
    requires
        pos + 4 <= b@.len(),
    ensures
        r == be32_at(b@, pos as int),
{
    let n = b.len();
    b[pos] as u32 * 0x1000000 + b[pos + 1] as u32 * 0x10000 + b[pos + 2] as u32 * 0x100 + b[pos
        + 3] as u32
}

fn read_u64(b: &Vec<u8>, pos: usize) -> (r: u64)
    requires
        pos + 8 <= b@.len(),
    ensures
        r == be64_at(b@, pos as int),
{
    let n = b.len();
    b[pos] as u64 * 0x100000000000000 + b[pos + 1] as u64 * 0x1000000000000 + b[pos + 2] as u64
        * 0x10000000000 + b[pos + 3] as u64 * 0x100000000 + b[pos + 4] as u64 * 0x1000000 + b[pos
        + 5] as u64 * 0x10000 + b[pos + 6] as u64 * 0x100 + b[pos + 7] as u64
}

/// Decode one constant entry at `pos`, exactly as `parse_const` says.
fn read_constant(b: &Vec<u8>, pos: usize) -> (r: Result<(Stackable, usize), LoadError>)
    requires
        pos <= b@.len(),
    ensures
        match parse_const(b@, pos as int) {
            Ok((v, j)) => r matches Ok(p) && p.0@ == v && p.1 as int == j && pos < p.1 <= b@.len(),
            Err(e) => r matches Err(x) && x@ == e,
        },
{
    let len = b.len();
    if pos >= len {
        return Err(LoadError::Truncated);
    }
    let tag = b[pos];
    if tag == 0x00 {
        if len - pos < 5 {
            return Err(LoadError::Truncated);
        }
        let raw = read_u32(b, pos + 1);
        Ok((Stackable::Int(#[verifier::truncate] (raw as i32)), pos + 5))
    } else if tag == 0x01 {
        if len - pos < 9 {
            return Err(LoadError::Truncated);
        }
        let raw = read_u64(b, pos + 1);
        Ok((Stackable::Long(#[verifier::truncate] (raw as i64)), pos + 9))
    } else if tag == 0x02 {
        if len - pos < 5 {
            return Err(LoadError::Truncated);
        }
        Ok((Stackable::Float(read_u32(b, pos + 1)), pos + 5))
    } else if tag == 0x03 {
        if len - pos < 9 {
            return Err(LoadError::Truncated);
        }
        Ok((Stackable::Double(read_u64(b, pos + 1)), pos + 9))
    } else if tag == 0x04 {
        if len - pos < 9 {
            return Err(LoadError::Truncated);
        }
        let byte_len = read_u64(b, pos + 1);
        if byte_len > (len - (pos + 9)) as u64 {
            return Err(LoadError::Truncated);
        }
        let n = byte_len as usize;
        let raw = &b[pos + 9..pos + 9 + n];
        match utf8_to_str(raw) {
            None => Err(LoadError::InvalidUtf8),
            Some(s) => {
                proof {
                    vstd::utf8::encode_utf8_decode_utf8(s@);
                }
                Ok((Stackable::String(s.to_owned()), pos + 9 + n))
            },
        }
    } else {
        Err(LoadError::UnknownTag(tag))
    }
}

/// Decode one instruction at `pos`, exactly as `parse_instr` says.
fn read_instruction(b: &Vec<u8>, pos: usize) -> (r: Result<(Opcode, usize), LoadError>)
    requires
        pos <= b@.len(),
    ensures
        match parse_instr(b@, pos as int) {
            Ok((o, j)) => r matches Ok(p) && p.0 == o && p.1 as int == j && pos < p.1 <= b@.len(),
            Err(e) => r matches Err(x) && x@ == e,
        },
{
    let len = b.len();
    if pos >= len {
        return Err(LoadError::Truncated);
    }
    let op = b[pos];
    if op == 0x00 {
        if len - pos < 5 {
            return Err(LoadError::Truncated);
        }
        Ok((Opcode::Ldc(read_u32(b, pos + 1)), pos + 5))
    } else if op == 0x01 {
        Ok((Opcode::Dump, pos + 1))
    } else if op == 0x02 {
        Ok((Opcode::Add, pos + 1))
    } else if op == 0x03 {
        Ok((Opcode::Sub, pos + 1))
    } else if op == 0x04 {
        Ok((Opcode::Mul, pos + 1))
    } else if op == 0x05 {
        Ok((Opcode::Div, pos + 1))
    } else if op == 0x06 {
        Ok((Opcode::Mod, pos + 1))
    } else if op == 0x07 {
        Ok((Opcode::Dup, pos + 1))
    } else if op == 0x08 {
        Ok((Opcode::Swp, pos + 1))
    } else if op == 0x09 {
        if len - pos < 3 {
            return Err(LoadError::Truncated);
        }
        Ok((Opcode::Store(read_u16(b, pos + 1)), pos + 3))
    } else if op == 0x0a {
        if len - pos < 3 {
            return Err(LoadError::Truncated);
        }
        Ok((Opcode::Load(read_u16(b, pos + 1)), pos + 3))
    } else if op == 0x0b {
        if len - pos < 5 {
            return Err(LoadError::Truncated);
        }
        Ok((Opcode::Goto(read_u32(b, pos + 1)), pos + 5))
    } else if op == 0x0c {
        Ok((Opcode::Nop, pos + 1))
    } else if op == 0x0d {
        if len - pos < 6 {
            return Err(LoadError::Truncated);
        }
        Ok((Opcode::Func(read_u32(b, pos + 1), b[pos + 5]), pos + 6))
    } else if op == 0x0e {
        Ok((Opcode::Return, pos + 1))
    } else if op == 0x0f {
        if len - pos < 6 {
            return Err(LoadError::Truncated);
        }
        Ok((Opcode::Invoke(read_u32(b, pos + 1), b[pos + 5]), pos + 6))
    } else {
        Err(LoadError::UnknownOpcode(op))
    }
}

/// Reads a bytecode image front to back.
pub struct Loader<'a> {
    bytecode: &'a Vec<u8>,
}

impl<'a> Loader<'a> {
    /// The bytes this loader reads.
    pub closed spec fn bytes(self) -> Seq<u8> {
        self.bytecode@
    }

    pub fn new(bytecode: &'a Vec<u8>) -> (r: Self)
        ensures
            r.bytes() == bytecode@,
    {
        Self { bytecode }
    }

    /// Check the eight header bytes; on a mismatch, report what was
    /// observed.
    fn validate_header(&self) -> (r: Result<(), LoadError>)
        ensures
            r is Ok <==> (self.bytes().len() >= 8 && self.bytes().take(8) == crate::codec::magic()),
            r matches Err(e) ==> e@ == LoadFault::BadMagic(
                self.bytes().take(
                    if self.bytes().len() < 8 {
                        self.bytes().len() as int
                    } else {
                        8
                    },
                ),
            ),
    {
        let b = self.bytecode;
        let len = b.len();
        let good = len >= 8 && b[0] == 0x47 && b[1] == 0x45 && b[2] == 0x41 && b[3] == 0x52 && b[4]
            == 0x57 && b[5] == 0x4f && b[6] == 0x52 && b[7] == 0x4b;
        if good {
            proof {
                assert(self.bytes().take(8) =~= crate::codec::magic());
            }
            Ok(())
        } else {
            let take = if len < 8 {
                len
            } else {
                8
            };
            let mut observed: Vec<u8> = Vec::new();
            let mut i: usize = 0;
            while i < take
                invariant
                    take <= b@.len(),
                    0 <= i <= take,
                    observed@ == b@.take(take as int).take(i as int),
                decreases take - i,
            {
                observed.push(b[i]);
                proof {
                    assert(b@.take(take as int).take(i + 1) =~= b@.take(take as int).take(
                        i as int,
                    ).push(b@[i as int]));
                }
                i = i + 1;
            }
            proof {
                assert(observed@ =~= b@.take(take as int));
                if len >= 8 {
                    assert(self.bytes().take(8) != crate::codec::magic()) by {
                        if self.bytes().take(8) == crate::codec::magic() {
                            assert(self.bytes().take(8)[0] == 0x47u8);
                            assert(self.bytes().take(8)[1] == 0x45u8);
                            assert(self.bytes().take(8)[2] == 0x41u8);
                            assert(self.bytes().take(8)[3] == 0x52u8);
                            assert(self.bytes().take(8)[4] == 0x57u8);
                            assert(self.bytes().take(8)[5] == 0x4fu8);
                            assert(self.bytes().take(8)[6] == 0x52u8);
                            assert(self.bytes().take(8)[7] == 0x4bu8);
                        }
                    }
                }
            }
            Err(LoadError::BadMagic(observed))
        }
    }

    /// Parse the whole image into a machine, exactly as
    /// `codec::parse_image` says: the constants and code on success, the
    /// matching fault on every rejected input.
    #[verifier::loop_isolation(false)]
    pub fn load(self) -> (r: Result<VM, LoadError>)
        ensures
            match parse_image(self.bytes()) {
                Ok((cs, code)) => r matches Ok(vm) && vm.constants_view() == cs && vm.code_view()
                    == code && vm.wf(),
                Err(e) => r matches Err(x) && x@ == e,
            },
    {
        let b = self.bytecode;
        let len = b.len();
        if let Err(e) = self.validate_header() {
            return Err(e);
        }
        if len < 12 {
            return Err(LoadError::Truncated);
        }
        let constant_pool_size = read_u32(b, 8);
        let ghost gb = b@;
        let ghost n0 = constant_pool_size as nat;

        let mut constants: Vec<Stackable> = Vec::new();
        let mut pos: usize = 12;
        let mut idx: u32 = 0;
        while idx < constant_pool_size
            invariant
                gb == b@,
                0 <= idx <= constant_pool_size,
                pos <= gb.len(),
                n0 == constant_pool_size as nat,
                parse_consts(gb, 12, n0) == match parse_consts(
                    gb,
                    pos as int,
                    (n0 - idx as nat) as nat,
                ) {
                    Ok((vs, j)) => Ok::<_, LoadFault>((constants.deep_view() + vs, j)),
                    Err(e) => Err(e),
                },
            decreases constant_pool_size - idx,
        {
            let ghost rem = (n0 - idx as nat) as nat;
            let ghost acc0 = constants.deep_view();
            match read_constant(b, pos) {
                Err(e) => {
                    proof {
                        assert(parse_consts(gb, pos as int, rem) == Err::<(Seq<
                            crate::value::StackVal,
                        >, int), LoadFault>(e@));
                    }
                    return Err(e);
                },
                Ok((v, new_pos)) => {
                    let ghost vv = v@;
                    constants.push(v);
                    proof {
                        assert(constants.deep_view() =~= acc0.push(vv));
                        let inner = parse_consts(gb, new_pos as int, (rem - 1) as nat);
                        match inner {
                            Ok((vs2, j2)) => {
                                assert(parse_consts(gb, pos as int, rem) == Ok::<_, LoadFault>(
                                    (seq![vv] + vs2, j2),
                                ));
                                assert(acc0 + (seq![vv] + vs2) =~= acc0.push(vv) + vs2);
                            },
                            Err(_) => {},
                        }
                    }
                    pos = new_pos;
                    idx = idx + 1;
                },
            }
        }
        proof {
            assert(parse_consts(gb, pos as int, 0) == Ok::<_, LoadFault>((Seq::<
                crate::value::StackVal,
            >::empty(), pos as int)));
            assert(constants.deep_view() + Seq::<crate::value::StackVal>::empty()
                =~= constants.deep_view());
        }

        if len - pos < 4 {
            return Err(LoadError::Truncated);
        }
        let instruction_count = read_u32(b, pos);
        let ghost m0 = instruction_count as nat;
        let ghost ipos0 = pos + 4;

        let mut instructions: Vec<Opcode> = Vec::new();
        let mut ipos: usize = pos + 4;
        let mut jdx: u32 = 0;
        while jdx < instruction_count
            invariant
                gb == b@,
                0 <= jdx <= instruction_count,
                ipos <= gb.len(),
                m0 == instruction_count as nat,
                instructions@.len() == jdx as nat,
                parse_instrs(gb, ipos0 as int, m0) == match parse_instrs(
                    gb,
                    ipos as int,
                    (m0 - jdx as nat) as nat,
                ) {
                    Ok((os, j)) => Ok::<_, LoadFault>((instructions@ + os, j)),
                    Err(e) => Err(e),
                },
            decreases instruction_count - jdx,
        {
            let ghost rem = (m0 - jdx as nat) as nat;
            let ghost acc0 = instructions@;
            match read_instruction(b, ipos) {
                Err(e) => {
                    proof {
                        assert(parse_instrs(gb, ipos as int, rem) == Err::<(Seq<Opcode>, int),
                            LoadFault,
                        >(e@));
                    }
                    return Err(e);
                },
                Ok((o, new_pos)) => {
                    instructions.push(o);
                    proof {
                        assert(instructions@ =~= acc0.push(o));
                        let inner = parse_instrs(gb, new_pos as int, (rem - 1) as nat);
                        match inner {
                            Ok((os2, j2)) => {
                                assert(parse_instrs(gb, ipos as int, rem) == Ok::<_, LoadFault>(
                                    (seq![o] + os2, j2),
                                ));
                                assert(acc0 + (seq![o] + os2) =~= acc0.push(o) + os2);
                            },
                            Err(_) => {},
                        }
                    }
                    ipos = new_pos;
                    jdx = jdx + 1;
                },
            }
        }
        proof {
            assert(parse_instrs(gb, ipos as int, 0) == Ok::<_, LoadFault>((Seq::<Opcode>::empty(),
            ipos as int)));
            assert(instructions@ + Seq::<Opcode>::empty() =~= instructions@);
        }

        Ok(VM::new_vm(constants, Code::new(instructions)))
    }
}

} // verus!
