//! The bytecode emitter.
//!
//! Three builders compose.  `BytecodeBuilder` owns the image buffer and
//! writes the `GEARWORK` header on construction.  `InstructionBuilder`
//! buffers instructions, interns the constants they mention, and keeps a
//! table of label bindings; its `visit_end` writes the constant-pool
//! section (through a `ConstantBuilder`) and then the code section into
//! the image buffer.  Labels are symbolic jump targets: `make_label`
//! allocates one, `visit_label` binds it to the current instruction
//! index, and `visit_goto` emits a jump that resolves to the label's
//! final binding (an unbound label resolves to 0).

use vstd::prelude::*;
use crate::codec::{
    code_bytes, code_section, const_section, consts_bytes, encodable_val, instr_bytes,
    lemma_code_bytes_snoc, lemma_consts_bytes_snoc, magic, push_u16, push_u32, push_u64, u32_be,
};
use crate::opcode::Opcode;
use crate::value::{StackVal, Stackable};
use vstd::utf8::encode_utf8;

verus! {

/// What the emitter reports when it refuses an instruction.
#[derive(Debug)]
pub enum EmitError {
    /// `visit_invoke` named a function whose name is not yet in the
    /// constant pool; carries the name.
    UndeclaredFunction(String),
}

/// The image builder: owns the byte buffer, which starts with the
/// `GEARWORK` header.
#[derive(Debug)]
pub struct BytecodeBuilder {
    byte_pool: Vec<u8>,
}

impl View for BytecodeBuilder {
    type V = Seq<u8>;

    closed spec fn view(&self) -> Seq<u8> {
        self.byte_pool@
    }
}

impl BytecodeBuilder {
    /// A fresh image holding only the header.
    pub fn new() -> (r: Self)
        ensures
            r@ == magic(),
    {
        let mut byte_pool: Vec<u8> = Vec::new();
        byte_pool.push(0x47);
        byte_pool.push(0x45);
        byte_pool.push(0x41);
        byte_pool.push(0x52);
        byte_pool.push(0x57);
        byte_pool.push(0x4f);
        byte_pool.push(0x52);
        byte_pool.push(0x4b);
        proof {
            assert(byte_pool@ =~= magic());
        }
        BytecodeBuilder { byte_pool }
    }

    /// Open a builder for a constant-pool section.
    pub fn visit_constant_pool(&self) -> (r: ConstantBuilder)
        ensures
            r@ == Seq::<StackVal>::empty(),
            r.wf(),
    {
        ConstantBuilder { count: 0, byte_pool: Vec::new(), entries: Ghost(Seq::empty()) }
    }

    /// Open a builder for the code section.
    pub fn visit_code(&self) -> (r: InstructionBuilder)
        ensures
            r.pool() == Seq::<StackVal>::empty(),
            r.code() == Seq::<Opcode>::empty(),
            r.bindings() == Seq::<u32>::empty(),
            r.wf(),
    {
        let r = InstructionBuilder {
            generated_constants: Vec::new(),
            instrs: Vec::new(),
            labels: Vec::new(),
        };
        proof {
            assert(r.code() =~= Seq::<Opcode>::empty());
        }
        r
    }

    /// Yield the finished image bytes.
    pub fn visit_end(self) -> (r: Vec<u8>)
        ensures
            r@ == self@,
    {
        self.byte_pool
    }
}

/// The builder for a constant-pool section: buffers the encoded entries
/// and counts them.
pub struct ConstantBuilder {
    count: u32,
    byte_pool: Vec<u8>,
    entries: Ghost<Seq<StackVal>>,
}

impl View for ConstantBuilder {
    type V = Seq<StackVal>;

    closed spec fn view(&self) -> Seq<StackVal> {
        self.entries@
    }
}

impl ConstantBuilder {
    /// The buffered bytes are exactly the encoding of the entries so far,
    /// and the count matches.
    pub closed spec fn wf(self) -> bool {
        &&& self.count as int == self.entries@.len()
        &&& self.byte_pool@ == consts_bytes(self.entries@)
        &&& forall|k: int| 0 <= k < self.entries@.len() ==> encodable_val(#[trigger] self.entries@[k])
    }

    /// Append an `Int` entry.
    pub fn visit_integer(&mut self, int_value: i32)
        requires
            old(self).wf(),
            old(self)@.len() < u32::MAX,
        ensures
            final(self).wf(),
            final(self)@ == old(self)@.push(StackVal::Int(int_value)),
    {
        proof {
            lemma_consts_bytes_snoc(self.entries@, StackVal::Int(int_value));
        }
        self.byte_pool.push(0x00);
        push_u32(&mut self.byte_pool, #[verifier::truncate] (int_value as u32));
        self.count = self.count + 1;
        self.entries = Ghost(self.entries@.push(StackVal::Int(int_value)));
        proof {
            assert(self.byte_pool@ =~= consts_bytes(self.entries@));
        }
    }

    /// Append a `Long` entry.
    pub fn visit_long(&mut self, long: i64)
        requires
            old(self).wf(),
            old(self)@.len() < u32::MAX,
        ensures
            final(self).wf(),
            final(self)@ == old(self)@.push(StackVal::Long(long)),
    {
        proof {
            lemma_consts_bytes_snoc(self.entries@, StackVal::Long(long));
        }
        self.byte_pool.push(0x01);
        push_u64(&mut self.byte_pool, #[verifier::truncate] (long as u64));
        self.count = self.count + 1;
        self.entries = Ghost(self.entries@.push(StackVal::Long(long)));
        proof {
            assert(self.byte_pool@ =~= consts_bytes(self.entries@));
        }
    }

    /// Append a `Float` entry, given as its IEEE-754 binary32 bits.
    pub fn visit_float(&mut self, float: u32)
        requires
            old(self).wf(),
            old(self)@.len() < u32::MAX,
        ensures
            final(self).wf(),
            final(self)@ == old(self)@.push(StackVal::Float(float)),
    {
        proof {
            lemma_consts_bytes_snoc(self.entries@, StackVal::Float(float));
        }
        self.byte_pool.push(0x02);
        push_u32(&mut self.byte_pool, float);
        self.count = self.count + 1;
        self.entries = Ghost(self.entries@.push(StackVal::Float(float)));
        proof {
            assert(self.byte_pool@ =~= consts_bytes(self.entries@));
        }
    }

    /// Append a `Double` entry, given as its IEEE-754 binary64 bits.
    pub fn visit_double(&mut self, double: u64)
        requires
            old(self).wf(),
            old(self)@.len() < u32::MAX,
        ensures
            final(self).wf(),
            final(self)@ == old(self)@.push(StackVal::Double(double)),
    {
        proof {
            lemma_consts_bytes_snoc(self.entries@, StackVal::Double(double));
        }
        self.byte_pool.push(0x03);
        push_u64(&mut self.byte_pool, double);
        self.count = self.count + 1;
        self.entries = Ghost(self.entries@.push(StackVal::Double(double)));
        proof {
            assert(self.byte_pool@ =~= consts_bytes(self.entries@));
        }
    }

    /// Append a `String` entry: the UTF-8 byte length as a u64, then the
    /// bytes.
    pub fn visit_string(&mut self, string: String)
        requires
            old(self).wf(),
            old(self)@.len() < u32::MAX,
        ensures
            final(self).wf(),
            final(self)@ == old(self)@.push(StackVal::Str(string@)),
    {
        proof {
            lemma_consts_bytes_snoc(self.entries@, StackVal::Str(string@));
        }
        let string_bytes = string.as_str().as_bytes();
        let len = string_bytes.len();
        self.byte_pool.push(0x04);
        push_u64(&mut self.byte_pool, len as u64);
        self.byte_pool.extend_from_slice(string_bytes);
        self.count = self.count + 1;
        self.entries = Ghost(self.entries@.push(StackVal::Str(string@)));
        proof {
            assert(self.byte_pool@ =~= consts_bytes(self.entries@));
        }
    }

    /// Append an entry of whichever variant the value holds.
    pub fn visit_constant(&mut self, value: &Stackable)
        requires
            old(self).wf(),
            old(self)@.len() < u32::MAX,
        ensures
            final(self).wf(),
            final(self)@ == old(self)@.push(value@),
    {
        match value {
            Stackable::Int(i) => self.visit_integer(*i),
            Stackable::Long(long) => self.visit_long(*long),
            Stackable::Float(float) => self.visit_float(*float),
            Stackable::Double(double) => self.visit_double(*double),
            Stackable::String(string) => self.visit_string(string.clone()),
        }
    }

    /// Close the section: write the entry count, then the entries, into
    /// the image buffer.
    pub fn visit_end(self, parent: &mut BytecodeBuilder)
        requires
            self.wf(),
        ensures
            final(parent)@ == old(parent)@ + const_section(self@),
    {
        let ConstantBuilder { count, mut byte_pool, entries } = self;
        push_u32(&mut parent.byte_pool, count);
        parent.byte_pool.append(&mut byte_pool);
        proof {
            assert(parent.byte_pool@ =~= old(parent)@ + const_section(entries@));
        }
    }
}

/// A buffered instruction: either a finished opcode or a jump that still
/// refers to a label.
pub enum Emitted {
    Direct(Opcode),
    GotoLabel(usize),
}

/// The opcode an `Emitted` stands for once labels have their final
/// bindings; a jump through an out-of-range label id resolves to 0.
pub open spec fn resolve_one(e: Emitted, bindings: Seq<u32>) -> Opcode {
    match e {
        Emitted::Direct(o) => o,
        Emitted::GotoLabel(l) => Opcode::Goto(
            if 0 <= l < bindings.len() {
                bindings[l as int]
            } else {
                0
            },
        ),
    }
}

/// All buffered instructions under the given label bindings.
pub open spec fn resolve(instrs: Seq<Emitted>, bindings: Seq<u32>) -> Seq<Opcode> {
    Seq::new(instrs.len(), |i: int| resolve_one(instrs[i], bindings))
}

/// The index `visit_ldc` uses for a value: its first occurrence in the
/// pool, or the pool's length if it is new.
pub open spec fn intern_index(pool: Seq<StackVal>, v: StackVal) -> int
    decreases pool.len(),
{
    if pool.len() == 0 {
        0
    } else if pool[0] == v {
        0
    } else {
        1 + intern_index(pool.drop_first(), v)
    }
}

/// The pool after interning a value: unchanged if present, extended
/// otherwise.
pub open spec fn intern_pool(pool: Seq<StackVal>, v: StackVal) -> Seq<StackVal> {
    if intern_index(pool, v) < pool.len() {
        pool
    } else {
        pool.push(v)
    }
}

/// The index `visit_func` and `visit_invoke` use for a name: the first
/// string entry holding it, or the pool's length if there is none.
pub open spec fn str_intern_index(pool: Seq<StackVal>, name: Seq<char>) -> int
    decreases pool.len(),
{
    if pool.len() == 0 {
        0
    } else if pool[0] == StackVal::Str(name) {
        0
    } else {
        1 + str_intern_index(pool.drop_first(), name)
    }
}

proof fn lemma_intern_index_found(pool: Seq<StackVal>, v: StackVal, i: int)
    requires
        0 <= i < pool.len(),
        pool[i] == v,
        forall|j: int| 0 <= j < i ==> pool[j] != v,
    ensures
        intern_index(pool, v) == i,
    decreases pool.len(),
{
    if i > 0 {
        lemma_intern_index_found(pool.drop_first(), v, i - 1);
    }
}

proof fn lemma_intern_index_absent(pool: Seq<StackVal>, v: StackVal)
    requires
        forall|j: int| 0 <= j < pool.len() ==> pool[j] != v,
    ensures
        intern_index(pool, v) == pool.len(),
    decreases pool.len(),
{
    if pool.len() > 0 {
        lemma_intern_index_absent(pool.drop_first(), v);
    }
}

proof fn lemma_str_intern_index_found(pool: Seq<StackVal>, name: Seq<char>, i: int)
    requires
        0 <= i < pool.len(),
        pool[i] == StackVal::Str(name),
        forall|j: int| 0 <= j < i ==> pool[j] != StackVal::Str(name),
    ensures
        str_intern_index(pool, name) == i,
    decreases pool.len(),
{
    if i > 0 {
        lemma_str_intern_index_found(pool.drop_first(), name, i - 1);
    }
}

proof fn lemma_str_intern_index_absent(pool: Seq<StackVal>, name: Seq<char>)
    requires
        forall|j: int| 0 <= j < pool.len() ==> pool[j] != StackVal::Str(name),
    ensures
        str_intern_index(pool, name) == pool.len(),
    decreases pool.len(),
{
    if pool.len() > 0 {
        lemma_str_intern_index_absent(pool.drop_first(), name);
    }
}

/// Interning law: the index `visit_ldc` assigns always points at an
/// entry equal to the value, and interning a structurally equal value
/// again reuses exactly that index and leaves the pool unchanged — so
/// two equal constants always map to the same pool index.
pub proof fn lemma_interning(pool: Seq<StackVal>, v: StackVal)
    ensures
        intern_index(pool, v) < intern_pool(pool, v).len(),
        intern_pool(pool, v)[intern_index(pool, v)] == v,
        intern_pool(intern_pool(pool, v), v) == intern_pool(pool, v),
        intern_index(intern_pool(pool, v), v) == intern_index(pool, v),
    decreases pool.len(),
{
    lemma_intern_index_props(pool, v);
    let idx = intern_index(pool, v);
    if idx < pool.len() {
        lemma_intern_index_props(intern_pool(pool, v), v);
    } else {
        let pool2 = pool.push(v);
        lemma_intern_index_found(pool2, v, pool.len() as int);
    }
}

/// The interning index is in range, points at the value when it hits,
/// and nothing before it is equal to the value.
pub proof fn lemma_intern_index_props(pool: Seq<StackVal>, v: StackVal)
    ensures
        0 <= intern_index(pool, v) <= pool.len(),
        intern_index(pool, v) < pool.len() ==> pool[intern_index(pool, v)] == v,
        forall|j: int| 0 <= j < intern_index(pool, v) ==> pool[j] != v,
    decreases pool.len(),
{
    if pool.len() > 0 && pool[0] != v {
        lemma_intern_index_props(pool.drop_first(), v);
        let idx = intern_index(pool, v);
        if idx < pool.len() {
            assert(pool[idx] == pool.drop_first()[idx - 1]);
        }
        assert forall|j: int| 0 <= j < idx implies pool[j] != v by {
            if j > 0 {
                assert(pool[j] == pool.drop_first()[j - 1]);
            }
        }
    }
}

/// The builder for the code section.  It buffers instructions, interns
/// the constants they reference, and records label bindings.
pub struct InstructionBuilder {
    generated_constants: Vec<Stackable>,
    instrs: Vec<Emitted>,
    labels: Vec<u32>,
}

impl InstructionBuilder {
    /// The constants interned so far, in insertion order.
    pub closed spec fn pool(self) -> Seq<StackVal> {
        self.generated_constants.deep_view()
    }

    /// The buffered instructions, jumps still symbolic.
    pub closed spec fn raw_instrs(self) -> Seq<Emitted> {
        self.instrs@
    }

    /// The current label bindings, by label id.
    pub closed spec fn bindings(self) -> Seq<u32> {
        self.labels@
    }

    /// The instructions so far, with jumps resolved under the current
    /// label bindings.
    pub open spec fn code(self) -> Seq<Opcode> {
        resolve(self.raw_instrs(), self.bindings())
    }

    /// Counts stay within the u32 count fields of the wire format; every
    /// buffered jump refers to an allocated label; every interned
    /// constant is encodable.
    pub open spec fn wf(self) -> bool {
        &&& self.raw_instrs().len() <= u32::MAX
        &&& self.pool().len() <= u32::MAX
        &&& forall|k: int|
            0 <= k < self.raw_instrs().len() ==> (#[trigger] self.raw_instrs()[k] matches Emitted::GotoLabel(
                l,
            ) ==> l < self.bindings().len())
        &&& forall|k: int| 0 <= k < self.pool().len() ==> encodable_val(#[trigger] self.pool()[k])
    }

    /// Append one finished instruction.
    fn push_direct(&mut self, op: Opcode)
        requires
            old(self).wf(),
            old(self).code().len() < u32::MAX,
        ensures
            final(self).wf(),
            final(self).pool() == old(self).pool(),
            final(self).bindings() == old(self).bindings(),
            final(self).raw_instrs() == old(self).raw_instrs().push(Emitted::Direct(op)),
            final(self).code() == old(self).code().push(op),
    {
        self.instrs.push(Emitted::Direct(op));
        proof {
            assert(self.code() =~= old(self).code().push(op));
        }
    }

    /// Intern a constant and load it: reuse the index of an equal entry,
    /// or append a new one.
    pub fn visit_ldc(&mut self, stackable: Stackable)
        requires
            old(self).wf(),
            old(self).code().len() < u32::MAX,
            old(self).pool().len() < u32::MAX,
            encodable_val(stackable@),
        ensures
            final(self).wf(),
            final(self).bindings() == old(self).bindings(),
            final(self).pool() == intern_pool(old(self).pool(), stackable@),
            final(self).code() == old(self).code().push(
                Opcode::Ldc(intern_index(old(self).pool(), stackable@) as u32),
            ),
    {
        let (found, n) = self.find_constant(&stackable);
        let constant_index: u32 = match found {
            Some(i) => i as u32,
            None => {
                let ghost v = stackable@;
                self.generated_constants.push(stackable);
                proof {
                    assert(self.pool() =~= old(self).pool().push(v));
                }
                n as u32
            },
        };
        self.push_direct(Opcode::Ldc(constant_index));
    }

    /// Find the first entry equal to the value, or `None`, together with
    /// the pool's length.
    fn find_constant(&self, v: &Stackable) -> (r: (Option<usize>, usize))
        ensures
            r.1 == self.pool().len(),
            r.0 matches Some(i) ==> i == intern_index(self.pool(), v@) && i < self.pool().len(),
            r.0 is None ==> intern_index(self.pool(), v@) == self.pool().len(),
    {
        let n = self.generated_constants.len();
        let mut i: usize = 0;
        while i < n
            invariant
                n == self.generated_constants.len(),
                0 <= i <= n,
                forall|j: int| 0 <= j < i ==> self.pool()[j] != v@,
            decreases n - i,
        {
            if self.generated_constants[i] == *v {
                proof {
                    lemma_intern_index_found(self.pool(), v@, i as int);
                }
                return (Some(i), n);
            }
            i = i + 1;
        }
        proof {
            lemma_intern_index_absent(self.pool(), v@);
        }
        (None, n)
    }

    pub fn visit_dump(&mut self)
        requires
            old(self).wf(),
            old(self).code().len() < u32::MAX,
        ensures
            final(self).wf(),
            final(self).pool() == old(self).pool(),
            final(self).bindings() == old(self).bindings(),
            final(self).code() == old(self).code().push(Opcode::Dump),
    {
        self.push_direct(Opcode::Dump);
    }

    pub fn visit_add(&mut self)
        requires
            old(self).wf(),
            old(self).code().len() < u32::MAX,
        ensures
            final(self).wf(),
            final(self).pool() == old(self).pool(),
            final(self).bindings() == old(self).bindings(),
            final(self).code() == old(self).code().push(Opcode::Add),
    {
        self.push_direct(Opcode::Add);
    }

    pub fn visit_sub(&mut self)
        requires
            old(self).wf(),
            old(self).code().len() < u32::MAX,
        ensures
            final(self).wf(),
            final(self).pool() == old(self).pool(),
            final(self).bindings() == old(self).bindings(),
            final(self).code() == old(self).code().push(Opcode::Sub),
    {
        self.push_direct(Opcode::Sub);
    }

    pub fn visit_mul(&mut self)
        requires
            old(self).wf(),
            old(self).code().len() < u32::MAX,
        ensures
            final(self).wf(),
            final(self).pool() == old(self).pool(),
            final(self).bindings() == old(self).bindings(),
            final(self).code() == old(self).code().push(Opcode::Mul),
    {
        self.push_direct(Opcode::Mul);
    }

    pub fn visit_div(&mut self)
        requires
            old(self).wf(),
            old(self).code().len() < u32::MAX,
        ensures
            final(self).wf(),
            final(self).pool() == old(self).pool(),
            final(self).bindings() == old(self).bindings(),
            final(self).code() == old(self).code().push(Opcode::Div),
    {
        self.push_direct(Opcode::Div);
    }

    pub fn visit_mod(&mut self)
        requires
            old(self).wf(),
            old(self).code().len() < u32::MAX,
        ensures
            final(self).wf(),
            final(self).pool() == old(self).pool(),
            final(self).bindings() == old(self).bindings(),
            final(self).code() == old(self).code().push(Opcode::Mod),
    {
        self.push_direct(Opcode::Mod);
    }

    pub fn visit_dup(&mut self)
        requires
            old(self).wf(),
            old(self).code().len() < u32::MAX,
        ensures
            final(self).wf(),
            final(self).pool() == old(self).pool(),
            final(self).bindings() == old(self).bindings(),
            final(self).code() == old(self).code().push(Opcode::Dup),
    {
        self.push_direct(Opcode::Dup);
    }

    pub fn visit_swp(&mut self)
        requires
            old(self).wf(),
            old(self).code().len() < u32::MAX,
        ensures
            final(self).wf(),
            final(self).pool() == old(self).pool(),
            final(self).bindings() == old(self).bindings(),
            final(self).code() == old(self).code().push(Opcode::Swp),
    {
        self.push_direct(Opcode::Swp);
    }

    pub fn visit_store(&mut self, index: u16)
        requires
            old(self).wf(),
            old(self).code().len() < u32::MAX,
        ensures
            final(self).wf(),
            final(self).pool() == old(self).pool(),
            final(self).bindings() == old(self).bindings(),
            final(self).code() == old(self).code().push(Opcode::Store(index)),
    {
        self.push_direct(Opcode::Store(index));
    }

    pub fn visit_load(&mut self, index: u16)
        requires
            old(self).wf(),
            old(self).code().len() < u32::MAX,
        ensures
            final(self).wf(),
            final(self).pool() == old(self).pool(),
            final(self).bindings() == old(self).bindings(),
            final(self).code() == old(self).code().push(Opcode::Load(index)),
    {
        self.push_direct(Opcode::Load(index));
    }

    /// Allocate a fresh, unbound label (it resolves to 0 until bound).
    pub fn make_label(&mut self) -> (label: Label)
        requires
            old(self).wf(),
        ensures
            final(self).wf(),
            final(self).pool() == old(self).pool(),
            final(self).raw_instrs() == old(self).raw_instrs(),
            final(self).code() == old(self).code(),
            final(self).bindings() == old(self).bindings().push(0u32),
            label.id == old(self).bindings().len(),
    {
        let label = Label { id: self.labels.len() };
        self.labels.push(0);
        proof {
            assert forall|i: int| 0 <= i < self.instrs@.len() implies resolve_one(
                self.instrs@[i],
                self.labels@,
            ) == resolve_one(self.instrs@[i], old(self).labels@) by {
                match self.instrs@[i] {
                    Emitted::Direct(_) => {},
                    Emitted::GotoLabel(l) => {
                        if l == old(self).labels@.len() {
                            assert(self.labels@[l as int] == 0u32);
                        }
                    },
                }
            }
            assert(self.code() =~= old(self).code());
        }
        label
    }

    /// Bind a label to the current instruction index.
    pub fn visit_label(&mut self, label: Label)
        requires
            old(self).wf(),
            label.id < old(self).bindings().len(),
        ensures
            final(self).wf(),
            final(self).pool() == old(self).pool(),
            final(self).raw_instrs() == old(self).raw_instrs(),
            final(self).bindings() == old(self).bindings().update(
                label.id as int,
                old(self).code().len() as u32,
            ),
    {
        let pos = self.instrs.len() as u32;
        self.labels.set(label.id, pos);
    }

    /// Emit a jump to a label; the target is whatever the label is bound
    /// to when the section is closed.
    pub fn visit_goto(&mut self, label: Label)
        requires
            old(self).wf(),
            old(self).code().len() < u32::MAX,
            label.id < old(self).bindings().len(),
        ensures
            final(self).wf(),
            final(self).pool() == old(self).pool(),
            final(self).bindings() == old(self).bindings(),
            final(self).raw_instrs() == old(self).raw_instrs().push(Emitted::GotoLabel(label.id)),
            final(self).code() == old(self).code().push(
                Opcode::Goto(old(self).bindings()[label.id as int]),
            ),
    {
        self.instrs.push(Emitted::GotoLabel(label.id));
        proof {
            assert(self.code() =~= old(self).code().push(
                Opcode::Goto(old(self).bindings()[label.id as int]),
            ));
        }
    }

    /// Emit a jump to a fixed instruction index.
    fn visit_goto_labeled(&mut self, target: u32)
        requires
            old(self).wf(),
            old(self).code().len() < u32::MAX,
        ensures
            final(self).wf(),
            final(self).pool() == old(self).pool(),
            final(self).bindings() == old(self).bindings(),
            final(self).code() == old(self).code().push(Opcode::Goto(target)),
    {
        self.push_direct(Opcode::Goto(target));
    }

    pub fn visit_nop(&mut self)
        requires
            old(self).wf(),
            old(self).code().len() < u32::MAX,
        ensures
            final(self).wf(),
            final(self).pool() == old(self).pool(),
            final(self).bindings() == old(self).bindings(),
            final(self).code() == old(self).code().push(Opcode::Nop),
    {
        self.push_direct(Opcode::Nop);
    }

    /// Find the first string entry holding `name`, or `None`, together
    /// with the pool's length.
    fn find_string(&self, name: &str) -> (r: (Option<usize>, usize))
        ensures
            r.1 == self.pool().len(),
            r.0 matches Some(i) ==> i == str_intern_index(self.pool(), name@)
                && i < self.pool().len(),
            r.0 is None ==> str_intern_index(self.pool(), name@) == self.pool().len(),
    {
        let owned: String = name.to_owned();
        let n = self.generated_constants.len();
        let mut i: usize = 0;
        while i < n
            invariant
                n == self.generated_constants.len(),
                owned@ == name@,
                0 <= i <= n,
                forall|j: int| 0 <= j < i ==> self.pool()[j] != StackVal::Str(name@),
            decreases n - i,
        {
            let hit = match &self.generated_constants[i] {
                Stackable::String(s) => *s == owned,
                _ => false,
            };
            if hit {
                proof {
                    lemma_str_intern_index_found(self.pool(), name@, i as int);
                }
                return (Some(i), n);
            }
            i = i + 1;
        }
        proof {
            lemma_str_intern_index_absent(self.pool(), name@);
        }
        (None, n)
    }

    /// Register a function: intern its name and emit `Func`; the body is
    /// expected to follow, closed by a `Return`.
    pub fn visit_func(&mut self, function_name: &str, parameter_size: u8)
        requires
            old(self).wf(),
            old(self).code().len() < u32::MAX,
            old(self).pool().len() < u32::MAX,
        ensures
            final(self).wf(),
            final(self).bindings() == old(self).bindings(),
            final(self).pool() == if str_intern_index(old(self).pool(), function_name@) < old(
                self,
            ).pool().len() {
                old(self).pool()
            } else {
                old(self).pool().push(StackVal::Str(function_name@))
            },
            final(self).code() == old(self).code().push(
                Opcode::Func(
                    str_intern_index(old(self).pool(), function_name@) as u32,
                    parameter_size,
                ),
            ),
    {
        let (found, n) = self.find_string(function_name);
        let index: u32 = match found {
            Some(i) => i as u32,
            None => {
                let owned: String = function_name.to_owned();
                self.note_string_encodable(&owned);
                let ghost v = StackVal::Str(owned@);
                self.generated_constants.push(Stackable::String(owned));
                proof {
                    assert(self.pool() =~= old(self).pool().push(v));
                }
                n as u32
            },
        };
        self.push_direct(Opcode::Func(index, parameter_size));
    }

    /// Emit a call to an already-declared function; a name with no string
    /// entry in the pool is refused, and nothing changes.
    pub fn visit_invoke(&mut self, function_name: &str, parameter_size: u8) -> (r: Result<
        (),
        EmitError,
    >)
        requires
            old(self).wf(),
            old(self).code().len() < u32::MAX,
        ensures
            final(self).wf(),
            final(self).bindings() == old(self).bindings(),
            final(self).pool() == old(self).pool(),
            r is Ok <==> str_intern_index(old(self).pool(), function_name@) < old(
                self,
            ).pool().len(),
            r is Ok ==> final(self).code() == old(self).code().push(
                Opcode::Invoke(
                    str_intern_index(old(self).pool(), function_name@) as u32,
                    parameter_size,
                ),
            ),
            r matches Err(e) ==> final(self).code() == old(self).code() && (e matches
                EmitError::UndeclaredFunction(s) && s@ == function_name@),
    {
        let (found, _n) = self.find_string(function_name);
        match found {
            Some(i) => {
                self.push_direct(Opcode::Invoke(i as u32, parameter_size));
                Ok(())
            },
            None => Err(EmitError::UndeclaredFunction(function_name.to_owned())),
        }
    }

    /// Learn that a real string is encodable: its UTF-8 length is a
    /// machine word.
    fn note_string_encodable(&self, s: &String)
        ensures
            encodable_val(StackVal::Str(s@)),
    {
        let bytes = s.as_str().as_bytes();
        let n = bytes.len();
        proof {
            assert(encode_utf8(s@).len() == n);
        }
    }

    /// Emit one instruction given as an `Opcode`.  `Ldc`, `Func` and
    /// `Invoke` carry interned indices, so they go through their own
    /// visit methods instead.
    pub fn visit_opcode(&mut self, opcode: Opcode)
        requires
            old(self).wf(),
            old(self).code().len() < u32::MAX,
            !(opcode is Ldc),
            !(opcode is Func),
            !(opcode is Invoke),
        ensures
            final(self).wf(),
            final(self).pool() == old(self).pool(),
            final(self).bindings() == old(self).bindings(),
            final(self).code() == old(self).code().push(opcode),
    {
        match opcode {
            Opcode::Ldc(_) => (),
            Opcode::Dump => self.visit_dump(),
            Opcode::Add => self.visit_add(),
            Opcode::Sub => self.visit_sub(),
            Opcode::Mul => self.visit_mul(),
            Opcode::Div => self.visit_div(),
            Opcode::Mod => self.visit_mod(),
            Opcode::Dup => self.visit_dup(),
            Opcode::Swp => self.visit_swp(),
            Opcode::Store(index) => self.visit_store(index),
            Opcode::Load(index) => self.visit_load(index),
            Opcode::Goto(index) => self.visit_goto_labeled(index),
            Opcode::Nop => self.visit_nop(),
            Opcode::Func(_, _) => (),
            Opcode::Return => self.visit_return(),
            Opcode::Invoke(_, _) => (),
        }
    }

    pub fn visit_return(&mut self)
        requires
            old(self).wf(),
            old(self).code().len() < u32::MAX,
        ensures
            final(self).wf(),
            final(self).pool() == old(self).pool(),
            final(self).bindings() == old(self).bindings(),
            final(self).code() == old(self).code().push(Opcode::Return),
    {
        self.push_direct(Opcode::Return);
    }

    /// Close the section: write the constant pool (count, then entries in
    /// insertion order), the instruction count, and the instructions with
    /// every jump resolved to its label's final binding.
    pub fn visit_end(self, parent: &mut BytecodeBuilder)
        requires
            self.wf(),
        ensures
            final(parent)@ == old(parent)@ + const_section(self.pool()) + code_section(self.code()),
    {
        let InstructionBuilder { generated_constants, instrs, labels } = self;
        let ghost pool = generated_constants.deep_view();
        let ghost code = resolve(instrs@, labels@);

        // Emit constants.
        let mut constant_builder = parent.visit_constant_pool();
        let cn = generated_constants.len();
        let mut i: usize = 0;
        while i < cn
            invariant
                cn == generated_constants.len(),
                pool == generated_constants.deep_view(),
                0 <= i <= cn,
                pool.len() <= u32::MAX,
                forall|k: int| 0 <= k < pool.len() ==> encodable_val(#[trigger] pool[k]),
                constant_builder.wf(),
                constant_builder@ == pool.take(i as int),
            decreases cn - i,
        {
            constant_builder.visit_constant(&generated_constants[i]);
            proof {
                assert(pool.take(i + 1) =~= pool.take(i as int).push(pool[i as int]));
            }
            i = i + 1;
        }
        proof {
            assert(pool.take(cn as int) =~= pool);
        }
        constant_builder.visit_end(parent);

        // Resolve jumps and push the instructions.
        let ghost mid = parent@;
        let count = instrs.len() as u32;
        push_u32(&mut parent.byte_pool, count);
        let n = instrs.len();
        let mut j: usize = 0;
        while j < n
            invariant
                n == instrs.len(),
                code == resolve(instrs@, labels@),
                code.len() == n,
                0 <= j <= n,
                forall|k: int|
                    0 <= k < n ==> (#[trigger] instrs@[k] matches Emitted::GotoLabel(l) ==> l
                        < labels@.len()),
                parent@ == mid + u32_be((n as u32)) + code_bytes(code.take(j as int)),
            decreases n - j,
        {
            let op: Opcode = match &instrs[j] {
                Emitted::Direct(o) => *o,
                Emitted::GotoLabel(l) => Opcode::Goto(labels[*l]),
            };
            proof {
                assert(op == code[j as int]);
                lemma_code_bytes_snoc(code.take(j as int), op);
                assert(code.take(j + 1) =~= code.take(j as int).push(op));
            }
            push_instr(&mut parent.byte_pool, &op);
            j = j + 1;
        }
        proof {
            assert(code.take(n as int) =~= code);
            assert(parent@ =~= old(parent)@ + const_section(pool) + code_section(code));
        }
    }
}

/// A build-time handle for a jump target: the label's slot in the
/// builder that made it.
#[derive(Clone, Copy, Debug)]
pub struct Label {
    pub id: usize,
}

/// Append the wire encoding of one instruction.
fn push_instr(buf: &mut Vec<u8>, op: &Opcode)
    ensures
        final(buf)@ == old(buf)@ + instr_bytes(*op),
{
    match op {
        Opcode::Ldc(i) => {
            buf.push(0x00);
            push_u32(buf, *i);
        },
        Opcode::Dump => buf.push(0x01),
        Opcode::Add => buf.push(0x02),
        Opcode::Sub => buf.push(0x03),
        Opcode::Mul => buf.push(0x04),
        Opcode::Div => buf.push(0x05),
        Opcode::Mod => buf.push(0x06),
        Opcode::Dup => buf.push(0x07),
        Opcode::Swp => buf.push(0x08),
        Opcode::Store(k) => {
            buf.push(0x09);
            push_u16(buf, *k);
        },
        Opcode::Load(k) => {
            buf.push(0x0a);
            push_u16(buf, *k);
        },
        Opcode::Goto(t) => {
            buf.push(0x0b);
            push_u32(buf, *t);
        },
        Opcode::Nop => buf.push(0x0c),
        Opcode::Func(nm, p) => {
            buf.push(0x0d);
            push_u32(buf, *nm);
            buf.push(*p);
        },
        Opcode::Return => buf.push(0x0e),
        Opcode::Invoke(nm, p) => {
            buf.push(0x0f);
            push_u32(buf, *nm);
            buf.push(*p);
        },
    }
    proof {
        assert(buf@ =~= old(buf)@ + instr_bytes(*op));
    }
}

} // verus!
