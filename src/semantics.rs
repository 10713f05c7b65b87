//! The machine as values, and what one instruction does to it.
use vstd::prelude::*;
use crate::hash::{fnv1a_32, fnv1a_64};
use crate::heap::{alloc_step, entry_at, is_live, HeapModel, MAX_ARRAY_LEN};
use crate::loader::{byte_strings, InstrView};
use crate::numbers::{decimal, parse_i32, parse_signed, parse_unsigned, signed_decimal};
use crate::opcodes::{
    OP_AND, OP_ARRAY_GET, OP_ARRAY_LEN, OP_ARRAY_SET, OP_CALL, OP_CALL_DYNAMIC, OP_CALL_METHOD, OP_CAST, OP_CLONE, OP_END_CLASS, OP_FIELD, OP_FREE, OP_F_ADD, OP_F_DEC, OP_F_DIV, OP_F_EQ, OP_F_GT, OP_F_GTE, OP_F_INC, OP_F_LT, OP_F_LTE, OP_F_MOD, OP_F_MUL, OP_F_NEQ, OP_F_SUB, OP_HALT, OP_INPUT, OP_I_ADD, OP_I_DEC, OP_I_DIV, OP_I_EQ, OP_I_GT, OP_I_GTE, OP_I_INC, OP_I_LT, OP_I_LTE, OP_I_MOD, OP_I_MUL, OP_I_NEQ, OP_I_SUB, OP_JUMP, OP_JUMP_IF_FALSE, OP_JUMP_IF_NULL, OP_JUMP_IF_TRUE, OP_LABEL, OP_LOAD_FIELD, OP_LOAD_THIS, OP_LOAD_VAR, OP_METHOD, OP_NEW, OP_NEW_ARRAY, OP_NOT, OP_OR, OP_PRINT, OP_PUSH_CONST, OP_RET, OP_SET_FIELD, OP_SLEEP, OP_STORE_VAR, OP_STR_ADD, OP_STR_BYTES, OP_STR_EQ, OP_STR_GET, OP_STR_LEN, OP_STR_LOWER, OP_STR_NEQ, OP_STR_SET, OP_STR_UPPER, OP_U_ADD, OP_U_DEC, OP_U_DIV, OP_U_EQ, OP_U_GT, OP_U_GTE, OP_U_INC, OP_U_LT, OP_U_LTE, OP_U_MOD, OP_U_MUL, OP_U_NEQ, OP_U_SUB, TAG_CHAR, TAG_FLOAT, TAG_INT, TAG_LAMBDA, TAG_REF, TAG_STR, TAG_UNT,
};
use crate::text::{lower_ascii, trim, upper_ascii, QUOTE};

verus! {

/// Why execution stops with a fatal error.
#[derive(Debug, Clone, Copy, PartialEq, Eq, Structural)]
pub enum VmErrorKind {
    /// An instruction with the wrong number of arguments.
    Arity,
    /// An opcode outside the catalogue, or a class-block line reached by execution.
    UnknownInstruction,
    /// A type tag that the opcode does not take.
    UnknownType,
    /// A literal that does not parse as the tag says.
    BadLiteral,
    /// A cast between types that have no conversion.
    BadCast,
    UndefinedLabel,
    UndefinedClass,
    UndefinedVariable,
    UndefinedField,
    UndefinedMethod,
    /// A class block that is not closed by `end_class`, or holds another opcode.
    BadClassBlock,
    /// An ID that names no live heap entry.
    DanglingRef,
    /// A heap entry of another kind than the opcode needs.
    WrongKind,
    OutOfBounds,
    ArrayTooLong,
    /// `str_set` with a value above 255.
    ByteTooLarge,
    DivisionByZero,
    /// Signed division or remainder of the minimum by -1.
    Overflow,
    StackUnderflow,
    /// `ret` with no call to return from.
    EmptyCallStack,
    /// `load_this` outside a method.
    NoThis,
    /// No ID is left for an allocation.
    HeapExhausted,
    /// The program has no `main` label.
    NoMain,
}

/// The float operations that the engine hands out: the slots are IEEE-754
/// doubles, computed by the host.
#[derive(Debug, Clone, Copy, PartialEq, Eq, Structural)]
pub enum FloatOp {
    Inc,
    Dec,
    Add,
    Sub,
    Mul,
    Div,
    Rem,
    Eq,
    Neq,
    Lt,
    Gt,
    Lte,
    Gte,
    FromUnt,
    FromInt,
    ToInt,
    ToUnt,
}

/// What the host does after a step. After `Float` and `ParseFloat` it pushes
/// the result slot; after `Input` it reads a line and hands it back.
#[derive(Debug, Clone)]
pub enum Effect {
    Continue,
    /// Write one line.
    Print(Vec<u8>),
    /// Write one line: the double whose bits are given.
    PrintFloat(u64),
    /// Compute `a op b` on doubles (`a` alone for unary and cast operations).
    Float { op: FloatOp, a: u64, b: u64 },
    /// Parse a float literal and push its bits.
    ParseFloat(Vec<u8>),
    /// Read a line of the given type tag.
    Input(u32),
    /// Wait for this many milliseconds.
    Sleep(u64),
    /// Stop with this exit status.
    Halt(i32),
}

pub enum EffectModel {
    Continue,
    Print(Seq<u8>),
    PrintFloat(u64),
    Float(FloatOp, u64, u64),
    ParseFloat(Seq<u8>),
    Input(u32),
    Sleep(u64),
    Halt(i32),
}

impl View for Effect {
    type V = EffectModel;

    open spec fn view(&self) -> EffectModel {
        match self {
            Effect::Continue => EffectModel::Continue,
            Effect::Print(b) => EffectModel::Print(b@),
            Effect::PrintFloat(v) => EffectModel::PrintFloat(*v),
            Effect::Float { op, a, b } => EffectModel::Float(*op, *a, *b),
            Effect::ParseFloat(b) => EffectModel::ParseFloat(b@),
            Effect::Input(t) => EffectModel::Input(*t),
            Effect::Sleep(ms) => EffectModel::Sleep(*ms),
            Effect::Halt(c) => EffectModel::Halt(*c),
        }
    }
}

/// A class as loaded: its name, the hash that tags its objects, its fields in
/// slot order, and its methods with their labels.
#[derive(Debug, Clone)]
pub struct ClassInfo {
    pub class: Vec<u8>,
    pub hash: u64,
    pub fields: Vec<Vec<u8>>,
    pub methods: Vec<(Vec<u8>, Vec<u8>)>,
}

pub struct ClassModel {
    pub class: Seq<u8>,
    pub hash: u64,
    pub fields: Seq<Seq<u8>>,
    pub methods: Seq<(Seq<u8>, Seq<u8>)>,
}

impl View for ClassInfo {
    type V = ClassModel;

    open spec fn view(&self) -> ClassModel {
        ClassModel {
            class: self.class@,
            hash: self.hash,
            fields: byte_strings(self.fields@),
            methods: methods_view(self.methods@),
        }
    }
}

/// Method names with their labels, as values.
pub open spec fn methods_view(ms: Seq<(Vec<u8>, Vec<u8>)>) -> Seq<(Seq<u8>, Seq<u8>)> {
    ms.map_values(|e: (Vec<u8>, Vec<u8>)| (e.0@, e.1@))
}

/// The parts of a loaded program that execution reads and never changes.
pub struct ProgramModel {
    pub ins: Seq<InstrView>,
    pub labels: Seq<(Seq<u8>, int)>,
    pub class_positions: Seq<(Seq<u8>, int)>,
}

/// The machine's changing state: operand stack, frames of locals, return
/// addresses, heap, loaded classes, the current object and the next
/// instruction.
pub struct VmModel {
    pub stack: Seq<u64>,
    pub frames: Seq<Seq<(Seq<u8>, u64)>>,
    pub calls: Seq<(int, Option<u64>)>,
    pub heap: Seq<Option<HeapModel>>,
    pub classes: Seq<ClassModel>,
    pub this: Option<u64>,
    pub ip: int,
}

pub type StepResult = Result<(VmModel, EffectModel), VmErrorKind>;

pub open spec fn bool_slot(c: bool) -> u64 {
    if c {
        1
    } else {
        0
    }
}

/// Slot `k` from the top (0 is the top).
pub open spec fn top(s: Seq<u64>, k: int) -> u64 {
    s[s.len() - 1 - k]
}

/// The stack without its top `k` slots.
pub open spec fn pop_n(s: Seq<u64>, k: int) -> Seq<u64> {
    s.subrange(0, s.len() - k)
}

/// Position of the first key equal to `name`.
pub open spec fn first_pos(keys: Seq<Seq<u8>>, name: Seq<u8>) -> Option<int>
    decreases keys.len(),
{
    if keys.len() == 0 {
        None
    } else {
        match first_pos(keys.drop_last(), name) {
            Some(i) => Some(i),
            None => if keys.last() == name {
                Some(keys.len() - 1)
            } else {
                None
            },
        }
    }
}

/// Position of the first hash equal to `h`.
pub open spec fn first_hash_pos(hashes: Seq<u64>, h: u64) -> Option<int>
    decreases hashes.len(),
{
    if hashes.len() == 0 {
        None
    } else {
        match first_hash_pos(hashes.drop_last(), h) {
            Some(i) => Some(i),
            None => if hashes.last() == h {
                Some(hashes.len() - 1)
            } else {
                None
            },
        }
    }
}

pub proof fn lemma_first_pos(keys: Seq<Seq<u8>>, name: Seq<u8>, j: int)
    requires
        0 <= j <= keys.len(),
        forall|k: int| 0 <= k < j ==> keys[k] != name,
        j < keys.len() ==> keys[j] == name,
    ensures
        first_pos(keys, name) == (if j < keys.len() {
            Some(j)
        } else {
            None::<int>
        }),
    decreases keys.len(),
{
    if keys.len() > 0 {
        if j < keys.len() - 1 {
            lemma_first_pos(keys.drop_last(), name, j);
        } else {
            lemma_first_pos(keys.drop_last(), name, keys.len() - 1);
        }
    }
}

pub proof fn lemma_first_hash_pos(hashes: Seq<u64>, h: u64, j: int)
    requires
        0 <= j <= hashes.len(),
        forall|k: int| 0 <= k < j ==> hashes[k] != h,
        j < hashes.len() ==> hashes[j] == h,
    ensures
        first_hash_pos(hashes, h) == (if j < hashes.len() {
            Some(j)
        } else {
            None::<int>
        }),
    decreases hashes.len(),
{
    if hashes.len() > 0 {
        if j < hashes.len() - 1 {
            lemma_first_hash_pos(hashes.drop_last(), h, j);
        } else {
            lemma_first_hash_pos(hashes.drop_last(), h, hashes.len() - 1);
        }
    }
}

/// The index recorded for a name: that of the first entry with that name.
pub open spec fn lookup_index(t: Seq<(Seq<u8>, int)>, name: Seq<u8>) -> Option<int> {
    match first_pos(t.map_values(|e: (Seq<u8>, int)| e.0), name) {
        Some(i) => Some(t[i].1),
        None => None,
    }
}

/// Position of the first local named `name` in a frame.
pub open spec fn var_pos(f: Seq<(Seq<u8>, u64)>, name: Seq<u8>) -> Option<int> {
    first_pos(f.map_values(|e: (Seq<u8>, u64)| e.0), name)
}

/// Position of the first field named `name`.
pub open spec fn field_pos(fields: Seq<Seq<u8>>, name: Seq<u8>) -> Option<int> {
    first_pos(fields, name)
}

/// The label of the first method named `name`.
pub open spec fn method_label(methods: Seq<(Seq<u8>, Seq<u8>)>, name: Seq<u8>) -> Option<Seq<u8>> {
    match first_pos(methods.map_values(|e: (Seq<u8>, Seq<u8>)| e.0), name) {
        Some(i) => Some(methods[i].1),
        None => None,
    }
}

/// Position of the first loaded class with the given name.
pub open spec fn class_by_name(classes: Seq<ClassModel>, name: Seq<u8>) -> Option<int> {
    first_pos(classes.map_values(|c: ClassModel| c.class), name)
}

/// Position of the first loaded class with the given hash.
pub open spec fn class_by_hash(classes: Seq<ClassModel>, h: u64) -> Option<int> {
    first_hash_pos(classes.map_values(|c: ClassModel| c.hash), h)
}

/// The rest of a class block from instruction `i`: `field <name>` and
/// `method <name> <label>` lines up to `end_class`; anything else, or the end
/// of the program, leaves the block open (`None`).
pub open spec fn class_block_from(
    ins: Seq<InstrView>,
    i: int,
    fields: Seq<Seq<u8>>,
    methods: Seq<(Seq<u8>, Seq<u8>)>,
) -> Option<(Seq<Seq<u8>>, Seq<(Seq<u8>, Seq<u8>)>)>
    decreases ins.len() - i,
{
    if i < 0 || i >= ins.len() {
        None
    } else if ins[i].op == OP_END_CLASS {
        Some((fields, methods))
    } else if ins[i].op == OP_FIELD && ins[i].args.len() == 1 {
        class_block_from(ins, i + 1, fields.push(ins[i].args[0]), methods)
    } else if ins[i].op == OP_METHOD && ins[i].args.len() == 2 {
        class_block_from(ins, i + 1, fields, methods.push((ins[i].args[0], ins[i].args[1])))
    } else {
        None
    }
}

/// The class declared at `pos`: fields named on the declaration line come
/// first, then those of the block.
pub open spec fn class_at(ins: Seq<InstrView>, pos: int, name: Seq<u8>) -> Option<ClassModel> {
    if 0 <= pos < ins.len() && ins[pos].args.len() >= 1 {
        match class_block_from(ins, pos + 1, ins[pos].args.drop_first(), Seq::empty()) {
            Some((f, m)) => Some(ClassModel { class: name, hash: fnv1a_64(name), fields: f, methods: m }),
            None => None,
        }
    } else {
        None
    }
}

/// The loaded classes after making sure `name` is among them, with its position.
pub open spec fn ensure_class(p: ProgramModel, classes: Seq<ClassModel>, name: Seq<u8>) -> Result<
    (Seq<ClassModel>, int),
    VmErrorKind,
> {
    match class_by_name(classes, name) {
        Some(i) => Ok((classes, i)),
        None => match lookup_index(p.class_positions, name) {
            None => Err(VmErrorKind::UndefinedClass),
            Some(pos) => match class_at(p.ins, pos, name) {
                None => Err(VmErrorKind::BadClassBlock),
                Some(c) => Ok((classes.push(c), classes.len() as int)),
            },
        },
    }
}

/// Operations on integer and boolean slots: how many they pop.
pub open spec fn pure_arity(op: u32) -> int {
    if op == OP_U_INC || op == OP_U_DEC || op == OP_I_INC || op == OP_I_DEC || op == OP_NOT {
        1
    } else if op == OP_U_ADD || op == OP_U_SUB || op == OP_U_MUL || op == OP_U_DIV || op == OP_U_MOD
        || op == OP_I_ADD || op == OP_I_SUB || op == OP_I_MUL || op == OP_I_DIV || op == OP_I_MOD
        || op == OP_U_EQ || op == OP_U_NEQ || op == OP_U_LT || op == OP_U_GT || op == OP_U_LTE
        || op == OP_U_GTE || op == OP_I_EQ || op == OP_I_NEQ || op == OP_I_LT || op == OP_I_GT
        || op == OP_I_LTE || op == OP_I_GTE || op == OP_AND || op == OP_OR {
        2
    } else {
        0
    }
}

/// The result of an integer or boolean operation on `a` and `b` (`a` alone
/// for the unary ones). Unsigned operations wrap; signed ones read the slots
/// as two's complement and wrap; comparisons give 1 or 0.
pub open spec fn pure_apply(op: u32, a: u64, b: u64) -> Result<u64, VmErrorKind> {
    let ia = a as i64;
    let ib = b as i64;
    if op == OP_U_INC {
        Ok(vstd::wrapping::u64_specs::wrapping_add(a, 1))
    } else if op == OP_U_DEC {
        Ok(vstd::wrapping::u64_specs::wrapping_sub(a, 1))
    } else if op == OP_I_INC {
        Ok(vstd::wrapping::i64_specs::wrapping_add(ia, 1) as u64)
    } else if op == OP_I_DEC {
        Ok(vstd::wrapping::i64_specs::wrapping_sub(ia, 1) as u64)
    } else if op == OP_NOT {
        Ok(bool_slot(a != 1))
    } else if op == OP_U_ADD {
        Ok(vstd::wrapping::u64_specs::wrapping_add(a, b))
    } else if op == OP_U_SUB {
        Ok(vstd::wrapping::u64_specs::wrapping_sub(a, b))
    } else if op == OP_U_MUL {
        Ok(vstd::wrapping::u64_specs::wrapping_mul(a, b))
    } else if op == OP_U_DIV {
        if b == 0 {
            Err(VmErrorKind::DivisionByZero)
        } else {
            Ok((a / b) as u64)
        }
    } else if op == OP_U_MOD {
        if b == 0 {
            Err(VmErrorKind::DivisionByZero)
        } else {
            Ok((a % b) as u64)
        }
    } else if op == OP_I_ADD {
        Ok(vstd::wrapping::i64_specs::wrapping_add(ia, ib) as u64)
    } else if op == OP_I_SUB {
        Ok(vstd::wrapping::i64_specs::wrapping_sub(ia, ib) as u64)
    } else if op == OP_I_MUL {
        Ok(vstd::wrapping::i64_specs::wrapping_mul(ia, ib) as u64)
    } else if op == OP_I_DIV {
        if ib == 0 {
            Err(VmErrorKind::DivisionByZero)
        } else {
            match ia.checked_div(ib) {
                Some(q) => Ok(q as u64),
                None => Err(VmErrorKind::Overflow),
            }
        }
    } else if op == OP_I_MOD {
        if ib == 0 {
            Err(VmErrorKind::DivisionByZero)
        } else {
            match ia.checked_rem(ib) {
                Some(q) => Ok(q as u64),
                None => Err(VmErrorKind::Overflow),
            }
        }
    } else if op == OP_U_EQ {
        Ok(bool_slot(a == b))
    } else if op == OP_U_NEQ {
        Ok(bool_slot(a != b))
    } else if op == OP_U_LT {
        Ok(bool_slot(a < b))
    } else if op == OP_U_GT {
        Ok(bool_slot(a > b))
    } else if op == OP_U_LTE {
        Ok(bool_slot(a <= b))
    } else if op == OP_U_GTE {
        Ok(bool_slot(a >= b))
    } else if op == OP_I_EQ {
        Ok(bool_slot(ia == ib))
    } else if op == OP_I_NEQ {
        Ok(bool_slot(ia != ib))
    } else if op == OP_I_LT {
        Ok(bool_slot(ia < ib))
    } else if op == OP_I_GT {
        Ok(bool_slot(ia > ib))
    } else if op == OP_I_LTE {
        Ok(bool_slot(ia <= ib))
    } else if op == OP_I_GTE {
        Ok(bool_slot(ia >= ib))
    } else if op == OP_AND {
        Ok(bool_slot(a == 1 && b == 1))
    } else {
        Ok(bool_slot(a == 1 || b == 1))
    }
}

/// The float operation of an opcode, with how many slots it pops.
pub open spec fn float_op(op: u32) -> Option<(FloatOp, int)> {
    if op == OP_F_INC {
        Some((FloatOp::Inc, 1))
    } else if op == OP_F_DEC {
        Some((FloatOp::Dec, 1))
    } else if op == OP_F_ADD {
        Some((FloatOp::Add, 2))
    } else if op == OP_F_SUB {
        Some((FloatOp::Sub, 2))
    } else if op == OP_F_MUL {
        Some((FloatOp::Mul, 2))
    } else if op == OP_F_DIV {
        Some((FloatOp::Div, 2))
    } else if op == OP_F_MOD {
        Some((FloatOp::Rem, 2))
    } else if op == OP_F_EQ {
        Some((FloatOp::Eq, 2))
    } else if op == OP_F_NEQ {
        Some((FloatOp::Neq, 2))
    } else if op == OP_F_LT {
        Some((FloatOp::Lt, 2))
    } else if op == OP_F_GT {
        Some((FloatOp::Gt, 2))
    } else if op == OP_F_LTE {
        Some((FloatOp::Lte, 2))
    } else if op == OP_F_GTE {
        Some((FloatOp::Gte, 2))
    } else {
        None
    }
}

/// The bytes of a string entry.
pub open spec fn string_at(h: Seq<Option<HeapModel>>, id: u64) -> Result<Seq<u8>, VmErrorKind> {
    if !is_live(h, id) {
        Err(VmErrorKind::DanglingRef)
    } else {
        match entry_at(h, id) {
            HeapModel::Str(b) => Ok(b),
            _ => Err(VmErrorKind::WrongKind),
        }
    }
}

/// The elements of an array entry.
pub open spec fn array_at(h: Seq<Option<HeapModel>>, id: u64) -> Result<Seq<u64>, VmErrorKind> {
    if !is_live(h, id) {
        Err(VmErrorKind::DanglingRef)
    } else {
        match entry_at(h, id) {
            HeapModel::Array(a) => Ok(a),
            _ => Err(VmErrorKind::WrongKind),
        }
    }
}

/// The class hash and field slots of an object entry.
pub open spec fn object_at(h: Seq<Option<HeapModel>>, id: u64) -> Result<(u64, Seq<u64>), VmErrorKind> {
    if !is_live(h, id) {
        Err(VmErrorKind::DanglingRef)
    } else {
        match entry_at(h, id) {
            HeapModel::Object(c, f) => Ok((c, f)),
            _ => Err(VmErrorKind::WrongKind),
        }
    }
}

/// Stores a new entry and pushes its ID; fails when no ID is left.
pub open spec fn push_new(m: VmModel, v: HeapModel) -> StepResult {
    if m.heap.len() + 1 >= u64::MAX {
        Err(VmErrorKind::HeapExhausted)
    } else {
        let (h, id) = alloc_step(m.heap, v);
        Ok((VmModel { heap: h, stack: m.stack.push(id), ..m }, EffectModel::Continue))
    }
}

pub open spec fn continue_with(m: VmModel) -> StepResult {
    Ok((m, EffectModel::Continue))
}

/// The payload of a `str` literal: without its surrounding quotes, if it has both.
pub open spec fn unquote(s: Seq<u8>) -> Seq<u8> {
    if s.len() >= 2 && s[0] == QUOTE && s.last() == QUOTE {
        s.subrange(1, s.len() - 1)
    } else {
        s
    }
}

/// `ip` for a transfer to the label at index `idx`: the instruction after it.
pub open spec fn after(idx: int) -> int {
    idx + 1
}

/// A call: the return address with the caller's current object, and a
/// fresh frame, pushed; control to `target`.
pub open spec fn enter(m: VmModel, target: int) -> VmModel {
    VmModel {
        calls: m.calls.push((m.ip, m.this)),
        frames: m.frames.push(Seq::empty()),
        ip: target,
        ..m
    }
}

/// The bytes of one byte value printed as a character: U+0000 to U+00FF in UTF-8.
pub open spec fn char_bytes(b: u8) -> Seq<u8> {
    if b < 128 {
        seq![b]
    } else {
        seq![(0xc0 + b / 64) as u8, (0x80 + b % 64) as u8]
    }
}

/// Decimal numbers separated by `, `.
pub open spec fn join_decimals(s: Seq<u64>) -> Seq<u8>
    decreases s.len(),
{
    if s.len() == 0 {
        Seq::empty()
    } else if s.len() == 1 {
        decimal(s[0] as nat)
    } else {
        join_decimals(s.drop_last()) + seq![44u8, 32u8] + decimal(s.last() as nat)
    }
}

/// `f0: v0, f1: v1, ...` for the field slots.
pub open spec fn join_fields(s: Seq<u64>) -> Seq<u8>
    decreases s.len(),
{
    if s.len() == 0 {
        Seq::empty()
    } else {
        let item = seq![102u8] + decimal((s.len() - 1) as nat) + seq![58u8, 32u8] + decimal(
            s.last() as nat,
        );
        if s.len() == 1 {
            item
        } else {
            join_fields(s.drop_last()) + seq![44u8, 32u8] + item
        }
    }
}

/// The text that `print ref` writes for a heap entry: a number in decimal, a
/// string's bytes, `[e0, e1, ...]` for an array, `Name { f0: v, ... }` for an
/// object.
pub open spec fn entry_text(classes: Seq<ClassModel>, e: HeapModel) -> Result<Seq<u8>, VmErrorKind> {
    match e {
        HeapModel::Num(v) => Ok(decimal(v as nat)),
        HeapModel::Str(b) => Ok(b),
        HeapModel::Array(a) => Ok(seq![91u8] + join_decimals(a) + seq![93u8]),
        HeapModel::Object(c, f) => match class_by_hash(classes, c) {
            None => Err(VmErrorKind::UndefinedClass),
            Some(i) => Ok(
                classes[i].class + seq![32u8, 123u8, 32u8] + join_fields(f) + seq![32u8, 125u8],
            ),
        },
    }
}

/// `push_const <tag> <literal>`.
pub open spec fn push_const_step(p: ProgramModel, m: VmModel, args: Seq<Seq<u8>>) -> StepResult {
    if args.len() != 2 {
        Err(VmErrorKind::Arity)
    } else {
        let tag = fnv1a_32(args[0]);
        let lit = args[1];
        if tag == TAG_UNT {
            match parse_unsigned(lit) {
                Some(v) => continue_with(VmModel { stack: m.stack.push(v), ..m }),
                None => Err(VmErrorKind::BadLiteral),
            }
        } else if tag == TAG_INT {
            match parse_signed(lit) {
                Some(v) => continue_with(VmModel { stack: m.stack.push(v as u64), ..m }),
                None => Err(VmErrorKind::BadLiteral),
            }
        } else if tag == TAG_FLOAT {
            Ok((m, EffectModel::ParseFloat(lit)))
        } else if tag == TAG_STR {
            push_new(m, HeapModel::Str(unquote(lit)))
        } else if tag == TAG_LAMBDA {
            match lookup_index(p.labels, lit) {
                Some(i) => continue_with(VmModel { stack: m.stack.push(i as u64), ..m }),
                None => Err(VmErrorKind::UndefinedLabel),
            }
        } else {
            Err(VmErrorKind::UnknownType)
        }
    }
}

/// The string operations.
pub open spec fn string_step(m: VmModel, op: u32) -> StepResult {
    let s = m.stack;
    if op == OP_STR_ADD || op == OP_STR_EQ || op == OP_STR_NEQ {
        if s.len() < 2 {
            Err(VmErrorKind::StackUnderflow)
        } else {
            let b = top(s, 0);
            let a = top(s, 1);
            let n = VmModel { stack: pop_n(s, 2), ..m };
            match string_at(m.heap, b) {
                Err(k) => Err(k),
                Ok(sb) => match string_at(m.heap, a) {
                    Err(k) => Err(k),
                    Ok(sa) => if op == OP_STR_ADD {
                        push_new(n, HeapModel::Str(sa + sb))
                    } else if op == OP_STR_EQ {
                        continue_with(VmModel { stack: n.stack.push(bool_slot(sa == sb)), ..n })
                    } else {
                        continue_with(VmModel { stack: n.stack.push(bool_slot(sa != sb)), ..n })
                    },
                },
            }
        }
    } else if op == OP_STR_LEN || op == OP_STR_BYTES || op == OP_STR_UPPER || op == OP_STR_LOWER {
        if s.len() < 1 {
            Err(VmErrorKind::StackUnderflow)
        } else {
            let id = top(s, 0);
            let n = VmModel { stack: pop_n(s, 1), ..m };
            match string_at(m.heap, id) {
                Err(k) => Err(k),
                Ok(b) => if op == OP_STR_LEN {
                    continue_with(VmModel { stack: n.stack.push(b.len() as u64), ..n })
                } else if op == OP_STR_BYTES {
                    if b.len() > MAX_ARRAY_LEN {
                        Err(VmErrorKind::ArrayTooLong)
                    } else {
                        push_new(n, HeapModel::Array(b.map_values(|x: u8| x as u64)))
                    }
                } else if op == OP_STR_UPPER {
                    push_new(n, HeapModel::Str(upper_ascii(b)))
                } else {
                    push_new(n, HeapModel::Str(lower_ascii(b)))
                },
            }
        }
    } else if op == OP_STR_GET {
        if s.len() < 2 {
            Err(VmErrorKind::StackUnderflow)
        } else {
            let id = top(s, 0);
            let idx = top(s, 1);
            let n = VmModel { stack: pop_n(s, 2), ..m };
            match string_at(m.heap, id) {
                Err(k) => Err(k),
                Ok(b) => if idx >= b.len() {
                    Err(VmErrorKind::OutOfBounds)
                } else {
                    continue_with(VmModel { stack: n.stack.push(b[idx as int] as u64), ..n })
                },
            }
        }
    } else {
        // str_set: string, index, byte value
        if s.len() < 3 {
            Err(VmErrorKind::StackUnderflow)
        } else {
            let id = top(s, 0);
            let idx = top(s, 1);
            let v = top(s, 2);
            let n = VmModel { stack: pop_n(s, 3), ..m };
            if v > 255 {
                Err(VmErrorKind::ByteTooLarge)
            } else {
                match string_at(m.heap, id) {
                    Err(k) => Err(k),
                    Ok(b) => if idx >= b.len() {
                        Err(VmErrorKind::OutOfBounds)
                    } else {
                        continue_with(
                            VmModel {
                                heap: m.heap.update(
                                    id - 1,
                                    Some(HeapModel::Str(b.update(idx as int, v as u8))),
                                ),
                                ..n
                            },
                        )
                    },
                }
            }
        }
    }
}

/// `cast <from> <to>`: unt and int reinterpret the bits; a float on either
/// side goes to the host; other pairs are refused.
pub open spec fn cast_step(m: VmModel, args: Seq<Seq<u8>>) -> StepResult {
    if args.len() != 2 {
        Err(VmErrorKind::Arity)
    } else if m.stack.len() < 1 {
        Err(VmErrorKind::StackUnderflow)
    } else {
        let v = top(m.stack, 0);
        let n = VmModel { stack: pop_n(m.stack, 1), ..m };
        let from = fnv1a_32(args[0]);
        let to = fnv1a_32(args[1]);
        if (from == TAG_UNT && to == TAG_INT) || (from == TAG_INT && to == TAG_UNT) {
            continue_with(VmModel { stack: n.stack.push(v), ..n })
        } else if from == TAG_UNT && to == TAG_FLOAT {
            Ok((n, EffectModel::Float(FloatOp::FromUnt, v, 0)))
        } else if from == TAG_INT && to == TAG_FLOAT {
            Ok((n, EffectModel::Float(FloatOp::FromInt, v, 0)))
        } else if from == TAG_FLOAT && to == TAG_INT {
            Ok((n, EffectModel::Float(FloatOp::ToInt, v, 0)))
        } else if from == TAG_FLOAT && to == TAG_UNT {
            Ok((n, EffectModel::Float(FloatOp::ToUnt, v, 0)))
        } else {
            Err(VmErrorKind::BadCast)
        }
    }
}

/// The top frame.
pub open spec fn top_frame(m: VmModel) -> Seq<(Seq<u8>, u64)> {
    m.frames.last()
}

pub open spec fn with_top_frame(m: VmModel, f: Seq<(Seq<u8>, u64)>) -> VmModel {
    VmModel { frames: m.frames.update(m.frames.len() - 1, f), ..m }
}

/// `store_var`, `load_var` and `free` on the top frame.
pub open spec fn var_step(m: VmModel, op: u32, args: Seq<Seq<u8>>) -> StepResult {
    if args.len() != 1 {
        Err(VmErrorKind::Arity)
    } else {
        let name = args[0];
        let f = top_frame(m);
        if op == OP_STORE_VAR {
            if m.stack.len() < 1 {
                Err(VmErrorKind::StackUnderflow)
            } else {
                let v = top(m.stack, 0);
                let n = VmModel { stack: pop_n(m.stack, 1), ..m };
                match var_pos(f, name) {
                    Some(i) => continue_with(with_top_frame(n, f.update(i, (name, v)))),
                    None => continue_with(with_top_frame(n, f.push((name, v)))),
                }
            }
        } else if op == OP_LOAD_VAR {
            match var_pos(f, name) {
                Some(i) => continue_with(VmModel { stack: m.stack.push(f[i].1), ..m }),
                None => Err(VmErrorKind::UndefinedVariable),
            }
        } else {
            match var_pos(f, name) {
                None => Err(VmErrorKind::UndefinedVariable),
                Some(i) => {
                    let id = f[i].1;
                    if !is_live(m.heap, id) {
                        Err(VmErrorKind::DanglingRef)
                    } else {
                        continue_with(
                            VmModel {
                                heap: m.heap.update(id - 1, None),
                                ..with_top_frame(m, f.remove(i))
                            },
                        )
                    }
                },
            }
        }
    }
}

/// What `print` writes for the popped slot `v` under the tag `tag`.
pub open spec fn print_effect(m: VmModel, tag: u32, v: u64) -> Result<EffectModel, VmErrorKind> {
    if tag == TAG_UNT {
        Ok(EffectModel::Print(decimal(v as nat)))
    } else if tag == TAG_INT {
        Ok(EffectModel::Print(signed_decimal((v as i64) as int)))
    } else if tag == TAG_FLOAT {
        Ok(EffectModel::PrintFloat(v))
    } else if tag == TAG_CHAR {
        Ok(EffectModel::Print(char_bytes(v as u8)))
    } else if tag == TAG_REF || tag == TAG_STR {
        if !is_live(m.heap, v) {
            Err(VmErrorKind::DanglingRef)
        } else {
            match entry_text(m.classes, entry_at(m.heap, v)) {
                Ok(t) => Ok(EffectModel::Print(t)),
                Err(k) => Err(k),
            }
        }
    } else {
        Err(VmErrorKind::UnknownType)
    }
}

/// `print`: an empty line when the stack is empty, else the top slot as the tag says.
pub open spec fn print_step(m: VmModel, args: Seq<Seq<u8>>) -> StepResult {
    if m.stack.len() == 0 {
        Ok((m, EffectModel::Print(Seq::empty())))
    } else if args.len() != 1 {
        Err(VmErrorKind::Arity)
    } else {
        let v = top(m.stack, 0);
        let n = VmModel { stack: pop_n(m.stack, 1), ..m };
        match print_effect(n, fnv1a_32(args[0]), v) {
            Ok(e) => Ok((n, e)),
            Err(k) => Err(k),
        }
    }
}

/// Whether `input` takes the tag.
pub open spec fn input_tag(tag: u32) -> bool {
    tag == TAG_UNT || tag == TAG_INT || tag == TAG_FLOAT || tag == TAG_STR
}

/// What a line of input gives under `unt`, `int` or `str`: the trimmed line
/// as a number, or a new string.
pub open spec fn input_result(m: VmModel, tag: u32, line: Seq<u8>) -> Result<VmModel, VmErrorKind> {
    let t = trim(line);
    if tag == TAG_UNT {
        match parse_unsigned(t) {
            Some(v) => Ok(VmModel { stack: m.stack.push(v), ..m }),
            None => Err(VmErrorKind::BadLiteral),
        }
    } else if tag == TAG_INT {
        match parse_signed(t) {
            Some(v) => Ok(VmModel { stack: m.stack.push(v as u64), ..m }),
            None => Err(VmErrorKind::BadLiteral),
        }
    } else if tag == TAG_STR {
        match push_new(m, HeapModel::Str(t)) {
            Ok((n, _)) => Ok(n),
            Err(k) => Err(k),
        }
    } else {
        Err(VmErrorKind::UnknownType)
    }
}

/// Control flow: jumps, calls, returns, `halt` and `sleep`.
pub open spec fn control_step(p: ProgramModel, m: VmModel, op: u32, args: Seq<Seq<u8>>) -> StepResult {
    if op == OP_LABEL {
        continue_with(m)
    } else if op == OP_JUMP || op == OP_CALL {
        if args.len() != 1 {
            Err(VmErrorKind::Arity)
        } else {
            match lookup_index(p.labels, args[0]) {
                None => Err(VmErrorKind::UndefinedLabel),
                Some(i) => if op == OP_JUMP {
                    continue_with(VmModel { ip: after(i), ..m })
                } else {
                    continue_with(enter(m, after(i)))
                },
            }
        }
    } else if op == OP_JUMP_IF_TRUE || op == OP_JUMP_IF_FALSE || op == OP_JUMP_IF_NULL {
        if args.len() != 1 {
            Err(VmErrorKind::Arity)
        } else if m.stack.len() < 1 {
            Err(VmErrorKind::StackUnderflow)
        } else {
            let c = top(m.stack, 0);
            let n = VmModel { stack: pop_n(m.stack, 1), ..m };
            let taken = if op == OP_JUMP_IF_TRUE {
                c == 1
            } else if op == OP_JUMP_IF_FALSE {
                c != 1
            } else {
                c == 0
            };
            if !taken {
                continue_with(n)
            } else {
                match lookup_index(p.labels, args[0]) {
                    None => Err(VmErrorKind::UndefinedLabel),
                    Some(i) => continue_with(VmModel { ip: after(i), ..n }),
                }
            }
        }
    } else if op == OP_CALL_DYNAMIC {
        if m.stack.len() < 1 {
            Err(VmErrorKind::StackUnderflow)
        } else {
            let t = top(m.stack, 0);
            let n = VmModel { stack: pop_n(m.stack, 1), ..m };
            let target = if t < p.ins.len() {
                after(t as int)
            } else {
                p.ins.len() as int
            };
            continue_with(enter(n, target))
        }
    } else if op == OP_RET {
        if m.calls.len() == 0 {
            Err(VmErrorKind::EmptyCallStack)
        } else {
            continue_with(
                VmModel {
                    ip: m.calls.last().0,
                    this: m.calls.last().1,
                    calls: m.calls.drop_last(),
                    frames: m.frames.drop_last(),
                    ..m
                },
            )
        }
    } else if op == OP_SLEEP {
        if m.stack.len() < 1 {
            Err(VmErrorKind::StackUnderflow)
        } else {
            Ok((VmModel { stack: pop_n(m.stack, 1), ..m }, EffectModel::Sleep(top(m.stack, 0))))
        }
    } else {
        // halt [code]
        if args.len() == 1 {
            match parse_i32(args[0]) {
                Some(c) => Ok((m, EffectModel::Halt(c))),
                None => Err(VmErrorKind::BadLiteral),
            }
        } else if m.stack.len() > 0 {
            Ok((VmModel { stack: pop_n(m.stack, 1), ..m }, EffectModel::Halt(top(m.stack, 0) as i32)))
        } else {
            Ok((m, EffectModel::Halt(0)))
        }
    }
}

/// Objects: `new`, `set_field`, `load_field`, `call_method`, `load_this`.
pub open spec fn object_step(p: ProgramModel, m: VmModel, op: u32, args: Seq<Seq<u8>>) -> StepResult {
    if op == OP_LOAD_THIS {
        match m.this {
            Some(t) => continue_with(VmModel { stack: m.stack.push(t), ..m }),
            None => Err(VmErrorKind::NoThis),
        }
    } else if op == OP_NEW {
        if args.len() != 2 {
            Err(VmErrorKind::Arity)
        } else {
            match lookup_index(p.labels, args[1]) {
                None => Err(VmErrorKind::UndefinedLabel),
                Some(i) => if m.heap.len() + 1 >= u64::MAX {
                    Err(VmErrorKind::HeapExhausted)
                } else {
                    match ensure_class(p, m.classes, args[0]) {
                        Err(k) => Err(k),
                        Ok((cs, ci)) => {
                            let n = VmModel { classes: cs, ..m };
                            let obj = HeapModel::Object(
                                fnv1a_64(args[0]),
                                Seq::new(cs[ci].fields.len(), |i: int| 0u64),
                            );
                            match push_new(n, obj) {
                                Err(k) => Err(k),
                                Ok((n2, _)) => continue_with(enter(n2, after(i))),
                            }
                        },
                    }
                },
            }
        }
    } else if args.len() != 1 {
        Err(VmErrorKind::Arity)
    } else {
        let arity = if op == OP_SET_FIELD {
            2int
        } else {
            1int
        };
        if m.stack.len() < arity {
            Err(VmErrorKind::StackUnderflow)
        } else {
            let id = top(m.stack, 0);
            let n = VmModel { stack: pop_n(m.stack, arity), ..m };
            match object_at(m.heap, id) {
                Err(k) => Err(k),
                Ok((c, f)) => match class_by_hash(m.classes, c) {
                    None => Err(VmErrorKind::UndefinedClass),
                    Some(ci) => {
                        let cls = m.classes[ci];
                        if op == OP_CALL_METHOD {
                            match method_label(cls.methods, args[0]) {
                                None => Err(VmErrorKind::UndefinedMethod),
                                Some(l) => match lookup_index(p.labels, l) {
                                    None => Err(VmErrorKind::UndefinedLabel),
                                    Some(i) => continue_with(
                                        VmModel { this: Some(id), ..enter(n, after(i)) },
                                    ),
                                },
                            }
                        } else {
                            match field_pos(cls.fields, args[0]) {
                                None => Err(VmErrorKind::UndefinedField),
                                Some(k) => if k >= f.len() {
                                    Err(VmErrorKind::OutOfBounds)
                                } else if op == OP_SET_FIELD {
                                    continue_with(
                                        VmModel {
                                            heap: m.heap.update(
                                                id - 1,
                                                Some(HeapModel::Object(c, f.update(k, top(m.stack, 1)))),
                                            ),
                                            ..n
                                        },
                                    )
                                } else {
                                    continue_with(VmModel { stack: n.stack.push(f[k]), ..n })
                                },
                            }
                        }
                    },
                },
            }
        }
    }
}

/// Arrays: `new_array`, `array_set`, `array_get`, `array_len`.
pub open spec fn array_step(m: VmModel, op: u32) -> StepResult {
    let s = m.stack;
    if op == OP_NEW_ARRAY {
        if s.len() < 1 {
            Err(VmErrorKind::StackUnderflow)
        } else {
            let len = top(s, 0);
            if len > MAX_ARRAY_LEN {
                Err(VmErrorKind::ArrayTooLong)
            } else {
                push_new(
                    VmModel { stack: pop_n(s, 1), ..m },
                    HeapModel::Array(Seq::new(len as nat, |i: int| 0u64)),
                )
            }
        }
    } else {
        let arity = if op == OP_ARRAY_SET {
            3int
        } else if op == OP_ARRAY_GET {
            2int
        } else {
            1int
        };
        if s.len() < arity {
            Err(VmErrorKind::StackUnderflow)
        } else {
            let id = top(s, 0);
            let n = VmModel { stack: pop_n(s, arity), ..m };
            match array_at(m.heap, id) {
                Err(k) => Err(k),
                Ok(a) => if op == OP_ARRAY_LEN {
                    continue_with(VmModel { stack: n.stack.push(a.len() as u64), ..n })
                } else {
                    let idx = top(s, 1);
                    if idx >= a.len() {
                        Err(VmErrorKind::OutOfBounds)
                    } else if op == OP_ARRAY_GET {
                        continue_with(VmModel { stack: n.stack.push(a[idx as int]), ..n })
                    } else {
                        continue_with(
                            VmModel {
                                heap: m.heap.update(
                                    id - 1,
                                    Some(HeapModel::Array(a.update(idx as int, top(s, 2)))),
                                ),
                                ..n
                            },
                        )
                    }
                },
            }
        }
    }
}

/// `clone`: a new entry with the contents of the popped one.
pub open spec fn clone_step(m: VmModel) -> StepResult {
    if m.stack.len() < 1 {
        Err(VmErrorKind::StackUnderflow)
    } else {
        let id = top(m.stack, 0);
        if !is_live(m.heap, id) {
            Err(VmErrorKind::DanglingRef)
        } else {
            push_new(VmModel { stack: pop_n(m.stack, 1), ..m }, entry_at(m.heap, id))
        }
    }
}

pub open spec fn is_string_op(op: u32) -> bool {
    op == OP_STR_ADD || op == OP_STR_LEN || op == OP_STR_GET || op == OP_STR_SET || op
        == OP_STR_BYTES || op == OP_STR_UPPER || op == OP_STR_LOWER || op == OP_STR_EQ || op
        == OP_STR_NEQ
}

pub open spec fn is_control_op(op: u32) -> bool {
    op == OP_LABEL || op == OP_JUMP || op == OP_CALL || op == OP_JUMP_IF_TRUE || op
        == OP_JUMP_IF_FALSE || op == OP_JUMP_IF_NULL || op == OP_CALL_DYNAMIC || op == OP_RET
        || op == OP_SLEEP || op == OP_HALT
}

pub open spec fn is_object_op(op: u32) -> bool {
    op == OP_NEW || op == OP_SET_FIELD || op == OP_LOAD_FIELD || op == OP_CALL_METHOD || op
        == OP_LOAD_THIS
}

pub open spec fn is_array_op(op: u32) -> bool {
    op == OP_NEW_ARRAY || op == OP_ARRAY_SET || op == OP_ARRAY_GET || op == OP_ARRAY_LEN
}

pub open spec fn is_var_op(op: u32) -> bool {
    op == OP_STORE_VAR || op == OP_LOAD_VAR || op == OP_FREE
}

/// An integer or boolean operation: pops its operands, pushes the result.
pub open spec fn pure_step(m: VmModel, op: u32) -> StepResult {
    let arity = pure_arity(op);
    if m.stack.len() < arity {
        Err(VmErrorKind::StackUnderflow)
    } else {
        let a = if arity == 1 {
            top(m.stack, 0)
        } else {
            top(m.stack, 1)
        };
        let b = if arity == 1 {
            0
        } else {
            top(m.stack, 0)
        };
        match pure_apply(op, a, b) {
            Err(k) => Err(k),
            Ok(v) => continue_with(VmModel { stack: pop_n(m.stack, arity).push(v), ..m }),
        }
    }
}

/// A float operation: pops its operands and hands them to the host.
pub open spec fn float_step(m: VmModel, op: u32) -> StepResult {
    let (fop, arity) = float_op(op)->Some_0;
    if m.stack.len() < arity {
        Err(VmErrorKind::StackUnderflow)
    } else {
        let a = if arity == 1 {
            top(m.stack, 0)
        } else {
            top(m.stack, 1)
        };
        let b = if arity == 1 {
            0
        } else {
            top(m.stack, 0)
        };
        Ok((VmModel { stack: pop_n(m.stack, arity), ..m }, EffectModel::Float(fop, a, b)))
    }
}

/// `input <tag>`: asks the host for a line.
pub open spec fn input_step(m: VmModel, args: Seq<Seq<u8>>) -> StepResult {
    if args.len() != 1 {
        Err(VmErrorKind::Arity)
    } else if !input_tag(fnv1a_32(args[0])) {
        Err(VmErrorKind::UnknownType)
    } else {
        Ok((m, EffectModel::Input(fnv1a_32(args[0]))))
    }
}

/// One step: fetch the instruction at `ip`, advance `ip`, and apply the
/// instruction to the state with the advanced `ip`.
#[verifier::opaque]
pub open spec fn step_spec(p: ProgramModel, m: VmModel) -> StepResult {
    let ins = p.ins[m.ip];
    apply_spec(p, VmModel { ip: m.ip + 1, ..m }, ins.op, ins.args)
}

/// What an instruction with opcode `op` and arguments `args` does to `n`,
/// whose `ip` already points past it.
pub open spec fn apply_spec(p: ProgramModel, n: VmModel, op: u32, args: Seq<Seq<u8>>) -> StepResult {
    if pure_arity(op) > 0 {
        pure_step(n, op)
    } else if float_op(op) is Some {
        float_step(n, op)
    } else if op == OP_PUSH_CONST {
        push_const_step(p, n, args)
    } else if is_string_op(op) {
        string_step(n, op)
    } else if op == OP_CAST {
        cast_step(n, args)
    } else if is_var_op(op) {
        var_step(n, op, args)
    } else if op == OP_CLONE {
        clone_step(n)
    } else {
        apply_rest_spec(p, n, op, args)
    }
}

pub open spec fn apply_rest_spec(p: ProgramModel, n: VmModel, op: u32, args: Seq<Seq<u8>>) -> StepResult {
    if op == OP_PRINT {
        print_step(n, args)
    } else if op == OP_INPUT {
        input_step(n, args)
    } else if is_control_op(op) {
        control_step(p, n, op, args)
    } else if is_object_op(op) {
        object_step(p, n, op, args)
    } else if is_array_op(op) {
        array_step(n, op)
    } else {
        Err(VmErrorKind::UnknownInstruction)
    }
}

/// Up to `fuel` steps from `m`: stops when `ip` leaves the program (`None`),
/// at the first effect other than `Continue`, when the fuel is spent
/// (`Some(Continue)`), or at the first error.
pub open spec fn run_spec(p: ProgramModel, m: VmModel, fuel: nat) -> Result<
    (VmModel, Option<EffectModel>),
    VmErrorKind,
>
    decreases fuel,
{
    if m.ip < 0 || m.ip >= p.ins.len() {
        Ok((m, None))
    } else if fuel == 0 {
        Ok((m, Some(EffectModel::Continue)))
    } else {
        match step_spec(p, m) {
            Err(k) => Err(k),
            Ok((m2, e)) => match e {
                EffectModel::Continue => run_spec(p, m2, (fuel - 1) as nat),
                _ => Ok((m2, Some(e))),
            },
        }
    }
}

} // verus!
