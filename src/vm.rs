//! The execution engine: one instruction at a time, against the semantics
//! of `semantics.rs`. The host runs the loop and performs the effects.
use vstd::prelude::*;
use crate::hash::{class_hash_bytes, opcode_hash_bytes};
use crate::heap::{copy_bytes, zero_slots, Heap, HeapModel, HeapValue, MAX_ARRAY_LEN};
use crate::text::{copy_range, to_lower_ascii, to_upper_ascii, trim_bounds, QUOTE};
use crate::numbers::{decimal, format_signed, format_unsigned, parse_i32_bytes, parse_i64_bytes, parse_u64_bytes};
use crate::loader::{
    byte_strings, classes_of, classes_prefix, labels_prefix, reports, collect_classes, collect_labels, instrs_view, labels_of, lemma_classes_in_range,
    lemma_labels_in_range, parse, positions_view, program_of, Instruction, InstrView, LoadError, LoadErrorKind,
};
use vstd::utf8::encode_utf8;
use crate::text::lines_of;
use crate::opcodes::{
    OP_AND, OP_ARRAY_GET, OP_ARRAY_LEN, OP_ARRAY_SET, OP_CALL, OP_CALL_DYNAMIC, OP_CALL_METHOD, OP_CAST, OP_CLONE, OP_END_CLASS, OP_FIELD, OP_FREE, OP_F_ADD, OP_F_DEC, OP_F_DIV, OP_F_EQ, OP_F_GT, OP_F_GTE, OP_F_INC, OP_F_LT, OP_F_LTE, OP_F_MOD, OP_F_MUL, OP_F_NEQ, OP_F_SUB, OP_HALT, OP_INPUT, OP_I_ADD, OP_I_DEC, OP_I_DIV, OP_I_EQ, OP_I_GT, OP_I_GTE, OP_I_INC, OP_I_LT, OP_I_LTE, OP_I_MOD, OP_I_MUL, OP_I_NEQ, OP_I_SUB, OP_JUMP, OP_JUMP_IF_FALSE, OP_JUMP_IF_NULL, OP_JUMP_IF_TRUE, OP_LABEL, OP_LOAD_FIELD, OP_LOAD_THIS, OP_LOAD_VAR, OP_METHOD, OP_NEW, OP_NEW_ARRAY, OP_NOT, OP_OR, OP_PRINT, OP_PUSH_CONST, OP_RET, OP_SET_FIELD, OP_SLEEP, OP_STORE_VAR, OP_STR_ADD, OP_STR_BYTES, OP_STR_EQ, OP_STR_GET, OP_STR_LEN, OP_STR_LOWER, OP_STR_NEQ, OP_STR_SET, OP_STR_UPPER, OP_U_ADD, OP_U_DEC, OP_U_DIV, OP_U_EQ, OP_U_GT, OP_U_GTE, OP_U_INC, OP_U_LT, OP_U_LTE, OP_U_MOD, OP_U_MUL, OP_U_NEQ, OP_U_SUB, TAG_CHAR, TAG_FLOAT, TAG_INT, TAG_LAMBDA, TAG_REF, TAG_STR, TAG_UNT,
};
use crate::semantics::{
    apply_spec, apply_rest_spec, ClassInfo, ClassModel, Effect, EffectModel, FloatOp, ProgramModel, StepResult, VmErrorKind, VmModel, array_at, array_step, bool_slot, cast_step, char_bytes, class_at, class_block_from, class_by_hash, class_by_name, clone_step, control_step, ensure_class, enter, entry_text, field_pos, first_pos, float_op, float_step, input_result, is_array_op, is_control_op, is_object_op, is_string_op, is_var_op, join_decimals, join_fields, lemma_first_hash_pos, lemma_first_pos, lookup_index, methods_view, object_at, object_step, pop_n, print_step, pure_apply, pure_arity, pure_step, push_const_step, push_new, run_spec, step_spec, string_at, string_step, top, top_frame, unquote, var_step,
};
use crate::table::{bytes_eq, keys_of, position_of};

verus! {

/// A fatal error at the instruction with index `at`.
#[derive(Debug, Clone, Copy)]
pub struct VmError {
    pub kind: VmErrorKind,
    pub at: usize,
}

pub open spec fn frame_view(f: Seq<(Vec<u8>, u64)>) -> Seq<(Seq<u8>, u64)> {
    f.map_values(|e: (Vec<u8>, u64)| (e.0@, e.1))
}

pub open spec fn frames_view(fs: Seq<Vec<(Vec<u8>, u64)>>) -> Seq<Seq<(Seq<u8>, u64)>> {
    fs.map_values(|f: Vec<(Vec<u8>, u64)>| frame_view(f@))
}

pub open spec fn classes_view(cs: Seq<ClassInfo>) -> Seq<ClassModel> {
    cs.map_values(|c: ClassInfo| c@)
}

pub open spec fn calls_view(c: Seq<(usize, Option<u64>)>) -> Seq<(int, Option<u64>)> {
    c.map_values(|x: (usize, Option<u64>)| (x.0 as int, x.1))
}

/// How a step ended, as values: the new state and effect, or the error kind.
pub open spec fn step_outcome(r: Result<Effect, VmErrorKind>, m: VmModel) -> StepResult {
    match r {
        Ok(e) => Ok((m, e@)),
        Err(k) => Err(k),
    }
}

/// The machine: the loaded program with its label and class tables, and the
/// state that execution changes.
#[derive(Debug)]
pub struct LVM {
    /// Return addresses, each with the object that was current at the call.
    pub call_stack: Vec<(usize, Option<u64>)>,
    pub classes: Vec<ClassInfo>,
    pub class_positions: Vec<(Vec<u8>, usize)>,
    pub frame_stack: Vec<Vec<(Vec<u8>, u64)>>,
    pub heap: Heap,
    pub instructions: Vec<Instruction>,
    pub ip: usize,
    pub labels: Vec<(Vec<u8>, usize)>,
    pub path: String,
    pub stack: Vec<u64>,
    pub this: Option<u64>,
}

impl LVM {
    pub open spec fn program(&self) -> ProgramModel {
        ProgramModel {
            ins: instrs_view(self.instructions@),
            labels: positions_view(self.labels@),
            class_positions: positions_view(self.class_positions@),
        }
    }

    pub open spec fn model(&self) -> VmModel {
        VmModel {
            stack: self.stack@,
            frames: frames_view(self.frame_stack@),
            calls: calls_view(self.call_stack@),
            heap: self.heap@,
            classes: classes_view(self.classes@),
            this: self.this,
            ip: self.ip as int,
        }
    }

    /// Each call has its frame above the outer one, and the tables point
    /// into the program.
    pub open spec fn wf(&self) -> bool {
        &&& self.frame_stack@.len() == self.call_stack@.len() + 1
        &&& forall|j: int| 0 <= j < self.labels@.len() ==> self.labels@[j].1 < self.instructions@.len()
        &&& forall|j: int|
            0 <= j < self.class_positions@.len() ==> self.class_positions@[j].1
                < self.instructions@.len()
    }

    /// Whether the program and its tables are those of `o`.
    pub open spec fn same_program(&self, o: &LVM) -> bool {
        &&& self.instructions@ == o.instructions@
        &&& self.labels@ == o.labels@
        &&& self.class_positions@ == o.class_positions@
        &&& self.path@ == o.path@
    }

    /// A machine with nothing loaded: one empty outer frame, an empty heap
    /// whose first ID is 1.
    pub fn new(path: String) -> (vm: LVM)
        ensures
            vm.wf(),
            vm.path@ == path@,
            vm.instructions@.len() == 0,
            vm.labels@.len() == 0,
            vm.class_positions@.len() == 0,
            vm.model() == (VmModel {
                stack: Seq::empty(),
                frames: seq![Seq::empty()],
                calls: Seq::empty(),
                heap: Seq::empty(),
                classes: Seq::empty(),
                this: None,
                ip: 0,
            }),
    {
        let mut frame_stack: Vec<Vec<(Vec<u8>, u64)>> = Vec::new();
        frame_stack.push(Vec::new());
        let vm = LVM {
            call_stack: Vec::new(),
            classes: Vec::new(),
            class_positions: Vec::new(),
            frame_stack,
            heap: Heap::new(),
            instructions: Vec::new(),
            ip: 0,
            labels: Vec::new(),
            path,
            stack: Vec::new(),
            this: None,
        };
        assert(frame_view(vm.frame_stack@[0]@) =~= Seq::<(Seq<u8>, u64)>::empty());
        assert(frames_view(vm.frame_stack@) =~= seq![Seq::<(Seq<u8>, u64)>::empty()]);
        assert(calls_view(vm.call_stack@) =~= Seq::<(int, Option<u64>)>::empty());
        assert(classes_view(vm.classes@) =~= Seq::<ClassModel>::empty());
        vm
    }

    /// The instruction index of a label.
    pub fn get_label(&self, label: &Vec<u8>) -> (r: Option<usize>)
        requires
            self.wf(),
        ensures
            match r {
                Some(i) => lookup_index(self.program().labels, label@) == Some(i as int) && i
                    < self.instructions@.len() && i < usize::MAX,
                None => lookup_index(self.program().labels, label@) is None,
            },
    {
        let found = position_of(&self.labels, label.as_slice());
        let ghost keys = positions_view(self.labels@).map_values(|e: (Seq<u8>, int)| e.0);
        assert(keys =~= keys_of(self.labels@));
        match found {
            Some(j) => {
                proof {
                    lemma_first_pos(keys, label@, j as int);
                }
                let n = self.instructions.len();
                let i = self.labels[j].1;
                assert(i < n);
                Some(i)
            },
            None => {
                proof {
                    assert forall|k: int| 0 <= k < keys.len() implies keys[k] != label@ by {
                        if keys[k] == label@ {
                            assert(exists|j: int| 0 <= j < keys_of(self.labels@).len() && keys_of(self.labels@)[j] == label@);
                        }
                    }
                    lemma_first_pos(keys, label@, keys.len() as int);
                }
                None
            },
        }
    }

    pub fn push_u64(&mut self, val: u64)
        ensures
            final(self).stack@ == old(self).stack@.push(val),
            final(self).same_program(old(self)),
            final(self).model() == (VmModel { stack: old(self).stack@.push(val), ..old(self).model() }),
            old(self).wf() ==> final(self).wf(),
    {
        self.stack.push(val);
    }

    /// Pushes a signed value as its two's-complement bits.
    pub fn push_i64(&mut self, val: i64)
        ensures
            final(self).same_program(old(self)),
            final(self).model() == (VmModel { stack: old(self).stack@.push(val as u64), ..old(self).model() }),
            old(self).wf() ==> final(self).wf(),
    {
        self.stack.push(#[verifier::truncate] (val as u64));
    }

    /// Pushes a heap ID.
    pub fn push_ref(&mut self, val: u64)
        ensures
            final(self).same_program(old(self)),
            final(self).model() == (VmModel { stack: old(self).stack@.push(val), ..old(self).model() }),
            old(self).wf() ==> final(self).wf(),
    {
        self.stack.push(val);
    }

    /// Pops the top slot; `None` on an empty stack.
    pub fn pop_slot(&mut self) -> (r: Option<u64>)
        ensures
            final(self).same_program(old(self)),
            old(self).wf() ==> final(self).wf(),
            match r {
                Some(v) => old(self).stack@.len() > 0 && v == top(old(self).stack@, 0)
                    && final(self).model() == (VmModel { stack: pop_n(old(self).stack@, 1), ..old(self).model() }),
                None => old(self).stack@.len() == 0 && final(self).model() == old(self).model(),
            },
    {
        let r = self.stack.pop();
        proof {
            if r is Some {
                assert(self.stack@ =~= pop_n(old(self).stack@, 1));
            }
        }
        r
    }

    /// An integer or boolean operation.
    fn exec_pure(&mut self, op: u32) -> (r: Result<Effect, VmErrorKind>)
        requires
            old(self).wf(),
            pure_arity(op) > 0,
        ensures
            final(self).same_program(old(self)),
            r is Ok ==> final(self).wf(),
            r is Err ==> final(self).heap@ == old(self).heap@ && final(self).classes@ == old(self).classes@,
            step_outcome(r, final(self).model()) == pure_step(old(self).model(), op),
    {
        let unary = is_unary_pure(op);
        let need: usize = if unary {
            1
        } else {
            2
        };
        if self.stack.len() < need {
            return Err(VmErrorKind::StackUnderflow);
        }
        let ghost s0 = self.stack@;
        let b: u64 = if unary {
            0
        } else {
            self.stack.pop().unwrap()
        };
        let a = self.stack.pop().unwrap();
        assert(self.stack@ =~= pop_n(s0, pure_arity(op)));
        match apply_pure(op, a, b) {
            Err(k) => Err(k),
            Ok(v) => {
                self.stack.push(v);
                Ok(Effect::Continue)
            },
        }
    }

    /// A float operation: the operands go to the host.
    fn exec_float(&mut self, op: u32) -> (r: Result<Effect, VmErrorKind>)
        requires
            old(self).wf(),
            float_op(op) is Some,
        ensures
            final(self).same_program(old(self)),
            r is Ok ==> final(self).wf(),
            r is Err ==> final(self).heap@ == old(self).heap@ && final(self).classes@ == old(self).classes@,
            step_outcome(r, final(self).model()) == float_step(old(self).model(), op),
    {
        let (fop, unary) = float_op_of(op);
        let need: usize = if unary {
            1
        } else {
            2
        };
        if self.stack.len() < need {
            return Err(VmErrorKind::StackUnderflow);
        }
        let ghost s0 = self.stack@;
        let b: u64 = if unary {
            0
        } else {
            self.stack.pop().unwrap()
        };
        let a = self.stack.pop().unwrap();
        assert(self.stack@ =~= pop_n(s0, float_op(op)->Some_0.1));
        Ok(Effect::Float { op: fop, a, b })
    }
    /// Stores a new heap entry and pushes its ID.
    fn push_new(&mut self, v: HeapValue) -> (r: Result<Effect, VmErrorKind>)
        requires
            old(self).wf(),
        ensures
            final(self).same_program(old(self)),
            r is Ok ==> final(self).wf(),
            r is Err ==> final(self).heap@ == old(self).heap@ && final(self).classes@ == old(self).classes@,
            step_outcome(r, final(self).model()) == push_new(old(self).model(), v@),
    {
        if !self.heap.can_alloc() {
            return Err(VmErrorKind::HeapExhausted);
        }
        let id = self.heap.allocate(v);
        self.stack.push(id);
        Ok(Effect::Continue)
    }

    /// The string operations.
    fn exec_string(&mut self, op: u32) -> (r: Result<Effect, VmErrorKind>)
        requires
            old(self).wf(),
            is_string_op(op),
        ensures
            final(self).same_program(old(self)),
            r is Ok ==> final(self).wf(),
            r is Err ==> final(self).heap@ == old(self).heap@ && final(self).classes@ == old(self).classes@,
            step_outcome(r, final(self).model()) == string_step(old(self).model(), op),
    {
        let ghost m = self.model();
        let ghost s0 = self.stack@;
        if op == OP_STR_ADD || op == OP_STR_EQ || op == OP_STR_NEQ {
            if self.stack.len() < 2 {
                return Err(VmErrorKind::StackUnderflow);
            }
            let b = self.stack.pop().unwrap();
            let a = self.stack.pop().unwrap();
            assert(self.stack@ =~= pop_n(s0, 2));
            let sb = match str_of(&self.heap, b) {
                Err(k) => {
                    return Err(k);
                },
                Ok(x) => copy_bytes(x),
            };
            let sa = match str_of(&self.heap, a) {
                Err(k) => {
                    return Err(k);
                },
                Ok(x) => x,
            };
            if op == OP_STR_ADD {
                let joined = concat_bytes(sa, &sb);
                self.push_new(HeapValue::Str(joined))
            } else {
                let eq = bytes_eq(sa.as_slice(), sb.as_slice());
                let v = if op == OP_STR_EQ {
                    slot_of(eq)
                } else {
                    slot_of(!eq)
                };
                self.stack.push(v);
                Ok(Effect::Continue)
            }
        } else if op == OP_STR_LEN || op == OP_STR_BYTES || op == OP_STR_UPPER || op
            == OP_STR_LOWER {
            if self.stack.len() < 1 {
                return Err(VmErrorKind::StackUnderflow);
            }
            let id = self.stack.pop().unwrap();
            assert(self.stack@ =~= pop_n(s0, 1));
            let made: HeapValue = match str_of(&self.heap, id) {
                Err(k) => {
                    return Err(k);
                },
                Ok(b) => {
                    if op == OP_STR_LEN {
                        let n = b.len() as u64;
                        self.stack.push(n);
                        return Ok(Effect::Continue);
                    } else if op == OP_STR_BYTES {
                        if b.len() as u64 > MAX_ARRAY_LEN {
                            return Err(VmErrorKind::ArrayTooLong);
                        }
                        HeapValue::Array(widen_bytes(b))
                    } else if op == OP_STR_UPPER {
                        HeapValue::Str(to_upper_ascii(b.as_slice()))
                    } else {
                        HeapValue::Str(to_lower_ascii(b.as_slice()))
                    }
                },
            };
            self.push_new(made)
        } else if op == OP_STR_GET {
            if self.stack.len() < 2 {
                return Err(VmErrorKind::StackUnderflow);
            }
            let id = self.stack.pop().unwrap();
            let idx = self.stack.pop().unwrap();
            assert(self.stack@ =~= pop_n(s0, 2));
            let byte = match str_of(&self.heap, id) {
                Err(k) => {
                    return Err(k);
                },
                Ok(b) => {
                    if idx >= b.len() as u64 {
                        return Err(VmErrorKind::OutOfBounds);
                    }
                    b[idx as usize]
                },
            };
            self.stack.push(byte as u64);
            Ok(Effect::Continue)
        } else {
            if self.stack.len() < 3 {
                return Err(VmErrorKind::StackUnderflow);
            }
            let id = self.stack.pop().unwrap();
            let idx = self.stack.pop().unwrap();
            let v = self.stack.pop().unwrap();
            assert(self.stack@ =~= pop_n(s0, 3));
            if v > 255 {
                return Err(VmErrorKind::ByteTooLarge);
            }
            match str_of(&self.heap, id) {
                Err(k) => {
                    return Err(k);
                },
                Ok(b) => {
                    if idx >= b.len() as u64 {
                        return Err(VmErrorKind::OutOfBounds);
                    }
                },
            }
            let entry = self.heap.take(id);
            match entry {
                HeapValue::Str(mut b) => {
                    b.set(idx as usize, v as u8);
                    self.heap.put(id, HeapValue::Str(b));
                },
                _ => {
                    assert(false);
                },
            }
            assert(self.heap@ =~= m.heap.update(
                id - 1,
                Some(HeapModel::Str(string_at(m.heap, id)->Ok_0.update(idx as int, v as u8))),
            ));
            Ok(Effect::Continue)
        }
    }

    /// The array operations.
    fn exec_array(&mut self, op: u32) -> (r: Result<Effect, VmErrorKind>)
        requires
            old(self).wf(),
            is_array_op(op),
        ensures
            final(self).same_program(old(self)),
            r is Ok ==> final(self).wf(),
            r is Err ==> final(self).heap@ == old(self).heap@ && final(self).classes@ == old(self).classes@,
            step_outcome(r, final(self).model()) == array_step(old(self).model(), op),
    {
        let ghost m = self.model();
        let ghost s0 = self.stack@;
        if op == OP_NEW_ARRAY {
            if self.stack.len() < 1 {
                return Err(VmErrorKind::StackUnderflow);
            }
            let len = self.stack.pop().unwrap();
            assert(self.stack@ =~= pop_n(s0, 1));
            if len > MAX_ARRAY_LEN {
                return Err(VmErrorKind::ArrayTooLong);
            }
            let zeros = zero_slots(len as usize);
            return self.push_new(HeapValue::Array(zeros));
        }
        let need: usize = if op == OP_ARRAY_SET {
            3
        } else if op == OP_ARRAY_GET {
            2
        } else {
            1
        };
        if self.stack.len() < need {
            return Err(VmErrorKind::StackUnderflow);
        }
        let id = self.stack.pop().unwrap();
        let idx: u64 = if need >= 2 {
            self.stack.pop().unwrap()
        } else {
            0
        };
        let val: u64 = if need == 3 {
            self.stack.pop().unwrap()
        } else {
            0
        };
        assert(self.stack@ =~= pop_n(s0, need as int));
        let got: u64 = match arr_of(&self.heap, id) {
            Err(k) => {
                return Err(k);
            },
            Ok(a) => {
                if op == OP_ARRAY_LEN {
                    a.len() as u64
                } else {
                    if idx >= a.len() as u64 {
                        return Err(VmErrorKind::OutOfBounds);
                    }
                    a[idx as usize]
                }
            },
        };
        if op == OP_ARRAY_SET {
            let entry = self.heap.take(id);
            match entry {
                HeapValue::Array(mut a) => {
                    a.set(idx as usize, val);
                    self.heap.put(id, HeapValue::Array(a));
                },
                _ => {
                    assert(false);
                },
            }
            assert(self.heap@ =~= m.heap.update(
                id - 1,
                Some(HeapModel::Array(array_at(m.heap, id)->Ok_0.update(idx as int, val))),
            ));
        } else {
            self.stack.push(got);
        }
        Ok(Effect::Continue)
    }

    /// `clone`: a copy of the popped entry under a new ID.
    fn exec_clone(&mut self) -> (r: Result<Effect, VmErrorKind>)
        requires
            old(self).wf(),
        ensures
            final(self).same_program(old(self)),
            r is Ok ==> final(self).wf(),
            r is Err ==> final(self).heap@ == old(self).heap@ && final(self).classes@ == old(self).classes@,
            step_outcome(r, final(self).model()) == clone_step(old(self).model()),
    {
        let ghost s0 = self.stack@;
        if self.stack.len() < 1 {
            return Err(VmErrorKind::StackUnderflow);
        }
        let id = self.stack.pop().unwrap();
        assert(self.stack@ =~= pop_n(s0, 1));
        let copy = match self.heap.get(id) {
            None => {
                return Err(VmErrorKind::DanglingRef);
            },
            Some(e) => e.deep_clone(),
        };
        self.push_new(copy)
    }

    /// `push_const <tag> <literal>`.
    fn exec_push_const(&mut self, args: &Vec<Vec<u8>>) -> (r: Result<Effect, VmErrorKind>)
        requires
            old(self).wf(),
        ensures
            final(self).same_program(old(self)),
            r is Ok ==> final(self).wf(),
            r is Err ==> final(self).heap@ == old(self).heap@ && final(self).classes@ == old(self).classes@,
            step_outcome(r, final(self).model()) == push_const_step(
                old(self).program(),
                old(self).model(),
                byte_strings(args@),
            ),
    {
        if args.len() != 2 {
            return Err(VmErrorKind::Arity);
        }
        assert(byte_strings(args@)[0] == args@[0]@ && byte_strings(args@)[1] == args@[1]@);
        let tag = opcode_hash_bytes(args[0].as_slice());
        let lit = &args[1];
        if tag == TAG_UNT {
            match parse_u64_bytes(lit.as_slice()) {
                Some(v) => {
                    self.stack.push(v);
                    Ok(Effect::Continue)
                },
                None => Err(VmErrorKind::BadLiteral),
            }
        } else if tag == TAG_INT {
            match parse_i64_bytes(lit.as_slice()) {
                Some(v) => {
                    self.stack.push(#[verifier::truncate] (v as u64));
                    Ok(Effect::Continue)
                },
                None => Err(VmErrorKind::BadLiteral),
            }
        } else if tag == TAG_FLOAT {
            Ok(Effect::ParseFloat(copy_bytes(lit)))
        } else if tag == TAG_STR {
            let payload = unquote_bytes(lit);
            self.push_new(HeapValue::Str(payload))
        } else if tag == TAG_LAMBDA {
            match self.get_label(lit) {
                Some(i) => {
                    self.stack.push(i as u64);
                    Ok(Effect::Continue)
                },
                None => Err(VmErrorKind::UndefinedLabel),
            }
        } else {
            Err(VmErrorKind::UnknownType)
        }
    }

    /// `cast <from> <to>`.
    fn exec_cast(&mut self, args: &Vec<Vec<u8>>) -> (r: Result<Effect, VmErrorKind>)
        requires
            old(self).wf(),
        ensures
            final(self).same_program(old(self)),
            r is Ok ==> final(self).wf(),
            r is Err ==> final(self).heap@ == old(self).heap@ && final(self).classes@ == old(self).classes@,
            step_outcome(r, final(self).model()) == cast_step(old(self).model(), byte_strings(args@)),
    {
        if args.len() != 2 {
            return Err(VmErrorKind::Arity);
        }
        assert(byte_strings(args@)[0] == args@[0]@ && byte_strings(args@)[1] == args@[1]@);
        let ghost s0 = self.stack@;
        if self.stack.len() < 1 {
            return Err(VmErrorKind::StackUnderflow);
        }
        let v = self.stack.pop().unwrap();
        assert(self.stack@ =~= pop_n(s0, 1));
        let from = opcode_hash_bytes(args[0].as_slice());
        let to = opcode_hash_bytes(args[1].as_slice());
        if (from == TAG_UNT && to == TAG_INT) || (from == TAG_INT && to == TAG_UNT) {
            self.stack.push(v);
            Ok(Effect::Continue)
        } else if from == TAG_UNT && to == TAG_FLOAT {
            Ok(Effect::Float { op: FloatOp::FromUnt, a: v, b: 0 })
        } else if from == TAG_INT && to == TAG_FLOAT {
            Ok(Effect::Float { op: FloatOp::FromInt, a: v, b: 0 })
        } else if from == TAG_FLOAT && to == TAG_INT {
            Ok(Effect::Float { op: FloatOp::ToInt, a: v, b: 0 })
        } else if from == TAG_FLOAT && to == TAG_UNT {
            Ok(Effect::Float { op: FloatOp::ToUnt, a: v, b: 0 })
        } else {
            Err(VmErrorKind::BadCast)
        }
    }

    /// `store_var`, `load_var` and `free`.
    fn exec_var(&mut self, op: u32, args: &Vec<Vec<u8>>) -> (r: Result<Effect, VmErrorKind>)
        requires
            old(self).wf(),
            is_var_op(op),
        ensures
            final(self).same_program(old(self)),
            r is Ok ==> final(self).wf(),
            r is Err ==> final(self).heap@ == old(self).heap@ && final(self).classes@ == old(self).classes@,
            step_outcome(r, final(self).model()) == var_step(old(self).model(), op, byte_strings(args@)),
    {
        if args.len() != 1 {
            return Err(VmErrorKind::Arity);
        }
        assert(byte_strings(args@)[0] == args@[0]@);
        let name = &args[0];
        let ghost m = self.model();
        let ghost fv = top_frame(m);
        let last = self.frame_stack.len() - 1;
        assert(fv == frame_view(self.frame_stack@[last as int]@));
        let ghost keys = fv.map_values(|e: (Seq<u8>, u64)| e.0);
        assert(keys =~= keys_of(self.frame_stack@[last as int]@));
        if op == OP_LOAD_VAR {
            let found = position_of(&self.frame_stack[last], name.as_slice());
            match found {
                Some(j) => {
                    proof {
                        lemma_first_pos(keys, name@, j as int);
                    }
                    let v = self.frame_stack[last][j].1;
                    assert(v == fv[j as int].1);
                    self.stack.push(v);
                    return Ok(Effect::Continue);
                },
                None => {
                    proof {
                        lemma_no_key(keys, name@);
                    }
                    return Err(VmErrorKind::UndefinedVariable);
                },
            }
        }
        let ghost s0 = self.stack@;
        let mut v: u64 = 0;
        if op == OP_STORE_VAR {
            if self.stack.len() < 1 {
                return Err(VmErrorKind::StackUnderflow);
            }
            v = self.stack.pop().unwrap();
            assert(self.stack@ =~= pop_n(s0, 1));
        }
        let ghost fs0 = self.frame_stack@;
        let mut f = self.frame_stack.pop().unwrap();
        assert(fs0 =~= self.frame_stack@.push(f));
        let found = position_of(&f, name.as_slice());
        if op == OP_STORE_VAR {
            let entry = (copy_bytes(name), v);
            match found {
                Some(j) => {
                    proof {
                        lemma_first_pos(keys, name@, j as int);
                    }
                    f.set(j, entry);
                    assert(frame_view(f@) =~= fv.update(j as int, (name@, v)));
                },
                None => {
                    proof {
                        lemma_no_key(keys, name@);
                    }
                    f.push(entry);
                    assert(frame_view(f@) =~= fv.push((name@, v)));
                },
            }
            self.frame_stack.push(f);
            assert(frames_view(self.frame_stack@) =~= frames_view(fs0).update(
                last as int,
                frame_view(f@),
            ));
            Ok(Effect::Continue)
        } else {
            match found {
                None => {
                    proof {
                        lemma_no_key(keys, name@);
                    }
                    Err(VmErrorKind::UndefinedVariable)
                },
                Some(j) => {
                    proof {
                        lemma_first_pos(keys, name@, j as int);
                    }
                    let id = f[j].1;
                    assert(id == fv[j as int].1);
                    if !self.heap.free(id) {
                        return Err(VmErrorKind::DanglingRef);
                    }
                    f.remove(j);
                    assert(frame_view(f@) =~= fv.remove(j as int));
                    self.frame_stack.push(f);
                    assert(frames_view(self.frame_stack@) =~= frames_view(fs0).update(
                        last as int,
                        frame_view(f@),
                    ));
                    Ok(Effect::Continue)
                },
            }
        }
    }

    /// A call: the return address and a fresh frame are pushed.
    fn enter_call(&mut self, target: usize)
        requires
            old(self).wf(),
        ensures
            final(self).same_program(old(self)),
            final(self).wf(),
            final(self).model() == enter(old(self).model(), target as int),
    {
        let ghost m = self.model();
        self.call_stack.push((self.ip, self.this));
        let fresh: Vec<(Vec<u8>, u64)> = Vec::new();
        assert(frame_view(fresh@) =~= Seq::<(Seq<u8>, u64)>::empty());
        self.frame_stack.push(fresh);
        self.ip = target;
        assert(calls_view(self.call_stack@) =~= m.calls.push((m.ip, m.this)));
        assert(frames_view(self.frame_stack@) =~= m.frames.push(Seq::empty()));
    }

    /// Jumps, calls, returns, `sleep` and `halt`.
    fn exec_control(&mut self, op: u32, args: &Vec<Vec<u8>>) -> (r: Result<Effect, VmErrorKind>)
        requires
            old(self).wf(),
            is_control_op(op),
        ensures
            final(self).same_program(old(self)),
            r is Ok ==> final(self).wf(),
            r is Err ==> final(self).heap@ == old(self).heap@ && final(self).classes@ == old(self).classes@,
            step_outcome(r, final(self).model()) == control_step(
                old(self).program(),
                old(self).model(),
                op,
                byte_strings(args@),
            ),
    {
        let ghost m = self.model();
        let ghost s0 = self.stack@;
        if op == OP_LABEL {
            Ok(Effect::Continue)
        } else if op == OP_JUMP || op == OP_CALL {
            if args.len() != 1 {
                return Err(VmErrorKind::Arity);
            }
            assert(byte_strings(args@)[0] == args@[0]@);
            match self.get_label(&args[0]) {
                None => Err(VmErrorKind::UndefinedLabel),
                Some(i) => {
                    if op == OP_JUMP {
                        self.ip = i + 1;
                    } else {
                        self.enter_call(i + 1);
                    }
                    Ok(Effect::Continue)
                },
            }
        } else if op == OP_JUMP_IF_TRUE || op == OP_JUMP_IF_FALSE || op == OP_JUMP_IF_NULL {
            if args.len() != 1 {
                return Err(VmErrorKind::Arity);
            }
            assert(byte_strings(args@)[0] == args@[0]@);
            if self.stack.len() < 1 {
                return Err(VmErrorKind::StackUnderflow);
            }
            let c = self.stack.pop().unwrap();
            assert(self.stack@ =~= pop_n(s0, 1));
            let taken = if op == OP_JUMP_IF_TRUE {
                c == 1
            } else if op == OP_JUMP_IF_FALSE {
                c != 1
            } else {
                c == 0
            };
            if !taken {
                return Ok(Effect::Continue);
            }
            match self.get_label(&args[0]) {
                None => Err(VmErrorKind::UndefinedLabel),
                Some(i) => {
                    self.ip = i + 1;
                    Ok(Effect::Continue)
                },
            }
        } else if op == OP_CALL_DYNAMIC {
            if self.stack.len() < 1 {
                return Err(VmErrorKind::StackUnderflow);
            }
            let t = self.stack.pop().unwrap();
            assert(self.stack@ =~= pop_n(s0, 1));
            let n = self.instructions.len();
            let target: usize = if t < n as u64 {
                t as usize + 1
            } else {
                n
            };
            self.enter_call(target);
            Ok(Effect::Continue)
        } else if op == OP_RET {
            match self.call_stack.pop() {
                None => Err(VmErrorKind::EmptyCallStack),
                Some((back, saved)) => {
                    self.frame_stack.pop();
                    self.ip = back;
                    self.this = saved;
                    assert(calls_view(self.call_stack@) =~= m.calls.drop_last());
                    assert(frames_view(self.frame_stack@) =~= m.frames.drop_last());
                    Ok(Effect::Continue)
                },
            }
        } else if op == OP_SLEEP {
            if self.stack.len() < 1 {
                return Err(VmErrorKind::StackUnderflow);
            }
            let ms = self.stack.pop().unwrap();
            assert(self.stack@ =~= pop_n(s0, 1));
            Ok(Effect::Sleep(ms))
        } else {
            if args.len() == 1 {
                assert(byte_strings(args@)[0] == args@[0]@);
                match parse_i32_bytes(args[0].as_slice()) {
                    Some(c) => Ok(Effect::Halt(c)),
                    None => Err(VmErrorKind::BadLiteral),
                }
            } else if self.stack.len() > 0 {
                let v = self.stack.pop().unwrap();
                assert(self.stack@ =~= pop_n(s0, 1));
                Ok(Effect::Halt(#[verifier::truncate] (v as i32)))
            } else {
                Ok(Effect::Halt(0))
            }
        }
    }

    /// Position of the loaded class named `name`, loading it from its
    /// declaration block on first use.
    pub fn load_class_if_needed(&mut self, name: &Vec<u8>) -> (r: Result<usize, VmErrorKind>)
        requires
            old(self).wf(),
        ensures
            final(self).same_program(old(self)),
            match ensure_class(old(self).program(), old(self).model().classes, name@) {
                Ok((cs, i)) => r == Ok::<usize, VmErrorKind>(i as usize) && 0 <= i < cs.len() && final(self).wf()
                    && final(self).model() == (VmModel { classes: cs, ..old(self).model() }),
                Err(k) => r == Err::<usize, VmErrorKind>(k) && final(self).model() == old(self).model()
                    && final(self).heap@ == old(self).heap@ && final(self).classes@ == old(self).classes@,
            },
    {
        let ghost m = self.model();
        match self.class_named(name) {
            Some(i) => {
                return Ok(i);
            },
            None => {},
        }
        let pos = match self.get_class_position(name) {
            None => {
                return Err(VmErrorKind::UndefinedClass);
            },
            Some(pos) => pos,
        };
        let info = match self.read_class_block(pos, name) {
            None => {
                return Err(VmErrorKind::BadClassBlock);
            },
            Some(info) => info,
        };
        let idx = self.classes.len();
        self.classes.push(info);
        assert(classes_view(self.classes@) =~= m.classes.push(info@));
        Ok(idx)
    }

    /// Position of the loaded class named `name`.
    fn class_named(&self, name: &Vec<u8>) -> (r: Option<usize>)
        ensures
            match r {
                Some(i) => class_by_name(self.model().classes, name@) == Some(i as int) && i
                    < self.classes@.len(),
                None => class_by_name(self.model().classes, name@) is None,
            },
    {
        let ghost names = self.model().classes.map_values(|c: ClassModel| c.class);
        let mut i: usize = 0;
        while i < self.classes.len()
            invariant
                i <= self.classes@.len(),
                names == self.model().classes.map_values(|c: ClassModel| c.class),
                forall|k: int| 0 <= k < i ==> names[k] != name@,
            decreases self.classes@.len() - i,
        {
            assert(names[i as int] == self.classes@[i as int].class@);
            if bytes_eq(self.classes[i].class.as_slice(), name.as_slice()) {
                proof {
                    lemma_first_pos(names, name@, i as int);
                }
                return Some(i);
            }
            i = i + 1;
        }
        proof {
            lemma_first_pos(names, name@, names.len() as int);
        }
        None
    }

    /// The instruction index of the declaration of class `name`.
    fn get_class_position(&self, name: &Vec<u8>) -> (r: Option<usize>)
        requires
            self.wf(),
        ensures
            match r {
                Some(i) => lookup_index(self.program().class_positions, name@) == Some(i as int)
                    && i < self.instructions@.len() && i < usize::MAX,
                None => lookup_index(self.program().class_positions, name@) is None,
            },
    {
        let found = position_of(&self.class_positions, name.as_slice());
        let ghost keys = positions_view(self.class_positions@).map_values(|e: (Seq<u8>, int)| e.0);
        assert(keys =~= keys_of(self.class_positions@));
        match found {
            Some(j) => {
                proof {
                    lemma_first_pos(keys, name@, j as int);
                }
                let n = self.instructions.len();
                let i = self.class_positions[j].1;
                assert(i < n);
                Some(i)
            },
            None => {
                proof {
                    lemma_no_key(keys, name@);
                }
                None
            },
        }
    }

    /// Reads the class block declared at `pos`.
    fn read_class_block(&self, pos: usize, name: &Vec<u8>) -> (r: Option<ClassInfo>)
        requires
            self.wf(),
            pos < self.instructions@.len(),
            pos < usize::MAX,
        ensures
            match r {
                Some(c) => class_at(self.program().ins, pos as int, name@) == Some(c@),
                None => class_at(self.program().ins, pos as int, name@) is None,
            },
    {
        let ghost ins = self.program().ins;
        let decl = &self.instructions[pos];
        assert(ins[pos as int] == decl@);
        if decl.args.len() < 1 {
            return None;
        }
        let mut fields: Vec<Vec<u8>> = Vec::new();
        let mut k: usize = 1;
        while k < decl.args.len()
            invariant
                1 <= k <= decl.args@.len(),
                byte_strings(fields@) == byte_strings(decl.args@).subrange(1, k as int),
            decreases decl.args@.len() - k,
        {
            let ghost before = byte_strings(fields@);
            assert(byte_strings(decl.args@)[k as int] == decl.args@[k as int]@);
            fields.push(copy_bytes(&decl.args[k]));
            assert(byte_strings(fields@) =~= before.push(decl.args@[k as int]@));
            assert(before.push(decl.args@[k as int]@) =~= byte_strings(decl.args@).subrange(1, k + 1));
            k = k + 1;
        }
        assert(byte_strings(fields@) =~= byte_strings(decl.args@).drop_first());
        assert(ins[pos as int].args == byte_strings(decl.args@));
        let mut methods: Vec<(Vec<u8>, Vec<u8>)> = Vec::new();
        let ghost f0 = byte_strings(fields@);
        assert(methods_view(methods@) =~= Seq::<(Seq<u8>, Seq<u8>)>::empty());
        let mut i: usize = pos + 1;
        loop
            invariant
                pos + 1 <= i <= self.instructions@.len(),
                ins == self.program().ins,
                0 <= pos < ins.len(),
                ins[pos as int].args.len() >= 1,
                ins[pos as int].args.drop_first() == f0,
                class_block_from(ins, pos + 1, f0, Seq::empty()) == class_block_from(
                    ins,
                    i as int,
                    byte_strings(fields@),
                    methods_view(methods@),
                ),
            decreases self.instructions@.len() - i,
        {
            if i >= self.instructions.len() {
                return None;
            }
            let ins_i = &self.instructions[i];
            assert(ins[i as int] == ins_i@);
            if ins_i.op == OP_END_CLASS {
                let hash = class_hash_bytes(name.as_slice());
                let info = ClassInfo { class: copy_bytes(name), hash, fields, methods };
                return Some(info);
            } else if ins_i.op == OP_FIELD && ins_i.args.len() == 1 {
                let ghost before = byte_strings(fields@);
                assert(byte_strings(ins_i.args@)[0] == ins_i.args@[0]@);
                fields.push(copy_bytes(&ins_i.args[0]));
                assert(byte_strings(fields@) =~= before.push(ins_i.args@[0]@));
            } else if ins_i.op == OP_METHOD && ins_i.args.len() == 2 {
                let ghost before = methods_view(methods@);
                assert(byte_strings(ins_i.args@)[0] == ins_i.args@[0]@);
                assert(byte_strings(ins_i.args@)[1] == ins_i.args@[1]@);
                methods.push((copy_bytes(&ins_i.args[0]), copy_bytes(&ins_i.args[1])));
                assert(methods_view(methods@) =~= before.push((ins_i.args@[0]@, ins_i.args@[1]@)));
            } else {
                return None;
            }
            i = i + 1;
        }
    }

    /// Position of the first loaded class whose objects carry hash `h`.
    fn class_with_hash(&self, h: u64) -> (r: Option<usize>)
        ensures
            match r {
                Some(i) => class_by_hash(self.model().classes, h) == Some(i as int) && i
                    < self.classes@.len(),
                None => class_by_hash(self.model().classes, h) is None,
            },
    {
        let ghost hs = self.model().classes.map_values(|c: ClassModel| c.hash);
        let mut i: usize = 0;
        while i < self.classes.len()
            invariant
                i <= self.classes@.len(),
                hs == self.model().classes.map_values(|c: ClassModel| c.hash),
                forall|k: int| 0 <= k < i ==> hs[k] != h,
            decreases self.classes@.len() - i,
        {
            assert(hs[i as int] == self.classes@[i as int].hash);
            if self.classes[i].hash == h {
                proof {
                    lemma_first_hash_pos(hs, h, i as int);
                }
                return Some(i);
            }
            i = i + 1;
        }
        proof {
            lemma_first_hash_pos(hs, h, hs.len() as int);
        }
        None
    }

    /// `new`, `set_field`, `load_field`, `call_method` and `load_this`.
    fn exec_object(&mut self, op: u32, args: &Vec<Vec<u8>>) -> (r: Result<Effect, VmErrorKind>)
        requires
            old(self).wf(),
            is_object_op(op),
        ensures
            final(self).same_program(old(self)),
            r is Ok ==> final(self).wf(),
            r is Err ==> final(self).heap@ == old(self).heap@ && final(self).classes@ == old(self).classes@,
            step_outcome(r, final(self).model()) == object_step(
                old(self).program(),
                old(self).model(),
                op,
                byte_strings(args@),
            ),
    {
        let ghost m = self.model();
        let ghost s0 = self.stack@;
        if op == OP_LOAD_THIS {
            return match self.this {
                Some(t) => {
                    self.stack.push(t);
                    Ok(Effect::Continue)
                },
                None => Err(VmErrorKind::NoThis),
            };
        }
        if op == OP_NEW {
            if args.len() != 2 {
                return Err(VmErrorKind::Arity);
            }
            assert(byte_strings(args@)[0] == args@[0]@ && byte_strings(args@)[1] == args@[1]@);
            let target = match self.get_label(&args[1]) {
                None => {
                    return Err(VmErrorKind::UndefinedLabel);
                },
                Some(i) => i + 1,
            };
            if !self.heap.can_alloc() {
                return Err(VmErrorKind::HeapExhausted);
            }
            let loaded = self.load_class_if_needed(&args[0]);
            if loaded.is_err() {
                return Err(loaded.unwrap_err());
            }
            let ci = loaded.unwrap();
            assert(ensure_class(self.program(), m.classes, args[0]@) is Ok);
            let nclasses = self.classes.len();
            proof {
                let (cs, i) = ensure_class(self.program(), m.classes, args[0]@)->Ok_0;
                assert(self.model().classes == cs);
                assert(self.model().classes.len() == self.classes@.len());
                assert(i < self.classes@.len());
                assert(loaded == Ok::<usize, VmErrorKind>(i as usize));
                assert(i < nclasses);
                assert(ci as int == i);
            }
            let count = self.classes[ci].fields.len();
            let hash = class_hash_bytes(args[0].as_slice());
            let obj = HeapValue::Object { class_hash: hash, fields: zero_slots(count) };
            let ghost m1 = self.model();
            assert(obj@ == HeapModel::Object(
                hash,
                Seq::new(m1.classes[ci as int].fields.len(), |i: int| 0u64),
            ));
            match self.push_new(obj) {
                Err(k) => {
                    return Err(k);
                },
                Ok(_) => {},
            }
            self.enter_call(target);
            return Ok(Effect::Continue);
        }
        if args.len() != 1 {
            return Err(VmErrorKind::Arity);
        }
        assert(byte_strings(args@)[0] == args@[0]@);
        let name = &args[0];
        let need: usize = if op == OP_SET_FIELD {
            2
        } else {
            1
        };
        if self.stack.len() < need {
            return Err(VmErrorKind::StackUnderflow);
        }
        let id = self.stack.pop().unwrap();
        let val: u64 = if need == 2 {
            self.stack.pop().unwrap()
        } else {
            0
        };
        assert(self.stack@ =~= pop_n(s0, need as int));
        let (c, slots) = match obj_of(&self.heap, id) {
            Err(k) => {
                return Err(k);
            },
            Ok(found) => found,
        };
        let ci = match self.class_with_hash(c) {
            None => {
                return Err(VmErrorKind::UndefinedClass);
            },
            Some(ci) => ci,
        };
        assert(self.model().classes[ci as int] == self.classes@[ci as int]@);
        if op == OP_CALL_METHOD {
            let ghost ms = self.model().classes[ci as int].methods;
            let ghost keys = ms.map_values(|e: (Seq<u8>, Seq<u8>)| e.0);
            assert(keys =~= keys_of(self.classes@[ci as int].methods@));
            let label = match position_of(&self.classes[ci].methods, name.as_slice()) {
                None => {
                    proof {
                        lemma_no_key(keys, name@);
                    }
                    return Err(VmErrorKind::UndefinedMethod);
                },
                Some(j) => {
                    proof {
                        lemma_first_pos(keys, name@, j as int);
                    }
                    copy_bytes(&self.classes[ci].methods[j].1)
                },
            };
            return match self.get_label(&label) {
                None => Err(VmErrorKind::UndefinedLabel),
                Some(i) => {
                    self.enter_call(i + 1);
                    self.this = Some(id);
                    Ok(Effect::Continue)
                },
            };
        }
        let k = match field_index(&self.classes[ci].fields, name) {
            None => {
                return Err(VmErrorKind::UndefinedField);
            },
            Some(k) => k,
        };
        if k >= slots.len() {
            return Err(VmErrorKind::OutOfBounds);
        }
        if op == OP_SET_FIELD {
            let entry = self.heap.take(id);
            match entry {
                HeapValue::Object { class_hash, mut fields } => {
                    fields.set(k, val);
                    self.heap.put(id, HeapValue::Object { class_hash, fields });
                },
                _ => {
                    assert(false);
                },
            }
            assert(self.heap@ =~= m.heap.update(
                id - 1,
                Some(HeapModel::Object(c, object_at(m.heap, id)->Ok_0.1.update(k as int, val))),
            ));
        } else {
            let v = slots[k];
            self.stack.push(v);
        }
        Ok(Effect::Continue)
    }

    /// The text of a heap entry, as `print ref` writes it.
    fn entry_text_of(&self, e: &HeapValue) -> (r: Result<Vec<u8>, VmErrorKind>)
        ensures
            match r {
                Ok(t) => entry_text(self.model().classes, e@) == Ok::<Seq<u8>, VmErrorKind>(t@),
                Err(k) => entry_text(self.model().classes, e@) == Err::<Seq<u8>, VmErrorKind>(k),
            },
    {
        match e {
            HeapValue::Num(v) => Ok(format_unsigned(*v)),
            HeapValue::Str(b) => Ok(copy_bytes(b)),
            HeapValue::Array(a) => {
                let mut t: Vec<u8> = Vec::new();
                t.push(91);
                let body = join_decimals_exec(a);
                append_bytes(&mut t, &body);
                t.push(93);
                assert(t@ =~= seq![91u8] + join_decimals(a@) + seq![93u8]);
                Ok(t)
            },
            HeapValue::Object { class_hash, fields } => {
                match self.class_with_hash(*class_hash) {
                    None => Err(VmErrorKind::UndefinedClass),
                    Some(ci) => {
                        assert(self.model().classes[ci as int] == self.classes@[ci as int]@);
                        let mut t = copy_bytes(&self.classes[ci].class);
                        t.push(32);
                        t.push(123);
                        t.push(32);
                        let body = join_fields_exec(fields);
                        append_bytes(&mut t, &body);
                        t.push(32);
                        t.push(125);
                        assert(t@ =~= self.classes@[ci as int].class@ + seq![32u8, 123u8, 32u8]
                            + join_fields(fields@) + seq![32u8, 125u8]);
                        Ok(t)
                    },
                }
            },
        }
    }

    /// `print <tag>`.
    fn exec_print(&mut self, args: &Vec<Vec<u8>>) -> (r: Result<Effect, VmErrorKind>)
        requires
            old(self).wf(),
        ensures
            final(self).same_program(old(self)),
            r is Ok ==> final(self).wf(),
            r is Err ==> final(self).heap@ == old(self).heap@ && final(self).classes@ == old(self).classes@,
            step_outcome(r, final(self).model()) == print_step(old(self).model(), byte_strings(args@)),
    {
        let ghost s0 = self.stack@;
        if self.stack.len() == 0 {
            let empty: Vec<u8> = Vec::new();
            assert(empty@ =~= Seq::<u8>::empty());
            return Ok(Effect::Print(empty));
        }
        if args.len() != 1 {
            return Err(VmErrorKind::Arity);
        }
        assert(byte_strings(args@)[0] == args@[0]@);
        let v = self.stack.pop().unwrap();
        assert(self.stack@ =~= pop_n(s0, 1));
        let tag = opcode_hash_bytes(args[0].as_slice());
        if tag == TAG_UNT {
            Ok(Effect::Print(format_unsigned(v)))
        } else if tag == TAG_INT {
            Ok(Effect::Print(format_signed(#[verifier::truncate] (v as i64))))
        } else if tag == TAG_FLOAT {
            Ok(Effect::PrintFloat(v))
        } else if tag == TAG_CHAR {
            Ok(Effect::Print(char_text(#[verifier::truncate] (v as u8))))
        } else if tag == TAG_REF || tag == TAG_STR {
            match self.heap.get(v) {
                None => Err(VmErrorKind::DanglingRef),
                Some(e) => match self.entry_text_of(e) {
                    Ok(t) => Ok(Effect::Print(t)),
                    Err(k) => Err(k),
                },
            }
        } else {
            Err(VmErrorKind::UnknownType)
        }
    }

    /// Hands the engine the line that an `input` effect asked for (`unt`,
    /// `int` or `str`; the host parses `float` itself and pushes the bits).
    pub fn provide_input(&mut self, tag: u32, line: &[u8]) -> (r: Result<(), VmErrorKind>)
        requires
            old(self).wf(),
        ensures
            final(self).same_program(old(self)),
            match input_result(old(self).model(), tag, line@) {
                Ok(m2) => r is Ok && final(self).wf() && final(self).model() == m2,
                Err(k) => r == Err::<(), VmErrorKind>(k) && final(self).heap@ == old(self).heap@,
            },
    {
        let (a, b) = trim_bounds(line, 0, line.len());
        assert(line@.subrange(0, line@.len() as int) =~= line@);
        let t = copy_range(line, a, b);
        if tag == TAG_UNT {
            match parse_u64_bytes(t.as_slice()) {
                Some(v) => {
                    self.stack.push(v);
                    Ok(())
                },
                None => Err(VmErrorKind::BadLiteral),
            }
        } else if tag == TAG_INT {
            match parse_i64_bytes(t.as_slice()) {
                Some(v) => {
                    self.stack.push(#[verifier::truncate] (v as u64));
                    Ok(())
                },
                None => Err(VmErrorKind::BadLiteral),
            }
        } else if tag == TAG_STR {
            match self.push_new(HeapValue::Str(t)) {
                Ok(_) => Ok(()),
                Err(k) => Err(k),
            }
        } else {
            Err(VmErrorKind::UnknownType)
        }
    }

    /// Applies an instruction with opcode `op` and arguments `args`, `ip`
    /// already advanced.
    #[verifier::rlimit(50)]
    fn dispatch(&mut self, op: u32, args: &Vec<Vec<u8>>) -> (r: Result<Effect, VmErrorKind>)
        requires
            old(self).wf(),
        ensures
            final(self).same_program(old(self)),
            r is Ok ==> final(self).wf(),
            r is Err ==> final(self).heap@ == old(self).heap@ && final(self).classes@ == old(self).classes@,
            step_outcome(r, final(self).model()) == apply_spec(
                old(self).program(),
                old(self).model(),
                op,
                byte_strings(args@),
            ),
    {
        if is_pure_op(op) {
            self.exec_pure(op)
        } else if is_float_op(op) {
            self.exec_float(op)
        } else if op == OP_PUSH_CONST {
            self.exec_push_const(args)
        } else if is_string_opcode(op) {
            self.exec_string(op)
        } else if op == OP_CAST {
            self.exec_cast(args)
        } else if is_var_opcode(op) {
            self.exec_var(op, args)
        } else if op == OP_CLONE {
            self.exec_clone()
        } else {
            self.dispatch_rest(op, args)
        }
    }

    #[verifier::rlimit(50)]
    fn dispatch_rest(&mut self, op: u32, args: &Vec<Vec<u8>>) -> (r: Result<Effect, VmErrorKind>)
        requires
            old(self).wf(),
            pure_arity(op) <= 0,
            float_op(op) is None,
            op != OP_PUSH_CONST,
            !is_string_op(op),
            op != OP_CAST,
            !is_var_op(op),
            op != OP_CLONE,
        ensures
            final(self).same_program(old(self)),
            r is Ok ==> final(self).wf(),
            r is Err ==> final(self).heap@ == old(self).heap@ && final(self).classes@ == old(self).classes@,
            step_outcome(r, final(self).model()) == apply_rest_spec(
                old(self).program(),
                old(self).model(),
                op,
                byte_strings(args@),
            ),
    {
        if op == OP_PRINT {
            self.exec_print(args)
        } else if op == OP_INPUT {
            if args.len() != 1 {
                Err(VmErrorKind::Arity)
            } else {
                assert(byte_strings(args@)[0] == args@[0]@);
                let tag = opcode_hash_bytes(args[0].as_slice());
                if !(tag == TAG_UNT || tag == TAG_INT || tag == TAG_FLOAT || tag == TAG_STR) {
                    Err(VmErrorKind::UnknownType)
                } else {
                    Ok(Effect::Input(tag))
                }
            }
        } else if is_control_opcode(op) {
            self.exec_control(op, args)
        } else if is_object_opcode(op) {
            self.exec_object(op, args)
        } else if is_array_opcode(op) {
            self.exec_array(op)
        } else {
            Err(VmErrorKind::UnknownInstruction)
        }
    }

    /// Executes the instruction at `ip`.
    pub fn execute(&mut self) -> (r: Result<Effect, VmError>)
        requires
            old(self).wf(),
            old(self).ip < old(self).instructions@.len(),
        ensures
            final(self).same_program(old(self)),
            r is Ok ==> final(self).wf(),
            r is Err ==> final(self).heap@ == old(self).heap@ && final(self).classes@ == old(self).classes@,
            match r {
                Ok(e) => step_spec(old(self).program(), old(self).model()) == Ok::<
                    (VmModel, EffectModel),
                    VmErrorKind,
                >((final(self).model(), e@)),
                Err(e) => step_spec(old(self).program(), old(self).model()) == Err::<
                    (VmModel, EffectModel),
                    VmErrorKind,
                >(e.kind) && e.at == old(self).ip,
            },
    {
        proof {
            reveal(step_spec);
        }
        let at = self.ip;
        let ghost ins = self.program().ins;
        assert(ins[at as int] == self.instructions@[at as int]@);
        let op = self.instructions[at].op;
        let args = copy_args(&self.instructions[at].args);
        let n = self.instructions.len();
        self.ip = at + 1;
        let r = self.dispatch(op, &args);
        match r {
            Ok(e) => Ok(e),
            Err(k) => Err(VmError { kind: k, at }),
        }
    }

    /// Runs up to `fuel` steps; see `run_spec`.
    #[verifier::rlimit(50)]
    pub fn run(&mut self, fuel: u64) -> (r: Result<Option<Effect>, VmError>)
        requires
            old(self).wf(),
        ensures
            final(self).same_program(old(self)),
            r is Ok ==> final(self).wf(),
            match r {
                Ok(e) => run_spec(old(self).program(), old(self).model(), fuel as nat) == Ok::<
                    (VmModel, Option<EffectModel>),
                    VmErrorKind,
                >(
                    (
                        final(self).model(),
                        match e {
                            Some(x) => Some(x@),
                            None => None,
                        },
                    ),
                ),
                Err(e) => run_spec(old(self).program(), old(self).model(), fuel as nat) == Err::<
                    (VmModel, Option<EffectModel>),
                    VmErrorKind,
                >(e.kind),
            },
    {
        let ghost p = self.program();
        let ghost m0 = self.model();
        let mut left = fuel;
        loop
            invariant
                self.wf(),
                self.same_program(old(self)),
                p == self.program(),
                p == old(self).program(),
                m0 == old(self).model(),
                run_spec(p, m0, fuel as nat) == run_spec(p, self.model(), left as nat),
            decreases left,
        {
            if self.ip >= self.instructions.len() {
                return Ok(None);
            }
            if left == 0 {
                return Ok(Some(Effect::Continue));
            }
            let ghost before = self.model();
            let e = self.execute()?;
            proof {
                assert(step_spec(p, before) == Ok::<(VmModel, EffectModel), VmErrorKind>((self.model(), e@)));
            }
            left = left - 1;
            match e {
                Effect::Continue => {},
                _ => {
                    return Ok(Some(e));
                },
            }
        }
    }

    /// Sets `ip` to the instruction after the `main` label.
    pub fn start(&mut self) -> (r: Result<(), VmError>)
        requires
            old(self).wf(),
        ensures
            final(self).same_program(old(self)),
            final(self).wf(),
            match lookup_index(old(self).program().labels, main_name()) {
                Some(i) => r is Ok && final(self).model() == (VmModel { ip: i + 1, ..old(self).model() }),
                None => r is Err && r->Err_0.kind == VmErrorKind::NoMain && final(self).model() == old(self).model(),
            },
    {
        let main = main_label();
        match self.get_label(&main) {
            Some(i) => {
                self.ip = i + 1;
                Ok(())
            },
            None => Err(VmError { kind: VmErrorKind::NoMain, at: self.ip }),
        }
    }

    /// Records the labels and class declarations of `instructions`.
    pub fn collect_labels_and_classes(&mut self, instructions: &Vec<Instruction>) -> (r: Result<
        (),
        LoadError,
    >)
        ensures
            final(self).instructions@ == old(self).instructions@,
            final(self).path@ == old(self).path@,
            final(self).frame_stack@ == old(self).frame_stack@,
            final(self).call_stack@ == old(self).call_stack@,
            final(self).model() == old(self).model(),
            match r {
                Ok(()) => labels_of(instrs_view(instructions@)) == Ok::<_, (LoadErrorKind, int)>(
                    positions_view(final(self).labels@),
                ) && classes_of(instrs_view(instructions@)) == Ok::<_, (LoadErrorKind, int)>(
                    positions_view(final(self).class_positions@),
                ),
                Err(e) => e.path@ == old(self).path@ && match labels_of(instrs_view(instructions@)) {
                    Err(_) => reports(e, instrs_view(instructions@), labels_of(instrs_view(instructions@))),
                    Ok(_) => reports(e, instrs_view(instructions@), classes_of(instrs_view(instructions@))),
                },
            },
    {
        let labels = collect_labels(self.path.as_str(), instructions)?;
        let classes = collect_classes(self.path.as_str(), instructions)?;
        self.labels = labels;
        self.class_positions = classes;
        Ok(())
    }

    /// Loads a program: its instructions, labels and class positions.
    pub fn parse_and_load(&mut self, source: &str) -> (r: Result<(), LoadError>)
        requires
            old(self).wf(),
        ensures
            final(self).model() == old(self).model(),
            final(self).path@ == old(self).path@,
            match r {
                Ok(()) => final(self).wf() && program_of(encode_utf8(source@)) == Ok::<
                    Seq<InstrView>,
                    int,
                >(final(self).program().ins) && labels_of(final(self).program().ins) == Ok::<
                    _,
                    (LoadErrorKind, int),
                >(final(self).program().labels) && classes_of(final(self).program().ins) == Ok::<
                    _,
                    (LoadErrorKind, int),
                >(final(self).program().class_positions),
                Err(e) => e.path@ == old(self).path@ && match program_of(encode_utf8(source@)) {
                    Err(line) => e.kind == LoadErrorKind::UnterminatedQuote && e.line_idx == line
                        && e.raw@ == lines_of(encode_utf8(source@))[line],
                    Ok(ins) => match labels_of(ins) {
                        Err(_) => reports(e, ins, labels_of(ins)),
                        Ok(_) => reports(e, ins, classes_of(ins)),
                    },
                },
            },
    {
        let text = source.to_owned();
        let instructions = parse(self.path.as_str(), text)?;
        self.collect_labels_and_classes(&instructions)?;
        proof {
            let ins = instrs_view(instructions@);
            lemma_labels_in_range(ins, ins.len() as int);
            lemma_classes_in_range(ins, ins.len() as int);
            assert forall|j: int| 0 <= j < self.labels@.len() implies self.labels@[j].1
                < instructions@.len() by {
                assert(positions_view(self.labels@)[j].1 == self.labels@[j].1 as int);
                assert(labels_prefix(ins, ins.len() as int)->Ok_0 == positions_view(self.labels@));
                assert((labels_prefix(ins, ins.len() as int)->Ok_0)[j].1 < ins.len());
            }
            assert forall|j: int| 0 <= j < self.class_positions@.len() implies self.class_positions@[j].1
                < instructions@.len() by {
                assert(positions_view(self.class_positions@)[j].1 == self.class_positions@[j].1 as int);
                assert(classes_prefix(ins, ins.len() as int)->Ok_0 == positions_view(self.class_positions@));
                assert((classes_prefix(ins, ins.len() as int)->Ok_0)[j].1 < ins.len());
            }
        }
        self.instructions = instructions;
        Ok(())
    }
}

/// `main`, the entry label.
pub open spec fn main_name() -> Seq<u8> {
    seq![109u8, 97u8, 105u8, 110u8]
}

fn main_label() -> (r: Vec<u8>)
    ensures
        r@ == main_name(),
{
    let mut r: Vec<u8> = Vec::new();
    r.push(109);
    r.push(97);
    r.push(105);
    r.push(110);
    assert(r@ =~= main_name());
    r
}

/// A copy of an instruction's arguments.
fn copy_args(a: &Vec<Vec<u8>>) -> (r: Vec<Vec<u8>>)
    ensures
        byte_strings(r@) == byte_strings(a@),
{
    let mut r: Vec<Vec<u8>> = Vec::new();
    let mut i: usize = 0;
    while i < a.len()
        invariant
            i <= a@.len(),
            byte_strings(r@) == byte_strings(a@).subrange(0, i as int),
        decreases a@.len() - i,
    {
        let ghost before = byte_strings(r@);
        r.push(copy_bytes(&a[i]));
        assert(byte_strings(r@) =~= before.push(a@[i as int]@));
        assert(byte_strings(a@).subrange(0, i + 1) =~= before.push(a@[i as int]@));
        i = i + 1;
    }
    assert(byte_strings(a@).subrange(0, i as int) =~= byte_strings(a@));
    r
}

fn is_pure_op(op: u32) -> (r: bool)
    ensures
        r == (pure_arity(op) > 0),
{
    op == OP_U_INC || op == OP_U_DEC || op == OP_I_INC || op == OP_I_DEC || op == OP_NOT || op
        == OP_U_ADD || op == OP_U_SUB || op == OP_U_MUL || op == OP_U_DIV || op == OP_U_MOD || op
        == OP_I_ADD || op == OP_I_SUB || op == OP_I_MUL || op == OP_I_DIV || op == OP_I_MOD || op
        == OP_U_EQ || op == OP_U_NEQ || op == OP_U_LT || op == OP_U_GT || op == OP_U_LTE || op
        == OP_U_GTE || op == OP_I_EQ || op == OP_I_NEQ || op == OP_I_LT || op == OP_I_GT || op
        == OP_I_LTE || op == OP_I_GTE || op == OP_AND || op == OP_OR
}

fn is_float_op(op: u32) -> (r: bool)
    ensures
        r == float_op(op) is Some,
{
    op == OP_F_INC || op == OP_F_DEC || op == OP_F_ADD || op == OP_F_SUB || op == OP_F_MUL || op
        == OP_F_DIV || op == OP_F_MOD || op == OP_F_EQ || op == OP_F_NEQ || op == OP_F_LT || op
        == OP_F_GT || op == OP_F_LTE || op == OP_F_GTE
}

fn is_string_opcode(op: u32) -> (r: bool)
    ensures
        r == is_string_op(op),
{
    op == OP_STR_ADD || op == OP_STR_LEN || op == OP_STR_GET || op == OP_STR_SET || op
        == OP_STR_BYTES || op == OP_STR_UPPER || op == OP_STR_LOWER || op == OP_STR_EQ || op
        == OP_STR_NEQ
}

fn is_control_opcode(op: u32) -> (r: bool)
    ensures
        r == is_control_op(op),
{
    op == OP_LABEL || op == OP_JUMP || op == OP_CALL || op == OP_JUMP_IF_TRUE || op
        == OP_JUMP_IF_FALSE || op == OP_JUMP_IF_NULL || op == OP_CALL_DYNAMIC || op == OP_RET
        || op == OP_SLEEP || op == OP_HALT
}

fn is_object_opcode(op: u32) -> (r: bool)
    ensures
        r == is_object_op(op),
{
    op == OP_NEW || op == OP_SET_FIELD || op == OP_LOAD_FIELD || op == OP_CALL_METHOD || op
        == OP_LOAD_THIS
}

fn is_array_opcode(op: u32) -> (r: bool)
    ensures
        r == is_array_op(op),
{
    op == OP_NEW_ARRAY || op == OP_ARRAY_SET || op == OP_ARRAY_GET || op == OP_ARRAY_LEN
}

fn is_var_opcode(op: u32) -> (r: bool)
    ensures
        r == is_var_op(op),
{
    op == OP_STORE_VAR || op == OP_LOAD_VAR || op == OP_FREE
}

/// Appends `b` to `r`.
fn append_bytes(r: &mut Vec<u8>, b: &Vec<u8>)
    ensures
        final(r)@ == old(r)@ + b@,
{
    let mut i: usize = 0;
    while i < b.len()
        invariant
            i <= b@.len(),
            r@ == old(r)@ + b@.subrange(0, i as int),
        decreases b@.len() - i,
    {
        r.push(b[i]);
        i = i + 1;
        assert(r@ =~= old(r)@ + b@.subrange(0, i as int));
    }
    assert(b@.subrange(0, i as int) =~= b@);
}

/// A byte value printed as a character.
fn char_text(b: u8) -> (r: Vec<u8>)
    ensures
        r@ == char_bytes(b),
{
    let mut r: Vec<u8> = Vec::new();
    if b < 128 {
        r.push(b);
    } else {
        r.push(0xc0 + b / 64);
        r.push(0x80 + b % 64);
    }
    assert(r@ =~= char_bytes(b));
    r
}

/// Decimal numbers separated by `, `.
fn join_decimals_exec(a: &Vec<u64>) -> (r: Vec<u8>)
    ensures
        r@ == join_decimals(a@),
{
    let mut r: Vec<u8> = Vec::new();
    let mut i: usize = 0;
    assert(join_decimals(a@.subrange(0, 0)) =~= Seq::<u8>::empty());
    while i < a.len()
        invariant
            i <= a@.len(),
            r@ == join_decimals(a@.subrange(0, i as int)),
        decreases a@.len() - i,
    {
        let d = format_unsigned(a[i]);
        let ghost s = a@.subrange(0, i + 1);
        assert(s.drop_last() =~= a@.subrange(0, i as int));
        assert(s.last() == a@[i as int]);
        if i > 0 {
            r.push(44);
            r.push(32);
        }
        append_bytes(&mut r, &d);
        if i > 0 {
            assert(r@ =~= join_decimals(a@.subrange(0, i as int)) + seq![44u8, 32u8] + d@);
        } else {
            assert(r@ =~= d@);
        }
        i = i + 1;
    }
    assert(a@.subrange(0, i as int) =~= a@);
    r
}

/// `f0: v0, f1: v1, ...` for the field slots.
fn join_fields_exec(a: &Vec<u64>) -> (r: Vec<u8>)
    ensures
        r@ == join_fields(a@),
{
    let mut r: Vec<u8> = Vec::new();
    let mut i: usize = 0;
    assert(join_fields(a@.subrange(0, 0)) =~= Seq::<u8>::empty());
    while i < a.len()
        invariant
            i <= a@.len(),
            r@ == join_fields(a@.subrange(0, i as int)),
        decreases a@.len() - i,
    {
        let ghost s = a@.subrange(0, i + 1);
        assert(s.drop_last() =~= a@.subrange(0, i as int));
        assert(s.last() == a@[i as int]);
        let idx = format_unsigned(i as u64);
        let val = format_unsigned(a[i]);
        let mut item: Vec<u8> = Vec::new();
        item.push(102);
        append_bytes(&mut item, &idx);
        item.push(58);
        item.push(32);
        append_bytes(&mut item, &val);
        assert(item@ =~= seq![102u8] + decimal((s.len() - 1) as nat) + seq![58u8, 32u8] + decimal(
            s.last() as nat,
        ));
        if i > 0 {
            r.push(44);
            r.push(32);
        }
        append_bytes(&mut r, &item);
        if i > 0 {
            assert(r@ =~= join_fields(a@.subrange(0, i as int)) + seq![44u8, 32u8] + item@);
        } else {
            assert(r@ =~= item@);
        }
        i = i + 1;
    }
    assert(a@.subrange(0, i as int) =~= a@);
    r
}

/// The bytes of a string entry.
fn str_of(heap: &Heap, id: u64) -> (r: Result<&Vec<u8>, VmErrorKind>)
    ensures
        match r {
            Ok(b) => string_at(heap@, id) == Ok::<Seq<u8>, VmErrorKind>(b@),
            Err(k) => string_at(heap@, id) == Err::<Seq<u8>, VmErrorKind>(k),
        },
{
    match heap.get(id) {
        None => Err(VmErrorKind::DanglingRef),
        Some(HeapValue::Str(b)) => Ok(b),
        Some(_) => Err(VmErrorKind::WrongKind),
    }
}

/// The class hash and field slots of an object entry.
fn obj_of(heap: &Heap, id: u64) -> (r: Result<(u64, &Vec<u64>), VmErrorKind>)
    ensures
        match r {
            Ok((c, f)) => object_at(heap@, id) == Ok::<(u64, Seq<u64>), VmErrorKind>((c, f@)),
            Err(k) => object_at(heap@, id) == Err::<(u64, Seq<u64>), VmErrorKind>(k),
        },
{
    match heap.get(id) {
        None => Err(VmErrorKind::DanglingRef),
        Some(HeapValue::Object { class_hash, fields }) => Ok((*class_hash, fields)),
        Some(_) => Err(VmErrorKind::WrongKind),
    }
}

/// Position of the first field named `name`.
fn field_index(fields: &Vec<Vec<u8>>, name: &Vec<u8>) -> (r: Option<usize>)
    ensures
        match r {
            Some(k) => field_pos(byte_strings(fields@), name@) == Some(k as int),
            None => field_pos(byte_strings(fields@), name@) is None,
        },
{
    let ghost keys = byte_strings(fields@);
    let mut i: usize = 0;
    while i < fields.len()
        invariant
            i <= fields@.len(),
            keys == byte_strings(fields@),
            forall|k: int| 0 <= k < i ==> keys[k] != name@,
        decreases fields@.len() - i,
    {
        assert(keys[i as int] == fields@[i as int]@);
        if bytes_eq(fields[i].as_slice(), name.as_slice()) {
            proof {
                lemma_first_pos(keys, name@, i as int);
            }
            return Some(i);
        }
        i = i + 1;
    }
    proof {
        lemma_first_pos(keys, name@, keys.len() as int);
    }
    None
}

/// The elements of an array entry.
fn arr_of(heap: &Heap, id: u64) -> (r: Result<&Vec<u64>, VmErrorKind>)
    ensures
        match r {
            Ok(a) => array_at(heap@, id) == Ok::<Seq<u64>, VmErrorKind>(a@),
            Err(k) => array_at(heap@, id) == Err::<Seq<u64>, VmErrorKind>(k),
        },
{
    match heap.get(id) {
        None => Err(VmErrorKind::DanglingRef),
        Some(HeapValue::Array(a)) => Ok(a),
        Some(_) => Err(VmErrorKind::WrongKind),
    }
}

proof fn lemma_no_key(keys: Seq<Seq<u8>>, name: Seq<u8>)
    requires
        !(exists|j: int| 0 <= j < keys.len() && keys[j] == name),
    ensures
        first_pos(keys, name) is None,
{
    lemma_first_pos(keys, name, keys.len() as int);
}

/// A `str` literal without its surrounding quotes.
fn unquote_bytes(s: &Vec<u8>) -> (r: Vec<u8>)
    ensures
        r@ == unquote(s@),
{
    let n = s.len();
    if n >= 2 && s[0] == QUOTE && s[n - 1] == QUOTE {
        copy_range(s.as_slice(), 1, n - 1)
    } else {
        copy_bytes(s)
    }
}

/// `a` followed by `b`.
fn concat_bytes(a: &Vec<u8>, b: &Vec<u8>) -> (r: Vec<u8>)
    ensures
        r@ == a@ + b@,
{
    let mut r = copy_bytes(a);
    let mut i: usize = 0;
    while i < b.len()
        invariant
            i <= b@.len(),
            r@ == a@ + b@.subrange(0, i as int),
        decreases b@.len() - i,
    {
        r.push(b[i]);
        i = i + 1;
        assert(r@ =~= a@ + b@.subrange(0, i as int));
    }
    assert(b@.subrange(0, i as int) =~= b@);
    r
}

/// Each byte as a slot.
fn widen_bytes(b: &Vec<u8>) -> (r: Vec<u64>)
    ensures
        r@ == b@.map_values(|x: u8| x as u64),
{
    let mut r: Vec<u64> = Vec::new();
    let mut i: usize = 0;
    while i < b.len()
        invariant
            i <= b@.len(),
            r@ == b@.subrange(0, i as int).map_values(|x: u8| x as u64),
        decreases b@.len() - i,
    {
        r.push(b[i] as u64);
        i = i + 1;
        assert(r@ =~= b@.subrange(0, i as int).map_values(|x: u8| x as u64));
    }
    assert(b@.subrange(0, i as int) =~= b@);
    r
}


fn is_unary_pure(op: u32) -> (r: bool)
    requires
        pure_arity(op) > 0,
    ensures
        r == (pure_arity(op) == 1),
{
    op == OP_U_INC || op == OP_U_DEC || op == OP_I_INC || op == OP_I_DEC || op == OP_NOT
}

fn float_op_of(op: u32) -> (r: (FloatOp, bool))
    requires
        float_op(op) is Some,
    ensures
        r.0 == float_op(op)->Some_0.0,
        r.1 == (float_op(op)->Some_0.1 == 1),
{
    if op == OP_F_INC {
        (FloatOp::Inc, true)
    } else if op == OP_F_DEC {
        (FloatOp::Dec, true)
    } else if op == OP_F_ADD {
        (FloatOp::Add, false)
    } else if op == OP_F_SUB {
        (FloatOp::Sub, false)
    } else if op == OP_F_MUL {
        (FloatOp::Mul, false)
    } else if op == OP_F_DIV {
        (FloatOp::Div, false)
    } else if op == OP_F_MOD {
        (FloatOp::Rem, false)
    } else if op == OP_F_EQ {
        (FloatOp::Eq, false)
    } else if op == OP_F_NEQ {
        (FloatOp::Neq, false)
    } else if op == OP_F_LT {
        (FloatOp::Lt, false)
    } else if op == OP_F_GT {
        (FloatOp::Gt, false)
    } else if op == OP_F_LTE {
        (FloatOp::Lte, false)
    } else {
        (FloatOp::Gte, false)
    }
}

fn slot_of(c: bool) -> (r: u64)
    ensures
        r == bool_slot(c),
{
    if c {
        1
    } else {
        0
    }
}

/// Integer and boolean operations on slots.
pub fn apply_pure(op: u32, a: u64, b: u64) -> (r: Result<u64, VmErrorKind>)
    requires
        pure_arity(op) > 0,
    ensures
        r == pure_apply(op, a, b),
{
    let ia: i64 = #[verifier::truncate] (a as i64);
    let ib: i64 = #[verifier::truncate] (b as i64);
    if op == OP_U_INC {
        Ok(a.wrapping_add(1))
    } else if op == OP_U_DEC {
        Ok(a.wrapping_sub(1))
    } else if op == OP_I_INC {
        Ok(#[verifier::truncate] (ia.wrapping_add(1) as u64))
    } else if op == OP_I_DEC {
        Ok(#[verifier::truncate] (ia.wrapping_sub(1) as u64))
    } else if op == OP_NOT {
        Ok(slot_of(a != 1))
    } else if op == OP_U_ADD {
        Ok(a.wrapping_add(b))
    } else if op == OP_U_SUB {
        Ok(a.wrapping_sub(b))
    } else if op == OP_U_MUL {
        Ok(a.wrapping_mul(b))
    } else if op == OP_U_DIV {
        if b == 0 {
            Err(VmErrorKind::DivisionByZero)
        } else {
            Ok(a / b)
        }
    } else if op == OP_U_MOD {
        if b == 0 {
            Err(VmErrorKind::DivisionByZero)
        } else {
            Ok(a % b)
        }
    } else if op == OP_I_ADD {
        Ok(#[verifier::truncate] (ia.wrapping_add(ib) as u64))
    } else if op == OP_I_SUB {
        Ok(#[verifier::truncate] (ia.wrapping_sub(ib) as u64))
    } else if op == OP_I_MUL {
        Ok(#[verifier::truncate] (ia.wrapping_mul(ib) as u64))
    } else if op == OP_I_DIV {
        if ib == 0 {
            Err(VmErrorKind::DivisionByZero)
        } else {
            match ia.checked_div(ib) {
                Some(q) => Ok(#[verifier::truncate] (q as u64)),
                None => Err(VmErrorKind::Overflow),
            }
        }
    } else if op == OP_I_MOD {
        if ib == 0 {
            Err(VmErrorKind::DivisionByZero)
        } else {
            match ia.checked_rem(ib) {
                Some(q) => Ok(#[verifier::truncate] (q as u64)),
                None => Err(VmErrorKind::Overflow),
            }
        }
    } else if op == OP_U_EQ {
        Ok(slot_of(a == b))
    } else if op == OP_U_NEQ {
        Ok(slot_of(a != b))
    } else if op == OP_U_LT {
        Ok(slot_of(a < b))
    } else if op == OP_U_GT {
        Ok(slot_of(a > b))
    } else if op == OP_U_LTE {
        Ok(slot_of(a <= b))
    } else if op == OP_U_GTE {
        Ok(slot_of(a >= b))
    } else if op == OP_I_EQ {
        Ok(slot_of(ia == ib))
    } else if op == OP_I_NEQ {
        Ok(slot_of(ia != ib))
    } else if op == OP_I_LT {
        Ok(slot_of(ia < ib))
    } else if op == OP_I_GT {
        Ok(slot_of(ia > ib))
    } else if op == OP_I_LTE {
        Ok(slot_of(ia <= ib))
    } else if op == OP_I_GTE {
        Ok(slot_of(ia >= ib))
    } else if op == OP_AND {
        Ok(slot_of(a == 1 && b == 1))
    } else {
        Ok(slot_of(a == 1 || b == 1))
    }
}

} // verus!
