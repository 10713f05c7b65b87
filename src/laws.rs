//! Properties of the instruction semantics that hold across several
//! instructions.
use vstd::prelude::*;
use crate::hash::fnv1a_32;
use crate::heap::HeapModel;
use crate::opcodes::{
    OP_ARRAY_GET, OP_ARRAY_SET, OP_CALL, OP_CAST, OP_F_ADD, OP_LOAD_FIELD, OP_RET, OP_SET_FIELD, OP_STR_GET,
    TAG_INT, TAG_UNT,
};
use crate::semantics::{
    apply_spec, array_at, array_step, string_step, class_by_hash, field_pos, first_pos, object_at, step_spec, string_at,
    top, EffectModel, FloatOp, ProgramModel, VmErrorKind, VmModel,
};

verus! {

/// `m` with `v` pushed.
pub open spec fn with_pushed(m: VmModel, v: u64) -> VmModel {
    VmModel { stack: m.stack.push(v), ..m }
}

/// A `call` followed, after a body that leaves the operand stack, the
/// frames and the return addresses as the call left them, by `ret`: the
/// operand stack and the frame stack are as deep as before the call, and
/// control is back after the call with the caller's current object.
pub proof fn lemma_call_ret_balanced(p: ProgramModel, m: VmModel, body_end: VmModel)
    requires
        0 <= m.ip < p.ins.len(),
        p.ins[m.ip].op == OP_CALL,
        step_spec(p, m) is Ok,
        body_end.stack.len() == (step_spec(p, m)->Ok_0).0.stack.len(),
        body_end.frames.len() == (step_spec(p, m)->Ok_0).0.frames.len(),
        body_end.calls == (step_spec(p, m)->Ok_0).0.calls,
        0 <= body_end.ip < p.ins.len(),
        p.ins[body_end.ip].op == OP_RET,
    ensures
        step_spec(p, body_end) is Ok,
        (step_spec(p, body_end)->Ok_0).0.stack.len() == m.stack.len(),
        (step_spec(p, body_end)->Ok_0).0.frames.len() == m.frames.len(),
        (step_spec(p, body_end)->Ok_0).0.calls == m.calls,
        (step_spec(p, body_end)->Ok_0).0.this == m.this,
        (step_spec(p, body_end)->Ok_0).0.ip == m.ip + 1,
{
    reveal(step_spec);
    let m1 = (step_spec(p, m)->Ok_0).0;
    assert(m1.calls == m.calls.push((m.ip + 1, m.this)));
    assert(m1.calls.drop_last() =~= m.calls);
}

/// `f_add` hands the host the two slots exactly as they were pushed and
/// leaves the stack without them; the host's sum is what gets pushed back.
pub proof fn lemma_float_add_operands(p: ProgramModel, m: VmModel, a: u64, b: u64)
    ensures
        apply_spec(p, with_pushed(with_pushed(m, a), b), OP_F_ADD, seq![]) == Ok::<
            (VmModel, EffectModel),
            VmErrorKind,
        >((m, EffectModel::Float(FloatOp::Add, a, b))),
{
    let n = with_pushed(with_pushed(m, a), b);
    assert(top(n.stack, 0) == b && top(n.stack, 1) == a);
    assert(n.stack.subrange(0, n.stack.len() - 2) =~= m.stack);
}

/// `cast int unt` then `cast unt int` gives back the slot it started from,
/// whatever its 64 bits are.
pub proof fn lemma_cast_int_unt_round_trip(
    p: ProgramModel,
    m: VmModel,
    int_tag: Seq<u8>,
    unt_tag: Seq<u8>,
)
    requires
        m.stack.len() >= 1,
        fnv1a_32(int_tag) == TAG_INT,
        fnv1a_32(unt_tag) == TAG_UNT,
    ensures
        apply_spec(p, m, OP_CAST, seq![int_tag, unt_tag]) is Ok,
        ({
            let (m1, e1) = apply_spec(p, m, OP_CAST, seq![int_tag, unt_tag])->Ok_0;
            &&& e1 == EffectModel::Continue
            &&& apply_spec(p, m1, OP_CAST, seq![unt_tag, int_tag]) is Ok
            &&& (apply_spec(p, m1, OP_CAST, seq![unt_tag, int_tag])->Ok_0).0.stack == m.stack
        }),
{
    let m1 = (apply_spec(p, m, OP_CAST, seq![int_tag, unt_tag])->Ok_0).0;
    assert(m1.stack =~= m.stack);
    assert((apply_spec(p, m1, OP_CAST, seq![unt_tag, int_tag])->Ok_0).0.stack =~= m.stack);
}

/// On an array of length `n`, `array_get` and `array_set` at index `n` fail
/// with `OutOfBounds`; at index `n - 1` they succeed.
pub proof fn lemma_array_bounds(m: VmModel, id: u64, v: u64)
    requires
        array_at(m.heap, id) is Ok,
        (array_at(m.heap, id)->Ok_0).len() > 0,
        (array_at(m.heap, id)->Ok_0).len() < u64::MAX,
    ensures
        ({
            let n = (array_at(m.heap, id)->Ok_0).len() as u64;
            &&& array_step(with_pushed(with_pushed(m, n), id), OP_ARRAY_GET) == Err::<
                (VmModel, EffectModel),
                VmErrorKind,
            >(VmErrorKind::OutOfBounds)
            &&& array_step(with_pushed(with_pushed(with_pushed(m, v), n), id), OP_ARRAY_SET) == Err::<
                (VmModel, EffectModel),
                VmErrorKind,
            >(VmErrorKind::OutOfBounds)
            &&& array_step(with_pushed(with_pushed(m, (n - 1) as u64), id), OP_ARRAY_GET) is Ok
            &&& array_step(
                with_pushed(with_pushed(with_pushed(m, v), (n - 1) as u64), id),
                OP_ARRAY_SET,
            ) is Ok
        }),
{
    let n = (array_at(m.heap, id)->Ok_0).len() as u64;
    let g1 = with_pushed(with_pushed(m, n), id);
    let g2 = with_pushed(with_pushed(m, (n - 1) as u64), id);
    let s1 = with_pushed(with_pushed(with_pushed(m, v), n), id);
    let s2 = with_pushed(with_pushed(with_pushed(m, v), (n - 1) as u64), id);
    assert(top(g1.stack, 0) == id && top(g1.stack, 1) == n);
    assert(top(g2.stack, 0) == id && top(g2.stack, 1) == (n - 1) as u64);
    assert(top(s1.stack, 0) == id && top(s1.stack, 1) == n && top(s1.stack, 2) == v);
    assert(top(s2.stack, 0) == id && top(s2.stack, 1) == (n - 1) as u64 && top(s2.stack, 2) == v);
}

/// On a string of `n` bytes, `str_get` at index `n` fails with
/// `OutOfBounds`; at index `n - 1` it succeeds.
pub proof fn lemma_string_bounds(m: VmModel, id: u64)
    requires
        string_at(m.heap, id) is Ok,
        (string_at(m.heap, id)->Ok_0).len() > 0,
        (string_at(m.heap, id)->Ok_0).len() < u64::MAX,
    ensures
        ({
            let n = (string_at(m.heap, id)->Ok_0).len() as u64;
            &&& string_step(with_pushed(with_pushed(m, n), id), OP_STR_GET) == Err::<
                (VmModel, EffectModel),
                VmErrorKind,
            >(VmErrorKind::OutOfBounds)
            &&& string_step(with_pushed(with_pushed(m, (n - 1) as u64), id), OP_STR_GET) is Ok
        }),
{
    let n = (string_at(m.heap, id)->Ok_0).len() as u64;
    let g1 = with_pushed(with_pushed(m, n), id);
    let g2 = with_pushed(with_pushed(m, (n - 1) as u64), id);
    assert(top(g1.stack, 0) == id && top(g1.stack, 1) == n);
    assert(top(g2.stack, 0) == id && top(g2.stack, 1) == (n - 1) as u64);
}

proof fn lemma_first_pos_bounds(keys: Seq<Seq<u8>>, name: Seq<u8>)
    ensures
        first_pos(keys, name) is Some ==> 0 <= first_pos(keys, name)->Some_0 < keys.len(),
    decreases keys.len(),
{
    if keys.len() > 0 {
        lemma_first_pos_bounds(keys.drop_last(), name);
    }
}

/// On an object whose field slots match its class's fields (as `new` makes
/// it), `set_field f v` then `load_field f` pushes `v`; a name that is not a
/// field of the class fails with `UndefinedField`.
pub proof fn lemma_field_round_trip(p: ProgramModel, m: VmModel, id: u64, name: Seq<u8>, v: u64)
    requires
        object_at(m.heap, id) is Ok,
        class_by_hash(m.classes, (object_at(m.heap, id)->Ok_0).0) is Some,
        (object_at(m.heap, id)->Ok_0).1.len() == m.classes[class_by_hash(
            m.classes,
            (object_at(m.heap, id)->Ok_0).0,
        )->Some_0].fields.len(),
    ensures
        ({
            let ci = class_by_hash(m.classes, (object_at(m.heap, id)->Ok_0).0)->Some_0;
            let set = apply_spec(p, with_pushed(with_pushed(m, v), id), OP_SET_FIELD, seq![name]);
            if field_pos(m.classes[ci].fields, name) is Some {
                &&& set is Ok
                &&& apply_spec(p, with_pushed((set->Ok_0).0, id), OP_LOAD_FIELD, seq![name]) is Ok
                &&& top(
                    (apply_spec(p, with_pushed((set->Ok_0).0, id), OP_LOAD_FIELD, seq![name])->Ok_0).0.stack,
                    0,
                ) == v
            } else {
                set == Err::<(VmModel, EffectModel), VmErrorKind>(VmErrorKind::UndefinedField)
            }
        }),
{
    let ci = class_by_hash(m.classes, (object_at(m.heap, id)->Ok_0).0)->Some_0;
    lemma_first_pos_bounds(m.classes[ci].fields, name);
    let set = apply_spec(p, with_pushed(with_pushed(m, v), id), OP_SET_FIELD, seq![name]);
    if field_pos(m.classes[ci].fields, name) is Some {
        let m2 = (set->Ok_0).0;
        let (c, f) = object_at(m.heap, id)->Ok_0;
        let k = field_pos(m.classes[ci].fields, name)->Some_0;
        assert(m2.heap[id - 1] == Some(HeapModel::Object(c, f.update(k, v))));
        assert(object_at(m2.heap, id) == Ok::<(u64, Seq<u64>), VmErrorKind>((c, f.update(k, v))));
        assert(m2.classes == m.classes);
    }
}

} // verus!
