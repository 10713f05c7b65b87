//! The typed heap: numbers, strings, arrays and objects under monotonically
//! increasing 64-bit IDs. ID `k` names `entries[k - 1]`; a freed entry stays
//! `None`, so IDs are never reused.
use vstd::prelude::*;

verus! {

/// Longest array that `new_array` and `str_bytes` make.
pub const MAX_ARRAY_LEN: u64 = 2147483647;

/// The kind tag of a heap entry.
#[derive(Debug, Clone, Copy, PartialEq, Eq, Structural)]
pub enum HeapKind {
    Num,
    Str,
    Array,
    Object,
}

/// The contents of a heap entry, by kind. A string holds its UTF-8 payload,
/// an array its elements, an object its class hash and its field slots.
#[derive(Debug, Clone)]
pub enum HeapValue {
    Num(u64),
    Str(Vec<u8>),
    Array(Vec<u64>),
    Object { class_hash: u64, fields: Vec<u64> },
}

/// A heap entry as values.
pub enum HeapModel {
    Num(u64),
    Str(Seq<u8>),
    Array(Seq<u64>),
    Object(u64, Seq<u64>),
}

impl View for HeapValue {
    type V = HeapModel;

    open spec fn view(&self) -> HeapModel {
        match self {
            HeapValue::Num(v) => HeapModel::Num(*v),
            HeapValue::Str(b) => HeapModel::Str(b@),
            HeapValue::Array(a) => HeapModel::Array(a@),
            HeapValue::Object { class_hash, fields } => HeapModel::Object(*class_hash, fields@),
        }
    }
}

impl HeapModel {
    pub open spec fn kind(self) -> HeapKind {
        match self {
            HeapModel::Num(_) => HeapKind::Num,
            HeapModel::Str(_) => HeapKind::Str,
            HeapModel::Array(_) => HeapKind::Array,
            HeapModel::Object(_, _) => HeapKind::Object,
        }
    }
}

impl HeapValue {
    pub fn kind(&self) -> (k: HeapKind)
        ensures
            k == self@.kind(),
    {
        match self {
            HeapValue::Num(_) => HeapKind::Num,
            HeapValue::Str(_) => HeapKind::Str,
            HeapValue::Array(_) => HeapKind::Array,
            HeapValue::Object { .. } => HeapKind::Object,
        }
    }

    /// A copy with the same contents.
    pub fn deep_clone(&self) -> (r: HeapValue)
        ensures
            r@ == self@,
    {
        match self {
            HeapValue::Num(v) => HeapValue::Num(*v),
            HeapValue::Str(b) => HeapValue::Str(copy_bytes(b)),
            HeapValue::Array(a) => HeapValue::Array(copy_slots(a)),
            HeapValue::Object { class_hash, fields } => HeapValue::Object {
                class_hash: *class_hash,
                fields: copy_slots(fields),
            },
        }
    }
}

pub fn copy_bytes(v: &Vec<u8>) -> (r: Vec<u8>)
    ensures
        r@ == v@,
{
    let mut r: Vec<u8> = Vec::new();
    let mut i: usize = 0;
    while i < v.len()
        invariant
            i <= v@.len(),
            r@ == v@.subrange(0, i as int),
        decreases v@.len() - i,
    {
        r.push(v[i]);
        i = i + 1;
    }
    assert(v@.subrange(0, i as int) =~= v@);
    r
}

pub fn copy_slots(v: &Vec<u64>) -> (r: Vec<u64>)
    ensures
        r@ == v@,
{
    let mut r: Vec<u64> = Vec::new();
    let mut i: usize = 0;
    while i < v.len()
        invariant
            i <= v@.len(),
            r@ == v@.subrange(0, i as int),
        decreases v@.len() - i,
    {
        r.push(v[i]);
        i = i + 1;
    }
    assert(v@.subrange(0, i as int) =~= v@);
    r
}

/// `n` zero slots.
pub fn zero_slots(n: usize) -> (r: Vec<u64>)
    ensures
        r@ == Seq::new(n as nat, |i: int| 0u64),
{
    let mut r: Vec<u64> = Vec::new();
    let mut i: usize = 0;
    while i < n
        invariant
            i <= n,
            r@ == Seq::new(i as nat, |k: int| 0u64),
        decreases n - i,
    {
        r.push(0);
        i = i + 1;
        assert(r@ =~= Seq::new(i as nat, |k: int| 0u64));
    }
    r
}

/// The heap's entries as values.
pub open spec fn entries_view(e: Seq<Option<HeapValue>>) -> Seq<Option<HeapModel>> {
    e.map_values(
        |o: Option<HeapValue>|
            match o {
                Some(v) => Some(v@),
                None => None,
            },
    )
}

/// Whether `id` names a live entry.
pub open spec fn is_live(h: Seq<Option<HeapModel>>, id: u64) -> bool {
    1 <= id <= h.len() && h[id - 1] is Some
}

/// The live entry that `id` names.
pub open spec fn entry_at(h: Seq<Option<HeapModel>>, id: u64) -> HeapModel {
    h[id - 1]->Some_0
}

/// One allocation: the entry goes at the end and its ID is the new length.
pub open spec fn alloc_step(h: Seq<Option<HeapModel>>, v: HeapModel) -> (Seq<Option<HeapModel>>, u64) {
    (h.push(Some(v)), (h.len() + 1) as u64)
}

/// The IDs that a run of allocations hands out, one after another.
pub open spec fn alloc_ids(h: Seq<Option<HeapModel>>, vals: Seq<HeapModel>) -> Seq<u64>
    decreases vals.len(),
{
    if vals.len() == 0 {
        Seq::empty()
    } else {
        let (h2, id) = alloc_step(h, vals[0]);
        seq![id] + alloc_ids(h2, vals.drop_first())
    }
}

proof fn lemma_alloc_ids_from(h: Seq<Option<HeapModel>>, vals: Seq<HeapModel>)
    requires
        h.len() + vals.len() < u64::MAX,
    ensures
        alloc_ids(h, vals).len() == vals.len(),
        forall|k: int| 0 <= k < vals.len() ==> alloc_ids(h, vals)[k] == h.len() + k + 1,
    decreases vals.len(),
{
    if vals.len() > 0 {
        let (h2, id) = alloc_step(h, vals[0]);
        lemma_alloc_ids_from(h2, vals.drop_first());
        assert forall|k: int| 0 <= k < vals.len() implies alloc_ids(h, vals)[k] == h.len() + k + 1 by {
            if k > 0 {
                assert(alloc_ids(h, vals)[k] == alloc_ids(h2, vals.drop_first())[k - 1]);
            }
        }
    }
}

/// IDs are handed out in order from 1: after `N` allocations on an empty heap
/// with no frees, the `k`-th ID is `k`, so the largest is `N`.
pub proof fn lemma_monotone_ids(vals: Seq<HeapModel>)
    requires
        vals.len() < u64::MAX,
    ensures
        alloc_ids(Seq::empty(), vals).len() == vals.len(),
        forall|k: int| 0 <= k < vals.len() ==> alloc_ids(Seq::empty(), vals)[k] == k + 1,
        vals.len() > 0 ==> alloc_ids(Seq::empty(), vals).last() == vals.len(),
{
    lemma_alloc_ids_from(Seq::empty(), vals);
}

/// The heap: entry `k - 1` holds the entry of ID `k`, or `None` once freed.
#[derive(Debug)]
pub struct Heap {
    pub entries: Vec<Option<HeapValue>>,
}

impl View for Heap {
    type V = Seq<Option<HeapModel>>;

    open spec fn view(&self) -> Seq<Option<HeapModel>> {
        entries_view(self.entries@)
    }
}

impl Heap {
    pub fn new() -> (h: Heap)
        ensures
            h@ == Seq::<Option<HeapModel>>::empty(),
    {
        let h = Heap { entries: Vec::new() };
        assert(h@ =~= Seq::<Option<HeapModel>>::empty());
        h
    }

    /// The ID that the next allocation gets.
    pub fn next_id(&self) -> (id: u64)
        requires
            self@.len() < u64::MAX,
        ensures
            id == self@.len() + 1,
    {
        self.entries.len() as u64 + 1
    }

    /// Whether there is room for one more ID.
    pub fn can_alloc(&self) -> (r: bool)
        ensures
            r == (self@.len() + 1 < u64::MAX),
    {
        (self.entries.len() as u64) < u64::MAX - 1
    }

    /// Stores `v` under the next ID and returns that ID.
    pub fn allocate(&mut self, v: HeapValue) -> (id: u64)
        requires
            old(self)@.len() + 1 < u64::MAX,
        ensures
            (final(self)@, id) == alloc_step(old(self)@, v@),
    {
        let id = self.entries.len() as u64 + 1;
        self.entries.push(Some(v));
        assert(self@ =~= old(self)@.push(Some(v@)));
        id
    }

    /// The live entry named `id`, if there is one.
    pub fn get(&self, id: u64) -> (r: Option<&HeapValue>)
        ensures
            match r {
                Some(v) => is_live(self@, id) && v@ == entry_at(self@, id),
                None => !is_live(self@, id),
            },
    {
        if id == 0 || id > self.entries.len() as u64 {
            return None;
        }
        let i = (id - 1) as usize;
        match &self.entries[i] {
            Some(v) => {
                assert(self@[i as int] == Some(v@));
                Some(v)
            },
            None => {
                assert(self@[i as int] is None);
                None
            },
        }
    }

    /// Stores `v` as the entry of `id`.
    pub fn put(&mut self, id: u64, v: HeapValue)
        requires
            1 <= id <= old(self)@.len(),
        ensures
            final(self)@ == old(self)@.update(id - 1, Some(v@)),
    {
        let n = self.entries.len();
        assert(n == self@.len());
        let ghost pre_view = self@;
        let i = (id - 1) as usize;
        let ghost vv = v@;
        let ghost pre = self.entries@;
        self.entries.set(i, Some(v));
        assert(self.entries@[i as int] is Some && self.entries@[i as int]->Some_0@ == vv);
        assert(self@[i as int] == Some(vv));
        assert forall|k: int| 0 <= k < self@.len() && k != i implies self@[k] == pre_view[k] by {
            assert(self.entries@[k] == pre[k]);
        }
        assert(self@ =~= pre_view.update(id - 1, Some(vv)));
    }

    /// Takes the live entry `id` out, to be put back with `put`.
    pub fn take(&mut self, id: u64) -> (v: HeapValue)
        requires
            is_live(old(self)@, id),
        ensures
            v@ == entry_at(old(self)@, id),
            final(self)@ == old(self)@.update(id - 1, None),
    {
        let n = self.entries.len();
        assert(n == self@.len());
        let ghost pre_view = self@;
        let ghost pre = self.entries@;
        let i = (id - 1) as usize;
        let taken = self.entries[i].take();
        assert(pre[i as int] is Some);
        assert forall|k: int| 0 <= k < self@.len() && k != i implies self@[k] == pre_view[k] by {
            assert(self.entries@[k] == pre[k]);
        }
        assert(self@ =~= pre_view.update(id - 1, None));
        taken.unwrap()
    }

    /// Ends the life of entry `id`; `false` when `id` names no live entry.
    pub fn free(&mut self, id: u64) -> (r: bool)
        ensures
            r == is_live(old(self)@, id),
            r ==> final(self)@ == old(self)@.update(id - 1, None),
            !r ==> final(self)@ == old(self)@,
    {
        if id == 0 || id > self.entries.len() as u64 {
            return false;
        }
        let i = (id - 1) as usize;
        if self.entries[i].is_none() {
            assert(self@[i as int] is None);
            return false;
        }
        assert(self@[i as int] is Some);
        self.entries.set(i, None);
        assert(self@ =~= old(self)@.update(id - 1, None));
        true
    }
}

} // verus!
