//! Small association lists keyed by byte strings, searched front to back.
use vstd::prelude::*;

verus! {

/// Byte-wise equality.
pub fn bytes_eq(a: &[u8], b: &[u8]) -> (r: bool)
    ensures
        r == (a@ == b@),
{
    if a.len() != b.len() {
        return false;
    }
    let mut i: usize = 0;
    while i < a.len()
        invariant
            a@.len() == b@.len(),
            i <= a@.len(),
            forall|j: int| 0 <= j < i ==> a@[j] == b@[j],
        decreases a@.len() - i,
    {
        if a[i] != b[i] {
            return false;
        }
        i = i + 1;
    }
    assert(a@ =~= b@);
    true
}

/// The keys of an association list.
pub open spec fn keys_of<V>(t: Seq<(Vec<u8>, V)>) -> Seq<Seq<u8>> {
    t.map_values(|e: (Vec<u8>, V)| e.0@)
}

/// Whether `name` is a key of `t`.
pub open spec fn has_key(t: Seq<Seq<u8>>, name: Seq<u8>) -> bool {
    exists|j: int| 0 <= j < t.len() && t[j] == name
}

/// The position of the first entry of `t` whose key is `name`.
pub fn position_of<V>(t: &Vec<(Vec<u8>, V)>, name: &[u8]) -> (r: Option<usize>)
    ensures
        match r {
            Some(j) => j < t@.len() && t@[j as int].0@ == name@ && forall|k: int|
                0 <= k < j ==> t@[k].0@ != name@,
            None => !has_key(keys_of(t@), name@),
        },
{
    let mut i: usize = 0;
    while i < t.len()
        invariant
            i <= t@.len(),
            forall|k: int| 0 <= k < i ==> t@[k].0@ != name@,
        decreases t@.len() - i,
    {
        if bytes_eq(t[i].0.as_slice(), name) {
            return Some(i);
        }
        i = i + 1;
    }
    assert forall|j: int| 0 <= j < keys_of(t@).len() implies keys_of(t@)[j] != name@ by {
        assert(keys_of(t@)[j] == t@[j].0@);
    }
    None
}

} // verus!
