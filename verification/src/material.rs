//! Material deduplication: a quantized color key resolves to a stable
//! material index, assigned in first-seen order.

use vstd::prelude::*;

verus! {

/// A quantized material key: the three color channel bytes and the alpha
/// byte derived from the opacity complement.
#[derive(Clone, Copy, PartialEq, Eq, Structural, Debug)]
pub struct ColorKey {
    pub r: u8,
    pub g: u8,
    pub b: u8,
    pub a: u8,
}

/// `k` was registered in `keys`.
pub open spec fn has_key(keys: Seq<ColorKey>, k: ColorKey) -> bool {
    exists|i: int| 0 <= i < keys.len() && keys[i] == k
}

/// The first position of `k` in `keys`.
pub open spec fn key_index(keys: Seq<ColorKey>, k: ColorKey) -> int
    decreases keys.len(),
{
    if keys.len() == 0 {
        0
    } else if keys[0] == k {
        0
    } else {
        1 + key_index(keys.drop_first(), k)
    }
}

/// The key list after registering `k`: unchanged if already present, else
/// extended by `k`.
pub open spec fn push_key(keys: Seq<ColorKey>, k: ColorKey) -> Seq<ColorKey> {
    if has_key(keys, k) {
        keys
    } else {
        keys.push(k)
    }
}

/// The material index that registering `k` resolves to: its first-seen
/// position if present, else the next fresh index.
pub open spec fn assign_index(keys: Seq<ColorKey>, k: ColorKey) -> int {
    if has_key(keys, k) {
        key_index(keys, k)
    } else {
        keys.len() as int
    }
}

/// A registered key's first position is a real position holding that key.
pub proof fn lemma_key_index_props(keys: Seq<ColorKey>, k: ColorKey)
    requires
        has_key(keys, k),
    ensures
        0 <= key_index(keys, k) < keys.len(),
        keys[key_index(keys, k)] == k,
    decreases keys.len(),
{
    if keys[0] == k {
    } else {
        let tail = keys.drop_first();
        let i = choose|i: int| 0 <= i < keys.len() && keys[i] == k;
        assert(tail[i - 1] == k);
        lemma_key_index_props(tail, k);
    }
}

/// If the first `i` positions miss `k` and position `i` holds it, then `i`
/// is the first position of `k`.
pub proof fn lemma_key_index_at(keys: Seq<ColorKey>, k: ColorKey, i: int)
    requires
        0 <= i < keys.len(),
        keys[i] == k,
        forall|j: int| 0 <= j < i ==> keys[j] != k,
    ensures
        has_key(keys, k),
        key_index(keys, k) == i,
    decreases i,
{
    if i == 0 {
    } else {
        let tail = keys.drop_first();
        assert(tail[i - 1] == k);
        assert forall|j: int| 0 <= j < i - 1 implies tail[j] != k by {
            assert(tail[j] == keys[j + 1]);
        }
        lemma_key_index_at(tail, k, i - 1);
    }
}

/// Law: the material identity is a function of the quantized key alone. Two
/// registered keys resolve to the same material index exactly when they are
/// the same `(R, G, B, A)` quadruple.
pub proof fn lemma_material_identity(keys: Seq<ColorKey>, k1: ColorKey, k2: ColorKey)
    requires
        has_key(keys, k1),
        has_key(keys, k2),
    ensures
        (k1 == k2) <==> (key_index(keys, k1) == key_index(keys, k2)),
{
    lemma_key_index_props(keys, k1);
    lemma_key_index_props(keys, k2);
}

/// The table of materials seen so far, in first-seen order. The index of a
/// key in `keys` is its material index; the caller derives the material
/// name from that index.
pub struct MaterialTable {
    pub keys: Vec<ColorKey>,
}

impl MaterialTable {
    /// No key is registered twice.
    pub open spec fn wf(self) -> bool {
        forall|i: int, j: int|
            #![trigger self.keys@[i], self.keys@[j]]
            0 <= i < j < self.keys@.len() ==> self.keys@[i] != self.keys@[j]
    }

    /// An empty table.
    pub fn new() -> (t: MaterialTable)
        ensures
            t.wf(),
            t.keys@ == Seq::<ColorKey>::empty(),
    {
        MaterialTable { keys: Vec::new() }
    }

    /// Resolves the material index for `k`: the position it was first seen
    /// at, registering it at the next fresh index on first encounter.
    pub fn material_for(&mut self, k: ColorKey) -> (idx: usize)
        requires
            old(self).wf(),
        ensures
            final(self).wf(),
            final(self).keys@ == push_key(old(self).keys@, k),
            idx == assign_index(old(self).keys@, k),
            idx < final(self).keys@.len(),
            final(self).keys@[idx as int] == k,
    {
        let ghost keys0 = self.keys@;
        let mut i: usize = 0;
        while i < self.keys.len()
            invariant
                i <= self.keys@.len(),
                self.keys@ == keys0,
                keys0 == old(self).keys@,
                old(self).wf(),
                forall|j: int| 0 <= j < i ==> self.keys@[j] != k,
            decreases self.keys@.len() - i,
        {
            let e = self.keys[i];
            if e.r == k.r && e.g == k.g && e.b == k.b && e.a == k.a {
                proof {
                    assert(keys0[i as int] == k);
                    lemma_key_index_at(keys0, k, i as int);
                    assert(push_key(keys0, k) =~= keys0);
                }
                return i;
            }
            i = i + 1;
        }
        proof {
            assert(!has_key(keys0, k));
        }
        let idx = self.keys.len();
        self.keys.push(k);
        idx
    }
}

} // verus!
