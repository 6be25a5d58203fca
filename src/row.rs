use crate::schema::{OmGroup, OmMeta, OmType, SlotClass, can_resolve, resolve_post, slot_of};
use bit_vec::BitVec;
use vstd::prelude::*;

verus! {

broadcast use vstd::std_specs::btree::group_btree_axioms;

#[verifier::external_type_specification]
#[verifier::external_body]
#[verifier::reject_recursive_types(B)]
pub struct ExBitVec<B>(BitVec<B>);

/// The bits a `BitVec` holds, in order.
pub uninterp spec fn bits_of(v: BitVec) -> Seq<bool>;

/// Relies on `bit_vec::BitVec::from_elem`: `nbits` bits, each equal to `bit`.
#[verifier::external_body]
fn bits_from_elem(nbits: usize, bit: bool) -> (r: BitVec)
    ensures
        bits_of(r) == Seq::new(nbits as nat, |i: int| bit),
{
    BitVec::from_elem(nbits, bit)
}

/// Relies on `bit_vec::BitVec::len`: the number of bits held.
#[verifier::external_body]
fn bits_len(v: &BitVec) -> (r: usize)
    ensures
        r == bits_of(*v).len(),
{
    v.len()
}

/// Relies on `bit_vec::BitVec::get`: the bit at `i`, or `None` past the end.
#[verifier::external_body]
fn bits_get(v: &BitVec, i: usize) -> (r: Option<bool>)
    ensures
        r == if i < bits_of(*v).len() {
            Some(bits_of(*v)[i as int])
        } else {
            None
        },
{
    v.get(i)
}

/// Relies on `bit_vec::BitVec::set`: changes the bit at `i`, which must exist (it panics
/// otherwise).
#[verifier::external_body]
fn bits_set(v: &mut BitVec, i: usize, x: bool)
    requires
        i < bits_of(*old(v)).len(),
    ensures
        bits_of(*final(v)) == bits_of(*old(v)).update(i as int, x),
{
    v.set(i, x)
}

/// Relies on `bit_vec::BitVec::grow`: appends `n` copies of `value`; it panics where the new
/// length overflows.
#[verifier::external_body]
fn bits_grow(v: &mut BitVec, n: usize, value: bool)
    requires
        bits_of(*old(v)).len() + n <= usize::MAX,
    ensures
        bits_of(*final(v)) == bits_of(*old(v)) + Seq::new(n as nat, |i: int| value),
{
    v.grow(n, value)
}

/// Cells a value array gains beyond the slot that made it grow.
pub const RESIZE_INC: usize = 8;

/// The null bits grow in blocks of this many.
pub const NULL_BLOCK: usize = 32;

/// Slots below this can be written; the headroom lets the storage grow past the slot.
pub const SLOT_LIMIT: usize = usize::MAX - 64;

/// A value read from a row.
#[derive(Debug, Clone, PartialEq)]
pub enum OmValue {
    NoMeta,
    NULL,
    U32(u32),
    /// A 64-bit float, as its IEEE-754 bit pattern.
    F64(u64),
    String(String),
}

/// A write refused because the slot already holds a value.
#[derive(Debug, Clone, Copy, PartialEq, Eq, Structural)]
pub enum ClutchError {
    DuplicateU32 { id: u32, val: u32 },
    /// The value is the bit pattern of the float that was refused.
    DuplicateF64 { id: u32, bits: u64 },
}

/// One row: a dense array of 32-bit cells and one of 64-bit cells, with a null bit per slot
/// telling whether the slot holds a value. Its methods keep it well formed (`wf`).
#[derive(Debug)]
pub struct ClutchData {
    om_null32: BitVec,
    om_null64: BitVec,
    om32: Vec<u32>,
    om64: Vec<u64>,
    om_str: Vec<(u32, String)>,
}

/// What writing `id` needs of its group: a fixed-width kind, room for a new slot, and a slot
/// below the limit.
pub open spec fn can_write(g: OmGroup, id: u32, kind: OmType) -> bool {
    &&& can_resolve(g, kind)
    &&& slot_of(g, id, kind) < SLOT_LIMIT
}

/// Whether `id` can be written as `kind` through `group`, as `can_write` says.
pub fn is_writable(group: &OmGroup, id: u32, kind: &OmType) -> (r: bool)
    ensures
        r == can_write(*group, id, *kind),
{
    let class = kind.class();
    if class == SlotClass::Text || group.om32_slots == usize::MAX || group.om64_slots
        == usize::MAX {
        return false;
    }
    let slot = match group.om_map.get(&id) {
        Some(meta) => meta.slot,
        None => if class == SlotClass::Bits32 {
            group.om32_slots
        } else {
            group.om64_slots
        },
    };
    slot < SLOT_LIMIT
}

/// The value that reading `meta` from `row` gives.
pub open spec fn value_of(row: ClutchData, meta: OmMeta) -> OmValue {
    if meta.kind == OmType::TypeU32 {
        match row.value32(meta.slot as int) {
            Some(v) => OmValue::U32(v),
            None => OmValue::NULL,
        }
    } else {
        match row.value64(meta.slot as int) {
            Some(v) => OmValue::F64(v),
            None => OmValue::NULL,
        }
    }
}

/// `post` is `pre` with 32-bit slot `s` holding `val`, and nothing else changed.
pub open spec fn wrote32(pre: ClutchData, post: ClutchData, s: int, val: u32) -> bool {
    &&& post.value32(s) == Some(val)
    &&& forall|t: int| t != s ==> #[trigger] post.value32(t) == pre.value32(t)
    &&& forall|t: int| #[trigger] post.value64(t) == pre.value64(t)
}

/// `post` is `pre` with 64-bit slot `s` holding `val`, and nothing else changed.
pub open spec fn wrote64(pre: ClutchData, post: ClutchData, s: int, val: u64) -> bool {
    &&& post.value64(s) == Some(val)
    &&& forall|t: int| t != s ==> #[trigger] post.value64(t) == pre.value64(t)
    &&& forall|t: int| #[trigger] post.value32(t) == pre.value32(t)
}

/// The length of a cell array of length `len` after slot `slot` is written: kept where the slot
/// has a cell, else grown in one batch to `slot + RESIZE_INC`.
pub open spec fn grown_len(len: nat, slot: int) -> nat {
    if slot < len {
        len
    } else {
        (slot + RESIZE_INC) as nat
    }
}

/// What `add_om_u32(overwrite, group, id, val)` does, from row `pre` and group `g0` to row
/// `post` and group `g1` with result `r`: the group resolves `id` as a `u32`; where its slot holds
/// a value and `overwrite` is false the write is refused with the id and value and the row stays
/// as it was; otherwise the slot holds `val` and nothing else changes.
pub open spec fn add_u32_post(
    pre: ClutchData,
    post: ClutchData,
    g0: OmGroup,
    g1: OmGroup,
    overwrite: bool,
    id: u32,
    val: u32,
    r: Result<(), ClutchError>,
) -> bool {
    let s = slot_of(g0, id, OmType::TypeU32) as int;
    &&& resolve_post(g0, g1, id, OmType::TypeU32)
    &&& (r is Err) == (!overwrite && pre.value32(s) is Some)
    &&& r is Err ==> r == Err::<(), ClutchError>(ClutchError::DuplicateU32 { id, val }) && post
        == pre
    &&& r is Ok ==> wrote32(pre, post, s, val)
    &&& r is Ok ==> post.cells32_len() == grown_len(pre.cells32_len(), s) && post.cells64_len()
        == pre.cells64_len()
}

/// What `add_om_f64(overwrite, group, id, val)` does, as `add_u32_post` says for `u32` values,
/// on the 64-bit cells.
pub open spec fn add_f64_post(
    pre: ClutchData,
    post: ClutchData,
    g0: OmGroup,
    g1: OmGroup,
    overwrite: bool,
    id: u32,
    val: u64,
    r: Result<(), ClutchError>,
) -> bool {
    let s = slot_of(g0, id, OmType::TypeF64) as int;
    &&& resolve_post(g0, g1, id, OmType::TypeF64)
    &&& (r is Err) == (!overwrite && pre.value64(s) is Some)
    &&& r is Err ==> r == Err::<(), ClutchError>(ClutchError::DuplicateF64 { id, bits: val })
        && post == pre
    &&& r is Ok ==> wrote64(pre, post, s, val)
    &&& r is Ok ==> post.cells64_len() == grown_len(pre.cells64_len(), s) && post.cells32_len()
        == pre.cells32_len()
}

impl ClutchData {
    /// Every populated slot has a cell.
    pub closed spec fn wf(&self) -> bool {
        &&& forall|s: int|
            0 <= s < bits_of(self.om_null32).len() && #[trigger] bits_of(self.om_null32)[s]
                ==> s < self.om32@.len()
        &&& forall|s: int|
            0 <= s < bits_of(self.om_null64).len() && #[trigger] bits_of(self.om_null64)[s]
                ==> s < self.om64@.len()
    }

    /// Whether 32-bit slot `s` holds a value.
    pub closed spec fn is_set32(&self, s: int) -> bool {
        0 <= s < bits_of(self.om_null32).len() && bits_of(self.om_null32)[s]
    }

    /// Whether 64-bit slot `s` holds a value.
    pub closed spec fn is_set64(&self, s: int) -> bool {
        0 <= s < bits_of(self.om_null64).len() && bits_of(self.om_null64)[s]
    }

    /// The value of 32-bit slot `s`, if it holds one.
    pub closed spec fn value32(&self, s: int) -> Option<u32> {
        if self.is_set32(s) {
            Some(self.om32@[s])
        } else {
            None
        }
    }

    /// The value of 64-bit slot `s`, if it holds one.
    pub closed spec fn value64(&self, s: int) -> Option<u64> {
        if self.is_set64(s) {
            Some(self.om64@[s])
        } else {
            None
        }
    }

    /// Number of 32-bit slots that have a null bit.
    pub closed spec fn null32_len(&self) -> nat {
        bits_of(self.om_null32).len()
    }

    /// Number of 64-bit slots that have a null bit.
    pub closed spec fn null64_len(&self) -> nat {
        bits_of(self.om_null64).len()
    }

    /// Number of 32-bit cells.
    pub closed spec fn cells32_len(&self) -> nat {
        self.om32@.len()
    }

    /// Number of 64-bit cells.
    pub closed spec fn cells64_len(&self) -> nat {
        self.om64@.len()
    }

    /// Whether the row holds no value: what a new row is.
    pub open spec fn is_blank(&self) -> bool {
        &&& forall|s: int| #[trigger] self.value32(s) is None
        &&& forall|s: int| #[trigger] self.value64(s) is None
    }

    /// An empty row with null bits for `om32_size` 32-bit and `om64_size` 64-bit slots, and
    /// at least `RESIZE_INC` cells of each width.
    pub fn new(om32_size: usize, om64_size: usize) -> (r: Self)
        ensures
            r.wf(),
            r.is_blank(),
            r.null32_len() == om32_size,
            r.null64_len() == om64_size,
            r.cells32_len() == if om32_size < RESIZE_INC {
                RESIZE_INC
            } else {
                om32_size
            },
            r.cells64_len() == if om64_size < RESIZE_INC {
                RESIZE_INC
            } else {
                om64_size
            },
    {
        let om32 = if om32_size < RESIZE_INC {
            RESIZE_INC
        } else {
            om32_size
        };
        let om64 = if om64_size < RESIZE_INC {
            RESIZE_INC
        } else {
            om64_size
        };
        let r = ClutchData {
            om_null32: bits_from_elem(om32_size, false),
            om_null64: bits_from_elem(om64_size, false),
            om32: vec![0u32; om32],
            om64: vec![0u64; om64],
            om_str: Vec::new(),
        };
        proof {
            assert forall|s: int| #[trigger] r.value32(s) is None by {}
            assert forall|s: int| #[trigger] r.value64(s) is None by {}
        }
        r
    }

    /// Whether 32-bit slot `slot` holds a value.
    pub fn is_32_set(&self, slot: usize) -> (r: bool)
        ensures
            r == self.is_set32(slot as int),
            r == (self.value32(slot as int) is Some),
    {
        match bits_get(&self.om_null32, slot) {
            None => false,
            Some(b) => b,
        }
    }

    /// Whether 64-bit slot `slot` holds a value.
    pub fn is_64_set(&self, slot: usize) -> (r: bool)
        ensures
            r == self.is_set64(slot as int),
            r == (self.value64(slot as int) is Some),
    {
        match bits_get(&self.om_null64, slot) {
            None => false,
            Some(b) => b,
        }
    }

    /// Number of 32-bit cells; it grows when a write reaches past it.
    pub fn om32_len(&self) -> (r: usize)
        ensures
            r == self.cells32_len(),
    {
        self.om32.len()
    }

    /// Number of 64-bit cells; it grows when a write reaches past it.
    pub fn om64_len(&self) -> (r: usize)
        ensures
            r == self.cells64_len(),
    {
        self.om64.len()
    }

    /// Marks 32-bit slot `slot` populated, first growing the null bits to the next block and the
    /// cells to `slot + RESIZE_INC` where they are too short. The other slots keep their values.
    pub fn set_32(&mut self, slot: usize)
        requires
            old(self).wf(),
            slot < SLOT_LIMIT,
        ensures
            final(self).wf(),
            final(self).is_set32(slot as int),
            forall|t: int| t != slot ==> #[trigger] final(self).value32(t) == old(self).value32(t),
            old(self).is_set32(slot as int) ==> final(self).value32(slot as int) == old(
                self,
            ).value32(slot as int),
            forall|t: int| #[trigger] final(self).value64(t) == old(self).value64(t),
            final(self).cells32_len() == grown_len(old(self).cells32_len(), slot as int),
            final(self).cells64_len() == old(self).cells64_len(),
    {
        let ghost bits0 = bits_of(self.om_null32);
        if self.om32.len() <= slot {
            self.om32.resize(slot + RESIZE_INC, 0);
        }
        let ghost cells1 = self.om32@;
        let len = bits_len(&self.om_null32);
        if len <= slot {
            let target = (slot / NULL_BLOCK + 1) * NULL_BLOCK;
            bits_grow(&mut self.om_null32, target - len, false);
        }
        let ghost bits1 = bits_of(self.om_null32);
        assert(forall|t: int| 0 <= t < bits0.len() ==> bits1[t] == bits0[t]);
        bits_set(&mut self.om_null32, slot, true);
        proof {
            assert forall|t: int| t != slot implies #[trigger] self.value32(t) == old(
                self,
            ).value32(t) by {
                if 0 <= t < bits0.len() && bits0[t] {
                    assert(cells1[t] == old(self).om32@[t]);
                }
            }
        }
    }

    /// Marks 64-bit slot `slot` populated, growing storage as `set_32` does.
    pub fn set_64(&mut self, slot: usize)
        requires
            old(self).wf(),
            slot < SLOT_LIMIT,
        ensures
            final(self).wf(),
            final(self).is_set64(slot as int),
            forall|t: int| t != slot ==> #[trigger] final(self).value64(t) == old(self).value64(t),
            old(self).is_set64(slot as int) ==> final(self).value64(slot as int) == old(
                self,
            ).value64(slot as int),
            forall|t: int| #[trigger] final(self).value32(t) == old(self).value32(t),
            final(self).cells64_len() == grown_len(old(self).cells64_len(), slot as int),
            final(self).cells32_len() == old(self).cells32_len(),
    {
        let ghost bits0 = bits_of(self.om_null64);
        if self.om64.len() <= slot {
            self.om64.resize(slot + RESIZE_INC, 0);
        }
        let ghost cells1 = self.om64@;
        let len = bits_len(&self.om_null64);
        if len <= slot {
            let target = (slot / NULL_BLOCK + 1) * NULL_BLOCK;
            bits_grow(&mut self.om_null64, target - len, false);
        }
        let ghost bits1 = bits_of(self.om_null64);
        assert(forall|t: int| 0 <= t < bits0.len() ==> bits1[t] == bits0[t]);
        bits_set(&mut self.om_null64, slot, true);
        proof {
            assert forall|t: int| t != slot implies #[trigger] self.value64(t) == old(
                self,
            ).value64(t) by {
                if 0 <= t < bits0.len() && bits0[t] {
                    assert(cells1[t] == old(self).om64@[t]);
                }
            }
        }
    }

    /// Stores `val` for metric `id`, resolving its slot through `group`. Where the slot already
    /// holds a value and `overwrite` is false, the row is left as it was and the write is refused.
    pub fn add_om_u32(&mut self, overwrite: bool, group: &mut OmGroup, id: u32, val: u32) -> (r:
        Result<(), ClutchError>)
        requires
            old(self).wf(),
            can_write(*old(group), id, OmType::TypeU32),
        ensures
            final(self).wf(),
            add_u32_post(*old(self), *final(self), *old(group), *final(group), overwrite, id, val, r),
    {
        let slot = group.find_setup_meta_slot(id, &OmType::TypeU32);
        if !overwrite && self.is_32_set(slot) {
            Err(ClutchError::DuplicateU32 { id, val })
        } else {
            self.set_32(slot);
            let ghost mid = *self;
            self.om32.set(slot, val);
            proof {
                assert forall|t: int| t != slot implies #[trigger] self.value32(t) == mid.value32(
                    t,
                ) by {}
                assert forall|t: int| #[trigger] self.value64(t) == mid.value64(t) by {}
            }
            Ok(())
        }
    }

    /// Stores the float whose IEEE-754 bit pattern is `val` for metric `id`, as `add_om_u32`
    /// does for 32-bit values.
    pub fn add_om_f64(&mut self, overwrite: bool, group: &mut OmGroup, id: u32, val: u64) -> (r:
        Result<(), ClutchError>)
        requires
            old(self).wf(),
            can_write(*old(group), id, OmType::TypeF64),
        ensures
            final(self).wf(),
            add_f64_post(*old(self), *final(self), *old(group), *final(group), overwrite, id, val, r),
    {
        let slot = group.find_setup_meta_slot(id, &OmType::TypeF64);
        if !overwrite && self.is_64_set(slot) {
            Err(ClutchError::DuplicateF64 { id, bits: val })
        } else {
            self.set_64(slot);
            let ghost mid = *self;
            self.om64.set(slot, val);
            proof {
                assert forall|t: int| t != slot implies #[trigger] self.value64(t) == mid.value64(
                    t,
                ) by {}
                assert forall|t: int| #[trigger] self.value32(t) == mid.value32(t) by {}
            }
            Ok(())
        }
    }

    /// The value stored for `meta`: its cell, read as `meta.kind`, or `NULL` where the slot
    /// holds none.
    pub fn get_value(&self, meta: &OmMeta) -> (r: OmValue)
        requires
            self.wf(),
            meta.kind == OmType::TypeU32 || meta.kind == OmType::TypeF64,
        ensures
            r == value_of(*self, *meta),
    {
        match meta.kind {
            OmType::TypeU32 => {
                if self.is_32_set(meta.slot) {
                    OmValue::U32(self.om32[meta.slot])
                } else {
                    OmValue::NULL
                }
            },
            _ => {
                if self.is_64_set(meta.slot) {
                    OmValue::F64(self.om64[meta.slot])
                } else {
                    OmValue::NULL
                }
            },
        }
    }
}

/// How many of `metas` have a value in `row`.
pub open spec fn filled_count(row: ClutchData, metas: Seq<OmMeta>) -> nat
    decreases metas.len(),
{
    if metas.len() == 0 {
        0
    } else {
        filled_count(row, metas.drop_last()) + if value_of(row, metas.last()) == OmValue::NULL {
            0nat
        } else {
            1nat
        }
    }
}

/// How many of `metas` have a value in `row`, and how many do not.
pub fn fill_counts(row: &ClutchData, metas: &Vec<OmMeta>) -> (r: (usize, usize))
    requires
        row.wf(),
        forall|i: int|
            0 <= i < metas@.len() ==> (#[trigger] metas@[i]).kind == OmType::TypeU32 || metas@[
                i
            ].kind == OmType::TypeF64,
    ensures
        r.0 == filled_count(*row, metas@),
        r.0 + r.1 == metas@.len(),
{
    let n = metas.len();
    let mut filled: usize = 0;
    let mut empty: usize = 0;
    let mut i: usize = 0;
    while i < n
        invariant
            row.wf(),
            n == metas@.len(),
            i <= n,
            forall|k: int|
                0 <= k < metas@.len() ==> (#[trigger] metas@[k]).kind == OmType::TypeU32
                    || metas@[k].kind == OmType::TypeF64,
            filled == filled_count(*row, metas@.subrange(0, i as int)),
            filled + empty == i,
        decreases n - i,
    {
        assert(metas@.subrange(0, i + 1).drop_last() =~= metas@.subrange(0, i as int));
        match row.get_value(&metas[i]) {
            OmValue::NULL => {
                empty = empty + 1;
            },
            _ => {
                filled = filled + 1;
            },
        }
        i = i + 1;
    }
    assert(metas@.subrange(0, n as int) =~= metas@);
    (filled, empty)
}

/// A write into a blank row (as a row is when made, also after the store was cleared) is never
/// refused, and an id that already has a slot leaves its group as it was.
pub proof fn lemma_blank_row_write(
    pre: ClutchData,
    post: ClutchData,
    g0: OmGroup,
    g1: OmGroup,
    overwrite: bool,
    id: u32,
    v32: u32,
    v64: u64,
    r: Result<(), ClutchError>,
    is_u32: bool,
)
    requires
        pre.is_blank(),
        is_u32 ==> add_u32_post(pre, post, g0, g1, overwrite, id, v32, r),
        !is_u32 ==> add_f64_post(pre, post, g0, g1, overwrite, id, v64, r),
    ensures
        r is Ok,
        g0.om_map@.contains_key(id) ==> g1.om_map@ == g0.om_map@ && g1.om32_slots
            == g0.om32_slots && g1.om64_slots == g0.om64_slots,
{
    let k = if is_u32 {
        OmType::TypeU32
    } else {
        OmType::TypeF64
    };
    let s = slot_of(g0, id, k) as int;
    assert(pre.value32(s) is None);
    assert(pre.value64(s) is None);
}

/// A second write of a metric without `overwrite` is refused and the first value stays; with
/// `overwrite` it succeeds and the new value replaces the first.
pub proof fn lemma_duplicate_protection(
    r0: ClutchData,
    r1: ClutchData,
    r2: ClutchData,
    g0: OmGroup,
    g1: OmGroup,
    g2: OmGroup,
    id: u32,
    v1: u32,
    v2: u32,
    overwrite: bool,
    res1: Result<(), ClutchError>,
    res2: Result<(), ClutchError>,
)
    requires
        add_u32_post(r0, r1, g0, g1, false, id, v1, res1),
        res1 is Ok,
        add_u32_post(r1, r2, g1, g2, overwrite, id, v2, res2),
    ensures
        slot_of(g1, id, OmType::TypeU32) == slot_of(g0, id, OmType::TypeU32),
        !overwrite ==> res2 == Err::<(), ClutchError>(ClutchError::DuplicateU32 { id, val: v2 })
            && r2.value32(slot_of(g0, id, OmType::TypeU32) as int) == Some(v1),
        overwrite ==> res2 is Ok && r2.value32(slot_of(g0, id, OmType::TypeU32) as int) == Some(
            v2,
        ),
{
}

/// A float stored through `add_om_f64` reads back through `get_value` with the same bit pattern,
/// under the slot the group holds for the id, where the id is new or was registered as `f64`.
pub proof fn lemma_f64_round_trip(
    r0: ClutchData,
    r1: ClutchData,
    g0: OmGroup,
    g1: OmGroup,
    overwrite: bool,
    id: u32,
    bits: u64,
    res: Result<(), ClutchError>,
)
    requires
        add_f64_post(r0, r1, g0, g1, overwrite, id, bits, res),
        res is Ok,
        g0.om_map@.contains_key(id) ==> g0.om_map@[id].kind == OmType::TypeF64,
    ensures
        g1.om_map@.contains_key(id),
        g1.om_map@[id].kind == OmType::TypeF64,
        value_of(r1, g1.om_map@[id]) == OmValue::F64(bits),
{
}

} // verus!
