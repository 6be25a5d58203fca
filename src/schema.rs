use crate::text::same_text;
use vstd::prelude::*;

verus! {

broadcast use vstd::std_specs::btree::group_btree_axioms;

/// Index of a schema group within its catalog.
pub type GroupIdx = u16;

/// The kind of value a metric id holds.
#[derive(Debug, Clone, Copy, PartialEq, Eq, Structural)]
pub enum OmType {
    TypeU32,
    TypeI32,
    TypeU64,
    TypeI64,
    TypeF32,
    TypeF64,
    TypeString,
}

/// The storage class a value kind lives in.
#[derive(Debug, Clone, Copy, PartialEq, Eq, Structural)]
pub enum SlotClass {
    Bits32,
    Bits64,
    Text,
}

/// The storage class of each value kind.
pub open spec fn class_of(kind: OmType) -> SlotClass {
    match kind {
        OmType::TypeU32 | OmType::TypeI32 | OmType::TypeF32 => SlotClass::Bits32,
        OmType::TypeU64 | OmType::TypeI64 | OmType::TypeF64 => SlotClass::Bits64,
        OmType::TypeString => SlotClass::Text,
    }
}

impl OmType {
    /// The storage class of this kind.
    pub fn class(&self) -> (r: SlotClass)
        ensures
            r == class_of(*self),
    {
        match self {
            OmType::TypeU32 | OmType::TypeI32 | OmType::TypeF32 => SlotClass::Bits32,
            OmType::TypeU64 | OmType::TypeI64 | OmType::TypeF64 => SlotClass::Bits64,
            OmType::TypeString => SlotClass::Text,
        }
    }

    /// Short display name: `u32`, `f64`, or `str` for every other kind.
    pub fn name(&self) -> (r: &'static str)
        ensures
            *self == OmType::TypeU32 ==> r@ == "u32"@,
            *self == OmType::TypeF64 ==> r@ == "f64"@,
            *self != OmType::TypeU32 && *self != OmType::TypeF64 ==> r@ == "str"@,
    {
        match self {
            OmType::TypeF64 => "f64",
            OmType::TypeU32 => "u32",
            _ => "str",
        }
    }
}

/// Where a metric id is stored: its kind and its slot in that kind's class.
#[derive(Debug, Clone, Copy, PartialEq, Eq, Structural)]
pub struct OmMeta {
    pub kind: OmType,
    pub id: u32,
    pub slot: usize,
}

/// A named schema: the slot assigned to each metric id, and the next free slot of each class.
#[derive(Debug)]
pub struct OmGroup {
    pub idx: GroupIdx,
    pub group: String,
    pub om_map: std::collections::BTreeMap<u32, OmMeta>,
    pub om32_slots: usize,
    pub om64_slots: usize,
    pub omstr_slots: usize,
}

/// The slot that resolving `id` as `kind` on `g` gives: the registered one, or the next free
/// slot of the kind's class.
pub open spec fn slot_of(g: OmGroup, id: u32, kind: OmType) -> usize {
    if g.om_map@.contains_key(id) {
        g.om_map@[id].slot
    } else if class_of(kind) == SlotClass::Bits32 {
        g.om32_slots
    } else {
        g.om64_slots
    }
}

/// `post` is `pre` after resolving `id` as `kind`: a registered id leaves the group as it was;
/// a new one is registered at the next free slot of its class, which moves on by one.
pub open spec fn resolve_post(pre: OmGroup, post: OmGroup, id: u32, kind: OmType) -> bool {
    &&& post.idx == pre.idx
    &&& post.group == pre.group
    &&& post.omstr_slots == pre.omstr_slots
    &&& if pre.om_map@.contains_key(id) {
        &&& post.om_map@ == pre.om_map@
        &&& post.om32_slots == pre.om32_slots
        &&& post.om64_slots == pre.om64_slots
    } else {
        &&& post.om_map@ == pre.om_map@.insert(
            id,
            OmMeta { kind, id, slot: slot_of(pre, id, kind) },
        )
        &&& post.om32_slots == pre.om32_slots + if class_of(kind) == SlotClass::Bits32 {
            1int
        } else {
            0int
        }
        &&& post.om64_slots == pre.om64_slots + if class_of(kind) == SlotClass::Bits64 {
            1int
        } else {
            0int
        }
    }
}

/// What resolving needs of a group: a supported kind, and room for one more slot.
pub open spec fn can_resolve(g: OmGroup, kind: OmType) -> bool {
    &&& class_of(kind) != SlotClass::Text
    &&& g.om32_slots < usize::MAX
    &&& g.om64_slots < usize::MAX
}

impl OmGroup {
    /// An empty group with the given index and name.
    pub fn new(idx: GroupIdx, group: &str) -> (r: OmGroup)
        ensures
            r.idx == idx,
            r.group@ == group@,
            r.om_map@ == Map::<u32, OmMeta>::empty(),
            r.om32_slots == 0,
            r.om64_slots == 0,
            r.omstr_slots == 0,
    {
        OmGroup {
            idx,
            group: group.to_owned(),
            om_map: std::collections::BTreeMap::new(),
            om32_slots: 0,
            om64_slots: 0,
            omstr_slots: 0,
        }
    }

    /// The slot of metric `id`: the one it was given when first seen, whatever `kind` is now;
    /// else the next free slot of `kind`'s class, which is registered for `id`.
    pub fn find_setup_meta_slot(&mut self, id: u32, kind: &OmType) -> (r: usize)
        requires
            can_resolve(*old(self), *kind),
        ensures
            r == slot_of(*old(self), id, *kind),
            resolve_post(*old(self), *final(self), id, *kind),
    {
        match self.om_map.get(&id) {
            Some(meta) => meta.slot,
            None => {
                let this_slot = match kind.class() {
                    SlotClass::Bits32 => {
                        let s = self.om32_slots;
                        self.om32_slots = s + 1;
                        s
                    },
                    _ => {
                        let s = self.om64_slots;
                        self.om64_slots = s + 1;
                        s
                    },
                };
                self.om_map.insert(id, OmMeta { kind: *kind, id, slot: this_slot });
                this_slot
            },
        }
    }
}

/// Once an id has a slot, resolving it again gives that slot, whatever other ids or kinds are
/// resolved in between: for any run of resolve calls on `gs[0]`, `gs[k]` to `gs[k + 1]` being
/// the call on `ids[k]` as `kinds[k]`, every call on the id of the first gets its slot.
pub proof fn lemma_slot_stable(gs: Seq<OmGroup>, ids: Seq<u32>, kinds: Seq<OmType>, j: int)
    requires
        ids.len() == kinds.len(),
        gs.len() == ids.len() + 1,
        forall|k: int|
            0 <= k < ids.len() ==> resolve_post(#[trigger] gs[k], gs[k + 1], ids[k], kinds[k]),
        0 <= j < ids.len(),
        ids[j] == ids[0],
    ensures
        slot_of(gs[j], ids[j], kinds[j]) == slot_of(gs[0], ids[0], kinds[0]),
    decreases j,
{
    if j > 0 {
        lemma_registered_after(gs, ids, kinds, j);
    }
}

/// After the first call of such a run, the id of the first call stays registered with the slot
/// that call gave it.
proof fn lemma_registered_after(gs: Seq<OmGroup>, ids: Seq<u32>, kinds: Seq<OmType>, j: int)
    requires
        ids.len() == kinds.len(),
        gs.len() == ids.len() + 1,
        forall|k: int|
            0 <= k < ids.len() ==> resolve_post(#[trigger] gs[k], gs[k + 1], ids[k], kinds[k]),
        1 <= j < gs.len(),
    ensures
        gs[j].om_map@.contains_key(ids[0]),
        gs[j].om_map@[ids[0]].slot == slot_of(gs[0], ids[0], kinds[0]),
    decreases j,
{
    assert(resolve_post(gs[j - 1], gs[j], ids[j - 1], kinds[j - 1]));
    if j > 1 {
        lemma_registered_after(gs, ids, kinds, j - 1);
    }
}

/// The catalog of schema groups: the groups by index, and their names.
///
/// Index 0 holds a sentinel group that no data is meant for. Names are kept as (name, index)
/// pairs: std's map specifications give lookups by a `String` key no meaning to prove from.
#[derive(Debug)]
pub struct ClutchMeta {
    groups: Vec<OmGroup>,
    group_map: Vec<(String, GroupIdx)>,
}

/// The index that `names` gives `name`: the first pair that holds it.
pub open spec fn lookup(names: Seq<(String, GroupIdx)>, name: Seq<char>) -> Option<GroupIdx>
    decreases names.len(),
{
    if names.len() == 0 {
        None
    } else if names[0].0@ == name {
        Some(names[0].1)
    } else {
        lookup(names.drop_first(), name)
    }
}

proof fn lemma_lookup_push(names: Seq<(String, GroupIdx)>, x: (String, GroupIdx), name: Seq<char>)
    ensures
        lookup(names.push(x), name) == match lookup(names, name) {
            Some(i) => Some(i),
            None => if x.0@ == name {
                Some(x.1)
            } else {
                None
            },
        },
    decreases names.len(),
{
    if names.len() > 0 {
        assert(names.push(x)[0] == names[0]);
        assert(names.push(x).drop_first() =~= names.drop_first().push(x));
        lemma_lookup_push(names.drop_first(), x, name);
    } else {
        assert(names.push(x)[0] == x);
        assert(names.push(x).drop_first() =~= Seq::<(String, GroupIdx)>::empty());
        assert(lookup(Seq::<(String, GroupIdx)>::empty(), name) is None);
    }
}

proof fn lemma_lookup_update(
    names: Seq<(String, GroupIdx)>,
    k: int,
    x: (String, GroupIdx),
    name: Seq<char>,
)
    requires
        0 <= k < names.len(),
        names[k].0@ == x.0@,
        forall|j: int| 0 <= j < k ==> #[trigger] names[j].0@ != x.0@,
    ensures
        lookup(names.update(k, x), name) == if name == x.0@ {
            Some(x.1)
        } else {
            lookup(names, name)
        },
    decreases k,
{
    let u = names.update(k, x);
    if k > 0 {
        assert(u[0] == names[0]);
        assert(u.drop_first() =~= names.drop_first().update(k - 1, x));
        assert forall|j: int| 0 <= j < k - 1 implies #[trigger] names.drop_first()[j].0@ != x.0@ by {
            assert(names.drop_first()[j] == names[j + 1]);
        }
        lemma_lookup_update(names.drop_first(), k - 1, x, name);
    } else {
        assert(u[0] == x);
        assert(u.drop_first() =~= names.drop_first());
    }
}

/// Name of the sentinel group at index 0.
pub const SENTINEL_GROUP: &'static str = "BAD_ZERO_GROUP";

impl ClutchMeta {
    /// The groups, by index.
    pub closed spec fn groups(&self) -> Seq<OmGroup> {
        self.groups@
    }

    /// The index registered for a group name, if any.
    pub closed spec fn index_of(&self, name: Seq<char>) -> Option<GroupIdx> {
        lookup(self.group_map@, name)
    }

    /// Every registered name leads to a group of the list that has that name, each group holds
    /// its own index, and the list fits the index type.
    pub closed spec fn wf(&self) -> bool {
        &&& self.groups@.len() <= 0x10000
        &&& forall|name: Seq<char>| #[trigger]
            lookup(self.group_map@, name) matches Some(i) ==> i < self.groups@.len()
                && self.groups@[i as int].group@ == name
        &&& forall|j: int| 0 <= j < self.groups@.len() ==> #[trigger] self.groups@[j].idx == j
    }

    /// A group keeps its place in a catalog while its index and name stay as they were.
    pub open spec fn keeps_place(before: OmGroup, after: OmGroup) -> bool {
        after.idx == before.idx && after.group@ == before.group@
    }

    /// A catalog holding only the sentinel group, at index 0.
    pub fn new() -> (r: ClutchMeta)
        ensures
            r.wf(),
            r.groups().len() == 1,
            r.groups()[0].idx == 0,
            r.groups()[0].group@ == SENTINEL_GROUP@,
            r.groups()[0].om_map@ == Map::<u32, OmMeta>::empty(),
            r.groups()[0].om32_slots == 0,
            r.groups()[0].om64_slots == 0,
            r.groups()[0].omstr_slots == 0,
            forall|n: Seq<char>| #[trigger]
                r.index_of(n) == if n == SENTINEL_GROUP@ {
                    Some(0u16)
                } else {
                    None
                },
    {
        let mut cm = ClutchMeta { groups: Vec::new(), group_map: Vec::new() };
        proof {
            assert forall|name: Seq<char>| #[trigger] lookup(cm.group_map@, name) is None by {}
        }
        cm.new_group(SENTINEL_GROUP);
        cm
    }

    /// Adds a group with the next index and registers its name for it; a name already
    /// registered moves to the new group.
    pub fn new_group(&mut self, group: &str) -> (r: &mut OmGroup)
        requires
            old(self).wf(),
            old(self).groups().len() < 0x10000,
        ensures
            Self::keeps_place(*r, *final(r)) ==> final(self).wf(),
            r.idx == old(self).groups().len(),
            r.group@ == group@,
            r.om_map@ == Map::<u32, OmMeta>::empty(),
            r.om32_slots == 0,
            r.om64_slots == 0,
            r.omstr_slots == 0,
            final(self).groups() == old(self).groups().push(*final(r)),
            forall|name: Seq<char>| #[trigger]
                final(self).index_of(name) == if name == group@ {
                    Some(old(self).groups().len() as GroupIdx)
                } else {
                    old(self).index_of(name)
                },
    {
        let next_id = self.groups.len() as GroupIdx;
        let g = OmGroup::new(next_id, group);
        let found = self.find_name(group);
        self.groups.push(g);
        let ghost names = self.group_map@;
        let entry = (group.to_owned(), next_id);
        match found {
            Some(k) => {
                self.group_map.set(k, entry);
                proof {
                    assert forall|name: Seq<char>| #[trigger]
                        lookup(self.group_map@, name) == if name == group@ {
                            Some(next_id)
                        } else {
                            lookup(names, name)
                        } by {
                        lemma_lookup_update(names, k as int, entry, name);
                        assert(old(self).index_of(name) == lookup(names, name));
                    }
                }
            },
            None => {
                self.group_map.push(entry);
                proof {
                    assert forall|name: Seq<char>| #[trigger]
                        lookup(self.group_map@, name) == if name == group@ {
                            Some(next_id)
                        } else {
                            lookup(names, name)
                        } by {
                        lemma_lookup_push(names, entry, name);
                        assert(old(self).index_of(name) == lookup(names, name));
                    }
                }
            },
        }
        proof {
            assert forall|name: Seq<char>| #[trigger]
                lookup(self.group_map@, name) is Some implies ({
                    let i = lookup(self.group_map@, name)->0;
                    i < self.groups@.len() && self.groups@[i as int].group@ == name
                }) by {
                if name != group@ {
                    assert(old(self).index_of(name) == lookup(names, name));
                }
            }
        }
        self.group_mut(next_id as usize)
    }

    /// The group at `idx`, for changing; the names stay as they are.
    fn group_mut(&mut self, idx: usize) -> (r: &mut OmGroup)
        requires
            idx < old(self).groups@.len(),
        ensures
            *r == old(self).groups@[idx as int],
            final(self).groups@ == old(self).groups@.update(idx as int, *final(r)),
            final(self).group_map == old(self).group_map,
            old(self).wf() && Self::keeps_place(*r, *final(r)) ==> final(self).wf(),
    {
        &mut self.groups[idx]
    }

    /// Position in the name list of the first pair that holds `group`.
    fn find_name(&self, group: &str) -> (r: Option<usize>)
        ensures
            match r {
                Some(k) => {
                    &&& k < self.group_map@.len()
                    &&& self.group_map@[k as int].0@ == group@
                    &&& forall|j: int| 0 <= j < k ==> #[trigger] self.group_map@[j].0@ != group@
                    &&& self.index_of(group@) == Some(self.group_map@[k as int].1)
                },
                None => self.index_of(group@) is None,
            },
    {
        let n = self.group_map.len();
        let mut k: usize = 0;
        assert(self.group_map@.subrange(0, n as int) =~= self.group_map@);
        while k < n
            invariant
                n == self.group_map@.len(),
                k <= n,
                lookup(self.group_map@, group@) == lookup(
                    self.group_map@.subrange(k as int, n as int),
                    group@,
                ),
                forall|j: int| 0 <= j < k ==> #[trigger] self.group_map@[j].0@ != group@,
            decreases n - k,
        {
            let ghost rest = self.group_map@.subrange(k as int, n as int);
            if same_text(self.group_map[k].0.as_str(), group) {
                return Some(k);
            }
            assert(rest.drop_first() =~= self.group_map@.subrange(k + 1, n as int));
            k = k + 1;
        }
        None
    }

    /// The group registered under `group`, or a new one made for it.
    pub fn find_or_new_group(&mut self, group: &str) -> (r: &mut OmGroup)
        requires
            old(self).wf(),
            old(self).index_of(group@) is None ==> old(self).groups().len() < 0x10000,
        ensures
            Self::keeps_place(*r, *final(r)) ==> final(self).wf(),
            r.group@ == group@,
            match old(self).index_of(group@) {
                Some(i) => {
                    &&& r.idx == i
                    &&& *r == old(self).groups()[i as int]
                    &&& final(self).groups() == old(self).groups().update(i as int, *final(r))
                    &&& forall|name: Seq<char>| #[trigger]
                        final(self).index_of(name) == old(self).index_of(name)
                },
                None => {
                    &&& r.idx == old(self).groups().len()
                    &&& r.group@ == group@
                    &&& r.om_map@ == Map::<u32, OmMeta>::empty()
                    &&& r.om32_slots == 0
                    &&& r.om64_slots == 0
                    &&& final(self).groups() == old(self).groups().push(*final(r))
                    &&& final(self).index_of(group@) == Some(old(self).groups().len() as GroupIdx)
                    &&& forall|name: Seq<char>|
                        name != group@ ==> #[trigger] final(self).index_of(name) == old(
                            self,
                        ).index_of(name)
                },
            },
    {
        match self.find_name(group) {
            Some(k) => {
                let idx = self.group_map[k].1;
                self.group_mut(idx as usize)
            },
            None => self.new_group(group),
        }
    }

    /// The group registered under `group`, if any.
    pub fn get_group_by_name(&mut self, group: &str) -> (r: Option<&mut OmGroup>)
        requires
            old(self).wf(),
        ensures
            match old(self).index_of(group@) {
                Some(i) => r matches Some(g) && *g == old(self).groups()[i as int] && g.idx == i
                    && g.group@ == group@
                    && (Self::keeps_place(*g, *final(g)) ==> final(self).wf())
                    && final(self).groups() == old(self).groups().update(i as int, *final(g))
                    && forall|name: Seq<char>| #[trigger]
                        final(self).index_of(name) == old(self).index_of(name),
                None => r is None && *final(self) == *old(self),
            },
    {
        match self.find_name(group) {
            Some(k) => {
                let idx = self.group_map[k].1;
                Some(self.group_mut(idx as usize))
            },
            None => None,
        }
    }

    /// The group at index `idx`, if there is one.
    pub fn get_group_by_idx(&mut self, idx: u16) -> (r: Option<&mut OmGroup>)
        ensures
            if (idx as int) < old(self).groups().len() {
                r matches Some(g) && *g == old(self).groups()[idx as int]
                    && (old(self).wf() ==> g.idx == idx)
                    && (old(self).wf() && Self::keeps_place(*g, *final(g)) ==> final(self).wf())
                    && final(self).groups() == old(self).groups().update(idx as int, *final(g))
                    && forall|name: Seq<char>| #[trigger]
                        final(self).index_of(name) == old(self).index_of(name)
            } else {
                r is None && *final(self) == *old(self)
            },
    {
        if (idx as usize) < self.groups.len() {
            Some(self.group_mut(idx as usize))
        } else {
            None
        }
    }

    /// How many groups there are, the sentinel included.
    pub fn group_count(&self) -> (r: usize)
        ensures
            r == self.groups().len(),
    {
        self.groups.len()
    }

    /// The group at index `idx`, for reading.
    pub fn group_at(&self, idx: usize) -> (r: &OmGroup)
        requires
            idx < self.groups().len(),
        ensures
            *r == self.groups()[idx as int],
    {
        &self.groups[idx]
    }
}

} // verus!
