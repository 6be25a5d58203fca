use crate::key::{ClutchKey, KeyView, key_cmp, lemma_key_cmp_equal, lemma_key_cmp_flip, lemma_key_cmp_trans};
use crate::row::{ClutchData, RESIZE_INC};
use crate::schema::OmGroup;
use std::cmp::Ordering;
use vstd::prelude::*;

verus! {

/// Whether the keys of `rows` rise strictly in the key order.
pub open spec fn sorted_rows(rows: Seq<(KeyView, ClutchData)>) -> bool {
    forall|i: int, j: int|
        0 <= i < j < rows.len() ==> key_cmp(#[trigger] rows[i].0, #[trigger] rows[j].0)
            == Ordering::Less
}

/// Whether some row of `rows` has key `k`.
pub open spec fn has_key(rows: Seq<(KeyView, ClutchData)>, k: KeyView) -> bool {
    exists|i: int| 0 <= i < rows.len() && #[trigger] rows[i].0 == k
}

/// `post` is `pre` after looking up key `k` and making its row where there was none: the row of
/// `k` becomes `row`, in place where the key was there, else inserted.
pub open spec fn add_row_post(
    pre: Seq<(KeyView, ClutchData)>,
    post: Seq<(KeyView, ClutchData)>,
    k: KeyView,
    row: ClutchData,
) -> bool {
    &&& has_key(pre, k) ==> exists|p: int|
        0 <= p < pre.len() && pre[p].0 == k && post == pre.update(p, (k, row))
    &&& !has_key(pre, k) ==> exists|p: int| 0 <= p <= pre.len() && post == pre.insert(p, (k, row))
}

/// Rows made under distinct keys, one after the other, starting from an empty store (as after
/// `clear_oms`): the store then holds one row per key and no other.
pub proof fn lemma_distinct_adds(
    views: Seq<Seq<(KeyView, ClutchData)>>,
    keys: Seq<KeyView>,
    rows: Seq<ClutchData>,
)
    requires
        views.len() == keys.len() + 1,
        rows.len() == keys.len(),
        views[0].len() == 0,
        forall|k: int|
            0 <= k < keys.len() ==> add_row_post(#[trigger] views[k], views[k + 1], keys[k], rows[k]),
        forall|i: int, j: int| 0 <= i < j < keys.len() ==> keys[i] != keys[j],
    ensures
        views.last().len() == keys.len(),
        forall|j: int| 0 <= j < keys.len() ==> has_key(views.last(), #[trigger] keys[j]),
        forall|i: int|
            0 <= i < views.last().len() ==> exists|j: int|
                0 <= j < keys.len() && #[trigger] views.last()[i].0 == keys[j],
{
    lemma_distinct_adds_upto(views, keys, rows, keys.len() as int);
}

proof fn lemma_distinct_adds_upto(
    views: Seq<Seq<(KeyView, ClutchData)>>,
    keys: Seq<KeyView>,
    rows: Seq<ClutchData>,
    m: int,
)
    requires
        views.len() == keys.len() + 1,
        rows.len() == keys.len(),
        views[0].len() == 0,
        forall|k: int|
            0 <= k < keys.len() ==> add_row_post(#[trigger] views[k], views[k + 1], keys[k], rows[k]),
        forall|i: int, j: int| 0 <= i < j < keys.len() ==> keys[i] != keys[j],
        0 <= m <= keys.len(),
    ensures
        views[m].len() == m,
        forall|j: int| 0 <= j < m ==> has_key(views[m], #[trigger] keys[j]),
        forall|i: int|
            0 <= i < views[m].len() ==> exists|j: int| 0 <= j < m && #[trigger] views[m][i].0 == keys[j],
    decreases m,
{
    if m > 0 {
        let k = m - 1;
        lemma_distinct_adds_upto(views, keys, rows, k);
        let pre = views[k];
        let post = views[m];
        assert(add_row_post(pre, post, keys[k], rows[k]));
        assert(!has_key(pre, keys[k])) by {
            if has_key(pre, keys[k]) {
                let i = choose|i: int| 0 <= i < pre.len() && #[trigger] pre[i].0 == keys[k];
                let j = choose|j: int| 0 <= j < k && #[trigger] pre[i].0 == keys[j];
                assert(keys[j] != keys[k]);
            }
        }
        let p = choose|p: int| 0 <= p <= pre.len() && post == pre.insert(p, (keys[k], rows[k]));
        assert(post[p].0 == keys[k]);
        assert forall|j: int| 0 <= j < m implies has_key(post, #[trigger] keys[j]) by {
            if j < k {
                let i = choose|i: int| 0 <= i < pre.len() && #[trigger] pre[i].0 == keys[j];
                if i < p {
                    assert(post[i] == pre[i]);
                } else {
                    assert(post[i + 1] == pre[i]);
                }
            }
        }
        assert forall|i: int| 0 <= i < post.len() implies exists|j: int|
            0 <= j < m && #[trigger] post[i].0 == keys[j] by {
            if i < p {
                assert(post[i] == pre[i]);
                let j = choose|j: int| 0 <= j < k && #[trigger] pre[i].0 == keys[j];
            } else if i > p {
                assert(post[i] == pre[i - 1]);
                let j = choose|j: int| 0 <= j < k && #[trigger] pre[i - 1].0 == keys[j];
            }
        }
    }
}

/// The (key, row) pairs of `s`, each key by its view.
spec fn rows_view(s: Seq<(ClutchKey, ClutchData)>) -> Seq<(KeyView, ClutchData)> {
    s.map_values(|e: (ClutchKey, ClutchData)| (e.0@, e.1))
}

proof fn lemma_rows_view_update()
    ensures
        forall|s: Seq<(ClutchKey, ClutchData)>, p: int, e: (ClutchKey, ClutchData)|
            0 <= p < s.len() ==> #[trigger] rows_view(s.update(p, e)) == rows_view(s).update(
                p,
                (e.0@, e.1),
            ),
{
    assert forall|s: Seq<(ClutchKey, ClutchData)>, p: int, e: (ClutchKey, ClutchData)|
        0 <= p < s.len() implies #[trigger] rows_view(s.update(p, e)) == rows_view(s).update(
        p,
        (e.0@, e.1),
    ) by {
        assert(rows_view(s.update(p, e)) =~= rows_view(s).update(p, (e.0@, e.1)));
    }
}

proof fn lemma_insert_then_update()
    ensures
        forall|s: Seq<(KeyView, ClutchData)>, p: int, a: (KeyView, ClutchData), b: (
            KeyView,
            ClutchData,
        )|
            0 <= p <= s.len() ==> #[trigger] s.insert(p, a).update(p, b) == s.insert(p, b),
{
    assert forall|
        s: Seq<(KeyView, ClutchData)>,
        p: int,
        a: (KeyView, ClutchData),
        b: (KeyView, ClutchData),
    | 0 <= p <= s.len() implies #[trigger] s.insert(p, a).update(p, b) == s.insert(p, b) by {
        assert(s.insert(p, a).update(p, b) =~= s.insert(p, b));
    }
}

/// The rows of a store, ordered by key. They are kept in a sorted `Vec` searched with the proved
/// key order: a std ordered map would order them by an `Ord` impl that cannot be proved here.
#[derive(Debug)]
pub struct ClutchStore {
    clutches: Vec<(ClutchKey, ClutchData)>,
}

impl View for ClutchStore {
    type V = Seq<(KeyView, ClutchData)>;

    /// The (key, row) pairs in key order.
    closed spec fn view(&self) -> Seq<(KeyView, ClutchData)> {
        rows_view(self.clutches@)
    }
}

impl ClutchStore {
    /// Keys rise strictly, and every row is well formed.
    pub open spec fn wf(&self) -> bool {
        &&& sorted_rows(self@)
        &&& forall|i: int| 0 <= i < self@.len() ==> (#[trigger] self@[i]).1.wf()
    }

    /// An empty store.
    pub fn new() -> (r: ClutchStore)
        ensures
            r.wf(),
            r@ == Seq::<(KeyView, ClutchData)>::empty(),
    {
        let r = ClutchStore { clutches: Vec::new() };
        assert(r@ =~= Seq::<(KeyView, ClutchData)>::empty());
        r
    }

    /// Drops every row.
    pub fn clear_oms(&mut self)
        ensures
            final(self).wf(),
            final(self)@ == Seq::<(KeyView, ClutchData)>::empty(),
    {
        self.clutches.clear();
        assert(self@ =~= Seq::<(KeyView, ClutchData)>::empty());
    }

    /// Drops every row.
    pub fn clear_data(&mut self)
        ensures
            final(self).wf(),
            final(self)@ == Seq::<(KeyView, ClutchData)>::empty(),
    {
        self.clear_oms();
    }

    /// Drops every row.
    pub fn clear_all(&mut self)
        ensures
            final(self).wf(),
            final(self)@ == Seq::<(KeyView, ClutchData)>::empty(),
    {
        self.clear_oms();
    }

    /// Number of rows.
    pub fn len(&self) -> (r: usize)
        ensures
            r == self@.len(),
    {
        self.clutches.len()
    }

    /// The key and row at position `i` of the key order.
    pub fn entry_at(&self, i: usize) -> (r: (&ClutchKey, &ClutchData))
        requires
            i < self@.len(),
        ensures
            r.0@ == self@[i as int].0,
            *r.1 == self@[i as int].1,
    {
        let e = &self.clutches[i];
        (&e.0, &e.1)
    }

    /// Where `key` is, or where it would go to keep the keys in order.
    fn search(&self, key: &ClutchKey) -> (r: Result<usize, usize>)
        requires
            self.wf(),
        ensures
            match r {
                Ok(p) => p < self@.len() && self@[p as int].0 == key@,
                Err(p) => {
                    &&& p <= self@.len()
                    &&& forall|i: int|
                        0 <= i < p ==> key_cmp(#[trigger] self@[i].0, key@) == Ordering::Less
                    &&& forall|i: int|
                        p <= i < self@.len() ==> key_cmp(key@, #[trigger] self@[i].0)
                            == Ordering::Less
                },
            },
    {
        let mut lo: usize = 0;
        let mut hi: usize = self.clutches.len();
        while lo < hi
            invariant
                self.wf(),
                lo <= hi <= self@.len(),
                hi == self.clutches@.len() || hi < self@.len(),
                forall|i: int| 0 <= i < lo ==> key_cmp(#[trigger] self@[i].0, key@) == Ordering::Less,
                forall|i: int|
                    hi <= i < self@.len() ==> key_cmp(key@, #[trigger] self@[i].0) == Ordering::Less,
            decreases hi - lo,
        {
            let mid = lo + (hi - lo) / 2;
            let c = self.clutches[mid].0.compare(key);
            assert(self@[mid as int].0 == self.clutches@[mid as int].0@);
            match c {
                Ordering::Less => {
                    proof {
                        assert forall|i: int| 0 <= i < mid + 1 implies key_cmp(
                            #[trigger] self@[i].0,
                            key@,
                        ) == Ordering::Less by {
                            if i < mid {
                                lemma_key_cmp_trans(self@[i].0, self@[mid as int].0, key@);
                            }
                        }
                    }
                    lo = mid + 1;
                },
                Ordering::Greater => {
                    proof {
                        lemma_key_cmp_flip(self@[mid as int].0, key@);
                        assert forall|i: int| mid <= i < self@.len() implies key_cmp(
                            key@,
                            #[trigger] self@[i].0,
                        ) == Ordering::Less by {
                            if i > mid {
                                lemma_key_cmp_trans(key@, self@[mid as int].0, self@[i].0);
                            }
                        }
                    }
                    hi = mid;
                },
                Ordering::Equal => {
                    proof {
                        lemma_key_cmp_equal(self@[mid as int].0, key@);
                    }
                    return Ok(mid);
                },
            }
        }
        Err(lo)
    }

    /// The row at position `p`, for changing; the keys stay as they are.
    fn row_mut(&mut self, p: usize) -> (r: &mut ClutchData)
        requires
            p < old(self)@.len(),
        ensures
            *r == old(self)@[p as int].1,
            final(self)@ == old(self)@.update(p as int, (old(self)@[p as int].0, *final(r))),
    {
        proof {
            lemma_rows_view_update();
        }
        let e = &mut self.clutches[p];
        &mut e.1
    }

    /// The row of `key`; where there is none, a new empty row with null bits for `o32` 32-bit
    /// and `o64` 64-bit slots is first added at its place in the key order.
    pub fn add_to_clutch(&mut self, o32: usize, o64: usize, key: &ClutchKey) -> (r: &mut ClutchData)
        requires
            old(self).wf(),
        ensures
            r.wf(),
            final(r).wf() ==> final(self).wf(),
            add_row_post(old(self)@, final(self)@, key@, *final(r)),
            has_key(old(self)@, key@) ==> exists|p: int|
                0 <= p < old(self)@.len() && old(self)@[p].0 == key@ && *r == old(self)@[p].1
                    && final(self)@ == old(self)@.update(p, (key@, *final(r))),
            !has_key(old(self)@, key@) ==> {
                &&& r.is_blank()
                &&& r.null32_len() == o32
                &&& r.null64_len() == o64
                &&& r.cells32_len() == if o32 < RESIZE_INC {
                    RESIZE_INC
                } else {
                    o32
                }
                &&& r.cells64_len() == if o64 < RESIZE_INC {
                    RESIZE_INC
                } else {
                    o64
                }
                &&& exists|p: int|
                    0 <= p <= old(self)@.len() && final(self)@ == old(self)@.insert(
                        p,
                        (key@, *final(r)),
                    )
            },
    {
        match self.search(key) {
            Ok(p) => {
                assert(has_key(self@, key@));
                let r = self.row_mut(p);
                r
            },
            Err(p) => {
                let ghost rows = self@;
                let row = ClutchData::new(o32, o64);
                self.clutches.insert(p, (key.create_copy(), row));
                assert(self@ =~= rows.insert(p as int, (key@, row)));
                proof {
                    assert forall|i: int| 0 <= i < rows.len() implies #[trigger] rows[i].0 != key@ by {
                        if i < p {
                            lemma_key_cmp_equal(rows[i].0, key@);
                        } else {
                            lemma_key_cmp_flip(key@, rows[i].0);
                            lemma_key_cmp_equal(rows[i].0, key@);
                        }
                    }
                    assert forall|i: int, j: int|
                        0 <= i < j < self@.len() implies key_cmp(
                        #[trigger] self@[i].0,
                        #[trigger] self@[j].0,
                    ) == Ordering::Less by {
                        if i < p && j > p {
                            lemma_key_cmp_trans(rows[i].0, key@, rows[j - 1].0);
                        }
                    }
                    lemma_insert_then_update();
                }
                let r = self.row_mut(p);
                r
            },
        }
    }

    /// The row of `key`, made where there is none with null bits sized by `group`'s current
    /// slot counts.
    pub fn find_or_add_clutchdata(&mut self, group: &OmGroup, key: &ClutchKey) -> (r: &mut ClutchData)
        requires
            old(self).wf(),
        ensures
            r.wf(),
            final(r).wf() ==> final(self).wf(),
            add_row_post(old(self)@, final(self)@, key@, *final(r)),
            has_key(old(self)@, key@) ==> exists|p: int|
                0 <= p < old(self)@.len() && old(self)@[p].0 == key@ && *r == old(self)@[p].1
                    && final(self)@ == old(self)@.update(p, (key@, *final(r))),
            !has_key(old(self)@, key@) ==> {
                &&& r.is_blank()
                &&& r.null32_len() == group.om32_slots
                &&& r.null64_len() == group.om64_slots
                &&& r.cells32_len() == if group.om32_slots < RESIZE_INC {
                    RESIZE_INC
                } else {
                    group.om32_slots
                }
                &&& r.cells64_len() == if group.om64_slots < RESIZE_INC {
                    RESIZE_INC
                } else {
                    group.om64_slots
                }
                &&& exists|p: int|
                    0 <= p <= old(self)@.len() && final(self)@ == old(self)@.insert(
                        p,
                        (key@, *final(r)),
                    )
            },
    {
        self.add_to_clutch(group.om32_slots, group.om64_slots, key)
    }
}

} // verus!
