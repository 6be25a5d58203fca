use crate::text::{
    compare_bytes, lemma_lex_cmp_equal, lemma_lex_cmp_flip, lemma_lex_cmp_trans, lex_cmp,
};
use std::cmp::Ordering;
use vstd::prelude::*;
use vstd::utf8::encode_utf8;

verus! {

/// Byte that separates the parts of a key's text.
pub const PART_SEPARATOR: u8 = 0;

/// How many separator bytes `s` holds; a key text has one part more than that.
pub open spec fn separator_count(s: Seq<u8>) -> nat
    decreases s.len(),
{
    if s.len() == 0 {
        0
    } else {
        separator_count(s.drop_first()) + if s[0] == PART_SEPARATOR {
            1nat
        } else {
            0nat
        }
    }
}

/// The parts of a key text: the byte strings between its separators.
pub open spec fn key_parts(s: Seq<u8>) -> Seq<Seq<u8>>
    decreases s.len(),
{
    if s.len() == 0 {
        seq![Seq::<u8>::empty()]
    } else if s[0] == PART_SEPARATOR {
        seq![Seq::<u8>::empty()] + key_parts(s.drop_first())
    } else {
        let rest = key_parts(s.drop_first());
        rest.update(0, seq![s[0]] + rest[0])
    }
}

/// Pairwise order of two lists of parts: the first pair that differs decides, by byte order.
pub open spec fn parts_cmp(p: Seq<Seq<u8>>, q: Seq<Seq<u8>>) -> Ordering
    decreases p.len(),
{
    if p.len() == 0 || q.len() == 0 {
        int_cmp(p.len() as int, q.len() as int)
    } else if lex_cmp(p[0], q[0]) != Ordering::Equal {
        lex_cmp(p[0], q[0])
    } else {
        parts_cmp(p.drop_first(), q.drop_first())
    }
}

/// A key text has one part more than it has separators.
pub proof fn lemma_part_count(s: Seq<u8>)
    ensures
        key_parts(s).len() == separator_count(s) + 1,
    decreases s.len(),
{
    if s.len() > 0 {
        lemma_part_count(s.drop_first());
    }
}

/// With as many parts on each side, comparing the parts pairwise orders two key texts as
/// comparing their bytes does.
pub proof fn lemma_parts_cmp_is_lex(a: Seq<u8>, b: Seq<u8>)
    requires
        key_parts(a).len() == key_parts(b).len(),
    ensures
        parts_cmp(key_parts(a), key_parts(b)) == lex_cmp(a, b),
    decreases a.len(),
{
    let pa = key_parts(a);
    let pb = key_parts(b);
    lemma_part_count(a);
    lemma_part_count(b);
    if a.len() == 0 || b.len() == 0 {
        if a.len() > 0 {
            lemma_part_count(a.drop_first());
            assert(a[0] != PART_SEPARATOR);
            assert(pa[0].len() > 0);
            assert(lex_cmp(pb[0], pa[0]) == Ordering::Less);
            lemma_lex_cmp_flip(pb[0], pa[0]);
        } else if b.len() > 0 {
            lemma_part_count(b.drop_first());
            assert(b[0] != PART_SEPARATOR);
            assert(pb[0].len() > 0);
        } else {
            assert(pa[0].len() == 0 && pb[0].len() == 0);
            assert(lex_cmp(pa[0], pb[0]) == Ordering::Equal);
            assert(pa.drop_first().len() == 0 && pb.drop_first().len() == 0);
            assert(parts_cmp(pa.drop_first(), pb.drop_first()) == Ordering::Equal);
            assert(lex_cmp(a, b) == Ordering::Equal);
        }
    } else {
        let a1 = a.drop_first();
        let b1 = b.drop_first();
        let qa = key_parts(a1);
        let qb = key_parts(b1);
        lemma_part_count(a1);
        lemma_part_count(b1);
        if a[0] == PART_SEPARATOR && b[0] == PART_SEPARATOR {
            assert(pa.drop_first() =~= qa);
            assert(pb.drop_first() =~= qb);
            lemma_parts_cmp_is_lex(a1, b1);
        } else if a[0] == PART_SEPARATOR {
            assert(pb[0].len() > 0);
        } else if b[0] == PART_SEPARATOR {
            assert(pa[0].len() > 0);
            assert(lex_cmp(pb[0], pa[0]) == Ordering::Less);
            lemma_lex_cmp_flip(pb[0], pa[0]);
        } else {
            let ha = seq![a[0]] + qa[0];
            let hb = seq![b[0]] + qb[0];
            assert(ha.drop_first() =~= qa[0]);
            assert(hb.drop_first() =~= qb[0]);
            assert(pa.drop_first() =~= qa.drop_first());
            assert(pb.drop_first() =~= qb.drop_first());
            lemma_parts_cmp_is_lex(a1, b1);
        }
    }
}

/// What a row key is: group index, time, duration, offset, and the UTF-8 bytes of its parts,
/// joined by a zero byte.
pub struct KeyView {
    pub group: u16,
    pub time: u64,
    pub dur: u32,
    pub offset: i32,
    pub text: Seq<u8>,
}

/// Order of two integers as an `Ordering`.
pub open spec fn int_cmp(a: int, b: int) -> Ordering {
    if a < b {
        Ordering::Less
    } else if a > b {
        Ordering::Greater
    } else {
        Ordering::Equal
    }
}

/// The order of row keys: group index, then time, then duration, then offset, then the number
/// of parts, then the parts pairwise by their bytes.
pub open spec fn key_cmp(a: KeyView, b: KeyView) -> Ordering {
    if a.group != b.group {
        int_cmp(a.group as int, b.group as int)
    } else if a.time != b.time {
        int_cmp(a.time as int, b.time as int)
    } else if a.dur != b.dur {
        int_cmp(a.dur as int, b.dur as int)
    } else if a.offset != b.offset {
        int_cmp(a.offset as int, b.offset as int)
    } else if key_parts(a.text).len() != key_parts(b.text).len() {
        int_cmp(key_parts(a.text).len() as int, key_parts(b.text).len() as int)
    } else {
        parts_cmp(key_parts(a.text), key_parts(b.text))
    }
}

/// The order of `b` against `a` is the reverse of that of `a` against `b`.
pub proof fn lemma_key_cmp_flip(a: KeyView, b: KeyView)
    ensures
        (key_cmp(a, b) == Ordering::Less) == (key_cmp(b, a) == Ordering::Greater),
        (key_cmp(a, b) == Ordering::Equal) == (key_cmp(b, a) == Ordering::Equal),
{
    lemma_lex_cmp_flip(a.text, b.text);
    if key_parts(a.text).len() == key_parts(b.text).len() {
        lemma_parts_cmp_is_lex(a.text, b.text);
        lemma_parts_cmp_is_lex(b.text, a.text);
    }
}

/// Two keys are equal in the order exactly when every field is equal.
pub proof fn lemma_key_cmp_equal(a: KeyView, b: KeyView)
    ensures
        (key_cmp(a, b) == Ordering::Equal) == (a == b),
{
    lemma_lex_cmp_equal(a.text, b.text);
    if key_parts(a.text).len() == key_parts(b.text).len() {
        lemma_parts_cmp_is_lex(a.text, b.text);
    }
}

/// The order of keys is transitive.
pub proof fn lemma_key_cmp_trans(a: KeyView, b: KeyView, c: KeyView)
    requires
        key_cmp(a, b) == Ordering::Less,
        key_cmp(b, c) == Ordering::Less,
    ensures
        key_cmp(a, c) == Ordering::Less,
{
    if a.group == b.group && b.group == c.group && a.time == b.time && b.time == c.time && a.dur
        == b.dur && b.dur == c.dur && a.offset == b.offset && b.offset == c.offset
        && key_parts(a.text).len() == key_parts(b.text).len() && key_parts(b.text).len()
        == key_parts(c.text).len() {
        lemma_parts_cmp_is_lex(a.text, b.text);
        lemma_parts_cmp_is_lex(b.text, c.text);
        lemma_parts_cmp_is_lex(a.text, c.text);
        lemma_lex_cmp_trans(a.text, b.text, c.text);
    }
}

/// How many separator bytes a byte string holds.
fn count_separators(b: &[u8]) -> (r: usize)
    ensures
        r == separator_count(b@),
{
    let n = b.len();
    let mut i: usize = 0;
    let mut count: usize = 0;
    assert(b@.subrange(0, n as int) =~= b@);
    while i < n
        invariant
            n == b@.len(),
            i <= n,
            count + separator_count(b@.subrange(i as int, n as int)) == separator_count(b@),
            count <= i,
        decreases n - i,
    {
        assert(b@.subrange(i as int, n as int).drop_first() =~= b@.subrange(i + 1, n as int));
        if b[i] == PART_SEPARATOR {
            count = count + 1;
        }
        i = i + 1;
    }
    assert(b@.subrange(n as int, n as int) =~= Seq::<u8>::empty());
    count
}

/// The key of a row: group index, key parts joined by a zero byte, time, duration and offset.
#[derive(Debug)]
pub struct ClutchKey {
    pub groupidx: u16,
    keys: String,
    time: u64,
    dur: u32,
    offset: i32,
}

impl View for ClutchKey {
    type V = KeyView;

    open spec fn view(&self) -> KeyView {
        KeyView {
            group: self.group_spec(),
            time: self.time_spec(),
            dur: self.dur_spec(),
            offset: self.offset_spec(),
            text: encode_utf8(self.keys_spec()),
        }
    }
}

impl ClutchKey {
    /// The key parts, joined by a zero character.
    pub closed spec fn keys_spec(&self) -> Seq<char> {
        self.keys@
    }

    pub closed spec fn group_spec(&self) -> u16 {
        self.groupidx
    }

    pub closed spec fn time_spec(&self) -> u64 {
        self.time
    }

    pub closed spec fn dur_spec(&self) -> u32 {
        self.dur
    }

    pub closed spec fn offset_spec(&self) -> i32 {
        self.offset
    }

    /// A key from its fields; `keys` holds the parts joined by a zero character.
    pub fn new(groupidx: u16, keys: String, time: u64, dur: u32, offset: i32) -> (r: Self)
        ensures
            r.group_spec() == groupidx,
            r.keys_spec() == keys@,
            r.time_spec() == time,
            r.dur_spec() == dur,
            r.offset_spec() == offset,
    {
        ClutchKey { groupidx, keys, time, dur, offset }
    }

    /// An equal key that owns its own text.
    pub fn create_copy(&self) -> (r: Self)
        ensures
            r@ == self@,
    {
        Self::new(self.groupidx, self.keys.clone(), self.time, self.dur, self.offset)
    }

    /// The text of the key parts, for changing in place.
    pub fn get_mut_key(&mut self) -> (r: &mut String)
        ensures
            r@ == old(self).keys_spec(),
            final(self).keys_spec() == final(r)@,
            final(self).group_spec() == old(self).group_spec(),
            final(self).time_spec() == old(self).time_spec(),
            final(self).dur_spec() == old(self).dur_spec(),
            final(self).offset_spec() == old(self).offset_spec(),
    {
        &mut self.keys
    }

    /// The text of the key parts.
    pub fn keys(&self) -> (r: &str)
        ensures
            r@ == self.keys_spec(),
    {
        self.keys.as_str()
    }

    pub fn group(&self) -> (r: u16)
        ensures
            r == self.group_spec(),
    {
        self.groupidx
    }

    pub fn time(&self) -> (r: u64)
        ensures
            r == self.time_spec(),
    {
        self.time
    }

    pub fn dur(&self) -> (r: u32)
        ensures
            r == self.dur_spec(),
    {
        self.dur
    }

    pub fn offset(&self) -> (r: i32)
        ensures
            r == self.offset_spec(),
    {
        self.offset
    }

    /// A key with every field zero and no text.
    pub fn new_empty(&self) -> (r: Self)
        ensures
            r.group_spec() == 0,
            r.keys_spec() == Seq::<char>::empty(),
            r.time_spec() == 0,
            r.dur_spec() == 0,
            r.offset_spec() == 0,
    {
        ClutchKey { groupidx: 0, keys: String::new(), time: 0, dur: 0, offset: 0 }
    }

    /// Compares two keys in the row order.
    pub fn compare(&self, other: &Self) -> (r: Ordering)
        ensures
            r == key_cmp(self@, other@),
    {
        if self.groupidx != other.groupidx {
            return if self.groupidx < other.groupidx {
                Ordering::Less
            } else {
                Ordering::Greater
            };
        }
        if self.time != other.time {
            return if self.time < other.time {
                Ordering::Less
            } else {
                Ordering::Greater
            };
        }
        if self.dur != other.dur {
            return if self.dur < other.dur {
                Ordering::Less
            } else {
                Ordering::Greater
            };
        }
        if self.offset != other.offset {
            return if self.offset < other.offset {
                Ordering::Less
            } else {
                Ordering::Greater
            };
        }
        let a = self.keys.as_str().as_bytes();
        let b = other.keys.as_str().as_bytes();
        let ca = count_separators(a);
        let cb = count_separators(b);
        proof {
            lemma_part_count(a@);
            lemma_part_count(b@);
            if ca == cb {
                lemma_parts_cmp_is_lex(a@, b@);
            }
        }
        if ca != cb {
            return if ca < cb {
                Ordering::Less
            } else {
                Ordering::Greater
            };
        }
        compare_bytes(a, b)
    }
}

impl PartialEq for ClutchKey {
    fn eq(&self, other: &ClutchKey) -> (r: bool) {
        proof {
            lemma_key_cmp_equal(self@, other@);
        }
        match self.compare(other) {
            Ordering::Equal => true,
            _ => false,
        }
    }
}

impl vstd::std_specs::cmp::PartialEqSpecImpl for ClutchKey {
    open spec fn obeys_eq_spec() -> bool {
        true
    }

    open spec fn eq_spec(&self, other: &ClutchKey) -> bool {
        self@ == other@
    }
}

impl PartialOrd for ClutchKey {
    fn partial_cmp(&self, other: &ClutchKey) -> (r: Option<Ordering>) {
        Some(self.compare(other))
    }
}

impl vstd::std_specs::cmp::PartialOrdSpecImpl for ClutchKey {
    open spec fn obeys_partial_cmp_spec() -> bool {
        true
    }

    open spec fn partial_cmp_spec(&self, other: &ClutchKey) -> Option<Ordering> {
        Some(key_cmp(self@, other@))
    }
}

} // verus!
