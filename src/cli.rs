use vstd::prelude::*;
use vstd::string::StringSliceAdditionalSpecFns;

verus! {

/// Flag of the `u32` value type in a type list.
pub const TU32: u32 = 1;

/// Flag of the `f64` value type in a type list.
pub const TF64: u32 = 2;

/// Byte that separates the names of a type list.
pub const LIST_SEPARATOR: u8 = 44;

/// The names of a comma-separated list, as `str::split` gives them: empty names included, and
/// one empty name for an empty list.
pub open spec fn list_names(s: Seq<u8>) -> Seq<Seq<u8>>
    decreases s.len(),
{
    if s.len() == 0 {
        seq![Seq::<u8>::empty()]
    } else if s.last() == LIST_SEPARATOR {
        list_names(s.drop_last()).push(Seq::<u8>::empty())
    } else {
        let names = list_names(s.drop_last());
        names.update(names.len() - 1, names.last().push(s.last()))
    }
}

/// The flag of a type name: `u32` and `f64` are known.
pub open spec fn type_flag(name: Seq<u8>) -> Option<u32> {
    if name == seq![117u8, 51u8, 50u8] {
        Some(TU32)
    } else if name == seq![102u8, 54u8, 52u8] {
        Some(TF64)
    } else {
        None
    }
}

/// The flags of all `names` joined, or `None` where one is unknown.
pub open spec fn flags_of(names: Seq<Seq<u8>>) -> Option<u32>
    decreases names.len(),
{
    if names.len() == 0 {
        Some(0)
    } else {
        match (flags_of(names.drop_last()), type_flag(names.last())) {
            (Some(acc), Some(f)) => Some(acc | f),
            _ => None,
        }
    }
}

proof fn lemma_list_names_nonempty(s: Seq<u8>)
    ensures
        list_names(s).len() >= 1,
    decreases s.len(),
{
    if s.len() > 0 {
        lemma_list_names_nonempty(s.drop_last());
    }
}

/// A name of a type list that is not a known type: bytes `start..end` of the list.
#[derive(Debug, Clone, Copy, PartialEq, Eq, Structural)]
pub struct UnknownType {
    pub start: usize,
    pub end: usize,
}

/// Whether `b[start..end]` is the name `u32` or `f64`, and its flag.
fn name_flag(b: &[u8], start: usize, end: usize) -> (r: Option<u32>)
    requires
        start <= end <= b@.len(),
    ensures
        r == type_flag(b@.subrange(start as int, end as int)),
{
    let ghost name = b@.subrange(start as int, end as int);
    if end - start != 3 {
        assert(seq![117u8, 51u8, 50u8].len() == 3);
        assert(seq![102u8, 54u8, 52u8].len() == 3);
        assert(name != seq![117u8, 51u8, 50u8]);
        assert(name != seq![102u8, 54u8, 52u8]);
        return None;
    }
    let c0 = b[start];
    let c1 = b[start + 1];
    let c2 = b[start + 2];
    assert(name =~= seq![c0, c1, c2]);
    if c0 == 117 && c1 == 51 && c2 == 50 {
        Some(TU32)
    } else if c0 == 102 && c1 == 54 && c2 == 52 {
        Some(TF64)
    } else {
        None
    }
}

/// The flags of a comma-separated list of type names (`u32`, `f64`), or the first name that is
/// not one.
pub fn parse_types_list(s: &str) -> (r: Result<u32, UnknownType>)
    ensures
        match r {
            Ok(v) => flags_of(list_names(s.spec_bytes())) == Some(v),
            Err(e) => {
                &&& flags_of(list_names(s.spec_bytes())) is None
                &&& e.start <= e.end <= s.spec_bytes().len()
                &&& type_flag(s.spec_bytes().subrange(e.start as int, e.end as int)) is None
            },
        },
{
    let b = s.as_bytes();
    let n = b.len();
    let mut acc: u32 = 0;
    let mut start: usize = 0;
    let mut i: usize = 0;
    assert(b@.subrange(0, 0) =~= Seq::<u8>::empty());
    assert(b@.subrange(0, 0) =~= b@.subrange(0, 0));
    while i < n
        invariant
            b@ == s.spec_bytes(),
            n == b@.len(),
            start <= i <= n,
            ({
                let names = list_names(b@.subrange(0, i as int));
                &&& names.len() >= 1
                &&& names.last() == b@.subrange(start as int, i as int)
                &&& flags_of(names.drop_last()) == Some(acc)
            }),
        decreases n - i,
    {
        let ghost prefix = b@.subrange(0, i as int);
        let ghost next = b@.subrange(0, i + 1);
        assert(next.drop_last() =~= prefix);
        proof {
            lemma_list_names_nonempty(prefix);
        }
        if b[i] == LIST_SEPARATOR {
            let f = name_flag(b, start, i);
            match f {
                Some(flag) => {
                    let ghost names = list_names(prefix);
                    assert(names.drop_last().push(names.last()) =~= names);
                    assert(list_names(next).drop_last() =~= names);
                    acc = acc | flag;
                    start = i + 1;
                    assert(b@.subrange(start as int, i + 1) =~= Seq::<u8>::empty());
                },
                None => {
                    proof {
                        lemma_unknown_stays(b@, i as int, start as int);
                    }
                    return Err(UnknownType { start, end: i });
                },
            }
        } else {
            let ghost names = list_names(prefix);
            assert(b@.subrange(start as int, i + 1) =~= b@.subrange(start as int, i as int).push(
                b@[i as int],
            ));
            assert(list_names(next).drop_last() =~= names.drop_last());
        }
        i = i + 1;
    }
    assert(b@.subrange(0, n as int) =~= b@);
    let ghost names = list_names(b@);
    assert(names.drop_last().push(names.last()) =~= names);
    match name_flag(b, start, n) {
        Some(flag) => Ok(acc | flag),
        None => Err(UnknownType { start, end: n }),
    }
}

/// Once a name before the last one of a prefix is unknown, one stays unknown in every longer
/// prefix.
proof fn lemma_flags_none_extends(s: Seq<u8>, k: int)
    requires
        0 <= k <= s.len(),
        flags_of(list_names(s.subrange(0, k)).drop_last()) is None,
    ensures
        flags_of(list_names(s).drop_last()) is None,
    decreases s.len() - k,
{
    if k < s.len() {
        let p = s.subrange(0, k);
        let q = s.subrange(0, k + 1);
        assert(q.drop_last() =~= p);
        lemma_list_names_nonempty(p);
        let names = list_names(p);
        if q.last() == LIST_SEPARATOR {
            assert(list_names(q).drop_last() =~= names);
        } else {
            assert(list_names(q).drop_last() =~= names.drop_last());
        }
        lemma_flags_none_extends(s, k + 1);
    } else {
        assert(s.subrange(0, k) =~= s);
    }
}

/// The names of the list up to and including a separator at `i`, where the name before it is
/// unknown, hold an unknown name; so do those of the whole list.
proof fn lemma_unknown_stays(s: Seq<u8>, i: int, start: int)
    requires
        0 <= start <= i < s.len(),
        s[i] == LIST_SEPARATOR,
        list_names(s.subrange(0, i)).len() >= 1,
        list_names(s.subrange(0, i)).last() == s.subrange(start, i),
        type_flag(s.subrange(start, i)) is None,
    ensures
        flags_of(list_names(s)) is None,
{
    let p = s.subrange(0, i);
    let q = s.subrange(0, i + 1);
    assert(q.drop_last() =~= p);
    let names = list_names(p);
    assert(list_names(q).drop_last() =~= names);
    lemma_flags_none_extends(s, i + 1);
    lemma_list_names_nonempty(s);
}

} // verus!
