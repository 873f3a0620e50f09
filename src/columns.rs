//! Building blocks of the bulk columnar views of element blocks: tag id
//! pairs and concatenated per-element columns.
use vstd::prelude::*;

use crate::osm::{member_code, MemberType};
use crate::tags::{admitted, contains_id};

verus! {

/// The sequences of `xs`, one after the other.
pub open spec fn concat<U>(xs: Seq<Seq<U>>) -> Seq<U>
    decreases xs.len(),
{
    if xs.len() == 0 {
        Seq::empty()
    } else {
        concat(xs.drop_last()) + xs.last()
    }
}

/// The running totals of the lengths of `xs`, as `u32`: `n + 1` entries
/// starting at 0.
pub open spec fn offsets_u32<U>(xs: Seq<Seq<U>>) -> Seq<u32> {
    Seq::new(xs.len() + 1, |i: int| concat(xs.take(i)).len() as u32)
}

/// The admitted `(key, value)` id pairs among the first `n` positions of
/// positionally paired `keys` and `vals`.
pub open spec fn raw_tags(keys: Seq<u32>, vals: Seq<u32>, ids: Seq<u32>, fl: Option<usize>, n: int) -> Seq<(u32, u32)>
    decreases n,
{
    if n <= 0 {
        Seq::empty()
    } else {
        let p = raw_tags(keys, vals, ids, fl, n - 1);
        if admitted(keys[n - 1] as int, ids, fl) {
            p.push((keys[n - 1], vals[n - 1]))
        } else {
            p
        }
    }
}

/// The admitted `(key, value)` id pairs of an element.
pub open spec fn element_tags(keys: Seq<u32>, vals: Seq<u32>, ids: Seq<u32>, fl: Option<usize>) -> Seq<(u32, u32)> {
    raw_tags(keys, vals, ids, fl, if keys.len() <= vals.len() { keys.len() as int } else { vals.len() as int })
}

/// The admitted `(key, value)` id pairs of the interleaved run `kv[i..end]`,
/// read pair by pair from `i` while a whole pair fits before `end`; ids are
/// reinterpreted as unsigned.
pub open spec fn dense_raw_tags(kv: Seq<i32>, ids: Seq<u32>, fl: Option<usize>, i: int, end: int) -> Seq<(u32, u32)>
    decreases end - i,
{
    if i + 1 >= end {
        Seq::empty()
    } else {
        let rest = dense_raw_tags(kv, ids, fl, i + 2, end);
        if admitted(kv[i] as u32 as int, ids, fl) {
            seq![(kv[i] as u32, kv[i + 1] as u32)] + rest
        } else {
            rest
        }
    }
}

/// The first members of pairs.
pub open spec fn firsts(s: Seq<(u32, u32)>) -> Seq<u32> {
    s.map_values(|p: (u32, u32)| p.0)
}

/// The second members of pairs.
pub open spec fn seconds(s: Seq<(u32, u32)>) -> Seq<u32> {
    s.map_values(|p: (u32, u32)| p.1)
}

/// Whether `ids` admits key `k` under a filter of `fl` keys.
pub fn admits_key(k: u32, ids: &[u32], fl: Option<usize>) -> (r: bool)
    ensures
        r == admitted(k as int, ids@, fl),
{
    match fl {
        Some(c) => c == 0 || contains_id(ids, k),
        None => true,
    }
}

/// Appends the admitted tag ids of one element to `key_out` and `val_out`.
pub fn push_tags(keys: &[u32], vals: &[u32], ids: &[u32], fl: Option<usize>, key_out: &mut Vec<u32>, val_out: &mut Vec<u32>)
    ensures
        final(key_out)@ == old(key_out)@ + firsts(element_tags(keys@, vals@, ids@, fl)),
        final(val_out)@ == old(val_out)@ + seconds(element_tags(keys@, vals@, ids@, fl)),
{
    let n = if keys.len() <= vals.len() { keys.len() } else { vals.len() };
    let mut i: usize = 0;
    while i < n
        invariant
            n <= keys@.len(),
            n <= vals@.len(),
            0 <= i <= n,
            key_out@ == old(key_out)@ + firsts(raw_tags(keys@, vals@, ids@, fl, i as int)),
            val_out@ == old(val_out)@ + seconds(raw_tags(keys@, vals@, ids@, fl, i as int)),
        decreases n - i,
    {
        let k = keys[i];
        let v = vals[i];
        if admits_key(k, ids, fl) {
            key_out.push(k);
            val_out.push(v);
        }
        i += 1;
        proof {
            let p = raw_tags(keys@, vals@, ids@, fl, i - 1);
            if admitted(k as int, ids@, fl) {
                assert(firsts(p.push((k, v))) =~= firsts(p).push(k));
                assert(seconds(p.push((k, v))) =~= seconds(p).push(v));
            }
            assert(key_out@ =~= old(key_out)@ + firsts(raw_tags(keys@, vals@, ids@, fl, i as int)));
            assert(val_out@ =~= old(val_out)@ + seconds(raw_tags(keys@, vals@, ids@, fl, i as int)));
        }
    }
}

/// Appends the admitted tag ids of the interleaved run `kv[start..end]` to
/// `key_out` and `val_out`.
pub fn push_dense_tags(kv: &[i32], start: usize, end: usize, ids: &[u32], fl: Option<usize>, key_out: &mut Vec<u32>, val_out: &mut Vec<u32>)
    requires
        start <= end <= kv@.len(),
    ensures
        final(key_out)@ == old(key_out)@ + firsts(dense_raw_tags(kv@, ids@, fl, start as int, end as int)),
        final(val_out)@ == old(val_out)@ + seconds(dense_raw_tags(kv@, ids@, fl, start as int, end as int)),
{
    let mut i = start;
    while i < end && end - i > 1
        invariant
            start <= i,
            end <= kv@.len(),
            i <= end + 1,
            (i - start) % 2 == 0,
            old(key_out)@ + firsts(dense_raw_tags(kv@, ids@, fl, start as int, end as int))
                == key_out@ + firsts(dense_raw_tags(kv@, ids@, fl, i as int, end as int)),
            old(val_out)@ + seconds(dense_raw_tags(kv@, ids@, fl, start as int, end as int))
                == val_out@ + seconds(dense_raw_tags(kv@, ids@, fl, i as int, end as int)),
        decreases end - i,
    {
        let k = kv[i] as u32;
        let v = kv[i + 1] as u32;
        let ghost rest = dense_raw_tags(kv@, ids@, fl, i + 2, end as int);
        let ghost ko = key_out@;
        let ghost vo = val_out@;
        if admits_key(k, ids, fl) {
            key_out.push(k);
            val_out.push(v);
            proof {
                assert(firsts(seq![(k, v)] + rest) =~= seq![k] + firsts(rest));
                assert(seconds(seq![(k, v)] + rest) =~= seq![v] + seconds(rest));
                assert(ko + (seq![k] + firsts(rest)) =~= key_out@ + firsts(rest));
                assert(vo + (seq![v] + seconds(rest)) =~= val_out@ + seconds(rest));
            }
        }
        i += 2;
    }
    proof {
        assert(dense_raw_tags(kv@, ids@, fl, i as int, end as int) == Seq::<(u32, u32)>::empty());
        assert(key_out@ + firsts(Seq::<(u32, u32)>::empty()) =~= key_out@);
        assert(val_out@ + seconds(Seq::<(u32, u32)>::empty()) =~= val_out@);
    }
}

/// Taking one more list extends the concatenation by that list and the
/// running totals by the new total.
pub proof fn lemma_concat_take<U>(xs: Seq<Seq<U>>, i: int)
    requires
        0 <= i < xs.len(),
    ensures
        concat(xs.take(i + 1)) == concat(xs.take(i)) + xs[i],
        offsets_u32(xs.take(i + 1)) == offsets_u32(xs.take(i)).push(concat(xs.take(i + 1)).len() as u32),
{
    assert(xs.take(i + 1).drop_last() =~= xs.take(i));
    let a = offsets_u32(xs.take(i + 1));
    let b = offsets_u32(xs.take(i)).push(concat(xs.take(i + 1)).len() as u32);
    assert forall|j: int| 0 <= j < a.len() implies a[j] == b[j] by {
        if j <= i {
            assert(xs.take(i + 1).take(j) =~= xs.take(i).take(j));
        } else {
            assert(xs.take(i + 1).take(j) =~= xs.take(i + 1));
        }
    }
    assert(a =~= b);
}

/// Pairs split over a concatenation.
pub proof fn lemma_pairs_split(a: Seq<(u32, u32)>, b: Seq<(u32, u32)>)
    ensures
        firsts(a + b) == firsts(a) + firsts(b),
        seconds(a + b) == seconds(a) + seconds(b),
        firsts(a).len() == a.len(),
{
    assert(firsts(a + b) =~= firsts(a) + firsts(b));
    assert(seconds(a + b) =~= seconds(a) + seconds(b));
}

/// Appends the wire codes of `types` to `out`.
pub fn push_codes(types: &[MemberType], out: &mut Vec<u8>)
    ensures
        final(out)@ == old(out)@ + types@.map_values(|t: MemberType| member_code(t)),
{
    let mut i: usize = 0;
    while i < types.len()
        invariant
            0 <= i <= types@.len(),
            out@ == old(out)@ + types@.take(i as int).map_values(|t: MemberType| member_code(t)),
        decreases types@.len() - i,
    {
        out.push(types[i].code());
        i += 1;
        proof {
            assert(out@ =~= old(out)@ + types@.take(i as int).map_values(|t: MemberType| member_code(t)));
        }
    }
    proof {
        assert(types@.take(i as int) =~= types@);
    }
}

/// Appends `vals` to `out`.
pub fn push_all(vals: &[i32], out: &mut Vec<i32>)
    ensures
        final(out)@ == old(out)@ + vals@,
{
    let mut i: usize = 0;
    while i < vals.len()
        invariant
            0 <= i <= vals@.len(),
            out@ == old(out)@ + vals@.take(i as int),
        decreases vals@.len() - i,
    {
        out.push(vals[i]);
        i += 1;
        proof {
            assert(out@ =~= old(out)@ + vals@.take(i as int));
        }
    }
    proof {
        assert(vals@.take(i as int) =~= vals@);
    }
}

} // verus!
