//! Iterators over the `(key, value)` tags of one element, resolved through
//! the block's string table and narrowed by the registered tag filter.
use vstd::prelude::*;

use crate::columns::admits_key;
use crate::offsets::{open_run, terminated_run};

verus! {

/// Whether the tag whose key has string-table index `k` is yielded: always
/// when no tag filter is registered or the filter is empty, else only when
/// `k` is one of the block's cached filter-key ids.
pub open spec fn admitted(k: int, ids: Seq<u32>, filter_len: Option<usize>) -> bool {
    match filter_len {
        Some(c) => c > 0 ==> in_ids(k, ids),
        None => true,
    }
}

/// `k` is one of the ids.
pub open spec fn in_ids(k: int, ids: Seq<u32>) -> bool {
    exists|j: int| 0 <= j < ids.len() && ids[j] as int == k
}

/// The string-table index pairs of an interleaved run `s`, read from `pos`:
/// pairs until a zero key, the end of the run, a missing value or an index
/// outside a table of `nt` strings; only the admitted ones are kept.
pub open spec fn dense_run(s: Seq<i32>, nt: int, ids: Seq<u32>, fl: Option<usize>, pos: int) -> Seq<(int, int)>
    decreases s.len() - pos,
{
    if pos < 0 || pos + 1 >= s.len() || s[pos] == 0 || s[pos] < 0 || s[pos] >= nt || s[pos + 1] < 0
        || s[pos + 1] >= nt {
        Seq::empty()
    } else {
        let rest = dense_run(s, nt, ids, fl, pos + 2);
        if admitted(s[pos] as int, ids, fl) {
            seq![(s[pos] as int, s[pos + 1] as int)] + rest
        } else {
            rest
        }
    }
}

/// The string-table index pairs of positionally paired `keys` and `vals`,
/// read from `pos`: pairs until either list ends or an index falls outside a
/// table of `nt` strings; only the admitted ones are kept.
pub open spec fn list_run(keys: Seq<u32>, vals: Seq<u32>, nt: int, ids: Seq<u32>, fl: Option<usize>, pos: int) -> Seq<(int, int)>
    decreases keys.len() - pos,
{
    if pos < 0 || pos >= keys.len() || pos >= vals.len() || keys[pos] >= nt || vals[pos] >= nt {
        Seq::empty()
    } else {
        let rest = list_run(keys, vals, nt, ids, fl, pos + 1);
        if admitted(keys[pos] as int, ids, fl) {
            seq![(keys[pos] as int, vals[pos] as int)] + rest
        } else {
            rest
        }
    }
}

/// `ids` are exactly the indices (up to `u32::MAX`) of the strings of
/// `table` that equal one of `keys`, in increasing order.
pub open spec fn is_tag_id_set(ids: Seq<u32>, table: Seq<Seq<u8>>, keys: Seq<Seq<u8>>) -> bool {
    &&& forall|j: int| 0 <= j < ids.len() ==> ids[j] < table.len() && keys.contains(#[trigger] table[ids[j] as int])
    &&& forall|i: int| 0 <= i < table.len() && i <= u32::MAX && keys.contains(#[trigger] table[i]) ==> in_ids(i, ids)
    &&& forall|a: int, b: int| 0 <= a < b < ids.len() ==> ids[a] < ids[b]
}

/// The bytes of each string of a table.
pub open spec fn table_view(t: Seq<Vec<u8>>) -> Seq<Seq<u8>> {
    t.map_values(|v: Vec<u8>| v@)
}

/// What `has_all_filter_keys` answers for tags whose admitted pairs are
/// `pending`: no registered filter gives `false`, else whether as many tags
/// are admitted as the filter has keys (so an empty registered filter, which
/// admits every tag, gives `true` only for an element without tags).
pub open spec fn has_all_spec(pending: Seq<(int, int)>, fl: Option<usize>) -> bool {
    match fl {
        Some(c) => pending.len() == c,
        None => false,
    }
}

pub proof fn lemma_dense_run_len(s: Seq<i32>, nt: int, ids: Seq<u32>, fl: Option<usize>, pos: int)
    requires
        0 <= pos,
    ensures
        dense_run(s, nt, ids, fl, pos).len() <= if pos <= s.len() { s.len() - pos } else { 0 },
    decreases s.len() - pos,
{
    if !(pos < 0 || pos + 1 >= s.len() || s[pos] == 0 || s[pos] < 0 || s[pos] >= nt || s[pos + 1] < 0
        || s[pos + 1] >= nt) {
        lemma_dense_run_len(s, nt, ids, fl, pos + 2);
    }
}

pub proof fn lemma_list_run_len(keys: Seq<u32>, vals: Seq<u32>, nt: int, ids: Seq<u32>, fl: Option<usize>, pos: int)
    requires
        0 <= pos,
    ensures
        list_run(keys, vals, nt, ids, fl, pos).len() <= if pos <= keys.len() { keys.len() - pos } else { 0 },
    decreases keys.len() - pos,
{
    if !(pos < 0 || pos >= keys.len() || pos >= vals.len() || keys[pos] >= nt || vals[pos] >= nt) {
        lemma_list_run_len(keys, vals, nt, ids, fl, pos + 1);
    }
}

/// Whether `k` is one of `ids`.
pub fn contains_id(ids: &[u32], k: u32) -> (r: bool)
    ensures
        r == in_ids(k as int, ids@),
{
    let mut i: usize = 0;
    while i < ids.len()
        invariant
            0 <= i <= ids@.len(),
            forall|j: int| 0 <= j < i ==> ids@[j] != k,
        decreases ids@.len() - i,
    {
        if ids[i] == k {
            return true;
        }
        i += 1;
    }
    false
}

/// Yields the `(key, value)` tags of one dense node as byte strings.
pub struct DenseNodeTagIter<'a> {
    slice: &'a [i32],
    table: &'a [Vec<u8>],
    pos: usize,
    cached_tag_ids: &'a [u32],
    filter_len: Option<usize>,
}

impl<'a> DenseNodeTagIter<'a> {
    /// The string table that the tags resolve through.
    pub closed spec fn table(&self) -> Seq<Seq<u8>> {
        table_view(self.table@)
    }

    /// The index pairs that are still to be yielded, in order.
    pub closed spec fn pending(&self) -> Seq<(int, int)> {
        dense_run(self.slice@, self.table@.len() as int, self.cached_tag_ids@, self.filter_len, self.pos as int)
    }

    /// The registered filter's number of keys, if a filter is registered.
    pub closed spec fn filter_len(&self) -> Option<usize> {
        self.filter_len
    }

    pub(crate) fn new(slice: &'a [i32], table: &'a [Vec<u8>], cached_tag_ids: &'a [u32], filter_len: Option<usize>) -> (r: Self)
        ensures
            r.table() == table_view(table@),
            r.pending() == dense_run(slice@, table@.len() as int, cached_tag_ids@, filter_len, 0),
            r.filter_len() == filter_len,
    {
        DenseNodeTagIter { slice, table, pos: 0, cached_tag_ids, filter_len }
    }

    /// Yields the next admitted tag, or `None` once the run is over.
    pub fn next(&mut self) -> (r: Option<(&'a [u8], &'a [u8])>)
        ensures
            final(self).table() == old(self).table(),
            final(self).filter_len() == old(self).filter_len(),
            old(self).pending().len() == 0 ==> r.is_none() && final(self).pending() == old(self).pending(),
            old(self).pending().len() > 0 ==> {
                &&& r.is_some()
                &&& r.unwrap().0@ == old(self).table()[old(self).pending()[0].0]
                &&& r.unwrap().1@ == old(self).table()[old(self).pending()[0].1]
                &&& final(self).pending() == old(self).pending().drop_first()
            },
    {
        let nt = self.table.len();
        loop
            invariant
                self.slice == old(self).slice,
                self.table == old(self).table,
                self.cached_tag_ids == old(self).cached_tag_ids,
                self.filter_len == old(self).filter_len,
                nt == self.table@.len(),
                self.pending() == old(self).pending(),
            decreases self.slice@.len() - self.pos,
        {
            let pos = self.pos;
            if pos >= self.slice.len() || self.slice.len() - pos < 2 {
                return None;
            }
            let k = self.slice[pos];
            let v = self.slice[pos + 1];
            if k == 0 || k < 0 || v < 0 || k as usize >= nt || v as usize >= nt {
                return None;
            }
            self.pos = pos + 2;
            if admits_key(k as u32, self.cached_tag_ids, self.filter_len) {
                let key = self.table[k as usize].as_slice();
                let val = self.table[v as usize].as_slice();
                proof {
                    assert(old(self).pending()[0] == (k as int, v as int));
                    assert(self.pending() =~= old(self).pending().drop_first());
                }
                return Some((key, val));
            }
        }
    }

    /// The number of tags that are still to be yielded.
    pub fn len(self) -> (r: usize)
        ensures
            r == self.pending().len(),
    {
        let mut it = self;
        let ghost total = it.pending().len();
        proof {
            lemma_dense_run_len(it.slice@, it.table@.len() as int, it.cached_tag_ids@, it.filter_len, it.pos as int);
        }
        let bound = it.slice.len();
        let mut count: usize = 0;
        while it.next().is_some()
            invariant
                count + it.pending().len() == total,
                total <= bound,
            decreases it.pending().len(),
        {
            count += 1;
        }
        count
    }

    /// Whether every key of the registered tag filter is among this node's
    /// tags, counting each admitted tag once (keys are taken to be distinct
    /// within one element): whether as many tags are admitted as the filter
    /// has keys. `false` when no tag filter is registered; under an empty
    /// registered filter, which admits every tag, `true` only for a node
    /// without tags.
    pub fn has_all_filter_keys(self) -> (r: bool)
        ensures
            r == has_all_spec(self.pending(), self.filter_len()),
    {
        match self.filter_len {
            Some(c) => self.len() == c,
            None => false,
        }
    }
}

/// Yields the `(key, value)` tags of one node, way or relation as byte
/// strings.
pub struct TagIter<'a> {
    keys: &'a [u32],
    vals: &'a [u32],
    table: &'a [Vec<u8>],
    pos: usize,
    cached_tag_ids: &'a [u32],
    filter_len: Option<usize>,
}

impl<'a> TagIter<'a> {
    /// The string table that the tags resolve through.
    pub closed spec fn table(&self) -> Seq<Seq<u8>> {
        table_view(self.table@)
    }

    /// The index pairs that are still to be yielded, in order.
    pub closed spec fn pending(&self) -> Seq<(int, int)> {
        list_run(self.keys@, self.vals@, self.table@.len() as int, self.cached_tag_ids@, self.filter_len, self.pos as int)
    }

    /// The registered filter's number of keys, if a filter is registered.
    pub closed spec fn filter_len(&self) -> Option<usize> {
        self.filter_len
    }

    pub(crate) fn new(keys: &'a [u32], vals: &'a [u32], table: &'a [Vec<u8>], cached_tag_ids: &'a [u32], filter_len: Option<usize>) -> (r: Self)
        ensures
            r.table() == table_view(table@),
            r.pending() == list_run(keys@, vals@, table@.len() as int, cached_tag_ids@, filter_len, 0),
            r.filter_len() == filter_len,
    {
        TagIter { keys, vals, table, pos: 0, cached_tag_ids, filter_len }
    }

    /// Yields the next admitted tag, or `None` once the lists are over.
    pub fn next(&mut self) -> (r: Option<(&'a [u8], &'a [u8])>)
        ensures
            final(self).table() == old(self).table(),
            final(self).filter_len() == old(self).filter_len(),
            old(self).pending().len() == 0 ==> r.is_none() && final(self).pending() == old(self).pending(),
            old(self).pending().len() > 0 ==> {
                &&& r.is_some()
                &&& r.unwrap().0@ == old(self).table()[old(self).pending()[0].0]
                &&& r.unwrap().1@ == old(self).table()[old(self).pending()[0].1]
                &&& final(self).pending() == old(self).pending().drop_first()
            },
    {
        let nt = self.table.len();
        loop
            invariant
                self.keys == old(self).keys,
                self.vals == old(self).vals,
                self.table == old(self).table,
                self.cached_tag_ids == old(self).cached_tag_ids,
                self.filter_len == old(self).filter_len,
                nt == self.table@.len(),
                self.pending() == old(self).pending(),
            decreases self.keys@.len() - self.pos,
        {
            let pos = self.pos;
            if pos >= self.keys.len() || pos >= self.vals.len() {
                return None;
            }
            let k = self.keys[pos];
            let v = self.vals[pos];
            if k as usize >= nt || v as usize >= nt {
                return None;
            }
            self.pos = pos + 1;
            if admits_key(k, self.cached_tag_ids, self.filter_len) {
                let key = self.table[k as usize].as_slice();
                let val = self.table[v as usize].as_slice();
                proof {
                    assert(old(self).pending()[0] == (k as int, v as int));
                    assert(self.pending() =~= old(self).pending().drop_first());
                }
                return Some((key, val));
            }
        }
    }

    /// The number of tags that are still to be yielded.
    pub fn len(self) -> (r: usize)
        ensures
            r == self.pending().len(),
    {
        let mut it = self;
        let ghost total = it.pending().len();
        proof {
            lemma_list_run_len(it.keys@, it.vals@, it.table@.len() as int, it.cached_tag_ids@, it.filter_len, it.pos as int);
        }
        let bound = it.keys.len();
        let mut count: usize = 0;
        while it.next().is_some()
            invariant
                count + it.pending().len() == total,
                total <= bound,
            decreases it.pending().len(),
        {
            count += 1;
        }
        count
    }

    /// Whether every key of the registered tag filter is among this
    /// element's tags, counting each admitted tag once (keys are taken to be
    /// distinct within one element): whether as many tags are admitted as
    /// the filter has keys. `false` when no tag filter is registered; under
    /// an empty registered filter, which admits every tag, `true` only for an
    /// element without tags.
    pub fn has_all_filter_keys(self) -> (r: bool)
        ensures
            r == has_all_spec(self.pending(), self.filter_len()),
    {
        match self.filter_len {
            Some(c) => self.len() == c,
            None => false,
        }
    }
}

/// The readable index pairs of an interleaved run, read from `pos`, with no
/// tag filter applied.
pub open spec fn dense_pairs(s: Seq<i32>, nt: int, pos: int) -> Seq<(int, int)> {
    dense_run(s, nt, Seq::empty(), None, pos)
}

/// The readable index pairs of paired key and value lists, read from `pos`,
/// with no tag filter applied.
pub open spec fn list_pairs(keys: Seq<u32>, vals: Seq<u32>, nt: int, pos: int) -> Seq<(int, int)> {
    list_run(keys, vals, nt, Seq::empty(), None, pos)
}

proof fn lemma_in_ids_key(k: int, table: Seq<Seq<u8>>, ids: Seq<u32>, fks: Seq<Seq<u8>>)
    requires
        is_tag_id_set(ids, table, fks),
        in_ids(k, ids),
    ensures
        0 <= k < table.len(),
        fks.contains(table[k]),
{
    let j = choose|j: int| 0 <= j < ids.len() && ids[j] as int == k;
    let t = table[ids[j] as int];
    assert(ids[j] < table.len());
    assert(fks.contains(t));
}

/// Tag-filter admissibility for dense nodes: with a non-empty filter `fks`
/// (and the block's key ids built for it), every yielded tag's key is a
/// filter key; with an empty filter or none, every readable tag is yielded.
pub proof fn lemma_dense_run_filter(s: Seq<i32>, table: Seq<Seq<u8>>, ids: Seq<u32>, fks: Seq<Seq<u8>>, pos: int)
    requires
        is_tag_id_set(ids, table, fks),
        fks.len() <= usize::MAX,
    ensures
        fks.len() > 0 ==> forall|j: int|
            0 <= j < dense_run(s, table.len() as int, ids, Some(fks.len() as usize), pos).len() ==> {
                let p = #[trigger] dense_run(s, table.len() as int, ids, Some(fks.len() as usize), pos)[j];
                0 <= p.0 < table.len() && fks.contains(table[p.0])
            },
        dense_run(s, table.len() as int, ids, Some(0), pos) == dense_pairs(s, table.len() as int, pos),
        dense_run(s, table.len() as int, ids, None, pos) == dense_pairs(s, table.len() as int, pos),
    decreases s.len() - pos,
{
    let nt = table.len() as int;
    if !(pos < 0 || pos + 1 >= s.len() || s[pos] == 0 || s[pos] < 0 || s[pos] >= nt || s[pos + 1] < 0 || s[pos + 1] >= nt) {
        lemma_dense_run_filter(s, table, ids, fks, pos + 2);
        if fks.len() > 0 {
            let fl = Some(fks.len() as usize);
            let run = dense_run(s, nt, ids, fl, pos);
            let rest = dense_run(s, nt, ids, fl, pos + 2);
            if admitted(s[pos] as int, ids, fl) {
                lemma_in_ids_key(s[pos] as int, table, ids, fks);
                assert forall|j: int| 0 <= j < run.len() implies {
                    let p = #[trigger] run[j];
                    0 <= p.0 < table.len() && fks.contains(table[p.0])
                } by {
                    if j > 0 {
                        assert(run[j] == rest[j - 1]);
                    }
                }
            }
        }
    }
}

/// Tag-filter admissibility for nodes, ways and relations: with a
/// non-empty filter `fks` (and the block's key ids built for it), every
/// yielded tag's key is a filter key; with an empty filter or none, every
/// readable tag is yielded.
pub proof fn lemma_list_run_filter(keys: Seq<u32>, vals: Seq<u32>, table: Seq<Seq<u8>>, ids: Seq<u32>, fks: Seq<Seq<u8>>, pos: int)
    requires
        is_tag_id_set(ids, table, fks),
        fks.len() <= usize::MAX,
    ensures
        fks.len() > 0 ==> forall|j: int|
            0 <= j < list_run(keys, vals, table.len() as int, ids, Some(fks.len() as usize), pos).len() ==> {
                let p = #[trigger] list_run(keys, vals, table.len() as int, ids, Some(fks.len() as usize), pos)[j];
                0 <= p.0 < table.len() && fks.contains(table[p.0])
            },
        list_run(keys, vals, table.len() as int, ids, Some(0), pos) == list_pairs(keys, vals, table.len() as int, pos),
        list_run(keys, vals, table.len() as int, ids, None, pos) == list_pairs(keys, vals, table.len() as int, pos),
    decreases keys.len() - pos,
{
    let nt = table.len() as int;
    if !(pos < 0 || pos >= keys.len() || pos >= vals.len() || keys[pos] >= nt || vals[pos] >= nt) {
        lemma_list_run_filter(keys, vals, table, ids, fks, pos + 1);
        if fks.len() > 0 {
            let fl = Some(fks.len() as usize);
            let run = list_run(keys, vals, nt, ids, fl, pos);
            let rest = list_run(keys, vals, nt, ids, fl, pos + 1);
            if admitted(keys[pos] as int, ids, fl) {
                lemma_in_ids_key(keys[pos] as int, table, ids, fks);
                assert forall|j: int| 0 <= j < run.len() implies {
                    let p = #[trigger] run[j];
                    0 <= p.0 < table.len() && fks.contains(table[p.0])
                } by {
                    if j > 0 {
                        assert(run[j] == rest[j - 1]);
                    }
                }
            }
        }
    }
}

/// Whether the tags of `run` carry every key of `fks`.
pub open spec fn carries_all(run: Seq<(int, int)>, table: Seq<Seq<u8>>, fks: Seq<Seq<u8>>) -> bool {
    forall|f: Seq<u8>| fks.contains(f) ==> exists|j: int| 0 <= j < run.len() && table[(#[trigger] run[j]).0] == f
}

/// Whether no two tags of `run` have the same key string.
pub open spec fn distinct_keys(run: Seq<(int, int)>, table: Seq<Seq<u8>>) -> bool {
    forall|a: int, b: int| 0 <= a < b < run.len() ==> table[run[a].0] != table[run[b].0]
}

proof fn lemma_has_all(run: Seq<(int, int)>, table: Seq<Seq<u8>>, fks: Seq<Seq<u8>>)
    requires
        fks.no_duplicates(),
        distinct_keys(run, table),
        forall|j: int| 0 <= j < run.len() ==> fks.contains(table[(#[trigger] run[j]).0]),
    ensures
        (run.len() == fks.len()) <==> carries_all(run, table, fks),
{
    let ks = run.map_values(|p: (int, int)| table[p.0]);
    assert forall|a: int, b: int| 0 <= a < ks.len() && 0 <= b < ks.len() && a != b implies ks[a] != ks[b] by {
        if a < b {
            assert(table[run[a].0] != table[run[b].0]);
        } else {
            assert(table[run[b].0] != table[run[a].0]);
        }
    }
    assert(ks.no_duplicates());
    ks.unique_seq_to_set();
    fks.unique_seq_to_set();
    let sk = ks.to_set();
    let sf = fks.to_set();
    assert(sk.subset_of(sf)) by {
        assert forall|x: Seq<u8>| sk.contains(x) implies sf.contains(x) by {
            let j = choose|j: int| 0 <= j < ks.len() && ks[j] == x;
            assert(fks.contains(table[run[j].0]));
        }
    }
    if run.len() == fks.len() {
        vstd::set_lib::lemma_subset_equality(sk, sf);
        assert forall|f: Seq<u8>| fks.contains(f) implies exists|j: int| 0 <= j < run.len() && table[(#[trigger] run[j]).0] == f by {
            assert(sf.contains(f));
            assert(sk.contains(f));
            let j = choose|j: int| 0 <= j < ks.len() && ks[j] == f;
            assert(table[run[j].0] == f);
        }
    }
    if carries_all(run, table, fks) {
        assert(sf.subset_of(sk)) by {
            assert forall|x: Seq<u8>| sf.contains(x) implies sk.contains(x) by {
                let j = choose|j: int| 0 <= j < run.len() && table[(#[trigger] run[j]).0] == x;
                assert(ks[j] == x);
            }
        }
        assert(sk =~= sf);
    }
}

/// The pairs of `ps` whose key string is one of `fks`, in order.
pub open spec fn keep_keys(ps: Seq<(int, int)>, table: Seq<Seq<u8>>, fks: Seq<Seq<u8>>) -> Seq<(int, int)>
    decreases ps.len(),
{
    if ps.len() == 0 {
        Seq::empty()
    } else {
        let rest = keep_keys(ps.drop_first(), table, fks);
        if fks.contains(table[ps[0].0]) {
            seq![ps[0]] + rest
        } else {
            rest
        }
    }
}

proof fn lemma_admitted_iff_key(k: int, table: Seq<Seq<u8>>, ids: Seq<u32>, fks: Seq<Seq<u8>>)
    requires
        is_tag_id_set(ids, table, fks),
        0 < fks.len() <= usize::MAX,
        0 <= k < table.len(),
        k <= u32::MAX,
    ensures
        admitted(k, ids, Some(fks.len() as usize)) <==> fks.contains(table[k]),
{
    if in_ids(k, ids) {
        lemma_in_ids_key(k, table, ids, fks);
    }
}

/// Tag-filter exactness for dense nodes: with a non-empty filter `fks`
/// (and the block's key ids built for it), the yielded tags are exactly the
/// readable tags whose key is a filter key, in order: none is skipped.
pub proof fn lemma_dense_run_exact(s: Seq<i32>, table: Seq<Seq<u8>>, ids: Seq<u32>, fks: Seq<Seq<u8>>, pos: int)
    requires
        is_tag_id_set(ids, table, fks),
        0 < fks.len() <= usize::MAX,
    ensures
        dense_run(s, table.len() as int, ids, Some(fks.len() as usize), pos) == keep_keys(dense_pairs(s, table.len() as int, pos), table, fks),
    decreases s.len() - pos,
{
    let nt = table.len() as int;
    if !(pos < 0 || pos + 1 >= s.len() || s[pos] == 0 || s[pos] < 0 || s[pos] >= nt || s[pos + 1] < 0 || s[pos + 1] >= nt) {
        lemma_dense_run_exact(s, table, ids, fks, pos + 2);
        lemma_admitted_iff_key(s[pos] as int, table, ids, fks);
        let ps = dense_pairs(s, nt, pos);
        assert(ps == seq![(s[pos] as int, s[pos + 1] as int)] + dense_pairs(s, nt, pos + 2));
        assert(ps.drop_first() =~= dense_pairs(s, nt, pos + 2));
    }
}

/// Tag-filter exactness for nodes, ways and relations: with a non-empty
/// filter `fks` (and the block's key ids built for it), the yielded tags are
/// exactly the readable tags whose key is a filter key, in order: none is
/// skipped.
pub proof fn lemma_list_run_exact(keys: Seq<u32>, vals: Seq<u32>, table: Seq<Seq<u8>>, ids: Seq<u32>, fks: Seq<Seq<u8>>, pos: int)
    requires
        is_tag_id_set(ids, table, fks),
        0 < fks.len() <= usize::MAX,
    ensures
        list_run(keys, vals, table.len() as int, ids, Some(fks.len() as usize), pos) == keep_keys(list_pairs(keys, vals, table.len() as int, pos), table, fks),
    decreases keys.len() - pos,
{
    let nt = table.len() as int;
    if !(pos < 0 || pos >= keys.len() || pos >= vals.len() || keys[pos] >= nt || vals[pos] >= nt) {
        lemma_list_run_exact(keys, vals, table, ids, fks, pos + 1);
        lemma_admitted_iff_key(keys[pos] as int, table, ids, fks);
        let ps = list_pairs(keys, vals, nt, pos);
        assert(ps == seq![(keys[pos] as int, vals[pos] as int)] + list_pairs(keys, vals, nt, pos + 1));
        assert(ps.drop_first() =~= list_pairs(keys, vals, nt, pos + 1));
    }
}

proof fn lemma_list_pairs_from(keys: Seq<u32>, vals: Seq<u32>, nt: int, pos: int)
    requires
        0 <= pos <= keys.len(),
        keys.len() == vals.len(),
        forall|j: int| 0 <= j < keys.len() ==> #[trigger] keys[j] < nt && vals[j] < nt,
    ensures
        list_pairs(keys, vals, nt, pos) == Seq::new((keys.len() - pos) as nat, |j: int| (keys[pos + j] as int, vals[pos + j] as int)),
    decreases keys.len() - pos,
{
    if pos < keys.len() {
        lemma_list_pairs_from(keys, vals, nt, pos + 1);
        assert(keys[pos] < nt && vals[pos] < nt);
    }
    assert(list_pairs(keys, vals, nt, pos) =~= Seq::new((keys.len() - pos) as nat, |j: int| (keys[pos + j] as int, vals[pos + j] as int)));
}

/// With no filter or an empty one, the tags of a node, way or relation whose
/// keys and values pair up one to one and all index the string table are
/// every `(keys[j], vals[j])`, in order.
pub proof fn lemma_list_pairs_whole(keys: Seq<u32>, vals: Seq<u32>, nt: int)
    requires
        keys.len() == vals.len(),
        forall|j: int| 0 <= j < keys.len() ==> #[trigger] keys[j] < nt && vals[j] < nt,
    ensures
        list_pairs(keys, vals, nt, 0) == Seq::new(keys.len(), |j: int| (keys[j] as int, vals[j] as int)),
{
    lemma_list_pairs_from(keys, vals, nt, 0);
    assert(list_pairs(keys, vals, nt, 0) =~= Seq::new(keys.len(), |j: int| (keys[j] as int, vals[j] as int)));
}

/// A run of `m` whole pairs with non-zero keys and in-table ids, ended by a
/// zero terminator or by the end of the run.
pub open spec fn well_formed_run(s: Seq<i32>, nt: int, m: int) -> bool {
    &&& 0 <= m
    &&& 2 * m <= s.len()
    &&& (s.len() == 2 * m || s[2 * m] == 0)
    &&& forall|p: int| 0 <= p < 2 * m && p % 2 == 0 ==> #[trigger] s[p] != 0 && 0 <= s[p] < nt && 0 <= s[p + 1] < nt
}

proof fn lemma_dense_pairs_from(s: Seq<i32>, nt: int, m: int, i: int)
    requires
        well_formed_run(s, nt, m),
        0 <= i <= m,
    ensures
        dense_pairs(s, nt, 2 * i) == Seq::new((m - i) as nat, |j: int| (s[2 * (i + j)] as int, s[2 * (i + j) + 1] as int)),
    decreases m - i,
{
    if i < m {
        lemma_dense_pairs_from(s, nt, m, i + 1);
        let p = 2 * i;
        assert(p % 2 == 0);
        assert(s[p] != 0 && 0 <= s[p] < nt && 0 <= s[p + 1] < nt);
        assert(2 * i + 2 == 2 * (i + 1));
    }
    assert(dense_pairs(s, nt, 2 * i) =~= Seq::new((m - i) as nat, |j: int| (s[2 * (i + j)] as int, s[2 * (i + j) + 1] as int)));
}

/// With no filter or an empty one, the tags of a dense node whose run is
/// `m` whole pairs `[k_0, v_0, ..., k_{m-1}, v_{m-1}]` (non-zero keys, ids in
/// the string table), then a zero terminator or nothing, are every
/// `(k_j, v_j)`, in order.
pub proof fn lemma_dense_pairs_whole(s: Seq<i32>, nt: int, m: int)
    requires
        well_formed_run(s, nt, m),
    ensures
        dense_pairs(s, nt, 0) == Seq::new(m as nat, |j: int| (s[2 * j] as int, s[2 * j + 1] as int)),
{
    lemma_dense_pairs_from(s, nt, m, 0);
    assert(dense_pairs(s, nt, 0) =~= Seq::new(m as nat, |j: int| (s[2 * j] as int, s[2 * j + 1] as int)));
}

proof fn lemma_keep_keys(ps: Seq<(int, int)>, table: Seq<Seq<u8>>, fks: Seq<Seq<u8>>)
    ensures
        forall|j: int| 0 <= j < keep_keys(ps, table, fks).len() ==>
            ps.contains(#[trigger] keep_keys(ps, table, fks)[j]) && fks.contains(table[keep_keys(ps, table, fks)[j].0]),
        forall|i: int| 0 <= i < ps.len() && fks.contains(table[(#[trigger] ps[i]).0]) ==> keep_keys(ps, table, fks).contains(ps[i]),
        distinct_keys(ps, table) ==> distinct_keys(keep_keys(ps, table, fks), table),
    decreases ps.len(),
{
    if ps.len() > 0 {
        let tail = ps.drop_first();
        let rest = keep_keys(tail, table, fks);
        let kk = keep_keys(ps, table, fks);
        lemma_keep_keys(tail, table, fks);
        assert forall|j: int| 0 <= j < kk.len() implies ps.contains(#[trigger] kk[j]) && fks.contains(table[kk[j].0]) by {
            if fks.contains(table[ps[0].0]) {
                if j == 0 {
                    assert(ps[0] == kk[j]);
                } else {
                    assert(kk[j] == rest[j - 1]);
                    let w = choose|w: int| 0 <= w < tail.len() && tail[w] == rest[j - 1];
                    assert(ps[w + 1] == kk[j]);
                }
            } else {
                assert(kk[j] == rest[j]);
                let w = choose|w: int| 0 <= w < tail.len() && tail[w] == rest[j];
                assert(ps[w + 1] == kk[j]);
            }
        }
        assert forall|i: int| 0 <= i < ps.len() && fks.contains(table[(#[trigger] ps[i]).0]) implies kk.contains(ps[i]) by {
            if i == 0 {
                assert(kk[0] == ps[0]);
            } else {
                assert(tail[i - 1] == ps[i]);
                assert(rest.contains(tail[i - 1]));
                let w = choose|w: int| 0 <= w < rest.len() && rest[w] == tail[i - 1];
                if fks.contains(table[ps[0].0]) {
                    assert(kk[w + 1] == ps[i]);
                } else {
                    assert(kk[w] == ps[i]);
                }
            }
        }
        if distinct_keys(ps, table) {
            assert(distinct_keys(tail, table)) by {
                assert forall|a: int, b: int| 0 <= a < b < tail.len() implies table[tail[a].0] != table[tail[b].0] by {
                    assert(tail[a] == ps[a + 1] && tail[b] == ps[b + 1]);
                }
            }
            if fks.contains(table[ps[0].0]) {
                assert forall|a: int, b: int| 0 <= a < b < kk.len() implies table[kk[a].0] != table[kk[b].0] by {
                    if a == 0 {
                        assert(kk[b] == rest[b - 1]);
                        let w = choose|w: int| 0 <= w < tail.len() && tail[w] == rest[b - 1];
                        assert(ps[w + 1] == kk[b]);
                        assert(kk[0] == ps[0]);
                    } else {
                        assert(kk[a] == rest[a - 1] && kk[b] == rest[b - 1]);
                    }
                }
            }
        }
    }
}

proof fn lemma_has_all_whole(run: Seq<(int, int)>, ps: Seq<(int, int)>, table: Seq<Seq<u8>>, fks: Seq<Seq<u8>>)
    requires
        run == keep_keys(ps, table, fks),
        fks.no_duplicates(),
        distinct_keys(ps, table),
    ensures
        (run.len() == fks.len()) <==> carries_all(ps, table, fks),
{
    lemma_keep_keys(ps, table, fks);
    assert forall|j: int| 0 <= j < run.len() implies fks.contains(table[(#[trigger] run[j]).0]) by {
        assert(ps.contains(run[j]));
    }
    lemma_has_all(run, table, fks);
    if carries_all(run, table, fks) {
        assert forall|f: Seq<u8>| fks.contains(f) implies exists|i: int| 0 <= i < ps.len() && table[(#[trigger] ps[i]).0] == f by {
            let j = choose|j: int| 0 <= j < run.len() && table[(#[trigger] run[j]).0] == f;
            assert(ps.contains(run[j]));
            let i = choose|i: int| 0 <= i < ps.len() && ps[i] == run[j];
            assert(table[ps[i].0] == f);
        }
    }
    if carries_all(ps, table, fks) {
        assert forall|f: Seq<u8>| fks.contains(f) implies exists|j: int| 0 <= j < run.len() && table[(#[trigger] run[j]).0] == f by {
            let i = choose|i: int| 0 <= i < ps.len() && table[(#[trigger] ps[i]).0] == f;
            assert(run.contains(ps[i]));
            let j = choose|j: int| 0 <= j < run.len() && run[j] == ps[i];
            assert(table[run[j].0] == f);
        }
    }
}

/// Tag presence for dense nodes: with a registered non-empty filter of
/// distinct keys `fks` (and the block's key ids built for it), and no key
/// repeated among a node's readable tags, `has_all_filter_keys` holds
/// exactly when the node carries a tag for every filter key.
pub proof fn lemma_dense_has_all(s: Seq<i32>, table: Seq<Seq<u8>>, ids: Seq<u32>, fks: Seq<Seq<u8>>)
    requires
        is_tag_id_set(ids, table, fks),
        fks.no_duplicates(),
        0 < fks.len() <= usize::MAX,
        distinct_keys(dense_pairs(s, table.len() as int, 0), table),
    ensures
        has_all_spec(dense_run(s, table.len() as int, ids, Some(fks.len() as usize), 0), Some(fks.len() as usize))
            <==> carries_all(dense_pairs(s, table.len() as int, 0), table, fks),
{
    lemma_dense_run_exact(s, table, ids, fks, 0);
    lemma_has_all_whole(
        dense_run(s, table.len() as int, ids, Some(fks.len() as usize), 0),
        dense_pairs(s, table.len() as int, 0),
        table,
        fks,
    );
}

/// Tag presence for nodes, ways and relations: with a registered non-empty
/// filter of distinct keys `fks` (and the block's key ids built for it), and
/// no key repeated among an element's readable tags, `has_all_filter_keys`
/// holds exactly when the element carries a tag for every filter key.
pub proof fn lemma_list_has_all(keys: Seq<u32>, vals: Seq<u32>, table: Seq<Seq<u8>>, ids: Seq<u32>, fks: Seq<Seq<u8>>)
    requires
        is_tag_id_set(ids, table, fks),
        fks.no_duplicates(),
        0 < fks.len() <= usize::MAX,
        distinct_keys(list_pairs(keys, vals, table.len() as int, 0), table),
    ensures
        has_all_spec(list_run(keys, vals, table.len() as int, ids, Some(fks.len() as usize), 0), Some(fks.len() as usize))
            <==> carries_all(list_pairs(keys, vals, table.len() as int, 0), table, fks),
{
    lemma_list_run_exact(keys, vals, table, ids, fks, 0);
    lemma_has_all_whole(
        list_run(keys, vals, table.len() as int, ids, Some(fks.len() as usize), 0),
        list_pairs(keys, vals, table.len() as int, 0),
        table,
        fks,
    );
}

proof fn lemma_run_pairs_shape(kv: Seq<i32>, a: int, b: int, nt: int, m: int)
    requires
        0 <= a <= b <= kv.len(),
        0 <= m,
        well_formed_run(kv.subrange(a, b), nt, m),
    ensures
        dense_pairs(kv.subrange(a, b), nt, 0) == Seq::new(m as nat, |j: int| (kv[a + 2 * j] as int, kv[a + 2 * j + 1] as int)),
{
    let sl = kv.subrange(a, b);
    lemma_dense_pairs_whole(sl, nt, m);
    assert forall|j: int| 0 <= j < m implies (#[trigger] sl[2 * j] as int, sl[2 * j + 1] as int) == (kv[a + 2 * j] as int, kv[a + 2 * j + 1] as int) by {
        assert(sl[2 * j] == kv[a + 2 * j]);
        assert(sl[2 * j + 1] == kv[a + 2 * j + 1]);
    }
    assert(Seq::new(m as nat, |j: int| (sl[2 * j] as int, sl[2 * j + 1] as int)) =~= Seq::new(
        m as nat,
        |j: int| (kv[a + 2 * j] as int, kv[a + 2 * j + 1] as int),
    ));
}

proof fn lemma_half(a: int, b: int) -> (m: int)
    requires
        a <= b,
    ensures
        m == (b - a) / 2,
        0 <= 2 * m <= b - a,
        b - a - 2 * m <= 1,
        (b - a) % 2 == 0 ==> b - a == 2 * m,
        (b - a - 1) % 2 == 0 ==> b - a == 2 * m + 1,
{
    (b - a) / 2
}

/// A dense run between two boundaries, as `compute_offsets` places them
/// (terminated, or the unterminated tail of the stream), whose entries all
/// index the string table, is `(b - a) / 2` whole pairs ended by a zero
/// terminator or by its end: with no filter or an empty one, its tags are
/// every pair of it, in order.
proof fn lemma_run_key(kv: Seq<i32>, a: int, b: int, nt: int, m: int, p: int)
    requires
        0 <= a <= b <= kv.len(),
        terminated_run(kv, a, b) || open_run(kv, a, b),
        terminated_run(kv, a, b) ==> b - a == 2 * m + 1,
        !terminated_run(kv, a, b) ==> b - a == 2 * m,
        forall|q: int| a <= q < b ==> 0 <= #[trigger] kv[q] < nt,
        0 <= p < 2 * m,
        p % 2 == 0,
    ensures
        kv.subrange(a, b)[p] != 0,
        0 <= kv.subrange(a, b)[p] < nt,
        0 <= kv.subrange(a, b)[p + 1] < nt,
{
    assert(kv.subrange(a, b)[p] == kv[a + p]);
    assert(kv.subrange(a, b)[p + 1] == kv[a + p + 1]);
    assert(a + p - a == p);
    assert(0 <= kv[a + p] < nt && 0 <= kv[a + p + 1] < nt);
}

#[verifier::rlimit(40)]
pub proof fn lemma_run_well_formed(kv: Seq<i32>, a: int, b: int, nt: int)
    requires
        0 <= a <= b <= kv.len(),
        terminated_run(kv, a, b) || open_run(kv, a, b),
        forall|q: int| a <= q < b ==> 0 <= #[trigger] kv[q] < nt,
    ensures
        well_formed_run(kv.subrange(a, b), nt, (b - a) / 2),
        dense_pairs(kv.subrange(a, b), nt, 0) == Seq::new(
            ((b - a) / 2) as nat,
            |j: int| (kv[a + 2 * j] as int, kv[a + 2 * j + 1] as int),
        ),
{
    let sl = kv.subrange(a, b);
    let m = lemma_half(a, b);
    let term = terminated_run(kv, a, b);
    if !term {
        assert((b - a) % 2 == 0);
        assert(b - a == 2 * m);
    } else {
        assert((b - 1 - a) % 2 == 0);
        assert(b - a == 2 * m + 1);
        assert(sl[2 * m] == kv[b - 1]);
    }
    assert forall|p: int| 0 <= p < 2 * m && p % 2 == 0 implies #[trigger] sl[p] != 0 && 0 <= sl[p] < nt && 0 <= sl[p + 1] < nt by {
        lemma_run_key(kv, a, b, nt, m, p);
    }
    assert(well_formed_run(sl, nt, m));
    lemma_run_pairs_shape(kv, a, b, nt, m);
}

} // verus!
