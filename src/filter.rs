//! Write-once filter configuration of a reader: which element kinds are
//! decoded, and which tag keys are kept.
use vstd::prelude::*;

use crate::element::ElementFilter;
use crate::tags::table_view;
use vstd::string::StringSliceAdditionalSpecFns;

verus! {

/// Largest number of keys a tag filter may hold.
pub const MAX_TAGS: usize = 8;

/// Why a filter could not be registered.
#[derive(Clone, Copy, Debug, PartialEq, Eq, Structural)]
pub enum FilterError {
    /// A filter of this kind was registered before.
    AlreadySet,
    /// More than [`MAX_TAGS`] keys were given.
    TooManyKeys,
}

/// Lexicographic order on byte strings: decided at the first position
/// where they differ, a proper prefix coming first.
pub open spec fn bytes_lt(a: Seq<u8>, b: Seq<u8>) -> bool
    decreases a.len(),
{
    if a.len() == 0 {
        b.len() > 0
    } else if b.len() == 0 {
        false
    } else if a[0] != b[0] {
        a[0] < b[0]
    } else {
        bytes_lt(a.drop_first(), b.drop_first())
    }
}

/// Strictly increasing in lexicographic order.
pub open spec fn sorted_keys(k: Seq<Seq<u8>>) -> bool {
    forall|i: int, j: int| 0 <= i < j < k.len() ==> bytes_lt(k[i], k[j])
}

proof fn lemma_lt_irreflexive(a: Seq<u8>, b: Seq<u8>)
    ensures
        bytes_lt(a, b) ==> !bytes_lt(b, a) && a != b,
    decreases a.len(),
{
    if a.len() > 0 && b.len() > 0 && a[0] == b[0] {
        lemma_lt_irreflexive(a.drop_first(), b.drop_first());
        if a == b {
            assert(a.drop_first() == b.drop_first());
        }
    }
}

proof fn lemma_lt_total(a: Seq<u8>, b: Seq<u8>)
    ensures
        a != b ==> bytes_lt(a, b) || bytes_lt(b, a),
    decreases a.len(),
{
    if a.len() > 0 && b.len() > 0 && a[0] == b[0] {
        lemma_lt_total(a.drop_first(), b.drop_first());
        if a.drop_first() == b.drop_first() {
            assert(a =~= seq![a[0]] + a.drop_first());
            assert(b =~= seq![b[0]] + b.drop_first());
        }
    } else if a.len() == 0 && b.len() == 0 {
        assert(a =~= b);
    }
}

proof fn lemma_lt_transitive(a: Seq<u8>, b: Seq<u8>, c: Seq<u8>)
    requires
        bytes_lt(a, b),
        bytes_lt(b, c),
    ensures
        bytes_lt(a, c),
    decreases a.len(),
{
    if a.len() > 0 && b.len() > 0 && c.len() > 0 && a[0] == b[0] && b[0] == c[0] {
        lemma_lt_transitive(a.drop_first(), b.drop_first(), c.drop_first());
    }
}

/// Sorted keys hold each key once.
pub proof fn lemma_sorted_no_duplicates(k: Seq<Seq<u8>>)
    requires
        sorted_keys(k),
    ensures
        k.no_duplicates(),
{
    assert forall|i: int, j: int| 0 <= i < k.len() && 0 <= j < k.len() && i != j implies k[i] != k[j] by {
        if i < j {
            lemma_lt_irreflexive(k[i], k[j]);
        } else {
            lemma_lt_irreflexive(k[j], k[i]);
        }
    }
}

/// Whether `a` comes before `b` in lexicographic order.
pub fn bytes_less(a: &[u8], b: &[u8]) -> (r: bool)
    ensures
        r == bytes_lt(a@, b@),
{
    let mut i: usize = 0;
    proof {
        assert(a@.skip(0) =~= a@);
        assert(b@.skip(0) =~= b@);
    }
    while i < a.len() && i < b.len() && a[i] == b[i]
        invariant
            0 <= i <= a@.len(),
            i <= b@.len(),
            bytes_lt(a@, b@) == bytes_lt(a@.skip(i as int), b@.skip(i as int)),
        decreases a@.len() - i,
    {
        proof {
            assert(a@.skip(i as int).drop_first() =~= a@.skip(i + 1));
            assert(b@.skip(i as int).drop_first() =~= b@.skip(i + 1));
        }
        i += 1;
    }
    if i == a.len() {
        i < b.len()
    } else if i == b.len() {
        false
    } else {
        a[i] < b[i]
    }
}

/// The bytes of each of `tags`.
pub open spec fn tag_bytes(tags: Seq<&str>) -> Seq<Seq<u8>> {
    tags.map_values(|t: &str| t.spec_bytes())
}

/// Copies a byte slice into a new vector.
pub fn copy_bytes(s: &[u8]) -> (r: Vec<u8>)
    ensures
        r@ == s@,
{
    let mut out: Vec<u8> = Vec::with_capacity(s.len());
    let mut i: usize = 0;
    while i < s.len()
        invariant
            0 <= i <= s@.len(),
            out@ == s@.take(i as int),
        decreases s@.len() - i,
    {
        out.push(s[i]);
        i += 1;
        proof {
            assert(out@ =~= s@.take(i as int));
        }
    }
    proof {
        assert(s@.take(i as int) =~= s@);
    }
    out
}

/// Whether two byte strings are equal.
pub fn bytes_eq(a: &[u8], b: &[u8]) -> (r: bool)
    ensures
        r == (a@ == b@),
{
    if a.len() != b.len() {
        return false;
    }
    let mut i: usize = 0;
    while i < a.len()
        invariant
            a@.len() == b@.len(),
            0 <= i <= a@.len(),
            forall|j: int| 0 <= j < i ==> a@[j] == b@[j],
        decreases a@.len() - i,
    {
        if a[i] != b[i] {
            return false;
        }
        i += 1;
    }
    proof {
        assert(a@ =~= b@);
    }
    true
}

/// Whether `key` equals one of `keys`.
pub fn contains_key(keys: &[Vec<u8>], key: &[u8]) -> (r: bool)
    ensures
        r == table_view(keys@).contains(key@),
{
    let mut i: usize = 0;
    while i < keys.len()
        invariant
            0 <= i <= keys@.len(),
            forall|j: int| 0 <= j < i ==> keys@[j]@ != key@,
        decreases keys@.len() - i,
    {
        if bytes_eq(keys[i].as_slice(), key) {
            proof {
                assert(table_view(keys@)[i as int] == key@);
            }
            return true;
        }
        i += 1;
    }
    proof {
        if table_view(keys@).contains(key@) {
            let j = choose|j: int| 0 <= j < table_view(keys@).len() && table_view(keys@)[j] == key@;
            assert(keys@[j]@ == key@);
        }
    }
    false
}

/// The filters of one reader. Each can be registered once; until then all
/// element kinds, and all tags, are kept.
pub struct FilterConfig {
    element: Option<ElementFilter>,
    tag_keys: Option<Vec<Vec<u8>>>,
}

impl FilterConfig {
    #[verifier::type_invariant]
    spec fn inv(self) -> bool {
        match self.tag_keys {
            Some(k) => k@.len() <= MAX_TAGS && sorted_keys(table_view(k@)),
            None => true,
        }
    }

    /// The registered element-kind filter.
    pub closed spec fn element(&self) -> Option<ElementFilter> {
        self.element
    }

    /// The registered tag-filter keys, each once, sorted.
    pub closed spec fn tag_keys(&self) -> Option<Seq<Seq<u8>>> {
        match self.tag_keys {
            Some(k) => Some(table_view(k@)),
            None => None,
        }
    }

    /// A configuration with no filter registered.
    pub fn new() -> (r: Self)
        ensures
            r.element() is None,
            r.tag_keys() is None,
    {
        FilterConfig { element: None, tag_keys: None }
    }

    /// Registers the element-kind filter. Fails with
    /// [`FilterError::AlreadySet`], and changes nothing, when one was
    /// registered before.
    pub fn apply_element_filter(&mut self, filter: ElementFilter) -> (r: Result<(), FilterError>)
        ensures
            old(self).element() is Some ==> r == Err::<(), FilterError>(FilterError::AlreadySet) && final(self).element() == old(self).element(),
            old(self).element() is None ==> r is Ok && final(self).element() == Some(filter),
            final(self).tag_keys() == old(self).tag_keys(),
    {
        proof {
            use_type_invariant(&*self);
        }
        if self.element.is_some() {
            return Err(FilterError::AlreadySet);
        }
        self.element = Some(filter);
        Ok(())
    }

    /// Registers the tag filter: only tags whose key is one of `tags` are
    /// kept (none given: all are kept). The keys are held once each, in
    /// lexicographic order. Fails, and changes nothing, with
    /// [`FilterError::AlreadySet`] when one was registered before, else with
    /// [`FilterError::TooManyKeys`] for more than [`MAX_TAGS`] keys.
    pub fn apply_tag_filter(&mut self, tags: &[&str]) -> (r: Result<(), FilterError>)
        ensures
            final(self).element() == old(self).element(),
            old(self).tag_keys() is Some ==> r == Err::<(), FilterError>(FilterError::AlreadySet) && final(self).tag_keys() == old(self).tag_keys(),
            old(self).tag_keys() is None && tags@.len() > MAX_TAGS ==> r == Err::<(), FilterError>(FilterError::TooManyKeys) && final(self).tag_keys() is None,
            old(self).tag_keys() is None && tags@.len() <= MAX_TAGS ==> {
                &&& r is Ok
                &&& final(self).tag_keys() is Some
                &&& sorted_keys(final(self).tag_keys().unwrap())
                &&& final(self).tag_keys().unwrap().to_set() == tag_bytes(tags@).to_set()
            },
    {
        proof {
            use_type_invariant(&*self);
        }
        if self.tag_keys.is_some() {
            return Err(FilterError::AlreadySet);
        }
        if tags.len() > MAX_TAGS {
            return Err(FilterError::TooManyKeys);
        }
        let ghost tb = tag_bytes(tags@);
        let mut keys: Vec<Vec<u8>> = Vec::new();
        let mut i: usize = 0;
        while i < tags.len()
            invariant
                tags@.len() <= MAX_TAGS,
                tb == tag_bytes(tags@),
                0 <= i <= tags@.len(),
                sorted_keys(table_view(keys@)),
                table_view(keys@).to_set() == tb.take(i as int).to_set(),
                keys@.len() <= i,
            decreases tags@.len() - i,
        {
            let b = tags[i].as_bytes();
            let ghost before = table_view(keys@);
            let mut p: usize = 0;
            while p < keys.len() && bytes_less(keys[p].as_slice(), b)
                invariant
                    0 <= p <= keys@.len(),
                    before == table_view(keys@),
                    forall|q: int| 0 <= q < p ==> bytes_lt(#[trigger] before[q], b@),
                decreases keys@.len() - p,
            {
                p += 1;
            }
            let dup = p < keys.len() && bytes_eq(keys[p].as_slice(), b);
            if !dup {
                keys.insert(p, copy_bytes(b));
                proof {
                    let after = table_view(keys@);
                    assert(after =~= before.insert(p as int, b@));
                    if p < before.len() {
                        lemma_lt_total(before[p as int], b@);
                    }
                    assert forall|x: int, y: int| 0 <= x < y < after.len() implies bytes_lt(after[x], after[y]) by {
                        if y < p {
                        } else if x > p {
                            assert(after[x] == before[x - 1] && after[y] == before[y - 1]);
                        } else if x == p {
                            assert(bytes_lt(b@, before[p as int]));
                            if y - 1 > p {
                                lemma_lt_transitive(b@, before[p as int], before[y - 1]);
                            }
                        } else if y == p {
                            assert(bytes_lt(before[x], b@));
                        } else {
                            assert(after[y] == before[y - 1]);
                        }
                    }
                    assert(after.to_set() =~= before.to_set().insert(b@)) by {
                        assert forall|z: Seq<u8>| after.to_set().contains(z) <==> before.to_set().insert(b@).contains(z) by {
                            if after.to_set().contains(z) {
                                let w = choose|w: int| 0 <= w < after.len() && after[w] == z;
                                if w < p {
                                    assert(before[w] == z);
                                } else if w > p {
                                    assert(before[w - 1] == z);
                                }
                            }
                            if before.to_set().contains(z) {
                                let w = choose|w: int| 0 <= w < before.len() && before[w] == z;
                                if w < p {
                                    assert(after[w] == z);
                                } else {
                                    assert(after[w + 1] == z);
                                }
                            }
                            if z == b@ {
                                assert(after[p as int] == z);
                            }
                        }
                    }
                }
            } else {
                proof {
                    assert(before[p as int] == b@);
                    assert(before.to_set().insert(b@) =~= before.to_set());
                }
            }
            proof {
                assert(tb.take(i + 1) =~= tb.take(i as int).push(tb[i as int]));
                assert(tb[i as int] == b@);
                let t1 = tb.take(i + 1);
                let t0 = tb.take(i as int);
                assert(t1.to_set() =~= t0.to_set().insert(b@)) by {
                    assert forall|z: Seq<u8>| t1.to_set().contains(z) <==> t0.to_set().insert(b@).contains(z) by {
                        if t1.to_set().contains(z) {
                            let w = choose|w: int| 0 <= w < t1.len() && t1[w] == z;
                            if w < i {
                                assert(t0[w] == z);
                            }
                        }
                        if t0.to_set().contains(z) {
                            let w = choose|w: int| 0 <= w < t0.len() && t0[w] == z;
                            assert(t1[w] == z);
                        }
                        if z == b@ {
                            assert(t1[i as int] == z);
                        }
                    }
                }
            }
            i += 1;
        }
        proof {
            assert(tb.take(i as int) =~= tb);
        }
        self.tag_keys = Some(keys);
        Ok(())
    }

    /// The registered element-kind filter.
    pub fn element_filter(&self) -> (r: Option<ElementFilter>)
        ensures
            r == self.element(),
    {
        self.element
    }

    /// The registered tag-filter keys.
    pub fn tag_filter(&self) -> (r: Option<&Vec<Vec<u8>>>)
        ensures
            r is Some == self.tag_keys() is Some,
            r matches Some(k) ==> self.tag_keys() == Some(table_view(k@)),
            r matches Some(k) ==> k@.len() <= MAX_TAGS,
    {
        proof {
            use_type_invariant(self);
        }
        match &self.tag_keys {
            Some(k) => Some(k),
            None => None,
        }
    }
}

} // verus!
