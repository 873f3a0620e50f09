//! Run boundaries of the interleaved key/value stream of dense nodes.
use vstd::prelude::*;

verus! {

/// Index just past the run of `(k, v)` pairs that starts at `idx`: past its
/// zero terminator, or, when the terminator is missing, past the last whole
/// pair (a lone trailing key is left out).
pub open spec fn run_end(kv: Seq<i32>, idx: int) -> int
    decreases kv.len() - idx,
{
    if idx >= kv.len() {
        kv.len() as int
    } else if kv[idx] == 0 {
        idx + 1
    } else if idx + 1 >= kv.len() {
        idx
    } else {
        run_end(kv, idx + 2)
    }
}

/// The `n + 1` run boundaries of `n` nodes: starts at 0, and each boundary is
/// the end of the run that starts at the previous one.
pub open spec fn kv_offsets_of(kv: Seq<i32>, n: nat) -> Seq<int>
    decreases n,
{
    if n == 0 {
        seq![0int]
    } else {
        let p = kv_offsets_of(kv, (n - 1) as nat);
        p.push(run_end(kv, p.last()))
    }
}

/// A run from `a` to `b` is a sequence of pairs whose keys are non-zero,
/// closed by a zero terminator.
pub open spec fn terminated_run(kv: Seq<i32>, a: int, b: int) -> bool {
    &&& a < b
    &&& (b - 1 - a) % 2 == 0
    &&& kv[b - 1] == 0
    &&& forall|j: int| a <= j < b - 1 && (j - a) % 2 == 0 ==> kv[j] != 0
}

/// A run from `a` that reaches the end of the stream without a terminator:
/// whole pairs with non-zero keys, followed by nothing but at most one lone
/// trailing key.
pub open spec fn open_run(kv: Seq<i32>, a: int, b: int) -> bool {
    &&& a <= b <= kv.len()
    &&& kv.len() - b <= 1
    &&& (b - a) % 2 == 0
    &&& forall|j: int| a <= j < b && (j - a) % 2 == 0 ==> kv[j] != 0
}

proof fn lemma_run_end(kv: Seq<i32>, a: int, idx: int)
    requires
        0 <= a <= idx <= kv.len(),
        (idx - a) % 2 == 0,
        forall|j: int| a <= j < idx && (j - a) % 2 == 0 ==> kv[j] != 0,
    ensures
        idx <= run_end(kv, idx) <= kv.len(),
        terminated_run(kv, a, run_end(kv, idx)) || open_run(kv, a, run_end(kv, idx)),
    decreases kv.len() - idx,
{
    if idx >= kv.len() {
    } else if kv[idx] == 0 {
    } else if idx + 1 >= kv.len() {
    } else {
        lemma_run_end(kv, a, idx + 2);
    }
}

/// The run boundaries of dense nodes are non-decreasing, start at 0, never
/// pass the end of the key/value stream, and each run between two
/// consecutive boundaries is an even number of entries (whole pairs with
/// non-zero keys), followed by a zero terminator unless it is the
/// unterminated tail of the stream.
pub proof fn lemma_kv_offsets_shape(kv: Seq<i32>, n: nat)
    ensures
        kv_offsets_of(kv, n).len() == n + 1,
        kv_offsets_of(kv, n)[0] == 0,
        forall|i: int| 0 <= i <= n ==> 0 <= #[trigger] kv_offsets_of(kv, n)[i] <= kv.len(),
        forall|i: int|
            0 <= i < n ==> kv_offsets_of(kv, n)[i] <= #[trigger] kv_offsets_of(kv, n)[i + 1],
        forall|i: int|
            0 <= i < n ==> terminated_run(kv, kv_offsets_of(kv, n)[i], #[trigger] kv_offsets_of(kv, n)[i + 1])
                || open_run(kv, kv_offsets_of(kv, n)[i], kv_offsets_of(kv, n)[i + 1]),
    decreases n,
{
    if n > 0 {
        let m = (n - 1) as nat;
        lemma_kv_offsets_shape(kv, m);
        let p = kv_offsets_of(kv, m);
        lemma_run_end(kv, p.last(), p.last());
        assert(kv_offsets_of(kv, n) == p.push(run_end(kv, p.last())));
    }
}

} // verus!
