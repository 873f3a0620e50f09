//! Prefix sums over signed 64-bit delta streams.
use vstd::prelude::*;

verus! {

/// Wrapping sum of `seed` and the first `n` deltas of `d`.
pub open spec fn running_sum(seed: i64, d: Seq<i64>, n: int) -> i64
    decreases n,
{
    if n <= 0 {
        seed
    } else {
        running_sum(seed, d, n - 1).wrapping_add(d[n - 1])
    }
}

/// The absolute values encoded by the delta stream `d` when the running
/// value starts at `seed`: entry `i` is `seed + d[0] + ... + d[i]`.
pub open spec fn prefix_sums(seed: i64, d: Seq<i64>) -> Seq<i64> {
    Seq::new(d.len(), |i: int| running_sum(seed, d, i + 1))
}

/// `out` holds the decoded prefix of `input` and is unchanged past it.
pub open spec fn decoded_into(seed: i64, input: Seq<i64>, before: Seq<i64>, out: Seq<i64>) -> bool {
    &&& out.len() == before.len()
    &&& forall|i: int| 0 <= i < input.len() ==> out[i] == running_sum(seed, input, i + 1)
    &&& forall|i: int| input.len() <= i < out.len() ==> out[i] == before[i]
}

/// Decodes `input` into `output` one element at a time and returns the final
/// running value.
pub fn delta_decode_scalar(input: &[i64], output: &mut [i64], last: i64) -> (r: i64)
    requires
        input@.len() <= old(output)@.len(),
    ensures
        r == running_sum(last, input@, input@.len() as int),
        decoded_into(last, input@, old(output)@, final(output)@),
{
    let mut acc = last;
    let mut i: usize = 0;
    while i < input.len()
        invariant
            input@.len() <= output@.len(),
            output@.len() == old(output)@.len(),
            0 <= i <= input@.len(),
            acc == running_sum(last, input@, i as int),
            forall|j: int| 0 <= j < i ==> output@[j] == running_sum(last, input@, j + 1),
            forall|j: int| i <= j < output@.len() ==> output@[j] == old(output)@[j],
        decreases input@.len() - i,
    {
        acc = acc.wrapping_add(input[i]);
        output[i] = acc;
        i += 1;
    }
    acc
}

/// Decodes `input` into `output` in groups of `lanes` elements, each group
/// summed in a register-sized block, with the ragged tail done one element at
/// a time. Gives the same result as [`delta_decode_scalar`].
pub fn delta_decode_lanes(input: &[i64], output: &mut [i64], last: i64, lanes: usize) -> (r: i64)
    requires
        input@.len() <= old(output)@.len(),
        0 < lanes <= 8,
    ensures
        r == running_sum(last, input@, input@.len() as int),
        decoded_into(last, input@, old(output)@, final(output)@),
{
    let n = input.len();
    let mut acc = last;
    let mut i: usize = 0;
    let mut buf: [i64; 8] = [0i64; 8];
    while lanes <= n - i
        invariant
            n == input@.len(),
            n <= output@.len(),
            output@.len() == old(output)@.len(),
            0 < lanes <= 8,
            0 <= i <= n,
            acc == running_sum(last, input@, i as int),
            forall|j: int| 0 <= j < i ==> output@[j] == running_sum(last, input@, j + 1),
            forall|j: int| i <= j < output@.len() ==> output@[j] == old(output)@[j],
        decreases n - i,
    {
        let mut lane: usize = 0;
        while lane < lanes
            invariant
                n == input@.len(),
                i + lanes <= n,
                0 < lanes <= 8,
                0 <= lane <= lanes,
                buf@.len() == 8,
                acc == running_sum(last, input@, i + lane),
                forall|j: int| 0 <= j < lane ==> buf@[j] == running_sum(last, input@, i + j + 1),
            decreases lanes - lane,
        {
            acc = acc.wrapping_add(input[i + lane]);
            buf[lane] = acc;
            lane += 1;
        }
        let mut k: usize = 0;
        while k < lanes
            invariant
                n == input@.len(),
                n <= output@.len(),
                output@.len() == old(output)@.len(),
                i + lanes <= n,
                0 < lanes <= 8,
                0 <= k <= lanes,
                buf@.len() == 8,
                forall|j: int| 0 <= j < lanes ==> buf@[j] == running_sum(last, input@, i + j + 1),
                forall|j: int| 0 <= j < i + k ==> output@[j] == running_sum(last, input@, j + 1),
                forall|j: int| i + k <= j < output@.len() ==> output@[j] == old(output)@[j],
            decreases lanes - k,
        {
            output[i + k] = buf[k];
            k += 1;
        }
        i += lanes;
    }
    while i < n
        invariant
            n == input@.len(),
            n <= output@.len(),
            output@.len() == old(output)@.len(),
            0 <= i <= n,
            acc == running_sum(last, input@, i as int),
            forall|j: int| 0 <= j < i ==> output@[j] == running_sum(last, input@, j + 1),
            forall|j: int| i <= j < output@.len() ==> output@[j] == old(output)@[j],
        decreases n - i,
    {
        acc = acc.wrapping_add(input[i]);
        output[i] = acc;
        i += 1;
    }
    acc
}

/// Decodes the delta stream `input` into `output`, starting from `last`, and
/// returns the final running value (to seed a following stream). Addition
/// wraps on overflow.
pub fn delta_decode_i64(input: &[i64], output: &mut [i64], last: i64) -> (r: i64)
    requires
        input@.len() <= old(output)@.len(),
    ensures
        r == running_sum(last, input@, input@.len() as int),
        decoded_into(last, input@, old(output)@, final(output)@),
{
    delta_decode_lanes(input, output, last, 4)
}

/// Decodes a delta stream that starts from zero into a fresh vector.
pub fn decode_deltas(input: &[i64]) -> (r: Vec<i64>)
    ensures
        r@ == prefix_sums(0, input@),
{
    let mut out: Vec<i64> = vec![0i64; input.len()];
    delta_decode_i64(input, out.as_mut_slice(), 0);
    proof {
        assert(out@ =~= prefix_sums(0, input@));
    }
    out
}

/// The scalar and lane-grouped decoders agree: two outputs that both hold
/// the decoded prefix of the same input, over the same buffer, are equal
/// (and so are the running values returned with them).
pub proof fn lemma_decode_paths_agree(seed: i64, input: Seq<i64>, before: Seq<i64>, a: Seq<i64>, b: Seq<i64>)
    requires
        decoded_into(seed, input, before, a),
        decoded_into(seed, input, before, b),
    ensures
        a == b,
{
    assert(a =~= b);
}

} // verus!
