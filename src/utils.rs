//! The color distance metric.

use vstd::prelude::*;

verus! {

/// Sum of the squared channel differences over the first `n` channels.
pub open spec fn delta_upto(a: Seq<u8>, b: Seq<u8>, n: nat) -> int
    decreases n,
{
    if n == 0 {
        0
    } else {
        let d = a[n - 1] as int - b[n - 1] as int;
        delta_upto(a, b, (n - 1) as nat) + d * d
    }
}

/// Number of color channels that the distance compares: red, green and blue,
/// as far as both colors have them. Alpha and anything after it never count.
pub open spec fn color_len(a: Seq<u8>, b: Seq<u8>) -> nat {
    if a.len() < 3 || b.len() < 3 {
        if a.len() <= b.len() {
            a.len()
        } else {
            b.len()
        }
    } else {
        3
    }
}

/// Squared Euclidean distance over red, green and blue.
pub open spec fn delta_spec(a: Seq<u8>, b: Seq<u8>) -> int {
    delta_upto(a, b, color_len(a, b))
}

/// Every channel adds at most 255 squared to the distance.
pub proof fn lemma_delta_upto_bounds(a: Seq<u8>, b: Seq<u8>, n: nat)
    ensures
        0 <= delta_upto(a, b, n) <= 65025 * n,
    decreases n,
{
    if n > 0 {
        lemma_delta_upto_bounds(a, b, (n - 1) as nat);
        let d = a[n - 1] as int - b[n - 1] as int;
        assert(0 <= d * d <= 65025) by (nonlinear_arith)
            requires
                -255 <= d <= 255,
        ;
    }
}

proof fn lemma_delta_upto_symmetric(a: Seq<u8>, b: Seq<u8>, n: nat)
    ensures
        delta_upto(a, b, n) == delta_upto(b, a, n),
    decreases n,
{
    if n > 0 {
        lemma_delta_upto_symmetric(a, b, (n - 1) as nat);
        let d = a[n - 1] as int - b[n - 1] as int;
        assert(d * d == (-d) * (-d)) by (nonlinear_arith);
    }
}

proof fn lemma_delta_upto_self(a: Seq<u8>, n: nat)
    ensures
        delta_upto(a, a, n) == 0,
    decreases n,
{
    if n > 0 {
        lemma_delta_upto_self(a, (n - 1) as nat);
    }
}

/// A distance of zero means the colors agree on every shared channel.
pub proof fn lemma_delta_upto_zero(a: Seq<u8>, b: Seq<u8>, n: nat)
    requires
        n <= a.len(),
        n <= b.len(),
        delta_upto(a, b, n) == 0,
    ensures
        forall|i: int| 0 <= i < n ==> a[i] == b[i],
    decreases n,
{
    if n > 0 {
        let d = a[n - 1] as int - b[n - 1] as int;
        lemma_delta_upto_bounds(a, b, (n - 1) as nat);
        assert(d * d >= 0) by (nonlinear_arith);
        assert(d == 0) by (nonlinear_arith)
            requires
                d * d == 0,
        ;
        lemma_delta_upto_zero(a, b, (n - 1) as nat);
    }
}

/// Colors that agree on the first `n` channels are at distance zero over them.
pub proof fn lemma_delta_upto_agree(a: Seq<u8>, b: Seq<u8>, n: nat)
    requires
        n <= a.len(),
        n <= b.len(),
        forall|i: int| 0 <= i < n ==> a[i] == b[i],
    ensures
        delta_upto(a, b, n) == 0,
    decreases n,
{
    if n > 0 {
        lemma_delta_upto_agree(a, b, (n - 1) as nat);
        let d = a[n - 1] as int - b[n - 1] as int;
        assert(d == 0);
        assert(d * d == 0);
    }
}

/// The distance is symmetric, and a color is at distance zero from itself.
pub proof fn lemma_delta_symmetric_and_reflexive(a: Seq<u8>, b: Seq<u8>)
    ensures
        delta_spec(a, b) == delta_spec(b, a),
        delta_spec(a, a) == 0,
{
    lemma_delta_upto_symmetric(a, b, color_len(a, b));
    lemma_delta_upto_self(a, color_len(a, a));
}

/// The distance is never negative and never exceeds 65025 per color channel,
/// so it is at most 195075.
pub proof fn lemma_delta_fits(a: Seq<u8>, b: Seq<u8>)
    ensures
        0 <= delta_spec(a, b) <= 65025 * color_len(a, b),
        delta_spec(a, b) <= 195075,
{
    lemma_delta_upto_bounds(a, b, color_len(a, b));
}

/// The distance is zero exactly when the colors agree on red, green and blue
/// (on as many of them as both have); alpha plays no part.
pub proof fn lemma_delta_zero_iff_same_color(a: Seq<u8>, b: Seq<u8>)
    ensures
        delta_spec(a, b) == 0 <==> forall|i: int| 0 <= i < color_len(a, b) ==> a[i] == b[i],
{
    if delta_spec(a, b) == 0 {
        lemma_delta_upto_zero(a, b, color_len(a, b));
    }
    if forall|i: int| 0 <= i < color_len(a, b) ==> a[i] == b[i] {
        lemma_delta_upto_agree(a, b, color_len(a, b));
    }
}

/// Squared Euclidean distance between two colors over red, green and blue:
/// the first three channels, or as many as the shorter slice has. Alpha and
/// any later channel are ignored.
pub fn delta(a: &[u8], b: &[u8]) -> (d: i32)
    ensures
        d as int == delta_spec(a@, b@),
        0 <= d <= 195075,
{
    let n: usize = if a.len() < 3 || b.len() < 3 {
        if a.len() <= b.len() {
            a.len()
        } else {
            b.len()
        }
    } else {
        3
    };
    let mut sum: i32 = 0;
    let mut i: usize = 0;
    while i < n
        invariant
            n == color_len(a@, b@),
            n <= 3,
            i <= n,
            sum as int == delta_upto(a@, b@, i as nat),
            0 <= sum <= 65025 * i,
        decreases n - i,
    {
        let d: i32 = a[i] as i32 - b[i] as i32;
        proof {
            lemma_delta_upto_bounds(a@, b@, (i + 1) as nat);
            assert(-255 <= d <= 255);
            assert(d * d <= 65025) by (nonlinear_arith)
                requires
                    -255 <= d <= 255,
            ;
        }
        sum = sum + d * d;
        i = i + 1;
    }
    sum
}

} // verus!
