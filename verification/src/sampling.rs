use vstd::prelude::*;

verus! {

/// The positions of the items of an array of length `len` that go into its
/// hash: all of them up to a thousand items, else five spread over it.
pub open spec fn array_sample(len: nat) -> Seq<nat> {
    if len > 1000 {
        seq![0, len / 4, len / 2, 3 * len / 4, (len - 1) as nat]
    } else {
        Seq::new(len, |i: int| i as nat)
    }
}

/// The positions, in sorted key order, of the entries of an object of size
/// `n` that go into its hash: all of them up to a hundred entries, else
/// twenty evenly spaced.
pub open spec fn object_sample(n: nat) -> Seq<nat> {
    if n > 100 {
        Seq::new(20, |i: int| (i * (n / 20)) as nat)
    } else {
        Seq::new(n, |i: int| i as nat)
    }
}

/// The positions of `array_sample`.
pub fn array_sample_positions(len: usize) -> (r: Vec<usize>)
    ensures
        r@.map_values(|i: usize| i as nat) == array_sample(len as nat),
        forall|k: int| 0 <= k < r.len() ==> r@[k] < len,
{
    if len > 1000 {
        let q = len / 4;
        let rem = len % 4;
        let three_quarters = 3 * q + (3 * rem) / 4;
        assert(three_quarters == 3 * len / 4 && three_quarters < len) by (nonlinear_arith)
            requires
                q == len / 4,
                rem == len % 4,
                three_quarters == 3 * q + (3 * rem) / 4,
                len > 1000,
        ;
        let r = vec![0, q, len / 2, three_quarters, len - 1];
        assert(r@.map_values(|i: usize| i as nat) =~= array_sample(len as nat));
        r
    } else {
        let mut r: Vec<usize> = Vec::new();
        let mut i: usize = 0;
        while i < len
            invariant
                i <= len,
                len <= 1000,
                r.len() == i,
                forall|k: int| 0 <= k < r.len() ==> r@[k] == k,
            decreases len - i,
        {
            r.push(i);
            i = i + 1;
        }
        assert(r@.map_values(|i: usize| i as nat) =~= array_sample(len as nat));
        r
    }
}

/// The positions of `object_sample`.
pub fn object_sample_positions(n: usize) -> (r: Vec<usize>)
    ensures
        r@.map_values(|i: usize| i as nat) == object_sample(n as nat),
        forall|k: int| 0 <= k < r.len() ==> r@[k] < n,
{
    let mut r: Vec<usize> = Vec::new();
    if n > 100 {
        let step = n / 20;
        let mut i: usize = 0;
        while i < 20
            invariant
                i <= 20,
                n > 100,
                step == n / 20,
                r.len() == i,
                forall|k: int| 0 <= k < r.len() ==> r@[k] == k * (n / 20) && r@[k] < n,
            decreases 20 - i,
        {
            assert(i * step < n) by (nonlinear_arith)
                requires
                    i < 20,
                    step == n / 20,
                    n > 100,
            ;
            r.push(i * step);
            i = i + 1;
        }
    } else {
        let mut i: usize = 0;
        while i < n
            invariant
                i <= n,
                n <= 100,
                r.len() == i,
                forall|k: int| 0 <= k < r.len() ==> r@[k] == k,
            decreases n - i,
        {
            r.push(i);
            i = i + 1;
        }
    }
    assert(r@.map_values(|i: usize| i as nat) =~= object_sample(n as nat));
    r
}

} // verus!
