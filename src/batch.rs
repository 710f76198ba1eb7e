//! Partitioning an ordered list of records into sequential batches.
use vstd::arithmetic::div_mod::{
    lemma_div_pos_is_pos, lemma_fundamental_div_mod, lemma_fundamental_div_mod_converse,
    lemma_mod_pos_bound,
};
use vstd::prelude::*;

verus! {

/// Records per batch: `ceil(n / b)`.
pub open spec fn batch_size_spec(n: nat, b: nat) -> nat
    recommends
        b >= 1,
{
    ((n + b - 1) / b as int) as nat
}

/// How many batches actually run: batches stop as soon as every record is covered.
pub open spec fn batch_count_spec(n: nat, b: nat) -> nat {
    if n == 0 {
        0
    } else {
        let s = batch_size_spec(n, b);
        ((n + s - 1) / s as int) as nat
    }
}

/// First record of batch `t` (counting from zero).
pub open spec fn batch_start_spec(n: nat, b: nat, t: nat) -> nat {
    t * batch_size_spec(n, b)
}

/// One past the last record of batch `t`: the final configured batch takes
/// everything that remains; any other batch takes a full batch, or what is left.
pub open spec fn batch_end_spec(n: nat, b: nat, t: nat) -> nat {
    if t + 1 == b {
        n
    } else {
        let e = (t + 1) * batch_size_spec(n, b);
        if e < n {
            e
        } else {
            n
        }
    }
}

pub(crate) proof fn lemma_size_facts(n: nat, b: nat)
    requires
        b >= 1,
        n > 0,
    ensures
        batch_size_spec(n, b) >= 1,
        batch_size_spec(n, b) * b >= n,
        batch_count_spec(n, b) >= 1,
        batch_count_spec(n, b) <= b,
        batch_count_spec(n, b) * batch_size_spec(n, b) >= n,
        (batch_count_spec(n, b) - 1) * batch_size_spec(n, b) < n,
{
    let s = batch_size_spec(n, b);
    assert(s >= 1 && s * b >= n) by (nonlinear_arith)
        requires
            s == (n + b - 1) / b as int,
            b >= 1,
            n > 0,
    ;
    let c = batch_count_spec(n, b);
    assert(c >= 1 && c * s >= n && (c - 1) * s < n) by (nonlinear_arith)
        requires
            c == (n + s - 1) / s as int,
            s >= 1,
            n > 0,
    ;
    assert(c <= b) by (nonlinear_arith)
        requires
            c >= 1,
            (c - 1) * s < n,
            s * b >= n,
            s >= 1,
    ;
}

/// Batch sizes for `num_records` records split into `num_batches` batches.
pub fn batch_size(num_records: usize, num_batches: u32) -> (r: usize)
    requires
        num_batches >= 1,
    ensures
        r == batch_size_spec(num_records as nat, num_batches as nat),
{
    let b = num_batches as usize;
    let q = num_records / b;
    proof {
        let (n, bi) = (num_records as int, b as int);
        lemma_fundamental_div_mod(n, bi);
        lemma_div_pos_is_pos(n, bi);
        lemma_mod_pos_bound(n, bi);
        if n % bi == 0 {
            assert(n + bi - 1 == (n / bi) * bi + (bi - 1)) by (nonlinear_arith)
                requires
                    n == bi * (n / bi) + n % bi,
                    n % bi == 0,
            ;
            lemma_fundamental_div_mod_converse(n + bi - 1, bi, n / bi, bi - 1);
        } else {
            assert(n / bi < n) by (nonlinear_arith)
                requires
                    n == bi * (n / bi) + n % bi,
                    n % bi >= 1,
                    n / bi >= 0,
                    bi >= 1,
            ;
            assert(n + bi - 1 == (n / bi + 1) * bi + (n % bi - 1)) by (nonlinear_arith)
                requires
                    n == bi * (n / bi) + n % bi,
            ;
            lemma_fundamental_div_mod_converse(n + bi - 1, bi, n / bi + 1, n % bi - 1);
        }
    }
    if num_records % b == 0 {
        q
    } else {
        q + 1
    }
}

/// Batch coverage: the batches of a plan cover every record index below `n`
/// exactly once, never reach past `n`, and the last batch ends at `n`.
pub proof fn lemma_batch_coverage(n: nat, b: nat, i: nat)
    requires
        b >= 1,
        i < n,
    ensures
        exists|t: nat|
            t < batch_count_spec(n, b) && #[trigger] batch_start_spec(n, b, t) <= i
                < batch_end_spec(n, b, t),
        forall|t1: nat, t2: nat|
            t1 < batch_count_spec(n, b) && t2 < batch_count_spec(n, b) && #[trigger] batch_start_spec(
                n,
                b,
                t1,
            ) <= i < batch_end_spec(n, b, t1) && #[trigger] batch_start_spec(n, b, t2) <= i
                < batch_end_spec(n, b, t2) ==> t1 == t2,
        forall|t: nat| t < batch_count_spec(n, b) ==> #[trigger] batch_end_spec(n, b, t) <= n,
        batch_end_spec(n, b, (batch_count_spec(n, b) - 1) as nat) == n,
{
    lemma_size_facts(n, b);
    let s = batch_size_spec(n, b);
    let c = batch_count_spec(n, b);
    let t = i / s;
    lemma_fundamental_div_mod(i as int, s as int);
    lemma_mod_pos_bound(i as int, s as int);
    lemma_div_pos_is_pos(i as int, s as int);
    assert(t * s <= i < (t + 1) * s) by (nonlinear_arith)
        requires
            i == s * t + i % s,
            0 <= i % s < s,
    ;
    assert(t < c) by (nonlinear_arith)
        requires
            t * s <= i,
            i < n,
            c * s >= n,
            s >= 1,
    ;
    assert(batch_start_spec(n, b, t as nat) <= i < batch_end_spec(n, b, t as nat));
    assert forall|t1: nat, t2: nat|
        t1 < c && t2 < c && #[trigger] batch_start_spec(n, b, t1) <= i < batch_end_spec(n, b, t1)
            && #[trigger] batch_start_spec(n, b, t2) <= i < batch_end_spec(n, b, t2) implies t1 == t2 by {
        if t1 < t2 {
            assert((t1 + 1) * s <= t2 * s) by (nonlinear_arith)
                requires
                    t1 + 1 <= t2,
            ;
        } else if t2 < t1 {
            assert((t2 + 1) * s <= t1 * s) by (nonlinear_arith)
                requires
                    t2 + 1 <= t1,
            ;
        }
    }
    assert(c * s == ((c - 1) as nat + 1) * s);
}

/// Batch `t` of a plan is not empty, lies within the records, and the next
/// batch starts where it ends; the last one ends at `n`.
pub proof fn lemma_batch_bounds(n: nat, b: nat, t: nat)
    requires
        b >= 1,
        t < batch_count_spec(n, b),
    ensures
        batch_start_spec(n, b, t) < batch_end_spec(n, b, t) <= n,
        t + 1 < batch_count_spec(n, b) ==> batch_end_spec(n, b, t) == batch_start_spec(
            n,
            b,
            t + 1,
        ),
        t + 1 == batch_count_spec(n, b) ==> batch_end_spec(n, b, t) == n,
{
    lemma_size_facts(n, b);
    let s = batch_size_spec(n, b);
    let c = batch_count_spec(n, b);
    assert(t * s <= (c - 1) * s) by (nonlinear_arith)
        requires
            t <= c - 1,
    ;
    assert((t + 1) * s == t * s + s) by (nonlinear_arith);
    if t + 1 < c {
        assert((t + 1) * s <= (c - 1) * s) by (nonlinear_arith)
            requires
                t + 1 <= c - 1,
        ;
    }
    if t + 1 == c {
        assert(c * s == (t + 1) * s);
    }
}

/// Where `t` batches of `s` fall short of `n` and `t + 1` do not, `t + 1` batches are needed.
proof fn lemma_count_exact(n: nat, s: nat, t: nat)
    requires
        s >= 1,
        t * s < n,
        n <= (t + 1) * s,
    ensures
        (n + s - 1) / s as int == t + 1,
{
    assert((t + 1) * s == t * s + s) by (nonlinear_arith);
    lemma_fundamental_div_mod_converse(n + s - 1, s as int, t + 1 as int, n - t * s - 1);
}

/// The `(start, end)` ranges of the batches that split `num_records` records
/// into `num_batches` batches, in order.
pub fn plan_batches(num_records: usize, num_batches: u32) -> (r: Vec<(usize, usize)>)
    requires
        num_batches >= 1,
    ensures
        r@.len() == batch_count_spec(num_records as nat, num_batches as nat),
        forall|t: int|
            0 <= t < r@.len() ==> r@[t].0 == batch_start_spec(
                num_records as nat,
                num_batches as nat,
                t as nat,
            ) && r@[t].1 == batch_end_spec(num_records as nat, num_batches as nat, t as nat),
{
    let ghost n = num_records as nat;
    let ghost b = num_batches as nat;
    let size = batch_size(num_records, num_batches);
    proof {
        if n > 0 {
            lemma_size_facts(n, b);
        }
    }
    let mut ranges: Vec<(usize, usize)> = Vec::new();
    let mut processed: usize = 0;
    let mut batch: u64 = 1;
    while processed < num_records
        invariant
            size == batch_size_spec(n, b),
            n == num_records,
            b == num_batches,
            b >= 1,
            n > 0 ==> size >= 1 && batch_count_spec(n, b) <= b && batch_count_spec(n, b) * size
                >= n && (batch_count_spec(n, b) - 1) * size < n,
            batch >= 1,
            ranges@.len() == batch - 1,
            processed <= num_records,
            processed < num_records ==> processed == (batch - 1) * size && batch - 1
                < batch_count_spec(n, b),
            processed == num_records ==> ranges@.len() == batch_count_spec(n, b),
            forall|t: int|
                0 <= t < ranges@.len() ==> ranges@[t].0 == batch_start_spec(n, b, t as nat)
                    && ranges@[t].1 == batch_end_spec(n, b, t as nat),
        decreases num_records - processed,
    {
        let ghost t = (batch - 1) as nat;
        assert(t * size + size == (t + 1) * size) by (nonlinear_arith);
        let remaining = num_records - processed;
        let take = if batch == num_batches as u64 {
            remaining
        } else if size < remaining {
            size
        } else {
            remaining
        };
        let end = processed + take;
        proof {
            if end == num_records {
                if t + 1 == b {
                    assert(batch_count_spec(n, b) == b);
                } else {
                    lemma_count_exact(n, size as nat, t);
                }
            } else {
                assert((t + 1) * size < n);
                assert((batch_count_spec(n, b) - 1) * size < n);
                if t + 1 >= batch_count_spec(n, b) {
                    assert((t + 1) * size >= batch_count_spec(n, b) * size) by (nonlinear_arith)
                        requires
                            t + 1 >= batch_count_spec(n, b),
                    ;
                }
            }
        }
        ranges.push((processed, end));
        processed = end;
        batch = batch + 1;
    }
    ranges
}

} // verus!
