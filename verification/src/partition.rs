//! Striding partition of the port space.
//!
//! Worker `worker_index` out of `worker_count` probes the ports
//! `worker_index + 1`, `worker_index + 1 + worker_count`,
//! `worker_index + 1 + 2 * worker_count`, ... up to `highest_port`.
//! Together the workers cover `[1, highest_port]` exactly once.

use vstd::prelude::*;

verus! {

use vstd::arithmetic::div_mod::lemma_fundamental_div_mod_converse;
use vstd::arithmetic::div_mod::lemma_mod_bound;
use vstd::arithmetic::div_mod::lemma_div_is_ordered;
use vstd::arithmetic::div_mod::lemma_div_of0;
use vstd::arithmetic::mul::lemma_mul_inequality;
use vstd::arithmetic::mul::lemma_mul_strict_inequality;

/// The port belongs to the stride of worker `worker_index`: it lies in
/// `[1, highest_port]` and its offset from port 1 leaves remainder
/// `worker_index` when divided by `worker_count`.
pub open spec fn assigned(worker_index: int, worker_count: int, highest_port: int, port: int) -> bool {
    &&& 1 <= port <= highest_port
    &&& (port - 1) % worker_count == worker_index
}

/// How many ports the stride of worker `worker_index` holds.
pub open spec fn assigned_count(worker_index: int, worker_count: int, highest_port: int) -> int {
    if worker_index + 1 > highest_port {
        0
    } else {
        (highest_port - worker_index - 1) / worker_count + 1
    }
}

/// `highest_port / worker_count`, rounded up.
pub open spec fn ceil_div(a: int, b: int) -> int {
    (a + b - 1) / b
}

/// The ports that one worker probes, in probing order: starting at
/// `worker_index + 1` and stepping by `worker_count` while the candidate
/// still lies within `[1, highest_port]`.
pub fn assign_ports(worker_index: u16, worker_count: u16, highest_port: u16) -> (ports: Vec<u16>)
    requires
        worker_count >= 1,
        worker_index < worker_count,
    ensures
        ports@.len() == assigned_count(worker_index as int, worker_count as int, highest_port as int),
        forall|k: int| 0 <= k < ports@.len() ==>
            #[trigger] ports@[k] as int == worker_index as int + 1 + k * (worker_count as int),
        forall|p: u16| ports@.contains(p) <==>
            assigned(worker_index as int, worker_count as int, highest_port as int, p as int),
        forall|k1: int, k2: int| 0 <= k1 < k2 < ports@.len() ==> ports@[k1] < ports@[k2],
{
    let ghost i = worker_index as int;
    let ghost w = worker_count as int;
    let ghost hp = highest_port as int;
    let mut ports: Vec<u16> = Vec::new();
    let mut port: u32 = worker_index as u32 + 1;
    proof {
        // surface that the fresh vector is empty, so the entry invariant's
        // product reduces to zero
        assert(ports@.len() == 0);
        assert(ports@.len() * w == 0);
    }
    while port <= highest_port as u32
        invariant
            i == worker_index as int,
            w == worker_count as int,
            hp == highest_port as int,
            1 <= w <= u16::MAX,
            0 <= i < w,
            0 <= hp <= u16::MAX,
            port as int == i + 1 + ports@.len() * w,
            port <= hp + w,
            forall|k: int| 0 <= k < ports@.len() ==>
                #[trigger] ports@[k] as int == i + 1 + k * w,
            forall|k: int| 0 <= k < ports@.len() ==> ports@[k] <= hp,
        decreases hp + w - port,
    {
        let ghost n = ports@.len() as int;
        ports.push(port as u16);
        port = port + worker_count as u32;
        proof {
            assert((n + 1) * w == n * w + w) by (nonlinear_arith);
        }
    }
    proof {
        let n = ports@.len() as int;
        // The loop left `i + 1 + n * w > hp`; pin n down as the stride count.
        if n > 0 {
            let last = n - 1;
            assert(ports@[last] as int == i + 1 + last * w);
            let r = hp - i - 1 - last * w;
            assert(n * w == last * w + w) by (nonlinear_arith)
                requires n == last + 1;
            lemma_fundamental_div_mod_converse(hp - i - 1, w, last, r);
            assert(n == assigned_count(i, w, hp));
        } else {
            assert(i + 1 > hp);
        }
        // Exactly the assigned ports appear.
        assert forall|p: u16| ports@.contains(p) <==> assigned(i, w, hp, p as int) by {
            if ports@.contains(p) {
                let k = choose|k: int| 0 <= k < ports@.len() && ports@[k] == p;
                assert(p as int == i + 1 + k * w);
                assert(k * w >= 0) by (nonlinear_arith)
                    requires k >= 0 && w >= 1;
                lemma_fundamental_div_mod_converse(p as int - 1, w, k, i);
                assert(assigned(i, w, hp, p as int));
            }
            if assigned(i, w, hp, p as int) {
                let q = (p as int - 1) / w;
                vstd::arithmetic::div_mod::lemma_fundamental_div_mod(p as int - 1, w);
                assert(p as int - 1 == w * q + i);
                assert(w * q == q * w) by (nonlinear_arith);
                if q < 0 {
                    lemma_mul_inequality(q, -1, w);
                    assert(p as int - 1 <= -w + i);
                    assert(false);
                }
                if q >= n {
                    lemma_mul_inequality(n, q, w);
                    assert(p as int - 1 >= n * w + i);
                    assert(p as int > hp);
                    assert(false);
                }
                assert(ports@[q] as int == i + 1 + q * w);
                assert(ports@[q] == p);
                assert(ports@.contains(p));
            }
        }
        // The stride is strictly ascending.
        assert forall|k1: int, k2: int| 0 <= k1 < k2 < ports@.len() implies ports@[k1] < ports@[k2] by {
            lemma_mul_strict_inequality(k1, k2, w);
        }
    }
    ports
}

/// Partition completeness: some worker probes the port.
pub open spec fn covered(worker_count: int, highest_port: int, port: int) -> bool {
    exists|wi: int| 0 <= wi < worker_count && #[trigger] assigned(wi, worker_count, highest_port, port)
}

/// Partition completeness: the union of the `worker_count` strides is exactly
/// `{1, ..., highest_port}` — every port of the range belongs to some worker,
/// and no port outside it belongs to any.
pub proof fn lemma_partition_complete(worker_count: int, highest_port: int)
    requires
        worker_count >= 1,
    ensures
        forall|port: int| #[trigger] covered(worker_count, highest_port, port) <==> 1 <= port <= highest_port,
{
    assert forall|port: int| #[trigger] covered(worker_count, highest_port, port) <==> 1 <= port <= highest_port by {
        if 1 <= port <= highest_port {
            let wi = (port - 1) % worker_count;
            lemma_mod_bound(port - 1, worker_count);
            assert(assigned(wi, worker_count, highest_port, port));
        }
        if covered(worker_count, highest_port, port) {
            let wi = choose|wi: int| 0 <= wi < worker_count
                && assigned(wi, worker_count, highest_port, port);
            assert(1 <= port <= highest_port);
        }
    }
}

/// Partition disjointness: no port lies on the strides of two different workers.
pub proof fn lemma_partition_disjoint(worker_count: int, highest_port: int)
    requires
        worker_count >= 1,
    ensures
        forall|wi: int, wj: int, port: int|
            #[trigger] assigned(wi, worker_count, highest_port, port)
            && #[trigger] assigned(wj, worker_count, highest_port, port)
            ==> wi == wj,
{
}

/// Termination bound: a worker's stride holds at most
/// `ceil(highest_port / worker_count)` ports, so its probe loop runs at most
/// that many iterations.
pub proof fn lemma_assigned_count_bound(worker_index: int, worker_count: int, highest_port: int)
    requires
        worker_count >= 1,
        0 <= worker_index < worker_count,
        highest_port >= 0,
    ensures
        0 <= assigned_count(worker_index, worker_count, highest_port)
            <= ceil_div(highest_port, worker_count),
{
    let w = worker_count;
    let hp = highest_port;
    lemma_div_of0(w);
    lemma_div_is_ordered(0, hp + w - 1, w);
    if worker_index + 1 <= hp {
        lemma_div_is_ordered(0, hp - worker_index - 1, w);
        lemma_div_is_ordered(hp - worker_index - 1, hp - 1, w);
        let q = (hp - 1) / w;
        let r = (hp - 1) % w;
        vstd::arithmetic::div_mod::lemma_fundamental_div_mod(hp - 1, w);
        lemma_mod_bound(hp - 1, w);
        assert((q + 1) * w == w * q + w) by (nonlinear_arith);
        lemma_fundamental_div_mod_converse(hp - 1 + w, w, q + 1, r);
        assert(ceil_div(hp, w) == q + 1);
    }
}

} // verus!
