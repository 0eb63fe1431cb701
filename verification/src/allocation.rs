//! First-fit allocation of ports from the shared pool.
//!
//! The pool is the range from a baseline up to `MAX_PORT`. A request for
//! several ports is served one port at a time: each pick is the lowest port of
//! the pool that is neither in use nor picked earlier in the same request.

use crate::errors::ErrorKind;
use vstd::prelude::*;
use vstd::set_lib::*;

verus! {

/// The baseline of the pool unless another one is configured.
pub const START_PORT: u32 = 8000;

/// The lowest port number that exists.
pub const MIN_PORT: u32 = 1;

/// The highest port number that exists.
pub const MAX_PORT: u32 = 65535;

/// Whether `p` belongs to the pool whose baseline is `start`.
pub open spec fn in_pool(start: u32, p: u32) -> bool {
    start <= p && MIN_PORT <= p <= MAX_PORT
}

/// Whether `p` is the lowest port of the pool that `taken` does not hold.
pub open spec fn is_least_free(taken: Seq<u32>, start: u32, p: u32) -> bool {
    &&& in_pool(start, p)
    &&& !taken.contains(p)
    &&& forall|q: u32| #[trigger] in_pool(start, q) && q < p ==> taken.contains(q)
}

/// Whether `picks` is what first-fit allocation yields when `used` is in use:
/// every pick is the lowest port of the pool that is neither in `used` nor
/// among the picks before it.
pub open spec fn is_first_fit(used: Seq<u32>, start: u32, picks: Seq<u32>) -> bool {
    forall|i: int|
        0 <= i < picks.len() ==> is_least_free(used + picks.take(i), start, #[trigger] picks[i])
}

/// The ports of the pool that are not in use.
pub open spec fn free_ports(used: Seq<u32>, start: u32) -> Set<u32> {
    Set::new(|p: u32| in_pool(start, p) && !used.contains(p))
}

/// The free ports are finitely many, at most as many as there are port numbers.
pub proof fn lemma_free_ports_finite(used: Seq<u32>, start: u32)
    ensures
        free_ports(used, start).finite(),
        free_ports(used, start).len() <= MAX_PORT,
{
    let numbers = set_int_range(1, MAX_PORT + 1);
    let ports = numbers.map(|i: int| i as u32);
    lemma_int_range(1, MAX_PORT + 1);
    numbers.lemma_map_finite(|i: int| i as u32);
    lemma_map_size(numbers, ports, |i: int| i as u32);
    assert forall|p: u32| free_ports(used, start).contains(p) implies ports.contains(p) by {
        assert(numbers.contains(p as int));
    }
    lemma_len_subset(free_ports(used, start), ports);
}

/// How many ports the pool whose baseline is `start` has.
pub open spec fn pool_size(start: u32) -> nat {
    if start > MAX_PORT {
        0
    } else if start < MIN_PORT {
        MAX_PORT as nat
    } else {
        (MAX_PORT - start + 1) as nat
    }
}

/// Every port of the pool is free unless it is in use: the free ports are at
/// least as many as the pool has ports beyond the number of used ports. So an
/// allocation of `count` ports succeeds wherever `count` and the number of
/// used ports together do not exceed the size of the pool.
pub proof fn lemma_free_ports_at_least(used: Seq<u32>, start: u32)
    ensures
        free_ports(used, start).len() + used.len() >= pool_size(start),
{
    if start <= MAX_PORT {
        let low: int = if start < MIN_PORT {
            MIN_PORT as int
        } else {
            start as int
        };
        let numbers = set_int_range(low, MAX_PORT + 1);
        let pool = numbers.map(|i: int| i as u32);
        let free = free_ports(used, start);
        lemma_int_range(low, MAX_PORT + 1);
        lemma_map_size(numbers, pool, |i: int| i as u32);
        lemma_free_ports_finite(used, start);
        vstd::seq_lib::seq_to_set_is_finite(used);
        used.lemma_cardinality_of_set();
        lemma_len_union(free, used.to_set());
        assert forall|p: u32| pool.contains(p) implies free.union(used.to_set()).contains(p) by {
            let i = choose|i: int| numbers.contains(i) && i as u32 == p;
            assert(in_pool(start, p));
        }
        lemma_len_subset(pool, free.union(used.to_set()));
    }
}

/// The picks of a first-fit allocation are free ports, and they ascend.
pub proof fn lemma_first_fit_ascends(used: Seq<u32>, start: u32, picks: Seq<u32>)
    requires
        is_first_fit(used, start, picks),
    ensures
        forall|i: int| 0 <= i < picks.len() ==> free_ports(used, start).contains(#[trigger] picks[i]),
        forall|i: int, j: int| 0 <= i < j < picks.len() ==> picks[i] < picks[j],
        picks.no_duplicates(),
{
    assert forall|i: int| 0 <= i < picks.len() implies free_ports(used, start).contains(
        #[trigger] picks[i],
    ) by {
        let taken = used + picks.take(i);
        if used.contains(picks[i]) {
            let k = choose|k: int| 0 <= k < used.len() && used[k] == picks[i];
            assert(taken[k] == picks[i]);
        }
    }
    assert forall|i: int, j: int| 0 <= i < j < picks.len() implies picks[i] < picks[j] by {
        // The later pick is not among the earlier ones, and everything of the
        // pool below the earlier pick was taken when that one was chosen.
        let at_j = used + picks.take(j);
        let at_i = used + picks.take(i);
        assert(at_j[used.len() + i] == picks[i]);
        assert(picks[j] != picks[i]);
        if picks[j] < picks[i] {
            assert(in_pool(start, picks[j]));
            assert(at_i.contains(picks[j]));
            let k = choose|k: int| 0 <= k < at_i.len() && at_i[k] == picks[j];
            assert(at_j[k] == picks[j]);
        }
    }
}

/// First-fit allocation has one result: two allocations of the same length
/// over the same used ports are equal.
pub proof fn lemma_first_fit_unique(used: Seq<u32>, start: u32, a: Seq<u32>, b: Seq<u32>)
    requires
        is_first_fit(used, start, a),
        is_first_fit(used, start, b),
        a.len() == b.len(),
    ensures
        a == b,
    decreases a.len(),
{
    if a.len() > 0 {
        let n = a.len() - 1;
        let a0 = a.take(n);
        let b0 = b.take(n);
        assert forall|i: int| 0 <= i < a0.len() implies is_least_free(
            used + a0.take(i),
            start,
            #[trigger] a0[i],
        ) by {
            assert(a0.take(i) == a.take(i));
            assert(a0[i] == a[i]);
        }
        assert forall|i: int| 0 <= i < b0.len() implies is_least_free(
            used + b0.take(i),
            start,
            #[trigger] b0[i],
        ) by {
            assert(b0.take(i) == b.take(i));
            assert(b0[i] == b[i]);
        }
        lemma_first_fit_unique(used, start, a0, b0);
        let taken = used + a0;
        assert(is_least_free(taken, start, a[n]));
        assert(is_least_free(taken, start, b[n]));
        if a[n] < b[n] {
            assert(in_pool(start, a[n]));
        }
        if b[n] < a[n] {
            assert(in_pool(start, b[n]));
        }
        assert(a =~= a0.push(a[n]));
        assert(b =~= b0.push(b[n]));
    } else {
        assert(a =~= b);
    }
}

/// A port of the pool that is not taken has a lowest such port at or below it.
proof fn lemma_least_free_exists(taken: Seq<u32>, start: u32, p: u32)
    requires
        in_pool(start, p),
        !taken.contains(p),
    ensures
        exists|q: u32| is_least_free(taken, start, q),
    decreases p,
{
    if exists|q: u32| #[trigger] in_pool(start, q) && q < p && !taken.contains(q) {
        let q = choose|q: u32| #[trigger] in_pool(start, q) && q < p && !taken.contains(q);
        lemma_least_free_exists(taken, start, q);
    } else {
        assert(is_least_free(taken, start, p));
    }
}

/// Where the pool holds at least `count` free ports, first-fit allocation of
/// `count` ports has a result.
pub proof fn lemma_first_fit_exists(used: Seq<u32>, count: nat, start: u32)
    requires
        count <= free_ports(used, start).len(),
    ensures
        exists|picks: Seq<u32>| picks.len() == count && #[trigger] is_first_fit(used, start, picks),
    decreases count,
{
    if count == 0 {
        assert(is_first_fit(used, start, Seq::<u32>::empty()));
    } else {
        lemma_first_fit_exists(used, (count - 1) as nat, start);
        let before = choose|picks: Seq<u32>|
            picks.len() == count - 1 && #[trigger] is_first_fit(used, start, picks);
        let free = free_ports(used, start);
        lemma_first_fit_ascends(used, start, before);
        lemma_free_ports_finite(used, start);
        vstd::seq_lib::seq_to_set_is_finite(before);
        before.lemma_cardinality_of_set();
        if free.subset_of(before.to_set()) {
            lemma_len_subset(free, before.to_set());
        }
        let p = choose|p: u32| free.contains(p) && !before.to_set().contains(p);
        let taken = used + before;
        if taken.contains(p) {
            let k = choose|k: int| 0 <= k < taken.len() && taken[k] == p;
            if k < used.len() {
                assert(used[k] == p);
            } else {
                assert(before[k - used.len()] == p);
            }
        }
        lemma_least_free_exists(taken, start, p);
        let q = choose|q: u32| is_least_free(taken, start, q);
        let picks = before.push(q);
        assert forall|i: int| 0 <= i < picks.len() implies is_least_free(
            used + picks.take(i),
            start,
            #[trigger] picks[i],
        ) by {
            if i < before.len() {
                assert(picks.take(i) =~= before.take(i));
                assert(picks[i] == before[i]);
            } else {
                assert(picks.take(i) =~= before);
            }
        }
        assert(picks.len() == count && is_first_fit(used, start, picks));
    }
}

/// The ports that first-fit allocation of `count` ports picks, in the order in
/// which it picks them, where the pool holds that many free ports.
pub open spec fn first_fit_picks(used: Seq<u32>, count: nat, start: u32) -> Seq<u32> {
    choose|picks: Seq<u32>| picks.len() == count && #[trigger] is_first_fit(used, start, picks)
}

/// `first_fit_picks` is the one result of first-fit allocation.
pub proof fn lemma_first_fit_picks(used: Seq<u32>, count: nat, start: u32)
    requires
        count <= free_ports(used, start).len(),
    ensures
        first_fit_picks(used, count, start).len() == count,
        is_first_fit(used, start, first_fit_picks(used, count, start)),
        forall|picks: Seq<u32>|
            picks.len() == count && #[trigger] is_first_fit(used, start, picks) ==> picks
                == first_fit_picks(used, count, start),
{
    lemma_first_fit_exists(used, count, start);
    assert forall|picks: Seq<u32>|
        picks.len() == count && #[trigger] is_first_fit(used, start, picks) implies picks
        == first_fit_picks(used, count, start) by {
        lemma_first_fit_unique(used, start, picks, first_fit_picks(used, count, start));
    }
}

/// A table with one entry for each port number, that tells which are in use.
fn occupancy(used: &Vec<u32>) -> (table: Vec<bool>)
    ensures
        table.len() == MAX_PORT + 1,
        forall|p: u32| p <= MAX_PORT ==> #[trigger] table[p as int] == used@.contains(p),
{
    let mut table: Vec<bool> = Vec::new();
    let mut n: u32 = 0;
    while n <= MAX_PORT
        invariant
            n <= MAX_PORT + 1,
            table.len() == n,
            forall|p: int| 0 <= p < n ==> !#[trigger] table[p],
        decreases MAX_PORT + 1 - n,
    {
        table.push(false);
        n = n + 1;
    }
    let mut i: usize = 0;
    while i < used.len()
        invariant
            i <= used.len(),
            table.len() == MAX_PORT + 1,
            forall|p: u32|
                p <= MAX_PORT ==> #[trigger] table[p as int] == used@.take(i as int).contains(p),
        decreases used.len() - i,
    {
        let port: u32 = used[i];
        if port <= MAX_PORT {
            table[port as usize] = true;
        }
        proof {
            let seen = used@.take(i as int);
            assert(used@.take(i + 1) =~= seen.push(port));
            assert forall|p: u32| p <= MAX_PORT implies #[trigger] table[p as int] == seen.push(
                port,
            ).contains(p) by {
                if p == port {
                    assert(seen.push(port)[seen.len() as int] == p);
                } else if seen.contains(p) {
                    let k = choose|k: int| 0 <= k < seen.len() && seen[k] == p;
                    assert(seen.push(port)[k] == p);
                }
            }
        }
        i = i + 1;
    }
    proof {
        assert(used@.take(used.len() as int) =~= used@);
    }
    table
}

/// Picks `count` ports by first fit from the pool whose baseline is
/// `start_port`, given the ports that are in use.
///
/// The picks come in the order in which they were made. The allocation fails
/// if and only if the pool holds fewer than `count` free ports, and then with
/// `ErrorKind::ResourceExhausted`.
pub fn first_fit(used_ports: &Vec<u32>, count: usize, start_port: u32) -> (res: Result<
    Vec<u32>,
    ErrorKind,
>)
    ensures
        res is Ok <==> count <= free_ports(used_ports@, start_port).len(),
        res matches Ok(picks) ==> picks.len() == count && is_first_fit(
            used_ports@,
            start_port,
            picks@,
        ) && picks@ == first_fit_picks(used_ports@, count as nat, start_port),
        res matches Err(kind) ==> kind == ErrorKind::ResourceExhausted,
{
    let mut table = occupancy(used_ports);
    let mut picks: Vec<u32> = Vec::new();
    let mut cursor: u32 = if start_port > MAX_PORT {
        MAX_PORT + 1
    } else if start_port < MIN_PORT {
        MIN_PORT
    } else {
        start_port
    };
    proof {
        assert(used_ports@ + picks@ =~= used_ports@);
    }
    while picks.len() < count
        invariant
            picks.len() <= count,
            table.len() == MAX_PORT + 1,
            MIN_PORT <= cursor <= MAX_PORT + 1,
            start_port <= cursor || cursor == MAX_PORT + 1,
            forall|p: u32|
                p <= MAX_PORT ==> #[trigger] table[p as int] == (used_ports@ + picks@).contains(p),
            forall|q: u32|
                #[trigger] in_pool(start_port, q) && q < cursor ==> (used_ports@ + picks@).contains(
                    q,
                ),
            is_first_fit(used_ports@, start_port, picks@),
        decreases count - picks.len(),
    {
        while cursor <= MAX_PORT && table[cursor as usize]
            invariant
                table.len() == MAX_PORT + 1,
                MIN_PORT <= cursor <= MAX_PORT + 1,
                start_port <= cursor || cursor == MAX_PORT + 1,
                forall|p: u32|
                    p <= MAX_PORT ==> #[trigger] table[p as int] == (used_ports@
                        + picks@).contains(p),
                forall|q: u32|
                    #[trigger] in_pool(start_port, q) && q < cursor ==> (used_ports@
                        + picks@).contains(q),
            decreases MAX_PORT + 1 - cursor,
        {
            cursor = cursor + 1;
        }
        if cursor > MAX_PORT {
            proof {
                lemma_exhausted(used_ports@, start_port, picks@);
            }
            return Err(ErrorKind::ResourceExhausted);
        }
        let ghost before = picks@;
        picks.push(cursor);
        table[cursor as usize] = true;
        proof {
            let taken = used_ports@ + before;
            assert(used_ports@ + picks@ =~= taken.push(cursor));
            assert(is_least_free(taken, start_port, cursor));
            assert forall|i: int| 0 <= i < picks@.len() implies is_least_free(
                used_ports@ + picks@.take(i),
                start_port,
                #[trigger] picks@[i],
            ) by {
                if i < before.len() {
                    assert(picks@.take(i) =~= before.take(i));
                    assert(picks@[i] == before[i]);
                } else {
                    assert(picks@.take(i) =~= before);
                }
            }
            assert forall|p: u32| p <= MAX_PORT implies #[trigger] table[p as int] == (used_ports@
                + picks@).contains(p) by {
                if p == cursor {
                    assert(taken.push(cursor)[taken.len() as int] == cursor);
                } else if taken.contains(p) {
                    let k = choose|k: int| 0 <= k < taken.len() && taken[k] == p;
                    assert(taken.push(cursor)[k] == p);
                }
            }
            assert forall|q: u32| #[trigger]
                in_pool(start_port, q) && q < cursor + 1 implies (used_ports@ + picks@).contains(
                q,
            ) by {
                if q == cursor {
                    assert(taken.push(cursor)[taken.len() as int] == cursor);
                } else {
                    let k = choose|k: int| 0 <= k < taken.len() && taken[k] == q;
                    assert(taken.push(cursor)[k] == q);
                }
            }
        }
        cursor = cursor + 1;
    }
    proof {
        lemma_first_fit_ascends(used_ports@, start_port, picks@);
        lemma_free_ports_finite(used_ports@, start_port);
        picks@.unique_seq_to_set();
        assert(picks@.to_set().subset_of(free_ports(used_ports@, start_port)));
        lemma_len_subset(picks@.to_set(), free_ports(used_ports@, start_port));
        lemma_first_fit_picks(used_ports@, count as nat, start_port);
    }
    Ok(picks)
}

/// Once every port of the pool is in use or picked, there are no more free
/// ports than picks.
proof fn lemma_exhausted(used: Seq<u32>, start: u32, picks: Seq<u32>)
    requires
        forall|q: u32| #[trigger] in_pool(start, q) ==> (used + picks).contains(q),
    ensures
        free_ports(used, start).len() <= picks.len(),
{
    assert forall|p: u32| free_ports(used, start).contains(p) implies picks.to_set().contains(
        p,
    ) by {
        assert(in_pool(start, p));
        let k = choose|k: int| 0 <= k < (used + picks).len() && (used + picks)[k] == p;
        if k < used.len() {
            assert(used[k] == p);
        } else {
            assert(picks[k - used.len()] == p);
        }
    }
    vstd::seq_lib::seq_to_set_is_finite(picks);
    lemma_len_subset(free_ports(used, start), picks.to_set());
    picks.lemma_cardinality_of_set();
}

} // verus!
