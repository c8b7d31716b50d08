use vstd::prelude::*;
use std::collections::VecDeque;

verus! {

/// The handler that receives the item at position `j` of a stream of items
/// when the first of them goes to handler `start` of a pool of `n`.
pub open spec fn handler_for(start: int, n: int, j: int) -> int
    recommends
        n > 0,
{
    (start + j) % n
}

/// The items that handler `h` receives, in order, when `items` are dealt
/// round-robin over a pool of `n` handlers starting at handler `start`.
pub open spec fn bucket<T>(items: Seq<T>, n: int, start: int, h: int) -> Seq<T>
    decreases items.len(),
{
    if items.len() == 0 {
        Seq::empty()
    } else {
        let prev = bucket(items.drop_last(), n, start, h);
        if handler_for(start, n, items.len() - 1) == h {
            prev.push(items.last())
        } else {
            prev
        }
    }
}

/// Moving one place on from position `x` of a ring of `m`.
proof fn lemma_mod_step(x: int, m: int)
    requires
        m > 0,
    ensures
        ((x % m) + 1) % m == (x + 1) % m,
{
    vstd::arithmetic::div_mod::lemma_fundamental_div_mod(x, m);
    vstd::arithmetic::div_mod::lemma_mod_multiples_vanish(x / m, (x % m) + 1, m);
    assert(x + 1 == m * (x / m) + ((x % m) + 1));
}

/// The first `l` items dealt from handler 0: handler `i` has received those
/// at positions `i, i + n, i + 2n, ...` below `l`, and no others.
proof fn lemma_bucket_prefix<T>(items: Seq<T>, n: int, i: int, l: int)
    requires
        n > 0,
        0 <= i < n,
        0 <= l <= items.len(),
    ensures
        i + (bucket(items.take(l), n, 0, i).len() - 1) * n < l,
        l <= i + bucket(items.take(l), n, 0, i).len() * n,
        forall|t: int|
            0 <= t < bucket(items.take(l), n, 0, i).len() ==> #[trigger] bucket(
                items.take(l),
                n,
                0,
                i,
            )[t] == items[i + t * n],
    decreases l,
{
    if l > 0 {
        lemma_bucket_prefix(items, n, i, l - 1);
        let prev = bucket(items.take(l - 1), n, 0, i);
        let c = prev.len() as int;
        assert(items.take(l).drop_last() =~= items.take(l - 1));
        assert(items.take(l).last() == items[l - 1]);
        let b = bucket(items.take(l), n, 0, i);
        vstd::arithmetic::div_mod::lemma_small_mod(i as nat, n as nat);
        vstd::arithmetic::div_mod::lemma_mod_multiples_vanish(c, i, n);
        assert(handler_for(0, n, l - 1) == (l - 1) % n);
        if (l - 1) % n == i {
            let q = (l - 1) / n;
            vstd::arithmetic::div_mod::lemma_fundamental_div_mod(l - 1, n);
            assert(l - 1 == n * q + i);
            assert(q == c) by (nonlinear_arith)
                requires
                    l - 1 == n * q + i,
                    i + (c - 1) * n < l - 1,
                    l - 1 <= i + c * n,
                    n > 0,
            ;
            assert(b == prev.push(items[l - 1]));
            assert(l - 1 == i + c * n) by (nonlinear_arith)
                requires
                    l - 1 == n * q + i,
                    q == c,
            ;
            assert(i + (c + 1) * n == i + c * n + n) by (nonlinear_arith);
            assert(i + (c + 1 - 1) * n == i + c * n);
        } else {
            assert(b == prev);
            assert((i + c * n) % n == i) by {
                assert(n * c + i == i + c * n) by (nonlinear_arith);
            }
            assert(i + (c - 1) * n < l);
            assert(b.len() == c);
        }
    } else {
        assert(items.take(0) =~= Seq::<T>::empty());
        assert(bucket(items.take(0), n, 0, i).len() == 0);
        assert(i + (0 - 1) * n < 0) by (nonlinear_arith)
            requires
                i < n,
        ;
    }
}

/// Dealing `k * n` items from handler 0 over `n` handlers gives handler `i`
/// exactly `k` items: those at positions `i, i + n, i + 2n, ...`, in that
/// order.
pub proof fn lemma_round_robin_fair<T>(items: Seq<T>, n: int, k: int, i: int)
    requires
        n > 0,
        k >= 0,
        items.len() == k * n,
        0 <= i < n,
    ensures
        bucket(items, n, 0, i).len() == k,
        forall|t: int| 0 <= t < k ==> #[trigger] bucket(items, n, 0, i)[t] == items[i + t * n],
{
    lemma_bucket_prefix(items, n, i, items.len() as int);
    assert(items.take(items.len() as int) =~= items);
    let c = bucket(items, n, 0, i).len() as int;
    assert(c == k) by (nonlinear_arith)
        requires
            i + (c - 1) * n < k * n,
            k * n <= i + c * n,
            0 <= i < n,
    ;
}

/// Deals work items to a fixed pool of downstream handlers in strict
/// round-robin order: the next item always goes to the handler after the one
/// that received the previous item.
pub struct RoundRobinScheduler {
    pool_size: usize,
    next: usize,
}

impl RoundRobinScheduler {
    /// The number of handlers in the pool.
    pub closed spec fn size(&self) -> int {
        self.pool_size as int
    }

    /// The handler that receives the next item.
    pub closed spec fn next_handler(&self) -> int {
        self.next as int
    }

    pub open spec fn wf(&self) -> bool {
        0 <= self.next_handler() < self.size()
    }

    /// A scheduler over `pool_size` handlers whose first item goes to handler
    /// 0; there is none for an empty pool.
    pub fn new(pool_size: usize) -> (r: Option<RoundRobinScheduler>)
        ensures
            r is None <==> pool_size == 0,
            r matches Some(s) ==> s.wf() && s.size() == pool_size && s.next_handler() == 0,
    {
        if pool_size == 0 {
            None
        } else {
            Some(RoundRobinScheduler { pool_size, next: 0 })
        }
    }

    pub fn pool_size(&self) -> (r: usize)
        ensures
            r == self.size(),
    {
        self.pool_size
    }

    pub fn peek_next(&self) -> (r: usize)
        ensures
            r == self.next_handler(),
    {
        self.next
    }

    /// The handler for the next item; the turn passes to the one after it.
    pub fn route(&mut self) -> (r: usize)
        requires
            old(self).wf(),
        ensures
            final(self).wf(),
            final(self).size() == old(self).size(),
            r == old(self).next_handler(),
            final(self).next_handler() == handler_for(old(self).next_handler(), old(self).size(), 1),
    {
        let r = self.next;
        if self.next + 1 == self.pool_size {
            self.next = 0;
            proof {
                vstd::arithmetic::div_mod::lemma_mod_self_0(self.pool_size as int);
            }
        } else {
            self.next = self.next + 1;
            proof {
                vstd::arithmetic::div_mod::lemma_small_mod(self.next as nat, self.pool_size as nat);
            }
        }
        r
    }

    /// Deals `items` over the pool in order: item `j` goes to handler
    /// `(next + j) mod size`, and each handler gets its items in the order
    /// they arrived.
    pub fn distribute<T>(&mut self, items: Vec<T>) -> (r: Vec<Vec<T>>)
        requires
            old(self).wf(),
        ensures
            final(self).wf(),
            final(self).size() == old(self).size(),
            final(self).next_handler() == handler_for(
                old(self).next_handler(),
                old(self).size(),
                items@.len() as int,
            ),
            r@.len() == old(self).size(),
            forall|h: int|
                0 <= h < r@.len() ==> (#[trigger] r@[h])@ == bucket(
                    items@,
                    old(self).size(),
                    old(self).next_handler(),
                    h,
                ),
    {
        let total = items.len();
        let ghost all = items@;
        let ghost start = self.next_handler();
        let ghost n = self.size();
        let mut rest = items;
        let mut queue: VecDeque<T> = VecDeque::new();
        while rest.len() > 0
            invariant
                rest@ + queue@ == all,
            decreases rest@.len(),
        {
            let ghost before = rest@;
            match rest.pop() {
                Some(x) => {
                    queue.push_front(x);
                    assert(rest@ + queue@ =~= before + (queue@.drop_first()));
                },
                None => {},
            }
        }
        assert(queue@ =~= all);
        let mut buckets: Vec<Vec<T>> = Vec::new();
        let mut h: usize = 0;
        while h < self.pool_size
            invariant
                h <= self.pool_size,
                buckets@.len() == h,
                forall|k: int| 0 <= k < h ==> (#[trigger] buckets@[k])@ == Seq::<T>::empty(),
            decreases self.pool_size - h,
        {
            buckets.push(Vec::new());
            h += 1;
        }
        let mut j: usize = 0;
        proof {
            vstd::arithmetic::div_mod::lemma_small_mod(start as nat, n as nat);
        }
        while queue.len() > 0
            invariant
                all.len() == total,
                self.wf(),
                self.size() == n,
                0 <= j <= all.len(),
                queue@ == all.skip(j as int),
                self.next_handler() == handler_for(start, n, j as int),
                buckets@.len() == n,
                forall|k: int|
                    0 <= k < n ==> (#[trigger] buckets@[k])@ == bucket(
                        all.take(j as int),
                        n,
                        start,
                        k,
                    ),
            decreases queue@.len(),
        {
            match queue.pop_front() {
                Some(x) => {
                    let ghost old_buckets = buckets@;
                    let t = self.route();
                    proof {
                        assert(all.take(j + 1).drop_last() =~= all.take(j as int));
                        assert(all.take(j + 1).last() == x);
                        assert(handler_for(start, n, j + 1) == handler_for(
                            handler_for(start, n, j as int),
                            n,
                            1,
                        )) by {
                            lemma_mod_step(start + j, n);
                        }
                    }
                    buckets[t].push(x);
                    proof {
                        assert forall|k: int| 0 <= k < n implies (#[trigger] buckets@[k])@ == bucket(
                            all.take(j + 1),
                            n,
                            start,
                            k,
                        ) by {
                            if k == t {
                                assert(buckets@[k]@ == old_buckets[k]@.push(x));
                            } else {
                                assert(buckets@[k] == old_buckets[k]);
                            }
                        }
                        assert(queue@ =~= all.skip(j + 1));
                    }
                    j += 1;
                },
                None => {},
            }
        }
        assert(all.take(j as int) =~= all);
        buckets
    }
}

} // verus!
