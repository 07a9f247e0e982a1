//! Backend pool with round-robin selection over healthy members.

use vstd::prelude::*;

verus! {

/// A single upstream backend (e.g. a master's apiserver `ip:6443`).
pub struct Backend<A> {
    pub addr: A,
    pub healthy: bool,
}

impl<A> Backend<A> {
    /// A backend starts unhealthy; the first health check that passes admits
    /// it. Nothing is sent to a backend that was not checked.
    pub fn new(addr: A) -> (r: Self)
        ensures
            r.addr == addr,
            !r.healthy,
    {
        Backend { addr, healthy: false }
    }

    pub fn is_healthy(&self) -> (r: bool)
        ensures
            r == self.healthy,
    {
        self.healthy
    }

    pub fn set_healthy(&mut self, v: bool)
        ensures
            final(self).healthy == v,
            final(self).addr == old(self).addr,
    {
        self.healthy = v;
    }
}

/// The set of backends behind a VIP, with round-robin over healthy members.
pub struct Pool<A> {
    pub backends: Vec<Backend<A>>,
    /// Where the next pick starts to look: one past the member last picked.
    pub next: usize,
}

/// Which members are healthy.
pub open spec fn flags<A>(backends: Seq<Backend<A>>) -> Seq<bool> {
    backends.map_values(|b: Backend<A>| b.healthy)
}

/// The first healthy member from `start + i` on, going round, `start + n` at
/// the latest.
pub open spec fn healthy_from(h: Seq<bool>, start: int, i: int) -> Option<int>
    decreases h.len() - i,
{
    if i >= h.len() {
        None
    } else if h[(start + i) % (h.len() as int)] {
        Some((start + i) % (h.len() as int))
    } else {
        healthy_from(h, start, i + 1)
    }
}

/// The member that a pick takes which starts to look at `start`.
pub open spec fn picked(h: Seq<bool>, start: int) -> Option<int> {
    healthy_from(h, start, 0)
}

/// Where the pick after that starts to look.
pub open spec fn next_start(h: Seq<bool>, start: int) -> int {
    match picked(h, start) {
        Some(k) => k + 1,
        None => start,
    }
}

/// How many members are healthy.
pub open spec fn count_healthy(h: Seq<bool>) -> nat
    decreases h.len(),
{
    if h.len() == 0 {
        0
    } else {
        count_healthy(h.drop_last()) + (if h.last() {
            1nat
        } else {
            0nat
        })
    }
}

impl<A> Pool<A> {
    /// Which members are healthy.
    pub open spec fn healths(self) -> Seq<bool> {
        flags(self.backends@)
    }

    /// A pool of these addresses, every one unhealthy still.
    pub fn new(addrs: Vec<A>) -> (r: Self)
        ensures
            r.next == 0,
            r.backends@.len() == addrs@.len(),
            forall|i: int|
                0 <= i < addrs@.len() ==> (#[trigger] r.backends@[i]).addr == addrs@[i]
                    && !r.backends@[i].healthy,
    {
        let mut backends: Vec<Backend<A>> = Vec::new();
        let ghost all = addrs@;
        for a in it: addrs
            invariant
                it.seq() == all,
                backends@.len() == it.index(),
                forall|i: int|
                    0 <= i < backends@.len() ==> (#[trigger] backends@[i]).addr == all[i]
                        && !backends@[i].healthy,
        {
            backends.push(Backend::new(a));
        }
        Pool { backends, next: 0 }
    }

    /// Picks the next healthy backend (round-robin): the first one after the
    /// member last picked. `None` when all are down, and then the turn stays
    /// where it was.
    pub fn pick(&mut self) -> (r: Option<&Backend<A>>)
        ensures
            final(self).backends@ == old(self).backends@,
            match r {
                Some(b) => picked(old(self).healths(), old(self).next as int) matches Some(i) && *b
                    == old(self).backends@[i] && final(self).next == i + 1,
                None => picked(old(self).healths(), old(self).next as int) is None
                    && final(self).next == old(self).next,
            },
            final(self).next == next_start(old(self).healths(), old(self).next as int),
    {
        let n = self.backends.len();
        if n == 0 {
            return None;
        }
        let start = self.next;
        let first = start % n;
        let ghost h = self.healths();
        let mut i: usize = 0;
        while i < n
            invariant
                i <= n,
                0 < n == self.backends@.len(),
                start == old(self).next,
                self.next == start,
                first == start % n,
                h == self.healths(),
                self.backends@ == old(self).backends@,
                picked(h, start as int) == healthy_from(h, start as int, i as int),
            decreases n - i,
        {
            let k = if i < n - first {
                first + i
            } else {
                i - (n - first)
            };
            assert(k == (start + i) % (n as int)) by {
                let q = start as int / n as int;
                vstd::arithmetic::div_mod::lemma_fundamental_div_mod(start as int, n as int);
                if i < n - first {
                    vstd::arithmetic::div_mod::lemma_fundamental_div_mod_converse(
                        start + i,
                        n as int,
                        q,
                        k as int,
                    );
                } else {
                    assert(start + i == n * (q + 1) + k) by (nonlinear_arith)
                        requires
                            start == n * q + first,
                            k == i - (n - first),
                    ;
                    vstd::arithmetic::div_mod::lemma_fundamental_div_mod_converse(
                        start + i,
                        n as int,
                        q + 1,
                        k as int,
                    );
                }
            }
            assert(h[k as int] == self.backends@[k as int].healthy);
            if self.backends[k].is_healthy() {
                self.next = k + 1;
                return Some(&self.backends[k]);
            }
            i += 1;
        }
        None
    }

    /// How many members are healthy.
    pub fn healthy_count(&self) -> (r: usize)
        ensures
            r == count_healthy(self.healths()),
    {
        let mut n: usize = 0;
        let mut i: usize = 0;
        let ghost h = self.healths();
        while i < self.backends.len()
            invariant
                n <= i <= self.backends@.len(),
                h == self.healths(),
                n == count_healthy(h.take(i as int)),
            decreases self.backends.len() - i,
        {
            assert(h.take(i + 1).drop_last() =~= h.take(i as int));
            assert(h.take(i + 1).last() == self.backends@[i as int].healthy);
            if self.backends[i].is_healthy() {
                n += 1;
            }
            i += 1;
        }
        assert(h.take(i as int) =~= h);
        n
    }
}

// ---------------------------------------------------------------------------
// Laws
// ---------------------------------------------------------------------------

proof fn lemma_healthy_from(h: Seq<bool>, start: int, i: int)
    requires
        0 <= i <= h.len(),
        0 <= start,
    ensures
        match healthy_from(h, start, i) {
            Some(k) => 0 <= k < h.len() && h[k],
            None => forall|j: int|
                i <= j < h.len() ==> !h[#[trigger] ((start + j) % (h.len() as int))],
        },
    decreases h.len() - i,
{
    if i < h.len() {
        vstd::arithmetic::div_mod::lemma_mod_bound(start + i, h.len() as int);
        if !h[(start + i) % (h.len() as int)] {
            lemma_healthy_from(h, start, i + 1);
        }
    }
}

/// A pick takes a healthy member, and there is one to take exactly when some
/// member is healthy.
pub proof fn picks_are_healthy(h: Seq<bool>, start: int)
    requires
        0 <= start,
    ensures
        picked(h, start) matches Some(k) ==> 0 <= k < h.len() && h[k],
        picked(h, start) is None <==> forall|k: int| 0 <= k < h.len() ==> !#[trigger] h[k],
{
    lemma_healthy_from(h, start, 0);
    if picked(h, start) is None {
        assert forall|k: int| 0 <= k < h.len() implies !#[trigger] h[k] by {
            let n = h.len() as int;
            let j = (k - start) % n;
            vstd::arithmetic::div_mod::lemma_mod_bound(k - start, n);
            vstd::arithmetic::div_mod::lemma_add_mod_noop_right(start, k - start, n);
            assert((start + j) % n == k % n);
            vstd::arithmetic::div_mod::lemma_small_mod(k as nat, n as nat);
            assert(!h[(start + j) % n]);
        }
    }
}

/// What so many picks in a row take while no health changes.
pub open spec fn picks(h: Seq<bool>, start: int, m: nat) -> Seq<int>
    decreases m,
{
    if m == 0 {
        seq![]
    } else {
        match picked(h, start) {
            Some(k) => seq![k] + picks(h, k + 1, (m - 1) as nat),
            None => seq![],
        }
    }
}

/// Whether the member is healthy that stands at `x` on the way round.
spec fn healthy_at(h: Seq<bool>, x: int) -> bool {
    h[x % (h.len() as int)]
}

/// How many healthy members stand on the way from `a` to before `b`.
spec fn passed(h: Seq<bool>, a: int, b: int) -> nat
    decreases b - a,
{
    if b <= a {
        0
    } else {
        passed(h, a, b - 1) + (if healthy_at(h, b - 1) {
            1nat
        } else {
            0nat
        })
    }
}

proof fn lemma_passed_split(h: Seq<bool>, a: int, b: int, c: int)
    requires
        a <= b <= c,
    ensures
        passed(h, a, c) == passed(h, a, b) + passed(h, b, c),
    decreases c - b,
{
    if b < c {
        lemma_passed_split(h, a, b, c - 1);
    }
}

proof fn lemma_passed_start(h: Seq<bool>, j: int)
    requires
        0 <= j <= h.len(),
    ensures
        passed(h, 0, j) == count_healthy(h.take(j)),
    decreases j,
{
    if j > 0 {
        lemma_passed_start(h, j - 1);
        assert(h.take(j).drop_last() =~= h.take(j - 1));
        assert((j - 1) % (h.len() as int) == j - 1) by {
            vstd::arithmetic::div_mod::lemma_small_mod((j - 1) as nat, h.len());
        }
    }
}

/// Once round, from anywhere, passes every healthy member once.
proof fn lemma_once_round(h: Seq<bool>, a: int)
    requires
        h.len() > 0,
        0 <= a,
    ensures
        passed(h, a, a + h.len()) == count_healthy(h),
    decreases a,
{
    let n = h.len() as int;
    if a == 0 {
        lemma_passed_start(h, n);
        assert(h.take(n) =~= h);
    } else {
        lemma_once_round(h, a - 1);
        lemma_passed_split(h, a - 1, a, a + n);
        lemma_passed_split(h, a - 1, a - 1 + n, a + n);
        vstd::arithmetic::div_mod::lemma_mod_add_multiples_vanish(a - 1, n);
        reveal_with_fuel(passed, 2);
    }
}

/// The pick from `start` takes the first healthy member on the way, `u` being
/// a place on the way where `start` stands.
proof fn lemma_pick_passes(h: Seq<bool>, start: int, u: int, i: int) -> (x: int)
    requires
        h.len() > 0,
        u % (h.len() as int) == start % (h.len() as int),
        0 <= i <= h.len(),
        passed(h, u, u + i) == 0,
        passed(h, u, u + h.len()) > 0,
    ensures
        u <= x,
        healthy_at(h, x),
        passed(h, u, x) == 0,
        healthy_from(h, start, i) == Some(x % (h.len() as int)),
    decreases h.len() - i,
{
    let n = h.len() as int;
    assert(i < n);
    vstd::arithmetic::div_mod::lemma_add_mod_noop(u, i, n);
    vstd::arithmetic::div_mod::lemma_add_mod_noop(start, i, n);
    if healthy_at(h, u + i) {
        u + i
    } else {
        lemma_pick_passes(h, start, u, i + 1)
    }
}

/// Picks in a row take one healthy member after the other on the way.
proof fn lemma_picks_pass(h: Seq<bool>, start: int, u: int, m: nat) -> (xs: Seq<int>)
    requires
        0 <= u,
        h.len() > 0,
        u % (h.len() as int) == start % (h.len() as int),
        count_healthy(h) > 0,
    ensures
        xs.len() == m,
        picks(h, start, m).len() == m,
        forall|i: int|
            #![trigger xs[i]]
            0 <= i < m ==> u <= xs[i] && healthy_at(h, xs[i]) && passed(h, u, xs[i]) == i && picks(
                h,
                start,
                m,
            )[i] == xs[i] % (h.len() as int),
    decreases m,
{
    if m == 0 {
        seq![]
    } else {
        let n = h.len() as int;
        lemma_once_round(h, u);
        let x = lemma_pick_passes(h, start, u, 0);
        let k = x % n;
        vstd::arithmetic::div_mod::lemma_add_mod_noop(x, 1, n);
        vstd::arithmetic::div_mod::lemma_add_mod_noop(k, 1, n);
        vstd::arithmetic::div_mod::lemma_mod_twice(x, n);
        let rest = lemma_picks_pass(h, k + 1, x + 1, (m - 1) as nat);
        let xs = seq![x] + rest;
        assert forall|i: int| #![trigger xs[i]] 0 <= i < m implies u <= xs[i] && healthy_at(h, xs[i])
            && passed(h, u, xs[i]) == i && picks(h, start, m)[i] == xs[i] % n by {
            if i > 0 {
                assert(xs[i] == rest[i - 1]);
                lemma_passed_split(h, u, x + 1, xs[i]);
            }
        }
        xs
    }
}

/// Two places on the way with as many healthy members before them are one.
proof fn lemma_passed_tells(h: Seq<bool>, u: int, x: int, y: int)
    requires
        u <= x < y,
        healthy_at(h, x),
    ensures
        passed(h, u, x) < passed(h, u, y),
{
    lemma_passed_split(h, u, x + 1, y);
}

/// Two numbers less than `n` apart that stand at one place are one.
proof fn lemma_once_in_a_round(x: int, y: int, u: int, n: int)
    requires
        0 < n,
        u <= x < u + n,
        u <= y < u + n,
        x % n == y % n,
    ensures
        x == y,
{
    vstd::arithmetic::div_mod::lemma_fundamental_div_mod(x, n);
    vstd::arithmetic::div_mod::lemma_fundamental_div_mod(y, n);
    let p = x / n;
    let q = y / n;
    assert(p == q) by (nonlinear_arith)
        requires
            x - y == n * p - n * q,
            -n < x - y < n,
            0 < n,
    ;
}

/// Round-robin: as many picks in a row as there are healthy members take
/// every healthy member, and each of them once, wherever the first one starts.
pub proof fn every_healthy_member_has_its_turn(h: Seq<bool>, start: int, k: int)
    requires
        0 <= start,
        0 <= k < h.len(),
        h[k],
    ensures
        picks(h, start, count_healthy(h)).len() == count_healthy(h),
        picks(h, start, count_healthy(h)).no_duplicates(),
        picks(h, start, count_healthy(h)).contains(k),
{
    let n = h.len() as int;
    let c = count_healthy(h);
    count_is_zero_when_all_are_down(h);
    lemma_once_round(h, start);
    let xs = lemma_picks_pass(h, start, start, c);
    let ps = picks(h, start, c);
    assert forall|i: int| #![trigger xs[i]] 0 <= i < c implies xs[i] < start + n by {
        if xs[i] >= start + n {
            lemma_passed_split(h, start, start + n, xs[i]);
        }
    }
    assert forall|i: int, j: int| 0 <= i < c && 0 <= j < c && i != j implies ps[i] != ps[j] by {
        assert(xs[i] < start + n && xs[j] < start + n);
        if ps[i] == ps[j] {
            lemma_once_in_a_round(xs[i], xs[j], start, n);
        }
    }
    let d = (k - start) % n;
    vstd::arithmetic::div_mod::lemma_mod_bound(k - start, n);
    vstd::arithmetic::div_mod::lemma_add_mod_noop_right(start, k - start, n);
    vstd::arithmetic::div_mod::lemma_small_mod(k as nat, n as nat);
    let x = start + d;
    assert(x % n == k);
    lemma_passed_tells(h, start, x, start + n);
    let i = passed(h, start, x) as int;
    if x < xs[i] {
        lemma_passed_tells(h, start, x, xs[i]);
    } else if xs[i] < x {
        lemma_passed_tells(h, start, xs[i], x);
    }
    assert(ps[i] == k);
}

/// With two healthy members or more, no two picks in a row take the same one.
pub proof fn healthy_members_alternate(h: Seq<bool>, start: int)
    requires
        0 <= start,
        count_healthy(h) >= 2,
    ensures
        picked(h, start) matches Some(a) && picked(h, a + 1) matches Some(b) && a != b,
{
    let n = h.len() as int;
    lemma_once_round(h, start);
    let xs = lemma_picks_pass(h, start, start, 2);
    reveal_with_fuel(picks, 3);
    let ps = picks(h, start, 2);
    assert forall|i: int| #![trigger xs[i]] 0 <= i < 2 implies xs[i] < start + n by {
        if xs[i] >= start + n {
            lemma_passed_split(h, start, start + n, xs[i]);
        }
    }
    if ps[0] == ps[1] {
        lemma_once_in_a_round(xs[0], xs[1], start, n);
    }
}

/// The healthy count is zero exactly when no pick finds a member.
pub proof fn count_is_zero_when_all_are_down(h: Seq<bool>)
    ensures
        count_healthy(h) == 0 <==> forall|k: int| 0 <= k < h.len() ==> !#[trigger] h[k],
        count_healthy(h) <= h.len(),
    decreases h.len(),
{
    if h.len() > 0 {
        let t = h.drop_last();
        count_is_zero_when_all_are_down(t);
        if count_healthy(h) == 0 {
            assert forall|k: int| 0 <= k < h.len() implies !#[trigger] h[k] by {
                if k < t.len() {
                    assert(t[k] == h[k]);
                }
            }
        }
        if forall|k: int| 0 <= k < h.len() ==> !#[trigger] h[k] {
            assert forall|k: int| 0 <= k < t.len() implies !#[trigger] t[k] by {
                assert(t[k] == h[k]);
            }
            assert(!h[h.len() - 1]);
        }
    }
}

/// The way from `start + i` on leads to the first healthy member on it.
proof fn lemma_first_on_the_way(h: Seq<bool>, start: int, i: int, k: int)
    requires
        0 <= i <= k < h.len(),
        h[(start + k) % (h.len() as int)],
        forall|j: int| i <= j < k ==> !h[#[trigger] ((start + j) % (h.len() as int))],
    ensures
        healthy_from(h, start, i) == Some((start + k) % (h.len() as int)),
    decreases k - i,
{
    if i < k {
        assert(!h[(start + i) % (h.len() as int)]);
        lemma_first_on_the_way(h, start, i + 1, k);
    }
}

/// A pick takes the first healthy member from where it starts on, going up
/// and, behind the last member, from the first one on again; the next pick
/// starts behind it. A pick that finds none leaves the start where it was.
pub proof fn a_pick_takes_the_first_healthy_member(h: Seq<bool>, start: int, k: int)
    requires
        0 <= start <= h.len(),
        0 <= k < h.len(),
        h[k],
    ensures
        start <= k && (forall|j: int| start <= j < k ==> !#[trigger] h[j]) ==> picked(h, start)
            == Some(k) && next_start(h, start) == k + 1,
        k < start && (forall|j: int| start <= j < h.len() ==> !#[trigger] h[j]) && (forall|j: int|
            0 <= j < k ==> !#[trigger] h[j]) ==> picked(h, start) == Some(k) && next_start(h, start)
            == k + 1,
        picked(h, start) is None ==> next_start(h, start) == start,
{
    let n = h.len() as int;
    if start <= k && (forall|j: int| start <= j < k ==> !#[trigger] h[j]) {
        assert forall|j: int| 0 <= j < k - start implies !h[#[trigger] ((start + j) % n)] by {
            vstd::arithmetic::div_mod::lemma_small_mod((start + j) as nat, n as nat);
        }
        vstd::arithmetic::div_mod::lemma_small_mod(k as nat, n as nat);
        lemma_first_on_the_way(h, start, 0, k - start);
    }
    if k < start && (forall|j: int| start <= j < h.len() ==> !#[trigger] h[j]) && (forall|j: int|
        0 <= j < k ==> !#[trigger] h[j]) {
        let d = n - start + k;
        assert forall|j: int| 0 <= j < d implies !h[#[trigger] ((start + j) % n)] by {
            if start + j < n {
                vstd::arithmetic::div_mod::lemma_small_mod((start + j) as nat, n as nat);
            } else {
                vstd::arithmetic::div_mod::lemma_mod_add_multiples_vanish(start + j - n, n);
                vstd::arithmetic::div_mod::lemma_small_mod((start + j - n) as nat, n as nat);
                assert((start + j) % n == start + j - n);
            }
        }
        vstd::arithmetic::div_mod::lemma_mod_add_multiples_vanish(k, n);
        vstd::arithmetic::div_mod::lemma_small_mod(k as nat, n as nat);
        assert((start + d) % n == k);
        lemma_first_on_the_way(h, start, 0, d);
    }
}

/// The healthy count is one more for each member that is healthy.
pub proof fn each_healthy_member_counts_once(h: Seq<bool>, b: bool)
    ensures
        count_healthy(seq![]) == 0,
        b ==> count_healthy(h.push(b)) == count_healthy(h) + 1,
        !b ==> count_healthy(h.push(b)) == count_healthy(h),
{
    assert(h.push(b).drop_last() =~= h);
}

} // verus!
