//! A histogram of latencies.

use vstd::arithmetic::power2::*;
use vstd::bits::*;
use vstd::prelude::*;
use vstd::std_specs::bits::*;

verus! {

/// Latency in microseconds, bucketed: 8 steps per power of two (12.5%
/// resolution), fixed size so measuring allocates nothing per request.
pub struct Hist(pub [u64; 512]);

/// The exponent of the largest power of two in a number.
pub open spec fn top(v: nat) -> nat
    decreases v,
{
    if v < 2 {
        0
    } else {
        1 + top(v / 2)
    }
}

/// The bucket of a value: eight to a power of two, from 8 on.
pub open spec fn bucket(v: nat) -> nat {
    if v < 8 {
        v
    } else {
        let e = top(v);
        ((e - 2) * 8 + v / pow2((e - 3) as nat) - 8) as nat
    }
}

/// The least value of a bucket.
pub open spec fn bucket_start(i: nat) -> nat {
    if i < 8 {
        i
    } else {
        (8 + i % 8) * pow2((i / 8 - 1) as nat)
    }
}

/// The sum of some counts.
pub open spec fn total(s: Seq<u64>) -> nat
    decreases s.len(),
{
    if s.len() == 0 {
        0
    } else {
        total(s.drop_last()) + s.last() as nat
    }
}

/// The first bucket with which `target` values have been counted, if any.
pub open spec fn reach(s: Seq<u64>, target: nat, i: int) -> Option<int>
    decreases s.len() - i,
{
    if i < 0 || i >= s.len() {
        None
    } else if total(s.take(i + 1)) >= target {
        Some(i)
    } else {
        reach(s, target, i + 1)
    }
}

proof fn lemma_top(v: nat, e: nat)
    requires
        pow2(e) <= v < pow2(e + 1),
    ensures
        top(v) == e,
    decreases v,
{
    lemma_pow2_unfold(e + 1);
    lemma2_to64();
    if v < 2 {
        if e > 0 {
            lemma_pow2_strictly_increases(0, e);
            assert(pow2(e) >= 2);
        }
    } else {
        if e == 0 {
            assert(v < 2);
        }
        lemma_pow2_unfold(e);
        lemma_top(v / 2, (e - 1) as nat);
    }
}

/// A number lies between its power of two and the next.
pub proof fn lemma_top_bounds(v: nat)
    requires
        v > 0,
    ensures
        pow2(top(v)) <= v < pow2(top(v) + 1),
    decreases v,
{
    lemma2_to64();
    if v >= 2 {
        lemma_top_bounds(v / 2);
        lemma_pow2_unfold(top(v));
        lemma_pow2_unfold(top(v) + 1);
    }
}

/// The quotient that picks the step within a power of two.
proof fn lemma_step(v: nat)
    requires
        v >= 8,
    ensures
        top(v) >= 3,
        8 <= v / pow2((top(v) - 3) as nat) < 16,
{
    let e = top(v);
    lemma_top_bounds(v);
    lemma2_to64();
    if e < 3 {
        if e + 1 < 3 {
            lemma_pow2_strictly_increases(e + 1, 3);
        }
        assert(false);
    }
    let p = pow2((e - 3) as nat);
    lemma_pow2_pos((e - 3) as nat);
    lemma_pow2_adds((e - 3) as nat, 3);
    lemma_pow2_adds((e - 3) as nat, 4);
    assert(8 <= v / p < 16) by (nonlinear_arith)
        requires
            p > 0,
            p * 8 <= v < p * 16,
    ;
}

proof fn lemma_top_u64(v: u64)
    requires
        v > 0,
    ensures
        top(v as nat) <= 63,
{
    lemma_top_bounds(v as nat);
    lemma2_to64();
    lemma2_to64_rest();
    if top(v as nat) > 63 {
        if top(v as nat) > 64 {
            lemma_pow2_strictly_increases(64, top(v as nat));
        }
        assert(false);
    }
}

proof fn lemma_total_bound(s: Seq<u64>, k: int)
    requires
        0 <= k <= s.len(),
    ensures
        total(s.take(k)) <= total(s),
    decreases s.len(),
{
    if k == s.len() {
        assert(s.take(k) =~= s);
    } else {
        lemma_total_bound(s.drop_last(), k);
        assert(s.drop_last().take(k) =~= s.take(k));
    }
}

proof fn lemma_total_update(s: Seq<u64>, i: int, x: u64)
    requires
        0 <= i < s.len(),
    ensures
        total(s.update(i, x)) == total(s) - s[i] + x,
    decreases s.len(),
{
    let t = s.update(i, x);
    if i == s.len() - 1 {
        assert(t.drop_last() =~= s.drop_last());
    } else {
        assert(t.drop_last() =~= s.drop_last().update(i, x));
        lemma_total_update(s.drop_last(), i, x);
    }
}

proof fn lemma_total_part(s: Seq<u64>, i: int)
    requires
        0 <= i < s.len(),
    ensures
        total(s.take(i + 1)) == total(s.take(i)) + s[i],
        s[i] <= total(s),
{
    assert(s.take(i + 1).drop_last() =~= s.take(i));
    lemma_total_bound(s, i + 1);
}

proof fn lemma_total_zero(s: Seq<u64>)
    requires
        forall|i: int| 0 <= i < s.len() ==> s[i] == 0,
    ensures
        total(s) == 0,
    decreases s.len(),
{
    if s.len() > 0 {
        lemma_total_zero(s.drop_last());
    }
}

impl Hist {
    /// How many values have been counted.
    pub open spec fn counted(self) -> nat {
        total(self.0@)
    }

    /// An empty histogram.
    pub fn new() -> (r: Hist)
        ensures
            r.0@ == Seq::new(512, |i: int| 0u64),
            r.counted() == 0,
    {
        let r = Hist([0; 512]);
        proof {
            lemma_total_zero(r.0@);
        }
        assert(r.0@ =~= Seq::new(512, |i: int| 0u64));
        r
    }

    /// The bucket of a value.
    pub fn index(v: u64) -> (r: usize)
        ensures
            r == bucket(v as nat),
            r < 496,
    {
        if v < 8 {
            return v as usize;
        }
        let z: u32 = v.leading_zeros();
        proof {
            axiom_u64_leading_zeros(v);
            assert(z < 64);
            let h: u64 = (63 - z) as u64;
            assert((v >> h) & 1u64 != 0u64);
            assert((v >> h) != 0) by (bit_vector)
                requires
                    (v >> h) & 1u64 != 0u64,
            ;
            lemma_u64_shr_is_div(v, h);
            lemma_pow2_pos(h as nat);
            lemma_pow2_pos((h + 1) as nat);
            assert(v as nat / pow2(h as nat) > 0);
            assert(pow2(h as nat) <= v) by (nonlinear_arith)
                requires
                    v as nat / pow2(h as nat) > 0,
                    pow2(h as nat) > 0,
            ;
            if z == 0 {
                lemma2_to64();
                lemma2_to64_rest();
                assert(v < pow2(64));
            } else {
                let g: u64 = (64 - z) as u64;
                assert(v >> g == 0);
                lemma_u64_shr_is_div(v, g);
                assert(v as nat / pow2(g as nat) == 0);
                assert(v < pow2(g as nat)) by (nonlinear_arith)
                    requires
                        v as nat / pow2(g as nat) == 0,
                        pow2(g as nat) > 0,
                ;
            }
            lemma_top(v as nat, h as nat);
            lemma_step(v as nat);
        }
        let e: usize = 63 - z as usize;
        let d: u64 = (e - 3) as u64;
        let q: u64 = v >> d;
        let low: u64 = q & 7;
        proof {
            lemma_u64_shr_is_div(v, d);
            assert(q & 7 == q % 8) by (bit_vector);
        }
        (e - 2) * 8 + low as usize
    }

    /// The least value of a bucket. It wraps around where the value of the
    /// bucket would not fit.
    pub fn lower(i: usize) -> (r: u64)
        requires
            i < 520,
        ensures
            r == bucket_start(i as nat) % 0x1_0000_0000_0000_0000,
    {
        if i < 8 {
            return i as u64;
        }
        let e: usize = i / 8 + 2;
        let x: u64 = 8 + (i % 8) as u64;
        let d: u64 = (e - 3) as u64;
        let r: u64 = x << d;
        proof {
            lemma2_to64();
            lemma2_to64_rest();
            lemma_pow2_pos(d as nat);
            assert(8 <= x < 16);
            let p = pow2(d as nat);
            assert(bucket_start(i as nat) == x * p);
            if d <= 60 {
                if d < 60 {
                    lemma_pow2_strictly_increases(d as nat, 60);
                }
                assert(x * pow2(d as nat) <= 15 * pow2(60)) by (nonlinear_arith)
                    requires
                        x <= 15,
                        pow2(d as nat) <= pow2(60),
                ;
                lemma_u64_shl_is_mul(x, d);
                assert(x * p < 0x1_0000_0000_0000_0000);
            } else if d == 61 {
                assert(p == 0x2000_0000_0000_0000);
                assert(x * p == (x - 8) * 0x2000_0000_0000_0000 + 0x1_0000_0000_0000_0000)
                    by (nonlinear_arith)
                    requires
                        p == 0x2000_0000_0000_0000,
                ;
                assert(x << 61u64 == (x - 8) * 0x2000_0000_0000_0000u64) by (bit_vector)
                    requires
                        8 <= x < 16,
                ;
            } else if d == 62 {
                assert(p == 0x4000_0000_0000_0000);
                assert(x * p == x * 0x4000_0000_0000_0000) by (nonlinear_arith)
                    requires
                        p == 0x4000_0000_0000_0000,
                ;
                assert(x << 62u64 == (x % 4) * 0x4000_0000_0000_0000u64) by (bit_vector)
                    requires
                        8 <= x < 16,
                ;
            } else {
                assert(d == 63);
                assert(p == 0x8000_0000_0000_0000);
                assert(x * p == x * 0x8000_0000_0000_0000) by (nonlinear_arith)
                    requires
                        p == 0x8000_0000_0000_0000,
                ;
                assert(x << 63u64 == (x % 2) * 0x8000_0000_0000_0000u64) by (bit_vector)
                    requires
                        8 <= x < 16,
                ;
            }
        }
        r
    }

    /// Counts a value.
    pub fn add(&mut self, v: u64)
        requires
            old(self).counted() < u64::MAX,
        ensures
            final(self).0@ == old(self).0@.update(
                bucket(v as nat) as int,
                (old(self).0@[bucket(v as nat) as int] + 1) as u64,
            ),
            final(self).counted() == old(self).counted() + 1,
    {
        let i = Self::index(v);
        proof {
            lemma_total_part(self.0@, i as int);
        }
        let c: u64 = self.0[i];
        proof {
            lemma_total_update(self.0@, i as int, (c + 1) as u64);
        }
        self.0[i] = c + 1;
    }

    /// Adds the counts of another histogram.
    pub fn merge(&mut self, o: &Hist)
        requires
            old(self).counted() + o.counted() <= u64::MAX,
        ensures
            final(self).0@ == Seq::new(512, |i: int| (old(self).0@[i] + o.0@[i]) as u64),
            final(self).counted() == old(self).counted() + o.counted(),
    {
        let mut i: usize = 0;
        assert(o.0@.take(0) =~= seq![]);
        while i < 512
            invariant
                i <= 512,
                self.0@.len() == 512,
                o.0@.len() == 512,
                old(self).0@.len() == 512,
                old(self).counted() + o.counted() <= u64::MAX,
                self.counted() == old(self).counted() + total(o.0@.take(i as int)),
                forall|j: int| 0 <= j < i ==> self.0@[j] == old(self).0@[j] + o.0@[j],
                forall|j: int| i <= j < 512 ==> self.0@[j] == old(self).0@[j],
            decreases 512 - i,
        {
            proof {
                lemma_total_part(old(self).0@, i as int);
                lemma_total_part(o.0@, i as int);
                lemma_total_update(self.0@, i as int, (self.0@[i as int] + o.0@[i as int]) as u64);
            }
            let c: u64 = self.0[i] + o.0[i];
            self.0[i] = c;
            i += 1;
        }
        assert(o.0@.take(512) =~= o.0@);
        assert(self.0@ =~= Seq::new(512, |i: int| (old(self).0@[i] + o.0@[i]) as u64));
    }

    /// How many values have been counted.
    pub fn count(&self) -> (r: u64)
        requires
            self.counted() <= u64::MAX,
        ensures
            r == self.counted(),
    {
        let mut n: u64 = 0;
        let mut i: usize = 0;
        assert(self.0@.take(0) =~= seq![]);
        while i < 512
            invariant
                i <= 512,
                self.0@.len() == 512,
                self.counted() <= u64::MAX,
                n == total(self.0@.take(i as int)),
            decreases 512 - i,
        {
            proof {
                lemma_total_part(self.0@, i as int);
                lemma_total_bound(self.0@, i + 1);
            }
            n = n + self.0[i];
            i += 1;
        }
        assert(self.0@.take(512) =~= self.0@);
        n
    }

    /// What `quantile` gives: the start of the bucket that holds the
    /// `target`th value in order of size.
    pub open spec fn quantile_of(self, target: nat) -> nat {
        if self.counted() == 0 {
            0
        } else {
            match reach(self.0@, target, 0) {
                Some(i) => bucket_start(i as nat) % 0x1_0000_0000_0000_0000,
                None => bucket_start(511) % 0x1_0000_0000_0000_0000,
            }
        }
    }

    /// The latency of the `target`th value in order of size, to the start of
    /// its bucket; 0 where nothing was counted.
    pub fn quantile(&self, target: u64) -> (r: u64)
        requires
            self.counted() <= u64::MAX,
        ensures
            r == self.quantile_of(target as nat),
    {
        if self.count() == 0 {
            return 0;
        }
        let mut seen: u64 = 0;
        let mut i: usize = 0;
        assert(self.0@.take(0) =~= seq![]);
        while i < 512
            invariant
                i <= 512,
                self.0@.len() == 512,
                0 < self.counted() <= u64::MAX,
                seen == total(self.0@.take(i as int)),
                reach(self.0@, target as nat, 0) == reach(self.0@, target as nat, i as int),
            decreases 512 - i,
        {
            proof {
                lemma_total_part(self.0@, i as int);
                lemma_total_bound(self.0@, i + 1);
            }
            seen = seen + self.0[i];
            if seen >= target {
                return Self::lower(i);
            }
            i += 1;
        }
        Self::lower(511)
    }
}

// ---------------------------------------------------------------------------
// Laws
// ---------------------------------------------------------------------------

/// The start of a bucket, told by its power of two and its step.
proof fn lemma_start(v: nat)
    requires
        v >= 8,
    ensures
        bucket(v) >= 8,
        bucket(v) / 8 == top(v) - 2,
        bucket_start(bucket(v)) == (v / pow2((top(v) - 3) as nat)) * pow2((top(v) - 3) as nat),
        bucket_start(bucket(v) + 1) == (v / pow2((top(v) - 3) as nat) + 1) * pow2(
            (top(v) - 3) as nat,
        ),
{
    let e = top(v);
    lemma_step(v);
    let p = pow2((e - 3) as nat);
    let q = v / p;
    let i = bucket(v);
    assert(i == (e - 2) * 8 + (q - 8));
    assert(i / 8 == e - 2 && i % 8 == q - 8);
    if q < 15 {
        assert((i + 1) / 8 == e - 2 && (i + 1) % 8 == q - 7);
    } else {
        assert((i + 1) / 8 == e - 1 && (i + 1) % 8 == 0);
        lemma_pow2_unfold((e - 2) as nat);
        assert(8 * pow2((e - 2) as nat) == 16 * p);
        assert((q + 1) * p == 16 * p);
    }
}

proof fn lemma_eight()
    ensures
        bucket_start(8) == 8,
{
    lemma2_to64();
    assert((8nat / 8 - 1) as nat == 0);
    let p = pow2(0);
    assert((8 + 8nat % 8) * p == 8 * p);
}

/// The buckets are contiguous and an eighth wide: every value stands in the
/// bucket whose range it lies in, and is at most an eighth above its start.
pub proof fn buckets_are_contiguous(v: nat)
    ensures
        bucket_start(bucket(v)) <= v < bucket_start(bucket(v) + 1),
        v - bucket_start(bucket(v)) <= v / 8,
{
    if v >= 8 {
        let d = (top(v) - 3) as nat;
        lemma_start(v);
        lemma_step(v);
        lemma_pow2_pos(d);
        let p = pow2(d);
        let q = v / p;
        assert(q * p <= v < (q + 1) * p && v - q * p < p) by (nonlinear_arith)
            requires
                p > 0,
                q == v / p,
        ;
        assert(8 * p <= v) by (nonlinear_arith)
            requires
                q * p <= v,
                q >= 8,
                p > 0,
        ;
    } else {
        lemma_eight();
    }
}

/// A longer latency never stands in a lower bucket.
pub proof fn buckets_keep_the_order(a: nat, b: nat)
    requires
        a <= b,
    ensures
        bucket(a) <= bucket(b),
{
    buckets_are_contiguous(a);
    buckets_are_contiguous(b);
    if bucket(a) > bucket(b) {
        lemma_starts_ascend(bucket(b) + 1, bucket(a));
    }
}

/// A later bucket starts no lower.
proof fn lemma_starts_ascend(i: nat, j: nat)
    requires
        i <= j,
    ensures
        bucket_start(i) <= bucket_start(j),
    decreases j - i,
{
    if i < j {
        lemma_starts_ascend(i + 1, j);
        lemma_eight();
        if i >= 8 {
            let d = (i / 8 - 1) as nat;
            lemma_pow2_pos(d);
            if i % 8 < 7 {
                assert((i + 1) / 8 == i / 8 && (i + 1) % 8 == i % 8 + 1);
                assert((8 + i % 8) * pow2(d) <= (9 + i % 8) * pow2(d)) by (nonlinear_arith);
            } else {
                assert((i + 1) / 8 == i / 8 + 1 && (i + 1) % 8 == 0);
                lemma_pow2_unfold(d + 1);
                let p = pow2(d);
                assert(bucket_start(i) == 15 * p);
                assert(bucket_start(i + 1) == 8 * pow2(d + 1));
            }
        }
    }
}

/// For every value that fits, the start of its bucket is exact, and so is
/// the start of the next but for the highest bucket in use.
pub proof fn starts_are_exact(v: u64)
    ensures
        bucket(v as nat) < 496,
        bucket_start(bucket(v as nat)) < 0x1_0000_0000_0000_0000,
        bucket(v as nat) < 495 ==> bucket_start(bucket(v as nat) + 1) < 0x1_0000_0000_0000_0000,
{
    buckets_are_contiguous(v as nat);
    if v >= 8 {
        lemma_top_u64(v);
        lemma_step(v as nat);
    }
    if bucket(v as nat) < 495 {
        lemma_starts_ascend(bucket(v as nat) + 1, 495);
        lemma2_to64_rest();
        assert((495nat / 8 - 1) as nat == 60 && 495nat % 8 == 7);
        let p = pow2(60);
        assert(bucket_start(495) == 15 * p);
    }
}

/// How many of some values are less than `x`.
pub open spec fn smaller(vs: Seq<u64>, x: nat) -> nat
    decreases vs.len(),
{
    if vs.len() == 0 {
        0
    } else {
        smaller(vs.drop_last(), x) + if vs.last() < x {
            1nat
        } else {
            0
        }
    }
}

/// How many of some values stand in a bucket before `i`.
pub open spec fn before(vs: Seq<u64>, i: nat) -> nat
    decreases vs.len(),
{
    if vs.len() == 0 {
        0
    } else {
        before(vs.drop_last(), i) + if bucket(vs.last() as nat) < i {
            1nat
        } else {
            0
        }
    }
}

/// Whether a histogram holds exactly some values.
pub open spec fn holds(h: Hist, vs: Seq<u64>) -> bool {
    forall|i: int| 0 <= i <= 512 ==> #[trigger] total(h.0@.take(i)) == before(vs, i as nat)
}

/// A new histogram holds no values.
pub proof fn a_new_histogram_is_empty(h: Hist)
    requires
        h.0@ == Seq::new(512, |i: int| 0u64),
    ensures
        holds(h, seq![]),
{
    assert forall|i: int| 0 <= i <= 512 implies #[trigger] total(h.0@.take(i)) == before(
        seq![],
        i as nat,
    ) by {
        lemma_total_zero(h.0@.take(i));
    }
}

/// A histogram that a value is added to holds that value besides the others.
pub proof fn adding_counts_the_value(h: Hist, g: Hist, vs: Seq<u64>, v: u64)
    requires
        holds(h, vs),
        h.counted() < u64::MAX,
        g.0@ == h.0@.update(bucket(v as nat) as int, (h.0@[bucket(v as nat) as int] + 1) as u64),
    ensures
        holds(g, vs.push(v)),
{
    let b = bucket(v as nat) as int;
    starts_are_exact(v);
    lemma_total_part(h.0@, b);
    assert(vs.push(v).drop_last() =~= vs);
    assert forall|i: int| 0 <= i <= 512 implies #[trigger] total(g.0@.take(i)) == before(
        vs.push(v),
        i as nat,
    ) by {
        assert(total(h.0@.take(i)) == before(vs, i as nat));
        if b < i {
            assert(g.0@.take(i) =~= h.0@.take(i).update(b, (h.0@[b] + 1) as u64));
            lemma_total_update(h.0@.take(i), b, (h.0@[b] + 1) as u64);
        } else {
            assert(g.0@.take(i) =~= h.0@.take(i));
        }
    }
}

proof fn lemma_totals_add(a: Seq<u64>, b: Seq<u64>, c: Seq<u64>)
    requires
        a.len() == b.len() == c.len(),
        forall|i: int| 0 <= i < c.len() ==> c[i] == a[i] + b[i],
    ensures
        total(c) == total(a) + total(b),
    decreases c.len(),
{
    if c.len() > 0 {
        lemma_totals_add(a.drop_last(), b.drop_last(), c.drop_last());
    }
}

proof fn lemma_before_add(vs: Seq<u64>, ws: Seq<u64>, i: nat)
    ensures
        before(vs + ws, i) == before(vs, i) + before(ws, i),
    decreases ws.len(),
{
    if ws.len() == 0 {
        assert(vs + ws =~= vs);
    } else {
        assert((vs + ws).drop_last() =~= vs + ws.drop_last());
        lemma_before_add(vs, ws.drop_last(), i);
    }
}

/// A merged histogram holds the values of both.
pub proof fn merging_keeps_every_value(h: Hist, o: Hist, g: Hist, vs: Seq<u64>, ws: Seq<u64>)
    requires
        holds(h, vs),
        holds(o, ws),
        h.counted() + o.counted() <= u64::MAX,
        g.0@ == Seq::new(512, |i: int| (h.0@[i] + o.0@[i]) as u64),
    ensures
        holds(g, vs + ws),
{
    assert forall|i: int| 0 <= i < 512 implies g.0@[i] == h.0@[i] + o.0@[i] by {
        lemma_total_part(h.0@, i);
        lemma_total_part(o.0@, i);
    }
    assert forall|i: int| 0 <= i <= 512 implies #[trigger] total(g.0@.take(i)) == before(
        vs + ws,
        i as nat,
    ) by {
        assert(total(h.0@.take(i)) == before(vs, i as nat));
        assert(total(o.0@.take(i)) == before(ws, i as nat));
        lemma_totals_add(h.0@.take(i), o.0@.take(i), g.0@.take(i));
        lemma_before_add(vs, ws, i as nat);
    }
}

proof fn lemma_before_bounds(vs: Seq<u64>, x: u64)
    ensures
        before(vs, bucket(x as nat)) <= smaller(vs, x as nat),
        smaller(vs, x as nat + 1) <= before(vs, bucket(x as nat) + 1),
    decreases vs.len(),
{
    if vs.len() > 0 {
        lemma_before_bounds(vs.drop_last(), x);
        let v = vs.last();
        if v <= x {
            buckets_keep_the_order(v as nat, x as nat);
        } else {
            buckets_keep_the_order(x as nat, v as nat);
        }
    }
}

proof fn lemma_before_ascends(vs: Seq<u64>, i: nat, j: nat)
    requires
        i <= j,
    ensures
        before(vs, i) <= before(vs, j),
    decreases vs.len(),
{
    if vs.len() > 0 {
        lemma_before_ascends(vs.drop_last(), i, j);
    }
}

proof fn lemma_reach(s: Seq<u64>, target: nat, i: int, k: int)
    requires
        0 <= i <= k < s.len(),
        total(s.take(k + 1)) >= target,
        forall|j: int| i <= j < k ==> total(#[trigger] s.take(j + 1)) < target,
    ensures
        reach(s, target, i) == Some(k),
    decreases k - i,
{
    if i < k {
        assert(total(s.take(i + 1)) < target);
        lemma_reach(s, target, i + 1, k);
    }
}

/// A quantile of the values held is the start of the bucket of the value it
/// asks for: that value, rounded down by at most an eighth of it.
pub proof fn quantiles_find_the_value(h: Hist, vs: Seq<u64>, target: nat, x: u64)
    requires
        holds(h, vs),
        smaller(vs, x as nat) < target <= smaller(vs, x as nat + 1),
    ensures
        h.quantile_of(target) == bucket_start(bucket(x as nat)),
        h.quantile_of(target) <= x,
        x - h.quantile_of(target) <= x / 8,
{
    let k = bucket(x as nat) as int;
    starts_are_exact(x);
    buckets_are_contiguous(x as nat);
    lemma_before_bounds(vs, x);
    assert(total(h.0@.take(k + 1)) == before(vs, (k + 1) as nat));
    lemma_total_bound(h.0@, k + 1);
    assert forall|j: int| 0 <= j < k implies total(#[trigger] h.0@.take(j + 1)) < target by {
        assert(total(h.0@.take(j + 1)) == before(vs, (j + 1) as nat));
        lemma_before_ascends(vs, (j + 1) as nat, k as nat);
    }
    lemma_reach(h.0@, target, 0, k);
}

} // verus!
