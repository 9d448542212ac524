//! Round-robin division of `n` students into `g` groups: per-group sizes,
//! the flattened assignment sequences, and the proof that the sizes are
//! balanced and add up to `n`.

use vstd::prelude::*;

verus! {

/// How many students land in group `k` when `n` students are dealt
/// round-robin into `g` groups.
pub open spec fn group_size(n: int, g: int, k: int) -> int {
    n / g + if k < n % g {
        1int
    } else {
        0int
    }
}

/// The per-group sizes, as a sequence indexed by group number.
pub open spec fn group_sizes_seq(n: int, g: int) -> Seq<u32> {
    Seq::new(g as nat, |k: int| group_size(n, g, k) as u32)
}

/// The group of the `i`-th student when students are assigned to groups
/// `0, 1, ..., g-1, 0, 1, ...` in turn.
pub open spec fn round_robin_seq(n: int, g: int) -> Seq<u32> {
    Seq::new(n as nat, |i: int| (i % g) as u32)
}

/// `x` repeated `n` times.
pub open spec fn rep(x: u32, n: nat) -> Seq<u32> {
    Seq::new(n, |i: int| x)
}

/// The flattened block assignment: for sizes `[3, 2]` starting at `base = 0`,
/// the sequence `[0, 0, 0, 1, 1]`.
pub open spec fn block_assign(sizes: Seq<u32>, base: int) -> Seq<u32>
    decreases sizes.len(),
{
    if sizes.len() == 0 {
        Seq::empty()
    } else {
        rep(base as u32, sizes[0] as nat) + block_assign(sizes.drop_first(), base + 1)
    }
}

/// How many entries of `s` equal `x`.
pub open spec fn count_val(s: Seq<u32>, x: u32) -> nat
    decreases s.len(),
{
    if s.len() == 0 {
        0
    } else {
        count_val(s.drop_last(), x) + if s.last() == x {
            1nat
        } else {
            0nat
        }
    }
}

/// The total of `count_val` over the groups `0 .. j`.
pub open spec fn sum_counts(s: Seq<u32>, j: nat) -> nat
    decreases j,
{
    if j == 0 {
        0
    } else {
        sum_counts(s, (j - 1) as nat) + count_val(s, (j - 1) as u32)
    }
}

/// Group sizes of a round-robin deal: group `k` of `g` receives
/// `n / g` students, plus one more when `k < n % g`.
pub fn group_numbers(student_count: usize, group_count: u32) -> (r: Vec<u32>)
    requires
        group_count >= 1,
        student_count <= u32::MAX,
    ensures
        r@.len() == group_count,
        forall|k: int|
            0 <= k < group_count ==> r@[k] == group_size(
                student_count as int,
                group_count as int,
                k,
            ),
{
    let n = student_count as u32;
    let q = n / group_count;
    let m = n % group_count;
    let mut out: Vec<u32> = Vec::new();
    let mut k: u32 = 0;
    proof {
        assert(q + 1 <= u32::MAX || m == 0) by (nonlinear_arith)
            requires
                q == n / group_count,
                m == n % group_count,
                group_count >= 1,
                n <= u32::MAX,
        ;
    }
    while k < group_count
        invariant
            out@.len() == k,
            k <= group_count,
            q == n / group_count,
            m == n % group_count,
            q + 1 <= u32::MAX || m == 0,
            m < group_count || group_count == 0,
            forall|j: int|
                0 <= j < k ==> out@[j] == group_size(n as int, group_count as int, j),
        decreases group_count - k,
    {
        if k < m {
            out.push(q + 1);
        } else {
            out.push(q);
        }
        k = k + 1;
    }
    out
}

proof fn lemma_block_assign_snoc(sizes: Seq<u32>, v: u32, base: int)
    ensures
        block_assign(sizes.push(v), base) =~= block_assign(sizes, base) + rep(
            (base + sizes.len()) as u32,
            v as nat,
        ),
    decreases sizes.len(),
{
    if sizes.len() == 0 {
        let p = sizes.push(v);
        assert(p[0] == v);
        assert(p.len() == 1);
        assert(p.drop_first() =~= Seq::<u32>::empty());
        assert(block_assign(p, base) == rep(base as u32, p[0] as nat) + block_assign(
            p.drop_first(),
            base + 1,
        ));
        assert(block_assign(p.drop_first(), base + 1) =~= Seq::<u32>::empty());
        assert(block_assign(sizes, base) =~= Seq::<u32>::empty());
        assert(block_assign(p, base) =~= rep(base as u32, v as nat));
    } else {
        assert(sizes.push(v)[0] == sizes[0]);
        assert(sizes.push(v).drop_first() =~= sizes.drop_first().push(v));
        lemma_block_assign_snoc(sizes.drop_first(), v, base + 1);
    }
}

/// The flattened block assignment of a round-robin deal: group numbers in
/// non-decreasing order, each group number `k` appearing as often as group
/// `k`'s size, for example `[0, 0, 0, 1, 1, 1, 2, 2, 2]`.
pub fn groups(student_count: usize, group_count: u32) -> (r: Vec<u32>)
    requires
        group_count >= 1,
        student_count <= u32::MAX,
    ensures
        r@ == block_assign(group_sizes_seq(student_count as int, group_count as int), 0),
{
    let sizes = group_numbers(student_count, group_count);
    let ghost target = group_sizes_seq(student_count as int, group_count as int);
    proof {
        assert(sizes@ =~= target);
    }
    let mut out: Vec<u32> = Vec::new();
    let mut k: usize = 0;
    while k < sizes.len()
        invariant
            k <= sizes@.len(),
            sizes@ == target,
            sizes@.len() == group_count,
            group_count <= u32::MAX,
            out@ == block_assign(sizes@.subrange(0, k as int), 0),
        decreases sizes@.len() - k,
    {
        let sz = sizes[k];
        let mut c: u32 = 0;
        while c < sz
            invariant
                c <= sz,
                k < sizes@.len(),
                sz == sizes@[k as int],
                out@ == block_assign(sizes@.subrange(0, k as int), 0) + rep(k as u32, c as nat),
                k < u32::MAX,
            decreases sz - c,
        {
            out.push(k as u32);
            c = c + 1;
            proof {
                assert(out@ =~= block_assign(sizes@.subrange(0, k as int), 0) + rep(
                    k as u32,
                    c as nat,
                ));
            }
        }
        proof {
            lemma_block_assign_snoc(sizes@.subrange(0, k as int), sz, 0);
            assert(sizes@.subrange(0, k as int).push(sz) =~= sizes@.subrange(0, (k + 1) as int));
            assert(out@ =~= block_assign(sizes@.subrange(0, (k + 1) as int), 0));
        }
        k = k + 1;
    }
    proof {
        assert(sizes@.subrange(0, sizes@.len() as int) =~= sizes@);
    }
    out
}

/// The sizes an earlier division scheme used: every group holds `n / g`
/// students and the last group takes all that remains.
pub fn old_group_numbers(student_count: usize, group_count: u32) -> (r: Vec<u32>)
    requires
        group_count >= 1,
        student_count <= u32::MAX,
    ensures
        r@.len() == group_count,
        forall|k: int|
            0 <= k < group_count - 1 ==> r@[k] == student_count as int / group_count as int,
        r@[group_count - 1] == student_count - (group_count - 1) * (student_count as int
            / group_count as int),
{
    let n = student_count as u32;
    let q = n / group_count;
    let mut out: Vec<u32> = Vec::new();
    let mut sum: u32 = 0;
    let mut i: u32 = 0;
    proof {
        assert((group_count - 1) * (n as int / group_count as int) <= n) by (nonlinear_arith)
            requires
                group_count >= 1,
        ;
    }
    while i < group_count
        invariant
            i <= group_count,
            out@.len() == i,
            q == n / group_count,
            i <= group_count - 1 ==> sum == i * q as int,
            i == group_count ==> sum == (group_count - 1) * q as int,
            (group_count - 1) * q as int <= n,
            n <= u32::MAX,
            forall|k: int| 0 <= k < i && k < group_count - 1 ==> out@[k] == q,
            i == group_count ==> out@[group_count - 1] == n - (group_count - 1) * q as int,
        decreases group_count - i,
    {
        if i == group_count - 1 {
            out.push(n - sum);
        } else {
            proof {
                assert(sum + q == (i + 1) * q as int) by (nonlinear_arith)
                    requires
                        sum == i * q as int,
                ;
                assert((i + 1) * q as int <= (group_count - 1) * q as int) by (nonlinear_arith)
                    requires
                        i + 1 <= group_count - 1,
                        q >= 0,
                ;
            }
            sum = sum + q;
            out.push(q);
        }
        i = i + 1;
    }
    out
}

pub 
proof fn lemma_group_size_fits(n: int, g: int, k: int)
    requires
        1 <= g,
        0 <= n <= u32::MAX,
        0 <= k,
    ensures
        0 <= group_size(n, g, k) <= u32::MAX,
{
    assert(0 <= n % g < g) by (nonlinear_arith)
        requires
            g >= 1,
            n >= 0,
    ;
    assert(0 <= n / g <= n) by (nonlinear_arith)
        requires
            g >= 1,
            n >= 0,
    ;
    if k < n % g {
        assert(g >= 2);
        assert(n / g <= n / 2) by (nonlinear_arith)
            requires
                g >= 2,
                n >= 0,
        ;
        assert(n / 2 + 1 <= u32::MAX);
    }
}

proof fn lemma_sizes_len_from(n: int, g: int, j: int)
    requires
        1 <= g <= u32::MAX,
        0 <= n <= u32::MAX,
        0 <= j <= g,
    ensures
        block_assign(Seq::new((g - j) as nat, |k: int| group_size(n, g, k + j) as u32), j).len()
            == (g - j) * (n / g) + if n % g - j >= 0 {
            n % g - j
        } else {
            0int
        },
    decreases g - j,
{
    let f = |k: int| group_size(n, g, k + j) as u32;
    let s = Seq::new((g - j) as nat, f);
    assert(0 <= n % g < g && 0 <= n / g) by (nonlinear_arith)
        requires
            g >= 1,
            n >= 0,
    ;
    if j == g {
        assert(s.len() == 0);
    } else {
        lemma_group_size_fits(n, g, j);
        assert(s[0] == group_size(n, g, j) as u32);
        assert(s[0] as int == group_size(n, g, j));
        let f1 = |k: int| group_size(n, g, k + (j + 1)) as u32;
        assert(s.drop_first() =~= Seq::new((g - (j + 1)) as nat, f1));
        lemma_sizes_len_from(n, g, j + 1);
        assert(block_assign(s, j) == rep(j as u32, s[0] as nat) + block_assign(
            s.drop_first(),
            j + 1,
        ));
        assert((g - j) * (n / g) == (g - (j + 1)) * (n / g) + n / g) by (nonlinear_arith);
    }
}

/// The flattened block assignment accounts for every student: its length is
/// exactly the student count.
pub proof fn lemma_block_assign_total(n: int, g: int)
    requires
        1 <= g <= u32::MAX,
        0 <= n <= u32::MAX,
    ensures
        block_assign(group_sizes_seq(n, g), 0).len() == n,
{
    lemma_sizes_len_from(n, g, 0);
    assert(group_sizes_seq(n, g) =~= Seq::new(g as nat, |k: int| group_size(n, g, k + 0) as u32));
    assert(g * (n / g) + n % g == n) by (nonlinear_arith)
        requires
            g >= 1,
            n >= 0,
    ;
}

/// Every group number the flattened block assignment hands out names one of
/// the `g` groups.
pub proof fn lemma_block_assign_range(n: int, g: int)
    requires
        1 <= g <= u32::MAX,
        0 <= n <= u32::MAX,
    ensures
        forall|t: int|
            0 <= t < block_assign(group_sizes_seq(n, g), 0).len() ==> (#[trigger] block_assign(
                group_sizes_seq(n, g),
                0,
            )[t]) < g,
{
    lemma_block_range_from(group_sizes_seq(n, g), 0, g);
}

proof fn lemma_block_range_from(sizes: Seq<u32>, base: int, bound: int)
    requires
        0 <= base,
        base + sizes.len() <= bound,
    ensures
        forall|t: int|
            0 <= t < block_assign(sizes, base).len() ==> (#[trigger] block_assign(
                sizes,
                base,
            )[t]) < bound,
    decreases sizes.len(),
{
    if sizes.len() > 0 {
        lemma_block_range_from(sizes.drop_first(), base + 1, bound);
        assert forall|t: int| 0 <= t < block_assign(sizes, base).len() implies (
        #[trigger] block_assign(sizes, base)[t]) < bound by {
            let head = rep(base as u32, sizes[0] as nat);
            assert(block_assign(sizes, base) == head + block_assign(sizes.drop_first(), base + 1));
            if t < head.len() {
                assert(block_assign(sizes, base)[t] == base as u32);
            } else {
                assert(block_assign(sizes, base)[t] == block_assign(
                    sizes.drop_first(),
                    base + 1,
                )[t - head.len()]);
            }
        }
    }
}


proof fn lemma_count_concat(a: Seq<u32>, b: Seq<u32>, x: u32)
    ensures
        count_val(a + b, x) == count_val(a, x) + count_val(b, x),
    decreases b.len(),
{
    if b.len() == 0 {
        assert(a + b =~= a);
    } else {
        assert((a + b).drop_last() =~= a + b.drop_last());
        assert((a + b).last() == b.last());
        lemma_count_concat(a, b.drop_last(), x);
    }
}

proof fn lemma_count_rep(v: u32, n: nat, x: u32)
    ensures
        count_val(rep(v, n), x) == if v == x {
            n
        } else {
            0nat
        },
    decreases n,
{
    if n > 0 {
        assert(rep(v, n).drop_last() =~= rep(v, (n - 1) as nat));
        lemma_count_rep(v, (n - 1) as nat, x);
    }
}

proof fn lemma_block_count_from(sizes: Seq<u32>, base: int, x: u32)
    requires
        0 <= base,
        base + sizes.len() <= u32::MAX + 1,
    ensures
        count_val(block_assign(sizes, base), x) == if base <= x < base + sizes.len() {
            sizes[x - base] as nat
        } else {
            0nat
        },
    decreases sizes.len(),
{
    if sizes.len() == 0 {
    } else {
        assert(block_assign(sizes, base) == rep(base as u32, sizes[0] as nat) + block_assign(
            sizes.drop_first(),
            base + 1,
        ));
        lemma_count_concat(
            rep(base as u32, sizes[0] as nat),
            block_assign(sizes.drop_first(), base + 1),
            x,
        );
        lemma_count_rep(base as u32, sizes[0] as nat, x);
        lemma_block_count_from(sizes.drop_first(), base + 1, x);
        if base <= x < base + sizes.len() && x != base {
            assert(sizes.drop_first()[x - (base + 1)] == sizes[x - base]);
        }
    }
}

/// The flattened block deal gives each group exactly its computed size:
/// group `k` appears in the assignment `n / g` times, plus once more when
/// `k < n % g`, and no other value appears at all.
pub proof fn lemma_block_assign_counts(n: int, g: int, k: u32)
    requires
        1 <= g <= u32::MAX,
        0 <= n <= u32::MAX,
        k < g,
    ensures
        count_val(block_assign(group_sizes_seq(n, g), 0), k) == group_size(n, g, k as int),
{
    lemma_block_count_from(group_sizes_seq(n, g), 0, k);
    lemma_group_size_fits(n, g, k as int);
}

pub proof fn lemma_count_push(s: Seq<u32>, v: u32, x: u32)
    ensures
        count_val(s.push(v), x) == count_val(s, x) + if v == x {
            1int
        } else {
            0int
        },
{
    assert(s.push(v).drop_last() =~= s);
}

proof fn lemma_div_mod_step(m: int, gi: int)
    requires
        gi >= 1,
        m >= 1,
    ensures
        0 <= (m - 1) % gi < gi,
        0 <= m % gi < gi,
        (m - 1) % gi == gi - 1 ==> m % gi == 0 && m / gi == (m - 1) / gi + 1,
        (m - 1) % gi < gi - 1 ==> m % gi == (m - 1) % gi + 1 && m / gi == (m - 1) / gi,
{
    vstd::arithmetic::div_mod::lemma_fundamental_div_mod(m, gi);
    vstd::arithmetic::div_mod::lemma_fundamental_div_mod(m - 1, gi);
    vstd::arithmetic::div_mod::lemma_mod_bound(m, gi);
    vstd::arithmetic::div_mod::lemma_mod_bound(m - 1, gi);
    vstd::arithmetic::div_mod::lemma_div_pos_is_pos(m - 1, gi);
    let c = (m - 1) / gi;
    let d = (m - 1) % gi;
    if d == gi - 1 {
        assert(m == (c + 1) * gi + 0) by (nonlinear_arith)
            requires
                m - 1 == gi * c + d,
                d == gi - 1,
        ;
        vstd::arithmetic::div_mod::lemma_fundamental_div_mod_converse(m, gi, c + 1, 0);
    } else {
        assert(m == c * gi + (d + 1)) by (nonlinear_arith)
            requires
                m - 1 == gi * c + d,
        ;
        vstd::arithmetic::div_mod::lemma_fundamental_div_mod_converse(m, gi, c, d + 1);
    }
}

proof fn lemma_rr_count(n: nat, g: nat, k: u32)
    requires
        g >= 1,
        g <= u32::MAX,
        k < g,
    ensures
        count_val(round_robin_seq(n as int, g as int), k) == group_size(n as int, g as int, k as int),
    decreases n,
{
    if n == 0 {
    } else {
        lemma_div_mod_step(n as int, g as int);
        let prev = round_robin_seq(n as int - 1, g as int);
        let cur = round_robin_seq(n as int, g as int);
        assert(cur =~= prev.push((((n - 1) as int) % (g as int)) as u32));
        lemma_count_push(prev, (((n - 1) as int) % (g as int)) as u32, k);
        lemma_rr_count((n - 1) as nat, g, k);
    }
}

proof fn lemma_sum_counts_push(s: Seq<u32>, v: u32, j: nat)
    requires
        v < j,
        j <= u32::MAX,
    ensures
        sum_counts(s.push(v), j) == sum_counts(s, j) + 1,
    decreases j,
{
    if j == 0 {
    } else {
        lemma_count_push(s, v, (j - 1) as u32);
        if v == (j - 1) as u32 {
            lemma_sum_counts_same(s, v, (j - 1) as nat);
        } else {
            lemma_sum_counts_push(s, v, (j - 1) as nat);
        }
    }
}

proof fn lemma_sum_counts_same(s: Seq<u32>, v: u32, j: nat)
    requires
        v >= j,
        j <= u32::MAX,
    ensures
        sum_counts(s.push(v), j) == sum_counts(s, j),
    decreases j,
{
    if j == 0 {
    } else {
        lemma_count_push(s, v, (j - 1) as u32);
        lemma_sum_counts_same(s, v, (j - 1) as nat);
    }
}

proof fn lemma_rr_total(n: nat, g: nat)
    requires
        g >= 1,
        g <= u32::MAX,
    ensures
        sum_counts(round_robin_seq(n as int, g as int), g) == n,
    decreases n,
{
    if n == 0 {
        assert(round_robin_seq(n as int, g as int) =~= Seq::<u32>::empty());
        lemma_sum_counts_empty(g);
    } else {
        let prev = round_robin_seq(n as int - 1, g as int);
        let cur = round_robin_seq(n as int, g as int);
        let v = (((n - 1) as int) % (g as int)) as u32;
        lemma_div_mod_step(n as int, g as int);
        assert(v < g);
        assert(cur =~= prev.push(v));
        lemma_sum_counts_push(prev, v, g);
        assert(sum_counts(cur, g) == sum_counts(prev, g) + 1);
        lemma_rr_total((n - 1) as nat, g);
        assert(sum_counts(prev, g) == n - 1);
    }
}

proof fn lemma_sum_counts_empty(j: nat)
    ensures
        sum_counts(Seq::<u32>::empty(), j) == 0,
    decreases j,
{
    if j > 0 {
        lemma_sum_counts_empty((j - 1) as nat);
    }
}

/// Round-robin distribution is balanced: dealing `n` students into `g`
/// groups gives each group either `n / g` or `n / g + 1` students — any two
/// group sizes differ by at most one — and the sizes add up to `n`.
pub proof fn lemma_group_balance(n: nat, g: nat)
    requires
        g >= 1,
        g <= u32::MAX,
    ensures
        forall|k: u32|
            k < g ==> count_val(round_robin_seq(n as int, g as int), k) == group_size(
                n as int,
                g as int,
                k as int,
            ),
        sum_counts(round_robin_seq(n as int, g as int), g) == n,
        forall|k1: u32, k2: u32|
            k1 < g && k2 < g ==> count_val(round_robin_seq(n as int, g as int), k1) <= count_val(
                round_robin_seq(n as int, g as int),
                k2,
            ) + 1,
{
    assert forall|k: u32| k < g implies count_val(round_robin_seq(n as int, g as int), k)
        == group_size(n as int, g as int, k as int) by {
        lemma_rr_count(n, g, k);
    }
    lemma_rr_total(n, g);
    assert(0 <= (n as int) % (g as int) < g && (n as int) / (g as int) >= 0) by (nonlinear_arith)
        requires
            g >= 1,
    ;
    assert forall|k1: u32, k2: u32| k1 < g && k2 < g implies count_val(
        round_robin_seq(n as int, g as int),
        k1,
    ) <= count_val(round_robin_seq(n as int, g as int), k2) + 1 by {
        lemma_rr_count(n, g, k1);
        lemma_rr_count(n, g, k2);
    }
}

} // verus!
