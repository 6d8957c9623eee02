use vstd::prelude::*;

verus! {

/// The sum of a sequence of counts.
pub open spec fn seq_sum(s: Seq<usize>) -> nat
    decreases s.len(),
{
    if s.len() == 0 {
        0
    } else {
        seq_sum(s.drop_last()) + s.last() as nat
    }
}

/// The whole part of the share of `n` seats that `counts[i]` earns.
pub open spec fn lrm_floor(n: nat, counts: Seq<usize>, i: int) -> int {
    (n * counts[i]) / (seq_sum(counts) as int)
}

/// The remainder left over once the whole part of the share of `counts[i]` is
/// given (in units of `1 / sum(counts)` of a seat).
pub open spec fn lrm_rem(n: nat, counts: Seq<usize>, i: int) -> int {
    (n * counts[i]) % (seq_sum(counts) as int)
}

/// `i` comes before `j` when the remaining seats are handed out: larger
/// remainder first, the lower index first among equal remainders.
pub open spec fn lrm_before(n: nat, counts: Seq<usize>, i: int, j: int) -> bool {
    ||| lrm_rem(n, counts, i) > lrm_rem(n, counts, j)
    ||| lrm_rem(n, counts, i) == lrm_rem(n, counts, j) && i < j
}

/// `seats` shares `n` seats among `counts` by the largest remainder method:
/// each entry gets the whole part of its share, and the seats left over go one
/// each to the entries with the largest remainders.
pub open spec fn is_lrm_allocation(n: nat, counts: Seq<usize>, seats: Seq<usize>) -> bool {
    &&& seats.len() == counts.len()
    &&& seq_sum(seats) == n
    &&& forall|i: int|
        0 <= i < seats.len() ==> #[trigger] seats[i] == lrm_floor(n, counts, i) || seats[i]
            == lrm_floor(n, counts, i) + 1
    &&& forall|i: int, j: int|
        0 <= i < seats.len() && 0 <= j < seats.len() && #[trigger] seats[i] == lrm_floor(
            n,
            counts,
            i,
        ) + 1 && #[trigger] seats[j] == lrm_floor(n, counts, j) ==> lrm_before(n, counts, i, j)
}

/// The largest remainder allocation of `n` seats among `counts`.
pub open spec fn lrm_spec(n: nat, counts: Seq<usize>) -> Seq<usize> {
    choose|seats: Seq<usize>| is_lrm_allocation(n, counts, seats)
}

pub proof fn lemma_sum_push(s: Seq<usize>, x: usize)
    ensures
        seq_sum(s.push(x)) == seq_sum(s) + x,
{
    assert(s.push(x).drop_last() =~= s);
}

pub proof fn lemma_sum_take(s: Seq<usize>, i: int)
    requires
        0 <= i < s.len(),
    ensures
        seq_sum(s.take(i + 1)) == seq_sum(s.take(i)) + s[i],
{
    assert(s.take(i + 1).drop_last() =~= s.take(i));
}

pub proof fn lemma_sum_prefix_le(s: Seq<usize>, i: int)
    requires
        0 <= i <= s.len(),
    ensures
        seq_sum(s.take(i)) <= seq_sum(s),
    decreases s.len() - i,
{
    if i < s.len() {
        lemma_sum_take(s, i);
        lemma_sum_prefix_le(s, i + 1);
    } else {
        assert(s.take(i) =~= s);
    }
}

pub proof fn lemma_sum_update(s: Seq<usize>, m: int, v: usize)
    requires
        0 <= m < s.len(),
    ensures
        seq_sum(s.update(m, v)) == seq_sum(s) - s[m] + v,
    decreases s.len(),
{
    let t = s.update(m, v);
    if m == s.len() - 1 {
        assert(t.drop_last() =~= s.drop_last());
    } else {
        assert(t.drop_last() =~= s.drop_last().update(m, v));
        lemma_sum_update(s.drop_last(), m, v);
    }
}

/// A sequence that is nowhere smaller is no smaller in sum, and larger in sum
/// if it is larger somewhere.
pub proof fn lemma_sum_mono(a: Seq<usize>, b: Seq<usize>)
    requires
        a.len() == b.len(),
        forall|i: int| 0 <= i < a.len() ==> a[i] <= b[i],
    ensures
        seq_sum(a) <= seq_sum(b),
        (exists|i: int| 0 <= i < a.len() && a[i] < b[i]) ==> seq_sum(a) < seq_sum(b),
    decreases a.len(),
{
    if a.len() > 0 {
        lemma_sum_mono(a.drop_last(), b.drop_last());
        if exists|i: int| 0 <= i < a.len() && a[i] < b[i] {
            let i = choose|i: int| 0 <= i < a.len() && a[i] < b[i];
            if i < a.len() - 1 {
                assert(a.drop_last()[i] < b.drop_last()[i]);
            }
        }
    }
}

pub proof fn lemma_sum_plus_one(a: Seq<usize>, b: Seq<usize>)
    requires
        a.len() == b.len(),
        forall|i: int| 0 <= i < a.len() ==> #[trigger] b[i] == a[i] + 1,
    ensures
        seq_sum(b) == seq_sum(a) + a.len(),
    decreases a.len(),
{
    if a.len() > 0 {
        lemma_sum_plus_one(a.drop_last(), b.drop_last());
        assert(b.last() == a.last() + 1);
    }
}

/// Law: the largest remainder allocation is unique, so `lrm` has no choice to
/// make.
pub proof fn lemma_lrm_unique(n: nat, counts: Seq<usize>, s1: Seq<usize>, s2: Seq<usize>)
    requires
        is_lrm_allocation(n, counts, s1),
        is_lrm_allocation(n, counts, s2),
    ensures
        s1 == s2,
{
    if !(s1 =~= s2) {
        let i = choose|i: int| 0 <= i < s1.len() && s1[i] != s2[i];
        assert(s1[i] == lrm_floor(n, counts, i) || s1[i] == lrm_floor(n, counts, i) + 1);
        assert(s2[i] == lrm_floor(n, counts, i) || s2[i] == lrm_floor(n, counts, i) + 1);
        // `hi` holds the extra seat at `i` and `lo` does not
        let (hi, lo) = if s1[i] > s2[i] {
            (s1, s2)
        } else {
            (s2, s1)
        };
        assert(hi[i] == lrm_floor(n, counts, i) + 1 && lo[i] == lrm_floor(n, counts, i));
        if forall|j: int| 0 <= j < hi.len() ==> lo[j] <= hi[j] {
            lemma_sum_mono(lo, hi);
            assert(false);
        }
        let j = choose|j: int| 0 <= j < hi.len() && !(lo[j] <= hi[j]);
        assert(hi[j] == lrm_floor(n, counts, j) || hi[j] == lrm_floor(n, counts, j) + 1);
        assert(lo[j] == lrm_floor(n, counts, j) || lo[j] == lrm_floor(n, counts, j) + 1);
        assert(lrm_before(n, counts, i, j));
        assert(lrm_before(n, counts, j, i));
    }
}


/// Shares `n` seats among `counts` by the largest remainder method (Hamilton's
/// method): every entry first gets the whole part of `n * counts[i] / sum`,
/// then the seats left over go one each to the entries with the largest
/// remainders, the lower index first among equal remainders.
pub fn lrm(n: usize, counts: &Vec<usize>) -> (seats: Vec<usize>)
    requires
        seq_sum(counts@) > 0,
    ensures
        is_lrm_allocation(n as nat, counts@, seats@),
        seats@ == lrm_spec(n as nat, counts@),
{
    let len = counts.len();
    let ghost c = counts@;
    let ghost nn = n as nat;
    // the total of the counts
    let mut total: u128 = 0;
    let mut i: usize = 0;
    while i < len
        invariant
            len == c.len(),
            c == counts@,
            i <= len,
            total == seq_sum(c.take(i as int)),
            total <= i * (usize::MAX as nat),
        decreases len - i,
    {
        proof {
            lemma_sum_take(c, i as int);
            assert((i + 1) * (usize::MAX as nat) == i * (usize::MAX as nat) + usize::MAX as nat)
                by (nonlinear_arith);
            assert(i * (usize::MAX as nat) <= usize::MAX as nat * usize::MAX as nat)
                by (nonlinear_arith)
                requires
                    i <= usize::MAX,
            ;
            assert(usize::MAX as nat * usize::MAX as nat + usize::MAX as nat <= u128::MAX)
                by (nonlinear_arith)
                requires
                    usize::MAX <= u64::MAX,
            ;
        }
        total = total + counts[i] as u128;
        i += 1;
    }
    assert(c.take(len as int) =~= c);
    let ghost t = total as int;
    assert(t == seq_sum(c) as int);
    // the whole parts and the remainders
    let mut floors: Vec<usize> = Vec::new();
    let mut seats0: Vec<usize> = Vec::new();
    let mut rems: Vec<u128> = Vec::new();
    let mut floor_sum: usize = 0;
    let ghost mut rem_sum: int = 0;
    let mut i: usize = 0;
    while i < len
        invariant
            len == c.len(),
            c == counts@,
            t == total,
            t == seq_sum(c),
            t > 0,
            i <= len,
            floors.len() == i,
            seats0@ == floors@,
            rems.len() == i,
            forall|j: int| 0 <= j < i ==> #[trigger] floors@[j] == lrm_floor(nn, c, j),
            forall|j: int| 0 <= j < i ==> #[trigger] rems@[j] == lrm_rem(nn, c, j),
            seq_sum(floors@) == floor_sum,
            floor_sum * t + rem_sum == nn * seq_sum(c.take(i as int)),
            0 <= rem_sum <= i * (t - 1),
            floor_sum <= n,
            nn == n,
        decreases len - i,
    {
        let ghost ci = c[i as int] as int;
        proof {
            lemma_sum_take(c, i as int);
            lemma_sum_prefix_le(c, i as int + 1);
            assert(ci <= t);
            assert(n * ci <= usize::MAX as nat * usize::MAX as nat) by (nonlinear_arith)
                requires
                    0 <= ci <= usize::MAX,
                    n <= usize::MAX,
            ;
            assert(usize::MAX as nat * usize::MAX as nat <= u128::MAX) by (nonlinear_arith)
                requires
                    usize::MAX <= u64::MAX,
            ;
        }
        let p: u128 = n as u128 * counts[i] as u128;
        let f: u128 = p / total;
        let r: u128 = p % total;
        proof {
            assert(p == f * t + r && 0 <= r < t) by (nonlinear_arith)
                requires
                    f == p as int / t,
                    r == p as int % t,
                    t > 0,
            ;
            assert(nn * seq_sum(c.take(i as int + 1)) == nn * seq_sum(c.take(i as int)) + nn * ci)
                by (nonlinear_arith)
                requires
                    seq_sum(c.take(i as int + 1)) == seq_sum(c.take(i as int)) + ci,
            ;
            let s1 = seq_sum(c.take(i as int + 1)) as int;
            assert((floor_sum + f) * t + rem_sum + r == nn * s1) by (nonlinear_arith)
                requires
                    floor_sum * t + rem_sum == nn * seq_sum(c.take(i as int)),
                    nn * s1 == nn * seq_sum(c.take(i as int)) + nn * ci,
                    p == f * t + r,
                    p == nn * ci,
            ;
            assert(floor_sum + f <= n) by (nonlinear_arith)
                requires
                    (floor_sum + f) * t + rem_sum + r == nn * s1,
                    s1 <= t,
                    rem_sum >= 0,
                    r >= 0,
                    t > 0,
                    nn == n,
            ;
            assert(rem_sum + r <= (i + 1) * (t - 1)) by (nonlinear_arith)
                requires
                    rem_sum <= i * (t - 1),
                    r <= t - 1,
            ;
            lemma_sum_push(floors@, f as usize);
        }
        floors.push(f as usize);
        seats0.push(f as usize);
        rems.push(r);
        floor_sum = floor_sum + f as usize;
        proof {
            rem_sum = rem_sum + r;
        }
        i += 1;
    }
    assert(c.take(len as int) =~= c);
    let k: usize = n - floor_sum;
    proof {
        assert(floor_sum * t + rem_sum == nn * t);
        let kk = nn - floor_sum;
        assert(kk * t == rem_sum) by (nonlinear_arith)
            requires
                floor_sum * t + rem_sum == nn * t,
                kk == nn - floor_sum,
        ;
        assert(rem_sum < len * t) by (nonlinear_arith)
            requires
                rem_sum <= len * (t - 1),
                len > 0,
        ;
        assert(kk < len) by (nonlinear_arith)
            requires
                kk * t < len * t,
                t > 0,
        ;
    }
    // hand out the seats that are left, one each, best remainder first
    let mut seats = seats0;
    let mut given: usize = 0;
    while given < k
        invariant
            len == c.len(),
            c == counts@,
            t == seq_sum(c),
            t > 0,
            nn == n,
            rems.len() == len,
            forall|j: int| 0 <= j < len ==> #[trigger] rems@[j] == lrm_rem(nn, c, j),
            floors.len() == len,
            forall|j: int| 0 <= j < len ==> #[trigger] floors@[j] == lrm_floor(nn, c, j),
            seq_sum(floors@) == floor_sum,
            seats.len() == len,
            given <= k < len,
            floor_sum + k == n,
            seq_sum(seats@) == floor_sum + given,
            forall|j: int|
                0 <= j < len ==> #[trigger] seats@[j] == lrm_floor(nn, c, j) || seats@[j]
                    == lrm_floor(nn, c, j) + 1,
            forall|a: int, b: int|
                0 <= a < len && 0 <= b < len && #[trigger] seats@[a] == lrm_floor(nn, c, a) + 1
                    && #[trigger] seats@[b] == lrm_floor(nn, c, b) ==> lrm_before(nn, c, a, b),
        decreases k - given,
    {
        // the best entry that has not had an extra seat yet
        let ghost old_seats = seats@;
        let mut best: Option<usize> = None;
        let mut j: usize = 0;
        while j < len
            invariant
                len == c.len(),
                rems.len() == len,
                seats.len() == len,
                floors.len() == len,
                forall|x: int| 0 <= x < len ==> #[trigger] rems@[x] == lrm_rem(nn, c, x),
                forall|x: int| 0 <= x < len ==> #[trigger] floors@[x] == lrm_floor(nn, c, x),
                j <= len,
                match best {
                    Some(b) => {
                        &&& b < j
                        &&& seats@[b as int] == lrm_floor(nn, c, b as int)
                        &&& forall|x: int|
                            0 <= x < j && x != b && #[trigger] seats@[x] == lrm_floor(nn, c, x)
                                ==> lrm_before(nn, c, b as int, x)
                    },
                    None => forall|x: int|
                        0 <= x < j ==> #[trigger] seats@[x] != lrm_floor(nn, c, x),
                },
            decreases len - j,
        {
            if seats[j] == floors[j] {
                match best {
                    None => {
                        best = Some(j);
                    },
                    Some(b) => {
                        if rems[j] > rems[b] {
                            best = Some(j);
                        }
                    },
                }
            }
            j += 1;
        }
        match best {
            None => {
                proof {
                    assert forall|x: int| 0 <= x < len implies #[trigger] seats@[x] == floors@[x]
                        + 1 by {
                        assert(seats@[x] != lrm_floor(nn, c, x));
                    }
                    lemma_sum_plus_one(floors@, seats@);
                }
                assert(false);
            },
            Some(m) => {
                proof {
                    lemma_sum_update(seats@, m as int, 0);
                    assert(seats@[m as int] < n);
                    lemma_sum_update(seats@, m as int, (seats@[m as int] + 1) as usize);
                }
                let v = seats[m] + 1;
                seats.set(m, v);
                assert forall|a: int, b: int|
                    0 <= a < len && 0 <= b < len && #[trigger] seats@[a] == lrm_floor(nn, c, a) + 1
                        && #[trigger] seats@[b] == lrm_floor(nn, c, b) implies lrm_before(
                    nn,
                    c,
                    a,
                    b,
                ) by {
                    if a != m as int {
                        assert(seats@[a] == old_seats[a]);
                        assert(seats@[b] == old_seats[b]);
                    }
                }
            },
        }
        given += 1;
    }
    proof {
        assert(is_lrm_allocation(nn, c, seats@));
        lemma_lrm_unique(nn, c, seats@, lrm_spec(nn, c));
    }
    seats
}


/// Law: an entry with more votes never gets fewer seats than one with fewer
/// votes.
pub proof fn lemma_lrm_monotone(n: nat, counts: Seq<usize>, seats: Seq<usize>, i: int, j: int)
    requires
        is_lrm_allocation(n, counts, seats),
        seq_sum(counts) > 0,
        0 <= i < counts.len(),
        0 <= j < counts.len(),
        counts[i] > counts[j],
    ensures
        seats[i] >= seats[j],
{
    let t = seq_sum(counts) as int;
    let a = n * counts[i];
    let b = n * counts[j];
    assert(a >= b) by (nonlinear_arith)
        requires
            a == n * counts[i],
            b == n * counts[j],
            counts[i] > counts[j],
    ;
    assert(a / t >= b / t) by (nonlinear_arith)
        requires
            a >= b,
            t > 0,
    ;
    assert(seats[i] == lrm_floor(n, counts, i) || seats[i] == lrm_floor(n, counts, i) + 1);
    assert(seats[j] == lrm_floor(n, counts, j) || seats[j] == lrm_floor(n, counts, j) + 1);
    if lrm_floor(n, counts, i) == lrm_floor(n, counts, j) && n > 0 {
        assert(a > b) by (nonlinear_arith)
            requires
                a == n * counts[i],
                b == n * counts[j],
                counts[i] > counts[j],
                n > 0,
        ;
        assert(a % t > b % t) by (nonlinear_arith)
            requires
                a > b,
                a / t == b / t,
                t > 0,
        ;
        if seats[j] == lrm_floor(n, counts, j) + 1 && seats[i] == lrm_floor(n, counts, i) {
            assert(lrm_before(n, counts, j, i));
        }
    }
    if n == 0 {
        // no seat at all to hand out
        lemma_sum_update(seats, j, 0);
    }
}

} // verus!
