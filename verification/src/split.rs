use vstd::prelude::*;
use itertools::Itertools;
use crate::text::string_of_range;

verus! {

/// The index of the last occurrence of `c` in `s`, or -1 where there is none.
pub open spec fn last_index_of(s: Seq<char>, c: char) -> int
    decreases s.len(),
{
    if s.len() == 0 {
        -1
    } else if s.last() == c {
        s.len() - 1
    } else {
        last_index_of(s.drop_last(), c)
    }
}

/// The pieces that `str::rsplitn(n, sep)` yields: at most `n` pieces, taken
/// from the end, the last one being whatever is left.
pub open spec fn rsplitn_seq(s: Seq<char>, n: nat, sep: char) -> Seq<Seq<char>>
    decreases n,
{
    if n == 0 {
        Seq::empty()
    } else if n == 1 || last_index_of(s, sep) < 0 {
        seq![s]
    } else {
        let k = last_index_of(s, sep);
        seq![s.subrange(k + 1, s.len() as int)] + rsplitn_seq(s.subrange(0, k), (n - 1) as nat, sep)
    }
}

/// The views of a vector of strings.
pub open spec fn string_views(v: Seq<String>) -> Seq<Seq<char>> {
    v.map_values(|p: String| p@)
}

pub proof fn lemma_last_index_of(s: Seq<char>, c: char)
    ensures
        -1 <= last_index_of(s, c) < s.len(),
        last_index_of(s, c) >= 0 ==> s[last_index_of(s, c)] == c,
        forall|j: int| last_index_of(s, c) < j < s.len() ==> s[j] != c,
    decreases s.len(),
{
    if s.len() > 0 && s.last() != c {
        lemma_last_index_of(s.drop_last(), c);
        assert forall|j: int| last_index_of(s, c) < j < s.len() implies s[j] != c by {
            if j < s.len() - 1 {
                assert(s[j] == s.drop_last()[j]);
            }
        }
    }
}

/// The last `c` in `a + [c] + b`, where `b` holds no `c`, is the one between.
pub proof fn lemma_last_index_of_join(a: Seq<char>, c: char, b: Seq<char>)
    requires
        !b.contains(c),
    ensures
        last_index_of(a + seq![c] + b, c) == a.len(),
    decreases b.len(),
{
    let s = a + seq![c] + b;
    if b.len() == 0 {
        assert(s.last() == c);
    } else {
        assert(s.last() == b.last());
        assert(b.contains(b.last()) ==> b.last() != c);
        assert(b.contains(b[b.len() - 1]));
        assert(s.drop_last() =~= a + seq![c] + b.drop_last());
        if b.drop_last().contains(c) {
            let i = choose|i: int| 0 <= i < b.drop_last().len() && b.drop_last()[i] == c;
            assert(b[i] == c);
        }
        lemma_last_index_of_join(a, c, b.drop_last());
    }
}

/// Index of the last `sep` among `s[..end]`, if any.
fn last_index_before(s: &Vec<char>, end: usize, sep: char) -> (r: Option<usize>)
    requires
        end <= s.len(),
    ensures
        match r {
            Some(k) => k as int == last_index_of(s@.take(end as int), sep),
            None => last_index_of(s@.take(end as int), sep) < 0,
        },
{
    let mut i: usize = end;
    while i > 0
        invariant
            i <= end <= s.len(),
            last_index_of(s@.take(end as int), sep) == last_index_of(s@.take(i as int), sep),
        decreases i,
    {
        assert(s@.take(i as int).last() == s@[i - 1]);
        if s[i - 1] == sep {
            return Some(i - 1);
        }
        assert(s@.take(i as int).drop_last() =~= s@.take(i - 1));
        i -= 1;
    }
    assert(s@.take(0) =~= Seq::<char>::empty());
    None
}

/// What `str::rsplitn(n, sep)` yields, each piece as a `String`.
pub fn rsplitn(s: &Vec<char>, n: usize, sep: char) -> (parts: Vec<String>)
    ensures
        string_views(parts@) == rsplitn_seq(s@, n as nat, sep),
{
    let mut parts: Vec<String> = Vec::new();
    if n == 0 {
        assert(string_views(parts@) =~= rsplitn_seq(s@, n as nat, sep));
        return parts;
    }
    let mut end: usize = s.len();
    let mut left: usize = n;
    assert(s@.take(end as int) =~= s@);
    while left > 1
        invariant
            1 <= left <= n,
            end <= s.len(),
            string_views(parts@) + rsplitn_seq(s@.take(end as int), left as nat, sep)
                =~= rsplitn_seq(s@, n as nat, sep),
        ensures
            1 <= left <= n,
            end <= s.len(),
            string_views(parts@) + rsplitn_seq(s@.take(end as int), left as nat, sep)
                =~= rsplitn_seq(s@, n as nat, sep),
            left == 1 || last_index_of(s@.take(end as int), sep) < 0,
        decreases left,
    {
        match last_index_before(s, end, sep) {
            None => {
                break ;
            },
            Some(k) => {
                proof {
                    lemma_last_index_of(s@.take(end as int), sep);
                }
                let piece = string_of_range(s, k + 1, end);
                let ghost t = s@.take(end as int);
                assert(piece@ == t.subrange(k + 1, t.len() as int));
                assert(t.subrange(0, k as int) =~= s@.take(k as int));
                assert(string_views(parts@.push(piece)) =~= string_views(parts@).push(piece@));
                parts.push(piece);
                end = k;
                left -= 1;
            },
        }
    }
    let rest = string_of_range(s, 0, end);
    assert(rest@ =~= s@.take(end as int));
    assert(rsplitn_seq(s@.take(end as int), left as nat, sep) =~= seq![rest@]);
    assert(string_views(parts@.push(rest)) =~= string_views(parts@).push(rest@));
    parts.push(rest);
    parts
}

/// `Itertools::collect_tuple` into a pair: `Some` exactly when the items are
/// exactly two, in the order they came.
#[verifier::external_body]
pub(crate) fn collect_pair(parts: Vec<String>) -> (r: Option<(String, String)>)
    ensures
        r is Some <==> parts.len() == 2,
        r matches Some((a, b)) ==> a == parts@[0] && b == parts@[1],
{
    parts.into_iter().collect_tuple()
}

/// `Itertools::collect_tuple` into a triple: `Some` exactly when the items are
/// exactly three, in the order they came.
#[verifier::external_body]
pub(crate) fn collect_triple(parts: Vec<String>) -> (r: Option<(String, String, String)>)
    ensures
        r is Some <==> parts.len() == 3,
        r matches Some((a, b, c)) ==> a == parts@[0] && b == parts@[1] && c == parts@[2],
{
    parts.into_iter().collect_tuple()
}

} // verus!
