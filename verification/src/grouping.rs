use vstd::prelude::*;

verus! {

/// Grouping of `(key, id)` pairs into per-key member lists.
///
/// The topology inference groups logical CPUs several times over different
/// keys (die, NUMA node, physical core). This module does that once, for
/// plain pairs: collect the distinct keys in ascending order, list the
/// member ids of each key in input order, and prove that the groups
/// partition the input (no id is dropped or double-counted).

/// The ids of the pairs carrying key `k`, in input order.
pub open spec fn ids_with_key(s: Seq<(usize, usize)>, k: usize) -> Seq<usize>
    decreases s.len(),
{
    if s.len() == 0 {
        Seq::empty()
    } else {
        let rest = ids_with_key(s.drop_last(), k);
        if s.last().0 == k {
            rest.push(s.last().1)
        } else {
            rest
        }
    }
}

/// A strictly ascending sequence (hence duplicate-free).
pub open spec fn strictly_sorted(s: Seq<usize>) -> bool {
    forall|i: int, j: int| 0 <= i < j < s.len() ==> s[i] < s[j]
}

/// Sum of the group sizes of `keys` over the pairs `s`.
pub open spec fn sum_group_sizes(s: Seq<(usize, usize)>, keys: Seq<usize>) -> int
    decreases keys.len(),
{
    if keys.len() == 0 {
        0
    } else {
        sum_group_sizes(s, keys.drop_last()) + ids_with_key(s, keys.last()).len()
    }
}

proof fn lemma_ids_with_key_push(s: Seq<(usize, usize)>, p: (usize, usize), k: usize)
    ensures
        ids_with_key(s.push(p), k) == if p.0 == k {
            ids_with_key(s, k).push(p.1)
        } else {
            ids_with_key(s, k)
        },
{
    assert(s.push(p).drop_last() =~= s);
}

proof fn lemma_sum_group_sizes_push(s: Seq<(usize, usize)>, p: (usize, usize), keys: Seq<usize>)
    requires
        strictly_sorted(keys),
    ensures
        sum_group_sizes(s.push(p), keys) == sum_group_sizes(s, keys) + if keys.contains(p.0) {
            1int
        } else {
            0int
        },
    decreases keys.len(),
{
    if keys.len() > 0 {
        lemma_ids_with_key_push(s, p, keys.last());
        lemma_sum_group_sizes_push(s, p, keys.drop_last());
        if keys.contains(p.0) {
            let i = choose|i: int| 0 <= i < keys.len() && keys[i] == p.0;
            if keys.last() == p.0 {
                assert(!keys.drop_last().contains(p.0)) by {
                    assert forall|j: int| 0 <= j < keys.len() - 1 implies keys.drop_last()[j]
                        != p.0 by {
                        assert(keys[j] < keys[keys.len() - 1]);
                    }
                }
            } else {
                assert(i < keys.len() - 1);
                assert(keys.drop_last()[i] == p.0);
                assert(keys.drop_last().contains(p.0));
            }
        } else {
            assert(!keys.drop_last().contains(p.0)) by {
                assert forall|j: int| 0 <= j < keys.len() - 1 implies keys.drop_last()[j]
                    != p.0 by {
                    assert(keys[j] == keys.drop_last()[j]);
                }
            }
        }
    }
}

/// The partition law: when every pair's key occurs among the (strictly
/// sorted) keys, the group sizes sum to the number of pairs.
pub proof fn lemma_groups_partition(s: Seq<(usize, usize)>, keys: Seq<usize>)
    requires
        strictly_sorted(keys),
        forall|i: int| 0 <= i < s.len() ==> keys.contains((#[trigger] s[i]).0),
    ensures
        sum_group_sizes(s, keys) == s.len(),
    decreases s.len(),
{
    if s.len() == 0 {
        assert(s =~= Seq::<(usize, usize)>::empty());
        lemma_sum_group_sizes_empty(keys);
    } else {
        let prefix = s.drop_last();
        assert forall|i: int| 0 <= i < prefix.len() implies keys.contains(
            (#[trigger] prefix[i]).0,
        ) by {
            assert(prefix[i] == s[i]);
        }
        lemma_groups_partition(prefix, keys);
        assert(s =~= prefix.push(s.last()));
        lemma_sum_group_sizes_push(prefix, s.last(), keys);
        assert(keys.contains(s.last().0));
    }
}

proof fn lemma_sum_group_sizes_empty(keys: Seq<usize>)
    ensures
        sum_group_sizes(Seq::<(usize, usize)>::empty(), keys) == 0,
    decreases keys.len(),
{
    if keys.len() > 0 {
        lemma_sum_group_sizes_empty(keys.drop_last());
    }
}

/// Collect the distinct keys of `pairs`, ascending.
pub fn collect_sorted_keys(pairs: &Vec<(usize, usize)>) -> (keys: Vec<usize>)
    ensures
        strictly_sorted(keys@),
        forall|i: int| 0 <= i < pairs@.len() ==> keys@.contains((#[trigger] pairs@[i]).0),
        forall|x: usize| #[trigger] keys@.contains(x) ==> exists|i: int|
            0 <= i < pairs@.len() && (#[trigger] pairs@[i]).0 == x,
{
    let mut keys: Vec<usize> = Vec::new();
    let n = pairs.len();
    let mut i: usize = 0;
    while i < n
        invariant
            n == pairs@.len(),
            0 <= i <= n,
            strictly_sorted(keys@),
            forall|j: int| 0 <= j < i ==> keys@.contains((#[trigger] pairs@[j]).0),
            forall|x: usize| #[trigger] keys@.contains(x) ==> exists|m: int|
                0 <= m < pairs@.len() && (#[trigger] pairs@[m]).0 == x,
        decreases n - i,
    {
        let k = pairs[i].0;
        insert_sorted_unique(&mut keys, k);
        proof {
            assert((#[trigger] pairs@[i as int]).0 == k);
        }
        i = i + 1;
    }
    keys
}

/// Insert `k` into a strictly ascending vector, keeping it ascending and
/// duplicate-free; a present key is left alone.
pub(crate) fn insert_sorted_unique(keys: &mut Vec<usize>, k: usize)
    requires
        strictly_sorted(old(keys)@),
    ensures
        strictly_sorted(final(keys)@),
        final(keys)@.contains(k),
        forall|x: usize| #[trigger] final(keys)@.contains(x) <==> (old(keys)@.contains(x) || x
            == k),
{
    let n = keys.len();
    let mut i: usize = 0;
    while i < n
        invariant
            n == keys@.len(),
            0 <= i <= n,
            keys@ == old(keys)@,
            strictly_sorted(keys@),
            forall|j: int| 0 <= j < i ==> keys@[j] < k,
        decreases n - i,
    {
        if keys[i] == k {
            proof {
                assert(keys@.contains(k));
            }
            return ;
        }
        if keys[i] > k {
            let ghost before = keys@;
            keys.insert(i, k);
            proof {
                assert(keys@[i as int] == k);
                assert(keys@.contains(k));
                assert(strictly_sorted(keys@)) by {
                    assert forall|a: int, b: int| 0 <= a < b < keys@.len() implies keys@[a]
                        < keys@[b] by {
                        if a < i && b == i {
                            assert(keys@[a] == before[a]);
                        } else if a == i && b > i {
                            assert(keys@[b] == before[b - 1]);
                            assert(before[i as int] > k);
                            if b - 1 > i {
                                assert(before[i as int] < before[b - 1]);
                            }
                        } else if a < i && b > i {
                            assert(keys@[a] == before[a] && keys@[b] == before[b - 1]);
                            if b - 1 == a {
                                assert(false);
                            }
                        } else if a > i && b > i {
                            assert(keys@[a] == before[a - 1] && keys@[b] == before[b - 1]);
                        }
                    }
                }
                assert forall|x: usize| #[trigger] keys@.contains(x) implies (before.contains(x)
                    || x == k) by {
                    let j = choose|j: int| 0 <= j < keys@.len() && keys@[j] == x;
                    if j < i {
                        assert(before[j] == x);
                    } else if j > i {
                        assert(before[j - 1] == x);
                    }
                }
                assert forall|x: usize| (before.contains(x) || x == k) implies #[trigger] keys@
                    .contains(x) by {
                    if before.contains(x) {
                        let j = choose|j: int| 0 <= j < before.len() && before[j] == x;
                        if j < i {
                            assert(keys@[j] == x);
                        } else {
                            assert(keys@[j + 1] == x);
                        }
                    } else {
                        assert(keys@[i as int] == x);
                    }
                }
            }
            return ;
        }
        i = i + 1;
    }
    let ghost before = keys@;
    keys.push(k);
    proof {
        assert(keys@ =~= before.push(k));
        assert(keys@[keys@.len() - 1] == k);
        assert(keys@.contains(k));
        assert forall|x: usize| #[trigger] keys@.contains(x) implies (before.contains(x) || x == k)
            by {
            let j = choose|j: int| 0 <= j < keys@.len() && keys@[j] == x;
            if j < before.len() {
                assert(before[j] == x);
            }
        }
        assert forall|x: usize| (before.contains(x) || x == k) implies #[trigger] keys@.contains(x)
            by {
            if before.contains(x) {
                let j = choose|j: int| 0 <= j < before.len() && before[j] == x;
                assert(keys@[j] == x);
            }
        }
    }
}

/// A key that occurs among the pairs has a nonempty member list.
pub proof fn lemma_ids_with_key_nonempty(s: Seq<(usize, usize)>, k: usize, i: int)
    requires
        0 <= i < s.len(),
        s[i].0 == k,
    ensures
        ids_with_key(s, k).len() > 0,
    decreases s.len(),
{
    if i < s.len() - 1 {
        assert(s.drop_last()[i] == s[i]);
        lemma_ids_with_key_nonempty(s.drop_last(), k, i);
    }
}

/// Every member id of key `k` comes from a pair `(k, id)` of the input.
pub proof fn lemma_ids_with_key_from_pairs(s: Seq<(usize, usize)>, k: usize)
    ensures
        forall|m: int| 0 <= m < ids_with_key(s, k).len() ==> exists|i: int|
            0 <= i < s.len() && s[i] == (k, #[trigger] ids_with_key(s, k)[m]),
    decreases s.len(),
{
    if s.len() > 0 {
        let prefix = s.drop_last();
        lemma_ids_with_key_from_pairs(prefix, k);
        assert forall|m: int| 0 <= m < ids_with_key(s, k).len() implies exists|i: int|
            0 <= i < s.len() && s[i] == (k, #[trigger] ids_with_key(s, k)[m]) by {
            if s.last().0 == k && m == ids_with_key(s, k).len() - 1 {
                assert(s[s.len() - 1] == (k, ids_with_key(s, k)[m]));
            } else {
                assert(ids_with_key(s, k)[m] == ids_with_key(prefix, k)[m]);
                let i = choose|i: int|
                    0 <= i < prefix.len() && prefix[i] == (k, ids_with_key(prefix, k)[m]);
                assert(s[i] == (k, ids_with_key(s, k)[m]));
            }
        }
    }
}

/// The member ids of key `k`, in input order.
pub fn members_of_key(pairs: &Vec<(usize, usize)>, k: usize) -> (members: Vec<usize>)
    ensures
        members@ == ids_with_key(pairs@, k),
{
    let mut members: Vec<usize> = Vec::new();
    let n = pairs.len();
    let mut i: usize = 0;
    while i < n
        invariant
            n == pairs@.len(),
            0 <= i <= n,
            members@ == ids_with_key(pairs@.take(i as int), k),
        decreases n - i,
    {
        proof {
            assert(pairs@.take(i + 1 as int).drop_last() =~= pairs@.take(i as int));
            assert(pairs@.take(i + 1 as int).last() == pairs@[i as int]);
        }
        if pairs[i].0 == k {
            members.push(pairs[i].1);
        }
        i = i + 1;
    }
    proof {
        assert(pairs@.take(n as int) =~= pairs@);
    }
    members
}

} // verus!
