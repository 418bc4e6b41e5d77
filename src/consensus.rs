//! The plurality vote that turns candidate addresses into one address per family.
use vstd::prelude::*;
use crate::address::Address;

verus! {

/// How many times `a` occurs in `s`.
pub open spec fn occ(s: Seq<u128>, a: u128) -> nat
    decreases s.len(),
{
    if s.len() == 0 {
        0
    } else {
        occ(s.drop_last(), a) + if s.last() == a {
            1nat
        } else {
            0nat
        }
    }
}

/// `w` wins the vote over `s`: it occurs in `s`, no address occurs more often,
/// and among the addresses that occur as often it is the greatest.
pub open spec fn is_winner(s: Seq<u128>, w: u128) -> bool {
    &&& s.contains(w)
    &&& forall|a: u128| #[trigger]
        s.contains(a) ==> occ(s, a) <= occ(s, w) && (occ(s, a) == occ(s, w) ==> a <= w)
}

/// `t` is a tally of `s`: each entry holds an address of `s` with its number of
/// occurrences, and each address of `s` has exactly one entry.
pub open spec fn is_tally(s: Seq<u128>, t: Seq<(u128, usize)>) -> bool {
    &&& forall|i: int, j: int|
        0 <= i < t.len() && 0 <= j < t.len() && i != j ==> #[trigger] t[i].0 != #[trigger] t[j].0
    &&& forall|i: int| 0 <= i < t.len() ==> s.contains(#[trigger] t[i].0) && t[i].1 == occ(s, t[i].0)
    &&& forall|a: u128| #[trigger] s.contains(a) ==> exists|i: int| 0 <= i < t.len() && t[i].0 == a
}

/// `k` is the key of an entry with the greatest count, and the greatest key among
/// the entries with that count.
pub open spec fn is_top_vote(votes: Seq<(u128, usize)>, k: u128) -> bool {
    exists|i: int|
        0 <= i < votes.len() && #[trigger] votes[i].0 == k && forall|j: int|
            0 <= j < votes.len() ==> #[trigger] votes[j].1 < votes[i].1 || (votes[j].1 == votes[i].1
                && votes[j].0 <= k)
}

proof fn lemma_occ_push(s: Seq<u128>, x: u128, a: u128)
    ensures
        occ(s.push(x), a) == occ(s, a) + if x == a {
            1nat
        } else {
            0nat
        },
{
    assert(s.push(x).drop_last() =~= s);
}

proof fn lemma_occ_len(s: Seq<u128>, a: u128)
    ensures
        occ(s, a) <= s.len(),
    decreases s.len(),
{
    if s.len() > 0 {
        lemma_occ_len(s.drop_last(), a);
    }
}

proof fn lemma_occ_absent(s: Seq<u128>, a: u128)
    requires
        !s.contains(a),
    ensures
        occ(s, a) == 0,
    decreases s.len(),
{
    if s.len() > 0 {
        assert(s.last() != a) by {
            assert(s[s.len() - 1] == s.last());
        }
        assert forall|m: int| 0 <= m < s.drop_last().len() implies s.drop_last()[m] != a by {
            assert(s.drop_last()[m] == s[m]);
        }
        lemma_occ_absent(s.drop_last(), a);
    }
}

/// Counts the occurrences of each distinct address.
pub fn tally(keys: &Vec<u128>) -> (t: Vec<(u128, usize)>)
    ensures
        is_tally(keys@, t@),
{
    let mut t: Vec<(u128, usize)> = Vec::new();
    let mut i: usize = 0;
    while i < keys.len()
        invariant
            i <= keys@.len(),
            is_tally(keys@.take(i as int), t@),
        decreases keys@.len() - i,
    {
        let k = keys[i];
        let ghost p = keys@.take(i as int);
        let ghost q = keys@.take(i + 1);
        assert(q =~= p.push(k));
        proof {
            assert forall|a: u128| #[trigger] q.contains(a) <==> p.contains(a) || a == k by {
                if q.contains(a) {
                    let m = choose|m: int| 0 <= m < q.len() && q[m] == a;
                    if m < p.len() {
                        assert(p[m] == a);
                    }
                }
                if p.contains(a) {
                    let m = choose|m: int| 0 <= m < p.len() && p[m] == a;
                    assert(q[m] == a);
                }
                if a == k {
                    assert(q[i as int] == a);
                }
            }
            assert forall|a: u128| occ(q, a) == occ(p, a) + if k == a {
                1nat
            } else {
                0nat
            } by {
                lemma_occ_push(p, k, a);
            }
        }
        let mut j: usize = 0;
        while j < t.len()
            invariant
                j <= t@.len(),
                forall|m: int| 0 <= m < j ==> #[trigger] t@[m].0 != k,
            ensures
                j <= t@.len(),
                j < t@.len() ==> t@[j as int].0 == k,
                forall|m: int| 0 <= m < j ==> #[trigger] t@[m].0 != k,
            decreases t@.len() - j,
        {
            if t[j].0 == k {
                break;
            }
            j = j + 1;
        }
        if j < t.len() {
            let c = t[j].1;
            proof {
                lemma_occ_len(p, k);
                assert(t@[j as int].1 == occ(p, k));
            }
            let ghost old_t = t@;
            t.set(j, (k, c + 1));
            assert forall|m: int| 0 <= m < t@.len() implies q.contains(#[trigger] t@[m].0) && t@[m].1
                == occ(q, t@[m].0) by {
                lemma_occ_push(p, k, t@[m].0);
                if m != j {
                    assert(t@[m] == old_t[m]);
                    assert(p.contains(old_t[m].0));
                    assert(old_t[m].0 != old_t[j as int].0);
                }
            }
            assert forall|a: u128| #[trigger] q.contains(a) implies exists|m: int|
                0 <= m < t@.len() && t@[m].0 == a by {
                if a == k {
                    assert(t@[j as int].0 == a);
                } else {
                    let m = choose|m: int| 0 <= m < old_t.len() && old_t[m].0 == a;
                    assert(t@[m].0 == a);
                }
            }
        } else {
            assert(!p.contains(k));
            let ghost old_t = t@;
            t.push((k, 1));
            assert forall|m1: int, m2: int| 0 <= m1 < t@.len() && 0 <= m2 < t@.len() && m1 != m2 implies #[trigger] t@[m1].0 != #[trigger] t@[m2].0 by {
                if m1 < old_t.len() {
                    assert(p.contains(old_t[m1].0));
                }
                if m2 < old_t.len() {
                    assert(p.contains(old_t[m2].0));
                }
            }
            assert forall|m: int| 0 <= m < t@.len() implies q.contains(#[trigger] t@[m].0) && t@[m].1
                == occ(q, t@[m].0) by {
                lemma_occ_push(p, k, t@[m].0);
                if m < old_t.len() {
                    assert(t@[m] == old_t[m]);
                    assert(p.contains(old_t[m].0));
                } else {
                    lemma_occ_absent(p, k);
                }
            }
            assert forall|a: u128| #[trigger] q.contains(a) implies exists|m: int|
                0 <= m < t@.len() && t@[m].0 == a by {
                if a == k {
                    assert(t@[old_t.len() as int].0 == a);
                } else {
                    let m = choose|m: int| 0 <= m < old_t.len() && old_t[m].0 == a;
                    assert(t@[m].0 == a);
                }
            }
        }
        i = i + 1;
    }
    assert(keys@.take(i as int) =~= keys@);
    t
}

/// The key of the entry with the most votes; among entries with equally many
/// votes, the greatest key.
pub fn sort_votes(votes: &Vec<(u128, usize)>) -> (r: Option<u128>)
    ensures
        r is None <==> votes@.len() == 0,
        r matches Some(k) ==> is_top_vote(votes@, k),
{
    if votes.len() == 0 {
        return None;
    }
    let mut best: usize = 0;
    let mut i: usize = 1;
    while i < votes.len()
        invariant
            1 <= i <= votes@.len(),
            best < i,
            forall|j: int|
                0 <= j < i ==> #[trigger] votes@[j].1 < votes@[best as int].1 || (votes@[j].1
                    == votes@[best as int].1 && votes@[j].0 <= votes@[best as int].0),
        decreases votes@.len() - i,
    {
        let (k, c) = votes[i];
        let (bk, bc) = votes[best];
        if c > bc || (c == bc && k > bk) {
            best = i;
        }
        i = i + 1;
    }
    let k = votes[best].0;
    assert(votes@[best as int].0 == k);
    Some(k)
}

/// The winner of the vote over `keys`, if there is any candidate.
pub fn plurality(keys: &Vec<u128>) -> (r: Option<u128>)
    ensures
        r is None <==> keys@.len() == 0,
        r matches Some(w) ==> is_winner(keys@, w),
{
    let t = tally(keys);
    proof {
        if keys@.len() > 0 {
            assert(keys@.contains(keys@[0]));
        }
        if t@.len() > 0 {
            assert(keys@.contains(t@[0].0));
        }
    }
    let r = sort_votes(&t);
    proof {
        if let Some(w) = r {
            let i = choose|i: int|
                0 <= i < t@.len() && #[trigger] t@[i].0 == w && forall|j: int|
                    0 <= j < t@.len() ==> #[trigger] t@[j].1 < t@[i].1 || (t@[j].1 == t@[i].1
                        && t@[j].0 <= w);
            assert(keys@.contains(t@[i].0));
            assert forall|a: u128| #[trigger] keys@.contains(a) implies occ(keys@, a) <= occ(
                keys@,
                w,
            ) && (occ(keys@, a) == occ(keys@, w) ==> a <= w) by {
                let j = choose|j: int| 0 <= j < t@.len() && t@[j].0 == a;
                assert(t@[j].1 < t@[i].1 || (t@[j].1 == t@[i].1 && t@[j].0 <= w));
            }
        }
    }
    r
}

/// The vote has at most one winner, so the same candidates always elect the same address.
pub proof fn lemma_winner_unique(s: Seq<u128>, a: u128, b: u128)
    requires
        is_winner(s, a),
        is_winner(s, b),
    ensures
        a == b,
{
}

/// The v4 candidates among `ips`, in order, as 128-bit keys.
pub open spec fn v4_keys(ips: Seq<Address>) -> Seq<u128>
    decreases ips.len(),
{
    if ips.len() == 0 {
        Seq::empty()
    } else {
        match ips.last() {
            Address::V4(a) => v4_keys(ips.drop_last()).push(a as u128),
            Address::V6(_) => v4_keys(ips.drop_last()),
        }
    }
}

/// The v6 candidates among `ips`, in order.
pub open spec fn v6_keys(ips: Seq<Address>) -> Seq<u128>
    decreases ips.len(),
{
    if ips.len() == 0 {
        Seq::empty()
    } else {
        match ips.last() {
            Address::V4(_) => v6_keys(ips.drop_last()),
            Address::V6(a) => v6_keys(ips.drop_last()).push(a),
        }
    }
}

proof fn lemma_v4_keys_small(ips: Seq<Address>)
    ensures
        forall|k: int| 0 <= k < v4_keys(ips).len() ==> #[trigger] v4_keys(ips)[k] <= u32::MAX,
    decreases ips.len(),
{
    if ips.len() > 0 {
        lemma_v4_keys_small(ips.drop_last());
        let front = v4_keys(ips.drop_last());
        assert forall|k: int| 0 <= k < v4_keys(ips).len() implies #[trigger] v4_keys(ips)[k]
            <= u32::MAX by {
            if k < front.len() {
                assert(v4_keys(ips)[k] == front[k]);
            }
        }
    }
}

/// The agreed external addresses: one per family, if any candidate of that family came in.
#[derive(Debug)]
pub struct Consensus {
    v4: Option<u32>,
    v6: Option<u128>,
}

impl Consensus {
    pub closed spec fn spec_v4(&self) -> Option<u32> {
        self.v4
    }

    pub closed spec fn spec_v6(&self) -> Option<u128> {
        self.v6
    }

    /// Votes per family over the candidates `ips`: in each family the address seen
    /// most often wins, and a tie goes to the greatest address.
    pub fn from_ips(ips: &Vec<Address>) -> (r: Consensus)
        ensures
            r.spec_v4() is None <==> v4_keys(ips@).len() == 0,
            r.spec_v4() matches Some(w) ==> is_winner(v4_keys(ips@), w as u128),
            r.spec_v6() is None <==> v6_keys(ips@).len() == 0,
            r.spec_v6() matches Some(w) ==> is_winner(v6_keys(ips@), w),
    {
        let mut k4: Vec<u128> = Vec::new();
        let mut k6: Vec<u128> = Vec::new();
        let mut i: usize = 0;
        while i < ips.len()
            invariant
                i <= ips@.len(),
                k4@ == v4_keys(ips@.take(i as int)),
                k6@ == v6_keys(ips@.take(i as int)),
            decreases ips@.len() - i,
        {
            assert(ips@.take(i + 1).drop_last() =~= ips@.take(i as int));
            match ips[i] {
                Address::V4(a) => k4.push(a as u128),
                Address::V6(a) => k6.push(a),
            }
            i = i + 1;
        }
        assert(ips@.take(i as int) =~= ips@);
        let v4 = match plurality(&k4) {
            Some(w) => {
                proof {
                    lemma_v4_keys_small(ips@);
                    let m = choose|m: int| 0 <= m < k4@.len() && k4@[m] == w;
                    assert(k4@[m] <= u32::MAX);
                }
                Some(w as u32)
            },
            None => None,
        };
        Consensus { v4, v6: plurality(&k6) }
    }

    /// The agreed external IPv4 address, as its 32-bit value.
    pub fn v4(&self) -> (r: Option<u32>)
        ensures
            r == self.spec_v4(),
    {
        self.v4
    }

    /// The agreed external IPv6 address, as its 128-bit value.
    pub fn v6(&self) -> (r: Option<u128>)
        ensures
            r == self.spec_v6(),
    {
        self.v6
    }
}

/// v6 candidates never enter the v4 vote, and v4 candidates never enter the v6
/// vote: appending candidates of one family leaves the other family's candidates,
/// and so its winner, as they were.
pub proof fn lemma_families_apart(ips: Seq<Address>, more: Seq<Address>)
    ensures
        (forall|k: int| 0 <= k < more.len() ==> #[trigger] more[k] is V6) ==> v4_keys(ips + more)
            == v4_keys(ips),
        (forall|k: int| 0 <= k < more.len() ==> #[trigger] more[k] is V4) ==> v6_keys(ips + more)
            == v6_keys(ips),
    decreases more.len(),
{
    if more.len() > 0 {
        let front = more.drop_last();
        lemma_families_apart(ips, front);
        assert((ips + more).drop_last() =~= ips + front);
        if forall|k: int| 0 <= k < more.len() ==> #[trigger] more[k] is V6 {
            assert forall|k: int| 0 <= k < front.len() implies #[trigger] front[k] is V6 by {
                assert(more[k] is V6);
            }
            assert(more[more.len() - 1] is V6);
        }
        if forall|k: int| 0 <= k < more.len() ==> #[trigger] more[k] is V4 {
            assert forall|k: int| 0 <= k < front.len() implies #[trigger] front[k] is V4 by {
                assert(more[k] is V4);
            }
            assert(more[more.len() - 1] is V4);
        }
    } else {
        assert(ips + more =~= ips);
    }
}

/// Candidates of one family only leave the other family without candidates, so
/// without an agreed address.
pub proof fn lemma_one_family(ips: Seq<Address>)
    ensures
        (forall|k: int| 0 <= k < ips.len() ==> #[trigger] ips[k] is V4) ==> v6_keys(ips).len() == 0,
        (forall|k: int| 0 <= k < ips.len() ==> #[trigger] ips[k] is V6) ==> v4_keys(ips).len() == 0,
{
    lemma_families_apart(Seq::empty(), ips);
    assert(Seq::<Address>::empty() + ips =~= ips);
}

} // verus!
