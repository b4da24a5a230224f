//! Player names and the order in which they are listed.
//!
//! A name is modelled by its sequence of characters. Names are ordered
//! character by character, each character by its code point, a proper
//! prefix coming before the longer name. The order is strict and total,
//! which gives every finite set of names exactly one ascending listing.

use vstd::prelude::*;
use vstd::std_specs::iter::IteratorSpec;

verus! {

/// A player name as specifications see it: its characters.
pub type Name = Seq<char>;

/// Whether `a` comes before `b`, given that the two agree on every
/// position below `from`.
pub open spec fn precedes_from(a: Name, b: Name, from: int) -> bool
    decreases a.len() - from,
{
    if from >= b.len() {
        false
    } else if from >= a.len() {
        true
    } else if a[from] != b[from] {
        a[from] < b[from]
    } else {
        precedes_from(a, b, from + 1)
    }
}

/// The strict order on names: `a` comes before `b`.
pub open spec fn precedes(a: Name, b: Name) -> bool {
    precedes_from(a, b, 0)
}

/// Whether two names hold the same characters on every position below `upto`.
spec fn agree_below(a: Name, b: Name, upto: int) -> bool {
    &&& 0 <= upto <= a.len()
    &&& upto <= b.len()
    &&& forall|k: int| 0 <= k < upto ==> a[k] == b[k]
}

proof fn lemma_never_both_from(a: Name, b: Name, from: int)
    requires
        0 <= from,
    ensures
        !(precedes_from(a, b, from) && precedes_from(b, a, from)),
    decreases a.len() - from,
{
    if from < a.len() && from < b.len() && a[from] == b[from] {
        lemma_never_both_from(a, b, from + 1);
    }
}

proof fn lemma_chain_from(a: Name, b: Name, c: Name, from: int)
    requires
        0 <= from,
        precedes_from(a, b, from),
        precedes_from(b, c, from),
    ensures
        precedes_from(a, c, from),
    decreases a.len() - from,
{
    if from < a.len() && a[from] == b[from] && b[from] == c[from] {
        lemma_chain_from(a, b, c, from + 1);
    }
}

proof fn lemma_one_of_three_from(a: Name, b: Name, from: int)
    requires
        agree_below(a, b, from),
        !precedes_from(a, b, from),
        !precedes_from(b, a, from),
    ensures
        a == b,
    decreases a.len() - from,
{
    if from < a.len() && from < b.len() {
        assert(a[from] == b[from]);
        lemma_one_of_three_from(a, b, from + 1);
    } else {
        assert(a =~= b);
    }
}

/// No name comes before itself, and no two names come before each other.
pub proof fn lemma_precedes_asymmetric(a: Name, b: Name)
    ensures
        !(precedes(a, b) && precedes(b, a)),
        !precedes(a, a),
{
    lemma_never_both_from(a, b, 0);
    lemma_never_both_from(a, a, 0);
}

/// The order is transitive.
pub proof fn lemma_precedes_transitive(a: Name, b: Name, c: Name)
    requires
        precedes(a, b),
        precedes(b, c),
    ensures
        precedes(a, c),
{
    lemma_chain_from(a, b, c, 0);
}

/// Of two different names one comes before the other.
pub proof fn lemma_precedes_total(a: Name, b: Name)
    ensures
        a == b || precedes(a, b) || precedes(b, a),
{
    if !precedes(a, b) && !precedes(b, a) {
        lemma_one_of_three_from(a, b, 0);
    }
}

/// Decides the order of two names.
pub fn name_precedes(a: &str, b: &str) -> (before: bool)
    ensures
        before == precedes(a@, b@),
{
    let mut left = a.chars();
    let mut right = b.chars();
    let ghost mut at: int = 0;
    loop
        invariant
            0 <= at <= a@.len(),
            at <= b@.len(),
            left.remaining() == a@.skip(at),
            right.remaining() == b@.skip(at),
            precedes(a@, b@) == precedes_from(a@, b@, at),
        decreases a@.len() - at,
    {
        let x = left.next();
        let y = right.next();
        match (x, y) {
            (_, None) => {
                return false;
            },
            (None, Some(_)) => {
                return true;
            },
            (Some(c), Some(d)) => {
                if c != d {
                    return c < d;
                }
                proof {
                    at = at + 1;
                }
            },
        }
    }
}

/// Whether the names of `q` stand in strictly ascending order.
pub open spec fn ascending(q: Seq<Name>) -> bool {
    forall|i: int, j: int| 0 <= i < j < q.len() ==> precedes(#[trigger] q[i], #[trigger] q[j])
}

/// Whether `q` lists the names of `s`: each of them once, in ascending order,
/// and no other name.
pub open spec fn lists(q: Seq<Name>, s: Set<Name>) -> bool {
    &&& ascending(q)
    &&& forall|n: Name| q.contains(n) <==> s.contains(n)
}

/// The ascending listing of a set of names. Every finite set has one
/// (`lemma_listing_exists`) and no set has two (`lemma_lists_unique`).
pub open spec fn listing(s: Set<Name>) -> Seq<Name> {
    choose|q: Seq<Name>| lists(q, s)
}

/// An ascending sequence holds no name twice.
pub proof fn lemma_ascending_no_duplicates(q: Seq<Name>)
    requires
        ascending(q),
    ensures
        q.no_duplicates(),
{
    assert forall|i: int, j: int| 0 <= i < q.len() && 0 <= j < q.len() && i != j implies q[i]
        != q[j] by {
        lemma_precedes_asymmetric(q[i], q[j]);
    }
}

/// Without its first name, a listing of `s` lists `s` without that name.
proof fn lemma_lists_rest(q: Seq<Name>, s: Set<Name>)
    requires
        lists(q, s),
        q.len() > 0,
    ensures
        lists(q.drop_first(), s.remove(q[0])),
{
    let rest = q.drop_first();
    assert forall|n: Name| rest.contains(n) <==> s.remove(q[0]).contains(n) by {
        if rest.contains(n) {
            let k = choose|k: int| 0 <= k < rest.len() && rest[k] == n;
            assert(q[k + 1] == n);
            assert(q.contains(n));
            lemma_precedes_asymmetric(q[0], q[k + 1]);
        }
        if s.remove(q[0]).contains(n) {
            assert(q.contains(n));
            let k = choose|k: int| 0 <= k < q.len() && q[k] == n;
            assert(rest[k - 1] == n);
        }
    }
    assert forall|i: int, j: int| 0 <= i < j < rest.len() implies precedes(
        #[trigger] rest[i],
        #[trigger] rest[j],
    ) by {
        assert(precedes(q[i + 1], q[j + 1]));
    }
}

/// The first name of a listing comes before every other name of the set.
proof fn lemma_lists_first_is_least(q: Seq<Name>, s: Set<Name>, n: Name)
    requires
        lists(q, s),
        s.contains(n),
    ensures
        q.len() > 0,
        n == q[0] || precedes(q[0], n),
{
    assert(q.contains(n));
    let k = choose|k: int| 0 <= k < q.len() && q[k] == n;
    if k > 0 {
        assert(precedes(q[0], q[k]));
    }
}

/// A set of names has at most one ascending listing.
pub proof fn lemma_lists_unique(p: Seq<Name>, q: Seq<Name>, s: Set<Name>)
    requires
        lists(p, s),
        lists(q, s),
    ensures
        p == q,
    decreases p.len(),
{
    if p.len() == 0 {
        if q.len() > 0 {
            assert(q.contains(q[0]));
            assert(p.contains(q[0]));
        }
        assert(p =~= q);
    } else {
        assert(p.contains(p[0]));
        assert(s.contains(p[0]));
        lemma_lists_first_is_least(q, s, p[0]);
        assert(q.contains(q[0]));
        lemma_lists_first_is_least(p, s, q[0]);
        lemma_precedes_asymmetric(p[0], q[0]);
        assert(p[0] == q[0]);
        lemma_lists_rest(p, s);
        lemma_lists_rest(q, s);
        lemma_lists_unique(p.drop_first(), q.drop_first(), s.remove(p[0]));
        assert(p =~= seq![p[0]] + p.drop_first());
        assert(q =~= seq![q[0]] + q.drop_first());
    }
}

/// Whether `x` may be put at position `k` of the ascending `q`: every name
/// below `k` comes before `x`, and the name at `k`, if there is one, does not.
pub open spec fn is_slot(q: Seq<Name>, x: Name, k: int) -> bool {
    &&& 0 <= k <= q.len()
    &&& forall|i: int| 0 <= i < k ==> precedes(#[trigger] q[i], x)
    &&& k < q.len() ==> !precedes(q[k], x)
}

/// Every sequence has a slot for every name.
proof fn lemma_slot_exists(q: Seq<Name>, x: Name) -> (k: int)
    ensures
        is_slot(q, x, k),
    decreases q.len(),
{
    if q.len() == 0 {
        0
    } else {
        let shorter = q.drop_last();
        let k = lemma_slot_exists(shorter, x);
        assert(forall|i: int| 0 <= i < shorter.len() ==> shorter[i] == q[i]);
        if k < shorter.len() {
            k
        } else if precedes(q.last(), x) {
            q.len() as int
        } else {
            k
        }
    }
}

/// In an ascending sequence a name can only stand in its slot.
pub proof fn lemma_slot_decides(q: Seq<Name>, x: Name, k: int)
    requires
        ascending(q),
        is_slot(q, x, k),
    ensures
        q.contains(x) <==> (k < q.len() && q[k] == x),
{
    if q.contains(x) {
        let i = choose|i: int| 0 <= i < q.len() && q[i] == x;
        if i < k {
            lemma_precedes_asymmetric(q[i], x);
        } else if i > k {
            assert(precedes(q[k], q[i]));
        }
    }
}

/// Putting a new name into its slot gives the listing of the larger set.
pub proof fn lemma_insert_lists(q: Seq<Name>, s: Set<Name>, x: Name, k: int)
    requires
        lists(q, s),
        is_slot(q, x, k),
        !s.contains(x),
    ensures
        lists(q.insert(k, x), s.insert(x)),
{
    let r = q.insert(k, x);
    assert forall|i: int, j: int| 0 <= i < j < r.len() implies precedes(
        #[trigger] r[i],
        #[trigger] r[j],
    ) by {
        if j < k {
            assert(precedes(q[i], q[j]));
        } else if j == k {
            assert(precedes(q[i], x));
        } else if i == k {
            // x comes before the name that stood in its slot, and so before all later ones
            assert(q.contains(q[k]));
            lemma_precedes_total(x, q[k]);
            if j - 1 > k {
                assert(precedes(q[k], q[j - 1]));
                lemma_precedes_transitive(x, q[k], q[j - 1]);
            }
        } else if i < k {
            assert(precedes(q[i], q[j - 1]));
        } else {
            assert(precedes(q[i - 1], q[j - 1]));
        }
    }
    assert forall|n: Name| r.contains(n) <==> s.insert(x).contains(n) by {
        if r.contains(n) {
            let i = choose|i: int| 0 <= i < r.len() && r[i] == n;
            if i < k {
                assert(q[i] == n);
                assert(q.contains(n));
            } else if i > k {
                assert(q[i - 1] == n);
                assert(q.contains(n));
            }
        }
        if s.insert(x).contains(n) {
            if n == x {
                assert(r[k] == n);
            } else {
                assert(q.contains(n));
                let i = choose|i: int| 0 <= i < q.len() && q[i] == n;
                if i < k {
                    assert(r[i] == n);
                } else {
                    assert(r[i + 1] == n);
                }
            }
        }
    }
}

/// Every finite set of names has an ascending listing, and `listing` is it.
pub proof fn lemma_listing_exists(s: Set<Name>)
    requires
        s.finite(),
    ensures
        lists(listing(s), s),
    decreases s.len(),
{
    if s.len() == 0 {
        assert(s =~= Set::<Name>::empty());
        let empty = Seq::<Name>::empty();
        assert(lists(empty, s));
    } else {
        let x = s.choose();
        let rest = s.remove(x);
        lemma_listing_exists(rest);
        let q = listing(rest);
        let k = lemma_slot_exists(q, x);
        lemma_insert_lists(q, rest, x, k);
        assert(rest.insert(x) =~= s);
        assert(lists(q.insert(k, x), s));
    }
}

/// Any ascending listing of a set is `listing` of that set.
pub proof fn lemma_lists_is_listing(q: Seq<Name>, s: Set<Name>)
    requires
        lists(q, s),
    ensures
        q == listing(s),
{
    lemma_lists_unique(q, listing(s), s);
}

} // verus!
