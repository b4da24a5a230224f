//! The roster: the set of players that one probe reported online.

use crate::names::{
    ascending, is_slot, lemma_ascending_no_duplicates, lemma_insert_lists, lemma_lists_is_listing,
    lemma_precedes_asymmetric, lemma_precedes_total, lemma_precedes_transitive,
    lemma_slot_decides, listing, name_precedes, precedes, Name,
};
use vstd::prelude::*;

verus! {

/// The names that a sequence of strings holds, position by position.
pub open spec fn names_of(v: Seq<String>) -> Seq<Name> {
    Seq::new(v.len(), |i: int| v[i]@)
}

/// Whether `n` stands in `q` at a position below `upto`.
spec fn among_first(q: Seq<Name>, upto: int, n: Name) -> bool {
    exists|k: int| 0 <= k < upto && k < q.len() && q[k] == n
}

/// Whether `n` stands in `q` at position `from` or later.
spec fn among_rest(q: Seq<Name>, from: int, n: Name) -> bool {
    exists|k: int| 0 <= from <= k < q.len() && q[k] == n
}

/// A set of player names. It is kept as its ascending listing, so that two
/// rosters with the same players are the same value and every walk over a
/// roster meets the players in the same order.
#[derive(Debug, PartialEq, Eq)]
pub struct PlayerSet {
    names: Vec<String>,
}

impl View for PlayerSet {
    type V = Set<Name>;

    closed spec fn view(&self) -> Set<Name> {
        names_of(self.names@).to_set()
    }
}

impl PlayerSet {
    #[verifier::type_invariant]
    spec fn in_order(&self) -> bool {
        ascending(names_of(self.names@))
    }

    /// A roster is a finite set.
    pub proof fn lemma_finite(&self)
        ensures
            self@.finite(),
    {
        vstd::seq_lib::seq_to_set_is_finite(names_of(self.names@));
    }

    /// The roster without players.
    pub fn new() -> (roster: PlayerSet)
        ensures
            roster@ == Set::<Name>::empty(),
    {
        let roster = PlayerSet { names: Vec::new() };
        assert(roster@ =~= Set::<Name>::empty()) by {
            assert(names_of(roster.names@) =~= Seq::<Name>::empty());
        }
        roster
    }

    /// The number of players.
    pub fn len(&self) -> (count: usize)
        ensures
            count == self@.len(),
    {
        proof {
            use_type_invariant(self);
            lemma_ascending_no_duplicates(names_of(self.names@));
            names_of(self.names@).unique_seq_to_set();
        }
        self.names.len()
    }

    /// Whether the roster holds no player.
    pub fn is_empty(&self) -> (empty: bool)
        ensures
            empty == (self@ == Set::<Name>::empty()),
    {
        proof {
            if self.names@.len() == 0 {
                assert(names_of(self.names@) =~= Seq::<Name>::empty());
                assert(self@ =~= Set::<Name>::empty());
            } else {
                assert(names_of(self.names@)[0] == self.names@[0]@);
                assert(names_of(self.names@).contains(self.names@[0]@));
                assert(self@.contains(self.names@[0]@));
            }
        }
        self.names.len() == 0
    }

    /// The position at which `name` stands or would have to be put.
    fn slot(&self, name: &str) -> (k: usize)
        ensures
            is_slot(names_of(self.names@), name@, k as int),
    {
        let mut k: usize = 0;
        while k < self.names.len() && name_precedes(self.names[k].as_str(), name)
            invariant
                0 <= k <= self.names.len(),
                forall|i: int| 0 <= i < k ==> precedes(#[trigger] names_of(self.names@)[i], name@),
            ensures
                is_slot(names_of(self.names@), name@, k as int),
            decreases self.names.len() - k,
        {
            k = k + 1;
        }
        k
    }

    /// Whether `name` is on the roster.
    pub fn contains(&self, name: &str) -> (found: bool)
        ensures
            found == self@.contains(name@),
    {
        let k = self.slot(name);
        proof {
            use_type_invariant(self);
            lemma_slot_decides(names_of(self.names@), name@, k as int);
            if k < self.names.len() {
                lemma_precedes_total(names_of(self.names@)[k as int], name@);
            }
            lemma_precedes_asymmetric(name@, name@);
        }
        k < self.names.len() && !name_precedes(name, self.names[k].as_str())
    }

    /// Puts `name` on the roster. Says whether it was new.
    pub fn insert(&mut self, name: String) -> (added: bool)
        ensures
            final(self)@ == old(self)@.insert(name@),
            added == !old(self)@.contains(name@),
    {
        let k = self.slot(name.as_str());
        proof {
            use_type_invariant(&*self);
            lemma_slot_decides(names_of(self.names@), name@, k as int);
            if k < self.names.len() {
                lemma_precedes_total(names_of(self.names@)[k as int], name@);
            }
            lemma_precedes_asymmetric(name@, name@);
        }
        if k < self.names.len() && !name_precedes(name.as_str(), self.names[k].as_str()) {
            assert(self@.insert(name@) =~= self@);
            false
        } else {
            proof {
                lemma_insert_lists(names_of(self.names@), self@, name@, k as int);
                assert(names_of(self.names@.insert(k as int, name)) =~= names_of(
                    self.names@,
                ).insert(k as int, name@));
            }
            let mut names: Vec<String> = Vec::new();
            std::mem::swap(&mut names, &mut self.names);
            names.insert(k, name);
            self.names = names;
            assert(self@ =~= old(self)@.insert(name@));
            true
        }
    }

    /// The roster of the players named in `names`, in whatever order they
    /// come and however often each is named.
    pub fn from_names(names: Vec<String>) -> (roster: PlayerSet)
        ensures
            roster@ == names_of(names@).to_set(),
    {
        let mut rest = names;
        let mut roster = PlayerSet::new();
        let ghost all = names_of(names@);
        loop
            invariant
                rest@.len() <= names@.len(),
                rest@ == names@.take(rest@.len() as int),
                all == names_of(names@),
                forall|n: Name| roster@.contains(n) <==> among_rest(all, rest@.len() as int, n),
            ensures
                forall|n: Name| roster@.contains(n) <==> among_rest(all, 0, n),
            decreases rest@.len(),
        {
            let ghost before = rest@.len() as int;
            let ghost had = roster@;
            match rest.pop() {
                None => {
                    break ;
                },
                Some(name) => {
                    assert(name@ == all[before - 1]);
                    roster.insert(name);
                    assert forall|n: Name| roster@.contains(n) <==> among_rest(
                        all,
                        before - 1,
                        n,
                    ) by {
                        if among_rest(all, before - 1, n) {
                            let k = choose|k: int| before - 1 <= k < all.len() && all[k] == n;
                            if k != before - 1 {
                                assert(among_rest(all, before, n));
                            }
                        }
                        if had.contains(n) {
                            let k = choose|k: int| before <= k < all.len() && all[k] == n;
                            assert(before - 1 <= k);
                        }
                    }
                },
            }
        }
        assert(roster@ =~= all.to_set());
        roster
    }

    /// The players' names in ascending order.
    pub fn names(&self) -> (listed: Vec<String>)
        ensures
            names_of(listed@) == listing(self@),
    {
        let mut listed: Vec<String> = Vec::new();
        let mut i: usize = 0;
        while i < self.names.len()
            invariant
                0 <= i <= self.names.len(),
                listed@ == self.names@.take(i as int),
            decreases self.names.len() - i,
        {
            listed.push(self.names[i].clone());
            assert(listed@ =~= self.names@.take(i + 1));
            i = i + 1;
        }
        proof {
            use_type_invariant(self);
            assert(listed@ =~= self.names@);
            lemma_lists_is_listing(names_of(self.names@), self@);
        }
        listed
    }

    /// The names, in ascending order, of the players that are on this roster
    /// and not on `other`.
    pub fn difference(&self, other: &PlayerSet) -> (only: Vec<String>)
        ensures
            names_of(only@) == listing(self@.difference(other@)),
    {
        let mut only: Vec<String> = Vec::new();
        let mut i: usize = 0;
        let mut j: usize = 0;
        let ghost mine = names_of(self.names@);
        let ghost theirs = names_of(other.names@);
        proof {
            use_type_invariant(self);
            use_type_invariant(other);
            assert(names_of(only@) =~= Seq::<Name>::empty());
        }
        while i < self.names.len()
            invariant
                0 <= i <= self.names.len(),
                0 <= j <= other.names.len(),
                mine == names_of(self.names@),
                theirs == names_of(other.names@),
                ascending(mine),
                ascending(theirs),
                ascending(names_of(only@)),
                forall|n: Name| #[trigger]
                    names_of(only@).contains(n) <==> among_first(mine, i as int, n)
                        && !theirs.contains(n),
                i < mine.len() ==> forall|k: int|
                    0 <= k < j ==> precedes(#[trigger] theirs[k], mine[i as int]),
            decreases (self.names.len() - i) + (other.names.len() - j),
        {
            let ghost had = names_of(only@);
            let ghost current = mine[i as int];
            let keep = j >= other.names.len() || name_precedes(
                self.names[i].as_str(),
                other.names[j].as_str(),
            );
            if keep {
                // `current` is on this roster alone: whatever of `other` has
                // been passed comes before it, whatever is left comes after
                proof {
                    assert(!theirs.contains(current)) by {
                        if theirs.contains(current) {
                            let k = choose|k: int| 0 <= k < theirs.len() && theirs[k] == current;
                            if k < j {
                                lemma_precedes_asymmetric(theirs[k], current);
                            } else {
                                if k > j {
                                    assert(precedes(theirs[j as int], theirs[k]));
                                    lemma_precedes_transitive(
                                        current,
                                        theirs[j as int],
                                        theirs[k],
                                    );
                                }
                                lemma_precedes_asymmetric(current, theirs[k]);
                            }
                        }
                    }
                }
                only.push(self.names[i].clone());
                proof {
                    let now = names_of(only@);
                    assert(now =~= had.push(current));
                    assert forall|a: int, b: int| 0 <= a < b < now.len() implies precedes(
                        #[trigger] now[a],
                        #[trigger] now[b],
                    ) by {
                        if b == now.len() - 1 {
                            assert(had.contains(had[a]));
                            let k = choose|k: int|
                                0 <= k < i && k < mine.len() && mine[k] == had[a];
                            assert(precedes(mine[k], mine[i as int]));
                        } else {
                            assert(precedes(had[a], had[b]));
                        }
                    }
                    assert forall|n: Name| #[trigger]
                        now.contains(n) <==> among_first(mine, i + 1, n) && !theirs.contains(
                            n,
                        ) by {
                        if now.contains(n) {
                            let a = choose|a: int| 0 <= a < now.len() && now[a] == n;
                            if a < had.len() {
                                assert(had.contains(n));
                                let k = choose|k: int| 0 <= k < i && k < mine.len() && mine[k] == n;
                                assert(among_first(mine, i + 1, n));
                            } else {
                                assert(mine[i as int] == n);
                                assert(among_first(mine, i + 1, n));
                            }
                        }
                        if among_first(mine, i + 1, n) && !theirs.contains(n) {
                            let k = choose|k: int| 0 <= k < i + 1 && k < mine.len() && mine[k] == n;
                            if k < i {
                                assert(among_first(mine, i as int, n));
                                assert(had.contains(n));
                                let a = choose|a: int| 0 <= a < had.len() && had[a] == n;
                                assert(now[a] == n);
                            } else {
                                assert(now[now.len() - 1] == n);
                            }
                        }
                    }
                    if i + 1 < mine.len() {
                        assert forall|k: int| 0 <= k < j implies precedes(
                            #[trigger] theirs[k],
                            mine[i + 1],
                        ) by {
                            assert(precedes(mine[i as int], mine[i + 1]));
                            lemma_precedes_transitive(theirs[k], mine[i as int], mine[i + 1]);
                        }
                    }
                }
                i = i + 1;
            } else {
                let same = !name_precedes(other.names[j].as_str(), self.names[i].as_str());
                proof {
                    lemma_precedes_total(current, theirs[j as int]);
                }
                if same {
                    proof {
                        assert(theirs.contains(current));
                        assert forall|n: Name| #[trigger]
                            had.contains(n) <==> among_first(mine, i + 1, n) && !theirs.contains(
                                n,
                            ) by {
                            if had.contains(n) {
                                let k = choose|k: int| 0 <= k < i && k < mine.len() && mine[k] == n;
                                assert(among_first(mine, i + 1, n));
                            }
                            if among_first(mine, i + 1, n) && !theirs.contains(n) {
                                let k = choose|k: int|
                                    0 <= k < i + 1 && k < mine.len() && mine[k] == n;
                                assert(k < i);
                                assert(among_first(mine, i as int, n));
                            }
                        }
                        if i + 1 < mine.len() {
                            assert forall|k: int| 0 <= k < j + 1 implies precedes(
                                #[trigger] theirs[k],
                                mine[i + 1],
                            ) by {
                                assert(precedes(mine[i as int], mine[i + 1]));
                                if k < j {
                                    lemma_precedes_transitive(
                                        theirs[k],
                                        mine[i as int],
                                        mine[i + 1],
                                    );
                                }
                            }
                        }
                    }
                    i = i + 1;
                }
                j = j + 1;
            }
        }
        proof {
            let wanted = self@.difference(other@);
            assert forall|n: Name| names_of(only@).contains(n) <==> wanted.contains(n) by {
                if among_first(mine, i as int, n) {
                    assert(mine.contains(n));
                }
                if mine.contains(n) {
                    let k = choose|k: int| 0 <= k < mine.len() && mine[k] == n;
                    assert(among_first(mine, i as int, n));
                }
            }
            lemma_lists_is_listing(names_of(only@), wanted);
        }
        only
    }
}

impl Clone for PlayerSet {
    fn clone(&self) -> (copy: PlayerSet)
        ensures
            copy@ == self@,
    {
        let names = self.names();
        proof {
            use_type_invariant(self);
            lemma_lists_is_listing(names_of(self.names@), self@);
            assert(names_of(names@) == names_of(self.names@));
        }
        PlayerSet { names }
    }
}

} // verus!
