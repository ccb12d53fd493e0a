//! Counting by name.

use vstd::hash_map::StringHashMap;
use vstd::prelude::*;

use crate::text::texts;

verus! {

/// How often a name was counted; zero where it never was.
pub open spec fn count_of(counts: Map<Seq<char>, u64>, name: Seq<char>) -> u64 {
    if counts.contains_key(name) {
        counts[name]
    } else {
        0
    }
}

/// The counts after `n` more for `name`.
pub open spec fn counted(counts: Map<Seq<char>, u64>, name: Seq<char>, n: int) -> Map<
    Seq<char>,
    u64,
> {
    counts.insert(name, (count_of(counts, name) + n) as u64)
}

/// True if `n` more for `name` can be counted.
pub open spec fn countable(counts: Map<Seq<char>, u64>, name: Seq<char>, n: int) -> bool {
    count_of(counts, name) + n <= u64::MAX
}

/// Counters by name. The names keep the order in which they were first
/// counted.
pub struct Tally {
    names: Vec<String>,
    counts: StringHashMap<u64>,
}

/// True if `names` lists the names in `counts`, each one once.
pub open spec fn lists_names(names: Seq<Seq<char>>, counts: Map<Seq<char>, u64>) -> bool {
    &&& names.no_duplicates()
    &&& forall|name: Seq<char>| #[trigger] counts.contains_key(name) <==> names.contains(name)
}

impl View for Tally {
    type V = Map<Seq<char>, u64>;

    closed spec fn view(&self) -> Map<Seq<char>, u64> {
        self.counts@
    }
}

impl Tally {
    /// The names in the order in which they were first counted.
    pub closed spec fn order(self) -> Seq<Seq<char>> {
        texts(self.names@)
    }

    #[verifier::type_invariant]
    spec fn listed(self) -> bool {
        lists_names(texts(self.names@), self.counts@)
    }

    /// Nothing counted yet.
    pub fn new() -> (tally: Tally)
        ensures
            tally@ == Map::<Seq<char>, u64>::empty(),
            tally.order() == Seq::<Seq<char>>::empty(),
    {
        let names: Vec<String> = Vec::new();
        let counts: StringHashMap<u64> = StringHashMap::new();
        assert(texts(names@) == Seq::<Seq<char>>::empty());
        Tally { names, counts }
    }

    /// How often `name` was counted.
    pub fn count(&self, name: &str) -> (n: u64)
        ensures
            n == count_of(self@, name@),
    {
        match self.counts.get(name) {
            Some(n) => *n,
            None => 0,
        }
    }

    /// Counts `n` more for `name`, where the counter can hold it. The tally
    /// stays as it is where it cannot.
    pub fn add(&mut self, name: &str, n: u64) -> (done: bool)
        ensures
            done == countable(old(self)@, name@, n as int),
            final(self)@ == if done {
                counted(old(self)@, name@, n as int)
            } else {
                old(self)@
            },
            final(self).order() == if done && !old(self)@.contains_key(name@) {
                old(self).order().push(name@)
            } else {
                old(self).order()
            },
    {
        proof {
            use_type_invariant(&*self);
        }
        let known = self.counts.contains_key(name);
        let sum: u64 = match self.count(name).checked_add(n) {
            Some(sum) => sum,
            None => {
                return false;
            },
        };
        let mut taken = Tally::new();
        core::mem::swap(self, &mut taken);
        let Tally { mut names, mut counts } = taken;
        let ghost before = texts(names@);
        let ghost all = counts@;
        counts.insert(name.to_owned(), sum);
        if !known {
            names.push(name.to_owned());
            assert(texts(names@) == before.push(name@));
            assert forall|other: Seq<char>| #[trigger]
                counts@.contains_key(other) <==> texts(names@).contains(other) by {
                if before.contains(other) {
                    let i = before.index_of(other);
                    assert(texts(names@)[i] == other);
                }
                assert(texts(names@)[before.len() as int] == name@);
                if texts(names@).contains(other) && other != name@ {
                    let i = texts(names@).index_of(other);
                    assert(before[i] == other);
                }
                assert(all.contains_key(other) <==> before.contains(other));
            }
            assert(!before.contains(name@));
            assert(texts(names@).no_duplicates());
        } else {
            assert(before.contains(name@));
            assert forall|other: Seq<char>| #[trigger]
                counts@.contains_key(other) <==> texts(names@).contains(other) by {
                assert(all.contains_key(other) <==> before.contains(other));
            }
        }
        *self = Tally { names, counts };
        true
    }

    /// How many names were counted.
    pub fn len(&self) -> (n: usize)
        ensures
            n == self.order().len(),
            lists_names(self.order(), self@),
    {
        proof {
            use_type_invariant(self);
        }
        self.names.len()
    }

    /// The name that was counted at this place for the first time.
    pub fn name(&self, place: usize) -> (name: &String)
        requires
            place < self.order().len(),
        ensures
            name@ == self.order()[place as int],
    {
        &self.names[place]
    }
}

/// True if the tally holds, for every name, the number that `number` gives, and
/// lists the names for which that is not zero.
pub open spec fn tallies(counts: Map<Seq<char>, u64>, number: spec_fn(Seq<char>) -> nat) -> bool {
    forall|name: Seq<char>| #[trigger]
        count_of(counts, name) == number(name) && (counts.contains_key(name) <==> number(name) > 0)
}

/// How often a name occurs in a list.
pub open spec fn occurrences(names: Seq<Seq<char>>, name: Seq<char>) -> nat
    decreases names.len(),
{
    if names.len() == 0 {
        0
    } else {
        occurrences(names.drop_last(), name) + if names.last() == name {
            1nat
        } else {
            0nat
        }
    }
}

proof fn lemma_occurrences_bounded(names: Seq<Seq<char>>, name: Seq<char>)
    ensures
        occurrences(names, name) <= names.len(),
    decreases names.len(),
{
    if names.len() > 0 {
        lemma_occurrences_bounded(names.drop_last(), name);
    }
}

/// Counts how often each name occurs in a list.
pub fn tally_of(names: &Vec<String>) -> (tally: Tally)
    ensures
        tallies(tally@, |name: Seq<char>| occurrences(texts(names@), name)),
{
    let mut tally = Tally::new();
    let ghost all = texts(names@);
    for i in 0..names.len()
        invariant
            all == texts(names@),
            tallies(tally@, |name: Seq<char>| occurrences(all.take(i as int), name)),
    {
        let ghost number = |name: Seq<char>| occurrences(all.take(i as int), name);
        let name = &names[i];
        assert(all.take(i + 1).drop_last() == all.take(i as int));
        assert(all.take(i + 1).last() == name@);
        proof {
            lemma_occurrences_bounded(all.take(i as int), name@);
            assert(count_of(tally@, name@) == number(name@));
        }
        let ghost before = tally@;
        let done = tally.add(name.as_str(), 1);
        assert(done);
        assert forall|other: Seq<char>| #[trigger]
            count_of(tally@, other) == occurrences(all.take(i + 1), other) && (tally@.contains_key(
                other,
            ) <==> occurrences(all.take(i + 1), other) > 0) by {
            assert(count_of(before, other) == number(other));
        }
    }
    assert(all.take(all.len() as int) == all);
    tally
}

/// The occurrences of all the names in `list`, together.
pub open spec fn total_occurrences(names: Seq<Seq<char>>, list: Seq<Seq<char>>) -> nat
    decreases list.len(),
{
    if list.len() == 0 {
        0
    } else {
        total_occurrences(names, list.drop_last()) + occurrences(names, list.last())
    }
}

/// Counting by name divides a list: where `list` holds every name once, the
/// counts add up to the length.
pub proof fn occurrences_add_up(names: Seq<Seq<char>>, list: Seq<Seq<char>>)
    requires
        list.no_duplicates(),
        forall|i: int| 0 <= i < names.len() ==> list.contains(#[trigger] names[i]),
    ensures
        total_occurrences(names, list) == names.len(),
    decreases names.len(),
{
    if names.len() == 0 {
        lemma_nothing_occurs(names, list);
    } else {
        let fewer = names.drop_last();
        assert forall|i: int| 0 <= i < fewer.len() implies list.contains(#[trigger] fewer[i]) by {
            assert(fewer[i] == names[i]);
        }
        occurrences_add_up(fewer, list);
        assert(list.contains(names[names.len() - 1]));
        lemma_one_more_occurrence(names, list);
    }
}

proof fn lemma_nothing_occurs(names: Seq<Seq<char>>, list: Seq<Seq<char>>)
    requires
        names.len() == 0,
    ensures
        total_occurrences(names, list) == 0,
    decreases list.len(),
{
    if list.len() > 0 {
        lemma_nothing_occurs(names, list.drop_last());
    }
}

proof fn lemma_one_more_occurrence(names: Seq<Seq<char>>, list: Seq<Seq<char>>)
    requires
        names.len() > 0,
        list.no_duplicates(),
    ensures
        total_occurrences(names, list) == total_occurrences(names.drop_last(), list)
            + if list.contains(names.last()) {
            1nat
        } else {
            0nat
        },
    decreases list.len(),
{
    if list.len() > 0 {
        let rest = list.drop_last();
        assert(rest.no_duplicates());
        lemma_one_more_occurrence(names, rest);
        if rest.contains(names.last()) {
            let i = rest.index_of(names.last());
            assert(list[i] == names.last());
        } else if list.contains(names.last()) {
            let i = list.index_of(names.last());
            if i < rest.len() {
                assert(rest[i] == names.last());
            }
        }
        if list.last() == names.last() {
            assert(list[list.len() - 1] == names.last());
        }
    }
}


/// A name occurs once more for each time that it is added, and no other name
/// does.
pub proof fn occurrences_grow_by_one(names: Seq<Seq<char>>, added: Seq<char>, name: Seq<char>)
    ensures
        occurrences(Seq::empty(), name) == 0,
        occurrences(names.push(added), name) == occurrences(names, name) + if added == name {
            1nat
        } else {
            0nat
        },
{
    assert(names.push(added).drop_last() == names);
}

/// Counting adds to one name and leaves the others alone; a name that was never
/// counted has zero.
pub proof fn counting_adds_to_one_name(
    counts: Map<Seq<char>, u64>,
    name: Seq<char>,
    n: int,
    other: Seq<char>,
)
    requires
        n >= 0,
        countable(counts, name, n),
    ensures
        count_of(Map::empty(), name) == 0,
        count_of(counts, name) + n <= u64::MAX,
        count_of(counted(counts, name, n), name) == count_of(counts, name) + n,
        other != name ==> count_of(counted(counts, name, n), other) == count_of(counts, other),
{
}

} // verus!
