//! Vector clocks: one logical counter per agent, to tell what happened before
//! what.

use vstd::prelude::*;
use vstd::string::*;
use vstd::utf8::encode_utf8;
use crate::hex::{encode, hex, is_digest_text, lemma_digest_text};
use crate::json::{json_text, lemma_member_trees, member_trees, Json, Tree};
use crate::order::{lemma_ascending_distinct, lemma_sorted, lemma_take_one_more, sorted};
use crate::sha::{sha256, sha256_of};
use crate::strmap::{last_members, StrMap};
use crate::text::{decimal, decimal_text};

verus! {

/// A vector clock. An agent that was never ticked is at 0. The counters are
/// kept in order of the agents' names, so that the text of a clock does not
/// depend on the order in which the agents were ticked.
#[derive(Debug, PartialEq, Eq)]
pub struct VectorClock {
    counters: StrMap<u64>,
}

impl View for VectorClock {
    type V = Map<Seq<char>, u64>;

    closed spec fn view(&self) -> Map<Seq<char>, u64> {
        self.counters@
    }
}

/// An agent's counter: 0 where the clock does not mention the agent.
pub open spec fn counter(clock: Map<Seq<char>, u64>, agent: Seq<char>) -> u64 {
    if clock.contains_key(agent) {
        clock[agent]
    } else {
        0
    }
}

/// The clock after one more step of `agent`.
pub open spec fn ticked(clock: Map<Seq<char>, u64>, agent: Seq<char>) -> Map<Seq<char>, u64> {
    clock.insert(agent, (counter(clock, agent) + 1) as u64)
}

/// The join of two clocks: each agent at the larger of its two counters.
pub open spec fn joined(a: Map<Seq<char>, u64>, b: Map<Seq<char>, u64>) -> Map<Seq<char>, u64> {
    Map::new(
        |k: Seq<char>| a.contains_key(k) || b.contains_key(k),
        |k: Seq<char>|
            if counter(a, k) < counter(b, k) {
                counter(b, k)
            } else {
                counter(a, k)
            },
    )
}

/// Whether no agent is further in `a` than in `b`.
pub open spec fn clock_le(a: Map<Seq<char>, u64>, b: Map<Seq<char>, u64>) -> bool {
    forall|agent: Seq<char>| #[trigger] counter(a, agent) <= counter(b, agent)
}

/// Whether neither clock is at or behind the other.
pub open spec fn clock_concurrent(a: Map<Seq<char>, u64>, b: Map<Seq<char>, u64>) -> bool {
    !clock_le(a, b) && !clock_le(b, a)
}

/// A clock as a JSON object: each agent with its counter, in order of the
/// agents' names.
pub open spec fn clock_tree(clock: Map<Seq<char>, u64>) -> Tree {
    Tree::Object(
        Seq::new(
            sorted(clock.dom()).len(),
            |i: int|
                (
                    sorted(clock.dom())[i],
                    Tree::Number(decimal(clock[sorted(clock.dom())[i]] as nat)),
                ),
        ),
    )
}

/// The digest of a clock: the SHA-256 of its JSON text, in hexadecimal.
pub open spec fn clock_digest(clock: Map<Seq<char>, u64>) -> Seq<char> {
    hex(sha256_of(encode_utf8(json_text(clock_tree(clock)))))
}

/// Pairs of agent and counter as the clock's model sees them.
pub open spec fn pairs_view(pairs: Seq<(String, u64)>) -> Seq<(Seq<char>, u64)> {
    Seq::new(pairs.len(), |i: int| (pairs[i].0@, pairs[i].1))
}

impl VectorClock {
    /// An empty clock: every agent is at 0.
    pub fn new() -> (clock: Self)
        ensures
            clock@ == Map::<Seq<char>, u64>::empty(),
    {
        VectorClock { counters: StrMap::new() }
    }

    /// The clock with these counters. Where an agent is named more than once,
    /// the last counter counts.
    pub fn from_counters(counters: Vec<(String, u64)>) -> (clock: Self)
        ensures
            clock@ == last_members(pairs_view(counters@)),
    {
        let mut clock = VectorClock::new();
        let mut i: usize = 0;
        assert(pairs_view(counters@).take(0) =~= Seq::<(Seq<char>, u64)>::empty());
        while i < counters.len()
            invariant
                i <= counters@.len(),
                clock@ == last_members(pairs_view(counters@).take(i as int)),
            decreases counters@.len() - i,
        {
            proof {
                let next = pairs_view(counters@).take(i + 1);
                assert(next.drop_last() =~= pairs_view(counters@).take(i as int));
                assert(next.last() == (counters@[i as int].0@, counters@[i as int].1));
            }
            let agent: String = counters[i].0.clone();
            clock.counters.insert(agent, counters[i].1);
            i = i + 1;
        }
        assert(pairs_view(counters@).take(i as int) =~= pairs_view(counters@));
        clock
    }

    /// The agents that the clock mentions with their counters, in order of the
    /// agents' names.
    pub fn counters(&self) -> (counters: Vec<(String, u64)>)
        ensures
            self@.dom().finite(),
            counters@.len() == sorted(self@.dom()).len(),
            forall|i: int|
                0 <= i < counters@.len() ==> (#[trigger] counters@[i]).0@ == sorted(self@.dom())[i]
                    && counters@[i].1 == self@[sorted(self@.dom())[i]],
    {
        self.counters.clone().into_entries()
    }

    /// `agent`'s counter (0 if it was never ticked).
    pub fn get(&self, agent: &str) -> (n: u64)
        ensures
            n == counter(self@, agent@),
    {
        match self.counters.get(agent) {
            Some(n) => *n,
            None => 0,
        }
    }

    /// Advances `agent`'s counter by one step and returns the new value.
    pub fn tick(&mut self, agent: &str) -> (n: u64)
        requires
            counter(old(self)@, agent@) < u64::MAX,
        ensures
            n == counter(old(self)@, agent@) + 1,
            final(self)@ == ticked(old(self)@, agent@),
    {
        let n: u64 = self.get(agent) + 1;
        self.counters.insert(agent.to_owned(), n);
        n
    }

    /// Joins `other` into this clock: every agent ends at the larger of its
    /// two counters.
    pub fn merge(&mut self, other: &VectorClock)
        ensures
            final(self)@ == joined(old(self)@, other@),
    {
        let mut i: usize = 0;
        let ghost start = self@;
        let counters: Vec<(String, u64)> = other.counters();
        let ghost keys = sorted(other@.dom());
        proof {
            lemma_sorted(other@.dom());
            lemma_ascending_distinct(keys);
        }
        while i < counters.len()
            invariant
                i <= counters@.len(),
                counters@.len() == keys.len(),
                keys.no_duplicates(),
                forall|j: int|
                    0 <= j < keys.len() ==> (#[trigger] counters@[j]).0@ == keys[j] && counters@[j].1
                        == other@[keys[j]],
                forall|j: int| 0 <= j < keys.len() ==> other@.contains_key(#[trigger] keys[j]),
                forall|k: Seq<char>| #[trigger]
                    self@.dom().contains(k) <==> start.contains_key(k) || keys.take(
                        i as int,
                    ).contains(k),
                forall|k: Seq<char>| #[trigger]
                    self@.dom().contains(k) ==> self@[k] == if keys.take(i as int).contains(k) {
                        joined(start, other@)[k]
                    } else {
                        start[k]
                    },
            decreases counters@.len() - i,
        {
            let agent: String = counters[i].0.clone();
            let count: u64 = counters[i].1;
            let here: u64 = self.get(agent.as_str());
            let ghost before_step = self@;
            proof {
                assert(counters@[i as int].0@ == keys[i as int]);
                lemma_take_one_more(keys, i as int);
                assert(!keys.take(i as int).contains(keys[i as int]));
                assert(before_step.dom().contains(keys[i as int]) <==> start.contains_key(keys[i as int]));
            }
            let larger: u64 = if count > here { count } else { here };
            self.counters.insert(agent, larger);
            i = i + 1;
        }
        proof {
            assert(keys.take(i as int) =~= keys);
            assert forall|k: Seq<char>| #[trigger] other@.dom().contains(k) implies keys.contains(k) by {
                assert(keys.to_set().contains(k));
            }
            assert forall|k: Seq<char>| #[trigger] self@.dom().contains(k) implies self@[k] == joined(start, other@)[k] by {
                if !keys.contains(k) {
                    assert(!other@.dom().contains(k));
                }
            }
            assert(self@ =~= joined(start, other@));
        }
    }

    /// Whether this clock happened before `other` or is level with it: no
    /// agent's counter is larger here.
    pub fn le(&self, other: &VectorClock) -> (b: bool)
        ensures
            b == clock_le(self@, other@),
    {
        let n: usize = self.counters.len();
        let ghost keys = sorted(self@.dom());
        proof {
            lemma_sorted(self@.dom());
        }
        let mut i: usize = 0;
        while i < n
            invariant
                i <= n,
                n == self.counters@.len(),
                n == keys.len(),
                keys == sorted(self@.dom()),
                forall|j: int|
                    0 <= j < i ==> counter(self@, #[trigger] keys[j]) <= counter(other@, keys[j]),
            decreases n - i,
        {
            let agent: &str = self.counters.key_at(i);
            let count: u64 = *self.counters.value_at(i);
            if other.get(agent) < count {
                assert(counter(self@, agent@) > counter(other@, agent@));
                return false;
            }
            assert(keys[i as int] == agent@);
            i = i + 1;
        }
        proof {
            assert forall|agent: Seq<char>| #[trigger] counter(self@, agent) <= counter(other@, agent) by {
                if self@.contains_key(agent) {
                    assert(keys.to_set().contains(agent));
                    let j = keys.index_of(agent);
                    assert(keys[j] == agent);
                }
            }
        }
        true
    }

    /// Whether this clock and `other` are unordered: neither is at or behind
    /// the other.
    pub fn concurrent(&self, other: &VectorClock) -> (b: bool)
        ensures
            b == clock_concurrent(self@, other@),
    {
        !self.le(other) && !other.le(self)
    }

    /// The clock as a JSON object.
    pub fn to_json(&self) -> (json: Json)
        ensures
            json@ == clock_tree(self@),
            self@.dom().finite(),
    {
        let counters: Vec<(String, u64)> = self.counters();
        let mut members: Vec<(String, Json)> = Vec::new();
        let mut i: usize = 0;
        while i < counters.len()
            invariant
                i <= counters@.len(),
                members@.len() == i,
                forall|j: int|
                    0 <= j < i ==> (#[trigger] members@[j]).0@ == counters@[j].0@ && members@[j].1@
                        == Tree::Number(decimal(counters@[j].1 as nat)),
            decreases counters@.len() - i,
        {
            let agent: String = counters[i].0.clone();
            let text: String = decimal_text(counters[i].1 as u128);
            members.push((agent, Json::Number(text)));
            i = i + 1;
        }
        proof {
            lemma_member_trees(members@);
            let target = clock_tree(self@)->Object_0;
            assert forall|j: int| 0 <= j < members@.len() implies member_trees(members@)[j] == target[j] by {
                assert(members@[j].0@ == counters@[j].0@);
            }
            assert(member_trees(members@) =~= target);
        }
        Json::Object(members)
    }

    /// A stable SHA-256 digest of the clock's counters, in hexadecimal.
    pub fn digest(&self) -> (digest: String)
        ensures
            digest@ == clock_digest(self@),
            is_digest_text(digest@),
    {
        let text: String = self.to_json().to_text();
        let bytes: Vec<u8> = sha256(text.as_str().as_bytes());
        proof {
            lemma_digest_text(bytes@);
        }
        encode(bytes.as_slice())
    }
}

impl Default for VectorClock {
    fn default() -> (clock: Self)
        ensures
            clock@ == Map::<Seq<char>, u64>::empty(),
    {
        VectorClock::new()
    }
}

impl Clone for VectorClock {
    fn clone(&self) -> (copy: Self)
        ensures
            copy@ == self@,
    {
        VectorClock { counters: self.counters.clone() }
    }
}

} // verus!
