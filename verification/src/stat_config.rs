use vstd::prelude::*;

use crate::keyed::{map_of_pairs, pair_views, KeyedList};
use crate::text::views;

verus! {

/// A guild's XP configuration: which stats earn XP and how much per unit of
/// increase. A rate is held as the bit pattern of its `f64` value: the
/// configuration stores, compares and reports rates but never computes
/// with them.
pub struct StatConfig {
    rates: KeyedList<u64>,
}

impl View for StatConfig {
    type V = Map<Seq<char>, u64>;

    closed spec fn view(&self) -> Map<Seq<char>, u64> {
        self.rates@
    }
}

/// What adding a stat did.
#[derive(Debug, Clone, Copy, PartialEq, Eq, Structural)]
pub enum AddOutcome {
    /// The stat was new and now has the requested rate.
    Added,
    /// The stat was already configured with this rate; nothing changed.
    AlreadyConfigured { xp_per_unit: u64 },
}

impl StatConfig {
    /// A configuration without stats.
    pub fn new() -> (config: Self)
        ensures
            config@ == Map::<Seq<char>, u64>::empty(),
    {
        StatConfig { rates: KeyedList::new() }
    }

    /// The configuration holding `pairs`; where a name occurs more than once
    /// the later rate wins, as when collecting into a map.
    pub fn from_entries(pairs: &Vec<(String, u64)>) -> (config: Self)
        ensures
            config@ == map_of_pairs(pair_views(pairs@)),
    {
        let ghost all = pair_views(pairs@);
        let mut rates: KeyedList<u64> = KeyedList::new();
        let mut i: usize = 0;
        while i < pairs.len()
            invariant
                i <= pairs@.len(),
                all == pair_views(pairs@),
                rates@ == map_of_pairs(all.subrange(0, i as int)),
            decreases pairs.len() - i,
        {
            let name = pairs[i].0.clone();
            rates.insert(name, pairs[i].1);
            i = i + 1;
            assert(all.subrange(0, i as int).drop_last() =~= all.subrange(0, i - 1));
        }
        assert(all.subrange(0, i as int) =~= all);
        StatConfig { rates }
    }

    /// Whether `name` is configured.
    pub fn contains_stat(&self, name: &str) -> (configured: bool)
        ensures
            configured == self@.contains_key(name@),
    {
        self.rates.contains_key(name)
    }

    /// The rate configured for `name`, if any.
    pub fn rate_of(&self, name: &str) -> (rate: Option<u64>)
        ensures
            rate is Some == self@.contains_key(name@),
            rate matches Some(r) ==> r == self@[name@],
    {
        match self.rates.get(name) {
            Some(r) => Some(*r),
            None => None,
        }
    }

    /// No stat is configured.
    pub fn is_empty(&self) -> (empty: bool)
        ensures
            empty == (self@.dom() =~= Set::<Seq<char>>::empty()),
    {
        let n = self.rates.len();
        proof {
            if n > 0 {
                assert(self@.dom() != Set::<Seq<char>>::empty());
            }
        }
        n == 0
    }

    /// Configures a new stat (`/edit-stats add`). A stat that is already
    /// configured keeps its rate, which is reported back; nothing changes then.
    pub fn add_stat(&mut self, name: String, xp_per_unit: u64) -> (outcome: AddOutcome)
        ensures
            old(self)@.contains_key(name@) ==> outcome == (AddOutcome::AlreadyConfigured {
                xp_per_unit: old(self)@[name@],
            }) && final(self)@ == old(self)@,
            !old(self)@.contains_key(name@) ==> outcome == AddOutcome::Added && final(self)@
                == old(self)@.insert(name@, xp_per_unit),
    {
        match self.rate_of(name.as_str()) {
            Some(current) => AddOutcome::AlreadyConfigured { xp_per_unit: current },
            None => {
                self.rates.insert(name, xp_per_unit);
                AddOutcome::Added
            },
        }
    }

    /// Changes the rate of a configured stat (`/edit-stats edit`) and returns
    /// the rate it had; a stat that is not configured is refused (`None`,
    /// nothing changes).
    pub fn edit_stat(&mut self, name: String, xp_per_unit: u64) -> (previous: Option<u64>)
        ensures
            old(self)@.contains_key(name@) ==> previous == Some(old(self)@[name@]) && final(self)@
                == old(self)@.insert(name@, xp_per_unit),
            !old(self)@.contains_key(name@) ==> previous is None && final(self)@ == old(self)@,
    {
        if self.rates.contains_key(name.as_str()) {
            self.rates.insert(name, xp_per_unit)
        } else {
            None
        }
    }

    /// Stops awarding XP for a stat (`/edit-stats remove`) and returns the
    /// rate it had; `None`, and no change, when it was not configured.
    pub fn remove_stat(&mut self, name: &str) -> (previous: Option<u64>)
        ensures
            previous is Some == old(self)@.contains_key(name@),
            previous matches Some(r) ==> r == old(self)@[name@],
            final(self)@ == old(self)@.remove(name@),
    {
        self.rates.remove(name)
    }

    /// The configured stat names, each once, in no particular order.
    pub fn stat_names(&self) -> (names: Vec<String>)
        ensures
            views(names@).to_set() == self@.dom(),
            names@.len() == self@.dom().len(),
            forall|i: int, j: int|
                0 <= i < j < names@.len() ==> #[trigger] names@[i]@ != #[trigger] names@[j]@,
    {
        self.rates.keys()
    }

    /// Every configured stat with its rate, each once, in no particular order.
    pub fn stat_rates(&self) -> (pairs: Vec<(String, u64)>)
        ensures
            map_of_pairs(pair_views(pairs@)) == self@,
            pairs@.len() == self@.dom().len(),
            forall|i: int, j: int|
                0 <= i < j < pairs@.len() ==> #[trigger] pairs@[i].0@ != #[trigger] pairs@[j].0@,
    {
        self.rates.pairs()
    }
}

/// A stat added where it was not configured then reports the rate it was
/// added with, and the other stats keep theirs.
pub proof fn lemma_add_then_read(
    config: Map<Seq<char>, u64>,
    name: Seq<char>,
    xp_per_unit: u64,
    other: Seq<char>,
)
    requires
        !config.contains_key(name),
        other != name,
    ensures
        config.insert(name, xp_per_unit).contains_key(name),
        config.insert(name, xp_per_unit)[name] == xp_per_unit,
        config.insert(name, xp_per_unit).contains_key(other) == config.contains_key(other),
        config.contains_key(other) ==> config.insert(name, xp_per_unit)[other] == config[other],
{
}

/// Adding a stat that was not configured and then removing it gives back
/// the configuration as it was.
pub proof fn lemma_add_then_remove_restores(
    config: Map<Seq<char>, u64>,
    name: Seq<char>,
    xp_per_unit: u64,
)
    requires
        !config.contains_key(name),
    ensures
        config.insert(name, xp_per_unit).remove(name) == config,
{
    assert(config.insert(name, xp_per_unit).remove(name) =~= config);
}

/// Editing a configured stat keeps the set of configured stats, and the
/// stat then reports the new rate.
pub proof fn lemma_edit_keeps_stats(config: Map<Seq<char>, u64>, name: Seq<char>, xp_per_unit: u64)
    requires
        config.contains_key(name),
    ensures
        config.insert(name, xp_per_unit).dom() == config.dom(),
        config.insert(name, xp_per_unit)[name] == xp_per_unit,
{
    assert(config.insert(name, xp_per_unit).dom() =~= config.dom());
}

/// After a removal the stat is no longer configured, and every other stat
/// keeps its rate.
pub proof fn lemma_remove_forgets_only_that_stat(config: Map<Seq<char>, u64>, name: Seq<char>, other: Seq<char>)
    requires
        other != name,
    ensures
        !config.remove(name).contains_key(name),
        config.remove(name).contains_key(other) == config.contains_key(other),
        config.contains_key(other) ==> config.remove(name)[other] == config[other],
{
}

} // verus!
