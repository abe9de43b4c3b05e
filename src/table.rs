//! A compiled specification: validated, immutable, shareable.
use crate::config::{
    declares, first_duplicate, referential_fault, referentially_valid, validate_config, ConfigError, MachineConfig,
    StateConfig, TransitionConfig,
};
use vstd::prelude::*;

verus! {

/// A specification that passed the referential checks. Immutable once built.
#[derive(Debug)]
pub struct CompiledSpec {
    config: MachineConfig,
}

/// The index of the state named `name`, when one is.
pub open spec fn state_named(states: Seq<StateConfig>, name: Seq<char>, i: int) -> bool {
    0 <= i < states.len() && states[i].name@ == name
}

/// The last transition among `ts[..upto]` from `from` on `event`: a later
/// declaration overrides an earlier one.
pub open spec fn last_match(ts: Seq<TransitionConfig>, from: Seq<char>, event: Seq<char>, upto: int) -> Option<int>
    decreases upto,
{
    if upto <= 0 || upto > ts.len() {
        None
    } else if ts[upto - 1].from@ == from && ts[upto - 1].event@ == event {
        Some(upto - 1)
    } else {
        last_match(ts, from, event, upto - 1)
    }
}

proof fn lemma_last_match_bounds(ts: Seq<TransitionConfig>, from: Seq<char>, event: Seq<char>, upto: int)
    ensures
        last_match(ts, from, event, upto) matches Some(k) ==> 0 <= k < upto && k < ts.len()
            && ts[k].from@ == from && ts[k].event@ == event,
    decreases upto,
{
    if upto > 0 && upto <= ts.len() {
        lemma_last_match_bounds(ts, from, event, upto - 1);
    }
}

/// A repeated state name lies within the states.
pub proof fn lemma_first_duplicate_bounds(states: Seq<StateConfig>, from: int)
    ensures
        first_duplicate(states, from) matches Some(i) ==> 0 <= i < states.len(),
    decreases states.len() - from,
{
    if 0 <= from < states.len() {
        lemma_first_duplicate_bounds(states, from + 1);
    }
}

impl CompiledSpec {
    #[verifier::type_invariant]
    spec fn inv(&self) -> bool {
        referentially_valid(self.config)
    }

    /// The declarations this table was compiled from.
    pub closed spec fn source(&self) -> MachineConfig {
        self.config
    }

    /// The declared states, in order.
    pub open spec fn states(&self) -> Seq<StateConfig> {
        self.source().states@
    }

    /// The declared transitions, in order.
    pub open spec fn transitions(&self) -> Seq<TransitionConfig> {
        self.source().transitions@
    }

    /// The transition taken from the state at index `s` on `event`.
    pub open spec fn transition_for(&self, s: int, event: Seq<char>) -> Option<int> {
        last_match(self.transitions(), self.states()[s].name@, event, self.transitions().len() as int)
    }

    /// Compiles a decoded specification, refusing it at its first referential
    /// fault.
    pub fn compile(config: MachineConfig) -> (r: Result<CompiledSpec, ConfigError>)
        ensures
            match referential_fault(config) {
                None => r matches Ok(t) && t.source() == config,
                Some(e) => r == Err::<CompiledSpec, ConfigError>(e),
            },
    {
        match validate_config(&config) {
            Ok(()) => Ok(CompiledSpec { config }),
            Err(e) => Err(e),
        }
    }

    /// Number of declared states; also what every table guarantees: states
    /// exist, their names are unique, and each transition joins declared
    /// states on a non-blank event.
    pub fn state_count(&self) -> (r: usize)
        ensures
            r == self.states().len(),
            r > 0,
            referentially_valid(self.source()),
    {
        proof {
            use_type_invariant(self);
        }
        self.config.states.len()
    }

    /// Number of declared transitions.
    pub fn transitions_len(&self) -> (r: usize)
        ensures
            r == self.transitions().len(),
    {
        self.config.transitions.len()
    }

    /// The state at index `i`.
    pub fn state(&self, i: usize) -> (r: &StateConfig)
        requires
            i < self.states().len(),
        ensures
            *r == self.states()[i as int],
    {
        &self.config.states[i]
    }

    /// The transition at index `k`.
    pub fn transition(&self, k: usize) -> (r: &TransitionConfig)
        requires
            k < self.transitions().len(),
        ensures
            *r == self.transitions()[k as int],
    {
        &self.config.transitions[k]
    }

    /// The index of the state named `name`, if one is.
    pub fn find_state(&self, name: &str) -> (r: Option<usize>)
        ensures
            match r {
                Some(i) => state_named(self.states(), name@, i as int),
                None => !declares(self.states(), name@),
            },
    {
        let mut i: usize = 0;
        while i < self.config.states.len()
            invariant
                0 <= i <= self.states().len(),
                self.states() == self.config.states@,
                forall|j: int| 0 <= j < i ==> self.states()[j].name@ != name@,
            decreases self.states().len() - i,
        {
            if self.config.states[i].name.as_str().to_owned() == name.to_owned() {
                return Some(i);
            }
            i = i + 1;
        }
        None
    }

    /// The transition taken from the state at index `s` on `event`.
    pub fn find_transition(&self, s: usize, event: &str) -> (r: Option<usize>)
        requires
            s < self.states().len(),
        ensures
            match self.transition_for(s as int, event@) {
                Some(k) => r == Some(k as usize) && 0 <= k < self.transitions().len(),
                None => r is None,
            },
            r matches Some(k) ==> k < self.transitions().len() && self.transition_for(
                s as int,
                event@,
            ) == Some(k as int),
    {
        let ts = &self.config.transitions;
        let from = &self.config.states[s].name;
        let mut k: usize = ts.len();
        while k > 0
            invariant
                k <= ts@.len(),
                ts@ == self.transitions(),
                *from == self.states()[s as int].name,
                self.transition_for(s as int, event@) == last_match(ts@, from@, event@, k as int),
            decreases k,
        {
            let t = &ts[k - 1];
            if t.from == *from && t.event.as_str().to_owned() == event.to_owned() {
                proof {
                    lemma_last_match_bounds(ts@, from@, event@, k as int);
                }
                return Some(k - 1);
            }
            k = k - 1;
        }
        None
    }
}

} // verus!
