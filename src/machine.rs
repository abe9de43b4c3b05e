//! The state machine proper: a current state over a compiled table, with
//! memory, a user context and an action handler.
use crate::config::{
    declares, first_transition_fault, referential_fault, ConfigError, MachineConfig, StateConfig,
    TransitionConfig,
};
use crate::decode::{conforms, decodes_config};
use crate::memory::Memory;
use crate::model::{Action, ValidationError, ValidationFault};
use crate::parse::{compile_text, parsed_json};
use crate::table::{state_named, CompiledSpec};
use crate::validation::{evaluate_validations, first_failure};
use std::sync::Arc;
use vstd::prelude::*;
use vstd::string::*;

verus! {

/// Performs actions on behalf of a machine. The machine decides when and in
/// what order actions run; what an action does is up to the handler.
pub trait ActionHandler<C> {
    /// What performing `action` does: from memory `mem` and context `ctx`
    /// to memory `mem2` and context `ctx2`. A handler states this of itself;
    /// one that states nothing promises nothing about its effect.
    open spec fn performs(
        &self,
        action: Action,
        mem: Map<Seq<char>, crate::json::JsonValue>,
        ctx: C,
        mem2: Map<Seq<char>, crate::json::JsonValue>,
        ctx2: C,
    ) -> bool {
        true
    }

    /// Performs one action, with write access to memory and context.
    fn handle(&self, action: &Action, memory: &mut Memory, context: &mut C)
        ensures
            self.performs(*action, old(memory)@, *old(context), final(memory)@, *final(context)),
    ;
}

/// A trace of running `actions` through `h`: `ms[i]`, `cs[i]` are memory and
/// context before action `i`, and the handler performs each action from one
/// to the next.
pub open spec fn steps<C, H: ActionHandler<C>>(
    h: H,
    actions: Seq<Action>,
    ms: Seq<Map<Seq<char>, crate::json::JsonValue>>,
    cs: Seq<C>,
) -> bool {
    &&& ms.len() == actions.len() + 1
    &&& cs.len() == actions.len() + 1
    &&& forall|i: int|
        0 <= i < actions.len() ==> #[trigger] h.performs(actions[i], ms[i], cs[i], ms[i + 1], cs[i + 1])
}

/// Running `actions` through handler `h`, one after the other in order, takes
/// memory and context from `(m0, c0)` to `(m1, c1)`. With no actions the
/// handler is not called and nothing changes.
pub open spec fn runs<C, H: ActionHandler<C>>(
    h: H,
    actions: Seq<Action>,
    m0: Map<Seq<char>, crate::json::JsonValue>,
    c0: C,
    m1: Map<Seq<char>, crate::json::JsonValue>,
    c1: C,
) -> bool {
    exists|ms: Seq<Map<Seq<char>, crate::json::JsonValue>>, cs: Seq<C>|
        #[trigger] steps(h, actions, ms, cs) && ms[0] == m0 && cs[0] == c0 && ms.last() == m1
            && cs.last() == c1
}

/// Runs of consecutive action lists make a run of their concatenation.
pub proof fn lemma_runs_concat<C, H: ActionHandler<C>>(
    h: H,
    a: Seq<Action>,
    b: Seq<Action>,
    m0: Map<Seq<char>, crate::json::JsonValue>,
    c0: C,
    m1: Map<Seq<char>, crate::json::JsonValue>,
    c1: C,
    m2: Map<Seq<char>, crate::json::JsonValue>,
    c2: C,
)
    requires
        runs(h, a, m0, c0, m1, c1),
        runs(h, b, m1, c1, m2, c2),
    ensures
        runs(h, a + b, m0, c0, m2, c2),
{
    let (ms1, cs1) = choose|ms: Seq<Map<Seq<char>, crate::json::JsonValue>>, cs: Seq<C>|
        #[trigger] steps(h, a, ms, cs) && ms[0] == m0 && cs[0] == c0 && ms.last() == m1 && cs.last()
            == c1;
    let (ms2, cs2) = choose|ms: Seq<Map<Seq<char>, crate::json::JsonValue>>, cs: Seq<C>|
        #[trigger] steps(h, b, ms, cs) && ms[0] == m1 && cs[0] == c1 && ms.last() == m2 && cs.last()
            == c2;
    let ms = ms1 + ms2.drop_first();
    let cs = cs1 + cs2.drop_first();
    let ab = a + b;
    assert forall|i: int| 0 <= i < ab.len() implies #[trigger] h.performs(
        ab[i],
        ms[i],
        cs[i],
        ms[i + 1],
        cs[i + 1],
    ) by {
        if i < a.len() {
            assert(h.performs(a[i], ms1[i], cs1[i], ms1[i + 1], cs1[i + 1]));
            if i + 1 == a.len() {
                assert(ms[i + 1] == ms2[0]);
            }
        } else {
            let j = i - a.len();
            assert(h.performs(b[j], ms2[j], cs2[j], ms2[j + 1], cs2[j + 1]));
            if j == 0 {
                assert(ms[i] == ms1.last());
            }
        }
    }
    assert(steps(h, ab, ms, cs));
}

/// Why a trigger was refused. A refused trigger changes nothing.
#[derive(Debug)]
pub enum TriggerError {
    /// The current state has no transition on the event.
    NoSuchTransition { event: String, state: String },
    /// A validation of the current state or of the transition failed.
    ValidationFailed { error: ValidationError },
}

impl TriggerError {
    /// The text of [`TriggerError::message`].
    pub open spec fn message_text(&self) -> Seq<char> {
        match self {
            TriggerError::NoSuchTransition { event, state } => "No transition found for event '"@
                + event@ + "' from state '"@ + state@ + "'."@,
            TriggerError::ValidationFailed { error } => error@.text(),
        }
    }

    /// A human-readable description of the refusal.
    pub fn message(&self) -> (r: String)
        ensures
            r@ == self.message_text(),
    {
        match self {
            TriggerError::NoSuchTransition { event, state } => {
                let mut out = String::from_str("No transition found for event '");
                out.append(event.as_str());
                out.append("' from state '");
                out.append(state.as_str());
                out.append("'.");
                assert(out@ =~= self.message_text());
                out
            },
            TriggerError::ValidationFailed { error } => error.message(),
        }
    }
}

/// A transition decided on but not yet carried out: the state left, the
/// transition taken (indices into the table's declarations) and the state
/// entered.
#[derive(Debug, Clone, Copy, PartialEq, Eq, Structural)]
pub struct TransitionPlan {
    pub from: usize,
    pub transition: usize,
    pub target: usize,
}

impl TransitionPlan {
    /// The actions that carrying out this plan hands to the handler, in
    /// order: the exit actions of the state left, the transition's actions,
    /// the enter actions of the state entered.
    pub open spec fn spec_actions(&self, t: CompiledSpec) -> Seq<Action> {
        t.states()[self.from as int].on_exit_actions@ + t.transitions()[self.transition as int].actions@
            + t.states()[self.target as int].on_enter_actions@
    }

    /// Lists [`TransitionPlan::spec_actions`], for a caller that runs them
    /// itself, one after the other, with the position of the first enter
    /// action: `target` becomes current once the actions before it have run.
    pub fn actions(&self, t: &CompiledSpec) -> (r: (Vec<Action>, usize))
        requires
            self.from < t.states().len(),
            self.transition < t.transitions().len(),
            self.target < t.states().len(),
        ensures
            r.0@ == self.spec_actions(*t),
            r.1 == t.states()[self.from as int].on_exit_actions@.len()
                + t.transitions()[self.transition as int].actions@.len(),
    {
        let mut out: Vec<Action> = Vec::new();
        append_actions(&mut out, &t.state(self.from).on_exit_actions);
        append_actions(&mut out, &t.transition(self.transition).actions);
        let entry = out.len();
        append_actions(&mut out, &t.state(self.target).on_enter_actions);
        assert(out@ =~= self.spec_actions(*t));
        (out, entry)
    }
}

fn append_actions(out: &mut Vec<Action>, actions: &Vec<Action>)
    ensures
        final(out)@ == old(out)@ + actions@,
{
    let mut i: usize = 0;
    while i < actions.len()
        invariant
            0 <= i <= actions@.len(),
            out@ == old(out)@ + actions@.subrange(0, i as int),
        decreases actions@.len() - i,
    {
        out.push(actions[i].clone());
        assert(out@ =~= old(out)@ + actions@.subrange(0, i + 1));
        i = i + 1;
    }
    assert(actions@.subrange(0, actions@.len() as int) =~= actions@);
}

/// Relies on `Arc::clone`: the new pointer shares the same allocation, so it
/// reads the same value.
#[verifier::external_body]
pub(crate) fn share<T>(a: &Arc<T>) -> (r: Arc<T>)
    ensures
        *r == **a,
{
    Arc::clone(a)
}

/// The transitions of a valid specification all lead to declared states.
proof fn lemma_targets_declared(states: Seq<StateConfig>, ts: Seq<TransitionConfig>, from: int, k: int)
    requires
        0 <= from <= k < ts.len(),
        first_transition_fault(states, ts, from) is None,
    ensures
        declares(states, ts[k].to@),
        declares(states, ts[k].from@),
    decreases k - from,
{
    if from < k {
        lemma_targets_declared(states, ts, from + 1, k);
    }
}

/// The outcome that `trigger` and `plan_trigger` decide for `event` in the
/// state at index `s` of `t`, given memory `mem`.
pub open spec fn decide(t: CompiledSpec, s: int, event: Seq<char>, mem: Map<Seq<char>, crate::json::JsonValue>) -> Result<int, Option<ValidationFault>> {
    match t.transition_for(s, event) {
        None => Err(None),
        Some(k) => match first_failure(t.states()[s].validations@, mem, 0) {
            Some(e) => Err(Some(e)),
            None => match first_failure(t.transitions()[k].validations@, mem, 0) {
                Some(e) => Err(Some(e)),
                None => Ok(k),
            },
        },
    }
}

/// Runs `actions` through the handler, one after the other, in order.
pub fn dispatch<C, H: ActionHandler<C>>(
    handler: &H,
    actions: &Vec<Action>,
    memory: &mut Memory,
    context: &mut C,
)
    ensures
        runs(*handler, actions@, old(memory)@, *old(context), final(memory)@, *final(context)),
{
    proof {
        assert(steps(*handler, seq![], seq![memory@], seq![*context]));
        assert(actions@.subrange(0, 0) =~= seq![]);
    }
    let mut i: usize = 0;
    while i < actions.len()
        invariant
            0 <= i <= actions@.len(),
            runs(*handler, actions@.subrange(0, i as int), old(memory)@, *old(context), memory@, *context),
        decreases actions@.len() - i,
    {
        let ghost (m, c) = (memory@, *context);
        handler.handle(&actions[i], memory, context);
        proof {
            let one = seq![actions@[i as int]];
            assert(steps(*handler, one, seq![m, memory@], seq![c, *context]));
            lemma_runs_concat(
                *handler,
                actions@.subrange(0, i as int),
                one,
                old(memory)@,
                *old(context),
                m,
                c,
                memory@,
                *context,
            );
            assert(actions@.subrange(0, i as int) + one =~= actions@.subrange(0, i + 1));
        }
        i = i + 1;
    }
    assert(actions@.subrange(0, actions@.len() as int) =~= actions@);
}

/// How a machine starts from declarations `c`: at their first referential
/// fault it does not; otherwise in the named initial state, or the first
/// declared state when none is named.
pub open spec fn start_outcome<C, H: ActionHandler<C>>(
    c: MachineConfig,
    initial_state: Option<String>,
    r: Result<StateMachine<C, H>, ConfigError>,
) -> bool {
    match referential_fault(c) {
        Some(e) => r == Err::<StateMachine<C, H>, ConfigError>(e),
        None => match initial_state {
            None => r matches Ok(m) && m.spec_table().source() == c && m.current_index() == 0,
            Some(n) => if declares(c.states@, n@) {
                r matches Ok(m) && m.spec_table().source() == c && m.current_name() == n@
            } else {
                r == Err::<StateMachine<C, H>, ConfigError>(
                    ConfigError::UnknownInitialState { name: n },
                )
            },
        },
    }
}

/// The actions a `trigger(event)` hands to the handler, in order: none when
/// it is refused; otherwise the exit actions of the state left, the
/// transition's actions, then the enter actions of the state entered.
pub open spec fn dispatched<C, H: ActionHandler<C>>(
    before: StateMachine<C, H>,
    after: StateMachine<C, H>,
    event: Seq<char>,
) -> Seq<Action> {
    let t = before.spec_table();
    let s = before.current_index();
    match decide(t, s, event, before.spec_memory()) {
        Ok(k) => t.states()[s].on_exit_actions@ + t.transitions()[k].actions@ + t.states()[after.current_index()].on_enter_actions@,
        Err(_) => Seq::empty(),
    }
}

/// How a machine starts from specification text: malformed text, a document
/// of the wrong shape (one message per violation), or as [`start_outcome`]
/// says for the declarations the document decodes to.
pub open spec fn start_from_text<C, H: ActionHandler<C>>(
    text: Seq<char>,
    initial_state: Option<String>,
    r: Result<StateMachine<C, H>, ConfigError>,
) -> bool {
    match parsed_json(text) {
        Err(m) => r matches Err(ConfigError::MalformedInput { message }) && message@ == m,
        Ok(v) => if !conforms(v) {
            r matches Err(ConfigError::SchemaViolation { messages }) && messages@.len() > 0
                && crate::decode::views(messages@) == crate::decode::config_issues(v)
        } else {
            exists|c: MachineConfig|
                #[trigger] decodes_config(v, c) && start_outcome(c, initial_state, r)
        },
    }
}

/// What `trigger(event)` does to a machine: with no transition, or with a
/// failed validation, it is refused and changes nothing; otherwise it
/// succeeds and the transition's target becomes current.
pub open spec fn trigger_outcome<C, H: ActionHandler<C>>(
    before: StateMachine<C, H>,
    after: StateMachine<C, H>,
    event: Seq<char>,
    r: Result<(), TriggerError>,
) -> bool {
    &&& after.wf()
    &&& after.spec_table() == before.spec_table()
    &&& match decide(before.spec_table(), before.current_index(), event, before.spec_memory()) {
        Ok(k) => r is Ok && state_named(
            before.spec_table().states(),
            before.spec_table().transitions()[k].to@,
            after.current_index(),
        ),
        Err(None) => r matches Err(TriggerError::NoSuchTransition { event: e, state: st })
            && e@ == event && st@ == before.current_name(),
        Err(Some(v)) => r matches Err(TriggerError::ValidationFailed { error }) && error@ == v,
    }
    &&& r is Err ==> after == before
    &&& after.spec_handler() == before.spec_handler()
    &&& runs(
        before.spec_handler(),
        dispatched(before, after, event),
        before.spec_memory(),
        before.spec_context(),
        after.spec_memory(),
        after.spec_context(),
    )
}

/// The line that lists one outgoing transition.
pub open spec fn edge_line(event: Seq<char>, to: Seq<char>) -> Seq<char> {
    "      -["@ + event + "]-> "@ + to + "\n"@
}

/// The lines for the transitions among `ts[k..]` that leave the state at
/// index `s`: one per event, for the declaration that takes effect.
pub open spec fn edges_text(t: CompiledSpec, s: int, k: int) -> Seq<char>
    decreases t.transitions().len() - k,
{
    if k < 0 || k >= t.transitions().len() {
        Seq::empty()
    } else {
        let tr = t.transitions()[k];
        (if tr.from@ == t.states()[s].name@ && t.transition_for(s, tr.event@) == Some(k) {
            edge_line(tr.event@, tr.to@)
        } else {
            Seq::empty()
        }) + edges_text(t, s, k + 1)
    }
}

/// The lines for the states among `states[s..]`, the current one marked.
pub open spec fn states_text(t: CompiledSpec, current: int, s: int) -> Seq<char>
    decreases t.states().len() - s,
{
    if s < 0 || s >= t.states().len() {
        Seq::empty()
    } else {
        (if s == current {
            "->"@
        } else {
            "  "@
        }) + " State: "@ + t.states()[s].name@ + "\n"@ + edges_text(t, s, 0) + states_text(
            t,
            current,
            s + 1,
        )
    }
}

/// A human-readable dump: every state in declared order, the current one
/// marked, each followed by its outgoing `event -> target` edges.
pub open spec fn diagram_text(t: CompiledSpec, current: int) -> Seq<char> {
    "State Machine Diagram:\n"@ + "======================\n"@ + states_text(t, current, 0)
        + "======================\n"@
}

/// What planning `event` from the state at index `s` of `t` returns, given
/// memory `mem`: the transition and its target, the missing transition, or
/// the first failed validation.
pub open spec fn plan_outcome(
    t: CompiledSpec,
    s: int,
    event: Seq<char>,
    mem: Map<Seq<char>, crate::json::JsonValue>,
    r: Result<TransitionPlan, TriggerError>,
) -> bool {
    &&& match decide(t, s, event, mem) {
        Ok(k) => r matches Ok(p) && p.from == s && p.transition == k && state_named(
            t.states(),
            t.transitions()[k].to@,
            p.target as int,
        ),
        Err(None) => r matches Err(TriggerError::NoSuchTransition { event: e, state: st })
            && e@ == event && st@ == t.states()[s].name@,
        Err(Some(v)) => r matches Err(TriggerError::ValidationFailed { error }) && error@ == v,
    }
    &&& r matches Ok(p) ==> p.from < t.states().len() && p.transition < t.transitions().len()
        && p.target < t.states().len()
}

/// Decides what `event` does in the state at index `current` of `table`,
/// given `memory`: the transition to take, or why there is none. Changes
/// nothing; the caller runs the actions and moves to the target.
pub fn plan_transition(table: &CompiledSpec, current: usize, event: &str, memory: &Memory) -> (r:
    Result<TransitionPlan, TriggerError>)
    requires
        current < table.states().len(),
    ensures
        plan_outcome(*table, current as int, event@, memory@, r),
{
    // The table's validity: every transition leads to a declared state.
    let _ = table.state_count();
    let s = current;
    let k = match table.find_transition(s, event) {
        Some(k) => k,
        None => {
            return Err(
                TriggerError::NoSuchTransition {
                    event: event.to_owned(),
                    state: table.state(s).name.clone(),
                },
            );
        },
    };
    match evaluate_validations(&table.state(s).validations, memory) {
        Err(e) => {
            return Err(TriggerError::ValidationFailed { error: e });
        },
        Ok(()) => {},
    }
    let t = table.transition(k);
    match evaluate_validations(&t.validations, memory) {
        Err(e) => {
            return Err(TriggerError::ValidationFailed { error: e });
        },
        Ok(()) => {},
    }
    proof {
        lemma_targets_declared(table.states(), table.transitions(), 0, k as int);
    }
    match table.find_state(t.to.as_str()) {
        Some(target) => Ok(TransitionPlan { from: s, transition: k, target }),
        None => {
            proof {
                assert(false);
            }
            Err(TriggerError::NoSuchTransition { event: event.to_owned(), state: t.from.clone() })
        },
    }
}

/// A state machine over a compiled specification.
pub struct StateMachine<C, H> {
    table: Arc<CompiledSpec>,
    current: usize,
    memory: Memory,
    context: C,
    handler: H,
}

impl<C, H: ActionHandler<C>> StateMachine<C, H> {
    /// The current state indexes the table.
    pub open spec fn wf(&self) -> bool {
        0 <= self.current_index() < self.spec_table().states().len()
    }

    pub closed spec fn spec_handler(&self) -> H {
        self.handler
    }

    pub closed spec fn spec_table(&self) -> CompiledSpec {
        *self.table
    }

    pub closed spec fn current_index(&self) -> int {
        self.current as int
    }

    pub closed spec fn spec_memory(&self) -> Map<Seq<char>, crate::json::JsonValue> {
        self.memory@
    }

    pub closed spec fn spec_context(&self) -> C {
        self.context
    }

    /// The name of the current state.
    pub open spec fn current_name(&self) -> Seq<char> {
        self.spec_table().states()[self.current_index()].name@
    }

    /// Binds a compiled table to an initial state, memory, context and
    /// handler. Without an initial state the first declared state is used.
    pub fn from_compiled(
        table: Arc<CompiledSpec>,
        initial_state: Option<String>,
        handler: H,
        memory: Memory,
        context: C,
    ) -> (r: Result<Self, ConfigError>)
        ensures
            match initial_state {
                None => r is Ok && r->Ok_0.current_index() == 0,
                Some(n) => if declares((*table).states(), n@) {
                    r is Ok && r->Ok_0.current_name() == n@
                } else {
                    r == Err::<Self, ConfigError>(ConfigError::UnknownInitialState { name: n })
                },
            },
            r matches Ok(m) ==> {
                &&& m.wf()
                &&& m.spec_table() == *table
                &&& m.spec_memory() == memory@
                &&& m.spec_context() == context
            },
    {
        // The table has at least one state, so index 0 is one.
        let _ = table.state_count();
        let current = match initial_state {
            None => 0,
            Some(name) => match table.find_state(name.as_str()) {
                Some(i) => i,
                None => {
                    return Err(ConfigError::UnknownInitialState { name });
                },
            },
        };
        Ok(StateMachine { table, current, memory, context, handler })
    }

    /// Compiles specification text and starts a machine on it. Without an
    /// initial state the first declared state is used.
    pub fn new(
        config_content: &str,
        initial_state: Option<String>,
        action_handler: H,
        memory: Memory,
        context: C,
    ) -> (r: Result<Self, ConfigError>)
        ensures
            start_from_text(config_content@, initial_state, r),
            r matches Ok(m) ==> m.wf() && m.spec_memory() == memory@ && m.spec_context()
                == context,
    {
        match compile_text(config_content) {
            Ok(t) => {
                let ghost c = t.source();
                let r = Self::from_compiled(Arc::new(t), initial_state, action_handler, memory, context);
                assert(decodes_config(parsed_json(config_content@)->Ok_0, c) && start_outcome(
                    c,
                    initial_state,
                    r,
                ));
                r
            },
            Err(e) => Err(e),
        }
    }

    /// Starts a machine on specification text, taking the compiled table from
    /// `cache` when it holds one for this text.
    pub fn with_cache(
        cache: &mut crate::cache::SpecCache,
        config_content: &str,
        initial_state: Option<String>,
        action_handler: H,
        memory: Memory,
        context: C,
    ) -> (r: Result<Self, ConfigError>)
        requires
            old(cache).wf(),
        ensures
            final(cache).wf(),
            start_from_text(config_content@, initial_state, r),
            r matches Ok(m) ==> m.wf() && m.spec_memory() == memory@ && m.spec_context()
                == context,
            old(cache).holds(config_content@) ==> (r matches Ok(m) ==> m.spec_table()
                == old(cache).contents()[crate::cache::text_hash(config_content@)].spec_table()),
    {
        match cache.get_or_compile(config_content) {
            Ok(t) => {
                let ghost c = (*t).source();
                let r = Self::from_compiled(t, initial_state, action_handler, memory, context);
                assert(decodes_config(parsed_json(config_content@)->Ok_0, c) && start_outcome(
                    c,
                    initial_state,
                    r,
                ));
                r
            },
            Err(e) => Err(e),
        }
    }

    /// Decides what `event` does in the current state, without changing
    /// anything: no transition, a failed validation (the state's own first,
    /// then the transition's), or the transition to take.
    pub fn plan_trigger(&self, event: &str) -> (r: Result<TransitionPlan, TriggerError>)
        requires
            self.wf(),
        ensures
            plan_outcome(self.spec_table(), self.current_index(), event@, self.spec_memory(), r),
    {
        plan_transition(&self.table, self.current, event, &self.memory)
    }

    /// Takes the machine apart: its table, the index of its current state,
    /// its memory and its context.
    pub fn into_parts(self) -> (r: (Arc<CompiledSpec>, usize, Memory, C))
        ensures
            *r.0 == self.spec_table(),
            r.1 == self.current_index(),
            r.2@ == self.spec_memory(),
            r.3 == self.spec_context(),
    {
        (self.table, self.current, self.memory, self.context)
    }

    /// Makes the state at index `target` current, when the table has one.
    pub fn enter_state(&mut self, target: usize) -> (r: bool)
        ensures
            r == (target < old(self).spec_table().states().len()),
            r ==> final(self).current_index() == target && final(self).wf(),
            !r ==> final(self).current_index() == old(self).current_index() && final(self).wf()
                == old(self).wf(),
            final(self).spec_table() == old(self).spec_table(),
            final(self).spec_memory() == old(self).spec_memory(),
            final(self).spec_context() == old(self).spec_context(),
    {
        if target < self.table.state_count() {
            self.current = target;
            true
        } else {
            false
        }
    }

    /// Applies `event`: checks the current state's validations, then the
    /// transition's, and only then runs the exit actions of the current
    /// state, the transition's actions, moves to the target state and runs
    /// its enter actions. A refused trigger changes nothing.
    pub fn trigger(&mut self, event: &str) -> (r: Result<(), TriggerError>)
        requires
            old(self).wf(),
        ensures
            trigger_outcome(*old(self), *final(self), event@, r),
    {
        let plan = match self.plan_trigger(event) {
            Ok(p) => p,
            Err(e) => {
                assert(steps(self.handler, seq![], seq![self.memory@], seq![self.context]));
                return Err(e);
            },
        };
        let ghost (m0, c0) = (self.memory@, self.context);
        let table = share(&self.table);
        dispatch(
            &self.handler,
            &table.state(plan.from).on_exit_actions,
            &mut self.memory,
            &mut self.context,
        );
        let ghost (m1, c1) = (self.memory@, self.context);
        dispatch(
            &self.handler,
            &table.transition(plan.transition).actions,
            &mut self.memory,
            &mut self.context,
        );
        let ghost (m2, c2) = (self.memory@, self.context);
        self.current = plan.target;
        dispatch(
            &self.handler,
            &table.state(plan.target).on_enter_actions,
            &mut self.memory,
            &mut self.context,
        );
        proof {
            let t = *table;
            let a = t.states()[plan.from as int].on_exit_actions@;
            let b = t.transitions()[plan.transition as int].actions@;
            let c = t.states()[plan.target as int].on_enter_actions@;
            lemma_runs_concat(self.handler, a, b, m0, c0, m1, c1, m2, c2);
            lemma_runs_concat(self.handler, a + b, c, m0, c0, m2, c2, self.memory@, self.context);
        }
        Ok(())
    }

    /// Renders the machine as [`diagram_text`] describes.
    pub fn diagram(&self) -> (r: String)
        requires
            self.wf(),
        ensures
            r@ == diagram_text(self.spec_table(), self.current_index()),
    {
        let t = &*self.table;
        let mut out = String::from_str("State Machine Diagram:\n");
        out.append("======================\n");
        let ghost head = out@;
        let n = t.state_count();
        let mut s: usize = 0;
        while s < n
            invariant
                n == t.states().len(),
                *t == self.spec_table(),
                0 <= s <= n,
                out@ + states_text(*t, self.current_index(), s as int) == head + states_text(
                    *t,
                    self.current_index(),
                    0,
                ),
            decreases n - s,
        {
            let ghost before = out@;
            out.append(if s == self.current { "->" } else { "  " });
            out.append(" State: ");
            out.append(t.state(s).name.as_str());
            out.append("\n");
            let ghost line = out@;
            let m = t.transitions_len();
            let mut k: usize = 0;
            while k < m
                invariant
                    m == t.transitions().len(),
                    s < n == t.states().len(),
                    0 <= k <= m,
                    out@ + edges_text(*t, s as int, k as int) == line + edges_text(*t, s as int, 0),
                decreases m - k,
            {
                let ghost pre = out@;
                let tr = t.transition(k);
                if tr.from == t.state(s).name {
                    match t.find_transition(s, tr.event.as_str()) {
                        Some(j) => {
                            if j == k {
                                out.append("      -[");
                                out.append(tr.event.as_str());
                                out.append("]-> ");
                                out.append(tr.to.as_str());
                                out.append("\n");
                            }
                        },
                        None => {},
                    }
                }
                assert(out@ + edges_text(*t, s as int, k + 1) =~= pre + edges_text(*t, s as int, k as int));
                k = k + 1;
            }
            assert(out@ + states_text(*t, self.current_index(), s + 1) =~= before + states_text(
                *t,
                self.current_index(),
                s as int,
            ));
            s = s + 1;
        }
        out.append("======================\n");
        assert(out@ =~= diagram_text(self.spec_table(), self.current_index()));
        out
    }

    /// The saved form of a machine: the name of its current state only.
    /// Restoring takes this name as the initial state of a new machine, with
    /// memory and context supplied again.
    pub fn save_state(&self) -> (r: String)
        requires
            self.wf(),
        ensures
            r@ == self.current_name(),
    {
        self.get_current_state()
    }

    /// The name of the current state.
    pub fn get_current_state(&self) -> (r: String)
        requires
            self.wf(),
        ensures
            r@ == self.current_name(),
    {
        self.table.state(self.current).name.clone()
    }

    /// The compiled table, shared.
    pub fn table(&self) -> (r: Arc<CompiledSpec>)
        ensures
            *r == self.spec_table(),
    {
        share(&self.table)
    }

    /// Read access to memory.
    pub fn memory(&self) -> (r: &Memory)
        ensures
            r@ == self.spec_memory(),
    {
        &self.memory
    }

    /// Read access to the context.
    pub fn context(&self) -> (r: &C)
        ensures
            *r == self.spec_context(),
    {
        &self.context
    }

    /// Write access to memory; nothing else changes.
    pub fn memory_mut(&mut self) -> (r: &mut Memory)
        ensures
            r@ == old(self).spec_memory(),
            final(self).spec_memory() == final(r)@,
            final(self).spec_table() == old(self).spec_table(),
            final(self).current_index() == old(self).current_index(),
            final(self).spec_context() == old(self).spec_context(),
            final(self).wf() == old(self).wf(),
    {
        &mut self.memory
    }

    /// Write access to the context; nothing else changes.
    pub fn context_mut(&mut self) -> (r: &mut C)
        ensures
            *r == old(self).spec_context(),
            final(self).spec_context() == *final(r),
            final(self).spec_table() == old(self).spec_table(),
            final(self).current_index() == old(self).current_index(),
            final(self).spec_memory() == old(self).spec_memory(),
            final(self).wf() == old(self).wf(),
    {
        &mut self.context
    }
}

} // verus!
