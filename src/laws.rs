//! Properties that hold of every specification, machine and memory, stated
//! over the contracts of the functions they relate.
use crate::config::{
    declares, first_duplicate, first_transition_fault, referential_fault, referentially_valid,
    repeats_earlier, transition_fault, ConfigError, MachineConfig, StateConfig, TransitionConfig,
};
use crate::decode::{decodes_config, decodes_state, decodes_transition};
use crate::json::JsonValue;
use crate::machine::{
    runs, steps, dispatched, start_from_text, start_outcome, trigger_outcome, ActionHandler, StateMachine, TriggerError,
};
use crate::model::{Action, ValidationRule};
use crate::parse::{compile_outcome, parsed_json};
use crate::table::CompiledSpec;
use crate::validation::{condition_outcome, first_failure, validation_outcome};
use vstd::prelude::*;

verus! {

/// A valid specification always starts: in the named initial state when one
/// is named (and declared), else in the first declared state.
pub proof fn law_valid_spec_starts<C, H: ActionHandler<C>>(
    c: MachineConfig,
    initial_state: Option<String>,
    r: Result<StateMachine<C, H>, ConfigError>,
)
    requires
        referentially_valid(c),
        initial_state matches Some(n) ==> declares(c.states@, n@),
        start_outcome(c, initial_state, r),
    ensures
        r is Ok,
        match initial_state {
            Some(n) => r->Ok_0.current_name() == n@,
            None => r->Ok_0.current_name() == c.states@[0].name@,
        },
{
}

/// A specification without states never starts.
pub proof fn law_no_states_refused<C, H: ActionHandler<C>>(
    c: MachineConfig,
    initial_state: Option<String>,
    r: Result<StateMachine<C, H>, ConfigError>,
)
    requires
        c.states@.len() == 0,
        start_outcome(c, initial_state, r),
    ensures
        r == Err::<StateMachine<C, H>, ConfigError>(ConfigError::NoStates),
{
}

/// An event with no transition from the current state is refused, the
/// machine (current state, memory, context) is left exactly as it was, and
/// no action is handed to the handler.
pub proof fn law_unknown_event_changes_nothing<C, H: ActionHandler<C>>(
    before: StateMachine<C, H>,
    after: StateMachine<C, H>,
    event: Seq<char>,
    r: Result<(), TriggerError>,
)
    requires
        trigger_outcome(before, after, event, r),
        before.spec_table().transition_for(before.current_index(), event) is None,
    ensures
        r matches Err(TriggerError::NoSuchTransition { .. }),
        after == before,
        after.current_name() == before.current_name(),
        dispatched(before, after, event).len() == 0,
{
}

/// When a validation of the current state or of the transition fails, the
/// trigger is refused, the machine is left exactly as it was, and no exit,
/// transition or enter action is handed to the handler.
pub proof fn law_failed_validation_is_atomic<C, H: ActionHandler<C>>(
    before: StateMachine<C, H>,
    after: StateMachine<C, H>,
    event: Seq<char>,
    r: Result<(), TriggerError>,
)
    requires
        trigger_outcome(before, after, event, r),
        before.spec_table().transition_for(before.current_index(), event) matches Some(k) && (
        first_failure(
            before.spec_table().states()[before.current_index()].validations@,
            before.spec_memory(),
            0,
        ) is Some || first_failure(
            before.spec_table().transitions()[k].validations@,
            before.spec_memory(),
            0,
        ) is Some),
    ensures
        r matches Err(TriggerError::ValidationFailed { .. }),
        after == before,
        dispatched(before, after, event).len() == 0,
{
}

/// A successful trigger hands the handler exactly the exit actions of the
/// state left, then the transition's actions, then the enter actions of the
/// state entered, and memory and context change only through them.
pub proof fn law_trigger_runs_actions_in_order<C, H: ActionHandler<C>>(
    before: StateMachine<C, H>,
    after: StateMachine<C, H>,
    event: Seq<char>,
    r: Result<(), TriggerError>,
)
    requires
        trigger_outcome(before, after, event, r),
        r is Ok,
    ensures
        before.spec_table().transition_for(before.current_index(), event) matches Some(k) && {
            let t = before.spec_table();
            crate::machine::runs(
                before.spec_handler(),
                t.states()[before.current_index()].on_exit_actions@ + t.transitions()[k].actions@
                    + t.states()[after.current_index()].on_enter_actions@,
                before.spec_memory(),
                before.spec_context(),
                after.spec_memory(),
                after.spec_context(),
            )
        },
{
}

/// A validation rule whose condition evaluates to false is skipped, whatever
/// memory holds for the field it validates.
pub proof fn law_false_condition_skips(v: ValidationRule, mem: Map<Seq<char>, JsonValue>)
    requires
        v.condition matches Some(c) && condition_outcome(c, mem) == Ok::<bool, crate::model::ValidationFault>(false),
    ensures
        validation_outcome(v, mem) is None,
{
}

/// Two specifications whose state names, and whose transitions' sources,
/// targets and events, agree position by position.
pub open spec fn same_references(c1: MachineConfig, c2: MachineConfig) -> bool {
    &&& c1.states@.len() == c2.states@.len()
    &&& forall|i: int| 0 <= i < c1.states@.len() ==> #[trigger] c1.states@[i].name == c2.states@[i].name
    &&& c1.transitions@.len() == c2.transitions@.len()
    &&& forall|k: int|
        0 <= k < c1.transitions@.len() ==> {
            &&& #[trigger] c1.transitions@[k].from == c2.transitions@[k].from
            &&& c1.transitions@[k].to == c2.transitions@[k].to
            &&& c1.transitions@[k].event == c2.transitions@[k].event
        }
}

proof fn lemma_declares_same(s1: Seq<StateConfig>, s2: Seq<StateConfig>, n: Seq<char>)
    requires
        s1.len() == s2.len(),
        forall|i: int| 0 <= i < s1.len() ==> #[trigger] s1[i].name == s2[i].name,
    ensures
        declares(s1, n) == declares(s2, n),
{
    if declares(s1, n) {
        let i = choose|i: int| 0 <= i < s1.len() && #[trigger] s1[i].name@ == n;
        assert(s2[i].name@ == n);
    }
    if declares(s2, n) {
        let i = choose|i: int| 0 <= i < s2.len() && #[trigger] s2[i].name@ == n;
        assert(s1[i].name == s2[i].name);
    }
}

proof fn lemma_duplicates_same(s1: Seq<StateConfig>, s2: Seq<StateConfig>, from: int)
    requires
        s1.len() == s2.len(),
        forall|i: int| 0 <= i < s1.len() ==> #[trigger] s1[i].name == s2[i].name,
    ensures
        first_duplicate(s1, from) == first_duplicate(s2, from),
    decreases s1.len() - from,
{
    if 0 <= from < s1.len() {
        if repeats_earlier(s1, from) {
            let j = choose|j: int| 0 <= j < from && #[trigger] s1[j].name@ == s1[from].name@;
            assert(s2[j].name == s1[j].name);
            assert(repeats_earlier(s2, from));
        }
        if repeats_earlier(s2, from) {
            let j = choose|j: int| 0 <= j < from && #[trigger] s2[j].name@ == s2[from].name@;
            assert(s2[j].name == s1[j].name);
            assert(s2[from].name == s1[from].name);
            assert(repeats_earlier(s1, from));
        }
        lemma_duplicates_same(s1, s2, from + 1);
    }
}

proof fn lemma_transition_faults_same(c1: MachineConfig, c2: MachineConfig, from: int)
    requires
        same_references(c1, c2),
    ensures
        first_transition_fault(c1.states@, c1.transitions@, from) == first_transition_fault(
            c2.states@,
            c2.transitions@,
            from,
        ),
    decreases c1.transitions@.len() - from,
{
    if 0 <= from < c1.transitions@.len() {
        let t1 = c1.transitions@[from];
        let t2 = c2.transitions@[from];
        assert(t1.from == t2.from);
        lemma_declares_same(c1.states@, c2.states@, t1.from@);
        lemma_declares_same(c1.states@, c2.states@, t1.to@);
        assert(transition_fault(c1.states@, t1) == transition_fault(c2.states@, t2));
        lemma_transition_faults_same(c1, c2, from + 1);
    }
}

/// Referential checks read only names: specifications with the same
/// references have the same first fault.
pub proof fn lemma_fault_by_references(c1: MachineConfig, c2: MachineConfig)
    requires
        same_references(c1, c2),
    ensures
        referential_fault(c1) == referential_fault(c2),
{
    lemma_duplicates_same(c1.states@, c2.states@, 0);
    lemma_transition_faults_same(c1, c2, 0);
    if let Some(i) = first_duplicate(c1.states@, 0) {
        crate::table::lemma_first_duplicate_bounds(c1.states@, 0);
        assert(c1.states@[i].name == c2.states@[i].name);
    }
}

/// Two decodings of one document agree on every name.
pub proof fn lemma_decodings_agree(v: JsonValue, c1: MachineConfig, c2: MachineConfig)
    requires
        decodes_config(v, c1),
        decodes_config(v, c2),
    ensures
        same_references(c1, c2),
{
    let xs = crate::decode::member(v, "states"@)->0->Array_0;
    assert forall|i: int| 0 <= i < c1.states@.len() implies #[trigger] c1.states@[i].name
        == c2.states@[i].name by {
        assert(decodes_state(xs@[i], c1.states@[i]));
        assert(decodes_state(xs@[i], c2.states@[i]));
    }
    let ys = crate::decode::member(v, "transitions"@)->0->Array_0;
    assert forall|k: int| 0 <= k < c1.transitions@.len() implies {
        &&& #[trigger] c1.transitions@[k].from == c2.transitions@[k].from
        &&& c1.transitions@[k].to == c2.transitions@[k].to
        &&& c1.transitions@[k].event == c2.transitions@[k].event
    } by {
        assert(decodes_transition(ys@[k], c1.transitions@[k]));
        assert(decodes_transition(ys@[k], c2.transitions@[k]));
    }
}

/// Message lists with the same texts join to the same text.
pub proof fn lemma_joined_by_views(a: Seq<String>, b: Seq<String>)
    requires
        crate::decode::views(a) == crate::decode::views(b),
    ensures
        crate::config::joined(a) == crate::config::joined(b),
    decreases a.len(),
{
    assert(a.len() == crate::decode::views(a).len());
    if a.len() > 0 {
        assert forall|i: int| 0 <= i < a.len() - 1 implies a.drop_last()[i]@ == b.drop_last()[i]@ by {
            assert(a[i]@ == crate::decode::views(a)[i]);
            assert(b[i]@ == crate::decode::views(b)[i]);
        }
        assert(crate::decode::views(a.drop_last()) =~= crate::decode::views(b.drop_last()));
        lemma_joined_by_views(a.drop_last(), b.drop_last());
        assert(a.last()@ == crate::decode::views(a)[a.len() - 1]);
        assert(b.last()@ == crate::decode::views(b)[b.len() - 1]);
        if a.len() == 1 {
            assert(a[0]@ == crate::decode::views(a)[0]);
            assert(b[0]@ == crate::decode::views(b)[0]);
        }
    }
}

/// Compiling the same text twice gives the same outcome: both succeed, or
/// both fail in the same way, with equal referential errors and messages
/// with the same text.
pub proof fn law_compile_is_deterministic(
    text: Seq<char>,
    r1: Result<CompiledSpec, ConfigError>,
    r2: Result<CompiledSpec, ConfigError>,
)
    requires
        compile_outcome(text, r1),
        compile_outcome(text, r2),
    ensures
        r1 is Ok <==> r2 is Ok,
        r1 matches Err(ConfigError::MalformedInput { .. }) <==> r2 matches Err(
            ConfigError::MalformedInput { .. },
        ),
        r1 matches Err(ConfigError::SchemaViolation { .. }) <==> r2 matches Err(
            ConfigError::SchemaViolation { .. },
        ),
        r1 matches Err(e1) && !(e1 is MalformedInput) && !(e1 is SchemaViolation) ==> r1 == r2,
        r1 matches Err(e1) ==> (r2 matches Err(e2) && e1.message_text() == e2.message_text()),
        r1 matches Ok(t1) ==> (r2 matches Ok(t2) && same_references(t1.source(), t2.source())),
{
    if let Ok(v) = parsed_json(text) {
        if crate::decode::conforms(v) {
            let c1 = choose|c: MachineConfig|
                #[trigger] decodes_config(v, c) && match referential_fault(c) {
                    None => r1 matches Ok(t) && t.source() == c,
                    Some(e) => r1 == Err::<CompiledSpec, ConfigError>(e),
                };
            let c2 = choose|c: MachineConfig|
                #[trigger] decodes_config(v, c) && match referential_fault(c) {
                    None => r2 matches Ok(t) && t.source() == c,
                    Some(e) => r2 == Err::<CompiledSpec, ConfigError>(e),
                };
            lemma_decodings_agree(v, c1, c2);
            lemma_fault_by_references(c1, c2);
        } else {
            if let (Err(ConfigError::SchemaViolation { messages: m1 }), Err(ConfigError::SchemaViolation { messages: m2 })) = (r1, r2) {
                lemma_joined_by_views(m1@, m2@);
            }
        }
    }
}

/// Two machines started from byte-identical text with the same initial
/// state agree: both start or neither does; refusals have the same message
/// text; started machines have tables with the same references and sit in
/// states of the same name.
pub proof fn law_new_is_deterministic<C, H: ActionHandler<C>>(
    text: Seq<char>,
    initial_state: Option<String>,
    r1: Result<StateMachine<C, H>, ConfigError>,
    r2: Result<StateMachine<C, H>, ConfigError>,
)
    requires
        start_from_text(text, initial_state, r1),
        start_from_text(text, initial_state, r2),
        r1 matches Ok(m) ==> m.wf(),
        r2 matches Ok(m) ==> m.wf(),
    ensures
        r1 is Ok <==> r2 is Ok,
        r1 matches Err(e1) ==> (r2 matches Err(e2) && e1.message_text() == e2.message_text()),
        r1 matches Ok(m1) ==> (r2 matches Ok(m2) && same_references(
            m1.spec_table().source(),
            m2.spec_table().source(),
        ) && m1.current_name() == m2.current_name()),
{
    match parsed_json(text) {
        Err(_) => {},
        Ok(v) => {
            if !crate::decode::conforms(v) {
                if let (Err(ConfigError::SchemaViolation { messages: m1 }), Err(ConfigError::SchemaViolation { messages: m2 })) = (r1, r2) {
                    lemma_joined_by_views(m1@, m2@);
                }
            } else {
                let c1 = choose|c: MachineConfig|
                    #[trigger] decodes_config(v, c) && start_outcome(c, initial_state, r1);
                let c2 = choose|c: MachineConfig|
                    #[trigger] decodes_config(v, c) && start_outcome(c, initial_state, r2);
                lemma_decodings_agree(v, c1, c2);
                lemma_fault_by_references(c1, c2);
                if let Some(n) = initial_state {
                    lemma_declares_same(c1.states@, c2.states@, n@);
                } else if referential_fault(c1) is None {
                    assert(c1.states@[0].name == c2.states@[0].name);
                }
            }
        },
    }
}

/// How a counter moves under one action: `increment_counter` adds one,
/// `reset_counter` sets it to zero, any other action leaves it.
pub open spec fn counter_step(a: Action, c: int) -> int {
    if a.action_type@ == "increment_counter"@ {
        c + 1
    } else if a.action_type@ == "reset_counter"@ {
        0
    } else {
        c
    }
}

/// The counter after `actions`, one after the other, starting from `c`.
pub open spec fn counter_after(actions: Seq<Action>, c: int) -> int
    decreases actions.len(),
{
    if actions.len() == 0 {
        c
    } else {
        counter_step(actions.last(), counter_after(actions.drop_last(), c))
    }
}

/// A handler whose context is a counter moved as [`counter_step`] says.
pub open spec fn counts<H: ActionHandler<u64>>(h: H) -> bool {
    forall|a: Action, m: Map<Seq<char>, JsonValue>, c: u64, m2: Map<Seq<char>, JsonValue>, c2: u64|
        #[trigger] h.performs(a, m, c, m2, c2) ==> c2 as int == counter_step(a, c as int)
}

proof fn lemma_trace_counts<H: ActionHandler<u64>>(
    h: H,
    actions: Seq<Action>,
    ms: Seq<Map<Seq<char>, JsonValue>>,
    cs: Seq<u64>,
    i: int,
)
    requires
        counts(h),
        steps(h, actions, ms, cs),
        0 <= i <= actions.len(),
    ensures
        cs[i] as int == counter_after(actions.subrange(0, i), cs[0] as int),
    decreases i,
{
    if i == 0 {
        assert(actions.subrange(0, 0).len() == 0);
    } else {
        lemma_trace_counts(h, actions, ms, cs, i - 1);
        let p = actions.subrange(0, i);
        assert(p.drop_last() =~= actions.subrange(0, i - 1));
        let j = i - 1;
        assert(h.performs(actions[j], ms[j], cs[j], ms[j + 1], cs[j + 1]));
        assert(j + 1 == i);
    }
}

/// Running actions through a counting handler leaves the counter that the
/// actions, in order, give.
pub proof fn law_counter_follows_actions<H: ActionHandler<u64>>(
    h: H,
    actions: Seq<Action>,
    m0: Map<Seq<char>, JsonValue>,
    c0: u64,
    m1: Map<Seq<char>, JsonValue>,
    c1: u64,
)
    requires
        counts(h),
        runs(h, actions, m0, c0, m1, c1),
    ensures
        c1 as int == counter_after(actions, c0 as int),
{
    let (ms, cs) = choose|ms: Seq<Map<Seq<char>, JsonValue>>, cs: Seq<u64>|
        #[trigger] steps(h, actions, ms, cs) && ms[0] == m0 && cs[0] == c0 && ms.last() == m1
            && cs.last() == c1;
    lemma_trace_counts(h, actions, ms, cs, actions.len() as int);
    assert(actions.subrange(0, actions.len() as int) =~= actions);
}

/// With a counting handler, each trigger moves the counter by exactly the
/// actions it dispatches: entering a state whose enter action is
/// `increment_counter` adds one each time, and a refused trigger leaves the
/// counter alone.
pub proof fn law_trigger_counts<H: ActionHandler<u64>>(
    before: StateMachine<u64, H>,
    after: StateMachine<u64, H>,
    event: Seq<char>,
    r: Result<(), TriggerError>,
)
    requires
        counts(before.spec_handler()),
        trigger_outcome(before, after, event, r),
    ensures
        after.spec_context() as int == counter_after(
            dispatched(before, after, event),
            before.spec_context() as int,
        ),
{
    law_counter_follows_actions(
        before.spec_handler(),
        dispatched(before, after, event),
        before.spec_memory(),
        before.spec_context(),
        after.spec_memory(),
        after.spec_context(),
    );
}

} // verus!
