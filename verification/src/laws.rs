//! The guarantees of the compiled table, stated and proved once and for
//! all: totality of the table, the behaviour of each resolution tier, the
//! first-match tie-break, rejection of unresolvable cells, and determinism
//! of compilation.

use vstd::prelude::*;
use crate::parse::{RuleView, default_name};
use crate::table::{
    CompiledTable, event_names_of, has_default_state, has_loopback_for, lemma_first_match_is_first,
    lemma_first_match_none, resolve_cell, rule_matches, state_names_of, unresolved_at,
};

verus! {

/// Totality: in a well-formed table every cell of the full
/// `states x events` cross product holds a valid state id.
pub proof fn lemma_totality(t: CompiledTable)
    requires
        t.wf(),
    ensures
        forall|s: int, e: int|
            0 <= s < t.states@.len() && 0 <= e < t.events@.len()
                ==> (#[trigger] t.table@[s]@[e]) < t.states@.len(),
{
}

/// Direct-match correctness: when rule `k` is the only rule for its own
/// `(previous state, event)` key, that cell resolves to rule `k`'s next
/// state.
pub proof fn lemma_direct_match(rules: Seq<RuleView>, k: int)
    requires
        0 <= k < rules.len(),
        forall|j: int|
            0 <= j < rules.len() && j != k ==> !rule_matches(
                #[trigger] rules[j],
                rules[k].prev.name(),
                rules[k].event.name(),
            ),
    ensures
        resolve_cell(rules, rules[k].prev.name(), rules[k].event.name()) == Some(
            rules[k].next.name(),
        ),
{
    assert(rule_matches(rules[k], rules[k].prev.name(), rules[k].event.name()));
    lemma_first_match_is_first(rules, rules[k].prev.name(), rules[k].event.name(), k);
}

/// First-match tie-break: of several rules for the same `(state, event)`
/// key, the earliest in source order decides the cell.
pub proof fn lemma_first_match_tie_break(
    rules: Seq<RuleView>,
    i: int,
    j: int,
    state: Seq<char>,
    event: Seq<char>,
)
    requires
        0 <= i < j < rules.len(),
        rule_matches(rules[i], state, event),
        rule_matches(rules[j], state, event),
        forall|k: int| 0 <= k < i ==> !rule_matches(#[trigger] rules[k], state, event),
    ensures
        resolve_cell(rules, state, event) == Some(rules[i].next.name()),
{
    lemma_first_match_is_first(rules, state, event, i);
}

/// Loopback fallback: when no rule directly matches `(state, event)` and
/// rule `k` is a loopback for `state`, the cell resolves to `state` itself.
pub proof fn lemma_loopback_fallback(rules: Seq<RuleView>, k: int, event: Seq<char>)
    requires
        0 <= k < rules.len(),
        rules[k].is_loopback(),
        forall|j: int|
            0 <= j < rules.len() ==> !rule_matches(
                #[trigger] rules[j],
                rules[k].prev.name(),
                event,
            ),
    ensures
        resolve_cell(rules, rules[k].prev.name(), event) == Some(rules[k].prev.name()),
{
    lemma_first_match_none(rules, rules[k].prev.name(), event);
    assert((rules[k]).prev.name() == rules[k].prev.name() && rules[k].is_loopback());
    assert(has_loopback_for(rules, rules[k].prev.name()));
}

/// Default-state fallback: when no rule matches `(state, event)`, the state
/// has no loopback, and a state named `Default` was collected, the cell
/// resolves to the `Default` state.
pub proof fn lemma_default_fallback(rules: Seq<RuleView>, state: Seq<char>, event: Seq<char>)
    requires
        has_default_state(rules),
        !has_loopback_for(rules, state),
        forall|j: int| 0 <= j < rules.len() ==> !rule_matches(#[trigger] rules[j], state, event),
    ensures
        resolve_cell(rules, state, event) == Some(default_name()),
{
    lemma_first_match_none(rules, state, event);
}

/// Unresolvable rejection: when no rule matches `(state, event)`, the state
/// has no loopback, and no `Default` state exists, the cell has no
/// resolution, so compilation must fail.
pub proof fn lemma_unresolved(rules: Seq<RuleView>, state: Seq<char>, event: Seq<char>)
    requires
        !has_default_state(rules),
        !has_loopback_for(rules, state),
        forall|j: int| 0 <= j < rules.len() ==> !rule_matches(#[trigger] rules[j], state, event),
    ensures
        resolve_cell(rules, state, event) is None,
{
    lemma_first_match_none(rules, state, event);
}

/// Unresolvable rejection, completed: while any cell of the cross product
/// is unresolvable, no well-formed table can be the compilation of the
/// rules, so compilation has no choice but to fail.
pub proof fn lemma_no_table_when_unresolved(rules: Seq<RuleView>, i: int, j: int, t: CompiledTable)
    requires
        0 <= i < state_names_of(rules).len(),
        0 <= j < event_names_of(rules).len(),
        unresolved_at(rules, i, j),
    ensures
        !t.compiled_from(rules),
{
    if t.compiled_from(rules) {
        assert(t.table@[i]@[j] < t.states@.len());
        assert(resolve_cell(rules, state_names_of(rules)[i], event_names_of(rules)[j]) is Some);
    }
}

/// Determinism: any two tables compiled from the same rule list agree on
/// the name lists, the id assignment, and every cell.
pub proof fn lemma_determinism(rules: Seq<RuleView>, t1: CompiledTable, t2: CompiledTable)
    requires
        t1.compiled_from(rules),
        t2.compiled_from(rules),
    ensures
        t1.states.deep_view() == t2.states.deep_view(),
        t1.events.deep_view() == t2.events.deep_view(),
        t1.table@.len() == t2.table@.len(),
        forall|i: int, j: int|
            0 <= i < t1.states@.len() && 0 <= j < t1.events@.len() ==> #[trigger] t1.table@[i]@[j]
                == #[trigger] t2.table@[i]@[j],
{
    let sn = state_names_of(rules);
    let en = event_names_of(rules);
    assert(t1.states@.len() == sn.len() && t2.states@.len() == sn.len());
    assert(t1.events@.len() == en.len() && t2.events@.len() == en.len());
    assert forall|i: int, j: int|
        0 <= i < t1.states@.len() && 0 <= j < t1.events@.len() implies #[trigger] t1.table@[i]@[j]
        == #[trigger] t2.table@[i]@[j] by {
        let c1 = t1.table@[i]@[j] as int;
        let c2 = t2.table@[i]@[j] as int;
        assert(resolve_cell(rules, sn[i], en[j]) == Some(sn[c1]));
        assert(resolve_cell(rules, sn[i], en[j]) == Some(sn[c2]));
        assert(0 <= c1 < sn.len() && 0 <= c2 < sn.len());
        if c1 < c2 {
            assert(t1.states.deep_view()[c1] != t1.states.deep_view()[c2]);
        } else if c2 < c1 {
            assert(t1.states.deep_view()[c2] != t1.states.deep_view()[c1]);
        }
    }
}

} // verus!
