//! The table compiler: symbol collection, id assignment, and cell
//! resolution.

use vstd::prelude::*;
use crate::parse::{
    RuleView, SyntaxError, Transition, TransitionItem, TransitionParser, default_name, parse_spec,
};

verus! {

/// A rule matches a table cell when its previous state and its event carry
/// the cell's names.
pub open spec fn rule_matches(r: RuleView, state: Seq<char>, event: Seq<char>) -> bool {
    r.prev.name() == state && r.event.name() == event
}

/// The first rule in source order that matches `(state, event)`, if any.
pub open spec fn first_match(rules: Seq<RuleView>, state: Seq<char>, event: Seq<char>) -> Option<
    RuleView,
>
    decreases rules.len(),
{
    if rules.len() == 0 {
        None
    } else if rule_matches(rules[0], state, event) {
        Some(rules[0])
    } else {
        first_match(rules.drop_first(), state, event)
    }
}

/// Whether some rule with previous state `state` is a loopback.
pub open spec fn has_loopback_for(rules: Seq<RuleView>, state: Seq<char>) -> bool {
    exists|k: int|
        0 <= k < rules.len() && (#[trigger] rules[k]).prev.name() == state
            && rules[k].is_loopback()
}

/// Appends a name to a first-occurrence list unless it is already present.
pub open spec fn insert_name(names: Seq<Seq<char>>, n: Seq<char>) -> Seq<Seq<char>> {
    if names.contains(n) {
        names
    } else {
        names.push(n)
    }
}

/// The distinct state names of a rule list, in first-occurrence order; each
/// rule contributes its previous and its next state.
pub open spec fn state_names_of(rules: Seq<RuleView>) -> Seq<Seq<char>>
    decreases rules.len(),
{
    if rules.len() == 0 {
        Seq::empty()
    } else {
        insert_name(
            insert_name(state_names_of(rules.drop_last()), rules.last().prev.name()),
            rules.last().next.name(),
        )
    }
}

/// The distinct event names of a rule list, in first-occurrence order.
pub open spec fn event_names_of(rules: Seq<RuleView>) -> Seq<Seq<char>>
    decreases rules.len(),
{
    if rules.len() == 0 {
        Seq::empty()
    } else {
        insert_name(event_names_of(rules.drop_last()), rules.last().event.name())
    }
}

/// Whether a state literally named `Default` is among the collected states;
/// this gates the third resolution tier.
pub open spec fn has_default_state(rules: Seq<RuleView>) -> bool {
    state_names_of(rules).contains(default_name())
}

/// The next-state name of one table cell under the fallback policy: the
/// first directly matching rule, else a loopback of the state, else the
/// `Default` state if one exists, else nothing (a compile error).
pub open spec fn resolve_cell(rules: Seq<RuleView>, state: Seq<char>, event: Seq<char>) -> Option<
    Seq<char>,
> {
    match first_match(rules, state, event) {
        Some(r) => Some(r.next.name()),
        None => if has_loopback_for(rules, state) {
            Some(state)
        } else if has_default_state(rules) {
            Some(default_name())
        } else {
            None
        },
    }
}

/// `first_match` returns the matching rule of least index.
pub proof fn lemma_first_match_is_first(
    rules: Seq<RuleView>,
    state: Seq<char>,
    event: Seq<char>,
    k: int,
)
    requires
        0 <= k < rules.len(),
        rule_matches(rules[k], state, event),
        forall|j: int| 0 <= j < k ==> !rule_matches(#[trigger] rules[j], state, event),
    ensures
        first_match(rules, state, event) == Some(rules[k]),
    decreases k,
{
    if k > 0 {
        lemma_first_match_is_first(rules.drop_first(), state, event, k - 1);
    }
}

/// When no rule matches, `first_match` finds nothing.
pub proof fn lemma_first_match_none(rules: Seq<RuleView>, state: Seq<char>, event: Seq<char>)
    requires
        forall|j: int| 0 <= j < rules.len() ==> !rule_matches(#[trigger] rules[j], state, event),
    ensures
        first_match(rules, state, event) is None,
    decreases rules.len(),
{
    if rules.len() > 0 {
        lemma_first_match_none(rules.drop_first(), state, event);
    }
}

/// Whatever `first_match` returns is one of the rules.
proof fn lemma_first_match_in_rules(rules: Seq<RuleView>, state: Seq<char>, event: Seq<char>)
    requires
        first_match(rules, state, event) is Some,
    ensures
        exists|k: int|
            0 <= k < rules.len() && rules[k] == first_match(rules, state, event)->Some_0,
    decreases rules.len(),
{
    if rules.len() > 0 && !rule_matches(rules[0], state, event) {
        lemma_first_match_in_rules(rules.drop_first(), state, event);
        let k = choose|k: int|
            0 <= k < rules.drop_first().len() && rules.drop_first()[k] == first_match(
                rules.drop_first(),
                state,
                event,
            )->Some_0;
        assert(rules[k + 1] == rules.drop_first()[k]);
    }
}

/// A first-occurrence list stays free of duplicates under insertion, and
/// holds exactly the old names and the inserted one.
proof fn lemma_insert_name_distinct(names: Seq<Seq<char>>, n: Seq<char>)
    requires
        forall|a: int, b: int|
            0 <= a < b < names.len() ==> #[trigger] names[a] != #[trigger] names[b],
    ensures
        forall|a: int, b: int|
            0 <= a < b < insert_name(names, n).len() ==> #[trigger] insert_name(names, n)[a]
                != #[trigger] insert_name(names, n)[b],
        insert_name(names, n).contains(n),
        forall|m: Seq<char>|
            #[trigger] insert_name(names, n).contains(m) <==> names.contains(m) || m == n,
{
    let res = insert_name(names, n);
    if !names.contains(n) {
        assert(res[names.len() as int] == n);
        assert(res.contains(n));
        assert forall|m: Seq<char>| #[trigger] res.contains(m) implies names.contains(m) || m
            == n by {
            let a = choose|a: int| 0 <= a < res.len() && res[a] == m;
            if a < names.len() {
                assert(names[a] == m);
            }
        }
        assert forall|m: Seq<char>| names.contains(m) || m == n implies #[trigger] res.contains(
            m,
        ) by {
            if names.contains(m) {
                let a = choose|a: int| 0 <= a < names.len() && names[a] == m;
                assert(res[a] == m);
            }
        }
        assert forall|a: int, b: int| 0 <= a < b < res.len() implies #[trigger] res[a]
            != #[trigger] res[b] by {
            if b == names.len() {
                assert(names[a] == res[a]);
                if res[a] == n {
                    assert(names.contains(n));
                }
            }
        }
    }
}

/// Whether rule `k` mentions `m` as its previous or its next state.
pub open spec fn mentions_state(rules: Seq<RuleView>, k: int, m: Seq<char>) -> bool {
    rules[k].prev.name() == m || rules[k].next.name() == m
}

/// Whether rule `k` carries `m` as its event.
pub open spec fn mentions_event(rules: Seq<RuleView>, k: int, m: Seq<char>) -> bool {
    rules[k].event.name() == m
}

/// The collected state names are distinct, and a name is collected exactly
/// when some rule mentions it as a previous or next state.
pub proof fn lemma_state_names(rules: Seq<RuleView>)
    ensures
        forall|a: int, b: int|
            0 <= a < b < state_names_of(rules).len() ==> #[trigger] state_names_of(rules)[a]
                != #[trigger] state_names_of(rules)[b],
        forall|m: Seq<char>|
            #[trigger] state_names_of(rules).contains(m) <==> exists|k: int|
                0 <= k < rules.len() && #[trigger] mentions_state(rules, k, m),
    decreases rules.len(),
{
    if rules.len() > 0 {
        let prefix = rules.drop_last();
        lemma_state_names(prefix);
        let s0 = state_names_of(prefix);
        let s1 = insert_name(s0, rules.last().prev.name());
        let s2 = insert_name(s1, rules.last().next.name());
        lemma_insert_name_distinct(s0, rules.last().prev.name());
        lemma_insert_name_distinct(s1, rules.last().next.name());
        assert(rules[rules.len() - 1] == rules.last());
        assert forall|m: Seq<char>| #[trigger] state_names_of(rules).contains(m) implies exists|
            k: int,
        | 0 <= k < rules.len() && #[trigger] mentions_state(rules, k, m) by {
            if s0.contains(m) {
                let k = choose|k: int| 0 <= k < prefix.len() && #[trigger] mentions_state(prefix, k, m);
                assert(rules[k] == prefix[k]);
                assert(mentions_state(rules, k, m));
            } else {
                assert(mentions_state(rules, rules.len() - 1, m));
            }
        }
        assert forall|m: Seq<char>|
            (exists|k: int| 0 <= k < rules.len() && #[trigger] mentions_state(rules, k, m)) implies
            #[trigger] state_names_of(rules).contains(m) by {
            let k = choose|k: int| 0 <= k < rules.len() && #[trigger] mentions_state(rules, k, m);
            if k < rules.len() - 1 {
                assert(prefix[k] == rules[k]);
                assert(mentions_state(prefix, k, m));
                assert(s0.contains(m));
            } else {
                assert(rules.last().prev.name() == m || rules.last().next.name() == m);
                assert(s1.contains(rules.last().prev.name()));
            }
            assert(s2.contains(m));
        }
    }
}

/// The collected event names are distinct, and a name is collected exactly
/// when some rule carries it as its event.
pub proof fn lemma_event_names(rules: Seq<RuleView>)
    ensures
        forall|a: int, b: int|
            0 <= a < b < event_names_of(rules).len() ==> #[trigger] event_names_of(rules)[a]
                != #[trigger] event_names_of(rules)[b],
        forall|m: Seq<char>|
            #[trigger] event_names_of(rules).contains(m) <==> exists|k: int|
                0 <= k < rules.len() && #[trigger] mentions_event(rules, k, m),
    decreases rules.len(),
{
    if rules.len() > 0 {
        let prefix = rules.drop_last();
        lemma_event_names(prefix);
        let s0 = event_names_of(prefix);
        let s1 = insert_name(s0, rules.last().event.name());
        lemma_insert_name_distinct(s0, rules.last().event.name());
        assert(rules[rules.len() - 1] == rules.last());
        assert forall|m: Seq<char>| #[trigger] event_names_of(rules).contains(m) implies exists|
            k: int,
        | 0 <= k < rules.len() && #[trigger] mentions_event(rules, k, m) by {
            if s0.contains(m) {
                let k = choose|k: int| 0 <= k < prefix.len() && #[trigger] mentions_event(prefix, k, m);
                assert(rules[k] == prefix[k]);
                assert(mentions_event(rules, k, m));
            } else {
                assert(mentions_event(rules, rules.len() - 1, m));
            }
        }
        assert forall|m: Seq<char>|
            (exists|k: int| 0 <= k < rules.len() && #[trigger] mentions_event(rules, k, m)) implies
            #[trigger] event_names_of(rules).contains(m) by {
            let k = choose|k: int| 0 <= k < rules.len() && #[trigger] mentions_event(rules, k, m);
            if k < rules.len() - 1 {
                assert(prefix[k] == rules[k]);
                assert(mentions_event(prefix, k, m));
                assert(s0.contains(m));
            } else {
                assert(rules.last().event.name() == m);
            }
            assert(s1.contains(m));
        }
    }
}

/// A resolved cell's name is always a collected state name.
proof fn lemma_resolve_in_states(rules: Seq<RuleView>, state: Seq<char>, event: Seq<char>)
    requires
        state_names_of(rules).contains(state),
        resolve_cell(rules, state, event) is Some,
    ensures
        state_names_of(rules).contains(resolve_cell(rules, state, event)->Some_0),
{
    lemma_state_names(rules);
    match first_match(rules, state, event) {
        Some(r) => {
            lemma_first_match_in_rules(rules, state, event);
            let k = choose|k: int| 0 <= k < rules.len() && rules[k] == r;
            assert(mentions_state(rules, k, r.next.name()));
            assert(state_names_of(rules).contains(r.next.name()));
        },
        None => {},
    }
}

/// The position of a name in a name list, if it is present.
fn index_of_name(names: &Vec<String>, name: &String) -> (r: Option<usize>)
    ensures
        match r {
            Some(i) => i < names@.len() && names.deep_view()[i as int] == name@,
            None => !names.deep_view().contains(name@),
        },
{
    let n = names.len();
    let mut k: usize = 0;
    while k < n
        invariant
            k <= n,
            n == names@.len(),
            forall|a: int| 0 <= a < k ==> #[trigger] names.deep_view()[a] != name@,
        decreases n - k,
    {
        if names[k] == *name {
            return Some(k);
        }
        k = k + 1;
    }
    None
}

/// Appends a name unless an equal one is already present.
fn push_unique(names: &mut Vec<String>, name: String)
    ensures
        final(names).deep_view() == insert_name(old(names).deep_view(), name@),
{
    let ghost nv = name@;
    let found = index_of_name(names, &name);
    match found {
        Some(i) => {
            proof {
                assert(old(names).deep_view()[i as int] == nv);
                assert(old(names).deep_view().contains(nv));
            }
        },
        None => {
            names.push(name);
            proof {
                assert(names.deep_view() =~= old(names).deep_view().push(nv));
            }
        },
    }
}

/// Collects the distinct state names and the distinct event names of a rule
/// list, each in first-occurrence order.
fn collect_symbols(rules: &Vec<Transition>) -> (r: (Vec<String>, Vec<String>))
    ensures
        r.0.deep_view() == state_names_of(rules.deep_view()),
        r.1.deep_view() == event_names_of(rules.deep_view()),
{
    let ghost rv = rules.deep_view();
    let mut states: Vec<String> = Vec::new();
    let mut events: Vec<String> = Vec::new();
    proof {
        assert(rv.take(0) =~= Seq::<RuleView>::empty());
        assert(states.deep_view() =~= state_names_of(rv.take(0)));
        assert(events.deep_view() =~= event_names_of(rv.take(0)));
    }
    let n = rules.len();
    let mut k: usize = 0;
    while k < n
        invariant
            k <= n,
            n == rules@.len(),
            rv == rules.deep_view(),
            states.deep_view() == state_names_of(rv.take(k as int)),
            events.deep_view() == event_names_of(rv.take(k as int)),
        decreases n - k,
    {
        let prev_name = rules[k].prev_state.get_name();
        let next_name = rules[k].next_state.get_name();
        let event_name = rules[k].event.get_name();
        push_unique(&mut states, prev_name);
        push_unique(&mut states, next_name);
        push_unique(&mut events, event_name);
        proof {
            let t1 = rv.take(k as int + 1);
            assert(t1.drop_last() =~= rv.take(k as int));
            assert(t1.last() == rv[k as int]);
        }
        k = k + 1;
    }
    proof {
        assert(rv.take(n as int) =~= rv);
    }
    (states, events)
}

/// True when the symbol's name is `name`.
fn item_matches_name(item: &TransitionItem, name: &String) -> (r: bool)
    ensures
        r == (item@.name() == name@),
{
    let n = item.get_name();
    n == *name
}

/// The index of the first rule in source order that directly matches
/// `(state, event)`, if any.
fn find_first_match(rules: &Vec<Transition>, state: &String, event: &String) -> (r: Option<usize>)
    ensures
        match r {
            Some(k) => k < rules@.len() && first_match(rules.deep_view(), state@, event@) == Some(
                rules.deep_view()[k as int],
            ),
            None => first_match(rules.deep_view(), state@, event@) is None,
        },
{
    let ghost rv = rules.deep_view();
    let n = rules.len();
    let mut k: usize = 0;
    while k < n
        invariant
            k <= n,
            n == rules@.len(),
            rv == rules.deep_view(),
            forall|j: int| 0 <= j < k ==> !rule_matches(#[trigger] rv[j], state@, event@),
        decreases n - k,
    {
        let prev_ok = item_matches_name(&rules[k].prev_state, state);
        let event_ok = item_matches_name(&rules[k].event, event);
        if prev_ok && event_ok {
            proof {
                lemma_first_match_is_first(rv, state@, event@, k as int);
            }
            return Some(k);
        }
        k = k + 1;
    }
    proof {
        lemma_first_match_none(rv, state@, event@);
    }
    None
}

/// The index of some loopback rule for `state`, if any.
fn find_loopback(rules: &Vec<Transition>, state: &String) -> (r: Option<usize>)
    ensures
        match r {
            Some(k) => k < rules@.len() && has_loopback_for(rules.deep_view(), state@),
            None => !has_loopback_for(rules.deep_view(), state@),
        },
{
    let ghost rv = rules.deep_view();
    let n = rules.len();
    let mut k: usize = 0;
    while k < n
        invariant
            k <= n,
            n == rules@.len(),
            rv == rules.deep_view(),
            forall|j: int|
                0 <= j < k ==> !((#[trigger] rv[j]).prev.name() == state@ && rv[j].is_loopback()),
        decreases n - k,
    {
        let prev_ok = item_matches_name(&rules[k].prev_state, state);
        if prev_ok && rules[k].is_loopback() {
            proof {
                assert((rv[k as int]).prev.name() == state@ && rv[k as int].is_loopback());
            }
            return Some(k);
        }
        k = k + 1;
    }
    None
}

/// Resolves one table cell to the name of its next state, through the
/// three fallback tiers; `None` means the cell is unresolvable.
fn resolve_cell_exec(
    rules: &Vec<Transition>,
    has_default: bool,
    state: &String,
    event: &String,
) -> (r: Option<String>)
    requires
        has_default == has_default_state(rules.deep_view()),
    ensures
        match r {
            Some(name) => resolve_cell(rules.deep_view(), state@, event@) == Some(name@),
            None => resolve_cell(rules.deep_view(), state@, event@) is None,
        },
{
    match find_first_match(rules, state, event) {
        Some(k) => Some(rules[k].next_state.get_name()),
        None => match find_loopback(rules, state) {
            Some(_k) => Some(state.clone()),
            None => if has_default {
                Some(String::from_str("Default"))
            } else {
                None
            },
        },
    }
}

/// A `(state, event)` pair that survived all three fallback tiers with no
/// resolution: no explicit rule, no loopback, and no `Default` state to fall
/// back on.
#[derive(Debug, Clone)]
pub struct UnresolvedTransitionError {
    pub state: String,
    pub event: String,
}

/// The fully resolved machine: the distinct state and event names, each
/// name's id being its position, and the dense `states x events` table of
/// next-state ids.
#[derive(Debug)]
pub struct CompiledTable {
    pub states: Vec<String>,
    pub events: Vec<String>,
    pub table: Vec<Vec<usize>>,
}

impl CompiledTable {
    /// Well-formedness: names are distinct, the table is dense, and every
    /// cell holds a valid state id.
    pub open spec fn wf(self) -> bool {
        &&& forall|a: int, b: int|
            0 <= a < b < self.states@.len() ==> #[trigger] self.states.deep_view()[a]
                != #[trigger] self.states.deep_view()[b]
        &&& forall|a: int, b: int|
            0 <= a < b < self.events@.len() ==> #[trigger] self.events.deep_view()[a]
                != #[trigger] self.events.deep_view()[b]
        &&& self.table@.len() == self.states@.len()
        &&& forall|i: int| 0 <= i < self.table@.len() ==> (#[trigger] self.table@[i])@.len()
            == self.events@.len()
        &&& forall|i: int, j: int|
            0 <= i < self.table@.len() && 0 <= j < self.events@.len()
                ==> (#[trigger] self.table@[i]@[j]) < self.states@.len()
    }

    /// What it means for this table to be the compilation of `rules`: it is
    /// well-formed, its name lists are the collected names in
    /// first-occurrence order, and every cell holds the id of the name the
    /// fallback policy resolves that cell to.
    pub open spec fn compiled_from(self, rules: Seq<RuleView>) -> bool {
        &&& self.wf()
        &&& self.states.deep_view() == state_names_of(rules)
        &&& self.events.deep_view() == event_names_of(rules)
        &&& forall|i: int, j: int|
            0 <= i < self.states@.len() && 0 <= j < self.events@.len() ==> resolve_cell(
                rules,
                self.states.deep_view()[i],
                self.events.deep_view()[j],
            ) == Some(self.states.deep_view()[(#[trigger] self.table@[i]@[j]) as int])
    }

    /// The total runtime lookup: the next state's id for a state id and an
    /// event id.  Totality was established at compile time, so there is no
    /// error path.
    pub fn advance(&self, state_id: usize, event_id: usize) -> (r: usize)
        requires
            self.wf(),
            state_id < self.states@.len(),
            event_id < self.events@.len(),
        ensures
            r == self.table@[state_id as int]@[event_id as int],
            r < self.states@.len(),
    {
        self.table[state_id][event_id]
    }

    /// The id assigned to a state name, if the name is a state.
    pub fn state_id(&self, name: &String) -> (r: Option<usize>)
        ensures
            match r {
                Some(i) => i < self.states@.len() && self.states.deep_view()[i as int] == name@,
                None => !self.states.deep_view().contains(name@),
            },
    {
        index_of_name(&self.states, name)
    }

    /// The id assigned to an event name, if the name is an event.
    pub fn event_id(&self, name: &String) -> (r: Option<usize>)
        ensures
            match r {
                Some(i) => i < self.events@.len() && self.events.deep_view()[i as int] == name@,
                None => !self.events.deep_view().contains(name@),
            },
    {
        index_of_name(&self.events, name)
    }

    /// The state name assigned a given id.
    pub fn state_name(&self, id: usize) -> (r: &String)
        requires
            id < self.states@.len(),
        ensures
            r@ == self.states.deep_view()[id as int],
    {
        &self.states[id]
    }
}

/// Whether the cell at state id `i` and event id `j` is unresolvable.
pub open spec fn unresolved_at(rules: Seq<RuleView>, i: int, j: int) -> bool {
    resolve_cell(rules, state_names_of(rules)[i], event_names_of(rules)[j]) is None
}

/// Whether `(i, j)` is the first unresolvable cell in id order.
pub open spec fn first_unresolved(rules: Seq<RuleView>, i: int, j: int) -> bool {
    &&& 0 <= i < state_names_of(rules).len()
    &&& 0 <= j < event_names_of(rules).len()
    &&& unresolved_at(rules, i, j)
    &&& forall|i2: int, j2: int|
        0 <= i2 < state_names_of(rules).len() && 0 <= j2 < event_names_of(rules).len() && (i2 < i
            || (i2 == i && j2 < j)) ==> !(#[trigger] unresolved_at(rules, i2, j2))
}

/// Compiles an ordered rule list into a fully resolved table, or reports
/// the first `(state, event)` pair, in id order, that no tier resolves.
pub fn compile(rules: &Vec<Transition>) -> (r: Result<CompiledTable, UnresolvedTransitionError>)
    ensures
        match r {
            Ok(t) => t.compiled_from(rules.deep_view()),
            Err(e) => exists|i: int, j: int|
                {
                    &&& #[trigger] first_unresolved(rules.deep_view(), i, j)
                    &&& e.state@ == state_names_of(rules.deep_view())[i]
                    &&& e.event@ == event_names_of(rules.deep_view())[j]
                },
        },
{
    let ghost rv = rules.deep_view();
    let (states, events) = collect_symbols(rules);
    let ghost sn = states.deep_view();
    let ghost en = events.deep_view();
    let default_label = String::from_str("Default");
    let has_default = match index_of_name(&states, &default_label) {
        Some(i) => {
            proof {
                assert(sn[i as int] == default_name());
                assert(sn.contains(default_name()));
            }
            true
        },
        None => false,
    };
    let n_states = states.len();
    let n_events = events.len();
    let mut table: Vec<Vec<usize>> = Vec::new();
    let mut i: usize = 0;
    while i < n_states
        invariant
            i <= n_states,
            n_states == states@.len(),
            n_events == events@.len(),
            rv == rules.deep_view(),
            sn == states.deep_view(),
            en == events.deep_view(),
            sn == state_names_of(rv),
            en == event_names_of(rv),
            has_default == has_default_state(rv),
            table@.len() == i,
            forall|a: int| 0 <= a < i ==> (#[trigger] table@[a])@.len() == n_events,
            forall|a: int, b: int|
                0 <= a < i && 0 <= b < n_events ==> (#[trigger] table@[a]@[b]) < n_states
                    && resolve_cell(rv, sn[a], en[b]) == Some(sn[table@[a]@[b] as int]),
        decreases n_states - i,
    {
        let mut row: Vec<usize> = Vec::new();
        let mut j: usize = 0;
        while j < n_events
            invariant
                i < n_states,
                j <= n_events,
                n_states == states@.len(),
                n_events == events@.len(),
                rv == rules.deep_view(),
                sn == states.deep_view(),
                en == events.deep_view(),
                sn == state_names_of(rv),
                en == event_names_of(rv),
                has_default == has_default_state(rv),
                table@.len() == i,
                forall|a: int| 0 <= a < i ==> (#[trigger] table@[a])@.len() == n_events,
                forall|a: int, b: int|
                    0 <= a < i && 0 <= b < n_events ==> (#[trigger] table@[a]@[b]) < n_states
                        && resolve_cell(rv, sn[a], en[b]) == Some(sn[table@[a]@[b] as int]),
                row@.len() == j,
                forall|b: int|
                    0 <= b < j ==> (#[trigger] row@[b]) < n_states && resolve_cell(rv, sn[i as int], en[b])
                        == Some(sn[row@[b] as int]),
            decreases n_events - j,
        {
            match resolve_cell_exec(rules, has_default, &states[i], &events[j]) {
                Some(name) => {
                    match index_of_name(&states, &name) {
                        Some(id) => {
                            row.push(id);
                        },
                        None => {
                            proof {
                                assert(sn.contains(sn[i as int]));
                                lemma_resolve_in_states(rv, sn[i as int], en[j as int]);
                            }
                            unreached()
                        },
                    }
                },
                None => {
                    let err = UnresolvedTransitionError {
                        state: states[i].clone(),
                        event: events[j].clone(),
                    };
                    proof {
                        assert forall|i2: int, j2: int|
                            0 <= i2 < sn.len() && 0 <= j2 < en.len() && (i2 < i as int || (i2
                                == i as int && j2 < j as int)) implies !(#[trigger] unresolved_at(
                            rv,
                            i2,
                            j2,
                        )) by {
                            if i2 < i as int {
                                assert((table@[i2]@[j2]) < n_states);
                            } else {
                                assert((row@[j2]) < n_states);
                            }
                        }
                        assert(unresolved_at(rv, i as int, j as int));
                        assert(first_unresolved(rv, i as int, j as int));
                    }
                    return Err(err);
                },
            }
            j = j + 1;
        }
        table.push(row);
        i = i + 1;
    }
    let t = CompiledTable { states, events, table };
    proof {
        lemma_state_names(rv);
        lemma_event_names(rv);
    }
    Ok(t)
}

/// Either of the two fatal compile-time failures: the text does not
/// conform to the grammar, or a table cell is unresolvable.
#[derive(Debug, Clone)]
pub enum CompileError {
    Syntax(SyntaxError),
    Unresolved(UnresolvedTransitionError),
}

/// Compiles a specification text all the way to a resolved table: parses
/// the rule list and resolves every cell, or reports the first failure.
pub fn compile_text(input: &str) -> (r: Result<CompiledTable, CompileError>)
    ensures
        match r {
            Ok(t) => parse_spec(input@) is Some && t.compiled_from(parse_spec(input@)->Some_0),
            Err(e) => match e {
                CompileError::Syntax(se) => parse_spec(input@) is None && se.pos <= input@.len(),
                CompileError::Unresolved(ue) => parse_spec(input@) is Some && exists|i: int, j: int|
                    {
                        &&& #[trigger] first_unresolved(parse_spec(input@)->Some_0, i, j)
                        &&& ue.state@ == state_names_of(parse_spec(input@)->Some_0)[i]
                        &&& ue.event@ == event_names_of(parse_spec(input@)->Some_0)[j]
                    },
            },
        },
{
    match (TransitionParser {  }).parse2(input) {
        Err(se) => Err(CompileError::Syntax(se)),
        Ok(rules) => {
            proof {
                assert(parse_spec(input@)->Some_0 == rules.deep_view());
            }
            match compile(&rules) {
                Ok(t) => Ok(t),
                Err(ue) => Err(CompileError::Unresolved(ue)),
            }
        },
    }
}

} // verus!
