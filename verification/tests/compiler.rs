use fsm_table::table::{compile, compile_text, CompileError, CompiledTable};
use fsm_table::parse::TransitionParser;

fn compiled(input: &str) -> CompiledTable {
    compile_text(input).unwrap()
}

fn sid(t: &CompiledTable, name: &str) -> usize {
    t.state_id(&name.to_string()).unwrap()
}

fn eid(t: &CompiledTable, name: &str) -> usize {
    t.event_id(&name.to_string()).unwrap()
}

#[test]
fn totality_of_a_compiled_table() {
    let t = compiled("$(A) => A, A(R) => AR, A(A) => A, A => $, AR(A) => A, AR(C) => ARC, AR(T) => ART, AR => $, ARC => ARC, ART => ART");
    assert_eq!(t.table.len(), t.states.len());
    for row in &t.table {
        assert_eq!(row.len(), t.events.len());
        for &cell in row {
            assert!(cell < t.states.len());
        }
    }
}

#[test]
fn direct_match() {
    let t = compiled("X(e) => Y, X => X, Y => Y");
    assert_eq!(t.advance(sid(&t, "X"), eid(&t, "e")), sid(&t, "Y"));
}

#[test]
fn first_match_wins() {
    let t = compiled("X(e) => Y, X(e) => Z, X => X, Y => Y, Z => Z");
    assert_eq!(t.advance(sid(&t, "X"), eid(&t, "e")), sid(&t, "Y"));
}

#[test]
fn loopback_fallback() {
    let t = compiled("X => X, X(a) => Y, Y => Y");
    // No rule matches (Y, a); the loopback keeps Y in place.
    assert_eq!(t.advance(sid(&t, "Y"), eid(&t, "a")), sid(&t, "Y"));
    // The loopback rule itself is the direct match for (X, Default).
    assert_eq!(t.advance(sid(&t, "X"), eid(&t, "Default")), sid(&t, "X"));
}

#[test]
fn default_state_fallback() {
    let t = compiled("$ => $, Y(a) => Z");
    let d = sid(&t, "Default");
    // (Z, a) has no rule and no loopback; the Default state catches it.
    assert_eq!(t.advance(sid(&t, "Z"), eid(&t, "a")), d);
    // So does (Y, Default).
    assert_eq!(t.advance(sid(&t, "Y"), eid(&t, "Default")), d);
}

#[test]
fn a_literal_default_state_acts_as_the_fallback() {
    // The open design question: a state literally named `Default` is not
    // distinguished from the `$` marker, so it serves as the catch-all.
    let t = compiled("Default => Default, Y(a) => Z");
    assert_eq!(t.advance(sid(&t, "Z"), eid(&t, "a")), sid(&t, "Default"));
}

#[test]
fn unresolved_rejection() {
    match compile_text("A(R) => B") {
        Err(CompileError::Unresolved(e)) => {
            assert_eq!(e.state, "B");
            assert_eq!(e.event, "R");
        },
        _ => panic!("expected an unresolved (B, R) cell"),
    }
}

#[test]
fn syntax_error_is_reported() {
    match compile_text("A => ") {
        Err(CompileError::Syntax(_)) => {},
        _ => panic!("expected a syntax error"),
    }
}

#[test]
fn determinism() {
    let text = "$(A) => A, A(R) => AR, A => $, AR => AR";
    let t1 = compiled(text);
    let t2 = compiled(text);
    assert_eq!(t1.states, t2.states);
    assert_eq!(t1.events, t2.events);
    assert_eq!(t1.table, t2.table);
}

#[test]
fn symbols_are_collected_once_in_first_occurrence_order() {
    let t = compiled("A(x) => B, B(x) => A, A => A, B => B");
    assert_eq!(t.states, vec!["A".to_string(), "B".to_string()]);
    assert_eq!(t.events, vec!["x".to_string(), "Default".to_string()]);
}

#[test]
fn compile_from_parsed_rules() {
    let rules = TransitionParser {}.parse2("X(e) => Y, X => X, Y => Y").unwrap();
    let t = compile(&rules).unwrap();
    assert_eq!(t.advance(sid(&t, "X"), eid(&t, "e")), sid(&t, "Y"));
}

#[test]
fn state_names_round_trip_through_ids() {
    let t = compiled("X(e) => Y, X => X, Y => Y");
    for id in 0..t.states.len() {
        assert_eq!(sid(&t, t.state_name(id).as_str()), id);
    }
    assert!(t.state_id(&"absent".to_string()).is_none());
    assert!(t.event_id(&"absent".to_string()).is_none());
}

#[test]
fn end_to_end_example() {
    let t = compiled("$(A) => A, A(R) => AR, A(A) => A, A => $, AR(A) => A, AR(C) => ARC, AR(T) => ART, AR => $, ARC => ARC, ART => ART");
    let a = eid(&t, "A");
    let r = eid(&t, "R");
    let c = eid(&t, "C");

    // A, R, C drives Default -> A -> AR -> ARC.
    let mut s = sid(&t, "Default");
    s = t.advance(s, a);
    assert_eq!(s, sid(&t, "A"));
    s = t.advance(s, r);
    assert_eq!(s, sid(&t, "AR"));
    s = t.advance(s, c);
    assert_eq!(s, sid(&t, "ARC"));

    // A, R, A drives Default -> A -> AR -> A.
    let mut s = sid(&t, "Default");
    s = t.advance(s, a);
    s = t.advance(s, r);
    s = t.advance(s, a);
    assert_eq!(s, sid(&t, "A"));
}
