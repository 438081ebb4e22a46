use fsm_table::parse::{SyntaxError, Transition, TransitionItem, TransitionParser};

fn parse(input: &str) -> Result<Vec<Transition>, SyntaxError> {
    TransitionParser {}.parse2(input)
}

#[test]
fn single_rule_with_event() {
    let rules = parse("A(R) => AR").unwrap();
    assert_eq!(rules.len(), 1);
    assert_eq!(rules[0].prev_state.get_name(), "A");
    assert_eq!(rules[0].event.get_name(), "R");
    assert_eq!(rules[0].next_state.get_name(), "AR");
}

#[test]
fn bare_arrow_means_default_event() {
    let rules = parse("A => B").unwrap();
    assert_eq!(rules.len(), 1);
    assert!(matches!(rules[0].event, TransitionItem::Default));
    assert_eq!(rules[0].event.get_name(), "Default");
}

#[test]
fn empty_parens_mean_default_event() {
    let rules = parse("A() => B").unwrap();
    assert_eq!(rules.len(), 1);
    assert!(matches!(rules[0].event, TransitionItem::Default));
}

#[test]
fn dollar_is_the_default_marker() {
    let rules = parse("$(A) => A, A => $").unwrap();
    assert_eq!(rules.len(), 2);
    assert!(matches!(rules[0].prev_state, TransitionItem::Default));
    assert_eq!(rules[0].prev_state.get_name(), "Default");
    assert!(matches!(rules[1].next_state, TransitionItem::Default));
}

#[test]
fn whitespace_is_ignored_between_tokens() {
    let rules = parse("  A ( R )\n =>\t B ").unwrap();
    assert_eq!(rules.len(), 1);
    assert_eq!(rules[0].prev_state.get_name(), "A");
    assert_eq!(rules[0].event.get_name(), "R");
    assert_eq!(rules[0].next_state.get_name(), "B");
}

#[test]
fn rule_order_is_preserved() {
    let rules = parse("A(x) => B, B(y) => C, C(z) => A").unwrap();
    let names: Vec<String> = rules.iter().map(|r| r.prev_state.get_name()).collect();
    assert_eq!(names, vec!["A", "B", "C"]);
}

#[test]
fn empty_specification_is_rejected() {
    assert!(parse("").is_err());
    assert!(parse("   ").is_err());
}

#[test]
fn missing_arrow_is_rejected() {
    assert!(parse("A B").is_err());
    assert!(parse("A(R) AR").is_err());
}

#[test]
fn dangling_arrow_is_rejected() {
    assert!(parse("A =>").is_err());
}

#[test]
fn trailing_comma_is_rejected() {
    assert!(parse("A => B,").is_err());
}

#[test]
fn trailing_garbage_is_rejected() {
    let err = parse("A => B x").unwrap_err();
    assert_eq!(err.pos, 7);
}

#[test]
fn unclosed_event_clause_is_rejected() {
    assert!(parse("A(R => B").is_err());
}

#[test]
fn bad_symbol_is_rejected() {
    assert!(parse("1A => B").is_err());
    assert!(parse("A => 2B").is_err());
}

#[test]
fn get_name_of_named_symbol() {
    let item = TransitionItem::Named(String::from("Locked"));
    assert_eq!(item.get_name(), "Locked");
}

#[test]
fn item_equality_is_structural() {
    assert_eq!(TransitionItem::Default, TransitionItem::Default);
    assert_eq!(
        TransitionItem::Named(String::from("A")),
        TransitionItem::Named(String::from("A"))
    );
    assert_ne!(
        TransitionItem::Named(String::from("A")),
        TransitionItem::Named(String::from("B"))
    );
    // The marker and an identifier spelled `Default` share a name but are
    // distinct values.
    assert_ne!(TransitionItem::Default, TransitionItem::Named(String::from("Default")));
}

#[test]
fn default_constructs_the_marker() {
    let item: TransitionItem = Default::default();
    assert!(matches!(item, TransitionItem::Default));
}

#[test]
fn loopback_requires_same_name_and_default_event() {
    let rules = parse("A => A, A => B, A(R) => A, $ => Default, Default(Default) => Default")
        .unwrap();
    assert!(rules[0].is_loopback());
    assert!(!rules[1].is_loopback());
    assert!(!rules[2].is_loopback());
    // The `$` marker and the literal name `Default` are the same name.
    assert!(rules[3].is_loopback());
    // An event spelled `Default` counts as the default event.
    assert!(rules[4].is_loopback());
}
