//! The grammar of transition rules and its parser.
//!
//! A specification is one or more rules separated by commas.  Each rule is
//! written `Prev ( Event )? => Next`: the parenthesized event clause is
//! optional, and an empty clause `()` means the same as no clause at all,
//! the reserved `Default` event.  Symbols are identifiers or the `$` marker,
//! which stands for the name `Default`.

use vstd::prelude::*;

verus! {

/// The reserved placeholder name.  The `$` marker and a literal identifier
/// `Default` both resolve to this name; the compiler deliberately does not
/// tell the two apart (matching is by name throughout).
pub open spec fn default_name() -> Seq<char> {
    "Default"@
}

/// Abstract value of a `TransitionItem`: the reserved marker or a named
/// identifier.
pub enum SymbolView {
    Marker,
    Name(Seq<char>),
}

impl SymbolView {
    /// The name a symbol stands for; the marker stands for the literal name
    /// `Default`.
    pub open spec fn name(self) -> Seq<char> {
        match self {
            SymbolView::Marker => default_name(),
            SymbolView::Name(n) => n,
        }
    }
}

/// One symbol of the transition grammar: the `$` marker (the reserved
/// `Default` placeholder) or an ordinary identifier.
#[derive(Debug, Clone)]
pub enum TransitionItem {
    Default,
    Named(String),
}

impl View for TransitionItem {
    type V = SymbolView;

    open spec fn view(&self) -> SymbolView {
        match self {
            TransitionItem::Default => SymbolView::Marker,
            TransitionItem::Named(s) => SymbolView::Name(s@),
        }
    }
}

impl DeepView for TransitionItem {
    type V = SymbolView;

    open spec fn deep_view(&self) -> SymbolView {
        self.view()
    }
}

impl TransitionItem {
    /// The name of this symbol; the reserved marker's name is `Default`.
    pub fn get_name(&self) -> (r: String)
        ensures
            r@ == self@.name(),
    {
        match self {
            TransitionItem::Default => String::from_str("Default"),
            TransitionItem::Named(name) => name.clone(),
        }
    }
}

impl Default for TransitionItem {
    fn default() -> (r: Self)
        ensures
            r == TransitionItem::Default,
    {
        TransitionItem::Default
    }
}

impl PartialEq for TransitionItem {
    /// Structural equality: the marker only equals the marker, and named
    /// symbols compare by their names.
    fn eq(&self, other: &TransitionItem) -> (r: bool) {
        match (self, other) {
            (TransitionItem::Default, TransitionItem::Default) => true,
            (TransitionItem::Named(a), TransitionItem::Named(b)) => *a == *b,
            _ => false,
        }
    }
}

impl vstd::std_specs::cmp::PartialEqSpecImpl for TransitionItem {
    open spec fn obeys_eq_spec() -> bool {
        true
    }

    open spec fn eq_spec(&self, other: &TransitionItem) -> bool {
        match (self, other) {
            (TransitionItem::Default, TransitionItem::Default) => true,
            (TransitionItem::Named(a), TransitionItem::Named(b)) => a@ == b@,
            _ => false,
        }
    }
}

/// True when the symbol's name is the reserved `Default` name, whether it is
/// the marker itself or an identifier spelled `Default`.
pub fn is_default_item(item: &TransitionItem) -> (r: bool)
    ensures
        r == (item@.name() == default_name()),
{
    match item {
        TransitionItem::Default => true,
        TransitionItem::Named(s) => {
            let d = String::from_str("Default");
            *s == d
        },
    }
}

/// True when the two symbols carry the same name.
pub fn item_name_eq(a: &TransitionItem, b: &TransitionItem) -> (r: bool)
    ensures
        r == (a@.name() == b@.name()),
{
    let an = a.get_name();
    let bn = b.get_name();
    an == bn
}

/// Abstract value of a `Transition` rule.
pub struct RuleView {
    pub prev: SymbolView,
    pub event: SymbolView,
    pub next: SymbolView,
}

impl RuleView {
    /// A loopback keeps the machine in place on no specific event: the
    /// previous and next state share a name and the event is the reserved
    /// `Default` name.
    pub open spec fn is_loopback(self) -> bool {
        self.prev.name() == self.next.name() && self.event.name() == default_name()
    }
}

/// One transition rule: on `event` in state `prev_state`, move to
/// `next_state`.
#[derive(Debug, Clone)]
pub struct Transition {
    pub prev_state: TransitionItem,
    pub event: TransitionItem,
    pub next_state: TransitionItem,
}

impl View for Transition {
    type V = RuleView;

    open spec fn view(&self) -> RuleView {
        RuleView { prev: self.prev_state@, event: self.event@, next: self.next_state@ }
    }
}

impl DeepView for Transition {
    type V = RuleView;

    open spec fn deep_view(&self) -> RuleView {
        self.view()
    }
}

impl Transition {
    /// Whether this rule is a loopback: previous and next state share a name
    /// and the event is the reserved `Default` name.
    pub fn is_loopback(&self) -> (r: bool)
        ensures
            r == self@.is_loopback(),
    {
        item_name_eq(&self.prev_state, &self.next_state) && is_default_item(&self.event)
    }
}

/// Whitespace accepted between tokens.
pub open spec fn is_space(c: char) -> bool {
    c == ' ' || c == '\t' || c == '\n' || c == '\r'
}

/// Characters that may open an identifier: ASCII letters and underscore.
pub open spec fn is_ident_start(c: char) -> bool {
    ('A' <= c && c <= 'Z') || ('a' <= c && c <= 'z') || c == '_'
}

/// Characters that may continue an identifier: ASCII letters, digits and
/// underscore.
pub open spec fn is_ident_char(c: char) -> bool {
    is_ident_start(c) || ('0' <= c && c <= '9')
}

/// The position of the first non-space character at or after `i`.
pub open spec fn skip_ws(s: Seq<char>, i: int) -> int
    decreases s.len() - i,
{
    if 0 <= i < s.len() && is_space(s[i]) {
        skip_ws(s, i + 1)
    } else {
        i
    }
}

/// The position of the first non-identifier character at or after `i`.
pub open spec fn ident_end(s: Seq<char>, i: int) -> int
    decreases s.len() - i,
{
    if 0 <= i < s.len() && is_ident_char(s[i]) {
        ident_end(s, i + 1)
    } else {
        i
    }
}

proof fn lemma_skip_ws_bounds(s: Seq<char>, i: int)
    requires
        0 <= i <= s.len(),
    ensures
        i <= skip_ws(s, i) <= s.len(),
    decreases s.len() - i,
{
    if i < s.len() && is_space(s[i]) {
        lemma_skip_ws_bounds(s, i + 1);
    }
}

proof fn lemma_ident_end_bounds(s: Seq<char>, i: int)
    requires
        0 <= i <= s.len(),
    ensures
        i <= ident_end(s, i) <= s.len(),
    decreases s.len() - i,
{
    if i < s.len() && is_ident_char(s[i]) {
        lemma_ident_end_bounds(s, i + 1);
    }
}

/// One symbol at position `i` (no leading whitespace): the `$` marker or an
/// identifier.  Yields the symbol and the position just past it.
pub open spec fn item_at(s: Seq<char>, i: int) -> Option<(SymbolView, int)> {
    if 0 <= i < s.len() && s[i] == '$' {
        Some((SymbolView::Marker, i + 1))
    } else if 0 <= i < s.len() && is_ident_start(s[i]) {
        let j = ident_end(s, i + 1);
        Some((SymbolView::Name(s.subrange(i, j)), j))
    } else {
        None
    }
}

/// The optional parenthesized event clause at position `i`.  An absent
/// clause and an empty clause `()` both yield the reserved marker.
pub open spec fn event_clause_at(s: Seq<char>, i: int) -> Option<(SymbolView, int)> {
    let j = skip_ws(s, i);
    if !(0 <= j < s.len() && s[j] == '(') {
        Some((SymbolView::Marker, i))
    } else {
        let k = skip_ws(s, j + 1);
        if 0 <= k < s.len() && s[k] == ')' {
            Some((SymbolView::Marker, k + 1))
        } else {
            match item_at(s, k) {
                None => None,
                Some((ev, m)) => {
                    let m2 = skip_ws(s, m);
                    if 0 <= m2 < s.len() && s[m2] == ')' {
                        Some((ev, m2 + 1))
                    } else {
                        None
                    }
                },
            }
        }
    }
}

/// The mandatory `=>` separator at position `i` (after leading whitespace).
pub open spec fn arrow_at(s: Seq<char>, i: int) -> Option<int> {
    let j = skip_ws(s, i);
    if 0 <= j && j + 2 <= s.len() && s[j] == '=' && s[j + 1] == '>' {
        Some(j + 2)
    } else {
        None
    }
}

/// One full rule `Prev ( Event )? => Next` at position `i`.
pub open spec fn rule_at(s: Seq<char>, i: int) -> Option<(RuleView, int)> {
    match item_at(s, skip_ws(s, i)) {
        None => None,
        Some((prev, i1)) => match event_clause_at(s, i1) {
            None => None,
            Some((event, i2)) => match arrow_at(s, i2) {
                None => None,
                Some(i3) => match item_at(s, skip_ws(s, i3)) {
                    None => None,
                    Some((next, i4)) => Some((RuleView { prev, event, next }, i4)),
                },
            },
        },
    }
}

/// The comma-separated rule list from position `i` to the end of the input.
/// At least one rule is required, commas separate rules, and nothing but
/// whitespace may follow the last rule.
pub open spec fn rules_from(s: Seq<char>, i: int) -> Option<Seq<RuleView>>
    decreases s.len() - i,
{
    match rule_at(s, i) {
        None => None,
        Some((r, j)) => {
            let j2 = skip_ws(s, j);
            if j2 >= s.len() {
                Some(seq![r])
            } else if s[j2] == ',' && i < j2 + 1 <= s.len() {
                match rules_from(s, j2 + 1) {
                    None => None,
                    Some(rest) => Some(seq![r] + rest),
                }
            } else {
                None
            }
        },
    }
}

/// The whole grammar: what a specification text denotes, if it is
/// well-formed.
pub open spec fn parse_spec(s: Seq<char>) -> Option<Seq<RuleView>> {
    rules_from(s, 0)
}

/// A syntactic deviation from the grammar.  `pos` is the character position
/// at which parsing could not continue.
#[derive(Debug, Clone)]
pub struct SyntaxError {
    pub pos: usize,
}

#[verifier::when_used_as_spec(is_space)]
fn space_char(c: char) -> (r: bool)
    ensures
        r == is_space(c),
{
    c == ' ' || c == '\t' || c == '\n' || c == '\r'
}

#[verifier::when_used_as_spec(is_ident_start)]
fn ident_start_char(c: char) -> (r: bool)
    ensures
        r == is_ident_start(c),
{
    ('A' <= c && c <= 'Z') || ('a' <= c && c <= 'z') || c == '_'
}

#[verifier::when_used_as_spec(is_ident_char)]
fn ident_char(c: char) -> (r: bool)
    ensures
        r == is_ident_char(c),
{
    ident_start_char(c) || ('0' <= c && c <= '9')
}

fn exec_skip_ws(s: &str, n: usize, i: usize) -> (r: usize)
    requires
        n == s@.len(),
        i <= n,
    ensures
        r == skip_ws(s@, i as int),
        i <= r <= n,
{
    let mut k = i;
    while k < n && space_char(s.get_char(k))
        invariant
            i <= k <= n,
            n == s@.len(),
            skip_ws(s@, i as int) == skip_ws(s@, k as int),
        decreases n - k,
    {
        k = k + 1;
    }
    k
}

fn exec_ident_end(s: &str, n: usize, i: usize) -> (r: usize)
    requires
        n == s@.len(),
        i <= n,
    ensures
        r == ident_end(s@, i as int),
        i <= r <= n,
{
    let mut k = i;
    while k < n && ident_char(s.get_char(k))
        invariant
            i <= k <= n,
            n == s@.len(),
            ident_end(s@, i as int) == ident_end(s@, k as int),
        decreases n - k,
    {
        k = k + 1;
    }
    k
}

fn parse_item(s: &str, n: usize, i: usize) -> (r: Result<(TransitionItem, usize), usize>)
    requires
        n == s@.len(),
        i <= n,
    ensures
        match r {
            Ok((item, j)) => item_at(s@, i as int) == Some((item@, j as int)) && i < j <= n,
            Err(p) => item_at(s@, i as int) is None && p <= n,
        },
{
    if i < n {
        let c = s.get_char(i);
        if c == '$' {
            Ok((TransitionItem::Default, i + 1))
        } else if ident_start_char(c) {
            let j = exec_ident_end(s, n, i + 1);
            let name = s.substring_char(i, j).to_owned();
            Ok((TransitionItem::Named(name), j))
        } else {
            Err(i)
        }
    } else {
        Err(i)
    }
}

fn parse_event_clause(s: &str, n: usize, i: usize) -> (r: Result<(TransitionItem, usize), usize>)
    requires
        n == s@.len(),
        i <= n,
    ensures
        match r {
            Ok((item, j)) => event_clause_at(s@, i as int) == Some((item@, j as int)) && i <= j
                <= n,
            Err(p) => event_clause_at(s@, i as int) is None && p <= n,
        },
{
    let j = exec_skip_ws(s, n, i);
    if j < n && s.get_char(j) == '(' {
        let k = exec_skip_ws(s, n, j + 1);
        if k < n && s.get_char(k) == ')' {
            Ok((TransitionItem::Default, k + 1))
        } else {
            match parse_item(s, n, k) {
                Err(p) => Err(p),
                Ok((ev, m)) => {
                    let m2 = exec_skip_ws(s, n, m);
                    if m2 < n && s.get_char(m2) == ')' {
                        Ok((ev, m2 + 1))
                    } else {
                        Err(m2)
                    }
                },
            }
        }
    } else {
        Ok((TransitionItem::Default, i))
    }
}

fn parse_arrow(s: &str, n: usize, i: usize) -> (r: Result<usize, usize>)
    requires
        n == s@.len(),
        i <= n,
    ensures
        match r {
            Ok(j) => arrow_at(s@, i as int) == Some(j as int) && i <= j <= n,
            Err(p) => arrow_at(s@, i as int) is None && p <= n,
        },
{
    let j = exec_skip_ws(s, n, i);
    if j < n && j + 1 < n && s.get_char(j) == '=' && s.get_char(j + 1) == '>' {
        Ok(j + 2)
    } else {
        Err(j)
    }
}

fn parse_rule(s: &str, n: usize, i: usize) -> (r: Result<(Transition, usize), usize>)
    requires
        n == s@.len(),
        i <= n,
    ensures
        match r {
            Ok((rule, j)) => rule_at(s@, i as int) == Some((rule@, j as int)) && i < j <= n,
            Err(p) => rule_at(s@, i as int) is None && p <= n,
        },
{
    let i0 = exec_skip_ws(s, n, i);
    match parse_item(s, n, i0) {
        Err(p) => Err(p),
        Ok((prev, i1)) => match parse_event_clause(s, n, i1) {
            Err(p) => Err(p),
            Ok((event, i2)) => match parse_arrow(s, n, i2) {
                Err(p) => Err(p),
                Ok(i3) => {
                    let i3b = exec_skip_ws(s, n, i3);
                    match parse_item(s, n, i3b) {
                        Err(p) => Err(p),
                        Ok((next, i4)) => Ok(
                            (Transition { prev_state: prev, event, next_state: next }, i4),
                        ),
                    }
                },
            },
        },
    }
}

fn parse_rules_from(s: &str, n: usize, i: usize) -> (r: Result<Vec<Transition>, usize>)
    requires
        n == s@.len(),
        i <= n,
    ensures
        match r {
            Ok(rules) => rules_from(s@, i as int) == Some(rules.deep_view()) && rules@.len() >= 1,
            Err(p) => rules_from(s@, i as int) is None && p <= n,
        },
    decreases n - i,
{
    match parse_rule(s, n, i) {
        Err(p) => Err(p),
        Ok((rule, j)) => {
            let j2 = exec_skip_ws(s, n, j);
            if j2 >= n {
                let mut v: Vec<Transition> = Vec::new();
                v.push(rule);
                proof {
                    assert(v.deep_view() =~= seq![rule@]);
                }
                Ok(v)
            } else if s.get_char(j2) == ',' {
                match parse_rules_from(s, n, j2 + 1) {
                    Err(p) => Err(p),
                    Ok(rest) => {
                        let ghost rest_view = rest.deep_view();
                        let mut v: Vec<Transition> = Vec::new();
                        v.push(rule);
                        let mut rest = rest;
                        v.append(&mut rest);
                        proof {
                            assert(v.deep_view() =~= seq![rule@] + rest_view);
                        }
                        Ok(v)
                    },
                }
            } else {
                Err(j2)
            }
        },
    }
}

/// The parser for a whole specification text.
pub struct TransitionParser;

impl TransitionParser {
    /// Parses a specification text into its ordered rule list, or reports
    /// the position at which the text deviates from the grammar.  The text
    /// is well-formed exactly when the parse succeeds.
    pub fn parse2(self, input: &str) -> (r: Result<Vec<Transition>, SyntaxError>)
        ensures
            match r {
                Ok(rules) => parse_spec(input@) == Some(rules.deep_view()) && rules@.len() >= 1,
                Err(e) => parse_spec(input@) is None && e.pos <= input@.len(),
            },
    {
        let n = input.unicode_len();
        match parse_rules_from(input, n, 0) {
            Ok(rules) => Ok(rules),
            Err(p) => Err(SyntaxError { pos: p }),
        }
    }
}

} // verus!
