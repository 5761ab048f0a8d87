//! The formatting rules: the unit of rewriting logic, its priority tier,
//! and the priority-ordered rule collection. A rule is a stable name, a
//! tier, and a rewrite action drawn from the closed set below; rules are
//! stateless across invocations.

use vstd::prelude::*;
use crate::ast::{Node, NodeType, NodeView, node_view};
use crate::config::{Config, HashSyntax, QuoteStyle};
use crate::engine::FormatContext;
use crate::error::RfmtError;

verus! {

/// Priority tier for rule application: `High` before `Normal` before
/// `Low`.
#[derive(Debug, Clone, Copy, PartialEq, Eq, Structural)]
pub enum Priority {
    High,
    Normal,
    Low,
}

/// The rank of a tier; a larger rank applies earlier.
pub open spec fn priority_rank(p: Priority) -> int {
    match p {
        Priority::High => 3,
        Priority::Normal => 2,
        Priority::Low => 1,
    }
}

/// An identifier character, as allowed in a map key rewritten between
/// the two hash-entry syntaxes.
pub open spec fn is_ident_char(c: char) -> bool {
    (97 <= c as u32 <= 122) || (65 <= c as u32 <= 90) || (48 <= c as u32 <= 57) || c == '_'
}

/// A ` => ` separator starts at position `i` of `s`.
pub open spec fn sep_at(s: Seq<char>, i: int) -> bool {
    &&& 0 <= i
    &&& i + 4 <= s.len()
    &&& s[i] == ' '
    &&& s[i + 1] == '='
    &&& s[i + 2] == '>'
    &&& s[i + 3] == ' '
}

/// The first position at or after `i` where a ` => ` separator starts,
/// or `-1` if there is none.
pub open spec fn find_sep(s: Seq<char>, i: int) -> int
    decreases s.len() - i,
{
    if i < 0 || i + 4 > s.len() {
        -1
    } else if sep_at(s, i) {
        i
    } else {
        find_sep(s, i + 1)
    }
}

/// A `:` followed by a space starts at position `i` of `s`.
pub open spec fn colon_at(s: Seq<char>, i: int) -> bool {
    &&& 0 <= i
    &&& i + 2 <= s.len()
    &&& s[i] == ':'
    &&& s[i + 1] == ' '
}

/// The first position at or after `i` where a `: ` separator starts, or
/// `-1` if there is none.
pub open spec fn find_colon(s: Seq<char>, i: int) -> int
    decreases s.len() - i,
{
    if i < 0 || i + 2 > s.len() {
        -1
    } else if colon_at(s, i) {
        i
    } else {
        find_colon(s, i + 1)
    }
}

/// A legacy hash entry: `:key => value` with an identifier key.
pub open spec fn is_rocket_pair(s: Seq<char>) -> bool {
    &&& s.len() >= 1
    &&& s[0] == ':'
    &&& find_sep(s, 0) >= 2
    &&& forall|k: int| 1 <= k < find_sep(s, 0) ==> is_ident_char(s[k])
}

/// The modern form of a legacy hash entry: `key: value`.
pub open spec fn modern_pair_of(s: Seq<char>) -> Seq<char> {
    let j = find_sep(s, 0);
    s.subrange(1, j) + seq![':', ' '] + s.subrange(j + 4, s.len() as int)
}

/// A modern hash entry: `key: value` with an identifier key.
pub open spec fn is_modern_pair(s: Seq<char>) -> bool {
    &&& s.len() >= 1
    &&& is_ident_char(s[0])
    &&& find_colon(s, 0) >= 1
    &&& forall|k: int| 0 <= k < find_colon(s, 0) ==> is_ident_char(s[k])
}

/// The legacy form of a modern hash entry: `:key => value`.
pub open spec fn rocket_pair_of(s: Seq<char>) -> Seq<char> {
    let j = find_colon(s, 0);
    seq![':'] + s.subrange(0, j) + seq![' ', '=', '>', ' '] + s.subrange(j + 2, s.len() as int)
}

/// A plain single-quoted literal: no inner quote or escape characters,
/// so the quotes can be swapped without re-escaping.
pub open spec fn is_single_quoted(s: Seq<char>) -> bool {
    &&& s.len() >= 2
    &&& s[0] == '\''
    &&& s[s.len() - 1] == '\''
    &&& forall|k: int|
        1 <= k < s.len() - 1 ==> s[k] != '\'' && s[k] != '"' && s[k] != '\\'
}

/// A plain double-quoted literal, swappable the other way.
pub open spec fn is_double_quoted(s: Seq<char>) -> bool {
    &&& s.len() >= 2
    &&& s[0] == '"'
    &&& s[s.len() - 1] == '"'
    &&& forall|k: int|
        1 <= k < s.len() - 1 ==> s[k] != '\'' && s[k] != '"' && s[k] != '\\'
}

/// The same literal with the outer quotes replaced by double quotes.
pub open spec fn double_quoted_of(s: Seq<char>) -> Seq<char> {
    seq!['"'] + s.subrange(1, s.len() - 1) + seq!['"']
}

/// The same literal with the outer quotes replaced by single quotes.
pub open spec fn single_quoted_of(s: Seq<char>) -> Seq<char> {
    seq!['\''] + s.subrange(1, s.len() - 1) + seq!['\'']
}

/// The closed set of rewrite actions a rule can carry.
#[derive(Debug, Clone, Copy, PartialEq, Eq, Structural)]
pub enum RuleAction {
    /// Rewrites a legacy `:key => value` hash entry to `key: value`.
    HashModern,
    /// Rewrites a modern `key: value` hash entry to `:key => value`.
    HashRockets,
    /// Rewrites a plain single-quoted string literal to double quotes.
    QuoteDouble,
    /// Rewrites a plain double-quoted string literal to single quotes.
    QuoteSingle,
    /// Fails on any node of the given kind.
    Forbid(NodeType),
}

/// A named, prioritized, predicate-guarded rewrite step.
#[derive(Debug)]
pub struct Rule {
    pub name: String,
    pub priority: Priority,
    pub action: RuleAction,
}

/// The model of a rule.
#[verifier::ext_equal]
pub struct RuleView {
    pub name: Seq<char>,
    pub priority: Priority,
    pub action: RuleAction,
}

/// The model of one rule.
pub open spec fn rule_view(r: Rule) -> RuleView {
    RuleView { name: r.name@, priority: r.priority, action: r.action }
}

/// The models of a sequence of rules, in registration order.
pub open spec fn rules_view(s: Seq<Rule>) -> Seq<RuleView> {
    s.map_values(|r: Rule| rule_view(r))
}

/// Whether an action's applicability predicate holds for a node of the
/// given kind and token text. Applicability reads nothing else of the
/// node.
pub open spec fn rule_applicable_spec(a: RuleAction, kind: NodeType, text: Seq<char>) -> bool {
    match a {
        RuleAction::HashModern => is_rocket_pair(text),
        RuleAction::HashRockets => is_modern_pair(text),
        RuleAction::QuoteDouble => kind == NodeType::StringNode && is_single_quoted(text),
        RuleAction::QuoteSingle => kind == NodeType::StringNode && is_double_quoted(text),
        RuleAction::Forbid(k) => kind == k,
    }
}

/// The token text an applicable, non-failing action rewrites `text` to.
/// Every action rewrites the node's own token text and leaves its kind,
/// position and children unchanged.
pub open spec fn rule_rewrite_text(a: RuleAction, text: Seq<char>) -> Seq<char> {
    match a {
        RuleAction::HashModern => modern_pair_of(text),
        RuleAction::HashRockets => rocket_pair_of(text),
        RuleAction::QuoteDouble => double_quoted_of(text),
        RuleAction::QuoteSingle => single_quoted_of(text),
        RuleAction::Forbid(_) => text,
    }
}

/// Applying a list of rules to one node is a fold over its token text:
/// each applicable rule rewrites the text the previous one produced; a
/// failing rule aborts with its name. No action changes the node's
/// kind.
pub open spec fn apply_rules_spec(rules: Seq<RuleView>, kind: NodeType, text: Seq<char>) -> Result<
    Seq<char>,
    Seq<char>,
>
    decreases rules.len(),
{
    if rules.len() == 0 {
        Ok(text)
    } else {
        let r = rules[0];
        if rule_applicable_spec(r.action, kind, text) {
            if r.action is Forbid {
                Err(r.name)
            } else {
                apply_rules_spec(rules.drop_first(), kind, rule_rewrite_text(r.action, text))
            }
        } else {
            apply_rules_spec(rules.drop_first(), kind, text)
        }
    }
}

impl Clone for Rule {
    fn clone(&self) -> (r: Self)
        ensures
            rule_view(r) == rule_view(*self),
            r.priority == self.priority,
            r.action == self.action,
    {
        let r = Rule { name: self.name.clone(), priority: self.priority, action: self.action };
        proof { assert(rule_view(r) =~= rule_view(*self)); }
        r
    }
}

impl Rule {
    /// Whether this rule's predicate holds for a node of kind `kind`
    /// with token text `text`. Pure: no side effects, evaluated before
    /// the rewrite.
    pub fn applicable_to(&self, kind: NodeType, text: &str) -> (b: bool)
        ensures
            b == rule_applicable_spec(self.action, kind, text@),
    {
        match self.action {
            RuleAction::HashModern => text_is_rocket_pair(text),
            RuleAction::HashRockets => text_is_modern_pair(text),
            RuleAction::QuoteDouble => kind == NodeType::StringNode && text_is_quoted(
                text,
                '\'',
            ),
            RuleAction::QuoteSingle => kind == NodeType::StringNode && text_is_quoted(
                text,
                '"',
            ),
            RuleAction::Forbid(k) => kind == k,
        }
    }

    /// Whether this rule's predicate holds for `node`.
    pub fn applicable(&self, node: &Node) -> (b: bool)
        ensures
            b == rule_applicable_spec(self.action, node.node_type, node.text@),
    {
        self.applicable_to(node.node_type, node.text.as_str())
    }

    /// One rule step on a node's token text: the rewritten text, the
    /// text unchanged where the rule does not apply, or this rule's
    /// name as the failure.
    pub fn apply_text(&self, kind: NodeType, text: &str) -> (r: Result<String, RfmtError>)
        ensures
            match r {
                Ok(t) => {
                    &&& !(rule_applicable_spec(self.action, kind, text@) && self.action
                        is Forbid)
                    &&& t@ == if rule_applicable_spec(self.action, kind, text@) {
                        rule_rewrite_text(self.action, text@)
                    } else {
                        text@
                    }
                },
                Err(e) => {
                    &&& rule_applicable_spec(self.action, kind, text@)
                    &&& self.action is Forbid
                    &&& e matches RfmtError::RuleError { rule } && rule@ == self.name@
                },
            },
    {
        if !self.applicable_to(kind, text) {
            return Ok(text.to_owned());
        }
        match self.action {
            RuleAction::HashModern => Ok(modernize_pair(text)),
            RuleAction::HashRockets => Ok(rocketize_pair(text)),
            RuleAction::QuoteDouble => {
                proof {
                    reveal_strlit("\"");
                    assert("\""@ =~= seq!['"']);
                }
                let t = requote(text, "\"");
                proof { assert(t@ =~= rule_rewrite_text(self.action, text@)); }
                Ok(t)
            },
            RuleAction::QuoteSingle => {
                proof {
                    reveal_strlit("'");
                    assert("'"@ =~= seq!['\'']);
                }
                let t = requote(text, "'");
                proof { assert(t@ =~= rule_rewrite_text(self.action, text@)); }
                Ok(t)
            },
            RuleAction::Forbid(_) => Err(RfmtError::RuleError { rule: self.name.clone() }),
        }
    }

    /// Applies this rule to `node`, returning the replacement node; a
    /// node the rule does not apply to is returned unchanged. A
    /// `Forbid` rule fails with this rule's name.
    pub fn apply(&self, node: Node, _context: &FormatContext) -> (r: Result<Node, RfmtError>)
        ensures
            match r {
                Ok(m) => {
                    &&& !(rule_applicable_spec(self.action, node.node_type, node.text@)
                        && self.action is Forbid)
                    &&& m.text@ == if rule_applicable_spec(
                        self.action,
                        node.node_type,
                        node.text@,
                    ) {
                        rule_rewrite_text(self.action, node.text@)
                    } else {
                        node.text@
                    }
                    &&& m.node_type == node.node_type
                    &&& m.line == node.line
                    &&& m.column == node.column
                    &&& m.children == node.children
                },
                Err(e) => {
                    &&& rule_applicable_spec(self.action, node.node_type, node.text@)
                    &&& self.action is Forbid
                    &&& e matches RfmtError::RuleError { rule } && rule@ == self.name@
                },
            },
    {
        let text = match self.apply_text(node.node_type, node.text.as_str()) {
            Ok(t) => t,
            Err(e) => {
                return Err(e);
            },
        };
        Ok(Node { text, ..node })
    }
}

/// Finds the first ` => ` separator in `s`.
fn find_sep_in(s: &str) -> (r: Option<usize>)
    ensures
        match r {
            Some(j) => find_sep(s@, 0) == j && sep_at(s@, j as int),
            None => find_sep(s@, 0) == -1,
        },
{
    let len = s.unicode_len();
    let mut i: usize = 0;
    loop
        invariant
            i <= len,
            len == s@.len(),
            find_sep(s@, 0) == find_sep(s@, i as int),
        decreases len - i,
    {
        if len - i < 4 {
            proof { assert(find_sep(s@, i as int) == -1); }
            return None;
        }
        if s.get_char(i) == ' ' && s.get_char(i + 1) == '=' && s.get_char(i + 2) == '>'
            && s.get_char(i + 3) == ' ' {
            proof { assert(sep_at(s@, i as int)); }
            return Some(i);
        }
        proof { assert(!sep_at(s@, i as int)); }
        i = i + 1;
    }
}

/// Finds the first `: ` separator in `s`.
fn find_colon_in(s: &str) -> (r: Option<usize>)
    ensures
        match r {
            Some(j) => find_colon(s@, 0) == j && colon_at(s@, j as int),
            None => find_colon(s@, 0) == -1,
        },
{
    let len = s.unicode_len();
    let mut i: usize = 0;
    loop
        invariant
            i <= len,
            len == s@.len(),
            find_colon(s@, 0) == find_colon(s@, i as int),
        decreases len - i,
    {
        if len - i < 2 {
            proof { assert(find_colon(s@, i as int) == -1); }
            return None;
        }
        if s.get_char(i) == ':' && s.get_char(i + 1) == ' ' {
            proof { assert(colon_at(s@, i as int)); }
            return Some(i);
        }
        proof { assert(!colon_at(s@, i as int)); }
        i = i + 1;
    }
}

/// Whether every character of `s` in `[from, to)` is an identifier
/// character.
fn all_ident(s: &str, from: usize, to: usize) -> (r: bool)
    requires
        from <= to <= s@.len(),
    ensures
        r == forall|k: int| from <= k < to ==> is_ident_char(s@[k]),
{
    let mut i: usize = from;
    while i < to
        invariant
            from <= i <= to <= s@.len(),
            forall|k: int| from <= k < i ==> is_ident_char(s@[k]),
        decreases to - i,
    {
        let c = s.get_char(i);
        let u = c as u32;
        let ok = (97 <= u && u <= 122) || (65 <= u && u <= 90) || (48 <= u && u <= 57) || c == '_';
        if !ok {
            proof { assert(!is_ident_char(s@[i as int])); }
            return false;
        }
        i = i + 1;
    }
    true
}

/// Whether `s` is a legacy `:key => value` hash entry.
fn text_is_rocket_pair(s: &str) -> (r: bool)
    ensures
        r == is_rocket_pair(s@),
{
    let len = s.unicode_len();
    if len == 0 || s.get_char(0) != ':' {
        return false;
    }
    match find_sep_in(s) {
        None => false,
        Some(j) => {
            if j < 2 {
                return false;
            }
            all_ident(s, 1, j)
        },
    }
}

/// Whether `s` is a modern `key: value` hash entry.
fn text_is_modern_pair(s: &str) -> (r: bool)
    ensures
        r == is_modern_pair(s@),
{
    let len = s.unicode_len();
    if len == 0 {
        return false;
    }
    let c0 = s.get_char(0);
    let u = c0 as u32;
    let ident0 = (97 <= u && u <= 122) || (65 <= u && u <= 90) || (48 <= u && u <= 57) || c0
        == '_';
    if !ident0 {
        return false;
    }
    match find_colon_in(s) {
        None => false,
        Some(j) => {
            if j < 1 {
                return false;
            }
            all_ident(s, 0, j)
        },
    }
}

/// Whether `s` is a plain literal delimited by `quote`, with no inner
/// quote or escape characters.
fn text_is_quoted(s: &str, quote: char) -> (r: bool)
    requires
        quote == '\'' || quote == '"',
    ensures
        quote == '\'' ==> r == is_single_quoted(s@),
        quote == '"' ==> r == is_double_quoted(s@),
{
    let len = s.unicode_len();
    if len < 2 {
        return false;
    }
    if s.get_char(0) != quote || s.get_char(len - 1) != quote {
        return false;
    }
    let mut i: usize = 1;
    while i < len - 1
        invariant
            1 <= i <= len - 1,
            len == s@.len(),
            len >= 2,
            forall|k: int| 1 <= k < i ==> s@[k] != '\'' && s@[k] != '"' && s@[k] != '\\',
        decreases len - 1 - i,
    {
        let c = s.get_char(i);
        if c == '\'' || c == '"' || c == '\\' {
            return false;
        }
        i = i + 1;
    }
    true
}

/// Rewrites a legacy hash entry to its modern form.
fn modernize_pair(s: &str) -> (r: String)
    requires
        is_rocket_pair(s@),
    ensures
        r@ == modern_pair_of(s@),
{
    let len = s.unicode_len();
    let j = match find_sep_in(s) {
        Some(j) => j,
        None => {
            proof { assert(false); }
            0
        },
    };
    let mut out = s.substring_char(1, j).to_owned();
    out.append(": ");
    out.append(s.substring_char(j + 4, len));
    proof {
        reveal_strlit(": ");
        assert(": "@ =~= seq![':', ' ']);
        assert(out@ =~= modern_pair_of(s@));
    }
    out
}

/// Rewrites a modern hash entry to its legacy form.
fn rocketize_pair(s: &str) -> (r: String)
    requires
        is_modern_pair(s@),
    ensures
        r@ == rocket_pair_of(s@),
{
    let len = s.unicode_len();
    let j = match find_colon_in(s) {
        Some(j) => j,
        None => {
            proof { assert(false); }
            0
        },
    };
    let mut out = ":".to_owned();
    out.append(s.substring_char(0, j));
    out.append(" => ");
    out.append(s.substring_char(j + 2, len));
    proof {
        reveal_strlit(":");
        reveal_strlit(" => ");
        assert(":"@ =~= seq![':']);
        assert(" => "@ =~= seq![' ', '=', '>', ' ']);
        assert(out@ =~= rocket_pair_of(s@));
    }
    out
}

/// The capability set of a formatting rule: a stable name, a priority
/// tier, a pure applicability predicate, and a rewrite from a node to
/// its replacement. `Rule` implements it; the verified contracts live
/// on `Rule`'s own methods, which the engine calls directly.
pub trait FormattingRule {
    /// The rule's stable name.
    fn name(&self) -> &str;

    /// The rule's priority tier.
    fn priority(&self) -> Priority;

    /// Whether the rule applies to `node`; pure, evaluated before
    /// `apply`.
    fn applicable(&self, node: &Node) -> bool;

    /// Takes ownership of `node` and returns its replacement, or the
    /// failure that aborts the pass.
    fn apply(&self, node: Node, context: &FormatContext) -> Result<Node, RfmtError>;
}

impl FormattingRule for Rule {
    fn name(&self) -> &str {
        self.name.as_str()
    }

    fn priority(&self) -> (p: Priority)
        ensures
            p == self.priority,
    {
        self.priority
    }

    fn applicable(&self, node: &Node) -> bool {
        Rule::applicable(self, node)
    }

    fn apply(&self, node: Node, context: &FormatContext) -> Result<Node, RfmtError> {
        Rule::apply(self, node, context)
    }
}

/// The rules of `s` that carry priority `p`, in registration order.
pub open spec fn tier(s: Seq<RuleView>, p: Priority) -> Seq<RuleView> {
    s.filter(|r: RuleView| r.priority == p)
}

/// The deterministic sorted view of a rule collection: priority tier
/// descending, registration order ascending within a tier.
pub open spec fn sorted_rules(s: Seq<RuleView>) -> Seq<RuleView> {
    tier(s, Priority::High) + tier(s, Priority::Normal) + tier(s, Priority::Low)
}

/// An unordered collection of rules exposing the deterministic sorted
/// view that is the single authority for apply order.
pub struct RuleSet {
    pub rules: Vec<Rule>,
}

impl RuleSet {
    /// The registered rules, in registration order.
    pub open spec fn spec_rules(&self) -> Seq<RuleView> {
        rules_view(self.rules@)
    }

    /// An empty collection.
    pub fn new() -> (r: Self)
        ensures
            r.spec_rules() == Seq::<RuleView>::empty(),
    {
        let r = RuleSet { rules: Vec::new() };
        proof { assert(r.spec_rules() =~= Seq::<RuleView>::empty()); }
        r
    }

    /// Registers one more rule, after all earlier ones.
    pub fn add_rule(&mut self, rule: Rule)
        ensures
            final(self).spec_rules() == old(self).spec_rules().push(rule_view(rule)),
    {
        let ghost before = self.rules@;
        self.rules.push(rule);
        proof {
            assert(self.spec_rules() =~= rules_view(before).push(rule_view(before.push(
                rule,
            ).last())));
        }
    }

    /// The rules sorted for application: priority descending, stable
    /// within a tier.
    pub fn iter_sorted(&self) -> (r: Vec<Rule>)
        ensures
            rules_view(r@) == sorted_rules(self.spec_rules()),
    {
        let mut out = collect_tier(&self.rules, Priority::High);
        let mut normal = collect_tier(&self.rules, Priority::Normal);
        let mut low = collect_tier(&self.rules, Priority::Low);
        let ghost hi_v = rules_view(out@);
        let ghost no_v = rules_view(normal@);
        let ghost lo_v = rules_view(low@);
        append_rules(&mut out, normal);
        proof { assert(rules_view(out@) =~= hi_v + no_v); }
        append_rules(&mut out, low);
        proof {
            assert(rules_view(out@) =~= (hi_v + no_v) + lo_v);
            assert(rules_view(out@) =~= sorted_rules(self.spec_rules()));
        }
        out
    }
}

impl Default for RuleSet {
    fn default() -> (r: Self)
        ensures
            r.spec_rules() == Seq::<RuleView>::empty(),
    {
        RuleSet::new()
    }
}

/// Clones the rules of one priority tier, in registration order.
fn collect_tier(rules: &Vec<Rule>, p: Priority) -> (out: Vec<Rule>)
    ensures
        rules_view(out@) == tier(rules_view(rules@), p),
{
    broadcast use vstd::seq_lib::group_filter_ensures;

    let ghost all = rules_view(rules@);
    let mut out: Vec<Rule> = Vec::new();
    let mut i: usize = 0;
    proof {
        assert(all.take(0) =~= Seq::<RuleView>::empty());
        assert(rules_view(out@) =~= tier(all.take(0), p));
    }
    while i < rules.len()
        invariant
            i <= rules@.len(),
            all == rules_view(rules@),
            rules_view(out@) == tier(all.take(i as int), p),
        decreases rules@.len() - i,
    {
        let ghost out0 = rules_view(out@);
        if rules[i].priority == p {
            out.push(rules[i].clone());
            proof { assert(rules_view(out@) =~= out0.push(all[i as int])); }
        }
        proof {
            assert(all.take(i + 1) =~= all.take(i as int).push(all[i as int]));
            assert(tier(all.take(i + 1), p) == if all[i as int].priority == p {
                tier(all.take(i as int), p).push(all[i as int])
            } else {
                tier(all.take(i as int), p)
            }) by {
                Seq::lemma_filter_push(
                    all.take(i as int),
                    all[i as int],
                    |r: RuleView| r.priority == p,
                );
            }
            assert(rule_view(rules@[i as int]) == all[i as int]);
        }
        i = i + 1;
    }
    proof { assert(all.take(rules@.len() as int) =~= all); }
    out
}

/// Moves every rule of `tail` to the end of `out`, keeping order.
pub(crate) fn append_rules(out: &mut Vec<Rule>, tail: Vec<Rule>)
    ensures
        rules_view(final(out)@) == rules_view(old(out)@) + rules_view(tail@),
{
    let ghost base = rules_view(old(out)@);
    let ghost tv = rules_view(tail@);
    let mut rest = tail;
    let mut j: usize = 0;
    proof { assert(rules_view(out@) =~= base + tv.take(0)); }
    while j < rest.len()
        invariant
            j <= rest@.len(),
            tv == rules_view(rest@),
            rules_view(out@) == base + tv.take(j as int),
        decreases rest@.len() - j,
    {
        let ghost out0 = rules_view(out@);
        out.push(rest[j].clone());
        proof {
            assert(rules_view(out@) =~= out0.push(tv[j as int]));
            assert(tv.take(j + 1) =~= tv.take(j as int).push(tv[j as int]));
            assert(base + tv.take(j + 1) =~= (base + tv.take(j as int)).push(tv[j as int]));
        }
        j = j + 1;
    }
    proof { assert(tv.take(rest@.len() as int) =~= tv); }
}

/// The structural rule a configuration's hash-syntax preference calls
/// for, if any. Structural normalizations run at high priority, before
/// cosmetic rules.
pub open spec fn config_hash_rule(c: Config) -> Seq<RuleView> {
    match c.formatting.style.hash_syntax {
        HashSyntax::Ruby19 => seq![
            RuleView {
                name: "hash_syntax"@,
                priority: Priority::High,
                action: RuleAction::HashModern,
            },
        ],
        HashSyntax::HashRockets => seq![
            RuleView {
                name: "hash_syntax"@,
                priority: Priority::High,
                action: RuleAction::HashRockets,
            },
        ],
        HashSyntax::Consistent => Seq::empty(),
    }
}

/// The cosmetic rule a configuration's quote preference calls for, if
/// any.
pub open spec fn config_quote_rule(c: Config) -> Seq<RuleView> {
    match c.formatting.quote_style {
        QuoteStyle::Double => seq![
            RuleView {
                name: "quote_style"@,
                priority: Priority::Normal,
                action: RuleAction::QuoteDouble,
            },
        ],
        QuoteStyle::Single => seq![
            RuleView {
                name: "quote_style"@,
                priority: Priority::Normal,
                action: RuleAction::QuoteSingle,
            },
        ],
        QuoteStyle::Consistent => Seq::empty(),
    }
}

/// The rules a configuration calls for, in registration order.
pub open spec fn config_rules(c: Config) -> Seq<RuleView> {
    config_hash_rule(c) + config_quote_rule(c)
}

/// Builds the rule collection a configuration calls for.
pub fn build_rules(c: &Config) -> (r: RuleSet)
    ensures
        r.spec_rules() == config_rules(*c),
{
    let mut r = RuleSet::new();
    match c.formatting.style.hash_syntax {
        HashSyntax::Ruby19 => {
            r.add_rule(
                Rule {
                    name: "hash_syntax".to_owned(),
                    priority: Priority::High,
                    action: RuleAction::HashModern,
                },
            );
        },
        HashSyntax::HashRockets => {
            r.add_rule(
                Rule {
                    name: "hash_syntax".to_owned(),
                    priority: Priority::High,
                    action: RuleAction::HashRockets,
                },
            );
        },
        HashSyntax::Consistent => {},
    }
    match c.formatting.quote_style {
        QuoteStyle::Double => {
            r.add_rule(
                Rule {
                    name: "quote_style".to_owned(),
                    priority: Priority::Normal,
                    action: RuleAction::QuoteDouble,
                },
            );
        },
        QuoteStyle::Single => {
            r.add_rule(
                Rule {
                    name: "quote_style".to_owned(),
                    priority: Priority::Normal,
                    action: RuleAction::QuoteSingle,
                },
            );
        },
        QuoteStyle::Consistent => {},
    }
    proof { assert(r.spec_rules() =~= config_rules(*c)); }
    r
}

/// A found separator position really is one.
proof fn lemma_find_sep_at(s: Seq<char>, i: int)
    requires
        find_sep(s, i) >= 0,
    ensures
        sep_at(s, find_sep(s, i)),
        find_sep(s, i) >= i,
    decreases s.len() - i,
{
    if i < 0 || i + 4 > s.len() {
    } else if sep_at(s, i) {
    } else {
        lemma_find_sep_at(s, i + 1);
    }
}

/// A found colon position really is one.
proof fn lemma_find_colon_at(s: Seq<char>, i: int)
    requires
        find_colon(s, i) >= 0,
    ensures
        colon_at(s, find_colon(s, i)),
        find_colon(s, i) >= i,
    decreases s.len() - i,
{
    if i < 0 || i + 2 > s.len() {
    } else if colon_at(s, i) {
    } else {
        lemma_find_colon_at(s, i + 1);
    }
}

/// After the modern rewrite the text starts with an identifier
/// character, so no config-derivable rule applies to it again.
proof fn lemma_modern_rewrite(s: Seq<char>)
    requires
        is_rocket_pair(s),
    ensures
        modern_pair_of(s).len() >= 1,
        is_ident_char(modern_pair_of(s)[0]),
        !is_rocket_pair(modern_pair_of(s)),
        !is_single_quoted(modern_pair_of(s)),
        !is_double_quoted(modern_pair_of(s)),
{
    let j = find_sep(s, 0);
    lemma_find_sep_at(s, 0);
    let t = modern_pair_of(s);
    assert(t[0] == s.subrange(1, j)[0]);
    assert(s.subrange(1, j)[0] == s[1]);
    assert(is_ident_char(s[1]));
}

/// After the legacy rewrite the text starts with a colon, so no
/// config-derivable rule applies to it again.
proof fn lemma_rocket_rewrite(s: Seq<char>)
    requires
        is_modern_pair(s),
    ensures
        rocket_pair_of(s).len() >= 1,
        rocket_pair_of(s)[0] == ':',
        !is_modern_pair(rocket_pair_of(s)),
        !is_single_quoted(rocket_pair_of(s)),
        !is_double_quoted(rocket_pair_of(s)),
{
    lemma_find_colon_at(s, 0);
    let t = rocket_pair_of(s);
    assert(t[0] == ':');
    assert(!is_ident_char(':'));
}

/// After the double-quote rewrite the text starts with a double quote,
/// so no config-derivable rule applies to it again.
proof fn lemma_double_quote_rewrite(s: Seq<char>)
    requires
        is_single_quoted(s),
    ensures
        double_quoted_of(s).len() >= 1,
        double_quoted_of(s)[0] == '"',
        !is_single_quoted(double_quoted_of(s)),
        !is_rocket_pair(double_quoted_of(s)),
        !is_modern_pair(double_quoted_of(s)),
{
    let t = double_quoted_of(s);
    assert(t[0] == '"');
    assert(!is_ident_char('"'));
}

/// After the single-quote rewrite the text starts with a single quote,
/// so no config-derivable rule applies to it again.
proof fn lemma_single_quote_rewrite(s: Seq<char>)
    requires
        is_double_quoted(s),
    ensures
        single_quoted_of(s).len() >= 1,
        single_quoted_of(s)[0] == '\'',
        !is_double_quoted(single_quoted_of(s)),
        !is_rocket_pair(single_quoted_of(s)),
        !is_modern_pair(single_quoted_of(s)),
{
    let t = single_quoted_of(s);
    assert(t[0] == '\'');
    assert(!is_ident_char('\''));
}

/// Unfolds the fold over a single rule.
proof fn lemma_fold_singleton(r: RuleView, kind: NodeType, text: Seq<char>)
    ensures
        apply_rules_spec(seq![r], kind, text) == (if rule_applicable_spec(r.action, kind, text) {
            if r.action is Forbid {
                Err(r.name)
            } else {
                Ok(rule_rewrite_text(r.action, text))
            }
        } else {
            Ok(text)
        }),
{
    assert(seq![r].drop_first() =~= Seq::<RuleView>::empty());
    assert(apply_rules_spec(Seq::<RuleView>::empty(), kind, text) == Ok::<Seq<char>, Seq<char>>(
        text,
    ));
    assert(apply_rules_spec(Seq::<RuleView>::empty(), kind, rule_rewrite_text(r.action, text))
        == Ok::<Seq<char>, Seq<char>>(rule_rewrite_text(r.action, text)));
}

/// Unfolds the fold over a pair of rules into two single steps.
proof fn lemma_fold_pair(r1: RuleView, r2: RuleView, kind: NodeType, text: Seq<char>)
    ensures
        apply_rules_spec(seq![r1, r2], kind, text) == (match apply_rules_spec(
            seq![r1],
            kind,
            text,
        ) {
            Ok(t) => apply_rules_spec(seq![r2], kind, t),
            Err(e) => Err(e),
        }),
{
    assert(seq![r1] + seq![r2] =~= seq![r1, r2]);
    lemma_apply_rules_add(seq![r1], seq![r2], kind, text);
}

/// The fold over `rules` is stable: folding its own output changes
/// nothing further.
pub open spec fn fold_stable(rules: Seq<RuleView>) -> bool {
    forall|kind: NodeType, text: Seq<char>|
        match #[trigger] apply_rules_spec(rules, kind, text) {
            Ok(t2) => apply_rules_spec(rules, kind, t2) == Ok::<Seq<char>, Seq<char>>(t2),
            Err(_) => true,
        }
}

/// No rule that a configuration calls for applies to the text its own
/// fold produced.
proof fn lemma_config_fold_once(c: Config, kind: NodeType, text: Seq<char>)
    ensures
        match apply_rules_spec(config_rules(c), kind, text) {
            Ok(t2) => apply_rules_spec(config_rules(c), kind, t2) == Ok::<Seq<char>, Seq<char>>(
                t2,
            ),
            Err(_) => true,
        },
{
    let hr = config_hash_rule(c);
    let qr = config_quote_rule(c);
    lemma_apply_rules_add(hr, qr, kind, text);
    if hr.len() == 0 {
        assert(hr =~= Seq::<RuleView>::empty());
        assert(hr + qr =~= qr);
    }
    if qr.len() == 0 {
        assert(qr =~= Seq::<RuleView>::empty());
        assert(hr + qr =~= hr);
    }
    match apply_rules_spec(config_rules(c), kind, text) {
        Ok(t2) => {
            lemma_apply_rules_add(hr, qr, kind, t2);
            if hr.len() == 1 {
                lemma_fold_singleton(hr[0], kind, text);
                lemma_fold_singleton(hr[0], kind, t2);
            }
            if qr.len() == 1 {
                lemma_fold_singleton(qr[0], kind, text);
                lemma_fold_singleton(qr[0], kind, t2);
                if hr.len() == 1 {
                    match apply_rules_spec(hr, kind, text) {
                        Ok(t1) => {
                            lemma_fold_singleton(qr[0], kind, t1);
                        },
                        Err(_) => {},
                    }
                }
            }
            if rule_applicable_spec(RuleAction::HashModern, kind, text) && hr.len() == 1
                && hr[0].action is HashModern {
                lemma_modern_rewrite(text);
            }
            if rule_applicable_spec(RuleAction::HashRockets, kind, text) && hr.len() == 1
                && hr[0].action is HashRockets {
                lemma_rocket_rewrite(text);
            }
            if qr.len() == 1 && qr[0].action is QuoteDouble && is_single_quoted(text) {
                lemma_double_quote_rewrite(text);
            }
            if qr.len() == 1 && qr[0].action is QuoteSingle && is_double_quoted(text) {
                lemma_single_quote_rewrite(text);
            }
        },
        Err(_) => {},
    }
}

/// Law (idempotence of the rule fold): the fold a configuration calls
/// for is stable — applying it to its own output returns that output
/// unchanged.
pub proof fn lemma_config_rules_stable(c: Config)
    ensures
        fold_stable(config_rules(c)),
{
    assert forall|kind: NodeType, text: Seq<char>|
        match #[trigger] apply_rules_spec(config_rules(c), kind, text) {
            Ok(t2) => apply_rules_spec(config_rules(c), kind, t2) == Ok::<Seq<char>, Seq<char>>(
                t2,
            ),
            Err(_) => true,
        } by {
        lemma_config_fold_once(c, kind, text);
    }
}

/// Law (priority ordering): in the sorted view, every rule of a higher
/// tier stands before every rule of a lower tier, so a higher-priority
/// rule's rewrite is already folded into the node a lower-priority rule
/// receives.
pub proof fn lemma_sorted_rules_priority_ordered(s: Seq<RuleView>)
    ensures
        forall|i: int, j: int|
            0 <= i < j < sorted_rules(s).len() ==> priority_rank(
                #[trigger] sorted_rules(s)[i].priority,
            ) >= priority_rank(#[trigger] sorted_rules(s)[j].priority),
{
    broadcast use vstd::seq_lib::group_filter_ensures;

    let a = tier(s, Priority::High);
    let b = tier(s, Priority::Normal);
    let c = tier(s, Priority::Low);
    let t = sorted_rules(s);
    assert forall|i: int| 0 <= i < t.len() implies priority_rank(#[trigger] t[i].priority) == (
        if i < a.len() {
            3int
        } else if i < a.len() + b.len() {
            2int
        } else {
            1int
        }) by {
        if i < a.len() {
            assert(t[i] == a[i]);
            assert(a[i].priority == Priority::High) by {
                Seq::lemma_filter_pred(s, |r: RuleView| r.priority == Priority::High, i);
            }
        } else if i < a.len() + b.len() {
            assert(t[i] == b[i - a.len()]);
            assert(b[i - a.len()].priority == Priority::Normal) by {
                Seq::lemma_filter_pred(
                    s,
                    |r: RuleView| r.priority == Priority::Normal,
                    i - a.len(),
                );
            }
        } else {
            assert(t[i] == c[i - a.len() - b.len()]);
            assert(c[i - a.len() - b.len()].priority == Priority::Low) by {
                Seq::lemma_filter_pred(
                    s,
                    |r: RuleView| r.priority == Priority::Low,
                    i - a.len() - b.len(),
                );
            }
        }
    }
}

/// Filtering one tier out of another: the same tier passes through
/// unchanged, a different tier yields nothing.
proof fn lemma_tier_of_tier(s: Seq<RuleView>, p: Priority, q: Priority)
    ensures
        p == q ==> tier(tier(s, q), p) == tier(s, p),
        p != q ==> tier(tier(s, q), p) == Seq::<RuleView>::empty(),
    decreases s.len(),
{
    broadcast use vstd::seq_lib::group_filter_ensures;

    let pp = |r: RuleView| r.priority == p;
    let qq = |r: RuleView| r.priority == q;
    if s.len() == 0 {
        assert(s =~= Seq::<RuleView>::empty());
        assert(Seq::<RuleView>::empty().filter(qq) =~= Seq::<RuleView>::empty()) by {
            reveal(Seq::filter);
        }
        assert(Seq::<RuleView>::empty().filter(pp) =~= Seq::<RuleView>::empty()) by {
            reveal(Seq::filter);
        }
    } else {
        let dl = s.drop_last();
        let l = s.last();
        lemma_tier_of_tier(dl, p, q);
        assert(dl.push(l) =~= s);
        Seq::lemma_filter_push(dl, l, qq);
        if qq(l) {
            Seq::lemma_filter_push(dl.filter(qq), l, pp);
        }
        Seq::lemma_filter_push(dl, l, pp);
    }
}

/// Law (tie-break stability): restricted to any one priority tier, the
/// sorted view is exactly the registration-order sequence of that
/// tier's rules, so of two same-priority rules the earlier-registered
/// one always applies first, however often the view is recomputed.
pub proof fn lemma_sorted_rules_tie_break(s: Seq<RuleView>, p: Priority)
    ensures
        tier(sorted_rules(s), p) == tier(s, p),
{
    broadcast use vstd::seq_lib::group_filter_ensures;

    let a = tier(s, Priority::High);
    let b = tier(s, Priority::Normal);
    let c = tier(s, Priority::Low);
    let pp = |r: RuleView| r.priority == p;
    Seq::filter_distributes_over_add(a + b, c, pp);
    Seq::filter_distributes_over_add(a, b, pp);
    lemma_tier_of_tier(s, p, Priority::High);
    lemma_tier_of_tier(s, p, Priority::Normal);
    lemma_tier_of_tier(s, p, Priority::Low);
    match p {
        Priority::High => {
            assert(tier(sorted_rules(s), p) =~= tier(s, p));
        },
        Priority::Normal => {
            assert(tier(sorted_rules(s), p) =~= tier(s, p));
        },
        Priority::Low => {
            assert(tier(sorted_rules(s), p) =~= tier(s, p));
        },
    }
}

/// Law (rule application composes): folding a concatenation of rule
/// lists over a node's text folds the first list, then the second over
/// its result; a failure anywhere aborts the whole fold unchanged. In
/// particular a higher-priority rule's rewrite is the input a
/// lower-priority rule sees.
pub proof fn lemma_apply_rules_add(a: Seq<RuleView>, b: Seq<RuleView>, kind: NodeType, text: Seq<char>)
    ensures
        apply_rules_spec(a + b, kind, text) == (match apply_rules_spec(a, kind, text) {
            Ok(t) => apply_rules_spec(b, kind, t),
            Err(e) => Err(e),
        }),
    decreases a.len(),
{
    if a.len() == 0 {
        assert(a + b =~= b);
    } else {
        let r = a[0];
        assert((a + b)[0] == r);
        assert((a + b).drop_first() =~= a.drop_first() + b);
        if rule_applicable_spec(r.action, kind, text) {
            if !(r.action is Forbid) {
                lemma_apply_rules_add(
                    a.drop_first(),
                    b,
                    kind,
                    rule_rewrite_text(r.action, text),
                );
            }
        } else {
            lemma_apply_rules_add(a.drop_first(), b, kind, text);
        }
    }
}

/// Swaps the outer quotes of a plain quoted literal for `quote`.
fn requote(s: &str, quote: &str) -> (r: String)
    requires
        s@.len() >= 2,
        quote@.len() == 1,
    ensures
        r@ == quote@ + s@.subrange(1, s@.len() - 1) + quote@,
{
    let len = s.unicode_len();
    let mut out = quote.to_owned();
    out.append(s.substring_char(1, len - 1));
    out.append(quote);
    out
}

} // verus!

