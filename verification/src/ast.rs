//! The abstract syntax tree of grammar expressions and rules, together with
//! its mathematical mirror used in contracts.
//!
//! Every executable node type has a view onto a spec-level node type whose
//! text payloads are `Seq<char>`; all parser contracts speak about the
//! spec-level types.

use vstd::prelude::*;

verus! {

/// One grammar expression.
///
/// Immutable once built: the parsers construct nodes and never change them.
/// `Concatenation` is implicit in the notation (two or more adjacent atoms);
/// a single atom is never wrapped in a unary `Concatenation`.
/// `Alternation` always has exactly two operands and nests to the right.
#[derive(Debug, PartialEq, Eq)]
pub enum EbnfStatement {
    /// Matches exactly the literal text (kept verbatim, escapes included).
    StringTerminal { string: String },
    /// Matches text satisfying the pattern text (kept verbatim).
    RegexTerminal { string: String },
    /// A reference to another declared rule, by name.
    DefinedRule { rulename: String },
    /// All parts must match, in order; always two or more parts.
    Concatenation { rules: Vec<EbnfStatement> },
    /// Zero or one occurrence of the inner expression.
    Optional { rule: Box<EbnfStatement> },
    /// One or more occurrences of the inner expression.
    OneOrMore { rule: Box<EbnfStatement> },
    /// Zero or more occurrences of the inner expression.
    ZeroOrMore { rule: Box<EbnfStatement> },
    /// Either the left or the right operand must match.
    Alternation { left: Box<EbnfStatement>, right: Box<EbnfStatement> },
}

/// The spec-level mirror of [`EbnfStatement`]: payloads are `Seq<char>`.
pub enum SpecStatement {
    /// Mirror of `EbnfStatement::StringTerminal`.
    StringTerminal { string: Seq<char> },
    /// Mirror of `EbnfStatement::RegexTerminal`.
    RegexTerminal { string: Seq<char> },
    /// Mirror of `EbnfStatement::DefinedRule`.
    DefinedRule { rulename: Seq<char> },
    /// Mirror of `EbnfStatement::Concatenation`.
    Concatenation { rules: Seq<SpecStatement> },
    /// Mirror of `EbnfStatement::Optional`.
    Optional { rule: Box<SpecStatement> },
    /// Mirror of `EbnfStatement::OneOrMore`.
    OneOrMore { rule: Box<SpecStatement> },
    /// Mirror of `EbnfStatement::ZeroOrMore`.
    ZeroOrMore { rule: Box<SpecStatement> },
    /// Mirror of `EbnfStatement::Alternation`.
    Alternation { left: Box<SpecStatement>, right: Box<SpecStatement> },
}

/// The views of a sequence of executable nodes, in order.
pub open spec fn view_stmts(v: Seq<EbnfStatement>) -> Seq<SpecStatement>
    decreases v,
{
    if v.len() == 0 {
        Seq::empty()
    } else {
        view_stmts(v.drop_last()).push(v.last()@)
    }
}

impl View for EbnfStatement {
    type V = SpecStatement;

    open spec fn view(&self) -> SpecStatement
        decreases self,
    {
        match self {
            EbnfStatement::StringTerminal { string } => SpecStatement::StringTerminal {
                string: string@,
            },
            EbnfStatement::RegexTerminal { string } => SpecStatement::RegexTerminal {
                string: string@,
            },
            EbnfStatement::DefinedRule { rulename } => SpecStatement::DefinedRule {
                rulename: rulename@,
            },
            EbnfStatement::Concatenation { rules } => SpecStatement::Concatenation {
                rules: view_stmts(rules@),
            },
            EbnfStatement::Optional { rule } => SpecStatement::Optional {
                rule: Box::new((**rule)@),
            },
            EbnfStatement::OneOrMore { rule } => SpecStatement::OneOrMore {
                rule: Box::new((**rule)@),
            },
            EbnfStatement::ZeroOrMore { rule } => SpecStatement::ZeroOrMore {
                rule: Box::new((**rule)@),
            },
            EbnfStatement::Alternation { left, right } => SpecStatement::Alternation {
                left: Box::new((**left)@),
                right: Box::new((**right)@),
            },
        }
    }
}

/// The length of the viewed sequence equals the length of the original.
pub proof fn lemma_view_stmts_len(v: Seq<EbnfStatement>)
    ensures
        view_stmts(v).len() == v.len(),
    decreases v,
{
    if v.len() > 0 {
        lemma_view_stmts_len(v.drop_last());
        assert(view_stmts(v) == view_stmts(v.drop_last()).push(v.last()@));
        assert(view_stmts(v.drop_last()).len() == v.drop_last().len());
        assert(v.drop_last().len() == v.len() - 1);
    } else {
        assert(view_stmts(v) == Seq::<SpecStatement>::empty());
    }
}

/// Viewing commutes with `push`.
pub proof fn lemma_view_stmts_push(v: Seq<EbnfStatement>, x: EbnfStatement)
    ensures
        view_stmts(v.push(x)) == view_stmts(v).push(x@),
{
    assert(v.push(x).drop_last() =~= v);
    assert(v.push(x).last() == x);
}

/// Viewing commutes with `drop_last`.
pub proof fn lemma_view_stmts_drop_last(v: Seq<EbnfStatement>)
    requires
        v.len() > 0,
    ensures
        view_stmts(v.drop_last()) == view_stmts(v).drop_last(),
        view_stmts(v).last() == v.last()@,
{
    lemma_view_stmts_len(v);
    lemma_view_stmts_len(v.drop_last());
    assert(view_stmts(v) == view_stmts(v.drop_last()).push(v.last()@));
    assert(view_stmts(v).drop_last() =~= view_stmts(v.drop_last()));
}

/// One viewed element, for the singleton case of `combine`.
pub proof fn lemma_view_stmts_index(v: Seq<EbnfStatement>, i: int)
    requires
        0 <= i < v.len(),
    ensures
        view_stmts(v)[i] == v[i]@,
    decreases v,
{
    lemma_view_stmts_len(v);
    lemma_view_stmts_len(v.drop_last());
    assert(view_stmts(v) == view_stmts(v.drop_last()).push(v.last()@));
    if i < v.len() - 1 {
        lemma_view_stmts_index(v.drop_last(), i);
        assert(v.drop_last()[i] == v[i]);
        assert(view_stmts(v)[i] == view_stmts(v.drop_last())[i]);
    } else {
        assert(v.last() == v[i]);
        assert(view_stmts(v)[i] == v.last()@);
    }
}

/// A named, top-level grammar declaration: an identifier bound to one body.
#[derive(Debug, PartialEq, Eq)]
pub struct EbnfRule {
    /// The declared name.
    pub name: String,
    /// The body expression.
    pub rule: EbnfStatement,
}

/// The spec-level mirror of [`EbnfRule`].
pub struct SpecRule {
    /// Mirror of `EbnfRule::name`.
    pub name: Seq<char>,
    /// Mirror of `EbnfRule::rule`.
    pub rule: SpecStatement,
}

impl View for EbnfRule {
    type V = SpecRule;

    open spec fn view(&self) -> SpecRule {
        SpecRule { name: self.name@, rule: self.rule@ }
    }
}

/// The views of a sequence of rules, in order.
pub open spec fn view_rules(v: Seq<EbnfRule>) -> Seq<SpecRule> {
    v.map_values(|r: EbnfRule| r@)
}

/// Viewing a rule sequence commutes with `push`.
pub proof fn lemma_view_rules_push(v: Seq<EbnfRule>, x: EbnfRule)
    ensures
        view_rules(v.push(x)) == view_rules(v).push(x@),
{
    assert(view_rules(v.push(x)) =~= view_rules(v).push(x@));
}

} // verus!
