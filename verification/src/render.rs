//! Rendering a statement back to notation text.
//!
//! The printer is a deterministic pure function of the tree: terminals keep
//! their text verbatim between their delimiters, a concatenation joins its
//! parts with single spaces, repetition operators follow their atom, and an
//! alternation joins its operands with `|`.  A part that is itself a
//! concatenation or an alternation is parenthesized, so that re-parsing the
//! rendered text rebuilds the same shape (proved in [`crate::laws`] for
//! well-formed trees).

use crate::ast::EbnfStatement;
use crate::ast::SpecStatement;
use crate::ast::view_stmts;
use crate::ast::lemma_view_stmts_len;
use crate::ast::lemma_view_stmts_index;
use vstd::prelude::*;
use vstd::string::StringExecFns;

verus! {

/// The rendered text of a statement.
pub open spec fn spec_render(st: SpecStatement) -> Seq<char>
    decreases st, 0int,
{
    match st {
        SpecStatement::StringTerminal { string } => "\""@ + string + "\""@,
        SpecStatement::RegexTerminal { string } => "/"@ + string + "/"@,
        SpecStatement::DefinedRule { rulename } => rulename,
        SpecStatement::Concatenation { rules } => spec_render_parts(rules),
        SpecStatement::Optional { rule } => spec_render_atom(*rule) + "?"@,
        SpecStatement::ZeroOrMore { rule } => spec_render_atom(*rule) + "*"@,
        SpecStatement::OneOrMore { rule } => spec_render_atom(*rule) + "+"@,
        SpecStatement::Alternation { left, right } => spec_render_atom(*left) + "|"@
            + spec_render(*right),
    }
}

/// The rendered text of a statement standing as one atom: a concatenation or
/// an alternation is parenthesized, anything else stands as it is.
pub open spec fn spec_render_atom(st: SpecStatement) -> Seq<char>
    decreases st, 1int,
{
    if st is Concatenation || st is Alternation {
        "("@ + spec_render(st) + ")"@
    } else {
        spec_render(st)
    }
}

/// The rendered parts of a concatenation, joined by single spaces.
pub open spec fn spec_render_parts(parts: Seq<SpecStatement>) -> Seq<char>
    decreases parts, 2int,
{
    if parts.len() == 0 {
        Seq::empty()
    } else if parts.len() == 1 {
        spec_render_atom(parts[0])
    } else {
        spec_render_parts(parts.drop_last()) + " "@ + spec_render_atom(parts.last())
    }
}

impl EbnfStatement {
    /// Renders the statement back to notation text, exactly as
    /// [`spec_render`] describes.
    pub fn render(&self) -> (r: String)
        ensures
            r@ == spec_render(self@),
        decreases self, 0int,
    {
        match self {
            EbnfStatement::StringTerminal { string } => {
                let mut out = String::new();
                out.append("\"");
                out.append(string.as_str());
                out.append("\"");
                proof {
                    assert(out@ =~= spec_render(self@));
                }
                out
            },
            EbnfStatement::RegexTerminal { string } => {
                let mut out = String::new();
                out.append("/");
                out.append(string.as_str());
                out.append("/");
                proof {
                    assert(out@ =~= spec_render(self@));
                }
                out
            },
            EbnfStatement::DefinedRule { rulename } => {
                let mut out = String::new();
                out.append(rulename.as_str());
                proof {
                    assert(out@ =~= spec_render(self@));
                }
                out
            },
            EbnfStatement::Concatenation { rules } => {
                let mut out = String::new();
                let mut k: usize = 0;
                proof {
                    lemma_view_stmts_len(rules@);
                    assert(view_stmts(rules@).subrange(0, 0) =~= Seq::<SpecStatement>::empty());
                    assert forall|j: int| 0 <= j < rules@.len() implies view_stmts(rules@)[j]
                        == rules@[j]@ by {
                        lemma_view_stmts_index(rules@, j);
                    }
                }
                while k < rules.len()
                    invariant
                        *self == (EbnfStatement::Concatenation { rules: *rules }),
                        k <= rules@.len(),
                        view_stmts(rules@).len() == rules@.len(),
                        out@ == spec_render_parts(view_stmts(rules@).subrange(0, k as int)),
                        forall|j: int| 0 <= j < rules@.len() ==> view_stmts(rules@)[j] == rules@[j]@,
                    decreases rules@.len() - k,
                {
                    if k > 0 {
                        out.append(" ");
                    }
                    proof {
                        assert(decreases_to!(*self => self->Concatenation_rules));
                        assert(self->Concatenation_rules == *rules);
                        assert(decreases_to!(*rules => rules@));
                        assert(decreases_to!(rules@ => rules@[k as int]));
                    }
                    let part = rules[k].render_atom();
                    out.append(part.as_str());
                    proof {
                        let whole = view_stmts(rules@);
                        assert(whole.subrange(0, k + 1).drop_last() =~= whole.subrange(0, k as int));
                        assert(whole.subrange(0, k + 1).last() == whole[k as int]);
                        assert(out@ =~= spec_render_parts(whole.subrange(0, k + 1)));
                    }
                    k = k + 1;
                }
                proof {
                    assert(view_stmts(rules@).subrange(0, rules@.len() as int) =~= view_stmts(
                        rules@,
                    ));
                }
                out
            },
            EbnfStatement::Optional { rule } => {
                let mut out = rule.render_atom();
                out.append("?");
                proof {
                    assert(out@ =~= spec_render(self@));
                }
                out
            },
            EbnfStatement::ZeroOrMore { rule } => {
                let mut out = rule.render_atom();
                out.append("*");
                proof {
                    assert(out@ =~= spec_render(self@));
                }
                out
            },
            EbnfStatement::OneOrMore { rule } => {
                let mut out = rule.render_atom();
                out.append("+");
                proof {
                    assert(out@ =~= spec_render(self@));
                }
                out
            },
            EbnfStatement::Alternation { left, right } => {
                let mut out = left.render_atom();
                out.append("|");
                let rest = right.render();
                out.append(rest.as_str());
                proof {
                    assert(out@ =~= spec_render(self@));
                }
                out
            },
        }
    }

    /// Renders the statement as one atom: parenthesized when it is a
    /// concatenation or an alternation, exactly as [`spec_render_atom`]
    /// describes.
    pub fn render_atom(&self) -> (r: String)
        ensures
            r@ == spec_render_atom(self@),
        decreases self, 1int,
    {
        match self {
            EbnfStatement::Concatenation { .. } | EbnfStatement::Alternation { .. } => {
                let mut out = String::new();
                out.append("(");
                let inner = self.render();
                out.append(inner.as_str());
                out.append(")");
                proof {
                    assert(out@ =~= spec_render_atom(self@));
                }
                out
            },
            _ => self.render(),
        }
    }
}

} // verus!
