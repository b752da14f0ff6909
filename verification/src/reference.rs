//! The names an expression refers to: the functions it calls and the
//! variables it reads.
use crate::expression::Expression;
use crate::string_literal::StringLiteral;
use crate::text::string_of;
use crate::token::Token;
use vstd::prelude::*;

verus! {

/// A use of a name in an expression.
#[derive(Debug, PartialEq, Eq)]
pub enum Reference {
    /// A call of the function `name` with `arguments` arguments, named by
    /// `token`
    Call { name: String, arguments: usize, token: Token },
    /// A read of the variable `name`, at `token`
    Variable { name: String, token: Token },
}

/// A use of a name, as plain values.
pub enum ReferenceView {
    Call { name: Seq<char>, arguments: nat, token: Token },
    Variable { name: Seq<char>, token: Token },
}

/// `r` as plain values.
pub open spec fn reference_view(r: Reference) -> ReferenceView {
    match r {
        Reference::Call { name, arguments, token } => ReferenceView::Call {
            name: name@,
            arguments: arguments as nat,
            token,
        },
        Reference::Variable { name, token } => ReferenceView::Variable { name: name@, token },
    }
}

/// The views of `refs`.
pub open spec fn reference_views(refs: Seq<Reference>) -> Seq<ReferenceView> {
    refs.map_values(|r: Reference| reference_view(r))
}

/// The references of an optional operand.
pub open spec fn option_references(e: Option<Box<Expression>>) -> Seq<ReferenceView>
    decreases e, 1nat,
{
    match e {
        Some(x) => expression_references(*x),
        None => Seq::empty(),
    }
}

/// The names `e` refers to, from left to right; a call comes after the
/// references of its arguments.
pub open spec fn expression_references(e: Expression) -> Seq<ReferenceView>
    decreases e, 0nat,
{
    match e {
        Expression::And { lhs, rhs }
        | Expression::Concatenation { lhs, rhs }
        | Expression::ListConcatenation { lhs, rhs }
        | Expression::Or { lhs, rhs } => expression_references(*lhs) + expression_references(*rhs),
        Expression::Comparison { lhs, rhs, .. } => expression_references(*lhs)
            + expression_references(*rhs),
        Expression::Assert { condition, message, .. } => expression_references(*condition)
            + option_references(message),
        Expression::Backtick { .. } | Expression::StringLiteral { .. } => Seq::empty(),
        Expression::Call { name, token, arguments } => list_references(arguments@, 0) + seq![
            ReferenceView::Call { name: name@, arguments: arguments@.len(), token },
        ],
        Expression::Conditional { condition, if_true, otherwise } => expression_references(
            *condition,
        ) + expression_references(*if_true) + option_references(otherwise),
        Expression::FormatString { expressions, .. } => format_references(expressions@, 0),
        Expression::Group { contents } => expression_references(*contents),
        Expression::Join { lhs, rhs } => option_references(lhs) + expression_references(*rhs),
        Expression::List { elements } => list_references(elements@, 0),
        Expression::Not { operand } => expression_references(*operand),
        Expression::Variable { name, token } => seq![ReferenceView::Variable { name: name@, token }],
    }
}

/// The references of `items[i..]`, one after another.
pub open spec fn list_references(items: Seq<Expression>, i: int) -> Seq<ReferenceView>
    decreases items, items.len() - i,
{
    if 0 <= i < items.len() {
        expression_references(items[i]) + list_references(items, i + 1)
    } else {
        Seq::empty()
    }
}

/// The references of the interpolated expressions `parts[i..]`.
pub open spec fn format_references(parts: Seq<(Expression, StringLiteral)>, i: int) -> Seq<
    ReferenceView,
>
    decreases parts, parts.len() - i,
{
    if 0 <= i < parts.len() {
        expression_references(parts[i].0) + format_references(parts, i + 1)
    } else {
        Seq::empty()
    }
}

/// Appends `r` to `out`.
fn push_reference(out: &mut Vec<Reference>, r: Reference)
    ensures
        reference_views(final(out)@) == reference_views(old(out)@) + seq![reference_view(r)],
{
    let ghost before = out@;
    out.push(r);
    assert(reference_views(out@) =~= reference_views(before) + seq![reference_view(r)]);
}

impl Expression {
    /// The names the expression refers to, by the order of
    /// `expression_references`.
    pub fn references(&self) -> (r: Vec<Reference>)
        ensures
            reference_views(r@) == expression_references(*self),
    {
        let mut r: Vec<Reference> = Vec::new();
        self.push_references(&mut r);
        assert(reference_views(r@) =~= expression_references(*self));
        r
    }

    /// Appends the names the expression refers to to `out`.
    fn push_references(&self, out: &mut Vec<Reference>)
        ensures
            reference_views(final(out)@) == reference_views(old(out)@) + expression_references(
                *self,
            ),
        decreases self, 0nat,
    {
        let ghost start = reference_views(out@);
        match self {
            Expression::And { lhs, rhs }
            | Expression::Concatenation { lhs, rhs }
            | Expression::ListConcatenation { lhs, rhs }
            | Expression::Or { lhs, rhs } => {
                lhs.push_references(out);
                rhs.push_references(out);
            },
            Expression::Comparison { lhs, rhs, .. } => {
                lhs.push_references(out);
                rhs.push_references(out);
            },
            Expression::Assert { condition, message, .. } => {
                condition.push_references(out);
                match message {
                    Some(m) => m.push_references(out),
                    None => {},
                }
                assert(option_references(*message) == match *message {
                    Some(m) => expression_references(*m),
                    None => Seq::empty(),
                });
            },
            Expression::Backtick { .. } | Expression::StringLiteral { .. } => {},
            Expression::Call { name, token, arguments } => {
                push_list_references(arguments, out);
                push_reference(
                    out,
                    Reference::Call {
                        name: string_of(name.as_str()),
                        arguments: arguments.len(),
                        token: *token,
                    },
                );
            },
            Expression::Conditional { condition, if_true, otherwise } => {
                condition.push_references(out);
                if_true.push_references(out);
                match otherwise {
                    Some(o) => o.push_references(out),
                    None => {},
                }
                assert(option_references(*otherwise) == match *otherwise {
                    Some(o) => expression_references(*o),
                    None => Seq::empty(),
                });
            },
            Expression::FormatString { expressions, .. } => {
                push_format_references(expressions, out);
            },
            Expression::Group { contents } => {
                contents.push_references(out);
            },
            Expression::Join { lhs, rhs } => {
                match lhs {
                    Some(l) => l.push_references(out),
                    None => {},
                }
                assert(option_references(*lhs) == match *lhs {
                    Some(l) => expression_references(*l),
                    None => Seq::empty(),
                });
                rhs.push_references(out);
            },
            Expression::List { elements } => {
                push_list_references(elements, out);
            },
            Expression::Not { operand } => {
                operand.push_references(out);
            },
            Expression::Variable { name, token } => {
                push_reference(out, Reference::Variable { name: string_of(name.as_str()), token: *token });
            },
        }
        assert(reference_views(out@) =~= start + expression_references(*self));
    }
}

/// Appends the references of `items`, one after another, to `out`.
fn push_list_references(items: &Vec<Expression>, out: &mut Vec<Reference>)
    ensures
        reference_views(final(out)@) == reference_views(old(out)@) + list_references(items@, 0),
    decreases items, items.len(),
{
    let ghost start = reference_views(out@);
    let mut k: usize = 0;
    while k < items.len()
        invariant
            k <= items.len(),
            reference_views(out@) + list_references(items@, k as int) =~= start
                + list_references(items@, 0),
        decreases items.len() - k,
    {
        items[k].push_references(out);
        k += 1;
    }
}

/// Appends the references of the interpolated expressions of `parts` to
/// `out`.
fn push_format_references(parts: &Vec<(Expression, StringLiteral)>, out: &mut Vec<Reference>)
    ensures
        reference_views(final(out)@) == reference_views(old(out)@) + format_references(
            parts@,
            0,
        ),
    decreases parts, parts.len(),
{
    let ghost start = reference_views(out@);
    let mut k: usize = 0;
    while k < parts.len()
        invariant
            k <= parts.len(),
            reference_views(out@) + format_references(parts@, k as int) =~= start
                + format_references(parts@, 0),
        decreases parts.len() - k,
    {
        parts[k].0.push_references(out);
        k += 1;
    }
}

} // verus!
