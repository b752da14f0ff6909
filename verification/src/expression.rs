//! Expressions of the recipe language: how they are written back as text,
//! and the structure in which they are dumped.
use crate::conditional_operator::ConditionalOperator;
use crate::string_literal::{literal_text, StringLiteral};
use crate::text::{append_str, string_of};
use crate::token::Token;
use vstd::prelude::*;

verus! {

/// An expression. Names are held by their text, with their tokens.
#[derive(Debug, PartialEq, Eq)]
#[allow(inconsistent_fields)]
pub enum Expression {
    /// `lhs && rhs`
    And { lhs: Box<Expression>, rhs: Box<Expression> },
    /// `assert(condition, message)`
    Assert { condition: Box<Expression>, message: Option<Box<Expression>>, name: String },
    /// `` `contents` ``, with the text of the backtick token
    Backtick { contents: String, lexeme: String },
    /// `name(arguments)`
    /// A call of the function `name`, whose name token is `token`
    Call { name: String, token: Token, arguments: Vec<Expression> },
    /// `lhs == rhs` and the other comparisons
    Comparison { lhs: Box<Expression>, operator: ConditionalOperator, rhs: Box<Expression> },
    /// `lhs + rhs`
    Concatenation { lhs: Box<Expression>, rhs: Box<Expression> },
    /// `if condition { if_true } else { otherwise }`
    Conditional {
        condition: Box<Expression>,
        if_true: Box<Expression>,
        otherwise: Option<Box<Expression>>,
    },
    /// `f"..."`: the piece before the first interpolation, then each
    /// interpolated expression with the piece after it
    FormatString { start: StringLiteral, expressions: Vec<(Expression, StringLiteral)> },
    /// `(contents)`
    Group { contents: Box<Expression> },
    /// `lhs / rhs`, or `/ rhs`
    Join { lhs: Option<Box<Expression>>, rhs: Box<Expression> },
    /// `[a, b, c]`
    List { elements: Vec<Expression> },
    /// `lhs ++ rhs`
    ListConcatenation { lhs: Box<Expression>, rhs: Box<Expression> },
    /// `!operand`
    Not { operand: Box<Expression> },
    /// `lhs || rhs`
    Or { lhs: Box<Expression>, rhs: Box<Expression> },
    /// A string literal
    StringLiteral { string_literal: StringLiteral },
    /// A variable
    /// A read of the variable `name`, whose token is `token`
    Variable { name: String, token: Token },
}

/// How the operator `op` is written.
pub open spec fn operator_text(op: ConditionalOperator) -> Seq<char> {
    match op {
        ConditionalOperator::Equality => "=="@,
        ConditionalOperator::Inequality => "!="@,
        ConditionalOperator::RegexMatch => "=~"@,
        ConditionalOperator::RegexMismatch => "!~"@,
    }
}

/// How `e` is written.
pub open spec fn expression_text(e: Expression) -> Seq<char>
    decreases e, 0nat,
{
    match e {
        Expression::And { lhs, rhs } => expression_text(*lhs) + " && "@ + expression_text(*rhs),
        Expression::Assert { condition, message, .. } => match message {
            Some(m) => "assert("@ + expression_text(*condition) + ", "@ + expression_text(*m)
                + ")"@,
            None => "assert("@ + expression_text(*condition) + ")"@,
        },
        Expression::Backtick { lexeme, .. } => lexeme@,
        Expression::Call { name, arguments, .. } => name@ + "("@ + list_text(arguments@, 0) + ")"@,
        Expression::Comparison { lhs, operator, rhs } => expression_text(*lhs) + " "@
            + operator_text(operator) + " "@ + expression_text(*rhs),
        Expression::Concatenation { lhs, rhs } => expression_text(*lhs) + " + "@ + expression_text(
            *rhs,
        ),
        Expression::ListConcatenation { lhs, rhs } => expression_text(*lhs) + " ++ "@
            + expression_text(*rhs),
        Expression::Conditional { condition, if_true, otherwise } => "if "@ + expression_text(
            *condition,
        ) + " { "@ + expression_text(*if_true) + " }"@ + match otherwise {
            Some(o) => if *o is Conditional {
                " else "@ + expression_text(*o)
            } else {
                " else { "@ + expression_text(*o) + " }"@
            },
            None => Seq::empty(),
        },
        Expression::FormatString { start, expressions } => literal_text(start) + format_text(
            expressions@,
            0,
        ),
        Expression::Group { contents } => "("@ + expression_text(*contents) + ")"@,
        Expression::Join { lhs, rhs } => match lhs {
            Some(l) => expression_text(*l) + " / "@ + expression_text(*rhs),
            None => "/ "@ + expression_text(*rhs),
        },
        Expression::List { elements } => "["@ + list_text(elements@, 0) + "]"@,
        Expression::Not { operand } => "!"@ + expression_text(*operand),
        Expression::Or { lhs, rhs } => expression_text(*lhs) + " || "@ + expression_text(*rhs),
        Expression::StringLiteral { string_literal } => literal_text(string_literal),
        Expression::Variable { name, .. } => name@,
    }
}

/// `items[i..]` written one after another, separated by `, `, with the
/// separator before the first of them when `i > 0`.
pub open spec fn list_text(items: Seq<Expression>, i: int) -> Seq<char>
    decreases items, items.len() - i,
{
    if 0 <= i < items.len() {
        (if i > 0 {
            ", "@
        } else {
            Seq::empty()
        }) + expression_text(items[i]) + list_text(items, i + 1)
    } else {
        Seq::empty()
    }
}

/// The interpolated expressions `parts[i..]` of a format string, each
/// followed by the piece of text after it.
pub open spec fn format_text(parts: Seq<(Expression, StringLiteral)>, i: int) -> Seq<char>
    decreases parts, parts.len() - i,
{
    if 0 <= i < parts.len() {
        expression_text(parts[i].0) + literal_text(parts[i].1) + format_text(parts, i + 1)
    } else {
        Seq::empty()
    }
}

impl Expression {
    /// How the expression is written, by the rule of `expression_text`.
    pub fn to_string(&self) -> (r: String)
        ensures
            r@ == expression_text(*self),
        decreases self,
    {
        let mut r = String::new();
        self.write_to(&mut r);
        r
    }

    /// Appends how the expression is written to `out`.
    fn write_to(&self, out: &mut String)
        ensures
            final(out)@ == old(out)@ + expression_text(*self),
        decreases self, 0nat,
    {
        let ghost start = out@;
        match self {
            Expression::And { lhs, rhs } => {
                lhs.write_to(out);
                append_str(out, " && ");
                rhs.write_to(out);
            },
            Expression::Assert { condition, message, .. } => {
                append_str(out, "assert(");
                condition.write_to(out);
                match message {
                    Some(m) => {
                        append_str(out, ", ");
                        m.write_to(out);
                    },
                    None => {},
                }
                append_str(out, ")");
            },
            Expression::Backtick { lexeme, .. } => {
                append_str(out, lexeme.as_str());
            },
            Expression::Call { name, arguments, .. } => {
                append_str(out, name.as_str());
                append_str(out, "(");
                write_list(arguments, out);
                append_str(out, ")");
            },
            Expression::Comparison { lhs, operator, rhs } => {
                lhs.write_to(out);
                append_str(out, " ");
                append_str(out, operator.to_str());
                append_str(out, " ");
                rhs.write_to(out);
            },
            Expression::Concatenation { lhs, rhs } => {
                lhs.write_to(out);
                append_str(out, " + ");
                rhs.write_to(out);
            },
            Expression::ListConcatenation { lhs, rhs } => {
                lhs.write_to(out);
                append_str(out, " ++ ");
                rhs.write_to(out);
            },
            Expression::Conditional { condition, if_true, otherwise } => {
                append_str(out, "if ");
                condition.write_to(out);
                append_str(out, " { ");
                if_true.write_to(out);
                append_str(out, " }");
                match otherwise {
                    Some(o) => {
                        if matches!(**o, Expression::Conditional { .. }) {
                            append_str(out, " else ");
                            o.write_to(out);
                        } else {
                            append_str(out, " else { ");
                            o.write_to(out);
                            append_str(out, " }");
                        }
                    },
                    None => {},
                }
            },
            Expression::FormatString { start, expressions } => {
                let text = start.to_string();
                append_str(out, text.as_str());
                write_format(expressions, out);
            },
            Expression::Group { contents } => {
                append_str(out, "(");
                contents.write_to(out);
                append_str(out, ")");
            },
            Expression::Join { lhs, rhs } => {
                match lhs {
                    Some(l) => {
                        l.write_to(out);
                        append_str(out, " / ");
                    },
                    None => {
                        append_str(out, "/ ");
                    },
                }
                rhs.write_to(out);
            },
            Expression::List { elements } => {
                append_str(out, "[");
                write_list(elements, out);
                append_str(out, "]");
            },
            Expression::Not { operand } => {
                append_str(out, "!");
                operand.write_to(out);
            },
            Expression::Or { lhs, rhs } => {
                lhs.write_to(out);
                append_str(out, " || ");
                rhs.write_to(out);
            },
            Expression::StringLiteral { string_literal } => {
                let text = string_literal.to_string();
                append_str(out, text.as_str());
            },
            Expression::Variable { name, .. } => {
                append_str(out, name.as_str());
            },
        }
        assert(out@ =~= start + expression_text(*self));
    }
}

/// Appends `items`, separated by `, `, to `out`.
fn write_list(items: &Vec<Expression>, out: &mut String)
    ensures
        final(out)@ == old(out)@ + list_text(items@, 0),
    decreases items, items.len(),
{
    let ghost start = out@;
    let mut k: usize = 0;
    while k < items.len()
        invariant
            k <= items.len(),
            out@ + list_text(items@, k as int) =~= start + list_text(items@, 0),
        decreases items.len() - k,
    {
        if k > 0 {
            append_str(out, ", ");
        }
        items[k].write_to(out);
        k += 1;
    }
}

/// Appends each interpolated expression of `parts`, followed by the text
/// after it, to `out`.
fn write_format(parts: &Vec<(Expression, StringLiteral)>, out: &mut String)
    ensures
        final(out)@ == old(out)@ + format_text(parts@, 0),
    decreases parts, parts.len(),
{
    let ghost start = out@;
    let mut k: usize = 0;
    while k < parts.len()
        invariant
            k <= parts.len(),
            out@ + format_text(parts@, k as int) =~= start + format_text(parts@, 0),
        decreases parts.len() - k,
    {
        parts[k].0.write_to(out);
        let text = parts[k].1.to_string();
        append_str(out, text.as_str());
        k += 1;
    }
}

/// A value in the dump of a recipe file: nothing, a string, a number, a
/// list of values, or named values.
#[derive(Debug, PartialEq, Eq)]
pub enum Serialized {
    Null,
    Text(String),
    Number(usize),
    List(Vec<Serialized>),
    Fields(Vec<(String, Serialized)>),
}

/// What a `Serialized` holds, with its text as characters.
pub enum SerializedView {
    Null,
    Text(Seq<char>),
    Number(int),
    List(Seq<SerializedView>),
    Fields(Seq<(Seq<char>, SerializedView)>),
}

/// What `s` holds.
pub open spec fn serialized_view(s: Serialized) -> SerializedView
    decreases s, 0nat,
{
    match s {
        Serialized::Null => SerializedView::Null,
        Serialized::Text(t) => SerializedView::Text(t@),
        Serialized::Number(n) => SerializedView::Number(n as int),
        Serialized::List(items) => SerializedView::List(serialized_views(items@, 0)),
        Serialized::Fields(entries) => SerializedView::Fields(serialized_entries(entries@, 0)),
    }
}

/// What the named values `entries[i..]` hold.
pub open spec fn serialized_entries(entries: Seq<(String, Serialized)>, i: int) -> Seq<(Seq<char>, SerializedView)>
    decreases entries, entries.len() - i,
{
    if 0 <= i < entries.len() {
        seq![(entries[i].0@, serialized_view(entries[i].1))] + serialized_entries(entries, i + 1)
    } else {
        Seq::empty()
    }
}

/// What `items[i..]` hold.
pub open spec fn serialized_views(items: Seq<Serialized>, i: int) -> Seq<SerializedView>
    decreases items, items.len() - i,
{
    if 0 <= i < items.len() {
        seq![serialized_view(items[i])] + serialized_views(items, i + 1)
    } else {
        Seq::empty()
    }
}

proof fn lemma_serialized_views_push(items: Seq<Serialized>, x: Serialized, i: int)
    requires
        0 <= i <= items.len(),
    ensures
        serialized_views(items.push(x), i) == serialized_views(items, i).push(serialized_view(x)),
    decreases items.len() - i,
{
    if i < items.len() {
        lemma_serialized_views_push(items, x, i + 1);
        assert(items.push(x)[i] == items[i]);
        assert(serialized_views(items.push(x), i) =~= serialized_views(items, i).push(
            serialized_view(x),
        ));
    } else {
        assert(serialized_views(items, i) =~= Seq::<SerializedView>::empty());
        assert(serialized_views(items.push(x), i + 1) =~= Seq::<SerializedView>::empty());
        assert(serialized_views(items.push(x), i) =~= seq![serialized_view(x)]);
    }
}

/// A text value.
pub open spec fn text_value(s: Seq<char>) -> SerializedView {
    SerializedView::Text(s)
}

/// How `e` is dumped: a list that begins with the name of its form,
/// except for a group, which is dumped as its contents, and a string
/// literal, which is dumped as its value.
pub open spec fn expression_tree(e: Expression) -> SerializedView
    decreases e, 0nat,
{
    match e {
        Expression::And { lhs, rhs } => SerializedView::List(
            seq![text_value("and"@), expression_tree(*lhs), expression_tree(*rhs)],
        ),
        Expression::Assert { condition, message, .. } => SerializedView::List(
            seq![
                text_value("assert"@),
                expression_tree(*condition),
                match message {
                    Some(m) => expression_tree(*m),
                    None => SerializedView::Null,
                },
            ],
        ),
        Expression::Backtick { contents, .. } => SerializedView::List(
            seq![text_value("evaluate"@), text_value(contents@)],
        ),
        Expression::Call { name, arguments, .. } => SerializedView::List(
            seq![text_value("call"@), text_value(name@)] + expression_trees(arguments@, 0),
        ),
        Expression::Comparison { lhs, operator, rhs } => SerializedView::List(
            seq![text_value(operator_text(operator)), expression_tree(*lhs), expression_tree(*rhs)],
        ),
        Expression::Concatenation { lhs, rhs } => SerializedView::List(
            seq![text_value("concatenate"@), expression_tree(*lhs), expression_tree(*rhs)],
        ),
        Expression::ListConcatenation { lhs, rhs } => SerializedView::List(
            seq![text_value("list-concatenate"@), expression_tree(*lhs), expression_tree(*rhs)],
        ),
        Expression::Conditional { condition, if_true, otherwise } => SerializedView::List(
            seq![
                text_value("if"@),
                expression_tree(*condition),
                expression_tree(*if_true),
                match otherwise {
                    Some(o) => expression_tree(*o),
                    None => SerializedView::Null,
                },
            ],
        ),
        Expression::FormatString { start, expressions } => SerializedView::List(
            seq![text_value("format"@), text_value(start.cooked@)] + format_trees(expressions@, 0),
        ),
        Expression::Group { contents } => expression_tree(*contents),
        Expression::Join { lhs, rhs } => SerializedView::List(
            seq![
                text_value("join"@),
                match lhs {
                    Some(l) => expression_tree(*l),
                    None => SerializedView::Null,
                },
                expression_tree(*rhs),
            ],
        ),
        Expression::List { elements } => SerializedView::List(
            seq![text_value("list"@)] + expression_trees(elements@, 0),
        ),
        Expression::Not { operand } => SerializedView::List(
            seq![text_value("not"@), expression_tree(*operand)],
        ),
        Expression::Or { lhs, rhs } => SerializedView::List(
            seq![text_value("or"@), expression_tree(*lhs), expression_tree(*rhs)],
        ),
        Expression::StringLiteral { string_literal } => text_value(string_literal.cooked@),
        Expression::Variable { name, .. } => SerializedView::List(
            seq![text_value("variable"@), text_value(name@)],
        ),
    }
}

/// How `items[i..]` are dumped, one after another.
pub open spec fn expression_trees(items: Seq<Expression>, i: int) -> Seq<SerializedView>
    decreases items, items.len() - i,
{
    if 0 <= i < items.len() {
        seq![expression_tree(items[i])] + expression_trees(items, i + 1)
    } else {
        Seq::empty()
    }
}

/// How the interpolations `parts[i..]` of a format string are dumped: each
/// expression, then the value of the text after it.
pub open spec fn format_trees(parts: Seq<(Expression, StringLiteral)>, i: int) -> Seq<SerializedView>
    decreases parts, parts.len() - i,
{
    if 0 <= i < parts.len() {
        seq![expression_tree(parts[i].0), text_value(parts[i].1.cooked@)] + format_trees(
            parts,
            i + 1,
        )
    } else {
        Seq::empty()
    }
}

/// A text value holding `s`.
fn text(s: &str) -> (r: Serialized)
    ensures
        serialized_view(r) == text_value(s@),
{
    Serialized::Text(string_of(s))
}

/// Appends `x` to `items`.
fn push_value(items: &mut Vec<Serialized>, x: Serialized)
    ensures
        serialized_views(final(items)@, 0) == serialized_views(old(items)@, 0).push(serialized_view(x)),
        final(items)@.len() == old(items)@.len() + 1,
{
    proof {
        lemma_serialized_views_push(items@, x, 0);
    }
    items.push(x);
}

/// A list value holding `items`.
fn list(items: Vec<Serialized>) -> (r: Serialized)
    ensures
        serialized_view(r) == SerializedView::List(serialized_views(items@, 0)),
{
    Serialized::List(items)
}

/// Appends how each of `items` is dumped to `out`.
fn serialize_list(items: &Vec<Expression>, out: &mut Vec<Serialized>)
    ensures
        serialized_views(final(out)@, 0) == serialized_views(old(out)@, 0) + expression_trees(items@, 0),
    decreases items, items.len(),
{
    let ghost start = serialized_views(out@, 0);
    let mut k: usize = 0;
    while k < items.len()
        invariant
            k <= items.len(),
            serialized_views(out@, 0) + expression_trees(items@, k as int) =~= start
                + expression_trees(items@, 0),
        decreases items.len() - k,
    {
        let value = items[k].serialize();
        push_value(out, value);
        k += 1;
    }
}

/// Appends how each interpolation of `parts` is dumped to `out`.
fn serialize_format(parts: &Vec<(Expression, StringLiteral)>, out: &mut Vec<Serialized>)
    ensures
        serialized_views(final(out)@, 0) == serialized_views(old(out)@, 0) + format_trees(parts@, 0),
    decreases parts, parts.len(),
{
    let ghost start = serialized_views(out@, 0);
    let mut k: usize = 0;
    while k < parts.len()
        invariant
            k <= parts.len(),
            serialized_views(out@, 0) + format_trees(parts@, k as int) =~= start + format_trees(
                parts@,
                0,
            ),
        decreases parts.len() - k,
    {
        let value = parts[k].0.serialize();
        push_value(out, value);
        push_value(out, text(parts[k].1.cooked.as_str()));
        k += 1;
    }
}

/// `Null` for no expression, else how it is dumped.
fn serialize_option(e: &Option<Box<Expression>>) -> (r: Serialized)
    ensures
        serialized_view(r) == match *e {
            Some(x) => expression_tree(*x),
            None => SerializedView::Null,
        },
    decreases e,
{
    match e {
        Some(x) => x.serialize(),
        None => Serialized::Null,
    }
}

impl Expression {
    /// How the expression is dumped, by the rule of `expression_tree`.
    pub fn serialize(&self) -> (r: Serialized)
        ensures
            serialized_view(r) == expression_tree(*self),
        decreases self,
    {
        let mut items: Vec<Serialized> = Vec::new();
        assert(serialized_views(items@, 0) =~= Seq::<SerializedView>::empty());
        match self {
            Expression::And { lhs, rhs } => {
                push_value(&mut items, text("and"));
                push_value(&mut items, lhs.serialize());
                push_value(&mut items, rhs.serialize());
            },
            Expression::Assert { condition, message, .. } => {
                push_value(&mut items, text("assert"));
                push_value(&mut items, condition.serialize());
                push_value(&mut items, serialize_option(message));
            },
            Expression::Backtick { contents, .. } => {
                push_value(&mut items, text("evaluate"));
                push_value(&mut items, text(contents.as_str()));
            },
            Expression::Call { name, arguments, .. } => {
                push_value(&mut items, text("call"));
                push_value(&mut items, text(name.as_str()));
                serialize_list(arguments, &mut items);
            },
            Expression::Comparison { lhs, operator, rhs } => {
                push_value(&mut items, text(operator.to_str()));
                push_value(&mut items, lhs.serialize());
                push_value(&mut items, rhs.serialize());
            },
            Expression::Concatenation { lhs, rhs } => {
                push_value(&mut items, text("concatenate"));
                push_value(&mut items, lhs.serialize());
                push_value(&mut items, rhs.serialize());
            },
            Expression::ListConcatenation { lhs, rhs } => {
                push_value(&mut items, text("list-concatenate"));
                push_value(&mut items, lhs.serialize());
                push_value(&mut items, rhs.serialize());
            },
            Expression::Conditional { condition, if_true, otherwise } => {
                push_value(&mut items, text("if"));
                push_value(&mut items, condition.serialize());
                push_value(&mut items, if_true.serialize());
                push_value(&mut items, serialize_option(otherwise));
            },
            Expression::FormatString { start, expressions } => {
                push_value(&mut items, text("format"));
                push_value(&mut items, text(start.cooked.as_str()));
                serialize_format(expressions, &mut items);
            },
            Expression::Group { contents } => {
                return contents.serialize();
            },
            Expression::Join { lhs, rhs } => {
                push_value(&mut items, text("join"));
                push_value(&mut items, serialize_option(lhs));
                push_value(&mut items, rhs.serialize());
            },
            Expression::List { elements } => {
                push_value(&mut items, text("list"));
                serialize_list(elements, &mut items);
            },
            Expression::Not { operand } => {
                push_value(&mut items, text("not"));
                push_value(&mut items, operand.serialize());
            },
            Expression::Or { lhs, rhs } => {
                push_value(&mut items, text("or"));
                push_value(&mut items, lhs.serialize());
                push_value(&mut items, rhs.serialize());
            },
            Expression::StringLiteral { string_literal } => {
                return text(string_literal.cooked.as_str());
            },
            Expression::Variable { name, .. } => {
                push_value(&mut items, text("variable"));
                push_value(&mut items, text(name.as_str()));
            },
        }
        let ghost views = serialized_views(items@, 0);
        let r = list(items);
        proof {
            match expression_tree(*self) {
                SerializedView::List(expected) => {
                    assert(views =~= expected);
                },
                _ => {},
            }
        }
        r
    }
}

/// A comparison of two expressions.
#[derive(Debug, PartialEq, Eq)]
pub struct Condition {
    pub lhs: Box<Expression>,
    pub rhs: Box<Expression>,
    pub operator: ConditionalOperator,
}

impl Condition {
    /// How the condition is written: `lhs operator rhs`.
    pub fn to_string(&self) -> (r: String)
        ensures
            r@ == expression_text(*self.lhs) + " "@ + operator_text(self.operator) + " "@
                + expression_text(*self.rhs),
    {
        let mut r = String::new();
        self.lhs.write_to(&mut r);
        append_str(&mut r, " ");
        append_str(&mut r, self.operator.to_str());
        append_str(&mut r, " ");
        self.rhs.write_to(&mut r);
        r
    }

    /// How the condition is dumped: the operator, then both sides.
    pub fn serialize(&self) -> (r: Serialized)
        ensures
            serialized_view(r) == SerializedView::List(
                seq![
                    text_value(operator_text(self.operator)),
                    expression_tree(*self.lhs),
                    expression_tree(*self.rhs),
                ],
            ),
    {
        let mut items: Vec<Serialized> = Vec::new();
        assert(serialized_views(items@, 0) =~= Seq::<SerializedView>::empty());
        push_value(&mut items, text(self.operator.to_str()));
        push_value(&mut items, self.lhs.serialize());
        push_value(&mut items, self.rhs.serialize());
        let ghost views = serialized_views(items@, 0);
        let r = list(items);
        assert(views =~= seq![
            text_value(operator_text(self.operator)),
            expression_tree(*self.lhs),
            expression_tree(*self.rhs),
        ]);
        r
    }
}

/// An argument of a dependency, marked with `*` when it is starred.
#[derive(Debug, PartialEq, Eq)]
pub struct DependencyArgument {
    pub expression: Expression,
    pub starred: bool,
}

/// How a dependency argument is written.
pub open spec fn argument_text(a: DependencyArgument) -> Seq<char> {
    (if a.starred {
        "*"@
    } else {
        Seq::empty()
    }) + expression_text(a.expression)
}

impl DependencyArgument {
    /// How the argument is written: `*` if it is starred, then its
    /// expression.
    pub fn to_string(&self) -> (r: String)
        ensures
            r@ == argument_text(*self),
    {
        let mut r = String::new();
        if self.starred {
            append_str(&mut r, "*");
        }
        self.expression.write_to(&mut r);
        r
    }
}

/// A dependency of a recipe: the path of the recipe it runs, as written,
/// and its arguments, grouped by parameter.
#[derive(Debug, PartialEq, Eq)]
pub struct Dependency {
    pub arguments: Vec<Vec<DependencyArgument>>,
    pub path: String,
}

/// The group at position `k` of `groups` holds a starred argument.
pub open spec fn group_starred(groups: Seq<Vec<DependencyArgument>>, k: int) -> bool {
    exists|j: int| 0 <= j < groups[k]@.len() && (#[trigger] groups[k]@[j]).starred
}

/// The written form of the arguments `groups[k..]` (from the `j`-th
/// argument of the `k`-th group on), each after a space.
pub open spec fn arguments_text(groups: Seq<Vec<DependencyArgument>>, k: int, j: int) -> Seq<char>
    decreases groups.len() - k, if 0 <= k < groups.len() {
        groups[k]@.len() - j
    } else {
        0
    },
{
    if 0 <= k < groups.len() {
        if 0 <= j < groups[k]@.len() {
            " "@ + argument_text(groups[k]@[j]) + arguments_text(groups, k, j + 1)
        } else {
            arguments_text(groups, k + 1, 0)
        }
    } else {
        Seq::empty()
    }
}

impl Dependency {
    /// The position of the first group that holds a starred argument.
    pub fn star(&self) -> (r: Option<usize>)
        ensures
            match r {
                Some(k) => k < self.arguments.len() && group_starred(self.arguments@, k as int)
                    && forall|m: int| 0 <= m < k ==> !group_starred(self.arguments@, m),
                None => forall|m: int|
                    0 <= m < self.arguments.len() ==> !group_starred(self.arguments@, m),
            },
    {
        let mut k: usize = 0;
        while k < self.arguments.len()
            invariant
                k <= self.arguments.len(),
                forall|m: int| 0 <= m < k ==> !group_starred(self.arguments@, m),
            decreases self.arguments.len() - k,
        {
            let group = &self.arguments[k];
            let mut j: usize = 0;
            while j < group.len()
                invariant
                    k < self.arguments.len(),
                    *group == self.arguments@[k as int],
                    j <= group.len(),
                    forall|m: int| 0 <= m < k ==> !group_starred(self.arguments@, m),
                    forall|i: int| 0 <= i < j ==> !(#[trigger] group@[i]).starred,
                decreases group.len() - j,
            {
                if group[j].starred {
                    assert(self.arguments@[k as int]@[j as int].starred);
                    return Some(k);
                }
                j += 1;
            }
            k += 1;
        }
        None
    }

    /// How the dependency is written: its path alone when it has no
    /// arguments, else `(path arg...)`, preceded by `*` when an argument is
    /// starred.
    pub fn to_string(&self) -> (r: String)
        ensures
            r@ == if self.arguments.len() == 0 {
                self.path@
            } else {
                (if exists|m: int| 0 <= m < self.arguments.len() && group_starred(self.arguments@, m) {
                    "*"@
                } else {
                    Seq::empty()
                }) + "("@ + self.path@ + arguments_text(self.arguments@, 0, 0) + ")"@
            },
    {
        if self.arguments.len() == 0 {
            return string_of(self.path.as_str());
        }
        let mut r = String::new();
        let ghost starred = exists|m: int| 0 <= m < self.arguments.len() && group_starred(self.arguments@, m);
        match self.star() {
            Some(_) => append_str(&mut r, "*"),
            None => {
                assert(!starred);
            },
        }
        let ghost prefix = r@;
        append_str(&mut r, "(");
        append_str(&mut r, self.path.as_str());
        let ghost head = r@;
        let mut k: usize = 0;
        while k < self.arguments.len()
            invariant
                k <= self.arguments.len(),
                r@ + arguments_text(self.arguments@, k as int, 0) =~= head + arguments_text(
                    self.arguments@,
                    0,
                    0,
                ),
            decreases self.arguments.len() - k,
        {
            let group = &self.arguments[k];
            let mut j: usize = 0;
            while j < group.len()
                invariant
                    k < self.arguments.len(),
                    *group == self.arguments@[k as int],
                    j <= group.len(),
                    r@ + arguments_text(self.arguments@, k as int, j as int) =~= head
                        + arguments_text(self.arguments@, 0, 0),
                decreases group.len() - j,
            {
                append_str(&mut r, " ");
                let text = group[j].to_string();
                append_str(&mut r, text.as_str());
                j += 1;
            }
            k += 1;
        }
        append_str(&mut r, ")");
        r
    }
}

/// A piece of a recipe line: text as written, or an interpolated
/// expression.
#[derive(Debug, PartialEq, Eq)]
pub enum Fragment {
    Text { lexeme: String },
    Interpolation { expression: Expression },
}

impl Fragment {
    /// How the fragment is dumped: text as it is written, an interpolation
    /// as a list that holds its expression.
    pub fn serialize(&self) -> (r: Serialized)
        ensures
            serialized_view(r) == match *self {
                Fragment::Text { lexeme } => text_value(lexeme@),
                Fragment::Interpolation { expression } => SerializedView::List(
                    seq![expression_tree(expression)],
                ),
            },
    {
        match self {
            Fragment::Text { lexeme } => text(lexeme.as_str()),
            Fragment::Interpolation { expression } => {
                let mut items: Vec<Serialized> = Vec::new();
                assert(serialized_views(items@, 0) =~= Seq::<SerializedView>::empty());
                push_value(&mut items, expression.serialize());
                let ghost views = serialized_views(items@, 0);
                let r = list(items);
                assert(views =~= seq![expression_tree(*expression)]);
                r
            },
        }
    }
}

/// The arguments of `groups`, one group after another.
pub open spec fn flat_arguments(groups: Seq<Vec<DependencyArgument>>) -> Seq<DependencyArgument>
    decreases groups.len(),
{
    if groups.len() == 0 {
        Seq::empty()
    } else {
        flat_arguments(groups.drop_last()) + groups.last()@
    }
}

/// The position of the first starred one of `arguments`.
pub open spec fn first_starred(arguments: Seq<DependencyArgument>) -> Option<int>
    decreases arguments.len(),
{
    if arguments.len() == 0 {
        None
    } else {
        match first_starred(arguments.drop_last()) {
            Some(i) => Some(i),
            None => if arguments.last().starred {
                Some(arguments.len() - 1)
            } else {
                None
            },
        }
    }
}

proof fn lemma_first_starred_range(arguments: Seq<DependencyArgument>)
    ensures
        first_starred(arguments) matches Some(i) ==> 0 <= i < arguments.len(),
    decreases arguments.len(),
{
    if arguments.len() > 0 {
        lemma_first_starred_range(arguments.drop_last());
    }
}

/// How the expressions of `arguments` are dumped.
pub open spec fn argument_trees(arguments: Seq<DependencyArgument>) -> Seq<SerializedView> {
    arguments.map_values(|a: DependencyArgument| expression_tree(a.expression))
}

/// How a dependency is dumped: its arguments' expressions, one group after
/// another, the path of its recipe, and the position among those arguments
/// of the first starred one.
pub open spec fn dependency_tree(d: Dependency) -> SerializedView {
    let flat = flat_arguments(d.arguments@);
    SerializedView::Fields(
        seq![
            ("arguments"@, SerializedView::List(argument_trees(flat))),
            ("recipe"@, text_value(d.path@)),
            (
                "star"@,
                match first_starred(flat) {
                    Some(i) => SerializedView::Number(i),
                    None => SerializedView::Null,
                },
            ),
        ],
    )
}

/// Appends the named value `x` to `entries`.
fn push_entry(entries: &mut Vec<(String, Serialized)>, name: &str, x: Serialized)
    ensures
        serialized_entries(final(entries)@, 0) == serialized_entries(old(entries)@, 0).push(
            (name@, serialized_view(x)),
        ),
{
    let name = string_of(name);
    proof {
        lemma_serialized_entries_push(entries@, (name, x), 0);
    }
    entries.push((name, x));
}

proof fn lemma_serialized_entries_push(entries: Seq<(String, Serialized)>, x: (String, Serialized), i: int)
    requires
        0 <= i <= entries.len(),
    ensures
        serialized_entries(entries.push(x), i) == serialized_entries(entries, i).push(
            (x.0@, serialized_view(x.1)),
        ),
    decreases entries.len() - i,
{
    if i < entries.len() {
        lemma_serialized_entries_push(entries, x, i + 1);
        assert(entries.push(x)[i] == entries[i]);
        assert(serialized_entries(entries.push(x), i) =~= serialized_entries(entries, i).push(
            (x.0@, serialized_view(x.1)),
        ));
    } else {
        assert(serialized_entries(entries, i) =~= Seq::<(Seq<char>, SerializedView)>::empty());
        assert(serialized_entries(entries.push(x), i + 1) =~= Seq::<(Seq<char>, SerializedView)>::empty());
        assert(serialized_entries(entries.push(x), i) =~= seq![(x.0@, serialized_view(x.1))]);
    }
}

impl Dependency {
    /// How the dependency is dumped, by the rule of `dependency_tree`.
    pub fn serialize(&self) -> (r: Serialized)
        ensures
            serialized_view(r) == dependency_tree(*self),
    {
        let ghost groups = self.arguments@;
        let mut arguments: Vec<Serialized> = Vec::new();
        let mut star: Option<usize> = None;
        let mut count: usize = 0;
        assert(serialized_views(arguments@, 0) =~= Seq::<SerializedView>::empty());
        let mut k: usize = 0;
        while k < self.arguments.len()
            invariant
                groups == self.arguments@,
                k <= groups.len(),
                count == flat_arguments(groups.take(k as int)).len(),
                arguments@.len() == count,
                serialized_views(arguments@, 0) == argument_trees(flat_arguments(groups.take(k as int))),
                match first_starred(flat_arguments(groups.take(k as int))) {
                    Some(i) => star == Some(i as usize),
                    None => star is None,
                },
            decreases groups.len() - k,
        {
            let group = &self.arguments[k];
            let ghost before = flat_arguments(groups.take(k as int));
            let mut j: usize = 0;
            while j < group.len()
                invariant
                    groups == self.arguments@,
                    k < groups.len(),
                    *group == groups[k as int],
                    j <= group.len(),
                    before == flat_arguments(groups.take(k as int)),
                    count == before.len() + j,
                    arguments@.len() == count,
                    serialized_views(arguments@, 0) == argument_trees(before + group@.take(j as int)),
                    match first_starred(before + group@.take(j as int)) {
                        Some(i) => star == Some(i as usize),
                        None => star is None,
                    },
                decreases group.len() - j,
            {
                let ghost prefix = before + group@.take(j as int);
                let argument = &group[j];
                let value = argument.expression.serialize();
                push_value(&mut arguments, value);
                proof {
                    let next = before + group@.take(j + 1);
                    assert(next.drop_last() =~= prefix);
                    assert(next.last() == *argument);
                    assert(argument_trees(next) =~= argument_trees(prefix).push(
                        expression_tree(argument.expression),
                    ));
                }
                if star.is_none() && argument.starred {
                    star = Some(count);
                }
                count = arguments.len();
                j += 1;
            }
            proof {
                let next = groups.take(k + 1);
                assert(next.drop_last() =~= groups.take(k as int));
                assert(group@.take(group.len() as int) =~= group@);
                assert(flat_arguments(next) == before + group@);
            }
            k += 1;
        }
        assert(groups.take(groups.len() as int) =~= groups);
        let ghost flat = flat_arguments(groups);
        let mut entries: Vec<(String, Serialized)> = Vec::new();
        assert(serialized_entries(entries@, 0) =~= Seq::<(Seq<char>, SerializedView)>::empty());
        let ghost argument_views = serialized_views(arguments@, 0);
        push_entry(&mut entries, "arguments", list(arguments));
        push_entry(&mut entries, "recipe", text(self.path.as_str()));
        let star_value = match star {
            Some(i) => Serialized::Number(i),
            None => Serialized::Null,
        };
        push_entry(&mut entries, "star", star_value);
        let ghost views = serialized_entries(entries@, 0);
        let r = Serialized::Fields(entries);
        proof {
            lemma_first_starred_range(flat);
            assert(argument_views == argument_trees(flat));
            match dependency_tree(*self) {
                SerializedView::Fields(expected) => {
                    assert(views =~= expected);
                },
                _ => {},
            }
        }
        r
    }
}

/// A user-defined enumeration: its name and its variants, in the order of
/// their names, each with its value.
#[derive(Debug, PartialEq, Eq)]
pub struct Enum {
    pub name: String,
    pub variants: Vec<(String, StringLiteral)>,
}

/// How the variants `variants[i..]` are written: `"name" = "value"`,
/// separated by `, `.
pub open spec fn variants_text(variants: Seq<(String, StringLiteral)>, i: int) -> Seq<char>
    decreases variants.len() - i,
{
    if 0 <= i < variants.len() {
        (if i > 0 {
            ", "@
        } else {
            Seq::empty()
        }) + "\""@ + variants[i].0@ + "\" = \""@ + variants[i].1.cooked@ + "\""@ + variants_text(
            variants,
            i + 1,
        )
    } else {
        Seq::empty()
    }
}

impl Enum {
    /// How the enumeration is written: `enum name := [ "a" = "x", ... ]`.
    pub fn to_string(&self) -> (r: String)
        ensures
            r@ == "enum "@ + self.name@ + " := [ "@ + variants_text(self.variants@, 0) + " ]"@,
    {
        let mut r = String::new();
        append_str(&mut r, "enum ");
        append_str(&mut r, self.name.as_str());
        append_str(&mut r, " := [ ");
        let ghost head = r@;
        let mut k: usize = 0;
        while k < self.variants.len()
            invariant
                k <= self.variants.len(),
                r@ + variants_text(self.variants@, k as int) =~= head + variants_text(
                    self.variants@,
                    0,
                ),
            decreases self.variants.len() - k,
        {
            if k > 0 {
                append_str(&mut r, ", ");
            }
            append_str(&mut r, "\"");
            append_str(&mut r, self.variants[k].0.as_str());
            append_str(&mut r, "\" = \"");
            append_str(&mut r, self.variants[k].1.cooked.as_str());
            append_str(&mut r, "\"");
            k += 1;
        }
        append_str(&mut r, " ]");
        r
    }
}


/// How many more `(` than `)` `s` holds.
pub open spec fn paren_balance(s: Seq<char>) -> int
    decreases s.len(),
{
    if s.len() == 0 {
        0
    } else {
        paren_balance(s.drop_last()) + if s.last() == '(' {
            1int
        } else if s.last() == ')' {
            -1int
        } else {
            0int
        }
    }
}

/// The parenthesis balance of the pieces of `e` that are written as they
/// were given (names, string literals, backticks), added up: the
/// parentheses that are part of the expression's own text.
pub open spec fn given_balance(e: Expression) -> int
    decreases e, 0nat,
{
    match e {
        Expression::And { lhs, rhs } => given_balance(*lhs) + given_balance(*rhs),
        Expression::Assert { condition, message, .. } => given_balance(*condition) + match message {
            Some(m) => given_balance(*m),
            None => 0,
        },
        Expression::Backtick { lexeme, .. } => paren_balance(lexeme@),
        Expression::Call { name, arguments, .. } => paren_balance(name@) + list_given_balance(
            arguments@,
            0,
        ),
        Expression::Comparison { lhs, rhs, .. } => given_balance(*lhs) + given_balance(*rhs),
        Expression::Concatenation { lhs, rhs } => given_balance(*lhs) + given_balance(*rhs),
        Expression::ListConcatenation { lhs, rhs } => given_balance(*lhs) + given_balance(*rhs),
        Expression::Conditional { condition, if_true, otherwise } => given_balance(*condition)
            + given_balance(*if_true) + match otherwise {
            Some(o) => given_balance(*o),
            None => 0,
        },
        Expression::FormatString { start, expressions } => paren_balance(literal_text(start))
            + format_given_balance(expressions@, 0),
        Expression::Group { contents } => given_balance(*contents),
        Expression::Join { lhs, rhs } => given_balance(*rhs) + match lhs {
            Some(l) => given_balance(*l),
            None => 0,
        },
        Expression::List { elements } => list_given_balance(elements@, 0),
        Expression::Not { operand } => given_balance(*operand),
        Expression::Or { lhs, rhs } => given_balance(*lhs) + given_balance(*rhs),
        Expression::StringLiteral { string_literal } => paren_balance(literal_text(string_literal)),
        Expression::Variable { name, .. } => paren_balance(name@),
    }
}

/// `given_balance` added up over `items[i..]`.
pub open spec fn list_given_balance(items: Seq<Expression>, i: int) -> int
    decreases items, items.len() - i,
{
    if 0 <= i < items.len() {
        given_balance(items[i]) + list_given_balance(items, i + 1)
    } else {
        0
    }
}

/// `given_balance` of the expressions, with the balance of the text after
/// each, added up over `parts[i..]`.
pub open spec fn format_given_balance(parts: Seq<(Expression, StringLiteral)>, i: int) -> int
    decreases parts, parts.len() - i,
{
    if 0 <= i < parts.len() {
        given_balance(parts[i].0) + paren_balance(literal_text(parts[i].1)) + format_given_balance(
            parts,
            i + 1,
        )
    } else {
        0
    }
}

proof fn lemma_balance_concat(a: Seq<char>, b: Seq<char>)
    ensures
        paren_balance(a + b) == paren_balance(a) + paren_balance(b),
    decreases b.len(),
{
    if b.len() > 0 {
        assert((a + b).drop_last() =~= a + b.drop_last());
        lemma_balance_concat(a, b.drop_last());
    } else {
        assert(a + b =~= a);
    }
}

proof fn lemma_balance_constants()
    ensures
        paren_balance(" && "@) == 0,
        paren_balance("assert("@) == 1,
        paren_balance(", "@) == 0,
        paren_balance(")"@) == -1,
        paren_balance("("@) == 1,
        paren_balance(" "@) == 0,
        paren_balance(" + "@) == 0,
        paren_balance(" ++ "@) == 0,
        paren_balance("if "@) == 0,
        paren_balance(" { "@) == 0,
        paren_balance(" }"@) == 0,
        paren_balance(" else "@) == 0,
        paren_balance(" else { "@) == 0,
        paren_balance(" / "@) == 0,
        paren_balance("/ "@) == 0,
        paren_balance("["@) == 0,
        paren_balance("]"@) == 0,
        paren_balance("!"@) == 0,
        paren_balance(" || "@) == 0,
        paren_balance("=="@) == 0,
        paren_balance("!="@) == 0,
        paren_balance("=~"@) == 0,
        paren_balance("!~"@) == 0,
        paren_balance(Seq::<char>::empty()) == 0,
{
    reveal_strlit(" && ");
    reveal_strlit("assert(");
    reveal_strlit(", ");
    reveal_strlit(")");
    reveal_strlit("(");
    reveal_strlit(" ");
    reveal_strlit(" + ");
    reveal_strlit(" ++ ");
    reveal_strlit("if ");
    reveal_strlit(" { ");
    reveal_strlit(" }");
    reveal_strlit(" else ");
    reveal_strlit(" else { ");
    reveal_strlit(" / ");
    reveal_strlit("/ ");
    reveal_strlit("[");
    reveal_strlit("]");
    reveal_strlit("!");
    reveal_strlit(" || ");
    reveal_strlit("==");
    reveal_strlit("!=");
    reveal_strlit("=~");
    reveal_strlit("!~");
    reveal_with_fuel(paren_balance, 10);
}

/// The parentheses that writing an expression adds are balanced: its text
/// holds as many more `(` than `)` as the names, string literals and
/// backticks written in it do. An assert, a call and a group each close the
/// parenthesis they open.
pub proof fn lemma_text_parens_balanced(e: Expression)
    ensures
        paren_balance(expression_text(e)) == given_balance(e),
    decreases e, 0nat,
{
    lemma_balance_constants();
    match e {
        Expression::And { lhs, rhs } => {
            lemma_text_parens_balanced(*lhs);
            lemma_text_parens_balanced(*rhs);
            lemma_balance_concat(expression_text(*lhs), " && "@);
            lemma_balance_concat(expression_text(*lhs) + " && "@, expression_text(*rhs));
        },
        Expression::Assert { condition, message, .. } => {
            lemma_text_parens_balanced(*condition);
            lemma_balance_concat("assert("@, expression_text(*condition));
            match message {
                Some(m) => {
                    lemma_text_parens_balanced(*m);
                    let a = "assert("@ + expression_text(*condition);
                    lemma_balance_concat(a, ", "@);
                    lemma_balance_concat(a + ", "@, expression_text(*m));
                    lemma_balance_concat(a + ", "@ + expression_text(*m), ")"@);
                },
                None => {
                    lemma_balance_concat("assert("@ + expression_text(*condition), ")"@);
                },
            }
        },
        Expression::Backtick { .. } => {},
        Expression::Call { name, arguments, .. } => {
            lemma_list_parens_balanced(arguments@, 0);
            lemma_balance_concat(name@, "("@);
            lemma_balance_concat(name@ + "("@, list_text(arguments@, 0));
            lemma_balance_concat(name@ + "("@ + list_text(arguments@, 0), ")"@);
        },
        Expression::Comparison { lhs, operator, rhs } => {
            lemma_text_parens_balanced(*lhs);
            lemma_text_parens_balanced(*rhs);
            let a = expression_text(*lhs);
            lemma_balance_concat(a, " "@);
            lemma_balance_concat(a + " "@, operator_text(operator));
            lemma_balance_concat(a + " "@ + operator_text(operator), " "@);
            lemma_balance_concat(a + " "@ + operator_text(operator) + " "@, expression_text(*rhs));
        },
        Expression::Concatenation { lhs, rhs } => {
            lemma_text_parens_balanced(*lhs);
            lemma_text_parens_balanced(*rhs);
            lemma_balance_concat(expression_text(*lhs), " + "@);
            lemma_balance_concat(expression_text(*lhs) + " + "@, expression_text(*rhs));
        },
        Expression::ListConcatenation { lhs, rhs } => {
            lemma_text_parens_balanced(*lhs);
            lemma_text_parens_balanced(*rhs);
            lemma_balance_concat(expression_text(*lhs), " ++ "@);
            lemma_balance_concat(expression_text(*lhs) + " ++ "@, expression_text(*rhs));
        },
        Expression::Conditional { condition, if_true, otherwise } => {
            lemma_text_parens_balanced(*condition);
            lemma_text_parens_balanced(*if_true);
            let a = "if "@ + expression_text(*condition);
            lemma_balance_concat("if "@, expression_text(*condition));
            lemma_balance_concat(a, " { "@);
            lemma_balance_concat(a + " { "@, expression_text(*if_true));
            lemma_balance_concat(a + " { "@ + expression_text(*if_true), " }"@);
            let b = a + " { "@ + expression_text(*if_true) + " }"@;
            let tail = match otherwise {
                Some(o) => if *o is Conditional {
                    " else "@ + expression_text(*o)
                } else {
                    " else { "@ + expression_text(*o) + " }"@
                },
                None => Seq::<char>::empty(),
            };
            match otherwise {
                Some(o) => {
                    lemma_text_parens_balanced(*o);
                    lemma_balance_concat(" else "@, expression_text(*o));
                    lemma_balance_concat(" else { "@, expression_text(*o));
                    lemma_balance_concat(" else { "@ + expression_text(*o), " }"@);
                },
                None => {},
            }
            lemma_balance_concat(b, tail);
        },
        Expression::FormatString { start, expressions } => {
            lemma_format_parens_balanced(expressions@, 0);
            lemma_balance_concat(literal_text(start), format_text(expressions@, 0));
        },
        Expression::Group { contents } => {
            lemma_text_parens_balanced(*contents);
            lemma_balance_concat("("@, expression_text(*contents));
            lemma_balance_concat("("@ + expression_text(*contents), ")"@);
        },
        Expression::Join { lhs, rhs } => {
            lemma_text_parens_balanced(*rhs);
            match lhs {
                Some(l) => {
                    lemma_text_parens_balanced(*l);
                    lemma_balance_concat(expression_text(*l), " / "@);
                    lemma_balance_concat(expression_text(*l) + " / "@, expression_text(*rhs));
                },
                None => {
                    lemma_balance_concat("/ "@, expression_text(*rhs));
                },
            }
        },
        Expression::List { elements } => {
            lemma_list_parens_balanced(elements@, 0);
            lemma_balance_concat("["@, list_text(elements@, 0));
            lemma_balance_concat("["@ + list_text(elements@, 0), "]"@);
        },
        Expression::Not { operand } => {
            lemma_text_parens_balanced(*operand);
            lemma_balance_concat("!"@, expression_text(*operand));
        },
        Expression::Or { lhs, rhs } => {
            lemma_text_parens_balanced(*lhs);
            lemma_text_parens_balanced(*rhs);
            lemma_balance_concat(expression_text(*lhs), " || "@);
            lemma_balance_concat(expression_text(*lhs) + " || "@, expression_text(*rhs));
        },
        Expression::StringLiteral { .. } => {},
        Expression::Variable { .. } => {},
    }
}

proof fn lemma_list_parens_balanced(items: Seq<Expression>, i: int)
    ensures
        paren_balance(list_text(items, i)) == list_given_balance(items, i),
    decreases items, items.len() - i,
{
    lemma_balance_constants();
    if 0 <= i < items.len() {
        lemma_text_parens_balanced(items[i]);
        lemma_list_parens_balanced(items, i + 1);
        let sep = if i > 0 {
            ", "@
        } else {
            Seq::<char>::empty()
        };
        lemma_balance_concat(sep, expression_text(items[i]));
        lemma_balance_concat(sep + expression_text(items[i]), list_text(items, i + 1));
    }
}

proof fn lemma_format_parens_balanced(parts: Seq<(Expression, StringLiteral)>, i: int)
    ensures
        paren_balance(format_text(parts, i)) == format_given_balance(parts, i),
    decreases parts, parts.len() - i,
{
    lemma_balance_constants();
    if 0 <= i < parts.len() {
        lemma_text_parens_balanced(parts[i].0);
        lemma_format_parens_balanced(parts, i + 1);
        lemma_balance_concat(expression_text(parts[i].0), literal_text(parts[i].1));
        lemma_balance_concat(
            expression_text(parts[i].0) + literal_text(parts[i].1),
            format_text(parts, i + 1),
        );
    }
}


/// An assert is written `assert(`, then its condition (and message), then
/// `)`; a group `(`, its contents, `)`; and a call ends with `)` after its
/// name and `(`.
pub proof fn lemma_parenthesized_forms(e: Expression)
    ensures
        e is Assert ==> expression_text(e).len() >= 8 && expression_text(e).subrange(0, 7)
            == "assert("@ && expression_text(e).last() == ')',
        e matches Expression::Assert { condition, message: None, .. } ==> expression_text(e).subrange(
            7,
            expression_text(e).len() - 1,
        ) == expression_text(*condition),
        e is Group ==> expression_text(e).len() >= 2 && expression_text(e)[0] == '('
            && expression_text(e).last() == ')',
        e matches Expression::Group { contents } ==> expression_text(e).subrange(
            1,
            expression_text(e).len() - 1,
        ) == expression_text(*contents),
        e matches Expression::Call { name, .. } ==> expression_text(e).len() >= name@.len() + 2
            && expression_text(e).subrange(0, name@.len() as int) == name@ && expression_text(e)[name@.len() as int]
            == '(' && expression_text(e).last() == ')',
{
    reveal_strlit("assert(");
    reveal_strlit(")");
    reveal_strlit("(");
    reveal_strlit(", ");
    match e {
        Expression::Assert { condition, message, .. } => {
            let t = expression_text(e);
            let c = expression_text(*condition);
            match message {
                Some(m) => {
                    assert(t == "assert("@ + c + ", "@ + expression_text(*m) + ")"@);
                    assert(t.subrange(0, 7) =~= "assert("@);
                },
                None => {
                    assert(t == "assert("@ + c + ")"@);
                    assert(t.subrange(0, 7) =~= "assert("@);
                    assert(t.subrange(7, t.len() - 1) =~= c);
                },
            }
        },
        Expression::Group { contents } => {
            let t = expression_text(e);
            assert(t == "("@ + expression_text(*contents) + ")"@);
            assert(t.subrange(1, t.len() - 1) =~= expression_text(*contents));
        },
        Expression::Call { name, arguments, .. } => {
            let t = expression_text(e);
            assert(t == name@ + "("@ + list_text(arguments@, 0) + ")"@);
            assert(t.subrange(0, name@.len() as int) =~= name@);
        },
        _ => {},
    }
}

} // verus!
