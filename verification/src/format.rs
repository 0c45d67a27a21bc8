//! The text of values and formulas, as traces and errors show them.
use crate::model::{
    find_named, ComparisonOp, Derived, IndexedParameter, JudgmentExpr, Program, RelatedValueRef,
    ScalarExpr, ScalarValue,
};
use crate::text::{digits, i64_text, int_text, owned, usize_text};
use vstd::prelude::*;
use vstd::string::*;

verus! {

/// A hexadecimal digit, in lower case.
pub open spec fn hex_digit(d: int) -> char {
    if d < 10 {
        ('0' as int + d) as char
    } else {
        ('a' as int + d - 10) as char
    }
}

/// A character as it stands in a JSON string literal.
pub open spec fn json_char(c: char) -> Seq<char> {
    if c == '"' || c == '\\' {
        seq!['\\', c]
    } else if c == '\n' {
        seq!['\\', 'n']
    } else if c == '\r' {
        seq!['\\', 'r']
    } else if c == '\t' {
        seq!['\\', 't']
    } else if c as int == 8 {
        seq!['\\', 'b']
    } else if c as int == 12 {
        seq!['\\', 'f']
    } else if (c as int) < 32 {
        seq!['\\', 'u', '0', '0', hex_digit(c as int / 16), hex_digit(c as int % 16)]
    } else {
        seq![c]
    }
}

/// The first `n` characters of a text as they stand in a JSON string literal.
pub open spec fn json_chars(s: Seq<char>, n: nat) -> Seq<char>
    decreases n,
{
    if n == 0 || n > s.len() {
        Seq::empty()
    } else {
        json_chars(s, (n - 1) as nat) + json_char(s[n - 1])
    }
}

/// The JSON string literal of a text.
pub open spec fn json_literal(s: Seq<char>) -> Seq<char> {
    seq!['"'] + json_chars(s, s.len()) + seq!['"']
}

/// `serde_json::to_string` of a `str`: the text in quotes, where a quote, a reverse solidus
/// and the characters below the space are escaped, those without a letter of their own by
/// their number in hexadecimal digits. It does not fail on a `str`.
#[verifier::external_body]
pub(crate) fn json_string(value: &str) -> (r: String)
    ensures
        r@ == json_literal(value@),
{
    serde_json::to_string(value).unwrap_or_default()
}

/// The text that `str`'s `Debug` writes.
pub uninterp spec fn quoted(s: Seq<char>) -> Seq<char>;

/// `str`'s `Debug`: the text in quotes, with escapes.
#[verifier::external_body]
pub(crate) fn debug_text(value: &str) -> (r: String)
    ensures
        r@ == quoted(value@),
{
    format!("{:?}", value)
}

pub open spec fn bool_text(b: bool) -> Seq<char> {
    if b {
        "true"@
    } else {
        "false"@
    }
}

pub(crate) fn bool_string(b: bool) -> (r: String)
    ensures
        r@ == bool_text(b),
{
    if b {
        owned("true")
    } else {
        owned("false")
    }
}

/// A value as an error message shows it.
pub open spec fn value_label(value: ScalarValue) -> Seq<char> {
    match value {
        ScalarValue::Bool(b) => bool_text(b),
        ScalarValue::Integer(i) => int_text(i as int),
        ScalarValue::Decimal(d) => d.text(),
        ScalarValue::Text(s) => quoted(s@),
        ScalarValue::Date(d) => d.text(),
    }
}

pub fn format_value_label(value: &ScalarValue) -> (r: String)
    ensures
        r@ == value_label(*value),
{
    match value {
        ScalarValue::Bool(b) => bool_string(*b),
        ScalarValue::Integer(i) => i64_text(*i),
        ScalarValue::Decimal(d) => d.to_text(),
        ScalarValue::Text(s) => debug_text(s.as_str()),
        ScalarValue::Date(d) => d.to_text(),
    }
}

/// How a failed `match` names its subject or an arm: by name where it has one,
/// a literal by its value.
pub open spec fn operand_label(e: ScalarExpr) -> Seq<char> {
    match e {
        ScalarExpr::Literal(value) => value_label(value),
        ScalarExpr::Input(name) => name@,
        ScalarExpr::InputOrElse { name, .. } => name@,
        ScalarExpr::Derived(name) => name@,
        ScalarExpr::ParameterLookup { parameter, .. } => parameter@,
        _ => "expression"@,
    }
}

/// The labels of the first `n` operands, separated by commas.
pub open spec fn operand_labels(items: Seq<ScalarExpr>, n: nat) -> Seq<char>
    decreases n,
{
    if n == 0 {
        Seq::empty()
    } else if n == 1 {
        operand_label(items[0])
    } else {
        operand_labels(items, (n - 1) as nat) + ", "@ + operand_label(items[n - 1])
    }
}

pub fn describe_match_operand(e: &ScalarExpr) -> (r: String)
    ensures
        r@ == operand_label(*e),
{
    match e {
        ScalarExpr::Literal(value) => format_value_label(value),
        ScalarExpr::Input(name) => name.clone(),
        ScalarExpr::InputOrElse { name, .. } => name.clone(),
        ScalarExpr::Derived(name) => name.clone(),
        ScalarExpr::ParameterLookup { parameter, .. } => parameter.clone(),
        _ => owned("expression"),
    }
}

pub fn describe_match_operands(items: &Vec<ScalarExpr>) -> (r: String)
    ensures
        r@ == operand_labels(items@, items@.len()),
{
    let mut s = String::new();
    let mut i: usize = 0;
    while i < items.len()
        invariant
            i <= items@.len(),
            s@ == operand_labels(items@, i as nat),
        decreases items@.len() - i,
    {
        let label = describe_match_operand(&items[i]);
        if i > 0 {
            s.append(", ");
        } else {
            assert(s@ + label@ =~= label@);
        }
        s.append(label.as_str());
        i = i + 1;
    }
    s
}

/// A value as a formula shows it.
pub open spec fn value_text(value: ScalarValue) -> Seq<char> {
    match value {
        ScalarValue::Bool(b) => bool_text(b),
        ScalarValue::Integer(i) => int_text(i as int),
        ScalarValue::Decimal(d) => d.text(),
        ScalarValue::Text(s) => json_literal(s@),
        ScalarValue::Date(d) => "date("@ + json_literal(d.text()) + ")"@,
    }
}

pub fn format_scalar_value(value: &ScalarValue) -> (r: String)
    ensures
        r@ == value_text(*value),
{
    match value {
        ScalarValue::Bool(b) => bool_string(*b),
        ScalarValue::Integer(i) => i64_text(*i),
        ScalarValue::Decimal(d) => d.to_text(),
        ScalarValue::Text(s) => json_string(s.as_str()),
        ScalarValue::Date(d) => {
            let mut s = owned("date(");
            s.append(json_string(d.to_text().as_str()).as_str());
            s.append(")");
            s
        },
    }
}

/// The public name of a rule: its id where it has one, else its name.
pub open spec fn rule_text(p: Program, name: Seq<char>) -> Seq<char> {
    match p.rule(name) {
        Some(Derived { id: Some(id), .. }) => id@,
        _ => name,
    }
}

/// The public name of a parameter: its id where it has one, else its name.
pub open spec fn parameter_text(p: Program, name: Seq<char>) -> Seq<char> {
    match p.parameter(name) {
        Some(IndexedParameter { id: Some(id), .. }) => id@,
        _ => name,
    }
}

pub fn public_parameter_key(p: &Program, name: &str) -> (r: String)
    ensures
        r@ == parameter_text(*p, name@),
{
    match find_named(&p.parameters, name) {
        Some(parameter) => match &parameter.id {
            Some(id) => id.clone(),
            None => owned(name),
        },
        None => owned(name),
    }
}

impl Program {
    pub fn public_derived_key(&self, name: &str) -> (r: String)
        ensures
            r@ == rule_text(*self, name@),
    {
        match find_named(&self.derived, name) {
            Some(derived) => match &derived.id {
                Some(id) => id.clone(),
                None => owned(name),
            },
            None => owned(name),
        }
    }
}

/// The text of a call with two arguments.
pub open spec fn call_text(function: Seq<char>, a: Seq<char>, b: Seq<char>) -> Seq<char> {
    function + "("@ + a + ", "@ + b + ")"@
}

fn call_string(function: &str, a: String, b: String) -> (r: String)
    ensures
        r@ == call_text(function@, a@, b@),
{
    let mut s = owned(function);
    s.append("(");
    s.append(a.as_str());
    s.append(", ");
    s.append(b.as_str());
    s.append(")");
    s
}

/// The text of a binary operation.
pub open spec fn binary_text(a: Seq<char>, operator: Seq<char>, b: Seq<char>) -> Seq<char> {
    "("@ + a + " "@ + operator + " "@ + b + ")"@
}

fn binary_string(a: String, operator: &str, b: String) -> (r: String)
    ensures
        r@ == binary_text(a@, operator@, b@),
{
    let mut s = owned("(");
    s.append(a.as_str());
    s.append(" ");
    s.append(operator);
    s.append(" ");
    s.append(b.as_str());
    s.append(")");
    s
}

/// The text of a function of one argument.
pub open spec fn unary_text(function: Seq<char>, a: Seq<char>) -> Seq<char> {
    function + "("@ + a + ")"@
}

fn unary_string(function: &str, a: String) -> (r: String)
    ensures
        r@ == unary_text(function@, a@),
{
    let mut s = owned(function);
    s.append("(");
    s.append(a.as_str());
    s.append(")");
    s
}

/// The text that names a relation and its slots.
pub open spec fn relation_text(
    function: Seq<char>,
    relation: Seq<char>,
    current_slot: nat,
    related_slot: nat,
) -> Seq<char> {
    function + "("@ + json_literal(relation) + ", "@ + digits(current_slot) + ", "@ + digits(
        related_slot,
    )
}

fn relation_string(
    function: &str,
    relation: &str,
    current_slot: usize,
    related_slot: usize,
) -> (r: String)
    ensures
        r@ == relation_text(function@, relation@, current_slot as nat, related_slot as nat),
{
    let mut s = owned(function);
    s.append("(");
    s.append(json_string(relation).as_str());
    s.append(", ");
    s.append(usize_text(current_slot).as_str());
    s.append(", ");
    s.append(usize_text(related_slot).as_str());
    s
}

pub open spec fn operator_text(op: ComparisonOp) -> Seq<char> {
    match op {
        ComparisonOp::Lt => "<"@,
        ComparisonOp::Lte => "<="@,
        ComparisonOp::Gt => ">"@,
        ComparisonOp::Gte => ">="@,
        ComparisonOp::Eq => "=="@,
        ComparisonOp::Ne => "!="@,
    }
}

fn operator_str(op: ComparisonOp) -> (r: &'static str)
    ensures
        r@ == operator_text(op),
{
    match op {
        ComparisonOp::Lt => "<",
        ComparisonOp::Lte => "<=",
        ComparisonOp::Gt => ">",
        ComparisonOp::Gte => ">=",
        ComparisonOp::Eq => "==",
        ComparisonOp::Ne => "!=",
    }
}

/// The text of a scalar formula, with the public names of rules and parameters.
pub open spec fn scalar_text(p: Program, e: ScalarExpr) -> Seq<char>
    decreases e, 1int, 0int,
{
    match e {
        ScalarExpr::Literal(value) => value_text(value),
        ScalarExpr::Input(name) => unary_text("input"@, json_literal(name@)),
        ScalarExpr::InputOrElse { name, default } => call_text(
            "input_or_else"@,
            json_literal(name@),
            value_text(default),
        ),
        ScalarExpr::Derived(name) => rule_text(p, name@),
        ScalarExpr::ParameterLookup { parameter, index } => parameter_text(p, parameter@) + "["@
            + scalar_text(p, *index) + "]"@,
        ScalarExpr::Add(items) => unary_text(
            ""@,
            scalars_text(p, items@, items@.len(), " + "@),
        ),
        ScalarExpr::Max(items) => unary_text(
            "max"@,
            scalars_text(p, items@, items@.len(), ", "@),
        ),
        ScalarExpr::Min(items) => unary_text(
            "min"@,
            scalars_text(p, items@, items@.len(), ", "@),
        ),
        ScalarExpr::Sub(a, b) => binary_text(scalar_text(p, *a), "-"@, scalar_text(p, *b)),
        ScalarExpr::Mul(a, b) => binary_text(scalar_text(p, *a), "*"@, scalar_text(p, *b)),
        ScalarExpr::Div(a, b) => binary_text(scalar_text(p, *a), "/"@, scalar_text(p, *b)),
        ScalarExpr::Ceil(a) => unary_text("ceil"@, scalar_text(p, *a)),
        ScalarExpr::Floor(a) => unary_text("floor"@, scalar_text(p, *a)),
        ScalarExpr::PeriodStart => "period_start"@,
        ScalarExpr::PeriodEnd => "period_end"@,
        ScalarExpr::DateAddDays { date, days } => call_text(
            "date_add_days"@,
            scalar_text(p, *date),
            scalar_text(p, *days),
        ),
        ScalarExpr::DateAddMonths { date, months } => call_text(
            "date_add_months"@,
            scalar_text(p, *date),
            scalar_text(p, *months),
        ),
        ScalarExpr::DateAddYears { date, years } => call_text(
            "date_add_years"@,
            scalar_text(p, *date),
            scalar_text(p, *years),
        ),
        ScalarExpr::DaysBetween { from, to } => call_text(
            "days_between"@,
            scalar_text(p, *from),
            scalar_text(p, *to),
        ),
        ScalarExpr::CountRelated { relation, current_slot, related_slot, where_clause } => {
            let head = relation_text(
                "count_related"@,
                relation@,
                current_slot as nat,
                related_slot as nat,
            );
            match where_clause {
                Some(w) => head + ", where: "@ + judgment_text(p, *w) + ")"@,
                None => head + ")"@,
            }
        },
        ScalarExpr::SumRelated { relation, current_slot, related_slot, value, where_clause } => {
            let head = relation_text(
                "sum_related"@,
                relation@,
                current_slot as nat,
                related_slot as nat,
            ) + ", "@ + match value {
                RelatedValueRef::Input(name) => unary_text("input"@, json_literal(name@)),
                RelatedValueRef::Derived(name) => rule_text(p, name@),
            };
            match where_clause {
                Some(w) => head + ", where: "@ + judgment_text(p, *w) + ")"@,
                None => head + ")"@,
            }
        },
        ScalarExpr::If { condition, then_expr, else_expr } => "(if "@ + judgment_text(
            p,
            *condition,
        ) + " then "@ + scalar_text(p, *then_expr) + " else "@ + scalar_text(p, *else_expr) + ")"@,
        ScalarExpr::NoMatch { subject, patterns } => call_text(
            "no_match"@,
            scalar_text(p, *subject),
            scalars_text(p, patterns@, patterns@.len(), ", "@),
        ),
        ScalarExpr::OverPeriods { kind, value, n } => match n {
            Some(n) => call_text(kind.call_name(), scalar_text(p, *value), scalar_text(p, *n)),
            None => unary_text(kind.call_name(), scalar_text(p, *value)),
        },
    }
}

/// The texts of the first `n` items with a separator between them.
pub open spec fn scalars_text(
    p: Program,
    items: Seq<ScalarExpr>,
    n: nat,
    separator: Seq<char>,
) -> Seq<char>
    decreases items, 0int, n,
{
    if n == 0 || n > items.len() {
        Seq::empty()
    } else if n == 1 {
        scalar_text(p, items[0])
    } else {
        scalars_text(p, items, (n - 1) as nat, separator) + separator + scalar_text(
            p,
            items[n - 1],
        )
    }
}

/// The text of a judgment formula, with the public names of rules and parameters.
pub open spec fn judgment_text(p: Program, e: JudgmentExpr) -> Seq<char>
    decreases e, 1int, 0int,
{
    match e {
        JudgmentExpr::Comparison { left, op, right } => binary_text(
            scalar_text(p, left),
            operator_text(op),
            scalar_text(p, right),
        ),
        JudgmentExpr::Derived(name) => rule_text(p, name@),
        JudgmentExpr::RelationMember { relation, current_slot, related_slot } => relation_text(
            "relation_member"@,
            relation@,
            current_slot as nat,
            related_slot as nat,
        ) + ")"@,
        JudgmentExpr::And(items) => unary_text(
            ""@,
            judgments_text(p, items@, items@.len(), " and "@),
        ),
        JudgmentExpr::Or(items) => unary_text(
            ""@,
            judgments_text(p, items@, items@.len(), " or "@),
        ),
        JudgmentExpr::Not(item) => unary_text("not "@, judgment_text(p, *item)),
    }
}

/// The texts of the first `n` items with a separator between them.
pub open spec fn judgments_text(
    p: Program,
    items: Seq<JudgmentExpr>,
    n: nat,
    separator: Seq<char>,
) -> Seq<char>
    decreases items, 0int, n,
{
    if n == 0 || n > items.len() {
        Seq::empty()
    } else if n == 1 {
        judgment_text(p, items[0])
    } else {
        judgments_text(p, items, (n - 1) as nat, separator) + separator + judgment_text(
            p,
            items[n - 1],
        )
    }
}

fn format_scalars(p: &Program, items: &Vec<ScalarExpr>, separator: &str) -> (r: String)
    ensures
        r@ == scalars_text(*p, items@, items@.len(), separator@),
    decreases items, 0int,
{
    let mut s = String::new();
    let mut i: usize = 0;
    while i < items.len()
        invariant
            i <= items@.len(),
            s@ == scalars_text(*p, items@, i as nat, separator@),
        decreases items@.len() - i,
    {
        let text = format_scalar_expression(p, &items[i]);
        if i > 0 {
            s.append(separator);
        } else {
            assert(s@ + text@ =~= text@);
        }
        s.append(text.as_str());
        i = i + 1;
    }
    s
}

/// The text of a scalar formula, with the public names of rules and parameters.
pub fn format_scalar_expression(p: &Program, e: &ScalarExpr) -> (r: String)
    ensures
        r@ == scalar_text(*p, *e),
    decreases e, 1int,
{
    match e {
        ScalarExpr::Literal(value) => format_scalar_value(value),
        ScalarExpr::Input(name) => unary_string("input", json_string(name.as_str())),
        ScalarExpr::InputOrElse { name, default } => call_string(
            "input_or_else",
            json_string(name.as_str()),
            format_scalar_value(default),
        ),
        ScalarExpr::Derived(name) => p.public_derived_key(name.as_str()),
        ScalarExpr::ParameterLookup { parameter, index } => {
            let mut s = public_parameter_key(p, parameter.as_str());
            s.append("[");
            s.append(format_scalar_expression(p, index).as_str());
            s.append("]");
            s
        },
        ScalarExpr::Add(items) => unary_string("", format_scalars(p, items, " + ")),
        ScalarExpr::Max(items) => unary_string("max", format_scalars(p, items, ", ")),
        ScalarExpr::Min(items) => unary_string("min", format_scalars(p, items, ", ")),
        ScalarExpr::Sub(a, b) => binary_string(
            format_scalar_expression(p, a),
            "-",
            format_scalar_expression(p, b),
        ),
        ScalarExpr::Mul(a, b) => binary_string(
            format_scalar_expression(p, a),
            "*",
            format_scalar_expression(p, b),
        ),
        ScalarExpr::Div(a, b) => binary_string(
            format_scalar_expression(p, a),
            "/",
            format_scalar_expression(p, b),
        ),
        ScalarExpr::Ceil(a) => unary_string("ceil", format_scalar_expression(p, a)),
        ScalarExpr::Floor(a) => unary_string("floor", format_scalar_expression(p, a)),
        ScalarExpr::PeriodStart => owned("period_start"),
        ScalarExpr::PeriodEnd => owned("period_end"),
        ScalarExpr::DateAddDays { date, days } => call_string(
            "date_add_days",
            format_scalar_expression(p, date),
            format_scalar_expression(p, days),
        ),
        ScalarExpr::DateAddMonths { date, months } => call_string(
            "date_add_months",
            format_scalar_expression(p, date),
            format_scalar_expression(p, months),
        ),
        ScalarExpr::DateAddYears { date, years } => call_string(
            "date_add_years",
            format_scalar_expression(p, date),
            format_scalar_expression(p, years),
        ),
        ScalarExpr::DaysBetween { from, to } => call_string(
            "days_between",
            format_scalar_expression(p, from),
            format_scalar_expression(p, to),
        ),
        ScalarExpr::CountRelated { relation, current_slot, related_slot, where_clause } => {
            let mut s = relation_string(
                "count_related",
                relation.as_str(),
                *current_slot,
                *related_slot,
            );
            if let Some(w) = where_clause {
                s.append(", where: ");
                s.append(format_judgment_expression(p, w).as_str());
            }
            s.append(")");
            s
        },
        ScalarExpr::SumRelated { relation, current_slot, related_slot, value, where_clause } => {
            let mut s = relation_string(
                "sum_related",
                relation.as_str(),
                *current_slot,
                *related_slot,
            );
            s.append(", ");
            let read = match value {
                RelatedValueRef::Input(name) => unary_string("input", json_string(name.as_str())),
                RelatedValueRef::Derived(name) => p.public_derived_key(name.as_str()),
            };
            s.append(read.as_str());
            if let Some(w) = where_clause {
                s.append(", where: ");
                s.append(format_judgment_expression(p, w).as_str());
            }
            s.append(")");
            s
        },
        ScalarExpr::If { condition, then_expr, else_expr } => {
            let mut s = owned("(if ");
            s.append(format_judgment_expression(p, condition).as_str());
            s.append(" then ");
            s.append(format_scalar_expression(p, then_expr).as_str());
            s.append(" else ");
            s.append(format_scalar_expression(p, else_expr).as_str());
            s.append(")");
            s
        },
        ScalarExpr::NoMatch { subject, patterns } => call_string(
            "no_match",
            format_scalar_expression(p, subject),
            format_scalars(p, patterns, ", "),
        ),
        ScalarExpr::OverPeriods { kind, value, n } => match n {
            Some(n) => call_string(
                kind.as_call_name(),
                format_scalar_expression(p, value),
                format_scalar_expression(p, n),
            ),
            None => unary_string(kind.as_call_name(), format_scalar_expression(p, value)),
        },
    }
}

fn format_judgments(p: &Program, items: &Vec<JudgmentExpr>, separator: &str) -> (r: String)
    ensures
        r@ == judgments_text(*p, items@, items@.len(), separator@),
    decreases items, 0int,
{
    let mut s = String::new();
    let mut i: usize = 0;
    while i < items.len()
        invariant
            i <= items@.len(),
            s@ == judgments_text(*p, items@, i as nat, separator@),
        decreases items@.len() - i,
    {
        let text = format_judgment_expression(p, &items[i]);
        if i > 0 {
            s.append(separator);
        } else {
            assert(s@ + text@ =~= text@);
        }
        s.append(text.as_str());
        i = i + 1;
    }
    s
}

/// The text of a judgment formula, with the public names of rules and parameters.
pub fn format_judgment_expression(p: &Program, e: &JudgmentExpr) -> (r: String)
    ensures
        r@ == judgment_text(*p, *e),
    decreases e, 1int,
{
    match e {
        JudgmentExpr::Comparison { left, op, right } => binary_string(
            format_scalar_expression(p, left),
            operator_str(*op),
            format_scalar_expression(p, right),
        ),
        JudgmentExpr::Derived(name) => p.public_derived_key(name.as_str()),
        JudgmentExpr::RelationMember { relation, current_slot, related_slot } => {
            let mut s = relation_string(
                "relation_member",
                relation.as_str(),
                *current_slot,
                *related_slot,
            );
            s.append(")");
            s
        },
        JudgmentExpr::And(items) => unary_string("", format_judgments(p, items, " and ")),
        JudgmentExpr::Or(items) => unary_string("", format_judgments(p, items, " or ")),
        JudgmentExpr::Not(item) => unary_string("not ", format_judgment_expression(p, item)),
    }
}

} // verus!
