//! Input slots of programs and the names under which requests supply them.
use crate::model::{
    find_named, item_named, position_from_meaning, Derived, DerivedSemantics, DerivedVersion, IndexedParameter,
    JudgmentExpr, Named, Program, RelatedValueRef, RelationSchema, ScalarExpr,
};
use crate::text::{insert_sorted, opt_text, owned, same, sorted_texts, texts};
use vstd::prelude::*;
use vstd::string::*;

verus! {

/// The first position of a character from `from` on.
pub open spec fn char_from(s: Seq<char>, c: char, from: nat) -> Option<nat>
    decreases s.len() - from,
{
    if from >= s.len() {
        None
    } else if s[from as int] == c {
        Some(from)
    } else {
        char_from(s, c, from + 1)
    }
}

/// The parts before and behind the first occurrence of a character.
pub open spec fn split_at(s: Seq<char>, c: char) -> Option<(Seq<char>, Seq<char>)> {
    match char_from(s, c, 0) {
        Some(i) => Some((s.take(i as int), s.skip(i as int + 1))),
        None => None,
    }
}

/// Whether a text holds a character.
pub open spec fn holds(s: Seq<char>, c: char) -> bool {
    char_from(s, c, 0) is Some
}

pub(crate) fn split_once<'a>(s: &'a str, c: char) -> (r: Option<(&'a str, &'a str)>)
    ensures
        split_at(s@, c) == match r {
            Some((a, b)) => Some((a@, b@)),
            None => None,
        },
{
    let len = s.unicode_len();
    let mut i: usize = 0;
    while i < len
        invariant
            i <= len,
            len == s@.len(),
            char_from(s@, c, 0) == char_from(s@, c, i as nat),
        decreases len - i,
    {
        if s.get_char(i) == c {
            assert(s@.subrange(0, i as int) =~= s@.take(i as int));
            assert(s@.subrange(i + 1, len as int) =~= s@.skip(i + 1));
            return Some((s.substring_char(0, i), s.substring_char(i + 1, len)));
        }
        i = i + 1;
    }
    None
}

pub(crate) fn contains_char(s: &str, c: char) -> (r: bool)
    ensures
        r == holds(s@, c),
{
    split_once(s, c).is_some()
}

/// Whether a text starts with another.
pub open spec fn begins(s: Seq<char>, prefix: Seq<char>) -> bool {
    prefix.len() <= s.len() && s.take(prefix.len() as int) == prefix
}

/// What follows a prefix.
pub(crate) fn strip_prefix<'a>(s: &'a str, prefix: &str) -> (r: Option<&'a str>)
    ensures
        match r {
            Some(rest) => begins(s@, prefix@) && rest@ == s@.skip(prefix@.len() as int),
            None => !begins(s@, prefix@),
        },
{
    let len = s.unicode_len();
    let n = prefix.unicode_len();
    if n > len {
        return None;
    }
    assert(s@.subrange(0, n as int) =~= s@.take(n as int));
    if !same(s.substring_char(0, n), prefix) {
        return None;
    }
    assert(s@.subrange(n as int, len as int) =~= s@.skip(n as int));
    Some(s.substring_char(n, len))
}

/// Whether a character is white space.
pub open spec fn is_white(c: char) -> bool {
    let n = c as int;
    (9 <= n <= 13) || n == 32 || n == 0x85 || n == 0xA0 || n == 0x1680 || (0x2000 <= n <= 0x200A)
        || n == 0x2028 || n == 0x2029 || n == 0x202F || n == 0x205F || n == 0x3000
}

pub(crate) fn white(c: char) -> (r: bool)
    ensures
        r == is_white(c),
{
    let n = c as u32;
    (9 <= n && n <= 13) || n == 32 || n == 0x85 || n == 0xA0 || n == 0x1680 || (0x2000 <= n && n
        <= 0x200A) || n == 0x2028 || n == 0x2029 || n == 0x202F || n == 0x205F || n == 0x3000
}

/// Whether a text neither starts nor ends with white space.
pub open spec fn trimmed(s: Seq<char>) -> bool {
    s.len() == 0 || (!is_white(s[0]) && !is_white(s[s.len() - 1]))
}

fn is_trimmed(s: &str) -> (r: bool)
    ensures
        r == trimmed(s@),
{
    let len = s.unicode_len();
    len == 0 || (!white(s.get_char(0)) && !white(s.get_char(len - 1)))
}

/// The module of a public rule name: what stands before `#`.
pub open spec fn rule_target(id: Seq<char>) -> Option<Seq<char>> {
    match split_at(id, '#') {
        Some((target, fragment)) => if fragment.len() == 0 {
            None
        } else {
            Some(target)
        },
        None => None,
    }
}

/// The module of a public rule name: what stands before `#`.
pub(crate) fn public_rule_target<'a>(id: &'a str) -> (r: Option<&'a str>)
    ensures
        rule_target(id@) == match r {
            Some(target) => Some(target@),
            None => None,
        },
{
    match split_once(id, '#') {
        Some((target, fragment)) => {
            if fragment.unicode_len() == 0 {
                None
            } else {
                Some(target)
            }
        },
        None => None,
    }
}

/// The part behind `#` of a well-formed public reference: one `#`, something behind
/// it, no white space around it, and a module before it that is a valid one.
pub open spec fn reference_fragment(reference: Seq<char>, target_is_valid: bool) -> Option<
    Seq<char>,
> {
    match split_at(reference, '#') {
        None => None,
        Some((_, fragment)) => if !trimmed(reference) || fragment.len() == 0 || holds(
            fragment,
            '#',
        ) || !target_is_valid {
            None
        } else {
            Some(fragment)
        },
    }
}

/// A public reference, parsed.
pub struct PublicReference<'a> {
    pub fragment: &'a str,
}

impl<'a> PublicReference<'a> {
    /// Parses a reference. Whether the part before `#` is a valid module is for the
    /// loader of modules to say.
    pub fn parse(reference: &'a str, target_is_valid: bool) -> (r: Option<PublicReference<'a>>)
        ensures
            reference_fragment(reference@, target_is_valid) == match r {
                Some(p) => Some(p.fragment@),
                None => None,
            },
    {
        match split_once(reference, '#') {
            None => None,
            Some((_, fragment)) => {
                if !is_trimmed(reference) || fragment.unicode_len() == 0 || contains_char(
                    fragment,
                    '#',
                ) || !target_is_valid {
                    None
                } else {
                    Some(PublicReference { fragment })
                }
            },
        }
    }
}

/// The input slots that a scalar formula reads, in the order of its parts.
pub open spec fn scalar_slots(e: ScalarExpr) -> Seq<Seq<char>>
    decreases e, 1int, 0nat,
{
    match e {
        ScalarExpr::Literal(_) => Seq::empty(),
        ScalarExpr::Derived(_) => Seq::empty(),
        ScalarExpr::PeriodStart => Seq::empty(),
        ScalarExpr::PeriodEnd => Seq::empty(),
        ScalarExpr::Input(name) => seq![name@],
        ScalarExpr::InputOrElse { name, .. } => seq![name@],
        ScalarExpr::ParameterLookup { index, .. } => scalar_slots(*index),
        ScalarExpr::Add(items) => scalars_slots(items@, items@.len()),
        ScalarExpr::Max(items) => scalars_slots(items@, items@.len()),
        ScalarExpr::Min(items) => scalars_slots(items@, items@.len()),
        ScalarExpr::Sub(a, b) => scalar_slots(*a) + scalar_slots(*b),
        ScalarExpr::Mul(a, b) => scalar_slots(*a) + scalar_slots(*b),
        ScalarExpr::Div(a, b) => scalar_slots(*a) + scalar_slots(*b),
        ScalarExpr::Ceil(a) => scalar_slots(*a),
        ScalarExpr::Floor(a) => scalar_slots(*a),
        ScalarExpr::DateAddDays { date, days } => scalar_slots(*date) + scalar_slots(*days),
        ScalarExpr::DateAddMonths { date, months } => scalar_slots(*date) + scalar_slots(*months),
        ScalarExpr::DateAddYears { date, years } => scalar_slots(*date) + scalar_slots(*years),
        ScalarExpr::DaysBetween { from, to } => scalar_slots(*from) + scalar_slots(*to),
        ScalarExpr::CountRelated { where_clause, .. } => match where_clause {
            Some(w) => judgment_slots(*w),
            None => Seq::empty(),
        },
        ScalarExpr::SumRelated { value, where_clause, .. } => (match value {
            RelatedValueRef::Input(name) => seq![name@],
            RelatedValueRef::Derived(_) => Seq::empty(),
        }) + match where_clause {
            Some(w) => judgment_slots(*w),
            None => Seq::empty(),
        },
        ScalarExpr::If { condition, then_expr, else_expr } => judgment_slots(*condition)
            + scalar_slots(*then_expr) + scalar_slots(*else_expr),
        ScalarExpr::NoMatch { subject, .. } => scalar_slots(*subject),
        ScalarExpr::OverPeriods { value, n, .. } => scalar_slots(*value) + match n {
            Some(n) => scalar_slots(*n),
            None => Seq::empty(),
        },
    }
}

/// The input slots that the first `n` items read.
pub open spec fn scalars_slots(items: Seq<ScalarExpr>, n: nat) -> Seq<Seq<char>>
    decreases items, 0int, n,
{
    if n == 0 || n > items.len() {
        Seq::empty()
    } else {
        scalars_slots(items, (n - 1) as nat) + scalar_slots(items[n - 1])
    }
}

/// The input slots that a judgment reads.
pub open spec fn judgment_slots(e: JudgmentExpr) -> Seq<Seq<char>>
    decreases e, 1int, 0nat,
{
    match e {
        JudgmentExpr::Comparison { left, right, .. } => scalar_slots(left) + scalar_slots(right),
        JudgmentExpr::Derived(_) => Seq::empty(),
        JudgmentExpr::RelationMember { .. } => Seq::empty(),
        JudgmentExpr::And(items) => judgments_slots(items@, items@.len()),
        JudgmentExpr::Or(items) => judgments_slots(items@, items@.len()),
        JudgmentExpr::Not(item) => judgment_slots(*item),
    }
}

pub open spec fn judgments_slots(items: Seq<JudgmentExpr>, n: nat) -> Seq<Seq<char>>
    decreases items, 0int, n,
{
    if n == 0 || n > items.len() {
        Seq::empty()
    } else {
        judgments_slots(items, (n - 1) as nat) + judgment_slots(items[n - 1])
    }
}

pub open spec fn formula_slots(s: DerivedSemantics) -> Seq<Seq<char>> {
    match s {
        DerivedSemantics::Scalar(e) => scalar_slots(e),
        DerivedSemantics::Judgment(e) => judgment_slots(e),
    }
}

/// The input slots that the first `n` versions read.
pub open spec fn versions_slots(versions: Seq<DerivedVersion>, n: nat) -> Seq<Seq<char>>
    decreases n,
{
    if n == 0 || n > versions.len() {
        Seq::empty()
    } else {
        versions_slots(versions, (n - 1) as nat) + formula_slots(versions[n - 1].semantics)
    }
}

/// The input slots that a rule reads, in its own formula and in its versions.
pub open spec fn rule_slots(d: Derived) -> Seq<Seq<char>> {
    formula_slots(d.semantics) + versions_slots(d.versions@, d.versions@.len())
}

fn push_slot(slots: &mut Vec<String>, name: &str)
    ensures
        texts(final(slots)@) == texts(old(slots)@) + seq![name@],
{
    let ghost before = slots@;
    slots.push(owned(name));
    assert(texts(slots@) =~= texts(before) + seq![name@]);
}

fn collect_two(slots: &mut Vec<String>, a: &ScalarExpr, b: &ScalarExpr, Ghost(whole): Ghost<ScalarExpr>)
    requires
        decreases_to!(whole => *a),
        decreases_to!(whole => *b),
    ensures
        texts(final(slots)@) == texts(old(slots)@) + (scalar_slots(*a) + scalar_slots(*b)),
    decreases whole, 0int,
{
    let ghost before = texts(slots@);
    collect_input_slots_from_scalar_expr(a, slots);
    collect_input_slots_from_scalar_expr(b, slots);
    assert(texts(slots@) =~= before + (scalar_slots(*a) + scalar_slots(*b)));
}

fn collect_items(slots: &mut Vec<String>, items: &Vec<ScalarExpr>)
    ensures
        texts(final(slots)@) == texts(old(slots)@) + scalars_slots(items@, items@.len()),
    decreases items@, 0int,
{
    let ghost before = texts(slots@);
    let mut i: usize = 0;
    assert(texts(slots@) =~= before + scalars_slots(items@, 0));
    while i < items.len()
        invariant
            i <= items@.len(),
            texts(slots@) == before + scalars_slots(items@, i as nat),
        decreases items@.len() - i,
    {
        collect_input_slots_from_scalar_expr(&items[i], slots);
        assert(texts(slots@) =~= before + scalars_slots(items@, (i + 1) as nat));
        i = i + 1;
    }
}

/// Adds the input slots that a scalar formula reads.
pub fn collect_input_slots_from_scalar_expr(expr: &ScalarExpr, slots: &mut Vec<String>)
    ensures
        texts(final(slots)@) == texts(old(slots)@) + scalar_slots(*expr),
    decreases *expr, 1int,
{
    let ghost before = texts(slots@);
    match expr {
        ScalarExpr::Literal(_)
        | ScalarExpr::Derived(_)
        | ScalarExpr::PeriodStart
        | ScalarExpr::PeriodEnd => {
            assert(before + Seq::<Seq<char>>::empty() =~= before);
        },
        ScalarExpr::Input(name) => push_slot(slots, name.as_str()),
        ScalarExpr::InputOrElse { name, .. } => push_slot(slots, name.as_str()),
        ScalarExpr::ParameterLookup { index, .. } => collect_input_slots_from_scalar_expr(
            index,
            slots,
        ),
        ScalarExpr::Add(items) => collect_items(slots, items),
        ScalarExpr::Max(items) => collect_items(slots, items),
        ScalarExpr::Min(items) => collect_items(slots, items),
        ScalarExpr::Sub(a, b) => collect_two(slots, a, b, Ghost(*expr)),
        ScalarExpr::Mul(a, b) => collect_two(slots, a, b, Ghost(*expr)),
        ScalarExpr::Div(a, b) => collect_two(slots, a, b, Ghost(*expr)),
        ScalarExpr::Ceil(a) => collect_input_slots_from_scalar_expr(a, slots),
        ScalarExpr::Floor(a) => collect_input_slots_from_scalar_expr(a, slots),
        ScalarExpr::DateAddDays { date, days } => collect_two(slots, date, days, Ghost(*expr)),
        ScalarExpr::DateAddMonths { date, months } => collect_two(slots, date, months, Ghost(*expr)),
        ScalarExpr::DateAddYears { date, years } => collect_two(slots, date, years, Ghost(*expr)),
        ScalarExpr::DaysBetween { from, to } => collect_two(slots, from, to, Ghost(*expr)),
        ScalarExpr::CountRelated { where_clause, .. } => {
            if let Some(w) = where_clause {
                collect_input_slots_from_judgment_expr(w, slots);
            } else {
                assert(before + Seq::<Seq<char>>::empty() =~= before);
            }
        },
        ScalarExpr::SumRelated { value, where_clause, .. } => {
            if let RelatedValueRef::Input(name) = value {
                push_slot(slots, name.as_str());
            }
            if let Some(w) = where_clause {
                collect_input_slots_from_judgment_expr(w, slots);
            }
            assert(texts(slots@) =~= before + scalar_slots(*expr));
        },
        ScalarExpr::If { condition, then_expr, else_expr } => {
            collect_input_slots_from_judgment_expr(condition, slots);
            collect_input_slots_from_scalar_expr(then_expr, slots);
            collect_input_slots_from_scalar_expr(else_expr, slots);
            assert(texts(slots@) =~= before + scalar_slots(*expr));
        },
        ScalarExpr::NoMatch { subject, .. } => collect_input_slots_from_scalar_expr(subject, slots),
        ScalarExpr::OverPeriods { value, n, .. } => {
            collect_input_slots_from_scalar_expr(value, slots);
            if let Some(n) = n {
                collect_input_slots_from_scalar_expr(n, slots);
            }
            assert(texts(slots@) =~= before + scalar_slots(*expr));
        },
    }
}

fn collect_judgments(slots: &mut Vec<String>, items: &Vec<JudgmentExpr>)
    ensures
        texts(final(slots)@) == texts(old(slots)@) + judgments_slots(items@, items@.len()),
    decreases items@, 0int,
{
    let ghost before = texts(slots@);
    let mut i: usize = 0;
    assert(texts(slots@) =~= before + judgments_slots(items@, 0));
    while i < items.len()
        invariant
            i <= items@.len(),
            texts(slots@) == before + judgments_slots(items@, i as nat),
        decreases items@.len() - i,
    {
        collect_input_slots_from_judgment_expr(&items[i], slots);
        assert(texts(slots@) =~= before + judgments_slots(items@, (i + 1) as nat));
        i = i + 1;
    }
}

/// Adds the input slots that a judgment reads.
pub fn collect_input_slots_from_judgment_expr(expr: &JudgmentExpr, slots: &mut Vec<String>)
    ensures
        texts(final(slots)@) == texts(old(slots)@) + judgment_slots(*expr),
    decreases *expr, 1int,
{
    let ghost before = texts(slots@);
    match expr {
        JudgmentExpr::Comparison { left, right, .. } => {
            collect_input_slots_from_scalar_expr(left, slots);
            collect_input_slots_from_scalar_expr(right, slots);
            assert(texts(slots@) =~= before + judgment_slots(*expr));
        },
        JudgmentExpr::Derived(_) | JudgmentExpr::RelationMember { .. } => {
            assert(before + Seq::<Seq<char>>::empty() =~= before);
        },
        JudgmentExpr::And(items) => collect_judgments(slots, items),
        JudgmentExpr::Or(items) => collect_judgments(slots, items),
        JudgmentExpr::Not(item) => collect_input_slots_from_judgment_expr(item, slots),
    }
}

/// Adds the input slots that a formula reads.
pub fn collect_input_slots_from_semantics(semantics: &DerivedSemantics, slots: &mut Vec<String>)
    ensures
        texts(final(slots)@) == texts(old(slots)@) + formula_slots(*semantics),
{
    match semantics {
        DerivedSemantics::Scalar(expr) => collect_input_slots_from_scalar_expr(expr, slots),
        DerivedSemantics::Judgment(expr) => collect_input_slots_from_judgment_expr(expr, slots),
    }
}

fn collect_rule_slots(d: &Derived) -> (r: Vec<String>)
    ensures
        texts(r@) == rule_slots(*d),
{
    let mut slots: Vec<String> = Vec::new();
    assert(texts(slots@) =~= Seq::empty());
    collect_input_slots_from_semantics(&d.semantics, &mut slots);
    let mut i: usize = 0;
    assert(texts(slots@) =~= formula_slots(d.semantics) + versions_slots(d.versions@, 0));
    while i < d.versions.len()
        invariant
            i <= d.versions@.len(),
            texts(slots@) == formula_slots(d.semantics) + versions_slots(d.versions@, i as nat),
        decreases d.versions@.len() - i,
    {
        collect_input_slots_from_semantics(&d.versions[i].semantics, &mut slots);
        assert(texts(slots@) =~= formula_slots(d.semantics) + versions_slots(
            d.versions@,
            (i + 1) as nat,
        ));
        i = i + 1;
    }
    slots
}

/// The name under which a slot of an owner is supplied: `module#input.slot` for an
/// owner with a public name, else the slot itself.
pub open spec fn request_name(owner: Option<Seq<char>>, slot: Seq<char>) -> Seq<char> {
    match owner {
        Some(id) => match rule_target(id) {
            Some(target) => target + "#input."@ + slot,
            None => slot,
        },
        None => slot,
    }
}

fn request_name_text(owner: Option<&str>, slot: &str) -> (r: String)
    ensures
        r@ == request_name(
            match owner {
                Some(id) => Some(id@),
                None => None,
            },
            slot@,
        ),
{
    let target = match owner {
        Some(id) => public_rule_target(id),
        None => None,
    };
    match target {
        Some(target) => {
            let mut name = owned(target);
            name.append("#input.");
            name.append(slot);
            name
        },
        None => owned(slot),
    }
}

/// Slots with the names of an owner.
pub open spec fn owned_pairs(owner: Option<Seq<char>>, slots: Seq<Seq<char>>) -> Seq<
    (Seq<char>, Seq<char>),
> {
    slots.map_values(|slot: Seq<char>| (slot, request_name(owner, slot)))
}

/// The slots of the first `n` rules with their names.
pub open spec fn rule_pairs(rules: Seq<Derived>, n: nat) -> Seq<(Seq<char>, Seq<char>)>
    decreases n,
{
    if n == 0 || n > rules.len() {
        Seq::empty()
    } else {
        rule_pairs(rules, (n - 1) as nat) + owned_pairs(
            opt_text(rules[n - 1].id),
            rule_slots(rules[n - 1]),
        )
    }
}

/// The slots of the predicates of the first `n` relations with their names. They are
/// supplied under the relation's own module.
pub open spec fn relation_pairs(relations: Seq<RelationSchema>, n: nat) -> Seq<
    (Seq<char>, Seq<char>),
>
    decreases n,
{
    if n == 0 || n > relations.len() {
        Seq::empty()
    } else {
        relation_pairs(relations, (n - 1) as nat) + match relations[n - 1].derivation {
            Some(d) => owned_pairs(Some(relations[n - 1].name@), judgment_slots(d.predicate)),
            None => Seq::empty(),
        }
    }
}

/// The slots that index the first `n` parameters with their names.
pub open spec fn parameter_pairs(parameters: Seq<IndexedParameter>, n: nat) -> Seq<
    (Seq<char>, Seq<char>),
>
    decreases n,
{
    if n == 0 || n > parameters.len() {
        Seq::empty()
    } else {
        parameter_pairs(parameters, (n - 1) as nat) + match parameters[n - 1].indexed_by {
            Some(slot) => owned_pairs(opt_text(parameters[n - 1].id), seq![slot@]),
            None => Seq::empty(),
        }
    }
}

/// Every input slot of a program with the names under which it is supplied.
pub open spec fn slot_pairs(p: Program) -> Seq<(Seq<char>, Seq<char>)> {
    rule_pairs(p.derived@, p.derived@.len()) + relation_pairs(p.relations@, p.relations@.len())
        + parameter_pairs(p.parameters@, p.parameters@.len())
}

/// The slots of pairs.
pub open spec fn pair_slots(pairs: Seq<(Seq<char>, Seq<char>)>) -> Seq<Seq<char>> {
    pairs.map_values(|pair: (Seq<char>, Seq<char>)| pair.0)
}

/// The names of a slot among the first `n` pairs.
pub open spec fn names_among(pairs: Seq<(Seq<char>, Seq<char>)>, slot: Seq<char>, n: nat) -> Seq<
    Seq<char>,
>
    decreases n,
{
    if n == 0 || n > pairs.len() {
        Seq::empty()
    } else if pairs[n - 1].0 == slot {
        names_among(pairs, slot, (n - 1) as nat).push(pairs[n - 1].1)
    } else {
        names_among(pairs, slot, (n - 1) as nat)
    }
}

/// An input slot and the names under which requests supply it, ascending.
#[derive(Debug)]
pub struct CatalogEntry {
    pub slot: String,
    pub names: Vec<String>,
}

/// Whether entries are the slots of pairs, ascending and each once, with their names,
/// ascending and each once.
pub open spec fn catalog_of(entries: Seq<CatalogEntry>, pairs: Seq<(Seq<char>, Seq<char>)>) -> bool {
    let slots = sorted_texts(pair_slots(pairs));
    &&& entries.len() == slots.len()
    &&& forall|i: int| #![trigger entries[i]]
        0 <= i < entries.len() ==> entries[i].slot@ == slots[i] && texts(entries[i].names@)
            == sorted_texts(names_among(pairs, slots[i], pairs.len()))
}

struct SlotName {
    slot: String,
    name: String,
}

spec fn pairs_of(list: Seq<SlotName>) -> Seq<(Seq<char>, Seq<char>)> {
    list.map_values(|p: SlotName| (p.slot@, p.name@))
}

fn push_owned(list: &mut Vec<SlotName>, owner: Option<&str>, slots: &Vec<String>)
    ensures
        pairs_of(final(list)@) == pairs_of(old(list)@) + owned_pairs(
            match owner {
                Some(id) => Some(id@),
                None => None,
            },
            texts(slots@),
        ),
{
    let ghost id = match owner {
        Some(id) => Some(id@),
        None => None,
    };
    let ghost before = pairs_of(list@);
    let mut i: usize = 0;
    assert(pairs_of(list@) =~= before + owned_pairs(id, texts(slots@.take(0))));
    while i < slots.len()
        invariant
            i <= slots@.len(),
            id == match owner {
                Some(id) => Some(id@),
                None => None,
            },
            pairs_of(list@) == before + owned_pairs(id, texts(slots@.take(i as int))),
        decreases slots@.len() - i,
    {
        let ghost prior = list@;
        let slot = slots[i].as_str();
        list.push(SlotName { slot: owned(slot), name: request_name_text(owner, slot) });
        proof {
            let shorter = texts(slots@.take(i as int));
            let pair = (slot@, request_name(id, slot@));
            assert(texts(slots@.take(i + 1)) =~= shorter.push(slot@));
            assert(owned_pairs(id, shorter.push(slot@)) =~= owned_pairs(id, shorter).push(pair));
            assert(pairs_of(list@) =~= pairs_of(prior).push(pair));
        }
        assert(pairs_of(list@) =~= before + owned_pairs(id, texts(slots@.take(i + 1))));
        i = i + 1;
    }
    assert(slots@.take(slots@.len() as int) =~= slots@);
}

fn opt_str(text: &Option<String>) -> (r: Option<&str>)
    ensures
        opt_text(*text) == match r {
            Some(t) => Some(t@),
            None => None,
        },
{
    match text {
        Some(t) => Some(t.as_str()),
        None => None,
    }
}

fn collect_pairs(program: &Program) -> (r: Vec<SlotName>)
    ensures
        pairs_of(r@) == slot_pairs(*program),
{
    let mut list: Vec<SlotName> = Vec::new();
    let mut i: usize = 0;
    assert(pairs_of(list@) =~= rule_pairs(program.derived@, 0));
    while i < program.derived.len()
        invariant
            i <= program.derived@.len(),
            pairs_of(list@) == rule_pairs(program.derived@, i as nat),
        decreases program.derived@.len() - i,
    {
        let derived = &program.derived[i];
        let slots = collect_rule_slots(derived);
        push_owned(&mut list, opt_str(&derived.id), &slots);
        i = i + 1;
    }
    let ghost rules = pairs_of(list@);
    let mut i: usize = 0;
    assert(pairs_of(list@) =~= rules + relation_pairs(program.relations@, 0));
    while i < program.relations.len()
        invariant
            i <= program.relations@.len(),
            pairs_of(list@) == rules + relation_pairs(program.relations@, i as nat),
        decreases program.relations@.len() - i,
    {
        let relation = &program.relations[i];
        if let Some(d) = &relation.derivation {
            let mut slots: Vec<String> = Vec::new();
            assert(texts(slots@) =~= Seq::empty());
            collect_input_slots_from_judgment_expr(&d.predicate, &mut slots);
            assert(texts(slots@) =~= judgment_slots(d.predicate));
            push_owned(&mut list, Some(relation.name.as_str()), &slots);
        }
        assert(pairs_of(list@) =~= rules + relation_pairs(program.relations@, (i + 1) as nat));
        i = i + 1;
    }
    let ghost more = pairs_of(list@);
    let mut i: usize = 0;
    assert(pairs_of(list@) =~= more + parameter_pairs(program.parameters@, 0));
    while i < program.parameters.len()
        invariant
            i <= program.parameters@.len(),
            pairs_of(list@) == more + parameter_pairs(program.parameters@, i as nat),
        decreases program.parameters@.len() - i,
    {
        let parameter = &program.parameters[i];
        if let Some(slot) = &parameter.indexed_by {
            let mut slots: Vec<String> = Vec::new();
            slots.push(slot.clone());
            assert(texts(slots@) =~= seq![slot@]);
            push_owned(&mut list, opt_str(&parameter.id), &slots);
        }
        assert(pairs_of(list@) =~= more + parameter_pairs(program.parameters@, (i + 1) as nat));
        i = i + 1;
    }
    list
}

/// The names of a slot, ascending and each once.
fn names_of_slot(list: &Vec<SlotName>, slot: &str) -> (r: Vec<String>)
    ensures
        texts(r@) == sorted_texts(names_among(pairs_of(list@), slot@, list@.len())),
{
    let mut names: Vec<String> = Vec::new();
    let ghost pairs = pairs_of(list@);
    let mut i: usize = 0;
    assert(texts(names@) =~= sorted_texts(names_among(pairs, slot@, 0)));
    while i < list.len()
        invariant
            i <= list@.len(),
            pairs == pairs_of(list@),
            texts(names@) == sorted_texts(names_among(pairs, slot@, i as nat)),
        decreases list@.len() - i,
    {
        if same(list[i].slot.as_str(), slot) {
            proof {
                let longer = names_among(pairs, slot@, (i + 1) as nat);
                assert(longer.drop_last() =~= names_among(pairs, slot@, i as nat));
            }
            insert_sorted(&mut names, list[i].name.clone());
        }
        i = i + 1;
    }
    names
}

impl Program {
    /// The names under which requests supply each input slot. A slot of a rule with a
    /// public name is supplied under that rule's module; a slot that several rules read
    /// may have several names.
    pub fn input_catalog(&self) -> (r: Vec<CatalogEntry>)
        ensures
            catalog_of(r@, slot_pairs(*self)),
    {
        let list = collect_pairs(self);
        let ghost pairs = slot_pairs(*self);
        let mut slots: Vec<String> = Vec::new();
        let mut i: usize = 0;
        assert(pair_slots(pairs).take(0) =~= Seq::empty());
        assert(texts(slots@) =~= sorted_texts(pair_slots(pairs).take(0)));
        while i < list.len()
            invariant
                i <= list@.len(),
                pairs == pairs_of(list@),
                texts(slots@) == sorted_texts(pair_slots(pairs).take(i as int)),
            decreases list@.len() - i,
        {
            proof {
                let longer = pair_slots(pairs).take(i + 1);
                assert(longer.drop_last() =~= pair_slots(pairs).take(i as int));
                assert(longer.last() == list@[i as int].slot@);
            }
            insert_sorted(&mut slots, list[i].slot.clone());
            i = i + 1;
        }
        assert(pair_slots(pairs).take(pairs.len() as int) =~= pair_slots(pairs));
        let mut entries: Vec<CatalogEntry> = Vec::new();
        let mut i: usize = 0;
        while i < slots.len()
            invariant
                i <= slots@.len(),
                pairs == pairs_of(list@),
                entries@.len() == i,
                forall|j: int| #![trigger entries@[j]]
                    0 <= j < i ==> entries@[j].slot@ == slots@[j]@ && texts(entries@[j].names@)
                        == sorted_texts(names_among(pairs, slots@[j]@, pairs.len())),
            decreases slots@.len() - i,
        {
            let names = names_of_slot(&list, slots[i].as_str());
            entries.push(CatalogEntry { slot: slots[i].clone(), names });
            i = i + 1;
        }
        proof {
            let sorted = sorted_texts(pair_slots(pairs));
            assert forall|j: int| #![trigger entries@[j]] 0 <= j < entries@.len() implies
                entries@[j].slot@ == sorted[j] && texts(entries@[j].names@) == sorted_texts(
                names_among(pairs, sorted[j], pairs.len()),
            ) by {
                assert(texts(slots@)[j] == slots@[j]@);
            }
        }
        entries
    }
}

/// Whether a catalog offers a name for a slot.
pub open spec fn offers(catalog: Seq<CatalogEntry>, slot: Seq<char>, name: Seq<char>) -> bool {
    exists|i: int|
        0 <= i < catalog.len() && (#[trigger] catalog[i]).slot@ == slot && texts(
            catalog[i].names@,
        ).contains(name)
}

/// Whether a catalog offers a name for a slot.
pub fn catalog_offers(catalog: &Vec<CatalogEntry>, slot: &str, name: &str) -> (r: bool)
    ensures
        r == offers(catalog@, slot@, name@),
{
    let mut i: usize = 0;
    while i < catalog.len()
        invariant
            i <= catalog@.len(),
            forall|j: int|
                0 <= j < i ==> !((#[trigger] catalog@[j]).slot@ == slot@ && texts(
                    catalog@[j].names@,
                ).contains(name@)),
        decreases catalog@.len() - i,
    {
        if same(catalog[i].slot.as_str(), slot) {
            let names = &catalog[i].names;
            let mut k: usize = 0;
            while k < names.len()
                invariant
                    i < catalog@.len(),
                    catalog@[i as int].slot@ == slot@,
                    *names == catalog@[i as int].names,
                    k <= names@.len(),
                    forall|j: int| 0 <= j < k ==> (#[trigger] names@[j])@ != name@,
                decreases names@.len() - k,
            {
                if same(names[k].as_str(), name) {
                    assert(texts(catalog@[i as int].names@)[k as int] == name@);
                    return true;
                }
                k = k + 1;
            }
            proof {
                if texts(names@).contains(name@) {
                    let j = texts(names@).index_of(name@);
                    assert(names@[j]@ == name@);
                }
            }
        }
        i = i + 1;
    }
    false
}

/// The first rule, from `from` on, with a public name.
pub open spec fn rule_with_id(rules: Seq<Derived>, id: Seq<char>, from: nat) -> Option<nat>
    decreases rules.len() - from,
{
    if from >= rules.len() {
        None
    } else if opt_text(rules[from as int].id) == Some(id) {
        Some(from)
    } else {
        rule_with_id(rules, id, from + 1)
    }
}

/// The first parameter, from `from` on, with a public name.
pub open spec fn parameter_with_id(
    parameters: Seq<IndexedParameter>,
    id: Seq<char>,
    from: nat,
) -> Option<nat>
    decreases parameters.len() - from,
{
    if from >= parameters.len() {
        None
    } else if opt_text(parameters[from as int].id) == Some(id) {
        Some(from)
    } else {
        parameter_with_id(parameters, id, from + 1)
    }
}

/// The rule that a reference names: by its public name, or by its name where it has no
/// public one.
pub open spec fn derived_named(p: Program, reference: Seq<char>) -> Option<Seq<char>> {
    match rule_with_id(p.derived@, reference, 0) {
        Some(i) => Some(p.derived@[i as int].name@),
        None => match item_named(p.derived@, reference) {
            Some(d) if d.id is None => Some(reference),
            _ => None,
        },
    }
}

proof fn rule_with_id_bound(rules: Seq<Derived>, id: Seq<char>, from: nat)
    ensures
        rule_with_id(rules, id, from) matches Some(i) ==> i < rules.len(),
    decreases rules.len() - from,
{
    if from < rules.len() {
        rule_with_id_bound(rules, id, from + 1);
    }
}

/// What a reference names is a rule of the program.
pub proof fn derived_named_is_rule(p: Program, reference: Seq<char>)
    ensures
        derived_named(p, reference) matches Some(name) ==> p.rule(name) is Some,
{
    rule_with_id_bound(p.derived@, reference, 0);
    if let Some(i) = rule_with_id(p.derived@, reference, 0) {
        let name = p.derived@[i as int].name@;
        position_from_meaning(p.derived@, name, 0);
        assert(p.derived@[i as int].label_of() == name);
    }
}

/// The parameter that a reference names: by its public name, or by its name where it
/// has no public one.
pub open spec fn parameter_named(p: Program, reference: Seq<char>) -> Option<Seq<char>> {
    match parameter_with_id(p.parameters@, reference, 0) {
        Some(i) => Some(p.parameters@[i as int].name@),
        None => match item_named(p.parameters@, reference) {
            Some(d) if d.id is None => Some(reference),
            _ => None,
        },
    }
}

/// The input slot that a reference names: one that the catalog offers under that very
/// name, or a rule or parameter that a request overrides by its public name.
pub open spec fn input_named(
    p: Program,
    reference: Seq<char>,
    catalog: Seq<CatalogEntry>,
    target_is_valid: bool,
) -> Option<Seq<char>> {
    if !holds(reference, '#') {
        if offers(catalog, reference, reference) {
            Some(reference)
        } else {
            None
        }
    } else {
        match reference_fragment(reference, target_is_valid) {
            None => None,
            Some(fragment) => if begins(fragment, "input."@) {
                let slot = fragment.skip("input."@.len() as int);
                if offers(catalog, slot, reference) {
                    Some(slot)
                } else {
                    None
                }
            } else {
                match rule_with_id(p.derived@, reference, 0) {
                    Some(i) => Some(p.derived@[i as int].name@),
                    None => match parameter_with_id(p.parameters@, reference, 0) {
                        Some(i) => Some(p.parameters@[i as int].name@),
                        None => None,
                    },
                }
            },
        }
    }
}

/// Whether a rule or parameter has a public name.
pub open spec fn has_public_ids(p: Program) -> bool {
    (exists|i: int| 0 <= i < p.derived@.len() && (#[trigger] p.derived@[i]).id is Some) || (exists|
        i: int,
    |
        0 <= i < p.parameters@.len() && (#[trigger] p.parameters@[i]).id is Some)
}

/// The relation that a reference names: by its name, or behind `relation.` of a public
/// reference in a program with public names.
pub open spec fn relation_named(p: Program, reference: Seq<char>, target_is_valid: bool) -> Option<
    Seq<char>,
> {
    if item_named(p.relations@, reference) is Some {
        Some(reference)
    } else if !has_public_ids(p) {
        None
    } else {
        match reference_fragment(reference, target_is_valid) {
            None => None,
            Some(fragment) => if begins(fragment, "relation."@) {
                let name = fragment.skip("relation."@.len() as int);
                if item_named(p.relations@, name) is Some {
                    Some(name)
                } else {
                    None
                }
            } else {
                None
            },
        }
    }
}

fn is_id(id: &Option<String>, reference: &str) -> (r: bool)
    ensures
        r == (opt_text(*id) == Some(reference@)),
{
    match id {
        Some(id) => same(id.as_str(), reference),
        None => false,
    }
}

impl Program {
    fn find_rule_by_id(&self, id: &str) -> (r: Option<&Derived>)
        ensures
            match r {
                Some(d) => rule_with_id(self.derived@, id@, 0) matches Some(i) && *d
                    == self.derived@[i as int],
                None => rule_with_id(self.derived@, id@, 0) is None,
            },
    {
        let mut i: usize = 0;
        while i < self.derived.len()
            invariant
                i <= self.derived@.len(),
                rule_with_id(self.derived@, id@, 0) == rule_with_id(self.derived@, id@, i as nat),
            decreases self.derived@.len() - i,
        {
            if is_id(&self.derived[i].id, id) {
                return Some(&self.derived[i]);
            }
            i = i + 1;
        }
        None
    }

    fn find_parameter_by_id(&self, id: &str) -> (r: Option<&IndexedParameter>)
        ensures
            match r {
                Some(d) => parameter_with_id(self.parameters@, id@, 0) matches Some(i) && *d
                    == self.parameters@[i as int],
                None => parameter_with_id(self.parameters@, id@, 0) is None,
            },
    {
        let mut i: usize = 0;
        while i < self.parameters.len()
            invariant
                i <= self.parameters@.len(),
                parameter_with_id(self.parameters@, id@, 0) == parameter_with_id(
                    self.parameters@,
                    id@,
                    i as nat,
                ),
            decreases self.parameters@.len() - i,
        {
            if is_id(&self.parameters[i].id, id) {
                return Some(&self.parameters[i]);
            }
            i = i + 1;
        }
        None
    }

    /// The name of the rule that a reference names.
    pub fn resolve_derived_name(&self, reference: &str) -> (r: Option<String>)
        ensures
            derived_named(*self, reference@) == opt_text(r),
    {
        if let Some(derived) = self.find_rule_by_id(reference) {
            return Some(derived.name.clone());
        }
        match find_named(&self.derived, reference) {
            Some(derived) => {
                if derived.id.is_none() {
                    Some(owned(reference))
                } else {
                    None
                }
            },
            None => None,
        }
    }

    /// The name of the parameter that a reference names.
    pub fn resolve_parameter_name(&self, reference: &str) -> (r: Option<String>)
        ensures
            parameter_named(*self, reference@) == opt_text(r),
    {
        if let Some(parameter) = self.find_parameter_by_id(reference) {
            return Some(parameter.name.clone());
        }
        match find_named(&self.parameters, reference) {
            Some(parameter) => {
                if parameter.id.is_none() {
                    Some(owned(reference))
                } else {
                    None
                }
            },
            None => None,
        }
    }

    /// The input slot that a reference names in a catalog.
    pub fn resolve_input_name_with_catalog(
        &self,
        reference: &str,
        input_catalog: &Vec<CatalogEntry>,
        target_is_valid: bool,
    ) -> (r: Option<String>)
        ensures
            input_named(*self, reference@, input_catalog@, target_is_valid) == opt_text(r),
    {
        if !contains_char(reference, '#') {
            return if catalog_offers(input_catalog, reference, reference) {
                Some(owned(reference))
            } else {
                None
            };
        }
        let public = match PublicReference::parse(reference, target_is_valid) {
            Some(public) => public,
            None => return None,
        };
        if let Some(slot) = strip_prefix(public.fragment, "input.") {
            return if catalog_offers(input_catalog, slot, reference) {
                Some(owned(slot))
            } else {
                None
            };
        }
        if let Some(derived) = self.find_rule_by_id(reference) {
            return Some(derived.name.clone());
        }
        match self.find_parameter_by_id(reference) {
            Some(parameter) => Some(parameter.name.clone()),
            None => None,
        }
    }

    /// The input slot that a reference names in the program's own catalog.
    pub fn resolve_input_name(&self, reference: &str, target_is_valid: bool) -> (r: Option<String>)
        ensures
            exists|catalog: Seq<CatalogEntry>| #[trigger]
                catalog_of(catalog, slot_pairs(*self)) && input_named(
                    *self,
                    reference@,
                    catalog,
                    target_is_valid,
                ) == opt_text(r),
    {
        let catalog = self.input_catalog();
        let r = self.resolve_input_name_with_catalog(reference, &catalog, target_is_valid);
        assert(catalog_of(catalog@, slot_pairs(*self)));
        r
    }

    fn has_ids(&self) -> (r: bool)
        ensures
            r == has_public_ids(*self),
    {
        let mut i: usize = 0;
        while i < self.derived.len()
            invariant
                i <= self.derived@.len(),
                forall|j: int| 0 <= j < i ==> (#[trigger] self.derived@[j]).id is None,
            decreases self.derived@.len() - i,
        {
            if self.derived[i].id.is_some() {
                assert(self.derived@[i as int].id is Some);
                return true;
            }
            i = i + 1;
        }
        let mut i: usize = 0;
        while i < self.parameters.len()
            invariant
                i <= self.parameters@.len(),
                forall|j: int|
                    0 <= j < self.derived@.len() ==> (#[trigger] self.derived@[j]).id is None,
                forall|j: int| 0 <= j < i ==> (#[trigger] self.parameters@[j]).id is None,
            decreases self.parameters@.len() - i,
        {
            if self.parameters[i].id.is_some() {
                assert(self.parameters@[i as int].id is Some);
                return true;
            }
            i = i + 1;
        }
        false
    }

    /// The name of the relation that a reference names.
    pub fn resolve_relation_name(&self, reference: &str, target_is_valid: bool) -> (r: Option<
        String,
    >)
        ensures
            relation_named(*self, reference@, target_is_valid) == opt_text(r),
    {
        if find_named(&self.relations, reference).is_some() {
            return Some(owned(reference));
        }
        if !self.has_ids() {
            return None;
        }
        let public = match PublicReference::parse(reference, target_is_valid) {
            Some(public) => public,
            None => return None,
        };
        match strip_prefix(public.fragment, "relation.") {
            Some(name) => {
                if find_named(&self.relations, name).is_some() {
                    Some(owned(name))
                } else {
                    None
                }
            },
            None => None,
        }
    }
}

} // verus!
