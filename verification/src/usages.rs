//! How formulas use relations: the entity kinds of the rows on each slot.
use crate::model::{
    find_named, item_named, Derived, DerivedSemantics, DerivedVersion, JudgmentExpr, Program,
    RelatedValueRef, RelationDerivation, RelationSchema, ScalarExpr, SCALAR_ENTITY,
};
use crate::text::{insert_sorted, opt_text, owned, precedes, same, sorted_texts, text_lt, texts};
use vstd::prelude::*;
use vstd::string::*;

verus! {

/// One use of a relation: the entity kinds that it gives the slots of the relation,
/// where they are known.
#[derive(Debug)]
pub struct RelationUsage {
    pub relation: String,
    pub slot_entities: Vec<Option<String>>,
    pub citing_rule: String,
}

/// The model of a [`RelationUsage`].
pub ghost struct UsageView {
    pub relation: Seq<char>,
    pub slots: Seq<Option<Seq<char>>>,
    pub rule: Seq<char>,
}

pub open spec fn kinds_view(slots: Seq<Option<String>>) -> Seq<Option<Seq<char>>> {
    slots.map_values(|k: Option<String>| opt_text(k))
}

impl RelationUsage {
    pub open spec fn view(&self) -> UsageView {
        UsageView {
            relation: self.relation@,
            slots: kinds_view(self.slot_entities@),
            rule: self.citing_rule@,
        }
    }
}

pub open spec fn usage_views(usages: Seq<RelationUsage>) -> Seq<UsageView> {
    usages.map_values(|u: RelationUsage| u@)
}

pub open spec fn kind_of(kind: Option<&str>) -> Option<Seq<char>> {
    match kind {
        Some(k) => Some(k@),
        None => None,
    }
}

pub open spec fn context_of(context: Option<(Option<&str>, Option<&str>)>) -> Option<
    (Option<Seq<char>>, Option<Seq<char>>),
> {
    match context {
        Some((a, b)) => Some((kind_of(a), kind_of(b))),
        None => None,
    }
}

fn owned_kind(kind: Option<&str>) -> (r: Option<String>)
    ensures
        opt_text(r) == kind_of(kind),
{
    match kind {
        Some(k) => Some(owned(k)),
        None => None,
    }
}

fn copied_kind(kind: &Option<String>) -> (r: Option<String>)
    ensures
        r == *kind,
{
    match kind {
        Some(k) => Some(k.clone()),
        None => None,
    }
}

pub(crate) fn opt_str(kind: &Option<String>) -> (r: Option<&str>)
    ensures
        kind_of(r) == opt_text(*kind),
{
    match kind {
        Some(k) => Some(k.as_str()),
        None => None,
    }
}

/// The entity of a rule that has one.
pub open spec fn rule_entity(p: Program, name: Seq<char>) -> Seq<Seq<char>> {
    match item_named(p.derived@, name) {
        Some(d) => if d.entity@ == SCALAR_ENTITY@ {
            Seq::empty()
        } else {
            seq![d.entity@]
        },
        None => Seq::empty(),
    }
}

fn push_rule_entity(program: &Program, name: &str, out: &mut Vec<String>)
    ensures
        texts(final(out)@) == texts(old(out)@) + rule_entity(*program, name@),
{
    let ghost before = out@;
    if let Some(d) = find_named(&program.derived, name) {
        if !same(d.entity.as_str(), SCALAR_ENTITY) {
            out.push(d.entity.clone());
        }
    }
    assert(texts(out@) =~= texts(before) + rule_entity(*program, name@));
}

/// The entities of the rules that a formula reads on its own row. What an aggregation
/// reads belongs to the aggregation's related rows.
pub open spec fn scalar_entities(e: ScalarExpr, p: Program) -> Seq<Seq<char>>
    decreases e, 1int, 0nat,
{
    match e {
        ScalarExpr::Literal(_) => Seq::empty(),
        ScalarExpr::PeriodStart => Seq::empty(),
        ScalarExpr::PeriodEnd => Seq::empty(),
        ScalarExpr::Input(_) => Seq::empty(),
        ScalarExpr::InputOrElse { .. } => Seq::empty(),
        ScalarExpr::Derived(name) => rule_entity(p, name@),
        ScalarExpr::ParameterLookup { index, .. } => scalar_entities(*index, p),
        ScalarExpr::Add(items) => scalar_entitiess(items@, items@.len(), p),
        ScalarExpr::Max(items) => scalar_entitiess(items@, items@.len(), p),
        ScalarExpr::Min(items) => scalar_entitiess(items@, items@.len(), p),
        ScalarExpr::Sub(a, b) => scalar_entities(*a, p) + scalar_entities(*b, p),
        ScalarExpr::Mul(a, b) => scalar_entities(*a, p) + scalar_entities(*b, p),
        ScalarExpr::Div(a, b) => scalar_entities(*a, p) + scalar_entities(*b, p),
        ScalarExpr::Ceil(a) => scalar_entities(*a, p),
        ScalarExpr::Floor(a) => scalar_entities(*a, p),
        ScalarExpr::DateAddDays { date, days } => scalar_entities(*date, p) + scalar_entities(*days, p),
        ScalarExpr::DateAddMonths { date, months } => scalar_entities(*date, p) + scalar_entities(*months, p),
        ScalarExpr::DateAddYears { date, years } => scalar_entities(*date, p) + scalar_entities(*years, p),
        ScalarExpr::DaysBetween { from, to } => scalar_entities(*from, p) + scalar_entities(*to, p),
        ScalarExpr::CountRelated { .. } => Seq::empty(),
        ScalarExpr::SumRelated { .. } => Seq::empty(),
        ScalarExpr::If { condition, then_expr, else_expr } => judgment_entities(*condition, p) + scalar_entities(
            *then_expr, p) + scalar_entities(*else_expr, p),
        ScalarExpr::NoMatch { subject, .. } => scalar_entities(*subject, p),
        ScalarExpr::OverPeriods { value, n, .. } => scalar_entities(*value, p) + match n {
            Some(n) => scalar_entities(*n, p),
            None => Seq::empty(),
        },
    }
}

pub open spec fn scalar_entitiess(items: Seq<ScalarExpr>, n: nat, p: Program) -> Seq<Seq<char>>
    decreases items, 0int, n,
{
    if n == 0 || n > items.len() {
        Seq::empty()
    } else {
        scalar_entitiess(items, (n - 1) as nat, p) + scalar_entities(items[n - 1], p)
    }
}

/// The entities of the rules that a judgment reads on its own row.
pub open spec fn judgment_entities(e: JudgmentExpr, p: Program) -> Seq<Seq<char>>
    decreases e, 1int, 0nat,
{
    match e {
        JudgmentExpr::Comparison { left, right, .. } => scalar_entities(left, p) + scalar_entities(right, p),
        JudgmentExpr::Derived(name) => rule_entity(p, name@),
        JudgmentExpr::RelationMember { .. } => Seq::empty(),
        JudgmentExpr::And(items) => judgment_entitiess(items@, items@.len(), p),
        JudgmentExpr::Or(items) => judgment_entitiess(items@, items@.len(), p),
        JudgmentExpr::Not(item) => judgment_entities(*item, p),
    }
}

pub open spec fn judgment_entitiess(items: Seq<JudgmentExpr>, n: nat, p: Program) -> Seq<Seq<char>>
    decreases items, 0int, n,
{
    if n == 0 || n > items.len() {
        Seq::empty()
    } else {
        judgment_entitiess(items, (n - 1) as nat, p) + judgment_entities(items[n - 1], p)
    }
}

fn collect_scalar_derived_entities_two(
    a: &ScalarExpr,
    b: &ScalarExpr,
    program: &Program,
    out: &mut Vec<String>,
    Ghost(whole): Ghost<ScalarExpr>,
)
    requires
        decreases_to!(whole => *a),
        decreases_to!(whole => *b),
    ensures
        texts(final(out)@) == texts(old(out)@) + (scalar_entities(*a, *program) + scalar_entities(*b, *program)),
    decreases whole, 0int,
{
    let ghost before = texts(out@);
    collect_scalar_derived_entities(a, program, out);
    collect_scalar_derived_entities(b, program, out);
    assert(texts(out@) =~= before + (scalar_entities(*a, *program) + scalar_entities(*b, *program)));
}

fn collect_scalar_derived_entities_items(items: &Vec<ScalarExpr>,
    program: &Program,
    out: &mut Vec<String>,
)
    ensures
        texts(final(out)@) == texts(old(out)@) + scalar_entitiess(items@, items@.len(), *program),
    decreases items@, 0int,
{
    let ghost before = texts(out@);
    let mut i: usize = 0;
    assert(texts(out@) =~= before + scalar_entitiess(items@, 0, *program));
    while i < items.len()
        invariant
            i <= items@.len(),
            texts(out@) == before + scalar_entitiess(items@, i as nat, *program),
        decreases items@.len() - i,
    {
        collect_scalar_derived_entities(&items[i], program, out);
        assert(texts(out@) =~= before + scalar_entitiess(items@, (i + 1) as nat, *program));
        i = i + 1;
    }
}

/// Adds the entities of the rules that a formula reads on its own row.
fn collect_scalar_derived_entities(expr: &ScalarExpr,
    program: &Program,
    out: &mut Vec<String>,
)
    ensures
        texts(final(out)@) == texts(old(out)@) + scalar_entities(*expr, *program),
    decreases *expr, 1int,
{
    let ghost before = texts(out@);
    match expr {
        ScalarExpr::Literal(_) | ScalarExpr::PeriodStart | ScalarExpr::PeriodEnd => {
            assert(before + Seq::<Seq<char>>::empty() =~= before);
        },
        ScalarExpr::Input(_) => {
            assert(before + Seq::<Seq<char>>::empty() =~= before);
        },
        ScalarExpr::InputOrElse { .. } => {
            assert(before + Seq::<Seq<char>>::empty() =~= before);
        },
        ScalarExpr::Derived(name) => {
            push_rule_entity(program, name.as_str(), out);
        },
        ScalarExpr::ParameterLookup { index, .. } => collect_scalar_derived_entities(index, program, out),
        ScalarExpr::Add(items) => collect_scalar_derived_entities_items(items, program, out),
        ScalarExpr::Max(items) => collect_scalar_derived_entities_items(items, program, out),
        ScalarExpr::Min(items) => collect_scalar_derived_entities_items(items, program, out),
        ScalarExpr::Sub(a, b) => collect_scalar_derived_entities_two(a, b, program, out, Ghost(*expr)),
        ScalarExpr::Mul(a, b) => collect_scalar_derived_entities_two(a, b, program, out, Ghost(*expr)),
        ScalarExpr::Div(a, b) => collect_scalar_derived_entities_two(a, b, program, out, Ghost(*expr)),
        ScalarExpr::Ceil(a) => collect_scalar_derived_entities(a, program, out),
        ScalarExpr::Floor(a) => collect_scalar_derived_entities(a, program, out),
        ScalarExpr::DateAddDays { date, days } => collect_scalar_derived_entities_two(date, days, program, out, Ghost(*expr)),
        ScalarExpr::DateAddMonths { date, months } => collect_scalar_derived_entities_two(date, months, program, out, Ghost(*expr)),
        ScalarExpr::DateAddYears { date, years } => collect_scalar_derived_entities_two(date, years, program, out, Ghost(*expr)),
        ScalarExpr::DaysBetween { from, to } => collect_scalar_derived_entities_two(from, to, program, out, Ghost(*expr)),
        ScalarExpr::CountRelated { .. } => {
            assert(before + Seq::<Seq<char>>::empty() =~= before);
        },
        ScalarExpr::SumRelated { .. } => {
            assert(before + Seq::<Seq<char>>::empty() =~= before);
        },
        ScalarExpr::If { condition, then_expr, else_expr } => {
            collect_referenced_derived_entities(condition, program, out);
            collect_scalar_derived_entities(then_expr, program, out);
            collect_scalar_derived_entities(else_expr, program, out);
            assert(texts(out@) =~= before + scalar_entities(*expr, *program));
        },
        ScalarExpr::NoMatch { subject, .. } => collect_scalar_derived_entities(subject, program, out),
        ScalarExpr::OverPeriods { value, n, .. } => {
            collect_scalar_derived_entities(value, program, out);
            if let Some(n) = n {
                collect_scalar_derived_entities(n, program, out);
            }
            assert(texts(out@) =~= before + scalar_entities(*expr, *program));
        },
    }
}

fn collect_referenced_derived_entities_items(items: &Vec<JudgmentExpr>,
    program: &Program,
    out: &mut Vec<String>,
)
    ensures
        texts(final(out)@) == texts(old(out)@) + judgment_entitiess(items@, items@.len(), *program),
    decreases items@, 0int,
{
    let ghost before = texts(out@);
    let mut i: usize = 0;
    assert(texts(out@) =~= before + judgment_entitiess(items@, 0, *program));
    while i < items.len()
        invariant
            i <= items@.len(),
            texts(out@) == before + judgment_entitiess(items@, i as nat, *program),
        decreases items@.len() - i,
    {
        collect_referenced_derived_entities(&items[i], program, out);
        assert(texts(out@) =~= before + judgment_entitiess(items@, (i + 1) as nat, *program));
        i = i + 1;
    }
}

/// Adds the entities of the rules that a judgment reads on its own row.
fn collect_referenced_derived_entities(expr: &JudgmentExpr,
    program: &Program,
    out: &mut Vec<String>,
)
    ensures
        texts(final(out)@) == texts(old(out)@) + judgment_entities(*expr, *program),
    decreases *expr, 1int,
{
    let ghost before = texts(out@);
    match expr {
        JudgmentExpr::Comparison { left, right, .. } => {
            collect_scalar_derived_entities(left, program, out);
            collect_scalar_derived_entities(right, program, out);
            assert(texts(out@) =~= before + judgment_entities(*expr, *program));
        },
        JudgmentExpr::Derived(name) => push_rule_entity(program, name.as_str(), out),
        JudgmentExpr::RelationMember { .. } => {
            assert(before + Seq::<Seq<char>>::empty() =~= before);
        },
        JudgmentExpr::And(items) => collect_referenced_derived_entities_items(items, program, out),
        JudgmentExpr::Or(items) => collect_referenced_derived_entities_items(items, program, out),
        JudgmentExpr::Not(item) => collect_referenced_derived_entities(item, program, out),
    }
}

/// The one text of a list that holds no other.
pub open spec fn sole(list: Seq<Seq<char>>) -> Option<Seq<char>> {
    if list.len() > 0 && forall|i: int| 0 <= i < list.len() ==> #[trigger] list[i] == list[0] {
        Some(list[0])
    } else {
        None
    }
}

pub(crate) fn sole_text(list: &Vec<String>) -> (r: Option<String>)
    ensures
        opt_text(r) == sole(texts(list@)),
{
    if list.len() == 0 {
        return None;
    }
    let mut i: usize = 1;
    while i < list.len()
        invariant
            1 <= i <= list@.len(),
            forall|j: int| 0 <= j < i ==> #[trigger] texts(list@)[j] == texts(list@)[0],
        decreases list@.len() - i,
    {
        if !same(list[i].as_str(), list[0].as_str()) {
            assert(texts(list@)[i as int] != texts(list@)[0]);
            return None;
        }
        i = i + 1;
    }
    Some(list[0].clone())
}

/// The kind of the related rows of an aggregation, as the rules that it reads on them
/// show it: their one entity.
pub open spec fn related_kind(
    p: Program,
    value: Option<RelatedValueRef>,
    where_clause: Option<Box<JudgmentExpr>>,
) -> Option<Seq<char>> {
    sole(
        (match value {
            Some(RelatedValueRef::Derived(name)) => rule_entity(p, name@),
            _ => Seq::empty(),
        }) + match where_clause {
            Some(w) => judgment_entities(*w, p),
            None => Seq::empty(),
        },
    )
}

fn related_entity_kind(
    program: &Program,
    value: Option<&RelatedValueRef>,
    where_clause: &Option<Box<JudgmentExpr>>,
) -> (r: Option<String>)
    ensures
        opt_text(r) == related_kind(
            *program,
            match value {
                Some(v) => Some(*v),
                None => None,
            },
            *where_clause,
        ),
{
    let mut entities: Vec<String> = Vec::new();
    assert(texts(entities@) =~= Seq::empty());
    if let Some(RelatedValueRef::Derived(name)) = value {
        push_rule_entity(program, name.as_str(), &mut entities);
    }
    let ghost first = texts(entities@);
    assert(first =~= match value {
        Some(RelatedValueRef::Derived(name)) => rule_entity(*program, name@),
        _ => Seq::empty(),
    });
    if let Some(w) = where_clause {
        collect_referenced_derived_entities(w, program, &mut entities);
    }
    assert(texts(entities@) =~= first + match *where_clause {
        Some(w) => judgment_entities(*w, *program),
        None => Seq::empty(),
    });
    sole_text(&entities)
}

/// The kind of the current rows of an aggregation: that of the rule, or for a rule of a
/// derived relation's own entity that of the relation's slot.
pub open spec fn current_kind(
    p: Program,
    relation: Seq<char>,
    current_slot: nat,
    owner: Option<Seq<char>>,
) -> Option<Seq<char>> {
    match item_named(p.relations@, relation) {
        None => None,
        Some(schema) => match schema.derivation {
            Some(d) if owner is Some && opt_text(d.entity) == owner => if current_slot
                < d.slot_entities@.len() {
                Some(d.slot_entities@[current_slot as int]@)
            } else {
                None
            },
            _ => owner,
        },
    }
}

fn executable_current_kind(
    program: &Program,
    relation: &str,
    current_slot: usize,
    owner_entity: Option<&str>,
) -> (r: Option<String>)
    ensures
        opt_text(r) == current_kind(
            *program,
            relation@,
            current_slot as nat,
            kind_of(owner_entity),
        ),
{
    match find_named(&program.relations, relation) {
        None => None,
        Some(schema) => {
            if let (Some(d), Some(owner)) = (&schema.derivation, owner_entity) {
                let own = match &d.entity {
                    Some(entity) => same(entity.as_str(), owner),
                    None => false,
                };
                if own {
                    return if current_slot < d.slot_entities.len() {
                        Some(d.slot_entities[current_slot].clone())
                    } else {
                        None
                    };
                }
            }
            owned_kind(owner_entity)
        },
    }
}

/// What is left of a list when the known kinds of the first `n` slots are taken out of
/// it, each once; nothing where one is not there.
pub open spec fn left_over(
    declared: Seq<Seq<char>>,
    slots: Seq<Option<Seq<char>>>,
    n: nat,
) -> Option<Seq<Seq<char>>>
    decreases n,
{
    if n == 0 || n > slots.len() {
        Some(declared)
    } else {
        match (left_over(declared, slots, (n - 1) as nat), slots[n - 1]) {
            (None, _) => None,
            (Some(rest), None) => Some(rest),
            (Some(rest), Some(kind)) => if rest.contains(kind) {
                Some(rest.remove(rest.index_of_first(kind)->Some_0))
            } else {
                None
            },
        }
    }
}

/// The first unknown slot from `from` on.
pub open spec fn unknown_from(slots: Seq<Option<Seq<char>>>, from: nat) -> Option<nat>
    decreases slots.len() - from,
{
    if from >= slots.len() {
        None
    } else if slots[from as int] is None {
        Some(from)
    } else {
        unknown_from(slots, from + 1)
    }
}

/// Slots with a single unknown kind filled in from the declared kinds, which count as
/// a collection without order.
pub open spec fn completed(declared: Seq<Seq<char>>, slots: Seq<Option<Seq<char>>>) -> Seq<
    Option<Seq<char>>,
> {
    match unknown_from(slots, 0) {
        Some(i) if declared.len() == slots.len() && unknown_from(slots, i + 1) is None => {
            match left_over(declared, slots, slots.len()) {
                Some(rest) => if rest.len() == 1 {
                    slots.update(i as int, Some(rest[0]))
                } else {
                    slots
                },
                None => slots,
            }
        },
        _ => slots,
    }
}

fn find_unknown(slots: &Vec<Option<String>>, from: usize) -> (r: Option<usize>)
    ensures
        unknown_from(kinds_view(slots@), from as nat) == match r {
            Some(i) => Some(i as nat),
            None => None,
        },
        r matches Some(i) ==> i < slots@.len(),
{
    let mut i: usize = from;
    while i < slots.len()
        invariant
            from <= i,
            unknown_from(kinds_view(slots@), from as nat) == unknown_from(
                kinds_view(slots@),
                i as nat,
            ),
        decreases slots@.len() - i,
    {
        if slots[i].is_none() {
            return Some(i);
        }
        i = i + 1;
    }
    None
}

fn find_text(list: &Vec<String>, text: &str) -> (r: Option<usize>)
    ensures
        match r {
            Some(i) => i < list@.len() && texts(list@).index_of_first(text@) == Some(i as int)
                && texts(list@).contains(text@),
            None => !texts(list@).contains(text@),
        },
{
    let mut i: usize = 0;
    while i < list.len()
        invariant
            i <= list@.len(),
            forall|j: int| 0 <= j < i ==> #[trigger] texts(list@)[j] != text@,
        decreases list@.len() - i,
    {
        if same(list[i].as_str(), text) {
            proof {
                let all = texts(list@);
                assert(all[i as int] == text@);
                all.index_of_first_ensures(text@);
            }
            return Some(i);
        }
        i = i + 1;
    }
    None
}

fn complete_single_unknown_slot(declared: &Vec<String>, slots: &mut Vec<Option<String>>)
    ensures
        kinds_view(final(slots)@) == completed(texts(declared@), kinds_view(old(slots)@)),
{
    let ghost s0 = kinds_view(slots@);
    if declared.len() != slots.len() {
        return ;
    }
    let unknown = match find_unknown(slots, 0) {
        Some(unknown) => unknown,
        None => return ,
    };
    if find_unknown(slots, unknown + 1).is_some() {
        return ;
    }
    let mut rest = crate::column::copied_texts(declared);
    let mut i: usize = 0;
    while i < slots.len()
        invariant
            i <= slots@.len(),
            *slots == *old(slots),
            s0 == kinds_view(slots@),
            declared@.len() == slots@.len(),
            unknown_from(s0, 0) == Some(unknown as nat),
            unknown_from(s0, (unknown + 1) as nat) is None,
            left_over(texts(declared@), s0, i as nat) == Some(texts(rest@)),
        decreases slots@.len() - i,
    {
        if let Some(kind) = &slots[i] {
            assert(s0[i as int] == Some(kind@));
            match find_text(&rest, kind.as_str()) {
                Some(at) => {
                    let ghost before = rest@;
                    rest.remove(at);
                    assert(texts(rest@) =~= texts(before).remove(at as int));
                },
                None => {
                    proof {
                        left_over_none(texts(declared@), s0, (i + 1) as nat, s0.len());
                    }
                    return ;
                },
            }
        } else {
            assert(s0[i as int] is None);
        }
        i = i + 1;
    }
    if rest.len() == 1 {
        let kind = rest[0].clone();
        slots.set(unknown, Some(kind));
        assert(texts(rest@)[0] == kind@);
        assert(kinds_view(slots@) =~= s0.update(unknown as int, Some(kind@)));
    }
}

proof fn left_over_none(
    declared: Seq<Seq<char>>,
    slots: Seq<Option<Seq<char>>>,
    m: nat,
    n: nat,
)
    requires
        m <= n <= slots.len(),
        left_over(declared, slots, m) is None,
    ensures
        left_over(declared, slots, n) is None,
    decreases n,
{
    if m < n {
        left_over_none(declared, slots, m, (n - 1) as nat);
    }
}

/// The kinds of a relation's slots in one use of it.
pub open spec fn usage_slots(
    p: Program,
    relation: Seq<char>,
    current_slot: nat,
    related_slot: nat,
    current: Option<Seq<char>>,
    related: Option<Seq<char>>,
) -> Seq<Option<Seq<char>>> {
    match item_named(p.relations@, relation) {
        None => Seq::empty(),
        Some(schema) => {
            let bare = bare_slots(schema.arity as nat, current_slot, related_slot, current, related);
            completed(texts(schema.slot_entities@), bare)
        },
    }
}

/// Slots with the kinds of two of them.
pub open spec fn bare_slots(
    arity: nat,
    current_slot: nat,
    related_slot: nat,
    current: Option<Seq<char>>,
    related: Option<Seq<char>>,
) -> Seq<Option<Seq<char>>> {
    Seq::new(
        arity,
        |i: int|
            if i == related_slot {
                related
            } else if i == current_slot {
                current
            } else {
                None
            },
    )
}

pub open spec fn slot_kind(slots: Seq<Option<Seq<char>>>, slot: nat) -> Option<Seq<char>> {
    if slot < slots.len() {
        slots[slot as int]
    } else {
        None
    }
}

/// A use of a relation and, for a derived one, the uses of the relations that it is
/// derived from. A chain of distinct relations is never longer than their number.
pub open spec fn chain_usages(
    p: Program,
    stack: Seq<Seq<char>>,
    relation: Seq<char>,
    current_slot: nat,
    related_slot: nat,
    current: Option<Seq<char>>,
    related: Option<Seq<char>>,
    rule: Seq<char>,
) -> Seq<UsageView>
    decreases p.relations@.len() - stack.len(),
{
    match item_named(p.relations@, relation) {
        None => Seq::empty(),
        Some(schema) => {
            let slots = usage_slots(p, relation, current_slot, related_slot, current, related);
            let own = seq![UsageView { relation, slots, rule }];
            match schema.derivation {
                Some(d) if !stack.contains(relation) && stack.len() < p.relations@.len() => own
                    + chain_usages(
                    p,
                    stack.push(relation),
                    d.source_relation@,
                    d.current_slot as nat,
                    d.related_slot as nat,
                    slot_kind(slots, current_slot),
                    slot_kind(slots, related_slot),
                    rule,
                ),
                _ => own,
            }
        },
    }
}

fn slot_text(slots: &Vec<Option<String>>, slot: usize) -> (r: Option<String>)
    ensures
        opt_text(r) == slot_kind(kinds_view(slots@), slot as nat),
{
    if slot < slots.len() {
        copied_kind(&slots[slot])
    } else {
        None
    }
}

/// Adds a use of a relation and of those that it is derived from, and gives the kinds
/// of its slots.
fn add_relation_usage(
    program: &Program,
    relation: &str,
    current_slot: usize,
    related_slot: usize,
    current_kind: Option<String>,
    related_kind: Option<String>,
    citing_rule: &str,
    usages: &mut Vec<RelationUsage>,
    stack: &Vec<String>,
) -> (r: Vec<Option<String>>)
    ensures
        usage_views(final(usages)@) == usage_views(old(usages)@) + chain_usages(
            *program,
            texts(stack@),
            relation@,
            current_slot as nat,
            related_slot as nat,
            opt_text(current_kind),
            opt_text(related_kind),
            citing_rule@,
        ),
        kinds_view(r@) == usage_slots(
            *program,
            relation@,
            current_slot as nat,
            related_slot as nat,
            opt_text(current_kind),
            opt_text(related_kind),
        ),
    decreases program.relations@.len() - stack@.len(),
{
    let ghost before = usage_views(usages@);
    let schema = match find_named(&program.relations, relation) {
        Some(schema) => schema,
        None => {
            let none: Vec<Option<String>> = Vec::new();
            assert(kinds_view(none@) =~= Seq::empty());
            assert(usage_views(usages@) =~= before + Seq::<UsageView>::empty());
            return none;
        },
    };
    let mut slots: Vec<Option<String>> = Vec::new();
    let mut i: usize = 0;
    while i < schema.arity
        invariant
            i <= schema.arity,
            slots@.len() == i,
            forall|j: int|
                0 <= j < i ==> opt_text(#[trigger] slots@[j]) == if j == related_slot {
                    opt_text(related_kind)
                } else if j == current_slot {
                    opt_text(current_kind)
                } else {
                    None
                },
        decreases schema.arity - i,
    {
        let kind = if i == related_slot {
            copied_kind(&related_kind)
        } else if i == current_slot {
            copied_kind(&current_kind)
        } else {
            None
        };
        slots.push(kind);
        i = i + 1;
    }
    proof {
        assert(kinds_view(slots@) =~= bare_slots(
            schema.arity as nat,
            current_slot as nat,
            related_slot as nat,
            opt_text(current_kind),
            opt_text(related_kind),
        ));
    }
    complete_single_unknown_slot(&schema.slot_entities, &mut slots);
    let ghost own = UsageView {
        relation: relation@,
        slots: kinds_view(slots@),
        rule: citing_rule@,
    };
    let copy = copied_kinds(&slots);
    usages.push(
        RelationUsage {
            relation: owned(relation),
            slot_entities: copy,
            citing_rule: owned(citing_rule),
        },
    );
    assert(usage_views(usages@) =~= before + seq![own]);
    let mut on_stack = false;
    let mut i: usize = 0;
    while i < stack.len()
        invariant
            i <= stack@.len(),
            on_stack == exists|j: int| 0 <= j < i && #[trigger] texts(stack@)[j] == relation@,
        decreases stack@.len() - i,
    {
        if same(stack[i].as_str(), relation) {
            assert(texts(stack@)[i as int] == relation@);
            on_stack = true;
        }
        i = i + 1;
    }
    proof {
        if on_stack {
            let j = choose|j: int| 0 <= j < i && #[trigger] texts(stack@)[j] == relation@;
            assert(texts(stack@).contains(relation@));
        } else if texts(stack@).contains(relation@) {
            let j = texts(stack@).index_of(relation@);
            assert(texts(stack@)[j] == relation@);
        }
    }
    if on_stack || stack.len() >= program.relations.len() {
        return slots;
    }
    if let Some(d) = &schema.derivation {
        let mut longer = crate::column::copied_texts(stack);
        longer.push(owned(relation));
        assert(texts(longer@) =~= texts(stack@).push(relation@));
        let ghost middle = usage_views(usages@);
        add_relation_usage(
            program,
            d.source_relation.as_str(),
            d.current_slot,
            d.related_slot,
            slot_text(&slots, current_slot),
            slot_text(&slots, related_slot),
            citing_rule,
            usages,
            &longer,
        );
        proof {
            let rest = chain_usages(
                *program,
                texts(stack@).push(relation@),
                d.source_relation@,
                d.current_slot as nat,
                d.related_slot as nat,
                slot_kind(own.slots, current_slot as nat),
                slot_kind(own.slots, related_slot as nat),
                citing_rule@,
            );
            assert(usage_views(usages@) =~= before + (seq![own] + rest));
        }
    }
    slots
}

fn copied_kinds(slots: &Vec<Option<String>>) -> (r: Vec<Option<String>>)
    ensures
        r@ == slots@,
{
    let mut r: Vec<Option<String>> = Vec::new();
    let mut i: usize = 0;
    while i < slots.len()
        invariant
            i <= slots@.len(),
            r@ =~= slots@.take(i as int),
        decreases slots@.len() - i,
    {
        r.push(copied_kind(&slots[i]));
        i = i + 1;
    }
    r
}

/// The uses of relations by a formula of `rule`, evaluated on rows of `entity`.
pub open spec fn scalar_usages(e: ScalarExpr, p: Program, entity: Option<Seq<char>>, rule: Seq<char>) -> Seq<UsageView>
    decreases e, 1int, 0nat,
{
    match e {
        ScalarExpr::Literal(_) => Seq::empty(),
        ScalarExpr::PeriodStart => Seq::empty(),
        ScalarExpr::PeriodEnd => Seq::empty(),
        ScalarExpr::Input(_) => Seq::empty(),
        ScalarExpr::InputOrElse { .. } => Seq::empty(),
        ScalarExpr::Derived(_) => Seq::empty(),
        ScalarExpr::ParameterLookup { index, .. } => scalar_usages(*index, p, entity, rule),
        ScalarExpr::Add(items) => scalar_usagess(items@, items@.len(), p, entity, rule),
        ScalarExpr::Max(items) => scalar_usagess(items@, items@.len(), p, entity, rule),
        ScalarExpr::Min(items) => scalar_usagess(items@, items@.len(), p, entity, rule),
        ScalarExpr::Sub(a, b) => scalar_usages(*a, p, entity, rule) + scalar_usages(*b, p, entity, rule),
        ScalarExpr::Mul(a, b) => scalar_usages(*a, p, entity, rule) + scalar_usages(*b, p, entity, rule),
        ScalarExpr::Div(a, b) => scalar_usages(*a, p, entity, rule) + scalar_usages(*b, p, entity, rule),
        ScalarExpr::Ceil(a) => scalar_usages(*a, p, entity, rule),
        ScalarExpr::Floor(a) => scalar_usages(*a, p, entity, rule),
        ScalarExpr::DateAddDays { date, days } => scalar_usages(*date, p, entity, rule) + scalar_usages(*days, p, entity, rule),
        ScalarExpr::DateAddMonths { date, months } => scalar_usages(*date, p, entity, rule) + scalar_usages(*months, p, entity, rule),
        ScalarExpr::DateAddYears { date, years } => scalar_usages(*date, p, entity, rule) + scalar_usages(*years, p, entity, rule),
        ScalarExpr::DaysBetween { from, to } => scalar_usages(*from, p, entity, rule) + scalar_usages(*to, p, entity, rule),
        ScalarExpr::CountRelated { relation, current_slot, related_slot, where_clause, .. } => {
            let slots = usage_slots(
                p,
                relation@,
                current_slot as nat,
                related_slot as nat,
                current_kind(p, relation@, current_slot as nat, entity),
                related_kind(p, None, where_clause),
            );
            chain_usages(
                p,
                Seq::empty(),
                relation@,
                current_slot as nat,
                related_slot as nat,
                current_kind(p, relation@, current_slot as nat, entity),
                related_kind(p, None, where_clause),
                rule,
            ) + match where_clause {
                Some(w) => judgment_usages(*w, p, slot_kind(slots, related_slot as nat), rule, None),
                None => Seq::empty(),
            }
        },
        ScalarExpr::SumRelated { relation, current_slot, related_slot, value, where_clause } => {
            let slots = usage_slots(
                p,
                relation@,
                current_slot as nat,
                related_slot as nat,
                current_kind(p, relation@, current_slot as nat, entity),
                related_kind(p, Some(value), where_clause),
            );
            chain_usages(
                p,
                Seq::empty(),
                relation@,
                current_slot as nat,
                related_slot as nat,
                current_kind(p, relation@, current_slot as nat, entity),
                related_kind(p, Some(value), where_clause),
                rule,
            ) + match where_clause {
                Some(w) => judgment_usages(*w, p, slot_kind(slots, related_slot as nat), rule, None),
                None => Seq::empty(),
            }
        },
        ScalarExpr::If { condition, then_expr, else_expr } => judgment_usages(*condition, p, entity, rule, None) + scalar_usages(
            *then_expr, p, entity, rule) + scalar_usages(*else_expr, p, entity, rule),
        ScalarExpr::NoMatch { subject, .. } => scalar_usages(*subject, p, entity, rule),
        ScalarExpr::OverPeriods { value, n, .. } => scalar_usages(*value, p, entity, rule) + match n {
            Some(n) => scalar_usages(*n, p, entity, rule),
            None => Seq::empty(),
        },
    }
}

pub open spec fn scalar_usagess(items: Seq<ScalarExpr>, n: nat, p: Program, entity: Option<Seq<char>>, rule: Seq<char>) -> Seq<UsageView>
    decreases items, 0int, n,
{
    if n == 0 || n > items.len() {
        Seq::empty()
    } else {
        scalar_usagess(items, (n - 1) as nat, p, entity, rule) + scalar_usages(items[n - 1], p, entity, rule)
    }
}

/// The uses of relations by a judgment of `rule`. `context` has the kinds of the two rows
/// that a predicate of a derived relation is evaluated on.
pub open spec fn judgment_usages(e: JudgmentExpr, p: Program, entity: Option<Seq<char>>, rule: Seq<char>, context: Option<(Option<Seq<char>>, Option<Seq<char>>)>) -> Seq<UsageView>
    decreases e, 1int, 0nat,
{
    match e {
        JudgmentExpr::Comparison { left, right, .. } => scalar_usages(left, p, entity, rule) + scalar_usages(right, p, entity, rule),
        JudgmentExpr::Derived(_) => Seq::empty(),
        JudgmentExpr::RelationMember { relation, current_slot, related_slot } => {
            let (current, related) = match context {
                Some(kinds) => kinds,
                None => (entity, None),
            };
            chain_usages(
                p,
                Seq::empty(),
                relation@,
                current_slot as nat,
                related_slot as nat,
                current,
                related,
                rule,
            )
        },
        JudgmentExpr::And(items) => judgment_usagess(items@, items@.len(), p, entity, rule, context),
        JudgmentExpr::Or(items) => judgment_usagess(items@, items@.len(), p, entity, rule, context),
        JudgmentExpr::Not(item) => judgment_usages(*item, p, entity, rule, context),
    }
}

pub open spec fn judgment_usagess(items: Seq<JudgmentExpr>, n: nat, p: Program, entity: Option<Seq<char>>, rule: Seq<char>, context: Option<(Option<Seq<char>>, Option<Seq<char>>)>) -> Seq<UsageView>
    decreases items, 0int, n,
{
    if n == 0 || n > items.len() {
        Seq::empty()
    } else {
        judgment_usagess(items, (n - 1) as nat, p, entity, rule, context) + judgment_usages(items[n - 1], p, entity, rule, context)
    }
}

fn collect_scalar_relation_usages_two(
    a: &ScalarExpr,
    b: &ScalarExpr,
    program: &Program,
    entity: Option<&str>,
    citing_rule: &str,
    out: &mut Vec<RelationUsage>,
    Ghost(whole): Ghost<ScalarExpr>,
)
    requires
        decreases_to!(whole => *a),
        decreases_to!(whole => *b),
    ensures
        usage_views(final(out)@) == usage_views(old(out)@) + (scalar_usages(*a, *program, kind_of(entity), citing_rule@) + scalar_usages(*b, *program, kind_of(entity), citing_rule@)),
    decreases whole, 0int,
{
    let ghost before = usage_views(out@);
    collect_scalar_relation_usages(a, program, entity, citing_rule, out);
    collect_scalar_relation_usages(b, program, entity, citing_rule, out);
    assert(usage_views(out@) =~= before + (scalar_usages(*a, *program, kind_of(entity), citing_rule@) + scalar_usages(*b, *program, kind_of(entity), citing_rule@)));
}

fn collect_scalar_relation_usages_items(items: &Vec<ScalarExpr>,
    program: &Program,
    entity: Option<&str>,
    citing_rule: &str,
    out: &mut Vec<RelationUsage>,
)
    ensures
        usage_views(final(out)@) == usage_views(old(out)@) + scalar_usagess(items@, items@.len(), *program, kind_of(entity), citing_rule@),
    decreases items@, 0int,
{
    let ghost before = usage_views(out@);
    let mut i: usize = 0;
    assert(usage_views(out@) =~= before + scalar_usagess(items@, 0, *program, kind_of(entity), citing_rule@));
    while i < items.len()
        invariant
            i <= items@.len(),
            usage_views(out@) == before + scalar_usagess(items@, i as nat, *program, kind_of(entity), citing_rule@),
        decreases items@.len() - i,
    {
        collect_scalar_relation_usages(&items[i], program, entity, citing_rule, out);
        assert(usage_views(out@) =~= before + scalar_usagess(items@, (i + 1) as nat, *program, kind_of(entity), citing_rule@));
        i = i + 1;
    }
}

/// Adds the uses of relations by a formula.
fn collect_scalar_relation_usages(expr: &ScalarExpr,
    program: &Program,
    entity: Option<&str>,
    citing_rule: &str,
    out: &mut Vec<RelationUsage>,
)
    ensures
        usage_views(final(out)@) == usage_views(old(out)@) + scalar_usages(*expr, *program, kind_of(entity), citing_rule@),
    decreases *expr, 1int,
{
    let ghost before = usage_views(out@);
    match expr {
        ScalarExpr::Literal(_) | ScalarExpr::PeriodStart | ScalarExpr::PeriodEnd => {
            assert(before + Seq::<UsageView>::empty() =~= before);
        },
        ScalarExpr::Input(_) => {
            assert(before + Seq::<UsageView>::empty() =~= before);
        },
        ScalarExpr::InputOrElse { .. } => {
            assert(before + Seq::<UsageView>::empty() =~= before);
        },
        ScalarExpr::Derived(_) => {
            assert(before + Seq::<UsageView>::empty() =~= before);
        },
        ScalarExpr::ParameterLookup { index, .. } => collect_scalar_relation_usages(index, program, entity, citing_rule, out),
        ScalarExpr::Add(items) => collect_scalar_relation_usages_items(items, program, entity, citing_rule, out),
        ScalarExpr::Max(items) => collect_scalar_relation_usages_items(items, program, entity, citing_rule, out),
        ScalarExpr::Min(items) => collect_scalar_relation_usages_items(items, program, entity, citing_rule, out),
        ScalarExpr::Sub(a, b) => collect_scalar_relation_usages_two(a, b, program, entity, citing_rule, out, Ghost(*expr)),
        ScalarExpr::Mul(a, b) => collect_scalar_relation_usages_two(a, b, program, entity, citing_rule, out, Ghost(*expr)),
        ScalarExpr::Div(a, b) => collect_scalar_relation_usages_two(a, b, program, entity, citing_rule, out, Ghost(*expr)),
        ScalarExpr::Ceil(a) => collect_scalar_relation_usages(a, program, entity, citing_rule, out),
        ScalarExpr::Floor(a) => collect_scalar_relation_usages(a, program, entity, citing_rule, out),
        ScalarExpr::DateAddDays { date, days } => collect_scalar_relation_usages_two(date, days, program, entity, citing_rule, out, Ghost(*expr)),
        ScalarExpr::DateAddMonths { date, months } => collect_scalar_relation_usages_two(date, months, program, entity, citing_rule, out, Ghost(*expr)),
        ScalarExpr::DateAddYears { date, years } => collect_scalar_relation_usages_two(date, years, program, entity, citing_rule, out, Ghost(*expr)),
        ScalarExpr::DaysBetween { from, to } => collect_scalar_relation_usages_two(from, to, program, entity, citing_rule, out, Ghost(*expr)),
        ScalarExpr::CountRelated { relation, current_slot, related_slot, where_clause, .. } => {
            let current = executable_current_kind(program, relation.as_str(), *current_slot, entity);
            let related = related_entity_kind(program, None, where_clause);
            let stack: Vec<String> = Vec::new();
            assert(texts(stack@) =~= Seq::empty());
            let slots = add_relation_usage(
                program,
                relation.as_str(),
                *current_slot,
                *related_slot,
                current,
                related,
                citing_rule,
                out,
                &stack,
            );
            if let Some(w) = where_clause {
                let kind = if *related_slot < slots.len() {
                    opt_str(&slots[*related_slot])
                } else {
                    None
                };
                collect_judgment_relation_usages(w, program, kind, citing_rule, None, out);
            }
            assert(usage_views(out@) =~= before + scalar_usages(*expr, *program, kind_of(entity), citing_rule@));
        },
        ScalarExpr::SumRelated { relation, current_slot, related_slot, value, where_clause } => {
            let current = executable_current_kind(program, relation.as_str(), *current_slot, entity);
            let related = related_entity_kind(program, Some(value), where_clause);
            let stack: Vec<String> = Vec::new();
            assert(texts(stack@) =~= Seq::empty());
            let slots = add_relation_usage(
                program,
                relation.as_str(),
                *current_slot,
                *related_slot,
                current,
                related,
                citing_rule,
                out,
                &stack,
            );
            if let Some(w) = where_clause {
                let kind = if *related_slot < slots.len() {
                    opt_str(&slots[*related_slot])
                } else {
                    None
                };
                collect_judgment_relation_usages(w, program, kind, citing_rule, None, out);
            }
            assert(usage_views(out@) =~= before + scalar_usages(*expr, *program, kind_of(entity), citing_rule@));
        },
        ScalarExpr::If { condition, then_expr, else_expr } => {
            collect_judgment_relation_usages(condition, program, entity, citing_rule, None, out);
            collect_scalar_relation_usages(then_expr, program, entity, citing_rule, out);
            collect_scalar_relation_usages(else_expr, program, entity, citing_rule, out);
            assert(usage_views(out@) =~= before + scalar_usages(*expr, *program, kind_of(entity), citing_rule@));
        },
        ScalarExpr::NoMatch { subject, .. } => collect_scalar_relation_usages(subject, program, entity, citing_rule, out),
        ScalarExpr::OverPeriods { value, n, .. } => {
            collect_scalar_relation_usages(value, program, entity, citing_rule, out);
            if let Some(n) = n {
                collect_scalar_relation_usages(n, program, entity, citing_rule, out);
            }
            assert(usage_views(out@) =~= before + scalar_usages(*expr, *program, kind_of(entity), citing_rule@));
        },
    }
}

fn collect_judgment_relation_usages_items(items: &Vec<JudgmentExpr>,
    program: &Program,
    entity: Option<&str>,
    citing_rule: &str,
    relation_context: Option<(Option<&str>, Option<&str>)>,
    out: &mut Vec<RelationUsage>,
)
    ensures
        usage_views(final(out)@) == usage_views(old(out)@) + judgment_usagess(items@, items@.len(), *program, kind_of(entity), citing_rule@, context_of(relation_context)),
    decreases items@, 0int,
{
    let ghost before = usage_views(out@);
    let mut i: usize = 0;
    assert(usage_views(out@) =~= before + judgment_usagess(items@, 0, *program, kind_of(entity), citing_rule@, context_of(relation_context)));
    while i < items.len()
        invariant
            i <= items@.len(),
            usage_views(out@) == before + judgment_usagess(items@, i as nat, *program, kind_of(entity), citing_rule@, context_of(relation_context)),
        decreases items@.len() - i,
    {
        collect_judgment_relation_usages(&items[i], program, entity, citing_rule, relation_context, out);
        assert(usage_views(out@) =~= before + judgment_usagess(items@, (i + 1) as nat, *program, kind_of(entity), citing_rule@, context_of(relation_context)));
        i = i + 1;
    }
}

/// Adds the uses of relations by a judgment.
fn collect_judgment_relation_usages(expr: &JudgmentExpr,
    program: &Program,
    entity: Option<&str>,
    citing_rule: &str,
    relation_context: Option<(Option<&str>, Option<&str>)>,
    out: &mut Vec<RelationUsage>,
)
    ensures
        usage_views(final(out)@) == usage_views(old(out)@) + judgment_usages(*expr, *program, kind_of(entity), citing_rule@, context_of(relation_context)),
    decreases *expr, 1int,
{
    let ghost before = usage_views(out@);
    match expr {
        JudgmentExpr::Comparison { left, right, .. } => {
            collect_scalar_relation_usages(left, program, entity, citing_rule, out);
            collect_scalar_relation_usages(right, program, entity, citing_rule, out);
            assert(usage_views(out@) =~= before + judgment_usages(*expr, *program, kind_of(entity), citing_rule@, context_of(relation_context)));
        },
        JudgmentExpr::Derived(_) => {
            assert(before + Seq::<UsageView>::empty() =~= before);
        },
        JudgmentExpr::RelationMember { relation, current_slot, related_slot } => {
            let (current, related) = match relation_context {
                Some(kinds) => kinds,
                None => (entity, None),
            };
            let stack: Vec<String> = Vec::new();
            assert(texts(stack@) =~= Seq::empty());
            add_relation_usage(
                program,
                relation.as_str(),
                *current_slot,
                *related_slot,
                owned_kind(current),
                owned_kind(related),
                citing_rule,
                out,
                &stack,
            );
        },
        JudgmentExpr::And(items) => collect_judgment_relation_usages_items(items, program, entity, citing_rule, relation_context, out),
        JudgmentExpr::Or(items) => collect_judgment_relation_usages_items(items, program, entity, citing_rule, relation_context, out),
        JudgmentExpr::Not(item) => collect_judgment_relation_usages(item, program, entity, citing_rule, relation_context, out),
    }
}

pub open spec fn formula_usages(s: DerivedSemantics, p: Program, entity: Seq<char>, rule: Seq<char>) -> Seq<
    UsageView,
> {
    match s {
        DerivedSemantics::Scalar(e) => scalar_usages(e, p, Some(entity), rule),
        DerivedSemantics::Judgment(e) => judgment_usages(e, p, Some(entity), rule, None),
    }
}

fn collect_semantics_relation_usages(
    semantics: &DerivedSemantics,
    program: &Program,
    entity: &str,
    citing_rule: &str,
    usages: &mut Vec<RelationUsage>,
)
    ensures
        usage_views(final(usages)@) == usage_views(old(usages)@) + formula_usages(
            *semantics,
            *program,
            entity@,
            citing_rule@,
        ),
{
    match semantics {
        DerivedSemantics::Scalar(e) => collect_scalar_relation_usages(
            e,
            program,
            Some(entity),
            citing_rule,
            usages,
        ),
        DerivedSemantics::Judgment(e) => collect_judgment_relation_usages(
            e,
            program,
            Some(entity),
            citing_rule,
            None,
            usages,
        ),
    }
}

/// The uses of relations by the first `n` versions of a rule.
pub open spec fn version_usages(
    versions: Seq<DerivedVersion>,
    n: nat,
    p: Program,
    entity: Seq<char>,
    rule: Seq<char>,
) -> Seq<UsageView>
    decreases n,
{
    if n == 0 || n > versions.len() {
        Seq::empty()
    } else {
        version_usages(versions, (n - 1) as nat, p, entity, rule) + formula_usages(
            versions[n - 1].semantics,
            p,
            entity,
            rule,
        )
    }
}

/// The uses of relations by a rule: by its versions where it has some.
pub open spec fn rule_usages(d: Derived, p: Program) -> Seq<UsageView> {
    if d.versions@.len() == 0 {
        formula_usages(d.semantics, p, d.entity@, d.label())
    } else {
        version_usages(d.versions@, d.versions@.len(), p, d.entity@, d.label())
    }
}

/// The uses of relations by a derived relation: of its source, and by its predicate.
pub open spec fn derivation_usages(name: Seq<char>, d: RelationDerivation, p: Program) -> Seq<
    UsageView,
> {
    let current = slot_kind(declared_kinds(d.slot_entities@), d.current_slot as nat);
    let related = slot_kind(declared_kinds(d.slot_entities@), d.related_slot as nat);
    chain_usages(
        p,
        Seq::empty(),
        d.source_relation@,
        d.current_slot as nat,
        d.related_slot as nat,
        current,
        related,
        name,
    ) + judgment_usages(d.predicate, p, related, name, Some((current, related)))
}

pub open spec fn declared_kinds(kinds: Seq<String>) -> Seq<Option<Seq<char>>> {
    kinds.map_values(|k: String| Some(k@))
}

pub open spec fn rules_usages(rules: Seq<Derived>, n: nat, p: Program) -> Seq<UsageView>
    decreases n,
{
    if n == 0 || n > rules.len() {
        Seq::empty()
    } else {
        rules_usages(rules, (n - 1) as nat, p) + rule_usages(rules[n - 1], p)
    }
}

pub open spec fn relations_usages(relations: Seq<RelationSchema>, n: nat, p: Program) -> Seq<
    UsageView,
>
    decreases n,
{
    if n == 0 || n > relations.len() {
        Seq::empty()
    } else {
        relations_usages(relations, (n - 1) as nat, p) + match relations[n - 1].derivation {
            Some(d) => derivation_usages(relations[n - 1].name@, d, p),
            None => Seq::empty(),
        }
    }
}

/// Every use of a relation that a program executes.
pub open spec fn program_usages(p: Program) -> Seq<UsageView> {
    rules_usages(p.derived@, p.derived@.len(), p) + relations_usages(
        p.relations@,
        p.relations@.len(),
        p,
    )
}

/// Order of slot kinds: by the first that differs, unknown before known.
pub open spec fn kinds_lt(a: Seq<Option<Seq<char>>>, b: Seq<Option<Seq<char>>>) -> bool
    decreases a.len(),
{
    if b.len() == 0 {
        false
    } else if a.len() == 0 {
        true
    } else if a[0] != b[0] {
        match (a[0], b[0]) {
            (None, _) => true,
            (_, None) => false,
            (Some(x), Some(y)) => text_lt(x, y),
        }
    } else {
        kinds_lt(a.drop_first(), b.drop_first())
    }
}

/// Order of uses: by relation, then rule, then slot kinds.
pub open spec fn usage_lt(a: UsageView, b: UsageView) -> bool {
    if a.relation != b.relation {
        text_lt(a.relation, b.relation)
    } else if a.rule != b.rule {
        text_lt(a.rule, b.rule)
    } else {
        kinds_lt(a.slots, b.slots)
    }
}

fn same_kind(a: &Option<String>, b: &Option<String>) -> (r: bool)
    ensures
        r == (opt_text(*a) == opt_text(*b)),
{
    match (a, b) {
        (None, None) => true,
        (Some(x), Some(y)) => same(x.as_str(), y.as_str()),
        _ => false,
    }
}

fn kinds_precede(a: &Vec<Option<String>>, b: &Vec<Option<String>>) -> (r: bool)
    ensures
        r == kinds_lt(kinds_view(a@), kinds_view(b@)),
{
    let ghost (x, y) = (kinds_view(a@), kinds_view(b@));
    let mut i: usize = 0;
    assert(x.skip(0) =~= x);
    assert(y.skip(0) =~= y);
    while i < a.len() && i < b.len()
        invariant
            i <= a@.len(),
            i <= b@.len(),
            x == kinds_view(a@),
            y == kinds_view(b@),
            kinds_lt(x, y) == kinds_lt(x.skip(i as int), y.skip(i as int)),
        decreases a@.len() - i,
    {
        assert(x.skip(i as int)[0] == opt_text(a@[i as int]));
        assert(y.skip(i as int)[0] == opt_text(b@[i as int]));
        if !same_kind(&a[i], &b[i]) {
            return match (&a[i], &b[i]) {
                (None, _) => true,
                (_, None) => false,
                (Some(p), Some(q)) => precedes(p.as_str(), q.as_str()),
            };
        }
        assert(x.skip(i as int).drop_first() =~= x.skip(i + 1));
        assert(y.skip(i as int).drop_first() =~= y.skip(i + 1));
        i = i + 1;
    }
    i < b.len()
}

fn same_kinds(a: &Vec<Option<String>>, b: &Vec<Option<String>>) -> (r: bool)
    ensures
        r == (kinds_view(a@) == kinds_view(b@)),
{
    if a.len() != b.len() {
        assert(kinds_view(a@).len() != kinds_view(b@).len());
        return false;
    }
    let mut i: usize = 0;
    while i < a.len()
        invariant
            i <= a@.len(),
            a@.len() == b@.len(),
            forall|j: int| 0 <= j < i ==> opt_text(#[trigger] a@[j]) == opt_text(b@[j]),
        decreases a@.len() - i,
    {
        if !same_kind(&a[i], &b[i]) {
            assert(kinds_view(a@)[i as int] != kinds_view(b@)[i as int]);
            return false;
        }
        i = i + 1;
    }
    assert(kinds_view(a@) =~= kinds_view(b@));
    true
}

fn same_usage(a: &RelationUsage, b: &RelationUsage) -> (r: bool)
    ensures
        r == (a@ == b@),
{
    same(a.relation.as_str(), b.relation.as_str()) && same(
        a.citing_rule.as_str(),
        b.citing_rule.as_str(),
    ) && same_kinds(&a.slot_entities, &b.slot_entities)
}

fn usage_precedes(a: &RelationUsage, b: &RelationUsage) -> (r: bool)
    ensures
        r == usage_lt(a@, b@),
{
    if !same(a.relation.as_str(), b.relation.as_str()) {
        precedes(a.relation.as_str(), b.relation.as_str())
    } else if !same(a.citing_rule.as_str(), b.citing_rule.as_str()) {
        precedes(a.citing_rule.as_str(), b.citing_rule.as_str())
    } else {
        kinds_precede(&a.slot_entities, &b.slot_entities)
    }
}

/// A use put at its place in an ascending list of distinct uses.
pub open spec fn insert_usage(s: Seq<UsageView>, x: UsageView) -> Seq<UsageView>
    decreases s.len(),
{
    if s.len() == 0 {
        seq![x]
    } else if s[0] == x {
        s
    } else if usage_lt(x, s[0]) {
        seq![x] + s
    } else {
        seq![s[0]] + insert_usage(s.drop_first(), x)
    }
}

/// Uses in ascending order, each once.
pub open spec fn sorted_usages(s: Seq<UsageView>) -> Seq<UsageView>
    decreases s.len(),
{
    if s.len() == 0 {
        s
    } else {
        insert_usage(sorted_usages(s.drop_last()), s.last())
    }
}

fn insert_sorted_usage(v: &mut Vec<RelationUsage>, x: RelationUsage)
    ensures
        usage_views(final(v)@) == insert_usage(usage_views(old(v)@), x@),
{
    let mut i: usize = 0;
    proof {
        assert(usage_views(v@).skip(0) =~= usage_views(v@));
        assert(usage_views(v@).take(0) + insert_usage(usage_views(v@).skip(0), x@)
            =~= insert_usage(usage_views(v@), x@));
    }
    while i < v.len()
        invariant
            i <= v@.len(),
            v@ == old(v)@,
            insert_usage(usage_views(v@), x@) == usage_views(v@).take(i as int) + insert_usage(
                usage_views(v@).skip(i as int),
                x@,
            ),
        decreases v@.len() - i,
    {
        let ghost rest = usage_views(v@).skip(i as int);
        assert(rest[0] == v@[i as int]@);
        if same_usage(&v[i], &x) {
            assert(usage_views(v@).take(i as int) + rest =~= usage_views(v@));
            return ;
        }
        if usage_precedes(&x, &v[i]) {
            let ghost before = v@;
            v.insert(i, x);
            assert(usage_views(v@) =~= usage_views(before).take(i as int) + (seq![x@] + rest));
            return ;
        }
        proof {
            assert(rest.drop_first() =~= usage_views(v@).skip(i + 1));
            assert(usage_views(v@).take(i as int) + (seq![rest[0]] + insert_usage(
                rest.drop_first(),
                x@,
            )) =~= usage_views(v@).take(i + 1) + insert_usage(usage_views(v@).skip(i + 1), x@));
        }
        i = i + 1;
    }
    let ghost before = v@;
    v.push(x);
    assert(usage_views(v@) =~= usage_views(before).take(i as int) + seq![x@]);
}

fn slot_str(kinds: &Vec<String>, slot: usize) -> (r: Option<&str>)
    ensures
        kind_of(r) == slot_kind(declared_kinds(kinds@), slot as nat),
{
    if slot < kinds.len() {
        Some(kinds[slot].as_str())
    } else {
        None
    }
}

fn collect_rule_usages(derived: &Derived, program: &Program, usages: &mut Vec<RelationUsage>)
    ensures
        usage_views(final(usages)@) == usage_views(old(usages)@) + rule_usages(*derived, *program),
{
    let ghost before = usage_views(usages@);
    let rule = match &derived.id {
        Some(id) => id.as_str(),
        None => derived.name.as_str(),
    };
    let entity = derived.entity.as_str();
    if derived.versions.len() == 0 {
        collect_semantics_relation_usages(&derived.semantics, program, entity, rule, usages);
        return ;
    }
    let mut i: usize = 0;
    assert(usage_views(usages@) =~= before + version_usages(
        derived.versions@,
        0,
        *program,
        entity@,
        rule@,
    ));
    while i < derived.versions.len()
        invariant
            i <= derived.versions@.len(),
            usage_views(usages@) == before + version_usages(
                derived.versions@,
                i as nat,
                *program,
                entity@,
                rule@,
            ),
        decreases derived.versions@.len() - i,
    {
        collect_semantics_relation_usages(
            &derived.versions[i].semantics,
            program,
            entity,
            rule,
            usages,
        );
        assert(usage_views(usages@) =~= before + version_usages(
            derived.versions@,
            (i + 1) as nat,
            *program,
            entity@,
            rule@,
        ));
        i = i + 1;
    }
}

fn collect_derivation_usages(
    relation: &RelationSchema,
    program: &Program,
    usages: &mut Vec<RelationUsage>,
)
    ensures
        usage_views(final(usages)@) == usage_views(old(usages)@) + match relation.derivation {
            Some(d) => derivation_usages(relation.name@, d, *program),
            None => Seq::empty(),
        },
{
    let ghost before = usage_views(usages@);
    let d = match &relation.derivation {
        Some(d) => d,
        None => {
            assert(before + Seq::<UsageView>::empty() =~= before);
            return ;
        },
    };
    let current = slot_str(&d.slot_entities, d.current_slot);
    let related = slot_str(&d.slot_entities, d.related_slot);
    let stack: Vec<String> = Vec::new();
    assert(texts(stack@) =~= Seq::empty());
    add_relation_usage(
        program,
        d.source_relation.as_str(),
        d.current_slot,
        d.related_slot,
        owned_kind(current),
        owned_kind(related),
        relation.name.as_str(),
        usages,
        &stack,
    );
    collect_judgment_relation_usages(
        &d.predicate,
        program,
        related,
        relation.name.as_str(),
        Some((current, related)),
        usages,
    );
    assert(usage_views(usages@) =~= before + derivation_usages(relation.name@, *d, *program));
}

/// Every use of a relation that a program executes, in ascending order, each once.
pub fn relation_usage_records(program: &Program) -> (r: Vec<RelationUsage>)
    ensures
        usage_views(r@) == sorted_usages(program_usages(*program)),
{
    let mut usages: Vec<RelationUsage> = Vec::new();
    let mut i: usize = 0;
    assert(usage_views(usages@) =~= rules_usages(program.derived@, 0, *program));
    while i < program.derived.len()
        invariant
            i <= program.derived@.len(),
            usage_views(usages@) == rules_usages(program.derived@, i as nat, *program),
        decreases program.derived@.len() - i,
    {
        collect_rule_usages(&program.derived[i], program, &mut usages);
        i = i + 1;
    }
    let ghost rules = usage_views(usages@);
    let mut i: usize = 0;
    assert(usage_views(usages@) =~= rules + relations_usages(program.relations@, 0, *program));
    while i < program.relations.len()
        invariant
            i <= program.relations@.len(),
            usage_views(usages@) == rules + relations_usages(
                program.relations@,
                i as nat,
                *program,
            ),
        decreases program.relations@.len() - i,
    {
        collect_derivation_usages(&program.relations[i], program, &mut usages);
        assert(usage_views(usages@) =~= rules + relations_usages(
            program.relations@,
            (i + 1) as nat,
            *program,
        ));
        i = i + 1;
    }
    let ghost all = usage_views(usages@);
    let mut sorted: Vec<RelationUsage> = Vec::new();
    let mut i: usize = 0;
    assert(all.take(0) =~= Seq::empty());
    assert(usage_views(sorted@) =~= sorted_usages(all.take(0)));
    while i < usages.len()
        invariant
            i <= usages@.len(),
            all == usage_views(usages@),
            usage_views(sorted@) == sorted_usages(all.take(i as int)),
        decreases usages@.len() - i,
    {
        let usage = &usages[i];
        proof {
            let longer = all.take(i + 1);
            assert(longer.drop_last() =~= all.take(i as int));
            assert(longer.last() == usage@);
        }
        let copy = RelationUsage {
            relation: usage.relation.clone(),
            slot_entities: copied_kinds(&usage.slot_entities),
            citing_rule: usage.citing_rule.clone(),
        };
        insert_sorted_usage(&mut sorted, copy);
        i = i + 1;
    }
    assert(all.take(all.len() as int) =~= all);
    sorted
}

/// The kinds of the rows on each slot of a used relation. A slot is unknown where no use
/// gives it a kind, or different uses give it different ones.
#[derive(Debug)]
pub struct RelationUsageOrientation {
    pub relation: String,
    pub slot_entities: Vec<Option<String>>,
}

/// The number of slots that the first `n` uses of a relation have.
pub open spec fn usage_width(usages: Seq<UsageView>, relation: Seq<char>, n: nat) -> nat
    decreases n,
{
    if n == 0 || n > usages.len() {
        0
    } else {
        let before = usage_width(usages, relation, (n - 1) as nat);
        let usage = usages[n - 1];
        if usage.relation == relation && usage.slots.len() > before {
            usage.slots.len()
        } else {
            before
        }
    }
}

/// The kinds that the first `n` uses of a relation give a slot.
pub open spec fn kinds_at(usages: Seq<UsageView>, relation: Seq<char>, slot: int, n: nat) -> Seq<
    Seq<char>,
>
    decreases n,
{
    if n == 0 || n > usages.len() {
        Seq::empty()
    } else {
        let before = kinds_at(usages, relation, slot, (n - 1) as nat);
        let usage = usages[n - 1];
        if usage.relation == relation && slot < usage.slots.len() {
            match usage.slots[slot] {
                Some(kind) => before.push(kind),
                None => before,
            }
        } else {
            before
        }
    }
}

/// The one kind that the uses of a relation give a slot.
pub open spec fn agreed_kind(usages: Seq<UsageView>, relation: Seq<char>, slot: int) -> Option<
    Seq<char>,
> {
    sole(kinds_at(usages, relation, slot, usages.len()))
}

/// Whether orientations are those of uses, one per used relation, ascending.
pub open spec fn orientations_of(list: Seq<RelationUsageOrientation>, usages: Seq<UsageView>) -> bool {
    let names = sorted_texts(usages.map_values(|u: UsageView| u.relation));
    &&& list.len() == names.len()
    &&& forall|i: int| #![trigger list[i]]
        0 <= i < list.len() ==> {
            &&& list[i].relation@ == names[i]
            &&& list[i].slot_entities@.len() == usage_width(usages, names[i], usages.len())
            &&& forall|slot: int|
                0 <= slot < list[i].slot_entities@.len() ==> opt_text(
                    #[trigger] list[i].slot_entities@[slot],
                ) == agreed_kind(usages, names[i], slot)
        }
}

fn width_of(usages: &Vec<RelationUsage>, relation: &str) -> (r: usize)
    ensures
        r == usage_width(usage_views(usages@), relation@, usages@.len()),
{
    let mut width: usize = 0;
    let mut i: usize = 0;
    while i < usages.len()
        invariant
            i <= usages@.len(),
            width == usage_width(usage_views(usages@), relation@, i as nat),
        decreases usages@.len() - i,
    {
        let usage = &usages[i];
        assert(usage_views(usages@)[i as int] == usage@);
        if same(usage.relation.as_str(), relation) && usage.slot_entities.len() > width {
            width = usage.slot_entities.len();
        }
        i = i + 1;
    }
    width
}

fn kind_at(usages: &Vec<RelationUsage>, relation: &str, slot: usize) -> (r: Option<String>)
    ensures
        opt_text(r) == agreed_kind(usage_views(usages@), relation@, slot as int),
{
    let mut kinds: Vec<String> = Vec::new();
    let mut i: usize = 0;
    assert(texts(kinds@) =~= Seq::empty());
    while i < usages.len()
        invariant
            i <= usages@.len(),
            texts(kinds@) == kinds_at(usage_views(usages@), relation@, slot as int, i as nat),
        decreases usages@.len() - i,
    {
        let usage = &usages[i];
        assert(usage_views(usages@)[i as int] == usage@);
        if same(usage.relation.as_str(), relation) && slot < usage.slot_entities.len() {
            assert(usage@.slots[slot as int] == opt_text(usage.slot_entities@[slot as int]));
            if let Some(kind) = &usage.slot_entities[slot] {
                let ghost before = kinds@;
                kinds.push(kind.clone());
                assert(texts(kinds@) =~= texts(before).push(kind@));
            }
        }
        i = i + 1;
    }
    sole_text(&kinds)
}

/// The kinds of the rows on each slot of the relations that a program uses.
pub fn relation_usage_orientations(program: &Program) -> (r: Vec<RelationUsageOrientation>)
    ensures
        orientations_of(r@, sorted_usages(program_usages(*program))),
{
    let usages = relation_usage_records(program);
    let ghost views = usage_views(usages@);
    let ghost relations = views.map_values(|u: UsageView| u.relation);
    let mut names: Vec<String> = Vec::new();
    let mut i: usize = 0;
    assert(relations.take(0) =~= Seq::empty());
    assert(texts(names@) =~= sorted_texts(relations.take(0)));
    while i < usages.len()
        invariant
            i <= usages@.len(),
            views == usage_views(usages@),
            relations == views.map_values(|u: UsageView| u.relation),
            texts(names@) == sorted_texts(relations.take(i as int)),
        decreases usages@.len() - i,
    {
        proof {
            let longer = relations.take(i + 1);
            assert(longer.drop_last() =~= relations.take(i as int));
            assert(longer.last() == usages@[i as int].relation@);
        }
        insert_sorted(&mut names, usages[i].relation.clone());
        i = i + 1;
    }
    assert(relations.take(relations.len() as int) =~= relations);
    let mut list: Vec<RelationUsageOrientation> = Vec::new();
    let mut i: usize = 0;
    while i < names.len()
        invariant
            i <= names@.len(),
            views == usage_views(usages@),
            list@.len() == i,
            forall|j: int| #![trigger list@[j]]
                0 <= j < i ==> {
                    &&& list@[j].relation@ == names@[j]@
                    &&& list@[j].slot_entities@.len() == usage_width(
                        views,
                        names@[j]@,
                        views.len(),
                    )
                    &&& forall|slot: int|
                        0 <= slot < list@[j].slot_entities@.len() ==> opt_text(
                            #[trigger] list@[j].slot_entities@[slot],
                        ) == agreed_kind(views, names@[j]@, slot)
                },
        decreases names@.len() - i,
    {
        let name = names[i].as_str();
        let width = width_of(&usages, name);
        let mut slots: Vec<Option<String>> = Vec::new();
        let mut slot: usize = 0;
        while slot < width
            invariant
                slot <= width,
                views == usage_views(usages@),
                slots@.len() == slot,
                forall|k: int|
                    0 <= k < slot ==> opt_text(#[trigger] slots@[k]) == agreed_kind(views, name@, k),
            decreases width - slot,
        {
            slots.push(kind_at(&usages, name, slot));
            slot = slot + 1;
        }
        list.push(RelationUsageOrientation { relation: owned(name), slot_entities: slots });
        i = i + 1;
    }
    proof {
        let sorted = sorted_texts(relations);
        assert forall|j: int| #![trigger list@[j]] 0 <= j < list@.len() implies {
            &&& list@[j].relation@ == sorted[j]
            &&& list@[j].slot_entities@.len() == usage_width(views, sorted[j], views.len())
            &&& forall|slot: int|
                0 <= slot < list@[j].slot_entities@.len() ==> opt_text(
                    #[trigger] list@[j].slot_entities@[slot],
                ) == agreed_kind(views, sorted[j], slot)
        } by {
            assert(texts(names@)[j] == names@[j]@);
        }
    }
    list
}

} // verus!
