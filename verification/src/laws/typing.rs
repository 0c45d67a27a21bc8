//! Laws of the entity kinds of relations: where they come from, and what is reported of a program
//! that reads relations against them.
use crate::laws::parts::{few, gathered, many, row_parts, row_rules, Part};
use crate::model::{
    item_named, position_from_meaning, position_of, Derived, DerivedSemantics, JudgmentExpr,
    Program, RelatedValueRef, RelationDerivation, RelationSchema, ScalarExpr, SCALAR_ENTITY,
};
use crate::relation_typing::{
    aggregation_violations, current_mismatch, derivation_of, derivation_used,
    derivation_violations, diverging, effective_kinds, effective_within, filtered_entities,
    filtered_kinds, formula_used, formula_violations, is_executed, is_path, judgment_violations,
    judgment_violationss, kind_at, kinds_by_entity, member_mismatch, membership_violations,
    related_mismatch, related_mismatches, related_refs, rule_used, rule_violations, rules_used,
    rules_violations, scalar_violations, scalar_violationss, source_conflict, typed_kinds,
    typing_violation, versions_used, versions_violations, RelationTypingCode, ViolationView,
};
use crate::text::{opt_text, sorted_texts, sorted_texts_meaning, texts};
use crate::usages::sole;
use vstd::prelude::*;

verus! {

/// The kinds that a relation declares itself: those of its derivation, or its own.
pub open spec fn declared_kinds(schema: RelationSchema) -> Seq<Seq<char>> {
    match schema.derivation {
        Some(d) if d.slot_entities@.len() > 0 => texts(d.slot_entities@),
        _ => texts(schema.slot_entities@),
    }
}

proof fn within_more(p: Program, n: nat, m: nat, relation: Seq<char>)
    requires
        n <= m,
        effective_within(p, n, relation) is Some,
    ensures
        effective_within(p, m, relation) == effective_within(p, n, relation),
    decreases n,
{
    if n > 0 {
        match item_named(p.relations@, relation) {
            Some(schema) => match schema.derivation {
                Some(d) => if declared_kinds(schema).len() == 0 {
                    within_more(p, (n - 1) as nat, (m - 1) as nat, d.source_relation@);
                },
                None => {},
            },
            None => {},
        }
    }
}

/// A relation that declares kinds has them, and one that the program lacks has none. A data relation
/// that declares none has none. A derived relation that declares none has those of its source: it
/// has no others, and it has them where the source declares them.
pub proof fn kinds_are_declared_or_those_of_the_source(p: Program, relation: Seq<char>)
    ensures
        match item_named(p.relations@, relation) {
            None => effective_kinds(p, relation) is None,
            Some(schema) => if declared_kinds(schema).len() > 0 {
                effective_kinds(p, relation) == Some(declared_kinds(schema))
            } else {
                match schema.derivation {
                    None => effective_kinds(p, relation) is None,
                    Some(d) => {
                        &&& effective_kinds(p, relation) is Some ==> effective_kinds(p, relation)
                            == effective_kinds(p, d.source_relation@)
                        &&& match item_named(p.relations@, d.source_relation@) {
                            None => effective_kinds(p, relation) is None,
                            Some(source) => declared_kinds(source).len() > 0 ==> effective_kinds(
                                p,
                                relation,
                            ) == Some(declared_kinds(source)),
                        }
                    },
                }
            },
        },
{
    let n = p.relations@.len();
    position_from_meaning(p.relations@, relation, 0);
    match item_named(p.relations@, relation) {
        None => {},
        Some(schema) => {
            assert(n > 0);
            match schema.derivation {
                None => {},
                Some(d) => if declared_kinds(schema).len() == 0 {
                    let source = d.source_relation@;
                    position_from_meaning(p.relations@, source, 0);
                    assert(effective_kinds(p, relation) == effective_within(
                        p,
                        (n - 1) as nat,
                        source,
                    ));
                    if effective_kinds(p, relation) is Some {
                        within_more(p, (n - 1) as nat, n, source);
                    }
                    match item_named(p.relations@, source) {
                        None => {},
                        Some(other) => if declared_kinds(other).len() > 0 {
                            assert(position_of(p.relations@, source) != position_of(
                                p.relations@,
                                relation,
                            ));
                            assert(n > 1);
                        },
                    }
                },
            }
        },
    }
}

/// Whether a report holds a violation with the code.
pub open spec fn reports(list: Seq<ViolationView>, code: RelationTypingCode) -> bool {
    exists|i: int| 0 <= i < list.len() && (#[trigger] list[i]).code == code
}

proof fn either(a: Seq<ViolationView>, b: Seq<ViolationView>, code: RelationTypingCode)
    ensures
        reports(a + b, code) <==> reports(a, code) || reports(b, code),
{
    let all = a + b;
    if reports(a, code) {
        let i = choose|i: int| 0 <= i < a.len() && (#[trigger] a[i]).code == code;
        assert(all[i].code == code);
    }
    if reports(b, code) {
        let i = choose|i: int| 0 <= i < b.len() && (#[trigger] b[i]).code == code;
        assert(all[a.len() + i].code == code);
    }
    if reports(all, code) {
        let i = choose|i: int| 0 <= i < all.len() && (#[trigger] all[i]).code == code;
        if i < a.len() {
            assert(a[i].code == code);
        } else {
            assert(b[i - a.len()].code == code);
        }
    }
}

proof fn at_most_one(list: Seq<ViolationView>, code: RelationTypingCode)
    requires
        list.len() <= 1,
    ensures
        reports(list, code) <==> list.len() == 1 && list[0].code == code,
{
}

/// Whether a rule may be evaluated on rows of the kind: it is of that kind, or of no entity.
pub open spec fn rule_fits(p: Program, name: Seq<char>, kind: Seq<char>) -> bool {
    item_named(p.derived@, name) matches Some(d) ==> d.entity@ == kind || d.entity@ == SCALAR_ENTITY@
}

proof fn mismatches_report(
    p: Program,
    relation: Seq<char>,
    kinds: Seq<Seq<char>>,
    related: usize,
    names: Seq<Seq<char>>,
    n: nat,
    citing: Seq<char>,
    code: RelationTypingCode,
)
    requires
        n <= names.len(),
    ensures
        reports(related_mismatches(p, relation, kinds, related, names, n, citing), code) <==> code
            == RelationTypingCode::RelatedSlotEntityMismatch && exists|i: int|
            0 <= i < n && !rule_fits(p, #[trigger] names[i], kinds[related as int]),
    decreases n,
{
    if n > 0 {
        let m = (n - 1) as nat;
        mismatches_report(p, relation, kinds, related, names, m, citing, code);
        let one = related_mismatch(p, relation, kinds, related, names[n - 1], citing);
        either(related_mismatches(p, relation, kinds, related, names, m, citing), one, code);
        at_most_one(one, code);
    }
}

/// Whether some rule that an aggregation evaluates on related rows, as its value or in its test,
/// does not fit the kind.
pub open spec fn misfits(
    p: Program,
    value: Option<RelatedValueRef>,
    test: Option<Box<JudgmentExpr>>,
    kind: Seq<char>,
) -> bool {
    ||| value matches Some(RelatedValueRef::Derived(name)) && !rule_fits(p, name@, kind)
    ||| test matches Some(w) && exists|i: int|
        0 <= i < row_rules(Part::Judgment(*w)).len() && !rule_fits(
            p,
            #[trigger] row_rules(Part::Judgment(*w))[i],
            kind,
        )
}

proof fn misfits_are_refs(
    p: Program,
    value: Option<RelatedValueRef>,
    test: Option<Box<JudgmentExpr>>,
    kind: Seq<char>,
)
    ensures
        misfits(p, value, test, kind) <==> exists|i: int|
            0 <= i < related_refs(value, test).len() && !rule_fits(
                p,
                #[trigger] related_refs(value, test)[i],
                kind,
            ),
{
    let refs = related_refs(value, test);
    let own: Seq<Seq<char>> = match value {
        Some(RelatedValueRef::Derived(name)) => seq![name@],
        _ => Seq::empty(),
    };
    let tested: Seq<Seq<char>> = match test {
        Some(w) => row_rules(Part::Judgment(*w)),
        None => Seq::empty(),
    };
    assert(refs =~= own + tested);
    if own.len() == 1 && !rule_fits(p, own[0], kind) {
        assert(!rule_fits(p, refs[0], kind));
    }
    if exists|i: int| 0 <= i < tested.len() && !rule_fits(p, #[trigger] tested[i], kind) {
        let i = choose|i: int| 0 <= i < tested.len() && !rule_fits(p, #[trigger] tested[i], kind);
        assert(!rule_fits(p, refs[own.len() + i], kind));
    }
    if exists|i: int| 0 <= i < refs.len() && !rule_fits(p, #[trigger] refs[i], kind) {
        let i = choose|i: int| 0 <= i < refs.len() && !rule_fits(p, #[trigger] refs[i], kind);
        if i < own.len() {
            assert(refs[i] == own[i]);
        } else {
            assert(refs[i] == tested[i - own.len()]);
        }
    }
}

/// Whether two slots are among those of a relation.
pub open spec fn in_range(schema: RelationSchema, current: usize, related: usize) -> bool {
    current < schema.arity && related < schema.arity
}

/// Of an aggregation over a relation of the program is reported: that the relation has no kinds;
/// that it has not one for each slot; that the slots are not those of its derivation; that they are
/// none of the relation's; that the slot of its row is neither of the row's entity nor one that is
/// filtered for it; and that a rule which it evaluates on related rows is of another kind. Each is
/// reported exactly where it is so. Of a relation that the program lacks nothing is reported.
pub proof fn an_aggregation_is_reported_where_it_reads_against_the_kinds(
    p: Program,
    relation: Seq<char>,
    current_slot: usize,
    related_slot: usize,
    value: Option<RelatedValueRef>,
    test: Option<Box<JudgmentExpr>>,
    entity: Option<Seq<char>>,
    citing: Seq<char>,
    code: RelationTypingCode,
)
    ensures
        ({
            let list = aggregation_violations(
                p,
                relation,
                current_slot,
                related_slot,
                value,
                test,
                entity,
                citing,
            );
            match item_named(p.relations@, relation) {
                None => list.len() == 0,
                Some(schema) => {
                    let kinds = effective_kinds(p, relation);
                    let (current, related) = match schema.derivation {
                        Some(d) => (d.current_slot, d.related_slot),
                        None => (current_slot, related_slot),
                    };
                    let typed = kinds matches Some(k) && k.len() == schema.arity;
                    let readable = typed && in_range(schema, current, related);
                    reports(list, code) <==> match code {
                        RelationTypingCode::UntypedRelation => kinds is None,
                        RelationTypingCode::SlotEntityCount => kinds matches Some(k) && k.len()
                            != schema.arity,
                        RelationTypingCode::DerivedRelationSlotsDiverge => current_slot != current
                            || related_slot != related,
                        RelationTypingCode::SlotOutOfRange => typed && !readable,
                        RelationTypingCode::CurrentSlotEntityMismatch => readable && (
                        entity matches Some(e) && kinds->0[current as int] != e && !(
                        schema.derivation matches Some(d) && opt_text(d.entity) == Some(e))),
                        RelationTypingCode::RelatedSlotEntityMismatch => readable && misfits(
                            p,
                            value,
                            test,
                            kinds->0[related as int],
                        ),
                        _ => false,
                    }
                },
            }
        }),
{
    if let Some(schema) = item_named(p.relations@, relation) {
        let (current, related) = match schema.derivation {
            Some(d) => (d.current_slot, d.related_slot),
            None => (current_slot, related_slot),
        };
        let a = typing_violation(p, relation, citing);
        let b = diverging(p, relation, current_slot, related_slot, citing);
        at_most_one(a, code);
        at_most_one(b, code);
        either(a, b, code);
        if let Some(kinds) = typed_kinds(p, relation) {
            if in_range(schema, current, related) {
                let refs = related_refs(value, test);
                let c = current_mismatch(p, relation, kinds, current, entity, citing);
                let d = related_mismatches(p, relation, kinds, related, refs, refs.len(), citing);
                at_most_one(c, code);
                mismatches_report(p, relation, kinds, related, refs, refs.len(), citing, code);
                misfits_are_refs(p, value, test, kinds[related as int]);
                either(c, d, code);
                either(a + b, c + d, code);
            } else {
                let list = aggregation_violations(
                    p,
                    relation,
                    current_slot,
                    related_slot,
                    value,
                    test,
                    entity,
                    citing,
                );
                let c = list.skip((a + b).len() as int);
                at_most_one(c, code);
                either(a + b, c, code);
                assert(list =~= a + b + c);
            }
        } else {
            assert(aggregation_violations(
                p,
                relation,
                current_slot,
                related_slot,
                value,
                test,
                entity,
                citing,
            ) =~= a + b);
        }
    } else {
        assert(aggregation_violations(
            p,
            relation,
            current_slot,
            related_slot,
            value,
            test,
            entity,
            citing,
        ) =~= Seq::empty());
    }
}

/// Of a membership test is reported: that the relation has no kinds, or not one for each slot; that
/// the slots are none of the relation's; and, where the kinds of the two rows are known, that a slot
/// is of another kind than its row. Each is reported exactly where it is so.
pub proof fn a_membership_test_is_reported_where_it_reads_against_the_kinds(
    p: Program,
    relation: Seq<char>,
    current_slot: usize,
    related_slot: usize,
    rows: Option<(Option<Seq<char>>, Option<Seq<char>>)>,
    citing: Seq<char>,
    code: RelationTypingCode,
)
    ensures
        ({
            let list = membership_violations(p, relation, current_slot, related_slot, rows, citing);
            match item_named(p.relations@, relation) {
                None => list.len() == 0,
                Some(schema) => {
                    let kinds = effective_kinds(p, relation);
                    let typed = kinds matches Some(k) && k.len() == schema.arity;
                    let readable = typed && in_range(schema, current_slot, related_slot);
                    reports(list, code) <==> match code {
                        RelationTypingCode::UntypedRelation => kinds is None,
                        RelationTypingCode::SlotEntityCount => kinds matches Some(k) && k.len()
                            != schema.arity,
                        RelationTypingCode::SlotOutOfRange => typed && !readable,
                        RelationTypingCode::MembershipSlotEntityMismatch => readable && (
                        rows matches Some((a, b)) && ((a matches Some(e) && kinds->0[
                            current_slot as int
                        ] != e) || (b matches Some(e) && kinds->0[related_slot as int] != e))),
                        _ => false,
                    }
                },
            }
        }),
{
    let list = membership_violations(p, relation, current_slot, related_slot, rows, citing);
    if let Some(schema) = item_named(p.relations@, relation) {
        let a = typing_violation(p, relation, citing);
        at_most_one(a, code);
        let rest = list.skip(a.len() as int);
        assert(list =~= a + rest);
        either(a, rest, code);
        if let Some(kinds) = typed_kinds(p, relation) {
            if in_range(schema, current_slot, related_slot) {
                if let Some((current, related)) = rows {
                    let c = member_mismatch(relation, kinds, current_slot, current, citing);
                    let d = member_mismatch(relation, kinds, related_slot, related, citing);
                    at_most_one(c, code);
                    at_most_one(d, code);
                    either(c, d, code);
                    assert(rest =~= c + d);
                } else {
                    assert(rest =~= Seq::empty());
                }
            } else {
                at_most_one(rest, code);
            }
        } else {
            assert(rest =~= Seq::empty());
        }
    } else {
        assert(list =~= Seq::empty());
    }
}

/// What is reported of a formula that is evaluated on rows of an entity. `rows` has the kinds of
/// the two rows that the test of a derived relation is evaluated on.
pub open spec fn reported(
    q: Part,
    p: Program,
    entity: Option<Seq<char>>,
    rows: Option<(Option<Seq<char>>, Option<Seq<char>>)>,
    citing: Seq<char>,
) -> Seq<ViolationView> {
    match q {
        Part::Scalar(e) => scalar_violations(e, p, entity, rows, citing),
        Part::Judgment(e) => judgment_violations(e, p, entity, rows, citing),
    }
}

/// The kind of the related rows of an aggregation, where its relation has a kind for each slot and
/// the slots that are read are among them.
pub open spec fn kind_of_related(
    p: Program,
    relation: Seq<char>,
    current_slot: usize,
    related_slot: usize,
) -> Option<Seq<char>> {
    match item_named(p.relations@, relation) {
        None => None,
        Some(schema) => {
            let (current, related) = match schema.derivation {
                Some(d) => (d.current_slot, d.related_slot),
                None => (current_slot, related_slot),
            };
            match effective_kinds(p, relation) {
                Some(kinds) if kinds.len() == schema.arity && in_range(schema, current, related) => Some(
                    kinds[related as int],
                ),
                _ => None,
            }
        },
    }
}

/// What is reported of the test of an aggregation: it is evaluated on rows of the related kind.
pub open spec fn reported_of_test(
    test: Option<Box<JudgmentExpr>>,
    p: Program,
    kind: Option<Seq<char>>,
    citing: Seq<char>,
) -> Seq<ViolationView> {
    match test {
        Some(w) => reported(Part::Judgment(*w), p, kind, None, citing),
        None => Seq::empty(),
    }
}

/// What is reported of a formula itself.
pub open spec fn reported_itself(
    q: Part,
    p: Program,
    entity: Option<Seq<char>>,
    rows: Option<(Option<Seq<char>>, Option<Seq<char>>)>,
    citing: Seq<char>,
) -> Seq<ViolationView> {
    match q {
        Part::Scalar(
            ScalarExpr::CountRelated { relation, current_slot, related_slot, where_clause },
        ) => aggregation_violations(
            p,
            relation@,
            current_slot,
            related_slot,
            None,
            where_clause,
            entity,
            citing,
        ) + reported_of_test(
            where_clause,
            p,
            kind_of_related(p, relation@, current_slot, related_slot),
            citing,
        ),
        Part::Scalar(
            ScalarExpr::SumRelated { relation, current_slot, related_slot, value, where_clause },
        ) => aggregation_violations(
            p,
            relation@,
            current_slot,
            related_slot,
            Some(value),
            where_clause,
            entity,
            citing,
        ) + reported_of_test(
            where_clause,
            p,
            kind_of_related(p, relation@, current_slot, related_slot),
            citing,
        ),
        Part::Judgment(JudgmentExpr::RelationMember { relation, current_slot, related_slot }) =>
            membership_violations(p, relation@, current_slot, related_slot, rows, citing),
        _ => Seq::empty(),
    }
}

/// Of a formula is reported what is reported of it as an aggregation or a membership test, and what
/// is reported of its parts, for the same row.
pub proof fn a_formula_is_reported_with_its_parts(
    q: Part,
    p: Program,
    entity: Option<Seq<char>>,
    rows: Option<(Option<Seq<char>>, Option<Seq<char>>)>,
    citing: Seq<char>,
)
    ensures
        reported(q, p, entity, rows, citing) == reported_itself(q, p, entity, rows, citing)
            + gathered(row_parts(q), |x: Part| reported(x, p, entity, rows, citing)),
{
    let of = |x: Part| reported(x, p, entity, rows, citing);
    let list = row_parts(q);
    few(list, of);
    match q {
        Part::Scalar(e) => match e {
            ScalarExpr::Add(items) | ScalarExpr::Max(items) | ScalarExpr::Min(items) => {
                many(
                    list,
                    of,
                    |n: nat| scalar_violationss(items@, n, p, entity, rows, citing),
                    list.len(),
                );
                assert(list.take(list.len() as int) =~= list);
            },
            _ => {},
        },
        Part::Judgment(e) => match e {
            JudgmentExpr::And(items) | JudgmentExpr::Or(items) => {
                many(
                    list,
                    of,
                    |n: nat| judgment_violationss(items@, n, p, entity, rows, citing),
                    list.len(),
                );
                assert(list.take(list.len() as int) =~= list);
            },
            _ => {},
        },
    }
    assert(reported(q, p, entity, rows, citing) =~= reported_itself(q, p, entity, rows, citing)
        + gathered(list, of));
}

/// Whether the formula is one that the rule is evaluated by: one of a version, or its own where it
/// has no versions.
pub open spec fn is_formula_of(d: Derived, s: DerivedSemantics) -> bool {
    if d.versions@.len() == 0 {
        s == d.semantics
    } else {
        exists|i: int| 0 <= i < d.versions@.len() && (#[trigger] d.versions@[i]).semantics == s
    }
}

proof fn joined_has<X>(a: Seq<X>, b: Seq<X>, x: X)
    ensures
        (a + b).contains(x) <==> a.contains(x) || b.contains(x),
{
    if a.contains(x) {
        let i = choose|i: int| 0 <= i < a.len() && a[i] == x;
        assert((a + b)[i] == x);
    }
    if b.contains(x) {
        let i = choose|i: int| 0 <= i < b.len() && b[i] == x;
        assert((a + b)[a.len() + i] == x);
    }
}

proof fn versions_report(d: Derived, p: Program, n: nat, v: ViolationView)
    requires
        n <= d.versions@.len(),
    ensures
        versions_violations(d.versions@, n, p, d.entity@, d.label()).contains(v) <==> exists|i: int|
            0 <= i < n && formula_violations(
                (#[trigger] d.versions@[i]).semantics,
                p,
                d.entity@,
                d.label(),
            ).contains(v),
    decreases n,
{
    if n > 0 {
        versions_report(d, p, (n - 1) as nat, v);
        joined_has(
            versions_violations(d.versions@, (n - 1) as nat, p, d.entity@, d.label()),
            formula_violations(d.versions@[n - 1].semantics, p, d.entity@, d.label()),
            v,
        );
    }
}

proof fn versions_use(d: Derived, n: nat, name: Seq<char>)
    requires
        n <= d.versions@.len(),
    ensures
        versions_used(d.versions@, n).contains(name) <==> exists|i: int|
            0 <= i < n && formula_used((#[trigger] d.versions@[i]).semantics).contains(name),
    decreases n,
{
    if n > 0 {
        versions_use(d, (n - 1) as nat, name);
        joined_has(
            versions_used(d.versions@, (n - 1) as nat),
            formula_used(d.versions@[n - 1].semantics),
            name,
        );
    }
}

/// Of a rule is reported what is reported of a formula that it is evaluated by, on rows of its
/// entity; and it reads the relations that such a formula reads.
pub proof fn a_rule_is_reported_by_its_formulas(d: Derived, p: Program, v: ViolationView, name: Seq<char>)
    ensures
        rule_violations(d, p).contains(v) <==> exists|s: DerivedSemantics|
            is_formula_of(d, s) && #[trigger] formula_violations(
                s,
                p,
                d.entity@,
                d.label(),
            ).contains(v),
        rule_used(d).contains(name) <==> exists|s: DerivedSemantics|
            is_formula_of(d, s) && #[trigger] formula_used(s).contains(name),
{
    let n = d.versions@.len();
    versions_report(d, p, n, v);
    versions_use(d, n, name);
    if n == 0 {
        assert(is_formula_of(d, d.semantics));
    } else {
        assert forall|i: int| 0 <= i < n implies is_formula_of(
            d,
            (#[trigger] d.versions@[i]).semantics,
        ) by {}
    }
}

proof fn rules_report(rules: Seq<Derived>, n: nat, p: Program, v: ViolationView)
    requires
        n <= rules.len(),
    ensures
        rules_violations(rules, n, p).contains(v) <==> exists|i: int|
            0 <= i < n && rule_violations(#[trigger] rules[i], p).contains(v),
    decreases n,
{
    if n > 0 {
        rules_report(rules, (n - 1) as nat, p, v);
        joined_has(
            rules_violations(rules, (n - 1) as nat, p),
            rule_violations(rules[n - 1], p),
            v,
        );
    }
}

proof fn rules_use(rules: Seq<Derived>, n: nat, name: Seq<char>)
    requires
        n <= rules.len(),
    ensures
        rules_used(rules, n).contains(name) <==> exists|i: int|
            0 <= i < n && rule_used(#[trigger] rules[i]).contains(name),
    decreases n,
{
    if n > 0 {
        rules_use(rules, (n - 1) as nat, name);
        joined_has(rules_used(rules, (n - 1) as nat), rule_used(rules[n - 1]), name);
    }
}

/// Of the rules of a program is reported what is reported of any of them; and a relation that any
/// of them reads is executed.
pub proof fn a_program_is_reported_by_its_rules(p: Program, v: ViolationView, name: Seq<char>)
    ensures
        rules_violations(p.derived@, p.derived@.len(), p).contains(v) <==> exists|i: int|
            0 <= i < p.derived@.len() && rule_violations(#[trigger] p.derived@[i], p).contains(v),
        (exists|i: int|
            0 <= i < p.derived@.len() && rule_used(#[trigger] p.derived@[i]).contains(name))
            ==> is_executed(p, name),
{
    rules_report(p.derived@, p.derived@.len(), p, v);
    rules_use(p.derived@, p.derived@.len(), name);
    let path = seq![name];
    if rules_used(p.derived@, p.derived@.len()).contains(name) {
        assert(is_path(p, path) && path.last() == name);
    }
}

/// Of a derived relation is reported what its source lacks of kinds; that it declares others than
/// its source has; and what is reported of its test, on rows of its related slot, with membership
/// tests on the rows of both slots. It executes its source and the relations of its test.
pub proof fn a_derived_relation_is_reported_with_its_source_and_its_test(
    p: Program,
    name: Seq<char>,
    d: RelationDerivation,
    v: ViolationView,
    code: RelationTypingCode,
)
    requires
        derivation_of(p, name) == Some(d),
    ensures
        ({
            let current = match effective_kinds(p, name) {
                Some(k) if d.current_slot < k.len() => Some(k[d.current_slot as int]),
                _ => None,
            };
            let related = match effective_kinds(p, name) {
                Some(k) if d.related_slot < k.len() => Some(k[d.related_slot as int]),
                _ => None,
            };
            let test = reported(
                Part::Judgment(d.predicate),
                p,
                related,
                Some((current, related)),
                name,
            );
            let source = item_named(p.relations@, d.source_relation@);
            let kinds = effective_kinds(p, d.source_relation@);
            let all = derivation_violations(p, name);
            &&& test.contains(v) ==> all.contains(v)
            &&& reports(all, code) <==> reports(test, code) || match code {
                RelationTypingCode::UntypedRelation => source is Some && kinds is None,
                RelationTypingCode::SlotEntityCount => source matches Some(s) && (kinds matches Some(
                    k,
                ) && k.len() != s.arity),
                RelationTypingCode::DerivedRelationSourceConflict => source matches Some(s) && (
                kinds matches Some(k) && k.len() == s.arity && d.slot_entities@.len() > 0 && texts(
                    d.slot_entities@,
                ) != k),
                _ => false,
            }
        }),
        derivation_used(p, name).contains(d.source_relation@),
{
    let kinds = effective_kinds(p, name);
    let current = kind_at(kinds, d.current_slot);
    let related = kind_at(kinds, d.related_slot);
    let test = judgment_violations(d.predicate, p, related, Some((current, related)), name);
    let a = typing_violation(p, d.source_relation@, name);
    let b = source_conflict(p, name, d);
    at_most_one(a, code);
    at_most_one(b, code);
    either(a, b, code);
    either(a + b, test, code);
    joined_has(a + b, test, v);
    assert(derivation_used(p, name)[0] == d.source_relation@);
}

/// Whether a relation filters rows of the entity, which are queried by ids of the kind.
pub open spec fn filters_by(p: Program, i: int, entity: Seq<char>, kind: Seq<char>) -> bool {
    p.relations@[i].derivation matches Some(d) && {
        &&& opt_text(d.entity) == Some(entity)
        &&& effective_kinds(p, p.relations@[i].name@) matches Some(kinds)
        &&& d.current_slot < kinds.len()
        &&& kinds[d.current_slot as int] == kind
    }
}

proof fn filtered_kinds_are(p: Program, entity: Seq<char>, n: nat, kind: Seq<char>)
    requires
        n <= p.relations@.len(),
    ensures
        filtered_kinds(p, entity, n).contains(kind) <==> exists|i: int|
            0 <= i < n && #[trigger] filters_by(p, i, entity, kind),
    decreases n,
{
    if n > 0 {
        let m = (n - 1) as nat;
        filtered_kinds_are(p, entity, m, kind);
        let before = filtered_kinds(p, entity, m);
        let all = filtered_kinds(p, entity, n);
        let own = all.skip(before.len() as int);
        assert(all =~= before + own);
        joined_has(before, own, kind);
        if filters_by(p, n - 1, entity, kind) {
            assert(own[0] == kind);
        }
        if own.contains(kind) {
            assert(own[0] == kind);
            assert(filters_by(p, n - 1, entity, kind));
        }
    }
}

proof fn filtered_entities_are(relations: Seq<RelationSchema>, n: nat, entity: Seq<char>)
    requires
        n <= relations.len(),
    ensures
        filtered_entities(relations, n).contains(entity) <==> exists|i: int|
            0 <= i < n && ((#[trigger] relations[i]).derivation matches Some(d) && opt_text(d.entity)
                == Some(entity)),
    decreases n,
{
    if n > 0 {
        let m = (n - 1) as nat;
        filtered_entities_are(relations, m, entity);
        let before = filtered_entities(relations, m);
        let all = filtered_entities(relations, n);
        let own = all.skip(before.len() as int);
        assert(all =~= before + own);
        joined_has(before, own, entity);
        if relations[n - 1].derivation matches Some(d) && opt_text(d.entity) == Some(entity) {
            assert(own[0] == entity);
        }
    }
}

proof fn pairs_are(p: Program, entities: Seq<Seq<char>>, n: nat, entity: Seq<char>, kind: Seq<char>)
    requires
        n <= entities.len(),
    ensures
        kinds_by_entity(p, entities, n).contains((entity, kind)) <==> (exists|i: int|
            0 <= i < n && #[trigger] entities[i] == entity) && sole(
            filtered_kinds(p, entity, p.relations@.len()),
        ) == Some(kind),
    decreases n,
{
    if n > 0 {
        let m = (n - 1) as nat;
        pairs_are(p, entities, m, entity, kind);
        let before = kinds_by_entity(p, entities, m);
        let all = kinds_by_entity(p, entities, n);
        let own = all.skip(before.len() as int);
        assert(all =~= before + own);
        joined_has(before, own, (entity, kind));
        let found = sole(filtered_kinds(p, entities[n - 1], p.relations@.len()));
        if let Some(k) = found {
            assert(own =~= seq![(entities[n - 1], k)]);
            assert(own[0] == (entities[n - 1], k));
        } else {
            assert(own =~= Seq::empty());
        }
    }
}

/// An entity whose rows are filtered is queried by ids of a kind exactly where some relation that
/// filters it has that kind in its current slot, and none has another.
pub proof fn a_filtered_entity_has_the_kind_that_its_relations_agree_on(
    p: Program,
    entity: Seq<char>,
    kind: Seq<char>,
)
    ensures
        ({
            let entities = sorted_texts(filtered_entities(p.relations@, p.relations@.len()));
            kinds_by_entity(p, entities, entities.len()).contains((entity, kind)) <==> {
                &&& exists|i: int|
                    0 <= i < p.relations@.len() && #[trigger] filters_by(p, i, entity, kind)
                &&& forall|i: int, other: Seq<char>|
                    0 <= i < p.relations@.len() && #[trigger] filters_by(p, i, entity, other)
                        ==> other == kind
            }
        }),
{
    let n = p.relations@.len();
    let named = filtered_entities(p.relations@, n);
    let entities = sorted_texts(named);
    sorted_texts_meaning(named);
    pairs_are(p, entities, entities.len(), entity, kind);
    filtered_entities_are(p.relations@, n, entity);
    let kinds = filtered_kinds(p, entity, n);
    assert forall|other: Seq<char>| #[trigger] kinds.contains(other) <==> exists|i: int|
        0 <= i < n && #[trigger] filters_by(p, i, entity, other) by {
        filtered_kinds_are(p, entity, n, other);
    }
    if sole(kinds) == Some(kind) {
        assert(kinds[0] == kind);
        assert(kinds.contains(kind));
        assert forall|i: int, other: Seq<char>|
            0 <= i < n && #[trigger] filters_by(p, i, entity, other) implies other == kind by {
            assert(kinds.contains(other));
        }
        let i = choose|i: int| 0 <= i < n && #[trigger] filters_by(p, i, entity, kind);
        assert(p.relations@[i].derivation is Some);
    }
    if (exists|i: int| 0 <= i < n && #[trigger] filters_by(p, i, entity, kind)) && forall|
        i: int,
        other: Seq<char>,
    |
        0 <= i < n && #[trigger] filters_by(p, i, entity, other) ==> other == kind {
        assert(kinds.contains(kind));
        assert forall|j: int| 0 <= j < kinds.len() implies #[trigger] kinds[j] == kind by {
            assert(kinds.contains(kinds[j]));
            let i = choose|i: int| 0 <= i < n && #[trigger] filters_by(p, i, entity, kinds[j]);
        }
        let i = choose|i: int| 0 <= i < n && #[trigger] filters_by(p, i, entity, kind);
        assert(p.relations@[i].derivation is Some);
        assert(named.contains(entity));
        assert(entities.contains(entity));
        let k = entities.index_of(entity);
        assert(entities[k] == entity);
    }
    if exists|i: int| 0 <= i < entities.len() && #[trigger] entities[i] == entity {
        assert(entities.contains(entity));
    }
}

} // verus!
