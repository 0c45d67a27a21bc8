//! Laws of how texts are trimmed and taken apart: references, and the arguments that name the kinds
//! of a relation.
use crate::catalog::{
    begins, char_from, has_public_ids, is_white, reference_fragment, relation_named, split_at,
};
use crate::cli::{comma_parts, override_parts};
use crate::lines::{trim_end, trim_start};
use crate::model::{item_named, position_from_meaning, Named, Program};
use vstd::prelude::*;

verus! {

/// Whether a character occurs in a text.
pub open spec fn occurs(s: Seq<char>, c: char) -> bool {
    exists|i: int| 0 <= i < s.len() && #[trigger] s[i] == c
}

proof fn first_is(s: Seq<char>, c: char, from: nat)
    requires
        from <= s.len(),
    ensures
        match char_from(s, c, from) {
            Some(i) => from <= i < s.len() && s[i as int] == c && forall|j: int|
                from <= j < i ==> #[trigger] s[j] != c,
            None => forall|j: int| from <= j < s.len() ==> #[trigger] s[j] != c,
        },
    decreases s.len() - from,
{
    if from < s.len() && s[from as int] != c {
        first_is(s, c, from + 1);
    }
}

/// A text splits at the first occurrence of a character, and without one it does not.
pub proof fn a_text_splits_at_the_first_occurrence(a: Seq<char>, c: char, b: Seq<char>)
    requires
        !occurs(a, c),
    ensures
        split_at(a + seq![c] + b, c) == Some((a, b)),
        split_at(a, c) is None,
{
    let s = a + seq![c] + b;
    first_is(s, c, 0);
    first_is(a, c, 0);
    assert(s[a.len() as int] == c);
    let i = char_from(s, c, 0)->Some_0;
    if i < a.len() {
        assert(a[i as int] == c);
    }
    assert(i == a.len());
    assert(s.take(i as int) =~= a);
    assert(s.skip(i as int + 1) =~= b);
    if let Some(j) = char_from(a, c, 0) {
        assert(a[j as int] == c);
    }
}

/// Whether a text is only white space.
pub open spec fn is_all_white(s: Seq<char>) -> bool {
    forall|i: int| 0 <= i < s.len() ==> is_white(#[trigger] s[i])
}

/// What is trimmed from the start of a text is white space; what is left does not start with any.
pub proof fn trimming_the_start_takes_its_white_space(s: Seq<char>)
    ensures
        exists|white: Seq<char>| #[trigger] (white + trim_start(s)) == s && is_all_white(white),
        trim_start(s).len() > 0 ==> !is_white(trim_start(s)[0]),
    decreases s.len(),
{
    if s.len() > 0 && is_white(s[0]) {
        trimming_the_start_takes_its_white_space(s.drop_first());
        let rest = choose|white: Seq<char>| #[trigger]
            (white + trim_start(s.drop_first())) == s.drop_first() && is_all_white(white);
        let white = seq![s[0]] + rest;
        assert(white + trim_start(s) =~= seq![s[0]] + s.drop_first());
        assert(seq![s[0]] + s.drop_first() =~= s);
        assert(is_all_white(white));
    } else {
        assert(Seq::<char>::empty() + trim_start(s) =~= s);
    }
}

/// What is trimmed from the end of a text is white space; what is left does not end with any.
pub proof fn trimming_the_end_takes_its_white_space(s: Seq<char>)
    ensures
        exists|white: Seq<char>| #[trigger] (trim_end(s) + white) == s && is_all_white(white),
        trim_end(s).len() > 0 ==> !is_white(trim_end(s).last()),
    decreases s.len(),
{
    if s.len() > 0 && is_white(s.last()) {
        trimming_the_end_takes_its_white_space(s.drop_last());
        let rest = choose|white: Seq<char>| #[trigger]
            (trim_end(s.drop_last()) + white) == s.drop_last() && is_all_white(white);
        let white = rest.push(s.last());
        assert(trim_end(s) + white =~= s.drop_last().push(s.last()));
        assert(s.drop_last().push(s.last()) =~= s);
        assert(is_all_white(white));
    } else {
        assert(trim_end(s) + Seq::<char>::empty() =~= s);
    }
}

/// The kinds of a list are what stands between its commas, trimmed.
pub proof fn kinds_stand_between_commas(kind: Seq<char>, rest: Seq<char>)
    requires
        !occurs(kind, ','),
    ensures
        comma_parts(kind) == seq![trim_end(trim_start(kind))],
        comma_parts(kind + seq![','] + rest) == seq![trim_end(trim_start(kind))] + comma_parts(rest),
{
    a_text_splits_at_the_first_occurrence(kind, ',', rest);
}

/// An argument names a relation before its first equals sign and kinds behind it; it is refused
/// where the relation or one of the kinds is empty, or there is no equals sign.
pub proof fn an_override_is_a_relation_and_its_kinds(relation: Seq<char>, kinds: Seq<char>)
    requires
        !occurs(relation, '='),
    ensures
        override_parts(relation) is None,
        override_parts(relation + seq!['='] + kinds) == if relation.len() > 0 && forall|i: int|
            0 <= i < comma_parts(kinds).len() ==> (#[trigger] comma_parts(kinds)[i]).len() > 0 {
            Some((relation, comma_parts(kinds)))
        } else {
            None
        },
{
    a_text_splits_at_the_first_occurrence(relation, '=', kinds);
    let list = comma_parts(kinds);
    if forall|i: int| 0 <= i < list.len() ==> (#[trigger] list[i]).len() > 0 {
        assert(!(exists|i: int| 0 <= i < list.len() && (#[trigger] list[i]).len() == 0));
    } else {
        let i = choose|i: int| 0 <= i < list.len() && !((#[trigger] list[i]).len() > 0);
        assert(list[i].len() == 0);
    }
}

/// Whether a relation has a name.
pub open spec fn is_relation(p: Program, name: Seq<char>) -> bool {
    exists|i: int| 0 <= i < p.relations@.len() && (#[trigger] p.relations@[i]).name@ == name
}

proof fn relation_is(p: Program, name: Seq<char>)
    ensures
        is_relation(p, name) <==> item_named(p.relations@, name) is Some,
{
    position_from_meaning(p.relations@, name, 0);
    if is_relation(p, name) && item_named(p.relations@, name) is None {
        let i = choose|i: int| 0 <= i < p.relations@.len() && (#[trigger] p.relations@[i]).name@ == name;
        assert(p.relations@[i].label_of() == name);
    }
}

/// A relation is meant by its name; or, in a program with public ids, by a target whose fragment is
/// its name behind `relation.`. What is meant is always a relation of the program.
pub proof fn relations_are_meant_by_name_or_by_fragment(
    p: Program,
    reference: Seq<char>,
    target_is_valid: bool,
)
    ensures
        relation_named(p, reference, target_is_valid) matches Some(name) ==> is_relation(p, name) && (
        name == reference || (reference_fragment(reference, target_is_valid) == Some(
            "relation."@ + name,
        ) && !is_relation(p, reference) && has_public_ids(p))),
        is_relation(p, reference) ==> relation_named(p, reference, target_is_valid) == Some(reference),
        !is_relation(p, reference) && has_public_ids(p) ==> forall|name: Seq<char>|
            is_relation(p, name) && reference_fragment(reference, target_is_valid) == Some(
                #[trigger] ("relation."@ + name),
            ) ==> relation_named(p, reference, target_is_valid) == Some(name),
{
    let prefix = "relation."@;
    relation_is(p, reference);
    if let Some(fragment) = reference_fragment(reference, target_is_valid) {
        let rest = fragment.skip(prefix.len() as int);
        relation_is(p, rest);
        if begins(fragment, prefix) {
            assert(prefix + rest =~= fragment);
        }
        assert forall|name: Seq<char>| fragment == #[trigger] (prefix + name) implies rest == name
            && begins(fragment, prefix) by {
            assert((prefix + name).skip(prefix.len() as int) =~= name);
            assert((prefix + name).take(prefix.len() as int) =~= prefix);
        }
    }
}

} // verus!
