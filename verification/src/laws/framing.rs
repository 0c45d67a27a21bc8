//! Laws of the frames that a batch is made of: how many rows there are, which inputs are read, and
//! which relations are refused.
use crate::batch::{column_named, NamedColumn};
use crate::dense::{DenseCompiledProgram, DenseRelationSchema};
use crate::frames::{
    first_absent, first_given, frame_named, frame_offsets, frame_rows, given_names, is_offset,
    key_text, missing_batch, relation_fault, relations_fault, RelationFrame,
};
use crate::model::{item_named, position_from_meaning, Named};
use crate::text::texts;
use vstd::prelude::*;

verus! {

/// Whether a column of a name is given.
pub open spec fn is_given(columns: Seq<NamedColumn>, name: Seq<char>) -> bool {
    exists|k: int| 0 <= k < columns.len() && (#[trigger] columns[k]).name@ == name
}

proof fn given_is(columns: Seq<NamedColumn>, name: Seq<char>)
    ensures
        is_given(columns, name) <==> item_named(columns, name) is Some,
{
    position_from_meaning(columns, name, 0);
    if is_given(columns, name) && item_named(columns, name) is None {
        let k = choose|k: int| 0 <= k < columns.len() && (#[trigger] columns[k]).name@ == name;
        assert(columns[k].label_of() == name);
    }
}

proof fn first_given_is(names: Seq<Seq<char>>, columns: Seq<NamedColumn>, n: nat)
    requires
        n <= names.len(),
    ensures
        match first_given(names, columns, n) {
            Some(name) => exists|i: int|
                0 <= i < n && #[trigger] names[i] == name && is_given(columns, name) && forall|j: int|
                    0 <= j < i ==> !is_given(columns, #[trigger] names[j]),
            None => forall|j: int| 0 <= j < n ==> !is_given(columns, #[trigger] names[j]),
        },
    decreases n,
{
    if n > 0 {
        first_given_is(names, columns, (n - 1) as nat);
        given_is(columns, names[n - 1]);
    }
}

/// A frame has as many rows as the column of the first root input that is given; without one, as
/// many as the offsets of the first relation have groups.
pub proof fn a_frame_has_the_rows_of_its_first_input(
    p: DenseCompiledProgram,
    columns: Seq<NamedColumn>,
    frames: Option<Vec<RelationFrame>>,
)
    ensures
        ({
            let names = texts(p.root_inputs@);
            let rows = frame_rows(p, columns, frames);
            &&& forall|i: int|
                0 <= i < names.len() && is_given(columns, #[trigger] names[i]) && (forall|j: int|
                    0 <= j < i ==> !is_given(columns, #[trigger] names[j])) ==> rows == Ok::<
                    nat,
                    Seq<char>,
                >(column_named(columns, names[i])->Some_0.rows())
            &&& (forall|i: int| 0 <= i < names.len() ==> !is_given(columns, #[trigger] names[i]))
                ==> match rows {
                Ok(n) => {
                    &&& p.relations@.len() > 0
                    &&& frame_named(frames, key_text(p.relations@[0].key@)) matches Some(frame)
                    &&& frame.offsets matches Some(offsets)
                    &&& n == if offsets@.len() == 0 {
                        0
                    } else {
                        offsets@.len() - 1
                    }
                },
                Err(_) => p.relations@.len() == 0 || frame_named(
                    frames,
                    key_text(p.relations@[0].key@),
                ) is None || frame_offsets(
                    frame_named(frames, key_text(p.relations@[0].key@))->Some_0,
                ) is Err,
            }
        }),
{
    let names = texts(p.root_inputs@);
    first_given_is(names, columns, names.len());
    assert forall|i: int|
        0 <= i < names.len() && is_given(columns, #[trigger] names[i]) && (forall|j: int|
            0 <= j < i ==> !is_given(columns, #[trigger] names[j])) implies frame_rows(
        p,
        columns,
        frames,
    ) == Ok::<nat, Seq<char>>(column_named(columns, names[i])->Some_0.rows()) by {
        let name = first_given(names, columns, names.len())->Some_0;
        let k = choose|k: int|
            0 <= k < names.len() && #[trigger] names[k] == name && is_given(columns, name)
                && forall|j: int| 0 <= j < k ==> !is_given(columns, #[trigger] names[j]);
        if k < i {
            assert(!is_given(columns, names[k]));
        } else if i < k {
            assert(!is_given(columns, names[i]));
        }
    }
}

/// The inputs that are read of a frame are those of the program that are given, in the program's
/// order.
pub proof fn given_inputs_are_read(names: Seq<Seq<char>>, columns: Seq<NamedColumn>)
    ensures
        given_names(names, columns, names.len()) == names.filter(
            |name: Seq<char>| is_given(columns, name),
        ),
{
    given_names_are(names, columns, names.len());
    assert(names.take(names.len() as int) =~= names);
}

proof fn given_names_are(names: Seq<Seq<char>>, columns: Seq<NamedColumn>, n: nat)
    requires
        n <= names.len(),
    ensures
        given_names(names, columns, n) == names.take(n as int).filter(
            |name: Seq<char>| is_given(columns, name),
        ),
    decreases n,
{
    reveal(Seq::filter);
    if n > 0 {
        given_names_are(names, columns, (n - 1) as nat);
        given_is(columns, names[n - 1]);
        assert(names.take(n as int).drop_last() =~= names.take(n - 1));
        assert(names.take(n as int).last() == names[n - 1]);
    }
}

proof fn absent_is(names: Seq<Seq<char>>, columns: Seq<NamedColumn>, n: nat)
    requires
        n <= names.len(),
    ensures
        match first_absent(names, columns, n) {
            Some(name) => exists|i: int|
                0 <= i < n && #[trigger] names[i] == name && !is_given(columns, name) && forall|j: int|
                    0 <= j < i ==> is_given(columns, #[trigger] names[j]),
            None => forall|j: int| 0 <= j < n ==> is_given(columns, #[trigger] names[j]),
        },
    decreases n,
{
    if n > 0 {
        absent_is(names, columns, (n - 1) as nat);
        given_is(columns, names[n - 1]);
    }
}

/// Whether a relation's frame is whole: it has offsets, none of them negative, and a column for each
/// input of the related rows.
pub open spec fn is_whole(frame: RelationFrame, names: Seq<Seq<char>>) -> bool {
    &&& frame.offsets matches Some(offsets) && forall|i: int|
        0 <= i < offsets@.len() ==> 0 <= #[trigger] offsets@[i] <= usize::MAX
    &&& frame.inputs matches Some(columns) && forall|i: int|
        0 <= i < names.len() ==> is_given(columns@, #[trigger] names[i])
}

proof fn offsets_are(frame: RelationFrame)
    ensures
        match frame_offsets(frame) {
            Ok(offsets) => frame.offsets matches Some(list) && offsets.len() == list@.len()
                && forall|i: int|
                0 <= i < list@.len() ==> (#[trigger] list@[i]) == offsets[i] as int,
            Err(_) => frame.offsets matches Some(list) ==> exists|i: int|
                0 <= i < list@.len() && !(0 <= #[trigger] list@[i] <= usize::MAX),
        },
{
    if let Some(list) = frame.offsets {
        if exists|i: int| 0 <= i < list@.len() && !is_offset(#[trigger] list@[i]) {
            let i = choose|i: int| 0 <= i < list@.len() && !is_offset(#[trigger] list@[i]);
            assert(!(0 <= list@[i] <= usize::MAX));
        } else {
            assert forall|i: int| 0 <= i < list@.len() implies (#[trigger] list@[i])
                == list@.map_values(|n: i64| n as usize)[i] as int by {
                assert(is_offset(list@[i]));
            }
        }
    }
}

/// The offsets of a frame are the numbers that it gives; where one of them is no offset, or there
/// are none, the frame is refused.
pub proof fn offsets_are_the_numbers_given(frame: RelationFrame)
    ensures
        match frame_offsets(frame) {
            Ok(offsets) => frame.offsets matches Some(list) && offsets.len() == list@.len()
                && forall|i: int|
                0 <= i < list@.len() ==> (#[trigger] list@[i]) == offsets[i] as int,
            Err(_) => frame.offsets matches Some(list) ==> exists|i: int|
                0 <= i < list@.len() && !(0 <= #[trigger] list@[i] <= usize::MAX),
        },
{
    offsets_are(frame);
}

/// A relation is framed exactly where a frame of its name is whole.
pub proof fn a_relation_is_framed_where_its_frame_is_whole(
    schema: DenseRelationSchema,
    frames: Option<Vec<RelationFrame>>,
)
    ensures
        relation_fault(schema, frames) is None <==> (frame_named(frames, key_text(schema.key@)) matches Some(
            frame,
        ) && is_whole(frame, texts(schema.related_inputs@))),
        frame_named(frames, key_text(schema.key@)) is None ==> relation_fault(schema, frames) == Some(
            missing_batch(key_text(schema.key@)),
        ),
        frame_named(frames, key_text(schema.key@)) matches Some(frame) ==> frames is Some
            && frames->Some_0@.contains(frame) && frame.key@ == key_text(schema.key@),
{
    let key = key_text(schema.key@);
    let names = texts(schema.related_inputs@);
    if let Some(list) = frames {
        position_from_meaning(list@, key, 0);
    }
    if let Some(frame) = frame_named(frames, key) {
        offsets_are(frame);
        if let Some(columns) = frame.inputs {
            absent_is(names, columns@, names.len());
            if let Some(name) = first_absent(names, columns@, names.len()) {
                let i = choose|i: int|
                    0 <= i < names.len() && #[trigger] names[i] == name && !is_given(
                        columns@,
                        name,
                    ) && forall|j: int| 0 <= j < i ==> is_given(columns@, #[trigger] names[j]);
                assert(!is_given(columns@, names[i]));
            }
        }
    }
}

/// Relations are refused for the first that is not framed, with its fault.
pub proof fn relations_are_refused_for_the_first_that_is_not_framed(
    schemas: Seq<DenseRelationSchema>,
    frames: Option<Vec<RelationFrame>>,
    n: nat,
)
    requires
        n <= schemas.len(),
    ensures
        match relations_fault(schemas, frames, n) {
            None => forall|i: int|
                0 <= i < n ==> relation_fault(#[trigger] schemas[i], frames) is None,
            Some(fault) => exists|i: int|
                0 <= i < n && relation_fault(#[trigger] schemas[i], frames) == Some(fault)
                    && forall|j: int|
                    0 <= j < i ==> relation_fault(#[trigger] schemas[j], frames) is None,
        },
    decreases n,
{
    if n > 0 {
        relations_are_refused_for_the_first_that_is_not_framed(schemas, frames, (n - 1) as nat);
    }
}

} // verus!
