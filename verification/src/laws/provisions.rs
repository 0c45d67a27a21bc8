//! Laws of the lines of provision documents.
use crate::compile::{
    document_added, numbered_lines, records_before_fault, with_records,
    CompileError, CompileErrorView, ProvisionLine,
};
use crate::lines::{is_blank, line_text};
use vstd::prelude::*;

verus! {

/// The lines of a document that are not blank are listed, and no others, each with its number
/// counted from one, in rising order.
pub proof fn lines_are_numbered_from_one(lines: Seq<Seq<char>>, n: nat)
    requires
        n <= lines.len(),
    ensures
        ({
            let listed = numbered_lines(lines, n);
            &&& forall|k: int|
                0 <= k < listed.len() ==> {
                    let (number, text) = #[trigger] listed[k];
                    1 <= number <= n && text == line_text(lines[number - 1]) && !is_blank(text)
                }
            &&& forall|j: int, k: int|
                0 <= j < k < listed.len() ==> (#[trigger] listed[j]).0 < (#[trigger] listed[k]).0
            &&& forall|i: int|
                0 <= i < n && !is_blank(line_text(#[trigger] lines[i])) ==> listed.contains(
                    ((i + 1) as nat, line_text(lines[i])),
                )
        }),
    decreases n,
{
    if n > 0 {
        lines_are_numbered_from_one(lines, (n - 1) as nat);
        let before = numbered_lines(lines, (n - 1) as nat);
        let listed = numbered_lines(lines, n);
        let text = line_text(lines[n - 1]);
        if !is_blank(text) {
            assert(listed == before.push((n, text)));
            assert(listed[before.len() as int] == (n, text));
            assert forall|i: int|
                0 <= i < n && !is_blank(line_text(#[trigger] lines[i])) implies listed.contains(
                ((i + 1) as nat, line_text(lines[i])),
            ) by {
                let line = ((i + 1) as nat, line_text(lines[i]));
                if i < n - 1 {
                    assert(before.contains(line));
                    let k = choose|k: int| 0 <= k < before.len() && before[k] == line;
                    assert(listed[k] == line);
                }
            }
        }
    }
}

proof fn fault_is_first(lines: Seq<ProvisionLine>, n: nat)
    requires
        n <= lines.len(),
    ensures
        records_before_fault(lines, n) <= n,
        forall|i: int|
            0 <= i < records_before_fault(lines, n) ==> (#[trigger] lines[i]).record is Ok,
        records_before_fault(lines, n) < n ==> lines[records_before_fault(
            lines,
            n,
        ) as int].record is Err,
    decreases n,
{
    if n > 0 {
        fault_is_first(lines, (n - 1) as nat);
    }
}

/// A document is refused exactly where a line has no record, with the number of the first such line;
/// the records before it count.
pub proof fn a_document_is_read_to_its_first_fault(
    before: Map<Seq<char>, Seq<char>>,
    lines: Seq<ProvisionLine>,
    path: Seq<char>,
    after: Map<Seq<char>, Seq<char>>,
    r: Result<(), CompileError>,
)
    requires
        document_added(before, lines, path, after, r),
    ensures
        r is Ok <==> forall|i: int| 0 <= i < lines.len() ==> (#[trigger] lines[i]).record is Ok,
        r is Ok ==> after == with_records(before, lines, lines.len()),
        r matches Err(error) ==> exists|n: int|
            0 <= n < lines.len() && (#[trigger] lines[n]).record is Err && (forall|i: int|
                0 <= i < n ==> (#[trigger] lines[i]).record is Ok) && error@ == (
            CompileErrorView::ParseProvisionRecord {
                path,
                line: lines[n].line as nat,
                error: lines[n].record->Err_0@,
            }) && after == with_records(before, lines, n as nat),
{
    fault_is_first(lines, lines.len());
    let n = records_before_fault(lines, lines.len()) as int;
    if r is Err {
        assert(lines[n].record is Err);
    }
}

} // verus!
