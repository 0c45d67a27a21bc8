//! Lines of a text and the white space around them.
use crate::catalog::is_white;
use crate::catalog::white;
use crate::text::texts;
use vstd::prelude::*;
use vstd::std_specs::iter::IteratorSpec;
use vstd::string::*;

verus! {

/// The characters of a text.
pub(crate) fn chars_of(s: &str) -> (r: Vec<char>)
    ensures
        r@ == s@,
{
    let mut out: Vec<char> = Vec::new();
    let mut it = s.chars();
    loop
        invariant
            it.obeys_prophetic_iter_laws(),
            it.decrease() is Some,
            out@ + it.remaining() == s@,
        ensures
            out@ == s@,
        decreases it.decrease()->0,
    {
        match it.next() {
            Some(c) => {
                let ghost before = out@;
                out.push(c);
                assert(out@ + it.remaining() =~= s@);
            },
            None => {
                assert(out@ =~= s@);
                break ;
            },
        }
    }
    out
}

/// The text of the characters from `from` to `to`.
pub(crate) fn text_between(v: &Vec<char>, from: usize, to: usize) -> (r: String)
    requires
        from <= to <= v@.len(),
    ensures
        r@ == v@.subrange(from as int, to as int),
{
    let mut out = String::new();
    let mut i: usize = from;
    while i < to
        invariant
            from <= i <= to <= v@.len(),
            out@ == v@.subrange(from as int, i as int),
        decreases to - i,
    {
        out.push(v[i]);
        assert(out@ =~= v@.subrange(from as int, i + 1));
        i = i + 1;
    }
    out
}

/// The first `n` texts, with a separator between two.
pub open spec fn joined_by(list: Seq<Seq<char>>, n: nat, separator: Seq<char>) -> Seq<char>
    decreases n,
{
    if n == 0 || n > list.len() {
        Seq::empty()
    } else if n == 1 {
        list[0]
    } else {
        joined_by(list, (n - 1) as nat, separator) + separator + list[n - 1]
    }
}

pub(crate) fn join(list: &Vec<String>, separator: &str) -> (r: String)
    ensures
        r@ == joined_by(texts(list@), list@.len(), separator@),
{
    let mut text = String::new();
    let ghost all = texts(list@);
    let mut i: usize = 0;
    while i < list.len()
        invariant
            i <= list@.len(),
            all == texts(list@),
            text@ == joined_by(all, i as nat, separator@),
        decreases list@.len() - i,
    {
        assert(all[i as int] == list@[i as int]@);
        if i > 0 {
            text.append(separator);
            text.append(list[i].as_str());
        } else {
            text = list[i].clone();
        }
        i = i + 1;
    }
    text
}

/// The texts, one behind the other.
pub open spec fn chained(list: Seq<Seq<char>>) -> Seq<char>
    decreases list.len(),
{
    if list.len() == 0 {
        Seq::empty()
    } else {
        list[0] + chained(list.drop_first())
    }
}

/// The position behind the first line end from `from` on, or that of the end.
pub open spec fn line_end(s: Seq<char>, from: nat) -> nat
    decreases s.len() - from,
{
    if from >= s.len() {
        s.len()
    } else if s[from as int] == '\n' {
        from + 1
    } else {
        line_end(s, from + 1)
    }
}

/// The lines of a text from `from` on, each with its line end.
pub open spec fn raw_lines_from(s: Seq<char>, from: nat) -> Seq<Seq<char>>
    decreases s.len() - from,
    via raw_lines_from_ends
{
    if from >= s.len() {
        Seq::empty()
    } else {
        let end = line_end(s, from);
        seq![s.subrange(from as int, end as int)] + raw_lines_from(s, end)
    }
}

#[via_fn]
proof fn raw_lines_from_ends(s: Seq<char>, from: nat) {
    if from < s.len() {
        line_end_moves(s, from);
    }
}

proof fn line_end_moves(s: Seq<char>, from: nat)
    requires
        from < s.len(),
    ensures
        from < line_end(s, from) <= s.len(),
    decreases s.len() - from,
{
    if s[from as int] != '\n' && from + 1 < s.len() {
        line_end_moves(s, from + 1);
    } else {
        assert(line_end(s, s.len()) == s.len());
    }
}

/// The lines of a text, each with its line end.
pub open spec fn raw_lines(s: Seq<char>) -> Seq<Seq<char>> {
    raw_lines_from(s, 0)
}

/// The lines of a text, chained, are the text.
pub proof fn raw_lines_chain(s: Seq<char>)
    ensures
        chained(raw_lines(s)) == s,
{
    raw_lines_from_chain(s, 0);
    assert(s.skip(0) =~= s);
}

proof fn raw_lines_from_chain(s: Seq<char>, from: nat)
    requires
        from <= s.len(),
    ensures
        chained(raw_lines_from(s, from)) == s.skip(from as int),
    decreases s.len() - from,
{
    if from < s.len() {
        line_end_moves(s, from);
        let end = line_end(s, from);
        raw_lines_from_chain(s, end);
        let lines = raw_lines_from(s, from);
        assert(lines.drop_first() =~= raw_lines_from(s, end));
        assert(s.skip(from as int) =~= lines[0] + s.skip(end as int));
    } else {
        assert(s.skip(from as int) =~= Seq::<char>::empty());
    }
}

/// Chained texts can be cut between two of them.
pub proof fn chained_splits(list: Seq<Seq<char>>, at: nat)
    requires
        at <= list.len(),
    ensures
        chained(list) == chained(list.take(at as int)) + chained(list.skip(at as int)),
    decreases at,
{
    if at == 0 {
        assert(list.take(0) =~= Seq::empty());
        assert(list.skip(0) =~= list);
        assert(chained(list) =~= Seq::<char>::empty() + chained(list));
    } else {
        chained_splits(list.drop_first(), (at - 1) as nat);
        assert(list.take(at as int).drop_first() =~= list.drop_first().take(at - 1));
        assert(list.drop_first().skip(at - 1) =~= list.skip(at as int));
        assert(chained(list) =~= chained(list.take(at as int)) + chained(list.skip(at as int)));
    }
}

/// Whether a text is a line: it has a line end at most at its end.
pub open spec fn is_line(s: Seq<char>) -> bool {
    s.len() > 0 && forall|k: int| 0 <= k < s.len() - 1 ==> #[trigger] s[k] != '\n'
}

/// Whether texts are the lines of a text: only the last may lack its line end.
pub open spec fn are_lines(list: Seq<Seq<char>>) -> bool {
    forall|i: int| #![trigger list[i]]
        0 <= i < list.len() ==> is_line(list[i]) && (i < list.len() - 1 ==> list[i].last() == '\n')
}

proof fn line_end_finds(s: Seq<char>, from: nat)
    requires
        from < s.len(),
    ensures
        from < line_end(s, from) <= s.len(),
        forall|k: int| from <= k < line_end(s, from) - 1 ==> #[trigger] s[k] != '\n',
        line_end(s, from) < s.len() ==> s[line_end(s, from) - 1] == '\n',
    decreases s.len() - from,
{
    if s[from as int] != '\n' {
        if from + 1 < s.len() {
            line_end_finds(s, from + 1);
        } else {
            assert(line_end(s, s.len()) == s.len());
        }
    }
}

proof fn raw_lines_from_are_lines(s: Seq<char>, from: nat)
    ensures
        are_lines(raw_lines_from(s, from)),
    decreases s.len() - from,
{
    if from < s.len() {
        line_end_finds(s, from);
        let end = line_end(s, from);
        raw_lines_from_are_lines(s, end);
        let list = raw_lines_from(s, from);
        let rest = raw_lines_from(s, end);
        let first = s.subrange(from as int, end as int);
        assert(is_line(first)) by {
            assert forall|k: int| 0 <= k < first.len() - 1 implies #[trigger] first[k] != '\n' by {
                assert(first[k] == s[from + k]);
            }
        }
        assert forall|i: int| #![trigger list[i]] 0 <= i < list.len() implies is_line(list[i]) && (i
            < list.len() - 1 ==> list[i].last() == '\n') by {
            if i > 0 {
                assert(list[i] == rest[i - 1]);
            } else if list.len() > 1 {
                assert(end < s.len());
                assert(first.last() == s[end - 1]);
            }
        }
    }
}

/// The lines of a text are lines.
pub proof fn raw_lines_are_lines(s: Seq<char>)
    ensures
        are_lines(raw_lines(s)),
{
    raw_lines_from_are_lines(s, 0);
}

proof fn line_end_at(s: Seq<char>, from: nat, end: nat)
    requires
        from < end <= s.len(),
        forall|k: int| from <= k < end - 1 ==> #[trigger] s[k] != '\n',
        end < s.len() ==> s[end - 1] == '\n',
    ensures
        line_end(s, from) == end,
    decreases end - from,
{
    if from + 1 < end {
        assert(s[from as int] != '\n');
        line_end_at(s, from + 1, end);
    } else if s[from as int] != '\n' {
        assert(line_end(s, end) == s.len());
    }
}

proof fn lines_from_of_chained(list: Seq<Seq<char>>, s: Seq<char>, from: nat)
    requires
        are_lines(list),
        from <= s.len(),
        s.skip(from as int) == chained(list),
    ensures
        raw_lines_from(s, from) == list,
    decreases list.len(),
{
    if list.len() == 0 {
        assert(s.skip(from as int).len() == 0);
        assert(list =~= Seq::empty());
    } else {
        let first = list[0];
        let rest = list.drop_first();
        let end = from + first.len();
        let tail = s.skip(from as int);
        assert(tail.len() == first.len() + chained(rest).len());
        assert forall|k: int| from <= k < end implies #[trigger] s[k] == first[k - from] by {
            assert(tail[k - from] == s[k]);
        }
        assert(is_line(first));
        if end < s.len() {
            assert(chained(rest).len() > 0);
            assert(rest.len() > 0);
            assert(first.last() == '\n');
        }
        line_end_at(s, from, end);
        assert forall|i: int| #![trigger rest[i]] 0 <= i < rest.len() implies is_line(rest[i]) && (i
            < rest.len() - 1 ==> rest[i].last() == '\n') by {
            assert(rest[i] == list[i + 1]);
        }
        assert(s.skip(end as int) =~= chained(rest)) by {
            assert(s.skip(end as int) =~= tail.skip(first.len() as int));
        }
        lines_from_of_chained(rest, s, end);
        assert(s.subrange(from as int, end as int) =~= first);
        assert(list =~= seq![first] + rest);
    }
}

/// Lines, chained, have those lines.
pub proof fn lines_of_chained(list: Seq<Seq<char>>)
    requires
        are_lines(list),
    ensures
        raw_lines(chained(list)) == list,
{
    let s = chained(list);
    assert(s.skip(0) =~= s);
    lines_from_of_chained(list, s, 0);
}

/// A line without its line end.
pub open spec fn line_text(raw: Seq<char>) -> Seq<char> {
    if raw.len() > 0 && raw.last() == '\n' {
        if raw.len() > 1 && raw[raw.len() - 2] == '\r' {
            raw.take(raw.len() - 2)
        } else {
            raw.take(raw.len() - 1)
        }
    } else {
        raw
    }
}

/// The line end of a line.
pub open spec fn line_break(raw: Seq<char>) -> Seq<char> {
    raw.skip(line_text(raw).len() as int)
}

pub open spec fn char_lists(v: Seq<Vec<char>>) -> Seq<Seq<char>> {
    v.map_values(|line: Vec<char>| line@)
}

pub(crate) fn line_text_len(raw: &Vec<char>) -> (r: usize)
    ensures
        r <= raw@.len(),
        line_text(raw@) == raw@.take(r as int),
        r == line_text(raw@).len(),
{
    let n = raw.len();
    if n > 0 && raw[n - 1] == '\n' {
        if n > 1 && raw[n - 2] == '\r' {
            n - 2
        } else {
            n - 1
        }
    } else {
        assert(raw@.take(n as int) =~= raw@);
        n
    }
}

/// The lines of a text, each with its line end.
pub(crate) fn split_lines(text: &Vec<char>) -> (r: Vec<Vec<char>>)
    ensures
        char_lists(r@) == raw_lines(text@),
{
    let ghost s = text@;
    let mut out: Vec<Vec<char>> = Vec::new();
    let mut i: usize = 0;
    assert(char_lists(out@) + raw_lines_from(s, 0) =~= raw_lines(s));
    while i < text.len()
        invariant
            i <= text@.len(),
            s == text@,
            char_lists(out@) + raw_lines_from(s, i as nat) == raw_lines(s),
        decreases text@.len() - i,
    {
        let mut line: Vec<char> = Vec::new();
        let ghost from = i;
        let mut ended = false;
        while i < text.len() && !ended
            invariant
                from <= i <= text@.len(),
                s == text@,
                line@ == s.subrange(from as int, i as int),
                ended || line_end(s, from as nat) == line_end(s, i as nat),
                ended ==> line_end(s, from as nat) == i,
                from < text@.len(),
                i > from || !ended,
                i == from ==> !ended,
            decreases text@.len() - i + (if ended {
                0int
            } else {
                1int
            }),
        {
            let c = text[i];
            line.push(c);
            assert(line@ =~= s.subrange(from as int, i + 1));
            if c == '\n' {
                ended = true;
            }
            i = i + 1;
        }
        assert(line_end(s, from as nat) == i);
        let ghost before = char_lists(out@);
        out.push(line);
        proof {
            line_end_moves(s, from as nat);
            assert(char_lists(out@) =~= before.push(s.subrange(from as int, i as int)));
            assert(char_lists(out@) + raw_lines_from(s, i as nat) =~= before + raw_lines_from(
                s,
                from as nat,
            ));
        }
    }
    assert(char_lists(out@) =~= raw_lines(s));
    out
}

/// A text without the white space before it.
pub open spec fn trim_start(s: Seq<char>) -> Seq<char>
    decreases s.len(),
{
    if s.len() > 0 && is_white(s[0]) {
        trim_start(s.drop_first())
    } else {
        s
    }
}

/// A text without the white space behind it.
pub open spec fn trim_end(s: Seq<char>) -> Seq<char>
    decreases s.len(),
{
    if s.len() > 0 && is_white(s.last()) {
        trim_end(s.drop_last())
    } else {
        s
    }
}

/// Whether a text is white space only.
pub open spec fn is_blank(s: Seq<char>) -> bool {
    forall|i: int| 0 <= i < s.len() ==> is_white(#[trigger] s[i])
}

/// The number of white characters at the start of the first `to` characters.
pub(crate) fn white_before(v: &Vec<char>, from: usize, to: usize) -> (r: usize)
    requires
        from <= to <= v@.len(),
    ensures
        from <= r <= to,
        trim_start(v@.subrange(from as int, to as int)) == v@.subrange(r as int, to as int),
        r == to <==> is_blank(v@.subrange(from as int, to as int)),
        forall|k: int| from <= k < r ==> is_white(#[trigger] v@[k]),
{
    let ghost s = v@.subrange(from as int, to as int);
    let mut i: usize = from;
    while i < to && white(v[i])
        invariant
            from <= i <= to <= v@.len(),
            s == v@.subrange(from as int, to as int),
            trim_start(s) == trim_start(v@.subrange(i as int, to as int)),
            forall|k: int| from <= k < i ==> is_white(#[trigger] v@[k]),
        decreases to - i,
    {
        let ghost rest = v@.subrange(i as int, to as int);
        assert(rest.drop_first() =~= v@.subrange(i + 1, to as int));
        i = i + 1;
    }
    proof {
        if i == to {
            assert(is_blank(s));
        } else {
            assert(s[i - from] == v@[i as int]);
        }
    }
    i
}

/// The end of a text without the white space behind it.
pub(crate) fn white_behind(v: &Vec<char>, from: usize, to: usize) -> (r: usize)
    requires
        from <= to <= v@.len(),
    ensures
        from <= r <= to,
        trim_end(v@.subrange(from as int, to as int)) == v@.subrange(from as int, r as int),
{
    let mut i: usize = to;
    while i > from && white(v[i - 1])
        invariant
            from <= i <= to <= v@.len(),
            trim_end(v@.subrange(from as int, to as int)) == trim_end(
                v@.subrange(from as int, i as int),
            ),
        decreases i,
    {
        let ghost rest = v@.subrange(from as int, i as int);
        assert(rest.drop_last() =~= v@.subrange(from as int, i - 1));
        i = i - 1;
    }
    i
}

/// The number of bytes of a character in UTF-8.
pub open spec fn char_width(c: char) -> nat {
    let n = c as int;
    if n < 0x80 {
        1
    } else if n < 0x800 {
        2
    } else if n < 0x10000 {
        3
    } else {
        4
    }
}

/// The number of bytes of a text in UTF-8.
pub open spec fn text_width(s: Seq<char>) -> nat
    decreases s.len(),
{
    if s.len() == 0 {
        0
    } else {
        text_width(s.drop_last()) + char_width(s.last())
    }
}

/// The number of bytes by which a line is indented.
pub open spec fn indent(line: Seq<char>) -> nat {
    text_width(line.take(line.len() - trim_start(line).len()))
}

} // verus!
