//! Formulas in the text of a RuleSpec module: reading one, and replacing one with
//! everything else left as it is.
use crate::catalog::{begins, is_white, trimmed};
use crate::lines::{
    chained, chained_splits, char_lists, char_width, chars_of, indent, is_blank, is_line, join,
    joined_by, line_break, line_text, line_text_len, lines_of_chained, raw_lines,
    raw_lines_are_lines, raw_lines_chain, split_lines, text_between, text_width, trim_end,
    trim_start, white_before, white_behind,
};
use crate::migrate::ends;
use crate::text::{owned, texts};
use vstd::prelude::*;
use vstd::string::*;

verus! {

/// What is asked of a line.
enum LineTest {
    /// It is this text, with white space around it.
    Is(Vec<char>),
    /// It starts a list item that is indented no more than this.
    ItemWithin(u128),
    /// It is not blank and indented no more than this.
    Within(u128),
    /// It starts with this text, behind white space.
    Starts(Vec<char>),
}

/// The model of a [`LineTest`].
pub ghost enum TestView {
    Is(Seq<char>),
    ItemWithin(nat),
    Within(nat),
    Starts(Seq<char>),
}

impl LineTest {
    spec fn view(&self) -> TestView {
        match *self {
            LineTest::Is(text) => TestView::Is(text@),
            LineTest::ItemWithin(n) => TestView::ItemWithin(n as nat),
            LineTest::Within(n) => TestView::Within(n as nat),
            LineTest::Starts(text) => TestView::Starts(text@),
        }
    }
}

/// Whether a line passes a test.
pub open spec fn passes(test: TestView, raw: Seq<char>) -> bool {
    let line = line_text(raw);
    match test {
        TestView::Is(text) => trim_end(trim_start(line)) == text,
        TestView::ItemWithin(n) => !is_blank(line) && indent(line) <= n && begins(
            trim_start(line),
            "- "@,
        ),
        TestView::Within(n) => !is_blank(line) && indent(line) <= n,
        TestView::Starts(text) => begins(trim_start(line), text),
    }
}

/// The first line from `from` to `to` that passes a test.
pub open spec fn first_line(lines: Seq<Seq<char>>, test: TestView, from: nat, to: nat) -> Option<nat>
    decreases to - from,
{
    if from >= to || from >= lines.len() {
        None
    } else if passes(test, lines[from as int]) {
        Some(from)
    } else {
        first_line(lines, test, from + 1, to)
    }
}

pub open spec fn or_end(found: Option<nat>, end: nat) -> nat {
    match found {
        Some(i) => i,
        None => end,
    }
}

/// The line from `from` to `to` that passes a test after `skip` others that do.
pub open spec fn later_line(
    lines: Seq<Seq<char>>,
    test: TestView,
    from: nat,
    to: nat,
    skip: nat,
) -> Option<nat>
    decreases to - from,
{
    if from >= to || from >= lines.len() {
        None
    } else if passes(test, lines[from as int]) {
        if skip == 0 {
            Some(from)
        } else {
            later_line(lines, test, from + 1, to, (skip - 1) as nat)
        }
    } else {
        later_line(lines, test, from + 1, to, skip)
    }
}

/// Where a formula stands.
pub ghost struct SiteView {
    /// The line of its key.
    pub line: nat,
    /// Whether it stands on the lines below.
    pub is_block: bool,
    /// The line behind it.
    pub end: nat,
}

pub open spec fn line_indent(lines: Seq<Seq<char>>, i: nat) -> nat {
    indent(line_text(lines[i as int]))
}

/// Whether a line announces a block of lines below.
pub open spec fn opens_block(raw: Seq<char>) -> bool {
    let line = trim_end(line_text(raw));
    ends(line, "|-"@) || ends(line, "|"@)
}

/// Where the formula of a version of a rule stands: the first list item with the rule's name,
/// in it the item of the version, in it the key of the formula.
pub open spec fn first_formula_site(lines: Seq<Seq<char>>, rule: Seq<char>, version: nat) -> Option<
    SiteView,
> {
    let named = TestView::Is("- name: "@ + rule);
    match first_line(lines, named, 0, lines.len()) {
        None => None,
        Some(start) => {
            let end = or_end(
                first_line(
                    lines,
                    TestView::ItemWithin(line_indent(lines, start)),
                    start + 1,
                    lines.len(),
                ),
                lines.len(),
            );
            match later_line(
                lines,
                TestView::Starts("- effective_from"@),
                start + 1,
                end,
                version,
            ) {
                None => None,
                Some(from) => {
                    let to = or_end(
                        first_line(
                            lines,
                            TestView::Within(line_indent(lines, from)),
                            from + 1,
                            end,
                        ),
                        end,
                    );
                    match first_line(lines, TestView::Starts("formula:"@), from, to) {
                        None => None,
                        Some(line) => {
                            let is_block = opens_block(lines[line as int]);
                            Some(
                                SiteView {
                                    line,
                                    is_block,
                                    end: if is_block {
                                        or_end(
                                            first_line(
                                                lines,
                                                TestView::Within(line_indent(lines, line)),
                                                line + 1,
                                                to,
                                            ),
                                            to,
                                        )
                                    } else {
                                        line + 1
                                    },
                                },
                            )
                        },
                    }
                },
            }
        },
    }
}

/// Whether two list items have a rule's name.
pub open spec fn is_named_twice(lines: Seq<Seq<char>>, rule: Seq<char>) -> bool {
    let named = TestView::Is("- name: "@ + rule);
    first_line(lines, named, 0, lines.len()) matches Some(start) && first_line(
        lines,
        named,
        start + 1,
        lines.len(),
    ) is Some
}

/// Where the formula of a version of a rule stands, where only one list item has the rule's
/// name.
pub open spec fn formula_site(lines: Seq<Seq<char>>, rule: Seq<char>, version: nat) -> Option<
    SiteView,
> {
    if is_named_twice(lines, rule) {
        None
    } else {
        first_formula_site(lines, rule, version)
    }
}

proof fn first_line_bounds(lines: Seq<Seq<char>>, test: TestView, from: nat, to: nat)
    ensures
        first_line(lines, test, from, to) matches Some(i) ==> from <= i < to && i < lines.len(),
    decreases to - from,
{
    if from < to && from < lines.len() && !passes(test, lines[from as int]) {
        first_line_bounds(lines, test, from + 1, to);
    }
}

proof fn later_line_bounds(lines: Seq<Seq<char>>, test: TestView, from: nat, to: nat, skip: nat)
    ensures
        later_line(lines, test, from, to, skip) matches Some(i) ==> from <= i < to && i
            < lines.len(),
    decreases to - from,
{
    if from < to && from < lines.len() {
        if passes(test, lines[from as int]) {
            if skip > 0 {
                later_line_bounds(lines, test, from + 1, to, (skip - 1) as nat);
            }
        } else {
            later_line_bounds(lines, test, from + 1, to, skip);
        }
    }
}

/// A formula stands on lines of the text.
pub proof fn formula_site_bounds(lines: Seq<Seq<char>>, rule: Seq<char>, version: nat)
    ensures
        first_formula_site(lines, rule, version) matches Some(site) ==> site.line < site.end
            <= lines.len(),
{
    let named = TestView::Is("- name: "@ + rule);
    first_line_bounds(lines, named, 0, lines.len());
    if let Some(start) = first_line(lines, named, 0, lines.len()) {
        let item = TestView::ItemWithin(line_indent(lines, start));
        first_line_bounds(lines, item, start + 1, lines.len());
        let end = or_end(first_line(lines, item, start + 1, lines.len()), lines.len());
        let dated = TestView::Starts("- effective_from"@);
        later_line_bounds(lines, dated, start + 1, end, version);
        if let Some(from) = later_line(lines, dated, start + 1, end, version) {
            let within = TestView::Within(line_indent(lines, from));
            first_line_bounds(lines, within, from + 1, end);
            let to = or_end(first_line(lines, within, from + 1, end), end);
            let key = TestView::Starts("formula:"@);
            first_line_bounds(lines, key, from, to);
            if let Some(line) = first_line(lines, key, from, to) {
                first_line_bounds(
                    lines,
                    TestView::Within(line_indent(lines, line)),
                    line + 1,
                    to,
                );
            }
        }
    }
}

/// The number of bytes of a character in UTF-8.
fn width_of(c: char) -> (r: u128)
    ensures
        r == char_width(c),
        r <= 4,
{
    let n = c as u32;
    if n < 0x80 {
        1
    } else if n < 0x800 {
        2
    } else if n < 0x10000 {
        3
    } else {
        4
    }
}

fn width_to(v: &Vec<char>, to: usize) -> (r: u128)
    requires
        to <= v@.len(),
    ensures
        r == text_width(v@.take(to as int)),
{
    let mut width: u128 = 0;
    let mut i: usize = 0;
    assert(v@.take(0) =~= Seq::empty());
    while i < to
        invariant
            i <= to <= v@.len(),
            width == text_width(v@.take(i as int)),
            width <= 4 * i,
        decreases to - i,
    {
        assert(v@.take(i + 1).drop_last() =~= v@.take(i as int));
        width = width + width_of(v[i]);
        i = i + 1;
    }
    width
}

/// The indentation of a line, and where its text starts.
fn indent_of(raw: &Vec<char>) -> (r: u128)
    ensures
        r == indent(line_text(raw@)),
{
    let len = line_text_len(raw);
    let ghost line = line_text(raw@);
    let start = white_before(raw, 0, len);
    proof {
        assert(raw@.subrange(0, len as int) =~= line);
        assert(trim_start(line).len() == len - start);
        assert(line.take(start as int) =~= raw@.take(start as int));
    }
    width_to(raw, start)
}

fn begins_at(v: &Vec<char>, from: usize, to: usize, prefix: &Vec<char>) -> (r: bool)
    requires
        from <= to <= v@.len(),
    ensures
        r == begins(v@.subrange(from as int, to as int), prefix@),
{
    let ghost s = v@.subrange(from as int, to as int);
    if prefix.len() > to - from {
        return false;
    }
    let mut i: usize = 0;
    while i < prefix.len()
        invariant
            i <= prefix@.len() <= to - from,
            from <= to <= v@.len(),
            s == v@.subrange(from as int, to as int),
            forall|j: int| 0 <= j < i ==> s[j] == #[trigger] prefix@[j],
        decreases prefix@.len() - i,
    {
        if v[from + i] != prefix[i] {
            assert(s.take(prefix@.len() as int)[i as int] != prefix@[i as int]);
            return false;
        }
        i = i + 1;
    }
    assert(s.take(prefix@.len() as int) =~= prefix@);
    true
}

fn is_text(v: &Vec<char>, from: usize, to: usize, text: &Vec<char>) -> (r: bool)
    requires
        from <= to <= v@.len(),
    ensures
        r == (v@.subrange(from as int, to as int) == text@),
{
    let ghost s = v@.subrange(from as int, to as int);
    let same_start = begins_at(v, from, to, text);
    proof {
        if same_start && text@.len() == to - from {
            assert(s.take(text@.len() as int) =~= s);
        }
        if s == text@ {
            assert(s.take(text@.len() as int) =~= s);
        }
    }
    text.len() == to - from && same_start
}

fn line_passes(test: &LineTest, raw: &Vec<char>) -> (r: bool)
    ensures
        r == passes(test@, raw@),
{
    let len = line_text_len(raw);
    let ghost line = line_text(raw@);
    let start = white_before(raw, 0, len);
    assert(raw@.subrange(0, len as int) =~= line);
    match test {
        LineTest::Is(text) => {
            let end = white_behind(raw, start, len);
            is_text(raw, start, end, text)
        },
        LineTest::ItemWithin(n) => {
            start < len && indent_of(raw) <= *n && begins_at(raw, start, len, &chars_of("- "))
        },
        LineTest::Within(n) => start < len && indent_of(raw) <= *n,
        LineTest::Starts(text) => begins_at(raw, start, len, text),
    }
}

fn find_line(lines: &Vec<Vec<char>>, test: &LineTest, from: usize, to: usize) -> (r: Option<usize>)
    requires
        to <= lines@.len(),
    ensures
        first_line(char_lists(lines@), test@, from as nat, to as nat) == match r {
            Some(i) => Some(i as nat),
            None => None,
        },
        r matches Some(i) ==> from <= i < to,
{
    let ghost all = char_lists(lines@);
    let mut i: usize = from;
    while i < to
        invariant
            from <= i,
            to <= lines@.len(),
            i <= to || i == from,
            all == char_lists(lines@),
            first_line(all, test@, from as nat, to as nat) == first_line(
                all,
                test@,
                i as nat,
                to as nat,
            ),
        decreases to - i,
    {
        assert(all[i as int] == lines@[i as int]@);
        if line_passes(test, &lines[i]) {
            return Some(i);
        }
        i = i + 1;
    }
    None
}

fn find_later_line(
    lines: &Vec<Vec<char>>,
    test: &LineTest,
    from: usize,
    to: usize,
    skip: usize,
) -> (r: Option<usize>)
    requires
        to <= lines@.len(),
    ensures
        later_line(char_lists(lines@), test@, from as nat, to as nat, skip as nat) == match r {
            Some(i) => Some(i as nat),
            None => None,
        },
        r matches Some(i) ==> from <= i < to,
{
    let ghost all = char_lists(lines@);
    let mut left: usize = skip;
    let mut i: usize = from;
    while i < to
        invariant
            from <= i,
            to <= lines@.len(),
            i <= to || i == from,
            all == char_lists(lines@),
            later_line(all, test@, from as nat, to as nat, skip as nat) == later_line(
                all,
                test@,
                i as nat,
                to as nat,
                left as nat,
            ),
        decreases to - i,
    {
        assert(all[i as int] == lines@[i as int]@);
        if line_passes(test, &lines[i]) {
            if left == 0 {
                return Some(i);
            }
            left = left - 1;
        }
        i = i + 1;
    }
    None
}

fn ends_at(v: &Vec<char>, to: usize, suffix: &Vec<char>) -> (r: bool)
    requires
        to <= v@.len(),
    ensures
        r == ends(v@.take(to as int), suffix@),
{
    let n = suffix.len();
    if n > to {
        return false;
    }
    let ghost s = v@.take(to as int);
    assert(s.skip(to - n) =~= v@.subrange(to - n, to as int));
    is_text(v, to - n, to, suffix)
}

fn line_opens_block(raw: &Vec<char>) -> (r: bool)
    ensures
        r == opens_block(raw@),
{
    let len = line_text_len(raw);
    let end = white_behind(raw, 0, len);
    proof {
        assert(raw@.subrange(0, len as int) =~= line_text(raw@));
        assert(raw@.subrange(0, end as int) =~= raw@.take(end as int));
    }
    ends_at(raw, end, &chars_of("|-")) || ends_at(raw, end, &chars_of("|"))
}

struct Site {
    line: usize,
    is_block: bool,
    end: usize,
}

impl Site {
    spec fn view(&self) -> SiteView {
        SiteView { line: self.line as nat, is_block: self.is_block, end: self.end as nat }
    }
}

fn find_formula(lines: &Vec<Vec<char>>, rule: &str, version: usize) -> (r: Option<Site>)
    ensures
        formula_site(char_lists(lines@), rule@, version as nat) == match r {
            Some(site) => Some(site@),
            None => None,
        },
        r matches Some(site) ==> site.line < site.end <= lines@.len(),
{
    let mut marker = owned("- name: ");
    marker.append(rule);
    let named = LineTest::Is(chars_of(marker.as_str()));
    if let Some(start) = find_line(lines, &named, 0, lines.len()) {
        if find_line(lines, &named, start + 1, lines.len()).is_some() {
            return None;
        }
    }
    find_first_formula(lines, rule, version)
}

fn find_first_formula(lines: &Vec<Vec<char>>, rule: &str, version: usize) -> (r: Option<Site>)
    ensures
        first_formula_site(char_lists(lines@), rule@, version as nat) == match r {
            Some(site) => Some(site@),
            None => None,
        },
        r matches Some(site) ==> site.line < site.end <= lines@.len(),
{
    let ghost all = char_lists(lines@);
    let n = lines.len();
    proof {
        formula_site_bounds(all, rule@, version as nat);
    }
    let mut marker = owned("- name: ");
    marker.append(rule);
    let named = LineTest::Is(chars_of(marker.as_str()));
    let start = match find_line(lines, &named, 0, n) {
        Some(start) => start,
        None => {
            return None;
        },
    };
    assert(all[start as int] == lines@[start as int]@);
    let end = match find_line(
        lines,
        &LineTest::ItemWithin(indent_of(&lines[start])),
        start + 1,
        n,
    ) {
        Some(end) => end,
        None => n,
    };
    let from = match find_later_line(
        lines,
        &LineTest::Starts(chars_of("- effective_from")),
        start + 1,
        end,
        version,
    ) {
        Some(from) => from,
        None => {
            return None;
        },
    };
    assert(all[from as int] == lines@[from as int]@);
    let to = match find_line(lines, &LineTest::Within(indent_of(&lines[from])), from + 1, end) {
        Some(to) => to,
        None => end,
    };
    let line = match find_line(lines, &LineTest::Starts(chars_of("formula:")), from, to) {
        Some(line) => line,
        None => {
            return None;
        },
    };
    assert(all[line as int] == lines@[line as int]@);
    let is_block = line_opens_block(&lines[line]);
    let behind = if is_block {
        match find_line(lines, &LineTest::Within(indent_of(&lines[line])), line + 1, to) {
            Some(behind) => behind,
            None => to,
        }
    } else {
        line + 1
    };
    Some(Site { line, is_block, end: behind })
}

/// Spaces.
pub open spec fn spaces(n: nat) -> Seq<char> {
    Seq::new(n, |i: int| ' ')
}

/// The text of a module with a formula replaced.
pub open spec fn replaced(source: Seq<char>, site: SiteView, replacement: Seq<char>) -> Seq<char> {
    let lines = raw_lines(source);
    chained(lines.take(site.line as int)) + spaces(line_indent(lines, site.line)) + "formula: "@
        + replacement + line_break(lines[site.end - 1]) + chained(lines.skip(site.end as int))
}

fn push_lines(text: &mut String, lines: &Vec<Vec<char>>, from: usize, to: usize)
    requires
        from <= to <= lines@.len(),
    ensures
        final(text)@ == old(text)@ + chained(char_lists(lines@).subrange(from as int, to as int)),
{
    let ghost all = char_lists(lines@);
    let ghost start = text@;
    let mut i: usize = from;
    assert(all.subrange(from as int, from as int) =~= Seq::empty());
    assert(text@ =~= start + chained(all.subrange(from as int, from as int)));
    while i < to
        invariant
            from <= i <= to <= lines@.len(),
            all == char_lists(lines@),
            text@ == start + chained(all.subrange(from as int, i as int)),
        decreases to - i,
    {
        let line = &lines[i];
        text.append(text_between(line, 0, line.len()).as_str());
        proof {
            let longer = all.subrange(from as int, i + 1);
            assert(line@.subrange(0, line@.len() as int) =~= line@);
            chained_splits(longer, (i - from) as nat);
            assert(longer.take(i - from) =~= all.subrange(from as int, i as int));
            let tail = longer.skip(i - from);
            assert(tail =~= seq![line@]);
            assert(chained(tail.drop_first()) =~= Seq::<char>::empty());
            assert(chained(tail) =~= tail[0] + chained(tail.drop_first()));
            assert(chained(tail) =~= line@);
            assert(text@ =~= start + chained(longer));
        }
        i = i + 1;
    }
}

/// Replaces the formula of a version of a rule in the text of a module, and leaves
/// everything else as it is. Nothing where there is no such formula, or more than one rule of
/// that name.
pub fn replace_version_formula(
    source: &str,
    rule: &str,
    version_index: usize,
    replacement: &str,
) -> (r: Option<String>)
    ensures
        match formula_site(raw_lines(source@), rule@, version_index as nat) {
            None => r is None,
            Some(site) => match r {
                Some(text) => text@ == replaced(source@, site, replacement@),
                None => false,
            },
        },
{
    let chars = chars_of(source);
    let lines = split_lines(&chars);
    let ghost all = raw_lines(source@);
    let site = match find_formula(&lines, rule, version_index) {
        Some(site) => site,
        None => {
            return None;
        },
    };
    let mut text = String::new();
    push_lines(&mut text, &lines, 0, site.line);
    let ghost first = text@;
    proof {
        assert(first =~= chained(all.take(site.line as int))) by {
            assert(all.subrange(0, site.line as int) =~= all.take(site.line as int));
        }
        assert(all[site.line as int] == lines@[site.line as int]@);
    }
    let depth = indent_of(&lines[site.line]);
    let mut i: u128 = 0;
    assert(text@ =~= first + spaces(0));
    while i < depth
        invariant
            i <= depth,
            text@ == first + spaces(i as nat),
        decreases depth - i,
    {
        text.push(' ');
        i = i + 1;
        assert(text@ =~= first + spaces(i as nat));
    }
    text.append("formula: ");
    text.append(replacement);
    let last = &lines[site.end - 1];
    let from = line_text_len(last);
    text.append(text_between(last, from, last.len()).as_str());
    proof {
        assert(all[site.end - 1] == last@);
        assert(last@.subrange(from as int, last@.len() as int) =~= line_break(last@));
    }
    push_lines(&mut text, &lines, site.end, lines.len());
    assert(all.subrange(site.end as int, all.len() as int) =~= all.skip(site.end as int));
    Some(text)
}

/// A replacement leaves what stands before the formula's line, and behind the formula's
/// last line, as it is.
pub proof fn replacement_keeps_the_rest(
    source: Seq<char>,
    rule: Seq<char>,
    version: nat,
    replacement: Seq<char>,
)
    requires
        formula_site(raw_lines(source), rule, version) is Some,
    ensures
        ({
            let lines = raw_lines(source);
            let site = formula_site(lines, rule, version)->Some_0;
            let before = chained(lines.take(site.line as int));
            let behind = chained(lines.skip(site.end as int));
            let old_part = chained(lines.subrange(site.line as int, site.end as int));
            let new_part = spaces(line_indent(lines, site.line)) + "formula: "@ + replacement
                + line_break(lines[site.end - 1]);
            &&& source == before + old_part + behind
            &&& replaced(source, site, replacement) == before + new_part + behind
        }),
{
    let lines = raw_lines(source);
    formula_site_bounds(lines, rule, version);
    let site = formula_site(lines, rule, version)->Some_0;
    raw_lines_chain(source);
    chained_splits(lines, site.end);
    let front = lines.take(site.end as int);
    chained_splits(front, site.line);
    assert(front.take(site.line as int) =~= lines.take(site.line as int));
    assert(front.skip(site.line as int) =~= lines.subrange(site.line as int, site.end as int));
    let before = chained(lines.take(site.line as int));
    let behind = chained(lines.skip(site.end as int));
    let new_part = spaces(line_indent(lines, site.line)) + "formula: "@ + replacement + line_break(
        lines[site.end - 1],
    );
    assert(replaced(source, site, replacement) =~= before + new_part + behind);
}

/// The least indentation of the lines from `from` to `to` that are not blank.
pub open spec fn least_indent(lines: Seq<Seq<char>>, from: nat, to: nat) -> Option<nat>
    decreases to - from,
{
    if from >= to || to > lines.len() {
        None
    } else {
        let rest = least_indent(lines, from, (to - 1) as nat);
        let line = line_text(lines[to - 1]);
        if is_blank(line) {
            rest
        } else {
            match rest {
                Some(n) if n <= indent(line) => rest,
                _ => Some(indent(line)),
            }
        }
    }
}

/// What follows the first `width` bytes; nothing where they end inside a character.
pub open spec fn behind_width(s: Seq<char>, width: int) -> Option<Seq<char>>
    decreases s.len(),
{
    if width == 0 {
        Some(s)
    } else if width < 0 || s.len() == 0 {
        None
    } else {
        behind_width(s.drop_first(), width - char_width(s[0]))
    }
}

/// A line of a block without the block's indentation.
pub open spec fn unindented(line: Seq<char>, depth: nat) -> Seq<char> {
    if text_width(line) >= depth {
        match behind_width(line, depth as int) {
            Some(rest) => rest,
            None => Seq::empty(),
        }
    } else {
        trim_start(line)
    }
}

/// The lines from `from` to `to` without their indentation.
pub open spec fn block_lines(lines: Seq<Seq<char>>, from: nat, to: nat, depth: nat) -> Seq<Seq<char>>
    decreases to - from,
{
    if from >= to || to > lines.len() {
        Seq::empty()
    } else {
        block_lines(lines, from, (to - 1) as nat, depth).push(
            unindented(line_text(lines[to - 1]), depth),
        )
    }
}

/// A text without a prefix, however often it stands there.
pub open spec fn without_prefix(s: Seq<char>, prefix: Seq<char>) -> Seq<char>
    decreases s.len(),
{
    if prefix.len() > 0 && begins(s, prefix) {
        without_prefix(s.skip(prefix.len() as int), prefix)
    } else {
        s
    }
}

/// A text without the quotes before it.
pub open spec fn unquoted_start(s: Seq<char>) -> Seq<char>
    decreases s.len(),
{
    if s.len() > 0 && s[0] == '"' {
        unquoted_start(s.drop_first())
    } else {
        s
    }
}

/// A text without the quotes behind it.
pub open spec fn unquoted_end(s: Seq<char>) -> Seq<char>
    decreases s.len(),
{
    if s.len() > 0 && s.last() == '"' {
        unquoted_end(s.drop_last())
    } else {
        s
    }
}

pub open spec fn block_depth(lines: Seq<Seq<char>>, site: SiteView) -> nat {
    or_end(least_indent(lines, site.line + 1, site.end), 0)
}

/// The formula at a site.
pub open spec fn formula_at(lines: Seq<Seq<char>>, site: SiteView) -> Seq<char> {
    if site.is_block {
        let body = block_lines(lines, site.line + 1, site.end, block_depth(lines, site));
        joined_by(body, body.len(), "\n"@)
    } else {
        let line = trim_start(line_text(lines[site.line as int]));
        unquoted_end(
            unquoted_start(trim_end(trim_start(without_prefix(line, "formula:"@)))),
        )
    }
}

/// Whether the indentation of a block ends between two characters of each of its lines.
/// White space of several bytes can stand in the way.
pub open spec fn is_cut_cleanly(lines: Seq<Seq<char>>, site: SiteView) -> bool {
    site.is_block ==> forall|i: int|
        site.line < i < site.end && text_width(line_text(#[trigger] lines[i])) >= block_depth(
            lines,
            site,
        ) ==> behind_width(line_text(lines[i]), block_depth(lines, site) as int) is Some
}

fn find_least_indent(lines: &Vec<Vec<char>>, from: usize, to: usize) -> (r: u128)
    requires
        from <= to <= lines@.len(),
    ensures
        r == or_end(least_indent(char_lists(lines@), from as nat, to as nat), 0),
{
    let ghost all = char_lists(lines@);
    let mut least: Option<u128> = None;
    let mut i: usize = from;
    while i < to
        invariant
            from <= i <= to <= lines@.len(),
            all == char_lists(lines@),
            least_indent(all, from as nat, i as nat) == match least {
                Some(n) => Some(n as nat),
                None => None,
            },
        decreases to - i,
    {
        let line = &lines[i];
        assert(all[i as int] == line@);
        let len = line_text_len(line);
        let start = white_before(line, 0, len);
        assert(line@.subrange(0, len as int) =~= line_text(line@));
        if start < len {
            let depth = indent_of(line);
            least = match least {
                Some(n) => {
                    if n <= depth {
                        Some(n)
                    } else {
                        Some(depth)
                    }
                },
                None => Some(depth),
            };
        }
        i = i + 1;
    }
    match least {
        Some(n) => n,
        None => 0,
    }
}

/// The place behind the first `width` bytes of the first `len` characters.
fn place_behind(v: &Vec<char>, len: usize, width: u128) -> (r: Option<usize>)
    requires
        len <= v@.len(),
    ensures
        behind_width(v@.take(len as int), width as int) == match r {
            Some(i) => Some(v@.subrange(i as int, len as int)),
            None => None,
        },
        r matches Some(i) ==> i <= len,
{
    let mut left: u128 = width;
    let mut i: usize = 0;
    assert(v@.subrange(0, len as int) =~= v@.take(len as int));
    while left > 0
        invariant
            i <= len <= v@.len(),
            behind_width(v@.take(len as int), width as int) == behind_width(
                v@.subrange(i as int, len as int),
                left as int,
            ),
        decreases len - i,
    {
        if i >= len {
            return None;
        }
        let w = width_of(v[i]);
        let ghost rest = v@.subrange(i as int, len as int);
        assert(rest.drop_first() =~= v@.subrange(i + 1, len as int));
        if w > left {
            assert(behind_width(rest.drop_first(), left - w) is None);
            return None;
        }
        left = left - w;
        i = i + 1;
    }
    Some(i)
}

fn unindent(raw: &Vec<char>, depth: u128) -> (r: String)
    ensures
        r@ == unindented(line_text(raw@), depth as nat),
{
    let len = line_text_len(raw);
    let ghost line = line_text(raw@);
    assert(raw@.take(len as int) =~= line);
    assert(raw@.subrange(0, len as int) =~= line);
    if width_to(raw, len) >= depth {
        match place_behind(raw, len, depth) {
            Some(i) => text_between(raw, i, len),
            None => {
                let empty = String::new();
                assert(empty@ =~= Seq::<char>::empty());
                empty
            },
        }
    } else {
        let start = white_before(raw, 0, len);
        text_between(raw, start, len)
    }
}

/// Whether the formula of a version of a rule can be cut out of the text of a module: it
/// is there, and the indentation of its block ends between characters.
pub fn has_clean_formula(source: &str, rule: &str, version_index: usize) -> (r: bool)
    ensures
        r == match first_formula_site(raw_lines(source@), rule@, version_index as nat) {
            Some(site) => is_cut_cleanly(raw_lines(source@), site),
            None => true,
        },
{
    let chars = chars_of(source);
    let lines = split_lines(&chars);
    let ghost all = raw_lines(source@);
    let site = match find_first_formula(&lines, rule, version_index) {
        Some(site) => site,
        None => {
            return true;
        },
    };
    if !site.is_block {
        return true;
    }
    let depth = find_least_indent(&lines, site.line + 1, site.end);
    let mut i: usize = site.line + 1;
    while i < site.end
        invariant
            site.line < i <= site.end <= lines@.len(),
            site.is_block,
            all == char_lists(lines@),
            all == raw_lines(source@),
            first_formula_site(all, rule@, version_index as nat) == Some(site@),
            depth == block_depth(all, site@),
            forall|j: int|
                site.line < j < i && text_width(line_text(#[trigger] all[j])) >= depth
                    ==> behind_width(line_text(all[j]), depth as int) is Some,
        decreases site.end - i,
    {
        let line = &lines[i];
        let len = line_text_len(line);
        assert(all[i as int] == line@);
        assert(line@.take(len as int) =~= line_text(line@));
        if width_to(line, len) >= depth && place_behind(line, len, depth).is_none() {
            assert(!is_cut_cleanly(all, site@));
            return false;
        }
        i = i + 1;
    }
    true
}

fn skip_prefix(v: &Vec<char>, from: usize, to: usize, prefix: &Vec<char>) -> (r: usize)
    requires
        from <= to <= v@.len(),
    ensures
        from <= r <= to,
        without_prefix(v@.subrange(from as int, to as int), prefix@) == v@.subrange(
            r as int,
            to as int,
        ),
{
    let mut i: usize = from;
    while prefix.len() > 0 && begins_at(v, i, to, prefix)
        invariant
            from <= i <= to <= v@.len(),
            without_prefix(v@.subrange(from as int, to as int), prefix@) == without_prefix(
                v@.subrange(i as int, to as int),
                prefix@,
            ),
        decreases to - i,
    {
        let ghost rest = v@.subrange(i as int, to as int);
        assert(rest.skip(prefix@.len() as int) =~= v@.subrange(i + prefix@.len(), to as int));
        i = i + prefix.len();
    }
    i
}

fn skip_quotes(v: &Vec<char>, from: usize, to: usize) -> (r: (usize, usize))
    requires
        from <= to <= v@.len(),
    ensures
        from <= r.0 <= r.1 <= to,
        unquoted_end(unquoted_start(v@.subrange(from as int, to as int))) == v@.subrange(
            r.0 as int,
            r.1 as int,
        ),
{
    let mut i: usize = from;
    while i < to && v[i] == '"'
        invariant
            from <= i <= to <= v@.len(),
            unquoted_start(v@.subrange(from as int, to as int)) == unquoted_start(
                v@.subrange(i as int, to as int),
            ),
        decreases to - i,
    {
        let ghost rest = v@.subrange(i as int, to as int);
        assert(rest.drop_first() =~= v@.subrange(i + 1, to as int));
        i = i + 1;
    }
    let mut j: usize = to;
    assert(unquoted_start(v@.subrange(from as int, to as int)) == v@.subrange(i as int, to as int));
    while j > i && v[j - 1] == '"'
        invariant
            from <= i <= j <= to <= v@.len(),
            unquoted_end(unquoted_start(v@.subrange(from as int, to as int))) == unquoted_end(
                v@.subrange(i as int, j as int),
            ),
        decreases j,
    {
        let ghost rest = v@.subrange(i as int, j as int);
        assert(rest.drop_last() =~= v@.subrange(i as int, j - 1));
        j = j - 1;
    }
    (i, j)
}

/// The formula of a version of a rule in the text of a module, that of the first rule with the
/// name: a block without its indentation, or what follows the key, without quotes.
pub fn extract_version_formula(source: &str, rule: &str, version_index: usize) -> (r: Option<String>)
    requires
        match first_formula_site(raw_lines(source@), rule@, version_index as nat) {
            Some(site) => is_cut_cleanly(raw_lines(source@), site),
            None => true,
        },
    ensures
        match first_formula_site(raw_lines(source@), rule@, version_index as nat) {
            None => r is None,
            Some(site) => match r {
                Some(text) => text@ == formula_at(raw_lines(source@), site),
                None => false,
            },
        },
{
    let chars = chars_of(source);
    let lines = split_lines(&chars);
    let ghost all = raw_lines(source@);
    let site = match find_first_formula(&lines, rule, version_index) {
        Some(site) => site,
        None => {
            return None;
        },
    };
    if site.is_block {
        let depth = find_least_indent(&lines, site.line + 1, site.end);
        let mut body: Vec<String> = Vec::new();
        let mut i: usize = site.line + 1;
        assert(texts(body@) =~= block_lines(all, i as nat, i as nat, depth as nat));
        while i < site.end
            invariant
                site.line < i <= site.end <= lines@.len(),
                all == char_lists(lines@),
                texts(body@) == block_lines(
                    all,
                    (site.line + 1) as nat,
                    i as nat,
                    depth as nat,
                ),
            decreases site.end - i,
        {
            assert(all[i as int] == lines@[i as int]@);
            let ghost before = body@;
            let line = unindent(&lines[i], depth);
            body.push(line);
            assert(texts(body@) =~= texts(before).push(line@));
            i = i + 1;
        }
        assert(body@.len() == texts(body@).len());
        return Some(join(&body, "\n"));
    }
    let line = &lines[site.line];
    assert(all[site.line as int] == line@);
    let len = line_text_len(line);
    assert(line@.subrange(0, len as int) =~= line_text(line@));
    let start = white_before(line, 0, len);
    let behind = skip_prefix(line, start, len, &chars_of("formula:"));
    let from = white_before(line, behind, len);
    let to = white_behind(line, from, len);
    let (a, b) = skip_quotes(line, from, to);
    Some(text_between(line, a, b))
}

/// The text of a module with one rule that has the formula.
pub open spec fn probe_text(formula: Seq<char>) -> Seq<char> {
    let lines = probe_lines(raw_lines(formula), raw_lines(formula).len());
    "format: rulespec/v1\nrules:\n  - name: migration_probe\n    kind: derived\n    entity: Household\n    dtype: Judgment\n    versions:\n      - effective_from: 2026-01-01\n        formula: |-\n"@
        + joined_by(lines, lines.len(), "\n"@) + "\n"@
}

/// The first `n` lines, indented.
pub open spec fn probe_lines(lines: Seq<Seq<char>>, n: nat) -> Seq<Seq<char>>
    decreases n,
{
    if n == 0 || n > lines.len() {
        Seq::empty()
    } else {
        probe_lines(lines, (n - 1) as nat).push("          "@ + line_text(lines[n - 1]))
    }
}

/// The text of a module with one rule that has the formula.
pub fn probe_module(formula: &str) -> (r: String)
    ensures
        r@ == probe_text(formula@),
{
    let chars = chars_of(formula);
    let lines = split_lines(&chars);
    let ghost all = raw_lines(formula@);
    let mut body: Vec<String> = Vec::new();
    let mut i: usize = 0;
    assert(texts(body@) =~= probe_lines(all, 0));
    while i < lines.len()
        invariant
            i <= lines@.len(),
            all == char_lists(lines@),
            texts(body@) == probe_lines(all, i as nat),
        decreases lines@.len() - i,
    {
        let line = &lines[i];
        assert(all[i as int] == line@);
        let len = line_text_len(line);
        let ghost before = body@;
        let mut text = owned("          ");
        text.append(text_between(line, 0, len).as_str());
        assert(line@.subrange(0, len as int) =~= line_text(line@));
        body.push(text);
        assert(texts(body@) =~= texts(before).push(text@));
        i = i + 1;
    }
    let mut text = owned(
        "format: rulespec/v1\nrules:\n  - name: migration_probe\n    kind: derived\n    entity: Household\n    dtype: Judgment\n    versions:\n      - effective_from: 2026-01-01\n        formula: |-\n",
    );
    assert(body@.len() == texts(body@).len());
    text.append(join(&body, "\n").as_str());
    text.append("\n");
    text
}

/// Lines with some of them replaced by one.
pub open spec fn with_line(lines: Seq<Seq<char>>, line: nat, end: nat, new_line: Seq<char>) -> Seq<
    Seq<char>,
> {
    lines.take(line as int).push(new_line) + lines.skip(end as int)
}

/// Where neither the new line nor those that it replaces pass a test, the first line that
/// passes is found as before: at its place, or moved with the lines behind.
proof fn first_line_moves(
    lines: Seq<Seq<char>>,
    test: TestView,
    from: nat,
    to: nat,
    line: nat,
    end: nat,
    new_line: Seq<char>,
)
    requires
        from <= line < end <= to <= lines.len(),
        !passes(test, new_line),
        forall|i: int| line <= i < end ==> !passes(test, #[trigger] lines[i]),
    ensures
        ({
            let moved = with_line(lines, line, end, new_line);
            let gap = (end - line - 1) as nat;
            first_line(moved, test, from, (to - gap) as nat) == match first_line(
                lines,
                test,
                from,
                to,
            ) {
                Some(i) => Some(
                    if i < line {
                        i
                    } else {
                        (i - gap) as nat
                    },
                ),
                None => None,
            }
        }),
    decreases line - from,
{
    let moved = with_line(lines, line, end, new_line);
    let gap = (end - line - 1) as nat;
    if from < line {
        assert(moved[from as int] == lines[from as int]);
        if !passes(test, lines[from as int]) {
            first_line_moves(lines, test, from + 1, to, line, end, new_line);
        }
    } else {
        assert(moved[line as int] == new_line);
        skip_failing(lines, test, line, end, to);
        first_line_behind(lines, test, end, to, line, end, new_line);
    }
}

/// Lines that do not pass are passed over.
proof fn skip_failing(lines: Seq<Seq<char>>, test: TestView, from: nat, end: nat, to: nat)
    requires
        from <= end <= to <= lines.len(),
        forall|i: int| from <= i < end ==> !passes(test, #[trigger] lines[i]),
    ensures
        first_line(lines, test, from, to) == first_line(lines, test, end, to),
    decreases end - from,
{
    if from < end {
        assert(!passes(test, lines[from as int]));
        skip_failing(lines, test, from + 1, end, to);
    }
}

proof fn first_line_behind(
    lines: Seq<Seq<char>>,
    test: TestView,
    from: nat,
    to: nat,
    line: nat,
    end: nat,
    new_line: Seq<char>,
)
    requires
        line < end <= from <= to <= lines.len(),
    ensures
        ({
            let moved = with_line(lines, line, end, new_line);
            let gap = (end - line - 1) as nat;
            first_line(moved, test, (from - gap) as nat, (to - gap) as nat) == match first_line(
                lines,
                test,
                from,
                to,
            ) {
                Some(i) => Some((i - gap) as nat),
                None => None,
            }
        }),
        first_line(lines, test, from, to) matches Some(i) ==> i >= end,
    decreases to - from,
{
    let moved = with_line(lines, line, end, new_line);
    let gap = (end - line - 1) as nat;
    if from < to {
        assert(moved[from - gap] == lines[from as int]);
        if !passes(test, lines[from as int]) {
            first_line_behind(lines, test, from + 1, to, line, end, new_line);
        }
    }
}

/// A line that is found before the replaced ones is found as before.
proof fn later_line_stays(
    lines: Seq<Seq<char>>,
    test: TestView,
    from: nat,
    to: nat,
    skip: nat,
    line: nat,
    end: nat,
    new_line: Seq<char>,
    to_moved: nat,
)
    requires
        later_line(lines, test, from, to, skip) matches Some(i) && i < line,
        line < end <= to <= lines.len(),
        line < to_moved,
    ensures
        later_line(with_line(lines, line, end, new_line), test, from, to_moved, skip)
            == later_line(lines, test, from, to, skip),
    decreases to - from,
{
    let moved = with_line(lines, line, end, new_line);
    later_line_bounds(lines, test, from, to, skip);
    assert(from < line);
    assert(moved[from as int] == lines[from as int]);
    if passes(test, lines[from as int]) {
        if skip > 0 {
            later_line_stays(
                lines,
                test,
                from + 1,
                to,
                (skip - 1) as nat,
                line,
                end,
                new_line,
                to_moved,
            );
        }
    } else {
        later_line_stays(lines, test, from + 1, to, skip, line, end, new_line, to_moved);
    }
}

/// Lines before the first that passes do not pass.
proof fn none_before(lines: Seq<Seq<char>>, test: TestView, from: nat, to: nat, i: int)
    requires
        from <= i < or_end(first_line(lines, test, from, to), to),
        i < lines.len(),
    ensures
        !passes(test, lines[i]),
    decreases to - from,
{
    first_line_bounds(lines, test, from, to);
    if from < i {
        if !passes(test, lines[from as int]) {
            none_before(lines, test, from + 1, to, i);
        }
    }
}

proof fn first_line_passes(lines: Seq<Seq<char>>, test: TestView, from: nat, to: nat)
    ensures
        first_line(lines, test, from, to) matches Some(i) ==> passes(test, lines[i as int]),
    decreases to - from,
{
    if from < to && from < lines.len() && !passes(test, lines[from as int]) {
        first_line_passes(lines, test, from + 1, to);
    }
}

proof fn later_line_passes(lines: Seq<Seq<char>>, test: TestView, from: nat, to: nat, skip: nat)
    ensures
        later_line(lines, test, from, to, skip) matches Some(i) ==> passes(test, lines[i as int]),
    decreases to - from,
{
    if from < to && from < lines.len() {
        if passes(test, lines[from as int]) {
            if skip > 0 {
                later_line_passes(lines, test, from + 1, to, (skip - 1) as nat);
            }
        } else {
            later_line_passes(lines, test, from + 1, to, skip);
        }
    }
}

/// Spaces before a text that starts with none are what is trimmed off.
proof fn spaces_trim(n: nat, s: Seq<char>)
    requires
        s.len() > 0,
        !is_white(s[0]),
    ensures
        trim_start(spaces(n) + s) == s,
    decreases n,
{
    let t = spaces(n) + s;
    if n > 0 {
        assert(t[0] == ' ');
        assert(t.drop_first() =~= spaces((n - 1) as nat) + s);
        spaces_trim((n - 1) as nat, s);
    } else {
        assert(t =~= s);
    }
}

proof fn spaces_width(n: nat)
    ensures
        text_width(spaces(n)) == n,
    decreases n,
{
    if n > 0 {
        assert(spaces(n).drop_last() =~= spaces((n - 1) as nat));
        spaces_width((n - 1) as nat);
    }
}

/// What trimming at the start leaves is a suffix without white space at its start.
proof fn trim_start_shape(s: Seq<char>)
    ensures
        trim_start(s).len() <= s.len(),
        trim_start(s) == s.skip(s.len() - trim_start(s).len()),
        trim_start(s).len() > 0 ==> !is_white(trim_start(s)[0]),
    decreases s.len(),
{
    if s.len() > 0 && is_white(s[0]) {
        trim_start_shape(s.drop_first());
        assert(s.skip(s.len() - trim_start(s).len()) =~= s.drop_first().skip(
            s.drop_first().len() - trim_start(s).len(),
        ));
    } else {
        assert(s.skip(0) =~= s);
    }
}

/// The new line of a formula, and what it is without its line end.
pub open spec fn formula_line(depth: nat, formula: Seq<char>, line_end: Seq<char>) -> Seq<char> {
    spaces(depth) + "formula: "@ + formula + line_end
}

/// Whether a formula can be written behind its key so that it reads back: on one line, without
/// white space or quotes around it, and not like the mark of a block.
pub open spec fn is_inline(formula: Seq<char>) -> bool {
    &&& !formula.contains('\n')
    &&& trimmed(formula)
    &&& !ends(formula, "|"@)
    &&& !ends(formula, "|-"@)
    &&& formula.len() > 0 ==> formula[0] != '"' && formula.last() != '"'
}

proof fn formula_line_reads(depth: nat, formula: Seq<char>, line_end: Seq<char>)
    requires
        is_inline(formula),
        line_end == Seq::<char>::empty() || line_end == seq!['\n'] || line_end == seq!['\r', '\n'],
    ensures
        ({
            let raw = formula_line(depth, formula, line_end);
            &&& is_line(raw)
            &&& line_end.len() > 0 ==> raw.last() == '\n'
            &&& line_text(raw) == spaces(depth) + "formula: "@ + formula
            &&& trim_start(line_text(raw)) == "formula: "@ + formula
            &&& !is_blank(line_text(raw))
            &&& indent(line_text(raw)) == depth
            &&& !opens_block(raw)
            &&& passes(TestView::Starts("formula:"@), raw)
        }),
{
    reveal_strlit("formula: ");
    reveal_strlit("formula:");
    reveal_strlit("|");
    reveal_strlit("|-");
    let raw = formula_line(depth, formula, line_end);
    let key = "formula: "@;
    let line = spaces(depth) + key + formula;
    assert(raw =~= line + line_end);
    let n = line.len();
    assert(line[depth as int] == key[0]);
    assert forall|k: int| 0 <= k < raw.len() - 1 implies #[trigger] raw[k] != '\n' by {
        if k < depth {
        } else if k < depth + key.len() {
            assert(raw[k] == key[k - depth]);
        } else if k < n {
            assert(raw[k] == formula[k - depth - key.len()]);
            assert(formula.contains(formula[k - depth - key.len()]));
        } else {
            assert(raw[k] == line_end[k - n]);
        }
    }
    assert(line.last() != '\r' && line.last() != '\n') by {
        if formula.len() > 0 {
            assert(line.last() == formula.last());
        } else {
            assert(line.last() == key[8]);
        }
    }
    assert(line_text(raw) =~= line) by {
        if line_end.len() == 0 {
            assert(raw =~= line);
        } else if line_end.len() == 1 {
            assert(raw[raw.len() - 2] == line.last());
            assert(raw.take(raw.len() - 1) =~= line);
        } else {
            assert(raw[raw.len() - 2] == '\r');
            assert(raw.take(raw.len() - 2) =~= line);
        }
    }
    let body = key + formula;
    assert(line =~= spaces(depth) + body);
    assert(body[0] == 'f');
    spaces_trim(depth, body);
    assert(line.take(line.len() - trim_start(line).len()) =~= spaces(depth));
    spaces_width(depth);
    assert(!is_white(line[depth as int]));
    assert(body.take(8) =~= "formula:"@);
    // The end of the line without white space.
    if formula.len() > 0 {
        assert(line.last() == formula.last());
        assert(trim_end(line) == line);
        if ends(line, "|"@) {
            assert(line.skip(n - 1)[0] == line.last());
            assert(formula.skip(formula.len() - 1) =~= "|"@);
        }
        if ends(line, "|-"@) {
            assert(line.skip(n - 2)[0] == line[n - 2] && line.skip(n - 2)[1] == line[n - 1]);
            if formula.len() > 1 {
                assert(line[n - 2] == formula[formula.len() - 2]);
                assert(formula.skip(formula.len() - 2) =~= "|-"@);
            } else {
                assert(line[n - 2] == key[8]);
            }
        }
    } else {
        assert(line.last() == key[8]);
        let cut = line.drop_last();
        assert(cut.last() == key[7]);
        assert(!is_white(cut.last()));
        assert(trim_end(cut) == cut);
        assert(trim_end(line) == cut);
        if ends(cut, "|"@) {
            assert(cut.skip(cut.len() - 1)[0] == cut.last());
        }
        if ends(cut, "|-"@) {
            assert(cut.skip(cut.len() - 2)[1] == cut.last());
        }
    }
}

/// A line that does not start like a list item is none, and names no rule.
proof fn formula_line_fails(raw: Seq<char>, formula: Seq<char>, rule: Seq<char>, n: nat)
    requires
        trim_start(line_text(raw)) == "formula: "@ + formula,
    ensures
        !passes(TestView::Is("- name: "@ + rule), raw),
        !passes(TestView::ItemWithin(n), raw),
{
    reveal_strlit("formula: ");
    reveal_strlit("- name: ");
    reveal_strlit("- ");
    let body = "formula: "@ + formula;
    assert(body[0] == 'f');
    trim_end_keeps_start(body);
    let named = "- name: "@ + rule;
    assert(named[0] == '-');
    if begins(body, "- "@) {
        assert(body.take(2)[0] == body[0]);
    }
}

proof fn trim_end_keeps_start(s: Seq<char>)
    requires
        s.len() > 0,
        !is_white(s[0]),
    ensures
        trim_end(s).len() > 0,
        trim_end(s)[0] == s[0],
    decreases s.len(),
{
    if is_white(s.last()) {
        assert(s.len() > 1);
        assert(s.drop_last()[0] == s[0]);
        trim_end_keeps_start(s.drop_last());
    }
}

/// The line end of a line is one of three.
proof fn line_break_shape(raw: Seq<char>)
    ensures
        line_break(raw) == Seq::<char>::empty() || line_break(raw) == seq!['\n'] || line_break(raw)
            == seq!['\r', '\n'],
        raw.len() > 0 && raw.last() == '\n' ==> line_break(raw).len() > 0,
{
    if raw.len() > 0 && raw.last() == '\n' {
        if raw.len() > 1 && raw[raw.len() - 2] == '\r' {
            assert(line_break(raw) =~= seq!['\r', '\n']);
        } else {
            assert(line_break(raw) =~= seq!['\n']);
        }
    } else {
        assert(line_break(raw) =~= Seq::<char>::empty());
    }
}

/// The lines of a text with a formula replaced.
#[verifier::rlimit(60)]
#[verifier::spinoff_prover]
proof fn replaced_lines(source: Seq<char>, rule: Seq<char>, version: nat, formula: Seq<char>)
    requires
        formula_site(raw_lines(source), rule, version) is Some,
        is_inline(formula),
    ensures
        ({
            let lines = raw_lines(source);
            let site = formula_site(lines, rule, version)->Some_0;
            raw_lines(replaced(source, site, formula)) == with_line(
                lines,
                site.line,
                site.end,
                formula_line(line_indent(lines, site.line), formula, line_break(lines[site.end - 1])),
            )
        }),
{
    let lines = raw_lines(source);
    formula_site_bounds(lines, rule, version);
    let site = formula_site(lines, rule, version)->Some_0;
    raw_lines_are_lines(source);
    let line_end = line_break(lines[site.end - 1]);
    line_break_shape(lines[site.end - 1]);
    let depth = line_indent(lines, site.line);
    formula_line_reads(depth, formula, line_end);
    let new_line = formula_line(depth, formula, line_end);
    let list = with_line(lines, site.line, site.end, new_line);
    assert forall|i: int| #![trigger list[i]] 0 <= i < list.len() implies is_line(list[i]) && (i
        < list.len() - 1 ==> list[i].last() == '\n') by {
        if i < site.line {
            assert(list[i] == lines[i]);
        } else if i == site.line {
            assert(list[i] == new_line);
            if i < list.len() - 1 {
                assert(site.end < lines.len());
                assert(is_line(lines[site.end - 1]));
            }
        } else {
            assert(list[i] == lines[i - site.line - 1 + site.end]);
        }
    }
    lines_of_chained(list);
    chained_splits(list, site.line);
    assert(list.take(site.line as int) =~= lines.take(site.line as int));
    let tail = list.skip(site.line as int);
    assert(tail[0] == new_line);
    assert(tail.drop_first() =~= lines.skip(site.end as int));
    assert(chained(list) =~= replaced(source, site, formula));
}

/// What stands behind the key of an inline formula is the formula.
proof fn inline_text_reads(formula: Seq<char>)
    requires
        is_inline(formula),
    ensures
        unquoted_end(
            unquoted_start(
                trim_end(trim_start(without_prefix("formula: "@ + formula, "formula:"@))),
            ),
        ) == formula,
{
    reveal_strlit("formula: ");
    reveal_strlit("formula:");
    let text = "formula: "@ + formula;
    let prefix = "formula:"@;
    let rest = seq![' '] + formula;
    assert(text.take(8) =~= prefix);
    assert(text.skip(8) =~= rest);
    assert(!begins(rest, prefix)) by {
        if begins(rest, prefix) {
            assert(rest.take(8)[0] == rest[0]);
        }
    }
    assert(without_prefix(rest, prefix) == rest);
    assert(without_prefix(text, prefix) == rest);
    assert(rest.drop_first() =~= formula);
    assert(trim_start(formula) == formula);
    assert(trim_start(rest) == formula);
    assert(trim_end(formula) == formula);
    assert(unquoted_start(formula) == formula);
    assert(unquoted_end(formula) == formula);
}

/// A replaced formula is found where it was, on one line.
#[verifier::rlimit(60)]
proof fn replaced_formula_is_found(
    source: Seq<char>,
    rule: Seq<char>,
    version: nat,
    formula: Seq<char>,
)
    requires
        formula_site(raw_lines(source), rule, version) is Some,
        is_inline(formula),
    ensures
        ({
            let lines = raw_lines(source);
            let site = formula_site(lines, rule, version)->Some_0;
            let new_line = formula_line(
                line_indent(lines, site.line),
                formula,
                line_break(lines[site.end - 1]),
            );
            formula_site(with_line(lines, site.line, site.end, new_line), rule, version) == Some(
                SiteView { line: site.line, is_block: false, end: site.line + 1 },
            )
        }),
{
    let lines = raw_lines(source);
    formula_site_bounds(lines, rule, version);
    let site = formula_site(lines, rule, version)->Some_0;
    let (line, end) = (site.line, site.end);
    let gap = (end - line - 1) as nat;
    let depth = line_indent(lines, line);
    let line_end = line_break(lines[end - 1]);
    line_break_shape(lines[end - 1]);
    let new_line = formula_line(depth, formula, line_end);
    formula_line_reads(depth, formula, line_end);
    let moved = with_line(lines, line, end, new_line);
    assert(moved.len() == lines.len() - gap);
    assert(moved[line as int] == new_line);
    // The parts of the search.
    let named = TestView::Is("- name: "@ + rule);
    let start = first_line(lines, named, 0, lines.len())->Some_0;
    first_line_bounds(lines, named, 0, lines.len());
    let item = TestView::ItemWithin(line_indent(lines, start));
    let stop = or_end(first_line(lines, item, start + 1, lines.len()), lines.len());
    first_line_bounds(lines, item, start + 1, lines.len());
    let dated = TestView::Starts("- effective_from"@);
    let from = later_line(lines, dated, start + 1, stop, version)->Some_0;
    later_line_bounds(lines, dated, start + 1, stop, version);
    later_line_passes(lines, dated, start + 1, stop, version);
    let within = TestView::Within(line_indent(lines, from));
    let to = or_end(first_line(lines, within, from + 1, stop), stop);
    first_line_bounds(lines, within, from + 1, stop);
    let key = TestView::Starts("formula:"@);
    first_line_bounds(lines, key, from, to);
    first_line_passes(lines, key, from, to);
    let below = TestView::Within(line_indent(lines, line));
    first_line_bounds(lines, below, line + 1, to);
    assert(end <= to);
    assert(from < line) by {
        reveal_strlit("- effective_from");
        reveal_strlit("formula:");
        let text = trim_start(line_text(lines[from as int]));
        if from == line {
            assert(text.take(16)[0] == text[0]);
            assert(text.take(8)[0] == text[0]);
        }
    }
    formula_line_fails(new_line, formula, rule, line_indent(lines, start));
    // The rule.
    assert forall|i: int| line <= i < end implies !passes(named, #[trigger] lines[i]) by {
        none_before(lines, named, start + 1, lines.len(), i);
    }
    first_line_moves(lines, named, 0, lines.len(), line, end, new_line);
    first_line_moves(lines, named, start + 1, lines.len(), line, end, new_line);
    assert(moved[start as int] == lines[start as int]);
    // Its end.
    assert forall|i: int| line <= i < end implies !passes(item, #[trigger] lines[i]) by {
        none_before(lines, item, start + 1, lines.len(), i);
    }
    first_line_moves(lines, item, start + 1, lines.len(), line, end, new_line);
    if first_line(lines, item, start + 1, lines.len()) is Some {
        assert(stop >= end);
    }
    // The version.
    later_line_stays(
        lines,
        dated,
        start + 1,
        stop,
        version,
        line,
        end,
        new_line,
        (stop - gap) as nat,
    );
    assert(moved[from as int] == lines[from as int]);
    // Its end.
    assert forall|i: int| line <= i < end implies !passes(within, #[trigger] lines[i]) by {
        none_before(lines, within, from + 1, stop, i);
    }
    assert(!passes(within, new_line)) by {
        let old_line = line_text(lines[line as int]);
        reveal_strlit("formula:");
        trim_start_shape(old_line);
        assert(!is_blank(old_line)) by {
            let at = old_line.len() - trim_start(old_line).len();
            assert(old_line[at] == trim_start(old_line)[0]);
        }
        assert(!passes(within, lines[line as int]));
    }
    first_line_moves(lines, within, from + 1, stop, line, end, new_line);
    // The key.
    assert forall|i: int| from <= i < line implies !passes(key, #[trigger] moved[i]) by {
        none_before(lines, key, from, to, i);
        assert(moved[i] == lines[i]);
    }
    skip_failing(moved, key, from, line, (to - gap) as nat);
    let again = SiteView { line, is_block: false, end: line + 1 };
    assert(formula_site(moved, rule, version) == Some(again));
}

/// A formula that was put in reads back, where it can be written behind its key.
pub proof fn a_replaced_formula_reads_back(
    source: Seq<char>,
    rule: Seq<char>,
    version: nat,
    formula: Seq<char>,
)
    requires
        formula_site(raw_lines(source), rule, version) is Some,
        is_inline(formula),
    ensures
        ({
            let site = formula_site(raw_lines(source), rule, version)->Some_0;
            let lines = raw_lines(replaced(source, site, formula));
            &&& formula_site(lines, rule, version) == Some(
                SiteView { line: site.line, is_block: false, end: site.line + 1 },
            )
            &&& is_cut_cleanly(lines, formula_site(lines, rule, version)->Some_0)
            &&& formula_at(lines, formula_site(lines, rule, version)->Some_0) == formula
        }),
{
    let lines = raw_lines(source);
    formula_site_bounds(lines, rule, version);
    let site = formula_site(lines, rule, version)->Some_0;
    let line_end = line_break(lines[site.end - 1]);
    line_break_shape(lines[site.end - 1]);
    replaced_lines(source, rule, version, formula);
    replaced_formula_is_found(source, rule, version, formula);
    formula_line_reads(line_indent(lines, site.line), formula, line_end);
    inline_text_reads(formula);
}

} // verus!
