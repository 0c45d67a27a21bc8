//! Text helpers: equality, concatenation, decimal digits and the order of names.
use vstd::prelude::*;
use vstd::string::*;

verus! {

/// The character of a decimal digit.
pub open spec fn digit_char(d: nat) -> char {
    (48 + d) as char
}

/// Decimal digits of a natural number, without leading zeros.
pub open spec fn digits(n: nat) -> Seq<char>
    decreases n,
{
    if n < 10 {
        seq![digit_char(n)]
    } else {
        digits(n / 10).push(digit_char(n % 10))
    }
}

/// Decimal digits of an integer, with a leading `-` when negative.
pub open spec fn int_text(i: int) -> Seq<char> {
    if i < 0 {
        seq!['-'] + digits((-i) as nat)
    } else {
        digits(i as nat)
    }
}

/// The last `width` decimal digits of `n`, with leading zeros.
pub open spec fn padded_digits(n: nat, width: nat) -> Seq<char>
    decreases width,
{
    if width == 0 {
        Seq::empty()
    } else {
        padded_digits(n / 10, (width - 1) as nat).push(digit_char(n % 10))
    }
}

/// `str`'s `==` compares the characters of the two texts.
#[verifier::external_body]
pub(crate) fn same(a: &str, b: &str) -> (r: bool)
    ensures
        r == (a@ == b@),
{
    a == b
}

/// A `String` with the characters of `s`.
pub fn owned(s: &str) -> (r: String)
    ensures
        r@ == s@,
{
    s.to_owned()
}

/// The character of a digit below ten.
fn digit(d: u64) -> (c: char)
    requires
        d < 10,
    ensures
        c == digit_char(d as nat),
{
    (48u8 + d as u8) as char
}

/// `String::push` appends the character at the end.
pub assume_specification[ String::push ](s: &mut String, c: char)
    ensures
        final(s)@ == old(s)@.push(c),
;

/// Decimal digits of a number.
pub fn u64_text(n: u64) -> (r: String)
    ensures
        r@ == digits(n as nat),
    decreases n,
{
    if n < 10 {
        let mut s = String::new();
        s.push(digit(n));
        proof {
            assert(s@ =~= digits(n as nat));
        }
        s
    } else {
        let mut s = u64_text(n / 10);
        s.push(digit(n % 10));
        s
    }
}

pub fn usize_text(n: usize) -> (r: String)
    ensures
        r@ == digits(n as nat),
{
    u64_text(n as u64)
}

/// Decimal text of a signed integer.
pub fn i64_text(i: i64) -> (r: String)
    ensures
        r@ == int_text(i as int),
{
    if i < 0 {
        let mut s = owned("-");
        let n: u64 = (-(i as i128)) as u64;
        let d = u64_text(n);
        s.append(d.as_str());
        proof {
            reveal_strlit("-");
            assert("-"@ =~= seq!['-']);
        }
        s
    } else {
        u64_text(i as u64)
    }
}

/// Order of texts: by the first character that differs, and a proper prefix
/// before what extends it.
pub open spec fn text_lt(a: Seq<char>, b: Seq<char>) -> bool
    decreases a.len(),
{
    if b.len() == 0 {
        false
    } else if a.len() == 0 {
        true
    } else if a[0] != b[0] {
        (a[0] as int) < (b[0] as int)
    } else {
        text_lt(a.drop_first(), b.drop_first())
    }
}

/// `str`'s `<` is the lexicographic order by code point.
#[verifier::external_body]
pub(crate) fn precedes(a: &str, b: &str) -> (r: bool)
    ensures
        r == text_lt(a@, b@),
{
    a < b
}

/// No text precedes itself.
pub proof fn text_lt_irreflexive(a: Seq<char>)
    ensures
        !text_lt(a, a),
    decreases a.len(),
{
    if a.len() > 0 {
        text_lt_irreflexive(a.drop_first());
    }
}

/// Of two different texts one precedes the other.
pub proof fn text_lt_total(a: Seq<char>, b: Seq<char>)
    ensures
        a == b || text_lt(a, b) || text_lt(b, a),
    decreases a.len(),
{
    if a.len() > 0 && b.len() > 0 && a[0] == b[0] {
        text_lt_total(a.drop_first(), b.drop_first());
        if a.drop_first() == b.drop_first() {
            assert(a =~= seq![a[0]] + a.drop_first());
            assert(b =~= seq![b[0]] + b.drop_first());
        }
    } else if a.len() == 0 && b.len() == 0 {
        assert(a =~= b);
    } else if a.len() > 0 && b.len() > 0 {
        assert(a[0] as int != b[0] as int);
    }
}

/// The order of texts is transitive.
pub proof fn text_lt_transitive(a: Seq<char>, b: Seq<char>, c: Seq<char>)
    requires
        text_lt(a, b),
        text_lt(b, c),
    ensures
        text_lt(a, c),
    decreases a.len(),
{
    if a.len() > 0 && a[0] == b[0] && b[0] == c[0] {
        text_lt_transitive(a.drop_first(), b.drop_first(), c.drop_first());
    }
}

/// The texts of a list of strings.
pub open spec fn texts(v: Seq<String>) -> Seq<Seq<char>> {
    v.map_values(|s: String| s@)
}

/// `x` put at its place in an ascending sequence of distinct texts.
pub open spec fn insert_text(s: Seq<Seq<char>>, x: Seq<char>) -> Seq<Seq<char>>
    decreases s.len(),
{
    if s.len() == 0 {
        seq![x]
    } else if s[0] == x {
        s
    } else if text_lt(x, s[0]) {
        seq![x] + s
    } else {
        seq![s[0]] + insert_text(s.drop_first(), x)
    }
}

/// The texts of `s` in ascending order, each once.
pub open spec fn sorted_texts(s: Seq<Seq<char>>) -> Seq<Seq<char>>
    decreases s.len(),
{
    if s.len() == 0 {
        s
    } else {
        insert_text(sorted_texts(s.drop_last()), s.last())
    }
}

/// Strictly ascending.
pub open spec fn ascending(s: Seq<Seq<char>>) -> bool {
    forall|i: int, j: int| 0 <= i < j < s.len() ==> text_lt(#[trigger] s[i], #[trigger] s[j])
}

proof fn insert_text_ascending(s: Seq<Seq<char>>, x: Seq<char>)
    requires
        ascending(s),
    ensures
        ascending(insert_text(s, x)),
        forall|y: Seq<char>|
            #[trigger] insert_text(s, x).contains(y) <==> (s.contains(y) || y == x),
    decreases s.len(),
{
    let r = insert_text(s, x);
    if s.len() == 0 {
        assert(r[0] == x);
        assert forall|y: Seq<char>| r.contains(y) <==> (s.contains(y) || y == x) by {
            if y == x {
                assert(r[0] == y);
            }
        }
    } else if s[0] == x {
        assert forall|y: Seq<char>| r.contains(y) <==> (s.contains(y) || y == x) by {
            if y == x {
                assert(s[0] == y);
            }
        }
    } else if text_lt(x, s[0]) {
        assert forall|i: int, j: int| 0 <= i < j < r.len() implies text_lt(
            #[trigger] r[i],
            #[trigger] r[j],
        ) by {
            if i == 0 {
                if j > 1 {
                    assert(text_lt(s[0], s[j - 1]));
                    text_lt_transitive(x, s[0], s[j - 1]);
                }
            } else {
                assert(text_lt(s[i - 1], s[j - 1]));
            }
        }
        assert forall|y: Seq<char>| r.contains(y) <==> (s.contains(y) || y == x) by {
            if y == x {
                assert(r[0] == y);
            }
            if s.contains(y) {
                let k = s.index_of(y);
                assert(r[k + 1] == y);
            }
            if r.contains(y) {
                let k = r.index_of(y);
                if k > 0 {
                    assert(s[k - 1] == y);
                }
            }
        }
    } else {
        let t = s.drop_first();
        assert forall|i: int, j: int| 0 <= i < j < t.len() implies text_lt(
            #[trigger] t[i],
            #[trigger] t[j],
        ) by {
            assert(text_lt(s[i + 1], s[j + 1]));
        }
        insert_text_ascending(t, x);
        let u = insert_text(t, x);
        text_lt_total(x, s[0]);
        assert(r == seq![s[0]] + u);
        assert forall|i: int, j: int| 0 <= i < j < r.len() implies text_lt(
            #[trigger] r[i],
            #[trigger] r[j],
        ) by {
            if i == 0 {
                assert(u.contains(u[j - 1]));
                if u[j - 1] != x {
                    assert(t.contains(u[j - 1]));
                    let k = t.index_of(u[j - 1]);
                    assert(text_lt(s[0], s[k + 1]));
                }
            } else {
                assert(text_lt(u[i - 1], u[j - 1]));
            }
        }
        assert forall|y: Seq<char>| r.contains(y) <==> (s.contains(y) || y == x) by {
            if r.contains(y) {
                let k = r.index_of(y);
                if k > 0 {
                    assert(u[k - 1] == y);
                    assert(u.contains(y));
                    assert(insert_text(t, x).contains(y));
                    if y != x {
                        assert(t.contains(y));
                        let m = t.index_of(y);
                        assert(t[m] == y);
                        assert(s[m + 1] == y);
                    }
                } else {
                    assert(s[0] == y);
                }
            }
            if s.contains(y) || y == x {
                if y == s[0] {
                    assert(r[0] == y);
                } else {
                    if y != x {
                        let m = s.index_of(y);
                        assert(t[m - 1] == y);
                        assert(t.contains(y));
                    }
                    assert(insert_text(t, x).contains(y));
                    let k = u.index_of(y);
                    assert(u[k] == y);
                    assert(r[k + 1] == y);
                }
            }
        }
    }
}

/// Sorting keeps exactly the texts that were there, in strictly ascending order.
pub proof fn sorted_texts_meaning(s: Seq<Seq<char>>)
    ensures
        ascending(sorted_texts(s)),
        forall|y: Seq<char>| #[trigger] sorted_texts(s).contains(y) <==> s.contains(y),
    decreases s.len(),
{
    if s.len() > 0 {
        sorted_texts_meaning(s.drop_last());
        insert_text_ascending(sorted_texts(s.drop_last()), s.last());
        assert forall|y: Seq<char>| sorted_texts(s).contains(y) <==> s.contains(y) by {
            if s.contains(y) {
                let k = s.index_of(y);
                if k < s.len() - 1 {
                    assert(s.drop_last()[k] == y);
                    assert(s.drop_last().contains(y));
                }
            }
            if s.drop_last().contains(y) {
                let k = s.drop_last().index_of(y);
                assert(s[k] == y);
            }
        }
    }
}

/// A text that follows all others is put last.
proof fn insert_text_last(s: Seq<Seq<char>>, x: Seq<char>)
    requires
        forall|i: int| 0 <= i < s.len() ==> text_lt(#[trigger] s[i], x),
    ensures
        insert_text(s, x) == s.push(x),
    decreases s.len(),
{
    if s.len() > 0 {
        assert(text_lt(s[0], x));
        text_lt_irreflexive(x);
        if text_lt(x, s[0]) {
            text_lt_transitive(x, s[0], x);
        }
        let rest = s.drop_first();
        assert forall|i: int| 0 <= i < rest.len() implies text_lt(#[trigger] rest[i], x) by {
            assert(rest[i] == s[i + 1]);
        }
        insert_text_last(rest, x);
        assert(seq![s[0]] + rest.push(x) =~= s.push(x));
    } else {
        assert(seq![x] =~= s.push(x));
    }
}

/// Sorting changes nothing in an ascending sequence.
pub proof fn sorted_texts_stay(s: Seq<Seq<char>>)
    requires
        ascending(s),
    ensures
        sorted_texts(s) == s,
    decreases s.len(),
{
    if s.len() > 0 {
        let rest = s.drop_last();
        assert(ascending(rest)) by {
            assert forall|i: int, j: int| 0 <= i < j < rest.len() implies text_lt(
                #[trigger] rest[i],
                #[trigger] rest[j],
            ) by {
                assert(rest[i] == s[i] && rest[j] == s[j]);
            }
        }
        sorted_texts_stay(rest);
        assert forall|i: int| 0 <= i < rest.len() implies text_lt(#[trigger] rest[i], s.last()) by {
            assert(rest[i] == s[i]);
        }
        insert_text_last(rest, s.last());
        assert(rest.push(s.last()) =~= s);
    }
}

/// Puts `x` at its place in an ascending list, unless it is there.
pub fn insert_sorted(v: &mut Vec<String>, x: String)
    ensures
        texts(final(v)@) == insert_text(texts(old(v)@), x@),
{
    let mut i: usize = 0;
    proof {
        assert(texts(v@).skip(0) =~= texts(v@));
        assert(texts(v@).take(0) + insert_text(texts(v@).skip(0), x@) =~= insert_text(
            texts(v@),
            x@,
        ));
    }
    while i < v.len()
        invariant
            i <= v@.len(),
            v@ == old(v)@,
            insert_text(texts(v@), x@) == texts(v@).take(i as int) + insert_text(
                texts(v@).skip(i as int),
                x@,
            ),
        decreases v@.len() - i,
    {
        let ghost rest = texts(v@).skip(i as int);
        assert(rest[0] == v@[i as int]@);
        if same(v[i].as_str(), x.as_str()) {
            assert(texts(v@).take(i as int) + rest =~= texts(v@));
            return ;
        }
        if precedes(x.as_str(), v[i].as_str()) {
            let ghost before = v@;
            v.insert(i, x);
            assert(texts(v@) =~= texts(before).take(i as int) + (seq![x@] + rest));
            return ;
        }
        proof {
            assert(rest.drop_first() =~= texts(v@).skip(i + 1));
            assert(texts(v@).take(i as int) + (seq![rest[0]] + insert_text(rest.drop_first(), x@))
                =~= texts(v@).take(i + 1) + insert_text(texts(v@).skip(i + 1), x@));
        }
        i = i + 1;
    }
    let ghost before = v@;
    v.push(x);
    assert(texts(v@) =~= texts(before).take(i as int) + seq![x@]);
}

/// A text that may be absent.
pub open spec fn opt_text(text: Option<String>) -> Option<Seq<char>> {
    match text {
        Some(text) => Some(text@),
        None => None,
    }
}

/// A text, or the text of a message.
pub open spec fn text_outcome(r: Result<String, String>) -> Result<Seq<char>, Seq<char>> {
    match r {
        Ok(text) => Ok(text@),
        Err(message) => Err(message@),
    }
}

} // verus!
