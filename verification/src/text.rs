//! Text operations on `str` and `String`, specified over sequences of characters.

use vstd::prelude::*;

verus! {

use vstd::utf8::{decode_utf8, encode_utf8, valid_utf8};

/// Trusted: `std::string::String::push` appends one character at the end.
pub assume_specification[ String::push ](s: &mut String, c: char)
    ensures
        final(s)@ == old(s)@.push(c),
;

/// The characters with the Unicode `White_Space` property.
pub open spec fn is_white_space(c: char) -> bool {
    let n = c as u32;
    ||| 0x09 <= n <= 0x0d
    ||| n == 0x20
    ||| n == 0x85
    ||| n == 0xa0
    ||| n == 0x1680
    ||| 0x2000 <= n <= 0x200a
    ||| n == 0x2028
    ||| n == 0x2029
    ||| n == 0x202f
    ||| n == 0x205f
    ||| n == 0x3000
}

/// `s` without the leading characters that satisfy `p`.
pub open spec fn drop_leading(s: Seq<char>, p: spec_fn(char) -> bool) -> Seq<char>
    decreases s.len(),
{
    if s.len() > 0 && p(s[0]) {
        drop_leading(s.drop_first(), p)
    } else {
        s
    }
}

/// `s` without the trailing characters that satisfy `p`.
pub open spec fn drop_trailing(s: Seq<char>, p: spec_fn(char) -> bool) -> Seq<char>
    decreases s.len(),
{
    if s.len() > 0 && p(s.last()) {
        drop_trailing(s.drop_last(), p)
    } else {
        s
    }
}

/// `s` without leading and trailing white space.
pub open spec fn trimmed(s: Seq<char>) -> Seq<char> {
    drop_trailing(
        drop_leading(s, |c: char| is_white_space(c)),
        |c: char| is_white_space(c),
    )
}

/// `pat` stands in `s` at position `i`.
pub open spec fn occurs_at(s: Seq<char>, pat: Seq<char>, i: int) -> bool {
    &&& 0 <= i
    &&& i + pat.len() <= s.len()
    &&& s.subrange(i, i + pat.len()) == pat
}

/// `pat` stands somewhere in `s`.
pub open spec fn contains_text(s: Seq<char>, pat: Seq<char>) -> bool {
    exists|i: int| occurs_at(s, pat, i)
}

/// `s` ends with `pat`.
pub open spec fn ends_with_text(s: Seq<char>, pat: Seq<char>) -> bool {
    occurs_at(s, pat, s.len() - pat.len())
}

/// `s` with every occurrence of `pat` replaced by `with`. Occurrences are taken from the left
/// and do not overlap; text that was put in is not searched again.
pub open spec fn replaced(s: Seq<char>, pat: Seq<char>, with: Seq<char>) -> Seq<char>
    decreases s.len(),
{
    if pat.len() == 0 || s.len() < pat.len() {
        s
    } else if occurs_at(s, pat, 0) {
        with + replaced(s.skip(pat.len() as int), pat, with)
    } else {
        seq![s[0]] + replaced(s.skip(1), pat, with)
    }
}

/// `a` stands before `b` in the order of their character codes.
pub open spec fn text_less(a: Seq<char>, b: Seq<char>) -> bool
    decreases a.len(),
{
    if b.len() == 0 {
        false
    } else if a.len() == 0 {
        true
    } else if a[0] != b[0] {
        (a[0] as int) < (b[0] as int)
    } else {
        text_less(a.drop_first(), b.drop_first())
    }
}

/// No text stands before itself.
pub proof fn text_less_irreflexive(a: Seq<char>)
    ensures
        !text_less(a, a),
    decreases a.len(),
{
    if a.len() > 0 {
        text_less_irreflexive(a.drop_first());
    }
}

/// The order of texts is transitive.
pub proof fn text_less_transitive(a: Seq<char>, b: Seq<char>, c: Seq<char>)
    requires
        text_less(a, b),
        text_less(b, c),
    ensures
        text_less(a, c),
    decreases a.len(),
{
    if a.len() > 0 && a[0] == b[0] && b[0] == c[0] {
        text_less_transitive(a.drop_first(), b.drop_first(), c.drop_first());
    }
}

/// Two different texts are ordered one way or the other.
pub proof fn text_less_total(a: Seq<char>, b: Seq<char>)
    ensures
        a == b || text_less(a, b) || text_less(b, a),
    decreases a.len(),
{
    if a.len() > 0 && b.len() > 0 && a[0] == b[0] {
        text_less_total(a.drop_first(), b.drop_first());
        if a.drop_first() == b.drop_first() {
            assert(a == seq![a[0]] + a.drop_first());
            assert(b == seq![b[0]] + b.drop_first());
        }
    } else if a.len() == 0 && b.len() == 0 {
        assert(a == b);
    }
}

/// The view of an optional string.
pub open spec fn opt_text(o: Option<String>) -> Option<Seq<char>> {
    match o {
        Some(s) => Some(s@),
        None => None,
    }
}

/// The characters of `s`.
pub fn chars_of(s: &str) -> (chars: Vec<char>)
    ensures
        chars@ == s@,
{
    let mut chars: Vec<char> = Vec::new();
    for c in iter: s.chars()
        invariant
            iter.seq() == s@,
            chars@ == s@.take(iter.index() as int),
    {
        chars.push(c);
        assert(s@.take(iter.index() + 1) == s@.take(iter.index() as int).push(c));
    }
    assert(s@.take(s@.len() as int) == s@);
    chars
}

/// The string of the characters from `from` up to `to`.
pub fn string_of(chars: &Vec<char>, from: usize, to: usize) -> (s: String)
    requires
        from <= to <= chars@.len(),
    ensures
        s@ == chars@.subrange(from as int, to as int),
{
    let mut s = String::new();
    let mut i: usize = from;
    while i < to
        invariant
            from <= i <= to <= chars@.len(),
            s@ == chars@.subrange(from as int, i as int),
        decreases to - i,
    {
        s.push(chars[i]);
        assert(chars@.subrange(from as int, i + 1) == chars@.subrange(from as int, i as int).push(
            chars@[i as int],
        ));
        i += 1;
    }
    s
}

/// Whether `a` and `b` hold the same characters.
pub fn same_text(a: &str, b: &str) -> (same: bool)
    ensures
        same == (a@ == b@),
{
    a.to_owned() == b.to_owned()
}

/// Whether `c` is a white space character.
pub fn white_space(c: char) -> (yes: bool)
    ensures
        yes == is_white_space(c),
{
    let n = c as u32;
    (0x09 <= n && n <= 0x0d) || n == 0x20 || n == 0x85 || n == 0xa0 || n == 0x1680 || (0x2000 <= n
        && n <= 0x200a) || n == 0x2028 || n == 0x2029 || n == 0x202f || n == 0x205f || n == 0x3000
}

/// `s` without leading and trailing white space.
pub fn trim(s: &str) -> (t: String)
    ensures
        t@ == trimmed(s@),
{
    let chars = chars_of(s);
    let ghost p = |c: char| is_white_space(c);
    let mut from: usize = 0;
    assert(chars@.skip(0) == chars@);
    while from < chars.len() && white_space(chars[from])
        invariant
            from <= chars@.len(),
            p == (|c: char| is_white_space(c)),
            drop_leading(chars@.skip(from as int), p) == drop_leading(chars@, p),
        decreases chars@.len() - from,
    {
        assert(chars@.skip(from as int).drop_first() == chars@.skip(from + 1));
        from += 1;
    }
    assert(drop_leading(chars@, p) == chars@.skip(from as int));
    let mut to: usize = chars.len();
    assert(chars@.subrange(from as int, to as int) == chars@.skip(from as int));
    while from < to && white_space(chars[to - 1])
        invariant
            from <= to <= chars@.len(),
            p == (|c: char| is_white_space(c)),
            drop_trailing(chars@.subrange(from as int, to as int), p) == drop_trailing(
                chars@.skip(from as int),
                p,
            ),
        decreases to,
    {
        assert(chars@.subrange(from as int, to as int).drop_last() == chars@.subrange(
            from as int,
            to - 1,
        ));
        to -= 1;
    }
    string_of(&chars, from, to)
}

/// `s` without the leading characters equal to `c`.
pub fn strip_leading(s: &str, c: char) -> (t: String)
    ensures
        t@ == drop_leading(s@, |x: char| x == c),
{
    let chars = chars_of(s);
    let ghost p = |x: char| x == c;
    let mut from: usize = 0;
    assert(chars@.skip(0) == chars@);
    while from < chars.len() && chars[from] == c
        invariant
            from <= chars@.len(),
            p == (|x: char| x == c),
            drop_leading(chars@.skip(from as int), p) == drop_leading(chars@, p),
        decreases chars@.len() - from,
    {
        assert(chars@.skip(from as int).drop_first() == chars@.skip(from + 1));
        from += 1;
    }
    assert(chars@.subrange(from as int, chars@.len() as int) == chars@.skip(from as int));
    string_of(&chars, from, chars.len())
}

/// `s` without the trailing characters equal to `c`.
pub fn strip_trailing(s: &str, c: char) -> (t: String)
    ensures
        t@ == drop_trailing(s@, |x: char| x == c),
{
    let chars = chars_of(s);
    let ghost p = |x: char| x == c;
    let mut to: usize = chars.len();
    assert(chars@.take(to as int) == chars@);
    while 0 < to && chars[to - 1] == c
        invariant
            to <= chars@.len(),
            p == (|x: char| x == c),
            drop_trailing(chars@.take(to as int), p) == drop_trailing(chars@, p),
        decreases to,
    {
        assert(chars@.take(to as int).drop_last() == chars@.take(to - 1));
        to -= 1;
    }
    assert(chars@.subrange(0, to as int) == chars@.take(to as int));
    string_of(&chars, 0, to)
}

/// Whether `pat` stands in `chars` at position `i`.
fn stands_at(chars: &Vec<char>, pat: &Vec<char>, i: usize) -> (yes: bool)
    requires
        i <= chars@.len(),
    ensures
        yes == occurs_at(chars@, pat@, i as int),
{
    let end: usize = chars.len();
    if pat.len() > end - i {
        return false;
    }
    let mut k: usize = 0;
    while k < pat.len()
        invariant
            k <= pat@.len(),
            i + pat@.len() <= chars@.len(),
            chars@.len() == end,
            forall|j: int| 0 <= j < k ==> chars@[i + j] == pat@[j],
        decreases pat@.len() - k,
    {
        if chars[i + k] != pat[k] {
            assert(chars@.subrange(i as int, i + pat@.len())[k as int] == chars@[i + k]);
            return false;
        }
        k += 1;
    }
    assert(chars@.subrange(i as int, i + pat@.len()) == pat@);
    true
}

/// Whether `pat` stands somewhere in `s`.
pub fn contains(s: &str, pat: &str) -> (yes: bool)
    ensures
        yes == contains_text(s@, pat@),
{
    let chars = chars_of(s);
    let pattern = chars_of(pat);
    let mut i: usize = 0;
    loop
        invariant
            i <= chars@.len(),
            chars@ == s@,
            pattern@ == pat@,
            forall|j: int| 0 <= j < i ==> !occurs_at(s@, pat@, j),
        decreases chars@.len() - i,
    {
        if stands_at(&chars, &pattern, i) {
            return true;
        }
        if i == chars.len() {
            return false;
        }
        i += 1;
    }
}

/// Whether `s` begins with `pat`.
pub fn starts_with(s: &str, pat: &str) -> (yes: bool)
    ensures
        yes == occurs_at(s@, pat@, 0),
{
    stands_at(&chars_of(s), &chars_of(pat), 0)
}

/// `s` without the ending `pat`, where it has that ending.
pub fn strip_ending(s: &str, pat: &str) -> (t: Option<String>)
    ensures
        match t {
            Some(t) => ends_with_text(s@, pat@) && t@ == s@.take(s@.len() - pat@.len()),
            None => !ends_with_text(s@, pat@),
        },
{
    let chars = chars_of(s);
    let pattern = chars_of(pat);
    if pattern.len() > chars.len() {
        return None;
    }
    let rest: usize = chars.len() - pattern.len();
    if stands_at(&chars, &pattern, rest) {
        assert(chars@.subrange(0, rest as int) == s@.take(rest as int));
        Some(string_of(&chars, 0, rest))
    } else {
        None
    }
}

/// `s` with every occurrence of `pat` replaced by `with`.
pub fn replace(s: &str, pat: &str, with: &str) -> (t: String)
    requires
        pat@.len() > 0,
    ensures
        t@ == replaced(s@, pat@, with@),
{
    let chars = chars_of(s);
    let pattern = chars_of(pat);
    let mut t = String::new();
    let mut i: usize = 0;
    assert(chars@.skip(0) == s@);
    while i < chars.len() && pattern.len() <= chars.len() - i
        invariant
            i <= chars@.len(),
            chars@ == s@,
            pattern@ == pat@,
            pat@.len() > 0,
            t@ + replaced(chars@.skip(i as int), pat@, with@) == replaced(s@, pat@, with@),
        decreases chars@.len() - i,
    {
        let ghost rest = chars@.skip(i as int);
        let ghost before = t@;
        if stands_at(&chars, &pattern, i) {
            proof {
                assert(rest.subrange(0, pat@.len() as int) == chars@.subrange(
                    i as int,
                    i + pat@.len(),
                ));
                assert(occurs_at(rest, pat@, 0));
                assert(rest.skip(pat@.len() as int) == chars@.skip(i + pat@.len()));
            }
            t.append(with);
            i += pattern.len();
            assert(before + (with@ + replaced(chars@.skip(i as int), pat@, with@)) == t@
                + replaced(chars@.skip(i as int), pat@, with@));
        } else {
            proof {
                assert(rest.subrange(0, pat@.len() as int) == chars@.subrange(
                    i as int,
                    i + pat@.len(),
                ));
                assert(!occurs_at(rest, pat@, 0));
                assert(rest.skip(1) == chars@.skip(i + 1));
            }
            t.push(chars[i]);
            i += 1;
            assert(before + (seq![rest[0]] + replaced(chars@.skip(i as int), pat@, with@)) == t@
                + replaced(chars@.skip(i as int), pat@, with@));
        }
    }
    let tail = string_of(&chars, i, chars.len());
    assert(tail@ == chars@.skip(i as int));
    t.append(tail.as_str());
    t
}

/// The code of a character.
fn code_of(c: char) -> (n: u32)
    ensures
        n as int == c as int,
{
    c as u32
}

/// Whether `a` stands before `b` in the order of their character codes.
pub fn less(a: &str, b: &str) -> (yes: bool)
    ensures
        yes == text_less(a@, b@),
{
    let x = chars_of(a);
    let y = chars_of(b);
    let mut i: usize = 0;
    assert(x@.skip(0) == a@ && y@.skip(0) == b@);
    while i < x.len() && i < y.len()
        invariant
            i <= x@.len(),
            i <= y@.len(),
            text_less(x@.skip(i as int), y@.skip(i as int)) == text_less(a@, b@),
        decreases x@.len() - i,
    {
        if x[i] != y[i] {
            return code_of(x[i]) < code_of(y[i]);
        }
        assert(x@.skip(i as int).drop_first() == x@.skip(i + 1));
        assert(y@.skip(i as int).drop_first() == y@.skip(i + 1));
        i += 1;
    }
    i < y.len()
}

/// `a` followed by `b`.
pub fn join(a: &str, b: &str) -> (s: String)
    ensures
        s@ == a@ + b@,
{
    let mut s = a.to_owned();
    s.append(b);
    s
}

/// A copy of an optional string.
pub fn copy_opt(o: &Option<String>) -> (c: Option<String>)
    ensures
        opt_text(c) == opt_text(*o),
{
    match o {
        Some(s) => Some(s.clone()),
        None => None,
    }
}

/// The views of a list of strings.
pub open spec fn strings(list: Seq<String>) -> Seq<Seq<char>> {
    list.map_values(|s: String| s@)
}

/// Whether `s` is one of the strings of `list`.
pub fn lists(list: &Vec<String>, s: &str) -> (yes: bool)
    ensures
        yes == strings(list@).contains(s@),
{
    let mut i: usize = 0;
    while i < list.len()
        invariant
            i <= list@.len(),
            forall|j: int| 0 <= j < i ==> #[trigger] list@[j]@ != s@,
        decreases list@.len() - i,
    {
        if same_text(list[i].as_str(), s) {
            assert(strings(list@)[i as int] == s@);
            return true;
        }
        i += 1;
    }
    assert forall|j: int| 0 <= j < list@.len() implies #[trigger] strings(list@)[j] != s@ by {
        assert(list@[j]@ != s@);
    }
    false
}

/// The parts of `s` between the characters equal to `sep`.
pub open spec fn pieces(s: Seq<char>, sep: char) -> Seq<Seq<char>>
    decreases s.len(),
{
    if s.len() == 0 {
        seq![Seq::empty()]
    } else {
        let before = pieces(s.drop_last(), sep);
        if s.last() == sep {
            before.push(Seq::empty())
        } else {
            before.drop_last().push(before.last().push(s.last()))
        }
    }
}

/// Texts one after the other with `sep` between them.
pub open spec fn joined(parts: Seq<Seq<char>>, sep: char) -> Seq<char>
    decreases parts.len(),
{
    if parts.len() == 0 {
        Seq::empty()
    } else if parts.len() == 1 {
        parts[0]
    } else {
        joined(parts.drop_last(), sep).push(sep) + parts.last()
    }
}

/// The parts of a text put together again are the text, and none of them holds the separator.
pub proof fn law_pieces_join(s: Seq<char>, sep: char)
    ensures
        pieces(s, sep).len() > 0,
        joined(pieces(s, sep), sep) == s,
        forall|i: int|
            0 <= i < pieces(s, sep).len() ==> !(#[trigger] pieces(s, sep)[i]).contains(sep),
    decreases s.len(),
{
    if s.len() > 0 {
        law_pieces_join(s.drop_last(), sep);
        let before = pieces(s.drop_last(), sep);
        let after = pieces(s, sep);
        if s.last() == sep {
            assert(after.drop_last() == before);
            assert(joined(after, sep) == s.drop_last().push(sep) + Seq::<char>::empty());
            assert(s == s.drop_last().push(s.last()));
        } else {
            assert(after.drop_last() == before.drop_last());
            assert(joined(after, sep) == joined(before, sep).push(s.last()));
            assert(s == s.drop_last().push(s.last()));
            assert forall|i: int| 0 <= i < after.len() implies !(#[trigger] after[i]).contains(
                sep,
            ) by {
                if i == after.len() - 1 {
                    assert(!before[i].contains(sep));
                    assert(after[i] == before[i].push(s.last()));
                    if after[i].contains(sep) {
                        let k = choose|k: int| 0 <= k < after[i].len() && after[i][k] == sep;
                        assert(before[i][k] == sep);
                    }
                } else {
                    assert(after[i] == before[i]);
                }
            }
        }
    }
}

/// The parts of `s` between the characters equal to `sep`.
pub fn split(s: &str, sep: char) -> (parts: Vec<String>)
    ensures
        strings(parts@) == pieces(s@, sep),
{
    let chars = chars_of(s);
    let mut parts: Vec<String> = Vec::new();
    let mut current = String::new();
    let mut i: usize = 0;
    assert(chars@.take(0) == Seq::<char>::empty());
    assert(strings(parts@).push(current@) == seq![Seq::<char>::empty()]);
    while i < chars.len()
        invariant
            i <= chars@.len(),
            strings(parts@).push(current@) == pieces(chars@.take(i as int), sep),
        decreases chars@.len() - i,
    {
        let ghost before = strings(parts@).push(current@);
        assert(chars@.take(i + 1).drop_last() == chars@.take(i as int));
        assert(before.drop_last() == strings(parts@));
        if chars[i] == sep {
            let ghost listed = strings(parts@);
            let ghost part = current@;
            parts.push(current);
            assert(strings(parts@) == listed.push(part));
            current = String::new();
            assert(strings(parts@).push(current@) == before.push(Seq::empty()));
        } else {
            current.push(chars[i]);
        }
        i += 1;
    }
    assert(chars@.take(chars@.len() as int) == s@);
    let ghost listed = strings(parts@);
    let ghost part = current@;
    parts.push(current);
    assert(strings(parts@) == listed.push(part));
    parts
}

/// The text of bytes in UTF-8, with the parts that are not UTF-8 replaced.
pub uninterp spec fn lossy_text(data: Seq<u8>) -> Seq<char>;

/// Trusted: `std::string::String::from_utf8_lossy` reads UTF-8, and where bytes are not UTF-8
/// puts a replacement character.
#[verifier::external_body]
pub(crate) fn read_lossy(data: &Vec<u8>) -> (text: String)
    ensures
        text@ == lossy_text(data@),
        valid_utf8(data@) ==> text@ == decode_utf8(data@),
{
    String::from_utf8_lossy(data).into_owned()
}

/// `s` without the occurrences of `pat` that it starts with.
pub open spec fn without_start(s: Seq<char>, pat: Seq<char>) -> Seq<char>
    decreases s.len(),
{
    if pat.len() > 0 && occurs_at(s, pat, 0) {
        without_start(s.skip(pat.len() as int), pat)
    } else {
        s
    }
}

/// `s` without the occurrences of `pat` that it starts with.
pub fn strip_start(s: &str, pat: &str) -> (t: String)
    requires
        pat@.len() > 0,
    ensures
        t@ == without_start(s@, pat@),
{
    let chars = chars_of(s);
    let pattern = chars_of(pat);
    let n: usize = chars.len();
    let mut i: usize = 0;
    assert(chars@.skip(0) == s@);
    while stands_at(&chars, &pattern, i)
        invariant
            i <= n == chars@.len(),
            chars@ == s@,
            pattern@ == pat@,
            pat@.len() > 0,
            without_start(chars@.skip(i as int), pat@) == without_start(s@, pat@),
        decreases chars@.len() - i,
    {
        proof {
            let rest = chars@.skip(i as int);
            assert(rest.subrange(0, pat@.len() as int) == chars@.subrange(i as int, i + pat@.len()));
            assert(rest.skip(pat@.len() as int) == chars@.skip(i + pat@.len()));
        }
        i += pattern.len();
    }
    proof {
        let rest = chars@.skip(i as int);
        if occurs_at(rest, pat@, 0) {
            assert(rest.subrange(0, pat@.len() as int) == chars@.subrange(i as int, i + pat@.len()));
        }
        assert(chars@.subrange(i as int, chars@.len() as int) == rest);
    }
    string_of(&chars, i, chars.len())
}

/// The position of the first `c` in `s` from `from` on; the length where there is none.
pub open spec fn first_of(s: Seq<char>, c: char, from: int) -> int
    decreases s.len() - from,
{
    if from >= s.len() {
        s.len() as int
    } else if s[from] == c {
        from
    } else {
        first_of(s, c, from + 1)
    }
}

/// What the search for a character finds.
pub proof fn lemma_first_of(s: Seq<char>, c: char, from: int)
    requires
        0 <= from <= s.len(),
    ensures
        from <= first_of(s, c, from) <= s.len(),
        first_of(s, c, from) < s.len() ==> s[first_of(s, c, from)] == c,
        forall|i: int| from <= i < first_of(s, c, from) ==> #[trigger] s[i] != c,
    decreases s.len() - from,
{
    if from < s.len() && s[from] != c {
        lemma_first_of(s, c, from + 1);
    }
}

/// `s` up to the first `c`, and what stands behind that, if anything does.
pub fn cut(s: &str, c: char) -> (parts: (String, Option<String>))
    ensures
        parts.0@ == s@.take(first_of(s@, c, 0)),
        opt_text(parts.1) == (if first_of(s@, c, 0) < s@.len() {
            Some(s@.skip(first_of(s@, c, 0) + 1))
        } else {
            None
        }),
{
    let chars = chars_of(s);
    let n: usize = chars.len();
    let mut i: usize = 0;
    while i < n && chars[i] != c
        invariant
            i <= n == chars@.len(),
            first_of(chars@, c, 0) == first_of(chars@, c, i as int),
        decreases n - i,
    {
        i += 1;
    }
    assert(chars@.subrange(0, i as int) == s@.take(i as int));
    let head = string_of(&chars, 0, i);
    if i < n {
        assert(chars@.subrange(i + 1, n as int) == s@.skip(i + 1));
        (head, Some(string_of(&chars, i + 1, n)))
    } else {
        (head, None)
    }
}

/// The value of a hexadecimal digit.
pub open spec fn hex_value(b: u8) -> Option<int> {
    if 0x30 <= b <= 0x39 {
        Some(b - 0x30)
    } else if 0x41 <= b <= 0x46 {
        Some(b - 0x37)
    } else if 0x61 <= b <= 0x66 {
        Some(b - 0x57)
    } else {
        None
    }
}

/// `bytes` with every percent sign and the two hexadecimal digits behind it read as one byte.
pub open spec fn unescaped(bytes: Seq<u8>) -> Seq<u8>
    decreases bytes.len(),
{
    if bytes.len() == 0 {
        Seq::empty()
    } else if bytes.len() >= 3 && bytes[0] == 0x25 && hex_value(bytes[1]) is Some && hex_value(
        bytes[2],
    ) is Some {
        seq![(16 * hex_value(bytes[1])->0 + hex_value(bytes[2])->0) as u8] + unescaped(
            bytes.skip(3),
        )
    } else {
        seq![bytes[0]] + unescaped(bytes.skip(1))
    }
}

/// The value of a hexadecimal digit.
fn hex_of(b: u8) -> (value: Option<u8>)
    ensures
        match value {
            Some(value) => hex_value(b) == Some(value as int) && value < 16,
            None => hex_value(b) is None,
        },
{
    if 0x30 <= b && b <= 0x39 {
        Some(b - 0x30)
    } else if 0x41 <= b && b <= 0x46 {
        Some(b - 0x37)
    } else if 0x61 <= b && b <= 0x66 {
        Some(b - 0x57)
    } else {
        None
    }
}

/// `bytes` with percent escapes read.
fn unescape_bytes(bytes: &[u8]) -> (plain: Vec<u8>)
    ensures
        plain@ == unescaped(bytes@),
{
    let mut plain: Vec<u8> = Vec::new();
    let n: usize = bytes.len();
    let mut i: usize = 0;
    assert(bytes@.skip(0) == bytes@);
    while i < n
        invariant
            i <= n == bytes@.len(),
            plain@ + unescaped(bytes@.skip(i as int)) == unescaped(bytes@),
        decreases n - i,
    {
        let ghost rest = bytes@.skip(i as int);
        let ghost before = plain@;
        let mut escaped: Option<u8> = None;
        if n - i >= 3 && bytes[i] == 0x25 {
            if let (Some(high), Some(low)) = (hex_of(bytes[i + 1]), hex_of(bytes[i + 2])) {
                escaped = Some(high * 16 + low);
            }
        }
        assert(rest.len() == n - i && rest[0] == bytes@[i as int]);
        match escaped {
            Some(b) => {
                assert(rest[1] == bytes@[i + 1] && rest[2] == bytes@[i + 2]);
                assert(unescaped(rest) == seq![b] + unescaped(rest.skip(3)));
                assert(rest.skip(3) == bytes@.skip(i + 3));
                plain.push(b);
                i += 3;
                assert(plain@ + unescaped(bytes@.skip(i as int)) == before + (seq![b] + unescaped(
                    bytes@.skip(i as int),
                )));
            },
            None => {
                if n - i >= 3 {
                    assert(rest[1] == bytes@[i + 1] && rest[2] == bytes@[i + 2]);
                }
                let b: u8 = bytes[i];
                assert(unescaped(rest) == seq![b] + unescaped(rest.skip(1)));
                assert(rest.skip(1) == bytes@.skip(i + 1));
                plain.push(b);
                i += 1;
                assert(plain@ + unescaped(bytes@.skip(i as int)) == before + (seq![b] + unescaped(
                    bytes@.skip(i as int),
                )));
            },
        }
    }
    assert(unescaped(bytes@.skip(n as int)) == Seq::<u8>::empty());
    plain
}

/// A text with its percent escapes read as UTF-8.
pub open spec fn unescaped_text(s: Seq<char>) -> Seq<char> {
    if s.contains('%') {
        lossy_text(unescaped(encode_utf8(s)))
    } else {
        s
    }
}

/// A text with its percent escapes read as UTF-8.
pub fn unescape(s: &str) -> (t: String)
    ensures
        t@ == unescaped_text(s@),
{
    let chars = chars_of(s);
    let mut i: usize = 0;
    while i < chars.len() && chars[i] != '%'
        invariant
            i <= chars@.len(),
            forall|j: int| 0 <= j < i ==> #[trigger] chars@[j] != '%',
        decreases chars@.len() - i,
    {
        i += 1;
    }
    if i < chars.len() {
        assert(s@[i as int] == '%');
        read_lossy(&unescape_bytes(s.as_bytes()))
    } else {
        s.to_owned()
    }
}

/// A text is trimmed away exactly when it holds nothing but white space.
pub proof fn law_blank_text_is_trimmed_away(s: Seq<char>)
    ensures
        trimmed(s).len() > 0 <==> exists|i: int|
            0 <= i < s.len() && !is_white_space(#[trigger] s[i]),
{
    let white = |c: char| is_white_space(c);
    let opened = drop_leading(s, white);
    lemma_drop_leading_keeps(s, white);
    lemma_drop_trailing_keeps(opened, white);
    if exists|i: int| 0 <= i < s.len() && !is_white_space(#[trigger] s[i]) {
        let i = choose|i: int| 0 <= i < s.len() && !is_white_space(#[trigger] s[i]);
        assert(!white(s[i]));
        assert(!white(opened[0]));
    }
    if trimmed(s).len() > 0 {
        let i = choose|i: int| 0 <= i < s.len() && !white(#[trigger] s[i]);
        assert(!is_white_space(s[i]));
    }
}

/// Something is left of a text without its leading characters where one of them is not dropped.
proof fn lemma_drop_leading_keeps(s: Seq<char>, p: spec_fn(char) -> bool)
    ensures
        drop_leading(s, p).len() > 0 <==> exists|i: int| 0 <= i < s.len() && !p(#[trigger] s[i]),
        drop_leading(s, p).len() > 0 ==> !p(drop_leading(s, p)[0]),
    decreases s.len(),
{
    if s.len() > 0 && p(s[0]) {
        let rest = s.drop_first();
        lemma_drop_leading_keeps(rest, p);
        if exists|i: int| 0 <= i < s.len() && !p(#[trigger] s[i]) {
            let i = choose|i: int| 0 <= i < s.len() && !p(#[trigger] s[i]);
            assert(rest[i - 1] == s[i]);
        }
        if exists|i: int| 0 <= i < rest.len() && !p(#[trigger] rest[i]) {
            let i = choose|i: int| 0 <= i < rest.len() && !p(#[trigger] rest[i]);
            assert(s[i + 1] == rest[i]);
        }
    } else if s.len() > 0 {
        assert(!p(s[0]));
    }
}

/// Something is left of a text without its trailing characters where one of them is not dropped.
proof fn lemma_drop_trailing_keeps(s: Seq<char>, p: spec_fn(char) -> bool)
    ensures
        drop_trailing(s, p).len() > 0 <==> exists|i: int| 0 <= i < s.len() && !p(#[trigger] s[i]),
    decreases s.len(),
{
    if s.len() > 0 && p(s.last()) {
        let rest = s.drop_last();
        lemma_drop_trailing_keeps(rest, p);
        if exists|i: int| 0 <= i < s.len() && !p(#[trigger] s[i]) {
            let i = choose|i: int| 0 <= i < s.len() && !p(#[trigger] s[i]);
            assert(rest[i] == s[i]);
        }
        if exists|i: int| 0 <= i < rest.len() && !p(#[trigger] rest[i]) {
            let i = choose|i: int| 0 <= i < rest.len() && !p(#[trigger] rest[i]);
            assert(s[i] == rest[i]);
        }
    } else if s.len() > 0 {
        assert(!p(s[s.len() - 1]));
    }
}

/// Text that does not hold the first character of a pattern stays as it is before what follows
/// it, and a pattern is replaced where it stands.
pub proof fn law_replaced_where_it_stands(
    before: Seq<char>,
    pat: Seq<char>,
    after: Seq<char>,
    with: Seq<char>,
)
    requires
        pat.len() > 0,
        !before.contains(pat[0]),
    ensures
        replaced(before, pat, with) == before,
        replaced(before + pat + after, pat, with) == before + with + replaced(after, pat, with),
    decreases before.len(),
{
    if before.len() > 0 {
        let rest = before.drop_first();
        assert forall|i: int| 0 <= i < rest.len() implies rest[i] != pat[0] by {
            assert(before[i + 1] == rest[i]);
        }
        assert(!rest.contains(pat[0]));
        law_replaced_where_it_stands(rest, pat, after, with);
        assert(before[0] != pat[0]);
        let whole = before + pat + after;
        assert(whole[0] == before[0]);
        assert(whole.skip(1) == rest + pat + after);
        assert(before.skip(1) == rest);
        if occurs_at(whole, pat, 0) {
            assert(whole.subrange(0, pat.len() as int)[0] == pat[0]);
        }
        if occurs_at(before, pat, 0) {
            assert(before.subrange(0, pat.len() as int)[0] == pat[0]);
        }
        assert(seq![before[0]] + rest == before);
        assert(seq![before[0]] + (rest + with + replaced(after, pat, with)) == before + with
            + replaced(after, pat, with));
    } else {
        let whole = before + pat + after;
        assert(whole == pat + after);
        assert(whole.subrange(0, pat.len() as int) == pat);
        assert(whole.skip(pat.len() as int) == after);
        assert(before + with + replaced(after, pat, with) == with + replaced(after, pat, with));
    }
}

/// The first character in which two texts differ decides which of them stands first; a text
/// stands before those that go on from it.
pub proof fn law_first_difference_decides(
    common: Seq<char>,
    a: char,
    rest_a: Seq<char>,
    b: char,
    rest_b: Seq<char>,
)
    ensures
        (a as u32) < (b as u32) ==> text_less(
            common + seq![a] + rest_a,
            common + seq![b] + rest_b,
        ),
        text_less(common, common + seq![b] + rest_b),
    decreases common.len(),
{
    let x = common + seq![a] + rest_a;
    let y = common + seq![b] + rest_b;
    if common.len() > 0 {
        let rest = common.drop_first();
        law_first_difference_decides(rest, a, rest_a, b, rest_b);
        assert(x.drop_first() == rest + seq![a] + rest_a);
        assert(y.drop_first() == rest + seq![b] + rest_b);
        assert(x[0] == common[0] && y[0] == common[0]);
    } else {
        assert(x[0] == a && y[0] == b);
    }
}

/// The parts of a text hold no other characters than the text.
pub proof fn law_pieces_hold_the_characters(s: Seq<char>, sep: char, p: spec_fn(char) -> bool)
    requires
        forall|i: int| 0 <= i < s.len() ==> p(#[trigger] s[i]),
    ensures
        forall|i: int, j: int|
            0 <= i < pieces(s, sep).len() && 0 <= j < pieces(s, sep)[i].len() ==> p(
                #[trigger] pieces(s, sep)[i][j],
            ),
    decreases s.len(),
{
    if s.len() > 0 {
        let rest = s.drop_last();
        assert forall|i: int| 0 <= i < rest.len() implies p(#[trigger] rest[i]) by {
            assert(s[i] == rest[i]);
        }
        law_pieces_hold_the_characters(rest, sep, p);
        law_pieces_join(rest, sep);
        let before = pieces(rest, sep);
        let after = pieces(s, sep);
        assert(p(s[s.len() - 1]));
        assert forall|i: int, j: int| 0 <= i < after.len() && 0 <= j < after[i].len() implies p(
            #[trigger] after[i][j],
        ) by {
            if s.last() == sep {
                if i < before.len() {
                    assert(after[i] == before[i]);
                    assert(p(before[i][j]));
                }
            } else if i < before.len() - 1 {
                assert(after[i] == before[i]);
                assert(p(before[i][j]));
            } else if j < before.last().len() {
                assert(after[i][j] == before[i][j]);
                assert(p(before[i][j]));
            }
        }
    }
}

/// Trimming removes the white space at the ends of a text and nothing of what stands between.
pub proof fn law_trim_removes_the_ends(before: Seq<char>, text: Seq<char>, after: Seq<char>)
    requires
        forall|i: int| 0 <= i < before.len() ==> is_white_space(#[trigger] before[i]),
        forall|i: int| 0 <= i < after.len() ==> is_white_space(#[trigger] after[i]),
        text.len() > 0 && !is_white_space(text[0]) && !is_white_space(text.last()),
    ensures
        trimmed(before + text + after) == text,
    decreases before.len() + after.len(),
{
    let white = |c: char| is_white_space(c);
    let whole = before + text + after;
    if before.len() > 0 {
        let rest = before.drop_first();
        assert forall|i: int| 0 <= i < rest.len() implies is_white_space(#[trigger] rest[i]) by {
            assert(before[i + 1] == rest[i]);
        }
        law_trim_removes_the_ends(rest, text, after);
        assert(whole[0] == before[0]);
        assert(whole.drop_first() == rest + text + after);
    } else if after.len() > 0 {
        let rest = after.drop_last();
        assert forall|i: int| 0 <= i < rest.len() implies is_white_space(#[trigger] rest[i]) by {
            assert(after[i] == rest[i]);
        }
        law_trim_removes_the_ends(before, text, rest);
        let shorter = before + text + rest;
        assert(whole[0] == text[0] && shorter[0] == text[0]);
        assert(drop_leading(whole, white) == whole);
        assert(drop_leading(shorter, white) == shorter);
        assert(whole.last() == after.last());
        assert(whole.drop_last() == shorter);
    } else {
        assert(whole == text);
        assert(drop_leading(text, white) == text);
    }
}

/// A text stands in every text that it was put into, at the place where it was put, and what
/// stands at a place can be cut out there.
pub proof fn law_parts_are_found_where_they_stand(
    before: Seq<char>,
    part: Seq<char>,
    after: Seq<char>,
)
    ensures
        occurs_at(before + part + after, part, before.len() as int),
        contains_text(before + part + after, part),
        ends_with_text(before + part, part),
{
    let whole = before + part + after;
    let n = before.len() as int;
    assert(whole.subrange(n, n + part.len()) == part);
    assert(occurs_at(whole, part, n));
    assert((before + part).subrange(n, n + part.len()) == part);
}

/// Where a text holds a part, it is made of what stands before it, the part, and what follows.
pub proof fn law_text_is_made_of_its_parts(s: Seq<char>, part: Seq<char>)
    ensures
        forall|i: int| #[trigger]
            occurs_at(s, part, i) ==> 0 <= i && i + part.len() <= s.len() && s == s.take(i) + part
                + s.skip(i + part.len()),
        contains_text(s, part) ==> exists|i: int|
            0 <= i && i + part.len() <= s.len() && s == #[trigger] s.take(i) + part + s.skip(
                i + part.len(),
            ),
        ends_with_text(s, part) ==> s == s.take(s.len() - part.len()) + part,
{
    assert forall|i: int| #[trigger] occurs_at(s, part, i) implies s == s.take(i) + part + s.skip(
        i + part.len(),
    ) by {
        assert(s.take(i) + s.subrange(i, i + part.len()) + s.skip(i + part.len()) == s);
    }
    if contains_text(s, part) {
        let i = choose|i: int| occurs_at(s, part, i);
        assert(s == s.take(i) + part + s.skip(i + part.len()));
    }
    if ends_with_text(s, part) {
        let i = s.len() - part.len();
        assert(occurs_at(s, part, i));
        assert(s.skip(i + part.len()) == Seq::<char>::empty());
        assert(s.take(i) + part + Seq::<char>::empty() == s.take(i) + part);
    }
}

/// A percent sign and two hexadecimal digits stand for one byte; any other byte stands for
/// itself.
pub proof fn law_escapes_stand_for_bytes(high: u8, low: u8, rest: Seq<u8>, plain: u8)
    requires
        plain != 0x25,
    ensures
        hex_value(high) is Some && hex_value(low) is Some ==> unescaped(
            seq![0x25u8, high, low] + rest,
        ) == seq![(hex_value(high)->0 * 16 + hex_value(low)->0) as u8] + unescaped(rest),
        unescaped(seq![plain] + rest) == seq![plain] + unescaped(rest),
        unescaped(Seq::empty()) == Seq::<u8>::empty(),
{
    let escaped = seq![0x25u8, high, low] + rest;
    let other = seq![plain] + rest;
    assert(escaped.skip(3) == rest);
    assert(other.skip(1) == rest);
    assert(escaped[0] == 0x25 && escaped[1] == high && escaped[2] == low);
    assert(other[0] == plain);
}

/// The hexadecimal digits are the ten digits and the first six letters, small or large.
pub proof fn law_hexadecimal_digits(b: u8)
    ensures
        0x30 <= b <= 0x39 ==> hex_value(b) == Some(b - 0x30),
        0x41 <= b <= 0x46 ==> hex_value(b) == Some(b - 0x41 + 10),
        0x61 <= b <= 0x66 ==> hex_value(b) == Some(b - 0x61 + 10),
        hex_value(b) is Some ==> 0x30 <= b <= 0x39 || 0x41 <= b <= 0x46 || 0x61 <= b <= 0x66,
{
}

/// The view of an optional string or of a list of strings holds every one of them.
pub proof fn law_views_of_strings(o: Option<String>, list: Seq<String>)
    ensures
        o is None <==> opt_text(o) is None,
        o matches Some(s) ==> opt_text(o) == Some(s@),
        strings(list).len() == list.len(),
        forall|i: int| 0 <= i < list.len() ==> #[trigger] strings(list)[i] == list[i]@,
{
}

/// White space is the blank, the control characters that separate lines and columns, and the
/// separators of Unicode; no character that prints is white space, nor one of no width.
pub proof fn law_what_white_space_is(c: char)
    ensures
        c == ' ' || '\t' <= c <= '\r' ==> is_white_space(c),
        c == '\u{85}' || c == '\u{a0}' || c == '\u{1680}' || '\u{2000}' <= c <= '\u{200a}'
            ==> is_white_space(c),
        c == '\u{2028}' || c == '\u{2029}' || c == '\u{202f}' || c == '\u{205f}' || c
            == '\u{3000}' ==> is_white_space(c),
        '!' <= c <= '~' || '\u{a1}' <= c <= '\u{167f}' || '\u{1681}' <= c <= '\u{1fff}'
            ==> !is_white_space(c),
        '\u{200b}' <= c <= '\u{2027}' || '\u{3001}' <= c <= '\u{10ffff}' ==> !is_white_space(c),
        '\0' <= c <= '\u{8}' || '\u{e}' <= c <= '\u{1f}' ==> !is_white_space(c),
{
}

} // verus!
