//! Text as sequences of characters: the string operations that the gateway is
//! built from, each with its meaning as a function on `Seq<char>`.
use vstd::prelude::*;

verus! {

/// `String::push` of the standard library: the character is added at the end.
pub assume_specification[ String::push ](s: &mut String, c: char)
    ensures
        final(s)@ == old(s)@.push(c),
;

/// The text that bytes stand for in UTF-8, where what is not UTF-8 is replaced.
pub uninterp spec fn utf8_lossy(bytes: Seq<u8>) -> Seq<char>;

/// `String::from_utf8_lossy` of the standard library: a function of the bytes
/// alone, named `utf8_lossy`. On bytes that are UTF-8 it is their text.
#[verifier::external_body]
pub(crate) fn lossy_text(bytes: &[u8]) -> (s: String)
    ensures
        s@ == utf8_lossy(bytes@),
        vstd::utf8::valid_utf8(bytes@) ==> s@ == vstd::utf8::decode_utf8(bytes@),
{
    String::from_utf8_lossy(bytes).into_owned()
}

/// A text in quotes, with its special characters escaped.
pub uninterp spec fn quoted(text: Seq<char>) -> Seq<char>;

/// The `Debug` form of a `str` in the standard library: a function of the text
/// alone, named `quoted`.
#[verifier::external_body]
pub(crate) fn quoted_text(text: &str) -> (s: String)
    ensures
        s@ == quoted(text@),
{
    format!("{text:?}")
}

/// The views of the elements of a sequence.
pub open spec fn views<T: View>(s: Seq<T>) -> Seq<T::V> {
    s.map_values(|t: T| t@)
}

/// The view of an optional value.
pub open spec fn opt_view<T: View>(o: Option<T>) -> Option<T::V> {
    match o {
        Some(t) => Some(t@),
        None => None,
    }
}

/// The Unicode property `White_Space`.
pub open spec fn is_white(c: char) -> bool {
    ||| '\u{9}' <= c <= '\u{d}'
    ||| c == '\u{20}'
    ||| c == '\u{85}'
    ||| c == '\u{a0}'
    ||| c == '\u{1680}'
    ||| '\u{2000}' <= c <= '\u{200a}'
    ||| c == '\u{2028}'
    ||| c == '\u{2029}'
    ||| c == '\u{202f}'
    ||| c == '\u{205f}'
    ||| c == '\u{3000}'
}

/// Whether a text holds nothing but white space.
pub open spec fn is_blank(s: Seq<char>) -> bool {
    forall|i: int| 0 <= i < s.len() ==> is_white(#[trigger] s[i])
}

/// A text without the white space at its start.
pub open spec fn trim_start(s: Seq<char>) -> Seq<char>
    decreases s.len(),
{
    if s.len() > 0 && is_white(s[0]) {
        trim_start(s.drop_first())
    } else {
        s
    }
}

/// A text without the white space at its end.
pub open spec fn trim_end(s: Seq<char>) -> Seq<char>
    decreases s.len(),
{
    if s.len() > 0 && is_white(s.last()) {
        trim_end(s.drop_last())
    } else {
        s
    }
}

/// A text without the white space at its two ends.
pub open spec fn trim(s: Seq<char>) -> Seq<char> {
    trim_end(trim_start(s))
}

/// A text without the characters `c` at its start.
pub open spec fn trim_start_of(s: Seq<char>, c: char) -> Seq<char>
    decreases s.len(),
{
    if s.len() > 0 && s[0] == c {
        trim_start_of(s.drop_first(), c)
    } else {
        s
    }
}

/// A text without the characters `c` at its end.
pub open spec fn trim_end_of(s: Seq<char>, c: char) -> Seq<char>
    decreases s.len(),
{
    if s.len() > 0 && s.last() == c {
        trim_end_of(s.drop_last(), c)
    } else {
        s
    }
}

/// A text without the characters `c` at its two ends.
pub open spec fn trim_of(s: Seq<char>, c: char) -> Seq<char> {
    trim_end_of(trim_start_of(s, c), c)
}

/// Whether `s` begins with `prefix`.
pub open spec fn starts_with(s: Seq<char>, prefix: Seq<char>) -> bool {
    prefix.len() <= s.len() && s.take(prefix.len() as int) == prefix
}

/// What follows `prefix` in a text that begins with it.
pub open spec fn strip_prefix(s: Seq<char>, prefix: Seq<char>) -> Option<Seq<char>> {
    if starts_with(s, prefix) {
        Some(s.skip(prefix.len() as int))
    } else {
        None
    }
}

/// The index of the first `c` in a text, or the text's length where it has none.
pub open spec fn first_index(s: Seq<char>, c: char) -> int
    decreases s.len(),
{
    if s.len() == 0 || s[0] == c {
        0
    } else {
        1 + first_index(s.drop_first(), c)
    }
}

/// The index at which `pat` first occurs in `s`.
pub open spec fn find(s: Seq<char>, pat: Seq<char>) -> Option<int>
    decreases s.len(),
{
    if starts_with(s, pat) {
        Some(0)
    } else if s.len() == 0 {
        None
    } else {
        match find(s.drop_first(), pat) {
            Some(i) => Some(i + 1),
            None => None,
        }
    }
}

/// Whether `pat` occurs in `s`.
pub open spec fn contains(s: Seq<char>, pat: Seq<char>) -> bool {
    find(s, pat) is Some
}

/// A text in which the first occurrence of `pat` is replaced by `rep`.
pub open spec fn replace_first(s: Seq<char>, pat: Seq<char>, rep: Seq<char>) -> Seq<char> {
    match find(s, pat) {
        Some(i) => s.take(i) + rep + s.skip(i + pat.len()),
        None => s,
    }
}

/// A text in which every occurrence of `pat`, from left to right and without
/// overlaps, is replaced by `rep`. (An empty `pat` is not looked for.)
pub open spec fn replace_all(s: Seq<char>, pat: Seq<char>, rep: Seq<char>) -> Seq<char>
    decreases s.len(),
{
    if pat.len() == 0 {
        s
    } else {
        match find(s, pat) {
            Some(i) => if 0 <= i && i + pat.len() <= s.len() {
                s.take(i) + rep + replace_all(s.skip(i + pat.len()), pat, rep)
            } else {
                s
            },
            None => s,
        }
    }
}

/// The text before a line feed, without the carriage return that ends it.
pub open spec fn without_cr(s: Seq<char>) -> Seq<char> {
    if s.len() > 0 && s.last() == '\r' {
        s.drop_last()
    } else {
        s
    }
}

/// The lines of a text. A line ends with a line feed, or with a carriage return
/// and a line feed; the last one may also end with the text.
pub open spec fn lines(s: Seq<char>) -> Seq<Seq<char>>
    decreases s.len(),
    via lines_decreases
{
    if s.len() == 0 {
        Seq::empty()
    } else {
        let i = first_index(s, '\n');
        if i < s.len() {
            seq![without_cr(s.take(i))] + lines(s.skip(i + 1))
        } else {
            seq![s]
        }
    }
}

#[via_fn]
proof fn lines_decreases(s: Seq<char>) {
    lemma_first_index(s, '\n');
}

/// The texts of a list, one after the other, with `sep` between them.
pub open spec fn join(parts: Seq<Seq<char>>, sep: Seq<char>) -> Seq<char>
    decreases parts.len(),
{
    if parts.len() == 0 {
        Seq::empty()
    } else if parts.len() == 1 {
        parts[0]
    } else {
        join(parts.drop_last(), sep) + sep + parts.last()
    }
}

/// The number of bytes of a text in UTF-8.
pub open spec fn byte_len(s: Seq<char>) -> nat {
    vstd::utf8::encode_utf8(s).len()
}

/// The character for a decimal digit.
pub open spec fn digit(d: nat) -> char {
    ('0' as u32 + d) as char
}

/// A number in decimal digits.
pub open spec fn decimal(n: nat) -> Seq<char>
    decreases n,
{
    if n < 10 {
        seq![digit(n)]
    } else {
        decimal(n / 10).push(digit(n % 10))
    }
}

/// An integer in decimal digits, with a minus sign where it is negative.
pub open spec fn decimal_int(n: int) -> Seq<char> {
    if n < 0 {
        seq!['-'] + decimal((-n) as nat)
    } else {
        decimal(n as nat)
    }
}

/// At most the first `n` characters of a text.
pub open spec fn first_chars(s: Seq<char>, n: nat) -> Seq<char> {
    if n < s.len() {
        s.take(n as int)
    } else {
        s
    }
}

// Facts about these functions.

pub proof fn lemma_first_index(s: Seq<char>, c: char)
    ensures
        0 <= first_index(s, c) <= s.len(),
        first_index(s, c) < s.len() ==> s[first_index(s, c)] == c,
        forall|i: int| 0 <= i < first_index(s, c) ==> s[i] != c,
    decreases s.len(),
{
    if s.len() > 0 && s[0] != c {
        let t = s.drop_first();
        lemma_first_index(t, c);
        assert forall|i: int| 0 <= i < first_index(s, c) implies s[i] != c by {
            if i > 0 {
                assert(s[i] == t[i - 1]);
            }
        }
    }
}

/// The first index of `c` is pinned down by its properties.
pub proof fn lemma_first_index_is(s: Seq<char>, c: char, k: int)
    requires
        0 <= k <= s.len(),
        k < s.len() ==> s[k] == c,
        forall|i: int| 0 <= i < k ==> s[i] != c,
    ensures
        first_index(s, c) == k,
{
    lemma_first_index(s, c);
}

pub proof fn lemma_find_bounds(s: Seq<char>, pat: Seq<char>)
    ensures
        find(s, pat) matches Some(i) ==> 0 <= i && i + pat.len() <= s.len() && s.subrange(
            i,
            i + pat.len(),
        ) == pat,
    decreases s.len(),
{
    if starts_with(s, pat) {
        assert(s.subrange(0, pat.len() as int) =~= pat);
    } else if s.len() > 0 {
        lemma_find_bounds(s.drop_first(), pat);
        if let Some(i) = find(s.drop_first(), pat) {
            assert(s.subrange(i + 1, i + 1 + pat.len()) =~= s.drop_first().subrange(
                i,
                i + pat.len(),
            ));
        }
    }
}

/// A text occurs in another exactly when it stands at some index of it.
pub proof fn lemma_contains_iff(s: Seq<char>, pat: Seq<char>)
    ensures
        contains(s, pat) <==> exists|i: int|
            0 <= i && i + pat.len() <= s.len() && #[trigger] s.subrange(i, i + pat.len()) == pat,
{
    lemma_find_bounds(s, pat);
    assert forall|i: int|
        0 <= i && i + pat.len() <= s.len() && #[trigger] s.subrange(i, i + pat.len())
            == pat implies contains(s, pat) by {
        lemma_found_at(s, pat, i);
    }
}

/// A text that stands at some index is found there or before.
pub proof fn lemma_found_at(s: Seq<char>, pat: Seq<char>, i: int)
    requires
        0 <= i,
        i + pat.len() <= s.len(),
        s.subrange(i, i + pat.len()) == pat,
    ensures
        contains(s, pat),
        find(s, pat)->0 <= i,
    decreases s.len(),
{
    if i == 0 {
        assert(s.take(pat.len() as int) =~= pat);
    } else {
        let t = s.drop_first();
        assert(t.subrange(i - 1, i - 1 + pat.len()) =~= pat);
        lemma_found_at(t, pat, i - 1);
    }
}

/// A text that stands at an index, and at none before, is found there.
pub proof fn lemma_find_is(s: Seq<char>, pat: Seq<char>, m: int)
    requires
        0 <= m,
        m + pat.len() <= s.len(),
        s.subrange(m, m + pat.len()) == pat,
        forall|j: int| 0 <= j < m ==> #[trigger] s.subrange(j, j + pat.len()) != pat,
    ensures
        find(s, pat) == Some(m),
{
    lemma_found_at(s, pat, m);
    lemma_find_bounds(s, pat);
}

/// A text occurs in what it is a part of.
pub proof fn lemma_contains_part(before: Seq<char>, part: Seq<char>, rest: Seq<char>)
    ensures
        contains(before + part + rest, part),
{
    let s = before + part + rest;
    let i = before.len() as int;
    assert(s.subrange(i, i + part.len()) =~= part);
    lemma_found_at(s, part, i);
}

/// A text is blank exactly when trimming leaves nothing of it.
pub proof fn lemma_blank_iff_trim_empty(s: Seq<char>)
    ensures
        is_blank(s) <==> trim(s).len() == 0,
{
    lemma_trim_start(s);
    lemma_trim_end(trim_start(s));
}

proof fn lemma_trim_start(s: Seq<char>)
    ensures
        is_blank(s) <==> trim_start(s).len() == 0,
        trim_start(s).len() > 0 ==> !is_white(trim_start(s)[0]),
    decreases s.len(),
{
    if s.len() > 0 && is_white(s[0]) {
        let t = s.drop_first();
        lemma_trim_start(t);
        if is_blank(t) {
            assert forall|i: int| 0 <= i < s.len() implies is_white(#[trigger] s[i]) by {
                if i > 0 {
                    assert(is_white(t[i - 1]));
                }
            }
        } else {
            let k = choose|k: int| 0 <= k < t.len() && !is_white(t[k]);
            assert(!is_white(s[k + 1]));
        }
    }
}

proof fn lemma_trim_end(s: Seq<char>)
    ensures
        s.len() > 0 && !is_white(s[0]) ==> trim_end(s).len() > 0 && trim_end(s)[0] == s[0],
        s.len() == 0 ==> trim_end(s).len() == 0,
    decreases s.len(),
{
    if s.len() > 0 && is_white(s.last()) {
        lemma_trim_end(s.drop_last());
    }
}

// Executable counterparts.

/// The characters of a text.
pub fn to_chars(s: &str) -> (v: Vec<char>)
    ensures
        v@ == s@,
{
    let mut v: Vec<char> = Vec::new();
    for c in it: s.chars()
        invariant
            v@ == it.seq().take(it.index() as int),
            it.seq() == s@,
    {
        v.push(c);
    }
    v
}

/// The text made of the characters from `from` up to `to`.
pub fn from_chars(v: &Vec<char>, from: usize, to: usize) -> (s: String)
    requires
        from <= to <= v@.len(),
    ensures
        s@ == v@.subrange(from as int, to as int),
{
    let mut s = String::new();
    let mut i: usize = from;
    while i < to
        invariant
            from <= i <= to <= v@.len(),
            s@ == v@.subrange(from as int, i as int),
        decreases to - i,
    {
        s.push(v[i]);
        i = i + 1;
    }
    s
}

/// Whether two texts are the same.
pub fn same(a: &str, b: &str) -> (r: bool)
    ensures
        r == (a@ == b@),
{
    let x = a.to_owned();
    let y = b.to_owned();
    x == y
}

/// Whether `c` is white space.
pub fn white(c: char) -> (r: bool)
    ensures
        r == is_white(c),
{
    ('\u{9}' <= c && c <= '\u{d}') || c == '\u{20}' || c == '\u{85}' || c == '\u{a0}' || c
        == '\u{1680}' || ('\u{2000}' <= c && c <= '\u{200a}') || c == '\u{2028}' || c == '\u{2029}'
        || c == '\u{202f}' || c == '\u{205f}' || c == '\u{3000}'
}

/// Whether a text holds nothing but white space.
pub fn blank(s: &str) -> (r: bool)
    ensures
        r == is_blank(s@),
{
    let v = to_chars(s);
    let mut i: usize = 0;
    while i < v.len()
        invariant
            i <= v@.len(),
            forall|j: int| 0 <= j < i ==> is_white(#[trigger] v@[j]),
            v@ == s@,
        decreases v@.len() - i,
    {
        if !white(v[i]) {
            return false;
        }
        i = i + 1;
    }
    true
}

/// A text without the white space at its two ends.
pub fn trimmed(s: &str) -> (r: String)
    ensures
        r@ == trim(s@),
{
    let v = to_chars(s);
    let mut start: usize = 0;
    assert(v@.skip(0) =~= v@);
    while start < v.len() && white(v[start])
        invariant
            start <= v@.len(),
            trim_start(v@) == trim_start(v@.skip(start as int)),
        decreases v@.len() - start,
    {
        assert(v@.skip(start as int).drop_first() =~= v@.skip(start + 1));
        start = start + 1;
    }
    let mut end: usize = v.len();
    assert(v@.subrange(start as int, end as int) =~= v@.skip(start as int));
    while end > start && white(v[end - 1])
        invariant
            start <= end <= v@.len(),
            trim(v@) == trim_end(v@.subrange(start as int, end as int)),
        decreases end - start,
    {
        assert(v@.subrange(start as int, end as int).drop_last() =~= v@.subrange(
            start as int,
            end - 1,
        ));
        end = end - 1;
    }
    from_chars(&v, start, end)
}

/// A text without the characters `c` at its end.
pub fn trimmed_end_of(s: &str, c: char) -> (r: String)
    ensures
        r@ == trim_end_of(s@, c),
{
    let v = to_chars(s);
    let mut end: usize = v.len();
    assert(v@.subrange(0, end as int) =~= v@);
    while end > 0 && v[end - 1] == c
        invariant
            end <= v@.len(),
            trim_end_of(v@, c) == trim_end_of(v@.subrange(0, end as int), c),
        decreases end,
    {
        assert(v@.subrange(0, end as int).drop_last() =~= v@.subrange(0, end - 1));
        end = end - 1;
    }
    from_chars(&v, 0, end)
}

/// A text without the characters `c` at its start.
pub fn trimmed_start_of(s: &str, c: char) -> (r: String)
    ensures
        r@ == trim_start_of(s@, c),
{
    let v = to_chars(s);
    let mut start: usize = 0;
    assert(v@.skip(0) =~= v@);
    while start < v.len() && v[start] == c
        invariant
            start <= v@.len(),
            trim_start_of(v@, c) == trim_start_of(v@.skip(start as int), c),
        decreases v@.len() - start,
    {
        assert(v@.skip(start as int).drop_first() =~= v@.skip(start + 1));
        start = start + 1;
    }
    let tail = from_chars(&v, start, v.len());
    assert(tail@ =~= v@.skip(start as int));
    tail
}

/// A text without the characters `c` at its two ends.
pub fn trimmed_of(s: &str, c: char) -> (r: String)
    ensures
        r@ == trim_of(s@, c),
{
    let tail = trimmed_start_of(s, c);
    trimmed_end_of(tail.as_str(), c)
}

/// Whether `pat` stands in `v` at the index `at`.
fn stands_at(v: &Vec<char>, pat: &Vec<char>, at: usize) -> (r: bool)
    requires
        at <= v@.len(),
    ensures
        r == starts_with(v@.skip(at as int), pat@),
{
    let n: usize = v.len();
    if pat.len() > n - at {
        return false;
    }
    let mut i: usize = 0;
    while i < pat.len()
        invariant
            at + pat@.len() <= v@.len() == n,
            i <= pat@.len(),
            forall|j: int| 0 <= j < i ==> v@[at + j] == #[trigger] pat@[j],
        decreases pat@.len() - i,
    {
        if v[at + i] != pat[i] {
            proof {
                let t = v@.skip(at as int);
                assert(t.take(pat@.len() as int)[i as int] == v@[at + i]);
            }
            return false;
        }
        i = i + 1;
    }
    assert(v@.skip(at as int).take(pat@.len() as int) =~= pat@);
    true
}

/// Whether `s` begins with `prefix`.
pub fn begins_with(s: &str, prefix: &str) -> (r: bool)
    ensures
        r == starts_with(s@, prefix@),
{
    let v = to_chars(s);
    let p = to_chars(prefix);
    assert(v@.skip(0) =~= v@);
    stands_at(&v, &p, 0)
}

/// What follows `prefix` in a text that begins with it.
pub fn after_prefix(s: &str, prefix: &str) -> (r: Option<String>)
    ensures
        opt_view(r) == strip_prefix(s@, prefix@),
{
    let v = to_chars(s);
    let p = to_chars(prefix);
    assert(v@.skip(0) =~= v@);
    if stands_at(&v, &p, 0) {
        let rest = from_chars(&v, p.len(), v.len());
        assert(rest@ =~= s@.skip(prefix@.len() as int));
        Some(rest)
    } else {
        None
    }
}

/// The index of the first `c` at or after `from`, or the length where there is none.
pub fn index_of(v: &Vec<char>, c: char, from: usize) -> (i: usize)
    requires
        from <= v@.len(),
    ensures
        from <= i <= v@.len(),
        i - from == first_index(v@.skip(from as int), c),
{
    let mut i: usize = from;
    while i < v.len() && v[i] != c
        invariant
            from <= i <= v@.len(),
            forall|j: int| from <= j < i ==> v@[j] != c,
        decreases v@.len() - i,
    {
        i = i + 1;
    }
    proof {
        lemma_first_index_is(v@.skip(from as int), c, i - from);
    }
    i
}

/// The index at which `pat` first occurs in `v` at or after `from`.
pub fn find_from(v: &Vec<char>, pat: &Vec<char>, from: usize) -> (r: Option<usize>)
    requires
        from <= v@.len(),
    ensures
        match r {
            Some(i) => from <= i && i + pat@.len() <= v@.len() && find(v@.skip(from as int), pat@)
                == Some(i - from),
            None => find(v@.skip(from as int), pat@) is None,
        },
{
    let mut i: usize = from;
    loop
        invariant
            from <= i <= v@.len(),
            match find(v@.skip(i as int), pat@) {
                Some(k) => find(v@.skip(from as int), pat@) == Some(k + i - from),
                None => find(v@.skip(from as int), pat@) is None,
            },
        decreases v@.len() - i,
    {
        if stands_at(v, pat, i) {
            return Some(i);
        }
        if i == v.len() {
            return None;
        }
        assert(v@.skip(i as int).drop_first() =~= v@.skip(i + 1));
        i = i + 1;
    }
}

/// Whether `pat` occurs in `s`.
pub fn occurs_in(s: &str, pat: &str) -> (r: bool)
    ensures
        r == contains(s@, pat@),
{
    let v = to_chars(s);
    let p = to_chars(pat);
    assert(v@.skip(0) =~= v@);
    match find_from(&v, &p, 0) {
        Some(_) => true,
        None => false,
    }
}

/// A text in which the first occurrence of `pat` is replaced by `rep`.
pub fn with_first_replaced(s: &str, pat: &str, rep: &str) -> (r: String)
    ensures
        r@ == replace_first(s@, pat@, rep@),
{
    let v = to_chars(s);
    let p = to_chars(pat);
    assert(v@.skip(0) =~= v@);
    match find_from(&v, &p, 0) {
        Some(i) => {
            let n: usize = v.len();
            let mut r = from_chars(&v, 0, i);
            r.append(rep);
            let tail = from_chars(&v, i + p.len(), n);
            r.append(tail.as_str());
            assert(v@.subrange(0, i as int) =~= v@.take(i as int));
            assert(tail@ =~= v@.skip(i + p@.len()));
            r
        },
        None => s.to_owned(),
    }
}

/// A text in which every occurrence of `pat` is replaced by `rep`.
pub fn with_all_replaced(s: &str, pat: &str, rep: &str) -> (r: String)
    requires
        pat@.len() > 0,
    ensures
        r@ == replace_all(s@, pat@, rep@),
{
    let v = to_chars(s);
    let p = to_chars(pat);
    let n: usize = v.len();
    let mut r = String::new();
    let mut pos: usize = 0;
    assert(v@.skip(0) =~= v@);
    assert(r@ + replace_all(v@, p@, rep@) =~= replace_all(v@, p@, rep@));
    loop
        invariant
            pos <= v@.len() == n,
            v@ == s@,
            p@ == pat@,
            p@.len() > 0,
            r@ + replace_all(v@.skip(pos as int), p@, rep@) == replace_all(s@, pat@, rep@),
        decreases v@.len() - pos,
    {
        match find_from(&v, &p, pos) {
            Some(i) => {
                let ghost before = r@;
                let piece = from_chars(&v, pos, i);
                r.append(piece.as_str());
                r.append(rep);
                proof {
                    let t = v@.skip(pos as int);
                    let next = v@.skip(i + p@.len());
                    assert(t.take(i - pos) =~= piece@);
                    assert(t.skip(i - pos + p@.len()) =~= next);
                    assert(before + (piece@ + rep@ + replace_all(next, p@, rep@)) =~= before
                        + piece@ + rep@ + replace_all(next, p@, rep@));
                }
                pos = i + p.len();
            },
            None => {
                let tail = from_chars(&v, pos, n);
                assert(tail@ =~= v@.skip(pos as int));
                r.append(tail.as_str());
                return r;
            },
        }
    }
}

/// The lines of a text.
pub fn split_lines(s: &str) -> (r: Vec<String>)
    ensures
        views(r@) == lines(s@),
{
    let v = to_chars(s);
    let mut r: Vec<String> = Vec::new();
    let mut pos: usize = 0;
    assert(v@.skip(0) =~= v@);
    assert(views(r@) + lines(v@) =~= lines(v@));
    while pos < v.len()
        invariant
            pos <= v@.len(),
            v@ == s@,
            views(r@) + lines(v@.skip(pos as int)) == lines(s@),
        decreases v@.len() - pos,
    {
        let ghost t = v@.skip(pos as int);
        let ghost before = views(r@);
        let i = index_of(&v, '\n', pos);
        if i < v.len() {
            let end: usize = if i > pos && v[i - 1] == '\r' {
                i - 1
            } else {
                i
            };
            let line = from_chars(&v, pos, end);
            assert(line@ =~= without_cr(t.take(i - pos)));
            assert(t.skip(i - pos + 1) =~= v@.skip(i + 1));
            let ghost text = line@;
            r.push(line);
            assert(views(r@) =~= before.push(text));
            assert(before + (seq![text] + lines(v@.skip(i + 1))) =~= before.push(text) + lines(
                v@.skip(i + 1),
            ));
            pos = i + 1;
        } else {
            let line = from_chars(&v, pos, v.len());
            assert(line@ =~= t);
            r.push(line);
            assert(views(r@) =~= before + seq![t]);
            return r;
        }
    }
    assert(v@.skip(pos as int) =~= Seq::<char>::empty());
    assert(views(r@) + lines(Seq::<char>::empty()) =~= views(r@));
    r
}

/// The texts of a list, one after the other, with `sep` between them.
pub fn joined(parts: &Vec<String>, sep: &str) -> (r: String)
    ensures
        r@ == join(views(parts@), sep@),
{
    let mut r = String::new();
    let mut i: usize = 0;
    assert(views(parts@).take(0) =~= Seq::<Seq<char>>::empty());
    while i < parts.len()
        invariant
            i <= parts@.len(),
            r@ == join(views(parts@).take(i as int), sep@),
        decreases parts@.len() - i,
    {
        let ghost prefix = views(parts@).take(i + 1);
        assert(prefix.drop_last() =~= views(parts@).take(i as int));
        if i > 0 {
            r.append(sep);
        }
        r.append(parts[i].as_str());
        assert(r@ =~= join(prefix, sep@));
        i = i + 1;
    }
    assert(views(parts@).take(i as int) =~= views(parts@));
    r
}

/// At most the first `n` characters of a text.
pub fn prefix_chars(s: &str, n: usize) -> (r: String)
    ensures
        r@ == first_chars(s@, n as nat),
{
    let v = to_chars(s);
    let end: usize = if n < v.len() {
        n
    } else {
        v.len()
    };
    let r = from_chars(&v, 0, end);
    assert(r@ =~= first_chars(s@, n as nat));
    r
}

/// The character for a decimal digit.
pub fn digit_char(d: u64) -> (c: char)
    requires
        d < 10,
    ensures
        c == digit(d as nat),
{
    if d == 0 {
        '0'
    } else if d == 1 {
        '1'
    } else if d == 2 {
        '2'
    } else if d == 3 {
        '3'
    } else if d == 4 {
        '4'
    } else if d == 5 {
        '5'
    } else if d == 6 {
        '6'
    } else if d == 7 {
        '7'
    } else if d == 8 {
        '8'
    } else {
        '9'
    }
}

/// A number in decimal digits.
pub fn decimal_text(n: u64) -> (r: String)
    ensures
        r@ == decimal(n as nat),
    decreases n,
{
    if n < 10 {
        let mut r = String::new();
        r.push(digit_char(n));
        assert(r@ =~= seq![digit(n as nat)]);
        r
    } else {
        let mut r = decimal_text(n / 10);
        r.push(digit_char(n % 10));
        r
    }
}

/// An integer in decimal digits, with a minus sign where it is negative.
pub fn decimal_int_text(n: i64) -> (r: String)
    requires
        n > i64::MIN,
    ensures
        r@ == decimal_int(n as int),
{
    if n < 0 {
        let mut r = String::new();
        r.push('-');
        assert(r@ =~= seq!['-']);
        let digits = decimal_text((-n) as u64);
        r.append(digits.as_str());
        r
    } else {
        decimal_text(n as u64)
    }
}

// What the functions on texts are for, each told by the texts themselves.

/// White space is what Unicode counts as such, by code point.
pub proof fn law_white_space(c: char)
    ensures
        ({
            let u = c as u32;
            is_white(c) <==> {
                ||| 9 <= u <= 13
                ||| u == 32
                ||| u == 133
                ||| u == 160
                ||| u == 5760
                ||| 8192 <= u <= 8202
                ||| u == 8232
                ||| u == 8233
                ||| u == 8239
                ||| u == 8287
                ||| u == 12288
            }
        }),
{
}

/// A text is blank exactly when no character of it is anything but white space.
pub proof fn law_blank(s: Seq<char>)
    ensures
        is_blank(s) <==> !(exists|i: int| 0 <= i < s.len() && !is_white(#[trigger] s[i])),
{
}

proof fn lemma_trim_start_at(s: Seq<char>) -> (i: int)
    ensures
        0 <= i <= s.len(),
        trim_start(s) == s.skip(i),
        forall|k: int| 0 <= k < i ==> is_white(#[trigger] s[k]),
        i < s.len() ==> !is_white(s[i]),
    decreases s.len(),
{
    if s.len() > 0 && is_white(s[0]) {
        let t = s.drop_first();
        let i = lemma_trim_start_at(t);
        assert(t.skip(i) =~= s.skip(i + 1));
        assert forall|k: int| 0 <= k < i + 1 implies is_white(#[trigger] s[k]) by {
            if k > 0 {
                assert(s[k] == t[k - 1]);
            }
        }
        i + 1
    } else {
        assert(s.skip(0) =~= s);
        0
    }
}

proof fn lemma_trim_end_at(s: Seq<char>) -> (j: int)
    ensures
        0 <= j <= s.len(),
        trim_end(s) == s.take(j),
        forall|k: int| j <= k < s.len() ==> is_white(#[trigger] s[k]),
        j > 0 ==> !is_white(s[j - 1]),
    decreases s.len(),
{
    if s.len() > 0 && is_white(s.last()) {
        let t = s.drop_last();
        let j = lemma_trim_end_at(t);
        assert(t.take(j) =~= s.take(j));
        assert forall|k: int| j <= k < s.len() implies is_white(#[trigger] s[k]) by {
            if k < t.len() {
                assert(s[k] == t[k]);
            }
        }
        j
    } else {
        assert(s.take(s.len() as int) =~= s);
        s.len() as int
    }
}

/// Trimming leaves the part of a text between the white space at its two ends: what goes
/// is white space, and what stays neither begins nor ends with any.
pub proof fn law_trim(s: Seq<char>)
    ensures
        exists|i: int, j: int|
            {
                &&& 0 <= i <= j <= s.len()
                &&& #[trigger] s.subrange(i, j) == trim(s)
                &&& forall|k: int| 0 <= k < i || j <= k < s.len() ==> is_white(#[trigger] s[k])
                &&& i < j ==> !is_white(s[i]) && !is_white(s[j - 1])
            },
{
    let i = lemma_trim_start_at(s);
    let t = s.skip(i);
    let n = lemma_trim_end_at(t);
    let j = i + n;
    assert(s.subrange(i, j) =~= t.take(n));
    assert forall|k: int| 0 <= k < i || j <= k < s.len() implies is_white(#[trigger] s[k]) by {
        if k >= j {
            assert(s[k] == t[k - i]);
        }
    }
    if i < j {
        assert(s[j - 1] == t[n - 1]);
    }
}

/// A text between white space is what trimming leaves, where it neither begins nor ends
/// with any.
pub proof fn law_trim_of_padded(before: Seq<char>, core: Seq<char>, after: Seq<char>)
    requires
        forall|k: int| 0 <= k < before.len() ==> is_white(#[trigger] before[k]),
        forall|k: int| 0 <= k < after.len() ==> is_white(#[trigger] after[k]),
        core.len() > 0 ==> !is_white(core[0]) && !is_white(core.last()),
    ensures
        trim(before + core + after) == core,
{
    let s = before + core + after;
    let n = before.len() as int;
    let m = n + core.len();
    law_trim(s);
    let (i, j) = choose|i: int, j: int|
        {
            &&& 0 <= i <= j <= s.len()
            &&& #[trigger] s.subrange(i, j) == trim(s)
            &&& forall|k: int| 0 <= k < i || j <= k < s.len() ==> is_white(#[trigger] s[k])
            &&& i < j ==> !is_white(s[i]) && !is_white(s[j - 1])
        };
    if core.len() == 0 {
        assert forall|k: int| 0 <= k < s.len() implies is_white(#[trigger] s[k]) by {
            if k < n {
                assert(s[k] == before[k]);
            } else {
                assert(s[k] == after[k - n]);
            }
        }
        assert(s.subrange(i, j) =~= core);
    } else {
        assert(s[n] == core[0]);
        assert(s[m - 1] == core.last());
        if i < n {
            assert(s[i] == before[i]);
        }
        if j > m {
            assert(s[j - 1] == after[j - 1 - m]);
        }
        assert(s.subrange(n, m) =~= core);
    }
}

/// Trimming a character leaves the part of a text between those at its two ends.
pub proof fn law_trim_of(s: Seq<char>, c: char)
    ensures
        exists|i: int, j: int|
            {
                &&& 0 <= i <= j <= s.len()
                &&& #[trigger] s.subrange(i, j) == trim_of(s, c)
                &&& forall|k: int| 0 <= k < i || j <= k < s.len() ==> #[trigger] s[k] == c
                &&& i < j ==> s[i] != c && s[j - 1] != c
            },
        exists|i: int|
            {
                &&& 0 <= i <= s.len()
                &&& #[trigger] s.skip(i) == trim_start_of(s, c)
                &&& forall|k: int| 0 <= k < i ==> #[trigger] s[k] == c
                &&& i < s.len() ==> s[i] != c
            },
        exists|j: int|
            {
                &&& 0 <= j <= s.len()
                &&& #[trigger] s.take(j) == trim_end_of(s, c)
                &&& forall|k: int| j <= k < s.len() ==> #[trigger] s[k] == c
                &&& j > 0 ==> s[j - 1] != c
            },
{
    let i = lemma_trim_start_of_at(s, c);
    let t = s.skip(i);
    let n = lemma_trim_end_of_at(t, c);
    let j = i + n;
    assert(s.subrange(i, j) =~= t.take(n));
    assert forall|k: int| 0 <= k < i || j <= k < s.len() implies #[trigger] s[k] == c by {
        if k >= j {
            assert(s[k] == t[k - i]);
        }
    }
    if i < j {
        assert(s[j - 1] == t[n - 1]);
    }
    let e = lemma_trim_end_of_at(s, c);
}

proof fn lemma_trim_start_of_at(s: Seq<char>, c: char) -> (i: int)
    ensures
        0 <= i <= s.len(),
        trim_start_of(s, c) == s.skip(i),
        forall|k: int| 0 <= k < i ==> #[trigger] s[k] == c,
        i < s.len() ==> s[i] != c,
    decreases s.len(),
{
    if s.len() > 0 && s[0] == c {
        let t = s.drop_first();
        let i = lemma_trim_start_of_at(t, c);
        assert(t.skip(i) =~= s.skip(i + 1));
        assert forall|k: int| 0 <= k < i + 1 implies #[trigger] s[k] == c by {
            if k > 0 {
                assert(s[k] == t[k - 1]);
            }
        }
        i + 1
    } else {
        assert(s.skip(0) =~= s);
        0
    }
}

proof fn lemma_trim_end_of_at(s: Seq<char>, c: char) -> (j: int)
    ensures
        0 <= j <= s.len(),
        trim_end_of(s, c) == s.take(j),
        forall|k: int| j <= k < s.len() ==> #[trigger] s[k] == c,
        j > 0 ==> s[j - 1] != c,
    decreases s.len(),
{
    if s.len() > 0 && s.last() == c {
        let t = s.drop_last();
        let j = lemma_trim_end_of_at(t, c);
        assert(t.take(j) =~= s.take(j));
        assert forall|k: int| j <= k < s.len() implies #[trigger] s[k] == c by {
            if k < t.len() {
                assert(s[k] == t[k]);
            }
        }
        j
    } else {
        assert(s.take(s.len() as int) =~= s);
        s.len() as int
    }
}

/// What follows a prefix is what has to be put behind it to get the text. A text that is
/// no prefix followed by something has no such rest.
pub proof fn law_strip_prefix(s: Seq<char>, prefix: Seq<char>, rest: Seq<char>)
    ensures
        strip_prefix(s, prefix) == Some(rest) <==> s == prefix + rest,
        starts_with(prefix + rest, prefix),
        starts_with(s, prefix) ==> s == prefix + s.skip(prefix.len() as int),
{
    let all = prefix + rest;
    assert(all.take(prefix.len() as int) =~= prefix);
    assert(all.skip(prefix.len() as int) =~= rest);
    if starts_with(s, prefix) {
        assert(s =~= s.take(prefix.len() as int) + s.skip(prefix.len() as int));
    }
}

/// Whether a text stands somewhere in another.
pub open spec fn stands_in(part: Seq<char>, s: Seq<char>) -> bool {
    exists|i: int|
        0 <= i && i + part.len() <= s.len() && #[trigger] s.subrange(i, i + part.len()) == part
}

/// A text is found where it stands first, and not found where it stands nowhere.
pub proof fn law_find(s: Seq<char>, pat: Seq<char>)
    ensures
        match find(s, pat) {
            Some(i) => {
                &&& 0 <= i
                &&& i + pat.len() <= s.len()
                &&& s.subrange(i, i + pat.len()) == pat
                &&& forall|j: int| 0 <= j < i ==> #[trigger] s.subrange(j, j + pat.len()) != pat
            },
            None => forall|j: int|
                0 <= j && j + pat.len() <= s.len() ==> #[trigger] s.subrange(j, j + pat.len())
                    != pat,
        },
        contains(s, pat) <==> stands_in(pat, s),
{
    lemma_find_bounds(s, pat);
    lemma_contains_iff(s, pat);
    if let Some(i) = find(s, pat) {
        assert forall|j: int| 0 <= j < i implies #[trigger] s.subrange(j, j + pat.len()) != pat by {
            if s.subrange(j, j + pat.len()) == pat {
                lemma_found_at(s, pat, j);
            }
        }
    }
}

/// Replacing the first occurrence of a text changes that occurrence and nothing else.
pub proof fn law_replace_first(before: Seq<char>, pat: Seq<char>, rest: Seq<char>, rep: Seq<char>)
    ensures
        (forall|j: int|
            0 <= j < before.len() ==> #[trigger] (before + pat + rest).subrange(j, j + pat.len())
                != pat) ==> replace_first(before + pat + rest, pat, rep) == before + rep + rest,
        (forall|j: int|
            0 <= j && j + pat.len() <= before.len() ==> #[trigger] before.subrange(
                j,
                j + pat.len(),
            ) != pat) ==> replace_first(before, pat, rep) == before,
{
    let s = before + pat + rest;
    let m = before.len() as int;
    assert(s.subrange(m, m + pat.len()) =~= pat);
    assert(s.take(m) =~= before);
    assert(s.skip(m + pat.len()) =~= rest);
    if forall|j: int| 0 <= j < m ==> #[trigger] s.subrange(j, j + pat.len()) != pat {
        lemma_find_is(s, pat, m);
    }
    law_find(before, pat);
}

/// Replacing all line feeds works on each character by itself: a line feed is replaced,
/// any other character stays.
pub proof fn law_replace_line_feeds(s: Seq<char>, c: char, rep: Seq<char>)
    ensures
        replace_all(Seq::empty(), "\n"@, rep) == Seq::<char>::empty(),
        replace_all(s.push(c), "\n"@, rep) == replace_all(s, "\n"@, rep) + (if c == '\n' {
            rep
        } else {
            seq![c]
        }),
    decreases s.len(),
{
    reveal_strlit("\n");
    let pat = "\n"@;
    assert(pat =~= seq!['\n']);
    law_find(Seq::empty(), pat);
    law_find(s, pat);
    let long = s.push(c);
    law_find(long, pat);
    assert forall|j: int| 0 <= j < long.len() implies (#[trigger] long.subrange(j, j + 1) == pat
        <==> long[j] == '\n') by {
        assert(long.subrange(j, j + 1) =~= seq![long[j]]);
        assert(seq![long[j]][0] == long[j]);
        assert(pat[0] == '\n');
    }
    assert forall|j: int| 0 <= j < s.len() implies (#[trigger] s.subrange(j, j + 1) == pat
        <==> s[j] == '\n') by {
        assert(s.subrange(j, j + 1) =~= seq![s[j]]);
        assert(seq![s[j]][0] == s[j]);
        assert(pat[0] == '\n');
    }
    match find(s, pat) {
        Some(i) => {
            assert(long.subrange(i, i + 1) == pat) by {
                assert(long[i] == s[i]);
            }
            assert forall|j: int| 0 <= j < i implies #[trigger] long.subrange(j, j + 1) != pat by {
                assert(s.subrange(j, j + 1) != pat);
                assert(long[j] == s[j]);
            }
            lemma_find_is(long, pat, i);
            let rest = s.skip(i + 1);
            assert(long.skip(i + 1) =~= rest.push(c));
            assert(long.take(i) =~= s.take(i));
            law_replace_line_feeds(rest, c, rep);
            assert(replace_all(long, pat, rep) =~= replace_all(s, pat, rep) + (if c == '\n' {
                rep
            } else {
                seq![c]
            }));
        },
        None => {
            let n = s.len() as int;
            assert forall|j: int| 0 <= j < n implies #[trigger] long.subrange(j, j + 1) != pat by {
                assert(s.subrange(j, j + 1) != pat);
                assert(long[j] == s[j]);
            }
            if c == '\n' {
                assert(long[n] == c);
                assert(long.subrange(n, n + 1) == pat);
                lemma_find_is(long, pat, n);
                assert(long.take(n) =~= s);
                assert(long.skip(n + 1) =~= Seq::empty());
                assert(find(Seq::empty(), pat) is None);
                assert(replace_all(Seq::empty(), pat, rep) == Seq::<char>::empty());
                assert(replace_all(long, pat, rep) == s + rep + replace_all(
                    Seq::empty(),
                    pat,
                    rep,
                ));
                assert(s + rep + Seq::<char>::empty() =~= s + rep);
            } else {
                if let Some(j) = find(long, pat) {
                    assert(long.subrange(j, j + 1) == pat);
                    if j < n {
                        assert(long.subrange(j, j + 1) != pat);
                    } else {
                        assert(long[j] == c);
                    }
                }
                assert(long =~= s + seq![c]);
            }
        },
    }
}

/// A line ends at its line feed; a carriage return before that is not part of it. What
/// has no line feed is one line, and nothing is no line.
pub proof fn law_lines(line: Seq<char>, rest: Seq<char>)
    requires
        forall|i: int| 0 <= i < line.len() ==> #[trigger] line[i] != '\n',
    ensures
        lines(line + seq!['\n'] + rest) == seq![
            if line.len() > 0 && line.last() == '\r' {
                line.take(line.len() - 1)
            } else {
                line
            },
        ] + lines(rest),
        line.len() > 0 ==> lines(line) == seq![line],
        lines(Seq::empty()) == Seq::<Seq<char>>::empty(),
{
    let s = line + seq!['\n'] + rest;
    let n = line.len() as int;
    assert(s[n] == '\n');
    assert forall|i: int| 0 <= i < n implies s[i] != '\n' by {
        assert(s[i] == line[i]);
    }
    lemma_first_index_is(s, '\n', n);
    assert(s.take(n) =~= line);
    assert(s.skip(n + 1) =~= rest);
    lemma_first_index_is(line, '\n', n);
    if n > 0 {
        assert(line.drop_last() =~= line.take(n - 1));
    }
}

/// A list of texts is joined by putting the separator between its parts, and nowhere
/// else.
pub proof fn law_join(a: Seq<Seq<char>>, b: Seq<Seq<char>>, part: Seq<char>, sep: Seq<char>)
    ensures
        join(Seq::empty(), sep) == Seq::<char>::empty(),
        join(seq![part], sep) == part,
        a.len() > 0 && b.len() > 0 ==> join(a + b, sep) == join(a, sep) + sep + join(b, sep),
    decreases b.len(),
{
    if a.len() > 0 && b.len() > 0 {
        let all = a + b;
        assert(all.last() == b.last());
        if b.len() == 1 {
            assert(all.drop_last() =~= a);
            assert(b.last() == b[0]);
        } else {
            let low = b.drop_last();
            assert(all.drop_last() =~= a + low);
            law_join(a, low, part, sep);
            assert(join(all, sep) =~= join(a, sep) + sep + join(b, sep));
        }
    }
}

/// A number is written with its digits, the highest first: a digit by itself, and a
/// further digit behind the number that it is added to.
pub proof fn law_decimal(n: nat, d: nat)
    requires
        d < 10,
    ensures
        decimal(d) == seq![(48 + d) as char],
        n > 0 ==> decimal(10 * n + d) == decimal(n).push((48 + d) as char),
        decimal_int(n as int) == decimal(n),
        n > 0 ==> decimal_int(-(n as int)) == seq!['-'] + decimal(n),
{
    assert('0' as u32 == 48);
    if n > 0 {
        assert((10 * n + d) / 10 == n);
        assert((10 * n + d) % 10 == d);
    }
}

/// The first characters of a text are a start of it, as long as was asked for or as the
/// text is.
pub proof fn law_first_chars(s: Seq<char>, n: nat)
    ensures
        first_chars(s, n).len() == (if n < s.len() {
            n
        } else {
            s.len()
        }),
        forall|i: int| 0 <= i < first_chars(s, n).len() ==> first_chars(s, n)[i] == s[i],
{
}

/// A list is seen element by element, and an optional value as it is.
pub proof fn law_views<T: View>(s: Seq<T>, o: Option<T>)
    ensures
        views(s).len() == s.len(),
        forall|i: int| 0 <= i < s.len() ==> #[trigger] views(s)[i] == s[i]@,
        match o {
            Some(t) => opt_view(o) == Some(t@),
            None => opt_view(o) is None,
        },
{
}

} // verus!
