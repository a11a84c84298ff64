//! Texts measured in the bytes of their UTF-8 form.
use crate::text;
use crate::text::{from_chars, to_chars};
use vstd::prelude::*;

verus! {

/// The number of bytes of a character in UTF-8.
pub open spec fn width(c: char) -> nat {
    vstd::utf8::encode_scalar(c as u32).len()
}

/// The index of the character that begins at the byte offset `b`, or the number of
/// characters where the text ends there. There is none inside a character or past
/// the end.
pub open spec fn char_index(s: Seq<char>, b: nat) -> Option<int>
    decreases s.len(),
{
    if b == 0 {
        Some(0)
    } else if s.len() == 0 || width(s[0]) > b {
        None
    } else {
        match char_index(s.drop_first(), (b - width(s[0])) as nat) {
            Some(i) => Some(i + 1),
            None => None,
        }
    }
}

/// The characters of a text from the byte offset `from` up to the byte offset `to`.
pub open spec fn byte_slice(s: Seq<char>, from: nat, to: nat) -> Seq<char> {
    s.subrange(char_index(s, from)->0, char_index(s, to)->0)
}

/// The longest start of a text that takes at most `n` bytes.
pub open spec fn first_bytes(s: Seq<char>, n: nat) -> Seq<char>
    decreases s.len(),
{
    if s.len() == 0 || width(s[0]) > n {
        Seq::empty()
    } else {
        seq![s[0]] + first_bytes(s.drop_first(), (n - width(s[0])) as nat)
    }
}

pub proof fn lemma_width(c: char)
    ensures
        1 <= width(c) <= 4,
{
}

/// The bytes of a text are those of its first character and those of the rest.
pub proof fn lemma_byte_len_first(s: Seq<char>)
    requires
        s.len() > 0,
    ensures
        text::byte_len(s) == width(s[0]) + text::byte_len(s.drop_first()),
{
}

/// The bytes of two texts one after the other are those of both.
pub proof fn lemma_byte_len_append(a: Seq<char>, b: Seq<char>)
    ensures
        text::byte_len(a + b) == text::byte_len(a) + text::byte_len(b),
    decreases a.len(),
{
    if a.len() == 0 {
        assert(a + b =~= b);
    } else {
        assert((a + b).drop_first() =~= a.drop_first() + b);
        lemma_byte_len_append(a.drop_first(), b);
        lemma_byte_len_first(a + b);
        lemma_byte_len_first(a);
    }
}

pub proof fn lemma_char_index(s: Seq<char>, b: nat)
    ensures
        char_index(s, b) matches Some(i) ==> 0 <= i <= s.len() && text::byte_len(s.take(i)) == b,
    decreases s.len(),
{
    if b == 0 {
        assert(s.take(0) =~= Seq::empty());
    } else if s.len() > 0 && width(s[0]) <= b {
        let rest = s.drop_first();
        lemma_width(s[0]);
        lemma_char_index(rest, (b - width(s[0])) as nat);
        if let Some(i) = char_index(rest, (b - width(s[0])) as nat) {
            assert(s.take(i + 1).drop_first() =~= rest.take(i));
            lemma_byte_len_first(s.take(i + 1));
        }
    }
}

/// A later byte offset belongs to a later character.
pub proof fn lemma_char_index_monotone(s: Seq<char>, a: nat, b: nat)
    requires
        a <= b,
        char_index(s, a) is Some,
        char_index(s, b) is Some,
    ensures
        0 <= char_index(s, a)->0 <= char_index(s, b)->0 <= s.len(),
    decreases s.len(),
{
    lemma_char_index(s, a);
    lemma_char_index(s, b);
    if a > 0 {
        let w = width(s[0]);
        lemma_char_index_monotone(s.drop_first(), (a - w) as nat, (b - w) as nat);
    }
}

/// In an ASCII text the byte offsets are the indices of the characters.
pub proof fn lemma_char_index_ascii(s: Seq<char>, b: nat)
    requires
        vstd::utf8::is_ascii_chars(s),
    ensures
        char_index(s, b) == (if b <= s.len() {
            Some(b as int)
        } else {
            None
        }),
        text::byte_len(s) == s.len(),
    decreases s.len(),
{
    vstd::utf8::is_ascii_chars_encode_utf8(s);
    if b > 0 && s.len() > 0 {
        assert(width(s[0]) == 1);
        assert forall|i: int| 0 <= i < s.len() - 1 implies '\0' <= #[trigger] s.drop_first()[i]
            <= '\u{7f}' by {
            assert(s.drop_first()[i] == s[i + 1]);
        }
        lemma_char_index_ascii(s.drop_first(), (b - 1) as nat);
    }
}

/// What `first_bytes` gives is a start of the text, takes at most `n` bytes, and is
/// the whole text where that takes no more.
pub proof fn lemma_first_bytes(s: Seq<char>, n: nat)
    ensures
        first_bytes(s, n).len() <= s.len(),
        first_bytes(s, n) == s.take(first_bytes(s, n).len() as int),
        text::byte_len(first_bytes(s, n)) <= n,
        text::byte_len(s) <= n ==> first_bytes(s, n) == s,
    decreases s.len(),
{
    if s.len() == 0 {
        assert(first_bytes(s, n) =~= s);
        assert(s.take(0) =~= Seq::empty());
    } else {
        lemma_byte_len_first(s);
        if width(s[0]) <= n {
            let rest = s.drop_first();
            let m = (n - width(s[0])) as nat;
            let tail = first_bytes(rest, m);
            lemma_first_bytes(rest, m);
            let whole = first_bytes(s, n);
            assert(whole =~= s.take(tail.len() + 1 as int));
            assert(whole.drop_first() =~= tail);
            lemma_byte_len_first(whole);
            assert(seq![s[0]] + rest =~= s);
        } else {
            assert(s.take(0) =~= Seq::empty());
        }
    }
}

/// The number of bytes of a character in UTF-8.
pub fn char_width(c: char) -> (w: usize)
    ensures
        w == width(c),
{
    let code: u32 = c as u32;
    if code < 0x80 {
        1
    } else if code < 0x800 {
        2
    } else if code < 0x10000 {
        3
    } else {
        4
    }
}

/// The number of bytes of a text.
pub fn text_bytes(s: &str) -> (n: usize)
    ensures
        n == text::byte_len(s@),
{
    s.as_bytes().len()
}

/// The index of the character that begins at the byte offset `b`.
pub fn index_at(s: &str, b: usize) -> (r: Option<usize>)
    ensures
        match r {
            Some(i) => char_index(s@, b as nat) == Some(i as int) && i <= s@.len(),
            None => char_index(s@, b as nat) is None,
        },
{
    let v = to_chars(s);
    let mut i: usize = 0;
    let mut left: usize = b;
    assert(v@.skip(0) =~= v@);
    while left > 0
        invariant
            i <= v@.len(),
            v@ == s@,
            match char_index(v@.skip(i as int), left as nat) {
                Some(k) => char_index(s@, b as nat) == Some(k + i),
                None => char_index(s@, b as nat) is None,
            },
        decreases left,
    {
        if i == v.len() {
            return None;
        }
        let w = char_width(v[i]);
        proof {
            lemma_width(v@[i as int]);
            assert(v@.skip(i as int).drop_first() =~= v@.skip(i + 1));
        }
        if w > left {
            return None;
        }
        left = left - w;
        i = i + 1;
    }
    Some(i)
}

/// The longest start of a text that takes at most `n` bytes.
pub fn byte_prefix(s: &str, n: usize) -> (r: String)
    ensures
        r@ == first_bytes(s@, n as nat),
{
    let v = to_chars(s);
    let mut i: usize = 0;
    let mut left: usize = n;
    assert(v@.skip(0) =~= v@);
    assert(v@.take(0) + first_bytes(v@, n as nat) =~= first_bytes(v@, n as nat));
    while i < v.len()
        invariant
            i <= v@.len(),
            v@ == s@,
            v@.take(i as int) + first_bytes(v@.skip(i as int), left as nat) == first_bytes(
                s@,
                n as nat,
            ),
        decreases v@.len() - i,
    {
        let w = char_width(v[i]);
        let ghost rest = v@.skip(i as int);
        if w > left {
            assert(v@.take(i as int) + Seq::<char>::empty() =~= v@.take(i as int));
            let r = from_chars(&v, 0, i);
            assert(r@ =~= v@.take(i as int));
            return r;
        }
        proof {
            assert(rest.drop_first() =~= v@.skip(i + 1));
            let tail = first_bytes(v@.skip(i + 1), (left - w) as nat);
            assert(v@.take(i as int) + (seq![rest[0]] + tail) =~= v@.take(i + 1) + tail);
        }
        left = left - w;
        i = i + 1;
    }
    assert(v@.skip(i as int) =~= Seq::<char>::empty());
    assert(v@.take(i as int) + Seq::<char>::empty() =~= v@);
    s.to_owned()
}

/// A text takes the bytes of its characters: one for a code point below 128, two below
/// 2048, three below 65536, and four above.
pub proof fn law_byte_len(s: Seq<char>, c: char)
    ensures
        text::byte_len(Seq::empty()) == 0,
        text::byte_len(s.push(c)) == text::byte_len(s) + (if (c as u32) < 128 {
            1nat
        } else if (c as u32) < 2048 {
            2
        } else if (c as u32) < 65536 {
            3
        } else {
            4
        }),
{
    lemma_byte_len_append(s, seq![c]);
    assert(s.push(c) =~= s + seq![c]);
    lemma_byte_len_first(seq![c]);
    assert(seq![c].drop_first() =~= Seq::empty());
}

/// A byte offset belongs to the character before which the text takes so many bytes, and
/// to none where no start of the text does.
pub proof fn law_char_index(s: Seq<char>, b: nat)
    ensures
        match char_index(s, b) {
            Some(i) => 0 <= i <= s.len() && text::byte_len(s.take(i)) == b,
            None => forall|i: int| 0 <= i <= s.len() ==> text::byte_len(#[trigger] s.take(i)) != b,
        },
    decreases s.len(),
{
    lemma_char_index(s, b);
    if char_index(s, b) is None {
        assert forall|i: int| 0 <= i <= s.len() implies text::byte_len(#[trigger] s.take(i)) != b by {
            if i > 0 {
                let rest = s.drop_first();
                lemma_width(s[0]);
                lemma_byte_len_first(s.take(i));
                assert(s.take(i).drop_first() =~= rest.take(i - 1));
                if width(s[0]) <= b {
                    law_char_index(rest, (b - width(s[0])) as nat);
                    assert(text::byte_len(rest.take(i - 1)) != (b - width(s[0])) as nat);
                }
            } else {
                assert(s.take(0) =~= Seq::empty());
            }
        }
    }
}

/// The start of a text that fits into `n` bytes is as long as can be: it fits, and with one
/// more character it would not.
pub proof fn law_first_bytes(s: Seq<char>, n: nat)
    ensures
        ({
            let r = first_bytes(s, n);
            let k = r.len() as int;
            &&& k <= s.len()
            &&& r == s.take(k)
            &&& text::byte_len(r) <= n
            &&& k < s.len() ==> text::byte_len(s.take(k + 1)) > n
        }),
    decreases s.len(),
{
    lemma_first_bytes(s, n);
    if s.len() > 0 {
        let rest = s.drop_first();
        if width(s[0]) <= n {
            let m = (n - width(s[0])) as nat;
            law_first_bytes(rest, m);
            let k = first_bytes(s, n).len() as int;
            if k < s.len() {
                lemma_byte_len_first(s.take(k + 1));
                assert(s.take(k + 1).drop_first() =~= rest.take(k));
            }
        } else {
            lemma_byte_len_first(s.take(1));
        }
    }
}

} // verus!
