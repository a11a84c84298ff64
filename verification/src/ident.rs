//! Identifiers for chat completions: random bytes, and their form in hexadecimal
//! digits.
use crate::text;
use crate::text::digit_char;
use std::collections::hash_map::{DefaultHasher, RandomState};
use std::hash::{BuildHasher, Hasher};
use vstd::prelude::*;

verus! {

/// `RandomState::new` of the standard library: a state with random keys. Nothing is
/// claimed of them.
#[verifier::external_body]
fn random_state() -> (state: RandomState) {
    RandomState::new()
}

/// `RandomState::build_hasher` of the standard library: a hasher with the keys of the
/// state. Nothing is claimed of it.
#[verifier::external_body]
fn hasher_from(state: &RandomState) -> (hasher: DefaultHasher) {
    state.build_hasher()
}

/// `Hasher::write_u64` of the standard library, on the hasher of a random state: the
/// number is mixed into the hash. Nothing is claimed of the hash that this gives.
#[verifier::external_body]
fn mix_number(hasher: &mut DefaultHasher, n: u64) {
    hasher.write_u64(n)
}

/// The `count` lowest bytes of a number, the lowest first.
pub open spec fn low_bytes(x: nat, count: nat) -> Seq<u8>
    decreases count,
{
    if count == 0 {
        Seq::empty()
    } else {
        seq![(x % 256) as u8] + low_bytes(x / 256, (count - 1) as nat)
    }
}

/// The bytes of the numbers of a list, one number after the other, each with its lowest
/// byte first.
pub open spec fn all_bytes(hashes: Seq<u64>) -> Seq<u8>
    decreases hashes.len(),
{
    if hashes.len() == 0 {
        Seq::empty()
    } else {
        all_bytes(hashes.drop_last()) + low_bytes(hashes.last() as nat, 8)
    }
}

proof fn lemma_low_bytes_len(x: nat, count: nat)
    ensures
        low_bytes(x, count).len() == count,
    decreases count,
{
    if count > 0 {
        lemma_low_bytes_len(x / 256, (count - 1) as nat);
    }
}

proof fn lemma_all_bytes_len(hashes: Seq<u64>)
    ensures
        all_bytes(hashes).len() == 8 * hashes.len(),
    decreases hashes.len(),
{
    if hashes.len() > 0 {
        lemma_all_bytes_len(hashes.drop_last());
        lemma_low_bytes_len(hashes.last() as nat, 8);
    }
}

/// Adds the bytes of a number to a list, the lowest first.
fn push_bytes(bytes: &mut Vec<u8>, x: u64)
    ensures
        final(bytes)@ == old(bytes)@ + low_bytes(x as nat, 8),
{
    let mut rest: u64 = x;
    let mut left: u8 = 8;
    while left > 0
        invariant
            left <= 8,
            bytes@ + low_bytes(rest as nat, left as nat) == old(bytes)@ + low_bytes(x as nat, 8),
        decreases left,
    {
        let ghost before = bytes@;
        let low: u8 = (rest % 256) as u8;
        bytes.push(low);
        proof {
            let more = low_bytes(rest as nat / 256, (left - 1) as nat);
            assert(low == (rest as nat % 256) as u8);
            assert(before + (seq![low] + more) =~= before.push(low) + more);
        }
        rest = rest / 256;
        left = left - 1;
    }
    assert(bytes@ + Seq::<u8>::empty() =~= bytes@);
}

/// The first `n` bytes of the numbers of a list.
pub fn bytes_of(hashes: &Vec<u64>, n: usize) -> (r: Vec<u8>)
    requires
        n <= 8 * hashes@.len(),
    ensures
        r@ == all_bytes(hashes@).take(n as int),
{
    let mut bytes: Vec<u8> = Vec::new();
    let mut i: usize = 0;
    assert(bytes@ =~= all_bytes(hashes@.take(0)));
    while i < hashes.len()
        invariant
            i <= hashes@.len(),
            bytes@ == all_bytes(hashes@.take(i as int)),
        decreases hashes@.len() - i,
    {
        assert(hashes@.take(i + 1).drop_last() =~= hashes@.take(i as int));
        push_bytes(&mut bytes, hashes[i]);
        i = i + 1;
    }
    proof {
        assert(hashes@.take(i as int) =~= hashes@);
        lemma_all_bytes_len(hashes@);
    }
    bytes.truncate(n);
    assert(bytes@ =~= all_bytes(hashes@).take(n as int));
    bytes
}

/// As many random bytes as were asked for. They are those of the hashes of a hasher with
/// random keys, so that no more than their number can be told.
pub fn rand_bytes(n: usize) -> (r: Vec<u8>)
    ensures
        r@.len() == n,
{
    let mut hashes: Vec<u64> = Vec::new();
    let state = random_state();
    let mut hasher = hasher_from(&state);
    let mut left: usize = n;
    while left > 0
        invariant
            left <= n,
            n <= 8 * hashes@.len() + left,
            left > 0 ==> n == 8 * hashes@.len() + left,
        decreases left,
    {
        mix_number(&mut hasher, (n - left) as u64);
        hashes.push(hasher.finish());
        left = if left > 8 {
            left - 8
        } else {
            0
        };
    }
    proof {
        lemma_all_bytes_len(hashes@);
    }
    bytes_of(&hashes, n)
}

/// A hexadecimal digit.
pub open spec fn hex_digit(d: nat) -> char {
    if d < 10 {
        text::digit(d)
    } else {
        ('a' as u32 + (d - 10)) as char
    }
}

/// A byte as two hexadecimal digits.
pub open spec fn hex_pair(b: u8) -> Seq<char> {
    seq![hex_digit((b / 16) as nat), hex_digit((b % 16) as nat)]
}

/// What stands before the byte at the index `i`.
pub open spec fn dash_before(i: int) -> Seq<char> {
    if i == 4 || i == 6 || i == 8 || i == 10 {
        seq!['-']
    } else {
        Seq::empty()
    }
}

/// The bytes as hexadecimal digits, in the groups of a UUID.
pub open spec fn uuid_of(bytes: Seq<u8>) -> Seq<char>
    decreases bytes.len(),
{
    if bytes.len() == 0 {
        Seq::empty()
    } else {
        uuid_of(bytes.drop_last()) + dash_before(bytes.len() - 1) + hex_pair(bytes.last())
    }
}

/// A hexadecimal digit.
fn hex_char(d: u8) -> (c: char)
    requires
        d < 16,
    ensures
        c == hex_digit(d as nat),
{
    if d < 10 {
        digit_char(d as u64)
    } else if d == 10 {
        'a'
    } else if d == 11 {
        'b'
    } else if d == 12 {
        'c'
    } else if d == 13 {
        'd'
    } else if d == 14 {
        'e'
    } else {
        'f'
    }
}

/// The bytes as hexadecimal digits, in the groups of a UUID.
pub fn uuid_from(bytes: &Vec<u8>) -> (r: String)
    ensures
        r@ == uuid_of(bytes@),
{
    let mut buf = String::new();
    let mut i: usize = 0;
    assert(buf@ =~= uuid_of(bytes@.take(0)));
    while i < bytes.len()
        invariant
            i <= bytes@.len(),
            buf@ == uuid_of(bytes@.take(i as int)),
        decreases bytes@.len() - i,
    {
        let ghost before = buf@;
        if i == 4 || i == 6 || i == 8 || i == 10 {
            buf.push('-');
        }
        let b = bytes[i];
        buf.push(hex_char(b / 16));
        buf.push(hex_char(b % 16));
        proof {
            assert(bytes@.take(i + 1).drop_last() =~= bytes@.take(i as int));
            assert(buf@ =~= before + dash_before(i as int) + hex_pair(b));
        }
        i = i + 1;
    }
    assert(bytes@.take(i as int) =~= bytes@);
    buf
}

/// A random identifier in the form of a UUID.
pub fn uuid_v4() -> (r: String)
    ensures
        exists|bytes: Seq<u8>| bytes.len() == 16 && r@ == #[trigger] uuid_of(bytes),
{
    let bytes = rand_bytes(16);
    uuid_from(&bytes)
}

/// The identifier of a chat completion.
pub fn completion_id(uuid: &str) -> (r: String)
    ensures
        r@ == "chatcmpl-"@ + uuid@,
{
    let mut r = "chatcmpl-".to_owned();
    r.append(uuid);
    r
}

proof fn lemma_hex_digit(a: nat, b: nat)
    requires
        a < 16,
        b < 16,
        hex_digit(a) == hex_digit(b),
    ensures
        a == b,
{
}

/// Different bytes give different identifiers.
pub proof fn law_uuid_is_injective(a: Seq<u8>, b: Seq<u8>)
    requires
        a.len() == b.len(),
        uuid_of(a) == uuid_of(b),
    ensures
        a == b,
    decreases a.len(),
{
    if a.len() == 0 {
        assert(a =~= b);
    } else {
        let s = uuid_of(a);
        let n = s.len();
        let x = a.last();
        let y = b.last();
        let dash = dash_before(a.len() - 1);
        let low = uuid_of(a.drop_last());
        let other = uuid_of(b.drop_last());
        assert(low.len() == n - 2 - dash.len());
        assert(other.len() == n - 2 - dash.len());
        assert(low =~= s.take(low.len() as int));
        assert(other =~= s.take(low.len() as int));
        assert(s[n - 2] == hex_pair(x)[0]);
        assert(s[n - 2] == hex_pair(y)[0]);
        assert(s[n - 1] == hex_pair(x)[1]);
        assert(s[n - 1] == hex_pair(y)[1]);
        lemma_hex_digit((x / 16) as nat, (y / 16) as nat);
        lemma_hex_digit((x % 16) as nat, (y % 16) as nat);
        assert(x == y);
        law_uuid_is_injective(a.drop_last(), b.drop_last());
        assert(a =~= a.drop_last().push(x));
        assert(b =~= b.drop_last().push(y));
    }
}

/// Whether a character is a hexadecimal digit, in lower case.
pub open spec fn is_hex(c: char) -> bool {
    '0' <= c <= '9' || 'a' <= c <= 'f'
}

/// An identifier of sixteen bytes has the shape of a UUID: groups of eight, four,
/// four, four and twelve hexadecimal digits, with dashes between them.
pub proof fn law_uuid_shape(bytes: Seq<u8>, i: int)
    requires
        bytes.len() == 16,
        0 <= i < 36,
    ensures
        uuid_of(bytes).len() == 36,
        if i == 8 || i == 13 || i == 18 || i == 23 {
            uuid_of(bytes)[i] == '-'
        } else {
            is_hex(uuid_of(bytes)[i])
        },
{
    lemma_uuid_prefix(bytes, 16);
    lemma_uuid_chars(bytes, 16, i);
    assert(bytes.take(16) =~= bytes);
}

/// The number of characters for the first `n` bytes.
spec fn uuid_len(n: int) -> int {
    2 * n + (if n > 10 {
        4int
    } else if n > 8 {
        3
    } else if n > 6 {
        2
    } else if n > 4 {
        1
    } else {
        0
    })
}

proof fn lemma_uuid_prefix(bytes: Seq<u8>, n: int)
    requires
        0 <= n <= bytes.len(),
    ensures
        uuid_of(bytes.take(n)).len() == uuid_len(n),
    decreases n,
{
    if n > 0 {
        lemma_uuid_prefix(bytes, n - 1);
        assert(bytes.take(n).drop_last() =~= bytes.take(n - 1));
    }
}

proof fn lemma_uuid_chars(bytes: Seq<u8>, n: int, i: int)
    requires
        0 <= n <= bytes.len(),
        0 <= i < uuid_len(n),
    ensures
        uuid_of(bytes.take(n)).len() == uuid_len(n),
        if i == 8 || i == 13 || i == 18 || i == 23 {
            uuid_of(bytes.take(n))[i] == '-'
        } else {
            is_hex(uuid_of(bytes.take(n))[i])
        },
    decreases n,
{
    lemma_uuid_prefix(bytes, n);
    lemma_uuid_prefix(bytes, n - 1);
    assert(bytes.take(n).drop_last() =~= bytes.take(n - 1));
    let low = uuid_of(bytes.take(n - 1));
    let s = uuid_of(bytes.take(n));
    if i < low.len() {
        lemma_uuid_chars(bytes, n - 1, i);
        assert(s[i] == low[i]);
    } else {
        assert(is_hex(hex_pair(bytes[n - 1])[0]));
        assert(is_hex(hex_pair(bytes[n - 1])[1]));
    }
}

/// The value of a hexadecimal digit.
pub open spec fn hex_value(c: char) -> int {
    if c <= '9' {
        c as int - 48
    } else {
        c as int - 97 + 10
    }
}

proof fn lemma_hex_value(b: u8)
    ensures
        hex_value(hex_pair(b)[0]) == b / 16,
        hex_value(hex_pair(b)[1]) == b % 16,
{
}

/// The two digits for a byte of an identifier stand for that byte.
pub proof fn law_uuid_digits(bytes: Seq<u8>, i: int)
    requires
        bytes.len() == 16,
        0 <= i < 16,
    ensures
        ({
            let at = 2 * i + (if i >= 10 {
                4int
            } else if i >= 8 {
                3
            } else if i >= 6 {
                2
            } else if i >= 4 {
                1
            } else {
                0
            });
            &&& uuid_of(bytes).len() == 36
            &&& 16 * hex_value(uuid_of(bytes)[at]) + hex_value(uuid_of(bytes)[at + 1]) == bytes[i]
        }),
{
    lemma_uuid_prefix(bytes, 16);
    assert(bytes.take(16) =~= bytes);
    lemma_uuid_pair(bytes, 16, i);
    lemma_hex_value(bytes[i]);
}

proof fn lemma_uuid_pair(bytes: Seq<u8>, n: int, i: int)
    requires
        0 <= i < n <= bytes.len(),
    ensures
        uuid_of(bytes.take(n)).len() == uuid_len(n),
        uuid_len(i + 1) <= uuid_len(n),
        uuid_of(bytes.take(n))[uuid_len(i + 1) - 2] == hex_pair(bytes[i])[0],
        uuid_of(bytes.take(n))[uuid_len(i + 1) - 1] == hex_pair(bytes[i])[1],
    decreases n,
{
    lemma_uuid_prefix(bytes, n);
    lemma_uuid_prefix(bytes, n - 1);
    assert(bytes.take(n).drop_last() =~= bytes.take(n - 1));
    let low = uuid_of(bytes.take(n - 1));
    let s = uuid_of(bytes.take(n));
    if i == n - 1 {
        assert(bytes.take(n).last() == bytes[i]);
        assert(s[s.len() - 2] == hex_pair(bytes[i])[0]);
        assert(s[s.len() - 1] == hex_pair(bytes[i])[1]);
    } else {
        lemma_uuid_pair(bytes, n - 1, i);
        assert(s[uuid_len(i + 1) - 2] == low[uuid_len(i + 1) - 2]);
        assert(s[uuid_len(i + 1) - 1] == low[uuid_len(i + 1) - 1]);
    }
}

proof fn lemma_bytes_of_number(hashes: Seq<u64>, i: int)
    requires
        0 <= i < hashes.len(),
    ensures
        all_bytes(hashes).len() == 8 * hashes.len(),
        all_bytes(hashes).subrange(8 * i, 8 * i + 8) == low_bytes(hashes[i] as nat, 8),
    decreases hashes.len(),
{
    let low = hashes.drop_last();
    lemma_all_bytes_len(hashes);
    lemma_all_bytes_len(low);
    lemma_low_bytes_len(hashes.last() as nat, 8);
    let all = all_bytes(hashes);
    if i == hashes.len() - 1 {
        assert(all.subrange(8 * i, 8 * i + 8) =~= low_bytes(hashes.last() as nat, 8));
    } else {
        lemma_bytes_of_number(low, i);
        assert(all.subrange(8 * i, 8 * i + 8) =~= all_bytes(low).subrange(8 * i, 8 * i + 8));
        assert(low[i] == hashes[i]);
    }
}

/// The bytes of the numbers of a list are eight for each, one number after the other, and
/// with the lowest byte first they make up the number.
pub proof fn law_bytes_make_up_the_numbers(hashes: Seq<u64>, i: int)
    requires
        0 <= i < hashes.len(),
    ensures
        ({
            let b = all_bytes(hashes).subrange(8 * i, 8 * i + 8);
            &&& all_bytes(hashes).len() == 8 * hashes.len()
            &&& b[0] + 0x100 * b[1] + 0x10000 * b[2] + 0x1000000 * b[3] + 0x100000000 * b[4]
                + 0x10000000000 * b[5] + 0x1000000000000 * b[6] + 0x100000000000000 * b[7]
                == hashes[i]
        }),
{
    lemma_bytes_of_number(hashes, i);
    let x0 = hashes[i] as nat;
    let x1 = x0 / 256;
    let x2 = x1 / 256;
    let x3 = x2 / 256;
    let x4 = x3 / 256;
    let x5 = x4 / 256;
    let x6 = x5 / 256;
    let x7 = x6 / 256;
    let b = low_bytes(x0, 8);
    lemma_low_byte(x0, 8);
    lemma_low_byte(x1, 7);
    lemma_low_byte(x2, 6);
    lemma_low_byte(x3, 5);
    lemma_low_byte(x4, 4);
    lemma_low_byte(x5, 3);
    lemma_low_byte(x6, 2);
    lemma_low_byte(x7, 1);
    assert(b[1] == low_bytes(x1, 7)[0]);
    assert(b[2] == low_bytes(x1, 7)[1] && low_bytes(x1, 7)[1] == low_bytes(x2, 6)[0]);
    assert(b[3] == low_bytes(x1, 7)[2] && low_bytes(x1, 7)[2] == low_bytes(x2, 6)[1]
        && low_bytes(x2, 6)[1] == low_bytes(x3, 5)[0]);
    assert(b[4] == low_bytes(x1, 7)[3] && low_bytes(x1, 7)[3] == low_bytes(x2, 6)[2]
        && low_bytes(x2, 6)[2] == low_bytes(x3, 5)[1] && low_bytes(x3, 5)[1] == low_bytes(
        x4,
        4,
    )[0]);
    assert(b[5] == low_bytes(x1, 7)[4] && low_bytes(x1, 7)[4] == low_bytes(x2, 6)[3]
        && low_bytes(x2, 6)[3] == low_bytes(x3, 5)[2] && low_bytes(x3, 5)[2] == low_bytes(
        x4,
        4,
    )[1] && low_bytes(x4, 4)[1] == low_bytes(x5, 3)[0]);
    assert(b[6] == low_bytes(x1, 7)[5] && low_bytes(x1, 7)[5] == low_bytes(x2, 6)[4]
        && low_bytes(x2, 6)[4] == low_bytes(x3, 5)[3] && low_bytes(x3, 5)[3] == low_bytes(
        x4,
        4,
    )[2] && low_bytes(x4, 4)[2] == low_bytes(x5, 3)[1] && low_bytes(x5, 3)[1] == low_bytes(
        x6,
        2,
    )[0]);
    assert(b[7] == low_bytes(x1, 7)[6] && low_bytes(x1, 7)[6] == low_bytes(x2, 6)[5]
        && low_bytes(x2, 6)[5] == low_bytes(x3, 5)[4] && low_bytes(x3, 5)[4] == low_bytes(
        x4,
        4,
    )[3] && low_bytes(x4, 4)[3] == low_bytes(x5, 3)[2] && low_bytes(x5, 3)[2] == low_bytes(
        x6,
        2,
    )[1] && low_bytes(x6, 2)[1] == low_bytes(x7, 1)[0]);
    assert(x7 < 256);
}

proof fn lemma_low_byte(x: nat, count: nat)
    requires
        count > 0,
    ensures
        low_bytes(x, count).len() == count,
        low_bytes(x, count)[0] == x % 256,
        forall|j: int|
            0 < j < count ==> #[trigger] low_bytes(x, count)[j] == low_bytes(
                x / 256,
                (count - 1) as nat,
            )[j - 1],
{
    lemma_low_bytes_len(x, count);
    lemma_low_bytes_len(x / 256, (count - 1) as nat);
}

} // verus!
