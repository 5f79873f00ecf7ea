//! Text of numbers, as it appears in error messages.

use crate::u256::U256;
use vstd::prelude::*;

verus! {

/// The text of one decimal digit.
pub open spec fn digit(d: nat) -> Seq<char> {
    if d == 0 {
        "0"@
    } else if d == 1 {
        "1"@
    } else if d == 2 {
        "2"@
    } else if d == 3 {
        "3"@
    } else if d == 4 {
        "4"@
    } else if d == 5 {
        "5"@
    } else if d == 6 {
        "6"@
    } else if d == 7 {
        "7"@
    } else if d == 8 {
        "8"@
    } else if d == 9 {
        "9"@
    } else if d == 10 {
        "a"@
    } else if d == 11 {
        "b"@
    } else if d == 12 {
        "c"@
    } else if d == 13 {
        "d"@
    } else if d == 14 {
        "e"@
    } else {
        "f"@
    }
}

/// The decimal text of a natural number, without leading zeros.
pub open spec fn dec(n: nat) -> Seq<char>
    decreases n,
{
    if n < 10 {
        digit(n)
    } else {
        dec(n / 10) + digit(n % 10)
    }
}

/// The decimal text of an integer, with a leading minus sign where it is negative.
pub open spec fn dec_int(n: int) -> Seq<char> {
    if n < 0 {
        "-"@ + dec((-n) as nat)
    } else {
        dec(n as nat)
    }
}

/// The two hexadecimal digits of a byte.
pub open spec fn hex_byte(b: nat) -> Seq<char> {
    digit(b / 16) + digit(b % 16)
}

/// The low `count` bytes of a number in hexadecimal, most significant byte first.
pub open spec fn hex_bytes(n: nat, count: nat) -> Seq<char>
    decreases count,
{
    if count == 0 {
        ""@
    } else {
        hex_bytes(n / 256, (count - 1) as nat) + hex_byte(n % 256)
    }
}

/// The decimal texts of a sequence of numbers with `", "` between them.
pub open spec fn dec_list(s: Seq<nat>) -> Seq<char>
    decreases s.len(),
{
    if s.len() == 0 {
        ""@
    } else if s.len() == 1 {
        dec(s[0])
    } else {
        dec_list(s.drop_last()) + ", "@ + dec(s.last())
    }
}

/// The text of one digit.
fn digit_text(d: u8) -> (r: &'static str)
    requires
        d < 16,
    ensures
        r@ == digit(d as nat),
{
    match d {
        0 => "0",
        1 => "1",
        2 => "2",
        3 => "3",
        4 => "4",
        5 => "5",
        6 => "6",
        7 => "7",
        8 => "8",
        9 => "9",
        10 => "a",
        11 => "b",
        12 => "c",
        13 => "d",
        14 => "e",
        _ => "f",
    }
}

/// The decimal text of a `u128`.
pub fn text_u128(v: u128) -> (r: String)
    ensures
        r@ == dec(v as nat),
    decreases v,
{
    if v < 10 {
        digit_text(v as u8).to_owned()
    } else {
        text_u128(v / 10).concat(digit_text((v % 10) as u8))
    }
}

/// The decimal text of an `i128`.
pub fn text_i128(v: i128) -> (r: String)
    ensures
        r@ == dec_int(v as int),
{
    if v >= 0 {
        text_u128(v as u128)
    } else {
        let magnitude: u128 = (-(v + 1)) as u128 + 1;
        "-".to_owned().concat(text_u128(magnitude).as_str())
    }
}

/// The decimal text of a [`U256`].
pub fn text_u256(v: U256) -> (r: String)
    ensures
        r@ == dec(v@),
    decreases v@,
{
    match v.to_u128() {
        Some(small) => text_u128(small),
        None => {
            let ten = U256::from_u64(10);
            let q = v.div(ten);
            let d = v.rem(ten);
            proof {
                assert(v@ / 10 < v@);
            }
            text_u256(q).concat(digit_text(d.low_u128() as u8))
        },
    }
}

/// The two hexadecimal digits of a byte.
pub fn text_hex_byte(b: u8) -> (r: String)
    ensures
        r@ == hex_byte(b as nat),
{
    digit_text(b / 16).to_owned().concat(digit_text(b % 16))
}

/// The low `count` bytes of a number in hexadecimal.
pub fn text_hex_bytes(n: u64, count: u8) -> (r: String)
    ensures
        r@ == hex_bytes(n as nat, count as nat),
    decreases count,
{
    if count == 0 {
        "".to_owned()
    } else {
        text_hex_bytes(n / 256, count - 1).concat(text_hex_byte((n % 256) as u8).as_str())
    }
}

/// The decimal texts of a list of integers with `", "` between them.
pub fn text_list(v: &Vec<U256>) -> (r: String)
    ensures
        r@ == dec_list(crate::u256::values(v@)),
{
    let ghost all = crate::u256::values(v@);
    let mut out = "".to_owned();
    let mut i: usize = 0;
    proof {
        assert(all.take(0) =~= Seq::<nat>::empty());
    }
    while i < v.len()
        invariant
            i <= v@.len(),
            all == crate::u256::values(v@),
            out@ == dec_list(all.take(i as int)),
        decreases v@.len() - i,
    {
        let ghost next = all.take(i + 1);
        proof {
            assert(next.drop_last() =~= all.take(i as int));
            assert(next.last() == v@[i as int]@);
        }
        let piece = text_u256(v[i]);
        if i == 0 {
            out = piece;
        } else {
            out = out.concat(", ").concat(piece.as_str());
        }
        i = i + 1;
    }
    proof {
        assert(all.take(i as int) =~= all);
    }
    out
}

/// `true` for a Unicode white-space character.
pub open spec fn is_white(c: char) -> bool {
    let n = c as u32;
    9 <= n <= 13 || n == 32 || n == 0x85 || n == 0xa0 || n == 0x1680 || 0x2000 <= n <= 0x200a || n
        == 0x2028 || n == 0x2029 || n == 0x202f || n == 0x205f || n == 0x3000
}

/// A text without the white space at its start.
pub open spec fn trim_start(s: Seq<char>) -> Seq<char>
    decreases s.len(),
{
    if s.len() > 0 && is_white(s[0]) {
        trim_start(s.drop_first())
    } else {
        s
    }
}

/// A text without the white space at its end.
pub open spec fn trim_end(s: Seq<char>) -> Seq<char>
    decreases s.len(),
{
    if s.len() > 0 && is_white(s.last()) {
        trim_end(s.drop_last())
    } else {
        s
    }
}

/// A text without the white space at both ends.
pub open spec fn trimmed(s: Seq<char>) -> Seq<char> {
    trim_end(trim_start(s))
}

/// The lower-case form of an ASCII letter; any other character is left as it is.
pub open spec fn lower_char(c: char) -> char {
    if 'A' <= c <= 'Z' {
        (c as u8 + 32) as char
    } else {
        c
    }
}

/// A text with its ASCII letters in lower case.
pub open spec fn ascii_lower(s: Seq<char>) -> Seq<char> {
    Seq::new(s.len(), |i: int| lower_char(s[i]))
}

fn white(c: char) -> (r: bool)
    ensures
        r == is_white(c),
{
    let n: u32 = c as u32;
    (9 <= n && n <= 13) || n == 32 || n == 0x85 || n == 0xa0 || n == 0x1680 || (0x2000 <= n && n
        <= 0x200a) || n == 0x2028 || n == 0x2029 || n == 0x202f || n == 0x205f || n == 0x3000
}

fn lowered(c: char) -> (r: char)
    ensures
        r == lower_char(c),
{
    if 'A' <= c && c <= 'Z' {
        (c as u8 + 32) as char
    } else {
        c
    }
}

proof fn lemma_trim_start(s: Seq<char>, a: int)
    requires
        0 <= a <= s.len(),
        forall|i: int| 0 <= i < a ==> is_white(s[i]),
        a < s.len() ==> !is_white(s[a]),
    ensures
        trim_start(s) == s.subrange(a, s.len() as int),
    decreases a,
{
    if a > 0 {
        let rest = s.drop_first();
        assert(forall|i: int| 0 <= i < rest.len() ==> rest[i] == s[i + 1]);
        lemma_trim_start(rest, a - 1);
        assert(rest.subrange(a - 1, rest.len() as int) =~= s.subrange(a, s.len() as int));
    } else {
        assert(s.subrange(0, s.len() as int) =~= s);
    }
}

proof fn lemma_trim_end(s: Seq<char>, b: int)
    requires
        0 <= b <= s.len(),
        forall|i: int| b <= i < s.len() ==> is_white(s[i]),
        b > 0 ==> !is_white(s[b - 1]),
    ensures
        trim_end(s) == s.subrange(0, b),
    decreases s.len() - b,
{
    if b < s.len() {
        let rest = s.drop_last();
        assert(s.last() == s[s.len() - 1]);
        assert(forall|i: int| 0 <= i < rest.len() ==> rest[i] == s[i]);
        lemma_trim_end(rest, b);
        assert(rest.subrange(0, b) =~= s.subrange(0, b));
    } else {
        if s.len() > 0 {
            assert(s.last() == s[s.len() - 1]);
        }
        assert(s.subrange(0, b) =~= s);
    }
}

/// A text without the white space at its ends.
pub fn trim(text: &str) -> (r: &str)
    ensures
        r@ == trimmed(text@),
{
    let n: usize = text.unicode_len();
    let mut a: usize = 0;
    while a < n && white(text.get_char(a))
        invariant
            n == text@.len(),
            a <= n,
            forall|i: int| 0 <= i < a ==> is_white(text@[i]),
        decreases n - a,
    {
        a = a + 1;
    }
    let mut b: usize = n;
    while b > a && white(text.get_char(b - 1))
        invariant
            n == text@.len(),
            a <= b <= n,
            forall|i: int| b <= i < n ==> is_white(text@[i]),
        decreases b,
    {
        b = b - 1;
    }
    proof {
        let s = text@;
        lemma_trim_start(s, a as int);
        let t = s.subrange(a as int, n as int);
        assert(forall|i: int| 0 <= i < t.len() ==> t[i] == s[i + a]);
        lemma_trim_end(t, b - a);
        assert(t.subrange(0, b - a) =~= s.subrange(a as int, b as int));
    }
    text.substring_char(a, b)
}

/// A label without white space at its ends and in lower case.
pub fn normalized(label: &str) -> (r: Vec<char>)
    ensures
        r@ == ascii_lower(trimmed(label@)),
{
    let inner = trim(label);
    let n: usize = inner.unicode_len();
    let mut out: Vec<char> = Vec::new();
    let mut i: usize = 0;
    while i < n
        invariant
            n == inner@.len(),
            i <= n,
            out@.len() == i,
            forall|k: int| 0 <= k < out@.len() ==> out@[k] == lower_char(inner@[k]),
        decreases n - i,
    {
        out.push(lowered(inner.get_char(i)));
        i = i + 1;
    }
    proof {
        assert(out@ =~= ascii_lower(inner@));
    }
    out
}

/// Compares two texts.
pub fn same_text(a: &str, b: &str) -> (r: bool)
    ensures
        r == (a@ == b@),
{
    let n: usize = a.unicode_len();
    if b.unicode_len() != n {
        return false;
    }
    let mut i: usize = 0;
    while i < n
        invariant
            n == a@.len(),
            n == b@.len(),
            i <= n,
            forall|k: int| 0 <= k < i ==> a@[k] == b@[k],
        decreases n - i,
    {
        if a.get_char(i) != b.get_char(i) {
            return false;
        }
        i = i + 1;
    }
    proof {
        assert(a@ =~= b@);
    }
    true
}

/// Compares a list of characters with a text.
pub fn chars_are(chars: &Vec<char>, text: &str) -> (r: bool)
    ensures
        r == (chars@ == text@),
{
    let n: usize = text.unicode_len();
    if chars.len() != n {
        return false;
    }
    let mut i: usize = 0;
    while i < n
        invariant
            n == text@.len(),
            chars@.len() == n,
            i <= n,
            forall|k: int| 0 <= k < i ==> chars@[k] == text@[k],
        decreases n - i,
    {
        if chars[i] != text.get_char(i) {
            return false;
        }
        i = i + 1;
    }
    proof {
        assert(chars@ =~= text@);
    }
    true
}

} // verus!
