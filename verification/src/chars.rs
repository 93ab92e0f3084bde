use vstd::prelude::*;
use vstd::std_specs::iter::IteratorSpec;

verus! {

broadcast use vstd::string::group_string_axioms;

/// Appends one character to a `String` (`String::push`).
#[verifier::external_body]
pub(crate) fn push_char(s: &mut String, c: char)
    ensures
        final(s)@ == old(s)@.push(c),
{
    s.push(c);
}

/// The characters of a string slice, in order.
pub fn chars_of(s: &str) -> (r: Vec<char>)
    ensures
        r@ == s@,
{
    let mut it = s.chars();
    let mut v: Vec<char> = Vec::new();
    loop
        invariant
            it.obeys_prophetic_iter_laws(),
            v@ + it.remaining() == s@,
            it.decrease() is Some,
        decreases it.decrease()->0,
    {
        let ghost before = it.remaining();
        match it.next() {
            Some(c) => {
                v.push(c);
                assert(v@ + it.remaining() == s@) by {
                    assert(before == seq![c] + it.remaining());
                }
            },
            None => {
                assert(v@ == s@);
                return v;
            },
        }
    }
}

/// A `String` holding the characters `v[lo..hi]`.
pub fn string_of(v: &Vec<char>, lo: usize, hi: usize) -> (r: String)
    requires
        lo <= hi <= v@.len(),
    ensures
        r@ == v@.subrange(lo as int, hi as int),
{
    let mut s = String::new();
    let mut i = lo;
    while i < hi
        invariant
            lo <= i <= hi <= v@.len(),
            s@ == v@.subrange(lo as int, i as int),
        decreases hi - i,
    {
        push_char(&mut s, v[i]);
        assert(v@.subrange(lo as int, i + 1) == v@.subrange(lo as int, i as int).push(v@[i as int]));
        i = i + 1;
    }
    s
}


/// The decimal digit character for `d < 10`.
pub open spec fn digit_char(d: nat) -> char {
    ((48 + d) as u32) as char
}

/// Decimal notation of a natural number, most significant digit first,
/// with no leading zeros (zero is written `0`).
pub open spec fn decimal(n: nat) -> Seq<char>
    decreases n,
{
    if n < 10 {
        seq![digit_char(n)]
    } else {
        decimal(n / 10).push(digit_char(n % 10))
    }
}

/// Appends the decimal notation of `n` to `s`.
pub fn append_decimal(s: &mut String, n: u64)
    ensures
        final(s)@ == old(s)@ + decimal(n as nat),
    decreases n,
{
    if n < 10 {
        push_char(s, digit_of(n));
        assert(decimal(n as nat) == seq![digit_char(n as nat)]);
        assert(old(s)@.push(digit_char(n as nat)) == old(s)@ + seq![digit_char(n as nat)]);
    } else {
        append_decimal(s, n / 10);
        push_char(s, digit_of(n % 10));
        assert(old(s)@ + decimal((n / 10) as nat) + seq![digit_char((n % 10) as nat)]
            == old(s)@ + decimal(n as nat));
    }
}

/// The digit character for a number below ten.
fn digit_of(d: u64) -> (c: char)
    requires
        d < 10,
    ensures
        c == digit_char(d as nat),
{
    let table = ['0', '1', '2', '3', '4', '5', '6', '7', '8', '9'];
    let c = table[d as usize];
    assert(c == digit_char(d as nat)) by {
        assert(digit_char(0) == '0');
        assert(digit_char(1) == '1');
        assert(digit_char(2) == '2');
        assert(digit_char(3) == '3');
        assert(digit_char(4) == '4');
        assert(digit_char(5) == '5');
        assert(digit_char(6) == '6');
        assert(digit_char(7) == '7');
        assert(digit_char(8) == '8');
        assert(digit_char(9) == '9');
    }
    c
}

/// Appends the characters of a string slice to `s`.
pub fn append_str(s: &mut String, t: &str)
    ensures
        final(s)@ == old(s)@ + t@,
{
    s.append(t);
}

/// A `String` holding the characters of a string slice.
pub fn string_from(t: &str) -> (r: String)
    ensures
        r@ == t@,
{
    String::from_str(t)
}

/// Whether `v[lo..hi]` spells exactly the string slice `lit`.
pub fn segment_is(v: &Vec<char>, lo: usize, hi: usize, lit: &str) -> (r: bool)
    requires
        lo <= hi <= v@.len(),
    ensures
        r == (v@.subrange(lo as int, hi as int) == lit@),
{
    let n = lit.unicode_len();
    if hi - lo != n {
        return false;
    }
    let mut i: usize = 0;
    while i < n
        invariant
            lo <= hi <= v@.len(),
            hi - lo == n == lit@.len(),
            i <= n,
            forall|k: int| 0 <= k < i ==> v@[lo + k] == lit@[k],
        decreases n - i,
    {
        if v[lo + i] != lit.get_char(i) {
            assert(v@.subrange(lo as int, hi as int)[i as int] != lit@[i as int]);
            return false;
        }
        i = i + 1;
    }
    assert(v@.subrange(lo as int, hi as int) =~= lit@);
    true
}


/// What `char::is_alphabetic` answers for `c`: whether `c` has the Unicode
/// `Alphabetic` property. Fixed by the Unicode tables of the standard library.
pub uninterp spec fn char_is_alphabetic(c: char) -> bool;

/// What `char::is_alphanumeric` answers for `c`: whether `c` has the Unicode
/// `Alphabetic` property or a numeric general category.
pub uninterp spec fn char_is_alphanumeric(c: char) -> bool;

/// The characters with the Unicode `White_Space` property: tab to carriage
/// return, space, next line, no-break space, ogham space mark, the spaces
/// from en quad to hair space, the line and paragraph separators, narrow
/// no-break space, medium mathematical space and ideographic space.
pub open spec fn is_white_space(c: char) -> bool {
    ('\u{9}' <= c && c <= '\u{d}') || c == ' ' || c == '\u{85}' || c == '\u{a0}' || c
        == '\u{1680}' || ('\u{2000}' <= c && c <= '\u{200a}') || c == '\u{2028}' || c
        == '\u{2029}' || c == '\u{202f}' || c == '\u{205f}' || c == '\u{3000}'
}

/// `char::is_alphabetic`. The contract only ties the answer to the character;
/// which characters are alphabetic is left to the standard library's tables.
#[verifier::external_body]
pub(crate) fn is_alphabetic(c: char) -> (r: bool)
    ensures
        r == char_is_alphabetic(c),
{
    c.is_alphabetic()
}

/// `char::is_alphanumeric`. The contract only ties the answer to the character;
/// which characters are alphanumeric is left to the standard library's tables.
#[verifier::external_body]
pub(crate) fn is_alphanumeric(c: char) -> (r: bool)
    ensures
        r == char_is_alphanumeric(c),
{
    c.is_alphanumeric()
}

/// Whether `c` has the Unicode `White_Space` property (as
/// `char::is_whitespace` answers).
pub(crate) fn is_whitespace(c: char) -> (r: bool)
    ensures
        r == is_white_space(c),
{
    ('\u{9}' <= c && c <= '\u{d}') || c == ' ' || c == '\u{85}' || c == '\u{a0}' || c
        == '\u{1680}' || ('\u{2000}' <= c && c <= '\u{200a}') || c == '\u{2028}' || c
        == '\u{2029}' || c == '\u{202f}' || c == '\u{205f}' || c == '\u{3000}'
}


/// Whether two string slices hold the same characters.
pub fn str_eq(a: &str, b: &str) -> (r: bool)
    ensures
        r == (a@ == b@),
{
    let n = a.unicode_len();
    if n != b.unicode_len() {
        return false;
    }
    let mut i: usize = 0;
    while i < n
        invariant
            n == a@.len() == b@.len(),
            i <= n,
            forall|k: int| 0 <= k < i ==> a@[k] == b@[k],
        decreases n - i,
    {
        if a.get_char(i) != b.get_char(i) {
            return false;
        }
        i = i + 1;
    }
    assert(a@ =~= b@);
    true
}

/// An ASCII decimal digit.
pub open spec fn is_ascii_digit(c: char) -> bool {
    48 <= (c as u32) && (c as u32) <= 57
}

/// The value of an ASCII digit.
pub open spec fn digit_value(c: char) -> int {
    (c as u32) - 48
}

/// Whether every character of `s` is an ASCII digit.
pub open spec fn all_digits(s: Seq<char>) -> bool {
    forall|i: int| 0 <= i < s.len() ==> is_ascii_digit(#[trigger] s[i])
}

/// The number that the ASCII digits `s` write in decimal.
pub open spec fn digits_value(s: Seq<char>) -> int
    decreases s.len(),
{
    if s.len() == 0 {
        0
    } else {
        digits_value(s.drop_last()) * 10 + digit_value(s.last())
    }
}

/// The integer that `s` writes: an optional `+` or `-`, then one or more
/// ASCII digits; nothing if `s` is not so written or the number does not fit
/// in 64 bits with sign.
pub open spec fn int_literal_value(s: Seq<char>) -> Option<int> {
    let signed = s.len() > 0 && (s[0] == '-' || s[0] == '+');
    let body = if signed {
        s.skip(1)
    } else {
        s
    };
    if body.len() > 0 && all_digits(body) {
        let v = if signed && s[0] == '-' {
            -digits_value(body)
        } else {
            digits_value(body)
        };
        if i64::MIN <= v <= i64::MAX {
            Some(v)
        } else {
            None
        }
    } else {
        None
    }
}

/// The decimal notation of an integer, with a `-` before a negative one.
pub open spec fn int_text(v: int) -> Seq<char> {
    if v < 0 {
        seq!['-'] + decimal((-v) as nat)
    } else {
        decimal(v as nat)
    }
}

/// A number written with digits is no less than the number its first digits
/// write.
pub proof fn lemma_digits_prefix(s: Seq<char>, k: int)
    requires
        all_digits(s),
        0 <= k <= s.len(),
    ensures
        0 <= digits_value(s.take(k)) <= digits_value(s),
    decreases s.len(),
{
    if s.len() > 0 {
        assert(all_digits(s.drop_last()));
        assert(is_ascii_digit(s[s.len() - 1]));
        if k == s.len() {
            assert(s.take(k) =~= s);
            lemma_digits_prefix(s.drop_last(), k - 1);
        } else {
            assert(s.drop_last().take(k) =~= s.take(k));
            lemma_digits_prefix(s.drop_last(), k);
        }
    } else {
        assert(s.take(k) =~= s);
    }
}

/// Reads an integer written as `int_literal_value` describes.
pub fn parse_int(s: &str) -> (r: Option<i64>)
    ensures
        match r {
            Some(v) => int_literal_value(s@) == Some(v as int),
            None => int_literal_value(s@) is None,
        },
{
    let v = chars_of(s);
    let n = v.len();
    let mut start: usize = 0;
    let mut negative = false;
    if n > 0 && (v[0] == '-' || v[0] == '+') {
        negative = v[0] == '-';
        start = 1;
    }
    let ghost body = if start == 1 {
        v@.skip(1)
    } else {
        v@
    };
    assert(body =~= v@.subrange(start as int, n as int));
    if start >= n {
        return None;
    }
    let mut acc: u64 = 0;
    let mut k: usize = start;
    assert(body.take(0) =~= Seq::<char>::empty());
    while k < n
        invariant
            start <= k <= n == v@.len(),
            v@ == s@,
            start == (if v@.len() > 0 && (v@[0] == '-' || v@[0] == '+') {
                1int
            } else {
                0int
            }),
            body == (if start == 1 {
                v@.skip(1)
            } else {
                v@
            }),
            body =~= v@.subrange(start as int, n as int),
            acc == digits_value(body.take(k - start)),
            all_digits(body.take(k - start)),
        decreases n - k,
    {
        let u = v[k] as u32;
        if u < 48 || u > 57 {
            assert(!is_ascii_digit(body[k - start]));
            return None;
        }
        assert(body.take(k - start + 1).drop_last() =~= body.take(k - start));
        assert(body.take(k - start + 1).last() == v@[k as int]);
        let d = (u - 48) as u64;
        let next = match acc.checked_mul(10) {
            Some(m) => m.checked_add(d),
            None => None,
        };
        match next {
            Some(x) => {
                acc = x;
            },
            None => {
                proof {
                    if all_digits(body) {
                        lemma_digits_prefix(body, k - start + 1);
                    }
                }
                return None;
            },
        }
        k = k + 1;
    }
    assert(body.take(n - start) =~= body);
    if negative {
        if acc > 9223372036854775808u64 {
            None
        } else if acc == 9223372036854775808u64 {
            Some(i64::MIN)
        } else {
            Some(-(acc as i64))
        }
    } else {
        if acc > 9223372036854775807u64 {
            None
        } else {
            Some(acc as i64)
        }
    }
}

/// Appends the decimal notation of `v` to `s`.
pub fn append_int(s: &mut String, v: i64)
    ensures
        final(s)@ == old(s)@ + int_text(v as int),
{
    if v < 0 {
        push_char(s, '-');
        let m: u64 = if v == i64::MIN {
            9223372036854775808u64
        } else {
            (-v) as u64
        };
        append_decimal(s, m);
        assert(old(s)@.push('-') + decimal(m as nat) =~= old(s)@ + int_text(v as int));
    } else {
        append_decimal(s, v as u64);
    }
}

/// The number of bytes `c` takes in UTF-8.
pub open spec fn utf8_width(c: char) -> nat {
    if (c as u32) < 0x80 {
        1
    } else if (c as u32) < 0x800 {
        2
    } else if (c as u32) < 0x10000 {
        3
    } else {
        4
    }
}

/// The number of bytes `s` takes in UTF-8.
pub open spec fn utf8_len(s: Seq<char>) -> nat
    decreases s.len(),
{
    if s.len() == 0 {
        0
    } else {
        utf8_len(s.drop_last()) + utf8_width(s.last())
    }
}

/// The number of bytes of `c` in UTF-8.
pub fn utf8_width_of(c: char) -> (r: usize)
    ensures
        r == utf8_width(c),
        1 <= r <= 4,
{
    let u = c as u32;
    if u < 0x80 {
        1
    } else if u < 0x800 {
        2
    } else if u < 0x10000 {
        3
    } else {
        4
    }
}

/// The number of bytes of `s[..n]` in UTF-8.
pub fn byte_len(s: &Vec<char>, n: usize) -> (r: usize)
    requires
        n <= s@.len(),
        s@.len() <= usize::MAX / 4,
    ensures
        r == utf8_len(s@.take(n as int)),
{
    let mut total: usize = 0;
    let mut k: usize = 0;
    assert(s@.take(0) =~= Seq::<char>::empty());
    while k < n
        invariant
            k <= n <= s@.len(),
            s@.len() <= usize::MAX / 4,
            total <= 4 * k,
            total == utf8_len(s@.take(k as int)),
        decreases n - k,
    {
        let w = utf8_width_of(s[k]);
        assert(s@.take(k + 1).drop_last() =~= s@.take(k as int));
        total = total + w;
        k = k + 1;
    }
    total
}

/// The decimal notation of a number is made of digits and reads back as
/// that number.
pub proof fn lemma_decimal_digits(n: nat)
    ensures
        decimal(n).len() > 0,
        all_digits(decimal(n)),
        digits_value(decimal(n)) == n,
    decreases n,
{
    if n < 10 {
        let c = digit_char(n);
        assert(c as u32 == 48 + n);
        assert(decimal(n).drop_last() =~= Seq::<char>::empty());
        assert(decimal(n).last() == c);
        assert(digits_value(decimal(n)) == digits_value(Seq::<char>::empty()) * 10 + digit_value(c));
    } else {
        lemma_decimal_digits(n / 10);
        let c = digit_char(n % 10);
        assert(c as u32 == 48 + n % 10);
        let d = decimal(n);
        assert(d.drop_last() =~= decimal(n / 10));
        assert(d.last() == c);
        assert(digits_value(d) == digits_value(decimal(n / 10)) * 10 + digit_value(c));
        assert((n / 10) * 10 + n % 10 == n);
        assert forall|i: int| 0 <= i < d.len() implies is_ascii_digit(#[trigger] d[i]) by {
            if i < d.len() - 1 {
                assert(d[i] == decimal(n / 10)[i]);
            }
        }
    }
}

/// Reading back the decimal text of a 64-bit integer gives that integer.
pub proof fn lemma_int_text_reads_back(v: int)
    requires
        i64::MIN <= v <= i64::MAX,
    ensures
        int_literal_value(int_text(v)) == Some(v),
{
    if v < 0 {
        let m = (-v) as nat;
        lemma_decimal_digits(m);
        let t = int_text(v);
        assert(t.skip(1) =~= decimal(m));
    } else {
        lemma_decimal_digits(v as nat);
        let t = int_text(v);
        assert(is_ascii_digit(t[0]));
    }
}

} // verus!
