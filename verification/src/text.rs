//! Character-level helpers for reading names typed by the user.

use vstd::prelude::*;

verus! {

/// ASCII lower-casing of one character; every other character is unchanged.
pub open spec fn ascii_lower(c: char) -> char {
    if 'A' <= c && c <= 'Z' {
        ((c as u32) + 32) as char
    } else {
        c
    }
}

/// ASCII upper-casing of one character; every other character is unchanged.
pub open spec fn ascii_upper(c: char) -> char {
    if 'a' <= c && c <= 'z' {
        ((c as u32) - 32) as char
    } else {
        c
    }
}

pub open spec fn ascii_lower_seq(s: Seq<char>) -> Seq<char> {
    s.map_values(|c: char| ascii_lower(c))
}

pub open spec fn ascii_upper_seq(s: Seq<char>) -> Seq<char> {
    s.map_values(|c: char| ascii_upper(c))
}

/// `suffix` is a suffix of `s`.
pub open spec fn has_suffix(s: Seq<char>, suffix: Seq<char>) -> bool {
    suffix.len() <= s.len() && s.subrange(s.len() - suffix.len(), s.len() as int) == suffix
}

/// `prefix` is a prefix of `s`.
pub open spec fn has_prefix(s: Seq<char>, prefix: Seq<char>) -> bool {
    prefix.len() <= s.len() && s.subrange(0, prefix.len() as int) == prefix
}

/// The characters of a string, one by one.
pub fn chars_of(s: &str) -> (r: Vec<char>)
    ensures
        r@ == s@,
{
    let n = s.unicode_len();
    let mut v: Vec<char> = Vec::new();
    let mut i: usize = 0;
    while i < n
        invariant
            n == s@.len(),
            i <= n,
            v@ == s@.subrange(0, i as int),
        decreases n - i,
    {
        v.push(s.get_char(i));
        i = i + 1;
    }
    assert(v@ =~= s@);
    v
}

/// Whether two character sequences are equal.
pub fn chars_eq(a: &[char], b: &[char]) -> (r: bool)
    ensures
        r == (a@ == b@),
{
    if a.len() != b.len() {
        return false;
    }
    let mut i: usize = 0;
    while i < a.len()
        invariant
            a@.len() == b@.len(),
            i <= a@.len(),
            forall|j: int| 0 <= j < i ==> a@[j] == b@[j],
        decreases a.len() - i,
    {
        if a[i] != b[i] {
            return false;
        }
        i = i + 1;
    }
    assert(a@ =~= b@);
    true
}

/// Whether a character sequence spells the given string.
pub fn chars_eq_str(a: &[char], b: &str) -> (r: bool)
    ensures
        r == (a@ == b@),
{
    let bv = chars_of(b);
    chars_eq(a, bv.as_slice())
}

/// Whether two strings are equal.
pub fn str_eq(a: &str, b: &str) -> (r: bool)
    ensures
        r == (a@ == b@),
{
    let av = chars_of(a);
    chars_eq_str(av.as_slice(), b)
}

/// Whether `s` ends with `suffix`.
pub fn str_ends_with(s: &str, suffix: &str) -> (r: bool)
    ensures
        r == has_suffix(s@, suffix@),
{
    let sv = chars_of(s);
    let fv = chars_of(suffix);
    if fv.len() > sv.len() {
        return false;
    }
    let off = sv.len() - fv.len();
    let mut i: usize = 0;
    while i < fv.len()
        invariant
            off + fv@.len() == sv@.len(),
            sv@ == s@,
            fv@ == suffix@,
            sv@.len() <= usize::MAX,
            i <= fv@.len(),
            forall|j: int| 0 <= j < i ==> sv@[off + j] == fv@[j],
        decreases fv.len() - i,
    {
        if sv[off + i] != fv[i] {
            assert(s@.subrange(s@.len() - suffix@.len(), s@.len() as int)[i as int] != suffix@[i as int]);
            return false;
        }
        i = i + 1;
    }
    assert(s@.subrange(s@.len() - suffix@.len(), s@.len() as int) =~= suffix@);
    true
}

/// Whether the characters `v` start with `prefix`.
pub fn chars_start_with(v: &[char], prefix: &str) -> (r: bool)
    ensures
        r == has_prefix(v@, prefix@),
{
    let pv = chars_of(prefix);
    if pv.len() > v.len() {
        return false;
    }
    let mut i: usize = 0;
    while i < pv.len()
        invariant
            pv@.len() <= v@.len(),
            pv@ == prefix@,
            i <= pv@.len(),
            forall|j: int| 0 <= j < i ==> v@[j] == pv@[j],
        decreases pv.len() - i,
    {
        if v[i] != pv[i] {
            assert(v@.subrange(0, prefix@.len() as int)[i as int] != prefix@[i as int]);
            return false;
        }
        i = i + 1;
    }
    assert(v@.subrange(0, prefix@.len() as int) =~= prefix@);
    true
}

/// ASCII lower-casing of every character.
pub fn to_ascii_lower(v: &[char]) -> (r: Vec<char>)
    ensures
        r@ == ascii_lower_seq(v@),
{
    let mut out: Vec<char> = Vec::new();
    let mut i: usize = 0;
    while i < v.len()
        invariant
            i <= v@.len(),
            out@ == ascii_lower_seq(v@.subrange(0, i as int)),
        decreases v.len() - i,
    {
        let c = v[i];
        let l = if 'A' <= c && c <= 'Z' {
            char_shift(c, true)
        } else {
            c
        };
        out.push(l);
        proof {
            assert(v@.subrange(0, i + 1) =~= v@.subrange(0, i as int).push(c));
        }
        assert(out@ =~= ascii_lower_seq(v@.subrange(0, i + 1)));
        i = i + 1;
    }
    assert(v@.subrange(0, v@.len() as int) =~= v@);
    out
}

/// ASCII upper-casing of every character.
pub fn to_ascii_upper(v: &[char]) -> (r: Vec<char>)
    ensures
        r@ == ascii_upper_seq(v@),
{
    let mut out: Vec<char> = Vec::new();
    let mut i: usize = 0;
    while i < v.len()
        invariant
            i <= v@.len(),
            out@ == ascii_upper_seq(v@.subrange(0, i as int)),
        decreases v.len() - i,
    {
        let c = v[i];
        let u = if 'a' <= c && c <= 'z' {
            char_shift(c, false)
        } else {
            c
        };
        out.push(u);
        proof {
            assert(v@.subrange(0, i + 1) =~= v@.subrange(0, i as int).push(c));
        }
        assert(out@ =~= ascii_upper_seq(v@.subrange(0, i + 1)));
        i = i + 1;
    }
    assert(v@.subrange(0, v@.len() as int) =~= v@);
    out
}

/// Moves an ASCII letter between the upper-case and lower-case ranges.
fn char_shift(c: char, down: bool) -> (r: char)
    requires
        down ==> ('A' <= c && c <= 'Z'),
        !down ==> ('a' <= c && c <= 'z'),
    ensures
        down ==> r == ((c as u32) + 32) as char,
        !down ==> r == ((c as u32) - 32) as char,
{
    let n = c as u32;
    let m: u32 = if down { n + 32 } else { n - 32 };
    let r = char_from_ascii(m);
    r
}

/// The character with an ASCII code point.
fn char_from_ascii(m: u32) -> (r: char)
    requires
        m < 128,
    ensures
        r == m as char,
{
    let b: u8 = m as u8;
    b as char
}

/// What `str::to_lowercase` returns for a string, by its characters. The
/// result depends on the argument alone (Unicode case mapping).
pub uninterp spec fn unicode_lowercase(s: Seq<char>) -> Seq<char>;

/// A character with the Unicode `White_Space` property, which is what
/// `char::is_whitespace` (and so `str::trim`) takes as white space.
pub open spec fn unicode_white_space(c: char) -> bool {
    let u = c as u32;
    ||| 0x9 <= u <= 0xD
    ||| u == 0x20
    ||| u == 0x85
    ||| u == 0xA0
    ||| u == 0x1680
    ||| 0x2000 <= u <= 0x200A
    ||| u == 0x2028
    ||| u == 0x2029
    ||| u == 0x202F
    ||| u == 0x205F
    ||| u == 0x3000
}

/// The characters without their leading white space.
pub open spec fn trimmed_start(s: Seq<char>) -> Seq<char>
    decreases s.len(),
{
    if s.len() > 0 && unicode_white_space(s[0]) {
        trimmed_start(s.drop_first())
    } else {
        s
    }
}

/// The characters without their trailing white space.
pub open spec fn trimmed_end(s: Seq<char>) -> Seq<char>
    decreases s.len(),
{
    if s.len() > 0 && unicode_white_space(s.last()) {
        trimmed_end(s.drop_last())
    } else {
        s
    }
}

/// What `str::trim` returns for a string, by its characters: the argument
/// without its leading and trailing Unicode white space.
pub open spec fn unicode_trimmed(s: Seq<char>) -> Seq<char> {
    trimmed_end(trimmed_start(s))
}

/// Every character is ASCII.
pub open spec fn all_ascii(s: Seq<char>) -> bool {
    forall|i: int| 0 <= i < s.len() ==> (#[trigger] s[i] as u32) < 128
}

/// Calls `str::to_lowercase`. The contract names the result
/// (`unicode_lowercase` of the argument's characters) and states it for ASCII
/// text, where Unicode lower-casing maps A-Z to a-z and keeps every other
/// character; the full Unicode case mapping is not written out here.
#[verifier::external_body]
pub(crate) fn lowercase(s: &str) -> (r: String)
    ensures
        r@ == unicode_lowercase(s@),
        all_ascii(s@) ==> r@ == ascii_lower_seq(s@),
{
    s.to_lowercase()
}

/// Whether a character has the Unicode `White_Space` property.
fn is_white_space(c: char) -> (r: bool)
    ensures
        r == unicode_white_space(c),
{
    let u = c as u32;
    (0x9 <= u && u <= 0xD) || u == 0x20 || u == 0x85 || u == 0xA0 || u == 0x1680 || (0x2000 <= u && u
        <= 0x200A) || u == 0x2028 || u == 0x2029 || u == 0x202F || u == 0x205F || u == 0x3000
}

/// The argument without its leading and trailing characters of the
/// Unicode `White_Space` property, as `str::trim` gives it.
pub(crate) fn trim(s: &str) -> (r: &str)
    ensures
        r@ == unicode_trimmed(s@),
{
    let n = s.unicode_len();
    let mut a: usize = 0;
    assert(s@.subrange(0, n as int) =~= s@);
    while a < n && is_white_space(s.get_char(a))
        invariant
            n == s@.len(),
            a <= n,
            trimmed_start(s@) == trimmed_start(s@.subrange(a as int, n as int)),
        decreases n - a,
    {
        assert(s@.subrange(a as int, n as int).drop_first() =~= s@.subrange(a + 1, n as int));
        a = a + 1;
    }
    let ghost head = s@.subrange(a as int, n as int);
    assert(trimmed_start(s@) == head) by {
        if a < n {
            assert(head[0] == s@[a as int]);
        } else {
            assert(head =~= Seq::<char>::empty());
        }
    }
    let mut b: usize = n;
    assert(s@.subrange(a as int, b as int) =~= head);
    while b > a && is_white_space(s.get_char(b - 1))
        invariant
            n == s@.len(),
            a <= b <= n,
            head == s@.subrange(a as int, n as int),
            trimmed_end(head) == trimmed_end(s@.subrange(a as int, b as int)),
        decreases b - a,
    {
        assert(s@.subrange(a as int, b as int).drop_last() =~= s@.subrange(a as int, b - 1));
        b = b - 1;
    }
    let r = s.substring_char(a, b);
    assert(trimmed_end(s@.subrange(a as int, b as int)) == s@.subrange(a as int, b as int)) by {
        if b > a {
            assert(s@.subrange(a as int, b as int).last() == s@[b - 1]);
        } else {
            assert(s@.subrange(a as int, b as int) =~= Seq::<char>::empty());
        }
    }
    r
}


/// Index of the first `sep` in `s`; its length when there is none.
pub open spec fn first_index_of(s: Seq<char>, sep: char) -> nat
    decreases s.len(),
{
    if s.len() == 0 {
        0
    } else if s[0] == sep {
        0
    } else {
        1 + first_index_of(s.drop_first(), sep)
    }
}

/// The pieces of `s` between occurrences of `sep`, in order: one more
/// piece than there are separators, empty pieces included.
pub open spec fn split_pieces(s: Seq<char>, sep: char) -> Seq<Seq<char>>
    decreases s.len(),
{
    let i = first_index_of(s, sep);
    if i >= s.len() {
        seq![s]
    } else {
        seq![s.take(i as int)] + split_pieces(s.skip(i + 1int), sep)
    }
}

/// The first separator is where `s` first holds one.
pub proof fn lemma_first_index_at(s: Seq<char>, sep: char, k: nat)
    requires
        k <= s.len(),
        forall|j: int| 0 <= j < k ==> s[j] != sep,
        k == s.len() || s[k as int] == sep,
    ensures
        first_index_of(s, sep) == k,
    decreases s.len(),
{
    if s.len() > 0 && k > 0 {
        assert forall|j: int| 0 <= j < k - 1 implies s.drop_first()[j] != sep by {
            assert(s.drop_first()[j] == s[j + 1]);
        }
        if k < s.len() {
            assert(s.drop_first()[k - 1] == s[k as int]);
        }
        lemma_first_index_at(s.drop_first(), sep, (k - 1) as nat);
    }
}

/// There is always at least one piece.
pub proof fn lemma_split_pieces_nonempty(s: Seq<char>, sep: char)
    ensures
        split_pieces(s, sep).len() >= 1,
    decreases s.len(),
{
    let i = first_index_of(s, sep);
    if i < s.len() {
        lemma_split_pieces_nonempty(s.skip(i + 1int), sep);
    }
}

/// The characters of each string slice in a list.
pub open spec fn str_views(v: Seq<&str>) -> Seq<Seq<char>> {
    v.map_values(|x: &str| x@)
}

/// Split a string on a separator character, as `str::split` with a `char`
/// pattern does.
pub fn split_on(s: &str, sep: char) -> (r: Vec<&str>)
    ensures
        str_views(r@) == split_pieces(s@, sep),
{
    let n = s.unicode_len();
    let mut pieces: Vec<&str> = Vec::new();
    let mut start: usize = 0;
    let mut i: usize = 0;
    assert(s@.skip(0) =~= s@);
    while i < n
        invariant
            n == s@.len(),
            start <= i <= n,
            forall|j: int| start <= j < i ==> s@[j] != sep,
            str_views(pieces@) + split_pieces(s@.skip(start as int), sep) == split_pieces(s@, sep),
        decreases n - i,
    {
        if s.get_char(i) == sep {
            let piece = s.substring_char(start, i);
            proof {
                let rest = s@.skip(start as int);
                let k = (i - start) as nat;
                assert forall|j: int| 0 <= j < k implies rest[j] != sep by {
                    assert(rest[j] == s@[start + j]);
                }
                assert(rest[k as int] == s@[i as int]);
                lemma_first_index_at(rest, sep, k);
                assert(rest.take(k as int) =~= piece@);
                assert(rest.skip(k + 1int) =~= s@.skip(i + 1));
                assert(str_views(pieces@.push(piece)) =~= str_views(pieces@) + seq![piece@]);
                assert(str_views(pieces@) + (seq![piece@] + split_pieces(s@.skip(i + 1), sep))
                    =~= str_views(pieces@) + seq![piece@] + split_pieces(s@.skip(i + 1), sep));
            }
            pieces.push(piece);
            start = i + 1;
        }
        i = i + 1;
    }
    let last = s.substring_char(start, n);
    proof {
        let rest = s@.skip(start as int);
        assert forall|j: int| 0 <= j < rest.len() implies rest[j] != sep by {
            assert(rest[j] == s@[start + j]);
        }
        lemma_first_index_at(rest, sep, rest.len());
        assert(rest =~= last@);
        assert(str_views(pieces@.push(last)) =~= str_views(pieces@) + seq![last@]);
    }
    pieces.push(last);
    pieces
}


/// What `str::to_uppercase` returns for a string, by its characters. The
/// result depends on the argument alone (Unicode case mapping).
pub uninterp spec fn unicode_uppercase(s: Seq<char>) -> Seq<char>;

/// Calls `str::to_uppercase`. The contract names the result
/// (`unicode_uppercase` of the argument's characters) and states it for ASCII
/// text, where Unicode upper-casing maps a-z to A-Z and keeps every other
/// character; the full Unicode case mapping is not written out here.
#[verifier::external_body]
pub(crate) fn uppercase(s: &str) -> (r: String)
    ensures
        r@ == unicode_uppercase(s@),
        all_ascii(s@) ==> r@ == ascii_upper_seq(s@),
{
    s.to_uppercase()
}

/// An ASCII decimal digit.
pub open spec fn is_digit(c: char) -> bool {
    '0' <= c && c <= '9'
}

/// One or more ASCII decimal digits.
pub open spec fn all_digits(s: Seq<char>) -> bool {
    s.len() > 0 && forall|i: int| 0 <= i < s.len() ==> is_digit(#[trigger] s[i])
}

/// The value of a string of decimal digits.
pub open spec fn digits_value(s: Seq<char>) -> int
    decreases s.len(),
{
    if s.len() == 0 {
        0
    } else {
        digits_value(s.drop_last()) * 10 + (s.last() as int - '0' as int)
    }
}

/// What `str::parse` gives for an unsigned integer type whose largest
/// value is `max`: an optional `+`, then one or more ASCII digits whose
/// value is at most `max`.
pub open spec fn unsigned_parse(s: Seq<char>, max: int) -> Option<int> {
    let body = if s.len() > 0 && s[0] == '+' {
        s.drop_first()
    } else {
        s
    };
    if all_digits(body) && digits_value(body) <= max {
        Some(digits_value(body))
    } else {
        None
    }
}

/// What `str::parse` gives for a signed integer type from `min` to `max`:
/// an optional `+` or `-`, then one or more ASCII digits, the value in range.
pub open spec fn signed_parse(s: Seq<char>, min: int, max: int) -> Option<int> {
    if s.len() > 0 && s[0] == '-' {
        let body = s.drop_first();
        if all_digits(body) && min <= -digits_value(body) {
            Some(-digits_value(body))
        } else {
            None
        }
    } else {
        unsigned_parse(s, max)
    }
}

/// Digit strings have non-negative values that grow as digits are added.
pub proof fn lemma_digits_grow(s: Seq<char>, k: int)
    requires
        0 <= k <= s.len(),
        forall|i: int| 0 <= i < s.len() ==> is_digit(#[trigger] s[i]),
    ensures
        0 <= digits_value(s.take(k)) <= digits_value(s),
    decreases s.len(),
{
    if s.len() > 0 {
        if k == s.len() {
            assert(s.take(k) =~= s);
            lemma_digits_grow(s.drop_last(), 0);
            assert(s.drop_last().take(0) =~= Seq::<char>::empty());
        } else {
            lemma_digits_grow(s.drop_last(), k);
            assert(s.drop_last().take(k) =~= s.take(k));
            assert(is_digit(s.last()));
        }
    } else {
        assert(s.take(k) =~= s);
    }
}

/// The value of the digits of `v` from `start` on, if they are all digits
/// and the value is at most `max`.
fn digits_at_most(v: &[char], start: usize, max: u64) -> (r: Option<u64>)
    requires
        start <= v@.len(),
    ensures
        match r {
            Some(x) => all_digits(v@.skip(start as int)) && x == digits_value(v@.skip(start as int))
                && x <= max,
            None => !(all_digits(v@.skip(start as int)) && digits_value(v@.skip(start as int)) <= max),
        },
{
    let ghost body = v@.skip(start as int);
    if start == v.len() {
        return None;
    }
    let mut acc: u64 = 0;
    let mut i: usize = start;
    assert(body.take(0) =~= Seq::<char>::empty());
    while i < v.len()
        invariant
            start <= i <= v@.len(),
            start < v@.len(),
            body == v@.skip(start as int),
            forall|j: int| 0 <= j < i - start ==> is_digit(#[trigger] body[j]),
            acc == digits_value(body.take(i - start)),
            acc <= max,
        decreases v.len() - i,
    {
        let c = v[i];
        assert(c == body[i - start]);
        if !('0' <= c && c <= '9') {
            return None;
        }
        let d: u64 = (c as u32 - '0' as u32) as u64;
        assert(body.take(i - start + 1).drop_last() =~= body.take(i - start));
        assert(body.take(i - start + 1).last() == c);
        if d > max || acc > (max - d) / 10 {
            proof {
                if d <= max {
                    vstd::arithmetic::div_mod::lemma_fundamental_div_mod((max - d) as int, 10);
                    vstd::arithmetic::div_mod::lemma_mod_pos_bound((max - d) as int, 10);
                }
                if all_digits(body) {
                    lemma_digits_grow(body, i - start + 1);
                }
            }
            return None;
        }
        proof {
            vstd::arithmetic::div_mod::lemma_fundamental_div_mod((max - d) as int, 10);
            vstd::arithmetic::div_mod::lemma_mod_pos_bound((max - d) as int, 10);
        }
        acc = acc * 10 + d;
        i = i + 1;
    }
    assert(body.take(i - start) =~= body);
    Some(acc)
}

/// Parses an unsigned decimal number that fits a `usize`, as `str::parse`
/// does.
pub fn parse_usize(v: &[char]) -> (r: Option<usize>)
    ensures
        match unsigned_parse(v@, usize::MAX as int) {
            Some(x) => r matches Some(n) && n as int == x,
            None => r is None,
        },
{
    let start: usize = if v.len() > 0 && v[0] == '+' {
        1
    } else {
        0
    };
    assert(start == 1 ==> v@.skip(1) =~= v@.drop_first());
    assert(v@.skip(0) =~= v@);
    match digits_at_most(v, start, usize::MAX as u64) {
        Some(x) => Some(x as usize),
        None => None,
    }
}

/// Parses a signed decimal number that fits an `i8`, as `str::parse` does.
pub fn parse_i8(v: &[char]) -> (r: Option<i8>)
    ensures
        match signed_parse(v@, -128, 127) {
            Some(x) => r matches Some(n) && n as int == x,
            None => r is None,
        },
{
    if v.len() > 0 && v[0] == '-' {
        assert(v@.skip(1) =~= v@.drop_first());
        match digits_at_most(v, 1, 128) {
            Some(x) => {
                let n: i16 = 0i16 - (x as i16);
                Some(n as i8)
            },
            None => None,
        }
    } else {
        let start: usize = if v.len() > 0 && v[0] == '+' {
            1
        } else {
            0
        };
        assert(start == 1 ==> v@.skip(1) =~= v@.drop_first());
        assert(v@.skip(0) =~= v@);
        match digits_at_most(v, start, 127) {
            Some(x) => Some(x as i8),
            None => None,
        }
    }
}


/// Calls `String::push`: the character is appended.
#[verifier::external_body]
pub(crate) fn push_char(s: &mut String, c: char)
    ensures
        final(s)@ == old(s)@.push(c),
{
    s.push(c)
}

/// Removes and returns the last character; an empty string is left as it
/// is and gives `None`.
pub(crate) fn pop_char(s: &mut String) -> (r: Option<char>)
    ensures
        old(s)@.len() == 0 ==> r is None && final(s)@ == old(s)@,
        old(s)@.len() > 0 ==> r == Some(old(s)@.last()) && final(s)@ == old(s)@.drop_last(),
{
    let n = s.as_str().unicode_len();
    if n == 0 {
        return None;
    }
    let c = s.as_str().get_char(n - 1);
    let rest = String::from_str(s.as_str().substring_char(0, n - 1));
    assert(rest@ =~= old(s)@.drop_last());
    *s = rest;
    Some(c)
}


/// Parses an unsigned decimal number that fits a `u16`, as `str::parse`
/// does.
pub fn parse_u16(v: &[char]) -> (r: Option<u16>)
    ensures
        match unsigned_parse(v@, u16::MAX as int) {
            Some(x) => r matches Some(n) && n as int == x,
            None => r is None,
        },
{
    let start: usize = if v.len() > 0 && v[0] == '+' {
        1
    } else {
        0
    };
    assert(start == 1 ==> v@.skip(1) =~= v@.drop_first());
    assert(v@.skip(0) =~= v@);
    match digits_at_most(v, start, 65535) {
        Some(x) => Some(x as u16),
        None => None,
    }
}

/// The decimal digits of a number, without leading zeros.
pub open spec fn decimal_digits(n: nat) -> Seq<char>
    decreases n,
{
    if n < 10 {
        seq![(('0' as nat) + n) as char]
    } else {
        decimal_digits(n / 10).push((('0' as nat) + n % 10) as char)
    }
}

/// The decimal digits of a number, without leading zeros or sign.
pub(crate) fn decimal_text(n: usize) -> (r: String)
    ensures
        r@ == decimal_digits(n as nat),
    decreases n,
{
    let mut s = if n < 10 {
        String::new()
    } else {
        decimal_text(n / 10)
    };
    let d = char_from_ascii(48 + (n % 10) as u32);
    push_char(&mut s, d);
    assert(s@ =~= decimal_digits(n as nat));
    s
}

/// Joins two strings.
pub(crate) fn concat(a: &str, b: &str) -> (r: String)
    ensures
        r@ == a@ + b@,
{
    String::from_str(a).concat(b)
}

} // verus!
