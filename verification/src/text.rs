//! Text helpers shared by the parser and the response builder: checked UTF-8
//! decoding of raw bytes, character search, trimming, string equality, and
//! decimal rendering of numbers.

use vstd::prelude::*;
use vstd::string::StrSliceExecFns;
use vstd::string::StringSliceAdditionalSpecFns;
use vstd::utf8::valid_utf8;

verus! {

/// Relies on str::from_utf8: it returns Ok exactly when the bytes are valid
/// UTF-8, and the returned slice is then backed by those same bytes.
#[verifier::external_body]
pub fn bytes_to_str(v: &[u8]) -> (r: Option<&str>)
    ensures
        r is Some <==> valid_utf8(v@),
        r matches Some(s) ==> s.spec_bytes() == v@,
{
    std::str::from_utf8(v).ok()
}

/// Relies on String::push: it appends the one character to the string.
#[verifier::external_body]
pub fn push_char(s: &mut String, c: char)
    ensures
        final(s)@ == old(s)@ + seq![c],
{
    s.push(c)
}

/// First index in `s` holding `c1` or `c2`, if any.
pub open spec fn spec_find2(s: Seq<char>, c1: char, c2: char) -> Option<int>
    decreases s.len(),
{
    if s.len() == 0 {
        None
    } else if s[0] == c1 || s[0] == c2 {
        Some(0int)
    } else {
        match spec_find2(s.skip(1), c1, c2) {
            Some(i) => Some(i + 1),
            None => None,
        }
    }
}

/// What `spec_find2` returns: the first hit when one exists, `None` when no
/// position holds either character.
pub proof fn lemma_find2(s: Seq<char>, c1: char, c2: char)
    ensures
        match spec_find2(s, c1, c2) {
            Some(i) => 0 <= i < s.len() && (s[i] == c1 || s[i] == c2) && (forall|j: int|
                0 <= j < i ==> s[j] != c1 && s[j] != c2),
            None => forall|j: int| 0 <= j < s.len() ==> s[j] != c1 && s[j] != c2,
        },
    decreases s.len(),
{
    if s.len() > 0 && s[0] != c1 && s[0] != c2 {
        lemma_find2(s.skip(1), c1, c2);
        match spec_find2(s.skip(1), c1, c2) {
            Some(i) => {
                assert(s.skip(1)[i] == s[i + 1]);
                assert(forall|j: int| 1 <= j < i + 1 ==> s[j] == s.skip(1)[j - 1]);
            },
            None => {
                assert(forall|j: int| 1 <= j < s.len() ==> s[j] == s.skip(1)[j - 1]);
            },
        }
    }
}

/// First hits are unique, so a position that is a hit with nothing before it
/// is the one `spec_find2` returns.
pub proof fn lemma_find2_is(s: Seq<char>, c1: char, c2: char, i: int)
    requires
        0 <= i < s.len(),
        s[i] == c1 || s[i] == c2,
        forall|j: int| 0 <= j < i ==> s[j] != c1 && s[j] != c2,
    ensures
        spec_find2(s, c1, c2) == Some(i),
{
    lemma_find2(s, c1, c2);
    match spec_find2(s, c1, c2) {
        Some(k) => {
            if k < i {
                assert(s[k] != c1 && s[k] != c2);
            } else if i < k {
                assert(s[i] != c1 && s[i] != c2);
            }
        },
        None => {
            assert(s[i] != c1 && s[i] != c2);
        },
    }
}

/// `spec_find2` misses exactly when no position holds either character.
pub proof fn lemma_find2_none(s: Seq<char>, c1: char, c2: char)
    requires
        forall|j: int| 0 <= j < s.len() ==> s[j] != c1 && s[j] != c2,
    ensures
        spec_find2(s, c1, c2) == None::<int>,
{
    lemma_find2(s, c1, c2);
    match spec_find2(s, c1, c2) {
        Some(k) => {
            assert(s[k] != c1 && s[k] != c2);
        },
        None => {},
    }
}

/// First position of `c1` or `c2` in `s`.
pub fn find2(s: &str, c1: char, c2: char) -> (r: Option<usize>)
    ensures
        match r {
            Some(i) => spec_find2(s@, c1, c2) == Some(i as int),
            None => spec_find2(s@, c1, c2) == None::<int>,
        },
{
    let n = s.unicode_len();
    let mut i: usize = 0;
    while i < n
        invariant
            n == s@.len(),
            i <= n,
            forall|j: int| 0 <= j < i ==> s@[j] != c1 && s@[j] != c2,
        decreases n - i,
    {
        let c = s.get_char(i);
        if c == c1 || c == c2 {
            proof {
                lemma_find2_is(s@, c1, c2, i as int);
            }
            return Some(i);
        }
        i += 1;
    }
    proof {
        lemma_find2_none(s@, c1, c2);
    }
    None
}

/// First index in `b` holding the byte `x`, if any.
pub open spec fn spec_find_byte(b: Seq<u8>, x: u8) -> Option<int>
    decreases b.len(),
{
    if b.len() == 0 {
        None
    } else if b[0] == x {
        Some(0int)
    } else {
        match spec_find_byte(b.skip(1), x) {
            Some(i) => Some(i + 1),
            None => None,
        }
    }
}

/// What `spec_find_byte` returns: the first hit when one exists, `None` when
/// no position holds the byte.
pub proof fn lemma_find_byte(b: Seq<u8>, x: u8)
    ensures
        match spec_find_byte(b, x) {
            Some(i) => 0 <= i < b.len() && b[i] == x && (forall|j: int| 0 <= j < i ==> b[j] != x),
            None => forall|j: int| 0 <= j < b.len() ==> b[j] != x,
        },
    decreases b.len(),
{
    if b.len() > 0 && b[0] != x {
        lemma_find_byte(b.skip(1), x);
        match spec_find_byte(b.skip(1), x) {
            Some(i) => {
                assert(b.skip(1)[i] == b[i + 1]);
                assert(forall|j: int| 1 <= j < i + 1 ==> b[j] == b.skip(1)[j - 1]);
            },
            None => {
                assert(forall|j: int| 1 <= j < b.len() ==> b[j] == b.skip(1)[j - 1]);
            },
        }
    }
}

/// A position holding `x` with no hit before it is the one `spec_find_byte`
/// returns.
pub proof fn lemma_find_byte_is(b: Seq<u8>, x: u8, i: int)
    requires
        0 <= i < b.len(),
        b[i] == x,
        forall|j: int| 0 <= j < i ==> b[j] != x,
    ensures
        spec_find_byte(b, x) == Some(i),
{
    lemma_find_byte(b, x);
    match spec_find_byte(b, x) {
        Some(k) => {
            if k < i {
                assert(b[k] != x);
            } else if i < k {
                assert(b[i] != x);
            }
        },
        None => {
            assert(b[i] != x);
        },
    }
}

/// First position of the byte `x` in `b`.
pub fn find_byte(b: &[u8], x: u8) -> (r: Option<usize>)
    ensures
        match r {
            Some(i) => spec_find_byte(b@, x) == Some(i as int),
            None => spec_find_byte(b@, x) == None::<int>,
        },
{
    let n = b.len();
    let mut i: usize = 0;
    while i < n
        invariant
            n == b@.len(),
            i <= n,
            forall|j: int| 0 <= j < i ==> b@[j] != x,
        decreases n - i,
    {
        if b[i] == x {
            proof {
                lemma_find_byte_is(b@, x, i as int);
            }
            return Some(i);
        }
        i += 1;
    }
    proof {
        lemma_find_byte(b@, x);
        if let Some(k) = spec_find_byte(b@, x) {
            assert(b@[k] != x);
        }
    }
    None
}

/// Character-for-character string equality.
pub fn str_eq(a: &str, b: &str) -> (r: bool)
    ensures
        r == (a@ == b@),
{
    let alen = a.unicode_len();
    let blen = b.unicode_len();
    if alen != blen {
        return false;
    }
    let mut i: usize = 0;
    while i < alen
        invariant
            alen == a@.len(),
            blen == b@.len(),
            alen == blen,
            i <= alen,
            forall|j: int| 0 <= j < i ==> a@[j] == b@[j],
        decreases alen - i,
    {
        if a.get_char(i) != b.get_char(i) {
            return false;
        }
        i += 1;
    }
    proof {
        assert(a@ =~= b@);
    }
    true
}

/// The whitespace characters that token trimming strips.
pub open spec fn is_ws(c: char) -> bool {
    c == ' ' || c == '\t' || c == '\n' || c == '\r'
}

/// `s` without its leading whitespace.
pub open spec fn spec_trim_start(s: Seq<char>) -> Seq<char>
    decreases s.len(),
{
    if s.len() > 0 && is_ws(s[0]) {
        spec_trim_start(s.skip(1))
    } else {
        s
    }
}

/// `s` without its trailing whitespace.
pub open spec fn spec_trim_end(s: Seq<char>) -> Seq<char>
    decreases s.len(),
{
    if s.len() > 0 && is_ws(s.last()) {
        spec_trim_end(s.drop_last())
    } else {
        s
    }
}

/// `s` without leading and trailing whitespace.
pub open spec fn spec_trim(s: Seq<char>) -> Seq<char> {
    spec_trim_end(spec_trim_start(s))
}

/// A string without any whitespace character trims to itself.
pub proof fn lemma_trim_of_clean(s: Seq<char>)
    requires
        forall|j: int| 0 <= j < s.len() ==> !is_ws(#[trigger] s[j]),
    ensures
        spec_trim(s) == s,
{
    if s.len() > 0 {
        assert(!is_ws(s[0]));
        assert(!is_ws(s.last()));
    }
}

/// Trimming the leading whitespace keeps a suffix: it strips exactly the
/// whitespace prefix.
proof fn lemma_trim_start_subrange(s: Seq<char>, a: int)
    requires
        0 <= a <= s.len(),
        forall|j: int| 0 <= j < a ==> is_ws(#[trigger] s[j]),
        a < s.len() ==> !is_ws(s[a]),
    ensures
        spec_trim_start(s) == s.skip(a),
    decreases s.len(),
{
    if a == 0 {
        assert(s.skip(0) =~= s);
    } else {
        assert(is_ws(s[0]));
        lemma_trim_start_subrange(s.skip(1), a - 1);
        assert(s.skip(1).skip(a - 1) =~= s.skip(a));
    }
}

/// Trimming the trailing whitespace keeps a prefix: it strips exactly the
/// whitespace suffix.
proof fn lemma_trim_end_subrange(s: Seq<char>, b: int)
    requires
        0 <= b <= s.len(),
        forall|j: int| b <= j < s.len() ==> is_ws(#[trigger] s[j]),
        b > 0 ==> !is_ws(s[b - 1]),
    ensures
        spec_trim_end(s) == s.take(b),
    decreases s.len(),
{
    if b == s.len() {
        assert(s.take(b) =~= s);
    } else {
        assert(is_ws(s.last()));
        lemma_trim_end_subrange(s.drop_last(), b);
        assert(s.drop_last().take(b) =~= s.take(b));
    }
}

/// `s` with surrounding whitespace removed.
pub fn trim(s: &str) -> (r: &str)
    ensures
        r@ == spec_trim(s@),
{
    let n = s.unicode_len();
    let mut a: usize = 0;
    while a < n && is_ws_char(s.get_char(a))
        invariant
            n == s@.len(),
            a <= n,
            forall|j: int| 0 <= j < a ==> is_ws(#[trigger] s@[j]),
        decreases n - a,
    {
        a += 1;
    }
    proof {
        lemma_trim_start_subrange(s@, a as int);
    }
    let mut b: usize = n;
    while b > a && is_ws_char(s.get_char(b - 1))
        invariant
            n == s@.len(),
            a <= b <= n,
            a < n ==> !is_ws(s@[a as int]),
            forall|j: int| b <= j < n ==> is_ws(#[trigger] s@[j]),
        decreases b,
    {
        b -= 1;
    }
    let r = s.substring_char(a, b);
    proof {
        let t = s@.skip(a as int);
        if b > a {
            lemma_trim_end_subrange(t, b - a);
        } else {
            lemma_trim_end_subrange(t, 0);
        }
        assert(t.take(b - a) =~= s@.subrange(a as int, b as int));
    }
    r
}

/// Whether the character counts as whitespace for trimming.
pub fn is_ws_char(c: char) -> (r: bool)
    ensures
        r == is_ws(c),
{
    c == ' ' || c == '\t' || c == '\n' || c == '\r'
}

/// The character for one decimal digit.
pub open spec fn spec_digit(d: int) -> char {
    if d == 0 {
        '0'
    } else if d == 1 {
        '1'
    } else if d == 2 {
        '2'
    } else if d == 3 {
        '3'
    } else if d == 4 {
        '4'
    } else if d == 5 {
        '5'
    } else if d == 6 {
        '6'
    } else if d == 7 {
        '7'
    } else if d == 8 {
        '8'
    } else {
        '9'
    }
}

/// The decimal rendering of a number, most significant digit first, with no
/// leading zero except for the number zero itself.
pub open spec fn spec_dec(n: nat) -> Seq<char>
    decreases n,
{
    if n < 10 {
        seq![spec_digit(n as int)]
    } else {
        spec_dec(n / 10) + seq![spec_digit((n % 10) as int)]
    }
}

/// The character for the decimal digit `d`.
fn digit_char(d: u64) -> (r: char)
    requires
        d < 10,
    ensures
        r == spec_digit(d as int),
{
    if d == 0 {
        '0'
    } else if d == 1 {
        '1'
    } else if d == 2 {
        '2'
    } else if d == 3 {
        '3'
    } else if d == 4 {
        '4'
    } else if d == 5 {
        '5'
    } else if d == 6 {
        '6'
    } else if d == 7 {
        '7'
    } else if d == 8 {
        '8'
    } else {
        '9'
    }
}

/// The decimal rendering of `n`.
pub fn dec_string(n: u64) -> (r: String)
    ensures
        r@ == spec_dec(n as nat),
    decreases n,
{
    if n < 10 {
        let mut s = String::new();
        push_char(&mut s, digit_char(n));
        s
    } else {
        let mut s = dec_string(n / 10);
        push_char(&mut s, digit_char(n % 10));
        s
    }
}

} // verus!
