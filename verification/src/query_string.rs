//! The query-string decoder: a raw `&`-separated, form-encoded query text
//! becomes a mapping from decoded keys to their decoded values.
//!
//! Decoding is total: malformed percent-escapes pass through byte for byte,
//! and bytes that are not valid UTF-8 degrade lossily instead of erroring.

use vstd::prelude::*;
use vstd::string::StringSliceAdditionalSpecFns;
use vstd::utf8::decode_utf8;
use vstd::utf8::encode_utf8;
use vstd::utf8::valid_utf8;

use crate::text::lemma_find_byte;
use crate::text::find_byte;
use crate::text::spec_find_byte;

verus! {

/// Separator between key=value pairs: `&`.
pub const AMP_BYTE: u8 = 0x26;

/// Separator between a key and its value: `=`.
pub const EQ_BYTE: u8 = 0x3d;

/// Escape lead-in for percent-encoding: `%`.
pub const PERCENT_BYTE: u8 = 0x25;

/// Form encoding of a space: `+`.
pub const PLUS_BYTE: u8 = 0x2b;

/// The space that a `+` decodes to.
pub const SPACE_BYTE: u8 = 0x20;

/// All values bound to one decoded key: one value, or an ordered sequence of
/// values for a key that occurred more than once.
#[derive(Debug, Clone)]
pub enum Value {
    Single(String),
    Multiple(Vec<String>),
}

/// The mathematical shape of a [`Value`]: its texts as character sequences.
pub enum ValueView {
    Single(Seq<char>),
    Multiple(Seq<Seq<char>>),
}

impl View for Value {
    type V = ValueView;

    open spec fn view(&self) -> ValueView {
        match self {
            Value::Single(s) => ValueView::Single(s@),
            Value::Multiple(vs) => ValueView::Multiple(vs@.map_values(|x: String| x@)),
        }
    }
}

/// Whether `b` is an ASCII hex digit, the only bytes a percent-escape accepts.
pub open spec fn is_hex_digit(b: u8) -> bool {
    (0x30 <= b <= 0x39) || (0x41 <= b <= 0x46) || (0x61 <= b <= 0x66)
}

/// The numeric value of the ASCII hex digit `b`.
pub open spec fn hex_val(b: u8) -> u8
    recommends
        is_hex_digit(b),
{
    if 0x30 <= b <= 0x39 {
        (b - 0x30) as u8
    } else if 0x41 <= b <= 0x46 {
        (b - 0x41 + 10) as u8
    } else {
        (b - 0x61 + 10) as u8
    }
}

/// Percent-decoding: every `%` followed by two hex digits becomes the byte
/// those digits name; every other byte passes through unchanged.
pub open spec fn spec_percent_decode(b: Seq<u8>) -> Seq<u8>
    decreases b.len(),
{
    if b.len() == 0 {
        Seq::empty()
    } else if b[0] == PERCENT_BYTE && b.len() >= 3 && is_hex_digit(b[1]) && is_hex_digit(b[2]) {
        seq![(16 * hex_val(b[1]) + hex_val(b[2])) as u8] + spec_percent_decode(b.skip(3))
    } else {
        seq![b[0]] + spec_percent_decode(b.skip(1))
    }
}

/// Relies on percent_encoding::percent_decode: every `%` followed by two hex
/// digits is decoded to that byte, and every other byte passes through.
#[verifier::external_body]
fn percent_decode_bytes(b: &[u8]) -> (r: Vec<u8>)
    ensures
        r@ == spec_percent_decode(b@),
{
    percent_encoding::percent_decode(b).collect()
}

/// What the lossy UTF-8 conversion makes of a byte sequence. The result is a
/// function of the bytes alone.
pub uninterp spec fn lossy_decoded(b: Seq<u8>) -> Seq<char>;

/// Relies on String::from_utf8_lossy: valid UTF-8 decodes exactly; invalid
/// sequences are replaced with the replacement character, a function of the
/// bytes alone.
#[verifier::external_body]
fn utf8_lossy_string(b: &[u8]) -> (r: String)
    ensures
        r@ == lossy_decoded(b@),
        valid_utf8(b@) ==> r@ == decode_utf8(b@),
{
    String::from_utf8_lossy(b).into_owned()
}

/// `b` with every `+` byte replaced by a space.
pub open spec fn spec_plus_to_space(b: Seq<u8>) -> Seq<u8> {
    b.map_values(|x: u8| if x == PLUS_BYTE { SPACE_BYTE } else { x })
}

/// Replaces every `+` byte with a space.
fn plus_to_space(b: &[u8]) -> (r: Vec<u8>)
    ensures
        r@ == spec_plus_to_space(b@),
{
    let n = b.len();
    let mut out: Vec<u8> = Vec::new();
    let mut i: usize = 0;
    while i < n
        invariant
            n == b@.len(),
            i <= n,
            out@ == spec_plus_to_space(b@.take(i as int)),
        decreases n - i,
    {
        if b[i] == PLUS_BYTE {
            out.push(SPACE_BYTE);
        } else {
            out.push(b[i]);
        }
        proof {
            assert(spec_plus_to_space(b@.take(i + 1)) =~= spec_plus_to_space(b@.take(i as int))
                + seq![if b@[i as int] == PLUS_BYTE { SPACE_BYTE } else { b@[i as int] }]);
        }
        i += 1;
    }
    proof {
        assert(b@.take(n as int) =~= b@);
    }
    out
}

/// The decoded text of one raw key or value: percent-decode, then turn each
/// `+` into a space, then read the bytes as UTF-8, lossily.
pub open spec fn spec_component(b: Seq<u8>) -> Seq<char> {
    lossy_decoded(spec_plus_to_space(spec_percent_decode(b)))
}

/// Decodes one raw key or value.
fn decode_component(b: &[u8]) -> (r: String)
    ensures
        r@ == spec_component(b@),
{
    let d = percent_decode_bytes(b);
    let p = plus_to_space(d.as_slice());
    utf8_lossy_string(p.as_slice())
}

/// The raw pieces of a query string: split on `&`, keeping empty pieces.
pub open spec fn spec_split_amp(b: Seq<u8>) -> Seq<Seq<u8>>
    decreases b.len(),
{
    match spec_find_byte(b, AMP_BYTE) {
        None => seq![b],
        Some(i) => if 0 <= i < b.len() {
            seq![b.take(i)] + spec_split_amp(b.skip(i + 1))
        } else {
            seq![b]
        },
    }
}

/// One piece split at its first `=`: the key before it and the value after
/// it; a piece with no `=` is all key, with an empty value.
pub open spec fn spec_split_eq(p: Seq<u8>) -> (Seq<u8>, Seq<u8>) {
    match spec_find_byte(p, EQ_BYTE) {
        None => (p, Seq::empty()),
        Some(i) => (p.take(i), p.skip(i + 1)),
    }
}

/// Splits a raw query string on `&`, keeping empty pieces.
fn split_amp(b: &[u8]) -> (r: Vec<Vec<u8>>)
    ensures
        r@.map_values(|p: Vec<u8>| p@) == spec_split_amp(b@),
{
    let n = b.len();
    let mut pieces: Vec<Vec<u8>> = Vec::new();
    let mut start: usize = 0;
    proof {
        assert(b@.skip(0) =~= b@);
        assert(pieces@.map_values(|p: Vec<u8>| p@) =~= Seq::<Seq<u8>>::empty());
    }
    loop
        invariant
            start <= n,
            n == b@.len(),
            spec_split_amp(b@) =~= pieces@.map_values(|p: Vec<u8>| p@) + spec_split_amp(
                b@.skip(start as int),
            ),
        decreases n - start,
    {
        let mut j: usize = start;
        while j < n && b[j] != AMP_BYTE
            invariant
                start <= j <= n,
                n == b@.len(),
                forall|t: int| start <= t < j ==> b@[t] != AMP_BYTE,
            decreases n - j,
        {
            j += 1;
        }
        let mut piece: Vec<u8> = Vec::new();
        piece.extend_from_slice(&b[start..j]);
        proof {
            let rest = b@.skip(start as int);
            assert(piece@ =~= rest.take(j - start));
        }
        if j == n {
            proof {
                let rest = b@.skip(start as int);
                assert(forall|t: int| 0 <= t < rest.len() ==> rest[t] == b@[t + start]);
                crate::text::lemma_find_byte(rest, AMP_BYTE);
                if let Some(k) = spec_find_byte(rest, AMP_BYTE) {
                    assert(b@[k + start] != AMP_BYTE);
                }
                assert(rest.take(j - start) =~= rest);
                assert(pieces@.push(piece).map_values(|p: Vec<u8>| p@) =~= pieces@.map_values(
                    |p: Vec<u8>| p@,
                ) + seq![piece@]);
            }
            pieces.push(piece);
            return pieces;
        } else {
            proof {
                let rest = b@.skip(start as int);
                assert(rest[j - start] == AMP_BYTE);
                assert(forall|t: int| 0 <= t < j - start ==> rest[t] == b@[t + start]);
                crate::text::lemma_find_byte_is(rest, AMP_BYTE, j - start);
                assert(rest.skip(j - start + 1) =~= b@.skip(j + 1));
                assert(pieces@.push(piece).map_values(|p: Vec<u8>| p@) =~= pieces@.map_values(
                    |p: Vec<u8>| p@,
                ) + seq![piece@]);
            }
            pieces.push(piece);
            start = j + 1;
        }
    }
}

/// Splits one raw piece at its first `=`.
fn split_eq(p: &[u8]) -> (r: (Vec<u8>, Vec<u8>))
    ensures
        r.0@ == spec_split_eq(p@).0,
        r.1@ == spec_split_eq(p@).1,
{
    let n = p.len();
    let mut key: Vec<u8> = Vec::new();
    let mut val: Vec<u8> = Vec::new();
    match find_byte(p, EQ_BYTE) {
        None => {
            key.extend_from_slice(p);
            proof {
                assert(key@ =~= p@);
            }
        },
        Some(i) => {
            proof {
                lemma_find_byte(p@, EQ_BYTE);
            }
            key.extend_from_slice(&p[0..i]);
            val.extend_from_slice(&p[i + 1..n]);
            proof {
                lemma_find_byte(p@, EQ_BYTE);
                assert(key@ =~= p@.take(i as int));
                assert(val@ =~= p@.skip(i + 1));
            }
        },
    }
    (key, val)
}

/// The mapping after one raw pair, with decoded key `k` and value `v`, lands
/// on `m`: a new key starts a `Single`; a repeated key grows to `Multiple`,
/// except that a repeated empty value is dropped as noise.
pub open spec fn spec_merge(
    m: Map<Seq<char>, ValueView>,
    k: Seq<char>,
    v: Seq<char>,
) -> Map<Seq<char>, ValueView> {
    if !m.contains_key(k) {
        m.insert(k, ValueView::Single(v))
    } else if v.len() == 0 {
        m
    } else {
        match m[k] {
            ValueView::Single(p) => m.insert(k, ValueView::Multiple(seq![p, v])),
            ValueView::Multiple(vs) => m.insert(k, ValueView::Multiple(vs.push(v))),
        }
    }
}

/// The mapping decoded from the raw pieces, merged first to last.
pub open spec fn spec_decode_pieces(ps: Seq<Seq<u8>>) -> Map<Seq<char>, ValueView>
    decreases ps.len(),
{
    if ps.len() == 0 {
        Map::empty()
    } else {
        spec_merge(
            spec_decode_pieces(ps.drop_last()),
            spec_component(spec_split_eq(ps.last()).0),
            spec_component(spec_split_eq(ps.last()).1),
        )
    }
}

/// The mapping decoded from raw query bytes.
pub open spec fn spec_decode_bytes(b: Seq<u8>) -> Map<Seq<char>, ValueView> {
    spec_decode_pieces(spec_split_amp(b))
}

/// The mapping decoded from a raw query string.
pub open spec fn spec_decode(s: Seq<char>) -> Map<Seq<char>, ValueView> {
    spec_decode_bytes(encode_utf8(s))
}

/// A decoded query string: a mapping from decoded keys to their values.
/// Keys are unique; insertion order carries no meaning.
#[derive(Debug, Clone)]
pub struct QueryString {
    data: Vec<(String, Value)>,
}

/// The mapping held by the entries, earliest entry winning on a repeated key
/// (the builder never creates one).
pub open spec fn entries_map(s: Seq<(String, Value)>) -> Map<Seq<char>, ValueView>
    decreases s.len(),
{
    if s.len() == 0 {
        Map::empty()
    } else {
        entries_map(s.skip(1)).insert(s[0].0@, s[0].1@)
    }
}

impl View for QueryString {
    type V = Map<Seq<char>, ValueView>;

    closed spec fn view(&self) -> Map<Seq<char>, ValueView> {
        entries_map(self.data@)
    }
}

/// A key is in the entries' mapping exactly when some entry holds it.
proof fn lemma_entries_contains(s: Seq<(String, Value)>)
    ensures
        forall|k: Seq<char>|
            entries_map(s).contains_key(k) <==> exists|i: int|
                0 <= i < s.len() && #[trigger] s[i].0@ == k,
    decreases s.len(),
{
    if s.len() > 0 {
        lemma_entries_contains(s.skip(1));
        assert forall|k: Seq<char>| entries_map(s).contains_key(k) implies exists|i: int|
            0 <= i < s.len() && #[trigger] s[i].0@ == k by {
            if s[0].0@ == k {
                assert(s[0].0@ == k);
            } else {
                assert(entries_map(s.skip(1)).contains_key(k));
                let i = choose|i: int|
                    0 <= i < s.skip(1).len() && #[trigger] s.skip(1)[i].0@ == k;
                assert(s.skip(1)[i] == s[i + 1]);
                assert(s[i + 1].0@ == k);
            }
        }
        assert forall|k: Seq<char>|
            (exists|i: int| 0 <= i < s.len() && #[trigger] s[i].0@ == k) implies entries_map(
            s,
        ).contains_key(k) by {
            let i = choose|i: int| 0 <= i < s.len() && #[trigger] s[i].0@ == k;
            if i > 0 {
                assert(s.skip(1)[i - 1] == s[i]);
                assert(s.skip(1)[i - 1].0@ == k);
                assert(entries_map(s.skip(1)).contains_key(k));
            }
        }
    }
}

/// The mapping's value for a key is the value of the first entry holding it.
proof fn lemma_entries_first(s: Seq<(String, Value)>, j: int)
    requires
        0 <= j < s.len(),
        forall|i: int| 0 <= i < j ==> #[trigger] s[i].0@ != s[j].0@,
    ensures
        entries_map(s).contains_key(s[j].0@),
        entries_map(s)[s[j].0@] == s[j].1@,
    decreases j,
{
    if j > 0 {
        assert(forall|i: int|
            0 <= i < j - 1 ==> #[trigger] s.skip(1)[i].0@ == s[i + 1].0@);
        assert(s.skip(1)[j - 1] == s[j]);
        lemma_entries_first(s.skip(1), j - 1);
    }
}

/// Appending an entry with a fresh key inserts it into the mapping.
proof fn lemma_entries_push_fresh(s: Seq<(String, Value)>, p: (String, Value))
    requires
        forall|i: int| 0 <= i < s.len() ==> #[trigger] s[i].0@ != p.0@,
    ensures
        entries_map(s.push(p)) == entries_map(s).insert(p.0@, p.1@),
    decreases s.len(),
{
    if s.len() == 0 {
        assert(s.push(p)[0] == p);
        assert(s.push(p).skip(1) =~= Seq::<(String, Value)>::empty());
        assert(entries_map(s.push(p)) == entries_map(s.push(p).skip(1)).insert(p.0@, p.1@));
        assert(entries_map(s) =~= Map::<Seq<char>, ValueView>::empty());
        assert(entries_map(s.push(p)) =~= entries_map(s).insert(p.0@, p.1@));
    } else {
        assert(s.push(p)[0] == s[0]);
        assert(s.push(p).skip(1) =~= s.skip(1).push(p));
        assert forall|i: int| 0 <= i < s.skip(1).len() implies #[trigger] s.skip(1)[i].0@
            != p.0@ by {
            assert(s.skip(1)[i] == s[i + 1]);
        }
        lemma_entries_push_fresh(s.skip(1), p);
        assert(entries_map(s.push(p)) == entries_map(s.skip(1).push(p)).insert(s[0].0@, s[0].1@));
        assert(entries_map(s.skip(1).push(p)) == entries_map(s.skip(1)).insert(p.0@, p.1@));
        assert(entries_map(s) == entries_map(s.skip(1)).insert(s[0].0@, s[0].1@));
        assert(s[0].0@ != p.0@);
        assert(entries_map(s.skip(1)).insert(p.0@, p.1@).insert(s[0].0@, s[0].1@)
            =~= entries_map(s.skip(1)).insert(s[0].0@, s[0].1@).insert(p.0@, p.1@));
        assert(entries_map(s.push(p)) =~= entries_map(s).insert(p.0@, p.1@));
    }
}

/// Replacing the first entry holding a key updates the mapping at that key.
proof fn lemma_entries_update_first(s: Seq<(String, Value)>, j: int, p: (String, Value))
    requires
        0 <= j < s.len(),
        s[j].0@ == p.0@,
        forall|i: int| 0 <= i < j ==> #[trigger] s[i].0@ != p.0@,
    ensures
        entries_map(s.update(j, p)) == entries_map(s).insert(p.0@, p.1@),
    decreases j,
{
    if j == 0 {
        assert(s.update(0, p)[0] == p);
        assert(s.update(0, p).skip(1) =~= s.skip(1));
        assert(entries_map(s.update(0, p)) == entries_map(s.skip(1)).insert(p.0@, p.1@));
        assert(entries_map(s) == entries_map(s.skip(1)).insert(s[0].0@, s[0].1@));
        assert(s[0].0@ == p.0@);
        assert(entries_map(s.skip(1)).insert(s[0].0@, s[0].1@).insert(p.0@, p.1@)
            =~= entries_map(s.skip(1)).insert(p.0@, p.1@));
        assert(entries_map(s.update(0, p)) =~= entries_map(s).insert(p.0@, p.1@));
    } else {
        assert(s.update(j, p)[0] == s[0]);
        assert(s.update(j, p).skip(1) =~= s.skip(1).update(j - 1, p));
        assert(s.skip(1)[j - 1] == s[j]);
        assert forall|i: int| 0 <= i < j - 1 implies #[trigger] s.skip(1)[i].0@ != p.0@ by {
            assert(s.skip(1)[i] == s[i + 1]);
            assert(s[i + 1].0@ != p.0@);
        }
        lemma_entries_update_first(s.skip(1), j - 1, p);
        assert(entries_map(s.update(j, p)) == entries_map(s.skip(1).update(j - 1, p)).insert(
            s[0].0@,
            s[0].1@,
        ));
        assert(entries_map(s.skip(1).update(j - 1, p)) == entries_map(s.skip(1)).insert(
            p.0@,
            p.1@,
        ));
        assert(entries_map(s) == entries_map(s.skip(1)).insert(s[0].0@, s[0].1@));
        assert(s[0].0@ != p.0@);
        assert(entries_map(s.skip(1)).insert(p.0@, p.1@).insert(s[0].0@, s[0].1@)
            =~= entries_map(s.skip(1)).insert(s[0].0@, s[0].1@).insert(p.0@, p.1@));
        assert(entries_map(s.update(j, p)) =~= entries_map(s).insert(p.0@, p.1@));
    }
}

impl QueryString {
    /// Folds one decoded key/value pair into the mapping.
    fn merge(&mut self, k: String, v: String)
        ensures
            final(self)@ == spec_merge(old(self)@, k@, v@),
    {
        let n = self.data.len();
        let mut j: usize = 0;
        while j < n
            invariant
                n == self.data@.len(),
                j <= n,
                self == old(self),
                forall|i: int| 0 <= i < j ==> #[trigger] self.data@[i].0@ != k@,
            decreases n - j,
        {
            if crate::text::str_eq(self.data[j].0.as_str(), k.as_str()) {
                proof {
                    lemma_entries_first(self.data@, j as int);
                }
                if v.as_str().is_empty() {
                    proof {
                        lemma_entries_contains(self.data@);
                    }
                    return ;
                }
                proof {
                    lemma_entries_contains(old(self).data@);
                }
                let ghost gv = v@;
                let pair = self.data.remove(j);
                let key = pair.0;
                let ghost oldview = pair.1@;
                let newval = match pair.1 {
                    Value::Single(prev) => {
                        proof {
                            assert(oldview == ValueView::Single(prev@));
                        }
                        let mut vs: Vec<String> = Vec::new();
                        vs.push(prev);
                        vs.push(v);
                        proof {
                            assert(vs@.map_values(|x: String| x@) =~= seq![
                                oldview->Single_0,
                                gv,
                            ]);
                        }
                        Value::Multiple(vs)
                    },
                    Value::Multiple(mut vs) => {
                        proof {
                            assert(oldview == ValueView::Multiple(
                                vs@.map_values(|x: String| x@),
                            ));
                        }
                        vs.push(v);
                        proof {
                            assert(vs@.map_values(|x: String| x@)
                                =~= oldview->Multiple_0.push(gv));
                        }
                        Value::Multiple(vs)
                    },
                };
                let newpair = (key, newval);
                let ghost gp = newpair;
                self.data.insert(j, newpair);
                proof {
                    assert(self.data@ =~= old(self).data@.update(j as int, gp));
                    assert(gp.0@ == k@);
                    lemma_entries_update_first(old(self).data@, j as int, gp);
                    assert(old(self)@[k@] == oldview);
                    match oldview {
                        ValueView::Single(p) => {
                            assert(gp.1@ == ValueView::Multiple(seq![p, v@]));
                        },
                        ValueView::Multiple(vs) => {
                            assert(gp.1@ == ValueView::Multiple(vs.push(v@)));
                        },
                    }
                }
                return ;
            }
            j += 1;
        }
        proof {
            lemma_entries_contains(self.data@);
        }
        let pair = (k, Value::Single(v));
        proof {
            lemma_entries_push_fresh(self.data@, pair);
        }
        self.data.push(pair);
    }

    /// Decodes a raw query string into its mapping. Total: never fails.
    pub fn from(s: &str) -> (r: QueryString)
        ensures
            r@ == spec_decode(s@),
    {
        let bytes = s.as_bytes();
        let pieces = split_amp(bytes);
        let ghost piece_views = pieces@.map_values(|p: Vec<u8>| p@);
        let mut r = QueryString { data: Vec::new() };
        proof {
            assert(r@ =~= spec_decode_pieces(piece_views.take(0)));
        }
        let n = pieces.len();
        let mut i: usize = 0;
        while i < n
            invariant
                n == pieces@.len(),
                i <= n,
                piece_views == pieces@.map_values(|p: Vec<u8>| p@),
                r@ == spec_decode_pieces(piece_views.take(i as int)),
            decreases n - i,
        {
            let (kb, vb) = split_eq(pieces[i].as_slice());
            let k = decode_component(kb.as_slice());
            let v = decode_component(vb.as_slice());
            r.merge(k, v);
            proof {
                assert(piece_views.take(i + 1).drop_last() =~= piece_views.take(i as int));
                assert(piece_views.take(i + 1).last() == piece_views[i as int]);
            }
            i += 1;
        }
        proof {
            assert(piece_views.take(n as int) =~= piece_views);
        }
        r
    }

    /// The value bound to `key`, if the key occurred in the query string.
    pub fn get(&self, key: &str) -> (r: Option<&Value>)
        ensures
            match r {
                Some(v) => self@.contains_key(key@) && v@ == self@[key@],
                None => !self@.contains_key(key@),
            },
    {
        let n = self.data.len();
        let mut j: usize = 0;
        while j < n
            invariant
                n == self.data@.len(),
                j <= n,
                forall|i: int| 0 <= i < j ==> #[trigger] self.data@[i].0@ != key@,
            decreases n - j,
        {
            if crate::text::str_eq(self.data[j].0.as_str(), key) {
                proof {
                    lemma_entries_first(self.data@, j as int);
                }
                return Some(&self.data[j].1);
            }
            j += 1;
        }
        proof {
            lemma_entries_contains(self.data@);
        }
        None
    }
}

/// Decoding is a pure function of the raw text alone: two decodes of the same
/// raw string yield equal mappings.
pub proof fn lemma_decode_pure(q1: QueryString, q2: QueryString, s: Seq<char>)
    requires
        q1@ == spec_decode(s),
        q2@ == spec_decode(s),
    ensures
        q1@ == q2@,
{
}

} // verus!
