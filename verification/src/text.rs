//! Text normalization for search and username derivation: strings are
//! trimmed, transliterated to ASCII, lowercased, and compared by substring.
//! Transliteration and trimming come from outside code; everything downstream
//! of them is verified byte-level logic.

use vstd::prelude::*;
use vstd::string::*;
use vstd::utf8::*;

verus! {

/// Queries longer than this many characters are cut off before matching.
pub const QUERY_MAX: usize = 50;

/// What `unidecode::unidecode` returns for a given character sequence.
pub uninterp spec fn ascii_of(s: Seq<char>) -> Seq<char>;

/// What `str::trim` returns for a given character sequence.
pub uninterp spec fn trimmed_of(s: Seq<char>) -> Seq<char>;

/// Relies on unidecode::unidecode: transliterates any string to pure ASCII;
/// the result depends on the input characters alone.
#[verifier::external_body]
fn transliterate(s: &str) -> (r: String)
    ensures
        r@ == ascii_of(s@),
        is_ascii_chars(r@),
{
    unidecode::unidecode(s)
}

/// Relies on str::trim: removes leading and trailing whitespace, so the
/// result is never longer than the input and depends on it alone.
#[verifier::external_body]
fn trim_str(s: &str) -> (r: String)
    ensures
        r@ == trimmed_of(s@),
        r@.len() <= s@.len(),
{
    s.trim().to_owned()
}

/// Relies on String::from_utf8: succeeds exactly on valid UTF-8 and returns
/// the string made of those bytes.
#[verifier::external_body]
pub fn string_from_utf8(v: Vec<u8>) -> (r: Option<String>)
    ensures
        r is Some <==> valid_utf8(v@),
        r matches Some(s) ==> s@ == decode_utf8(v@),
{
    match String::from_utf8(v) {
        Ok(s) => Some(s),
        Err(_) => None,
    }
}

/// ASCII lowercase of one byte.
pub open spec fn lower_byte(b: u8) -> u8 {
    if 65 <= b <= 90 {
        (b + 32) as u8
    } else {
        b
    }
}

/// ASCII lowercase, byte by byte.
pub open spec fn lower_bytes(s: Seq<u8>) -> Seq<u8> {
    Seq::new(s.len(), |i: int| lower_byte(s[i]))
}

/// The bytes of an ASCII character sequence.
pub open spec fn chars_to_bytes(s: Seq<char>) -> Seq<u8> {
    Seq::new(s.len(), |i: int| s[i] as u8)
}

/// The characters of an ASCII byte sequence.
pub open spec fn bytes_to_chars(s: Seq<u8>) -> Seq<char> {
    Seq::new(s.len(), |i: int| s[i] as char)
}

/// Spaces replaced by dots, byte by byte.
pub open spec fn dot_spaces(s: Seq<u8>) -> Seq<u8> {
    Seq::new(s.len(), |i: int| if s[i] == 32 { 46u8 } else { s[i] })
}

/// The normalized comparison key of a row field: trimmed, transliterated
/// to ASCII, lowercased.
pub open spec fn norm_view(s: Seq<char>) -> Seq<u8> {
    lower_bytes(chars_to_bytes(ascii_of(trimmed_of(s))))
}

/// The normalized form of a caller query: a normalized field key cut to
/// `QUERY_MAX` characters.
pub open spec fn norm_query_view(q: Seq<char>) -> Seq<u8> {
    let n = norm_view(q);
    if n.len() > 50 {
        n.subrange(0, 50)
    } else {
        n
    }
}

/// `needle` occurs contiguously inside `hay`.
pub open spec fn contains_bytes(hay: Seq<u8>, needle: Seq<u8>) -> bool {
    exists|k: int|
        0 <= k <= hay.len() - needle.len() && #[trigger] hay.subrange(k, k + needle.len())
            == needle
}

/// A row whose projected field reads `field` matches the (optional) query `q`.
pub open spec fn query_matches(field: Seq<char>, q: Option<Seq<char>>) -> bool {
    match q {
        Option::None => true,
        Option::Some(qs) => contains_bytes(norm_view(field), norm_query_view(qs)),
    }
}

/// The derived username: `lastname.firstname`, transliterated, lowercased,
/// spaces turned into dots.
pub open spec fn username_view(first: Seq<char>, last: Seq<char>) -> Seq<char> {
    bytes_to_chars(dot_spaces(lower_bytes(chars_to_bytes(ascii_of(last + " "@ + first)))))
}

fn to_lower(v: &Vec<u8>) -> (r: Vec<u8>)
    ensures
        r@ == lower_bytes(v@),
{
    let mut out: Vec<u8> = Vec::new();
    let mut i: usize = 0;
    while i < v.len()
        invariant
            i <= v@.len(),
            out@ == lower_bytes(v@.subrange(0, i as int)),
        decreases v@.len() - i,
    {
        let b = v[i];
        if 65 <= b && b <= 90 {
            out.push(b + 32);
        } else {
            out.push(b);
        }
        i = i + 1;
        proof {
            assert(out@ =~= lower_bytes(v@.subrange(0, i as int)));
        }
    }
    proof {
        assert(v@.subrange(0, v@.len() as int) =~= v@);
    }
    out
}

fn dot_replace(v: &Vec<u8>) -> (r: Vec<u8>)
    ensures
        r@ == dot_spaces(v@),
{
    let mut out: Vec<u8> = Vec::new();
    let mut i: usize = 0;
    while i < v.len()
        invariant
            i <= v@.len(),
            out@ == dot_spaces(v@.subrange(0, i as int)),
        decreases v@.len() - i,
    {
        let b = v[i];
        if b == 32 {
            out.push(46);
        } else {
            out.push(b);
        }
        i = i + 1;
        proof {
            assert(out@ =~= dot_spaces(v@.subrange(0, i as int)));
        }
    }
    proof {
        assert(v@.subrange(0, v@.len() as int) =~= v@);
    }
    out
}

/// Whether `needle` occurs contiguously inside `hay`.
pub fn contains_sub(hay: &Vec<u8>, needle: &Vec<u8>) -> (r: bool)
    ensures
        r == contains_bytes(hay@, needle@),
{
    if needle.len() > hay.len() {
        return false;
    }
    if needle.len() == 0 {
        proof {
            let k: int = 0;
            assert(hay@.subrange(k, k + needle@.len()) =~= needle@);
        }
        return true;
    }
    let mut k: usize = 0;
    while k <= hay.len() - needle.len()
        invariant
            needle@.len() <= hay@.len(),
            hay@.len() <= usize::MAX,
            needle@.len() >= 1,
            k <= hay@.len() - needle@.len() + 1,
            forall|j: int|
                0 <= j < k ==> #[trigger] hay@.subrange(j, j + needle@.len()) != needle@,
        decreases hay@.len() - needle@.len() - k + 1,
    {
        if match_at(hay, needle, k) {
            return true;
        }
        k = k + 1;
    }
    false
}

fn match_at(hay: &Vec<u8>, needle: &Vec<u8>, k: usize) -> (r: bool)
    requires
        k + needle@.len() <= hay@.len(),
        hay@.len() <= usize::MAX,
    ensures
        r == (hay@.subrange(k as int, k + needle@.len()) == needle@),
{
    let mut m: usize = 0;
    while m < needle.len()
        invariant
            k + needle@.len() <= hay@.len(),
            hay@.len() <= usize::MAX,
            m <= needle@.len(),
            forall|j: int| 0 <= j < m ==> hay@[k + j] == needle@[j],
        decreases needle@.len() - m,
    {
        if hay[k + m] != needle[m] {
            proof {
                assert(hay@.subrange(k as int, k + needle@.len())[m as int] != needle@[m as int]);
            }
            return false;
        }
        m = m + 1;
    }
    proof {
        assert(hay@.subrange(k as int, k + needle@.len()) =~= needle@);
    }
    true
}

/// The normalized comparison key of a field value.
pub fn normalize(s: &str) -> (r: Vec<u8>)
    ensures
        r@ == norm_view(s@),
        forall|i: int| 0 <= i < r@.len() ==> r@[i] < 128,
{
    let t = trim_str(s);
    let a = transliterate(t.as_str());
    let bytes = a.as_str().as_bytes_vec();
    proof {
        broadcast use is_ascii_chars_encode_utf8, is_ascii_chars_nat_bound;

        assert(bytes@ =~= chars_to_bytes(a@));
    }
    to_lower(&bytes)
}

/// The normalized form of a caller query.
pub fn normalize_query(q: &str) -> (r: Vec<u8>)
    ensures
        r@ == norm_query_view(q@),
{
    let n = normalize(q);
    if n.len() > QUERY_MAX {
        let mut out: Vec<u8> = Vec::new();
        let mut i: usize = 0;
        while i < QUERY_MAX
            invariant
                n@.len() > 50,
                i <= 50,
                out@ == n@.subrange(0, i as int),
            decreases 50 - i,
        {
            out.push(n[i]);
            proof {
                assert(out@ =~= n@.subrange(0, (i + 1) as int));
            }
            i = i + 1;
        }
        out
    } else {
        n
    }
}

/// The first `max_chars` characters of a string, or the whole string when it
/// is already short enough.
pub fn truncate(s: &str, max_chars: usize) -> (r: String)
    ensures
        r@ == if s@.len() <= max_chars {
            s@
        } else {
            s@.subrange(0, max_chars as int)
        },
{
    let n = s.unicode_len();
    if n <= max_chars {
        s.to_owned()
    } else {
        let t = s.substring_char(0, max_chars);
        t.to_owned()
    }
}

proof fn lemma_ascii_decode(v: Seq<u8>)
    requires
        forall|i: int| 0 <= i < v.len() ==> v[i] < 128,
    ensures
        valid_utf8(v),
        decode_utf8(v) == bytes_to_chars(v),
{
    broadcast use group_utf8_lib;

    let w = bytes_to_chars(v);
    assert forall|i: int| 0 <= i < w.len() implies '\0' <= #[trigger] w[i] <= '\u{7f}' by {
        assert(w[i] == v[i] as char);
        assert(v[i] < 128);
    }
    assert(is_ascii_chars(w));
    is_ascii_chars_encode_utf8(w);
    assert forall|i: int| 0 <= i < w.len() implies encode_utf8(w)[i] == v[i] by {
        assert(w[i] as u8 == encode_utf8(w)[i]);
        assert((v[i] as char) as u8 == v[i]);
    }
    assert(encode_utf8(w) =~= v);
    encode_utf8_valid_utf8(w);
    encode_utf8_decode_utf8(w);
}

/// An ASCII byte sequence read back as a string.
pub(crate) fn ascii_bytes_to_string(v: Vec<u8>) -> (r: String)
    requires
        forall|i: int| 0 <= i < v@.len() ==> v@[i] < 128,
    ensures
        r@ == bytes_to_chars(v@),
{
    proof {
        lemma_ascii_decode(v@);
    }
    let ghost gv = v@;
    match string_from_utf8(v) {
        Some(s) => s,
        None => {
            proof {
                assert(false);
            }
            String::new()
        },
    }
}

/// The username derived from a person's name: transliterated, lowercased
/// `lastname.firstname` with spaces turned into dots.
pub fn username_from_name(first_name: &str, last_name: &str) -> (r: String)
    ensures
        r@ == username_view(first_name@, last_name@),
{
    let mut joined = String::new();
    joined.append(last_name);
    joined.append(" ");
    joined.append(first_name);
    let a = transliterate(joined.as_str());
    let bytes = a.as_str().as_bytes_vec();
    proof {
        broadcast use is_ascii_chars_encode_utf8, is_ascii_chars_nat_bound;

        assert(bytes@ =~= chars_to_bytes(a@));
    }
    let lowered = to_lower(&bytes);
    let dotted = dot_replace(&lowered);
    proof {
        assert(joined@ =~= last_name@ + " "@ + first_name@);
        assert(forall|i: int| 0 <= i < dotted@.len() ==> dotted@[i] < 128);
    }
    ascii_bytes_to_string(dotted)
}

} // verus!
