//! Text helpers: character equality and checked UTF-8 decoding.
use vstd::prelude::*;
use vstd::string::StringExecFns;

verus! {

/// The UTF-8 encoding of a character sequence.
pub open spec fn utf8_bytes(s: Seq<char>) -> Seq<u8> {
    vstd::utf8::encode_utf8(s)
}

/// A character takes at most four bytes of UTF-8.
pub proof fn lemma_utf8_len_bound(s: Seq<char>)
    ensures
        utf8_bytes(s).len() <= 4 * s.len(),
    decreases s.len(),
{
    if s.len() > 0 {
        lemma_utf8_len_bound(s.drop_first());
        assert(vstd::utf8::encode_scalar(s[0] as u32).len() <= 4);
    }
}

/// String equality on characters.
pub fn str_equal(a: &str, b: &str) -> (res: bool)
    ensures
        res == (a@ == b@),
{
    broadcast use vstd::utf8::group_utf8_lib;
    let x = a.as_bytes();
    let y = b.as_bytes();
    assert(x@ == utf8_bytes(a@));
    assert(y@ == utf8_bytes(b@));
    if x.len() != y.len() {
        proof {
            if a@ == b@ {
                assert(x@ == y@);
            }
        }
        return false;
    }
    let mut i: usize = 0;
    while i < x.len()
        invariant
            x@.len() == y@.len(),
            x@ == utf8_bytes(a@),
            y@ == utf8_bytes(b@),
            i <= x@.len(),
            forall|k: int| 0 <= k < i ==> x@[k] == y@[k],
        decreases x@.len() - i,
    {
        if x[i] != y[i] {
            proof {
                if a@ == b@ {
                    assert(x@ == y@);
                }
            }
            return false;
        }
        i = i + 1;
    }
    proof {
        assert(x@ =~= y@);
        vstd::utf8::encode_utf8_decode_utf8(a@);
        vstd::utf8::encode_utf8_decode_utf8(b@);
    }
    true
}


/// Decode bytes as UTF-8 into an owned string (`String::from_utf8`): the
/// documentation promises success exactly for valid UTF-8, and the result's
/// characters are those the bytes encode.
#[verifier::external_body]
pub(crate) fn utf8_string(bytes: &[u8]) -> (r: Option<String>)
    ensures
        r is Some <==> vstd::utf8::valid_utf8(bytes@),
        r matches Some(s) ==> s@ == vstd::utf8::decode_utf8(bytes@),
{
    String::from_utf8(bytes.to_vec()).ok()
}

/// Whether bytes are valid UTF-8.
pub fn utf8_valid(bytes: &[u8]) -> (b: bool)
    ensures
        b == vstd::utf8::valid_utf8(bytes@),
{
    utf8_string(bytes).is_some()
}

/// Copy bytes into an owned vector.
pub fn copy_bytes(s: &[u8]) -> (v: Vec<u8>)
    ensures
        v@ == s@,
{
    let mut v: Vec<u8> = Vec::with_capacity(s.len());
    let mut i: usize = 0;
    while i < s.len()
        invariant
            i <= s@.len(),
            v@ == s@.take(i as int),
        decreases s@.len() - i,
    {
        v.push(s[i]);
        i = i + 1;
        assert(v@ =~= s@.take(i as int));
    }
    assert(s@.take(s@.len() as int) =~= s@);
    v
}

/// Append bytes to a vector.
pub fn append_bytes(v: &mut Vec<u8>, s: &[u8])
    ensures
        final(v)@ == old(v)@ + s@,
{
    let mut i: usize = 0;
    while i < s.len()
        invariant
            i <= s@.len(),
            v@ == old(v)@ + s@.take(i as int),
        decreases s@.len() - i,
    {
        v.push(s[i]);
        i = i + 1;
        assert(v@ =~= old(v)@ + s@.take(i as int));
    }
    assert(s@.take(s@.len() as int) =~= s@);
}

/// Append the UTF-8 encoding of a string to a vector.
pub fn append_str(v: &mut Vec<u8>, s: &str)
    ensures
        final(v)@ == old(v)@ + utf8_bytes(s@),
{
    broadcast use vstd::utf8::group_utf8_lib;
    let b = s.as_bytes();
    append_bytes(v, b);
}

/// The ASCII decimal digits of a natural number, most significant first.
pub open spec fn decimal(n: nat) -> Seq<u8>
    decreases n,
{
    if n < 10 {
        seq![(48 + n) as u8]
    } else {
        decimal(n / 10).push((48 + n % 10) as u8)
    }
}

/// Append the decimal digits of `n`.
pub fn append_decimal(v: &mut Vec<u8>, n: u64)
    ensures
        final(v)@ == old(v)@ + decimal(n as nat),
    decreases n,
{
    if n < 10 {
        v.push(48 + n as u8);
        assert(v@ =~= old(v)@ + decimal(n as nat));
    } else {
        append_decimal(v, n / 10);
        v.push(48 + (n % 10) as u8);
        assert(v@ =~= old(v)@ + decimal(n as nat));
    }
}

/// Append a string slice to an owned string.
pub fn push_str(s: &mut String, t: &str)
    ensures
        final(s)@ == old(s)@ + t@,
{
    s.append(t);
}

/// The decimal digits of a natural number as characters.
pub open spec fn decimal_chars(n: nat) -> Seq<char>
    decreases n,
{
    if n < 10 {
        seq![digit_char(n)]
    } else {
        decimal_chars(n / 10).push(digit_char(n % 10))
    }
}

/// The character of one decimal digit.
pub open spec fn digit_char(d: nat) -> char {
    if d == 0 { '0' } else if d == 1 { '1' } else if d == 2 { '2' } else if d == 3 { '3' } else if d == 4 { '4' }
    else if d == 5 { '5' } else if d == 6 { '6' } else if d == 7 { '7' } else if d == 8 { '8' } else { '9' }
}

fn push_digit(s: &mut String, d: u64)
    requires
        d < 10,
    ensures
        final(s)@ == old(s)@.push(digit_char(d as nat)),
{
    let t = if d == 0 { "0" } else if d == 1 { "1" } else if d == 2 { "2" } else if d == 3 { "3" }
    else if d == 4 { "4" } else if d == 5 { "5" } else if d == 6 { "6" } else if d == 7 { "7" }
    else if d == 8 { "8" } else { "9" };
    proof {
        reveal_strlit("0");
        reveal_strlit("1");
        reveal_strlit("2");
        reveal_strlit("3");
        reveal_strlit("4");
        reveal_strlit("5");
        reveal_strlit("6");
        reveal_strlit("7");
        reveal_strlit("8");
        reveal_strlit("9");
    }
    push_str(s, t);
    assert(final(s)@ =~= old(s)@.push(digit_char(d as nat)));
}

/// Append the decimal digits of `n`.
pub fn push_decimal(s: &mut String, n: u64)
    ensures
        final(s)@ == old(s)@ + decimal_chars(n as nat),
    decreases n,
{
    if n < 10 {
        push_digit(s, n);
        assert(final(s)@ =~= old(s)@ + decimal_chars(n as nat));
    } else {
        push_decimal(s, n / 10);
        push_digit(s, n % 10);
        assert(final(s)@ =~= old(s)@ + decimal_chars(n as nat));
    }
}

/// The characters of a string slice.
pub fn chars_of(s: &str) -> (v: Vec<char>)
    ensures
        v@ == s@,
{
    broadcast use vstd::string::group_string_axioms;
    let mut v: Vec<char> = Vec::new();
    for c in it: s.chars()
        invariant
            v@ == it.seq().take(it.index() as int),
            it.seq() == s@,
    {
        v.push(c);
    }
    v
}

/// Collect characters into an owned string (`String: FromIterator<char>`):
/// the documentation says the string holds exactly those characters.
#[verifier::external_body]
pub(crate) fn string_from_chars(v: &Vec<char>) -> (s: String)
    ensures
        s@ == v@,
{
    v.iter().collect()
}

/// Unicode `White_Space`, the set that `str::trim` removes.
pub open spec fn is_white_space(c: char) -> bool {
    let u = c as u32;
    ||| 0x9 <= u <= 0xd
    ||| u == 0x20
    ||| u == 0x85
    ||| u == 0xa0
    ||| u == 0x1680
    ||| 0x2000 <= u <= 0x200a
    ||| u == 0x2028
    ||| u == 0x2029
    ||| u == 0x202f
    ||| u == 0x205f
    ||| u == 0x3000
}

/// Whether a character is Unicode white space.
pub fn white_space(c: char) -> (b: bool)
    ensures
        b == is_white_space(c),
{
    let u = c as u32;
    (0x9 <= u && u <= 0xd) || u == 0x20 || u == 0x85 || u == 0xa0 || u == 0x1680 || (0x2000 <= u
        && u <= 0x200a) || u == 0x2028 || u == 0x2029 || u == 0x202f || u == 0x205f || u == 0x3000
}

/// Index of the first non-white-space character at or after `i`.
pub open spec fn skip_space(s: Seq<char>, i: int) -> int
    decreases s.len() - i,
{
    if i >= s.len() || !is_white_space(s[i]) {
        i
    } else {
        skip_space(s, i + 1)
    }
}

/// Index just after the last non-white-space character before `j`, not below `lo`.
pub open spec fn skip_space_back(s: Seq<char>, lo: int, j: int) -> int
    decreases j - lo,
{
    if j <= lo || !is_white_space(s[j - 1]) {
        j
    } else {
        skip_space_back(s, lo, j - 1)
    }
}

/// A string without leading and trailing white space (`str::trim`).
pub open spec fn trim(s: Seq<char>) -> Seq<char> {
    let lo = skip_space(s, 0);
    s.subrange(lo, skip_space_back(s, lo, s.len() as int))
}

/// The bounds of the trimmed characters.
pub fn trim_bounds(s: &Vec<char>) -> (r: (usize, usize))
    ensures
        r.0 == skip_space(s@, 0),
        r.1 == skip_space_back(s@, r.0 as int, s@.len() as int),
        r.0 <= r.1 <= s@.len(),
{
    let mut lo: usize = 0;
    while lo < s.len() && white_space(s[lo])
        invariant
            lo <= s@.len(),
            skip_space(s@, 0) == skip_space(s@, lo as int),
        decreases s@.len() - lo,
    {
        lo = lo + 1;
    }
    let mut hi: usize = s.len();
    while hi > lo && white_space(s[hi - 1])
        invariant
            lo <= hi <= s@.len(),
            skip_space_back(s@, lo as int, s@.len() as int) == skip_space_back(s@, lo as int, hi as int),
        decreases hi - lo,
    {
        hi = hi - 1;
    }
    (lo, hi)
}

/// Whether a string is empty after trimming white space.
pub fn is_blank(s: &str) -> (b: bool)
    ensures
        b == (trim(s@).len() == 0),
{
    let chars = chars_of(s);
    let (lo, hi) = trim_bounds(&chars);
    lo == hi
}

} // verus!
