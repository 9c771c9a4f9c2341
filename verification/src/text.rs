//! Text helpers: comparison, search and editing of strings.
use vstd::prelude::*;
use vstd::utf8::*;

verus! {

broadcast use {vstd::utf8::encode_utf8_decode_utf8, vstd::utf8::encode_utf8_valid_utf8};

/// Whether the byte slices `a` and `b` hold the same bytes.
pub fn bytes_eq(a: &[u8], b: &[u8]) -> (r: bool)
    ensures
        r == (a@ == b@),
{
    if a.len() != b.len() {
        return false;
    }
    let mut i: usize = 0;
    while i < a.len()
        invariant
            a@.len() == b@.len(),
            i <= a@.len(),
            forall|j: int| 0 <= j < i ==> a@[j] == b@[j],
        decreases a@.len() - i,
    {
        if a[i] != b[i] {
            return false;
        }
        i = i + 1;
    }
    assert(a@ =~= b@);
    true
}

/// Two strings are equal exactly when their UTF-8 forms are.
pub proof fn lemma_utf8_injective(a: Seq<char>, b: Seq<char>)
    ensures
        (encode_utf8(a) == encode_utf8(b)) == (a == b),
{
    if encode_utf8(a) == encode_utf8(b) {
        assert(decode_utf8(encode_utf8(a)) == decode_utf8(encode_utf8(b)));
    }
}

/// Whether `a` and `b` hold the same characters.
pub fn text_eq(a: &str, b: &str) -> (r: bool)
    ensures
        r == (a@ == b@),
{
    let r = bytes_eq(a.as_bytes(), b.as_bytes());
    proof {
        lemma_utf8_injective(a@, b@);
    }
    r
}

/// Whether `needle` occurs in `hay` starting at index `i`.
pub open spec fn occurs_at(hay: Seq<u8>, needle: Seq<u8>, i: int) -> bool {
    0 <= i && i + needle.len() <= hay.len() && hay.subrange(i, i + needle.len()) == needle
}

/// Whether the UTF-8 form of `needle` occurs in that of `hay`.
pub open spec fn contains_text(hay: Seq<char>, needle: Seq<char>) -> bool {
    exists|i: int| occurs_at(encode_utf8(hay), encode_utf8(needle), i)
}

/// Whether `needle` occurs in `hay` (every string contains the empty one).
pub fn text_contains(hay: &str, needle: &str) -> (r: bool)
    ensures
        r == contains_text(hay@, needle@),
{
    let h = hay.as_bytes();
    let n = needle.as_bytes();
    if n.len() > h.len() {
        proof {
            assert forall|i: int| !occurs_at(h@, n@, i) by {}
        }
        return false;
    }
    let hlen = h.len();
    let last = hlen - n.len();
    let mut i: usize = 0;
    while i <= last
        invariant
            h@ == encode_utf8(hay@),
            n@ == encode_utf8(needle@),
            n@.len() <= h@.len(),
            hlen == h@.len(),
            last == h@.len() - n@.len(),
            i <= last,
            forall|j: int| 0 <= j < i ==> !occurs_at(h@, n@, j),
        ensures
            forall|j: int| 0 <= j <= last ==> !occurs_at(h@, n@, j),
        decreases last - i,
    {
        let mut k: usize = 0;
        let mut matched = true;
        while k < n.len()
            invariant
                n@.len() <= h@.len(),
                i <= last,
                last == h@.len() - n@.len(),
                k <= n@.len(),
                i + n@.len() <= h@.len(),
                hlen == h@.len(),
                matched ==> forall|j: int| 0 <= j < k ==> h@[i + j] == n@[j],
                !matched ==> !occurs_at(h@, n@, i as int),
            decreases n@.len() - k,
        {
            if h[i + k] != n[k] {
                matched = false;
                proof {
                    assert(h@.subrange(i as int, i + n@.len())[k as int] != n@[k as int]);
                }
            }
            k = k + 1;
        }
        if matched {
            assert(h@.subrange(i as int, i + n@.len()) =~= n@);
            assert(occurs_at(h@, n@, i as int));
            return true;
        }
        if i == last {
            break;
        }
        i = i + 1;
    }
    proof {
        assert forall|j: int| !occurs_at(h@, n@, j) by {
            if 0 <= j && j + n@.len() <= h@.len() {
                assert(j <= last);
            }
        }
    }
    false
}

/// The value a `u32` takes from decimal text: an optional `+`, then one or
/// more ASCII digits, with no other characters, at most `u32::MAX`.
pub open spec fn spec_parse_u32(s: Seq<char>) -> Option<u32> {
    let digits = if s.len() > 0 && s[0] == '+' {
        s.drop_first()
    } else {
        s
    };
    if digits.len() > 0 && all_digits(digits) && digits_value(digits) <= u32::MAX {
        Some(digits_value(digits) as u32)
    } else {
        None
    }
}

/// Whether every character of `s` is an ASCII digit.
pub open spec fn all_digits(s: Seq<char>) -> bool {
    forall|i: int| 0 <= i < s.len() ==> '0' <= #[trigger] s[i] <= '9'
}

/// The number that the ASCII digits `s` write in base 10.
pub open spec fn digits_value(s: Seq<char>) -> nat
    decreases s.len(),
{
    if s.len() == 0 {
        0
    } else {
        digits_value(s.drop_last()) * 10 + ((s.last() as u32) - ('0' as u32)) as nat
    }
}

/// Calls `<u32 as FromStr>::from_str`. Its documentation: the text is an
/// optional `+` followed by decimal digits and nothing else; an empty digit
/// string, any other character or a value above `u32::MAX` is an error.
#[verifier::external_body]
pub(crate) fn parse_u32(s: &str) -> (r: Option<u32>)
    ensures
        r == spec_parse_u32(s@),
{
    s.parse::<u32>().ok()
}

/// Calls `String::push`: appends the character `c`.
#[verifier::external_body]
pub(crate) fn push_char(s: &mut String, c: char)
    ensures
        final(s)@ == old(s)@.push(c),
{
    s.push(c)
}

/// Calls `String::pop`: removes and returns the last character, if any.
#[verifier::external_body]
pub(crate) fn pop_char(s: &mut String) -> (r: Option<char>)
    ensures
        old(s)@.len() == 0 ==> r is None && final(s)@ == old(s)@,
        old(s)@.len() > 0 ==> r == Some(old(s)@.last()) && final(s)@ == old(s)@.drop_last(),
{
    s.pop()
}

/// The characters `str::to_lowercase` gives for `s`: Unicode lowercase
/// mapping, which can change a string's length.
pub uninterp spec fn lowercase_of(s: Seq<char>) -> Seq<char>;

/// Calls `str::to_lowercase`; its result depends on the text alone.
#[verifier::external_body]
pub(crate) fn to_lowercase(s: &str) -> (r: String)
    ensures
        r@ == lowercase_of(s@),
{
    s.to_lowercase()
}

/// Appends the characters of `t` to `s`.
pub fn append_str(s: &mut String, t: &str)
    ensures
        final(s)@ == old(s)@ + t@,
{
    let ghost start = s@;
    for c in it: t.chars()
        invariant
            it.seq() == t@,
            s@ == start + t@.take(it.index()),
    {
        let ghost i = it.index();
        assert(t@.take(i + 1) =~= t@.take(i).push(c));
        push_char(s, c);
    }
    assert(t@.take(t@.len() as int) =~= t@);
}

/// The ASCII digit for `d` (below 10).
pub open spec fn digit_char(d: nat) -> char {
    ((d + 48) as u8) as char
}

/// The decimal digits of `n`, most significant first, without leading
/// zeros (`0` for zero).
pub open spec fn decimal(n: nat) -> Seq<char>
    decreases n,
{
    if n < 10 {
        seq![digit_char(n)]
    } else {
        decimal(n / 10).push(digit_char(n % 10))
    }
}

/// The decimal text of `n`.
pub fn decimal_string(n: u64) -> (s: String)
    ensures
        s@ == decimal(n as nat),
{
    let mut digits: Vec<char> = Vec::new();
    let mut rest = n;
    while rest >= 10
        invariant
            decimal(n as nat) == decimal(rest as nat) + digits@,
        decreases rest,
    {
        let d = (rest % 10) as u8;
        digits.insert(0, (d + 48) as char);
        let ghost old_digits = digits@.drop_first();
        assert(decimal(rest as nat) == decimal((rest / 10) as nat).push(digit_char((rest % 10) as nat)));
        assert(decimal((rest / 10) as nat).push(digit_char((rest % 10) as nat)) + old_digits =~= decimal((rest / 10) as nat) + digits@);
        rest = rest / 10;
    }
    let mut s = String::new();
    push_char(&mut s, ((rest as u8) + 48) as char);
    let mut i: usize = 0;
    while i < digits.len()
        invariant
            i <= digits@.len(),
            rest < 10,
            decimal(n as nat) == decimal(rest as nat) + digits@,
            s@ == decimal(rest as nat) + digits@.take(i as int),
        decreases digits@.len() - i,
    {
        assert(digits@.take(i + 1) =~= digits@.take(i as int).push(digits@[i as int]));
        push_char(&mut s, digits[i]);
        i = i + 1;
    }
    assert(digits@.take(digits@.len() as int) =~= digits@);
    s
}

/// The lowercase hexadecimal digit for `d` (below 16).
pub open spec fn hex_char(d: nat) -> char {
    if d < 10 {
        ((d + 48) as u8) as char
    } else {
        ((d + 87) as u8) as char
    }
}

/// The four lowercase hexadecimal digits of `v` (below 0x10000), zero-padded.
pub open spec fn hex4(v: nat) -> Seq<char> {
    seq![hex_char(v / 4096), hex_char((v / 256) % 16), hex_char((v / 16) % 16), hex_char(v % 16)]
}

fn hex_digit(d: u64) -> (c: char)
    requires
        d < 16,
    ensures
        c == hex_char(d as nat),
{
    if d < 10 {
        ((d as u8) + 48) as char
    } else {
        ((d as u8) + 87) as char
    }
}

/// Appends the four hexadecimal digits of `v`.
pub fn push_hex4(s: &mut String, v: u64)
    requires
        v < 0x10000,
    ensures
        final(s)@ == old(s)@ + hex4(v as nat),
{
    push_char(s, hex_digit(v / 4096));
    push_char(s, hex_digit((v / 256) % 16));
    push_char(s, hex_digit((v / 16) % 16));
    push_char(s, hex_digit(v % 16));
    assert(s@ =~= old(s)@ + hex4(v as nat));
}

} // verus!
