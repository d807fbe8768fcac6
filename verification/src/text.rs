//! Text helpers: character sequences of strings, decimal and binary numerals,
//! trimming, and the standard-library text functions the program relies on.

use vstd::prelude::*;

verus! {

broadcast use vstd::string::group_string_axioms;

/// What `String::from_utf8_lossy` makes of `bytes`: the text they encode, with
/// each invalid sequence replaced by U+FFFD.
pub uninterp spec fn utf8_lossy(bytes: Seq<u8>) -> Seq<char>;

/// What `str::to_lowercase` makes of `s`: its Unicode lowercase mapping.
pub uninterp spec fn lowercase(s: Seq<char>) -> Seq<char>;

/// What `char::is_alphanumeric` says of `c`: whether it is alphabetic or numeric in Unicode.
pub uninterp spec fn alphanumeric(c: char) -> bool;

/// Whether `c` has the Unicode property White_Space, by which `char::is_whitespace`
/// and `str::trim` go.
pub open spec fn white_space(c: char) -> bool {
    let n = c as u32;
    ||| 0x9 <= n <= 0xd
    ||| n == 0x20
    ||| n == 0x85
    ||| n == 0xa0
    ||| n == 0x1680
    ||| 0x2000 <= n <= 0x200a
    ||| n == 0x2028
    ||| n == 0x2029
    ||| n == 0x202f
    ||| n == 0x205f
    ||| n == 0x3000
}

/// `s` without its leading white space.
pub open spec fn trim_start_ws(s: Seq<char>) -> Seq<char>
    decreases s.len(),
{
    if s.len() > 0 && white_space(s[0]) {
        trim_start_ws(s.drop_first())
    } else {
        s
    }
}

/// `s` without its trailing white space.
pub open spec fn trim_end_ws(s: Seq<char>) -> Seq<char>
    decreases s.len(),
{
    if s.len() > 0 && white_space(s.last()) {
        trim_end_ws(s.drop_last())
    } else {
        s
    }
}

/// `s` without leading and trailing white space, as `str::trim` gives it.
pub open spec fn trimmed(s: Seq<char>) -> Seq<char> {
    trim_end_ws(trim_start_ws(s))
}

/// Appends `c` to `s` (`String::push`, which the documentation states appends
/// the character to the end of the string).
#[verifier::external_body]
pub(crate) fn push_char(s: &mut String, c: char)
    ensures
        final(s)@ == old(s)@.push(c),
{
    s.push(c);
}

/// Decodes `bytes` as UTF-8 (`String::from_utf8_lossy`). Its result is named by
/// `utf8_lossy`; its documentation states that bytes that are valid UTF-8 are
/// decoded unchanged, which the second clause says. What it substitutes for
/// invalid bytes is left unsaid.
#[verifier::external_body]
pub(crate) fn string_from_utf8_lossy(bytes: &[u8]) -> (s: String)
    ensures
        s@ == utf8_lossy(bytes@),
        vstd::utf8::valid_utf8(bytes@) ==> s@ == vstd::utf8::decode_utf8(bytes@),
{
    String::from_utf8_lossy(bytes).into_owned()
}

/// The Unicode lowercase form of `s` (`str::to_lowercase`); the mapping is
/// left to the name `lowercase`.
#[verifier::external_body]
pub(crate) fn to_lowercase(s: &str) -> (r: String)
    ensures
        r@ == lowercase(s@),
{
    s.to_lowercase()
}

/// Whether `c` is alphabetic or numeric in Unicode (`char::is_alphanumeric`);
/// the classification is left to the name `alphanumeric`.
#[verifier::external_body]
pub(crate) fn is_alphanumeric(c: char) -> (b: bool)
    ensures
        b == alphanumeric(c),
{
    c.is_alphanumeric()
}

/// `s` without leading and trailing white space (`str::trim`, whose
/// documentation defines white space by the Unicode property White_Space).
#[verifier::external_body]
pub(crate) fn trim(s: &str) -> (r: &str)
    ensures
        r@ == trimmed(s@),
{
    s.trim()
}

/// The characters of `s`, in order.
pub fn chars_of(s: &str) -> (chars: Vec<char>)
    ensures
        chars@ == s@,
{
    let mut chars: Vec<char> = Vec::new();
    for c in iter: s.chars()
        invariant
            chars@ == iter.seq().take(iter.index() as int),
    {
        chars.push(c);
    }
    assert(chars@ =~= s@);
    chars
}

/// The string made of `chars`.
pub fn string_of_chars(chars: &Vec<char>) -> (s: String)
    ensures
        s@ == chars@,
{
    let mut s = String::new();
    let mut i: usize = 0;
    while i < chars.len()
        invariant
            i <= chars@.len(),
            s@ == chars@.take(i as int),
        decreases chars.len() - i,
    {
        push_char(&mut s, chars[i]);
        i = i + 1;
        assert(s@ =~= chars@.take(i as int));
    }
    assert(chars@.take(i as int) =~= chars@);
    s
}

/// `s` without its leading run of `c`.
pub open spec fn strip_leading(s: Seq<char>, c: char) -> Seq<char>
    decreases s.len(),
{
    if s.len() > 0 && s[0] == c {
        strip_leading(s.drop_first(), c)
    } else {
        s
    }
}

/// `s` without its trailing run of `c`.
pub open spec fn strip_trailing(s: Seq<char>, c: char) -> Seq<char>
    decreases s.len(),
{
    if s.len() > 0 && s.last() == c {
        strip_trailing(s.drop_last(), c)
    } else {
        s
    }
}

/// `s` without leading and trailing runs of `c`, as `str::trim_matches` with a
/// single character gives it.
pub open spec fn trim_matches(s: Seq<char>, c: char) -> Seq<char> {
    strip_trailing(strip_leading(s, c), c)
}

/// `s` without leading and trailing runs of `c`.
pub fn trim_matches_char(s: &Vec<char>, c: char) -> (r: Vec<char>)
    ensures
        r@ == trim_matches(s@, c),
{
    let n = s.len();
    let mut i: usize = 0;
    assert(s@.skip(0) =~= s@);
    while i < n && s[i] == c
        invariant
            i <= n,
            n == s@.len(),
            strip_leading(s@, c) == strip_leading(s@.skip(i as int), c),
        decreases n - i,
    {
        assert(s@.skip(i as int).drop_first() =~= s@.skip(i + 1));
        i = i + 1;
    }
    let ghost lead = s@.skip(i as int);
    assert(strip_leading(lead, c) == lead);
    let mut j: usize = n;
    assert(lead.take((j - i) as int) =~= lead);
    while j > i && s[j - 1] == c
        invariant
            i <= j <= n,
            n == s@.len(),
            lead == s@.skip(i as int),
            strip_trailing(lead, c) == strip_trailing(lead.take(j - i), c),
        decreases j,
    {
        assert(lead.take(j - i).drop_last() =~= lead.take(j - 1 - i));
        j = j - 1;
    }
    assert(strip_trailing(lead.take(j - i), c) == lead.take(j - i));
    let mut r: Vec<char> = Vec::new();
    let mut k: usize = i;
    while k < j
        invariant
            i <= k <= j <= n,
            n == s@.len(),
            r@ == s@.subrange(i as int, k as int),
        decreases j - k,
    {
        r.push(s[k]);
        k = k + 1;
        assert(r@ =~= s@.subrange(i as int, k as int));
    }
    assert(r@ =~= lead.take(j - i));
    r
}

/// The digit character for `d` (0 to 9).
pub open spec fn digit_char(d: nat) -> char {
    ((48 + d) as u32) as char
}

/// The decimal numeral of `n`, without leading zeros.
pub open spec fn decimal(n: nat) -> Seq<char>
    decreases n,
{
    if n < 10 {
        seq![digit_char(n)]
    } else {
        decimal(n / 10).push(digit_char(n % 10))
    }
}

/// The binary numeral of `n`, without leading zeros.
pub open spec fn binary(n: nat) -> Seq<char>
    decreases n,
{
    if n < 2 {
        seq![digit_char(n)]
    } else {
        binary(n / 2).push(digit_char(n % 2))
    }
}

/// `s` preceded by as many `fill` characters as bring it to `width`.
pub open spec fn pad_left(s: Seq<char>, width: nat, fill: char) -> Seq<char> {
    if s.len() >= width {
        s
    } else {
        Seq::new((width - s.len()) as nat, |i: int| fill) + s
    }
}

/// `s` followed by as many `fill` characters as bring it to `width`.
pub open spec fn pad_right(s: Seq<char>, width: nat, fill: char) -> Seq<char> {
    if s.len() >= width {
        s
    } else {
        s + Seq::new((width - s.len()) as nat, |i: int| fill)
    }
}

fn digit(d: u64) -> (c: char)
    requires
        d < 10,
    ensures
        c == digit_char(d as nat),
{
    let b: u8 = 48u8 + d as u8;
    b as char
}

/// Appends the decimal numeral of `n` to `s`.
pub fn push_decimal(s: &mut String, n: u64)
    ensures
        final(s)@ == old(s)@ + decimal(n as nat),
    decreases n,
{
    if n >= 10 {
        push_decimal(s, n / 10);
    }
    push_char(s, digit(n % 10));
    assert(final(s)@ =~= old(s)@ + decimal(n as nat));
}

/// Appends the binary numeral of `n` to `s`.
pub fn push_binary(s: &mut String, n: u64)
    ensures
        final(s)@ == old(s)@ + binary(n as nat),
    decreases n,
{
    if n >= 2 {
        push_binary(s, n / 2);
    }
    push_char(s, digit(n % 2));
    assert(final(s)@ =~= old(s)@ + binary(n as nat));
}

/// Appends `count` copies of `c` to `s`.
pub fn push_repeated(s: &mut String, c: char, count: usize)
    ensures
        final(s)@ == old(s)@ + Seq::new(count as nat, |i: int| c),
{
    let mut k: usize = 0;
    while k < count
        invariant
            k <= count,
            s@ == old(s)@ + Seq::new(k as nat, |i: int| c),
        decreases count - k,
    {
        push_char(s, c);
        k = k + 1;
        assert(s@ =~= old(s)@ + Seq::new(k as nat, |i: int| c));
    }
}

/// Appends `text` to `s`.
pub fn push_str(s: &mut String, text: &str)
    ensures
        final(s)@ == old(s)@ + text@,
{
    s.append(text);
}

/// Appends `n` in decimal, padded on the left with `fill` to `width` characters.
pub fn push_decimal_padded(s: &mut String, n: u64, width: usize, fill: char)
    ensures
        final(s)@ == old(s)@ + pad_left(decimal(n as nat), width as nat, fill),
{
    let mut digits = String::new();
    push_decimal(&mut digits, n);
    let len = count_chars(&digits);
    if len < width {
        push_repeated(s, fill, width - len);
    }
    s.append(digits.as_str());
    assert(final(s)@ =~= old(s)@ + pad_left(decimal(n as nat), width as nat, fill));
}

/// The number of characters of `s`.
pub fn count_chars(s: &String) -> (n: usize)
    ensures
        n == s@.len(),
{
    let chars = chars_of(s.as_str());
    chars.len()
}

/// The text `bytes` decode to: the UTF-8 decoding where they are valid UTF-8,
/// else what the lossy decoder makes of them.
pub open spec fn text_of(bytes: Seq<u8>) -> Seq<char> {
    if vstd::utf8::valid_utf8(bytes) {
        vstd::utf8::decode_utf8(bytes)
    } else {
        utf8_lossy(bytes)
    }
}

/// The text held in a zero-padded field: its bytes decoded, then stripped of
/// NUL characters at both ends.
pub fn decode_text_field(bytes: &[u8]) -> (s: String)
    ensures
        s@ == trim_matches(text_of(bytes@), '\0'),
{
    let decoded = string_from_utf8_lossy(bytes);
    let chars = chars_of(decoded.as_str());
    let kept = trim_matches_char(&chars, '\0');
    string_of_chars(&kept)
}

/// `count` NUL characters.
pub open spec fn nuls(count: nat) -> Seq<char> {
    Seq::new(count, |i: int| '\0')
}

/// Whether `s` neither starts nor ends with a NUL character.
pub open spec fn no_edge_nul(s: Seq<char>) -> bool {
    s.len() > 0 ==> s[0] != '\0' && s.last() != '\0'
}

/// The UTF-8 encoding of a concatenation is the concatenation of the encodings.
pub proof fn lemma_encode_utf8_concat(a: Seq<char>, b: Seq<char>)
    ensures
        vstd::utf8::encode_utf8(a + b) == vstd::utf8::encode_utf8(a) + vstd::utf8::encode_utf8(b),
    decreases a.len(),
{
    if a.len() > 0 {
        assert((a + b).drop_first() =~= a.drop_first() + b);
        lemma_encode_utf8_concat(a.drop_first(), b);
        assert(vstd::utf8::encode_utf8(a + b) =~= vstd::utf8::encode_utf8(a)
            + vstd::utf8::encode_utf8(b));
    }
}

/// NUL characters encode to zero bytes, one each.
pub proof fn lemma_encode_nuls(count: nat)
    ensures
        vstd::utf8::encode_utf8(nuls(count)) == Seq::new(count, |i: int| 0u8),
    decreases count,
{
    if count > 0 {
        assert(nuls(count).drop_first() =~= nuls((count - 1) as nat));
        lemma_encode_nuls((count - 1) as nat);
        assert(('\0' as u32) == 0u32);
        assert((0u32 & 0x7F) as u8 == 0u8) by (bit_vector);
        assert(vstd::utf8::encode_scalar(0u32) =~= seq![0u8]);
        assert(vstd::utf8::encode_utf8(nuls(count)) =~= Seq::new(count, |i: int| 0u8));
    }
}

proof fn lemma_strip_trailing_nuls(s: Seq<char>, count: nat)
    requires
        s.len() == 0 || s.last() != '\0',
    ensures
        strip_trailing(s + nuls(count), '\0') == s,
    decreases count,
{
    if count == 0 {
        assert(s + nuls(0) =~= s);
    } else {
        assert((s + nuls(count)).drop_last() =~= s + nuls((count - 1) as nat));
        lemma_strip_trailing_nuls(s, (count - 1) as nat);
    }
}

proof fn lemma_strip_leading_all_nuls(count: nat)
    ensures
        strip_leading(nuls(count), '\0') == Seq::<char>::empty(),
    decreases count,
{
    if count > 0 {
        assert(nuls(count).drop_first() =~= nuls((count - 1) as nat));
        lemma_strip_leading_all_nuls((count - 1) as nat);
    }
}

/// Text padded with NUL characters trims back to itself when it neither
/// starts nor ends with NUL.
pub proof fn lemma_trim_padded(s: Seq<char>, count: nat)
    requires
        no_edge_nul(s),
    ensures
        trim_matches(s + nuls(count), '\0') == s,
{
    if s.len() == 0 {
        assert(s + nuls(count) =~= nuls(count));
        lemma_strip_leading_all_nuls(count);
    } else {
        assert((s + nuls(count))[0] == s[0]);
        lemma_strip_trailing_nuls(s, count);
    }
}

/// The decimal numeral of `n`, with a leading `-` when it is negative.
pub open spec fn signed_decimal(n: int) -> Seq<char> {
    if n < 0 {
        seq!['-'] + decimal((-n) as nat)
    } else {
        decimal(n as nat)
    }
}

/// Appends the decimal numeral of `n` (with a `-` when negative) to `s`.
pub fn push_signed_decimal(s: &mut String, n: i64)
    ensures
        final(s)@ == old(s)@ + signed_decimal(n as int),
{
    if n < 0 {
        push_char(s, '-');
        let magnitude: u64 = if n == i64::MIN {
            9223372036854775808u64
        } else {
            (-n) as u64
        };
        push_decimal(s, magnitude);
        assert(final(s)@ =~= old(s)@ + signed_decimal(n as int));
    } else {
        push_decimal(s, n as u64);
    }
}

/// Appends the binary numeral of `n`, padded with zeros to `width` digits.
pub fn push_binary_padded(s: &mut String, n: u64, width: usize)
    ensures
        final(s)@ == old(s)@ + pad_left(binary(n as nat), width as nat, '0'),
{
    let mut digits = String::new();
    push_binary(&mut digits, n);
    let len = count_chars(&digits);
    if len < width {
        push_repeated(s, '0', width - len);
    }
    s.append(digits.as_str());
    assert(final(s)@ =~= old(s)@ + pad_left(binary(n as nat), width as nat, '0'));
}

} // verus!
