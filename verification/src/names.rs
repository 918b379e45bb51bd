//! Fixed-capacity name strings, string comparison and number formatting.
use vstd::prelude::*;
use arrayvec::ArrayString;
use vstd::string::StringSliceAdditionalSpecFns;
use vstd::string::StrSliceExecFns;
use vstd::string::StringExecFns;

verus! {

#[verifier::external_type_specification]
#[verifier::external_body]
#[verifier::reject_recursive_types(CAP)]
pub struct ExArrayString<const CAP: usize>(ArrayString<CAP>);

/// `<ArrayString<CAP> as Clone>::clone`: the type is `Copy` and its clone is
/// the bitwise copy `*self`.
pub assume_specification<const CAP: usize>[ <ArrayString<CAP> as Clone>::clone ](s: &ArrayString<CAP>) -> (r: ArrayString<CAP>)
    ensures
        r == *s,
;

/// The UTF-8 bytes held by a 16-byte name.
pub uninterp spec fn name16_bytes(s: ArrayString<16>) -> Seq<u8>;

/// The UTF-8 bytes held by a 26-byte name.
pub uninterp spec fn name26_bytes(s: ArrayString<26>) -> Seq<u8>;

/// The UTF-8 bytes held by a 32-byte name.
pub uninterp spec fn name32_bytes(s: ArrayString<32>) -> Seq<u8>;

/// What a fresh fixed-capacity name holds after pushing `text` once:
/// the text when it fits, nothing otherwise.
pub open spec fn fitted(text: Seq<u8>, cap: nat) -> Seq<u8> {
    if text.len() <= cap { text } else { Seq::empty() }
}

/// `ArrayString::<16>::new`: an empty name.
#[verifier::external_body]
pub(crate) fn name16_new() -> (r: ArrayString<16>)
    ensures
        name16_bytes(r) == Seq::<u8>::empty(),
{
    ArrayString::new()
}

/// `ArrayString::<16>::try_push_str`: appends `text` when it fits in the
/// remaining capacity and reports success; otherwise leaves the name unchanged.
#[verifier::external_body]
fn name16_try_push(s: &mut ArrayString<16>, text: &str) -> (ok: bool)
    ensures
        ok == (name16_bytes(*old(s)).len() + text.spec_bytes().len() <= 16),
        ok ==> name16_bytes(*final(s)) == name16_bytes(*old(s)) + text.spec_bytes(),
        !ok ==> name16_bytes(*final(s)) == name16_bytes(*old(s)),
{
    s.try_push_str(text).is_ok()
}

/// `ArrayString::<26>::new`: an empty name.
#[verifier::external_body]
pub(crate) fn name26_new() -> (r: ArrayString<26>)
    ensures
        name26_bytes(r) == Seq::<u8>::empty(),
{
    ArrayString::new()
}

/// `ArrayString::<26>::try_push_str`: appends `text` when it fits in the
/// remaining capacity and reports success; otherwise leaves the name unchanged.
#[verifier::external_body]
fn name26_try_push(s: &mut ArrayString<26>, text: &str) -> (ok: bool)
    ensures
        ok == (name26_bytes(*old(s)).len() + text.spec_bytes().len() <= 26),
        ok ==> name26_bytes(*final(s)) == name26_bytes(*old(s)) + text.spec_bytes(),
        !ok ==> name26_bytes(*final(s)) == name26_bytes(*old(s)),
{
    s.try_push_str(text).is_ok()
}

/// `ArrayString::<32>::new`: an empty name.
#[verifier::external_body]
pub(crate) fn name32_new() -> (r: ArrayString<32>)
    ensures
        name32_bytes(r) == Seq::<u8>::empty(),
{
    ArrayString::new()
}

/// `ArrayString::<32>::try_push_str`: appends `text` when it fits in the
/// remaining capacity and reports success; otherwise leaves the name unchanged.
#[verifier::external_body]
fn name32_try_push(s: &mut ArrayString<32>, text: &str) -> (ok: bool)
    ensures
        ok == (name32_bytes(*old(s)).len() + text.spec_bytes().len() <= 32),
        ok ==> name32_bytes(*final(s)) == name32_bytes(*old(s)) + text.spec_bytes(),
        !ok ==> name32_bytes(*final(s)) == name32_bytes(*old(s)),
{
    s.try_push_str(text).is_ok()
}

/// A 16-byte name holding `text`, or empty when `text` does not fit.
pub fn name16(text: &str) -> (r: ArrayString<16>)
    ensures
        name16_bytes(r) == fitted(text.spec_bytes(), 16),
{
    let mut s = name16_new();
    let _ = name16_try_push(&mut s, text);
    s
}

/// A 26-byte name holding `text`, or empty when `text` does not fit.
pub fn name26(text: &str) -> (r: ArrayString<26>)
    ensures
        name26_bytes(r) == fitted(text.spec_bytes(), 26),
{
    let mut s = name26_new();
    let _ = name26_try_push(&mut s, text);
    s
}

/// A 32-byte name holding `text`, or empty when `text` does not fit.
pub fn name32(text: &str) -> (r: ArrayString<32>)
    ensures
        name32_bytes(r) == fitted(text.spec_bytes(), 32),
{
    let mut s = name32_new();
    let _ = name32_try_push(&mut s, text);
    s
}

/// Two strings are equal when they hold the same characters.
pub fn text_eq(a: &str, b: &str) -> (r: bool)
    ensures
        r == (a@ == b@),
{
    let n = a.unicode_len();
    if n != b.unicode_len() {
        return false;
    }
    let mut i: usize = 0;
    while i < n
        invariant
            n == a@.len(),
            n == b@.len(),
            i <= n,
            forall|k: int| 0 <= k < i ==> a@[k] == b@[k],
        decreases n - i,
    {
        if a.get_char(i) != b.get_char(i) {
            return false;
        }
        i = i + 1;
    }
    assert(a@ =~= b@);
    true
}

/// The decimal digit character for `d` in `0..10`.
pub open spec fn digit_char(d: nat) -> char {
    (48 + d) as char
}

/// The decimal representation of `n`, most significant digit first.
pub open spec fn decimal_chars(n: nat) -> Seq<char>
    decreases n,
{
    if n < 10 {
        seq![digit_char(n)]
    } else {
        decimal_chars(n / 10).push(digit_char(n % 10))
    }
}

/// The decimal digit `d` as a one-character string.
fn digit_text(d: u64) -> (r: &'static str)
    requires
        d < 10,
    ensures
        r@ == seq![digit_char(d as nat)],
{
    let digits = "0123456789";
    proof {
        reveal_strlit("0123456789");
    }
    let r = digits.substring_char(d as usize, d as usize + 1);
    assert(r@ =~= seq![digit_char(d as nat)]);
    r
}

/// The decimal representation of `n`.
pub fn decimal_text(n: u64) -> (r: String)
    ensures
        r@ == decimal_chars(n as nat),
    decreases n,
{
    if n < 10 {
        digit_text(n).to_owned()
    } else {
        let head = decimal_text(n / 10);
        head.concat(digit_text(n % 10))
    }
}

/// "Smp " followed by the decimal digits of `id`.
pub fn sampler_label_text(id: u16) -> (r: String)
    ensures
        r@ == "Smp "@ + decimal_chars(id as nat),
{
    "Smp ".to_owned().concat(decimal_text(id as u64).as_str())
}

/// The characters `String::from_utf8_lossy` decodes from `bytes`.
pub uninterp spec fn lossy_text(bytes: Seq<u8>) -> Seq<char>;

/// A character with the Unicode property White_Space.
pub open spec fn is_white_space(c: char) -> bool {
    let u = c as u32;
    ||| 0x09 <= u <= 0x0D
    ||| u == 0x20 || u == 0x85 || u == 0xA0 || u == 0x1680
    ||| 0x2000 <= u <= 0x200A
    ||| u == 0x2028 || u == 0x2029 || u == 0x202F || u == 0x205F || u == 0x3000
}

/// The index of the first character from `i` on that is not white space
/// (the length when there is none).
pub open spec fn white_space_end(text: Seq<char>, i: int) -> int
    decreases text.len() - i,
{
    if i < 0 || i >= text.len() || !is_white_space(text[i]) {
        i
    } else {
        white_space_end(text, i + 1)
    }
}

/// The end of `text` before `j` once the white space down to `lo` is cut
/// off.
pub open spec fn white_space_start(text: Seq<char>, j: int, lo: int) -> int
    decreases j - lo,
{
    if j <= lo || !is_white_space(text[j - 1]) {
        j
    } else {
        white_space_start(text, j - 1, lo)
    }
}

/// `text` without its leading and trailing white space.
pub open spec fn trimmed_text(text: Seq<char>) -> Seq<char> {
    let start = white_space_end(text, 0);
    text.subrange(start, white_space_start(text, text.len() as int, start))
}

/// ASCII bytes read as characters.
pub open spec fn ascii_chars(bytes: Seq<u8>) -> Seq<char> {
    Seq::new(bytes.len(), |i: int| bytes[i] as char)
}

/// `String::from_utf8_lossy(bytes).into_owned()`: the bytes decoded as UTF-8,
/// invalid sequences replaced by U+FFFD; bytes that are all ASCII read as
/// the same characters.
#[verifier::external_body]
pub fn text_from_utf8_lossy(bytes: &[u8]) -> (r: String)
    ensures
        r@ == lossy_text(bytes@),
        (forall|i: int| 0 <= i < bytes@.len() ==> bytes@[i] < 128) ==> r@ == ascii_chars(bytes@),
{
    String::from_utf8_lossy(bytes).into_owned()
}

fn white_space_char(c: char) -> (r: bool)
    ensures
        r == is_white_space(c),
{
    let u = c as u32;
    (0x09 <= u && u <= 0x0D) || u == 0x20 || u == 0x85 || u == 0xA0 || u == 0x1680
        || (0x2000 <= u && u <= 0x200A) || u == 0x2028 || u == 0x2029 || u == 0x202F || u == 0x205F || u == 0x3000
}

/// `text` without leading and trailing white space (the characters with the
/// Unicode property White_Space), as `str::trim` gives it.
pub fn trim_text(text: &str) -> (r: &str)
    ensures
        r@ == trimmed_text(text@),
{
    let n = text.unicode_len();
    let mut start: usize = 0;
    while start < n && white_space_char(text.get_char(start))
        invariant
            n == text@.len(),
            start <= n,
            white_space_end(text@, 0) == white_space_end(text@, start as int),
        decreases n - start,
    {
        start = start + 1;
    }
    let mut end: usize = n;
    while end > start && white_space_char(text.get_char(end - 1))
        invariant
            n == text@.len(),
            start <= end <= n,
            start == white_space_end(text@, 0),
            white_space_start(text@, n as int, start as int) == white_space_start(text@, end as int, start as int),
        decreases end - start,
    {
        end = end - 1;
    }
    text.substring_char(start, end)
}

/// "Sample " followed by the decimal digits of `n`.
pub fn sample_label_text(n: usize) -> (r: String)
    ensures
        r@ == "Sample "@ + decimal_chars(n as nat),
{
    "Sample ".to_owned().concat(decimal_text(n as u64).as_str())
}

} // verus!
