//! Character-level ground work: classification of characters, conversion
//! between `String` and `Vec<char>`, text search and replacement, the
//! lexicographic order on names, and decimal formatting.
//!
//! All text transformations of the crate work on `Vec<char>` values, whose
//! view is the same `Seq<char>` as the view of the `String` they came from.

use vstd::prelude::*;

verus! {

// ---------------------------------------------------------------------------
// Character classification.
//
// Whether a character counts as alphanumeric or as whitespace is decided by
// Unicode. For the ASCII range the answer is spelled out below; outside it,
// the standard library's tables are relied upon, under an uninterpreted name
// per predicate.
// ---------------------------------------------------------------------------

/// What `char::is_alphanumeric` returns on a character outside the ASCII
/// range.
pub uninterp spec fn unicode_alnum(c: char) -> bool;

/// What `char::is_whitespace` returns on a character outside the ASCII
/// range.
pub uninterp spec fn unicode_space(c: char) -> bool;

/// The alphanumeric characters of the ASCII range: letters and digits.
pub open spec fn ascii_alnum(c: char) -> bool {
    ||| ('a' as u32) <= (c as u32) <= ('z' as u32)
    ||| ('A' as u32) <= (c as u32) <= ('Z' as u32)
    ||| ('0' as u32) <= (c as u32) <= ('9' as u32)
}

/// The whitespace characters of the ASCII range: space, tab, line feed,
/// vertical tab, form feed, carriage return.
pub open spec fn ascii_space(c: char) -> bool {
    c == ' ' || c == '\t' || c == '\n' || c == '\u{b}' || c == '\u{c}' || c == '\r'
}

/// Whether a character is alphanumeric, as `char::is_alphanumeric` decides
/// it.
pub open spec fn alnum_char(c: char) -> bool {
    if (c as u32) < 128 {
        ascii_alnum(c)
    } else {
        unicode_alnum(c)
    }
}

/// Whether a character is whitespace, as `char::is_whitespace` decides it.
pub open spec fn space_char(c: char) -> bool {
    if (c as u32) < 128 {
        ascii_space(c)
    } else {
        unicode_space(c)
    }
}

/// Relies on `char::is_alphanumeric`: within ASCII the alphanumeric
/// characters are exactly the letters and digits; outside ASCII the result
/// depends on the character alone.
#[verifier::external_body]
pub fn is_alnum(c: char) -> (r: bool)
    ensures
        (c as u32) < 128 ==> r == ascii_alnum(c),
        (c as u32) >= 128 ==> r == unicode_alnum(c),
{
    c.is_alphanumeric()
}

/// Relies on `char::is_whitespace`: within ASCII the whitespace characters
/// are exactly space, tab, line feed, vertical tab, form feed and carriage
/// return; outside ASCII the result depends on the character alone.
#[verifier::external_body]
pub fn is_space(c: char) -> (r: bool)
    ensures
        (c as u32) < 128 ==> r == ascii_space(c),
        (c as u32) >= 128 ==> r == unicode_space(c),
{
    c.is_whitespace()
}

// ---------------------------------------------------------------------------
// Conversion between strings and character vectors.
// ---------------------------------------------------------------------------

/// Relies on `String::push`: appends one character at the end.
#[verifier::external_body]
pub fn push_char(s: &mut String, c: char)
    ensures
        final(s)@ == old(s)@.push(c),
{
    s.push(c)
}

/// The characters of a string, in order.
pub fn str_chars(s: &str) -> (r: Vec<char>)
    ensures
        r@ == s@,
{
    let mut r: Vec<char> = Vec::new();
    for c in it: s.chars()
        invariant
            it.seq() == s@,
            r@.len() == it.index(),
            forall|j: int| 0 <= j < r@.len() ==> r@[j] == s@[j],
    {
        r.push(c);
    }
    assert(r@ =~= s@);
    r
}

/// The string holding the given characters, in order.
pub fn chars_string(v: &Vec<char>) -> (r: String)
    ensures
        r@ == v@,
{
    let mut r = String::new();
    let mut i: usize = 0;
    while i < v.len()
        invariant
            i <= v.len(),
            r@ == v@.take(i as int),
        decreases v.len() - i,
    {
        push_char(&mut r, v[i]);
        assert(v@.take(i + 1 as int) == v@.take(i as int).push(v@[i as int]));
        i = i + 1;
    }
    assert(v@.take(v.len() as int) == v@);
    r
}

// ---------------------------------------------------------------------------
// Comparison helpers.
// ---------------------------------------------------------------------------

/// Whether two character vectors hold the same text.
pub fn chars_eq(a: &Vec<char>, b: &Vec<char>) -> (r: bool)
    ensures
        r == (a@ == b@),
{
    if a.len() != b.len() {
        assert(a@ != b@);
        return false;
    }
    let mut i: usize = 0;
    while i < a.len()
        invariant
            i <= a.len(),
            a.len() == b.len(),
            forall|j: int| 0 <= j < i ==> a@[j] == b@[j],
        decreases a.len() - i,
    {
        if a[i] != b[i] {
            return false;
        }
        i = i + 1;
    }
    assert(a@ =~= b@);
    true
}

// ---------------------------------------------------------------------------
// Search and replacement.
// ---------------------------------------------------------------------------

/// Whether the pattern `pat` stands in `s` at position `i`.
pub open spec fn matches_at(s: Seq<char>, i: int, pat: Seq<char>) -> bool {
    i + pat.len() <= s.len() && s.subrange(i, i + pat.len()) == pat
}

/// Whether the pattern `pat` stands in `text` at position `i`.
pub fn pat_at(text: &Vec<char>, i: usize, pat: &Vec<char>) -> (r: bool)
    requires
        i <= text@.len(),
    ensures
        r == matches_at(text@, i as int, pat@),
{
    let n = text.len();
    if n - i < pat.len() {
        return false;
    }
    let mut k: usize = 0;
    let mut j: usize = i;
    while k < pat.len()
        invariant
            k <= pat@.len(),
            j == i + k,
            i + pat@.len() <= text@.len() <= usize::MAX,
            forall|m: int| 0 <= m < k ==> text@[i + m] == pat@[m],
        decreases pat@.len() - k,
    {
        if text[j] != pat[k] {
            assert(text@.subrange(i as int, i + pat@.len())[k as int] != pat@[k as int]);
            return false;
        }
        k = k + 1;
        j = j + 1;
    }
    assert(text@.subrange(i as int, i + pat@.len()) =~= pat@);
    true
}

/// The text with every occurrence of `pat` replaced by `rep`, scanning left
/// to right without overlap, as `str::replace` does it.
pub open spec fn replace_all_text(s: Seq<char>, pat: Seq<char>, rep: Seq<char>) -> Seq<char>
    decreases s.len(),
    when pat.len() > 0
{
    if s.len() == 0 {
        s
    } else if matches_at(s, 0, pat) {
        rep + replace_all_text(s.skip(pat.len() as int), pat, rep)
    } else {
        seq![s[0]] + replace_all_text(s.skip(1), pat, rep)
    }
}

/// Appends all of `src` to `dst`.
pub fn extend_chars(dst: &mut Vec<char>, src: &Vec<char>)
    ensures
        final(dst)@ == old(dst)@ + src@,
{
    let mut k: usize = 0;
    while k < src.len()
        invariant
            k <= src@.len(),
            dst@ == old(dst)@ + src@.take(k as int),
        decreases src@.len() - k,
    {
        dst.push(src[k]);
        assert(old(dst)@ + src@.take(k + 1 as int) =~= (old(dst)@ + src@.take(k as int)).push(
            src@[k as int],
        ));
        k = k + 1;
    }
    assert(old(dst)@ + src@.take(src@.len() as int) =~= old(dst)@ + src@);
}

/// The characters of `v` from position `a` up to position `b`.
pub fn subrange_chars(v: &Vec<char>, a: usize, b: usize) -> (r: Vec<char>)
    requires
        a <= b <= v@.len(),
    ensures
        r@ == v@.subrange(a as int, b as int),
{
    let mut r: Vec<char> = Vec::new();
    let mut k: usize = a;
    while k < b
        invariant
            a <= k <= b <= v@.len(),
            r@ == v@.subrange(a as int, k as int),
        decreases b - k,
    {
        r.push(v[k]);
        assert(v@.subrange(a as int, k + 1 as int) =~= v@.subrange(a as int, k as int).push(
            v@[k as int],
        ));
        k = k + 1;
    }
    r
}

pub proof fn lemma_skip_skip<A>(s: Seq<A>, a: int, b: int)
    requires
        0 <= a,
        0 <= b,
        a + b <= s.len(),
    ensures
        s.skip(a).skip(b) == s.skip(a + b),
{
    assert(s.skip(a).skip(b) =~= s.skip(a + b));
}

/// Replaces every occurrence of `pat` in `text` by `rep`, scanning left to
/// right without overlap.
pub fn replace_all(text: &Vec<char>, pat: &Vec<char>, rep: &Vec<char>) -> (r: Vec<char>)
    requires
        pat@.len() > 0,
    ensures
        r@ == replace_all_text(text@, pat@, rep@),
{
    let mut r: Vec<char> = Vec::new();
    let mut i: usize = 0;
    assert(text@.skip(0) =~= text@);
    assert(r@ + replace_all_text(text@, pat@, rep@) =~= replace_all_text(text@, pat@, rep@));
    while i < text.len()
        invariant
            i <= text@.len(),
            pat@.len() > 0,
            replace_all_text(text@, pat@, rep@) == r@ + replace_all_text(
                text@.skip(i as int),
                pat@,
                rep@,
            ),
        decreases text@.len() - i,
    {
        let ghost suffix = text@.skip(i as int);
        if pat_at(text, i, pat) {
            assert(suffix.subrange(0, pat@.len() as int) =~= text@.subrange(
                i as int,
                i + pat@.len(),
            ));
            assert(matches_at(suffix, 0, pat@));
            extend_chars(&mut r, rep);
            proof {
                lemma_skip_skip(text@, i as int, pat@.len() as int);
            }
            i = i + pat.len();
        } else {
            assert(!matches_at(suffix, 0, pat@)) by {
                if matches_at(suffix, 0, pat@) {
                    assert(suffix.subrange(0, pat@.len() as int) =~= text@.subrange(
                        i as int,
                        i + pat@.len(),
                    ));
                }
            }
            assert(suffix[0] == text@[i as int]);
            r.push(text[i]);
            proof {
                lemma_skip_skip(text@, i as int, 1);
            }
            assert(r@ + replace_all_text(text@.skip(i + 1), pat@, rep@) =~= (r@.drop_last() + (seq![
                suffix[0],
            ] + replace_all_text(suffix.skip(1), pat@, rep@))));
            i = i + 1;
        }
    }
    assert(text@.skip(text@.len() as int) =~= Seq::<char>::empty());
    assert(replace_all_text(Seq::<char>::empty(), pat@, rep@) == Seq::<char>::empty());
    assert(r@ + Seq::<char>::empty() =~= r@);
    r
}

// ---------------------------------------------------------------------------
// Lexicographic order on texts, by character code point.
// ---------------------------------------------------------------------------

/// Whether `a` comes no later than `b` in the lexicographic order by
/// character code point (the order of `str`'s own comparison).
pub open spec fn lex_leq(a: Seq<char>, b: Seq<char>) -> bool
    decreases a.len(),
{
    if a.len() == 0 {
        true
    } else if b.len() == 0 {
        false
    } else if (a[0] as u32) < (b[0] as u32) {
        true
    } else if (a[0] as u32) > (b[0] as u32) {
        false
    } else {
        lex_leq(a.skip(1), b.skip(1))
    }
}

/// The lexicographic order is total: two texts always compare one way or the
/// other.
pub proof fn lemma_lex_total(a: Seq<char>, b: Seq<char>)
    ensures
        lex_leq(a, b) || lex_leq(b, a),
    decreases a.len(),
{
    if a.len() != 0 && b.len() != 0 && !((a[0] as u32) < (b[0] as u32)) && !((a[0] as u32) > (
    b[0] as u32)) {
        lemma_lex_total(a.skip(1), b.skip(1));
    }
}

/// The lexicographic order is transitive.
pub proof fn lemma_lex_trans(a: Seq<char>, b: Seq<char>, c: Seq<char>)
    requires
        lex_leq(a, b),
        lex_leq(b, c),
    ensures
        lex_leq(a, c),
    decreases a.len(),
{
    if a.len() != 0 && b.len() != 0 && c.len() != 0 && (a[0] as u32) == (b[0] as u32) && (b[0] as u32)
        == (c[0] as u32) {
        lemma_lex_trans(a.skip(1), b.skip(1), c.skip(1));
    }
}

/// Decides the lexicographic order on two character vectors.
pub fn lex_le(a: &Vec<char>, b: &Vec<char>) -> (r: bool)
    ensures
        r == lex_leq(a@, b@),
{
    let mut i: usize = 0;
    assert(a@.skip(0) =~= a@);
    assert(b@.skip(0) =~= b@);
    while i < a.len() && i < b.len()
        invariant
            i <= a@.len(),
            i <= b@.len(),
            lex_leq(a@, b@) == lex_leq(a@.skip(i as int), b@.skip(i as int)),
        decreases a@.len() - i,
    {
        let ca = a[i];
        let cb = b[i];
        assert(a@.skip(i as int)[0] == a@[i as int]);
        assert(b@.skip(i as int)[0] == b@[i as int]);
        if (ca as u32) < (cb as u32) {
            return true;
        }
        if (ca as u32) > (cb as u32) {
            return false;
        }
        proof {
            lemma_skip_skip(a@, i as int, 1);
            lemma_skip_skip(b@, i as int, 1);
        }
        i = i + 1;
    }
    if i == a.len() {
        assert(a@.skip(i as int).len() == 0);
        true
    } else {
        assert(b@.skip(i as int).len() == 0);
        assert(a@.skip(i as int).len() > 0);
        false
    }
}

// ---------------------------------------------------------------------------
// Trimming and blankness.
// ---------------------------------------------------------------------------

/// The text without its leading whitespace.
pub open spec fn trim_start_text(s: Seq<char>) -> Seq<char>
    decreases s.len(),
{
    if s.len() > 0 && space_char(s[0]) {
        trim_start_text(s.skip(1))
    } else {
        s
    }
}

/// The text without its trailing whitespace.
pub open spec fn trim_end_text(s: Seq<char>) -> Seq<char>
    decreases s.len(),
{
    if s.len() > 0 && space_char(s[s.len() - 1]) {
        trim_end_text(s.drop_last())
    } else {
        s
    }
}

/// The text without leading and trailing whitespace, as `str::trim` gives
/// it.
pub open spec fn trim_text(s: Seq<char>) -> Seq<char> {
    trim_end_text(trim_start_text(s))
}

/// Whether the text holds nothing but whitespace.
pub open spec fn blank_text(s: Seq<char>) -> bool {
    forall|i: int| 0 <= i < s.len() ==> space_char(#[trigger] s[i])
}

/// The text without its leading whitespace.
pub fn trim_start_chars(v: &Vec<char>) -> (r: Vec<char>)
    ensures
        r@ == trim_start_text(v@),
{
    let mut i: usize = 0;
    assert(v@.skip(0) =~= v@);
    while i < v.len() && is_space(v[i])
        invariant
            i <= v@.len(),
            trim_start_text(v@) == trim_start_text(v@.skip(i as int)),
            i < v@.len() ==> v@.skip(i as int)[0] == v@[i as int],
        decreases v@.len() - i,
    {
        proof {
            lemma_skip_skip(v@, i as int, 1);
        }
        i = i + 1;
    }
    let mut r: Vec<char> = Vec::new();
    let mut k: usize = i;
    while k < v.len()
        invariant
            i <= k <= v@.len(),
            r@ == v@.subrange(i as int, k as int),
        decreases v@.len() - k,
    {
        r.push(v[k]);
        assert(v@.subrange(i as int, k + 1 as int) =~= v@.subrange(i as int, k as int).push(
            v@[k as int],
        ));
        k = k + 1;
    }
    assert(r@ =~= v@.skip(i as int));
    r
}

/// The text without its trailing whitespace.
pub fn trim_end_chars(v: &Vec<char>) -> (r: Vec<char>)
    ensures
        r@ == trim_end_text(v@),
{
    let mut r: Vec<char> = Vec::new();
    let mut k: usize = 0;
    while k < v.len()
        invariant
            k <= v@.len(),
            r@ == v@.take(k as int),
        decreases v@.len() - k,
    {
        r.push(v[k]);
        assert(v@.take(k + 1 as int) =~= v@.take(k as int).push(v@[k as int]));
        k = k + 1;
    }
    assert(r@ =~= v@);
    while r.len() > 0 && is_space(r[r.len() - 1])
        invariant
            trim_end_text(v@) == trim_end_text(r@),
        decreases r@.len(),
    {
        assert(r@.drop_last() =~= r@.take(r@.len() - 1));
        r.pop();
    }
    r
}

/// The text without leading and trailing whitespace.
pub fn trim_chars(v: &Vec<char>) -> (r: Vec<char>)
    ensures
        r@ == trim_text(v@),
{
    let s = trim_start_chars(v);
    trim_end_chars(&s)
}

/// Whether the text holds nothing but whitespace.
pub fn is_blank(v: &Vec<char>) -> (r: bool)
    ensures
        r == blank_text(v@),
{
    let mut i: usize = 0;
    while i < v.len()
        invariant
            i <= v@.len(),
            forall|j: int| 0 <= j < i ==> space_char(#[trigger] v@[j]),
        decreases v@.len() - i,
    {
        if !is_space(v[i]) {
            return false;
        }
        i = i + 1;
    }
    true
}

// ---------------------------------------------------------------------------
// Decimal formatting.
// ---------------------------------------------------------------------------

/// The decimal digit character for a value below ten.
pub open spec fn dec_digit(n: nat) -> char
    recommends
        n < 10,
{
    ((48 + n) as u8) as char
}

/// The decimal notation of a number, most significant digit first, without
/// leading zeros (the number zero is written "0").
pub open spec fn dec_str(n: nat) -> Seq<char>
    decreases n,
{
    if n < 10 {
        seq![dec_digit(n)]
    } else {
        dec_str(n / 10).push(dec_digit(n % 10))
    }
}

/// The decimal notation of a number.
pub fn dec_chars(n: usize) -> (r: Vec<char>)
    ensures
        r@ == dec_str(n as nat),
    decreases n,
{
    if n < 10 {
        let mut r: Vec<char> = Vec::new();
        r.push(((48 + n) as u8) as char);
        assert(r@ =~= seq![dec_digit(n as nat)]);
        r
    } else {
        let mut r = dec_chars(n / 10);
        r.push(((48 + (n % 10)) as u8) as char);
        r
    }
}

} // verus!
