//! Typographic normalization of Markdown text.
//!
//! Before the Markdown is parsed, its raw text is put through a fixed
//! sequence of transformations: gaps between a straight double quote and a
//! following punctuation mark are closed; straight quotes are turned into
//! curly ones, leaving everything between `<` and `>` untouched; punctuation
//! after a closing quote is moved inside the quotes; spaces around em-dashes
//! are tightened; spellings of "T-shirt" are unified; whitespace within each
//! line is collapsed; and a line holding exactly `----` becomes a decorative
//! divider block.

use vstd::prelude::*;

use crate::chars::{
    chars_string, is_space, lemma_skip_skip, replace_all, replace_all_text, space_char, str_chars,
};

verus! {

// ---------------------------------------------------------------------------
// The punctuation marks that interact with quotes.
// ---------------------------------------------------------------------------

/// The punctuation marks that are pulled against or into quotes: comma,
/// period, question mark, exclamation mark, semicolon, colon, ellipsis.
pub open spec fn is_punct_char(c: char) -> bool {
    c == ',' || c == '.' || c == '?' || c == '!' || c == ';' || c == ':' || c == '…'
}

/// Whether the character is one of the punctuation marks that are pulled
/// against or into quotes.
pub fn is_punctuation(c: char) -> (r: bool)
    ensures
        r == is_punct_char(c),
{
    match c {
        ',' | '.' | '?' | '!' | ';' | ':' | '…' => true,
        _ => false,
    }
}

// ---------------------------------------------------------------------------
// Stage 1: closing the gap between a double quote and punctuation.
// ---------------------------------------------------------------------------

/// The length of the whitespace run at the start of the text.
pub open spec fn ws_run(s: Seq<char>) -> nat
    decreases s.len(),
{
    if s.len() > 0 && space_char(s[0]) {
        1 + ws_run(s.skip(1))
    } else {
        0
    }
}

/// The text with every gap of whitespace between a straight double quote and
/// a following punctuation mark removed.
pub open spec fn squeeze_text(s: Seq<char>) -> Seq<char>
    decreases s.len(),
{
    if s.len() == 0 {
        Seq::empty()
    } else if s[0] == '"' {
        let w = ws_run(s.skip(1)) as int;
        if w > 0 && 1 + w < s.len() && is_punct_char(s[1 + w]) {
            seq!['"', s[1 + w]] + squeeze_text(s.skip(2 + w))
        } else {
            seq!['"'] + squeeze_text(s.skip(1))
        }
    } else {
        seq![s[0]] + squeeze_text(s.skip(1))
    }
}

/// The length of the whitespace run of `v` that starts at position `i`.
fn ws_run_at(v: &Vec<char>, i: usize) -> (w: usize)
    requires
        i <= v@.len(),
    ensures
        w == ws_run(v@.skip(i as int)),
        i + w <= v@.len(),
{
    let mut j: usize = i;
    while j < v.len() && is_space(v[j])
        invariant
            i <= j <= v@.len(),
            ws_run(v@.skip(i as int)) == j - i + ws_run(v@.skip(j as int)),
        decreases v@.len() - j,
    {
        assert(v@.skip(j as int)[0] == v@[j as int]);
        proof {
            lemma_skip_skip(v@, j as int, 1);
        }
        j = j + 1;
    }
    proof {
        if j < v.len() {
            assert(v@.skip(j as int)[0] == v@[j as int]);
        }
        assert(ws_run(v@.skip(j as int)) == 0);
    }
    j - i
}

/// Removes every run of whitespace standing between a straight double quote
/// and a following punctuation mark.
pub fn remove_spaces_between_quotes_and_punctuation(text: &str) -> (r: String)
    ensures
        r@ == squeeze_text(text@),
{
    let v = str_chars(text);
    let out = squeeze_chars(&v);
    chars_string(&out)
}

fn squeeze_chars(v: &Vec<char>) -> (r: Vec<char>)
    ensures
        r@ == squeeze_text(v@),
{
    let mut out: Vec<char> = Vec::new();
    let mut i: usize = 0;
    assert(v@.skip(0) =~= v@);
    while i < v.len()
        invariant
            i <= v@.len(),
            squeeze_text(v@) == out@ + squeeze_text(v@.skip(i as int)),
        decreases v@.len() - i,
    {
        let ghost suffix = v@.skip(i as int);
        assert(suffix[0] == v@[i as int]);
        if v[i] == '"' {
            proof {
                lemma_skip_skip(v@, i as int, 1);
            }
            let w = ws_run_at(v, i + 1);
            assert(w == ws_run(suffix.skip(1)));
            if w > 0 && i + 1 + w < v.len() && is_punctuation(v[i + 1 + w]) {
                assert(suffix[1 + w] == v@[i + 1 + w]);
                let ghost emitted = seq!['"', suffix[1 + w as int]];
                out.push('"');
                out.push(v[i + 1 + w]);
                proof {
                    lemma_skip_skip(v@, i as int, 2 + w as int);
                    assert((out@ + squeeze_text(v@.skip(i + 2 + w as int))) =~= (out@.drop_last()
                        .drop_last() + (emitted + squeeze_text(suffix.skip(2 + w as int)))));
                }
                i = i + 2 + w;
            } else {
                assert(!(w > 0 && 1 + w < suffix.len() && is_punct_char(suffix[1 + w as int])))
                    by {
                    if w > 0 && 1 + w < suffix.len() {
                        assert(suffix[1 + w as int] == v@[i + 1 + w]);
                    }
                };
                out.push('"');
                proof {
                    assert((out@ + squeeze_text(v@.skip(i + 1))) =~= (out@.drop_last() + (seq!['"']
                        + squeeze_text(suffix.skip(1)))));
                }
                i = i + 1;
            }
        } else {
            out.push(v[i]);
            proof {
                lemma_skip_skip(v@, i as int, 1);
                assert((out@ + squeeze_text(v@.skip(i + 1))) =~= (out@.drop_last() + (seq![
                    suffix[0],
                ] + squeeze_text(suffix.skip(1)))));
            }
            i = i + 1;
        }
    }
    assert(v@.skip(v@.len() as int) =~= Seq::<char>::empty());
    assert(out@ + Seq::<char>::empty() =~= out@);
    out
}

// ---------------------------------------------------------------------------
// Stage 2: curling quotes outside HTML tags.
// ---------------------------------------------------------------------------

/// The in-tag state after one character: `<` opens a tag, `>` closes it,
/// everything else leaves the state alone.
pub open spec fn tag_upd(t: bool, c: char) -> bool {
    if c == '<' {
        true
    } else if c == '>' {
        false
    } else {
        t
    }
}

/// The straight and curly double quote characters.
pub open spec fn is_dq(c: char) -> bool {
    c == '"' || c == '“' || c == '”'
}

/// The text with quotes curled: outside HTML tags, every `'` becomes `’` and
/// every double quote becomes `“` or `”` by turns; between `<` and `>` every
/// character passes through unchanged. `tag` and `q` are the in-tag and
/// in-quote states at the start of the text.
pub open spec fn curl_text(s: Seq<char>, tag: bool, q: bool) -> Seq<char>
    decreases s.len(),
{
    if s.len() == 0 {
        Seq::empty()
    } else {
        let c = s[0];
        let t2 = tag_upd(tag, c);
        if t2 {
            seq![c] + curl_text(s.skip(1), t2, q)
        } else if c == '\'' {
            seq!['’'] + curl_text(s.skip(1), t2, q)
        } else if is_dq(c) {
            seq![if !q { '“' } else { '”' }] + curl_text(s.skip(1), t2, !q)
        } else {
            seq![c] + curl_text(s.skip(1), t2, q)
        }
    }
}

/// Replaces straight quotes by curly ones outside HTML tags: `'` becomes
/// `’`, and double quotes become `“` and `”` by turns.
pub fn replace_quotes(text: &str) -> (r: String)
    ensures
        r@ == curl_text(text@, false, false),
{
    let v = str_chars(text);
    let out = curl_chars(&v);
    chars_string(&out)
}

fn curl_chars(v: &Vec<char>) -> (r: Vec<char>)
    ensures
        r@ == curl_text(v@, false, false),
{
    let mut out: Vec<char> = Vec::new();
    let mut tag = false;
    let mut q = false;
    let mut i: usize = 0;
    assert(v@.skip(0) =~= v@);
    while i < v.len()
        invariant
            i <= v@.len(),
            curl_text(v@, false, false) == out@ + curl_text(v@.skip(i as int), tag, q),
        decreases v@.len() - i,
    {
        let ghost suffix = v@.skip(i as int);
        assert(suffix[0] == v@[i as int]);
        proof {
            lemma_skip_skip(v@, i as int, 1);
        }
        let c = v[i];
        let t2 = if c == '<' {
            true
        } else if c == '>' {
            false
        } else {
            tag
        };
        let ghost old_out = out@;
        let ghost emitted: Seq<char>;
        if t2 {
            out.push(c);
            proof {
                emitted = seq![c];
            }
        } else if c == '\'' {
            out.push('’');
            proof {
                emitted = seq!['’'];
            }
        } else if c == '"' || c == '“' || c == '”' {
            q = !q;
            let cc = if q {
                '“'
            } else {
                '”'
            };
            out.push(cc);
            proof {
                emitted = seq![cc];
            }
        } else {
            out.push(c);
            proof {
                emitted = seq![c];
            }
        }
        tag = t2;
        proof {
            assert(out@ + curl_text(v@.skip(i + 1), tag, q) =~= old_out + (emitted + curl_text(
                suffix.skip(1),
                tag,
                q,
            )));
        }
        i = i + 1;
    }
    assert(v@.skip(v@.len() as int) =~= Seq::<char>::empty());
    assert(out@ + Seq::<char>::empty() =~= out@);
    out
}

// ---------------------------------------------------------------------------
// Stage 3: moving punctuation inside a closing quote.
// ---------------------------------------------------------------------------

/// The text with every punctuation mark that follows a closing double quote
/// moved to stand before the quote, inside the quoted span. `<` and `>` pass
/// through without taking part. `q` is the in-quote state at the start.
pub open spec fn fixp_text(s: Seq<char>, q: bool) -> Seq<char>
    decreases s.len(),
{
    if s.len() == 0 {
        Seq::empty()
    } else {
        let c = s[0];
        if c == '<' || c == '>' {
            seq![c] + fixp_text(s.skip(1), q)
        } else if is_dq(c) {
            let q2 = !q;
            if !q2 && s.len() >= 2 && is_punct_char(s[1]) {
                seq![s[1], c] + fixp_text(s.skip(2), q2)
            } else {
                seq![c] + fixp_text(s.skip(1), q2)
            }
        } else {
            seq![c] + fixp_text(s.skip(1), q)
        }
    }
}

/// Moves a punctuation mark that follows a closing double quote to stand
/// before the quote, inside the quoted span.
pub fn fix_punctuation(text: &str) -> (r: String)
    ensures
        r@ == fixp_text(text@, false),
{
    let v = str_chars(text);
    let out = fixp_chars(&v);
    chars_string(&out)
}

fn fixp_chars(v: &Vec<char>) -> (r: Vec<char>)
    ensures
        r@ == fixp_text(v@, false),
{
    let mut out: Vec<char> = Vec::new();
    let mut q = false;
    let mut i: usize = 0;
    assert(v@.skip(0) =~= v@);
    while i < v.len()
        invariant
            i <= v@.len(),
            fixp_text(v@, false) == out@ + fixp_text(v@.skip(i as int), q),
        decreases v@.len() - i,
    {
        let ghost suffix = v@.skip(i as int);
        assert(suffix[0] == v@[i as int]);
        let c = v[i];
        if c == '<' || c == '>' {
            out.push(c);
            proof {
                lemma_skip_skip(v@, i as int, 1);
                assert(out@ + fixp_text(v@.skip(i + 1), q) =~= out@.drop_last() + (seq![c]
                    + fixp_text(suffix.skip(1), q)));
            }
            i = i + 1;
        } else if c == '"' || c == '“' || c == '”' {
            q = !q;
            if !q && i + 1 < v.len() && is_punctuation(v[i + 1]) {
                assert(suffix[1] == v@[i + 1]);
                let p = v[i + 1];
                out.push(p);
                out.push(c);
                proof {
                    lemma_skip_skip(v@, i as int, 2);
                    assert(out@ + fixp_text(v@.skip(i + 2), q) =~= out@.drop_last().drop_last() + (
                    seq![p, c] + fixp_text(suffix.skip(2), q)));
                }
                i = i + 2;
            } else {
                proof {
                    if !q && 1 < suffix.len() {
                        assert(suffix[1] == v@[i + 1]);
                    }
                }
                out.push(c);
                proof {
                    lemma_skip_skip(v@, i as int, 1);
                    assert(out@ + fixp_text(v@.skip(i + 1), q) =~= out@.drop_last() + (seq![c]
                        + fixp_text(suffix.skip(1), q)));
                }
                i = i + 1;
            }
        } else {
            out.push(c);
            proof {
                lemma_skip_skip(v@, i as int, 1);
                assert(out@ + fixp_text(v@.skip(i + 1), q) =~= out@.drop_last() + (seq![c]
                    + fixp_text(suffix.skip(1), q)));
            }
            i = i + 1;
        }
    }
    assert(v@.skip(v@.len() as int) =~= Seq::<char>::empty());
    assert(out@ + Seq::<char>::empty() =~= out@);
    out
}

// ---------------------------------------------------------------------------
// Stage 4: tightening spaces around em-dashes.
// ---------------------------------------------------------------------------

/// The text built up in `acc` with, at every em-dash, one space before the
/// dash and one space after it removed, where present.
pub open spec fn emdash_text(s: Seq<char>, acc: Seq<char>) -> Seq<char>
    decreases s.len(),
{
    if s.len() == 0 {
        acc
    } else if s[0] == '—' {
        let acc2 = if acc.len() > 0 && acc.last() == ' ' {
            acc.drop_last()
        } else {
            acc
        };
        if s.len() >= 2 && s[1] == ' ' {
            emdash_text(s.skip(2), acc2.push('—'))
        } else {
            emdash_text(s.skip(1), acc2.push('—'))
        }
    } else {
        emdash_text(s.skip(1), acc.push(s[0]))
    }
}

/// Removes a single space on either side of every em-dash.
pub fn fix_em_anomaly(text: &str) -> (r: String)
    ensures
        r@ == emdash_text(text@, Seq::empty()),
{
    let v = str_chars(text);
    let out = emdash_chars(&v);
    chars_string(&out)
}

fn emdash_chars(v: &Vec<char>) -> (r: Vec<char>)
    ensures
        r@ == emdash_text(v@, Seq::empty()),
{
    let mut out: Vec<char> = Vec::new();
    let mut i: usize = 0;
    assert(v@.skip(0) =~= v@);
    assert(out@ =~= Seq::<char>::empty());
    while i < v.len()
        invariant
            i <= v@.len(),
            emdash_text(v@, Seq::empty()) == emdash_text(v@.skip(i as int), out@),
        decreases v@.len() - i,
    {
        let ghost suffix = v@.skip(i as int);
        assert(suffix[0] == v@[i as int]);
        let c = v[i];
        if c == '—' {
            if out.len() > 0 && out[out.len() - 1] == ' ' {
                out.pop();
            }
            out.push('—');
            if i + 1 < v.len() && v[i + 1] == ' ' {
                assert(suffix[1] == v@[i + 1]);
                proof {
                    lemma_skip_skip(v@, i as int, 2);
                }
                i = i + 2;
            } else {
                proof {
                    if 1 < suffix.len() {
                        assert(suffix[1] == v@[i + 1]);
                    }
                    lemma_skip_skip(v@, i as int, 1);
                }
                i = i + 1;
            }
        } else {
            out.push(c);
            proof {
                lemma_skip_skip(v@, i as int, 1);
            }
            i = i + 1;
        }
    }
    assert(v@.skip(v@.len() as int) =~= Seq::<char>::empty());
    out
}

// ---------------------------------------------------------------------------
// Stage 5: one spelling for "T-shirt".
// ---------------------------------------------------------------------------

/// The text with every spelling among "tshirt", "t-shirt", "Tshirt",
/// "T-shirt" replaced by "T-shirt", one spelling after the other.
pub open spec fn tshirt_text(s: Seq<char>) -> Seq<char> {
    replace_all_text(
        replace_all_text(
            replace_all_text(replace_all_text(s, "tshirt"@, "T-shirt"@), "t-shirt"@, "T-shirt"@),
            "Tshirt"@,
            "T-shirt"@,
        ),
        "T-shirt"@,
        "T-shirt"@,
    )
}

/// Replaces every spelling of "T-shirt" (with or without the hyphen, with a
/// small or capital T) by "T-shirt".
pub fn fix_tshirt_anomaly(text: &str) -> (r: String)
    ensures
        r@ == tshirt_text(text@),
{
    let v = str_chars(text);
    let out = tshirt_chars(&v);
    chars_string(&out)
}

fn tshirt_chars(v: &Vec<char>) -> (r: Vec<char>)
    ensures
        r@ == tshirt_text(v@),
{
    proof {
        reveal_strlit("tshirt");
        reveal_strlit("t-shirt");
        reveal_strlit("Tshirt");
        reveal_strlit("T-shirt");
    }
    let p1 = str_chars("tshirt");
    let p2 = str_chars("t-shirt");
    let p3 = str_chars("Tshirt");
    let p4 = str_chars("T-shirt");
    let rep = str_chars("T-shirt");
    let s1 = replace_all(v, &p1, &rep);
    let s2 = replace_all(&s1, &p2, &rep);
    let s3 = replace_all(&s2, &p3, &rep);
    replace_all(&s3, &p4, &rep)
}

// ---------------------------------------------------------------------------
// Stage 6: collapsing whitespace within each line.
// ---------------------------------------------------------------------------

/// The position of the first line feed in the text, or its length if there
/// is none.
pub open spec fn first_nl(s: Seq<char>) -> nat
    decreases s.len(),
{
    if s.len() == 0 {
        0
    } else if s[0] == '\n' {
        0
    } else {
        1 + first_nl(s.skip(1))
    }
}

pub proof fn lemma_first_nl_le(s: Seq<char>)
    ensures
        first_nl(s) <= s.len(),
    decreases s.len(),
{
    if s.len() > 0 && s[0] != '\n' {
        lemma_first_nl_le(s.skip(1));
    }
}

/// A line as `str::lines` hands it out: with the carriage return of a
/// `\r\n` line ending dropped.
pub open spec fn strip_cr(l: Seq<char>) -> Seq<char> {
    if l.len() > 0 && l.last() == '\r' {
        l.drop_last()
    } else {
        l
    }
}

/// The lines of the text, as `str::lines` splits them: separated by line
/// feeds, each line without its `\r\n` or `\n` ending, and no empty last
/// line for a text that ends with a line ending.
pub open spec fn lines_text(s: Seq<char>) -> Seq<Seq<char>>
    decreases s.len(),
{
    if s.len() == 0 {
        Seq::empty()
    } else {
        let n = first_nl(s) as int;
        if n == s.len() {
            seq![s]
        } else {
            proof {
                lemma_first_nl_le(s);
            }
            seq![strip_cr(s.take(n))] + lines_text(s.skip(n + 1))
        }
    }
}

/// The length of the run of non-whitespace at the start of the text.
pub open spec fn word_run(s: Seq<char>) -> nat
    decreases s.len(),
{
    if s.len() > 0 && !space_char(s[0]) {
        1 + word_run(s.skip(1))
    } else {
        0
    }
}

pub proof fn lemma_word_run_le(s: Seq<char>)
    ensures
        word_run(s) <= s.len(),
    decreases s.len(),
{
    if s.len() > 0 && !space_char(s[0]) {
        lemma_word_run_le(s.skip(1));
    }
}

/// The words of a line, as `str::split_whitespace` hands them out: the
/// maximal runs of non-whitespace, in order.
pub open spec fn words_text(l: Seq<char>) -> Seq<Seq<char>>
    decreases l.len(),
{
    if l.len() == 0 {
        Seq::empty()
    } else if space_char(l[0]) {
        words_text(l.skip(1))
    } else {
        let w = word_run(l) as int;
        proof {
            lemma_word_run_le(l);
        }
        seq![l.take(w)] + words_text(l.skip(w))
    }
}

/// The pieces joined with the separator between every two of them.
pub open spec fn join_texts(ps: Seq<Seq<char>>, sep: Seq<char>) -> Seq<char>
    decreases ps.len(),
{
    if ps.len() == 0 {
        Seq::empty()
    } else if ps.len() == 1 {
        ps[0]
    } else {
        ps[0] + sep + join_texts(ps.skip(1), sep)
    }
}

/// The text with, on every line, runs of whitespace collapsed to single
/// spaces and leading and trailing whitespace removed; the lines are joined
/// back with single line feeds.
pub open spec fn collapse_ws_text(s: Seq<char>) -> Seq<char> {
    join_texts(lines_text(s).map_values(|l: Seq<char>| join_texts(words_text(l), seq![' '])), seq![
        '\n',
    ])
}

/// Collapses runs of whitespace within each line to single spaces and trims
/// each line, keeping blank lines as empty lines.
pub fn remove_extra_spaces(text: &str) -> (r: String)
    ensures
        r@ == collapse_ws_text(text@),
{
    let v = str_chars(text);
    let out = collapse_ws_chars(&v);
    chars_string(&out)
}

/// The position of the first line feed in `v` at or after position `i`, or
/// the length of `v` if there is none.
fn first_nl_at(v: &Vec<char>, i: usize) -> (n: usize)
    requires
        i <= v@.len(),
    ensures
        n - i == first_nl(v@.skip(i as int)),
        i <= n <= v@.len(),
        n < v@.len() ==> v@[n as int] == '\n',
{
    let mut j: usize = i;
    while j < v.len() && v[j] != '\n'
        invariant
            i <= j <= v@.len(),
            first_nl(v@.skip(i as int)) == j - i + first_nl(v@.skip(j as int)),
        decreases v@.len() - j,
    {
        assert(v@.skip(j as int)[0] == v@[j as int]);
        proof {
            lemma_skip_skip(v@, j as int, 1);
        }
        j = j + 1;
    }
    proof {
        if j < v.len() {
            assert(v@.skip(j as int)[0] == v@[j as int]);
        }
        assert(first_nl(v@.skip(j as int)) == 0);
    }
    j
}


/// The length of the run of non-whitespace of `v` that starts at position
/// `i`.
fn word_run_at(v: &Vec<char>, i: usize) -> (w: usize)
    requires
        i <= v@.len(),
    ensures
        w == word_run(v@.skip(i as int)),
        i + w <= v@.len(),
{
    let mut j: usize = i;
    while j < v.len() && !is_space(v[j])
        invariant
            i <= j <= v@.len(),
            word_run(v@.skip(i as int)) == j - i + word_run(v@.skip(j as int)),
        decreases v@.len() - j,
    {
        assert(v@.skip(j as int)[0] == v@[j as int]);
        proof {
            lemma_skip_skip(v@, j as int, 1);
        }
        j = j + 1;
    }
    proof {
        if j < v.len() {
            assert(v@.skip(j as int)[0] == v@[j as int]);
        }
        assert(word_run(v@.skip(j as int)) == 0);
    }
    j - i
}

proof fn lemma_join_concat(a: Seq<Seq<char>>, b: Seq<Seq<char>>, sep: Seq<char>)
    requires
        a.len() > 0,
        b.len() > 0,
    ensures
        join_texts(a + b, sep) == join_texts(a, sep) + sep + join_texts(b, sep),
    decreases a.len(),
{
    assert((a + b)[0] == a[0]);
    if a.len() == 1 {
        assert((a + b).skip(1) =~= b);
    } else {
        assert((a + b).skip(1) =~= a.skip(1) + b);
        lemma_join_concat(a.skip(1), b, sep);
        assert(a[0] + sep + (join_texts(a.skip(1), sep) + sep + join_texts(b, sep)) =~= (a[0] + sep
            + join_texts(a.skip(1), sep)) + sep + join_texts(b, sep));
    }
}

/// The words of the line joined back with single spaces.
fn collapse_line(l: &Vec<char>) -> (r: Vec<char>)
    ensures
        r@ == join_texts(words_text(l@), seq![' ']),
{
    let mut out: Vec<char> = Vec::new();
    let mut first = true;
    let mut i: usize = 0;
    let ghost all = words_text(l@);
    let ghost mut done: Seq<Seq<char>> = Seq::empty();
    assert(l@.skip(0) =~= l@);
    assert(Seq::<Seq<char>>::empty() + words_text(l@) =~= words_text(l@));
    while i < l.len()
        invariant
            i <= l@.len(),
            all == words_text(l@),
            all == done + words_text(l@.skip(i as int)),
            out@ == join_texts(done, seq![' ']),
            first == (done.len() == 0),
        decreases l@.len() - i,
    {
        let ghost suffix = l@.skip(i as int);
        assert(suffix[0] == l@[i as int]);
        if is_space(l[i]) {
            proof {
                lemma_skip_skip(l@, i as int, 1);
            }
            i = i + 1;
        } else {
            let w = word_run_at(l, i);
            assert(w == word_run(suffix));
            assert(w >= 1);
            let word = crate::chars::subrange_chars(l, i, i + w);
            let ghost wordv = suffix.take(w as int);
            assert(word@ =~= wordv);
            if !first {
                out.push(' ');
            }
            crate::chars::extend_chars(&mut out, &word);
            proof {
                lemma_skip_skip(l@, i as int, w as int);
                assert(words_text(suffix) == seq![wordv] + words_text(suffix.skip(w as int)));
                assert(all == done + (seq![wordv] + words_text(l@.skip(i + w))));
                assert(done + (seq![wordv] + words_text(l@.skip(i + w))) =~= (done.push(wordv))
                    + words_text(l@.skip(i + w)));
                if done.len() == 0 {
                    assert(done.push(wordv) =~= seq![wordv]);
                    assert(join_texts(seq![wordv], seq![' ']) == wordv);
                    assert(out@ =~= Seq::<char>::empty() + wordv);
                    assert(out@ =~= wordv);
                } else {
                    assert(done.push(wordv) =~= done + seq![wordv]);
                    lemma_join_concat(done, seq![wordv], seq![' ']);
                }
                done = done.push(wordv);
            }
            first = false;
            i = i + w;
        }
    }
    assert(l@.skip(l@.len() as int) =~= Seq::<char>::empty());
    assert(done + Seq::<Seq<char>>::empty() =~= done);
    out
}

/// The lines of `v`, as `str::lines` splits them.
pub(crate) fn split_lines(v: &Vec<char>) -> (r: Vec<Vec<char>>)
    ensures
        r@.map_values(|x: Vec<char>| x@) == lines_text(v@),
{
    let mut r: Vec<Vec<char>> = Vec::new();
    let mut i: usize = 0;
    let ghost f = |x: Vec<char>| x@;
    assert(v@.skip(0) =~= v@);
    assert(r@.map_values(f) + lines_text(v@) =~= lines_text(v@));
    while i < v.len()
        invariant
            i <= v@.len(),
            lines_text(v@) == r@.map_values(|x: Vec<char>| x@) + lines_text(v@.skip(i as int)),
        decreases v@.len() + 1 - i,
    {
        let ghost suffix = v@.skip(i as int);
        let ghost old_pieces = r@.map_values(|x: Vec<char>| x@);
        let stop = first_nl_at(v, i);
        let ghost n = first_nl(suffix) as int;
        assert(stop - i == n);
        proof {
            lemma_first_nl_le(suffix);
        }
        if stop == v.len() {
            let piece = crate::chars::subrange_chars(v, i, stop);
            assert(piece@ =~= suffix);
            assert(n == suffix.len());
            assert(lines_text(suffix) == seq![suffix]);
            r.push(piece);
            proof {
                assert(r@.map_values(|x: Vec<char>| x@) =~= old_pieces.push(suffix));
                assert(v@.skip(v@.len() as int) =~= Seq::<char>::empty());
                assert(old_pieces + seq![suffix] =~= old_pieces.push(suffix));
                assert(old_pieces.push(suffix) + lines_text(Seq::<char>::empty()) =~= old_pieces
                    + seq![suffix]);
                assert(old_pieces + lines_text(suffix) =~= old_pieces + seq![suffix]);
            }
            i = v.len();
        } else {
            assert(n < suffix.len());
            assert(v@[stop as int] == '\n');
            let line_end = if stop > i && v[stop - 1] == '\r' {
                stop - 1
            } else {
                stop
            };
            let piece = crate::chars::subrange_chars(v, i, line_end);
            let ghost raw = suffix.take(n);
            proof {
                assert(raw =~= v@.subrange(i as int, stop as int));
                if stop > i && v@[stop - 1] == '\r' {
                    assert(raw.len() > 0 && raw.last() == '\r');
                    assert(piece@ =~= raw.drop_last());
                    assert(piece@ == strip_cr(raw));
                } else {
                    assert(!(raw.len() > 0 && raw.last() == '\r')) by {
                        if raw.len() > 0 {
                            assert(raw.last() == v@[stop - 1]);
                        }
                    };
                    assert(piece@ == strip_cr(raw));
                }
            }
            r.push(piece);
            proof {
                lemma_skip_skip(v@, i as int, n + 1);
                assert(lines_text(suffix) == seq![strip_cr(raw)] + lines_text(suffix.skip(n + 1)));
                assert(r@.map_values(|x: Vec<char>| x@) =~= old_pieces.push(strip_cr(raw)));
                assert(old_pieces + (seq![strip_cr(raw)] + lines_text(v@.skip(i + n + 1))) =~= (
                old_pieces.push(strip_cr(raw))) + lines_text(v@.skip(i + n + 1)));
            }
            i = stop + 1;
        }
    }
    proof {
        assert(v@.skip(v@.len() as int) =~= Seq::<char>::empty());
        assert(lines_text(Seq::<char>::empty()) =~= Seq::<Seq<char>>::empty());
        assert(r@.map_values(|x: Vec<char>| x@) + Seq::<Seq<char>>::empty() =~= r@.map_values(
            |x: Vec<char>| x@,
        ));
    }
    r
}

/// The pieces joined with the separator character between every two.
pub(crate) fn join_pieces(parts: &Vec<Vec<char>>, sep: char) -> (r: Vec<char>)
    ensures
        r@ == join_texts(parts@.map_values(|x: Vec<char>| x@), seq![sep]),
{
    let ghost ps = parts@.map_values(|x: Vec<char>| x@);
    let mut out: Vec<char> = Vec::new();
    let mut k: usize = 0;
    assert(ps.take(0) =~= Seq::<Seq<char>>::empty());
    while k < parts.len()
        invariant
            k <= ps.len(),
            ps == parts@.map_values(|x: Vec<char>| x@),
            ps.len() == parts@.len(),
            out@ == join_texts(ps.take(k as int), seq![sep]),
        decreases ps.len() - k,
    {
        assert(ps[k as int] == parts@[k as int]@);
        if k > 0 {
            out.push(sep);
        }
        crate::chars::extend_chars(&mut out, &parts[k]);
        proof {
            assert(ps.take(k + 1 as int) =~= ps.take(k as int) + seq![ps[k as int]]);
            if k == 0 {
                assert(ps.take(1 as int) =~= seq![ps[0]]);
                assert(out@ =~= Seq::<char>::empty().push(sep).drop_last() + ps[0]);
                assert(out@ =~= ps[0]);
            } else {
                lemma_join_concat(ps.take(k as int), seq![ps[k as int]], seq![sep]);
                assert(out@ =~= join_texts(ps.take(k as int), seq![sep]) + seq![sep] + ps[k as int]);
            }
        }
        k = k + 1;
    }
    assert(ps.take(ps.len() as int) =~= ps);
    out
}

fn collapse_ws_chars(v: &Vec<char>) -> (r: Vec<char>)
    ensures
        r@ == collapse_ws_text(v@),
{
    let ghost g = |l: Seq<char>| join_texts(words_text(l), seq![' ']);
    let lines = split_lines(v);
    let ghost ls = lines@.map_values(|x: Vec<char>| x@);
    let mut collapsed: Vec<Vec<char>> = Vec::new();
    let mut k: usize = 0;
    assert(ls.take(0) =~= Seq::<Seq<char>>::empty());
    assert(collapsed@.map_values(|x: Vec<char>| x@) =~= Seq::<Seq<char>>::empty());
    assert(Seq::<Seq<char>>::empty() =~= Seq::<Seq<char>>::empty().map_values(g));
    while k < lines.len()
        invariant
            k <= ls.len(),
            ls == lines@.map_values(|x: Vec<char>| x@),
            ls.len() == lines@.len(),
            collapsed@.map_values(|x: Vec<char>| x@) == ls.take(k as int).map_values(
                |l: Seq<char>| join_texts(words_text(l), seq![' ']),
            ),
        decreases ls.len() - k,
    {
        let ghost old_c = collapsed@.map_values(|x: Vec<char>| x@);
        assert(ls[k as int] == lines@[k as int]@);
        let piece = collapse_line(&lines[k]);
        collapsed.push(piece);
        proof {
            assert(collapsed@.map_values(|x: Vec<char>| x@) =~= old_c.push(piece@));
            assert(ls.take(k + 1 as int) =~= ls.take(k as int).push(ls[k as int]));
            assert(ls.take(k + 1 as int).map_values(
                |l: Seq<char>| join_texts(words_text(l), seq![' ']),
            ) =~= ls.take(k as int).map_values(|l: Seq<char>| join_texts(words_text(l), seq![' ']))
                .push(join_texts(words_text(ls[k as int]), seq![' '])));
        }
        k = k + 1;
    }
    assert(ls.take(ls.len() as int) =~= ls);
    let out = join_pieces(&collapsed, '\n');
    assert(lines_text(v@).map_values(|l: Seq<char>| join_texts(words_text(l), seq![' ']))
        == collapsed@.map_values(|x: Vec<char>| x@));
    out
}

// ---------------------------------------------------------------------------
// Stage 7: the horizontal rule.
// ---------------------------------------------------------------------------

/// The text with every line holding exactly `----` replaced by a decorative
/// divider block: a non-breaking space, a centered `***`, and another
/// non-breaking space, each on a paragraph of its own.
pub open spec fn breaks_text(s: Seq<char>) -> Seq<char> {
    replace_all_text(
        s,
        "\n----\n"@,
        "\n\n&nbsp;\n\n<div class=\"center\">***</div>\n\n&nbsp;\n\n"@,
    )
}

/// Replaces every line holding exactly `----` by the decorative divider
/// block.
pub fn replace_breaks(text: &str) -> (r: String)
    ensures
        r@ == breaks_text(text@),
{
    let v = str_chars(text);
    let out = breaks_chars(&v);
    chars_string(&out)
}

fn breaks_chars(v: &Vec<char>) -> (r: Vec<char>)
    ensures
        r@ == breaks_text(v@),
{
    proof {
        reveal_strlit("\n----\n");
    }
    let pat = str_chars("\n----\n");
    let rep = str_chars("\n\n&nbsp;\n\n<div class=\"center\">***</div>\n\n&nbsp;\n\n");
    replace_all(v, &pat, &rep)
}

// ---------------------------------------------------------------------------
// Laws of the quote stages.
// ---------------------------------------------------------------------------

/// The in-tag state after a whole text, starting from `t`.
pub open spec fn tag_state(s: Seq<char>, t: bool) -> bool
    decreases s.len(),
{
    if s.len() == 0 {
        t
    } else {
        tag_state(s.skip(1), tag_upd(t, s[0]))
    }
}

/// Whether every straight double quote of the text is met while the in-tag
/// state is on: scanning from state `t`, a `"` may only occur inside a tag.
pub open spec fn quotes_ok(s: Seq<char>, t: bool) -> bool
    decreases s.len(),
{
    if s.len() == 0 {
        true
    } else {
        (s[0] == '"' ==> t) && quotes_ok(s.skip(1), tag_upd(t, s[0]))
    }
}

/// The characters of the text that stand within HTML tags, in order: each
/// character met while the in-tag state is on, and each `>` that closes a
/// tag.
pub open spec fn tag_chars(s: Seq<char>, t: bool) -> Seq<char>
    decreases s.len(),
{
    if s.len() == 0 {
        Seq::empty()
    } else {
        let t2 = tag_upd(t, s[0]);
        if t2 || (t && s[0] == '>') {
            seq![s[0]] + tag_chars(s.skip(1), t2)
        } else {
            tag_chars(s.skip(1), t2)
        }
    }
}

/// Whether no double quote inside an HTML tag is immediately followed by a
/// punctuation mark — the condition under which the punctuation reflow
/// leaves tag spans alone.
pub open spec fn tags_clean(s: Seq<char>, t: bool) -> bool
    decreases s.len(),
{
    if s.len() == 0 {
        true
    } else {
        let t2 = tag_upd(t, s[0]);
        &&& (t2 && is_dq(s[0]) && s.len() >= 2 ==> !is_punct_char(s[1]))
        &&& tags_clean(s.skip(1), t2)
    }
}

/// `quotes_ok` of a text with one character in front.
proof fn lemma_quotes_ok_cons(e: char, rest: Seq<char>, t: bool)
    requires
        e == '"' ==> t,
        quotes_ok(rest, tag_upd(t, e)),
    ensures
        quotes_ok(seq![e] + rest, t),
{
    assert((seq![e] + rest)[0] == e);
    assert((seq![e] + rest).skip(1) =~= rest);
}

/// Quote curling never writes a straight double quote outside a tag: its
/// output satisfies `quotes_ok` from the same starting state.
proof fn lemma_curl_quotes_ok(s: Seq<char>, t: bool, q: bool)
    ensures
        quotes_ok(curl_text(s, t, q), t),
    decreases s.len(),
{
    if s.len() == 0 {
    } else {
        let c = s[0];
        let t2 = tag_upd(t, c);
        if t2 {
            lemma_curl_quotes_ok(s.skip(1), t2, q);
            // a straight quote inside a tag is met with the state on, and a
            // quote is not a bracket, so then t == t2
            lemma_quotes_ok_cons(c, curl_text(s.skip(1), t2, q), t);
        } else if c == '\'' {
            lemma_curl_quotes_ok(s.skip(1), t2, q);
            lemma_quotes_ok_cons('\u{2019}', curl_text(s.skip(1), t2, q), t);
        } else if is_dq(c) {
            lemma_curl_quotes_ok(s.skip(1), t2, !q);
            let e = if !q {
                '\u{201c}'
            } else {
                '\u{201d}'
            };
            lemma_quotes_ok_cons(e, curl_text(s.skip(1), t2, !q), t);
        } else {
            lemma_curl_quotes_ok(s.skip(1), t2, q);
            lemma_quotes_ok_cons(c, curl_text(s.skip(1), t2, q), t);
        }
    }
}

/// The punctuation reflow keeps `quotes_ok`: it moves no quote, and moves
/// punctuation across no bracket.
proof fn lemma_fixp_quotes_ok(s: Seq<char>, q: bool, t: bool)
    requires
        quotes_ok(s, t),
    ensures
        quotes_ok(fixp_text(s, q), t),
    decreases s.len(),
{
    if s.len() == 0 {
    } else {
        let c = s[0];
        if c == '<' || c == '>' {
            lemma_fixp_quotes_ok(s.skip(1), q, tag_upd(t, c));
            lemma_quotes_ok_cons(c, fixp_text(s.skip(1), q), t);
        } else if is_dq(c) {
            let q2 = !q;
            if !q2 && s.len() >= 2 && is_punct_char(s[1]) {
                let p = s[1];
                assert(s.skip(1)[0] == p);
                assert(s.skip(1).skip(1) =~= s.skip(2));
                // a punctuation mark and a double quote are no brackets, so
                // the state is t throughout
                assert(tag_upd(t, c) == t);
                assert(quotes_ok(s.skip(1), t));
                assert(tag_upd(t, p) == t);
                assert(quotes_ok(s.skip(1).skip(1), t));
                assert(quotes_ok(s.skip(2), t));
                lemma_fixp_quotes_ok(s.skip(2), q2, t);
                lemma_quotes_ok_cons(c, fixp_text(s.skip(2), q2), t);
                lemma_quotes_ok_cons(p, seq![c] + fixp_text(s.skip(2), q2), t);
                assert(seq![p] + (seq![c] + fixp_text(s.skip(2), q2)) =~= seq![p, c] + fixp_text(
                    s.skip(2),
                    q2,
                ));
            } else {
                lemma_fixp_quotes_ok(s.skip(1), q2, t);
                lemma_quotes_ok_cons(c, fixp_text(s.skip(1), q2), t);
            }
        } else {
            lemma_fixp_quotes_ok(s.skip(1), q, t);
            lemma_quotes_ok_cons(c, fixp_text(s.skip(1), q), t);
        }
    }
}

/// From `quotes_ok`, the positional reading: where a straight double quote
/// stands, the in-tag state over the text before it is on.
proof fn lemma_quotes_ok_at(s: Seq<char>, t: bool, i: int)
    requires
        quotes_ok(s, t),
        0 <= i < s.len(),
        s[i] == '"',
    ensures
        tag_state(s.take(i), t),
    decreases i,
{
    if i == 0 {
        assert(s.take(0) =~= Seq::<char>::empty());
    } else {
        assert(s.skip(1)[i - 1] == s[i]);
        lemma_quotes_ok_at(s.skip(1), tag_upd(t, s[0]), i - 1);
        assert(s.take(i)[0] == s[0]);
        assert(s.take(i).skip(1) =~= s.skip(1).take(i - 1));
    }
}

/// Law: after quote curling and punctuation reflow — whatever the input,
/// balanced or not — every straight double quote of the result stands
/// inside an HTML tag: the in-tag state over the text before it is on.
/// Outside tags only curly quotes remain.
pub proof fn lemma_no_straight_quotes_outside_tags(s: Seq<char>, i: int)
    requires
        0 <= i < fixp_text(curl_text(s, false, false), false).len(),
        fixp_text(curl_text(s, false, false), false)[i] == '"',
    ensures
        tag_state(fixp_text(curl_text(s, false, false), false).take(i), false),
{
    lemma_curl_quotes_ok(s, false, false);
    lemma_fixp_quotes_ok(curl_text(s, false, false), false, false);
    lemma_quotes_ok_at(fixp_text(curl_text(s, false, false), false), false, i);
}

/// `tag_chars` of a text with one character in front.
proof fn lemma_tag_chars_cons(e: char, rest: Seq<char>, t: bool)
    ensures
        tag_chars(seq![e] + rest, t) == if tag_upd(t, e) || (t && e == '>') {
            seq![e] + tag_chars(rest, tag_upd(t, e))
        } else {
            tag_chars(rest, tag_upd(t, e))
        },
{
    assert((seq![e] + rest)[0] == e);
    assert((seq![e] + rest).skip(1) =~= rest);
}

/// Curling changes no text inside tags: the in-tag characters of its output
/// are those of its input.
proof fn lemma_curl_tag_chars(s: Seq<char>, t: bool, q: bool)
    ensures
        tag_chars(curl_text(s, t, q), t) == tag_chars(s, t),
    decreases s.len(),
{
    if s.len() == 0 {
    } else {
        let c = s[0];
        let t2 = tag_upd(t, c);
        if t2 {
            lemma_curl_tag_chars(s.skip(1), t2, q);
            lemma_tag_chars_cons(c, curl_text(s.skip(1), t2, q), t);
        } else if c == '\'' {
            lemma_curl_tag_chars(s.skip(1), t2, q);
            lemma_tag_chars_cons('\u{2019}', curl_text(s.skip(1), t2, q), t);
            // outside a tag, neither the quote nor its replacement is kept
        } else if is_dq(c) {
            lemma_curl_tag_chars(s.skip(1), t2, !q);
            let e = if !q {
                '\u{201c}'
            } else {
                '\u{201d}'
            };
            lemma_tag_chars_cons(e, curl_text(s.skip(1), t2, !q), t);
        } else {
            lemma_curl_tag_chars(s.skip(1), t2, q);
            lemma_tag_chars_cons(c, curl_text(s.skip(1), t2, q), t);
        }
    }
}

/// The length of the curled text is the length of its input, and where its
/// first character is a punctuation mark, it is the input's own.
proof fn lemma_curl_head(s: Seq<char>, t: bool, q: bool)
    ensures
        curl_text(s, t, q).len() == s.len(),
        s.len() > 0 ==> (is_punct_char(curl_text(s, t, q)[0]) == is_punct_char(s[0])),
    decreases s.len(),
{
    if s.len() > 0 {
        let c = s[0];
        let t2 = tag_upd(t, c);
        if t2 {
            lemma_curl_head(s.skip(1), t2, q);
        } else if c == '\'' {
            lemma_curl_head(s.skip(1), t2, q);
        } else if is_dq(c) {
            lemma_curl_head(s.skip(1), t2, !q);
        } else {
            lemma_curl_head(s.skip(1), t2, q);
        }
    }
}

/// Curling keeps the tags clean: where no in-tag double quote of the input
/// is followed by punctuation, none of the output's is either.
proof fn lemma_curl_tags_clean(s: Seq<char>, t: bool, q: bool)
    requires
        tags_clean(s, t),
    ensures
        tags_clean(curl_text(s, t, q), t),
    decreases s.len(),
{
    if s.len() == 0 {
    } else {
        let c = s[0];
        let t2 = tag_upd(t, c);
        let rest = s.skip(1);
        if t2 {
            lemma_curl_tags_clean(rest, t2, q);
            let out = seq![c] + curl_text(rest, t2, q);
            assert(out[0] == c);
            assert(out.skip(1) =~= curl_text(rest, t2, q));
            assert(tags_clean(out, t)) by {
                if t2 && is_dq(c) && out.len() >= 2 {
                    lemma_curl_head(rest, t2, q);
                    assert(out[1] == curl_text(rest, t2, q)[0]);
                    assert(rest[0] == s[1]);
                    assert(!is_punct_char(s[1]));
                }
            }
        } else if c == '\'' {
            lemma_curl_tags_clean(rest, t2, q);
            let out = seq!['\u{2019}'] + curl_text(rest, t2, q);
            assert(out[0] == '\u{2019}');
            assert(out.skip(1) =~= curl_text(rest, t2, q));
        } else if is_dq(c) {
            lemma_curl_tags_clean(rest, t2, !q);
            let e = if !q {
                '\u{201c}'
            } else {
                '\u{201d}'
            };
            let out = seq![e] + curl_text(rest, t2, !q);
            assert(out[0] == e);
            assert(out.skip(1) =~= curl_text(rest, t2, !q));
            // here the state is off: a double quote inside a tag takes the
            // unchanged branch above
        } else {
            lemma_curl_tags_clean(rest, t2, q);
            let out = seq![c] + curl_text(rest, t2, q);
            assert(out[0] == c);
            assert(out.skip(1) =~= curl_text(rest, t2, q));
        }
    }
}

/// On a text whose tags are clean, the punctuation reflow changes no text
/// inside tags: the in-tag characters of its output are those of its input.
proof fn lemma_fixp_tag_chars(s: Seq<char>, q: bool, t: bool)
    requires
        tags_clean(s, t),
    ensures
        tag_chars(fixp_text(s, q), t) == tag_chars(s, t),
    decreases s.len(),
{
    if s.len() == 0 {
    } else {
        let c = s[0];
        if c == '<' || c == '>' {
            lemma_fixp_tag_chars(s.skip(1), q, tag_upd(t, c));
            lemma_tag_chars_cons(c, fixp_text(s.skip(1), q), t);
        } else if is_dq(c) {
            let q2 = !q;
            if !q2 && s.len() >= 2 && is_punct_char(s[1]) {
                let p = s[1];
                // the cleanliness rules this out inside a tag
                assert(tag_upd(t, c) == t);
                assert(tag_upd(t, c) && is_dq(s[0]) && s.len() >= 2 ==> !is_punct_char(s[1]));
                assert(!t);
                assert(s.skip(1)[0] == p);
                assert(s.skip(1).skip(1) =~= s.skip(2));
                assert(tags_clean(s.skip(1), t));
                assert(tag_upd(t, p) == t);
                assert(tags_clean(s.skip(1).skip(1), t));
                assert(tags_clean(s.skip(2), t));
                lemma_fixp_tag_chars(s.skip(2), q2, t);
                lemma_tag_chars_cons(c, fixp_text(s.skip(2), q2), t);
                lemma_tag_chars_cons(p, seq![c] + fixp_text(s.skip(2), q2), t);
                assert(seq![p] + (seq![c] + fixp_text(s.skip(2), q2)) =~= seq![p, c] + fixp_text(
                    s.skip(2),
                    q2,
                ));
                // both the quote and the punctuation stand outside tags, so
                // neither is an in-tag character, on either side
                assert(tag_chars(seq![c] + fixp_text(s.skip(2), q2), t) == tag_chars(
                    fixp_text(s.skip(2), q2),
                    t,
                ));
                assert(tag_chars(seq![p, c] + fixp_text(s.skip(2), q2), t) == tag_chars(
                    fixp_text(s.skip(2), q2),
                    t,
                ));
                assert(tag_chars(s, t) == tag_chars(s.skip(1), t));
                assert(tag_chars(s.skip(1), t) == tag_chars(s.skip(1).skip(1), t));
            } else {
                lemma_fixp_tag_chars(s.skip(1), q2, t);
                lemma_tag_chars_cons(c, fixp_text(s.skip(1), q2), t);
            }
        } else {
            lemma_fixp_tag_chars(s.skip(1), q, t);
            lemma_tag_chars_cons(c, fixp_text(s.skip(1), q), t);
        }
    }
}

/// Law: wherever no double quote inside an HTML tag is immediately followed
/// by a punctuation mark, quote curling followed by punctuation reflow
/// leaves the text inside tags exactly as it was: the in-tag characters of
/// the result are, in order, those of the input.
pub proof fn lemma_tag_spans_preserved(s: Seq<char>)
    requires
        tags_clean(s, false),
    ensures
        tag_chars(fixp_text(curl_text(s, false, false), false), false) == tag_chars(s, false),
{
    lemma_curl_tag_chars(s, false, false);
    lemma_curl_tags_clean(s, false, false);
    lemma_fixp_tag_chars(curl_text(s, false, false), false, false);
}

// ---------------------------------------------------------------------------
// The whole pipeline.
// ---------------------------------------------------------------------------

/// The fully normalized text: quote gaps closed, quotes curled, punctuation
/// drawn inside closing quotes, em-dashes tightened, "T-shirt" unified,
/// whitespace collapsed per line, and `----` lines turned into divider
/// blocks, in that order.
pub open spec fn preprocess_text(s: Seq<char>) -> Seq<char> {
    breaks_text(
        collapse_ws_text(
            tshirt_text(
                emdash_text(fixp_text(curl_text(squeeze_text(s), false, false), false), Seq::empty()),
            ),
        ),
    )
}

/// Normalizes raw Markdown text for print-quality typography: closes gaps
/// between quotes and punctuation, curls quotes, draws punctuation inside
/// closing quotes, tightens em-dashes, unifies "T-shirt", collapses
/// whitespace within each line, and turns `----` lines into divider blocks.
pub fn preprocess_markdown(text: &str) -> (r: String)
    ensures
        r@ == preprocess_text(text@),
{
    let v = str_chars(text);
    let squeezed = squeeze_chars(&v);
    let curled = curl_chars(&squeezed);
    let fixed = fixp_chars(&curled);
    let dashed = emdash_chars(&fixed);
    let shirts = tshirt_chars(&dashed);
    let spaced = collapse_ws_chars(&shirts);
    let broken = breaks_chars(&spaced);
    chars_string(&broken)
}

} // verus!
