//! Names and titles: slugs for page file names, titles from Markdown
//! headings, and the stem of a source file path.

use vstd::prelude::*;

use crate::chars::{
    alnum_char, chars_eq, chars_string, is_alnum, lemma_skip_skip, str_chars, subrange_chars,
    trim_start_chars, trim_start_text,
};
use crate::preprocess::{lines_text, split_lines};

verus! {

// ---------------------------------------------------------------------------
// Slugs.
// ---------------------------------------------------------------------------

/// What `str::to_lowercase` turns a text into: its Unicode lowercase. The
/// result depends on the characters alone.
pub uninterp spec fn lower_of(s: Seq<char>) -> Seq<char>;

/// Relies on `str::to_lowercase`: the Unicode lowercase of the text, a
/// function of the characters alone.
#[verifier::external_body]
fn to_lowercase_str(s: &str) -> (r: String)
    ensures
        r@ == lower_of(s@),
{
    s.to_lowercase()
}

/// One character of a slug: an alphanumeric character stands, anything else
/// becomes a hyphen.
pub open spec fn dash_map(c: char) -> char {
    if alnum_char(c) {
        c
    } else {
        '-'
    }
}

/// The text with every non-alphanumeric character turned into a hyphen.
pub open spec fn slug_map(s: Seq<char>) -> Seq<char> {
    s.map_values(|c: char| dash_map(c))
}

/// The text with every run of hyphens shortened to a single hyphen.
pub open spec fn collapse_dashes(s: Seq<char>) -> Seq<char>
    decreases s.len(),
{
    if s.len() == 0 {
        Seq::empty()
    } else if s.len() >= 2 && s[0] == '-' && s[1] == '-' {
        collapse_dashes(s.skip(1))
    } else {
        seq![s[0]] + collapse_dashes(s.skip(1))
    }
}

/// The text without its trailing hyphens.
pub open spec fn trim_trailing_dashes(s: Seq<char>) -> Seq<char>
    decreases s.len(),
{
    if s.len() > 0 && s.last() == '-' {
        trim_trailing_dashes(s.drop_last())
    } else {
        s
    }
}

/// The slug transformation applied after lowercasing: every
/// non-alphanumeric character turned into a hyphen, runs of hyphens
/// shortened to one, trailing hyphens removed.
pub open spec fn sanitize_text(s: Seq<char>) -> Seq<char> {
    trim_trailing_dashes(collapse_dashes(slug_map(s)))
}

/// The slug of a name: its Unicode lowercase, with every run of
/// non-alphanumeric characters shortened to a single hyphen and no hyphen at
/// the end.
pub open spec fn slug_of(s: Seq<char>) -> Seq<char> {
    sanitize_text(lower_of(s))
}

/// Turns a free-text name into a slug fit for a file name or a manifest id:
/// lowercase, with every run of non-alphanumeric characters shortened to a
/// single hyphen and no hyphen at the end.
pub fn sanitize_name(input: &str) -> (r: String)
    ensures
        r@ == slug_of(input@),
{
    let lowered = to_lowercase_str(input);
    let v = str_chars(lowered.as_str());
    let mut mapped: Vec<char> = Vec::new();
    let mut i: usize = 0;
    while i < v.len()
        invariant
            i <= v@.len(),
            mapped@ == v@.take(i as int).map_values(|c: char| dash_map(c)),
        decreases v@.len() - i,
    {
        let c = v[i];
        let mc = if is_alnum(c) {
            c
        } else {
            '-'
        };
        mapped.push(mc);
        assert(v@.take(i + 1 as int).map_values(|c: char| dash_map(c)) =~= v@.take(
            i as int,
        ).map_values(|c: char| dash_map(c)).push(dash_map(v@[i as int])));
        i = i + 1;
    }
    assert(v@.take(v@.len() as int) =~= v@);
    // shorten runs of hyphens
    let mut out: Vec<char> = Vec::new();
    let mut k: usize = 0;
    assert(mapped@.skip(0) =~= mapped@);
    while k < mapped.len()
        invariant
            k <= mapped@.len(),
            collapse_dashes(mapped@) == out@ + collapse_dashes(mapped@.skip(k as int)),
        decreases mapped@.len() - k,
    {
        let ghost suffix = mapped@.skip(k as int);
        assert(suffix[0] == mapped@[k as int]);
        proof {
            if 1 < suffix.len() {
                assert(suffix[1] == mapped@[k + 1]);
            }
            lemma_skip_skip(mapped@, k as int, 1);
        }
        if mapped[k] == '-' && k + 1 < mapped.len() && mapped[k + 1] == '-' {
            // drop this hyphen; the next one stands for the run
        } else {
            out.push(mapped[k]);
            assert(out@ + collapse_dashes(mapped@.skip(k + 1)) =~= out@.drop_last() + (seq![
                suffix[0],
            ] + collapse_dashes(suffix.skip(1))));
        }
        k = k + 1;
    }
    assert(mapped@.skip(mapped@.len() as int) =~= Seq::<char>::empty());
    assert(out@ + Seq::<char>::empty() =~= out@);
    // remove trailing hyphens
    while out.len() > 0 && out[out.len() - 1] == '-'
        invariant
            trim_trailing_dashes(collapse_dashes(mapped@)) == trim_trailing_dashes(out@),
        decreases out@.len(),
    {
        assert(out@.drop_last() =~= out@.take(out@.len() - 1));
        out.pop();
    }
    chars_string(&out)
}

// ---------------------------------------------------------------------------
// The idempotence of the slug.
// ---------------------------------------------------------------------------

/// Every character of a collapsed text occurs in the text it came from, so a
/// character predicate carries over.
proof fn lemma_collapse_chars(s: Seq<char>, p: spec_fn(char) -> bool)
    requires
        forall|i: int| 0 <= i < s.len() ==> p(#[trigger] s[i]),
    ensures
        forall|i: int|
            0 <= i < collapse_dashes(s).len() ==> p(#[trigger] collapse_dashes(s)[i]),
    decreases s.len(),
{
    if s.len() == 0 {
    } else {
        assert forall|k: int| 0 <= k < s.skip(1).len() implies p(#[trigger] s.skip(1)[k]) by {
            assert(s.skip(1)[k] == s[k + 1]);
        }
        lemma_collapse_chars(s.skip(1), p);
        if s.len() >= 2 && s[0] == '-' && s[1] == '-' {
        } else {
            assert(collapse_dashes(s) == seq![s[0]] + collapse_dashes(s.skip(1)));
            assert forall|i: int|
                0 <= i < collapse_dashes(s).len() implies p(
                #[trigger] collapse_dashes(s)[i],
            ) by {
                if i == 0 {
                    assert(collapse_dashes(s)[0] == s[0]);
                    assert(p(s[0]));
                } else {
                    assert(collapse_dashes(s)[i] == collapse_dashes(s.skip(1))[i - 1]);
                }
            }
        }
    }
}

/// A collapsed text keeps its first character.
proof fn lemma_collapse_head(s: Seq<char>)
    requires
        s.len() > 0,
    ensures
        collapse_dashes(s).len() > 0,
        collapse_dashes(s)[0] == s[0],
    decreases s.len(),
{
    if s.len() >= 2 && s[0] == '-' && s[1] == '-' {
        lemma_collapse_head(s.skip(1));
    }
}

/// A collapsed text has no two hyphens side by side.
proof fn lemma_collapse_no_runs(s: Seq<char>)
    ensures
        forall|i: int|
            0 <= i && i + 1 < collapse_dashes(s).len() ==> !(#[trigger] collapse_dashes(s)[i]
                == '-' && collapse_dashes(s)[i + 1] == '-'),
    decreases s.len(),
{
    if s.len() == 0 {
    } else if s.len() >= 2 && s[0] == '-' && s[1] == '-' {
        lemma_collapse_no_runs(s.skip(1));
    } else {
        lemma_collapse_no_runs(s.skip(1));
        let c = collapse_dashes(s);
        assert(c == seq![s[0]] + collapse_dashes(s.skip(1)));
        assert forall|i: int| 0 <= i && i + 1 < c.len() implies !(#[trigger] c[i] == '-' && c[i
            + 1] == '-') by {
            if i == 0 {
                assert(c.len() >= 2);
                assert(collapse_dashes(s.skip(1)).len() >= 1);
                assert(s.skip(1).len() >= 1) by {
                    if s.skip(1).len() == 0 {
                        assert(collapse_dashes(s.skip(1)).len() == 0);
                    }
                }
                lemma_collapse_head(s.skip(1));
                assert((seq![s[0]] + collapse_dashes(s.skip(1)))[1] == collapse_dashes(s.skip(1))[
                0]);
                assert(collapse_dashes(s.skip(1))[0] == s.skip(1)[0]);
                assert(s.skip(1)[0] == s[1]);
                assert(!(s[0] == '-' && s[1] == '-'));
            } else {
                assert((seq![s[0]] + collapse_dashes(s.skip(1)))[i] == collapse_dashes(s.skip(1))[
                i - 1]);
                assert((seq![s[0]] + collapse_dashes(s.skip(1)))[i + 1] == collapse_dashes(
                    s.skip(1),
                )[i]);
            }
        }
    }
}

/// Trimming keeps every character predicate and leaves no trailing hyphen;
/// what it returns is a prefix of its argument.
proof fn lemma_trim_prefix(s: Seq<char>)
    ensures
        trim_trailing_dashes(s).len() <= s.len(),
        forall|i: int|
            0 <= i < trim_trailing_dashes(s).len() ==> #[trigger] trim_trailing_dashes(s)[i]
                == s[i],
        trim_trailing_dashes(s).len() > 0 ==> trim_trailing_dashes(s).last() != '-',
    decreases s.len(),
{
    if s.len() > 0 && s.last() == '-' {
        lemma_trim_prefix(s.drop_last());
    }
}

/// Collapsing a text that has no two hyphens side by side changes nothing.
proof fn lemma_collapse_fixed(s: Seq<char>)
    requires
        forall|i: int| 0 <= i && i + 1 < s.len() ==> !(#[trigger] s[i] == '-' && s[i + 1] == '-'),
    ensures
        collapse_dashes(s) == s,
    decreases s.len(),
{
    if s.len() == 0 {
        assert(collapse_dashes(s) =~= s);
    } else {
        assert(!(s.len() >= 2 && s[0] == '-' && s[1] == '-')) by {
            if s.len() >= 2 {
                assert(!(s[0int] == '-' && s[0int + 1] == '-'));
            }
        }
        assert forall|i: int| 0 <= i && i + 1 < s.skip(1).len() implies !(#[trigger] s.skip(1)[i]
            == '-' && s.skip(1)[i + 1] == '-') by {
            assert(s.skip(1)[i] == s[i + 1]);
            assert(s.skip(1)[i + 1] == s[i + 2]);
            assert(!(s[i + 1] == '-' && s[i + 1 + 1] == '-'));
        }
        lemma_collapse_fixed(s.skip(1));
        assert(seq![s[0]] + s.skip(1) =~= s);
    }
}

/// The slug transformation is idempotent: applied to its own output it
/// changes nothing.
///
/// Law: `sanitize_name` run on its own output gives that output back. The
/// transformation after lowercasing is proved idempotent here for every
/// text; a second run of the whole function additionally lowercases the
/// slug once more, and the standard library's case mapping leaves its own
/// output unchanged — a property of `str::to_lowercase` that is exercised
/// by the tests but not assumed of the trusted name.
pub proof fn lemma_sanitize_idempotent(s: Seq<char>)
    ensures
        sanitize_text(sanitize_text(s)) == sanitize_text(s),
{
    let mapped = slug_map(s);
    let collapsed = collapse_dashes(mapped);
    let t = sanitize_text(s);
    // every character of the slug is a hyphen or an alphanumeric character
    let p = |c: char| c == '-' || alnum_char(c);
    assert forall|i: int| 0 <= i < mapped.len() implies p(#[trigger] mapped[i]) by {
        assert(mapped[i] == dash_map(s[i]));
    }
    lemma_collapse_chars(mapped, p);
    lemma_trim_prefix(collapsed);
    assert forall|i: int| 0 <= i < t.len() implies p(#[trigger] t[i]) by {
        assert(trim_trailing_dashes(collapsed)[i] == collapsed[i]);
        assert(p(collapse_dashes(mapped)[i]));
    }
    // so the character map leaves the slug alone
    assert(slug_map(t) =~= t) by {
        assert forall|i: int| 0 <= i < t.len() implies slug_map(t)[i] == t[i] by {
            assert(p(t[i]));
            assert(slug_map(t)[i] == dash_map(t[i]));
        }
    }
    // the slug has no two hyphens side by side, so collapsing changes nothing
    lemma_collapse_no_runs(mapped);
    assert forall|i: int| 0 <= i && i + 1 < t.len() implies !(#[trigger] t[i] == '-' && t[i + 1]
        == '-') by {
        assert(trim_trailing_dashes(collapsed)[i] == collapsed[i]);
        assert(trim_trailing_dashes(collapsed)[i + 1] == collapsed[i + 1]);
        assert(t[i] == collapsed[i]);
        assert(t[i + 1] == collapsed[i + 1]);
    }
    lemma_collapse_fixed(t);
    // the slug has no trailing hyphen, so trimming changes nothing
    assert(trim_trailing_dashes(t) == t);
}

// ---------------------------------------------------------------------------
// Titles from headings.
// ---------------------------------------------------------------------------

/// The length of the run of `#` characters at the start of the line.
pub open spec fn hash_run(s: Seq<char>) -> nat
    decreases s.len(),
{
    if s.len() > 0 && s[0] == '#' {
        1 + hash_run(s.skip(1))
    } else {
        0
    }
}

/// Whether the line starts a second-level (or deeper) heading: its first two
/// characters are `#`.
pub open spec fn heading_line(l: Seq<char>) -> bool {
    l.len() >= 2 && l[0] == '#' && l[1] == '#'
}

/// The title a heading line carries: the line without its leading `#` run
/// and without the whitespace after it.
pub open spec fn title_of_line(l: Seq<char>) -> Seq<char>
    recommends
        hash_run(l) <= l.len(),
{
    trim_start_text(l.skip(hash_run(l) as int))
}

/// The title of the first heading line among the given lines; empty if
/// there is none.
pub open spec fn title_of_lines(ls: Seq<Seq<char>>) -> Seq<char>
    decreases ls.len(),
{
    if ls.len() == 0 {
        Seq::empty()
    } else if heading_line(ls[0]) {
        title_of_line(ls[0])
    } else {
        title_of_lines(ls.skip(1))
    }
}

/// The title of the first heading line of the text; empty if there is none.
pub open spec fn extract_title_text(s: Seq<char>) -> Seq<char> {
    title_of_lines(lines_text(s))
}

/// The length of the run of `#` characters at the start of `l`.
fn hash_run_at(l: &Vec<char>) -> (h: usize)
    ensures
        h == hash_run(l@),
        h <= l@.len(),
{
    let mut j: usize = 0;
    assert(l@.skip(0) =~= l@);
    while j < l.len() && l[j] == '#'
        invariant
            j <= l@.len(),
            hash_run(l@) == j + hash_run(l@.skip(j as int)),
        decreases l@.len() - j,
    {
        assert(l@.skip(j as int)[0] == l@[j as int]);
        proof {
            lemma_skip_skip(l@, j as int, 1);
        }
        j = j + 1;
    }
    proof {
        if j < l.len() {
            assert(l@.skip(j as int)[0] == l@[j as int]);
        }
        assert(hash_run(l@.skip(j as int)) == 0);
    }
    j
}

/// The title of the page: taken from the first line of the Markdown text
/// that begins with `##`, without the leading `#` run and the whitespace
/// after it; the empty string if no line begins with `##`.
pub fn extract_title(markdown_content: &str) -> (r: String)
    ensures
        r@ == extract_title_text(markdown_content@),
{
    let v = str_chars(markdown_content);
    let lines = split_lines(&v);
    let ghost ls = lines@.map_values(|x: Vec<char>| x@);
    let mut k: usize = 0;
    assert(ls.skip(0) =~= ls);
    while k < lines.len()
        invariant
            k <= ls.len(),
            ls == lines@.map_values(|x: Vec<char>| x@),
            ls == lines_text(v@),
            v@ == markdown_content@,
            ls.len() == lines@.len(),
            title_of_lines(ls) == title_of_lines(ls.skip(k as int)),
        decreases ls.len() - k,
    {
        assert(ls[k as int] == lines@[k as int]@);
        assert(ls.skip(k as int)[0] == ls[k as int]);
        let l = &lines[k];
        if l.len() >= 2 && l[0] == '#' && l[1] == '#' {
            assert(heading_line(ls[k as int]));
            let h = hash_run_at(l);
            let rest = subrange_chars(l, h, l.len());
            assert(rest@ =~= l@.skip(h as int));
            let trimmed = trim_start_chars(&rest);
            assert(trimmed@ == title_of_line(ls[k as int]));
            return chars_string(&trimmed);
        }
        assert(!heading_line(ls[k as int]));
        proof {
            lemma_skip_skip(ls, k as int, 1);
        }
        k = k + 1;
    }
    assert(ls.skip(ls.len() as int) =~= Seq::<Seq<char>>::empty());
    String::new()
}

// ---------------------------------------------------------------------------
// The stem of a source file path.
// ---------------------------------------------------------------------------

/// The position of the first `/` in the text, or its length if there is
/// none.
pub open spec fn first_sep(s: Seq<char>) -> nat
    decreases s.len(),
{
    if s.len() == 0 {
        0
    } else if s[0] == '/' {
        0
    } else {
        1 + first_sep(s.skip(1))
    }
}

pub proof fn lemma_first_sep_le(s: Seq<char>)
    ensures
        first_sep(s) <= s.len(),
    decreases s.len(),
{
    if s.len() > 0 && s[0] != '/' {
        lemma_first_sep_le(s.skip(1));
    }
}

/// The final component of a path: the text after its last `/`, or the whole
/// text if it has none.
pub open spec fn base_name(s: Seq<char>) -> Seq<char>
    decreases s.len(),
{
    let n = first_sep(s) as int;
    if n == s.len() {
        s
    } else {
        proof {
            lemma_first_sep_le(s);
        }
        base_name(s.skip(n + 1))
    }
}

/// Where the extension of a file name begins: the position of the last `.`
/// that does not stand first, or -1 if there is none.
pub open spec fn stem_cut(s: Seq<char>) -> int
    decreases s.len(),
{
    if s.len() <= 1 {
        -1
    } else if s.last() == '.' {
        s.len() - 1
    } else {
        stem_cut(s.drop_last())
    }
}

/// The stem of a path: its final component without the extension. A final
/// component that is empty, `.` or `..` has no stem, and a name whose only
/// `.` stands first is its own stem.
pub open spec fn file_stem_text(s: Seq<char>) -> Seq<char> {
    let base = base_name(s);
    if base.len() == 0 || base == seq!['.'] || base == seq!['.', '.'] {
        Seq::empty()
    } else if stem_cut(base) >= 0 {
        base.take(stem_cut(base))
    } else {
        base
    }
}

proof fn lemma_stem_cut_range(s: Seq<char>)
    ensures
        -1 <= stem_cut(s) < s.len(),
    decreases s.len(),
{
    if s.len() > 1 && s.last() != '.' {
        lemma_stem_cut_range(s.drop_last());
    }
}

/// If `s[j]` is the last `/` of `s`, the base name is everything after it.
proof fn lemma_base_after_sep(s: Seq<char>, j: int)
    requires
        0 <= j < s.len(),
        s[j] == '/',
        forall|k: int| j < k < s.len() ==> s[k] != '/',
    ensures
        base_name(s) == s.skip(j + 1),
    decreases s.len(),
{
    lemma_first_sep_le(s);
    lemma_first_sep_at(s);
    let n = first_sep(s) as int;
    assert(n < s.len()) by {
        if n == s.len() {
            assert(s[j] != '/');
        }
    }
    if n == j {
        lemma_base_no_sep(s.skip(j + 1));
    } else {
        assert(n < j) by {
            if n > j {
                assert(s[n] == '/');
            }
        }
        assert forall|k: int| (j - n - 1) < k < s.skip(n + 1).len() implies #[trigger] s.skip(
            n + 1,
        )[k] != '/' by {
            assert(s.skip(n + 1)[k] == s[k + n + 1]);
        }
        assert(s.skip(n + 1)[j - n - 1] == s[j]);
        lemma_base_after_sep(s.skip(n + 1), j - n - 1);
        assert(s.skip(n + 1).skip(j - n) =~= s.skip(j + 1));
    }
}

/// A text without `/` is its own base name.
proof fn lemma_base_no_sep(s: Seq<char>)
    requires
        forall|k: int| 0 <= k < s.len() ==> s[k] != '/',
    ensures
        base_name(s) == s,
    decreases s.len(),
{
    lemma_first_sep_none(s);
}

/// With no `/` in the text, `first_sep` is the whole length.
proof fn lemma_first_sep_none(s: Seq<char>)
    requires
        forall|k: int| 0 <= k < s.len() ==> s[k] != '/',
    ensures
        first_sep(s) == s.len(),
    decreases s.len(),
{
    if s.len() > 0 {
        assert(s[0] != '/');
        assert forall|k: int| 0 <= k < s.skip(1).len() implies s.skip(1)[k] != '/' by {
            assert(s.skip(1)[k] == s[k + 1]);
        }
        lemma_first_sep_none(s.skip(1));
    }
}

/// `first_sep` points at a `/` when there is one, and nothing before it is
/// a `/`.
proof fn lemma_first_sep_at(s: Seq<char>)
    ensures
        first_sep(s) < s.len() ==> s[first_sep(s) as int] == '/',
        forall|k: int| 0 <= k < first_sep(s) ==> s[k] != '/',
    decreases s.len(),
{
    if s.len() > 0 && s[0] != '/' {
        lemma_first_sep_le(s);
        lemma_first_sep_le(s.skip(1));
        lemma_first_sep_at(s.skip(1));
        assert forall|k: int| 0 <= k < first_sep(s) implies s[k] != '/' by {
            if k > 0 {
                assert(s.skip(1)[k - 1] == s[k]);
            }
        }
        if first_sep(s) < s.len() {
            assert(s.skip(1)[first_sep(s) - 1] == s[first_sep(s) as int]);
        }
    }
}

/// The name a page takes from its source file: the final component of the
/// path without the extension.
pub fn get_file_name(source: &str) -> (r: String)
    ensures
        r@ == file_stem_text(source@),
{
    let v = str_chars(source);
    // the start of the final component: one past the last '/'
    let mut b: usize = v.len();
    while b > 0 && v[b - 1] != '/'
        invariant
            b <= v@.len(),
            forall|k: int| b <= k < v@.len() ==> v@[k] != '/',
        decreases b,
    {
        b = b - 1;
    }
    let base = subrange_chars(&v, b, v.len());
    proof {
        if b > 0 {
            assert(v@[b - 1] == '/');
            lemma_base_after_sep(v@, b - 1);
            assert(base@ =~= v@.skip(b as int));
        } else {
            lemma_base_no_sep(v@);
            assert(base@ =~= v@);
        }
    }
    // the empty, `.` and `..` components have no stem
    proof {
        reveal_strlit(".");
        reveal_strlit("..");
    }
    let dot = str_chars(".");
    let dotdot = str_chars("..");
    assert(dot@ =~= seq!['.']);
    assert(dotdot@ =~= seq!['.', '.']);
    if base.len() == 0 || chars_eq(&base, &dot) || chars_eq(&base, &dotdot) {
        return String::new();
    }
    // cut the extension: scan backwards for a '.' that does not stand first
    let mut j: usize = base.len();
    assert(base@.take(base@.len() as int) =~= base@);
    while j > 1 && base[j - 1] != '.'
        invariant
            j <= base@.len(),
            stem_cut(base@) == stem_cut(base@.take(j as int)),
        decreases j,
    {
        assert(base@.take(j as int).last() == base@[j - 1]);
        assert(base@.take(j as int).drop_last() =~= base@.take(j - 1));
        j = j - 1;
    }
    proof {
        lemma_stem_cut_range(base@);
    }
    if j > 1 {
        assert(base@.take(j as int).last() == base@[j - 1]);
        assert(stem_cut(base@) == j - 1);
        let stem = subrange_chars(&base, 0, j - 1);
        assert(stem@ =~= base@.take(j - 1));
        chars_string(&stem)
    } else {
        assert(stem_cut(base@.take(j as int)) == -1) by {
            if j == 1 {
                assert(base@.take(1int).len() == 1);
            } else {
                assert(base@.take(0int).len() == 0);
            }
        }
        chars_string(&base)
    }
}

} // verus!
