//! Finding direct dependencies of a Cargo manifest that no source file uses.
//!
//! A dependency `foo-bar` counts as used where some file holds `use foo_bar`
//! or `foo_bar::`. Matches are counted twice: in the file with its comments
//! removed and in the file as it is; a dependency with no match in code is a
//! removal candidate, of high confidence where it has no match at all.
use vstd::prelude::*;

use crate::error::ToolError;
use crate::matching::{
    regex_compiles, regex_escape, regex_escaped, regex_match_count, Matcher,
};
use crate::text::{
    chars_of, decimal, lemma_line_end_bounds, line_end, line_end_from, slice_chars, dashes_to_underscores, ends_with_chars, ends_with_seq, join, join_chars,
    push_decimal, replace_dashes, str_views, string_of, views,
};

verus! {

/// The name of the manifest table whose keys are the direct dependencies.
pub const DEPENDENCIES_TABLE: &'static str = "dependencies";

/// Whether `toml_edit` parses `raw` as a TOML document
/// (`str::parse::<DocumentMut>`).
pub uninterp spec fn toml_parses(raw: Seq<char>) -> bool;

/// The keys, in document order, of the value at the top-level key `table` of
/// the TOML document `raw`, where that value is a (non-inline) table, as
/// `Table::get`, `Item::as_table` and `Table::iter` give them; `None` where the
/// key is absent or its value is not such a table.
pub uninterp spec fn toml_table_keys(raw: Seq<char>, table: Seq<char>) -> Option<Seq<Seq<char>>>;

/// Trusted: parses `raw` with `toml_edit` (`str::parse::<DocumentMut>`),
/// looks up `table` (`Table::get`, `Item::as_table`) and lists the keys
/// (`Table::iter`), handing back each `Option` as it comes. Claims that the
/// result is what `toml_parses` and `toml_table_keys` name, and that a
/// table's keys are distinct (a `Table` keeps its items in an `IndexMap`).
#[verifier::external_body]
fn toml_keys(raw: &str, table: &str) -> (r: Result<Option<Vec<String>>, toml_edit::TomlError>)
    ensures
        match r {
            Ok(keys) => {
                &&& toml_parses(raw@)
                &&& match keys {
                    Some(k) => toml_table_keys(raw@, table@) == Some(str_views(k@)),
                    None => toml_table_keys(raw@, table@) is None,
                }
                &&& toml_table_keys(raw@, table@) matches Some(k) ==> k.no_duplicates()
            },
            Err(_) => !toml_parses(raw@),
        },
{
    let doc: toml_edit::DocumentMut = match raw.parse() {
        Ok(d) => d,
        Err(e) => return Err(e),
    };
    let found = doc.get(table).and_then(toml_edit::Item::as_table);
    Ok(found.map(|t| t.iter().map(|(k, _)| k.to_string()).collect()))
}

/// The direct dependencies that the manifest `raw` names: the keys of its
/// top-level `[dependencies]` table, in order, or none where it has no such
/// table (no key `dependencies`, or a value that is not a table).
pub open spec fn dependency_names(raw: Seq<char>) -> Seq<Seq<char>> {
    match toml_table_keys(raw, DEPENDENCIES_TABLE@) {
        Some(k) => k,
        None => Seq::empty(),
    }
}

/// The names under `[dependencies]` in the manifest text `manifest`, in order
/// and each once; `[dev-dependencies]` and other tables are not read, and a
/// manifest without a `[dependencies]` table has none.
pub fn extract_deps(manifest: &str) -> (r: Result<Vec<String>, ToolError>)
    ensures
        match r {
            Ok(deps) => {
                &&& toml_parses(manifest@)
                &&& str_views(deps@) == dependency_names(manifest@)
                &&& str_views(deps@).no_duplicates()
            },
            Err(e) => !toml_parses(manifest@) && e is Manifest,
        },
{
    match toml_keys(manifest, DEPENDENCIES_TABLE) {
        Ok(Some(keys)) => Ok(keys),
        Ok(None) => {
            let none: Vec<String> = Vec::new();
            assert(str_views(none@) =~= Seq::<Seq<char>>::empty());
            Ok(none)
        },
        Err(e) => Err(ToolError::Manifest(e)),
    }
}

/// Whether `name` is the name of a Rust source file: it has the extension
/// `rs`, that is it ends in `.rs` after at least one other character (as
/// `Path::extension` reads a file name; `.rs` alone has no extension).
pub open spec fn is_rust_source_spec(name: Seq<char>) -> bool {
    ends_with_seq(name, ".rs"@) && name.len() > ".rs"@.len()
}

/// Whether the file called `name` is scanned as Rust source.
pub fn is_rust_source_name(name: &str) -> (b: bool)
    ensures
        b == is_rust_source_spec(name@),
{
    let n = chars_of(name);
    let ext = chars_of(".rs");
    ends_with_chars(&n, &ext) && n.len() > ext.len()
}

/// `s` holds `a` then `b` at index `i`.
pub open spec fn pair_at(s: Seq<char>, i: int, a: char, b: char) -> bool {
    0 <= i && i + 1 < s.len() && s[i] == a && s[i + 1] == b
}

/// The index of the first `*/` at or after `k`, or `s.len()`.
pub open spec fn block_close(s: Seq<char>, k: int) -> int
    decreases s.len() - k,
{
    if k < 0 || k + 1 >= s.len() {
        s.len() as int
    } else if s[k] == '*' && s[k + 1] == '/' {
        k
    } else {
        block_close(s, k + 1)
    }
}

/// The index of the first `"` at or after `k`, or `s.len()`.
pub open spec fn quote_close(s: Seq<char>, k: int) -> int
    decreases s.len() - k,
{
    if k < 0 || k >= s.len() {
        s.len() as int
    } else if s[k] == '"' {
        k
    } else {
        quote_close(s, k + 1)
    }
}

pub proof fn lemma_block_close_bounds(s: Seq<char>, k: int)
    requires
        0 <= k <= s.len(),
    ensures
        k <= block_close(s, k) <= s.len(),
        block_close(s, k) < s.len() ==> pair_at(s, block_close(s, k), '*', '/'),
    decreases s.len() - k,
{
    if k + 1 < s.len() && !(s[k] == '*' && s[k + 1] == '/') {
        lemma_block_close_bounds(s, k + 1);
    }
}

pub proof fn lemma_quote_close_bounds(s: Seq<char>, k: int)
    requires
        0 <= k <= s.len(),
    ensures
        k <= quote_close(s, k) <= s.len(),
        quote_close(s, k) < s.len() ==> s[quote_close(s, k)] == '"',
        forall|j: int| k <= j < quote_close(s, k) ==> s[j] != '"',
    decreases s.len() - k,
{
    if k < s.len() && s[k] != '"' {
        lemma_quote_close_bounds(s, k + 1);
    }
}

/// `s` from index `i` on with its comments removed, reading it from left to
/// right: a `//` comment goes up to (not including) the end of its line, a
/// `/* */` comment up to the first `*/` after it, and a string literal, from
/// a `"` to the next `"`, is copied whole, so comment markers inside it stay.
/// A `/*` that no `*/` closes, and a `"` that no `"` closes, are ordinary
/// characters.
pub open spec fn strip_from(s: Seq<char>, i: int) -> Seq<char>
    decreases s.len() - i,
{
    if i < 0 || i >= s.len() {
        Seq::empty()
    } else if pair_at(s, i, '/', '/') {
        proof {
            lemma_line_end_bounds(s, i + 1);
        }
        strip_from(s, line_end(s, i + 1))
    } else if pair_at(s, i, '/', '*') && block_close(s, i + 2) < s.len() {
        proof {
            lemma_block_close_bounds(s, i + 2);
        }
        strip_from(s, block_close(s, i + 2) + 2)
    } else if s[i] == '"' && quote_close(s, i + 1) < s.len() {
        proof {
            lemma_quote_close_bounds(s, i + 1);
        }
        s.subrange(i, quote_close(s, i + 1) + 1) + strip_from(s, quote_close(s, i + 1) + 1)
    } else {
        seq![s[i]] + strip_from(s, i + 1)
    }
}

/// `src` with its comments removed.
pub open spec fn stripped(src: Seq<char>) -> Seq<char> {
    strip_from(src, 0)
}

/// Reading `t` from index `i` on as `strip_from` does, no comment starts.
pub open spec fn no_comment_from(t: Seq<char>, i: int) -> bool
    decreases t.len() - i,
{
    if i < 0 || i >= t.len() {
        true
    } else if pair_at(t, i, '/', '/') {
        false
    } else if pair_at(t, i, '/', '*') && block_close(t, i + 2) < t.len() {
        false
    } else if t[i] == '"' && quote_close(t, i + 1) < t.len() {
        proof {
            lemma_quote_close_bounds(t, i + 1);
        }
        no_comment_from(t, quote_close(t, i + 1) + 1)
    } else {
        no_comment_from(t, i + 1)
    }
}

/// No `a` directly followed by `b` occurs in `s` at or after index `i`.
pub open spec fn no_pair_from(s: Seq<char>, i: int, a: char, b: char) -> bool {
    forall|j: int| i <= j ==> !#[trigger] pair_at(s, j, a, b)
}

/// No `"` occurs in `s` at or after index `i`.
pub open spec fn no_quote_from(s: Seq<char>, i: int) -> bool {
    forall|j: int| i <= j < s.len() ==> #[trigger] s[j] != '"'
}

proof fn lemma_block_close_none(s: Seq<char>, k: int)
    requires
        0 <= k <= s.len(),
        block_close(s, k) == s.len(),
    ensures
        no_pair_from(s, k, '*', '/'),
    decreases s.len() - k,
{
    if k + 1 < s.len() {
        lemma_block_close_none(s, k + 1);
    }
    assert forall|j: int| k <= j implies !#[trigger] pair_at(s, j, '*', '/') by {
        if j > k {
            assert(no_pair_from(s, k + 1, '*', '/') || k + 1 >= s.len());
        }
    }
}

proof fn lemma_block_close_when_none(s: Seq<char>, k: int)
    requires
        0 <= k <= s.len(),
        no_pair_from(s, k, '*', '/'),
    ensures
        block_close(s, k) == s.len(),
    decreases s.len() - k,
{
    if k + 1 < s.len() {
        assert(!pair_at(s, k, '*', '/'));
        lemma_block_close_when_none(s, k + 1);
    }
}

/// Reading past a prefix: positions in `r` are those in `p + r`, moved by `p.len()`.
proof fn lemma_shift(p: Seq<char>, r: Seq<char>, k: int)
    requires
        0 <= k <= r.len(),
    ensures
        line_end(p + r, p.len() + k) == p.len() + line_end(r, k),
        block_close(p + r, p.len() + k) == p.len() + block_close(r, k),
        quote_close(p + r, p.len() + k) == p.len() + quote_close(r, k),
        no_comment_from(p + r, p.len() + k) == no_comment_from(r, k),
    decreases r.len() - k,
{
    let t = p + r;
    let n = p.len() as int;
    if k < r.len() {
        lemma_shift(p, r, k + 1);
        assert(t[n + k] == r[k]);
        if k + 1 < r.len() {
            assert(t[n + k + 1] == r[k + 1]);
            lemma_block_close_bounds(r, k + 2);
        }
        if k + 2 <= r.len() {
            lemma_shift(p, r, k + 2);
        }
        lemma_line_end_bounds(r, k + 1);
        lemma_quote_close_bounds(r, k + 1);
        if pair_at(r, k, '/', '/') {
            lemma_shift(p, r, line_end(r, k + 1));
        }
        if pair_at(r, k, '/', '*') && block_close(r, k + 2) < r.len() {
            lemma_block_close_bounds(r, k + 2);
            lemma_shift(p, r, block_close(r, k + 2) + 2);
        }
        if r[k] == '"' && quote_close(r, k + 1) < r.len() {
            lemma_shift(p, r, quote_close(r, k + 1) + 1);
        }
        assert(pair_at(t, n + k, '/', '/') == pair_at(r, k, '/', '/'));
        assert(pair_at(t, n + k, '/', '*') == pair_at(r, k, '/', '*'));
    }
}

/// Stripping from a character other than `/` begins with that character.
proof fn lemma_strip_first(s: Seq<char>, k: int)
    requires
        0 <= k < s.len(),
        s[k] != '/',
    ensures
        strip_from(s, k).len() > 0,
        strip_from(s, k)[0] == s[k],
{
    if s[k] == '"' && quote_close(s, k + 1) < s.len() {
        lemma_quote_close_bounds(s, k + 1);
    }
}

/// Stripping keeps no `"` where the text has none.
proof fn lemma_strip_no_quote(s: Seq<char>, k: int)
    requires
        0 <= k <= s.len(),
        no_quote_from(s, k),
    ensures
        no_quote_from(strip_from(s, k), 0),
    decreases s.len() - k,
{
    if k < s.len() {
        assert(s[k] != '"');
        if pair_at(s, k, '/', '/') {
            lemma_line_end_bounds(s, k + 1);
            lemma_strip_no_quote(s, line_end(s, k + 1));
        } else if pair_at(s, k, '/', '*') && block_close(s, k + 2) < s.len() {
            lemma_block_close_bounds(s, k + 2);
            lemma_strip_no_quote(s, block_close(s, k + 2) + 2);
        } else {
            lemma_strip_no_quote(s, k + 1);
            let t = strip_from(s, k);
            let r = strip_from(s, k + 1);
            assert forall|j: int| 0 <= j < t.len() implies #[trigger] t[j] != '"' by {
                if j > 0 {
                    assert(t[j] == r[j - 1]);
                }
            }
        }
    }
}

/// Stripping keeps no `*/` where the text has none.
proof fn lemma_strip_no_close(s: Seq<char>, k: int)
    requires
        0 <= k <= s.len(),
        no_pair_from(s, k, '*', '/'),
    ensures
        no_pair_from(strip_from(s, k), 0, '*', '/'),
    decreases s.len() - k,
{
    if k < s.len() {
        if pair_at(s, k, '/', '/') {
            lemma_line_end_bounds(s, k + 1);
            lemma_strip_no_close(s, line_end(s, k + 1));
        } else if pair_at(s, k, '/', '*') && block_close(s, k + 2) < s.len() {
            lemma_block_close_bounds(s, k + 2);
            lemma_strip_no_close(s, block_close(s, k + 2) + 2);
        } else if s[k] == '"' && quote_close(s, k + 1) < s.len() {
            let q = quote_close(s, k + 1);
            lemma_quote_close_bounds(s, k + 1);
            lemma_strip_no_close(s, q + 1);
            let a = s.subrange(k, q + 1);
            let r = strip_from(s, q + 1);
            let t = strip_from(s, k);
            assert(t == a + r);
            assert forall|j: int| 0 <= j implies !#[trigger] pair_at(t, j, '*', '/') by {
                if j + 1 < a.len() {
                    assert(t[j] == s[k + j] && t[j + 1] == s[k + j + 1]);
                    assert(!pair_at(s, k + j, '*', '/'));
                } else if j + 1 == a.len() {
                    assert(t[j] == '"');
                } else if pair_at(t, j, '*', '/') {
                    assert(pair_at(r, j - a.len(), '*', '/'));
                }
            }
        } else {
            lemma_strip_no_close(s, k + 1);
            let t = strip_from(s, k);
            let r = strip_from(s, k + 1);
            assert forall|j: int| 0 <= j implies !#[trigger] pair_at(t, j, '*', '/') by {
                if j == 0 && pair_at(t, 0, '*', '/') {
                    if s[k + 1] != '/' {
                        lemma_strip_first(s, k + 1);
                    }
                    assert(pair_at(s, k, '*', '/'));
                }
                if j > 0 && pair_at(t, j, '*', '/') {
                    assert(pair_at(r, j - 1, '*', '/'));
                }
            }
        }
    }
}

/// What stripping leaves holds no comment.
proof fn lemma_strip_clean(s: Seq<char>, i: int)
    requires
        0 <= i <= s.len(),
    ensures
        no_comment_from(strip_from(s, i), 0),
    decreases s.len() - i,
{
    if i < s.len() {
        if pair_at(s, i, '/', '/') {
            lemma_line_end_bounds(s, i + 1);
            lemma_strip_clean(s, line_end(s, i + 1));
        } else if pair_at(s, i, '/', '*') && block_close(s, i + 2) < s.len() {
            lemma_block_close_bounds(s, i + 2);
            lemma_strip_clean(s, block_close(s, i + 2) + 2);
        } else if s[i] == '"' && quote_close(s, i + 1) < s.len() {
            let q = quote_close(s, i + 1);
            lemma_quote_close_bounds(s, i + 1);
            lemma_strip_clean(s, q + 1);
            let a = s.subrange(i, q + 1);
            let r = strip_from(s, q + 1);
            let t = a + r;
            assert(strip_from(s, i) == t);
            // The literal is read the same way in `t`.
            lemma_shift(a, r, 0);
            let ta = a.subrange(1, a.len() as int);
            assert(t == seq!['"'] + (ta + r));
            lemma_shift(seq!['"'], ta + r, 0);
            lemma_quote_close_bounds(ta + r, 0);
            assert((ta + r)[ta.len() - 1] == '"');
            assert forall|j: int| 0 <= j < ta.len() - 1 implies (ta + r)[j] != '"' by {
                assert((ta + r)[j] == s[i + 1 + j]);
            }
            assert(quote_close(ta + r, 0) == ta.len() - 1);
            assert(quote_close(t, 1) == q - i);
            assert(no_comment_from(t, 0) == no_comment_from(t, a.len() as int));
        } else {
            lemma_strip_clean(s, i + 1);
            let c = s[i];
            let r = strip_from(s, i + 1);
            let t = seq![c] + r;
            assert(strip_from(s, i) == t);
            lemma_shift(seq![c], r, 0);
            // No `//` starts at 0.
            if c == '/' && r.len() > 0 && r[0] == '/' {
                if s[i + 1] != '/' {
                    lemma_strip_first(s, i + 1);
                }
                assert(pair_at(s, i, '/', '/'));
            }
            // No closed `/*` starts at 0.
            if c == '/' && r.len() > 0 && r[0] == '*' {
                if s[i + 1] == '/' {
                    assert(pair_at(s, i, '/', '/'));
                }
                lemma_strip_first(s, i + 1);
                assert(pair_at(s, i, '/', '*'));
                lemma_block_close_bounds(s, i + 2);
                lemma_block_close_none(s, i + 2);
                lemma_strip_no_close(s, i + 2);
                let r2 = strip_from(s, i + 2);
                assert(r == seq![s[i + 1]] + r2);
                assert(t == seq!['/', '*'] + r2);
                lemma_shift(seq!['/', '*'], r2, 0);
                lemma_block_close_when_none(r2, 0);
            }
            // A `"` here closes nowhere in `t`.
            if c == '"' {
                lemma_quote_close_bounds(s, i + 1);
                assert(no_quote_from(s, i + 1));
                lemma_strip_no_quote(s, i + 1);
                lemma_quote_close_bounds(r, 0);
                if r.len() > 0 && quote_close(r, 0) < r.len() {
                    assert(r[quote_close(r, 0)] != '"');
                }
            }
        }
    }
}

/// Text that holds no comment is left as it is.
proof fn lemma_strip_fixpoint(t: Seq<char>, i: int)
    requires
        0 <= i <= t.len(),
        no_comment_from(t, i),
    ensures
        strip_from(t, i) == t.subrange(i, t.len() as int),
    decreases t.len() - i,
{
    if i < t.len() {
        if t[i] == '"' && quote_close(t, i + 1) < t.len() {
            let q = quote_close(t, i + 1);
            lemma_quote_close_bounds(t, i + 1);
            lemma_strip_fixpoint(t, q + 1);
            assert(t.subrange(i, t.len() as int) =~= t.subrange(i, q + 1) + t.subrange(
                q + 1,
                t.len() as int,
            ));
        } else {
            lemma_strip_fixpoint(t, i + 1);
            assert(t.subrange(i, t.len() as int) =~= seq![t[i]] + t.subrange(
                i + 1,
                t.len() as int,
            ));
        }
    } else {
        assert(t.subrange(i, t.len() as int) =~= Seq::<char>::empty());
    }
}

/// Stripping comments leaves no comment behind, for every text: reading the
/// result as stripping reads it, no `//` or closed `/* */` comment starts
/// outside a string literal, so stripping it again changes nothing.
pub proof fn law_stripping_leaves_no_comment(src: Seq<char>)
    ensures
        no_comment_from(stripped(src), 0),
        stripped(stripped(src)) == stripped(src),
{
    lemma_strip_clean(src, 0);
    let t = stripped(src);
    lemma_strip_fixpoint(t, 0);
    assert(t.subrange(0, t.len() as int) =~= t);
}

/// The first `*/` at or after `k`.
fn block_close_from(s: &Vec<char>, k: usize) -> (r: usize)
    requires
        k <= s.len(),
    ensures
        r == block_close(s@, k as int),
{
    let mut j = k;
    while j < s.len() && j + 1 < s.len() && !(s[j] == '*' && s[j + 1] == '/')
        invariant
            k <= j <= s.len(),
            block_close(s@, k as int) == block_close(s@, j as int),
        decreases s.len() - j,
    {
        j += 1;
    }
    if j < s.len() && j + 1 < s.len() {
        j
    } else {
        s.len()
    }
}

/// The first `"` at or after `k`.
fn quote_close_from(s: &Vec<char>, k: usize) -> (r: usize)
    requires
        k <= s.len(),
    ensures
        r == quote_close(s@, k as int),
{
    let mut j = k;
    while j < s.len() && s[j] != '"'
        invariant
            k <= j <= s.len(),
            quote_close(s@, k as int) == quote_close(s@, j as int),
        decreases s.len() - j,
    {
        j += 1;
    }
    j
}

/// Removes `//` and `/* */` comments from `src`, keeping string literals
/// (from a `"` to the next `"`) whole; see `strip_from`.
pub fn strip_comments(src: &str) -> (r: String)
    ensures
        r@ == stripped(src@),
{
    let s = chars_of(src);
    let mut out: Vec<char> = Vec::new();
    let mut i: usize = 0;
    while i < s.len()
        invariant
            i <= s.len(),
            out@ + strip_from(s@, i as int) == strip_from(s@, 0),
        decreases s.len() - i,
    {
        let ghost before = out@;
        if i + 1 < s.len() && s[i] == '/' && s[i + 1] == '/' {
            let e = line_end_from(&s, i + 1);
            proof {
                lemma_line_end_bounds(s@, i + 1);
            }
            i = e;
        } else if i + 1 < s.len() && s[i] == '/' && s[i + 1] == '*' && block_close_from(&s, i + 2)
            < s.len() {
            let c = block_close_from(&s, i + 2);
            proof {
                lemma_block_close_bounds(s@, i + 2);
            }
            i = c + 2;
        } else {
            let next = if s[i] == '"' && quote_close_from(&s, i + 1) < s.len() {
                let q = quote_close_from(&s, i + 1);
                q + 1
            } else {
                i + 1
            };
            proof {
                lemma_quote_close_bounds(s@, i + 1);
            }
            let piece = slice_chars(&s, i, next);
            let mut k: usize = 0;
            while k < piece.len()
                invariant
                    k <= piece.len(),
                    out@ == before + piece@.take(k as int),
                decreases piece.len() - k,
            {
                out.push(piece[k]);
                k += 1;
                assert(piece@.take(k as int) =~= piece@.take(k - 1).push(piece@[k - 1]));
            }
            assert(piece@.take(piece.len() as int) =~= piece@);
            if next == i + 1 {
                assert(piece@ =~= seq![s@[i as int]]);
            }
            i = next;
        }
        assert(out@ + strip_from(s@, i as int) =~= strip_from(s@, 0));
    }
    string_of(&out)
}

/// The pattern that finds `use <dep>` or `<dep>::` for the identifier `dep`.
pub open spec fn use_pattern(dep: Seq<char>) -> Seq<char> {
    "\\buse\\s+"@ + regex_escaped(dep) + "\\b|\\b"@ + regex_escaped(dep) + "\\s*::"@
}

/// Builds `use_pattern(dep)`.
fn use_pattern_of(dep: &str) -> (p: String)
    ensures
        p@ == use_pattern(dep@),
{
    let e = regex_escape(dep);
    let mut p = String::from_str("\\buse\\s+");
    p.append(e.as_str());
    p.append("\\b|\\b");
    p.append(e.as_str());
    p.append("\\s*::");
    p
}

/// Matches of `pattern` in the files `files` with their comments removed.
pub open spec fn code_hits(pattern: Seq<char>, files: Seq<Seq<char>>) -> nat
    decreases files.len(),
{
    if files.len() == 0 {
        0
    } else {
        code_hits(pattern, files.drop_last()) + regex_match_count(pattern, stripped(files.last())) as nat
    }
}

/// Matches of `pattern` in the files `files` as they are.
pub open spec fn all_hits(pattern: Seq<char>, files: Seq<Seq<char>>) -> nat
    decreases files.len(),
{
    if files.len() == 0 {
        0
    } else {
        all_hits(pattern, files.drop_last()) + regex_match_count(pattern, files.last()) as nat
    }
}

proof fn lemma_hits_grow(pattern: Seq<char>, files: Seq<Seq<char>>, k: int)
    requires
        0 <= k <= files.len(),
    ensures
        code_hits(pattern, files.take(k)) <= code_hits(pattern, files),
        all_hits(pattern, files.take(k)) <= all_hits(pattern, files),
    decreases files.len(),
{
    if k < files.len() {
        assert(files.drop_last().take(k) == files.take(k));
        lemma_hits_grow(pattern, files.drop_last(), k);
    } else {
        assert(files.take(k) == files);
    }
}

/// The pattern that searching for `dep` needs compiles.
pub open spec fn search_pattern_compiles(dep: Seq<char>) -> bool {
    regex_compiles(use_pattern(dep))
}

/// Searching for `dep` in `files` succeeds: its patterns compile and both
/// counts fit in a `usize`.
pub open spec fn search_succeeds(dep: Seq<char>, files: Seq<Seq<char>>) -> bool {
    &&& search_pattern_compiles(dep)
    &&& code_hits(use_pattern(dep), files) <= usize::MAX
    &&& all_hits(use_pattern(dep), files) <= usize::MAX
}

/// Counts the uses of the identifier `dep` in the contents `files`: first in
/// the files without their comments, then in the files as they are.
pub fn search_dep(dep: &str, files: &Vec<String>) -> (r: Result<(usize, usize), ToolError>)
    ensures
        match r {
            Ok((clean, total)) => {
                &&& search_succeeds(dep@, str_views(files@))
                &&& clean == code_hits(use_pattern(dep@), str_views(files@))
                &&& total == all_hits(use_pattern(dep@), str_views(files@))
            },
            Err(e) => {
                &&& !search_succeeds(dep@, str_views(files@))
                &&& (e is Pattern <==> !search_pattern_compiles(dep@))
                &&& (e is Pattern || e is Overflow)
            },
        },
{
    let ghost fs = str_views(files@);
    let p = use_pattern_of(dep);
    let m = match Matcher::compile(p.as_str()) {
        Ok(m) => m,
        Err(e) => return Err(ToolError::Pattern(e)),
    };
    let mut clean: usize = 0;
    let mut total: usize = 0;
    let mut i: usize = 0;
    while i < files.len()
        invariant
            fs == str_views(files@),
            m.pattern() == use_pattern(dep@),
            regex_compiles(use_pattern(dep@)),
            i <= files.len(),
            clean == code_hits(use_pattern(dep@), fs.take(i as int)),
            total == all_hits(use_pattern(dep@), fs.take(i as int)),
        decreases files.len() - i,
    {
        let s = strip_comments(files[i].as_str());
        let a = m.count_matches(s.as_str());
        let b = m.count_matches(files[i].as_str());
        assert(fs.take(i + 1).drop_last() == fs.take(i as int));
        assert(fs.take(i + 1).last() == files[i as int]@);
        proof {
            lemma_hits_grow(use_pattern(dep@), fs, i + 1);
        }
        clean = match clean.checked_add(a) {
            Some(c) => c,
            None => return Err(ToolError::Overflow),
        };
        total = match total.checked_add(b) {
            Some(t) => t,
            None => return Err(ToolError::Overflow),
        };
        i += 1;
    }
    assert(fs.take(files.len() as int) == fs);
    Ok((clean, total))
}

/// How sure the audit is that a dependency is unused.
#[derive(Clone, Copy, Debug, PartialEq, Eq, Structural)]
pub enum Confidence {
    /// No match in any file, not even in a comment.
    High,
    /// No match in code, but some inside comments.
    Medium,
}

/// The word that reports print for a confidence.
pub open spec fn confidence_label(c: Confidence) -> Seq<char> {
    match c {
        Confidence::High => "high"@,
        Confidence::Medium => "medium"@,
    }
}

impl Confidence {
    /// `"high"` or `"medium"`.
    pub fn label(&self) -> (s: &'static str)
        ensures
            s@ == confidence_label(*self),
    {
        match self {
            Confidence::High => "high",
            Confidence::Medium => "medium",
        }
    }
}

/// A dependency that looks unused.
pub struct Candidate {
    pub name: String,
    pub confidence: Confidence,
    pub rationale: String,
}

impl View for Candidate {
    type V = (Seq<char>, Confidence, Seq<char>);

    open spec fn view(&self) -> (Seq<char>, Confidence, Seq<char>) {
        (self.name@, self.confidence, self.rationale@)
    }
}

/// The views of the candidates in `cs`.
pub open spec fn candidate_views(cs: Seq<Candidate>) -> Seq<(Seq<char>, Confidence, Seq<char>)> {
    cs.map_values(|c: Candidate| c@)
}

/// What an audit reads: the manifest's name and text, the scanned
/// directories, and the contents of the Rust files found in them.
pub struct AuditRequest {
    pub manifest: String,
    pub manifest_text: String,
    pub src: String,
    pub extra_dirs: Vec<String>,
    pub files: Vec<String>,
}

/// The result of an audit.
pub struct Report {
    pub manifest: String,
    pub scanned_dirs: Vec<String>,
    pub total_deps: usize,
    pub candidates: Vec<Candidate>,
}

/// The rationale of a candidate with no match at all; `dep` is the searched identifier.
pub open spec fn high_rationale(dep: Seq<char>) -> Seq<char> {
    "0 matches in any .rs file (use "@ + dep + "|"@ + dep + "::) \u{2014} strong removal candidate."@
}

/// The rationale of a candidate with `total` matches, all inside comments.
pub open spec fn medium_rationale(total: nat) -> Seq<char> {
    "0 matches in code; "@ + decimal(total)
        + " matches inside comments \u{2014} verify before removing (might be reference in doc-string)."@
}

/// The identifier searched for the dependency `dep`.
pub open spec fn search_name(dep: Seq<char>) -> Seq<char> {
    dashes_to_underscores(dep)
}

/// The dependency `dep` has no match in code.
pub open spec fn is_unused(dep: Seq<char>, files: Seq<Seq<char>>) -> bool {
    code_hits(use_pattern(search_name(dep)), files) == 0
}

/// The candidate entry of an unused dependency `dep` with `total` matches,
/// all inside comments.
pub open spec fn entry_for(dep: Seq<char>, total: nat) -> (Seq<char>, Confidence, Seq<char>) {
    if total == 0 {
        (dep, Confidence::High, high_rationale(search_name(dep)))
    } else {
        (dep, Confidence::Medium, medium_rationale(total))
    }
}

/// The candidate entry of the unused dependency `dep`.
pub open spec fn candidate_of(dep: Seq<char>, files: Seq<Seq<char>>) -> (Seq<char>, Confidence, Seq<char>) {
    entry_for(dep, all_hits(use_pattern(search_name(dep)), files))
}

/// The candidate that the dependency `dep` gives, where its search counted
/// `clean` matches in code and `total` in all: none where some match is in
/// code, else one of high confidence where nothing matched at all and of
/// medium confidence where the matches are all inside comments.
pub fn classify(dep: &str, clean: usize, total: usize) -> (r: Option<Candidate>)
    ensures
        match r {
            Some(c) => clean == 0 && c@ == entry_for(dep@, total as nat),
            None => clean != 0,
        },
{
    if clean != 0 {
        return None;
    }
    let underscore = replace_dashes(dep);
    let (confidence, rationale) = if total == 0 {
        let mut why = String::from_str("0 matches in any .rs file (use ");
        why.append(underscore.as_str());
        why.append("|");
        why.append(underscore.as_str());
        why.append("::) \u{2014} strong removal candidate.");
        (Confidence::High, why)
    } else {
        let mut why = String::from_str("0 matches in code; ");
        push_decimal(&mut why, total as u64);
        why.append(
            " matches inside comments \u{2014} verify before removing (might be reference in doc-string).",
        );
        (Confidence::Medium, why)
    };
    Some(Candidate { name: String::from_str(dep), confidence, rationale })
}

/// The candidates among `deps`, in manifest order.
pub open spec fn candidates_for(deps: Seq<Seq<char>>, files: Seq<Seq<char>>) -> Seq<(Seq<char>, Confidence, Seq<char>)>
    decreases deps.len(),
{
    if deps.len() == 0 {
        Seq::empty()
    } else {
        let prev = candidates_for(deps.drop_last(), files);
        if is_unused(deps.last(), files) {
            prev.push(candidate_of(deps.last(), files))
        } else {
            prev
        }
    }
}

/// Every dependency's search succeeds.
pub open spec fn all_searches_succeed(deps: Seq<Seq<char>>, files: Seq<Seq<char>>) -> bool {
    forall|i: int| 0 <= i < deps.len() ==> search_succeeds(search_name(#[trigger] deps[i]), files)
}

/// The search for `deps[i]` is the first one that fails.
pub open spec fn first_failed_search(deps: Seq<Seq<char>>, files: Seq<Seq<char>>, i: int) -> bool {
    &&& !search_succeeds(search_name(deps[i]), files)
    &&& forall|j: int| 0 <= j < i ==> search_succeeds(search_name(#[trigger] deps[j]), files)
}

/// Audits a manifest against the files of its source tree.
pub fn audit(req: &AuditRequest) -> (r: Result<Report, ToolError>)
    ensures
        match r {
            Ok(rep) => toml_parses(req.manifest_text@) && {
                let deps = dependency_names(req.manifest_text@);
                &&& all_searches_succeed(deps, str_views(req.files@))
                &&& rep.manifest@ == req.manifest@
                &&& str_views(rep.scanned_dirs@) == seq![req.src@] + str_views(req.extra_dirs@)
                &&& rep.total_deps == deps.len()
                &&& candidate_views(rep.candidates@) == candidates_for(deps, str_views(req.files@))
            },
            Err(e) => if !toml_parses(req.manifest_text@) {
                e is Manifest
            } else {
                let deps = dependency_names(req.manifest_text@);
                exists|i: int|
                    0 <= i < deps.len() && first_failed_search(deps, str_views(req.files@), i)
                        && (e is Pattern <==> !search_pattern_compiles(
                        search_name(#[trigger] deps[i]),
                    )) && (e is Pattern || e is Overflow)
            },
        },
{
    let ghost fs = str_views(req.files@);
    let deps = match extract_deps(req.manifest_text.as_str()) {
        Ok(d) => d,
        Err(e) => return Err(e),
    };
    let ghost ds = str_views(deps@);
    let mut candidates: Vec<Candidate> = Vec::new();
    let mut i: usize = 0;
    while i < deps.len()
        invariant
            fs == str_views(req.files@),
            ds == str_views(deps@),
            toml_parses(req.manifest_text@),
            dependency_names(req.manifest_text@) == ds,
            i <= deps.len(),
            forall|j: int| 0 <= j < i ==> search_succeeds(search_name(#[trigger] ds[j]), fs),
            candidate_views(candidates@) == candidates_for(ds.take(i as int), fs),
        decreases deps.len() - i,
    {
        let underscore = replace_dashes(deps[i].as_str());
        let (clean, total) = match search_dep(underscore.as_str(), &req.files) {
            Ok(x) => x,
            Err(e) => {
                assert(underscore@ == search_name(ds[i as int]));
                assert(first_failed_search(ds, fs, i as int));
                return Err(e);
            },
        };
        let ghost prev = candidate_views(candidates@);
        assert(ds.take(i + 1).drop_last() == ds.take(i as int));
        assert(ds.take(i + 1).last() == deps[i as int]@);
        match classify(deps[i].as_str(), clean, total) {
            Some(c) => {
                candidates.push(c);
                assert(candidate_views(candidates@) =~= prev.push(candidate_views(candidates@).last()));
            },
            None => {},
        }
        i += 1;
    }
    assert(ds.take(deps.len() as int) == ds);
    let mut scanned: Vec<String> = Vec::new();
    scanned.push(req.src.clone());
    let mut k: usize = 0;
    while k < req.extra_dirs.len()
        invariant
            k <= req.extra_dirs.len(),
            str_views(scanned@) == seq![req.src@] + str_views(req.extra_dirs@).take(k as int),
        decreases req.extra_dirs.len() - k,
    {
        let ghost before = str_views(scanned@);
        scanned.push(req.extra_dirs[k].clone());
        assert(str_views(scanned@) =~= before.push(req.extra_dirs@[k as int]@));
        k += 1;
        assert(str_views(req.extra_dirs@).take(k as int) =~= str_views(req.extra_dirs@).take(
            k - 1,
        ).push(req.extra_dirs@[k - 1]@));
    }
    assert(str_views(req.extra_dirs@).take(k as int) == str_views(req.extra_dirs@));
    Ok(Report {
        manifest: req.manifest.clone(),
        scanned_dirs: scanned,
        total_deps: deps.len(),
        candidates,
    })
}

/// The lines that the human-readable report prints for the candidates `cs`.
pub open spec fn candidate_lines(cs: Seq<(Seq<char>, Confidence, Seq<char>)>) -> Seq<char>
    decreases cs.len(),
{
    if cs.len() == 0 {
        Seq::empty()
    } else {
        candidate_lines(cs.drop_last()) + "    ["@ + confidence_label(cs.last().1) + "] "@
            + cs.last().0 + "\n        "@ + cs.last().2 + "\n"@
    }
}

/// The human-readable report.
pub open spec fn human_report(
    manifest: Seq<char>,
    scanned: Seq<Seq<char>>,
    total_deps: nat,
    cs: Seq<(Seq<char>, Confidence, Seq<char>)>,
) -> Seq<char> {
    "audit-unused-dep report\n  manifest: "@ + manifest + "\n  scanned:  "@ + join(scanned, ", "@)
        + "\n  total direct deps: "@ + decimal(total_deps) + "\n  candidates: "@ + decimal(
        cs.len(),
    ) + "\n"@ + candidate_lines(cs) + if cs.len() == 0 {
        "  clean \u{2014} no unused-dep candidates found.\n"@
    } else {
        Seq::empty()
    }
}

/// The vectors of characters of the strings in `v`.
fn chars_of_all(v: &Vec<String>) -> (r: Vec<Vec<char>>)
    ensures
        views(r@) == str_views(v@),
{
    let mut r: Vec<Vec<char>> = Vec::new();
    let mut i: usize = 0;
    while i < v.len()
        invariant
            i <= v.len(),
            views(r@) == str_views(v@).take(i as int),
        decreases v.len() - i,
    {
        let ghost before = views(r@);
        r.push(chars_of(v[i].as_str()));
        assert(views(r@) =~= before.push(v@[i as int]@));
        i += 1;
        assert(str_views(v@).take(i as int) =~= str_views(v@).take(i - 1).push(v@[i - 1]@));
    }
    assert(str_views(v@).take(v.len() as int) =~= str_views(v@));
    r
}

/// The report as text for a person to read, one line per fact and two per
/// candidate, each line ending in a newline.
pub fn render_human(r: &Report) -> (s: String)
    ensures
        s@ == human_report(
            r.manifest@,
            str_views(r.scanned_dirs@),
            r.total_deps as nat,
            candidate_views(r.candidates@),
        ),
{
    let mut s = String::from_str("audit-unused-dep report\n  manifest: ");
    s.append(r.manifest.as_str());
    s.append("\n  scanned:  ");
    let dirs = chars_of_all(&r.scanned_dirs);
    let sep = chars_of(", ");
    let joined = join_chars(&dirs, &sep);
    let joined = string_of(&joined);
    s.append(joined.as_str());
    s.append("\n  total direct deps: ");
    push_decimal(&mut s, r.total_deps as u64);
    s.append("\n  candidates: ");
    push_decimal(&mut s, r.candidates.len() as u64);
    s.append("\n");
    let ghost head = s@;
    let mut i: usize = 0;
    while i < r.candidates.len()
        invariant
            i <= r.candidates.len(),
            s@ == head + candidate_lines(candidate_views(r.candidates@).take(i as int)),
        decreases r.candidates.len() - i,
    {
        let c = &r.candidates[i];
        s.append("    [");
        s.append(c.confidence.label());
        s.append("] ");
        s.append(c.name.as_str());
        s.append("\n        ");
        s.append(c.rationale.as_str());
        s.append("\n");
        i += 1;
        let ghost cs = candidate_views(r.candidates@);
        assert(cs.take(i as int).drop_last() =~= cs.take(i - 1));
        assert(cs.take(i as int).last() == r.candidates@[i - 1]@);
    }
    assert(candidate_views(r.candidates@).take(r.candidates.len() as int) =~= candidate_views(
        r.candidates@,
    ));
    if r.candidates.len() == 0 {
        s.append("  clean \u{2014} no unused-dep candidates found.\n");
    }
    s
}

/// The audit's report is exactly the unused dependencies: every candidate
/// is a dependency of the manifest with no match in code, carrying the
/// confidence and rationale of its counts (high exactly where it has no
/// match at all, not even in a comment), and every dependency with no match
/// in code is a candidate.
pub proof fn law_candidates_are_the_unused_deps(deps: Seq<Seq<char>>, files: Seq<Seq<char>>)
    ensures
        candidates_for(deps, files).len() <= deps.len(),
        forall|k: int|
            0 <= k < candidates_for(deps, files).len() ==> {
                let c = #[trigger] candidates_for(deps, files)[k];
                &&& deps.contains(c.0)
                &&& is_unused(c.0, files)
                &&& c == candidate_of(c.0, files)
                &&& (c.1 == Confidence::High <==> all_hits(use_pattern(search_name(c.0)), files)
                    == 0)
            },
        forall|i: int|
            0 <= i < deps.len() && is_unused(#[trigger] deps[i], files) ==> candidates_for(
                deps,
                files,
            ).contains(candidate_of(deps[i], files)),
    decreases deps.len(),
{
    if deps.len() > 0 {
        let prev = deps.drop_last();
        law_candidates_are_the_unused_deps(prev, files);
        let cs = candidates_for(deps, files);
        let pcs = candidates_for(prev, files);
        assert forall|k: int| 0 <= k < cs.len() implies {
            let c = #[trigger] cs[k];
            &&& deps.contains(c.0)
            &&& is_unused(c.0, files)
            &&& c == candidate_of(c.0, files)
            &&& (c.1 == Confidence::High <==> all_hits(use_pattern(search_name(c.0)), files) == 0)
        } by {
            if k < pcs.len() {
                assert(cs[k] == pcs[k]);
                let j = choose|j: int| 0 <= j < prev.len() && prev[j] == pcs[k].0;
                assert(deps[j] == prev[j]);
            } else {
                assert(deps[deps.len() - 1] == deps.last());
            }
        }
        assert forall|i: int| 0 <= i < deps.len() && is_unused(#[trigger] deps[i], files) implies cs.contains(
            candidate_of(deps[i], files),
        ) by {
            if i < deps.len() - 1 {
                assert(deps[i] == prev[i]);
                let k = choose|k: int| 0 <= k < pcs.len() && pcs[k] == candidate_of(prev[i], files);
                assert(cs[k] == pcs[k]);
            } else {
                assert(cs[cs.len() - 1] == candidate_of(deps.last(), files));
            }
        }
    }
}

/// Searching a list of files made of two lists counts, in code and in all,
/// the sum of what searching each list counts.
pub proof fn law_search_counts_add_up(dep: Seq<char>, a: Seq<Seq<char>>, b: Seq<Seq<char>>)
    ensures
        code_hits(use_pattern(dep), a + b) == code_hits(use_pattern(dep), a) + code_hits(
            use_pattern(dep),
            b,
        ),
        all_hits(use_pattern(dep), a + b) == all_hits(use_pattern(dep), a) + all_hits(
            use_pattern(dep),
            b,
        ),
    decreases b.len(),
{
    if b.len() == 0 {
        assert(a + b =~= a);
    } else {
        assert((a + b).drop_last() =~= a + b.drop_last());
        assert((a + b).last() == b.last());
        law_search_counts_add_up(dep, a, b.drop_last());
    }
}

/// The names of the candidates `cs`, in order.
pub open spec fn candidate_names(cs: Seq<(Seq<char>, Confidence, Seq<char>)>) -> Seq<Seq<char>> {
    cs.map_values(|c: (Seq<char>, Confidence, Seq<char>)| c.0)
}

/// Scanning more files never adds a candidate: the candidates' names when
/// the files `more` are scanned too are those found without them, in the
/// same order, less those that the files `more` use in code.
pub proof fn law_more_files_never_add_candidates(
    deps: Seq<Seq<char>>,
    files: Seq<Seq<char>>,
    more: Seq<Seq<char>>,
)
    ensures
        candidate_names(candidates_for(deps, files + more)) == candidate_names(
            candidates_for(deps, files),
        ).filter(|d: Seq<char>| is_unused(d, files + more)),
    decreases deps.len(),
{
    reveal(Seq::filter);
    let all = files + more;
    let pred = |d: Seq<char>| is_unused(d, all);
    if deps.len() == 0 {
        assert(candidate_names(candidates_for(deps, files)) =~= Seq::<Seq<char>>::empty());
        assert(candidate_names(candidates_for(deps, all)) =~= Seq::<Seq<char>>::empty());
    } else {
        let prev = deps.drop_last();
        let d = deps.last();
        law_more_files_never_add_candidates(prev, files, more);
        law_search_counts_add_up(search_name(d), files, more);
        let p1 = candidates_for(prev, files);
        let p2 = candidates_for(prev, all);
        let n1 = candidate_names(p1);
        assert(n1.filter(pred) == candidate_names(p2));
        if is_unused(d, files) {
            let c1 = p1.push(candidate_of(d, files));
            assert(candidate_names(c1) =~= n1.push(d));
            assert(n1.push(d).drop_last() =~= n1);
            if is_unused(d, all) {
                assert(candidate_names(p2.push(candidate_of(d, all))) =~= candidate_names(p2).push(
                    d,
                ));
            }
        }
    }
}

/// Stripping past a prefix: what stripping reads in `r` from `k` on is what
/// it reads in `p + r` from `p.len() + k` on.
proof fn lemma_strip_shift(p: Seq<char>, r: Seq<char>, k: int)
    requires
        0 <= k <= r.len(),
    ensures
        strip_from(p + r, p.len() + k) == strip_from(r, k),
    decreases r.len() - k,
{
    let t = p + r;
    let n = p.len() as int;
    if k < r.len() {
        lemma_shift(p, r, k);
        lemma_shift(p, r, k + 1);
        assert(t[n + k] == r[k]);
        if k + 1 < r.len() {
            assert(t[n + k + 1] == r[k + 1]);
            lemma_shift(p, r, k + 2);
        }
        assert(pair_at(t, n + k, '/', '/') == pair_at(r, k, '/', '/'));
        assert(pair_at(t, n + k, '/', '*') == pair_at(r, k, '/', '*'));
        lemma_line_end_bounds(r, k + 1);
        lemma_quote_close_bounds(r, k + 1);
        if pair_at(r, k, '/', '/') {
            lemma_strip_shift(p, r, line_end(r, k + 1));
        } else if pair_at(r, k, '/', '*') && block_close(r, k + 2) < r.len() {
            lemma_block_close_bounds(r, k + 2);
            lemma_strip_shift(p, r, block_close(r, k + 2) + 2);
        } else if r[k] == '"' && quote_close(r, k + 1) < r.len() {
            let q = quote_close(r, k + 1);
            lemma_strip_shift(p, r, q + 1);
            assert(t.subrange(n + k, n + q + 1) =~= r.subrange(k, q + 1));
        } else {
            if pair_at(r, k, '/', '*') {
                lemma_block_close_bounds(r, k + 2);
            }
            lemma_strip_shift(p, r, k + 1);
        }
    } else {
        assert(t.len() == n + k);
    }
}

/// Text without `/` or `"` is kept as it is, whatever follows it.
proof fn lemma_strip_plain_prefix(a: Seq<char>, r: Seq<char>, k: int)
    requires
        0 <= k <= a.len(),
        forall|j: int| 0 <= j < a.len() ==> a[j] != '/' && a[j] != '"',
    ensures
        strip_from(a + r, k) == a.subrange(k, a.len() as int) + strip_from(a + r, a.len() as int),
    decreases a.len() - k,
{
    let t = a + r;
    if k < a.len() {
        assert(t[k] == a[k]);
        lemma_strip_plain_prefix(a, r, k + 1);
        assert(a.subrange(k, a.len() as int) =~= seq![a[k]] + a.subrange(k + 1, a.len() as int));
    } else {
        assert(a.subrange(k, a.len() as int) =~= Seq::<char>::empty());
    }
}

/// Where `b` holds no `*/`, the first `*/` after the opener of
/// `/*` + `b` + `*/` is the closing one.
proof fn lemma_block_closes_after(b: Seq<char>, c: Seq<char>, k: int)
    requires
        no_pair_from(b, 0, '*', '/'),
        2 <= k <= b.len() + 2,
    ensures
        block_close("/*"@ + b + "*/"@ + c, k) == b.len() + 2,
    decreases b.len() + 2 - k,
{
    reveal_strlit("/*");
    reveal_strlit("*/");
    let s = "/*"@ + b + "*/"@ + c;
    let n = b.len() + 2int;
    assert(s[n] == '*');
    assert(s[n + 1] == '/');
    if k < n {
        assert(s[k] == b[k - 2]);
        if k + 1 < n {
            assert(s[k + 1] == b[k - 1]);
            assert(!pair_at(b, k - 2, '*', '/'));
        }
        lemma_block_closes_after(b, c, k + 1);
    }
}

/// Each file is searched whole, and a block comment never counts as code,
/// however many lines it spans: a file counts in code what it counts as it
/// is with its comments removed, and where plain text `a` (no `/`, no `"`)
/// is followed by a comment `/* b */` and then by `c`, taking the comment
/// out changes no count in code.
pub proof fn law_block_comments_never_count(
    dep: Seq<char>,
    files: Seq<Seq<char>>,
    a: Seq<char>,
    b: Seq<char>,
    c: Seq<char>,
)
    requires
        forall|j: int| 0 <= j < a.len() ==> a[j] != '/' && a[j] != '"',
        no_pair_from(b, 0, '*', '/'),
    ensures
        forall|f: Seq<char>|
            code_hits(use_pattern(dep), #[trigger] files.push(f)) == code_hits(use_pattern(dep), files)
                + regex_match_count(use_pattern(dep), stripped(f)),
        forall|f: Seq<char>|
            all_hits(use_pattern(dep), #[trigger] files.push(f)) == all_hits(use_pattern(dep), files)
                + regex_match_count(use_pattern(dep), f),
        stripped(a + ("/*"@ + b + "*/"@ + c)) == a + stripped(c),
        code_hits(use_pattern(dep), files.push(a + ("/*"@ + b + "*/"@ + c))) == code_hits(
            use_pattern(dep),
            files.push(a + c),
        ),
{
    assert forall|f: Seq<char>|
        code_hits(use_pattern(dep), #[trigger] files.push(f)) == code_hits(use_pattern(dep), files)
            + regex_match_count(use_pattern(dep), stripped(f)) by {
        assert(files.push(f).drop_last() == files);
    }
    assert forall|f: Seq<char>|
        all_hits(use_pattern(dep), #[trigger] files.push(f)) == all_hits(use_pattern(dep), files)
            + regex_match_count(use_pattern(dep), f) by {
        assert(files.push(f).drop_last() == files);
    }
    reveal_strlit("/*");
    reveal_strlit("*/");
    let s = "/*"@ + b + "*/"@ + c;
    let n = b.len() + 2int;
    lemma_block_closes_after(b, c, 2);
    assert(pair_at(s, 0, '/', '*'));
    assert(s[1] == '*');
    lemma_strip_shift("/*"@ + b + "*/"@, c, 0);
    assert("/*"@ + b + "*/"@ + c == s);
    assert(strip_from(s, 0) == strip_from(s, n + 2));
    assert(stripped(s) == stripped(c));
    lemma_strip_plain_prefix(a, s, 0);
    lemma_strip_shift(a, s, 0);
    assert(a.subrange(0, a.len() as int) =~= a);
    lemma_strip_plain_prefix(a, c, 0);
    lemma_strip_shift(a, c, 0);
    assert(stripped(a + c) == a + stripped(c));
}

/// The first `'\n'` at or after `k` in `"//"` + `b` + `"\n"` + `c`, where
/// `b` holds none, is the one after `b`.
proof fn lemma_line_ends_after(b: Seq<char>, c: Seq<char>, k: int)
    requires
        forall|j: int| 0 <= j < b.len() ==> b[j] != '\n',
        1 <= k <= b.len() + 2,
    ensures
        line_end("//"@ + b + "\n"@ + c, k) == b.len() + 2,
    decreases b.len() + 2 - k,
{
    reveal_strlit("//");
    reveal_strlit("\n");
    let s = "//"@ + b + "\n"@ + c;
    assert(s[b.len() + 2int] == '\n');
    if k < b.len() + 2 {
        if k >= 2 {
            assert(s[k] == b[k - 2]);
        } else {
            assert(s[k] == '/');
        }
        lemma_line_ends_after(b, c, k + 1);
    }
}

/// The first `"` at or after `k` in `"` + `b` + `"` + `c`, where `b` holds
/// none, is the one after `b`.
proof fn lemma_quote_closes_after(b: Seq<char>, c: Seq<char>, k: int)
    requires
        forall|j: int| 0 <= j < b.len() ==> b[j] != '"',
        1 <= k <= b.len() + 1,
    ensures
        quote_close("\""@ + b + "\""@ + c, k) == b.len() + 1,
    decreases b.len() + 1 - k,
{
    reveal_strlit("\"");
    let s = "\""@ + b + "\""@ + c;
    assert(s[b.len() + 1int] == '"');
    if k < b.len() + 1 {
        assert(s[k] == b[k - 1]);
        lemma_quote_closes_after(b, c, k + 1);
    }
}

/// What stripping keeps and drops, after plain text `a` (no `/`, no `"`),
/// which it keeps as it is: a `//` comment is dropped up to the end of its
/// line, the newline kept; a string literal is kept whole, whatever comment
/// markers it holds; a `/* */` comment is dropped whole, however many lines
/// it spans.
pub proof fn law_what_stripping_keeps(a: Seq<char>, b: Seq<char>, c: Seq<char>)
    requires
        forall|j: int| 0 <= j < a.len() ==> a[j] != '/' && a[j] != '"',
    ensures
        stripped(a) == a,
        (forall|j: int| 0 <= j < b.len() ==> b[j] != '\n') ==> stripped(
            a + ("//"@ + b + "\n"@ + c),
        ) == a + "\n"@ + stripped(c),
        (forall|j: int| 0 <= j < b.len() ==> b[j] != '"') ==> stripped(
            a + ("\""@ + b + "\""@ + c),
        ) == a + "\""@ + b + "\""@ + stripped(c),
        no_pair_from(b, 0, '*', '/') ==> stripped(a + ("/*"@ + b + "*/"@ + c)) == a + stripped(c),
{
    reveal_strlit("//");
    reveal_strlit("\n");
    reveal_strlit("\"");
    lemma_strip_plain_prefix(a, Seq::<char>::empty(), 0);
    assert(a + Seq::<char>::empty() =~= a);
    assert(a.subrange(0, a.len() as int) =~= a);
    if forall|j: int| 0 <= j < b.len() ==> b[j] != '\n' {
        let s = "//"@ + b + "\n"@ + c;
        let n = b.len() + 2int;
        lemma_line_ends_after(b, c, 1);
        assert(pair_at(s, 0, '/', '/'));
        assert(strip_from(s, 0) == strip_from(s, n));
        assert(s[n] == '\n');
        assert(strip_from(s, n) == seq!['\n'] + strip_from(s, n + 1));
        lemma_strip_shift("//"@ + b + "\n"@, c, 0);
        assert("//"@ + b + "\n"@ + c == s);
        lemma_strip_plain_prefix(a, s, 0);
        lemma_strip_shift(a, s, 0);
        assert(stripped(a + s) =~= a + "\n"@ + stripped(c));
    }
    if forall|j: int| 0 <= j < b.len() ==> b[j] != '"' {
        let s = "\""@ + b + "\""@ + c;
        let n = b.len() + 1int;
        lemma_quote_closes_after(b, c, 1);
        assert(s[0] == '"');
        assert(!pair_at(s, 0, '/', '/') && !pair_at(s, 0, '/', '*'));
        assert(strip_from(s, 0) == s.subrange(0, n + 1) + strip_from(s, n + 1));
        assert(s.subrange(0, n + 1) =~= "\""@ + b + "\""@);
        lemma_strip_shift("\""@ + b + "\""@, c, 0);
        assert("\""@ + b + "\""@ + c == s);
        lemma_strip_plain_prefix(a, s, 0);
        lemma_strip_shift(a, s, 0);
        assert(stripped(a + s) =~= a + "\""@ + b + "\""@ + stripped(c));
    }
    if no_pair_from(b, 0, '*', '/') {
        law_block_comments_never_count(Seq::<char>::empty(), Seq::empty(), a, b, c);
    }
}

/// The label printed for a candidate tells its confidence: `high` exactly
/// where nothing matched, not even in a comment, and `medium` where only
/// comments matched; the two labels differ.
pub proof fn law_label_tells_confidence(dep: Seq<char>, files: Seq<Seq<char>>)
    ensures
        confidence_label(candidate_of(dep, files).1) == (if all_hits(
            use_pattern(search_name(dep)),
            files,
        ) == 0 {
            "high"@
        } else {
            "medium"@
        }),
        confidence_label(Confidence::High) != confidence_label(Confidence::Medium),
{
    reveal_strlit("high");
    reveal_strlit("medium");
    assert("high"@.len() != "medium"@.len());
}

} // verus!
