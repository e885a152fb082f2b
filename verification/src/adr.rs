//! Filing an Architecture Decision Record: its number, file name, body and
//! the row that the index gains.
use vstd::prelude::*;

use crate::error::ToolError;
use crate::matching::{regex_compiles, regex_first_group, Matcher};
use crate::text::{
    all_ascii_digits, chars_of, decimal, digits_value, ends_with_chars, ends_with_seq, lemma_line_end_bounds, 
    line_end, line_end_from, occurs_at, occurs_at_index, push_chars, slice_chars, string_of, lemma_zero_padded_parses, opt_view, parse_u32, parse_u32_spec,
    push_zero_padded, str_views, zero_pad,
};

verus! {

/// Pattern of an ADR file name: at least three digits, then a dash.
pub const ADR_NUMBER_PATTERN: &'static str = "^(\\d{3,})-";

/// The sections of an ADR body that follow the author line.
pub const ADR_SECTIONS: &'static str = "\n\n## Context\n\n(Describe the forcing function. What's the current state? What gap\ndoes this ADR exist to address? Cite any research / prior ADR / task.)\n\n## Decision framework\n\nPer the algorithmic-upgrade decision framework introduced in ADR 015:\n\n1. **Is the gap real?** ___\n2. **Is the fix known in the literature / community?** ___\n3. **What is the smallest delta that closes the gap without paving\n   the cowpath?** ___\n\n## Proposal\n\n(Concrete implementation surface: which files, which modules,\nwhich APIs. Phasing if multi-PR.)\n\n## Alternatives rejected\n\n**Alt 1: ___**\nReason rejected: ___\n\n**Alt 2: ___**\nReason rejected: ___\n\n## Acceptance criteria\n\n- [ ] ___\n- [ ] ___\n- [ ] Tests pass under both default + opt-in feature flag (if applicable).\n- [ ] `cargo audit` + `cargo deny` clean on any new deps.\n\n## Trade-offs accepted\n\n- ___\n- ___\n\n## Open questions for USER\n\n1. ___\n2. ___\n\n---\n\n**Cross-references**:\n- ___\n";

/// A new index, before its first row.
pub const INDEX_PREAMBLE: &'static str = "# Architecture Decision Records (ADRs)\n\nThis directory holds the *why* behind major architectural choices.\n\n## Index\n\n| # | Status | Decision |\n|---|--------|----------|\n";

/// The table header added to an index that has no table yet.
pub const INDEX_TABLE_HEADER: &'static str = "\n## Index\n\n| # | Status | Decision |\n|---|--------|----------|\n";

/// The rule under an index table header, in its wide form.
pub const TABLE_RULE_WIDE: &'static str = "|---|--------|";

/// The rule under an index table header, in its narrow form.
pub const TABLE_RULE_NARROW: &'static str = "|---|---|";

/// A slug character: a lowercase ASCII letter, an ASCII digit or a dash.
pub open spec fn is_slug_char(c: char) -> bool {
    ('a' <= c && c <= 'z') || ('0' <= c && c <= '9') || c == '-'
}

/// Every character of `slug` is a slug character.
pub open spec fn is_valid_slug_spec(slug: Seq<char>) -> bool {
    forall|i: int| 0 <= i < slug.len() ==> is_slug_char(#[trigger] slug[i])
}

/// Whether `slug` is kebab-case lowercase ASCII (the empty slug passes).
pub fn is_valid_slug(slug: &str) -> (b: bool)
    ensures
        b == is_valid_slug_spec(slug@),
{
    let v = chars_of(slug);
    let mut i: usize = 0;
    while i < v.len()
        invariant
            v@ == slug@,
            i <= v.len(),
            forall|k: int| 0 <= k < i ==> is_slug_char(#[trigger] v@[k]),
        decreases v.len() - i,
    {
        let c = v[i];
        if !(('a' <= c && c <= 'z') || ('0' <= c && c <= '9') || c == '-') {
            assert(!is_slug_char(v@[i as int]));
            return false;
        }
        i += 1;
    }
    true
}

/// The number of the file called `name`, where `group` is what
/// `ADR_NUMBER_PATTERN` captured in it: an ADR file is a Markdown file
/// (`NNN-*.md`) whose name starts with at least three digits and a dash.
pub open spec fn number_given(name: Seq<char>, group: Option<Seq<char>>) -> Option<u32> {
    if ends_with_seq(name, ".md"@) {
        match group {
            Some(digits) => parse_u32_spec(digits),
            None => None,
        }
    } else {
        None
    }
}

/// The number of the ADR file called `name`.
pub open spec fn adr_number_of(name: Seq<char>) -> Option<u32> {
    number_given(name, regex_first_group(ADR_NUMBER_PATTERN@, name))
}

/// The largest of the numbers in `nums`, or 0.
pub open spec fn max_number(nums: Seq<Option<u32>>) -> nat
    decreases nums.len(),
{
    if nums.len() == 0 {
        0
    } else {
        let m = max_number(nums.drop_last());
        match nums.last() {
            Some(n) => if n > m { n as nat } else { m },
            None => m,
        }
    }
}

/// The numbers of the files `names`.
pub open spec fn adr_numbers(names: Seq<Seq<char>>) -> Seq<Option<u32>> {
    names.map_values(|n: Seq<char>| adr_number_of(n))
}

/// The largest ADR number among the file names `names`, or 0.
pub open spec fn max_adr_number(names: Seq<Seq<char>>) -> nat {
    max_number(adr_numbers(names))
}

proof fn lemma_max_number_bounds(nums: Seq<Option<u32>>)
    ensures
        max_number(nums) <= u32::MAX,
        forall|i: int|
            0 <= i < nums.len() ==> (#[trigger] nums[i] matches Some(n) ==> n <= max_number(nums)),
    decreases nums.len(),
{
    if nums.len() > 0 {
        lemma_max_number_bounds(nums.drop_last());
        assert forall|i: int|
            0 <= i < nums.len() implies (#[trigger] nums[i] matches Some(n) ==> n <= max_number(
                nums,
            )) by {
            if i < nums.len() - 1 {
                assert(nums[i] == nums.drop_last()[i]);
            }
        }
    }
}

/// The number of the file called `name`, given what `ADR_NUMBER_PATTERN`
/// captured in it.
pub fn number_from_capture(name: &str, group: Option<String>) -> (r: Option<u32>)
    ensures
        r == number_given(name@, opt_view(group)),
{
    if !ends_with_chars(&chars_of(name), &chars_of(".md")) {
        return None;
    }
    match group {
        Some(digits) => parse_u32(digits.as_str()),
        None => None,
    }
}

/// One past the largest number in `nums` (1 where there is none); an
/// overflow error where the largest is `u32::MAX`.
pub fn next_after(nums: &Vec<Option<u32>>) -> (r: Result<u32, ToolError>)
    ensures
        match r {
            Ok(n) => max_number(nums@) < u32::MAX && n == max_number(nums@) + 1,
            Err(e) => e is Overflow && max_number(nums@) == u32::MAX,
        },
{
    let mut max: u32 = 0;
    let mut i: usize = 0;
    while i < nums.len()
        invariant
            i <= nums.len(),
            max == max_number(nums@.take(i as int)),
        decreases nums.len() - i,
    {
        assert(nums@.take(i + 1).drop_last() == nums@.take(i as int));
        assert(nums@.take(i + 1).last() == nums@[i as int]);
        match nums[i] {
            Some(n) => {
                if n > max {
                    max = n;
                }
            },
            None => {},
        }
        i += 1;
    }
    assert(nums@.take(nums.len() as int) == nums@);
    if max == 4294967295u32 {
        return Err(ToolError::Overflow);
    }
    Ok(max + 1)
}

/// The next ADR number for a directory holding the files `names`: one past
/// the largest number of an `NNN-*.md` file (`001-x.md` has number 1; other
/// files do not count).
pub fn next_number(names: &Vec<String>) -> (r: Result<u32, ToolError>)
    ensures
        match r {
            Ok(n) => {
                &&& regex_compiles(ADR_NUMBER_PATTERN@)
                &&& max_adr_number(str_views(names@)) < u32::MAX
                &&& n == max_adr_number(str_views(names@)) + 1
            },
            Err(e) => {
                ||| e is Pattern && !regex_compiles(ADR_NUMBER_PATTERN@)
                ||| e is Overflow && regex_compiles(ADR_NUMBER_PATTERN@) && max_adr_number(
                    str_views(names@),
                ) == u32::MAX
            },
        },
{
    let ghost ns = str_views(names@);
    let re = match Matcher::compile(ADR_NUMBER_PATTERN) {
        Ok(m) => m,
        Err(e) => return Err(ToolError::Pattern(e)),
    };
    let mut nums: Vec<Option<u32>> = Vec::new();
    let mut i: usize = 0;
    while i < names.len()
        invariant
            ns == str_views(names@),
            re.pattern() == ADR_NUMBER_PATTERN@,
            i <= names.len(),
            nums@ == adr_numbers(ns.take(i as int)),
        decreases names.len() - i,
    {
        let group = re.first_group(names[i].as_str());
        let n = number_from_capture(names[i].as_str(), group);
        nums.push(n);
        assert(nums@ =~= adr_numbers(ns.take(i + 1)));
        i += 1;
    }
    assert(ns.take(names.len() as int) == ns);
    next_after(&nums)
}

/// `n` in decimal, padded with zeros to three digits.
pub open spec fn three_digits(n: nat) -> Seq<char> {
    zero_pad(decimal(n), 3)
}

/// The file name of ADR `num` with slug `slug`: `NNN-slug.md`.
pub open spec fn adr_file_name_spec(num: nat, slug: Seq<char>) -> Seq<char> {
    three_digits(num) + "-"@ + slug + ".md"@
}

/// The file name of ADR `num`.
pub fn adr_file_name(num: u32, slug: &str) -> (r: String)
    ensures
        r@ == adr_file_name_spec(num as nat, slug@),
{
    let mut r = String::new();
    push_zero_padded(&mut r, num as u64, 3);
    r.append("-");
    r.append(slug);
    r.append(".md");
    r
}

/// What a new ADR says about itself.
pub struct AdrRequest {
    pub slug: String,
    pub title: String,
    pub tracker: Option<String>,
    pub status: String,
    pub author: String,
}

/// The tracker line of an ADR body, empty where there is no tracker.
pub open spec fn tracker_line(tracker: Option<Seq<char>>) -> Seq<char> {
    match tracker {
        Some(t) => "**Tracker:** "@ + t + "\n"@,
        None => Seq::empty(),
    }
}

/// The body of ADR `num`, dated `date`.
pub open spec fn adr_body(
    title: Seq<char>,
    status: Seq<char>,
    date: Seq<char>,
    tracker: Option<Seq<char>>,
    author: Seq<char>,
    num: nat,
) -> Seq<char> {
    "# ADR "@ + three_digits(num) + " \u{2014} "@ + title + "\n\n**Status:** "@ + status
        + "\n**Date:** "@ + date + "\n"@ + tracker_line(tracker) + "**Author:** "@ + author
        + ADR_SECTIONS@
}

/// The body of ADR `num` for `req`, dated `date`.
pub fn render_body_dated(req: &AdrRequest, num: u32, date: &str) -> (r: String)
    ensures
        r@ == adr_body(req.title@, req.status@, date@, opt_view(req.tracker), req.author@, num as nat),
{
    let mut r = String::from_str("# ADR ");
    push_zero_padded(&mut r, num as u64, 3);
    r.append(" \u{2014} ");
    r.append(req.title.as_str());
    r.append("\n\n**Status:** ");
    r.append(req.status.as_str());
    r.append("\n**Date:** ");
    r.append(date);
    r.append("\n");
    match &req.tracker {
        Some(t) => {
            r.append("**Tracker:** ");
            r.append(t.as_str());
            r.append("\n");
        },
        None => {},
    }
    r.append("**Author:** ");
    r.append(req.author.as_str());
    r.append(ADR_SECTIONS);
    r
}

/// A date as chrono's `%Y-%m-%d` writes it: the year (four digits, zero-padded,
/// or a sign and at least four digits outside years 0 to 9999), the month
/// (01 to 12) and the day (01 to 31), joined by dashes.
pub open spec fn is_ymd_date(d: Seq<char>) -> bool {
    let n = d.len() as int;
    let year = d.subrange(0, n - 6);
    let month = d.subrange(n - 5, n - 3);
    let day = d.subrange(n - 2, n);
    &&& n >= 10
    &&& d[n - 6] == '-'
    &&& d[n - 3] == '-'
    &&& all_ascii_digits(month)
    &&& 1 <= digits_value(month) <= 12
    &&& all_ascii_digits(day)
    &&& 1 <= digits_value(day) <= 31
    &&& ((year.len() == 4 && all_ascii_digits(year)) || (year.len() >= 5 && (year[0] == '+'
        || year[0] == '-') && all_ascii_digits(year.drop_first())))
}

/// Today's date in UTC, formatted by `fmt`, the format `%Y-%m-%d`.
/// Trusted: calls `chrono::Utc::now` and formats it with `DateTime::format`.
/// Which date comes back depends on the clock; chrono's strftime
/// documentation gives its form: `%Y` the year zero-padded to four digits
/// (with a sign outside 0 to 9999), `%m` the month 01 to 12, `%d` the day 01
/// to 31. Formatting cannot fail with this format.
#[verifier::external_body]
fn utc_today(fmt: &str) -> (s: String)
    requires
        fmt@ == "%Y-%m-%d"@,
    ensures
        is_ymd_date(s@),
{
    chrono::Utc::now().format(fmt).to_string()
}

/// The body of ADR `num` for `req`, dated today (UTC, as `YYYY-MM-DD`).
pub fn render_body(req: &AdrRequest, num: u32) -> (r: String)
    ensures
        exists|date: Seq<char>|
            is_ymd_date(date) && r@ == adr_body(
                req.title@,
                req.status@,
                date,
                opt_view(req.tracker),
                req.author@,
                num as nat,
            ),
{
    let date = utc_today("%Y-%m-%d");
    render_body_dated(req, num, date.as_str())
}

/// The index row of ADR `num`.
pub open spec fn index_row(num: nat, slug: Seq<char>, status: Seq<char>, title: Seq<char>) -> Seq<char> {
    "| ["@ + three_digits(num) + "]("@ + three_digits(num) + "-"@ + slug + ".md) | "@ + status
        + " | "@ + title + " |\n"@
}

/// The index text that the row is added to: the existing index, or a new one.
pub open spec fn index_base(existing: Option<Seq<char>>) -> Seq<char> {
    match existing {
        Some(e) => e,
        None => INDEX_PREAMBLE@,
    }
}

/// A table rule (`|---|--------|` or `|---|---|`) starts at index `i`.
pub open spec fn rule_at(content: Seq<char>, i: int) -> bool {
    occurs_at(content, TABLE_RULE_WIDE@, i) || occurs_at(content, TABLE_RULE_NARROW@, i)
}

/// The index of the first table rule at or after `i`, or `content.len()`.
pub open spec fn first_rule_from(content: Seq<char>, i: int) -> int
    decreases content.len() - i,
{
    if i < 0 || i >= content.len() {
        content.len() as int
    } else if rule_at(content, i) {
        i
    } else {
        first_rule_from(content, i + 1)
    }
}

/// `content` already holds an index table: a table rule occurs in it.
pub open spec fn has_index_table(content: Seq<char>) -> bool {
    first_rule_from(content, 0) < content.len()
}

/// Where the table ends, given the end `e` of one of its lines (the index of
/// its `'\n'`, or `content.len()`): the end of the last of the lines that
/// follow without a break and start with `|`.
pub open spec fn table_end(content: Seq<char>, e: int) -> int
    decreases content.len() - e,
{
    if e < 0 || e + 1 >= content.len() {
        e
    } else if content[e + 1] == '|' {
        proof {
            lemma_line_end_bounds(content, e + 1);
        }
        table_end(content, line_end(content, e + 1))
    } else {
        e
    }
}

/// The end of the last row of the first index table in `content`.
pub open spec fn last_row_end(content: Seq<char>) -> int {
    table_end(content, line_end(content, first_rule_from(content, 0)))
}

/// The index after ADR `num` is filed. Where the index has a table, the row
/// goes right after the table's last row, before what follows the table (where
/// that row ends the text, the row is appended to it as it is); where it has no
/// table, a table header and the row are appended.
pub open spec fn updated_index(
    existing: Option<Seq<char>>,
    num: nat,
    slug: Seq<char>,
    status: Seq<char>,
    title: Seq<char>,
) -> Seq<char> {
    let base = index_base(existing);
    let row = index_row(num, slug, status, title);
    if has_index_table(base) {
        let end = last_row_end(base);
        if end < base.len() {
            base.subrange(0, end + 1) + row + base.subrange(end + 1, base.len() as int)
        } else {
            base + row
        }
    } else {
        base + INDEX_TABLE_HEADER@ + row
    }
}

/// The end of the last row of the first index table in `c`, where it has one.
fn find_last_row_end(c: &Vec<char>) -> (r: Option<usize>)
    ensures
        match r {
            Some(e) => has_index_table(c@) && e == last_row_end(c@) && e <= c.len() && (e
                < c.len() ==> c@[e as int] == '\n'),
            None => !has_index_table(c@),
        },
{
    let wide = chars_of(TABLE_RULE_WIDE);
    let narrow = chars_of(TABLE_RULE_NARROW);
    let mut i: usize = 0;
    while i < c.len() && !(occurs_at_index(c, &wide, i) || occurs_at_index(c, &narrow, i))
        invariant
            wide@ == TABLE_RULE_WIDE@,
            narrow@ == TABLE_RULE_NARROW@,
            i <= c.len(),
            first_rule_from(c@, 0) == first_rule_from(c@, i as int),
        decreases c.len() - i,
    {
        i += 1;
    }
    if i == c.len() {
        return None;
    }
    let mut e = line_end_from(c, i);
    proof {
        lemma_line_end_bounds(c@, i as int);
    }
    let ghost first = e;
    while e < c.len() && e + 1 < c.len() && c[e + 1] == '|'
        invariant
            i < c.len(),
            i == first_rule_from(c@, 0),
            first == line_end(c@, i as int),
            e <= c.len(),
            e < c.len() ==> c@[e as int] == '\n',
            table_end(c@, first as int) == table_end(c@, e as int),
        decreases c.len() - e,
    {
        let f = line_end_from(c, e + 1);
        proof {
            lemma_line_end_bounds(c@, e + 1);
        }
        e = f;
    }
    Some(e)
}

/// The index text after ADR `num` is filed; `existing` is the index as it
/// stands, `None` where there is none yet.
pub fn update_index(existing: Option<&str>, num: u32, slug: &str, status: &str, title: &str) -> (r:
    String)
    ensures
        r@ == updated_index(
            match existing {
                Some(e) => Some(e@),
                None => None,
            },
            num as nat,
            slug@,
            status@,
            title@,
        ),
{
    let content = match existing {
        Some(e) => String::from_str(e),
        None => String::from_str(INDEX_PREAMBLE),
    };
    let mut row = String::from_str("| [");
    push_zero_padded(&mut row, num as u64, 3);
    row.append("](");
    push_zero_padded(&mut row, num as u64, 3);
    row.append("-");
    row.append(slug);
    row.append(".md) | ");
    row.append(status);
    row.append(" | ");
    row.append(title);
    row.append(" |\n");
    let c = chars_of(content.as_str());
    match find_last_row_end(&c) {
        Some(end) => {
            if end < c.len() {
                let head = slice_chars(&c, 0, end + 1);
                let tail = slice_chars(&c, end + 1, c.len());
                let mut out = string_of(&head);
                out.append(row.as_str());
                push_chars(&mut out, &tail);
                out
            } else {
                let mut out = content;
                out.append(row.as_str());
                out
            }
        },
        None => {
            let mut out = content;
            out.append(INDEX_TABLE_HEADER);
            out.append(row.as_str());
            out
        },
    }
}

/// A new ADR's number is fresh: it is larger than the number of every ADR
/// file already in the directory.
pub proof fn law_next_number_is_fresh(names: Seq<Seq<char>>, i: int)
    requires
        0 <= i < names.len(),
    ensures
        adr_number_of(names[i]) matches Some(n) ==> n < max_adr_number(names) + 1,
{
    lemma_max_number_bounds(adr_numbers(names));
    assert(adr_numbers(names)[i] == adr_number_of(names[i]));
}

/// The number that an ADR's file name starts with reads back as that number.
pub proof fn law_file_name_number_reads_back(num: u32, slug: Seq<char>)
    ensures
        parse_u32_spec(three_digits(num as nat)) == Some(num),
        adr_file_name_spec(num as nat, slug).subrange(0, three_digits(num as nat).len() as int)
            == three_digits(num as nat),
{
    lemma_zero_padded_parses(num, 3);
    let f = adr_file_name_spec(num as nat, slug);
    assert(f.subrange(0, three_digits(num as nat).len() as int) =~= three_digits(num as nat));
}

proof fn lemma_first_rule_bounds(c: Seq<char>, i: int)
    requires
        0 <= i <= c.len(),
    ensures
        i <= first_rule_from(c, i) <= c.len(),
    decreases c.len() - i,
{
    if i < c.len() && !rule_at(c, i) {
        lemma_first_rule_bounds(c, i + 1);
    }
}

proof fn lemma_table_end_bounds(c: Seq<char>, e: int)
    requires
        0 <= e <= c.len(),
    ensures
        e <= table_end(c, e) <= c.len(),
    decreases c.len() - e,
{
    if e + 1 < c.len() && c[e + 1] == '|' {
        lemma_line_end_bounds(c, e + 1);
        lemma_table_end_bounds(c, line_end(c, e + 1));
    }
}

/// Where filing an ADR inserts text into the index `base`.
pub open spec fn insertion_point(base: Seq<char>) -> int {
    if has_index_table(base) && last_row_end(base) < base.len() {
        last_row_end(base) + 1
    } else {
        base.len() as int
    }
}

/// Filing an ADR only inserts into the index: the index as it stood (or the
/// new preamble) is kept whole around one inserted piece of text, which ends
/// with the new row; where the index has a table, the piece goes right after
/// the table's last row.
pub proof fn law_index_update_only_inserts(
    existing: Option<Seq<char>>,
    num: nat,
    slug: Seq<char>,
    status: Seq<char>,
    title: Seq<char>,
)
    ensures
        ({
            let u = updated_index(existing, num, slug, status, title);
            let base = index_base(existing);
            let row = index_row(num, slug, status, title);
            let k = insertion_point(base);
            &&& 0 <= k <= base.len()
            &&& exists|piece: Seq<char>|
                {
                    &&& u == base.subrange(0, k) + piece + base.subrange(k, base.len() as int)
                    &&& piece.len() >= row.len()
                    &&& piece.subrange(piece.len() - row.len(), piece.len() as int) == row
                }
            &&& has_index_table(base) && last_row_end(base) < base.len() ==> k
                == last_row_end(base) + 1
        }),
{
    let u = updated_index(existing, num, slug, status, title);
    let base = index_base(existing);
    let row = index_row(num, slug, status, title);
    let k = insertion_point(base);
    if has_index_table(base) {
        let i = first_rule_from(base, 0);
        lemma_first_rule_bounds(base, 0);
        lemma_line_end_bounds(base, i);
        lemma_table_end_bounds(base, line_end(base, i));
        if last_row_end(base) < base.len() {
            assert(u == base.subrange(0, k) + row + base.subrange(k, base.len() as int));
            assert(row.subrange(0, row.len() as int) =~= row);
        } else {
            assert(base.subrange(0, k) =~= base);
            assert(u =~= base.subrange(0, k) + row + base.subrange(k, base.len() as int));
            assert(row.subrange(0, row.len() as int) =~= row);
        }
    } else {
        let piece = INDEX_TABLE_HEADER@ + row;
        assert(base.subrange(0, k) =~= base);
        assert(u =~= base.subrange(0, k) + piece + base.subrange(k, base.len() as int));
        assert(piece.subrange(piece.len() - row.len(), piece.len() as int) =~= row);
    }
}

/// A tracker only adds its own line to an ADR's body: the body without a
/// tracker ends with the author line and the sections, and the body with
/// tracker `t` is the same text with `**Tracker:** t` on a line of its own
/// right before the author line.
pub proof fn law_tracker_only_adds_its_line(
    title: Seq<char>,
    status: Seq<char>,
    date: Seq<char>,
    t: Seq<char>,
    author: Seq<char>,
    num: nat,
)
    ensures
        ({
            let without = adr_body(title, status, date, None, author, num);
            let with = adr_body(title, status, date, Some(t), author, num);
            let tail = "**Author:** "@ + author + ADR_SECTIONS@;
            let head = without.subrange(0, without.len() - tail.len());
            &&& without.len() >= tail.len()
            &&& without == head + tail
            &&& with == head + ("**Tracker:** "@ + t + "\n"@) + tail
        }),
{
    let without = adr_body(title, status, date, None, author, num);
    let with = adr_body(title, status, date, Some(t), author, num);
    let tail = "**Author:** "@ + author + ADR_SECTIONS@;
    let h = "# ADR "@ + three_digits(num) + " \u{2014} "@ + title + "\n\n**Status:** "@ + status
        + "\n**Date:** "@ + date + "\n"@;
    assert(without =~= h + tail);
    assert(with =~= h + ("**Tracker:** "@ + t + "\n"@) + tail);
    assert(without.subrange(0, without.len() - tail.len()) =~= h);
}

} // verus!
