use vstd::prelude::*;

verus! {

// ---------------------------------------------------------------------------
// Specifications
// ---------------------------------------------------------------------------

/// `needle` occurs in `hay` starting at index `i`.
pub open spec fn occurs_at(hay: Seq<char>, needle: Seq<char>, i: int) -> bool {
    &&& 0 <= i
    &&& i + needle.len() <= hay.len()
    &&& hay.subrange(i, i + needle.len()) == needle
}

/// `needle` occurs somewhere in `hay` (the empty needle occurs everywhere).
pub open spec fn contains_seq(hay: Seq<char>, needle: Seq<char>) -> bool {
    exists|i: int| occurs_at(hay, needle, i)
}

/// `s` ends with `suffix`.
pub open spec fn ends_with_seq(s: Seq<char>, suffix: Seq<char>) -> bool {
    suffix.len() <= s.len() && s.subrange(s.len() - suffix.len(), s.len() as int) == suffix
}

/// The ASCII character of a decimal digit.
pub open spec fn digit_char(d: nat) -> char {
    if d == 0 { '0' }
    else if d == 1 { '1' }
    else if d == 2 { '2' }
    else if d == 3 { '3' }
    else if d == 4 { '4' }
    else if d == 5 { '5' }
    else if d == 6 { '6' }
    else if d == 7 { '7' }
    else if d == 8 { '8' }
    else { '9' }
}

/// The decimal representation of `n`, without sign or leading zeros.
pub open spec fn decimal(n: nat) -> Seq<char>
    decreases n,
{
    if n < 10 {
        seq![digit_char(n)]
    } else {
        decimal(n / 10).push(digit_char(n % 10))
    }
}

/// `s` padded on the left with `'0'` up to `width` characters.
pub open spec fn zero_pad(s: Seq<char>, width: nat) -> Seq<char> {
    if s.len() >= width {
        s
    } else {
        Seq::new((width - s.len()) as nat, |i: int| '0') + s
    }
}

/// An ASCII decimal digit.
pub open spec fn is_ascii_digit(c: char) -> bool {
    '0' <= c && c <= '9'
}

/// Every character of `s` is an ASCII decimal digit.
pub open spec fn all_ascii_digits(s: Seq<char>) -> bool {
    forall|i: int| 0 <= i < s.len() ==> is_ascii_digit(#[trigger] s[i])
}

/// The number that a string of ASCII digits spells in base ten.
pub open spec fn digits_value(s: Seq<char>) -> nat
    decreases s.len(),
{
    if s.len() == 0 {
        0
    } else {
        digits_value(s.drop_last()) * 10 + ((s.last() as int - '0' as int) as nat)
    }
}

/// What `str::parse::<u32>` gives: an optional `+`, then at least one ASCII
/// digit and nothing else, of a value that fits in a `u32`.
pub open spec fn parse_u32_spec(s: Seq<char>) -> Option<u32> {
    let d = if s.len() > 0 && s[0] == '+' { s.drop_first() } else { s };
    if d.len() > 0 && all_ascii_digits(d) && digits_value(d) <= u32::MAX {
        Some(digits_value(d) as u32)
    } else {
        None
    }
}

/// The index of the first `'\n'` at or after `start`, or `s.len()`.
pub open spec fn line_end(s: Seq<char>, start: int) -> int
    decreases s.len() - start,
{
    if start >= s.len() {
        s.len() as int
    } else if s[start] == '\n' {
        start
    } else {
        line_end(s, start + 1)
    }
}

/// A line ended by `'\n'`, without the `'\r'` of a `"\r\n"` ending.
pub open spec fn strip_cr(line: Seq<char>) -> Seq<char> {
    if line.len() > 0 && line.last() == '\r' {
        line.drop_last()
    } else {
        line
    }
}

/// The lines of `s` from index `start` on, as `str::lines` splits them.
pub open spec fn lines_from(s: Seq<char>, start: int) -> Seq<Seq<char>>
    decreases s.len() + 1 - start,
{
    if start < 0 || start >= s.len() {
        Seq::empty()
    } else {
        let e = line_end(s, start);
        proof {
            lemma_line_end_bounds(s, start);
        }
        let line = s.subrange(start, e);
        seq![if e < s.len() { strip_cr(line) } else { line }] + lines_from(s, e + 1)
    }
}

/// The lines of `s`: split at `"\n"` or `"\r\n"`, terminators dropped, and no
/// empty last line for a final terminator; a `'\r'` that no `'\n'` follows stays.
pub open spec fn split_lines(s: Seq<char>) -> Seq<Seq<char>> {
    lines_from(s, 0)
}

/// The parts of `parts`, with `sep` between each two.
pub open spec fn join(parts: Seq<Seq<char>>, sep: Seq<char>) -> Seq<char>
    decreases parts.len(),
{
    if parts.len() == 0 {
        Seq::empty()
    } else if parts.len() == 1 {
        parts[0]
    } else {
        join(parts.drop_last(), sep) + sep + parts.last()
    }
}

// ---------------------------------------------------------------------------
// Lemmas
// ---------------------------------------------------------------------------

pub proof fn lemma_line_end_bounds(s: Seq<char>, start: int)
    requires
        0 <= start <= s.len(),
    ensures
        start <= line_end(s, start) <= s.len(),
        line_end(s, start) < s.len() ==> s[line_end(s, start)] == '\n',
        forall|k: int| start <= k < line_end(s, start) ==> s[k] != '\n',
    decreases s.len() - start,
{
    if start < s.len() && s[start] != '\n' {
        lemma_line_end_bounds(s, start + 1);
    }
}

pub proof fn lemma_line_end_skip(s: Seq<char>, start: int, k: int)
    requires
        0 <= start <= k <= s.len(),
        forall|j: int| start <= j < k ==> s[j] != '\n',
    ensures
        line_end(s, start) == line_end(s, k),
    decreases k - start,
{
    if start < k {
        lemma_line_end_skip(s, start + 1, k);
    }
}

proof fn lemma_digits_value_prefix(s: Seq<char>, k: int)
    requires
        0 <= k <= s.len(),
        all_ascii_digits(s),
    ensures
        digits_value(s.take(k)) <= digits_value(s),
    decreases s.len(),
{
    if k < s.len() {
        assert(s.drop_last().take(k) == s.take(k));
        lemma_digits_value_prefix(s.drop_last(), k);
    } else {
        assert(s.take(k) == s);
    }
}

// ---------------------------------------------------------------------------
// Executable helpers
// ---------------------------------------------------------------------------

/// The characters of `s`, in order.
pub fn chars_of(s: &str) -> (v: Vec<char>)
    ensures
        v@ == s@,
{
    let mut v: Vec<char> = Vec::new();
    for c in it: s.chars()
        invariant
            v@ == it.seq().take(it.index()),
            it.seq() == s@,
    {
        v.push(c);
    }
    v
}

/// Appends `c` to `s`.
/// Trusted: calls `String::push`, which vstd leaves unspecified; its
/// documentation says it appends the character to the end of the string.
#[verifier::external_body]
fn push_char(s: &mut String, c: char)
    ensures
        final(s)@ == old(s)@.push(c),
{
    s.push(c);
}

/// Appends the characters of `v` to `s`.
pub fn push_chars(s: &mut String, v: &Vec<char>)
    ensures
        final(s)@ == old(s)@ + v@,
{
    let ghost start = s@;
    let mut i: usize = 0;
    while i < v.len()
        invariant
            i <= v.len(),
            s@ == start + v@.take(i as int),
        decreases v.len() - i,
    {
        push_char(s, v[i]);
        i += 1;
        assert(v@.take(i as int) == v@.take(i - 1).push(v@[i - 1]));
    }
    assert(v@.take(v.len() as int) == v@);
}

/// The string made of the characters of `v`.
pub fn string_of(v: &Vec<char>) -> (s: String)
    ensures
        s@ == v@,
{
    let mut s = String::new();
    push_chars(&mut s, v);
    s
}

/// Whether `needle` occurs in `hay` at index `i`.
fn occurs_at_exec(hay: &Vec<char>, needle: &Vec<char>, i: usize) -> (b: bool)
    requires
        i + needle.len() <= hay.len(),
    ensures
        b == occurs_at(hay@, needle@, i as int),
{
    let mut j: usize = 0;
    while j < needle.len()
        invariant
            i + needle.len() <= hay.len(),
            j <= needle.len(),
            forall|k: int| 0 <= k < j ==> hay@[i + k] == needle@[k],
        decreases needle.len() - j,
    {
        if hay[i + j] != needle[j] {
            assert(hay@.subrange(i as int, i + needle.len())[j as int] != needle@[j as int]);
            return false;
        }
        j += 1;
    }
    assert(hay@.subrange(i as int, i + needle.len()) =~= needle@);
    true
}

/// Whether `needle` occurs in `hay` at index `i` (false where it would run
/// past the end).
pub fn occurs_at_index(hay: &Vec<char>, needle: &Vec<char>, i: usize) -> (b: bool)
    ensures
        b == occurs_at(hay@, needle@, i as int),
{
    if needle.len() > hay.len() || i > hay.len() - needle.len() {
        return false;
    }
    occurs_at_exec(hay, needle, i)
}

/// Whether `needle` occurs somewhere in `hay`.
pub fn contains_chars(hay: &Vec<char>, needle: &Vec<char>) -> (b: bool)
    ensures
        b == contains_seq(hay@, needle@),
{
    if needle.len() > hay.len() {
        return false;
    }
    let last = hay.len() - needle.len();
    let mut i: usize = 0;
    loop
        invariant
            needle.len() <= hay.len(),
            last == hay.len() - needle.len(),
            i <= last,
            forall|k: int| 0 <= k < i ==> !occurs_at(hay@, needle@, k),
        decreases last - i,
    {
        if occurs_at_exec(hay, needle, i) {
            return true;
        }
        if i == last {
            return false;
        }
        i += 1;
    }
}

/// Whether `needle` occurs somewhere in `hay`.
pub fn str_contains(hay: &str, needle: &str) -> (b: bool)
    ensures
        b == contains_seq(hay@, needle@),
{
    let h = chars_of(hay);
    let n = chars_of(needle);
    contains_chars(&h, &n)
}

/// Whether `s` ends with `suffix`.
pub fn ends_with_chars(s: &Vec<char>, suffix: &Vec<char>) -> (b: bool)
    ensures
        b == ends_with_seq(s@, suffix@),
{
    if suffix.len() > s.len() {
        return false;
    }
    let r = occurs_at_exec(s, suffix, s.len() - suffix.len());
    r
}

/// The digit character of `d`.
fn digit_of(d: u64) -> (c: char)
    requires
        d < 10,
    ensures
        c == digit_char(d as nat),
{
    if d == 0 { '0' }
    else if d == 1 { '1' }
    else if d == 2 { '2' }
    else if d == 3 { '3' }
    else if d == 4 { '4' }
    else if d == 5 { '5' }
    else if d == 6 { '6' }
    else if d == 7 { '7' }
    else if d == 8 { '8' }
    else { '9' }
}

/// Appends the decimal representation of `n` to `s`.
pub fn push_decimal(s: &mut String, n: u64)
    ensures
        final(s)@ == old(s)@ + decimal(n as nat),
    decreases n,
{
    if n >= 10 {
        push_decimal(s, n / 10);
    }
    push_char(s, digit_of(n % 10));
}

/// Appends `n` in decimal, padded with zeros to at least `width` digits.
pub fn push_zero_padded(s: &mut String, n: u64, width: usize)
    ensures
        final(s)@ == old(s)@ + zero_pad(decimal(n as nat), width as nat),
{
    let ghost start = s@;
    let mut digits = String::new();
    push_decimal(&mut digits, n);
    let len = digits.as_str().unicode_len();
    if len < width {
        let mut k: usize = 0;
        while k < width - len
            invariant
                len < width,
                k <= width - len,
                s@ == start + Seq::new(k as nat, |i: int| '0'),
            decreases width - len - k,
        {
            push_char(s, '0');
            k += 1;
            assert(Seq::new(k as nat, |i: int| '0') =~= Seq::new((k - 1) as nat, |i: int| '0').push('0'));
        }
    }
    s.append(digits.as_str());
    assert(s@ =~= start + zero_pad(decimal(n as nat), width as nat));
}

/// What `str::parse::<u32>` gives for `s`, or `None` where it fails.
pub fn parse_u32(s: &str) -> (r: Option<u32>)
    ensures
        r == parse_u32_spec(s@),
{
    let v = chars_of(s);
    let start: usize = if v.len() > 0 && v[0] == '+' { 1 } else { 0 };
    let ghost d = if v@.len() > 0 && v@[0] == '+' { v@.drop_first() } else { v@ };
    assert(d == v@.subrange(start as int, v@.len() as int));
    if start >= v.len() {
        return None;
    }
    let mut acc: u64 = 0;
    let mut i: usize = start;
    while i < v.len()
        invariant
            start <= i <= v.len(),
            v@ == s@,
            d == (if v@.len() > 0 && v@[0] == '+' { v@.drop_first() } else { v@ }),
            d == v@.subrange(start as int, v@.len() as int),
            all_ascii_digits(d.take(i - start)),
            acc == digits_value(d.take(i - start)),
            acc <= u32::MAX,
        decreases v.len() - i,
    {
        let c = v[i];
        if !('0' <= c && c <= '9') {
            assert(d[i - start] == c);
            assert(!is_ascii_digit(d[i - start]));
            assert(!all_ascii_digits(d));
            return None;
        }
        let dv: u64 = (c as u64) - ('0' as u64);
        let ghost k = i - start;
        assert(d.take(k + 1).drop_last() == d.take(k));
        assert(d.take(k + 1).last() == c);
        if acc > (4294967295u64 - dv) / 10 {
            assert(digits_value(d.take(k + 1)) > u32::MAX);
            assert(all_ascii_digits(d.take(k + 1)));
            proof {
                if all_ascii_digits(d) {
                    lemma_digits_value_prefix(d, k + 1);
                }
            }
            return None;
        }
        acc = acc * 10 + dv;
        i += 1;
        assert(all_ascii_digits(d.take(k + 1)));
    }
    assert(d.take(v.len() - start) == d);
    Some(acc as u32)
}

/// The character sequences held by `v`.
pub open spec fn views(v: Seq<Vec<char>>) -> Seq<Seq<char>> {
    v.map_values(|l: Vec<char>| l@)
}

/// The view of an optional string.
pub open spec fn opt_view(s: Option<String>) -> Option<Seq<char>> {
    match s {
        Some(t) => Some(t@),
        None => None,
    }
}

/// The character sequences of the strings in `v`.
pub open spec fn str_views(v: Seq<String>) -> Seq<Seq<char>> {
    v.map_values(|s: String| s@)
}

/// `s` with every `'-'` replaced by `'_'`.
pub open spec fn dashes_to_underscores(s: Seq<char>) -> Seq<char> {
    s.map_values(|c: char| if c == '-' { '_' } else { c })
}

/// `s` with every `'-'` replaced by `'_'`, as `str::replace('-', "_")` does.
pub fn replace_dashes(s: &str) -> (r: String)
    ensures
        r@ == dashes_to_underscores(s@),
{
    let v = chars_of(s);
    let mut r = String::new();
    let mut i: usize = 0;
    while i < v.len()
        invariant
            i <= v.len(),
            r@ == dashes_to_underscores(v@.take(i as int)),
        decreases v.len() - i,
    {
        let c = if v[i] == '-' { '_' } else { v[i] };
        push_char(&mut r, c);
        i += 1;
        assert(dashes_to_underscores(v@.take(i as int)) =~= dashes_to_underscores(
            v@.take(i - 1),
        ).push(c));
    }
    assert(v@.take(v.len() as int) == v@);
    r
}

/// The characters `s[start..end]`.
pub fn slice_chars(s: &Vec<char>, start: usize, end: usize) -> (r: Vec<char>)
    requires
        start <= end <= s.len(),
    ensures
        r@ == s@.subrange(start as int, end as int),
{
    let mut r: Vec<char> = Vec::new();
    let mut k = start;
    while k < end
        invariant
            start <= k <= end <= s.len(),
            r@ == s@.subrange(start as int, k as int),
        decreases end - k,
    {
        r.push(s[k]);
        k += 1;
        assert(r@ =~= s@.subrange(start as int, k as int));
    }
    r
}

/// The lines of `s`, as `str::lines` yields them.
pub fn lines_of(s: &Vec<char>) -> (r: Vec<Vec<char>>)
    ensures
        views(r@) == split_lines(s@),
{
    let mut out: Vec<Vec<char>> = Vec::new();
    let mut start: usize = 0;
    while start < s.len()
        invariant
            start <= s.len(),
            views(out@) + lines_from(s@, start as int) == split_lines(s@),
        decreases s.len() - start,
    {
        let mut e = start;
        while e < s.len() && s[e] != '\n'
            invariant
                start <= e <= s.len(),
                forall|k: int| start <= k < e ==> s@[k] != '\n',
            decreases s.len() - e,
        {
            e += 1;
        }
        proof {
            lemma_line_end_skip(s@, start as int, e as int);
            lemma_line_end_bounds(s@, e as int);
        }
        let stop = if e < s.len() && e > start && s[e - 1] == '\r' { e - 1 } else { e };
        let line = slice_chars(s, start, stop);
        assert(line@ == (if e < s.len() {
            strip_cr(s@.subrange(start as int, e as int))
        } else {
            s@.subrange(start as int, e as int)
        }));
        let ghost before = views(out@);
        out.push(line);
        assert(views(out@) =~= before.push(line@));
        if e == s.len() {
            assert(lines_from(s@, e + 1) =~= lines_from(s@, e as int));
            start = e;
        } else {
            start = e + 1;
        }
    }
    assert(views(out@) + lines_from(s@, start as int) =~= views(out@));
    out
}

/// The parts of `parts` with `sep` between each two.
pub fn join_chars(parts: &Vec<Vec<char>>, sep: &Vec<char>) -> (r: Vec<char>)
    ensures
        r@ == join(views(parts@), sep@),
{
    let mut r: Vec<char> = Vec::new();
    let mut i: usize = 0;
    while i < parts.len()
        invariant
            i <= parts.len(),
            r@ == join(views(parts@).take(i as int), sep@),
        decreases parts.len() - i,
    {
        let ghost prev = views(parts@).take(i as int);
        if i > 0 {
            let mut k: usize = 0;
            while k < sep.len()
                invariant
                    k <= sep.len(),
                    r@ == join(prev, sep@) + sep@.take(k as int),
                decreases sep.len() - k,
            {
                r.push(sep[k]);
                k += 1;
                assert(sep@.take(k as int) =~= sep@.take(k - 1).push(sep@[k - 1]));
            }
        }
        let ghost mid = r@;
        let mut k: usize = 0;
        while k < parts[i].len()
            invariant
                i < parts.len(),
                k <= parts[i as int].len(),
                r@ == mid + parts[i as int]@.take(k as int),
            decreases parts[i as int].len() - k,
        {
            r.push(parts[i][k]);
            k += 1;
            assert(parts[i as int]@.take(k as int) =~= parts[i as int]@.take(k - 1).push(
                parts[i as int]@[k - 1],
            ));
        }
        i += 1;
        assert(views(parts@).take(i as int).drop_last() =~= prev);
        assert(parts[i - 1]@.take(parts[i - 1]@.len() as int) =~= parts[i - 1]@);
        assert(sep@.take(sep@.len() as int) =~= sep@);
        if i == 1 {
            assert(prev =~= Seq::<Seq<char>>::empty());
        }
    }
    assert(views(parts@).take(parts.len() as int) =~= views(parts@));
    r
}

/// Whether `a` and `b` hold the same characters.
pub fn same_chars(a: &Vec<char>, b: &Vec<char>) -> (r: bool)
    ensures
        r == (a@ == b@),
{
    if a.len() != b.len() {
        return false;
    }
    let mut i: usize = 0;
    while i < a.len()
        invariant
            a.len() == b.len(),
            i <= a.len(),
            forall|k: int| 0 <= k < i ==> a@[k] == b@[k],
        decreases a.len() - i,
    {
        if a[i] != b[i] {
            return false;
        }
        i += 1;
    }
    assert(a@ =~= b@);
    true
}

/// Whether `a` and `b` are the same string.
pub fn str_eq(a: &str, b: &str) -> (r: bool)
    ensures
        r == (a@ == b@),
{
    same_chars(&chars_of(a), &chars_of(b))
}

/// The decimal representation of `n` is made of digits and spells `n`.
pub proof fn lemma_decimal_digits(n: nat)
    ensures
        decimal(n).len() > 0,
        all_ascii_digits(decimal(n)),
        digits_value(decimal(n)) == n,
    decreases n,
{
    if n >= 10 {
        lemma_decimal_digits(n / 10);
        let d = decimal(n);
        assert(d.drop_last() == decimal(n / 10));
        let r = n % 10;
        assert(digit_char(r) as int - '0' as int == r);
        assert((n / 10) * 10 + r == n);
        assert(d.last() == digit_char(r));
        assert(digits_value(d) == digits_value(d.drop_last()) * 10 + r);
        assert forall|i: int| 0 <= i < d.len() implies is_ascii_digit(#[trigger] d[i]) by {
            if i < d.len() - 1 {
                assert(d[i] == decimal(n / 10)[i]);
            }
        }
    } else {
        assert(decimal(n).drop_last() =~= Seq::<char>::empty());
        assert(digit_char(n) as int - '0' as int == n);
        assert(digits_value(decimal(n).drop_last()) == 0);
        assert(digits_value(decimal(n)) == n);
    }
}

/// Leading zeros do not change the value of a string of digits.
pub proof fn lemma_leading_zeros(k: nat, s: Seq<char>)
    ensures
        digits_value(Seq::new(k, |i: int| '0') + s) == digits_value(s),
    decreases s.len(), k,
{
    let z = Seq::new(k, |i: int| '0');
    if s.len() == 0 {
        assert(z + s =~= z);
        if k > 0 {
            assert(z.drop_last() =~= Seq::new((k - 1) as nat, |i: int| '0'));
            lemma_leading_zeros((k - 1) as nat, s);
            assert(Seq::new((k - 1) as nat, |i: int| '0') + s =~= Seq::new(
                (k - 1) as nat,
                |i: int| '0',
            ));
        }
    } else {
        assert((z + s).drop_last() =~= z + s.drop_last());
        lemma_leading_zeros(k, s.drop_last());
    }
}

/// A zero-padded decimal representation parses back to its number.
pub proof fn lemma_zero_padded_parses(n: u32, width: nat)
    ensures
        parse_u32_spec(zero_pad(decimal(n as nat), width)) == Some(n),
{
    lemma_decimal_digits(n as nat);
    let d = decimal(n as nat);
    let p = zero_pad(d, width);
    if d.len() < width {
        let z = Seq::new((width - d.len()) as nat, |i: int| '0');
        lemma_leading_zeros((width - d.len()) as nat, d);
        assert forall|i: int| 0 <= i < p.len() implies is_ascii_digit(#[trigger] p[i]) by {
            if i >= z.len() {
                assert(p[i] == d[i - z.len()]);
            }
        }
    }
    assert(is_ascii_digit(p[0]));
}

/// The end of the line from `start`: the index of its `'\n'`, or the length.
pub fn line_end_from(c: &Vec<char>, start: usize) -> (e: usize)
    requires
        start <= c.len(),
    ensures
        e == line_end(c@, start as int),
{
    let mut e = start;
    while e < c.len() && c[e] != '\n'
        invariant
            start <= e <= c.len(),
            forall|k: int| start <= k < e ==> c@[k] != '\n',
        decreases c.len() - e,
    {
        e += 1;
    }
    proof {
        lemma_line_end_skip(c@, start as int, e as int);
    }
    e
}

} // verus!
