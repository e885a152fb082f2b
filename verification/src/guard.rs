//! Writing a REGRESSION-GUARD test skeleton for a refactor commit: which
//! refactor pattern the commit's diff shows, which function it touches, and
//! the text of the skeleton.
use vstd::prelude::*;
use vstd::string::StringSliceAdditionalSpecFns;

use crate::error::ToolError;
use crate::matching::{regex_compiles, regex_first_group, regex_is_match, Matcher};
use crate::text::{
    chars_of, contains_seq, join, join_chars, lines_of, opt_view, same_chars, split_lines,
    str_contains, string_of, views,
};

verus! {

/// Pattern of `.unwrap_or_else(|_| panic!`.
pub const UNWRAP_OR_ELSE_PANIC: &'static str = "\\.unwrap_or_else\\(\\|_\\|\\s*panic!";

/// Pattern of `warn!(` or `let Ok(..) =`.
pub const WARN_OR_LET_OK: &'static str = "warn!\\s*\\(|let Ok\\(.*\\) =";

/// Pattern of `if let Ok(`.
pub const IF_LET_OK: &'static str = "if let Ok\\(";

/// Pattern of `.flatten()` or `match .. { Ok(..) =>`.
pub const FLATTEN_OR_MATCH_OK: &'static str = "\\.flatten\\(\\)|match .* \\{\\s*Ok\\(.*\\)\\s*=>";

/// Pattern of `.expect(`.
pub const EXPECT: &'static str = "\\.expect\\(";

/// Pattern of `.unwrap()`.
pub const UNWRAP: &'static str = "\\.unwrap\\(\\)";

/// Pattern of `let Some(..) = .. else`.
pub const LET_SOME_ELSE: &'static str = "let Some\\(.*\\) = .* else";

/// Pattern of `::default();` followed on the next line by a field assignment.
pub const DEFAULT_THEN_ASSIGN: &'static str = "::default\\(\\);\\s*\\n\\s*\\w+\\.\\w+\\s*=";

/// Pattern of `..Default::default()`.
pub const STRUCT_UPDATE: &'static str = "\\.\\.Default::default\\(\\)";

/// Pattern of an added line that declares a function; group 1 is its name.
pub const CHANGED_FN: &'static str = "(?m)^\\+\\s*(?:pub\\s+)?(?:async\\s+)?fn\\s+(\\w+)";

/// A refactor pattern that a guard test anchors.
#[derive(Clone, Copy, Debug, PartialEq, Eq, Structural)]
pub enum Pattern {
    LetElse,
    LetOkElse,
    WarnContinue,
    SafetyAnnot,
    GracefulDegrade,
    StructUpdate,
    ErrorReturn,
    Unknown,
}

/// The pattern that the name `s` selects; any other name selects `Unknown`.
pub open spec fn pattern_named(s: Seq<char>) -> Pattern {
    if s == "let-else"@ {
        Pattern::LetElse
    } else if s == "let-ok-else"@ {
        Pattern::LetOkElse
    } else if s == "warn-continue"@ {
        Pattern::WarnContinue
    } else if s == "safety-annot"@ {
        Pattern::SafetyAnnot
    } else if s == "graceful-degrade"@ {
        Pattern::GracefulDegrade
    } else if s == "struct-update"@ {
        Pattern::StructUpdate
    } else if s == "error-return"@ {
        Pattern::ErrorReturn
    } else {
        Pattern::Unknown
    }
}

/// The sentence that explains a pattern.
pub open spec fn explanation_text(p: Pattern) -> Seq<char> {
    match p {
        Pattern::LetElse => "`.unwrap()` \u{2192} `let Some(x) = ... else { return None };` \u{2014} defends against the empty/None pathological case the unwrap would have panicked on."@,
        Pattern::LetOkElse => "`.unwrap_or_else(|_| panic!(...))` \u{2192} `let Ok(x) = ... else { warn!(...); return ... };` \u{2014} replaces panic with graceful degrade + observability."@,
        Pattern::WarnContinue => "`if let Ok(x) = stream.next() { ... }` (silent skip) \u{2192} explicit `match` with `warn!()` + `continue` on Err \u{2014} surfaces malformed input in logs."@,
        Pattern::SafetyAnnot => "Added `// SAFETY:` annotation to an `unsafe` or `.unwrap()` that's provably correct but lacked the AVP-2-required justification block."@,
        Pattern::GracefulDegrade => "`.expect(\"impossible\")` \u{2192} return-Err / return-empty / return-sentinel \u{2014} replaces panic on an \"impossible\" branch with a recoverable path."@,
        Pattern::StructUpdate => "`let mut x = T::default(); x.f = v;` \u{2192} struct-update syntax `T { f: v, ..Default::default() }` \u{2014} clippy `field_reassign_with_default`."@,
        Pattern::ErrorReturn => "Bare `panic!()` \u{2192} typed error return \u{2014} caller can `?`-propagate instead of crashing."@,
        Pattern::Unknown => "Pattern not auto-detected. Edit the docstring to describe the refactor manually."@,
    }
}

/// The name of a pattern's variant, as `{:?}` prints it.
pub open spec fn variant_name_text(p: Pattern) -> Seq<char> {
    match p {
        Pattern::LetElse => "LetElse"@,
        Pattern::LetOkElse => "LetOkElse"@,
        Pattern::WarnContinue => "WarnContinue"@,
        Pattern::SafetyAnnot => "SafetyAnnot"@,
        Pattern::GracefulDegrade => "GracefulDegrade"@,
        Pattern::StructUpdate => "StructUpdate"@,
        Pattern::ErrorReturn => "ErrorReturn"@,
        Pattern::Unknown => "Unknown"@,
    }
}

impl Pattern {
    /// The pattern named `s` (`let-else`, `let-ok-else`, `warn-continue`,
    /// `safety-annot`, `graceful-degrade`, `struct-update`, `error-return`);
    /// any other name gives `Unknown`.
    pub fn from_str(s: &str) -> (p: Pattern)
        ensures
            p == pattern_named(s@),
    {
        let v = chars_of(s);
        if same_chars(&v, &chars_of("let-else")) {
            Pattern::LetElse
        } else if same_chars(&v, &chars_of("let-ok-else")) {
            Pattern::LetOkElse
        } else if same_chars(&v, &chars_of("warn-continue")) {
            Pattern::WarnContinue
        } else if same_chars(&v, &chars_of("safety-annot")) {
            Pattern::SafetyAnnot
        } else if same_chars(&v, &chars_of("graceful-degrade")) {
            Pattern::GracefulDegrade
        } else if same_chars(&v, &chars_of("struct-update")) {
            Pattern::StructUpdate
        } else if same_chars(&v, &chars_of("error-return")) {
            Pattern::ErrorReturn
        } else {
            Pattern::Unknown
        }
    }

    /// One sentence on what the refactor replaced and why.
    pub fn explanation(&self) -> (r: &'static str)
        ensures
            r@ == explanation_text(*self),
    {
        match self {
        Pattern::LetElse => "`.unwrap()` \u{2192} `let Some(x) = ... else { return None };` \u{2014} defends against the empty/None pathological case the unwrap would have panicked on.",
        Pattern::LetOkElse => "`.unwrap_or_else(|_| panic!(...))` \u{2192} `let Ok(x) = ... else { warn!(...); return ... };` \u{2014} replaces panic with graceful degrade + observability.",
        Pattern::WarnContinue => "`if let Ok(x) = stream.next() { ... }` (silent skip) \u{2192} explicit `match` with `warn!()` + `continue` on Err \u{2014} surfaces malformed input in logs.",
        Pattern::SafetyAnnot => "Added `// SAFETY:` annotation to an `unsafe` or `.unwrap()` that's provably correct but lacked the AVP-2-required justification block.",
        Pattern::GracefulDegrade => "`.expect(\"impossible\")` \u{2192} return-Err / return-empty / return-sentinel \u{2014} replaces panic on an \"impossible\" branch with a recoverable path.",
        Pattern::StructUpdate => "`let mut x = T::default(); x.f = v;` \u{2192} struct-update syntax `T { f: v, ..Default::default() }` \u{2014} clippy `field_reassign_with_default`.",
        Pattern::ErrorReturn => "Bare `panic!()` \u{2192} typed error return \u{2014} caller can `?`-propagate instead of crashing.",
        Pattern::Unknown => "Pattern not auto-detected. Edit the docstring to describe the refactor manually.",
        }
    }

    /// The name of the variant, as `{:?}` prints it.
    pub fn variant_name(&self) -> (r: &'static str)
        ensures
            r@ == variant_name_text(*self),
    {
        match self {
        Pattern::LetElse => "LetElse",
        Pattern::LetOkElse => "LetOkElse",
        Pattern::WarnContinue => "WarnContinue",
        Pattern::SafetyAnnot => "SafetyAnnot",
        Pattern::GracefulDegrade => "GracefulDegrade",
        Pattern::StructUpdate => "StructUpdate",
        Pattern::ErrorReturn => "ErrorReturn",
        Pattern::Unknown => "Unknown",
        }
    }
}

/// The part of the skeleton from the closing docstring lines to the test's name.
pub const SNIPPET_BEFORE_NAME: &'static str = "    /// If this test fails, someone reverted the refactor or\n    /// changed the invariant it depends on. Inspect the commit\n    /// before \"fixing\" the test.\n    #[test]\n    fn ";

/// The part of the skeleton after the test's name.
pub const SNIPPET_AFTER_NAME: &'static str = "() {\n        // TODO: exercise the pathological input the refactor defends against.\n        // Examples per pattern:\n        //   let-else        \u{2192} empty / None input that the prior unwrap would panic on\n        //   let-ok-else     \u{2192} malformed input that the prior unwrap_or_else(panic) would crash on\n        //   warn-continue   \u{2192} mixed valid+invalid stream \u{2014} verify valid prefix is processed\n        //   safety-annot    \u{2192} exercise the documented invariant directly\n        //   graceful-degrade\u{2192} the \"impossible\" branch input\n        //   struct-update   \u{2192} verify default-equiv behaviour\n        //   error-return    \u{2192} verify Err is propagated, not panicked\n        //\n        // Use #[should_panic] sparingly \u{2014} prefer asserting the\n        // post-refactor behaviour (no panic) explicitly.\n    }\n";

/// An added line of a diff: it starts with `+` but is not a `+++` header.
pub open spec fn is_added_line(l: Seq<char>) -> bool {
    l.len() > 0 && l[0] == '+' && !(l.len() >= 3 && l[1] == '+' && l[2] == '+')
}

/// A removed line of a diff: it starts with `-` but is not a `---` header.
pub open spec fn is_removed_line(l: Seq<char>) -> bool {
    l.len() > 0 && l[0] == '-' && !(l.len() >= 3 && l[1] == '-' && l[2] == '-')
}

/// The line is on the chosen side of the diff.
pub open spec fn on_side(l: Seq<char>, added: bool) -> bool {
    if added {
        is_added_line(l)
    } else {
        is_removed_line(l)
    }
}

/// The lines of `lines` on the chosen side, without their leading `+` or `-`.
pub open spec fn side_bodies(lines: Seq<Seq<char>>, added: bool) -> Seq<Seq<char>>
    decreases lines.len(),
{
    if lines.len() == 0 {
        Seq::empty()
    } else {
        let prev = side_bodies(lines.drop_last(), added);
        if on_side(lines.last(), added) {
            prev.push(lines.last().drop_first())
        } else {
            prev
        }
    }
}

/// The added (or removed) lines of `diff`, marker dropped, joined by newlines.
pub open spec fn side_text(diff: Seq<char>, added: bool) -> Seq<char> {
    join(side_bodies(split_lines(diff), added), "\n"@)
}

/// The text of the added lines of `diff` (when `added`) or of its removed
/// lines, each without its `+` or `-`, joined by newlines; `+++` and `---`
/// file headers are left out.
pub fn side_of_diff(diff: &str, added: bool) -> (r: String)
    ensures
        r@ == side_text(diff@, added),
{
    let d = chars_of(diff);
    let lines = lines_of(&d);
    let ghost ls = views(lines@);
    let mut bodies: Vec<Vec<char>> = Vec::new();
    let mut i: usize = 0;
    while i < lines.len()
        invariant
            ls == views(lines@),
            ls == split_lines(diff@),
            i <= lines.len(),
            views(bodies@) == side_bodies(ls.take(i as int), added),
        decreases lines.len() - i,
    {
        let l = &lines[i];
        let marker = if added { '+' } else { '-' };
        let keep = l.len() > 0 && l[0] == marker && !(l.len() >= 3 && l[1] == marker && l[2] == marker);
        assert(ls.take(i + 1).drop_last() == ls.take(i as int));
        assert(ls.take(i + 1).last() == l@);
        assert(keep == on_side(l@, added));
        if keep {
            let mut body: Vec<char> = Vec::new();
            let mut k: usize = 1;
            while k < l.len()
                invariant
                    1 <= k <= l.len(),
                    body@ == l@.subrange(1, k as int),
                decreases l.len() - k,
            {
                body.push(l[k]);
                k += 1;
                assert(body@ =~= l@.subrange(1, k as int));
            }
            let ghost before = views(bodies@);
            bodies.push(body);
            assert(views(bodies@) =~= before.push(l@.drop_first()));
        }
        i += 1;
    }
    assert(ls.take(lines.len() as int) == ls);
    let sep = chars_of("\n");
    let joined = join_chars(&bodies, &sep);
    string_of(&joined)
}

/// What compiling `pattern` and matching it against `text` gives: `None`
/// where the pattern does not compile.
pub open spec fn regex_check(pattern: Seq<char>, text: Seq<char>) -> Option<bool> {
    if regex_compiles(pattern) {
        Some(regex_is_match(pattern, text))
    } else {
        None
    }
}

/// Both checks hold, the second made only where the first matched.
pub open spec fn then_check(first: Option<bool>, second: Option<bool>) -> Option<bool> {
    match first {
        Some(true) => second,
        other => other,
    }
}

/// Compiles `pattern` and matches it against `text`.
fn check(pattern: &str, text: &str) -> (r: Result<bool, ToolError>)
    ensures
        match r {
            Ok(b) => regex_check(pattern@, text@) == Some(b),
            Err(e) => regex_check(pattern@, text@) is None && e is Pattern,
        },
{
    match Matcher::compile(pattern) {
        Ok(m) => Ok(m.is_match(text)),
        Err(e) => Err(ToolError::Pattern(e)),
    }
}

/// The added text holds one of the marks of a graceful-degrade refactor.
pub open spec fn degrade_marker(added: Seq<char>) -> bool {
    ||| contains_seq(added, "ok_or_else"@)
    ||| contains_seq(added, "?;"@)
    ||| contains_seq(added, "Err("@)
    ||| contains_seq(added, "else {"@)
}

/// The pattern that the answers of the checks pick, trying the more specific
/// patterns first: `c1` (let-ok-else), `c2` (warn-continue), `c3`
/// (graceful-degrade), `c4` (let-else), `safety` (safety-annot), `c6`
/// (struct-update), `error_return` (error-return), and `Unknown` where none
/// holds; `None` where a check consulted on the way could not be made.
pub open spec fn pattern_from_checks(
    c1: Option<bool>,
    c2: Option<bool>,
    c3: Option<bool>,
    c4: Option<bool>,
    safety: bool,
    c6: Option<bool>,
    error_return: bool,
) -> Option<Pattern> {
    if c1 is None {
        None
    } else if c1 == Some(true) {
        Some(Pattern::LetOkElse)
    } else if c2 is None {
        None
    } else if c2 == Some(true) {
        Some(Pattern::WarnContinue)
    } else if c3 is None {
        None
    } else if c3 == Some(true) {
        Some(Pattern::GracefulDegrade)
    } else if c4 is None {
        None
    } else if c4 == Some(true) {
        Some(Pattern::LetElse)
    } else if safety {
        Some(Pattern::SafetyAnnot)
    } else if c6 is None {
        None
    } else if c6 == Some(true) {
        Some(Pattern::StructUpdate)
    } else if error_return {
        Some(Pattern::ErrorReturn)
    } else {
        Some(Pattern::Unknown)
    }
}

/// The pattern that the added and removed text show; `None` where a pattern
/// consulted on the way does not compile.
pub open spec fn detect(added: Seq<char>, removed: Seq<char>) -> Option<Pattern> {
    pattern_from_checks(
        then_check(regex_check(UNWRAP_OR_ELSE_PANIC@, removed), regex_check(WARN_OR_LET_OK@, added)),
        then_check(regex_check(IF_LET_OK@, removed), regex_check(FLATTEN_OR_MATCH_OK@, added)),
        then_check(regex_check(EXPECT@, removed), Some(degrade_marker(added))),
        then_check(regex_check(UNWRAP@, removed), regex_check(LET_SOME_ELSE@, added)),
        contains_seq(added, "// SAFETY:"@),
        then_check(regex_check(DEFAULT_THEN_ASSIGN@, removed), regex_check(STRUCT_UPDATE@, added)),
        contains_seq(removed, "panic!("@) && contains_seq(added, "return Err("@),
    )
}

/// The pattern that the answers of the checks pick (see `pattern_from_checks`).
pub fn pick_pattern(
    c1: Option<bool>,
    c2: Option<bool>,
    c3: Option<bool>,
    c4: Option<bool>,
    safety: bool,
    c6: Option<bool>,
    error_return: bool,
) -> (r: Option<Pattern>)
    ensures
        r == pattern_from_checks(c1, c2, c3, c4, safety, c6, error_return),
{
    match c1 {
        None => return None,
        Some(true) => return Some(Pattern::LetOkElse),
        Some(false) => {},
    }
    match c2 {
        None => return None,
        Some(true) => return Some(Pattern::WarnContinue),
        Some(false) => {},
    }
    match c3 {
        None => return None,
        Some(true) => return Some(Pattern::GracefulDegrade),
        Some(false) => {},
    }
    match c4 {
        None => return None,
        Some(true) => return Some(Pattern::LetElse),
        Some(false) => {},
    }
    if safety {
        return Some(Pattern::SafetyAnnot);
    }
    match c6 {
        None => return None,
        Some(true) => return Some(Pattern::StructUpdate),
        Some(false) => {},
    }
    if error_return {
        Some(Pattern::ErrorReturn)
    } else {
        Some(Pattern::Unknown)
    }
}

/// The answer of a check, `None` where it could not be made.
fn answer(r: &Result<bool, ToolError>) -> (o: Option<bool>)
    ensures
        match r {
            Ok(b) => o == Some(*b),
            Err(_) => o is None,
        },
{
    match r {
        Ok(b) => Some(*b),
        Err(_) => None,
    }
}

/// Both checks of one step, the second only where the first matched.
fn check_both(p1: &str, t1: &str, p2: &str, t2: &str) -> (r: Result<bool, ToolError>)
    ensures
        match r {
            Ok(b) => then_check(regex_check(p1@, t1@), regex_check(p2@, t2@)) == Some(b),
            Err(e) => then_check(regex_check(p1@, t1@), regex_check(p2@, t2@)) is None
                && e is Pattern,
        },
{
    match check(p1, t1) {
        Ok(true) => check(p2, t2),
        Ok(false) => Ok(false),
        Err(e) => Err(e),
    }
}

/// The refactor pattern that `diff` shows.
pub fn auto_detect(diff: &str) -> (r: Result<Pattern, ToolError>)
    ensures
        match r {
            Ok(p) => detect(side_text(diff@, true), side_text(diff@, false)) == Some(p),
            Err(e) => detect(side_text(diff@, true), side_text(diff@, false)) is None
                && e is Pattern,
        },
{
    let added = side_of_diff(diff, true);
    let removed = side_of_diff(diff, false);
    let a = added.as_str();
    let rm = removed.as_str();
    let r1 = check_both(UNWRAP_OR_ELSE_PANIC, rm, WARN_OR_LET_OK, a);
    let r2 = check_both(IF_LET_OK, rm, FLATTEN_OR_MATCH_OK, a);
    let marker = str_contains(a, "ok_or_else") || str_contains(a, "?;") || str_contains(a, "Err(")
        || str_contains(a, "else {");
    let r3 = match check(EXPECT, rm) {
        Ok(true) => Ok(marker),
        other => other,
    };
    let r4 = check_both(UNWRAP, rm, LET_SOME_ELSE, a);
    let safety = str_contains(a, "// SAFETY:");
    let r6 = check_both(DEFAULT_THEN_ASSIGN, rm, STRUCT_UPDATE, a);
    let error_return = str_contains(rm, "panic!(") && str_contains(a, "return Err(");
    let picked = pick_pattern(
        answer(&r1),
        answer(&r2),
        answer(&r3),
        answer(&r4),
        safety,
        answer(&r6),
        error_return,
    );
    if let Some(p) = picked {
        return Ok(p);
    }
    match r1 {
        Err(e) => return Err(e),
        Ok(_) => {},
    }
    match r2 {
        Err(e) => return Err(e),
        Ok(_) => {},
    }
    match r3 {
        Err(e) => return Err(e),
        Ok(_) => {},
    }
    match r4 {
        Err(e) => return Err(e),
        Ok(_) => {},
    }
    match r6 {
        Err(e) => Err(e),
        Ok(_) => {
            proof {
                assert(false);
            }
            Ok(Pattern::Unknown)
        },
    }
}

/// The name of the first function that an added line of `diff` declares.
pub fn first_changed_fn(diff: &str) -> (r: Result<Option<String>, ToolError>)
    ensures
        match r {
            Ok(name) => regex_compiles(CHANGED_FN@) && opt_view(name) == regex_first_group(
                CHANGED_FN@,
                diff@,
            ),
            Err(e) => !regex_compiles(CHANGED_FN@) && e is Pattern,
        },
{
    match Matcher::compile(CHANGED_FN) {
        Ok(m) => Ok(m.first_group(diff)),
        Err(e) => Err(ToolError::Pattern(e)),
    }
}

/// The docstring line naming the module, empty where there is none.
pub open spec fn module_line(mod_path: Option<Seq<char>>) -> Seq<char> {
    match mod_path {
        Some(m) => "    /// Module: `"@ + m + "`\n"@,
        None => Seq::empty(),
    }
}

/// The test skeleton: the REGRESSION-GUARD docstring, then an empty test.
pub open spec fn snippet(
    commit_short: Seq<char>,
    subject: Seq<char>,
    pattern: Pattern,
    test_name: Seq<char>,
    mod_path: Option<Seq<char>>,
) -> Seq<char> {
    "    /// REGRESSION-GUARD \u{2014} commit `"@ + commit_short + "`\n    ///\n    /// Subject: "@
        + subject + "\n    ///\n    /// Pattern: "@ + variant_name_text(pattern)
        + "\n    ///\n    /// "@ + explanation_text(pattern) + "\n    ///\n"@ + module_line(
        mod_path,
    ) + SNIPPET_BEFORE_NAME@ + test_name + SNIPPET_AFTER_NAME@
}

/// The view of an optional string slice.
pub open spec fn opt_str_view(s: Option<&str>) -> Option<Seq<char>> {
    match s {
        Some(t) => Some(t@),
        None => None,
    }
}

/// The test skeleton anchoring commit `commit_short`.
pub fn render(
    commit_short: &str,
    subject: &str,
    pattern: Pattern,
    test_name: &str,
    mod_path: Option<&str>,
) -> (r: String)
    ensures
        r@ == snippet(commit_short@, subject@, pattern, test_name@, opt_str_view(mod_path)),
{
    let mut r = String::from_str("    /// REGRESSION-GUARD \u{2014} commit `");
    r.append(commit_short);
    r.append("`\n    ///\n    /// Subject: ");
    r.append(subject);
    r.append("\n    ///\n    /// Pattern: ");
    r.append(pattern.variant_name());
    r.append("\n    ///\n    /// ");
    r.append(pattern.explanation());
    r.append("\n    ///\n");
    match mod_path {
        Some(m) => {
            r.append("    /// Module: `");
            r.append(m);
            r.append("`\n");
        },
        None => {},
    }
    r.append(SNIPPET_BEFORE_NAME);
    r.append(test_name);
    r.append(SNIPPET_AFTER_NAME);
    r
}

/// The first seven bytes of `commit`, or all of it where it is shorter.
/// A longer commit must have a character boundary after its seventh byte.
pub fn commit_short(commit: &str) -> (r: &str)
    requires
        commit.len() >= 7 ==> commit.is_char_boundary(7),
    ensures
        commit.len() >= 7 ==> r.spec_bytes() == commit.spec_bytes().subrange(0, 7),
        commit.len() < 7 ==> r@ == commit@,
{
    if commit.len() >= 7 {
        let (head, _) = commit.split_at(7);
        head
    } else {
        commit
    }
}

/// The default test name: `regression_guard_<fn>_<commit>`, where `<fn>` is
/// the first changed function, or `refactor`.
pub open spec fn default_test_name_spec(first_fn: Option<Seq<char>>, commit_short: Seq<char>) -> Seq<char> {
    "regression_guard_"@ + match first_fn {
        Some(f) => f,
        None => "refactor"@,
    } + "_"@ + commit_short
}

/// The default test name for the commit `commit_short`.
pub fn default_test_name(first_fn: Option<&str>, commit_short: &str) -> (r: String)
    ensures
        r@ == default_test_name_spec(opt_str_view(first_fn), commit_short@),
{
    let mut r = String::from_str("regression_guard_");
    match first_fn {
        Some(f) => r.append(f),
        None => r.append("refactor"),
    }
    r.append("_");
    r.append(commit_short);
    r
}

/// The pattern of the skeleton: the one named, else the one the diff shows.
pub open spec fn chosen_pattern(pattern: Option<Seq<char>>, diff: Seq<char>) -> Option<Pattern> {
    match pattern {
        Some(p) => Some(pattern_named(p)),
        None => detect(side_text(diff, true), side_text(diff, false)),
    }
}

/// The test name of the skeleton: the one given, else the default one.
pub open spec fn chosen_test_name(
    test_name: Option<Seq<char>>,
    diff: Seq<char>,
    commit_short: Seq<char>,
) -> Option<Seq<char>> {
    match test_name {
        Some(t) => Some(t),
        None => if regex_compiles(CHANGED_FN@) {
            Some(default_test_name_spec(regex_first_group(CHANGED_FN@, diff), commit_short))
        } else {
            None
        },
    }
}

/// The skeleton for the commit `commit_short` with subject `subject` and
/// diff `diff`; `pattern` and `test_name` override what the diff suggests.
pub fn guard_snippet(
    commit_short: &str,
    subject: &str,
    diff: &str,
    pattern: Option<&str>,
    test_name: Option<&str>,
    mod_path: Option<&str>,
) -> (r: Result<String, ToolError>)
    ensures
        match r {
            Ok(s) => chosen_pattern(opt_str_view(pattern), diff@) matches Some(p)
                && chosen_test_name(opt_str_view(test_name), diff@, commit_short@) matches Some(t)
                && s@ == snippet(commit_short@, subject@, p, t, opt_str_view(mod_path)),
            Err(e) => e is Pattern && (chosen_pattern(opt_str_view(pattern), diff@) is None
                || chosen_test_name(opt_str_view(test_name), diff@, commit_short@) is None),
        },
{
    let p = match pattern {
        Some(name) => Pattern::from_str(name),
        None => auto_detect(diff)?,
    };
    let name = match test_name {
        Some(t) => String::from_str(t),
        None => {
            let f = first_changed_fn(diff)?;
            match f {
                Some(f) => default_test_name(Some(f.as_str()), commit_short),
                None => default_test_name(None, commit_short),
            }
        },
    };
    Ok(render(commit_short, subject, p, name.as_str(), mod_path))
}

/// The name by which a pattern is chosen (`unknown` for `Unknown`).
pub open spec fn pattern_cli_name(p: Pattern) -> Seq<char> {
    match p {
        Pattern::LetElse => "let-else"@,
        Pattern::LetOkElse => "let-ok-else"@,
        Pattern::WarnContinue => "warn-continue"@,
        Pattern::SafetyAnnot => "safety-annot"@,
        Pattern::GracefulDegrade => "graceful-degrade"@,
        Pattern::StructUpdate => "struct-update"@,
        Pattern::ErrorReturn => "error-return"@,
        Pattern::Unknown => "unknown"@,
    }
}

/// Choosing a pattern by its name gives that pattern back, for every pattern.
pub proof fn law_pattern_names_round_trip(p: Pattern)
    ensures
        pattern_named(pattern_cli_name(p)) == p,
{
    reveal_strlit("let-else");
    reveal_strlit("let-ok-else");
    reveal_strlit("warn-continue");
    reveal_strlit("safety-annot");
    reveal_strlit("graceful-degrade");
    reveal_strlit("struct-update");
    reveal_strlit("error-return");
    reveal_strlit("unknown");
    let names = seq![
        "let-else"@,
        "let-ok-else"@,
        "warn-continue"@,
        "safety-annot"@,
        "graceful-degrade"@,
        "struct-update"@,
        "error-return"@,
        "unknown"@,
    ];
    // The names differ pairwise: by length, or else in their first character.
    assert forall|i: int, j: int| 0 <= i < j < names.len() implies names[i] != names[j] by {
        if names[i].len() == names[j].len() {
            assert(names[i][0] != names[j][0]);
        }
    }
}

/// `pattern` compiles and matches `text`.
pub open spec fn found(pattern: Seq<char>, text: Seq<char>) -> bool {
    regex_compiles(pattern) && regex_is_match(pattern, text)
}

/// `pattern` compiles and does not match `text`.
pub open spec fn not_found(pattern: Seq<char>, text: Seq<char>) -> bool {
    regex_compiles(pattern) && !regex_is_match(pattern, text)
}

/// The evidence of a pattern that asks `p1` of `t1` and then `p2` of `t2`
/// is refuted: `p1` does not match, or it does and `p2` does not.
pub open spec fn refuted(p1: Seq<char>, t1: Seq<char>, p2: Seq<char>, t2: Seq<char>) -> bool {
    not_found(p1, t1) || (found(p1, t1) && not_found(p2, t2))
}

/// The added text holds `ok_or_else`, `?;`, `Err(` or `else {`.
pub open spec fn recovers(added: Seq<char>) -> bool {
    contains_seq(added, "ok_or_else"@) || contains_seq(added, "?;"@) || contains_seq(added, "Err("@)
        || contains_seq(added, "else {"@)
}

/// Neither a let-ok-else nor a warn-continue refactor shows.
pub open spec fn none_of_first_two(added: Seq<char>, removed: Seq<char>) -> bool {
    &&& refuted(UNWRAP_OR_ELSE_PANIC@, removed, WARN_OR_LET_OK@, added)
    &&& refuted(IF_LET_OK@, removed, FLATTEN_OR_MATCH_OK@, added)
}

/// None of the four regular-expression patterns tried first shows.
pub open spec fn none_of_first_four(added: Seq<char>, removed: Seq<char>) -> bool {
    &&& none_of_first_two(added, removed)
    &&& (not_found(EXPECT@, removed) || (found(EXPECT@, removed) && !recovers(added)))
    &&& refuted(UNWRAP@, removed, LET_SOME_ELSE@, added)
}

/// Detection reports each refactor pattern exactly on its own evidence,
/// the more specific patterns first:
/// let-ok-else where `.unwrap_or_else(|_| panic!` was removed and `warn!(` or
/// `let Ok(..) =` added; warn-continue where `if let Ok(` was removed and
/// `.flatten()` or `match .. { Ok(..) =>` added; graceful-degrade where
/// `.expect(` was removed and a recovery added; let-else where `.unwrap()`
/// was removed and `let Some(..) = .. else` added; safety-annot where a
/// `// SAFETY:` comment was added; struct-update where `::default();` then a
/// field assignment was removed and `..Default::default()` added;
/// error-return where `panic!(` was removed and `return Err(` added; and
/// unknown where none holds. It fails only where a pattern does not compile.
pub proof fn law_detection_follows_the_evidence(added: Seq<char>, removed: Seq<char>)
    ensures
        found(UNWRAP_OR_ELSE_PANIC@, removed) && found(WARN_OR_LET_OK@, added) ==> detect(
            added,
            removed,
        ) == Some(Pattern::LetOkElse),
        refuted(UNWRAP_OR_ELSE_PANIC@, removed, WARN_OR_LET_OK@, added) && found(IF_LET_OK@, removed)
            && found(FLATTEN_OR_MATCH_OK@, added) ==> detect(added, removed) == Some(
            Pattern::WarnContinue,
        ),
        none_of_first_two(added, removed) && found(EXPECT@, removed) && recovers(added) ==> detect(
            added,
            removed,
        ) == Some(Pattern::GracefulDegrade),
        none_of_first_two(added, removed) && (not_found(EXPECT@, removed) || (found(
            EXPECT@,
            removed,
        ) && !recovers(added))) && found(UNWRAP@, removed) && found(LET_SOME_ELSE@, added)
            ==> detect(added, removed) == Some(Pattern::LetElse),
        none_of_first_four(added, removed) && contains_seq(added, "// SAFETY:"@) ==> detect(
            added,
            removed,
        ) == Some(Pattern::SafetyAnnot),
        none_of_first_four(added, removed) && !contains_seq(added, "// SAFETY:"@) && found(
            DEFAULT_THEN_ASSIGN@,
            removed,
        ) && found(STRUCT_UPDATE@, added) ==> detect(added, removed) == Some(
            Pattern::StructUpdate,
        ),
        none_of_first_four(added, removed) && !contains_seq(added, "// SAFETY:"@) && refuted(
            DEFAULT_THEN_ASSIGN@,
            removed,
            STRUCT_UPDATE@,
            added,
        ) ==> detect(added, removed) == Some(
            if contains_seq(removed, "panic!("@) && contains_seq(added, "return Err("@) {
                Pattern::ErrorReturn
            } else {
                Pattern::Unknown
            },
        ),
        detect(added, removed) is None ==> !(regex_compiles(UNWRAP_OR_ELSE_PANIC@) && regex_compiles(
            WARN_OR_LET_OK@,
        ) && regex_compiles(IF_LET_OK@) && regex_compiles(FLATTEN_OR_MATCH_OK@) && regex_compiles(
            EXPECT@,
        ) && regex_compiles(UNWRAP@) && regex_compiles(LET_SOME_ELSE@) && regex_compiles(
            DEFAULT_THEN_ASSIGN@,
        ) && regex_compiles(STRUCT_UPDATE@)),
{
}

/// What is given overrides what the diff shows: a pattern given by name is
/// the skeleton's pattern, and a test name given is its test name, for
/// every diff.
pub proof fn law_named_pattern_wins(
    name: Seq<char>,
    p: Pattern,
    test_name: Seq<char>,
    commit_short: Seq<char>,
    diff: Seq<char>,
    other: Seq<char>,
)
    ensures
        chosen_pattern(Some(name), diff) == Some(pattern_named(name)),
        chosen_pattern(Some(name), diff) == chosen_pattern(Some(name), other),
        chosen_pattern(Some(pattern_cli_name(p)), diff) == Some(p),
        chosen_test_name(Some(test_name), diff, commit_short) == Some(test_name),
{
    law_pattern_names_round_trip(p);
}

} // verus!
