//! The directories that an addon keeps out: how its configuration file names them
//! and which directories that covers.

use vstd::prelude::*;

use crate::joins::join_path;
use crate::paths::normalize_windows_path;
use crate::platform::OS;
use crate::text::{chars_of, contains_char, ends_with, starts_with, string_of, trim_end_matches};

verus! {

/// A path pattern that keeps directories out. The wildcard `%` stands at its end, if
/// anywhere, and is not part of `pattern`.
#[derive(Debug, Clone)]
pub struct ExcludePattern {
    pub pattern: String,
    pub has_wildcard: bool,
    pub has_dir_wildcard: bool,
}

/// What an [`ExcludePattern`] says.
pub struct Exclusion {
    pub pattern: Seq<char>,
    pub has_wildcard: bool,
    pub has_dir_wildcard: bool,
}

impl View for ExcludePattern {
    type V = Exclusion;

    open spec fn view(&self) -> Exclusion {
        Exclusion {
            pattern: self.pattern@,
            has_wildcard: self.has_wildcard,
            has_dir_wildcard: self.has_dir_wildcard,
        }
    }
}

/// What each of a list of patterns says.
pub open spec fn exclusions(list: Seq<ExcludePattern>) -> Seq<Exclusion> {
    list.map_values(|e: ExcludePattern| e@)
}

impl Exclusion {
    /// The wildcard at the end of the pattern, if there is one.
    pub open spec fn wildcard(self) -> Seq<char> {
        if self.has_dir_wildcard {
            seq!['/', '%']
        } else if self.has_wildcard {
            seq!['%']
        } else {
            Seq::empty()
        }
    }

    /// The pattern as it is written, with its wildcard.
    pub open spec fn written(self) -> Seq<char> {
        self.pattern + self.wildcard()
    }

    /// Whether the pattern covers the directory `dir`. With a wildcard it covers
    /// every path that begins with it, else only the path that it is.
    pub open spec fn covers(self, dir: Seq<char>) -> bool {
        let given = crate::paths::normalized(dir);
        let pattern = crate::paths::normalized(self.pattern);
        if self.has_dir_wildcard || self.has_wildcard {
            pattern.is_prefix_of(given)
        } else {
            given == pattern
        }
    }
}

impl ExcludePattern {
    /// The pattern as it is written in a configuration file.
    pub fn pattern_str(&self) -> (res: String)
        ensures
            res@ == self@.written(),
    {
        let mut pattern = self.pattern.clone();
        if self.has_dir_wildcard {
            proof {
                reveal_strlit("/%");
            }
            pattern.append("/%");
            assert("/%"@ =~= seq!['/', '%']);
        } else if self.has_wildcard {
            pattern.push('%');
        }
        assert(pattern@ =~= self@.written());
        pattern
    }
}

/// Whether one of the patterns covers the directory.
pub open spec fn is_excluded(dir: Seq<char>, excludes: Seq<Exclusion>) -> bool {
    exists|i: int| 0 <= i < excludes.len() && (#[trigger] excludes[i]).covers(dir)
}

/// The first of the patterns that covers the directory.
pub fn covering_pattern(dir_abs: &str, excludes: &[ExcludePattern]) -> (res: Option<usize>)
    ensures
        match res {
            Some(i) => {
                &&& i < excludes@.len()
                &&& exclusions(excludes@)[i as int].covers(dir_abs@)
                &&& forall|j: int|
                    0 <= j < i ==> !(#[trigger] exclusions(excludes@)[j]).covers(dir_abs@)
            },
            None => !is_excluded(dir_abs@, exclusions(excludes@)),
        },
{
    let dir_str = normalize_windows_path(dir_abs);
    let dir_chars = chars_of(dir_str.as_str());
    let ghost said = exclusions(excludes@);
    let mut i: usize = 0;
    while i < excludes.len()
        invariant
            i <= excludes.len(),
            said == exclusions(excludes@),
            dir_str@ == crate::paths::normalized(dir_abs@),
            dir_chars@ == dir_str@,
            forall|j: int| 0 <= j < i ==> !(#[trigger] said[j]).covers(dir_abs@),
        decreases excludes.len() - i,
    {
        let exclude = &excludes[i];
        let exclude_str = normalize_windows_path(exclude.pattern.as_str());
        assert(said[i as int] == exclude@);
        if exclude.has_dir_wildcard || exclude.has_wildcard {
            if starts_with(dir_chars.as_slice(), exclude_str.as_str()) {
                return Some(i);
            }
        } else if dir_str == exclude_str {
            return Some(i);
        }
        i += 1;
    }
    None
}

/// Whether one of the patterns keeps the directory out.
pub fn is_excluded_dir(dir_abs: &str, excludes: &[ExcludePattern]) -> (res: bool)
    ensures
        res == is_excluded(dir_abs@, exclusions(excludes@)),
{
    match covering_pattern(dir_abs, excludes) {
        Some(_) => true,
        None => false,
    }
}

/// Whether a line of a configuration file says nothing: it is empty or a comment.
pub open spec fn is_silent(line: Seq<char>) -> bool {
    line.len() == 0 || line[0] == '#'
}

/// Whether a line opens a section: it ends with a colon, without a space or an equals
/// sign in it.
pub open spec fn is_section_header(line: Seq<char>) -> bool {
    &&& !is_silent(line)
    &&& line.last() == ':'
    &&& !line.contains(' ')
    &&& !line.contains('=')
}

/// The name of the section that a header opens.
pub open spec fn section_name(header: Seq<char>) -> Seq<char> {
    crate::text::without_trailing(header, seq![':'])
}

/// Whether the lines of a section are meant for the system `os`. A name that does
/// not begin with that of a system means all of them.
pub open spec fn section_applies(name: Seq<char>, os: OS) -> bool {
    &&& "linux"@.is_prefix_of(name) ==> os == OS::Linux
    &&& "osx"@.is_prefix_of(name) || "ios"@.is_prefix_of(name) ==> os == OS::Mac
    &&& "vs"@.is_prefix_of(name) || "msys2"@.is_prefix_of(name) || "win"@.is_prefix_of(name) ==> os
        == OS::Windows
}

/// Whether a line sets one of the two variables that name what is kept out.
pub open spec fn sets_excludes(line: Seq<char>) -> bool {
    ||| "ADDON_SOURCES_EXCLUDE"@.is_prefix_of(line)
    ||| "ADDON_INCLUDES_EXCLUDE"@.is_prefix_of(line)
}

/// Whether `c` is part of the sign of an assignment, `=` or `+=`.
pub open spec fn is_assigning(c: char) -> bool {
    c == '=' || c == '+'
}

/// Where the value begins that a line assigns: behind the last `=` or `+`. Zero
/// where the line has neither.
pub open spec fn value_start(line: Seq<char>) -> int
    decreases line.len(),
{
    if line.len() == 0 {
        0
    } else if is_assigning(line.last()) {
        line.len() as int
    } else {
        value_start(line.drop_last())
    }
}

/// The pattern that is written `text`.
pub open spec fn pattern_written(text: Seq<char>) -> Exclusion {
    Exclusion {
        pattern: crate::text::without_trailing(
            crate::text::without_trailing(text, seq!['/', '%']),
            seq!['%'],
        ),
        has_wildcard: text.len() > 0 && text.last() == '%',
        has_dir_wildcard: seq!['/', '%'].is_suffix_of(text),
    }
}

/// The pattern that a line states, if any.
pub open spec fn pattern_stated(line: Seq<char>) -> Option<Exclusion> {
    let value = crate::text::trimmed(line.skip(value_start(line)));
    if sets_excludes(line) && value_start(line) > 0 && value.len() > 0 {
        Some(pattern_written(value))
    } else {
        None
    }
}

/// The lines of a configuration file; `None` is a line that could not be read.
pub open spec fn line_texts(lines: Seq<Option<String>>) -> Seq<Option<Seq<char>>> {
    lines.map_values(
        |line: Option<String>|
            match line {
                Some(text) => Some(text@),
                None => None,
            },
    )
}

/// The section that is open after the first `n` lines.
pub open spec fn section_after(lines: Seq<Option<Seq<char>>>, n: int) -> Option<Seq<char>>
    decreases n,
{
    if n <= 0 {
        None
    } else {
        match lines[n - 1] {
            Some(text) if is_section_header(crate::text::trimmed(text)) => Some(
                section_name(crate::text::trimmed(text)),
            ),
            _ => section_after(lines, n - 1),
        }
    }
}

/// The pattern that line `i` states for the system `os`, if any.
pub open spec fn pattern_at(lines: Seq<Option<Seq<char>>>, i: int, os: OS) -> Option<Exclusion> {
    match lines[i] {
        None => None,
        Some(text) => {
            let line = crate::text::trimmed(text);
            let meant = match section_after(lines, i) {
                Some(name) => section_applies(name, os),
                None => true,
            };
            if is_silent(line) || is_section_header(line) || !meant {
                None
            } else {
                pattern_stated(line)
            }
        },
    }
}

/// The patterns that the first `n` lines state for the system `os`, in their order.
pub open spec fn patterns_before(lines: Seq<Option<Seq<char>>>, n: int, os: OS) -> Seq<Exclusion>
    decreases n,
{
    if n <= 0 {
        Seq::empty()
    } else {
        match pattern_at(lines, n - 1, os) {
            Some(stated) => patterns_before(lines, n - 1, os).push(stated),
            None => patterns_before(lines, n - 1, os),
        }
    }
}

/// The patterns that a configuration file states for the system `os`.
pub open spec fn patterns_of(lines: Seq<Option<Seq<char>>>, os: OS) -> Seq<Exclusion> {
    patterns_before(lines, lines.len() as int, os)
}

/// Whether the lines of a section are meant for the system `os`.
fn applies_to(section: &[char], os: OS) -> (res: bool)
    ensures
        res == section_applies(section@, os),
{
    if starts_with(section, "linux") && os != OS::Linux {
        return false;
    }
    if (starts_with(section, "osx") || starts_with(section, "ios")) && os != OS::Mac {
        return false;
    }
    if (starts_with(section, "vs") || starts_with(section, "msys2") || starts_with(section, "win"))
        && os != OS::Windows {
        return false;
    }
    true
}

/// Where the value begins that a line assigns.
fn find_value(line: &[char]) -> (res: usize)
    ensures
        res == value_start(line@),
        res <= line@.len(),
{
    let mut n: usize = line.len();
    assert(line@.take(n as int) =~= line@);
    while n > 0
        invariant
            n <= line.len(),
            value_start(line@.take(n as int)) == value_start(line@),
        decreases n,
    {
        if line[n - 1] == '=' || line[n - 1] == '+' {
            return n;
        }
        assert(line@.take(n as int).drop_last() =~= line@.take(n - 1));
        n -= 1;
    }
    0
}

/// The pattern that is written `text`.
fn read_pattern(text: &[char]) -> (res: ExcludePattern)
    ensures
        res@ == pattern_written(text@),
{
    proof {
        reveal_strlit("/%");
        reveal_strlit("%");
        assert("/%"@ =~= seq!['/', '%']);
        assert("%"@ =~= seq!['%']);
    }
    let has_dir_wildcard = ends_with(text, "/%");
    let has_wildcard = text.len() > 0 && text[text.len() - 1] == '%';
    let clean = trim_end_matches(trim_end_matches(text, "/%"), "%");
    ExcludePattern { pattern: string_of(clean), has_wildcard, has_dir_wildcard }
}

/// The pattern that a line states, if any.
fn read_line(line: &[char]) -> (res: Option<ExcludePattern>)
    ensures
        match res {
            Some(pattern) => pattern_stated(line@) == Some(pattern@),
            None => pattern_stated(line@) is None,
        },
{
    if !(starts_with(line, "ADDON_SOURCES_EXCLUDE") || starts_with(line, "ADDON_INCLUDES_EXCLUDE")) {
        return None;
    }
    let start = find_value(line);
    if start == 0 {
        return None;
    }
    let value = string_of(&line[start..line.len()]);
    assert(value@ =~= line@.skip(start as int));
    let chars = chars_of(value.as_str().trim());
    if chars.len() == 0 {
        return None;
    }
    Some(read_pattern(chars.as_slice()))
}

/// The patterns that an addon's configuration file states for the system `os`, as
/// they are written: relative to the addon. A line that could not be read is `None`.
pub fn exclude_rules(lines: &[Option<String>], os: OS) -> (res: Vec<ExcludePattern>)
    ensures
        exclusions(res@) == patterns_of(line_texts(lines@), os),
{
    let mut rules: Vec<ExcludePattern> = Vec::new();
    let mut current_section: Option<Vec<char>> = None;
    let ghost read = line_texts(lines@);
    let mut i: usize = 0;
    assert(exclusions(rules@) =~= patterns_before(read, 0, os));
    while i < lines.len()
        invariant
            i <= lines.len(),
            read == line_texts(lines@),
            exclusions(rules@) == patterns_before(read, i as int, os),
            match current_section {
                Some(name) => section_after(read, i as int) == Some(name@),
                None => section_after(read, i as int) is None,
            },
        decreases lines.len() - i,
    {
        let ghost before = rules@;
        if let Some(text) = &lines[i] {
            assert(read[i as int] == Some(text@));
            let line = chars_of(text.as_str().trim());
            if line.len() == 0 || line[0] == '#' {
            } else if line[line.len() - 1] == ':' && !contains_char(line.as_slice(), ' ')
                && !contains_char(line.as_slice(), '=') {
                proof {
                    reveal_strlit(":");
                    assert(":"@ =~= seq![':']);
                }
                let name = string_of(trim_end_matches(line.as_slice(), ":"));
                current_section = Some(chars_of(name.as_str()));
            } else {
                let meant = match &current_section {
                    Some(name) => applies_to(name.as_slice(), os),
                    None => true,
                };
                if meant {
                    if let Some(rule) = read_line(line.as_slice()) {
                        rules.push(rule);
                        assert(exclusions(rules@) =~= exclusions(before).push(rule@));
                    }
                }
            }
        } else {
            assert(read[i as int] is None);
        }
        i += 1;
    }
    rules
}

/// Each of the patterns `found` is the one of `rules` at the same place, joined to
/// the directory `base`.
pub open spec fn are_anchored(base: Seq<char>, rules: Seq<Exclusion>, found: Seq<Exclusion>) -> bool {
    &&& found.len() == rules.len()
    &&& forall|i: int|
        0 <= i < rules.len() ==> {
            &&& (#[trigger] found[i]).has_wildcard == rules[i].has_wildcard
            &&& found[i].has_dir_wildcard == rules[i].has_dir_wildcard
            &&& crate::joins::is_join(base, rules[i].pattern, found[i].pattern)
        }
}

/// The patterns that an addon's configuration file states for the system `os`, each
/// joined to the directory of the addon. `lines` holds the lines of the file, `None`
/// for one that could not be read, and nothing where there is no file.
pub fn parse_addon_excludes(addon_path: &str, lines: &[Option<String>], os: OS) -> (res: Vec<
    ExcludePattern,
>)
    ensures
        are_anchored(addon_path@, patterns_of(line_texts(lines@), os), exclusions(res@)),
{
    let rules = exclude_rules(lines, os);
    let ghost stated = exclusions(rules@);
    let mut excludes: Vec<ExcludePattern> = Vec::new();
    let mut i: usize = 0;
    while i < rules.len()
        invariant
            i <= rules.len(),
            stated == exclusions(rules@),
            are_anchored(addon_path@, stated.take(i as int), exclusions(excludes@)),
        decreases rules.len() - i,
    {
        let rule = &rules[i];
        let ghost before = exclusions(excludes@);
        excludes.push(
            ExcludePattern {
                pattern: join_path(addon_path, rule.pattern.as_str()),
                has_wildcard: rule.has_wildcard,
                has_dir_wildcard: rule.has_dir_wildcard,
            },
        );
        proof {
            let after = exclusions(excludes@);
            assert(after =~= before.push(excludes@[i as int]@));
            assert(stated[i as int] == rule@);
            assert forall|j: int| 0 <= j < i + 1 implies {
                &&& (#[trigger] after[j]).has_wildcard == stated.take(i + 1)[j].has_wildcard
                &&& after[j].has_dir_wildcard == stated.take(i + 1)[j].has_dir_wildcard
                &&& crate::joins::is_join(
                    addon_path@,
                    stated.take(i + 1)[j].pattern,
                    after[j].pattern,
                )
            } by {
                if j < i {
                    assert(after[j] == before[j]);
                    assert(stated.take(i + 1)[j] == stated.take(i as int)[j]);
                }
            }
        }
        i += 1;
    }
    assert(stated.take(stated.len() as int) =~= stated);
    excludes
}

/// Whether a pattern covers a directory does not depend on how the path of the
/// directory, or the pattern, is spelled.
pub proof fn lemma_covering_ignores_spelling(exclude: Exclusion, dir: Seq<char>)
    ensures
        exclude.covers(crate::paths::normalized(dir)) == exclude.covers(dir),
        (Exclusion { pattern: crate::paths::normalized(exclude.pattern), ..exclude }).covers(dir)
            == exclude.covers(dir),
{
    crate::paths::lemma_normalizing_is_idempotent(dir);
    crate::paths::lemma_normalizing_is_idempotent(exclude.pattern);
}

/// More patterns exclude more: what some patterns exclude, any patterns that hold
/// them all exclude too, in whatever order they stand.
pub proof fn lemma_more_patterns_exclude_more(
    dir: Seq<char>,
    few: Seq<Exclusion>,
    many: Seq<Exclusion>,
)
    requires
        forall|i: int| 0 <= i < few.len() ==> many.contains(#[trigger] few[i]),
        is_excluded(dir, few),
    ensures
        is_excluded(dir, many),
{
    let i = choose|i: int| 0 <= i < few.len() && (#[trigger] few[i]).covers(dir);
    assert(many.contains(few[i]));
    let j = choose|j: int| 0 <= j < many.len() && many[j] == few[i];
    assert(many[j].covers(dir));
}

/// Without patterns nothing is excluded.
pub proof fn lemma_no_pattern_excludes_nothing(dir: Seq<char>)
    ensures
        !is_excluded(dir, Seq::empty()),
{
}

/// A pattern with a wildcard that covers a directory covers every path that continues
/// it. (Continuing the path does not complete the verbatim mark.)
pub proof fn lemma_wildcard_covers_what_is_below(
    exclude: Exclusion,
    dir: Seq<char>,
    rest: Seq<char>,
)
    requires
        exclude.has_wildcard || exclude.has_dir_wildcard,
        exclude.covers(dir),
        crate::paths::is_verbatim(dir + rest) ==> crate::paths::is_verbatim(dir),
    ensures
        exclude.covers(dir + rest),
{
    let whole = dir + rest;
    if crate::paths::is_verbatim(dir) {
        assert(whole.subrange(0, 4) =~= dir.subrange(0, 4));
    }
    let (short, long) = (crate::paths::normalized(dir), crate::paths::normalized(whole));
    assert(short =~= long.subrange(0, short.len() as int));
    let pattern = crate::paths::normalized(exclude.pattern);
    assert(pattern =~= long.subrange(0, pattern.len() as int)) by {
        assert(pattern =~= short.subrange(0, pattern.len() as int));
        assert(short.subrange(0, pattern.len() as int) =~= long.subrange(0, pattern.len() as int));
    }
}

/// The text of a pattern without its wildcard: `/%` or `%` at its end.
pub open spec fn wildcard_dropped(text: Seq<char>) -> Seq<char> {
    if seq!['/', '%'].is_suffix_of(text) {
        text.take(text.len() - 2)
    } else if text.len() > 0 && text.last() == '%' {
        text.drop_last()
    } else {
        text
    }
}

/// A pattern with at most one wildcard is written as it was read.
pub proof fn lemma_pattern_is_written_as_read(text: Seq<char>)
    requires
        wildcard_dropped(text).len() > 0 ==> wildcard_dropped(text).last() != '%',
    ensures
        pattern_written(text).pattern == wildcard_dropped(text),
        pattern_written(text).written() == text,
{
    let body = wildcard_dropped(text);
    let (dir_mark, mark) = (seq!['/', '%'], seq!['%']);
    if dir_mark.is_suffix_of(body) {
        assert(dir_mark[1] == body.subrange(body.len() - 2, body.len() as int)[1]);
    }
    if mark.is_suffix_of(body) {
        assert(mark[0] == body.subrange(body.len() - 1, body.len() as int)[0]);
    }
    if dir_mark.is_suffix_of(text) {
        assert(crate::text::without_trailing(text, dir_mark)
            == crate::text::without_trailing(body, dir_mark));
        assert(text =~= body + dir_mark);
        assert(text.last() == '%');
    } else if text.len() > 0 && text.last() == '%' {
        assert(text.subrange(text.len() - 1, text.len() as int) =~= mark);
        assert(mark.is_suffix_of(text));
        assert(text.take(text.len() - 1) =~= body);
        assert(crate::text::without_trailing(text, mark) == crate::text::without_trailing(body, mark));
        assert(text =~= body + mark);
    }
}

/// Which directories a pattern covers that was read from the configuration file of the
/// addon at `base`: those whose path is, or begins with, that of the addon, a slash
/// and the pattern. This holds on every system on which the two are joined alike.
pub proof fn lemma_anchored_pattern_covers(
    base: Seq<char>,
    rules: Seq<Exclusion>,
    found: Seq<Exclusion>,
    i: int,
    dir: Seq<char>,
)
    requires
        are_anchored(base, rules, found),
        0 <= i < rules.len(),
        crate::joins::joins_alike(base, rules[i].pattern),
    ensures
        ({
            let full = crate::paths::normalized(base) + seq!['/'] + crate::paths::normalized(
                rules[i].pattern,
            );
            found[i].covers(dir) <==> if rules[i].has_wildcard || rules[i].has_dir_wildcard {
                full.is_prefix_of(crate::paths::normalized(dir))
            } else {
                crate::paths::normalized(dir) == full
            }
        }),
{
    assert(found[i].has_wildcard == rules[i].has_wildcard);
    crate::joins::lemma_join_normalizes_alike(base, rules[i].pattern, found[i].pattern);
}

/// Whether two lists of patterns exclude the same directories.
pub open spec fn exclude_alike(a: Seq<Exclusion>, b: Seq<Exclusion>) -> bool {
    forall|d: Seq<char>| #[trigger] is_excluded(d, a) == is_excluded(d, b)
}

/// Whether the patterns of a configuration file are joined to `base` alike on every
/// system.
pub open spec fn rules_join_alike(base: Seq<char>, rules: Seq<Exclusion>) -> bool {
    forall|i: int|
        0 <= i < rules.len() ==> crate::joins::joins_alike(base, (#[trigger] rules[i]).pattern)
}

/// What is excluded does not depend on how the patterns of a configuration file were
/// joined to the path of the addon.
pub proof fn lemma_anchored_patterns_exclude_alike(
    base: Seq<char>,
    rules: Seq<Exclusion>,
    found: Seq<Exclusion>,
    other: Seq<Exclusion>,
)
    requires
        rules_join_alike(base, rules),
        are_anchored(base, rules, found),
        are_anchored(base, rules, other),
    ensures
        exclude_alike(found, other),
{
    assert forall|d: Seq<char>| #[trigger] is_excluded(d, found) == is_excluded(d, other) by {
        assert forall|i: int| 0 <= i < rules.len() implies (#[trigger] found[i]).covers(d)
            == other[i].covers(d) by {
            assert(crate::joins::joins_alike(base, rules[i].pattern));
            lemma_anchored_pattern_covers(base, rules, found, i, d);
            lemma_anchored_pattern_covers(base, rules, other, i, d);
        }
        if is_excluded(d, found) {
            let i = choose|i: int| 0 <= i < found.len() && (#[trigger] found[i]).covers(d);
            assert(other[i].covers(d));
        }
        if is_excluded(d, other) {
            let i = choose|i: int| 0 <= i < other.len() && (#[trigger] other[i]).covers(d);
            assert(found[i].covers(d));
        }
    }
}

/// Whether `found` is what comes of reading `text` in the configuration file of the addon
/// at `base`.
pub open spec fn is_parsed(base: Seq<char>, text: Seq<char>, found: Exclusion) -> bool {
    &&& found.has_wildcard == pattern_written(text).has_wildcard
    &&& found.has_dir_wildcard == pattern_written(text).has_dir_wildcard
    &&& crate::joins::is_join(base, pattern_written(text).pattern, found.pattern)
}

/// Whether `text` has no wildcard in front of the one at its end, if it has one.
pub open spec fn has_one_wildcard(text: Seq<char>) -> bool {
    wildcard_dropped(text).len() > 0 ==> wildcard_dropped(text).last() != '%'
}

/// Putting the wildcard behind a pattern that follows a directory gives the text that was
/// read behind the directory.
proof fn lemma_wildcard_is_put_back(
    base: Seq<char>,
    sep: char,
    text: Seq<char>,
    found: Exclusion,
)
    requires
        has_one_wildcard(text),
        found.has_wildcard == pattern_written(text).has_wildcard,
        found.has_dir_wildcard == pattern_written(text).has_dir_wildcard,
        found.pattern == base + seq![sep] + wildcard_dropped(text),
    ensures
        found.written() == base + seq![sep] + text,
{
    lemma_pattern_is_written_as_read(text);
    let body = wildcard_dropped(text);
    assert(text == body + found.wildcard());
    assert(found.written() =~= base + seq![sep] + (body + found.wildcard()));
}

/// A pattern that was read in the configuration file of an addon is printed as it was
/// written, below the path of the addon, up to the separator in between. (Below a
/// verbatim path the separators in the pattern may be written anew.)
pub proof fn lemma_parsed_pattern_prints_below(base: Seq<char>, text: Seq<char>, found: Exclusion)
    requires
        has_one_wildcard(text),
        crate::joins::joins_alike(base, wildcard_dropped(text)),
        is_parsed(base, text, found),
    ensures
        ({
            ||| found.written() == base + seq!['/'] + text
            ||| found.written() == base + seq!['\\'] + text
            ||| crate::paths::is_verbatim(base) && found.written() == base + seq!['\\']
                + wildcard_dropped(text).map_values(|c: char| crate::joins::backslashed(c))
                + found.wildcard()
        }),
{
    lemma_pattern_is_written_as_read(text);
    let body = wildcard_dropped(text);
    crate::joins::lemma_join_is_below(base, body, found.pattern);
    if found.pattern == base + seq!['/'] + body {
        lemma_wildcard_is_put_back(base, '/', text, found);
    } else if found.pattern == base + seq!['\\'] + body {
        lemma_wildcard_is_put_back(base, '\\', text, found);
    }
}

/// A pattern that was read in the configuration file of an addon is printed, once
/// normalized, as it was written, below the path of the addon.
pub proof fn lemma_parsed_pattern_prints_as_written(
    base: Seq<char>,
    text: Seq<char>,
    found: Exclusion,
)
    requires
        has_one_wildcard(text),
        crate::joins::joins_alike(base, wildcard_dropped(text)),
        is_parsed(base, text, found),
    ensures
        crate::paths::normalized(found.written()) == crate::paths::normalized(base) + seq!['/']
            + crate::paths::normalized(text),
{
    lemma_parsed_pattern_prints_below(base, text, found);
    lemma_pattern_is_written_as_read(text);
    let body = wildcard_dropped(text);
    let mark = found.wildcard();
    assert(text == body + mark);
    crate::joins::lemma_normalized_relative(text);
    crate::joins::lemma_normalized_below(base, '/', text);
    crate::joins::lemma_normalized_below(base, '\\', text);
    let turned = body.map_values(|c: char| crate::joins::backslashed(c)) + mark;
    crate::joins::lemma_normalized_below(base, '\\', turned);
    assert(turned.map_values(|c: char| crate::paths::slashed(c)) =~= text.map_values(
        |c: char| crate::paths::slashed(c),
    ));
    assert(base + seq!['\\'] + body.map_values(|c: char| crate::joins::backslashed(c)) + mark
        =~= base + seq!['\\'] + turned);
}

proof fn lemma_value_behind(head: Seq<char>, value: Seq<char>)
    requires
        !value.contains('='),
        !value.contains('+'),
    ensures
        value_start(head + value) == value_start(head),
    decreases value.len(),
{
    if value.len() > 0 {
        let shorter = value.drop_last();
        assert((head + value).last() == value.last());
        assert(value.contains(value.last()));
        assert((head + value).drop_last() =~= head + shorter);
        assert(!shorter.contains('=')) by {
            assert forall|i: int| 0 <= i < shorter.len() implies shorter[i] != '=' by {
                assert(value.contains(value[i]));
            }
        }
        assert(!shorter.contains('+')) by {
            assert forall|i: int| 0 <= i < shorter.len() implies shorter[i] != '+' by {
                assert(value.contains(value[i]));
            }
        }
        lemma_value_behind(head, shorter);
    } else {
        assert(head + value =~= head);
    }
}

proof fn lemma_value_start_is_inside(line: Seq<char>)
    ensures
        0 <= value_start(line) <= line.len(),
    decreases line.len(),
{
    if line.len() > 0 && !is_assigning(line.last()) {
        lemma_value_start_is_inside(line.drop_last());
    }
}

/// Whether `head` is the beginning of a line that sets one of the two variables, up to
/// the value, as in `ADDON_SOURCES_EXCLUDE = `.
pub open spec fn is_assignment(head: Seq<char>) -> bool {
    &&& sets_excludes(head)
    &&& head.contains('=')
    &&& value_start(head) > 0
    &&& forall|i: int|
        value_start(head) <= i < head.len() ==> crate::text::is_white_space(#[trigger] head[i])
}

/// Whether `text` can be the value of such a line: a pattern with at most one wildcard,
/// without white space around it and without `=` and `+`.
pub open spec fn is_value(text: Seq<char>) -> bool {
    &&& text.len() > 0
    &&& !crate::text::is_white_space(text.first())
    &&& !crate::text::is_white_space(text.last())
    &&& !text.contains('=')
    &&& !text.contains('+')
    &&& has_one_wildcard(text)
}

/// Such a line is neither silent nor the header of a section, and states its value.
proof fn lemma_assigning_line(head: Seq<char>, text: Seq<char>)
    requires
        is_assignment(head),
        is_value(text),
    ensures
        crate::text::trimmed(head + text) == head + text,
        !is_silent(head + text),
        !is_section_header(head + text),
        pattern_stated(head + text) == Some(pattern_written(text)),
{
    let line = head + text;
    reveal_strlit("ADDON_SOURCES_EXCLUDE");
    reveal_strlit("ADDON_INCLUDES_EXCLUDE");
    if "ADDON_SOURCES_EXCLUDE"@.is_prefix_of(head) {
        assert(head.subrange(0, 21)[0] == 'A');
        assert(line.subrange(0, 21) =~= head.subrange(0, 21));
    } else {
        assert(head.subrange(0, 22)[0] == 'A');
        assert(line.subrange(0, 22) =~= head.subrange(0, 22));
    }
    assert(line.first() == 'A');
    assert(line.last() == text.last());
    assert(crate::text::trimmed(line) == line);
    let k = choose|k: int| 0 <= k < head.len() && head[k] == '=';
    assert(line[k] == '=');
    assert(line.contains('='));
    lemma_value_behind(head, text);
    lemma_value_start_is_inside(head);
    let blanks = head.skip(value_start(head));
    assert(line.skip(value_start(line)) =~= blanks + text);
    crate::text::lemma_blanks_are_trimmed(blanks, text);
}

/// A configuration file with one such line states that one pattern, on every system.
pub proof fn lemma_written_pattern_is_stated(head: Seq<char>, text: Seq<char>, os: OS)
    requires
        is_assignment(head),
        is_value(text),
    ensures
        patterns_of(seq![Some(head + text)], os) == seq![pattern_written(text)],
{
    let line = head + text;
    let lines = seq![Some(line)];
    lemma_assigning_line(head, text);
    assert(lines[0] == Some(line));
    assert(pattern_at(lines, 0, os) == Some(pattern_written(text)));
    reveal_with_fuel(patterns_before, 2);
    assert(patterns_of(lines, os) =~= seq![pattern_written(text)]);
}

/// Writing a pattern into a configuration file and reading it back: the file then holds
/// that one pattern, and it is printed as it was written, below the path of the addon.
/// Where that path is not verbatim, the text is the same up to the separator in between;
/// else it is the same once normalized.
pub proof fn lemma_stated_pattern_prints_as_written(
    base: Seq<char>,
    head: Seq<char>,
    text: Seq<char>,
    os: OS,
    found: Seq<Exclusion>,
)
    requires
        is_assignment(head),
        is_value(text),
        crate::joins::joins_alike(base, wildcard_dropped(text)),
        are_anchored(base, patterns_of(seq![Some(head + text)], os), found),
    ensures
        found.len() == 1,
        !crate::paths::is_verbatim(base) ==> found[0].written() == base + seq!['/'] + text
            || found[0].written() == base + seq!['\\'] + text,
        crate::paths::normalized(found[0].written()) == crate::paths::normalized(base) + seq!['/']
            + crate::paths::normalized(text),
{
    lemma_written_pattern_is_stated(head, text, os);
    assert(found[0].has_wildcard == pattern_written(text).has_wildcard);
    assert(is_parsed(base, text, found[0]));
    lemma_parsed_pattern_prints_below(base, text, found[0]);
    lemma_parsed_pattern_prints_as_written(base, text, found[0]);
}

/// Each of the patterns `found` is the one of `rules` at the same place, joined to the
/// directory `base` as it is done where the slash separates names.
pub open spec fn are_anchored_by_slash(
    base: Seq<char>,
    rules: Seq<Exclusion>,
    found: Seq<Exclusion>,
) -> bool {
    &&& are_anchored(base, rules, found)
    &&& forall|i: int|
        0 <= i < rules.len() ==> (#[trigger] found[i]).pattern == crate::joins::slash_join(
            base,
            rules[i].pattern,
        )
}

/// Writing a pattern into a configuration file and reading it back where the slash
/// separates names: the file then holds that one pattern, and it is printed as the path
/// of the addon, a slash and the pattern, exactly as it was written.
pub proof fn lemma_stated_pattern_prints_behind_slash(
    base: Seq<char>,
    head: Seq<char>,
    text: Seq<char>,
    os: OS,
    found: Seq<Exclusion>,
)
    requires
        is_assignment(head),
        is_value(text),
        base.len() > 0 && base.last() != '/',
        wildcard_dropped(text).len() > 0 ==> wildcard_dropped(text)[0] != '/',
        are_anchored_by_slash(base, patterns_of(seq![Some(head + text)], os), found),
    ensures
        found.len() == 1,
        found[0].written() == base + seq!['/'] + text,
{
    lemma_written_pattern_is_stated(head, text, os);
    lemma_pattern_is_written_as_read(text);
    assert(found[0].has_wildcard == pattern_written(text).has_wildcard);
    assert(found[0].pattern == crate::joins::slash_join(base, wildcard_dropped(text)));
    lemma_wildcard_is_put_back(base, '/', text, found[0]);
}

/// Whether the name of a section begins with that of a system.
pub open spec fn names_system(name: Seq<char>) -> bool {
    ||| "linux"@.is_prefix_of(name)
    ||| "osx"@.is_prefix_of(name)
    ||| "ios"@.is_prefix_of(name)
    ||| "vs"@.is_prefix_of(name)
    ||| "msys2"@.is_prefix_of(name)
    ||| "win"@.is_prefix_of(name)
}

/// Whether one of the lines opens a section that is named after a system.
pub open spec fn has_system_section(lines: Seq<Option<Seq<char>>>) -> bool {
    exists|i: int|
        0 <= i < lines.len() && (#[trigger] lines[i] matches Some(text) && is_section_header(
            crate::text::trimmed(text),
        ) && names_system(section_name(crate::text::trimmed(text))))
}

proof fn lemma_no_system_section_before(lines: Seq<Option<Seq<char>>>, n: int)
    requires
        n <= lines.len(),
        !has_system_section(lines),
    ensures
        section_after(lines, n) matches Some(name) ==> !names_system(name),
    decreases n,
{
    if n > 0 {
        lemma_no_system_section_before(lines, n - 1);
        assert(!(lines[n - 1] matches Some(text) && is_section_header(crate::text::trimmed(text))
            && names_system(section_name(crate::text::trimmed(text)))));
    }
}

/// The patterns of a configuration file in which no section is named after a system are
/// the same on every system.
pub proof fn lemma_file_naming_no_system_means_every_system(
    lines: Seq<Option<Seq<char>>>,
    os: OS,
    other: OS,
)
    requires
        !has_system_section(lines),
    ensures
        patterns_of(lines, os) == patterns_of(lines, other),
{
    lemma_patterns_without_system_sections(lines, lines.len() as int, os, other);
}

proof fn lemma_patterns_without_system_sections(
    lines: Seq<Option<Seq<char>>>,
    n: int,
    os: OS,
    other: OS,
)
    requires
        n <= lines.len(),
        !has_system_section(lines),
    ensures
        patterns_before(lines, n, os) == patterns_before(lines, n, other),
    decreases n,
{
    if n > 0 {
        lemma_patterns_without_system_sections(lines, n - 1, os, other);
        lemma_no_system_section_before(lines, n - 1);
    }
}

/// What a pattern covers, character by character: with a wildcard every path that begins
/// as the pattern does, and without one only the path that is the pattern, both written
/// the one way.
pub proof fn lemma_covered_character_by_character(exclude: Exclusion, dir: Seq<char>)
    ensures
        ({
            let pattern = crate::paths::normalized(exclude.pattern);
            let given = crate::paths::normalized(dir);
            exclude.covers(dir) <==> {
                &&& pattern.len() <= given.len()
                &&& forall|i: int| 0 <= i < pattern.len() ==> #[trigger] given[i] == pattern[i]
                &&& exclude.has_wildcard || exclude.has_dir_wildcard || given.len() == pattern.len()
            }
        }),
{
    let pattern = crate::paths::normalized(exclude.pattern);
    let given = crate::paths::normalized(dir);
    if exclude.covers(dir) && (exclude.has_wildcard || exclude.has_dir_wildcard) {
        assert forall|i: int| 0 <= i < pattern.len() implies #[trigger] given[i] == pattern[i] by {
            assert(given.subrange(0, pattern.len() as int)[i] == pattern[i]);
        }
    }
    if pattern.len() <= given.len() && (forall|i: int|
        0 <= i < pattern.len() ==> #[trigger] given[i] == pattern[i]) {
        assert(pattern =~= given.subrange(0, pattern.len() as int));
        if given.len() == pattern.len() {
            assert(given =~= pattern);
        }
    }
}

/// One pattern more keeps out what it covers, and nothing else changes.
pub proof fn lemma_one_pattern_more(dir: Seq<char>, excludes: Seq<Exclusion>, exclude: Exclusion)
    ensures
        is_excluded(dir, excludes.push(exclude)) <==> is_excluded(dir, excludes) || exclude.covers(
            dir,
        ),
{
    let more = excludes.push(exclude);
    if is_excluded(dir, excludes) {
        let i = choose|i: int| 0 <= i < excludes.len() && (#[trigger] excludes[i]).covers(dir);
        assert(more[i].covers(dir));
    }
    if exclude.covers(dir) {
        assert(more[excludes.len() as int].covers(dir));
    }
    if is_excluded(dir, more) {
        let i = choose|i: int| 0 <= i < more.len() && (#[trigger] more[i]).covers(dir);
        if i < excludes.len() {
            assert(excludes[i].covers(dir));
        }
    }
}

/// A pattern is printed with its wildcard at its end: a slash and a percent sign, or a
/// percent sign alone, or nothing.
pub proof fn lemma_wildcard_is_printed(exclude: Exclusion)
    ensures
        exclude.has_dir_wildcard ==> exclude.written() == exclude.pattern + "/%"@,
        !exclude.has_dir_wildcard && exclude.has_wildcard ==> exclude.written() == exclude.pattern
            + "%"@,
        !exclude.has_dir_wildcard && !exclude.has_wildcard ==> exclude.written()
            == exclude.pattern,
{
    reveal_strlit("/%");
    reveal_strlit("%");
    assert("/%"@ =~= seq!['/', '%']);
    assert("%"@ =~= seq!['%']);
    if !exclude.has_dir_wildcard && !exclude.has_wildcard {
        assert(exclude.written() =~= exclude.pattern);
    }
}

/// A wildcard is read at the end of a pattern alone: a percent sign, and with a slash in
/// front of it that of a directory.
pub proof fn lemma_wildcard_is_read_at_the_end(text: Seq<char>)
    ensures
        pattern_written(text).has_wildcard <==> text.len() > 0 && text[text.len() - 1] == '%',
        pattern_written(text).has_dir_wildcard <==> text.len() > 1 && text[text.len() - 2] == '/'
            && text[text.len() - 1] == '%',
{
    let mark = seq!['/', '%'];
    let n = text.len();
    if n > 1 {
        let end = text.subrange(n - 2, n as int);
        assert(end[0] == text[n - 2] && end[1] == text[n - 1]);
        if text[n - 2] == '/' && text[n - 1] == '%' {
            assert(end =~= mark);
        } else if mark == end {
            assert(mark[0] == end[0] && mark[1] == end[1]);
        }
    }
}

/// What is left of a pattern without its wildcards: all of a text that does not end with a
/// percent sign; the same with any number of percent signs behind it, as long as they do
/// not make a slash and a single percent sign; and a slash and a percent sign at the end
/// change nothing.
pub proof fn lemma_pattern_without_wildcards(text: Seq<char>, n: nat)
    ensures
        (text.len() == 0 || text.last() != '%') && (n != 1 || text.len() == 0 || text.last() != '/')
            ==> pattern_written(text + Seq::new(n, |i: int| '%')).pattern == text,
        pattern_written(text + seq!['/', '%']).pattern == pattern_written(text).pattern,
{
    let (mark, sign) = (seq!['/', '%'], seq!['%']);
    crate::text::lemma_copies_at_the_end_are_dropped(text, mark);
    if (text.len() == 0 || text.last() != '%') && (n != 1 || text.len() == 0 || text.last()
        != '/') {
        let whole = text + Seq::new(n, |i: int| '%');
        if mark.is_suffix_of(whole) {
            let end = whole.subrange(whole.len() - 2, whole.len() as int);
            assert(end[0] == mark[0] && end[1] == mark[1]);
            assert(whole[whole.len() - 2] == '/' && whole[whole.len() - 1] == '%');
        }
        crate::text::lemma_copies_at_the_end_are_dropped(whole, mark);
        lemma_signs_are_dropped(text, n);
    }
}

proof fn lemma_signs_are_dropped(text: Seq<char>, n: nat)
    requires
        text.len() == 0 || text.last() != '%',
    ensures
        crate::text::without_trailing(text + Seq::new(n, |i: int| '%'), seq!['%']) == text,
    decreases n,
{
    let sign = seq!['%'];
    let whole = text + Seq::new(n, |i: int| '%');
    if n == 0 {
        assert(whole =~= text);
        if sign.is_suffix_of(text) {
            assert(sign[0] == text.subrange(text.len() - 1, text.len() as int)[0]);
        }
        crate::text::lemma_copies_at_the_end_are_dropped(text, sign);
    } else {
        let fewer = (n - 1) as nat;
        let shorter = text + Seq::new(fewer, |i: int| '%');
        assert(whole =~= shorter + sign);
        crate::text::lemma_copies_at_the_end_are_dropped(shorter, sign);
        lemma_signs_are_dropped(text, fewer);
    }
}

/// What a line states: the value behind the last sign of assignment, `=` or `+`, where the
/// line begins with one of the two variables and the value is more than white space.
pub proof fn lemma_value_is_stated(
    variable: Seq<char>,
    middle: Seq<char>,
    sign: char,
    value: Seq<char>,
)
    requires
        variable == "ADDON_SOURCES_EXCLUDE"@ || variable == "ADDON_INCLUDES_EXCLUDE"@,
        sign == '=' || sign == '+',
        !value.contains('='),
        !value.contains('+'),
    ensures
        pattern_stated(variable + middle + seq![sign] + value) == if crate::text::trimmed(
            value,
        ).len() > 0 {
            Some(pattern_written(crate::text::trimmed(value)))
        } else {
            None
        },
{
    let head = variable + middle + seq![sign];
    let line = head + value;
    assert(variable =~= line.subrange(0, variable.len() as int));
    assert(head.last() == sign);
    lemma_value_behind(head, value);
    assert(value_start(head) == head.len());
    assert(line.skip(head.len() as int) =~= value);
}

proof fn lemma_no_sign_no_value(line: Seq<char>)
    requires
        !line.contains('='),
        !line.contains('+'),
    ensures
        value_start(line) == 0,
{
    lemma_value_behind(Seq::empty(), line);
    assert(Seq::<char>::empty() + line =~= line);
}

/// A line that does not begin with one of the two variables states nothing, and neither
/// does one without a sign of assignment.
pub proof fn lemma_other_lines_state_nothing(line: Seq<char>)
    ensures
        !"ADDON_SOURCES_EXCLUDE"@.is_prefix_of(line) && !"ADDON_INCLUDES_EXCLUDE"@.is_prefix_of(
            line,
        ) ==> pattern_stated(line) is None,
        !line.contains('=') && !line.contains('+') ==> pattern_stated(line) is None,
{
    if !line.contains('=') && !line.contains('+') {
        lemma_no_sign_no_value(line);
    }
}

/// What a line is, by its characters: silent where it is empty or begins with `#`, and the
/// header of a section where it is not, ends with a colon and holds neither a space nor an
/// equals sign.
pub proof fn lemma_kinds_of_lines(line: Seq<char>)
    ensures
        is_silent(line) <==> line.len() == 0 || line[0] == '#',
        is_section_header(line) <==> {
            &&& line.len() > 0
            &&& line[0] != '#'
            &&& line[line.len() - 1] == ':'
            &&& forall|i: int| 0 <= i < line.len() ==> #[trigger] line[i] != ' ' && line[i] != '='
        },
{
    if forall|i: int| 0 <= i < line.len() ==> #[trigger] line[i] != ' ' && line[i] != '=' {
        assert(!line.contains(' '));
        assert(!line.contains('='));
    } else {
        let i = choose|i: int|
            0 <= i < line.len() && !(#[trigger] line[i] != ' ' && line[i] != '=');
        assert(line.contains(line[i]));
    }
}

/// The lines of a file are read one by one; one that could not be read is left out.
pub proof fn lemma_lines_one_by_one(lines: Seq<Option<String>>)
    ensures
        line_texts(lines).len() == lines.len(),
        forall|i: int|
            0 <= i < lines.len() ==> match lines[i] {
                Some(text) => #[trigger] line_texts(lines)[i] == Some(text@),
                None => line_texts(lines)[i] is None,
            },
{
}

/// What is anchored is joined to the directory one by one, and keeps its wildcards.
pub proof fn lemma_anchored_one_by_one(
    base: Seq<char>,
    rules: Seq<Exclusion>,
    found: Seq<Exclusion>,
    i: int,
)
    requires
        are_anchored(base, rules, found),
    ensures
        found.len() == rules.len(),
        0 <= i < rules.len() ==> crate::joins::is_join(base, rules[i].pattern, found[i].pattern)
            && found[i].has_wildcard == rules[i].has_wildcard && found[i].has_dir_wildcard
            == rules[i].has_dir_wildcard,
{
    if 0 <= i < rules.len() {
        assert(found[i].has_wildcard == rules[i].has_wildcard);
    }
}

/// Whether line `i` opens a section.
pub open spec fn opens_section(lines: Seq<Option<Seq<char>>>, i: int) -> bool {
    lines[i] matches Some(text) && is_section_header(crate::text::trimmed(text))
}

proof fn lemma_section_stays_open(lines: Seq<Option<Seq<char>>>, from: int, n: int)
    requires
        0 <= from <= n <= lines.len(),
        forall|i: int| from <= i < n ==> !#[trigger] opens_section(lines, i),
    ensures
        section_after(lines, n) == section_after(lines, from),
    decreases n - from,
{
    if from < n {
        assert(!opens_section(lines, n - 1));
        lemma_section_stays_open(lines, from, n - 1);
    }
}

proof fn lemma_later_lines_do_not_matter(
    lines: Seq<Option<Seq<char>>>,
    line: Option<Seq<char>>,
    n: int,
    os: OS,
)
    requires
        n <= lines.len(),
    ensures
        section_after(lines.push(line), n) == section_after(lines, n),
        patterns_before(lines.push(line), n, os) == patterns_before(lines, n, os),
    decreases n,
{
    if n > 0 {
        assert(lines.push(line)[n - 1] == lines[n - 1]);
        lemma_later_lines_do_not_matter(lines, line, n - 1, os);
    }
}

/// One line more adds the pattern that it states to those of a file, behind them, or
/// nothing.
proof fn lemma_one_line_more(lines: Seq<Option<Seq<char>>>, line: Option<Seq<char>>, os: OS)
    ensures
        patterns_of(lines.push(line), os) == match pattern_at(
            lines.push(line),
            lines.len() as int,
            os,
        ) {
            Some(stated) => patterns_of(lines, os).push(stated),
            None => patterns_of(lines, os),
        },
{
    lemma_later_lines_do_not_matter(lines, line, lines.len() as int, os);
}

/// Lines that say nothing change nothing, wherever they stand and whatever the system: a
/// line that could not be read, an empty one, a comment, the header of a section, and a
/// line that states no pattern. A file without lines states none.
pub proof fn lemma_idle_lines_change_nothing(
    lines: Seq<Option<Seq<char>>>,
    text: Seq<char>,
    os: OS,
)
    ensures
        patterns_of(Seq::empty(), os) == Seq::<Exclusion>::empty(),
        patterns_of(lines.push(None), os) == patterns_of(lines, os),
        is_silent(crate::text::trimmed(text)) || is_section_header(crate::text::trimmed(text))
            || pattern_stated(crate::text::trimmed(text)) is None ==> patterns_of(
            lines.push(Some(text)),
            os,
        ) == patterns_of(lines, os),
{
    lemma_one_line_more(lines, None, os);
    lemma_one_line_more(lines, Some(text), os);
    assert(lines.push(None)[lines.len() as int] is None);
    assert(lines.push(Some(text))[lines.len() as int] == Some(text));
}

/// A line outside of any section is meant for every system: the pattern that it states is
/// added to those of the file.
pub proof fn lemma_line_outside_of_sections(
    lines: Seq<Option<Seq<char>>>,
    text: Seq<char>,
    os: OS,
)
    requires
        forall|i: int| 0 <= i < lines.len() ==> !#[trigger] opens_section(lines, i),
        !is_silent(crate::text::trimmed(text)),
        !is_section_header(crate::text::trimmed(text)),
    ensures
        patterns_of(lines.push(Some(text)), os) == match pattern_stated(crate::text::trimmed(text)) {
            Some(stated) => patterns_of(lines, os).push(stated),
            None => patterns_of(lines, os),
        },
{
    let n = lines.len() as int;
    let more = lines.push(Some(text));
    lemma_one_line_more(lines, Some(text), os);
    lemma_later_lines_do_not_matter(lines, Some(text), n, os);
    lemma_section_stays_open(lines, 0, n);
    assert(more[n] == Some(text));
    assert(section_after(more, n) is None);
}

/// A line below the header of a section, with no other header in between, is meant for the
/// system that the name of the section begins with: `linux` for Linux; `osx` and `ios` for
/// macOS; `vs`, `msys2` and `win` for Windows. On that system, and on every one where the
/// name begins with none of these, the pattern that the line states is added to those of
/// the file; elsewhere nothing is.
pub proof fn lemma_line_in_a_section(
    lines: Seq<Option<Seq<char>>>,
    header: int,
    name: Seq<char>,
    text: Seq<char>,
    os: OS,
)
    requires
        0 <= header < lines.len(),
        lines[header] matches Some(opening) && crate::text::trimmed(opening) == name.push(':')
            && is_section_header(name.push(':')),
        forall|i: int| header < i < lines.len() ==> !#[trigger] opens_section(lines, i),
        !is_silent(crate::text::trimmed(text)),
        !is_section_header(crate::text::trimmed(text)),
        pattern_stated(crate::text::trimmed(text)) is Some,
    ensures
        ({
            let for_linux = "linux"@.is_prefix_of(name);
            let for_mac = "osx"@.is_prefix_of(name) || "ios"@.is_prefix_of(name);
            let for_windows = "vs"@.is_prefix_of(name) || "msys2"@.is_prefix_of(name)
                || "win"@.is_prefix_of(name);
            let meant = match os {
                OS::Linux => for_linux || !for_mac && !for_windows,
                OS::Mac => for_mac || !for_linux && !for_windows,
                OS::Windows => for_windows || !for_linux && !for_mac,
                OS::Unknown => !for_linux && !for_mac && !for_windows,
            };
            patterns_of(lines.push(Some(text)), os) == if meant {
                patterns_of(lines, os).push(pattern_stated(crate::text::trimmed(text))->0)
            } else {
                patterns_of(lines, os)
            }
        }),
{
    let n = lines.len() as int;
    let more = lines.push(Some(text));
    lemma_one_line_more(lines, Some(text), os);
    lemma_later_lines_do_not_matter(lines, Some(text), n, os);
    lemma_section_stays_open(lines, header + 1, n);
    assert(more[n] == Some(text));
    let section = section_name(name.push(':'));
    assert(section_after(more, n) == Some(section));
    lemma_name_of_section(name, "linux"@);
    lemma_name_of_section(name, "osx"@);
    lemma_name_of_section(name, "ios"@);
    lemma_name_of_section(name, "vs"@);
    lemma_name_of_section(name, "msys2"@);
    lemma_name_of_section(name, "win"@);
    lemma_names_of_systems_differ(name);
}

/// The colons at the end of a header make no difference to what its name begins with.
proof fn lemma_name_of_section(name: Seq<char>, start: Seq<char>)
    requires
        start == "linux"@ || start == "osx"@ || start == "ios"@ || start == "vs"@ || start
            == "msys2"@ || start == "win"@,
    ensures
        start.is_prefix_of(section_name(name.push(':'))) <==> start.is_prefix_of(name),
    decreases name.len(),
{
    let colon = seq![':'];
    reveal_strlit("linux");
    reveal_strlit("osx");
    reveal_strlit("ios");
    reveal_strlit("vs");
    reveal_strlit("msys2");
    reveal_strlit("win");
    assert(forall|i: int| 0 <= i < start.len() ==> start[i] != ':');
    assert(name.push(':') =~= name + colon);
    crate::text::lemma_copies_at_the_end_are_dropped(name, colon);
    if name.len() > 0 && name.last() == ':' {
        let shorter = name.drop_last();
        assert(shorter.push(':') =~= name);
        lemma_name_of_section(shorter, start);
        if start.is_prefix_of(name) {
            assert forall|i: int| 0 <= i < start.len() implies start[i] == name[i] by {
                assert(start[i] == name.subrange(0, start.len() as int)[i]);
            }
            if start.len() == name.len() {
                assert(start[start.len() - 1] == ':');
            }
            assert(start =~= shorter.subrange(0, start.len() as int));
        }
        if start.is_prefix_of(shorter) {
            assert(start =~= name.subrange(0, start.len() as int)) by {
                assert(start =~= shorter.subrange(0, start.len() as int));
            }
        }
    } else if colon.is_suffix_of(name) {
        assert(colon[0] == name.subrange(name.len() - 1, name.len() as int)[0]);
    }
}

/// No name begins with those of two systems.
proof fn lemma_names_of_systems_differ(name: Seq<char>)
    ensures
        "linux"@.is_prefix_of(name) ==> !"osx"@.is_prefix_of(name) && !"ios"@.is_prefix_of(name)
            && !"vs"@.is_prefix_of(name) && !"msys2"@.is_prefix_of(name) && !"win"@.is_prefix_of(
            name,
        ),
        "osx"@.is_prefix_of(name) || "ios"@.is_prefix_of(name) ==> !"vs"@.is_prefix_of(name)
            && !"msys2"@.is_prefix_of(name) && !"win"@.is_prefix_of(name),
{
    reveal_strlit("linux");
    reveal_strlit("osx");
    reveal_strlit("ios");
    reveal_strlit("vs");
    reveal_strlit("msys2");
    reveal_strlit("win");
    lemma_first_of_prefix("linux"@, name);
    lemma_first_of_prefix("osx"@, name);
    lemma_first_of_prefix("ios"@, name);
    lemma_first_of_prefix("vs"@, name);
    lemma_first_of_prefix("msys2"@, name);
    lemma_first_of_prefix("win"@, name);
}

proof fn lemma_first_of_prefix(start: Seq<char>, name: Seq<char>)
    requires
        start.len() > 0,
    ensures
        start.is_prefix_of(name) ==> name[0] == start[0],
{
    if start.is_prefix_of(name) {
        assert(start[0] == name.subrange(0, start.len() as int)[0]);
    }
}

/// A file with one section and one pattern in it: the name of the section begins with
/// `start`, or is `start`, and the line below its header sets one of the two variables to
/// `text`. The file states the pattern on the system that the name is for, and none
/// elsewhere.
pub proof fn lemma_section_is_for_its_system(
    start: Seq<char>,
    rest: Seq<char>,
    head: Seq<char>,
    text: Seq<char>,
    os: OS,
)
    requires
        start == "linux"@ || start == "osx"@ || start == "ios"@ || start == "vs"@ || start
            == "msys2"@ || start == "win"@,
        !rest.contains(' '),
        !rest.contains('='),
        is_assignment(head),
        is_value(text),
    ensures
        ({
            let lines = seq![Some(start + rest + ":"@), Some(head + text)];
            let its = if start == "linux"@ {
                OS::Linux
            } else if start == "osx"@ || start == "ios"@ {
                OS::Mac
            } else {
                OS::Windows
            };
            patterns_of(lines, os) == if os == its {
                seq![pattern_written(text)]
            } else {
                Seq::empty()
            }
        }),
{
    let name = start + rest;
    let opening = name + ":"@;
    let line = head + text;
    let first = seq![Some(opening)];
    let lines = seq![Some(opening), Some(line)];
    reveal_strlit(":");
    reveal_strlit("linux");
    reveal_strlit("osx");
    reveal_strlit("ios");
    reveal_strlit("vs");
    reveal_strlit("msys2");
    reveal_strlit("win");
    assert(opening =~= name.push(':'));
    assert(start =~= name.subrange(0, start.len() as int));
    assert forall|i: int| 0 <= i < opening.len() implies #[trigger] opening[i] != ' ' && opening[i]
        != '=' by {
        if start.len() <= i < name.len() {
            assert(opening[i] == rest[i - start.len()]);
            assert(rest.contains(rest[i - start.len()]));
        } else if i < start.len() {
            assert(opening[i] == start[i]);
        }
    }
    assert(opening[0] == start[0]);
    lemma_kinds_of_lines(opening);
    assert(crate::text::trimmed(opening) == opening) by {
        crate::text::lemma_trimmed_in_between(Seq::empty(), opening, Seq::empty());
        assert(Seq::<char>::empty() + opening + Seq::<char>::empty() =~= opening);
    }
    lemma_assigning_line(head, text);
    lemma_line_in_a_section(first, 0, name, line, os);
    assert(first.push(Some(line)) =~= lines);
    lemma_idle_lines_change_nothing(Seq::empty(), opening, os);
    assert(Seq::<Option<Seq<char>>>::empty().push(Some(opening)) =~= first);
    lemma_names_of_systems_differ(name);
    assert(Seq::<Exclusion>::empty().push(pattern_written(text)) =~= seq![pattern_written(text)]);
    lemma_first_of_prefix("osx"@, name);
    lemma_first_of_prefix("ios"@, name);
    lemma_first_of_prefix("linux"@, name);
    lemma_first_of_prefix("vs"@, name);
    lemma_first_of_prefix("msys2"@, name);
    lemma_first_of_prefix("win"@, name);
}

/// What a list of patterns says, one by one: the text of each pattern and its wildcards.
pub proof fn lemma_exclusions_one_by_one(list: Seq<ExcludePattern>)
    ensures
        exclusions(list).len() == list.len(),
        forall|i: int|
            0 <= i < list.len() ==> {
                &&& (#[trigger] exclusions(list)[i]).pattern == list[i].pattern@
                &&& exclusions(list)[i].has_wildcard == list[i].has_wildcard
                &&& exclusions(list)[i].has_dir_wildcard == list[i].has_dir_wildcard
            },
{
}

} // verus!
