//! Plain operations on text, stated over sequences of characters.

use vstd::prelude::*;

verus! {

/// `String::push` adds one character at the end of the string.
pub assume_specification[ String::push ](text: &mut String, ch: char)
    ensures
        final(text)@ == old(text)@.push(ch),
;

/// Whether `c` has the Unicode property `White_Space`.
pub open spec fn is_white_space(c: char) -> bool {
    ||| '\u{9}' <= c <= '\u{d}'
    ||| c == ' '
    ||| c == '\u{85}'
    ||| c == '\u{a0}'
    ||| c == '\u{1680}'
    ||| '\u{2000}' <= c <= '\u{200a}'
    ||| c == '\u{2028}'
    ||| c == '\u{2029}'
    ||| c == '\u{202f}'
    ||| c == '\u{205f}'
    ||| c == '\u{3000}'
}

/// `s` without the white space at its start.
pub open spec fn trimmed_start(s: Seq<char>) -> Seq<char>
    decreases s.len(),
{
    if s.len() > 0 && is_white_space(s.first()) {
        trimmed_start(s.drop_first())
    } else {
        s
    }
}

/// `s` without the white space at its end.
pub open spec fn trimmed_end(s: Seq<char>) -> Seq<char>
    decreases s.len(),
{
    if s.len() > 0 && is_white_space(s.last()) {
        trimmed_end(s.drop_last())
    } else {
        s
    }
}

/// `s` without the white space at either end.
pub open spec fn trimmed(s: Seq<char>) -> Seq<char> {
    trimmed_end(trimmed_start(s))
}

/// `str::trim` removes leading and trailing white space, as Unicode defines
/// white space, and nothing else.
pub assume_specification[ str::trim ](text: &str) -> (res: &str)
    ensures
        res@ == trimmed(text@),
;

/// An ASCII capital letter turned into its small letter.
pub open spec fn ascii_lower(c: char) -> char {
    if 'A' <= c <= 'Z' {
        (c as u32 + 32) as char
    } else {
        c
    }
}

/// What `str::to_lowercase` makes of a text.
pub uninterp spec fn lowercase(s: Seq<char>) -> Seq<char>;

/// `str::to_lowercase` follows the Unicode case mappings, which are too many to state:
/// its result is named. Of an ASCII text it turns the capital letters into small ones
/// and keeps the rest.
pub assume_specification[ str::to_lowercase ](text: &str) -> (res: String)
    ensures
        res@ == lowercase(text@),
        vstd::utf8::is_ascii_chars(text@) ==> res@ == text@.map_values(|c: char| ascii_lower(c)),
;

/// The characters of `text`, in order.
pub fn chars_of(text: &str) -> (res: Vec<char>)
    ensures
        res@ == text@,
{
    let mut res: Vec<char> = Vec::new();
    for c in it: text.chars()
        invariant
            it.seq() == text@,
            res@ == text@.take(it.index()),
    {
        res.push(c);
    }
    res
}

/// The string made of `chars`.
pub fn string_of(chars: &[char]) -> (res: String)
    ensures
        res@ == chars@,
{
    let mut res: String = String::new();
    let mut i: usize = 0;
    while i < chars.len()
        invariant
            i <= chars.len(),
            res@ == chars@.take(i as int),
        decreases chars.len() - i,
    {
        res.push(chars[i]);
        i += 1;
    }
    res
}

/// Whether two strings hold the same text.
pub fn same_text(a: &str, b: &str) -> (res: bool)
    ensures
        res == (a@ == b@),
{
    a.to_owned() == b.to_owned()
}

/// `s` without the copies of `suffix` at its end.
pub open spec fn without_trailing(s: Seq<char>, suffix: Seq<char>) -> Seq<char>
    decreases s.len(),
{
    if suffix.len() > 0 && suffix.is_suffix_of(s) {
        without_trailing(s.take(s.len() - suffix.len()), suffix)
    } else {
        s
    }
}

/// Whether `text` begins with `prefix`.
pub fn starts_with(text: &[char], prefix: &str) -> (res: bool)
    ensures
        res == prefix@.is_prefix_of(text@),
{
    let wanted = chars_of(prefix);
    if wanted.len() > text.len() {
        return false;
    }
    let mut i: usize = 0;
    while i < wanted.len()
        invariant
            i <= wanted.len() <= text.len(),
            wanted@ == prefix@,
            forall|j: int| 0 <= j < i ==> wanted@[j] == text@[j],
        decreases wanted.len() - i,
    {
        if wanted[i] != text[i] {
            assert(prefix@[i as int] != text@.subrange(0, prefix@.len() as int)[i as int]);
            return false;
        }
        i += 1;
    }
    assert(prefix@ =~= text@.subrange(0, prefix@.len() as int));
    true
}

/// Whether `text` ends with `suffix`.
pub fn ends_with(text: &[char], suffix: &str) -> (res: bool)
    ensures
        res == suffix@.is_suffix_of(text@),
{
    let wanted = chars_of(suffix);
    if wanted.len() > text.len() {
        return false;
    }
    let offset: usize = text.len() - wanted.len();
    let mut i: usize = 0;
    while i < wanted.len()
        invariant
            i <= wanted.len() <= text.len(),
            offset == text.len() - wanted.len(),
            wanted@ == suffix@,
            forall|j: int| 0 <= j < i ==> #[trigger] wanted@[j] == text@[offset + j],
        decreases wanted.len() - i,
    {
        if wanted[i] != text[offset + i] {
            assert(suffix@[i as int] != text@.subrange(
                text@.len() - suffix@.len(),
                text@.len() as int,
            )[i as int]);
            return false;
        }
        i += 1;
    }
    assert(suffix@ =~= text@.subrange(text@.len() - suffix@.len(), text@.len() as int));
    true
}

/// Whether `c` occurs in `text`.
pub fn contains_char(text: &[char], c: char) -> (res: bool)
    ensures
        res == text@.contains(c),
{
    let mut i: usize = 0;
    while i < text.len()
        invariant
            i <= text.len(),
            forall|j: int| 0 <= j < i ==> text@[j] != c,
        decreases text.len() - i,
    {
        if text[i] == c {
            assert(text@[i as int] == c);
            return true;
        }
        i += 1;
    }
    false
}

/// `text` without the copies of `suffix` at its end.
pub fn trim_end_matches<'a>(text: &'a [char], suffix: &str) -> (res: &'a [char])
    ensures
        res@ == without_trailing(text@, suffix@),
{
    let step: usize = chars_of(suffix).len();
    if step == 0 {
        return text;
    }
    let mut rest: &'a [char] = text;
    while ends_with(rest, suffix)
        invariant
            step == suffix@.len(),
            step > 0,
            without_trailing(rest@, suffix@) == without_trailing(text@, suffix@),
        decreases rest.len(),
    {
        let shorter: &'a [char] = &rest[0..rest.len() - step];
        assert(shorter@ == rest@.take(rest@.len() - suffix@.len()));
        rest = shorter;
    }
    rest
}

/// Trimming takes the white space in front of a text and leaves the text, where that has
/// none at its ends.
pub proof fn lemma_blanks_are_trimmed(blanks: Seq<char>, text: Seq<char>)
    requires
        forall|i: int| 0 <= i < blanks.len() ==> is_white_space(#[trigger] blanks[i]),
        text.len() > 0,
        !is_white_space(text.first()),
        !is_white_space(text.last()),
    ensures
        trimmed(blanks + text) == text,
    decreases blanks.len(),
{
    if blanks.len() == 0 {
        assert(blanks + text =~= text);
    } else {
        let fewer = blanks.drop_first();
        assert((blanks + text).first() == blanks[0]);
        assert((blanks + text).drop_first() =~= fewer + text);
        assert forall|i: int| 0 <= i < fewer.len() implies is_white_space(#[trigger] fewer[i]) by {
            assert(fewer[i] == blanks[i + 1]);
        }
        lemma_blanks_are_trimmed(fewer, text);
    }
}

proof fn lemma_front_is_trimmed(front: Seq<char>, rest: Seq<char>)
    requires
        forall|i: int| 0 <= i < front.len() ==> is_white_space(#[trigger] front[i]),
    ensures
        trimmed_start(front + rest) == trimmed_start(rest),
    decreases front.len(),
{
    if front.len() == 0 {
        assert(front + rest =~= rest);
    } else {
        let fewer = front.drop_first();
        assert((front + rest).first() == front[0]);
        assert((front + rest).drop_first() =~= fewer + rest);
        assert forall|i: int| 0 <= i < fewer.len() implies is_white_space(#[trigger] fewer[i]) by {
            assert(fewer[i] == front[i + 1]);
        }
        lemma_front_is_trimmed(fewer, rest);
    }
}

proof fn lemma_back_is_trimmed(rest: Seq<char>, back: Seq<char>)
    requires
        forall|i: int| 0 <= i < back.len() ==> is_white_space(#[trigger] back[i]),
    ensures
        trimmed_end(rest + back) == trimmed_end(rest),
    decreases back.len(),
{
    if back.len() == 0 {
        assert(rest + back =~= rest);
    } else {
        let fewer = back.drop_last();
        assert((rest + back).last() == back.last());
        assert(is_white_space(back[back.len() - 1]));
        assert((rest + back).drop_last() =~= rest + fewer);
        assert forall|i: int| 0 <= i < fewer.len() implies is_white_space(#[trigger] fewer[i]) by {
            assert(fewer[i] == back[i]);
        }
        lemma_back_is_trimmed(rest, fewer);
    }
}

/// Trimming takes the white space at both ends of a text, all of it, and leaves what is in
/// between.
pub proof fn lemma_trimmed_in_between(front: Seq<char>, text: Seq<char>, back: Seq<char>)
    requires
        forall|i: int| 0 <= i < front.len() ==> is_white_space(#[trigger] front[i]),
        forall|i: int| 0 <= i < back.len() ==> is_white_space(#[trigger] back[i]),
        text.len() > 0 ==> !is_white_space(text.first()) && !is_white_space(text.last()),
    ensures
        trimmed(front + text + back) == text,
{
    assert(front + text + back =~= front + (text + back));
    lemma_front_is_trimmed(front, text + back);
    if text.len() > 0 {
        assert((text + back).first() == text.first());
        lemma_back_is_trimmed(text, back);
    } else {
        assert(text + back =~= back + Seq::empty());
        lemma_front_is_trimmed(back, Seq::empty());
        assert(text =~= Seq::empty());
    }
}

/// What is left without the copies of a suffix does not end with it, and the copies make
/// no difference.
pub proof fn lemma_copies_at_the_end_are_dropped(s: Seq<char>, suffix: Seq<char>)
    requires
        suffix.len() > 0,
    ensures
        without_trailing(s + suffix, suffix) == without_trailing(s, suffix),
        !suffix.is_suffix_of(s) ==> without_trailing(s, suffix) == s,
{
    let whole = s + suffix;
    assert(whole.subrange(whole.len() - suffix.len(), whole.len() as int) =~= suffix);
    assert(whole.take(whole.len() - suffix.len()) =~= s);
}

} // verus!
