//! Paths as text: one way to write them, and resolving them.

use vstd::prelude::*;

use crate::platform::OS;
use crate::text::{chars_of, starts_with};

verus! {

/// The mark that Windows puts in front of a canonical path: two backslashes, a
/// question mark and a backslash.
pub open spec fn verbatim_mark() -> Seq<char> {
    seq!['\\', '\\', '?', '\\']
}

/// Whether `path` carries the verbatim mark.
pub open spec fn is_verbatim(path: Seq<char>) -> bool {
    verbatim_mark().is_prefix_of(path)
}

/// A backslash turned into a slash.
pub open spec fn slashed(c: char) -> char {
    if c == '\\' {
        '/'
    } else {
        c
    }
}

/// The one way in which a path is written: without the verbatim mark, and with
/// slashes in place of backslashes.
pub open spec fn normalized(path: Seq<char>) -> Seq<char> {
    let rest = if is_verbatim(path) {
        path.skip(4)
    } else {
        path
    };
    rest.map_values(|c: char| slashed(c))
}

/// Writes a path with slashes and without the verbatim mark of Windows.
pub fn normalize_windows_path(path_str: &str) -> (res: String)
    ensures
        res@ == normalized(path_str@),
{
    let chars = chars_of(path_str);
    proof {
        reveal_strlit("\\\\?\\");
        assert("\\\\?\\"@ =~= verbatim_mark());
    }
    let start: usize = if starts_with(chars.as_slice(), "\\\\?\\") {
        4
    } else {
        0
    };
    let ghost rest = path_str@.skip(start as int);
    let mut res: String = String::new();
    let mut i: usize = start;
    while i < chars.len()
        invariant
            start <= i <= chars.len(),
            chars@ == path_str@,
            rest == path_str@.skip(start as int),
            res@ == rest.take(i - start).map_values(|c: char| slashed(c)),
        decreases chars.len() - i,
    {
        let c = chars[i];
        if c == '\\' {
            res.push('/');
        } else {
            res.push(c);
        }
        i += 1;
        assert(rest.take(i - start) =~= rest.take(i - start - 1).push(c));
        assert(res@ =~= rest.take(i - start).map_values(|c: char| slashed(c)));
    }
    assert(rest.take(rest.len() as int) =~= rest);
    assert(path_str@.skip(0) =~= path_str@);
    res
}

/// What comes of resolving `path`, given its canonical form where it exists: a path, or
/// what is wrong.
pub open spec fn resolution(path: Seq<char>, canonical: Option<Seq<char>>, os: OS) -> Result<
    Seq<char>,
    Seq<char>,
> {
    match canonical {
        Some(found) => Ok(
            if os == OS::Windows {
                normalized(found)
            } else {
                found
            },
        ),
        None => Err("Path '"@ + path + "' does not exist"@),
    }
}

/// The path that `path` stands for, given its canonical form where it exists. On
/// Windows the canonical form is normalized; elsewhere it is taken as it is.
pub fn resolve_path(path: &str, canonical: Option<&str>, os: OS) -> (res: Result<String, String>)
    ensures
        match canonical {
            Some(found) => res matches Ok(text) && text@ == if os == OS::Windows {
                normalized(found@)
            } else {
                found@
            },
            None => res matches Err(message) && message@ == "Path '"@ + path@
                + "' does not exist"@,
        },
        ({
            let found = match canonical {
                Some(text) => Some(text@),
                None => None,
            };
            match res {
                Ok(text) => resolution(path@, found, os) == Ok::<Seq<char>, Seq<char>>(text@),
                Err(message) => resolution(path@, found, os) == Err::<Seq<char>, Seq<char>>(
                    message@,
                ),
            }
        }),
{
    match canonical {
        Some(found) => {
            if os == OS::Windows {
                Ok(normalize_windows_path(found))
            } else {
                Ok(found.to_string())
            }
        },
        None => {
            let mut message = "Path '".to_string();
            message.append(path);
            message.append("' does not exist");
            Err(message)
        },
    }
}

/// A normalized path holds no backslash.
pub proof fn lemma_normalized_has_no_backslash(path: Seq<char>)
    ensures
        !normalized(path).contains('\\'),
{
}

/// A path without a backslash is already written the one way.
pub proof fn lemma_slashed_path_is_kept(path: Seq<char>)
    requires
        !path.contains('\\'),
    ensures
        normalized(path) == path,
{
    if is_verbatim(path) {
        assert(path[0] == path.subrange(0, 4)[0]);
        assert(path.contains('\\'));
    }
    assert forall|i: int| 0 <= i < path.len() implies normalized(path)[i] == path[i] by {
        assert(path.contains(path[i]));
    }
    assert(normalized(path) =~= path);
}

/// Normalizing twice changes nothing more.
pub proof fn lemma_normalizing_is_idempotent(path: Seq<char>)
    ensures
        normalized(normalized(path)) == normalized(path),
{
    lemma_normalized_has_no_backslash(path);
    lemma_slashed_path_is_kept(normalized(path));
}

/// A path and the same path with the verbatim mark in front are normalized to the
/// same text.
pub proof fn lemma_verbatim_mark_is_dropped(path: Seq<char>)
    requires
        !is_verbatim(path),
    ensures
        normalized(verbatim_mark() + path) == normalized(path),
{
    assert((verbatim_mark() + path).subrange(0, 4) =~= verbatim_mark());
    assert((verbatim_mark() + path).skip(4) =~= path);
}

/// How a path is written, character by character: a slash where it has a backslash, and
/// else what it has. Only two backslashes, a question mark and a backslash in front are
/// left out.
pub proof fn lemma_written_character_by_character(path: Seq<char>)
    ensures
        ({
            let marked = path.len() >= 4 && path[0] == '\\' && path[1] == '\\' && path[2] == '?'
                && path[3] == '\\';
            let start: int = if marked {
                4
            } else {
                0
            };
            &&& normalized(path).len() == path.len() - start
            &&& forall|i: int|
                0 <= i < path.len() - start ==> #[trigger] normalized(path)[i] == if path[start + i]
                    == '\\' {
                    '/'
                } else {
                    path[start + i]
                }
        }),
{
    if path.len() >= 4 && path[0] == '\\' && path[1] == '\\' && path[2] == '?' && path[3] == '\\' {
        assert(path.subrange(0, 4) =~= verbatim_mark());
    } else if is_verbatim(path) {
        let front = path.subrange(0, 4);
        assert(front[0] == '\\' && front[1] == '\\' && front[2] == '?' && front[3] == '\\');
    }
}

/// Resolving succeeds exactly where the path exists. The canonical form is kept character
/// by character; only on Windows backslashes are written as slashes and the verbatim mark
/// is left out. A path that does not exist is named in the message.
pub proof fn lemma_resolution_is_the_canonical_form(
    path: Seq<char>,
    canonical: Option<Seq<char>>,
    os: OS,
)
    ensures
        match (canonical, resolution(path, canonical, os)) {
            (Some(found), Ok(text)) => if os == OS::Windows {
                &&& !text.contains('\\')
                &&& !is_verbatim(found) ==> text.len() == found.len() && forall|i: int|
                    0 <= i < found.len() ==> #[trigger] text[i] == found[i] || found[i] == '\\'
                        && text[i] == '/'
                &&& is_verbatim(found) ==> text.len() == found.len() - 4 && forall|i: int|
                    0 <= i < text.len() ==> #[trigger] text[i] == found[i + 4] || found[i + 4]
                        == '\\' && text[i] == '/'
            } else {
                text == found
            },
            (None, Err(message)) => {
                &&& "Path '"@.is_prefix_of(message)
                &&& "' does not exist"@.is_suffix_of(message)
                &&& message.len() == "Path '"@.len() + path.len() + "' does not exist"@.len()
                &&& message.subrange(
                    "Path '"@.len() as int,
                    ("Path '"@.len() + path.len()) as int,
                ) == path
            },
            _ => false,
        },
{
    match canonical {
        Some(found) => {
            lemma_normalized_has_no_backslash(found);
        },
        None => {
            let (a, b) = ("Path '"@, "' does not exist"@);
            let message = a + path + b;
            assert(a =~= message.subrange(0, a.len() as int));
            assert(b =~= message.subrange(message.len() - b.len(), message.len() as int));
            assert(message.subrange(a.len() as int, (a.len() + path.len()) as int) =~= path);
        },
    }
}

} // verus!
