//! Versions: numbers with a dot between them.

use vstd::prelude::*;

use crate::text::chars_of;

verus! {

/// The numbers that are read so far, where `text` is the beginning of a version: digits,
/// and single dots between them. A number that does not fit is not read.
pub open spec fn numbers_read(text: Seq<char>) -> Option<Seq<u64>>
    decreases text.len(),
{
    if text.len() == 0 {
        Some(Seq::empty())
    } else {
        let c = text.last();
        let rest = text.drop_last();
        let begins = rest.len() == 0 || rest.last() == '.';
        match numbers_read(rest) {
            Some(numbers) => if '0' <= c <= '9' {
                if begins {
                    Some(numbers.push((c as u64 - '0' as u64) as u64))
                } else {
                    let number = numbers.last() * 10 + (c as u64 - '0' as u64);
                    if number <= u64::MAX {
                        Some(numbers.drop_last().push(number as u64))
                    } else {
                        None
                    }
                }
            } else if c == '.' && !begins {
                Some(numbers)
            } else {
                None
            },
            None => None,
        }
    }
}

/// The numbers of a version; none where `name` is not that of one.
pub open spec fn version(name: Seq<char>) -> Option<Seq<u64>> {
    if name.len() == 0 || name.last() == '.' {
        None
    } else {
        numbers_read(name)
    }
}

/// Whether the version `a` is older than the version `b`: where they first differ, `a` has
/// the smaller number or ends.
pub open spec fn older(a: Seq<u64>, b: Seq<u64>) -> bool {
    crate::order::numbers_before(
        a.map_values(|n: u64| n as int),
        b.map_values(|n: u64| n as int),
    )
}

/// The numbers of a version.
pub fn read_version(name: &str) -> (res: Option<Vec<u64>>)
    ensures
        match res {
            Some(numbers) => version(name@) == Some(numbers@),
            None => version(name@) is None,
        },
{
    let chars = chars_of(name);
    let mut numbers: Vec<u64> = Vec::new();
    let mut fails = false;
    let mut begins = true;
    let mut i: usize = 0;
    while i < chars.len()
        invariant
            i <= chars.len(),
            chars@ == name@,
            begins == (i == 0 || chars@[i - 1] == '.'),
            match numbers_read(chars@.take(i as int)) {
                Some(found) => !fails && found == numbers@,
                None => fails,
            },
            !fails && !begins ==> numbers@.len() > 0,
        decreases chars.len() - i,
    {
        let c = chars[i];
        assert(chars@.take(i + 1).drop_last() =~= chars@.take(i as int));
        assert(chars@.take(i + 1).last() == c);
        if !fails && '0' <= c && c <= '9' {
            let digit: u64 = c as u64 - '0' as u64;
            if begins {
                numbers.push(digit);
            } else {
                let last: u64 = numbers[numbers.len() - 1];
                if last > (u64::MAX - digit) / 10 {
                    fails = true;
                } else {
                    numbers.pop();
                    numbers.push(last * 10 + digit);
                }
            }
        } else if c != '.' || begins {
            fails = true;
        }
        begins = c == '.';
        i += 1;
    }
    assert(chars@.take(chars@.len() as int) =~= name@);
    if fails || begins {
        None
    } else {
        Some(numbers)
    }
}

fn is_older(a: &[u64], b: &[u64]) -> (res: bool)
    ensures
        res == older(a@, b@),
{
    let ghost x = a@.map_values(|n: u64| n as int);
    let ghost y = b@.map_values(|n: u64| n as int);
    let mut i: usize = 0;
    while i < a.len() && i < b.len()
        invariant
            i <= a.len(),
            i <= b.len(),
            x == a@.map_values(|n: u64| n as int),
            y == b@.map_values(|n: u64| n as int),
            forall|j: int| 0 <= j < i ==> #[trigger] x[j] == y[j],
        decreases a.len() - i,
    {
        if a[i] < b[i] {
            assert(crate::order::parts_before(x, y, i as int));
            return true;
        }
        if b[i] < a[i] {
            assert(y[i as int] < x[i as int]);
            return false;
        }
        i += 1;
    }
    if i < b.len() {
        assert(crate::order::parts_before(x, y, i as int));
    }
    i < b.len()
}

/// Which of the names is that of the latest version: no other is that of a newer one.
/// Names that are not those of versions are passed over.
pub fn latest(names: &[String]) -> (res: Option<usize>)
    ensures
        match res {
            Some(i) => {
                &&& i < names@.len()
                &&& version(names@[i as int]@) matches Some(found) && forall|j: int|
                    0 <= j < names@.len() ==> (version((#[trigger] names@[j])@) matches Some(other)
                        ==> !older(found, other))
            },
            None => forall|j: int|
                0 <= j < names@.len() ==> version((#[trigger] names@[j])@) is None,
        },
{
    let mut best: Option<(usize, Vec<u64>)> = None;
    let mut i: usize = 0;
    while i < names.len()
        invariant
            i <= names.len(),
            match best {
                Some((k, found)) => {
                    &&& k < i
                    &&& version(names@[k as int]@) == Some(found@)
                    &&& forall|j: int|
                        0 <= j < i ==> (version((#[trigger] names@[j])@) matches Some(other)
                            ==> !older(found@, other))
                },
                None => forall|j: int| 0 <= j < i ==> version((#[trigger] names@[j])@) is None,
            },
        decreases names.len() - i,
    {
        if let Some(numbers) = read_version(names[i].as_str()) {
            let newer = match &best {
                Some((_, found)) => is_older(found.as_slice(), numbers.as_slice()),
                None => true,
            };
            if newer {
                proof {
                    lemma_newer_stays_newest(names@, i as int, best, numbers@);
                }
                best = Some((i, numbers));
            }
        }
        i += 1;
    }
    match best {
        Some((k, _)) => Some(k),
        None => None,
    }
}

/// A version that is newer than the newest so far is newer than all so far.
proof fn lemma_newer_stays_newest(
    names: Seq<String>,
    i: int,
    best: Option<(usize, Vec<u64>)>,
    numbers: Seq<u64>,
)
    requires
        0 <= i < names.len(),
        version(names[i]@) == Some(numbers),
        match best {
            Some((k, found)) => {
                &&& older(found@, numbers)
                &&& forall|j: int|
                    0 <= j < i ==> (version((#[trigger] names[j])@) matches Some(other) ==> !older(
                        found@,
                        other,
                    ))
            },
            None => forall|j: int| 0 <= j < i ==> version((#[trigger] names[j])@) is None,
        },
    ensures
        forall|j: int|
            0 <= j < i + 1 ==> (version((#[trigger] names[j])@) matches Some(other) ==> !older(
                numbers,
                other,
            )),
{
    assert forall|j: int| 0 <= j < i + 1 implies (version((#[trigger] names[j])@) matches Some(
        other,
    ) ==> !older(numbers, other)) by {
        if let Some(other) = version(names[j]@) {
            if j == i {
                crate::order::lemma_numbers_before_irreflexive(
                    numbers.map_values(|n: u64| n as int),
                );
            } else if older(numbers, other) {
                let (_, newest) = best.unwrap();
                let found = newest@;
                crate::order::lemma_numbers_before_transitive(
                    found.map_values(|n: u64| n as int),
                    numbers.map_values(|n: u64| n as int),
                    other.map_values(|n: u64| n as int),
                );
            }
        }
    }
}

proof fn lemma_what_fails_stays_failed(text: Seq<char>, k: int)
    requires
        0 <= k <= text.len(),
        numbers_read(text.take(k)) is None,
    ensures
        numbers_read(text) is None,
    decreases text.len() - k,
{
    if k == text.len() {
        assert(text.take(k) =~= text);
    } else {
        assert(text.take(k + 1).drop_last() =~= text.take(k));
        lemma_what_fails_stays_failed(text, k + 1);
    }
}

/// A version consists of digits and of dots, each between two digits: a name with another
/// character in it, and one in which a dot is not between two digits, is not that of a
/// version.
pub proof fn lemma_not_a_version(name: Seq<char>, i: int)
    requires
        0 <= i < name.len(),
        ({
            ||| !('0' <= name[i] <= '9') && name[i] != '.'
            ||| name[i] == '.' && (i == 0 || i == name.len() - 1 || name[i - 1] == '.')
        }),
    ensures
        version(name) is None,
        version(Seq::empty()) is None,
{
    if !(name[i] == '.' && i == name.len() - 1) {
        let front = name.take(i + 1);
        assert(front.last() == name[i]);
        assert(front.drop_last() =~= name.take(i));
        if i > 0 {
            assert(front.drop_last().last() == name[i - 1]);
        }
        assert(numbers_read(front) is None);
        lemma_what_fails_stays_failed(name, i + 1);
    }
}

/// The numbers of a version, digit by digit: a digit alone is its value; a digit behind a
/// version continues its last number, in base ten, as long as that fits; and behind a dot
/// a digit begins a number of its own.
pub proof fn lemma_numbers_digit_by_digit(name: Seq<char>, c: char)
    requires
        '0' <= c <= '9',
    ensures
        ({
            let digit = c as int - '0' as int;
            &&& version(seq![c]) == Some(seq![digit as u64])
            &&& match version(name) {
                Some(numbers) => {
                    &&& numbers.len() > 0
                    &&& version(name.push(c)) == if numbers.last() * 10 + digit <= u64::MAX {
                        Some(numbers.drop_last().push((numbers.last() * 10 + digit) as u64))
                    } else {
                        None
                    }
                    &&& version(name.push('.').push(c)) == Some(numbers.push(digit as u64))
                },
                None => true,
            }
        }),
{
    let digit = c as int - '0' as int;
    let one = seq![c];
    assert(one.drop_last() =~= Seq::empty());
    assert(numbers_read(Seq::empty()) == Some(Seq::<u64>::empty()));
    assert(Seq::<u64>::empty().push(digit as u64) =~= seq![digit as u64]);
    assert(version(one) == Some(seq![digit as u64]));
    if let Some(numbers) = version(name) {
        lemma_a_version_has_numbers(name);
        assert(name.push(c).drop_last() =~= name);
        assert(name.push('.').drop_last() =~= name);
        assert(name.push('.').push(c).drop_last() =~= name.push('.'));
        assert(numbers_read(name.push('.')) == Some(numbers));
    }
}

proof fn lemma_a_version_has_numbers(text: Seq<char>)
    requires
        text.len() > 0,
        numbers_read(text) is Some,
    ensures
        numbers_read(text)->0.len() > 0,
    decreases text.len(),
{
    let rest = text.drop_last();
    if rest.len() > 0 && numbers_read(rest) is Some {
        lemma_a_version_has_numbers(rest);
    }
}

/// The first difference decides which of two versions is older; a version that another one
/// continues is the older one.
pub proof fn lemma_first_difference_decides_age(
    front: Seq<u64>,
    x: u64,
    rest: Seq<u64>,
    y: u64,
    other: Seq<u64>,
)
    requires
        x < y,
    ensures
        older(front + seq![x] + rest, front + seq![y] + other),
        !older(front + seq![y] + other, front + seq![x] + rest),
        older(front, front + seq![x] + rest),
        !older(front + seq![x] + rest, front),
        !older(front, front),
{
    let f = front.map_values(|n: u64| n as int);
    let r = rest.map_values(|n: u64| n as int);
    let o = other.map_values(|n: u64| n as int);
    assert((front + seq![x] + rest).map_values(|n: u64| n as int) =~= f + seq![x as int] + r);
    assert((front + seq![y] + other).map_values(|n: u64| n as int) =~= f + seq![y as int] + o);
    assert(f + seq![x as int] + r =~= f + (seq![x as int] + r));
    crate::order::lemma_first_difference_decides(f, x as int, r, y as int, o);
    crate::order::lemma_beginning_is_ahead(f, seq![x as int] + r);
    crate::order::lemma_numbers_before_irreflexive(f);
}

} // verus!
