//! The release of the kernel, and what depends on it.
use vstd::prelude::*;
use vstd::string::StrSliceExecFns;

use crate::event_loop::SysAugError;

verus! {

/// The value of a digit.
pub open spec fn digit(c: char) -> nat {
    (c as u32 - '0' as u32) as nat
}

/// The number that a row of digits stands for.
pub open spec fn decimal(s: Seq<char>) -> nat
    decreases s.len(),
{
    if s.len() == 0 {
        0
    } else {
        decimal(s.drop_last()) * 10 + digit(s.last())
    }
}

/// The text without the plus sign that it may start with.
pub open spec fn without_sign(s: Seq<char>) -> Seq<char> {
    if s.len() > 0 && s[0] == '+' {
        s.skip(1)
    } else {
        s
    }
}

/// The number that a text stands for: digits only, at least one, maybe after a plus sign, and no
/// more than fits.
pub open spec fn number(s: Seq<char>) -> Option<usize> {
    let digits = without_sign(s);
    if digits.len() > 0 && (forall|i: int|
        0 <= i < digits.len() ==> '0' <= #[trigger] digits[i] <= '9') && decimal(digits)
        <= usize::MAX {
        Some(decimal(digits) as usize)
    } else {
        None
    }
}

/// Where the part of a text ends that starts at `from`: at the next dot, or with the text.
pub open spec fn part_end(s: Seq<char>, from: int) -> int
    decreases s.len() - from,
{
    if from >= s.len() || s[from] == '.' {
        from
    } else {
        part_end(s, from + 1)
    }
}

/// The part of a text before the first dot.
pub open spec fn first_part(s: Seq<char>) -> Seq<char> {
    s.take(part_end(s, 0))
}

/// The part of a text between its first two dots.
pub open spec fn second_part(s: Seq<char>) -> Seq<char> {
    let from = part_end(s, 0) + 1;
    s.subrange(from, part_end(s, from))
}

/// The part of a text that starts at `from` ends within the text, and holds no dot.
proof fn lemma_part_end(s: Seq<char>, from: int)
    requires
        0 <= from <= s.len(),
    ensures
        from <= part_end(s, from) <= s.len(),
        part_end(s, from) < s.len() ==> s[part_end(s, from)] == '.',
        forall|i: int| from <= i < part_end(s, from) ==> #[trigger] s[i] != '.',
    decreases s.len() - from,
{
    if from < s.len() && s[from] != '.' {
        lemma_part_end(s, from + 1);
    }
}

/// A longer row of digits stands for no smaller number.
proof fn lemma_decimal_grows(s: Seq<char>, i: int)
    requires
        0 <= i <= s.len(),
    ensures
        decimal(s.take(i)) <= decimal(s),
    decreases s.len() - i,
{
    if i < s.len() {
        assert(s.take(i + 1).drop_last() =~= s.take(i));
        lemma_decimal_grows(s, i + 1);
    } else {
        assert(s.take(i) =~= s);
    }
}

/// Where the part of a text ends that starts at `from`.
fn find_part_end(text: &str, from: usize) -> (r: usize)
    requires
        from <= text@.len(),
    ensures
        r == part_end(text@, from as int),
        from <= r <= text@.len() <= usize::MAX,
{
    let len: usize = text.unicode_len();
    let mut end: usize = from;
    while end < len && text.get_char(end) != '.'
        invariant
            from <= end <= len,
            len == text@.len(),
            part_end(text@, from as int) == part_end(text@, end as int),
        decreases len - end,
    {
        end += 1;
    }
    end
}

/// The number that `from..to` of a text stands for.
fn parse_number(text: &str, from: usize, to: usize) -> (r: Option<usize>)
    requires
        from <= to <= text@.len(),
    ensures
        r == number(text@.subrange(from as int, to as int)),
{
    let ghost part = text@.subrange(from as int, to as int);
    let ghost digits = without_sign(part);
    let mut i: usize = from;
    if i < to && text.get_char(i) == '+' {
        i += 1;
    }
    let start: usize = i;
    assert(digits =~= text@.subrange(start as int, to as int));
    if start == to {
        return None;
    }
    let mut value: usize = 0;
    assert(digits.take(0) =~= Seq::<char>::empty());
    while i < to
        invariant
            start <= i <= to,
            to <= text@.len(),
            digits == text@.subrange(start as int, to as int),
            digits == without_sign(part),
            part == text@.subrange(from as int, to as int),
            forall|j: int| 0 <= j < i - start ==> '0' <= #[trigger] digits[j] <= '9',
            value == decimal(digits.take(i - start)),
        decreases to - i,
    {
        let c: char = text.get_char(i);
        assert(c == digits[i - start]);
        if c < '0' || c > '9' {
            return None;
        }
        let d: usize = (c as u32 - '0' as u32) as usize;
        proof {
            let longer = digits.take(i - start + 1);
            assert(longer.drop_last() =~= digits.take(i - start));
            assert(longer.last() == c);
            assert(decimal(longer) == value * 10 + d);
            lemma_decimal_grows(digits, i - start + 1);
        }
        value = match value.checked_mul(10) {
            Some(v) => match v.checked_add(d) {
                Some(v) => v,
                None => {
                    return None;
                },
            },
            None => {
                return None;
            },
        };
        i += 1;
    }
    assert(digits.take(to - start) =~= digits);
    Some(value)
}

/// Whether a kernel of this release reports filtered system calls in the legacy way: those do whose
/// first number is at most 4 and whose second is at most 7.
pub fn is_legacy_seccomp(release: &str) -> (r: Result<bool, SysAugError>)
    requires
        number(first_part(release@)) is Some ==> release@.contains('.'),
    ensures
        match (number(first_part(release@)), number(second_part(release@))) {
            (Some(major), Some(minor)) => r == Ok::<bool, SysAugError>(major <= 4 && minor <= 7),
            _ => r matches Err(SysAugError::ParseKernelVersion(text)) && text@ == release@,
        },
{
    let ghost s = release@;
    let first_end: usize = find_part_end(release, 0);
    assert(first_part(s) =~= s.subrange(0, first_end as int));
    let major: usize = match parse_number(release, 0, first_end) {
        Some(major) => major,
        None => {
            return Err(SysAugError::ParseKernelVersion(release.to_owned()));
        },
    };
    proof {
        lemma_part_end(s, 0);
        let dot = choose|i: int| 0 <= i < s.len() && s[i] == '.';
        assert(s[dot] == '.');
    }
    let second_end: usize = find_part_end(release, first_end + 1);
    match parse_number(release, first_end + 1, second_end) {
        Some(minor) => Ok(major <= 4 && minor <= 7),
        None => Err(SysAugError::ParseKernelVersion(release.to_owned())),
    }
}

} // verus!
