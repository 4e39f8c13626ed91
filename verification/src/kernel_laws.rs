//! How the release of a kernel is read: what numbers are, and where they stand.
use vstd::prelude::*;

use crate::event_loop::{EventLoop, SysAugError};
use crate::handler_sync::TraceeHandler;
use crate::kernel::{
    decimal, digit, first_part, is_legacy_seccomp, number, part_end, second_part, without_sign,
};

verus! {

/// The text holds no dot.
pub open spec fn has_no_dot(s: Seq<char>) -> bool {
    forall|i: int| 0 <= i < s.len() ==> #[trigger] s[i] != '.'
}

/// `c` is a digit.
pub open spec fn is_digit(c: char) -> bool {
    c == '0' || c == '1' || c == '2' || c == '3' || c == '4' || c == '5' || c == '6' || c == '7'
        || c == '8' || c == '9'
}

/// A single digit is a number, with a plus sign or without.
pub proof fn lemma_digit_is_number(c: char)
    requires
        is_digit(c),
    ensures
        number(seq![c]) == Some((c as u32 - '0' as u32) as usize),
        number(seq!['+', c]) == Some((c as u32 - '0' as u32) as usize),
{
    let s = seq![c];
    assert(s.drop_last() =~= Seq::<char>::empty());
    reveal_with_fuel(decimal, 2);
    assert(without_sign(s) == s);
    assert(seq!['+', c].skip(1) =~= s);
    assert(without_sign(seq!['+', c]) =~= s);
}

/// Neither nothing nor a plus sign alone is a number.
pub proof fn lemma_no_digits_no_number()
    ensures
        number(Seq::<char>::empty()) is None,
        number(seq!['+']) is None,
{
    assert(seq!['+'].skip(1) =~= Seq::<char>::empty());
}

/// One more character at the end makes another text of its digits.
proof fn lemma_without_sign_push(s: Seq<char>, c: char)
    requires
        s.len() > 0,
    ensures
        without_sign(s.push(c)) == without_sign(s).push(c),
        without_sign(s).push(c).drop_last() == without_sign(s),
        decimal(without_sign(s).push(c)) == decimal(without_sign(s)) * 10 + digit(c),
{
    assert(without_sign(s.push(c)) =~= without_sign(s).push(c));
    assert(without_sign(s).push(c).drop_last() =~= without_sign(s));
}

/// One more digit makes a number ten times as large, plus the digit. A number that does not fit is
/// none.
pub proof fn lemma_number_with_digit(s: Seq<char>, c: char)
    requires
        number(s) is Some,
        is_digit(c),
    ensures
        ({
            let n = number(s)->0 * 10 + (c as u32 - '0' as u32);
            &&& n <= usize::MAX ==> number(s.push(c)) == Some(n as usize)
            &&& n > usize::MAX ==> number(s.push(c)) is None
        }),
{
    lemma_without_sign_push(s, c);
    let digits = without_sign(s);
    assert(forall|i: int| 0 <= i < digits.len() ==> digits.push(c)[i] == digits[i]);
}

/// A text that ends with anything but a digit is no number.
pub proof fn lemma_number_ends_with_digit(s: Seq<char>, c: char)
    requires
        !is_digit(c),
    ensures
        number(s.push(c)) is None,
{
    if s.len() > 0 {
        lemma_without_sign_push(s, c);
        let digits = without_sign(s).push(c);
        assert(digits[digits.len() - 1] == c);
    } else {
        assert(s.push(c) =~= seq![c]);
        assert(seq![c].skip(1) =~= Seq::<char>::empty());
        assert(seq![c][0] == c);
        if c != '+' {
            assert(without_sign(s.push(c)) == s.push(c));
            assert(s.push(c)[0] == c);
        }
    }
}

/// What has gone wrong is not mended by one more character.
pub proof fn lemma_no_number_stays_none(s: Seq<char>, c: char)
    requires
        s.len() > 0,
        s != seq!['+'],
        number(s) is None,
    ensures
        number(s.push(c)) is None,
{
    lemma_without_sign_push(s, c);
    let digits = without_sign(s);
    if digits.len() == 0 {
        assert(s =~= seq!['+']);
    }
    assert(forall|i: int| 0 <= i < digits.len() ==> digits.push(c)[i] == digits[i]);
}

/// A part of a text ends at its first dot.
proof fn lemma_part_end_at(s: Seq<char>, from: int, end: int)
    requires
        0 <= from <= end <= s.len(),
        forall|i: int| from <= i < end ==> #[trigger] s[i] != '.',
        end < s.len() ==> s[end] == '.',
    ensures
        part_end(s, from) == end,
    decreases end - from,
{
    if from < end {
        assert(s[from] != '.');
        lemma_part_end_at(s, from + 1, end);
    }
}

/// Where the two numbers of a release stand.
proof fn lemma_parts_of(s: Seq<char>, major: Seq<char>, minor: Seq<char>, rest: Seq<char>)
    requires
        s == major + seq!['.'] + minor + rest,
        has_no_dot(major),
        has_no_dot(minor),
        rest.len() > 0 ==> rest[0] == '.',
    ensures
        first_part(s) == major,
        second_part(s) == minor,
{
    let a = major.len() as int;
    let b = a + 1 + minor.len();
    assert(forall|i: int| 0 <= i < a ==> s[i] == major[i]);
    assert(s[a] == '.');
    assert(forall|i: int| a + 1 <= i < b ==> s[i] == minor[i - a - 1]);
    if rest.len() > 0 {
        assert(s[b] == rest[0]);
    }
    lemma_part_end_at(s, 0, a);
    lemma_part_end_at(s, a + 1, b);
    assert(first_part(s) =~= major);
    assert(second_part(s) =~= minor);
}

/// A release starts with two texts, with a dot between them and maybe one behind. The kernel is a
/// legacy one exactly if they are numbers, of which the first is at most 4 and the second at most
/// 7. If either is none, the release is refused and named. What follows the second one does not
/// matter.
pub proof fn lemma_release_read(
    release: &str,
    major: Seq<char>,
    minor: Seq<char>,
    rest: Seq<char>,
    r: Result<bool, SysAugError>,
)
    requires
        release@ == major + seq!['.'] + minor + rest,
        has_no_dot(major),
        has_no_dot(minor),
        rest.len() > 0 ==> rest[0] == '.',
        call_ensures(is_legacy_seccomp, (release,), r),
    ensures
        r is Ok <==> number(major) is Some && number(minor) is Some,
        r == Ok::<bool, SysAugError>(true) <==> {
            &&& number(major) matches Some(n) && n <= 4
            &&& number(minor) matches Some(n) && n <= 7
        },
        r matches Err(e) ==> (e matches SysAugError::ParseKernelVersion(named) && named@
            == release@),
{
    lemma_parts_of(release@, major, minor, rest);
}

/// A release without a dot is refused and named, unless it is a number: that is no release.
pub proof fn lemma_release_without_dot(release: &str, r: Result<bool, SysAugError>)
    requires
        has_no_dot(release@),
        number(release@) is None,
        call_ensures(is_legacy_seccomp, (release,), r),
    ensures
        call_requires(is_legacy_seccomp, (release,)),
        r matches Err(SysAugError::ParseKernelVersion(named)) && named@ == release@,
{
    lemma_part_end_at(release@, 0, release@.len() as int);
    assert(first_part(release@) =~= release@);
}

/// Every release that holds a dot is read.
pub proof fn lemma_release_with_dot(release: &str)
    requires
        release@.contains('.'),
    ensures
        call_requires(is_legacy_seccomp, (release,)),
{
}

/// The loop of a tracee begins with attaching, and only if the release of the kernel can be read.
/// How the kernel reports filtered system calls is told as the release has it.
pub proof fn lemma_loop_needs_release<
    PtraceClient: Clone,
    Args: Clone + Default,
    Config: Clone + Default,
>(
    handler: &TraceeHandler<PtraceClient, Args, Config>,
    release: &str,
    legacy: Result<bool, SysAugError>,
    r: Result<(EventLoop, bool), SysAugError>,
    error: i32,
    failed: Result<(EventLoop, bool), SysAugError>,
)
    requires
        call_ensures(is_legacy_seccomp, (release,), legacy),
        call_ensures(
            TraceeHandler::<PtraceClient, Args, Config>::event_loop,
            (handler, Ok(release)),
            r,
        ),
        call_ensures(
            TraceeHandler::<PtraceClient, Args, Config>::event_loop,
            (handler, Err(error)),
            failed,
        ),
    ensures
        legacy matches Ok(flag) ==> r == Ok::<(EventLoop, bool), SysAugError>(
            (EventLoop::Attach, flag),
        ),
        legacy is Err ==> (r matches Err(SysAugError::ParseKernelVersion(named)) && named@
            == release@),
        failed == Err::<(EventLoop, bool), SysAugError>(SysAugError::ReadKernelVersion(error)),
{
}

} // verus!
