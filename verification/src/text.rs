//! The pieces of the textual form: numbers in decimal, strings with their
//! length before them, and fixed words.
//!
//! Every piece says by itself where it ends, so a reader never has to look
//! ahead: a number ends with a space, and a string is written as its
//! length, a colon, its characters and a space.

use vstd::prelude::*;

verus! {

/// The character of the decimal digit `d`.
pub open spec fn digit_char(d: int) -> char {
    if d == 0 {
        '0'
    } else if d == 1 {
        '1'
    } else if d == 2 {
        '2'
    } else if d == 3 {
        '3'
    } else if d == 4 {
        '4'
    } else if d == 5 {
        '5'
    } else if d == 6 {
        '6'
    } else if d == 7 {
        '7'
    } else if d == 8 {
        '8'
    } else {
        '9'
    }
}

/// The decimal digit that the character `c` is, if it is one.
pub open spec fn digit_value(c: char) -> Option<int> {
    if c == '0' {
        Some(0)
    } else if c == '1' {
        Some(1)
    } else if c == '2' {
        Some(2)
    } else if c == '3' {
        Some(3)
    } else if c == '4' {
        Some(4)
    } else if c == '5' {
        Some(5)
    } else if c == '6' {
        Some(6)
    } else if c == '7' {
        Some(7)
    } else if c == '8' {
        Some(8)
    } else if c == '9' {
        Some(9)
    } else {
        None
    }
}

/// The decimal digits of `n`, without leading zeros.
pub open spec fn digits(n: nat) -> Seq<char>
    decreases n,
{
    if n < 10 {
        seq![digit_char(n as int)]
    } else {
        digits(n / 10).push(digit_char((n % 10) as int))
    }
}

/// The number `n` as it is written: its digits and a space.
pub open spec fn number(n: nat) -> Seq<char> {
    digits(n).push(' ')
}

/// The string `s` as it is written: its length, a colon, its characters,
/// and a space.
pub open spec fn text(s: Seq<char>) -> Seq<char> {
    digits(s.len()).push(':') + s + seq![' ']
}

/// Whether `part` stands in `s` at the place `at`.
#[verifier::opaque]
pub open spec fn occurs(s: Seq<char>, at: int, part: Seq<char>) -> bool {
    &&& 0 <= at
    &&& at + part.len() <= s.len()
    &&& forall|k: int| 0 <= k < part.len() ==> s[at + k] == #[trigger] part[k]
}

/// The number of decimal digits that stand in `s` from the place `at` on.
pub open spec fn digit_run(s: Seq<char>, at: int) -> nat
    decreases s.len() - at,
{
    if 0 <= at < s.len() && digit_value(s[at]) is Some {
        1 + digit_run(s, at + 1)
    } else {
        0
    }
}

/// The number that the decimal digits of `s` from `from` up to `to` stand for.
pub open spec fn digits_value(s: Seq<char>, from: int, to: int) -> nat
    decreases to - from,
{
    if to <= from {
        0
    } else {
        digits_value(s, from, to - 1) * 10 + digit_value(s[to - 1])->0 as nat
    }
}

/// The number that stands in `s` at `at` in decimal digits, and the place
/// after its last digit. There is none if no digit stands at `at`, if the
/// digits start with a needless zero, or if the number is above `u64::MAX`.
pub open spec fn parse_digits(s: Seq<char>, at: int) -> Option<(nat, int)> {
    let run = digit_run(s, at);
    if run >= 1 && (run == 1 || s[at] != '0') && digits_value(s, at, at + run) <= u64::MAX {
        Some((digits_value(s, at, at + run), at + run))
    } else {
        None
    }
}

/// The number that is written in `s` at `at`, and the place after it.
pub open spec fn parse_number(s: Seq<char>, at: int) -> Option<(nat, int)> {
    match parse_digits(s, at) {
        Some((n, next)) => if next < s.len() && s[next] == ' ' {
            Some((n, next + 1))
        } else {
            None
        },
        None => None,
    }
}

/// The string that is written in `s` at `at`, and the place after it.
pub open spec fn parse_text(s: Seq<char>, at: int) -> Option<(Seq<char>, int)> {
    match parse_digits(s, at) {
        Some((n, next)) => if next < s.len() && s[next] == ':' && next + n + 2 <= s.len() && s[next
            + n + 1] == ' ' {
            Some((s.subrange(next + 1, next + 1 + n), next + n + 2))
        } else {
            None
        },
        None => None,
    }
}

/// The place after the word `word`, if it stands in `s` at `at`.
pub open spec fn parse_word(s: Seq<char>, at: int, word: Seq<char>) -> Option<int> {
    if occurs(s, at, word) {
        Some(at + word.len())
    } else {
        None
    }
}

/// What stands in a text lies within it.
pub proof fn lemma_occurs_within(s: Seq<char>, at: int, part: Seq<char>)
    requires
        occurs(s, at, part),
    ensures
        0 <= at,
        at + part.len() <= s.len(),
{
    reveal(occurs);
}

/// Where a sequence of two parts stands, each part stands.
pub proof fn lemma_occurs_split(s: Seq<char>, at: int, first: Seq<char>, second: Seq<char>)
    requires
        occurs(s, at, first + second),
    ensures
        occurs(s, at, first),
        occurs(s, at + first.len(), second),
{
    reveal(occurs);
    let both = first + second;
    assert forall|k: int| 0 <= k < first.len() implies s[at + k] == #[trigger] first[k] by {
        assert(both[k] == first[k]);
    }
    assert forall|k: int| 0 <= k < second.len() implies s[at + first.len() + k]
        == #[trigger] second[k] by {
        assert(both[first.len() + k] == second[k]);
    }
}

/// Every character of the digits of a number is a digit, and gives back its
/// digit.
pub proof fn lemma_digits_are_digits(n: nat)
    ensures
        digits(n).len() >= 1,
        forall|k: int| 0 <= k < digits(n).len() ==> digit_value(#[trigger] digits(n)[k]) is Some,
        digit_value(digits(n).last()) == Some((n % 10) as int),
        n >= 10 ==> digits(n).len() >= 2 && digits(n)[0] != '0',
        n < 10 ==> digits(n).len() == 1,
        n >= 1 ==> digits(n)[0] != '0',
    decreases n,
{
    if n >= 10 {
        lemma_digits_are_digits(n / 10);
        let shorter = digits(n / 10);
        assert forall|k: int| 0 <= k < digits(n).len() implies digit_value(
            #[trigger] digits(n)[k],
        ) is Some by {
            if k < shorter.len() {
                assert(digits(n)[k] == shorter[k]);
            }
        }
        assert(digits(n)[0] == shorter[0]);
    }
}

/// Where `count` digits stand and no digit follows them, the run of digits
/// is `count` long.
pub proof fn lemma_digit_run(s: Seq<char>, at: int, count: int)
    requires
        0 <= at,
        0 <= count,
        at + count <= s.len(),
        forall|k: int| at <= k < at + count ==> digit_value(#[trigger] s[k]) is Some,
        at + count == s.len() || digit_value(s[at + count]) is None,
    ensures
        digit_run(s, at) == count,
    decreases count,
{
    if count > 0 {
        assert(digit_value(s[at]) is Some);
        lemma_digit_run(s, at + 1, count - 1);
    }
}

/// The value of digits depends on those digits only.
pub proof fn lemma_digits_value_same(s: Seq<char>, t: Seq<char>, from: int, other: int, count: int)
    requires
        0 <= count,
        forall|k: int| from <= k < from + count ==> (#[trigger] s[k]) == t[k - from + other],
    ensures
        digits_value(s, from, from + count) == digits_value(t, other, other + count),
    decreases count,
{
    if count > 0 {
        lemma_digits_value_same(s, t, from, other, count - 1);
    }
}

/// The digits of a number stand for that number.
pub proof fn lemma_digits_value(n: nat)
    ensures
        digits_value(digits(n), 0, digits(n).len() as int) == n,
    decreases n,
{
    let all = digits(n);
    if n >= 10 {
        let shorter = digits(n / 10);
        lemma_digits_value(n / 10);
        lemma_digits_are_digits(n);
        assert(all.len() == shorter.len() + 1);
        lemma_digits_value_same(all, shorter, 0, 0, shorter.len() as int);
        assert(digits_value(all, 0, all.len() as int) == digits_value(all, 0, all.len() - 1) * 10
            + digit_value(all[all.len() - 1])->0);
    } else {
        assert(digits_value(all, 0, 0) == 0);
        assert(digits_value(all, 0, 1) == digits_value(all, 0, 0) * 10 + digit_value(all[0])->0);
    }
}

/// Where the digits of `n` stand, followed by something that is no digit,
/// they are read as `n`.
pub proof fn lemma_parse_digits(s: Seq<char>, at: int, n: nat)
    requires
        n <= u64::MAX,
        occurs(s, at, digits(n)),
        at + digits(n).len() == s.len() || digit_value(s[at + digits(n).len()]) is None,
    ensures
        parse_digits(s, at) == Some((n, at + digits(n).len())),
{
    reveal(occurs);
    let written = digits(n);
    let count = written.len() as int;
    lemma_digits_are_digits(n);
    assert forall|k: int| at <= k < at + count implies digit_value(#[trigger] s[k]) is Some by {
        assert(s[at + (k - at)] == written[k - at]);
    }
    lemma_digit_run(s, at, count);
    lemma_digits_value(n);
    assert forall|k: int| at <= k < at + count implies (#[trigger] s[k]) == written[k - at + 0] by {
        assert(s[at + (k - at)] == written[k - at]);
    }
    lemma_digits_value_same(s, written, at, 0, count);
    assert(s[at + 0] == written[0]);
}

/// Where a number is written, it is read back.
pub proof fn lemma_parse_number(s: Seq<char>, at: int, n: nat)
    requires
        n <= u64::MAX,
        occurs(s, at, number(n)),
    ensures
        parse_number(s, at) == Some((n, at + number(n).len())),
{
    reveal(occurs);
    let written = digits(n);
    assert(number(n) == written + seq![' ']);
    lemma_occurs_split(s, at, written, seq![' ']);
    assert(s[at + written.len() + 0] == seq![' '][0]);
    lemma_parse_digits(s, at, n);
}

/// Where a string is written, it is read back.
pub proof fn lemma_parse_text(s: Seq<char>, at: int, t: Seq<char>)
    requires
        t.len() <= u64::MAX,
        occurs(s, at, text(t)),
    ensures
        parse_text(s, at) == Some((t, at + text(t).len())),
{
    reveal(occurs);
    let written = digits(t.len());
    let head = written.push(':');
    assert(text(t) == (head + t) + seq![' ']);
    lemma_occurs_split(s, at, head + t, seq![' ']);
    lemma_occurs_split(s, at, head, t);
    assert(head == written + seq![':']);
    lemma_occurs_split(s, at, written, seq![':']);
    assert(s[at + written.len() + 0] == seq![':'][0]);
    lemma_parse_digits(s, at, t.len());
    let start = at + head.len();
    assert(s[start + t.len() + 0] == seq![' '][0]);
    assert(s.subrange(start, start + t.len()) =~= t) by {
        assert forall|k: int| 0 <= k < t.len() implies s.subrange(start, start + t.len())[k]
            == t[k] by {
            assert(s[start + k] == t[k]);
        }
    }
}

/// The digit `d` as a string.
fn digit_text(d: u64) -> (written: &'static str)
    requires
        d < 10,
    ensures
        written@ == seq![digit_char(d as int)],
{
    proof {
        reveal_strlit("0");
        reveal_strlit("1");
        reveal_strlit("2");
        reveal_strlit("3");
        reveal_strlit("4");
        reveal_strlit("5");
        reveal_strlit("6");
        reveal_strlit("7");
        reveal_strlit("8");
        reveal_strlit("9");
    }
    let written = if d == 0 {
        "0"
    } else if d == 1 {
        "1"
    } else if d == 2 {
        "2"
    } else if d == 3 {
        "3"
    } else if d == 4 {
        "4"
    } else if d == 5 {
        "5"
    } else if d == 6 {
        "6"
    } else if d == 7 {
        "7"
    } else if d == 8 {
        "8"
    } else {
        "9"
    };
    assert(written@ =~= seq![digit_char(d as int)]);
    written
}

/// Appends the digits of `n` to `out`.
pub fn write_digits(out: &mut String, n: u64)
    ensures
        final(out)@ == old(out)@ + digits(n as nat),
    decreases n,
{
    if n >= 10 {
        write_digits(out, n / 10);
    }
    out.append(digit_text(n % 10));
    proof {
        if n >= 10 {
            assert(final(out)@ =~= old(out)@ + digits(n as nat));
        } else {
            assert(final(out)@ =~= old(out)@ + digits(n as nat));
        }
    }
}

/// Appends the number `n` to `out`.
pub fn write_number(out: &mut String, n: u64)
    ensures
        final(out)@ == old(out)@ + number(n as nat),
{
    write_digits(out, n);
    out.append(" ");
    proof {
        reveal_strlit(" ");
        assert(" "@ =~= seq![' ']);
        assert(final(out)@ =~= old(out)@ + number(n as nat));
    }
}

/// Appends the string `s` to `out`.
pub fn write_text(out: &mut String, s: &str)
    ensures
        final(out)@ == old(out)@ + text(s@),
        s@.len() <= u64::MAX,
{
    let length = s.unicode_len();
    write_digits(out, length as u64);
    out.append(":");
    out.append(s);
    out.append(" ");
    proof {
        reveal_strlit(":");
        reveal_strlit(" ");
        assert(":"@ =~= seq![':']);
        assert(" "@ =~= seq![' ']);
        assert(final(out)@ =~= old(out)@ + text(s@));
    }
}

/// The decimal digit that the character `c` is, if it is one.
fn digit_of(c: char) -> (d: Option<u64>)
    ensures
        match d {
            Some(d) => digit_value(c) == Some(d as int) && d < 10,
            None => digit_value(c) is None,
        },
{
    if c == '0' {
        Some(0)
    } else if c == '1' {
        Some(1)
    } else if c == '2' {
        Some(2)
    } else if c == '3' {
        Some(3)
    } else if c == '4' {
        Some(4)
    } else if c == '5' {
        Some(5)
    } else if c == '6' {
        Some(6)
    } else if c == '7' {
        Some(7)
    } else if c == '8' {
        Some(8)
    } else if c == '9' {
        Some(9)
    } else {
        None
    }
}

/// The run of digits within a longer run: what is read up to a place is no
/// more than what is read up to a later one, and the run goes on as long
/// as digits stand.
pub proof fn lemma_digit_run_step(s: Seq<char>, at: int, seen: int)
    requires
        0 <= at,
        0 <= seen,
        at + seen <= s.len(),
        forall|k: int| at <= k < at + seen ==> digit_value(#[trigger] s[k]) is Some,
    ensures
        digit_run(s, at) == seen + digit_run(s, at + seen),
    decreases seen,
{
    if seen > 0 {
        assert(digit_value(s[at]) is Some);
        lemma_digit_run_step(s, at + 1, seen - 1);
    }
}

/// The value of a run of digits does not get less when more digits follow.
pub proof fn lemma_digits_value_grows(s: Seq<char>, from: int, to: int, later: int)
    requires
        from <= to <= later,
    ensures
        digits_value(s, from, to) <= digits_value(s, from, later),
    decreases later - to,
{
    if to < later {
        lemma_digits_value_grows(s, from, to, later - 1);
        assert(digits_value(s, from, later) == digits_value(s, from, later - 1) * 10 + digit_value(
            s[later - 1],
        )->0 as nat);
    }
}

/// Reads the number that stands in `source` at `at` in decimal digits.
pub fn read_digits(source: &str, length: usize, at: usize) -> (found: Option<(u64, usize)>)
    requires
        length == source@.len(),
    ensures
        match found {
            Some((n, next)) => parse_digits(source@, at as int) == Some((n as nat, next as int))
                && at < next <= length,
            None => parse_digits(source@, at as int) is None,
        },
{
    let ghost s = source@;
    if at >= length {
        return None;
    }
    let first = source.get_char(at);
    let mut value: u64 = match digit_of(first) {
        Some(d) => d,
        None => {
            return None;
        },
    };
    let mut next: usize = at + 1;
    let mut more = true;
    proof {
        assert(digits_value(s, at as int, at as int) == 0);
        assert(digits_value(s, at as int, at + 1) == digits_value(s, at as int, at as int) * 10
            + digit_value(s[at as int])->0);
    }
    while more && next < length
        invariant
            at < next <= length,
            length == s.len(),
            s == source@,
            first == s[at as int],
            forall|k: int| at <= k < next ==> digit_value(#[trigger] s[k]) is Some,
            value == digits_value(s, at as int, next as int),
            !more ==> next < length && digit_value(s[next as int]) is None,
            next - at > 1 ==> first != '0',
        decreases length - next + (if more { 1int } else { 0int }),
    {
        let c = source.get_char(next);
        let d = match digit_of(c) {
            Some(d) => d,
            None => {
                more = false;
                continue ;
            },
        };
        proof {
            assert(digits_value(s, at as int, next + 1) == digits_value(s, at as int, next as int)
                * 10 + digit_value(s[next as int])->0);
        }
        if first == '0' || value > (u64::MAX - d) / 10 {
            // A needless zero in front, or a number too large: either way
            // nothing is read, however many digits follow.
            proof {
                lemma_digit_run_step(s, at as int, next + 1 - at);
                let run = digit_run(s, at as int);
                assert(run >= next + 1 - at);
                if first != '0' {
                    lemma_digits_value_grows(s, at as int, next + 1, at + run);
                }
            }
            return None;
        }
        value = value * 10 + d;
        next += 1;
    }
    proof {
        lemma_digit_run(s, at as int, next - at);
    }
    Some((value, next))
}

/// Reads the number that is written in `source` at `at`.
pub fn read_number(source: &str, length: usize, at: usize) -> (found: Option<(u64, usize)>)
    requires
        length == source@.len(),
    ensures
        match found {
            Some((n, next)) => parse_number(source@, at as int) == Some((n as nat, next as int))
                && at < next <= length,
            None => parse_number(source@, at as int) is None,
        },
{
    let (n, next) = match read_digits(source, length, at) {
        Some(found) => found,
        None => {
            return None;
        },
    };
    if next < length && source.get_char(next) == ' ' {
        Some((n, next + 1))
    } else {
        None
    }
}

/// Reads the string that is written in `source` at `at`.
pub fn read_text(source: &str, length: usize, at: usize) -> (found: Option<(String, usize)>)
    requires
        length == source@.len(),
    ensures
        match found {
            Some((t, next)) => parse_text(source@, at as int) == Some((t@, next as int)) && at
                < next <= length,
            None => parse_text(source@, at as int) is None,
        },
{
    let (n, next) = match read_digits(source, length, at) {
        Some(found) => found,
        None => {
            return None;
        },
    };
    if next >= length || source.get_char(next) != ':' {
        return None;
    }
    let left = length - next;
    if left < 2 || n > (left - 2) as u64 {
        return None;
    }
    let count = n as usize;
    if source.get_char(next + count + 1) != ' ' {
        return None;
    }
    let t = String::from_str(source.substring_char(next + 1, next + 1 + count));
    Some((t, next + count + 2))
}

/// Reads the word `word` in `source` at `at`.
pub fn read_word(source: &str, length: usize, at: usize, word: &str) -> (found: Option<usize>)
    requires
        length == source@.len(),
    ensures
        match found {
            Some(next) => parse_word(source@, at as int, word@) == Some(next as int) && at <= next
                <= length,
            None => parse_word(source@, at as int, word@) is None,
        },
{
    let count = word.unicode_len();
    proof {
        reveal(occurs);
    }
    if at > length || count > length - at {
        return None;
    }
    let mut k: usize = 0;
    while k < count
        invariant
            k <= count,
            count == word@.len(),
            length == source@.len(),
            at + count <= length,
            forall|j: int| 0 <= j < k ==> source@[at + j] == #[trigger] word@[j],
        decreases count - k,
    {
        if source.get_char(at + k) != word.get_char(k) {
            proof {
                reveal(occurs);
                assert(source@[at + k] != word@[k as int]);
            }
            return None;
        }
        k += 1;
    }
    proof {
        reveal(occurs);
    }
    Some(at + count)
}

} // verus!
