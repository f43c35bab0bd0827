//! Text as a sequence of characters.
use vstd::prelude::*;

use crate::numeric::decimal::digits_value;

verus! {

/// The characters of a text.
pub fn chars_of(s: &str) -> (v: Vec<char>)
    ensures
        v@ == s@,
{
    let mut v: Vec<char> = Vec::new();
    for c in it: s.chars()
        invariant
            it.seq() == s@,
            v@ == s@.take(it.index() as int),
    {
        v.push(c);
        assert(v@ =~= s@.take(it.index() + 1));
    }
    assert(s@.take(s@.len() as int) =~= s@);
    v
}

/// Whether two texts hold the same characters.
pub fn same_text(a: &str, b: &str) -> (r: bool)
    ensures
        r == (a@ == b@),
{
    a.to_owned() == b.to_owned()
}

/// A letter of the Latin alphabet in lower case; any other character as it is.
#[verifier::when_used_as_spec(spec_lower)]
pub fn lower(c: char) -> (r: char)
    ensures
        r == lower(c),
{
    if 'A' <= c && c <= 'Z' {
        (c as u8 + 32) as char
    } else {
        c
    }
}

pub open spec fn spec_lower(c: char) -> char {
    if 'A' <= c && c <= 'Z' {
        (c as u8 + 32) as char
    } else {
        c
    }
}

/// The two texts differ at most in the case of Latin letters.
pub open spec fn same_ignoring_case(a: Seq<char>, b: Seq<char>) -> bool {
    a.len() == b.len() && forall|i: int| 0 <= i < a.len() ==> lower(#[trigger] a[i]) == lower(b[i])
}

/// Whether two texts differ at most in the case of Latin letters.
pub fn same_word(a: &str, b: &str) -> (r: bool)
    ensures
        r == same_ignoring_case(a@, b@),
{
    let x: Vec<char> = chars_of(a);
    let y: Vec<char> = chars_of(b);
    if x.len() != y.len() {
        return false;
    }
    let mut i: usize = 0;
    while i < x.len()
        invariant
            i <= x.len() == y.len(),
            x@ == a@,
            y@ == b@,
            forall|j: int| 0 <= j < i ==> lower(#[trigger] x@[j]) == lower(y@[j]),
        decreases x.len() - i,
    {
        if lower(x[i]) != lower(y[i]) {
            assert(lower(x@[i as int]) != lower(y@[i as int]));
            return false;
        }
        i = i + 1;
    }
    true
}

/// A character of the Unicode property White_Space.
#[verifier::when_used_as_spec(spec_is_space)]
pub fn is_space(c: char) -> (r: bool)
    ensures
        r == is_space(c),
{
    let n: u32 = c as u32;
    (9 <= n && n <= 13) || n == 0x20 || n == 0x85 || n == 0xa0 || n == 0x1680 || (0x2000 <= n && n
        <= 0x200a) || n == 0x2028 || n == 0x2029 || n == 0x202f || n == 0x205f || n == 0x3000
}

pub open spec fn spec_is_space(c: char) -> bool {
    let n = c as u32;
    (9 <= n && n <= 13) || n == 0x20 || n == 0x85 || n == 0xa0 || n == 0x1680 || (0x2000 <= n && n
        <= 0x200a) || n == 0x2028 || n == 0x2029 || n == 0x202f || n == 0x205f || n == 0x3000
}

/// The text without the spaces at its end.
pub open spec fn trimmed_end(s: Seq<char>) -> Seq<char>
    decreases s.len(),
{
    if s.len() > 0 && is_space(s.last()) {
        trimmed_end(s.drop_last())
    } else {
        s
    }
}

/// The text without the spaces at its start.
pub open spec fn trimmed_start(s: Seq<char>) -> Seq<char>
    decreases s.len(),
{
    if s.len() > 0 && is_space(s[0]) {
        trimmed_start(s.drop_first())
    } else {
        s
    }
}

/// The text without the spaces around it.
pub open spec fn trimmed(s: Seq<char>) -> Seq<char> {
    trimmed_end(trimmed_start(s))
}

/// Takes the spaces off both ends of a text.
pub fn trim(s: &str) -> (r: String)
    ensures
        r@ == trimmed(s@),
{
    let v: Vec<char> = chars_of(s);
    let mut from: usize = 0;
    assert(v@.skip(0) =~= v@);
    while from < v.len() && is_space(v[from])
        invariant
            from <= v.len(),
            trimmed_start(v@) == trimmed_start(v@.skip(from as int)),
        decreases v.len() - from,
    {
        assert(v@.skip(from as int).drop_first() =~= v@.skip(from + 1));
        from = from + 1;
    }
    let ghost start = v@.skip(from as int);
    assert(trimmed_start(v@) == start);
    let mut to: usize = v.len();
    assert(v@.subrange(from as int, to as int) =~= start);
    while from < to && is_space(v[to - 1])
        invariant
            from <= to <= v.len(),
            trimmed_end(start) == trimmed_end(v@.subrange(from as int, to as int)),
        decreases to - from,
    {
        let ghost before = v@.subrange(from as int, to as int);
        assert(before.last() == v@[to - 1]);
        assert(before.drop_last() =~= v@.subrange(from as int, to - 1));
        to = to - 1;
    }
    assert(trimmed_end(start) == v@.subrange(from as int, to as int)) by {
        if from < to {
            assert(v@.subrange(from as int, to as int).last() == v@[to - 1]);
        }
    }
    s.substring_char(from, to).to_owned()
}

/// The text without the slashes at its end.
pub open spec fn without_slashes(s: Seq<char>) -> Seq<char>
    decreases s.len(),
{
    if s.len() > 0 && s.last() == '/' {
        without_slashes(s.drop_last())
    } else {
        s
    }
}

/// Takes the slashes off the end of a text.
pub fn strip_slashes(s: &str) -> (r: String)
    ensures
        r@ == without_slashes(s@),
{
    let v: Vec<char> = chars_of(s);
    let mut to: usize = v.len();
    assert(v@.take(to as int) =~= v@);
    while to > 0 && v[to - 1] == '/'
        invariant
            to <= v.len(),
            without_slashes(v@) == without_slashes(v@.take(to as int)),
        decreases to,
    {
        assert(v@.take(to as int).last() == v@[to - 1]);
        assert(v@.take(to as int).drop_last() =~= v@.take(to - 1));
        to = to - 1;
    }
    assert(to > 0 ==> v@.take(to as int).last() == v@[to - 1]);
    assert(v@.take(to as int) =~= v@.subrange(0, to as int));
    s.substring_char(0, to).to_owned()
}

/// The decimal digits of a number.
pub open spec fn decimal(n: nat) -> Seq<char>
    decreases n,
{
    let digit = (n % 10 + '0' as nat) as char;
    if n < 10 {
        seq![digit]
    } else {
        decimal(n / 10).push(digit)
    }
}

fn digit_text(d: u64) -> (r: &'static str)
    requires
        d < 10,
    ensures
        r@ == seq![(d + '0' as nat) as char],
{
    proof {
        reveal_strlit("0");
        reveal_strlit("1");
        reveal_strlit("2");
        reveal_strlit("3");
        reveal_strlit("4");
        reveal_strlit("5");
        reveal_strlit("6");
        reveal_strlit("7");
        reveal_strlit("8");
        reveal_strlit("9");
    }
    let r: &'static str = match d {
        0 => "0",
        1 => "1",
        2 => "2",
        3 => "3",
        4 => "4",
        5 => "5",
        6 => "6",
        7 => "7",
        8 => "8",
        _ => "9",
    };
    assert(r@ =~= seq![(d + '0' as nat) as char]);
    r
}

/// A number in decimal digits.
pub fn decimal_text(n: u64) -> (r: String)
    ensures
        r@ == decimal(n as nat),
    decreases n,
{
    if n < 10 {
        digit_text(n).to_owned()
    } else {
        let front: String = decimal_text(n / 10);
        let r: String = front.concat(digit_text(n % 10));
        assert(r@ =~= decimal(n as nat / 10).push((n as nat % 10 + '0' as nat) as char));
        r
    }
}

/// The decimal digits of an integer, with a minus before those of a negative one.
pub open spec fn signed_decimal(n: int) -> Seq<char> {
    if n < 0 {
        "-"@ + decimal((-n) as nat)
    } else {
        decimal(n as nat)
    }
}

/// An integer in decimal digits.
pub fn signed_text(n: i64) -> (r: String)
    ensures
        r@ == signed_decimal(n as int),
{
    if n < 0 {
        "-".to_owned().concat(decimal_text((-(n as i128)) as u64).as_str())
    } else {
        decimal_text(n as u64)
    }
}

/// A text that may be there holds the expected characters, where any are expected.
pub open spec fn shows(text: Option<String>, expected: Option<Seq<char>>) -> bool {
    match text {
        Some(s) => expected == Some(s@),
        None => expected is None,
    }
}

/// One text occurs within another.
pub open spec fn occurs(s: Seq<char>, part: Seq<char>) -> bool {
    exists|i: int|
        0 <= i && i + part.len() <= s.len() && #[trigger] s.subrange(i, i + part.len()) == part
}

/// Whether one text occurs within another.
pub fn holds(s: &str, part: &str) -> (r: bool)
    ensures
        r == occurs(s@, part@),
{
    let v: Vec<char> = chars_of(s);
    let p: Vec<char> = chars_of(part);
    if p.len() > v.len() {
        return false;
    }
    let last: usize = v.len() - p.len();
    let mut i: usize = 0;
    while i <= last
        invariant
            v@ == s@,
            p@ == part@,
            last == v.len() - p.len(),
            i <= last + 1,
            forall|k: int|
                0 <= k < i ==> #[trigger] s@.subrange(k, k + part@.len()) != part@,
        decreases last + 1 - i,
    {
        if starts_at(&v, i, &p) {
            assert(s@.subrange(i as int, i + part@.len()) == part@);
            return true;
        }
        if i == last {
            assert(forall|k: int|
                0 <= k && k + part@.len() <= s@.len() ==> #[trigger] s@.subrange(
                    k,
                    k + part@.len(),
                ) != part@);
            return false;
        }
        i = i + 1;
    }
    false
}

fn starts_at(v: &Vec<char>, from: usize, p: &Vec<char>) -> (r: bool)
    requires
        from + p.len() <= v.len(),
    ensures
        r == (v@.subrange(from as int, from + p@.len()) == p@),
{
    let ghost window = v@.subrange(from as int, from + p@.len());
    let mut i: usize = 0;
    while i < p.len()
        invariant
            i <= p.len(),
            from + p.len() <= v.len(),
            window == v@.subrange(from as int, from + p@.len()),
            forall|k: int| 0 <= k < i ==> #[trigger] window[k] == p@[k],
        decreases p.len() - i,
    {
        if v[from + i] != p[i] {
            assert(window[i as int] != p@[i as int]);
            return false;
        }
        i = i + 1;
    }
    assert(window =~= p@);
    true
}

/// A text in lower case, by the rules of Unicode.
pub uninterp spec fn lowercase(s: Seq<char>) -> Seq<char>;

/// Every character is of the ASCII range.
pub open spec fn is_ascii_text(s: Seq<char>) -> bool {
    forall|i: int| 0 <= i < s.len() ==> (#[trigger] s[i]) as u32 <= 127
}

/// Calls `str::to_lowercase`. Claims that the result depends on the text alone, and
/// that of an ASCII text each letter is replaced by its lower case.
#[verifier::external_body]
pub(crate) fn to_lowercase(s: &str) -> (r: String)
    ensures
        r@ == lowercase(s@),
        is_ascii_text(s@) ==> r@ == s@.map_values(|c: char| lower(c)),
{
    s.to_lowercase()
}

/// What is left of a text between the spaces around it stands in the text, neither begins nor
/// ends with a space, and only spaces are taken off.
pub proof fn law_trimming_takes_off_outer_spaces(s: Seq<char>)
    ensures
        ({
            let r = trimmed(s);
            &&& r.len() > 0 ==> !is_space(r[0]) && !is_space(r.last())
            &&& exists|from: int|
                0 <= from && from + r.len() <= s.len() && r == #[trigger] s.subrange(
                    from,
                    from + r.len(),
                ) && forall|i: int|
                    0 <= i < from || from + r.len() <= i < s.len() ==> is_space(#[trigger] s[i])
        }),
{
    let t = trimmed_start(s);
    let r = trimmed_end(t);
    lemma_trimmed_start(s);
    lemma_trimmed_end(t);
    let from = s.len() - t.len();
    assert(r =~= s.subrange(from, from + r.len()));
    assert forall|i: int|
        0 <= i < from || from + r.len() <= i < s.len() implies is_space(#[trigger] s[i]) by {
        if i >= from {
            assert(t[i - from] == s[i]);
        }
    }
}

proof fn lemma_trimmed_start(s: Seq<char>)
    ensures
        ({
            let t = trimmed_start(s);
            let from = s.len() - t.len();
            &&& from >= 0 && t == s.skip(from)
            &&& t.len() > 0 ==> !is_space(t[0])
            &&& forall|i: int| 0 <= i < from ==> is_space(#[trigger] s[i])
        }),
    decreases s.len(),
{
    if s.len() > 0 && is_space(s[0]) {
        let rest = s.drop_first();
        lemma_trimmed_start(rest);
        let from = s.len() - trimmed_start(s).len();
        assert(trimmed_start(s) =~= s.skip(from));
        assert forall|i: int| 0 <= i < from implies is_space(#[trigger] s[i]) by {
            if i > 0 {
                assert(rest[i - 1] == s[i]);
            }
        }
    } else {
        assert(s.skip(0) =~= s);
    }
}

proof fn lemma_trimmed_end(s: Seq<char>)
    ensures
        ({
            let t = trimmed_end(s);
            &&& t.len() <= s.len() && t == s.take(t.len() as int)
            &&& t.len() > 0 ==> !is_space(t.last())
            &&& forall|i: int| t.len() <= i < s.len() ==> is_space(#[trigger] s[i])
        }),
    decreases s.len(),
{
    if s.len() > 0 && is_space(s.last()) {
        let rest = s.drop_last();
        lemma_trimmed_end(rest);
        let t = trimmed_end(s);
        assert(t =~= s.take(t.len() as int));
        assert forall|i: int| t.len() <= i < s.len() implies is_space(#[trigger] s[i]) by {
            if i < s.len() - 1 {
                assert(rest[i] == s[i]);
            }
        }
    } else {
        assert(s.take(s.len() as int) =~= s);
    }
}

/// Only slashes at the end of a text are taken off, and all of them.
pub proof fn law_only_last_slashes_go(s: Seq<char>)
    ensures
        ({
            let r = without_slashes(s);
            &&& r.len() <= s.len() && r == s.take(r.len() as int)
            &&& r.len() > 0 ==> r.last() != '/'
            &&& forall|i: int| r.len() <= i < s.len() ==> #[trigger] s[i] == '/'
        }),
    decreases s.len(),
{
    if s.len() > 0 && s.last() == '/' {
        let rest = s.drop_last();
        law_only_last_slashes_go(rest);
        let r = without_slashes(s);
        assert(r =~= s.take(r.len() as int));
        assert forall|i: int| r.len() <= i < s.len() implies #[trigger] s[i] == '/' by {
            if i < s.len() - 1 {
                assert(rest[i] == s[i]);
            }
        }
    } else {
        assert(s.take(s.len() as int) =~= s);
    }
}

/// The digits of a number are digits, stand for it, and do not begin with a zero, but for
/// that of zero itself.
pub proof fn law_digits_stand_for_their_number(n: nat)
    ensures
        digits_value(decimal(n)) == n,
        decimal(n).len() > 0,
        n > 0 ==> decimal(n)[0] != '0',
        forall|i: int| 0 <= i < decimal(n).len() ==> '0' <= #[trigger] decimal(n)[i] <= '9',
    decreases n,
{
    let digit = (n % 10 + '0' as nat) as char;
    assert(digit as int == n % 10 + '0' as int);
    if n >= 10 {
        law_digits_stand_for_their_number(n / 10);
        assert(decimal(n).drop_last() =~= decimal(n / 10));
    } else {
        assert(decimal(n).drop_last() =~= Seq::empty());
        assert(digits_value(Seq::<char>::empty()) == 0);
    }
}

/// Two numbers with the same digits are the same.
pub proof fn law_digits_tell_numbers_apart(a: int, b: int)
    ensures
        signed_decimal(a) == signed_decimal(b) <==> a == b,
{
    reveal_strlit("-");
    let (x, y) = (signed_decimal(a), signed_decimal(b));
    let (m, n) = (
        (if a < 0 { -a } else { a }) as nat,
        (if b < 0 { -b } else { b }) as nat,
    );
    law_digits_stand_for_their_number(m);
    law_digits_stand_for_their_number(n);
    if x == y {
        assert((a < 0) == (x[0] == '-'));
        assert((b < 0) == (y[0] == '-'));
        if a < 0 {
            assert(x.skip(1) =~= decimal(m));
            assert(y.skip(1) =~= decimal(n));
        }
    }
}

/// Texts that differ at most in case are of one length, and the comparison does not depend on
/// their order.
pub proof fn law_case_is_ignored_both_ways(a: Seq<char>, b: Seq<char>, c: Seq<char>)
    ensures
        same_ignoring_case(a, a),
        same_ignoring_case(a, b) == same_ignoring_case(b, a),
        same_ignoring_case(a, b) && same_ignoring_case(b, c) ==> same_ignoring_case(a, c),
        same_ignoring_case(a, b) ==> a.len() == b.len(),
{
    assert forall|x: Seq<char>, y: Seq<char>|
        #[trigger] same_ignoring_case(x, y) implies same_ignoring_case(y, x) by {
        assert(forall|i: int| 0 <= i < y.len() ==> lower(#[trigger] y[i]) == lower(x[i]));
    }
    if same_ignoring_case(a, b) && same_ignoring_case(b, c) {
        assert forall|i: int| 0 <= i < a.len() implies lower(#[trigger] a[i]) == lower(c[i]) by {
            assert(lower(b[i]) == lower(c[i]));
        }
    }
}

} // verus!
