//! Three-part release numbers and their text form `major.minor.patch`.

use crate::text::{
    chars_of, is_uncut, join, lemma_join_split, lemma_split_one_more, lemma_split_one_piece,
    split_chars, split_on, views_of, Separator,
};
use vstd::prelude::*;

verus! {

/// A release number. Every triple of `u32` is a valid one.
#[derive(Debug, Clone, Copy, PartialEq, Eq, Structural)]
pub struct Version {
    pub major: u32,
    pub minor: u32,
    pub patch: u32,
}

/// Why a text is not a release number.
#[derive(Debug, Clone, Copy, PartialEq, Eq, Structural)]
pub enum ParseError {
    /// The text does not have exactly three parts between dots; holds the
    /// number of parts it has.
    Parts(usize),
    /// The first part is not a number that fits in `u32`.
    Major,
    /// The second part is not a number that fits in `u32`.
    Minor,
    /// The third part is not a number that fits in `u32`.
    Patch,
}

/// `c` is one of the ten decimal digits.
pub open spec fn is_digit(c: char) -> bool {
    '0' <= c && c <= '9'
}

/// The number that the digit `c` stands for.
pub open spec fn digit_value(c: char) -> nat {
    (c as u32 - '0' as u32) as nat
}

/// The digit that stands for `d`, for `d` below ten.
pub open spec fn digit_char(d: nat) -> char {
    (('0' as u32 + d) as u8) as char
}

/// Every character of `s` is a decimal digit.
pub open spec fn all_digits(s: Seq<char>) -> bool {
    forall|i: int| 0 <= i < s.len() ==> is_digit(#[trigger] s[i])
}

/// The number that a sequence of digits denotes in base ten (0 for none).
pub open spec fn digits_value(s: Seq<char>) -> nat
    decreases s.len(),
{
    if s.len() == 0 {
        0
    } else {
        digits_value(s.drop_last()) * 10 + digit_value(s.last())
    }
}

/// The digits of a number text: the text without one leading `+`.
pub open spec fn number_digits(s: Seq<char>) -> Seq<char> {
    if s.len() > 0 && s[0] == '+' {
        s.drop_first()
    } else {
        s
    }
}

/// `s` is a number text: an optional `+`, then one or more decimal digits
/// whose value fits in `u32`. Leading zeros are allowed.
pub open spec fn is_number_text(s: Seq<char>) -> bool {
    let d = number_digits(s);
    d.len() > 0 && all_digits(d) && digits_value(d) <= u32::MAX
}

/// The value of a part of a release number, if it is a number text.
pub open spec fn parse_number(s: Seq<char>) -> Option<u32> {
    if is_number_text(s) {
        Some(digits_value(number_digits(s)) as u32)
    } else {
        None
    }
}

/// The shortest decimal text of `n`.
pub open spec fn decimal(n: nat) -> Seq<char>
    decreases n,
{
    if n < 10 {
        seq![digit_char(n)]
    } else {
        decimal(n / 10).push(digit_char(n % 10))
    }
}

/// What a text means as a release number.
pub open spec fn parse_version(s: Seq<char>) -> Result<Version, ParseError> {
    let parts = split_on(s, Separator::Mark('.'));
    if parts.len() != 3 {
        Err(ParseError::Parts(parts.len() as usize))
    } else {
        match (parse_number(parts[0]), parse_number(parts[1]), parse_number(parts[2])) {
            (None, _, _) => Err(ParseError::Major),
            (Some(_), None, _) => Err(ParseError::Minor),
            (Some(_), Some(_), None) => Err(ParseError::Patch),
            (Some(major), Some(minor), Some(patch)) => Ok(Version { major, minor, patch }),
        }
    }
}

/// The text form of a release number.
pub open spec fn render_version(v: Version) -> Seq<char> {
    decimal(v.major as nat) + seq!['.'] + decimal(v.minor as nat) + seq!['.'] + decimal(
        v.patch as nat,
    )
}

/// `s` is a release number in text form.
pub open spec fn is_version_text(s: Seq<char>) -> bool {
    parse_version(s) is Ok
}

/// The shortest decimal text of a number is made of digits.
pub proof fn lemma_decimal_digits(n: nat)
    ensures
        decimal(n).len() > 0,
        all_digits(decimal(n)),
    decreases n,
{
    if n >= 10 {
        lemma_decimal_digits(n / 10);
    }
}

/// The text form of a release number holds digits and dots only, and so no
/// escape character.
pub proof fn lemma_render_is_plain(v: Version)
    ensures
        forall|i: int|
            0 <= i < render_version(v).len() ==> is_digit(#[trigger] render_version(v)[i])
                || render_version(v)[i] == '.',
        !render_version(v).contains('\u{1b}'),
{
    lemma_decimal_digits(v.major as nat);
    lemma_decimal_digits(v.minor as nat);
    lemma_decimal_digits(v.patch as nat);
}

/// A longer sequence of digits denotes at least as much as its beginning.
proof fn lemma_digits_value_grows(s: Seq<char>, n: int)
    requires
        0 <= n <= s.len(),
    ensures
        digits_value(s.take(n)) <= digits_value(s),
    decreases s.len(),
{
    if n == s.len() {
        assert(s.take(n) =~= s);
    } else {
        assert(s.drop_last().take(n) =~= s.take(n));
        lemma_digits_value_grows(s.drop_last(), n);
    }
}

/// Reads a number text.
fn read_number(v: &Vec<char>) -> (r: Option<u32>)
    ensures
        r == parse_number(v@),
{
    let n = v.len();
    let start: usize = if n > 0 && v[0] == '+' { 1 } else { 0 };
    let ghost d = number_digits(v@);
    assert(d =~= v@.subrange(start as int, n as int));
    if start == n {
        return None;
    }
    let mut acc: u64 = 0;
    let mut i: usize = start;
    while i < n
        invariant
            start <= i <= n,
            n == v.len(),
            d == v@.subrange(start as int, n as int),
            d == number_digits(v@),
            all_digits(d.take(i - start)),
            acc == digits_value(d.take(i - start)),
            acc <= u32::MAX,
        decreases n - i,
    {
        let c = v[i];
        assert(c == d[i - start]);
        if !(c >= '0' && c <= '9') {
            assert(!is_digit(d[i - start]));
            return None;
        }
        let digit: u64 = (c as u32 - '0' as u32) as u64;
        let next: u64 = acc * 10 + digit;
        proof {
            let t = d.take(i - start + 1);
            assert(t.drop_last() =~= d.take(i - start));
            assert(t.last() == c);
            assert(digits_value(t) == next);
            assert(all_digits(t)) by {
                assert forall|k: int| 0 <= k < t.len() implies is_digit(#[trigger] t[k]) by {
                    if k < t.len() - 1 {
                        assert(t[k] == d.take(i - start)[k]);
                    }
                }
            }
            lemma_digits_value_grows(d, i - start + 1);
        }
        if next > 0xffff_ffff {
            return None;
        }
        acc = next;
        i += 1;
    }
    assert(d.take(n - start) =~= d);
    Some(acc as u32)
}

impl Version {
    /// Reads a release number from its text form. Fails unless the text has
    /// exactly three parts between dots, each of them a number text.
    pub fn parse(version: &str) -> (r: Result<Version, ParseError>)
        ensures
            r == parse_version(version@),
            split_on(version@, Separator::Mark('.')).len() != 3 ==> r is Err,
    {
        let chars = chars_of(version);
        Version::parse_chars(&chars)
    }

    /// Reads a release number from the characters of its text form.
    pub fn parse_chars(version: &Vec<char>) -> (r: Result<Version, ParseError>)
        ensures
            r == parse_version(version@),
    {
        let parts = split_chars(version, Separator::Mark('.'));
        let ghost model = views_of(parts@);
        if parts.len() != 3 {
            return Err(ParseError::Parts(parts.len()));
        }
        assert(model[0] == parts[0]@ && model[1] == parts[1]@ && model[2] == parts[2]@);
        let major = match read_number(&parts[0]) {
            Some(n) => n,
            None => { return Err(ParseError::Major); },
        };
        let minor = match read_number(&parts[1]) {
            Some(n) => n,
            None => { return Err(ParseError::Minor); },
        };
        let patch = match read_number(&parts[2]) {
            Some(n) => n,
            None => { return Err(ParseError::Patch); },
        };
        Ok(Version { major, minor, patch })
    }

    /// The release number that a text in the form `major.minor.patch` denotes.
    pub fn from(version: &str) -> (v: Version)
        requires
            is_version_text(version@),
        ensures
            parse_version(version@) == Ok::<Version, ParseError>(v),
    {
        match Version::parse(version) {
            Ok(v) => v,
            Err(_) => vstd::pervasive::unreached(),
        }
    }

    /// The text form `major.minor.patch`, each part in the shortest decimal
    /// form.
    pub fn to_string(&self) -> (s: String)
        ensures
            s@ == render_version(*self),
    {
        let mut s = String::new();
        push_decimal(&mut s, self.major);
        s.push('.');
        push_decimal(&mut s, self.minor);
        s.push('.');
        push_decimal(&mut s, self.patch);
        assert(s@ =~= render_version(*self));
        s
    }
}

/// Appends the shortest decimal text of `n` to `s`.
fn push_decimal(s: &mut String, n: u32)
    ensures
        final(s)@ == old(s)@ + decimal(n as nat),
    decreases n,
{
    if n >= 10 {
        push_decimal(s, n / 10);
    }
    let d: u8 = (n % 10) as u8;
    let c: char = ('0' as u8 + d) as char;
    assert(c == digit_char((n % 10) as nat));
    s.push(c);
    assert(final(s)@ =~= old(s)@ + decimal(n as nat));
}

/// `p` is the shortest decimal text of a number: digits only, at least one,
/// and no zero ahead of another digit.
pub open spec fn is_shortest_decimal(p: Seq<char>) -> bool {
    p.len() > 0 && all_digits(p) && (p.len() == 1 || p[0] != '0')
}

/// The shortest decimal text of a number is the only one that is shortest:
/// writing out the value of such a text gives the text back.
pub proof fn lemma_decimal_of_value(p: Seq<char>)
    requires
        is_shortest_decimal(p),
    ensures
        decimal(digits_value(p)) == p,
        p[0] != '0' ==> digits_value(p) >= 1,
    decreases p.len(),
{
    let d = digit_value(p.last());
    assert(is_digit(p.last()));
    assert(digit_char(d) == p.last());
    if p.len() == 1 {
        assert(p.drop_last() =~= Seq::<char>::empty());
        assert(digits_value(p.drop_last()) == 0);
        assert(decimal(digits_value(p)) =~= p);
    } else {
        let q = p.drop_last();
        assert(q[0] == p[0]);
        assert(all_digits(q)) by {
            assert forall|i: int| 0 <= i < q.len() implies is_digit(#[trigger] q[i]) by {
                assert(q[i] == p[i]);
            }
        }
        lemma_decimal_of_value(q);
        let n = digits_value(p);
        assert(n == digits_value(q) * 10 + d);
        assert(n / 10 == digits_value(q) && n % 10 == d);
        assert(decimal(n) =~= p);
    }
}

/// `s` is a release number in its shortest text form: three shortest
/// decimal texts of numbers that fit in `u32`, with a dot between each two.
pub open spec fn is_shortest_version_text(s: Seq<char>) -> bool {
    let parts = split_on(s, Separator::Mark('.'));
    &&& parts.len() == 3
    &&& forall|i: int|
        0 <= i < 3 ==> is_shortest_decimal(#[trigger] parts[i]) && digits_value(parts[i])
            <= u32::MAX
}

/// Reading a release number in its shortest text form and writing it out
/// again gives the same text.
pub proof fn lemma_render_of_parsed(s: Seq<char>)
    requires
        is_shortest_version_text(s),
    ensures
        parse_version(s) is Ok,
        render_version(parse_version(s)->Ok_0) == s,
{
    let parts = split_on(s, Separator::Mark('.'));
    assert(is_shortest_decimal(parts[0]) && is_shortest_decimal(parts[1]) && is_shortest_decimal(
        parts[2],
    ));
    assert(is_digit(parts[0][0]) && is_digit(parts[1][0]) && is_digit(parts[2][0]));
    lemma_decimal_of_value(parts[0]);
    lemma_decimal_of_value(parts[1]);
    lemma_decimal_of_value(parts[2]);
    lemma_join_split(s, '.');
    let two = parts.drop_last();
    assert(two.drop_last().len() == 1);
    assert(join(two.drop_last(), '.') == parts[0]);
    assert(join(two, '.') == parts[0] + seq!['.'] + parts[1]);
    assert(join(parts, '.') == parts[0] + seq!['.'] + parts[1] + seq!['.'] + parts[2]);
}

/// The shortest decimal text of a number denotes that number.
pub proof fn lemma_value_of_decimal(n: nat)
    ensures
        digits_value(decimal(n)) == n,
        is_shortest_decimal(decimal(n)),
        n >= 1 ==> decimal(n)[0] != '0',
    decreases n,
{
    lemma_decimal_digits(n);
    let p = decimal(n);
    if n < 10 {
        assert(p.drop_last() =~= Seq::<char>::empty());
        assert(digits_value(p.drop_last()) == 0);
        assert(digit_value(digit_char(n)) == n);
    } else {
        lemma_value_of_decimal(n / 10);
        lemma_decimal_digits(n / 10);
        assert(p.drop_last() =~= decimal(n / 10));
        assert(digit_value(digit_char(n % 10)) == n % 10);
        assert(p[0] == decimal(n / 10)[0]);
    }
}

/// Writing out a release number and reading the text gives the same release
/// number.
pub proof fn lemma_parse_of_rendered(v: Version)
    ensures
        parse_version(render_version(v)) == Ok::<Version, ParseError>(v),
        is_shortest_version_text(render_version(v)),
{
    let a = decimal(v.major as nat);
    let b = decimal(v.minor as nat);
    let c = decimal(v.patch as nat);
    lemma_value_of_decimal(v.major as nat);
    lemma_value_of_decimal(v.minor as nat);
    lemma_value_of_decimal(v.patch as nat);
    let dot = Separator::Mark('.');
    assert(is_uncut(a, dot) && is_uncut(b, dot) && is_uncut(c, dot)) by {
        assert forall|p: Seq<char>| all_digits(p) implies is_uncut(p, dot) by {
            assert forall|j: int| 0 <= j < p.len() implies !dot.cuts(#[trigger] p[j]) by {
                assert(is_digit(p[j]));
            }
        }
    }
    lemma_split_one_piece(a, dot);
    lemma_split_one_more(a, '.', b, dot);
    lemma_split_one_more(a + seq!['.'] + b, '.', c, dot);
    let parts = split_on(render_version(v), Separator::Mark('.'));
    assert(parts =~= seq![a, b, c]);
    assert(is_digit(a[0]) && is_digit(b[0]) && is_digit(c[0]));
    assert(number_digits(a) == a && number_digits(b) == b && number_digits(c) == c);
}

} // verus!
