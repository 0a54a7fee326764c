//! Character-level helpers shared by the parsers of target and project names.

use vstd::prelude::*;
use vstd::string::*;

verus! {

/// Whether `c` belongs to the Unicode word class `\w` of the `regex` crate.
pub uninterp spec fn word_char(c: char) -> bool;

/// Asks the `regex` crate (`Regex::is_match` with the pattern `^\w$`) whether
/// `c` is a word character. The crate documents `\w` as letters (Alphabetic),
/// marks, digits, connector punctuation and join controls; the contract says
/// that the answer is the one the regex engine gives for `c`, that ASCII
/// letters, ASCII digits and `_` are word characters, and that `-` and `:`
/// (dash and other punctuation) are not. Which other characters belong to the
/// class is left unsaid.
#[verifier::external_body]
pub(crate) fn is_word_char(c: char) -> (b: bool)
    ensures
        b == word_char(c),
        ('a' <= c <= 'z' || 'A' <= c <= 'Z' || '0' <= c <= '9' || c == '_') ==> b,
        (c == ':' || c == '-') ==> !b,
{
    let mut buf = [0u8; 4];
    regex::Regex::new(r"^\w$").unwrap().is_match(c.encode_utf8(&mut buf))
}

/// `s` is an identifier: a word character followed by word characters and hyphens
/// (the pattern `\w[-\w]*`).
pub open spec fn is_ident(s: Seq<char>) -> bool {
    &&& s.len() > 0
    &&& word_char(s[0])
    &&& forall|i: int| 1 <= i < s.len() ==> (word_char(#[trigger] s[i]) || s[i] == '-')
}

pub open spec fn starts_with(s: Seq<char>, prefix: Seq<char>) -> bool {
    s.len() >= prefix.len() && s.subrange(0, prefix.len() as int) == prefix
}

pub open spec fn ends_with(s: Seq<char>, suffix: Seq<char>) -> bool {
    s.len() >= suffix.len() && s.subrange(s.len() - suffix.len(), s.len() as int) == suffix
}

/// The characters of `s`, in order.
pub fn chars_of(s: &str) -> (v: Vec<char>)
    ensures
        v@ == s@,
{
    let n = s.unicode_len();
    let mut v: Vec<char> = Vec::new();
    for i in 0..n
        invariant
            n == s@.len(),
            v@ == s@.subrange(0, i as int),
    {
        v.push(s.get_char(i));
        assert(v@ =~= s@.subrange(0, i + 1));
    }
    assert(v@ =~= s@);
    v
}

/// Whether the characters `v[start..end]` form an identifier (`\w[-\w]*`).
pub fn is_ident_range(v: &Vec<char>, start: usize, end: usize) -> (b: bool)
    requires
        start <= end <= v@.len(),
    ensures
        b == is_ident(v@.subrange(start as int, end as int)),
        b ==> forall|k: int| start <= k < end ==> #[trigger] v@[k] != ':',
{
    if start == end {
        return false;
    }
    if !is_word_char(v[start]) {
        return false;
    }
    let mut i = start + 1;
    while i < end
        invariant
            start < i <= end <= v@.len(),
            word_char(v@[start as int]),
            v@[start as int] != ':',
            forall|k: int| start + 1 <= k < i ==> (word_char(#[trigger] v@[k]) || v@[k] == '-'),
            forall|k: int| start <= k < i ==> #[trigger] v@[k] != ':',
        decreases end - i,
    {
        let c = v[i];
        if !(c == '-' || is_word_char(c)) {
            let ghost s = v@.subrange(start as int, end as int);
            assert(!(word_char(s[i - start]) || s[i - start] == '-'));
            return false;
        }
        i = i + 1;
    }
    let ghost s = v@.subrange(start as int, end as int);
    assert forall|k: int| 1 <= k < s.len() implies (word_char(#[trigger] s[k]) || s[k] == '-') by {
        assert(s[k] == v@[start + k]);
    }
    true
}

/// Whether `s` ends with `suffix`.
pub fn seq_ends_with(s: &Vec<char>, suffix: &Vec<char>) -> (b: bool)
    ensures
        b == ends_with(s@, suffix@),
{
    if s.len() < suffix.len() {
        return false;
    }
    let off = s.len() - suffix.len();
    let mut i: usize = 0;
    while i < suffix.len()
        invariant
            off + suffix@.len() == s@.len(),
            suffix@.len() == suffix.len(),
            s@.len() == s.len(),
            i <= suffix@.len(),
            forall|k: int| 0 <= k < i ==> s@[off + k] == suffix@[k],
        decreases suffix@.len() - i,
    {
        if s[off + i] != suffix[i] {
            assert(s@.subrange(off as int, s@.len() as int)[i as int] != suffix@[i as int]);
            return false;
        }
        i = i + 1;
    }
    assert(s@.subrange(off as int, s@.len() as int) =~= suffix@);
    true
}

/// Whether `s` starts with `prefix`.
pub fn seq_starts_with(s: &Vec<char>, prefix: &Vec<char>) -> (b: bool)
    ensures
        b == starts_with(s@, prefix@),
{
    if s.len() < prefix.len() {
        return false;
    }
    let mut i: usize = 0;
    while i < prefix.len()
        invariant
            prefix@.len() <= s@.len(),
            i <= prefix@.len(),
            forall|k: int| 0 <= k < i ==> s@[k] == prefix@[k],
        decreases prefix@.len() - i,
    {
        if s[i] != prefix[i] {
            assert(s@.subrange(0, prefix@.len() as int)[i as int] != prefix@[i as int]);
            return false;
        }
        i = i + 1;
    }
    assert(s@.subrange(0, prefix@.len() as int) =~= prefix@);
    true
}

/// Whether the string `s` ends with the literal `suffix`.
pub fn str_ends_with(s: &str, suffix: &str) -> (b: bool)
    ensures
        b == ends_with(s@, suffix@),
{
    let sv = chars_of(s);
    let xv = chars_of(suffix);
    seq_ends_with(&sv, &xv)
}

/// Whether the string `s` starts with the literal `prefix`.
pub fn str_starts_with(s: &str, prefix: &str) -> (b: bool)
    ensures
        b == starts_with(s@, prefix@),
{
    let sv = chars_of(s);
    let xv = chars_of(prefix);
    seq_starts_with(&sv, &xv)
}

/// Whether the strings `a` and `b` hold the same characters.
pub fn str_eq(a: &str, b: &str) -> (r: bool)
    ensures
        r == (a@ == b@),
{
    owned(a) == owned(b)
}

/// A fresh string holding `s`.
pub fn owned(s: &str) -> (r: String)
    ensures
        r@ == s@,
{
    s.to_owned()
}

/// Joins `parts` with `sep` between consecutive elements.
pub open spec fn join_seq(parts: Seq<Seq<char>>, sep: Seq<char>) -> Seq<char>
    decreases parts.len(),
{
    if parts.len() == 0 {
        Seq::empty()
    } else if parts.len() == 1 {
        parts[0]
    } else {
        join_seq(parts.drop_last(), sep) + sep + parts.last()
    }
}

/// Joins `parts` with `sep` between consecutive elements.
pub fn join_strings(parts: &Vec<String>, sep: &str) -> (r: String)
    ensures
        r@ == join_seq(parts.deep_view(), sep@),
{
    let mut r = String::new();
    let ghost dv = parts.deep_view();
    for i in 0..parts.len()
        invariant
            dv == parts.deep_view(),
            r@ == join_seq(dv.take(i as int), sep@),
    {
        assert(dv.take(i + 1).drop_last() =~= dv.take(i as int));
        if i != 0 {
            r.append(sep);
        }
        r.append(parts[i].as_str());
        assert(dv.take(i + 1).last() == dv[i as int]);
    }
    assert(dv.take(parts.len() as int) =~= dv);
    r
}

} // verus!

verus! {

/// Pushing onto a vector pushes the deep view of the new element onto its deep view.
pub proof fn lemma_push_deep_view<T: DeepView>(before: Vec<T>, after: Vec<T>)
    requires
        after@.len() == before@.len() + 1,
        after@.drop_last() == before@,
    ensures
        after.deep_view() == before.deep_view().push(after@.last().deep_view()),
{
    assert forall|k: int| 0 <= k < before@.len() implies after@[k] == before@[k] by {
        assert(after@.drop_last()[k] == after@[k]);
    }
    assert(after.deep_view() =~= before.deep_view().push(after@.last().deep_view()));
}

} // verus!

verus! {

/// The elements of `s.push(x)` are those of `s` and `x`.
pub proof fn lemma_push_to_set<A>(s: Seq<A>, x: A)
    ensures
        s.push(x).to_set() == s.to_set().insert(x),
{
    assert forall|y: A| #[trigger] s.push(x).to_set().contains(y) == s.to_set().insert(x).contains(y) by {
        if s.push(x).contains(y) {
            let k = choose|k: int| 0 <= k < s.push(x).len() && s.push(x)[k] == y;
            if k < s.len() {
                assert(s[k] == y);
            }
        }
        if s.contains(y) {
            let k = choose|k: int| 0 <= k < s.len() && s[k] == y;
            assert(s.push(x)[k] == y);
        }
        if y == x {
            assert(s.push(x)[s.len() as int] == y);
        }
    }
    assert(s.push(x).to_set() =~= s.to_set().insert(x));
}

} // verus!

verus! {

/// The decimal digit of `d` (below ten).
pub open spec fn digit_char(d: nat) -> char {
    if d == 0 { '0' } else if d == 1 { '1' } else if d == 2 { '2' } else if d == 3 { '3' } else if d == 4 { '4' }
    else if d == 5 { '5' } else if d == 6 { '6' } else if d == 7 { '7' } else if d == 8 { '8' } else { '9' }
}

/// The decimal digits of `n`, most significant first, with no leading zero.
pub open spec fn decimal_digits(n: nat) -> Seq<char>
    decreases n,
{
    if n < 10 {
        seq![digit_char(n)]
    } else {
        decimal_digits(n / 10).push(digit_char(n % 10))
    }
}

/// `i` written in decimal, with a minus sign when negative.
pub open spec fn decimal(i: int) -> Seq<char> {
    if i < 0 { seq!['-'] + decimal_digits((-i) as nat) } else { decimal_digits(i as nat) }
}

fn digit_of(d: u64) -> (c: &'static str)
    requires
        d < 10,
    ensures
        c@ == seq![digit_char(d as nat)],
{
    proof {
        reveal_strlit("0");
        reveal_strlit("1");
        reveal_strlit("2");
        reveal_strlit("3");
        reveal_strlit("4");
        reveal_strlit("5");
        reveal_strlit("6");
        reveal_strlit("7");
        reveal_strlit("8");
        reveal_strlit("9");
    }
    if d == 0 { "0" } else if d == 1 { "1" } else if d == 2 { "2" } else if d == 3 { "3" } else if d == 4 { "4" }
    else if d == 5 { "5" } else if d == 6 { "6" } else if d == 7 { "7" } else if d == 8 { "8" } else { "9" }
}

/// The decimal digits of `n`.
fn digits_of(n: u64) -> (r: String)
    ensures
        r@ == decimal_digits(n as nat),
    decreases n,
{
    if n < 10 {
        owned(digit_of(n))
    } else {
        let mut r = digits_of(n / 10);
        r.append(digit_of(n % 10));
        r
    }
}

/// `i` written in decimal.
pub fn int_to_string(i: i32) -> (r: String)
    ensures
        r@ == decimal(i as int),
{
    let wide: i64 = i as i64;
    let magnitude: u64 = if wide < 0 { (-wide) as u64 } else { wide as u64 };
    let digits = digits_of(magnitude);
    let mut r = String::new();
    if wide < 0 {
        r.append("-");
        proof {
            reveal_strlit("-");
        }
    }
    r.append(digits.as_str());
    assert(r@ =~= decimal(i as int));
    r
}

} // verus!
