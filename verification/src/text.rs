//! Operations on text that the session and the command line share.

use vstd::prelude::*;

verus! {

/// Whether a character is white space: the code points that Unicode gives
/// the property `White_Space`.
pub open spec fn is_whitespace(c: char) -> bool {
    let u = c as u32;
    ||| 0x09 <= u <= 0x0D
    ||| u == 0x20
    ||| u == 0x85
    ||| u == 0xA0
    ||| u == 0x1680
    ||| 0x2000 <= u <= 0x200A
    ||| u == 0x2028
    ||| u == 0x2029
    ||| u == 0x202F
    ||| u == 0x205F
    ||| u == 0x3000
}

/// Whether a character is white space.
pub fn char_is_whitespace(c: char) -> (r: bool)
    ensures
        r == is_whitespace(c),
{
    let u: u32 = c as u32;
    (0x09 <= u && u <= 0x0D) || u == 0x20 || u == 0x85 || u == 0xA0 || u == 0x1680 || (0x2000
        <= u && u <= 0x200A) || u == 0x2028 || u == 0x2029 || u == 0x202F || u == 0x205F || u
        == 0x3000
}

/// The first position at or after `i` that holds no white space, or the
/// length of `s` if there is none.
pub open spec fn skip_whitespace(s: Seq<char>, i: int) -> int
    decreases s.len() - i,
{
    if i < 0 || i >= s.len() {
        s.len() as int
    } else if !is_whitespace(s[i]) {
        i
    } else {
        skip_whitespace(s, i + 1)
    }
}

/// The end of the last stretch before `j` that closes with something
/// other than white space, or zero if there is none.
pub open spec fn skip_whitespace_back(s: Seq<char>, j: int) -> int
    decreases j,
{
    if j <= 0 || j > s.len() {
        0
    } else if !is_whitespace(s[j - 1]) {
        j
    } else {
        skip_whitespace_back(s, j - 1)
    }
}

/// `s` without its leading and trailing white space.
pub open spec fn trimmed(s: Seq<char>) -> Seq<char> {
    let from = skip_whitespace(s, 0);
    let to = skip_whitespace_back(s, s.len() as int);
    if from >= to {
        Seq::empty()
    } else {
        s.subrange(from, to)
    }
}

/// The first position at or after `i` that does not hold `c`, or the
/// length of `s` if there is none.
pub open spec fn skip_char(s: Seq<char>, c: char, i: int) -> int
    decreases s.len() - i,
{
    if i < 0 || i >= s.len() {
        s.len() as int
    } else if s[i] != c {
        i
    } else {
        skip_char(s, c, i + 1)
    }
}

/// `s` without its leading run of the character `c`.
pub open spec fn without_leading(s: Seq<char>, c: char) -> Seq<char> {
    s.subrange(skip_char(s, c, 0), s.len() as int)
}

/// Whether `s` begins with `prefix`.
pub open spec fn has_prefix(s: Seq<char>, prefix: Seq<char>) -> bool {
    prefix.len() <= s.len() && s.subrange(0, prefix.len() as int) == prefix
}

/// The lower-case form of a text, as `str::to_lowercase` of the standard
/// library gives it.
pub uninterp spec fn lowercase(s: Seq<char>) -> Seq<char>;

/// Takes a text to lower case with `str::to_lowercase`, which follows the
/// Unicode rules for lower case. The contract only names the result: it
/// depends on the text alone.
#[verifier::external_body]
pub(crate) fn to_lowercase(s: &str) -> (r: String)
    ensures
        r@ == lowercase(s@),
{
    s.to_lowercase()
}

/// Appends one character with `String::push`.
#[verifier::external_body]
pub(crate) fn push_char(s: &mut String, c: char)
    ensures
        final(s)@ == old(s)@.push(c),
{
    s.push(c)
}

/// Removes the last character with `String::pop` and returns it, or
/// returns `None` and leaves the text empty if it was empty.
#[verifier::external_body]
pub(crate) fn pop_char(s: &mut String) -> (r: Option<char>)
    ensures
        old(s)@.len() > 0 ==> r == Some(old(s)@.last()) && final(s)@ == old(s)@.drop_last(),
        old(s)@.len() == 0 ==> r.is_none() && final(s)@ == old(s)@,
{
    s.pop()
}

/// Whether two texts hold the same characters.
pub fn same_text(a: &str, b: &str) -> (r: bool)
    ensures
        r == (a@ == b@),
{
    let x = a.to_owned();
    let y = b.to_owned();
    x == y
}

/// Removes leading and trailing white space.
pub fn trim(s: &str) -> (r: &str)
    ensures
        r@ == trimmed(s@),
{
    let len = s.unicode_len();
    let mut from: usize = 0;
    while from < len && char_is_whitespace(s.get_char(from))
        invariant
            from <= len,
            len == s@.len(),
            skip_whitespace(s@, 0) == skip_whitespace(s@, from as int),
        decreases len - from,
    {
        from += 1;
    }
    let mut to: usize = len;
    while to > from && char_is_whitespace(s.get_char(to - 1))
        invariant
            from <= to <= len,
            len == s@.len(),
            skip_whitespace_back(s@, len as int) == skip_whitespace_back(s@, to as int),
        decreases to,
    {
        to -= 1;
    }
    proof {
        if to == from {
            lemma_skip_back_below(s@, from as int, to as int);
        }
    }
    if from >= to {
        assert(skip_whitespace_back(s@, len as int) <= skip_whitespace(s@, 0));
        let e = s.substring_char(0, 0);
        assert(e@ =~= Seq::<char>::empty());
        e
    } else {
        s.substring_char(from, to)
    }
}

/// Everything before the first character that is no white space is white
/// space, so a backward search from there finds nothing later.
pub proof fn lemma_skip_back_below(s: Seq<char>, from: int, j: int)
    requires
        0 <= j <= from <= s.len(),
        skip_whitespace(s, 0) == skip_whitespace(s, from),
    ensures
        skip_whitespace_back(s, j) <= skip_whitespace(s, 0),
    decreases j,
{
    lemma_skip_whitespace_bounds(s, from);
    if j > 0 && is_whitespace(s[j - 1]) {
        lemma_skip_back_below(s, from, j - 1);
    }
}

/// The forward search ends at or after its start, within the text.
pub proof fn lemma_skip_whitespace_bounds(s: Seq<char>, i: int)
    requires
        0 <= i <= s.len(),
    ensures
        i <= skip_whitespace(s, i) <= s.len(),
    decreases s.len() - i,
{
    if i < s.len() && is_whitespace(s[i]) {
        lemma_skip_whitespace_bounds(s, i + 1);
    }
}

/// Removes the leading run of the character `c`.
pub fn trim_start_matches(s: &str, c: char) -> (r: &str)
    ensures
        r@ == without_leading(s@, c),
{
    let len = s.unicode_len();
    let mut from: usize = 0;
    while from < len && s.get_char(from) == c
        invariant
            from <= len,
            len == s@.len(),
            skip_char(s@, c, 0) == skip_char(s@, c, from as int),
        decreases len - from,
    {
        from += 1;
    }
    s.substring_char(from, len)
}

/// Whether `s` begins with `prefix`.
pub fn starts_with(s: &str, prefix: &str) -> (r: bool)
    ensures
        r == has_prefix(s@, prefix@),
{
    let n = prefix.unicode_len();
    if n > s.unicode_len() {
        return false;
    }
    let head = s.substring_char(0, n);
    same_text(head, prefix)
}

/// Whether `a` comes before `b` in dictionary order by code point, given
/// that they agree before position `i`.
pub open spec fn text_less_from(a: Seq<char>, b: Seq<char>, i: int) -> bool
    decreases b.len() - i,
{
    if i < 0 || i >= b.len() {
        false
    } else if i >= a.len() {
        true
    } else if a[i] != b[i] {
        (a[i] as int) < (b[i] as int)
    } else {
        text_less_from(a, b, i + 1)
    }
}

/// Whether `a` comes before `b` in dictionary order by code point.
pub open spec fn text_less(a: Seq<char>, b: Seq<char>) -> bool {
    text_less_from(a, b, 0)
}

/// Dictionary order is transitive.
pub proof fn lemma_text_less_transitive(a: Seq<char>, b: Seq<char>, c: Seq<char>, i: int)
    requires
        0 <= i,
        text_less_from(a, b, i),
        text_less_from(b, c, i),
    ensures
        text_less_from(a, c, i),
    decreases c.len() - i,
{
    if i < a.len() && i < b.len() && i < c.len() && a[i] == b[i] && b[i] == c[i] {
        lemma_text_less_transitive(a, b, c, i + 1);
    }
}

/// Of two texts that agree before position `i` and differ, one comes
/// before the other.
pub proof fn lemma_text_less_total(a: Seq<char>, b: Seq<char>, i: int)
    requires
        0 <= i <= a.len(),
        i <= b.len(),
        a.subrange(0, i) == b.subrange(0, i),
        a != b,
    ensures
        text_less_from(a, b, i) || text_less_from(b, a, i),
    decreases a.len() - i,
{
    if i < a.len() && i < b.len() && a[i] == b[i] {
        assert(a.subrange(0, i + 1) =~= a.subrange(0, i).push(a[i]));
        assert(b.subrange(0, i + 1) =~= b.subrange(0, i).push(b[i]));
        lemma_text_less_total(a, b, i + 1);
    } else if i == a.len() && i == b.len() {
        assert(a =~= a.subrange(0, i));
        assert(b =~= b.subrange(0, i));
    } else if i < a.len() && i < b.len() {
        assert(a[i] as int != b[i] as int);
    }
}

/// Whether `a` comes before `b` in dictionary order by code point.
pub fn text_precedes(a: &str, b: &str) -> (r: bool)
    ensures
        r == text_less(a@, b@),
{
    let la = a.unicode_len();
    let lb = b.unicode_len();
    let mut i: usize = 0;
    while i < la && i < lb && a.get_char(i) == b.get_char(i)
        invariant
            i <= la,
            i <= lb,
            la == a@.len(),
            lb == b@.len(),
            text_less_from(a@, b@, 0) == text_less_from(a@, b@, i as int),
        decreases la - i,
    {
        i += 1;
    }
    if i >= lb {
        false
    } else if i >= la {
        true
    } else {
        (a.get_char(i) as u32) < (b.get_char(i) as u32)
    }
}

} // verus!
