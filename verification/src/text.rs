//! Characters and character sequences: the small vocabulary the rest of the
//! library is written in.
//!
//! A string is modelled by its view, the sequence of its characters. Every
//! executable function here states its result over that sequence.

use vstd::prelude::*;

verus! {

// ---------------------------------------------------------------------
// Characters
// ---------------------------------------------------------------------

/// Whether `c` has the Unicode property `White_Space`.
pub open spec fn is_space(c: char) -> bool {
    ('\u{09}' <= c && c <= '\u{0D}') || c == ' ' || c == '\u{85}' || c == '\u{A0}' || c
        == '\u{1680}' || ('\u{2000}' <= c && c <= '\u{200A}') || c == '\u{2028}' || c
        == '\u{2029}' || c == '\u{202F}' || c == '\u{205F}' || c == '\u{3000}'
}

/// The lower-case form of an ASCII capital letter; any other character
/// unchanged.
pub open spec fn ascii_lower(c: char) -> char {
    if 'A' <= c && c <= 'Z' {
        ((c as u8) + 32) as char
    } else {
        c
    }
}

/// `s` with every ASCII capital letter replaced by its lower-case form.
pub open spec fn ascii_lowered(s: Seq<char>) -> Seq<char> {
    Seq::new(s.len(), |i: int| ascii_lower(s[i]))
}

/// Whether `c` is white space.
pub fn char_is_space(c: char) -> (r: bool)
    ensures
        r == is_space(c),
{
    ('\u{09}' <= c && c <= '\u{0D}') || c == ' ' || c == '\u{85}' || c == '\u{A0}' || c
        == '\u{1680}' || ('\u{2000}' <= c && c <= '\u{200A}') || c == '\u{2028}' || c
        == '\u{2029}' || c == '\u{202F}' || c == '\u{205F}' || c == '\u{3000}'
}

/// The lower-case form of an ASCII capital letter; any other character
/// unchanged.
pub fn char_ascii_lower(c: char) -> (r: char)
    ensures
        r == ascii_lower(c),
{
    if 'A' <= c && c <= 'Z' {
        let b: u8 = c as u8;
        (b + 32) as char
    } else {
        c
    }
}

// ---------------------------------------------------------------------
// Runs of characters at either end
// ---------------------------------------------------------------------

/// The length of the longest prefix of `s` whose characters all satisfy `p`.
pub open spec fn leading(s: Seq<char>, p: spec_fn(char) -> bool) -> nat
    decreases s.len(),
{
    if s.len() > 0 && p(s[0]) {
        1 + leading(s.drop_first(), p)
    } else {
        0
    }
}

/// The length of the longest suffix of `s` whose characters all satisfy `p`.
pub open spec fn trailing(s: Seq<char>, p: spec_fn(char) -> bool) -> nat
    decreases s.len(),
{
    if s.len() > 0 && p(s.last()) {
        1 + trailing(s.drop_last(), p)
    } else {
        0
    }
}

/// `leading` is the index of the first character that fails `p`.
pub proof fn lemma_leading(s: Seq<char>, p: spec_fn(char) -> bool)
    ensures
        leading(s, p) <= s.len(),
        forall|i: int| 0 <= i < leading(s, p) ==> p(#[trigger] s[i]),
        leading(s, p) < s.len() ==> !p(s[leading(s, p) as int]),
    decreases s.len(),
{
    if s.len() > 0 && p(s[0]) {
        let t = s.drop_first();
        lemma_leading(t, p);
        assert forall|i: int| 0 <= i < leading(s, p) implies p(#[trigger] s[i]) by {
            if i > 0 {
                assert(s[i] == t[i - 1]);
            }
        }
        if leading(s, p) < s.len() {
            assert(s[leading(s, p) as int] == t[leading(t, p) as int]);
        }
    }
}

/// Any index with the property of `lemma_leading` is `leading`.
pub proof fn lemma_leading_unique(s: Seq<char>, p: spec_fn(char) -> bool, k: int)
    requires
        0 <= k <= s.len(),
        forall|i: int| 0 <= i < k ==> p(#[trigger] s[i]),
        k < s.len() ==> !p(s[k]),
    ensures
        leading(s, p) == k,
    decreases s.len(),
{
    if k > 0 {
        let t = s.drop_first();
        assert(p(s[0]));
        assert forall|i: int| 0 <= i < k - 1 implies p(#[trigger] t[i]) by {
            assert(t[i] == s[i + 1]);
        }
        if k - 1 < t.len() {
            assert(t[k - 1] == s[k]);
        }
        lemma_leading_unique(t, p, k - 1);
    }
}

/// `trailing` counts back to the last character that fails `p`.
pub proof fn lemma_trailing(s: Seq<char>, p: spec_fn(char) -> bool)
    ensures
        trailing(s, p) <= s.len(),
        forall|i: int| s.len() - trailing(s, p) <= i < s.len() ==> p(#[trigger] s[i]),
        trailing(s, p) < s.len() ==> !p(s[s.len() - trailing(s, p) - 1]),
    decreases s.len(),
{
    if s.len() > 0 && p(s.last()) {
        let t = s.drop_last();
        lemma_trailing(t, p);
        assert forall|i: int| s.len() - trailing(s, p) <= i < s.len() implies p(
            #[trigger] s[i],
        ) by {
            if i < s.len() - 1 {
                assert(s[i] == t[i]);
            }
        }
        if trailing(s, p) < s.len() {
            assert(s[s.len() - trailing(s, p) - 1] == t[t.len() - trailing(t, p) - 1]);
        }
    }
}

/// Any count with the property of `lemma_trailing` is `trailing`.
pub proof fn lemma_trailing_unique(s: Seq<char>, p: spec_fn(char) -> bool, k: int)
    requires
        0 <= k <= s.len(),
        forall|i: int| s.len() - k <= i < s.len() ==> p(#[trigger] s[i]),
        k < s.len() ==> !p(s[s.len() - k - 1]),
    ensures
        trailing(s, p) == k,
    decreases s.len(),
{
    if k > 0 {
        let t = s.drop_last();
        assert(p(s[s.len() - 1]));
        assert forall|i: int| t.len() - (k - 1) <= i < t.len() implies p(#[trigger] t[i]) by {
            assert(t[i] == s[i]);
        }
        if k - 1 < t.len() {
            assert(t[t.len() - (k - 1) - 1] == s[s.len() - k - 1]);
        }
        lemma_trailing_unique(t, p, k - 1);
    }
}

/// The predicate "is white space".
pub open spec fn spaces() -> spec_fn(char) -> bool {
    |c: char| is_space(c)
}

/// The predicate "differs from `c`".
pub open spec fn other_than(c: char) -> spec_fn(char) -> bool {
    |x: char| x != c
}

/// The index of the first `c` in `s`, or the length of `s` where it holds
/// none.
pub open spec fn position(s: Seq<char>, c: char) -> nat {
    leading(s, other_than(c))
}

/// `s` without the white space at its two ends.
pub open spec fn trimmed(s: Seq<char>) -> Seq<char> {
    let rest = s.skip(leading(s, spaces()) as int);
    rest.take(rest.len() - trailing(rest, spaces()))
}

/// A trimmed sequence neither starts nor ends with white space, and what
/// was cut away at either end is white space only.
pub proof fn lemma_trimmed(s: Seq<char>)
    ensures
        trimmed(s).len() > 0 ==> !is_space(trimmed(s).first()) && !is_space(trimmed(s).last()),
        exists|a: int, b: int|
            0 <= a <= b <= s.len() && trimmed(s) == s.subrange(a, b) && (forall|i: int|
                0 <= i < a ==> is_space(#[trigger] s[i])) && (forall|i: int|
                b <= i < s.len() ==> is_space(#[trigger] s[i])),
{
    let a = leading(s, spaces()) as int;
    lemma_leading(s, spaces());
    let rest = s.skip(a);
    lemma_trailing(rest, spaces());
    let b = s.len() - trailing(rest, spaces());
    assert(trimmed(s) =~= s.subrange(a, b));
    assert forall|i: int| b <= i < s.len() implies is_space(#[trigger] s[i]) by {
        assert(s[i] == rest[i - a]);
    }
    if trimmed(s).len() > 0 {
        assert(trimmed(s).first() == s[a]);
        assert(trimmed(s).last() == rest[rest.len() - trailing(rest, spaces()) - 1]);
    }
}

/// Trimming what is trimmed changes nothing.
pub proof fn lemma_trimmed_twice(s: Seq<char>)
    ensures
        trimmed(trimmed(s)) == trimmed(s),
{
    let t = trimmed(s);
    lemma_trimmed(s);
    if t.len() > 0 {
        lemma_leading_unique(t, spaces(), 0);
        assert(t.skip(0) =~= t);
        lemma_trailing_unique(t, spaces(), 0);
        assert(t.take(t.len() as int) =~= t);
    } else {
        assert(t.skip(0) =~= t);
        assert(t.take(0) =~= t);
    }
}

// ---------------------------------------------------------------------
// Prefixes
// ---------------------------------------------------------------------

/// Whether `s` begins with `p`.
pub open spec fn starts_with(s: Seq<char>, p: Seq<char>) -> bool {
    p.len() <= s.len() && s.take(p.len() as int) == p
}

/// `s` after `p` was removed from its front as often as it stood there.
pub open spec fn without_prefix(s: Seq<char>, p: Seq<char>) -> Seq<char>
    decreases s.len(),
{
    if p.len() > 0 && starts_with(s, p) {
        without_prefix(s.skip(p.len() as int), p)
    } else {
        s
    }
}

/// Whether `needle` occurs in `hay` as a contiguous run.
pub open spec fn occurs_in(needle: Seq<char>, hay: Seq<char>) -> bool {
    exists|i: int|
        0 <= i && i + needle.len() <= hay.len() && #[trigger] hay.subrange(
            i,
            i + needle.len(),
        ) == needle
}

/// The Unicode lower-case form of a text, as the standard library gives
/// it.
pub uninterp spec fn lowercase_of(s: Seq<char>) -> Seq<char>;

// ---------------------------------------------------------------------
// Order
// ---------------------------------------------------------------------

/// The dictionary order on character sequences, characters compared by
/// code point: `a` comes strictly before `b`.
pub open spec fn before(a: Seq<char>, b: Seq<char>) -> bool
    decreases a.len(),
{
    if b.len() == 0 {
        false
    } else if a.len() == 0 {
        true
    } else if a[0] != b[0] {
        a[0] < b[0]
    } else {
        before(a.drop_first(), b.drop_first())
    }
}

/// No sequence comes before itself.
pub proof fn lemma_before_irreflexive(a: Seq<char>)
    ensures
        !before(a, a),
    decreases a.len(),
{
    if a.len() > 0 {
        lemma_before_irreflexive(a.drop_first());
    }
}

/// Of two different sequences one comes before the other.
pub proof fn lemma_before_total(a: Seq<char>, b: Seq<char>)
    ensures
        before(a, b) || before(b, a) || a == b,
    decreases a.len(),
{
    if a.len() == 0 || b.len() == 0 {
        if a.len() == 0 && b.len() == 0 {
            assert(a =~= b);
        }
    } else if a[0] == b[0] {
        let x = a.drop_first();
        let y = b.drop_first();
        lemma_before_total(x, y);
        if x == y {
            assert(a.len() == x.len() + 1);
            assert(b.len() == y.len() + 1);
            assert forall|i: int| 0 <= i < a.len() implies a[i] == b[i] by {
                if i > 0 {
                    assert(a[i] == x[i - 1]);
                    assert(b[i] == y[i - 1]);
                }
            }
            assert(a =~= b);
        }
    }
}

/// No two sequences come before each other.
pub proof fn lemma_before_asymmetric(a: Seq<char>, b: Seq<char>)
    ensures
        !(before(a, b) && before(b, a)),
    decreases a.len(),
{
    if a.len() > 0 && b.len() > 0 && a[0] == b[0] {
        lemma_before_asymmetric(a.drop_first(), b.drop_first());
    }
}

/// The order is transitive.
pub proof fn lemma_before_transitive(a: Seq<char>, b: Seq<char>, c: Seq<char>)
    requires
        before(a, b),
        before(b, c),
    ensures
        before(a, c),
    decreases a.len(),
{
    if a.len() > 0 && b.len() > 0 && c.len() > 0 {
        if a[0] == b[0] && b[0] == c[0] {
            lemma_before_transitive(a.drop_first(), b.drop_first(), c.drop_first());
        }
    }
}

// ---------------------------------------------------------------------
// Executable functions
// ---------------------------------------------------------------------

/// Appends one character to a string.
///
/// Trusted: `String::push` of the standard library, which extends the
/// string by exactly the given character.
#[verifier::external_body]
pub(crate) fn push_char(s: &mut String, c: char)
    ensures
        final(s)@ == old(s)@.push(c),
{
    s.push(c)
}

/// The characters of `s`, in order.
pub fn to_chars(s: &str) -> (out: Vec<char>)
    ensures
        out@ == s@,
{
    let mut out: Vec<char> = Vec::new();
    let it = s.chars();
    for c in iter: it
        invariant
            out@ == iter.seq().take(iter.index()),
    {
        out.push(c);
    }
    out
}

/// The string made of the characters `chars[from..to]`.
pub fn from_chars(chars: &Vec<char>, from: usize, to: usize) -> (out: String)
    requires
        from <= to <= chars.len(),
    ensures
        out@ == chars@.subrange(from as int, to as int),
{
    let mut out = String::new();
    let mut i: usize = from;
    while i < to
        invariant
            from <= i <= to <= chars.len(),
            out@ == chars@.subrange(from as int, i as int),
        decreases to - i,
    {
        push_char(&mut out, chars[i]);
        i += 1;
        assert(chars@.subrange(from as int, i as int) == chars@.subrange(
            from as int,
            i - 1,
        ).push(chars@[i - 1]));
    }
    out
}

/// Whether the two strings hold the same characters.
pub fn same_text(a: &str, b: &str) -> (r: bool)
    ensures
        r == (a@ == b@),
{
    let x = to_chars(a);
    let y = to_chars(b);
    same_chars(&x, &y)
}

/// Whether the two vectors hold the same characters.
pub fn same_chars(x: &Vec<char>, y: &Vec<char>) -> (r: bool)
    ensures
        r == (x@ == y@),
{
    if x.len() != y.len() {
        return false;
    }
    let mut i: usize = 0;
    while i < x.len()
        invariant
            x.len() == y.len(),
            i <= x.len(),
            forall|j: int| 0 <= j < i ==> x@[j] == y@[j],
        decreases x.len() - i,
    {
        if x[i] != y[i] {
            return false;
        }
        i += 1;
    }
    assert(x@ =~= y@);
    true
}

/// Whether `chars[at..]` begins with `p`.
pub fn starts_with_at(chars: &Vec<char>, at: usize, p: &Vec<char>) -> (r: bool)
    requires
        at <= chars.len(),
    ensures
        r == starts_with(chars@.skip(at as int), p@),
{
    if p.len() > chars.len() - at {
        return false;
    }
    let ghost rest = chars@.skip(at as int);
    let mut i: usize = 0;
    while i < p.len()
        invariant
            at <= chars.len(),
            p.len() <= chars.len() - at,
            i <= p.len(),
            rest == chars@.skip(at as int),
            forall|j: int| 0 <= j < i ==> rest[j] == p@[j],
        decreases p.len() - i,
    {
        if chars[at + i] != p[i] {
            assert(rest[i as int] != p@[i as int]);
            assert(rest.take(p.len() as int)[i as int] == rest[i as int]);
            return false;
        }
        i += 1;
    }
    assert(rest.take(p.len() as int) =~= p@);
    true
}

/// Whether `s` begins with `p`.
pub fn has_prefix(s: &str, p: &str) -> (r: bool)
    ensures
        r == starts_with(s@, p@),
{
    let x = to_chars(s);
    let y = to_chars(p);
    assert(x@.skip(0) =~= x@);
    starts_with_at(&x, 0, &y)
}

/// The index of the first `c` in `chars`, or their number where none of
/// them is `c`.
pub fn find_char(chars: &Vec<char>, c: char) -> (n: usize)
    ensures
        n == position(chars@, c),
        n <= chars.len(),
{
    let mut n: usize = 0;
    while n < chars.len() && chars[n] != c
        invariant
            n <= chars.len(),
            forall|i: int| 0 <= i < n ==> other_than(c)(#[trigger] chars@[i]),
        decreases chars.len() - n,
    {
        n += 1;
    }
    proof {
        lemma_leading_unique(chars@, other_than(c), n as int);
    }
    n
}

/// The index in `chars` at which what is left begins once `prefix` was
/// removed from `chars[start..]` as often as it stood at its front.
pub fn skip_prefixes(chars: &Vec<char>, start: usize, prefix: &Vec<char>) -> (at: usize)
    requires
        start <= chars.len(),
    ensures
        start <= at <= chars.len(),
        chars@.skip(at as int) == without_prefix(chars@.skip(start as int), prefix@),
{
    let mut at: usize = start;
    if prefix.len() == 0 {
        return at;
    }
    while starts_with_at(chars, at, prefix)
        invariant
            start <= at <= chars.len(),
            prefix.len() > 0,
            without_prefix(chars@.skip(at as int), prefix@) == without_prefix(
                chars@.skip(start as int),
                prefix@,
            ),
        decreases chars.len() - at,
    {
        proof {
            assert(chars@.skip(at as int).skip(prefix.len() as int) =~= chars@.skip(
                at + prefix.len(),
            ));
        }
        at += prefix.len();
    }
    at
}

/// Whether `needle` occurs in `hay` as a contiguous run.
pub fn contains_run(hay: &Vec<char>, needle: &Vec<char>) -> (r: bool)
    ensures
        r == occurs_in(needle@, hay@),
{
    if needle.len() > hay.len() {
        assert forall|i: int| 0 <= i && i + needle.len() <= hay.len() implies #[trigger] hay@.subrange(
            i,
            i + needle.len(),
        ) != needle@ by {}
        return false;
    }
    let last = hay.len() - needle.len();
    let mut i: usize = 0;
    while i < last
        invariant
            needle.len() <= hay.len(),
            last == hay.len() - needle.len(),
            i <= last,
            forall|j: int|
                0 <= j < i ==> #[trigger] hay@.subrange(j, j + needle.len()) != needle@,
        decreases last - i,
    {
        let found = starts_with_at(hay, i, needle);
        proof {
            assert(hay@.skip(i as int).take(needle.len() as int) =~= hay@.subrange(
                i as int,
                i + needle.len(),
            ));
        }
        if found {
            return true;
        }
        i += 1;
    }
    let found = starts_with_at(hay, last, needle);
    proof {
        assert(hay@.skip(last as int).take(needle.len() as int) =~= hay@.subrange(
            last as int,
            last + needle.len(),
        ));
    }
    found
}

/// Whether `needle` occurs in `hay` as a contiguous run.
pub fn contains_text(hay: &str, needle: &str) -> (r: bool)
    ensures
        r == occurs_in(needle@, hay@),
{
    let h = to_chars(hay);
    let n = to_chars(needle);
    contains_run(&h, &n)
}

/// Whether `chars` holds `c`.
pub fn contains_char(chars: &Vec<char>, c: char) -> (r: bool)
    ensures
        r == chars@.contains(c),
{
    let n = find_char(chars, c);
    proof {
        lemma_leading(chars@, other_than(c));
        if n < chars.len() {
            assert(chars@[n as int] == c);
        } else {
            assert forall|i: int| 0 <= i < chars@.len() implies chars@[i] != c by {
                assert(other_than(c)(chars@[i]));
            }
        }
    }
    n < chars.len()
}

/// The Unicode lower-case form of `s`.
///
/// Trusted: `str::to_lowercase` of the standard library. Its result is
/// given by the lower-case mappings of Unicode, which are not restated
/// here: the result goes by the name `lowercase_of`.
#[verifier::external_body]
pub(crate) fn to_lowercase(s: &str) -> (out: String)
    ensures
        out@ == lowercase_of(s@),
{
    s.to_lowercase()
}

/// `s` without the white space at its two ends.
pub fn trim(s: &str) -> (out: String)
    ensures
        out@ == trimmed(s@),
{
    let chars = to_chars(s);
    let n = chars.len();
    let mut a: usize = 0;
    while a < n && char_is_space(chars[a])
        invariant
            n == chars.len(),
            a <= n,
            forall|i: int| 0 <= i < a ==> is_space(#[trigger] chars@[i]),
        decreases n - a,
    {
        a += 1;
    }
    proof {
        lemma_leading_unique(chars@, spaces(), a as int);
    }
    let ghost rest = chars@.skip(a as int);
    let mut b: usize = n;
    while b > a && char_is_space(chars[b - 1])
        invariant
            n == chars.len(),
            a <= b <= n,
            rest == chars@.skip(a as int),
            forall|i: int| b - a <= i < rest.len() ==> is_space(#[trigger] rest[i]),
        decreases b,
    {
        b -= 1;
    }
    proof {
        if b > a {
            assert(rest[b - a - 1] == chars@[b - 1]);
        }
        lemma_trailing_unique(rest, spaces(), n - b);
        assert(rest.take(rest.len() - (n - b)) =~= chars@.subrange(a as int, b as int));
    }
    from_chars(&chars, a, b)
}

/// `s` with every ASCII capital letter replaced by its lower-case form.
pub fn to_ascii_lower(s: &str) -> (out: String)
    ensures
        out@ == ascii_lowered(s@),
{
    let chars = to_chars(s);
    let mut out = String::new();
    let mut i: usize = 0;
    while i < chars.len()
        invariant
            i <= chars.len(),
            out@ == ascii_lowered(chars@.take(i as int)),
        decreases chars.len() - i,
    {
        push_char(&mut out, char_ascii_lower(chars[i]));
        i += 1;
        assert(ascii_lowered(chars@.take(i as int)) =~= ascii_lowered(
            chars@.take(i - 1),
        ).push(ascii_lower(chars@[i - 1])));
    }
    assert(chars@.take(chars.len() as int) =~= chars@);
    out
}

/// Whether `a` comes strictly before `b` in dictionary order.
pub fn comes_before(a: &str, b: &str) -> (r: bool)
    ensures
        r == before(a@, b@),
{
    let x = to_chars(a);
    let y = to_chars(b);
    let mut i: usize = 0;
    assert(x@.skip(0) =~= x@);
    assert(y@.skip(0) =~= y@);
    while i < x.len() && i < y.len() && x[i] == y[i]
        invariant
            i <= x.len(),
            i <= y.len(),
            before(x@, y@) == before(x@.skip(i as int), y@.skip(i as int)),
        decreases x.len() - i,
    {
        proof {
            let xs = x@.skip(i as int);
            let ys = y@.skip(i as int);
            assert(xs[0] == ys[0]);
            assert(xs.drop_first() =~= x@.skip(i + 1));
            assert(ys.drop_first() =~= y@.skip(i + 1));
        }
        i += 1;
    }
    proof {
        let xs = x@.skip(i as int);
        let ys = y@.skip(i as int);
        if i < x.len() && i < y.len() {
            assert(xs[0] == x@[i as int]);
            assert(ys[0] == y@[i as int]);
        }
    }
    if i >= y.len() {
        false
    } else if i >= x.len() {
        true
    } else {
        x[i] < y[i]
    }
}

} // verus!
