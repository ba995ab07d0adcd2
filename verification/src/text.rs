//! Character-level helpers on strings: searching, slicing, comparing and
//! trimming, each stated over the `Seq<char>` view of the text.

use vstd::prelude::*;

verus! {

/// `String::push` appends one character to the end of the string.
pub assume_specification[ String::push ](s: &mut String, ch: char)
    ensures
        final(s)@ == old(s)@.push(ch),
;

/// Whether `c` carries the Unicode `White_Space` property, as
/// `char::is_whitespace` reports it.
pub uninterp spec fn unicode_white_space(c: char) -> bool;

/// `char::is_whitespace`: the answer depends on the character alone, so it is
/// given the name `unicode_white_space`; nothing is claimed about which
/// characters have the property.
#[verifier::external_body]
pub(crate) fn is_whitespace(c: char) -> (b: bool)
    ensures
        b == unicode_white_space(c),
{
    c.is_whitespace()
}

/// The position of the first occurrence of `x` in `s`, or the length of `s`
/// when `x` does not occur.
pub open spec fn first_position<T>(s: Seq<T>, x: T) -> int
    decreases s.len(),
{
    if s.len() == 0 || s[0] == x {
        0
    } else {
        1 + first_position(s.skip(1), x)
    }
}

/// `first_position` is the least index holding `x`, and lies within bounds.
pub proof fn lemma_first_position<T>(s: Seq<T>, x: T)
    ensures
        0 <= first_position(s, x) <= s.len(),
        first_position(s, x) < s.len() ==> s[first_position(s, x)] == x,
        forall|i: int| 0 <= i < first_position(s, x) ==> s[i] != x,
    decreases s.len(),
{
    if s.len() == 0 || s[0] == x {
    } else {
        let rest = s.skip(1);
        lemma_first_position(rest, x);
        assert forall|i: int| 0 <= i < first_position(s, x) implies s[i] != x by {
            if i > 0 {
                assert(rest[i - 1] == s[i]);
            }
        }
    }
}

/// Any index below which `x` is absent, and which either holds `x` or ends
/// the sequence, is the first position of `x`.
pub proof fn lemma_first_position_unique<T>(s: Seq<T>, x: T, k: int)
    requires
        0 <= k <= s.len(),
        forall|i: int| 0 <= i < k ==> s[i] != x,
        k < s.len() ==> s[k] == x,
    ensures
        first_position(s, x) == k,
{
    lemma_first_position(s, x);
    let p = first_position(s, x);
    if p < k {
        assert(s[p] == x);
    }
}

/// The texts of a sequence of strings.
pub open spec fn texts_model(strings: Seq<String>) -> Seq<Seq<char>> {
    Seq::new(strings.len(), |i: int| strings[i]@)
}

/// The first `n` elements of `s` without repetitions: each element where it
/// first occurs.
pub open spec fn distinct_first<T>(s: Seq<T>, n: nat) -> Seq<T>
    decreases n,
{
    if n == 0 || n > s.len() {
        Seq::empty()
    } else {
        let before = distinct_first(s, (n - 1) as nat);
        if before.contains(s[n - 1]) {
            before
        } else {
            before.push(s[n - 1])
        }
    }
}

/// `distinct_first` holds each of the first `n` elements, nothing else, and
/// nothing twice.
pub proof fn lemma_distinct_first<T>(s: Seq<T>, n: nat)
    requires
        n <= s.len(),
    ensures
        forall|x: T| distinct_first(s, n).contains(x) <==> s.take(n as int).contains(x),
        distinct_first(s, n).no_duplicates(),
    decreases n,
{
    if n > 0 {
        let before = distinct_first(s, (n - 1) as nat);
        let last = s[n - 1];
        lemma_distinct_first(s, (n - 1) as nat);
        let now = distinct_first(s, n);
        let head = s.take(n - 1);
        let full = s.take(n as int);
        assert(full =~= head.push(last));
        assert forall|x: T| now.contains(x) <==> full.contains(x) by {
            if now.contains(x) {
                let i = choose|i: int| 0 <= i < now.len() && now[i] == x;
                if i < before.len() {
                    assert(before[i] == x);
                    assert(before.contains(x));
                    let j = choose|j: int| 0 <= j < head.len() && head[j] == x;
                    assert(full[j] == x);
                } else {
                    assert(full[n - 1] == x);
                }
            }
            if full.contains(x) {
                let j = choose|j: int| 0 <= j < full.len() && full[j] == x;
                if j < n - 1 {
                    assert(head[j] == x);
                    assert(before.contains(x));
                    let i = choose|i: int| 0 <= i < before.len() && before[i] == x;
                    assert(now[i] == x);
                } else if before.contains(x) {
                } else {
                    assert(now[before.len() as int] == x);
                }
            }
        }
    } else {
        assert(s.take(0) =~= Seq::empty());
    }
}

/// `s` without its leading white space.
pub open spec fn trimmed_start(s: Seq<char>) -> Seq<char>
    decreases s.len(),
{
    if s.len() > 0 && unicode_white_space(s[0]) {
        trimmed_start(s.skip(1))
    } else {
        s
    }
}

/// `s` without its trailing white space.
pub open spec fn trimmed_end(s: Seq<char>) -> Seq<char>
    decreases s.len(),
{
    if s.len() > 0 && unicode_white_space(s.last()) {
        trimmed_end(s.drop_last())
    } else {
        s
    }
}

/// `s` without leading and trailing white space.
pub open spec fn trimmed(s: Seq<char>) -> Seq<char> {
    trimmed_end(trimmed_start(s))
}

/// Dropping `k` leading white-space characters does not change what
/// `trimmed_start` yields.
pub proof fn lemma_trimmed_start_skip(s: Seq<char>, k: int)
    requires
        0 <= k <= s.len(),
        forall|i: int| 0 <= i < k ==> unicode_white_space(s[i]),
    ensures
        trimmed_start(s) == trimmed_start(s.skip(k)),
    decreases k,
{
    if k == 0 {
        assert(s.skip(0) =~= s);
    } else {
        let rest = s.skip(1);
        assert forall|i: int| 0 <= i < k - 1 implies unicode_white_space(rest[i]) by {
            assert(rest[i] == s[i + 1]);
        }
        lemma_trimmed_start_skip(rest, k - 1);
        assert(rest.skip(k - 1) =~= s.skip(k));
    }
}

/// Dropping trailing white-space characters down to length `k` does not
/// change what `trimmed_end` yields.
pub proof fn lemma_trimmed_end_take(s: Seq<char>, k: int)
    requires
        0 <= k <= s.len(),
        forall|i: int| k <= i < s.len() ==> unicode_white_space(s[i]),
    ensures
        trimmed_end(s) == trimmed_end(s.take(k)),
    decreases s.len() - k,
{
    if k == s.len() {
        assert(s.take(k) =~= s);
    } else {
        let front = s.drop_last();
        lemma_trimmed_end_take(front, k);
        assert(front.take(k) =~= s.take(k));
    }
}

/// Trimmed text neither starts nor ends with white space.
pub proof fn lemma_trimmed_is_bare(s: Seq<char>)
    ensures
        trimmed(s).len() > 0 ==> !unicode_white_space(trimmed(s)[0]) && !unicode_white_space(
            trimmed(s).last(),
        ),
{
    lemma_trimmed_start_is_bare(s);
    lemma_trimmed_end_is_bare(trimmed_start(s));
}

/// What `trimmed_start` yields does not start with white space.
pub proof fn lemma_trimmed_start_is_bare(s: Seq<char>)
    ensures
        trimmed_start(s).len() > 0 ==> !unicode_white_space(trimmed_start(s)[0]),
    decreases s.len(),
{
    if s.len() > 0 && unicode_white_space(s[0]) {
        lemma_trimmed_start_is_bare(s.skip(1));
    }
}

/// What `trimmed_end` yields does not end with white space, and starts as
/// its argument does.
pub proof fn lemma_trimmed_end_is_bare(s: Seq<char>)
    ensures
        trimmed_end(s).len() > 0 ==> !unicode_white_space(trimmed_end(s).last()) && trimmed_end(
            s,
        )[0] == s[0],
        trimmed_end(s).len() <= s.len(),
    decreases s.len(),
{
    if s.len() > 0 && unicode_white_space(s.last()) {
        lemma_trimmed_end_is_bare(s.drop_last());
    }
}

/// Trimming what is trimmed changes nothing.
pub proof fn lemma_trimmed_idempotent(s: Seq<char>)
    ensures
        trimmed(trimmed(s)) == trimmed(s),
{
    lemma_trimmed_is_bare(s);
}

/// The characters of `s`, in order.
pub fn chars_of(s: &str) -> (v: Vec<char>)
    ensures
        v@ == s@,
{
    let mut v: Vec<char> = Vec::new();
    for c in it: s.chars()
        invariant
            it.seq() == s@,
            v@ == s@.take(it.index() as int),
    {
        v.push(c);
        assert(s@.take(it.index() + 1) =~= s@.take(it.index() as int).push(c));
    }
    assert(s@.take(s@.len() as int) =~= s@);
    v
}

/// The text made of `chars[from..to]`.
pub fn string_of(chars: &Vec<char>, from: usize, to: usize) -> (s: String)
    requires
        from <= to <= chars.len(),
    ensures
        s@ == chars@.subrange(from as int, to as int),
{
    let mut s = String::new();
    let mut i: usize = from;
    while i < to
        invariant
            from <= i <= to <= chars.len(),
            s@ == chars@.subrange(from as int, i as int),
        decreases to - i,
    {
        s.push(chars[i]);
        assert(chars@.subrange(from as int, i + 1) =~= chars@.subrange(from as int, i as int).push(
            chars@[i as int],
        ));
        i += 1;
    }
    s
}

/// Finds the first occurrence of `c` in `chars`.
pub fn find_char(chars: &Vec<char>, c: char) -> (at: usize)
    ensures
        at == first_position(chars@, c),
{
    let mut i: usize = 0;
    while i < chars.len()
        invariant
            i <= chars.len(),
            forall|j: int| 0 <= j < i ==> chars@[j] != c,
        decreases chars.len() - i,
    {
        if chars[i] == c {
            proof {
                lemma_first_position_unique(chars@, c, i as int);
            }
            return i;
        }
        i += 1;
    }
    proof {
        lemma_first_position_unique(chars@, c, chars.len() as int);
    }
    i
}

/// Whether two texts hold the same characters.
pub fn same_text(a: &str, b: &str) -> (same: bool)
    ensures
        same == (a@ == b@),
{
    let x = chars_of(a);
    let y = chars_of(b);
    if x.len() != y.len() {
        return false;
    }
    let mut i: usize = 0;
    while i < x.len()
        invariant
            i <= x.len(),
            x.len() == y.len(),
            x@ == a@,
            y@ == b@,
            forall|j: int| 0 <= j < i ==> x@[j] == y@[j],
        decreases x.len() - i,
    {
        if x[i] != y[i] {
            assert(a@[i as int] != b@[i as int]);
            return false;
        }
        i += 1;
    }
    assert(x@ =~= y@);
    true
}

/// Removes leading and trailing white space.
pub fn trim(s: &str) -> (t: String)
    ensures
        t@ == trimmed(s@),
{
    let chars = chars_of(s);
    let n = chars.len();
    let mut from: usize = 0;
    while from < n && is_whitespace(chars[from])
        invariant
            n == chars.len(),
            from <= n,
            forall|i: int| 0 <= i < from ==> unicode_white_space(chars@[i]),
        decreases n - from,
    {
        from += 1;
    }
    let mut to: usize = n;
    while to > from && is_whitespace(chars[to - 1])
        invariant
            n == chars.len(),
            from <= to <= n,
            forall|i: int| to <= i < n ==> unicode_white_space(chars@[i]),
        decreases to,
    {
        to -= 1;
    }
    proof {
        let rest = chars@.skip(from as int);
        lemma_trimmed_start_skip(chars@, from as int);
        assert(trimmed_start(rest) == rest);
        assert forall|i: int| to - from <= i < rest.len() implies unicode_white_space(rest[i]) by {
            assert(rest[i] == chars@[i + from]);
        }
        lemma_trimmed_end_take(rest, to - from);
        let kept = rest.take(to - from);
        assert(kept =~= chars@.subrange(from as int, to as int));
        if kept.len() > 0 {
            assert(kept.last() == chars@[to - 1]);
        }
        assert(trimmed_end(kept) == kept);
    }
    string_of(&chars, from, to)
}

/// Whether `s` ends with `suffix`.
pub open spec fn has_suffix(s: Seq<char>, suffix: Seq<char>) -> bool {
    s.len() >= suffix.len() && s.skip(s.len() - suffix.len()) == suffix
}

/// Whether `s` ends with `suffix`.
pub fn ends_with(s: &str, suffix: &str) -> (b: bool)
    ensures
        b == has_suffix(s@, suffix@),
{
    let x = chars_of(s);
    let y = chars_of(suffix);
    if x.len() < y.len() {
        return false;
    }
    let shift = x.len() - y.len();
    let ghost tail = x@.skip(shift as int);
    let mut i: usize = 0;
    while i < y.len()
        invariant
            i <= y.len(),
            shift + y.len() == x.len(),
            x@ == s@,
            y@ == suffix@,
            tail == x@.skip(shift as int),
            forall|j: int| 0 <= j < i ==> tail[j] == y@[j],
        decreases y.len() - i,
    {
        if x[shift + i] != y[i] {
            assert(tail[i as int] != y@[i as int]);
            return false;
        }
        i += 1;
    }
    assert(tail =~= y@);
    true
}

} // verus!
