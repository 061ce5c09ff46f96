//! Text utilities shared by the cookie store and the page parsers.
//!
//! All reasoning is over `Seq<char>`, the view of `&str` and `String`;
//! executable code mostly works on `Vec<char>` and converts at the edges.

use vstd::prelude::*;

verus! {

/// ASCII whitespace: the characters the library recognizes when it trims,
/// splits, or collapses text.
pub open spec fn is_space(c: char) -> bool {
    c == ' ' || c == '\t' || c == '\n' || c == '\r' || c == '\x0b' || c == '\x0c'
}

/// Executable test for [`is_space`].
pub fn space_char(c: char) -> (r: bool)
    ensures
        r == is_space(c),
{
    c == ' ' || c == '\t' || c == '\n' || c == '\r' || c == '\x0b' || c == '\x0c'
}

/// ASCII lower-casing of one character; anything outside `A`..=`Z` is kept.
pub open spec fn lower(c: char) -> char {
    if 'A' <= c && c <= 'Z' {
        ((c as u32) + 32) as char
    } else {
        c
    }
}

/// [`lower`] applied to every character.
pub open spec fn lower_all(s: Seq<char>) -> Seq<char> {
    s.map_values(|c: char| lower(c))
}

/// Executable [`lower`].
pub fn lower_char(c: char) -> (r: char)
    ensures
        r == lower(c),
{
    if 'A' <= c && c <= 'Z' {
        let x: u32 = (c as u32) + 32;
        assert(x < 128);
        (x as u8) as char
    } else {
        c
    }
}

/// Executable [`lower_all`].
pub fn lower_chars(v: &Vec<char>) -> (r: Vec<char>)
    ensures
        r@ == lower_all(v@),
{
    let mut r: Vec<char> = Vec::new();
    let mut i: usize = 0;
    while i < v.len()
        invariant
            i <= v.len(),
            r@ == lower_all(v@.take(i as int)),
        decreases v.len() - i,
    {
        r.push(lower_char(v[i]));
        i = i + 1;
        proof {
            assert(r@ =~= lower_all(v@.take(i as int)));
        }
    }
    proof {
        assert(v@.take(v@.len() as int) =~= v@);
    }
    r
}

/// The characters of a string slice, in order.
pub fn chars_of(s: &str) -> (v: Vec<char>)
    ensures
        v@ == s@,
{
    let n = s.unicode_len();
    let mut v: Vec<char> = Vec::new();
    let mut i: usize = 0;
    while i < n
        invariant
            i <= n,
            n == s@.len(),
            v@ == s@.take(i as int),
        decreases n - i,
    {
        v.push(s.get_char(i));
        i = i + 1;
        proof {
            assert(v@ =~= s@.take(i as int));
        }
    }
    proof {
        assert(v@ =~= s@);
    }
    v
}

/// A `String` holding exactly the given characters.
///
/// Relies on `String: FromIterator<char>` of std: collecting characters
/// yields the string of those characters in order.
#[verifier::external_body]
pub(crate) fn string_of(v: &Vec<char>) -> (s: String)
    ensures
        s@ == v@,
{
    v.iter().collect()
}

/// `s` with leading ASCII whitespace removed.
pub open spec fn trim_start(s: Seq<char>) -> Seq<char>
    decreases s.len(),
{
    if s.len() > 0 && is_space(s[0]) {
        trim_start(s.drop_first())
    } else {
        s
    }
}

/// `s` with trailing ASCII whitespace removed.
pub open spec fn trim_end(s: Seq<char>) -> Seq<char>
    decreases s.len(),
{
    if s.len() > 0 && is_space(s.last()) {
        trim_end(s.drop_last())
    } else {
        s
    }
}

/// `s` with whitespace removed from both ends.
pub open spec fn trim(s: Seq<char>) -> Seq<char> {
    trim_end(trim_start(s))
}

proof fn lemma_trim_start_step(s: Seq<char>, i: int)
    requires
        0 <= i < s.len(),
        is_space(s[i]),
    ensures
        trim_start(s.skip(i)) == trim_start(s.skip(i + 1)),
{
    assert(s.skip(i).len() > 0);
    assert(s.skip(i)[0] == s[i]);
    assert(s.skip(i).drop_first() =~= s.skip(i + 1));
}

proof fn lemma_trim_end_step(s: Seq<char>, j: int)
    requires
        0 < j <= s.len(),
        is_space(s[j - 1]),
    ensures
        trim_end(s.take(j)) == trim_end(s.take(j - 1)),
{
    assert(s.take(j).len() == j);
    assert(s.take(j).last() == s[j - 1]);
    assert(s.take(j).drop_last() =~= s.take(j - 1));
}

/// Executable [`trim`].
pub fn trim_chars(v: &Vec<char>) -> (r: Vec<char>)
    ensures
        r@ == trim(v@),
{
    let mut i: usize = 0;
    proof {
        assert(v@.skip(0) =~= v@);
    }
    while i < v.len() && space_char(v[i])
        invariant
            i <= v.len(),
            trim_start(v@) == trim_start(v@.skip(i as int)),
        decreases v.len() - i,
    {
        proof {
            lemma_trim_start_step(v@, i as int);
        }
        i = i + 1;
    }
    // Here (i == len or v[i] is not space), so v@.skip(i) is trimmed in front.
    proof {
        if i < v.len() {
            assert(v@.skip(i as int)[0] == v@[i as int]);
        }
        assert(trim_start(v@.skip(i as int)) == v@.skip(i as int));
    }
    let mut j: usize = v.len();
    proof {
        assert(v@.skip(i as int) =~= v@.skip(i as int).take((v@.len() - i) as int));
    }
    while j > i && space_char(v[j - 1])
        invariant
            i <= j <= v.len(),
            trim_start(v@) == v@.skip(i as int),
            trim_end(v@.skip(i as int)) == trim_end(v@.skip(i as int).take(j - i as int)),
        decreases j,
    {
        proof {
            assert(v@.skip(i as int).take(j - i as int).len() == j - i);
            assert(v@.skip(i as int).take(j - i as int)[j - 1 - i as int] == v@[j - 1]);
            lemma_trim_end_step(v@.skip(i as int), j - i as int);
        }
        j = j - 1;
    }
    proof {
        let t = v@.skip(i as int).take(j - i as int);
        if j > i {
            assert(t[j - 1 - i as int] == v@[j - 1]);
            assert(t.last() == v@[j - 1]);
        }
        assert(trim_end(t) == t);
        assert(trim(v@) == t);
    }
    let mut r: Vec<char> = Vec::new();
    let mut k: usize = i;
    while k < j
        invariant
            i <= k <= j <= v.len(),
            r@ == v@.subrange(i as int, k as int),
        decreases j - k,
    {
        r.push(v[k]);
        k = k + 1;
        proof {
            assert(r@ =~= v@.subrange(i as int, k as int));
        }
    }
    proof {
        assert(v@.subrange(i as int, j as int) =~= v@.skip(i as int).take(j - i as int));
    }
    r
}

/// The views of a sequence of character vectors.
pub open spec fn char_views(r: Seq<Vec<char>>) -> Seq<Seq<char>> {
    Seq::new(r.len(), |i: int| r[i]@)
}

/// The views of a sequence of strings.
pub open spec fn string_views(r: Seq<String>) -> Seq<Seq<char>> {
    Seq::new(r.len(), |i: int| r[i]@)
}

/// Splits `s` at the first occurrence of `sep`: the part before it, and,
/// when `sep` occurs at all, the whole part after it.
pub open spec fn split2(s: Seq<char>, sep: char) -> (Seq<char>, Option<Seq<char>>)
    decreases s.len(),
{
    if s.len() == 0 {
        (seq![], None)
    } else if s[0] == sep {
        (seq![], Some(s.drop_first()))
    } else {
        let r = split2(s.drop_first(), sep);
        (seq![s[0]] + r.0, r.1)
    }
}

proof fn lemma_split2_at(s: Seq<char>, sep: char, k: int)
    requires
        0 <= k <= s.len(),
        forall|m: int| 0 <= m < k ==> s[m] != sep,
        k == s.len() || s[k] == sep,
    ensures
        k == s.len() ==> split2(s, sep) == (s, None::<Seq<char>>),
        k < s.len() ==> split2(s, sep) == (s.take(k), Some(s.skip(k + 1))),
    decreases k,
{
    if k == 0 {
        if 0 < s.len() {
            assert(s.take(0) =~= Seq::<char>::empty());
            assert(s.skip(1) =~= s.drop_first());
        }
    } else {
        let t = s.drop_first();
        assert(forall|m: int| 0 <= m < k - 1 ==> t[m] != sep);
        lemma_split2_at(t, sep, k - 1);
        if k == s.len() {
            assert(split2(s, sep).0 =~= s);
        } else {
            assert(seq![s[0]] + t.take(k - 1) =~= s.take(k));
            assert(t.skip(k) =~= s.skip(k + 1));
        }
    }
}

/// Executable [`split2`].
pub fn split2_chars(v: &Vec<char>, sep: char) -> (r: (Vec<char>, Option<Vec<char>>))
    ensures
        r.0@ == split2(v@, sep).0,
        match r.1 {
            Some(rest) => split2(v@, sep).1 == Some(rest@),
            None => split2(v@, sep).1 is None,
        },
{
    let mut k: usize = 0;
    while k < v.len() && v[k] != sep
        invariant
            k <= v.len(),
            forall|m: int| 0 <= m < k ==> v@[m] != sep,
        decreases v.len() - k,
    {
        k = k + 1;
    }
    proof {
        lemma_split2_at(v@, sep, k as int);
    }
    let mut head: Vec<char> = Vec::new();
    let mut i: usize = 0;
    while i < k
        invariant
            i <= k <= v.len(),
            head@ == v@.take(i as int),
        decreases k - i,
    {
        head.push(v[i]);
        i = i + 1;
        proof {
            assert(head@ =~= v@.take(i as int));
        }
    }
    if k == v.len() {
        proof {
            assert(v@.take(v@.len() as int) =~= v@);
        }
        (head, None)
    } else {
        let mut tail: Vec<char> = Vec::new();
        let mut j: usize = k + 1;
        while j < v.len()
            invariant
                k + 1 <= j <= v.len(),
                tail@ == v@.subrange(k + 1 as int, j as int),
            decreases v.len() - j,
        {
            tail.push(v[j]);
            j = j + 1;
            proof {
                assert(tail@ =~= v@.subrange(k + 1 as int, j as int));
            }
        }
        proof {
            assert(v@.subrange(k + 1 as int, v@.len() as int) =~= v@.skip(k + 1 as int));
        }
        (head, Some(tail))
    }
}

/// Splits `s` on every occurrence of `sep`; there is always at least one
/// segment, and empty segments are kept.
pub open spec fn split_on(s: Seq<char>, sep: char) -> Seq<Seq<char>>
    decreases s.len(),
{
    if s.len() == 0 {
        seq![Seq::<char>::empty()]
    } else if s.last() == sep {
        split_on(s.drop_last(), sep).push(seq![])
    } else {
        let p = split_on(s.drop_last(), sep);
        p.update(p.len() - 1, p.last().push(s.last()))
    }
}

/// `split_on` never yields an empty list of segments.
pub proof fn lemma_split_on_len(s: Seq<char>, sep: char)
    ensures
        split_on(s, sep).len() >= 1,
    decreases s.len(),
{
    if s.len() > 0 {
        lemma_split_on_len(s.drop_last(), sep);
    }
}

/// Executable [`split_on`].
pub fn split_chars(v: &Vec<char>, sep: char) -> (r: Vec<Vec<char>>)
    ensures
        char_views(r@) == split_on(v@, sep),
        r.len() >= 1,
{
    let mut done: Vec<Vec<char>> = Vec::new();
    let mut cur: Vec<char> = Vec::new();
    let mut i: usize = 0;
    proof {
        assert(v@.take(0) =~= Seq::<char>::empty());
        assert(char_views(done@).push(cur@) =~= split_on(v@.take(0), sep));
    }
    while i < v.len()
        invariant
            i <= v.len(),
            char_views(done@).push(cur@) == split_on(v@.take(i as int), sep),
        decreases v.len() - i,
    {
        let ghost pre = v@.take(i as int);
        let c = v[i];
        i = i + 1;
        proof {
            assert(v@.take(i as int).drop_last() =~= pre);
            assert(v@.take(i as int).last() == c);
        }
        if c == sep {
            let finished = cur;
            cur = Vec::new();
            done.push(finished);
            proof {
                assert(char_views(done@).push(cur@) =~= split_on(v@.take(i as int), sep));
            }
        } else {
            cur.push(c);
            proof {
                let p = split_on(pre, sep);
                lemma_split_on_len(pre, sep);
                assert(char_views(done@).push(cur@) =~= p.update(
                    p.len() - 1,
                    p.last().push(c),
                ));
            }
        }
    }
    proof {
        assert(v@.take(v@.len() as int) =~= v@);
    }
    done.push(cur);
    proof {
        assert(char_views(done@) =~= split_on(v@, sep));
    }
    done
}

/// The maximal runs of non-whitespace characters in `s`, in order; splitting
/// on whitespace never yields empty tokens.
pub open spec fn tokens(s: Seq<char>) -> Seq<Seq<char>>
    decreases s.len(),
{
    if s.len() == 0 {
        seq![]
    } else {
        let t = tokens(s.drop_last());
        let c = s.last();
        if is_space(c) {
            t
        } else if s.len() >= 2 && !is_space(s[s.len() - 2]) {
            t.update(t.len() - 1, t.last().push(c))
        } else {
            t.push(seq![c])
        }
    }
}

/// Executable [`tokens`].
pub fn tokens_chars(v: &Vec<char>) -> (r: Vec<Vec<char>>)
    ensures
        char_views(r@) == tokens(v@),
{
    let mut done: Vec<Vec<char>> = Vec::new();
    let mut cur: Vec<char> = Vec::new();
    let mut i: usize = 0;
    proof {
        assert(v@.take(0) =~= Seq::<char>::empty());
        assert(char_views(done@) =~= tokens(v@.take(0)));
    }
    while i < v.len()
        invariant
            i <= v.len(),
            cur@.len() == 0 ==> {
                &&& char_views(done@) == tokens(v@.take(i as int))
                &&& (i == 0 || is_space(v@[i - 1]))
            },
            cur@.len() > 0 ==> {
                &&& char_views(done@).push(cur@) == tokens(v@.take(i as int))
                &&& i > 0
                &&& !is_space(v@[i - 1])
            },
        decreases v.len() - i,
    {
        let ghost pre = v@.take(i as int);
        let c = v[i];
        i = i + 1;
        proof {
            assert(v@.take(i as int).drop_last() =~= pre);
            assert(v@.take(i as int).last() == c);
        }
        if space_char(c) {
            if cur.len() > 0 {
                let finished = cur;
                cur = Vec::new();
                done.push(finished);
                proof {
                    assert(char_views(done@) =~= char_views(done@.drop_last()).push(
                        done@.last()@,
                    ));
                }
            }
        } else {
            if cur.len() == 0 {
                cur.push(c);
                proof {
                    if i >= 2 {
                        assert(v@.take(i as int)[i - 2] == v@[i - 2]);
                    }
                    assert(cur@ =~= seq![c]);
                    assert(char_views(done@).push(cur@) =~= tokens(v@.take(i as int)));
                }
            } else {
                cur.push(c);
                proof {
                    let t = tokens(pre);
                    assert(char_views(done@).push(cur@) =~= t.update(
                        t.len() - 1,
                        t.last().push(c),
                    ));
                }
            }
        }
    }
    proof {
        assert(v@.take(v@.len() as int) =~= v@);
    }
    if cur.len() > 0 {
        done.push(cur);
        proof {
            assert(char_views(done@) =~= char_views(done@.drop_last()).push(done@.last()@));
        }
    }
    done
}

/// The segments of `parts` joined with `sep` between neighbours.
pub open spec fn joined(parts: Seq<Seq<char>>, sep: Seq<char>) -> Seq<char>
    decreases parts.len(),
{
    if parts.len() == 0 {
        seq![]
    } else if parts.len() == 1 {
        parts[0]
    } else {
        joined(parts.drop_last(), sep) + sep + parts.last()
    }
}

/// Executable [`joined`].
pub fn join_chars(parts: &Vec<Vec<char>>, sep: &Vec<char>) -> (r: Vec<char>)
    ensures
        r@ == joined(char_views(parts@), sep@),
{
    let mut r: Vec<char> = Vec::new();
    let mut i: usize = 0;
    while i < parts.len()
        invariant
            i <= parts.len(),
            r@ == joined(char_views(parts@).take(i as int), sep@),
        decreases parts.len() - i,
    {
        if i > 0 {
            let mut k: usize = 0;
            while k < sep.len()
                invariant
                    k <= sep.len(),
                    r@ == joined(char_views(parts@).take(i as int), sep@) + sep@.take(
                        k as int,
                    ),
                decreases sep.len() - k,
            {
                r.push(sep[k]);
                k = k + 1;
                proof {
                    assert(r@ =~= joined(char_views(parts@).take(i as int), sep@) + sep@.take(
                        k as int,
                    ));
                }
            }
            proof {
                assert(sep@.take(sep@.len() as int) =~= sep@);
            }
        }
        let part = &parts[i];
        let mut k: usize = 0;
        let ghost base = r@;
        while k < part.len()
            invariant
                k <= part@.len(),
                r@ == base + part@.take(k as int),
            decreases part.len() - k,
        {
            r.push(part[k]);
            k = k + 1;
            proof {
                assert(r@ =~= base + part@.take(k as int));
            }
        }
        i = i + 1;
        proof {
            assert(part@.take(part@.len() as int) =~= part@);
            let tv = char_views(parts@).take(i as int);
            assert(tv.drop_last() =~= char_views(parts@).take(i - 1));
            assert(tv.last() == parts@[i - 1]@);
            if i == 1 {
                assert(r@ =~= joined(tv, sep@));
            } else {
                assert(r@ =~= joined(tv.drop_last(), sep@) + sep@ + tv.last());
            }
        }
    }
    proof {
        assert(char_views(parts@).take(parts@.len() as int) =~= char_views(parts@));
    }
    r
}

/// `p` is a prefix of `s`.
pub open spec fn starts_with(s: Seq<char>, p: Seq<char>) -> bool {
    s.len() >= p.len() && s.take(p.len() as int) == p
}

/// `p` is a suffix of `s`.
pub open spec fn ends_with(s: Seq<char>, p: Seq<char>) -> bool {
    s.len() >= p.len() && s.skip((s.len() - p.len()) as int) == p
}

/// Executable [`starts_with`].
pub fn starts_with_chars(v: &Vec<char>, p: &Vec<char>) -> (r: bool)
    ensures
        r == starts_with(v@, p@),
{
    if v.len() < p.len() {
        return false;
    }
    let mut i: usize = 0;
    while i < p.len()
        invariant
            i <= p@.len() <= v@.len(),
            forall|m: int| 0 <= m < i ==> v@[m] == p@[m],
        decreases p.len() - i,
    {
        if v[i] != p[i] {
            proof {
                assert(v@.take(p@.len() as int)[i as int] != p@[i as int]);
            }
            return false;
        }
        i = i + 1;
    }
    proof {
        assert(v@.take(p@.len() as int) =~= p@);
    }
    true
}

/// Executable [`ends_with`].
pub fn ends_with_chars(v: &Vec<char>, p: &Vec<char>) -> (r: bool)
    ensures
        r == ends_with(v@, p@),
{
    if v.len() < p.len() {
        return false;
    }
    let off: usize = v.len() - p.len();
    let mut i: usize = 0;
    while i < p.len()
        invariant
            i <= p@.len() <= v@.len(),
            v@.len() <= usize::MAX,
            off == v@.len() - p@.len(),
            forall|m: int| 0 <= m < i ==> v@[off + m] == p@[m],
        decreases p.len() - i,
    {
        assert(off + i < v@.len());
        if v[off + i] != p[i] {
            proof {
                assert(v@.skip(off as int)[i as int] != p@[i as int]);
            }
            return false;
        }
        i = i + 1;
    }
    proof {
        assert(v@.skip(off as int) =~= p@);
    }
    true
}

/// `c` occurs in `s`.
pub open spec fn has_char(s: Seq<char>, c: char) -> bool {
    exists|i: int| 0 <= i < s.len() && s[i] == c
}

/// Executable [`has_char`].
pub fn has_char_exec(v: &Vec<char>, c: char) -> (r: bool)
    ensures
        r == has_char(v@, c),
{
    let mut i: usize = 0;
    while i < v.len()
        invariant
            i <= v.len(),
            forall|m: int| 0 <= m < i ==> v@[m] != c,
        decreases v.len() - i,
    {
        if v[i] == c {
            return true;
        }
        i = i + 1;
    }
    false
}

/// Executable equality of two character vectors.
pub fn eq_chars(a: &Vec<char>, b: &Vec<char>) -> (r: bool)
    ensures
        r == (a@ == b@),
{
    if a.len() != b.len() {
        return false;
    }
    let mut i: usize = 0;
    while i < a.len()
        invariant
            i <= a@.len() == b@.len(),
            forall|m: int| 0 <= m < i ==> a@[m] == b@[m],
        decreases a.len() - i,
    {
        if a[i] != b[i] {
            return false;
        }
        i = i + 1;
    }
    proof {
        assert(a@ =~= b@);
    }
    true
}

/// Executable test that `a` and `b` are equal up to ASCII case.
pub fn eq_ignore_case_chars(a: &Vec<char>, b: &Vec<char>) -> (r: bool)
    ensures
        r == (lower_all(a@) == lower_all(b@)),
{
    proof {
        assert(lower_all(a@).len() == a@.len());
        assert(lower_all(b@).len() == b@.len());
    }
    if a.len() != b.len() {
        return false;
    }
    let mut i: usize = 0;
    while i < a.len()
        invariant
            i <= a@.len() == b@.len(),
            forall|m: int| 0 <= m < i ==> lower(a@[m]) == lower(b@[m]),
        decreases a.len() - i,
    {
        if lower_char(a[i]) != lower_char(b[i]) {
            proof {
                assert(lower_all(a@)[i as int] != lower_all(b@)[i as int]);
            }
            return false;
        }
        i = i + 1;
    }
    proof {
        assert(lower_all(a@) =~= lower_all(b@));
    }
    true
}

/// An ASCII decimal digit.
pub open spec fn is_digit(c: char) -> bool {
    '0' <= c && c <= '9'
}

/// The numeric value of an ASCII digit.
pub open spec fn digit_val(c: char) -> int {
    c as u32 - 48
}

/// Every character of `s` is an ASCII digit.
pub open spec fn all_digits(s: Seq<char>) -> bool {
    forall|i: int| 0 <= i < s.len() ==> is_digit(#[trigger] s[i])
}

/// The value of a sequence of ASCII digits read as a decimal number.
pub open spec fn dec_val(s: Seq<char>) -> int
    decreases s.len(),
{
    if s.len() == 0 {
        0
    } else {
        dec_val(s.drop_last()) * 10 + digit_val(s.last())
    }
}

pub proof fn lemma_dec_val_nonneg(s: Seq<char>)
    requires
        all_digits(s),
    ensures
        dec_val(s) >= 0,
    decreases s.len(),
{
    if s.len() > 0 {
        assert(all_digits(s.drop_last())) by {
            assert(forall|i: int|
                0 <= i < s.len() - 1 ==> s.drop_last()[i] == #[trigger] s[i]);
        }
        lemma_dec_val_nonneg(s.drop_last());
    }
}

/// Reading more digits never shrinks the value.
pub proof fn lemma_dec_val_prefix(s: Seq<char>, k: int)
    requires
        all_digits(s),
        0 <= k <= s.len(),
    ensures
        dec_val(s.take(k)) <= dec_val(s),
    decreases s.len(),
{
    if k == s.len() {
        assert(s.take(k) =~= s);
    } else {
        let t = s.drop_last();
        assert(all_digits(t)) by {
            assert(forall|i: int| 0 <= i < t.len() ==> t[i] == #[trigger] s[i]);
        }
        assert(s.take(k) =~= t.take(k));
        lemma_dec_val_prefix(t, k);
        lemma_dec_val_nonneg(t);
        assert(is_digit(s.last()));
    }
}

/// How Rust reads a decimal integer: an optional single sign, then one or
/// more ASCII digits and nothing else; the unbounded value.
pub open spec fn parse_int_text(s: Seq<char>) -> Option<int> {
    let signed = s.len() > 0 && (s[0] == '+' || s[0] == '-');
    let body = if signed {
        s.drop_first()
    } else {
        s
    };
    if body.len() > 0 && all_digits(body) {
        if signed && s[0] == '-' {
            Some(-dec_val(body))
        } else {
            Some(dec_val(body))
        }
    } else {
        None
    }
}

/// [`parse_int_text`] restricted to values that fit an `i64`, as
/// `str::parse::<i64>` accepts them.
pub open spec fn parse_i64_text(s: Seq<char>) -> Option<i64> {
    match parse_int_text(s) {
        Some(v) => if i64::MIN <= v <= i64::MAX {
            Some(v as i64)
        } else {
            None
        },
        None => None,
    }
}

/// Executable [`parse_i64_text`].
pub fn parse_i64_chars(v: &Vec<char>) -> (r: Option<i64>)
    ensures
        r == parse_i64_text(v@),
{
    let st: usize;
    let neg: bool;
    if v.len() > 0 && (v[0] == '+' || v[0] == '-') {
        neg = v[0] == '-';
        st = 1;
    } else {
        neg = false;
        st = 0;
    }
    let ghost body = v@.skip(st as int);
    proof {
        if st == 1 {
            assert(body =~= v@.drop_first());
        }
    }
    if st == v.len() {
        return None;
    }
    // `acc` holds the negated value of the digits read so far; accumulating
    // downward lets `i64::MIN` itself come out of a `-` sign.
    let mut acc: i64 = 0;
    let mut i: usize = st;
    while i < v.len()
        invariant
            st <= i <= v@.len(),
            v@.len() <= usize::MAX,
            st == 0 || st == 1,
            st == 1 ==> v@.len() > 1 && (v@[0] == '+' || v@[0] == '-') && neg == (v@[0] == '-'),
            st == 0 ==> !neg && (v@.len() == 0 || !(v@[0] == '+' || v@[0] == '-')),
            body == v@.skip(st as int),
            body.len() > 0,
            all_digits(body.take(i - st)),
            acc == -dec_val(body.take(i - st)),
            acc <= 0,
        decreases v.len() - i,
    {
        let c = v[i];
        proof {
            assert(body[i - st] == v@[i as int]);
        }
        if !('0' <= c && c <= '9') {
            proof {
                assert(!all_digits(body));
            }
            return None;
        }
        let d: i64 = ((c as u32) - 48) as i64;
        let ghost pre = body.take(i - st);
        let ghost cur = body.take(i + 1 - st);
        proof {
            assert(cur.drop_last() =~= pre);
            assert(cur.last() == c);
            assert(all_digits(cur));
        }
        let stepped: Option<i64> = match acc.checked_mul(10) {
            Some(a10) => a10.checked_sub(d),
            None => None,
        };
        match stepped {
            Some(a) => {
                acc = a;
            },
            None => {
                // The magnitude already exceeds the i64 range, and further
                // digits can only grow it.
                proof {
                    assert(acc == -dec_val(pre));
                    assert(dec_val(cur) == dec_val(pre) * 10 + digit_val(c));
                    assert(digit_val(c) == d);
                    assert(dec_val(cur) > i64::MAX + 1);
                    let signed = v@.len() > 0 && (v@[0] == '+' || v@[0] == '-');
                    assert(signed <==> st == 1);
                    if signed {
                        assert(v@.drop_first() =~= v@.skip(1));
                    }
                    assert((if signed {
                        v@.drop_first()
                    } else {
                        v@
                    }) == body);
                    if all_digits(body) {
                        assert(body.take(body.len() as int) =~= body);
                        lemma_dec_val_prefix(body, i + 1 - st);
                        assert(dec_val(body) > i64::MAX + 1);
                        assert(parse_int_text(v@) == Some(
                            if neg {
                                -dec_val(body)
                            } else {
                                dec_val(body)
                            },
                        ));
                    } else {
                        assert(parse_int_text(v@) is None);
                    }
                    assert(parse_i64_text(v@) is None);
                }
                return None;
            },
        }
        i = i + 1;
    }
    proof {
        assert(body.take(body.len() as int) =~= body);
        let signed = v@.len() > 0 && (v@[0] == '+' || v@[0] == '-');
        assert(signed <==> st == 1);
        if signed {
            assert(v@.drop_first() =~= v@.skip(1));
        }
        assert((if signed {
            v@.drop_first()
        } else {
            v@
        }) == body);
    }
    if neg {
        Some(acc)
    } else if acc == i64::MIN {
        return None;
    } else {
        Some(-acc)
    }
}

/// The decimal digits of `n`, most significant first.
pub open spec fn dec_digits(n: int) -> Seq<char>
    decreases n,
{
    if n < 10 {
        seq![(48 + n) as char]
    } else {
        dec_digits(n / 10).push((48 + n % 10) as char)
    }
}

/// Executable [`dec_digits`] for `u32`.
pub fn dec_u32(n: u32) -> (r: Vec<char>)
    ensures
        r@ == dec_digits(n as int),
        r@.len() >= 1,
    decreases n,
{
    if n < 10 {
        let c = (48 + n as u8) as char;
        let mut r: Vec<char> = Vec::new();
        r.push(c);
        proof {
            assert(r@ =~= dec_digits(n as int));
        }
        r
    } else {
        let mut r = dec_u32(n / 10);
        let c = (48 + (n % 10) as u8) as char;
        r.push(c);
        r
    }
}

/// `s` padded on the left with `'0'` up to width `w`.
pub open spec fn zero_pad(s: Seq<char>, w: int) -> Seq<char>
    decreases w,
{
    if s.len() >= w {
        s
    } else {
        seq!['0'] + zero_pad(s, w - 1)
    }
}

/// Zero padding is the padding zeros followed by the text itself.
pub proof fn lemma_zero_pad_shape(s: Seq<char>, w: int)
    requires
        s.len() <= w,
    ensures
        zero_pad(s, w) == Seq::new((w - s.len()) as nat, |i: int| '0') + s,
    decreases w,
{
    if s.len() == w {
        assert(zero_pad(s, w) =~= Seq::new(0, |i: int| '0') + s);
    } else {
        lemma_zero_pad_shape(s, w - 1);
        assert(seq!['0'] + (Seq::new((w - 1 - s.len()) as nat, |i: int| '0') + s) =~= Seq::new(
            (w - s.len()) as nat,
            |i: int| '0',
        ) + s);
    }
}

/// Executable [`zero_pad`] over the decimal form of `n`.
pub fn dec_u32_padded(n: u32, w: usize) -> (r: Vec<char>)
    requires
        w <= 8,
    ensures
        r@ == zero_pad(dec_digits(n as int), w as int),
{
    let digits = dec_u32(n);
    if digits.len() >= w {
        proof {
            assert(zero_pad(digits@, w as int) == digits@);
        }
        return digits;
    }
    let pad: usize = w - digits.len();
    let mut r: Vec<char> = Vec::new();
    let mut k: usize = 0;
    while k < pad
        invariant
            k <= pad,
            r@ == Seq::new(k as nat, |i: int| '0'),
        decreases pad - k,
    {
        r.push('0');
        k = k + 1;
        proof {
            assert(r@ =~= Seq::new(k as nat, |i: int| '0'));
        }
    }
    let mut m: usize = 0;
    let ghost base = r@;
    while m < digits.len()
        invariant
            m <= digits@.len(),
            r@ == base + digits@.take(m as int),
        decreases digits.len() - m,
    {
        r.push(digits[m]);
        m = m + 1;
        proof {
            assert(r@ =~= base + digits@.take(m as int));
        }
    }
    proof {
        assert(digits@.take(digits@.len() as int) =~= digits@);
        lemma_zero_pad_shape(digits@, w as int);
        assert(r@ =~= zero_pad(digits@, w as int));
    }
    r
}

/// Lexicographic order on character sequences by code point, the order in
/// which `Cookie` header pairs are rendered.
pub open spec fn lex_le(a: Seq<char>, b: Seq<char>) -> bool
    decreases a.len(),
{
    if a.len() == 0 {
        true
    } else if b.len() == 0 {
        false
    } else if (a[0] as u32) < (b[0] as u32) {
        true
    } else if a[0] == b[0] {
        lex_le(a.drop_first(), b.drop_first())
    } else {
        false
    }
}

/// Any two sequences are comparable under [`lex_le`].
pub proof fn lemma_lex_le_total(a: Seq<char>, b: Seq<char>)
    ensures
        lex_le(a, b) || lex_le(b, a),
    decreases a.len(),
{
    if a.len() > 0 && b.len() > 0 {
        if a[0] == b[0] {
            lemma_lex_le_total(a.drop_first(), b.drop_first());
        } else {
            assert(a[0] as u32 != b[0] as u32) by {
                vstd::utf8::char_u32_cast(a[0], a[0] as u32);
                vstd::utf8::char_u32_cast(b[0], b[0] as u32);
            }
            assert((a[0] as u32) < (b[0] as u32) || (b[0] as u32) < (a[0] as u32));
        }
    }
}

/// [`lex_le`] is transitive.
pub proof fn lemma_lex_le_trans(a: Seq<char>, b: Seq<char>, c: Seq<char>)
    requires
        lex_le(a, b),
        lex_le(b, c),
    ensures
        lex_le(a, c),
    decreases a.len(),
{
    if a.len() > 0 && b.len() > 0 && c.len() > 0 && a[0] == b[0] && b[0] == c[0] {
        lemma_lex_le_trans(a.drop_first(), b.drop_first(), c.drop_first());
    }
}

proof fn lemma_lex_le_skip(a: Seq<char>, b: Seq<char>, i: int)
    requires
        0 <= i <= a.len(),
        i <= b.len(),
        forall|m: int| 0 <= m < i ==> a[m] == b[m],
    ensures
        lex_le(a, b) == lex_le(a.skip(i), b.skip(i)),
    decreases i,
{
    if i > 0 {
        assert(a.len() > 0 && b.len() > 0 && a[0] == b[0]);
        let a1 = a.drop_first();
        let b1 = b.drop_first();
        assert(forall|m: int| 0 <= m < i - 1 ==> a1[m] == b1[m]);
        lemma_lex_le_skip(a1, b1, i - 1);
        assert(a1.skip(i - 1) =~= a.skip(i));
        assert(b1.skip(i - 1) =~= b.skip(i));
    } else {
        assert(a.skip(0) =~= a);
        assert(b.skip(0) =~= b);
    }
}

/// Executable [`lex_le`].
pub fn lex_le_chars(a: &Vec<char>, b: &Vec<char>) -> (r: bool)
    ensures
        r == lex_le(a@, b@),
{
    let mut i: usize = 0;
    while i < a.len() && i < b.len()
        invariant
            i <= a@.len(),
            i <= b@.len(),
            forall|m: int| 0 <= m < i ==> a@[m] == b@[m],
        decreases a.len() - i,
    {
        proof {
            lemma_lex_le_skip(a@, b@, i as int);
        }
        let ca = a[i];
        let cb = b[i];
        if (ca as u32) < (cb as u32) {
            proof {
                assert(a@.skip(i as int)[0] == ca);
                assert(b@.skip(i as int)[0] == cb);
            }
            return true;
        }
        if ca != cb {
            proof {
                assert(a@.skip(i as int)[0] == ca);
                assert(b@.skip(i as int)[0] == cb);
                assert((ca as u32) >= (cb as u32) && ca != cb);
            }
            return false;
        }
        i = i + 1;
    }
    proof {
        lemma_lex_le_skip(a@, b@, i as int);
        if i == a@.len() {
            assert(a@.skip(i as int).len() == 0);
        } else {
            assert(b@.skip(i as int).len() == 0);
            assert(a@.skip(i as int).len() > 0);
        }
    }
    i == a.len()
}

/// The sequence is in [`lex_le`] order.
pub open spec fn sorted_lex(s: Seq<Seq<char>>) -> bool {
    forall|i: int, j: int| 0 <= i < j < s.len() ==> lex_le(#[trigger] s[i], #[trigger] s[j])
}

/// `x` placed before the first entry of `s` that is not below it.
pub open spec fn insert_lex(x: Seq<char>, s: Seq<Seq<char>>) -> Seq<Seq<char>>
    decreases s.len(),
{
    if s.len() == 0 {
        seq![x]
    } else if lex_le(x, s[0]) {
        seq![x] + s
    } else {
        seq![s[0]] + insert_lex(x, s.drop_first())
    }
}

/// Insertion sort of `s` under [`lex_le`].
pub open spec fn sort_lex(s: Seq<Seq<char>>) -> Seq<Seq<char>>
    decreases s.len(),
{
    if s.len() == 0 {
        s
    } else {
        insert_lex(s[0], sort_lex(s.drop_first()))
    }
}

/// Inserting adds exactly one occurrence of `x` and keeps everything else.
pub proof fn lemma_insert_lex_multiset(x: Seq<char>, s: Seq<Seq<char>>)
    ensures
        insert_lex(x, s).to_multiset() == s.to_multiset().insert(x),
        insert_lex(x, s).len() == s.len() + 1,
    decreases s.len(),
{
    broadcast use vstd::seq_lib::group_to_multiset_ensures;

    if s.len() == 0 {
        assert(seq![x] =~= Seq::<Seq<char>>::empty().push(x));
        assert(Seq::<Seq<char>>::empty().push(x).to_multiset() =~= s.to_multiset().insert(x));
    } else if lex_le(x, s[0]) {
        assert(seq![x] + s =~= (seq![x] + s.drop_last()).push(s.last()));
        lemma_insert_prepend_multiset(x, s);
    } else {
        lemma_insert_lex_multiset(x, s.drop_first());
        let rest = insert_lex(x, s.drop_first());
        assert(seq![s[0]] + rest =~= rest.insert(0, s[0]));
        lemma_insert_prepend_multiset(s[0], rest);
        assert(seq![s[0]] + s.drop_first() =~= s);
        lemma_insert_prepend_multiset(s[0], s.drop_first());
    }
}

/// Prepending one element inserts it into the multiset.
proof fn lemma_insert_prepend_multiset(x: Seq<char>, s: Seq<Seq<char>>)
    ensures
        (seq![x] + s).to_multiset() == s.to_multiset().insert(x),
    decreases s.len(),
{
    broadcast use vstd::seq_lib::group_to_multiset_ensures;

    if s.len() == 0 {
        assert(seq![x] + s =~= Seq::<Seq<char>>::empty().push(x));
    } else {
        lemma_insert_prepend_multiset(x, s.drop_last());
        assert(seq![x] + s =~= (seq![x] + s.drop_last()).push(s.last()));
        assert((seq![x] + s).to_multiset() =~= s.to_multiset().insert(x)) by {
            assert(s =~= s.drop_last().push(s.last()));
            assert((seq![x] + s.drop_last()).push(s.last()).to_multiset() == (seq![x]
                + s.drop_last()).to_multiset().insert(s.last()));
            assert(s.to_multiset() == s.drop_last().to_multiset().insert(s.last()));
            assert(s.drop_last().to_multiset().insert(x).insert(s.last())
                =~= s.drop_last().to_multiset().insert(s.last()).insert(x));
        }
    }
}

/// Every entry of the inserted list stays at or above a common lower bound.
proof fn lemma_insert_lex_lower(y: Seq<char>, x: Seq<char>, s: Seq<Seq<char>>)
    requires
        lex_le(y, x),
        forall|m: int| 0 <= m < s.len() ==> lex_le(y, #[trigger] s[m]),
    ensures
        forall|j: int|
            0 <= j < insert_lex(x, s).len() ==> lex_le(y, #[trigger] insert_lex(x, s)[j]),
    decreases s.len(),
{
    if s.len() == 0 {
        assert(insert_lex(x, s) =~= seq![x]);
    } else if lex_le(x, s[0]) {
        let r = seq![x] + s;
        assert forall|j: int| 0 <= j < r.len() implies lex_le(y, r[j]) by {
            if j > 0 {
                assert(r[j] == s[j - 1]);
            }
        }
    } else {
        assert(forall|m: int| 0 <= m < s.drop_first().len() ==> lex_le(
            y,
            #[trigger] s.drop_first()[m],
        ));
        lemma_insert_lex_lower(y, x, s.drop_first());
        let r = seq![s[0]] + insert_lex(x, s.drop_first());
        assert forall|j: int| 0 <= j < r.len() implies lex_le(y, r[j]) by {
            if j > 0 {
                assert(r[j] == insert_lex(x, s.drop_first())[j - 1]);
            }
        }
    }
}

/// Inserting into a sorted list keeps it sorted.
pub proof fn lemma_insert_lex_sorted(x: Seq<char>, s: Seq<Seq<char>>)
    requires
        sorted_lex(s),
    ensures
        sorted_lex(insert_lex(x, s)),
    decreases s.len(),
{
    if s.len() == 0 {
    } else if lex_le(x, s[0]) {
        let r = seq![x] + s;
        assert forall|i: int, j: int| 0 <= i < j < r.len() implies lex_le(r[i], r[j]) by {
            if i == 0 {
                if j == 1 {
                    assert(r[j] == s[0]);
                } else {
                    lemma_lex_le_trans(x, s[0], s[j - 1]);
                }
            }
        }
    } else {
        lemma_lex_le_total(x, s[0]);
        let rest = s.drop_first();
        assert(sorted_lex(rest)) by {
            assert(forall|i: int, j: int|
                0 <= i < j < rest.len() ==> lex_le(#[trigger] rest[i], #[trigger] rest[j]));
        }
        lemma_insert_lex_sorted(x, rest);
        assert(forall|m: int| 0 <= m < rest.len() ==> lex_le(s[0], #[trigger] rest[m]));
        lemma_insert_lex_lower(s[0], x, rest);
        let r = seq![s[0]] + insert_lex(x, rest);
        assert forall|i: int, j: int| 0 <= i < j < r.len() implies lex_le(r[i], r[j]) by {
            if i > 0 {
                assert(r[i] == insert_lex(x, rest)[i - 1]);
                assert(r[j] == insert_lex(x, rest)[j - 1]);
            }
        }
    }
}

/// Sorting keeps exactly the same entries and orders them.
pub proof fn lemma_sort_lex_props(s: Seq<Seq<char>>)
    ensures
        sort_lex(s).to_multiset() == s.to_multiset(),
        sort_lex(s).len() == s.len(),
        sorted_lex(sort_lex(s)),
    decreases s.len(),
{
    broadcast use vstd::seq_lib::group_to_multiset_ensures;

    if s.len() > 0 {
        lemma_sort_lex_props(s.drop_first());
        lemma_insert_lex_multiset(s[0], sort_lex(s.drop_first()));
        lemma_insert_lex_sorted(s[0], sort_lex(s.drop_first()));
        assert(s =~= seq![s[0]] + s.drop_first());
        lemma_insert_prepend_multiset(s[0], s.drop_first());
    }
}

proof fn lemma_insert_lex_at(x: Seq<char>, s: Seq<Seq<char>>, k: int)
    requires
        0 <= k <= s.len(),
        forall|m: int| 0 <= m < k ==> !lex_le(x, #[trigger] s[m]),
        k < s.len() ==> lex_le(x, s[k]),
    ensures
        insert_lex(x, s) == s.take(k) + seq![x] + s.skip(k),
    decreases k,
{
    if k == 0 {
        if s.len() == 0 {
            assert(insert_lex(x, s) =~= s.take(0) + seq![x] + s.skip(0));
        } else {
            assert(s.take(0) + seq![x] + s.skip(0) =~= seq![x] + s);
        }
    } else {
        let rest = s.drop_first();
        assert(forall|m: int| 0 <= m < k - 1 ==> !lex_le(x, #[trigger] rest[m]));
        lemma_insert_lex_at(x, rest, k - 1);
        assert(seq![s[0]] + (rest.take(k - 1) + seq![x] + rest.skip(k - 1)) =~= s.take(k)
            + seq![x] + s.skip(k));
    }
}

/// Inserts `x` into the sorted vector `r`, keeping it sorted.
pub fn insert_sorted_chars(r: &mut Vec<Vec<char>>, x: Vec<char>)
    ensures
        char_views(final(r)@) == insert_lex(x@, char_views(old(r)@)),
{
    let mut k: usize = 0;
    while k < r.len() && !lex_le_chars(&x, &r[k])
        invariant
            k <= r@.len(),
            r@ == old(r)@,
            forall|m: int| 0 <= m < k ==> !lex_le(x@, #[trigger] char_views(r@)[m]),
        decreases r.len() - k,
    {
        proof {
            assert(char_views(r@)[k as int] == r@[k as int]@);
        }
        k = k + 1;
    }
    proof {
        assert(char_views(r@)[k as int] == r@[k as int]@ || k == r@.len());
        lemma_insert_lex_at(x@, char_views(r@), k as int);
    }
    let ghost before = char_views(r@);
    let ghost xv = x@;
    r.insert(k, x);
    proof {
        assert(char_views(r@) =~= before.take(k as int) + seq![xv] + before.skip(k as int));
    }
}

/// Executable [`sort_lex`]: insertion sort of character vectors.
pub fn sort_chars(v: Vec<Vec<char>>) -> (r: Vec<Vec<char>>)
    ensures
        char_views(r@) == sort_lex(char_views(v@)),
{
    let ghost orig = char_views(v@);
    let mut v = v;
    let mut r: Vec<Vec<char>> = Vec::new();
    proof {
        assert(orig.skip(orig.len() as int) =~= Seq::<Seq<char>>::empty());
        assert(char_views(r@) =~= sort_lex(orig.skip(orig.len() as int)));
    }
    while v.len() > 0
        invariant
            v@.len() <= orig.len(),
            char_views(v@) == orig.take(v@.len() as int),
            char_views(r@) == sort_lex(orig.skip(v@.len() as int)),
        decreases v.len(),
    {
        let ghost n = v@.len() as int;
        let ghost prev = v@;
        let x = v.pop().unwrap();
        proof {
            assert(x == prev.last());
            assert(x@ == char_views(prev)[n - 1]);
            assert(char_views(prev)[n - 1] == orig.take(n)[n - 1]);
            assert(x@ == orig[n - 1]);
            assert(v@ == prev.drop_last());
            assert(char_views(v@) =~= orig.take(n - 1));
        }
        insert_sorted_chars(&mut r, x);
        proof {
            let tail = orig.skip(n - 1);
            assert(tail[0] == orig[n - 1]);
            assert(tail.drop_first() =~= orig.skip(n));
            assert(char_views(r@) == insert_lex(tail[0], sort_lex(tail.drop_first())));
        }
    }
    proof {
        assert(orig.skip(0) =~= orig);
        assert(orig.take(orig.len() as int) =~= orig);
    }
    r
}

} // verus!
