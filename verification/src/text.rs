//! Character-level text utilities shared by the parsers: whitespace
//! tokenisation, splitting on a single character, trimming, and reading a
//! decimal digit string, each tied to a spec-level model of its result.

use vstd::prelude::*;

verus! {

/// The whitespace characters recognised by these utilities: space, tab,
/// newline, carriage return.
pub open spec fn is_space(c: char) -> bool {
    c == ' ' || c == '\t' || c == '\n' || c == '\r'
}

/// The whitespace-separated tokens of `s`, in order: the maximal runs of
/// non-whitespace characters.
pub open spec fn tokens_of(s: Seq<char>) -> Seq<Seq<char>>
    decreases s.len(),
{
    if s.len() == 0 {
        seq![]
    } else if is_space(s[0]) {
        tokens_of(s.drop_first())
    } else if s.len() == 1 || is_space(s[1]) {
        seq![seq![s[0]]] + tokens_of(s.drop_first())
    } else {
        let rest = tokens_of(s.drop_first());
        seq![seq![s[0]] + rest[0]] + rest.drop_first()
    }
}

/// A maximal non-whitespace run at the front of a string contributes exactly
/// one token, and the rest of the string is tokenised independently.
pub proof fn lemma_tokens_concat(t: Seq<char>, r: Seq<char>)
    requires
        t.len() > 0,
        forall|k: int| 0 <= k < t.len() ==> !is_space(#[trigger] t[k]),
        r.len() == 0 || is_space(r[0]),
    ensures
        tokens_of(t + r) == seq![t] + tokens_of(r),
    decreases t.len(),
{
    let s = t + r;
    assert(s[0] == t[0]);
    if t.len() == 1 {
        assert(s.drop_first() =~= r);
        assert(seq![s[0]] =~= t);
        if r.len() == 0 {
            assert(tokens_of(s) == seq![seq![s[0]]] + tokens_of(s.drop_first()));
        } else {
            assert(s[1] == r[0]);
            assert(tokens_of(s) == seq![seq![s[0]]] + tokens_of(s.drop_first()));
        }
        assert(tokens_of(s) =~= seq![t] + tokens_of(r));
    } else {
        assert(s[1] == t[1]);
        assert(!is_space(s[1]));
        assert(s.drop_first() =~= t.drop_first() + r);
        lemma_tokens_concat(t.drop_first(), r);
        let rest = tokens_of(s.drop_first());
        assert(rest == seq![t.drop_first()] + tokens_of(r));
        assert(rest[0] == t.drop_first());
        assert(rest.drop_first() =~= tokens_of(r));
        assert(seq![s[0]] + rest[0] =~= t);
        assert(tokens_of(s) == seq![seq![s[0]] + rest[0]] + rest.drop_first());
        assert(tokens_of(s) =~= seq![t] + tokens_of(r));
    }
}

/// Split a line on runs of whitespace into its tokens.
pub fn split_tokens(line: &str) -> (r: Vec<String>)
    ensures
        r.deep_view() == tokens_of(line@),
{
    let n = line.unicode_len();
    let mut toks: Vec<String> = Vec::new();
    let mut start: usize = 0;
    let mut i: usize = 0;
    proof {
        assert(line@.skip(0) =~= line@);
        assert(toks.deep_view() =~= Seq::<Seq<char>>::empty());
        assert(Seq::<Seq<char>>::empty() + tokens_of(line@) =~= tokens_of(line@));
    }
    while i < n
        invariant
            start <= i <= n,
            n == line@.len(),
            forall|k: int| start <= k < i ==> !is_space(#[trigger] line@[k]),
            tokens_of(line@) == toks.deep_view() + tokens_of(line@.skip(start as int)),
        decreases n - i,
    {
        let c = line.get_char(i);
        if c == ' ' || c == '\t' || c == '\n' || c == '\r' {
            assert(is_space(line@[i as int]));
            if start < i {
                let t = line.substring_char(start, i).to_owned();
                let ghost dv0 = toks.deep_view();
                toks.push(t);
                proof {
                    assert(toks.deep_view() =~= dv0.push(t@));
                    let run = line@.subrange(start as int, i as int);
                    let tail = line@.skip(i as int);
                    assert(line@.skip(start as int) =~= run + tail);
                    lemma_tokens_concat(run, tail);
                    assert(tail.drop_first() =~= line@.skip(i + 1));
                    assert(tokens_of(tail) == tokens_of(line@.skip(i + 1)));
                    assert(dv0 + (seq![run] + tokens_of(tail)) =~= toks.deep_view()
                        + tokens_of(line@.skip(i + 1)));
                }
            } else {
                proof {
                    let tail = line@.skip(start as int);
                    assert(tail.drop_first() =~= line@.skip(i + 1));
                    assert(tokens_of(tail) == tokens_of(line@.skip(i + 1)));
                }
            }
            start = i + 1;
        }
        i = i + 1;
    }
    if start < n {
        let t = line.substring_char(start, n).to_owned();
        let ghost dv0 = toks.deep_view();
        toks.push(t);
        proof {
            assert(toks.deep_view() =~= dv0.push(t@));
            let run = line@.subrange(start as int, n as int);
            assert(line@.skip(start as int) =~= run + Seq::<char>::empty());
            lemma_tokens_concat(run, Seq::<char>::empty());
            assert(tokens_of(Seq::<char>::empty()) =~= Seq::<Seq<char>>::empty());
            assert(dv0 + (seq![run] + tokens_of(Seq::<char>::empty())) =~= toks.deep_view());
        }
    } else {
        proof {
            assert(line@.skip(start as int) =~= Seq::<char>::empty());
        }
    }
    toks
}

/// The parts of `s` between occurrences of the separator character `sep`,
/// in order. The empty string has one (empty) part, and `n` separators
/// always delimit `n + 1` parts, so no part list is ever empty.
pub open spec fn split_char(s: Seq<char>, sep: char) -> Seq<Seq<char>>
    decreases s.len(),
{
    if s.len() == 0 {
        seq![Seq::<char>::empty()]
    } else if s[0] == sep {
        seq![Seq::<char>::empty()] + split_char(s.drop_first(), sep)
    } else {
        let rest = split_char(s.drop_first(), sep);
        seq![seq![s[0]] + rest[0]] + rest.drop_first()
    }
}

/// A separator-free string is a single part.
pub proof fn lemma_split_char_whole(t: Seq<char>, sep: char)
    requires
        forall|k: int| 0 <= k < t.len() ==> #[trigger] t[k] != sep,
    ensures
        split_char(t, sep) == seq![t],
    decreases t.len(),
{
    if t.len() == 0 {
        assert(t =~= Seq::<char>::empty());
        assert(split_char(t, sep) =~= seq![t]);
    } else {
        assert(t[0] != sep);
        lemma_split_char_whole(t.drop_first(), sep);
        let rest = split_char(t.drop_first(), sep);
        assert(split_char(t, sep) == seq![seq![t[0]] + rest[0]] + rest.drop_first());
        assert(rest[0] == t.drop_first());
        assert(rest.drop_first() =~= Seq::<Seq<char>>::empty());
        assert(seq![t[0]] + rest[0] =~= t);
        assert(split_char(t, sep) =~= seq![t]);
    }
}

/// A separator-free prefix followed by a separator contributes exactly one
/// part, and the remainder is split independently.
pub proof fn lemma_split_char_concat(t: Seq<char>, r: Seq<char>, sep: char)
    requires
        forall|k: int| 0 <= k < t.len() ==> #[trigger] t[k] != sep,
    ensures
        split_char(t + seq![sep] + r, sep) == seq![t] + split_char(r, sep),
    decreases t.len(),
{
    let s = t + seq![sep] + r;
    if t.len() == 0 {
        assert(s[0] == sep);
        assert(s.drop_first() =~= r);
        assert(split_char(s, sep) == seq![Seq::<char>::empty()] + split_char(r, sep));
        assert(t =~= Seq::<char>::empty());
        assert(seq![Seq::<char>::empty()] + split_char(r, sep) =~= seq![t] + split_char(r, sep));
    } else {
        assert(s[0] == t[0]);
        assert(s[0] != sep);
        assert(s.drop_first() =~= t.drop_first() + seq![sep] + r);
        lemma_split_char_concat(t.drop_first(), r, sep);
        let rest = split_char(s.drop_first(), sep);
        assert(rest == seq![t.drop_first()] + split_char(r, sep));
        assert(rest[0] == t.drop_first());
        assert(rest.drop_first() =~= split_char(r, sep));
        assert(seq![s[0]] + rest[0] =~= t);
        assert(split_char(s, sep) =~= seq![t] + split_char(r, sep));
    }
}

/// Split `s` on every occurrence of the character `sep`.
pub fn split_on_char(s: &str, sep: char) -> (r: Vec<String>)
    ensures
        r.deep_view() == split_char(s@, sep),
{
    let n = s.unicode_len();
    let mut parts: Vec<String> = Vec::new();
    let mut start: usize = 0;
    let mut i: usize = 0;
    proof {
        assert(s@.skip(0) =~= s@);
        assert(parts.deep_view() =~= Seq::<Seq<char>>::empty());
        assert(Seq::<Seq<char>>::empty() + split_char(s@, sep) =~= split_char(s@, sep));
    }
    while i < n
        invariant
            start <= i <= n,
            n == s@.len(),
            forall|k: int| start <= k < i ==> #[trigger] s@[k] != sep,
            split_char(s@, sep) == parts.deep_view() + split_char(s@.skip(start as int), sep),
        decreases n - i,
    {
        let c = s.get_char(i);
        if c == sep {
            let t = s.substring_char(start, i).to_owned();
            let ghost dv0 = parts.deep_view();
            parts.push(t);
            proof {
                assert(parts.deep_view() =~= dv0.push(t@));
                let run = s@.subrange(start as int, i as int);
                let tail = s@.skip(i + 1);
                assert(s@.skip(start as int) =~= run + seq![sep] + tail);
                lemma_split_char_concat(run, tail, sep);
                assert(dv0 + (seq![run] + split_char(tail, sep)) =~= parts.deep_view()
                    + split_char(tail, sep));
            }
            start = i + 1;
        }
        i = i + 1;
    }
    let t = s.substring_char(start, n).to_owned();
    let ghost dv0 = parts.deep_view();
    parts.push(t);
    proof {
        assert(parts.deep_view() =~= dv0.push(t@));
        let run = s@.skip(start as int);
        assert(run =~= s@.subrange(start as int, n as int));
        lemma_split_char_whole(run, sep);
        assert(dv0 + seq![run] =~= parts.deep_view());
    }
    parts
}

/// Character-by-character string equality, tied to view equality.
pub fn str_eq(a: &str, b: &str) -> (r: bool)
    ensures
        r == (a@ == b@),
{
    let na = a.unicode_len();
    let nb = b.unicode_len();
    if na != nb {
        return false;
    }
    let mut i: usize = 0;
    while i < na
        invariant
            i <= na,
            na == a@.len(),
            na == b@.len(),
            forall|k: int| 0 <= k < i ==> a@[k] == b@[k],
        decreases na - i,
    {
        if a.get_char(i) != b.get_char(i) {
            return false;
        }
        i = i + 1;
    }
    proof {
        assert(a@ =~= b@);
    }
    true
}

/// Whether the character `c` occurs in `s`.
pub fn contains_char(s: &str, c: char) -> (r: bool)
    ensures
        r == s@.contains(c),
{
    let n = s.unicode_len();
    let mut i: usize = 0;
    while i < n
        invariant
            i <= n,
            n == s@.len(),
            forall|k: int| 0 <= k < i ==> s@[k] != c,
        decreases n - i,
    {
        if s.get_char(i) == c {
            assert(s@[i as int] == c);
            return true;
        }
        i = i + 1;
    }
    assert(!s@.contains(c));
    false
}

/// Whether `p@` is a prefix of `s@`.
pub open spec fn starts_with_spec(s: Seq<char>, p: Seq<char>) -> bool {
    s.len() >= p.len() && s.subrange(0, p.len() as int) == p
}

/// Character-by-character prefix test.
pub fn str_starts_with(s: &str, p: &str) -> (r: bool)
    ensures
        r == starts_with_spec(s@, p@),
{
    let n = s.unicode_len();
    let np = p.unicode_len();
    if n < np {
        return false;
    }
    let mut i: usize = 0;
    while i < np
        invariant
            i <= np <= n,
            n == s@.len(),
            np == p@.len(),
            forall|k: int| 0 <= k < i ==> s@[k] == p@[k],
        decreases np - i,
    {
        if s.get_char(i) != p.get_char(i) {
            assert(s@.subrange(0, p@.len() as int)[i as int] != p@[i as int]);
            return false;
        }
        i = i + 1;
    }
    proof {
        assert(s@.subrange(0, p@.len() as int) =~= p@);
    }
    true
}

/// Exec test for `is_space`.
pub fn is_space_char(c: char) -> (r: bool)
    ensures
        r == is_space(c),
{
    c == ' ' || c == '\t' || c == '\n' || c == '\r'
}

/// `s` without its leading whitespace.
pub open spec fn trim_start(s: Seq<char>) -> Seq<char>
    decreases s.len(),
{
    if s.len() > 0 && is_space(s[0]) {
        trim_start(s.drop_first())
    } else {
        s
    }
}

/// `s` without its trailing whitespace.
pub open spec fn trim_end(s: Seq<char>) -> Seq<char>
    decreases s.len(),
{
    if s.len() > 0 && is_space(s.last()) {
        trim_end(s.drop_last())
    } else {
        s
    }
}

/// `s` without surrounding whitespace.
pub open spec fn trim_spec(s: Seq<char>) -> Seq<char> {
    trim_end(trim_start(s))
}

/// Dropping leading whitespace is skipping up to the first non-space
/// character (or the whole string when every character is whitespace).
pub proof fn lemma_trim_start_skip(s: Seq<char>, a: int)
    requires
        0 <= a <= s.len(),
        forall|k: int| 0 <= k < a ==> is_space(#[trigger] s[k]),
        a < s.len() ==> !is_space(s[a]),
    ensures
        trim_start(s) == s.skip(a),
    decreases a,
{
    if a == 0 {
        assert(s.skip(0) =~= s);
    } else {
        assert(is_space(s[0]));
        lemma_trim_start_skip(s.drop_first(), a - 1);
        assert(s.drop_first().skip(a - 1) =~= s.skip(a));
    }
}

/// Dropping trailing whitespace is taking up to the last non-space
/// character (or nothing when every character is whitespace).
pub proof fn lemma_trim_end_take(s: Seq<char>, b: int)
    requires
        0 <= b <= s.len(),
        forall|k: int| b <= k < s.len() ==> is_space(#[trigger] s[k]),
        b > 0 ==> !is_space(s[b - 1]),
    ensures
        trim_end(s) == s.take(b),
    decreases s.len() - b,
{
    if b == s.len() {
        assert(s.take(b) =~= s);
    } else {
        assert(is_space(s.last()));
        lemma_trim_end_take(s.drop_last(), b);
        assert(s.drop_last().take(b) =~= s.take(b));
    }
}

/// Remove surrounding whitespace from `s`.
pub fn trim_str(s: &str) -> (r: String)
    ensures
        r@ == trim_spec(s@),
{
    let n = s.unicode_len();
    let mut a: usize = 0;
    while a < n && is_space_char(s.get_char(a))
        invariant
            a <= n,
            n == s@.len(),
            forall|k: int| 0 <= k < a ==> is_space(#[trigger] s@[k]),
        decreases n - a,
    {
        a = a + 1;
    }
    if a == n {
        proof {
            lemma_trim_start_skip(s@, n as int);
            assert(s@.skip(n as int) =~= Seq::<char>::empty());
        }
        return String::new();
    }
    let mut b: usize = n;
    while b > a && is_space_char(s.get_char(b - 1))
        invariant
            a < b <= n,
            n == s@.len(),
            !is_space(s@[a as int]),
            forall|k: int| b <= k < n ==> is_space(#[trigger] s@[k]),
        decreases b,
    {
        b = b - 1;
    }
    let t = s.substring_char(a, b);
    proof {
        lemma_trim_start_skip(s@, a as int);
        let rest = s@.skip(a as int);
        lemma_trim_end_take(rest, b - a);
        assert(rest.take(b - a) =~= s@.subrange(a as int, b as int));
    }
    t.to_owned()
}

/// The characters of `s` before the first occurrence of `sep` (all of `s`
/// when `sep` does not occur).
pub open spec fn prefix_before(s: Seq<char>, sep: char) -> Seq<char>
    decreases s.len(),
{
    if s.len() == 0 {
        Seq::<char>::empty()
    } else if s[0] == sep {
        Seq::<char>::empty()
    } else {
        seq![s[0]] + prefix_before(s.drop_first(), sep)
    }
}

/// The prefix before the first separator is the take up to its position.
pub proof fn lemma_prefix_before_at(s: Seq<char>, sep: char, j: int)
    requires
        0 <= j <= s.len(),
        forall|k: int| 0 <= k < j ==> #[trigger] s[k] != sep,
        j < s.len() ==> s[j] == sep,
    ensures
        prefix_before(s, sep) == s.subrange(0, j),
    decreases j,
{
    if j == 0 {
        assert(s.subrange(0, 0) =~= Seq::<char>::empty());
    } else {
        assert(s[0] != sep);
        lemma_prefix_before_at(s.drop_first(), sep, j - 1);
        assert(seq![s[0]] + s.drop_first().subrange(0, j - 1) =~= s.subrange(0, j));
    }
}

/// The text before the first occurrence of `sep` in `s`.
pub fn str_prefix_before(s: &str, sep: char) -> (r: String)
    ensures
        r@ == prefix_before(s@, sep),
{
    let n = s.unicode_len();
    let mut j: usize = 0;
    while j < n && s.get_char(j) != sep
        invariant
            j <= n,
            n == s@.len(),
            forall|k: int| 0 <= k < j ==> #[trigger] s@[k] != sep,
        decreases n - j,
    {
        j = j + 1;
    }
    let t = s.substring_char(0, j);
    proof {
        lemma_prefix_before_at(s@, sep, j as int);
    }
    t.to_owned()
}

/// The parts joined back together with a single space between them.
pub open spec fn join_space(parts: Seq<Seq<char>>) -> Seq<char>
    decreases parts.len(),
{
    if parts.len() == 0 {
        Seq::<char>::empty()
    } else if parts.len() == 1 {
        parts[0]
    } else {
        parts[0] + seq![' '] + join_space(parts.drop_first())
    }
}

/// Joining one more part appends a space (unless nothing was joined yet)
/// and then the part.
pub proof fn lemma_join_space_push(p: Seq<Seq<char>>, x: Seq<char>)
    ensures
        join_space(p.push(x)) == (if p.len() == 0 {
            x
        } else {
            join_space(p) + seq![' '] + x
        }),
    decreases p.len(),
{
    let q = p.push(x);
    if p.len() == 0 {
        assert(q.len() == 1);
        assert(q[0] == x);
    } else if p.len() == 1 {
        assert(q.len() == 2);
        assert(q[0] == p[0]);
        assert(q.drop_first() =~= seq![x]);
        assert(join_space(q) == q[0] + seq![' '] + join_space(q.drop_first()));
        assert(join_space(seq![x]) == x);
        assert(join_space(p) == p[0]);
    } else {
        assert(q.drop_first() =~= p.drop_first().push(x));
        lemma_join_space_push(p.drop_first(), x);
        assert(join_space(q) == q[0] + seq![' '] + join_space(q.drop_first()));
        assert(join_space(p) == p[0] + seq![' '] + join_space(p.drop_first()));
        assert(q[0] + seq![' '] + (join_space(p.drop_first()) + seq![' '] + x) =~= (p[0]
            + seq![' '] + join_space(p.drop_first())) + seq![' '] + x);
    }
}

/// Whether `c` is an ASCII decimal digit.
pub open spec fn is_digit(c: char) -> bool {
    48 <= c as u32 && c as u32 <= 57
}

/// The numeric value of an ASCII decimal digit.
pub open spec fn digit_of(c: char) -> int {
    c as u32 - 48
}

/// The value of `s` read as a decimal numeral.
pub open spec fn digits_val(s: Seq<char>) -> int
    decreases s.len(),
{
    if s.len() == 0 {
        0
    } else {
        digits_val(s.drop_last()) * 10 + digit_of(s.last())
    }
}

/// Whether `s` is a non-empty string of ASCII decimal digits whose value
/// fits in `usize`.
pub open spec fn is_uint_str(s: Seq<char>) -> bool {
    &&& s.len() > 0
    &&& forall|k: int| 0 <= k < s.len() ==> is_digit(#[trigger] s[k])
    &&& digits_val(s) <= usize::MAX as int
}

/// A digit string's value is non-negative.
pub proof fn lemma_digits_val_nonneg(s: Seq<char>)
    requires
        forall|k: int| 0 <= k < s.len() ==> is_digit(#[trigger] s[k]),
    ensures
        digits_val(s) >= 0,
    decreases s.len(),
{
    if s.len() > 0 {
        lemma_digits_val_nonneg(s.drop_last());
    }
}

/// In a digit string, a prefix's value never exceeds the whole value.
pub proof fn lemma_digits_val_prefix(s: Seq<char>, i: int)
    requires
        0 <= i <= s.len(),
        forall|k: int| 0 <= k < s.len() ==> is_digit(#[trigger] s[k]),
    ensures
        digits_val(s.subrange(0, i)) <= digits_val(s),
    decreases s.len() - i,
{
    if i == s.len() {
        assert(s.subrange(0, i) =~= s);
    } else {
        assert(s.subrange(0, i + 1).drop_last() =~= s.subrange(0, i));
        assert(s.subrange(0, i + 1).last() == s[i]);
        lemma_digits_val_nonneg(s.subrange(0, i));
        lemma_digits_val_prefix(s, i + 1);
    }
}

/// Read a non-negative decimal integer, as the mount table stores mount and
/// parent identifiers. Returns the value exactly when `s` is a non-empty
/// digit string whose value fits in `usize`.
pub fn parse_usize(s: &str) -> (r: Option<usize>)
    ensures
        r is Some <==> is_uint_str(s@),
        r matches Some(v) ==> v as int == digits_val(s@),
{
    let n = s.unicode_len();
    if n == 0 {
        return None;
    }
    let mut v: usize = 0;
    let mut i: usize = 0;
    proof {
        assert(s@.subrange(0, 0) =~= Seq::<char>::empty());
    }
    while i < n
        invariant
            i <= n,
            n == s@.len(),
            forall|k: int| 0 <= k < i ==> is_digit(#[trigger] s@[k]),
            v as int == digits_val(s@.subrange(0, i as int)),
        decreases n - i,
    {
        let c = s.get_char(i);
        let u = c as u32;
        if u < 48 || u > 57 {
            assert(!is_digit(s@[i as int]));
            return None;
        }
        assert(is_digit(s@[i as int]));
        let d = (u - 48) as usize;
        proof {
            assert(s@.subrange(0, i + 1).drop_last() =~= s@.subrange(0, i as int));
            assert(s@.subrange(0, i + 1).last() == s@[i as int]);
        }
        let v10 = match v.checked_mul(10) {
            Some(x) => x,
            None => {
                proof {
                    if is_uint_str(s@) {
                        lemma_digits_val_prefix(s@, i + 1);
                    }
                }
                return None;
            },
        };
        let v2 = match v10.checked_add(d) {
            Some(x) => x,
            None => {
                proof {
                    if is_uint_str(s@) {
                        lemma_digits_val_prefix(s@, i + 1);
                    }
                }
                return None;
            },
        };
        v = v2;
        i = i + 1;
    }
    proof {
        assert(s@.subrange(0, n as int) =~= s@);
    }
    Some(v)
}

} // verus!
