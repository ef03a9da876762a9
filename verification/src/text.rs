//! Text utilities over Unicode scalar values: whitespace trimming, joining,
//! decimal rendering and lexicographic comparison.
use vstd::prelude::*;

verus! {

/// Characters with the Unicode `White_Space` property.
pub open spec fn is_white_space(c: char) -> bool {
    let u = c as int;
    ||| 0x9 <= u <= 0xd
    ||| u == 0x20
    ||| u == 0x85
    ||| u == 0xa0
    ||| u == 0x1680
    ||| 0x2000 <= u <= 0x200a
    ||| u == 0x2028
    ||| u == 0x2029
    ||| u == 0x202f
    ||| u == 0x205f
    ||| u == 0x3000
}

/// `s` without its leading whitespace.
pub open spec fn trim_start(s: Seq<char>) -> Seq<char>
    decreases s.len(),
{
    if s.len() > 0 && is_white_space(s[0]) {
        trim_start(s.drop_first())
    } else {
        s
    }
}

/// `s` without its trailing whitespace.
pub open spec fn trim_end(s: Seq<char>) -> Seq<char>
    decreases s.len(),
{
    if s.len() > 0 && is_white_space(s.last()) {
        trim_end(s.drop_last())
    } else {
        s
    }
}

/// `s` without its leading and trailing whitespace.
pub open spec fn trimmed(s: Seq<char>) -> Seq<char> {
    trim_end(trim_start(s))
}

/// The pieces of `parts` in order, with `sep` between each two neighbours.
pub open spec fn join(parts: Seq<Seq<char>>, sep: Seq<char>) -> Seq<char>
    decreases parts.len(),
{
    if parts.len() == 0 {
        Seq::empty()
    } else if parts.len() == 1 {
        parts[0]
    } else {
        join(parts.drop_last(), sep) + sep + parts.last()
    }
}

/// The character of a decimal digit.
pub open spec fn digit_char(d: nat) -> char {
    (d + 48) as char
}

/// The decimal rendering of `n`, without leading zeros.
pub open spec fn decimal(n: nat) -> Seq<char>
    decreases n,
{
    if n < 10 {
        seq![digit_char(n)]
    } else {
        decimal(n / 10) + seq![digit_char(n % 10)]
    }
}

/// Lexicographic order of character sequences, by code point.
pub open spec fn lex_lt(a: Seq<char>, b: Seq<char>) -> bool
    decreases a.len(),
{
    if a.len() == 0 {
        b.len() > 0
    } else if b.len() == 0 {
        false
    } else if a[0] != b[0] {
        (a[0] as int) < (b[0] as int)
    } else {
        lex_lt(a.drop_first(), b.drop_first())
    }
}

pub proof fn lemma_lex_lt_irreflexive(a: Seq<char>)
    ensures
        !lex_lt(a, a),
    decreases a.len(),
{
    if a.len() > 0 {
        lemma_lex_lt_irreflexive(a.drop_first());
    }
}

pub proof fn lemma_lex_lt_transitive(a: Seq<char>, b: Seq<char>, c: Seq<char>)
    requires
        lex_lt(a, b),
        lex_lt(b, c),
    ensures
        lex_lt(a, c),
    decreases a.len(),
{
    if a.len() > 0 && b.len() > 0 && c.len() > 0 && a[0] == b[0] && b[0] == c[0] {
        lemma_lex_lt_transitive(a.drop_first(), b.drop_first(), c.drop_first());
    }
}

pub proof fn lemma_lex_lt_total(a: Seq<char>, b: Seq<char>)
    ensures
        a == b || lex_lt(a, b) || lex_lt(b, a),
    decreases a.len(),
{
    if a.len() > 0 && b.len() > 0 && a[0] == b[0] {
        lemma_lex_lt_total(a.drop_first(), b.drop_first());
        if a.drop_first() == b.drop_first() {
            assert(a =~= seq![a[0]] + a.drop_first());
            assert(b =~= seq![b[0]] + b.drop_first());
        }
    } else if a.len() == 0 && b.len() == 0 {
        assert(a =~= b);
    } else if a.len() > 0 && b.len() > 0 {
    }
}

pub proof fn lemma_lex_lt_asymmetric(a: Seq<char>, b: Seq<char>)
    requires
        lex_lt(a, b),
    ensures
        !lex_lt(b, a),
{
    if lex_lt(b, a) {
        lemma_lex_lt_transitive(a, b, a);
        lemma_lex_lt_irreflexive(a);
    }
}

/// Whether `c` has the Unicode `White_Space` property.
pub fn char_is_whitespace(c: char) -> (r: bool)
    ensures
        r == is_white_space(c),
{
    let u = c as u32;
    (0x9 <= u && u <= 0xd) || u == 0x20 || u == 0x85 || u == 0xa0 || u == 0x1680 || (0x2000 <= u
        && u <= 0x200a) || u == 0x2028 || u == 0x2029 || u == 0x202f || u == 0x205f || u == 0x3000
}

/// Removes leading and trailing whitespace.
pub fn trim(s: &str) -> (r: String)
    ensures
        r@ == trimmed(s@),
{
    let n = s.unicode_len();
    let mut start: usize = 0;
    assert(s@.subrange(0, n as int) =~= s@);
    while start < n && char_is_whitespace(s.get_char(start))
        invariant
            n == s@.len(),
            start <= n,
            trim_start(s@) == trim_start(s@.subrange(start as int, n as int)),
        decreases n - start,
    {
        let ghost sub = s@.subrange(start as int, n as int);
        assert(sub.drop_first() =~= s@.subrange(start + 1, n as int));
        start = start + 1;
    }
    assert(trim_start(s@) =~= s@.subrange(start as int, n as int));
    let mut end: usize = n;
    while end > start && char_is_whitespace(s.get_char(end - 1))
        invariant
            n == s@.len(),
            start <= end <= n,
            trim_start(s@) =~= s@.subrange(start as int, n as int),
            trimmed(s@) == trim_end(s@.subrange(start as int, end as int)),
        decreases end,
    {
        let ghost sub = s@.subrange(start as int, end as int);
        assert(sub.drop_last() =~= s@.subrange(start as int, end - 1));
        end = end - 1;
    }
    let piece = s.substring_char(start, end);
    String::from_str(piece)
}

/// Joins `parts` in order with `sep` between neighbours.
pub fn join_strings(parts: &Vec<String>, sep: &str) -> (r: String)
    ensures
        r@ == join(parts@.map_values(|p: String| p@), sep@),
{
    let ghost views = parts@.map_values(|p: String| p@);
    let mut res = String::new();
    let mut i: usize = 0;
    while i < parts.len()
        invariant
            i <= parts.len(),
            views == parts@.map_values(|p: String| p@),
            res@ == join(views.take(i as int), sep@),
        decreases parts.len() - i,
    {
        assert(views.take(i + 1).drop_last() =~= views.take(i as int));
        if i > 0 {
            res.append(sep);
        } else {
            assert(views.take(1) =~= seq![views[0]]);
        }
        res.append(parts[i].as_str());
        i = i + 1;
    }
    assert(views.take(i as int) =~= views);
    res
}

/// The one-character string of a decimal digit.
fn digit_str(d: u8) -> (r: &'static str)
    requires
        d < 10,
    ensures
        r@ == seq![digit_char(d as nat)],
{
    proof {
        reveal_strlit("0");
        reveal_strlit("1");
        reveal_strlit("2");
        reveal_strlit("3");
        reveal_strlit("4");
        reveal_strlit("5");
        reveal_strlit("6");
        reveal_strlit("7");
        reveal_strlit("8");
        reveal_strlit("9");
    }
    let r = if d == 0 {
        "0"
    } else if d == 1 {
        "1"
    } else if d == 2 {
        "2"
    } else if d == 3 {
        "3"
    } else if d == 4 {
        "4"
    } else if d == 5 {
        "5"
    } else if d == 6 {
        "6"
    } else if d == 7 {
        "7"
    } else if d == 8 {
        "8"
    } else {
        "9"
    };
    assert(r@ =~= seq![digit_char(d as nat)]);
    r
}

/// The decimal rendering of a byte, as `u8::to_string` gives it.
pub fn decimal_u8(n: u8) -> (r: String)
    ensures
        r@ == decimal(n as nat),
{
    let mut s = String::new();
    if n >= 100 {
        s.append(digit_str(n / 100));
    }
    if n >= 10 {
        s.append(digit_str((n / 10) % 10));
    }
    s.append(digit_str(n % 10));
    proof {
        let m = n as nat;
        if m >= 100 {
            assert(decimal(m / 100) == seq![digit_char(m / 100)]);
            assert((m / 10) / 10 == m / 100);
            assert(decimal(m / 10) =~= seq![digit_char(m / 100), digit_char((m / 10) % 10)]);
        } else if m >= 10 {
            assert(decimal(m / 10) == seq![digit_char(m / 10)]);
            assert((m / 10) % 10 == m / 10);
        }
        assert(s@ =~= decimal(m));
    }
    s
}

/// Whether `a` comes before `b` in lexicographic order by code point.
pub fn str_less(a: &str, b: &str) -> (r: bool)
    ensures
        r == lex_lt(a@, b@),
{
    let na = a.unicode_len();
    let nb = b.unicode_len();
    let mut i: usize = 0;
    assert(a@.skip(0) =~= a@);
    assert(b@.skip(0) =~= b@);
    while i < na && i < nb
        invariant
            na == a@.len(),
            nb == b@.len(),
            i <= na,
            i <= nb,
            lex_lt(a@, b@) == lex_lt(a@.skip(i as int), b@.skip(i as int)),
        decreases na - i,
    {
        let ca = a.get_char(i);
        let cb = b.get_char(i);
        assert(a@.skip(i as int)[0] == ca);
        assert(b@.skip(i as int)[0] == cb);
        if ca != cb {
            return (ca as u32) < (cb as u32);
        }
        assert(a@.skip(i as int).drop_first() =~= a@.skip(i + 1));
        assert(b@.skip(i as int).drop_first() =~= b@.skip(i + 1));
        i = i + 1;
    }
    i == na && i < nb
}

/// Whether `a` and `b` hold the same characters.
pub fn str_equal(a: &str, b: &str) -> (r: bool)
    ensures
        r == (a@ == b@),
{
    let na = a.unicode_len();
    let nb = b.unicode_len();
    if na != nb {
        return false;
    }
    let mut i: usize = 0;
    while i < na
        invariant
            na == a@.len(),
            nb == b@.len(),
            na == nb,
            i <= na,
            forall|k: int| 0 <= k < i ==> a@[k] == b@[k],
        decreases na - i,
    {
        if a.get_char(i) != b.get_char(i) {
            return false;
        }
        i = i + 1;
    }
    assert(a@ =~= b@);
    true
}

/// Lexicographic order by code point: `a` comes before `b` exactly where,
/// after a common prefix, either the next character of `a` has a smaller code
/// point than that of `b`, or `a` ends and `b` goes on.
pub proof fn lemma_lex_lt_first_difference(a: Seq<char>, b: Seq<char>)
    ensures
        lex_lt(a, b) <==> exists|k: int|
            0 <= k <= a.len() && k <= b.len() && #[trigger] a.take(k) == b.take(k) && ((k < a.len()
                && k < b.len() && (a[k] as int) < (b[k] as int)) || (k == a.len() && k < b.len())),
    decreases a.len(),
{
    if a.len() == 0 {
        if b.len() > 0 {
            assert(a.take(0) =~= b.take(0));
        }
    } else if b.len() == 0 {
    } else if a[0] != b[0] {
        assert(a.take(0) =~= b.take(0));
        if lex_lt(a, b) {
        } else {
            assert forall|k: int|
                0 <= k <= a.len() && k <= b.len() && #[trigger] a.take(k) == b.take(k) implies !((
            k < a.len() && k < b.len() && (a[k] as int) < (b[k] as int)) || (k == a.len() && k
                < b.len())) by {
                if k > 0 {
                    assert(a.take(k)[0] == b.take(k)[0]);
                }
            }
        }
    } else {
        let a1 = a.drop_first();
        let b1 = b.drop_first();
        lemma_lex_lt_first_difference(a1, b1);
        if lex_lt(a, b) {
            let k = choose|k: int|
                0 <= k <= a1.len() && k <= b1.len() && #[trigger] a1.take(k) == b1.take(k) && ((k
                    < a1.len() && k < b1.len() && (a1[k] as int) < (b1[k] as int)) || (k == a1.len()
                    && k < b1.len()));
            assert(a.take(k + 1) =~= seq![a[0]] + a1.take(k));
            assert(b.take(k + 1) =~= seq![b[0]] + b1.take(k));
            assert(a.take(k + 1) == b.take(k + 1));
        } else {
            assert forall|k: int|
                0 <= k <= a.len() && k <= b.len() && #[trigger] a.take(k) == b.take(k) implies !((
            k < a.len() && k < b.len() && (a[k] as int) < (b[k] as int)) || (k == a.len() && k
                < b.len())) by {
                if k == 0 {
                    assert(a[0] == b[0]);
                } else {
                    assert(a1.take(k - 1) =~= a.take(k).drop_first());
                    assert(b1.take(k - 1) =~= b.take(k).drop_first());
                    assert(a1.take(k - 1) == b1.take(k - 1));
                    if k < a.len() {
                        assert(a[k] == a1[k - 1]);
                    }
                    if k < b.len() {
                        assert(b[k] == b1[k - 1]);
                    }
                }
            }
        }
    }
}

/// Joining pieces puts the separator between each two neighbours: the first
/// piece comes first, then the separator and the join of the rest.
pub proof fn lemma_join_front(first: Seq<char>, rest: Seq<Seq<char>>, sep: Seq<char>)
    ensures
        join(seq![first] + rest, sep) == if rest.len() == 0 {
            first
        } else {
            first + sep + join(rest, sep)
        },
    decreases rest.len(),
{
    let all = seq![first] + rest;
    if rest.len() == 0 {
        assert(all =~= seq![first]);
    } else if rest.len() == 1 {
        assert(all.drop_last() =~= seq![first]);
        assert(all.last() == rest[0]);
        assert(join(seq![first], sep) == first);
        assert(join(rest, sep) == rest[0]);
    } else {
        lemma_join_front(first, rest.drop_last(), sep);
        assert(all.drop_last() =~= seq![first] + rest.drop_last());
        assert(all.last() == rest.last());
        assert(join(rest, sep) == join(rest.drop_last(), sep) + sep + rest.last());
        assert(first + sep + (join(rest.drop_last(), sep) + sep + rest.last()) =~= first + sep
            + join(rest.drop_last(), sep) + sep + rest.last());
    }
}

/// The join of no pieces is empty.
pub proof fn lemma_join_empty(sep: Seq<char>)
    ensures
        join(Seq::empty(), sep) == Seq::<char>::empty(),
{
}

proof fn lemma_trim_start_index(s: Seq<char>) -> (i: int)
    ensures
        0 <= i <= s.len(),
        trim_start(s) == s.subrange(i, s.len() as int),
        forall|k: int| 0 <= k < i ==> is_white_space(#[trigger] s[k]),
        i < s.len() ==> !is_white_space(s[i]),
    decreases s.len(),
{
    if s.len() > 0 && is_white_space(s[0]) {
        let j = lemma_trim_start_index(s.drop_first());
        assert(s.drop_first().subrange(j, s.len() - 1) =~= s.subrange(j + 1, s.len() as int));
        assert forall|k: int| 0 <= k < j + 1 implies is_white_space(#[trigger] s[k]) by {
            if k > 0 {
                assert(s[k] == s.drop_first()[k - 1]);
            }
        }
        j + 1
    } else {
        assert(s =~= s.subrange(0, s.len() as int));
        0
    }
}

proof fn lemma_trim_end_index(s: Seq<char>) -> (j: int)
    ensures
        0 <= j <= s.len(),
        trim_end(s) == s.subrange(0, j),
        forall|k: int| j <= k < s.len() ==> is_white_space(#[trigger] s[k]),
        j > 0 ==> !is_white_space(s[j - 1]),
    decreases s.len(),
{
    if s.len() > 0 && is_white_space(s.last()) {
        let j = lemma_trim_end_index(s.drop_last());
        assert(s.drop_last().subrange(0, j) =~= s.subrange(0, j));
        assert forall|k: int| j <= k < s.len() implies is_white_space(#[trigger] s[k]) by {
            if k < s.len() - 1 {
                assert(s[k] == s.drop_last()[k]);
            }
        }
        j
    } else {
        assert(s =~= s.subrange(0, s.len() as int));
        s.len() as int
    }
}

/// Trimming removes whitespace from the ends and nothing else: the result is
/// a piece of the text, everything before and after it is whitespace, and it
/// neither starts nor ends with whitespace.
pub proof fn lemma_trimmed_ends(s: Seq<char>)
    ensures
        exists|i: int, j: int|
            0 <= i <= j <= s.len() && #[trigger] s.subrange(i, j) == trimmed(s) && (forall|k: int|
                0 <= k < i ==> is_white_space(#[trigger] s[k])) && (forall|k: int|
                j <= k < s.len() ==> is_white_space(#[trigger] s[k])) && (i < j ==> !is_white_space(
                s[i]) && !is_white_space(s[j - 1])),
{
    let i = lemma_trim_start_index(s);
    let t = trim_start(s);
    let j0 = lemma_trim_end_index(t);
    let j = i + j0;
    assert(t.subrange(0, j0) =~= s.subrange(i, j));
    assert forall|k: int| j <= k < s.len() implies is_white_space(#[trigger] s[k]) by {
        assert(s[k] == t[k - i]);
    }
    if i < j {
        assert(s[j - 1] == t[j0 - 1]);
    }
    assert(s.subrange(i, j) == trimmed(s));
}

/// The number that a string of decimal digits stands for.
pub open spec fn digits_value(s: Seq<char>) -> int
    decreases s.len(),
{
    if s.len() == 0 {
        0
    } else {
        digits_value(s.drop_last()) * 10 + (s.last() as int - 48)
    }
}

/// The decimal rendering of a number is made of decimal digits, stands for
/// that number, and starts with a zero only where it is the number zero.
pub proof fn lemma_decimal_digits(n: nat)
    ensures
        decimal(n).len() > 0,
        forall|i: int| 0 <= i < decimal(n).len() ==> 48 <= (#[trigger] decimal(n)[i]) as int <= 57,
        digits_value(decimal(n)) == n,
        decimal(n)[0] == '0' ==> n == 0,
    decreases n,
{
    if n >= 10 {
        lemma_decimal_digits(n / 10);
        let d = decimal(n);
        assert(d.drop_last() =~= decimal(n / 10));
        assert(d.last() == digit_char(n % 10));
        assert((digit_char(n % 10) as int) == (n % 10) + 48);
        assert(n == (n / 10) * 10 + n % 10);
        assert(digits_value(d) == digits_value(decimal(n / 10)) * 10 + (n % 10));
        assert(digits_value(d) == n);
        assert(d[0] == decimal(n / 10)[0]);
        assert forall|i: int| 0 <= i < d.len() implies 48 <= (#[trigger] d[i]) as int <= 57 by {
            if i < d.len() - 1 {
                assert(d[i] == decimal(n / 10)[i]);
            }
        }
    } else {
        assert((digit_char(n) as int) == n + 48);
        assert(decimal(n).drop_last() =~= Seq::<char>::empty());
        assert(digits_value(Seq::<char>::empty()) == 0);
        assert(decimal(n).last() == digit_char(n));
        assert(digits_value(decimal(n)) == n);
    }
}

} // verus!
