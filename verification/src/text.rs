//! Character-level text helpers with their specifications: splitting at a
//! separator, line splitting, decimal numbers, trimming.

use vstd::prelude::*;

verus! {

// ---------------------------------------------------------------------------
// Specifications
// ---------------------------------------------------------------------------

/// Index of the first occurrence of `c` in `s`, or -1 when there is none.
pub open spec fn find_char(s: Seq<char>, c: char) -> int
    decreases s.len(),
{
    if s.len() == 0 {
        -1
    } else if s[0] == c {
        0
    } else {
        let r = find_char(s.drop_first(), c);
        if r < 0 {
            -1
        } else {
            r + 1
        }
    }
}

/// `s` holds no occurrence of `c`.
pub open spec fn lacks_char(s: Seq<char>, c: char) -> bool {
    forall|i: int| 0 <= i < s.len() ==> s[i] != c
}

/// The pieces of `s` between occurrences of `c` (as `str::split` with a char
/// pattern gives them): one more piece than there are occurrences.
pub open spec fn split_char(s: Seq<char>, c: char) -> Seq<Seq<char>>
    decreases s.len(),
{
    if s.len() == 0 {
        seq![Seq::<char>::empty()]
    } else {
        let r = split_char(s.drop_last(), c);
        if s.last() == c {
            r.push(Seq::<char>::empty())
        } else {
            r.update(r.len() - 1, r.last().push(s.last()))
        }
    }
}

/// `l` without one trailing carriage return.
pub open spec fn strip_cr(l: Seq<char>) -> Seq<char> {
    if l.len() > 0 && l.last() == '\r' {
        l.drop_last()
    } else {
        l
    }
}

/// The lines of `s` as `str::lines` gives them: split at `'\n'`; a line that
/// was ended by `'\n'` loses one trailing `'\r'`; a final line ending is
/// optional and an empty text has no lines.
pub open spec fn lines_of(s: Seq<char>) -> Seq<Seq<char>> {
    let p = split_char(s, '\n');
    let ended = p.drop_last().map_values(|l: Seq<char>| strip_cr(l));
    if p.last().len() == 0 {
        ended
    } else {
        ended.push(p.last())
    }
}

/// The text made of the lines `ls`, each followed by `'\n'`.
pub open spec fn join_lines(ls: Seq<Seq<char>>) -> Seq<char>
    decreases ls.len(),
{
    if ls.len() == 0 {
        Seq::<char>::empty()
    } else {
        join_lines(ls.drop_last()) + ls.last() + seq!['\n']
    }
}

/// The pieces `ps` with `c` between each two of them.
pub open spec fn join_with(ps: Seq<Seq<char>>, c: char) -> Seq<char>
    decreases ps.len(),
{
    if ps.len() == 0 {
        Seq::<char>::empty()
    } else if ps.len() == 1 {
        ps[0]
    } else {
        join_with(ps.drop_last(), c) + seq![c] + ps.last()
    }
}

pub open spec fn is_digit(c: char) -> bool {
    48 <= (c as u32) <= 57
}

pub open spec fn digit_value(c: char) -> nat {
    ((c as u32) - 48) as nat
}

pub open spec fn digit_char(d: nat) -> char {
    (d + 48) as char
}

pub open spec fn all_digits(s: Seq<char>) -> bool {
    forall|i: int| 0 <= i < s.len() ==> is_digit(s[i])
}

/// The number that the decimal digits `s` write.
pub open spec fn digits_value(s: Seq<char>) -> nat
    decreases s.len(),
{
    if s.len() == 0 {
        0
    } else {
        digits_value(s.drop_last()) * 10 + digit_value(s.last())
    }
}

/// The decimal digits of `n`, without leading zeros (as `{}` formats it).
pub open spec fn decimal(n: nat) -> Seq<char>
    decreases n,
{
    if n < 10 {
        seq![digit_char(n)]
    } else {
        decimal(n / 10).push(digit_char(n % 10))
    }
}

/// The decimal digits of `n`, at least two of them (as `{:02}` formats it).
pub open spec fn decimal2(n: nat) -> Seq<char> {
    if n < 10 {
        seq!['0'] + decimal(n)
    } else {
        decimal(n)
    }
}

/// The number that `s` writes in decimal, as `str::parse` reads an unsigned
/// integer: an optional `'+'`, then at least one digit and nothing else; `None`
/// when the text is not of that form.
pub open spec fn parse_decimal(s: Seq<char>) -> Option<nat> {
    let body = if s.len() > 0 && s[0] == '+' {
        s.drop_first()
    } else {
        s
    };
    if body.len() > 0 && all_digits(body) {
        Some(digits_value(body))
    } else {
        None
    }
}

/// `s.parse::<u64>()`, as an `Option`.
pub open spec fn parse_u64_spec(s: Seq<char>) -> Option<u64> {
    match parse_decimal(s) {
        Some(n) => if n <= u64::MAX {
            Some(n as u64)
        } else {
            None
        },
        None => None,
    }
}

/// `s.parse::<u32>()`, as an `Option`.
pub open spec fn parse_u32_spec(s: Seq<char>) -> Option<u32> {
    match parse_decimal(s) {
        Some(n) => if n <= u32::MAX {
            Some(n as u32)
        } else {
            None
        },
        None => None,
    }
}

/// The characters that `char::is_whitespace` accepts: those with the Unicode
/// `White_Space` property.
pub open spec fn is_white_space(c: char) -> bool {
    let u = c as u32;
    ||| 0x09 <= u <= 0x0d
    ||| u == 0x20
    ||| u == 0x85
    ||| u == 0xa0
    ||| u == 0x1680
    ||| 0x2000 <= u <= 0x200a
    ||| u == 0x2028
    ||| u == 0x2029
    ||| u == 0x202f
    ||| u == 0x205f
    ||| u == 0x3000
}

/// `s` without its leading white space.
pub open spec fn trim_start(s: Seq<char>) -> Seq<char>
    decreases s.len(),
{
    if s.len() > 0 && is_white_space(s[0]) {
        trim_start(s.drop_first())
    } else {
        s
    }
}

/// `s` without its trailing white space.
pub open spec fn trim_end(s: Seq<char>) -> Seq<char>
    decreases s.len(),
{
    if s.len() > 0 && is_white_space(s.last()) {
        trim_end(s.drop_last())
    } else {
        s
    }
}

/// `s` without leading and trailing white space, as `str::trim` gives it.
pub open spec fn trim(s: Seq<char>) -> Seq<char> {
    trim_end(trim_start(s))
}

/// The characters of `s` for which `banned` does not hold, in order.
pub open spec fn without_chars(s: Seq<char>, banned: spec_fn(char) -> bool) -> Seq<char>
    decreases s.len(),
{
    if s.len() == 0 {
        Seq::empty()
    } else {
        let r = without_chars(s.drop_last(), banned);
        if banned(s.last()) {
            r
        } else {
            r.push(s.last())
        }
    }
}

/// At most the first `n` characters of `s`.
pub open spec fn take_at_most(s: Seq<char>, n: nat) -> Seq<char> {
    if s.len() <= n {
        s
    } else {
        s.take(n as int)
    }
}

// ---------------------------------------------------------------------------
// Lemmas
// ---------------------------------------------------------------------------

/// `find_char` is the first index that holds `c`.
pub proof fn lemma_find_char(s: Seq<char>, c: char, i: int)
    requires
        0 <= i <= s.len(),
        forall|j: int| 0 <= j < i ==> s[j] != c,
        i < s.len() ==> s[i] == c,
    ensures
        find_char(s, c) == (if i < s.len() {
            i
        } else {
            -1
        }),
    decreases i,
{
    if s.len() > 0 && i > 0 {
        assert(s[0] != c);
        lemma_find_char(s.drop_first(), c, i - 1);
    }
}

/// A split has at least one piece.
pub proof fn lemma_split_char_len(s: Seq<char>, c: char)
    ensures
        split_char(s, c).len() >= 1,
    decreases s.len(),
{
    if s.len() > 0 {
        lemma_split_char_len(s.drop_last(), c);
    }
}

/// A text without the separator is a single piece.
pub proof fn lemma_split_char_lacking(s: Seq<char>, c: char)
    requires
        lacks_char(s, c),
    ensures
        split_char(s, c) == seq![s],
    decreases s.len(),
{
    if s.len() > 0 {
        lemma_split_char_lacking(s.drop_last(), c);
        assert(s.drop_last().push(s.last()) =~= s);
    } else {
        assert(s =~= Seq::<char>::empty());
    }
}

/// Splitting at a separator splits the two sides apart.
pub proof fn lemma_split_char_sep(a: Seq<char>, b: Seq<char>, c: char)
    ensures
        split_char(a + seq![c] + b, c) == split_char(a, c) + split_char(b, c),
    decreases b.len(),
{
    let s = a + seq![c] + b;
    if b.len() == 0 {
        assert(s.drop_last() =~= a);
        assert(s.last() == c);
        lemma_split_char_len(a, c);
        assert(split_char(b, c) =~= seq![Seq::<char>::empty()]);
        assert(split_char(a, c).push(Seq::<char>::empty()) =~= split_char(a, c) + split_char(b, c));
    } else {
        let b2 = b.drop_last();
        assert(s.drop_last() =~= a + seq![c] + b2);
        assert(s.last() == b.last());
        lemma_split_char_sep(a, b2, c);
        lemma_split_char_len(a, c);
        lemma_split_char_len(b2, c);
        let ra = split_char(a, c);
        let rb2 = split_char(b2, c);
        if b.last() == c {
            assert((ra + rb2).push(Seq::<char>::empty()) =~= ra + rb2.push(Seq::<char>::empty()));
        } else {
            let r = ra + rb2;
            assert(r.update(r.len() - 1, r.last().push(b.last())) =~= ra + rb2.update(
                rb2.len() - 1,
                rb2.last().push(b.last()),
            ));
        }
    }
}

/// Splitting the pieces joined by the separator gives the pieces back.
pub proof fn lemma_split_join_with(ps: Seq<Seq<char>>, c: char)
    requires
        ps.len() >= 1,
        forall|i: int| 0 <= i < ps.len() ==> lacks_char(#[trigger] ps[i], c),
    ensures
        split_char(join_with(ps, c), c) == ps,
    decreases ps.len(),
{
    if ps.len() == 1 {
        lemma_split_char_lacking(ps[0], c);
        assert(seq![ps[0]] =~= ps);
    } else {
        let p2 = ps.drop_last();
        lemma_split_join_with(p2, c);
        lemma_split_char_sep(join_with(p2, c), ps.last(), c);
        lemma_split_char_lacking(ps.last(), c);
        assert(p2 + seq![ps.last()] =~= ps);
    }
}

/// Splitting joined lines at `'\n'` gives the lines back, then the pieces of
/// what follows.
pub proof fn lemma_split_join_lines(ls: Seq<Seq<char>>, t: Seq<char>)
    requires
        forall|i: int| 0 <= i < ls.len() ==> lacks_char(#[trigger] ls[i], '\n'),
    ensures
        split_char(join_lines(ls) + t, '\n') == ls + split_char(t, '\n'),
    decreases ls.len(),
{
    if ls.len() == 0 {
        assert(join_lines(ls) + t =~= t);
        assert(ls + split_char(t, '\n') =~= split_char(t, '\n'));
    } else {
        let l2 = ls.drop_last();
        let last = ls.last();
        assert(ls[ls.len() - 1] == last);
        lemma_split_join_lines(l2, last);
        lemma_split_char_lacking(last, '\n');
        assert(join_lines(ls) + t =~= (join_lines(l2) + last) + seq!['\n'] + t);
        lemma_split_char_sep(join_lines(l2) + last, t, '\n');
        assert(l2 + seq![last] =~= ls);
        assert(ls + split_char(t, '\n') =~= (l2 + seq![last]) + split_char(t, '\n'));
    }
}

/// The lines of joined lines are the lines themselves, when none holds a line
/// break or ends with a carriage return.
pub proof fn lemma_lines_of_join_lines(ls: Seq<Seq<char>>)
    requires
        forall|i: int| 0 <= i < ls.len() ==> lacks_char(#[trigger] ls[i], '\n'),
        forall|i: int| 0 <= i < ls.len() ==> lacks_char(#[trigger] ls[i], '\r'),
    ensures
        lines_of(join_lines(ls)) == ls,
{
    lemma_split_join_lines(ls, Seq::<char>::empty());
    assert(join_lines(ls) + Seq::<char>::empty() =~= join_lines(ls));
    let p = split_char(join_lines(ls), '\n');
    assert(split_char(Seq::<char>::empty(), '\n') == seq![Seq::<char>::empty()]);
    assert(p == ls + seq![Seq::<char>::empty()]);
    assert(p.drop_last() =~= ls);
    assert forall|i: int| 0 <= i < ls.len() implies strip_cr(ls[i]) == ls[i] by {
        if ls[i].len() > 0 {
            assert(ls[i][ls[i].len() - 1] != '\r');
        }
    }
    assert(p.drop_last().map_values(|l: Seq<char>| strip_cr(l)) =~= ls);
}

/// The digits of a number read back as that number.
pub proof fn lemma_decimal(n: nat)
    ensures
        decimal(n).len() >= 1,
        all_digits(decimal(n)),
        digits_value(decimal(n)) == n,
        decimal(n)[0] != '+',
    decreases n,
{
    if n >= 10 {
        lemma_decimal(n / 10);
        let d = decimal(n / 10);
        let e = d.push(digit_char(n % 10));
        assert(e.drop_last() =~= d);
        assert(e[0] == d[0]);
        assert(digit_value(digit_char((n % 10) as nat)) == n % 10);
        assert(digits_value(e) == digits_value(d) * 10 + digit_value(e.last()));
        assert((n / 10) * 10 + n % 10 == n);
    } else {
        let e = seq![digit_char(n)];
        assert(e.drop_last() =~= Seq::<char>::empty());
        assert(digit_value(digit_char(n)) == n);
        assert(digits_value(e) == digits_value(e.drop_last()) * 10 + digit_value(e.last()));
    }
}

/// A leading zero does not change the value of digits.
pub proof fn lemma_leading_zero(s: Seq<char>)
    ensures
        digits_value(seq!['0'] + s) == digits_value(s),
    decreases s.len(),
{
    if s.len() > 0 {
        let t = seq!['0'] + s;
        assert(t.drop_last() =~= seq!['0'] + s.drop_last());
        assert(t.last() == s.last());
        lemma_leading_zero(s.drop_last());
        assert(digits_value(t) == digits_value(t.drop_last()) * 10 + digit_value(t.last()));
    } else {
        let t = seq!['0'];
        assert(t.drop_last() =~= Seq::<char>::empty());
        assert(seq!['0'] + s =~= t);
        assert(digit_value('0') == 0);
        assert(digits_value(t) == digits_value(t.drop_last()) * 10 + digit_value(t.last()));
    }
}

/// Formatting a number and reading it back gives the number.
pub proof fn lemma_parse_decimal(n: nat)
    ensures
        parse_decimal(decimal(n)) == Some(n),
        parse_decimal(decimal2(n)) == Some(n),
{
    lemma_decimal(n);
    if n < 10 {
        lemma_leading_zero(decimal(n));
        let t = seq!['0'] + decimal(n);
        assert(t[0] == '0');
        assert forall|i: int| 0 <= i < t.len() implies is_digit(t[i]) by {
            if i > 0 {
                assert(t[i] == decimal(n)[i - 1]);
            }
        }
    }
}

/// A concatenation lacks a character exactly when both parts lack it.
pub proof fn lemma_lacks_concat(a: Seq<char>, b: Seq<char>, c: char)
    ensures
        lacks_char(a + b, c) == (lacks_char(a, c) && lacks_char(b, c)),
{
    if lacks_char(a, c) && lacks_char(b, c) {
        assert forall|i: int| 0 <= i < (a + b).len() implies (a + b)[i] != c by {
            if i >= a.len() {
                assert((a + b)[i] == b[i - a.len()]);
            }
        }
    }
    if lacks_char(a + b, c) {
        assert forall|i: int| 0 <= i < a.len() implies a[i] != c by {
            assert((a + b)[i] == a[i]);
        }
        assert forall|i: int| 0 <= i < b.len() implies b[i] != c by {
            assert((a + b)[i + a.len()] == b[i]);
        }
    }
}

/// Digits lack every character that is no digit.
pub proof fn lemma_digits_lack(s: Seq<char>, c: char)
    requires
        all_digits(s),
        !is_digit(c),
    ensures
        lacks_char(s, c),
{
}

/// The digits of a number lack every character that is no digit.
pub proof fn lemma_decimal_lacks(n: nat, c: char)
    requires
        !is_digit(c),
    ensures
        lacks_char(decimal(n), c),
        lacks_char(decimal2(n), c),
{
    lemma_decimal(n);
    lemma_digits_lack(decimal(n), c);
    lemma_lacks_concat(seq!['0'], decimal(n), c);
}

/// Pieces joined by a separator lack what the pieces and the separator lack.
pub proof fn lemma_join_with_lacks(ps: Seq<Seq<char>>, sep: char, c: char)
    requires
        sep != c,
        forall|i: int| 0 <= i < ps.len() ==> lacks_char(#[trigger] ps[i], c),
    ensures
        lacks_char(join_with(ps, sep), c),
    decreases ps.len(),
{
    if ps.len() == 0 {
    } else if ps.len() == 1 {
        assert(lacks_char(ps[0], c));
    } else {
        lemma_join_with_lacks(ps.drop_last(), sep, c);
        let j = join_with(ps.drop_last(), sep);
        lemma_lacks_concat(j, seq![sep], c);
        lemma_lacks_concat(j + seq![sep], ps.last(), c);
        assert(lacks_char(ps[ps.len() - 1], c));
    }
}

/// `trim_start` drops exactly the leading white space.
pub proof fn lemma_trim_start(s: Seq<char>, i: int)
    requires
        0 <= i <= s.len(),
        forall|j: int| 0 <= j < i ==> is_white_space(s[j]),
        i < s.len() ==> !is_white_space(s[i]),
    ensures
        trim_start(s) == s.skip(i),
    decreases i,
{
    if i == 0 {
        assert(s.skip(0) =~= s);
    } else {
        assert(is_white_space(s[0]));
        lemma_trim_start(s.drop_first(), i - 1);
        assert(s.drop_first().skip(i - 1) =~= s.skip(i));
    }
}

/// `trim_end` drops exactly the trailing white space.
pub proof fn lemma_trim_end(s: Seq<char>, k: int)
    requires
        0 <= k <= s.len(),
        forall|j: int| k <= j < s.len() ==> is_white_space(s[j]),
        k > 0 ==> !is_white_space(s[k - 1]),
    ensures
        trim_end(s) == s.take(k),
    decreases s.len() - k,
{
    if k == s.len() {
        assert(s.take(k) =~= s);
    } else {
        assert(is_white_space(s.last()));
        lemma_trim_end(s.drop_last(), k);
        assert(s.drop_last().take(k) =~= s.take(k));
    }
}

// ---------------------------------------------------------------------------
// Executable helpers
// ---------------------------------------------------------------------------

/// Appends one character to a string.
#[verifier::external_body]
pub(crate) fn push_char(s: &mut String, c: char)
    ensures
        final(s)@ == old(s)@.push(c),
{
    s.push(c)
}

/// The characters of a string slice, in order.
pub fn chars_of(s: &str) -> (v: Vec<char>)
    ensures
        v@ == s@,
{
    let mut v: Vec<char> = Vec::new();
    for c in it: s.chars()
        invariant
            v@ == it.seq().take(it.index() as int),
    {
        v.push(c);
    }
    v
}

/// Appends the characters `v[start..end]` to `s`.
pub fn push_range(s: &mut String, v: &Vec<char>, start: usize, end: usize)
    requires
        start <= end <= v@.len(),
    ensures
        final(s)@ == old(s)@ + v@.subrange(start as int, end as int),
{
    let mut i = start;
    while i < end
        invariant
            start <= i <= end <= v@.len(),
            s@ == old(s)@ + v@.subrange(start as int, i as int),
        decreases end - i,
    {
        push_char(s, v[i]);
        assert(v@.subrange(start as int, i + 1) =~= v@.subrange(start as int, i as int).push(v@[i as int]));
        i = i + 1;
    }
}

/// Appends a string slice to `s`.
pub fn push_str(s: &mut String, t: &str)
    ensures
        final(s)@ == old(s)@ + t@,
{
    let v = chars_of(t);
    push_range(s, &v, 0, v.len());
    assert(v@.subrange(0, v@.len() as int) =~= v@);
}

/// A string holding the characters `v[start..end]`.
pub fn string_of_range(v: &Vec<char>, start: usize, end: usize) -> (s: String)
    requires
        start <= end <= v@.len(),
    ensures
        s@ == v@.subrange(start as int, end as int),
{
    let mut s = String::new();
    push_range(&mut s, v, start, end);
    assert(Seq::<char>::empty() + v@.subrange(start as int, end as int) =~= v@.subrange(
        start as int,
        end as int,
    ));
    s
}

/// The first index in `start..end` that holds `c`, or `end`.
pub fn find_in_range(v: &Vec<char>, start: usize, end: usize, c: char) -> (r: usize)
    requires
        start <= end <= v@.len(),
    ensures
        start <= r <= end,
        find_char(v@.subrange(start as int, end as int), c) == (if r < end {
            r - start
        } else {
            -1
        }),
{
    let mut i = start;
    while i < end
        invariant_except_break
            start <= i <= end <= v@.len(),
            forall|j: int| start <= j < i ==> v@[j] != c,
        ensures
            start <= i <= end <= v@.len(),
            forall|j: int| start <= j < i ==> v@[j] != c,
            i < end ==> v@[i as int] == c,
        decreases end - i,
    {
        if v[i] == c {
            break;
        }
        i = i + 1;
    }
    proof {
        let s = v@.subrange(start as int, end as int);
        assert forall|j: int| 0 <= j < i - start implies s[j] != c by {
            assert(s[j] == v@[start + j]);
        }
        if i < end {
            assert(s[i - start] == v@[i as int]);
        }
        lemma_find_char(s, c, i - start);
    }
    i
}

/// Whether `v[start..end]` holds exactly the characters of `t`.
pub fn range_equals(v: &Vec<char>, start: usize, end: usize, t: &str) -> (b: bool)
    requires
        start <= end <= v@.len(),
    ensures
        b == (v@.subrange(start as int, end as int) == t@),
{
    let w = chars_of(t);
    if end - start != w.len() {
        return false;
    }
    let mut i: usize = 0;
    while i < w.len()
        invariant
            start <= end <= v@.len(),
            end - start == w@.len(),
            w@ == t@,
            i <= w@.len(),
            forall|j: int| 0 <= j < i ==> v@[start + j] == w@[j],
        decreases w@.len() - i,
    {
        if v[start + i] != w[i] {
            assert(v@.subrange(start as int, end as int)[i as int] == v@[start + i]);
            return false;
        }
        i = i + 1;
    }
    assert(v@.subrange(start as int, end as int) =~= w@);
    true
}

/// `v[start..end].parse::<u64>()`, as an `Option`.
pub fn parse_u64_range(v: &Vec<char>, start: usize, end: usize) -> (r: Option<u64>)
    requires
        start <= end <= v@.len(),
    ensures
        r == parse_u64_spec(v@.subrange(start as int, end as int)),
{
    let ghost s = v@.subrange(start as int, end as int);
    let mut b = start;
    if b < end && v[b] == '+' {
        b = b + 1;
    }
    let ghost body = v@.subrange(b as int, end as int);
    assert(body =~= (if s.len() > 0 && s[0] == '+' {
        s.drop_first()
    } else {
        s
    }));
    if b == end {
        return None;
    }
    let mut value: u64 = 0;
    let mut too_big = false;
    let mut i = b;
    while i < end
        invariant
            start <= b <= i <= end <= v@.len(),
            body == v@.subrange(b as int, end as int),
            s == v@.subrange(start as int, end as int),
            body == (if s.len() > 0 && s[0] == '+' {
                s.drop_first()
            } else {
                s
            }),
            forall|j: int| b <= j < i ==> is_digit(v@[j]),
            !too_big ==> value == digits_value(v@.subrange(b as int, i as int)),
            too_big ==> digits_value(v@.subrange(b as int, i as int)) > u64::MAX,
        decreases end - i,
    {
        let c = v[i];
        let cu = c as u32;
        if !(48 <= cu && cu <= 57) {
            assert(body[i - b] == c);
            assert(!is_digit(body[i - b]));
            assert(!all_digits(body));
            assert(parse_decimal(s) is None);
            return None;
        }
        let d = (cu - 48) as u64;
        let ghost prefix = v@.subrange(b as int, i + 1);
        assert(prefix.drop_last() =~= v@.subrange(b as int, i as int));
        assert(prefix.last() == c);
        if !too_big {
            if value > (u64::MAX - d) / 10 {
                too_big = true;
            } else {
                value = value * 10 + d;
            }
        }
        i = i + 1;
    }
    assert(v@.subrange(b as int, i as int) =~= body);
    assert(all_digits(body)) by {
        assert forall|j: int| 0 <= j < body.len() implies is_digit(body[j]) by {
            assert(body[j] == v@[b + j]);
        }
    }
    if too_big {
        None
    } else {
        Some(value)
    }
}

/// The value of `parse_u64_range`, fitted to `u32` as `str::parse::<u32>` reads it.
pub fn parse_u32_range(v: &Vec<char>, start: usize, end: usize) -> (r: Option<u32>)
    requires
        start <= end <= v@.len(),
    ensures
        r == parse_u32_spec(v@.subrange(start as int, end as int)),
{
    match parse_u64_range(v, start, end) {
        Some(n) => if n <= u32::MAX as u64 {
            Some(n as u32)
        } else {
            None
        },
        None => None,
    }
}

/// Appends the decimal digits of `n` to `s`.
pub fn push_decimal(s: &mut String, n: u64)
    ensures
        final(s)@ == old(s)@ + decimal(n as nat),
    decreases n,
{
    if n >= 10 {
        push_decimal(s, n / 10);
    }
    let d = (n % 10) as u8;
    push_char(s, (48u8 + d) as char);
    proof {
        if n >= 10 {
            assert(decimal(n as nat) == decimal((n / 10) as nat).push(digit_char((n % 10) as nat)));
        }
    }
}

/// Appends the decimal digits of `n` to `s`, at least two of them.
pub fn push_decimal2(s: &mut String, n: u64)
    ensures
        final(s)@ == old(s)@ + decimal2(n as nat),
{
    if n < 10 {
        push_char(s, '0');
    }
    push_decimal(s, n);
}

/// Whether `c` is white space, as `char::is_whitespace` decides it.
pub fn is_white_space_exec(c: char) -> (b: bool)
    ensures
        b == is_white_space(c),
{
    let u = c as u32;
    (0x09 <= u && u <= 0x0d) || u == 0x20 || u == 0x85 || u == 0xa0 || u == 0x1680 || (0x2000
        <= u && u <= 0x200a) || u == 0x2028 || u == 0x2029 || u == 0x202f || u == 0x205f || u
        == 0x3000
}

/// The bounds of `v` without leading and trailing white space.
pub fn trim_bounds(v: &Vec<char>) -> (r: (usize, usize))
    ensures
        r.0 <= r.1 <= v@.len(),
        v@.subrange(r.0 as int, r.1 as int) == trim(v@),
{
    let mut a: usize = 0;
    while a < v.len() && is_white_space_exec(v[a])
        invariant
            a <= v@.len(),
            forall|j: int| 0 <= j < a ==> is_white_space(v@[j]),
        decreases v@.len() - a,
    {
        a = a + 1;
    }
    proof {
        lemma_trim_start(v@, a as int);
    }
    let ghost t = v@.skip(a as int);
    let mut b: usize = v.len();
    while b > a && is_white_space_exec(v[b - 1])
        invariant
            a <= b <= v@.len(),
            t == v@.skip(a as int),
            forall|j: int| b <= j < v@.len() ==> is_white_space(v@[j]),
        decreases b,
    {
        b = b - 1;
    }
    proof {
        assert forall|j: int| b - a <= j < t.len() implies is_white_space(t[j]) by {
            assert(t[j] == v@[a + j]);
        }
        if b > a {
            assert(t[b - a - 1] == v@[b - 1]);
        }
        lemma_trim_end(t, b - a);
        assert(t.take(b - a) =~= v@.subrange(a as int, b as int));
    }
    (a, b)
}

} // verus!
