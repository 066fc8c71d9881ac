//! Character-level models and helpers shared by the parsers and formatters:
//! ASCII case, Unicode whitespace trimming, splitting on a separator, and
//! decimal numbers.

use vstd::prelude::*;

verus! {

/// Appends one character to a `String` (`String::push`).
#[verifier::external_body]
pub(crate) fn push_char(s: &mut String, c: char)
    ensures
        final(s)@ == old(s)@.push(c),
{
    s.push(c);
}

/// Every character is ASCII.
pub open spec fn all_ascii(s: Seq<char>) -> bool {
    forall|i: int| 0 <= i < s.len() ==> (#[trigger] s[i] as u32) < 128
}

pub open spec fn is_upper(c: char) -> bool {
    'A' <= c && c <= 'Z'
}

pub open spec fn is_lower(c: char) -> bool {
    'a' <= c && c <= 'z'
}

pub open spec fn is_digit(c: char) -> bool {
    '0' <= c && c <= '9'
}

pub open spec fn is_alpha(c: char) -> bool {
    is_upper(c) || is_lower(c)
}

/// `char::to_ascii_lowercase`.
pub open spec fn lower(c: char) -> char {
    if is_upper(c) {
        ((c as u32) + 32) as char
    } else {
        c
    }
}

/// `str::to_ascii_lowercase`.
pub open spec fn lowercase(s: Seq<char>) -> Seq<char> {
    Seq::new(s.len(), |i: int| lower(s[i]))
}

/// No uppercase ASCII letter occurs.
pub open spec fn no_upper(s: Seq<char>) -> bool {
    forall|i: int| 0 <= i < s.len() ==> !is_upper(#[trigger] s[i])
}

/// `char::is_whitespace`: the Unicode `White_Space` property.
pub open spec fn is_ws(c: char) -> bool {
    ||| '\u{9}' <= c && c <= '\u{d}'
    ||| c == ' '
    ||| c == '\u{85}'
    ||| c == '\u{a0}'
    ||| c == '\u{1680}'
    ||| '\u{2000}' <= c && c <= '\u{200a}'
    ||| c == '\u{2028}'
    ||| c == '\u{2029}'
    ||| c == '\u{202f}'
    ||| c == '\u{205f}'
    ||| c == '\u{3000}'
}

pub open spec fn trim_start(s: Seq<char>) -> Seq<char>
    decreases s.len(),
{
    if s.len() > 0 && is_ws(s[0]) {
        trim_start(s.drop_first())
    } else {
        s
    }
}

pub open spec fn trim_end(s: Seq<char>) -> Seq<char>
    decreases s.len(),
{
    if s.len() > 0 && is_ws(s.last()) {
        trim_end(s.drop_last())
    } else {
        s
    }
}

/// `str::trim`.
pub open spec fn trim(s: Seq<char>) -> Seq<char> {
    trim_end(trim_start(s))
}

/// Index of the first occurrence of `c` in `s`.
pub open spec fn find(s: Seq<char>, c: char) -> Option<nat>
    decreases s.len(),
{
    if s.len() == 0 {
        None
    } else if s[0] == c {
        Some(0)
    } else {
        match find(s.drop_first(), c) {
            Some(k) => Some(k + 1),
            None => None,
        }
    }
}

/// `str::split` on a single character: the pieces between the separators,
/// empty ones included.
pub open spec fn split(s: Seq<char>, sep: char) -> Seq<Seq<char>>
    decreases s.len(),
{
    match find(s, sep) {
        Some(k) => {
            proof {
                lemma_find_some(s, sep);
            }
            seq![s.take(k as int)] + split(s.skip(k + 1 as int), sep)
        },
        None => seq![s],
    }
}

/// `str::splitn(2, sep)`: the text before the first separator, and the
/// rest after it when there is a separator.
pub open spec fn split_once(s: Seq<char>, sep: char) -> (Seq<char>, Option<Seq<char>>) {
    match find(s, sep) {
        Some(k) => (s.take(k as int), Some(s.skip(k + 1 as int))),
        None => (s, None),
    }
}

pub proof fn lemma_find_at(s: Seq<char>, c: char, k: int)
    requires
        0 <= k < s.len(),
        s[k] == c,
        forall|j: int| 0 <= j < k ==> s[j] != c,
    ensures
        find(s, c) == Some(k as nat),
    decreases k,
{
    if k > 0 {
        lemma_find_at(s.drop_first(), c, k - 1);
    }
}

pub proof fn lemma_find_none(s: Seq<char>, c: char)
    requires
        forall|j: int| 0 <= j < s.len() ==> s[j] != c,
    ensures
        find(s, c) == None::<nat>,
    decreases s.len(),
{
    if s.len() > 0 {
        lemma_find_none(s.drop_first(), c);
    }
}

pub proof fn lemma_find_some(s: Seq<char>, c: char)
    ensures
        find(s, c) matches Some(k) ==> k < s.len() && s[k as int] == c && forall|j: int|
            0 <= j < k ==> s[j] != c,
        find(s, c) is None ==> forall|j: int| 0 <= j < s.len() ==> s[j] != c,
    decreases s.len(),
{
    if s.len() > 0 {
        lemma_find_some(s.drop_first(), c);
        if s[0] != c {
            assert forall|j: int| 1 <= j < s.len() implies s[j] == s.drop_first()[j - 1] by {}
        }
    }
}

/// Splitting text joined by a separator splits both halves.
pub proof fn lemma_split_concat(x: Seq<char>, y: Seq<char>, sep: char)
    ensures
        split(x + seq![sep] + y, sep) == split(x, sep) + split(y, sep),
    decreases x.len(),
{
    let z = x + seq![sep] + y;
    lemma_find_some(x, sep);
    match find(x, sep) {
        Some(k) => {
            assert forall|j: int| 0 <= j < k implies z[j] != sep by {
                assert(z[j] == x[j]);
            }
            assert(z[k as int] == x[k as int]);
            lemma_find_at(z, sep, k as int);
            let x2 = x.skip(k + 1 as int);
            lemma_split_concat(x2, y, sep);
            assert(z.skip(k + 1 as int) =~= x2 + seq![sep] + y);
            assert(z.take(k as int) =~= x.take(k as int));
            assert(split(z, sep) == seq![z.take(k as int)] + split(z.skip(k + 1 as int), sep));
            assert(split(x, sep) == seq![x.take(k as int)] + split(x2, sep));
            assert(split(z, sep) =~= split(x, sep) + split(y, sep));
        },
        None => {
            assert forall|j: int| 0 <= j < x.len() implies z[j] != sep by {
                assert(z[j] == x[j]);
            }
            lemma_find_at(z, sep, x.len() as int);
            assert(z.take(x.len() as int) =~= x);
            assert(z.skip(x.len() + 1 as int) =~= y);
            assert(split(x, sep) == seq![x]);
            assert(split(z, sep) =~= split(x, sep) + split(y, sep));
        },
    }
}

/// Text without the separator splits into itself.
pub proof fn lemma_split_none(x: Seq<char>, sep: char)
    requires
        forall|j: int| 0 <= j < x.len() ==> x[j] != sep,
    ensures
        split(x, sep) == seq![x],
{
    lemma_find_none(x, sep);
}

/// Trimming text that starts and ends with characters that are not
/// whitespace leaves it as it is.
pub proof fn lemma_trim_unchanged(x: Seq<char>)
    requires
        x.len() > 0,
        !is_ws(x[0]),
        !is_ws(x.last()),
    ensures
        trim(x) == x,
{
    assert(trim_start(x) == x);
    assert(trim_end(x) == x);
}

/// A leading space is trimmed away.
pub proof fn lemma_trim_space(x: Seq<char>)
    requires
        x.len() > 0,
        !is_ws(x[0]),
        !is_ws(x.last()),
    ensures
        trim(seq![' '] + x) == x,
{
    let y = seq![' '] + x;
    assert(y.drop_first() =~= x);
    assert(trim_start(x) == x);
    assert(trim_start(y) == x);
    assert(trim_end(x) == x);
}

pub open spec fn is_ws_exec_model(c: char) -> bool {
    is_ws(c)
}

/// `char::is_whitespace`.
pub fn is_whitespace(c: char) -> (b: bool)
    ensures
        b == is_ws(c),
{
    ('\u{9}' <= c && c <= '\u{d}') || c == ' ' || c == '\u{85}' || c == '\u{a0}' || c
        == '\u{1680}' || ('\u{2000}' <= c && c <= '\u{200a}') || c == '\u{2028}' || c
        == '\u{2029}' || c == '\u{202f}' || c == '\u{205f}' || c == '\u{3000}'
}

/// `char::to_ascii_lowercase`.
pub fn to_lower(c: char) -> (r: char)
    ensures
        r == lower(c),
{
    if 'A' <= c && c <= 'Z' {
        ((c as u8) + 32) as char
    } else {
        c
    }
}

/// The characters of `s`, in order.
pub fn chars_of(s: &str) -> (v: Vec<char>)
    ensures
        v@ == s@,
{
    let n = s.unicode_len();
    let mut v: Vec<char> = Vec::new();
    let mut i: usize = 0;
    while i < n
        invariant
            n == s@.len(),
            i <= n,
            v@ == s@.subrange(0, i as int),
        decreases n - i,
    {
        v.push(s.get_char(i));
        i = i + 1;
    }
    v
}

/// A `String` holding exactly the characters `cs[from..to]`.
pub fn string_from_chars(cs: &[char], from: usize, to: usize) -> (s: String)
    requires
        from <= to <= cs@.len(),
    ensures
        s@ == cs@.subrange(from as int, to as int),
{
    let mut s = String::new();
    let mut i = from;
    while i < to
        invariant
            from <= i <= to <= cs@.len(),
            s@ == cs@.subrange(from as int, i as int),
        decreases to - i,
    {
        push_char(&mut s, cs[i]);
        i = i + 1;
    }
    s
}

/// Appends `cs[from..to]` to `s`.
pub fn push_chars(s: &mut String, cs: &[char], from: usize, to: usize)
    requires
        from <= to <= cs@.len(),
    ensures
        final(s)@ == old(s)@ + cs@.subrange(from as int, to as int),
{
    let mut i = from;
    while i < to
        invariant
            from <= i <= to <= cs@.len(),
            s@ == old(s)@ + cs@.subrange(from as int, i as int),
        decreases to - i,
    {
        push_char(s, cs[i]);
        i = i + 1;
    }
}

/// Appends the characters of `t` to `s`.
pub fn push_str(s: &mut String, t: &str)
    ensures
        final(s)@ == old(s)@ + t@,
{
    let cs = chars_of(t);
    push_chars(s, cs.as_slice(), 0, cs.len());
}

/// The ASCII-lowercased copy of `cs[from..to]`.
pub fn lowercase_string(cs: &[char], from: usize, to: usize) -> (s: String)
    requires
        from <= to <= cs@.len(),
    ensures
        s@ == lowercase(cs@.subrange(from as int, to as int)),
{
    let mut s = String::new();
    let mut i = from;
    while i < to
        invariant
            from <= i <= to <= cs@.len(),
            s@ == lowercase(cs@.subrange(from as int, i as int)),
        decreases to - i,
    {
        push_char(&mut s, to_lower(cs[i]));
        proof {
            assert(lowercase(cs@.subrange(from as int, i + 1)) =~= lowercase(
                cs@.subrange(from as int, i as int),
            ).push(lower(cs@[i as int])));
        }
        i = i + 1;
    }
    s
}

/// Whether every character of `cs[from..to]` is ASCII.
pub fn all_ascii_range(cs: &[char], from: usize, to: usize) -> (b: bool)
    requires
        from <= to <= cs@.len(),
    ensures
        b == all_ascii(cs@.subrange(from as int, to as int)),
{
    let mut i = from;
    while i < to
        invariant
            from <= i <= to <= cs@.len(),
            all_ascii(cs@.subrange(from as int, i as int)),
        decreases to - i,
    {
        if (cs[i] as u32) >= 128 {
            assert(cs@.subrange(from as int, to as int)[i - from] == cs@[i as int]);
            return false;
        }
        i = i + 1;
    }
    true
}

/// The bounds of `trim(cs[from..to])` inside `cs`.
pub fn trim_bounds(cs: &[char], from: usize, to: usize) -> (r: (usize, usize))
    requires
        from <= to <= cs@.len(),
    ensures
        from <= r.0 <= r.1 <= to,
        cs@.subrange(r.0 as int, r.1 as int) == trim(cs@.subrange(from as int, to as int)),
{
    let mut a = from;
    while a < to && is_whitespace(cs[a])
        invariant
            from <= a <= to <= cs@.len(),
            trim_start(cs@.subrange(from as int, to as int)) == trim_start(
                cs@.subrange(a as int, to as int),
            ),
        decreases to - a,
    {
        assert(cs@.subrange(a as int, to as int).drop_first() =~= cs@.subrange(
            a + 1,
            to as int,
        ));
        a = a + 1;
    }
    let mut b = to;
    while b > a && is_whitespace(cs[b - 1])
        invariant
            from <= a <= b <= to <= cs@.len(),
            trim_end(cs@.subrange(a as int, to as int)) == trim_end(
                cs@.subrange(a as int, b as int),
            ),
        decreases b - a,
    {
        assert(cs@.subrange(a as int, b as int).drop_last() =~= cs@.subrange(
            a as int,
            b - 1,
        ));
        b = b - 1;
    }
    (a, b)
}

/// Index of the first `c` in `cs[from..to]`, counted from the start of `cs`.
pub fn find_from(cs: &[char], from: usize, to: usize, c: char) -> (r: Option<usize>)
    requires
        from <= to <= cs@.len(),
    ensures
        match r {
            Some(i) => from <= i < to && find(cs@.subrange(from as int, to as int), c) == Some(
                (i - from) as nat,
            ),
            None => find(cs@.subrange(from as int, to as int), c) == None::<nat>,
        },
{
    let mut i = from;
    while i < to
        invariant
            from <= i <= to <= cs@.len(),
            forall|j: int| from <= j < i ==> cs@[j] != c,
        decreases to - i,
    {
        if cs[i] == c {
            proof {
                lemma_find_at(cs@.subrange(from as int, to as int), c, i - from);
            }
            return Some(i);
        }
        i = i + 1;
    }
    proof {
        lemma_find_none(cs@.subrange(from as int, to as int), c);
    }
    None
}

/// The bounds of the pieces of `split(cs[from..to], sep)`.
pub fn split_bounds(cs: &[char], from: usize, to: usize, sep: char) -> (r: Vec<(usize, usize)>)
    requires
        from <= to <= cs@.len(),
    ensures
        r@.len() == split(cs@.subrange(from as int, to as int), sep).len(),
        forall|k: int|
            0 <= k < r@.len() ==> from <= (#[trigger] r@[k]).0 <= r@[k].1 <= to && cs@.subrange(
                r@[k].0 as int,
                r@[k].1 as int,
            ) == split(cs@.subrange(from as int, to as int), sep)[k],
{
    let mut r: Vec<(usize, usize)> = Vec::new();
    let mut start = from;
    let ghost whole = cs@.subrange(from as int, to as int);
    let ghost mut done: Seq<Seq<char>> = seq![];
    loop
        invariant
            from <= start <= to <= cs@.len(),
            whole == cs@.subrange(from as int, to as int),
            done + split(cs@.subrange(start as int, to as int), sep) == split(whole, sep),
            r@.len() == done.len(),
            forall|k: int|
                0 <= k < r@.len() ==> from <= (#[trigger] r@[k]).0 <= r@[k].1 <= to
                    && cs@.subrange(r@[k].0 as int, r@[k].1 as int) == done[k],
        decreases to - start,
    {
        let f = find_from(cs, start, to, sep);
        match f {
            Some(i) => {
                let ghost rest = cs@.subrange(start as int, to as int);
                assert(rest.take(i - start) =~= cs@.subrange(start as int, i as int));
                assert(rest.skip(i - start + 1) =~= cs@.subrange(i + 1, to as int));
                r.push((start, i));
                proof {
                    done = done.push(cs@.subrange(start as int, i as int));
                    assert(split(rest, sep) == seq![cs@.subrange(start as int, i as int)] + split(
                        cs@.subrange(i + 1, to as int),
                        sep,
                    ));
                    assert(done + split(cs@.subrange(i + 1, to as int), sep) =~= (done.drop_last()
                        + split(rest, sep)));
                }
                start = i + 1;
            },
            None => {
                r.push((start, to));
                proof {
                    let rest = cs@.subrange(start as int, to as int);
                    assert(split(rest, sep) == seq![rest]);
                    assert(done.push(rest) =~= done + split(rest, sep));
                    done = done.push(rest);
                }
                assert(r@.len() == split(whole, sep).len());
                return r;
            },
        }
    }
}

/// `u8::is_ascii_digit` on a `char`.
pub fn is_ascii_digit(c: char) -> (b: bool)
    ensures
        b == is_digit(c),
{
    '0' <= c && c <= '9'
}

/// Value of a decimal digit.
pub open spec fn digit_value(c: char) -> nat {
    ((c as u32) - ('0' as u32)) as nat
}

/// Value of a string of decimal digits.
pub open spec fn digits_value(d: Seq<char>) -> nat
    decreases d.len(),
{
    if d.len() == 0 {
        0
    } else {
        digits_value(d.drop_last()) * 10 + digit_value(d.last())
    }
}

pub open spec fn all_digits(d: Seq<char>) -> bool {
    forall|i: int| 0 <= i < d.len() ==> is_digit(#[trigger] d[i])
}

/// `u64::from_str`: an optional `+`, then at least one decimal digit, with
/// a value that fits in 64 bits.
pub open spec fn parse_u64(s: Seq<char>) -> Option<u64> {
    let d = if s.len() > 0 && s[0] == '+' {
        s.drop_first()
    } else {
        s
    };
    if d.len() > 0 && all_digits(d) && digits_value(d) <= u64::MAX {
        Some(digits_value(d) as u64)
    } else {
        None
    }
}

/// The decimal digit for `n < 10`.
pub open spec fn digit_char(n: nat) -> char {
    ((n + ('0' as u32)) as u32) as char
}

/// The shortest decimal representation of `n`, as `format!("{}", n)` writes it.
pub open spec fn decimal(n: nat) -> Seq<char>
    decreases n,
{
    if n < 10 {
        seq![digit_char(n)]
    } else {
        decimal(n / 10).push(digit_char(n % 10))
    }
}

pub proof fn lemma_digit_char(k: nat)
    requires
        k < 10,
    ensures
        digit_value(digit_char(k)) == k,
        is_digit(digit_char(k)),
        digit_char(k) as u32 == k + 48,
{
    let u = (k + ('0' as u32)) as u32;
    assert(u == k + 48);
    assert((u as char) as u32 == u);
}

pub proof fn lemma_decimal_digits(n: nat)
    ensures
        decimal(n).len() > 0,
        all_digits(decimal(n)),
        digits_value(decimal(n)) == n,
        decimal(n)[0] != '+',
    decreases n,
{
    lemma_digit_char(n % 10);
    if n < 10 {
        lemma_digit_char(n);
        assert(decimal(n).drop_last() =~= Seq::<char>::empty());
        assert(digits_value(decimal(n)) == digits_value(Seq::<char>::empty()) * 10 + digit_value(
            digit_char(n),
        ));
    }
    if n >= 10 {
        lemma_decimal_digits(n / 10);
        let d = decimal(n);
        assert(d.drop_last() =~= decimal(n / 10));
        assert(d.last() == digit_char(n % 10));
        assert(n == (n / 10) * 10 + n % 10);
        assert forall|i: int| 0 <= i < d.len() implies is_digit(#[trigger] d[i]) by {
            if i < d.len() - 1 {
                assert(d[i] == decimal(n / 10)[i]);
            }
        }
    }
}

/// The decimal text of a number parses back to that number.
/// Law: decimal digits are the characters `0` to `9` for the values 0 to
/// 9, and a number is written in base ten, most significant digit first:
/// 1994 is `1994`, and 0 is `0`.
pub proof fn law_decimal_digits()
    ensures
        digit_char(0) == '0',
        digit_char(1) == '1',
        digit_char(2) == '2',
        digit_char(3) == '3',
        digit_char(4) == '4',
        digit_char(5) == '5',
        digit_char(6) == '6',
        digit_char(7) == '7',
        digit_char(8) == '8',
        digit_char(9) == '9',
        decimal(0) == seq!['0'],
        decimal(1994) == seq!['1', '9', '9', '4'],
{
    reveal_with_fuel(decimal, 4);
    assert(decimal(1994) =~= seq!['1', '9', '9', '4']);
}

pub proof fn lemma_parse_decimal(n: u64)
    ensures
        parse_u64(decimal(n as nat)) == Some(n),
{
    lemma_decimal_digits(n as nat);
}

/// `u64::from_str` on `cs[from..to]`.
pub fn parse_u64_range(cs: &[char], from: usize, to: usize) -> (r: Option<u64>)
    requires
        from <= to <= cs@.len(),
    ensures
        r == parse_u64(cs@.subrange(from as int, to as int)),
{
    let ghost s = cs@.subrange(from as int, to as int);
    let mut i = from;
    if i < to && cs[i] == '+' {
        i = i + 1;
    }
    let ghost d = cs@.subrange(i as int, to as int);
    assert(d =~= (if s.len() > 0 && s[0] == '+' {
        s.drop_first()
    } else {
        s
    }));
    if i == to {
        return None;
    }
    let start = i;
    let mut v: u64 = 0;
    while i < to
        invariant
            from <= start <= i <= to <= cs@.len(),
            d == cs@.subrange(start as int, to as int),
            s == cs@.subrange(from as int, to as int),
            d == (if s.len() > 0 && s[0] == '+' {
                s.drop_first()
            } else {
                s
            }),
            all_digits(cs@.subrange(start as int, i as int)),
            v == digits_value(cs@.subrange(start as int, i as int)),
        decreases to - i,
    {
        let c = cs[i];
        let ghost pre = cs@.subrange(start as int, i as int);
        let ghost nxt = cs@.subrange(start as int, i + 1);
        assert(nxt.drop_last() =~= pre);
        if !is_ascii_digit(c) {
            assert(d[i - start] == c);
            assert(!is_digit(d[i - start]));
            return None;
        }
        let dv = (c as u32 - '0' as u32) as u64;
        if v > (u64::MAX - dv) / 10 {
            proof {
                assert(digit_value(c) == dv);
                assert(v * 10 + dv > u64::MAX) by (nonlinear_arith)
                    requires
                        v > (u64::MAX - dv) / 10,
                        dv <= 9,
                ;
                assert(d.take(i + 1 - start) =~= nxt);
                if all_digits(d) {
                    lemma_digits_value_prefix_bound(d, (i + 1 - start) as int);
                }
            }
            return None;
        }
        v = v * 10 + dv;
        i = i + 1;
    }
    Some(v)
}

/// A longer prefix of digits never has a smaller value.
pub proof fn lemma_digits_value_prefix_bound(d: Seq<char>, k: int)
    requires
        0 <= k <= d.len(),
        all_digits(d),
    ensures
        digits_value(d.take(k)) <= digits_value(d),
    decreases d.len() - k,
{
    if k < d.len() {
        lemma_digits_value_prefix_bound(d, k + 1);
        assert(d.take(k + 1).drop_last() =~= d.take(k));
    }
    if k == d.len() {
        assert(d.take(k) =~= d);
    }
}

/// `format!("{}", n)`.
pub fn u64_to_string(n: u64) -> (s: String)
    ensures
        s@ == decimal(n as nat),
{
    let mut rev: Vec<char> = Vec::new();
    let mut m = n;
    while m >= 10
        invariant
            m <= n,
            decimal(n as nat) == decimal(m as nat) + rev@.reverse(),
        decreases m,
    {
        let c = (((m % 10) as u8) + 48) as char;
        proof {
            lemma_digit_char((m % 10) as nat);
            assert(c == digit_char((m % 10) as nat));
            assert(decimal(m as nat) == decimal((m / 10) as nat).push(c));
            assert(rev@.push(c).reverse() =~= seq![c] + rev@.reverse());
        }
        rev.push(c);
        m = m / 10;
    }
    let c = ((m as u8) + 48) as char;
    proof {
        lemma_digit_char(m as nat);
        assert(c == digit_char(m as nat));
        assert(rev@.push(c).reverse() =~= seq![c] + rev@.reverse());
    }
    rev.push(c);
    let mut s = String::new();
    let mut i = rev.len();
    while i > 0
        invariant
            i <= rev@.len(),
            decimal(n as nat) == rev@.reverse(),
            s@ == rev@.reverse().take((rev@.len() - i) as int),
        decreases i,
    {
        i = i - 1;
        push_char(&mut s, rev[i]);
        assert(rev@.reverse().take((rev@.len() - i) as int) =~= rev@.reverse().take(
            (rev@.len() - i - 1) as int,
        ).push(rev@[i as int]));
    }
    assert(rev@.reverse().take(rev@.len() as int) =~= rev@.reverse());
    s
}

/// Whether two character vectors are equal.
pub fn eq_chars(a: &Vec<char>, b: &Vec<char>) -> (r: bool)
    ensures
        r == (a@ == b@),
{
    if a.len() != b.len() {
        return false;
    }
    let mut i: usize = 0;
    while i < a.len()
        invariant
            a@.len() == b@.len(),
            i <= a@.len(),
            forall|j: int| 0 <= j < i ==> a@[j] == b@[j],
        decreases a@.len() - i,
    {
        if a[i] != b[i] {
            return false;
        }
        i = i + 1;
    }
    assert(a@ =~= b@);
    true
}

} // verus!
