//! Text utilities: strings as character sequences, decimal integers and
//! floating-point literals.

use vstd::prelude::*;

verus! {

/// The characters of `s`, in order.
pub fn str_chars(s: &str) -> (v: Vec<char>)
    ensures
        v@ == s@,
{
    let mut v: Vec<char> = Vec::new();
    for c in it: s.chars()
        invariant
            it.seq() == s@,
            v@ == it.seq().take(it.index() as int),
    {
        v.push(c);
    }
    v
}

/// Appends one character to a string.
///
/// Trusted: stands for `String::push` of the standard library, which appends
/// the given character to the end of the string.
#[verifier::external_body]
fn string_push(s: &mut String, c: char)
    ensures
        final(s)@ == old(s)@.push(c),
{
    s.push(c)
}

/// The string made of the characters of `v`, in order.
pub fn chars_to_string(v: &Vec<char>) -> (s: String)
    ensures
        s@ == v@,
{
    let mut s = String::new();
    let mut i: usize = 0;
    while i < v.len()
        invariant
            i <= v.len(),
            s@ == v@.take(i as int),
        decreases v.len() - i,
    {
        string_push(&mut s, v[i]);
        i += 1;
    }
    s
}

/// Whether two character vectors hold the same characters.
pub fn chars_eq(a: &Vec<char>, b: &Vec<char>) -> (r: bool)
    ensures
        r == (a@ == b@),
{
    if a.len() != b.len() {
        return false;
    }
    let mut i: usize = 0;
    while i < a.len()
        invariant
            i <= a.len(),
            a.len() == b.len(),
            a@.take(i as int) == b@.take(i as int),
        decreases a.len() - i,
    {
        if a[i] != b[i] {
            return false;
        }
        assert(a@.take(i + 1) == a@.take(i as int).push(a@[i as int]));
        assert(b@.take(i + 1) == b@.take(i as int).push(b@[i as int]));
        i += 1;
    }
    assert(a@ == a@.take(a.len() as int));
    assert(b@ == b@.take(b.len() as int));
    true
}

/// Whether `v` holds exactly the characters of `lit`.
pub fn chars_eq_str(v: &Vec<char>, lit: &str) -> (b: bool)
    ensures
        b == (v@ == lit@),
{
    let w = str_chars(lit);
    chars_eq(v, &w)
}

/// Whether two strings hold the same characters.
pub fn str_eq(a: &str, b: &str) -> (r: bool)
    ensures
        r == (a@ == b@),
{
    let v = str_chars(a);
    chars_eq_str(&v, b)
}

/// The texts of a run of strings.
pub open spec fn names_view(names: Seq<String>) -> Seq<Seq<char>> {
    Seq::new(names.len(), |i: int| names[i]@)
}

/// The texts of a run of strings grow with the run.
pub proof fn lemma_names_view_push(names: Seq<String>, name: String)
    ensures
        names_view(names.push(name)) == names_view(names).push(name@),
{
    assert(names_view(names.push(name)) =~= names_view(names).push(name@));
}

/// `names` without repetitions: each text stays where it first stood.
pub open spec fn distinct(names: Seq<Seq<char>>) -> Seq<Seq<char>>
    decreases names.len(),
{
    if names.len() == 0 {
        Seq::empty()
    } else {
        with_name(distinct(names.drop_last()), names.last())
    }
}

/// `names`, with `name` added at the end unless it is there already.
pub open spec fn with_name(names: Seq<Seq<char>>, name: Seq<char>) -> Seq<Seq<char>> {
    if names.contains(name) {
        names
    } else {
        names.push(name)
    }
}

/// `distinct` holds every text of the run it was made of, and no other, and
/// none twice.
pub proof fn lemma_distinct(names: Seq<Seq<char>>)
    ensures
        distinct(names).no_duplicates(),
        forall|n: Seq<char>| distinct(names).contains(n) <==> names.contains(n),
    decreases names.len(),
{
    if names.len() > 0 {
        let before = names.drop_last();
        let last = names.last();
        lemma_distinct(before);
        let d = distinct(before);
        assert forall|n: Seq<char>| distinct(names).contains(n) <==> names.contains(n) by {
            if names.contains(n) {
                let i = choose|i: int| 0 <= i < names.len() && names[i] == n;
                if i < names.len() - 1 {
                    assert(before[i] == n);
                    assert(before.contains(n));
                    assert(d.contains(n));
                    let k = choose|k: int| 0 <= k < d.len() && d[k] == n;
                    assert(distinct(names)[k] == n);
                } else if !d.contains(n) {
                    assert(distinct(names)[d.len() as int] == n);
                }
            }
            if distinct(names).contains(n) {
                let k = choose|k: int| 0 <= k < distinct(names).len() && distinct(names)[k] == n;
                if k < d.len() {
                    assert(d[k] == n);
                    assert(d.contains(n));
                    assert(before.contains(n));
                    let i = choose|i: int| 0 <= i < before.len() && before[i] == n;
                    assert(names[i] == n);
                } else {
                    assert(names[names.len() - 1] == n);
                }
            }
        }
    }
}

/// Whether one of `names` has the text of `name`.
pub fn has_name(names: &Vec<String>, name: &String) -> (r: bool)
    ensures
        r == names_view(names@).contains(name@),
{
    let mut i: usize = 0;
    while i < names.len()
        invariant
            i <= names.len(),
            forall|k: int| 0 <= k < i ==> names_view(names@)[k] != name@,
        decreases names.len() - i,
    {
        if names[i] == *name {
            assert(names_view(names@)[i as int] == name@);
            return true;
        }
        i += 1;
    }
    false
}

/// Adds a copy of `name` to `names` unless its text is there already.
pub fn add_name(names: &mut Vec<String>, name: &String)
    ensures
        names_view(final(names)@) == with_name(names_view(old(names)@), name@),
{
    if !has_name(names, name) {
        proof {
            lemma_names_view_push(names@, *name);
        }
        names.push(name.clone());
    }
}

/// Whether `s` begins with `p`.
pub open spec fn has_prefix(s: Seq<char>, p: Seq<char>) -> bool {
    s.len() >= p.len() && s.take(p.len() as int) == p
}

/// Whether `v` begins with `p`.
pub fn starts_with(v: &Vec<char>, p: &Vec<char>) -> (r: bool)
    ensures
        r == has_prefix(v@, p@),
{
    if v.len() < p.len() {
        return false;
    }
    let mut i: usize = 0;
    while i < p.len()
        invariant
            i <= p.len() <= v.len(),
            v@.take(i as int) == p@.take(i as int),
        decreases p.len() - i,
    {
        if v[i] != p[i] {
            assert(v@.take(p.len() as int)[i as int] == v@[i as int]);
            return false;
        }
        assert(v@.take(i + 1) == v@.take(i as int).push(v@[i as int]));
        assert(p@.take(i + 1) == p@.take(i as int).push(p@[i as int]));
        i += 1;
    }
    assert(p@ == p@.take(p.len() as int));
    true
}

/// The characters of `v` from position `from` on.
pub fn chars_from(v: &Vec<char>, from: usize) -> (r: Vec<char>)
    requires
        from <= v.len(),
    ensures
        r@ == v@.skip(from as int),
{
    let mut r: Vec<char> = Vec::new();
    let mut i: usize = from;
    while i < v.len()
        invariant
            from <= i <= v.len(),
            r@ == v@.subrange(from as int, i as int),
        decreases v.len() - i,
    {
        r.push(v[i]);
        i += 1;
    }
    r
}

/// The pieces of `s` between occurrences of `sep`. A text without `sep` is
/// one piece; two adjacent separators enclose an empty piece.
pub open spec fn split_on(s: Seq<char>, sep: char) -> Seq<Seq<char>>
    decreases s.len(),
{
    if s.len() == 0 {
        seq![Seq::<char>::empty()]
    } else {
        let before = split_on(s.drop_last(), sep);
        if s.last() == sep {
            before.push(Seq::<char>::empty())
        } else {
            before.drop_last().push(before.last().push(s.last()))
        }
    }
}

/// Splits `v` at every occurrence of `sep`.
pub fn split_chars(v: &Vec<char>, sep: char) -> (parts: Vec<Vec<char>>)
    ensures
        parts@.len() == split_on(v@, sep).len(),
        forall|k: int| 0 <= k < parts@.len() ==> (#[trigger] parts@[k])@ == split_on(v@, sep)[k],
{
    let mut parts: Vec<Vec<char>> = Vec::new();
    let mut current: Vec<char> = Vec::new();
    let mut i: usize = 0;
    assert(v@.take(0) == Seq::<char>::empty());
    while i < v.len()
        invariant
            i <= v.len(),
            split_on(v@.take(i as int), sep).len() == parts@.len() + 1,
            split_on(v@.take(i as int), sep).last() == current@,
            forall|k: int|
                0 <= k < parts@.len() ==> (#[trigger] parts@[k])@ == split_on(
                    v@.take(i as int),
                    sep,
                )[k],
        decreases v.len() - i,
    {
        let c = v[i];
        proof {
            assert(v@.take(i + 1).drop_last() == v@.take(i as int));
            assert(v@.take(i + 1).last() == c);
        }
        if c == sep {
            parts.push(current);
            current = Vec::new();
        } else {
            current.push(c);
        }
        i += 1;
    }
    assert(v@.take(v.len() as int) == v@);
    parts.push(current);
    parts
}

/// Whether `c` is one of the ten decimal digits.
pub open spec fn is_digit(c: char) -> bool {
    '0' <= c && c <= '9'
}

/// The number that the decimal digit `c` stands for.
pub open spec fn digit_value(c: char) -> int {
    c as u32 as int - 48
}

/// The decimal digit for `d`, which is a number from 0 to 9.
pub open spec fn digit_char(d: int) -> char {
    if d == 0 {
        '0'
    } else if d == 1 {
        '1'
    } else if d == 2 {
        '2'
    } else if d == 3 {
        '3'
    } else if d == 4 {
        '4'
    } else if d == 5 {
        '5'
    } else if d == 6 {
        '6'
    } else if d == 7 {
        '7'
    } else if d == 8 {
        '8'
    } else {
        '9'
    }
}

/// Whether every character of `s` is a decimal digit.
pub open spec fn all_digits(s: Seq<char>) -> bool {
    forall|i: int| 0 <= i < s.len() ==> is_digit(#[trigger] s[i])
}

/// The number written by the decimal digits `s`, most significant first.
pub open spec fn digits_value(s: Seq<char>) -> int
    decreases s.len(),
{
    if s.len() == 0 {
        0
    } else {
        10 * digits_value(s.drop_last()) + digit_value(s.last())
    }
}

/// The 64-bit signed integer that the text `s` denotes: an optional sign,
/// then one or more decimal digits and nothing else, of a value within range.
pub open spec fn decimal_i64(s: Seq<char>) -> Option<i64> {
    if s.len() == 0 {
        None
    } else {
        let signed = s[0] == '-' || s[0] == '+';
        let body = if signed {
            s.skip(1)
        } else {
            s
        };
        let value = if s[0] == '-' {
            -digits_value(body)
        } else {
            digits_value(body)
        };
        if body.len() == 0 || !all_digits(body) || value < i64::MIN || value > i64::MAX {
            None
        } else {
            Some(value as i64)
        }
    }
}

/// The value of a digit string is never below the value of one of its
/// prefixes, and never negative.
pub proof fn lemma_digits_value_monotone(s: Seq<char>, k: int)
    requires
        all_digits(s),
        0 <= k <= s.len(),
    ensures
        0 <= digits_value(s.take(k)) <= digits_value(s),
    decreases s.len(),
{
    if k == s.len() {
        assert(s.take(k) == s);
        if s.len() > 0 {
            assert(all_digits(s.drop_last()));
            lemma_digits_value_monotone(s.drop_last(), k - 1);
            assert(is_digit(s[s.len() - 1]));
        }
    } else {
        assert(all_digits(s.drop_last()));
        lemma_digits_value_monotone(s.drop_last(), k);
        assert(s.drop_last().take(k) == s.take(k));
        assert(is_digit(s[s.len() - 1]));
    }
}

/// Reads a 64-bit signed integer from its decimal text.
pub fn parse_i64(v: &Vec<char>) -> (r: Option<i64>)
    ensures
        r == decimal_i64(v@),
{
    let n = v.len();
    if n == 0 {
        return None;
    }
    let negative = v[0] == '-';
    let start: usize = if v[0] == '-' || v[0] == '+' {
        1
    } else {
        0
    };
    if start == n {
        return None;
    }
    let ghost body = v@.skip(start as int);
    assert(v@.skip(0) == v@);
    let mut acc: i128 = 0;
    let mut i: usize = start;
    assert(body.take(0) == Seq::<char>::empty());
    while i < n
        invariant
            start <= i <= n,
            start < n,
            n == v.len(),
            negative == (v@[0] == '-'),
            start == (if v@[0] == '-' || v@[0] == '+' {
                1int
            } else {
                0int
            }),
            body == v@.skip(start as int),
            all_digits(body.take(i - start)),
            acc == digits_value(body.take(i - start)),
            0 <= acc <= 0x8000_0000_0000_0000,
        decreases n - i,
    {
        let c = v[i];
        assert(body[i - start] == c);
        if !('0' <= c && c <= '9') {
            assert(!is_digit(body[i - start]));
            assert(v@.skip(0) == v@);
            return None;
        }
        let d: i128 = (c as u32 - 48) as i128;
        proof {
            let next = body.take(i - start + 1);
            assert(next.drop_last() == body.take(i - start));
            assert(next.last() == c);
            assert forall|j: int| 0 <= j < next.len() implies is_digit(#[trigger] next[j]) by {
                if j < i - start {
                    assert(next[j] == body.take(i - start)[j]);
                }
            }
        }
        acc = acc * 10 + d;
        assert(acc == digits_value(body.take(i - start + 1)));
        if acc > 0x8000_0000_0000_0000 {
            proof {
                assert(v@.skip(0) == v@);
                if all_digits(body) {
                    lemma_digits_value_monotone(body, i - start + 1);
                    assert(digits_value(body) > 0x8000_0000_0000_0000);
                }
            }
            return None;
        }
        i += 1;
    }
    assert(body.take(n - start) == body);
    if negative {
        Some((-acc) as i64)
    } else if acc > 0x7fff_ffff_ffff_ffff {
        None
    } else {
        Some(acc as i64)
    }
}

/// The decimal digits of a natural number, without leading zeros.
pub open spec fn nat_decimal(n: nat) -> Seq<char>
    decreases n,
{
    if n < 10 {
        seq![digit_char(n as int)]
    } else {
        nat_decimal(n / 10).push(digit_char((n % 10) as int))
    }
}

/// The decimal text of an integer: a minus sign for a negative number, then
/// its digits.
pub open spec fn int_decimal(n: int) -> Seq<char> {
    if n < 0 {
        seq!['-'] + nat_decimal((-n) as nat)
    } else {
        nat_decimal(n as nat)
    }
}

fn digit_of(d: u64) -> (c: char)
    requires
        d < 10,
    ensures
        c == digit_char(d as int),
{
    if d == 0 {
        '0'
    } else if d == 1 {
        '1'
    } else if d == 2 {
        '2'
    } else if d == 3 {
        '3'
    } else if d == 4 {
        '4'
    } else if d == 5 {
        '5'
    } else if d == 6 {
        '6'
    } else if d == 7 {
        '7'
    } else if d == 8 {
        '8'
    } else {
        '9'
    }
}

fn push_nat_decimal(n: u64, out: &mut Vec<char>)
    ensures
        final(out)@ == old(out)@ + nat_decimal(n as nat),
    decreases n,
{
    if n >= 10 {
        push_nat_decimal(n / 10, out);
    }
    out.push(digit_of(n % 10));
}

/// Appends the decimal text of `n` to `out`.
pub fn push_decimal(n: i64, out: &mut Vec<char>)
    ensures
        final(out)@ == old(out)@ + int_decimal(n as int),
{
    if n < 0 {
        out.push('-');
        let magnitude: u64 = if n == i64::MIN {
            0x8000_0000_0000_0000
        } else {
            (-n) as u64
        };
        push_nat_decimal(magnitude, out);
    } else {
        push_nat_decimal(n as u64, out);
    }
}

/// The decimal text of `n`.
pub fn decimal_text(n: i64) -> (v: Vec<char>)
    ensures
        v@ == int_decimal(n as int),
{
    let mut v: Vec<char> = Vec::new();
    push_decimal(n, &mut v);
    v
}

/// The digits of a natural number write that number.
pub proof fn lemma_nat_decimal_value(n: nat)
    ensures
        digits_value(nat_decimal(n)) == n,
    decreases n,
{
    if n < 10 {
        let s = nat_decimal(n);
        assert(s.drop_last().len() == 0);
        assert(digits_value(s.drop_last()) == 0);
        assert(s.last() == digit_char(n as int));
        assert(digit_value(digit_char(n as int)) == n);
    } else {
        lemma_nat_decimal_value(n / 10);
        let s = nat_decimal(n);
        assert(s.drop_last() == nat_decimal(n / 10));
        assert(s.last() == digit_char((n % 10) as int));
        assert(digit_value(digit_char((n % 10) as int)) == n % 10);
    }
}

/// Reading the decimal text of a 64-bit integer gives the integer back.
pub proof fn lemma_decimal_round_trip(n: i64)
    ensures
        decimal_i64(int_decimal(n as int)) == Some(n),
{
    let s = int_decimal(n as int);
    if n < 0 {
        let m = (-n) as nat;
        lemma_nat_decimal_value(m);
        lemma_nat_decimal_digits(m);
        assert(s[0] == '-');
        assert(s.skip(1) == nat_decimal(m));
    } else {
        lemma_nat_decimal_value(n as nat);
        lemma_nat_decimal_digits(n as nat);
        assert(is_digit(s[0]));
    }
}

/// How many decimal digits stand in a row in `s`, starting at `from`.
pub open spec fn digit_run(s: Seq<char>, from: int) -> nat
    decreases s.len() - from,
{
    if 0 <= from < s.len() && is_digit(s[from]) {
        1 + digit_run(s, from + 1)
    } else {
        0
    }
}

/// Whether `c` is the given letter, in lower or in upper case.
pub open spec fn is_letter(c: char, lower: char, upper: char) -> bool {
    c == lower || c == upper
}

/// Whether `s`, from `from` to its end, spells `inf`, `infinity` or `nan` in
/// any mix of cases.
pub open spec fn is_special_number_at(s: Seq<char>, from: int) -> bool {
    ||| {
        &&& s.len() - from == 3
        &&& is_letter(s[from], 'i', 'I')
        &&& is_letter(s[from + 1], 'n', 'N')
        &&& is_letter(s[from + 2], 'f', 'F')
    }
    ||| {
        &&& s.len() - from == 3
        &&& is_letter(s[from], 'n', 'N')
        &&& is_letter(s[from + 1], 'a', 'A')
        &&& is_letter(s[from + 2], 'n', 'N')
    }
    ||| {
        &&& s.len() - from == 8
        &&& is_letter(s[from], 'i', 'I')
        &&& is_letter(s[from + 1], 'n', 'N')
        &&& is_letter(s[from + 2], 'f', 'F')
        &&& is_letter(s[from + 3], 'i', 'I')
        &&& is_letter(s[from + 4], 'n', 'N')
        &&& is_letter(s[from + 5], 'i', 'I')
        &&& is_letter(s[from + 6], 't', 'T')
        &&& is_letter(s[from + 7], 'y', 'Y')
    }
}

/// Whether `s`, from `from` to its end, is an exponent: the letter `e` in
/// either case, an optional sign, then one or more digits.
pub open spec fn is_exponent_at(s: Seq<char>, from: int) -> bool {
    &&& from < s.len()
    &&& is_letter(s[from], 'e', 'E')
    &&& {
        let signed = from + 1 < s.len() && (s[from + 1] == '+' || s[from + 1] == '-');
        let digits = if signed {
            from + 2
        } else {
            from + 1
        };
        digits < s.len() && digits + digit_run(s, digits) == s.len()
    }
}

/// Whether `s`, from `from` to its end, is a decimal number: digits with at
/// most one point among them and at least one digit, then an optional
/// exponent.
pub open spec fn is_decimal_number_at(s: Seq<char>, from: int) -> bool {
    let whole = digit_run(s, from);
    let point = from + whole;
    let has_point = point < s.len() && s[point] == '.';
    let fraction = if has_point {
        digit_run(s, point + 1)
    } else {
        0
    };
    let end = if has_point {
        point + 1 + fraction
    } else {
        point
    };
    whole + fraction >= 1 && (end == s.len() || is_exponent_at(s, end))
}

/// Whether `s` is a floating-point literal: an optional sign, then a decimal
/// number or one of the words `inf`, `infinity` and `nan`.
pub open spec fn is_float_literal(s: Seq<char>) -> bool {
    let from = if s.len() >= 1 && (s[0] == '+' || s[0] == '-') {
        1int
    } else {
        0int
    };
    is_special_number_at(s, from) || is_decimal_number_at(s, from)
}

fn count_digits(v: &Vec<char>, from: usize) -> (n: usize)
    requires
        from <= v.len(),
    ensures
        n == digit_run(v@, from as int),
        from + n <= v.len(),
{
    let mut i: usize = from;
    while i < v.len() && '0' <= v[i] && v[i] <= '9'
        invariant
            from <= i <= v.len(),
            digit_run(v@, from as int) == (i - from) + digit_run(v@, i as int),
        decreases v.len() - i,
    {
        i += 1;
    }
    i - from
}

fn letter_at(v: &Vec<char>, at: usize, lower: char, upper: char) -> (r: bool)
    requires
        at < v.len(),
    ensures
        r == is_letter(v@[at as int], lower, upper),
{
    v[at] == lower || v[at] == upper
}

fn special_number_at(v: &Vec<char>, from: usize) -> (r: bool)
    requires
        from <= v.len(),
    ensures
        r == is_special_number_at(v@, from as int),
{
    let rest = v.len() - from;
    if rest == 3 {
        (letter_at(v, from, 'i', 'I') && letter_at(v, from + 1, 'n', 'N') && letter_at(
            v,
            from + 2,
            'f',
            'F',
        )) || (letter_at(v, from, 'n', 'N') && letter_at(v, from + 1, 'a', 'A') && letter_at(
            v,
            from + 2,
            'n',
            'N',
        ))
    } else if rest == 8 {
        letter_at(v, from, 'i', 'I') && letter_at(v, from + 1, 'n', 'N') && letter_at(
            v,
            from + 2,
            'f',
            'F',
        ) && letter_at(v, from + 3, 'i', 'I') && letter_at(v, from + 4, 'n', 'N') && letter_at(
            v,
            from + 5,
            'i',
            'I',
        ) && letter_at(v, from + 6, 't', 'T') && letter_at(v, from + 7, 'y', 'Y')
    } else {
        false
    }
}

fn exponent_at(v: &Vec<char>, from: usize) -> (r: bool)
    requires
        from <= v.len(),
    ensures
        r == is_exponent_at(v@, from as int),
{
    if from >= v.len() || !letter_at(v, from, 'e', 'E') {
        return false;
    }
    let signed = from + 1 < v.len() && (v[from + 1] == '+' || v[from + 1] == '-');
    let digits: usize = if signed {
        from + 2
    } else {
        from + 1
    };
    if digits >= v.len() {
        return false;
    }
    let run = count_digits(v, digits);
    digits + run == v.len()
}

fn decimal_number_at(v: &Vec<char>, from: usize) -> (r: bool)
    requires
        from <= v.len(),
    ensures
        r == is_decimal_number_at(v@, from as int),
{
    let whole = count_digits(v, from);
    let point = from + whole;
    let has_point = point < v.len() && v[point] == '.';
    let fraction: usize = if has_point {
        count_digits(v, point + 1)
    } else {
        0
    };
    let end: usize = if has_point {
        point + 1 + fraction
    } else {
        point
    };
    if whole == 0 && fraction == 0 {
        return false;
    }
    end == v.len() || exponent_at(v, end)
}

/// Decides whether `v` is a floating-point literal.
pub fn check_float_literal(v: &Vec<char>) -> (r: bool)
    ensures
        r == is_float_literal(v@),
{
    let from: usize = if v.len() >= 1 && (v[0] == '+' || v[0] == '-') {
        1
    } else {
        0
    };
    special_number_at(v, from) || decimal_number_at(v, from)
}

/// The decimal text of an integer is a floating-point literal.
pub proof fn lemma_int_decimal_is_float_literal(n: int)
    ensures
        is_float_literal(int_decimal(n)),
{
    let s = int_decimal(n);
    if n < 0 {
        let digits = nat_decimal((-n) as nat);
        lemma_nat_decimal_digits((-n) as nat);
        assert(s[0] == '-');
        assert(s.skip(1) == digits);
        lemma_digit_run_all(s, 1);
        assert(is_decimal_number_at(s, 1));
    } else {
        lemma_nat_decimal_digits(n as nat);
        assert(is_digit(s[0]));
        lemma_digit_run_all(s, 0);
        assert(s.skip(0) == s);
        assert(is_decimal_number_at(s, 0));
    }
}

/// The decimal text of a natural number is a non-empty run of digits.
pub proof fn lemma_nat_decimal_digits(n: nat)
    ensures
        nat_decimal(n).len() >= 1,
        all_digits(nat_decimal(n)),
    decreases n,
{
    if n >= 10 {
        lemma_nat_decimal_digits(n / 10);
        let d = digit_char((n % 10) as int);
        assert(is_digit(d));
    }
}

/// Where everything from `from` on is a digit, the run of digits there
/// reaches the end of the text.
pub proof fn lemma_digit_run_all(s: Seq<char>, from: int)
    requires
        0 <= from <= s.len(),
        all_digits(s.skip(from)),
    ensures
        from + digit_run(s, from) == s.len(),
    decreases s.len() - from,
{
    if from < s.len() {
        assert(s.skip(from)[0] == s[from]);
        assert forall|i: int| 0 <= i < s.skip(from + 1).len() implies is_digit(
            #[trigger] s.skip(from + 1)[i],
        ) by {
            assert(s.skip(from + 1)[i] == s.skip(from)[i + 1]);
        }
        lemma_digit_run_all(s, from + 1);
    }
}

} // verus!
