//! Decimal text: rendering, parsing, and splitting of flag values.
use vstd::prelude::*;
use vstd::string::*;

verus! {

// ---------------------------------------------------------------------------
// Rendering
// ---------------------------------------------------------------------------

/// Character of one decimal digit.
pub open spec fn digit_char(d: nat) -> char {
    (48 + d) as char
}

/// Decimal text of a number, without leading zeros.
pub open spec fn decimal(n: nat) -> Seq<char>
    decreases n,
{
    if n < 10 {
        seq![digit_char(n)]
    } else {
        decimal(n / 10).push(digit_char(n % 10))
    }
}

/// Decimal text of a number that may be negative.
pub open spec fn signed_decimal(n: int) -> Seq<char> {
    if n < 0 {
        seq!['-'] + decimal((-n) as nat)
    } else {
        decimal(n as nat)
    }
}

/// `n / 1000` with exactly three decimals.
pub open spec fn thousandths(n: nat) -> Seq<char> {
    decimal(n / 1000) + seq!['.', digit_char((n / 100) % 10), digit_char((n / 10) % 10), digit_char(
        n % 10,
    )]
}

/// `n / 10` with exactly one decimal.
pub open spec fn tenths(n: nat) -> Seq<char> {
    decimal(n / 10) + seq!['.', digit_char(n % 10)]
}

/// Text of a truth value.
pub open spec fn truth(b: bool) -> Seq<char> {
    if b {
        "true"@
    } else {
        "false"@
    }
}

/// `a / b` rounded to the nearest integer, halves up.
pub open spec fn rounded(a: nat, b: nat) -> nat {
    ((2 * a + b) / (2 * b)) as nat
}

fn digit_text(d: u8) -> (r: &'static str)
    requires
        d < 10,
    ensures
        r@ == seq![digit_char(d as nat)],
{
    proof {
        reveal_strlit("0");
        reveal_strlit("1");
        reveal_strlit("2");
        reveal_strlit("3");
        reveal_strlit("4");
        reveal_strlit("5");
        reveal_strlit("6");
        reveal_strlit("7");
        reveal_strlit("8");
        reveal_strlit("9");
    }
    match d {
        0 => "0",
        1 => "1",
        2 => "2",
        3 => "3",
        4 => "4",
        5 => "5",
        6 => "6",
        7 => "7",
        8 => "8",
        _ => "9",
    }
}

/// Append the decimal text of `n`.
pub fn push_decimal(out: &mut String, n: u128)
    ensures
        final(out)@ == old(out)@ + decimal(n as nat),
    decreases n,
{
    if n >= 10 {
        push_decimal(out, n / 10);
    }
    out.append(digit_text((n % 10) as u8));
}

/// Append the decimal text of a number that may be negative.
pub fn push_signed(out: &mut String, n: i64)
    ensures
        final(out)@ == old(out)@ + signed_decimal(n as int),
{
    if n < 0 {
        proof {
            reveal_strlit("-");
        }
        out.append("-");
        push_decimal(out, (-(n as i128)) as u128);
        assert(out@ == old(out)@ + signed_decimal(n as int));
    } else {
        push_decimal(out, n as u128);
    }
}

/// Append `n / 1000` with three decimals.
pub fn push_thousandths(out: &mut String, n: u128)
    ensures
        final(out)@ == old(out)@ + thousandths(n as nat),
{
    push_decimal(out, n / 1000);
    proof {
        reveal_strlit(".");
    }
    out.append(".");
    out.append(digit_text(((n / 100) % 10) as u8));
    out.append(digit_text(((n / 10) % 10) as u8));
    out.append(digit_text((n % 10) as u8));
    assert(out@ == old(out)@ + thousandths(n as nat));
}

/// Append the text of a truth value.
pub fn push_truth(out: &mut String, b: bool)
    ensures
        final(out)@ == old(out)@ + truth(b),
{
    if b {
        out.append("true");
    } else {
        out.append("false");
    }
}

/// Append `n / 10` with one decimal.
pub fn push_tenths(out: &mut String, n: u128)
    ensures
        final(out)@ == old(out)@ + tenths(n as nat),
{
    push_decimal(out, n / 10);
    proof {
        reveal_strlit(".");
    }
    out.append(".");
    out.append(digit_text((n % 10) as u8));
    assert(out@ == old(out)@ + tenths(n as nat));
}

// ---------------------------------------------------------------------------
// Parsing
// ---------------------------------------------------------------------------

/// An ASCII decimal digit.
pub open spec fn is_digit(c: char) -> bool {
    '0' <= c <= '9'
}

/// Every character is an ASCII decimal digit.
pub open spec fn all_digits(s: Seq<char>) -> bool {
    forall|i: int| 0 <= i < s.len() ==> is_digit(#[trigger] s[i])
}

/// Number that a sequence of digits denotes.
pub open spec fn digits_value(s: Seq<char>) -> nat
    decreases s.len(),
{
    if s.len() == 0 {
        0
    } else {
        10 * digits_value(s.drop_last()) + ((s.last() as int) - 48) as nat
    }
}

/// Text after an optional leading plus sign.
pub open spec fn unsigned_part(s: Seq<char>) -> Seq<char> {
    if s.len() > 0 && s[0] == '+' {
        s.drop_first()
    } else {
        s
    }
}

/// Number that a text denotes: an optional plus sign, then digits only, at
/// least one of them, with a value of at most `max`.
pub open spec fn parsed(s: Seq<char>, max: nat) -> Option<nat> {
    let body = unsigned_part(s);
    if body.len() > 0 && all_digits(body) && digits_value(body) <= max {
        Some(digits_value(body))
    } else {
        None
    }
}

proof fn digits_value_grows(s: Seq<char>, n: int)
    requires
        all_digits(s),
        0 <= n <= s.len(),
    ensures
        digits_value(s.take(n)) <= digits_value(s),
    decreases s.len() - n,
{
    if n < s.len() {
        digits_value_grows(s, n + 1);
        assert(s.take(n + 1).drop_last() =~= s.take(n));
        assert(is_digit(s[n]));
    } else {
        assert(s.take(n) =~= s);
    }
}

/// Decimal text consists of digits and denotes the number it was made of.
pub proof fn decimal_denotes(n: nat)
    ensures
        decimal(n).len() > 0,
        all_digits(decimal(n)),
        digits_value(decimal(n)) == n,
    decreases n,
{
    if n < 10 {
        assert(decimal(n).drop_last() =~= Seq::empty());
        assert(digits_value(Seq::<char>::empty()) == 0);
    } else {
        decimal_denotes(n / 10);
        assert(decimal(n).drop_last() =~= decimal(n / 10));
    }
}

/// Parsing gives back what was rendered.
pub proof fn parsing_undoes_rendering(n: nat, max: nat)
    requires
        n <= max,
    ensures
        parsed(decimal(n), max) == Some(n),
{
    decimal_denotes(n);
    assert(is_digit(decimal(n)[0]));
    assert(unsigned_part(decimal(n)) == decimal(n));
}

/// Characters of a text.
pub fn chars_of(s: &str) -> (r: Vec<char>)
    ensures
        r@ == s@,
{
    let mut r: Vec<char> = Vec::new();
    for c in it: s.chars()
        invariant
            r.len() == it.index(),
            forall|i: int| 0 <= i < r.len() ==> r[i] == it.seq()[i],
    {
        r.push(c);
    }
    r
}

/// Number in the characters `from..to`, by the rules of `parsed`.
pub fn parse_chars(s: &Vec<char>, from: usize, to: usize, max: u64) -> (r: Option<u64>)
    requires
        from <= to <= s.len(),
    ensures
        match r {
            Some(n) => parsed(s@.subrange(from as int, to as int), max as nat) == Some(n as nat),
            None => parsed(s@.subrange(from as int, to as int), max as nat) is None,
        },
{
    let ghost part = s@.subrange(from as int, to as int);
    let ghost body = unsigned_part(part);
    let start: usize = if from < to && s[from] == '+' {
        from + 1
    } else {
        from
    };
    assert(body =~= s@.subrange(start as int, to as int));
    if start == to {
        return None;
    }
    let mut n: u64 = 0;
    let mut i: usize = start;
    while i < to
        invariant
            start <= i <= to <= s.len(),
            body == s@.subrange(start as int, to as int),
            body == unsigned_part(part),
            part == s@.subrange(from as int, to as int),
            start < to,
            all_digits(body.take(i - start)),
            n == digits_value(body.take(i - start)),
            n <= max,
        decreases to - i,
    {
        let c: char = s[i];
        assert(c == body[i - start]);
        if !(c >= '0' && c <= '9') {
            assert(!all_digits(body));
            return None;
        }
        let d: u64 = c as u64 - 48;
        let wide: u128 = 10 * (n as u128) + d as u128;
        proof {
            let now = body.take(i - start + 1);
            assert(now.drop_last() =~= body.take(i - start));
            assert(now.last() == c);
            assert(wide == digits_value(now));
            assert(all_digits(now)) by {
                assert forall|k: int| 0 <= k < now.len() implies is_digit(#[trigger] now[k]) by {
                    if k < i - start {
                        assert(now[k] == body.take(i - start)[k]);
                    }
                }
            }
            if wide > max && all_digits(body) {
                digits_value_grows(body, i - start + 1);
            }
        }
        if wide > max as u128 {
            return None;
        }
        n = wide as u64;
        i += 1;
    }
    assert(body.take(to - start) =~= body);
    Some(n)
}

/// Number that a text denotes, by the rules of `parsed`.
pub fn parse_u64(s: &str) -> (r: Option<u64>)
    ensures
        match r {
            Some(n) => parsed(s@, u64::MAX as nat) == Some(n as nat),
            None => parsed(s@, u64::MAX as nat) is None,
        },
{
    let chars: Vec<char> = chars_of(s);
    assert(chars@.subrange(0, chars.len() as int) =~= s@);
    parse_chars(&chars, 0, chars.len(), u64::MAX)
}

/// Number that a text denotes, by the rules of `parsed`.
pub fn parse_u32(s: &str) -> (r: Option<u32>)
    ensures
        match r {
            Some(n) => parsed(s@, u32::MAX as nat) == Some(n as nat),
            None => parsed(s@, u32::MAX as nat) is None,
        },
{
    let chars: Vec<char> = chars_of(s);
    assert(chars@.subrange(0, chars.len() as int) =~= s@);
    match parse_chars(&chars, 0, chars.len(), u32::MAX as u64) {
        Some(n) => Some(n as u32),
        None => None,
    }
}

// ---------------------------------------------------------------------------
// Lists
// ---------------------------------------------------------------------------

/// Unicode white space.
pub open spec fn is_space(c: char) -> bool {
    let u = c as int;
    ||| 0x9 <= u <= 0xd
    ||| u == 0x20
    ||| u == 0x85
    ||| u == 0xa0
    ||| u == 0x1680
    ||| 0x2000 <= u <= 0x200a
    ||| u == 0x2028
    ||| u == 0x2029
    ||| u == 0x202f
    ||| u == 0x205f
    ||| u == 0x3000
}

fn is_space_char(c: char) -> (r: bool)
    ensures
        r == is_space(c),
{
    let u: u32 = c as u32;
    (u >= 0x9 && u <= 0xd) || u == 0x20 || u == 0x85 || u == 0xa0 || u == 0x1680 || (u >= 0x2000 && u
        <= 0x200a) || u == 0x2028 || u == 0x2029 || u == 0x202f || u == 0x205f || u == 0x3000
}

/// Text without leading white space.
pub open spec fn trim_start(s: Seq<char>) -> Seq<char>
    decreases s.len(),
{
    if s.len() > 0 && is_space(s[0]) {
        trim_start(s.drop_first())
    } else {
        s
    }
}

/// Text without trailing white space.
pub open spec fn trim_end(s: Seq<char>) -> Seq<char>
    decreases s.len(),
{
    if s.len() > 0 && is_space(s.last()) {
        trim_end(s.drop_last())
    } else {
        s
    }
}

/// Text without white space around it.
pub open spec fn trim(s: Seq<char>) -> Seq<char> {
    trim_end(trim_start(s))
}

/// Fields between commas. A text without a comma is one field.
pub open spec fn fields(s: Seq<char>) -> Seq<Seq<char>>
    decreases s.len(),
{
    if s.len() == 0 {
        seq![Seq::empty()]
    } else {
        let before = fields(s.drop_last());
        if s.last() == ',' {
            before.push(Seq::empty())
        } else {
            before.update(before.len() - 1, before.last().push(s.last()))
        }
    }
}

/// Numbers among the fields, in order. Fields that denote none are skipped.
pub open spec fn field_numbers(fields: Seq<Seq<char>>) -> Seq<u64>
    decreases fields.len(),
{
    if fields.len() == 0 {
        Seq::empty()
    } else {
        let before = field_numbers(fields.drop_last());
        match parsed(trim(fields.last()), u64::MAX as nat) {
            Some(n) => before.push(n as u64),
            None => before,
        }
    }
}

fn trim_bounds(s: &Vec<char>, from: usize, to: usize) -> (r: (usize, usize))
    requires
        from <= to <= s.len(),
    ensures
        from <= r.0 <= r.1 <= to,
        s@.subrange(r.0 as int, r.1 as int) == trim(s@.subrange(from as int, to as int)),
{
    let mut a: usize = from;
    while a < to && is_space_char(s[a])
        invariant
            from <= a <= to <= s.len(),
            trim_start(s@.subrange(a as int, to as int)) == trim_start(
                s@.subrange(from as int, to as int),
            ),
        decreases to - a,
    {
        assert(s@.subrange(a as int, to as int).drop_first() =~= s@.subrange(a + 1, to as int));
        a += 1;
    }
    assert(trim_start(s@.subrange(a as int, to as int)) == s@.subrange(a as int, to as int));
    let mut b: usize = to;
    while b > a && is_space_char(s[b - 1])
        invariant
            from <= a <= b <= to <= s.len(),
            trim_end(s@.subrange(a as int, b as int)) == trim_end(s@.subrange(a as int, to as int)),
        decreases b,
    {
        assert(s@.subrange(a as int, b as int).drop_last() =~= s@.subrange(a as int, b - 1));
        b -= 1;
    }
    assert(trim_end(s@.subrange(a as int, b as int)) == s@.subrange(a as int, b as int));
    (a, b)
}

/// Numbers in a comma separated list, in order. Fields that denote no number
/// are skipped.
pub fn parse_list(s: &str) -> (r: Vec<u64>)
    ensures
        r@ == field_numbers(fields(s@)),
{
    let chars: Vec<char> = chars_of(s);
    let mut out: Vec<u64> = Vec::new();
    let mut start: usize = 0;
    let mut i: usize = 0;
    proof {
        assert(chars@.take(0) =~= Seq::empty());
        assert(fields(chars@.take(0)).drop_last() =~= Seq::empty());
        assert(fields(chars@.take(0)).last() =~= chars@.subrange(0, 0));
    }
    while i < chars.len()
        invariant
            start <= i <= chars.len(),
            fields(chars@.take(i as int)).len() > 0,
            out@ == field_numbers(fields(chars@.take(i as int)).drop_last()),
            fields(chars@.take(i as int)).last() == chars@.subrange(start as int, i as int),
        decreases chars.len() - i,
    {
        let ghost before = fields(chars@.take(i as int));
        let ghost now = fields(chars@.take(i + 1));
        assert(chars@.take(i + 1).drop_last() =~= chars@.take(i as int));
        if chars[i] == ',' {
            let (a, b): (usize, usize) = trim_bounds(&chars, start, i);
            let n: Option<u64> = parse_chars(&chars, a, b, u64::MAX);
            match n {
                Some(n) => {
                    out.push(n);
                },
                None => {},
            }
            start = i + 1;
            assert(now.drop_last() =~= before);
            assert(now.last() =~= chars@.subrange(i + 1, i + 1));
        } else {
            assert(now.drop_last() =~= before.drop_last());
            assert(now.last() =~= chars@.subrange(start as int, i + 1));
        }
        i += 1;
    }
    assert(chars@.take(i as int) =~= s@);
    let (a, b): (usize, usize) = trim_bounds(&chars, start, i);
    let n: Option<u64> = parse_chars(&chars, a, b, u64::MAX);
    match n {
        Some(n) => {
            out.push(n);
        },
        None => {},
    }
    out
}

/// Whether two texts are the same.
pub fn same_text(a: &str, b: &str) -> (r: bool)
    ensures
        r == (a@ == b@),
{
    let a: String = a.to_owned();
    let b: String = b.to_owned();
    a == b
}

// ---------------------------------------------------------------------------
// What the texts say
// ---------------------------------------------------------------------------

/// Decimal text has no leading zero, but for the number zero itself, and no
/// two numbers share a text.
pub proof fn decimals_are_unique(a: nat, b: nat)
    ensures
        decimal(a)[0] == '0' ==> a == 0,
        decimal(a) == decimal(b) ==> a == b,
    decreases a,
{
    decimal_denotes(a);
    decimal_denotes(b);
    if a >= 10 {
        decimals_are_unique(a / 10, b);
        decimal_denotes(a / 10);
        assert(decimal(a)[0] == decimal(a / 10)[0]);
    }
}

/// A negative number is told by a minus sign before the text of its size.
pub proof fn signs_come_first(n: int)
    ensures
        n < 0 <==> signed_decimal(n)[0] == '-',
        n < 0 ==> parsed(signed_decimal(n).drop_first(), (-n) as nat) == Some((-n) as nat),
        n >= 0 ==> parsed(signed_decimal(n), n as nat) == Some(n as nat),
{
    if n < 0 {
        decimal_denotes((-n) as nat);
        assert(signed_decimal(n).drop_first() =~= decimal((-n) as nat));
        parsing_undoes_rendering((-n) as nat, (-n) as nat);
    } else {
        decimal_denotes(n as nat);
        assert(is_digit(decimal(n as nat)[0]));
        parsing_undoes_rendering(n as nat, n as nat);
    }
}

/// A text without its character at a place.
pub open spec fn without(s: Seq<char>, at: int) -> Seq<char> {
    s.take(at) + s.skip(at + 1)
}

proof fn digits_join(s: Seq<char>, c: char)
    ensures
        digits_value(s.push(c)) == 10 * digits_value(s) + ((c as int) - 48) as nat,
{
    assert(s.push(c).drop_last() =~= s);
}

/// A number of thousandths has its point before the last three digits, and
/// denotes that number without it. The same goes for tenths and one digit.
pub proof fn points_stand_in_place(n: nat)
    ensures
        ({
            let s = thousandths(n);
            let at = s.len() - 4;
            &&& at >= 1 && s[at] == '.'
            &&& all_digits(without(s, at))
            &&& digits_value(without(s, at)) == n
        }),
        ({
            let s = tenths(n);
            let at = s.len() - 2;
            &&& at >= 1 && s[at] == '.'
            &&& all_digits(without(s, at))
            &&& digits_value(without(s, at)) == n
        }),
{
    let whole = decimal(n / 1000);
    decimal_denotes(n / 1000);
    let (a, b, c) = (digit_char((n / 100) % 10), digit_char((n / 10) % 10), digit_char(n % 10));
    let s = thousandths(n);
    assert(without(s, s.len() - 4) =~= whole.push(a).push(b).push(c));
    digits_join(whole, a);
    digits_join(whole.push(a), b);
    digits_join(whole.push(a).push(b), c);
    assert forall|i: int| 0 <= i < whole.len() implies is_digit(#[trigger] whole[i]) by {}
    let t = tenths(n);
    decimal_denotes(n / 10);
    assert(without(t, t.len() - 2) =~= decimal(n / 10).push(c));
    digits_join(decimal(n / 10), c);
    assert(n == 1000 * (n / 1000) + 100 * ((n / 100) % 10) + 10 * ((n / 10) % 10) + n % 10);
}

/// Truth is told by its own word.
pub proof fn truth_is_told(b: bool)
    ensures
        b <==> truth(b).len() == 4,
        b <==> truth(b)[0] == 't',
        !b <==> truth(b).len() == 5,
        !b <==> truth(b)[0] == 'f',
{
    reveal_strlit("true");
    reveal_strlit("false");
}

/// A rounded quotient is off by at most a half, and by less than a half where
/// it is too small.
pub proof fn rounding_is_near(a: nat, b: nat)
    requires
        b > 0,
    ensures
        2 * (rounded(a, b) * b) <= 2 * a + b,
        2 * a < 2 * (rounded(a, b) * b) + b,
        a % b == 0 ==> rounded(a, b) * b == a,
{
    let (x, d) = ((2 * a + b) as int, (2 * b) as int);
    let r = rounded(a, b) as int;
    vstd::arithmetic::div_mod::lemma_fundamental_div_mod(x, d);
    vstd::arithmetic::div_mod::lemma_mod_bound(x, d);
    assert(d * r == 2 * (r * b)) by (nonlinear_arith)
        requires
            d == 2 * b,
    ;
    if a % b == 0 {
        vstd::arithmetic::div_mod::lemma_fundamental_div_mod(a as int, b as int);
        let q = a as int / b as int;
        assert(r == q) by (nonlinear_arith)
            requires
                a == b * q,
                b > 0,
                2 * (r * b) <= 2 * a + b,
                2 * a < 2 * (r * b) + b,
        ;
        assert(r * b == b * q) by (nonlinear_arith)
            requires
                r == q,
        ;
    }
}

/// A text that holds anything but digits, behind one plus sign at most, denotes
/// no number, and neither does one without a digit. Leading zeros and a plus
/// sign change no number, and a larger bound rules out none.
pub proof fn only_digits_denote(s: Seq<char>, max: nat, larger: nat, i: int)
    requires
        max <= larger,
        0 <= i < s.len(),
    ensures
        !is_digit(s[i]) && (i > 0 || s[0] != '+') ==> parsed(s, max) is None,
        parsed(Seq::empty(), max) is None,
        parsed(seq!['+'], max) is None,
        s[0] != '+' ==> parsed(seq!['+'] + s, max) == parsed(s, max),
        parsed(s, max) is Some ==> parsed(s, larger) == parsed(s, max),
        parsed(s, max) matches Some(n) ==> n <= max && digits_value(unsigned_part(s)) == n,
{
    let body = unsigned_part(s);
    if !is_digit(s[i]) && (i > 0 || s[0] != '+') {
        if s[0] == '+' {
            assert(body[i - 1] == s[i]);
        } else {
            assert(body[i] == s[i]);
        }
    }
    assert(unsigned_part(seq!['+']) =~= Seq::empty());
    assert(unsigned_part(seq!['+'] + s) =~= s);
}

/// Trimming takes white space from both ends and nothing else: what is left is
/// a part of the text, begins and ends with no white space, and all that was
/// around it was white space.
pub proof fn trimming_takes_white_space(s: Seq<char>) -> (r: (int, int))
    ensures
        0 <= r.0 <= r.1 <= s.len(),
        trim(s) == s.subrange(r.0, r.1),
        forall|i: int| 0 <= i < r.0 || r.1 <= i < s.len() ==> is_space(#[trigger] s[i]),
        r.0 < r.1 ==> !is_space(s[r.0]) && !is_space(s[r.1 - 1]),
{
    let a = leading(s);
    let t = trim_start(s);
    let b = trailing(t);
    assert(trim(s) =~= s.subrange(a, a + b));
    assert forall|i: int| 0 <= i < a || a + b <= i < s.len() implies is_space(#[trigger] s[i]) by {
        if i >= a {
            assert(t[i - a] == s[i]);
        }
    }
    if b > 0 {
        assert(t[0] == s[a] && t[b - 1] == s[a + b - 1]);
    }
    (a, a + b)
}

proof fn leading(s: Seq<char>) -> (a: int)
    ensures
        0 <= a <= s.len(),
        trim_start(s) == s.skip(a),
        forall|i: int| 0 <= i < a ==> is_space(#[trigger] s[i]),
        a < s.len() ==> !is_space(s[a]),
    decreases s.len(),
{
    if s.len() > 0 && is_space(s[0]) {
        let rest = s.drop_first();
        let a = leading(rest);
        assert(rest.skip(a) =~= s.skip(a + 1));
        assert forall|i: int| 0 <= i < a + 1 implies is_space(#[trigger] s[i]) by {
            if i > 0 {
                assert(s[i] == rest[i - 1]);
            }
        }
        if a < rest.len() {
            assert(s[a + 1] == rest[a]);
        }
        a + 1
    } else {
        assert(s.skip(0) =~= s);
        0
    }
}

proof fn trailing(s: Seq<char>) -> (b: int)
    ensures
        0 <= b <= s.len(),
        trim_end(s) == s.take(b),
        forall|i: int| b <= i < s.len() ==> is_space(#[trigger] s[i]),
        b > 0 ==> !is_space(s[b - 1]),
    decreases s.len(),
{
    if s.len() > 0 && is_space(s.last()) {
        let rest = s.drop_last();
        let b = trailing(rest);
        assert(rest.take(b) =~= s.take(b));
        assert forall|i: int| b <= i < s.len() implies is_space(#[trigger] s[i]) by {
            if i < rest.len() {
                assert(s[i] == rest[i]);
            }
        }
        if b > 0 {
            assert(s[b - 1] == rest[b - 1]);
        }
        b
    } else {
        assert(s.take(s.len() as int) =~= s);
        s.len() as int
    }
}

/// Fields with commas between them.
pub open spec fn joined(fields: Seq<Seq<char>>) -> Seq<char>
    decreases fields.len(),
{
    if fields.len() == 0 {
        Seq::empty()
    } else if fields.len() == 1 {
        fields[0]
    } else {
        joined(fields.drop_last()) + seq![','] + fields.last()
    }
}

/// Splitting a text at its commas loses nothing: no field holds a comma, and
/// the fields with commas between them are the text.
pub proof fn fields_join_again(s: Seq<char>)
    ensures
        fields(s).len() >= 1,
        joined(fields(s)) == s,
        forall|k: int, i: int|
            0 <= k < fields(s).len() && 0 <= i < fields(s)[k].len() ==> #[trigger] fields(s)[k][i]
                != ',',
    decreases s.len(),
{
    let f = fields(s);
    if s.len() == 0 {
        assert(f[0] =~= Seq::empty());
        assert(joined(f) =~= s);
    } else {
        let t = s.drop_last();
        fields_join_again(t);
        let before = fields(t);
        if s.last() == ',' {
            assert(f.drop_last() =~= before);
            assert(joined(f) =~= s);
        } else {
            let n = before.len() as int;
            let last = before.last().push(s.last());
            assert(f.last() == last);
            if n == 1 {
                assert(joined(f) =~= s);
            } else {
                assert(f.drop_last() =~= before.drop_last());
                assert(joined(before) == joined(before.drop_last()) + seq![','] + before.last());
                assert(joined(f) == joined(f.drop_last()) + seq![','] + last);
                assert(joined(f) =~= t.push(s.last()));
                assert(joined(f) =~= s);
            }
            assert forall|k: int, i: int|
                0 <= k < f.len() && 0 <= i < f[k].len() implies #[trigger] f[k][i] != ',' by {
                if k < n - 1 {
                    assert(f[k] == before[k]);
                } else if i < before.last().len() {
                    assert(f[k][i] == before[n - 1][i]);
                }
            }
        }
    }
}

/// The numbers of a list are those of its fields, in order: a field adds its
/// number behind those of the fields before it, or nothing where it denotes
/// none.
pub proof fn lists_add_field_by_field(a: Seq<Seq<char>>, b: Seq<Seq<char>>, field: Seq<char>)
    ensures
        field_numbers(a + b) == field_numbers(a) + field_numbers(b),
        match parsed(trim(field), u64::MAX as nat) {
            Some(n) => field_numbers(seq![field]) == seq![n as u64],
            None => field_numbers(seq![field]) == Seq::<u64>::empty(),
        },
    decreases b.len(),
{
    assert(seq![field].drop_last() =~= Seq::empty());
    assert(field_numbers(seq![field].drop_last()) =~= Seq::empty());
    if b.len() == 0 {
        assert(a + b =~= a);
        assert(field_numbers(a) + field_numbers(b) =~= field_numbers(a));
    } else {
        lists_add_field_by_field(a, b.drop_last(), field);
        assert((a + b).drop_last() =~= a + b.drop_last());
        assert(field_numbers(a + b) =~= field_numbers(a) + field_numbers(b));
    }
}

/// A text stands somewhere within another.
#[verifier::opaque]
pub open spec fn says(text: Seq<char>, part: Seq<char>) -> bool {
    exists|i: int|
        0 <= i && i + part.len() <= text.len() && #[trigger] text.subrange(i, i + part.len())
            == part
}

/// A text says each of its parts.
pub proof fn texts_say_their_parts(before: Seq<char>, part: Seq<char>, after: Seq<char>)
    ensures
        says(before + part + after, part),
{
    reveal(says);
    let text = before + part + after;
    let i = before.len() as int;
    assert(text.subrange(i, i + part.len()) =~= part);
}

/// A text starts another.
#[verifier::opaque]
pub open spec fn starts(text: Seq<char>, start: Seq<char>) -> bool {
    start.len() <= text.len() && text.take(start.len() as int) == start
}

/// A text starts itself, and says what its start says.
pub proof fn starts_are_said(text: Seq<char>, start: Seq<char>, part: Seq<char>)
    ensures
        starts(text, text),
        starts(text, start) && says(start, part) ==> says(text, part),
{
    reveal(says);
    reveal(starts);
    assert(text.take(text.len() as int) =~= text);
    if starts(text, start) && says(start, part) {
        let i = choose|i: int|
            0 <= i && i + part.len() <= start.len() && #[trigger] start.subrange(i, i + part.len())
                == part;
        assert(text.subrange(i, i + part.len()) =~= start.subrange(i, i + part.len())) by {
            assert forall|k: int| 0 <= k < start.len() implies text[k] == start[k] by {
                assert(text.take(start.len() as int)[k] == text[k]);
            }
        }
    }
}

/// What starts with two texts starts with the first of them.
pub proof fn starts_start_with_their_starts(text: Seq<char>, a: Seq<char>, b: Seq<char>)
    requires
        starts(text, a + b),
    ensures
        starts(text, a),
{
    reveal(starts);
    assert(text.take(a.len() as int) =~= (a + b).take(a.len() as int));
    assert((a + b).take(a.len() as int) =~= a);
}

/// A text that ends with a name, a value and what follows says these three.
pub proof fn ends_are_said(before: Seq<char>, name: Seq<char>, value: Seq<char>, next: Seq<char>)
    ensures
        says(before + name + value + next, name + value + next),
        says(before + name + value, name + value),
        says(name + value + next, name + value + next),
{
    let none = Seq::<char>::empty();
    texts_say_their_parts(before, name + value + next, none);
    assert(before + (name + value + next) + none =~= before + name + value + next);
    texts_say_their_parts(before, name + value, none);
    assert(before + (name + value) + none =~= before + name + value);
    texts_say_their_parts(none, name + value + next, none);
    assert(none + (name + value + next) + none =~= name + value + next);
}

/// White space is the tab and the other four breaks that follow it, the space,
/// and what Unicode adds to them. No digit, sign, comma or letter is, and
/// neither is a space without width.
pub proof fn white_space_is_white(c: char)
    ensures
        is_space(c) <==> c == '\t' || c == '\n' || c == '\u{b}' || c == '\u{c}' || c == '\r'
            || c == ' ' || c == '\u{85}' || c == '\u{a0}' || c == '\u{1680}' || c == '\u{2000}'
            || c == '\u{2001}' || c == '\u{2002}' || c == '\u{2003}' || c == '\u{2004}'
            || c == '\u{2005}' || c == '\u{2006}' || c == '\u{2007}' || c == '\u{2008}'
            || c == '\u{2009}' || c == '\u{200a}' || c == '\u{2028}' || c == '\u{2029}'
            || c == '\u{202f}' || c == '\u{205f}' || c == '\u{3000}',
        is_digit(c) ==> !is_space(c),
        !is_space('+') && !is_space('-') && !is_space(',') && !is_space('.'),
        'a' <= c <= 'z' || 'A' <= c <= 'Z' ==> !is_space(c),
        !is_space('\u{200b}'),
{
}

} // verus!
