//! Text building blocks: decimal numbers, padding, trimming and joining.

use vstd::prelude::*;

verus! {

broadcast use vstd::string::group_string_axioms;

/// The digit `d` as a character, for `0 <= d <= 9`.
pub open spec fn digit_char(d: int) -> char {
    (48 + d) as char
}

/// `n` in decimal, without leading zeros.
pub open spec fn decimal(n: nat) -> Seq<char>
    decreases n,
{
    if n < 10 {
        seq![digit_char(n as int)]
    } else {
        decimal(n / 10).push(digit_char((n % 10) as int))
    }
}

/// `s` with zeros put in front of it until it has `width` characters.
pub open spec fn zero_filled(s: Seq<char>, width: nat) -> Seq<char> {
    if s.len() < width {
        Seq::new((width - s.len()) as nat, |i: int| '0') + s
    } else {
        s
    }
}

/// `n` in decimal, filled with zeros up to `width` characters. A minus sign stands in front of
/// the zeros and counts as one of the characters.
pub open spec fn padded_decimal(n: int, width: nat) -> Seq<char> {
    if n < 0 {
        seq!['-'] + zero_filled(
            decimal((-n) as nat),
            if width == 0 {
                0
            } else {
                (width - 1) as nat
            },
        )
    } else {
        zero_filled(decimal(n as nat), width)
    }
}

/// Appends one digit.
fn append_digit(out: &mut String, d: u8)
    requires
        d < 10,
    ensures
        final(out)@ == old(out)@.push(digit_char(d as int)),
{
    proof {
        reveal_strlit("0");
        reveal_strlit("1");
        reveal_strlit("2");
        reveal_strlit("3");
        reveal_strlit("4");
        reveal_strlit("5");
        reveal_strlit("6");
        reveal_strlit("7");
        reveal_strlit("8");
        reveal_strlit("9");
    }
    let text = match d {
        0 => "0",
        1 => "1",
        2 => "2",
        3 => "3",
        4 => "4",
        5 => "5",
        6 => "6",
        7 => "7",
        8 => "8",
        _ => "9",
    };
    assert(text@ =~= seq![digit_char(d as int)]);
    out.append(text);
    assert(out@ =~= old(out)@.push(digit_char(d as int)));
}

/// Appends `n` in decimal.
pub fn append_decimal(out: &mut String, n: u128)
    ensures
        final(out)@ == old(out)@ + decimal(n as nat),
    decreases n,
{
    if n >= 10 {
        append_decimal(out, n / 10);
    }
    append_digit(out, (n % 10) as u8);
    assert(out@ =~= old(out)@ + decimal(n as nat));
}

/// `n` in decimal.
pub fn decimal_text(n: u128) -> (text: String)
    ensures
        text@ == decimal(n as nat),
{
    let mut out = String::new();
    append_decimal(&mut out, n);
    assert(out@ =~= decimal(n as nat));
    out
}

/// Appends `n` in decimal, filled with zeros up to `width` characters.
fn append_filled(out: &mut String, n: u128, width: usize)
    ensures
        final(out)@ == old(out)@ + zero_filled(decimal(n as nat), width as nat),
{
    let digits = decimal_text(n);
    let len: usize = digits.as_str().unicode_len();
    let mut missing: usize = if len < width {
        width - len
    } else {
        0
    };
    let ghost total = missing;
    let ghost start = out@;
    while missing > 0
        invariant
            missing <= total,
            out@ == start + Seq::new((total - missing) as nat, |i: int| '0'),
        decreases missing,
    {
        append_digit(out, 0);
        missing = missing - 1;
        assert(out@ =~= start + Seq::new((total - missing) as nat, |i: int| '0'));
    }
    out.append(digits.as_str());
    assert(out@ =~= start + zero_filled(decimal(n as nat), width as nat));
}

/// Appends `n` as `padded_decimal` says.
pub fn append_padded(out: &mut String, n: i64, width: usize)
    ensures
        final(out)@ == old(out)@ + padded_decimal(n as int, width as nat),
{
    if n < 0 {
        proof {
            reveal_strlit("-");
        }
        out.append("-");
        let size: u128 = (-(n as i128)) as u128;
        append_filled(
            out,
            size,
            if width == 0 {
                0
            } else {
                width - 1
            },
        );
        assert(out@ =~= old(out)@ + padded_decimal(n as int, width as nat));
    } else {
        append_filled(out, n as u128, width);
    }
}

/// Every character is a decimal digit and there is at least one.
pub open spec fn is_digits(s: Seq<char>) -> bool {
    &&& s.len() > 0
    &&& forall|i: int| 0 <= i < s.len() ==> '0' <= #[trigger] s[i] <= '9'
}

/// The number that the digits of `s` write.
pub open spec fn digits_value(s: Seq<char>) -> nat
    decreases s.len(),
{
    if s.len() == 0 {
        0
    } else {
        digits_value(s.drop_last()) * 10 + (s.last() as nat - 48) as nat
    }
}

/// What `s` holds after one leading plus sign, or `s` where it has none.
pub open spec fn without_plus(s: Seq<char>) -> Seq<char> {
    if s.len() > 0 && s[0] == '+' {
        s.skip(1)
    } else {
        s
    }
}

/// The number that `s` writes: an optional plus sign and then digits only, at most `max`.
pub open spec fn parse_unsigned(s: Seq<char>, max: nat) -> Option<nat> {
    let digits = without_plus(s);
    if is_digits(digits) && digits_value(digits) <= max {
        Some(digits_value(digits))
    } else {
        None
    }
}

proof fn digits_value_grows(s: Seq<char>, n: int)
    requires
        0 <= n <= s.len(),
    ensures
        digits_value(s.take(n)) <= digits_value(s),
    decreases s.len() - n,
{
    if n < s.len() {
        digits_value_grows(s, n + 1);
        assert(s.take(n + 1).drop_last() =~= s.take(n));
    } else {
        assert(s.take(n) =~= s);
    }
}

/// A number of at most `max` that is written in decimal reads back as itself.
pub proof fn decimal_reads_back(n: nat, max: nat)
    requires
        n <= max,
    ensures
        parse_unsigned(decimal(n), max) == Some(n),
{
    decimal_is_digits(n);
    assert(decimal(n)[0] != '+');
}

proof fn decimal_is_digits(n: nat)
    ensures
        is_digits(decimal(n)),
        digits_value(decimal(n)) == n,
    decreases n,
{
    if n < 10 {
        assert(decimal(n).drop_last() =~= seq![]);
        assert(digits_value(seq![]) == 0);
    } else {
        decimal_is_digits(n / 10);
        assert(decimal(n).drop_last() =~= decimal(n / 10));
    }
}

/// How many digits the shorter numbers have.
pub proof fn decimal_length(n: nat)
    ensures
        n < 10 ==> decimal(n).len() == 1,
        n < 100 ==> decimal(n).len() <= 2,
        n < 10_000 ==> decimal(n).len() <= 4,
        n <= u64::MAX ==> decimal(n).len() <= 20,
{
    reveal_with_fuel(decimal, 21);
}

/// Reads an unsigned number that is at most `max`.
pub fn parse_at_most(s: &str, max: u64) -> (number: Option<u64>)
    ensures
        match number {
            Some(n) => parse_unsigned(s@, max as nat) == Some(n as nat),
            None => parse_unsigned(s@, max as nat) is None,
        },
{
    let len: usize = s.unicode_len();
    let start: usize = if len > 0 && s.get_char(0) == '+' {
        1
    } else {
        0
    };
    let ghost digits = without_plus(s@);
    assert(digits =~= s@.skip(start as int));
    if start >= len {
        return None;
    }
    let mut value: u64 = 0;
    let mut i: usize = start;
    assert(digits.take(0) =~= Seq::empty());
    while i < len
        invariant
            start <= i <= len,
            len == s@.len(),
            digits == s@.skip(start as int),
            digits == without_plus(s@),
            forall|j: int| 0 <= j < i - start ==> '0' <= #[trigger] digits[j] <= '9',
            value == digits_value(digits.take(i - start)),
            value <= max,
        decreases len - i,
    {
        let c = s.get_char(i);
        assert(c == digits[i - start]);
        if c < '0' || c > '9' {
            return None;
        }
        let d: u64 = (c as u32 - 48) as u64;
        assert(digits.take(i - start + 1).drop_last() =~= digits.take(i - start));
        let next: u128 = value as u128 * 10 + d as u128;
        assert(next == digits_value(digits.take(i - start + 1)));
        if next > max as u128 {
            proof {
                digits_value_grows(digits, i - start + 1);
            }
            return None;
        }
        value = next as u64;
        i = i + 1;
    }
    assert(digits.take(len - start) =~= digits);
    Some(value)
}

/// Unicode's `White_Space` property.
pub open spec fn is_white(c: char) -> bool {
    let n = c as int;
    ||| 0x09 <= n <= 0x0D
    ||| n == 0x20
    ||| n == 0x85
    ||| n == 0xA0
    ||| n == 0x1680
    ||| 0x2000 <= n <= 0x200A
    ||| n == 0x2028
    ||| n == 0x2029
    ||| n == 0x202F
    ||| n == 0x205F
    ||| n == 0x3000
}

/// `s` without the white space that it starts with.
pub open spec fn trimmed_start(s: Seq<char>) -> Seq<char>
    decreases s.len(),
{
    if s.len() > 0 && is_white(s[0]) {
        trimmed_start(s.drop_first())
    } else {
        s
    }
}

/// `s` without the white space that it ends with.
pub open spec fn trimmed_end(s: Seq<char>) -> Seq<char>
    decreases s.len(),
{
    if s.len() > 0 && is_white(s.last()) {
        trimmed_end(s.drop_last())
    } else {
        s
    }
}

/// `s` without the white space at either end.
pub open spec fn trimmed(s: Seq<char>) -> Seq<char> {
    trimmed_end(trimmed_start(s))
}

/// Whether `c` is white space.
fn white(c: char) -> (yes: bool)
    ensures
        yes == is_white(c),
{
    let n: u32 = c as u32;
    (0x09 <= n && n <= 0x0D) || n == 0x20 || n == 0x85 || n == 0xA0 || n == 0x1680 || (0x2000 <= n
        && n <= 0x200A) || n == 0x2028 || n == 0x2029 || n == 0x202F || n == 0x205F || n == 0x3000
}

/// The part of `s` that ends before its trailing white space.
pub fn trim_end(s: &str) -> (part: &str)
    ensures
        part@ == trimmed_end(s@),
{
    let len: usize = s.unicode_len();
    let mut end: usize = len;
    assert(s@.take(len as int) =~= s@);
    while end > 0 && white(s.get_char(end - 1))
        invariant
            end <= len,
            len == s@.len(),
            trimmed_end(s@) == trimmed_end(s@.take(end as int)),
        decreases end,
    {
        assert(s@.take(end as int).drop_last() =~= s@.take(end - 1));
        end = end - 1;
    }
    let part = s.substring_char(0, end);
    assert(part@ =~= s@.take(end as int));
    part
}

/// The part of `s` between its leading and its trailing white space.
pub fn trim(s: &str) -> (part: &str)
    ensures
        part@ == trimmed(s@),
{
    let len: usize = s.unicode_len();
    let mut start: usize = 0;
    assert(s@.skip(0) =~= s@);
    while start < len && white(s.get_char(start))
        invariant
            start <= len,
            len == s@.len(),
            trimmed_start(s@) == trimmed_start(s@.skip(start as int)),
        decreases len - start,
    {
        assert(s@.skip(start as int).drop_first() =~= s@.skip(start + 1));
        start = start + 1;
    }
    let tail = s.substring_char(start, len);
    assert(tail@ =~= s@.skip(start as int));
    trim_end(tail)
}

/// Every character is white space.
pub open spec fn all_white(s: Seq<char>) -> bool {
    forall|i: int| 0 <= i < s.len() ==> is_white(#[trigger] s[i])
}

/// Trimming leaves nothing exactly when there is nothing but white space.
pub proof fn blank_is_all_white(s: Seq<char>)
    ensures
        trimmed(s).len() == 0 <==> forall|i: int| 0 <= i < s.len() ==> is_white(#[trigger] s[i]),
    decreases s.len(),
{
    if s.len() > 0 && is_white(s[0]) {
        let rest = s.drop_first();
        blank_is_all_white(rest);
        if trimmed(s).len() == 0 {
            assert forall|i: int| 0 <= i < s.len() implies is_white(#[trigger] s[i]) by {
                if i > 0 {
                    assert(rest[i - 1] == s[i]);
                }
            }
        }
    } else if s.len() > 0 {
        trimmed_end_keeps_ink(s);
    }
}

/// A text that starts with something other than white space keeps it when its end is trimmed.
proof fn trimmed_end_keeps_ink(s: Seq<char>)
    requires
        s.len() > 0,
        !is_white(s[0]),
    ensures
        trimmed_end(s).len() > 0,
    decreases s.len(),
{
    if is_white(s.last()) {
        trimmed_end_keeps_ink(s.drop_last());
    }
}

/// What the string holds, where there is one.
pub open spec fn text_of(text: Option<String>) -> Option<Seq<char>> {
    match text {
        Some(t) => Some(t@),
        None => None,
    }
}

/// What the string slice holds, where there is one.
pub open spec fn slice_of(text: Option<&str>) -> Option<Seq<char>> {
    match text {
        Some(t) => Some(t@),
        None => None,
    }
}

/// What the strings hold.
pub open spec fn views(parts: Seq<String>) -> Seq<Seq<char>> {
    parts.map_values(|part: String| part@)
}

/// The parts one after another, with `sep` between each two of them.
pub open spec fn joined(parts: Seq<Seq<char>>, sep: Seq<char>) -> Seq<char>
    decreases parts.len(),
{
    if parts.len() == 0 {
        seq![]
    } else if parts.len() == 1 {
        parts[0]
    } else {
        joined(parts.drop_last(), sep) + sep + parts.last()
    }
}

/// Joins the parts, with `sep` between each two of them.
pub fn join(parts: &Vec<String>, sep: &str) -> (text: String)
    ensures
        text@ == joined(views(parts@), sep@),
{
    let mut out = String::new();
    let mut i: usize = 0;
    assert(views(parts@).take(0) =~= seq![]);
    while i < parts.len()
        invariant
            i <= parts.len(),
            out@ == joined(views(parts@).take(i as int), sep@),
        decreases parts.len() - i,
    {
        if i > 0 {
            out.append(sep);
        }
        out.append(parts[i].as_str());
        assert(views(parts@).take(i + 1).drop_last() =~= views(parts@).take(i as int));
        assert(out@ =~= joined(views(parts@).take(i + 1), sep@));
        i = i + 1;
    }
    assert(views(parts@).take(i as int) =~= views(parts@));
    out
}

/// Every character is a decimal digit.
spec fn all_digits(s: Seq<char>) -> bool {
    forall|i: int| 0 <= i < s.len() ==> '0' <= #[trigger] s[i] <= '9'
}

/// `s` comes before `t` in the order of the characters: where they first differ, `s` has the smaller
/// one.
pub open spec fn comes_before(s: Seq<char>, t: Seq<char>) -> bool {
    exists|k: int|
        0 <= k < s.len() && k < t.len() && #[trigger] s[k] < t[k] && s.take(k) == t.take(k)
}

proof fn digits_determined(s: Seq<char>, t: Seq<char>)
    requires
        all_digits(s),
        all_digits(t),
        s.len() == t.len(),
        digits_value(s) == digits_value(t),
    ensures
        s == t,
    decreases s.len(),
{
    if s.len() > 0 {
        let a = s.drop_last();
        let b = t.drop_last();
        assert('0' <= s[s.len() - 1] <= '9' && '0' <= t[t.len() - 1] <= '9');
        assert forall|i: int| 0 <= i < a.len() implies '0' <= #[trigger] a[i] <= '9' by {
            assert(a[i] == s[i]);
        }
        assert forall|i: int| 0 <= i < b.len() implies '0' <= #[trigger] b[i] <= '9' by {
            assert(b[i] == t[i]);
        }
        digits_determined(a, b);
        assert(s =~= a.push(s.last()));
        assert(t =~= b.push(t.last()));
        assert(s.last() as int == t.last() as int);
    } else {
        assert(s =~= t);
    }
}

proof fn digits_ordered(s: Seq<char>, t: Seq<char>)
    requires
        all_digits(s),
        all_digits(t),
        s.len() == t.len(),
        digits_value(s) < digits_value(t),
    ensures
        comes_before(s, t),
    decreases s.len(),
{
    let a = s.drop_last();
    let b = t.drop_last();
    assert('0' <= s[s.len() - 1] <= '9' && '0' <= t[t.len() - 1] <= '9');
    assert forall|i: int| 0 <= i < a.len() implies '0' <= #[trigger] a[i] <= '9' by {
        assert(a[i] == s[i]);
    }
    assert forall|i: int| 0 <= i < b.len() implies '0' <= #[trigger] b[i] <= '9' by {
        assert(b[i] == t[i]);
    }
    if digits_value(a) < digits_value(b) {
        digits_ordered(a, b);
        let k = choose|k: int|
            0 <= k < a.len() && k < b.len() && #[trigger] a[k] < b[k] && a.take(k) == b.take(k);
        assert(s.take(k) =~= a.take(k));
        assert(t.take(k) =~= b.take(k));
        assert(s[k] < t[k]);
    } else {
        digits_determined(a, b);
        let k = s.len() - 1;
        assert(s.take(k) =~= a);
        assert(t.take(k) =~= b);
        assert(s[k] < t[k]);
    }
}

/// Texts that start alike are ordered by what follows first.
pub proof fn order_is_by_the_first_difference(
    start: Seq<char>,
    s: Seq<char>,
    t: Seq<char>,
    after_s: Seq<char>,
    after_t: Seq<char>,
)
    requires
        comes_before(s, t),
    ensures
        comes_before(start + s + after_s, start + t + after_t),
{
    let k = choose|k: int|
        0 <= k < s.len() && k < t.len() && #[trigger] s[k] < t[k] && s.take(k) == t.take(k);
    let a = start + s + after_s;
    let b = start + t + after_t;
    let at = start.len() + k;
    assert(a[at] == s[k] && b[at] == t[k]);
    assert forall|i: int| 0 <= i < at implies a.take(at)[i] == b.take(at)[i] by {
        if i >= start.len() {
            assert(s.take(k)[i - start.len()] == t.take(k)[i - start.len()]);
        }
    }
    assert(a.take(at) =~= b.take(at));
}

/// Numbers that are padded to one width come in the order of their characters.
pub proof fn padded_numbers_are_ordered(a: int, b: int, width: nat)
    requires
        0 <= a < b,
        decimal(b as nat).len() <= width,
        decimal(a as nat).len() <= width,
    ensures
        comes_before(padded_decimal(a, width), padded_decimal(b, width)),
{
    padded_decimal_reads_back(a, width);
    padded_decimal_reads_back(b, width);
    digits_ordered(padded_decimal(a, width), padded_decimal(b, width));
}

proof fn leading_zeros_add_nothing(zeros: Seq<char>, s: Seq<char>)
    requires
        digits_value(zeros) == 0,
    ensures
        digits_value(zeros + s) == digits_value(s),
    decreases s.len(),
{
    if s.len() == 0 {
        assert(zeros + s =~= zeros);
    } else {
        assert((zeros + s).drop_last() =~= zeros + s.drop_last());
        leading_zeros_add_nothing(zeros, s.drop_last());
    }
}

proof fn zeros_are_nothing(n: nat)
    ensures
        digits_value(Seq::new(n, |i: int| '0')) == 0,
    decreases n,
{
    if n > 0 {
        zeros_are_nothing((n - 1) as nat);
        assert(Seq::new(n, |i: int| '0').drop_last() =~= Seq::new((n - 1) as nat, |i: int| '0'));
    }
}

/// A number with zeros in front of it has digits only, reads back as the number and has the width
/// asked for, or more where the number itself takes more.
pub proof fn zero_filled_reads_back(n: nat, width: nat)
    ensures
        is_digits(zero_filled(decimal(n), width)),
        digits_value(zero_filled(decimal(n), width)) == n,
        zero_filled(decimal(n), width).len() >= width,
        decimal(n).len() <= width ==> zero_filled(decimal(n), width).len() == width,
        decimal(n).len() >= width ==> zero_filled(decimal(n), width) == decimal(n),
{
    decimal_is_digits(n);
    let digits = decimal(n);
    if digits.len() < width {
        let zeros = Seq::new((width - digits.len()) as nat, |i: int| '0');
        zeros_are_nothing((width - digits.len()) as nat);
        leading_zeros_add_nothing(zeros, digits);
    }
}

/// A padded number reads back: digits only where it is not negative, and else a minus sign and the
/// digits of its size. It is never narrower than asked for.
pub proof fn padded_decimal_reads_back(n: int, width: nat)
    ensures
        n >= 0 ==> is_digits(padded_decimal(n, width)) && digits_value(padded_decimal(n, width)) == n,
        n < 0 ==> padded_decimal(n, width)[0] == '-' && is_digits(padded_decimal(n, width).skip(1))
            && digits_value(padded_decimal(n, width).skip(1)) == -n,
        padded_decimal(n, width).len() >= width,
        n >= 0 && decimal(n as nat).len() <= width ==> padded_decimal(n, width).len() == width,
{
    if n >= 0 {
        zero_filled_reads_back(n as nat, width);
    } else {
        let inner = if width == 0 {
            0
        } else {
            (width - 1) as nat
        };
        zero_filled_reads_back((-n) as nat, inner);
        assert(padded_decimal(n, width).skip(1) =~= zero_filled(decimal((-n) as nat), inner));
    }
}

/// A decimal number has digits only and no leading zero, unless it is zero.
pub proof fn decimal_has_no_leading_zero(n: nat)
    ensures
        is_digits(decimal(n)),
        n > 0 ==> decimal(n)[0] != '0',
        n == 0 ==> decimal(n) == seq!['0'],
    decreases n,
{
    decimal_is_digits(n);
    if n >= 10 {
        decimal_has_no_leading_zero(n / 10);
    }
}

proof fn decimal_is_shortest(s: Seq<char>)
    requires
        is_digits(s),
    ensures
        decimal(digits_value(s)).len() <= s.len(),
    decreases s.len(),
{
    let rest = s.drop_last();
    assert('0' <= s[s.len() - 1] <= '9');
    if rest.len() > 0 {
        assert forall|i: int| 0 <= i < rest.len() implies '0' <= #[trigger] rest[i] <= '9' by {
            assert(rest[i] == s[i]);
        }
        decimal_is_shortest(rest);
        assert(digits_value(s) / 10 == digits_value(rest));
    } else {
        assert(digits_value(rest) == 0);
    }
}

/// A text stands for the number `n` exactly when it is `n` in decimal, with any number of zeros and
/// at most one plus sign in front, and `n` is not above the maximum. Any other text stands for no
/// number.
pub proof fn numbers_are_read_exactly(s: Seq<char>, max: nat)
    ensures
        match parse_unsigned(s, max) {
            Some(n) => n <= max && exists|width: nat|
                s == #[trigger] zero_filled(decimal(n), width) || s == seq!['+'] + zero_filled(
                    decimal(n),
                    width,
                ),
            None => forall|n: nat, width: nat|
                n <= max ==> s != #[trigger] zero_filled(decimal(n), width) && s != seq!['+']
                    + zero_filled(decimal(n), width),
        },
{
    let digits = without_plus(s);
    match parse_unsigned(s, max) {
        Some(n) => {
            let width = digits.len();
            decimal_is_shortest(digits);
            zero_filled_reads_back(n, width);
            digits_determined(digits, zero_filled(decimal(n), width));
            assert(s =~= digits || s =~= seq!['+'] + digits);
        },
        None => {
            assert forall|n: nat, width: nat| n <= max implies s != #[trigger] zero_filled(
                decimal(n),
                width,
            ) && s != seq!['+'] + zero_filled(decimal(n), width) by {
                let written = zero_filled(decimal(n), width);
                zero_filled_reads_back(n, width);
                if s == written {
                    assert('0' <= written[0] <= '9');
                    assert(digits == written);
                }
                if s == seq!['+'] + written {
                    assert(s[0] == '+');
                    assert(s.skip(1) =~= written);
                }
            }
        },
    }
}

/// Among the characters of ASCII the white ones are the blank and those from the tab to the carriage
/// return; beyond the ideographic space there is none. Between them are the next line, the
/// no-break space, the Ogham space, the eleven typographic spaces in a row, the two separators, the
/// narrow no-break space and the mathematical space.
pub proof fn white_space_is_known(c: char)
    ensures
        (c as int) < 128 ==> (is_white(c) <==> c == ' ' || '\t' <= c <= '\r'),
        is_white(c) ==> c as int <= 0x3000,
        is_white('\u{85}') && is_white('\u{a0}') && is_white('\u{1680}'),
        '\u{2000}' <= c <= '\u{200a}' ==> is_white(c),
        is_white('\u{2028}') && is_white('\u{2029}') && is_white('\u{202f}'),
        is_white('\u{205f}') && is_white('\u{3000}'),
        '\u{85}' < c < '\u{2000}' && is_white(c) ==> c == '\u{a0}' || c == '\u{1680}',
        '\u{80}' <= c < '\u{85}' ==> !is_white(c),
        '\u{200a}' < c < '\u{3000}' && is_white(c) ==> c == '\u{2028}' || c == '\u{2029}' || c
            == '\u{202f}' || c == '\u{205f}',
{
}

/// Trimming the end leaves the beginning of the text. What is cut off is white space, and what is
/// left does not end in any.
pub proof fn end_is_trimmed(s: Seq<char>)
    ensures
        trimmed_end(s).is_prefix_of(s),
        forall|i: int| trimmed_end(s).len() <= i < s.len() ==> is_white(#[trigger] s[i]),
        trimmed_end(s).len() > 0 ==> !is_white(trimmed_end(s).last()),
    decreases s.len(),
{
    if s.len() > 0 && is_white(s.last()) {
        let rest = s.drop_last();
        end_is_trimmed(rest);
        assert forall|i: int| trimmed_end(s).len() <= i < s.len() implies is_white(
            #[trigger] s[i],
        ) by {
            if i < rest.len() {
                assert(rest[i] == s[i]);
            }
        }
    }
}

/// How much white space a text starts with.
spec fn white_start(s: Seq<char>) -> int {
    s.len() - trimmed_start(s).len()
}

proof fn start_is_trimmed(s: Seq<char>)
    ensures
        trimmed_start(s).len() <= s.len(),
        trimmed_start(s) == s.skip(white_start(s)),
        forall|i: int| 0 <= i < white_start(s) ==> is_white(#[trigger] s[i]),
        trimmed_start(s).len() > 0 ==> !is_white(trimmed_start(s)[0]),
    decreases s.len(),
{
    if s.len() > 0 && is_white(s[0]) {
        let rest = s.drop_first();
        start_is_trimmed(rest);
        assert(rest.skip(white_start(rest)) =~= s.skip(white_start(s)));
        assert forall|i: int| 0 <= i < white_start(s) implies is_white(#[trigger] s[i]) by {
            if i > 0 {
                assert(rest[i - 1] == s[i]);
            }
        }
    } else {
        assert(s.skip(0) =~= s);
    }
}

/// Trimming leaves a stretch of the text. Everything outside it is white space, and it neither
/// starts nor ends with any.
pub proof fn both_ends_are_trimmed(s: Seq<char>)
    ensures
        exists|start: int, end: int|
            {
                &&& 0 <= start <= end <= s.len()
                &&& trimmed(s) == #[trigger] s.subrange(start, end)
                &&& forall|i: int| 0 <= i < start || end <= i < s.len() ==> is_white(#[trigger] s[i])
            },
        trimmed(s).len() > 0 ==> !is_white(trimmed(s)[0]) && !is_white(trimmed(s).last()),
{
    start_is_trimmed(s);
    let tail = trimmed_start(s);
    end_is_trimmed(tail);
    let start = white_start(s);
    let end = start + trimmed(s).len();
    assert(trimmed(s) =~= s.subrange(start, end));
    assert forall|i: int| 0 <= i < start || end <= i < s.len() implies is_white(#[trigger] s[i]) by {
        if i >= start {
            assert(tail[i - start] == s[i]);
        }
    }
    if trimmed(s).len() > 0 {
        assert(trimmed(s)[0] == tail[0]);
    }
}

/// Nothing joins to nothing, one part to itself, and more to the first part, a separator and the
/// others joined.
pub proof fn joined_from_the_front(parts: Seq<Seq<char>>, sep: Seq<char>)
    ensures
        parts.len() == 0 ==> joined(parts, sep).len() == 0,
        parts.len() == 1 ==> joined(parts, sep) == parts[0],
        parts.len() > 1 ==> joined(parts, sep) == parts[0] + sep + joined(parts.drop_first(), sep),
    decreases parts.len(),
{
    if parts.len() > 1 {
        let front = parts.drop_last();
        let back = parts.drop_first();
        joined_from_the_front(front, sep);
        if front.len() == 1 {
            joined_from_the_front(back, sep);
        } else {
            assert(front.drop_first() =~= back.drop_last());
        }
        assert(joined(parts, sep) =~= parts[0] + sep + joined(back, sep));
    }
}

/// A number that is written in decimal, with zeros in front of it and a plus sign or none, reads
/// back as itself where it is at most `max`, and as no number otherwise.
pub proof fn written_numbers_read_back(n: nat, width: nat, max: nat)
    ensures
        parse_unsigned(zero_filled(decimal(n), width), max) == if n <= max {
            Some(n)
        } else {
            None
        },
        parse_unsigned(seq!['+'] + zero_filled(decimal(n), width), max) == if n <= max {
            Some(n)
        } else {
            None
        },
{
    zero_filled_reads_back(n, width);
    let written = zero_filled(decimal(n), width);
    assert('0' <= written[0] <= '9');
    assert((seq!['+'] + written).skip(1) =~= written);
}

/// A string that is there, empty or not, is known by its characters, and the strings of a list by
/// theirs, one by one.
pub proof fn strings_are_their_characters(text: String, slice: &str, parts: Seq<String>, i: int)
    ensures
        text_of(Some(text)) == Some(text@),
        text_of(None) is None,
        slice_of(Some(slice)) == Some(slice@),
        slice_of(None) is None,
        views(parts).len() == parts.len(),
        0 <= i < parts.len() ==> views(parts)[i] == parts[i]@,
{
}

} // verus!
