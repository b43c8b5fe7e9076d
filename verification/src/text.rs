//! Text of numbers, and the splitting of comma-separated lists.

use vstd::arithmetic::power::{lemma_pow0, lemma_pow1, lemma_pow_adds, lemma_pow_positive, pow};
use vstd::prelude::*;

verus! {

/// The decimal digit of `n`, which is below ten.
pub open spec fn digit(n: nat) -> char {
    (48 + n) as char
}

/// `n` in decimal, without leading zeros.
pub open spec fn decimal(n: nat) -> Seq<char>
    decreases n,
{
    if n < 10 {
        seq![digit(n)]
    } else {
        decimal(n / 10).push(digit(n % 10))
    }
}

/// The last `places` decimal digits of `n`, zeros included.
pub open spec fn padded(n: nat, places: nat) -> Seq<char>
    decreases places,
{
    if places == 0 {
        Seq::empty()
    } else {
        padded(n / 10, (places - 1) as nat).push(digit(n % 10))
    }
}

/// Ten to the power of `places`.
pub open spec fn pow10(places: nat) -> nat
    decreases places,
{
    if places == 0 {
        1
    } else {
        10 * pow10((places - 1) as nat)
    }
}

/// `n` units of the last of `places` decimal places: `12500` at three places is
/// `12.500`.
pub open spec fn fixed(n: nat, places: nat) -> Seq<char> {
    decimal(n / pow10(places)) + seq!['.'] + padded(n, places)
}

/// The integer nearest to `num / den`; the even one of the two when both are
/// equally near.
pub open spec fn round_half_even(num: nat, den: nat) -> nat {
    let q = num / den;
    let r = num % den;
    if 2 * r > den || (2 * r == den && q % 2 == 1) {
        q + 1
    } else {
        q
    }
}

/// The number that a string of decimal digits stands for.
pub open spec fn digits_value(s: Seq<char>) -> int
    decreases s.len(),
{
    if s.len() == 0 {
        0
    } else {
        digits_value(s.drop_last()) * 10 + (s.last() as int - 48)
    }
}

/// Every character of `s` is a decimal digit.
pub open spec fn all_digits(s: Seq<char>) -> bool {
    forall|i: int| 0 <= i < s.len() ==> '0' <= #[trigger] s[i] <= '9'
}

/// The decimal text of a number is a non-empty string of digits that stands for
/// that number, so two numbers never share a text.
pub proof fn decimal_reads_back(n: nat)
    ensures
        decimal(n).len() > 0,
        all_digits(decimal(n)),
        digits_value(decimal(n)) == n,
    decreases n,
{
    if n < 10 {
        let s = seq![digit(n)];
        assert(s.drop_last() =~= Seq::<char>::empty());
        assert(digits_value(s.drop_last()) == 0);
    } else {
        decimal_reads_back(n / 10);
        assert(decimal(n).drop_last() =~= decimal(n / 10));
    }
}

/// The padded text of `n` has exactly `places` characters, all of them digits.
pub proof fn padded_is_digits(n: nat, places: nat)
    ensures
        padded(n, places).len() == places,
        all_digits(padded(n, places)),
    decreases places,
{
    if places > 0 {
        padded_is_digits(n / 10, (places - 1) as nat);
    }
}

/// Rounding is never off by more than half a unit.
pub proof fn rounding_is_nearest(num: nat, den: nat)
    requires
        den > 0,
    ensures
        2 * (round_half_even(num, den) * den - num) <= den,
        2 * (num - round_half_even(num, den) * den) <= den,
{
    let q = num / den;
    let r = num % den;
    assert(num == q * den + r && 0 <= r < den) by {
        vstd::arithmetic::div_mod::lemma_fundamental_div_mod(num as int, den as int);
        vstd::arithmetic::mul::lemma_mul_is_commutative(q as int, den as int);
    }
    assert((q + 1) * den == q * den + den) by (nonlinear_arith);
}

/// Appends one character to a string: `String::push`.
pub assume_specification[ String::push ](s: &mut String, c: char)
    ensures
        final(s)@ == old(s)@.push(c),
;

/// Appends the digit of `n`.
fn push_digit(out: &mut String, n: u8)
    requires
        n < 10,
    ensures
        final(out)@ == old(out)@.push(digit(n as nat)),
{
    out.push((48 + n) as char);
}

/// Appends `n` in decimal.
pub fn push_decimal(out: &mut String, n: u128)
    ensures
        final(out)@ == old(out)@ + decimal(n as nat),
    decreases n,
{
    if n >= 10 {
        push_decimal(out, n / 10);
    }
    push_digit(out, (n % 10) as u8);
}

/// Appends the last `places` decimal digits of `n`.
fn push_padded(out: &mut String, n: u128, places: u8)
    ensures
        final(out)@ == old(out)@ + padded(n as nat, places as nat),
    decreases places,
{
    if places > 0 {
        push_padded(out, n / 10, places - 1);
        push_digit(out, (n % 10) as u8);
    }
}

/// Appends `n`, counted in units of the last of `places` decimal places.
pub fn push_fixed(out: &mut String, n: u128, places: u8)
    requires
        places <= 38,
    ensures
        final(out)@ == old(out)@ + fixed(n as nat, places as nat),
{
    let mut unit: u128 = 1;
    let mut k: u8 = 0;
    proof {
        assert(pow10(38) <= u128::MAX) by {
            reveal_with_fuel(pow10, 39);
        }
        pow10_grows(places as nat, 38);
    }
    while k < places
        invariant
            k <= places,
            unit == pow10(k as nat),
            pow10(places as nat) <= u128::MAX,
        decreases places - k,
    {
        proof {
            pow10_grows((k + 1) as nat, places as nat);
        }
        unit = unit * 10;
        k = k + 1;
    }
    proof {
        pow10_grows(0, places as nat);
    }
    push_decimal(out, n / unit);
    out.push('.');
    push_padded(out, n, places);
}

proof fn pow10_grows(a: nat, b: nat)
    requires
        a <= b,
    ensures
        0 < pow10(a) <= pow10(b),
    decreases b,
{
    if a < b {
        pow10_grows(a, (b - 1) as nat);
    } else if a > 0 {
        pow10_grows((a - 1) as nat, (b - 1) as nat);
    }
}

/// The integer nearest to `num / den`, ties going to the even one.
pub fn rounded(num: u128, den: u128) -> (n: u128)
    requires
        0 < den <= u128::MAX / 2,
        num < u128::MAX,
    ensures
        n == round_half_even(num as nat, den as nat),
{
    let q: u128 = num / den;
    let r: u128 = num % den;
    proof {
        assert(q <= num) by (nonlinear_arith)
            requires
                q == num / den,
                den > 0,
        ;
    }
    if 2 * r > den || (2 * r == den && q % 2 == 1) {
        q + 1
    } else {
        q
    }
}

/// Unicode counts `c` as white space.
pub open spec fn is_white(c: char) -> bool {
    let n = c as int;
    ||| 0x9 <= n <= 0xD
    ||| n == 0x20
    ||| n == 0x85
    ||| n == 0xA0
    ||| n == 0x1680
    ||| 0x2000 <= n <= 0x200A
    ||| n == 0x2028
    ||| n == 0x2029
    ||| n == 0x202F
    ||| n == 0x205F
    ||| n == 0x3000
}

/// Whether a character has the White_Space property of Unicode, which is that of the
/// code points listed in `is_white`: `char::is_whitespace`.
pub assume_specification[ char::is_whitespace ](c: char) -> (yes: bool)
    ensures
        yes == is_white(c),
;

/// The parts of `s` between occurrences of `sep`: always one more than there are
/// of those.
pub open spec fn fields(s: Seq<char>, sep: char) -> Seq<Seq<char>>
    decreases s.len(),
{
    if s.len() == 0 {
        seq![Seq::empty()]
    } else {
        let before = fields(s.drop_last(), sep);
        if s.last() == sep {
            before.push(Seq::empty())
        } else {
            before.drop_last().push(before.last().push(s.last()))
        }
    }
}

/// `s` without the white space at its start.
pub open spec fn trim_start(s: Seq<char>) -> Seq<char>
    decreases s.len(),
{
    if s.len() > 0 && is_white(s[0]) {
        trim_start(s.skip(1))
    } else {
        s
    }
}

/// `s` without the white space at its end.
pub open spec fn trim_end(s: Seq<char>) -> Seq<char>
    decreases s.len(),
{
    if s.len() > 0 && is_white(s.last()) {
        trim_end(s.drop_last())
    } else {
        s
    }
}

/// `s` without the white space around it.
pub open spec fn trimmed(s: Seq<char>) -> Seq<char> {
    trim_end(trim_start(s))
}

/// The parts of `parts` that are not blank, trimmed.
pub open spec fn nonblank(parts: Seq<Seq<char>>) -> Seq<Seq<char>>
    decreases parts.len(),
{
    if parts.len() == 0 {
        Seq::empty()
    } else {
        let item = trimmed(parts.last());
        if item.len() == 0 {
            nonblank(parts.drop_last())
        } else {
            nonblank(parts.drop_last()).push(item)
        }
    }
}

/// The items of a comma-separated list: trimmed, and without the empty ones.
pub open spec fn list_items(s: Seq<char>) -> Seq<Seq<char>> {
    nonblank(fields(s, ','))
}

/// The texts of a vector of strings.
pub open spec fn texts(v: Seq<String>) -> Seq<Seq<char>> {
    v.map_values(|s: String| s@)
}

/// `chars` as a string, without the white space around it.
fn trimmed_string(chars: &Vec<char>) -> (s: String)
    ensures
        s@ == trimmed(chars@),
{
    let mut lo: usize = 0;
    let mut hi: usize = chars.len();
    assert(chars@.skip(0) =~= chars@);
    while lo < hi && chars[lo].is_whitespace()
        invariant
            lo <= hi,
            hi == chars@.len(),
            trim_start(chars@.skip(lo as int)) == trim_start(chars@),
        decreases hi - lo,
    {
        assert(chars@.skip(lo as int).skip(1) =~= chars@.skip(lo + 1));
        lo = lo + 1;
    }
    let ghost rest = chars@.skip(lo as int);
    assert(rest == trim_start(chars@));
    assert(rest =~= chars@.subrange(lo as int, hi as int));
    while lo < hi && chars[hi - 1].is_whitespace()
        invariant
            lo <= hi <= chars@.len(),
            trim_end(chars@.subrange(lo as int, hi as int)) == trim_end(rest),
        decreases hi - lo,
    {
        assert(chars@.subrange(lo as int, hi as int).drop_last() =~= chars@.subrange(
            lo as int,
            hi - 1,
        ));
        hi = hi - 1;
    }
    let mut s = String::new();
    let mut i: usize = lo;
    while i < hi
        invariant
            lo <= i <= hi <= chars@.len(),
            s@ == chars@.subrange(lo as int, i as int),
        decreases hi - i,
    {
        s.push(chars[i]);
        assert(chars@.subrange(lo as int, i + 1) =~= chars@.subrange(lo as int, i as int).push(
            chars@[i as int],
        ));
        i = i + 1;
    }
    s
}

/// Splits a comma-separated list into its items.
pub fn split_list(text: &str) -> (items: Vec<String>)
    ensures
        texts(items@) == list_items(text@),
{
    let mut items: Vec<String> = Vec::new();
    let mut field: Vec<char> = Vec::new();
    let ghost whole = text@;
    for c in it: text.chars()
        invariant
            it.seq() == whole,
            fields(whole.take(it.index()), ',').len() > 0,
            field@ == fields(whole.take(it.index()), ',').last(),
            texts(items@) == nonblank(fields(whole.take(it.index()), ',').drop_last()),
    {
        let ghost k = it.index();
        assert(whole.take(k + 1).drop_last() =~= whole.take(k));
        assert(whole.take(k + 1).last() == c);
        if c == ',' {
            let item = trimmed_string(&field);
            let ghost parts = fields(whole.take(k), ',');
            assert(fields(whole.take(k + 1), ',').drop_last() =~= parts);
            if !item.as_str().is_empty() {
                let ghost before = items@;
                items.push(item);
                assert(texts(items@) =~= texts(before).push(item@));
            }
            field = Vec::new();
        } else {
            field.push(c);
            assert(fields(whole.take(k + 1), ',').drop_last() =~= fields(
                whole.take(k),
                ',',
            ).drop_last());
        }
    }
    assert(whole.take(whole.len() as int) =~= whole);
    let item = trimmed_string(&field);
    if !item.as_str().is_empty() {
        let ghost before = items@;
        items.push(item);
        assert(texts(items@) =~= texts(before).push(item@));
    }
    items
}

/// A trimmed text neither starts nor ends with white space, and holds no character
/// that was not there before.
proof fn trimmed_is_clean(s: Seq<char>)
    ensures
        trimmed(s).len() > 0 ==> !is_white(trimmed(s)[0]) && !is_white(trimmed(s).last()),
        forall|c: char| #[trigger] trimmed(s).contains(c) ==> s.contains(c),
{
    trim_start_is_clean(s);
    trim_end_is_clean(trim_start(s));
}

proof fn trim_start_is_clean(s: Seq<char>)
    ensures
        trim_start(s).len() > 0 ==> !is_white(trim_start(s)[0]),
        forall|c: char| #[trigger] trim_start(s).contains(c) ==> s.contains(c),
    decreases s.len(),
{
    if s.len() > 0 && is_white(s[0]) {
        trim_start_is_clean(s.skip(1));
        assert forall|c: char| #[trigger] trim_start(s).contains(c) implies s.contains(c) by {
            let i = choose|i: int| 0 <= i < s.skip(1).len() && s.skip(1)[i] == c;
            assert(s[i + 1] == c);
        }
    }
}

proof fn trim_end_is_clean(s: Seq<char>)
    ensures
        trim_end(s).len() > 0 ==> !is_white(trim_end(s).last()) && trim_end(s)[0] == s[0],
        forall|c: char| #[trigger] trim_end(s).contains(c) ==> s.contains(c),
    decreases s.len(),
{
    if s.len() > 0 && is_white(s.last()) {
        trim_end_is_clean(s.drop_last());
        assert forall|c: char| #[trigger] trim_end(s).contains(c) implies s.contains(c) by {
            let i = choose|i: int| 0 <= i < s.drop_last().len() && s.drop_last()[i] == c;
            assert(s[i] == c);
        }
    }
}

proof fn fields_have_no_separator(s: Seq<char>, sep: char)
    ensures
        fields(s, sep).len() > 0,
        forall|i: int| 0 <= i < fields(s, sep).len() ==> !(#[trigger] fields(s, sep)[i]).contains(sep),
    decreases s.len(),
{
    if s.len() > 0 {
        fields_have_no_separator(s.drop_last(), sep);
        let before = fields(s.drop_last(), sep);
        assert forall|i: int| 0 <= i < fields(s, sep).len() implies !(#[trigger] fields(
            s,
            sep,
        )[i]).contains(sep) by {
            if i < before.len() - 1 || (s.last() == sep && i < before.len()) {
                assert(fields(s, sep)[i] == before[i]);
            } else if s.last() != sep {
                assert(fields(s, sep)[i] == before.last().push(s.last()));
                assert(!before[before.len() - 1].contains(sep));
                if fields(s, sep)[i].contains(sep) {
                    let k = choose|k: int|
                        0 <= k < fields(s, sep)[i].len() && fields(s, sep)[i][k] == sep;
                    assert(before.last()[k] == sep);
                }
            }
        }
    }
}

proof fn nonblank_are_clean(parts: Seq<Seq<char>>, sep: char)
    requires
        forall|i: int| 0 <= i < parts.len() ==> !(#[trigger] parts[i]).contains(sep),
    ensures
        forall|i: int|
            0 <= i < nonblank(parts).len() ==> {
                let item = #[trigger] nonblank(parts)[i];
                item.len() > 0 && !item.contains(sep) && !is_white(item[0]) && !is_white(
                    item.last(),
                )
            },
    decreases parts.len(),
{
    if parts.len() > 0 {
        nonblank_are_clean(parts.drop_last(), sep);
        trimmed_is_clean(parts.last());
        assert(!parts[parts.len() - 1].contains(sep));
        assert forall|i: int| 0 <= i < nonblank(parts).len() implies {
            let item = #[trigger] nonblank(parts)[i];
            item.len() > 0 && !item.contains(sep) && !is_white(item[0]) && !is_white(item.last())
        } by {
            if i < nonblank(parts.drop_last()).len() {
                assert(nonblank(parts)[i] == nonblank(parts.drop_last())[i]);
            }
        }
    }
}

/// Every item of a list is non-empty, holds no comma, and neither starts nor ends
/// with white space.
pub proof fn list_items_are_clean(s: Seq<char>, i: int)
    requires
        0 <= i < list_items(s).len(),
    ensures
        list_items(s)[i].len() > 0,
        !list_items(s)[i].contains(','),
        !is_white(list_items(s)[i][0]),
        !is_white(list_items(s)[i].last()),
{
    fields_have_no_separator(s, ',');
    nonblank_are_clean(fields(s, ','), ',');
}

/// A number ends with its last digit, the digits `0` to `9` being consecutive
/// characters, and what stands before is the number without that digit. Numbers
/// below ten have one digit.
pub proof fn decimals_go_digit_by_digit(n: nat)
    ensures
        decimal(n).len() > 0,
        decimal(n).last() as int == '0' as int + n as int % 10,
        n >= 10 ==> decimal(n).drop_last() == decimal(n / 10),
        n < 10 ==> decimal(n).len() == 1,
{
    if n >= 10 {
        assert(decimal(n).drop_last() =~= decimal(n / 10));
    }
}

/// Different numbers are written differently.
pub proof fn decimals_differ(a: nat, b: nat)
    requires
        a != b,
    ensures
        decimal(a) != decimal(b),
{
    decimal_reads_back(a);
    decimal_reads_back(b);
}

proof fn padded_reads_back(n: nat, places: nat)
    ensures
        digits_value(padded(n, places)) == n as int % pow(10, places),
    decreases places,
{
    if places > 0 {
        padded_reads_back(n / 10, (places - 1) as nat);
        let p = pow(10, (places - 1) as nat);
        lemma_pow_adds(10, (places - 1) as nat, 1);
        lemma_pow1(10);
        lemma_pow_positive(10, (places - 1) as nat);
        assert(padded(n, places).drop_last() =~= padded(n / 10, (places - 1) as nat));
        vstd::arithmetic::div_mod::lemma_mod_breakdown(n as int, 10, p);
        assert(10 * p == p * 10) by (nonlinear_arith);
    } else {
        lemma_pow0(10);
        assert(digits_value(padded(n, 0)) == 0);
    }
}

proof fn pow10_is_power(places: nat)
    ensures
        pow10(places) == pow(10, places),
        pow10(places) > 0,
    decreases places,
{
    if places > 0 {
        pow10_is_power((places - 1) as nat);
        lemma_pow_adds(10, (places - 1) as nat, 1);
        lemma_pow1(10);
    } else {
        lemma_pow0(10);
    }
}

/// A number with decimal places reads back: there is one point with exactly that
/// many digits behind it, and the digits before and behind the point make up the
/// number of units.
pub proof fn fixed_reads_back(n: nat, places: nat)
    ensures
        ({
            let text = fixed(n, places);
            let point = text.len() - places - 1;
            &&& point > 0
            &&& text[point] == '.'
            &&& all_digits(text.take(point))
            &&& all_digits(text.skip(point + 1))
            &&& text.take(point).len() > 0
            &&& digits_value(text.take(point)) * pow(10, places) + digits_value(text.skip(point + 1))
                == n
        }),
{
    let text = fixed(n, places);
    let (whole, part) = (decimal(n / pow10(places)), padded(n, places));
    pow10_is_power(places);
    padded_is_digits(n, places);
    padded_reads_back(n, places);
    decimal_reads_back(n / pow10(places));
    decimals_go_digit_by_digit(n / pow10(places));
    let point = text.len() - places - 1;
    assert(text.take(point) =~= whole);
    assert(text.skip(point + 1) =~= part);
    vstd::arithmetic::div_mod::lemma_fundamental_div_mod(n as int, pow(10, places));
    vstd::arithmetic::mul::lemma_mul_is_commutative(
        n as int / pow(10, places),
        pow(10, places),
    );
}

/// When two integers are equally near, rounding gives the even one.
pub proof fn ties_go_to_the_even(num: nat, den: nat)
    requires
        den > 0,
        2 * (num % den) == den,
    ensures
        round_half_even(num, den) % 2 == 0,
{
}

/// `parts` one after the other, with `sep` between two of them.
pub open spec fn joined(parts: Seq<Seq<char>>, sep: char) -> Seq<char>
    decreases parts.len(),
{
    if parts.len() == 0 {
        Seq::empty()
    } else if parts.len() == 1 {
        parts[0]
    } else {
        joined(parts.drop_last(), sep).push(sep) + parts.last()
    }
}

/// The fields of a text hold no separator, and joined by it they are the text again.
pub proof fn fields_join_back(s: Seq<char>, sep: char)
    ensures
        fields(s, sep).len() > 0,
        forall|i: int|
            0 <= i < fields(s, sep).len() ==> !(#[trigger] fields(s, sep)[i]).contains(sep),
        joined(fields(s, sep), sep) == s,
    decreases s.len(),
{
    fields_have_no_separator(s, sep);
    let parts = fields(s, sep);
    if s.len() == 0 {
        assert(joined(parts, sep) =~= s);
    } else {
        let start = s.drop_last();
        let before = fields(start, sep);
        fields_join_back(start, sep);
        if s.last() == sep {
            assert(parts.drop_last() =~= before);
            assert(joined(parts, sep) =~= s);
        } else {
            assert(parts.drop_last() =~= before.drop_last());
            assert(parts.last() == before.last().push(s.last()));
            if parts.len() == 1 {
                assert(joined(parts, sep) =~= s);
            } else {
                assert(joined(parts, sep) =~= joined(before, sep).push(s.last()));
                assert(joined(parts, sep) =~= s);
            }
        }
    }
}

/// The fields of two texts with a separator between them are those of the one and
/// then those of the other; a text without separator is one field.
pub proof fn fields_of_parts(a: Seq<char>, b: Seq<char>, sep: char)
    ensures
        fields(a.push(sep) + b, sep) == fields(a, sep) + fields(b, sep),
        !a.contains(sep) ==> fields(a, sep) == seq![a],
    decreases b.len() + a.len(),
{
    fields_have_no_separator(a, sep);
    if !a.contains(sep) {
        if a.len() == 0 {
            assert(a =~= Seq::empty());
        } else {
            assert(a[a.len() - 1] == a.last());
            assert(!a.drop_last().contains(sep)) by {
                if a.drop_last().contains(sep) {
                    let i = choose|i: int| 0 <= i < a.len() - 1 && a.drop_last()[i] == sep;
                    assert(a[i] == sep);
                }
            }
            fields_of_parts(a.drop_last(), Seq::empty(), sep);
            let before = fields(a.drop_last(), sep);
            assert(a.last() != sep);
            assert(before.last() == a.drop_last());
            assert(before.last().push(a.last()) =~= a);
            assert(fields(a, sep) =~= before.drop_last().push(a));
            assert(fields(a, sep) =~= seq![a]);
        }
    }
    let whole = a.push(sep) + b;
    if b.len() == 0 {
        assert(whole =~= a.push(sep));
        assert(a.push(sep).drop_last() =~= a);
        assert(fields(whole, sep) =~= fields(a, sep) + fields(b, sep));
    } else {
        fields_have_no_separator(b.drop_last(), sep);
        fields_of_parts(a, b.drop_last(), sep);
        assert(whole.drop_last() =~= a.push(sep) + b.drop_last());
        assert(whole.last() == b.last());
        assert(fields(whole, sep) =~= fields(a, sep) + fields(b, sep));
    }
}

/// Trimming cuts white space off both ends and nothing else: what is left is a
/// stretch of the text, everything outside it is white space, and it neither starts
/// nor ends with any.
pub proof fn trimming_cuts_white_space_alone(s: Seq<char>)
    ensures
        exists|i: int, j: int|
            0 <= i <= j <= s.len() && trimmed(s) == #[trigger] s.subrange(i, j) && (forall|k: int|
                0 <= k < s.len() && !(i <= k < j) ==> is_white(#[trigger] s[k])),
        trimmed(s).len() > 0 ==> !is_white(trimmed(s)[0]) && !is_white(trimmed(s).last()),
{
    trimmed_is_clean(s);
    let i = trim_start_cuts(s);
    let rest = trim_start(s);
    let j = trim_end_cuts(rest);
    assert(trimmed(s) =~= s.subrange(i, i + j));
    assert forall|k: int| 0 <= k < s.len() && !(i <= k < i + j) implies is_white(
        #[trigger] s[k],
    ) by {
        if k >= i {
            assert(rest[k - i] == s[k]);
        }
    }
}

proof fn trim_start_cuts(s: Seq<char>) -> (i: int)
    ensures
        0 <= i <= s.len(),
        trim_start(s) == s.skip(i),
        forall|k: int| 0 <= k < i ==> is_white(#[trigger] s[k]),
    decreases s.len(),
{
    if s.len() > 0 && is_white(s[0]) {
        let rest = s.skip(1);
        let i = trim_start_cuts(rest);
        assert(s.skip(i + 1) =~= rest.skip(i));
        assert forall|k: int| 0 <= k < i + 1 implies is_white(#[trigger] s[k]) by {
            if k > 0 {
                assert(rest[k - 1] == s[k]);
            }
        }
        i + 1
    } else {
        assert(s.skip(0) =~= s);
        0
    }
}

proof fn trim_end_cuts(s: Seq<char>) -> (j: int)
    ensures
        0 <= j <= s.len(),
        trim_end(s) == s.take(j),
        forall|k: int| j <= k < s.len() ==> is_white(#[trigger] s[k]),
    decreases s.len(),
{
    if s.len() > 0 && is_white(s.last()) {
        let rest = s.drop_last();
        let j = trim_end_cuts(rest);
        assert(s.take(j) =~= rest.take(j));
        assert forall|k: int| j <= k < s.len() implies is_white(#[trigger] s[k]) by {
            if k < rest.len() {
                assert(rest[k] == s[k]);
            }
        }
        j
    } else {
        assert(s.take(s.len() as int) =~= s);
        s.len() as int
    }
}

proof fn nonblank_of_parts(a: Seq<Seq<char>>, b: Seq<Seq<char>>)
    ensures
        nonblank(a + b) == nonblank(a) + nonblank(b),
    decreases b.len(),
{
    if b.len() == 0 {
        assert(a + b =~= a);
        assert(nonblank(a) + nonblank(b) =~= nonblank(a));
    } else {
        nonblank_of_parts(a, b.drop_last());
        assert((a + b).drop_last() =~= a + b.drop_last());
        assert((a + b).last() == b.last());
        assert(nonblank(a + b) =~= nonblank(a) + nonblank(b));
    }
}

/// The items of two lists with a comma between them are those of the one and then
/// those of the other. A text without comma is one item, trimmed, or none if it is
/// blank.
pub proof fn lists_go_item_by_item(a: Seq<char>, b: Seq<char>)
    ensures
        list_items(a.push(',') + b) == list_items(a) + list_items(b),
        !a.contains(',') ==> list_items(a) == (if trimmed(a).len() == 0 {
            Seq::empty()
        } else {
            seq![trimmed(a)]
        }),
{
    fields_of_parts(a, b, ',');
    nonblank_of_parts(fields(a, ','), fields(b, ','));
    if !a.contains(',') {
        let one = seq![a];
        assert(one.drop_last() =~= Seq::empty());
        assert(nonblank(one.drop_last()) =~= Seq::empty());
        assert(nonblank(one) =~= (if trimmed(a).len() == 0 {
            Seq::empty()
        } else {
            seq![trimmed(a)]
        }));
    }
}

/// Clean items, joined by commas, are read back: every one of them, in order, and
/// nothing else.
pub proof fn lists_read_back(items: Seq<Seq<char>>)
    requires
        forall|i: int|
            0 <= i < items.len() ==> {
                let item = #[trigger] items[i];
                item.len() > 0 && !item.contains(',') && !is_white(item[0]) && !is_white(
                    item.last(),
                )
            },
    ensures
        list_items(joined(items, ',')) == items,
    decreases items.len(),
{
    if items.len() == 0 {
        let none = Seq::<char>::empty();
        lists_go_item_by_item(none, none);
        assert(list_items(joined(items, ',')) =~= items);
    } else {
        let (start, last) = (items.drop_last(), items.last());
        assert(items[items.len() - 1] == last);
        assert(trimmed(last) == last);
        lists_go_item_by_item(last, last);
        if items.len() == 1 {
            assert(items =~= seq![last]);
        } else {
            assert forall|i: int| 0 <= i < start.len() implies {
                let item = #[trigger] start[i];
                item.len() > 0 && !item.contains(',') && !is_white(item[0]) && !is_white(
                    item.last(),
                )
            } by {
                assert(start[i] == items[i]);
            }
            lists_read_back(start);
            lists_go_item_by_item(joined(start, ','), last);
            assert(list_items(joined(items, ',')) =~= start + seq![last]);
            assert(items =~= start + seq![last]);
        }
    }
}

/// The texts of a vector are those of its strings, in order.
pub proof fn texts_are_seen_whole(v: Seq<String>, i: int)
    ensures
        texts(v).len() == v.len(),
        0 <= i < v.len() ==> texts(v)[i] == v[i]@,
{
}

} // verus!
