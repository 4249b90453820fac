//! Text as sequences of characters: comparison, prefixes and decimal numbers.

use core::cmp::Ordering;
use vstd::prelude::*;
use vstd::string::*;

verus! {

/// `a` and `b` agree on their first `k` characters, and there `a` either ends or has the
/// smaller character.
pub open spec fn precedes_at(a: Seq<char>, b: Seq<char>, k: int) -> bool {
    &&& 0 <= k <= a.len()
    &&& k < b.len()
    &&& forall|i: int| 0 <= i < k ==> a[i] == b[i]
    &&& k == a.len() || a[k] < b[k]
}

/// Strict lexicographic order by character value.
pub open spec fn text_before(a: Seq<char>, b: Seq<char>) -> bool {
    exists|k: int| precedes_at(a, b, k)
}

/// No text comes before itself.
pub proof fn text_before_is_irreflexive(a: Seq<char>)
    ensures
        !text_before(a, a),
{
}

/// Of two texts at most one comes before the other.
pub proof fn text_before_is_asymmetric(a: Seq<char>, b: Seq<char>)
    requires
        text_before(a, b),
    ensures
        !text_before(b, a),
{
    let k = choose|k: int| precedes_at(a, b, k);
    if text_before(b, a) {
        let m = choose|m: int| precedes_at(b, a, m);
        if k < m {
            assert(b[k] == a[k]);
        } else if m < k {
            assert(a[m] == b[m]);
        }
    }
}

/// The order of texts is transitive.
pub proof fn text_before_is_transitive(a: Seq<char>, b: Seq<char>, c: Seq<char>)
    requires
        text_before(a, b),
        text_before(b, c),
    ensures
        text_before(a, c),
{
    let k = choose|k: int| precedes_at(a, b, k);
    let m = choose|m: int| precedes_at(b, c, m);
    let n = if k <= m { k } else { m };
    assert(precedes_at(a, c, n));
}

/// Two different texts are always ordered one way or the other.
pub proof fn text_before_is_total(a: Seq<char>, b: Seq<char>)
    ensures
        a == b || text_before(a, b) || text_before(b, a),
    decreases a.len(),
{
    if a.len() == 0 {
        if b.len() == 0 {
            assert(a =~= b);
        } else {
            assert(precedes_at(a, b, 0));
        }
    } else if b.len() == 0 {
        assert(precedes_at(b, a, 0));
    } else if a[0] < b[0] {
        assert(precedes_at(a, b, 0));
    } else if b[0] < a[0] {
        assert(precedes_at(b, a, 0));
    } else {
        let a1 = a.skip(1);
        let b1 = b.skip(1);
        text_before_is_total(a1, b1);
        if a1 == b1 {
            assert(a =~= seq![a[0]] + a1);
            assert(b =~= seq![b[0]] + b1);
        } else if text_before(a1, b1) {
            let k = choose|k: int| precedes_at(a1, b1, k);
            assert forall|i: int| 0 <= i < k + 1 implies a[i] == b[i] by {
                if i > 0 {
                    assert(a1[i - 1] == b1[i - 1]);
                }
            }
            assert(precedes_at(a, b, k + 1));
        } else {
            let k = choose|k: int| precedes_at(b1, a1, k);
            assert forall|i: int| 0 <= i < k + 1 implies b[i] == a[i] by {
                if i > 0 {
                    assert(b1[i - 1] == a1[i - 1]);
                }
            }
            assert(precedes_at(b, a, k + 1));
        }
    }
}

/// The characters of a text, one by one.
pub fn chars_of(s: &str) -> (v: Vec<char>)
    ensures
        v@ == s@,
{
    let mut v: Vec<char> = Vec::new();
    for c in it: s.chars()
        invariant
            it.seq() == s@,
            v@ == s@.take(it.index()),
    {
        v.push(c);
    }
    v
}


/// Whether two texts hold the same characters.
pub fn same_text(a: &str, b: &str) -> (r: bool)
    ensures
        r == (a@ == b@),
{
    let x = chars_of(a);
    let y = chars_of(b);
    if x.len() != y.len() {
        return false;
    }
    let mut i: usize = 0;
    while i < x.len()
        invariant
            x@ == a@,
            y@ == b@,
            x.len() == y.len(),
            i <= x.len(),
            forall|j: int| 0 <= j < i ==> x@[j] == y@[j],
        decreases x.len() - i,
    {
        if x[i] != y[i] {
            return false;
        }
        i += 1;
    }
    assert(x@ =~= y@);
    true
}

/// The length of the longest common prefix of two character lists.
fn common_prefix(x: &Vec<char>, y: &Vec<char>) -> (k: usize)
    ensures
        k <= x.len(),
        k <= y.len(),
        forall|i: int| 0 <= i < k ==> x@[i] == y@[i],
        k < x.len() && k < y.len() ==> x@[k as int] != y@[k as int],
{
    let mut k: usize = 0;
    while k < x.len() && k < y.len() && x[k] == y[k]
        invariant
            k <= x.len(),
            k <= y.len(),
            forall|i: int| 0 <= i < k ==> x@[i] == y@[i],
        decreases x.len() - k,
    {
        k += 1;
    }
    k
}

/// Whether `a` comes before `b` in lexicographic order.
pub fn is_before(a: &str, b: &str) -> (r: bool)
    ensures
        r == text_before(a@, b@),
{
    let x = chars_of(a);
    let y = chars_of(b);
    let k = common_prefix(&x, &y);
    let r = k < y.len() && (k == x.len() || x[k] < y[k]);
    proof {
        if r {
            assert(precedes_at(a@, b@, k as int));
        } else if text_before(a@, b@) {
            let m = choose|m: int| precedes_at(a@, b@, m);
            if m < k {
                assert(x@[m] == y@[m]);
            }
        }
    }
    r
}

/// The order of two texts.
pub open spec fn text_order(a: Seq<char>, b: Seq<char>) -> Ordering {
    if text_before(a, b) {
        Ordering::Less
    } else if text_before(b, a) {
        Ordering::Greater
    } else {
        Ordering::Equal
    }
}

/// Whether `s` starts with the characters of `p`.
pub fn has_prefix(s: &str, p: &str) -> (r: bool)
    ensures
        r == p@.is_prefix_of(s@),
{
    let x = chars_of(s);
    let y = chars_of(p);
    let k = common_prefix(&x, &y);
    proof {
        if k == y.len() {
            assert(p@ =~= s@.subrange(0, p@.len() as int));
        } else if p@.is_prefix_of(s@) {
            assert(p@[k as int] == s@.subrange(0, p@.len() as int)[k as int]);
        }
    }
    k == y.len()
}

/// The part of `s` that follows its first `n` characters.
pub fn after(s: &str, n: usize) -> (r: &str)
    requires
        n <= s@.len(),
    ensures
        r@ == s@.skip(n as int),
{
    let len = s.unicode_len();
    let r = s.substring_char(n, len);
    assert(s@.subrange(n as int, len as int) =~= s@.skip(n as int));
    r
}

/// What follows the prefix `p` in `s`, if `s` starts with it.
pub fn strip_text<'a>(s: &'a str, p: &str) -> (r: Option<&'a str>)
    ensures
        match r {
            Some(t) => s@ == p@ + t@,
            None => !p@.is_prefix_of(s@),
        },
{
    if has_prefix(s, p) {
        let n = p.unicode_len();
        let t = after(s, n);
        assert(s@ =~= p@ + t@);
        Some(t)
    } else {
        None
    }
}

/// The place of the first `c` in `s` at or after `i`, or the length of `s`.
pub open spec fn index_from(s: Seq<char>, c: char, i: int) -> int
    decreases s.len() - i,
{
    if i >= s.len() {
        s.len() as int
    } else if s[i] == c {
        i
    } else {
        index_from(s, c, i + 1)
    }
}

/// What `index_from` finds is the first occurrence.
pub proof fn index_from_is_first(s: Seq<char>, c: char, i: int)
    requires
        0 <= i <= s.len(),
    ensures
        i <= index_from(s, c, i) <= s.len(),
        forall|j: int| i <= j < index_from(s, c, i) ==> s[j] != c,
        index_from(s, c, i) < s.len() ==> s[index_from(s, c, i)] == c,
    decreases s.len() - i,
{
    if i < s.len() && s[i] != c {
        index_from_is_first(s, c, i + 1);
    }
}

/// A place before which `c` does not occur, and where it does or the text ends, is the one
/// that `index_from` finds.
pub proof fn index_from_is(s: Seq<char>, c: char, i: int, k: int)
    requires
        0 <= i <= k <= s.len(),
        forall|j: int| i <= j < k ==> s[j] != c,
        k < s.len() ==> s[k] == c,
    ensures
        index_from(s, c, i) == k,
    decreases k - i,
{
    if i < k {
        index_from_is(s, c, i + 1, k);
    }
}

/// The place of the first `c` at or after `i`, or the length of the list.
pub fn find_char(x: &Vec<char>, c: char, i: usize) -> (k: usize)
    requires
        i <= x.len(),
    ensures
        k == index_from(x@, c, i as int),
        i <= k <= x.len(),
        forall|j: int| i <= j < k ==> x@[j] != c,
        k < x.len() ==> x@[k as int] == c,
{
    let mut k: usize = i;
    while k < x.len() && x[k] != c
        invariant
            i <= k <= x.len(),
            forall|j: int| i <= j < k ==> x@[j] != c,
        decreases x.len() - k,
    {
        k += 1;
    }
    proof {
        index_from_is(x@, c, i as int, k as int);
    }
    k
}

/// The text cut at the first `n - 1` occurrences of `c`; the last piece keeps the others.
pub open spec fn pieces(s: Seq<char>, c: char, n: nat) -> Seq<Seq<char>>
    decreases n,
{
    let k = index_from(s, c, 0);
    if n <= 1 || k >= s.len() {
        seq![s]
    } else {
        seq![s.take(k)] + pieces(s.skip(k + 1), c, (n - 1) as nat)
    }
}

/// What stands before the first separator is the first piece, and what follows it is cut further.
pub proof fn first_piece_ends_at_separator(head: Seq<char>, rest: Seq<char>, c: char, n: nat)
    requires
        !head.contains(c),
        n >= 2,
    ensures
        pieces(head + seq![c] + rest, c, n) == seq![head] + pieces(rest, c, (n - 1) as nat),
{
    let s = head + seq![c] + rest;
    let k = head.len() as int;
    assert forall|j: int| 0 <= j < k implies s[j] != c by {
        assert(head.contains(head[j]));
    }
    index_from_is(s, c, 0, k);
    assert(s.take(k) =~= head);
    assert(s.skip(k + 1) =~= rest);
}

/// A text without separators, or one that may not be cut, is a piece of its own.
pub proof fn uncut_text_is_one_piece(s: Seq<char>, c: char, n: nat)
    requires
        !s.contains(c) || n <= 1,
    ensures
        pieces(s, c, n) == seq![s],
{
    if !s.contains(c) {
        assert forall|j: int| 0 <= j < s.len() implies s[j] != c by {
            assert(s.contains(s[j]));
        }
        index_from_is(s, c, 0, s.len() as int);
    }
}

/// The views of a list of texts.
pub open spec fn texts(v: Seq<&str>) -> Seq<Seq<char>> {
    v.map_values(|t: &str| t@)
}

/// Cuts a text into at most `n` pieces at the character `c`.
pub fn split_at_most(s: &str, c: char, n: usize) -> (r: Vec<&str>)
    requires
        n >= 1,
    ensures
        texts(r@) == pieces(s@, c, n as nat),
{
    let mut out: Vec<&str> = Vec::new();
    let mut rest: &str = s;
    let mut left: usize = n;
    assert(texts(out@) + pieces(rest@, c, left as nat) =~= pieces(s@, c, n as nat));
    loop
        invariant
            left >= 1,
            texts(out@) + pieces(rest@, c, left as nat) == pieces(s@, c, n as nat),
        decreases left,
    {
        let x = chars_of(rest);
        let k = find_char(&x, c, 0);
        if left <= 1 || k >= x.len() {
            let ghost before = out@;
            out.push(rest);
            assert(texts(out@) =~= texts(before) + seq![rest@]);
            return out;
        }
        let ghost before = out@;
        let head = rest.substring_char(0, k);
        out.push(head);
        let tail = after(rest, k + 1);
        assert(head@ =~= rest@.take(k as int));
        assert(texts(out@) =~= texts(before) + seq![rest@.take(k as int)]);
        assert(texts(out@) + pieces(tail@, c, (left - 1) as nat) =~= texts(before) + pieces(
            rest@,
            c,
            left as nat,
        ));
        rest = tail;
        left = left - 1;
    }
}

/// All characters are of ASCII.
pub open spec fn is_ascii_text(s: Seq<char>) -> bool {
    forall|i: int| 0 <= i < s.len() ==> (#[trigger] s[i]) as u32 <= 127
}

/// A text with its capital letters of ASCII made small.
pub open spec fn ascii_lower(s: Seq<char>) -> Seq<char> {
    s.map_values(
        |c: char|
            if 'A' <= c && c <= 'Z' {
                ((c as u32 + 32) as u32) as char
            } else {
                c
            },
    )
}

/// Whether a text is the given one when its capital letters of ASCII are made small.
pub fn is_lower_of(lower: &str, s: &str) -> (r: bool)
    ensures
        r == (ascii_lower(s@) == lower@),
{
    let x = chars_of(s);
    let y = chars_of(lower);
    if x.len() != y.len() {
        return false;
    }
    let mut i: usize = 0;
    while i < x.len()
        invariant
            x@ == s@,
            y@ == lower@,
            x.len() == y.len(),
            i <= x.len(),
            forall|j: int| 0 <= j < i ==> ascii_lower(s@)[j] == y@[j],
        decreases x.len() - i,
    {
        let same = if 'A' <= x[i] && x[i] <= 'Z' {
            (x[i] as u8 + 32) as char == y[i]
        } else {
            x[i] == y[i]
        };
        if !same {
            assert(ascii_lower(s@)[i as int] != lower@[i as int]);
            return false;
        }
        i += 1;
    }
    assert(ascii_lower(s@) =~= lower@);
    true
}

/// The value of a decimal digit.
pub open spec fn digit_value(c: char) -> nat {
    (c as u32 - '0' as u32) as nat
}

/// Whether a character is one of `0` to `9`.
pub open spec fn is_digit(c: char) -> bool {
    '0' <= c <= '9'
}

/// Whether a text is made of digits only, at least one.
pub open spec fn all_digits(s: Seq<char>) -> bool {
    &&& s.len() > 0
    &&& forall|i: int| 0 <= i < s.len() ==> is_digit(#[trigger] s[i])
}

/// The number that a run of decimal digits stands for.
pub open spec fn decimal_value(s: Seq<char>) -> nat
    decreases s.len(),
{
    if s.len() == 0 {
        0
    } else {
        decimal_value(s.drop_last()) * 10 + digit_value(s.last())
    }
}

/// The text without a leading plus sign.
pub open spec fn unsigned_part(s: Seq<char>) -> Seq<char> {
    if s.len() > 0 && s[0] == '+' {
        s.skip(1)
    } else {
        s
    }
}

/// The number that a text stands for, if it is one: digits, after an optional plus sign.
pub open spec fn number_in(s: Seq<char>) -> Option<nat> {
    if all_digits(unsigned_part(s)) {
        Some(decimal_value(unsigned_part(s)))
    } else {
        None
    }
}

/// The number that a text stands for, if it is one and not above `max`.
pub open spec fn number_up_to(s: Seq<char>, max: nat) -> Option<nat> {
    match number_in(s) {
        Some(n) => if n <= max {
            Some(n)
        } else {
            None
        },
        None => None,
    }
}

/// Ten to the power of `n`.
pub open spec fn power_of_ten(n: nat) -> nat
    decreases n,
{
    if n == 0 {
        1
    } else {
        10 * power_of_ten((n - 1) as nat)
    }
}

/// The digits of a number count by their place: those that stand before `n` others count ten to the
/// power of `n` as much.
pub proof fn digits_count_by_their_place(a: Seq<char>, b: Seq<char>)
    ensures
        decimal_value(a + b) == decimal_value(a) * power_of_ten(b.len()) + decimal_value(b),
    decreases b.len(),
{
    let x = decimal_value(a);
    if b.len() == 0 {
        assert(a + b =~= a);
        assert(x * power_of_ten(0) == x) by (nonlinear_arith)
            requires
                power_of_ten(0) == 1,
        ;
    } else {
        let front = b.drop_last();
        digits_count_by_their_place(a, front);
        assert((a + b).drop_last() =~= a + front);
        assert((a + b).last() == b.last());
        let p = power_of_ten(front.len());
        assert(power_of_ten(b.len()) == 10 * p);
        assert((x * p) * 10 == x * (10 * p)) by (nonlinear_arith);
        assert(decimal_value(a + b) == decimal_value(a + front) * 10 + digit_value(b.last()));
        assert(decimal_value(b) == decimal_value(front) * 10 + digit_value(b.last()));
    }
}

/// The ten digits stand for the numbers from zero on, in their order.
pub proof fn digits_stand_for_their_numbers(d: char)
    requires
        is_digit(d),
    ensures
        decimal_value(seq![d]) == d as u32 - '0' as u32,
        '0' <= d <= '9',
        decimal_value(seq![d]) < 10,
{
    assert(seq![d].drop_last().len() == 0);
    reveal_with_fuel(decimal_value, 2);
}

/// A text stands for a number exactly if it is made of digits, of which there is at least one, with
/// at most a plus sign before them, which does not change the number.
pub proof fn numbers_are_digits(s: Seq<char>, max: nat)
    ensures
        all_digits(s) ==> number_in(s) == Some(decimal_value(s)) && number_in(seq!['+'] + s) == Some(
            decimal_value(s),
        ),
        number_in(s) is Some ==> all_digits(s) || (s[0] == '+' && all_digits(s.skip(1))),
        all_digits(s) ==> s.len() > 0 && forall|i: int|
            0 <= i < s.len() ==> '0' <= #[trigger] s[i] <= '9',
        number_up_to(s, max) == if number_in(s) is Some && number_in(s)->0 <= max {
            number_in(s)
        } else {
            None
        },
{
    assert((seq!['+'] + s).skip(1) =~= s);
    if all_digits(s) {
        assert(is_digit(s[0]));
    }
}

/// Making letters small keeps all other characters, and leaves no capital letter of ASCII.
pub proof fn lowering_changes_capitals_alone(s: Seq<char>)
    ensures
        ascii_lower(s).len() == s.len(),
        forall|i: int|
            0 <= i < s.len() ==> if 'A' <= s[i] <= 'Z' {
                (#[trigger] ascii_lower(s)[i]) as u32 == s[i] as u32 + 32
            } else {
                ascii_lower(s)[i] == s[i]
            },
{
}

/// More digits never make the number smaller.
proof fn decimal_value_grows(s: Seq<char>, k: int)
    requires
        0 <= k <= s.len(),
    ensures
        decimal_value(s.take(k)) <= decimal_value(s),
    decreases s.len() - k,
{
    if k == s.len() {
        assert(s.take(k) =~= s);
    } else {
        decimal_value_grows(s, k + 1);
        assert(s.take(k + 1).drop_last() =~= s.take(k));
    }
}

/// Reads an unsigned decimal number that is at most `max`.
pub fn parse_number(s: &str, max: u64) -> (r: Option<u64>)
    ensures
        match r {
            Some(n) => number_up_to(s@, max as nat) == Some(n as nat),
            None => number_up_to(s@, max as nat) is None,
        },
{
    let x = chars_of(s);
    let start: usize = if x.len() > 0 && x[0] == '+' {
        1
    } else {
        0
    };
    let ghost t = unsigned_part(s@);
    assert(t =~= x@.skip(start as int));
    if start >= x.len() {
        return None;
    }
    let mut i: usize = start;
    let mut n: u64 = 0;
    assert(t.take(0).len() == 0);
    while i < x.len()
        invariant
            start <= i <= x.len(),
            start <= 1,
            x@ == s@,
            t == unsigned_part(s@),
            t == x@.skip(start as int),
            n == decimal_value(t.take(i - start)),
            n <= max,
            forall|j: int| 0 <= j < i - start ==> is_digit(#[trigger] t[j]),
        decreases x.len() - i,
    {
        let c = x[i];
        assert(t[i - start] == c);
        if c < '0' || c > '9' {
            assert(!is_digit(t[i - start]));
            return None;
        }
        let d: u64 = (c as u32 - '0' as u32) as u64;
        assert(t.take(i - start + 1).drop_last() =~= t.take(i - start));
        assert(t.take(i - start + 1).last() == c);
        proof {
            decimal_value_grows(t, i - start + 1);
        }
        if n > (u64::MAX - d) / 10 || n * 10 + d > max {
            return None;
        }
        n = n * 10 + d;
        i += 1;
    }
    assert(t.take(i - start) =~= t);
    Some(n)
}

/// The decimal digits of a number, without leading zeros.
pub open spec fn decimal(n: nat) -> Seq<char>
    decreases n,
{
    if n < 10 {
        seq![digit_char(n)]
    } else {
        decimal(n / 10).push(digit_char(n % 10))
    }
}

/// The digit for a value below ten.
pub open spec fn digit_char(d: nat) -> char {
    (('0' as u32) + d) as char
}

/// A single digit as a text.
fn digit_text(d: u64) -> (r: &'static str)
    requires
        d < 10,
    ensures
        r@ == seq![digit_char(d as nat)],
{
    proof {
        reveal_strlit("0");
        reveal_strlit("1");
        reveal_strlit("2");
        reveal_strlit("3");
        reveal_strlit("4");
        reveal_strlit("5");
        reveal_strlit("6");
        reveal_strlit("7");
        reveal_strlit("8");
        reveal_strlit("9");
    }
    let r = if d == 0 {
        "0"
    } else if d == 1 {
        "1"
    } else if d == 2 {
        "2"
    } else if d == 3 {
        "3"
    } else if d == 4 {
        "4"
    } else if d == 5 {
        "5"
    } else if d == 6 {
        "6"
    } else if d == 7 {
        "7"
    } else if d == 8 {
        "8"
    } else {
        "9"
    };
    assert(r@ =~= seq![digit_char(d as nat)]);
    r
}

/// Writes a number in decimal.
pub fn decimal_text(n: u64) -> (r: String)
    ensures
        r@ == decimal(n as nat),
    decreases n,
{
    if n < 10 {
        let r = digit_text(n).to_owned();
        r
    } else {
        let mut r = decimal_text(n / 10);
        r.append(digit_text(n % 10));
        assert(r@ =~= decimal((n / 10) as nat).push(digit_char((n % 10) as nat)));
        r
    }
}

/// Reading back a written number gives the number.
pub proof fn number_survives_writing(n: nat)
    ensures
        all_digits(decimal(n)),
        number_in(decimal(n)) == Some(n),
    decreases n,
{
    if n < 10 {
        assert(decimal(n).drop_last().len() == 0);
        reveal_with_fuel(decimal_value, 2);
        assert(decimal(n).last() == digit_char(n));
        assert(is_digit(decimal(n)[0]));
    } else {
        number_survives_writing(n / 10);
        assert(decimal(n).drop_last() =~= decimal(n / 10));
        assert(all_digits(decimal(n))) by {
            assert forall|i: int| 0 <= i < decimal(n).len() implies is_digit(
                #[trigger] decimal(n)[i],
            ) by {
                if i < decimal(n / 10).len() {
                    assert(decimal(n)[i] == decimal(n / 10)[i]);
                }
            }
        }
        assert(is_digit(decimal(n / 10)[0]));
        assert(unsigned_part(decimal(n / 10)) == decimal(n / 10));
    }
    assert(is_digit(decimal(n)[0]));
    assert(unsigned_part(decimal(n)) == decimal(n));
}

/// Two texts one after the other.
pub fn join_text(a: &str, b: &str) -> (r: String)
    ensures
        r@ == a@ + b@,
{
    let mut r = a.to_owned();
    r.append(b);
    r
}

} // verus!
