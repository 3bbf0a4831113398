//! Decimal numerals: the text of a natural number, and a counter of
//! unbounded range that keeps its own numeral.

use vstd::prelude::*;

verus! {

/// Taken on trust from the standard library: `String::push` appends the
/// given character to the end of the string and changes nothing else of
/// it.
pub assume_specification[ String::push ](s: &mut String, c: char)
    ensures
        final(s)@ == old(s)@.push(c),
;

/// The character of a digit below ten.
pub open spec fn digit(d: nat) -> char {
    if d == 0 {
        '0'
    } else if d == 1 {
        '1'
    } else if d == 2 {
        '2'
    } else if d == 3 {
        '3'
    } else if d == 4 {
        '4'
    } else if d == 5 {
        '5'
    } else if d == 6 {
        '6'
    } else if d == 7 {
        '7'
    } else if d == 8 {
        '8'
    } else {
        '9'
    }
}

/// The character of a digit, computed.
pub fn digit_char(d: u8) -> (c: char)
    requires
        d < 10,
    ensures
        c == digit(d as nat),
{
    if d == 0 {
        '0'
    } else if d == 1 {
        '1'
    } else if d == 2 {
        '2'
    } else if d == 3 {
        '3'
    } else if d == 4 {
        '4'
    } else if d == 5 {
        '5'
    } else if d == 6 {
        '6'
    } else if d == 7 {
        '7'
    } else if d == 8 {
        '8'
    } else {
        '9'
    }
}

/// The decimal numeral of `n`, without leading zeros.
pub open spec fn decimal(n: nat) -> Seq<char>
    decreases n,
{
    if n < 10 {
        seq![digit(n)]
    } else {
        decimal(n / 10).push(digit(n % 10))
    }
}

/// A numeral is never empty.
pub(crate) proof fn lemma_decimal_nonempty(n: nat)
    ensures
        decimal(n).len() >= 1,
    decreases n,
{
    if n >= 10 {
        lemma_decimal_nonempty(n / 10);
    }
}

/// Different numbers have different numerals.
pub(crate) proof fn lemma_decimal_injective(a: nat, b: nat)
    requires
        decimal(a) == decimal(b),
    ensures
        a == b,
    decreases a,
{
    if a < 10 && b < 10 {
        assert(decimal(a)[0] == digit(a));
        assert(decimal(b)[0] == digit(b));
    } else if a < 10 {
        lemma_decimal_nonempty(b / 10);
        assert(decimal(a).len() == 1);
        assert(decimal(b).len() == decimal(b / 10).len() + 1);
    } else if b < 10 {
        lemma_decimal_nonempty(a / 10);
        assert(decimal(b).len() == 1);
        assert(decimal(a).len() == decimal(a / 10).len() + 1);
    } else {
        let x = decimal(a / 10);
        let y = decimal(b / 10);
        assert(x =~= x.push(digit(a % 10)).drop_last());
        assert(y =~= y.push(digit(b % 10)).drop_last());
        assert(x.push(digit(a % 10)).last() == y.push(digit(b % 10)).last());
        assert(digit(a % 10) == digit(b % 10));
        assert(a % 10 == b % 10);
        lemma_decimal_injective(a / 10, b / 10);
        assert(a == (a / 10) * 10 + a % 10);
        assert(b == (b / 10) * 10 + b % 10);
    }
}

/// The digit that follows `c`; `'9'` has none and is kept.
pub open spec fn next_digit(c: char) -> char {
    if c == '0' {
        '1'
    } else if c == '1' {
        '2'
    } else if c == '2' {
        '3'
    } else if c == '3' {
        '4'
    } else if c == '4' {
        '5'
    } else if c == '5' {
        '6'
    } else if c == '6' {
        '7'
    } else if c == '7' {
        '8'
    } else if c == '8' {
        '9'
    } else {
        c
    }
}

/// The numeral that follows `s`, computed on the text alone: trailing nines
/// turn to zeros and the digit before them moves up by one.
pub open spec fn successor(s: Seq<char>) -> Seq<char>
    decreases s.len(),
{
    if s.len() == 0 {
        seq!['1']
    } else if s.last() != '9' {
        s.drop_last().push(next_digit(s.last()))
    } else {
        successor(s.drop_last()).push('0')
    }
}

/// `successor` is the numeral of the next number.
pub(crate) proof fn lemma_successor(n: nat)
    ensures
        successor(decimal(n)) == decimal(n + 1),
    decreases n,
{
    let s = decimal(n);
    if n < 10 {
        assert(s.drop_last() =~= Seq::<char>::empty());
        if n == 9 {
            assert(successor(s.drop_last()) == seq!['1']);
            assert(decimal(10) == decimal(1).push(digit(0))) by {
                reveal_with_fuel(decimal, 2);
            }
            assert(successor(s) =~= decimal(10));
        } else {
            assert(successor(s) =~= decimal(n + 1));
        }
    } else {
        let head = decimal(n / 10);
        assert(s.drop_last() =~= head);
        assert(s.last() == digit(n % 10));
        if n % 10 == 9 {
            lemma_successor(n / 10);
            assert((n + 1) / 10 == n / 10 + 1);
            assert((n + 1) % 10 == 0);
        } else {
            assert((n + 1) / 10 == n / 10);
            assert((n + 1) % 10 == n % 10 + 1);
        }
    }
}

/// A counter that never overflows: it holds the numeral of its value.
pub struct Counter {
    digits: Vec<char>,
    value: Ghost<nat>,
}

impl Counter {
    #[verifier::type_invariant]
    spec fn holds_numeral(self) -> bool {
        self.digits@ == decimal(self.value@)
    }

    /// The number counted so far.
    pub closed spec fn value(self) -> nat {
        self.value@
    }

    /// A counter at zero.
    pub fn zero() -> (r: Self)
        ensures
            r.value() == 0,
    {
        let mut digits: Vec<char> = Vec::new();
        digits.push('0');
        assert(digits@ =~= decimal(0));
        Counter { digits, value: Ghost(0) }
    }

    /// The numeral of the counter's value.
    pub fn text(&self) -> (r: String)
        ensures
            r@ == decimal(self.value()),
    {
        proof {
            use_type_invariant(self);
        }
        let mut out = String::new();
        let mut i: usize = 0;
        while i < self.digits.len()
            invariant
                i <= self.digits.len(),
                out@ == self.digits@.take(i as int),
            decreases self.digits.len() - i,
        {
            out.push(self.digits[i]);
            i += 1;
            assert(out@ =~= self.digits@.take(i as int));
        }
        assert(self.digits@.take(i as int) =~= self.digits@);
        out
    }

    /// The counter one step further.
    pub fn next(&self) -> (r: Self)
        ensures
            r.value() == self.value() + 1,
    {
        proof {
            use_type_invariant(self);
            lemma_decimal_nonempty(self.value@);
            lemma_successor(self.value@);
        }
        let ghost before = self.digits@;
        let mut digits = self.digits.clone();
        let n = digits.len();
        let mut i: usize = n;
        assert(before.take(n as int) =~= before);
        assert(successor(before) + Seq::new(0nat, |j: int| '0') =~= successor(before));
        while i > 0 && digits[i - 1] == '9'
            invariant
                n == before.len(),
                digits.len() == n,
                i <= n,
                digits@.take(i as int) == before.take(i as int),
                forall|j: int| i <= j < n ==> digits[j] == '0',
                successor(before) == successor(before.take(i as int)) + Seq::new(
                    (n - i) as nat,
                    |j: int| '0',
                ),
            decreases i,
        {
            let ghost prefix = before.take(i as int);
            assert(prefix.last() == '9') by {
                assert(digits@.take(i as int)[i - 1] == prefix[i - 1]);
            }
            assert(prefix.drop_last() =~= before.take(i - 1));
            assert(successor(before.take(i - 1)).push('0') + Seq::new(
                (n - i) as nat,
                |j: int| '0',
            ) =~= successor(before.take(i - 1)) + Seq::new((n - i + 1) as nat, |j: int| '0'));
            digits.set(i - 1, '0');
            i -= 1;
            assert(digits@.take(i as int) =~= before.take(i as int));
        }
        if i == 0 {
            assert(before.take(0) =~= Seq::<char>::empty());
            digits.set(0, '1');
            digits.push('0');
            assert(digits@ =~= successor(before));
        } else {
            let c = digits[i - 1];
            let ghost prefix = before.take(i as int);
            assert(prefix.last() == c) by {
                assert(digits@.take(i as int)[i - 1] == prefix[i - 1]);
            }
            let d = if c == '0' {
                '1'
            } else if c == '1' {
                '2'
            } else if c == '2' {
                '3'
            } else if c == '3' {
                '4'
            } else if c == '4' {
                '5'
            } else if c == '5' {
                '6'
            } else if c == '6' {
                '7'
            } else if c == '7' {
                '8'
            } else if c == '8' {
                '9'
            } else {
                c
            };
            digits.set(i - 1, d);
            assert(digits@ =~= successor(before)) by {
                assert(prefix.drop_last() =~= before.take(i - 1));
                assert(digits@.take(i as int - 1) =~= before.take(i as int - 1));
            }
        }
        Counter { digits, value: Ghost(self.value@ + 1) }
    }
}

/// Appends the numeral of `n`.
pub fn push_decimal(out: &mut String, n: u64)
    ensures
        final(out)@ == old(out)@ + decimal(n as nat),
    decreases n,
{
    if n < 10 {
        out.push(digit_char(n as u8));
        assert(out@ =~= old(out)@ + decimal(n as nat));
    } else {
        push_decimal(out, n / 10);
        out.push(digit_char((n % 10) as u8));
        assert(out@ =~= old(out)@ + decimal(n as nat));
    }
}

/// The numeral of a signed number: a minus sign before the numeral of the
/// magnitude where the number is negative.
pub open spec fn signed_decimal(i: int) -> Seq<char> {
    if i < 0 {
        seq!['-'] + decimal((-i) as nat)
    } else {
        decimal(i as nat)
    }
}

/// Appends the numeral of a signed number.
pub fn push_signed(out: &mut String, i: i64)
    ensures
        final(out)@ == old(out)@ + signed_decimal(i as int),
{
    if i < 0 {
        out.push('-');
        let magnitude: u64 = ((-(i + 1)) as u64) + 1;
        push_decimal(out, magnitude);
        assert(out@ =~= old(out)@ + signed_decimal(i as int));
    } else {
        push_decimal(out, i as u64);
    }
}

/// The character of a hexadecimal digit below sixteen, in lower case.
pub open spec fn hex_digit(d: nat) -> char {
    if d < 10 {
        digit(d)
    } else if d == 10 {
        'a'
    } else if d == 11 {
        'b'
    } else if d == 12 {
        'c'
    } else if d == 13 {
        'd'
    } else if d == 14 {
        'e'
    } else {
        'f'
    }
}

/// The last `width` hexadecimal digits of `n`, padded with zeros.
pub open spec fn hex(n: nat, width: nat) -> Seq<char>
    decreases width,
{
    if width == 0 {
        Seq::empty()
    } else {
        hex(n / 16, (width - 1) as nat).push(hex_digit(n % 16))
    }
}

/// Appends the last `width` hexadecimal digits of `n`.
pub fn push_hex(out: &mut String, n: u64, width: u8)
    ensures
        final(out)@ == old(out)@ + hex(n as nat, width as nat),
    decreases width,
{
    if width == 0 {
        assert(out@ =~= old(out)@ + hex(n as nat, 0));
    } else {
        push_hex(out, n / 16, width - 1);
        let d = (n % 16) as u8;
        let c = if d < 10 {
            digit_char(d)
        } else if d == 10 {
            'a'
        } else if d == 11 {
            'b'
        } else if d == 12 {
            'c'
        } else if d == 13 {
            'd'
        } else if d == 14 {
            'e'
        } else {
            'f'
        };
        out.push(c);
        assert(out@ =~= old(out)@ + hex(n as nat, width as nat));
    }
}

/// Appending three texts one by one appends their concatenation.
pub(crate) proof fn lemma_join3(o: Seq<char>, a: Seq<char>, b: Seq<char>, c: Seq<char>)
    ensures
        o + a + b + c == o + (a + b + c),
{
    assert(o + a + b + c =~= o + (a + b + c));
}

/// Appending four texts one by one appends their concatenation.
pub(crate) proof fn lemma_join4(o: Seq<char>, a: Seq<char>, b: Seq<char>, c: Seq<char>, d: Seq<char>)
    ensures
        o + a + b + c + d == o + (a + b + c + d),
{
    assert(o + a + b + c + d =~= o + (a + b + c + d));
}

/// Appending seven texts one by one appends their concatenation.
pub(crate) proof fn lemma_join7(
    o: Seq<char>,
    a: Seq<char>,
    b: Seq<char>,
    c: Seq<char>,
    d: Seq<char>,
    e: Seq<char>,
    f: Seq<char>,
    g: Seq<char>,
)
    ensures
        o + a + b + c + d + e + f + g == o + (a + b + c + d + e + f + g),
{
    assert(o + a + b + c + d + e + f + g =~= o + (a + b + c + d + e + f + g));
}

} // verus!
