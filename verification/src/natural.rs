//! Natural numbers of any size, kept as decimal digits.
//!
//! Balances come as text of any length; their sums and squares are computed
//! exactly, digit by digit, so that no portfolio is too large to be rated.

use vstd::prelude::*;

verus! {

/// The powers of ten.
pub open spec fn pow10(k: nat) -> nat
    decreases k,
{
    if k == 0 {
        1
    } else {
        10 * pow10((k - 1) as nat)
    }
}

/// Whether every element is a decimal digit.
pub open spec fn all_decimal(digits: Seq<u8>) -> bool {
    forall|i: int| 0 <= i < digits.len() ==> #[trigger] digits[i] < 10
}

/// The number that digits denote, the lowest digit first.
pub open spec fn number(digits: Seq<u8>) -> nat
    decreases digits.len(),
{
    if digits.len() == 0 {
        0
    } else {
        digits[0] as nat + 10 * number(digits.drop_first())
    }
}

/// The digit at place `i`; the places beyond the last digit hold zero.
pub open spec fn digit_at(digits: Seq<u8>, i: int) -> nat {
    if 0 <= i < digits.len() {
        digits[i] as nat
    } else {
        0
    }
}

/// The number that the lowest `i` digits denote.
pub open spec fn low(digits: Seq<u8>, i: int) -> nat {
    if i >= digits.len() {
        number(digits)
    } else {
        number(digits.take(i))
    }
}

/// No power of ten is zero.
pub proof fn lemma_pow10_positive(k: nat)
    ensures
        pow10(k) > 0,
    decreases k,
{
    if k > 0 {
        lemma_pow10_positive((k - 1) as nat);
    }
}

/// The powers of ten multiply as their exponents add.
pub proof fn lemma_pow10_add(j: nat, k: nat)
    ensures
        pow10(j + k) == pow10(j) * pow10(k),
    decreases j,
{
    if j > 0 {
        lemma_pow10_add((j - 1) as nat, k);
        let a = pow10((j - 1) as nat);
        let b = pow10(k);
        assert(pow10(j + k) == 10 * pow10((j + k - 1) as nat));
        assert(10 * (a * b) == (10 * a) * b) by (nonlinear_arith);
    } else {
        assert(pow10(j) * pow10(k) == pow10(k)) by (nonlinear_arith)
            requires
                pow10(j) == 1,
        ;
    }
}

/// A digit more at the high end adds its value at that place.
pub proof fn lemma_number_push(digits: Seq<u8>, x: u8)
    ensures
        number(digits.push(x)) == number(digits) + x * pow10(digits.len()),
    decreases digits.len(),
{
    let longer = digits.push(x);
    if digits.len() == 0 {
        assert(longer.drop_first() =~= Seq::<u8>::empty());
        assert(number(longer.drop_first()) == 0);
        assert(longer[0] == x);
        assert(number(longer) == x);
        assert(x * pow10(0) == x) by (nonlinear_arith)
            requires
                pow10(0) == 1,
        ;
    } else {
        let rest = digits.drop_first();
        lemma_number_push(rest, x);
        assert(longer.drop_first() =~= rest.push(x));
        assert(longer[0] == digits[0]);
        let p = pow10(rest.len());
        assert(pow10(digits.len()) == 10 * p);
        assert(10 * (x * p) == x * (10 * p)) by (nonlinear_arith);
        assert(number(longer) == digits[0] + 10 * number(rest.push(x)));
        assert(number(digits) == digits[0] + 10 * number(rest));
    }
}

/// The lowest `i + 1` digits denote what the lowest `i` denote, and the digit
/// at place `i` on top.
pub proof fn lemma_low_step(digits: Seq<u8>, i: int)
    requires
        0 <= i,
    ensures
        low(digits, i + 1) == low(digits, i) + digit_at(digits, i) * pow10(i as nat),
{
    if i < digits.len() {
        lemma_number_push(digits.take(i), digits[i]);
        assert(digits.take(i).push(digits[i]) =~= digits.take(i + 1));
        if i + 1 == digits.len() {
            assert(digits.take(i + 1) =~= digits);
        }
    } else {
        assert(0 * pow10(i as nat) == 0) by (nonlinear_arith);
    }
}

/// The lowest `i` digits denote a number below the `i`-th power of ten.
pub proof fn lemma_low_bound(digits: Seq<u8>, i: int)
    requires
        0 <= i,
        all_decimal(digits),
    ensures
        low(digits, i) < pow10(i as nat),
    decreases i,
{
    if i == 0 {
        if digits.len() > 0 {
            assert(digits.take(0) =~= Seq::<u8>::empty());
        }
    } else {
        lemma_low_bound(digits, i - 1);
        lemma_low_step(digits, i - 1);
        let p = pow10((i - 1) as nat);
        let d = digit_at(digits, i - 1);
        assert(d <= 9);
        assert(d * p <= 9 * p) by (nonlinear_arith)
            requires
                d <= 9,
        ;
    }
}

/// The digit of `digits` at place `i`, zero beyond the last.
fn place(digits: &Vec<u8>, i: usize) -> (d: u8)
    requires
        all_decimal(digits@),
    ensures
        d == digit_at(digits@, i as int),
        d < 10,
{
    if i < digits.len() {
        digits[i]
    } else {
        0
    }
}

/// The digits of the sum of two numbers.
fn add_digits(a: &Vec<u8>, b: &Vec<u8>) -> (sum: Vec<u8>)
    requires
        all_decimal(a@),
        all_decimal(b@),
    ensures
        all_decimal(sum@),
        number(sum@) == number(a@) + number(b@),
{
    let places = if a.len() > b.len() {
        a.len()
    } else {
        b.len()
    };
    let mut sum: Vec<u8> = Vec::new();
    let mut carry: u8 = 0;
    let mut i: usize = 0;
    assert(low(a@, 0) == 0 && low(b@, 0) == 0) by {
        assert(a@.take(0) =~= Seq::<u8>::empty());
        assert(b@.take(0) =~= Seq::<u8>::empty());
    }
    assert(0 * pow10(0) == 0) by (nonlinear_arith);
    while i < places
        invariant
            i <= places,
            places >= a@.len(),
            places >= b@.len(),
            all_decimal(a@),
            all_decimal(b@),
            all_decimal(sum@),
            sum@.len() == i,
            carry <= 1,
            number(sum@) + carry * pow10(i as nat) == low(a@, i as int) + low(b@, i as int),
        decreases places - i,
    {
        let x = place(a, i);
        let y = place(b, i);
        let s = x + y + carry;
        let d = s % 10;
        let c = s / 10;
        proof {
            lemma_low_step(a@, i as int);
            lemma_low_step(b@, i as int);
            lemma_number_push(sum@, d);
            let p = pow10(i as nat);
            assert(pow10((i + 1) as nat) == 10 * p);
            assert(d * p + c * (10 * p) == x * p + y * p + carry * p) by (nonlinear_arith)
                requires
                    d + 10 * c == x + y + carry,
            ;
        }
        sum.push(d);
        carry = c;
        i += 1;
    }
    if carry > 0 {
        proof {
            lemma_number_push(sum@, carry);
        }
        sum.push(carry);
    } else {
        assert(0 * pow10(i as nat) == 0) by (nonlinear_arith);
    }
    sum
}

/// The digits of a number times one digit.
fn mul_digit(a: &Vec<u8>, m: u8) -> (product: Vec<u8>)
    requires
        all_decimal(a@),
        m < 10,
    ensures
        all_decimal(product@),
        number(product@) == number(a@) * m,
{
    let mut product: Vec<u8> = Vec::new();
    let mut carry: u8 = 0;
    let mut i: usize = 0;
    assert(low(a@, 0) == 0) by {
        assert(a@.take(0) =~= Seq::<u8>::empty());
    }
    assert(0 * pow10(0) == 0 && 0 * m == 0) by (nonlinear_arith);
    while i < a.len()
        invariant
            i <= a@.len(),
            all_decimal(a@),
            all_decimal(product@),
            product@.len() == i,
            m < 10,
            carry <= 8,
            number(product@) + carry * pow10(i as nat) == low(a@, i as int) * m,
        decreases a@.len() - i,
    {
        let x = a[i];
        assert(x * m <= 81) by (nonlinear_arith)
            requires
                x <= 9,
                m <= 9,
        ;
        let s = x * m + carry;
        let d = s % 10;
        let c = s / 10;
        proof {
            lemma_low_step(a@, i as int);
            lemma_number_push(product@, d);
            let p = pow10(i as nat);
            let l = low(a@, i as int);
            assert(pow10((i + 1) as nat) == 10 * p);
            assert(d * p + c * (10 * p) + l * m == (l + x * p) * m + carry * p) by (nonlinear_arith)
                requires
                    d + 10 * c == x * m + carry,
            ;
        }
        product.push(d);
        carry = c;
        i += 1;
    }
    if carry > 0 {
        proof {
            lemma_number_push(product@, carry);
        }
        product.push(carry);
    } else {
        assert(0 * pow10(i as nat) == 0) by (nonlinear_arith);
    }
    product
}

/// The digits of a number times a power of ten.
fn shift_digits(a: &Vec<u8>, k: usize) -> (shifted: Vec<u8>)
    requires
        all_decimal(a@),
    ensures
        all_decimal(shifted@),
        number(shifted@) == number(a@) * pow10(k as nat),
{
    let mut shifted: Vec<u8> = Vec::new();
    let mut i: usize = 0;
    while i < k
        invariant
            i <= k,
            shifted@.len() == i,
            all_decimal(shifted@),
            number(shifted@) == 0,
        decreases k - i,
    {
        proof {
            lemma_number_push(shifted@, 0);
            assert(0 * pow10(i as nat) == 0) by (nonlinear_arith);
        }
        shifted.push(0);
        i += 1;
    }
    let mut j: usize = 0;
    assert(low(a@, 0) == 0) by {
        assert(a@.take(0) =~= Seq::<u8>::empty());
    }
    assert(0 * pow10(k as nat) == 0) by (nonlinear_arith);
    while j < a.len()
        invariant
            j <= a@.len(),
            all_decimal(a@),
            all_decimal(shifted@),
            shifted@.len() == k + j,
            number(shifted@) == low(a@, j as int) * pow10(k as nat),
        decreases a@.len() - j,
    {
        let x = a[j];
        proof {
            lemma_low_step(a@, j as int);
            lemma_number_push(shifted@, x);
            lemma_pow10_add(k as nat, j as nat);
            let pk = pow10(k as nat);
            let pj = pow10(j as nat);
            let l = low(a@, j as int);
            assert(l * pk + x * (pk * pj) == (l + x * pj) * pk) by (nonlinear_arith);
        }
        shifted.push(x);
        j += 1;
    }
    shifted
}

/// The digits of the product of two numbers.
fn mul_digits(a: &Vec<u8>, b: &Vec<u8>) -> (product: Vec<u8>)
    requires
        all_decimal(a@),
        all_decimal(b@),
    ensures
        all_decimal(product@),
        number(product@) == number(a@) * number(b@),
{
    let mut product: Vec<u8> = Vec::new();
    let mut j: usize = b.len();
    assert(number(a@) * 0 == 0) by (nonlinear_arith);
    assert(pow10(1) == 10) by {
        assert(pow10(0) == 1);
    }
    while j > 0
        invariant
            j <= b@.len(),
            all_decimal(a@),
            all_decimal(b@),
            all_decimal(product@),
            pow10(1) == 10,
            number(product@) == number(a@) * number(b@.skip(j as int)),
        decreases j,
    {
        j -= 1;
        let shifted = shift_digits(&product, 1);
        let partial = mul_digit(a, b[j]);
        proof {
            let rest = b@.skip(j as int);
            let higher = number(b@.skip(j + 1));
            let x = b@[j as int];
            let n = number(a@);
            assert(rest.drop_first() =~= b@.skip(j + 1));
            assert(rest[0] == x);
            assert(number(rest) == x + 10 * higher);
            assert((n * higher) * 10 + n * x == n * (x + 10 * higher)) by (nonlinear_arith);
        }
        product = add_digits(&shifted, &partial);
    }
    assert(b@.skip(0) =~= b@);
    product
}

/// Whether the first number is at most the second.
fn le_digits(a: &Vec<u8>, b: &Vec<u8>) -> (le: bool)
    requires
        all_decimal(a@),
        all_decimal(b@),
    ensures
        le == (number(a@) <= number(b@)),
{
    let places = if a.len() > b.len() {
        a.len()
    } else {
        b.len()
    };
    let mut less = false;
    let mut equal = true;
    let mut i: usize = 0;
    assert(low(a@, 0) == 0 && low(b@, 0) == 0) by {
        assert(a@.take(0) =~= Seq::<u8>::empty());
        assert(b@.take(0) =~= Seq::<u8>::empty());
    }
    while i < places
        invariant
            i <= places,
            places >= a@.len(),
            places >= b@.len(),
            all_decimal(a@),
            all_decimal(b@),
            equal == (low(a@, i as int) == low(b@, i as int)),
            less == (low(a@, i as int) < low(b@, i as int)),
        decreases places - i,
    {
        let x = place(a, i);
        let y = place(b, i);
        proof {
            lemma_low_step(a@, i as int);
            lemma_low_step(b@, i as int);
            lemma_low_bound(a@, i as int);
            lemma_low_bound(b@, i as int);
            let p = pow10(i as nat);
            let la = low(a@, i as int);
            let lb = low(b@, i as int);
            if x < y {
                assert(la + x * p < lb + y * p) by (nonlinear_arith)
                    requires
                        la < p,
                        x + 1 <= y,
                ;
            } else if x > y {
                assert(lb + y * p < la + x * p) by (nonlinear_arith)
                    requires
                        lb < p,
                        y + 1 <= x,
                ;
            }
        }
        if x < y {
            less = true;
            equal = false;
        } else if x > y {
            less = false;
            equal = false;
        }
        i += 1;
    }
    less || equal
}

/// The digits of a number of 64 bits.
fn digits_of(value: u64) -> (digits: Vec<u8>)
    ensures
        all_decimal(digits@),
        number(digits@) == value,
{
    let mut digits: Vec<u8> = Vec::new();
    let mut rest = value;
    assert(rest * pow10(0) == rest) by (nonlinear_arith)
        requires
            pow10(0) == 1,
    ;
    while rest > 0
        invariant
            all_decimal(digits@),
            number(digits@) + rest * pow10(digits@.len()) == value,
        decreases rest,
    {
        let d = (rest % 10) as u8;
        let higher = rest / 10;
        proof {
            lemma_number_push(digits@, d);
            let p = pow10(digits@.len());
            assert(pow10((digits@.len() + 1) as nat) == 10 * p);
            assert(d * p + higher * (10 * p) == rest * p) by (nonlinear_arith)
                requires
                    d + 10 * higher == rest,
            ;
        }
        digits.push(d);
        rest = higher;
    }
    assert(0 * pow10(digits@.len()) == 0) by (nonlinear_arith);
    digits
}

/// A natural number of any size.
#[derive(Debug)]
pub struct Natural {
    /// The decimal digits, the lowest first.
    digits: Vec<u8>,
}

impl View for Natural {
    type V = nat;

    closed spec fn view(&self) -> nat {
        number(self.digits@)
    }
}

impl Natural {
    #[verifier::type_invariant]
    spec fn decimal(self) -> bool {
        all_decimal(self.digits@)
    }

    /// The number whose digits these are, the lowest first; nothing where an
    /// element is no digit.
    pub fn from_digits(digits: Vec<u8>) -> (n: Option<Natural>)
        ensures
            n is Some <==> all_decimal(digits@),
            n is Some ==> n.unwrap()@ == number(digits@),
    {
        let mut i: usize = 0;
        while i < digits.len()
            invariant
                i <= digits@.len(),
                forall|k: int| 0 <= k < i ==> #[trigger] digits@[k] < 10,
            decreases digits@.len() - i,
        {
            if digits[i] >= 10 {
                return None;
            }
            i += 1;
        }
        Some(Natural { digits })
    }

    /// Zero.
    pub fn zero() -> (n: Natural)
        ensures
            n@ == 0,
    {
        Natural { digits: Vec::new() }
    }

    /// A number of 64 bits.
    pub fn from_u64(value: u64) -> (n: Natural)
        ensures
            n@ == value,
    {
        Natural { digits: digits_of(value) }
    }

    /// The sum of two numbers.
    pub fn plus(&self, other: &Natural) -> (sum: Natural)
        ensures
            sum@ == self@ + other@,
    {
        proof {
            use_type_invariant(self);
            use_type_invariant(other);
        }
        Natural { digits: add_digits(&self.digits, &other.digits) }
    }

    /// The product of two numbers.
    pub fn times(&self, other: &Natural) -> (product: Natural)
        ensures
            product@ == self@ * other@,
    {
        proof {
            use_type_invariant(self);
            use_type_invariant(other);
        }
        Natural { digits: mul_digits(&self.digits, &other.digits) }
    }

    /// The number times the `k`-th power of ten.
    pub fn times_pow10(&self, k: usize) -> (product: Natural)
        ensures
            product@ == self@ * pow10(k as nat),
    {
        proof {
            use_type_invariant(self);
        }
        Natural { digits: shift_digits(&self.digits, k) }
    }

    /// Whether this number is at most the other.
    pub fn at_most(&self, other: &Natural) -> (le: bool)
        ensures
            le == (self@ <= other@),
    {
        proof {
            use_type_invariant(self);
            use_type_invariant(other);
        }
        le_digits(&self.digits, &other.digits)
    }

    /// Whether the two numbers are the same, however many zeros lead them.
    pub fn same_as(&self, other: &Natural) -> (same: bool)
        ensures
            same == (self@ == other@),
    {
        self.at_most(other) && other.at_most(self)
    }

    /// Whether the number is zero.
    pub fn is_zero(&self) -> (zero: bool)
        ensures
            zero == (self@ == 0),
    {
        let none = Natural::zero();
        self.at_most(&none)
    }
}

} // verus!
