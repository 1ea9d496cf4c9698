//! Natural numbers of any size, in decimal digits.

use vstd::prelude::*;

use crate::text;

verus! {

// ---------------------------------------------------------------------------
// Digits and what they stand for
// ---------------------------------------------------------------------------

/// Ten to the power of `n`.
pub open spec fn pow10(n: nat) -> nat
    decreases n,
{
    if n == 0 {
        1
    } else {
        10 * pow10((n - 1) as nat)
    }
}

/// The number that decimal digits stand for, the lowest first.
pub open spec fn value(digits: Seq<u8>) -> nat
    decreases digits.len(),
{
    if digits.len() == 0 {
        0
    } else {
        value(digits.drop_last()) + digits.last() as nat * pow10((digits.len() - 1) as nat)
    }
}

/// Every element is a decimal digit.
pub open spec fn all_digits(digits: Seq<u8>) -> bool {
    forall|i: int| 0 <= i < digits.len() ==> #[trigger] digits[i] < 10
}

/// Digit `i`, zero above the highest one.
spec fn digit(digits: Seq<u8>, i: int) -> int {
    if 0 <= i < digits.len() {
        digits[i] as int
    } else {
        0
    }
}

/// The number that the lowest `i` digits stand for.
spec fn low(digits: Seq<u8>, i: nat) -> nat {
    if i <= digits.len() {
        value(digits.take(i as int))
    } else {
        value(digits)
    }
}

pub proof fn pow10_positive(n: nat)
    ensures
        pow10(n) >= 1,
    decreases n,
{
    if n > 0 {
        pow10_positive((n - 1) as nat);
    }
}

pub proof fn pow10_adds(a: nat, b: nat)
    ensures
        pow10(a + b) == pow10(a) * pow10(b),
    decreases a,
{
    if a == 0 {
        assert(pow10(0) * pow10(b) == pow10(b)) by (nonlinear_arith)
            requires
                pow10(0) == 1,
        ;
    } else {
        pow10_adds((a - 1) as nat, b);
        let p = pow10((a - 1) as nat) as int;
        let q = pow10(b) as int;
        assert(10 * (p * q) == (10 * p) * q) by (nonlinear_arith);
        assert((a - 1) as nat + b == (a + b - 1) as nat);
    }
}

proof fn low_step(digits: Seq<u8>, i: nat)
    ensures
        low(digits, i + 1) == low(digits, i) + digit(digits, i as int) * pow10(i),
{
    if i + 1 <= digits.len() {
        assert(digits.take((i + 1) as int).drop_last() =~= digits.take(i as int));
    } else {
        if i == digits.len() {
            assert(digits.take(i as int) =~= digits);
        }
        assert(0 * pow10(i) == 0) by (nonlinear_arith);
    }
}

proof fn low_bound(digits: Seq<u8>, i: nat)
    requires
        all_digits(digits),
    ensures
        low(digits, i) < pow10(i),
    decreases i,
{
    if i == 0 {
        assert(digits.take(0).len() == 0);
    } else {
        low_bound(digits, (i - 1) as nat);
        low_step(digits, (i - 1) as nat);
        let d = digit(digits, i - 1);
        let p = pow10((i - 1) as nat) as int;
        assert(0 <= d <= 9);
        assert(d * p <= 9 * p) by (nonlinear_arith)
            requires
                d <= 9,
                p >= 0,
        ;
    }
}

/// `n` digits stand for a number below ten to the power of `n`.
pub proof fn value_bound(digits: Seq<u8>)
    requires
        all_digits(digits),
    ensures
        value(digits) < pow10(digits.len()),
{
    low_bound(digits, digits.len());
    assert(digits.take(digits.len() as int) =~= digits);
}

proof fn low_full(digits: Seq<u8>, i: nat)
    requires
        i >= digits.len(),
    ensures
        low(digits, i) == value(digits),
{
    assert(digits.take(digits.len() as int) =~= digits);
}

/// Appending a highest digit adds its value.
pub proof fn value_push(digits: Seq<u8>, d: u8)
    ensures
        value(digits.push(d)) == value(digits) + d as nat * pow10(digits.len()),
{
    assert(digits.push(d).drop_last() =~= digits);
}

/// A lower part and a higher part.
pub proof fn value_concat(a: Seq<u8>, b: Seq<u8>)
    ensures
        value(a + b) == value(a) + value(b) * pow10(a.len()),
    decreases b.len(),
{
    if b.len() == 0 {
        assert(a + b =~= a);
        assert(0 * pow10(a.len()) == 0) by (nonlinear_arith);
    } else {
        let c = b.drop_last();
        value_concat(a, c);
        assert((a + b).drop_last() =~= a + c);
        pow10_adds(a.len(), c.len());
        let x = value(c) as int;
        let d = b.last() as int;
        let p = pow10(a.len()) as int;
        let q = pow10(c.len()) as int;
        assert((x + d * q) * p == x * p + d * (p * q)) by (nonlinear_arith);
    }
}

/// Putting a lowest digit in front makes ten times the rest and the digit.
pub proof fn value_prepend(d: u8, rest: Seq<u8>)
    ensures
        value(seq![d] + rest) == d + 10 * value(rest),
{
    let head = seq![d];
    value_concat(head, rest);
    assert(head.drop_last() =~= Seq::<u8>::empty());
    assert(pow10(0) == 1);
    assert(pow10(1) == 10 * pow10(0));
    assert(value(head) == d) by (nonlinear_arith)
        requires
            value(head) == value(head.drop_last()) + head.last() as nat * pow10(0),
            value(head.drop_last()) == 0,
            head.last() == d,
            pow10(0) == 1,
    ;
    assert(value(rest) * 10 == 10 * value(rest)) by (nonlinear_arith);
}

proof fn value_of_zeros(digits: Seq<u8>)
    requires
        forall|i: int| 0 <= i < digits.len() ==> #[trigger] digits[i] == 0,
    ensures
        value(digits) == 0,
    decreases digits.len(),
{
    if digits.len() > 0 {
        value_of_zeros(digits.drop_last());
        assert(0 * pow10((digits.len() - 1) as nat) == 0) by (nonlinear_arith);
    }
}

/// The highest digit is not zero.
pub open spec fn trimmed(digits: Seq<u8>) -> bool {
    digits.len() > 0 ==> digits.last() != 0
}

/// A number with a highest digit is at least that digit's power of ten.
pub proof fn trimmed_lower_bound(digits: Seq<u8>)
    requires
        digits.len() > 0,
        trimmed(digits),
    ensures
        value(digits) >= pow10((digits.len() - 1) as nat),
        value(digits) > 0,
{
    let d = digits.last() as int;
    let p = pow10((digits.len() - 1) as nat) as int;
    pow10_positive((digits.len() - 1) as nat);
    assert(d * p >= p) by (nonlinear_arith)
        requires
            d >= 1,
            p >= 1,
    ;
}

/// A quotient is determined by its remainder.
pub proof fn quotient_unique(x: int, d: int, q: int, r: int)
    requires
        x == q * d + r,
        0 <= r < d,
    ensures
        x / d == q,
        x % d == r,
{
    vstd::arithmetic::div_mod::lemma_fundamental_div_mod_converse(x, d, q, r);
}

/// More digits stand for a greater power of ten.
pub proof fn pow10_grows(a: nat, b: nat)
    requires
        a <= b,
    ensures
        pow10(a) <= pow10(b),
    decreases b - a,
{
    if a < b {
        pow10_grows(a, (b - 1) as nat);
    }
}

/// Each number has one spelling without high zeros.
pub proof fn spelling_is_unique(a: Seq<u8>, b: Seq<u8>)
    requires
        all_digits(a),
        all_digits(b),
        trimmed(a),
        trimmed(b),
        value(a) == value(b),
    ensures
        a == b,
    decreases a.len() + b.len(),
{
    value_bound(a);
    value_bound(b);
    if a.len() > 0 {
        trimmed_lower_bound(a);
    }
    if b.len() > 0 {
        trimmed_lower_bound(b);
    }
    if a.len() < b.len() {
        pow10_grows(a.len(), (b.len() - 1) as nat);
    }
    if b.len() < a.len() {
        pow10_grows(b.len(), (a.len() - 1) as nat);
    }
    assert(a.len() == b.len());
    same_length_unique(a, b);
}

proof fn same_length_unique(a: Seq<u8>, b: Seq<u8>)
    requires
        all_digits(a),
        all_digits(b),
        a.len() == b.len(),
        value(a) == value(b),
    ensures
        a == b,
    decreases a.len(),
{
    if a.len() == 0 {
        assert(a =~= b);
    } else {
        let n = (a.len() - 1) as nat;
        let p = pow10(n) as int;
        let x = a.last() as int;
        let y = b.last() as int;
        let u = value(a.drop_last()) as int;
        let v = value(b.drop_last()) as int;
        value_bound(a.drop_last());
        value_bound(b.drop_last());
        assert(x == y) by (nonlinear_arith)
            requires
                u + x * p == v + y * p,
                0 <= u < p,
                0 <= v < p,
        ;
        same_length_unique(a.drop_last(), b.drop_last());
        assert(a =~= a.drop_last().push(a.last()));
        assert(b =~= b.drop_last().push(b.last()));
    }
}

// ---------------------------------------------------------------------------
// Numbers
// ---------------------------------------------------------------------------

/// A natural number of any size.
#[derive(Debug, PartialEq, Eq)]
pub struct Natural {
    /// The decimal digits, the lowest first, without high zeros.
    digits: Vec<u8>,
}

impl View for Natural {
    type V = nat;

    closed spec fn view(&self) -> nat {
        value(self.digits@)
    }
}

/// The order of two numbers.
#[derive(Debug, Clone, Copy, PartialEq, Eq, Structural)]
pub enum Order {
    Less,
    Same,
    Greater,
}

/// The order of two numbers.
pub open spec fn order_of(a: int, b: int) -> Order {
    if a < b {
        Order::Less
    } else if a == b {
        Order::Same
    } else {
        Order::Greater
    }
}

fn digit_at(digits: &Vec<u8>, i: usize) -> (r: u8)
    ensures
        r == digit(digits@, i as int),
{
    if i < digits.len() {
        digits[i]
    } else {
        0
    }
}

fn longer(a: &Vec<u8>, b: &Vec<u8>) -> (n: usize)
    ensures
        n >= a@.len(),
        n >= b@.len(),
        n == a@.len() || n == b@.len(),
{
    if a.len() >= b.len() {
        a.len()
    } else {
        b.len()
    }
}

/// The same number without high zeros.
fn trim(digits: Vec<u8>) -> (r: Natural)
    requires
        all_digits(digits@),
    ensures
        r@ == value(digits@),
{
    let mut d = digits;
    while d.len() > 0 && d[d.len() - 1] == 0
        invariant
            all_digits(d@),
            value(d@) == value(digits@),
        decreases d@.len(),
    {
        let ghost before = d@;
        let _ = d.pop();
        proof {
            assert(d@ =~= before.drop_last());
            assert(0 * pow10((before.len() - 1) as nat) == 0) by (nonlinear_arith);
        }
    }
    Natural { digits: d }
}

impl Natural {
    #[verifier::type_invariant]
    spec fn spelled(&self) -> bool {
        all_digits(self.digits@) && trimmed(self.digits@)
    }

    /// The number's digits, the lowest first.
    pub closed spec fn digits(&self) -> Seq<u8> {
        self.digits@
    }

    /// Zero.
    pub fn zero() -> (r: Natural)
        ensures
            r@ == 0,
    {
        Natural { digits: Vec::new() }
    }

    /// The number that the given digits stand for, the lowest first.
    pub fn from_digits(digits: Vec<u8>) -> (r: Natural)
        requires
            all_digits(digits@),
        ensures
            r@ == value(digits@),
    {
        trim(digits)
    }

    /// The number `n`.
    pub fn from_u128(n: u128) -> (r: Natural)
        ensures
            r@ == n,
    {
        let mut rest: u128 = n;
        let mut digits: Vec<u8> = Vec::new();
        proof {
            assert(n * pow10(0) == n) by (nonlinear_arith)
                requires
                    pow10(0) == 1,
            ;
        }
        while rest > 0
            invariant
                all_digits(digits@),
                value(digits@) + rest * pow10(digits@.len()) == n,
            decreases rest,
        {
            let d: u8 = (rest % 10) as u8;
            let next: u128 = rest / 10;
            proof {
                value_push(digits@, d);
                let p = pow10(digits@.len()) as int;
                let k = digits@.len();
                assert(pow10(k + 1) == 10 * pow10(k));
                assert(rest * p == d * p + next * (10 * p)) by (nonlinear_arith)
                    requires
                        rest == d + 10 * next,
                ;
            }
            digits.push(d);
            rest = next;
        }
        proof {
            assert(0 * pow10(digits@.len()) == 0) by (nonlinear_arith);
        }
        trim(digits)
    }

    /// A copy.
    pub fn copy(&self) -> (r: Natural)
        ensures
            r@ == self@,
    {
        proof {
            use_type_invariant(self);
        }
        let mut digits: Vec<u8> = Vec::new();
        let mut i: usize = 0;
        while i < self.digits.len()
            invariant
                0 <= i <= self.digits@.len(),
                digits@ =~= self.digits@.take(i as int),
            decreases self.digits@.len() - i,
        {
            digits.push(self.digits[i]);
            i += 1;
        }
        assert(digits@ =~= self.digits@);
        Natural { digits }
    }

    /// Whether the number is zero.
    pub fn is_zero(&self) -> (r: bool)
        ensures
            r == (self@ == 0),
    {
        proof {
            use_type_invariant(self);
            if self.digits@.len() > 0 {
                trimmed_lower_bound(self.digits@);
            }
        }
        self.digits.len() == 0
    }

    /// The number of decimal digits; zero has none.
    pub fn len(&self) -> (r: usize)
        ensures
            self@ < pow10(r as nat),
            r > 0 ==> self@ >= pow10((r - 1) as nat),
    {
        proof {
            use_type_invariant(self);
            value_bound(self.digits@);
            if self.digits@.len() > 0 {
                trimmed_lower_bound(self.digits@);
            }
        }
        self.digits.len()
    }

    /// The number as a machine integer.
    pub fn to_u64(&self) -> (r: u64)
        requires
            self@ <= u64::MAX,
        ensures
            r == self@,
    {
        proof {
            use_type_invariant(self);
        }
        let mut r: u64 = 0;
        let mut i: usize = self.digits.len();
        assert(self.digits@.skip(i as int) =~= seq![]);
        while i > 0
            invariant
                0 <= i <= self.digits@.len(),
                all_digits(self.digits@),
                self@ == value(self.digits@),
                self@ <= u64::MAX,
                r == value(self.digits@.skip(i as int)),
            decreases i,
        {
            i -= 1;
            let digit: u8 = self.digits[i];
            proof {
                let tail = self.digits@.skip(i as int);
                assert(tail =~= seq![digit] + self.digits@.skip(i + 1));
                value_prepend(digit, self.digits@.skip(i + 1));
                let head = self.digits@.take(i as int);
                assert(self.digits@ =~= head + tail);
                value_concat(head, tail);
                pow10_positive(i as nat);
                assert(value(tail) * pow10(i as nat) >= value(tail)) by (nonlinear_arith)
                    requires
                        pow10(i as nat) >= 1,
                ;
            }
            r = 10 * r + digit as u64;
        }
        assert(self.digits@.skip(0) =~= self.digits@);
        r
    }

    /// The sum.
    pub fn plus(&self, other: &Natural) -> (r: Natural)
        ensures
            r@ == self@ + other@,
    {
        proof {
            use_type_invariant(self);
            use_type_invariant(other);
        }
        let a = &self.digits;
        let b = &other.digits;
        let n = longer(a, b);
        let mut sum: Vec<u8> = Vec::new();
        let mut carry: u8 = 0;
        let mut i: usize = 0;
        proof {
            assert(a@.take(0).len() == 0);
            assert(b@.take(0).len() == 0);
            assert(0 * pow10(0) == 0);
        }
        while i < n
            invariant
                0 <= i <= n,
                all_digits(a@),
                all_digits(b@),
                all_digits(sum@),
                sum@.len() == i,
                carry <= 1,
                value(sum@) + carry * pow10(i as nat) == low(a@, i as nat) + low(b@, i as nat),
            decreases n - i,
        {
            let x: u8 = digit_at(a, i);
            let y: u8 = digit_at(b, i);
            let t: u8 = x + y + carry;
            let d: u8 = t % 10;
            let c: u8 = t / 10;
            proof {
                low_step(a@, i as nat);
                low_step(b@, i as nat);
                value_push(sum@, d);
                let p = pow10(i as nat) as int;
                assert(pow10((i + 1) as nat) == 10 * pow10(i as nat));
                assert(d * p + c * (10 * p) == x * p + y * p + carry * p) by (nonlinear_arith)
                    requires
                        d + 10 * c == x + y + carry,
                ;
            }
            sum.push(d);
            carry = c;
            i += 1;
        }
        proof {
            low_full(a@, n as nat);
            low_full(b@, n as nat);
            value_push(sum@, carry);
        }
        sum.push(carry);
        trim(sum)
    }

    /// The product with a small number.
    pub fn times(&self, f: u32) -> (r: Natural)
        ensures
            r@ == self@ * f,
    {
        proof {
            use_type_invariant(self);
        }
        let a = &self.digits;
        let mut product: Vec<u8> = Vec::new();
        let mut carry: u64 = 0;
        let mut i: usize = 0;
        proof {
            assert(a@.take(0).len() == 0);
            assert(0 * pow10(0) == 0);
            assert(0 * (f as int) == 0) by (nonlinear_arith);
        }
        while i < a.len()
            invariant
                0 <= i <= a@.len(),
                all_digits(a@),
                all_digits(product@),
                product@.len() == i,
                carry <= f,
                value(product@) + carry * pow10(i as nat) == low(a@, i as nat) * f,
            decreases a@.len() - i,
        {
            let x: u8 = a[i];
            assert(x * f <= 9 * f) by (nonlinear_arith)
                requires
                    x <= 9,
            ;
            let t: u64 = x as u64 * f as u64 + carry;
            let d: u8 = (t % 10) as u8;
            let c: u64 = t / 10;
            proof {
                low_step(a@, i as nat);
                value_push(product@, d);
                let p = pow10(i as nat) as int;
                let lo = low(a@, i as nat) as int;
                let y = x as int;
                let g = f as int;
                assert(pow10((i + 1) as nat) == 10 * pow10(i as nat));
                assert((lo + y * p) * g == lo * g + (y * g) * p) by (nonlinear_arith);
                let e = d as int;
                let h = c as int;
                let k = carry as int;
                assert(e * p + h * (10 * p) == (y * g) * p + k * p) by (nonlinear_arith)
                    requires
                        e + 10 * h == y * g + k,
                ;
            }
            product.push(d);
            carry = c;
            i += 1;
        }
        proof {
            low_full(a@, a@.len());
        }
        let ghost whole = (self@ * f) as int;
        while carry > 0
            invariant
                all_digits(product@),
                value(product@) + carry * pow10(product@.len()) == whole,
            decreases carry,
        {
            let d: u8 = (carry % 10) as u8;
            let c: u64 = carry / 10;
            proof {
                value_push(product@, d);
                let p = pow10(product@.len()) as int;
                let e = d as int;
                let h = c as int;
                let k = carry as int;
                assert(pow10(product@.len() + 1) == 10 * pow10(product@.len()));
                assert(e * p + h * (10 * p) == k * p) by (nonlinear_arith)
                    requires
                        e + 10 * h == k,
                ;
            }
            product.push(d);
            carry = c;
        }
        assert(0 * pow10(product@.len()) == 0) by (nonlinear_arith);
        trim(product)
    }

    /// The difference.
    pub fn minus(&self, other: &Natural) -> (r: Natural)
        requires
            other@ <= self@,
        ensures
            r@ == self@ - other@,
    {
        proof {
            use_type_invariant(self);
            use_type_invariant(other);
        }
        let a = &self.digits;
        let b = &other.digits;
        let n = longer(a, b);
        let mut rest: Vec<u8> = Vec::new();
        let mut borrow: u8 = 0;
        let mut i: usize = 0;
        proof {
            assert(a@.take(0).len() == 0);
            assert(b@.take(0).len() == 0);
            assert(0 * pow10(0) == 0);
        }
        while i < n
            invariant
                0 <= i <= n,
                all_digits(a@),
                all_digits(b@),
                all_digits(rest@),
                rest@.len() == i,
                borrow <= 1,
                value(rest@) + low(b@, i as nat) == low(a@, i as nat) + borrow * pow10(i as nat),
            decreases n - i,
        {
            let x: u8 = digit_at(a, i);
            let y: u8 = digit_at(b, i);
            let short = x < y + borrow;
            let d: u8 = if short {
                x + 10 - y - borrow
            } else {
                x - y - borrow
            };
            let c: u8 = if short {
                1
            } else {
                0
            };
            proof {
                low_step(a@, i as nat);
                low_step(b@, i as nat);
                value_push(rest@, d);
                let p = pow10(i as nat) as int;
                assert(pow10((i + 1) as nat) == 10 * pow10(i as nat));
                assert(d * p + y * p + borrow * p == x * p + c * (10 * p)) by (nonlinear_arith)
                    requires
                        d + y + borrow == x + 10 * c,
                ;
            }
            rest.push(d);
            borrow = c;
            i += 1;
        }
        proof {
            low_full(a@, n as nat);
            low_full(b@, n as nat);
            value_bound(rest@);
            let p = pow10(n as nat) as int;
            if borrow == 1 {
                assert(1 * p == p);
                assert(false);
            }
            assert(0 * p == 0);
        }
        trim(rest)
    }

    /// The order of two numbers.
    pub fn order(&self, other: &Natural) -> (r: Order)
        ensures
            r == order_of(self@ as int, other@ as int),
    {
        proof {
            use_type_invariant(self);
            use_type_invariant(other);
        }
        let a = &self.digits;
        let b = &other.digits;
        let n = longer(a, b);
        proof {
            low_full(a@, n as nat);
            low_full(b@, n as nat);
        }
        let mut i: usize = n;
        while i > 0
            invariant
                0 <= i <= n,
                all_digits(a@),
                all_digits(b@),
                self@ == value(a@),
                other@ == value(b@),
                value(a@) - low(a@, i as nat) == value(b@) - low(b@, i as nat),
            decreases i,
        {
            i -= 1;
            let x: u8 = digit_at(a, i);
            let y: u8 = digit_at(b, i);
            proof {
                low_step(a@, i as nat);
                low_step(b@, i as nat);
                low_bound(a@, i as nat);
                low_bound(b@, i as nat);
                let p = pow10(i as nat) as int;
                if x < y {
                    assert(x * p + p <= y * p) by (nonlinear_arith)
                        requires
                            x + 1 <= y,
                            p >= 0,
                    ;
                }
                if y < x {
                    assert(y * p + p <= x * p) by (nonlinear_arith)
                        requires
                            y + 1 <= x,
                            p >= 0,
                    ;
                }
            }
            if x < y {
                return Order::Less;
            }
            if y < x {
                return Order::Greater;
            }
        }
        proof {
            assert(a@.take(0).len() == 0);
            assert(b@.take(0).len() == 0);
        }
        Order::Same
    }

    /// The number times ten to the power of `k`.
    pub fn scaled(&self, k: usize) -> (r: Natural)
        ensures
            r@ == self@ * pow10(k as nat),
    {
        proof {
            use_type_invariant(self);
        }
        let mut digits: Vec<u8> = Vec::new();
        let mut i: usize = 0;
        while i < k
            invariant
                0 <= i <= k,
                digits@.len() == i,
                forall|j: int| 0 <= j < i ==> #[trigger] digits@[j] == 0,
            decreases k - i,
        {
            digits.push(0);
            i += 1;
        }
        let ghost zeros = digits@;
        let mut i: usize = 0;
        while i < self.digits.len()
            invariant
                0 <= i <= self.digits@.len(),
                all_digits(self.digits@),
                digits@ =~= zeros + self.digits@.take(i as int),
            decreases self.digits@.len() - i,
        {
            digits.push(self.digits[i]);
            i += 1;
        }
        proof {
            assert(digits@ =~= zeros + self.digits@);
            value_of_zeros(zeros);
            value_concat(zeros, self.digits@);
            assert(all_digits(digits@));
        }
        trim(digits)
    }

    /// The number divided by ten to the power of `k`, rounded down.
    pub fn unscaled(&self, k: usize) -> (r: Natural)
        ensures
            r@ == self@ / pow10(k as nat),
    {
        proof {
            use_type_invariant(self);
            value_bound(self.digits@);
            pow10_positive(k as nat);
        }
        let n: usize = self.digits.len();
        if k >= n {
            proof {
                pow10_grows(n as nat, k as nat);
                quotient_unique(self@ as int, pow10(k as nat) as int, 0, self@ as int);
            }
            return Natural::zero();
        }
        let mut digits: Vec<u8> = Vec::new();
        let mut i: usize = k;
        while i < n
            invariant
                k <= i <= n == self.digits@.len(),
                all_digits(self.digits@),
                digits@ =~= self.digits@.subrange(k as int, i as int),
                all_digits(digits@),
            decreases n - i,
        {
            digits.push(self.digits[i]);
            i += 1;
        }
        proof {
            let low_part = self.digits@.take(k as int);
            assert(self.digits@ =~= low_part + digits@);
            value_concat(low_part, digits@);
            value_bound(low_part);
            quotient_unique(
                self@ as int,
                pow10(k as nat) as int,
                value(digits@) as int,
                value(low_part) as int,
            );
        }
        trim(digits)
    }

    /// The number times ten, plus the digit `d`.
    fn appended(&self, d: u8) -> (r: Natural)
        requires
            d < 10,
        ensures
            r@ == 10 * self@ + d,
    {
        proof {
            use_type_invariant(self);
        }
        let mut digits: Vec<u8> = Vec::new();
        digits.push(d);
        let ghost first = digits@;
        let mut i: usize = 0;
        while i < self.digits.len()
            invariant
                0 <= i <= self.digits@.len(),
                all_digits(self.digits@),
                d < 10,
                digits@ =~= first + self.digits@.take(i as int),
                first =~= seq![d],
            decreases self.digits@.len() - i,
        {
            digits.push(self.digits[i]);
            i += 1;
        }
        proof {
            assert(digits@ =~= seq![d] + self.digits@);
            value_prepend(d, self.digits@);
        }
        trim(digits)
    }

    /// The whole quotient and the remainder.
    pub fn divided(&self, by: &Natural) -> (r: (Natural, Natural))
        requires
            by@ > 0,
        ensures
            self@ == r.0@ * by@ + r.1@,
            r.1@ < by@,
    {
        proof {
            use_type_invariant(self);
        }
        let mut quotient = Natural::zero();
        let mut rest = Natural::zero();
        let mut i: usize = self.digits.len();
        proof {
            assert(self.digits@.skip(i as int).len() == 0);
            assert(0 * by@ == 0) by (nonlinear_arith);
        }
        while i > 0
            invariant
                0 <= i <= self.digits@.len(),
                all_digits(self.digits@),
                by@ > 0,
                value(self.digits@.skip(i as int)) == quotient@ * by@ + rest@,
                rest@ < by@,
            decreases i,
        {
            i -= 1;
            let ghost q0 = quotient@ as int;
            let ghost b = by@ as int;
            let ghost r0 = rest@ as int;
            let digit: u8 = self.digits[i];
            proof {
                let tail = self.digits@.skip(i as int);
                assert(tail =~= seq![digit] + self.digits@.skip(i + 1));
                value_prepend(digit, self.digits@.skip(i + 1));
            }
            rest = rest.appended(digit);
            let ghost r1 = rest@ as int;
            let mut d: u8 = 0;
            proof {
                assert(0 * b == 0) by (nonlinear_arith);
            }
            while d < 9 && rest.order(by) != Order::Less
                invariant
                    d <= 9,
                    b == by@,
                    b > 0,
                    r1 < 10 * b,
                    rest@ + d * b == r1,
                decreases 9 - d,
            {
                rest = rest.minus(by);
                proof {
                    assert((d + 1) * b == d * b + b) by (nonlinear_arith);
                }
                d += 1;
            }
            proof {
                if d == 9 {
                    assert(rest@ < b);
                }
                assert((10 * q0 + d) * b == 10 * (q0 * b) + d * b) by (nonlinear_arith);
            }
            quotient = quotient.appended(d);
        }
        assert(self.digits@.skip(0) =~= self.digits@);
        (quotient, rest)
    }

    /// The number in decimal.
    pub fn to_string(&self) -> (r: String)
        ensures
            r@ == text::decimal(self@),
    {
        proof {
            use_type_invariant(self);
        }
        let n: usize = self.digits.len();
        if n == 0 {
            let mut r = String::new();
            r.push('0');
            assert(r@ =~= text::decimal(0));
            return r;
        }
        let mut r = String::new();
        let mut i: usize = n;
        proof {
            assert(self.digits@.skip(n as int).len() == 0);
        }
        while i > 0
            invariant
                0 <= i <= n == self.digits@.len(),
                n > 0,
                all_digits(self.digits@),
                trimmed(self.digits@),
                i == n ==> r@.len() == 0,
                i < n ==> value(self.digits@.skip(i as int)) > 0 && r@ == text::decimal(
                    value(self.digits@.skip(i as int)),
                ),
            decreases i,
        {
            i -= 1;
            let d: u8 = self.digits[i];
            let ghost tail = self.digits@.skip(i as int);
            let ghost rest = self.digits@.skip(i + 1);
            proof {
                assert(tail =~= seq![d] + rest);
                value_prepend(d, rest);
                assert(value(tail) / 10 == value(rest));
                assert(value(tail) % 10 == d);
                if i == n - 1 {
                    assert(rest.len() == 0);
                    assert(d == self.digits@.last());
                }
            }
            let ghost before = r@;
            r.push(text::char_of_digit(d));
            proof {
                if i == n - 1 {
                    assert(r@ =~= text::decimal(value(tail)));
                } else {
                    assert(value(tail) >= 10);
                    assert(r@ =~= text::decimal(value(tail)));
                }
            }
        }
        assert(self.digits@.skip(0) =~= self.digits@);
        r
    }
}

/// Two numbers with the same value are spelled the same.
pub proof fn natural_is_its_value(a: Seq<u8>, b: Seq<u8>)
    requires
        all_digits(a) && trimmed(a),
        all_digits(b) && trimmed(b),
    ensures
        value(a) == value(b) <==> a == b,
{
    if value(a) == value(b) {
        spelling_is_unique(a, b);
    }
}

} // verus!
