//! Extraction of the first number in a piece of text, and exact comparison
//! of such numbers.
use vstd::prelude::*;
use crate::text::{chars_of, push_chars};

verus! {

/// `10^n`.
pub open spec fn pow10(n: nat) -> nat
    decreases n,
{
    if n == 0 {
        1
    } else {
        10 * pow10((n - 1) as nat)
    }
}

/// The natural number written by the decimal digits `d` (most significant first).
pub open spec fn digits_value(d: Seq<u8>) -> nat
    decreases d.len(),
{
    if d.len() == 0 {
        0
    } else {
        digits_value(d.drop_last()) * 10 + (d.last() as nat)
    }
}

/// Every entry of `d` is a decimal digit.
pub open spec fn all_digits(d: Seq<u8>) -> bool {
    forall|i: int| 0 <= i < d.len() ==> d[i] < 10
}

/// `c` is one of `'0'..='9'`.
pub open spec fn is_digit(c: char) -> bool {
    '0' <= c && c <= '9'
}

/// The value of the decimal digit `c`.
pub open spec fn digit_of(c: char) -> u8 {
    (c as int - '0' as int) as u8
}

/// The state of the left-to-right scan for the first number.
pub struct ScanState {
    pub negative: bool,
    pub int_digits: Seq<u8>,
    pub has_dot: bool,
    pub frac_digits: Seq<u8>,
    pub done: bool,
}

/// The state before any character is read.
pub open spec fn scan_start() -> ScanState {
    ScanState { negative: false, int_digits: seq![], has_dot: false, frac_digits: seq![], done: false }
}

/// One step of the scan. Digits accumulate; one `.` after a digit starts the
/// fraction; `,` after a digit is a thousands separator and is skipped; a `-`
/// before anything else marks the number negative. Any other character ends
/// the number once a digit has been seen, and otherwise discards what was
/// collected so far.
pub open spec fn scan_step(st: ScanState, c: char) -> ScanState {
    if st.done {
        st
    } else if is_digit(c) {
        if st.has_dot {
            ScanState { frac_digits: st.frac_digits.push(digit_of(c)), ..st }
        } else {
            ScanState { int_digits: st.int_digits.push(digit_of(c)), ..st }
        }
    } else if c == '.' && st.int_digits.len() > 0 && !st.has_dot {
        ScanState { has_dot: true, ..st }
    } else if c == ',' && st.int_digits.len() > 0 {
        st
    } else if c == '-' && !st.negative && st.int_digits.len() == 0 && !st.has_dot
        && st.frac_digits.len() == 0 {
        ScanState { negative: true, ..st }
    } else if st.int_digits.len() > 0 {
        ScanState { done: true, ..st }
    } else {
        scan_start()
    }
}

/// The scan state after reading all of `s`.
pub open spec fn scan(s: Seq<char>) -> ScanState
    decreases s.len(),
{
    if s.len() == 0 {
        scan_start()
    } else {
        scan_step(scan(s.drop_last()), s.last())
    }
}

/// The abstract value of a [`Number`].
pub struct NumberView {
    pub negative: bool,
    pub int_digits: Seq<u8>,
    pub has_dot: bool,
    pub frac_digits: Seq<u8>,
}

/// The first number in `s`, if `s` holds a digit at all.
pub open spec fn first_number(s: Seq<char>) -> Option<NumberView> {
    let st = scan(s);
    if st.int_digits.len() > 0 {
        Some(
            NumberView {
                negative: st.negative,
                int_digits: st.int_digits,
                has_dot: st.has_dot,
                frac_digits: st.frac_digits,
            },
        )
    } else {
        None
    }
}

/// All the digits of `n`, the fraction's after the integer part's.
pub open spec fn all_digits_of(n: NumberView) -> Seq<u8> {
    n.int_digits + n.frac_digits
}

/// `n` times `10^k`, where `n` is read as a signed decimal: this is an integer.
pub open spec fn scaled(n: NumberView, k: nat) -> int {
    let m = digits_value(all_digits_of(n)) * pow10(k);
    if n.negative {
        -m
    } else {
        m as int
    }
}

/// `-1`, `0` or `1` as `a` is less than, equal to, or greater than `b`.
pub open spec fn order_int(a: int, b: int) -> int {
    if a < b {
        -1
    } else if a == b {
        0
    } else {
        1
    }
}

/// The numeric order of two decimals: `a/10^ka` against `b/10^kb`, compared
/// as `a*10^kb` against `b*10^ka`.
pub open spec fn number_order(a: NumberView, b: NumberView) -> int {
    order_int(scaled(a, b.frac_digits.len()), scaled(b, a.frac_digits.len()))
}

/// The digit character for `d`.
pub open spec fn digit_char(d: u8) -> char {
    (d + 48) as char
}

/// The text of a number: an optional `-`, the integer digits, and, when a
/// dot was read, the dot and the fraction digits.
pub open spec fn number_text(n: NumberView) -> Seq<char> {
    (if n.negative { seq!['-'] } else { seq![] }) + n.int_digits.map_values(|d: u8| digit_char(d))
        + (if n.has_dot { seq!['.'] } else { seq![] }) + n.frac_digits.map_values(
        |d: u8| digit_char(d),
    )
}

proof fn lemma_pow10_positive(n: nat)
    ensures
        pow10(n) >= 1,
    decreases n,
{
    if n > 0 {
        lemma_pow10_positive((n - 1) as nat);
    }
}

proof fn lemma_pow10_mono(a: nat, b: nat)
    requires
        a <= b,
    ensures
        pow10(a) <= pow10(b),
    decreases b,
{
    if a < b {
        lemma_pow10_mono(a, (b - 1) as nat);
        lemma_pow10_positive((b - 1) as nat);
    }
}

/// The signed integer formed by all the digits of `n`.
pub open spec fn signed_digits(n: NumberView) -> int {
    if n.negative {
        -digits_value(all_digits_of(n))
    } else {
        digits_value(all_digits_of(n)) as int
    }
}

proof fn lemma_scaled(n: NumberView, k: nat)
    ensures
        scaled(n, k) == signed_digits(n) * pow10(k),
{
    let m = digits_value(all_digits_of(n)) as int;
    let p = pow10(k) as int;
    assert(-(m * p) == (-m) * p) by (nonlinear_arith);
}

/// Swapping the operands of the numeric order flips its sign.
pub proof fn lemma_number_order_antisymmetric(a: NumberView, b: NumberView)
    ensures
        number_order(a, b) == -number_order(b, a),
{
}

/// The numeric order is transitive.
pub proof fn lemma_number_order_transitive(a: NumberView, b: NumberView, c: NumberView)
    requires
        number_order(a, b) <= 0,
        number_order(b, c) <= 0,
    ensures
        number_order(a, c) <= 0,
{
    let ka = a.frac_digits.len();
    let kb = b.frac_digits.len();
    let kc = c.frac_digits.len();
    lemma_scaled(a, kb);
    lemma_scaled(b, ka);
    lemma_scaled(b, kc);
    lemma_scaled(c, kb);
    lemma_scaled(a, kc);
    lemma_scaled(c, ka);
    lemma_pow10_positive(ka);
    lemma_pow10_positive(kb);
    lemma_pow10_positive(kc);
    let x = signed_digits(a);
    let y = signed_digits(b);
    let z = signed_digits(c);
    let pa = pow10(ka) as int;
    let pb = pow10(kb) as int;
    let pc = pow10(kc) as int;
    assert(x * pb <= y * pa);
    assert(y * pc <= z * pb);
    assert(x * pb * pc <= y * pa * pc) by (nonlinear_arith)
        requires
            x * pb <= y * pa,
            pc > 0,
    ;
    assert(y * pc * pa <= z * pb * pa) by (nonlinear_arith)
        requires
            y * pc <= z * pb,
            pa > 0,
    ;
    assert(pb * (x * pc) <= pb * (z * pa)) by (nonlinear_arith)
        requires
            x * pb * pc <= y * pa * pc,
            y * pc * pa <= z * pb * pa,
    ;
    assert(x * pc <= z * pa) by (nonlinear_arith)
        requires
            pb * (x * pc) <= pb * (z * pa),
            pb > 0,
    ;
}

/// Splitting the digits: `value(p ++ q) = value(p) * 10^|q| + value(q)`.
proof fn lemma_split(p: Seq<u8>, q: Seq<u8>)
    ensures
        digits_value(p + q) == digits_value(p) * pow10(q.len()) + digits_value(q),
    decreases q.len(),
{
    if q.len() == 0 {
        assert(p + q =~= p);
        assert(pow10(0) == 1);
        assert(digits_value(q) == 0);
        assert(digits_value(p) * 1 == digits_value(p));
    } else {
        lemma_split(p, q.drop_last());
        assert((p + q).drop_last() =~= p + q.drop_last());
        assert((p + q).last() == q.last());
        let a = digits_value(p);
        let b = pow10((q.len() - 1) as nat);
        let c = digits_value(q.drop_last());
        let l = q.last() as int;
        assert(digits_value(p + q) == digits_value(p + q.drop_last()) * 10 + l);
        assert(digits_value(p + q.drop_last()) == a * b + c);
        assert(pow10(q.len()) == 10 * b);
        assert(digits_value(q) == c * 10 + l);
        assert((a * b + c) * 10 + l == a * (10 * b) + (c * 10 + l))
            by (nonlinear_arith);
    }
}

proof fn lemma_zeros(z: Seq<u8>)
    requires
        forall|i: int| 0 <= i < z.len() ==> z[i] == 0,
    ensures
        digits_value(z) == 0,
    decreases z.len(),
{
    if z.len() > 0 {
        lemma_zeros(z.drop_last());
    }
}

proof fn lemma_bound(d: Seq<u8>)
    requires
        all_digits(d),
    ensures
        digits_value(d) < pow10(d.len()),
    decreases d.len(),
{
    if d.len() > 0 {
        lemma_bound(d.drop_last());
    }
}

proof fn lemma_lower(d: Seq<u8>)
    requires
        d.len() >= 1,
        d[0] >= 1,
    ensures
        digits_value(d) >= pow10((d.len() - 1) as nat),
{
    lemma_split(d.take(1), d.skip(1));
    assert(d.take(1) + d.skip(1) =~= d);
    assert(d.take(1).drop_last() =~= Seq::<u8>::empty());
    assert(d.take(1).last() == d[0]);
    assert(digits_value(d.take(1).drop_last()) == 0);
    assert(digits_value(d.take(1)) == d[0]);
    let p = pow10((d.len() - 1) as nat);
    assert(d[0] * p >= p) by (nonlinear_arith)
        requires
            d[0] >= 1,
    ;
}

proof fn lemma_lex(x: Seq<u8>, y: Seq<u8>, i: int)
    requires
        x.len() == y.len(),
        0 <= i < x.len(),
        x.take(i) == y.take(i),
        x[i] < y[i],
        all_digits(x),
        all_digits(y),
    ensures
        digits_value(x) < digits_value(y),
{
    let m = (x.len() - i - 1) as nat;
    let rx = x.skip(i + 1);
    let ry = y.skip(i + 1);
    lemma_split(x.take(i + 1), rx);
    lemma_split(y.take(i + 1), ry);
    assert(x.take(i + 1) + rx =~= x);
    assert(y.take(i + 1) + ry =~= y);
    assert(x.take(i + 1).drop_last() =~= x.take(i));
    assert(y.take(i + 1).drop_last() =~= y.take(i));
    lemma_bound(rx);
    let p = pow10(m);
    let c = digits_value(x.take(i));
    let hx = digits_value(x.take(i + 1));
    let hy = digits_value(y.take(i + 1));
    assert(hx == c * 10 + x[i]);
    assert(hy == c * 10 + y[i]);
    assert(hx + 1 <= hy);
    let vx = digits_value(rx);
    let vy = digits_value(ry);
    assert(hx * p + vx < hy * p + vy) by (nonlinear_arith)
        requires
            hx + 1 <= hy,
            vx < p,
            vy >= 0,
    ;
}

/// Leading zeros do not change the value.
proof fn lemma_skip_zeros(x: Seq<u8>, z: int)
    requires
        0 <= z <= x.len(),
        forall|i: int| 0 <= i < z ==> x[i] == 0,
    ensures
        digits_value(x) == digits_value(x.skip(z)),
{
    lemma_split(x.take(z), x.skip(z));
    assert(x.take(z) + x.skip(z) =~= x);
    lemma_zeros(x.take(z));
}

/// A number found in text: its sign, integer digits, whether a dot was read,
/// and its fraction digits.
pub struct Number {
    negative: bool,
    int_digits: Vec<u8>,
    has_dot: bool,
    frac_digits: Vec<u8>,
}

impl Number {
    #[verifier::type_invariant]
    spec fn digits_ok(self) -> bool {
        all_digits(self.int_digits@) && all_digits(self.frac_digits@)
    }
}

/// The characters for a sequence of decimal digits.
fn digit_chars(d: &Vec<u8>) -> (r: Vec<char>)
    requires
        all_digits(d@),
    ensures
        r@ == d@.map_values(|x: u8| digit_char(x)),
{
    let mut r: Vec<char> = Vec::new();
    let mut i: usize = 0;
    while i < d.len()
        invariant
            i <= d@.len(),
            all_digits(d@),
            r@ == d@.take(i as int).map_values(|x: u8| digit_char(x)),
        decreases d@.len() - i,
    {
        let c = (48u8 + d[i]) as char;
        r.push(c);
        assert(r@ =~= d@.take(i + 1).map_values(|x: u8| digit_char(x)));
        i += 1;
    }
    assert(d@.take(d@.len() as int) =~= d@);
    r
}

impl View for Number {
    type V = NumberView;

    closed spec fn view(&self) -> NumberView {
        NumberView {
            negative: self.negative,
            int_digits: self.int_digits@,
            has_dot: self.has_dot,
            frac_digits: self.frac_digits@,
        }
    }
}

/// The digits of a number are decimal digits.
pub open spec fn number_wf(n: NumberView) -> bool {
    all_digits(n.int_digits) && all_digits(n.frac_digits)
}

proof fn lemma_scan_wf(s: Seq<char>)
    ensures
        all_digits(scan(s).int_digits),
        all_digits(scan(s).frac_digits),
    decreases s.len(),
{
    if s.len() > 0 {
        lemma_scan_wf(s.drop_last());
    }
}

/// Extract the first number from `s`, ignoring currency symbols, surrounding
/// text and thousands separators (commas). For example `"£1,299.00 incl. VAT"`
/// gives `1299.00`. Returns `None` if no digit is present.
pub fn parse_number(s: &str) -> (r: Option<Number>)
    ensures
        match r {
            Some(n) => first_number(s@) == Some(n@) && number_wf(n@),
            None => first_number(s@) is None,
        },
{
    let cs = chars_of(s);
    let mut negative = false;
    let mut int_digits: Vec<u8> = Vec::new();
    let mut has_dot = false;
    let mut frac_digits: Vec<u8> = Vec::new();
    let mut done = false;
    let mut i: usize = 0;
    while i < cs.len()
        invariant
            i <= cs@.len(),
            cs@ == s@,
            scan(cs@.take(i as int)) == (ScanState {
                negative,
                int_digits: int_digits@,
                has_dot,
                frac_digits: frac_digits@,
                done,
            }),
        decreases cs@.len() - i,
    {
        let c = cs[i];
        proof {
            assert(cs@.take(i + 1).drop_last() =~= cs@.take(i as int));
            assert(cs@.take(i + 1).last() == c);
        }
        if done {
        } else if '0' <= c && c <= '9' {
            let d: u8 = (c as u32 - '0' as u32) as u8;
            if has_dot {
                frac_digits.push(d);
            } else {
                int_digits.push(d);
            }
        } else if c == '.' && int_digits.len() > 0 && !has_dot {
            has_dot = true;
        } else if c == ',' && int_digits.len() > 0 {
        } else if c == '-' && !negative && int_digits.len() == 0 && !has_dot && frac_digits.len()
            == 0 {
            negative = true;
        } else if int_digits.len() > 0 {
            done = true;
        } else {
            negative = false;
            int_digits = Vec::new();
            has_dot = false;
            frac_digits = Vec::new();
        }
        i += 1;
    }
    proof {
        assert(cs@.take(cs@.len() as int) =~= cs@);
        lemma_scan_wf(s@);
    }
    if int_digits.len() > 0 {
        Some(Number { negative, int_digits, has_dot, frac_digits })
    } else {
        None
    }
}

/// The digits of `d` followed by `pad` zeros.
fn padded(a: &Vec<u8>, b: &Vec<u8>, pad: usize) -> (r: Vec<u8>)
    ensures
        r@ == a@ + b@ + Seq::new(pad as nat, |i: int| 0u8),
{
    let mut r: Vec<u8> = Vec::new();
    let mut i: usize = 0;
    while i < a.len()
        invariant
            i <= a@.len(),
            r@ == a@.take(i as int),
        decreases a@.len() - i,
    {
        r.push(a[i]);
        assert(r@ =~= a@.take(i + 1));
        i += 1;
    }
    let mut j: usize = 0;
    while j < b.len()
        invariant
            j <= b@.len(),
            r@ == a@ + b@.take(j as int),
        decreases b@.len() - j,
    {
        r.push(b[j]);
        assert(r@ =~= a@ + b@.take(j + 1));
        j += 1;
    }
    assert(b@.take(b@.len() as int) =~= b@);
    let mut k: usize = 0;
    while k < pad
        invariant
            k <= pad,
            r@ == a@ + b@ + Seq::new(k as nat, |i: int| 0u8),
        decreases pad - k,
    {
        r.push(0u8);
        assert(r@ =~= a@ + b@ + Seq::new((k + 1) as nat, |i: int| 0u8));
        k += 1;
    }
    assert(a@.take(a@.len() as int) =~= a@);
    r
}

/// Compares the natural numbers written by two digit sequences.
fn order_digits(x: &Vec<u8>, y: &Vec<u8>) -> (r: i8)
    requires
        all_digits(x@),
        all_digits(y@),
    ensures
        r as int == order_int(digits_value(x@) as int, digits_value(y@) as int),
{
    let mut za: usize = 0;
    while za < x.len() && x[za] == 0
        invariant
            za <= x@.len(),
            forall|i: int| 0 <= i < za ==> x@[i] == 0,
        decreases x@.len() - za,
    {
        za += 1;
    }
    let mut zb: usize = 0;
    while zb < y.len() && y[zb] == 0
        invariant
            zb <= y@.len(),
            forall|i: int| 0 <= i < zb ==> y@[i] == 0,
        decreases y@.len() - zb,
    {
        zb += 1;
    }
    let ghost xs = x@.skip(za as int);
    let ghost ys = y@.skip(zb as int);
    proof {
        lemma_skip_zeros(x@, za as int);
        lemma_skip_zeros(y@, zb as int);
        lemma_bound(xs);
        lemma_bound(ys);
    }
    let la = x.len() - za;
    let lb = y.len() - zb;
    if la < lb {
        proof {
            lemma_lower(ys);
            lemma_pow10_mono(la as nat, (lb - 1) as nat);
        }
        return -1;
    }
    if la > lb {
        proof {
            lemma_lower(xs);
            lemma_pow10_mono(lb as nat, (la - 1) as nat);
        }
        return 1;
    }
    let mut i: usize = 0;
    while i < la
        invariant
            la == lb,
            la == x@.len() - za,
            lb == y@.len() - zb,
            za <= x@.len(),
            zb <= y@.len(),
            x@.len() == x.len(),
            y@.len() == y.len(),
            digits_value(x@) == digits_value(xs),
            digits_value(y@) == digits_value(ys),
            xs == x@.skip(za as int),
            ys == y@.skip(zb as int),
            i <= la,
            xs.take(i as int) == ys.take(i as int),
            all_digits(x@),
            all_digits(y@),
        decreases la - i,
    {
        if x[za + i] != y[zb + i] {
            proof {
                assert(xs[i as int] == x@[za + i]);
                assert(ys[i as int] == y@[zb + i]);
            }
            if x[za + i] < y[zb + i] {
                proof {
                    lemma_lex(xs, ys, i as int);
                }
                return -1;
            } else {
                proof {
                    lemma_lex(ys, xs, i as int);
                }
                return 1;
            }
        }
        proof {
            assert(xs[i as int] == x@[za + i]);
            assert(ys[i as int] == y@[zb + i]);
            assert(xs.take(i + 1) =~= xs.take(i as int).push(xs[i as int]));
            assert(ys.take(i + 1) =~= ys.take(i as int).push(ys[i as int]));
        }
        i += 1;
    }
    proof {
        assert(xs =~= xs.take(la as int));
        assert(ys =~= ys.take(lb as int));
    }
    0
}

proof fn lemma_padded_value(d: Seq<u8>, k: nat)
    ensures
        digits_value(d + Seq::new(k, |i: int| 0u8)) == digits_value(d) * pow10(k),
{
    let z = Seq::new(k, |i: int| 0u8);
    lemma_split(d, z);
    lemma_zeros(z);
}

impl Number {
    /// The text of the number as it was collected from the input (sign,
    /// digits, dot, fraction digits), ready for a float parser.
    pub fn to_text(&self) -> (r: String)
        ensures
            r@ == number_text(self@),
    {
        proof {
            use_type_invariant(self);
        }
        let mut out = String::new();
        if self.negative {
            out.push('-');
        }
        let ints = digit_chars(&self.int_digits);
        push_chars(&mut out, ints.as_slice());
        if self.has_dot {
            out.push('.');
        }
        let fracs = digit_chars(&self.frac_digits);
        push_chars(&mut out, fracs.as_slice());
        proof {
            let a: Seq<char> = if self.negative { seq!['-'] } else { seq![] };
            let b: Seq<char> = if self.has_dot { seq!['.'] } else { seq![] };
            assert(out@ =~= a + ints@ + b + fracs@);
        }
        out
    }

    /// Numeric comparison with another number: `-1`, `0` or `1` as `self` is
    /// less than, equal to, or greater than `other`.
    pub fn compare(&self, other: &Number) -> (r: i8)
        ensures
            r as int == number_order(self@, other@),
    {
        proof {
            use_type_invariant(self);
            use_type_invariant(other);
        }
        let x = padded(&self.int_digits, &self.frac_digits, other.frac_digits.len());
        let y = padded(&other.int_digits, &other.frac_digits, self.frac_digits.len());
        proof {
            lemma_padded_value(all_digits_of(self@), other.frac_digits@.len());
            lemma_padded_value(all_digits_of(other@), self.frac_digits@.len());
            assert(x@ =~= all_digits_of(self@) + Seq::new(other.frac_digits@.len(), |i: int| 0u8));
            assert(y@ =~= all_digits_of(other@) + Seq::new(self.frac_digits@.len(), |i: int| 0u8));
        }
        let c = order_digits(&x, &y);
        let empty: Vec<u8> = Vec::new();
        if !self.negative && !other.negative {
            c
        } else if self.negative && other.negative {
            -c
        } else {
            let zx = order_digits(&x, &empty);
            let zy = order_digits(&y, &empty);
            if zx == 0 && zy == 0 {
                0
            } else if self.negative {
                -1
            } else {
                1
            }
        }
    }
}

} // verus!
