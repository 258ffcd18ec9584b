use vstd::prelude::*;
use vstd::string::*;
use crate::col::ValueKind;
use crate::text::{char_eq_ci, eq_ci, str_eq_ci};

verus! {

/// A value of a column for one record, or a literal of a filter.
/// `Percent(n, d)` is the share `n / d`, shown as `100 * n / d` percent.
#[derive(Debug, Clone)]
pub enum Value {
    Bytes(u64),
    Percent(u64, u64),
    Number(u64),
    Text(String),
    Bool(bool),
    Missing,
}

/// The mathematical content of a `Value`.
pub enum ValueV {
    Bytes(u64),
    Percent(u64, u64),
    Number(u64),
    Text(Seq<char>),
    Bool(bool),
    Missing,
}

impl View for Value {
    type V = ValueV;

    open spec fn view(&self) -> ValueV {
        match self {
            Value::Bytes(b) => ValueV::Bytes(*b),
            Value::Percent(n, d) => ValueV::Percent(*n, *d),
            Value::Number(n) => ValueV::Number(*n),
            Value::Text(s) => ValueV::Text(s@),
            Value::Bool(b) => ValueV::Bool(*b),
            Value::Missing => ValueV::Missing,
        }
    }
}

/// The views of a sequence of values.
pub open spec fn key_views(keys: Seq<Value>) -> Seq<ValueV> {
    keys.map_values(|v: Value| v@)
}

/// A share has a positive denominator.
pub open spec fn value_wf(v: ValueV) -> bool {
    v matches ValueV::Percent(_, d) ==> d > 0
}

/// Comparison operators of filter expressions; `Contains` tests that a
/// text holds the literal.
#[derive(Debug, Clone, Copy, PartialEq, Eq, Structural)]
pub enum CmpOp {
    Eq,
    Ne,
    Lt,
    Le,
    Gt,
    Ge,
    Contains,
}

/// Why a literal could not be read as a value of the expected kind.
#[derive(Debug, Clone, Copy, PartialEq, Eq, Structural)]
pub enum LiteralError {
    /// The token is not a number, a flag or a size where one was expected.
    Malformed,
    /// A size has a unit suffix that is not known.
    BadUnit,
    /// A number does not fit in 64 bits.
    Overflow,
    /// A percentage is above 100.
    OutOfRange,
}

// ---------------------------------------------------------------- ordering

pub open spec fn sign(x: int) -> int {
    if x < 0 { -1 } else if x > 0 { 1 } else { 0 }
}

/// Lexicographic order of texts, by code point.
pub open spec fn seq_cmp(a: Seq<char>, b: Seq<char>) -> int
    decreases a.len(),
{
    if a.len() == 0 && b.len() == 0 {
        0
    } else if a.len() == 0 {
        -1
    } else if b.len() == 0 {
        1
    } else if (a[0] as u32) < (b[0] as u32) {
        -1
    } else if (a[0] as u32) > (b[0] as u32) {
        1
    } else {
        seq_cmp(a.drop_first(), b.drop_first())
    }
}

pub open spec fn variant_rank(v: ValueV) -> int {
    match v {
        ValueV::Bytes(_) => 0,
        ValueV::Percent(_, _) => 1,
        ValueV::Number(_) => 2,
        ValueV::Text(_) => 3,
        ValueV::Bool(_) => 4,
        ValueV::Missing => 5,
    }
}

/// The order of values for sorting: -1, 0 or 1. A missing value comes
/// after every defined one, and two missing values are equal.
pub open spec fn value_cmp(a: ValueV, b: ValueV) -> int {
    match (a, b) {
        (ValueV::Bytes(x), ValueV::Bytes(y)) => sign(x - y),
        (ValueV::Number(x), ValueV::Number(y)) => sign(x - y),
        (ValueV::Percent(n1, d1), ValueV::Percent(n2, d2)) => sign(n1 * d2 - n2 * d1),
        (ValueV::Text(x), ValueV::Text(y)) => seq_cmp(x, y),
        (ValueV::Bool(x), ValueV::Bool(y)) => sign((x as int) - (y as int)),
        _ => sign(variant_rank(a) - variant_rank(b)),
    }
}

proof fn lemma_seq_cmp_step(a: Seq<char>, b: Seq<char>, i: int)
    requires
        0 <= i < a.len(),
        i < b.len(),
        a[i] == b[i],
    ensures
        seq_cmp(a.skip(i), b.skip(i)) == seq_cmp(a.skip(i + 1), b.skip(i + 1)),
{
    assert(a.skip(i).drop_first() =~= a.skip(i + 1));
    assert(b.skip(i).drop_first() =~= b.skip(i + 1));
}

fn text_cmp(a: &str, b: &str) -> (r: i8)
    ensures
        r as int == seq_cmp(a@, b@),
{
    let n = a.unicode_len();
    let m = b.unicode_len();
    let mut i: usize = 0;
    assert(a@.skip(0) =~= a@);
    assert(b@.skip(0) =~= b@);
    while i < n && i < m
        invariant
            n == a@.len(),
            m == b@.len(),
            i <= n,
            i <= m,
            seq_cmp(a@, b@) == seq_cmp(a@.skip(i as int), b@.skip(i as int)),
        decreases n - i,
    {
        let x = a.get_char(i);
        let y = b.get_char(i);
        if (x as u32) < (y as u32) {
            return -1;
        }
        if (x as u32) > (y as u32) {
            return 1;
        }
        proof {
            lemma_seq_cmp_step(a@, b@, i as int);
        }
        i += 1;
    }
    if i == n && i == m {
        0
    } else if i == n {
        -1
    } else {
        1
    }
}

fn cmp_u64(x: u64, y: u64) -> (r: i8)
    ensures
        r as int == sign(x - y),
{
    if x < y {
        -1
    } else if x > y {
        1
    } else {
        0
    }
}

proof fn lemma_prod_fits(a: u64, b: u64)
    ensures
        (a as int) * (b as int) <= u128::MAX,
{
    assert((a as int) * (b as int) <= (u64::MAX as int) * (u64::MAX as int)) by (nonlinear_arith)
        requires
            a <= u64::MAX,
            b <= u64::MAX,
            0 <= a,
            0 <= b,
    ;
}

fn cmp_share(n1: u64, d1: u64, n2: u64, d2: u64) -> (r: i8)
    ensures
        r as int == sign(n1 * d2 - n2 * d1),
{
    proof {
        lemma_prod_fits(n1, d2);
        lemma_prod_fits(n2, d1);
    }
    let l = (n1 as u128) * (d2 as u128);
    let r = (n2 as u128) * (d1 as u128);
    if l < r {
        -1
    } else if l > r {
        1
    } else {
        0
    }
}

fn rank(v: &Value) -> (r: i8)
    ensures
        r as int == variant_rank(v@),
{
    match v {
        Value::Bytes(_) => 0,
        Value::Percent(_, _) => 1,
        Value::Number(_) => 2,
        Value::Text(_) => 3,
        Value::Bool(_) => 4,
        Value::Missing => 5,
    }
}

impl Value {
    /// Sort comparison of two values: -1, 0 or 1.
    pub fn compare(&self, other: &Value) -> (r: i8)
        ensures
            r as int == value_cmp(self@, other@),
    {
        match (self, other) {
            (Value::Bytes(x), Value::Bytes(y)) => cmp_u64(*x, *y),
            (Value::Number(x), Value::Number(y)) => cmp_u64(*x, *y),
            (Value::Percent(n1, d1), Value::Percent(n2, d2)) => cmp_share(*n1, *d1, *n2, *d2),
            (Value::Text(x), Value::Text(y)) => text_cmp(x.as_str(), y.as_str()),
            (Value::Bool(x), Value::Bool(y)) => {
                let a: i8 = if *x { 1 } else { 0 };
                let b: i8 = if *y { 1 } else { 0 };
                a - b
            },
            _ => {
                let a = rank(self);
                let b = rank(other);
                if a < b {
                    -1
                } else if a > b {
                    1
                } else {
                    0
                }
            },
        }
    }
}


proof fn lemma_seq_cmp_antisym(a: Seq<char>, b: Seq<char>)
    ensures
        seq_cmp(a, b) == -seq_cmp(b, a),
    decreases a.len(),
{
    if a.len() > 0 && b.len() > 0 && (a[0] as u32) == (b[0] as u32) {
        lemma_seq_cmp_antisym(a.drop_first(), b.drop_first());
    }
}

/// Swapping the operands of the sort comparison flips its sign.
pub proof fn lemma_value_cmp_antisym(a: ValueV, b: ValueV)
    ensures
        value_cmp(a, b) == -value_cmp(b, a),
{
    match (a, b) {
        (ValueV::Text(x), ValueV::Text(y)) => lemma_seq_cmp_antisym(x, y),
        (ValueV::Percent(n1, d1), ValueV::Percent(n2, d2)) => {
            assert(n1 * d2 - n2 * d1 == -(n2 * d1 - n1 * d2));
        },
        _ => {},
    }
}

proof fn lemma_seq_cmp_trans(a: Seq<char>, b: Seq<char>, c: Seq<char>)
    ensures
        seq_cmp(a, b) <= 0 && seq_cmp(b, c) <= 0 ==> seq_cmp(a, c) <= 0,
        (seq_cmp(a, b) < 0 && seq_cmp(b, c) <= 0) || (seq_cmp(a, b) <= 0 && seq_cmp(b, c) < 0)
            ==> seq_cmp(a, c) < 0,
    decreases a.len(),
{
    if a.len() > 0 && b.len() > 0 && c.len() > 0 {
        lemma_seq_cmp_trans(a.drop_first(), b.drop_first(), c.drop_first());
    }
}

proof fn lemma_share_trans(n1: int, d1: int, n2: int, d2: int, n3: int, d3: int)
    requires
        d1 > 0,
        d2 > 0,
        d3 > 0,
    ensures
        n1 * d2 <= n2 * d1 && n2 * d3 <= n3 * d2 ==> n1 * d3 <= n3 * d1,
        (n1 * d2 < n2 * d1 && n2 * d3 <= n3 * d2) || (n1 * d2 <= n2 * d1 && n2 * d3 < n3 * d2)
            ==> n1 * d3 < n3 * d1,
{
    if n1 * d2 <= n2 * d1 && n2 * d3 <= n3 * d2 {
        assert(n1 * d2 * d3 <= n2 * d1 * d3) by (nonlinear_arith)
            requires
                n1 * d2 <= n2 * d1,
                d3 > 0,
        ;
        assert(n2 * d3 * d1 <= n3 * d2 * d1) by (nonlinear_arith)
            requires
                n2 * d3 <= n3 * d2,
                d1 > 0,
        ;
        assert(d2 * (n1 * d3) <= d2 * (n3 * d1)) by (nonlinear_arith)
            requires
                n1 * d2 * d3 <= n2 * d1 * d3,
                n2 * d3 * d1 <= n3 * d2 * d1,
        ;
        assert(n1 * d3 <= n3 * d1) by (nonlinear_arith)
            requires
                d2 * (n1 * d3) <= d2 * (n3 * d1),
                d2 > 0,
        ;
        if n1 * d2 < n2 * d1 || n2 * d3 < n3 * d2 {
            assert(n1 * d2 * d3 + n2 * d3 * d1 < n2 * d1 * d3 + n3 * d2 * d1) by (nonlinear_arith)
                requires
                    n1 * d2 <= n2 * d1,
                    n2 * d3 <= n3 * d2,
                    n1 * d2 < n2 * d1 || n2 * d3 < n3 * d2,
                    d1 > 0,
                    d3 > 0,
            ;
            assert(d2 * (n1 * d3) < d2 * (n3 * d1)) by (nonlinear_arith)
                requires
                    n1 * d2 * d3 + n2 * d3 * d1 < n2 * d1 * d3 + n3 * d2 * d1,
            ;
            assert(n1 * d3 < n3 * d1) by (nonlinear_arith)
                requires
                    d2 * (n1 * d3) < d2 * (n3 * d1),
                    d2 > 0,
            ;
        }
    }
}

/// The sort comparison is transitive on well-formed values, strictly so
/// where one of the two steps is strict.
pub proof fn lemma_value_cmp_trans(a: ValueV, b: ValueV, c: ValueV)
    requires
        value_wf(a),
        value_wf(b),
        value_wf(c),
    ensures
        value_cmp(a, b) <= 0 && value_cmp(b, c) <= 0 ==> value_cmp(a, c) <= 0,
        (value_cmp(a, b) < 0 && value_cmp(b, c) <= 0) || (value_cmp(a, b) <= 0 && value_cmp(b, c)
            < 0) ==> value_cmp(a, c) < 0,
{
    if variant_rank(a) == variant_rank(b) && variant_rank(b) == variant_rank(c) {
        match (a, b, c) {
            (ValueV::Text(x), ValueV::Text(y), ValueV::Text(z)) => lemma_seq_cmp_trans(x, y, z),
            (ValueV::Percent(n1, d1), ValueV::Percent(n2, d2), ValueV::Percent(n3, d3)) => {
                lemma_share_trans(n1 as int, d1 as int, n2 as int, d2 as int, n3 as int, d3 as int);
            },
            _ => {},
        }
    }
}

// ---------------------------------------------------------------- literals

pub open spec fn is_digit(c: char) -> bool {
    '0' <= c && c <= '9'
}

pub open spec fn all_digits(s: Seq<char>) -> bool {
    forall|i: int| 0 <= i < s.len() ==> is_digit(#[trigger] s[i])
}

/// The number that a run of decimal digits writes.
pub open spec fn digits_value(s: Seq<char>) -> int
    decreases s.len(),
{
    if s.len() == 0 {
        0
    } else {
        digits_value(s.drop_last()) * 10 + ((s.last() as u32) - ('0' as u32))
    }
}

/// The end of the run of digits that starts at `i`.
pub open spec fn digit_run(s: Seq<char>, i: int) -> int
    decreases s.len() - i,
{
    if 0 <= i < s.len() && is_digit(s[i]) {
        digit_run(s, i + 1)
    } else {
        i
    }
}

/// The multiplier of a size suffix: powers of 1024 for `K`, `M`, `G`, `T`,
/// `P`, powers of 1000 for `KB` to `PB`, in either case; 1 for none.
pub open spec fn unit_factor(u: Seq<char>) -> Option<int> {
    if u.len() == 0 {
        Some(1)
    } else if eq_ci(u, "k"@) {
        Some(1024)
    } else if eq_ci(u, "m"@) {
        Some(1048576)
    } else if eq_ci(u, "g"@) {
        Some(1073741824)
    } else if eq_ci(u, "t"@) {
        Some(1099511627776)
    } else if eq_ci(u, "p"@) {
        Some(1125899906842624)
    } else if eq_ci(u, "kb"@) {
        Some(1000)
    } else if eq_ci(u, "mb"@) {
        Some(1000000)
    } else if eq_ci(u, "gb"@) {
        Some(1000000000)
    } else if eq_ci(u, "tb"@) {
        Some(1000000000000)
    } else if eq_ci(u, "pb"@) {
        Some(1000000000000000)
    } else {
        None
    }
}

pub open spec fn pow10(n: nat) -> nat
    decreases n,
{
    if n == 0 {
        1
    } else {
        10 * pow10((n - 1) as nat)
    }
}

/// The most decimals of a mantissa that count; further ones are ignored.
pub const MAX_DECIMALS: usize = 9;

/// End of the mantissa: its digits, then a `.` and more digits if there is
/// a `.` right after them.
pub open spec fn mantissa_end(s: Seq<char>) -> int {
    let k = digit_run(s, 0);
    if k < s.len() && s[k] == '.' {
        digit_run(s, k + 1)
    } else {
        k
    }
}

/// The decimals of the mantissa, empty where it has no `.`.
pub open spec fn decimals(s: Seq<char>) -> Seq<char> {
    let k = digit_run(s, 0);
    if k < s.len() && s[k] == '.' {
        s.subrange(k + 1, mantissa_end(s))
    } else {
        Seq::empty()
    }
}

/// The decimals that count: the first `MAX_DECIMALS`, the others being
/// ignored.
pub open spec fn kept_decimals(s: Seq<char>) -> Seq<char> {
    if decimals(s).len() > MAX_DECIMALS {
        decimals(s).take(MAX_DECIMALS as int)
    } else {
        decimals(s)
    }
}

/// The mantissa is malformed: no digits before the point, or a point
/// without digits after it.
pub open spec fn bad_mantissa(s: Seq<char>) -> bool {
    let k = digit_run(s, 0);
    ||| k == 0
    ||| (k < s.len() && s[k] == '.' && decimals(s).len() == 0)
}

/// What a literal token means for a column of the given kind. A size is
/// its mantissa times the unit, rounded down to a whole byte; a percentage
/// `m` with `d` decimals is the share `m / (100 * 10^d)`, and ends in `%`.
/// Decimals past the ninth are ignored.
pub open spec fn literal_of(s: Seq<char>, kind: ValueKind) -> Result<ValueV, LiteralError> {
    let k = digit_run(s, 0);
    let v = digits_value(s.take(k));
    let e = mantissa_end(s);
    let fl = kept_decimals(s).len();
    let fv = digits_value(kept_decimals(s));
    match kind {
        ValueKind::ByteSize => {
            if bad_mantissa(s) {
                Err(LiteralError::Malformed)
            } else {
                match unit_factor(s.skip(e)) {
                    None => Err(LiteralError::BadUnit),
                    Some(f) => {
                        let b = v * f + (fv * f) / (pow10(fl) as int);
                        if b > u64::MAX {
                            Err(LiteralError::Overflow)
                        } else {
                            Ok(ValueV::Bytes(b as u64))
                        }
                    },
                }
            }
        },
        ValueKind::Percentage => {
            if bad_mantissa(s) || s.skip(e) != "%"@ {
                Err(LiteralError::Malformed)
            } else {
                let m = v * pow10(fl) + fv;
                if m > 100 * pow10(fl) {
                    Err(LiteralError::OutOfRange)
                } else {
                    Ok(ValueV::Percent(m as u64, (100 * pow10(fl)) as u64))
                }
            }
        },
        ValueKind::PlainNumber => {
            if k == 0 || k != s.len() {
                Err(LiteralError::Malformed)
            } else if v > u64::MAX {
                Err(LiteralError::Overflow)
            } else {
                Ok(ValueV::Number(v as u64))
            }
        },
        ValueKind::Text | ValueKind::OptionalText => Ok(ValueV::Text(s)),
        ValueKind::Boolean => {
            if eq_ci(s, "true"@) {
                Ok(ValueV::Bool(true))
            } else if eq_ci(s, "false"@) {
                Ok(ValueV::Bool(false))
            } else {
                Err(LiteralError::Malformed)
            }
        },
    }
}

/// `r` is the result that `literal_of` gives, read through the view.
pub open spec fn literal_result(r: Result<Value, LiteralError>, spec_r: Result<ValueV, LiteralError>) -> bool {
    match (r, spec_r) {
        (Ok(v), Ok(w)) => v@ == w,
        (Err(e), Err(f)) => e == f,
        _ => false,
    }
}

proof fn lemma_digits_mono(s: Seq<char>, i: int, j: int)
    requires
        0 <= i <= j <= s.len(),
        all_digits(s.take(j)),
    ensures
        0 <= digits_value(s.take(i)) <= digits_value(s.take(j)),
    decreases j,
{
    if j > 0 {
        assert(s.take(j).drop_last() =~= s.take(j - 1));
        assert(is_digit(s.take(j)[j - 1]));
        if i < j {
            lemma_digits_mono(s, i, j - 1);
        } else {
            lemma_digits_mono(s, j - 1, j - 1);
        }
    }
}

/// Reads the digits `s[0..k]` as a number, `None` where it exceeds 64 bits.
fn read_digits(s: &str, k: usize) -> (r: Option<u64>)
    requires
        k <= s@.len(),
        all_digits(s@.take(k as int)),
    ensures
        r matches Some(v) ==> v == digits_value(s@.take(k as int)),
        r is None <==> digits_value(s@.take(k as int)) > u64::MAX,
{
    let mut acc: u64 = 0;
    let mut i: usize = 0;
    assert(s@.take(0).len() == 0);
    while i < k
        invariant
            k <= s@.len(),
            all_digits(s@.take(k as int)),
            i <= k,
            acc == digits_value(s@.take(i as int)),
        decreases k - i,
    {
        let c = s.get_char(i);
        assert(s@.take(k as int)[i as int] == c);
        let d = (c as u32 - '0' as u32) as u64;
        assert(s@.take(i + 1).drop_last() =~= s@.take(i as int));
        if acc > (u64::MAX - d) / 10 {
            proof {
                lemma_digits_mono(s@.take(k as int), (i + 1) as int, k as int);
                assert(s@.take(k as int).take(i + 1) =~= s@.take(i + 1));
                assert(s@.take(k as int).take(k as int) =~= s@.take(k as int));
            }
            return None;
        }
        acc = acc * 10 + d;
        i += 1;
    }
    Some(acc)
}

fn is_digit_exec(c: char) -> (r: bool)
    ensures
        r == is_digit(c),
{
    '0' <= c && c <= '9'
}

fn digit_run_exec(s: &str) -> (k: usize)
    ensures
        k == digit_run(s@, 0),
        k <= s@.len(),
        all_digits(s@.take(k as int)),
{
    let n = s.unicode_len();
    let mut i: usize = 0;
    while i < n && is_digit_exec(s.get_char(i))
        invariant
            n == s@.len(),
            i <= n,
            digit_run(s@, 0) == digit_run(s@, i as int),
            all_digits(s@.take(i as int)),
        decreases n - i,
    {
        i += 1;
    }
    i
}

fn unit_factor_exec(u: &str) -> (r: Option<u64>)
    ensures
        r matches Some(f) ==> unit_factor(u@) == Some(f as int),
        r is None <==> unit_factor(u@) is None,
{
    if u.unicode_len() == 0 {
        Some(1)
    } else if str_eq_ci(u, "k") {
        Some(1024)
    } else if str_eq_ci(u, "m") {
        Some(1048576)
    } else if str_eq_ci(u, "g") {
        Some(1073741824)
    } else if str_eq_ci(u, "t") {
        Some(1099511627776)
    } else if str_eq_ci(u, "p") {
        Some(1125899906842624)
    } else if str_eq_ci(u, "kb") {
        Some(1000)
    } else if str_eq_ci(u, "mb") {
        Some(1000000)
    } else if str_eq_ci(u, "gb") {
        Some(1000000000)
    } else if str_eq_ci(u, "tb") {
        Some(1000000000000)
    } else if str_eq_ci(u, "pb") {
        Some(1000000000000000)
    } else {
        None
    }
}

proof fn lemma_digits_below_pow10(x: Seq<char>)
    requires
        all_digits(x),
    ensures
        0 <= digits_value(x) < pow10(x.len()),
    decreases x.len(),
{
    if x.len() > 0 {
        let y = x.drop_last();
        assert(all_digits(y)) by {
            assert forall|i: int| 0 <= i < y.len() implies is_digit(#[trigger] y[i]) by {
                assert(y[i] == x[i]);
            }
        }
        assert(is_digit(x[x.len() - 1]));
        lemma_digits_below_pow10(y);
    }
}

fn pow10_exec(n: usize) -> (r: u64)
    requires
        n <= MAX_DECIMALS,
    ensures
        r == pow10(n as nat),
        1 <= r <= 1000000000,
{
    proof {
        reveal_with_fuel(pow10, 10);
    }
    if n == 0 {
        1
    } else if n == 1 {
        10
    } else if n == 2 {
        100
    } else if n == 3 {
        1000
    } else if n == 4 {
        10000
    } else if n == 5 {
        100000
    } else if n == 6 {
        1000000
    } else if n == 7 {
        10000000
    } else if n == 8 {
        100000000
    } else {
        1000000000
    }
}

/// End of the run of digits of `s` from `start` on.
fn digit_run_from(s: &str, start: usize) -> (k: usize)
    requires
        start <= s@.len(),
    ensures
        k == digit_run(s@, start as int),
        start <= k <= s@.len(),
        all_digits(s@.subrange(start as int, k as int)),
{
    let n = s.unicode_len();
    let mut i: usize = start;
    while i < n && is_digit_exec(s.get_char(i))
        invariant
            n == s@.len(),
            start <= i <= n,
            digit_run(s@, start as int) == digit_run(s@, i as int),
            all_digits(s@.subrange(start as int, i as int)),
        decreases n - i,
    {
        assert(s@.subrange(start as int, i + 1) =~= s@.subrange(start as int, i as int).push(
            s@[i as int],
        ));
        i += 1;
    }
    i
}

/// Reads a literal token as a value of the given kind.
pub fn parse_literal(token: &str, kind: ValueKind) -> (r: Result<Value, LiteralError>)
    ensures
        literal_result(r, literal_of(token@, kind)),
        r matches Ok(v) ==> value_wf(v@),
{
    let n = token.unicode_len();
    let k = digit_run_exec(token);
    let ghost v = digits_value(token@.take(k as int));
    match kind {
        ValueKind::Text | ValueKind::OptionalText => {
            return Ok(Value::Text(token.to_owned()));
        },
        ValueKind::Boolean => {
            return if str_eq_ci(token, "true") {
                Ok(Value::Bool(true))
            } else if str_eq_ci(token, "false") {
                Ok(Value::Bool(false))
            } else {
                Err(LiteralError::Malformed)
            };
        },
        ValueKind::PlainNumber => {
            if k == 0 || k != n {
                return Err(LiteralError::Malformed);
            }
            return match read_digits(token, k) {
                None => Err(LiteralError::Overflow),
                Some(d) => Ok(Value::Number(d)),
            };
        },
        _ => {},
    }
    let has_dot = k < n && token.get_char(k) == '.';
    let e = if has_dot {
        digit_run_from(token, k + 1)
    } else {
        k
    };
    let all_fl: usize = if has_dot {
        e - (k + 1)
    } else {
        0
    };
    assert(decimals(token@).len() == all_fl);
    if k == 0 || (has_dot && all_fl == 0) {
        return Err(LiteralError::Malformed);
    }
    let fl: usize = if all_fl > MAX_DECIMALS {
        MAX_DECIMALS
    } else {
        all_fl
    };
    let ghost dec = kept_decimals(token@);
    let fs = if has_dot {
        token.substring_char(k + 1, k + 1 + fl)
    } else {
        token.substring_char(k, k)
    };
    assert(fs@ =~= dec);
    assert(fs@.take(fl as int) =~= fs@);
    assert(all_digits(dec));
    proof {
        lemma_digits_below_pow10(dec);
    }
    let p10 = pow10_exec(fl);
    let fv = match read_digits(fs, fl) {
        Some(x) => x,
        None => {
            return Err(LiteralError::Malformed);
        },
    };
    let rest = token.substring_char(e, n);
    assert(rest@ =~= token@.skip(e as int));
    if kind == ValueKind::ByteSize {
        match unit_factor_exec(rest) {
            None => Err(LiteralError::BadUnit),
            Some(f) => {
                let ghost q = (fv * f) / (p10 as int);
                assert(q >= 0) by (nonlinear_arith)
                    requires
                        fv >= 0,
                        f >= 0,
                        p10 >= 1,
                        q == (fv * f) / (p10 as int),
                ;
                match read_digits(token, k) {
                    None => {
                        proof {
                            lemma_digits_mono(token@.take(k as int), 0, k as int);
                            assert(token@.take(k as int).take(k as int) =~= token@.take(k as int));
                            assert(v * f >= v) by (nonlinear_arith)
                                requires
                                    f >= 1,
                                    v >= 0,
                            ;
                        }
                        Err(LiteralError::Overflow)
                    },
                    Some(d) => match d.checked_mul(f) {
                        None => Err(LiteralError::Overflow),
                        Some(b) => {
                            proof {
                                lemma_prod_fits(fv, f);
                            }
                            let prod = (fv as u128) * (f as u128);
                            let qe = prod / (p10 as u128);
                            assert(qe == q);
                            assert(qe <= prod) by (nonlinear_arith)
                                requires
                                    qe as int == (prod as int) / (p10 as int),
                                    p10 >= 1,
                                    prod >= 0,
                            ;
                            assert(prod < 1000000000 * 18446744073709551616) by (nonlinear_arith)
                                requires
                                    prod == fv * f,
                                    fv < 1000000000,
                                    f <= 18446744073709551615,
                                    fv >= 0,
                                    f >= 0,
                            ;
                            let total = (b as u128) + qe;
                            if total > u64::MAX as u128 {
                                Err(LiteralError::Overflow)
                            } else {
                                Ok(Value::Bytes(total as u64))
                            }
                        },
                    },
                }
            },
        }
    } else {
        if !str_eq_ci(rest, "%") {
            proof {
                reveal_strlit("%");
                if rest@ == "%"@ {
                    assert(eq_ci(rest@, "%"@));
                }
            }
            return Err(LiteralError::Malformed);
        }
        proof {
            reveal_strlit("%");
            assert(rest@ =~= "%"@);
        }
        let ghost m = v * p10 + fv;
        match read_digits(token, k) {
            None => {
                assert(m > 100 * p10) by (nonlinear_arith)
                    requires
                        v > 18446744073709551615,
                        p10 >= 1,
                        fv >= 0,
                        m == v * p10 + fv,
                ;
                Err(LiteralError::OutOfRange)
            },
            Some(d) => {
                if d > 100 {
                    assert(m > 100 * p10) by (nonlinear_arith)
                        requires
                            v > 100,
                            p10 >= 1,
                            fv >= 0,
                            m == v * p10 + fv,
                    ;
                    return Err(LiteralError::OutOfRange);
                }
                assert(d * p10 <= 100 * 1000000000) by (nonlinear_arith)
                    requires
                        d <= 100,
                        p10 <= 1000000000,
                        d >= 0,
                ;
                let me = d * p10 + fv;
                let den = 100 * p10;
                if me > den {
                    Err(LiteralError::OutOfRange)
                } else {
                    Ok(Value::Percent(me, den))
                }
            },
        }
    }
}


proof fn lemma_digit_run_over(d: Seq<char>, u: Seq<char>, i: int)
    requires
        all_digits(d),
        0 <= i <= d.len(),
        u.len() > 0,
        !is_digit(u[0]),
    ensures
        digit_run(d + u, i) == d.len(),
    decreases d.len() - i,
{
    let s = d + u;
    if i < d.len() {
        assert(s[i] == d[i]);
        lemma_digit_run_over(d, u, i + 1);
    } else {
        assert(s[i] == u[0]);
    }
}

/// The mantissa parts of digits followed by a suffix that starts with
/// neither a digit nor a point.
proof fn lemma_plain_mantissa(d: Seq<char>, u: Seq<char>)
    requires
        d.len() > 0,
        all_digits(d),
        u.len() > 0,
        !is_digit(u[0]),
        u[0] != '.',
    ensures
        digit_run(d + u, 0) == d.len(),
        mantissa_end(d + u) == d.len(),
        decimals(d + u).len() == 0,
        kept_decimals(d + u).len() == 0,
        digits_value(kept_decimals(d + u)) == 0,
        !bad_mantissa(d + u),
        (d + u).take(d.len() as int) == d,
        (d + u).skip(d.len() as int) == u,
{
    let s = d + u;
    lemma_digit_run_over(d, u, 0);
    assert(s[d.len() as int] == u[0]);
    assert(s.take(d.len() as int) =~= d);
    assert(s.skip(d.len() as int) =~= u);
}

/// A size written with a binary suffix counts powers of 1024, one with an
/// SI suffix powers of 1000; a percentage above 100 is out of range.
pub proof fn lemma_size_suffixes(d: Seq<char>)
    requires
        d.len() > 0,
        all_digits(d),
    ensures
        digits_value(d) * 1073741824 <= u64::MAX ==> literal_of(d + "G"@, ValueKind::ByteSize)
            == Ok::<ValueV, LiteralError>(ValueV::Bytes((digits_value(d) * 1073741824) as u64)),
        digits_value(d) * 1000000000 <= u64::MAX ==> literal_of(d + "GB"@, ValueKind::ByteSize)
            == Ok::<ValueV, LiteralError>(ValueV::Bytes((digits_value(d) * 1000000000) as u64)),
        digits_value(d) > 100 ==> literal_of(d + "%"@, ValueKind::Percentage) == Err::<
            ValueV,
            LiteralError,
        >(LiteralError::OutOfRange),
{
    reveal_strlit("G");
    reveal_strlit("GB");
    reveal_strlit("%");
    reveal_strlit("k");
    reveal_strlit("m");
    reveal_strlit("g");
    reveal_strlit("t");
    reveal_strlit("p");
    reveal_strlit("kb");
    reveal_strlit("mb");
    reveal_strlit("gb");
    reveal_with_fuel(pow10, 1);
    assert(pow10(0) == 1);
    lemma_plain_mantissa(d, "G"@);
    lemma_plain_mantissa(d, "GB"@);
    lemma_plain_mantissa(d, "%"@);
    assert(!eq_ci("G"@, "k"@) && !eq_ci("G"@, "m"@) && eq_ci("G"@, "g"@)) by {
        assert(!char_eq_ci("G"@[0], "k"@[0]));
        assert(!char_eq_ci("G"@[0], "m"@[0]));
    }
    assert(unit_factor("G"@) == Some(1073741824int));
    assert(!eq_ci("GB"@, "k"@) && !eq_ci("GB"@, "m"@) && !eq_ci("GB"@, "g"@));
    assert(!eq_ci("GB"@, "t"@) && !eq_ci("GB"@, "p"@));
    assert(!eq_ci("GB"@, "kb"@) && !eq_ci("GB"@, "mb"@) && eq_ci("GB"@, "gb"@)) by {
        assert(!char_eq_ci("GB"@[0], "kb"@[0]));
        assert(!char_eq_ci("GB"@[0], "mb"@[0]));
    }
    assert(unit_factor("GB"@) == Some(1000000000int));
}

} // verus!
