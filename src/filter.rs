use vstd::prelude::*;
use vstd::string::*;
use crate::col::{Col, ValueKind, col_kind, col_name, is_extension_col, lemma_name_unique};
use crate::overlay::{LustreData, overlay_value};
use crate::record::{MountRecord, extract};
use crate::text::{debug_of, debug_str, eq_ci, is_space, is_space_exec, str_eq_ci};
use crate::value::{
    CmpOp, LiteralError, Value, ValueV, literal_of, literal_result, parse_literal, value_cmp,
};

verus! {

/// A boolean expression over columns and typed literals.
#[derive(Debug)]
pub enum Expr {
    Cmp(Col, CmpOp, Value),
    Not(Box<Expr>),
    And(Box<Expr>, Box<Expr>),
    Or(Box<Expr>, Box<Expr>),
}

/// What went wrong while building a filter.
#[derive(Debug, Clone, Copy, PartialEq, Eq, Structural)]
pub enum FilterErrorKind {
    UnknownColumn,
    UnknownOperator,
    /// A literal could not be read; `token` is its position among the
    /// expression's tokens, counted from 0.
    Literal(LiteralError, usize),
    TypeMismatch,
    Syntax,
}

/// A filter that could not be built: the expression as given and why.
#[derive(Debug)]
pub struct FilterError {
    pub raw: String,
    pub kind: FilterErrorKind,
}

/// A parsed filter. Without an expression it keeps every record.
#[derive(Debug)]
pub struct Filter {
    pub raw: String,
    pub expr: Option<Expr>,
}

/// The operators that a column of the given kind accepts: every
/// comparison for numbers, sizes and shares; equality and containment for
/// texts; equality for flags.
pub open spec fn op_allowed(kind: ValueKind, op: CmpOp) -> bool {
    match kind {
        ValueKind::ByteSize | ValueKind::Percentage | ValueKind::PlainNumber => op != CmpOp::Contains,
        ValueKind::Text | ValueKind::OptionalText => op == CmpOp::Eq || op == CmpOp::Ne || op
            == CmpOp::Contains,
        ValueKind::Boolean => op == CmpOp::Eq || op == CmpOp::Ne,
    }
}

/// `y` occurs in `x`.
pub open spec fn contains(x: Seq<char>, y: Seq<char>) -> bool {
    exists|i: int| 0 <= i <= x.len() - y.len() && #[trigger] x.subrange(i, i + y.len()) == y
}

/// An ordering operator applied to the sign of a comparison.
pub open spec fn order_holds(op: CmpOp, c: int) -> bool {
    match op {
        CmpOp::Eq => c == 0,
        CmpOp::Ne => c != 0,
        CmpOp::Lt => c < 0,
        CmpOp::Le => c <= 0,
        CmpOp::Gt => c > 0,
        CmpOp::Ge => c >= 0,
        CmpOp::Contains => false,
    }
}

/// Whether a record's value `v` stands in relation `op` to the literal. A
/// missing value satisfies no comparison.
pub open spec fn holds(op: CmpOp, v: ValueV, lit: ValueV) -> bool {
    match (v, lit) {
        (ValueV::Bytes(_), ValueV::Bytes(_)) => order_holds(op, value_cmp(v, lit)),
        (ValueV::Number(_), ValueV::Number(_)) => order_holds(op, value_cmp(v, lit)),
        (ValueV::Percent(_, _), ValueV::Percent(_, _)) => order_holds(op, value_cmp(v, lit)),
        (ValueV::Text(x), ValueV::Text(y)) => match op {
            CmpOp::Eq => x == y,
            CmpOp::Ne => x != y,
            CmpOp::Contains => contains(x, y),
            _ => false,
        },
        (ValueV::Bool(x), ValueV::Bool(y)) => match op {
            CmpOp::Eq => x == y,
            CmpOp::Ne => x != y,
            _ => false,
        },
        _ => false,
    }
}

/// The value of a column for a record as filters see it: the overlay's
/// for its own columns, the record's for the others.
pub open spec fn column_value(c: Col, r: MountRecord, d: LustreData) -> ValueV {
    if is_extension_col(c) {
        overlay_value(c, d, r)
    } else {
        extract(c, r)
    }
}

/// The value of a column for a record as filters and reports see it.
pub fn resolve_value(c: Col, r: &MountRecord, lustre: &LustreData) -> (v: Value)
    ensures
        v@ == column_value(c, *r, *lustre),
{
    if c.is_extension() {
        lustre.value(c, r)
    } else {
        r.value(c)
    }
}

/// The value of an expression for a record.
pub open spec fn eval(e: Expr, r: MountRecord, d: LustreData) -> bool
    decreases e,
{
    match e {
        Expr::Cmp(c, op, lit) => holds(op, column_value(c, r, d), lit@),
        Expr::Not(a) => !eval(*a, r, d),
        Expr::And(a, b) => eval(*a, r, d) && eval(*b, r, d),
        Expr::Or(a, b) => eval(*a, r, d) || eval(*b, r, d),
    }
}

/// The literal has the shape of the column's kind.
pub open spec fn literal_fits(kind: ValueKind, v: ValueV) -> bool {
    match kind {
        ValueKind::ByteSize => v is Bytes,
        ValueKind::Percentage => v matches ValueV::Percent(_, d) && d > 0,
        ValueKind::PlainNumber => v is Number,
        ValueKind::Text | ValueKind::OptionalText => v is Text,
        ValueKind::Boolean => v is Bool,
    }
}

/// Every comparison uses an operator and a literal that its column accepts.
pub open spec fn well_typed(e: Expr) -> bool
    decreases e,
{
    match e {
        Expr::Cmp(c, op, lit) => op_allowed(col_kind(c), op) && literal_fits(col_kind(c), lit@),
        Expr::Not(a) => well_typed(*a),
        Expr::And(a, b) => well_typed(*a) && well_typed(*b),
        Expr::Or(a, b) => well_typed(*a) && well_typed(*b),
    }
}

pub open spec fn filter_wf(f: Filter) -> bool {
    f.expr matches Some(e) ==> well_typed(e)
}

/// Whether the filter keeps the record.
pub open spec fn accepts(f: Filter, d: LustreData, r: MountRecord) -> bool {
    match f.expr {
        None => true,
        Some(e) => eval(e, r, d),
    }
}

/// The records that the filter keeps, in their order.
pub open spec fn kept(f: Filter, d: LustreData, recs: Seq<MountRecord>) -> Seq<MountRecord>
    decreases recs.len(),
{
    if recs.len() == 0 {
        Seq::empty()
    } else {
        let rest = kept(f, d, recs.drop_last());
        if accepts(f, d, recs.last()) {
            rest.push(recs.last())
        } else {
            rest
        }
    }
}

fn text_contains(x: &str, y: &str) -> (r: bool)
    ensures
        r == contains(x@, y@),
{
    let n = x.unicode_len();
    let m = y.unicode_len();
    if m > n {
        return false;
    }
    let mut i: usize = 0;
    while i <= n - m
        invariant
            n == x@.len(),
            m == y@.len(),
            m <= n,
            i <= n - m + 1,
            forall|k: int| 0 <= k < i ==> #[trigger] x@.subrange(k, k + m) != y@,
        decreases n - m + 1 - i,
    {
        let mut j: usize = 0;
        while j < m && x.get_char(i + j) == y.get_char(j)
            invariant
                n == x@.len(),
                m == y@.len(),
                i + m <= n,
                j <= m,
                forall|l: int| 0 <= l < j ==> x@[i + l] == y@[l],
            decreases m - j,
        {
            j += 1;
        }
        if j == m {
            assert(x@.subrange(i as int, i + m) =~= y@);
            return true;
        }
        assert(x@.subrange(i as int, i + m)[j as int] != y@[j as int]);
        i += 1;
    }
    false
}

fn order_holds_exec(op: CmpOp, c: i8) -> (r: bool)
    ensures
        r == order_holds(op, c as int),
{
    match op {
        CmpOp::Eq => c == 0,
        CmpOp::Ne => c != 0,
        CmpOp::Lt => c < 0,
        CmpOp::Le => c <= 0,
        CmpOp::Gt => c > 0,
        CmpOp::Ge => c >= 0,
        CmpOp::Contains => false,
    }
}

fn holds_exec(op: CmpOp, v: &Value, lit: &Value) -> (r: bool)
    ensures
        r == holds(op, v@, lit@),
{
    match (v, lit) {
        (Value::Bytes(_), Value::Bytes(_)) | (Value::Number(_), Value::Number(_)) | (
            Value::Percent(_, _),
            Value::Percent(_, _),
        ) => order_holds_exec(op, v.compare(lit)),
        (Value::Text(x), Value::Text(y)) => match op {
            CmpOp::Eq => text_eq(x.as_str(), y.as_str()),
            CmpOp::Ne => !text_eq(x.as_str(), y.as_str()),
            CmpOp::Contains => text_contains(x.as_str(), y.as_str()),
            _ => false,
        },
        (Value::Bool(x), Value::Bool(y)) => match op {
            CmpOp::Eq => *x == *y,
            CmpOp::Ne => *x != *y,
            _ => false,
        },
        _ => false,
    }
}

fn text_eq(x: &str, y: &str) -> (r: bool)
    ensures
        r == (x@ == y@),
{
    let n = x.unicode_len();
    if n != y.unicode_len() {
        return false;
    }
    let mut i: usize = 0;
    while i < n
        invariant
            n == x@.len(),
            n == y@.len(),
            i <= n,
            forall|j: int| 0 <= j < i ==> x@[j] == y@[j],
        decreases n - i,
    {
        if x.get_char(i) != y.get_char(i) {
            return false;
        }
        i += 1;
    }
    assert(x@ =~= y@);
    true
}

impl Expr {
    /// Builds a comparison, checking the operator and the literal against
    /// the column's kind before any record is seen.
    pub fn comparison(col: Col, op: CmpOp, literal: &str) -> (r: Result<Expr, FilterErrorKind>)
        ensures
            !op_allowed(col_kind(col), op) ==> r == Err::<Expr, FilterErrorKind>(
                FilterErrorKind::TypeMismatch,
            ),
            op_allowed(col_kind(col), op) ==> match literal_of(literal@, col_kind(col)) {
                Err(le) => r == Err::<Expr, FilterErrorKind>(FilterErrorKind::Literal(le, 2)),
                Ok(v) => r matches Ok(Expr::Cmp(c2, op2, lit)) && c2 == col && op2 == op && lit@
                    == v,
            },
            r matches Ok(e) ==> well_typed(e),
    {
        let kind = col.kind();
        let allowed = match kind {
            ValueKind::ByteSize | ValueKind::Percentage | ValueKind::PlainNumber => match op {
                CmpOp::Contains => false,
                _ => true,
            },
            ValueKind::Text | ValueKind::OptionalText => match op {
                CmpOp::Eq | CmpOp::Ne | CmpOp::Contains => true,
                _ => false,
            },
            ValueKind::Boolean => match op {
                CmpOp::Eq | CmpOp::Ne => true,
                _ => false,
            },
        };
        if !allowed {
            return Err(FilterErrorKind::TypeMismatch);
        }
        match parse_literal(literal, kind) {
            Err(le) => Err(FilterErrorKind::Literal(le, 2)),
            Ok(v) => Ok(Expr::Cmp(col, op, v)),
        }
    }

    /// Evaluates the expression for one record.
    pub fn eval(&self, r: &MountRecord, lustre: &LustreData) -> (b: bool)
        ensures
            b == eval(*self, *r, *lustre),
        decreases self,
    {
        match self {
            Expr::Cmp(c, op, lit) => {
                let v = resolve_value(*c, r, lustre);
                holds_exec(*op, &v, lit)
            },
            Expr::Not(a) => !a.eval(r, lustre),
            Expr::And(a, b) => a.eval(r, lustre) && b.eval(r, lustre),
            Expr::Or(a, b) => a.eval(r, lustre) || b.eval(r, lustre),
        }
    }
}

impl Filter {
    /// The filter that keeps everything.
    pub fn identity() -> (f: Filter)
        ensures
            f.expr is None,
            f.raw@.len() == 0,
    {
        Filter { raw: String::new(), expr: None }
    }

    /// Whether the filter keeps the record.
    pub fn accepts(&self, r: &MountRecord, lustre: &LustreData) -> (b: bool)
        ensures
            b == accepts(*self, *lustre, *r),
    {
        match &self.expr {
            None => true,
            Some(e) => e.eval(r, lustre),
        }
    }

    /// The records that the filter keeps, in their order. The overlay's
    /// columns are read from `lustre`.
    pub fn filter(&self, mounts: Vec<MountRecord>, lustre: &LustreData) -> (r: Vec<MountRecord>)
        ensures
            r@ == kept(*self, *lustre, mounts@),
    {
        let ghost orig = mounts@;
        let mut mounts = mounts;
        let mut out: Vec<MountRecord> = Vec::new();
        let ghost mut i: int = 0;
        while mounts.len() > 0
            invariant
                0 <= i <= orig.len(),
                mounts@ == orig.skip(i),
                out@ == kept(*self, *lustre, orig.take(i)),
            decreases mounts@.len(),
        {
            let x = mounts.remove(0);
            proof {
                assert(orig.take(i + 1).drop_last() =~= orig.take(i));
                assert(orig.take(i + 1).last() == x);
            }
            if self.accepts(&x, lustre) {
                out.push(x);
            }
            proof {
                i = i + 1;
                assert(mounts@ =~= orig.skip(i));
            }
        }
        assert(orig.take(i) =~= orig);
        out
    }
}

// ---------------------------------------------------------------- syntax

/// What a filter expression reads as: its tokens, then the expression that
/// they make; no expression where there are no tokens.
pub open spec fn filter_of(s: Seq<char>) -> Result<Option<ExprV>, FilterErrorKind> {
    match lex(s, 0) {
        Err(k) => Err(k),
        Ok(tv) => if tv.len() == 0 {
            Ok(None)
        } else {
            match parse_expr(tv) {
                Ok(e) => Ok(Some(e)),
                Err(k) => Err(k),
            }
        },
    }
}

/// A token of a filter expression.
#[derive(Debug)]
pub enum Token {
    Word(String),
    Quoted(String),
    Op(CmpOp),
    LParen,
    RParen,
    And,
    Or,
    Not,
}

/// The characters that end a bare word.
pub open spec fn is_symbol(c: char) -> bool {
    c == '(' || c == ')' || c == '=' || c == '!' || c == '<' || c == '>' || c == '~' || c == '&'
        || c == '|' || c == '"' || c == '\''
}

fn is_symbol_exec(c: char) -> (r: bool)
    ensures
        r == is_symbol(c),
{
    c == '(' || c == ')' || c == '=' || c == '!' || c == '<' || c == '>' || c == '~' || c == '&'
        || c == '|' || c == '"' || c == '\''
}

/// The text holds whitespace only.
pub open spec fn blank(s: Seq<char>) -> bool {
    forall|i: int| 0 <= i < s.len() ==> is_space(#[trigger] s[i])
}

/// End of a quoted text whose opening quote `q` is before `j`.
pub open spec fn quote_end(s: Seq<char>, j: int, q: char) -> int
    decreases s.len() - j,
{
    if 0 <= j < s.len() && s[j] != q {
        quote_end(s, j + 1, q)
    } else {
        j
    }
}

/// End of a bare word that goes on at `j`.
pub open spec fn word_end(s: Seq<char>, j: int) -> int
    decreases s.len() - j,
{
    if 0 <= j < s.len() && !is_space(s[j]) && !is_symbol(s[j]) {
        word_end(s, j + 1)
    } else {
        j
    }
}

/// A bare word: one of the keywords, in any case, or a word.
pub open spec fn word_token(w: Seq<char>) -> TokenV {
    if eq_ci(w, "and"@) {
        TokenV::And
    } else if eq_ci(w, "or"@) {
        TokenV::Or
    } else if eq_ci(w, "not"@) {
        TokenV::Not
    } else {
        TokenV::Word(w)
    }
}

pub open spec fn cons(t: TokenV, r: Result<Seq<TokenV>, FilterErrorKind>) -> Result<
    Seq<TokenV>,
    FilterErrorKind,
> {
    match r {
        Ok(ts) => Ok(seq![t] + ts),
        Err(k) => Err(k),
    }
}

pub open spec fn prepend(pre: Seq<TokenV>, r: Result<Seq<TokenV>, FilterErrorKind>) -> Result<
    Seq<TokenV>,
    FilterErrorKind,
> {
    match r {
        Ok(ts) => Ok(pre + ts),
        Err(k) => Err(k),
    }
}

/// The tokens of `s` from position `i` on. Quoted texts, in double or
/// single quotes, are one token each; `and`, `or` and `not` are keywords in
/// any case, as are `&&` and `||`.
pub open spec fn lex(s: Seq<char>, i: int) -> Result<Seq<TokenV>, FilterErrorKind>
    decreases s.len() - i,
{
    if i < 0 || i >= s.len() {
        Ok(Seq::empty())
    } else {
        let c = s[i];
        if is_space(c) {
            lex(s, i + 1)
        } else if c == '(' {
            cons(TokenV::LParen, lex(s, i + 1))
        } else if c == ')' {
            cons(TokenV::RParen, lex(s, i + 1))
        } else if c == '"' || c == '\'' {
            let j = quote_end(s, i + 1, c);
            if j >= s.len() || j <= i {
                Err(FilterErrorKind::Syntax)
            } else {
                cons(TokenV::Quoted(s.subrange(i + 1, j)), lex(s, j + 1))
            }
        } else if c == '=' {
            cons(TokenV::Op(CmpOp::Eq), lex(s, i + 1))
        } else if c == '~' {
            cons(TokenV::Op(CmpOp::Contains), lex(s, i + 1))
        } else if c == '<' || c == '>' || c == '!' {
            let eq_next = i + 1 < s.len() && s[i + 1] == '=';
            if c == '!' && !eq_next {
                Err(FilterErrorKind::UnknownOperator)
            } else {
                let op = if c == '<' {
                    if eq_next { CmpOp::Le } else { CmpOp::Lt }
                } else if c == '>' {
                    if eq_next { CmpOp::Ge } else { CmpOp::Gt }
                } else {
                    CmpOp::Ne
                };
                cons(TokenV::Op(op), lex(s, if eq_next { i + 2 } else { i + 1 }))
            }
        } else if c == '&' || c == '|' {
            if i + 1 < s.len() && s[i + 1] == c {
                cons(if c == '&' { TokenV::And } else { TokenV::Or }, lex(s, i + 2))
            } else {
                Err(FilterErrorKind::UnknownOperator)
            }
        } else {
            let j = word_end(s, i + 1);
            if j <= i || j > s.len() {
                Err(FilterErrorKind::Syntax)
            } else {
                cons(word_token(s.subrange(i, j)), lex(s, j))
            }
        }
    }
}

proof fn lemma_prepend_cons(pre: Seq<TokenV>, t: TokenV, r: Result<Seq<TokenV>, FilterErrorKind>)
    ensures
        prepend(pre, cons(t, r)) == prepend(pre.push(t), r),
{
    if let Ok(ts) = r {
        assert(pre + (seq![t] + ts) =~= pre.push(t) + ts);
    }
}

fn push_token(ts: &mut Vec<Token>, t: Token)
    ensures
        token_views(final(ts)@) == token_views(old(ts)@).push(t@),
        final(ts)@.len() == old(ts)@.len() + 1,
{
    ts.push(t);
    assert(token_views(ts@) =~= token_views(old(ts)@).push(t@));
}

fn word_token_exec(w: &str) -> (t: Token)
    ensures
        t@ == word_token(w@),
{
    if str_eq_ci(w, "and") {
        Token::And
    } else if str_eq_ci(w, "or") {
        Token::Or
    } else if str_eq_ci(w, "not") {
        Token::Not
    } else {
        Token::Word(w.to_owned())
    }
}

/// Splits an expression into tokens.
pub fn tokenize(s: &str) -> (r: Result<Vec<Token>, FilterErrorKind>)
    ensures
        match r {
            Ok(ts) => lex(s@, 0) == Ok::<Seq<TokenV>, FilterErrorKind>(token_views(ts@)),
            Err(k) => lex(s@, 0) == Err::<Seq<TokenV>, FilterErrorKind>(k),
        },
        blank(s@) ==> (r matches Ok(ts) && ts@.len() == 0),
        (r matches Ok(ts) && ts@.len() == 0) ==> blank(s@),
{
    let n = s.unicode_len();
    let mut ts: Vec<Token> = Vec::new();
    let mut i: usize = 0;
    assert(token_views(ts@) =~= Seq::<TokenV>::empty());
    assert(prepend(Seq::empty(), lex(s@, 0)) == lex(s@, 0)) by {
        if let Ok(t) = lex(s@, 0) {
            assert(Seq::<TokenV>::empty() + t =~= t);
        }
    }
    while i < n
        invariant
            n == s@.len(),
            i <= n,
            lex(s@, 0) == prepend(token_views(ts@), lex(s@, i as int)),
            ts@.len() == 0 ==> blank(s@.take(i as int)),
            ts@.len() > 0 ==> !blank(s@),
        decreases n - i,
    {
        let ghost pre = token_views(ts@);
        let c = s.get_char(i);
        if is_space_exec(c) {
            assert(s@.take(i + 1) =~= s@.take(i as int).push(c));
            i += 1;
            continue;
        }
        assert(!blank(s@));
        if c == '(' {
            proof {
                lemma_prepend_cons(pre, TokenV::LParen, lex(s@, i + 1));
            }
            push_token(&mut ts, Token::LParen);
            i += 1;
        } else if c == ')' {
            proof {
                lemma_prepend_cons(pre, TokenV::RParen, lex(s@, i + 1));
            }
            push_token(&mut ts, Token::RParen);
            i += 1;
        } else if c == '"' || c == '\'' {
            let mut j: usize = i + 1;
            while j < n && s.get_char(j) != c
                invariant
                    n == s@.len(),
                    i < j <= n,
                    quote_end(s@, i + 1, c) == quote_end(s@, j as int, c),
                decreases n - j,
            {
                j += 1;
            }
            if j >= n {
                return Err(FilterErrorKind::Syntax);
            }
            let q = s.substring_char(i + 1, j).to_owned();
            proof {
                lemma_prepend_cons(pre, TokenV::Quoted(q@), lex(s@, j + 1));
            }
            push_token(&mut ts, Token::Quoted(q));
            i = j + 1;
        } else if c == '=' {
            proof {
                lemma_prepend_cons(pre, TokenV::Op(CmpOp::Eq), lex(s@, i + 1));
            }
            push_token(&mut ts, Token::Op(CmpOp::Eq));
            i += 1;
        } else if c == '~' {
            proof {
                lemma_prepend_cons(pre, TokenV::Op(CmpOp::Contains), lex(s@, i + 1));
            }
            push_token(&mut ts, Token::Op(CmpOp::Contains));
            i += 1;
        } else if c == '<' || c == '>' || c == '!' {
            let eq_next = i + 1 < n && s.get_char(i + 1) == '=';
            let op = if c == '<' {
                if eq_next { CmpOp::Le } else { CmpOp::Lt }
            } else if c == '>' {
                if eq_next { CmpOp::Ge } else { CmpOp::Gt }
            } else {
                if !eq_next {
                    return Err(FilterErrorKind::UnknownOperator);
                }
                CmpOp::Ne
            };
            let next = if eq_next { i + 2 } else { i + 1 };
            proof {
                lemma_prepend_cons(pre, TokenV::Op(op), lex(s@, next as int));
            }
            push_token(&mut ts, Token::Op(op));
            i = next;
        } else if c == '&' || c == '|' {
            if i + 1 < n && s.get_char(i + 1) == c {
                let t = if c == '&' { Token::And } else { Token::Or };
                proof {
                    lemma_prepend_cons(pre, t@, lex(s@, i + 2));
                }
                push_token(&mut ts, t);
                i += 2;
            } else {
                return Err(FilterErrorKind::UnknownOperator);
            }
        } else {
            let mut j: usize = i + 1;
            while j < n && !is_space_exec(s.get_char(j)) && !is_symbol_exec(s.get_char(j))
                invariant
                    n == s@.len(),
                    i < j <= n,
                    word_end(s@, i + 1) == word_end(s@, j as int),
                decreases n - j,
            {
                j += 1;
            }
            let w = s.substring_char(i, j);
            let t = word_token_exec(w);
            proof {
                lemma_prepend_cons(pre, t@, lex(s@, j as int));
            }
            push_token(&mut ts, t);
            i = j;
        }
    }
    assert(s@.take(n as int) =~= s@);
    assert(token_views(ts@) + Seq::<TokenV>::empty() =~= token_views(ts@));
    Ok(ts)
}

/// The content of a token.
pub enum TokenV {
    Word(Seq<char>),
    Quoted(Seq<char>),
    Op(CmpOp),
    LParen,
    RParen,
    And,
    Or,
    Not,
}

impl View for Token {
    type V = TokenV;

    open spec fn view(&self) -> TokenV {
        match self {
            Token::Word(w) => TokenV::Word(w@),
            Token::Quoted(w) => TokenV::Quoted(w@),
            Token::Op(op) => TokenV::Op(*op),
            Token::LParen => TokenV::LParen,
            Token::RParen => TokenV::RParen,
            Token::And => TokenV::And,
            Token::Or => TokenV::Or,
            Token::Not => TokenV::Not,
        }
    }
}

pub open spec fn token_views(ts: Seq<Token>) -> Seq<TokenV> {
    ts.map_values(|t: Token| t@)
}

/// The content of an expression.
pub enum ExprV {
    Cmp(Col, CmpOp, ValueV),
    Not(Box<ExprV>),
    And(Box<ExprV>, Box<ExprV>),
    Or(Box<ExprV>, Box<ExprV>),
}

pub open spec fn expr_view(e: Expr) -> ExprV
    decreases e,
{
    match e {
        Expr::Cmp(c, op, v) => ExprV::Cmp(c, op, v@),
        Expr::Not(a) => ExprV::Not(Box::new(expr_view(*a))),
        Expr::And(a, b) => ExprV::And(Box::new(expr_view(*a)), Box::new(expr_view(*b))),
        Expr::Or(a, b) => ExprV::Or(Box::new(expr_view(*a)), Box::new(expr_view(*b))),
    }
}

/// The column that a word names, if any (a word names at most one).
pub open spec fn col_of(w: Seq<char>) -> Option<Col> {
    if exists|c: Col| eq_ci(w, #[trigger] col_name(c)) {
        Some(choose|c: Col| eq_ci(w, #[trigger] col_name(c)))
    } else {
        None
    }
}

/// The comparison of a column with a literal, or why it cannot be built.
pub open spec fn comparison_of(c: Col, op: CmpOp, lit: Seq<char>) -> Result<ExprV, FilterErrorKind> {
    if !op_allowed(col_kind(c), op) {
        Err(FilterErrorKind::TypeMismatch)
    } else {
        match literal_of(lit, col_kind(c)) {
            Err(le) => Err(FilterErrorKind::Literal(le, 2)),
            Ok(v) => Ok(ExprV::Cmp(c, op, v)),
        }
    }
}

/// An error of a comparison that starts at token `pos`, with the position
/// of its literal counted in the whole expression.
pub open spec fn shifted(k: FilterErrorKind, pos: int) -> FilterErrorKind {
    match k {
        FilterErrorKind::Literal(le, t) => FilterErrorKind::Literal(le, (t + pos) as usize),
        _ => k,
    }
}

/// `not` unary, a parenthesized expression, or `column operator literal`,
/// starting at token `pos`; with the position after it.
pub open spec fn p_unary(ts: Seq<TokenV>, pos: int) -> Result<(ExprV, int), FilterErrorKind>
    decreases ts.len() - pos, 0int,
{
    if pos < 0 || pos >= ts.len() {
        Err(FilterErrorKind::Syntax)
    } else {
        match ts[pos] {
            TokenV::Not => match p_unary(ts, pos + 1) {
                Ok((e, p)) => Ok((ExprV::Not(Box::new(e)), p)),
                Err(k) => Err(k),
            },
            TokenV::LParen => match p_or(ts, pos + 1) {
                Ok((e, p)) => if 0 <= p < ts.len() && ts[p] is RParen {
                    Ok((e, p + 1))
                } else {
                    Err(FilterErrorKind::Syntax)
                },
                Err(k) => Err(k),
            },
            TokenV::Word(w) => match col_of(w) {
                None => Err(FilterErrorKind::UnknownColumn),
                Some(c) => if pos + 1 >= ts.len() {
                    Err(FilterErrorKind::Syntax)
                } else {
                    match ts[pos + 1] {
                        TokenV::Op(op) => if pos + 2 >= ts.len() {
                            Err(FilterErrorKind::Syntax)
                        } else {
                            match ts[pos + 2] {
                                TokenV::Word(l) => match comparison_of(c, op, l) {
                                    Ok(e) => Ok((e, pos + 3)),
                                    Err(k) => Err(shifted(k, pos)),
                                },
                                TokenV::Quoted(l) => match comparison_of(c, op, l) {
                                    Ok(e) => Ok((e, pos + 3)),
                                    Err(k) => Err(shifted(k, pos)),
                                },
                                _ => Err(FilterErrorKind::Syntax),
                            }
                        },
                        TokenV::Word(_) => Err(FilterErrorKind::UnknownOperator),
                        TokenV::Quoted(_) => Err(FilterErrorKind::UnknownOperator),
                        _ => Err(FilterErrorKind::Syntax),
                    }
                },
            },
            _ => Err(FilterErrorKind::Syntax),
        }
    }
}

/// Further `and` operands after `acc`, which ends before `p`.
pub open spec fn p_and_rest(ts: Seq<TokenV>, acc: ExprV, p: int) -> Result<
    (ExprV, int),
    FilterErrorKind,
>
    decreases ts.len() - p, 0int,
{
    if 0 <= p < ts.len() && ts[p] is And {
        match p_unary(ts, p + 1) {
            Err(k) => Err(k),
            Ok((r, p2)) => if p + 1 < p2 <= ts.len() {
                p_and_rest(ts, ExprV::And(Box::new(acc), Box::new(r)), p2)
            } else {
                Err(FilterErrorKind::Syntax)
            },
        }
    } else {
        Ok((acc, p))
    }
}

/// A conjunction starting at token `pos`.
pub open spec fn p_and(ts: Seq<TokenV>, pos: int) -> Result<(ExprV, int), FilterErrorKind>
    decreases ts.len() - pos, 1int,
{
    match p_unary(ts, pos) {
        Err(k) => Err(k),
        Ok((e, p)) => if pos < p <= ts.len() {
            p_and_rest(ts, e, p)
        } else {
            Err(FilterErrorKind::Syntax)
        },
    }
}

/// Further `or` operands after `acc`, which ends before `p`.
pub open spec fn p_or_rest(ts: Seq<TokenV>, acc: ExprV, p: int) -> Result<
    (ExprV, int),
    FilterErrorKind,
>
    decreases ts.len() - p, 2int,
{
    if 0 <= p < ts.len() && ts[p] is Or {
        match p_and(ts, p + 1) {
            Err(k) => Err(k),
            Ok((r, p2)) => if p + 1 < p2 <= ts.len() {
                p_or_rest(ts, ExprV::Or(Box::new(acc), Box::new(r)), p2)
            } else {
                Err(FilterErrorKind::Syntax)
            },
        }
    } else {
        Ok((acc, p))
    }
}

/// A disjunction starting at token `pos`: the whole grammar, `or` binding
/// weakest, then `and`, then `not`.
pub open spec fn p_or(ts: Seq<TokenV>, pos: int) -> Result<(ExprV, int), FilterErrorKind>
    decreases ts.len() - pos, 3int,
{
    match p_and(ts, pos) {
        Err(k) => Err(k),
        Ok((e, p)) => if pos < p <= ts.len() {
            p_or_rest(ts, e, p)
        } else {
            Err(FilterErrorKind::Syntax)
        },
    }
}

/// What a sequence of tokens reads as: one expression that uses them all.
pub open spec fn parse_expr(ts: Seq<TokenV>) -> Result<ExprV, FilterErrorKind> {
    match p_or(ts, 0) {
        Err(k) => Err(k),
        Ok((e, p)) => if p == ts.len() {
            Ok(e)
        } else {
            Err(FilterErrorKind::Syntax)
        },
    }
}

/// `r` is the parse result `s`, read through the views.
pub open spec fn step_result(r: Result<(Expr, usize), FilterErrorKind>, s: Result<(ExprV, int), FilterErrorKind>) -> bool {
    match r {
        Ok((e, p)) => s == Ok::<(ExprV, int), FilterErrorKind>((expr_view(e), p as int)),
        Err(k) => s == Err::<(ExprV, int), FilterErrorKind>(k),
    }
}

fn parse_or(ts: &Vec<Token>, pos: usize) -> (r: Result<(Expr, usize), FilterErrorKind>)
    ensures
        step_result(r, p_or(token_views(ts@), pos as int)),
        r matches Ok((e, p)) ==> pos < p <= ts@.len() && well_typed(e),
    decreases ts@.len() - pos, 3int,
{
    let ghost tv = token_views(ts@);
    let (mut e, mut p) = match parse_and(ts, pos) {
        Ok(x) => x,
        Err(k) => return Err(k),
    };
    while p < ts.len() && matches!(ts[p], Token::Or)
        invariant
            tv == token_views(ts@),
            pos < p <= ts@.len(),
            well_typed(e),
            p_or(tv, pos as int) == p_or_rest(tv, expr_view(e), p as int),
        decreases ts@.len() - p,
    {
        assert(tv[p as int] == ts@[p as int]@);
        let (rhs, p2) = match parse_and(ts, p + 1) {
            Ok(x) => x,
            Err(k) => return Err(k),
        };
        e = Expr::Or(Box::new(e), Box::new(rhs));
        p = p2;
    }
    proof {
        if p < ts@.len() {
            assert(tv[p as int] == ts@[p as int]@);
        }
    }
    Ok((e, p))
}

fn parse_and(ts: &Vec<Token>, pos: usize) -> (r: Result<(Expr, usize), FilterErrorKind>)
    ensures
        step_result(r, p_and(token_views(ts@), pos as int)),
        r matches Ok((e, p)) ==> pos < p <= ts@.len() && well_typed(e),
    decreases ts@.len() - pos, 1int,
{
    let ghost tv = token_views(ts@);
    let (mut e, mut p) = match parse_unary(ts, pos) {
        Ok(x) => x,
        Err(k) => return Err(k),
    };
    while p < ts.len() && matches!(ts[p], Token::And)
        invariant
            tv == token_views(ts@),
            pos < p <= ts@.len(),
            well_typed(e),
            p_and(tv, pos as int) == p_and_rest(tv, expr_view(e), p as int),
        decreases ts@.len() - p,
    {
        assert(tv[p as int] == ts@[p as int]@);
        let (rhs, p2) = match parse_unary(ts, p + 1) {
            Ok(x) => x,
            Err(k) => return Err(k),
        };
        e = Expr::And(Box::new(e), Box::new(rhs));
        p = p2;
    }
    proof {
        if p < ts@.len() {
            assert(tv[p as int] == ts@[p as int]@);
        }
    }
    Ok((e, p))
}

fn parse_unary(ts: &Vec<Token>, pos: usize) -> (r: Result<(Expr, usize), FilterErrorKind>)
    ensures
        step_result(r, p_unary(token_views(ts@), pos as int)),
        r matches Ok((e, p)) ==> pos < p <= ts@.len() && well_typed(e),
    decreases ts@.len() - pos, 0int,
{
    let ghost tv = token_views(ts@);
    if pos >= ts.len() {
        return Err(FilterErrorKind::Syntax);
    }
    assert(tv[pos as int] == ts@[pos as int]@);
    match &ts[pos] {
        Token::Not => match parse_unary(ts, pos + 1) {
            Ok((e, p)) => Ok((Expr::Not(Box::new(e)), p)),
            Err(k) => Err(k),
        },
        Token::LParen => match parse_or(ts, pos + 1) {
            Ok((e, p)) => {
                if p < ts.len() && matches!(ts[p], Token::RParen) {
                    assert(tv[p as int] == ts@[p as int]@);
                    Ok((e, p + 1))
                } else {
                    proof {
                        if p < ts@.len() {
                            assert(tv[p as int] == ts@[p as int]@);
                        }
                    }
                    Err(FilterErrorKind::Syntax)
                }
            },
            Err(k) => Err(k),
        },
        Token::Word(w) => {
            let col = match Col::parse(w.as_str()) {
                Ok(c) => c,
                Err(_) => return Err(FilterErrorKind::UnknownColumn),
            };
            proof {
                let c2 = choose|c: Col| eq_ci(w@, #[trigger] col_name(c));
                lemma_name_unique(w@, col, c2);
            }
            if pos + 1 >= ts.len() {
                return Err(FilterErrorKind::Syntax);
            }
            assert(tv[pos + 1] == ts@[pos + 1]@);
            let op = match &ts[pos + 1] {
                Token::Op(op) => *op,
                Token::Word(_) | Token::Quoted(_) => return Err(FilterErrorKind::UnknownOperator),
                _ => return Err(FilterErrorKind::Syntax),
            };
            if pos + 2 >= ts.len() {
                return Err(FilterErrorKind::Syntax);
            }
            assert(tv[pos + 2] == ts@[pos + 2]@);
            let lit = match &ts[pos + 2] {
                Token::Word(l) => l.as_str(),
                Token::Quoted(l) => l.as_str(),
                _ => return Err(FilterErrorKind::Syntax),
            };
            match Expr::comparison(col, op, lit) {
                Ok(e) => Ok((e, pos + 3)),
                Err(FilterErrorKind::Literal(le, t)) => Err(FilterErrorKind::Literal(le, t + pos)),
                Err(k) => Err(k),
            }
        },
        _ => Err(FilterErrorKind::Syntax),
    }
}

/// Parses a sequence of tokens as one expression.
pub fn parse_tokens(ts: &Vec<Token>) -> (r: Result<Expr, FilterErrorKind>)
    ensures
        match r {
            Ok(e) => parse_expr(token_views(ts@)) == Ok::<ExprV, FilterErrorKind>(expr_view(e)),
            Err(k) => parse_expr(token_views(ts@)) == Err::<ExprV, FilterErrorKind>(k),
        },
        r matches Ok(e) ==> well_typed(e),
{
    match parse_or(ts, 0) {
        Ok((e, p)) => {
            if p == ts.len() {
                Ok(e)
            } else {
                Err(FilterErrorKind::Syntax)
            }
        },
        Err(k) => Err(k),
    }
}

impl FilterError {
    /// The message shown to the user: the expression as `{:?}` writes it,
    /// and the reason.
    pub fn message(&self) -> (r: String)
        ensures
            r@ == debug_of(self.raw@) + " can't be parsed as a filter: "@ + filter_reason(
                self.kind,
            ),
    {
        let quoted = debug_str(self.raw.as_str());
        filter_error_text(quoted.as_str(), self.kind)
    }
}

/// The message of a filter error, given the quoted expression and the kind.
pub fn filter_error_text(quoted: &str, kind: FilterErrorKind) -> (r: String)
    ensures
        r@ == quoted@ + " can't be parsed as a filter: "@ + filter_reason(kind),
{
    String::from_str(quoted).concat(" can't be parsed as a filter: ").concat(
        filter_reason_exec(kind),
    )
}

pub open spec fn filter_reason(k: FilterErrorKind) -> Seq<char> {
    match k {
        FilterErrorKind::UnknownColumn => "unknown column"@,
        FilterErrorKind::UnknownOperator => "unknown operator"@,
        FilterErrorKind::Literal(LiteralError::OutOfRange, _) => "percentage out of range"@,
        FilterErrorKind::Literal(LiteralError::BadUnit, _) => "unknown size unit"@,
        FilterErrorKind::Literal(LiteralError::Overflow, _) => "number too large"@,
        FilterErrorKind::Literal(LiteralError::Malformed, _) => "malformed value"@,
        FilterErrorKind::TypeMismatch => "operator does not fit the column"@,
        FilterErrorKind::Syntax => "syntax error"@,
    }
}

fn filter_reason_exec(k: FilterErrorKind) -> (r: &'static str)
    ensures
        r@ == filter_reason(k),
{
    match k {
        FilterErrorKind::UnknownColumn => "unknown column",
        FilterErrorKind::UnknownOperator => "unknown operator",
        FilterErrorKind::Literal(LiteralError::OutOfRange, _) => "percentage out of range",
        FilterErrorKind::Literal(LiteralError::BadUnit, _) => "unknown size unit",
        FilterErrorKind::Literal(LiteralError::Overflow, _) => "number too large",
        FilterErrorKind::Literal(LiteralError::Malformed, _) => "malformed value",
        FilterErrorKind::TypeMismatch => "operator does not fit the column",
        FilterErrorKind::Syntax => "syntax error",
    }
}

impl Filter {
    /// Parses a filter expression; one without tokens keeps every record.
    /// Every comparison of the result is checked against its column's kind.
    pub fn parse(s: &str) -> (r: Result<Filter, FilterError>)
        ensures
            match r {
                Ok(f) => f.raw@ == s@ && filter_of(s@) == Ok::<Option<ExprV>, FilterErrorKind>(
                    match f.expr {
                        None => None,
                        Some(e) => Some(expr_view(e)),
                    },
                ),
                Err(e) => e.raw@ == s@ && filter_of(s@) == Err::<Option<ExprV>, FilterErrorKind>(
                    e.kind,
                ),
            },
            r matches Ok(f) ==> filter_wf(f),
            r matches Ok(f) ==> (f.expr is None <==> blank(s@)),
            blank(s@) ==> r is Ok,
    {
        let ts = match tokenize(s) {
            Ok(ts) => ts,
            Err(kind) => return Err(FilterError { raw: s.to_owned(), kind }),
        };
        if ts.len() == 0 {
            return Ok(Filter { raw: s.to_owned(), expr: None });
        }
        match parse_tokens(&ts) {
            Ok(e) => Ok(Filter { raw: s.to_owned(), expr: Some(e) }),
            Err(kind) => Err(FilterError { raw: s.to_owned(), kind }),
        }
    }
}

// ---------------------------------------------------------------- laws

/// Filtering without an expression keeps every record, in order.
pub proof fn lemma_identity_filter_keeps_all(f: Filter, d: LustreData, recs: Seq<MountRecord>)
    requires
        f.expr is None,
    ensures
        kept(f, d, recs) == recs,
    decreases recs.len(),
{
    if recs.len() > 0 {
        lemma_identity_filter_keeps_all(f, d, recs.drop_last());
        assert(recs.drop_last().push(recs.last()) =~= recs);
    }
}

/// Every record that a filter keeps is accepted by it.
pub proof fn lemma_kept_accepted(f: Filter, d: LustreData, recs: Seq<MountRecord>)
    ensures
        forall|j: int|
            0 <= j < kept(f, d, recs).len() ==> accepts(f, d, #[trigger] kept(f, d, recs)[j]),
    decreases recs.len(),
{
    if recs.len() > 0 {
        let rest = kept(f, d, recs.drop_last());
        lemma_kept_accepted(f, d, recs.drop_last());
        assert forall|j: int| 0 <= j < kept(f, d, recs).len() implies accepts(
            f,
            d,
            #[trigger] kept(f, d, recs)[j],
        ) by {
            if j < rest.len() {
                assert(accepts(f, d, rest[j]));
            }
        }
    }
}

proof fn lemma_kept_all_accepted(f: Filter, d: LustreData, recs: Seq<MountRecord>)
    requires
        forall|j: int| 0 <= j < recs.len() ==> accepts(f, d, #[trigger] recs[j]),
    ensures
        kept(f, d, recs) == recs,
    decreases recs.len(),
{
    if recs.len() > 0 {
        lemma_kept_all_accepted(f, d, recs.drop_last());
        assert(accepts(f, d, recs[recs.len() - 1]));
        assert(recs.drop_last().push(recs.last()) =~= recs);
    }
}

/// Filtering twice with the same filter gives what filtering once gives.
pub proof fn lemma_filter_idempotent(f: Filter, d: LustreData, recs: Seq<MountRecord>)
    ensures
        kept(f, d, kept(f, d, recs)) == kept(f, d, recs),
{
    lemma_kept_accepted(f, d, recs);
    lemma_kept_all_accepted(f, d, kept(f, d, recs));
}


/// A comparison of a text column with an ordering operator is refused as a
/// type mismatch when the filter is built, whatever the literal, so no
/// record is ever evaluated against it.
pub proof fn lemma_text_order_mismatch(w: Seq<char>, c: Col, op: CmpOp, lit: TokenV)
    requires
        col_of(w) == Some(c),
        col_kind(c) == ValueKind::Text || col_kind(c) == ValueKind::OptionalText,
        op == CmpOp::Lt || op == CmpOp::Le || op == CmpOp::Gt || op == CmpOp::Ge,
        lit is Word || lit is Quoted,
    ensures
        parse_expr(seq![TokenV::Word(w), TokenV::Op(op), lit]) == Err::<ExprV, FilterErrorKind>(
            FilterErrorKind::TypeMismatch,
        ),
        forall|s: Seq<char>|
            #[trigger] lex(s, 0) == Ok::<Seq<TokenV>, FilterErrorKind>(
                seq![TokenV::Word(w), TokenV::Op(op), lit],
            ) ==> filter_of(s) == Err::<Option<ExprV>, FilterErrorKind>(
                FilterErrorKind::TypeMismatch,
            ),
{
    let ts = seq![TokenV::Word(w), TokenV::Op(op), lit];
    assert(p_unary(ts, 0) == Err::<(ExprV, int), FilterErrorKind>(FilterErrorKind::TypeMismatch));
    assert(p_and(ts, 0) == Err::<(ExprV, int), FilterErrorKind>(FilterErrorKind::TypeMismatch));
    assert(p_or(ts, 0) == Err::<(ExprV, int), FilterErrorKind>(FilterErrorKind::TypeMismatch));
}

} // verus!
