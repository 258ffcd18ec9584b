use vstd::prelude::*;
use vstd::string::*;
use crate::col::{
    Col, Order, col_name, col_default_order, is_extension_col, is_name_char, lemma_col_name_chars,
    lemma_name_unique,
};
use crate::text::{debug_of, debug_str, eq_ci, is_space, is_space_exec, str_eq_ci};
use crate::overlay::{LustreData, overlay_keys};
use crate::record::{MountRecord, keys_of, values_of};
use crate::value::{
    Value, ValueV, key_views, value_cmp, value_wf, lemma_value_cmp_antisym, lemma_value_cmp_trans,
};

verus! {

/// Record `a` (a position in the input) goes before record `b` in an
/// ascending stable sort: by key, and by input position among equal keys.
pub open spec fn key_before(keys: Seq<ValueV>, a: int, b: int) -> bool {
    value_cmp(keys[a], keys[b]) < 0 || (value_cmp(keys[a], keys[b]) == 0 && a < b)
}

/// `p` lists each of `0..n` once.
pub open spec fn is_index_perm(p: Seq<usize>, n: int) -> bool {
    &&& p.len() == n
    &&& forall|j: int| 0 <= j < n ==> #[trigger] p[j] < n
    &&& forall|a: int, b: int| 0 <= a < b < n ==> p[a] != p[b]
    &&& forall|k: int| 0 <= k < n ==> #[trigger] occurs(p, k, n)
}

/// `k` is among the first `n` entries of `p`.
pub open spec fn occurs(p: Seq<usize>, k: int, n: int) -> bool {
    exists|j: int| 0 <= j < n && p[j] == k
}

/// `p` is the order of a stable ascending sort by `keys`.
pub open spec fn stable_order(keys: Seq<ValueV>, p: Seq<usize>) -> bool {
    &&& is_index_perm(p, keys.len() as int)
    &&& forall|j: int|
        0 <= j < p.len() - 1 ==> #[trigger] key_before(keys, p[j] as int, p[j + 1] as int)
}

/// `after` is `before` arranged by the stable ascending order `p`, or by its
/// reverse for a descending sort.
pub open spec fn arranged(
    keys: Seq<ValueV>,
    p: Seq<usize>,
    before: Seq<MountRecord>,
    after: Seq<MountRecord>,
    order: Order,
) -> bool {
    &&& stable_order(keys, p)
    &&& keys.len() == before.len()
    &&& after.len() == before.len()
    &&& forall|j: int|
        0 <= j < after.len() ==> #[trigger] after[j] == before[p[if order == Order::Asc {
            j
        } else {
            after.len() - 1 - j
        }] as int]
}

/// Stable insertion sort of `mounts` by `keys`, which holds one key per
/// record in input order. Returns the order that it applied.
fn sort_by_keys(keys: &Vec<Value>, mounts: &mut Vec<MountRecord>) -> (p: Ghost<Seq<usize>>)
    requires
        keys@.len() == old(mounts)@.len(),
    ensures
        stable_order(key_views(keys@), p@),
        final(mounts)@.len() == old(mounts)@.len(),
        forall|j: int|
            0 <= j < final(mounts)@.len() ==> #[trigger] final(mounts)@[j] == old(
                mounts,
            )@[p@[j] as int],
{
    let ghost orig = mounts@;
    let ghost kv = key_views(keys@);
    let n = mounts.len();
    let mut ord: Vec<usize> = Vec::new();
    let mut i: usize = 0;
    while i < n
        invariant
            i <= n,
            ord@.len() == i,
            forall|j: int| 0 <= j < i ==> #[trigger] ord@[j] == j,
        decreases n - i,
    {
        ord.push(i);
        i += 1;
    }
    let mut i: usize = 0;
    while i < n
        invariant
            n == orig.len(),
            keys@.len() == n,
            kv == key_views(keys@),
            mounts@.len() == n,
            ord@.len() == n,
            i <= n,
            forall|j: int| 0 <= j < n ==> #[trigger] mounts@[j] == orig[ord@[j] as int],
            forall|j: int| i <= j < n ==> #[trigger] ord@[j] == j,
            forall|j: int| 0 <= j < i ==> #[trigger] ord@[j] < i,
            forall|a: int, b: int| 0 <= a < b < i ==> ord@[a] != ord@[b],
            forall|k: int| 0 <= k < i ==> #[trigger] occurs(ord@, k, i as int),
            forall|j: int|
                0 <= j < i - 1 ==> #[trigger] key_before(kv, ord@[j] as int, ord@[j + 1] as int),
        decreases n - i,
    {
        let ghost m0 = mounts@;
        let ghost o0 = ord@;
        let x = mounts.remove(i);
        let _ = ord.remove(i);
        let ghost o1 = ord@;
        assert(o0[i as int] == i);
        let mut p: usize = i;
        while p > 0 && keys[ord[p - 1]].compare(&keys[i]) > 0
            invariant
                ord@ == o1,
                o1.len() == n - 1,
                p <= i,
                i < n,
                keys@.len() == n,
                kv == key_views(keys@),
                forall|j: int| 0 <= j < i ==> #[trigger] o1[j] < i,
                forall|q: int| p <= q < i ==> value_cmp(#[trigger] kv[o1[q] as int], kv[i as int]) > 0,
            decreases p,
        {
            p -= 1;
        }
        mounts.insert(p, x);
        ord.insert(p, i);
        proof {
            let o2 = ord@;
            assert forall|j: int| 0 <= j < n implies #[trigger] mounts@[j] == orig[o2[j] as int] by {
                if j < p {
                } else if j == p {
                } else if j <= i {
                    assert(o2[j] == o0[j - 1]);
                } else {
                    assert(o2[j] == o0[j]);
                }
            }
            assert forall|j: int| i + 1 <= j < n implies #[trigger] o2[j] == j by {
                assert(o2[j] == o0[j]);
            }
            assert forall|j: int| 0 <= j < i + 1 implies #[trigger] o2[j] < i + 1 by {
                if j < p {
                } else if j > p {
                    assert(o2[j] == o0[j - 1]);
                }
            }
            assert forall|a: int, b: int| 0 <= a < b < i + 1 implies o2[a] != o2[b] by {
                if a < p && b < p {
                } else if a < p && b == p {
                } else if a < p {
                    assert(o2[b] == o0[b - 1]);
                } else if a == p {
                    assert(o2[b] == o0[b - 1]);
                } else {
                    assert(o2[a] == o0[a - 1]);
                    assert(o2[b] == o0[b - 1]);
                }
            }
            assert forall|k: int| 0 <= k < i + 1 implies #[trigger] occurs(o2, k, i + 1) by {
                if k == i {
                    assert(o2[p as int] == k);
                } else {
                    assert(occurs(o0, k, i as int));
                    let j0 = choose|j: int| 0 <= j < i && o0[j] == k;
                    if j0 < p {
                        assert(o2[j0] == k);
                    } else {
                        assert(o2[j0 + 1] == o0[j0]);
                    }
                }
            }
            assert forall|j: int| 0 <= j < i implies #[trigger] key_before(
                kv,
                o2[j] as int,
                o2[j + 1] as int,
            ) by {
                if j + 1 < p {
                    assert(key_before(kv, o0[j] as int, o0[j + 1] as int));
                } else if j + 1 == p {
                    assert(o2[j + 1] == i);
                    assert(o2[j] == o1[j]);
                    assert(o1[j] < i);
                } else if j == p {
                    assert(o2[j] == i);
                    assert(o2[j + 1] == o1[j]);
                    lemma_value_cmp_antisym(kv[o1[j] as int], kv[i as int]);
                } else {
                    let k = j - 1;
                    assert(o2[j] == o0[k]);
                    assert(o2[j + 1] == o0[k + 1]);
                    assert(key_before(kv, o0[k] as int, o0[k + 1] as int));
                }
            }
        }
        i += 1;
    }
    Ghost(ord@)
}

/// Reverses the records in place.
fn reverse_records(mounts: &mut Vec<MountRecord>)
    ensures
        final(mounts)@.len() == old(mounts)@.len(),
        forall|j: int|
            0 <= j < final(mounts)@.len() ==> #[trigger] final(mounts)@[j] == old(
                mounts,
            )@[old(mounts)@.len() - 1 - j],
{
    let ghost s = mounts@;
    let mut out: Vec<MountRecord> = Vec::new();
    while mounts.len() > 0
        invariant
            mounts@ == s.take(mounts@.len() as int),
            mounts@.len() <= s.len(),
            out@.len() + mounts@.len() == s.len(),
            forall|j: int| 0 <= j < out@.len() ==> #[trigger] out@[j] == s[s.len() - 1 - j],
        decreases mounts@.len(),
    {
        match mounts.pop() {
            Some(x) => {
                out.push(x);
                assert(mounts@ =~= s.take(mounts@.len() as int));
            },
            None => {},
        }
    }
    std::mem::swap(mounts, &mut out);
}


/// The keys that a sort with the overlay orders by: the overlay's for its
/// own columns, the records' for the others.
pub open spec fn sort_keys(c: Col, d: LustreData, recs: Seq<MountRecord>) -> Seq<ValueV> {
    if is_extension_col(c) {
        overlay_keys(c, d, recs)
    } else {
        keys_of(c, recs)
    }
}

// ---------------------------------------------------------------- directive

/// Sorting directive: the column and the order (asc or desc).
#[derive(Debug, Clone, Copy, PartialEq, Eq, Structural)]
pub struct Sorting {
    pub col: Col,
    pub order: Order,
}

/// A sort directive that could not be read: the text and why.
#[derive(Debug)]
pub struct ParseSortingError {
    pub raw: String,
    pub reason: String,
}

impl ParseSortingError {
    pub fn new(raw: &str, reason: &str) -> (r: ParseSortingError)
        ensures
            r.raw@ == raw@,
            r.reason@ == reason@,
    {
        ParseSortingError { raw: raw.to_owned(), reason: reason.to_owned() }
    }

    /// The message shown to the user: the text as `{:?}` writes it, and
    /// the reason.
    pub fn message(&self) -> (r: String)
        ensures
            r@ == debug_of(self.raw@) + " can't be parsed as a sort expression because "@
                + self.reason@,
    {
        let quoted = debug_str(self.raw.as_str());
        sort_error_text(quoted.as_str(), self.reason.as_str())
    }
}

/// The message of a sort error, given the quoted text and the reason.
pub fn sort_error_text(quoted: &str, reason: &str) -> (r: String)
    ensures
        r@ == quoted@ + " can't be parsed as a sort expression because "@ + reason@,
{
    String::from_str(quoted).concat(" can't be parsed as a sort expression because ").concat(
        reason,
    )
}

/// The characters that end the column name of a directive.
pub open spec fn is_cut(c: char) -> bool {
    is_space(c) || c == '-'
}

/// Position of the first separator at or after `i`, or the length.
pub open spec fn first_cut(s: Seq<char>, i: int) -> int
    decreases s.len() - i,
{
    if 0 <= i < s.len() && !is_cut(s[i]) {
        first_cut(s, i + 1)
    } else {
        i
    }
}

/// An order word: a non-empty prefix of `asc` or `desc`, in any case.
pub open spec fn order_word(o: Seq<char>) -> Option<Order> {
    if 0 < o.len() <= 3 && eq_ci(o, "asc"@.take(o.len() as int)) {
        Some(Order::Asc)
    } else if 0 < o.len() <= 4 && eq_ci(o, "desc"@.take(o.len() as int)) {
        Some(Order::Desc)
    } else {
        None
    }
}

pub open spec fn order_text(o: Order) -> Seq<char> {
    match o {
        Order::Asc => "asc"@,
        Order::Desc => "desc"@,
    }
}

/// The text of a directive: `name-order`.
pub open spec fn directive_text(d: Sorting) -> Seq<char> {
    col_name(d.col) + "-"@ + order_text(d.order)
}

/// `d` is what the text `s` reads as: its column is named by the text
/// before the first separator, its order by the text after it, or is the
/// column's default order when there is no separator.
pub open spec fn directive_reads(s: Seq<char>, d: Sorting) -> bool {
    let k = first_cut(s, 0);
    &&& eq_ci(s.take(k), col_name(d.col))
    &&& d.order == (if k < s.len() {
        order_word(s.skip(k + 1))->Some_0
    } else {
        col_default_order(d.col)
    })
}

/// The text `s` names no column, or has an order that is not one.
pub open spec fn directive_rejected(s: Seq<char>) -> bool {
    let k = first_cut(s, 0);
    ||| forall|c: Col| !eq_ci(s.take(k), #[trigger] col_name(c))
    ||| (k < s.len() && order_word(s.skip(k + 1)) is None)
}

/// Why a rejected directive is rejected: its column part names no column,
/// or else its order part is no order.
pub open spec fn sorting_reason(s: Seq<char>) -> Seq<char> {
    let k = first_cut(s, 0);
    if forall|c: Col| !eq_ci(s.take(k), #[trigger] col_name(c)) {
        debug_of(s.take(k)) + " is not a column name"@
    } else {
        debug_of(s.skip(k + 1)) + " is not asc or desc"@
    }
}

fn first_cut_exec(s: &str) -> (k: usize)
    ensures
        k == first_cut(s@, 0),
        k <= s@.len(),
{
    let n = s.unicode_len();
    let mut i: usize = 0;
    while i < n && !is_cut_exec(s.get_char(i))
        invariant
            n == s@.len(),
            i <= n,
            first_cut(s@, 0) == first_cut(s@, i as int),
        decreases n - i,
    {
        i += 1;
    }
    i
}

fn is_cut_exec(c: char) -> (r: bool)
    ensures
        r == is_cut(c),
{
    is_space_exec(c) || c == '-'
}

fn parse_order(o: &str) -> (r: Option<Order>)
    ensures
        r == order_word(o@),
{
    let n = o.unicode_len();
    proof {
        reveal_strlit("asc");
        reveal_strlit("desc");
    }
    if 0 < n && n <= 3 && str_eq_ci(o, "asc".substring_char(0, n)) {
        Some(Order::Asc)
    } else if 0 < n && n <= 4 && str_eq_ci(o, "desc".substring_char(0, n)) {
        Some(Order::Desc)
    } else {
        None
    }
}

impl Default for Sorting {
    fn default() -> (r: Sorting)
        ensures
            r.col == Col::Size,
            r.order == col_default_order(Col::Size),
    {
        let col = Col::default_sort_col();
        let order = col.default_sort_order();
        Sorting { col, order }
    }
}

impl std::str::FromStr for Sorting {
    type Err = ParseSortingError;

    fn from_str(s: &str) -> (r: Result<Sorting, ParseSortingError>)
        ensures
            r matches Ok(d) ==> directive_reads(s@, d),
            r is Err <==> directive_rejected(s@),
            r matches Err(e) ==> e.raw@ == s@ && e.reason@ == sorting_reason(s@),
    {
        Sorting::parse(s)
    }
}

impl Sorting {
    pub fn new(col: Col, order: Order) -> (r: Sorting)
        ensures
            r.col == col,
            r.order == order,
    {
        Sorting { col, order }
    }

    /// Reads a directive `column[ order]`, the separator being whitespace or
    /// `-`.
    pub fn parse(s: &str) -> (r: Result<Sorting, ParseSortingError>)
        ensures
            r matches Ok(d) ==> directive_reads(s@, d),
            r is Err <==> directive_rejected(s@),
            r matches Err(e) ==> e.raw@ == s@ && e.reason@ == sorting_reason(s@),
    {
        let n = s.unicode_len();
        let k = first_cut_exec(s);
        let name = s.substring_char(0, k);
        assert(name@ =~= s@.take(k as int));
        let col = match Col::parse(name) {
            Ok(c) => c,
            Err(_) => {
                let reason = debug_str(name).concat(" is not a column name");
                return Err(ParseSortingError::new(s, reason.as_str()));
            },
        };
        if k < n {
            let o = s.substring_char(k + 1, n);
            assert(o@ =~= s@.skip(k + 1));
            match parse_order(o) {
                Some(order) => Ok(Sorting { col, order }),
                None => {
                    let reason = debug_str(o).concat(" is not asc or desc");
                    Err(ParseSortingError::new(s, reason.as_str()))
                },
            }
        } else {
            Ok(Sorting { col, order: col.default_sort_order() })
        }
    }

    /// The directive as text that `parse` reads back: `name-order`.
    pub fn to_directive(&self) -> (r: String)
        ensures
            r@ == directive_text(*self),
    {
        let o = match self.order {
            Order::Asc => "asc",
            Order::Desc => "desc",
        };
        String::from_str(self.col.name()).concat("-").concat(o)
    }

    /// Stable sort of the records by the column, ascending; reversed
    /// afterwards for a descending directive, so that records with equal
    /// keys come in reverse of their input order.
    pub fn sort(self, mounts: &mut Vec<MountRecord>)
        ensures
            exists|p: Seq<usize>|
                arranged(keys_of(self.col, old(mounts)@), p, old(mounts)@, final(mounts)@, self.order),
    {
        let keys = values_of(self.col, mounts);
        assert(key_views(keys@).len() == keys@.len());
        self.sort_by(&keys, mounts);
    }

    /// Like `sort`, but the overlay's columns are ordered by the overlay's
    /// data: records without any come last, equal among themselves.
    pub fn sort_with_lustre(self, mounts: &mut Vec<MountRecord>, lustre_data: &LustreData)
        ensures
            exists|p: Seq<usize>|
                arranged(
                    sort_keys(self.col, *lustre_data, old(mounts)@),
                    p,
                    old(mounts)@,
                    final(mounts)@,
                    self.order,
                ),
    {
        let ghost before = mounts@;
        let ghost ks = sort_keys(self.col, *lustre_data, before);
        if self.col.is_extension() {
            let keys = lustre_data.keys(self.col, mounts);
            assert(key_views(keys@).len() == keys@.len());
            self.sort_by(&keys, mounts);
            let ghost p = choose|p: Seq<usize>|
                arranged(key_views(keys@), p, before, mounts@, self.order);
            assert(arranged(ks, p, before, mounts@, self.order));
        } else {
            self.sort(mounts);
            let ghost p = choose|p: Seq<usize>|
                arranged(keys_of(self.col, before), p, before, mounts@, self.order);
            assert(arranged(ks, p, before, mounts@, self.order));
        }
    }

    fn sort_by(self, keys: &Vec<Value>, mounts: &mut Vec<MountRecord>)
        requires
            keys@.len() == old(mounts)@.len(),
        ensures
            exists|p: Seq<usize>|
                arranged(key_views(keys@), p, old(mounts)@, final(mounts)@, self.order),
    {
        let ghost before = mounts@;
        let p = sort_by_keys(keys, mounts);
        if self.order == Order::Desc {
            reverse_records(mounts);
        }
        assert(arranged(key_views(keys@), p@, before, mounts@, self.order));
    }
}


// ---------------------------------------------------------------- laws

/// Neighbours `j` and `j + 1` of a descending sort: each is the input record
/// that the order names, the first key is at least the second, and with
/// equal keys the first came later in the input.
pub open spec fn desc_neighbours(
    keys: Seq<ValueV>,
    p: Seq<usize>,
    before: Seq<MountRecord>,
    after: Seq<MountRecord>,
    j: int,
) -> bool {
    let a = p[after.len() - 1 - j] as int;
    let b = p[after.len() - 2 - j] as int;
    &&& after[j] == before[a]
    &&& after[j + 1] == before[b]
    &&& value_cmp(keys[a], keys[b]) >= 0
    &&& (value_cmp(keys[a], keys[b]) == 0 ==> a > b)
}

/// In a descending sort, each record's key is at least the next record's,
/// and of two neighbours with equal keys the one that came later in the
/// input comes first: the ties of the ascending sort, reversed.
pub proof fn lemma_descending_reverses_ties(
    keys: Seq<ValueV>,
    p: Seq<usize>,
    before: Seq<MountRecord>,
    after: Seq<MountRecord>,
)
    requires
        arranged(keys, p, before, after, Order::Desc),
    ensures
        forall|j: int|
            0 <= j < after.len() - 1 ==> #[trigger] desc_neighbours(keys, p, before, after, j),
{
    let n = after.len();
    assert forall|j: int| 0 <= j < n - 1 implies #[trigger] desc_neighbours(
        keys,
        p,
        before,
        after,
        j,
    ) by {
        let k = n - 2 - j;
        assert(key_before(keys, p[k] as int, p[k + 1] as int));
        assert(after[j + 1] == before[p[n - 1 - (j + 1)] as int]);
        lemma_value_cmp_antisym(keys[p[k] as int], keys[p[k + 1] as int]);
    }
}

proof fn lemma_increasing_lower(p: Seq<usize>, j: int)
    requires
        0 <= j < p.len(),
        forall|i: int| 0 <= i < p.len() - 1 ==> #[trigger] p[i] < p[i + 1],
    ensures
        p[j] >= j,
    decreases j,
{
    if j > 0 {
        lemma_increasing_lower(p, j - 1);
        assert(p[j - 1] < p[(j - 1) + 1]);
    }
}

proof fn lemma_increasing_upper(p: Seq<usize>, j: int)
    requires
        0 <= j < p.len(),
        forall|i: int| 0 <= i < p.len() ==> #[trigger] p[i] < p.len(),
        forall|i: int| 0 <= i < p.len() - 1 ==> #[trigger] p[i] < p[i + 1],
    ensures
        p[j] <= j,
    decreases p.len() - j,
{
    if j < p.len() - 1 {
        lemma_increasing_upper(p, j + 1);
    }
}

/// Where every key is missing, the stable order keeps the input order.
pub proof fn lemma_all_missing_keeps_order(keys: Seq<ValueV>, p: Seq<usize>)
    requires
        stable_order(keys, p),
        forall|i: int| 0 <= i < keys.len() ==> #[trigger] keys[i] == ValueV::Missing,
    ensures
        forall|j: int| 0 <= j < p.len() ==> #[trigger] p[j] == j,
{
    assert forall|i: int| 0 <= i < p.len() - 1 implies #[trigger] p[i] < p[i + 1] by {
        assert(key_before(keys, p[i] as int, p[i + 1] as int));
    }
    assert forall|j: int| 0 <= j < p.len() implies #[trigger] p[j] == j by {
        lemma_increasing_lower(p, j);
        lemma_increasing_upper(p, j);
    }
}

/// Sorting by an overlay column while the overlay is unavailable ties every
/// record: all of them stay, in their order (reversed for a descending
/// directive).
pub proof fn lemma_unavailable_overlay_ties_all(
    c: Col,
    d: LustreData,
    p: Seq<usize>,
    before: Seq<MountRecord>,
    after: Seq<MountRecord>,
    order: Order,
)
    requires
        !d.is_available,
        is_extension_col(c),
        arranged(sort_keys(c, d, before), p, before, after, order),
    ensures
        after.len() == before.len(),
        forall|j: int|
            0 <= j < after.len() ==> #[trigger] after[j] == before[if order == Order::Asc {
                j
            } else {
                after.len() - 1 - j
            }],
{
    let keys = sort_keys(c, d, before);
    assert forall|i: int| 0 <= i < keys.len() implies #[trigger] keys[i] == ValueV::Missing by {}
    lemma_all_missing_keeps_order(keys, p);
}


proof fn lemma_first_cut_at(s: Seq<char>, i: int, k: int)
    requires
        0 <= i <= k < s.len(),
        forall|j: int| i <= j < k ==> !is_cut(#[trigger] s[j]),
        is_cut(s[k]),
    ensures
        first_cut(s, i) == k,
    decreases k - i,
{
    if i < k {
        lemma_first_cut_at(s, i + 1, k);
    }
}

/// Writing a directive as text and reading it back gives the directive
/// again: the text is accepted, and it reads as no other directive.
pub proof fn lemma_directive_round_trip(d: Sorting, e: Sorting)
    ensures
        !directive_rejected(directive_text(d)),
        directive_reads(directive_text(d), d),
        directive_reads(directive_text(d), e) ==> e == d,
{
    let t = directive_text(d);
    let name = col_name(d.col);
    let k = name.len() as int;
    lemma_col_name_chars(d.col);
    reveal_strlit("-");
    reveal_strlit("asc");
    reveal_strlit("desc");
    assert forall|j: int| 0 <= j < k implies !is_cut(#[trigger] t[j]) by {
        assert(t[j] == name[j]);
        assert(is_name_char(name[j]));
    }
    assert(t[k] == '-');
    lemma_first_cut_at(t, 0, k);
    assert(t.take(k) =~= name);
    assert(t.skip(k + 1) =~= order_text(d.order));
    assert(eq_ci(name, name));
    assert("asc"@.take(3) =~= "asc"@);
    assert("desc"@.take(4) =~= "desc"@);
    assert(order_word(order_text(d.order)) == Some(d.order));
    if directive_reads(t, e) {
        lemma_name_unique(t.take(k), e.col, d.col);
    }
}


/// Every key is well formed.
pub open spec fn keys_wf(keys: Seq<ValueV>) -> bool {
    forall|i: int| 0 <= i < keys.len() ==> value_wf(#[trigger] keys[i])
}

proof fn lemma_key_before_trans(keys: Seq<ValueV>, a: int, b: int, c: int)
    requires
        keys_wf(keys),
        0 <= a < keys.len(),
        0 <= b < keys.len(),
        0 <= c < keys.len(),
        key_before(keys, a, b),
        key_before(keys, b, c),
    ensures
        key_before(keys, a, c),
{
    lemma_value_cmp_trans(keys[a], keys[b], keys[c]);
}

proof fn lemma_key_before_asym(keys: Seq<ValueV>, a: int, b: int)
    requires
        key_before(keys, a, b),
    ensures
        !key_before(keys, b, a),
{
    lemma_value_cmp_antisym(keys[a], keys[b]);
}

proof fn lemma_sorted_pairwise(keys: Seq<ValueV>, p: Seq<usize>, i: int, j: int)
    requires
        keys_wf(keys),
        stable_order(keys, p),
        0 <= i < j < p.len(),
    ensures
        key_before(keys, p[i] as int, p[j] as int),
    decreases j - i,
{
    let k = j - 1;
    assert(key_before(keys, p[k] as int, p[k + 1] as int));
    if i < k {
        lemma_sorted_pairwise(keys, p, i, k);
        lemma_key_before_trans(keys, p[i] as int, p[k] as int, p[j] as int);
    }
}

proof fn lemma_unique_prefix(keys: Seq<ValueV>, p: Seq<usize>, q: Seq<usize>, j: int)
    requires
        keys_wf(keys),
        stable_order(keys, p),
        stable_order(keys, q),
        0 <= j < p.len(),
    ensures
        forall|k: int| 0 <= k <= j ==> p[k] == q[k],
    decreases j,
{
    let n = p.len() as int;
    if j > 0 {
        lemma_unique_prefix(keys, p, q, j - 1);
    }
    assert(occurs(p, q[j] as int, n));
    let m = choose|m: int| 0 <= m < n && p[m] == q[j] as int;
    assert(occurs(q, p[j] as int, n));
    let l = choose|l: int| 0 <= l < n && q[l] == p[j] as int;
    if m < j {
        assert(q[m] == p[m]);
    }
    if l < j {
        assert(p[l] == q[l]);
    }
    if m != j && l != j {
        lemma_sorted_pairwise(keys, p, j, m);
        lemma_sorted_pairwise(keys, q, j, l);
        lemma_key_before_asym(keys, p[j] as int, q[j] as int);
    }
}

/// There is one stable ascending order for given keys.
pub proof fn lemma_stable_order_unique(keys: Seq<ValueV>, p: Seq<usize>, q: Seq<usize>)
    requires
        keys_wf(keys),
        stable_order(keys, p),
        stable_order(keys, q),
    ensures
        p == q,
{
    if p.len() > 0 {
        lemma_unique_prefix(keys, p, q, p.len() - 1);
    }
    assert(p =~= q);
}

/// For any column, sorting descending gives exactly the ascending stable
/// sort reversed, so that records with equal keys keep the reverse of
/// their relative order.
pub proof fn lemma_descending_is_reversed_ascending(
    c: Col,
    before: Seq<MountRecord>,
    p: Seq<usize>,
    asc: Seq<MountRecord>,
    q: Seq<usize>,
    desc: Seq<MountRecord>,
)
    requires
        arranged(keys_of(c, before), p, before, asc, Order::Asc),
        arranged(keys_of(c, before), q, before, desc, Order::Desc),
    ensures
        desc == asc.reverse(),
{
    let keys = keys_of(c, before);
    assert forall|i: int| 0 <= i < keys.len() implies value_wf(#[trigger] keys[i]) by {}
    lemma_stable_order_unique(keys, p, q);
    assert(desc =~= asc.reverse());
}

} // verus!
