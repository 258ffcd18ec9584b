use vstd::prelude::*;
use vstd::string::*;
use crate::col::{Col, UnknownColumn, col_default_order, col_name, lemma_name_unique};
use crate::filter::col_of;
use crate::text::{eq_ci, is_space, is_space_exec, str_eq_ci};
use crate::filter::Filter;
use crate::sorting::Sorting;

verus! {

/// A yes/no setting that may be left to the program.
#[derive(Debug, Clone, Copy, PartialEq, Eq, Structural)]
pub enum TriBool {
    Auto,
    Yes,
    No,
}

/// A setting word: `auto`, `yes` or `true`, `no` or `false`, in any case.
pub open spec fn tri_bool_of(s: Seq<char>) -> Option<TriBool> {
    if eq_ci(s, "auto"@) {
        Some(TriBool::Auto)
    } else if eq_ci(s, "yes"@) || eq_ci(s, "true"@) {
        Some(TriBool::Yes)
    } else if eq_ci(s, "no"@) || eq_ci(s, "false"@) {
        Some(TriBool::No)
    } else {
        None
    }
}

/// A units word: `si`, `binary` or `bytes`, in any case.
pub open spec fn units_of(s: Seq<char>) -> Option<Units> {
    if eq_ci(s, "si"@) {
        Some(Units::Si)
    } else if eq_ci(s, "binary"@) {
        Some(Units::Binary)
    } else if eq_ci(s, "bytes"@) {
        Some(Units::Bytes)
    } else {
        None
    }
}

/// Column names are separated by commas or whitespace.
pub open spec fn is_col_sep(c: char) -> bool {
    c == ',' || is_space(c)
}

/// End of the column name that starts at `i`.
pub open spec fn name_end(s: Seq<char>, i: int) -> int
    decreases s.len() - i,
{
    if 0 <= i < s.len() && !is_col_sep(s[i]) {
        name_end(s, i + 1)
    } else {
        i
    }
}

/// The columns that a list names from position `i` on, or the first name
/// that is no column.
pub open spec fn cols_from(s: Seq<char>, i: int) -> Result<Seq<Col>, Seq<char>>
    decreases s.len() - i,
{
    if i < 0 || i >= s.len() {
        Ok(Seq::empty())
    } else if is_col_sep(s[i]) {
        cols_from(s, i + 1)
    } else {
        let j = name_end(s, i);
        if j <= i || j > s.len() {
            Err(Seq::empty())
        } else {
            match col_of(s.subrange(i, j)) {
                None => Err(s.subrange(i, j)),
                Some(c) => match cols_from(s, j) {
                    Ok(cs) => Ok(seq![c] + cs),
                    Err(w) => Err(w),
                },
            }
        }
    }
}

pub open spec fn prepend_cols(pre: Seq<Col>, r: Result<Seq<Col>, Seq<char>>) -> Result<
    Seq<Col>,
    Seq<char>,
> {
    match r {
        Ok(cs) => Ok(pre + cs),
        Err(w) => Err(w),
    }
}

fn is_col_sep_exec(c: char) -> (r: bool)
    ensures
        r == is_col_sep(c),
{
    c == ',' || is_space_exec(c)
}

impl TriBool {
    pub fn parse(s: &str) -> (r: Option<TriBool>)
        ensures
            r == tri_bool_of(s@),
    {
        if str_eq_ci(s, "auto") {
            Some(TriBool::Auto)
        } else if str_eq_ci(s, "yes") || str_eq_ci(s, "true") {
            Some(TriBool::Yes)
        } else if str_eq_ci(s, "no") || str_eq_ci(s, "false") {
            Some(TriBool::No)
        } else {
            None
        }
    }

    /// The setting, with `default` standing for `Auto`.
    pub fn unwrap_or(self, default: bool) -> (r: bool)
        ensures
            r == match self {
                TriBool::Auto => default,
                TriBool::Yes => true,
                TriBool::No => false,
            },
    {
        match self {
            TriBool::Auto => default,
            TriBool::Yes => true,
            TriBool::No => false,
        }
    }
}

/// How sizes are written: powers of 1000, powers of 1024, or plain bytes.
#[derive(Debug, Clone, Copy, PartialEq, Eq, Structural)]
pub enum Units {
    Si,
    Binary,
    Bytes,
}

impl Units {
    pub fn parse(s: &str) -> (r: Option<Units>)
        ensures
            r == units_of(s@),
    {
        if str_eq_ci(s, "si") {
            Some(Units::Si)
        } else if str_eq_ci(s, "binary") {
            Some(Units::Binary)
        } else if str_eq_ci(s, "bytes") {
            Some(Units::Bytes)
        } else {
            None
        }
    }
}

impl Default for Units {
    fn default() -> (r: Units)
        ensures
            r == Units::Si,
    {
        Units::Si
    }
}

/// The columns of a table, in the order shown.
#[derive(Debug, Clone)]
pub struct Cols {
    pub cols: Vec<Col>,
}

pub open spec fn default_cols() -> Seq<Col> {
    seq![Col::Filesystem, Col::Type, Col::Used, Col::Use, Col::Free, Col::Size, Col::MountPoint]
}

impl Default for Cols {
    fn default() -> (r: Cols)
        ensures
            r.cols@ == default_cols(),
    {
        let cols = vec![
            Col::Filesystem,
            Col::Type,
            Col::Used,
            Col::Use,
            Col::Free,
            Col::Size,
            Col::MountPoint,
        ];
        assert(cols@ =~= default_cols());
        Cols { cols }
    }
}

impl Cols {
    /// Reads a list of column names separated by commas or whitespace.
    pub fn parse(s: &str) -> (r: Result<Cols, UnknownColumn>)
        ensures
            match r {
                Ok(c) => cols_from(s@, 0) == Ok::<Seq<Col>, Seq<char>>(c.cols@),
                Err(e) => cols_from(s@, 0) == Err::<Seq<Col>, Seq<char>>(e.raw@),
            },
    {
        let n = s.unicode_len();
        let mut cols: Vec<Col> = Vec::new();
        let mut i: usize = 0;
        assert(prepend_cols(Seq::empty(), cols_from(s@, 0)) == cols_from(s@, 0)) by {
            if let Ok(cs) = cols_from(s@, 0) {
                assert(Seq::<Col>::empty() + cs =~= cs);
            }
        }
        while i < n
            invariant
                n == s@.len(),
                i <= n,
                cols_from(s@, 0) == prepend_cols(cols@, cols_from(s@, i as int)),
            decreases n - i,
        {
            let c = s.get_char(i);
            if is_col_sep_exec(c) {
                i += 1;
                continue;
            }
            let mut j: usize = i + 1;
            while j < n && !is_col_sep_exec(s.get_char(j))
                invariant
                    n == s@.len(),
                    i < j <= n,
                    name_end(s@, i as int) == name_end(s@, j as int),
                decreases n - j,
            {
                j += 1;
            }
            let w = s.substring_char(i, j);
            match Col::parse(w) {
                Err(e) => {
                    return Err(e);
                },
                Ok(col) => {
                    proof {
                        let c2 = choose|c: Col| eq_ci(w@, #[trigger] col_name(c));
                        lemma_name_unique(w@, col, c2);
                        if let Ok(cs) = cols_from(s@, j as int) {
                            assert(cols@ + (seq![col] + cs) =~= cols@.push(col) + cs);
                        }
                    }
                    cols.push(col);
                },
            }
            i = j;
        }
        assert(cols@ + Seq::<Col>::empty() =~= cols@);
        Ok(Cols { cols })
    }

    pub fn is_empty(&self) -> (r: bool)
        ensures
            r == (self.cols@.len() == 0),
    {
        self.cols.len() == 0
    }

    pub fn cols(&self) -> (r: &Vec<Col>)
        ensures
            r@ == self.cols@,
    {
        &self.cols
    }
}

/// What one run of the report is asked to do.
#[derive(Debug)]
pub struct Args {
    pub help: bool,
    pub version: bool,
    pub all: bool,
    pub color: TriBool,
    pub ascii: bool,
    pub remote_stats: TriBool,
    pub list_cols: bool,
    pub cols: Cols,
    pub filter: Option<Filter>,
    pub sort: Sorting,
    pub units: Units,
    pub json: bool,
    pub csv: bool,
    pub csv_separator: char,
    pub path: Option<String>,
    pub lustre: bool,
    pub lustre_only: bool,
}

/// The settings of a run where nothing was asked.
pub open spec fn default_args(a: Args) -> bool {
    &&& !a.help && !a.version && !a.all && !a.ascii && !a.list_cols
    &&& a.color == TriBool::Auto && a.remote_stats == TriBool::Auto
    &&& a.cols.cols@ == default_cols()
    &&& a.filter is None
    &&& a.sort.col == Col::Size && a.sort.order == col_default_order(Col::Size)
    &&& a.units == Units::Si
    &&& !a.json && !a.csv && a.csv_separator == ','
    &&& a.path is None
    &&& !a.lustre && !a.lustre_only
}

/// Builds the settings of a run step by step.
#[derive(Debug)]
pub struct ArgsBuilder {
    pub args: Args,
}

impl ArgsBuilder {
    pub fn new() -> (r: ArgsBuilder)
        ensures
            default_args(r.args),
    {
        ArgsBuilder {
            args: Args {
                help: false,
                version: false,
                all: false,
                color: TriBool::Auto,
                ascii: false,
                remote_stats: TriBool::Auto,
                list_cols: false,
                cols: Cols::default(),
                filter: None,
                sort: Sorting::default(),
                units: Units::default(),
                json: false,
                csv: false,
                csv_separator: ',',
                path: None,
                lustre: false,
                lustre_only: false,
            },
        }
    }

    pub fn all(self, all: bool) -> (r: ArgsBuilder)
        ensures
            r.args == (Args { all, ..self.args }),
    {
        let mut s = self;
        s.args.all = all;
        s
    }

    pub fn json(self, json: bool) -> (r: ArgsBuilder)
        ensures
            r.args == (Args { json, ..self.args }),
    {
        let mut s = self;
        s.args.json = json;
        s
    }

    pub fn csv(self, csv: bool) -> (r: ArgsBuilder)
        ensures
            r.args == (Args { csv, ..self.args }),
    {
        let mut s = self;
        s.args.csv = csv;
        s
    }

    pub fn filter(self, filter: Filter) -> (r: ArgsBuilder)
        ensures
            r.args == (Args { filter: Some(filter), ..self.args }),
    {
        let mut s = self;
        s.args.filter = Some(filter);
        s
    }

    pub fn sort(self, sort: Sorting) -> (r: ArgsBuilder)
        ensures
            r.args == (Args { sort, ..self.args }),
    {
        let mut s = self;
        s.args.sort = sort;
        s
    }

    pub fn units(self, units: Units) -> (r: ArgsBuilder)
        ensures
            r.args == (Args { units, ..self.args }),
    {
        let mut s = self;
        s.args.units = units;
        s
    }

    pub fn path(self, path: String) -> (r: ArgsBuilder)
        ensures
            r.args == (Args { path: Some(path), ..self.args }),
    {
        let mut s = self;
        s.args.path = Some(path);
        s
    }

    pub fn cols(self, cols: Cols) -> (r: ArgsBuilder)
        ensures
            r.args == (Args { cols, ..self.args }),
    {
        let mut s = self;
        s.args.cols = cols;
        s
    }

    pub fn build(self) -> (r: Args)
        ensures
            r == self.args,
    {
        self.args
    }
}

} // verus!
