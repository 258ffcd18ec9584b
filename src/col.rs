use vstd::prelude::*;
use crate::text::{char_eq_ci, eq_ci, str_eq_ci};

verus! {

/// Direction of a sort.
#[derive(Debug, Clone, Copy, PartialEq, Eq, Structural)]
pub enum Order {
    Asc,
    Desc,
}

/// What kind of value a column holds, which decides the operators and
/// literals that a filter may use with it.
#[derive(Debug, Clone, Copy, PartialEq, Eq, Structural)]
pub enum ValueKind {
    ByteSize,
    Percentage,
    PlainNumber,
    Text,
    OptionalText,
    Boolean,
}

/// Horizontal alignment of a column's content.
#[derive(Debug, Clone, Copy, PartialEq, Eq, Structural)]
pub enum Align {
    Left,
    Center,
    Right,
}

/// Every attribute of a mount that can be shown, filtered on or sorted by.
/// The three last ones come from the cluster filesystem overlay.
#[derive(Debug, Clone, Copy, PartialEq, Eq, Structural)]
pub enum Col {
    Id,
    Dev,
    Filesystem,
    Label,
    Type,
    Disk,
    Remote,
    Used,
    Use,
    UsePercent,
    Free,
    FreePercent,
    Size,
    InodesFree,
    InodesUsed,
    InodesUse,
    InodesUsePercent,
    InodesCount,
    MountPoint,
    Uuid,
    PartUuid,
    LustreUuid,
    LustreComponent,
    LustreIndex,
}

pub open spec fn col_name(c: Col) -> Seq<char> {
    match c {
        Col::Id => "id"@,
        Col::Dev => "dev"@,
        Col::Filesystem => "filesystem"@,
        Col::Label => "label"@,
        Col::Type => "type"@,
        Col::Disk => "disk"@,
        Col::Remote => "remote"@,
        Col::Used => "used"@,
        Col::Use => "use"@,
        Col::UsePercent => "use_percent"@,
        Col::Free => "free"@,
        Col::FreePercent => "free_percent"@,
        Col::Size => "size"@,
        Col::InodesFree => "ifree"@,
        Col::InodesUsed => "iused"@,
        Col::InodesUse => "iuse"@,
        Col::InodesUsePercent => "iuse_percent"@,
        Col::InodesCount => "inodes"@,
        Col::MountPoint => "mount"@,
        Col::Uuid => "uuid"@,
        Col::PartUuid => "part_uuid"@,
        Col::LustreUuid => "lustre_uuid"@,
        Col::LustreComponent => "lustre_component"@,
        Col::LustreIndex => "lustre_index"@,
    }
}

/// The label of a column in a table header.
pub open spec fn col_title(c: Col) -> Seq<char> {
    match c {
        Col::Id => "id"@,
        Col::Dev => "dev"@,
        Col::Filesystem => "filesystem"@,
        Col::Label => "label"@,
        Col::Type => "type"@,
        Col::Disk => "disk"@,
        Col::Remote => "remote"@,
        Col::Used => "used"@,
        Col::Use => "use"@,
        Col::UsePercent => "use%"@,
        Col::Free => "free"@,
        Col::FreePercent => "free%"@,
        Col::Size => "size"@,
        Col::InodesFree => "free inodes"@,
        Col::InodesUsed => "used inodes"@,
        Col::InodesUse => "inodes use"@,
        Col::InodesUsePercent => "inodes use%"@,
        Col::InodesCount => "inodes"@,
        Col::MountPoint => "mount point"@,
        Col::Uuid => "uuid"@,
        Col::PartUuid => "partition uuid"@,
        Col::LustreUuid => "lustre uuid"@,
        Col::LustreComponent => "lustre component"@,
        Col::LustreIndex => "lustre index"@,
    }
}

pub open spec fn col_kind(c: Col) -> ValueKind {
    match c {
        Col::Id => ValueKind::PlainNumber,
        Col::Dev => ValueKind::Text,
        Col::Filesystem => ValueKind::Text,
        Col::Label => ValueKind::OptionalText,
        Col::Type => ValueKind::Text,
        Col::Disk => ValueKind::OptionalText,
        Col::Remote => ValueKind::Boolean,
        Col::Used => ValueKind::ByteSize,
        Col::Use => ValueKind::Percentage,
        Col::UsePercent => ValueKind::Percentage,
        Col::Free => ValueKind::ByteSize,
        Col::FreePercent => ValueKind::Percentage,
        Col::Size => ValueKind::ByteSize,
        Col::InodesFree => ValueKind::PlainNumber,
        Col::InodesUsed => ValueKind::PlainNumber,
        Col::InodesUse => ValueKind::Percentage,
        Col::InodesUsePercent => ValueKind::Percentage,
        Col::InodesCount => ValueKind::PlainNumber,
        Col::MountPoint => ValueKind::Text,
        Col::Uuid => ValueKind::OptionalText,
        Col::PartUuid => ValueKind::OptionalText,
        Col::LustreUuid => ValueKind::OptionalText,
        Col::LustreComponent => ValueKind::OptionalText,
        Col::LustreIndex => ValueKind::PlainNumber,
    }
}

/// Sizes and usage shares sort biggest first by default, everything else
/// smallest first.
pub open spec fn col_default_order(c: Col) -> Order {
    match c {
        Col::Id => Order::Asc,
        Col::Dev => Order::Asc,
        Col::Filesystem => Order::Asc,
        Col::Label => Order::Asc,
        Col::Type => Order::Asc,
        Col::Disk => Order::Asc,
        Col::Remote => Order::Asc,
        Col::Used => Order::Desc,
        Col::Use => Order::Desc,
        Col::UsePercent => Order::Desc,
        Col::Free => Order::Desc,
        Col::FreePercent => Order::Desc,
        Col::Size => Order::Desc,
        Col::InodesFree => Order::Desc,
        Col::InodesUsed => Order::Desc,
        Col::InodesUse => Order::Desc,
        Col::InodesUsePercent => Order::Desc,
        Col::InodesCount => Order::Desc,
        Col::MountPoint => Order::Asc,
        Col::Uuid => Order::Asc,
        Col::PartUuid => Order::Asc,
        Col::LustreUuid => Order::Asc,
        Col::LustreComponent => Order::Asc,
        Col::LustreIndex => Order::Asc,
    }
}

pub open spec fn is_extension_col(c: Col) -> bool {
    c == Col::LustreUuid || c == Col::LustreComponent || c == Col::LustreIndex
}

/// The columns in the order in which they are listed.
pub open spec fn all_cols() -> Seq<Col> {
    seq![
        Col::Id,
        Col::Dev,
        Col::Filesystem,
        Col::Label,
        Col::Type,
        Col::Disk,
        Col::Remote,
        Col::Used,
        Col::Use,
        Col::UsePercent,
        Col::Free,
        Col::FreePercent,
        Col::Size,
        Col::InodesFree,
        Col::InodesUsed,
        Col::InodesUse,
        Col::InodesUsePercent,
        Col::InodesCount,
        Col::MountPoint,
        Col::Uuid,
        Col::PartUuid,
        Col::LustreUuid,
        Col::LustreComponent,
        Col::LustreIndex,
    ]
}

/// A column name was not recognized; `raw` holds the text as given.
#[derive(Debug)]
pub struct UnknownColumn {
    pub raw: String,
}

/// `p` is a non-empty beginning of `name`, ignoring the case of ASCII letters.
pub open spec fn prefix_ci(p: Seq<char>, name: Seq<char>) -> bool {
    0 < p.len() <= name.len() && eq_ci(p, name.take(p.len() as int))
}

/// The columns of `cols`, in order, whose names begin with `raw`.
pub open spec fn suggested(raw: Seq<char>, cols: Seq<Col>) -> Seq<Col>
    decreases cols.len(),
{
    if cols.len() == 0 {
        Seq::empty()
    } else {
        let rest = suggested(raw, cols.drop_last());
        if prefix_ci(raw, col_name(cols.last())) {
            rest.push(cols.last())
        } else {
            rest
        }
    }
}

impl UnknownColumn {
    /// The columns whose names begin with the unknown text, in listing order.
    pub fn suggestions(&self) -> (r: Vec<Col>)
        ensures
            r@ == suggested(self.raw@, all_cols()),
    {
        let all = Col::all();
        let n = self.raw.as_str().unicode_len();
        let mut r: Vec<Col> = Vec::new();
        let mut i: usize = 0;
        while i < all.len()
            invariant
                all@ == all_cols(),
                n == self.raw@.len(),
                i <= all@.len(),
                r@ == suggested(self.raw@, all@.take(i as int)),
            decreases all@.len() - i,
        {
            let c = all[i];
            let name = c.name();
            let m = name.unicode_len();
            let hit = 0 < n && n <= m && str_eq_ci(self.raw.as_str(), name.substring_char(0, n));
            assert(all@.take(i + 1).drop_last() =~= all@.take(i as int));
            if hit {
                r.push(c);
            }
            i += 1;
        }
        assert(all@.take(all@.len() as int) =~= all@);
        r
    }
}

impl Col {
    /// The column that the report is sorted by when nothing else is asked.
    pub fn default_sort_col() -> (r: Col)
        ensures
            r == Col::Size,
    {
        Col::Size
    }

    /// The stable identifier of the column, as written on the command line.
    pub fn name(self) -> (r: &'static str)
        ensures
            r@ == col_name(self),
    {
        match self {
            Col::Id => "id",
            Col::Dev => "dev",
            Col::Filesystem => "filesystem",
            Col::Label => "label",
            Col::Type => "type",
            Col::Disk => "disk",
            Col::Remote => "remote",
            Col::Used => "used",
            Col::Use => "use",
            Col::UsePercent => "use_percent",
            Col::Free => "free",
            Col::FreePercent => "free_percent",
            Col::Size => "size",
            Col::InodesFree => "ifree",
            Col::InodesUsed => "iused",
            Col::InodesUse => "iuse",
            Col::InodesUsePercent => "iuse_percent",
            Col::InodesCount => "inodes",
            Col::MountPoint => "mount",
            Col::Uuid => "uuid",
            Col::PartUuid => "part_uuid",
            Col::LustreUuid => "lustre_uuid",
            Col::LustreComponent => "lustre_component",
            Col::LustreIndex => "lustre_index",
        }
    }

    /// The label shown in a table header.
    pub fn title(self) -> (r: &'static str)
        ensures
            r@ == col_title(self),
    {
        match self {
            Col::Id => "id",
            Col::Dev => "dev",
            Col::Filesystem => "filesystem",
            Col::Label => "label",
            Col::Type => "type",
            Col::Disk => "disk",
            Col::Remote => "remote",
            Col::Used => "used",
            Col::Use => "use",
            Col::UsePercent => "use%",
            Col::Free => "free",
            Col::FreePercent => "free%",
            Col::Size => "size",
            Col::InodesFree => "free inodes",
            Col::InodesUsed => "used inodes",
            Col::InodesUse => "inodes use",
            Col::InodesUsePercent => "inodes use%",
            Col::InodesCount => "inodes",
            Col::MountPoint => "mount point",
            Col::Uuid => "uuid",
            Col::PartUuid => "partition uuid",
            Col::LustreUuid => "lustre uuid",
            Col::LustreComponent => "lustre component",
            Col::LustreIndex => "lustre index",
        }
    }

    /// Text columns are left aligned, numbers right aligned, flags centered.
    pub fn content_align(self) -> (r: Align)
        ensures
            r == (match col_kind(self) {
                ValueKind::Text | ValueKind::OptionalText => Align::Left,
                ValueKind::Boolean => Align::Center,
                _ => Align::Right,
            }),
    {
        match self.kind() {
            ValueKind::Text | ValueKind::OptionalText => Align::Left,
            ValueKind::Boolean => Align::Center,
            _ => Align::Right,
        }
    }

    pub fn kind(self) -> (r: ValueKind)
        ensures
            r == col_kind(self),
    {
        match self {
            Col::Id => ValueKind::PlainNumber,
            Col::Dev => ValueKind::Text,
            Col::Filesystem => ValueKind::Text,
            Col::Label => ValueKind::OptionalText,
            Col::Type => ValueKind::Text,
            Col::Disk => ValueKind::OptionalText,
            Col::Remote => ValueKind::Boolean,
            Col::Used => ValueKind::ByteSize,
            Col::Use => ValueKind::Percentage,
            Col::UsePercent => ValueKind::Percentage,
            Col::Free => ValueKind::ByteSize,
            Col::FreePercent => ValueKind::Percentage,
            Col::Size => ValueKind::ByteSize,
            Col::InodesFree => ValueKind::PlainNumber,
            Col::InodesUsed => ValueKind::PlainNumber,
            Col::InodesUse => ValueKind::Percentage,
            Col::InodesUsePercent => ValueKind::Percentage,
            Col::InodesCount => ValueKind::PlainNumber,
            Col::MountPoint => ValueKind::Text,
            Col::Uuid => ValueKind::OptionalText,
            Col::PartUuid => ValueKind::OptionalText,
            Col::LustreUuid => ValueKind::OptionalText,
            Col::LustreComponent => ValueKind::OptionalText,
            Col::LustreIndex => ValueKind::PlainNumber,
        }
    }

    pub fn default_sort_order(self) -> (r: Order)
        ensures
            r == col_default_order(self),
    {
        match self {
            Col::Id => Order::Asc,
            Col::Dev => Order::Asc,
            Col::Filesystem => Order::Asc,
            Col::Label => Order::Asc,
            Col::Type => Order::Asc,
            Col::Disk => Order::Asc,
            Col::Remote => Order::Asc,
            Col::Used => Order::Desc,
            Col::Use => Order::Desc,
            Col::UsePercent => Order::Desc,
            Col::Free => Order::Desc,
            Col::FreePercent => Order::Desc,
            Col::Size => Order::Desc,
            Col::InodesFree => Order::Desc,
            Col::InodesUsed => Order::Desc,
            Col::InodesUse => Order::Desc,
            Col::InodesUsePercent => Order::Desc,
            Col::InodesCount => Order::Desc,
            Col::MountPoint => Order::Asc,
            Col::Uuid => Order::Asc,
            Col::PartUuid => Order::Asc,
            Col::LustreUuid => Order::Asc,
            Col::LustreComponent => Order::Asc,
            Col::LustreIndex => Order::Asc,
        }
    }

    pub fn is_extension(self) -> (r: bool)
        ensures
            r == is_extension_col(self),
    {
        matches!(self, Col::LustreUuid | Col::LustreComponent | Col::LustreIndex)
    }

    /// All columns, in listing order.
    pub fn all() -> (r: Vec<Col>)
        ensures
            r@ == all_cols(),
    {
        let r = vec![
            Col::Id,
            Col::Dev,
            Col::Filesystem,
            Col::Label,
            Col::Type,
            Col::Disk,
            Col::Remote,
            Col::Used,
            Col::Use,
            Col::UsePercent,
            Col::Free,
            Col::FreePercent,
            Col::Size,
            Col::InodesFree,
            Col::InodesUsed,
            Col::InodesUse,
            Col::InodesUsePercent,
            Col::InodesCount,
            Col::MountPoint,
            Col::Uuid,
            Col::PartUuid,
            Col::LustreUuid,
            Col::LustreComponent,
            Col::LustreIndex,
        ];
        assert(r@ =~= all_cols());
        r
    }

    /// Resolves a column by its name, ignoring the case of ASCII letters and
    /// accepting nothing but an exact name.
    pub fn parse(s: &str) -> (r: Result<Col, UnknownColumn>)
        ensures
            r matches Ok(c) ==> eq_ci(s@, col_name(c)),
            r is Err <==> forall|c: Col| !eq_ci(s@, #[trigger] col_name(c)),
            r matches Err(e) ==> e.raw@ == s@,
    {
        let all = Col::all();
        let mut i: usize = 0;
        while i < all.len()
            invariant
                all@ == all_cols(),
                i <= all@.len(),
                forall|j: int| 0 <= j < i ==> !eq_ci(s@, #[trigger] col_name(all@[j])),
            decreases all@.len() - i,
        {
            let c = all[i];
            if str_eq_ci(s, c.name()) {
                return Ok(c);
            }
            i += 1;
        }
        assert forall|c: Col| !eq_ci(s@, #[trigger] col_name(c)) by {
            let k: int = match c {
                Col::Id => 0,
                Col::Dev => 1,
                Col::Filesystem => 2,
                Col::Label => 3,
                Col::Type => 4,
                Col::Disk => 5,
                Col::Remote => 6,
                Col::Used => 7,
                Col::Use => 8,
                Col::UsePercent => 9,
                Col::Free => 10,
                Col::FreePercent => 11,
                Col::Size => 12,
                Col::InodesFree => 13,
                Col::InodesUsed => 14,
                Col::InodesUse => 15,
                Col::InodesUsePercent => 16,
                Col::InodesCount => 17,
                Col::MountPoint => 18,
                Col::Uuid => 19,
                Col::PartUuid => 20,
                Col::LustreUuid => 21,
                Col::LustreComponent => 22,
                Col::LustreIndex => 23,
            };
            assert(all@[k] == c);
        }
        Err(UnknownColumn { raw: s.to_owned() })
    }
}


/// A column name holds lower-case letters and `_` only.
pub open spec fn is_name_char(c: char) -> bool {
    ('a' <= c && c <= 'z') || c == '_'
}

pub proof fn lemma_col_name_chars(c: Col)
    ensures
        col_name(c).len() > 0,
        forall|i: int| 0 <= i < col_name(c).len() ==> is_name_char(#[trigger] col_name(c)[i]),
{
    match c {
        Col::Id => {
            reveal_strlit("id");
        },
        Col::Dev => {
            reveal_strlit("dev");
        },
        Col::Filesystem => {
            reveal_strlit("filesystem");
        },
        Col::Label => {
            reveal_strlit("label");
        },
        Col::Type => {
            reveal_strlit("type");
        },
        Col::Disk => {
            reveal_strlit("disk");
        },
        Col::Remote => {
            reveal_strlit("remote");
        },
        Col::Used => {
            reveal_strlit("used");
        },
        Col::Use => {
            reveal_strlit("use");
        },
        Col::UsePercent => {
            reveal_strlit("use_percent");
        },
        Col::Free => {
            reveal_strlit("free");
        },
        Col::FreePercent => {
            reveal_strlit("free_percent");
        },
        Col::Size => {
            reveal_strlit("size");
        },
        Col::InodesFree => {
            reveal_strlit("ifree");
        },
        Col::InodesUsed => {
            reveal_strlit("iused");
        },
        Col::InodesUse => {
            reveal_strlit("iuse");
        },
        Col::InodesUsePercent => {
            reveal_strlit("iuse_percent");
        },
        Col::InodesCount => {
            reveal_strlit("inodes");
        },
        Col::MountPoint => {
            reveal_strlit("mount");
        },
        Col::Uuid => {
            reveal_strlit("uuid");
        },
        Col::PartUuid => {
            reveal_strlit("part_uuid");
        },
        Col::LustreUuid => {
            reveal_strlit("lustre_uuid");
        },
        Col::LustreComponent => {
            reveal_strlit("lustre_component");
        },
        Col::LustreIndex => {
            reveal_strlit("lustre_index");
        },
    }
}

/// Distinct columns have distinct names.
pub proof fn lemma_col_name_injective(c1: Col, c2: Col)
    requires
        col_name(c1) == col_name(c2),
    ensures
        c1 == c2,
{
    reveal_strlit("id");
    reveal_strlit("dev");
    reveal_strlit("filesystem");
    reveal_strlit("label");
    reveal_strlit("type");
    reveal_strlit("disk");
    reveal_strlit("remote");
    reveal_strlit("used");
    reveal_strlit("use");
    reveal_strlit("use_percent");
    reveal_strlit("free");
    reveal_strlit("free_percent");
    reveal_strlit("size");
    reveal_strlit("ifree");
    reveal_strlit("iused");
    reveal_strlit("iuse");
    reveal_strlit("iuse_percent");
    reveal_strlit("inodes");
    reveal_strlit("mount");
    reveal_strlit("uuid");
    reveal_strlit("part_uuid");
    reveal_strlit("lustre_uuid");
    reveal_strlit("lustre_component");
    reveal_strlit("lustre_index");
    let a = col_name(c1);
    let b = col_name(c2);
    assert(a.len() == b.len());
    // Two names of one length differ at one of these positions.
    assert(a.len() > 0 ==> a[0] == b[0]);
    assert(a.len() > 1 ==> a[1] == b[1]);
    assert(a.len() > 2 ==> a[2] == b[2]);
    assert(a.len() > 3 ==> a[3] == b[3]);
    assert(a.len() > 4 ==> a[4] == b[4]);
    assert(a.len() > 7 ==> a[7] == b[7]);
}

/// A text matches at most one column name.
pub proof fn lemma_name_unique(s: Seq<char>, c1: Col, c2: Col)
    requires
        eq_ci(s, col_name(c1)),
        eq_ci(s, col_name(c2)),
    ensures
        c1 == c2,
{
    lemma_col_name_chars(c1);
    lemma_col_name_chars(c2);
    let a = col_name(c1);
    let b = col_name(c2);
    assert forall|i: int| 0 <= i < a.len() implies a[i] == b[i] by {
        assert(char_eq_ci(s[i], a[i]));
        assert(char_eq_ci(s[i], b[i]));
        assert(is_name_char(a[i]));
        assert(is_name_char(b[i]));
        if a[i] != b[i] {
            assert((a[i] as u32) != (b[i] as u32));
        }
    }
    assert(a =~= b);
    lemma_col_name_injective(c1, c2);
}

} // verus!
