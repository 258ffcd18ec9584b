use vstd::prelude::*;
use vstd::string::*;
use crate::col::Col;
use crate::value::{Value, ValueV, key_views};

verus! {

/// Capacity of a filesystem, in bytes.
#[derive(Debug, Clone, Copy, PartialEq, Eq, Structural)]
pub struct Stats {
    pub size: u64,
    pub used: u64,
    pub available: u64,
}

/// Inode counts of a filesystem.
#[derive(Debug, Clone, Copy, PartialEq, Eq, Structural)]
pub struct Inodes {
    pub files: u64,
    pub used: u64,
    pub free: u64,
}

/// One mounted filesystem as the mount reader reports it.
#[derive(Debug)]
pub struct MountRecord {
    pub id: Option<u64>,
    pub dev_major: u32,
    pub dev_minor: u32,
    pub fs: String,
    pub fs_type: String,
    pub mount_point: String,
    pub label: Option<String>,
    pub disk: Option<String>,
    pub uuid: Option<String>,
    pub part_uuid: Option<String>,
    pub remote: bool,
    pub stats: Option<Stats>,
    pub inodes: Option<Inodes>,
}

/// The share of a volume that is not available to users: what is neither
/// free nor reserved, over the size; nothing of an empty volume.
pub open spec fn use_share(s: Stats) -> ValueV {
    if s.size == 0 {
        ValueV::Percent(0, 1)
    } else if s.available <= s.size {
        ValueV::Percent((s.size - s.available) as u64, s.size)
    } else {
        ValueV::Percent(0, s.size)
    }
}

/// The share of a volume that is available to users: all of an empty one.
pub open spec fn free_share(s: Stats) -> ValueV {
    if s.size == 0 {
        ValueV::Percent(1, 1)
    } else if s.available <= s.size {
        ValueV::Percent(s.available, s.size)
    } else {
        ValueV::Percent(s.size, s.size)
    }
}

pub open spec fn optional_text(t: Option<String>) -> ValueV {
    match t {
        Some(l) => ValueV::Text(l@),
        None => ValueV::Missing,
    }
}

/// The device of a record as `major:minor`.
pub open spec fn dev_text(r: MountRecord) -> Seq<char> {
    decimal_text(r.dev_major as nat) + ":"@ + decimal_text(r.dev_minor as nat)
}

/// The value of a column for a record. Statistics that the record lacks,
/// a share of no inodes, and the overlay's columns are missing.
pub open spec fn extract(c: Col, r: MountRecord) -> ValueV {
    match c {
        Col::Id => match r.id {
            Some(i) => ValueV::Number(i),
            None => ValueV::Missing,
        },
        Col::Dev => ValueV::Text(dev_text(r)),
        Col::Filesystem => ValueV::Text(r.fs@),
        Col::Label => optional_text(r.label),
        Col::Type => ValueV::Text(r.fs_type@),
        Col::Disk => optional_text(r.disk),
        Col::Uuid => optional_text(r.uuid),
        Col::PartUuid => optional_text(r.part_uuid),
        Col::Remote => ValueV::Bool(r.remote),
        Col::Used => match r.stats {
            Some(s) => ValueV::Bytes(s.used),
            None => ValueV::Missing,
        },
        Col::Use | Col::UsePercent => match r.stats {
            Some(s) => use_share(s),
            None => ValueV::Missing,
        },
        Col::FreePercent => match r.stats {
            Some(s) => free_share(s),
            None => ValueV::Missing,
        },
        Col::Free => match r.stats {
            Some(s) => ValueV::Bytes(s.available),
            None => ValueV::Missing,
        },
        Col::Size => match r.stats {
            Some(s) => ValueV::Bytes(s.size),
            None => ValueV::Missing,
        },
        Col::InodesFree => match r.inodes {
            Some(n) => ValueV::Number(n.free),
            None => ValueV::Missing,
        },
        Col::InodesUsed => match r.inodes {
            Some(n) => ValueV::Number(n.used),
            None => ValueV::Missing,
        },
        Col::InodesUse | Col::InodesUsePercent => match r.inodes {
            Some(n) => if n.files > 0 {
                ValueV::Percent(n.used, n.files)
            } else {
                ValueV::Missing
            },
            None => ValueV::Missing,
        },
        Col::InodesCount => match r.inodes {
            Some(n) => ValueV::Number(n.files),
            None => ValueV::Missing,
        },
        Col::MountPoint => ValueV::Text(r.mount_point@),
        Col::LustreUuid | Col::LustreComponent | Col::LustreIndex => ValueV::Missing,
    }
}

/// The values of a column over a sequence of records.
pub open spec fn keys_of(c: Col, recs: Seq<MountRecord>) -> Seq<ValueV> {
    recs.map_values(|r: MountRecord| extract(c, r))
}

fn optional_value(t: &Option<String>) -> (v: Value)
    ensures
        v@ == optional_text(*t),
{
    match t {
        Some(l) => Value::Text(l.clone()),
        None => Value::Missing,
    }
}

impl MountRecord {
    /// The value of column `c` for this record.
    pub fn value(&self, c: Col) -> (r: Value)
        ensures
            r@ == extract(c, *self),
    {
        match c {
            Col::Id => match self.id {
                Some(i) => Value::Number(i),
                None => Value::Missing,
            },
            Col::Dev => Value::Text(self.dev_name()),
            Col::Filesystem => Value::Text(self.fs.clone()),
            Col::Label => optional_value(&self.label),
            Col::Type => Value::Text(self.fs_type.clone()),
            Col::Disk => optional_value(&self.disk),
            Col::Uuid => optional_value(&self.uuid),
            Col::PartUuid => optional_value(&self.part_uuid),
            Col::Remote => Value::Bool(self.remote),
            Col::Used => match self.stats {
                Some(s) => Value::Bytes(s.used),
                None => Value::Missing,
            },
            Col::Use | Col::UsePercent => match self.stats {
                Some(s) => if s.size == 0 {
                    Value::Percent(0, 1)
                } else if s.available <= s.size {
                    Value::Percent(s.size - s.available, s.size)
                } else {
                    Value::Percent(0, s.size)
                },
                None => Value::Missing,
            },
            Col::FreePercent => match self.stats {
                Some(s) => if s.size == 0 {
                    Value::Percent(1, 1)
                } else if s.available <= s.size {
                    Value::Percent(s.available, s.size)
                } else {
                    Value::Percent(s.size, s.size)
                },
                None => Value::Missing,
            },
            Col::Free => match self.stats {
                Some(s) => Value::Bytes(s.available),
                None => Value::Missing,
            },
            Col::Size => match self.stats {
                Some(s) => Value::Bytes(s.size),
                None => Value::Missing,
            },
            Col::InodesFree => match self.inodes {
                Some(n) => Value::Number(n.free),
                None => Value::Missing,
            },
            Col::InodesUsed => match self.inodes {
                Some(n) => Value::Number(n.used),
                None => Value::Missing,
            },
            Col::InodesUse | Col::InodesUsePercent => match self.inodes {
                Some(n) => if n.files > 0 {
                    Value::Percent(n.used, n.files)
                } else {
                    Value::Missing
                },
                None => Value::Missing,
            },
            Col::InodesCount => match self.inodes {
                Some(n) => Value::Number(n.files),
                None => Value::Missing,
            },
            Col::MountPoint => Value::Text(self.mount_point.clone()),
            Col::LustreUuid | Col::LustreComponent | Col::LustreIndex => Value::Missing,
        }
    }
}

/// The values of column `c` for every record, in order.
pub fn values_of(c: Col, recs: &Vec<MountRecord>) -> (r: Vec<Value>)
    ensures
        key_views(r@) == keys_of(c, recs@),
{
    let mut r: Vec<Value> = Vec::new();
    let mut i: usize = 0;
    while i < recs.len()
        invariant
            i <= recs@.len(),
            r@.len() == i,
            forall|j: int| 0 <= j < i ==> (#[trigger] r@[j])@ == extract(c, recs@[j]),
        decreases recs@.len() - i,
    {
        let v = recs[i].value(c);
        r.push(v);
        i += 1;
    }
    assert(key_views(r@) =~= keys_of(c, recs@));
    r
}


/// The text of one decimal digit.
pub open spec fn digit_text(d: int) -> Seq<char> {
    if d == 0 {
        "0"@
    } else if d == 1 {
        "1"@
    } else if d == 2 {
        "2"@
    } else if d == 3 {
        "3"@
    } else if d == 4 {
        "4"@
    } else if d == 5 {
        "5"@
    } else if d == 6 {
        "6"@
    } else if d == 7 {
        "7"@
    } else if d == 8 {
        "8"@
    } else {
        "9"@
    }
}

/// The decimal writing of a number, without leading zeros.
pub open spec fn decimal_text(n: nat) -> Seq<char>
    decreases n,
{
    if n < 10 {
        digit_text(n as int)
    } else {
        decimal_text(n / 10) + digit_text((n % 10) as int)
    }
}

fn digit_str(d: u32) -> (r: &'static str)
    requires
        d < 10,
    ensures
        r@ == digit_text(d as int),
{
    if d == 0 {
        "0"
    } else if d == 1 {
        "1"
    } else if d == 2 {
        "2"
    } else if d == 3 {
        "3"
    } else if d == 4 {
        "4"
    } else if d == 5 {
        "5"
    } else if d == 6 {
        "6"
    } else if d == 7 {
        "7"
    } else if d == 8 {
        "8"
    } else {
        "9"
    }
}

/// Writes a number in decimal.
pub fn decimal(n: u32) -> (r: String)
    ensures
        r@ == decimal_text(n as nat),
    decreases n,
{
    if n < 10 {
        String::from_str(digit_str(n))
    } else {
        decimal(n / 10).concat(digit_str(n % 10))
    }
}

/// The name under which a mount is shown: its filesystem, or its device
/// as `major:minor` where the filesystem has no name.
pub open spec fn display_name_of(r: MountRecord) -> Seq<char> {
    if r.fs@.len() == 0 {
        dev_text(r)
    } else {
        r.fs@
    }
}

impl MountRecord {
    /// The device as `major:minor`.
    pub fn dev_name(&self) -> (r: String)
        ensures
            r@ == dev_text(*self),
    {
        decimal(self.dev_major).concat(":").concat(decimal(self.dev_minor).as_str())
    }

    pub fn display_name(&self) -> (r: String)
        ensures
            r@ == display_name_of(*self),
    {
        if self.fs.as_str().unicode_len() == 0 {
            self.dev_name()
        } else {
            self.fs.clone()
        }
    }
}

} // verus!
