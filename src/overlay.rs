use vstd::prelude::*;
use vstd::string::*;
use crate::col::Col;
use crate::record::MountRecord;
use crate::value::{Value, ValueV, key_views};

verus! {

/// Role of a cluster filesystem component.
#[derive(Debug, Clone, Copy, PartialEq, Eq, Structural)]
pub enum LustreComponentType {
    MDT,
    OST,
    Client,
    Unknown,
}

/// Cluster metadata of one mount, keyed by its device id.
#[derive(Debug)]
pub struct LustreInfo {
    pub dev_major: u32,
    pub dev_minor: u32,
    pub uuid: String,
    pub component_type: LustreComponentType,
    pub component_index: Option<u32>,
}

/// The overlay: cluster metadata that is only consulted when its collection
/// succeeded.
#[derive(Debug)]
pub struct LustreData {
    pub is_available: bool,
    pub entries: Vec<LustreInfo>,
}

/// Position in which components sort: MDT, OST, client, unknown.
pub open spec fn component_rank(t: LustreComponentType) -> u64 {
    match t {
        LustreComponentType::MDT => 0,
        LustreComponentType::OST => 1,
        LustreComponentType::Client => 2,
        LustreComponentType::Unknown => 3,
    }
}

/// The first entry, from `i` on, for the device `major:minor`.
pub open spec fn first_entry(entries: Seq<LustreInfo>, major: u32, minor: u32, i: int) -> Option<int>
    decreases entries.len() - i,
{
    if i < 0 || i >= entries.len() {
        None
    } else if entries[i].dev_major == major && entries[i].dev_minor == minor {
        Some(i)
    } else {
        first_entry(entries, major, minor, i + 1)
    }
}

/// The overlay entry of a record; none where the overlay is unavailable.
pub open spec fn overlay_entry(d: LustreData, r: MountRecord) -> Option<int> {
    if d.is_available {
        first_entry(d.entries@, r.dev_major, r.dev_minor, 0)
    } else {
        None
    }
}

/// Sort key of an overlay column. A record without overlay data is missing,
/// so it sorts after every record with data. A component without an index
/// sorts after every indexed one, which the value just above the largest
/// index gives.
pub open spec fn overlay_key(c: Col, d: LustreData, r: MountRecord) -> ValueV {
    match overlay_entry(d, r) {
        None => ValueV::Missing,
        Some(k) => {
            let e = d.entries@[k];
            match c {
                Col::LustreUuid => ValueV::Text(e.uuid@),
                Col::LustreComponent => ValueV::Number(component_rank(e.component_type)),
                _ => match e.component_index {
                    Some(x) => ValueV::Number(x as u64),
                    None => ValueV::Number(4294967296u64),
                },
            }
        },
    }
}

/// The name of a component role.
pub open spec fn component_name(t: LustreComponentType) -> Seq<char> {
    match t {
        LustreComponentType::MDT => "MDT"@,
        LustreComponentType::OST => "OST"@,
        LustreComponentType::Client => "Client"@,
        LustreComponentType::Unknown => "Unknown"@,
    }
}

/// The value of an overlay column for a record, as filters see it: missing
/// without overlay data.
pub open spec fn overlay_value(c: Col, d: LustreData, r: MountRecord) -> ValueV {
    match overlay_entry(d, r) {
        None => ValueV::Missing,
        Some(k) => {
            let e = d.entries@[k];
            match c {
                Col::LustreUuid => ValueV::Text(e.uuid@),
                Col::LustreComponent => ValueV::Text(component_name(e.component_type)),
                _ => match e.component_index {
                    Some(x) => ValueV::Number(x as u64),
                    None => ValueV::Missing,
                },
            }
        },
    }
}

pub open spec fn overlay_keys(c: Col, d: LustreData, recs: Seq<MountRecord>) -> Seq<ValueV> {
    recs.map_values(|r: MountRecord| overlay_key(c, d, r))
}

impl LustreData {
    /// An overlay that holds nothing and is not available.
    pub fn new() -> (r: LustreData)
        ensures
            !r.is_available,
            r.entries@.len() == 0,
    {
        LustreData { is_available: false, entries: Vec::new() }
    }

    /// Index of the entry of a record, if the overlay is available and has one.
    pub fn lookup(&self, r: &MountRecord) -> (k: Option<usize>)
        ensures
            k matches Some(i) ==> overlay_entry(*self, *r) == Some(i as int),
            k is None <==> overlay_entry(*self, *r) is None,
            k matches Some(i) ==> i < self.entries@.len(),
    {
        if !self.is_available {
            return None;
        }
        let mut i: usize = 0;
        while i < self.entries.len()
            invariant
                self.is_available,
                i <= self.entries@.len(),
                first_entry(self.entries@, r.dev_major, r.dev_minor, 0)
                    == first_entry(self.entries@, r.dev_major, r.dev_minor, i as int),
            decreases self.entries@.len() - i,
        {
            let e = &self.entries[i];
            if e.dev_major == r.dev_major && e.dev_minor == r.dev_minor {
                assert(first_entry(self.entries@, r.dev_major, r.dev_minor, i as int) == Some(
                    i as int,
                ));
                return Some(i);
            }
            i += 1;
        }
        None
    }

    /// Whether the record belongs to the cluster filesystem.
    pub fn is_lustre(&self, r: &MountRecord) -> (b: bool)
        ensures
            b == overlay_entry(*self, *r) is Some,
    {
        self.lookup(r).is_some()
    }

    /// The sort key of an overlay column for a record.
    pub fn key(&self, c: Col, r: &MountRecord) -> (v: Value)
        ensures
            v@ == overlay_key(c, *self, *r),
    {
        match self.lookup(r) {
            None => Value::Missing,
            Some(k) => {
                let e = &self.entries[k];
                match c {
                    Col::LustreUuid => Value::Text(e.uuid.clone()),
                    Col::LustreComponent => Value::Number(
                        match e.component_type {
                            LustreComponentType::MDT => 0,
                            LustreComponentType::OST => 1,
                            LustreComponentType::Client => 2,
                            LustreComponentType::Unknown => 3,
                        },
                    ),
                    _ => match e.component_index {
                        Some(x) => Value::Number(x as u64),
                        None => Value::Number(4294967296u64),
                    },
                }
            },
        }
    }

    /// The value of an overlay column for a record, as filters see it.
    pub fn value(&self, c: Col, r: &MountRecord) -> (v: Value)
        ensures
            v@ == overlay_value(c, *self, *r),
    {
        match self.lookup(r) {
            None => Value::Missing,
            Some(k) => {
                let e = &self.entries[k];
                match c {
                    Col::LustreUuid => Value::Text(e.uuid.clone()),
                    Col::LustreComponent => Value::Text(
                        String::from_str(
                            match e.component_type {
                                LustreComponentType::MDT => "MDT",
                                LustreComponentType::OST => "OST",
                                LustreComponentType::Client => "Client",
                                LustreComponentType::Unknown => "Unknown",
                            },
                        ),
                    ),
                    _ => match e.component_index {
                        Some(x) => Value::Number(x as u64),
                        None => Value::Missing,
                    },
                }
            },
        }
    }

    /// The overlay keys of column `c` for every record, in order.
    pub fn keys(&self, c: Col, recs: &Vec<MountRecord>) -> (r: Vec<Value>)
        ensures
            key_views(r@) == overlay_keys(c, *self, recs@),
    {
        let mut r: Vec<Value> = Vec::new();
        let mut i: usize = 0;
        while i < recs.len()
            invariant
                i <= recs@.len(),
                r@.len() == i,
                forall|j: int| 0 <= j < i ==> (#[trigger] r@[j])@ == overlay_key(c, *self, recs@[j]),
            decreases recs@.len() - i,
        {
            let v = self.key(c, &recs[i]);
            r.push(v);
            i += 1;
        }
        assert(key_views(r@) =~= overlay_keys(c, *self, recs@));
        r
    }
}

} // verus!
