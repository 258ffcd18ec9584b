use vstd::prelude::*;
use crate::args::Args;
use crate::filter::{Filter, kept};
use crate::overlay::{LustreData, overlay_entry};
use crate::record::MountRecord;
use crate::sorting::{arranged, sort_keys};

verus! {

/// A mount that the report shows without `--all`: a remote one, or one
/// with a capacity.
pub open spec fn is_normal(r: MountRecord) -> bool {
    r.remote || (r.stats matches Some(s) && s.size > 0)
}

pub fn is_normal_exec(r: &MountRecord) -> (b: bool)
    ensures
        b == is_normal(*r),
{
    r.remote || match r.stats {
        Some(s) => s.size > 0,
        None => false,
    }
}

/// Whether a record stays before sorting: it is normal unless all are
/// asked for, it belongs to the cluster filesystem if only those are asked
/// for, and it is on the device of the given path if there is one.
pub open spec fn retained(a: Args, dev: Option<(u32, u32)>, d: LustreData, r: MountRecord) -> bool {
    &&& a.all || is_normal(r)
    &&& !a.lustre_only || overlay_entry(d, r) is Some
    &&& dev matches Some((ma, mi)) ==> r.dev_major == ma && r.dev_minor == mi
}

/// The records that stay, in their order.
pub open spec fn retained_seq(
    a: Args,
    dev: Option<(u32, u32)>,
    d: LustreData,
    recs: Seq<MountRecord>,
) -> Seq<MountRecord>
    decreases recs.len(),
{
    if recs.len() == 0 {
        Seq::empty()
    } else {
        let rest = retained_seq(a, dev, d, recs.drop_last());
        if retained(a, dev, d, recs.last()) {
            rest.push(recs.last())
        } else {
            rest
        }
    }
}

/// What an optional filter keeps; without one, everything.
pub open spec fn kept_opt(f: Option<Filter>, d: LustreData, recs: Seq<MountRecord>) -> Seq<
    MountRecord,
> {
    match f {
        None => recs,
        Some(f) => kept(f, d, recs),
    }
}

/// `out` is what the report shows of `recs`: the retained records arranged
/// by the order `p` into `sorted`, then filtered.
pub open spec fn reported(
    a: Args,
    dev: Option<(u32, u32)>,
    d: LustreData,
    recs: Seq<MountRecord>,
    p: Seq<usize>,
    sorted: Seq<MountRecord>,
    out: Seq<MountRecord>,
) -> bool {
    let base = retained_seq(a, dev, d, recs);
    &&& arranged(sort_keys(a.sort.col, d, base), p, base, sorted, a.sort.order)
    &&& out == kept_opt(a.filter, d, sorted)
}

fn retain_records(
    args: &Args,
    dev: Option<(u32, u32)>,
    lustre: &LustreData,
    mounts: Vec<MountRecord>,
) -> (r: Vec<MountRecord>)
    ensures
        r@ == retained_seq(*args, dev, *lustre, mounts@),
{
    let ghost orig = mounts@;
    let mut mounts = mounts;
    let mut out: Vec<MountRecord> = Vec::new();
    let ghost mut i: int = 0;
    while mounts.len() > 0
        invariant
            0 <= i <= orig.len(),
            mounts@ == orig.skip(i),
            out@ == retained_seq(*args, dev, *lustre, orig.take(i)),
        decreases mounts@.len(),
    {
        let x = mounts.remove(0);
        proof {
            assert(orig.take(i + 1).drop_last() =~= orig.take(i));
            assert(orig.take(i + 1).last() == x);
        }
        let on_dev = match dev {
            Some((ma, mi)) => x.dev_major == ma && x.dev_minor == mi,
            None => true,
        };
        if (args.all || is_normal_exec(&x)) && (!args.lustre_only || lustre.is_lustre(&x))
            && on_dev {
            out.push(x);
        }
        proof {
            i = i + 1;
            assert(mounts@ =~= orig.skip(i));
        }
    }
    assert(orig.take(i) =~= orig);
    out
}

/// The records that stay (see `retained`), sorted by the directive. `dev`
/// is the device of the path asked about, if any.
pub fn get_mounts(
    args: &Args,
    dev: Option<(u32, u32)>,
    lustre: &LustreData,
    mounts: Vec<MountRecord>,
) -> (r: Vec<MountRecord>)
    ensures
        exists|p: Seq<usize>|
            #[trigger] arranged(
                sort_keys(args.sort.col, *lustre, retained_seq(*args, dev, *lustre, mounts@)),
                p,
                retained_seq(*args, dev, *lustre, mounts@),
                r@,
                args.sort.order,
            ),
{
    let mut recs = retain_records(args, dev, lustre, mounts);
    args.sort.sort_with_lustre(&mut recs, lustre);
    recs
}

/// The records to report: those of `get_mounts`, then those that the
/// filter keeps.
pub fn get_filtered_mounts(
    args: &Args,
    dev: Option<(u32, u32)>,
    lustre: &LustreData,
    mounts: Vec<MountRecord>,
) -> (r: Vec<MountRecord>)
    ensures
        exists|sorted: Seq<MountRecord>, p: Seq<usize>|
            #[trigger] reported(*args, dev, *lustre, mounts@, p, sorted, r@),
{
    let ghost base = retained_seq(*args, dev, *lustre, mounts@);
    let recs = get_mounts(args, dev, lustre, mounts);
    let ghost sorted = recs@;
    let ghost p = choose|p: Seq<usize>|
        arranged(sort_keys(args.sort.col, *lustre, base), p, base, sorted, args.sort.order);
    let r = match &args.filter {
        None => recs,
        Some(f) => f.filter(recs, lustre),
    };
    assert(reported(*args, dev, *lustre, mounts@, p, sorted, r@));
    r
}

} // verus!
