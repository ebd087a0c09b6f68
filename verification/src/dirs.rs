//! Which entries of a sysfs or procfs directory a collector reads, and in
//! which order.
use vstd::prelude::*;
use crate::num::{all_dec, is_dec_digit};
use crate::order::{is_sorted, sort_names, sort_names_sorted_permutation, sort_spec};
use crate::report::str_views;
use crate::storage::{is_partition, is_partition_spec, is_virtual_disk, is_virtual_disk_spec};
use crate::text::{ends_with, ends_with_str, starts_with, starts_with_str, to_chars};

verus! {

/// A kind of directory entry that a collector looks for.
pub enum EntryKind {
    /// A block device of `/sys/block` that is not virtual.
    Disk,
    /// A partition in the directory of the named disk.
    PartitionOf(String),
    /// A `hwmonN` entry of `/sys/class/hwmon`.
    Hwmon,
    /// A `thermal_zoneN` entry of `/sys/class/thermal`.
    ThermalZone,
    /// A `fanN_input` file of a hwmon device.
    FanInput,
    /// A `tempN_input` file of a hwmon device.
    TempInput,
    /// A process directory of `/proc`: a non-empty name of ASCII digits.
    ProcessDir,
}

/// Whether an entry named `name` is of the kind.
pub open spec fn accepts_spec(kind: EntryKind, name: Seq<char>) -> bool {
    match kind {
        EntryKind::Disk => !is_virtual_disk_spec(name),
        EntryKind::PartitionOf(disk) => is_partition_spec(name, disk@),
        EntryKind::Hwmon => starts_with(name, "hwmon"@),
        EntryKind::ThermalZone => starts_with(name, "thermal_zone"@),
        EntryKind::FanInput => starts_with(name, "fan"@) && ends_with(name, "_input"@),
        EntryKind::TempInput => starts_with(name, "temp"@) && ends_with(name, "_input"@),
        EntryKind::ProcessDir => name.len() > 0 && all_dec(name),
    }
}

/// The names of `s` that are of the kind, in order.
pub open spec fn filter_spec(kind: EntryKind, s: Seq<Seq<char>>) -> Seq<Seq<char>>
    decreases s.len(),
{
    if s.len() == 0 {
        Seq::empty()
    } else if accepts_spec(kind, s.last()) {
        filter_spec(kind, s.drop_last()).push(s.last())
    } else {
        filter_spec(kind, s.drop_last())
    }
}

fn all_ascii_digits(v: &Vec<char>) -> (b: bool)
    ensures
        b == all_dec(v@),
{
    let mut i: usize = 0;
    while i < v.len()
        invariant
            i <= v.len(),
            forall|k: int| 0 <= k < i ==> is_dec_digit(#[trigger] v@[k]),
        decreases v.len() - i,
    {
        let u = v[i] as u32;
        if u < 48 || u > 57 {
            return false;
        }
        i = i + 1;
    }
    true
}

/// Whether an entry named `name` is of the kind.
pub fn accepts(kind: &EntryKind, name: &str) -> (b: bool)
    ensures
        b == accepts_spec(*kind, name@),
{
    match kind {
        EntryKind::Disk => !is_virtual_disk(name),
        EntryKind::PartitionOf(disk) => is_partition(name, disk.as_str()),
        EntryKind::Hwmon => starts_with_str(&to_chars(name), "hwmon"),
        EntryKind::ThermalZone => starts_with_str(&to_chars(name), "thermal_zone"),
        EntryKind::FanInput => {
            let v = to_chars(name);
            starts_with_str(&v, "fan") && ends_with_str(&v, "_input")
        },
        EntryKind::TempInput => {
            let v = to_chars(name);
            starts_with_str(&v, "temp") && ends_with_str(&v, "_input")
        },
        EntryKind::ProcessDir => {
            let v = to_chars(name);
            v.len() > 0 && all_ascii_digits(&v)
        },
    }
}

/// The names that are of the kind, in the order given.
pub fn filter_entries(kind: &EntryKind, names: Vec<String>) -> (r: Vec<String>)
    ensures
        str_views(r@) == filter_spec(*kind, str_views(names@)),
{
    let ghost all = str_views(names@);
    let mut r: Vec<String> = Vec::new();
    let mut i: usize = 0;
    proof {
        assert(all.take(0) =~= Seq::<Seq<char>>::empty());
        assert(str_views(r@) =~= Seq::<Seq<char>>::empty());
    }
    while i < names.len()
        invariant
            i <= names.len(),
            all == str_views(names@),
            str_views(r@) == filter_spec(*kind, all.take(i as int)),
        decreases names.len() - i,
    {
        proof {
            assert(all.take(i + 1).drop_last() =~= all.take(i as int));
            assert(all.take(i + 1).last() == names@[i as int]@);
        }
        if accepts(kind, names[i].as_str()) {
            let ghost prev = r@;
            r.push(names[i].clone());
            proof {
                assert(str_views(r@) =~= str_views(prev).push(names@[i as int]@));
            }
        }
        i = i + 1;
    }
    proof {
        assert(all.take(names.len() as int) =~= all);
    }
    r
}

/// The names that are of the kind, in lexicographic order.
pub fn select_entries(kind: &EntryKind, names: Vec<String>) -> (r: Vec<String>)
    ensures
        str_views(r@) == sort_spec(filter_spec(*kind, str_views(names@))),
{
    sort_names(filter_entries(kind, names))
}

/// Law: which directory entries each collector reads. A block device is a
/// disk exactly when its name begins with none of `loop`, `ram`, `dm-`,
/// `zram`, `nbd` and `sr`; a hwmon device is an entry beginning with
/// `hwmon`; a thermal zone one beginning with `thermal_zone`; a fan or
/// temperature input a file named `fan…_input` or `temp…_input`; and a
/// process directory a non-empty name of ASCII digits.
pub proof fn entry_kinds_accept(name: Seq<char>)
    ensures
        accepts_spec(EntryKind::Disk, name) <==> !(starts_with(name, "loop"@) || starts_with(
            name,
            "ram"@,
        ) || starts_with(name, "dm-"@) || starts_with(name, "zram"@) || starts_with(name, "nbd"@)
            || starts_with(name, "sr"@)),
        accepts_spec(EntryKind::Hwmon, name) <==> starts_with(name, "hwmon"@),
        accepts_spec(EntryKind::ThermalZone, name) <==> starts_with(name, "thermal_zone"@),
        accepts_spec(EntryKind::FanInput, name) <==> starts_with(name, "fan"@) && ends_with(
            name,
            "_input"@,
        ),
        accepts_spec(EntryKind::TempInput, name) <==> starts_with(name, "temp"@) && ends_with(
            name,
            "_input"@,
        ),
        accepts_spec(EntryKind::ProcessDir, name) <==> name.len() > 0 && forall|i: int|
            0 <= i < name.len() ==> '0' as u32 <= #[trigger] (name[i] as u32) <= '9' as u32,
{
}

proof fn lemma_filter_is_seq_filter(kind: EntryKind, s: Seq<Seq<char>>)
    ensures
        filter_spec(kind, s) == s.filter(|n: Seq<char>| accepts_spec(kind, n)),
    decreases s.len(),
{
    reveal_with_fuel(Seq::filter, 1);
    if s.len() > 0 {
        lemma_filter_is_seq_filter(kind, s.drop_last());
    }
}

/// Law: `select_entries` gives the names of the kind, each as often as
/// given and no other, in lexicographic order.
pub proof fn select_entries_sorted_selection(kind: EntryKind, s: Seq<Seq<char>>)
    ensures
        is_sorted(sort_spec(filter_spec(kind, s))),
        sort_spec(filter_spec(kind, s)).to_multiset() == s.filter(
            |n: Seq<char>| accepts_spec(kind, n),
        ).to_multiset(),
{
    lemma_filter_is_seq_filter(kind, s);
    sort_names_sorted_permutation(filter_spec(kind, s));
}

} // verus!
