//! Partition flags, and the lists that name them.

use crate::text::{fields, same_text, split};
use vstd::prelude::*;

verus! {

/// A flag that a partition can carry. Each is named in a list by the word
/// given with it.
#[derive(Debug, Clone, Copy, PartialEq, Eq, Structural)]
pub enum PartitionFlag {
    /// `esp`
    Esp,
    /// `boot`
    Boot,
    /// `root`
    Root,
    /// `swap`
    Swap,
    /// `hidden`
    Hidden,
    /// `raid`
    Raid,
    /// `lvm`
    Lvm,
    /// `lba`
    Lba,
    /// `hpservice`
    HpService,
    /// `palo`
    Palo,
    /// `prep`
    Prep,
    /// `msft_reserved`
    MsftReserved,
    /// `apple_tv_recovery`
    AppleTvRecovery,
    /// `diag`
    Diag,
    /// `legacy_boot`
    LegacyBoot,
    /// `msft_data`
    MsftData,
    /// `irst`
    Irst,
}

/// The flag that a name stands for; `None` for a name that is not in the
/// table.
pub open spec fn flag_named(name: Seq<char>) -> Option<PartitionFlag> {
    if name == "esp"@ {
        Some(PartitionFlag::Esp)
    } else if name == "boot"@ {
        Some(PartitionFlag::Boot)
    } else if name == "root"@ {
        Some(PartitionFlag::Root)
    } else if name == "swap"@ {
        Some(PartitionFlag::Swap)
    } else if name == "hidden"@ {
        Some(PartitionFlag::Hidden)
    } else if name == "raid"@ {
        Some(PartitionFlag::Raid)
    } else if name == "lvm"@ {
        Some(PartitionFlag::Lvm)
    } else if name == "lba"@ {
        Some(PartitionFlag::Lba)
    } else if name == "hpservice"@ {
        Some(PartitionFlag::HpService)
    } else if name == "palo"@ {
        Some(PartitionFlag::Palo)
    } else if name == "prep"@ {
        Some(PartitionFlag::Prep)
    } else if name == "msft_reserved"@ {
        Some(PartitionFlag::MsftReserved)
    } else if name == "apple_tv_recovery"@ {
        Some(PartitionFlag::AppleTvRecovery)
    } else if name == "diag"@ {
        Some(PartitionFlag::Diag)
    } else if name == "legacy_boot"@ {
        Some(PartitionFlag::LegacyBoot)
    } else if name == "msft_data"@ {
        Some(PartitionFlag::MsftData)
    } else if name == "irst"@ {
        Some(PartitionFlag::Irst)
    } else {
        None
    }
}

/// The flags that a comma-separated list names, in the order of the list. A
/// name that is not in the table adds nothing; a name given twice adds its
/// flag twice.
pub open spec fn flags_of(list: Seq<char>) -> Seq<PartitionFlag> {
    fields(list, ',').filter_map(|name: Seq<char>| flag_named(name))
}

/// Looks a flag up by its name.
pub fn flag_by_name(name: &str) -> (flag: Option<PartitionFlag>)
    ensures
        flag == flag_named(name@),
{
    if same_text(name, "esp") {
        Some(PartitionFlag::Esp)
    } else if same_text(name, "boot") {
        Some(PartitionFlag::Boot)
    } else if same_text(name, "root") {
        Some(PartitionFlag::Root)
    } else if same_text(name, "swap") {
        Some(PartitionFlag::Swap)
    } else if same_text(name, "hidden") {
        Some(PartitionFlag::Hidden)
    } else if same_text(name, "raid") {
        Some(PartitionFlag::Raid)
    } else if same_text(name, "lvm") {
        Some(PartitionFlag::Lvm)
    } else if same_text(name, "lba") {
        Some(PartitionFlag::Lba)
    } else if same_text(name, "hpservice") {
        Some(PartitionFlag::HpService)
    } else if same_text(name, "palo") {
        Some(PartitionFlag::Palo)
    } else if same_text(name, "prep") {
        Some(PartitionFlag::Prep)
    } else if same_text(name, "msft_reserved") {
        Some(PartitionFlag::MsftReserved)
    } else if same_text(name, "apple_tv_recovery") {
        Some(PartitionFlag::AppleTvRecovery)
    } else if same_text(name, "diag") {
        Some(PartitionFlag::Diag)
    } else if same_text(name, "legacy_boot") {
        Some(PartitionFlag::LegacyBoot)
    } else if same_text(name, "msft_data") {
        Some(PartitionFlag::MsftData)
    } else if same_text(name, "irst") {
        Some(PartitionFlag::Irst)
    } else {
        None
    }
}

/// Reads a comma-separated list of flag names. Names that are not in the
/// table are passed over; no list is refused.
pub fn parse_flags(list: &str) -> (flags: Vec<PartitionFlag>)
    ensures
        flags@ == flags_of(list@),
{
    let names = split(list, ',');
    let ghost all = fields(list@, ',');
    let ghost table = |name: Seq<char>| flag_named(name);
    let mut flags: Vec<PartitionFlag> = Vec::new();
    let mut at: usize = 0;
    while at < names.len()
        invariant
            at <= names.len(),
            names.deep_view() == all,
            table == (|name: Seq<char>| flag_named(name)),
            flags@ == all.take(at as int).filter_map(table),
        decreases names.len() - at,
    {
        proof {
            all.lemma_filter_map_take_succ(table, at as int);
            assert(names.deep_view()[at as int] == names[at as int]@);
        }
        match flag_by_name(names[at]) {
            Some(flag) => {
                flags.push(flag);
            },
            None => {},
        }
        at = at + 1;
    }
    assert(all.take(at as int) =~= all);
    flags
}

/// The set of the flags that a list names: those whose name is one of the
/// list's fields.
pub open spec fn flag_set_of(list: Seq<char>) -> Set<PartitionFlag> {
    Set::new(
        |flag: PartitionFlag|
            exists|i: int|
                0 <= i < fields(list, ',').len() && flag_named(#[trigger] fields(list, ',')[i])
                    == Some(flag),
    )
}

/// As a set, the flags read from a list are those that the list names:
/// whatever else stands in the list changes nothing.
pub proof fn law_flags_are_the_named_ones(list: Seq<char>)
    ensures
        flags_of(list).to_set() == flag_set_of(list),
{
    let names = fields(list, ',');
    assert forall|flag: PartitionFlag|
        flags_of(list).to_set().contains(flag) <==> flag_set_of(list).contains(flag) by {
        lemma_named_flags(names, flag);
    }
    assert(flags_of(list).to_set() =~= flag_set_of(list));
}

/// A flag is among those that a run of names gives exactly when one of the
/// names is its name.
proof fn lemma_named_flags(names: Seq<Seq<char>>, flag: PartitionFlag)
    ensures
        names.filter_map(|name: Seq<char>| flag_named(name)).contains(flag) <==> exists|i: int|
            0 <= i < names.len() && flag_named(#[trigger] names[i]) == Some(flag),
    decreases names.len(),
{
    let table = |name: Seq<char>| flag_named(name);
    let found = names.filter_map(table);
    if names.len() == 0 {
    } else {
        let rest = names.drop_last();
        lemma_named_flags(rest, flag);
        let before = rest.filter_map(table);
        if exists|i: int| 0 <= i < names.len() && flag_named(#[trigger] names[i]) == Some(flag) {
            let i = choose|i: int|
                0 <= i < names.len() && flag_named(#[trigger] names[i]) == Some(flag);
            if i < rest.len() {
                assert(rest[i] == names[i]);
                let j = choose|j: int| 0 <= j < before.len() && before[j] == flag;
                assert(found[j] == flag);
            } else {
                assert(found[found.len() - 1] == flag);
            }
        }
        if found.contains(flag) {
            let j = choose|j: int| 0 <= j < found.len() && found[j] == flag;
            if j < before.len() {
                assert(before[j] == flag);
                assert(before.contains(flag));
                let i = choose|i: int|
                    0 <= i < rest.len() && flag_named(#[trigger] rest[i]) == Some(flag);
                assert(names[i] == rest[i]);
            } else {
                assert(flag_named(names[names.len() - 1]) == Some(flag));
            }
        }
    }
}

} // verus!
