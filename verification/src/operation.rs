//! The six kinds of operation, and how each is written.
//!
//! An operation is written as one token of fields separated by colons. The
//! first fields are fixed by the kind of operation; `key=value` fields may
//! follow them, in any order.
//!
//! | kind           | fields | fixed fields                  | may follow          |
//! |----------------|--------|-------------------------------|---------------------|
//! | relabel        | 2      | disk, table                   |                     |
//! | delete         | 1 or more | disk, partition numbers    |                     |
//! | move           | 4      | disk, partition, start, end   |                     |
//! | reuse          | 3 to 5 | disk, partition, file system  | mount, flags, keyid |
//! | create         | 5 to 7 | disk, type, start, end, file system | mount, flags, keyid |
//! | create logical | 4 to 6 | group, name, size, file system | mount, flags       |

use crate::error::{outcome, ConfigError, ConfigErrorView};
use crate::filesystem::{
    filesystem_of, parse_fs, parse_part_type, partition_type_of, FileSystem, FileSystemView,
    PartitionType,
};
use crate::flags::{flags_of, parse_flags, PartitionFlag};
use crate::sector::{parse_sector, sector_of, Sector, SectorView};
use crate::text::{fields, parse_u32, same_text, split, starts_with, strip_prefix, unsigned32};
use vstd::prelude::*;

verus! {

/// The kind of an operation.
#[derive(Debug, Clone, Copy, PartialEq, Eq, Structural)]
pub enum OperationKind {
    /// Give a disk a new partition table.
    Relabel,
    /// Remove partitions from a disk.
    Delete,
    /// Move or resize a partition.
    Move,
    /// Use a partition that exists.
    Reuse,
    /// Create a partition.
    Create,
    /// Create a logical volume in a volume group.
    CreateLogical,
}

/// The kind of a partition table.
#[derive(Debug, Clone, Copy, PartialEq, Eq, Structural)]
pub enum PartitionTable {
    Gpt,
    Msdos,
}

/// Where a partition is mounted, and with which key it is unlocked. A key
/// cannot be given without a path.
#[derive(Debug, Clone, PartialEq, Eq)]
pub enum Mount {
    /// Nothing is said of mounting.
    Unset,
    /// Mount at this path.
    At(String),
    /// Mount at this path, and unlock with the key of this identifier.
    Keyed { key: String, path: String },
}

/// The mathematical value of a [`Mount`].
pub enum MountView {
    Unset,
    At(Seq<char>),
    Keyed { key: Seq<char>, path: Seq<char> },
}

impl DeepView for Mount {
    type V = MountView;

    open spec fn deep_view(&self) -> MountView {
        match *self {
            Mount::Unset => MountView::Unset,
            Mount::At(path) => MountView::At(path@),
            Mount::Keyed { key, path } => MountView::Keyed { key: key@, path: path@ },
        }
    }
}

/// A validated operation.
#[allow(inconsistent_fields)]
#[derive(Debug, Clone, PartialEq, Eq)]
pub enum Operation {
    /// Replace the partition table of a disk. What the disk held is lost.
    Relabel { disk: String, table: PartitionTable },
    /// Remove the partitions with these numbers, in this order.
    Delete { disk: String, partitions: Vec<u32> },
    /// Move a partition so that it starts at `start`, where one is given, and
    /// resize it so that it ends at `end`, where one is given.
    Move { disk: String, partition: u32, start: Option<Sector>, end: Option<Sector> },
    /// Use a partition that exists. It is formatted anew where `format` is
    /// given. Where `flags` is given, it takes the place of the flags that the
    /// partition had.
    Reuse {
        disk: String,
        partition: u32,
        format: Option<FileSystem>,
        mount: Mount,
        flags: Option<Vec<PartitionFlag>>,
    },
    /// Create a partition between two sectors.
    Create {
        disk: String,
        kind: PartitionType,
        start: Sector,
        end: Sector,
        filesystem: FileSystem,
        mount: Mount,
        flags: Option<Vec<PartitionFlag>>,
    },
    /// Create a logical volume of a given size behind the last one of its
    /// group. `filesystem` is the name of a file system.
    CreateLogical {
        group: String,
        name: String,
        size: Sector,
        filesystem: String,
        mount: Option<String>,
        flags: Option<Vec<PartitionFlag>>,
    },
}

/// The mathematical value of an [`Operation`].
#[allow(inconsistent_fields)]
pub enum OperationView {
    Relabel { disk: Seq<char>, table: PartitionTable },
    Delete { disk: Seq<char>, partitions: Seq<u32> },
    Move { disk: Seq<char>, partition: u32, start: Option<SectorView>, end: Option<SectorView> },
    Reuse {
        disk: Seq<char>,
        partition: u32,
        format: Option<FileSystemView>,
        mount: MountView,
        flags: Option<Seq<PartitionFlag>>,
    },
    Create {
        disk: Seq<char>,
        kind: PartitionType,
        start: SectorView,
        end: SectorView,
        filesystem: FileSystemView,
        mount: MountView,
        flags: Option<Seq<PartitionFlag>>,
    },
    CreateLogical {
        group: Seq<char>,
        name: Seq<char>,
        size: SectorView,
        filesystem: Seq<char>,
        mount: Option<Seq<char>>,
        flags: Option<Seq<PartitionFlag>>,
    },
}

/// The mathematical value of a list of flags that may be missing.
pub open spec fn flags_view(flags: Option<Vec<PartitionFlag>>) -> Option<Seq<PartitionFlag>> {
    match flags {
        Some(list) => Some(list@),
        None => None,
    }
}

impl DeepView for Operation {
    type V = OperationView;

    open spec fn deep_view(&self) -> OperationView {
        match *self {
            Operation::Relabel { disk, table } => OperationView::Relabel { disk: disk@, table },
            Operation::Delete { disk, partitions } => OperationView::Delete {
                disk: disk@,
                partitions: partitions@,
            },
            Operation::Move { disk, partition, start, end } => OperationView::Move {
                disk: disk@,
                partition,
                start: start.deep_view(),
                end: end.deep_view(),
            },
            Operation::Reuse { disk, partition, format, mount, flags } => OperationView::Reuse {
                disk: disk@,
                partition,
                format: format.deep_view(),
                mount: mount.deep_view(),
                flags: flags_view(flags),
            },
            Operation::Create {
                disk,
                kind,
                start,
                end,
                filesystem,
                mount,
                flags,
            } => OperationView::Create {
                disk: disk@,
                kind,
                start: start.deep_view(),
                end: end.deep_view(),
                filesystem: filesystem.deep_view(),
                mount: mount.deep_view(),
                flags: flags_view(flags),
            },
            Operation::CreateLogical {
                group,
                name,
                size,
                filesystem,
                mount,
                flags,
            } => OperationView::CreateLogical {
                group: group@,
                name: name@,
                size: size.deep_view(),
                filesystem: filesystem@,
                mount: mount.deep_view(),
                flags: flags_view(flags),
            },
        }
    }
}

impl OperationView {
    /// The kind of the operation.
    pub open spec fn kind(self) -> OperationKind {
        match self {
            OperationView::Relabel { .. } => OperationKind::Relabel,
            OperationView::Delete { .. } => OperationKind::Delete,
            OperationView::Move { .. } => OperationKind::Move,
            OperationView::Reuse { .. } => OperationKind::Reuse,
            OperationView::Create { .. } => OperationKind::Create,
            OperationView::CreateLogical { .. } => OperationKind::CreateLogical,
        }
    }
}

/// The least number of fields of an operation of a kind.
pub open spec fn least_fields(kind: OperationKind) -> usize {
    match kind {
        OperationKind::Relabel => 2,
        OperationKind::Delete => 1,
        OperationKind::Move => 4,
        OperationKind::Reuse => 3,
        OperationKind::Create => 5,
        OperationKind::CreateLogical => 4,
    }
}

/// The greatest number of fields of an operation of a kind; `None` where any
/// number may follow.
pub open spec fn most_fields(kind: OperationKind) -> Option<usize> {
    match kind {
        OperationKind::Relabel => Some(2usize),
        OperationKind::Delete => None,
        OperationKind::Move => Some(4usize),
        OperationKind::Reuse => Some(5usize),
        OperationKind::Create => Some(7usize),
        OperationKind::CreateLogical => Some(6usize),
    }
}

/// The error for a token of a kind that has too few fields.
pub open spec fn too_few(kind: OperationKind) -> ConfigErrorView {
    ConfigErrorView::TooFewFields { kind, least: least_fields(kind), most: most_fields(kind) }
}

/// The error for a token of a kind that has too many fields.
pub open spec fn too_many(kind: OperationKind) -> ConfigErrorView {
    ConfigErrorView::TooManyFields { kind, least: least_fields(kind), most: most_fields(kind) }
}

/// What is wrong with a number of fields, if anything.
pub open spec fn arity_error(kind: OperationKind, count: nat) -> Option<ConfigErrorView> {
    if count < least_fields(kind) {
        Some(too_few(kind))
    } else if most_fields(kind) is Some && count > most_fields(kind)->0 {
        Some(too_many(kind))
    } else {
        None
    }
}

impl OperationKind {
    /// The least number of fields of an operation of this kind.
    pub fn min_fields(self) -> (least: usize)
        ensures
            least == least_fields(self),
    {
        match self {
            OperationKind::Relabel => 2,
            OperationKind::Delete => 1,
            OperationKind::Move => 4,
            OperationKind::Reuse => 3,
            OperationKind::Create => 5,
            OperationKind::CreateLogical => 4,
        }
    }

    /// The greatest number of fields of an operation of this kind; `None`
    /// where any number may follow.
    pub fn max_fields(self) -> (most: Option<usize>)
        ensures
            most == most_fields(self),
    {
        match self {
            OperationKind::Relabel => Some(2),
            OperationKind::Delete => None,
            OperationKind::Move => Some(4),
            OperationKind::Reuse => Some(5),
            OperationKind::Create => Some(7),
            OperationKind::CreateLogical => Some(6),
        }
    }
}

/// Holds a number of fields against the bounds of a kind.
fn check_arity(kind: OperationKind, count: usize) -> (checked: Result<(), ConfigError>)
    ensures
        match checked {
            Ok(_) => arity_error(kind, count as nat) is None,
            Err(error) => arity_error(kind, count as nat) == Some(error.deep_view()),
        },
{
    let least: usize = kind.min_fields();
    let most = kind.max_fields();
    if count < least {
        return Err(ConfigError::TooFewFields { kind, least, most });
    }
    match most {
        Some(bound) => {
            if count > bound {
                return Err(ConfigError::TooManyFields { kind, least, most });
            }
        },
        None => {},
    }
    Ok(())
}

/// The partition table that a token names.
pub open spec fn table_of(token: Seq<char>) -> Result<PartitionTable, ConfigErrorView> {
    if token == "gpt"@ {
        Ok(PartitionTable::Gpt)
    } else if token == "msdos"@ {
        Ok(PartitionTable::Msdos)
    } else {
        Err(ConfigErrorView::InvalidTable(token))
    }
}

/// The partition number that a token gives.
pub open spec fn partition_of(token: Seq<char>) -> Result<u32, ConfigErrorView> {
    match unsigned32(token) {
        Some(number) => Ok(number),
        None => Err(ConfigErrorView::InvalidPartition(token)),
    }
}

/// The partition numbers that a run of tokens gives. The first token that is
/// no number decides the error.
pub open spec fn partitions_of(tokens: Seq<Seq<char>>) -> Result<Seq<u32>, ConfigErrorView>
    decreases tokens.len(),
{
    if tokens.len() == 0 {
        Ok(Seq::empty())
    } else {
        match partitions_of(tokens.drop_last()) {
            Err(error) => Err(error),
            Ok(numbers) => match partition_of(tokens.last()) {
                Err(error) => Err(error),
                Ok(number) => Ok(numbers.push(number)),
            },
        }
    }
}

/// A sector that may be left out: `none`, or a sector token.
pub open spec fn optional_sector_of(token: Seq<char>) -> Result<
    Option<SectorView>,
    ConfigErrorView,
> {
    if token == "none"@ {
        Ok(None)
    } else {
        match sector_of(token) {
            Ok(sector) => Ok(Some(sector)),
            Err(error) => Err(error),
        }
    }
}

/// A file system that may be left as it is: `reuse`, or a file-system token.
pub open spec fn optional_filesystem_of(token: Seq<char>) -> Result<
    Option<FileSystemView>,
    ConfigErrorView,
> {
    if token == "reuse"@ {
        Ok(None)
    } else {
        match filesystem_of(token) {
            Ok(filesystem) => Ok(Some(filesystem)),
            Err(error) => Err(error),
        }
    }
}

/// What the `key=value` fields of an operation give, each where a field sets
/// it: the mount path, the flags and the key identifier.
pub struct OptionsView {
    pub mount: Option<Seq<char>>,
    pub flags: Option<Seq<PartitionFlag>>,
    pub key: Option<Seq<char>>,
}

/// What one `key=value` field adds to what the fields before it gave. The
/// fields known are `mount=`, `flags=` and `keyid=`; a field sets what its key
/// names, whatever was set before. For a logical volume (`logical`) there is
/// no `keyid=`, and the values of the other two must not be empty. Every other
/// field is refused.
pub open spec fn with_option(so_far: OptionsView, field: Seq<char>, logical: bool) -> Result<
    OptionsView,
    ConfigErrorView,
> {
    if starts_with(field, "mount="@) {
        let value = field.skip("mount="@.len() as int);
        if logical && value.len() == 0 {
            Err(ConfigErrorView::InvalidArgument(field))
        } else {
            Ok(OptionsView { mount: Some(value), ..so_far })
        }
    } else if starts_with(field, "flags="@) {
        let value = field.skip("flags="@.len() as int);
        if logical && value.len() == 0 {
            Err(ConfigErrorView::InvalidArgument(field))
        } else {
            Ok(OptionsView { flags: Some(flags_of(value)), ..so_far })
        }
    } else if !logical && starts_with(field, "keyid="@) {
        Ok(OptionsView { key: Some(field.skip("keyid="@.len() as int)), ..so_far })
    } else {
        Err(ConfigErrorView::InvalidArgument(field))
    }
}

/// What the `key=value` fields of an operation give, taken one after another.
/// The first field that is refused decides the error.
pub open spec fn options_of(list: Seq<Seq<char>>, logical: bool) -> Result<
    OptionsView,
    ConfigErrorView,
>
    decreases list.len(),
{
    if list.len() == 0 {
        Ok(OptionsView { mount: None, flags: None, key: None })
    } else {
        match options_of(list.drop_last(), logical) {
            Err(error) => Err(error),
            Ok(so_far) => with_option(so_far, list.last(), logical),
        }
    }
}

/// The mounting that a mount path and a key identifier give together. A key
/// needs a path.
pub open spec fn mount_of(mount: Option<Seq<char>>, key: Option<Seq<char>>) -> Result<
    MountView,
    ConfigErrorView,
> {
    match (key, mount) {
        (Some(key), Some(path)) => Ok(MountView::Keyed { key, path }),
        (Some(_), None) => Err(ConfigErrorView::MountRequiredWithKey),
        (None, Some(path)) => Ok(MountView::At(path)),
        (None, None) => Ok(MountView::Unset),
    }
}

/// The relabel operation that a token describes: `disk:table`.
pub open spec fn relabel_of(token: Seq<char>) -> Result<OperationView, ConfigErrorView> {
    let parts = fields(token, ':');
    if arity_error(OperationKind::Relabel, parts.len()) is Some {
        Err(arity_error(OperationKind::Relabel, parts.len())->0)
    } else {
        match table_of(parts[1]) {
            Err(error) => Err(error),
            Ok(table) => Ok(OperationView::Relabel { disk: parts[0], table }),
        }
    }
}

/// The delete operation that a token describes: `disk[:partition]...`.
pub open spec fn delete_of(token: Seq<char>) -> Result<OperationView, ConfigErrorView> {
    let parts = fields(token, ':');
    if arity_error(OperationKind::Delete, parts.len()) is Some {
        Err(arity_error(OperationKind::Delete, parts.len())->0)
    } else {
        match partitions_of(parts.skip(1)) {
            Err(error) => Err(error),
            Ok(partitions) => Ok(OperationView::Delete { disk: parts[0], partitions }),
        }
    }
}

/// The move operation that a token describes: `disk:partition:start:end`,
/// where `start` and `end` may each be `none`.
pub open spec fn move_of(token: Seq<char>) -> Result<OperationView, ConfigErrorView> {
    let parts = fields(token, ':');
    if arity_error(OperationKind::Move, parts.len()) is Some {
        Err(arity_error(OperationKind::Move, parts.len())->0)
    } else {
        match partition_of(parts[1]) {
            Err(error) => Err(error),
            Ok(partition) => match optional_sector_of(parts[2]) {
                Err(error) => Err(error),
                Ok(start) => match optional_sector_of(parts[3]) {
                    Err(error) => Err(error),
                    Ok(end) => Ok(OperationView::Move { disk: parts[0], partition, start, end }),
                },
            },
        }
    }
}

/// The reuse operation that a token describes:
/// `disk:partition:filesystem[:key=value]...`, where `filesystem` may be
/// `reuse`.
pub open spec fn reuse_of(token: Seq<char>) -> Result<OperationView, ConfigErrorView> {
    let parts = fields(token, ':');
    if arity_error(OperationKind::Reuse, parts.len()) is Some {
        Err(arity_error(OperationKind::Reuse, parts.len())->0)
    } else {
        match partition_of(parts[1]) {
            Err(error) => Err(error),
            Ok(partition) => match optional_filesystem_of(parts[2]) {
                Err(error) => Err(error),
                Ok(format) => match options_of(parts.skip(3), false) {
                    Err(error) => Err(error),
                    Ok(options) => match mount_of(options.mount, options.key) {
                        Err(error) => Err(error),
                        Ok(mount) => Ok(
                            OperationView::Reuse {
                                disk: parts[0],
                                partition,
                                format,
                                mount,
                                flags: options.flags,
                            },
                        ),
                    },
                },
            },
        }
    }
}

/// The create operation that a token describes:
/// `disk:type:start:end:filesystem[:key=value]...`.
pub open spec fn create_of(token: Seq<char>) -> Result<OperationView, ConfigErrorView> {
    let parts = fields(token, ':');
    if arity_error(OperationKind::Create, parts.len()) is Some {
        Err(arity_error(OperationKind::Create, parts.len())->0)
    } else {
        match partition_type_of(parts[1]) {
            Err(error) => Err(error),
            Ok(kind) => match sector_of(parts[2]) {
                Err(error) => Err(error),
                Ok(start) => match sector_of(parts[3]) {
                    Err(error) => Err(error),
                    Ok(end) => match filesystem_of(parts[4]) {
                        Err(error) => Err(error),
                        Ok(filesystem) => match options_of(parts.skip(5), false) {
                            Err(error) => Err(error),
                            Ok(options) => match mount_of(options.mount, options.key) {
                                Err(error) => Err(error),
                                Ok(mount) => Ok(
                                    OperationView::Create {
                                        disk: parts[0],
                                        kind,
                                        start,
                                        end,
                                        filesystem,
                                        mount,
                                        flags: options.flags,
                                    },
                                ),
                            },
                        },
                    },
                },
            },
        }
    }
}

/// The name of the file system of a logical volume. A logical volume cannot be
/// the physical volume of another group: the token must name a file system.
pub open spec fn volume_filesystem_of(token: Seq<char>) -> Result<Seq<char>, ConfigErrorView> {
    match filesystem_of(token) {
        Err(error) => Err(error),
        Ok(FileSystemView::Plain(name)) => Ok(name),
        Ok(FileSystemView::LogicalVolume { .. }) => Err(ConfigErrorView::InvalidFilesystem(token)),
    }
}

/// The operation that a token for a logical volume describes:
/// `group:name:size:filesystem[:key=value]...`. The `key=value` fields are
/// read before the size and the file system.
pub open spec fn logical_of(token: Seq<char>) -> Result<OperationView, ConfigErrorView> {
    let parts = fields(token, ':');
    if arity_error(OperationKind::CreateLogical, parts.len()) is Some {
        Err(arity_error(OperationKind::CreateLogical, parts.len())->0)
    } else {
        match options_of(parts.skip(4), true) {
            Err(error) => Err(error),
            Ok(options) => match sector_of(parts[2]) {
                Err(error) => Err(error),
                Ok(size) => match volume_filesystem_of(parts[3]) {
                    Err(error) => Err(error),
                    Ok(filesystem) => Ok(
                        OperationView::CreateLogical {
                            group: parts[0],
                            name: parts[1],
                            size,
                            filesystem,
                            mount: options.mount,
                            flags: options.flags,
                        },
                    ),
                },
            },
        }
    }
}

/// The operation of a kind that a token describes.
#[verifier::opaque]
pub open spec fn operation_of(kind: OperationKind, token: Seq<char>) -> Result<
    OperationView,
    ConfigErrorView,
> {
    match kind {
        OperationKind::Relabel => relabel_of(token),
        OperationKind::Delete => delete_of(token),
        OperationKind::Move => move_of(token),
        OperationKind::Reuse => reuse_of(token),
        OperationKind::Create => create_of(token),
        OperationKind::CreateLogical => logical_of(token),
    }
}

/// Reads the kind of a partition table: `gpt` or `msdos`.
pub fn parse_table(token: &str) -> (table: Result<PartitionTable, ConfigError>)
    ensures
        match table {
            Ok(t) => table_of(token@) == Ok::<PartitionTable, ConfigErrorView>(t),
            Err(e) => table_of(token@) == Err::<PartitionTable, ConfigErrorView>(e.deep_view()),
        },
{
    if same_text(token, "gpt") {
        Ok(PartitionTable::Gpt)
    } else if same_text(token, "msdos") {
        Ok(PartitionTable::Msdos)
    } else {
        Err(ConfigError::InvalidTable(token.to_owned()))
    }
}

/// Reads a partition number.
pub fn parse_partition(token: &str) -> (number: Result<u32, ConfigError>)
    ensures
        match number {
            Ok(n) => partition_of(token@) == Ok::<u32, ConfigErrorView>(n),
            Err(e) => partition_of(token@) == Err::<u32, ConfigErrorView>(e.deep_view()),
        },
{
    match parse_u32(token) {
        Some(number) => Ok(number),
        None => Err(ConfigError::InvalidPartition(token.to_owned())),
    }
}

/// Reads a sector that may be left out.
fn parse_optional_sector(token: &str) -> (sector: Result<Option<Sector>, ConfigError>)
    ensures
        outcome(sector) == optional_sector_of(token@),
{
    if same_text(token, "none") {
        Ok(None)
    } else {
        match parse_sector(token) {
            Ok(sector) => Ok(Some(sector)),
            Err(error) => Err(error),
        }
    }
}

/// Reads a file system that may be left as it is.
fn parse_optional_fs(token: &str) -> (filesystem: Result<Option<FileSystem>, ConfigError>)
    ensures
        outcome(filesystem) == optional_filesystem_of(token@),
{
    if same_text(token, "reuse") {
        Ok(None)
    } else {
        match parse_fs(token) {
            Ok(filesystem) => Ok(Some(filesystem)),
            Err(error) => Err(error),
        }
    }
}

/// An error among the first tokens is the error of the whole run.
proof fn lemma_partitions_fail(tokens: Seq<Seq<char>>, k: int)
    requires
        0 <= k <= tokens.len(),
        partitions_of(tokens.take(k)) is Err,
    ensures
        partitions_of(tokens) == partitions_of(tokens.take(k)),
    decreases tokens.len() - k,
{
    if k == tokens.len() {
        assert(tokens.take(k) =~= tokens);
    } else {
        assert(tokens.take(k + 1).drop_last() =~= tokens.take(k));
        lemma_partitions_fail(tokens, k + 1);
    }
}

/// An error among the first fields is the error of the whole run.
proof fn lemma_options_fail(list: Seq<Seq<char>>, logical: bool, k: int)
    requires
        0 <= k <= list.len(),
        options_of(list.take(k), logical) is Err,
    ensures
        options_of(list, logical) == options_of(list.take(k), logical),
    decreases list.len() - k,
{
    if k == list.len() {
        assert(list.take(k) =~= list);
    } else {
        assert(list.take(k + 1).drop_last() =~= list.take(k));
        lemma_options_fail(list, logical, k + 1);
    }
}

/// Reads the partition numbers that stand in `parts` from `from` on.
fn parse_partitions(parts: &Vec<&str>, from: usize) -> (numbers: Result<Vec<u32>, ConfigError>)
    requires
        from <= parts.len(),
    ensures
        match numbers {
            Ok(list) => partitions_of(parts.deep_view().skip(from as int)) == Ok::<
                Seq<u32>,
                ConfigErrorView,
            >(list@),
            Err(error) => partitions_of(parts.deep_view().skip(from as int)) == Err::<
                Seq<u32>,
                ConfigErrorView,
            >(error.deep_view()),
        },
{
    let ghost rest = parts.deep_view().skip(from as int);
    let mut numbers: Vec<u32> = Vec::new();
    let mut at: usize = from;
    assert(rest.take(0) =~= Seq::<Seq<char>>::empty());
    while at < parts.len()
        invariant
            from <= at <= parts.len(),
            rest == parts.deep_view().skip(from as int),
            partitions_of(rest.take(at - from)) == Ok::<Seq<u32>, ConfigErrorView>(numbers@),
        decreases parts.len() - at,
    {
        let token = parts[at];
        proof {
            assert(parts.deep_view()[at as int] == token@);
            assert(rest.take(at - from + 1).drop_last() =~= rest.take(at - from));
            assert(rest.take(at - from + 1).last() == token@);
        }
        match parse_partition(token) {
            Ok(number) => {
                numbers.push(number);
            },
            Err(error) => {
                proof {
                    lemma_partitions_fail(rest, at - from + 1);
                }
                return Err(error);
            },
        }
        at = at + 1;
    }
    assert(rest.take(at - from) =~= rest);
    Ok(numbers)
}

/// Reads the `key=value` fields that stand in `parts` from `from` on.
fn parse_options(parts: &Vec<&str>, from: usize, logical: bool) -> (options: Result<
    (Option<String>, Option<Vec<PartitionFlag>>, Option<String>),
    ConfigError,
>)
    requires
        from <= parts.len(),
    ensures
        match options {
            Ok((mount, flags, key)) => options_of(parts.deep_view().skip(from as int), logical)
                == Ok::<OptionsView, ConfigErrorView>(
                OptionsView {
                    mount: mount.deep_view(),
                    flags: flags_view(flags),
                    key: key.deep_view(),
                },
            ),
            Err(error) => options_of(parts.deep_view().skip(from as int), logical) == Err::<
                OptionsView,
                ConfigErrorView,
            >(error.deep_view()),
        },
{
    let ghost rest = parts.deep_view().skip(from as int);
    let mut mount: Option<String> = None;
    let mut flags: Option<Vec<PartitionFlag>> = None;
    let mut key: Option<String> = None;
    let mut at: usize = from;
    assert(rest.take(0) =~= Seq::<Seq<char>>::empty());
    while at < parts.len()
        invariant
            from <= at <= parts.len(),
            rest == parts.deep_view().skip(from as int),
            options_of(rest.take(at - from), logical) == Ok::<OptionsView, ConfigErrorView>(
                OptionsView {
                    mount: mount.deep_view(),
                    flags: flags_view(flags),
                    key: key.deep_view(),
                },
            ),
        decreases parts.len() - at,
    {
        let field = parts[at];
        proof {
            assert(parts.deep_view()[at as int] == field@);
            assert(rest.take(at - from + 1).drop_last() =~= rest.take(at - from));
            assert(rest.take(at - from + 1).last() == field@);
        }
        let mut known = false;
        match strip_prefix(field, "mount=") {
            Some(value) => {
                if !(logical && value.is_empty()) {
                    mount = Some(value.to_owned());
                    known = true;
                }
            },
            None => match strip_prefix(field, "flags=") {
                Some(value) => {
                    if !(logical && value.is_empty()) {
                        flags = Some(parse_flags(value));
                        known = true;
                    }
                },
                None => {
                    if !logical {
                        match strip_prefix(field, "keyid=") {
                            Some(value) => {
                                key = Some(value.to_owned());
                                known = true;
                            },
                            None => {},
                        }
                    }
                },
            },
        }
        if !known {
            proof {
                lemma_options_fail(rest, logical, at - from + 1);
            }
            return Err(ConfigError::InvalidArgument(field.to_owned()));
        }
        at = at + 1;
    }
    assert(rest.take(at - from) =~= rest);
    Ok((mount, flags, key))
}

/// Puts a mount path and a key identifier together.
fn parse_mount(mount: Option<String>, key: Option<String>) -> (mounting: Result<
    Mount,
    ConfigError,
>)
    ensures
        outcome(mounting) == mount_of(mount.deep_view(), key.deep_view()),
{
    match key {
        Some(key) => match mount {
            Some(path) => Ok(Mount::Keyed { key, path }),
            None => Err(ConfigError::MountRequiredWithKey),
        },
        None => match mount {
            Some(path) => Ok(Mount::At(path)),
            None => Ok(Mount::Unset),
        },
    }
}

/// Reads a relabel operation: `disk:table`.
pub fn parse_relabel(token: &str) -> (operation: Result<Operation, ConfigError>)
    ensures
        outcome(operation) == relabel_of(token@),
{
    let parts = split(token, ':');
    check_arity(OperationKind::Relabel, parts.len())?;
    assert(parts.deep_view()[0] == parts[0]@ && parts.deep_view()[1] == parts[1]@);
    let table = parse_table(parts[1])?;
    Ok(Operation::Relabel { disk: parts[0].to_owned(), table })
}

/// Reads a delete operation: `disk[:partition]...`.
pub fn parse_delete(token: &str) -> (operation: Result<Operation, ConfigError>)
    ensures
        outcome(operation) == delete_of(token@),
{
    let parts = split(token, ':');
    check_arity(OperationKind::Delete, parts.len())?;
    assert(parts.deep_view()[0] == parts[0]@);
    let partitions = parse_partitions(&parts, 1)?;
    Ok(Operation::Delete { disk: parts[0].to_owned(), partitions })
}

/// Reads a move operation: `disk:partition:start:end`.
pub fn parse_move(token: &str) -> (operation: Result<Operation, ConfigError>)
    ensures
        outcome(operation) == move_of(token@),
{
    let parts = split(token, ':');
    check_arity(OperationKind::Move, parts.len())?;
    assert(parts.deep_view()[0] == parts[0]@ && parts.deep_view()[1] == parts[1]@
        && parts.deep_view()[2] == parts[2]@ && parts.deep_view()[3] == parts[3]@);
    let partition = parse_partition(parts[1])?;
    let start = parse_optional_sector(parts[2])?;
    let end = parse_optional_sector(parts[3])?;
    Ok(Operation::Move { disk: parts[0].to_owned(), partition, start, end })
}

/// Reads a reuse operation: `disk:partition:filesystem[:key=value]...`.
pub fn parse_reuse(token: &str) -> (operation: Result<Operation, ConfigError>)
    ensures
        outcome(operation) == reuse_of(token@),
{
    let parts = split(token, ':');
    check_arity(OperationKind::Reuse, parts.len())?;
    assert(parts.deep_view()[0] == parts[0]@ && parts.deep_view()[1] == parts[1]@
        && parts.deep_view()[2] == parts[2]@);
    let partition = parse_partition(parts[1])?;
    let format = parse_optional_fs(parts[2])?;
    let (mount, flags, key) = parse_options(&parts, 3, false)?;
    let mount = parse_mount(mount, key)?;
    Ok(Operation::Reuse { disk: parts[0].to_owned(), partition, format, mount, flags })
}

/// Reads a create operation: `disk:type:start:end:filesystem[:key=value]...`.
pub fn parse_create(token: &str) -> (operation: Result<Operation, ConfigError>)
    ensures
        outcome(operation) == create_of(token@),
{
    let parts = split(token, ':');
    check_arity(OperationKind::Create, parts.len())?;
    assert(parts.deep_view()[0] == parts[0]@ && parts.deep_view()[1] == parts[1]@
        && parts.deep_view()[2] == parts[2]@ && parts.deep_view()[3] == parts[3]@
        && parts.deep_view()[4] == parts[4]@);
    let kind = parse_part_type(parts[1])?;
    let start = parse_sector(parts[2])?;
    let end = parse_sector(parts[3])?;
    let filesystem = parse_fs(parts[4])?;
    let (mount, flags, key) = parse_options(&parts, 5, false)?;
    let mount = parse_mount(mount, key)?;
    Ok(Operation::Create { disk: parts[0].to_owned(), kind, start, end, filesystem, mount, flags })
}

/// Reads the file system of a logical volume.
fn parse_volume_fs(token: &str) -> (name: Result<String, ConfigError>)
    ensures
        match name {
            Ok(n) => volume_filesystem_of(token@) == Ok::<Seq<char>, ConfigErrorView>(n@),
            Err(e) => volume_filesystem_of(token@) == Err::<Seq<char>, ConfigErrorView>(
                e.deep_view(),
            ),
        },
{
    match parse_fs(token) {
        Err(error) => Err(error),
        Ok(FileSystem::Plain(name)) => Ok(name),
        Ok(FileSystem::LogicalVolume { .. }) => Err(
            ConfigError::InvalidFilesystem(token.to_owned()),
        ),
    }
}

/// Reads the operation that creates a logical volume:
/// `group:name:size:filesystem[:key=value]...`.
pub fn parse_logical(token: &str) -> (operation: Result<Operation, ConfigError>)
    ensures
        outcome(operation) == logical_of(token@),
{
    let parts = split(token, ':');
    check_arity(OperationKind::CreateLogical, parts.len())?;
    assert(parts.deep_view()[0] == parts[0]@ && parts.deep_view()[1] == parts[1]@
        && parts.deep_view()[2] == parts[2]@ && parts.deep_view()[3] == parts[3]@);
    let (mount, flags, _) = parse_options(&parts, 4, true)?;
    let size = parse_sector(parts[2])?;
    let filesystem = parse_volume_fs(parts[3])?;
    Ok(
        Operation::CreateLogical {
            group: parts[0].to_owned(),
            name: parts[1].to_owned(),
            size,
            filesystem,
            mount,
            flags,
        },
    )
}

/// Reads an operation of a given kind.
pub fn parse_operation(kind: OperationKind, token: &str) -> (operation: Result<
    Operation,
    ConfigError,
>)
    ensures
        outcome(operation) == operation_of(kind, token@),
{
    reveal(operation_of);
    match kind {
        OperationKind::Relabel => parse_relabel(token),
        OperationKind::Delete => parse_delete(token),
        OperationKind::Move => parse_move(token),
        OperationKind::Reuse => parse_reuse(token),
        OperationKind::Create => parse_create(token),
        OperationKind::CreateLogical => parse_logical(token),
    }
}

/// The number of fields is checked before anything else: a token with too few
/// or too many fields is refused for that, whatever its fields hold.
pub proof fn law_field_count_comes_first(kind: OperationKind, token: Seq<char>)
    ensures
        fields(token, ':').len() < least_fields(kind) ==> operation_of(kind, token) == Err::<
            OperationView,
            ConfigErrorView,
        >(too_few(kind)),
        most_fields(kind) is Some && fields(token, ':').len() > most_fields(kind)->0
            ==> operation_of(kind, token) == Err::<OperationView, ConfigErrorView>(too_many(kind)),
{
    reveal(operation_of);
}

/// A create token with fewer than five fields is refused for having too few,
/// and one with more than seven for having too many, whatever the fields hold.
pub proof fn law_create_field_count(token: Seq<char>)
    ensures
        fields(token, ':').len() < 5 ==> create_of(token) == Err::<
            OperationView,
            ConfigErrorView,
        >(too_few(OperationKind::Create)),
        fields(token, ':').len() > 7 ==> create_of(token) == Err::<
            OperationView,
            ConfigErrorView,
        >(too_many(OperationKind::Create)),
{
}

/// Reading a token as an operation of a kind is reading it by the grammar of
/// that kind.
pub proof fn law_operation_by_kind(token: Seq<char>)
    ensures
        operation_of(OperationKind::Relabel, token) == relabel_of(token),
        operation_of(OperationKind::Delete, token) == delete_of(token),
        operation_of(OperationKind::Move, token) == move_of(token),
        operation_of(OperationKind::Reuse, token) == reuse_of(token),
        operation_of(OperationKind::Create, token) == create_of(token),
        operation_of(OperationKind::CreateLogical, token) == logical_of(token),
{
    reveal(operation_of);
}

/// A token that is read as an operation of a kind gives an operation of that
/// kind.
pub proof fn law_operation_has_its_kind(kind: OperationKind, token: Seq<char>)
    requires
        operation_of(kind, token) is Ok,
    ensures
        operation_of(kind, token)->Ok_0.kind() == kind,
{
    reveal(operation_of);
}

/// Partition numbers are read one by one: a run of tokens gives the number of
/// each token in its place, or the error of the first token that is no number.
pub proof fn law_partitions_one_by_one(tokens: Seq<Seq<char>>)
    ensures
        match partitions_of(tokens) {
            Ok(numbers) => {
                &&& numbers.len() == tokens.len()
                &&& forall|i: int|
                    0 <= i < tokens.len() ==> partition_of(#[trigger] tokens[i]) == Ok::<
                        u32,
                        ConfigErrorView,
                    >(numbers[i])
            },
            Err(error) => exists|k: int|
                {
                    &&& 0 <= k < tokens.len()
                    &&& partition_of(#[trigger] tokens[k]) == Err::<u32, ConfigErrorView>(error)
                    &&& forall|i: int| 0 <= i < k ==> partition_of(#[trigger] tokens[i]) is Ok
                },
        },
    decreases tokens.len(),
{
    if tokens.len() > 0 {
        let head = tokens.drop_last();
        law_partitions_one_by_one(head);
        match partitions_of(head) {
            Ok(numbers) => {
                assert forall|i: int| 0 <= i < head.len() implies partition_of(
                    #[trigger] tokens[i],
                ) == Ok::<u32, ConfigErrorView>(numbers[i]) by {
                    assert(head[i] == tokens[i]);
                }
                if partition_of(tokens.last()) is Err {
                    let k = tokens.len() - 1;
                    assert(partition_of(tokens[k]) == Err::<u32, ConfigErrorView>(
                        partitions_of(tokens)->Err_0,
                    ));
                }
            },
            Err(error) => {
                let k = choose|k: int|
                    {
                        &&& 0 <= k < head.len()
                        &&& partition_of(#[trigger] head[k]) == Err::<u32, ConfigErrorView>(error)
                        &&& forall|i: int| 0 <= i < k ==> partition_of(#[trigger] head[i]) is Ok
                    };
                assert(head[k] == tokens[k]);
                assert forall|i: int| 0 <= i < k implies partition_of(#[trigger] tokens[i]) is Ok by {
                    assert(head[i] == tokens[i]);
                }
            },
        }
    }
}

/// Fields that are all `flags=` or `keyid=` fields are taken, give no mount
/// path, and give a key exactly when one of them is a `keyid=` field.
proof fn lemma_options_without_mount(list: Seq<Seq<char>>)
    requires
        forall|i: int|
            0 <= i < list.len() ==> !starts_with(#[trigger] list[i], "mount="@) && (starts_with(
                list[i],
                "flags="@,
            ) || starts_with(list[i], "keyid="@)),
    ensures
        options_of(list, false) is Ok,
        options_of(list, false)->Ok_0.mount is None,
        options_of(list, false)->Ok_0.key is Some <==> exists|i: int|
            0 <= i < list.len() && starts_with(#[trigger] list[i], "keyid="@),
    decreases list.len(),
{
    if list.len() > 0 {
        let rest = list.drop_last();
        assert forall|i: int| 0 <= i < rest.len() implies !starts_with(
            #[trigger] rest[i],
            "mount="@,
        ) && (starts_with(rest[i], "flags="@) || starts_with(rest[i], "keyid="@)) by {
            assert(rest[i] == list[i]);
        }
        lemma_options_without_mount(rest);
        let field = list.last();
        assert(field == list[list.len() - 1]);
        lemma_keys_differ(field);
        if exists|i: int| 0 <= i < list.len() && starts_with(#[trigger] list[i], "keyid="@) {
            let i = choose|i: int| 0 <= i < list.len() && starts_with(#[trigger] list[i], "keyid="@);
            if i < rest.len() {
                assert(rest[i] == list[i]);
            }
        }
        if exists|i: int| 0 <= i < rest.len() && starts_with(#[trigger] rest[i], "keyid="@) {
            let i = choose|i: int| 0 <= i < rest.len() && starts_with(#[trigger] rest[i], "keyid="@);
            assert(rest[i] == list[i]);
        }
    }
}

/// The `key=value` fields of a token give a key but no mount path: each of
/// them is a `flags=` or a `keyid=` field, and one is a `keyid=` field.
pub open spec fn key_without_mount(options: Seq<Seq<char>>) -> bool {
    &&& forall|i: int|
        0 <= i < options.len() ==> !starts_with(#[trigger] options[i], "mount="@) && (starts_with(
            options[i],
            "flags="@,
        ) || starts_with(options[i], "keyid="@))
    &&& exists|i: int| 0 <= i < options.len() && starts_with(#[trigger] options[i], "keyid="@)
}

/// A key needs a mount path: a reuse token with a `keyid=` field and no
/// `mount=` field is refused for that, where nothing before is wrong with it.
pub proof fn law_reuse_key_needs_mount(token: Seq<char>)
    requires
        3 <= fields(token, ':').len() <= 5,
        partition_of(fields(token, ':')[1]) is Ok,
        optional_filesystem_of(fields(token, ':')[2]) is Ok,
        key_without_mount(fields(token, ':').skip(3)),
    ensures
        reuse_of(token) == Err::<OperationView, ConfigErrorView>(
            ConfigErrorView::MountRequiredWithKey,
        ),
{
    lemma_options_without_mount(fields(token, ':').skip(3));
}

/// A key needs a mount path: a create token with a `keyid=` field and no
/// `mount=` field is refused for that, where nothing before is wrong with it.
pub proof fn law_create_key_needs_mount(token: Seq<char>)
    requires
        5 <= fields(token, ':').len() <= 7,
        partition_type_of(fields(token, ':')[1]) is Ok,
        sector_of(fields(token, ':')[2]) is Ok,
        sector_of(fields(token, ':')[3]) is Ok,
        filesystem_of(fields(token, ':')[4]) is Ok,
        key_without_mount(fields(token, ':').skip(5)),
    ensures
        create_of(token) == Err::<OperationView, ConfigErrorView>(
            ConfigErrorView::MountRequiredWithKey,
        ),
{
    lemma_options_without_mount(fields(token, ':').skip(5));
}

/// Two `key=value` fields have one key.
pub open spec fn same_key(a: Seq<char>, b: Seq<char>) -> bool {
    ||| starts_with(a, "mount="@) && starts_with(b, "mount="@)
    ||| starts_with(a, "flags="@) && starts_with(b, "flags="@)
    ||| starts_with(a, "keyid="@) && starts_with(b, "keyid="@)
}

/// The list with the fields at `i` and `i + 1` exchanged.
pub open spec fn exchanged(list: Seq<Seq<char>>, i: int) -> Seq<Seq<char>> {
    list.update(i, list[i + 1]).update(i + 1, list[i])
}

/// Where the whole run is taken, so is every beginning of it.
proof fn lemma_options_begin(list: Seq<Seq<char>>, logical: bool, k: int)
    requires
        0 <= k <= list.len(),
        options_of(list, logical) is Ok,
    ensures
        options_of(list.take(k), logical) is Ok,
{
    if options_of(list.take(k), logical) is Err {
        lemma_options_fail(list, logical, k);
    }
}

/// What follows a beginning is read the same after another beginning that
/// gave the same.
proof fn lemma_options_continue(
    one: Seq<Seq<char>>,
    other: Seq<Seq<char>>,
    rest: Seq<Seq<char>>,
    logical: bool,
)
    requires
        options_of(one, logical) == options_of(other, logical),
    ensures
        options_of(one + rest, logical) == options_of(other + rest, logical),
    decreases rest.len(),
{
    if rest.len() == 0 {
        assert(one + rest =~= one);
        assert(other + rest =~= other);
    } else {
        lemma_options_continue(one, other, rest.drop_last(), logical);
        assert((one + rest).drop_last() =~= one + rest.drop_last());
        assert((other + rest).drop_last() =~= other + rest.drop_last());
    }
}

/// The three keys begin with different letters: no field has two of them.
proof fn lemma_keys_differ(field: Seq<char>)
    ensures
        !(starts_with(field, "mount="@) && starts_with(field, "flags="@)),
        !(starts_with(field, "mount="@) && starts_with(field, "keyid="@)),
        !(starts_with(field, "flags="@) && starts_with(field, "keyid="@)),
{
    reveal_strlit("mount=");
    reveal_strlit("flags=");
    reveal_strlit("keyid=");
    assert("mount="@[0] == 'm');
    assert("flags="@[0] == 'f');
    assert("keyid="@[0] == 'k');
    if field.len() >= 6 {
        assert(field.subrange(0, 6)[0] == field[0]);
    }
}

/// The fields after the fixed ones may come in any order: where a run of them
/// is taken, it gives the same with two neighbours of different keys
/// exchanged.
pub proof fn law_options_in_any_order(list: Seq<Seq<char>>, logical: bool, i: int)
    requires
        0 <= i,
        i + 1 < list.len(),
        options_of(list, logical) is Ok,
        !same_key(list[i], list[i + 1]),
    ensures
        options_of(exchanged(list, i), logical) == options_of(list, logical),
{
    let other = exchanged(list, i);
    let begin = list.take(i);
    lemma_options_begin(list, logical, i);
    lemma_options_begin(list, logical, i + 1);
    lemma_options_begin(list, logical, i + 2);
    let so_far = options_of(begin, logical)->Ok_0;
    let (a, b) = (list[i], list[i + 1]);
    lemma_keys_differ(a);
    lemma_keys_differ(b);
    assert(list.take(i + 1).drop_last() =~= begin);
    assert(list.take(i + 2).drop_last() =~= list.take(i + 1));
    assert(other.take(i + 1).drop_last() =~= begin);
    assert(other.take(i + 2).drop_last() =~= other.take(i + 1));
    assert(options_of(list.take(i + 1), logical) == with_option(so_far, a, logical));
    assert(options_of(other.take(i + 1), logical) == with_option(so_far, b, logical));
    assert(options_of(other.take(i + 2), logical) == options_of(list.take(i + 2), logical));
    let rest = list.skip(i + 2);
    lemma_options_continue(list.take(i + 2), other.take(i + 2), rest, logical);
    assert(list.take(i + 2) + rest =~= list);
    assert(other.take(i + 2) + rest =~= other);
}

} // verus!
