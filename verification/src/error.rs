//! What can be wrong with a description of disk operations.

use crate::operation::OperationKind;
use vstd::prelude::*;

verus! {

/// The reason a token, or the operation it describes, is refused.
#[derive(Debug, Clone, PartialEq, Eq)]
pub enum ConfigError {
    /// The token has fewer fields than its kind of operation needs. `least`
    /// and `most` are the bounds for the kind; `most` is `None` where there
    /// is no upper bound.
    TooFewFields { kind: OperationKind, least: usize, most: Option<usize> },
    /// The token has more fields than its kind of operation takes. `least`
    /// and `most` are the bounds for the kind.
    TooManyFields { kind: OperationKind, least: usize, most: Option<usize> },
    /// A field after the fixed ones is none of the `key=value` fields that the
    /// operation takes, or its value is empty where the operation wants one;
    /// the field is given.
    InvalidArgument(String),
    /// A `keyid=` field stands without a `mount=` field.
    MountRequiredWithKey,
    /// The token is no sector expression.
    InvalidSector(String),
    /// The token names no file system that can be used in its place.
    InvalidFilesystem(String),
    /// An `enc=` field names no physical volume.
    MissingPhysicalVolume,
    /// An `enc=` or `lvm=` field names no volume group.
    MissingVolumeGroup,
    /// A `pass=` or `keyfile=` field is empty.
    EmptyCredential,
    /// A field of an `enc=` list is neither `pass=` nor `keyfile=`; the field is
    /// given.
    InvalidField(String),
    /// The token is neither `primary` nor `logical`.
    InvalidPartitionType(String),
    /// The token is neither `gpt` nor `msdos`.
    InvalidTable(String),
    /// The token is no partition number.
    InvalidPartition(String),
    /// No disk has this name.
    DiskNotFound(String),
    /// The disk has no partition with this number.
    PartitionNotFound(u32),
    /// No volume group has this name.
    VolumeGroupNotFound(String),
}

/// The mathematical value of a [`ConfigError`].
pub enum ConfigErrorView {
    TooFewFields { kind: OperationKind, least: usize, most: Option<usize> },
    TooManyFields { kind: OperationKind, least: usize, most: Option<usize> },
    InvalidArgument(Seq<char>),
    MountRequiredWithKey,
    InvalidSector(Seq<char>),
    InvalidFilesystem(Seq<char>),
    MissingPhysicalVolume,
    MissingVolumeGroup,
    EmptyCredential,
    InvalidField(Seq<char>),
    InvalidPartitionType(Seq<char>),
    InvalidTable(Seq<char>),
    InvalidPartition(Seq<char>),
    DiskNotFound(Seq<char>),
    PartitionNotFound(u32),
    VolumeGroupNotFound(Seq<char>),
}

impl DeepView for ConfigError {
    type V = ConfigErrorView;

    open spec fn deep_view(&self) -> ConfigErrorView {
        match *self {
            ConfigError::TooFewFields { kind, least, most } => ConfigErrorView::TooFewFields {
                kind,
                least,
                most,
            },
            ConfigError::TooManyFields { kind, least, most } => ConfigErrorView::TooManyFields {
                kind,
                least,
                most,
            },
            ConfigError::InvalidArgument(field) => ConfigErrorView::InvalidArgument(field@),
            ConfigError::MountRequiredWithKey => ConfigErrorView::MountRequiredWithKey,
            ConfigError::InvalidSector(token) => ConfigErrorView::InvalidSector(token@),
            ConfigError::InvalidFilesystem(token) => ConfigErrorView::InvalidFilesystem(token@),
            ConfigError::MissingPhysicalVolume => ConfigErrorView::MissingPhysicalVolume,
            ConfigError::MissingVolumeGroup => ConfigErrorView::MissingVolumeGroup,
            ConfigError::EmptyCredential => ConfigErrorView::EmptyCredential,
            ConfigError::InvalidField(field) => ConfigErrorView::InvalidField(field@),
            ConfigError::InvalidPartitionType(token) => ConfigErrorView::InvalidPartitionType(
                token@,
            ),
            ConfigError::InvalidTable(token) => ConfigErrorView::InvalidTable(token@),
            ConfigError::InvalidPartition(token) => ConfigErrorView::InvalidPartition(token@),
            ConfigError::DiskNotFound(name) => ConfigErrorView::DiskNotFound(name@),
            ConfigError::PartitionNotFound(number) => ConfigErrorView::PartitionNotFound(number),
            ConfigError::VolumeGroupNotFound(name) => ConfigErrorView::VolumeGroupNotFound(name@),
        }
    }
}

/// The mathematical value of a result: that of what it holds, on either side.
pub open spec fn outcome<T: DeepView>(r: Result<T, ConfigError>) -> Result<T::V, ConfigErrorView> {
    match r {
        Ok(value) => Ok(value.deep_view()),
        Err(error) => Err(error.deep_view()),
    }
}

} // verus!
