//! A small language for describing what is to be done to the disks of a
//! machine before a system is installed on them.
//!
//! An operation is one token of fields separated by colons, such as
//! `/dev/sda:primary:start:512MiB:fat32:mount=/boot/efi:flags=esp`. There are
//! six kinds of operation: relabel a disk, delete partitions, move or resize a
//! partition, reuse a partition, create a partition, and create a logical
//! volume in a volume group.
//!
//! The library reads tokens into validated operations ([`operation`]) and puts
//! the operations of a configuration into the order in which they must be
//! carried out ([`plan`]). It never touches a disk. The disks, their
//! partitions and the volume groups belong to a disk model that the caller
//! owns: the caller takes the steps of a plan one by one, asks the model, and
//! lets the functions of [`model`] turn a missing answer into an error.
//!
//! Every function is verified against a mathematical description of its
//! result, given over the characters of its input: [`text::fields`],
//! [`sector::sector_of`], [`flags::flags_of`], [`filesystem::filesystem_of`],
//! [`operation::operation_of`] and [`plan::plan_of`]. No function panics.

pub mod error;
pub mod filesystem;
pub mod flags;
pub mod model;
pub mod operation;
pub mod plan;
pub mod sector;
pub mod text;
