//! What a partition is to hold: a file system, or a physical volume of a
//! volume group, with or without encryption.

use crate::error::{outcome, ConfigError, ConfigErrorView};
use crate::text::{fields, same_text, split, starts_with, strip_prefix};
use vstd::prelude::*;

verus! {

/// Whether a partition is a primary or a logical one.
#[derive(Debug, Clone, Copy, PartialEq, Eq, Structural)]
pub enum PartitionType {
    Primary,
    Logical,
}

/// How the physical volume of a volume group is encrypted.
#[derive(Debug, Clone, PartialEq, Eq)]
pub struct Encryption {
    /// The name of the physical volume.
    pub physical_volume: String,
    /// The passphrase that unlocks it, if there is one.
    pub passphrase: Option<String>,
    /// The path of the key file that unlocks it, if there is one.
    pub keyfile: Option<String>,
}

/// The mathematical value of an [`Encryption`].
pub struct EncryptionView {
    pub physical_volume: Seq<char>,
    pub passphrase: Option<Seq<char>>,
    pub keyfile: Option<Seq<char>>,
}

impl DeepView for Encryption {
    type V = EncryptionView;

    open spec fn deep_view(&self) -> EncryptionView {
        EncryptionView {
            physical_volume: self.physical_volume@,
            passphrase: self.passphrase.deep_view(),
            keyfile: self.keyfile.deep_view(),
        }
    }
}

/// What a partition is formatted as.
#[derive(Debug, Clone, PartialEq, Eq)]
pub enum FileSystem {
    /// A file system, by the name under which the disk model knows it.
    Plain(String),
    /// A physical volume of the named volume group. It is encrypted where an
    /// encryption is given.
    LogicalVolume { volume_group: String, encryption: Option<Encryption> },
}

/// The mathematical value of a [`FileSystem`].
pub enum FileSystemView {
    Plain(Seq<char>),
    LogicalVolume { volume_group: Seq<char>, encryption: Option<EncryptionView> },
}

impl DeepView for FileSystem {
    type V = FileSystemView;

    open spec fn deep_view(&self) -> FileSystemView {
        match *self {
            FileSystem::Plain(name) => FileSystemView::Plain(name@),
            FileSystem::LogicalVolume { volume_group, encryption } => {
                FileSystemView::LogicalVolume {
                    volume_group: volume_group@,
                    encryption: encryption.deep_view(),
                }
            },
        }
    }
}

/// The partition type that a token names.
pub open spec fn partition_type_of(token: Seq<char>) -> Result<PartitionType, ConfigErrorView> {
    if token == "primary"@ {
        Ok(PartitionType::Primary)
    } else if token == "logical"@ {
        Ok(PartitionType::Logical)
    } else {
        Err(ConfigErrorView::InvalidPartitionType(token))
    }
}

/// Reads a partition type: `primary` or `logical`.
pub fn parse_part_type(token: &str) -> (kind: Result<PartitionType, ConfigError>)
    ensures
        match kind {
            Ok(k) => partition_type_of(token@) == Ok::<PartitionType, ConfigErrorView>(k),
            Err(e) => partition_type_of(token@) == Err::<PartitionType, ConfigErrorView>(
                e.deep_view(),
            ),
        },
{
    if same_text(token, "primary") {
        Ok(PartitionType::Primary)
    } else if same_text(token, "logical") {
        Ok(PartitionType::Logical)
    } else {
        Err(ConfigError::InvalidPartitionType(token.to_owned()))
    }
}

/// The passphrase and the key file that a run of credential fields gives. Each
/// field is `pass=` or `keyfile=` with a value that is not empty; of two
/// fields of one kind the later one counts. The first field that is neither,
/// or is empty, decides the error.
pub open spec fn credentials(list: Seq<Seq<char>>) -> Result<
    (Option<Seq<char>>, Option<Seq<char>>),
    ConfigErrorView,
>
    decreases list.len(),
{
    if list.len() == 0 {
        Ok((None, None))
    } else {
        match credentials(list.drop_last()) {
            Err(error) => Err(error),
            Ok((passphrase, keyfile)) => {
                let field = list.last();
                if starts_with(field, "pass="@) {
                    let value = field.skip("pass="@.len() as int);
                    if value.len() == 0 {
                        Err(ConfigErrorView::EmptyCredential)
                    } else {
                        Ok((Some(value), keyfile))
                    }
                } else if starts_with(field, "keyfile="@) {
                    let value = field.skip("keyfile="@.len() as int);
                    if value.len() == 0 {
                        Err(ConfigErrorView::EmptyCredential)
                    } else {
                        Ok((passphrase, Some(value)))
                    }
                } else {
                    Err(ConfigErrorView::InvalidField(field))
                }
            },
        }
    }
}

/// What follows `enc=`: the physical volume, the volume group, then
/// credentials, separated by commas. Both names must be there and not empty.
/// The volume is encrypted only where a credential is given.
pub open spec fn encrypted_volume_of(list: Seq<char>) -> Result<FileSystemView, ConfigErrorView> {
    let parts = fields(list, ',');
    if parts[0].len() == 0 {
        Err(ConfigErrorView::MissingPhysicalVolume)
    } else if parts.len() < 2 || parts[1].len() == 0 {
        Err(ConfigErrorView::MissingVolumeGroup)
    } else {
        match credentials(parts.skip(2)) {
            Err(error) => Err(error),
            Ok((passphrase, keyfile)) => Ok(
                FileSystemView::LogicalVolume {
                    volume_group: parts[1],
                    encryption: if passphrase is None && keyfile is None {
                        None
                    } else {
                        Some(EncryptionView { physical_volume: parts[0], passphrase, keyfile })
                    },
                },
            ),
        }
    }
}

/// What follows `lvm=`: the volume group, which must not be empty, up to the
/// first comma.
pub open spec fn volume_of(list: Seq<char>) -> Result<FileSystemView, ConfigErrorView> {
    let parts = fields(list, ',');
    if parts[0].len() == 0 {
        Err(ConfigErrorView::MissingVolumeGroup)
    } else {
        Ok(FileSystemView::LogicalVolume { volume_group: parts[0], encryption: None })
    }
}

/// What a file-system token asks for. A token that begins with neither `enc=`
/// nor `lvm=` is the name of a file system.
pub open spec fn filesystem_of(token: Seq<char>) -> Result<FileSystemView, ConfigErrorView> {
    if starts_with(token, "enc="@) {
        encrypted_volume_of(token.skip("enc="@.len() as int))
    } else if starts_with(token, "lvm="@) {
        volume_of(token.skip("lvm="@.len() as int))
    } else {
        Ok(FileSystemView::Plain(token))
    }
}

/// Reads what follows `enc=`.
fn parse_encrypted(list: &str) -> (fs: Result<FileSystem, ConfigError>)
    ensures
        outcome(fs) == encrypted_volume_of(list@),
{
    let parts = split(list, ',');
    let ghost all = fields(list@, ',');
    assert(parts.deep_view()[0] == parts[0]@);
    if parts[0].is_empty() {
        return Err(ConfigError::MissingPhysicalVolume);
    }
    if parts.len() < 2 {
        return Err(ConfigError::MissingVolumeGroup);
    }
    assert(parts.deep_view()[1] == parts[1]@);
    if parts[1].is_empty() {
        return Err(ConfigError::MissingVolumeGroup);
    }
    let ghost rest = all.skip(2);
    let mut passphrase: Option<String> = None;
    let mut keyfile: Option<String> = None;
    let mut at: usize = 2;
    assert(rest.take(0) =~= Seq::<Seq<char>>::empty());
    while at < parts.len()
        invariant
            2 <= at <= parts.len(),
            parts.deep_view() == all,
            all == fields(list@, ','),
            all[0].len() > 0,
            all[1].len() > 0,
            rest == all.skip(2),
            credentials(rest.take(at - 2)) == Ok::<_, ConfigErrorView>(
                (passphrase.deep_view(), keyfile.deep_view()),
            ),
        decreases parts.len() - at,
    {
        let field = parts[at];
        proof {
            assert(parts.deep_view()[at as int] == field@);
            assert(rest.take(at - 2 + 1).drop_last() =~= rest.take(at - 2));
            assert(rest.take(at - 2 + 1).last() == field@);
        }
        match strip_prefix(field, "pass=") {
            Some(value) => {
                if value.is_empty() {
                    proof {
                        lemma_credentials_fail(rest, at - 2 + 1);
                    }
                    return Err(ConfigError::EmptyCredential);
                }
                passphrase = Some(value.to_owned());
            },
            None => match strip_prefix(field, "keyfile=") {
                Some(value) => {
                    if value.is_empty() {
                        proof {
                            lemma_credentials_fail(rest, at - 2 + 1);
                        }
                        return Err(ConfigError::EmptyCredential);
                    }
                    keyfile = Some(value.to_owned());
                },
                None => {
                    proof {
                        lemma_credentials_fail(rest, at - 2 + 1);
                    }
                    return Err(ConfigError::InvalidField(field.to_owned()));
                },
            },
        }
        at = at + 1;
    }
    assert(rest.take(at - 2) =~= rest);
    let encryption = if passphrase.is_none() && keyfile.is_none() {
        None
    } else {
        Some(Encryption { physical_volume: parts[0].to_owned(), passphrase, keyfile })
    };
    Ok(FileSystem::LogicalVolume { volume_group: parts[1].to_owned(), encryption })
}

/// An error among the first fields is the error of the whole run.
proof fn lemma_credentials_fail(list: Seq<Seq<char>>, k: int)
    requires
        0 <= k <= list.len(),
        credentials(list.take(k)) is Err,
    ensures
        credentials(list) == credentials(list.take(k)),
    decreases list.len() - k,
{
    if k == list.len() {
        assert(list.take(k) =~= list);
    } else {
        assert(list.take(k + 1).drop_last() =~= list.take(k));
        lemma_credentials_fail(list, k + 1);
    }
}

/// Reads a file-system token: `enc=` and what follows, `lvm=` and what
/// follows, or the name of a file system.
pub fn parse_fs(token: &str) -> (fs: Result<FileSystem, ConfigError>)
    ensures
        outcome(fs) == filesystem_of(token@),
{
    match strip_prefix(token, "enc=") {
        Some(list) => parse_encrypted(list),
        None => match strip_prefix(token, "lvm=") {
            Some(list) => {
                let parts = split(list, ',');
                assert(parts.deep_view()[0] == parts[0]@);
                if parts[0].is_empty() {
                    Err(ConfigError::MissingVolumeGroup)
                } else {
                    Ok(
                        FileSystem::LogicalVolume {
                            volume_group: parts[0].to_owned(),
                            encryption: None,
                        },
                    )
                }
            },
            None => Ok(FileSystem::Plain(token.to_owned())),
        },
    }
}

/// A volume read from an `enc=` token is encrypted exactly when the token
/// holds a credential, that is a field after the volume group.
pub proof fn law_encryption_needs_a_credential(list: Seq<char>)
    requires
        encrypted_volume_of(list) is Ok,
    ensures
        encrypted_volume_of(list)->Ok_0 is LogicalVolume,
        encrypted_volume_of(list)->Ok_0->encryption is Some <==> fields(list, ',').len() > 2,
{
    let rest = fields(list, ',').skip(2);
    if rest.len() > 0 {
        assert(credentials(rest.drop_last()) is Ok);
    }
}

} // verus!
