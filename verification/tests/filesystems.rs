use diskspec::error::ConfigError;
use diskspec::filesystem::{parse_fs, parse_part_type, Encryption, FileSystem, PartitionType};

fn volume(group: &str, encryption: Option<Encryption>) -> FileSystem {
    FileSystem::LogicalVolume { volume_group: group.to_string(), encryption }
}

fn encryption(pv: &str, passphrase: Option<&str>, keyfile: Option<&str>) -> Encryption {
    Encryption {
        physical_volume: pv.to_string(),
        passphrase: passphrase.map(|p| p.to_string()),
        keyfile: keyfile.map(|k| k.to_string()),
    }
}

#[test]
fn an_encrypted_volume_with_a_passphrase() {
    assert_eq!(
        parse_fs("enc=pv1,vg1,pass=secret"),
        Ok(volume("vg1", Some(encryption("pv1", Some("secret"), None))))
    );
}

#[test]
fn without_credentials_there_is_no_encryption() {
    assert_eq!(parse_fs("enc=pv1,vg1"), Ok(volume("vg1", None)));
}

#[test]
fn an_encrypted_volume_with_a_key_file() {
    assert_eq!(
        parse_fs("enc=pv1,vg1,keyfile=/etc/key"),
        Ok(volume("vg1", Some(encryption("pv1", None, Some("/etc/key")))))
    );
}

#[test]
fn an_encrypted_volume_with_both_credentials() {
    let both = Ok(volume("vg1", Some(encryption("pv1", Some("s"), Some("k")))));
    assert_eq!(parse_fs("enc=pv1,vg1,pass=s,keyfile=k"), both);
    assert_eq!(parse_fs("enc=pv1,vg1,keyfile=k,pass=s"), both);
}

#[test]
fn of_two_credentials_of_one_kind_the_later_counts() {
    assert_eq!(
        parse_fs("enc=pv1,vg1,pass=a,pass=b"),
        Ok(volume("vg1", Some(encryption("pv1", Some("b"), None))))
    );
}

#[test]
fn a_credential_may_hold_an_equals_sign() {
    assert_eq!(
        parse_fs("enc=pv1,vg1,pass=a=b"),
        Ok(volume("vg1", Some(encryption("pv1", Some("a=b"), None))))
    );
}

#[test]
fn a_missing_physical_volume_is_refused() {
    assert_eq!(parse_fs("enc="), Err(ConfigError::MissingPhysicalVolume));
    assert_eq!(parse_fs("enc=,vg1"), Err(ConfigError::MissingPhysicalVolume));
    assert_eq!(parse_fs("enc=,vg1,pass=x"), Err(ConfigError::MissingPhysicalVolume));
}

#[test]
fn a_missing_volume_group_is_refused() {
    assert_eq!(parse_fs("enc=pv1"), Err(ConfigError::MissingVolumeGroup));
    assert_eq!(parse_fs("enc=pv1,"), Err(ConfigError::MissingVolumeGroup));
    assert_eq!(parse_fs("enc=pv1,,pass=x"), Err(ConfigError::MissingVolumeGroup));
    assert_eq!(parse_fs("lvm="), Err(ConfigError::MissingVolumeGroup));
    assert_eq!(parse_fs("lvm=,vg"), Err(ConfigError::MissingVolumeGroup));
}

#[test]
fn an_empty_credential_is_refused() {
    assert_eq!(parse_fs("enc=pv1,vg1,pass="), Err(ConfigError::EmptyCredential));
    assert_eq!(parse_fs("enc=pv1,vg1,keyfile="), Err(ConfigError::EmptyCredential));
    assert_eq!(parse_fs("enc=pv1,vg1,pass=x,keyfile="), Err(ConfigError::EmptyCredential));
}

#[test]
fn a_field_that_is_no_credential_is_refused() {
    assert_eq!(
        parse_fs("enc=pv1,vg1,key=x"),
        Err(ConfigError::InvalidField("key=x".to_string()))
    );
    assert_eq!(parse_fs("enc=pv1,vg1,"), Err(ConfigError::InvalidField("".to_string())));
    assert_eq!(
        parse_fs("enc=pv1,vg1,pass"),
        Err(ConfigError::InvalidField("pass".to_string()))
    );
}

#[test]
fn the_first_wrong_field_decides() {
    assert_eq!(
        parse_fs("enc=pv1,vg1,bogus,pass="),
        Err(ConfigError::InvalidField("bogus".to_string()))
    );
    assert_eq!(parse_fs("enc=pv1,vg1,pass=,bogus"), Err(ConfigError::EmptyCredential));
}

#[test]
fn a_plain_volume_of_a_group() {
    assert_eq!(parse_fs("lvm=vg0"), Ok(volume("vg0", None)));
}

#[test]
fn what_follows_the_group_of_a_plain_volume_is_passed_over() {
    assert_eq!(parse_fs("lvm=vg0,pass=x,whatever"), Ok(volume("vg0", None)));
}

#[test]
fn other_tokens_name_a_file_system() {
    for name in ["ext4", "fat32", "swap", "", "lvm", "enc", "LVM=vg", "nonsense", "xfs,lvm=vg"] {
        assert_eq!(parse_fs(name), Ok(FileSystem::Plain(name.to_string())));
    }
}

#[test]
fn partition_types_are_read() {
    assert_eq!(parse_part_type("primary"), Ok(PartitionType::Primary));
    assert_eq!(parse_part_type("logical"), Ok(PartitionType::Logical));
}

#[test]
fn other_partition_types_are_refused() {
    for token in ["", "Primary", "extended", "primary ", "log"] {
        assert_eq!(
            parse_part_type(token),
            Err(ConfigError::InvalidPartitionType(token.to_string()))
        );
    }
}
