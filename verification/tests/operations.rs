use diskspec::error::ConfigError;
use diskspec::filesystem::{Encryption, FileSystem, PartitionType};
use diskspec::flags::PartitionFlag;
use diskspec::operation::{
    parse_create, parse_delete, parse_logical, parse_move, parse_operation, parse_partition,
    parse_relabel, parse_reuse, parse_table, Mount, Operation, OperationKind, PartitionTable,
};
use diskspec::sector::Sector;

fn too_few(kind: OperationKind) -> ConfigError {
    ConfigError::TooFewFields { kind, least: kind.min_fields(), most: kind.max_fields() }
}

fn too_many(kind: OperationKind) -> ConfigError {
    ConfigError::TooManyFields { kind, least: kind.min_fields(), most: kind.max_fields() }
}

fn sector(token: &str, expression: &str) -> Sector {
    Sector { token: token.to_string(), expression: expression.to_string() }
}

fn plain(token: &str) -> Sector {
    sector(token, token)
}

fn text(s: &str) -> String {
    s.to_string()
}

// The number of fields.

#[test]
fn a_create_token_with_four_fields_has_too_few() {
    assert_eq!(
        parse_create("sda:primary:start:end"),
        Err(too_few(OperationKind::Create))
    );
}

#[test]
fn a_create_token_with_eight_fields_has_too_many() {
    assert_eq!(
        parse_create("sda:primary:start:end:ext4:mount=/:flags=boot:keyid=k"),
        Err(too_many(OperationKind::Create))
    );
}

#[test]
fn the_bounds_of_every_kind() {
    assert_eq!(OperationKind::Relabel.min_fields(), 2);
    assert_eq!(OperationKind::Relabel.max_fields(), Some(2));
    assert_eq!(OperationKind::Delete.min_fields(), 1);
    assert_eq!(OperationKind::Delete.max_fields(), None);
    assert_eq!(OperationKind::Move.min_fields(), 4);
    assert_eq!(OperationKind::Move.max_fields(), Some(4));
    assert_eq!(OperationKind::Reuse.min_fields(), 3);
    assert_eq!(OperationKind::Reuse.max_fields(), Some(5));
    assert_eq!(OperationKind::Create.min_fields(), 5);
    assert_eq!(OperationKind::Create.max_fields(), Some(7));
    assert_eq!(OperationKind::CreateLogical.min_fields(), 4);
    assert_eq!(OperationKind::CreateLogical.max_fields(), Some(6));
}

#[test]
fn too_few_fields_are_refused_for_every_kind() {
    let kinds = [
        OperationKind::Relabel,
        OperationKind::Move,
        OperationKind::Reuse,
        OperationKind::Create,
        OperationKind::CreateLogical,
    ];
    for kind in kinds {
        let fields = vec!["x"; kind.min_fields() - 1];
        assert_eq!(
            parse_operation(kind, &fields.join(":")),
            Err(too_few(kind))
        );
    }
}

#[test]
fn too_many_fields_are_refused_for_every_kind() {
    let kinds = [
        OperationKind::Relabel,
        OperationKind::Move,
        OperationKind::Reuse,
        OperationKind::Create,
        OperationKind::CreateLogical,
    ];
    for kind in kinds {
        let fields = vec!["x"; kind.max_fields().unwrap() + 1];
        assert_eq!(
            parse_operation(kind, &fields.join(":")),
            Err(too_many(kind))
        );
    }
}

#[test]
fn the_number_of_fields_is_checked_before_the_fields() {
    assert_eq!(
        parse_create("sda:bogus:bogusMiB:end"),
        Err(too_few(OperationKind::Create))
    );
    assert_eq!(parse_move("sda:x:y"), Err(too_few(OperationKind::Move)));
    assert_eq!(
        parse_reuse("sda:x:enc=:a:b:c"),
        Err(too_many(OperationKind::Reuse))
    );
}

// Relabel.

#[test]
fn a_disk_is_relabelled() {
    assert_eq!(
        parse_relabel("/dev/sda:gpt"),
        Ok(Operation::Relabel { disk: text("/dev/sda"), table: PartitionTable::Gpt })
    );
    assert_eq!(
        parse_relabel("/dev/sdb:msdos"),
        Ok(Operation::Relabel { disk: text("/dev/sdb"), table: PartitionTable::Msdos })
    );
}

#[test]
fn a_relabel_token_has_two_fields() {
    assert_eq!(parse_relabel("sda"), Err(too_few(OperationKind::Relabel)));
    assert_eq!(parse_relabel(""), Err(too_few(OperationKind::Relabel)));
    assert_eq!(
        parse_relabel("sda:gpt:x"),
        Err(too_many(OperationKind::Relabel))
    );
}

#[test]
fn an_unknown_table_is_refused() {
    assert_eq!(parse_relabel("sda:mbr"), Err(ConfigError::InvalidTable(text("mbr"))));
    assert_eq!(parse_relabel("sda:"), Err(ConfigError::InvalidTable(text(""))));
    assert_eq!(parse_table("GPT"), Err(ConfigError::InvalidTable(text("GPT"))));
    assert_eq!(parse_table("gpt"), Ok(PartitionTable::Gpt));
    assert_eq!(parse_table("msdos"), Ok(PartitionTable::Msdos));
}

// Delete.

#[test]
fn partitions_are_deleted_in_order() {
    assert_eq!(
        parse_delete("sda:3:1:2"),
        Ok(Operation::Delete { disk: text("sda"), partitions: vec![3, 1, 2] })
    );
}

#[test]
fn a_delete_token_may_name_no_partition() {
    assert_eq!(
        parse_delete("sda"),
        Ok(Operation::Delete { disk: text("sda"), partitions: vec![] })
    );
    assert_eq!(parse_delete(""), Ok(Operation::Delete { disk: text(""), partitions: vec![] }));
}

#[test]
fn a_partition_that_is_no_number_is_refused() {
    assert_eq!(parse_delete("sda:1:x:2"), Err(ConfigError::InvalidPartition(text("x"))));
    assert_eq!(parse_delete("sda:"), Err(ConfigError::InvalidPartition(text(""))));
    assert_eq!(parse_delete("sda:-1"), Err(ConfigError::InvalidPartition(text("-1"))));
    assert_eq!(
        parse_delete("sda:1:4294967296:y"),
        Err(ConfigError::InvalidPartition(text("4294967296")))
    );
    assert_eq!(parse_partition("12"), Ok(12));
    assert_eq!(parse_partition("1.5"), Err(ConfigError::InvalidPartition(text("1.5"))));
}

// Move.

#[test]
fn a_partition_is_moved_and_resized() {
    assert_eq!(
        parse_move("sda:2:2048:512MiB"),
        Ok(Operation::Move {
            disk: text("sda"),
            partition: 2,
            start: Some(plain("2048")),
            end: Some(sector("512MiB", "536M")),
        })
    );
}

#[test]
fn either_end_of_a_move_may_be_left_out() {
    assert_eq!(
        parse_move("sda:2:none:end"),
        Ok(Operation::Move {
            disk: text("sda"),
            partition: 2,
            start: None,
            end: Some(plain("end"))
        })
    );
    assert_eq!(
        parse_move("sda:2:start:none"),
        Ok(Operation::Move {
            disk: text("sda"),
            partition: 2,
            start: Some(plain("start")),
            end: None
        })
    );
    assert_eq!(
        parse_move("sda:2:none:none"),
        Ok(Operation::Move { disk: text("sda"), partition: 2, start: None, end: None })
    );
}

#[test]
fn a_move_token_has_four_fields() {
    assert_eq!(parse_move("sda:2:none"), Err(too_few(OperationKind::Move)));
    assert_eq!(
        parse_move("sda:2:none:none:none"),
        Err(too_many(OperationKind::Move))
    );
}

#[test]
fn the_fields_of_a_move_are_read_in_order() {
    assert_eq!(parse_move("sda:x:yMiB:zMiB"), Err(ConfigError::InvalidPartition(text("x"))));
    assert_eq!(parse_move("sda:1:yMiB:zMiB"), Err(ConfigError::InvalidSector(text("yMiB"))));
    assert_eq!(parse_move("sda:1:none:zMiB"), Err(ConfigError::InvalidSector(text("zMiB"))));
}

// Reuse.

#[test]
fn a_partition_is_reused_as_it_is() {
    assert_eq!(
        parse_reuse("sda:1:reuse"),
        Ok(Operation::Reuse {
            disk: text("sda"),
            partition: 1,
            format: None,
            mount: Mount::Unset,
            flags: None,
        })
    );
}

#[test]
fn a_reused_partition_is_formatted_and_mounted() {
    assert_eq!(
        parse_reuse("sda:1:ext4:mount=/:flags=boot,esp"),
        Ok(Operation::Reuse {
            disk: text("sda"),
            partition: 1,
            format: Some(FileSystem::Plain(text("ext4"))),
            mount: Mount::At(text("/")),
            flags: Some(vec![PartitionFlag::Boot, PartitionFlag::Esp]),
        })
    );
}

#[test]
fn the_fields_after_the_fixed_ones_come_in_any_order() {
    assert_eq!(parse_reuse("sda:1:ext4:flags=boot:mount=/"), parse_reuse("sda:1:ext4:mount=/:flags=boot"));
    assert_eq!(
        parse_reuse("sda:1:reuse:keyid=k:mount=/home"),
        parse_reuse("sda:1:reuse:mount=/home:keyid=k")
    );
}

#[test]
fn a_key_with_a_mount_path() {
    assert_eq!(
        parse_reuse("sda:1:reuse:mount=/home:keyid=homekey"),
        Ok(Operation::Reuse {
            disk: text("sda"),
            partition: 1,
            format: None,
            mount: Mount::Keyed { key: text("homekey"), path: text("/home") },
            flags: None,
        })
    );
}

#[test]
fn a_key_without_a_mount_path_is_refused() {
    assert_eq!(parse_reuse("sda:1:reuse:keyid=k"), Err(ConfigError::MountRequiredWithKey));
    assert_eq!(parse_reuse("sda:1:ext4:keyid=k:flags=boot"), Err(ConfigError::MountRequiredWithKey));
    assert_eq!(parse_reuse("sda:1:ext4:flags=boot:keyid="), Err(ConfigError::MountRequiredWithKey));
    assert_eq!(
        parse_create("sda:primary:start:end:ext4:keyid=k"),
        Err(ConfigError::MountRequiredWithKey)
    );
}

#[test]
fn a_reused_partition_becomes_a_physical_volume() {
    assert_eq!(
        parse_reuse("sda:1:enc=pv,vg,pass=x"),
        Ok(Operation::Reuse {
            disk: text("sda"),
            partition: 1,
            format: Some(FileSystem::LogicalVolume {
                volume_group: text("vg"),
                encryption: Some(Encryption {
                    physical_volume: text("pv"),
                    passphrase: Some(text("x")),
                    keyfile: None,
                }),
            }),
            mount: Mount::Unset,
            flags: None,
        })
    );
}

#[test]
fn flags_that_are_given_but_name_nothing_are_an_empty_list() {
    assert_eq!(
        parse_reuse("sda:1:reuse:flags="),
        Ok(Operation::Reuse {
            disk: text("sda"),
            partition: 1,
            format: None,
            mount: Mount::Unset,
            flags: Some(vec![]),
        })
    );
}

#[test]
fn an_empty_mount_path_is_taken_for_a_partition() {
    assert_eq!(
        parse_reuse("sda:1:reuse:mount="),
        Ok(Operation::Reuse {
            disk: text("sda"),
            partition: 1,
            format: None,
            mount: Mount::At(text("")),
            flags: None,
        })
    );
}

#[test]
fn of_two_fields_with_one_key_the_later_counts() {
    assert_eq!(
        parse_reuse("sda:1:reuse:mount=/a:mount=/b"),
        Ok(Operation::Reuse {
            disk: text("sda"),
            partition: 1,
            format: None,
            mount: Mount::At(text("/b")),
            flags: None,
        })
    );
}

#[test]
fn a_field_that_is_not_known_is_refused() {
    assert_eq!(
        parse_reuse("sda:1:reuse:label=x"),
        Err(ConfigError::InvalidArgument(text("label=x")))
    );
    assert_eq!(parse_reuse("sda:1:reuse:"), Err(ConfigError::InvalidArgument(text(""))));
    assert_eq!(
        parse_reuse("sda:1:reuse:mount"),
        Err(ConfigError::InvalidArgument(text("mount")))
    );
    assert_eq!(
        parse_create("sda:primary:start:end:ext4:/boot"),
        Err(ConfigError::InvalidArgument(text("/boot")))
    );
}

#[test]
fn the_fields_of_a_reuse_are_read_in_order() {
    assert_eq!(parse_reuse("sda:x:enc=:bogus"), Err(ConfigError::InvalidPartition(text("x"))));
    assert_eq!(parse_reuse("sda:1:enc=:bogus"), Err(ConfigError::MissingPhysicalVolume));
    assert_eq!(
        parse_reuse("sda:1:reuse:bogus:keyid=k"),
        Err(ConfigError::InvalidArgument(text("bogus")))
    );
    assert_eq!(
        parse_reuse("sda:1:reuse:keyid=k:bogus"),
        Err(ConfigError::InvalidArgument(text("bogus")))
    );
}

// Create.

#[test]
fn a_partition_is_created() {
    assert_eq!(
        parse_create("/dev/sda:primary:start:512MiB:fat32:mount=/boot/efi:flags=esp"),
        Ok(Operation::Create {
            disk: text("/dev/sda"),
            kind: PartitionType::Primary,
            start: plain("start"),
            end: sector("512MiB", "536M"),
            filesystem: FileSystem::Plain(text("fat32")),
            mount: Mount::At(text("/boot/efi")),
            flags: Some(vec![PartitionFlag::Esp]),
        })
    );
}

#[test]
fn a_logical_partition_for_a_volume_group_is_created() {
    assert_eq!(
        parse_create("sda:logical:536M:end:lvm=data"),
        Ok(Operation::Create {
            disk: text("sda"),
            kind: PartitionType::Logical,
            start: plain("536M"),
            end: plain("end"),
            filesystem: FileSystem::LogicalVolume { volume_group: text("data"), encryption: None },
            mount: Mount::Unset,
            flags: None,
        })
    );
}

#[test]
fn a_created_partition_with_a_key() {
    assert_eq!(
        parse_create("sda:primary:start:end:enc=cryptdata,data,keyfile=K:mount=/key:keyid=K"),
        Ok(Operation::Create {
            disk: text("sda"),
            kind: PartitionType::Primary,
            start: plain("start"),
            end: plain("end"),
            filesystem: FileSystem::LogicalVolume {
                volume_group: text("data"),
                encryption: Some(Encryption {
                    physical_volume: text("cryptdata"),
                    passphrase: None,
                    keyfile: Some(text("K")),
                }),
            },
            mount: Mount::Keyed { key: text("K"), path: text("/key") },
            flags: None,
        })
    );
}

#[test]
fn the_fields_of_a_create_are_read_in_order() {
    assert_eq!(
        parse_create("sda:bogus:aMiB:bMiB:enc=:x"),
        Err(ConfigError::InvalidPartitionType(text("bogus")))
    );
    assert_eq!(
        parse_create("sda:primary:aMiB:bMiB:enc=:x"),
        Err(ConfigError::InvalidSector(text("aMiB")))
    );
    assert_eq!(
        parse_create("sda:primary:1MiB:bMiB:enc=:x"),
        Err(ConfigError::InvalidSector(text("bMiB")))
    );
    assert_eq!(
        parse_create("sda:primary:1MiB:2MiB:enc=:x"),
        Err(ConfigError::MissingPhysicalVolume)
    );
    assert_eq!(
        parse_create("sda:primary:1MiB:2MiB:enc=a,b:x"),
        Err(ConfigError::InvalidArgument(text("x")))
    );
}

// Logical volumes.

#[test]
fn a_logical_volume_is_created() {
    assert_eq!(
        parse_logical("data:root:1000MiB:ext4:mount=/:flags=boot"),
        Ok(Operation::CreateLogical {
            group: text("data"),
            name: text("root"),
            size: sector("1000MiB", "1048M"),
            filesystem: text("ext4"),
            mount: Some(text("/")),
            flags: Some(vec![PartitionFlag::Boot]),
        })
    );
    assert_eq!(
        parse_logical("data:swap:4096:swap"),
        Ok(Operation::CreateLogical {
            group: text("data"),
            name: text("swap"),
            size: plain("4096"),
            filesystem: text("swap"),
            mount: None,
            flags: None,
        })
    );
}

#[test]
fn a_logical_volume_takes_no_key() {
    assert_eq!(
        parse_logical("data:root:10M:ext4:mount=/:keyid=k"),
        Err(ConfigError::InvalidArgument(text("keyid=k")))
    );
}

#[test]
fn a_logical_volume_takes_no_empty_value() {
    assert_eq!(
        parse_logical("data:root:10M:ext4:mount="),
        Err(ConfigError::InvalidArgument(text("mount=")))
    );
    assert_eq!(
        parse_logical("data:root:10M:ext4:flags="),
        Err(ConfigError::InvalidArgument(text("flags=")))
    );
}

#[test]
fn a_logical_volume_cannot_be_a_physical_volume() {
    assert_eq!(
        parse_logical("data:root:10M:lvm=other"),
        Err(ConfigError::InvalidFilesystem(text("lvm=other")))
    );
    assert_eq!(
        parse_logical("data:root:10M:enc=pv,vg,pass=x"),
        Err(ConfigError::InvalidFilesystem(text("enc=pv,vg,pass=x")))
    );
    assert_eq!(parse_logical("data:root:10M:enc=pv"), Err(ConfigError::MissingVolumeGroup));
}

#[test]
fn a_logical_token_has_four_to_six_fields() {
    assert_eq!(
        parse_logical("data:root:10M"),
        Err(too_few(OperationKind::CreateLogical))
    );
    assert_eq!(
        parse_logical("data:root:10M:ext4:mount=/:flags=boot:mount=/"),
        Err(too_many(OperationKind::CreateLogical))
    );
}

#[test]
fn the_fields_after_the_fixed_ones_of_a_logical_volume_are_read_first() {
    assert_eq!(
        parse_logical("data:root:xMiB:enc=:bogus"),
        Err(ConfigError::InvalidArgument(text("bogus")))
    );
    assert_eq!(
        parse_logical("data:root:xMiB:enc=:mount=/"),
        Err(ConfigError::InvalidSector(text("xMiB")))
    );
    assert_eq!(
        parse_logical("data:root:1MiB:enc=:mount=/"),
        Err(ConfigError::MissingPhysicalVolume)
    );
}

#[test]
fn an_operation_is_read_as_its_kind() {
    assert_eq!(parse_operation(OperationKind::Relabel, "sda:gpt"), parse_relabel("sda:gpt"));
    assert_eq!(parse_operation(OperationKind::Delete, "sda:1"), parse_delete("sda:1"));
    assert_eq!(
        parse_operation(OperationKind::Move, "sda:1:none:end"),
        parse_move("sda:1:none:end")
    );
    assert_eq!(parse_operation(OperationKind::Reuse, "sda:1:reuse"), parse_reuse("sda:1:reuse"));
    assert_eq!(
        parse_operation(OperationKind::Create, "sda:primary:start:end:ext4"),
        parse_create("sda:primary:start:end:ext4")
    );
    assert_eq!(
        parse_operation(OperationKind::CreateLogical, "vg:lv:10M:ext4"),
        parse_logical("vg:lv:10M:ext4")
    );
    assert!(parse_operation(OperationKind::Relabel, "sda:gpt").is_ok());
    assert!(parse_operation(OperationKind::CreateLogical, "sda:gpt").is_err());
}
