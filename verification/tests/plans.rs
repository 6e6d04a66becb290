use diskspec::error::ConfigError;
use diskspec::filesystem::FileSystem;
use diskspec::model::found_volume_group;
use diskspec::operation::{parse_create, parse_logical, parse_relabel, Operation, OperationKind};
use diskspec::plan::{
    add_disks, configure, configure_disks, configure_lvm, configure_moved, configure_new,
    configure_removed, configure_reused, configure_tables, initialize_volume_groups, Arguments,
    Plan, Rejection, Step,
};

fn too_few(kind: OperationKind) -> ConfigError {
    ConfigError::TooFewFields { kind, least: kind.min_fields(), most: kind.max_fields() }
}

fn too_many(kind: OperationKind) -> ConfigError {
    ConfigError::TooManyFields { kind, least: kind.min_fields(), most: kind.max_fields() }
}

fn list(tokens: &[&str]) -> Vec<String> {
    tokens.iter().map(|token| token.to_string()).collect()
}

fn rank(step: &Step) -> u8 {
    match step {
        Step::AddDisk(_) => 0,
        Step::Apply(Operation::Relabel { .. }) => 1,
        Step::Apply(Operation::Delete { .. }) => 2,
        Step::Apply(Operation::Move { .. }) => 3,
        Step::Apply(Operation::Reuse { .. }) => 4,
        Step::Apply(Operation::Create { .. }) => 5,
        Step::InitializeVolumeGroups => 6,
        Step::Apply(Operation::CreateLogical { .. }) => 7,
    }
}

fn full() -> Arguments {
    Arguments {
        disks: list(&["/dev/sda", "/dev/sdb"]),
        tables: list(&["/dev/sda:gpt"]),
        removed: list(&["/dev/sdb:1:2"]),
        moved: list(&["/dev/sdb:3:none:end"]),
        reused: list(&["/dev/sdb:3:reuse:mount=/home"]),
        new: list(&[
            "/dev/sda:primary:start:512MiB:fat32:mount=/boot/efi:flags=esp",
            "/dev/sda:primary:512MiB:end:lvm=data",
        ]),
        logical: list(&["data:root:-4096M:ext4:mount=/", "data:swap:4096M:swap"]),
    }
}

#[test]
fn an_empty_configuration_only_sets_up_volume_groups() {
    let plan = configure_disks(&Arguments::default());
    assert_eq!(plan, Plan { steps: vec![Step::InitializeVolumeGroups], rejection: None });
}

#[test]
fn a_new_plan_is_empty() {
    assert_eq!(Plan::new(), Plan { steps: vec![], rejection: None });
}

#[test]
fn the_steps_of_a_configuration() {
    let plan = configure_disks(&full());
    assert_eq!(plan.rejection, None);
    let expected = vec![
        Step::AddDisk("/dev/sda".to_string()),
        Step::AddDisk("/dev/sdb".to_string()),
        Step::Apply(parse_relabel("/dev/sda:gpt").unwrap()),
        Step::Apply(Operation::Delete { disk: "/dev/sdb".to_string(), partitions: vec![1, 2] }),
        Step::Apply(diskspec::operation::parse_move("/dev/sdb:3:none:end").unwrap()),
        Step::Apply(diskspec::operation::parse_reuse("/dev/sdb:3:reuse:mount=/home").unwrap()),
        Step::Apply(
            parse_create("/dev/sda:primary:start:512MiB:fat32:mount=/boot/efi:flags=esp").unwrap(),
        ),
        Step::Apply(parse_create("/dev/sda:primary:512MiB:end:lvm=data").unwrap()),
        Step::InitializeVolumeGroups,
        Step::Apply(parse_logical("data:root:-4096M:ext4:mount=/").unwrap()),
        Step::Apply(parse_logical("data:swap:4096M:swap").unwrap()),
    ];
    assert_eq!(plan.steps, expected);
}

#[test]
fn the_steps_stand_in_the_fixed_order() {
    let plan = configure_disks(&full());
    let ranks: Vec<u8> = plan.steps.iter().map(rank).collect();
    assert_eq!(ranks, vec![0, 0, 1, 2, 3, 4, 5, 5, 6, 7, 7]);
}

#[test]
fn the_first_refused_token_ends_the_plan() {
    let mut arguments = full();
    arguments.moved = list(&["/dev/sdb:3:none:end", "/dev/sdb:x:none:end", "/dev/sdb:4:none:end"]);
    let plan = configure_disks(&arguments);
    assert_eq!(
        plan.rejection,
        Some(Rejection {
            kind: OperationKind::Move,
            token: "/dev/sdb:x:none:end".to_string(),
            error: ConfigError::InvalidPartition("x".to_string()),
        })
    );
    let ranks: Vec<u8> = plan.steps.iter().map(rank).collect();
    assert_eq!(ranks, vec![0, 0, 1, 2, 3]);
}

#[test]
fn a_refused_logical_volume_comes_after_the_volume_groups() {
    let mut arguments = full();
    arguments.logical = list(&["data:root:10M"]);
    let plan = configure_disks(&arguments);
    assert_eq!(
        plan.rejection,
        Some(Rejection {
            kind: OperationKind::CreateLogical,
            token: "data:root:10M".to_string(),
            error: too_few(OperationKind::CreateLogical),
        })
    );
    assert_eq!(plan.steps.last(), Some(&Step::InitializeVolumeGroups));
    assert_eq!(plan.steps.len(), 9);
}

#[test]
fn a_refused_token_of_an_early_stage_hides_the_later_ones() {
    let mut arguments = full();
    arguments.tables = list(&["/dev/sda:mbr"]);
    arguments.new = list(&["bogus"]);
    let plan = configure_disks(&arguments);
    assert_eq!(
        plan.rejection,
        Some(Rejection {
            kind: OperationKind::Relabel,
            token: "/dev/sda:mbr".to_string(),
            error: ConfigError::InvalidTable("mbr".to_string()),
        })
    );
    assert_eq!(
        plan.steps,
        vec![Step::AddDisk("/dev/sda".to_string()), Step::AddDisk("/dev/sdb".to_string())]
    );
}

#[test]
fn the_stages_add_to_a_plan_one_after_another() {
    let arguments = full();
    let mut plan = Plan::new();
    add_disks(&mut plan, &arguments.disks);
    assert_eq!(plan.steps.len(), 2);
    configure_tables(&mut plan, &arguments.tables);
    assert_eq!(plan.steps.len(), 3);
    configure_removed(&mut plan, &arguments.removed);
    assert_eq!(plan.steps.len(), 4);
    configure_moved(&mut plan, &arguments.moved);
    assert_eq!(plan.steps.len(), 5);
    configure_reused(&mut plan, &arguments.reused);
    assert_eq!(plan.steps.len(), 6);
    configure_new(&mut plan, &arguments.new);
    assert_eq!(plan.steps.len(), 8);
    initialize_volume_groups(&mut plan);
    assert_eq!(plan.steps.len(), 9);
    configure_lvm(&mut plan, &arguments.logical);
    assert_eq!(plan.steps.len(), 11);
    assert_eq!(plan, configure_disks(&arguments));
}

#[test]
fn nothing_is_added_to_a_plan_that_has_ended() {
    let mut plan = Plan::new();
    configure(&mut plan, OperationKind::Relabel, &list(&["sda:gpt", "sda", "sdb:gpt"]));
    let ended = plan.clone();
    assert_eq!(ended.steps.len(), 1);
    assert_eq!(
        ended.rejection,
        Some(Rejection {
            kind: OperationKind::Relabel,
            token: "sda".to_string(),
            error: too_few(OperationKind::Relabel),
        })
    );
    add_disks(&mut plan, &list(&["sdc"]));
    configure_new(&mut plan, &list(&["sda:primary:start:end:ext4"]));
    initialize_volume_groups(&mut plan);
    configure_lvm(&mut plan, &list(&["bogus"]));
    assert_eq!(plan, ended);
}

/// A disk model for the tests: it knows the volume groups that partitions ask
/// for, and finds a group only once the groups have been set up.
struct Groups {
    asked_for: Vec<String>,
    set_up: Vec<String>,
}

impl Groups {
    fn new() -> Groups {
        Groups { asked_for: Vec::new(), set_up: Vec::new() }
    }

    fn take(&mut self, step: &Step) -> Result<(), ConfigError> {
        match step {
            Step::Apply(Operation::Create {
                filesystem: FileSystem::LogicalVolume { volume_group, .. },
                ..
            })
            | Step::Apply(Operation::Reuse {
                format: Some(FileSystem::LogicalVolume { volume_group, .. }),
                ..
            }) => {
                self.asked_for.push(volume_group.clone());
                Ok(())
            }
            Step::InitializeVolumeGroups => {
                self.set_up = self.asked_for.clone();
                Ok(())
            }
            Step::Apply(Operation::CreateLogical { group, .. }) => {
                let found = self.set_up.iter().find(|name| *name == group);
                found_volume_group(found, group).map(|_| ())
            }
            _ => Ok(()),
        }
    }

    fn run(&mut self, steps: &[Step]) -> Result<(), ConfigError> {
        for step in steps {
            self.take(step)?;
        }
        Ok(())
    }
}

#[test]
fn a_logical_volume_finds_the_group_of_a_new_partition() {
    let plan = configure_disks(&full());
    assert_eq!(Groups::new().run(&plan.steps), Ok(()));
}

#[test]
fn a_logical_volume_finds_the_group_of_a_reused_partition() {
    let mut arguments = Arguments::default();
    arguments.reused = list(&["sda:2:lvm=data"]);
    arguments.logical = list(&["data:root:10M:ext4"]);
    let plan = configure_disks(&arguments);
    assert_eq!(Groups::new().run(&plan.steps), Ok(()));
}

#[test]
fn before_the_groups_are_set_up_a_logical_volume_finds_none() {
    let plan = configure_disks(&full());
    let early: Vec<Step> = plan
        .steps
        .iter()
        .filter(|step| **step != Step::InitializeVolumeGroups)
        .cloned()
        .collect();
    assert_eq!(
        Groups::new().run(&early),
        Err(ConfigError::VolumeGroupNotFound("data".to_string()))
    );
}

#[test]
fn a_group_that_no_partition_asks_for_is_not_found() {
    let mut arguments = full();
    arguments.logical = list(&["other:root:10M:ext4"]);
    let plan = configure_disks(&arguments);
    assert_eq!(plan.rejection, None);
    assert_eq!(
        Groups::new().run(&plan.steps),
        Err(ConfigError::VolumeGroupNotFound("other".to_string()))
    );
}
