use project_scaffold::materialize::plan_creates;
use project_scaffold::paths::{build_template_paths, compute_all_paths};
use project_scaffold::reconcile::{decide_root_action, update_root_name, RootAction};
use project_scaffold::resolver::{num_to_char, padded_dec, resolve_placeholder};
use project_scaffold::types::{
    Config, FileStructure, FolderTemplate, OperationType, ProjectSetup, ScaffoldError,
};

fn setup_with(name: &str, days: usize, cameras: usize, sound_sources: usize) -> ProjectSetup {
    ProjectSetup {
        name: name.to_string(),
        days,
        cameras,
        sound_sources,
        deadname: None,
    }
}

fn template(name: &str, parent: usize) -> FolderTemplate {
    FolderTemplate { name: name.to_string(), parent }
}

#[test]
fn materialize_twice_creates_nothing_new() {
    let setup = setup_with("Proj", 1, 1, 0);
    let structure = FileStructure { folders_list: vec![template("Footage", 0)] };
    let config = Config { setup, file_structure: structure };
    let paths = compute_all_paths(&config).unwrap();

    // First run: nothing exists yet, every path is created.
    let first = plan_creates(&paths, &vec![false; paths.len()]);
    assert_eq!(first, paths);

    // Second run against the resulting tree: everything exists already.
    let second = plan_creates(&paths, &vec![true; paths.len()]);
    assert!(second.is_empty());
}

#[test]
fn cartesian_two_days_three_cameras() {
    let setup = setup_with("Proj", 2, 3, 0);
    let structure = FileStructure {
        folders_list: vec![template("%days", 0), template("%cams", 1)],
    };
    let r = build_template_paths(&structure, &setup, 1).unwrap();
    let expected = vec![
        "Proj/01_DAY01/01_A_CAM",
        "Proj/01_DAY01/02_B_CAM",
        "Proj/01_DAY01/03_C_CAM",
        "Proj/02_DAY02/01_A_CAM",
        "Proj/02_DAY02/02_B_CAM",
        "Proj/02_DAY02/03_C_CAM",
    ];
    assert_eq!(r, expected);
    for a in 0..r.len() {
        for b in 0..a {
            assert_ne!(r[a], r[b]);
        }
    }
}

#[test]
fn camera_count_27_hits_capacity() {
    let setup = setup_with("Proj", 1, 27, 27);
    let r = resolve_placeholder(&"%cams".to_string(), &setup);
    assert_eq!(r, Err(ScaffoldError::Capacity));
    let r = resolve_placeholder(&"%soundsources".to_string(), &setup);
    assert_eq!(r, Err(ScaffoldError::Capacity));
}

#[test]
fn camera_count_26_ends_with_z() {
    let setup = setup_with("Proj", 1, 26, 26);
    let cams = resolve_placeholder(&"%cams".to_string(), &setup).unwrap();
    assert_eq!(cams.len(), 26);
    assert_eq!(cams[25], "26_Z_CAM");
    let recs = resolve_placeholder(&"%soundsources".to_string(), &setup).unwrap();
    assert_eq!(recs[25], "26_Z_REC");
}

#[test]
fn two_template_cycle_is_reported() {
    let setup = setup_with("Proj", 1, 1, 1);
    let structure = FileStructure {
        folders_list: vec![template("A", 2), template("B", 1)],
    };
    let config = Config { setup, file_structure: structure };
    assert_eq!(compute_all_paths(&config), Err(ScaffoldError::StructuralCycle));
}

#[test]
fn self_loop_is_reported() {
    let setup = setup_with("Proj", 1, 1, 1);
    let structure = FileStructure { folders_list: vec![template("A", 1)] };
    let config = Config { setup, file_structure: structure };
    assert_eq!(compute_all_paths(&config), Err(ScaffoldError::StructuralCycle));
}

#[test]
fn dangling_parent_is_reported() {
    let setup = setup_with("Proj", 1, 1, 1);
    let structure = FileStructure { folders_list: vec![template("A", 5)] };
    let config = Config { setup, file_structure: structure };
    assert_eq!(compute_all_paths(&config), Err(ScaffoldError::StructuralCycle));
}

#[test]
fn deadname_takes_precedence_over_prior_rename() {
    let old_setup = setup_with("Shoot01", 1, 1, 0);
    let mut setup = setup_with("Shoot02", 1, 1, 0);
    setup.deadname = Some("OldProj".to_string());
    // The prior-root branch would apply too: update, prior config loaded,
    // prior root on disk, names differ. The deadname still wins.
    let action = decide_root_action(
        &old_setup,
        &setup,
        &OperationType::Update,
        true,
        true,
        true,
        false,
    );
    assert_eq!(action, RootAction::RenameFromDeadname);
}

#[test]
fn deadname_missing_creates_or_keeps() {
    let old_setup = setup_with("Shoot01", 1, 1, 0);
    let mut setup = setup_with("Shoot02", 1, 1, 0);
    setup.deadname = Some("OldProj".to_string());
    let action = decide_root_action(
        &old_setup,
        &setup,
        &OperationType::New,
        false,
        false,
        false,
        false,
    );
    assert_eq!(action, RootAction::FreshCreate);
    let action = decide_root_action(
        &old_setup,
        &setup,
        &OperationType::New,
        false,
        false,
        false,
        true,
    );
    assert_eq!(action, RootAction::NoOp);
}

#[test]
fn end_to_end_two_cameras() {
    let setup = setup_with("Shoot01", 1, 2, 0);
    let structure = FileStructure { folders_list: vec![template("%cams", 0)] };
    let config = Config { setup, file_structure: structure };
    let paths = compute_all_paths(&config).unwrap();
    assert_eq!(paths, vec!["Shoot01", "Shoot01/01_A_CAM", "Shoot01/02_B_CAM"]);
}

#[test]
fn update_renames_prior_root_and_stores_new_name() {
    let old_setup = setup_with("Shoot01", 1, 1, 0);
    let setup = setup_with("Shoot02", 1, 1, 0);
    let action = decide_root_action(
        &old_setup,
        &setup,
        &OperationType::Update,
        true,
        false,
        true,
        false,
    );
    assert_eq!(action, RootAction::RenameFromPrior);

    let mut old_config = Config {
        setup: old_setup,
        file_structure: FileStructure { folders_list: Vec::new() },
    };
    update_root_name(&mut old_config, &"Shoot02".to_string());
    assert_eq!(old_config.setup.name, "Shoot02");
}

#[test]
fn same_name_update_is_noop() {
    let old_setup = setup_with("Shoot01", 1, 1, 0);
    let setup = setup_with("Shoot01", 1, 1, 0);
    let action = decide_root_action(
        &old_setup,
        &setup,
        &OperationType::Update,
        true,
        false,
        true,
        true,
    );
    assert_eq!(action, RootAction::NoOp);
}

#[test]
fn alphabet_labels() {
    assert_eq!(num_to_char(1), Some('A'));
    assert_eq!(num_to_char(2), Some('B'));
    assert_eq!(num_to_char(26), Some('Z'));
    assert_eq!(num_to_char(0), None);
    assert_eq!(num_to_char(27), None);
}

#[test]
fn padding_grows_past_two_digits() {
    assert_eq!(padded_dec(1), "01");
    assert_eq!(padded_dec(9), "09");
    assert_eq!(padded_dec(10), "10");
    assert_eq!(padded_dec(99), "99");
    assert_eq!(padded_dec(100), "100");
    assert_eq!(padded_dec(0), "00");
}

#[test]
fn day_numbers_grow_past_ninety_nine() {
    let setup = setup_with("Proj", 100, 1, 0);
    let days = resolve_placeholder(&"%days".to_string(), &setup).unwrap();
    assert_eq!(days.len(), 100);
    assert_eq!(days[0], "01_DAY01");
    assert_eq!(days[98], "99_DAY99");
    assert_eq!(days[99], "100_DAY100");
}

#[test]
fn literal_names_pass_through() {
    let setup = setup_with("Proj", 3, 3, 3);
    let r = resolve_placeholder(&"Footage".to_string(), &setup).unwrap();
    assert_eq!(r, vec!["Footage"]);
}

#[test]
fn literal_chain_orders_paths() {
    let setup = setup_with("Proj", 1, 2, 0);
    let structure = FileStructure {
        folders_list: vec![template("Footage", 0), template("%cams", 1)],
    };
    let config = Config { setup, file_structure: structure };
    let paths = compute_all_paths(&config).unwrap();
    assert_eq!(
        paths,
        vec![
            "Proj",
            "Proj/Footage",
            "Proj/Footage/01_A_CAM",
            "Proj/Footage/02_B_CAM",
        ]
    );
}

#[test]
fn zero_count_placeholder_yields_no_paths() {
    let setup = setup_with("Shoot01", 1, 2, 0);
    let structure = FileStructure { folders_list: vec![template("%soundsources", 0)] };
    let config = Config { setup, file_structure: structure };
    let paths = compute_all_paths(&config).unwrap();
    assert_eq!(paths, vec!["Shoot01"]);
}

#[test]
fn plan_keeps_only_missing_paths() {
    let paths = vec!["A".to_string(), "B".to_string(), "C".to_string()];
    let plan = plan_creates(&paths, &vec![false, true, false]);
    assert_eq!(plan, vec!["A", "C"]);
}
