//! Scenario tests from the domain rules, plus coverage of the lookup
//! table, project state, and restore paths.

use qualcode::blockmap::BlockFileMap;
use qualcode::codebook::{CodeBook, CodeBookError};
use qualcode::entities::{CodeDef, QualCode, ThemeDef};
use qualcode::files::{DataState, FileList, FileListError, FileType, QualFile, TextBlock};
use qualcode::highlight::Highlight;
use qualcode::ids::{BlockId, CodeDefId, FileId, QualCodeId, ThemeId};
use qualcode::project::{AppConfig, AppState, ProjectContext, QualProject};
use uuid::Uuid;

fn fresh_block() -> BlockId {
    BlockId(Uuid::new_v4().as_u128())
}

// ===== Scenario: apply and cascade =====

#[test]
fn test_scenario_apply_two_codes_then_cascade() {
    // Create code def "A" (color 1, no theme), apply it on blocks 0 and 2
    // of a 3-block file, then remove the definition.
    let mut codebook = CodeBook::new();
    let file_id = FileId(Uuid::new_v4().as_u128());
    let mut blocks = Vec::new();
    for i in 0..3 {
        blocks.push(TextBlock::new(file_id, i, format!("Block content {}", i)));
    }
    let file = QualFile::restore(
        file_id,
        "scenario.txt".to_string(),
        FileType::PlainText,
        DataState::Loaded(blocks),
    );

    let code_a = codebook.create_code_def("A".to_string(), 1, None);
    let blocks = file.blocks().unwrap();
    codebook.apply_code(code_a, Highlight::new(blocks[0].id, 0, 4), "s1".to_string());
    codebook.apply_code(code_a, Highlight::new(blocks[2].id, 0, 4), "s2".to_string());

    assert_eq!(codebook.get_all_qual_codes().len(), 2);

    codebook.remove_code_def(code_a).unwrap();
    assert_eq!(codebook.get_all_qual_codes().len(), 0);
    assert!(codebook.code_def(code_a).is_none());
}

// ===== Sorting: idempotence and stability =====

#[test]
fn test_sort_code_defs_twice_gives_same_order() {
    let mut codebook = CodeBook::new();
    codebook.create_code_def("pear".to_string(), 1, None);
    codebook.create_code_def("apple".to_string(), 2, None);
    codebook.create_code_def("apple".to_string(), 3, None);
    codebook.create_code_def("fig".to_string(), 4, None);

    codebook.sort_code_defs_by_name();
    let once: Vec<CodeDefId> = codebook.get_all_code_defs().iter().map(|c| c.id).collect();
    codebook.sort_code_defs_by_name();
    let twice: Vec<CodeDefId> = codebook.get_all_code_defs().iter().map(|c| c.id).collect();
    assert_eq!(once, twice, "Sorting twice should give the same order");
}

#[test]
fn test_sort_code_defs_stable_for_equal_names() {
    let mut codebook = CodeBook::new();
    let dup_1 = codebook.create_code_def("same".to_string(), 1, None);
    let first = codebook.create_code_def("aaa".to_string(), 2, None);
    let dup_2 = codebook.create_code_def("same".to_string(), 3, None);
    let dup_3 = codebook.create_code_def("same".to_string(), 4, None);

    codebook.sort_code_defs_by_name();
    let order: Vec<CodeDefId> = codebook.get_all_code_defs().iter().map(|c| c.id).collect();
    assert_eq!(order, vec![first, dup_1, dup_2, dup_3], "Tied names keep their prior order");
}

#[test]
fn test_sort_themes_twice_gives_same_order() {
    let mut codebook = CodeBook::new();
    codebook.create_theme("Zebra".to_string(), 1);
    codebook.create_theme("Apple".to_string(), 2);
    codebook.create_theme("Mango".to_string(), 3);

    codebook.sort_themes_by_name();
    let once: Vec<ThemeId> = codebook.get_all_themes().iter().map(|t| t.id).collect();
    codebook.sort_themes_by_name();
    let twice: Vec<ThemeId> = codebook.get_all_themes().iter().map(|t| t.id).collect();
    assert_eq!(once, twice);
}

#[test]
fn test_sort_name_prefix_comes_first() {
    let mut codebook = CodeBook::new();
    let long = codebook.create_code_def("ab".to_string(), 1, None);
    let short = codebook.create_code_def("a".to_string(), 2, None);
    let empty = codebook.create_code_def("".to_string(), 3, None);

    codebook.sort_code_defs_by_name();
    let order: Vec<CodeDefId> = codebook.get_all_code_defs().iter().map(|c| c.id).collect();
    assert_eq!(order, vec![empty, short, long], "A prefix sorts before its extensions");
}

// ===== Applied codes: removal and lookup =====

#[test]
fn test_remove_qual_code_by_id() {
    let mut codebook = CodeBook::new();
    let def = codebook.create_code_def("Code".to_string(), 1, None);
    let kept = codebook.apply_code(def, Highlight::new(fresh_block(), 0, 3), "kept".to_string());
    let gone = codebook.apply_code(def, Highlight::new(fresh_block(), 0, 3), "gone".to_string());

    assert!(codebook.remove_qual_code(gone).is_ok());
    let remaining: Vec<QualCodeId> =
        codebook.get_all_qual_codes().iter().map(|q| q.id).collect();
    assert_eq!(remaining, vec![kept]);
}

#[test]
fn test_remove_nonexistent_qual_code_returns_error() {
    let mut codebook = CodeBook::new();
    let fake_id = QualCodeId(Uuid::new_v4().as_u128());
    match codebook.remove_qual_code(fake_id) {
        Err(CodeBookError::QualCodeNotFound(id)) => assert_eq!(id, fake_id),
        _ => panic!("Expected QualCodeNotFound error"),
    }
}

#[test]
fn test_get_codes_for_def_filters_by_definition() {
    let mut codebook = CodeBook::new();
    let def_a = codebook.create_code_def("A".to_string(), 1, None);
    let def_b = codebook.create_code_def("B".to_string(), 2, None);
    let a1 = codebook.apply_code(def_a, Highlight::new(fresh_block(), 0, 3), "a1".to_string());
    let _b1 = codebook.apply_code(def_b, Highlight::new(fresh_block(), 0, 3), "b1".to_string());
    let a2 = codebook.apply_code(def_a, Highlight::new(fresh_block(), 0, 3), "a2".to_string());

    let of_a: Vec<QualCodeId> = codebook.get_codes_for_def(def_a).iter().map(|q| q.id).collect();
    assert_eq!(of_a, vec![a1, a2]);
    assert_eq!(codebook.get_codes_for_def(def_b).len(), 1);
}

#[test]
fn test_qual_code_accessors() {
    let mut codebook = CodeBook::new();
    let def = codebook.create_code_def("Code".to_string(), 1, None);
    let block = fresh_block();
    let id = codebook.apply_code(def, Highlight::new(block, 9, 2), "snip".to_string());

    let all: Vec<QualCode> = codebook.get_codes_for_def(def);
    assert_eq!(all.len(), 1);
    let qc = &all[0];
    assert_eq!(qc.id, id);
    assert_eq!(qc.def_id(), def);
    assert_eq!(qc.block_id(), block);
    assert_eq!(qc.position(), (2, 9), "Position is normalized");
    assert_eq!(qc.snippet(), "snip");
}

#[test]
fn test_code_def_accessors() {
    let mut codebook = CodeBook::new();
    let theme = codebook.create_theme("Theme".to_string(), 7);
    let def = codebook.create_code_def("Label".to_string(), 5, Some(theme));

    let stored = codebook.code_def(def).unwrap();
    assert_eq!(stored.id, def);
    assert_eq!(stored.name(), "Label");
    assert_eq!(stored.color(), 5);
    assert_eq!(stored.theme_id(), Some(theme));

    let stored_theme = codebook.theme(theme).unwrap();
    assert_eq!(stored_theme.name(), "Theme");
    assert_eq!(stored_theme.color(), 7);
}

// ===== Block-to-file lookup table =====

#[test]
fn test_block_map_lookup_and_override() {
    let mut map = BlockFileMap::new();
    let b1 = fresh_block();
    let b2 = fresh_block();
    let f1 = FileId(Uuid::new_v4().as_u128());
    let f2 = FileId(Uuid::new_v4().as_u128());

    assert_eq!(map.get(b1), None);
    map.insert(b1, f1);
    map.insert(b2, f2);
    assert_eq!(map.get(b1), Some(f1));
    assert_eq!(map.get(b2), Some(f2));

    // A later record for the same block overrides the earlier one.
    map.insert(b1, f2);
    assert_eq!(map.get(b1), Some(f2));
    assert_eq!(map.get(fresh_block()), None);
}

// ===== FileList =====

#[test]
fn test_remove_nonexistent_file_returns_error() {
    let mut file_list = FileList::new();
    let fake_id = FileId(Uuid::new_v4().as_u128());
    match file_list.remove_file(fake_id) {
        Err(FileListError::FileNotFound(id)) => assert_eq!(id, fake_id),
        _ => panic!("Expected FileNotFound error"),
    }
}

#[test]
fn test_file_count_and_metadata() {
    let mut file_list = FileList::new();
    assert_eq!(file_list.file_count(), 0);
    let id = file_list.add_file("notes.md".to_string(), FileType::Markdown);
    assert_eq!(file_list.file_count(), 1);

    let file = file_list.file(id).unwrap();
    assert_eq!(file.path(), "notes.md");
    assert_eq!(file.file_type(), FileType::Markdown);
}

#[test]
fn test_file_list_restore_and_duplicate() {
    let mut file_list = FileList::new();
    let id_a = file_list.add_file("a.txt".to_string(), FileType::PlainText);
    let id_b = file_list.add_file("b.txt".to_string(), FileType::PlainText);

    let copy = file_list.duplicate();
    let order: Vec<FileId> = copy.get_all_files().iter().map(|f| f.id).collect();
    assert_eq!(order, vec![id_a, id_b]);

    let rebuilt = FileList::restore(file_list.get_all_files()).unwrap();
    assert_eq!(rebuilt.file_count(), 2);

    // Two entries with the same identifier are refused.
    let shared = FileId(Uuid::new_v4().as_u128());
    let f1 = QualFile::restore(shared, "x.txt".to_string(), FileType::PlainText, DataState::Empty);
    let f2 = QualFile::restore(shared, "y.txt".to_string(), FileType::PlainText, DataState::Empty);
    assert!(FileList::restore(vec![f1, f2]).is_none());
}

#[test]
fn test_code_book_restore_and_duplicate() {
    let mut codebook = CodeBook::new();
    let theme = codebook.create_theme("T".to_string(), 1);
    let def = codebook.create_code_def("C".to_string(), 2, Some(theme));
    codebook.apply_code(def, Highlight::new(fresh_block(), 0, 3), "s".to_string());

    let copy = codebook.duplicate();
    assert_eq!(copy.get_all_code_defs().len(), 1);
    assert_eq!(copy.get_all_themes().len(), 1);
    assert_eq!(copy.get_all_qual_codes().len(), 1);

    let rebuilt = CodeBook::restore(
        codebook.get_all_code_defs(),
        codebook.get_all_themes(),
        codebook.get_codes_for_def(def),
    )
    .unwrap();
    assert!(rebuilt.code_def(def).is_some());
    assert!(rebuilt.theme(theme).is_some());

    // Two definitions with the same identifier are refused.
    let shared = CodeDefId(Uuid::new_v4().as_u128());
    let d1 = CodeDef::restore(shared, "one".to_string(), 1, None);
    let d2 = CodeDef::restore(shared, "two".to_string(), 2, None);
    assert!(CodeBook::restore(vec![d1, d2], Vec::new(), Vec::new()).is_none());

    // Two themes with the same identifier are refused.
    let shared_t = ThemeId(Uuid::new_v4().as_u128());
    let t1 = ThemeDef::restore(shared_t, "one".to_string(), 1);
    let t2 = ThemeDef::restore(shared_t, "two".to_string(), 2);
    assert!(CodeBook::restore(Vec::new(), vec![t1, t2], Vec::new()).is_none());
}

// ===== Project record, context, and application state =====

#[test]
fn test_app_config_default_theme() {
    let config = AppConfig::default();
    assert_eq!(config.theme, "dark");
}

#[test]
fn test_qual_project_record() {
    let project = QualProject::new("Study".to_string(), 1, 1000, 2000);
    assert_eq!(project.name(), "Study");
    assert_eq!(project.version(), 1);
    assert_eq!(project.created_at(), 1000);
    assert_eq!(project.modified_at(), 2000);
}

#[test]
fn test_project_context_root_is_parent_directory() {
    let project = QualProject::new("Study".to_string(), 1, 0, 0);
    let ctx = ProjectContext::new("home/studies/study.qdp".to_string(), project);
    assert_eq!(ctx.path(), "home/studies/study.qdp");
    assert_eq!(ctx.root(), "home/studies");
    assert_eq!(ctx.project().name(), "Study");
}

#[test]
fn test_app_state_project_lifecycle() {
    let mut state = AppState::new(DataState::Empty, AppConfig::default());

    // No project yet: nothing to save.
    assert!(state.save_snapshot().is_none());

    // A failed load moves an empty state to the error state.
    state.project_load_failed();
    assert!(state.save_snapshot().is_none());

    // Opening a project makes a snapshot available.
    let project = QualProject::new("Study".to_string(), 1, 0, 0);
    let ctx = ProjectContext::new("dir/study.qdp".to_string(), project);
    state.project_opened(ctx);
    let (path, project, codebook, filemanager) = state.save_snapshot().unwrap();
    assert_eq!(path, "dir/study.qdp");
    assert_eq!(project.name(), "Study");
    assert_eq!(codebook.get_all_code_defs().len(), 0);
    assert_eq!(filemanager.file_count(), 0);

    // A later failure does not clear a loaded project.
    state.project_load_failed();
    assert!(state.save_snapshot().is_some());
}

#[test]
fn test_app_state_restored_project() {
    let mut state = AppState::new(DataState::Empty, AppConfig::default());

    let mut codebook = CodeBook::new();
    codebook.create_code_def("C".to_string(), 1, None);
    let mut filemanager = FileList::new();
    filemanager.add_file("a.txt".to_string(), FileType::PlainText);

    let project = QualProject::new("Study".to_string(), 1, 0, 0);
    let ctx = ProjectContext::new("dir/study.qdp".to_string(), project);
    state.project_restored(ctx, codebook, filemanager);

    let (_, _, codebook, filemanager) = state.save_snapshot().unwrap();
    assert_eq!(codebook.get_all_code_defs().len(), 1);
    assert_eq!(filemanager.file_count(), 1);
}

#[test]
fn test_app_state_set_config() {
    let mut state = AppState::new(DataState::Empty, AppConfig::default());
    state.set_config(AppConfig { theme: "light".to_string() });
    assert_eq!(state.config().theme, "light");
}

// ===== Law instances on concrete values =====

#[test]
fn test_moved_code_is_member_then_top_level_after_removal() {
    // After move_code_to_theme the code is among the theme's codes; after
    // remove_code_from_theme it is top-level and in no theme's set.
    let mut codebook = CodeBook::new();
    let theme_a = codebook.create_theme("A".to_string(), 1);
    let theme_b = codebook.create_theme("B".to_string(), 2);
    let def = codebook.create_code_def("C".to_string(), 3, None);

    codebook.move_code_to_theme(def, theme_a);
    let in_a: Vec<CodeDefId> = codebook.get_codes_in_theme(theme_a).iter().map(|c| c.id).collect();
    assert!(in_a.contains(&def));

    codebook.remove_code_from_theme(def).unwrap();
    let top: Vec<CodeDefId> = codebook.get_top_level_codes().iter().map(|c| c.id).collect();
    assert!(top.contains(&def));
    assert_eq!(codebook.get_codes_in_theme(theme_a).len(), 0);
    assert_eq!(codebook.get_codes_in_theme(theme_b).len(), 0);
}

#[test]
fn test_move_code_to_theme_tolerates_unknown_code() {
    // The tolerant operation silently ignores an unknown code id.
    let mut codebook = CodeBook::new();
    let theme = codebook.create_theme("T".to_string(), 1);
    let fake_id = CodeDefId(Uuid::new_v4().as_u128());
    codebook.move_code_to_theme(fake_id, theme);
    assert_eq!(codebook.get_codes_in_theme(theme).len(), 0);
    assert_eq!(codebook.get_all_code_defs().len(), 0);
}

#[test]
fn test_failed_remove_code_def_leaves_book_unchanged() {
    // An application may reference a definition that was never created.
    // A removal that fails with CodeDefNotFound must not touch it.
    let mut codebook = CodeBook::new();
    let dangling_def = CodeDefId(Uuid::new_v4().as_u128());
    let qc = codebook.apply_code(
        dangling_def,
        Highlight::new(fresh_block(), 0, 3),
        "dangling".to_string(),
    );

    match codebook.remove_code_def(dangling_def) {
        Err(CodeBookError::CodeDefNotFound(id)) => assert_eq!(id, dangling_def),
        _ => panic!("Expected CodeDefNotFound error"),
    }

    let remaining = codebook.get_all_qual_codes();
    assert_eq!(remaining.len(), 1, "Failed removal must not cascade");
    assert_eq!(remaining[0].id, qc);
}

#[test]
fn test_failed_remove_theme_leaves_book_unchanged() {
    // A definition may reference a theme that was never created.  A
    // removal that fails with ThemeNotFound must not demote it.
    let mut codebook = CodeBook::new();
    let dangling_theme = ThemeId(Uuid::new_v4().as_u128());
    let def = codebook.create_code_def("C".to_string(), 1, Some(dangling_theme));

    match codebook.remove_theme(dangling_theme) {
        Err(CodeBookError::ThemeNotFound(id)) => assert_eq!(id, dangling_theme),
        _ => panic!("Expected ThemeNotFound error"),
    }

    let stored = codebook.code_def(def).unwrap();
    assert_eq!(stored.theme_id(), Some(dangling_theme), "Failed removal must not demote");
    assert_eq!(codebook.get_top_level_codes().len(), 0);
}

#[test]
fn test_swap_on_empty_codebook_is_rejected() {
    let mut codebook = CodeBook::new();
    match codebook.swap_code_defs(0, 0) {
        Err(CodeBookError::InvalidIndex { provided, max }) => {
            assert_eq!(provided, 0);
            assert_eq!(max, 0);
        }
        _ => panic!("Expected InvalidIndex error"),
    }
    match codebook.swap_themes(1, 0) {
        Err(CodeBookError::InvalidIndex { provided, max }) => {
            assert_eq!(provided, 1);
            assert_eq!(max, 0);
        }
        _ => panic!("Expected InvalidIndex error"),
    }
}
