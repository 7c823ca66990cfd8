//! Retrieval, cascade-deletion and theme-membership behavior of the
//! `CodeBook`.

use qualcode::blockmap::BlockFileMap;
use qualcode::codebook::{CodeBook, CodeBookError};
use qualcode::entities::QualCode;
use qualcode::files::{DataState, FileType, QualFile, TextBlock};
use qualcode::highlight::Highlight;
use qualcode::ids::{BlockId, CodeDefId, FileId, QualCodeId, ThemeId};
use uuid::Uuid;

// ===== Test Helpers =====

/// Creates an empty CodeBook for testing
fn create_test_codebook() -> CodeBook {
    CodeBook::new()
}

/// Creates a test file with a specified number of blocks
fn create_test_file(file_path: &str, num_blocks: usize) -> QualFile {
    let file_id = FileId(Uuid::new_v4().as_u128());
    let mut blocks = Vec::new();
    for i in 0..num_blocks {
        let block = TextBlock::new(file_id, i, format!("Block content {}", i));
        blocks.push(block);
    }
    QualFile::restore(
        file_id,
        file_path.to_string(),
        FileType::PlainText,
        DataState::Loaded(blocks),
    )
}

/// Applies a code to a specific block in the codebook
fn apply_test_code(
    codebook: &mut CodeBook,
    block_id: BlockId,
    code_def_id: CodeDefId,
    snippet: &str,
) -> QualCodeId {
    let highlight = Highlight::new(block_id, 0, 10);
    codebook.apply_code(code_def_id, highlight, snippet.to_string())
}

/// Builds a block-to-file mapping from a list of files
fn build_block_map(files: &[&QualFile]) -> BlockFileMap {
    let mut map = BlockFileMap::new();
    for file in files.iter() {
        if let Some(blocks) = file.blocks() {
            for block in blocks.iter() {
                map.insert(block.id, file.id);
            }
        }
    }
    map
}

// ===== Tests for get_codes_for_file =====

#[test]
fn test_get_codes_for_file_returns_all_codes_for_single_file() {
    // Setup: Create a file with 3 blocks and apply codes to all of them
    let mut codebook = create_test_codebook();
    let file = create_test_file("test.txt", 3);
    let block_map = build_block_map(&[&file]);

    let code_def_id = codebook.create_code_def("TestCode".to_string(), 1, None);

    // Apply 3 codes to different blocks in the same file
    let blocks = file.blocks().unwrap();
    let code_id_1 = apply_test_code(&mut codebook, blocks[0].id, code_def_id, "snippet1");
    let code_id_2 = apply_test_code(&mut codebook, blocks[1].id, code_def_id, "snippet2");
    let code_id_3 = apply_test_code(&mut codebook, blocks[2].id, code_def_id, "snippet3");

    // Execute: Get codes
    let codes: Vec<QualCode> = codebook.get_codes_for_file(file.id, &block_map);

    // Assert: Should return all 3 codes
    assert_eq!(codes.len(), 3, "Should return exactly 3 codes for the file");

    let code_ids: Vec<QualCodeId> = codes.iter().map(|c| c.id).collect();
    assert!(code_ids.contains(&code_id_1), "Should contain code_id_1");
    assert!(code_ids.contains(&code_id_2), "Should contain code_id_2");
    assert!(code_ids.contains(&code_id_3), "Should contain code_id_3");

    // Execute: Remove codes for this file
    codebook.remove_codes_for_file(file.id, &block_map);

    // Assert: No codes should remain for this file
    let codes_after_removal: Vec<QualCode> = codebook.get_codes_for_file(file.id, &block_map);
    assert_eq!(codes_after_removal.len(), 0, "Should have 0 codes after removal");
}

#[test]
fn test_get_codes_for_file_isolates_between_files() {
    // Setup: Create two files with blocks and apply codes to each
    let mut codebook = create_test_codebook();
    let file_a = create_test_file("file_a.txt", 2);
    let file_b = create_test_file("file_b.txt", 2);
    let block_map = build_block_map(&[&file_a, &file_b]);

    let code_def_id = codebook.create_code_def("TestCode".to_string(), 1, None);

    // Apply codes to file A
    let blocks_a = file_a.blocks().unwrap();
    let code_a1 = apply_test_code(&mut codebook, blocks_a[0].id, code_def_id, "A1");
    let code_a2 = apply_test_code(&mut codebook, blocks_a[1].id, code_def_id, "A2");

    // Apply codes to file B
    let blocks_b = file_b.blocks().unwrap();
    let code_b1 = apply_test_code(&mut codebook, blocks_b[0].id, code_def_id, "B1");
    let code_b2 = apply_test_code(&mut codebook, blocks_b[1].id, code_def_id, "B2");

    // Execute: Get codes for file A
    let codes_a: Vec<QualCode> = codebook.get_codes_for_file(file_a.id, &block_map);
    let code_ids_a: Vec<QualCodeId> = codes_a.iter().map(|c| c.id).collect();

    // Execute: Get codes for file B
    let codes_b: Vec<QualCode> = codebook.get_codes_for_file(file_b.id, &block_map);
    let code_ids_b: Vec<QualCodeId> = codes_b.iter().map(|c| c.id).collect();

    // Assert: File A should only have its 2 codes
    assert_eq!(codes_a.len(), 2, "File A should have exactly 2 codes");
    assert!(code_ids_a.contains(&code_a1), "File A should contain code_a1");
    assert!(code_ids_a.contains(&code_a2), "File A should contain code_a2");
    assert!(!code_ids_a.contains(&code_b1), "File A should NOT contain code_b1");
    assert!(!code_ids_a.contains(&code_b2), "File A should NOT contain code_b2");

    // Assert: File B should only have its 2 codes
    assert_eq!(codes_b.len(), 2, "File B should have exactly 2 codes");
    assert!(code_ids_b.contains(&code_b1), "File B should contain code_b1");
    assert!(code_ids_b.contains(&code_b2), "File B should contain code_b2");
    assert!(!code_ids_b.contains(&code_a1), "File B should NOT contain code_a1");
    assert!(!code_ids_b.contains(&code_a2), "File B should NOT contain code_a2");

    // Execute: Remove codes for file A only
    codebook.remove_codes_for_file(file_a.id, &block_map);

    // Assert: File A should now have 0 codes
    let codes_a_after: Vec<QualCode> = codebook.get_codes_for_file(file_a.id, &block_map);
    assert_eq!(codes_a_after.len(), 0, "File A should have 0 codes after removal");

    // Assert: File B should still have its 2 codes (unaffected)
    let codes_b_after: Vec<QualCode> = codebook.get_codes_for_file(file_b.id, &block_map);
    let code_ids_b_after: Vec<QualCodeId> = codes_b_after.iter().map(|c| c.id).collect();
    assert_eq!(codes_b_after.len(), 2, "File B should still have 2 codes after removing A's codes");
    assert!(code_ids_b_after.contains(&code_b1), "File B should still contain code_b1");
    assert!(code_ids_b_after.contains(&code_b2), "File B should still contain code_b2");
}

#[test]
fn test_get_codes_for_file_returns_empty_when_no_codes_applied() {
    // Setup: Create a file with blocks but don't apply any codes
    let codebook = create_test_codebook();
    let file = create_test_file("empty.txt", 3);
    let block_map = build_block_map(&[&file]);

    // Execute
    let codes: Vec<QualCode> = codebook.get_codes_for_file(file.id, &block_map);

    // Assert: Should return empty
    assert_eq!(codes.len(), 0, "Should return 0 codes for file with no codes applied");
}

#[test]
fn test_get_codes_for_file_with_empty_codebook() {
    // Setup: Empty codebook
    let codebook = create_test_codebook();
    let file = create_test_file("test.txt", 2);
    let block_map = build_block_map(&[&file]);

    // Execute
    let codes: Vec<QualCode> = codebook.get_codes_for_file(file.id, &block_map);

    // Assert: Should return empty
    assert_eq!(codes.len(), 0, "Empty codebook should return 0 codes");
}

#[test]
fn test_get_codes_for_file_with_orphaned_block() {
    // Setup: Create a code with a block_id that doesn't exist in the map
    let mut codebook = create_test_codebook();
    let file = create_test_file("test.txt", 1);
    let code_def_id = codebook.create_code_def("TestCode".to_string(), 1, None);

    // Create a code with a valid block
    let blocks = file.blocks().unwrap();
    let _valid_code = apply_test_code(&mut codebook, blocks[0].id, code_def_id, "valid");

    // Create a code with an orphaned block (not in any file)
    let orphaned_block_id = BlockId(Uuid::new_v4().as_u128());
    let _orphaned_code = apply_test_code(&mut codebook, orphaned_block_id, code_def_id, "orphaned");

    // Build map with only the valid file's blocks
    let block_map = build_block_map(&[&file]);

    // Execute: Get codes
    let codes: Vec<QualCode> = codebook.get_codes_for_file(file.id, &block_map);

    // Assert: Current behavior silently filters out orphaned blocks
    // Should only return the valid code, not the orphaned one
    assert_eq!(codes.len(), 1, "Should return only 1 valid code, orphaned code filtered out");

    // Execute: Remove codes for the file
    codebook.remove_codes_for_file(file.id, &block_map);

    // Assert: Valid code removed, but orphaned code should remain in codebook
    let codes_after: Vec<QualCode> = codebook.get_codes_for_file(file.id, &block_map);
    assert_eq!(codes_after.len(), 0, "Should have 0 codes for file after removal");

    // Verify the orphaned code still exists in the codebook (wasn't removed)
    assert_eq!(codebook.get_all_qual_codes().len(), 1, "Orphaned code should still exist in codebook");

    // NOTE: This test documents current behavior (silent filtering).
}

// ===== Tests for remove_code_def (cascade delete) =====

#[test]
fn test_remove_code_def_cascades_to_qual_codes() {
    // Setup: Create a codebook with 2 code defs and apply codes from both
    let mut codebook = create_test_codebook();
    let file = create_test_file("test.txt", 4);

    let code_def_1 = codebook.create_code_def("Code1".to_string(), 1, None);
    let code_def_2 = codebook.create_code_def("Code2".to_string(), 2, None);

    // Apply 2 codes from code_def_1
    let blocks = file.blocks().unwrap();
    let code_1a = apply_test_code(&mut codebook, blocks[0].id, code_def_1, "1a");
    let code_1b = apply_test_code(&mut codebook, blocks[1].id, code_def_1, "1b");

    // Apply 2 codes from code_def_2
    let code_2a = apply_test_code(&mut codebook, blocks[2].id, code_def_2, "2a");
    let code_2b = apply_test_code(&mut codebook, blocks[3].id, code_def_2, "2b");

    // Verify we have 4 codes total
    assert_eq!(codebook.get_all_qual_codes().len(), 4, "Should have 4 codes before removal");

    // Execute: Remove code_def_1
    let result = codebook.remove_code_def(code_def_1);
    assert!(result.is_ok(), "Should successfully remove code_def_1");

    // Assert: Only codes from code_def_2 should remain
    let remaining_codes = codebook.get_all_qual_codes();
    assert_eq!(remaining_codes.len(), 2, "Should have 2 codes after removing code_def_1");

    let remaining_ids: Vec<QualCodeId> = remaining_codes.iter().map(|c| c.id).collect();
    assert!(!remaining_ids.contains(&code_1a), "code_1a should be removed");
    assert!(!remaining_ids.contains(&code_1b), "code_1b should be removed");
    assert!(remaining_ids.contains(&code_2a), "code_2a should remain");
    assert!(remaining_ids.contains(&code_2b), "code_2b should remain");

    // Assert: code_def_1 should be gone from the codebook
    assert!(codebook.code_def(code_def_1).is_none(), "code_def_1 should not exist");
    assert!(codebook.code_def(code_def_2).is_some(), "code_def_2 should still exist");
}

#[test]
fn test_remove_code_def_with_no_applied_codes() {
    // Setup: Create a code def but never apply it
    let mut codebook = create_test_codebook();
    let code_def = codebook.create_code_def("Unused".to_string(), 1, None);

    assert_eq!(codebook.get_all_qual_codes().len(), 0, "Should have 0 codes initially");

    // Execute: Remove the unused code def
    let result = codebook.remove_code_def(code_def);

    // Assert: Should succeed
    assert!(result.is_ok(), "Should successfully remove unused code def");
    assert!(codebook.code_def(code_def).is_none(), "Code def should be removed");
    assert_eq!(codebook.get_all_qual_codes().len(), 0, "Should still have 0 codes");
}

#[test]
fn test_remove_nonexistent_code_def_returns_error() {
    // Setup: Empty codebook
    let mut codebook = create_test_codebook();
    let fake_id = CodeDefId(Uuid::new_v4().as_u128());

    // Execute: Try to remove a code def that doesn't exist
    let result = codebook.remove_code_def(fake_id);

    // Assert: Should return error
    assert!(result.is_err(), "Should return error for nonexistent code def");
    match result {
        Err(CodeBookError::CodeDefNotFound(id)) => {
            assert_eq!(id, fake_id, "Error should contain the correct ID");
        }
        _ => panic!("Expected CodeDefNotFound error"),
    }
}

#[test]
fn test_remove_code_def_across_multiple_files() {
    // Setup: Apply the same code def to blocks in multiple files
    let mut codebook = create_test_codebook();
    let file_a = create_test_file("a.txt", 2);
    let file_b = create_test_file("b.txt", 2);
    let block_map = build_block_map(&[&file_a, &file_b]);

    let code_def = codebook.create_code_def("SharedCode".to_string(), 1, None);

    // Apply codes to both files
    let blocks_a = file_a.blocks().unwrap();
    let blocks_b = file_b.blocks().unwrap();
    apply_test_code(&mut codebook, blocks_a[0].id, code_def, "a1");
    apply_test_code(&mut codebook, blocks_a[1].id, code_def, "a2");
    apply_test_code(&mut codebook, blocks_b[0].id, code_def, "b1");
    apply_test_code(&mut codebook, blocks_b[1].id, code_def, "b2");

    assert_eq!(codebook.get_all_qual_codes().len(), 4, "Should have 4 codes before removal");

    // Execute: Remove the code def
    let result = codebook.remove_code_def(code_def);
    assert!(result.is_ok(), "Should successfully remove code def");

    // Assert: All codes removed, both files affected
    assert_eq!(codebook.get_all_qual_codes().len(), 0, "All codes should be removed");

    let codes_a: Vec<QualCode> = codebook.get_codes_for_file(file_a.id, &block_map);
    let codes_b: Vec<QualCode> = codebook.get_codes_for_file(file_b.id, &block_map);

    assert_eq!(codes_a.len(), 0, "File A should have 0 codes");
    assert_eq!(codes_b.len(), 0, "File B should have 0 codes");
}

// ===== Tests for theme operations =====

#[test]
fn test_remove_theme_moves_codes_to_top_level() {
    // Setup: Create theme with codes, verify removal moves codes to top-level
    let mut codebook = create_test_codebook();

    let theme_id = codebook.create_theme("Theme1".to_string(), 1);
    let _code_def_1 = codebook.create_code_def("Code1".to_string(), 1, Some(theme_id));
    let _code_def_2 = codebook.create_code_def("Code2".to_string(), 2, Some(theme_id));
    let _code_def_3 = codebook.create_code_def("TopLevel".to_string(), 3, None);

    // Verify setup
    assert_eq!(codebook.get_codes_in_theme(theme_id).len(), 2, "Theme should have 2 codes");
    assert_eq!(codebook.get_top_level_codes().len(), 1, "Should have 1 top-level code");

    // Execute: Remove the theme
    let result = codebook.remove_theme(theme_id);
    assert!(result.is_ok(), "Should successfully remove theme");

    // Assert: All codes should now be top-level
    assert_eq!(codebook.get_top_level_codes().len(), 3, "All 3 codes should be top-level");
    assert_eq!(codebook.get_codes_in_theme(theme_id).len(), 0, "Removed theme should have 0 codes");

    // Verify theme is gone
    assert!(codebook.theme(theme_id).is_none(), "Theme should not exist");
}

#[test]
fn test_move_code_to_theme_and_filtering() {
    // Setup: Create codes and themes, move codes between them
    let mut codebook = create_test_codebook();

    let theme_a = codebook.create_theme("ThemeA".to_string(), 1);
    let theme_b = codebook.create_theme("ThemeB".to_string(), 2);

    let code_1 = codebook.create_code_def("Code1".to_string(), 1, None);
    let code_2 = codebook.create_code_def("Code2".to_string(), 2, None);
    let code_3 = codebook.create_code_def("Code3".to_string(), 3, None);

    // All codes start as top-level
    assert_eq!(codebook.get_top_level_codes().len(), 3, "Should have 3 top-level codes");

    // Execute: Move codes to themes
    codebook.move_code_to_theme(code_1, theme_a);
    codebook.move_code_to_theme(code_2, theme_a);
    codebook.move_code_to_theme(code_3, theme_b);

    // Assert: Codes are in correct themes
    let theme_a_codes: Vec<CodeDefId> =
        codebook.get_codes_in_theme(theme_a).iter().map(|c| c.id).collect();
    let theme_b_codes: Vec<CodeDefId> =
        codebook.get_codes_in_theme(theme_b).iter().map(|c| c.id).collect();

    assert_eq!(theme_a_codes.len(), 2, "Theme A should have 2 codes");
    assert!(theme_a_codes.contains(&code_1), "Theme A should contain code_1");
    assert!(theme_a_codes.contains(&code_2), "Theme A should contain code_2");

    assert_eq!(theme_b_codes.len(), 1, "Theme B should have 1 code");
    assert!(theme_b_codes.contains(&code_3), "Theme B should contain code_3");

    assert_eq!(codebook.get_top_level_codes().len(), 0, "Should have 0 top-level codes");
}

#[test]
fn test_remove_code_from_theme_returns_to_top_level() {
    // Setup: Create theme with codes
    let mut codebook = create_test_codebook();

    let theme_id = codebook.create_theme("Theme1".to_string(), 1);
    let code_1 = codebook.create_code_def("Code1".to_string(), 1, Some(theme_id));
    let _code_2 = codebook.create_code_def("Code2".to_string(), 2, Some(theme_id));

    assert_eq!(codebook.get_codes_in_theme(theme_id).len(), 2, "Theme should have 2 codes");
    assert_eq!(codebook.get_top_level_codes().len(), 0, "Should have 0 top-level codes");

    // Execute: Remove code_1 from theme
    let result = codebook.remove_code_from_theme(code_1);
    assert!(result.is_ok(), "Should successfully remove code from theme");

    // Assert: code_1 is now top-level, code_2 still in theme
    assert_eq!(codebook.get_codes_in_theme(theme_id).len(), 1, "Theme should have 1 code");
    assert_eq!(codebook.get_top_level_codes().len(), 1, "Should have 1 top-level code");

    let top_level_codes: Vec<CodeDefId> =
        codebook.get_top_level_codes().iter().map(|c| c.id).collect();
    assert!(top_level_codes.contains(&code_1), "code_1 should be top-level");
}

#[test]
fn test_move_code_between_themes() {
    // Setup: Create 2 themes and a code in theme A
    let mut codebook = create_test_codebook();

    let theme_a = codebook.create_theme("ThemeA".to_string(), 1);
    let theme_b = codebook.create_theme("ThemeB".to_string(), 2);
    let code_id = codebook.create_code_def("Code1".to_string(), 1, Some(theme_a));

    // Verify initial state
    assert_eq!(codebook.get_codes_in_theme(theme_a).len(), 1, "Theme A should have 1 code");
    assert_eq!(codebook.get_codes_in_theme(theme_b).len(), 0, "Theme B should have 0 codes");

    // Execute: Move code from theme A to theme B
    codebook.move_code_to_theme(code_id, theme_b);

    // Assert: Code moved from A to B
    assert_eq!(codebook.get_codes_in_theme(theme_a).len(), 0, "Theme A should have 0 codes");
    assert_eq!(codebook.get_codes_in_theme(theme_b).len(), 1, "Theme B should have 1 code");

    let theme_b_codes: Vec<CodeDefId> =
        codebook.get_codes_in_theme(theme_b).iter().map(|c| c.id).collect();
    assert!(theme_b_codes.contains(&code_id), "Theme B should contain the code");
}

#[test]
fn test_remove_nonexistent_theme_returns_error() {
    // Setup: Empty codebook
    let mut codebook = create_test_codebook();
    let fake_id = ThemeId(Uuid::new_v4().as_u128());

    // Execute: Try to remove nonexistent theme
    let result = codebook.remove_theme(fake_id);

    // Assert: Should return error
    assert!(result.is_err(), "Should return error for nonexistent theme");
    match result {
        Err(CodeBookError::ThemeNotFound(id)) => {
            assert_eq!(id, fake_id, "Error should contain the correct ID");
        }
        _ => panic!("Expected ThemeNotFound error"),
    }
}

#[test]
fn test_remove_code_from_theme_with_nonexistent_code() {
    // Setup: Empty codebook
    let mut codebook = create_test_codebook();
    let fake_id = CodeDefId(Uuid::new_v4().as_u128());

    // Execute: Try to remove nonexistent code from theme
    let result = codebook.remove_code_from_theme(fake_id);

    // Assert: Should return error
    assert!(result.is_err(), "Should return error for nonexistent code");
    match result {
        Err(CodeBookError::CodeDefNotFound(id)) => {
            assert_eq!(id, fake_id, "Error should contain the correct ID");
        }
        _ => panic!("Expected CodeDefNotFound error"),
    }
}

#[test]
fn test_theme_isolation_with_multiple_themes() {
    // Setup: Create 3 themes with codes in each
    let mut codebook = create_test_codebook();

    let theme_1 = codebook.create_theme("Theme1".to_string(), 1);
    let theme_2 = codebook.create_theme("Theme2".to_string(), 2);
    let theme_3 = codebook.create_theme("Theme3".to_string(), 3);

    let code_1a = codebook.create_code_def("Code1A".to_string(), 1, Some(theme_1));
    let code_1b = codebook.create_code_def("Code1B".to_string(), 2, Some(theme_1));
    let code_2a = codebook.create_code_def("Code2A".to_string(), 3, Some(theme_2));
    let code_3a = codebook.create_code_def("Code3A".to_string(), 4, Some(theme_3));
    let code_top = codebook.create_code_def("TopLevel".to_string(), 5, None);

    // Assert: Each theme has correct codes
    let t1_codes: Vec<CodeDefId> =
        codebook.get_codes_in_theme(theme_1).iter().map(|c| c.id).collect();
    let t2_codes: Vec<CodeDefId> =
        codebook.get_codes_in_theme(theme_2).iter().map(|c| c.id).collect();
    let t3_codes: Vec<CodeDefId> =
        codebook.get_codes_in_theme(theme_3).iter().map(|c| c.id).collect();
    let top_codes: Vec<CodeDefId> = codebook.get_top_level_codes().iter().map(|c| c.id).collect();

    assert_eq!(t1_codes.len(), 2, "Theme 1 should have 2 codes");
    assert!(t1_codes.contains(&code_1a) && t1_codes.contains(&code_1b));

    assert_eq!(t2_codes.len(), 1, "Theme 2 should have 1 code");
    assert!(t2_codes.contains(&code_2a));

    assert_eq!(t3_codes.len(), 1, "Theme 3 should have 1 code");
    assert!(t3_codes.contains(&code_3a));

    assert_eq!(top_codes.len(), 1, "Should have 1 top-level code");
    assert!(top_codes.contains(&code_top));

    // Execute: Remove theme 2
    codebook.remove_theme(theme_2).unwrap();

    // Assert: Theme 2's code moved to top-level, others unaffected
    assert_eq!(codebook.get_codes_in_theme(theme_1).len(), 2, "Theme 1 still has 2 codes");
    assert_eq!(codebook.get_codes_in_theme(theme_3).len(), 1, "Theme 3 still has 1 code");
    assert_eq!(codebook.get_top_level_codes().len(), 2, "Should now have 2 top-level codes");
}
