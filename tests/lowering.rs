use wasm_ic::{
    body_from_span, branch_table_from_records, compile_wat, compute_branch_table,
    extract_function_body, lower_module, lower_wat_source, run_with_wasmtime, BranchEntry,
    InstrKind, InstrRecord, LowerError,
};

fn lower(wat: &str) -> (Vec<u8>, Vec<BranchEntry>, i32) {
    let wasm = compile_wat(wat).expect("WAT parse failed");
    let body = extract_function_body(&wasm).expect("body extraction failed");
    let branches = compute_branch_table(&body).expect("branch table failed");
    let result = run_with_wasmtime(&wasm).expect("wasmtime failed");
    (body, branches, result)
}

fn compile_and_check(wat: &str, expected_result: i32, expected_branches: &[(u32, u32)]) {
    let (_, branches, result) = lower(wat);
    assert_eq!(result, expected_result, "wasmtime result mismatch");
    let branch_pairs: Vec<(u32, u32)> = branches.iter().map(|e| (e.source_pc, e.target_pc)).collect();
    assert_eq!(branch_pairs, expected_branches, "branch table mismatch");
}

#[test]
fn test_add() {
    compile_and_check(
        r#"(module (func (export "main") (result i32)
            i32.const 10
            i32.const 20
            i32.add))"#,
        30,
        &[],
    );
}

#[test]
fn test_expr() {
    compile_and_check(
        r#"(module (func (export "main") (result i32)
            i32.const 3
            i32.const 5
            i32.add
            i32.const 2
            i32.mul))"#,
        16,
        &[],
    );
}

#[test]
fn test_sub() {
    compile_and_check(
        r#"(module (func (export "main") (result i32)
            i32.const 20
            i32.const 7
            i32.sub))"#,
        13,
        &[],
    );
}

#[test]
fn test_block_br() {
    let (_, branches, result) = lower(
        r#"(module (func (export "main") (result i32)
            block
              br 0
            end
            i32.const 99))"#,
    );
    assert_eq!(result, 99);
    assert!(!branches.is_empty(), "should have branch entries");
    let br_entry = &branches[0];
    assert!(br_entry.target_pc > br_entry.source_pc, "br should jump forward");
}

#[test]
fn test_if_else() {
    let (_, branches, result) = lower(
        r#"(module (func (export "main") (result i32)
            i32.const 1
            if (result i32)
              i32.const 42
            else
              i32.const 0
            end))"#,
    );
    assert_eq!(result, 42);
    assert_eq!(branches.len(), 2, "if/else should produce 2 branch entries");
    assert!(branches[1].target_pc > branches[0].target_pc, "else target should be past if target");
}

#[test]
fn block_br_exact_entry() {
    let (body, branches, _) = lower(
        r#"(module (func (export "main") (result i32)
            block
              br 0
            end
            i32.const 99))"#,
    );
    assert_eq!(body, vec![0x02, 0x40, 0x0C, 0x00, 0x0B, 0x41, 0xE3, 0x00, 0x0F]);
    assert_eq!(branches, vec![BranchEntry { source_pc: 2, target_pc: 5 }]);
}

#[test]
fn if_else_exact_entries() {
    let (body, branches, _) = lower(
        r#"(module (func (export "main") (result i32)
            i32.const 1
            if (result i32)
              i32.const 42
            else
              i32.const 0
            end))"#,
    );
    assert_eq!(body, vec![0x41, 0x01, 0x04, 0x7F, 0x41, 0x2A, 0x05, 0x41, 0x00, 0x0B, 0x0F]);
    assert_eq!(
        branches,
        vec![BranchEntry { source_pc: 2, target_pc: 7 }, BranchEntry { source_pc: 6, target_pc: 10 }]
    );
}

#[test]
fn if_without_else_jumps_past_end() {
    // i32.const 1; if; i32.const 5; drop; end; return
    let body = [0x41, 0x01, 0x04, 0x40, 0x41, 0x05, 0x1A, 0x0B, 0x0F];
    let branches = compute_branch_table(&body).unwrap();
    assert_eq!(branches, vec![BranchEntry { source_pc: 2, target_pc: 8 }]);
}

#[test]
fn loop_branch_goes_back_to_body() {
    // loop; br 0; end; return
    let body = [0x03, 0x40, 0x0C, 0x00, 0x0B, 0x0F];
    let branches = compute_branch_table(&body).unwrap();
    assert_eq!(branches, vec![BranchEntry { source_pc: 2, target_pc: 2 }]);
    assert!(branches[0].target_pc <= branches[0].source_pc);
}

#[test]
fn br_if_out_of_nested_blocks() {
    // block; loop; i32.const 0; br_if 1; end; end; return
    let body = [0x02, 0x40, 0x03, 0x40, 0x41, 0x00, 0x0D, 0x01, 0x0B, 0x0B, 0x0F];
    let branches = compute_branch_table(&body).unwrap();
    assert_eq!(branches, vec![BranchEntry { source_pc: 6, target_pc: 10 }]);
}

#[test]
fn branch_too_deep_is_rejected() {
    // br 1 with no open scope
    let body = [0x0C, 0x01, 0x0F];
    assert_eq!(compute_branch_table(&body), Err(LowerError::DepthExceeded { offset: 0, depth: 1 }));
}

#[test]
fn branch_to_unclosed_block_is_unresolved() {
    // block; br 0; return (no end)
    let body = [0x02, 0x40, 0x0C, 0x00, 0x0F];
    assert_eq!(compute_branch_table(&body), Err(LowerError::UnresolvedEnd { offset: 0 }));
}

#[test]
fn truncated_operand_is_malformed() {
    assert_eq!(compute_branch_table(&[0x41]), Err(LowerError::MalformedInput));
}

#[test]
fn empty_body_has_empty_table() {
    assert_eq!(compute_branch_table(&[]), Ok(vec![]));
}

#[test]
fn plain_body_has_empty_table() {
    let body = [0x41, 0x0A, 0x41, 0x14, 0x6A, 0x0F];
    assert_eq!(compute_branch_table(&body), Ok(vec![]));
}

#[test]
fn lowering_twice_gives_the_same_table() {
    let body = [0x02, 0x40, 0x03, 0x40, 0x41, 0x00, 0x0D, 0x01, 0x0B, 0x0B, 0x0F];
    assert_eq!(compute_branch_table(&body), compute_branch_table(&body));
}

#[test]
fn extracted_body_ends_with_return() {
    let wasm = compile_wat(r#"(module (func (export "main") (result i32) i32.const 7))"#).unwrap();
    let body = extract_function_body(&wasm).unwrap();
    assert_eq!(body, vec![0x41, 0x07, 0x0F]);
}

#[test]
fn locals_are_skipped() {
    let wasm = compile_wat(
        r#"(module (func (export "main") (result i32) (local i32) local.get 0))"#,
    )
    .unwrap();
    let body = extract_function_body(&wasm).unwrap();
    assert_eq!(body, vec![0x20, 0x00, 0x0F]);
}

#[test]
fn module_without_function_has_no_code_section() {
    let wasm = compile_wat("(module)").unwrap();
    assert_eq!(extract_function_body(&wasm), Err(LowerError::NoCodeSection));
}

#[test]
fn garbage_module_is_malformed() {
    assert_eq!(extract_function_body(&[0x00, 0x61, 0x73]), Err(LowerError::MalformedInput));
}

#[test]
fn bad_text_does_not_assemble() {
    assert_eq!(compile_wat("(module"), Err(LowerError::InvalidText));
}

#[test]
fn oracle_needs_an_exported_main() {
    let wasm = compile_wat("(module)").unwrap();
    assert_eq!(run_with_wasmtime(&wasm), Err(LowerError::OracleFailed));
}

#[test]
fn oracle_reports_a_trap() {
    let wasm = compile_wat(r#"(module (func (export "main") (result i32) unreachable))"#).unwrap();
    assert_eq!(run_with_wasmtime(&wasm), Err(LowerError::OracleFailed));
}

#[test]
fn lowering_module_text_fills_the_test_info() {
    let info = lower_wat_source(
        "if_else".to_string(),
        r#"(module (func (export "main") (result i32)
            i32.const 1
            if (result i32)
              i32.const 42
            else
              i32.const 0
            end))"#,
    )
    .unwrap();
    assert_eq!(info.name, "if_else");
    assert_eq!(info.body_bytes, vec![0x41, 0x01, 0x04, 0x7F, 0x41, 0x2A, 0x05, 0x41, 0x00, 0x0B, 0x0F]);
    assert_eq!(
        info.branch_table,
        vec![BranchEntry { source_pc: 2, target_pc: 7 }, BranchEntry { source_pc: 6, target_pc: 10 }]
    );
    assert_eq!(info.expected, 42);
}

#[test]
fn lowering_reports_each_stage_failure() {
    assert_eq!(lower_wat_source("x".to_string(), "(module").unwrap_err(), LowerError::InvalidText);
    assert_eq!(lower_wat_source("x".to_string(), "(module)").unwrap_err(), LowerError::NoCodeSection);
    assert_eq!(
        lower_wat_source("x".to_string(), r#"(module (func (export "go") (result i32) i32.const 1))"#)
            .unwrap_err(),
        LowerError::OracleFailed
    );
}

fn rec(offset: usize, kind: InstrKind) -> InstrRecord {
    InstrRecord { offset, kind }
}

#[test]
fn records_resolve_to_if_else_entries() {
    let instrs = [
        rec(0, InstrKind::Other),
        rec(2, InstrKind::If),
        rec(4, InstrKind::Other),
        rec(6, InstrKind::Else),
        rec(7, InstrKind::Other),
        rec(9, InstrKind::End),
        rec(10, InstrKind::Other),
    ];
    assert_eq!(
        branch_table_from_records(&instrs, 11),
        Ok(vec![BranchEntry { source_pc: 2, target_pc: 7 }, BranchEntry { source_pc: 6, target_pc: 10 }])
    );
}

#[test]
fn records_resolve_loop_and_block_targets() {
    // block@0 { loop@2 { br 0 @4; br_if 1 @6 } end@8 } end@9
    let instrs = [
        rec(0, InstrKind::Block),
        rec(2, InstrKind::Loop),
        rec(4, InstrKind::Br(0)),
        rec(6, InstrKind::BrIf(1)),
        rec(8, InstrKind::End),
        rec(9, InstrKind::End),
    ];
    assert_eq!(
        branch_table_from_records(&instrs, 10),
        Ok(vec![BranchEntry { source_pc: 4, target_pc: 4 }, BranchEntry { source_pc: 6, target_pc: 10 }])
    );
}

#[test]
fn records_tolerate_stray_else_and_end() {
    let instrs = [
        rec(0, InstrKind::Else),
        rec(1, InstrKind::End),
        rec(2, InstrKind::Block),
        rec(4, InstrKind::Else),
        rec(5, InstrKind::End),
    ];
    assert_eq!(branch_table_from_records(&instrs, 6), Ok(vec![]));
}

#[test]
fn records_reject_a_branch_past_the_scopes() {
    let instrs = [rec(0, InstrKind::Block), rec(2, InstrKind::Br(1)), rec(4, InstrKind::End)];
    assert_eq!(
        branch_table_from_records(&instrs, 5),
        Err(LowerError::DepthExceeded { offset: 2, depth: 1 })
    );
}

#[test]
fn span_is_cut_and_last_end_rewritten() {
    let wasm = [0xAA, 0x41, 0x07, 0x0B, 0xBB];
    assert_eq!(body_from_span(&wasm, Some((1, 4))), Ok(vec![0x41, 0x07, 0x0F]));
    assert_eq!(body_from_span(&wasm, Some((1, 3))), Ok(vec![0x41, 0x07]));
    assert_eq!(body_from_span(&wasm, Some((2, 2))), Ok(vec![]));
    assert_eq!(body_from_span(&wasm, Some((3, 2))), Err(LowerError::MalformedInput));
    assert_eq!(body_from_span(&wasm, Some((1, 6))), Err(LowerError::MalformedInput));
    assert_eq!(body_from_span(&wasm, None), Err(LowerError::NoCodeSection));
}

#[test]
fn binary_module_lowers_to_body_and_table() {
    let wasm = compile_wat(
        r#"(module (func (export "main") (result i32)
            block
              br 0
            end
            i32.const 99))"#,
    )
    .unwrap();
    assert_eq!(
        lower_module(&wasm),
        Ok((
            vec![0x02, 0x40, 0x0C, 0x00, 0x0B, 0x41, 0xE3, 0x00, 0x0F],
            vec![BranchEntry { source_pc: 2, target_pc: 5 }]
        ))
    );
    let empty = compile_wat("(module)").unwrap();
    assert_eq!(lower_module(&empty), Err(LowerError::NoCodeSection));
}

#[test]
fn oracle_stops_a_main_that_never_ends() {
    let wasm = compile_wat(
        r#"(module (func (export "main") (result i32)
            loop
              br 0
            end
            i32.const 0))"#,
    )
    .unwrap();
    assert_eq!(run_with_wasmtime(&wasm), Err(LowerError::OracleFailed));
}

#[test]
fn oracle_stops_a_start_function_that_never_ends() {
    let wasm = compile_wat(
        r#"(module
            (func $spin loop br 0 end)
            (start $spin)
            (func (export "main") (result i32) i32.const 1))"#,
    )
    .unwrap();
    assert_eq!(run_with_wasmtime(&wasm), Err(LowerError::OracleFailed));
}
