use wasm_ic::{branch_hex_text, expected_text, generate_svh, prog_hex_text, BranchEntry, WatTestInfo};

#[test]
fn prog_hex_one_byte_per_line() {
    assert_eq!(prog_hex_text(&[0x41, 0x0A, 0xFF, 0x0F]), "41\n0A\nFF\n0F\n");
}

#[test]
fn prog_hex_of_nothing_is_empty() {
    assert_eq!(prog_hex_text(&[]), "");
}

#[test]
fn branch_hex_two_fields_per_line() {
    let entries = [
        BranchEntry { source_pc: 2, target_pc: 7 },
        BranchEntry { source_pc: 0xABCDEF01, target_pc: 10 },
    ];
    assert_eq!(branch_hex_text(&entries), "00000002 00000007\nABCDEF01 0000000A\n");
    assert_eq!(branch_hex_text(&[]), "");
}

#[test]
fn expected_value_in_decimal() {
    assert_eq!(expected_text(30), "30\n");
    assert_eq!(expected_text(0), "0\n");
    assert_eq!(expected_text(-13), "-13\n");
    assert_eq!(expected_text(i32::MIN), "-2147483648\n");
    assert_eq!(expected_text(i32::MAX), "2147483647\n");
}

#[test]
fn svh_for_one_program() {
    let t = WatTestInfo {
        name: "branch".to_string(),
        body_bytes: vec![0x0C, 0x00, 0x0F],
        branch_table: vec![BranchEntry { source_pc: 0, target_pc: 2 }],
        expected: -5,
    };
    let text = generate_svh(&[t]);
    let want = [
        "// Auto-generated by wasm-compile gen-tests. Do not edit.\n\n",
        "task run_wat_branch;\n",
        "    do_reset();\n",
        "    prog_rom[0] = 8'h0C;\n",
        "    prog_rom[1] = 8'h00;\n",
        "    prog_rom[2] = 8'h0F;\n",
        "    bt_write(32'h00000000, 32'h00000002);\n",
        "    run_program();\n",
        "    check_wat(\"branch\", 32'sd-5);\n",
        "endtask\n\n",
        "task run_all_wat_tests;\n",
        "    run_wat_branch();\n",
        "endtask\n",
    ]
    .concat();
    assert_eq!(text, want);
}

#[test]
fn svh_for_no_programs() {
    assert_eq!(
        generate_svh(&[]),
        "// Auto-generated by wasm-compile gen-tests. Do not edit.\n\ntask run_all_wat_tests;\nendtask\n"
    );
}

#[test]
fn loop_program_is_skipped() {
    assert!(wasm_ic::SKIP_FILES.contains(&"loop"));
}
