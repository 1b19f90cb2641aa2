//! Lowers one WebAssembly function body with structured control flow into a
//! flat byte stream plus a table of absolute `(source_pc, target_pc)` jumps,
//! for an execution core that knows nothing of block nesting.
mod branch;
mod instr;
mod laws;
mod module;
mod oracle;
mod pipeline;
mod render;

pub use branch::{
    block_ends, branch_pass, branch_step, branch_table_from_records, branch_table_of, branch_target,
    compute_branch_table,
    end_pass, entry, table_of, BlockInfo, BranchEntry, Scope,
};
pub use instr::{
    collect_instructions, decoded_ops, instr_ok, laid_out, lemma_scanned_laid_out, opcode_matches,
    records_of,
    scanned, BlockKind, InstrKind, InstrRecord, LowerError,
};
pub use laws::{
    lemma_body_never_ends_with_end, lemma_branch_direction, lemma_if_else_ordering,
    lemma_lowering_deterministic, lemma_no_branch_empty_table,
};
pub use module::{
    body_from_span, body_of_span, compile_wat, extract_function_body, first_body_span,
    function_body_of, rewrite_last_end, END_OPCODE, RETURN_OPCODE,
};
pub use oracle::{run_with_wasmtime, ORACLE_FUEL};
pub use pipeline::{lower_module, lower_wat_source, lowered_module};
pub use render::{
    branch_hex_text, branch_line, branch_lines, bt_lines, dec_text, expected_text, generate_svh,
    hex_char, hex_text, prog_hex, prog_hex_text, prog_lines, rom_lines, signed_dec_text, svh_calls,
    svh_task, svh_tasks, svh_text, WatTestInfo, SKIP_FILES,
};
