use vstd::prelude::*;
use crate::branch::{branch_table_of, compute_branch_table, BranchEntry};
use crate::instr::LowerError;
use crate::module::{compile_wat, extract_function_body, function_body_of};
use crate::oracle::run_with_wasmtime;
use crate::render::WatTestInfo;

verus! {

/// What lowering a binary module gives: its first function's instruction
/// bytes and their branch table.
pub open spec fn lowered_module(wasm: Seq<u8>) -> Result<(Seq<u8>, Seq<BranchEntry>), LowerError> {
    match function_body_of(wasm) {
        Err(e) => Err(e),
        Ok(body) => if body.len() >= u32::MAX {
            Err(LowerError::BodyTooLarge)
        } else {
            match branch_table_of(body) {
                Err(e) => Err(e),
                Ok(table) => Ok((body, table)),
            }
        },
    }
}

/// Lowers a binary module: extracts its first function's instruction bytes
/// and computes their branch table.
pub fn lower_module(wasm: &[u8]) -> (r: Result<(Vec<u8>, Vec<BranchEntry>), LowerError>)
    ensures
        match r {
            Ok((body, table)) => lowered_module(wasm@) == Ok::<(Seq<u8>, Seq<BranchEntry>), LowerError>((body@, table@)),
            Err(e) => lowered_module(wasm@) == Err::<(Seq<u8>, Seq<BranchEntry>), LowerError>(e),
        },
{
    let body_bytes = extract_function_body(wasm)?;
    if body_bytes.len() >= u32::MAX as usize {
        return Err(LowerError::BodyTooLarge);
    }
    let branch_table = compute_branch_table(&body_bytes)?;
    Ok((body_bytes, branch_table))
}

/// Lowers one program given as module text: assembles it, lowers the binary
/// module, and runs it with wasmtime for the value the hardware must produce.
pub fn lower_wat_source(name: String, source: &str) -> (r: Result<WatTestInfo, LowerError>)
    ensures
        match r {
            Ok(t) => {
                &&& t.name@ == name@
                &&& exists|wasm: Seq<u8>| #[trigger] lowered_module(wasm)
                    == Ok::<(Seq<u8>, Seq<BranchEntry>), LowerError>((t.body_bytes@, t.branch_table@))
            },
            Err(e) => e == LowerError::InvalidText || e == LowerError::OracleFailed
                || exists|wasm: Seq<u8>| #[trigger] lowered_module(wasm) == Err::<(Seq<u8>, Seq<BranchEntry>), LowerError>(e),
        },
{
    let wasm = compile_wat(source)?;
    let (body_bytes, branch_table) = match lower_module(&wasm) {
        Ok(lowered) => lowered,
        Err(e) => {
            proof {
                assert(lowered_module(wasm@) == Err::<(Seq<u8>, Seq<BranchEntry>), LowerError>(e));
            }
            return Err(e);
        },
    };
    let expected = run_with_wasmtime(&wasm)?;
    proof {
        assert(lowered_module(wasm@) == Ok::<(Seq<u8>, Seq<BranchEntry>), LowerError>((body_bytes@, branch_table@)));
    }
    Ok(WatTestInfo { name, body_bytes, branch_table, expected })
}

} // verus!
