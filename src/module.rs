use vstd::prelude::*;
use crate::instr::LowerError;

verus! {

/// The structural `end` opcode.
pub const END_OPCODE: u8 = 0x0B;

/// The explicit `return` opcode that stands for the final `end` in the flat program.
pub const RETURN_OPCODE: u8 = 0x0F;

#[verifier::external_type_specification]
#[verifier::external_body]
pub struct ExWatError(wat::Error);

/// Where wasmparser finds the first function body of a module: the offset at
/// which its operators start (its locals declarations skipped) and the offset
/// at which the body ends. `Some(None)` when the module has no function body,
/// `None` when the module does not parse up to there.
pub uninterp spec fn first_body_span(wasm: Seq<u8>) -> Option<Option<(usize, usize)>>;

/// Relies on wasmparser's `Parser::parse_all` to walk the module's payloads up
/// to the first code section entry, and on that `FunctionBody`'s
/// `get_operators_reader` and `range` for where its operators start and where
/// it ends.
#[verifier::external_body]
fn first_body_span_of(wasm: &[u8]) -> (r: Result<Option<(usize, usize)>, wasmparser::Error>)
    ensures
        match r {
            Ok(span) => first_body_span(wasm@) == Some(span),
            Err(_) => first_body_span(wasm@) is None,
        },
{
    for payload in wasmparser::Parser::new(0).parse_all(wasm) {
        if let wasmparser::Payload::CodeSectionEntry(body) = payload? {
            let ops = body.get_operators_reader()?;
            return Ok(Some((ops.original_position() as usize, body.range().end as usize)));
        }
    }
    Ok(None)
}

/// Relies on `wat::parse_str` to assemble module text into its binary form.
/// Nothing is stated of the result: with its component-model support the
/// crate reads a process setting that changes which texts it accepts.
#[verifier::external_body]
fn assemble(source: &str) -> (r: Result<Vec<u8>, wat::Error>) {
    wat::parse_str(source)
}

/// The stream with its last byte turned from `end` into `return`, where it is `end`.
pub open spec fn rewrite_last_end(b: Seq<u8>) -> Seq<u8> {
    if b.len() > 0 && b.last() == END_OPCODE {
        b.update(b.len() - 1, RETURN_OPCODE)
    } else {
        b
    }
}

/// The instruction bytes that a body span of `wasm` stands for: the bytes
/// from where its operators start to where it ends, the last `end` rewritten.
pub open spec fn body_of_span(wasm: Seq<u8>, span: Option<(usize, usize)>) -> Result<Seq<u8>, LowerError> {
    match span {
        Some((start, end)) => if start <= end <= wasm.len() {
            Ok(rewrite_last_end(wasm.subrange(start as int, end as int)))
        } else {
            Err(LowerError::MalformedInput)
        },
        None => Err(LowerError::NoCodeSection),
    }
}

/// The instruction bytes of a module's first function, ready for the flat core.
pub open spec fn function_body_of(wasm: Seq<u8>) -> Result<Seq<u8>, LowerError> {
    match first_body_span(wasm) {
        Some(span) => body_of_span(wasm, span),
        None => Err(LowerError::MalformedInput),
    }
}

/// Cuts a function's instruction bytes out of a module, given where its
/// operators start and where its body ends (`None`: the module has no
/// function body), and rewrites a trailing `end` to `return`.
pub fn body_from_span(wasm_bytes: &[u8], span: Option<(usize, usize)>) -> (r: Result<Vec<u8>, LowerError>)
    ensures
        match r {
            Ok(v) => body_of_span(wasm_bytes@, span) == Ok::<Seq<u8>, LowerError>(v@),
            Err(e) => body_of_span(wasm_bytes@, span) == Err::<Seq<u8>, LowerError>(e),
        },
        r matches Ok(v) ==> v@.len() == 0 || v@.last() != END_OPCODE,
{
    let (start, end) = match span {
        Some(s) => s,
        None => return Err(LowerError::NoCodeSection),
    };
    if start > end || end > wasm_bytes.len() {
        return Err(LowerError::MalformedInput);
    }
    let mut bytes: Vec<u8> = Vec::new();
    let mut i: usize = start;
    while i < end
        invariant
            start <= i <= end <= wasm_bytes@.len(),
            bytes@ == wasm_bytes@.subrange(start as int, i as int),
        decreases end - i,
    {
        bytes.push(wasm_bytes[i]);
        i += 1;
        proof {
            assert(bytes@ =~= wasm_bytes@.subrange(start as int, i as int));
        }
    }
    let n = bytes.len();
    if n > 0 && bytes[n - 1] == END_OPCODE {
        bytes.set(n - 1, RETURN_OPCODE);
    }
    Ok(bytes)
}

/// Extracts the operator bytes of a module's first function (locals skipped),
/// with a trailing `end` rewritten to `return`.
pub fn extract_function_body(wasm_bytes: &[u8]) -> (r: Result<Vec<u8>, LowerError>)
    ensures
        match r {
            Ok(v) => function_body_of(wasm_bytes@) == Ok::<Seq<u8>, LowerError>(v@),
            Err(e) => function_body_of(wasm_bytes@) == Err::<Seq<u8>, LowerError>(e),
        },
        r matches Ok(v) ==> v@.len() == 0 || v@.last() != END_OPCODE,
{
    match first_body_span_of(wasm_bytes) {
        Ok(span) => body_from_span(wasm_bytes, span),
        Err(_) => Err(LowerError::MalformedInput),
    }
}

/// Assembles WebAssembly module text into a binary module.
pub fn compile_wat(source: &str) -> (r: Result<Vec<u8>, LowerError>)
    ensures
        r matches Err(e) ==> e == LowerError::InvalidText,
{
    match assemble(source) {
        Ok(v) => Ok(v),
        Err(_) => Err(LowerError::InvalidText),
    }
}

} // verus!
