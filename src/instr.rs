use vstd::prelude::*;

verus! {

/// The three kinds of scope that open a nesting level.
#[derive(Clone, Copy, Debug, PartialEq, Eq, Structural)]
pub enum BlockKind {
    Block,
    Loop,
    If,
}

/// What the lowering cares about in one decoded instruction.
#[derive(Clone, Copy, Debug, PartialEq, Eq, Structural)]
pub enum InstrKind {
    Block,
    Loop,
    If,
    Else,
    End,
    Br(u32),
    BrIf(u32),
    Other,
}

/// One decoded instruction and the PC at which it starts.
#[derive(Clone, Copy, Debug, PartialEq, Eq, Structural)]
pub struct InstrRecord {
    pub offset: usize,
    pub kind: InstrKind,
}

/// Why a lowering was abandoned.
#[derive(Clone, Copy, Debug, PartialEq, Eq, Structural)]
pub enum LowerError {
    /// The module holds no function body.
    NoCodeSection,
    /// The bytes do not decode into a sequence of instructions.
    MalformedInput,
    /// A branch at `offset` names a scope `depth` levels out that is not open.
    DepthExceeded { offset: usize, depth: u32 },
    /// The block or `if` opened at `offset` has no matching `end`.
    UnresolvedEnd { offset: usize },
    /// The module text does not assemble.
    InvalidText,
    /// wasmtime could not run the module's `main`.
    OracleFailed,
    /// The function body is too long for 32-bit program counters.
    BodyTooLarge,
}

pub open spec fn opens_scope(k: InstrKind) -> bool {
    k is Block || k is Loop || k is If
}

/// The opcode byte that starts an instruction of kind `k`.
pub open spec fn opcode_matches(op: u8, k: InstrKind) -> bool {
    match k {
        InstrKind::Block => op == 0x02,
        InstrKind::Loop => op == 0x03,
        InstrKind::If => op == 0x04,
        InstrKind::Else => op == 0x05,
        InstrKind::End => op == 0x0B,
        InstrKind::Br(_) => op == 0x0C,
        InstrKind::BrIf(_) => op == 0x0D,
        InstrKind::Other => !(op == 0x02 || op == 0x03 || op == 0x04 || op == 0x05 || op == 0x0B
            || op == 0x0C || op == 0x0D),
    }
}

#[verifier::external_type_specification]
#[verifier::external_body]
pub struct ExParseError(wasmparser::Error);

/// The operators that wasmparser decodes from a function's instruction
/// bytes, each with the offset at which it starts, or `None` where decoding
/// fails.
pub uninterp spec fn decoded_ops(bytes: Seq<u8>) -> Option<Seq<(InstrKind, usize)>>;

/// Relies on wasmparser's `OperatorsReader` (read through
/// `into_iter_with_offsets`) to find where each instruction and its operands
/// start and end; each operator is only told apart by its variant. The reader
/// starts at offset 0, each read starts where the last one ended and consumes
/// at least the opcode byte, and that byte alone picks the operator among the
/// structural ones. A `block`, `loop` or `if` also reads its block type, at
/// least one more byte.
#[verifier::external_body]
fn decode_operators(bytes: &[u8]) -> (r: Result<Vec<(InstrKind, usize)>, wasmparser::Error>)
    ensures
        match r {
            Ok(v) => {
                &&& decoded_ops(bytes@) == Some(v@)
                &&& bytes@.len() > 0 ==> v@.len() > 0 && v@[0].1 == 0
                &&& forall|i: int| 0 <= i < v@.len() ==> (#[trigger] v@[i]).1 < bytes@.len()
                    && opcode_matches(bytes@[v@[i].1 as int], v@[i].0)
                &&& forall|i: int| 0 < i < v@.len() ==> v@[i - 1].1 < (#[trigger] v@[i]).1
                &&& forall|i: int| 0 <= i < v@.len() && opens_scope((#[trigger] v@[i]).0)
                    ==> v@[i].1 + 2 <= next_start(v@, i, bytes@.len())
            },
            Err(_) => decoded_ops(bytes@) is None,
        },
{
    let reader = wasmparser::OperatorsReader::new(wasmparser::BinaryReader::new(bytes, 0));
    reader.into_iter_with_offsets().map(|r| r.map(|(op, at)| (match op {
        wasmparser::Operator::Block { .. } => InstrKind::Block,
        wasmparser::Operator::Loop { .. } => InstrKind::Loop,
        wasmparser::Operator::If { .. } => InstrKind::If,
        wasmparser::Operator::Else => InstrKind::Else,
        wasmparser::Operator::End => InstrKind::End,
        wasmparser::Operator::Br { relative_depth } => InstrKind::Br(relative_depth),
        wasmparser::Operator::BrIf { relative_depth } => InstrKind::BrIf(relative_depth),
        _ => InstrKind::Other,
    }, at as usize))).collect()
}

/// Where the instruction after the `i`-th one starts (the stream's length
/// after the last one).
pub open spec fn next_start(ops: Seq<(InstrKind, usize)>, i: int, len: nat) -> int {
    if i + 1 < ops.len() { ops[i + 1].1 as int } else { len as int }
}

/// The `i`-th decoded operator fits the stream: it starts after the one
/// before it and inside the stream, and a scope opener has room for its
/// opcode and block-type byte.
pub open spec fn instr_ok(ops: Seq<(InstrKind, usize)>, i: int, len: nat) -> bool {
    &&& ops[i].1 < len
    &&& i > 0 ==> ops[i - 1].1 < ops[i].1
    &&& opens_scope(ops[i].0) ==> ops[i].1 + 2 <= next_start(ops, i, len)
}

pub open spec fn records_of(ops: Seq<(InstrKind, usize)>) -> Seq<InstrRecord> {
    ops.map_values(|o: (InstrKind, usize)| InstrRecord { offset: o.1, kind: o.0 })
}

/// The instruction records of a byte stream, or `None` where it does not
/// decode into instructions laid out one after another.
pub open spec fn scanned(bytes: Seq<u8>) -> Option<Seq<InstrRecord>> {
    match decoded_ops(bytes) {
        Some(ops) => if forall|i: int| 0 <= i < ops.len() ==> instr_ok(ops, i, bytes.len()) {
            Some(records_of(ops))
        } else {
            None
        },
        None => None,
    }
}

/// Records whose offsets rise strictly and lie inside a stream of `len` bytes.
pub open spec fn laid_out(instrs: Seq<InstrRecord>, len: nat) -> bool {
    &&& forall|i: int| 0 <= i < instrs.len() ==> #[trigger] instrs[i].offset < len
    &&& forall|i: int, j: int| 0 <= i < j < instrs.len() ==> instrs[i].offset < instrs[j].offset
    &&& forall|i: int| 0 <= i < instrs.len() && opens_scope(#[trigger] instrs[i].kind) ==>
        instrs[i].offset + 2 <= (if i + 1 < instrs.len() { instrs[i + 1].offset as int } else { len as int })
}

pub proof fn lemma_scanned_laid_out(bytes: Seq<u8>)
    requires
        scanned(bytes) is Some,
    ensures
        laid_out(scanned(bytes)->0, bytes.len()),
{
    let ops = decoded_ops(bytes)->0;
    let recs = records_of(ops);
    assert forall|i: int, j: int| 0 <= i < j < recs.len() implies recs[i].offset < recs[j].offset by {
        lemma_rising(ops, bytes.len(), i, j);
    }
    assert forall|i: int| 0 <= i < recs.len() && opens_scope(#[trigger] recs[i].kind) implies
        recs[i].offset + 2 <= (if i + 1 < recs.len() { recs[i + 1].offset as int } else { bytes.len() as int }) by {
        assert(instr_ok(ops, i, bytes.len()));
    }
    assert forall|i: int| 0 <= i < recs.len() implies #[trigger] recs[i].offset < bytes.len() by {
        assert(instr_ok(ops, i, bytes.len()));
    }
}

proof fn lemma_rising(ops: Seq<(InstrKind, usize)>, len: nat, i: int, j: int)
    requires
        0 <= i < j < ops.len(),
        forall|k: int| 0 <= k < ops.len() ==> instr_ok(ops, k, len),
    ensures
        ops[i].1 < ops[j].1,
    decreases j - i,
{
    assert(instr_ok(ops, j, len));
    if i + 1 < j {
        lemma_rising(ops, len, i, j - 1);
    }
}

/// Decodes a function's instruction bytes into offset-tagged records.
pub fn collect_instructions(body_bytes: &[u8]) -> (r: Result<Vec<InstrRecord>, LowerError>)
    ensures
        match r {
            Ok(v) => scanned(body_bytes@) == Some(v@),
            Err(e) => scanned(body_bytes@) is None && e == LowerError::MalformedInput,
        },
        r matches Ok(v) ==> body_bytes@.len() > 0 ==> v@.len() > 0 && v@[0].offset == 0,
        r matches Ok(v) ==> forall|i: int| 0 <= i < v@.len()
            ==> opcode_matches(body_bytes@[(#[trigger] v@[i]).offset as int], v@[i].kind),
{
    let ops = match decode_operators(body_bytes) {
        Ok(ops) => ops,
        Err(_) => return Err(LowerError::MalformedInput),
    };
    let len = body_bytes.len();
    proof {
        assert forall|k: int| 0 <= k < ops@.len() implies instr_ok(ops@, k, len as nat) by {
            assert(ops@[k].1 < len);
            if k > 0 {
                assert(ops@[k - 1].1 < ops@[k].1);
            }
            if opens_scope(ops@[k].0) {
                assert(ops@[k].1 + 2 <= next_start(ops@, k, len as nat));
            }
        }
    }
    let mut records: Vec<InstrRecord> = Vec::new();
    let mut i: usize = 0;
    while i < ops.len()
        invariant
            decoded_ops(body_bytes@) == Some(ops@),
            len == body_bytes@.len(),
            i <= ops.len(),
            records@ == records_of(ops@).subrange(0, i as int),
            forall|k: int| 0 <= k < ops@.len() ==> instr_ok(ops@, k, len as nat),
        decreases ops.len() - i,
    {
        let (kind, offset) = ops[i];
        records.push(InstrRecord { offset, kind });
        i += 1;
        proof {
            assert(records@ =~= records_of(ops@).subrange(0, i as int));
        }
    }
    proof {
        assert(records@ =~= records_of(ops@));
        assert forall|k: int| 0 <= k < records@.len() implies
            opcode_matches(body_bytes@[(#[trigger] records@[k]).offset as int], records@[k].kind) by {
            assert(ops@[k].1 < body_bytes@.len());
        }
    }
    Ok(records)
}

} // verus!
