use vstd::prelude::*;
use crate::instr::{collect_instructions, opens_scope, scanned, BlockKind, InstrKind, InstrRecord, LowerError};

verus! {

/// One jump of the flat program: from `source_pc` the core goes to `target_pc`.
#[derive(Clone, Copy, Debug, PartialEq, Eq, Structural)]
pub struct BranchEntry {
    pub source_pc: u32,
    pub target_pc: u32,
}

/// A scope that is open while the second pass walks the instructions.
#[derive(Clone, Copy, Debug, PartialEq, Eq, Structural)]
pub struct BlockInfo {
    pub kind: BlockKind,
    pub start_offset: usize,
    pub body_offset: usize,
    pub else_offset: Option<usize>,
}

/// An open scope together with the index of the record that opened it.
pub type Scope = (usize, BlockInfo);

pub open spec fn block_kind_of(k: InstrKind) -> BlockKind {
    match k {
        InstrKind::Loop => BlockKind::Loop,
        InstrKind::If => BlockKind::If,
        _ => BlockKind::Block,
    }
}

/// First pass over the first `n` records: the end offset found so far for
/// each record index, and the indices of the openers still waiting for
/// their `end`.
pub open spec fn end_pass(instrs: Seq<InstrRecord>, n: nat) -> (Seq<Option<usize>>, Seq<usize>)
    decreases n,
{
    if n == 0 || n > instrs.len() {
        (Seq::new(instrs.len(), |i: int| None), Seq::empty())
    } else {
        let (ends, open) = end_pass(instrs, (n - 1) as nat);
        let r = instrs[n - 1];
        if opens_scope(r.kind) {
            (ends, open.push((n - 1) as usize))
        } else if r.kind is End && open.len() > 0 {
            (ends.update(open.last() as int, Some(r.offset)), open.drop_last())
        } else {
            (ends, open)
        }
    }
}

/// For each record index, the offset of the `end` that closes the scope it opens.
pub open spec fn block_ends(instrs: Seq<InstrRecord>) -> Seq<Option<usize>> {
    end_pass(instrs, instrs.len()).0
}

pub open spec fn entry(source: int, target: int) -> BranchEntry {
    BranchEntry { source_pc: source as u32, target_pc: target as u32 }
}

/// Where a branch to the scope `s` goes: back to the body of a loop, past the
/// `end` of a block or an `if`.
pub open spec fn branch_target(ends: Seq<Option<usize>>, s: Scope) -> Result<int, LowerError> {
    if s.1.kind is Loop {
        Ok(s.1.body_offset as int)
    } else {
        match ends[s.0 as int] {
            Some(e) => Ok(e + 1),
            None => Err(LowerError::UnresolvedEnd { offset: s.1.start_offset }),
        }
    }
}

/// The step of the second pass at record `i`.
pub open spec fn branch_step(
    ends: Seq<Option<usize>>,
    i: int,
    r: InstrRecord,
    scopes: Seq<Scope>,
    table: Seq<BranchEntry>,
) -> Result<(Seq<Scope>, Seq<BranchEntry>), LowerError> {
    match r.kind {
        InstrKind::Else => if scopes.len() > 0 && scopes.last().1.kind is If {
            let s = scopes.last();
            let opened = (s.0, BlockInfo { else_offset: Some(r.offset), ..s.1 });
            Ok((scopes.drop_last().push(opened), table.push(entry(s.1.start_offset as int, r.offset + 1))))
        } else {
            Ok((scopes, table))
        },
        InstrKind::End => if scopes.len() == 0 {
            Ok((scopes, table))
        } else {
            let s = scopes.last().1;
            let rest = scopes.drop_last();
            if s.kind is If {
                match s.else_offset {
                    Some(e) => Ok((rest, table.push(entry(e as int, r.offset + 1)))),
                    None => Ok((rest, table.push(entry(s.start_offset as int, r.offset + 1)))),
                }
            } else {
                Ok((rest, table))
            }
        },
        InstrKind::Br(d) | InstrKind::BrIf(d) => if d >= scopes.len() {
            Err(LowerError::DepthExceeded { offset: r.offset, depth: d })
        } else {
            match branch_target(ends, scopes[scopes.len() - 1 - d]) {
                Ok(t) => Ok((scopes, table.push(entry(r.offset as int, t)))),
                Err(e) => Err(e),
            }
        },
        InstrKind::Other => Ok((scopes, table)),
        _ => {
            let info = BlockInfo {
                kind: block_kind_of(r.kind),
                start_offset: r.offset,
                body_offset: (r.offset + 2) as usize,
                else_offset: None,
            };
            Ok((scopes.push((i as usize, info)), table))
        },
    }
}

/// Second pass over the first `n` records: the open scopes and the table so far.
pub open spec fn branch_pass(instrs: Seq<InstrRecord>, ends: Seq<Option<usize>>, n: nat) -> Result<
    (Seq<Scope>, Seq<BranchEntry>),
    LowerError,
>
    decreases n,
{
    if n == 0 || n > instrs.len() {
        Ok((Seq::empty(), Seq::empty()))
    } else {
        match branch_pass(instrs, ends, (n - 1) as nat) {
            Ok((scopes, table)) => branch_step(ends, n - 1, instrs[n - 1], scopes, table),
            Err(e) => Err(e),
        }
    }
}

/// The branch table of a record sequence.
pub open spec fn table_of(instrs: Seq<InstrRecord>) -> Result<Seq<BranchEntry>, LowerError> {
    match branch_pass(instrs, block_ends(instrs), instrs.len()) {
        Ok((_, table)) => Ok(table),
        Err(e) => Err(e),
    }
}

/// The branch table of a function's instruction bytes.
pub open spec fn branch_table_of(bytes: Seq<u8>) -> Result<Seq<BranchEntry>, LowerError> {
    match scanned(bytes) {
        Some(instrs) => table_of(instrs),
        None => Err(LowerError::MalformedInput),
    }
}

proof fn lemma_end_pass_bounded(instrs: Seq<InstrRecord>, n: nat, len: nat)
    requires
        n <= instrs.len(),
        forall|i: int| 0 <= i < instrs.len() ==> #[trigger] instrs[i].offset < len,
    ensures
        end_pass(instrs, n).0.len() == instrs.len(),
        forall|j: int| 0 <= j < instrs.len() && (#[trigger] end_pass(instrs, n).0[j]) is Some
            ==> end_pass(instrs, n).0[j]->0 < len,
        forall|j: int| 0 <= j < end_pass(instrs, n).1.len() ==> #[trigger] end_pass(instrs, n).1[j] < n,
    decreases n,
{
    if n > 0 {
        lemma_end_pass_bounded(instrs, (n - 1) as nat, len);
        assert(instrs[n - 1].offset < len);
    }
}

pub(crate) proof fn lemma_pass_err_stays(instrs: Seq<InstrRecord>, ends: Seq<Option<usize>>, k: nat, n: nat)
    requires
        k <= n <= instrs.len(),
        branch_pass(instrs, ends, k) is Err,
    ensures
        branch_pass(instrs, ends, n) == branch_pass(instrs, ends, k),
    decreases n - k,
{
    if k < n {
        lemma_pass_err_stays(instrs, ends, k, (n - 1) as nat);
    }
}

fn resolve_block_ends(instrs: &[InstrRecord]) -> (ends: Vec<Option<usize>>)
    ensures
        ends@ == block_ends(instrs@),
{
    let mut ends: Vec<Option<usize>> = Vec::new();
    let mut k: usize = 0;
    while k < instrs.len()
        invariant
            k <= instrs.len(),
            ends@ == Seq::new(k as nat, |i: int| None::<usize>),
        decreases instrs.len() - k,
    {
        ends.push(None);
        k += 1;
        proof {
            assert(ends@ =~= Seq::new(k as nat, |i: int| None::<usize>));
        }
    }
    proof {
        assert(ends@ =~= end_pass(instrs@, 0).0);
    }
    let mut open: Vec<usize> = Vec::new();
    let mut i: usize = 0;
    while i < instrs.len()
        invariant
            i <= instrs.len(),
            (ends@, open@) == end_pass(instrs@, i as nat),
            ends@.len() == instrs@.len(),
            forall|j: int| 0 <= j < open@.len() ==> open@[j] < i,
        decreases instrs.len() - i,
    {
        let r = instrs[i];
        match r.kind {
            InstrKind::Block | InstrKind::Loop | InstrKind::If => {
                open.push(i);
            },
            InstrKind::End => {
                if open.len() > 0 {
                    let start = open.pop().unwrap();
                    ends.set(start, Some(r.offset));
                }
            },
            _ => {},
        }
        i += 1;
    }
    ends
}

/// Lowers a function's instruction bytes to its branch table: the jumps, in
/// the order found, that replace the structured control flow. The bytes must
/// be addressable by 32-bit program counters.
pub fn compute_branch_table(body_bytes: &[u8]) -> (r: Result<Vec<BranchEntry>, LowerError>)
    requires
        body_bytes@.len() < u32::MAX,
    ensures
        match r {
            Ok(v) => branch_table_of(body_bytes@) == Ok::<Seq<BranchEntry>, LowerError>(v@),
            Err(e) => branch_table_of(body_bytes@) == Err::<Seq<BranchEntry>, LowerError>(e),
        },
{
    let instrs = collect_instructions(body_bytes)?;
    proof {
        crate::instr::lemma_scanned_laid_out(body_bytes@);
    }
    branch_table_from_records(instrs.as_slice(), body_bytes.len())
}

/// Resolves the branch table of decoded instruction records that lie, one
/// after another, in a stream of `len` bytes: first the `end` of every scope,
/// then the jumps, in the order found.
pub fn branch_table_from_records(instrs: &[InstrRecord], len: usize) -> (r: Result<Vec<BranchEntry>, LowerError>)
    requires
        len < u32::MAX,
        crate::instr::laid_out(instrs@, len as nat),
    ensures
        match r {
            Ok(v) => table_of(instrs@) == Ok::<Seq<BranchEntry>, LowerError>(v@),
            Err(e) => table_of(instrs@) == Err::<Seq<BranchEntry>, LowerError>(e),
        },
{
    let ends = resolve_block_ends(instrs);
    proof {
        lemma_end_pass_bounded(instrs@, instrs@.len(), len as nat);
    }
    let mut entries: Vec<BranchEntry> = Vec::new();
    let mut stack: Vec<Scope> = Vec::new();
    let mut i: usize = 0;
    while i < instrs.len()
        invariant
            i <= instrs.len(),
            len < u32::MAX,
            crate::instr::laid_out(instrs@, len as nat),
            ends@ == block_ends(instrs@),
            ends@.len() == instrs@.len(),
            forall|j: int| 0 <= j < instrs@.len() && (#[trigger] ends@[j]) is Some ==> ends@[j]->0 < len,
            branch_pass(instrs@, ends@, i as nat) == Ok::<(Seq<Scope>, Seq<BranchEntry>), LowerError>((stack@, entries@)),
            forall|j: int| 0 <= j < stack@.len() ==> #[trigger] stack@[j].0 < instrs@.len(),
            forall|j: int| 0 <= j < stack@.len() ==> #[trigger] stack@[j].1.body_offset <= len + 1,
            forall|j: int| 0 <= j < stack@.len() ==> #[trigger] stack@[j].1.start_offset < len,
            forall|j: int| 0 <= j < stack@.len() && (#[trigger] stack@[j].1.else_offset) is Some
                ==> stack@[j].1.else_offset->0 < len,
        decreases instrs.len() - i,
    {
        let r = instrs[i];
        assert(r.offset < len);
        match r.kind {
            InstrKind::Block | InstrKind::Loop | InstrKind::If => {
                let kind = match r.kind {
                    InstrKind::Loop => BlockKind::Loop,
                    InstrKind::If => BlockKind::If,
                    _ => BlockKind::Block,
                };
                stack.push((i, BlockInfo { kind, start_offset: r.offset, body_offset: r.offset + 2, else_offset: None }));
            },
            InstrKind::Else => {
                let n = stack.len();
                if n > 0 && stack[n - 1].1.kind == BlockKind::If {
                    let (idx, info) = stack[n - 1];
                    let ghost before = stack@;
                    stack.set(n - 1, (idx, BlockInfo { else_offset: Some(r.offset), ..info }));
                    proof {
                        assert(stack@ =~= before.drop_last().push(stack@[n - 1]));
                    }
                    entries.push(BranchEntry { source_pc: info.start_offset as u32, target_pc: (r.offset + 1) as u32 });
                }
            },
            InstrKind::End => {
                if stack.len() > 0 {
                    let (_, info) = stack.pop().unwrap();
                    if info.kind == BlockKind::If {
                        match info.else_offset {
                            Some(e) => {
                                entries.push(BranchEntry { source_pc: e as u32, target_pc: (r.offset + 1) as u32 });
                            },
                            None => {
                                entries.push(BranchEntry { source_pc: info.start_offset as u32, target_pc: (r.offset + 1) as u32 });
                            },
                        }
                    }
                }
            },
            InstrKind::Br(depth) | InstrKind::BrIf(depth) => {
                if depth as usize >= stack.len() {
                    proof {
                        lemma_pass_err_stays(instrs@, ends@, (i + 1) as nat, instrs@.len());
                    }
                    return Err(LowerError::DepthExceeded { offset: r.offset, depth });
                }
                let (idx, info) = stack[stack.len() - 1 - depth as usize];
                let target: usize = if info.kind == BlockKind::Loop {
                    info.body_offset
                } else {
                    match ends[idx] {
                        Some(e) => e + 1,
                        None => {
                            proof {
                                lemma_pass_err_stays(instrs@, ends@, (i + 1) as nat, instrs@.len());
                            }
                            return Err(LowerError::UnresolvedEnd { offset: info.start_offset });
                        },
                    }
                };
                entries.push(BranchEntry { source_pc: r.offset as u32, target_pc: target as u32 });
            },
            InstrKind::Other => {},
        }
        i += 1;
    }
    Ok(entries)
}

} // verus!
