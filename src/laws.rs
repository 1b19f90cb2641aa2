use vstd::prelude::*;
use crate::branch::{branch_pass, branch_table_of, branch_target, end_pass, entry, lemma_pass_err_stays, BlockInfo, BranchEntry, Scope, block_ends};
use crate::instr::{laid_out, lemma_scanned_laid_out, opens_scope, scanned, BlockKind, InstrKind, InstrRecord, LowerError};
use crate::module::{function_body_of, END_OPCODE};

verus! {

/// Lowering is a function of the instruction bytes alone: two lowerings of
/// the same bytes give the same branch table, or the same error.
pub proof fn lemma_lowering_deterministic(a: Seq<u8>, b: Seq<u8>)
    requires
        a == b,
    ensures
        branch_table_of(a) == branch_table_of(b),
{
}

/// A body that the extractor hands out never ends with the structural `end`.
pub proof fn lemma_body_never_ends_with_end(wasm: Seq<u8>)
    requires
        function_body_of(wasm) is Ok,
    ensures
        function_body_of(wasm)->Ok_0.len() == 0 || function_body_of(wasm)->Ok_0.last() != END_OPCODE,
{
}

proof fn lemma_plain_pass(instrs: Seq<InstrRecord>, ends: Seq<Option<usize>>, n: nat)
    requires
        n <= instrs.len(),
        forall|k: int| 0 <= k < instrs.len() ==> (#[trigger] instrs[k]).kind is Other,
    ensures
        branch_pass(instrs, ends, n) == Ok::<(Seq<Scope>, Seq<BranchEntry>), LowerError>((Seq::empty(), Seq::empty())),
    decreases n,
{
    if n > 0 {
        lemma_plain_pass(instrs, ends, (n - 1) as nat);
        assert(instrs[n - 1].kind is Other);
    }
}

/// Bytes that decode into instructions none of which is structural or a
/// branch give an empty branch table.
pub proof fn lemma_no_branch_empty_table(bytes: Seq<u8>)
    requires
        scanned(bytes) is Some,
        forall|k: int| 0 <= k < scanned(bytes)->0.len() ==> (#[trigger] scanned(bytes)->0[k]).kind is Other,
    ensures
        branch_table_of(bytes) == Ok::<Seq<BranchEntry>, LowerError>(Seq::empty()),
{
    let instrs = scanned(bytes)->0;
    lemma_plain_pass(instrs, block_ends(instrs), instrs.len());
}

pub open spec fn if_info(instrs: Seq<InstrRecord>, a: int) -> BlockInfo {
    BlockInfo {
        kind: BlockKind::If,
        start_offset: instrs[a].offset,
        body_offset: (instrs[a].offset + 2) as usize,
        else_offset: None,
    }
}

proof fn lemma_if_else_pass(instrs: Seq<InstrRecord>, ends: Seq<Option<usize>>, a: int, b: int, c: int, n: nat)
    requires
        0 <= a < b < c < instrs.len(),
        n <= instrs.len(),
        instrs[a].kind is If,
        instrs[b].kind is Else,
        instrs[c].kind is End,
        forall|k: int| 0 <= k < instrs.len() && k != a && k != b && k != c ==> (#[trigger] instrs[k]).kind is Other,
    ensures
        branch_pass(instrs, ends, n) == Ok::<(Seq<Scope>, Seq<BranchEntry>), LowerError>(
            if n <= a {
                (Seq::empty(), Seq::empty())
            } else if n <= b {
                (seq![(a as usize, if_info(instrs, a))], Seq::empty())
            } else if n <= c {
                (
                    seq![(a as usize, BlockInfo { else_offset: Some(instrs[b].offset), ..if_info(instrs, a) })],
                    seq![entry(instrs[a].offset as int, instrs[b].offset + 1)],
                )
            } else {
                (
                    Seq::empty(),
                    seq![entry(instrs[a].offset as int, instrs[b].offset + 1), entry(instrs[b].offset as int, instrs[c].offset + 1)],
                )
            },
        ),
    decreases n,
{
    if n > 0 {
        lemma_if_else_pass(instrs, ends, a, b, c, (n - 1) as nat);
        let k = n - 1;
        if k != a && k != b && k != c {
            assert(instrs[k].kind is Other);
        }
        if k == a {
            assert(Seq::<Scope>::empty().push((a as usize, if_info(instrs, a))) =~= seq![(a as usize, if_info(instrs, a))]);
        }
        if k == b {
            let s = (a as usize, if_info(instrs, a));
            assert(seq![s].drop_last().push((s.0, BlockInfo { else_offset: Some(instrs[b].offset), ..s.1 }))
                =~= seq![(a as usize, BlockInfo { else_offset: Some(instrs[b].offset), ..if_info(instrs, a) })]);
            assert(Seq::<BranchEntry>::empty().push(entry(instrs[a].offset as int, instrs[b].offset + 1))
                =~= seq![entry(instrs[a].offset as int, instrs[b].offset + 1)]);
        }
        if k == c {
            let s = (a as usize, BlockInfo { else_offset: Some(instrs[b].offset), ..if_info(instrs, a) });
            assert(seq![s].drop_last() =~= Seq::<Scope>::empty());
            assert(seq![entry(instrs[a].offset as int, instrs[b].offset + 1)].push(entry(instrs[b].offset as int, instrs[c].offset + 1))
                =~= seq![entry(instrs[a].offset as int, instrs[b].offset + 1), entry(instrs[b].offset as int, instrs[c].offset + 1)]);
        }
    }
}

/// A single `if`/`else`/`end`, with nothing else structural around it, gives
/// exactly two entries: from the `if` into the else body, then from the
/// `else` past the `end`, and the second lands further on than the first.
pub proof fn lemma_if_else_ordering(bytes: Seq<u8>, a: int, b: int, c: int)
    requires
        bytes.len() < u32::MAX,
        scanned(bytes) is Some,
        0 <= a < b < c < scanned(bytes)->0.len(),
        scanned(bytes)->0[a].kind is If,
        scanned(bytes)->0[b].kind is Else,
        scanned(bytes)->0[c].kind is End,
        forall|k: int| 0 <= k < scanned(bytes)->0.len() && k != a && k != b && k != c
            ==> (#[trigger] scanned(bytes)->0[k]).kind is Other,
    ensures
        ({
            let instrs = scanned(bytes)->0;
            branch_table_of(bytes) == Ok::<Seq<BranchEntry>, LowerError>(seq![
                BranchEntry { source_pc: instrs[a].offset as u32, target_pc: (instrs[b].offset + 1) as u32 },
                BranchEntry { source_pc: instrs[b].offset as u32, target_pc: (instrs[c].offset + 1) as u32 },
            ])
        }),
        branch_table_of(bytes)->Ok_0[1].target_pc > branch_table_of(bytes)->Ok_0[0].target_pc,
{
    let instrs = scanned(bytes)->0;
    lemma_scanned_laid_out(bytes);
    assert(instrs[b].offset < instrs[c].offset);
    assert(instrs[c].offset < bytes.len());
    lemma_if_else_pass(instrs, block_ends(instrs), a, b, c, instrs.len());
}


proof fn lemma_open_shape(instrs: Seq<InstrRecord>, m: nat)
    requires
        instrs.len() <= usize::MAX,
        m <= instrs.len(),
    ensures
        end_pass(instrs, m).0.len() == instrs.len(),
        forall|p: int, q: int| 0 <= p < q < end_pass(instrs, m).1.len()
            ==> end_pass(instrs, m).1[p] < end_pass(instrs, m).1[q],
        forall|p: int| 0 <= p < end_pass(instrs, m).1.len() ==> #[trigger] end_pass(instrs, m).1[p] < m,
        forall|p: int| 0 <= p < end_pass(instrs, m).1.len()
            ==> end_pass(instrs, m).0[#[trigger] end_pass(instrs, m).1[p] as int] is None,
        forall|k: int| m <= k < instrs.len() ==> (#[trigger] end_pass(instrs, m).0[k]) is None,
    decreases m,
{
    if m > 0 {
        lemma_open_shape(instrs, (m - 1) as nat);
        let (ends, open) = end_pass(instrs, (m - 1) as nat);
        let (ends2, open2) = end_pass(instrs, m);
        let r = instrs[m - 1];
        if opens_scope(r.kind) {
            assert forall|p: int, q: int| 0 <= p < q < open2.len() implies open2[p] < open2[q] by {
                if q < open.len() {
                    assert(open2[q] == open[q]);
                    assert(open2[p] == open[p]);
                } else {
                    assert(open2[p] == open[p]);
                    assert(open[p] < m - 1);
                }
            }
            assert forall|p: int| 0 <= p < open2.len() implies ends2[#[trigger] open2[p] as int] is None by {
                if p < open.len() {
                    assert(open2[p] == open[p]);
                } else {
                    assert(open2[p] == m - 1);
                }
            }
        } else if r.kind is End && open.len() > 0 {
            assert(open.last() < m - 1 + 1);
            assert forall|p: int, q: int| 0 <= p < q < open2.len() implies open2[p] < open2[q] by {
                assert(open2[q] == open[q]);
                assert(open2[p] == open[p]);
            }
            assert forall|p: int| 0 <= p < open2.len() implies ends2[#[trigger] open2[p] as int] is None by {
                assert(open2[p] == open[p]);
                assert(open[p] < open.last());
            }
        }
    }
}

proof fn lemma_end_found_later(instrs: Seq<InstrRecord>, j: usize, n: nat, m: nat)
    requires
        instrs.len() <= usize::MAX,
        n <= m <= instrs.len(),
        end_pass(instrs, n).1.contains(j),
    ensures
        (end_pass(instrs, m).1.contains(j) && end_pass(instrs, m).0[j as int] is None) || (
        !end_pass(instrs, m).1.contains(j) && exists|k: int|
            n <= k < m && end_pass(instrs, m).0[j as int] == Some(#[trigger] instrs[k].offset)),
    decreases m - n,
{
    lemma_open_shape(instrs, n);
    if m == n {
        let p = choose|p: int| 0 <= p < end_pass(instrs, n).1.len() && end_pass(instrs, n).1[p] == j;
        assert(end_pass(instrs, n).0[end_pass(instrs, n).1[p] as int] is None);
    } else {
        lemma_end_found_later(instrs, j, n, (m - 1) as nat);
        lemma_open_shape(instrs, (m - 1) as nat);
        let (ends, open) = end_pass(instrs, (m - 1) as nat);
        let (ends2, open2) = end_pass(instrs, m);
        let r = instrs[m - 1];
        let _at = choose|p: int| 0 <= p < end_pass(instrs, n).1.len() && end_pass(instrs, n).1[p] == j;
        assert(j < n);
        if opens_scope(r.kind) {
            if open.contains(j) {
                let p = choose|p: int| 0 <= p < open.len() && open[p] == j;
                assert(open2[p] == j);
            } else {
                assert forall|q: int| 0 <= q < open2.len() implies open2[q] != j by {
                    if q < open.len() {
                        assert(open2[q] == open[q]);
                    } else {
                        assert(open2[q] == (m - 1) as usize);
                    }
                }
            }
        } else if r.kind is End && open.len() > 0 {
            if open.contains(j) {
                let p = choose|p: int| 0 <= p < open.len() && open[p] == j;
                if p == open.len() - 1 {
                    assert(ends2[j as int] == Some(instrs[m - 1].offset));
                    assert forall|q: int| 0 <= q < open2.len() implies open2[q] != j by {
                        assert(open[q] < open[p]);
                    }
                } else {
                    assert(open2[p] == j);
                    assert(open.last() != j);
                }
            } else {
                assert(open.last() != j);
                assert forall|q: int| 0 <= q < open2.len() implies open2[q] != j by {
                    assert(open2[q] == open[q]);
                }
            }
        }
    }
}

/// The scopes that the second pass holds open mirror the first pass's stack
/// of unclosed openers, record for record.
proof fn lemma_passes_agree(instrs: Seq<InstrRecord>, ends: Seq<Option<usize>>, n: nat)
    requires
        instrs.len() <= usize::MAX,
        n <= instrs.len(),
        branch_pass(instrs, ends, n) is Ok,
        forall|k: int| 0 <= k < instrs.len() ==> #[trigger] instrs[k].offset + 2 <= usize::MAX,
    ensures
        ({
            let scopes = branch_pass(instrs, ends, n)->Ok_0.0;
            let open = end_pass(instrs, n).1;
            &&& scopes.len() == open.len()
            &&& forall|p: int| 0 <= p < scopes.len() ==> {
                let s = #[trigger] scopes[p];
                &&& s.0 == open[p]
                &&& s.1.start_offset == instrs[s.0 as int].offset
                &&& s.1.body_offset == instrs[s.0 as int].offset + 2
                &&& (s.1.kind is Loop <==> instrs[s.0 as int].kind is Loop)
            }
        }),
    decreases n,
{
    if n > 0 {
        lemma_passes_agree(instrs, ends, (n - 1) as nat);
        let scopes = branch_pass(instrs, ends, (n - 1) as nat)->Ok_0.0;
        let scopes2 = branch_pass(instrs, ends, n)->Ok_0.0;
        let open = end_pass(instrs, (n - 1) as nat).1;
        let open2 = end_pass(instrs, n).1;
        let r = instrs[n - 1];
        assert(r.offset + 2 <= usize::MAX);
        match r.kind {
            InstrKind::Else => {
                if scopes.len() > 0 && scopes.last().1.kind is If {
                    assert forall|p: int| 0 <= p < scopes2.len() implies #[trigger] scopes2[p].0 == scopes[p].0
                        && scopes2[p].1.start_offset == scopes[p].1.start_offset
                        && scopes2[p].1.body_offset == scopes[p].1.body_offset
                        && scopes2[p].1.kind == scopes[p].1.kind by {
                    }
                }
                assert(open2 == open);
            },
            InstrKind::End => {
                if scopes.len() > 0 {
                    assert forall|p: int| 0 <= p < scopes2.len() implies #[trigger] scopes2[p] == scopes[p]
                        && open2[p] == open[p] by {
                    }
                }
            },
            InstrKind::Br(_) | InstrKind::BrIf(_) => {
                assert(scopes2 == scopes);
                assert(open2 == open);
            },
            InstrKind::Other => {
                assert(scopes2 == scopes);
                assert(open2 == open);
            },
            _ => {
                assert(opens_scope(r.kind));
                assert forall|p: int| 0 <= p < scopes2.len() implies (#[trigger] scopes2[p]).0 == open2[p] by {
                    if p < scopes.len() {
                        assert(scopes2[p] == scopes[p]);
                        assert(open2[p] == open[p]);
                    }
                }
            },
        }
    }
}

/// A branch to a loop jumps back, to at most its own PC; a branch to a block
/// or an `if` jumps forward, past its own PC. Stated of the entry that the
/// branch instruction at record `i` adds, which stands in the final table.
pub proof fn lemma_branch_direction(bytes: Seq<u8>, i: int)
    requires
        bytes.len() < u32::MAX,
        scanned(bytes) is Some,
        branch_table_of(bytes) is Ok,
        0 <= i < scanned(bytes)->0.len(),
        scanned(bytes)->0[i].kind is Br || scanned(bytes)->0[i].kind is BrIf,
    ensures
        ({
            let instrs = scanned(bytes)->0;
            let ends = block_ends(instrs);
            let (scopes, before) = branch_pass(instrs, ends, i as nat)->Ok_0;
            let d = match instrs[i].kind { InstrKind::Br(d) => d, InstrKind::BrIf(d) => d, _ => 0 };
            let target = scopes[scopes.len() - 1 - d];
            let e = branch_table_of(bytes)->Ok_0[before.len() as int];
            &&& branch_pass(instrs, ends, i as nat) is Ok
            &&& d < scopes.len()
            &&& before.len() < branch_table_of(bytes)->Ok_0.len()
            &&& e.source_pc == instrs[i].offset
            &&& target.1.kind is Loop ==> e.target_pc <= e.source_pc
            &&& !(target.1.kind is Loop) ==> e.target_pc > e.source_pc
        }),
{
    let instrs = scanned(bytes)->0;
    let ends = block_ends(instrs);
    let len = instrs.len();
    lemma_scanned_laid_out(bytes);
    lemma_count_bounded(instrs, bytes.len(), len as int);
    if branch_pass(instrs, ends, (i + 1) as nat) is Err {
        lemma_pass_err_stays(instrs, ends, (i + 1) as nat, len);
    }
    assert(branch_pass(instrs, ends, (i + 1) as nat) is Ok);
    let (scopes, before) = branch_pass(instrs, ends, i as nat)->Ok_0;
    let d = match instrs[i].kind { InstrKind::Br(d) => d, InstrKind::BrIf(d) => d, _ => 0 };
    let target = scopes[scopes.len() - 1 - d];
    let t = branch_target(ends, target)->Ok_0;
    let after = branch_pass(instrs, ends, (i + 1) as nat)->Ok_0.1;
    assert(after == before.push(entry(instrs[i].offset as int, t)));
    lemma_table_grows(instrs, ends, (i + 1) as nat, len);
    assert(branch_table_of(bytes)->Ok_0[before.len() as int] == after[before.len() as int]);
    lemma_passes_agree(instrs, ends, i as nat);
    lemma_open_shape(instrs, i as nat);
    let j = target.0;
    let p = scopes.len() - 1 - d;
    assert(j == end_pass(instrs, i as nat).1[p]);
    assert(j < i);
    if target.1.kind is Loop {
        assert(instrs[j as int].kind is Loop);
        assert(instrs[j as int].offset + 2 <= instrs[j + 1].offset);
        assert(instrs[j + 1].offset <= instrs[i].offset);
    } else {
        assert(end_pass(instrs, (i + 1) as nat).1 == end_pass(instrs, i as nat).1);
        assert(end_pass(instrs, (i + 1) as nat).1[p] == j);
        lemma_end_found_later(instrs, j, (i + 1) as nat, len);
        let k = choose|k: int| i + 1 <= k < len && ends[j as int] == Some(#[trigger] instrs[k].offset);
        assert(instrs[i].offset < instrs[k].offset);
        assert(instrs[k].offset < bytes.len());
    }
}

proof fn lemma_table_grows(instrs: Seq<InstrRecord>, ends: Seq<Option<usize>>, n: nat, m: nat)
    requires
        n <= m <= instrs.len(),
        branch_pass(instrs, ends, m) is Ok,
    ensures
        branch_pass(instrs, ends, n) is Ok,
        branch_pass(instrs, ends, n)->Ok_0.1.len() <= branch_pass(instrs, ends, m)->Ok_0.1.len(),
        forall|q: int| 0 <= q < branch_pass(instrs, ends, n)->Ok_0.1.len()
            ==> branch_pass(instrs, ends, m)->Ok_0.1[q] == #[trigger] branch_pass(instrs, ends, n)->Ok_0.1[q],
    decreases m - n,
{
    if n < m {
        lemma_table_grows(instrs, ends, (n + 1) as nat, m);
        lemma_step_grows(instrs, ends, n);
    }
}


proof fn lemma_step_grows(instrs: Seq<InstrRecord>, ends: Seq<Option<usize>>, n: nat)
    requires
        n < instrs.len(),
        branch_pass(instrs, ends, n + 1) is Ok,
    ensures
        branch_pass(instrs, ends, n) is Ok,
        branch_pass(instrs, ends, n)->Ok_0.1.len() <= branch_pass(instrs, ends, n + 1)->Ok_0.1.len(),
        forall|q: int| 0 <= q < branch_pass(instrs, ends, n)->Ok_0.1.len()
            ==> branch_pass(instrs, ends, n + 1)->Ok_0.1[q] == #[trigger] branch_pass(instrs, ends, n)->Ok_0.1[q],
{
    let t = branch_pass(instrs, ends, n)->Ok_0.1;
    let t2 = branch_pass(instrs, ends, n + 1)->Ok_0.1;
    assert(t2 == t || t2 == t.push(t2.last()));
}


proof fn lemma_count_bounded(instrs: Seq<InstrRecord>, len: nat, i: int)
    requires
        laid_out(instrs, len),
        0 <= i <= instrs.len(),
    ensures
        i <= len,
        i < instrs.len() ==> i <= instrs[i].offset,
    decreases i,
{
    if i > 0 {
        lemma_count_bounded(instrs, len, i - 1);
        assert(instrs[i - 1].offset < len);
        if i < instrs.len() {
            assert(instrs[i - 1].offset < instrs[i].offset);
        }
    }
}

} // verus!
