use vstd::prelude::*;
use crate::branch::BranchEntry;

verus! {

/// Programs left out of the generated harness: the core does not run them yet.
pub const SKIP_FILES: [&'static str; 1] = ["loop"];

/// One lowered test program, as the hardware test harness takes it.
#[derive(Clone, Debug)]
pub struct WatTestInfo {
    pub name: String,
    pub body_bytes: Vec<u8>,
    pub branch_table: Vec<BranchEntry>,
    pub expected: i32,
}

pub open spec fn hex_char(d: int) -> char {
    if d == 0 { '0' } else if d == 1 { '1' } else if d == 2 { '2' } else if d == 3 { '3' }
    else if d == 4 { '4' } else if d == 5 { '5' } else if d == 6 { '6' } else if d == 7 { '7' }
    else if d == 8 { '8' } else if d == 9 { '9' } else if d == 10 { 'A' } else if d == 11 { 'B' }
    else if d == 12 { 'C' } else if d == 13 { 'D' } else if d == 14 { 'E' } else { 'F' }
}

/// The last `width` hexadecimal digits of `v`, upper case, most significant first.
pub open spec fn hex_text(v: nat, width: nat) -> Seq<char>
    decreases width,
{
    if width == 0 {
        Seq::empty()
    } else {
        hex_text(v / 16, (width - 1) as nat).push(hex_char((v % 16) as int))
    }
}

/// The decimal digits of `v`, without leading zeros.
pub open spec fn dec_text(v: nat) -> Seq<char>
    decreases v,
{
    if v < 10 {
        seq![hex_char(v as int)]
    } else {
        dec_text(v / 10).push(hex_char((v % 10) as int))
    }
}

/// `v` in decimal, with a leading `-` when negative.
pub open spec fn signed_dec_text(v: int) -> Seq<char> {
    if v < 0 {
        seq!['-'] + dec_text((-v) as nat)
    } else {
        dec_text(v as nat)
    }
}

fn push_digit(out: &mut String, d: u64)
    requires
        d < 16,
    ensures
        final(out)@ == old(out)@.push(hex_char(d as int)),
{
    let digits = "0123456789ABCDEF";
    proof {
        reveal_strlit("0123456789ABCDEF");
    }
    let one = digits.substring_char(d as usize, d as usize + 1);
    out.append(one);
    proof {
        assert(one@ =~= seq![hex_char(d as int)]);
    }
}

fn push_hex(out: &mut String, v: u64, width: u64)
    ensures
        final(out)@ == old(out)@ + hex_text(v as nat, width as nat),
    decreases width,
{
    if width > 0 {
        push_hex(out, v / 16, width - 1);
        push_digit(out, v % 16);
    } else {
        proof {
            assert(old(out)@ + hex_text(v as nat, 0) =~= old(out)@);
        }
    }
}

fn push_dec(out: &mut String, v: u64)
    ensures
        final(out)@ == old(out)@ + dec_text(v as nat),
    decreases v,
{
    if v >= 10 {
        push_dec(out, v / 10);
        push_digit(out, v % 10);
    } else {
        push_digit(out, v);
        proof {
            assert(old(out)@.push(hex_char(v as int)) =~= old(out)@ + seq![hex_char(v as int)]);
        }
    }
}

fn push_signed_dec(out: &mut String, v: i32)
    ensures
        final(out)@ == old(out)@ + signed_dec_text(v as int),
{
    if v < 0 {
        out.append("-");
        proof {
            reveal_strlit("-");
        }
        push_dec(out, (-(v as i64)) as u64);
    } else {
        push_dec(out, v as u64);
    }
}

/// The lines of the program byte file for the first `n` bytes.
pub open spec fn prog_lines(bytes: Seq<u8>, n: nat) -> Seq<char>
    decreases n,
{
    if n == 0 || n > bytes.len() {
        Seq::empty()
    } else {
        prog_lines(bytes, (n - 1) as nat) + hex_text(bytes[n - 1] as nat, 2).push('\n')
    }
}

/// The program byte file: one line of two upper-case hex digits per byte.
pub open spec fn prog_hex(bytes: Seq<u8>) -> Seq<char> {
    prog_lines(bytes, bytes.len())
}

/// Renders the program byte file of a function's instruction bytes.
pub fn prog_hex_text(bytes: &[u8]) -> (r: String)
    ensures
        r@ == prog_hex(bytes@),
{
    let mut out = String::new();
    let mut i: usize = 0;
    while i < bytes.len()
        invariant
            i <= bytes@.len(),
            out@ == prog_lines(bytes@, i as nat),
        decreases bytes.len() - i,
    {
        push_hex(&mut out, bytes[i] as u64, 2);
        out.append("\n");
        proof {
            reveal_strlit("\n");
        }
        i += 1;
    }
    out
}

pub open spec fn branch_line(e: BranchEntry) -> Seq<char> {
    (hex_text(e.source_pc as nat, 8).push(' ') + hex_text(e.target_pc as nat, 8)).push('\n')
}

/// The lines of the branch table file for the first `n` entries.
pub open spec fn branch_lines(entries: Seq<BranchEntry>, n: nat) -> Seq<char>
    decreases n,
{
    if n == 0 || n > entries.len() {
        Seq::empty()
    } else {
        branch_lines(entries, (n - 1) as nat) + branch_line(entries[n - 1])
    }
}

/// Renders the branch table file: `SOURCE_PC TARGET_PC`, eight upper-case hex
/// digits each, one entry per line.
pub fn branch_hex_text(entries: &[BranchEntry]) -> (r: String)
    ensures
        r@ == branch_lines(entries@, entries@.len()),
{
    let mut out = String::new();
    let mut i: usize = 0;
    while i < entries.len()
        invariant
            i <= entries@.len(),
            out@ == branch_lines(entries@, i as nat),
        decreases entries.len() - i,
    {
        let e = entries[i];
        let ghost before = out@;
        push_hex(&mut out, e.source_pc as u64, 8);
        out.append(" ");
        push_hex(&mut out, e.target_pc as u64, 8);
        out.append("\n");
        proof {
            reveal_strlit(" ");
            reveal_strlit("\n");
            assert(out@ =~= before + branch_line(e));
        }
        i += 1;
    }
    out
}

/// Renders the expected value file: the value in decimal and a newline.
pub fn expected_text(value: i32) -> (r: String)
    ensures
        r@ == signed_dec_text(value as int).push('\n'),
{
    let mut out = String::new();
    push_signed_dec(&mut out, value);
    out.append("\n");
    proof {
        reveal_strlit("\n");
        assert(out@ =~= signed_dec_text(value as int).push('\n'));
    }
    out
}


/// The `prog_rom` lines of a task for the first `n` bytes.
pub open spec fn rom_lines(bytes: Seq<u8>, n: nat) -> Seq<char>
    decreases n,
{
    if n == 0 || n > bytes.len() {
        Seq::empty()
    } else {
        rom_lines(bytes, (n - 1) as nat) + "    prog_rom["@ + dec_text((n - 1) as nat) + "] = 8'h"@
            + hex_text(bytes[n - 1] as nat, 2) + ";\n"@
    }
}

/// The `bt_write` lines of a task for the first `n` entries.
pub open spec fn bt_lines(entries: Seq<BranchEntry>, n: nat) -> Seq<char>
    decreases n,
{
    if n == 0 || n > entries.len() {
        Seq::empty()
    } else {
        bt_lines(entries, (n - 1) as nat) + "    bt_write(32'h"@ + hex_text(entries[n - 1].source_pc as nat, 8)
            + ", 32'h"@ + hex_text(entries[n - 1].target_pc as nat, 8) + ");\n"@
    }
}

/// The task that loads and runs one program and checks its result.
pub open spec fn svh_task(t: WatTestInfo) -> Seq<char> {
    "task run_wat_"@ + t.name@ + ";\n"@ + "    do_reset();\n"@
        + rom_lines(t.body_bytes@, t.body_bytes@.len())
        + bt_lines(t.branch_table@, t.branch_table@.len())
        + "    run_program();\n"@ + "    check_wat(\""@ + t.name@ + "\", 32'sd"@
        + signed_dec_text(t.expected as int) + ");\n"@ + "endtask\n\n"@
}

pub open spec fn svh_tasks(tests: Seq<WatTestInfo>, n: nat) -> Seq<char>
    decreases n,
{
    if n == 0 || n > tests.len() {
        Seq::empty()
    } else {
        svh_tasks(tests, (n - 1) as nat) + svh_task(tests[n - 1])
    }
}

pub open spec fn svh_calls(tests: Seq<WatTestInfo>, n: nat) -> Seq<char>
    decreases n,
{
    if n == 0 || n > tests.len() {
        Seq::empty()
    } else {
        svh_calls(tests, (n - 1) as nat) + "    run_wat_"@ + tests[n - 1].name@ + "();\n"@
    }
}

/// The SystemVerilog header: a task per program, then a task that runs them all.
pub open spec fn svh_text(tests: Seq<WatTestInfo>) -> Seq<char> {
    "// Auto-generated by wasm-compile gen-tests. Do not edit.\n\n"@ + svh_tasks(tests, tests.len()) + "task run_all_wat_tests;\n"@
        + svh_calls(tests, tests.len()) + "endtask\n"@
}

fn push_task(out: &mut String, t: &WatTestInfo)
    ensures
        final(out)@ == old(out)@ + svh_task(*t),
{
    out.append("task run_wat_");
    out.append(t.name.as_str());
    out.append(";\n");
    out.append("    do_reset();\n");
    let ghost head = out@;
    let mut i: usize = 0;
    while i < t.body_bytes.len()
        invariant
            i <= t.body_bytes@.len(),
            out@ == head + rom_lines(t.body_bytes@, i as nat),
        decreases t.body_bytes.len() - i,
    {
        let ghost before = out@;
        out.append("    prog_rom[");
        push_dec(out, i as u64);
        out.append("] = 8'h");
        push_hex(out, t.body_bytes[i] as u64, 2);
        out.append(";\n");
        i += 1;
        proof {
            assert(out@ =~= head + rom_lines(t.body_bytes@, i as nat));
        }
    }
    let ghost mid = out@;
    let mut k: usize = 0;
    while k < t.branch_table.len()
        invariant
            k <= t.branch_table@.len(),
            out@ == mid + bt_lines(t.branch_table@, k as nat),
        decreases t.branch_table.len() - k,
    {
        let e = t.branch_table[k];
        out.append("    bt_write(32'h");
        push_hex(out, e.source_pc as u64, 8);
        out.append(", 32'h");
        push_hex(out, e.target_pc as u64, 8);
        out.append(");\n");
        k += 1;
        proof {
            assert(out@ =~= mid + bt_lines(t.branch_table@, k as nat));
        }
    }
    out.append("    run_program();\n");
    out.append("    check_wat(\"");
    out.append(t.name.as_str());
    out.append("\", 32'sd");
    push_signed_dec(out, t.expected);
    out.append(");\n");
    out.append("endtask\n\n");
    proof {
        assert(out@ =~= old(out)@ + svh_task(*t));
    }
}

/// Renders the SystemVerilog test header for a list of lowered programs.
pub fn generate_svh(tests: &[WatTestInfo]) -> (r: String)
    ensures
        r@ == svh_text(tests@),
{
    let mut out = String::new();
    out.append("// Auto-generated by wasm-compile gen-tests. Do not edit.\n\n");
    let mut i: usize = 0;
    while i < tests.len()
        invariant
            i <= tests@.len(),
            out@ == "// Auto-generated by wasm-compile gen-tests. Do not edit.\n\n"@ + svh_tasks(tests@, i as nat),
        decreases tests.len() - i,
    {
        push_task(&mut out, &tests[i]);
        i += 1;
        proof {
            assert(out@ =~= "// Auto-generated by wasm-compile gen-tests. Do not edit.\n\n"@ + svh_tasks(tests@, i as nat));
        }
    }
    out.append("task run_all_wat_tests;\n");
    let ghost head = out@;
    let mut j: usize = 0;
    while j < tests.len()
        invariant
            j <= tests@.len(),
            out@ == head + svh_calls(tests@, j as nat),
        decreases tests.len() - j,
    {
        out.append("    run_wat_");
        out.append(tests[j].name.as_str());
        out.append("();\n");
        j += 1;
        proof {
            assert(out@ =~= head + svh_calls(tests@, j as nat));
        }
    }
    out.append("endtask\n");
    proof {
        assert(out@ =~= svh_text(tests@));
    }
    out
}

} // verus!
