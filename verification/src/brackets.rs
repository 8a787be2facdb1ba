use vstd::prelude::*;
use crate::error::InterpreterError;
use crate::instruction::Instruction;

verus! {

/// Nesting depth in front of instruction `k`: the loop starts among the first
/// `k` instructions minus the loop ends among them.
pub open spec fn depth(code: Seq<Instruction>, k: int) -> int
    decreases k,
{
    if k <= 0 {
        0
    } else {
        depth(code, k - 1) + match code[k - 1] {
            Instruction::StartLoop => 1int,
            Instruction::EndLoop => -1int,
            _ => 0int,
        }
    }
}

/// No loop end comes before the loop start it would close.
pub open spec fn never_negative(code: Seq<Instruction>) -> bool {
    forall|k: int| 0 <= k <= code.len() ==> depth(code, k) >= 0
}

/// The loop starts and loop ends of `code` pair up like parentheses.
pub open spec fn well_bracketed(code: Seq<Instruction>) -> bool {
    never_negative(code) && depth(code, code.len() as int) == 0
}

/// The loop start at `open` and the loop end at `close` delimit one loop: the
/// depth returns to what it was in front of `open` for the first time right
/// after `close`.
pub open spec fn is_pair(code: Seq<Instruction>, open: int, close: int) -> bool {
    &&& 0 <= open < close < code.len()
    &&& code[open] == Instruction::StartLoop
    &&& code[close] == Instruction::EndLoop
    &&& depth(code, close + 1) == depth(code, open)
    &&& forall|k: int| open < k <= close ==> depth(code, k) > depth(code, open)
}

/// The index that instruction `i` jumps across to: the matching loop end of a
/// loop start, the matching loop start of a loop end, and `i` itself for any
/// other instruction.
pub open spec fn partner(code: Seq<Instruction>, i: int) -> int {
    match code[i] {
        Instruction::StartLoop => choose|j: int| is_pair(code, i, j),
        Instruction::EndLoop => choose|j: int| is_pair(code, j, i),
        _ => i,
    }
}

/// `table` maps every instruction of `code` to its partner.
pub open spec fn is_jump_table(code: Seq<Instruction>, table: Seq<usize>) -> bool {
    &&& table.len() == code.len()
    &&& forall|i: int| 0 <= i < code.len() ==> table[i] as int == partner(code, i)
}

/// The loop end at `i` is the first one that closes no loop.
pub open spec fn first_unmatched_end(code: Seq<Instruction>, i: int) -> bool {
    &&& 0 <= i < code.len()
    &&& code[i] == Instruction::EndLoop
    &&& depth(code, i) == 0
    &&& forall|k: int| 0 <= k <= i ==> depth(code, k) >= 0
}

/// The loop start at `i` is never closed.
pub open spec fn unmatched_start(code: Seq<Instruction>, i: int) -> bool {
    &&& 0 <= i < code.len()
    &&& code[i] == Instruction::StartLoop
    &&& forall|k: int| i < k <= code.len() ==> depth(code, k) > depth(code, i)
}

/// The loop start at `i` is the earliest one that is never closed.
pub open spec fn earliest_unmatched_start(code: Seq<Instruction>, i: int) -> bool {
    &&& unmatched_start(code, i)
    &&& forall|j: int| 0 <= j < i ==> !unmatched_start(code, j)
}

/// A loop start has at most one matching loop end, and a loop end at most one
/// matching loop start.
pub proof fn lemma_pair_unique(code: Seq<Instruction>, a: int, b: int, c: int, d: int)
    requires
        is_pair(code, a, b),
        is_pair(code, c, d),
    ensures
        a == c <==> b == d,
{
    if a == c && b != d {
        if b < d {
            assert(depth(code, b + 1) > depth(code, a));
        } else {
            assert(depth(code, d + 1) > depth(code, a));
        }
    }
    if b == d && a != c {
        if a < c {
            assert(depth(code, c) > depth(code, a));
        } else {
            assert(depth(code, a) > depth(code, c));
        }
    }
}

/// The two ends of a loop are each other's partner.
pub proof fn lemma_pair_partners(code: Seq<Instruction>, open: int, close: int)
    requires
        is_pair(code, open, close),
    ensures
        partner(code, open) == close,
        partner(code, close) == open,
{
    let j = choose|j: int| is_pair(code, open, j);
    lemma_pair_unique(code, open, close, open, j);
    let i = choose|i: int| is_pair(code, i, close);
    lemma_pair_unique(code, open, close, i, close);
}

/// In well-bracketed code every loop start has a matching loop end.
pub proof fn lemma_start_has_end(code: Seq<Instruction>, open: int)
    requires
        well_bracketed(code),
        0 <= open < code.len(),
        code[open] == Instruction::StartLoop,
    ensures
        is_pair(code, open, partner(code, open)),
{
    lemma_search_end(code, open, open + 1);
}

proof fn lemma_search_end(code: Seq<Instruction>, open: int, k: int)
    requires
        0 <= open < k <= code.len(),
        code[open] == Instruction::StartLoop,
        depth(code, code.len() as int) <= depth(code, open),
        forall|m: int| open < m <= k ==> depth(code, m) > depth(code, open),
    ensures
        exists|close: int| is_pair(code, open, close),
    decreases code.len() - k,
{
    assert(depth(code, k) > depth(code, open));
    assert(k < code.len());
    if depth(code, k + 1) == depth(code, open) {
        assert(is_pair(code, open, k));
    } else {
        lemma_search_end(code, open, k + 1);
    }
}

/// In well-bracketed code every loop end has a matching loop start.
pub proof fn lemma_end_has_start(code: Seq<Instruction>, close: int)
    requires
        well_bracketed(code),
        0 <= close < code.len(),
        code[close] == Instruction::EndLoop,
    ensures
        is_pair(code, partner(code, close), close),
{
    assert(depth(code, close + 1) >= 0);
    lemma_search_start(code, close, close);
}

proof fn lemma_search_start(code: Seq<Instruction>, close: int, k: int)
    requires
        0 <= k <= close < code.len(),
        code[close] == Instruction::EndLoop,
        depth(code, close + 1) >= 0,
        forall|m: int| k <= m <= close ==> #[trigger] depth(code, m) > depth(code, close + 1),
    ensures
        exists|open: int| is_pair(code, open, close),
    decreases k,
{
    assert(depth(code, k) > depth(code, close + 1));
    assert(k > 0);
    if depth(code, k - 1) == depth(code, close + 1) {
        assert(is_pair(code, k - 1, close));
    } else {
        lemma_search_start(code, close, k - 1);
    }
}

/// In well-bracketed code the partner of an instruction is an instruction of the
/// code, and the partner of that partner is the instruction itself.
pub proof fn lemma_partner_involution(code: Seq<Instruction>, i: int)
    requires
        well_bracketed(code),
        0 <= i < code.len(),
    ensures
        0 <= partner(code, i) < code.len(),
        partner(code, partner(code, i)) == i,
{
    match code[i] {
        Instruction::StartLoop => {
            lemma_start_has_end(code, i);
            lemma_pair_partners(code, i, partner(code, i));
        },
        Instruction::EndLoop => {
            lemma_end_has_start(code, i);
            lemma_pair_partners(code, partner(code, i), i);
        },
        _ => {},
    }
}

/// The jump table of well-bracketed code takes every instruction to an
/// instruction, and from there back to where it came from.
pub proof fn lemma_jump_table_involution(code: Seq<Instruction>, table: Seq<usize>, i: int)
    requires
        well_bracketed(code),
        is_jump_table(code, table),
        0 <= i < code.len(),
    ensures
        0 <= table[i] < table.len(),
        table[table[i] as int] == i,
{
    lemma_partner_involution(code, i);
}

/// `fault` is what is wrong with the loops of `code`: its first loop end that
/// closes no loop or, where every loop end closes one, its earliest loop start
/// that is never closed.
pub open spec fn is_loop_fault(code: Seq<Instruction>, fault: InterpreterError) -> bool {
    match fault {
        InterpreterError::UnmatchedLoopEnd(i) => first_unmatched_end(code, i as int),
        InterpreterError::UnmatchedLoopStart(i) => never_negative(code) && earliest_unmatched_start(
            code,
            i as int,
        ),
        InterpreterError::IoFailure => false,
    }
}

/// Only code that is not well-bracketed has a loop fault, and the fault is an
/// unmatched loop start or an unmatched loop end.
pub proof fn lemma_loop_fault_excludes_balance(code: Seq<Instruction>, fault: InterpreterError)
    requires
        is_loop_fault(code, fault),
    ensures
        !well_bracketed(code),
        fault is UnmatchedLoopStart || fault is UnmatchedLoopEnd,
{
    match fault {
        InterpreterError::UnmatchedLoopEnd(i) => {
            assert(depth(code, i + 1) < 0);
        },
        InterpreterError::UnmatchedLoopStart(i) => {
            assert(depth(code, i as int) >= 0);
            assert(depth(code, code.len() as int) > depth(code, i as int));
        },
        InterpreterError::IoFailure => {},
    }
}

/// No code has two loop faults.
pub proof fn lemma_loop_fault_unique(
    code: Seq<Instruction>,
    fault: InterpreterError,
    other: InterpreterError,
)
    requires
        is_loop_fault(code, fault),
        is_loop_fault(code, other),
    ensures
        fault == other,
{
    match (fault, other) {
        (InterpreterError::UnmatchedLoopEnd(i), InterpreterError::UnmatchedLoopEnd(j)) => {
            if i < j {
                assert(depth(code, i + 1) >= 0);
            } else if j < i {
                assert(depth(code, j + 1) >= 0);
            }
        },
        (InterpreterError::UnmatchedLoopEnd(i), _) => {
            assert(depth(code, i + 1) >= 0);
        },
        (_, InterpreterError::UnmatchedLoopEnd(j)) => {
            assert(depth(code, j + 1) >= 0);
        },
        _ => {},
    }
}

/// What the loop resolver has established after the first `done` instructions,
/// with `stack` holding the loop starts that are still open.
spec fn resolved_up_to(
    code: Seq<Instruction>,
    table: Seq<usize>,
    stack: Seq<usize>,
    done: int,
) -> bool {
    &&& 0 <= done <= code.len()
    &&& table.len() == done
    &&& stack.len() == depth(code, done)
    &&& forall|k: int| 0 <= k <= done ==> depth(code, k) >= 0
    &&& forall|t: int| 0 <= t < stack.len() ==> is_open(code, #[trigger] stack[t] as int, t, done)
    &&& forall|s: int, t: int| 0 <= s < t < stack.len() ==> stack[s] < stack[t]
    &&& forall|p: int| 0 <= p < done ==> is_settled(code, table, stack, p)
}

/// The loop start at `open` sits at nesting level `level` and is still open in
/// front of instruction `done`.
spec fn is_open(code: Seq<Instruction>, open: int, level: int, done: int) -> bool {
    &&& 0 <= open < done
    &&& code[open] == Instruction::StartLoop
    &&& depth(code, open) == level
    &&& forall|k: int| open < k <= done ==> depth(code, k) > level
}

/// The table entry of instruction `p` is final, unless `p` is a loop start that
/// is still on the stack.
spec fn is_settled(code: Seq<Instruction>, table: Seq<usize>, stack: Seq<usize>, p: int) -> bool {
    match code[p] {
        Instruction::StartLoop => {
            ||| 0 <= depth(code, p) < stack.len() && stack[depth(code, p)] == p
            ||| is_pair(code, p, table[p] as int)
        },
        Instruction::EndLoop => is_pair(code, table[p] as int, p),
        _ => table[p] == p,
    }
}

/// Matches every loop start of `code` with its loop end in one pass over the
/// code, keeping the loop starts that are still open on a stack.
///
/// On success the result is the jump table of `code`. It fails on the first
/// loop end that closes no loop; if there is none, it fails on the earliest loop
/// start that is never closed.
pub fn resolve_loops(code: &[Instruction]) -> (r: Result<Vec<usize>, InterpreterError>)
    ensures
        r is Ok <==> well_bracketed(code@),
        match r {
            Ok(table) => is_jump_table(code@, table@),
            Err(fault) => is_loop_fault(code@, fault),
        },
{
    let mut table: Vec<usize> = Vec::new();
    let mut stack: Vec<usize> = Vec::new();
    let mut at: usize = 0;
    while at < code.len()
        invariant
            resolved_up_to(code@, table@, stack@, at as int),
        decreases code.len() - at,
    {
        let ghost before = stack@;
        let ghost entries = table@;
        match code[at] {
            Instruction::StartLoop => {
                stack.push(at);
                table.push(at);
            },
            Instruction::EndLoop => {
                match stack.pop() {
                    None => {
                        proof {
                            lemma_loop_fault_excludes_balance(
                                code@,
                                InterpreterError::UnmatchedLoopEnd(at),
                            );
                        }
                        return Err(InterpreterError::UnmatchedLoopEnd(at));
                    },
                    Some(open) => {
                        assert(is_open(
                            code@,
                            before[before.len() - 1] as int,
                            before.len() - 1,
                            at as int,
                        ));
                        assert(is_pair(code@, open as int, at as int));
                        table.set(open, at);
                        table.push(open);
                    },
                }
            },
            _ => {
                table.push(at);
            },
        }
        proof {
            assert forall|t: int| 0 <= t < stack@.len() implies is_open(
                code@,
                #[trigger] stack@[t] as int,
                t,
                at + 1,
            ) by {
                if t < before.len() {
                    assert(is_open(code@, before[t] as int, t, at as int));
                }
            }
            assert forall|p: int| 0 <= p <= at implies is_settled(code@, table@, stack@, p) by {
                if p < at {
                    assert(is_settled(code@, entries, before, p));
                }
            }
        }
        at += 1;
    }
    if stack.len() > 0 {
        let first = stack[0];
        proof {
            assert(is_open(code@, stack@[0] as int, 0, at as int));
            assert forall|j: int| 0 <= j < first implies !unmatched_start(code@, j) by {
                if unmatched_start(code@, j) {
                    assert(is_settled(code@, table@, stack@, j));
                    if is_pair(code@, j, table@[j] as int) {
                        assert(depth(code@, table@[j] + 1) > depth(code@, j));
                    }
                }
            }
            lemma_loop_fault_excludes_balance(code@, InterpreterError::UnmatchedLoopStart(first));
        }
        return Err(InterpreterError::UnmatchedLoopStart(first));
    }
    proof {
        assert forall|i: int| 0 <= i < code@.len() implies table@[i] as int == partner(code@, i) by {
            assert(is_settled(code@, table@, stack@, i));
            match code@[i] {
                Instruction::StartLoop => lemma_pair_partners(code@, i, table@[i] as int),
                Instruction::EndLoop => lemma_pair_partners(code@, table@[i] as int, i),
                _ => {},
            }
        }
    }
    Ok(table)
}

} // verus!
