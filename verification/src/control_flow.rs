use vstd::prelude::*;
use crate::class::op::{markers_of, Jump, Marker, Op};
use crate::compiler::{CompilerError, ControlFlowError};
use crate::laws::exits::{follows_blocks, lemma_resolution_follows_blocks};
use crate::laws::ranges::well_resolved;

verus! {

/// An error of the resolution and the position of the operation it is about.
#[derive(Debug, Clone, Copy, PartialEq, Eq)]
pub struct Fault {
    pub kind: ControlFlowError,
    pub position: usize,
}

/// State of the resolution between two operations.
pub ghost struct Resolution {
    /// The jump found so far for each operation.
    pub jumps: Seq<Jump>,
    /// For `elif` and `else`, the arm before it in its conditional.
    pub previous: Seq<Option<usize>>,
    /// The last arm of each open conditional, the innermost last.
    pub if_stack: Seq<usize>,
    /// The `while` of each open loop, the innermost last.
    pub while_stack: Seq<usize>,
    /// Each `do`, `break` and `continue` of an open loop.
    pub pending: Seq<usize>,
}

/// The state before the first of `count` operations.
pub open spec fn start(count: nat) -> Resolution {
    Resolution {
        jumps: Seq::new(count, |i: int| Jump::unresolved()),
        previous: Seq::new(count, |i: int| None),
        if_stack: Seq::empty(),
        while_stack: Seq::empty(),
        pending: Seq::empty(),
    }
}

/// The jumps with `target` as the target of the operation at `at`.
pub open spec fn with_target(jumps: Seq<Jump>, at: usize, target: usize) -> Seq<Jump> {
    if at < jumps.len() {
        jumps.update(at as int, Jump { target: Some(target), exit: jumps[at as int].exit })
    } else {
        jumps
    }
}

/// The jumps with `exit` as the exit of the operation at `at`.
pub open spec fn with_exit(jumps: Seq<Jump>, at: usize, exit: usize) -> Seq<Jump> {
    if at < jumps.len() {
        jumps.update(at as int, Jump { target: jumps[at as int].target, exit: Some(exit) })
    } else {
        jumps
    }
}

/// Gives every arm from `link` back to the `if` of its conditional the exit `past`.
pub open spec fn close_chain(
    jumps: Seq<Jump>,
    previous: Seq<Option<usize>>,
    link: Option<usize>,
    past: usize,
) -> Seq<Jump>
    decreases
        (match link {
            Some(arm) => arm + 1,
            None => 0,
        }),
{
    match link {
        None => jumps,
        Some(arm) => {
            if arm < previous.len() && (previous[arm as int] matches Some(before) ==> before < arm) {
                close_chain(with_exit(jumps, arm, past), previous, previous[arm as int], past)
            } else {
                jumps
            }
        },
    }
}

/// Gives every `do`, `break` and `continue` recorded since the `while` at
/// `opened` its target: `continue` goes back to the `while`, the others go to `past`.
pub open spec fn settle_jumps(
    jumps: Seq<Jump>,
    markers: Seq<Marker>,
    pending: Seq<usize>,
    opened: usize,
    past: usize,
) -> Seq<Jump>
    decreases pending.len(),
{
    if pending.len() > 0 && pending.last() > opened {
        let at = pending.last();
        let target = if markers[at as int] == Marker::Continue {
            opened
        } else {
            past
        };
        settle_jumps(with_target(jumps, at, target), markers, pending.drop_last(), opened, past)
    } else {
        jumps
    }
}

/// What is still pending once the loop of the `while` at `opened` is closed.
pub open spec fn settle_pending(pending: Seq<usize>, opened: usize) -> Seq<usize>
    decreases pending.len(),
{
    if pending.len() > 0 && pending.last() > opened {
        settle_pending(pending.drop_last(), opened)
    } else {
        pending
    }
}

/// Where `break` and `continue` go outside any loop: the body of the
/// function is the block around them, so `break` goes behind the last
/// operation and `continue` to the first.
pub open spec fn outside_target(markers: Seq<Marker>, at: usize) -> usize {
    if markers[at as int] == Marker::Continue {
        0
    } else {
        markers.len() as usize
    }
}

/// The state after the operation at `at`, or the error that it raises.
pub open spec fn step(state: Resolution, markers: Seq<Marker>, at: usize) -> Result<
    Resolution,
    Fault,
> {
    let past = (at + 1) as usize;
    match markers[at as int] {
        Marker::If => Ok(Resolution { if_stack: state.if_stack.push(at), ..state }),
        Marker::Elif | Marker::Else => {
            if state.if_stack.len() == 0 {
                Err(
                    Fault {
                        kind: if markers[at as int] == Marker::Elif {
                            ControlFlowError::UnmatchedElif
                        } else {
                            ControlFlowError::UnmatchedElse
                        },
                        position: at,
                    },
                )
            } else {
                let open = state.if_stack.last();
                Ok(
                    Resolution {
                        jumps: with_target(state.jumps, open, at),
                        previous: state.previous.update(at as int, Some(open)),
                        if_stack: state.if_stack.drop_last().push(at),
                        ..state
                    },
                )
            }
        },
        Marker::Endif => {
            if state.if_stack.len() == 0 {
                Err(Fault { kind: ControlFlowError::UnmatchedEndif, position: at })
            } else {
                let open = state.if_stack.last();
                Ok(
                    Resolution {
                        jumps: close_chain(
                            with_target(state.jumps, open, past),
                            state.previous,
                            state.previous[open as int],
                            past,
                        ),
                        if_stack: state.if_stack.drop_last(),
                        ..state
                    },
                )
            }
        },
        Marker::While => Ok(Resolution { while_stack: state.while_stack.push(at), ..state }),
        Marker::Do => {
            if state.while_stack.len() == 0 {
                Err(Fault { kind: ControlFlowError::UnexpectedDo, position: at })
            } else {
                Ok(Resolution { pending: state.pending.push(at), ..state })
            }
        },
        Marker::Break | Marker::Continue => {
            if state.while_stack.len() == 0 {
                Ok(Resolution { jumps: with_target(state.jumps, at, outside_target(markers, at)), ..state })
            } else {
                Ok(Resolution { pending: state.pending.push(at), ..state })
            }
        },
        Marker::Done => {
            if state.while_stack.len() == 0 {
                Err(Fault { kind: ControlFlowError::UnmatchedDone, position: at })
            } else {
                let opened = state.while_stack.last();
                Ok(
                    Resolution {
                        jumps: settle_jumps(
                            with_target(state.jumps, at, opened),
                            markers,
                            state.pending,
                            opened,
                            past,
                        ),
                        pending: settle_pending(state.pending, opened),
                        while_stack: state.while_stack.drop_last(),
                        ..state
                    },
                )
            }
        },
        Marker::Plain => Ok(state),
    }
}

/// The state after the first `count` operations, or the first error among them.
pub open spec fn scan(markers: Seq<Marker>, count: nat) -> Result<Resolution, Fault>
    decreases count,
{
    if count == 0 {
        Ok(start(markers.len()))
    } else {
        match scan(markers, (count - 1) as nat) {
            Ok(state) => step(state, markers, (count - 1) as usize),
            Err(fault) => Err(fault),
        }
    }
}

/// The jump of every operation, or the first error of the resolution. A block
/// that is still open behind the last operation is an error at the keyword
/// that opened it or its last arm, a conditional before a loop.
pub open spec fn resolution(markers: Seq<Marker>) -> Result<Seq<Jump>, Fault> {
    match scan(markers, markers.len()) {
        Err(fault) => Err(fault),
        Ok(state) => {
            if state.if_stack.len() > 0 {
                Err(
                    Fault {
                        kind: ControlFlowError::DanglingBlock,
                        position: state.if_stack.last(),
                    },
                )
            } else if state.while_stack.len() > 0 {
                Err(
                    Fault {
                        kind: ControlFlowError::DanglingBlock,
                        position: state.while_stack.last(),
                    },
                )
            } else {
                Ok(state.jumps)
            }
        },
    }
}

/// Whether the state can stand before the operation at `limit`: the stacks
/// hold positions before it, and an arm stands behind the arm before it.
pub open spec fn well_formed(state: Resolution, count: nat, limit: nat) -> bool {
    &&& state.jumps.len() == count
    &&& state.previous.len() == count
    &&& limit <= count
    &&& forall|k: int| 0 <= k < state.if_stack.len() ==> #[trigger] state.if_stack[k] < limit
    &&& forall|k: int| 0 <= k < state.while_stack.len() ==> #[trigger] state.while_stack[k] < limit
    &&& forall|k: int| 0 <= k < state.pending.len() ==> #[trigger] state.pending[k] < limit
    &&& forall|k: int|
        0 <= k < count ==> ((#[trigger] state.previous[k]) matches Some(before) ==> before < k)
}

fn close(jumps: &mut Vec<Jump>, previous: &Vec<Option<usize>>, link: Option<usize>, past: usize)
    requires
        old(jumps).len() == previous.len(),
        link matches Some(arm) ==> arm < previous.len(),
        forall|k: int|
            0 <= k < previous.len() ==> ((#[trigger] previous[k]) matches Some(before) ==> before
                < k),
    ensures
        final(jumps)@ == close_chain(old(jumps)@, previous@, link, past),
        final(jumps).len() == old(jumps).len(),
{
    let mut next = link;
    while next.is_some()
        invariant
            jumps.len() == previous.len(),
            next matches Some(arm) ==> arm < previous.len(),
            forall|k: int|
                0 <= k < previous.len() ==> ((#[trigger] previous[k]) matches Some(before)
                    ==> before < k),
            close_chain(jumps@, previous@, next, past) == close_chain(
                old(jumps)@,
                previous@,
                link,
                past,
            ),
        decreases
            (match next {
                Some(arm) => arm + 1,
                None => 0,
            }),
    {
        let arm = next.unwrap();
        let target = jumps[arm].target;
        jumps.set(arm, Jump { target, exit: Some(past) });
        next = previous[arm];
    }
}

fn settle(
    jumps: &mut Vec<Jump>,
    markers: &Vec<Marker>,
    pending: &mut Vec<usize>,
    opened: usize,
    past: usize,
)
    requires
        old(jumps).len() == markers.len(),
        forall|k: int| 0 <= k < old(pending).len() ==> #[trigger] old(pending)[k] < markers.len(),
    ensures
        final(jumps)@ == settle_jumps(old(jumps)@, markers@, old(pending)@, opened, past),
        final(pending)@ == settle_pending(old(pending)@, opened),
        final(pending)@ == old(pending)@.take(final(pending).len() as int),
        final(pending).len() <= old(pending).len(),
        final(jumps).len() == old(jumps).len(),
{
    while pending.len() > 0 && pending[pending.len() - 1] > opened
        invariant
            jumps.len() == markers.len(),
            pending.len() <= old(pending).len(),
            pending@ == old(pending)@.take(pending.len() as int),
            forall|k: int|
                0 <= k < old(pending).len() ==> #[trigger] old(pending)[k] < markers.len(),
            settle_jumps(jumps@, markers@, pending@, opened, past) == settle_jumps(
                old(jumps)@,
                markers@,
                old(pending)@,
                opened,
                past,
            ),
            settle_pending(pending@, opened) == settle_pending(old(pending)@, opened),
        decreases pending.len(),
    {
        let at = pending[pending.len() - 1];
        assert(at == old(pending)[pending.len() - 1]);
        let target = if markers[at] == Marker::Continue {
            opened
        } else {
            past
        };
        let exit = jumps[at].exit;
        jumps.set(at, Jump { target: Some(target), exit });
        pending.pop();
        assert(pending@ =~= old(pending)@.take(pending.len() as int));
    }
}

/// The jumps of a sequence of block keywords.
pub fn resolve_jumps(markers: &Vec<Marker>) -> (resolved: Result<Vec<Jump>, Fault>)
    ensures
        resolved matches Ok(jumps) ==> resolution(markers@) == Ok::<Seq<Jump>, Fault>(jumps@),
        resolved matches Err(fault) ==> resolution(markers@) == Err::<Seq<Jump>, Fault>(fault),
        resolved is Ok <==> balanced(markers@),
        resolved matches Ok(jumps) ==> follows_blocks(markers@, jumps@),
        resolved matches Err(fault) ==> raised_by(markers@, fault),
{
    let count = markers.len();
    proof {
        lemma_resolved_iff_balanced(markers@);
        lemma_resolution_follows_blocks(markers@);
    }
    let mut jumps: Vec<Jump> = Vec::new();
    let mut previous: Vec<Option<usize>> = Vec::new();
    let mut filled: usize = 0;
    while filled < count
        invariant
            filled <= count,
            jumps.len() == filled,
            previous.len() == filled,
            forall|k: int| 0 <= k < filled ==> #[trigger] jumps[k] == Jump::unresolved(),
            forall|k: int| 0 <= k < filled ==> (#[trigger] previous[k]) is None,
        decreases count - filled,
    {
        jumps.push(Jump::none());
        previous.push(None);
        filled += 1;
    }
    let mut if_stack: Vec<usize> = Vec::new();
    let mut while_stack: Vec<usize> = Vec::new();
    let mut pending: Vec<usize> = Vec::new();
    assert(jumps@ =~= start(count as nat).jumps);
    assert(previous@ =~= start(count as nat).previous);
    let mut at: usize = 0;
    while at < count
        invariant
            count == markers.len(),
            at <= count,
            resolution(markers@) is Ok <==> balanced(markers@),
            resolution(markers@) matches Ok(jumps) ==> follows_blocks(markers@, jumps),
            resolution(markers@) matches Err(fault) ==> raised_by(markers@, fault),
            well_formed(
                Resolution {
                    jumps: jumps@,
                    previous: previous@,
                    if_stack: if_stack@,
                    while_stack: while_stack@,
                    pending: pending@,
                },
                count as nat,
                at as nat,
            ),
            scan(markers@, at as nat) == Ok::<Resolution, Fault>(
                Resolution {
                    jumps: jumps@,
                    previous: previous@,
                    if_stack: if_stack@,
                    while_stack: while_stack@,
                    pending: pending@,
                },
            ),
        decreases count - at,
    {
        let ghost before = Resolution {
            jumps: jumps@,
            previous: previous@,
            if_stack: if_stack@,
            while_stack: while_stack@,
            pending: pending@,
        };
        assert(scan(markers@, (at + 1) as nat) == step(before, markers@, at));
        let past = at + 1;
        match markers[at] {
            Marker::If => {
                if_stack.push(at);
            },
            Marker::Elif => {
                if if_stack.len() == 0 {
                    let fault = Fault { kind: ControlFlowError::UnmatchedElif, position: at };
                    proof {
                        lemma_error_stays(markers@, (at + 1) as nat, count as nat);
                    }
                    return Err(fault);
                }
                let open = if_stack.pop().unwrap();
                let exit = jumps[open].exit;
                jumps.set(open, Jump { target: Some(at), exit });
                previous.set(at, Some(open));
                if_stack.push(at);
                assert(if_stack@ =~= before.if_stack.drop_last().push(at));
            },
            Marker::Else => {
                if if_stack.len() == 0 {
                    let fault = Fault { kind: ControlFlowError::UnmatchedElse, position: at };
                    proof {
                        lemma_error_stays(markers@, (at + 1) as nat, count as nat);
                    }
                    return Err(fault);
                }
                let open = if_stack.pop().unwrap();
                let exit = jumps[open].exit;
                jumps.set(open, Jump { target: Some(at), exit });
                previous.set(at, Some(open));
                if_stack.push(at);
                assert(if_stack@ =~= before.if_stack.drop_last().push(at));
            },
            Marker::Endif => {
                if if_stack.len() == 0 {
                    let fault = Fault { kind: ControlFlowError::UnmatchedEndif, position: at };
                    proof {
                        lemma_error_stays(markers@, (at + 1) as nat, count as nat);
                    }
                    return Err(fault);
                }
                let open = if_stack.pop().unwrap();
                let exit = jumps[open].exit;
                jumps.set(open, Jump { target: Some(past), exit });
                close(&mut jumps, &previous, previous[open], past);
            },
            Marker::While => {
                while_stack.push(at);
            },
            Marker::Do => {
                if while_stack.len() == 0 {
                    let fault = Fault { kind: ControlFlowError::UnexpectedDo, position: at };
                    proof {
                        lemma_error_stays(markers@, (at + 1) as nat, count as nat);
                    }
                    return Err(fault);
                }
                pending.push(at);
            },
            Marker::Break => {
                if while_stack.len() > 0 {
                    pending.push(at);
                } else {
                    let exit = jumps[at].exit;
                    jumps.set(at, Jump { target: Some(count), exit });
                }
            },
            Marker::Continue => {
                if while_stack.len() > 0 {
                    pending.push(at);
                } else {
                    let exit = jumps[at].exit;
                    jumps.set(at, Jump { target: Some(0), exit });
                }
            },
            Marker::Done => {
                if while_stack.len() == 0 {
                    let fault = Fault { kind: ControlFlowError::UnmatchedDone, position: at };
                    proof {
                        lemma_error_stays(markers@, (at + 1) as nat, count as nat);
                    }
                    return Err(fault);
                }
                let opened = while_stack.pop().unwrap();
                let exit = jumps[at].exit;
                jumps.set(at, Jump { target: Some(opened), exit });
                settle(&mut jumps, markers, &mut pending, opened, past);
            },
            Marker::Plain => {},
        }
        at += 1;
    }
    if if_stack.len() > 0 {
        Err(
            Fault {
                kind: ControlFlowError::DanglingBlock,
                position: if_stack[if_stack.len() - 1],
            },
        )
    } else if while_stack.len() > 0 {
        Err(
            Fault {
                kind: ControlFlowError::DanglingBlock,
                position: while_stack[while_stack.len() - 1],
            },
        )
    } else {
        Ok(jumps)
    }
}

/// The operations with the jump of each block keyword replaced by the one in `jumps`.
pub open spec fn with_jumps(ops: Seq<Op>, jumps: Seq<Jump>) -> Seq<Op> {
    Seq::new(
        ops.len(),
        |i: int|
            Op {
                id: ops[i].id,
                typ: ops[i].typ.with_jump(jumps[i]),
                start_loc: ops[i].start_loc,
                end_loc: ops[i].end_loc,
            },
    )
}

/// The jump of each operation, in order.
pub open spec fn jumps_of(ops: Seq<Op>) -> Seq<Jump> {
    Seq::new(ops.len(), |i: int| ops[i].typ.jump())
}

/// Writing well resolved jumps into operations changes no keyword, and the
/// operations then carry those jumps.
pub proof fn lemma_with_jumps_carries(ops: Seq<Op>, jumps: Seq<Jump>)
    requires
        well_resolved(markers_of(ops), jumps),
    ensures
        markers_of(with_jumps(ops, jumps)) == markers_of(ops),
        jumps_of(with_jumps(ops, jumps)) == jumps,
{
    assert(markers_of(with_jumps(ops, jumps)) =~= markers_of(ops));
    assert forall|i: int| 0 <= i < ops.len() implies jumps_of(with_jumps(ops, jumps))[i]
        == jumps[i] by {
        assert(crate::laws::ranges::fits(jumps, markers_of(ops), i));
    }
    assert(jumps_of(with_jumps(ops, jumps)) =~= jumps);
}

/// The keyword of each operation.
pub fn collect_markers(ops: &Vec<Op>) -> (markers: Vec<Marker>)
    ensures
        markers@ == markers_of(ops@),
{
    let mut markers: Vec<Marker> = Vec::new();
    let mut at: usize = 0;
    while at < ops.len()
        invariant
            at <= ops.len(),
            markers.len() == at,
            forall|k: int| 0 <= k < at ==> #[trigger] markers[k] == ops[k].typ.marker(),
        decreases ops.len() - at,
    {
        markers.push(ops[at].typ.get_marker());
        at += 1;
    }
    assert(markers@ =~= markers_of(ops@));
    markers
}

/// Pairs the block keywords of a function and writes into each the position
/// at which execution continues.
///
/// On success every operation is as before but for the jump of its keyword,
/// and every keyword that carries a jump has its target.
/// On failure the operations are unchanged and the error is the first of the
/// resolution, at the start of the operation that it is about.
pub fn resolve_control_flow(ops: &mut Vec<Op>) -> (resolved: Result<(), CompilerError>)
    ensures
        match resolution(markers_of(old(ops)@)) {
            Ok(jumps) => resolved is Ok && final(ops)@ == with_jumps(old(ops)@, jumps),
            Err(fault) => final(ops)@ == old(ops)@ && fault.position < old(ops).len() && resolved
                == Err::<(), CompilerError>(
                CompilerError::ControlFlowError(
                    fault.kind,
                    old(ops)[fault.position as int].start_loc,
                ),
            ),
        },
        resolved is Ok <==> balanced(markers_of(old(ops)@)),
        resolved is Ok ==> markers_of(final(ops)@) == markers_of(old(ops)@) && follows_blocks(
            markers_of(final(ops)@),
            jumps_of(final(ops)@),
        ),
        resolution(markers_of(old(ops)@)) matches Err(fault) ==> raised_by(
            markers_of(old(ops)@),
            fault,
        ),
        resolved is Ok ==> crate::laws::ranges::all_resolved(
            markers_of(final(ops)@),
            jumps_of(final(ops)@),
        ),
{
    let markers = collect_markers(ops);
    match resolve_jumps(&markers) {
        Err(fault) => Err(
            CompilerError::ControlFlowError(fault.kind, ops[fault.position].start_loc.clone()),
        ),
        Ok(jumps) => {
            let mut at: usize = 0;
            while at < ops.len()
                invariant
                    at <= ops.len(),
                    ops.len() == old(ops).len(),
                    jumps.len() == ops.len(),
                    forall|k: int| 0 <= k < at ==> #[trigger] ops[k] == with_jumps(old(ops)@, jumps@)[k],
                    forall|k: int| at <= k < ops.len() ==> #[trigger] ops[k] == old(ops)[k],
                decreases ops.len() - at,
            {
                ops[at].typ.set_jump(jumps[at]);
                at += 1;
            }
            assert(ops@ =~= with_jumps(old(ops)@, jumps@));
            proof {
                lemma_with_jumps_carries(old(ops)@, jumps@);
                crate::laws::ranges::lemma_well_resolved_is_resolved(markers@, jumps@);
            }
            Ok(())
        },
    }
}

/// Once an operation has raised an error, the scan of more operations gives
/// the same error.
pub proof fn lemma_error_stays(markers: Seq<Marker>, count: nat, more: nat)
    requires
        count <= more,
        scan(markers, count) is Err,
    ensures
        scan(markers, more) == scan(markers, count),
    decreases more,
{
    if count < more {
        lemma_error_stays(markers, count, (more - 1) as nat);
    }
}

/// Number of conditionals that are open before the operation at `count`.
pub open spec fn if_depth(markers: Seq<Marker>, count: nat) -> int
    decreases count,
{
    if count == 0 {
        0
    } else {
        if_depth(markers, (count - 1) as nat) + match markers[count - 1] {
            Marker::If => 1int,
            Marker::Endif => -1int,
            _ => 0int,
        }
    }
}

/// Number of loops that are open before the operation at `count`.
pub open spec fn loop_depth(markers: Seq<Marker>, count: nat) -> int
    decreases count,
{
    if count == 0 {
        0
    } else {
        loop_depth(markers, (count - 1) as nat) + match markers[count - 1] {
            Marker::While => 1int,
            Marker::Done => -1int,
            _ => 0int,
        }
    }
}

/// Whether the keyword at `at` stands inside a block of its kind: `elif`,
/// `else` and `endif` inside a conditional, `do` and `done` inside a loop.
pub open spec fn well_placed(markers: Seq<Marker>, at: int) -> bool {
    match markers[at] {
        Marker::Elif | Marker::Else | Marker::Endif => if_depth(markers, at as nat) > 0,
        Marker::Do | Marker::Done => loop_depth(markers, at as nat) > 0,
        _ => true,
    }
}

/// The error that a keyword raises where it is not well placed.
pub open spec fn misplaced(marker: Marker) -> ControlFlowError {
    match marker {
        Marker::Elif => ControlFlowError::UnmatchedElif,
        Marker::Else => ControlFlowError::UnmatchedElse,
        Marker::Endif => ControlFlowError::UnmatchedEndif,
        Marker::Do => ControlFlowError::UnexpectedDo,
        _ => ControlFlowError::UnmatchedDone,
    }
}

/// Whether every keyword stands inside a block of its kind and every block
/// is closed at the end.
pub open spec fn balanced(markers: Seq<Marker>) -> bool {
    &&& forall|at: int| 0 <= at < markers.len() ==> well_placed(markers, at)
    &&& if_depth(markers, markers.len()) == 0
    &&& loop_depth(markers, markers.len()) == 0
}

/// The scan succeeds as long as every keyword is well placed, and then each
/// stack is as high as the number of open blocks of its kind; it fails at the
/// first keyword that is not, with the error of that keyword.
pub proof fn lemma_scan_follows_depth(markers: Seq<Marker>, count: nat)
    requires
        count <= markers.len() <= usize::MAX,
    ensures
        match scan(markers, count) {
            Ok(state) => {
                &&& state.if_stack.len() == if_depth(markers, count)
                &&& state.while_stack.len() == loop_depth(markers, count)
                &&& forall|at: int| 0 <= at < count ==> well_placed(markers, at)
            },
            Err(fault) => {
                &&& fault.position < count
                &&& !well_placed(markers, fault.position as int)
                &&& fault.kind == misplaced(markers[fault.position as int])
                &&& forall|at: int| 0 <= at < fault.position ==> well_placed(markers, at)
            },
        },
    decreases count,
{
    if count > 0 {
        lemma_scan_follows_depth(markers, (count - 1) as nat);
    }
}

/// Whether the error is the one that the keywords raise: the first keyword
/// that is not well placed, with the error of that keyword; or, where every
/// keyword is well placed, a block that is still open at the end.
pub open spec fn raised_by(markers: Seq<Marker>, fault: Fault) -> bool {
    &&& fault.position < markers.len()
    &&& if fault.kind == ControlFlowError::DanglingBlock {
        &&& forall|at: int| 0 <= at < markers.len() ==> well_placed(markers, at)
        &&& if_depth(markers, markers.len()) > 0 || loop_depth(markers, markers.len()) > 0
    } else {
        &&& !well_placed(markers, fault.position as int)
        &&& fault.kind == misplaced(markers[fault.position as int])
        &&& forall|at: int| 0 <= at < fault.position ==> well_placed(markers, at)
    }
}

/// A sequence of block keywords is resolved if and only if it is balanced.
/// The resolution of a balanced sequence ends with both stacks empty.
pub proof fn lemma_resolved_iff_balanced(markers: Seq<Marker>)
    requires
        markers.len() <= usize::MAX,
    ensures
        resolution(markers) is Ok <==> balanced(markers),
        balanced(markers) ==> (scan(markers, markers.len()) matches Ok(state)
            && state.if_stack.len() == 0 && state.while_stack.len() == 0),
        resolution(markers) matches Err(fault) ==> raised_by(markers, fault),
{
    lemma_scan_follows_depth(markers, markers.len());
    match scan(markers, markers.len()) {
        Ok(state) => {
            lemma_scan_keeps_form(markers, markers.len());
        },
        Err(fault) => {},
    }
}

/// The state of a scan is well formed.
pub proof fn lemma_scan_keeps_form(markers: Seq<Marker>, count: nat)
    requires
        count <= markers.len() <= usize::MAX,
    ensures
        scan(markers, count) matches Ok(state) ==> well_formed(state, markers.len(), count),
    decreases count,
{
    if count > 0 {
        lemma_scan_keeps_form(markers, (count - 1) as nat);
        match scan(markers, (count - 1) as nat) {
            Ok(state) => {
                let at = (count - 1) as usize;
                let past = count as usize;
                match markers[at as int] {
                    Marker::Endif => {
                        if state.if_stack.len() > 0 {
                            let open = state.if_stack.last();
                            lemma_close_chain_length(
                                with_target(state.jumps, open, past),
                                state.previous,
                                state.previous[open as int],
                                past,
                            );
                        }
                    },
                    Marker::Done => {
                        if state.while_stack.len() > 0 {
                            let opened = state.while_stack.last();
                            lemma_settle_length(
                                with_target(state.jumps, at, opened),
                                markers,
                                state.pending,
                                opened,
                                past,
                            );
                        }
                    },
                    _ => {},
                }
            },
            Err(fault) => {},
        }
    }
}

/// Closing a chain keeps the number of jumps.
pub proof fn lemma_close_chain_length(
    jumps: Seq<Jump>,
    previous: Seq<Option<usize>>,
    link: Option<usize>,
    past: usize,
)
    ensures
        close_chain(jumps, previous, link, past).len() == jumps.len(),
    decreases
        (match link {
            Some(arm) => arm + 1,
            None => 0,
        }),
{
    match link {
        None => {},
        Some(arm) => {
            if arm < previous.len() && (previous[arm as int] matches Some(before) ==> before < arm) {
                lemma_close_chain_length(
                    with_exit(jumps, arm, past),
                    previous,
                    previous[arm as int],
                    past,
                );
            }
        },
    }
}

/// Closing a loop keeps the number of jumps and leaves a part of the
/// pending keywords, from the bottom of their stack.
pub proof fn lemma_settle_length(
    jumps: Seq<Jump>,
    markers: Seq<Marker>,
    pending: Seq<usize>,
    opened: usize,
    past: usize,
)
    ensures
        settle_jumps(jumps, markers, pending, opened, past).len() == jumps.len(),
        settle_pending(pending, opened).len() <= pending.len(),
        settle_pending(pending, opened) == pending.take(
            settle_pending(pending, opened).len() as int,
        ),
    decreases pending.len(),
{
    if pending.len() > 0 && pending.last() > opened {
        let at = pending.last();
        let target = if markers[at as int] == Marker::Continue {
            opened
        } else {
            past
        };
        lemma_settle_length(with_target(jumps, at, target), markers, pending.drop_last(), opened, past);
        assert(pending.drop_last().take(settle_pending(pending, opened).len() as int)
            =~= pending.take(settle_pending(pending, opened).len() as int));
    } else {
        assert(pending.take(pending.len() as int) =~= pending);
    }
}

} // verus!
