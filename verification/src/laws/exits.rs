//! That the exits of a resolution are those of the blocks: an arm that
//! another arm follows leaves to behind the `endif` of its conditional. With
//! the ranges and the targets this leaves no choice of jumps.

use vstd::prelude::*;
use crate::class::op::{Jump, Marker};
use crate::control_flow::{
    close_chain, Resolution, resolution, scan, settle_pending, start, step, with_exit, with_target,
};
use crate::laws::targets::{
    aligned, arm_aligned, conditionals_at, lemma_conditionals_behind,
    lemma_resolution_is_well_matched, lemma_scan_is_aligned, lemma_step_keeps_aligned, loop_end,
    loop_start, loops_at, matches_block, next_link, well_matched,
};
use crate::laws::ranges::{
    fits, is_arm, lemma_resolution_is_well_resolved, lemma_settle_frame, well_resolved,
};

verus! {

/// Whether the conditional of the arm at `arm` ends at `end`: the first
/// `endif` behind the arm that belongs to the conditional of the arm.
pub open spec fn chain_end(markers: Seq<Marker>, arm: int, end: int) -> bool {
    &&& arm < end < markers.len()
    &&& markers[end] == Marker::Endif
    &&& conditionals_at(markers, end) == conditionals_at(markers, arm + 1)
    &&& forall|p: int|
        arm < p < end ==> !(markers[p] == Marker::Endif && #[trigger] conditionals_at(markers, p)
            == conditionals_at(markers, arm + 1))
}

/// Whether `target` is the `elif` or `else` at which the arm at `arm` ends.
pub open spec fn to_following_arm(target: Option<usize>, markers: Seq<Marker>, arm: int) -> bool {
    target matches Some(to) && to < markers.len() && markers[to as int] != Marker::Endif
        && next_link(markers, arm, to as int)
}

/// Whether `target` lies just behind the `endif` at which the arm at `arm` ends.
pub open spec fn behind_last_arm(target: Option<usize>, markers: Seq<Marker>, arm: int) -> bool {
    target matches Some(to) && to >= 1 && markers[to - 1] == Marker::Endif && next_link(
        markers,
        arm,
        to - 1,
    )
}

/// Whether the exit of the arm at `arm` is what the structure of the
/// blocks gives it: an arm that another arm follows leaves to just behind
/// the `endif` of its conditional, and the last arm has no exit.
pub open spec fn exit_matches(jumps: Seq<Jump>, markers: Seq<Marker>, arm: int) -> bool {
    match jumps[arm].exit {
        Some(exit) => exit >= 1 && chain_end(markers, arm, exit - 1) && to_following_arm(
            jumps[arm].target,
            markers,
            arm,
        ),
        None => behind_last_arm(jumps[arm].target, markers, arm),
    }
}

/// Whether the exit of every arm is what the structure of the blocks gives it.
pub open spec fn well_left(markers: Seq<Marker>, jumps: Seq<Jump>) -> bool {
    &&& jumps.len() == markers.len()
    &&& forall|arm: int|
        0 <= arm < markers.len() && is_arm(markers[arm]) ==> #[trigger] exit_matches(
            jumps,
            markers,
            arm,
        )
}

/// Whether the arm at `arm` is found from the arm at `from` by going from
/// each arm to the one before it.
pub open spec fn reaches(previous: Seq<Option<usize>>, from: Option<usize>, arm: int) -> bool
    decreases
        (match from {
            Some(link) => link + 1,
            None => 0,
        }),
{
    match from {
        None => false,
        Some(link) => link == arm || (link < previous.len() && (previous[link as int] matches Some(
            before,
        ) ==> before < link) && reaches(previous, previous[link as int], arm)),
    }
}

/// Whether the arm belongs to a conditional that is still open.
pub open spec fn in_open_chain(state: Resolution, arm: int) -> bool {
    exists|height: int|
        0 <= height < state.if_stack.len() && #[trigger] reaches(
            state.previous,
            Some(state.if_stack[height]),
            arm,
        )
}

/// Whether an arm of the open conditional of the height `height` is what
/// an arm of an open conditional is: it has no exit yet, no `endif` of its
/// conditional stands behind it, and unless it is the last arm so far, it
/// goes to the arm that follows it.
pub open spec fn member_fits(state: Resolution, markers: Seq<Marker>, count: int, height: int, arm: int) -> bool {
    &&& 0 <= arm < count
    &&& is_arm(markers[arm])
    &&& conditionals_at(markers, arm + 1) == height + 1
    &&& state.jumps[arm].exit is None
    &&& forall|p: int|
        arm < p < count ==> !(markers[p] == Marker::Endif && #[trigger] conditionals_at(markers, p)
            == height + 1)
    &&& (arm != state.if_stack[height] ==> to_following_arm(state.jumps[arm].target, markers, arm))
}

/// Whether the exit of the arm at `arm` is as `exit_matches` says, unless
/// its conditional is still open.
pub open spec fn exit_known(state: Resolution, markers: Seq<Marker>, count: int, arm: int) -> bool {
    (arm < count && is_arm(markers[arm])) ==> (in_open_chain(state, arm) || exit_matches(
        state.jumps,
        markers,
        arm,
    ))
}

/// Whether the arms of every open conditional are linked to each other,
/// and every exit found so far is the place that the structure gives it.
pub open spec fn chained(state: Resolution, markers: Seq<Marker>, count: nat) -> bool {
    &&& aligned(state, markers, count)
    &&& forall|p: int| count <= p < markers.len() ==> (#[trigger] state.previous[p]) is None
    &&& forall|height: int, arm: int|
        0 <= height < state.if_stack.len() && 0 <= arm < markers.len() && #[trigger] reaches(
            state.previous,
            Some(state.if_stack[height]),
            arm,
        ) ==> member_fits(state, markers, count as int, height, arm)
    &&& forall|arm: int|
        0 <= arm < markers.len() ==> #[trigger] exit_known(state, markers, count as int, arm)
}

/// An arm that is found from another stands at or before it.
pub proof fn lemma_reaches_below(previous: Seq<Option<usize>>, from: Option<usize>, arm: int)
    requires
        reaches(previous, from, arm),
    ensures
        from matches Some(link) && arm <= link,
    decreases
        (match from {
            Some(link) => link + 1,
            None => 0,
        }),
{
    match from {
        None => {},
        Some(link) => {
            if link != arm {
                lemma_reaches_below(previous, previous[link as int], arm);
            }
        },
    }
}

/// What is found from an arm depends on nothing behind that arm.
pub proof fn lemma_reaches_frame(
    previous: Seq<Option<usize>>,
    other: Seq<Option<usize>>,
    from: Option<usize>,
    arm: int,
)
    requires
        previous.len() == other.len(),
        from matches Some(link) ==> forall|p: int|
            0 <= p <= link && p < previous.len() ==> #[trigger] previous[p] == other[p],
    ensures
        reaches(previous, from, arm) == reaches(other, from, arm),
    decreases
        (match from {
            Some(link) => link + 1,
            None => 0,
        }),
{
    match from {
        None => {},
        Some(link) => {
            if link != arm && link < previous.len() && (previous[link as int] matches Some(before)
                ==> before < link) {
                assert(previous[link as int] == other[link as int]);
                lemma_reaches_frame(previous, other, previous[link as int], arm);
            } else if link != arm && link < previous.len() {
                assert(previous[link as int] == other[link as int]);
            }
        },
    }
}

/// Closing a chain gives the exit to the arms that are found from its
/// last link, and changes nothing else.
pub proof fn lemma_close_chain_exact(
    jumps: Seq<Jump>,
    previous: Seq<Option<usize>>,
    link: Option<usize>,
    past: usize,
)
    requires
        jumps.len() == previous.len(),
        forall|p: int|
            0 <= p < previous.len() ==> ((#[trigger] previous[p]) matches Some(before) ==> before
                < p),
        link matches Some(arm) ==> arm < previous.len(),
    ensures
        close_chain(jumps, previous, link, past).len() == jumps.len(),
        forall|i: int|
            0 <= i < jumps.len() ==> #[trigger] close_chain(jumps, previous, link, past)[i] == (
            if reaches(previous, link, i) {
                Jump { target: jumps[i].target, exit: Some(past) }
            } else {
                jumps[i]
            }),
    decreases
        (match link {
            Some(arm) => arm + 1,
            None => 0,
        }),
{
    match link {
        None => {},
        Some(arm) => {
            assert(previous[arm as int] matches Some(before) ==> before < arm);
            let next = with_exit(jumps, arm, past);
            lemma_close_chain_exact(next, previous, previous[arm as int], past);
            assert forall|i: int| 0 <= i < jumps.len() implies #[trigger] close_chain(
                jumps,
                previous,
                link,
                past,
            )[i] == (if reaches(previous, link, i) {
                Jump { target: jumps[i].target, exit: Some(past) }
            } else {
                jumps[i]
            }) by {
                if reaches(previous, previous[arm as int], i) {
                    lemma_reaches_below(previous, previous[arm as int], i);
                }
            }
        },
    }
}

/// The step of a keyword that is no `if`, `elif`, `else` or `endif` keeps the arms chained.
proof fn lemma_other_keeps_chained(state: Resolution, markers: Seq<Marker>, at: usize)
    requires
        at < markers.len() <= usize::MAX,
        chained(state, markers, at as nat),
        !is_arm(markers[at as int]),
        markers[at as int] != Marker::Endif,
        step(state, markers, at) is Ok,
    ensures
        chained(step(state, markers, at)->Ok_0, markers, (at + 1) as nat),
{
    let next = step(state, markers, at)->Ok_0;
    lemma_step_keeps_aligned(state, markers, at);
    assert(next.previous == state.previous);
    assert(next.if_stack == state.if_stack);
    if markers[at as int] == Marker::Done {
        let opened = state.while_stack.last();
        let first = with_target(state.jumps, at, opened);
        lemma_settle_frame(first, markers, state.pending, opened, (at + 1) as usize);
    }
    assert forall|arm: int| 0 <= arm < markers.len() && is_arm(markers[arm]) implies next.jumps[arm]
        == state.jumps[arm] by {
        if markers[at as int] == Marker::Done {
            let opened = state.while_stack.last();
            let first = with_target(state.jumps, at, opened);
            let rest = settle_pending(state.pending, opened);
            if exists|k: int| rest.len() <= k < state.pending.len() && state.pending[k] == arm {
                let k = choose|k: int|
                    rest.len() <= k < state.pending.len() && state.pending[k] == arm;
                assert(crate::laws::ranges::awaits_done(markers[state.pending[k] as int]));
            }
            assert(first[arm] == state.jumps[arm]);
        }
    }
    assert forall|height: int, arm: int|
        0 <= height < next.if_stack.len() && 0 <= arm < markers.len() && #[trigger] reaches(
            next.previous,
            Some(next.if_stack[height]),
            arm,
        ) implies member_fits(next, markers, at + 1, height, arm) by {
        assert(member_fits(state, markers, at as int, height, arm));
    }
    assert forall|arm: int| 0 <= arm < markers.len() implies #[trigger] exit_known(
        next,
        markers,
        at + 1,
        arm,
    ) by {
        assert(exit_known(state, markers, at as int, arm));
        if arm < at && is_arm(markers[arm]) {
            if in_open_chain(state, arm) {
                let height = choose|height: int|
                    0 <= height < state.if_stack.len() && #[trigger] reaches(
                        state.previous,
                        Some(state.if_stack[height]),
                        arm,
                    );
                assert(reaches(next.previous, Some(next.if_stack[height]), arm));
            }
        }
    }
}

/// The step of `if` keeps the arms chained.
proof fn lemma_if_keeps_chained(state: Resolution, markers: Seq<Marker>, at: usize)
    requires
        at < markers.len() <= usize::MAX,
        chained(state, markers, at as nat),
        markers[at as int] == Marker::If,
    ensures
        step(state, markers, at) is Ok,
        chained(step(state, markers, at)->Ok_0, markers, (at + 1) as nat),
{
    let next = step(state, markers, at)->Ok_0;
    lemma_step_keeps_aligned(state, markers, at);
    let top = state.if_stack.len() as int;
    assert(next.if_stack[top] == at);
    assert(arm_aligned(next, markers, at + 1, top));
    assert(state.previous[at as int] is None);
    assert(crate::laws::ranges::settled_at(state, markers, at as int, at as int));
    assert forall|height: int, arm: int|
        0 <= height < next.if_stack.len() && 0 <= arm < markers.len() && #[trigger] reaches(
            next.previous,
            Some(next.if_stack[height]),
            arm,
        ) implies member_fits(next, markers, at + 1, height, arm) by {
        if height < top {
            assert(next.if_stack[height] == state.if_stack[height]);
            assert(member_fits(state, markers, at as int, height, arm));
        } else {
            assert(next.previous[at as int] is None);
            assert(!reaches(next.previous, None, arm));
            assert(arm == at);
        }
    }
    assert forall|arm: int| 0 <= arm < markers.len() implies #[trigger] exit_known(
        next,
        markers,
        at + 1,
        arm,
    ) by {
        assert(exit_known(state, markers, at as int, arm));
        if arm == at {
            assert(reaches(next.previous, Some(next.if_stack[top]), arm));
        } else if arm < at && is_arm(markers[arm]) {
            if in_open_chain(state, arm) {
                let height = choose|height: int|
                    0 <= height < state.if_stack.len() && #[trigger] reaches(
                        state.previous,
                        Some(state.if_stack[height]),
                        arm,
                    );
                assert(next.if_stack[height] == state.if_stack[height]);
                assert(reaches(next.previous, Some(next.if_stack[height]), arm));
            }
        }
    }
}

/// The step of `elif` and `else` keeps the arms chained.
proof fn lemma_arm_keeps_chained(state: Resolution, markers: Seq<Marker>, at: usize)
    requires
        at < markers.len() <= usize::MAX,
        chained(state, markers, at as nat),
        markers[at as int] == Marker::Elif || markers[at as int] == Marker::Else,
        step(state, markers, at) is Ok,
    ensures
        chained(step(state, markers, at)->Ok_0, markers, (at + 1) as nat),
{
    let next = step(state, markers, at)->Ok_0;
    lemma_step_keeps_aligned(state, markers, at);
    lemma_conditionals_behind(markers, at as int);
    let top = state.if_stack.len() - 1;
    let open = state.if_stack.last();
    assert(state.if_stack[top] < at);
    assert(arm_aligned(state, markers, at as int, top));
    assert(next_link(markers, open as int, at as int));
    assert(reaches(state.previous, Some(open), open as int));
    assert(member_fits(state, markers, at as int, top, open as int));
    assert(crate::laws::ranges::settled_at(state, markers, at as int, at as int));
    assert forall|height: int, arm: int|
        0 <= height < next.if_stack.len() && 0 <= arm < markers.len() && #[trigger] reaches(
            next.previous,
            Some(next.if_stack[height]),
            arm,
        ) implies member_fits(next, markers, at + 1, height, arm) by {
        if height < top {
            assert(next.if_stack[height] == state.if_stack[height]);
            assert(state.if_stack[height] < at);
            lemma_reaches_frame(
                next.previous,
                state.previous,
                Some(state.if_stack[height]),
                arm,
            );
            assert(member_fits(state, markers, at as int, height, arm));
            assert(arm != open);
        } else if arm != at {
            assert(next.previous[at as int] == Some(open));
            assert(reaches(next.previous, Some(open), arm));
            lemma_reaches_frame(next.previous, state.previous, Some(open), arm);
            assert(member_fits(state, markers, at as int, top, arm));
        }
    }
    assert forall|arm: int| 0 <= arm < markers.len() implies #[trigger] exit_known(
        next,
        markers,
        at + 1,
        arm,
    ) by {
        assert(exit_known(state, markers, at as int, arm));
        if arm == at {
            assert(reaches(next.previous, Some(next.if_stack[top]), arm));
        } else if arm < at && is_arm(markers[arm]) {
            if in_open_chain(state, arm) {
                let height = choose|height: int|
                    0 <= height < state.if_stack.len() && #[trigger] reaches(
                        state.previous,
                        Some(state.if_stack[height]),
                        arm,
                    );
                assert(state.if_stack[height] < at);
                lemma_reaches_frame(
                    next.previous,
                    state.previous,
                    Some(state.if_stack[height]),
                    arm,
                );
                if height < top {
                    assert(next.if_stack[height] == state.if_stack[height]);
                    assert(reaches(next.previous, Some(next.if_stack[height]), arm));
                } else {
                    assert(next.previous[at as int] == Some(open));
                    assert(reaches(next.previous, Some(next.if_stack[top]), arm));
                }
            } else {
                assert(arm != open);
            }
        }
    }
}

/// The step of `endif` keeps the arms chained.
proof fn lemma_endif_keeps_chained(state: Resolution, markers: Seq<Marker>, at: usize)
    requires
        at < markers.len() <= usize::MAX,
        chained(state, markers, at as nat),
        markers[at as int] == Marker::Endif,
        step(state, markers, at) is Ok,
    ensures
        chained(step(state, markers, at)->Ok_0, markers, (at + 1) as nat),
{
    let next = step(state, markers, at)->Ok_0;
    lemma_step_keeps_aligned(state, markers, at);
    lemma_conditionals_behind(markers, at as int);
    let top = state.if_stack.len() - 1;
    let open = state.if_stack.last();
    let past = (at + 1) as usize;
    assert(state.if_stack[top] < at);
    assert(arm_aligned(state, markers, at as int, top));
    assert(next_link(markers, open as int, at as int));
    assert(reaches(state.previous, Some(open), open as int));
    assert(member_fits(state, markers, at as int, top, open as int));
    let first = with_target(state.jumps, open, past);
    let link = state.previous[open as int];
    assert(link matches Some(arm) ==> arm < open);
    lemma_close_chain_exact(first, state.previous, link, past);
    assert forall|arm: int| 0 <= arm < markers.len() && reaches(state.previous, link, arm) implies
        arm < open && reaches(state.previous, Some(open), arm) by {
        lemma_reaches_below(state.previous, link, arm);
    }
    assert forall|height: int, arm: int|
        0 <= height < next.if_stack.len() && 0 <= arm < markers.len() && #[trigger] reaches(
            next.previous,
            Some(next.if_stack[height]),
            arm,
        ) implies member_fits(next, markers, at + 1, height, arm) by {
        assert(next.if_stack[height] == state.if_stack[height]);
        assert(member_fits(state, markers, at as int, height, arm));
        if reaches(state.previous, link, arm) {
            assert(member_fits(state, markers, at as int, top, arm));
        }
        assert(arm != open);
        assert(next.jumps[arm] == first[arm]);
    }
    assert forall|arm: int| 0 <= arm < markers.len() implies #[trigger] exit_known(
        next,
        markers,
        at + 1,
        arm,
    ) by {
        assert(exit_known(state, markers, at as int, arm));
        if arm < at && is_arm(markers[arm]) {
            if in_open_chain(state, arm) {
                let height = choose|height: int|
                    0 <= height < state.if_stack.len() && #[trigger] reaches(
                        state.previous,
                        Some(state.if_stack[height]),
                        arm,
                    );
                assert(member_fits(state, markers, at as int, height, arm));
                if height < top {
                    assert(next.if_stack[height] == state.if_stack[height]);
                    assert(reaches(next.previous, Some(next.if_stack[height]), arm));
                } else if arm == open {
                    assert(!reaches(state.previous, link, arm));
                    assert(next.jumps[arm] == first[arm]);
                    assert(behind_last_arm(next.jumps[arm].target, markers, arm));
                } else {
                    assert(reaches(state.previous, link, arm));
                    assert(next.jumps[arm] == (Jump {
                        target: first[arm].target,
                        exit: Some(past),
                    }));
                    assert(chain_end(markers, arm, at as int));
                }
            } else {
                assert(!reaches(state.previous, Some(open), arm));
                assert(!reaches(state.previous, link, arm));
                assert(arm != open);
                assert(next.jumps[arm] == state.jumps[arm]);
                assert(exit_matches(state.jumps, markers, arm));
            }
        }
    }
}

/// Every step that succeeds keeps the arms chained.
pub proof fn lemma_step_keeps_chained(state: Resolution, markers: Seq<Marker>, at: usize)
    requires
        at < markers.len() <= usize::MAX,
        chained(state, markers, at as nat),
        step(state, markers, at) is Ok,
    ensures
        chained(step(state, markers, at)->Ok_0, markers, (at + 1) as nat),
{
    match markers[at as int] {
        Marker::If => lemma_if_keeps_chained(state, markers, at),
        Marker::Elif | Marker::Else => lemma_arm_keeps_chained(state, markers, at),
        Marker::Endif => lemma_endif_keeps_chained(state, markers, at),
        _ => lemma_other_keeps_chained(state, markers, at),
    }
}

/// The arms of a scan that has succeeded are chained.
pub proof fn lemma_scan_is_chained(markers: Seq<Marker>, count: nat)
    requires
        count <= markers.len() <= usize::MAX,
    ensures
        scan(markers, count) matches Ok(state) ==> chained(state, markers, count),
    decreases count,
{
    lemma_scan_is_aligned(markers, count);
    if count == 0 {
        let state = start(markers.len());
        assert forall|arm: int| 0 <= arm < markers.len() implies #[trigger] exit_known(
            state,
            markers,
            0,
            arm,
        ) by {}
    } else {
        lemma_scan_is_chained(markers, (count - 1) as nat);
        match scan(markers, (count - 1) as nat) {
            Ok(state) => {
                if step(state, markers, (count - 1) as usize) is Ok {
                    lemma_step_keeps_chained(state, markers, (count - 1) as usize);
                }
            },
            Err(_) => {},
        }
    }
}

/// The exits of a resolution that has succeeded are the places that the
/// structure of the blocks gives them: an arm that another arm follows
/// leaves to just behind the `endif` of its conditional, so that only one
/// arm of a conditional is executed, and the last arm has no exit.
pub proof fn lemma_resolution_is_well_left(markers: Seq<Marker>)
    requires
        markers.len() <= usize::MAX,
    ensures
        resolution(markers) matches Ok(jumps) ==> well_left(markers, jumps),
{
    lemma_scan_is_chained(markers, markers.len());
    match resolution(markers) {
        Ok(jumps) => {
            let state = scan(markers, markers.len())->Ok_0;
            assert forall|arm: int|
                0 <= arm < markers.len() && is_arm(markers[arm]) implies #[trigger] exit_matches(
                jumps,
                markers,
                arm,
            ) by {
                assert(exit_known(state, markers, markers.len() as int, arm));
                assert(!in_open_chain(state, arm));
            }
        },
        Err(_) => {},
    }
}

/// Whether the jumps are those of the blocks that the keywords form:
/// every jump lies where the structure of the blocks puts it, and an
/// operation that is no block keyword has none.
pub open spec fn follows_blocks(markers: Seq<Marker>, jumps: Seq<Jump>) -> bool {
    &&& well_resolved(markers, jumps)
    &&& well_matched(markers, jumps)
    &&& well_left(markers, jumps)
}

/// The jumps of a resolution that has succeeded are those of the blocks
/// that the keywords form.
pub proof fn lemma_resolution_follows_blocks(markers: Seq<Marker>)
    requires
        markers.len() <= usize::MAX,
    ensures
        resolution(markers) matches Ok(jumps) ==> follows_blocks(markers, jumps),
{
    lemma_resolution_is_well_resolved(markers);
    lemma_resolution_is_well_matched(markers);
    lemma_resolution_is_well_left(markers);
}

/// An arm ends at one place only.
pub proof fn lemma_next_link_is_one(markers: Seq<Marker>, arm: int, first: int, second: int)
    requires
        next_link(markers, arm, first),
        next_link(markers, arm, second),
    ensures
        first == second,
{
    if first < second {
        assert(conditionals_at(markers, first) == conditionals_at(markers, arm + 1));
    } else if second < first {
        assert(conditionals_at(markers, second) == conditionals_at(markers, arm + 1));
    }
}

/// A conditional ends at one place only.
pub proof fn lemma_chain_end_is_one(markers: Seq<Marker>, arm: int, first: int, second: int)
    requires
        chain_end(markers, arm, first),
        chain_end(markers, arm, second),
    ensures
        first == second,
{
    if first < second {
        assert(conditionals_at(markers, first) == conditionals_at(markers, arm + 1));
    } else if second < first {
        assert(conditionals_at(markers, second) == conditionals_at(markers, arm + 1));
    }
}

/// A loop ends at one place only.
pub proof fn lemma_loop_end_is_one(markers: Seq<Marker>, from: int, first: int, second: int)
    requires
        loop_end(markers, from, first),
        loop_end(markers, from, second),
    ensures
        first == second,
{
    if first < second {
        assert(loops_at(markers, first) == loops_at(markers, from));
    } else if second < first {
        assert(loops_at(markers, second) == loops_at(markers, from));
    }
}

/// A loop starts at one place only.
pub proof fn lemma_loop_start_is_one(markers: Seq<Marker>, first: int, second: int, from: int)
    requires
        loop_start(markers, first, from),
        loop_start(markers, second, from),
    ensures
        first == second,
{
    if first < second {
        assert(loops_at(markers, second) + 1 == loops_at(markers, from));
    } else if second < first {
        assert(loops_at(markers, first) + 1 == loops_at(markers, from));
    }
}

/// The blocks that the keywords form leave no choice of jumps: two
/// sequences of jumps that both follow the blocks are the same.
pub proof fn lemma_blocks_determine_jumps(markers: Seq<Marker>, first: Seq<Jump>, second: Seq<Jump>)
    requires
        follows_blocks(markers, first),
        follows_blocks(markers, second),
    ensures
        first == second,
{
    assert forall|i: int| 0 <= i < markers.len() implies first[i] == second[i] by {
        assert(fits(first, markers, i));
        assert(fits(second, markers, i));
        assert(matches_block(first, markers, i));
        assert(matches_block(second, markers, i));
        let a = first[i];
        let b = second[i];
        match markers[i] {
            Marker::If | Marker::Elif | Marker::Else => {
                assert(exit_matches(first, markers, i));
                assert(exit_matches(second, markers, i));
                let to = a.target->Some_0 as int;
                let other = b.target->Some_0 as int;
                let link = if to < markers.len() && markers[to] != Marker::Endif && next_link(
                    markers,
                    i,
                    to,
                ) {
                    to
                } else {
                    to - 1
                };
                let other_link = if other < markers.len() && markers[other] != Marker::Endif
                    && next_link(markers, i, other) {
                    other
                } else {
                    other - 1
                };
                lemma_next_link_is_one(markers, i, link, other_link);
                assert(a.target == b.target);
                if a.exit is Some && b.exit is Some {
                    lemma_chain_end_is_one(
                        markers,
                        i,
                        a.exit->Some_0 - 1,
                        b.exit->Some_0 - 1,
                    );
                }
            },
            Marker::Do => {
                lemma_loop_end_is_one(markers, i, a.target->Some_0 - 1, b.target->Some_0 - 1);
            },
            Marker::Break => {
                if loops_at(markers, i) > 0 {
                    lemma_loop_end_is_one(markers, i, a.target->Some_0 - 1, b.target->Some_0 - 1);
                }
            },
            Marker::Continue => {
                if loops_at(markers, i) > 0 {
                    lemma_loop_start_is_one(
                        markers,
                        a.target->Some_0 as int,
                        b.target->Some_0 as int,
                        i,
                    );
                }
            },
            Marker::Done => {
                lemma_loop_start_is_one(
                    markers,
                    a.target->Some_0 as int,
                    b.target->Some_0 as int,
                    i,
                );
            },
            _ => {},
        }
    }
    assert(first =~= second);
}

} // verus!
