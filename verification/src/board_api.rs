//! The hardware boundary that the controller drives, and its error type.
//!
//! `Io22d08Api` is the only surface the controller uses to talk to a board.
//! It depends on no particular HAL; a board support layer, or a fake board in
//! a test, implements it.
use vstd::prelude::*;

use crate::config::{DIGIT_COUNT, RELAY_COUNT};

verus! {

/// Errors returned by board operations.
#[derive(Copy, Clone, Debug, PartialEq, Eq, Structural)]
pub enum BoardError {
    /// Relay index is out of range.
    InvalidRelayIndex,
    /// Input index is out of range.
    InvalidInputIndex,
    /// Button index is out of range.
    InvalidButtonIndex,
    /// Digit position is out of range.
    InvalidDigitIndex,
    /// A GPIO read or write failed.
    Pin,
}

/// One call made on a board, with its arguments.
pub enum BoardCall {
    ReadInput(usize),
    ReadButton(usize),
    RelayOn(usize),
    RelayOff(usize),
    RelayToggle(usize),
    ShowDigit(usize, u8),
    Tick,
}

/// One entry of a board's call log: the call and, if it failed, its error.
pub struct BoardEvent {
    pub call: BoardCall,
    pub failure: Option<BoardError>,
}

/// The log entry of `call` with outcome `failure`.
pub open spec fn event(call: BoardCall, failure: Option<BoardError>) -> BoardEvent {
    BoardEvent { call, failure }
}

/// The error a result carries, if any.
pub open spec fn outcome<T>(r: Result<T, BoardError>) -> Option<BoardError> {
    match r {
        Ok(_) => None,
        Err(e) => Some(e),
    }
}

/// The log entries of `calls`, each made successfully.
pub open spec fn ok_events(calls: Seq<BoardCall>) -> Seq<BoardEvent> {
    Seq::new(calls.len(), |i: int| event(calls[i], None))
}

/// The log went from `before` to `after` by making `calls` in order until
/// one failed: with no failure every call was made and succeeded; with
/// failure `e` some call of `calls` failed with `e`, every call before it
/// succeeded and none after it was made.
pub open spec fn ran(
    before: Seq<BoardEvent>,
    after: Seq<BoardEvent>,
    calls: Seq<BoardCall>,
    failure: Option<BoardError>,
) -> bool {
    match failure {
        None => after == before + ok_events(calls),
        Some(e) => exists|n: int|
            0 <= n < calls.len() && #[trigger] ok_events(calls.take(n)) + seq![event(calls[n], Some(e))]
                == after.skip(before.len() as int) && after.len() == before.len() + n + 1
                && after.take(before.len() as int) == before,
    }
}

/// The calls that drive every relay to `relays`, relay by relay.
pub open spec fn relay_calls(relays: Seq<bool>) -> Seq<BoardCall> {
    Seq::new(
        RELAY_COUNT as nat,
        |i: int|
            if relays[i] {
                BoardCall::RelayOn(i as usize)
            } else {
                BoardCall::RelayOff(i as usize)
            },
    )
}

/// The calls that show `digits`, position by position.
pub open spec fn digit_calls(digits: Seq<u8>) -> Seq<BoardCall> {
    Seq::new(DIGIT_COUNT as nat, |p: int| BoardCall::ShowDigit(p as usize, digits[p]))
}

/// A run that failed within the first calls of `calls` failed within
/// `calls`.
pub proof fn lemma_ran_failure_within(
    before: Seq<BoardEvent>,
    after: Seq<BoardEvent>,
    calls: Seq<BoardCall>,
    k: int,
    e: BoardError,
)
    requires
        0 <= k <= calls.len(),
        ran(before, after, calls.take(k), Some(e)),
    ensures
        ran(before, after, calls, Some(e)),
{
    let pre = calls.take(k);
    let n = choose|n: int|
        0 <= n < pre.len() && #[trigger] ok_events(pre.take(n)) + seq![event(pre[n], Some(e))]
            == after.skip(before.len() as int) && after.len() == before.len() + n + 1
            && after.take(before.len() as int) == before;
    assert(pre.take(n) =~= calls.take(n));
    assert(pre[n] == calls[n]);
    assert(ok_events(calls.take(n)) + seq![event(calls[n], Some(e))] == after.skip(
        before.len() as int,
    ));
}

/// Running `a` and then `b` is running `a + b`.
pub proof fn lemma_ran_then(
    before: Seq<BoardEvent>,
    mid: Seq<BoardEvent>,
    after: Seq<BoardEvent>,
    a: Seq<BoardCall>,
    b: Seq<BoardCall>,
    failure: Option<BoardError>,
)
    requires
        ran(before, mid, a, None),
        ran(mid, after, b, failure),
    ensures
        ran(before, after, a + b, failure),
{
    let ab = a + b;
    match failure {
        None => {
            assert(ok_events(a) + ok_events(b) =~= ok_events(ab));
            assert(after =~= before + ok_events(ab));
        },
        Some(e) => {
            let n = choose|n: int|
                0 <= n < b.len() && #[trigger] ok_events(b.take(n)) + seq![event(b[n], Some(e))]
                    == after.skip(mid.len() as int) && after.len() == mid.len() + n + 1
                    && after.take(mid.len() as int) == mid;
            let m = a.len() + n;
            assert(ab.take(m) =~= a + b.take(n));
            assert(ok_events(ab.take(m)) =~= ok_events(a) + ok_events(b.take(n)));
            assert(ab[m] == b[n]);
            assert(after.skip(mid.len() as int) =~= ok_events(b.take(n)) + seq![event(b[n], Some(e))]);
            assert(after.take(before.len() as int) =~= before) by {
                assert(after.take(before.len() as int) =~= mid.take(before.len() as int));
            }
            let bl = before.len() as int;
            let ml = mid.len() as int;
            assert(mid =~= before + ok_events(a));
            assert(ml == bl + a.len());
            assert forall|j: int| 0 <= j < a.len() implies #[trigger] after.skip(bl)[j] == ok_events(
                a,
            )[j] by {
                assert(after[bl + j] == after.take(ml)[bl + j]);
                assert(mid[bl + j] == (before + ok_events(a))[bl + j]);
            }
            assert(after.skip(bl) =~= ok_events(a) + after.skip(ml));
            assert(ok_events(ab.take(m)) + seq![event(ab[m], Some(e))] == after.skip(
                before.len() as int,
            ));
        },
    }
}

/// One call: the log grew by the call's entry.
pub proof fn lemma_ran_one(before: Seq<BoardEvent>, call: BoardCall, failure: Option<BoardError>)
    ensures
        ran(before, before.push(event(call, failure)), seq![call], failure),
{
    let after = before.push(event(call, failure));
    match failure {
        None => {
            assert(after =~= before + ok_events(seq![call]));
        },
        Some(e) => {
            assert(ok_events(seq![call].take(0)) + seq![event(seq![call][0], Some(e))] =~= after.skip(
                before.len() as int,
            ));
            assert(after.take(before.len() as int) =~= before);
        },
    }
}

/// Nothing run yet: the log is unchanged.
pub proof fn lemma_ran_nothing(before: Seq<BoardEvent>, calls: Seq<BoardCall>)
    ensures
        ran(before, before, calls.take(0), None),
{
    assert(before =~= before + ok_events(calls.take(0)));
}

/// After the first `k` calls of `calls` succeeded, making call `k` either
/// succeeds, extending the run to the first `k + 1` calls, or fails, ending
/// the run of `calls` with that failure.
pub proof fn lemma_ran_next(
    before: Seq<BoardEvent>,
    cur: Seq<BoardEvent>,
    calls: Seq<BoardCall>,
    k: int,
    failure: Option<BoardError>,
)
    requires
        0 <= k < calls.len(),
        ran(before, cur, calls.take(k), None),
    ensures
        failure is None ==> ran(before, cur.push(event(calls[k], failure)), calls.take(k + 1), None),
        failure is Some ==> ran(before, cur.push(event(calls[k], failure)), calls, failure),
{
    let after = cur.push(event(calls[k], failure));
    lemma_ran_one(cur, calls[k], failure);
    lemma_ran_then(before, cur, after, calls.take(k), seq![calls[k]], failure);
    assert(calls.take(k) + seq![calls[k]] =~= calls.take(k + 1));
    if let Some(e) = failure {
        lemma_ran_failure_within(before, after, calls, k + 1, e);
    }
}

/// After the first `k` calls of `calls` succeeded, running calls `k..j`
/// either succeeds, extending the run to the first `j` calls, or fails,
/// ending the run of `calls` with that failure.
pub proof fn lemma_ran_extend(
    before: Seq<BoardEvent>,
    cur: Seq<BoardEvent>,
    after: Seq<BoardEvent>,
    calls: Seq<BoardCall>,
    k: int,
    j: int,
    failure: Option<BoardError>,
)
    requires
        0 <= k <= j <= calls.len(),
        ran(before, cur, calls.take(k), None),
        ran(cur, after, calls.subrange(k, j), failure),
    ensures
        failure is None ==> ran(before, after, calls.take(j), None),
        failure is Some ==> ran(before, after, calls, failure),
{
    lemma_ran_then(before, cur, after, calls.take(k), calls.subrange(k, j), failure);
    assert(calls.take(k) + calls.subrange(k, j) =~= calls.take(j));
    if let Some(e) = failure {
        lemma_ran_failure_within(before, after, calls, j, e);
    }
}

/// Hardware API of an IO22D08-style board: eight relays, eight inputs, four
/// buttons and a four-digit display.
///
/// The board is described by what has been handed to it and what it handed
/// back: every call made, in order, with its outcome; the value last written
/// to each relay; the digit last written at each display position; the relay
/// states the last tick latched; how often it has been ticked; and the level
/// each input and button last read. Every call is logged; a successful call
/// changes exactly the part of the rest of the record it is about, and a
/// failed call promises nothing more.
///
/// The record functions have defaults only so that an implementation written
/// in plain Rust, which cannot define spec functions (a test's fake board),
/// still compiles; such an implementation keeps no record, and nothing proved
/// about the record applies to it. Code generic over the board knows nothing
/// of the defaults. [`crate::board::Io22d08Board`], the board the firmware
/// runs, overrides them and is verified against these contracts.
pub trait Io22d08Api: Sized {
    /// Every call made on the board so far, in order, with its outcome.
    open spec fn log(&self) -> Seq<BoardEvent> {
        Seq::empty()
    }

    /// The state last written to relay `relay` (`true` = on).
    open spec fn relay_state(&self, relay: int) -> bool {
        false
    }

    /// The state relay `relay` was last latched to by a tick: what the
    /// physical relay shows.
    open spec fn latched_relay(&self, relay: int) -> bool {
        false
    }

    /// The digit last written at display position `position`.
    open spec fn digit_at(&self, position: int) -> u8 {
        0
    }

    /// How many times the board has been ticked.
    open spec fn tick_count(&self) -> nat {
        0
    }

    /// The level that `read_input(input)` last returned.
    open spec fn last_input(&self, input: int) -> bool {
        false
    }

    /// The level that `read_button(button)` last returned.
    open spec fn last_button(&self, button: int) -> bool {
        false
    }

    /// Write a four-digit decimal number to the display buffer.
    fn set_number(&mut self, value: u16);

    /// Set the display digit at `position` (0 = leftmost).
    fn show_digit(&mut self, position: usize, value: u8) -> (r: Result<(), BoardError>)
        ensures
            final(self).log() == old(self).log().push(event(BoardCall::ShowDigit(position, value), outcome(r))),
            r is Ok ==> forall|p: int|
                #[trigger] final(self).digit_at(p) == (if p == position {
                    value
                } else {
                    old(self).digit_at(p)
                }),
            r is Ok ==> (forall|i: int| #[trigger] final(self).relay_state(i) == old(self).relay_state(i)) && (forall|i: int| #[trigger] final(self).last_input(i) == old(self).last_input(i)) && (forall|b: int| #[trigger] final(self).last_button(b) == old(self).last_button(b))
                && final(self).tick_count() == old(self).tick_count() && (forall|l: int| #[trigger] final(self).latched_relay(l) == old(self).latched_relay(l)),
    ;

    /// Turn relay `relay` on.
    fn relay_on(&mut self, relay: usize) -> (r: Result<(), BoardError>)
        ensures
            final(self).log() == old(self).log().push(event(BoardCall::RelayOn(relay), outcome(r))),
            r is Ok ==> forall|i: int|
                #[trigger] final(self).relay_state(i) == (if i == relay {
                    true
                } else {
                    old(self).relay_state(i)
                }),
            r is Ok ==> (forall|p: int| #[trigger] final(self).digit_at(p) == old(self).digit_at(p)) && (forall|i: int| #[trigger] final(self).last_input(i) == old(self).last_input(i)) && (forall|b: int| #[trigger] final(self).last_button(b) == old(self).last_button(b))
                && final(self).tick_count() == old(self).tick_count() && (forall|l: int| #[trigger] final(self).latched_relay(l) == old(self).latched_relay(l)),
    ;

    /// Turn relay `relay` off.
    fn relay_off(&mut self, relay: usize) -> (r: Result<(), BoardError>)
        ensures
            final(self).log() == old(self).log().push(event(BoardCall::RelayOff(relay), outcome(r))),
            r is Ok ==> forall|i: int|
                #[trigger] final(self).relay_state(i) == (if i == relay {
                    false
                } else {
                    old(self).relay_state(i)
                }),
            r is Ok ==> (forall|p: int| #[trigger] final(self).digit_at(p) == old(self).digit_at(p)) && (forall|i: int| #[trigger] final(self).last_input(i) == old(self).last_input(i)) && (forall|b: int| #[trigger] final(self).last_button(b) == old(self).last_button(b))
                && final(self).tick_count() == old(self).tick_count() && (forall|l: int| #[trigger] final(self).latched_relay(l) == old(self).latched_relay(l)),
    ;

    /// Toggle relay `relay`.
    fn relay_toggle(&mut self, relay: usize) -> (r: Result<(), BoardError>)
        ensures
            final(self).log() == old(self).log().push(event(BoardCall::RelayToggle(relay), outcome(r))),
            r is Ok ==> forall|i: int|
                #[trigger] final(self).relay_state(i) == (if i == relay {
                    !old(self).relay_state(i)
                } else {
                    old(self).relay_state(i)
                }),
            r is Ok ==> (forall|p: int| #[trigger] final(self).digit_at(p) == old(self).digit_at(p)) && (forall|i: int| #[trigger] final(self).last_input(i) == old(self).last_input(i)) && (forall|b: int| #[trigger] final(self).last_button(b) == old(self).last_button(b))
                && final(self).tick_count() == old(self).tick_count() && (forall|l: int| #[trigger] final(self).latched_relay(l) == old(self).latched_relay(l)),
    ;

    /// Read button `button`; `true` while pressed.
    fn read_button(&mut self, button: usize) -> (r: Result<bool, BoardError>)
        ensures
            final(self).log() == old(self).log().push(event(BoardCall::ReadButton(button), outcome(r))),
            r matches Ok(v) ==> final(self).last_button(button as int) == v,
            r is Ok ==> forall|b: int|
                b != button ==> #[trigger] final(self).last_button(b) == old(self).last_button(b),
            r is Ok ==> forall|i: int| #[trigger] final(self).last_input(i) == old(self).last_input(i),
            r is Ok ==> (forall|i: int| #[trigger] final(self).relay_state(i) == old(self).relay_state(i)) && (forall|p: int| #[trigger] final(self).digit_at(p) == old(self).digit_at(p))
                && final(self).tick_count() == old(self).tick_count() && (forall|l: int| #[trigger] final(self).latched_relay(l) == old(self).latched_relay(l)),
    ;

    /// Read external input `input`; `true` while active.
    fn read_input(&mut self, input: usize) -> (r: Result<bool, BoardError>)
        ensures
            final(self).log() == old(self).log().push(event(BoardCall::ReadInput(input), outcome(r))),
            r matches Ok(v) ==> final(self).last_input(input as int) == v,
            r is Ok ==> forall|i: int|
                i != input ==> #[trigger] final(self).last_input(i) == old(self).last_input(i),
            r is Ok ==> forall|b: int| #[trigger] final(self).last_button(b) == old(self).last_button(b),
            r is Ok ==> (forall|i: int| #[trigger] final(self).relay_state(i) == old(self).relay_state(i)) && (forall|p: int| #[trigger] final(self).digit_at(p) == old(self).digit_at(p))
                && final(self).tick_count() == old(self).tick_count() && (forall|l: int| #[trigger] final(self).latched_relay(l) == old(self).latched_relay(l)),
    ;

    /// Advance the display multiplex by one digit and latch the relay outputs.
    fn tick(&mut self) -> (r: Result<(), BoardError>)
        ensures
            final(self).log() == old(self).log().push(event(BoardCall::Tick, outcome(r))),
            r is Ok ==> final(self).tick_count() == old(self).tick_count() + 1,
            r is Ok ==> forall|i: int| #[trigger] final(self).latched_relay(i) == old(self).relay_state(i),
            r is Ok ==> (forall|i: int| #[trigger] final(self).relay_state(i) == old(self).relay_state(i)) && (forall|p: int| #[trigger] final(self).digit_at(p) == old(self).digit_at(p))
                && (forall|i: int| #[trigger] final(self).last_input(i) == old(self).last_input(i)) && (forall|b: int| #[trigger] final(self).last_button(b) == old(self).last_button(b)),
    ;
}

/// Two boards record the same relay states.
pub open spec fn same_relays<B: Io22d08Api>(a: B, b: B) -> bool {
    forall|i: int| #[trigger] a.relay_state(i) == b.relay_state(i)
}

/// Two boards record the same display digits.
pub open spec fn same_digits<B: Io22d08Api>(a: B, b: B) -> bool {
    forall|p: int| #[trigger] a.digit_at(p) == b.digit_at(p)
}

/// Two boards record the same last readings of inputs and buttons.
pub open spec fn same_reads<B: Io22d08Api>(a: B, b: B) -> bool {
    &&& forall|i: int| #[trigger] a.last_input(i) == b.last_input(i)
    &&& forall|i: int| #[trigger] a.last_button(i) == b.last_button(i)
}

} // verus!
