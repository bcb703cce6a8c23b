//! Input debouncing, press-edge detection, Shift resolution and the static
//! mapping from external input lines to semantic actions.
use vstd::prelude::*;

use crate::action::Action;
use crate::config::{ShiftMode, DEBOUNCE_SAMPLES, INPUT_COUNT, SHIFT_INPUT, SHIFT_MODE};

verus! {

/// One debounced line: its accepted (stable) level, the level it is
/// currently sampling, and how many consecutive samples of that level it has
/// seen (saturating at the threshold).
pub struct LineState {
    pub stable: bool,
    pub candidate: bool,
    pub count: int,
}

/// The line after one raw sample. A sample equal to the candidate counts
/// toward the threshold, and the candidate is accepted once the count reaches
/// it; any other sample becomes the new candidate with a count of one.
pub open spec fn line_sample(l: LineState, raw: bool) -> LineState {
    if raw == l.candidate {
        let count = if l.count < DEBOUNCE_SAMPLES {
            l.count + 1
        } else {
            l.count
        };
        LineState {
            stable: if count >= DEBOUNCE_SAMPLES {
                l.candidate
            } else {
                l.stable
            },
            candidate: l.candidate,
            count,
        }
    } else {
        LineState { stable: l.stable, candidate: raw, count: 1 }
    }
}

/// The line after `n` consecutive raw samples equal to `raw`.
pub open spec fn line_feed(l: LineState, raw: bool, n: nat) -> LineState
    decreases n,
{
    if n == 0 {
        l
    } else {
        line_sample(line_feed(l, raw, (n - 1) as nat), raw)
    }
}

/// A line's count never exceeds the threshold, and a line whose count has
/// reached it has accepted its candidate.
pub open spec fn line_wf(l: LineState) -> bool {
    &&& 0 <= l.count <= DEBOUNCE_SAMPLES
    &&& l.count >= DEBOUNCE_SAMPLES ==> l.stable == l.candidate
}

/// Feeding a line keeps it consistent.
proof fn lemma_line_feed_wf(l: LineState, raw: bool, n: nat)
    requires
        line_wf(l),
    ensures
        line_wf(line_feed(l, raw, n)),
    decreases n,
{
    if n > 0 {
        lemma_line_feed_wf(l, raw, (n - 1) as nat);
    }
}

/// After `n` >= 1 samples of `v` the line's candidate is `v` with at least
/// `min(n, threshold)` counted.
proof fn lemma_line_feed_counts(l: LineState, v: bool, n: nat)
    requires
        line_wf(l),
        n >= 1,
    ensures
        line_feed(l, v, n).candidate == v,
        line_feed(l, v, n).count >= (if n < DEBOUNCE_SAMPLES {
            n as int
        } else {
            DEBOUNCE_SAMPLES as int
        }),
    decreases n,
{
    if n > 1 {
        lemma_line_feed_counts(l, v, (n - 1) as nat);
        lemma_line_feed_wf(l, v, (n - 1) as nat);
    } else {
        assert(line_feed(l, v, 0) == l);
    }
}

/// Acceptance: from any consistent state, `DEBOUNCE_SAMPLES` consecutive
/// samples of a level make it the accepted level.
pub proof fn lemma_debounce_accepts_a_held_level(l: LineState, v: bool)
    requires
        line_wf(l),
    ensures
        line_feed(l, v, DEBOUNCE_SAMPLES as nat).stable == v,
{
    lemma_line_feed_counts(l, v, DEBOUNCE_SAMPLES as nat);
    lemma_line_feed_wf(l, v, DEBOUNCE_SAMPLES as nat);
}

/// Bounce rejection: once a line has sampled a level other than `v`, fewer
/// than `DEBOUNCE_SAMPLES` consecutive samples of `v` do not change its
/// accepted level.
pub proof fn lemma_debounce_rejects_short_runs(l: LineState, v: bool, n: nat)
    requires
        line_wf(l),
        l.candidate != v,
        n < DEBOUNCE_SAMPLES,
    ensures
        line_feed(l, v, n).stable == l.stable,
        n >= 1 ==> line_feed(l, v, n).count == n,
    decreases n,
{
    if n > 0 {
        lemma_debounce_rejects_short_runs(l, v, (n - 1) as nat);
    }
}

/// The line after the raw samples `samples`, taken in order.
pub open spec fn line_run(l: LineState, samples: Seq<bool>) -> LineState
    decreases samples.len(),
{
    if samples.len() == 0 {
        l
    } else {
        line_sample(line_run(l, samples.drop_last()), samples.last())
    }
}

/// How many samples at the end of `samples` equal `v`.
pub open spec fn trailing_run(samples: Seq<bool>, v: bool) -> nat
    decreases samples.len(),
{
    if samples.len() == 0 || samples.last() != v {
        0
    } else {
        trailing_run(samples.drop_last(), v) + 1
    }
}

/// From a line with nothing counted, the count after any samples is at most
/// the length of the trailing run of its candidate.
proof fn lemma_count_within_trailing_run(l: LineState, samples: Seq<bool>)
    requires
        l.count == 0,
    ensures
        line_run(l, samples).count <= trailing_run(samples, line_run(l, samples).candidate),
    decreases samples.len(),
{
    if samples.len() > 0 {
        let prev = samples.drop_last();
        lemma_count_within_trailing_run(l, prev);
        let raw = samples.last();
        assert(trailing_run(samples, raw) == trailing_run(prev, raw) + 1);
    }
}

/// A trailing run of `n` samples of `v` means the last `n` samples are `v`.
proof fn lemma_trailing_run_samples(samples: Seq<bool>, v: bool, n: nat)
    requires
        n <= trailing_run(samples, v),
    ensures
        n <= samples.len(),
        forall|k: int| samples.len() - n <= k < samples.len() ==> #[trigger] samples[k] == v,
    decreases samples.len(),
{
    if n > 0 {
        let prev = samples.drop_last();
        lemma_trailing_run_samples(prev, v, (n - 1) as nat);
        assert forall|k: int| samples.len() - n <= k < samples.len() implies #[trigger] samples[k]
            == v by {
            if k < samples.len() - 1 {
                assert(samples[k] == prev[k]);
            }
        }
    }
}

/// History: starting with nothing counted, the accepted level changes only
/// on a sample that completes `DEBOUNCE_SAMPLES` consecutive samples of the
/// new level; the new accepted level is that sample's level.
pub proof fn lemma_debounce_change_needs_full_run(l: LineState, samples: Seq<bool>)
    requires
        l.count == 0,
        samples.len() > 0,
        line_run(l, samples).stable != line_run(l, samples.drop_last()).stable,
    ensures
        line_run(l, samples).stable == samples.last(),
        samples.len() >= DEBOUNCE_SAMPLES,
        forall|k: int|
            samples.len() - DEBOUNCE_SAMPLES <= k < samples.len() ==> #[trigger] samples[k]
                == samples.last(),
{
    let r = line_run(l, samples);
    lemma_count_within_trailing_run(l, samples);
    lemma_trailing_run_samples(samples, r.candidate, DEBOUNCE_SAMPLES as nat);
}

/// Whether the `DEBOUNCE_SAMPLES` samples ending at index `k` all equal the
/// sample at `k`.
pub open spec fn full_run_at(samples: Seq<bool>, k: int) -> bool {
    &&& DEBOUNCE_SAMPLES - 1 <= k < samples.len()
    &&& forall|j: int| k - DEBOUNCE_SAMPLES < j <= k ==> #[trigger] samples[j] == samples[k]
}

/// The level of the last complete run of `DEBOUNCE_SAMPLES` equal samples in
/// `samples`, or `initial` when there is none.
pub open spec fn settled_level(initial: bool, samples: Seq<bool>) -> bool
    decreases samples.len(),
{
    if samples.len() == 0 {
        initial
    } else if full_run_at(samples, samples.len() - 1) {
        samples.last()
    } else {
        settled_level(initial, samples.drop_last())
    }
}

/// From a line with nothing counted, after any samples the candidate is the
/// last sample and the count is its trailing run, capped at the threshold.
proof fn lemma_count_is_trailing_run(l: LineState, samples: Seq<bool>)
    requires
        l.count == 0,
    ensures
        samples.len() > 0 ==> line_run(l, samples).candidate == samples.last(),
        line_run(l, samples).count == (if trailing_run(samples, line_run(l, samples).candidate)
            < DEBOUNCE_SAMPLES {
            trailing_run(samples, line_run(l, samples).candidate) as int
        } else {
            DEBOUNCE_SAMPLES as int
        }),
    decreases samples.len(),
{
    if samples.len() > 0 {
        let prev = samples.drop_last();
        lemma_count_is_trailing_run(l, prev);
        let raw = samples.last();
        assert(trailing_run(samples, raw) == trailing_run(prev, raw) + 1);
        if prev.len() > 0 && raw != line_run(l, prev).candidate {
            assert(trailing_run(prev, raw) == 0);
        }
        if prev.len() == 0 {
            assert(trailing_run(prev, raw) == 0);
        }
    }
}

/// If the last `n` samples all equal `v`, the trailing run of `v` is at
/// least `n`.
proof fn lemma_trailing_run_at_least(samples: Seq<bool>, v: bool, n: nat)
    requires
        n <= samples.len(),
        forall|j: int| samples.len() - n <= j < samples.len() ==> #[trigger] samples[j] == v,
    ensures
        trailing_run(samples, v) >= n,
    decreases n,
{
    if n > 0 {
        let prev = samples.drop_last();
        assert forall|j: int| prev.len() - (n - 1) <= j < prev.len() implies #[trigger] prev[j]
            == v by {
            assert(prev[j] == samples[j]);
        }
        lemma_trailing_run_at_least(prev, v, (n - 1) as nat);
        assert(samples[samples.len() - 1] == v);
    }
}

/// The accepted level is the level of the last complete run of
/// `DEBOUNCE_SAMPLES` equal samples, or the starting level when there has
/// been none (starting with nothing counted).
pub proof fn lemma_accepted_level_is_last_full_run(l: LineState, samples: Seq<bool>)
    requires
        l.count == 0,
    ensures
        line_run(l, samples).stable == settled_level(l.stable, samples),
    decreases samples.len(),
{
    if samples.len() > 0 {
        let prev = samples.drop_last();
        lemma_accepted_level_is_last_full_run(l, prev);
        let k = samples.len() - 1;
        if full_run_at(samples, k) {
            assert forall|j: int| samples.len() - DEBOUNCE_SAMPLES <= j < samples.len() implies #[trigger] samples[j]
                == samples.last() by {
                assert(samples[j] == samples[k]);
            }
            lemma_trailing_run_at_least(samples, samples.last(), DEBOUNCE_SAMPLES as nat);
            lemma_count_is_trailing_run(l, samples);
            lemma_count_is_trailing_run(l, prev);
        } else {
            if line_run(l, samples).stable != line_run(l, prev).stable {
                lemma_debounce_change_needs_full_run(l, samples);
                assert(full_run_at(samples, k));
            }
        }
    }
}

/// Stability: samples equal to the accepted level never change it.
pub proof fn lemma_debounce_keeps_accepted_level(l: LineState, n: nat)
    requires
        line_wf(l),
    ensures
        line_feed(l, l.stable, n).stable == l.stable,
    decreases n,
{
    if n > 0 {
        lemma_debounce_keeps_accepted_level(l, (n - 1) as nat);
        lemma_line_feed_wf(l, l.stable, (n - 1) as nat);
    }
}

/// Whether the accepted level of a line fed with `v` becomes `v` exactly at
/// sample `k`.
pub open spec fn accepts_at(l: LineState, v: bool, k: nat) -> bool {
    k >= 1 && line_feed(l, v, k).stable == v && line_feed(l, v, (k - 1) as nat).stable != v
}

/// Once a line fed with `v` has accepted `v`, it keeps it for every later
/// sample of `v`.
proof fn lemma_feed_keeps_acceptance(l: LineState, v: bool, k: nat, j: nat)
    requires
        line_wf(l),
        line_feed(l, v, k).stable == v,
        k <= j,
    ensures
        line_feed(l, v, j).stable == v,
    decreases j - k,
{
    if j > k {
        lemma_feed_keeps_acceptance(l, v, k, (j - 1) as nat);
        lemma_line_feed_wf(l, v, (j - 1) as nat);
    }
}

/// A sample at which a line fed with `v` accepts it, at or before `n`.
proof fn lemma_find_acceptance(l: LineState, v: bool, n: nat) -> (k: nat)
    requires
        line_feed(l, v, 0).stable != v,
        line_feed(l, v, n).stable == v,
    ensures
        1 <= k <= n,
        accepts_at(l, v, k),
    decreases n,
{
    if line_feed(l, v, (n - 1) as nat).stable != v {
        n
    } else {
        lemma_find_acceptance(l, v, (n - 1) as nat)
    }
}

/// A held level is reported once: a line whose accepted level is not `v`,
/// held at `v` for `n >= DEBOUNCE_SAMPLES` samples, accepts `v` at exactly
/// one of those samples (so a held input emits its press edge once and never
/// repeats it).
pub proof fn lemma_held_level_is_accepted_once(l: LineState, v: bool, n: nat)
    requires
        line_wf(l),
        l.stable != v,
        n >= DEBOUNCE_SAMPLES,
    ensures
        exists|k: nat| 1 <= k <= n && #[trigger] accepts_at(l, v, k),
        forall|k1: nat, k2: nat|
            1 <= k1 <= n && 1 <= k2 <= n && #[trigger] accepts_at(l, v, k1) && #[trigger] accepts_at(
                l,
                v,
                k2,
            ) ==> k1 == k2,
{
    lemma_debounce_accepts_a_held_level(l, v);
    lemma_feed_keeps_acceptance(l, v, DEBOUNCE_SAMPLES as nat, n);
    assert(line_feed(l, v, 0) == l);
    let k = lemma_find_acceptance(l, v, n);
    assert forall|k1: nat, k2: nat|
        1 <= k1 <= n && 1 <= k2 <= n && #[trigger] accepts_at(l, v, k1) && #[trigger] accepts_at(
            l,
            v,
            k2,
        ) implies k1 == k2 by {
        if k1 < k2 {
            lemma_line_feed_wf(l, v, k1);
            lemma_feed_keeps_acceptance(l, v, k1, (k2 - 1) as nat);
        } else if k2 < k1 {
            lemma_feed_keeps_acceptance(l, v, k2, (k1 - 1) as nat);
        }
    }
}

/// Debounces `N` independent logical input lines.
///
/// A line accepts a candidate level once it has been sampled for
/// `DEBOUNCE_SAMPLES` consecutive ticks; any mismatched sample restarts that
/// line's count.
pub struct Debouncer<const N: usize> {
    stable: [bool; N],
    candidate: [bool; N],
    count: [u32; N],
}

impl<const N: usize> Debouncer<N> {
    /// The lines of the debouncer.
    pub closed spec fn lines(&self) -> Seq<LineState> {
        Seq::new(N as nat, |i: int| self.line_at(i))
    }

    closed spec fn line_at(&self, i: int) -> LineState {
        LineState {
            stable: self.stable@[i],
            candidate: self.candidate@[i],
            count: self.count@[i] as int,
        }
    }

    /// Every line's count is within the threshold.
    pub open spec fn wf(&self) -> bool {
        &&& self.lines().len() == N
        &&& forall|i: int| 0 <= i < N ==> line_wf(#[trigger] self.lines()[i])
    }

    /// The accepted level of every line.
    pub open spec fn stable_levels(&self) -> Seq<bool> {
        Seq::new(self.lines().len(), |i: int| self.lines()[i].stable)
    }

    /// Construct a debouncer with every line idle (`false`) and no sample seen.
    pub fn new() -> (d: Self)
        ensures
            d.wf(),
            forall|i: int|
                0 <= i < N ==> #[trigger] d.lines()[i] == (LineState {
                    stable: false,
                    candidate: false,
                    count: 0,
                }),
    {
        Debouncer { stable: [false;N], candidate: [false;N], count: [0u32;N] }
    }

    /// The accepted level of every line.
    pub fn stable(&self) -> (s: [bool; N])
        requires
            self.wf(),
        ensures
            s@ == self.stable_levels(),
    {
        assert(self.stable@ =~= self.stable_levels());
        self.stable
    }

    /// Feed one 1 ms raw sample for all `N` lines; return the updated
    /// accepted levels.
    pub fn sample(&mut self, raw: [bool; N]) -> (s: [bool; N])
        requires
            old(self).wf(),
        ensures
            final(self).wf(),
            forall|i: int|
                0 <= i < N ==> #[trigger] final(self).lines()[i] == line_sample(
                    old(self).lines()[i],
                    raw@[i],
                ),
            s@ == final(self).stable_levels(),
    {
        let ghost before = self.lines();
        let ghost self_before = *self;
        let mut i: usize = 0;
        while i < N
            invariant
                0 <= i <= N,
                before.len() == N,
                forall|j: int| 0 <= j < N ==> #[trigger] before[j] == self_before.line_at(j),
                forall|j: int| 0 <= j < N ==> line_wf(#[trigger] before[j]),
                forall|j: int| 0 <= j < i ==> #[trigger] self.line_at(j) == line_sample(before[j], raw@[j]),
                forall|j: int| i <= j < N ==> #[trigger] self.line_at(j) == before[j],
            decreases N - i,
        {
            let ghost prev = *self;
            assert(self.line_at(i as int) == before[i as int]);
            if raw[i] == self.candidate[i] {
                if self.count[i] < DEBOUNCE_SAMPLES {
                    self.count[i] = self.count[i] + 1;
                }
                if self.count[i] >= DEBOUNCE_SAMPLES {
                    self.stable[i] = self.candidate[i];
                }
            } else {
                self.candidate[i] = raw[i];
                self.count[i] = 1;
            }
            assert forall|j: int| 0 <= j < N && j != i implies #[trigger] self.line_at(j)
                == prev.line_at(j) by {}
            i = i + 1;
        }
        assert forall|j: int| 0 <= j < N implies #[trigger] self.lines()[j] == line_sample(
            before[j],
            raw@[j],
        ) by {
            assert(self.lines()[j] == self.line_at(j));
        }
        assert(self.stable@ =~= self.stable_levels());
        self.stable
    }
}

impl<const N: usize> Default for Debouncer<N> {
    fn default() -> (d: Self)
        ensures
            d.wf(),
            forall|i: int|
                0 <= i < N ==> #[trigger] d.lines()[i] == (LineState {
                    stable: false,
                    candidate: false,
                    count: 0,
                }),
    {
        Self::new()
    }
}

/// Whether the controller is shifted, given the Shift policy and the Shift
/// line's debounced level.
pub open spec fn spec_resolve_shifted(mode: ShiftMode, shift_level: bool) -> bool {
    match mode {
        ShiftMode::Momentary => shift_level,
    }
}

/// Whether the controller is shifted, given the Shift policy and the Shift
/// line's debounced level.
pub fn resolve_shifted(mode: ShiftMode, shift_level: bool) -> (shifted: bool)
    ensures
        shifted == spec_resolve_shifted(mode, shift_level),
{
    match mode {
        ShiftMode::Momentary => shift_level,
    }
}

/// The static action table: what a press edge on external input `line`
/// emits, unshifted or shifted.
///
/// I0..I3 toggle power of relays 0..3, or (shifted) toggle blink of relays
/// 4..7; I4 is Shift and emits nothing; I5 is Global (power, or shifted
/// blink); I6 is Speed (faster, or shifted slower); I7 is reserved.
pub open spec fn line_action(line: int, shifted: bool) -> Option<Action> {
    if 0 <= line < 4 {
        if shifted {
            Some(Action::ToggleBlink((line + 4) as usize))
        } else {
            Some(Action::TogglePower(line as usize))
        }
    } else if line == 5 {
        Some(
            if shifted {
                Action::GlobalBlink
            } else {
                Action::GlobalPower
            },
        )
    } else if line == 6 {
        Some(
            if shifted {
                Action::SpeedAllDown
            } else {
                Action::SpeedAllUp
            },
        )
    } else if line == 7 {
        Some(Action::Reserved)
    } else {
        None
    }
}

/// The action emitted on line `line`: its table entry on a press edge,
/// nothing otherwise.
pub open spec fn edge_action(line: int, edge: bool, shifted: bool) -> Option<Action> {
    if edge {
        line_action(line, shifted)
    } else {
        None
    }
}

/// Only press edges emit: a line whose accepted level did not rise this tick
/// (idle or held) emits nothing, the Shift line never emits, and every other
/// line emits its table entry on a press edge.
pub proof fn lemma_only_press_edges_emit(line: int, edge: bool, shifted: bool)
    requires
        0 <= line < INPUT_COUNT,
    ensures
        !edge ==> edge_action(line, edge, shifted) is None,
        line == SHIFT_INPUT ==> edge_action(line, edge, shifted) is None,
        edge && line != SHIFT_INPUT ==> edge_action(line, edge, shifted) is Some,
{
}

/// Map this tick's press edges on the external inputs to actions through the
/// static table; lines without a press edge emit nothing.
pub fn map_edges(edges: [bool; INPUT_COUNT], shifted: bool) -> (actions: [Option<Action>; INPUT_COUNT])
    ensures
        forall|i: int|
            0 <= i < INPUT_COUNT ==> #[trigger] actions@[i] == edge_action(i, edges@[i], shifted),
{
    let mut actions: [Option<Action>; INPUT_COUNT] = [None;INPUT_COUNT];
    let mut i: usize = 0;
    while i < INPUT_COUNT
        invariant
            0 <= i <= INPUT_COUNT,
            forall|j: int| 0 <= j < i ==> #[trigger] actions@[j] == edge_action(j, edges@[j], shifted),
            forall|j: int| i <= j < INPUT_COUNT ==> #[trigger] actions@[j] == None::<Action>,
        decreases INPUT_COUNT - i,
    {
        if edges[i] {
            let action = if i < 4 {
                if shifted {
                    Some(Action::ToggleBlink(i + 4))
                } else {
                    Some(Action::TogglePower(i))
                }
            } else if i == 5 {
                if shifted {
                    Some(Action::GlobalBlink)
                } else {
                    Some(Action::GlobalPower)
                }
            } else if i == 6 {
                if shifted {
                    Some(Action::SpeedAllDown)
                } else {
                    Some(Action::SpeedAllUp)
                }
            } else if i == 7 {
                Some(Action::Reserved)
            } else {
                None
            };
            actions[i] = action;
        }
        i = i + 1;
    }
    actions
}

/// External inputs: debounces the eight lines, detects press edges of the
/// accepted levels, resolves Shift and emits the mapped actions.
pub struct ExternalInputs {
    debouncer: Debouncer<INPUT_COUNT>,
}

impl ExternalInputs {
    /// The debounced input lines.
    pub closed spec fn lines(&self) -> Seq<LineState> {
        self.debouncer.lines()
    }

    /// The internal consistency of the debouncer.
    pub closed spec fn wf(&self) -> bool {
        self.debouncer.wf()
    }

    /// The accepted level of every input line.
    pub open spec fn stable_levels(&self) -> Seq<bool> {
        Seq::new(self.lines().len(), |i: int| self.lines()[i].stable)
    }

    /// Construct with all lines idle.
    pub fn new() -> (e: Self)
        ensures
            e.wf(),
            e.lines().len() == INPUT_COUNT,
            forall|i: int|
                0 <= i < INPUT_COUNT ==> #[trigger] e.lines()[i] == (LineState {
                    stable: false,
                    candidate: false,
                    count: 0,
                }),
    {
        ExternalInputs { debouncer: Debouncer::new() }
    }

    /// Feed one 1 ms raw snapshot of the external inputs. Each line whose
    /// accepted level rises on this tick (a press edge) emits its action from
    /// the static table, shifted when the Shift line's newly accepted level
    /// says so; every other line emits nothing.
    pub fn tick_1ms(&mut self, raw: [bool; INPUT_COUNT]) -> (actions: [Option<Action>; INPUT_COUNT])
        requires
            old(self).wf(),
        ensures
            final(self).wf(),
            final(self).lines().len() == INPUT_COUNT,
            forall|i: int|
                0 <= i < INPUT_COUNT ==> #[trigger] final(self).lines()[i] == line_sample(
                    old(self).lines()[i],
                    raw@[i],
                ),
            forall|i: int|
                0 <= i < INPUT_COUNT ==> #[trigger] actions@[i] == edge_action(
                    i,
                    final(self).lines()[i].stable && !old(self).lines()[i].stable,
                    spec_resolve_shifted(SHIFT_MODE, final(self).lines()[SHIFT_INPUT as int].stable),
                ),
    {
        let prev = self.debouncer.stable();
        let stable = self.debouncer.sample(raw);
        let mut edges = [false;INPUT_COUNT];
        let mut i: usize = 0;
        while i < INPUT_COUNT
            invariant
                0 <= i <= INPUT_COUNT,
                forall|j: int| 0 <= j < i ==> #[trigger] edges@[j] == (stable@[j] && !prev@[j]),
            decreases INPUT_COUNT - i,
        {
            edges[i] = stable[i] && !prev[i];
            i = i + 1;
        }
        let shifted = resolve_shifted(SHIFT_MODE, stable[SHIFT_INPUT]);
        map_edges(edges, shifted)
    }

    /// The last committed debounced snapshot of the external inputs.
    pub fn stable(&self) -> (s: [bool; INPUT_COUNT])
        requires
            self.wf(),
        ensures
            s@ == self.stable_levels(),
    {
        self.debouncer.stable()
    }
}

} // verus!
