//! Diagnostic display: view navigation driven by the built-in buttons, the
//! modal-speed calculation, and rendering of the selected view into four
//! display digits. Rendering only reads the relay bank.
use vstd::prelude::*;

use crate::config::{speed_level, speed_level_ms, BUTTON_COUNT, DIGIT_COUNT, INPUT_COUNT, RELAY_COUNT, SPEED_LEVEL_COUNT};
use crate::input::{line_sample, Debouncer, LineState};
use crate::relay::{RelayBank, RelayMode, RelayState};

verus! {

/// Which diagnostic view is currently selected.
#[derive(Copy, Clone, Debug, PartialEq, Eq, Structural)]
pub enum DiagnosticView {
    /// Modal stored per-relay speed.
    Speed,
    /// Debounced external input levels, paged.
    Inputs,
    /// Relay modes, paged.
    Relay,
}

/// Which half of an eight-channel set a paged view is showing.
#[derive(Copy, Clone, Debug, PartialEq, Eq, Structural)]
pub enum Page {
    /// Channels 0-3.
    First,
    /// Channels 4-7.
    Second,
}

/// The other page.
pub open spec fn page_toggled(p: Page) -> Page {
    match p {
        Page::First => Page::Second,
        Page::Second => Page::First,
    }
}

impl Page {
    fn toggled(self) -> (p: Self)
        ensures
            p == page_toggled(self),
    {
        match self {
            Page::First => Page::Second,
            Page::Second => Page::First,
        }
    }
}

/// Navigation state of the diagnostic display: the selected view and each
/// paged view's current page.
#[derive(Copy, Clone, Debug, PartialEq, Eq, Structural)]
pub struct DiagnosticState {
    view: DiagnosticView,
    inputs_page: Page,
    relay_page: Page,
}

/// Button B0 (Speed): select the Speed view.
pub closed spec fn press_b0(s: DiagnosticState) -> DiagnosticState {
    DiagnosticState { view: DiagnosticView::Speed, ..s }
}

/// Button B1 (Inputs): page the Inputs view when it is selected, otherwise
/// select it at its first page.
pub closed spec fn press_b1(s: DiagnosticState) -> DiagnosticState {
    if s.view == DiagnosticView::Inputs {
        DiagnosticState { inputs_page: page_toggled(s.inputs_page), ..s }
    } else {
        DiagnosticState { view: DiagnosticView::Inputs, inputs_page: Page::First, ..s }
    }
}

/// Button B2 (Relay): page the Relay view when it is selected, otherwise
/// select it at its first page.
pub closed spec fn press_b2(s: DiagnosticState) -> DiagnosticState {
    if s.view == DiagnosticView::Relay {
        DiagnosticState { relay_page: page_toggled(s.relay_page), ..s }
    } else {
        DiagnosticState { view: DiagnosticView::Relay, relay_page: Page::First, ..s }
    }
}

/// The state after one tick's button press edges, applied in ascending button
/// order; B3 is reserved and changes nothing.
pub closed spec fn apply_edges(s: DiagnosticState, edges: Seq<bool>) -> DiagnosticState {
    let s0 = if edges[0] {
        press_b0(s)
    } else {
        s
    };
    let s1 = if edges[1] {
        press_b1(s0)
    } else {
        s0
    };
    if edges[2] {
        press_b2(s1)
    } else {
        s1
    }
}

/// One tick of navigation over the plain values of a diagnostic state (view,
/// Inputs page, Relay page): B0 selects Speed; then B1 pages Inputs when it
/// is selected, otherwise selects it at its first page; then B2 does the same
/// for Relay. B3 is ignored.
pub open spec fn nav_step(v: DiagnosticView, ip: Page, rp: Page, edges: Seq<bool>) -> (
    DiagnosticView,
    Page,
    Page,
) {
    let v1 = if edges[0] {
        DiagnosticView::Speed
    } else {
        v
    };
    let (v2, ip2) = if edges[1] {
        if v1 == DiagnosticView::Inputs {
            (DiagnosticView::Inputs, page_toggled(ip))
        } else {
            (DiagnosticView::Inputs, Page::First)
        }
    } else {
        (v1, ip)
    };
    let (v3, rp2) = if edges[2] {
        if v2 == DiagnosticView::Relay {
            (DiagnosticView::Relay, page_toggled(rp))
        } else {
            (DiagnosticView::Relay, Page::First)
        }
    } else {
        (v2, rp)
    };
    (v3, ip2, rp2)
}

/// The state after a tick's edges, read through its view and pages, is the
/// navigation step on the old view and pages.
pub proof fn lemma_apply_edges_fields(s: DiagnosticState, edges: Seq<bool>)
    ensures
        (apply_edges(s, edges).spec_view(), apply_edges(s, edges).spec_inputs_page(), apply_edges(
            s,
            edges,
        ).spec_relay_page()) == nav_step(
            s.spec_view(),
            s.spec_inputs_page(),
            s.spec_relay_page(),
            edges,
        ),
{
}

/// Two diagnostic states with the same view and pages are equal.
pub proof fn lemma_state_equal_by_fields(a: DiagnosticState, b: DiagnosticState)
    requires
        a.spec_view() == b.spec_view(),
        a.spec_inputs_page() == b.spec_inputs_page(),
        a.spec_relay_page() == b.spec_relay_page(),
    ensures
        a == b,
{
}

/// The reserved button B3 has no effect: the state after a tick's edges does
/// not depend on B3's edge, and a tick with only a B3 edge changes nothing.
pub proof fn lemma_b3_is_reserved(s: DiagnosticState, edges: Seq<bool>, b3: bool)
    requires
        edges.len() == BUTTON_COUNT,
    ensures
        apply_edges(s, edges.update(3, b3)) == apply_edges(s, edges),
        apply_edges(s, seq![false, false, false, true]) == s,
{
}

/// Paging: pressing B1 twice on the Inputs view (or B2 twice on the Relay
/// view) returns to the same page, and selecting a paged view from another
/// view always shows its first page.
pub proof fn lemma_paging(s: DiagnosticState)
    ensures
        s.spec_view() == DiagnosticView::Inputs ==> press_b1(press_b1(s)) == s,
        s.spec_view() == DiagnosticView::Relay ==> press_b2(press_b2(s)) == s,
        s.spec_view() != DiagnosticView::Inputs ==> press_b1(s).spec_view() == DiagnosticView::Inputs
            && press_b1(s).spec_inputs_page() == Page::First,
        s.spec_view() != DiagnosticView::Relay ==> press_b2(s).spec_view() == DiagnosticView::Relay
            && press_b2(s).spec_relay_page() == Page::First,
        press_b1(s).spec_relay_page() == s.spec_relay_page(),
        press_b2(s).spec_inputs_page() == s.spec_inputs_page(),
{
}

impl DiagnosticState {
    /// The selected view.
    pub closed spec fn spec_view(&self) -> DiagnosticView {
        self.view
    }

    /// The page of the Inputs view.
    pub closed spec fn spec_inputs_page(&self) -> Page {
        self.inputs_page
    }

    /// The page of the Relay view.
    pub closed spec fn spec_relay_page(&self) -> Page {
        self.relay_page
    }

    /// Construct with the Speed view selected and both pages at First.
    pub fn new() -> (s: Self)
        ensures
            s.spec_view() == DiagnosticView::Speed,
            s.spec_inputs_page() == Page::First,
            s.spec_relay_page() == Page::First,
    {
        DiagnosticState {
            view: DiagnosticView::Speed,
            inputs_page: Page::First,
            relay_page: Page::First,
        }
    }

    /// Currently selected view.
    pub fn view(&self) -> (v: DiagnosticView)
        ensures
            v == self.spec_view(),
    {
        self.view
    }

    /// Current page of the Inputs view.
    pub fn inputs_page(&self) -> (p: Page)
        ensures
            p == self.spec_inputs_page(),
    {
        self.inputs_page
    }

    /// Current page of the Relay view.
    pub fn relay_page(&self) -> (p: Page)
        ensures
            p == self.spec_relay_page(),
    {
        self.relay_page
    }

    /// Apply this tick's debounced button press edges: B0 selects Speed, B1
    /// selects or pages Inputs, B2 selects or pages Relay, B3 is reserved.
    /// Edges are applied in ascending button order.
    pub fn apply_button_edges(&mut self, edges: [bool; BUTTON_COUNT])
        ensures
            *final(self) == apply_edges(*old(self), edges@),
            (final(self).spec_view(), final(self).spec_inputs_page(), final(self).spec_relay_page())
                == nav_step(
                old(self).spec_view(),
                old(self).spec_inputs_page(),
                old(self).spec_relay_page(),
                edges@,
            ),
    {
        if edges[0] {
            self.view = DiagnosticView::Speed;
        }
        if edges[1] {
            if self.view == DiagnosticView::Inputs {
                self.inputs_page = self.inputs_page.toggled();
            } else {
                self.view = DiagnosticView::Inputs;
                self.inputs_page = Page::First;
            }
        }
        if edges[2] {
            if self.view == DiagnosticView::Relay {
                self.relay_page = self.relay_page.toggled();
            } else {
                self.view = DiagnosticView::Relay;
                self.relay_page = Page::First;
            }
        }
    }
}

impl Default for DiagnosticState {
    fn default() -> (s: Self)
        ensures
            s.spec_view() == DiagnosticView::Speed,
            s.spec_inputs_page() == Page::First,
            s.spec_relay_page() == Page::First,
    {
        Self::new()
    }
}

/// Number of relays among the first `n` whose stored speed is `v`.
pub open spec fn count_speed(states: Seq<RelayState>, v: u16, n: int) -> nat
    decreases n,
{
    if n <= 0 {
        0
    } else {
        count_speed(states, v, n - 1) + if states[n - 1].speed_ms == v {
            1nat
        } else {
            0nat
        }
    }
}

/// How many relays store speed `v`.
pub open spec fn speed_count(states: Seq<RelayState>, v: u16) -> nat {
    count_speed(states, v, states.len() as int)
}

/// `m` is the modal stored speed: a level of the speed table that no other
/// level outnumbers, and the largest such level on a tie.
pub open spec fn is_modal_speed(states: Seq<RelayState>, m: u16) -> bool {
    &&& exists|k: int| 0 <= k < SPEED_LEVEL_COUNT && m == #[trigger] speed_level(k)
    &&& forall|k: int|
        0 <= k < SPEED_LEVEL_COUNT ==> {
            let c = speed_count(states, #[trigger] speed_level(k));
            let cm = speed_count(states, m);
            c < cm || (c == cm && speed_level(k) <= m)
        }
}

/// The modal stored speed (see [`is_modal_speed`]; it exists and is unique).
pub open spec fn modal_speed(states: Seq<RelayState>) -> u16 {
    choose|m: u16| is_modal_speed(states, m)
}

/// Among the first `k` levels of the table, one that no other of them
/// outnumbers, the largest on a tie.
proof fn lemma_best_prefix(states: Seq<RelayState>, k: int) -> (m: u16)
    requires
        1 <= k <= SPEED_LEVEL_COUNT,
    ensures
        exists|j: int| 0 <= j < k && m == #[trigger] speed_level(j),
        forall|j: int|
            0 <= j < k ==> {
                let c = speed_count(states, #[trigger] speed_level(j));
                let cm = speed_count(states, m);
                c < cm || (c == cm && speed_level(j) <= m)
            },
    decreases k,
{
    if k == 1 {
        let m = speed_level(0);
        assert(m == speed_level(0));
        m
    } else {
        let b = lemma_best_prefix(states, k - 1);
        let l = speed_level(k - 1);
        let cl = speed_count(states, l);
        let cb = speed_count(states, b);
        if cl > cb || (cl == cb && l > b) {
            assert forall|j: int| 0 <= j < k implies {
                let c = speed_count(states, #[trigger] speed_level(j));
                c < cl || (c == cl && speed_level(j) <= l)
            } by {
                if j < k - 1 {
                    let c = speed_count(states, speed_level(j));
                    assert(c < cb || (c == cb && speed_level(j) <= b));
                }
            }
            l
        } else {
            b
        }
    }
}

/// The modal speed exists.
pub proof fn lemma_modal_exists(states: Seq<RelayState>)
    ensures
        is_modal_speed(states, modal_speed(states)),
{
    let m = lemma_best_prefix(states, SPEED_LEVEL_COUNT as int);
    assert(is_modal_speed(states, m));
}

/// The modal speed is unique: two speeds that both satisfy the definition
/// are equal.
pub proof fn lemma_modal_unique(states: Seq<RelayState>, a: u16, b: u16)
    requires
        is_modal_speed(states, a),
        is_modal_speed(states, b),
    ensures
        a == b,
{
    let ka = choose|k: int| 0 <= k < SPEED_LEVEL_COUNT && a == #[trigger] speed_level(k);
    let kb = choose|k: int| 0 <= k < SPEED_LEVEL_COUNT && b == #[trigger] speed_level(k);
    assert(a == speed_level(ka));
    assert(b == speed_level(kb));
}

/// Count the relays of `bank` storing speed `level`.
fn count_relays_with_speed(bank: &RelayBank, level: u16) -> (n: usize)
    requires
        bank.wf(),
    ensures
        n == speed_count(bank.states(), level),
{
    let mut n: usize = 0;
    let mut i: usize = 0;
    while i < RELAY_COUNT
        invariant
            bank.wf(),
            0 <= i <= RELAY_COUNT,
            n == count_speed(bank.states(), level, i as int),
            n <= i,
        decreases RELAY_COUNT - i,
    {
        if bank.relay(i).speed_ms == level {
            n = n + 1;
        }
        i = i + 1;
    }
    n
}

/// Compute the modal (most frequent) stored per-relay speed, in ms, among the
/// levels of the speed table. Ties choose the largest value.
pub fn modal_speed_ms(bank: &RelayBank) -> (m: u16)
    requires
        bank.wf(),
    ensures
        is_modal_speed(bank.states(), m),
        m == modal_speed(bank.states()),
{
    let mut best_level = speed_level_ms(0);
    let mut best_count: usize = 0;
    let mut k: usize = 0;
    while k < SPEED_LEVEL_COUNT
        invariant
            bank.wf(),
            0 <= k <= SPEED_LEVEL_COUNT,
            k == 0 ==> best_level == speed_level(0) && best_count == 0,
            k > 0 ==> best_count == speed_count(bank.states(), best_level),
            exists|j: int| 0 <= j < SPEED_LEVEL_COUNT && best_level == #[trigger] speed_level(j),
            forall|j: int|
                0 <= j < k ==> {
                    let c = speed_count(bank.states(), #[trigger] speed_level(j));
                    c < best_count || (c == best_count && speed_level(j) <= best_level)
                },
        decreases SPEED_LEVEL_COUNT - k,
    {
        let level = speed_level_ms(k);
        let count = count_relays_with_speed(bank, level);
        if count > best_count || (count == best_count && level > best_level) {
            best_level = level;
            best_count = count;
        }
        if k == 0 {
            assert(best_count == speed_count(bank.states(), best_level));
        }
        k = k + 1;
    }
    proof {
        lemma_modal_exists(bank.states());
        lemma_modal_unique(bank.states(), best_level, modal_speed(bank.states()));
    }
    best_level
}

/// The four decimal digits (thousands to ones) of `value`, left to right.
pub open spec fn spec_digits(value: u16) -> Seq<u8> {
    seq![
        (value / 1000) as u8,
        ((value % 1000) / 100) as u8,
        ((value % 100) / 10) as u8,
        (value % 10) as u8,
    ]
}

/// The four digits of a value up to 9999 spell it exactly.
pub proof fn lemma_digits_spell_value(value: u16)
    requires
        value <= 9999,
    ensures
        spec_digits(value)[0] as int * 1000 + spec_digits(value)[1] as int * 100
            + spec_digits(value)[2] as int * 10 + spec_digits(value)[3] as int == value as int,
        forall|i: int| 0 <= i < DIGIT_COUNT ==> #[trigger] spec_digits(value)[i] <= 9,
{
}

/// The diagnostic digit of a relay mode: 0 = Off, 1 = Blink, 2 = On.
pub open spec fn mode_digit(mode: RelayMode) -> u8 {
    match mode {
        RelayMode::Off => 0,
        RelayMode::Blink => 1,
        RelayMode::On => 2,
    }
}

/// The first channel shown on a page.
pub open spec fn spec_page_offset(page: Page) -> int {
    match page {
        Page::First => 0,
        Page::Second => 4,
    }
}

/// Channel offset (into an eight-channel array) for the given page.
fn page_offset(page: Page) -> (o: usize)
    ensures
        o == spec_page_offset(page),
{
    match page {
        Page::First => 0,
        Page::Second => 4,
    }
}

/// Split a value into four decimal digits (thousands..ones), left to right.
fn digits_from_number(value: u16) -> (d: [u8; DIGIT_COUNT])
    ensures
        d@ == spec_digits(value),
{
    let ghost v0 = value;
    let mut value = value;
    let d0 = (value / 1000) as u8;
    value = value % 1000;
    let d1 = (value / 100) as u8;
    value = value % 100;
    let d2 = (value / 10) as u8;
    let d3 = (value % 10) as u8;
    let d = [d0, d1, d2, d3];
    assert(d@ =~= spec_digits(v0));
    d
}

/// Map a relay mode to its diagnostic digit: 0 = Off, 1 = Blink, 2 = On.
fn relay_mode_digit(mode: RelayMode) -> (d: u8)
    ensures
        d == mode_digit(mode),
{
    match mode {
        RelayMode::Off => 0,
        RelayMode::Blink => 1,
        RelayMode::On => 2,
    }
}

/// The digits showing the selected diagnostic view.
pub open spec fn spec_render(
    state: DiagnosticState,
    states: Seq<RelayState>,
    stable_inputs: Seq<bool>,
    modal: u16,
) -> Seq<u8> {
    match state.spec_view() {
        DiagnosticView::Speed => spec_digits(modal),
        DiagnosticView::Inputs => Seq::new(
            4,
            |i: int|
                if stable_inputs[spec_page_offset(state.spec_inputs_page()) + i] {
                    1u8
                } else {
                    0u8
                },
        ),
        DiagnosticView::Relay => Seq::new(
            4,
            |i: int| mode_digit(states[spec_page_offset(state.spec_relay_page()) + i].mode),
        ),
    }
}

/// Render the selected diagnostic view into four display digits: the modal
/// speed as a decimal number, four debounced input levels as 0/1, or four
/// relay modes as 0/1/2, for the view's current page.
pub fn render(state: &DiagnosticState, bank: &RelayBank, stable_inputs: [bool; INPUT_COUNT]) -> (d: [u8; DIGIT_COUNT])
    requires
        bank.wf(),
    ensures
        d@ == spec_render(*state, bank.states(), stable_inputs@, modal_speed(bank.states())),
{
    match state.view {
        DiagnosticView::Speed => {
            let m = modal_speed_ms(bank);
            let d = digits_from_number(m);
            assert(d@ == spec_render(*state, bank.states(), stable_inputs@, m));
            d
        },
        DiagnosticView::Inputs => {
            let offset = page_offset(state.inputs_page);
            let mut digits = [0u8;DIGIT_COUNT];
            let mut i: usize = 0;
            while i < DIGIT_COUNT
                invariant
                    0 <= i <= DIGIT_COUNT,
                    offset == spec_page_offset(state.inputs_page),
                    forall|j: int|
                        0 <= j < i ==> #[trigger] digits@[j] == (if stable_inputs@[offset + j] {
                            1u8
                        } else {
                            0u8
                        }),
                decreases DIGIT_COUNT - i,
            {
                digits[i] = if stable_inputs[offset + i] {
                    1
                } else {
                    0
                };
                i = i + 1;
            }
            assert(digits@ =~= spec_render(
                *state,
                bank.states(),
                stable_inputs@,
                modal_speed(bank.states()),
            ));
            digits
        },
        DiagnosticView::Relay => {
            let offset = page_offset(state.relay_page);
            let mut digits = [0u8;DIGIT_COUNT];
            let mut i: usize = 0;
            while i < DIGIT_COUNT
                invariant
                    bank.wf(),
                    0 <= i <= DIGIT_COUNT,
                    offset == spec_page_offset(state.relay_page),
                    forall|j: int|
                        0 <= j < i ==> #[trigger] digits@[j] == mode_digit(
                            bank.states()[offset + j].mode,
                        ),
                decreases DIGIT_COUNT - i,
            {
                digits[i] = relay_mode_digit(bank.relay(offset + i).mode);
                i = i + 1;
            }
            assert(digits@ =~= spec_render(
                *state,
                bank.states(),
                stable_inputs@,
                modal_speed(bank.states()),
            ));
            digits
        },
    }
}

/// The built-in buttons: debounces the four lines and reports the press
/// edges of their accepted levels.
pub struct ButtonInputs {
    debouncer: Debouncer<BUTTON_COUNT>,
}

impl ButtonInputs {
    /// The debounced button lines.
    pub closed spec fn lines(&self) -> Seq<LineState> {
        self.debouncer.lines()
    }

    /// The internal consistency of the debouncer.
    pub closed spec fn wf(&self) -> bool {
        self.debouncer.wf()
    }

    /// Construct with all buttons released.
    pub fn new() -> (b: Self)
        ensures
            b.wf(),
            b.lines().len() == BUTTON_COUNT,
            forall|i: int|
                0 <= i < BUTTON_COUNT ==> #[trigger] b.lines()[i] == (LineState {
                    stable: false,
                    candidate: false,
                    count: 0,
                }),
    {
        ButtonInputs { debouncer: Debouncer::new() }
    }

    /// Feed one 1 ms raw snapshot of the buttons; report, per button, whether
    /// its accepted level rose on this tick (a press edge).
    pub fn tick_1ms(&mut self, raw: [bool; BUTTON_COUNT]) -> (edges: [bool; BUTTON_COUNT])
        requires
            old(self).wf(),
        ensures
            final(self).wf(),
            final(self).lines().len() == BUTTON_COUNT,
            forall|i: int|
                0 <= i < BUTTON_COUNT ==> #[trigger] final(self).lines()[i] == line_sample(
                    old(self).lines()[i],
                    raw@[i],
                ),
            forall|i: int|
                0 <= i < BUTTON_COUNT ==> #[trigger] edges@[i] == (final(self).lines()[i].stable
                    && !old(self).lines()[i].stable),
    {
        let prev = self.debouncer.stable();
        let stable = self.debouncer.sample(raw);
        let mut edges = [false;BUTTON_COUNT];
        let mut i: usize = 0;
        while i < BUTTON_COUNT
            invariant
                0 <= i <= BUTTON_COUNT,
                forall|j: int| 0 <= j < i ==> #[trigger] edges@[j] == (stable@[j] && !prev@[j]),
            decreases BUTTON_COUNT - i,
        {
            edges[i] = stable[i] && !prev[i];
            i = i + 1;
        }
        edges
    }
}

} // verus!
