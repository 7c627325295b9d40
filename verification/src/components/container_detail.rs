//! The detail page of one container: its state, uptime, load and ports, and its logs.
use vstd::arithmetic::div_mod::{
    lemma_div_is_ordered_by_denominator, lemma_fundamental_div_mod, lemma_mod_multiples_basic,
};
use vstd::prelude::*;

use crate::components::container_row::{
    row_chip_label, row_chip_variant, transition_of, transition_text, ContainerRowView, RowPending,
};
use crate::components::status_chip::{self, chip_colour, chip_text};
use crate::docker::types::{
    copy_ports, inspect_detail, Container, ContainerDetail, ContainerInspectResponse,
    ContainerState, ContainerView, DetailView, Port, Stats,
};
use crate::text::{
    decimal, decimal_of, join, joined, joined_lists_join_up, text_view, texts,
};

verus! {

// ---------------------------------------------------------------------------
// The page's state.
// ---------------------------------------------------------------------------
/// The state of the page.
#[derive(Debug)]
pub struct ContainerDetailPage {
    /// What the list knew, kept up to date by each inspection.
    pub container: Container,
    /// What the latest inspection showed; `None` before the first.
    pub detail: Option<ContainerDetail>,
    /// When the container started, in Unix seconds; `None` where it is not running or
    /// the start is not known.
    pub started_unix: Option<i64>,
    /// The latest sample.
    pub latest: Option<Stats>,
    /// Whether samples are streaming, so that there is never a second stream.
    pub stats_active: bool,
    /// What the start/stop button set going, as long as the chip is to say so.
    pub pending: Option<RowPending>,
    /// Whether that went well, so that only its new state is still to be seen.
    pub settled: bool,
}

/// What a `ContainerDetailPage` holds.
#[verifier::ext_equal]
pub struct DetailPageView {
    pub container: ContainerView,
    pub detail: Option<DetailView>,
    pub started_unix: Option<i64>,
    pub latest: Option<Stats>,
    pub stats_active: bool,
    pub pending: Option<RowPending>,
    pub settled: bool,
}

/// What an optional detail holds.
pub open spec fn detail_view(detail: Option<ContainerDetail>) -> Option<DetailView> {
    match detail {
        Some(detail) => Some(detail@),
        None => None,
    }
}

impl View for ContainerDetailPage {
    type V = DetailPageView;

    open spec fn view(&self) -> DetailPageView {
        DetailPageView {
            container: self.container@,
            detail: detail_view(self.detail),
            started_unix: self.started_unix,
            latest: self.latest,
            stats_active: self.stats_active,
            pending: self.pending,
            settled: self.settled,
        }
    }
}

/// What the user or the app does to the page.
#[derive(Debug, Clone, Copy, PartialEq, Eq, Structural)]
pub enum DetailInput {
    /// A second passed: the uptime shows anew.
    Tick,
    /// It is time to inspect the container again.
    Refresh,
    /// The start/stop button was clicked.
    ToggleClicked,
    /// An action on this container ended, well or not.
    ActionFinished(bool),
}

/// What the page asks for. Like a row, it never acts itself.
#[derive(Debug, PartialEq, Eq)]
pub enum DetailOutput {
    Start(String),
    Stop(String),
}

/// What a `DetailOutput` holds.
#[verifier::ext_equal]
pub enum DetailOutputView {
    Start(Seq<char>),
    Stop(Seq<char>),
}

impl View for DetailOutput {
    type V = DetailOutputView;

    open spec fn view(&self) -> DetailOutputView {
        match self {
            DetailOutput::Start(id) => DetailOutputView::Start(id@),
            DetailOutput::Stop(id) => DetailOutputView::Stop(id@),
        }
    }
}

/// What comes from the daemon.
#[derive(Debug)]
pub enum DetailCmd {
    /// An inspection ended. `started_unix` is the detail's start time in Unix seconds,
    /// if it has one that can be read.
    Inspected { result: Result<ContainerDetail, String>, started_unix: Option<i64> },
    /// One sample.
    StatsSample(Stats),
    /// The samples ended: the container stopped, or the stream failed.
    StatsEnded,
}

/// What an item of the stream of samples means to the page. One that failed is passed
/// over: that the stream ends is what matters.
pub fn sample_message(item: Result<Stats, String>) -> (r: Option<DetailCmd>)
    ensures
        r == match item {
            Ok(stats) => Some(DetailCmd::StatsSample(stats)),
            Err(_) => None,
        },
{
    match item {
        Ok(stats) => Some(DetailCmd::StatsSample(stats)),
        Err(_) => None,
    }
}

/// What to do.
#[derive(Debug, PartialEq, Eq)]
pub enum DetailEffect {
    /// Hand this up to the app.
    Output(DetailOutput),
    /// Send the page `DetailInput::Refresh`.
    PostRefresh,
    /// Inspect the container with this id.
    Inspect(String),
    /// Open a stream of samples of the container with this id.
    StartStats(String),
    /// Tell the logs that there should be a stream.
    EnsureLogs,
    /// Hand the sample to the graphs.
    Graph(Stats),
}

/// What a `DetailEffect` holds.
#[verifier::ext_equal]
pub enum DetailEffectView {
    Output(DetailOutputView),
    PostRefresh,
    Inspect(Seq<char>),
    StartStats(Seq<char>),
    EnsureLogs,
    Graph(Stats),
}

impl View for DetailEffect {
    type V = DetailEffectView;

    open spec fn view(&self) -> DetailEffectView {
        match self {
            DetailEffect::Output(output) => DetailEffectView::Output(output@),
            DetailEffect::PostRefresh => DetailEffectView::PostRefresh,
            DetailEffect::Inspect(id) => DetailEffectView::Inspect(id@),
            DetailEffect::StartStats(id) => DetailEffectView::StartStats(id@),
            DetailEffect::EnsureLogs => DetailEffectView::EnsureLogs,
            DetailEffect::Graph(stats) => DetailEffectView::Graph(*stats),
        }
    }
}

/// What a sequence of effects holds.
pub open spec fn detail_effects_view(effects: Seq<DetailEffect>) -> Seq<DetailEffectView> {
    Seq::new(effects.len(), |i: int| effects[i]@)
}

/// The page with samples streaming where the container runs: a stream is opened only if
/// there is none.
pub open spec fn stats_started(page: DetailPageView) -> (DetailPageView, Seq<DetailEffectView>) {
    if page.stats_active || !page.container.state.running() {
        (page, Seq::empty())
    } else {
        (
            DetailPageView { stats_active: true, ..page },
            seq![DetailEffectView::StartStats(page.container.id)],
        )
    }
}

/// How the page begins.
pub open spec fn detail_opened(container: ContainerView) -> (
    DetailPageView,
    Seq<DetailEffectView>,
) {
    let (page, effects) = stats_started(
        DetailPageView {
            container,
            detail: None,
            started_unix: None,
            latest: None,
            stats_active: false,
            pending: None,
            settled: false,
        },
    );
    (page, seq![DetailEffectView::PostRefresh] + effects)
}

/// What a click on the start/stop button sets going.
pub open spec fn toggle_pending(state: ContainerState) -> RowPending {
    if state.running() {
        RowPending::Stopping
    } else {
        RowPending::Starting
    }
}

/// The page after an action on its container ended. Where it failed, no new state will
/// come, so the chip goes back at once; where it went well, once the new state is seen.
pub open spec fn action_finished(page: DetailPageView, ok: bool) -> DetailPageView {
    if ok {
        DetailPageView { settled: page.pending is Some, ..page }
    } else {
        DetailPageView { pending: None, settled: false, ..page }
    }
}

/// Whether a state is the one that an action leads to, as far as running goes.
pub open spec fn state_landed(pending: RowPending, state: ContainerState) -> bool {
    match pending {
        RowPending::Starting => state.running(),
        RowPending::Restarting => state.running(),
        RowPending::Stopping => !state.running(),
        RowPending::Removing => !state.running(),
    }
}

/// Whether a look at `state` is what the page still waited for.
pub open spec fn feedback_over(page: DetailPageView, state: ContainerState) -> bool {
    page.settled && (page.pending matches Some(pending) ==> state_landed(pending, state))
}

/// How the page answers what the user or the app does.
pub open spec fn detail_updated(page: DetailPageView, msg: DetailInput) -> (
    DetailPageView,
    Seq<DetailEffectView>,
) {
    match msg {
        DetailInput::Tick => (page, Seq::empty()),
        DetailInput::ActionFinished(ok) => (action_finished(page, ok), Seq::empty()),
        DetailInput::ToggleClicked => (
            DetailPageView {
                pending: Some(toggle_pending(page.container.state)),
                settled: false,
                ..page
            },
            seq![
                DetailEffectView::Output(
                    if page.container.state.running() {
                        DetailOutputView::Stop(page.container.id)
                    } else {
                        DetailOutputView::Start(page.container.id)
                    },
                ),
            ],
        ),
        DetailInput::Refresh => (page, seq![DetailEffectView::Inspect(page.container.id)]),
    }
}

/// The page after an inspection.
pub open spec fn detail_inspected(
    page: DetailPageView,
    detail: DetailView,
    started_unix: Option<i64>,
) -> DetailPageView {
    DetailPageView {
        container: ContainerView { state: detail.state, ports: detail.ports, ..page.container },
        started_unix: match detail.started_at {
            Some(_) => started_unix,
            None => None,
        },
        detail: Some(detail),
        pending: if feedback_over(page, detail.state) {
            None
        } else {
            page.pending
        },
        settled: page.settled && !feedback_over(page, detail.state),
        ..page
    }
}

/// How the page answers what comes from the daemon.
pub open spec fn detail_received(page: DetailPageView, msg: DetailCmd) -> (
    DetailPageView,
    Seq<DetailEffectView>,
) {
    match msg {
        DetailCmd::Inspected { result, started_unix } => match result {
            Ok(detail) => {
                let (next, effects) = stats_started(detail_inspected(page, detail@, started_unix));
                (
                    next,
                    if detail.state.running() {
                        effects.push(DetailEffectView::EnsureLogs)
                    } else {
                        effects
                    },
                )
            },
            Err(_) => (page, Seq::empty()),
        },
        DetailCmd::StatsSample(stats) => (
            DetailPageView { latest: Some(stats), ..page },
            seq![DetailEffectView::Graph(stats)],
        ),
        DetailCmd::StatsEnded => (DetailPageView { stats_active: false, ..page }, Seq::empty()),
    }
}

/// Adds one effect behind those that are there.
fn push_effect(effects: &mut Vec<DetailEffect>, effect: DetailEffect)
    ensures
        detail_effects_view(final(effects)@) == detail_effects_view(old(effects)@).push(effect@),
{
    let ghost before = detail_effects_view(effects@);
    let ghost added = effect@;
    effects.push(effect);
    proof {
        assert(detail_effects_view(effects@) =~= before.push(added));
    }
}

impl ContainerDetailPage {
    /// The page for `container`, and how it begins: with an inspection, and with samples
    /// if the container runs.
    pub fn new(container: Container) -> (r: (ContainerDetailPage, Vec<DetailEffect>))
        ensures
            (r.0@, detail_effects_view(r.1@)) == detail_opened(container@),
    {
        let mut page = ContainerDetailPage {
            container,
            detail: None,
            started_unix: None,
            latest: None,
            stats_active: false,
            pending: None,
            settled: false,
        };
        let mut effects: Vec<DetailEffect> = Vec::new();
        push_effect(&mut effects, DetailEffect::PostRefresh);
        proof {
            assert(detail_effects_view(effects@) =~= seq![DetailEffectView::PostRefresh]);
        }
        page.start_stats(&mut effects);
        (page, effects)
    }

    /// Opens a stream of samples if the container runs and none is open. The stream ends
    /// by itself when the container stops.
    fn start_stats(&mut self, effects: &mut Vec<DetailEffect>)
        ensures
            final(self)@ == stats_started(old(self)@).0,
            detail_effects_view(final(effects)@) == detail_effects_view(old(effects)@)
                + stats_started(old(self)@).1,
    {
        let ghost before = detail_effects_view(effects@);
        if self.stats_active || !self.container.state.is_running() {
            proof {
                assert(before + Seq::<DetailEffectView>::empty() =~= before);
            }
            return;
        }
        self.stats_active = true;
        push_effect(effects, DetailEffect::StartStats(self.container.id.clone()));
        proof {
            assert(detail_effects_view(effects@) =~= before + seq![
                DetailEffectView::StartStats(self.container.id@),
            ]);
        }
    }

    /// Whether a look at `state` is what the page still waited for.
    fn waited_for(&self, state: ContainerState) -> (r: bool)
        ensures
            r == feedback_over(self@, state),
    {
        self.settled && match self.pending {
            Some(RowPending::Starting) | Some(RowPending::Restarting) => state.is_running(),
            Some(RowPending::Stopping) | Some(RowPending::Removing) => !state.is_running(),
            None => true,
        }
    }

    /// Answers what the user or the app does.
    pub fn update(&mut self, msg: DetailInput) -> (r: Vec<DetailEffect>)
        ensures
            (final(self)@, detail_effects_view(r@)) == detail_updated(old(self)@, msg),
    {
        let mut effects: Vec<DetailEffect> = Vec::new();
        proof {
            assert(detail_effects_view(effects@) =~= Seq::empty());
        }
        match msg {
            // The uptime shows anew whenever anything happens.
            DetailInput::Tick => {},
            DetailInput::ActionFinished(ok) => {
                if ok {
                    self.settled = self.pending.is_some();
                } else {
                    self.pending = None;
                    self.settled = false;
                }
            },
            DetailInput::ToggleClicked => {
                let id = self.container.id.clone();
                let output = if self.container.state.is_running() {
                    self.pending = Some(RowPending::Stopping);
                    DetailOutput::Stop(id)
                } else {
                    self.pending = Some(RowPending::Starting);
                    DetailOutput::Start(id)
                };
                self.settled = false;
                push_effect(&mut effects, DetailEffect::Output(output));
            },
            DetailInput::Refresh => {
                push_effect(&mut effects, DetailEffect::Inspect(self.container.id.clone()));
            },
        }
        proof {
            assert(detail_effects_view(effects@) =~= detail_updated(old(self)@, msg).1);
        }
        effects
    }

    /// Answers what comes from the daemon.
    pub fn update_cmd(&mut self, msg: DetailCmd) -> (r: Vec<DetailEffect>)
        ensures
            (final(self)@, detail_effects_view(r@)) == detail_received(old(self)@, msg),
    {
        let mut effects: Vec<DetailEffect> = Vec::new();
        proof {
            assert(detail_effects_view(effects@) =~= Seq::empty());
        }
        match msg {
            DetailCmd::Inspected { result: Ok(detail), started_unix } => {
                let ghost inspected = detail_inspected(self@, detail@, started_unix);
                if self.waited_for(detail.state) {
                    self.pending = None;
                    self.settled = false;
                }
                self.container.state = detail.state;
                self.container.ports = copy_ports(&detail.ports);
                self.started_unix = if detail.started_at.is_some() {
                    started_unix
                } else {
                    None
                };
                self.detail = Some(detail);
                proof {
                    assert(self@ =~= inspected);
                }
                // If it has just come up, its samples and logs come back.
                self.start_stats(&mut effects);
                proof {
                    assert(Seq::<DetailEffectView>::empty() + stats_started(inspected).1
                        =~= stats_started(inspected).1);
                }
                if self.container.state.is_running() {
                    push_effect(&mut effects, DetailEffect::EnsureLogs);
                }
            },
            // What the list knew still shows.
            DetailCmd::Inspected { result: Err(_), started_unix: _ } => {},
            DetailCmd::StatsSample(stats) => {
                self.latest = Some(stats);
                push_effect(&mut effects, DetailEffect::Graph(stats));
                proof {
                    assert(detail_effects_view(effects@) =~= seq![DetailEffectView::Graph(stats)]);
                }
            },
            DetailCmd::StatsEnded => {
                self.stats_active = false;
            },
        }
        effects
    }
}

/// Whether an effect opens a stream of samples.
pub open spec fn starts_stats(effect: DetailEffectView) -> bool {
    effect is StartStats
}

/// There is never a second stream of samples, and none for a container that does not
/// run: one is opened only where none is open and the container runs, and then one is
/// open.
pub proof fn detail_opens_one_stream(page: DetailPageView, input: DetailInput, cmd: DetailCmd)
    ensures
        detail_updated(page, input).1.all(|effect: DetailEffectView| !starts_stats(effect)),
        !detail_received(page, cmd).1.all(|effect: DetailEffectView| !starts_stats(effect)) ==> {
            &&& !page.stats_active
            &&& detail_received(page, cmd).0.stats_active
            &&& detail_received(page, cmd).0.container.state.running()
        },
{
}

/// Once an inspection shows that the container runs, its samples stream and its logs are
/// asked to.
pub proof fn running_container_streams(
    page: DetailPageView,
    detail: ContainerDetail,
    started_unix: Option<i64>,
)
    requires
        detail.state.running(),
    ensures
        ({
            let (next, effects) = detail_received(
                page,
                DetailCmd::Inspected { result: Ok(detail), started_unix },
            );
            &&& next.stats_active
            &&& effects.len() > 0
            &&& effects.last() == DetailEffectView::EnsureLogs
        }),
{
}

/// The page's chip speaks only of what its button can set going, and it waits for a new
/// state only after that went well.
pub open spec fn feedback_sound(page: DetailPageView) -> bool {
    &&& page.pending matches Some(pending) ==> pending is Starting || pending is Stopping
    &&& page.settled ==> page.pending is Some
}

/// That holds from the start, and whatever happens.
pub proof fn feedback_stays_sound(
    container: ContainerView,
    page: DetailPageView,
    input: DetailInput,
    cmd: DetailCmd,
)
    requires
        feedback_sound(page),
    ensures
        feedback_sound(detail_opened(container).0),
        feedback_sound(detail_updated(page, input).0),
        feedback_sound(detail_received(page, cmd).0),
{
}

/// A click shows at once what it set going, and a failure takes that back at once.
pub proof fn failed_action_takes_its_feedback_back(page: DetailPageView)
    ensures
        ({
            let clicked = detail_updated(page, DetailInput::ToggleClicked).0;
            let failed = detail_updated(clicked, DetailInput::ActionFinished(false)).0;
            &&& clicked.pending == Some(toggle_pending(page.container.state))
            &&& clicked.container == page.container
            &&& failed == (DetailPageView { pending: None, settled: false, ..page })
        }),
{
}

/// After a click whose action went well, the chip keeps saying what is under way until
/// an inspection shows that the container runs where it did not, or the reverse. An
/// inspection before the action has ended changes nothing in that.
pub proof fn feedback_lasts_until_the_new_state_lands(
    page: DetailPageView,
    detail: ContainerDetail,
    started_unix: Option<i64>,
)
    ensures
        ({
            let inspected = DetailCmd::Inspected { result: Ok(detail), started_unix };
            let clicked = detail_updated(page, DetailInput::ToggleClicked).0;
            let done = detail_updated(clicked, DetailInput::ActionFinished(true)).0;
            let pending = Some(toggle_pending(page.container.state));
            &&& detail_received(clicked, inspected).0.pending == pending
            &&& done.pending == pending
            &&& detail_received(done, inspected).0.pending == if detail.state.running()
                != page.container.state.running() {
                None
            } else {
                pending
            }
        }),
{
}

/// Nothing else touches what the chip says is under way: no timer, no sample, no failed
/// inspection, and, before the action went well, no inspection at all.
pub proof fn only_the_end_of_an_action_ends_its_feedback(
    page: DetailPageView,
    input: DetailInput,
    cmd: DetailCmd,
)
    ensures
        input is Tick || input is Refresh || input == DetailInput::ActionFinished(true)
            ==> detail_updated(page, input).0.pending == page.pending,
        !page.settled ==> detail_received(page, cmd).0.pending == page.pending,
        detail_received(page, cmd).0.pending == page.pending || {
            &&& detail_received(page, cmd).0.pending is None
            &&& cmd matches DetailCmd::Inspected { result: Ok(detail), .. }
            &&& page.pending matches Some(pending)
            &&& state_landed(pending, detail.state)
        },
{
}

/// A failed inspection leaves the page as it was.
pub proof fn failed_inspection_changes_nothing(
    page: DetailPageView,
    reason: String,
    started_unix: Option<i64>,
)
    ensures
        detail_received(page, DetailCmd::Inspected { result: Err(reason), started_unix }) == (
            page,
            Seq::<DetailEffectView>::empty(),
        ),
{
}

// ---------------------------------------------------------------------------
// What the page shows.
// ---------------------------------------------------------------------------
/// A number divided by another, rounded to the nearest whole number; halfway between
/// two, to the even one.
pub open spec fn rounded_quotient(n: nat, d: nat) -> nat {
    let q = n / d;
    let r = n % d;
    if 2 * r < d || (2 * r == d && q % 2 == 0) {
        q
    } else {
        q + 1
    }
}

/// A number of bytes as far as a double-precision number tells it apart from others:
/// only so many leading binary digits count. `unit` is the value of the last of them.
pub open spec fn nearest_double(n: nat, unit: nat) -> nat
    decreases n - unit,
{
    if unit == 0 || n < 0x20_0000_0000_0000 * unit {
        rounded_quotient(n, unit) * unit
    } else {
        nearest_double(n, 2 * unit)
    }
}

/// The unit that a number of bytes is shown in: its size and its name.
pub open spec fn byte_unit(bytes: nat) -> (nat, Seq<char>) {
    if bytes < 0x400 {
        (1, "B"@)
    } else if bytes < 0x10_0000 {
        (0x400, "KB"@)
    } else if bytes < 0x4000_0000 {
        (0x10_0000, "MB"@)
    } else if bytes < 0x100_0000_0000 {
        (0x4000_0000, "GB"@)
    } else {
        (0x100_0000_0000, "TB"@)
    }
}

/// A number of bytes to show: whole bytes, or a larger unit to the nearest tenth, which
/// is left out where it is zero.
pub open spec fn bytes_text(bytes: nat) -> Seq<char> {
    let value = nearest_double(bytes, 1);
    let (size, name) = byte_unit(value);
    if size == 1 {
        decimal(bytes) + " B"@
    } else {
        let tenths = rounded_quotient(10 * value, size);
        if tenths % 10 == 0 {
            decimal(tenths / 10) + " "@ + name
        } else {
            decimal(tenths / 10) + "."@ + decimal(tenths % 10) + " "@ + name
        }
    }
}

fn round_quotient(n: u128, d: u128) -> (r: u128)
    requires
        0 < d <= 0x100_0000_0000,
        n <= 0x100_0000_0000_0000_0000,
    ensures
        r == rounded_quotient(n as nat, d as nat),
        r <= n / d + 1,
{
    let q: u128 = n / d;
    let rest: u128 = n % d;
    if 2 * rest < d || (2 * rest == d && q % 2 == 0) {
        q
    } else {
        q + 1
    }
}

/// `bytes` as a double-precision number has it.
fn to_double(bytes: u64) -> (r: u128)
    ensures
        r == nearest_double(bytes as nat, 1),
        r <= 0x2_0000_0000_0000_0000,
{
    let n: u128 = bytes as u128;
    let mut unit: u128 = 1;
    while n >= 0x20_0000_0000_0000 * unit
        invariant
            0 < unit <= 0x1000,
            n == bytes,
            nearest_double(bytes as nat, 1) == nearest_double(n as nat, unit as nat),
        decreases 0x1000 - unit,
    {
        unit = 2 * unit;
    }
    let q = round_quotient(n, unit);
    proof {
        lemma_fundamental_div_mod(n as int, unit as int);
        let whole = n as int / unit as int;
        assert(q * unit <= (whole + 1) * unit) by (nonlinear_arith)
            requires
                q <= whole + 1,
                unit > 0,
        ;
        assert((whole + 1) * unit == unit * whole + unit) by (nonlinear_arith);
    }
    q * unit
}

/// Bytes as a compact "340 MB" or "1.4 GB".
pub fn human_bytes(bytes: u64) -> (r: String)
    ensures
        r@ == bytes_text(bytes as nat),
{
    let value = to_double(bytes);
    let (size, name): (u128, &'static str) = if value < 0x400 {
        (1, "B")
    } else if value < 0x10_0000 {
        (0x400, "KB")
    } else if value < 0x4000_0000 {
        (0x10_0000, "MB")
    } else if value < 0x100_0000_0000 {
        (0x4000_0000, "GB")
    } else {
        (0x100_0000_0000, "TB")
    };
    if size == 1 {
        let mut out = decimal_of(bytes);
        out.append(" B");
        out
    } else {
        let tenths = round_quotient(10 * value, size);
        proof {
            lemma_div_is_ordered_by_denominator((10 * value) as int, 0x400, size as int);
        }
        let mut out = decimal_of((tenths / 10) as u64);
        if tenths % 10 != 0 {
            out.append(".");
            out.append(decimal_of((tenths % 10) as u64).as_str());
        }
        out.append(" ");
        out.append(name);
        out
    }
}

/// A time span to show, in the two largest units that it fills: "2d 3h", "3h 24m",
/// "5m 12s" or "8s". Below zero only the seconds within the minute show.
pub open spec fn duration_text(secs: int) -> Seq<char> {
    if secs >= 86400 {
        decimal((secs / 86400) as nat) + "d "@ + decimal((secs / 3600 % 24) as nat) + "h"@
    } else if secs >= 3600 {
        decimal((secs / 3600) as nat) + "h "@ + decimal((secs / 60 % 60) as nat) + "m"@
    } else if secs >= 60 {
        decimal((secs / 60) as nat) + "m "@ + decimal((secs % 60) as nat) + "s"@
    } else if secs >= 0 {
        decimal(secs as nat) + "s"@
    } else if (-secs) % 60 == 0 {
        "0s"@
    } else {
        "-"@ + decimal(((-secs) % 60) as nat) + "s"@
    }
}

/// Two numbers, each with what follows it.
fn two_parts(a: u64, after_a: &str, b: u64, after_b: &str) -> (r: String)
    ensures
        r@ == decimal(a as nat) + after_a@ + decimal(b as nat) + after_b@,
{
    let mut out = decimal_of(a);
    out.append(after_a);
    out.append(decimal_of(b).as_str());
    out.append(after_b);
    out
}

/// Seconds as a compact time span.
pub fn format_duration(secs: i64) -> (r: String)
    ensures
        r@ == duration_text(secs as int),
{
    if secs < 0 {
        // One is added and taken off again, because the least number has no opposite.
        let below: u64 = ((-(secs + 1)) as u64) + 1;
        let rest: u64 = below % 60;
        if rest == 0 {
            return "0s".to_owned();
        }
        let mut out = "-".to_owned();
        out.append(decimal_of(rest).as_str());
        out.append("s");
        return out;
    }
    let n: u64 = secs as u64;
    if n >= 86400 {
        two_parts(n / 86400, "d ", n / 3600 % 24, "h")
    } else if n >= 3600 {
        two_parts(n / 3600, "h ", n / 60 % 60, "m")
    } else if n >= 60 {
        two_parts(n / 60, "m ", n % 60, "s")
    } else {
        let mut out = decimal_of(n);
        out.append("s");
        out
    }
}

/// A timestamp to show: `formatted` is its readable form, if it has one, and otherwise
/// it shows as it is.
pub fn pretty_time(rfc3339: &str, formatted: Option<String>) -> (r: String)
    ensures
        r@ == match formatted {
            Some(text) => text@,
            None => rfc3339@,
        },
{
    match formatted {
        Some(text) => text,
        None => rfc3339.to_owned(),
    }
}

/// How long the container has been running at `now`.
pub open spec fn uptime_text(page: DetailPageView, now: Option<i64>) -> Seq<char> {
    match page.started_unix {
        None => "—"@,
        Some(started) => match now {
            Some(now) => if now >= started {
                duration_text(now - started)
            } else {
                duration_text(0)
            },
            None => duration_text(0),
        },
    }
}

/// The sample to show: the latest, while the container runs.
pub open spec fn shown_stats(page: DetailPageView) -> Option<Stats> {
    if page.container.state.running() {
        page.latest
    } else {
        None
    }
}

/// The text of the page's chip: what is under way, or else the state.
pub open spec fn detail_chip_label(page: DetailPageView) -> Seq<char> {
    chip_text(page.container.state, transition_text(page.pending))
}

/// The colour of the page's chip: neutral while something is under way, or else the
/// state's.
pub open spec fn detail_chip_variant(page: DetailPageView) -> Seq<char> {
    chip_colour(page.container.state, transition_text(page.pending))
}

/// The memory to show.
pub open spec fn memory_text(page: DetailPageView) -> Seq<char> {
    match shown_stats(page) {
        Some(stats) => bytes_text(stats.mem_used as nat) + " / "@ + bytes_text(
            stats.mem_limit as nat,
        ),
        None => "—"@,
    }
}

/// The command to show.
pub open spec fn command_text(page: DetailPageView) -> Seq<char> {
    match page.detail {
        Some(detail) => match detail.command {
            Some(command) => command,
            None => "—"@,
        },
        None => "—"@,
    }
}

/// The creation time to show, given its readable form if it has one.
pub open spec fn created_text(page: DetailPageView, formatted: Option<Seq<char>>) -> Seq<char> {
    match page.detail {
        Some(detail) => match detail.created {
            Some(created) => match formatted {
                Some(text) => text,
                None => created,
            },
            None => "—"@,
        },
        None => "—"@,
    }
}

/// The port mappings on the page, one by one.
pub open spec fn detail_ports(ports: Seq<Port>) -> Seq<Seq<char>> {
    Seq::new(
        ports.len(),
        |i: int| decimal(ports[i].public as nat) + " → "@ + decimal(ports[i].private as nat),
    )
}

/// The port mappings on the page.
pub open spec fn ports_text(ports: Seq<Port>) -> Seq<char> {
    if ports.len() == 0 {
        "No published ports"@
    } else {
        joined(detail_ports(ports), ", "@)
    }
}

impl ContainerDetailPage {
    /// The text of the chip.
    pub fn chip_label(&self) -> (r: &'static str)
        ensures
            r@ == detail_chip_label(self@),
    {
        status_chip::label_during(self.container.state, transition_of(self.pending))
    }

    /// The style class for the chip's colour.
    pub fn chip_variant(&self) -> (r: &'static str)
        ensures
            r@ == detail_chip_variant(self@),
    {
        status_chip::variant_during(self.container.state, transition_of(self.pending))
    }

    /// How long the container has been running, given the time in Unix seconds if there
    /// is one; "—" where its start is not known.
    pub fn uptime(&self, now: Option<i64>) -> (r: String)
        requires
            self.started_unix is Some && now is Some ==> i64::MIN <= now->0 - self.started_unix->0
                <= i64::MAX,
        ensures
            r@ == uptime_text(self@, now),
    {
        match self.started_unix {
            None => "—".to_owned(),
            Some(started) => {
                let now: i64 = match now {
                    Some(now) => now,
                    None => started,
                };
                let secs: i64 = now - started;
                format_duration(
                    if secs > 0 {
                        secs
                    } else {
                        0
                    },
                )
            },
        }
    }

    /// The sample whose CPU share is to show; `None` before the first one, and while the
    /// container does not run.
    pub fn cpu_value(&self) -> (r: Option<Stats>)
        ensures
            r == shown_stats(self@),
    {
        if self.container.state.is_running() {
            self.latest
        } else {
            None
        }
    }

    /// The memory in use and its limit, or "—".
    pub fn mem_value(&self) -> (r: String)
        ensures
            r@ == memory_text(self@),
    {
        match self.cpu_value() {
            Some(stats) => {
                let mut out = human_bytes(stats.mem_used);
                out.append(" / ");
                out.append(human_bytes(stats.mem_limit).as_str());
                out
            },
            None => "—".to_owned(),
        }
    }

    /// The container's command, or "—".
    pub fn command(&self) -> (r: String)
        ensures
            r@ == command_text(self@),
    {
        match &self.detail {
            Some(detail) => match &detail.command {
                Some(command) => command.clone(),
                None => "—".to_owned(),
            },
            None => "—".to_owned(),
        }
    }

    /// When the container was created, or "—"; `formatted` is the readable form of the
    /// time, if it has one.
    pub fn created(&self, formatted: Option<String>) -> (r: String)
        ensures
            r@ == created_text(self@, text_view(formatted)),
    {
        match &self.detail {
            Some(detail) => match &detail.created {
                Some(created) => pretty_time(created.as_str(), formatted),
                None => "—".to_owned(),
            },
            None => "—".to_owned(),
        }
    }

    /// The published ports, e.g. "8080 → 80, 8443 → 443".
    pub fn ports(&self) -> (r: String)
        ensures
            r@ == ports_text(self@.container.ports),
    {
        let ports = &self.container.ports;
        if ports.len() == 0 {
            return "No published ports".to_owned();
        }
        let mut parts: Vec<String> = Vec::new();
        let ghost all = detail_ports(ports@);
        let mut i: usize = 0;
        proof {
            assert(texts(parts@) =~= all.take(0));
        }
        while i < ports.len()
            invariant
                i <= ports@.len(),
                all == detail_ports(ports@),
                texts(parts@) == all.take(i as int),
            decreases ports@.len() - i,
        {
            let ghost before = parts@;
            let mut part = decimal_of(ports[i].public as u64);
            part.append(" → ");
            part.append(decimal_of(ports[i].private as u64).as_str());
            parts.push(part);
            proof {
                assert(texts(parts@) =~= texts(before).push(part@));
                assert(all.take(i + 1) =~= all.take(i as int).push(all[i as int]));
            }
            i += 1;
        }
        proof {
            assert(all.take(i as int) =~= all);
        }
        join(&parts, ", ")
    }
}

/// Up to the largest number that a double-precision number tells apart from its
/// neighbours, the number of bytes that shows is the number itself.
pub proof fn small_numbers_of_bytes_are_exact(bytes: nat)
    requires
        bytes < 0x20_0000_0000_0000,
    ensures
        nearest_double(bytes, 1) == bytes,
{
}

/// The page and a row show one chip for one state and one action under way.
pub proof fn page_and_row_show_one_chip(page: DetailPageView, row: ContainerRowView)
    requires
        page.container.state == row.container.state,
        page.pending == row.pending,
    ensures
        detail_chip_label(page) == row_chip_label(row),
        detail_chip_variant(page) == row_chip_variant(row),
{
}

/// A stopped container shows no load and no uptime, however old the last sample is.
pub proof fn stopped_container_shows_no_load(
    page: DetailPageView,
    resp: ContainerInspectResponse,
    started_unix: Option<i64>,
    now: Option<i64>,
)
    requires
        !inspect_detail(resp).state.running(),
        resp.state matches Some(state) ==> state.running != Some(true),
    ensures
        ({
            let next = detail_inspected(page, inspect_detail(resp), started_unix);
            &&& memory_text(next) == "—"@
            &&& shown_stats(next) is None
            &&& uptime_text(next, now) == "—"@
        }),
{
}

// ---------------------------------------------------------------------------
// What each message is for.
// ---------------------------------------------------------------------------
/// Whether a container in this state is up.
pub open spec fn is_up(state: ContainerState) -> bool {
    state == ContainerState::Running || state == ContainerState::Restarting
}

/// The button asks once, to stop a container that is up and to start any other, and the
/// chip says so; nothing else of the page changes.
pub proof fn button_asks_for_the_other_state(page: DetailPageView)
    ensures
        ({
            let (next, effects) = detail_updated(page, DetailInput::ToggleClicked);
            let up = is_up(page.container.state);
            &&& up ==> effects == seq![
                DetailEffectView::Output(DetailOutputView::Stop(page.container.id)),
            ]
            &&& !up ==> effects == seq![
                DetailEffectView::Output(DetailOutputView::Start(page.container.id)),
            ]
            &&& up ==> next.pending == Some(RowPending::Stopping)
            &&& !up ==> next.pending == Some(RowPending::Starting)
            &&& next == (DetailPageView { pending: next.pending, settled: false, ..page })
        }),
{
}

/// A refresh inspects the page's own container, once, and changes nothing; a second that
/// passed does nothing; the end of an action asks for nothing.
pub proof fn refresh_inspects_the_container(page: DetailPageView, ok: bool)
    ensures
        detail_updated(page, DetailInput::Refresh) == (
            page,
            seq![DetailEffectView::Inspect(page.container.id)],
        ),
        detail_updated(page, DetailInput::Tick) == (page, Seq::<DetailEffectView>::empty()),
        detail_updated(page, DetailInput::ActionFinished(ok)).1.len() == 0,
        ({
            let next = detail_updated(page, DetailInput::ActionFinished(ok)).0;
            next == (DetailPageView { pending: next.pending, settled: next.settled, ..page })
        }),
{
}

/// An inspection brings the state and the ports up to date and leaves the container's
/// identity; the start time counts only where the detail has one. Samples are asked for
/// where the container is up and none stream, logs where it is up.
pub proof fn inspection_brings_the_page_up_to_date(
    page: DetailPageView,
    detail: ContainerDetail,
    started_unix: Option<i64>,
)
    ensures
        ({
            let cmd = DetailCmd::Inspected { result: Ok(detail), started_unix };
            let (next, effects) = detail_received(page, cmd);
            let up = is_up(detail.state);
            &&& next.container.state == detail.state
            &&& next.container.ports == detail.ports@
            &&& next.container.id == page.container.id
            &&& next.container.name == page.container.name
            &&& next.container.image == page.container.image
            &&& next.detail == Some(detail@)
            &&& next.latest == page.latest
            &&& detail.started_at is Some ==> next.started_unix == started_unix
            &&& detail.started_at is None ==> next.started_unix is None
            &&& next.stats_active == (page.stats_active || up)
            &&& effects.contains(DetailEffectView::StartStats(page.container.id)) <==> up
                && !page.stats_active
            &&& effects.contains(DetailEffectView::EnsureLogs) <==> up
            &&& forall|e: int|
                0 <= e < effects.len() ==> #[trigger] effects[e] == DetailEffectView::StartStats(
                    page.container.id,
                ) || effects[e] == DetailEffectView::EnsureLogs
        }),
{
    let cmd = DetailCmd::Inspected { result: Ok(detail), started_unix };
    let effects = detail_received(page, cmd).1;
    if is_up(detail.state) {
        assert(effects.last() == DetailEffectView::EnsureLogs);
        assert(effects[effects.len() - 1] == DetailEffectView::EnsureLogs);
        if !page.stats_active {
            assert(effects[0] == DetailEffectView::StartStats(page.container.id));
        }
    }
}

/// A sample is kept as the latest and handed to the graphs as it is; the end of the
/// samples makes room for a new stream. Neither changes anything else.
pub proof fn samples_are_kept_and_drawn(page: DetailPageView, stats: Stats)
    ensures
        detail_received(page, DetailCmd::StatsSample(stats)) == (
            DetailPageView { latest: Some(stats), ..page },
            seq![DetailEffectView::Graph(stats)],
        ),
        detail_received(page, DetailCmd::StatsEnded) == (
            DetailPageView { stats_active: false, ..page },
            Seq::<DetailEffectView>::empty(),
        ),
{
}

/// A page opens on the container that the list knew, with an inspection, and with samples
/// where the container is up.
pub proof fn page_opens_on_its_container(container: ContainerView)
    ensures
        ({
            let (page, effects) = detail_opened(container);
            &&& page.container == container
            &&& page.detail is None && page.started_unix is None && page.latest is None
            &&& page.pending is None
            &&& page.stats_active == is_up(container.state)
            &&& is_up(container.state) ==> effects == seq![
                DetailEffectView::PostRefresh,
                DetailEffectView::StartStats(container.id),
            ]
            &&& !is_up(container.state) ==> effects == seq![DetailEffectView::PostRefresh]
        }),
{
    let effects = detail_opened(container).1;
    if is_up(container.state) {
        assert(effects =~= seq![
            DetailEffectView::PostRefresh,
            DetailEffectView::StartStats(container.id),
        ]);
    } else {
        assert(effects =~= seq![DetailEffectView::PostRefresh]);
    }
}

/// A time span shows in the two largest units that it fills.
pub proof fn durations_show_their_two_largest_units(d: nat, h: nat, m: nat, s: nat)
    requires
        h < 24,
        m < 60,
        s < 60,
    ensures
        ({
            let secs = 86400 * d + 3600 * h + 60 * m + s;
            &&& d > 0 ==> duration_text(secs as int) == decimal(d) + "d "@ + decimal(h) + "h"@
            &&& d == 0 && h > 0 ==> duration_text(secs as int) == decimal(h) + "h "@ + decimal(m)
                + "m"@
            &&& d == 0 && h == 0 && m > 0 ==> duration_text(secs as int) == decimal(m) + "m "@
                + decimal(s) + "s"@
            &&& d == 0 && h == 0 && m == 0 ==> duration_text(secs as int) == decimal(s) + "s"@
        }),
{
    let secs = (86400 * d + 3600 * h + 60 * m + s) as int;
    assert(secs / 86400 == d);
    assert(secs / 3600 == 24 * d + h);
    assert((24 * d + h) % 24 == h);
    assert(secs / 60 == 60 * (24 * d + h) + m);
    assert((60 * (24 * d + h) + m) % 60 == m);
    assert(secs % 60 == s);
}

/// A number of bytes shows in the largest unit that it fills, to the nearest tenth; a
/// tenth that is zero is left out, and halfway between two tenths the even one counts.
pub proof fn bytes_show_to_the_nearest_tenth(bytes: nat, power: nat, tenths: nat)
    requires
        bytes < 0x20_0000_0000_0000,
        1 <= power <= 4,
        ({
            let size = unit_size(power);
            &&& size <= bytes
            &&& power < 4 ==> bytes < 1024 * size
            &&& 2 * (10 * bytes - tenths * size) <= size
            &&& 2 * (tenths * size - 10 * bytes) <= size
            &&& 2 * (10 * bytes - tenths * size) == size || 2 * (tenths * size - 10 * bytes) == size
                ==> tenths % 2 == 0
        }),
    ensures
        tenths % 10 == 0 ==> bytes_text(bytes) == decimal(tenths / 10) + " "@ + unit_name(power),
        tenths % 10 != 0 ==> bytes_text(bytes) == decimal(tenths / 10) + "."@ + decimal(tenths % 10)
            + " "@ + unit_name(power),
{
    small_numbers_of_bytes_are_exact(bytes);
    let size = unit_size(power);
    if power == 1 {
        assert(tenths * size == 0x400 * tenths) by (nonlinear_arith)
            requires
                size == 0x400,
        ;
        assert(rounded_quotient(10 * bytes, 0x400) == tenths);
    } else if power == 2 {
        assert(tenths * size == 0x10_0000 * tenths) by (nonlinear_arith)
            requires
                size == 0x10_0000,
        ;
        assert(rounded_quotient(10 * bytes, 0x10_0000) == tenths);
    } else if power == 3 {
        assert(tenths * size == 0x4000_0000 * tenths) by (nonlinear_arith)
            requires
                size == 0x4000_0000,
        ;
        assert(rounded_quotient(10 * bytes, 0x4000_0000) == tenths);
    } else {
        assert(tenths * size == 0x100_0000_0000 * tenths) by (nonlinear_arith)
            requires
                size == 0x100_0000_0000,
        ;
        assert(rounded_quotient(10 * bytes, 0x100_0000_0000) == tenths);
    }
}

/// The size of a unit of bytes: 1024 to this power, up to the fourth.
pub open spec fn unit_size(power: nat) -> nat {
    if power == 1 {
        1024
    } else if power == 2 {
        1_048_576
    } else if power == 3 {
        1_073_741_824
    } else {
        1_099_511_627_776
    }
}

/// The name of a unit of bytes.
pub open spec fn unit_name(power: nat) -> Seq<char> {
    if power == 1 {
        "KB"@
    } else if power == 2 {
        "MB"@
    } else if power == 3 {
        "GB"@
    } else {
        "TB"@
    }
}

/// A number of bytes that fills no larger unit shows as it is.
pub proof fn few_bytes_show_as_they_are(bytes: nat)
    requires
        bytes < 1024,
    ensures
        bytes_text(bytes) == decimal(bytes) + " B"@,
{
    small_numbers_of_bytes_are_exact(bytes);
}

/// The uptime is the time since the start, never less than nothing; it is a dash where the
/// start is not known.
pub proof fn uptime_counts_from_the_start(page: DetailPageView, started: i64, secs: nat)
    requires
        page.started_unix == Some(started),
        started + secs <= i64::MAX,
    ensures
        uptime_text(page, Some((started + secs) as i64)) == duration_text(secs as int),
        started - secs >= i64::MIN ==> uptime_text(page, Some((started - secs) as i64))
            == duration_text(0),
        uptime_text(page, None) == duration_text(0),
        uptime_text(DetailPageView { started_unix: None, ..page }, Some(started)) == "—"@,
        uptime_text(DetailPageView { started_unix: None, ..page }, None) == "—"@,
{
}

/// While the container is up, the latest sample shows, memory in use before its limit;
/// otherwise, and before the first sample, there is a dash.
pub proof fn load_shows_while_the_container_is_up(page: DetailPageView)
    ensures
        is_up(page.container.state) ==> shown_stats(page) == page.latest,
        !is_up(page.container.state) ==> shown_stats(page) is None,
        is_up(page.container.state) && page.latest is Some ==> memory_text(page) == bytes_text(
            page.latest->0.mem_used as nat,
        ) + " / "@ + bytes_text(page.latest->0.mem_limit as nat),
        !is_up(page.container.state) || page.latest is None ==> memory_text(page) == "—"@,
{
}

/// The command and the creation time show as the latest inspection gave them, the time in
/// its readable form if it has one; what is not known is a dash.
pub proof fn details_show_as_inspected(page: DetailPageView, formatted: Option<Seq<char>>)
    ensures
        page.detail is Some && page.detail->0.command is Some ==> command_text(page)
            == page.detail->0.command->0,
        page.detail is None || page.detail->0.command is None ==> command_text(page) == "—"@,
        page.detail is Some && page.detail->0.created is Some && formatted is Some ==> created_text(
            page,
            formatted,
        ) == formatted->0,
        page.detail is Some && page.detail->0.created is Some && formatted is None ==> created_text(
            page,
            formatted,
        ) == page.detail->0.created->0,
        page.detail is None || page.detail->0.created is None ==> created_text(page, formatted)
            == "—"@,
{
}

/// A port shows as the host's number, an arrow and the container's; several show one
/// after the other with commas between, in their order; none is said in words.
pub proof fn ports_show_host_then_container(port: Port, a: Seq<Port>, b: Seq<Port>)
    ensures
        ports_text(Seq::empty()) == "No published ports"@,
        ports_text(seq![port]) == decimal(port.public as nat) + " → "@ + decimal(
            port.private as nat,
        ),
        a.len() > 0 && b.len() > 0 ==> ports_text(a + b) == ports_text(a) + ", "@ + ports_text(b),
{
    let one = decimal(port.public as nat) + " → "@ + decimal(port.private as nat);
    assert(detail_ports(seq![port]) =~= seq![one]);
    assert(detail_ports(a + b) =~= detail_ports(a) + detail_ports(b));
    joined_lists_join_up(detail_ports(a), detail_ports(b), one, ", "@);
}

/// A number of bytes with more binary digits than count is never further from the one that
/// stands for it than half of the last digit that does; and that one ends there.
pub proof fn large_numbers_of_bytes_are_near(bytes: nat, unit: nat)
    requires
        unit > 0,
        0x10_0000_0000_0000 * unit <= bytes < 0x20_0000_0000_0000 * unit,
    ensures
        2 * (nearest_double(bytes, unit) - bytes) <= unit,
        2 * (bytes - nearest_double(bytes, unit)) <= unit,
        nearest_double(bytes, unit) % unit == 0,
{
    lemma_fundamental_div_mod(bytes as int, unit as int);
    let q = bytes / unit;
    let r = bytes % unit;
    let near = rounded_quotient(bytes, unit);
    assert(q * unit == unit * q) by (nonlinear_arith);
    assert((q + 1) * unit == unit * q + unit) by (nonlinear_arith);
    lemma_mod_multiples_basic(near as int, unit as int);
}

} // verus!
