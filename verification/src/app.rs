//! The app itself: one state, the messages that change it, and what each change asks of
//! the world.
//!
//! Nothing here talks to the daemon or to the screen. Each answer to a message is the
//! new state and a list of effects, which the caller carries out in order.
use vstd::prelude::*;
use vstd::utf8::is_ascii_chars;

use crate::components::container_detail::DetailOutput;
use crate::components::container_row::{
    rows_view, ContainerRow, ContainerRowInit, ContainerRowOutput, ContainerRowView, RowPending,
};
use crate::docker::client::{
    container_list, container_list_is_sorted_and_complete, name_leq,
};
use crate::docker::types::{
    containers_view, Container, ContainerState, ContainerSummary, ContainerView, SHORT_ID,
};
use crate::order::{in_order, lemma_filter_in_order, lemma_filter_push};
use crate::settings::{Settings, Theme};
use crate::text::{
    ascii_lowercase_changes_capitals_only, ascii_lowered, contains_text, decimal, decimal_of,
    lower, lowered, occurs_at, prefix, prefix_of, same_text, text_contains,
    text_holds_what_was_put_in, text_view,
};

verus! {

/// How often the containers are listed, in seconds.
pub const POLL_INTERVAL_SECS: u32 = 2;

// ---------------------------------------------------------------------------
// Actions.
// ---------------------------------------------------------------------------
/// What can be done to a container.
#[derive(Debug, Clone, Copy, PartialEq, Eq, Structural)]
pub enum Action {
    Start,
    Stop,
    Restart,
    Remove,
}

/// The verb for an action.
pub open spec fn action_verb(action: Action) -> Seq<char> {
    match action {
        Action::Start => "start"@,
        Action::Stop => "stop"@,
        Action::Restart => "restart"@,
        Action::Remove => "remove"@,
    }
}

/// What a row shows while an action is under way.
pub open spec fn pending_kind(action: Action) -> RowPending {
    match action {
        Action::Start => RowPending::Starting,
        Action::Stop => RowPending::Stopping,
        Action::Restart => RowPending::Restarting,
        Action::Remove => RowPending::Removing,
    }
}

/// What a row shows while an action is or is not under way.
pub open spec fn pending_kinds(action: Option<Action>) -> Option<RowPending> {
    match action {
        Some(action) => Some(pending_kind(action)),
        None => None,
    }
}

impl Action {
    /// For "Couldn't {verb} {name}: {reason}".
    pub fn verb(self) -> (r: &'static str)
        ensures
            r@ == action_verb(self),
    {
        match self {
            Action::Start => "start",
            Action::Stop => "stop",
            Action::Restart => "restart",
            Action::Remove => "remove",
        }
    }
}

/// What a row shows while `action` is under way.
pub fn row_pending(action: Action) -> (r: RowPending)
    ensures
        r == pending_kind(action),
{
    match action {
        Action::Start => RowPending::Starting,
        Action::Stop => RowPending::Stopping,
        Action::Restart => RowPending::Restarting,
        Action::Remove => RowPending::Removing,
    }
}

fn row_pending_of(action: Option<Action>) -> (r: Option<RowPending>)
    ensures
        r == pending_kinds(action),
{
    match action {
        Some(action) => Some(row_pending(action)),
        None => None,
    }
}

/// The action under way for each container that has one: the last entry counts.
pub open spec fn pending_map(entries: Seq<(String, Action)>) -> Map<Seq<char>, Action>
    decreases entries.len(),
{
    if entries.len() == 0 {
        Map::empty()
    } else {
        pending_map(entries.drop_last()).insert(entries.last().0@, entries.last().1)
    }
}

/// The action under way for the container `id`, if there is one.
pub open spec fn pending_for(pending: Map<Seq<char>, Action>, id: Seq<char>) -> Option<Action> {
    if pending.dom().contains(id) {
        Some(pending[id])
    } else {
        None
    }
}

fn find_pending(entries: &Vec<(String, Action)>, id: &str) -> (r: Option<Action>)
    ensures
        r == pending_for(pending_map(entries@), id@),
{
    let mut i: usize = entries.len();
    proof {
        assert(entries@.take(i as int) =~= entries@);
    }
    while i > 0
        invariant
            i <= entries@.len(),
            pending_for(pending_map(entries@), id@) == pending_for(
                pending_map(entries@.take(i as int)),
                id@,
            ),
        decreases i,
    {
        proof {
            assert(entries@.take(i as int).drop_last() =~= entries@.take(i - 1));
            assert(entries@.take(i as int).last() == entries@[i - 1]);
        }
        i -= 1;
        if same_text(entries[i].0.as_str(), id) {
            return Some(entries[i].1);
        }
    }
    proof {
        assert(pending_map(entries@.take(0)) =~= Map::empty());
    }
    None
}

/// Takes the entries of `id` away.
fn remove_pending(entries: &Vec<(String, Action)>, id: &str) -> (r: Vec<(String, Action)>)
    ensures
        pending_map(r@) == pending_map(entries@).remove(id@),
{
    let mut out: Vec<(String, Action)> = Vec::new();
    let mut i: usize = 0;
    proof {
        assert(pending_map(entries@.take(0)) =~= Map::empty());
        assert(pending_map(out@) =~= pending_map(entries@.take(0)).remove(id@));
    }
    while i < entries.len()
        invariant
            i <= entries@.len(),
            pending_map(out@) == pending_map(entries@.take(i as int)).remove(id@),
        decreases entries@.len() - i,
    {
        let ghost before = pending_map(entries@.take(i as int));
        let ghost so_far = out@;
        proof {
            assert(entries@.take(i + 1).drop_last() =~= entries@.take(i as int));
            assert(entries@.take(i + 1).last() == entries@[i as int]);
        }
        let ghost key = entries@[i as int].0@;
        let ghost action = entries@[i as int].1;
        if same_text(entries[i].0.as_str(), id) {
            proof {
                assert(before.insert(key, action).remove(id@) =~= before.remove(id@));
            }
        } else {
            out.push((entries[i].0.clone(), entries[i].1));
            proof {
                assert(out@.drop_last() =~= so_far);
                assert(before.insert(key, action).remove(id@) =~= before.remove(id@).insert(
                    key,
                    action,
                ));
            }
        }
        i += 1;
    }
    proof {
        assert(entries@.take(i as int) =~= entries@);
    }
    out
}

// ---------------------------------------------------------------------------
// The state, the messages, the effects.
// ---------------------------------------------------------------------------
/// What the window shows.
#[derive(Debug, PartialEq, Eq)]
pub enum ViewState {
    Loading,
    Ready,
    Disconnected(String),
}

/// What a `ViewState` holds.
#[verifier::ext_equal]
pub enum ViewStateView {
    Loading,
    Ready,
    Disconnected(Seq<char>),
}

impl View for ViewState {
    type V = ViewStateView;

    open spec fn view(&self) -> ViewStateView {
        match self {
            ViewState::Loading => ViewStateView::Loading,
            ViewState::Ready => ViewStateView::Ready,
            ViewState::Disconnected(reason) => ViewStateView::Disconnected(reason@),
        }
    }
}

/// The state of the app.
#[derive(Debug)]
pub struct AppModel {
    /// Whether there is a connection to the daemon.
    pub connected: bool,
    /// The rows that show: those of the containers that the search lets through.
    pub containers: Vec<ContainerRow>,
    /// All containers of the latest poll.
    pub all_containers: Vec<Container>,
    /// The search text as typed; empty for no search.
    pub query: String,
    pub state: ViewState,
    /// The action under way for each container that has one. It is kept here so that a
    /// row that is built anew can have its pending state back.
    pub pending: Vec<(String, Action)>,
    /// A refresh that the user asked for. The poll does not set it: a spinner that blinks
    /// every two seconds is worse than none.
    pub refreshing: bool,
    /// Whether the poll's timer runs.
    pub polling: bool,
    /// The container whose detail page is open.
    pub detail_id: Option<String>,
    pub settings: Settings,
}

/// What an `AppModel` holds.
#[verifier::ext_equal]
pub struct AppView {
    pub connected: bool,
    pub rows: Seq<ContainerRowView>,
    pub all: Seq<ContainerView>,
    pub query: Seq<char>,
    pub state: ViewStateView,
    pub pending: Map<Seq<char>, Action>,
    pub refreshing: bool,
    pub polling: bool,
    pub detail_id: Option<Seq<char>>,
    pub settings: Settings,
}

impl View for AppModel {
    type V = AppView;

    open spec fn view(&self) -> AppView {
        AppView {
            connected: self.connected,
            rows: rows_view(self.containers@),
            all: containers_view(self.all_containers@),
            query: self.query@,
            state: self.state@,
            pending: pending_map(self.pending@),
            refreshing: self.refreshing,
            polling: self.polling,
            detail_id: text_view(self.detail_id),
            settings: self.settings,
        }
    }
}

/// What happens in the window.
#[derive(Debug, PartialEq, Eq)]
pub enum AppMsg {
    /// The poll's tick. It shows nowhere.
    Refresh,
    /// The user asked for a refresh.
    ManualRefresh,
    Start(String),
    Stop(String),
    Restart(String),
    /// Asks whether to remove; removes nothing.
    Remove(String),
    /// The user said yes.
    RemoveConfirmed(String),
    ShowDetails(String),
    /// The search text changed.
    SearchChanged(String),
    ShowAbout,
    ShowPreferences,
    SetLogsWrap(bool),
    SetLogsTimestamps(bool),
    SetTheme(Theme),
    /// The detail page was left.
    PageClosed,
    Error(String),
    /// The window went out of sight, or came back.
    SuspendedChanged(bool),
}

/// What comes back from work that was sent off.
#[derive(Debug, PartialEq, Eq)]
pub enum CommandMsg {
    Connected(Result<(), String>),
    ContainersLoaded(Vec<Container>),
    /// An action ended, well or not.
    ActionDone { id: String, action: Action, result: Result<(), String> },
    /// The containers could not be listed.
    ListFailed(String),
}

/// What to do.
#[derive(Debug)]
pub enum AppEffect {
    /// Connect to the daemon.
    Connect,
    /// Start the poll's timer.
    StartPoll,
    /// Take the poll's timer away.
    StopPoll,
    /// List all containers.
    ListContainers,
    /// Send the app `AppMsg::Refresh`.
    PostRefresh,
    /// Send the app `AppMsg::Error`.
    PostError(String),
    /// Do `action` to the container `id`.
    RunAction { id: String, action: Action },
    /// Hand the row at `index` fresh data.
    UpdateRow { index: usize, container: Container },
    /// Tell the row at `index` what is under way.
    SetRowPending { index: usize, pending: Option<RowPending> },
    /// Throw all rows away and build these.
    RebuildRows(Vec<ContainerRowInit>),
    /// Let the user ask for a refresh from now on.
    EnableRefresh,
    /// Report from now on when the window goes out of sight or comes back.
    WatchSuspended,
    /// Ask with this text whether to remove the container `id`.
    ConfirmRemove { id: String, text: String },
    ShowAbout,
    ShowPreferences,
    SaveSettings,
    ApplyTheme,
    /// Open the detail page of this container.
    OpenDetail { container: Container, logs_wrap: bool, logs_timestamps: bool },
    /// Drop the detail page, and the streams with it.
    CloseDetail,
    /// Tell the detail page that an action on its container ended, well or not.
    NotifyDetail(bool),
    /// Show a notice.
    Toast(String),
}

/// What an `AppEffect` holds.
#[verifier::ext_equal]
pub enum AppEffectView {
    Connect,
    StartPoll,
    StopPoll,
    ListContainers,
    PostRefresh,
    PostError(Seq<char>),
    RunAction { id: Seq<char>, action: Action },
    UpdateRow { index: int, container: ContainerView },
    SetRowPending { index: int, pending: Option<RowPending> },
    RebuildRows(Seq<ContainerRowView>),
    EnableRefresh,
    WatchSuspended,
    ConfirmRemove { id: Seq<char>, text: Seq<char> },
    ShowAbout,
    ShowPreferences,
    SaveSettings,
    ApplyTheme,
    OpenDetail { container: ContainerView, logs_wrap: bool, logs_timestamps: bool },
    CloseDetail,
    NotifyDetail(bool),
    Toast(Seq<char>),
}

/// What the beginnings of rows hold.
pub open spec fn inits_view(inits: Seq<ContainerRowInit>) -> Seq<ContainerRowView> {
    Seq::new(
        inits.len(),
        |i: int|
            ContainerRowView { container: inits[i].container@, pending: inits[i].pending },
    )
}

impl View for AppEffect {
    type V = AppEffectView;

    open spec fn view(&self) -> AppEffectView {
        match self {
            AppEffect::Connect => AppEffectView::Connect,
            AppEffect::StartPoll => AppEffectView::StartPoll,
            AppEffect::StopPoll => AppEffectView::StopPoll,
            AppEffect::ListContainers => AppEffectView::ListContainers,
            AppEffect::PostRefresh => AppEffectView::PostRefresh,
            AppEffect::PostError(text) => AppEffectView::PostError(text@),
            AppEffect::RunAction { id, action } => AppEffectView::RunAction {
                id: id@,
                action: *action,
            },
            AppEffect::UpdateRow { index, container } => AppEffectView::UpdateRow {
                index: *index as int,
                container: container@,
            },
            AppEffect::SetRowPending { index, pending } => AppEffectView::SetRowPending {
                index: *index as int,
                pending: *pending,
            },
            AppEffect::RebuildRows(inits) => AppEffectView::RebuildRows(inits_view(inits@)),
            AppEffect::EnableRefresh => AppEffectView::EnableRefresh,
            AppEffect::WatchSuspended => AppEffectView::WatchSuspended,
            AppEffect::ConfirmRemove { id, text } => AppEffectView::ConfirmRemove {
                id: id@,
                text: text@,
            },
            AppEffect::ShowAbout => AppEffectView::ShowAbout,
            AppEffect::ShowPreferences => AppEffectView::ShowPreferences,
            AppEffect::SaveSettings => AppEffectView::SaveSettings,
            AppEffect::ApplyTheme => AppEffectView::ApplyTheme,
            AppEffect::OpenDetail { container, logs_wrap, logs_timestamps } =>
                AppEffectView::OpenDetail {
                    container: container@,
                    logs_wrap: *logs_wrap,
                    logs_timestamps: *logs_timestamps,
                },
            AppEffect::CloseDetail => AppEffectView::CloseDetail,
            AppEffect::NotifyDetail(ok) => AppEffectView::NotifyDetail(*ok),
            AppEffect::Toast(text) => AppEffectView::Toast(text@),
        }
    }
}

/// What a sequence of effects holds.
pub open spec fn app_effects_view(effects: Seq<AppEffect>) -> Seq<AppEffectView> {
    Seq::new(effects.len(), |i: int| effects[i]@)
}

// ---------------------------------------------------------------------------
// How the app answers, in terms of its state.
// ---------------------------------------------------------------------------
/// The first row of the container `id` at `from` or behind it; the number of rows where
/// there is none.
pub open spec fn row_of(rows: Seq<ContainerRowView>, id: Seq<char>, from: int) -> int
    decreases rows.len() - from,
{
    if from >= rows.len() || rows[from].container.id == id {
        from
    } else {
        row_of(rows, id, from + 1)
    }
}

/// The name of the container `id`, or a short id where it has no row any more.
pub open spec fn shown_name(rows: Seq<ContainerRowView>, id: Seq<char>) -> Seq<char> {
    let i = row_of(rows, id, 0);
    if i < rows.len() {
        rows[i].container.name
    } else {
        prefix(id, SHORT_ID as nat)
    }
}

/// The app after an action began or ended, and what the row is told.
pub open spec fn pending_set(app: AppView, id: Seq<char>, action: Option<Action>) -> (
    AppView,
    Seq<AppEffectView>,
) {
    let i = row_of(app.rows, id, 0);
    let pending = match action {
        Some(action) => app.pending.insert(id, action),
        None => app.pending.remove(id),
    };
    if i < app.rows.len() {
        (
            AppView {
                pending,
                rows: app.rows.update(
                    i,
                    ContainerRowView { pending: pending_kinds(action), ..app.rows[i] },
                ),
                ..app
            },
            seq![AppEffectView::SetRowPending { index: i, pending: pending_kinds(action) }],
        )
    } else {
        (AppView { pending, ..app }, Seq::empty())
    }
}

/// The app after an action was sent off. Without a connection nothing happens.
pub open spec fn dispatched(app: AppView, id: Seq<char>, action: Action) -> (
    AppView,
    Seq<AppEffectView>,
) {
    if app.connected {
        let (next, effects) = pending_set(app, id, Some(action));
        (next, effects.push(AppEffectView::RunAction { id, action }))
    } else {
        (app, Seq::empty())
    }
}

/// The app with the poll's timer running, if there is something to poll.
pub open spec fn poll_started(app: AppView) -> (AppView, Seq<AppEffectView>) {
    if app.polling || !app.connected {
        (app, Seq::empty())
    } else {
        (AppView { polling: true, ..app }, seq![AppEffectView::StartPoll])
    }
}

/// The app without the poll's timer.
pub open spec fn poll_stopped(app: AppView) -> (AppView, Seq<AppEffectView>) {
    if app.polling {
        (AppView { polling: false, ..app }, seq![AppEffectView::StopPoll])
    } else {
        (app, Seq::empty())
    }
}

/// Whether a needle stands in a name or in an image; an empty one does.
pub open spec fn needle_in(needle: Seq<char>, name: Seq<char>, image: Seq<char>) -> bool {
    ||| needle.len() == 0
    ||| contains_text(name, needle)
    ||| contains_text(image, needle)
}

/// Whether a search lets a container through: an empty one does, and otherwise its name
/// or its image must hold the search text, in whatever case.
pub open spec fn found_by(query: Seq<char>, container: ContainerView) -> bool {
    query.len() == 0 || needle_in(
        lowered(query),
        lowered(container.name),
        lowered(container.image),
    )
}

/// The containers that a search lets through, in their order.
pub open spec fn found(query: Seq<char>, all: Seq<ContainerView>) -> Seq<ContainerView> {
    all.filter(|container: ContainerView| found_by(query, container))
}

/// Whether rows are those of the given containers, one by one.
pub open spec fn same_members(rows: Seq<ContainerRowView>, containers: Seq<ContainerView>) -> bool {
    &&& rows.len() == containers.len()
    &&& forall|i: int|
        0 <= i < rows.len() ==> (#[trigger] rows[i]).container.id == containers[i].id
}

/// The rows with fresh data.
pub open spec fn rows_updated(
    rows: Seq<ContainerRowView>,
    containers: Seq<ContainerView>,
) -> Seq<ContainerRowView> {
    Seq::new(
        containers.len(),
        |i: int| ContainerRowView { container: containers[i], pending: rows[i].pending },
    )
}

/// New rows, with what is under way.
pub open spec fn rows_built(
    containers: Seq<ContainerView>,
    pending: Map<Seq<char>, Action>,
) -> Seq<ContainerRowView> {
    Seq::new(
        containers.len(),
        |i: int|
            ContainerRowView {
                container: containers[i],
                pending: pending_kinds(pending_for(pending, containers[i].id)),
            },
    )
}

/// The app with its rows brought up to date. As long as they are of the same containers
/// they stay, with fresh data, so that an open menu stays open; otherwise they are built
/// anew.
pub open spec fn reconciled(app: AppView) -> (AppView, Seq<AppEffectView>) {
    let visible = found(app.query, app.all);
    if same_members(app.rows, visible) {
        (
            AppView { rows: rows_updated(app.rows, visible), ..app },
            Seq::new(
                visible.len(),
                |i: int| AppEffectView::UpdateRow { index: i, container: visible[i] },
            ),
        )
    } else {
        let rows = rows_built(visible, app.pending);
        (AppView { rows, ..app }, seq![AppEffectView::RebuildRows(rows)])
    }
}

/// The question before a container is removed.
pub open spec fn removal_text(name: Seq<char>) -> Seq<char> {
    "“"@ + name + "” will be permanently removed. This can't be undone."@
}

/// The app as it begins.
pub open spec fn app_started(settings: Settings) -> AppView {
    AppView {
        connected: false,
        rows: Seq::empty(),
        all: Seq::empty(),
        query: Seq::empty(),
        state: ViewStateView::Loading,
        pending: Map::empty(),
        refreshing: false,
        polling: false,
        detail_id: None,
        settings,
    }
}

/// How the app answers what happens in the window.
pub open spec fn app_updated(app: AppView, msg: AppMsg) -> (AppView, Seq<AppEffectView>) {
    match msg {
        AppMsg::ManualRefresh => (
            AppView { refreshing: true, ..app },
            seq![AppEffectView::PostRefresh],
        ),
        AppMsg::Refresh => (
            app,
            if app.connected {
                seq![AppEffectView::ListContainers]
            } else {
                Seq::empty()
            },
        ),
        AppMsg::Start(id) => dispatched(app, id@, Action::Start),
        AppMsg::Stop(id) => dispatched(app, id@, Action::Stop),
        AppMsg::Restart(id) => dispatched(app, id@, Action::Restart),
        AppMsg::RemoveConfirmed(id) => dispatched(app, id@, Action::Remove),
        AppMsg::Remove(id) => (
            app,
            seq![
                AppEffectView::ConfirmRemove {
                    id: id@,
                    text: removal_text(shown_name(app.rows, id@)),
                },
            ],
        ),
        AppMsg::ShowAbout => (app, seq![AppEffectView::ShowAbout]),
        AppMsg::ShowPreferences => (app, seq![AppEffectView::ShowPreferences]),
        AppMsg::SetLogsWrap(wrap) => (
            AppView { settings: Settings { logs_wrap: wrap, ..app.settings }, ..app },
            seq![AppEffectView::SaveSettings],
        ),
        AppMsg::SetLogsTimestamps(show) => (
            AppView { settings: Settings { logs_timestamps: show, ..app.settings }, ..app },
            seq![AppEffectView::SaveSettings],
        ),
        AppMsg::SetTheme(theme) => (
            AppView { settings: Settings { theme, ..app.settings }, ..app },
            seq![AppEffectView::SaveSettings, AppEffectView::ApplyTheme],
        ),
        AppMsg::ShowDetails(id) => {
            let i = row_of(app.rows, id@, 0);
            if app.connected && i < app.rows.len() {
                let (next, effects) = poll_stopped(AppView { detail_id: Some(id@), ..app });
                (
                    next,
                    seq![
                        AppEffectView::OpenDetail {
                            container: app.rows[i].container,
                            logs_wrap: app.settings.logs_wrap,
                            logs_timestamps: app.settings.logs_timestamps,
                        },
                    ] + effects,
                )
            } else {
                (app, Seq::empty())
            }
        },
        AppMsg::PageClosed => {
            let (next, effects) = poll_started(AppView { detail_id: None, ..app });
            (next, (seq![AppEffectView::CloseDetail] + effects).push(AppEffectView::PostRefresh))
        },
        AppMsg::SuspendedChanged(suspended) => if suspended {
            poll_stopped(app)
        } else {
            let (next, effects) = poll_started(app);
            (next, effects.push(AppEffectView::PostRefresh))
        },
        AppMsg::SearchChanged(query) => reconciled(AppView { query: query@, ..app }),
        AppMsg::Error(message) => (app, seq![AppEffectView::Toast(message@)]),
    }
}

/// The notice for an action that failed.
pub open spec fn failure_text(action: Action, name: Seq<char>, reason: Seq<char>) -> Seq<char> {
    "Couldn't "@ + action_verb(action) + " "@ + name + ": "@ + reason
}

/// How the app answers what comes back.
pub open spec fn app_received(app: AppView, msg: CommandMsg) -> (AppView, Seq<AppEffectView>) {
    match msg {
        CommandMsg::Connected(result) => match result {
            Ok(_) => {
                let (next, effects) = poll_started(
                    AppView { connected: true, state: ViewStateView::Ready, ..app },
                );
                (
                    next,
                    (seq![AppEffectView::EnableRefresh, AppEffectView::WatchSuspended]
                        + effects).push(AppEffectView::PostRefresh),
                )
            },
            Err(reason) => (
                AppView { state: ViewStateView::Disconnected(reason@), ..app },
                Seq::empty(),
            ),
        },
        CommandMsg::ContainersLoaded(containers) => {
            let (next, effects) = reconciled(AppView { all: containers_view(containers@), ..app });
            (AppView { refreshing: false, ..next }, effects)
        },
        CommandMsg::ActionDone { id, action, result } => {
            let (next, effects) = pending_set(app, id@, None);
            let failure = match result {
                Ok(_) => Seq::empty(),
                Err(reason) => seq![
                    AppEffectView::PostError(
                        failure_text(action, shown_name(next.rows, id@), reason@),
                    ),
                ],
            };
            let notice = if app.detail_id == Some(id@) {
                seq![AppEffectView::NotifyDetail(result is Ok)]
            } else {
                Seq::empty()
            };
            (next, (effects + failure + notice).push(AppEffectView::PostRefresh))
        },
        CommandMsg::ListFailed(reason) => (
            AppView { refreshing: false, ..app },
            seq![AppEffectView::PostError("Couldn't refresh: "@ + reason@)],
        ),
    }
}

// ---------------------------------------------------------------------------
// How the app answers.
// ---------------------------------------------------------------------------
/// Whether `needle` stands in `name` or in `image`, all three in lowercase; an empty one
/// does.
pub fn holds_needle(needle: &str, name: &str, image: &str) -> (r: bool)
    ensures
        r == needle_in(needle@, name@, image@),
{
    needle.is_empty() || text_contains(name, needle) || text_contains(image, needle)
}

/// Adds one effect behind those that are there.
fn push_effect(effects: &mut Vec<AppEffect>, effect: AppEffect)
    ensures
        app_effects_view(final(effects)@) == app_effects_view(old(effects)@).push(effect@),
{
    let ghost before = app_effects_view(effects@);
    let ghost added = effect@;
    effects.push(effect);
    proof {
        assert(app_effects_view(effects@) =~= before.push(added));
    }
}

impl AppModel {
    /// The app as it begins, and what it begins with: connecting.
    pub fn new(settings: Settings) -> (r: (AppModel, Vec<AppEffect>))
        ensures
            r.0@ == app_started(settings),
            app_effects_view(r.1@) == seq![AppEffectView::Connect],
    {
        let model = AppModel {
            connected: false,
            containers: Vec::new(),
            all_containers: Vec::new(),
            query: String::new(),
            state: ViewState::Loading,
            pending: Vec::new(),
            refreshing: false,
            polling: false,
            detail_id: None,
            settings,
        };
        let mut effects: Vec<AppEffect> = Vec::new();
        push_effect(&mut effects, AppEffect::Connect);
        proof {
            assert(model@ =~= app_started(settings));
            assert(app_effects_view(effects@) =~= seq![AppEffectView::Connect]);
        }
        (model, effects)
    }

    /// The first row of the container `id`; the number of rows where there is none.
    fn find_row(&self, id: &str) -> (r: usize)
        ensures
            r == row_of(self@.rows, id@, 0),
            r <= self.containers@.len(),
            r < self.containers@.len() ==> self.containers@[r as int]@.container.id == id@,
    {
        let mut i: usize = 0;
        while i < self.containers.len()
            invariant
                i <= self.containers@.len(),
                row_of(self@.rows, id@, 0) == row_of(self@.rows, id@, i as int),
            decreases self.containers@.len() - i,
        {
            proof {
                assert(self@.rows[i as int] == self.containers@[i as int]@);
            }
            if same_text(self.containers[i].id(), id) {
                return i;
            }
            i += 1;
        }
        i
    }

    /// The container's name, or a short id if its row has gone.
    pub fn name_of(&self, id: &str) -> (r: String)
        ensures
            r@ == shown_name(self@.rows, id@),
    {
        let i = self.find_row(id);
        if i < self.containers.len() {
            self.containers[i].name().to_owned()
        } else {
            prefix_of(id, SHORT_ID)
        }
    }

    /// Keeps track of an action that began or, with `None`, ended, and tells the row.
    fn set_pending(&mut self, id: &str, action: Option<Action>, effects: &mut Vec<AppEffect>)
        ensures
            final(self)@ == pending_set(old(self)@, id@, action).0,
            app_effects_view(final(effects)@) == app_effects_view(old(effects)@) + pending_set(
                old(self)@,
                id@,
                action,
            ).1,
    {
        let ghost app = self@;
        let ghost before = app_effects_view(effects@);
        let mut entries = remove_pending(&self.pending, id);
        match action {
            Some(action) => {
                let ghost others = entries@;
                entries.push((id.to_owned(), action));
                proof {
                    assert(entries@.drop_last() =~= others);
                    assert(app.pending.remove(id@).insert(id@, action) =~= app.pending.insert(
                        id@,
                        action,
                    ));
                }
            },
            None => {},
        }
        self.pending = entries;
        let i = self.find_row(id);
        if i < self.containers.len() {
            let pending = row_pending_of(action);
            let ghost was = self.containers@;
            self.containers[i].pending = pending;
            push_effect(effects, AppEffect::SetRowPending { index: i, pending });
            proof {
                assert(rows_view(self.containers@) =~= rows_view(was).update(
                    i as int,
                    ContainerRowView { pending, ..rows_view(was)[i as int] },
                ));
                assert(app_effects_view(effects@) =~= before + seq![
                    AppEffectView::SetRowPending { index: i as int, pending },
                ]);
            }
        } else {
            proof {
                assert(before + Seq::<AppEffectView>::empty() =~= before);
            }
        }
    }

    /// Sends an action off, and lets the row spin until it ends.
    fn dispatch(&mut self, id: String, action: Action, effects: &mut Vec<AppEffect>)
        ensures
            final(self)@ == dispatched(old(self)@, id@, action).0,
            app_effects_view(final(effects)@) == app_effects_view(old(effects)@) + dispatched(
                old(self)@,
                id@,
                action,
            ).1,
    {
        let ghost before = app_effects_view(effects@);
        if !self.connected {
            proof {
                assert(before + Seq::<AppEffectView>::empty() =~= before);
            }
            return;
        }
        let ghost some = pending_set(self@, id@, Some(action)).1;
        let ghost run = AppEffectView::RunAction { id: id@, action };
        self.set_pending(id.as_str(), Some(action), effects);
        push_effect(effects, AppEffect::RunAction { id, action });
        proof {
            assert((before + some).push(run) =~= before + some.push(run));
        }
    }

    /// Starts the poll, unless it runs already or there is nothing to poll.
    fn start_poll(&mut self, effects: &mut Vec<AppEffect>)
        ensures
            final(self)@ == poll_started(old(self)@).0,
            app_effects_view(final(effects)@) == app_effects_view(old(effects)@) + poll_started(
                old(self)@,
            ).1,
    {
        let ghost before = app_effects_view(effects@);
        if self.polling || !self.connected {
            proof {
                assert(before + Seq::<AppEffectView>::empty() =~= before);
            }
            return;
        }
        self.polling = true;
        push_effect(effects, AppEffect::StartPoll);
        proof {
            assert(app_effects_view(effects@) =~= before + seq![AppEffectView::StartPoll]);
        }
    }

    /// Takes the poll's timer away, so that it stops waking the machine.
    fn stop_poll(&mut self, effects: &mut Vec<AppEffect>)
        ensures
            final(self)@ == poll_stopped(old(self)@).0,
            app_effects_view(final(effects)@) == app_effects_view(old(effects)@) + poll_stopped(
                old(self)@,
            ).1,
    {
        let ghost before = app_effects_view(effects@);
        if self.polling {
            self.polling = false;
            push_effect(effects, AppEffect::StopPoll);
            proof {
                assert(app_effects_view(effects@) =~= before + seq![AppEffectView::StopPoll]);
            }
        } else {
            proof {
                assert(before + Seq::<AppEffectView>::empty() =~= before);
            }
        }
    }

    /// The containers that the search lets through.
    fn filtered(&self) -> (r: Vec<Container>)
        ensures
            containers_view(r@) == found(self@.query, self@.all),
    {
        let needle = lower(self.query.as_str());
        let ghost all = self@.all;
        let ghost lets_through = |container: ContainerView| found_by(self@.query, container);
        let mut out: Vec<Container> = Vec::new();
        let mut i: usize = 0;
        proof {
            reveal(Seq::filter);
            assert(containers_view(out@) =~= all.take(0).filter(lets_through));
        }
        while i < self.all_containers.len()
            invariant
                i <= self.all_containers@.len(),
                all == containers_view(self.all_containers@),
                lets_through == (|container: ContainerView| found_by(self.query@, container)),
                needle@ == lowered(self.query@),
                needle@.len() == 0 <==> self.query@.len() == 0,
                containers_view(out@) == all.take(i as int).filter(lets_through),
            decreases self.all_containers@.len() - i,
        {
            let container = &self.all_containers[i];
            let ghost before = out@;
            proof {
                assert(all.take(i + 1) =~= all.take(i as int).push(container@));
                lemma_filter_push(all.take(i as int), container@, lets_through);
            }
            if holds_needle(
                needle.as_str(),
                lower(container.name.as_str()).as_str(),
                lower(container.image.as_str()).as_str(),
            ) {
                out.push(container.clone());
                proof {
                    assert(containers_view(out@) =~= containers_view(before).push(container@));
                }
            }
            i += 1;
        }
        proof {
            assert(all.take(i as int) =~= all);
        }
        out
    }

    /// Whether the rows are those of `containers`, one by one.
    fn has_members(&self, containers: &Vec<Container>) -> (r: bool)
        ensures
            r == same_members(self@.rows, containers_view(containers@)),
    {
        if self.containers.len() != containers.len() {
            return false;
        }
        let mut i: usize = 0;
        while i < containers.len()
            invariant
                i <= containers@.len() == self.containers@.len(),
                forall|k: int|
                    0 <= k < i ==> (#[trigger] self@.rows[k]).container.id == containers_view(
                        containers@,
                    )[k].id,
            decreases containers@.len() - i,
        {
            proof {
                assert(self@.rows[i as int] == self.containers@[i as int]@);
                assert(containers_view(containers@)[i as int] == containers@[i as int]@);
            }
            if !same_text(self.containers[i].id(), containers[i].id.as_str()) {
                return false;
            }
            i += 1;
        }
        true
    }

    /// Hands each row its fresh data.
    fn update_rows(&mut self, containers: &Vec<Container>, effects: &mut Vec<AppEffect>)
        requires
            old(self).containers@.len() == containers@.len(),
        ensures
            final(self)@ == (AppView {
                rows: rows_updated(old(self)@.rows, containers_view(containers@)),
                ..old(self)@
            }),
            app_effects_view(final(effects)@) == app_effects_view(old(effects)@) + Seq::new(
                containers@.len(),
                |i: int|
                    AppEffectView::UpdateRow {
                        index: i,
                        container: containers_view(containers@)[i],
                    },
            ),
    {
        let ghost app = self@;
        let ghost before = app_effects_view(effects@);
        let ghost fresh = containers_view(containers@);
        let ghost target = rows_updated(app.rows, fresh);
        let ghost all = Seq::new(
            containers@.len(),
            |i: int| AppEffectView::UpdateRow { index: i, container: fresh[i] },
        );
        let mut i: usize = 0;
        proof {
            assert(before + all.take(0) =~= before);
        }
        while i < containers.len()
            invariant
                i <= containers@.len() == self.containers@.len() == app.rows.len(),
                fresh == containers_view(containers@),
                target == rows_updated(app.rows, fresh),
                all.len() == containers@.len(),
                forall|k: int|
                    0 <= k < all.len() ==> #[trigger] all[k] == (AppEffectView::UpdateRow {
                        index: k,
                        container: fresh[k],
                    }),
                self@ == (AppView { rows: self@.rows, ..app }),
                forall|k: int| 0 <= k < i ==> #[trigger] self@.rows[k] == target[k],
                forall|k: int| i <= k < app.rows.len() ==> #[trigger] self@.rows[k] == app.rows[k],
                app_effects_view(effects@) == before + all.take(i as int),
            decreases containers@.len() - i,
        {
            let ghost was = self.containers@;
            let ghost so_far = app_effects_view(effects@);
            proof {
                assert(rows_view(was)[i as int] == app.rows[i as int]);
            }
            self.containers[i].container = containers[i].clone();
            push_effect(
                effects,
                AppEffect::UpdateRow { index: i, container: containers[i].clone() },
            );
            proof {
                assert(rows_view(self.containers@) =~= rows_view(was).update(
                    i as int,
                    target[i as int],
                ));
                assert(so_far.push(all[i as int]) =~= before + all.take(i + 1));
            }
            i += 1;
        }
        proof {
            assert(self@.rows =~= target);
            assert(all.take(i as int) =~= all);
        }
    }

    /// Builds the rows of `containers` anew.
    fn rebuild_rows(&mut self, containers: &Vec<Container>, effects: &mut Vec<AppEffect>)
        ensures
            final(self)@ == (AppView {
                rows: rows_built(containers_view(containers@), old(self)@.pending),
                ..old(self)@
            }),
            app_effects_view(final(effects)@) == app_effects_view(old(effects)@).push(
                AppEffectView::RebuildRows(
                    rows_built(containers_view(containers@), old(self)@.pending),
                ),
            ),
    {
        let ghost target = rows_built(containers_view(containers@), self@.pending);
        let mut rows: Vec<ContainerRow> = Vec::new();
        let mut inits: Vec<ContainerRowInit> = Vec::new();
        let mut i: usize = 0;
        while i < containers.len()
            invariant
                i <= containers@.len(),
                rows@.len() == i,
                inits@.len() == i,
                target == rows_built(containers_view(containers@), pending_map(self.pending@)),
                forall|k: int| 0 <= k < i ==> (#[trigger] rows@[k])@ == target[k],
                forall|k: int|
                    0 <= k < i ==> target[k] == (ContainerRowView {
                        container: (#[trigger] inits@[k]).container@,
                        pending: inits@[k].pending,
                    }),
            decreases containers@.len() - i,
        {
            let pending = row_pending_of(find_pending(&self.pending, containers[i].id.as_str()));
            proof {
                assert(containers_view(containers@)[i as int] == containers@[i as int]@);
            }
            inits.push(ContainerRowInit { container: containers[i].clone(), pending });
            rows.push(
                ContainerRow::init_model(
                    ContainerRowInit { container: containers[i].clone(), pending },
                ),
            );
            i += 1;
        }
        proof {
            assert(rows_view(rows@) =~= target);
            assert(inits_view(inits@) =~= target);
        }
        self.containers = rows;
        push_effect(effects, AppEffect::RebuildRows(inits));
    }

    /// Brings the rows up to date with the containers and the search. Both a poll and a
    /// change of the search come here.
    fn apply_containers(&mut self, effects: &mut Vec<AppEffect>)
        ensures
            final(self)@ == reconciled(old(self)@).0,
            app_effects_view(final(effects)@) == app_effects_view(old(effects)@) + reconciled(
                old(self)@,
            ).1,
    {
        let ghost before = app_effects_view(effects@);
        let visible = self.filtered();
        if self.has_members(&visible) {
            self.update_rows(&visible, effects);
            proof {
                assert(app_effects_view(effects@) =~= before + reconciled(old(self)@).1);
            }
        } else {
            self.rebuild_rows(&visible, effects);
            proof {
                assert(app_effects_view(effects@) =~= before + reconciled(old(self)@).1);
            }
        }
    }
}

impl AppModel {
    /// Answers what happens in the window.
    pub fn update(&mut self, msg: AppMsg) -> (r: Vec<AppEffect>)
        ensures
            (final(self)@, app_effects_view(r@)) == app_updated(old(self)@, msg),
    {
        let ghost app = self@;
        let ghost answer = app_updated(app, msg);
        let mut effects: Vec<AppEffect> = Vec::new();
        proof {
            assert(app_effects_view(effects@) =~= Seq::empty());
        }
        match msg {
            AppMsg::ManualRefresh => {
                self.refreshing = true;
                push_effect(&mut effects, AppEffect::PostRefresh);
            },
            AppMsg::Refresh => {
                if self.connected {
                    push_effect(&mut effects, AppEffect::ListContainers);
                }
            },
            AppMsg::Start(id) => self.dispatch(id, Action::Start, &mut effects),
            AppMsg::Stop(id) => self.dispatch(id, Action::Stop, &mut effects),
            AppMsg::Restart(id) => self.dispatch(id, Action::Restart, &mut effects),
            AppMsg::RemoveConfirmed(id) => self.dispatch(id, Action::Remove, &mut effects),
            // It cannot be undone, so it asks first.
            AppMsg::Remove(id) => {
                let mut text = "“".to_owned();
                text.append(self.name_of(id.as_str()).as_str());
                text.append("” will be permanently removed. This can't be undone.");
                push_effect(&mut effects, AppEffect::ConfirmRemove { id, text });
            },
            AppMsg::ShowAbout => push_effect(&mut effects, AppEffect::ShowAbout),
            AppMsg::ShowPreferences => push_effect(&mut effects, AppEffect::ShowPreferences),
            AppMsg::SetLogsWrap(wrap) => {
                self.settings.logs_wrap = wrap;
                push_effect(&mut effects, AppEffect::SaveSettings);
            },
            AppMsg::SetLogsTimestamps(show) => {
                self.settings.logs_timestamps = show;
                push_effect(&mut effects, AppEffect::SaveSettings);
            },
            AppMsg::SetTheme(theme) => {
                self.settings.theme = theme;
                push_effect(&mut effects, AppEffect::SaveSettings);
                push_effect(&mut effects, AppEffect::ApplyTheme);
            },
            AppMsg::ShowDetails(id) => {
                if self.connected {
                    let i = self.find_row(id.as_str());
                    if i < self.containers.len() {
                        push_effect(
                            &mut effects,
                            AppEffect::OpenDetail {
                                container: self.containers[i].container().clone(),
                                logs_wrap: self.settings.logs_wrap,
                                logs_timestamps: self.settings.logs_timestamps,
                            },
                        );
                        self.detail_id = Some(id);
                        proof {
                            assert(self@ =~= AppView { detail_id: Some(id@), ..app });
                            assert(app.rows[i as int] == self.containers@[i as int]@);
                        }
                        self.stop_poll(&mut effects);
                    }
                }
            },
            AppMsg::PageClosed => {
                self.detail_id = None;
                push_effect(&mut effects, AppEffect::CloseDetail);
                self.start_poll(&mut effects);
                push_effect(&mut effects, AppEffect::PostRefresh);
            },
            AppMsg::SuspendedChanged(suspended) => {
                if suspended {
                    self.stop_poll(&mut effects);
                } else {
                    self.start_poll(&mut effects);
                    // What is on screen is as old as the pause was long.
                    push_effect(&mut effects, AppEffect::PostRefresh);
                }
            },
            AppMsg::SearchChanged(query) => {
                self.query = query;
                self.apply_containers(&mut effects);
            },
            AppMsg::Error(message) => push_effect(&mut effects, AppEffect::Toast(message)),
        }
        proof {
            assert(self@ =~= answer.0);
            assert(app_effects_view(effects@) =~= answer.1);
        }
        effects
    }

    /// Answers what comes back.
    pub fn update_cmd(&mut self, msg: CommandMsg) -> (r: Vec<AppEffect>)
        ensures
            (final(self)@, app_effects_view(r@)) == app_received(old(self)@, msg),
    {
        let ghost app = self@;
        let ghost answer = app_received(app, msg);
        let mut effects: Vec<AppEffect> = Vec::new();
        proof {
            assert(app_effects_view(effects@) =~= Seq::empty());
        }
        match msg {
            CommandMsg::Connected(Ok(_)) => {
                self.connected = true;
                self.state = ViewState::Ready;
                push_effect(&mut effects, AppEffect::EnableRefresh);
                push_effect(&mut effects, AppEffect::WatchSuspended);
                self.start_poll(&mut effects);
                push_effect(&mut effects, AppEffect::PostRefresh);
            },
            CommandMsg::Connected(Err(reason)) => {
                self.state = ViewState::Disconnected(reason);
            },
            CommandMsg::ContainersLoaded(containers) => {
                self.all_containers = containers;
                self.apply_containers(&mut effects);
                self.refreshing = false;
            },
            CommandMsg::ActionDone { id, action, result } => {
                self.set_pending(id.as_str(), None, &mut effects);
                let ok = result.is_ok();
                match result {
                    Ok(_) => {},
                    Err(reason) => {
                        // The container's name tells more than its id.
                        let mut text = "Couldn't ".to_owned();
                        text.append(action.verb());
                        text.append(" ");
                        text.append(self.name_of(id.as_str()).as_str());
                        text.append(": ");
                        text.append(reason.as_str());
                        push_effect(&mut effects, AppEffect::PostError(text));
                    },
                }
                let shown = match &self.detail_id {
                    Some(detail) => same_text(detail.as_str(), id.as_str()),
                    None => false,
                };
                if shown {
                    push_effect(&mut effects, AppEffect::NotifyDetail(ok));
                }
                // The user asked for this, so it shows now and not at the next tick.
                push_effect(&mut effects, AppEffect::PostRefresh);
            },
            CommandMsg::ListFailed(reason) => {
                self.refreshing = false;
                let mut text = "Couldn't refresh: ".to_owned();
                text.append(reason.as_str());
                push_effect(&mut effects, AppEffect::PostError(text));
            },
        }
        proof {
            assert(self@ =~= answer.0);
            assert(app_effects_view(effects@) =~= answer.1);
        }
        effects
    }
}

// ---------------------------------------------------------------------------
// What the window shows.
// ---------------------------------------------------------------------------
/// How many containers run.
pub open spec fn running_count(all: Seq<ContainerView>) -> nat
    decreases all.len(),
{
    if all.len() == 0 {
        0
    } else {
        running_count(all.drop_last()) + (if all.last().state.running() {
            1nat
        } else {
            0nat
        })
    }
}

/// What stands under the title: how many containers there are and how many run. Nothing
/// until there is a connection.
pub open spec fn header_text(state: ViewStateView, all: Seq<ContainerView>) -> Seq<char> {
    if !(state is Ready) {
        Seq::empty()
    } else if all.len() == 0 {
        "No containers"@
    } else if all.len() == 1 {
        "1 container · "@ + decimal(running_count(all)) + " running"@
    } else {
        decimal(all.len()) + " containers · "@ + decimal(running_count(all)) + " running"@
    }
}

/// The name of the page in the middle of the window.
pub open spec fn page_name(app: AppView) -> Seq<char> {
    if app.all.len() == 0 {
        "empty"@
    } else if app.rows.len() == 0 {
        "no-results"@
    } else {
        "list"@
    }
}

impl AppModel {
    /// What stands under the title. It counts all containers, whatever the search lets
    /// through.
    pub fn header_subtitle(&self) -> (r: String)
        ensures
            r@ == header_text(self@.state, self@.all),
    {
        match self.state {
            ViewState::Ready => {},
            _ => {
                return String::new();
            },
        }
        let ghost all = self@.all;
        let total = self.all_containers.len();
        let mut running: usize = 0;
        let mut i: usize = 0;
        proof {
            assert(all.take(0) =~= Seq::empty());
        }
        while i < total
            invariant
                i <= total == self.all_containers@.len(),
                all == containers_view(self.all_containers@),
                running == running_count(all.take(i as int)),
                running <= i,
            decreases total - i,
        {
            proof {
                assert(all.take(i + 1).drop_last() =~= all.take(i as int));
                assert(all.take(i + 1).last() == self.all_containers@[i as int]@);
            }
            if self.all_containers[i].state.is_running() {
                running += 1;
            }
            i += 1;
        }
        proof {
            assert(all.take(i as int) =~= all);
        }
        if total == 0 {
            return "No containers".to_owned();
        }
        let mut out = if total == 1 {
            "1 container · ".to_owned()
        } else {
            let mut out = decimal_of(total as u64);
            out.append(" containers · ");
            out
        };
        out.append(decimal_of(running as u64).as_str());
        out.append(" running");
        out
    }

    /// Which page to show: that there are no containers, that none matches the search, or
    /// the list.
    pub fn list_page(&self) -> (r: &'static str)
        ensures
            r@ == page_name(self@),
    {
        if self.all_containers.len() == 0 {
            "empty"
        } else if self.containers.len() == 0 {
            "no-results"
        } else {
            "list"
        }
    }

    /// What the page for a search without matches says.
    pub fn no_results_text(&self) -> (r: String)
        ensures
            r@ == "No containers match “"@ + self@.query + "”."@,
    {
        let mut out = "No containers match “".to_owned();
        out.append(self.query.as_str());
        out.append("”.");
        out
    }
}

// ---------------------------------------------------------------------------
// What the parts of the window mean to the app.
// ---------------------------------------------------------------------------
/// What a row asks for.
pub fn row_message(output: ContainerRowOutput) -> (r: AppMsg)
    ensures
        r == match output {
            ContainerRowOutput::Start(id) => AppMsg::Start(id),
            ContainerRowOutput::Stop(id) => AppMsg::Stop(id),
            ContainerRowOutput::Restart(id) => AppMsg::Restart(id),
            ContainerRowOutput::Remove(id) => AppMsg::Remove(id),
            ContainerRowOutput::ShowDetails(id) => AppMsg::ShowDetails(id),
        },
{
    match output {
        ContainerRowOutput::Start(id) => AppMsg::Start(id),
        ContainerRowOutput::Stop(id) => AppMsg::Stop(id),
        ContainerRowOutput::Restart(id) => AppMsg::Restart(id),
        ContainerRowOutput::Remove(id) => AppMsg::Remove(id),
        ContainerRowOutput::ShowDetails(id) => AppMsg::ShowDetails(id),
    }
}

/// What the detail page asks for.
pub fn detail_message(output: DetailOutput) -> (r: AppMsg)
    ensures
        r == match output {
            DetailOutput::Start(id) => AppMsg::Start(id),
            DetailOutput::Stop(id) => AppMsg::Stop(id),
        },
{
    match output {
        DetailOutput::Start(id) => AppMsg::Start(id),
        DetailOutput::Stop(id) => AppMsg::Stop(id),
    }
}

/// What the reply to the question for all containers means to the app.
pub fn listed(reply: Result<Vec<Container>, String>) -> (r: CommandMsg)
    ensures
        r == match reply {
            Ok(containers) => CommandMsg::ContainersLoaded(containers),
            Err(reason) => CommandMsg::ListFailed(reason),
        },
{
    match reply {
        Ok(containers) => CommandMsg::ContainersLoaded(containers),
        Err(reason) => CommandMsg::ListFailed(reason),
    }
}

/// What the answer to the question before a removal means: only "remove" removes.
pub fn remove_response(response: &str, id: String) -> (r: Option<AppMsg>)
    ensures
        r == (if response@ == "remove"@ {
            Some(AppMsg::RemoveConfirmed(id))
        } else {
            None
        }),
{
    if same_text(response, "remove") {
        Some(AppMsg::RemoveConfirmed(id))
    } else {
        None
    }
}

// ---------------------------------------------------------------------------
// What holds of the app, whatever happens.
// ---------------------------------------------------------------------------
/// Whether no two containers have the same id.
pub open spec fn distinct_ids(containers: Seq<ContainerView>) -> bool {
    forall|i: int, j: int|
        0 <= i < j < containers.len() ==> (#[trigger] containers[i]).id != (
        #[trigger] containers[j]).id
}

/// The containers of rows.
pub open spec fn row_containers(rows: Seq<ContainerRowView>) -> Seq<ContainerView> {
    Seq::new(rows.len(), |i: int| rows[i].container)
}

/// Whether each row shows what is under way for its container.
pub open spec fn rows_show_pending(app: AppView) -> bool {
    forall|i: int|
        0 <= i < app.rows.len() ==> (#[trigger] app.rows[i]).pending == pending_kinds(
            pending_for(app.pending, app.rows[i].container.id),
        )
}

/// What holds of the app at all times: no container twice, a row for exactly what the
/// search lets through, each with what is under way for it, and neither a poll nor a
/// ready window without a connection.
pub open spec fn app_sound(app: AppView) -> bool {
    &&& distinct_ids(app.all)
    &&& row_containers(app.rows) == found(app.query, app.all)
    &&& rows_show_pending(app)
    &&& app.polling ==> app.connected
    &&& app.state is Ready ==> app.connected
}

proof fn lemma_row_of(rows: Seq<ContainerRowView>, id: Seq<char>, from: int)
    requires
        0 <= from <= rows.len(),
    ensures
        from <= row_of(rows, id, from) <= rows.len(),
        row_of(rows, id, from) < rows.len() ==> rows[row_of(rows, id, from)].container.id == id,
        forall|k: int|
            from <= k < row_of(rows, id, from) ==> (#[trigger] rows[k]).container.id != id,
    decreases rows.len() - from,
{
    if from < rows.len() && rows[from].container.id != id {
        lemma_row_of(rows, id, from + 1);
    }
}

proof fn lemma_filter_distinct(s: Seq<ContainerView>, p: spec_fn(ContainerView) -> bool)
    requires
        distinct_ids(s),
    ensures
        distinct_ids(s.filter(p)),
    decreases s.len(),
{
    reveal(Seq::filter);
    if s.len() > 0 {
        let shorter = s.drop_last();
        assert(distinct_ids(shorter)) by {
            assert forall|i: int, j: int| 0 <= i < j < shorter.len() implies (
            #[trigger] shorter[i]).id != (#[trigger] shorter[j]).id by {
                assert(s[i].id != s[j].id);
            }
        }
        lemma_filter_distinct(shorter, p);
        let kept = shorter.filter(p);
        let all = s.filter(p);
        assert forall|i: int, j: int| 0 <= i < j < all.len() implies (#[trigger] all[i]).id != (
        #[trigger] all[j]).id by {
            assert(all[i] == kept[i]);
            if j < kept.len() {
                assert(all[j] == kept[j]);
            } else {
                shorter.lemma_filter_contains_rev(p, kept[i]);
                let k = choose|k: int| 0 <= k < shorter.len() && shorter[k] == kept[i];
                assert(s[k].id != s[s.len() - 1].id);
            }
        }
    }
}

proof fn lemma_pending_set_sound(app: AppView, id: Seq<char>, action: Option<Action>)
    requires
        app_sound(app),
    ensures
        app_sound(pending_set(app, id, action).0),
{
    let next = pending_set(app, id, action).0;
    let i = row_of(app.rows, id, 0);
    lemma_row_of(app.rows, id, 0);
    lemma_filter_distinct(app.all, |container: ContainerView| found_by(app.query, container));
    assert(row_containers(next.rows) =~= row_containers(app.rows));
    assert forall|k: int| 0 <= k < next.rows.len() implies (#[trigger] next.rows[k]).pending
        == pending_kinds(pending_for(next.pending, next.rows[k].container.id)) by {
        let _ = app.rows[k];
        if k != i {
            if i < app.rows.len() {
                let a = row_containers(app.rows);
                if k < i {
                    assert(a[k].id != a[i].id);
                } else {
                    assert(a[i].id != a[k].id);
                }
            }
            assert(app.rows[k].container.id != id);
        }
    }
}

proof fn lemma_reconciled_sound(app: AppView)
    requires
        distinct_ids(app.all),
        rows_show_pending(app),
        app.polling ==> app.connected,
        app.state is Ready ==> app.connected,
    ensures
        app_sound(reconciled(app).0),
{
    let visible = found(app.query, app.all);
    let next = reconciled(app).0;
    assert(row_containers(next.rows) =~= visible);
    if same_members(app.rows, visible) {
        assert forall|k: int| 0 <= k < next.rows.len() implies (#[trigger] next.rows[k]).pending
            == pending_kinds(pending_for(next.pending, next.rows[k].container.id)) by {
            assert(app.rows[k].container.id == visible[k].id);
        }
    }
}

/// The app is sound when it begins.
pub proof fn app_begins_sound(settings: Settings)
    ensures
        app_sound(app_started(settings)),
{
    let app = app_started(settings);
    reveal(Seq::filter);
    assert(row_containers(app.rows) =~= found(app.query, app.all));
}

/// The app stays sound, whatever happens, as long as the daemon does not list two
/// containers under one id.
pub proof fn app_stays_sound(app: AppView, msg: AppMsg, cmd: CommandMsg)
    requires
        app_sound(app),
        cmd matches CommandMsg::ContainersLoaded(containers) ==> distinct_ids(
            containers_view(containers@),
        ),
    ensures
        app_sound(app_updated(app, msg).0),
        app_sound(app_received(app, cmd).0),
{
    match msg {
        AppMsg::Start(id) => lemma_pending_set_sound(app, id@, Some(Action::Start)),
        AppMsg::Stop(id) => lemma_pending_set_sound(app, id@, Some(Action::Stop)),
        AppMsg::Restart(id) => lemma_pending_set_sound(app, id@, Some(Action::Restart)),
        AppMsg::RemoveConfirmed(id) => lemma_pending_set_sound(app, id@, Some(Action::Remove)),
        AppMsg::SearchChanged(query) => lemma_reconciled_sound(AppView { query: query@, ..app }),
        _ => {},
    }
    match cmd {
        CommandMsg::ContainersLoaded(containers) => {
            lemma_reconciled_sound(AppView { all: containers_view(containers@), ..app });
        },
        CommandMsg::ActionDone { id, action, result } => lemma_pending_set_sound(app, id@, None),
        _ => {},
    }
}

/// What an effect does to the rows on screen.
pub open spec fn shown_row_effect(
    rows: Seq<ContainerRowView>,
    effect: AppEffectView,
) -> Seq<ContainerRowView> {
    match effect {
        AppEffectView::UpdateRow { index, container } => rows.update(
            index,
            ContainerRowView { container, ..rows[index] },
        ),
        AppEffectView::SetRowPending { index, pending } => rows.update(
            index,
            ContainerRowView { pending, ..rows[index] },
        ),
        AppEffectView::RebuildRows(built) => built,
        _ => rows,
    }
}

/// What effects do to the rows on screen, one after the other.
pub open spec fn shown_rows(
    rows: Seq<ContainerRowView>,
    effects: Seq<AppEffectView>,
) -> Seq<ContainerRowView>
    decreases effects.len(),
{
    if effects.len() == 0 {
        rows
    } else {
        shown_row_effect(shown_rows(rows, effects.drop_last()), effects.last())
    }
}

/// Whether an effect is about the rows on screen.
pub open spec fn concerns_rows(effect: AppEffectView) -> bool {
    effect is UpdateRow || effect is SetRowPending || effect is RebuildRows
}

proof fn lemma_shown_rows_same(rows: Seq<ContainerRowView>, effects: Seq<AppEffectView>)
    requires
        forall|i: int| 0 <= i < effects.len() ==> !concerns_rows(#[trigger] effects[i]),
    ensures
        shown_rows(rows, effects) == rows,
    decreases effects.len(),
{
    if effects.len() > 0 {
        let fewer = effects.drop_last();
        assert forall|i: int| 0 <= i < fewer.len() implies !concerns_rows(#[trigger] fewer[i]) by {
            assert(fewer[i] == effects[i]);
        }
        lemma_shown_rows_same(rows, fewer);
    }
}

proof fn lemma_shown_rows_add(
    rows: Seq<ContainerRowView>,
    a: Seq<AppEffectView>,
    b: Seq<AppEffectView>,
)
    requires
        forall|i: int| 0 <= i < b.len() ==> !concerns_rows(#[trigger] b[i]),
    ensures
        shown_rows(rows, a + b) == shown_rows(rows, a),
    decreases b.len(),
{
    if b.len() == 0 {
        assert(a + b =~= a);
    } else {
        let fewer = b.drop_last();
        assert forall|i: int| 0 <= i < fewer.len() implies !concerns_rows(#[trigger] fewer[i]) by {
            assert(fewer[i] == b[i]);
        }
        lemma_shown_rows_add(rows, a, fewer);
        assert((a + b).drop_last() =~= a + fewer);
        assert((a + b).last() == b[b.len() - 1]);
    }
}

proof fn lemma_shown_updates(
    rows: Seq<ContainerRowView>,
    containers: Seq<ContainerView>,
    effects: Seq<AppEffectView>,
    n: int,
)
    requires
        rows.len() == containers.len() == effects.len(),
        0 <= n <= rows.len(),
        forall|i: int|
            0 <= i < effects.len() ==> #[trigger] effects[i] == (AppEffectView::UpdateRow {
                index: i,
                container: containers[i],
            }),
    ensures
        shown_rows(rows, effects.take(n)) == rows_updated(rows, containers).take(n) + rows.skip(n),
    decreases n,
{
    let target = rows_updated(rows, containers);
    if n == 0 {
        assert(effects.take(0) =~= Seq::empty());
        assert(target.take(0) + rows.skip(0) =~= rows);
    } else {
        lemma_shown_updates(rows, containers, effects, n - 1);
        assert(effects.take(n).drop_last() =~= effects.take(n - 1));
        assert(effects.take(n).last() == effects[n - 1]);
        let before = target.take(n - 1) + rows.skip(n - 1);
        assert(before[n - 1] == rows[n - 1]);
        assert(before.update(n - 1, target[n - 1]) =~= target.take(n) + rows.skip(n));
    }
}

proof fn lemma_reconciled_shows(app: AppView)
    ensures
        shown_rows(app.rows, reconciled(app).1) == reconciled(app).0.rows,
{
    let visible = found(app.query, app.all);
    let (next, effects) = reconciled(app);
    if same_members(app.rows, visible) {
        lemma_shown_updates(app.rows, visible, effects, effects.len() as int);
        assert(effects.take(effects.len() as int) =~= effects);
        assert(next.rows.take(next.rows.len() as int) + app.rows.skip(app.rows.len() as int)
            =~= next.rows);
    } else {
        assert(effects.drop_last() =~= Seq::<AppEffectView>::empty());
    }
}

proof fn lemma_pending_set_shows(app: AppView, id: Seq<char>, action: Option<Action>)
    ensures
        shown_rows(app.rows, pending_set(app, id, action).1) == pending_set(app, id, action).0.rows,
{
    let effects = pending_set(app, id, action).1;
    if effects.len() > 0 {
        assert(effects.drop_last() =~= Seq::<AppEffectView>::empty());
        assert(shown_rows(app.rows, effects.drop_last()) == app.rows);
    }
}

/// The rows on screen are always the rows of the app.
pub proof fn screen_follows_the_rows(app: AppView, msg: AppMsg, cmd: CommandMsg)
    ensures
        shown_rows(app.rows, app_updated(app, msg).1) == app_updated(app, msg).0.rows,
        shown_rows(app.rows, app_received(app, cmd).1) == app_received(app, cmd).0.rows,
{
    match msg {
        AppMsg::Start(id) => lemma_dispatched_shows(app, id@, Action::Start),
        AppMsg::Stop(id) => lemma_dispatched_shows(app, id@, Action::Stop),
        AppMsg::Restart(id) => lemma_dispatched_shows(app, id@, Action::Restart),
        AppMsg::RemoveConfirmed(id) => lemma_dispatched_shows(app, id@, Action::Remove),
        AppMsg::SearchChanged(query) => lemma_reconciled_shows(AppView { query: query@, ..app }),
        _ => lemma_shown_rows_same(app.rows, app_updated(app, msg).1),
    }
    match cmd {
        CommandMsg::ContainersLoaded(containers) => {
            lemma_reconciled_shows(AppView { all: containers_view(containers@), ..app });
        },
        CommandMsg::ActionDone { id, action, result } => {
            let (next, effects) = pending_set(app, id@, None);
            let all = app_received(app, cmd).1;
            lemma_pending_set_shows(app, id@, None);
            let rest = all.skip(effects.len() as int);
            assert(all =~= effects + rest);
            assert forall|i: int| 0 <= i < rest.len() implies !concerns_rows(#[trigger] rest[i]) by {
                assert(rest[i] == all[effects.len() + i]);
            }
            lemma_shown_rows_add(app.rows, effects, rest);
        },
        _ => lemma_shown_rows_same(app.rows, app_received(app, cmd).1),
    }
}

proof fn lemma_dispatched_shows(app: AppView, id: Seq<char>, action: Action)
    ensures
        shown_rows(app.rows, dispatched(app, id, action).1) == dispatched(app, id, action).0.rows,
{
    if app.connected {
        let effects = pending_set(app, id, Some(action)).1;
        let run = AppEffectView::RunAction { id, action };
        lemma_pending_set_shows(app, id, Some(action));
        assert(effects.push(run).drop_last() =~= effects);
    }
}

/// Whether the poll's timer runs after effects were carried out; `None` where one of them
/// would start a second timer or take away one that is not there.
pub open spec fn timer_after(running: bool, effects: Seq<AppEffectView>) -> Option<bool>
    decreases effects.len(),
{
    if effects.len() == 0 {
        Some(running)
    } else {
        match timer_after(running, effects.drop_last()) {
            None => None,
            Some(running) => match effects.last() {
                AppEffectView::StartPoll => if running {
                    None
                } else {
                    Some(true)
                },
                AppEffectView::StopPoll => if running {
                    Some(false)
                } else {
                    None
                },
                _ => Some(running),
            },
        }
    }
}

/// Whether an effect is about the poll's timer.
pub open spec fn concerns_timer(effect: AppEffectView) -> bool {
    effect is StartPoll || effect is StopPoll
}

proof fn lemma_timer_same(running: bool, effects: Seq<AppEffectView>)
    requires
        forall|i: int| 0 <= i < effects.len() ==> !concerns_timer(#[trigger] effects[i]),
    ensures
        timer_after(running, effects) == Some(running),
    decreases effects.len(),
{
    if effects.len() > 0 {
        let fewer = effects.drop_last();
        assert forall|i: int| 0 <= i < fewer.len() implies !concerns_timer(#[trigger] fewer[i]) by {
            assert(fewer[i] == effects[i]);
        }
        lemma_timer_same(running, fewer);
    }
}

/// Effects of which only the one at `k` is about the timer.
proof fn lemma_timer_once(running: bool, effects: Seq<AppEffectView>, k: int)
    requires
        0 <= k < effects.len(),
        forall|i: int|
            0 <= i < effects.len() && i != k ==> !concerns_timer(#[trigger] effects[i]),
    ensures
        timer_after(running, effects) == timer_after(running, seq![effects[k]]),
    decreases effects.len(),
{
    let fewer = effects.drop_last();
    let one = seq![effects[k]];
    assert(one.drop_last() =~= Seq::<AppEffectView>::empty());
    assert(timer_after(running, one.drop_last()) == Some(running));
    if k == effects.len() - 1 {
        assert forall|i: int| 0 <= i < fewer.len() implies !concerns_timer(#[trigger] fewer[i]) by {
            assert(fewer[i] == effects[i]);
        }
        lemma_timer_same(running, fewer);
    } else {
        assert forall|i: int| 0 <= i < fewer.len() && i != k implies !concerns_timer(
            #[trigger] fewer[i],
        ) by {
            assert(fewer[i] == effects[i]);
        }
        assert(fewer[k] == effects[k]);
        lemma_timer_once(running, fewer, k);
        assert(!concerns_timer(effects[effects.len() - 1]));
    }
}

proof fn lemma_timer(before: bool, after: bool, effects: Seq<AppEffectView>, k: int)
    requires
        before == after ==> forall|i: int|
            0 <= i < effects.len() ==> !concerns_timer(#[trigger] effects[i]),
        before != after ==> {
            &&& 0 <= k < effects.len()
            &&& effects[k] == if after {
                AppEffectView::StartPoll
            } else {
                AppEffectView::StopPoll
            }
            &&& forall|i: int|
                0 <= i < effects.len() && i != k ==> !concerns_timer(#[trigger] effects[i])
        },
    ensures
        timer_after(before, effects) == Some(after),
{
    if before == after {
        lemma_timer_same(before, effects);
    } else {
        lemma_timer_once(before, effects, k);
        let one = seq![effects[k]];
        assert(one.drop_last() =~= Seq::<AppEffectView>::empty());
        assert(timer_after(before, one.drop_last()) == Some(before));
    }
}

/// The timer always runs when the app says so: a second one is never started, and none
/// is taken away twice.
pub proof fn timer_follows_the_app(app: AppView, msg: AppMsg, cmd: CommandMsg)
    ensures
        timer_after(app.polling, app_updated(app, msg).1) == Some(app_updated(app, msg).0.polling),
        timer_after(app.polling, app_received(app, cmd).1) == Some(
            app_received(app, cmd).0.polling,
        ),
{
    let (next, effects) = app_updated(app, msg);
    let k = match msg {
        AppMsg::ShowDetails(_) => 1int,
        AppMsg::PageClosed => 1int,
        _ => 0int,
    };
    lemma_timer(app.polling, next.polling, effects, k);
    let (after, more) = app_received(app, cmd);
    lemma_timer(app.polling, after.polling, more, 2);
}

/// Whether an effect asks something of the daemon.
pub open spec fn asks_daemon(effect: AppEffectView) -> bool {
    effect is ListContainers || effect is RunAction || effect is OpenDetail
}

/// Without a connection the daemon is asked for nothing, and no action is under way that
/// was not before.
pub proof fn nothing_happens_without_a_connection(app: AppView, msg: AppMsg)
    requires
        !app.connected,
    ensures
        app_updated(app, msg).1.all(|effect: AppEffectView| !asks_daemon(effect)),
        app_updated(app, msg).0.pending == app.pending,
{
}

/// A container is removed only after the user said yes: nothing else sends that action
/// off, least of all the wish to remove.
pub proof fn removal_needs_a_yes(app: AppView, msg: AppMsg, cmd: CommandMsg, id: Seq<char>)
    ensures
        app_updated(app, msg).1.contains(AppEffectView::RunAction { id, action: Action::Remove })
            ==> msg is RemoveConfirmed && msg->RemoveConfirmed_0@ == id,
        !app_received(app, cmd).1.contains(
            AppEffectView::RunAction { id, action: Action::Remove },
        ),
        msg is Remove ==> app_updated(app, msg).0 == app,
{
    let run = AppEffectView::RunAction { id, action: Action::Remove };
    let effects = app_updated(app, msg).1;
    if effects.contains(run) {
        let k = choose|k: int| 0 <= k < effects.len() && effects[k] == run;
        assert(effects[k] == run);
    }
    let more = app_received(app, cmd).1;
    if more.contains(run) {
        let k = choose|k: int| 0 <= k < more.len() && more[k] == run;
        assert(more[k] == run);
    }
}

/// The poll is silent: a tick changes nothing. Only the user's own refresh shows, and it
/// stops showing when the containers come or cannot be had.
pub proof fn poll_is_silent(app: AppView, msg: AppMsg, containers: Vec<Container>, reason: String)
    ensures
        app_updated(app, AppMsg::Refresh).0 == app,
        app_updated(app, AppMsg::ManualRefresh).0.refreshing,
        app_updated(app, msg).0.refreshing && !app.refreshing ==> msg is ManualRefresh,
        !app_received(app, CommandMsg::ContainersLoaded(containers)).0.refreshing,
        !app_received(app, CommandMsg::ListFailed(reason)).0.refreshing,
{
}

/// When an action ends it is no longer under way, other actions still are, and the list
/// is refreshed at once. The detail page hears of it exactly if it is of that container.
pub proof fn action_done_refreshes_at_once(
    app: AppView,
    id: String,
    action: Action,
    result: Result<(), String>,
)
    ensures
        ({
            let (next, effects) = app_received(app, CommandMsg::ActionDone { id, action, result });
            &&& next.pending == app.pending.remove(id@)
            &&& effects.len() > 0
            &&& effects.last() == AppEffectView::PostRefresh
            &&& effects.contains(AppEffectView::NotifyDetail(result is Ok)) <==> app.detail_id
                == Some(id@)
        }),
{
    let cmd = CommandMsg::ActionDone { id, action, result };
    let effects = app_received(app, cmd).1;
    let notice = AppEffectView::NotifyDetail(result is Ok);
    if app.detail_id == Some(id@) {
        assert(effects[effects.len() - 2] == notice);
    } else if effects.contains(notice) {
        let k = choose|k: int| 0 <= k < effects.len() && effects[k] == notice;
        assert(effects[k] == notice);
    }
}

/// An action that was sent off is under way until it ends, whatever the poll brings.
pub proof fn dispatched_action_is_pending(app: AppView, id: Seq<char>, action: Action, containers:
    Vec<Container>)
    requires
        app.connected,
    ensures
        pending_for(dispatched(app, id, action).0.pending, id) == Some(action),
        app_received(
            dispatched(app, id, action).0,
            CommandMsg::ContainersLoaded(containers),
        ).0.pending == dispatched(app, id, action).0.pending,
{
}

/// An empty search lets every container through, in its order.
pub proof fn empty_search_shows_all(all: Seq<ContainerView>)
    ensures
        found(Seq::empty(), all) == all,
    decreases all.len(),
{
    reveal(Seq::filter);
    if all.len() > 0 {
        empty_search_shows_all(all.drop_last());
        assert(all.drop_last().push(all.last()) =~= all);
    } else {
        assert(found(Seq::empty(), all) =~= all);
    }
}

/// A search does not depend on the case in which it is typed: two searches with one
/// lowercase form find the same, as long as neither is empty or both are.
pub proof fn search_ignores_case(a: Seq<char>, b: Seq<char>, all: Seq<ContainerView>)
    requires
        lowered(a) == lowered(b),
        a.len() == 0 <==> b.len() == 0,
    ensures
        found(a, all) == found(b, all),
{
    assert((|container: ContainerView| found_by(a, container)) =~= (|container: ContainerView|
        found_by(b, container)));
}

/// A search in ASCII does not depend on the case of its letters.
pub proof fn search_ignores_ascii_case(a: Seq<char>, b: Seq<char>, all: Seq<ContainerView>)
    requires
        is_ascii_chars(a),
        is_ascii_chars(b),
        ascii_lowered(a) == ascii_lowered(b),
    ensures
        found(a, all) == found(b, all),
{
    assert(ascii_lowered(a).len() == a.len());
    assert(ascii_lowered(b).len() == b.len());
    search_ignores_case(a, b, all);
}

/// A poll that brings the same containers leaves the rows where they are: none is thrown
/// away, and each gets its fresh data.
pub proof fn poll_keeps_the_rows(app: AppView, containers: Vec<Container>)
    requires
        same_members(app.rows, found(app.query, containers_view(containers@))),
    ensures
        app_received(app, CommandMsg::ContainersLoaded(containers)).1.all(
            |effect: AppEffectView| effect is UpdateRow,
        ),
        row_containers(app_received(app, CommandMsg::ContainersLoaded(containers)).0.rows) == found(
            app.query,
            containers_view(containers@),
        ),
{
    assert(row_containers(app_received(app, CommandMsg::ContainersLoaded(containers)).0.rows)
        =~= found(app.query, containers_view(containers@)));
}

/// The rows of a fresh list stand by name, whatever the search.
pub proof fn rows_stand_by_name(
    app: AppView,
    summaries: Seq<ContainerSummary>,
    containers: Vec<Container>,
)
    requires
        containers_view(containers@) == container_list(summaries),
    ensures
        in_order(
            row_containers(app_received(app, CommandMsg::ContainersLoaded(containers)).0.rows),
            name_leq(),
        ),
{
    let visible = found(app.query, containers_view(containers@));
    container_list_is_sorted_and_complete(summaries);
    lemma_filter_in_order(
        containers_view(containers@),
        |container: ContainerView| found_by(app.query, container),
        name_leq(),
    );
    assert(row_containers(app_received(app, CommandMsg::ContainersLoaded(containers)).0.rows)
        =~= visible);
}

/// Every change of the settings is stored, and a change of the theme shows at once.
pub proof fn settings_changes_are_stored(app: AppView, msg: AppMsg, cmd: CommandMsg)
    ensures
        ({
            let (next, effects) = app_updated(app, msg);
            &&& next.settings != app.settings ==> effects.contains(AppEffectView::SaveSettings)
            &&& next.settings.theme != app.settings.theme ==> effects.contains(
                AppEffectView::ApplyTheme,
            )
        }),
        app_received(app, cmd).0.settings == app.settings,
{
    let effects = app_updated(app, msg).1;
    if msg is SetLogsWrap || msg is SetLogsTimestamps || msg is SetTheme {
        assert(effects[0] == AppEffectView::SaveSettings);
    }
    if msg is SetTheme {
        assert(effects[1] == AppEffectView::ApplyTheme);
    }
}

/// Whether a message says that there is a connection now.
pub open spec fn brings_connection(cmd: CommandMsg) -> bool {
    cmd matches CommandMsg::Connected(result) && result is Ok
}

/// The user can ask for a refresh exactly from the moment on when there is a connection.
pub proof fn connection_enables_refresh(app: AppView, msg: AppMsg, cmd: CommandMsg)
    ensures
        !app_updated(app, msg).1.contains(AppEffectView::EnableRefresh),
        app_received(app, cmd).1.contains(AppEffectView::EnableRefresh) <==> brings_connection(
            cmd,
        ),
        app_received(app, cmd).0.connected <==> app.connected || brings_connection(cmd),
        app_updated(app, msg).0.connected == app.connected,
{
    let enable = AppEffectView::EnableRefresh;
    let effects = app_received(app, cmd).1;
    match cmd {
        CommandMsg::Connected(Ok(_)) => {
            assert(effects[0] == enable);
        },
        _ => {
            if effects.contains(enable) {
                let k = choose|k: int| 0 <= k < effects.len() && effects[k] == enable;
                assert(effects[k] == enable);
            }
        },
    }
}

/// What stands under the title does not depend on the search, and no more containers run
/// than there are.
pub proof fn header_ignores_the_search(app: AppView, query: String)
    ensures
        ({
            let next = app_updated(app, AppMsg::SearchChanged(query)).0;
            header_text(next.state, next.all) == header_text(app.state, app.all)
        }),
        running_count(app.all) <= app.all.len(),
{
    lemma_running_count(app.all);
}

proof fn lemma_running_count(all: Seq<ContainerView>)
    ensures
        running_count(all) <= all.len(),
    decreases all.len(),
{
    if all.len() > 0 {
        lemma_running_count(all.drop_last());
    }
}

/// Opening a detail page stops the poll, and so does going out of sight. Closing the page
/// or coming back into sight starts it, as long as there is a daemon, and refreshes the
/// list at once.
pub proof fn poll_pauses_and_resumes(app: AppView, id: String)
    requires
        app.polling ==> app.connected,
    ensures
        ({
            let (next, effects) = app_updated(app, AppMsg::ShowDetails(id));
            next.detail_id == Some(id@) && effects.len() > 0 ==> !next.polling
        }),
        !app_updated(app, AppMsg::SuspendedChanged(true)).0.polling,
        ({
            let (next, effects) = app_updated(app, AppMsg::SuspendedChanged(false));
            next.polling == app.connected && effects.last() == AppEffectView::PostRefresh
        }),
        ({
            let (next, effects) = app_updated(app, AppMsg::PageClosed);
            next.polling == app.connected && effects.last() == AppEffectView::PostRefresh
        }),
{
}

// ---------------------------------------------------------------------------
// What each message is for.
// ---------------------------------------------------------------------------
/// With a connection, the wish to start, stop or restart a container, and the yes to its
/// removal, each send off the action of that name for that container, once; nothing else
/// sends off any.
pub proof fn each_wish_sends_its_own_action(
    app: AppView,
    msg: AppMsg,
    cmd: CommandMsg,
    id: Seq<char>,
    action: Action,
)
    ensures
        app_updated(app, msg).1.contains(AppEffectView::RunAction { id, action }) <==> {
            &&& app.connected
            &&& {
                ||| msg matches AppMsg::Start(it) && it@ == id && action == Action::Start
                ||| msg matches AppMsg::Stop(it) && it@ == id && action == Action::Stop
                ||| msg matches AppMsg::Restart(it) && it@ == id && action == Action::Restart
                ||| msg matches AppMsg::RemoveConfirmed(it) && it@ == id && action == Action::Remove
            }
        },
        forall|i: int, j: int|
            0 <= i < j < app_updated(app, msg).1.len() ==> !(#[trigger] app_updated(
                app,
                msg,
            ).1[i] is RunAction && #[trigger] app_updated(app, msg).1[j] is RunAction),
        !app_received(app, cmd).1.contains(AppEffectView::RunAction { id, action }),
{
    let run = AppEffectView::RunAction { id, action };
    let effects = app_updated(app, msg).1;
    if effects.contains(run) {
        let k = choose|k: int| 0 <= k < effects.len() && effects[k] == run;
        assert(effects[k] == run);
    }
    if effects.len() > 0 && effects.last() == run {
        assert(effects[effects.len() - 1] == run);
    }
    let more = app_received(app, cmd).1;
    if more.contains(run) {
        let k = choose|k: int| 0 <= k < more.len() && more[k] == run;
        assert(more[k] == run);
    }
}

/// Whether the row of the container `id` is the one at `k`, or, where `k` is the number of
/// rows, there is none.
pub open spec fn row_stands_at(rows: Seq<ContainerRowView>, id: Seq<char>, k: int) -> bool {
    &&& 0 <= k <= rows.len()
    &&& k < rows.len() ==> rows[k].container.id == id
    &&& forall|j: int| 0 <= j < k ==> (#[trigger] rows[j]).container.id != id
}

proof fn lemma_row_stands_at(rows: Seq<ContainerRowView>, id: Seq<char>, k: int)
    requires
        row_stands_at(rows, id, k),
    ensures
        row_of(rows, id, 0) == k,
{
    lemma_row_of(rows, id, 0);
    let i = row_of(rows, id, 0);
    if i < k {
        assert(rows[i].container.id != id);
    } else if k < i {
        assert(rows[k].container.id != id);
    }
}

/// Whether the app went from `app` to `next` by nothing but this: the row at `k`, if there
/// is one, says `pending`, and the screen was told so.
pub open spec fn only_row_says(
    app: AppView,
    next: AppView,
    effects: Seq<AppEffectView>,
    k: int,
    pending: Option<RowPending>,
) -> bool {
    &&& next.rows.len() == app.rows.len()
    &&& forall|j: int| 0 <= j < app.rows.len() && j != k ==> #[trigger] next.rows[j] == app.rows[j]
    &&& k < app.rows.len() ==> {
        &&& next.rows[k].pending == pending
        &&& next.rows[k].container == app.rows[k].container
        &&& effects.contains(AppEffectView::SetRowPending { index: k, pending })
    }
    &&& forall|e: int|
        0 <= e < effects.len() && concerns_rows(#[trigger] effects[e]) ==> effects[e]
            == (AppEffectView::SetRowPending { index: k, pending }) && k < app.rows.len()
}

proof fn lemma_dispatched_says(app: AppView, id: Seq<char>, action: Action, k: int)
    requires
        app.connected,
        row_stands_at(app.rows, id, k),
    ensures
        ({
            let (next, effects) = dispatched(app, id, action);
            &&& only_row_says(app, next, effects, k, Some(pending_kind(action)))
            &&& next.pending == app.pending.insert(id, action)
        }),
{
    lemma_row_stands_at(app.rows, id, k);
    let effects = dispatched(app, id, action).1;
    if k < app.rows.len() {
        assert(effects[0] == (AppEffectView::SetRowPending {
            index: k,
            pending: Some(pending_kind(action)),
        }));
    }
}

/// While an action is under way, the row of its container says which one it is, and no
/// other row changes.
pub proof fn row_says_what_is_under_way(app: AppView, id: String, k: int)
    requires
        app.connected,
        row_stands_at(app.rows, id@, k),
    ensures
        ({
            let (next, effects) = app_updated(app, AppMsg::Start(id));
            &&& only_row_says(app, next, effects, k, Some(RowPending::Starting))
            &&& next.pending == app.pending.insert(id@, Action::Start)
        }),
        ({
            let (next, effects) = app_updated(app, AppMsg::Stop(id));
            &&& only_row_says(app, next, effects, k, Some(RowPending::Stopping))
            &&& next.pending == app.pending.insert(id@, Action::Stop)
        }),
        ({
            let (next, effects) = app_updated(app, AppMsg::Restart(id));
            &&& only_row_says(app, next, effects, k, Some(RowPending::Restarting))
            &&& next.pending == app.pending.insert(id@, Action::Restart)
        }),
        ({
            let (next, effects) = app_updated(app, AppMsg::RemoveConfirmed(id));
            &&& only_row_says(app, next, effects, k, Some(RowPending::Removing))
            &&& next.pending == app.pending.insert(id@, Action::Remove)
        }),
{
    lemma_dispatched_says(app, id@, Action::Start, k);
    lemma_dispatched_says(app, id@, Action::Stop, k);
    lemma_dispatched_says(app, id@, Action::Restart, k);
    lemma_dispatched_says(app, id@, Action::Remove, k);
}

/// Whether `name` is what a notice calls the container `id` by: the name in its row, the
/// one at `k`, or else the first twelve characters of its id.
pub open spec fn called(
    rows: Seq<ContainerRowView>,
    id: Seq<char>,
    k: int,
    name: Seq<char>,
) -> bool {
    &&& row_stands_at(rows, id, k)
    &&& k < rows.len() ==> name == rows[k].container.name
    &&& k == rows.len() ==> {
        &&& name.len() <= 12 && name.len() <= id.len()
        &&& name.len() == 12 || name.len() == id.len()
        &&& name == id.take(name.len() as int)
    }
}

proof fn lemma_called(rows: Seq<ContainerRowView>, id: Seq<char>, k: int, name: Seq<char>)
    requires
        called(rows, id, k, name),
    ensures
        shown_name(rows, id) == name,
{
    lemma_row_stands_at(rows, id, k);
    assert(id.take(id.len() as int) =~= id);
}

/// When an action ends, the row of its container says so, and no other row changes. A
/// failure is told once, with the verb of the action, the container's name and the
/// reason; a success is not told at all.
pub proof fn ended_action_is_told_if_it_failed(
    app: AppView,
    id: String,
    action: Action,
    result: Result<(), String>,
    k: int,
    name: Seq<char>,
)
    requires
        called(app.rows, id@, k, name),
    ensures
        ({
            let (next, effects) = app_received(app, CommandMsg::ActionDone { id, action, result });
            let verb = if action == Action::Start {
                "start"@
            } else if action == Action::Stop {
                "stop"@
            } else if action == Action::Restart {
                "restart"@
            } else {
                "remove"@
            };
            &&& only_row_says(app, next, effects, k, None)
            &&& forall|e: int|
                0 <= e < effects.len() && #[trigger] effects[e] is PostError ==> result is Err
                    && effects[e] == AppEffectView::PostError(
                    "Couldn't "@ + verb + " "@ + name + ": "@ + result->Err_0@,
                )
            &&& result is Err ==> exists|e: int|
                0 <= e < effects.len() && #[trigger] effects[e] is PostError
        }),
{
    let cmd = CommandMsg::ActionDone { id, action, result };
    let (next, effects) = app_received(app, cmd);
    let said = pending_set(app, id@, None);
    lemma_row_stands_at(app.rows, id@, k);
    lemma_called(app.rows, id@, k, name);
    assert forall|j: int| 0 <= j < k implies (#[trigger] next.rows[j]).container.id != id@ by {
        assert(next.rows[j] == app.rows[j]);
    }
    assert(row_stands_at(next.rows, id@, k));
    assert(called(next.rows, id@, k, name));
    lemma_called(next.rows, id@, k, name);
    if k < app.rows.len() {
        assert(effects[0] == (AppEffectView::SetRowPending { index: k, pending: None }));
    }
    if result is Err {
        assert(effects[said.1.len() as int] is PostError);
    }
}

/// The wish to remove a container asks one question, about that container and by its
/// name, and does nothing else.
pub proof fn removal_is_asked_by_name(app: AppView, id: String, k: int, name: Seq<char>)
    requires
        called(app.rows, id@, k, name),
    ensures
        app_updated(app, AppMsg::Remove(id)).0 == app,
        app_updated(app, AppMsg::Remove(id)).1 == seq![
            AppEffectView::ConfirmRemove {
                id: id@,
                text: "“"@ + name + "” will be permanently removed. This can't be undone."@,
            },
        ],
{
    lemma_called(app.rows, id@, k, name);
}

/// The containers are listed exactly by a refresh with a connection. The user's own
/// refresh leads to one.
pub proof fn refresh_lists_the_containers(app: AppView, msg: AppMsg, cmd: CommandMsg)
    ensures
        app_updated(app, msg).1.contains(AppEffectView::ListContainers) <==> msg is Refresh
            && app.connected,
        msg is Refresh ==> app_updated(app, msg).1.len() <= 1,
        msg is ManualRefresh ==> app_updated(app, msg) == (
            AppView { refreshing: true, ..app },
            seq![AppEffectView::PostRefresh],
        ),
        !app_received(app, cmd).1.contains(AppEffectView::ListContainers),
{
    let list = AppEffectView::ListContainers;
    let effects = app_updated(app, msg).1;
    if effects.contains(list) {
        let k = choose|k: int| 0 <= k < effects.len() && effects[k] == list;
        assert(effects[k] == list);
    }
    if msg is Refresh && app.connected {
        assert(effects[0] == list);
    }
    let more = app_received(app, cmd).1;
    if more.contains(list) {
        let k = choose|k: int| 0 <= k < more.len() && more[k] == list;
        assert(more[k] == list);
    }
}

/// A detail page is opened exactly where there is a connection and a row of the container;
/// it is the page of the container in that row, with the settings for its logs.
pub proof fn details_are_of_the_row(app: AppView, id: String, k: int)
    requires
        row_stands_at(app.rows, id@, k),
    ensures
        ({
            let (next, effects) = app_updated(app, AppMsg::ShowDetails(id));
            &&& app.connected && k < app.rows.len() ==> {
                &&& next.detail_id == Some(id@)
                &&& effects.len() > 0
                &&& effects[0] == (AppEffectView::OpenDetail {
                    container: app.rows[k].container,
                    logs_wrap: app.settings.logs_wrap,
                    logs_timestamps: app.settings.logs_timestamps,
                })
                &&& next == (AppView { detail_id: Some(id@), polling: false, ..app })
            }
            &&& !app.connected || k == app.rows.len() ==> next == app && effects.len() == 0
        }),
{
    lemma_row_stands_at(app.rows, id@, k);
}

/// Closing the detail page drops it, and nothing else opens or drops one.
pub proof fn pages_open_and_close_by_request(app: AppView, msg: AppMsg, cmd: CommandMsg)
    ensures
        msg is PageClosed ==> app_updated(app, msg).0.detail_id is None && app_updated(
            app,
            msg,
        ).1.contains(AppEffectView::CloseDetail),
        !(msg is PageClosed) && !(msg is ShowDetails) ==> app_updated(app, msg).0.detail_id
            == app.detail_id,
        !(msg is PageClosed) ==> !app_updated(app, msg).1.contains(AppEffectView::CloseDetail),
        !(msg is ShowDetails) ==> (forall|e: int|
            0 <= e < app_updated(app, msg).1.len() ==> !(#[trigger] app_updated(
                app,
                msg,
            ).1[e] is OpenDetail)),
        app_received(app, cmd).0.detail_id == app.detail_id,
{
    let close = AppEffectView::CloseDetail;
    let effects = app_updated(app, msg).1;
    if msg is PageClosed {
        assert(effects[0] == close);
    }
    if effects.contains(close) {
        let k = choose|k: int| 0 <= k < effects.len() && effects[k] == close;
        assert(effects[k] == close);
    }
}

/// Each part of the state has its own messages, and no other message touches it.
pub proof fn messages_touch_only_their_own(app: AppView, msg: AppMsg, cmd: CommandMsg)
    ensures
        ({
            let next = app_updated(app, msg).0;
            &&& next.all == app.all
            &&& next.state == app.state
            &&& msg matches AppMsg::SearchChanged(query) ==> next.query == query@
            &&& !(msg is SearchChanged) ==> next.query == app.query
            &&& !(msg is Start || msg is Stop || msg is Restart || msg is RemoveConfirmed)
                ==> next.pending == app.pending
            &&& !(msg is Start || msg is Stop || msg is Restart || msg is RemoveConfirmed
                || msg is SearchChanged) ==> next.rows == app.rows
            &&& next.refreshing == (app.refreshing || msg is ManualRefresh)
            &&& next.settings == match msg {
                AppMsg::SetLogsWrap(wrap) => Settings { logs_wrap: wrap, ..app.settings },
                AppMsg::SetLogsTimestamps(show) => Settings {
                    logs_timestamps: show,
                    ..app.settings
                },
                AppMsg::SetTheme(theme) => Settings { theme, ..app.settings },
                _ => app.settings,
            }
        }),
        ({
            let next = app_received(app, cmd).0;
            &&& cmd matches CommandMsg::ContainersLoaded(containers) ==> next.all
                == containers_view(containers@)
            &&& !(cmd is ContainersLoaded) ==> next.all == app.all
            &&& next.query == app.query
            &&& cmd matches CommandMsg::Connected(Ok(_)) ==> next.state is Ready
            &&& cmd matches CommandMsg::Connected(Err(reason)) ==> next.state
                == ViewStateView::Disconnected(reason@)
            &&& !(cmd is Connected) ==> next.state == app.state
            &&& !(cmd is ActionDone) ==> next.pending == app.pending
            &&& !(cmd is ActionDone || cmd is ContainersLoaded) ==> next.rows == app.rows
            &&& next.refreshing == (app.refreshing && (cmd is Connected || cmd is ActionDone))
        }),
{
}

/// A notice shows the message of an error and is shown for nothing else; a list that could
/// not be had is told with its reason.
pub proof fn errors_are_shown_as_they_are(app: AppView, msg: AppMsg, reason: String)
    ensures
        msg matches AppMsg::Error(message) ==> app_updated(app, msg) == (
            app,
            seq![AppEffectView::Toast(message@)],
        ),
        !(msg is Error) ==> (forall|e: int|
            0 <= e < app_updated(app, msg).1.len() ==> !(#[trigger] app_updated(
                app,
                msg,
            ).1[e] is Toast)),
        app_received(app, CommandMsg::ListFailed(reason)).1 == seq![
            AppEffectView::PostError("Couldn't refresh: "@ + reason@),
        ],
{
}

/// The dialogs open when they are asked for, and then only.
pub proof fn dialogs_open_when_asked(app: AppView, msg: AppMsg)
    ensures
        app_updated(app, msg).1.contains(AppEffectView::ShowAbout) <==> msg is ShowAbout,
        app_updated(app, msg).1.contains(AppEffectView::ShowPreferences) <==> msg is ShowPreferences,
        app_updated(app, msg).1.contains(AppEffectView::SaveSettings) <==> msg is SetLogsWrap
            || msg is SetLogsTimestamps || msg is SetTheme,
        app_updated(app, msg).1.contains(AppEffectView::ApplyTheme) <==> msg is SetTheme,
{
    let effects = app_updated(app, msg).1;
    if msg is ShowAbout || msg is ShowPreferences || msg is SetLogsWrap || msg is SetLogsTimestamps
        || msg is SetTheme {
        let _ = effects[0];
    }
    if msg is SetTheme {
        assert(effects[1] == AppEffectView::ApplyTheme);
    }
    if msg is SetLogsWrap || msg is SetLogsTimestamps || msg is SetTheme {
        assert(effects[0] == AppEffectView::SaveSettings);
    }
}

/// A connection makes the window ready, starts the poll and refreshes the list at once; a
/// failure to connect does nothing but say why.
pub proof fn connection_starts_the_list(app: AppView, result: Result<(), String>)
    requires
        !app.connected && !app.polling,
    ensures
        ({
            let (next, effects) = app_received(app, CommandMsg::Connected(result));
            &&& result is Ok ==> {
                &&& next == (AppView {
                    connected: true,
                    polling: true,
                    state: ViewStateView::Ready,
                    ..app
                })
                &&& effects.contains(AppEffectView::StartPoll)
                &&& effects.contains(AppEffectView::WatchSuspended)
                &&& effects.last() == AppEffectView::PostRefresh
            }
            &&& result is Err ==> effects.len() == 0 && next == (AppView {
                state: ViewStateView::Disconnected(result->Err_0@),
                ..app
            })
        }),
{
    let effects = app_received(app, CommandMsg::Connected(result)).1;
    if result is Ok {
        assert(effects[1] == AppEffectView::WatchSuspended);
        assert(effects[2] == AppEffectView::StartPoll);
    }
}

/// The app begins without a connection, containers, search or detail page, and with the
/// settings that it is given.
pub proof fn app_begins_with_nothing(settings: Settings)
    ensures
        ({
            let app = app_started(settings);
            &&& !app.connected && !app.polling && !app.refreshing
            &&& app.state is Loading
            &&& app.rows.len() == 0 && app.all.len() == 0 && app.query.len() == 0
            &&& app.detail_id is None
            &&& forall|id: Seq<char>| !app.pending.dom().contains(id)
            &&& app.settings == settings
        }),
{
}

/// A search lets a container through exactly if its name or its image, in lowercase,
/// holds the search text in lowercase.
pub proof fn search_reads_names_and_images(
    query: Seq<char>,
    container: ContainerView,
    before: Seq<char>,
    after: Seq<char>,
)
    requires
        query.len() > 0,
    ensures
        lowered(container.name) == before + lowered(query) + after ==> found_by(query, container),
        lowered(container.image) == before + lowered(query) + after ==> found_by(query, container),
        found_by(query, container) && lowered(query).len() > 0 ==> contains_text(
            lowered(container.name),
            lowered(query),
        ) || contains_text(lowered(container.image), lowered(query)),
{
    text_holds_what_was_put_in(before, lowered(query), after);
}

/// In ASCII, a search finds a container whose name or image holds the search text, letter
/// for letter but for the case.
pub proof fn ascii_search_compares_letters(query: Seq<char>, container: ContainerView, at: int)
    requires
        query.len() > 0,
        is_ascii_chars(query),
        is_ascii_chars(container.name),
        0 <= at <= container.name.len() - query.len(),
        forall|i: int|
            0 <= i < query.len() ==> {
                let (a, b) = (#[trigger] query[i], container.name[at + i]);
                a == b || ('A' <= a <= 'Z' && b as u32 == a as u32 + 32) || ('A' <= b <= 'Z'
                    && a as u32 == b as u32 + 32)
            },
    ensures
        found_by(query, container),
{
    let needle = lowered(query);
    let name = lowered(container.name);
    assert forall|i: int| 0 <= i < needle.len() implies #[trigger] needle[i] == name[at + i] by {
        ascii_lowercase_changes_capitals_only(query, i);
        ascii_lowercase_changes_capitals_only(container.name, at + i);
        let (a, b) = (query[i], container.name[at + i]);
        assert(needle[i] as u32 == name[at + i] as u32);
    }
    ascii_lowercase_changes_capitals_only(query, 0);
    ascii_lowercase_changes_capitals_only(container.name, at);
    assert(name.subrange(at, at + needle.len()) =~= needle);
    assert(occurs_at(name, needle, at));
}

/// What a search finds in a list is what it finds in the parts of the list, in their
/// order; in one container it finds that one or nothing.
pub proof fn search_goes_through_the_list(
    query: Seq<char>,
    a: Seq<ContainerView>,
    b: Seq<ContainerView>,
    container: ContainerView,
)
    ensures
        found(query, a + b) == found(query, a) + found(query, b),
        found_by(query, container) ==> found(query, seq![container]) == seq![container],
        !found_by(query, container) ==> found(query, seq![container]).len() == 0,
{
    let p = |container: ContainerView| found_by(query, container);
    Seq::filter_distributes_over_add(a, b, p);
    let none = Seq::<ContainerView>::empty();
    reveal(Seq::filter);
    assert(seq![container].drop_last() =~= none);
    assert(none.filter(p) =~= none);
    assert(none.push(container) =~= seq![container]);
}

/// After a search or a fresh list, the rows are those of the containers that the search
/// lets through, in their order, each with what is under way for its container.
pub proof fn rows_are_what_the_search_finds(app: AppView, query: String, containers: Vec<Container>)
    requires
        rows_show_pending(app),
    ensures
        ({
            let next = app_updated(app, AppMsg::SearchChanged(query)).0;
            row_containers(next.rows) == found(query@, app.all) && rows_show_pending(next)
        }),
        ({
            let next = app_received(app, CommandMsg::ContainersLoaded(containers)).0;
            row_containers(next.rows) == found(app.query, containers_view(containers@))
                && rows_show_pending(next)
        }),
{
    lemma_reconciled_rows(AppView { query: query@, ..app });
    lemma_reconciled_rows(AppView { all: containers_view(containers@), ..app });
}

proof fn lemma_reconciled_rows(app: AppView)
    requires
        rows_show_pending(app),
    ensures
        row_containers(reconciled(app).0.rows) == found(app.query, app.all),
        rows_show_pending(reconciled(app).0),
{
    let visible = found(app.query, app.all);
    let next = reconciled(app).0;
    assert(row_containers(next.rows) =~= visible);
    if same_members(app.rows, visible) {
        assert forall|k: int| 0 <= k < next.rows.len() implies (#[trigger] next.rows[k]).pending
            == pending_kinds(pending_for(next.pending, next.rows[k].container.id)) by {
            assert(app.rows[k].container.id == visible[k].id);
        }
    }
}

/// A row says that an action is under way exactly if one is, and says which.
pub proof fn row_names_the_action(action: Option<Action>)
    ensures
        pending_kinds(action) is None <==> action is None,
        pending_kinds(action) == Some(RowPending::Starting) <==> action == Some(Action::Start),
        pending_kinds(action) == Some(RowPending::Stopping) <==> action == Some(Action::Stop),
        pending_kinds(action) == Some(RowPending::Restarting) <==> action == Some(Action::Restart),
        pending_kinds(action) == Some(RowPending::Removing) <==> action == Some(Action::Remove),
{
}

/// Rows are thrown away only where the visible containers are other ones or stand
/// otherwise; then all are built anew, in one go.
pub proof fn rows_are_rebuilt_only_for_others(app: AppView, containers: Vec<Container>)
    ensures
        ({
            let (next, effects) = app_received(app, CommandMsg::ContainersLoaded(containers));
            let visible = found(app.query, containers_view(containers@));
            let same = app.rows.len() == visible.len() && forall|i: int|
                0 <= i < app.rows.len() ==> (#[trigger] app.rows[i]).container.id == visible[i].id;
            &&& same ==> effects.len() == visible.len() && (forall|i: int|
                0 <= i < effects.len() ==> #[trigger] effects[i] == (AppEffectView::UpdateRow {
                    index: i,
                    container: visible[i],
                }))
            &&& !same ==> effects == seq![AppEffectView::RebuildRows(next.rows)]
        }),
{
}

/// The running containers of two lists are those of the one and those of the other; one
/// container counts if it runs or restarts.
pub proof fn running_containers_add_up(
    a: Seq<ContainerView>,
    b: Seq<ContainerView>,
    container: ContainerView,
)
    ensures
        running_count(Seq::empty()) == 0,
        running_count(seq![container]) == if container.state == ContainerState::Running
            || container.state == ContainerState::Restarting {
            1nat
        } else {
            0
        },
        running_count(a + b) == running_count(a) + running_count(b),
    decreases b.len(),
{
    assert(seq![container].drop_last() =~= Seq::<ContainerView>::empty());
    assert(running_count(seq![container].drop_last()) == 0);
    if b.len() == 0 {
        assert(a + b =~= a);
    } else {
        assert((a + b).drop_last() =~= a + b.drop_last());
        running_containers_add_up(a, b.drop_last(), container);
    }
}

/// What stands under the title is empty until the window is ready; then it begins with how
/// many containers there are and ends with how many of them run, unless there are none.
pub proof fn header_counts_the_containers(state: ViewStateView, all: Seq<ContainerView>)
    ensures
        !(state is Ready) ==> header_text(state, all).len() == 0,
        state is Ready && all.len() == 0 ==> header_text(state, all) == "No containers"@,
        state is Ready && all.len() > 0 ==> {
            let unit = if all.len() == 1 {
                " container · "@
            } else {
                " containers · "@
            };
            header_text(state, all) == decimal(all.len()) + unit + decimal(running_count(all))
                + " running"@
        },
{
    if state is Ready && all.len() == 1 {
        reveal_strlit("1 container · ");
        reveal_strlit(" container · ");
        assert(decimal(1) =~= seq!['1']);
        assert("1 container · "@ =~= decimal(1) + " container · "@);
    }
}

/// The middle of the window shows the list where a container shows, a page of its own
/// where the search lets none through, and another where there are none at all.
pub proof fn middle_shows_what_there_is(app: AppView)
    ensures
        app.all.len() == 0 ==> page_name(app) == "empty"@,
        app.all.len() > 0 && app.rows.len() == 0 ==> page_name(app) == "no-results"@,
        app.all.len() > 0 && app.rows.len() > 0 ==> page_name(app) == "list"@,
{
}

/// A wish for an action tells the row and sends the action off, and nothing more. Its end
/// tells the row, the detail page and, where it failed, the user, and refreshes the list
/// once.
pub proof fn actions_do_nothing_else(
    app: AppView,
    msg: AppMsg,
    id: String,
    action: Action,
    result: Result<(), String>,
)
    ensures
        msg is Start || msg is Stop || msg is Restart || msg is RemoveConfirmed ==> (forall|e: int|
            0 <= e < app_updated(app, msg).1.len() ==> #[trigger] app_updated(
                app,
                msg,
            ).1[e] is SetRowPending || app_updated(app, msg).1[e] is RunAction),
        ({
            let effects = app_received(app, CommandMsg::ActionDone { id, action, result }).1;
            forall|e: int|
                0 <= e < effects.len() - 1 ==> #[trigger] effects[e] is SetRowPending
                    || effects[e] is PostError || effects[e] is NotifyDetail
        }),
{
}

/// The poll's timer is touched only by opening or closing a detail page, by going out of
/// sight or coming back, and by a new connection.
pub proof fn only_sight_and_connection_touch_the_poll(app: AppView, msg: AppMsg, cmd: CommandMsg)
    ensures
        !(msg is ShowDetails || msg is PageClosed || msg is SuspendedChanged) ==> app_updated(
            app,
            msg,
        ).0.polling == app.polling,
        !brings_connection(cmd) ==> app_received(app, cmd).0.polling == app.polling,
        brings_connection(cmd) ==> app_received(app, cmd).0.polling,
{
}

/// The answers to what happens to the window alone: going out of sight does nothing but
/// stop the poll, coming back starts it and refreshes the list, and so does closing a
/// page.
pub proof fn coming_back_refreshes(app: AppView)
    requires
        app.connected,
    ensures
        app_updated(app, AppMsg::SuspendedChanged(true)).0 == (AppView { polling: false, ..app }),
        app_updated(app, AppMsg::SuspendedChanged(false)).0 == (AppView { polling: true, ..app }),
        app_updated(app, AppMsg::PageClosed).0 == (AppView {
            polling: true,
            detail_id: None,
            ..app
        }),
        app_updated(app, AppMsg::SuspendedChanged(true)).1.len() <= 1,
        app_updated(app, AppMsg::SuspendedChanged(false)).1.last() == AppEffectView::PostRefresh,
        app_updated(app, AppMsg::SuspendedChanged(false)).1.len() <= 2,
        app_updated(app, AppMsg::PageClosed).1.last() == AppEffectView::PostRefresh,
        app_updated(app, AppMsg::PageClosed).1.len() <= 3,
{
}

} // verus!
