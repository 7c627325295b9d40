//! One container, as a row of the list.
use vstd::prelude::*;

use crate::components::status_chip::{
    self, chip_colour, chip_text, state_label, state_variant, transition_view,
};
use crate::docker::types::{Container, ContainerState, ContainerView, Port};
use crate::text::{decimal, decimal_of, join, joined, joined_lists_join_up, texts};

verus! {

/// What a row asks for. Rows never act themselves: they say what was meant, and the
/// app decides.
#[derive(Debug, PartialEq, Eq)]
pub enum ContainerRowOutput {
    Start(String),
    Stop(String),
    Restart(String),
    Remove(String),
    ShowDetails(String),
}

/// What a `ContainerRowOutput` holds.
#[verifier::ext_equal]
pub enum ContainerRowOutputView {
    Start(Seq<char>),
    Stop(Seq<char>),
    Restart(Seq<char>),
    Remove(Seq<char>),
    ShowDetails(Seq<char>),
}

impl View for ContainerRowOutput {
    type V = ContainerRowOutputView;

    open spec fn view(&self) -> ContainerRowOutputView {
        match self {
            ContainerRowOutput::Start(id) => ContainerRowOutputView::Start(id@),
            ContainerRowOutput::Stop(id) => ContainerRowOutputView::Stop(id@),
            ContainerRowOutput::Restart(id) => ContainerRowOutputView::Restart(id@),
            ContainerRowOutput::Remove(id) => ContainerRowOutputView::Remove(id@),
            ContainerRowOutput::ShowDetails(id) => ContainerRowOutputView::ShowDetails(id@),
        }
    }
}

/// An action on a container that is still under way.
#[derive(Debug, Clone, Copy, PartialEq, Eq, Structural)]
pub enum RowPending {
    Starting,
    Stopping,
    Restarting,
    Removing,
}

/// What a row begins with. A row that is built anew while an action is under way gets
/// its pending state back.
#[derive(Debug)]
pub struct ContainerRowInit {
    pub container: Container,
    pub pending: Option<RowPending>,
}

#[derive(Debug)]
pub enum ContainerRowInput {
    /// Fresh data from the poll, put in place.
    Update(Container),
    /// An action began or, with `None`, ended.
    SetPending(Option<RowPending>),
    /// The start/stop button was clicked. What that means is decided then, by the
    /// current state, and not when the button was made.
    ToggleClicked,
}

#[derive(Debug)]
pub struct ContainerRow {
    pub container: Container,
    /// The action under way, if any. The poll's data does not touch it.
    pub pending: Option<RowPending>,
}

/// What a `ContainerRow` holds.
#[verifier::ext_equal]
pub struct ContainerRowView {
    pub container: ContainerView,
    pub pending: Option<RowPending>,
}

impl View for ContainerRow {
    type V = ContainerRowView;

    open spec fn view(&self) -> ContainerRowView {
        ContainerRowView { container: self.container@, pending: self.pending }
    }
}

/// What a sequence of rows holds.
pub open spec fn rows_view(rows: Seq<ContainerRow>) -> Seq<ContainerRowView> {
    Seq::new(rows.len(), |i: int| rows[i]@)
}

/// A port mapping in a row.
pub open spec fn row_port(port: Port) -> Seq<char> {
    decimal(port.public as nat) + ":"@ + decimal(port.private as nat)
}

/// The port mappings in a row.
pub open spec fn row_ports(ports: Seq<Port>) -> Seq<Seq<char>> {
    Seq::new(ports.len(), |i: int| row_port(ports[i]))
}

/// What stands under a row's title: the image, and the ports if there are any.
pub open spec fn row_subtitle(container: ContainerView) -> Seq<char> {
    if container.ports.len() == 0 {
        container.image
    } else {
        container.image + " · "@ + joined(row_ports(container.ports), ", "@)
    }
}

/// What an action under way is called.
pub open spec fn pending_label(pending: RowPending) -> Seq<char> {
    match pending {
        RowPending::Starting => "Starting…"@,
        RowPending::Stopping => "Stopping…"@,
        RowPending::Restarting => "Restarting…"@,
        RowPending::Removing => "Removing…"@,
    }
}

/// What the chip says of an action under way, if there is one.
pub open spec fn transition_text(pending: Option<RowPending>) -> Option<Seq<char>> {
    match pending {
        Some(pending) => Some(pending_label(pending)),
        None => None,
    }
}

/// What the chip says of an action under way, if there is one.
pub fn transition_of(pending: Option<RowPending>) -> (r: Option<&'static str>)
    ensures
        transition_view(r) == transition_text(pending),
{
    match pending {
        Some(RowPending::Starting) => Some("Starting…"),
        Some(RowPending::Stopping) => Some("Stopping…"),
        Some(RowPending::Restarting) => Some("Restarting…"),
        Some(RowPending::Removing) => Some("Removing…"),
        None => None,
    }
}

/// The text of a row's chip: what is under way, or else the state.
pub open spec fn row_chip_label(row: ContainerRowView) -> Seq<char> {
    chip_text(row.container.state, transition_text(row.pending))
}

/// The colour of a row's chip: neutral while something is under way, or else the
/// state's.
pub open spec fn row_chip_variant(row: ContainerRowView) -> Seq<char> {
    chip_colour(row.container.state, transition_text(row.pending))
}

/// How a row answers what happens.
pub open spec fn row_updated(row: ContainerRowView, msg: ContainerRowInput) -> (
    ContainerRowView,
    Option<ContainerRowOutputView>,
) {
    match msg {
        ContainerRowInput::Update(container) => (
            ContainerRowView { container: container@, ..row },
            None,
        ),
        ContainerRowInput::SetPending(pending) => (ContainerRowView { pending, ..row }, None),
        ContainerRowInput::ToggleClicked => (
            row,
            Some(
                if row.container.state.running() {
                    ContainerRowOutputView::Stop(row.container.id)
                } else {
                    ContainerRowOutputView::Start(row.container.id)
                },
            ),
        ),
    }
}

/// What an optional output holds.
pub open spec fn row_output_view(output: Option<ContainerRowOutput>) -> Option<
    ContainerRowOutputView,
> {
    match output {
        Some(output) => Some(output@),
        None => None,
    }
}

impl ContainerRow {
    /// The row that `init` describes.
    pub fn init_model(init: ContainerRowInit) -> (r: ContainerRow)
        ensures
            r@ == (ContainerRowView { container: init.container@, pending: init.pending }),
    {
        ContainerRow { container: init.container, pending: init.pending }
    }

    pub fn id(&self) -> (r: &str)
        ensures
            r@ == self@.container.id,
    {
        self.container.id.as_str()
    }

    pub fn name(&self) -> (r: &str)
        ensures
            r@ == self@.container.name,
    {
        self.container.name.as_str()
    }

    /// The row's container, for the detail page.
    pub fn container(&self) -> (r: &Container)
        ensures
            r@ == self@.container,
    {
        &self.container
    }

    /// The image and the published ports, e.g. "postgres:17-alpine · 5432:5432". There
    /// is no status text in it: the chip shows the state already.
    pub fn subtitle(&self) -> (r: String)
        ensures
            r@ == row_subtitle(self@.container),
    {
        let mut out = self.container.image.clone();
        if self.container.ports.len() > 0 {
            let ports = &self.container.ports;
            let mut parts: Vec<String> = Vec::new();
            let ghost all = row_ports(ports@);
            let mut i: usize = 0;
            proof {
                assert(texts(parts@) =~= all.take(0));
            }
            while i < ports.len()
                invariant
                    i <= ports@.len(),
                    all == row_ports(ports@),
                    texts(parts@) == all.take(i as int),
                decreases ports@.len() - i,
            {
                let ghost before = parts@;
                let mut part = decimal_of(ports[i].public as u64);
                part.append(":");
                part.append(decimal_of(ports[i].private as u64).as_str());
                parts.push(part);
                proof {
                    assert(texts(parts@) =~= texts(before).push(part@));
                    assert(all.take(i + 1) =~= all.take(i as int).push(all[i as int]));
                }
                i += 1;
            }
            proof {
                assert(all.take(i as int) =~= all);
            }
            out.append(" · ");
            out.append(join(&parts, ", ").as_str());
        }
        out
    }

    /// What the chip says instead of the state while an action is under way.
    pub fn transition(&self) -> (r: Option<&'static str>)
        ensures
            transition_view(r) == transition_text(self.pending),
    {
        transition_of(self.pending)
    }

    /// The text of the chip.
    pub fn chip_label(&self) -> (r: &'static str)
        ensures
            r@ == row_chip_label(self@),
    {
        status_chip::label_during(self.container.state, self.transition())
    }

    /// The style class for the chip's colour.
    pub fn chip_variant(&self) -> (r: &'static str)
        ensures
            r@ == row_chip_variant(self@),
    {
        status_chip::variant_during(self.container.state, self.transition())
    }

    /// Answers what happens to the row.
    pub fn update(&mut self, msg: ContainerRowInput) -> (r: Option<ContainerRowOutput>)
        ensures
            (final(self)@, row_output_view(r)) == row_updated(old(self)@, msg),
    {
        match msg {
            ContainerRowInput::Update(container) => {
                self.container = container;
                None
            },
            ContainerRowInput::SetPending(pending) => {
                self.pending = pending;
                None
            },
            ContainerRowInput::ToggleClicked => {
                let id = self.container.id.clone();
                if self.container.state.is_running() {
                    Some(ContainerRowOutput::Stop(id))
                } else {
                    Some(ContainerRowOutput::Start(id))
                }
            },
        }
    }
}

/// The poll's data never ends an action that is under way, and a click goes by the state
/// that the latest data showed.
pub proof fn row_keeps_pending_and_reads_fresh_state(row: ContainerRowView, container: Container)
    ensures
        row_updated(row, ContainerRowInput::Update(container)).0.pending == row.pending,
        row_updated(
            row_updated(row, ContainerRowInput::Update(container)).0,
            ContainerRowInput::ToggleClicked,
        ).1 == Some(
            if container.state.running() {
                ContainerRowOutputView::Stop(container.id@)
            } else {
                ContainerRowOutputView::Start(container.id@)
            },
        ),
{
}

/// A row shows the image of its container, and behind it the ports, each as the host's
/// number, a colon and the container's, with commas between, in their order.
pub proof fn row_shows_image_and_ports(
    container: ContainerView,
    port: Port,
    a: Seq<Port>,
    b: Seq<Port>,
)
    ensures
        container.ports.len() == 0 ==> row_subtitle(container) == container.image,
        container.ports.len() > 0 ==> row_subtitle(container) == container.image + " · "@ + joined(
            row_ports(container.ports),
            ", "@,
        ),
        joined(row_ports(seq![port]), ", "@) == decimal(port.public as nat) + ":"@ + decimal(
            port.private as nat,
        ),
        a.len() > 0 && b.len() > 0 ==> joined(row_ports(a + b), ", "@) == joined(
            row_ports(a),
            ", "@,
        ) + ", "@ + joined(row_ports(b), ", "@),
{
    let one = decimal(port.public as nat) + ":"@ + decimal(port.private as nat);
    assert(row_ports(seq![port]) =~= seq![one]);
    assert(row_ports(a + b) =~= row_ports(a) + row_ports(b));
    joined_lists_join_up(row_ports(a), row_ports(b), one, ", "@);
}

/// A chip says what is under way, neutrally, whatever the state; where nothing is, it says
/// the state, in its colour.
pub proof fn chip_says_what_is_under_way(row: ContainerRowView)
    ensures
        row.pending == Some(RowPending::Starting) ==> row_chip_label(row) == "Starting…"@,
        row.pending == Some(RowPending::Stopping) ==> row_chip_label(row) == "Stopping…"@,
        row.pending == Some(RowPending::Restarting) ==> row_chip_label(row) == "Restarting…"@,
        row.pending == Some(RowPending::Removing) ==> row_chip_label(row) == "Removing…"@,
        row.pending is Some ==> row_chip_variant(row) == "neutral"@,
        row.pending is None ==> row_chip_label(row) == state_label(row.container.state),
        row.pending is None ==> row_chip_variant(row) == state_variant(row.container.state),
{
}

/// A click asks to stop a container that runs or restarts and to start any other, and
/// changes nothing in the row; fresh data and an action that begins or ends ask nothing
/// and change only their own part.
pub proof fn row_answers_only_clicks(
    row: ContainerRowView,
    container: Container,
    pending: Option<RowPending>,
)
    ensures
        ({
            let state = row.container.state;
            let up = state == ContainerState::Running || state == ContainerState::Restarting;
            row_updated(row, ContainerRowInput::ToggleClicked) == (
                row,
                Some(
                    if up {
                        ContainerRowOutputView::Stop(row.container.id)
                    } else {
                        ContainerRowOutputView::Start(row.container.id)
                    },
                ),
            )
        }),
        row_updated(row, ContainerRowInput::Update(container)) == (
            ContainerRowView { container: container@, pending: row.pending },
            None::<ContainerRowOutputView>,
        ),
        row_updated(row, ContainerRowInput::SetPending(pending)) == (
            ContainerRowView { container: row.container, pending },
            None::<ContainerRowOutputView>,
        ),
{
}

} // verus!
