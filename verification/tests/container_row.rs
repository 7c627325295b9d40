//! The rows of the list, and the status chip.
use dockyard::components::container_row::{
    ContainerRow, ContainerRowInit, ContainerRowInput, ContainerRowOutput, RowPending,
};
use dockyard::components::status_chip;
use dockyard::docker::types::{Container, ContainerState, Port, Protocol};

fn row(state: ContainerState, ports: &[(u16, u16)]) -> ContainerRow {
    ContainerRow::init_model(ContainerRowInit {
        container: Container {
            id: "abc".to_owned(),
            name: "db".to_owned(),
            image: "postgres:17-alpine".to_owned(),
            state,
            status: "Up 39 minutes (healthy)".to_owned(),
            ports: ports
                .iter()
                .map(|(public, private)| Port {
                    private: *private,
                    public: *public,
                    protocol: Protocol::Tcp,
                })
                .collect(),
        },
        pending: None,
    })
}

#[test]
fn every_state_has_a_label_and_a_colour() {
    let cases = [
        (ContainerState::Created, "Created", "neutral"),
        (ContainerState::Running, "Running", "running"),
        (ContainerState::Paused, "Paused", "warning"),
        (ContainerState::Restarting, "Restarting", "warning"),
        (ContainerState::Stopping, "Stopping", "warning"),
        (ContainerState::Exited, "Exited", "neutral"),
        (ContainerState::Removing, "Removing", "neutral"),
        (ContainerState::Dead, "Dead", "error"),
        (ContainerState::Unknown, "Unknown", "neutral"),
    ];
    for (state, label, variant) in cases {
        assert_eq!(status_chip::label(state), label);
        assert_eq!(status_chip::variant(state), variant);
    }
}

#[test]
fn the_subtitle_is_the_image_and_the_ports() {
    let row = row(ContainerState::Running, &[(5432, 5432), (8080, 80)]);
    assert_eq!(row.subtitle(), "postgres:17-alpine · 5432:5432, 8080:80");
    assert_eq!(row.id(), "abc");
    assert_eq!(row.name(), "db");
    assert_eq!(row.container().image, "postgres:17-alpine");
}

#[test]
fn a_subtitle_without_ports_is_the_image_alone() {
    assert_eq!(
        row(ContainerState::Exited, &[]).subtitle(),
        "postgres:17-alpine"
    );
}

#[test]
fn the_chip_shows_what_is_under_way() {
    let mut row = row(ContainerState::Running, &[]);
    assert_eq!(row.transition(), None);
    assert_eq!((row.chip_label(), row.chip_variant()), ("Running", "running"));
    let cases = [
        (RowPending::Starting, "Starting…"),
        (RowPending::Stopping, "Stopping…"),
        (RowPending::Restarting, "Restarting…"),
        (RowPending::Removing, "Removing…"),
    ];
    for (pending, label) in cases {
        assert!(row
            .update(ContainerRowInput::SetPending(Some(pending)))
            .is_none());
        assert_eq!(row.transition(), Some(label));
        assert_eq!((row.chip_label(), row.chip_variant()), (label, "neutral"));
    }
}

#[test]
fn fresh_data_keeps_the_spinner_and_turns_the_click() {
    let mut old = row(ContainerState::Exited, &[]);
    old.update(ContainerRowInput::SetPending(Some(RowPending::Starting)));
    assert_eq!(
        old.update(ContainerRowInput::ToggleClicked),
        Some(ContainerRowOutput::Start("abc".to_owned()))
    );
    let fresh = row(ContainerState::Running, &[]).container;
    assert!(old.update(ContainerRowInput::Update(fresh)).is_none());
    assert_eq!(old.pending, Some(RowPending::Starting));
    assert_eq!(
        old.update(ContainerRowInput::ToggleClicked),
        Some(ContainerRowOutput::Stop("abc".to_owned()))
    );
}
