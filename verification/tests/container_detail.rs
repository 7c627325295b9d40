//! The detail page of a container.
use dockyard::components::container_detail::{
    format_duration, human_bytes, pretty_time, sample_message, ContainerDetailPage, DetailCmd,
    DetailEffect, DetailInput, DetailOutput,
};
use dockyard::components::container_row::{ContainerRow, ContainerRowInit, RowPending};
use dockyard::components::sparkline::{Sparkline, SparklineInput, HISTORY};
use dockyard::docker::types::{
    Container, ContainerDetail, ContainerState, Port, Protocol, Stats,
};

#[test]
fn formats_durations_by_magnitude() {
    assert_eq!(format_duration(8), "8s");
    assert_eq!(format_duration(312), "5m 12s");
    assert_eq!(format_duration(3600 * 3 + 60 * 24), "3h 24m");
    assert_eq!(format_duration(86400 * 2 + 3600 * 3), "2d 3h");
}

/// What whole-number division makes of the parts.
fn duration_by_parts(secs: i64) -> String {
    let (d, h, m, s) = (secs / 86400, secs / 3600 % 24, secs / 60 % 60, secs % 60);
    if d > 0 {
        format!("{d}d {h}h")
    } else if h > 0 {
        format!("{h}h {m}m")
    } else if m > 0 {
        format!("{m}m {s}s")
    } else {
        format!("{s}s")
    }
}

#[test]
fn durations_hold_at_the_edges() {
    let edges = [
        0,
        59,
        60,
        61,
        3599,
        3600,
        86399,
        86400,
        i64::MAX,
        -1,
        -59,
        -60,
        -3601,
        -86400 * 3 - 5,
        i64::MIN,
    ];
    for secs in edges {
        assert_eq!(format_duration(secs), duration_by_parts(secs), "{secs}");
    }
}

/// What double-precision arithmetic makes of a number of bytes.
fn bytes_by_doubles(bytes: u64) -> String {
    let units = ["B", "KB", "MB", "GB", "TB"];
    let mut value = bytes as f64;
    let mut unit = 0;
    while value >= 1024.0 && unit < units.len() - 1 {
        value /= 1024.0;
        unit += 1;
    }
    if unit == 0 {
        format!("{bytes} B")
    } else {
        let tenths = format!("{value:.1}");
        let compact = tenths.strip_suffix(".0").unwrap_or(&tenths);
        format!("{compact} {}", units[unit])
    }
}

#[test]
fn bytes_show_in_the_largest_unit_that_they_fill() {
    assert_eq!(human_bytes(0), "0 B");
    assert_eq!(human_bytes(1023), "1023 B");
    assert_eq!(human_bytes(1024), "1 KB");
    assert_eq!(human_bytes(340 * 1024 * 1024), "340 MB");
    assert_eq!(human_bytes(1_503_238_553), "1.4 GB");
    assert_eq!(human_bytes(10 * 1024 + 5), "10 KB");
    // Halfway between two tenths, the even one.
    assert_eq!(human_bytes(1024 + 256), "1.2 KB");
    assert_eq!(human_bytes(1024 + 768), "1.8 KB");
}

#[test]
fn bytes_show_as_doubles_would() {
    let mut n: u64 = 1;
    for i in 0..20_000u64 {
        assert_eq!(human_bytes(n), bytes_by_doubles(n), "{n}");
        n = n.wrapping_mul(6364136223846793005).wrapping_add(i) >> (i % 60);
    }
    for shift in 0..64 {
        let power = 1u64 << shift;
        for near in [power - 1, power, power + 1, power + power / 20, u64::MAX - power] {
            assert_eq!(human_bytes(near), bytes_by_doubles(near), "{near}");
        }
    }
    assert_eq!(human_bytes(u64::MAX), bytes_by_doubles(u64::MAX));
}

fn sample_container(state: ContainerState) -> Container {
    Container {
        id: "abc".to_owned(),
        name: "db".to_owned(),
        image: "postgres".to_owned(),
        state,
        status: String::new(),
        ports: vec![],
    }
}

fn sample_detail(state: ContainerState) -> ContainerDetail {
    ContainerDetail {
        state,
        ports: vec![
            Port {
                private: 80,
                public: 8080,
                protocol: Protocol::Tcp,
            },
            Port {
                private: 443,
                public: 8443,
                protocol: Protocol::Tcp,
            },
        ],
        started_at: if state.is_running() {
            Some("1970-01-01T00:00:10Z".to_owned())
        } else {
            None
        },
        created: Some("2026-07-17T16:12:55Z".to_owned()),
        command: Some("postgres -c x".to_owned()),
    }
}

fn sample_stats() -> Stats {
    Stats {
        cpu_delta: 1,
        system_delta: 10,
        cpus: 2,
        mem_used: 340 * 1024 * 1024,
        mem_limit: 2 * 1024 * 1024 * 1024,
    }
}

#[test]
fn a_running_container_begins_with_samples() {
    let (page, effects) = ContainerDetailPage::new(sample_container(ContainerState::Running));
    assert!(page.stats_active);
    assert_eq!(
        effects,
        vec![
            DetailEffect::PostRefresh,
            DetailEffect::StartStats("abc".to_owned()),
        ]
    );
    let (page, effects) = ContainerDetailPage::new(sample_container(ContainerState::Exited));
    assert!(!page.stats_active);
    assert_eq!(effects, vec![DetailEffect::PostRefresh]);
}

#[test]
fn an_inspection_revives_samples_and_logs_once() {
    let (mut page, _) = ContainerDetailPage::new(sample_container(ContainerState::Exited));
    let up = |result| DetailCmd::Inspected {
        result,
        started_unix: Some(10),
    };
    assert_eq!(
        page.update_cmd(up(Ok(sample_detail(ContainerState::Running)))),
        vec![
            DetailEffect::StartStats("abc".to_owned()),
            DetailEffect::EnsureLogs,
        ]
    );
    assert_eq!(page.started_unix, Some(10));
    assert_eq!(page.container.ports.len(), 2);
    assert_eq!(
        page.update_cmd(up(Ok(sample_detail(ContainerState::Running)))),
        vec![DetailEffect::EnsureLogs]
    );
    assert_eq!(page.update_cmd(DetailCmd::StatsEnded), vec![]);
    assert!(!page.stats_active);
    assert_eq!(
        page.update_cmd(up(Ok(sample_detail(ContainerState::Exited)))),
        vec![]
    );
    assert_eq!(page.started_unix, None);
    assert_eq!(page.update_cmd(up(Err("gone".to_owned()))), vec![]);
    assert_eq!(page.container.state, ContainerState::Exited);
}

#[test]
fn the_toggle_reads_the_current_state() {
    let (mut page, _) = ContainerDetailPage::new(sample_container(ContainerState::Exited));
    assert_eq!(
        page.update(DetailInput::ToggleClicked),
        vec![DetailEffect::Output(DetailOutput::Start("abc".to_owned()))]
    );
    page.update_cmd(DetailCmd::Inspected {
        result: Ok(sample_detail(ContainerState::Restarting)),
        started_unix: None,
    });
    assert_eq!(
        page.update(DetailInput::ToggleClicked),
        vec![DetailEffect::Output(DetailOutput::Stop("abc".to_owned()))]
    );
    assert_eq!(page.update(DetailInput::Tick), vec![]);
    assert_eq!(page.update(DetailInput::ActionFinished(true)), vec![]);
    assert_eq!(
        page.update(DetailInput::Refresh),
        vec![DetailEffect::Inspect("abc".to_owned())]
    );
}

fn inspected(state: ContainerState) -> DetailCmd {
    DetailCmd::Inspected {
        result: Ok(sample_detail(state)),
        started_unix: None,
    }
}

#[test]
fn a_failed_action_takes_its_feedback_back_at_once() {
    for (state, pending, label) in [
        (ContainerState::Running, RowPending::Stopping, "Stopping…"),
        (ContainerState::Restarting, RowPending::Stopping, "Stopping…"),
        (ContainerState::Exited, RowPending::Starting, "Starting…"),
        (ContainerState::Paused, RowPending::Starting, "Starting…"),
    ] {
        let (mut page, _) = ContainerDetailPage::new(sample_container(state));
        let before = (page.chip_label(), page.chip_variant());
        assert_eq!(page.pending, None);
        page.update(DetailInput::ToggleClicked);
        assert_eq!(page.pending, Some(pending));
        assert_eq!((page.chip_label(), page.chip_variant()), (label, "neutral"));
        assert_eq!(page.update(DetailInput::ActionFinished(false)), vec![]);
        assert_eq!(page.pending, None);
        assert!(!page.settled);
        assert_eq!((page.chip_label(), page.chip_variant()), before);
    }
}

#[test]
fn feedback_lasts_until_the_new_state_is_seen() {
    let (mut page, _) = ContainerDetailPage::new(sample_container(ContainerState::Running));
    page.update(DetailInput::ToggleClicked);
    // Before the action has ended, no state ends it.
    page.update_cmd(inspected(ContainerState::Stopping));
    assert_eq!(page.pending, Some(RowPending::Stopping));
    page.update_cmd(inspected(ContainerState::Running));
    assert_eq!(page.update(DetailInput::ActionFinished(true)), vec![]);
    assert_eq!(page.pending, Some(RowPending::Stopping));
    // An inspection that was sent before, a failed one and all else leave it.
    page.update_cmd(inspected(ContainerState::Running));
    page.update_cmd(DetailCmd::Inspected {
        result: Err("gone".to_owned()),
        started_unix: None,
    });
    page.update_cmd(DetailCmd::StatsSample(sample_stats()));
    page.update_cmd(DetailCmd::StatsEnded);
    page.update(DetailInput::Tick);
    page.update(DetailInput::Refresh);
    assert_eq!(page.chip_label(), "Stopping…");
    page.update_cmd(inspected(ContainerState::Exited));
    assert_eq!(page.pending, None);
    assert_eq!((page.chip_label(), page.chip_variant()), ("Exited", "neutral"));

    page.update(DetailInput::ToggleClicked);
    assert_eq!(page.chip_label(), "Starting…");
    // The new state was seen before the action ended; the next look ends the feedback.
    page.update_cmd(inspected(ContainerState::Running));
    page.update(DetailInput::ActionFinished(true));
    assert_eq!(page.chip_label(), "Starting…");
    page.update_cmd(inspected(ContainerState::Running));
    assert_eq!((page.chip_label(), page.chip_variant()), ("Running", "running"));
}

#[test]
fn an_action_from_elsewhere_leaves_the_next_click_alone() {
    let (mut page, _) = ContainerDetailPage::new(sample_container(ContainerState::Exited));
    page.update(DetailInput::ActionFinished(true));
    assert!(page.pending.is_none() && !page.settled);
    page.update(DetailInput::ToggleClicked);
    page.update_cmd(inspected(ContainerState::Running));
    assert_eq!(page.pending, Some(RowPending::Starting));
}

#[test]
fn the_page_and_a_row_show_one_chip() {
    let (mut page, _) = ContainerDetailPage::new(sample_container(ContainerState::Dead));
    for _ in 0..2 {
        let row = ContainerRow::init_model(ContainerRowInit {
            container: page.container.clone(),
            pending: page.pending,
        });
        assert_eq!(page.chip_label(), row.chip_label());
        assert_eq!(page.chip_variant(), row.chip_variant());
        page.update(DetailInput::ToggleClicked);
    }
}

#[test]
fn a_failed_sample_is_passed_over() {
    let stats = sample_stats();
    assert!(matches!(
        sample_message(Ok(stats)),
        Some(DetailCmd::StatsSample(sample)) if sample == stats
    ));
    assert!(sample_message(Err("why".to_owned())).is_none());
}

#[test]
fn the_page_shows_dashes_until_it_knows() {
    let (mut page, _) = ContainerDetailPage::new(sample_container(ContainerState::Running));
    assert_eq!(page.uptime(Some(1000)), "—");
    assert_eq!(page.mem_value(), "—");
    assert_eq!(page.cpu_value(), None);
    assert_eq!(page.command(), "—");
    assert_eq!(page.created(Some("never".to_owned())), "—");
    assert_eq!(page.ports(), "No published ports");

    let stats = sample_stats();
    assert_eq!(
        page.update_cmd(DetailCmd::StatsSample(stats)),
        vec![DetailEffect::Graph(stats)]
    );
    page.update_cmd(DetailCmd::Inspected {
        result: Ok(sample_detail(ContainerState::Running)),
        started_unix: Some(10),
    });
    assert_eq!(page.uptime(Some(322)), "5m 12s");
    assert_eq!(page.uptime(Some(3)), "0s");
    assert_eq!(page.uptime(None), "0s");
    assert_eq!(page.mem_value(), "340 MB / 2 GB");
    assert_eq!(page.cpu_value(), Some(stats));
    assert_eq!(page.command(), "postgres -c x");
    assert_eq!(page.created(None), "2026-07-17T16:12:55Z");
    assert_eq!(page.created(Some("nice".to_owned())), "nice");
    assert_eq!(page.ports(), "8080 → 80, 8443 → 443");
}

#[test]
fn a_stopped_container_hides_its_last_sample() {
    let (mut page, _) = ContainerDetailPage::new(sample_container(ContainerState::Running));
    page.update_cmd(DetailCmd::StatsSample(sample_stats()));
    page.update_cmd(DetailCmd::Inspected {
        result: Ok(sample_detail(ContainerState::Exited)),
        started_unix: Some(10),
    });
    assert_eq!(page.mem_value(), "—");
    assert_eq!(page.cpu_value(), None);
    assert_eq!(page.uptime(Some(1000)), "—");
}

#[test]
fn a_time_without_a_readable_form_shows_as_it_is() {
    assert_eq!(pretty_time("soon", None), "soon");
    assert_eq!(pretty_time("soon", Some("12:00".to_owned())), "12:00");
}

#[test]
fn a_graph_keeps_its_last_samples() {
    let mut graph: Sparkline<f64> = Sparkline::new();
    for i in 0..HISTORY + 5 {
        graph.update(SparklineInput::Push(i as f64));
        graph.update(SparklineInput::Redraw);
    }
    assert_eq!(graph.history.len(), HISTORY);
    assert_eq!(graph.history[0], 5.0);
    assert_eq!(graph.history[HISTORY - 1], (HISTORY + 4) as f64);
}
