//! Reading containers, details and samples off the daemon's replies.
use dockyard::docker::types::{
    parse_port_key, Container, ContainerConfig, ContainerCpuStats, ContainerCpuUsage,
    ContainerDetail, ContainerInspectResponse, ContainerMemoryStats, ContainerState,
    ContainerStatsResponse, ContainerSummary, InspectState, InspectStatus, NetworkSettings, Port,
    PortBinding, PortSummary, PortType, Protocol, Stats, SummaryState,
};

/// A summary with only an id: every other field is missing, which is a shape that the
/// daemon is allowed to give.
fn bare(id: &str) -> ContainerSummary {
    ContainerSummary {
        id: Some(id.to_owned()),
        ..Default::default()
    }
}

fn port(private: u16, public: Option<u16>, ip: &str) -> PortSummary {
    PortSummary {
        ip: Some(ip.to_owned()),
        private_port: private,
        public_port: public,
        typ: Some(PortType::Tcp),
    }
}

fn cpu_reading(total: u64, system: u64, cpus: u32) -> ContainerCpuStats {
    ContainerCpuStats {
        cpu_usage: Some(ContainerCpuUsage {
            total_usage: Some(total),
            percpu_usage: None,
        }),
        system_cpu_usage: Some(system),
        online_cpus: Some(cpus),
    }
}

fn cpu_percent(stats: &Stats) -> f64 {
    match stats.cpu_ratio() {
        Some((used, passed)) => used as f64 / passed as f64 * stats.cpus as f64 * 100.0,
        None => 0.0,
    }
}

#[test]
fn drops_a_summary_with_no_id() {
    let summary = ContainerSummary {
        names: Some(vec!["/orphan".to_owned()]),
        ..Default::default()
    };
    assert!(Container::from_summary(summary).is_none());
}

#[test]
fn computes_cpu_percent_from_the_delta() {
    let resp = ContainerStatsResponse {
        cpu_stats: Some(cpu_reading(200, 2000, 2)),
        precpu_stats: Some(cpu_reading(100, 1000, 2)),
        memory_stats: Some(ContainerMemoryStats {
            usage: Some(1000),
            limit: Some(4000),
            stats: Some(vec![("inactive_file".to_owned(), 200)]),
        }),
    };

    let stats = Stats::from_response(resp).expect("complete frame");
    // cpu_delta 100 / system_delta 1000 * 2 cpus * 100 = 20%
    assert!((cpu_percent(&stats) - 20.0).abs() < 1e-9);
    // 1000 usage minus 200 reclaimable cache
    assert_eq!(stats.mem_used, 800);
    assert_eq!(stats.mem_limit, 4000);
    assert_eq!(stats.cpu_ratio(), Some((100, 1000)));
    assert_eq!(stats.cpus, 2);
    assert_eq!(stats.mem_ratio(), Some((800, 4000)));
}

#[test]
fn maps_published_ports_from_inspect() {
    let resp = ContainerInspectResponse {
        network_settings: Some(NetworkSettings {
            ports: Some(vec![
                // Published: two interface bindings dedupe to one.
                (
                    "5432/tcp".to_owned(),
                    Some(vec![
                        PortBinding {
                            host_ip: Some("0.0.0.0".to_owned()),
                            host_port: Some("5432".to_owned()),
                        },
                        PortBinding {
                            host_ip: Some("::".to_owned()),
                            host_port: Some("5432".to_owned()),
                        },
                    ]),
                ),
                // Exposed but not published -> dropped.
                ("9000/tcp".to_owned(), None),
            ]),
        }),
        ..Default::default()
    };

    let ports = ContainerDetail::from_inspect(resp).ports;
    assert_eq!(ports.len(), 1);
    assert_eq!(ports[0].public, 5432);
    assert_eq!(ports[0].private, 5432);
    assert_eq!(ports[0].protocol, Protocol::Tcp);
}

#[test]
fn incomplete_stats_frame_is_none() {
    // No cpu_stats -> the first frame / a stopped container. Skip, don't zero.
    assert!(Stats::from_response(ContainerStatsResponse::default()).is_none());
}

#[test]
fn zero_system_delta_doesnt_divide_by_zero() {
    let cpu = cpu_reading(100, 1000, 1);
    let resp = ContainerStatsResponse {
        cpu_stats: Some(cpu.clone()),
        precpu_stats: Some(cpu), // same values -> zero deltas
        memory_stats: Some(ContainerMemoryStats {
            usage: Some(500),
            limit: Some(1000),
            stats: None,
        }),
    };
    let stats = Stats::from_response(resp).unwrap();
    assert_eq!(cpu_percent(&stats), 0.0);
    assert_eq!(stats.cpu_ratio(), None);
}

#[test]
fn strips_the_leading_slash_docker_puts_on_names() {
    let summary = ContainerSummary {
        names: Some(vec!["/inventory_pos_db".to_owned()]),
        ..bare("abc123")
    };
    let container = Container::from_summary(summary).expect("has an id");
    assert_eq!(container.name, "inventory_pos_db");
}

#[test]
fn takes_the_first_name_when_a_container_has_several() {
    let summary = ContainerSummary {
        names: Some(vec!["/first".to_owned(), "/second".to_owned()]),
        ..bare("abc123")
    };
    let container = Container::from_summary(summary).expect("has an id");
    assert_eq!(container.name, "first");
}

#[test]
fn falls_back_to_a_short_id_when_unnamed() {
    let container = Container::from_summary(bare("0123456789abcdef0123")).expect("has an id");
    assert_eq!(container.name, "0123456789ab", "should be 12 chars of id");
}

#[test]
fn dedupes_the_same_mapping_on_ipv4_and_ipv6() {
    let summary = ContainerSummary {
        ports: Some(vec![
            port(80, Some(8080), "0.0.0.0"),
            port(80, Some(8080), "::"),
        ]),
        ..bare("abc123")
    };
    let container = Container::from_summary(summary).expect("has an id");
    assert_eq!(container.ports.len(), 1);
    assert_eq!(container.ports[0].public, 8080);
    assert_eq!(container.ports[0].private, 80);
}

#[test]
fn drops_unpublished_ports() {
    let summary = ContainerSummary {
        ports: Some(vec![port(5432, None, "0.0.0.0")]),
        ..bare("abc123")
    };
    let container = Container::from_summary(summary).expect("has an id");
    assert!(container.ports.is_empty());
}

#[test]
fn keeps_distinct_ports_and_sorts_them() {
    let summary = ContainerSummary {
        ports: Some(vec![
            port(443, Some(8443), "0.0.0.0"),
            port(80, Some(8080), "0.0.0.0"),
        ]),
        ..bare("abc123")
    };
    let container = Container::from_summary(summary).expect("has an id");
    assert_eq!(container.ports.len(), 2);
    assert_eq!(container.ports[0].public, 8080, "sorted by public port");
    assert_eq!(container.ports[1].public, 8443);
}

#[test]
fn no_port_shows_twice_whatever_lies_between() {
    let with_type = |typ: PortType| PortSummary {
        typ: Some(typ),
        ..port(53, Some(53), "0.0.0.0")
    };
    let summary = ContainerSummary {
        ports: Some(vec![
            with_type(PortType::Tcp),
            with_type(PortType::Udp),
            with_type(PortType::Tcp),
            with_type(PortType::Udp),
        ]),
        ..bare("abc123")
    };
    let container = Container::from_summary(summary).expect("has an id");
    let protocols: Vec<Protocol> = container.ports.iter().map(|port| port.protocol).collect();
    assert_eq!(protocols, vec![Protocol::Tcp, Protocol::Udp]);
}

#[test]
fn missing_state_is_unknown_not_a_guess() {
    let container = Container::from_summary(bare("abc123")).expect("has an id");
    assert_eq!(container.state, ContainerState::Unknown);
    assert!(!container.state.is_running());
}

#[test]
fn maps_docker_states_we_act_on() {
    let cases = [
        (SummaryState::Running, ContainerState::Running, true),
        (SummaryState::Exited, ContainerState::Exited, false),
        (SummaryState::Paused, ContainerState::Paused, false),
        (SummaryState::Dead, ContainerState::Dead, false),
        // Restarting counts as running, so the button offers "stop".
        (SummaryState::Restarting, ContainerState::Restarting, true),
        // The empty string means "no state", not a state called "".
        (SummaryState::Empty, ContainerState::Unknown, false),
    ];

    for (docker_state, expected, running) in cases {
        let summary = ContainerSummary {
            state: Some(docker_state),
            ..bare("abc123")
        };
        let container = Container::from_summary(summary).expect("has an id");
        assert_eq!(container.state, expected, "mapping {docker_state:?}");
        assert_eq!(
            container.state.is_running(),
            running,
            "for {docker_state:?}"
        );
    }
}

#[test]
fn missing_image_does_not_render_an_empty_subtitle() {
    let container = Container::from_summary(bare("abc123")).expect("has an id");
    assert_eq!(container.image, "<unknown>");
}

#[test]
fn a_full_summary_keeps_its_fields() {
    let summary = ContainerSummary {
        id: Some("abc".to_owned()),
        names: Some(vec!["//db".to_owned()]),
        image: Some("postgres:17".to_owned()),
        state: Some(SummaryState::Running),
        status: Some("Up 39 minutes (healthy)".to_owned()),
        ports: Some(vec![
            PortSummary {
                ip: None,
                private_port: 53,
                public_port: Some(53),
                typ: Some(PortType::Udp),
            },
            PortSummary {
                ip: None,
                private_port: 53,
                public_port: Some(53),
                typ: None,
            },
        ]),
    };
    let container = Container::from_summary(summary).expect("has an id");
    assert_eq!(container.id, "abc");
    assert_eq!(container.name, "db");
    assert_eq!(container.image, "postgres:17");
    assert_eq!(container.status, "Up 39 minutes (healthy)");
    // The same numbers over two protocols are two ports.
    assert_eq!(container.ports.len(), 2);
    assert_eq!(container.clone(), container);
}

#[test]
fn an_empty_list_of_names_counts_as_unnamed() {
    let summary = ContainerSummary {
        names: Some(vec![]),
        ..bare("short")
    };
    assert_eq!(Container::from_summary(summary).unwrap().name, "short");
}

#[test]
fn ports_sort_by_public_then_private() {
    let summary = ContainerSummary {
        ports: Some(vec![
            port(90, Some(8080), "0.0.0.0"),
            port(80, Some(8080), "0.0.0.0"),
            port(90, Some(8080), "::"),
            port(1, Some(9), "::"),
        ]),
        ..bare("abc123")
    };
    let pairs: Vec<(u16, u16)> = Container::from_summary(summary)
        .unwrap()
        .ports
        .iter()
        .map(|port| (port.public, port.private))
        .collect();
    assert_eq!(pairs, vec![(9, 1), (8080, 80), (8080, 90)]);
}

#[test]
fn port_keys_name_a_port_and_a_protocol() {
    assert_eq!(parse_port_key("5432/tcp"), Some((5432, Protocol::Tcp)));
    assert_eq!(parse_port_key("53/udp"), Some((53, Protocol::Udp)));
    assert_eq!(parse_port_key("7/sctp"), Some((7, Protocol::Sctp)));
    assert_eq!(parse_port_key("7/quic"), Some((7, Protocol::Tcp)));
    assert_eq!(parse_port_key("+7/tcp"), Some((7, Protocol::Tcp)));
    assert_eq!(parse_port_key("65535/tcp"), Some((65535, Protocol::Tcp)));
    assert_eq!(parse_port_key("65536/tcp"), None);
    assert_eq!(parse_port_key("/tcp"), None);
    assert_eq!(parse_port_key("-1/tcp"), None);
    assert_eq!(parse_port_key("80"), None);
    assert_eq!(parse_port_key("eighty/tcp"), None);
}

fn bound(key: &str, ports: &[&str]) -> (String, Option<Vec<PortBinding>>) {
    let bindings = ports
        .iter()
        .map(|port| PortBinding {
            host_ip: None,
            host_port: Some((*port).to_owned()),
        })
        .collect();
    (key.to_owned(), Some(bindings))
}

fn inspected(entries: Vec<(String, Option<Vec<PortBinding>>)>) -> Vec<Port> {
    ContainerDetail::from_inspect(ContainerInspectResponse {
        network_settings: Some(NetworkSettings {
            ports: Some(entries),
        }),
        ..Default::default()
    })
    .ports
}

#[test]
fn the_first_binding_that_names_a_port_counts() {
    let ports = inspected(vec![bound("80/tcp", &["", "x", "8080", "9090"])]);
    assert_eq!(
        ports,
        vec![Port {
            private: 80,
            public: 8080,
            protocol: Protocol::Tcp,
        }]
    );
    assert!(inspected(vec![bound("80/tcp", &[""]), bound("bad", &["1"])]).is_empty());
}

#[test]
fn inspected_ports_come_out_the_same_in_any_order() {
    let a = bound("80/tcp", &["8080"]);
    let b = bound("443/tcp", &["8443"]);
    let c = bound("53/udp", &["53"]);
    let one = inspected(vec![a.clone(), b.clone(), c.clone()]);
    let other = inspected(vec![c, b, a]);
    assert_eq!(one, other);
    assert_eq!(one.len(), 3);
}

#[test]
fn a_detail_shows_what_the_inspection_says() {
    let resp = ContainerInspectResponse {
        state: Some(InspectState {
            status: Some(InspectStatus::Running),
            running: Some(true),
            started_at: Some("2026-07-17T16:12:55Z".to_owned()),
        }),
        created: Some("2026-07-01T00:00:00Z".to_owned()),
        config: Some(ContainerConfig {
            entrypoint: Some(vec!["docker-entrypoint.sh".to_owned()]),
            cmd: Some(vec!["postgres".to_owned(), "-c".to_owned()]),
        }),
        network_settings: None,
    };
    let detail = ContainerDetail::from_inspect(resp);
    assert_eq!(detail.state, ContainerState::Running);
    assert_eq!(detail.started_at.as_deref(), Some("2026-07-17T16:12:55Z"));
    assert_eq!(detail.created.as_deref(), Some("2026-07-01T00:00:00Z"));
    assert_eq!(
        detail.command.as_deref(),
        Some("docker-entrypoint.sh postgres -c")
    );
    assert!(detail.ports.is_empty());
}

#[test]
fn a_stopped_container_has_no_start_time_and_no_command_means_none() {
    let resp = ContainerInspectResponse {
        state: Some(InspectState {
            status: Some(InspectStatus::Exited),
            running: Some(false),
            started_at: Some("2026-07-17T16:12:55Z".to_owned()),
        }),
        config: Some(ContainerConfig {
            entrypoint: None,
            cmd: Some(vec![]),
        }),
        ..Default::default()
    };
    let detail = ContainerDetail::from_inspect(resp);
    assert_eq!(detail.state, ContainerState::Exited);
    assert_eq!(detail.started_at, None);
    assert_eq!(detail.command, None);
    assert_eq!(
        ContainerDetail::from_inspect(ContainerInspectResponse::default()).state,
        ContainerState::Unknown
    );
}

#[test]
fn both_state_lists_map_alike() {
    let pairs = [
        (SummaryState::Created, InspectStatus::Created),
        (SummaryState::Running, InspectStatus::Running),
        (SummaryState::Paused, InspectStatus::Paused),
        (SummaryState::Restarting, InspectStatus::Restarting),
        (SummaryState::Stopping, InspectStatus::Stopping),
        (SummaryState::Exited, InspectStatus::Exited),
        (SummaryState::Removing, InspectStatus::Removing),
        (SummaryState::Dead, InspectStatus::Dead),
        (SummaryState::Empty, InspectStatus::Empty),
    ];
    for (listed, inspected) in pairs {
        assert_eq!(
            ContainerState::from(listed),
            ContainerState::from(inspected)
        );
    }
    assert_eq!(Protocol::from(PortType::Empty), Protocol::Tcp);
    assert_eq!(Protocol::from(PortType::Sctp), Protocol::Sctp);
}

#[test]
fn a_sample_survives_missing_and_odd_numbers() {
    let resp = ContainerStatsResponse {
        cpu_stats: Some(ContainerCpuStats {
            cpu_usage: Some(ContainerCpuUsage {
                total_usage: Some(10),
                percpu_usage: None,
            }),
            system_cpu_usage: Some(50),
            online_cpus: Some(0),
        }),
        precpu_stats: Some(ContainerCpuStats {
            cpu_usage: Some(ContainerCpuUsage {
                total_usage: Some(0),
                percpu_usage: None,
            }),
            system_cpu_usage: Some(60),
            online_cpus: None,
        }),
        memory_stats: Some(ContainerMemoryStats {
            usage: Some(100),
            limit: None,
            stats: Some(vec![
                ("active_file".to_owned(), 7),
                ("inactive_file".to_owned(), 300),
            ]),
        }),
    };
    let stats = Stats::from_response(resp).unwrap();
    assert_eq!(stats.cpu_delta, 10);
    assert_eq!(stats.system_delta, 0);
    assert_eq!(stats.cpus, 1);
    assert_eq!(stats.mem_used, 0);
    assert_eq!(stats.mem_limit, 0);
    assert_eq!(stats.mem_ratio(), None);
}

#[test]
fn the_first_frame_gives_no_sample() {
    let nothing = ContainerCpuStats {
        cpu_usage: None,
        system_cpu_usage: None,
        online_cpus: None,
    };
    let frame = |pre: Option<ContainerCpuStats>| ContainerStatsResponse {
        cpu_stats: Some(cpu_reading(200, 2000, 2)),
        precpu_stats: pre,
        memory_stats: Some(ContainerMemoryStats {
            usage: Some(1000),
            limit: None,
            stats: None,
        }),
    };
    assert!(Stats::from_response(frame(None)).is_none());
    assert!(Stats::from_response(frame(Some(nothing.clone()))).is_none());
    // Half a reading before is none either.
    let no_system = ContainerCpuStats {
        system_cpu_usage: None,
        ..cpu_reading(100, 1000, 2)
    };
    assert!(Stats::from_response(frame(Some(no_system))).is_none());
    let no_total = ContainerCpuStats {
        cpu_usage: None,
        ..cpu_reading(100, 1000, 2)
    };
    assert!(Stats::from_response(frame(Some(no_total))).is_none());
    assert!(Stats::from_response(frame(Some(cpu_reading(100, 1000, 2)))).is_some());
}

#[test]
fn cpus_are_counted_one_by_one_where_their_number_is_missing() {
    let frame = |online: Option<u32>, list: Option<Vec<u64>>| ContainerStatsResponse {
        cpu_stats: Some(ContainerCpuStats {
            cpu_usage: Some(ContainerCpuUsage {
                total_usage: Some(200),
                percpu_usage: list,
            }),
            system_cpu_usage: Some(2000),
            online_cpus: online,
        }),
        precpu_stats: Some(cpu_reading(100, 1000, 8)),
        memory_stats: Some(ContainerMemoryStats {
            usage: Some(1000),
            limit: None,
            stats: None,
        }),
    };
    let stats = Stats::from_response(frame(None, Some(vec![50, 50, 50, 50]))).unwrap();
    assert_eq!(stats.cpus, 4);
    assert_eq!(cpu_percent(&stats), 40.0);
    let stats = Stats::from_response(frame(Some(2), Some(vec![50, 50, 50, 50]))).unwrap();
    assert_eq!(stats.cpus, 2);
    assert_eq!(Stats::from_response(frame(None, Some(vec![]))).unwrap().cpus, 1);
    assert_eq!(Stats::from_response(frame(None, None)).unwrap().cpus, 1);
}

#[test]
fn a_sample_needs_every_current_reading() {
    let full = ContainerStatsResponse {
        cpu_stats: Some(cpu_reading(2, 2, 1)),
        precpu_stats: Some(cpu_reading(1, 1, 1)),
        memory_stats: Some(ContainerMemoryStats {
            usage: Some(1),
            limit: Some(2),
            stats: None,
        }),
    };
    assert!(Stats::from_response(full.clone()).is_some());
    let mut frame = full.clone();
    frame.precpu_stats = None;
    assert!(Stats::from_response(frame).is_none());
    let mut frame = full.clone();
    frame.memory_stats = None;
    assert!(Stats::from_response(frame).is_none());
    let mut frame = full.clone();
    frame.cpu_stats = Some(ContainerCpuStats {
        cpu_usage: None,
        system_cpu_usage: Some(2),
        online_cpus: None,
    });
    assert!(Stats::from_response(frame).is_none());
    let mut frame = full;
    frame.cpu_stats = Some(ContainerCpuStats {
        cpu_usage: Some(ContainerCpuUsage {
            total_usage: Some(2),
            percpu_usage: None,
        }),
        system_cpu_usage: None,
        online_cpus: None,
    });
    assert!(Stats::from_response(frame).is_none());
}
