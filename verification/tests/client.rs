//! Finding the daemon, connecting to it, and reading its failures.
use dockyard::docker::client::{
    acted, available_runtimes, candidates_in, connect, diagnose, docker_host, identify, inspect,
    list_containers, logs, nothing_found, permission_hint, reason_clause, resolve_endpoint,
    short_reason, start_hint, stats, status_hint, Candidate, ConnectEvent, ConnectStep,
    Connection, DockerError, Endpoint, Probe, Runtime, RuntimePreference, SystemVersion,
    SystemVersionComponents, DOCKER_ROOTFUL_SOCKET,
};
use dockyard::docker::types::{
    ContainerCpuStats, ContainerCpuUsage, ContainerInspectResponse, ContainerMemoryStats,
    ContainerStatsResponse, ContainerSummary,
};

/// A reply with the fields that `identify` reads.
fn version_payload(top_level: Option<&str>, components: &[(&str, &str)]) -> SystemVersion {
    SystemVersion {
        version: top_level.map(str::to_owned),
        components: Some(
            components
                .iter()
                .map(|(name, version)| SystemVersionComponents {
                    name: (*name).to_owned(),
                    version: (*version).to_owned(),
                })
                .collect(),
        ),
    }
}

fn bytes(text: &str) -> Vec<u8> {
    text.as_bytes().to_vec()
}

#[test]
fn identifies_podman_by_its_engine_component() {
    // Captured from the real rootless Podman 6.0.1 socket.
    let reported = version_payload(
        Some("6.0.1"),
        &[
            ("Podman Engine", "6.0.1"),
            ("Conmon", "conmon version 2.2.1"),
            ("OCI Runtime (runc)", "runc version 1.5.1"),
        ],
    );
    assert_eq!(identify(&reported), (Runtime::Podman, "6.0.1".to_owned()));
}

#[test]
fn identifies_docker_by_the_absence_of_podman() {
    // Captured from the real Docker 29.6.2 socket. Its engine component is
    // named just "Engine", so "no Podman Engine" is the whole test.
    let reported = version_payload(
        Some("29.6.2"),
        &[
            ("Engine", "29.6.2"),
            ("containerd", "2.2.1"),
            ("runc", "1.5.1"),
        ],
    );
    assert_eq!(identify(&reported), (Runtime::Docker, "29.6.2".to_owned()));
}

#[test]
fn falls_back_to_the_component_version() {
    // A daemon that fills Components but not the top-level Version.
    let reported = version_payload(None, &[("Podman Engine", "5.2.0")]);
    assert_eq!(identify(&reported), (Runtime::Podman, "5.2.0".to_owned()));
}

#[test]
fn an_empty_version_payload_is_not_fatal() {
    let reported = SystemVersion::default();
    assert_eq!(identify(&reported), (Runtime::Docker, "unknown".to_owned()));
}

#[test]
fn discovery_is_runtime_major_not_scope_major() {
    let paths: Vec<String> = candidates_in(Some(bytes("/run/user/1000")))
        .iter()
        .map(|candidate| candidate.display())
        .collect();

    assert_eq!(
        paths,
        vec![
            "/run/user/1000/docker.sock",
            "/var/run/docker.sock",
            "/run/user/1000/podman/podman.sock",
            "/run/podman/podman.sock",
        ]
    );
}

#[test]
fn without_xdg_runtime_dir_only_the_system_sockets_remain() {
    let candidates = candidates_in(None);
    assert_eq!(candidates.len(), 2);
    assert!(candidates.iter().all(|candidate| !candidate.rootless));
}

#[test]
fn preference_keys_round_trip() {
    for pref in [
        RuntimePreference::Auto,
        RuntimePreference::Docker,
        RuntimePreference::Podman,
    ] {
        assert_eq!(RuntimePreference::from_key(pref.as_key()), pref);
    }
}

#[test]
fn an_unreadable_preference_falls_back_to_auto() {
    // A hand-edited config file shouldn't be able to wedge the app.
    assert_eq!(RuntimePreference::from_key("crio"), RuntimePreference::Auto);
    assert_eq!(RuntimePreference::from_key(""), RuntimePreference::Auto);
}

#[test]
fn an_explicit_preference_admits_only_its_own_runtime() {
    assert!(RuntimePreference::Auto.admits(Runtime::Docker));
    assert!(RuntimePreference::Auto.admits(Runtime::Podman));
    assert!(RuntimePreference::Docker.admits(Runtime::Docker));
    assert!(!RuntimePreference::Docker.admits(Runtime::Podman));
    assert!(RuntimePreference::Podman.admits(Runtime::Podman));
    assert!(!RuntimePreference::Podman.admits(Runtime::Docker));
}

#[test]
fn the_not_found_message_names_the_right_remedy() {
    let candidates = candidates_in(Some(bytes("/run/user/1000")));
    let podman = nothing_found(RuntimePreference::Podman, &candidates);
    assert!(podman.contains("podman.socket"), "{podman}");
    assert!(!podman.contains("docker"), "{podman}");
    // DOCKER_HOST isn't consulted for an explicit Podman preference, so the
    // message mustn't claim we looked at it.
    assert!(!podman.contains("DOCKER_HOST"), "{podman}");

    let docker = nothing_found(RuntimePreference::Docker, &candidates);
    assert!(docker.contains("docker.socket"), "{docker}");
    assert!(docker.contains("DOCKER_HOST"), "{docker}");
    assert!(!docker.contains("podman"), "{docker}");
}

#[test]
fn the_remedy_differs_per_runtime_and_scope() {
    let rootless_podman = Candidate {
        path: bytes("/run/user/1000/podman/podman.sock"),
        runtime: Runtime::Podman,
        rootless: true,
    };
    // Podman's socket isn't enabled by default, so "enable --now" (not
    // "start") is the remedy that actually sticks.
    assert_eq!(
        start_hint(&rootless_podman),
        "    systemctl --user enable --now podman.socket"
    );
    // And it's the user's own socket — never suggest sudo for it.
    assert!(!permission_hint(&rootless_podman).contains("sudo"));

    let rootful_docker = Candidate {
        path: bytes(DOCKER_ROOTFUL_SOCKET),
        runtime: Runtime::Docker,
        rootless: false,
    };
    assert!(permission_hint(&rootful_docker).contains("usermod -aG docker"));
}

fn server_error(status_code: u16, message: &str) -> DockerError {
    DockerError::ServerError {
        status_code,
        message: message.to_owned(),
    }
}

#[test]
fn shortens_the_real_remove_refusal() {
    // Captured verbatim from the daemon. Note it quotes the full 64-char id
    // back, which is most of why the untrimmed toast ran to 234 characters.
    let err = server_error(
        409,
        "cannot remove container \
         \"f1635166cbf3f8c5a8a8ac3e39ab838f11cd610383bf6e0b8e3aabe1de1b0646\": \
         container is running: stop the container before removing or force remove",
    );
    assert_eq!(short_reason(&err), "container is running");
}

#[test]
fn a_missing_container_is_not_worth_quoting_docker_over() {
    let err = server_error(404, "No such container: dockyard-test");
    assert_eq!(short_reason(&err), "it no longer exists");
}

#[test]
fn a_500_still_shows_the_daemon_message() {
    let err = server_error(500, "server error");
    assert_eq!(short_reason(&err), "server error");
}

#[test]
fn transport_failures_dont_leak_bollard_internals() {
    // The daemon never answered, so there's no message worth a person's time.
    let err = DockerError::Other;
    assert_eq!(short_reason(&err), "Docker isn't responding");
}

#[test]
fn keeps_the_whole_message_when_it_isnt_the_expected_shape() {
    // A long toast beats a wrong one.
    let err = server_error(409, "something we have never seen before");
    assert_eq!(short_reason(&err), "something we have never seen before");
}

#[test]
fn reason_clause_drops_the_id_and_the_remedy() {
    assert_eq!(
        reason_clause("cannot remove container \"abc\": container is running: stop it first"),
        "container is running"
    );
}

#[test]
fn reason_clause_survives_a_message_with_no_id() {
    assert_eq!(
        reason_clause("driver failed programming"),
        "driver failed programming"
    );
}

#[test]
fn the_result_actually_fits_a_toast() {
    let err = server_error(
        409,
        "cannot remove container \
         \"f1635166cbf3f8c5a8a8ac3e39ab838f11cd610383bf6e0b8e3aabe1de1b0646\": \
         container is running: stop the container before removing or force remove",
    );
    // "Couldn't remove inventory_pos_db: " is ~33 chars; an adw::Toast
    // truncates around 60-70 in a 540px window.
    assert!(
        short_reason(&err).len() <= 30,
        "reason too long for a toast: {:?}",
        short_reason(&err)
    );
}

#[test]
fn a_reason_is_trimmed_of_any_white_space() {
    assert_eq!(reason_clause("  odd\u{2003}: rest \t"), "odd\u{2003}: rest");
    assert_eq!(reason_clause("x \"a\":  \u{a0}why\t : how"), "why");
    assert_eq!(reason_clause("x \"a\": : how"), "");
    assert_eq!(reason_clause("x \"a\": one \"b\": two"), "one \"b\"");
    assert_eq!(reason_clause("x \"a\": why "), "why");
}

#[test]
fn white_space_is_what_the_standard_library_says() {
    for c in '\0'..='\u{3100}' {
        let text = format!("{c}x{c}");
        assert_eq!(reason_clause(&text), text.trim(), "{c:?}");
    }
}

#[test]
fn an_action_went_well_or_gives_its_reason() {
    assert_eq!(acted(Ok(())), Ok(()));
    assert_eq!(
        acted(Err(server_error(409, "x \"a\": container is running: stop it"))),
        Err("container is running".to_owned())
    );
    assert_eq!(
        acted(Err(DockerError::Other)),
        Err("Docker isn't responding".to_owned())
    );
}

#[test]
fn a_message_of_another_shape_comes_back_whole() {
    assert_eq!(reason_clause("No such image: alpine"), "No such image: alpine");
    assert_eq!(reason_clause(": nothing before"), ": nothing before");
    assert_eq!(reason_clause("a \"b\":c: d"), "a \"b\":c: d");
    assert_eq!(reason_clause(""), "");
    assert_eq!(
        short_reason(&server_error(500, "No such image: alpine")),
        "No such image: alpine"
    );
}

#[test]
fn labels_and_keys_are_what_is_shown_and_stored() {
    assert_eq!(Runtime::Docker.label(), "Docker");
    assert_eq!(Runtime::Podman.label(), "Podman");
    assert_eq!(RuntimePreference::Auto.label(), "Automatic");
    assert_eq!(RuntimePreference::Docker.label(), "Docker");
    assert_eq!(RuntimePreference::Podman.label(), "Podman");
    assert_eq!(RuntimePreference::Podman.as_key(), "podman");
    assert_eq!(RuntimePreference::default(), RuntimePreference::Auto);
    let connection = Connection {
        runtime: Runtime::Podman,
        version: "6.0.1".to_owned(),
    };
    assert_eq!(connection.describe(), "Podman 6.0.1");
}

#[test]
fn socket_paths_join_with_one_slash() {
    assert_eq!(
        candidates_in(Some(bytes("/run/user/1000/")))[0].display(),
        "/run/user/1000/docker.sock"
    );
    let relative = candidates_in(Some(vec![]));
    assert_eq!(relative[0].display(), "docker.sock");
    assert_eq!(relative[2].display(), "podman/podman.sock");
}

#[test]
fn a_path_that_is_not_text_shows_with_marks() {
    let candidates = candidates_in(Some(vec![47, 255, 97]));
    assert_eq!(candidates[0].display(), "/\u{fffd}a/docker.sock");
    let step = connect(
        RuntimePreference::Auto,
        None,
        &candidates,
        &vec![true, true, true, true],
    );
    assert_eq!(
        step,
        ConnectStep::Failed {
            reason: "socket path isn't valid UTF-8".to_owned(),
        }
    );
}

#[test]
fn docker_host_counts_only_when_set_to_something() {
    assert_eq!(docker_host(None), None);
    assert_eq!(docker_host(Some(String::new())), None);
    assert_eq!(
        docker_host(Some("tcp://a:1".to_owned())),
        Some("tcp://a:1".to_owned())
    );
}

#[test]
fn offered_runtimes_come_once_each() {
    let candidates = candidates_in(Some(bytes("/r")));
    let none = vec![false, false, false, false];
    let all = vec![true, true, true, true];
    let podman_only = vec![false, false, true, true];
    let host = Some("tcp://a:1".to_owned());
    assert_eq!(available_runtimes(&None, &candidates, &none), vec![]);
    assert_eq!(
        available_runtimes(&None, &candidates, &all),
        vec![Runtime::Docker, Runtime::Podman]
    );
    assert_eq!(
        available_runtimes(&None, &candidates, &podman_only),
        vec![Runtime::Podman]
    );
    assert_eq!(
        available_runtimes(&host, &candidates, &podman_only),
        vec![Runtime::Docker, Runtime::Podman]
    );
}

#[test]
fn the_search_takes_the_first_admitted_socket() {
    let candidates = candidates_in(Some(bytes("/r")));
    let rootful_docker_rootless_podman = vec![false, true, true, false];
    let found = resolve_endpoint(
        RuntimePreference::Auto,
        None,
        &candidates,
        &rootful_docker_rootless_podman,
    );
    assert_eq!(found, Ok(Endpoint::Socket(candidates[1].clone())));
    let found = resolve_endpoint(
        RuntimePreference::Podman,
        Some("tcp://a:1".to_owned()),
        &candidates,
        &rootful_docker_rootless_podman,
    );
    assert_eq!(found, Ok(Endpoint::Socket(candidates[2].clone())));
    let found = resolve_endpoint(
        RuntimePreference::Docker,
        Some("tcp://a:1".to_owned()),
        &candidates,
        &rootful_docker_rootless_podman,
    );
    assert_eq!(found, Ok(Endpoint::DockerHost("tcp://a:1".to_owned())));
}

#[test]
fn finding_nothing_says_where_it_looked() {
    let candidates = candidates_in(Some(bytes("/r")));
    let found = resolve_endpoint(RuntimePreference::Auto, None, &candidates, &vec![]);
    assert_eq!(
        found,
        Err("No container runtime socket found. Checked $DOCKER_HOST and :\n    \
             /r/docker.sock\n    /var/run/docker.sock\n    /r/podman/podman.sock\n    \
             /run/podman/podman.sock\n\nIs it installed and running? Try:\n    \
             sudo systemctl enable --now docker.socket\nor:\n    \
             systemctl --user enable --now podman.socket"
            .to_owned())
    );
}

#[test]
fn hints_name_the_right_command() {
    let candidates = candidates_in(Some(bytes("/r")));
    let status: Vec<&str> = candidates.iter().map(status_hint).collect();
    assert_eq!(
        status,
        vec![
            "    systemctl --user status docker",
            "    systemctl status docker",
            "    systemctl --user status podman.socket",
            "    sudo systemctl status podman.socket",
        ]
    );
    let start: Vec<&str> = candidates.iter().map(start_hint).collect();
    assert_eq!(
        start,
        vec![
            "    systemctl --user start docker.socket",
            "    sudo systemctl start docker.socket",
            "    systemctl --user enable --now podman.socket",
            "    sudo systemctl enable --now podman.socket",
        ]
    );
}

#[test]
fn a_diagnosis_follows_what_the_socket_did() {
    let docker = &candidates_in(None)[0];
    assert_eq!(
        diagnose(docker, &Probe::Accepted),
        "The socket at /var/run/docker.sock accepted a connection, but the daemon didn't \
         respond.\n\nTry:\n    systemctl status docker"
    );
    assert_eq!(
        diagnose(docker, &Probe::PermissionDenied),
        "No permission to access /var/run/docker.sock.\n\nYou're probably not in the `docker` \
         group. Add yourself, then log out and back in:\n    sudo usermod -aG docker $USER"
    );
    assert_eq!(
        diagnose(docker, &Probe::ConnectionRefused),
        "Nothing is listening on /var/run/docker.sock.\n\nThe Docker daemon looks stopped. \
         Try:\n    sudo systemctl start docker.socket"
    );
    assert_eq!(
        diagnose(docker, &Probe::Failed("odd".to_owned())),
        "Can't connect to /var/run/docker.sock: odd"
    );
    let podman = &candidates_in(None)[1];
    assert_eq!(
        diagnose(podman, &Probe::PermissionDenied),
        "No permission to access /run/podman/podman.sock.\n\nThat's Podman's system socket, \
         which belongs to root. Rootless Podman is the usual setup:\n    \
         systemctl --user enable --now podman.socket"
    );
}

#[test]
fn connecting_over_a_socket_ends_with_what_answered() {
    let candidates = candidates_in(None);
    let step = connect(
        RuntimePreference::Podman,
        None,
        &candidates,
        &vec![true, true],
    );
    assert_eq!(
        step,
        ConnectStep::BuildForSocket {
            candidate: candidates[1].clone(),
            path: "/run/podman/podman.sock".to_owned(),
        }
    );
    let step = step.advance(ConnectEvent::Done);
    assert!(matches!(step, ConnectStep::Ping { .. }));
    let step = step.advance(ConnectEvent::Done);
    assert!(matches!(step, ConnectStep::AskVersion { .. }));
    let step = step.advance(ConnectEvent::Reported(version_payload(
        Some("6.0.1"),
        &[("Podman Engine", "6.0.1")],
    )));
    let connected = ConnectStep::Connected {
        connection: Connection {
            runtime: Runtime::Podman,
            version: "6.0.1".to_owned(),
        },
    };
    assert_eq!(step, connected);
    assert_eq!(step.advance(ConnectEvent::Done), connected);
}

#[test]
fn a_missing_version_falls_back_to_the_guess() {
    let socket = |i: usize| ConnectStep::AskVersion {
        endpoint: Endpoint::Socket(candidates_in(None)[i].clone()),
    };
    let host = ConnectStep::AskVersion {
        endpoint: Endpoint::DockerHost("tcp://a:1".to_owned()),
    };
    for (step, runtime) in [
        (socket(0), Runtime::Docker),
        (socket(1), Runtime::Podman),
        (host, Runtime::Docker),
    ] {
        assert_eq!(
            step.advance(ConnectEvent::Refused("gone".to_owned())),
            ConnectStep::Connected {
                connection: Connection {
                    runtime,
                    version: "unknown".to_owned(),
                },
            }
        );
    }
}

#[test]
fn a_dead_socket_is_looked_at_before_the_verdict() {
    let candidates = candidates_in(None);
    let ping = ConnectStep::Ping {
        endpoint: Endpoint::Socket(candidates[0].clone()),
    };
    let step = ping.advance(ConnectEvent::Refused("no answer".to_owned()));
    assert_eq!(
        step,
        ConnectStep::OpenSocket {
            candidate: candidates[0].clone(),
        }
    );
    assert_eq!(
        step.advance(ConnectEvent::Probed(Probe::ConnectionRefused)),
        ConnectStep::Failed {
            reason: diagnose(&candidates[0], &Probe::ConnectionRefused),
        }
    );
}

#[test]
fn each_step_fails_in_its_own_words() {
    let host = connect(
        RuntimePreference::Auto,
        Some("tcp://a:1".to_owned()),
        &vec![],
        &vec![],
    );
    assert_eq!(
        host,
        ConnectStep::BuildFromEnvironment {
            host: "tcp://a:1".to_owned(),
        }
    );
    assert_eq!(
        host.advance(ConnectEvent::Refused("bad scheme".to_owned())),
        ConnectStep::Failed {
            reason: "DOCKER_HOST is set to `tcp://a:1`, but that isn't usable: bad scheme"
                .to_owned(),
        }
    );
    let ping = ConnectStep::Ping {
        endpoint: Endpoint::DockerHost("tcp://a:1".to_owned()),
    };
    assert_eq!(
        ping.advance(ConnectEvent::Refused("timed out".to_owned())),
        ConnectStep::Failed {
            reason: "Couldn't reach a container runtime at `tcp://a:1`: timed out".to_owned(),
        }
    );
    let build = ConnectStep::BuildForSocket {
        candidate: candidates_in(None)[0].clone(),
        path: "/var/run/docker.sock".to_owned(),
    };
    assert_eq!(
        build.advance(ConnectEvent::Refused("no such file".to_owned())),
        ConnectStep::Failed {
            reason: "failed to build a client for /var/run/docker.sock: no such file".to_owned(),
        }
    );
}

fn named(id: Option<&str>, name: &str) -> ContainerSummary {
    ContainerSummary {
        id: id.map(str::to_owned),
        names: Some(vec![format!("/{name}")]),
        ..Default::default()
    }
}

#[test]
fn containers_come_by_name_and_without_an_id_not_at_all() {
    let reply = Ok(vec![
        named(Some("1"), "web"),
        named(None, "lost"),
        named(Some("2"), "db"),
        named(Some("3"), "web"),
        named(Some("4"), "Web"),
        named(Some("5"), "\u{e9}t\u{e9}"),
    ]);
    let ids: Vec<String> = list_containers(reply)
        .unwrap()
        .into_iter()
        .map(|container| container.id)
        .collect();
    assert_eq!(ids, vec!["4", "2", "1", "3", "5"]);
    assert_eq!(
        list_containers(Err(DockerError::Other)),
        Err("Docker isn't responding".to_owned())
    );
}

#[test]
fn replies_and_stream_items_turn_into_values_or_reasons() {
    assert!(inspect(Ok(ContainerInspectResponse::default())).is_ok());
    assert_eq!(
        inspect(Err(server_error(404, "No such container: x"))),
        Err("it no longer exists".to_owned())
    );
    assert_eq!(stats(Ok(ContainerStatsResponse::default())), None);
    assert_eq!(
        stats(Err(DockerError::Other)),
        Some(Err("Docker isn't responding".to_owned()))
    );
    let cpu = ContainerCpuStats {
        cpu_usage: Some(ContainerCpuUsage {
            total_usage: Some(3),
            percpu_usage: None,
        }),
        system_cpu_usage: Some(5),
        online_cpus: Some(4),
    };
    let frame = ContainerStatsResponse {
        cpu_stats: Some(cpu.clone()),
        precpu_stats: Some(cpu),
        memory_stats: Some(ContainerMemoryStats {
            usage: Some(9),
            limit: None,
            stats: None,
        }),
    };
    let sample = stats(Ok(frame)).unwrap().unwrap();
    assert_eq!((sample.cpus, sample.mem_used), (4, 9));
    assert_eq!(logs(Ok(bytes("héllo\n"))), Ok("héllo\n".to_owned()));
    assert_eq!(logs(Ok(vec![104, 255, 105])), Ok("h\u{fffd}i".to_owned()));
    assert_eq!(
        logs(Err(DockerError::Other)),
        Err("Docker isn't responding".to_owned())
    );
}
