//! The app's answers to what happens.
use dockyard::app::{
    detail_message, holds_needle, listed, remove_response, row_message, row_pending, Action,
    AppEffect, AppModel, AppMsg, CommandMsg, ViewState, POLL_INTERVAL_SECS,
};
use dockyard::components::container_detail::DetailOutput;
use dockyard::components::container_row::{ContainerRowOutput, RowPending};
use dockyard::docker::client::list_containers;
use dockyard::docker::types::{Container, ContainerState, ContainerSummary};
use dockyard::settings::{Settings, Theme};

fn container(id: &str, name: &str, image: &str, state: ContainerState) -> Container {
    Container {
        id: id.to_owned(),
        name: name.to_owned(),
        image: image.to_owned(),
        state,
        status: String::new(),
        ports: vec![],
    }
}

fn three() -> Vec<Container> {
    vec![
        container("1", "api", "node:22", ContainerState::Running),
        container("2", "db", "Postgres:17", ContainerState::Running),
        container("3", "web", "nginx", ContainerState::Exited),
    ]
}

fn connected() -> AppModel {
    let (mut app, _) = AppModel::new(Settings::default());
    app.update_cmd(CommandMsg::Connected(Ok(())));
    app.update_cmd(CommandMsg::ContainersLoaded(three()));
    app
}

fn names(app: &AppModel) -> Vec<&str> {
    app.containers.iter().map(|row| row.name()).collect()
}

#[test]
fn the_app_begins_by_connecting() {
    let (app, effects) = AppModel::new(Settings::default());
    assert!(matches!(effects[..], [AppEffect::Connect]));
    assert_eq!(app.state, ViewState::Loading);
    assert_eq!(app.header_subtitle(), "");
    assert_eq!(app.list_page(), "empty");
    assert_eq!(POLL_INTERVAL_SECS, 2);
}

#[test]
fn a_connection_starts_the_poll_and_refreshes() {
    let (mut app, _) = AppModel::new(Settings::default());
    let effects = app.update_cmd(CommandMsg::Connected(Ok(())));
    assert!(matches!(
        effects[..],
        [
            AppEffect::EnableRefresh,
            AppEffect::WatchSuspended,
            AppEffect::StartPoll,
            AppEffect::PostRefresh,
        ]
    ));
    assert_eq!(app.state, ViewState::Ready);
    assert_eq!(app.header_subtitle(), "No containers");
    assert!(matches!(
        app.update(AppMsg::Refresh)[..],
        [AppEffect::ListContainers]
    ));
}

#[test]
fn a_failed_connection_says_why_and_does_nothing() {
    let (mut app, _) = AppModel::new(Settings::default());
    assert!(app
        .update_cmd(CommandMsg::Connected(Err("no socket".to_owned())))
        .is_empty());
    assert_eq!(app.state, ViewState::Disconnected("no socket".to_owned()));
    assert!(app.update(AppMsg::Refresh).is_empty());
    assert!(app.update(AppMsg::Start("1".to_owned())).is_empty());
    assert!(app.update(AppMsg::ShowDetails("1".to_owned())).is_empty());
    assert!(app.pending.is_empty());
    assert_eq!(app.header_subtitle(), "");
}

#[test]
fn the_header_counts_all_whatever_the_search() {
    let mut app = connected();
    assert_eq!(app.header_subtitle(), "3 containers · 2 running");
    app.update(AppMsg::SearchChanged("zzz".to_owned()));
    assert_eq!(app.header_subtitle(), "3 containers · 2 running");
    assert_eq!(app.list_page(), "no-results");
    assert_eq!(app.no_results_text(), "No containers match “zzz”.");
    app.update_cmd(CommandMsg::ContainersLoaded(vec![container(
        "3",
        "web",
        "nginx",
        ContainerState::Exited,
    )]));
    assert_eq!(app.header_subtitle(), "1 container · 0 running");
}

#[test]
fn the_search_reads_names_and_images_in_any_case() {
    let mut app = connected();
    app.update(AppMsg::SearchChanged("POST".to_owned()));
    assert_eq!(names(&app), vec!["db"]);
    app.update(AppMsg::SearchChanged("N".to_owned()));
    assert_eq!(names(&app), vec!["api", "web"]);
    app.update(AppMsg::SearchChanged("W".to_owned()));
    assert_eq!(names(&app), vec!["web"]);
    app.update(AppMsg::SearchChanged(String::new()));
    assert_eq!(names(&app), vec!["api", "db", "web"]);
    assert_eq!(app.list_page(), "list");
}

#[test]
fn a_poll_with_the_same_containers_keeps_the_rows() {
    let mut app = connected();
    let mut fresh = three();
    fresh[2].state = ContainerState::Running;
    let effects = app.update_cmd(CommandMsg::ContainersLoaded(fresh));
    assert_eq!(effects.len(), 3);
    for (i, effect) in effects.iter().enumerate() {
        match effect {
            AppEffect::UpdateRow { index, container } => {
                assert_eq!(*index, i);
                assert_eq!(container, &app.containers[i].container);
            }
            other => panic!("{other:?}"),
        }
    }
    assert_eq!(app.containers[2].container.state, ContainerState::Running);
}

#[test]
fn a_changed_list_is_built_anew_with_what_is_under_way() {
    let mut app = connected();
    app.update(AppMsg::Stop("2".to_owned()));
    let effects = app.update(AppMsg::SearchChanged("db".to_owned()));
    match &effects[..] {
        [AppEffect::RebuildRows(rows)] => {
            assert_eq!(rows.len(), 1);
            assert_eq!(rows[0].container.id, "2");
            assert_eq!(rows[0].pending, Some(RowPending::Stopping));
        }
        other => panic!("{other:?}"),
    }
    assert_eq!(app.containers[0].pending, Some(RowPending::Stopping));
}

#[test]
fn an_action_spins_its_row_until_it_ends() {
    let mut app = connected();
    let effects = app.update(AppMsg::Restart("2".to_owned()));
    match &effects[..] {
        [AppEffect::SetRowPending { index, pending }, AppEffect::RunAction { id, action }] => {
            assert_eq!((*index, *pending), (1, Some(RowPending::Restarting)));
            assert_eq!((id.as_str(), *action), ("2", Action::Restart));
        }
        other => panic!("{other:?}"),
    }
    app.update(AppMsg::Start("3".to_owned()));
    let effects = app.update_cmd(CommandMsg::ActionDone {
        id: "2".to_owned(),
        action: Action::Restart,
        result: Ok(()),
    });
    assert!(matches!(
        effects[..],
        [
            AppEffect::SetRowPending {
                index: 1,
                pending: None
            },
            AppEffect::PostRefresh
        ]
    ));
    assert_eq!(app.containers[1].pending, None);
    assert_eq!(app.containers[2].pending, Some(RowPending::Starting));
}

#[test]
fn a_failed_action_names_the_container_and_the_verb() {
    let mut app = connected();
    app.update(AppMsg::RemoveConfirmed("2".to_owned()));
    let effects = app.update_cmd(CommandMsg::ActionDone {
        id: "2".to_owned(),
        action: Action::Remove,
        result: Err("container is running".to_owned()),
    });
    match &effects[..] {
        [AppEffect::SetRowPending { .. }, AppEffect::PostError(text), AppEffect::PostRefresh] => {
            assert_eq!(text, "Couldn't remove db: container is running");
        }
        other => panic!("{other:?}"),
    }
    let effects = app.update_cmd(CommandMsg::ActionDone {
        id: "0123456789abcdef".to_owned(),
        action: Action::Stop,
        result: Err("it no longer exists".to_owned()),
    });
    match &effects[..] {
        [AppEffect::PostError(text), AppEffect::PostRefresh] => {
            assert_eq!(text, "Couldn't stop 0123456789ab: it no longer exists");
        }
        other => panic!("{other:?}"),
    }
    match &app.update(AppMsg::Error("oh".to_owned()))[..] {
        [AppEffect::Toast(text)] => assert_eq!(text, "oh"),
        other => panic!("{other:?}"),
    }
}

#[test]
fn removing_asks_first() {
    let mut app = connected();
    let effects = app.update(AppMsg::Remove("2".to_owned()));
    match &effects[..] {
        [AppEffect::ConfirmRemove { id, text }] => {
            assert_eq!(id, "2");
            assert_eq!(
                text,
                "“db” will be permanently removed. This can't be undone."
            );
        }
        other => panic!("{other:?}"),
    }
    assert!(app.pending.is_empty());
    assert_eq!(remove_response("cancel", "2".to_owned()), None);
    assert_eq!(
        remove_response("remove", "2".to_owned()),
        Some(AppMsg::RemoveConfirmed("2".to_owned()))
    );
}

#[test]
fn the_poll_is_silent_and_the_users_refresh_is_not() {
    let mut app = connected();
    app.update(AppMsg::Refresh);
    assert!(!app.refreshing);
    assert!(matches!(
        app.update(AppMsg::ManualRefresh)[..],
        [AppEffect::PostRefresh]
    ));
    assert!(app.refreshing);
    app.update_cmd(CommandMsg::ContainersLoaded(three()));
    assert!(!app.refreshing);
    app.update(AppMsg::ManualRefresh);
    match &app.update_cmd(CommandMsg::ListFailed("gone".to_owned()))[..] {
        [AppEffect::PostError(text)] => assert_eq!(text, "Couldn't refresh: gone"),
        other => panic!("{other:?}"),
    }
    assert!(!app.refreshing);
}

#[test]
fn the_poll_pauses_out_of_sight_and_under_a_page() {
    let mut app = connected();
    assert!(matches!(
        app.update(AppMsg::SuspendedChanged(true))[..],
        [AppEffect::StopPoll]
    ));
    assert!(app.update(AppMsg::SuspendedChanged(true)).is_empty());
    assert!(matches!(
        app.update(AppMsg::SuspendedChanged(false))[..],
        [AppEffect::StartPoll, AppEffect::PostRefresh]
    ));
    assert!(matches!(
        app.update(AppMsg::SuspendedChanged(false))[..],
        [AppEffect::PostRefresh]
    ));
    let effects = app.update(AppMsg::ShowDetails("2".to_owned()));
    match &effects[..] {
        [AppEffect::OpenDetail {
            container,
            logs_wrap,
            logs_timestamps,
        }, AppEffect::StopPoll] => {
            assert_eq!(container.name, "db");
            assert!(*logs_wrap && !*logs_timestamps);
        }
        other => panic!("{other:?}"),
    }
    assert_eq!(app.detail_id.as_deref(), Some("2"));
    assert!(matches!(
        app.update(AppMsg::PageClosed)[..],
        [
            AppEffect::CloseDetail,
            AppEffect::StartPoll,
            AppEffect::PostRefresh
        ]
    ));
    assert_eq!(app.detail_id, None);
}

#[test]
fn the_detail_page_hears_of_its_own_container_only() {
    let mut app = connected();
    app.update(AppMsg::ShowDetails("2".to_owned()));
    let done = |id: &str, result| CommandMsg::ActionDone {
        id: id.to_owned(),
        action: Action::Start,
        result,
    };
    let told = |effects: &[AppEffect]| {
        effects
            .iter()
            .filter_map(|effect| match effect {
                AppEffect::NotifyDetail(ok) => Some(*ok),
                _ => None,
            })
            .collect::<Vec<bool>>()
    };
    assert_eq!(told(&app.update_cmd(done("2", Ok(())))), vec![true]);
    assert_eq!(
        told(&app.update_cmd(done("2", Err("no".to_owned())))),
        vec![false]
    );
    assert!(told(&app.update_cmd(done("3", Ok(())))).is_empty());
}

#[test]
fn settings_are_stored_as_they_change() {
    let mut app = connected();
    assert!(matches!(
        app.update(AppMsg::SetLogsWrap(false))[..],
        [AppEffect::SaveSettings]
    ));
    assert!(matches!(
        app.update(AppMsg::SetLogsTimestamps(true))[..],
        [AppEffect::SaveSettings]
    ));
    assert!(matches!(
        app.update(AppMsg::SetTheme(Theme::Dark))[..],
        [AppEffect::SaveSettings, AppEffect::ApplyTheme]
    ));
    assert_eq!(
        app.settings,
        Settings {
            logs_wrap: false,
            logs_timestamps: true,
            theme: Theme::Dark,
        }
    );
    assert!(matches!(
        app.update(AppMsg::ShowAbout)[..],
        [AppEffect::ShowAbout]
    ));
    assert!(matches!(
        app.update(AppMsg::ShowPreferences)[..],
        [AppEffect::ShowPreferences]
    ));
}

#[test]
fn parts_of_the_window_speak_to_the_app() {
    let id = || "1".to_owned();
    assert_eq!(
        row_message(ContainerRowOutput::Start(id())),
        AppMsg::Start(id())
    );
    assert_eq!(
        row_message(ContainerRowOutput::Stop(id())),
        AppMsg::Stop(id())
    );
    assert_eq!(
        row_message(ContainerRowOutput::Restart(id())),
        AppMsg::Restart(id())
    );
    assert_eq!(
        row_message(ContainerRowOutput::Remove(id())),
        AppMsg::Remove(id())
    );
    assert_eq!(
        row_message(ContainerRowOutput::ShowDetails(id())),
        AppMsg::ShowDetails(id())
    );
    assert_eq!(detail_message(DetailOutput::Start(id())), AppMsg::Start(id()));
    assert_eq!(detail_message(DetailOutput::Stop(id())), AppMsg::Stop(id()));
    assert_eq!(row_pending(Action::Start), RowPending::Starting);
    assert_eq!(row_pending(Action::Stop), RowPending::Stopping);
    assert_eq!(row_pending(Action::Restart), RowPending::Restarting);
    assert_eq!(row_pending(Action::Remove), RowPending::Removing);
    assert_eq!(Action::Start.verb(), "start");
    assert_eq!(Action::Remove.verb(), "remove");
}

/// What a screen and a timer make of effects, one after the other.
fn carry_out(
    effects: &[AppEffect],
    rows: &mut Vec<(Container, Option<RowPending>)>,
    timer: &mut bool,
) {
    for effect in effects {
        match effect {
            AppEffect::UpdateRow { index, container } => rows[*index].0 = container.clone(),
            AppEffect::SetRowPending { index, pending } => rows[*index].1 = *pending,
            AppEffect::RebuildRows(inits) => {
                *rows = inits
                    .iter()
                    .map(|init| (init.container.clone(), init.pending))
                    .collect();
            }
            AppEffect::StartPoll => {
                assert!(!*timer, "a second timer");
                *timer = true;
            }
            AppEffect::StopPoll => {
                assert!(*timer, "no timer to take away");
                *timer = false;
            }
            _ => {}
        }
    }
}

#[test]
fn the_screen_and_the_timer_follow_the_app() {
    let (mut app, effects) = AppModel::new(Settings::default());
    let mut rows = Vec::new();
    let mut timer = false;
    carry_out(&effects, &mut rows, &mut timer);
    let id = |id: &str| id.to_owned();
    for round in 0..3 {
        let mut listed = three();
        if round == 1 {
            listed.remove(0);
        }
        let answers = [
            app.update_cmd(CommandMsg::Connected(Ok(()))),
            app.update_cmd(CommandMsg::ContainersLoaded(listed)),
            app.update(AppMsg::Start(id("3"))),
            app.update(AppMsg::Stop(id("gone"))),
            app.update(AppMsg::SearchChanged("b".to_owned())),
            app.update(AppMsg::SuspendedChanged(true)),
            app.update(AppMsg::SuspendedChanged(true)),
            app.update(AppMsg::SuspendedChanged(false)),
            app.update(AppMsg::ShowDetails(id("2"))),
            app.update(AppMsg::SearchChanged(String::new())),
            app.update_cmd(CommandMsg::ActionDone {
                id: id("3"),
                action: Action::Start,
                result: Ok(()),
            }),
            app.update(AppMsg::Restart(id("2"))),
            app.update(AppMsg::PageClosed),
            app.update(AppMsg::PageClosed),
        ];
        for effects in answers {
            carry_out(&effects, &mut rows, &mut timer);
        }
        let expected: Vec<(Container, Option<RowPending>)> = app
            .containers
            .iter()
            .map(|row| (row.container.clone(), row.pending))
            .collect();
        assert_eq!(rows, expected);
        assert_eq!(timer, app.polling);
        // Each row shows what is under way for its container.
        for (container, pending) in &rows {
            let entry = app.pending.iter().find(|(id, _)| *id == container.id);
            assert_eq!(*pending, entry.map(|(_, action)| row_pending(*action)));
        }
    }
    assert_eq!(app.pending.len(), 2);
}

#[test]
fn rows_stand_by_name_after_a_refresh() {
    let summary = |id: &str, name: &str| ContainerSummary {
        id: Some(id.to_owned()),
        names: Some(vec![format!("/{name}")]),
        ..Default::default()
    };
    let reply = vec![summary("1", "web"), summary("2", "api"), summary("3", "db")];
    let mut app = connected();
    app.update_cmd(CommandMsg::ContainersLoaded(
        list_containers(Ok(reply)).unwrap(),
    ));
    assert_eq!(names(&app), vec!["api", "db", "web"]);
}

#[test]
fn a_list_is_loaded_or_failed() {
    let all = three();
    assert_eq!(
        listed(Ok(all.clone())),
        CommandMsg::ContainersLoaded(all)
    );
    assert_eq!(
        listed(Err("why".to_owned())),
        CommandMsg::ListFailed("why".to_owned())
    );
}

#[test]
fn a_search_goes_beyond_ascii() {
    let mut app = connected();
    app.update_cmd(CommandMsg::ContainersLoaded(vec![
        container("1", "\u{c9}TOILE", "x", ContainerState::Running),
        container("2", "\u{130}stanbul", "x", ContainerState::Running),
        container("3", "plain", "x", ContainerState::Running),
    ]));
    app.update(AppMsg::SearchChanged("\u{e9}toile".to_owned()));
    assert_eq!(app.containers.len(), 1);
    assert_eq!(app.containers[0].id(), "1");
    app.update(AppMsg::SearchChanged("I\u{307}ST".to_owned()));
    assert_eq!(app.containers.len(), 1);
    assert_eq!(app.containers[0].id(), "2");
}

#[test]
fn a_needle_may_stand_in_name_or_image() {
    assert!(holds_needle("", "", ""));
    assert!(holds_needle("b", "abc", "x"));
    assert!(holds_needle("x", "abc", "yx"));
    assert!(!holds_needle("abcd", "abc", "bcd"));
    assert!(!holds_needle("B", "abc", "abc"));
}
