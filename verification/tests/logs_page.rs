//! The logs of a container.
use dockyard::components::logs_page::{
    hms, log_message, parse_line, synthetic, LogsCmd, LogsEffect, LogsInput, LogsPage, MAX_LINES,
};

#[test]
fn strips_the_docker_timestamp_to_hms() {
    let line = parse_line("2026-07-17T16:12:55.569805817Z checkpoint starting");
    assert_eq!(line.time, "16:12:55");
    assert_eq!(line.message, "checkpoint starting");
}

#[test]
fn a_line_without_a_timestamp_is_all_message() {
    let line = parse_line("— end of logs —");
    assert!(line.time.is_empty());
    assert_eq!(line.message, "— end of logs —");
}

#[test]
fn keeps_the_apps_own_timestamp_in_the_message() {
    // Docker's stamp is stripped; postgres's own stays part of the message.
    let line = parse_line("2026-07-17T16:12:55.5Z 2026-07-17 16:12:55 UTC [27] LOG: hi");
    assert_eq!(line.time, "16:12:55");
    assert_eq!(line.message, "2026-07-17 16:12:55 UTC [27] LOG: hi");
}

#[test]
fn rejects_a_leading_token_that_isnt_a_timestamp() {
    let line = parse_line("hello world");
    assert!(line.time.is_empty());
    assert_eq!(line.message, "hello world");
}

#[test]
fn a_time_stands_in_a_stamp_with_a_date() {
    let time = Some("16:12:55".to_owned());
    assert_eq!(hms("2026-07-17T16:12:55.569805817Z"), time);
    assert_eq!(hms("2026-07-17T16:12:55Z"), time);
    assert_eq!(hms("2026-07-17T16:12:55+02:00"), time);
    assert_eq!(hms("2026-07-17T16:12:55"), time);
    for other in [
        "",
        "16:12:55",
        "T16:12:55",
        "Tab:cd:ef",
        "2026-07-17Tab:cd:ef",
        "2026-07-17T16:12:5",
        "2026-07-17T16-12-55Z",
        "2026-07-17T16:12:5\u{e9}Z",
        "2026-07-17T\u{e9}:12:55Z",
        "2026-07-17 16:12:55Z",
        "2026/07/17T16:12:55Z",
        "26-07-17T16:12:55Z",
        "x2026-07-17T16:12:55Z",
    ] {
        assert_eq!(hms(other), None, "{other}");
    }
    let line = parse_line("Tab:cd:ef hello");
    assert!(line.time.is_empty());
    assert_eq!(line.message, "Tab:cd:ef hello");
}

fn append(stamp: &str, text: &str) -> LogsEffect {
    LogsEffect::Append {
        stamp: stamp.to_owned(),
        text: text.to_owned(),
    }
}

fn chunk(text: &str) -> LogsCmd {
    LogsCmd::Chunk(text.to_owned())
}

fn messages(page: &LogsPage) -> Vec<String> {
    page.lines.iter().map(|line| line.message.clone()).collect()
}

#[test]
fn an_item_of_the_stream_is_text_or_a_failure() {
    assert_eq!(log_message(Ok("a\nb".to_owned())), chunk("a\nb"));
    assert_eq!(
        log_message(Err("gone".to_owned())),
        LogsCmd::Failed("gone".to_owned())
    );
}

#[test]
fn a_page_begins_with_a_stream() {
    let (page, effects) = LogsPage::new(true, false);
    assert!(page.wrap && !page.timestamps && page.follow && page.streaming);
    assert!(page.lines.is_empty() && page.pending.is_empty());
    assert_eq!(effects, vec![LogsEffect::OpenStream]);
}

#[test]
fn chunks_become_whole_lines_however_they_are_cut() {
    let text = "2026-07-17T01:02:03Z one\r\ntwo\n2026-07-17T04:05:06Z thr\u{e9}e\n\nlast";
    let cuts: Vec<usize> = text.char_indices().map(|(i, _)| i).collect();
    let (mut whole, _) = LogsPage::new(true, true);
    let effects = whole.update_cmd(chunk(text));
    assert_eq!(
        effects,
        vec![
            append("01:02:03  ", "one"),
            append("", "two"),
            append("04:05:06  ", "thr\u{e9}e"),
            append("", ""),
        ]
    );
    assert_eq!(whole.pending, "last");
    for cut in cuts {
        let (mut page, _) = LogsPage::new(true, true);
        let mut parts = page.update_cmd(chunk(&text[..cut]));
        parts.extend(page.update_cmd(chunk(&text[cut..])));
        assert_eq!(parts, effects);
        assert_eq!(page.pending, whole.pending);
        assert_eq!(page.lines, whole.lines);
    }
}

#[test]
fn the_end_and_a_failure_flush_what_is_pending() {
    let (mut page, _) = LogsPage::new(true, false);
    page.update_cmd(chunk("half"));
    let effects = page.update_cmd(LogsCmd::Failed("gone".to_owned()));
    assert_eq!(
        effects,
        vec![append("", "half"), append("", "— stream error: gone —")]
    );
    assert!(page.streaming && page.pending.is_empty());
    let effects = page.update_cmd(LogsCmd::Ended);
    assert_eq!(effects, vec![append("", "— end of logs —")]);
    assert!(!page.streaming);
    assert_eq!(
        messages(&page),
        vec!["half", "— stream error: gone —", "— end of logs —"]
    );
}

#[test]
fn a_stream_is_opened_again_only_after_the_end() {
    let (mut page, _) = LogsPage::new(true, false);
    page.update_cmd(chunk("a\nb"));
    assert_eq!(page.update(LogsInput::EnsureStreaming), vec![]);
    page.update_cmd(LogsCmd::Ended);
    assert_eq!(
        page.update(LogsInput::EnsureStreaming),
        vec![LogsEffect::Clear, LogsEffect::OpenStream]
    );
    assert!(page.streaming && page.lines.is_empty() && page.pending.is_empty());
    assert_eq!(page.update(LogsInput::EnsureStreaming), vec![]);
}

#[test]
fn timestamps_come_and_go_without_touching_the_lines() {
    let (mut page, _) = LogsPage::new(true, false);
    page.update_cmd(chunk("2026-07-17T01:02:03Z one\ntwo\n"));
    assert_eq!(
        page.update(LogsInput::SetTimestamps(true)),
        vec![
            LogsEffect::Clear,
            append("01:02:03  ", "one"),
            append("", "two"),
        ]
    );
    assert_eq!(
        page.update(LogsInput::SetTimestamps(false)),
        vec![LogsEffect::Clear, append("", "one"), append("", "two")]
    );
    assert_eq!(messages(&page), vec!["one", "two"]);
}

#[test]
fn the_view_follows_only_from_the_bottom() {
    let (mut page, _) = LogsPage::new(true, false);
    assert_eq!(
        page.update(LogsInput::ContentGrew),
        vec![LogsEffect::ScrollToEnd]
    );
    page.update(LogsInput::ScrolledManually { at_bottom: false });
    assert_eq!(page.update(LogsInput::ContentGrew), vec![]);
    page.update(LogsInput::ScrolledManually { at_bottom: true });
    assert_eq!(
        page.update(LogsInput::ContentGrew),
        vec![LogsEffect::ScrollToEnd]
    );
    assert_eq!(page.update(LogsInput::SetWrap(false)), vec![]);
    assert!(!page.wrap);
}

#[test]
fn the_oldest_lines_go_past_the_limit() {
    let (mut page, _) = LogsPage::new(true, false);
    for i in 0..MAX_LINES {
        let effects = page.update_cmd(chunk(&format!("{i}\n")));
        assert_eq!(effects.len(), 1);
    }
    let effects = page.update_cmd(chunk("one more\n"));
    assert_eq!(effects, vec![append("", "one more"), LogsEffect::DropOldest]);
    assert_eq!(page.lines.len(), MAX_LINES);
    assert_eq!(page.lines[0].message, "1");
    assert_eq!(page.lines[MAX_LINES - 1].message, "one more");
}

#[test]
fn feeding_makes_lines_in_order_and_keeps_the_rest() {
    let (mut page, _) = LogsPage::new(false, true);
    let mut effects = Vec::new();
    page.feed("a\nb", &mut effects);
    page.feed("c\r\n\n2026-07-17T01:02:03Z d\ne", &mut effects);
    assert_eq!(messages(&page), vec!["a", "bc", "", "d"]);
    assert_eq!(page.pending, "e");
    assert!(!page.wrap && page.timestamps && page.follow && page.streaming);
    assert_eq!(
        effects,
        vec![
            append("", "a"),
            append("", "bc"),
            append("", ""),
            append("01:02:03  ", "d"),
        ]
    );
    page.flush_pending(&mut effects);
    assert!(page.pending.is_empty());
    assert_eq!(messages(&page), vec!["a", "bc", "", "d", "e"]);
    // One chunk with more lines than there is room for: the last of them stay.
    let mut long = String::new();
    for i in 0..MAX_LINES + 2 {
        long.push_str(&format!("{i}\n"));
    }
    page.feed(&long, &mut effects);
    assert_eq!(page.lines.len(), MAX_LINES);
    assert_eq!(page.lines[0].message, "2");
    assert_eq!(page.lines[MAX_LINES - 1].message, format!("{}", MAX_LINES + 1));
}

#[test]
fn a_new_line_displaces_only_the_oldest() {
    let (mut page, _) = LogsPage::new(true, false);
    let mut effects = Vec::new();
    page.feed("left", &mut effects);
    for i in 0..MAX_LINES {
        page.push_line(synthetic(&format!("{i}")), &mut effects);
    }
    assert_eq!(page.lines.len(), MAX_LINES);
    assert_eq!(page.lines[0].message, "0");
    effects.clear();
    page.push_line(synthetic("new"), &mut effects);
    assert_eq!(effects, vec![append("", "new"), LogsEffect::DropOldest]);
    assert_eq!(page.lines.len(), MAX_LINES);
    assert_eq!(page.lines[0].message, "1");
    assert_eq!(page.lines[MAX_LINES - 2].message, format!("{}", MAX_LINES - 1));
    assert_eq!(page.lines[MAX_LINES - 1].message, "new");
    assert_eq!(page.pending, "left");
}

/// What a screen makes of effects, one after the other.
fn put_on_screen(effects: &[LogsEffect], screen: &mut Vec<(String, String)>) {
    for effect in effects {
        match effect {
            LogsEffect::Append { stamp, text } => screen.push((stamp.clone(), text.clone())),
            LogsEffect::DropOldest => {
                screen.remove(0);
            }
            LogsEffect::Clear => screen.clear(),
            LogsEffect::ScrollToEnd | LogsEffect::OpenStream => {}
        }
    }
}

#[test]
fn the_screen_follows_the_lines() {
    let (mut page, effects) = LogsPage::new(true, false);
    let mut screen = Vec::new();
    put_on_screen(&effects, &mut screen);
    let mut long = String::new();
    for i in 0..MAX_LINES + 3 {
        long.push_str(&format!("2026-07-17T01:02:03Z {i}\n"));
    }
    let answers = [
        page.update_cmd(chunk("first\nhal")),
        page.update_cmd(chunk("f\n")),
        page.update(LogsInput::SetTimestamps(true)),
        page.update_cmd(chunk(&long)),
        page.update_cmd(chunk("rest")),
        page.update_cmd(LogsCmd::Failed("why".to_owned())),
        page.update(LogsInput::ContentGrew),
        page.update_cmd(LogsCmd::Ended),
    ];
    for effects in answers {
        put_on_screen(&effects, &mut screen);
    }
    let expected: Vec<(String, String)> = page
        .lines
        .iter()
        .map(|line| {
            let stamp = if line.time.is_empty() {
                String::new()
            } else {
                format!("{}  ", line.time)
            };
            (stamp, line.message.clone())
        })
        .collect();
    assert_eq!(screen, expected);
    assert_eq!(screen.len(), MAX_LINES);
    put_on_screen(&page.update(LogsInput::EnsureStreaming), &mut screen);
    assert!(screen.is_empty());
}
