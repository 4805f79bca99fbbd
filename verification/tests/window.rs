use runde::placement::Placement;
use runde::banner::{banner, Banner, UpdateState};
use runde::clipboard::CopyButton;
use runde::form::{tab_colors, Form, Rgb, Tab};
use runde::screen::{can_be_shown, message_lines, screen, MessageLine, Screen};
use runde::tunnel::{Status, TunnelState};
use runde::updater::UpdateInfo;

fn shown(status: &Status) -> Screen {
    screen(status, "25570")
}

fn lines(all: &[MessageLine]) -> Vec<&str> {
    all.iter()
        .map(|line| match line {
            MessageLine::Gap => "",
            MessageLine::Text(text) => text.as_str(),
        })
        .collect()
}

#[test]
fn the_form_comes_up_to_host() {
    let form = Form::new();
    assert!(form.tab == Tab::Host);
    assert_eq!(form.mc_port, "25565");
    assert_eq!(form.local_port, "25565");
    assert_eq!(form.ticket_in, "");
    assert!(form.host_ready());
    assert!(!form.join_ready());
}

#[test]
fn tabs_follow_the_clicks() {
    let mut form = Form::new();
    form.select_tab(false, true);
    assert!(form.tab == Tab::Join);
    form.select_tab(false, false);
    assert!(form.tab == Tab::Join);
    form.select_tab(true, false);
    assert!(form.tab == Tab::Host);
    form.select_tab(true, true);
    assert!(form.tab == Tab::Join);
}

#[test]
fn selected_tabs_have_colours() {
    assert!(tab_colors(false).is_none());
    let colors = tab_colors(true).unwrap();
    assert_eq!(colors.fill, Rgb { r: 20, g: 115, b: 170 });
    assert_eq!(colors.stroke, Rgb { r: 35, g: 145, b: 210 });
}

#[test]
fn hosting_starts_where_the_button_can_be_pressed() {
    for (text, port) in [("25565", Some(25565)), ("65536", None), ("", None), ("x", None)] {
        let mut form = Form::new();
        form.mc_port = text.to_string();
        let mut state: TunnelState<u8> = TunnelState::new();
        assert_eq!(form.host_ready(), port.is_some());
        assert_eq!(form.start_host(&mut state, 1), port);
        if port.is_some() {
            assert!(state.status == Status::HostStarting);
            assert_eq!(state.stop_tx, Some(1));
        } else {
            assert!(state.status == Status::Idle);
            assert_eq!(state.stop_tx, None);
        }
    }
}

#[test]
fn joining_starts_where_the_button_can_be_pressed() {
    let mut form = Form::new();
    form.ticket_in = " \n endpointabc \t".to_string();
    form.local_port = "25570".to_string();
    assert!(form.join_ready());
    let mut state: TunnelState<u8> = TunnelState::new();
    let request = form.start_join(&mut state, 1).unwrap();
    assert_eq!(request.ticket, "endpointabc");
    assert_eq!(request.local_port, 25570);
    assert!(state.status == Status::JoinConnecting);
    assert_eq!(state.stop_tx, Some(1));
}

#[test]
fn joining_needs_a_port() {
    let mut form = Form::new();
    form.ticket_in = "endpointabc".to_string();
    form.local_port = "port".to_string();
    assert!(!form.join_ready());
    let mut state: TunnelState<u8> = TunnelState::new();
    assert!(form.start_join(&mut state, 1).is_none());
    assert!(state.status == Status::Idle);
    assert!(state.stop_tx.is_none());
}

#[test]
fn joining_needs_something_for_a_ticket() {
    let mut form = Form::new();
    form.ticket_in = " \n".to_string();
    assert!(!form.join_ready());
}

#[test]
fn idle_tunnels_show_the_form() {
    assert!(matches!(shown(&Status::Idle), Screen::Form { error: None }));
    match shown(&Status::Error("беда".to_string())) {
        Screen::Form { error: Some(error) } => assert_eq!(error, "✗  беда"),
        _ => panic!("there is an error to show"),
    }
}

#[test]
fn starting_tunnels_show_that_they_start() {
    for (status, expected) in [
        (Status::HostStarting, "Запуск…"),
        (Status::JoinConnecting, "Подключение к хосту…"),
    ] {
        match shown(&status) {
            Screen::Waiting { message } => assert_eq!(message, expected),
            _ => panic!("there is something to wait for"),
        }
    }
}

#[test]
fn waiting_hosts_show_the_ticket() {
    match shown(&Status::HostWaiting { ticket: "endpointabc".to_string() }) {
        Screen::HostTicket { ticket } => assert_eq!(ticket, "endpointabc"),
        _ => panic!("there is a ticket to show"),
    }
}

#[test]
fn hosts_list_their_peers() {
    let status = Status::HostConnected {
        ticket: "t".to_string(),
        peers: vec!["ae58ff8833".to_string(), "0123456789abcdefX".to_string()],
    };
    match shown(&status) {
        Screen::Connected { lines: all } => assert_eq!(
            lines(&all),
            vec!["Друзья подключены (2)!", "", "• ae58ff8833", "• 0123456789abcdef"]
        ),
        _ => panic!("there are peers to show"),
    }
}

#[test]
fn long_names_are_cut_at_bytes() {
    let status = Status::HostConnected {
        ticket: "t".to_string(),
        peers: vec!["абвгдежзи".to_string()],
    };
    match shown(&status) {
        Screen::Connected { lines: all } => {
            assert_eq!(lines(&all), vec!["Друзья подключены (1)!", "", "• абвгдежз"])
        }
        _ => panic!("there are peers to show"),
    }
}

#[test]
fn names_that_cannot_be_cut_are_told() {
    let host = |peer: &str| Status::HostConnected {
        ticket: "t".to_string(),
        peers: vec!["ae58ff8833".to_string(), peer.to_string()],
    };
    assert!(can_be_shown(&host("ae58ff8833")));
    assert!(can_be_shown(&host("абвгдежзи")));
    assert!(!can_be_shown(&host("xабвгдежзи")));
    assert!(can_be_shown(&host("xабвгдеж")));
    assert!(can_be_shown(&Status::Idle));
}

#[test]
fn joined_tunnels_show_the_port() {
    match shown(&Status::JoinConnected) {
        Screen::Connected { lines: all } => {
            assert_eq!(lines(&all), vec!["Подключено!", "Локальный порт: 25570"])
        }
        _ => panic!("the host was reached"),
    }
}

#[test]
fn empty_lines_are_gaps() {
    let all = message_lines("a\n\nb");
    assert!(matches!(&all[0], MessageLine::Text(t) if t == "a"));
    assert!(matches!(&all[1], MessageLine::Gap));
    assert!(matches!(&all[2], MessageLine::Text(t) if t == "b"));
    assert_eq!(all.len(), 3);
}

fn info() -> UpdateInfo {
    UpdateInfo {
        version: "0.2.0".to_string(),
        download_url: "u".to_string(),
        asset_name: "a".to_string(),
    }
}

#[test]
fn updates_go_their_way() {
    let mut state = UpdateState::new();
    assert!(state == UpdateState::Idle);
    state.begin_check();
    assert!(state == UpdateState::Checking);
    state.finish_check(Ok(Some(info())));
    assert!(state == UpdateState::Available(info()));
    state.begin_install();
    assert!(state == UpdateState::Downloading);
    state.finish_install(Ok(()));
    assert!(state == UpdateState::Installed);
}

#[test]
fn failed_checks_are_silent_and_failed_installs_are_not() {
    let mut state = UpdateState::new();
    state.begin_check();
    state.finish_check(Err("e".to_string()));
    assert!(state == UpdateState::Idle);
    state.begin_check();
    state.finish_check(Ok(None));
    assert!(state == UpdateState::Idle);
    state.finish_install(Err("e".to_string()));
    assert!(state == UpdateState::Error("e".to_string()));
}

#[test]
fn banners_say_where_an_update_stands() {
    assert!(matches!(banner(&UpdateState::Idle), Banner::Hidden));
    assert!(matches!(banner(&UpdateState::Checking), Banner::Hidden));
    match banner(&UpdateState::Available(info())) {
        Banner::Offer { text } => assert_eq!(text, "Доступно обновление: v0.2.0"),
        _ => panic!("there is an offer"),
    }
    match banner(&UpdateState::Downloading) {
        Banner::Progress { text } => assert_eq!(text, "Скачивание обновления…"),
        _ => panic!("there is progress"),
    }
    match banner(&UpdateState::Installed) {
        Banner::Done { text } => {
            assert_eq!(text, "Обновление установлено. Перезапустите Runde.")
        }
        _ => panic!("it is done"),
    }
    match banner(&UpdateState::Error("e".to_string())) {
        Banner::Failure { text } => assert_eq!(text, "Ошибка обновления: e"),
        _ => panic!("it failed"),
    }
}

#[test]
fn the_copy_button_copies_once_at_a_time() {
    let mut button = CopyButton::new();
    assert_eq!(button.label(), "Скопировать");
    assert!(!button.tick(true));
    assert!(!button.press(false));
    assert!(button.press(true));
    assert_eq!(button.label(), "Скопировано");
    assert!(!button.press(true));
    assert!(button.tick(false));
    assert!(button.copied);
    assert!(button.tick(true));
    assert!(!button.copied);
    assert!(button.press(true));
}

#[test]
fn the_window_is_centered_once_the_monitor_is_known() {
    let mut placement = Placement::new();
    assert!(!placement.center_once(false));
    assert!(!placement.centered);
    assert!(placement.center_once(true));
    assert!(placement.centered);
    assert!(!placement.center_once(true));
    assert!(!placement.center_once(false));
    assert!(placement.centered);
}
