use channel_browser::channel::ChannelSummary;
use channel_browser::channel::sort_channels;
use channel_browser::channel::toggle_channel;
use channel_browser::export::export_to_txt;
use channel_browser::label::update_value;
use channel_browser::snowflake::parse_snowflake_to_timestamp;
use channel_browser::ui::CommandAction;
use channel_browser::ui::Key;
use channel_browser::ui::UiAction;
use channel_browser::ui::UiState;
use channel_browser::ui::handle_command;

fn summary(ty: &str, name: &str, id: &str, msgs: usize, atts: usize) -> ChannelSummary {
    ChannelSummary {
        channel_type: ty.to_string(),
        display_name: name.to_string(),
        created_at: "April 2016".to_string(),
        channel_id: id.to_string(),
        message_count: msgs,
        attachment_count: atts,
        selected: true,
    }
}

#[test]
fn sort_orders_by_count_type_name() {
    let v = vec![
        summary("text", "beta", "1", 2, 0),
        summary("text", "alpha", "2", 5, 0),
        summary("news", "gamma", "3", 2, 0),
        summary("text", "alpha", "4", 2, 0),
    ];
    let sorted = sort_channels(v);
    let ids: Vec<&str> = sorted.iter().map(|c| c.channel_id.as_str()).collect();
    assert_eq!(ids, vec!["2", "3", "4", "1"]);
}

#[test]
fn sort_of_sorted_is_no_op() {
    let v = vec![
        summary("text", "alpha", "2", 5, 0),
        summary("news", "gamma", "3", 2, 0),
        summary("text", "alpha", "4", 2, 0),
        summary("text", "beta", "1", 2, 0),
    ];
    let sorted = sort_channels(v);
    let again = sort_channels(sorted);
    let ids: Vec<&str> = again.iter().map(|c| c.channel_id.as_str()).collect();
    assert_eq!(ids, vec!["2", "3", "4", "1"]);
}

#[test]
fn label_rewrite_direct_message() {
    assert_eq!(update_value("Direct Message with Casey"), "Casey");
}

#[test]
fn label_rewrite_subject_in_container() {
    assert_eq!(update_value("general in Workspace"), "Workspace - general");
}

#[test]
fn label_rewrite_verbatim() {
    assert_eq!(update_value("plain label"), "plain label");
}

#[test]
fn label_rewrite_uses_last_separator() {
    assert_eq!(update_value("a in b in c"), "c - a in b");
}

#[test]
fn label_rewrite_idempotent_on_rewritten_text() {
    let once = update_value("general in Workspace");
    let twice = update_value(&once);
    assert_eq!(twice, once);
    let once = update_value("Direct Message with Casey");
    let twice = update_value(&once);
    assert_eq!(twice, once);
    let once = update_value("plain label");
    let twice = update_value(&once);
    assert_eq!(twice, once);
}

#[test]
fn snowflake_formula_month_year() {
    let got = parse_snowflake_to_timestamp("175928847299117063").expect("parseable id");
    let id: u64 = 175928847299117063;
    let millis = (id >> 22) + 1420070400000;
    let expected = chrono::TimeZone::timestamp_millis_opt(&chrono::Utc, millis as i64)
        .unwrap()
        .format("%B %Y")
        .to_string();
    assert_eq!(got, expected);
    assert_eq!(got, "April 2016");
}

#[test]
fn snowflake_rejects_non_numeric() {
    assert!(parse_snowflake_to_timestamp("not-a-number").is_none());
    assert!(parse_snowflake_to_timestamp("").is_none());
    assert!(parse_snowflake_to_timestamp("18446744073709551616").is_none());
}

#[test]
fn viewport_bounds_hold_for_up_down_sequences() {
    let mut channels = vec![
        summary("text", "a", "1", 3, 0),
        summary("text", "b", "2", 2, 0),
        summary("text", "c", "3", 1, 0),
    ];
    let mut state = UiState::new();
    let height: usize = 4; // one visible row
    let script = [
        Key::Down,
        Key::Down,
        Key::Down,
        Key::Down,
        Key::Up,
        Key::Up,
        Key::Up,
        Key::Up,
        Key::Down,
        Key::Up,
    ];
    for key in script {
        let action = state.handle_key(key, &mut channels, height);
        assert!(matches!(action, UiAction::Continue));
        assert!(state.selected_index < channels.len());
        assert!(state.offset <= state.selected_index);
        assert!(state.offset < channels.len());
    }
}

#[test]
fn viewport_short_terminal_does_not_underflow() {
    let mut channels = vec![summary("text", "a", "1", 3, 0), summary("text", "b", "2", 2, 0)];
    let mut state = UiState::new();
    state.handle_key(Key::Down, &mut channels, 1);
    assert!(state.selected_index < channels.len());
    assert!(state.offset <= state.selected_index);
    let rows = channel_browser::ui::render_rows(&channels, state.selected_index, state.offset, 1);
    assert_eq!(rows.len(), 0);
}

#[test]
fn toggle_twice_restores_and_touches_nothing_else() {
    let mut channels = vec![
        summary("text", "a", "1", 3, 0),
        summary("text", "b", "2", 2, 0),
        summary("text", "c", "3", 1, 0),
    ];
    toggle_channel(&mut channels, 1);
    assert!(!channels[1].selected);
    assert!(channels[0].selected);
    assert!(channels[2].selected);
    toggle_channel(&mut channels, 1);
    assert!(channels[1].selected);
    assert!(channels[0].selected);
    assert!(channels[2].selected);
    assert_eq!(channels[1].display_name, "b");
    assert_eq!(channels[1].message_count, 2);
}

#[test]
fn export_groups_in_lexicographic_order() {
    let pairs = vec![
        ("A".to_string(), "1".to_string()),
        ("B".to_string(), "2".to_string()),
        ("A".to_string(), "3".to_string()),
    ];
    let text = export_to_txt(&pairs);
    assert_eq!(text, "A:\n1, 3\n\nB:\n2\n\n");
}

#[test]
fn export_empty_pairs_gives_empty_report() {
    let pairs: Vec<(String, String)> = Vec::new();
    assert_eq!(export_to_txt(&pairs), "");
}

#[test]
fn unknown_command_changes_nothing() {
    let channels = vec![summary("text", "a", "1", 3, 0), summary("text", "b", "2", 2, 0)];
    let before: Vec<(String, bool)> =
        channels.iter().map(|c| (c.channel_id.clone(), c.selected)).collect();
    let action = handle_command("frobnicate", &channels);
    assert!(matches!(action, CommandAction::Unknown));
    let after: Vec<(String, bool)> =
        channels.iter().map(|c| (c.channel_id.clone(), c.selected)).collect();
    assert_eq!(before, after);
}

#[test]
fn export_command_collects_selected_ids() {
    let mut channels = vec![
        summary("text", "a", "10", 3, 0),
        summary("text", "b", "20", 2, 0),
        summary("text", "c", "30", 1, 0),
    ];
    channels[1].selected = false;
    match handle_command("export", &channels) {
        CommandAction::Export(ids) => assert_eq!(ids, vec!["10".to_string(), "30".to_string()]),
        _ => panic!("expected export"),
    }
}

#[test]
fn quit_and_exit_commands() {
    let channels: Vec<ChannelSummary> = Vec::new();
    assert!(matches!(handle_command("quit", &channels), CommandAction::Quit));
    assert!(matches!(handle_command("exit", &channels), CommandAction::Quit));
}

#[test]
fn command_mode_edits_and_submits() {
    let mut channels: Vec<ChannelSummary> = Vec::new();
    let mut state = UiState::new();
    state.handle_key(Key::Char(':'), &mut channels, 10);
    assert!(state.command_mode);
    state.handle_key(Key::Char('e'), &mut channels, 10);
    state.handle_key(Key::Char('x'), &mut channels, 10);
    state.handle_key(Key::Char('y'), &mut channels, 10);
    state.handle_key(Key::Backspace, &mut channels, 10);
    state.handle_key(Key::Char('i'), &mut channels, 10);
    state.handle_key(Key::Char('t'), &mut channels, 10);
    match state.handle_key(Key::Enter, &mut channels, 10) {
        UiAction::RunCommand(cmd) => assert_eq!(cmd, "exit"),
        _ => panic!("expected a command"),
    }
    assert!(!state.command_mode);
    assert_eq!(state.command_input, "");
}

#[test]
fn command_mode_escape_discards() {
    let mut channels: Vec<ChannelSummary> = Vec::new();
    let mut state = UiState::new();
    state.handle_key(Key::Char(':'), &mut channels, 10);
    state.handle_key(Key::Char('q'), &mut channels, 10);
    let action = state.handle_key(Key::Esc, &mut channels, 10);
    assert!(matches!(action, UiAction::Continue));
    assert!(!state.command_mode);
    assert_eq!(state.command_input, "");
}

#[test]
fn sort_keeps_input_order_of_equal_keys() {
    let v = vec![
        summary("text", "same", "first", 2, 0),
        summary("text", "same", "second", 2, 0),
    ];
    let sorted = sort_channels(v);
    assert_eq!(sorted[0].channel_id, "first");
    assert_eq!(sorted[1].channel_id, "second");
}

#[test]
fn keys_on_empty_channel_list_are_harmless() {
    let mut channels: Vec<ChannelSummary> = Vec::new();
    let mut state = UiState::new();
    for key in [Key::Down, Key::Up, Key::Char(' '), Key::Other] {
        let action = state.handle_key(key, &mut channels, 10);
        assert!(matches!(action, UiAction::Continue));
        assert_eq!(state.selected_index, 0);
        assert_eq!(state.offset, 0);
    }
}

#[test]
fn escape_outside_command_mode_exits() {
    let mut channels: Vec<ChannelSummary> = Vec::new();
    let mut state = UiState::new();
    let action = state.handle_key(Key::Esc, &mut channels, 10);
    assert!(matches!(action, UiAction::Exit));
}
