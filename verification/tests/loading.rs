use channel_browser::loader::ChannelSource;
use channel_browser::loader::LoadError;
use channel_browser::loader::channel_message_ids;
use channel_browser::loader::load_channels;
use channel_browser::loader::parse_index;
use channel_browser::loader::preprocess_index;
use channel_browser::text::parse_u64;
use channel_browser::text::u64_to_string;
use channel_browser::ui::command_echo;
use channel_browser::ui::header_line;
use channel_browser::ui::render_rows;
use channel_browser::ui::title_counter;
use channel_browser::ui::title_label;

fn source(label: &str, meta: Option<&str>, messages: Option<&str>) -> ChannelSource {
    ChannelSource {
        label: label.to_string(),
        meta_text: meta.map(|s| s.to_string()),
        messages_text: messages.map(|s| s.to_string()),
    }
}

#[test]
fn parse_index_reads_entries() {
    let entries = parse_index("{\"10\": \"general in Hub\", \"2\": \"Direct Message with Ada\"}")
        .expect("well-formed index");
    assert_eq!(entries.len(), 2);
    assert_eq!(entries[0], ("10".to_string(), "general in Hub".to_string()));
    assert_eq!(entries[1], ("2".to_string(), "Direct Message with Ada".to_string()));
}

#[test]
fn parse_index_rejects_malformed_text() {
    assert_eq!(parse_index("not json"), Err(LoadError::BadIndex));
    assert_eq!(parse_index("{\"10\": 3}"), Err(LoadError::BadIndex));
}

#[test]
fn preprocess_rewrites_labels_and_renders_json() {
    let entries = vec![
        ("10".to_string(), "general in Hub".to_string()),
        ("2".to_string(), "Direct Message with Ada".to_string()),
    ];
    let (rewritten, text) = preprocess_index(entries);
    assert_eq!(rewritten[0].1, "Hub - general");
    assert_eq!(rewritten[1].1, "Ada");
    let parsed_back = parse_index(&text).expect("persisted index parses");
    assert_eq!(parsed_back.len(), 2);
    assert_eq!(parsed_back[0], ("10".to_string(), "Hub - general".to_string()));
    assert_eq!(parsed_back[1], ("2".to_string(), "Ada".to_string()));
}

#[test]
fn load_builds_sorted_summaries() {
    let meta_a = "{\"id\": \"175928847299117063\", \"type\": \"text\"}";
    let msgs_a = "[{\"ID\": 1, \"Attachments\": \"\"}, {\"ID\": \"2\", \"Attachments\": \"x.png\"}]";
    let meta_b = "{\"id\": \"175928847299117063\", \"type\": \"text\"}";
    let msgs_b = "[{\"ID\": 7, \"Attachments\": \"\"}]";
    let sources = vec![
        source("beta", Some(meta_b), Some(msgs_b)),
        source("DM - alpha", Some(meta_a), Some(msgs_a)),
    ];
    let channels = load_channels(&sources).expect("loads");
    assert_eq!(channels.len(), 2);
    // Two messages beat one; the DM prefix is stripped for display.
    assert_eq!(channels[0].display_name, "alpha");
    assert_eq!(channels[0].message_count, 2);
    assert_eq!(channels[0].attachment_count, 1);
    assert_eq!(channels[0].channel_id, "175928847299117063");
    assert_eq!(channels[0].created_at, "April 2016");
    assert!(channels[0].selected);
    assert_eq!(channels[1].display_name, "beta");
    assert_eq!(channels[1].message_count, 1);
}

#[test]
fn load_excludes_zero_message_channels() {
    let meta = "{\"id\": \"175928847299117063\", \"type\": \"text\"}";
    let sources = vec![source("empty", Some(meta), Some("[]"))];
    let channels = load_channels(&sources).expect("loads");
    assert_eq!(channels.len(), 0);
}

#[test]
fn load_skips_channels_with_missing_files() {
    let meta = "{\"id\": \"175928847299117063\", \"type\": \"text\"}";
    let sources = vec![
        source("no-messages", Some(meta), None),
        source("no-meta", None, Some("[{\"ID\": 1, \"Attachments\": \"\"}]")),
    ];
    let channels = load_channels(&sources).expect("loads");
    assert_eq!(channels.len(), 0);
}

#[test]
fn load_fails_on_malformed_metadata() {
    let sources = vec![source("bad", Some("[]"), Some("[]"))];
    assert!(matches!(load_channels(&sources), Err(LoadError::BadChannelMeta)));
}

#[test]
fn load_fails_on_malformed_messages() {
    let meta = "{\"id\": \"175928847299117063\", \"type\": \"text\"}";
    let sources = vec![source("bad", Some(meta), Some("{"))];
    assert!(matches!(load_channels(&sources), Err(LoadError::BadMessages)));
}

#[test]
fn load_fails_on_unparseable_channel_id() {
    let meta = "{\"id\": \"abc\", \"type\": \"text\"}";
    let sources = vec![source("bad", Some(meta), Some("[{\"ID\": 1, \"Attachments\": \"\"}]"))];
    assert!(matches!(load_channels(&sources), Err(LoadError::BadChannelId)));
}

#[test]
fn message_ids_accept_both_encodings() {
    let text = "[{\"ID\": 5, \"Attachments\": \"\"}, {\"ID\": \"007\", \"Attachments\": \"\"}, \
                {\"ID\": \"x\", \"Attachments\": \"\"}, {\"Attachments\": \"\"}]";
    let ids = channel_message_ids(text).expect("parses");
    assert_eq!(ids, vec!["5".to_string(), "7".to_string()]);
}

#[test]
fn message_ids_fail_on_malformed_log() {
    assert!(matches!(channel_message_ids("nope"), Err(LoadError::BadMessages)));
}

#[test]
fn attachment_field_comparison() {
    // A missing or non-string attachment field counts, as does non-empty
    // text; only the empty string does not.
    let meta = "{\"id\": \"175928847299117063\", \"type\": \"text\"}";
    let msgs = "[{\"ID\": 1, \"Attachments\": \"\"}, {\"ID\": 2, \"Attachments\": \"a\"}, \
                {\"ID\": 3}, {\"ID\": 4, \"Attachments\": 9}]";
    let sources = vec![source("c", Some(meta), Some(msgs))];
    let channels = load_channels(&sources).expect("loads");
    assert_eq!(channels[0].message_count, 4);
    assert_eq!(channels[0].attachment_count, 3);
}

#[test]
fn load_error_messages() {
    assert_eq!(LoadError::BadIndex.message(), "missing or malformed index.json");
    assert_eq!(LoadError::BadChannelMeta.message(), "malformed channel.json");
    assert_eq!(LoadError::BadMessages.message(), "malformed messages.json");
    assert_eq!(LoadError::BadChannelId.message(), "invalid channel id");
}

#[test]
fn decimal_parse_and_format() {
    assert_eq!(parse_u64("0"), Some(0));
    assert_eq!(parse_u64("007"), Some(7));
    assert_eq!(parse_u64("18446744073709551615"), Some(u64::MAX));
    assert_eq!(parse_u64("18446744073709551616"), None);
    assert_eq!(parse_u64(""), None);
    assert_eq!(parse_u64("12a"), None);
    assert_eq!(parse_u64("-3"), None);
    assert_eq!(u64_to_string(0), "0");
    assert_eq!(u64_to_string(90510), "90510");
    assert_eq!(u64_to_string(u64::MAX), "18446744073709551615");
}

#[test]
fn header_and_title_rendering() {
    assert_eq!(
        header_line(),
        "Type     Name                           Date                  Msgs       Attchs"
    );
    assert_eq!(title_label(), "Select Channels to Export");
    assert_eq!(title_counter(0, 12), " (1/12)");
    assert_eq!(command_echo("exp"), ":exp");
}

#[test]
fn row_rendering_pads_and_truncates() {
    let c = channel_browser::channel::ChannelSummary {
        channel_type: "text".to_string(),
        display_name: "a-channel-name-that-is-far-too-long-to-fit".to_string(),
        created_at: "April 2016".to_string(),
        channel_id: "1".to_string(),
        message_count: 42,
        attachment_count: 7,
        selected: false,
    };
    let rows = render_rows(&vec![c], 0, 0, 4);
    assert_eq!(rows.len(), 1);
    assert_eq!(
        rows[0].0,
        "[ ]      a-channel-name-that-is-far-... April 2016              42            7"
    );
    assert!(rows[0].1);
}
