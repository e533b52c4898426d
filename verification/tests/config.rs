//! Reading the configuration file.
use huddle_core::config::{
    clearnet_url, config_path, data_dir, db_path, load_relays, log_path, parse_relays, parse_scalar,
    server_url, strip_inline_comment, tor_bridge, tor_socks,
};

#[test]
fn data_dir_is_inside_huddle_directory() {
    let dir = data_dir(Some("/home/alice/.local/share"));
    assert!(dir.ends_with("huddle") || dir.contains("huddle"));
    assert_eq!(dir, "/home/alice/.local/share/huddle");
    assert!(data_dir(None).contains("huddle"));
}

#[test]
fn db_path_ends_with_huddle_db() {
    let path = db_path(&data_dir(Some("/data")));
    assert_eq!(path.rsplit('/').next().unwrap(), "huddle.db");
    assert_eq!(path, "/data/huddle/huddle.db");
}

#[test]
fn log_and_config_paths() {
    assert_eq!(log_path("/data/huddle"), "/data/huddle/huddle.log");
    assert!(config_path(Some("/home/alice/.config")).ends_with("config.toml"));
}

#[test]
fn parse_relays_documented_multiline_no_header() {
    let body = "relays = [\n  \"/dns4/relay.example.com/tcp/4001/p2p/12D3Koo\",\n]\n";
    assert_eq!(
        parse_relays(body),
        vec!["/dns4/relay.example.com/tcp/4001/p2p/12D3Koo".to_string()]
    );
}

#[test]
fn parse_relays_multiline_with_network_header() {
    let body = "[network]\nrelays = [\n  \"/ip4/1.2.3.4/tcp/4001/p2p/A\",\n  \"/ip4/5.6.7.8/tcp/4001/p2p/B\",\n]\n";
    assert_eq!(
        parse_relays(body),
        vec![
            "/ip4/1.2.3.4/tcp/4001/p2p/A".to_string(),
            "/ip4/5.6.7.8/tcp/4001/p2p/B".to_string(),
        ]
    );
}

#[test]
fn parse_relays_single_line_array() {
    let body = "relays = [\"/ip4/1.2.3.4/tcp/1/p2p/A\", \"/ip4/5.6.7.8/tcp/2/p2p/B\"]";
    assert_eq!(parse_relays(body).len(), 2);
}

#[test]
fn parse_relays_scalar_form() {
    let body = "relays = \"/ip4/1.2.3.4/tcp/1/p2p/A\"";
    assert_eq!(
        parse_relays(body),
        vec!["/ip4/1.2.3.4/tcp/1/p2p/A".to_string()]
    );
}

#[test]
fn parse_relays_strips_comments_and_blanks() {
    let body = "# a comment\n\nrelays = [\n  \"/ip4/1.2.3.4/tcp/1/p2p/A\",  # inline note\n]\n";
    assert_eq!(
        parse_relays(body),
        vec!["/ip4/1.2.3.4/tcp/1/p2p/A".to_string()]
    );
}

#[test]
fn relays_of_bodies_under_each_other() {
    let a = "relays = [\"one\", \"\", 'two']\r";
    let b = "[network]\nrelays = [\n  \"three\", , \n]";
    let both = format!("{a}\n{b}");
    assert_eq!(parse_relays(a), vec!["one".to_string(), "two".to_string()]);
    assert_eq!(parse_relays(b), vec!["three".to_string()]);
    assert_eq!(
        parse_relays(&both),
        vec!["one".to_string(), "two".to_string(), "three".to_string()]
    );
    assert_eq!(parse_relays(&format!("\n{b}")), parse_relays(b));
    assert!(parse_relays("relays = \"\"").is_empty());
}

#[test]
fn parse_relays_empty_when_absent() {
    assert!(parse_relays("[network]\nfoo = 1\n").is_empty());
    assert!(parse_relays("").is_empty());
}

#[test]
fn parse_relays_ignores_similar_key() {
    assert!(parse_relays("relays_enabled = true\n").is_empty());
}

#[test]
fn parse_scalar_reads_quoted_value() {
    let body = "server_url = \"ws://abc.onion:80/ws\"\n";
    assert_eq!(
        parse_scalar(body, "server_url").as_deref(),
        Some("ws://abc.onion:80/ws")
    );
}

#[test]
fn parse_scalar_strips_comment_and_header() {
    let body = "[network]\ntor_socks = \"127.0.0.1:9150\"  # tor browser\n";
    assert_eq!(
        parse_scalar(body, "tor_socks").as_deref(),
        Some("127.0.0.1:9150")
    );
}

#[test]
fn parse_scalar_none_when_absent_or_similar_key() {
    assert!(parse_scalar("foo = 1\n", "server_url").is_none());
    assert!(parse_scalar("server_url_backup = \"x\"\n", "server_url").is_none());
}

#[test]
fn comments_end_a_line() {
    let line: Vec<char> = "a = 1 # one".chars().collect();
    let kept: String = strip_inline_comment(&line).iter().collect();
    assert_eq!(kept.trim_end(), "a = 1");
}

#[test]
fn what_a_file_sets() {
    let body = "server_url = \"ws://x\"\ntor_socks='1.1.1.1:1'\nclearnet_url = wss://y # door\n\
                tor_bridge = \"obfs4 z\"\nrelays = [\"a\", \"b\"]\n";
    assert_eq!(server_url(Some(body)).as_deref(), Some("ws://x"));
    assert_eq!(tor_socks(Some(body)).as_deref(), Some("1.1.1.1:1"));
    assert_eq!(clearnet_url(Some(body)).as_deref(), Some("wss://y"));
    assert_eq!(tor_bridge(Some(body)).as_deref(), Some("obfs4 z"));
    assert_eq!(load_relays(Some(body)), vec!["a".to_string(), "b".to_string()]);
    assert!(load_relays(None).is_empty());
    assert!(server_url(None).is_none());
    assert!(server_url(Some("server_url_backup = \"x\"")).is_none());
}
