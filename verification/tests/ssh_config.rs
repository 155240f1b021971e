use ukrop::ssh::config::parse_ssh_config_str;

#[test]
fn test_basic_host() {
    let config = "Host myserver\n  Hostname 192.168.1.1\n  User admin\n  Port 2222\n";
    let hosts = parse_ssh_config_str(config);
    assert_eq!(hosts.len(), 1);
    assert_eq!(hosts[0].host, "myserver");
    assert_eq!(hosts[0].hostname.as_deref(), Some("192.168.1.1"));
    assert_eq!(hosts[0].user.as_deref(), Some("admin"));
    assert_eq!(hosts[0].port, Some(2222));
}

#[test]
fn test_wildcard_defaults() {
    let config = "Host *\n  User root\n  Port 22\n\nHost web\n  Hostname web.example.com\n";
    let hosts = parse_ssh_config_str(config);
    assert_eq!(hosts.len(), 1);
    assert_eq!(hosts[0].host, "web");
    assert_eq!(hosts[0].user.as_deref(), Some("root"));
    assert_eq!(hosts[0].port, Some(22));
}

#[test]
fn test_skip_wildcards() {
    let config = "Host *.example.com\n  User deploy\n\nHost prod\n  Hostname prod.example.com\n";
    let hosts = parse_ssh_config_str(config);
    assert_eq!(hosts.len(), 1);
    assert_eq!(hosts[0].host, "prod");
}

#[test]
fn test_multiple_hosts() {
    let config = "Host a\n  Hostname 1.1.1.1\n\nHost b\n  Hostname 2.2.2.2\n  User bob\n";
    let hosts = parse_ssh_config_str(config);
    assert_eq!(hosts.len(), 2);
    assert_eq!(hosts[0].host, "a");
    assert_eq!(hosts[1].host, "b");
    assert_eq!(hosts[1].user.as_deref(), Some("bob"));
}

#[test]
fn test_comments_and_empty_lines() {
    let config = "# This is a comment\n\nHost test\n  # Another comment\n  Hostname test.local\n";
    let hosts = parse_ssh_config_str(config);
    assert_eq!(hosts.len(), 1);
    assert_eq!(hosts[0].hostname.as_deref(), Some("test.local"));
}

#[test]
fn test_equals_delimiter() {
    let config = "Host myhost\n  Hostname=10.0.0.1\n  Port=443\n";
    let hosts = parse_ssh_config_str(config);
    assert_eq!(hosts.len(), 1);
    assert_eq!(hosts[0].hostname.as_deref(), Some("10.0.0.1"));
    assert_eq!(hosts[0].port, Some(443));
}

#[test]
fn test_host_without_details() {
    let config = "Host bare\n";
    let hosts = parse_ssh_config_str(config);
    assert_eq!(hosts.len(), 1);
    assert_eq!(hosts[0].host, "bare");
    assert_eq!(hosts[0].hostname, None);
}

#[test]
fn test_override_defaults() {
    let config = "Host *\n  User default\n  Port 22\n\nHost special\n  Hostname s.com\n  User custom\n  Port 8022\n";
    let hosts = parse_ssh_config_str(config);
    assert_eq!(hosts.len(), 1);
    assert_eq!(hosts[0].user.as_deref(), Some("custom"));
    assert_eq!(hosts[0].port, Some(8022));
}

#[test]
fn test_match_blocks_end_hosts_and_later_defaults_apply_on_completion() {
    let config = "Host a\n  Hostname 1.1.1.1\nMatch host x\n  User ignored\nHost b\nHost *\n  User late\n";
    let hosts = parse_ssh_config_str(config);
    assert_eq!(hosts.len(), 2);
    assert_eq!(hosts[0].user, None, "completed before any default was seen");
    assert_eq!(hosts[1].host, "b");
    assert_eq!(hosts[1].user, None, "completed when the wildcard block opened");
}

#[test]
fn test_bad_port_and_keyword_case() {
    let config = "HOST box\n  port notanumber\n  USER me\n";
    let hosts = parse_ssh_config_str(config);
    assert_eq!(hosts.len(), 1);
    assert_eq!(hosts[0].port, None);
    assert_eq!(hosts[0].user.as_deref(), Some("me"));
}

const SSH_CONFIG_SAMPLE: &str = "\
# sample client configuration
Host *.internal
    User ops

Host *
    User root
    Port 22

Host webserver
    HostName 192.168.1.100
    User admin
    Port 2222

Host db-prod
    HostName db.example.com

Host staging
    HostName staging.example.com
    User deploy

Host bastion
    HostName bastion.example.com
    Port 8022
";

#[test]
fn test_ssh_config_parse() {
    let hosts = parse_ssh_config_str(SSH_CONFIG_SAMPLE);
    assert_eq!(hosts.len(), 4);

    let web = hosts.iter().find(|h| h.host == "webserver").unwrap();
    assert_eq!(web.hostname.as_deref(), Some("192.168.1.100"));
    assert_eq!(web.user.as_deref(), Some("admin"));
    assert_eq!(web.port, Some(2222));

    let db = hosts.iter().find(|h| h.host == "db-prod").unwrap();
    assert_eq!(db.hostname.as_deref(), Some("db.example.com"));
    assert_eq!(db.user.as_deref(), Some("root"));
    assert_eq!(db.port, Some(22));

    let bastion = hosts.iter().find(|h| h.host == "bastion").unwrap();
    assert_eq!(bastion.port, Some(8022));
}
