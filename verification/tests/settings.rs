use simpledns::settings::{low_u16, low_u32, ConfigValues, DnsSettings, SettingsError};

#[test]
fn defaults_where_nothing_is_given() {
    let s = DnsSettings::from_values(&ConfigValues::new(), "/var/db".to_string());
    assert_eq!(s.listening_port, 53);
    assert_eq!(s.remote_lookup_port, 42069);
    assert_eq!(s.thread_count, 1);
    assert!(s.use_udp);
    assert!(!s.use_tcp);
    assert_eq!(s.database_file, "/var/db");
}

#[test]
fn given_values_are_taken() {
    let mut v = ConfigValues::new();
    v.listening_port = Some(5353);
    v.remote_lookup_port = Some(1);
    v.thread_count = Some(8);
    v.use_udp = Some(false);
    v.use_tcp = Some(true);
    v.database_file = Some("ignored".to_string());
    let s = DnsSettings::from_values(&v, "x".to_string());
    assert_eq!(s.listening_port, 5353);
    assert_eq!(s.remote_lookup_port, 1);
    assert_eq!(s.thread_count, 8);
    assert!(!s.use_udp);
    assert!(s.use_tcp);
    assert_eq!(s.database_file, "x");
}

#[test]
fn integers_keep_their_low_bits() {
    assert_eq!(low_u16(0), 0);
    assert_eq!(low_u16(65535), 65535);
    assert_eq!(low_u16(65536 + 53), 53);
    assert_eq!(low_u16(-1), 65535);
    assert_eq!(low_u16(-65536), 0);
    assert_eq!(low_u16(i64::MIN), 0);
    assert_eq!(low_u16(i64::MAX), 65535);
    assert_eq!(low_u32(4294967296 + 7), 7);
    assert_eq!(low_u32(-1), 4294967295);
    assert_eq!(low_u32(i64::MIN), 0);
    for x in [-70000i64, -65537, -3, 1, 70000, 1 << 40, -(1 << 40) + 5] {
        assert_eq!(low_u16(x), x as u16);
        assert_eq!(low_u32(x), x as u32);
    }
}

#[test]
fn database_path_default() {
    assert_eq!(ConfigValues::new().database_path(), "~/.config/simpledns/simpledns.sqlite.db");
    let mut v = ConfigValues::new();
    v.database_file = Some("/tmp/d.db".to_string());
    assert_eq!(v.database_path(), "/tmp/d.db");
}

#[test]
fn values_are_read_from_the_first_document() {
    let text = "listening-port: 5353\nremote-lookup-port: 4000\nthread-count: 4\nuse-udp: false\nuse-tcp: true\ndatabase-file: /srv/dns.db\n---\nlistening-port: 1\n";
    let v = DnsSettings::parse(text).unwrap();
    assert_eq!(v.listening_port, Some(5353));
    assert_eq!(v.remote_lookup_port, Some(4000));
    assert_eq!(v.thread_count, Some(4));
    assert_eq!(v.use_udp, Some(false));
    assert_eq!(v.use_tcp, Some(true));
    assert_eq!(v.database_file.as_deref(), Some("/srv/dns.db"));
}

#[test]
fn values_of_another_kind_are_not_taken() {
    let text = "listening-port: \"53\"\nuse-udp: 1\ndatabase-file: 7\nthread-count: 2.5\n";
    let v = DnsSettings::parse(text).unwrap();
    assert_eq!(v.listening_port, None);
    assert_eq!(v.use_udp, None);
    assert_eq!(v.database_file, None);
    assert_eq!(v.thread_count, None);
    assert_eq!(v.remote_lookup_port, None);
}

#[test]
fn document_that_is_no_mapping_gives_the_defaults() {
    let s = DnsSettings::load_from_file("- 1\n- 2\n").unwrap();
    assert_eq!(s.listening_port, 53);
    assert_eq!(s.remote_lookup_port, 42069);
    assert_eq!(s.thread_count, 1);
    assert!(s.use_udp);
    assert!(!s.use_tcp);
    assert!(s.database_file.ends_with("/.config/simpledns/simpledns.sqlite.db"));
    assert!(!s.database_file.starts_with('~'));
}

#[test]
fn settings_from_a_text() {
    let s = DnsSettings::load_from_file("listening-port: 70000\nuse-tcp: true\ndatabase-file: /srv/dns.db\n").unwrap();
    assert_eq!(s.listening_port, 4464);
    assert_eq!(s.remote_lookup_port, 42069);
    assert!(s.use_tcp);
    assert_eq!(s.database_file, "/srv/dns.db");
}

#[test]
fn text_without_a_document() {
    assert_eq!(DnsSettings::parse("").err(), Some(SettingsError::NoDocument));
    assert_eq!(DnsSettings::load_from_file("").err(), Some(SettingsError::NoDocument));
}

#[test]
fn text_that_is_no_yaml() {
    assert_eq!(DnsSettings::parse("a: [1, 2").err(), Some(SettingsError::Syntax));
    assert_eq!(DnsSettings::load_from_file("a: [1, 2").err(), Some(SettingsError::Syntax));
}

#[test]
fn path_with_an_unknown_variable_cannot_be_expanded() {
    let r = DnsSettings::load_from_file("database-file: $SIMPLEDNS_SURELY_NOT_SET_6021/db\n");
    assert_eq!(r.err(), Some(SettingsError::Expansion));
}

#[test]
fn default_files_in_order() {
    assert_eq!(
        DnsSettings::default_files(),
        vec!["./dns.config.yaml", "~/.config/simpledns/dns.config.yaml", "/etc/simpledns/dns.config.yaml"]
    );
}

#[test]
fn first_existing_file_is_chosen() {
    assert_eq!(DnsSettings::choose_file(&vec![None, None, None]), None);
    assert_eq!(DnsSettings::choose_file(&vec![]), None);
    assert_eq!(DnsSettings::choose_file(&vec![None, Some("a".to_string()), Some("b".to_string())]), Some(1));
    assert_eq!(DnsSettings::choose_file(&vec![Some(String::new()), None]), Some(0));
}

#[test]
fn default_settings_come_from_the_first_existing_file() {
    let found = vec![
        None,
        Some("listening-port: 1053\ndatabase-file: /a\n".to_string()),
        Some("listening-port: 2053\ndatabase-file: /b\n".to_string()),
    ];
    let s = DnsSettings::load_default(&found).unwrap();
    assert_eq!(s.listening_port, 1053);
    assert_eq!(s.database_file, "/a");
    assert_eq!(DnsSettings::load_default(&vec![None, None, None]).err(), Some(SettingsError::NoConfigFile));
    assert_eq!(
        DnsSettings::load_default(&vec![Some("a: [".to_string()), Some("listening-port: 1\n".to_string())]).err(),
        Some(SettingsError::Syntax)
    );
}
