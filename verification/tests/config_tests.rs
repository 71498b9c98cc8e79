use backup_util::config::Config;
use backup_util::config::ConfigError;
use backup_util::config::TimeColumn;
use backup_util::config::parse_config;
use backup_util::temp::temp_file_name;
use backup_util::text::chars_to_string;
use backup_util::text::dec_string;

fn parsed(text: &str) -> Config {
    match parse_config(text) {
        Ok(c) => c,
        Err(e) => panic!("expected a parse, got {:?}", e),
    }
}

fn rejected(text: &str) -> ConfigError {
    match parse_config(text) {
        Ok(_) => panic!("expected a rejection"),
        Err(e) => e,
    }
}

#[test]
fn parses_a_full_configuration() {
    let text = "# nightly backups\n\nwebhook https://h.example/api/webhooks/9/t\nevery 1 h 30 min\npassword hunter two\ncompression 5\n#! /bin/sh -e\necho hi\ntar cf - data\n";
    let c = parsed(text);
    assert_eq!(c.webhook.url(), "https://h.example/api/webhooks/9/t");
    assert_eq!(c.delay_ms, 3_600_000 + 30 * 60_000);
    assert_eq!(c.password.as_deref(), Some("hunter two"));
    assert_eq!(c.compression_level, 5);
    assert_eq!(c.shell, vec!["/bin/sh".to_string(), "-e".to_string()]);
    assert_eq!(c.script, "echo hi\ntar cf - data\n");
}

#[test]
fn defaults_compression_and_password() {
    let c = parsed("webhook http://h\nevery 1 d\n#!sh\n");
    assert_eq!(c.compression_level, 10);
    assert!(c.password.is_none());
    assert_eq!(c.delay_ms, 86_400_000);
    assert_eq!(c.shell, vec!["sh".to_string()]);
    assert_eq!(c.script, "");
}

#[test]
fn duration_forms() {
    assert_eq!(parsed("webhook h\nevery 5h\n#!sh\n").delay_ms, 5 * 3_600_000);
    assert_eq!(parsed("webhook h\nevery day\n#!sh\n").delay_ms, 86_400_000);
    assert_eq!(
        parsed("webhook h\nevery 2 weeks 1 d 500 ms\n#!sh\n").delay_ms,
        2 * 604_800_000 + 86_400_000 + 500
    );
    assert_eq!(parsed("webhook h\nevery 3mon\n#!sh\n").delay_ms, 3 * 2_628_288_000);
    assert_eq!(parsed("webhook h\nevery 1 year\n#!sh\n").delay_ms, 32_054_400_000);
}

#[test]
fn bare_every_is_not_a_directive() {
    // Directives are matched with their trailing space; a lone `every`
    // never reaches the duration grammar.
    assert_eq!(rejected("webhook h\nevery\n#!sh\n"), ConfigError::UndefinedDirective);
}

#[test]
fn duration_errors() {
    assert_eq!(rejected("webhook h\nevery 5\n#!sh\n"), ConfigError::DurationMissingUnit);
    assert_eq!(rejected("webhook h\nevery 5 parsecs\n#!sh\n"), ConfigError::DurationUnknownUnit);
    assert_eq!(rejected("webhook h\nevery 5parsecs\n#!sh\n"), ConfigError::DurationUnknownUnit);
    assert_eq!(
        rejected("webhook h\nevery 99999999999h\n#!sh\n"),
        ConfigError::DurationInvalidTime
    );
    assert_eq!(rejected("webhook h\nevery ?\n#!sh\n"), ConfigError::DurationUndefined);
}

#[test]
fn directive_errors() {
    assert_eq!(rejected("nonsense\n#!sh\n"), ConfigError::UndefinedDirective);
    assert_eq!(
        rejected("webhook a\nwebhook b\nevery 1 d\n#!sh\n"),
        ConfigError::MultipleWebhooks
    );
    assert_eq!(
        rejected("password a\npassword b\nwebhook h\nevery 1 d\n#!sh\n"),
        ConfigError::MultiplePasswords
    );
    assert_eq!(
        rejected("every 1 d\nevery 2 d\nwebhook h\n#!sh\n"),
        ConfigError::MultipleDelays
    );
    assert_eq!(
        rejected("compression 1\ncompression 2\nwebhook h\nevery 1 d\n#!sh\n"),
        ConfigError::MultipleCompressions
    );
    assert_eq!(
        rejected("compression fast\nwebhook h\nevery 1 d\n#!sh\n"),
        ConfigError::InvalidCompression
    );
}

#[test]
fn missing_pieces() {
    assert_eq!(rejected("webhook h\nevery 1 d\n"), ConfigError::NoShell);
    assert_eq!(rejected("webhook h\nevery 1 d\n#!\n"), ConfigError::NoShell);
    assert_eq!(rejected("webhook h\nevery 1 d\n#!   \n"), ConfigError::NoShell);
    assert_eq!(rejected("every 1 d\n#!sh\n"), ConfigError::MissingWebhook);
    assert_eq!(rejected("webhook h\n#!sh\n"), ConfigError::MissingDelay);
}

#[test]
fn negative_compression_and_crlf_lines() {
    let c = parsed("webhook h\r\ncompression -3\r\nevery 1 s\r\n#!sh -c\r\nbody line\r\n");
    assert_eq!(c.compression_level, -3);
    assert_eq!(c.delay_ms, 1000);
    assert_eq!(c.script, "body line\n");
    assert_eq!(c.shell, vec!["sh".to_string(), "-c".to_string()]);
}

#[test]
fn comments_and_blank_lines_are_skipped() {
    let c = parsed("\n   \n# comment\nwebhook h\n# another\nevery 1 s\n#!sh\n");
    assert_eq!(c.webhook.url(), "h");
}

#[test]
fn time_column_holds_its_row() {
    let col = TimeColumn::new(vec!["s".to_string(), "second".to_string()], 1000);
    assert_eq!(col.aliases, vec!["s".to_string(), "second".to_string()]);
    assert_eq!(col.time_ms, 1000);
}

#[test]
fn temp_file_names_are_prefixed_and_random() {
    let a = temp_file_name();
    let b = temp_file_name();
    assert!(a.starts_with("discord-backup-util."));
    assert_eq!(a.len(), "discord-backup-util.".len() + 32);
    assert!(a["discord-backup-util.".len()..].bytes().all(|c| c.is_ascii_alphanumeric()));
    assert_ne!(a, b, "two names drawn at once almost surely differ");
}

#[test]
fn decimal_rendering() {
    assert_eq!(dec_string(0), "0");
    assert_eq!(dec_string(7), "7");
    assert_eq!(dec_string(1203), "1203");
    assert_eq!(dec_string(u64::MAX), "18446744073709551615");
}

#[test]
fn chars_round_trip() {
    let v: Vec<char> = "héllo ☀".chars().collect();
    assert_eq!(chars_to_string(&v), "héllo ☀");
}
