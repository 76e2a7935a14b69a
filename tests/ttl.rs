use tempx::config::AppConfig;
use tempx::ids::{get_file_prefix, uuid4, uuid_from_random_bits, VARIANT_MASK, VARIANT_RFC4122, VERSION_4, VERSION_MASK};
use tempx::ms::{Ms, MsParseError};

fn secs(s: u64) -> Ms {
    Ms::from_millis(s * 1000)
}

#[test]
fn clamp_without_request_gives_default() {
    let config = AppConfig::default();
    assert_eq!(config.get_safe_duration(None), secs(60));
}

#[test]
fn clamp_keeps_request_within_max() {
    let config = AppConfig::default();
    assert_eq!(config.get_safe_duration(Some(secs(5))), secs(5));
}

#[test]
fn clamp_cuts_request_to_max() {
    let config = AppConfig::default();
    assert_eq!(config.get_safe_duration(Some(secs(3600))), secs(600));
}

#[test]
fn clamp_keeps_request_equal_to_max() {
    let config = AppConfig::default();
    assert_eq!(config.get_safe_duration(Some(secs(600))), secs(600));
}

#[test]
fn default_config_values() {
    let config = AppConfig::default();
    assert_eq!(config.default_expire.millis, 60_000);
    assert_eq!(config.max_expire.millis, 600_000);
    assert_eq!(config.port, 3000);
    assert_eq!(config.file_limit, 10 * 1024 * 1024);
    assert_eq!(config.address, [0, 0, 0, 0]);
}

#[test]
fn duration_text_in_largest_unit() {
    assert_eq!(Ms::dur_to_string(60_000), Some("1m".to_string()));
    assert_eq!(Ms::dur_to_string(600_000), Some("10m".to_string()));
    assert_eq!(Ms::dur_to_string(5_000), Some("5s".to_string()));
    assert_eq!(Ms::dur_to_string(250), Some("250ms".to_string()));
    assert_eq!(Ms::dur_to_string(2 * 86_400_000), Some("2d".to_string()));
    assert_eq!(secs(3600).to_string(), Some("1h".to_string()));
}

#[test]
fn duration_text_too_long() {
    assert_eq!(Ms::dur_to_string(u64::MAX), None);
    assert_eq!(Ms::from_millis(1u64 << 63).to_string(), None);
}

#[test]
fn parse_duration_text() {
    assert_eq!(Ms::parse("5s"), Ok(secs(5)));
    assert_eq!(Ms::parse("1m"), Ok(secs(60)));
    assert_eq!(Ms::parse("100"), Ok(Ms::from_millis(100)));
    assert_eq!(Ms::parse("2 hours"), Ok(secs(7200)));
}

#[test]
fn parse_duration_text_rejects() {
    assert_eq!(Ms::parse("soon"), Err(MsParseError));
    assert_eq!(Ms::parse("-1d"), Err(MsParseError));
}

#[test]
fn seconds_of_duration() {
    assert_eq!(Ms::from_millis(1999).as_secs(), 1);
    assert_eq!(Ms::from_secs(7).millis, 7000);
}

#[test]
fn uuid_bits_from_zero() {
    assert_eq!(uuid_from_random_bits(0), VERSION_4 | VARIANT_RFC4122);
}

#[test]
fn uuid_bits_from_ones() {
    let r = uuid_from_random_bits(u128::MAX);
    assert_eq!(r, !(VERSION_MASK | VARIANT_MASK) | VERSION_4 | VARIANT_RFC4122);
    assert_eq!(r, 0xffff_ffff_ffff_4fff_bfff_ffff_ffff_ffff);
}

#[test]
fn fresh_ids_are_version_4_and_differ() {
    let a = uuid4();
    let b = uuid4();
    assert_eq!(a & VERSION_MASK, VERSION_4);
    assert_eq!(a & VARIANT_MASK, VARIANT_RFC4122);
    assert_ne!(a, b);
}

#[test]
fn file_prefix_before_first_dot() {
    assert_eq!(get_file_prefix("abc.txt"), Some("abc"));
    assert_eq!(get_file_prefix("a.b.c"), Some("a"));
    assert_eq!(get_file_prefix(".hidden"), Some(""));
}

#[test]
fn file_prefix_without_dot() {
    assert_eq!(get_file_prefix("abc"), None);
    assert_eq!(get_file_prefix(""), None);
}

#[test]
fn id_text_is_hyphenated_hex() {
    let id: u128 = 0x2f327c1e_2764_43b7_8e32_c785072d1f3c;
    assert_eq!(tempx::ids::id_to_string(id), "2f327c1e-2764-43b7-8e32-c785072d1f3c");
    assert_eq!(tempx::ids::id_to_string(0), "00000000-0000-0000-0000-000000000000");
}

#[test]
fn stored_file_name_with_extension() {
    let id: u128 = 0x2f327c1e_2764_43b7_8e32_c785072d1f3c;
    assert_eq!(tempx::ids::stored_file_name(id, Some("json")), "2f327c1e-2764-43b7-8e32-c785072d1f3c.json");
    assert_eq!(tempx::ids::stored_file_name(id, None), "2f327c1e-2764-43b7-8e32-c785072d1f3c");
}
