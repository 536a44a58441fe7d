use kafka_bombardier::broker::{configured_brokers, producer_config};
use kafka_bombardier::settings::{parse_thread_count, SettingsError};

#[test]
fn thread_count_defaults_to_one() {
    assert_eq!(parse_thread_count(None), Ok(1));
}

#[test]
fn thread_count_numerals() {
    assert_eq!(parse_thread_count(Some("4")), Ok(4));
    assert_eq!(parse_thread_count(Some("+3")), Ok(3));
    assert_eq!(parse_thread_count(Some("007")), Ok(7));
    assert_eq!(parse_thread_count(Some(&usize::MAX.to_string())), Ok(usize::MAX));
}

#[test]
fn thread_count_rejects_bad_input() {
    for bad in ["0", "-1", "abc", "", "+", "1.5", " 2", "3x"] {
        assert_eq!(parse_thread_count(Some(bad)), Err(SettingsError::InvalidThreadCount), "{bad}");
    }
    let too_big = format!("{}0", usize::MAX);
    assert_eq!(parse_thread_count(Some(&too_big)), Err(SettingsError::InvalidThreadCount));
}

#[test]
fn producer_config_names_brokers_and_timeout() {
    let c = producer_config("h1:9092,h2:9092");
    assert_eq!(configured_brokers(&c), Some("h1:9092,h2:9092".to_string()));
    assert_eq!(c.get("bootstrap.servers"), Some("h1:9092,h2:9092"));
    assert_eq!(c.get("message.timeout.ms"), Some("5000"));
}

#[test]
fn empty_config_names_no_brokers() {
    let c = rdkafka::ClientConfig::new();
    assert_eq!(configured_brokers(&c), None);
}
