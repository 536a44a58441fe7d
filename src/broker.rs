//! Producer settings handed to the broker client library.
use vstd::prelude::*;

verus! {

#[verifier::external_type_specification]
#[verifier::external_body]
pub struct ExClientConfig(rdkafka::ClientConfig);

/// The key/value pairs that a client configuration holds.
pub uninterp spec fn config_entries(c: rdkafka::ClientConfig) -> Map<Seq<char>, Seq<char>>;

/// The settings key that names the broker endpoints.
pub open spec fn bootstrap_key() -> Seq<char> {
    "bootstrap.servers"@
}

/// The settings key that bounds how long a message may wait for delivery.
pub open spec fn timeout_key() -> Seq<char> {
    "message.timeout.ms"@
}

/// Milliseconds after which an unacknowledged message is given up.
pub open spec fn timeout_value() -> Seq<char> {
    "5000"@
}

/// The settings of a producer bound to the endpoints `brokers`.
pub open spec fn producer_entries(brokers: Seq<char>) -> Map<Seq<char>, Seq<char>> {
    map![bootstrap_key() => brokers, timeout_key() => timeout_value()]
}

/// Relies on rdkafka::ClientConfig::new: a configuration with no entries.
#[verifier::external_body]
fn new_config() -> (r: rdkafka::ClientConfig)
    ensures
        config_entries(r).dom().is_empty(),
{
    rdkafka::ClientConfig::new()
}

/// Relies on rdkafka::ClientConfig::set: the entry for `key` becomes `value`,
/// replacing an earlier one, and the other entries stay.
#[verifier::external_body]
fn set_entry(c: &mut rdkafka::ClientConfig, key: &str, value: &str)
    ensures
        config_entries(*final(c)) == config_entries(*old(c)).insert(key@, value@),
{
    c.set(key, value);
}

/// Relies on rdkafka::ClientConfig::get: the value stored under `key`, if any.
#[verifier::external_body]
fn get_entry(c: &rdkafka::ClientConfig, key: &str) -> (r: Option<String>)
    ensures
        r.is_none() <==> !config_entries(*c).contains_key(key@),
        r.is_some() ==> r.unwrap()@ == config_entries(*c)[key@],
{
    c.get(key).map(|v| v.to_string())
}

/// Builds the configuration of a producer for the comma separated endpoint
/// list `brokers`, with a fixed delivery timeout of five seconds.
pub fn producer_config(brokers: &str) -> (r: rdkafka::ClientConfig)
    ensures
        config_entries(r) == producer_entries(brokers@),
{
    let mut c = new_config();
    set_entry(&mut c, "bootstrap.servers", brokers);
    set_entry(&mut c, "message.timeout.ms", "5000");
    proof {
        reveal_strlit("bootstrap.servers");
        reveal_strlit("message.timeout.ms");
        reveal_strlit("5000");
        assert(config_entries(c) =~= producer_entries(brokers@));
    }
    c
}

/// The endpoint list that a configuration names, if it names one.
pub fn configured_brokers(c: &rdkafka::ClientConfig) -> (r: Option<String>)
    ensures
        r.is_none() <==> !config_entries(*c).contains_key(bootstrap_key()),
        r.is_some() ==> r.unwrap()@ == config_entries(*c)[bootstrap_key()],
{
    get_entry(c, "bootstrap.servers")
}

} // verus!
