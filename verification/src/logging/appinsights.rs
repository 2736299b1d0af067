//! Azure Application Insights export: where events land, and how many.

use vstd::prelude::*;

use crate::logging::double::{self, clamp};
use crate::logging::error::Error;
use crate::logging::sampling::Rate;

verus! {

broadcast use vstd::string::group_string_axioms;

/// The environment variable Azure Monitor's own SDKs read.
pub const CONNECTION_STRING_VAR: &'static str = "APPLICATIONINSIGHTS_CONNECTION_STRING";

/// Where events land in Application Insights, and under what identity.
#[derive(Debug)]
pub struct AppInsightsConfig {
    /// The full connection string, with its instrumentation key and ingestion endpoint.
    pub connection_string: String,
    /// Reported as the service name, so several services in one workspace can be told
    /// apart.
    pub service_name: String,
    /// Fraction of traces exported. Defaults to everything.
    ///
    /// Sampling is parent-based, so a trace is kept or dropped whole. Log records are
    /// not sampled: the per-sink filter is the tool for those.
    pub sample_rate: Rate,
}

/// The rate that is applied: the one asked for, brought into the range from zero to one;
/// everything where it is infinite or no number.
pub open spec fn applied_rate(bits: u64) -> u64 {
    if double::is_finite(bits) {
        double::clamped(bits)
    } else {
        double::ONE
    }
}

impl AppInsightsConfig {
    /// Export to the resource named by `connection_string`.
    pub fn new(connection_string: &str, service_name: &str) -> (config: AppInsightsConfig)
        ensures
            config.connection_string@ == connection_string@,
            config.service_name@ == service_name@,
            config.sample_rate.bits == double::ONE,
    {
        AppInsightsConfig {
            connection_string: connection_string.to_owned(),
            service_name: service_name.to_owned(),
            sample_rate: Rate { bits: double::ONE },
        }
    }

    /// Export this fraction of traces. Brought into range when applied.
    #[must_use]
    pub fn with_sample_rate(self, rate: Rate) -> (config: AppInsightsConfig)
        ensures
            config == (AppInsightsConfig { sample_rate: rate, ..self }),
    {
        let mut config: AppInsightsConfig = self;
        config.sample_rate = rate;
        config
    }

    /// The rate that is applied.
    pub fn effective_sample_rate(&self) -> (rate: Rate)
        ensures
            rate.bits == applied_rate(self.sample_rate.bits),
    {
        let bits: u64 = self.sample_rate.bits;
        let unsigned: u64 = if bits >= double::SIGN {
            bits - double::SIGN
        } else {
            bits
        };
        if unsigned < double::INFINITY {
            Rate { bits: clamp(bits) }
        } else {
            Rate { bits: double::ONE }
        }
    }

    /// The configuration, given what looking the connection string up gave.
    pub fn from_found(
        service_name: &str,
        found: Option<String>,
    ) -> (config: Result<AppInsightsConfig, Error>)
        ensures
            is_from(service_name@, found, config),
    {
        match found {
            Some(connection_string) => Ok(
                AppInsightsConfig::new(connection_string.as_str(), service_name),
            ),
            None => Err(
                Error::AppInsights(CONNECTION_STRING_VAR.to_owned().concat(" is not set")),
            ),
        }
    }

    /// Read the connection string from a caller-supplied lookup, which is asked for
    /// [`CONNECTION_STRING_VAR`].
    ///
    /// Reaching the sink does not mean first writing a secret into the environment of
    /// the whole process. Fails where the lookup yields nothing.
    pub fn from_lookup<F: FnOnce(&str) -> Option<String>>(
        service_name: &str,
        lookup: F,
    ) -> (config: Result<AppInsightsConfig, Error>)
        requires
            call_requires(lookup, (CONNECTION_STRING_VAR,)),
        ensures
            exists|found: Option<String>| #[trigger]
                call_ensures(lookup, (CONNECTION_STRING_VAR,), found) && is_from(
                    service_name@,
                    found,
                    config,
                ),
    {
        let found: Option<String> = lookup(CONNECTION_STRING_VAR);
        AppInsightsConfig::from_found(service_name, found)
    }
}

/// How making the exporter went.
#[derive(Debug)]
pub enum ExporterReply {
    /// The HTTP client could not be built.
    NoClient,
    /// The connection string was refused, with a message.
    Refused(String),
    /// The exporter is there.
    Ready,
}

/// A resource attribute: what log records and spans report of the process.
#[derive(Debug)]
pub struct Attribute {
    /// Its name.
    pub key: String,
    /// Its value.
    pub value: String,
}

/// What both providers are built with, so that logs and spans arrive under the same service
/// identity and can be correlated.
#[derive(Debug)]
pub struct Providers {
    /// The attribute of the resource.
    pub resource: Attribute,
    /// Fraction of traces exported. The sampler that goes by it is parent-based: a trace is
    /// kept or dropped whole.
    pub sample_rate: Rate,
}

/// The failure that a reply stands for, where it does.
pub open spec fn exporter_failure(reply: ExporterReply) -> Option<Seq<char>> {
    match reply {
        ExporterReply::NoClient => Some("could not build the HTTP client"@),
        ExporterReply::Refused(e) => Some("unusable connection string: "@ + e@),
        ExporterReply::Ready => None,
    }
}

/// The resource of the logger provider, given how making the exporter went.
pub fn provider(
    config: &AppInsightsConfig,
    reply: ExporterReply,
) -> (resource: Result<Attribute, Error>)
    ensures
        match exporter_failure(reply) {
            Some(e) => resource matches Err(Error::AppInsights(message)) && message@ == e,
            None => resource matches Ok(attribute) && attribute.key@ == "service.name"@
                && attribute.value@ == config.service_name@,
        },
{
    match reply {
        ExporterReply::NoClient => Err(
            Error::AppInsights("could not build the HTTP client".to_owned()),
        ),
        ExporterReply::Refused(e) => Err(
            Error::AppInsights("unusable connection string: ".to_owned().concat(e.as_str())),
        ),
        ExporterReply::Ready => Ok(
            Attribute { key: "service.name".to_owned(), value: config.service_name.clone() },
        ),
    }
}

/// What both providers are built with, given how making the exporter went.
pub fn providers(
    config: &AppInsightsConfig,
    reply: ExporterReply,
) -> (providers: Result<Providers, Error>)
    ensures
        match exporter_failure(reply) {
            Some(e) => providers matches Err(Error::AppInsights(message)) && message@ == e,
            None => providers matches Ok(p) && p.resource.key@ == "service.name"@
                && p.resource.value@ == config.service_name@ && p.sample_rate.bits == applied_rate(
                config.sample_rate.bits,
            ),
        },
{
    match provider(config, reply) {
        Ok(resource) => Ok(Providers { resource, sample_rate: config.effective_sample_rate() }),
        Err(e) => Err(e),
    }
}

/// Whether `config` is what comes of a lookup that found `found`.
pub open spec fn is_from(
    service_name: Seq<char>,
    found: Option<String>,
    config: Result<AppInsightsConfig, Error>,
) -> bool {
    match found {
        Some(connection_string) => config matches Ok(c) && c.connection_string@
            == connection_string@ && c.service_name@ == service_name && c.sample_rate.bits
            == double::ONE,
        None => config matches Err(Error::AppInsights(message)) && message@
            == CONNECTION_STRING_VAR@ + " is not set"@,
    }
}

/// The rate that is applied: from zero to one it is the one asked for, above one it is
/// one, below zero it is zero, and where no finite number is asked for everything is
/// exported.
pub proof fn law_applied_rate(bits: u64)
    ensures
        bits <= 0x3FF0_0000_0000_0000 ==> applied_rate(bits) == bits,
        0x3FF0_0000_0000_0000 < bits < 0x8000_0000_0000_0000 ==> applied_rate(bits)
            == 0x3FF0_0000_0000_0000,
        0x8000_0000_0000_0000 < bits < 0xFFF0_0000_0000_0000 ==> applied_rate(bits) == 0,
        bits >= 0xFFF0_0000_0000_0000 ==> applied_rate(bits) == 0x3FF0_0000_0000_0000,
        applied_rate(applied_rate(bits)) == applied_rate(bits),
{
    double::law_clamp_keeps(bits);
    double::law_clamp_keeps(applied_rate(bits));
}

/// A connection string that is found is used as it is, with every trace exported; where
/// none is found the error names the variable, and an exporter that is ready is the only
/// reply without a failure.
pub proof fn law_connection_string(
    service_name: Seq<char>,
    found: Option<String>,
    config: Result<AppInsightsConfig, Error>,
    reply: ExporterReply,
)
    requires
        is_from(service_name, found, config),
    ensures
        config is Ok <==> found is Some,
        config matches Ok(c) ==> c.connection_string@ == found->0@ && c.service_name@
            == service_name && c.sample_rate.bits == 0x3FF0_0000_0000_0000,
        config matches Err(e) ==> e matches Error::AppInsights(message) && message@
            == "APPLICATIONINSIGHTS_CONNECTION_STRING"@ + " is not set"@,
        exporter_failure(reply) is None <==> reply is Ready,
{
}

} // verus!
