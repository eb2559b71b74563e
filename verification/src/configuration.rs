//! The configuration of the agent: which sources it is read from, in which
//! order, and what its broker section holds.

use vstd::prelude::*;
use vstd::string::*;

verus! {

/// The port of a broker where the configuration names none.
pub const DEFAULT_MQTT_PORT: u16 = 1883;

/// The port of a broker where the configuration names none.
pub fn default_mqtt_port() -> (port: u16)
    ensures
        port == DEFAULT_MQTT_PORT,
{
    DEFAULT_MQTT_PORT
}

/// The broker section of the configuration. Where the sources name no port,
/// the port is the default one.
#[derive(Clone, Debug, PartialEq, Eq)]
pub struct MqttConfig {
    pub broker_host: String,
    pub broker_port: u16,
    pub client_id: String,
}

/// A place that a part of the configuration is read from.
#[derive(Clone, Debug, PartialEq, Eq)]
pub enum ConfigSource {
    /// The file of the given name, whatever its extension.
    File(String),
    /// The variables of the environment whose names begin with the given
    /// prefix.
    Environment(String),
}

/// A source as a mathematical value.
pub enum SourceView {
    File(Seq<char>),
    Environment(Seq<char>),
}

impl View for ConfigSource {
    type V = SourceView;

    open spec fn view(&self) -> SourceView {
        match self {
            ConfigSource::File(name) => SourceView::File(name@),
            ConfigSource::Environment(prefix) => SourceView::Environment(prefix@),
        }
    }
}

/// The sources of the configuration, a later one overriding an earlier one:
/// the file that is named, or else the settings and then the development
/// settings of the `configuration` directory, and after the files the
/// environment.
pub open spec fn sources_of(file: Option<Seq<char>>) -> Seq<SourceView> {
    match file {
        Some(name) => seq![SourceView::File(name), SourceView::Environment("APP"@)],
        None => seq![
            SourceView::File("configuration/settings"@),
            SourceView::File("configuration/dev_settings"@),
            SourceView::Environment("APP"@),
        ],
    }
}

/// The sources of the configuration in the order in which they are read,
/// for the configuration file that was named, if one was.
pub fn configuration_sources(file: Option<String>) -> (sources: Vec<ConfigSource>)
    ensures
        sources@.map_values(|source: ConfigSource| source@) == sources_of(
            match file {
                Some(name) => Some(name@),
                None => None,
            },
        ),
{
    let mut sources: Vec<ConfigSource> = Vec::new();
    let ghost named = match &file {
        Some(name) => Some(name@),
        None => None,
    };
    match file {
        Some(name) => {
            sources.push(ConfigSource::File(name));
        },
        None => {
            sources.push(ConfigSource::File("configuration/settings".to_owned()));
            sources.push(ConfigSource::File("configuration/dev_settings".to_owned()));
        },
    }
    sources.push(ConfigSource::Environment("APP".to_owned()));
    assert(sources@.map_values(|source: ConfigSource| source@) =~= sources_of(named));
    sources
}

} // verus!
