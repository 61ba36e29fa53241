//! The ways in which reading and merging documents fail.

use vstd::prelude::*;
use vstd::string::*;

verus! {

/// Why a text is not a document.
#[derive(Debug)]
pub enum FormatError {
    /// The YAML reader refused the text, or the YAML writer the document.
    Yaml(serde_yaml::Error),
    /// The YAML is not of the shape of a document.
    Structure,
}

/// Which of the two [`FormatError`]s it is.
#[derive(Clone, Copy, Debug, PartialEq, Eq, Structural)]
pub enum FormatKind {
    Yaml,
    Structure,
}

impl View for FormatError {
    type V = FormatKind;

    open spec fn view(&self) -> FormatKind {
        match self {
            FormatError::Yaml(_) => FormatKind::Yaml,
            FormatError::Structure => FormatKind::Structure,
        }
    }
}

/// A failure, as mathematical values.
pub enum ConfigErrorModel {
    ProxyServerInvalid { config_name: Seq<char>, server: Seq<char>, source_kind: Seq<char> },
    ProxyServerIpInvalid { config_name: Seq<char>, server: Seq<char> },
    Format(FormatKind),
    NotSync { subscribe_source_name: Seq<char> },
}

/// A failure to read or to merge documents.
#[derive(Debug)]
pub enum ConfigError {
    /// The address of a proxy's server is not a domain name. `source_kind`
    /// names what the domain parser found wrong.
    ProxyServerInvalid { config_name: String, server: String, source_kind: String },
    /// The address of a proxy's server ends like an IP address and is none.
    ProxyServerIpInvalid { config_name: String, server: String },
    /// A text is not a document.
    Format(FormatError),
    /// A source has no content: it was never fetched.
    NotSync { subscribe_source_name: String },
}

impl View for ConfigError {
    type V = ConfigErrorModel;

    open spec fn view(&self) -> ConfigErrorModel {
        match self {
            ConfigError::ProxyServerInvalid {
                config_name,
                server,
                source_kind,
            } => ConfigErrorModel::ProxyServerInvalid {
                config_name: config_name@,
                server: server@,
                source_kind: source_kind@,
            },
            ConfigError::ProxyServerIpInvalid {
                config_name,
                server,
            } => ConfigErrorModel::ProxyServerIpInvalid {
                config_name: config_name@,
                server: server@,
            },
            ConfigError::Format(e) => ConfigErrorModel::Format(e@),
            ConfigError::NotSync { subscribe_source_name } => ConfigErrorModel::NotSync {
                subscribe_source_name: subscribe_source_name@,
            },
        }
    }
}

/// A failure in words.
pub open spec fn message_of(e: ConfigErrorModel) -> Seq<char> {
    match e {
        ConfigErrorModel::ProxyServerInvalid { config_name, server, source_kind } => {
            "invalid server format "@ + server + " from source config "@ + config_name
                + ", caused by "@ + source_kind
        },
        ConfigErrorModel::ProxyServerIpInvalid { config_name, server } => {
            "invalid server format "@ + server + " from source config "@ + config_name
                + ", caused by an invalid IP address"@
        },
        ConfigErrorModel::Format(FormatKind::Yaml) => "the YAML could not be read or written"@,
        ConfigErrorModel::Format(FormatKind::Structure) => {
            "the text is not a subscription document"@
        },
        ConfigErrorModel::NotSync { subscribe_source_name } => {
            "subscribe source "@ + subscribe_source_name
                + " empty or not sync, please sync first"@
        },
    }
}

impl ConfigError {
    /// The failure in words.
    pub fn message(&self) -> (r: String)
        ensures
            r@ == message_of(self@),
    {
        match self {
            ConfigError::ProxyServerInvalid { config_name, server, source_kind } => {
                let mut out = "invalid server format ".to_owned();
                out.append(server.as_str());
                out.append(" from source config ");
                out.append(config_name.as_str());
                out.append(", caused by ");
                out.append(source_kind.as_str());
                out
            },
            ConfigError::ProxyServerIpInvalid { config_name, server } => {
                let mut out = "invalid server format ".to_owned();
                out.append(server.as_str());
                out.append(" from source config ");
                out.append(config_name.as_str());
                out.append(", caused by an invalid IP address");
                out
            },
            ConfigError::Format(FormatError::Yaml(_)) => "the YAML could not be read or written".to_owned(),
            ConfigError::Format(FormatError::Structure) => {
                "the text is not a subscription document".to_owned()
            },
            ConfigError::NotSync { subscribe_source_name } => {
                let mut out = "subscribe source ".to_owned();
                out.append(subscribe_source_name.as_str());
                out.append(" empty or not sync, please sync first");
                out
            },
        }
    }
}

} // verus!
