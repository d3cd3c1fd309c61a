//! The `terracotta.toml` configuration file.

use vstd::prelude::*;
use vstd::string::StringExecFns;

use super::{ServerConfig, ServerConfigView};

verus! {

#[verifier::external_type_specification]
#[verifier::external_body]
#[verifier::reject_recursive_types(K)]
#[verifier::reject_recursive_types(V)]
pub struct ExTomlMap<K, V>(toml::map::Map<K, V>);

#[verifier::external_type_specification]
#[verifier::external_body]
pub struct ExTomlValue(toml::Value);

#[verifier::external_type_specification]
#[verifier::external_body]
pub struct ExTomlError(toml::de::Error);

/// What a TOML value offers the server: the integer it holds, if it is one,
/// and the value written out as TOML.
pub struct TomlField {
    pub integer: Option<i64>,
    pub text: String,
}

/// A TOML field, as plain values.
pub struct TomlFieldView {
    pub integer: Option<i64>,
    pub text: Seq<char>,
}

impl View for TomlField {
    type V = TomlFieldView;

    open spec fn view(&self) -> TomlFieldView {
        TomlFieldView { integer: self.integer, text: self.text@ }
    }
}

/// The top-level table that the `toml` crate reads from `text`, key by key,
/// or `None` where `text` is not a TOML document.
pub uninterp spec fn toml_document(text: Seq<char>) -> Option<Map<Seq<char>, TomlFieldView>>;

/// The entries of a table of the `toml` crate, key by key.
pub uninterp spec fn toml_table_entries(table: toml::Table) -> Map<Seq<char>, TomlFieldView>;

/// Calls `toml::from_str` for a table. The document is parsed exactly when
/// the crate reads `text` as TOML, and the table then holds what the crate
/// read. What the crate reads from a given text is not stated here.
#[verifier::external_body]
fn parse_toml_table(text: &str) -> (r: Result<toml::Table, toml::de::Error>)
    ensures
        r is Ok <==> toml_document(text@) is Some,
        r matches Ok(table) ==> toml_table_entries(table) == toml_document(text@).unwrap(),
{
    toml::from_str::<toml::Table>(text)
}

/// Calls `toml::map::Map::get` for `key`, and on the value found
/// `toml::Value::as_integer` and `to_string`: a field exactly when the
/// table has the key, and then the one that the table holds there.
#[verifier::external_body]
fn toml_table_field(table: &toml::Table, key: &str) -> (r: Option<TomlField>)
    ensures
        r is Some <==> toml_table_entries(*table).contains_key(key@),
        r matches Some(field) ==> field@ == toml_table_entries(*table)[key@],
{
    match table.get(key) {
        Some(value) => Some(TomlField { integer: value.as_integer(), text: value.to_string() }),
        None => None,
    }
}

/// A field, as plain values.
pub open spec fn field_view(field: Option<TomlField>) -> Option<TomlFieldView> {
    match field {
        Some(f) => Some(f@),
        None => None,
    }
}

/// The field of the document under `key`, if it has one.
pub open spec fn field_of(document: Map<Seq<char>, TomlFieldView>, key: Seq<char>) -> Option<TomlFieldView> {
    if document.contains_key(key) {
        Some(document[key])
    } else {
        None
    }
}

/// The settings that the fields of a `terracotta.toml` document give:
/// `max_players` and `server_port` are integers, cut to 32 and 16 bits;
/// `motd` and `server_address` are the values written as TOML (a string
/// in its quotes); a field that is missing keeps its default (20 players,
/// "A Minecraft server", 127.0.0.1, port 25565).
pub open spec fn server_config_from_fields(
    max_players: Option<TomlFieldView>,
    motd: Option<TomlFieldView>,
    server_address: Option<TomlFieldView>,
    server_port: Option<TomlFieldView>,
) -> ServerConfigView {
    ServerConfigView {
        max_players: match max_players {
            Some(f) => f.integer.unwrap() as u32,
            None => 20,
        },
        motd: match motd {
            Some(f) => f.text,
            None => "A Minecraft server"@,
        },
        server_address: match server_address {
            Some(f) => f.text,
            None => "127.0.0.1"@,
        },
        server_port: match server_port {
            Some(f) => f.integer.unwrap() as u16,
            None => 25565,
        },
    }
}

/// A field that must hold an integer does, or is missing.
pub open spec fn integer_or_missing(field: Option<TomlFieldView>) -> bool {
    field matches Some(f) ==> f.integer is Some
}

/// Builds the settings from the fields of a `terracotta.toml` document.
pub fn server_config_from_toml_fields(
    max_players: Option<TomlField>,
    motd: Option<TomlField>,
    server_address: Option<TomlField>,
    server_port: Option<TomlField>,
) -> (config: ServerConfig)
    requires
        integer_or_missing(field_view(max_players)),
        integer_or_missing(field_view(server_port)),
    ensures
        config@ == server_config_from_fields(
            field_view(max_players),
            field_view(motd),
            field_view(server_address),
            field_view(server_port),
        ),
{
    let mut config = ServerConfig::default();
    match max_players {
        Some(field) => {
            config.max_players = #[verifier::truncate] (field.integer.unwrap() as u32);
        },
        None => {
            config.max_players = 20;
        },
    }
    match motd {
        Some(field) => {
            config.motd = field.text;
        },
        None => {
            config.motd = String::from_str("A Minecraft server");
        },
    }
    match server_address {
        Some(field) => {
            config.server_address = field.text;
        },
        None => {
            config.server_address = String::from_str("127.0.0.1");
        },
    }
    match server_port {
        Some(field) => {
            config.server_port = #[verifier::truncate] (field.integer.unwrap() as u16);
        },
        None => {
            config.server_port = 25565;
        },
    }
    config
}

/// Why a configuration file could not be read.
#[derive(Debug, PartialEq, Eq, Structural)]
pub enum ConfigError {
    /// The file is not a TOML document.
    InvalidToml,
    /// `max_players` or `server_port` is there but not an integer.
    NotAnInteger,
}

/// The settings that the text of a `terracotta.toml` file gives, or why it
/// gives none.
pub open spec fn toml_config(text: Seq<char>) -> Result<ServerConfigView, ConfigError> {
    match toml_document(text) {
        None => Err(ConfigError::InvalidToml),
        Some(document) => {
            let max_players = field_of(document, "max_players"@);
            let server_port = field_of(document, "server_port"@);
            if integer_or_missing(max_players) && integer_or_missing(server_port) {
                Ok(
                    server_config_from_fields(
                        max_players,
                        field_of(document, "motd"@),
                        field_of(document, "server_address"@),
                        server_port,
                    ),
                )
            } else {
                Err(ConfigError::NotAnInteger)
            }
        },
    }
}

/// Reads the text of a `terracotta.toml` file.
pub fn config_from_toml(text: &str) -> (r: Result<ServerConfig, ConfigError>)
    ensures
        match toml_config(text@) {
            Ok(view) => r matches Ok(config) && config@ == view,
            Err(e) => r matches Err(f) && f == e,
        },
{
    let table = match parse_toml_table(text) {
        Ok(table) => table,
        Err(_) => {
            return Err(ConfigError::InvalidToml);
        },
    };
    let max_players = toml_table_field(&table, "max_players");
    let motd = toml_table_field(&table, "motd");
    let server_address = toml_table_field(&table, "server_address");
    let server_port = toml_table_field(&table, "server_port");
    let max_players_ok = match &max_players {
        Some(field) => field.integer.is_some(),
        None => true,
    };
    let server_port_ok = match &server_port {
        Some(field) => field.integer.is_some(),
        None => true,
    };
    if !max_players_ok || !server_port_ok {
        return Err(ConfigError::NotAnInteger);
    }
    proof {
        let document = toml_document(text@).unwrap();
        assert(field_view(max_players) == field_of(document, "max_players"@));
        assert(field_view(motd) == field_of(document, "motd"@));
        assert(field_view(server_address) == field_of(document, "server_address"@));
        assert(field_view(server_port) == field_of(document, "server_port"@));
    }
    Ok(server_config_from_toml_fields(max_players, motd, server_address, server_port))
}

} // verus!
