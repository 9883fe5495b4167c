//! Reading a settings file and laying it over the settings beneath it.

use crate::json::{
    json_wf, member, merge_json_values, merged, rename_member, renamed, toml_as_json,
    toml_value_to_json, toml_wf, Json, JsonView, Member, Num, Toml, TomlMember, TomlView,
};
use crate::settings::{format_of, Settings, SettingsFormat};
use vstd::prelude::*;

verus! {

/// A value of the `serde_json` crate.
#[verifier::external_type_specification]
#[verifier::external_body]
pub struct ExJsonValue(serde_json::Value);

/// A value of the `toml` crate.
#[verifier::external_type_specification]
#[verifier::external_body]
pub struct ExTomlValue(toml::Value);

/// The value of a JSON text; `None` where the text is no JSON.
pub uninterp spec fn json_document(text: Seq<char>) -> Option<JsonView>;

/// The value of a TOML text; `None` where the text is no TOML.
pub uninterp spec fn toml_document(text: Seq<char>) -> Option<TomlView>;

/// Turns a `serde_json::Value` into a value of this library, part by part.
#[verifier::external_body]
fn from_json_value(value: serde_json::Value) -> Json {
    match value {
        serde_json::Value::Null => Json::Null,
        serde_json::Value::Bool(b) => Json::Bool(b),
        serde_json::Value::Number(n) => Json::Number(from_json_number(&n)),
        serde_json::Value::String(s) => Json::Str(s),
        serde_json::Value::Array(a) => Json::Array(a.into_iter().map(from_json_value).collect()),
        serde_json::Value::Object(o) => Json::Object(
            o.into_iter().map(|(key, v)| Member { key, value: from_json_value(v) }).collect(),
        ),
    }
}

/// A number of the `serde_json` crate.
#[verifier::external_type_specification]
#[verifier::external_body]
pub struct ExJsonNumber(serde_json::Number);

/// Turns a `serde_json::Number` into a number of this library.
#[verifier::external_body]
fn from_json_number(n: &serde_json::Number) -> Num {
    match (n.as_u64(), n.as_i64()) {
        (Some(u), _) => Num::Unsigned(u),
        (None, Some(i)) => Num::Negative(i),
        (None, None) => Num::Float(n.as_f64().unwrap_or_default().to_bits()),
    }
}

/// Turns a `toml::Value` into a value of this library, part by part.
#[verifier::external_body]
fn from_toml_value(value: toml::Value) -> Toml {
    match value {
        toml::Value::String(s) => Toml::Str(s),
        toml::Value::Integer(i) => Toml::Integer(i),
        toml::Value::Float(f) => Toml::Float(f.to_bits()),
        toml::Value::Boolean(b) => Toml::Boolean(b),
        toml::Value::Datetime(d) => Toml::Datetime(d.to_string()),
        toml::Value::Array(a) => Toml::Array(a.into_iter().map(from_toml_value).collect()),
        toml::Value::Table(t) => Toml::Table(
            t.into_iter().map(|(key, v)| TomlMember { key, value: from_toml_value(v) }).collect(),
        ),
    }
}

/// `serde_json::from_str` into a `serde_json::Value`: the value of the text, which the
/// text alone decides, or nothing where the text is no JSON. An object holds a key once.
#[verifier::external_body]
fn parse_json(text: &str) -> (r: Option<Json>)
    ensures
        match r {
            Some(v) => json_document(text@) == Some(v@) && json_wf(v),
            None => json_document(text@) is None,
        },
{
    serde_json::from_str(text).ok().map(from_json_value)
}

/// `toml::from_str` into a `toml::Value`: the value of the text, which the text alone
/// decides, or nothing where the text is no TOML. A table holds a key once.
#[verifier::external_body]
fn parse_toml(text: &str) -> (r: Option<Toml>)
    ensures
        match r {
            Some(v) => toml_document(text@) == Some(v@) && toml_wf(v),
            None => toml_document(text@) is None,
        },
{
    toml::from_str(text).ok().map(from_toml_value)
}

/// The value of a text in a format, as a JSON value; `None` where the text is not in it.
pub open spec fn document(text: Seq<char>, format: SettingsFormat) -> Option<JsonView> {
    match format {
        SettingsFormat::Json => json_document(text),
        SettingsFormat::Toml => match toml_document(text) {
            Some(t) => Some(toml_as_json(t)),
            None => None,
        },
    }
}

/// The value of a text in a format.
pub fn parse_document(text: &str, format: SettingsFormat) -> (r: Option<Json>)
    ensures
        match r {
            Some(v) => document(text@, format) == Some(v@) && json_wf(v),
            None => document(text@, format) is None,
        },
{
    match format {
        SettingsFormat::Json => parse_json(text),
        SettingsFormat::Toml => match parse_toml(text) {
            Some(t) => Some(toml_value_to_json(&t)),
            None => None,
        },
    }
}

/// The message for a settings file that cannot be read.
pub open spec fn parse_failure(path: Seq<char>) -> Seq<char> {
    match format_of(path) {
        SettingsFormat::Json => "Failed to parse JSON settings from "@ + path,
        SettingsFormat::Toml => "Failed to parse TOML settings from "@ + path,
    }
}

/// What a settings file holds under the keys of the settings: the time that a question
/// waits for its answer also goes by its former key.
pub open spec fn with_known_keys(file: JsonView) -> JsonView {
    renamed(file, "questionnaire_timeout_secs"@, "ask_timeout_secs"@)
}

/// A file that names the time of a question by its former key sets it, whatever the
/// settings beneath say.
pub proof fn lemma_former_key_sets(
    base: Map<Seq<char>, JsonView>,
    file: Map<Seq<char>, JsonView>,
)
    requires
        file.contains_key("questionnaire_timeout_secs"@),
        !file.contains_key("ask_timeout_secs"@),
        !(file["questionnaire_timeout_secs"@] is Object),
    ensures
        member(
            merged(JsonView::Object(base), with_known_keys(JsonView::Object(file))),
            "ask_timeout_secs"@,
        ) == Some(file["questionnaire_timeout_secs"@]),
        !base.contains_key("questionnaire_timeout_secs"@) ==> member(
            merged(JsonView::Object(base), with_known_keys(JsonView::Object(file))),
            "questionnaire_timeout_secs"@,
        ) is None,
{
    reveal_strlit("questionnaire_timeout_secs");
    reveal_strlit("ask_timeout_secs");
    assert("questionnaire_timeout_secs"@.len() != "ask_timeout_secs"@.len());
    let value = file["questionnaire_timeout_secs"@];
    assert(merged(base["ask_timeout_secs"@], value) == value);
}

/// What a file's value comes to over the settings beneath it, or the message where the
/// file has none.
pub fn lay_over(base: Json, overlay: Option<Json>, path: &str) -> (r: Result<Json, String>)
    requires
        json_wf(base),
        overlay is Some ==> json_wf(overlay->0),
    ensures
        match r {
            Ok(v) => overlay is Some && v@ == merged(base@, with_known_keys(overlay->0@))
                && json_wf(v),
            Err(e) => overlay is None && e@ == parse_failure(path@),
        },
{
    match overlay {
        Some(v) => {
            let file = rename_member(v, "questionnaire_timeout_secs", "ask_timeout_secs");
            Ok(merge_json_values(base, file))
        },
        None => {
            let mut message = match Settings::detect_format(path) {
                SettingsFormat::Json => "Failed to parse JSON settings from ".to_owned(),
                SettingsFormat::Toml => "Failed to parse TOML settings from ".to_owned(),
            };
            message.append(path);
            Err(message)
        },
    }
}

/// Reads a settings file in the format of its name, and lays it over the settings
/// beneath it.
pub fn layer_file(base: Json, content: &str, path: &str) -> (r: Result<Json, String>)
    requires
        json_wf(base),
    ensures
        match r {
            Ok(v) => document(content@, format_of(path@)) is Some && v@ == merged(
                base@,
                with_known_keys(document(content@, format_of(path@))->0),
            ) && json_wf(v),
            Err(e) => document(content@, format_of(path@)) is None && e@ == parse_failure(path@),
        },
{
    let format = Settings::detect_format(path);
    let overlay = parse_document(content, format);
    lay_over(base, overlay, path)
}

/// A settings file is laid over what lies beneath by the format of its name; one that is not
/// in that format is refused with its path.
pub proof fn lemma_document_by_format(text: Seq<char>, path: Seq<char>)
    ensures
        document(text, SettingsFormat::Json) == json_document(text),
        toml_document(text) is None ==> document(text, SettingsFormat::Toml) is None,
        toml_document(text) is Some ==> document(text, SettingsFormat::Toml) == Some(
            toml_as_json(toml_document(text)->0),
        ),
        format_of(path) == SettingsFormat::Json ==> parse_failure(path)
            == "Failed to parse JSON settings from "@ + path,
        format_of(path) == SettingsFormat::Toml ==> parse_failure(path)
            == "Failed to parse TOML settings from "@ + path,
{
}

} // verus!
