//! Validation of a YAML document against a JSON Schema written in YAML.
use vstd::prelude::*;
use crate::error::MandateError;
use crate::yaml::{YamlNode, load_yaml, value_text, yaml_documents, yaml_value_to_string};

verus! {

/// The schema that manual descriptions follow.
pub const BUILTIN_SCHEMA: &'static str = "type: object
properties:
  manpage_intro:
    type: [string, 'null']
  body:
    type: [string, 'null']
  manpage_epilogue:
    type: [string, 'null']
  sections:
    type: [array, 'null']
    items:
      type: object
      properties:
        title:
          type: [string, 'null']
        body:
          type: [string, 'null']
        entries:
          type: [array, 'null']
          items:
            type: object
            properties:
              title:
                type: [string, 'null']
              body:
                type: [string, 'null']
              examples:
                type: [array, 'null']
                items:
                  type: object
                  properties:
                    program:
                      type: [string, 'null']
                    input:
                      type: [string, 'null']
                    output:
                      type: [array, 'null']
";

#[verifier::external_type_specification]
#[verifier::external_body]
pub struct ExJsonValue(serde_json::Value);

/// Relies on `serde_json::Value::Null`.
#[verifier::external_body]
fn json_null() -> serde_json::Value {
    serde_json::Value::Null
}

/// Relies on `serde_json::Value::Bool`.
#[verifier::external_body]
fn json_bool(b: bool) -> serde_json::Value {
    serde_json::Value::Bool(b)
}

/// Relies on `serde_json::Value::from(i64)`: the integer as a JSON number.
#[verifier::external_body]
fn json_int(i: i64) -> serde_json::Value {
    serde_json::Value::from(i)
}

/// Relies on `str::parse` into a float and `serde_json::Number::from_f64`: the
/// text as a finite JSON number where it parses as one, else as a JSON string.
#[verifier::external_body]
fn json_real(text: &str) -> serde_json::Value {
    text.parse()
        .ok()
        .and_then(serde_json::Number::from_f64)
        .map(serde_json::Value::Number)
        .unwrap_or_else(|| serde_json::Value::String(text.to_owned()))
}

/// Relies on `serde_json::Value::String`.
#[verifier::external_body]
fn json_string(s: String) -> serde_json::Value {
    serde_json::Value::String(s)
}

/// Relies on `serde_json::Value::Array`.
#[verifier::external_body]
fn json_array(items: Vec<serde_json::Value>) -> serde_json::Value {
    serde_json::Value::Array(items)
}

/// Relies on `serde_json::Map`'s `FromIterator`: entries inserted in order, a
/// later key replacing an earlier equal one.
#[verifier::external_body]
fn json_object(entries: Vec<(String, serde_json::Value)>) -> serde_json::Value {
    serde_json::Value::Object(entries.into_iter().collect())
}

/// A JSON value as the schema check reads a YAML document. An object holds
/// its entries in document order.
#[derive(Debug)]
pub enum JsonNode {
    Null,
    Bool(bool),
    Int(i64),
    /// A number written as YAML wrote it; read as a float where it parses as one.
    Real(String),
    Str(String),
    Array(Vec<JsonNode>),
    Object(Vec<(String, JsonNode)>),
}

/// The mathematical value of a [`JsonNode`].
pub enum JsonModel {
    Null,
    Bool(bool),
    Int(i64),
    Real(Seq<char>),
    Str(Seq<char>),
    Array(Seq<JsonModel>),
    Object(Seq<(Seq<char>, JsonModel)>),
}

pub open spec fn json_view(n: JsonNode) -> JsonModel
    decreases n,
{
    match n {
        JsonNode::Null => JsonModel::Null,
        JsonNode::Bool(b) => JsonModel::Bool(b),
        JsonNode::Int(i) => JsonModel::Int(i),
        JsonNode::Real(s) => JsonModel::Real(s@),
        JsonNode::Str(s) => JsonModel::Str(s@),
        JsonNode::Array(v) => JsonModel::Array(
            Seq::new(
                v.len() as nat,
                |k: int|
                    if 0 <= k < v.len() {
                        json_view(v[k])
                    } else {
                        JsonModel::Null
                    },
            ),
        ),
        JsonNode::Object(m) => JsonModel::Object(
            Seq::new(
                m.len() as nat,
                |k: int|
                    if 0 <= k < m.len() {
                        (m[k].0@, json_view(m[k].1))
                    } else {
                        (Seq::empty(), JsonModel::Null)
                    },
            ),
        ),
    }
}

/// A mapping key as a JSON object key: a string as it is, anything else as
/// `yaml_value_to_string` writes it.
pub open spec fn key_text(k: YamlNode) -> Seq<char> {
    match k {
        YamlNode::Str(s) => s@,
        other => value_text(other),
    }
}

/// A YAML node as JSON: scalars as they are, aliases and bad values as the
/// strings `yaml_value_to_string` gives them.
pub open spec fn json_of(y: YamlNode) -> JsonModel
    decreases y,
{
    match y {
        YamlNode::Null => JsonModel::Null,
        YamlNode::Boolean(b) => JsonModel::Bool(b),
        YamlNode::Integer(i) => JsonModel::Int(i),
        YamlNode::Real(s) => JsonModel::Real(s@),
        YamlNode::Str(s) => JsonModel::Str(s@),
        YamlNode::Array(v) => JsonModel::Array(
            Seq::new(
                v.len() as nat,
                |k: int|
                    if 0 <= k < v.len() {
                        json_of(v[k])
                    } else {
                        JsonModel::Null
                    },
            ),
        ),
        YamlNode::Hash(m) => JsonModel::Object(
            Seq::new(
                m.len() as nat,
                |k: int|
                    if 0 <= k < m.len() {
                        (key_text(m[k].0), json_of(m[k].1))
                    } else {
                        (Seq::empty(), JsonModel::Null)
                    },
            ),
        ),
        YamlNode::Alias(_) => JsonModel::Str(value_text(y)),
        YamlNode::BadValue => JsonModel::Str(value_text(y)),
    }
}

/// Whether `jsonschema` compiles `schema` and finds `instance` valid against
/// it, both given to it as the `serde_json` values that [`json_value`] builds.
pub uninterp spec fn schema_accepts(schema: JsonModel, instance: JsonModel) -> bool;

/// A [`JsonNode`] as a `serde_json` value.
fn json_value(n: &JsonNode) -> serde_json::Value
    decreases n, 1nat,
{
    match n {
        JsonNode::Null => json_null(),
        JsonNode::Bool(b) => json_bool(*b),
        JsonNode::Int(i) => json_int(*i),
        JsonNode::Real(s) => json_real(s.as_str()),
        JsonNode::Str(s) => json_string(s.clone()),
        JsonNode::Array(items) => json_array(json_values(items)),
        JsonNode::Object(entries) => json_object(json_members(entries)),
    }
}

fn json_values(items: &Vec<JsonNode>) -> Vec<serde_json::Value>
    decreases items, 0nat,
{
    let mut out: Vec<serde_json::Value> = Vec::new();
    let mut k: usize = 0;
    while k < items.len()
        invariant
            k <= items.len(),
        decreases items.len() - k,
    {
        out.push(json_value(&items[k]));
        k = k + 1;
    }
    out
}

fn json_members(entries: &Vec<(String, JsonNode)>) -> Vec<(String, serde_json::Value)>
    decreases entries, 0nat,
{
    let mut out: Vec<(String, serde_json::Value)> = Vec::new();
    let mut k: usize = 0;
    while k < entries.len()
        invariant
            k <= entries.len(),
        decreases entries.len() - k,
    {
        out.push((entries[k].0.clone(), json_value(&entries[k].1)));
        k = k + 1;
    }
    out
}

/// Relies on `jsonschema::validator_for` and `jsonschema::Validator::validate`
/// (the validator type cannot be declared to Verus, so both stand in one
/// wrapper): `Ok` exactly when the schema compiles and the instance satisfies
/// it, a verdict of the two values alone; else why the schema is invalid or
/// the first violation.
#[verifier::external_body]
fn check_schema(schema: &JsonNode, instance: &JsonNode) -> (r: Result<(), String>)
    ensures
        r is Ok <==> schema_accepts(json_view(*schema), json_view(*instance)),
{
    let schema = json_value(schema);
    let instance = json_value(instance);
    let validator = jsonschema::validator_for(&schema).map_err(|e| e.to_string())?;
    validator.validate(&instance).map_err(|e| e.to_string())
}

/// A YAML node as JSON (see [`json_of`]).
pub fn yaml_to_json(value: &YamlNode) -> (r: JsonNode)
    ensures
        json_view(r) == json_of(*value),
    decreases value, 1nat,
{
    match value {
        YamlNode::Null => JsonNode::Null,
        YamlNode::Boolean(b) => JsonNode::Bool(*b),
        YamlNode::Integer(i) => JsonNode::Int(*i),
        YamlNode::Real(s) => JsonNode::Real(s.clone()),
        YamlNode::Str(s) => JsonNode::Str(s.clone()),
        YamlNode::Array(values) => {
            let items = json_items(values);
            let r = JsonNode::Array(items);
            assert(json_view(r)->Array_0 =~= json_of(*value)->Array_0);
            r
        },
        YamlNode::Hash(entries) => {
            let members = json_entries(entries);
            let r = JsonNode::Object(members);
            assert(json_view(r)->Object_0 =~= json_of(*value)->Object_0);
            r
        },
        YamlNode::Alias(_) => JsonNode::Str(yaml_value_to_string(value)),
        YamlNode::BadValue => JsonNode::Str(yaml_value_to_string(value)),
    }
}

fn json_items(values: &Vec<YamlNode>) -> (r: Vec<JsonNode>)
    ensures
        r.len() == values.len(),
        forall|k: int| 0 <= k < values.len() ==> json_view(#[trigger] r@[k]) == json_of(values@[k]),
    decreases values, 0nat,
{
    let mut items: Vec<JsonNode> = Vec::new();
    let mut k: usize = 0;
    while k < values.len()
        invariant
            k <= values.len(),
            items.len() == k,
            forall|j: int| 0 <= j < k ==> json_view(#[trigger] items@[j]) == json_of(values@[j]),
        decreases values.len() - k,
    {
        items.push(yaml_to_json(&values[k]));
        k = k + 1;
    }
    items
}

fn json_entries(entries: &Vec<(YamlNode, YamlNode)>) -> (r: Vec<(String, JsonNode)>)
    ensures
        r.len() == entries.len(),
        forall|k: int|
            0 <= k < entries.len() ==> (#[trigger] r@[k]).0@ == key_text(entries@[k].0) && json_view(
                r@[k].1,
            ) == json_of(entries@[k].1),
    decreases entries, 0nat,
{
    let mut out: Vec<(String, JsonNode)> = Vec::new();
    let mut k: usize = 0;
    while k < entries.len()
        invariant
            k <= entries.len(),
            out.len() == k,
            forall|j: int|
                0 <= j < k ==> (#[trigger] out@[j]).0@ == key_text(entries@[j].0) && json_view(
                    out@[j].1,
                ) == json_of(entries@[j].1),
        decreases entries.len() - k,
    {
        let key = match &entries[k].0 {
            YamlNode::Str(s) => s.clone(),
            other => yaml_value_to_string(other),
        };
        out.push((key, yaml_to_json(&entries[k].1)));
        k = k + 1;
    }
    out
}

/// Whether a text loads as YAML with at least one document.
pub open spec fn has_document(text: Seq<char>) -> bool {
    yaml_documents(text) matches Ok(docs) && docs.len() > 0
}

/// The first document of a text that has one.
pub open spec fn first_document(text: Seq<char>) -> YamlNode {
    yaml_documents(text)->Ok_0[0]
}

/// Whether the schema's first document, as JSON, accepts the first document
/// of the YAML text, as JSON.
pub open spec fn schema_verdict(yaml: Seq<char>, schema_source: Seq<char>) -> bool {
    schema_accepts(json_of(first_document(schema_source)), json_of(first_document(yaml)))
}

/// Validates the first document of a YAML text against a schema given as YAML
/// text. A document that does not load is a YAML error; a schema that does not
/// load, is invalid, or rejects the document is a schema error.
pub fn validate_yaml_with_schema_str(yaml: &str, schema_source: &str) -> (r: Result<(), MandateError>)
    ensures
        !has_document(yaml@) ==> r matches Err(MandateError::Yaml(_)),
        yaml_documents(yaml@) matches Err(m) ==> r matches Err(MandateError::Yaml(msg)) && msg@ == m,
        has_document(yaml@) && !has_document(schema_source@) ==> r matches Err(
            MandateError::Schema(_),
        ),
        has_document(yaml@) && has_document(schema_source@) ==> ((r is Ok <==> schema_verdict(
            yaml@,
            schema_source@,
        )) && (r is Err ==> r matches Err(MandateError::Schema(_)))),
{
    let docs = match load_yaml(yaml) {
        Ok(docs) => docs,
        Err(msg) => return Err(MandateError::Yaml(msg)),
    };
    if docs.len() == 0 {
        return Err(MandateError::Yaml("empty yaml document".to_owned()));
    }
    let schema_docs = match load_yaml(schema_source) {
        Ok(docs) => docs,
        Err(msg) => return Err(MandateError::Schema(msg)),
    };
    if schema_docs.len() == 0 {
        return Err(MandateError::Schema("empty schema document".to_owned()));
    }
    let schema_json = yaml_to_json(&schema_docs[0]);
    let instance_json = yaml_to_json(&docs[0]);
    match check_schema(&schema_json, &instance_json) {
        Ok(()) => Ok(()),
        Err(msg) => Err(MandateError::Schema(msg)),
    }
}

} // verus!
