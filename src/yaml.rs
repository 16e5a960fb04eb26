//! The YAML side of rule loading: reading a document, and finding the rule
//! records inside its `{ rules: [...] }` envelope.
use serde_yaml::Value;
use vstd::prelude::*;

verus! {

#[verifier::external_type_specification]
#[verifier::external_body]
pub struct ExValue(serde_yaml::Value);

#[verifier::external_type_specification]
#[verifier::external_body]
pub struct ExYamlError(serde_yaml::Error);

/// The document that a byte buffer holds, if it is well-formed YAML.
pub uninterp spec fn yaml_document_of(bytes: Seq<u8>) -> Option<Value>;

/// Whether a YAML value is a mapping.
pub uninterp spec fn is_yaml_mapping(v: Value) -> bool;

/// The value stored under the string key `rules`, if `v` is a mapping that has one.
pub uninterp spec fn rules_entry_of(v: Value) -> Option<Value>;

/// The elements of a YAML value, if it is a sequence.
pub uninterp spec fn sequence_items_of(v: Value) -> Option<Seq<Value>>;

/// Relies on `serde_yaml::from_slice::<Value>`: it reads one YAML document, and
/// what it yields, or whether it fails, depends on the bytes alone.
#[verifier::external_body]
fn read_yaml(bytes: &[u8]) -> (r: Result<Value, serde_yaml::Error>)
    ensures
        r is Ok <==> yaml_document_of(bytes@) is Some,
        r is Ok ==> yaml_document_of(bytes@) == Some(r->Ok_0),
{
    serde_yaml::from_slice::<Value>(bytes)
}

/// Relies on the derived `Clone` of `serde_yaml::Value`: a clone is an equal value.
pub assume_specification[ <serde_yaml::Value as Clone>::clone ](v: &serde_yaml::Value) -> (r:
    serde_yaml::Value)
    ensures
        r == *v,
;

/// Relies on the `Display` impl of `serde_yaml::Error`, for a readable message.
#[verifier::external_body]
fn yaml_error_message(e: &serde_yaml::Error) -> (r: String) {
    format!("{}", e)
}

/// Relies on `serde_yaml::Value::is_mapping`.
#[verifier::external_body]
fn value_is_mapping(v: &Value) -> (r: bool)
    ensures
        r == is_yaml_mapping(*v),
{
    v.is_mapping()
}

/// Relies on `serde_yaml::Value::get` with a `&str` index: the entry under that
/// string key of a mapping, and `None` for a value that is no mapping.
#[verifier::external_body]
fn value_rules_entry(v: &Value) -> (r: Option<&Value>)
    ensures
        r is Some <==> rules_entry_of(*v) is Some,
        r is Some ==> rules_entry_of(*v) == Some(*r->0),
        !is_yaml_mapping(*v) ==> r is None,
{
    v.get("rules")
}

/// Relies on `serde_yaml::Value::as_sequence`: the elements of a sequence, in order.
#[verifier::external_body]
fn value_sequence_items(v: &Value) -> (r: Option<&Vec<Value>>)
    ensures
        r is Some <==> sequence_items_of(*v) is Some,
        r is Some ==> sequence_items_of(*v) == Some(r->0@),
{
    v.as_sequence()
}

/// Why a buffer did not hold a rules document.
pub enum ParseProblem {
    /// The bytes are not well-formed YAML.
    Syntax { message: String },
    /// The document's root is not a mapping.
    NotAMapping,
    /// The root mapping has no `rules` entry.
    MissingRules,
    /// The `rules` entry is not a sequence.
    RulesNotASequence,
}

/// The rule records of a parsed document: the elements of the sequence under
/// `rules` in a root mapping.
pub open spec fn envelope_rules(doc: Value) -> Option<Seq<Value>> {
    if !is_yaml_mapping(doc) {
        None
    } else {
        match rules_entry_of(doc) {
            Some(entry) => sequence_items_of(entry),
            None => None,
        }
    }
}

/// The rule records that a buffer holds, if it is a rules document.
pub open spec fn document_rules(bytes: Seq<u8>) -> Option<Seq<Value>> {
    match yaml_document_of(bytes) {
        Some(doc) => envelope_rules(doc),
        None => None,
    }
}

/// Whether `p` is the problem that makes `bytes` fail to be a rules document.
pub open spec fn is_problem_of(bytes: Seq<u8>, p: ParseProblem) -> bool {
    match yaml_document_of(bytes) {
        None => p is Syntax,
        Some(doc) => if !is_yaml_mapping(doc) {
            p is NotAMapping
        } else {
            match rules_entry_of(doc) {
                None => p is MissingRules,
                Some(entry) => sequence_items_of(entry) is None && p is RulesNotASequence,
            }
        },
    }
}

/// Reads the rule records out of a buffer that holds a `{ rules: [...] }` document.
pub fn parse_rules_document(bytes: &[u8]) -> (r: Result<Vec<Value>, ParseProblem>)
    ensures
        r is Ok <==> document_rules(bytes@) is Some,
        r is Ok ==> document_rules(bytes@) == Some(r->Ok_0@),
        r is Err ==> is_problem_of(bytes@, r->Err_0),
{
    let doc = match read_yaml(bytes) {
        Ok(doc) => doc,
        Err(e) => {
            return Err(ParseProblem::Syntax { message: yaml_error_message(&e) });
        },
    };
    if !value_is_mapping(&doc) {
        return Err(ParseProblem::NotAMapping);
    }
    let entry = match value_rules_entry(&doc) {
        Some(entry) => entry,
        None => {
            return Err(ParseProblem::MissingRules);
        },
    };
    match value_sequence_items(entry) {
        Some(items) => {
            let copy = items.clone();
            assert(copy@ =~= items@);
            Ok(copy)
        },
        None => Err(ParseProblem::RulesNotASequence),
    }
}

} // verus!
