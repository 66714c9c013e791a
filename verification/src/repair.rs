//! Orchestration and validation gate.
//!
//! A strict external parser serves as a pass/fail oracle.  Text the
//! oracle already accepts is returned untouched; rejected text runs
//! through the indentation normalizer and then the duplicate-key
//! filter, and the result is validated once more.  When that second
//! validation also fails, the error wraps the post-repair diagnostic.

use vstd::prelude::*;
use vstd::string::StringExecFns;
use crate::normalize::{normalize_spec, fix_yaml_indentation};
use crate::dedupe::{dedupe_spec, remove_duplicate_keys};

verus! {

/// The strict parser's verdict on a text: acceptance, or the
/// diagnostic it reports.  Whether a text parses, and with which
/// message it is rejected, is a function of the text alone.
pub uninterp spec fn oracle_verdict(s: Seq<char>) -> Result<(), Seq<char>>;

/// Whether the strict parser accepts the text.
pub open spec fn oracle_accepts(s: Seq<char>) -> bool {
    oracle_verdict(s) is Ok
}

/// Relies on `serde_yaml::from_str::<serde_yaml::Value>`: the call
/// reads nothing but the text, so its verdict depends on the text
/// alone; a rejection's `Display` form is the parser's diagnostic.
#[verifier::external_body]
fn oracle_parse(text: &str) -> (r: Result<(), String>)
    ensures
        r is Ok <==> oracle_accepts(text@),
        r is Err ==> r->Err_0@ == oracle_verdict(text@)->Err_0,
{
    match serde_yaml::from_str::<serde_yaml::Value>(text) {
        Ok(_) => Ok(()),
        Err(e) => Err(e.to_string()),
    }
}

/// The repair pipeline's rewrite of a rejected text: indentation
/// normalization, then duplicate-key filtering.
pub open spec fn repaired_spec(s: Seq<char>) -> Seq<char> {
    dedupe_spec(normalize_spec(s))
}

/// The message of the error returned when the repaired text is still
/// rejected: it wraps the post-repair diagnostic.
pub open spec fn repair_error_message(diag: Seq<char>) -> Seq<char> {
    "Failed to fix YAML: "@ + diag
}

/// The error of an unrecoverable parse failure: the oracle rejected
/// both the raw and the repaired text.
#[derive(Debug)]
pub struct RepairError {
    pub message: String,
}

/// Validates the text against the strict parser and, on rejection,
/// repairs it with the two passes and validates once more.  Text that
/// already parses is returned unchanged; a text whose repaired form
/// parses is returned repaired; otherwise the error wraps the
/// post-repair diagnostic.
pub fn validate_and_fix_yaml(yaml_content: &str) -> (r: Result<String, RepairError>)
    ensures
        oracle_accepts(yaml_content@) ==> r is Ok && r->Ok_0@ == yaml_content@,
        !oracle_accepts(yaml_content@) && oracle_accepts(repaired_spec(yaml_content@)) ==> r is Ok
            && r->Ok_0@ == repaired_spec(yaml_content@),
        !oracle_accepts(yaml_content@) && !oracle_accepts(repaired_spec(yaml_content@)) ==> r is Err
            && r->Err_0.message@ == repair_error_message(
            oracle_verdict(repaired_spec(yaml_content@))->Err_0,
        ),
        r is Ok ==> oracle_accepts(r->Ok_0@),
{
    match oracle_parse(yaml_content) {
        Ok(_) => Ok(String::from_str(yaml_content)),
        Err(_) => {
            let normalized = fix_yaml_indentation(yaml_content);
            let fixed = remove_duplicate_keys(normalized.as_str());
            match oracle_parse(fixed.as_str()) {
                Ok(_) => Ok(fixed),
                Err(msg) => Err(
                    RepairError {
                        message: String::from_str("Failed to fix YAML: ").concat(msg.as_str()),
                    },
                ),
            }
        },
    }
}

} // verus!
