//! The options of a copy into a table.

use vstd::prelude::*;

verus! {

/// What a copy does with rows that fail validation.
#[derive(PartialEq, Eq, Clone, Debug)]
pub enum ValidationMode {
    /// Copy; do not validate only.
    NoValidation,
    /// Validate and return the first rows.
    ReturnNRows(u64),
    /// Validate and return the errors.
    ReturnErrors,
    /// Validate and return the errors of earlier copies too.
    ReturnAllErrors,
}

/// How a copy writes into its table.
#[derive(Clone, Copy, Eq, PartialEq, Debug)]
pub enum CopyIntoTableMode {
    Insert { overwrite: bool },
    Replace,
    Copy,
}

impl CopyIntoTableMode {
    /// Whether the copy replaces what the table held: only an insert that
    /// asks for it does.
    pub fn is_overwrite(&self) -> (overwrite: bool)
        ensures
            overwrite == (*self matches CopyIntoTableMode::Insert { overwrite: o } && o),
    {
        match self {
            CopyIntoTableMode::Insert { overwrite } => *overwrite,
            CopyIntoTableMode::Replace => false,
            CopyIntoTableMode::Copy => false,
        }
    }
}

/// `s` in upper case, as `str::to_uppercase` yields it.
pub uninterp spec fn spec_to_uppercase(s: Seq<char>) -> Seq<char>;

/// `s` with every match of `from` replaced by `to`, as `str::replace`
/// yields it.
pub uninterp spec fn spec_replace(s: Seq<char>, from: Seq<char>, to: Seq<char>) -> Seq<char>;

/// The number that `s` spells, as `str::parse::<u64>` reads it; `None` if it
/// does not read as one.
pub uninterp spec fn spec_parse_u64(s: Seq<char>) -> Option<u64>;

/// The debug form of the text `v`, as `format!` writes it for `{:?}`: the
/// text between double quotes, with its special characters escaped.
pub uninterp spec fn spec_debug_form(v: Seq<char>) -> Seq<char>;

/// The message for the mode text `v` that was not understood.
pub open spec fn spec_unknown_mode_message(v: Seq<char>) -> Seq<char> {
    "Unknown validation mode:"@ + spec_debug_form(v)
        + ", must one of { RETURN_<n>_ROWS | RETURN_ERRORS | RETURN_ALL_ERRORS}"@
}

/// `s` in upper case.
///
/// This is `str::to_uppercase` of the standard library; the contract only
/// names its result.
#[verifier::external_body]
fn to_uppercase(s: &str) -> (upper: String)
    ensures
        upper@ == spec_to_uppercase(s@),
{
    s.to_uppercase()
}

/// `s` with every match of `from` replaced by `to`.
///
/// This is `str::replace` of the standard library; the contract only names
/// its result.
#[verifier::external_body]
fn replace(s: &str, from: &str, to: &str) -> (replaced: String)
    ensures
        replaced@ == spec_replace(s@, from@, to@),
{
    s.replace(from, to)
}

/// The number that `s` spells, if it spells one.
///
/// This is `str::parse::<u64>` of the standard library, with its error
/// dropped; the contract only names its result.
#[verifier::external_body]
fn parse_u64(s: &str) -> (number: Option<u64>)
    ensures
        number == spec_parse_u64(s@),
{
    s.parse::<u64>().ok()
}

/// The debug form of the text `v`.
///
/// This is `format!` of the standard library with `{:?}` on a string; the
/// contract only names its result.
#[verifier::external_body]
fn debug_form(v: &str) -> (text: String)
    ensures
        text@ == spec_debug_form(v@),
{
    format!("{v:?}")
}

/// The message for the mode text `v` that was not understood.
fn unknown_mode_message(v: &str) -> (msg: String)
    ensures
        msg@ == spec_unknown_mode_message(v@),
{
    let mut msg = "Unknown validation mode:".to_string();
    let quoted = debug_form(v);
    msg.append(quoted.as_str());
    msg.append(", must one of { RETURN_<n>_ROWS | RETURN_ERRORS | RETURN_ALL_ERRORS}");
    msg
}

/// The mode that the upper-case text `upper` names, given the number
/// `rows` that is left of it once `RETURN_` and `_ROWS` are taken out.
pub open spec fn spec_mode_of(upper: Seq<char>, rows: Option<u64>) -> Option<ValidationMode> {
    if upper == ""@ {
        Some(ValidationMode::NoValidation)
    } else if upper == "RETURN_ERRORS"@ {
        Some(ValidationMode::ReturnErrors)
    } else if upper == "RETURN_ALL_ERRORS"@ {
        Some(ValidationMode::ReturnAllErrors)
    } else {
        match rows {
            Some(n) => Some(ValidationMode::ReturnNRows(n)),
            None => None,
        }
    }
}

/// The number text of a mode: the mode text without `RETURN_` and `_ROWS`.
pub open spec fn spec_rows_text(upper: Seq<char>) -> Seq<char> {
    spec_replace(spec_replace(upper, "RETURN_"@, ""@), "_ROWS"@, ""@)
}

impl ValidationMode {
    /// The mode that the upper-case text `upper` names, given the number
    /// `rows` read from it: the empty text is `NoValidation`, the two error modes go
    /// by their names, and any other text is a row count if `rows` is one.
    pub fn from_parts(upper: &String, rows: Option<u64>) -> (mode: Option<ValidationMode>)
        ensures
            mode == spec_mode_of(upper@, rows),
    {
        if *upper == "".to_string() {
            Some(ValidationMode::NoValidation)
        } else if *upper == "RETURN_ERRORS".to_string() {
            Some(ValidationMode::ReturnErrors)
        } else if *upper == "RETURN_ALL_ERRORS".to_string() {
            Some(ValidationMode::ReturnAllErrors)
        } else {
            match rows {
                Some(n) => Some(ValidationMode::ReturnNRows(n)),
                None => None,
            }
        }
    }

    /// Reads a validation mode, whatever the case of its letters:
    /// `RETURN_<n>_ROWS`, `RETURN_ERRORS`, `RETURN_ALL_ERRORS`, or nothing
    /// for no validation. Any other text is refused with a message that
    /// quotes it.
    pub fn from_str(s: &str) -> (res: Result<ValidationMode, String>)
        ensures
            match spec_mode_of(
                spec_to_uppercase(s@),
                spec_parse_u64(spec_rows_text(spec_to_uppercase(s@))),
            ) {
                Some(mode) => res == Ok::<ValidationMode, String>(mode),
                None => res matches Err(msg) && msg@ == spec_unknown_mode_message(
                    spec_to_uppercase(s@),
                ),
            },
    {
        let upper = to_uppercase(s);
        let without_prefix = replace(upper.as_str(), "RETURN_", "");
        let rows_str = replace(without_prefix.as_str(), "_ROWS", "");
        let rows = parse_u64(rows_str.as_str());
        match Self::from_parts(&upper, rows) {
            Some(mode) => Ok(mode),
            None => Err(unknown_mode_message(upper.as_str())),
        }
    }
}

} // verus!
