//! The short-form intrinsic tags of the line-oriented template dialect, and
//! source positions in a template's text.

use crate::text::str_eq;
use vstd::prelude::*;

verus! {

/// The long name of a short-form tag, for the tags the dialect knows.
pub open spec fn long_form(tag: Seq<char>) -> Option<Seq<char>> {
    if tag == "Ref"@ {
        Some("Ref"@)
    } else if tag == "GetAtt"@ {
        Some("Fn::GetAtt"@)
    } else if tag == "Base64"@ {
        Some("Fn::Base64"@)
    } else if tag == "Sub"@ {
        Some("Fn::Sub"@)
    } else if tag == "GetAZs"@ {
        Some("Fn::GetAZs"@)
    } else if tag == "ImportValue"@ {
        Some("Fn::ImportValue"@)
    } else if tag == "Condition"@ {
        Some("Condition"@)
    } else if tag == "RefAll"@ {
        Some("Fn::RefAll"@)
    } else if tag == "Select"@ {
        Some("Fn::Select"@)
    } else if tag == "Split"@ {
        Some("Fn::Split"@)
    } else if tag == "Join"@ {
        Some("Fn::Join"@)
    } else if tag == "FindInMap"@ {
        Some("Fn::FindInMap"@)
    } else if tag == "And"@ {
        Some("Fn::And"@)
    } else if tag == "Equals"@ {
        Some("Fn::Equals"@)
    } else if tag == "Contains"@ {
        Some("Fn::Contains"@)
    } else if tag == "EachMemberIn"@ {
        Some("Fn::EachMemberIn"@)
    } else if tag == "EachMemberEquals"@ {
        Some("Fn::EachMemberEquals"@)
    } else if tag == "ValueOf"@ {
        Some("Fn::ValueOf"@)
    } else if tag == "If"@ {
        Some("Fn::If"@)
    } else if tag == "Not"@ {
        Some("Fn::Not"@)
    } else if tag == "Or"@ {
        Some("Fn::Or"@)
    } else {
        None
    }
}

/// The long name of a short-form tag, or `None` for a tag the dialect does
/// not know.
pub fn lookup_long_form(tag: &str) -> (r: Option<&'static str>)
    ensures
        match r {
            Some(l) => long_form(tag@) == Some(l@),
            None => long_form(tag@) is None,
        },
{
    if str_eq(tag, "Ref") {
        Some("Ref")
    } else if str_eq(tag, "GetAtt") {
        Some("Fn::GetAtt")
    } else if str_eq(tag, "Base64") {
        Some("Fn::Base64")
    } else if str_eq(tag, "Sub") {
        Some("Fn::Sub")
    } else if str_eq(tag, "GetAZs") {
        Some("Fn::GetAZs")
    } else if str_eq(tag, "ImportValue") {
        Some("Fn::ImportValue")
    } else if str_eq(tag, "Condition") {
        Some("Condition")
    } else if str_eq(tag, "RefAll") {
        Some("Fn::RefAll")
    } else if str_eq(tag, "Select") {
        Some("Fn::Select")
    } else if str_eq(tag, "Split") {
        Some("Fn::Split")
    } else if str_eq(tag, "Join") {
        Some("Fn::Join")
    } else if str_eq(tag, "FindInMap") {
        Some("Fn::FindInMap")
    } else if str_eq(tag, "And") {
        Some("Fn::And")
    } else if str_eq(tag, "Equals") {
        Some("Fn::Equals")
    } else if str_eq(tag, "Contains") {
        Some("Fn::Contains")
    } else if str_eq(tag, "EachMemberIn") {
        Some("Fn::EachMemberIn")
    } else if str_eq(tag, "EachMemberEquals") {
        Some("Fn::EachMemberEquals")
    } else if str_eq(tag, "ValueOf") {
        Some("Fn::ValueOf")
    } else if str_eq(tag, "If") {
        Some("Fn::If")
    } else if str_eq(tag, "Not") {
        Some("Fn::Not")
    } else if str_eq(tag, "Or") {
        Some("Fn::Or")
    } else {
        None
    }
}

/// The long name of a short-form tag that the dialect knows.
pub fn short_form_to_long(fn_ref: &str) -> (r: &'static str)
    requires
        long_form(fn_ref@) is Some,
    ensures
        Some(r@) == long_form(fn_ref@),
{
    match lookup_long_form(fn_ref) {
        Some(l) => l,
        None => "",
    }
}

/// The tags that take a single value.
pub open spec fn single_value_tag(tag: Seq<char>) -> bool {
    tag == "Ref"@ || tag == "Base64"@ || tag == "Sub"@ || tag == "GetAZs"@ || tag
        == "ImportValue"@ || tag == "GetAtt"@ || tag == "Condition"@ || tag == "RefAll"@
}

/// The tags that take a sequence.
pub open spec fn sequence_value_tag(tag: Seq<char>) -> bool {
    tag == "GetAtt"@ || tag == "Sub"@ || tag == "Select"@ || tag == "Split"@ || tag == "Join"@
        || tag == "FindInMap"@ || tag == "And"@ || tag == "Equals"@ || tag == "Contains"@ || tag
        == "EachMemberIn"@ || tag == "EachMemberEquals"@ || tag == "ValueOf"@ || tag == "If"@
        || tag == "Not"@ || tag == "Or"@
}

pub fn is_single_value_tag(tag: &str) -> (r: bool)
    ensures
        r == single_value_tag(tag@),
{
    str_eq(tag, "Ref") || str_eq(tag, "Base64") || str_eq(tag, "Sub") || str_eq(tag, "GetAZs")
        || str_eq(tag, "ImportValue") || str_eq(tag, "GetAtt") || str_eq(tag, "Condition")
        || str_eq(tag, "RefAll")
}

pub fn is_sequence_value_tag(tag: &str) -> (r: bool)
    ensures
        r == sequence_value_tag(tag@),
{
    str_eq(tag, "GetAtt") || str_eq(tag, "Sub") || str_eq(tag, "Select") || str_eq(tag, "Split")
        || str_eq(tag, "Join") || str_eq(tag, "FindInMap") || str_eq(tag, "And") || str_eq(
        tag,
        "Equals",
    ) || str_eq(tag, "Contains") || str_eq(tag, "EachMemberIn") || str_eq(tag, "EachMemberEquals")
        || str_eq(tag, "ValueOf") || str_eq(tag, "If") || str_eq(tag, "Not") || str_eq(tag, "Or")
}

/// A position in a template's text.
#[derive(Debug, Clone, Copy, PartialEq, Eq, Structural, Hash)]
pub struct Location {
    pub line: usize,
    pub col: usize,
}

impl Location {
    pub fn new(line: usize, col: usize) -> (r: Location)
        ensures
            r.line == line,
            r.col == col,
    {
        Location { line, col }
    }
}

} // verus!
