//! The PHP version segment: shown in PHP projects as `v<major.minor.patch>`.
use vstd::prelude::*;
use crate::segment::{
    Resolution, Segment, SegmentTable, SegmentView, format_segments, formatted,
    resolution_of, segments_view,
};
use crate::template::ModifierView;

verus! {

/// A named prompt module with the segments it shows.
#[derive(Clone, Debug, PartialEq, Eq)]
pub struct Module {
    pub name: String,
    pub segments: Vec<Segment>,
}

pub open spec fn php_name() -> Seq<char> {
    seq!['p', 'h', 'p']
}

/// The placeholder name that the PHP module answers.
pub open spec fn version_name() -> Seq<char> {
    seq!['v', 'e', 'r', 's', 'i', 'o', 'n']
}

/// A version as displayed: prefixed with `v`.
pub open spec fn displayed_version(version: Seq<char>) -> Seq<char> {
    seq!['v'] + version
}

/// The PHP module's answers: the `version` placeholder shows the displayed
/// version, unstyled; every other name shows nothing.
pub open spec fn php_resolution(displayed: Seq<char>) -> Resolution {
    |n: Seq<char>, q: Seq<ModifierView>|
        if n == version_name() {
            Some(SegmentView { name: version_name(), value: displayed, style: None })
        } else {
            None
        }
}

/// Prefixes a version string with `v`.
pub fn format_php_version(php_version: &str) -> (r: Option<String>)
    ensures
        r is Some,
        r->0@ == displayed_version(php_version@),
{
    let mut formatted_version = String::from_str("v");
    proof {
        reveal_strlit("v");
    }
    formatted_version.append(php_version);
    assert(formatted_version@ =~= displayed_version(php_version@));
    Some(formatted_version)
}

/// The PHP module for a directory, given whether it holds a PHP project, the
/// version the interpreter reported (if it ran), and the user's template.
///
/// There is no module outside a PHP project, without a version, or when the
/// template is malformed.
pub fn module(is_php_project: bool, php_version: Option<String>, format: &str) -> (r: Option<
    Module,
>)
    ensures
        !is_php_project ==> r is None,
        php_version is None ==> r is None,
        is_php_project && php_version is Some ==> match formatted(
            format@,
            None,
            php_resolution(displayed_version(php_version->0@)),
        ) {
            Ok(segs) => r is Some && r->0.name@ == php_name() && segments_view(r->0.segments@)
                == segs,
            Err(_) => r is None,
        },
{
    if !is_php_project {
        return None;
    }
    match php_version {
        Some(version) => {
            let formatted_version = format_php_version(version.as_str())?;
            let name = String::from_str("version");
            proof {
                reveal_strlit("version");
            }
            assert(name@ =~= version_name());
            let table = SegmentTable {
                entries: vec![Segment { name, value: formatted_version, style: None }],
            };
            assert(resolution_of(&table) =~= php_resolution(displayed_version(version@))) by {
                reveal_with_fuel(crate::segment::table_lookup, 2);
            }
            match format_segments(format, None, &table) {
                Ok(segments) => {
                    let module_name = String::from_str("php");
                    proof {
                        reveal_strlit("php");
                    }
                    assert(module_name@ =~= php_name());
                    Some(Module { name: module_name, segments })
                },
                Err(_) => None,
            }
        },
        None => None,
    }
}

} // verus!
