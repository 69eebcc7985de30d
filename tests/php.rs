use starship::php::{format_php_version, module};
use starship::segment::{Segment, Style};

fn version_segment(value: &str) -> Segment {
    Segment { name: "version".to_string(), value: value.to_string(), style: None }
}

#[test]
fn test_format_php_version() {
    let input = "7.3.8";
    assert_eq!(format_php_version(input), Some("v7.3.8".to_string()));
}

#[test]
fn format_php_version_of_empty_input_is_the_prefix() {
    assert_eq!(format_php_version(""), Some("v".to_string()));
}

#[test]
fn module_shows_the_version_segment() {
    let m = module(true, Some("7.3.8".to_string()), "${version}").unwrap();
    assert_eq!(m.name, "php");
    assert_eq!(m.segments, vec![version_segment("v7.3.8")]);
}

#[test]
fn module_skips_unknown_placeholders() {
    let m = module(true, Some("7.3.8".to_string()), "${version}${unknown}").unwrap();
    assert_eq!(m.segments.len(), 1);
    assert_eq!(m.segments[0].name, "version");
    assert_eq!(m.segments[0].value, "v7.3.8");
}

#[test]
fn module_takes_the_style_from_the_template() {
    let m = module(true, Some("8.1.0".to_string()), "via ${version:style=bold purple}").unwrap();
    let expected = Segment {
        name: "version".to_string(),
        value: "v8.1.0".to_string(),
        style: Some(Style { descriptor: "bold purple".to_string() }),
    };
    assert_eq!(m.segments, vec![expected]);
}

#[test]
fn module_is_absent_outside_a_php_project() {
    assert_eq!(module(false, Some("7.3.8".to_string()), "${version}"), None);
}

#[test]
fn module_is_absent_without_a_version() {
    assert_eq!(module(true, None, "${version}"), None);
}

#[test]
fn module_is_absent_for_a_malformed_template() {
    assert_eq!(module(true, Some("7.3.8".to_string()), "${version"), None);
}
