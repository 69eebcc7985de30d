use starship::segment::{format_segments, style_from_query, Segment, SegmentTable, Style};
use starship::template::{parse_template, FormatError, Modifier, Placeholder, Query};

fn seg(name: &str, value: &str, style: Option<&str>) -> Segment {
    Segment {
        name: name.to_string(),
        value: value.to_string(),
        style: style.map(|s| Style { descriptor: s.to_string() }),
    }
}

fn style(s: &str) -> Option<Style> {
    Some(Style { descriptor: s.to_string() })
}

fn table(entries: Vec<Segment>) -> SegmentTable {
    SegmentTable { entries }
}

#[test]
fn single_placeholder_gives_its_value() {
    let t = table(vec![seg("version", "v7.3.8", None)]);
    let out = format_segments("${version}", None, &t).unwrap();
    assert_eq!(out, vec![seg("version", "v7.3.8", None)]);
}

#[test]
fn single_placeholder_among_literal_text_gives_one_segment() {
    let t = table(vec![seg("version", "v1.2.3", None)]);
    let out = format_segments("via ${version} !", None, &t).unwrap();
    assert_eq!(out.len(), 1);
    assert_eq!(out[0].value, "v1.2.3");
}

#[test]
fn unresolved_placeholder_is_left_out() {
    let t = table(vec![seg("version", "v7.3.8", None)]);
    let out = format_segments("${version}${unknown}", None, &t).unwrap();
    assert_eq!(out, vec![seg("version", "v7.3.8", None)]);
}

#[test]
fn nothing_resolved_gives_no_segments() {
    let t = table(vec![]);
    let out = format_segments("on ${a} and ${b:style=red}", style("blue"), &t).unwrap();
    assert_eq!(out, vec![]);
}

#[test]
fn empty_template_gives_no_segments() {
    let t = table(vec![seg("a", "1", None)]);
    assert_eq!(format_segments("", None, &t), Ok(vec![]));
}

#[test]
fn segments_follow_template_order() {
    let t = table(vec![seg("c", "3", None), seg("a", "1", None)]);
    let out = format_segments("${a}${b}${c}", None, &t).unwrap();
    assert_eq!(out, vec![seg("a", "1", None), seg("c", "3", None)]);
}

#[test]
fn repeated_placeholder_is_rendered_each_time() {
    let t = table(vec![seg("a", "1", None)]);
    let out = format_segments("${a} ${a}", None, &t).unwrap();
    assert_eq!(out, vec![seg("a", "1", None), seg("a", "1", None)]);
}

#[test]
fn own_style_beats_default_and_modifier() {
    let t = table(vec![seg("a", "1", Some("red"))]);
    let out = format_segments("${a:style=bold}", style("blue"), &t).unwrap();
    assert_eq!(out, vec![seg("a", "1", Some("red"))]);
}

#[test]
fn modifier_style_beats_default() {
    let t = table(vec![seg("a", "1", None)]);
    let out = format_segments("${a:style=bold}", style("blue"), &t).unwrap();
    assert_eq!(out, vec![seg("a", "1", Some("bold"))]);
}

#[test]
fn default_style_applies_without_others() {
    let t = table(vec![seg("a", "1", None)]);
    let out = format_segments("${a:hidden}", style("blue"), &t).unwrap();
    assert_eq!(out, vec![seg("a", "1", Some("blue"))]);
}

#[test]
fn same_inputs_give_same_output() {
    let t = table(vec![seg("a", "1", None), seg("b", "2", Some("red"))]);
    let first = format_segments("x ${b} ${a:style=bold} ${z}", style("blue"), &t);
    let second = format_segments("x ${b} ${a:style=bold} ${z}", style("blue"), &t);
    assert_eq!(first, second);
    assert_eq!(first.unwrap().len(), 2);
}

#[test]
fn first_table_entry_of_a_name_wins() {
    let t = table(vec![seg("a", "first", None), seg("a", "second", None)]);
    let out = format_segments("${a}", None, &t).unwrap();
    assert_eq!(out, vec![seg("a", "first", None)]);
}

#[test]
fn unterminated_placeholder_is_malformed() {
    let t = table(vec![seg("version", "v1", None)]);
    assert_eq!(format_segments("${version", None, &t), Err(FormatError::MalformedTemplate));
}

#[test]
fn empty_name_is_malformed() {
    assert_eq!(parse_template("${}"), Err(FormatError::MalformedTemplate));
    assert_eq!(parse_template("${:style=red}"), Err(FormatError::MalformedTemplate));
}

#[test]
fn bad_modifiers_are_malformed() {
    assert_eq!(parse_template("${a:}"), Err(FormatError::MalformedTemplate));
    assert_eq!(parse_template("${a:=red}"), Err(FormatError::MalformedTemplate));
}

#[test]
fn brace_inside_placeholder_is_malformed() {
    assert_eq!(parse_template("${a${b}"), Err(FormatError::MalformedTemplate));
}

#[test]
fn parse_reads_name_and_modifiers() {
    let ps = parse_template("at ${name:style=bold red:hidden:k=a=b} $ {x} }").unwrap();
    let expected = Placeholder {
        name: "name".to_string(),
        query: Query {
            modifiers: vec![
                Modifier { key: "style".to_string(), value: Some("bold red".to_string()) },
                Modifier { key: "hidden".to_string(), value: None },
                Modifier { key: "k".to_string(), value: Some("a=b".to_string()) },
            ],
        },
    };
    assert_eq!(ps, vec![expected]);
}

#[test]
fn parse_accepts_empty_modifier_value() {
    let ps = parse_template("${é:style=}").unwrap();
    assert_eq!(ps[0].name, "é");
    assert_eq!(ps[0].query.modifiers[0].value, Some(String::new()));
}

#[test]
fn style_from_query_takes_first_valued_style() {
    let q = Query {
        modifiers: vec![
            Modifier { key: "style".to_string(), value: None },
            Modifier { key: "other".to_string(), value: Some("x".to_string()) },
            Modifier { key: "style".to_string(), value: Some("green".to_string()) },
            Modifier { key: "style".to_string(), value: Some("red".to_string()) },
        ],
    };
    assert_eq!(style_from_query(&q), style("green"));
    assert_eq!(style_from_query(&Query { modifiers: vec![] }), None);
}
