use easymill::excellon::{is_excellon, parse_excellon, ExcellonEvent};

fn chars(s: &str) -> Vec<char> {
    s.chars().collect()
}

#[test]
fn recognises_drill_files() {
    assert!(is_excellon("M48\nT1C0.8\n%\nT1\nX1Y1\nM30\n"));
    assert!(is_excellon(";comment\nMETRIC,TZ\n"));
    assert!(is_excellon("INCH\n"));
    assert!(!is_excellon("%FSLAX24Y24*%\n%MOMM*%\nD10*\nX0Y0D03*\nM02*\n"));
    assert!(!is_excellon("M48\n*****\n"));
    assert!(!is_excellon(""));
}

#[test]
fn reads_header_tools_and_hits() {
    let source = "M48\nMETRIC\nT1C0.8\n%\nT1\nX10.0Y5.0\nY7.5\nM30\nX1Y1\n";
    let events = parse_excellon(source);
    assert_eq!(
        events,
        vec![
            ExcellonEvent::Metric,
            ExcellonEvent::ToolDef { id: 1, diameter: chars("0.8") },
            ExcellonEvent::SelectTool { id: 1 },
            ExcellonEvent::Hit { x: Some(chars("10.0")), y: Some(chars("5.0")) },
            ExcellonEvent::Hit { x: None, y: Some(chars("7.5")) },
        ]
    );
}

#[test]
fn skips_comments_blank_lines_and_trims() {
    let source = "; drill file\n\n  M48  \n  T02C1.00  \n\tINCH\n%\nT02\n  X0100Y-0200  \n";
    let events = parse_excellon(source);
    assert_eq!(
        events,
        vec![
            ExcellonEvent::ToolDef { id: 2, diameter: chars("1.00") },
            ExcellonEvent::Inch,
            ExcellonEvent::SelectTool { id: 2 },
            ExcellonEvent::Hit { x: Some(chars("0100")), y: Some(chars("-0200")) },
        ]
    );
}

#[test]
fn tool_definitions_outside_the_header_are_not_read() {
    let events = parse_excellon("T3C0.5\nT3\n");
    assert_eq!(events, vec![ExcellonEvent::SelectTool { id: 3 }]);
}

#[test]
fn tool_selection_skips_leading_ts_and_reads_digits() {
    let events = parse_excellon("TT7\nT\nTX\n");
    assert_eq!(events, vec![ExcellonEvent::SelectTool { id: 7 }]);
}

#[test]
fn every_end_code_stops_reading() {
    assert_eq!(parse_excellon("G71\nM00\nX1\n"), vec![ExcellonEvent::Metric]);
    assert_eq!(parse_excellon("G70\nM02\nX1\n"), vec![ExcellonEvent::Inch]);
}
