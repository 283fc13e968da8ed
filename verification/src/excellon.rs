//! Excellon drill files: recognising them and reading them into a list
//! of drill events (unit changes, tool definitions, tool changes, hits).
//! Numbers are kept as the text that stood in the file.
use vstd::prelude::*;
use crate::text::{
    chars_eq_str, chars_of, contains_str, count_char, count_occurrences, find_char, first_index, lines_of,
    parse_u32, run_of, seq_contains, slice_chars, take_run, split_lines, trim_str, trimmed, u32_from_str,
    all_digits, is_digit, run_len,
};

verus! {

broadcast use vstd::string::group_string_axioms;

/// Whether a text looks like an Excellon drill file rather than Gerber:
/// it names `M48`, `METRIC` or `INCH`, and holds fewer than five `*`.
pub open spec fn looks_like_excellon(s: Seq<char>) -> bool {
    (seq_contains(s, "M48"@) || seq_contains(s, "METRIC"@) || seq_contains(s, "INCH"@)) && count_char(s, '*')
        < 5
}

pub fn is_excellon(source: &str) -> (r: bool)
    ensures
        r == looks_like_excellon(source@),
{
    let s = chars_of(source);
    let has_m48 = contains_str(&s, "M48");
    let has_metric = contains_str(&s, "METRIC");
    let has_inch = contains_str(&s, "INCH");
    let asterisks = count_occurrences(&s, '*');
    (has_m48 || has_metric || has_inch) && asterisks < 5
}

/// One drill event, numbers kept as the characters of the file.
#[derive(Debug, Clone, PartialEq, Eq)]
pub enum ExcellonEvent {
    /// Coordinates and sizes that follow are in millimetres.
    Metric,
    /// Coordinates and sizes that follow are in inches.
    Inch,
    /// Tool `id` has the given diameter.
    ToolDef { id: u32, diameter: Vec<char> },
    /// Tool `id` becomes the active tool.
    SelectTool { id: u32 },
    /// A hole at the given coordinates; a missing one keeps its last value.
    Hit { x: Option<Vec<char>>, y: Option<Vec<char>> },
}

/// The mathematical value of a drill event.
pub ghost enum DrillStep {
    Metric,
    Inch,
    ToolDef { id: u32, diameter: Seq<char> },
    SelectTool { id: u32 },
    Hit { x: Option<Seq<char>>, y: Option<Seq<char>> },
}

pub open spec fn opt_view(o: Option<Vec<char>>) -> Option<Seq<char>> {
    match o {
        Some(v) => Some(v@),
        None => None,
    }
}

impl View for ExcellonEvent {
    type V = DrillStep;

    open spec fn view(&self) -> DrillStep {
        match self {
            ExcellonEvent::Metric => DrillStep::Metric,
            ExcellonEvent::Inch => DrillStep::Inch,
            ExcellonEvent::ToolDef { id, diameter } => DrillStep::ToolDef { id: *id, diameter: diameter@ },
            ExcellonEvent::SelectTool { id } => DrillStep::SelectTool { id: *id },
            ExcellonEvent::Hit { x, y } => DrillStep::Hit { x: opt_view(*x), y: opt_view(*y) },
        }
    }
}

/// What a line does to the reader.
pub ghost enum LineOutcome {
    Skip,
    EnterHeader,
    LeaveHeader,
    Stop,
    Emit(DrillStep),
}

/// Number of `T` characters at the front of `s`.
pub open spec fn leading_ts(s: Seq<char>) -> nat
    decreases s.len(),
{
    if s.len() > 0 && s[0] == 'T' {
        1 + leading_ts(s.skip(1))
    } else {
        0
    }
}

/// The number that follows the first `c` of the line, as text: the run
/// of digits, `.`, `-` and `+` after it.
pub open spec fn value_after(line: Seq<char>, c: char) -> Option<Seq<char>> {
    match first_index(line, c) {
        Some(i) => Some(run_of(line.skip(i + 1), 2)),
        None => None,
    }
}

/// How one trimmed line is read, given whether the reader is inside the
/// `M48` header.
pub open spec fn classify_line(line: Seq<char>, in_header: bool) -> LineOutcome {
    if line.len() == 0 || line[0] == ';' {
        LineOutcome::Skip
    } else if line == "M48"@ {
        LineOutcome::EnterHeader
    } else if line == "M30"@ || line == "M00"@ || line == "M02"@ {
        LineOutcome::Stop
    } else if seq_contains(line, "METRIC"@) || seq_contains(line, "G71"@) {
        LineOutcome::Emit(DrillStep::Metric)
    } else if seq_contains(line, "INCH"@) || seq_contains(line, "G70"@) {
        LineOutcome::Emit(DrillStep::Inch)
    } else if in_header && line[0] == 'T' && first_index(line, 'C') is Some {
        let c = first_index(line, 'C').unwrap();
        match u32_from_str(line.subrange(1, c)) {
            Some(id) => LineOutcome::Emit(DrillStep::ToolDef { id, diameter: run_of(line.skip(c + 1), 2) }),
            None => LineOutcome::Skip,
        }
    } else if line == "%"@ || line == "DETECT"@ {
        LineOutcome::LeaveHeader
    } else if line[0] == 'T' && first_index(line, 'C') is None {
        match u32_from_str(run_of(line.skip(leading_ts(line) as int), 0)) {
            Some(id) => LineOutcome::Emit(DrillStep::SelectTool { id }),
            None => LineOutcome::Skip,
        }
    } else if line[0] == 'X' || line[0] == 'Y' {
        LineOutcome::Emit(DrillStep::Hit { x: value_after(line, 'X'), y: value_after(line, 'Y') })
    } else {
        LineOutcome::Skip
    }
}

/// The events of a sequence of trimmed lines, read from the start with
/// the given header state; reading ends at `M30`, `M00` or `M02`.
pub open spec fn drill_steps(lines: Seq<Seq<char>>, in_header: bool) -> Seq<DrillStep>
    decreases lines.len(),
{
    if lines.len() == 0 {
        Seq::empty()
    } else {
        let rest = lines.skip(1);
        match classify_line(lines[0], in_header) {
            LineOutcome::Skip => drill_steps(rest, in_header),
            LineOutcome::EnterHeader => drill_steps(rest, true),
            LineOutcome::LeaveHeader => drill_steps(rest, false),
            LineOutcome::Stop => Seq::empty(),
            LineOutcome::Emit(e) => seq![e] + drill_steps(rest, in_header),
        }
    }
}

/// A coordinate line is one drill hit: a line that starts with `X` or
/// `Y` and names no unit is read, in the header or not, as exactly one
/// hit at the numbers after its first `X` and its first `Y` (an axis
/// that is not written is none, and keeps its last value), and reading
/// goes on after it with the same header state.
pub proof fn lemma_coordinate_line_is_one_hit(line: Seq<char>, in_header: bool, rest: Seq<Seq<char>>)
    requires
        line.len() > 0,
        line[0] == 'X' || line[0] == 'Y',
        !seq_contains(line, "METRIC"@),
        !seq_contains(line, "G71"@),
        !seq_contains(line, "INCH"@),
        !seq_contains(line, "G70"@),
    ensures
        classify_line(line, in_header) == LineOutcome::Emit(
            (DrillStep::Hit { x: value_after(line, 'X'), y: value_after(line, 'Y') }),
        ),
        drill_steps(seq![line] + rest, in_header) == seq![
            (DrillStep::Hit { x: value_after(line, 'X'), y: value_after(line, 'Y') }),
        ] + drill_steps(rest, in_header),
{
    reveal_strlit("M48");
    reveal_strlit("M30");
    reveal_strlit("M00");
    reveal_strlit("M02");
    reveal_strlit("%");
    reveal_strlit("DETECT");
    assert(line != "M48"@ && line != "M30"@ && line != "M00"@ && line != "M02"@) by {
        assert(line[0] != "M48"@[0]);
    }
    assert(line != "%"@ && line != "DETECT"@) by {
        assert(line[0] != "%"@[0] && line[0] != "DETECT"@[0]);
    }
    let all = seq![line] + rest;
    assert(all[0] == line);
    assert(all.skip(1) =~= rest);
}

/// A character of a tool line: `T`, `C`, a digit, `.`, `-` or `+`.
pub open spec fn tool_char(c: char) -> bool {
    c == 'T' || c == 'C' || crate::text::in_class(c, 2)
}

proof fn lemma_digit_run(d: Seq<char>)
    requires
        all_digits(d),
    ensures
        run_len(d, 0) == d.len(),
    decreases d.len(),
{
    if d.len() > 0 {
        assert(all_digits(d.skip(1))) by {
            assert forall|i: int| 0 <= i < d.skip(1).len() implies is_digit(#[trigger] d.skip(1)[i]) by {
                assert(d.skip(1)[i] == d[i + 1]);
            }
        }
        lemma_digit_run(d.skip(1));
    }
}

/// A text made of `T`, `C` and number characters names no unit.
proof fn lemma_tool_line_names_no_unit(line: Seq<char>)
    requires
        forall|i: int| 0 <= i < line.len() ==> tool_char(#[trigger] line[i]),
    ensures
        !seq_contains(line, "METRIC"@),
        !seq_contains(line, "G71"@),
        !seq_contains(line, "INCH"@),
        !seq_contains(line, "G70"@),
{
    reveal_strlit("METRIC");
    reveal_strlit("G71");
    reveal_strlit("INCH");
    reveal_strlit("G70");
    assert forall|i: int, n: Seq<char>|
        0 <= i <= line.len() - n.len() && n.len() > 0 && !tool_char(n[0]) implies #[trigger] line.subrange(
        i,
        i + n.len(),
    ) != n by {
        assert(line.subrange(i, i + n.len())[0] == line[i]);
    }
    assert("METRIC"@[0] == 'M' && "G71"@[0] == 'G' && "INCH"@[0] == 'I' && "G70"@[0] == 'G');
}

/// A tool change: a line of `T` followed by decimal digits selects the
/// tool with that number, in the header or not; a number too large for
/// a tool is skipped.
pub proof fn lemma_tool_line_selects_tool(digits: Seq<char>, in_header: bool)
    requires
        digits.len() > 0,
        all_digits(digits),
    ensures
        classify_line(seq!['T'] + digits, in_header) == match u32_from_str(digits) {
            Some(id) => LineOutcome::Emit(DrillStep::SelectTool { id }),
            None => LineOutcome::Skip,
        },
{
    let line = seq!['T'] + digits;
    assert forall|i: int| 0 <= i < line.len() implies tool_char(#[trigger] line[i]) by {
        if i > 0 {
            assert(line[i] == digits[i - 1]);
        }
    }
    lemma_tool_line_names_no_unit(line);
    reveal_strlit("M48");
    reveal_strlit("M30");
    reveal_strlit("M00");
    reveal_strlit("M02");
    reveal_strlit("%");
    reveal_strlit("DETECT");
    assert(line[0] == 'T');
    assert(line != "M48"@ && line != "M30"@ && line != "M00"@ && line != "M02"@) by {
        assert(line[0] != "M48"@[0]);
    }
    assert(line != "%"@ && line != "DETECT"@) by {
        assert(line[0] != "%"@[0] && line[0] != "DETECT"@[0]);
    }
    assert(first_index(line, 'C') is None) by {
        if exists|i: int| 0 <= i < line.len() && line[i] == 'C' {
            let i = choose|i: int| 0 <= i < line.len() && line[i] == 'C';
            if i > 0 {
                assert(line[i] == digits[i - 1]);
            }
        }
    }
    assert(line.skip(1) =~= digits);
    assert(is_digit(digits[0]));
    assert(digits[0] != 'T');
    assert(leading_ts(digits) == 0);
    assert(leading_ts(line) == 1 + leading_ts(line.skip(1)));
    assert(leading_ts(line) == 1);
    lemma_digit_run(digits);
    assert(run_of(digits, 0) =~= digits);
}

/// A tool definition: in the header, a line `T`, decimal digits, `C`
/// and a diameter defines the tool with that number (when it fits) with
/// the number characters at the start of the diameter; outside the
/// header such a line is skipped.
pub proof fn lemma_tool_definition(digits: Seq<char>, dia: Seq<char>, in_header: bool)
    requires
        digits.len() > 0,
        all_digits(digits),
        forall|i: int| 0 <= i < dia.len() ==> crate::text::in_class(#[trigger] dia[i], 2),
    ensures
        classify_line(seq!['T'] + digits + seq!['C'] + dia, in_header) == if in_header {
            match u32_from_str(digits) {
                Some(id) => LineOutcome::Emit(DrillStep::ToolDef { id, diameter: run_of(dia, 2) }),
                None => LineOutcome::Skip,
            }
        } else {
            LineOutcome::Skip
        },
{
    let line = seq!['T'] + digits + seq!['C'] + dia;
    let c: int = digits.len() as int + 1;
    assert forall|i: int| 0 <= i < line.len() implies tool_char(#[trigger] line[i]) by {
        if 0 < i < c {
            assert(line[i] == digits[i - 1]);
        } else if i > c {
            assert(line[i] == dia[i - c - 1]);
        }
    }
    lemma_tool_line_names_no_unit(line);
    reveal_strlit("M48");
    reveal_strlit("M30");
    reveal_strlit("M00");
    reveal_strlit("M02");
    reveal_strlit("%");
    reveal_strlit("DETECT");
    assert(line[0] == 'T');
    assert(line != "M48"@ && line != "M30"@ && line != "M00"@ && line != "M02"@) by {
        assert(line[0] != "M48"@[0]);
    }
    assert(line != "%"@ && line != "DETECT"@) by {
        assert(line[0] != "%"@[0] && line[0] != "DETECT"@[0]);
    }
    assert(line[c] == 'C');
    assert forall|j: int| 0 <= j < c implies line[j] != 'C' by {
        if j > 0 {
            assert(line[j] == digits[j - 1]);
            assert(is_digit(digits[j - 1]));
        }
    }
    assert(first_index(line, 'C') == Some(c)) by {
        let k = choose|i: int| 0 <= i < line.len() && line[i] == 'C' && forall|j: int| 0 <= j < i ==> line[j] != 'C';
        assert(0 <= c < line.len() && line[c] == 'C' && forall|j: int| 0 <= j < c ==> line[j] != 'C');
        if k < c {
            assert(line[k] != 'C');
        }
        if k > c {
            assert(line[c] != 'C');
        }
    }
    assert(line.subrange(1, c) =~= digits);
    assert(line.skip(c + 1) =~= dia);
    assert(!(line[0] == 'X' || line[0] == 'Y'));
}

/// Unit words choose the unit: a line that is not a comment and names
/// `METRIC` switches to millimetres; one that names `INCH` and no
/// metric word switches to inches, in the header or not.
pub proof fn lemma_unit_words(line: Seq<char>, in_header: bool)
    requires
        line.len() > 0,
        line[0] != ';',
    ensures
        seq_contains(line, "METRIC"@) ==> classify_line(line, in_header) == LineOutcome::Emit(DrillStep::Metric),
        seq_contains(line, "INCH"@) && !seq_contains(line, "METRIC"@) && !seq_contains(line, "G71"@) ==> classify_line(
            line,
            in_header,
        ) == LineOutcome::Emit(DrillStep::Inch),
{
    reveal_strlit("METRIC");
    reveal_strlit("INCH");
    reveal_strlit("M48");
    reveal_strlit("M30");
    reveal_strlit("M00");
    reveal_strlit("M02");
    if seq_contains(line, "METRIC"@) || seq_contains(line, "INCH"@) {
        assert(line.len() >= 4);
        assert(line != "M48"@ && line != "M30"@ && line != "M00"@ && line != "M02"@);
    }
}

/// Number of leading `T` characters of a line.
fn count_leading_ts(s: &Vec<char>) -> (r: usize)
    ensures
        r == leading_ts(s@),
        r <= s@.len(),
{
    let mut i: usize = 0;
    assert(s@.skip(0) =~= s@);
    while i < s.len() && s[i] == 'T'
        invariant
            i <= s@.len(),
            leading_ts(s@) == i + leading_ts(s@.skip(i as int)),
        decreases s.len() - i,
    {
        assert(s@.skip(i as int).skip(1) =~= s@.skip(i + 1));
        i += 1;
    }
    assert(leading_ts(s@.skip(i as int)) == 0);
    i
}

/// The number after the first `c` of a line, as text.
fn read_value_after(line: &Vec<char>, c: char) -> (r: Option<Vec<char>>)
    ensures
        opt_view(r) == value_after(line@, c),
{
    let len = line.len();
    match find_char(line, c) {
        Some(i) => Some(take_run(line, i + 1, 2)),
        None => None,
    }
}

/// Reads one trimmed line.
fn read_line(line: &Vec<char>, in_header: bool) -> (r: (u8, Option<ExcellonEvent>))
    ensures
        match classify_line(line@, in_header) {
            LineOutcome::Skip => r.0 == 0 && r.1 is None,
            LineOutcome::EnterHeader => r.0 == 1 && r.1 is None,
            LineOutcome::LeaveHeader => r.0 == 2 && r.1 is None,
            LineOutcome::Stop => r.0 == 3 && r.1 is None,
            LineOutcome::Emit(e) => r.0 == 0 && (r.1 matches Some(ev) && ev@ == e),
        },
{
    if line.len() == 0 || line[0] == ';' {
        return (0, None);
    }
    if chars_eq_str(line, "M48") {
        return (1, None);
    }
    if chars_eq_str(line, "M30") || chars_eq_str(line, "M00") || chars_eq_str(line, "M02") {
        return (3, None);
    }
    if contains_str(line, "METRIC") || contains_str(line, "G71") {
        return (0, Some(ExcellonEvent::Metric));
    }
    if contains_str(line, "INCH") || contains_str(line, "G70") {
        return (0, Some(ExcellonEvent::Inch));
    }
    let c_idx = find_char(line, 'C');
    if in_header && line[0] == 'T' && c_idx.is_some() {
        let c = c_idx.unwrap();
        proof {
            assert(line@[0] != 'C');
        }
        let tool = slice_chars(line, 1, c);
        let diameter = take_run(line, c + 1, 2);
        return match parse_u32(&tool) {
            Some(id) => (0, Some(ExcellonEvent::ToolDef { id, diameter })),
            None => (0, None),
        };
    }
    if chars_eq_str(line, "%") || chars_eq_str(line, "DETECT") {
        return (2, None);
    }
    if line[0] == 'T' && c_idx.is_none() {
        let k = count_leading_ts(line);
        let digits = take_run(line, k, 0);
        return match parse_u32(&digits) {
            Some(id) => (0, Some(ExcellonEvent::SelectTool { id })),
            None => (0, None),
        };
    }
    if line[0] == 'X' || line[0] == 'Y' {
        let x = read_value_after(line, 'X');
        let y = read_value_after(line, 'Y');
        return (0, Some(ExcellonEvent::Hit { x, y }));
    }
    (0, None)
}

/// Reads trimmed lines into drill events.
pub fn parse_excellon_lines(lines: &Vec<Vec<char>>) -> (r: Vec<ExcellonEvent>)
    ensures
        r@.map_values(|e: ExcellonEvent| e@) == drill_steps(lines@.map_values(|l: Vec<char>| l@), false),
{
    let ghost all = lines@.map_values(|l: Vec<char>| l@);
    let mut out: Vec<ExcellonEvent> = Vec::new();
    let mut in_header = false;
    let mut i: usize = 0;
    assert(all.skip(0) =~= all);
    while i < lines.len()
        invariant
            i <= lines@.len(),
            all == lines@.map_values(|l: Vec<char>| l@),
            out@.map_values(|e: ExcellonEvent| e@) + drill_steps(all.skip(i as int), in_header) == drill_steps(
                all,
                false,
            ),
        decreases lines.len() - i,
    {
        let ghost before = out@.map_values(|e: ExcellonEvent| e@);
        assert(all.skip(i as int)[0] == lines@[i as int]@);
        assert(all.skip(i as int).skip(1) =~= all.skip(i + 1));
        let (action, ev) = read_line(&lines[i], in_header);
        if action == 3 {
            assert(drill_steps(all.skip(i as int), in_header) =~= Seq::empty());
            assert(before + Seq::<DrillStep>::empty() =~= before);
            return out;
        }
        if action == 1 {
            in_header = true;
        } else if action == 2 {
            in_header = false;
        }
        match ev {
            Some(e) => {
                out.push(e);
                assert(out@.map_values(|e: ExcellonEvent| e@) =~= before.push(e@));
                assert(before.push(e@) + drill_steps(all.skip(i + 1), in_header) =~= before + (seq![e@]
                    + drill_steps(all.skip(i + 1), in_header)));
            },
            None => {},
        }
        i += 1;
    }
    assert(all.skip(i as int) =~= Seq::<Seq<char>>::empty());
    assert(out@.map_values(|e: ExcellonEvent| e@) + Seq::<DrillStep>::empty() =~= out@.map_values(
        |e: ExcellonEvent| e@,
    ));
    out
}

/// Reads an Excellon drill file into drill events: the lines of the
/// text, each trimmed, read from the start until `M30`, `M00` or `M02`.
pub fn parse_excellon(source: &str) -> (r: Vec<ExcellonEvent>)
    ensures
        r@.map_values(|e: ExcellonEvent| e@) == drill_steps(
            split_lines(source@).map_values(|l: Seq<char>| trimmed(l)),
            false,
        ),
{
    let raw = lines_of(source);
    let mut lines: Vec<Vec<char>> = Vec::new();
    let mut i: usize = 0;
    while i < raw.len()
        invariant
            i <= raw@.len(),
            raw@.map_values(|l: String| l@) == split_lines(source@),
            lines@.len() == i,
            forall|j: int| 0 <= j < i ==> #[trigger] lines@[j]@ == trimmed(raw@[j]@),
        decreases raw.len() - i,
    {
        let t = trim_str(raw[i].as_str());
        let cs = chars_of(t.as_str());
        lines.push(cs);
        i += 1;
    }
    let ghost lv = lines@.map_values(|l: Vec<char>| l@);
    let ghost tv = split_lines(source@).map_values(|l: Seq<char>| trimmed(l));
    assert forall|j: int| 0 <= j < lv.len() implies #[trigger] lv[j] == tv[j] by {
        assert(raw@.map_values(|l: String| l@)[j] == raw@[j]@);
    }
    assert(lines@.map_values(|l: Vec<char>| l@) =~= split_lines(source@).map_values(|l: Seq<char>| trimmed(l)));
    parse_excellon_lines(&lines)
}

} // verus!
