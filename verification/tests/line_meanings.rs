use ass_editor::parser::{interpret_line, LineAction, State};

fn reason(a: LineAction) -> String {
    match a {
        LineAction::Reject(e) => e.get_reason(),
        _ => panic!("not a rejection"),
    }
}

fn is_abort(a: &LineAction) -> bool {
    matches!(a, LineAction::Abort)
}

fn is_skip(a: &LineAction) -> bool {
    matches!(a, LineAction::Skip)
}

const STYLE: &str = "Style: Default,Arial,20,&H00FFFFFF,&H000000FF,&H00000000,&H00000000,0,0,0,0,100,100,0,0,1,2,2,2,10,10,10,1";

#[test]
fn headers_enter_their_section_from_any_section() {
    for state in [State::Start, State::Info, State::AegisGarbage, State::Styles, State::Events] {
        assert!(matches!(interpret_line(state, "[Script Info]"), LineAction::Enter(State::Info)));
        assert!(matches!(interpret_line(state, "\u{feff}[Script Info]"), LineAction::Enter(State::Info)));
        assert!(matches!(interpret_line(state, "[Aegisub Project Garbage]"), LineAction::Enter(State::AegisGarbage)));
        assert!(matches!(interpret_line(state, "[V4+ Styles]"), LineAction::Enter(State::Styles)));
        assert!(matches!(interpret_line(state, "[Events]"), LineAction::Enter(State::Events)));
        assert!(is_skip(&interpret_line(state, "")));
        assert!(is_skip(&interpret_line(state, "Format: Layer, Start, End, Style, Name, MarginL, MarginR, MarginV, Effect, Text")));
        assert!(is_skip(&interpret_line(state, "Format: Name, Fontname, Fontsize, PrimaryColour, SecondaryColour, OutlineColour, BackColour, Bold, Italic, Underline, StrikeOut, ScaleX, ScaleY, Spacing, Angle, BorderStyle, Outline, Shadow, Alignment, MarginL, MarginR, MarginV, Encoding")));
    }
    assert!(is_skip(&interpret_line(State::Start, "anything at all")));
    assert!(!matches!(interpret_line(State::Events, "[events]"), LineAction::Enter(_)));
}

#[test]
fn entries_of_info_sections() {
    match interpret_line(State::Info, "Title: A: B") {
        LineAction::InfoEntry(k, v) => {
            assert_eq!(k, "Title");
            assert_eq!(v, "A: B");
        }
        _ => panic!(),
    }
    match interpret_line(State::AegisGarbage, "Video File: ../m.mkv") {
        LineAction::GarbageEntry(k, v) => {
            assert_eq!(k, "Video File");
            assert_eq!(v, "../m.mkv");
        }
        _ => panic!(),
    }
    match interpret_line(State::Info, "Empty: ") {
        LineAction::InfoEntry(k, v) => {
            assert_eq!(k, "Empty");
            assert_eq!(v, "");
        }
        _ => panic!(),
    }
    assert!(is_skip(&interpret_line(State::Info, "; comment without separator")));
    assert!(is_skip(&interpret_line(State::AegisGarbage, ";x")));
    assert_eq!(reason(interpret_line(State::Info, "Title:Demo")), "Not an Ass File");
    assert_eq!(reason(interpret_line(State::AegisGarbage, "nothing")), "Not an Ass File");
}

#[test]
fn styles() {
    let style = match interpret_line(State::Styles, STYLE) {
        LineAction::StyleEntry(s) => s,
        _ => panic!(),
    };
    assert_eq!(style.name, "Default");
    assert_eq!(style.font_name, "Arial");
    assert_eq!(style.font_size, "20");
    assert_eq!(style.primary_colour.colour, (255, 255, 255));
    assert_eq!(style.secondary_colour.colour, (255, 0, 0));
    assert_eq!(style.back_colour.alpha, 0);
    assert!(!style.bold && !style.italic && !style.underline && !style.strike_out);
    assert_eq!(style.scale, ("100".to_string(), "100".to_string()));
    assert_eq!(style.spacing, "0");
    assert_eq!(style.angle, "0");
    assert_eq!(style.border_style, 1);
    assert_eq!(style.outline, "2");
    assert_eq!(style.shadow, "2");
    assert_eq!(style.alignment, 2);
    assert_eq!(style.margin, ("10".to_string(), "10".to_string(), "10".to_string()));
    assert_eq!(style.encoding, 1);

    let other = "Style: Sign, Note,Times New Roman,48,&H00FFFFFF,&H000000FF,&H00000000,&H80000000,-1,0,-1,0,100,90,1.5,-3,+3,2.5,0,8,10,10,20,0";
    let s = match interpret_line(State::Styles, other) {
        LineAction::StyleEntry(s) => s,
        _ => panic!(),
    };
    assert_eq!(s.name, "Sign");
    assert_eq!(s.font_name, " Note,Times New Roman");
    assert!(s.bold && !s.italic && s.underline && !s.strike_out);
    assert_eq!(s.back_colour.alpha, 0x80);
    assert_eq!(s.scale, ("100".to_string(), "90".to_string()));
    assert_eq!(s.spacing, "1.5");
    assert_eq!(s.angle, "-3");
    assert_eq!(s.border_style, 3);
    assert_eq!(s.alignment, 8);
    assert_eq!(s.encoding, 0);
}

#[test]
fn broken_styles() {
    // An empty font size is rejected before the colours are read.
    let empty_size = "Style: A,B,,&HGG000000,&H000000FF,&H00000000,&H00000000,0,0,0,0,100,100,0,0,1,2,2,2,10,10,10,1";
    assert_eq!(reason(interpret_line(State::Styles, empty_size)), "ParseFloatError { kind: Empty }");
    let bad_colour = "Style: A,B,20,&HGG000000,&H000000FF,&H00000000,&H00000000,0,0,0,0,100,100,0,0,1,2,2,2,10,10,10,1";
    assert!(is_abort(&interpret_line(State::Styles, bad_colour)));
    let bad_spacing = "Style: A,B,20,&H00000000,&H000000FF,&H00000000,&H00000000,0,0,0,0,100,100,wide,0,1,2,2,2,10,10,10,1";
    assert!(is_abort(&interpret_line(State::Styles, bad_spacing)));
    let bad_border = "Style: A,B,20,&H00000000,&H000000FF,&H00000000,&H00000000,0,0,0,0,100,100,0,0,300,2,2,2,10,10,10,1";
    assert!(is_abort(&interpret_line(State::Styles, bad_border)));
    let bad_margin = "Style: A,B,20,&H00000000,&H000000FF,&H00000000,&H00000000,0,0,0,0,100,100,0,0,1,2,2,2,,10,10,1";
    assert!(is_abort(&interpret_line(State::Styles, bad_margin)));
    assert_eq!(reason(interpret_line(State::Styles, "Style: too short")), "Not an Ass File");
    assert_eq!(reason(interpret_line(State::Styles, "; a comment")), "Not an Ass File");
}

#[test]
fn events() {
    let line = match interpret_line(State::Events, "Dialogue: 0,0:00:01.00,0:00:02.00,S,a,b,1,2,3,E,T, more") {
        LineAction::Event(l) => l,
        _ => panic!(),
    };
    assert_eq!(line.style, "S");
    assert_eq!(line.name, "a,b");
    assert_eq!(line.margin[0], ("1".to_string(), "2".to_string(), "3".to_string()));
    assert_eq!(line.effect, "E");
    assert_eq!(line.text, "T, more");

    let exp = match interpret_line(State::Events, "Dialogue: 255,9:59:12e34,0:00:12345,S,,0,0,0,,") {
        LineAction::Event(l) => l,
        _ => panic!(),
    };
    assert_eq!(exp.layer, 255);
    assert_eq!(exp.start.hours, 9);
    assert_eq!(exp.start.minutes, 59);
    assert_eq!(exp.start.seconds, "12e34");
    assert_eq!(exp.end.seconds, "12345");
    assert_eq!(exp.text, "");

    let shifted = match interpret_line(State::Events, "x,Dialogue: 1,0:00:01.00,0:00:02.00,S,N,0,0,0,,T") {
        LineAction::Event(l) => l,
        _ => panic!(),
    };
    assert_eq!(shifted.format, "Dialogue");
}

#[test]
fn broken_events() {
    assert!(is_abort(&interpret_line(State::Events, "Dialogue: 256,0:00:01.00,0:00:02.00,S,,0,0,0,,T")));
    assert!(is_abort(&interpret_line(State::Events, "Dialogue: ,0:00:01.00,0:00:02.00,S,,0,0,0,,T")));
    assert!(is_abort(&interpret_line(State::Events, "Dialogue: 0,0:00:01x00,0:00:02.00,S,,0,0,0,,T")));
    assert!(is_abort(&interpret_line(State::Events, "Dialogue: 0,0:00:01.00,0:00:02.00,S,,,0,0,,T")));
    assert_eq!(reason(interpret_line(State::Events, "Dialogue: 0,0:00:01.00,0:00:02.00,S,,0,0,0,T")), "Not an Ass File");
    assert_eq!(reason(interpret_line(State::Events, "Dialogue: 0,00:00:01.00,0:00:02.00,S,,0,0,0,,T")), "Not an Ass File");
    assert_eq!(reason(interpret_line(State::Events, "; comment")), "Not an Ass File");
}
