use ass_editor::parser::{interpret_line, parse_ass, read_script, AssParser, LineAction, ScriptOutcome, State};
use ass_editor::subtitle::{Line, SubtitleFile};
use ass_editor::ui::{App, Command, Error, Message};
use std::path::PathBuf;

fn script(lines: &[&str]) -> Vec<String> {
    lines.iter().map(|l| l.to_string()).collect()
}

const BASE: &[&str] = &[
    "[Script Info]",
    "Title: Demo",
    "[Aegisub Project Garbage]",
    "Video File: first.mkv",
    "Audio File: a.mka",
    "Video File: second.mkv",
    "[Events]",
    "Format: Layer, Start, End, Style, Name, MarginL, MarginR, MarginV, Effect, Text",
    "Dialogue: 0,0:00:01.00,0:00:02.00,Default,,0,0,0,,one",
    "Dialogue: 0,0:00:02.00,0:00:03.00,Default,,0,0,0,,two",
    "Comment: 0,0:00:03.00,0:00:04.00,Default,,0,0,0,,three",
];

fn texts(f: &SubtitleFile) -> Vec<String> {
    f.get_lines().into_iter().map(|l: Line| l.text).collect()
}

#[test]
fn later_entries_win() {
    let f = parse_ass("x.ass".to_string(), &script(BASE)).ok().unwrap();
    assert_eq!(f.get_video(), "second.mkv");
    assert_eq!(f.get_audio(), "a.mka");
}

#[test]
fn missing_video_and_audio_are_empty() {
    let f = parse_ass("x.ass".to_string(), &script(&["[Events]", "Dialogue: 0,0:00:01.00,0:00:02.00,S,,0,0,0,,t"])).ok().unwrap();
    assert_eq!(f.get_video(), "");
    assert_eq!(f.get_audio(), "");
    assert_eq!(f.get_number_of_line(), 1);
}

#[test]
fn empty_and_format_lines_do_not_matter() {
    let plain = parse_ass("x.ass".to_string(), &script(BASE)).ok().unwrap();
    let mut padded: Vec<&str> = Vec::new();
    for l in BASE {
        padded.push("");
        padded.push(l);
        padded.push("Format: Name, Fontname, Fontsize, PrimaryColour, SecondaryColour, OutlineColour, BackColour, Bold, Italic, Underline, StrikeOut, ScaleX, ScaleY, Spacing, Angle, BorderStyle, Outline, Shadow, Alignment, MarginL, MarginR, MarginV, Encoding");
    }
    padded.push("");
    let other = parse_ass("x.ass".to_string(), &script(&padded)).ok().unwrap();
    assert_eq!(texts(&plain), texts(&other));
    assert_eq!(plain.get_video(), other.get_video());
    assert_eq!(plain.get_audio(), other.get_audio());
}

#[test]
fn reading_stops_at_the_first_rejected_line() {
    let mut lines = script(BASE);
    lines.insert(3, "no separator here".to_string());
    // A line after the rejected one that could not be read on does not matter.
    lines.push("Dialogue: 999,0:00:01.00,0:00:02.00,S,,0,0,0,,t".to_string());
    let e = parse_ass("x.ass".to_string(), &lines).err().unwrap();
    assert_eq!(e.get_reason(), "Not an Ass File");
}

#[test]
fn lines_are_kept_in_order_and_getters_agree() {
    let f = parse_ass("movie.ass".to_string(), &script(BASE)).ok().unwrap();
    assert_eq!(texts(&f), vec!["one", "two", "three"]);
    let all = f.get_lines();
    assert_eq!(f.get_number_of_line(), all.len());
    for (i, l) in all.iter().enumerate() {
        let one = f.get_line(i);
        assert_eq!(one.text, l.text);
        assert_eq!(one.format, l.format);
        assert_eq!(one.start.seconds, l.start.seconds);
    }
    assert_eq!(f.get_line(2).format, "Comment");
    assert_eq!(f.get_name(), "movie.ass");
}

#[test]
fn streaming_reads_like_the_whole_script() {
    let lines = script(BASE);
    let mut parser = AssParser::new();
    for line in &lines {
        match interpret_line(parser.state(), line) {
            LineAction::Abort => panic!(),
            action => parser.apply(action).ok().unwrap(),
        }
    }
    let streamed = parser.finish("x.ass".to_string());
    let whole = parse_ass("x.ass".to_string(), &lines).ok().unwrap();
    assert_eq!(texts(&streamed), texts(&whole));
    assert_eq!(streamed.get_video(), whole.get_video());
}

#[test]
fn empty_script() {
    let f = parse_ass("e.ass".to_string(), &Vec::new()).ok().unwrap();
    assert_eq!(f.get_number_of_line(), 0);
    assert_eq!(f.get_name(), "e.ass");
    let d = SubtitleFile::default();
    assert_eq!(d.get_number_of_line(), 0);
    assert_eq!(d.get_name(), "");
}

#[test]
fn a_second_open_request_waits_for_the_dialog() {
    let mut app = App::new();
    assert!(!app.is_loading());
    assert_eq!(app.update(Message::OpenFile), Command::OpenDialog);
    assert!(app.is_loading());
    assert_eq!(app.update(Message::OpenFile), Command::Nothing);
    assert!(app.is_loading());
    assert_eq!(app.update(Message::FileOpened(Err(Error::DialogClosed))), Command::ShowFirstLine);
    assert!(!app.is_loading());
    assert!(app.subtitle_file_path().is_none());
    assert_eq!(app.update(Message::FileOpened(Ok(PathBuf::from("/tmp/s.ass")))), Command::LoadAndShowFirstLine);
    assert!(!app.is_loading());
    assert_eq!(app.subtitle_file_path().clone(), Some(PathBuf::from("/tmp/s.ass")));
    assert_eq!(app.update(Message::FileOpened(Err(Error::IoError(std::io::ErrorKind::NotFound)))), Command::ShowFirstLine);
    assert_eq!(app.subtitle_file_path().clone(), Some(PathBuf::from("/tmp/s.ass")));
}

#[test]
fn listed_lines() {
    let mut app = App::new();
    assert!(app.listed_lines().is_empty());
    let f = parse_ass("x.ass".to_string(), &script(BASE)).ok().unwrap();
    app.set_subtitle_file(f);
    assert_eq!(app.listed_lines(), vec![0, 0, 1, 2]);
    let mut many = vec!["[Events]".to_string()];
    for i in 0..25 {
        many.push(format!("Dialogue: 0,0:00:01.00,0:00:02.00,S,,0,0,0,,{i}"));
    }
    app.set_subtitle_file(parse_ass("m.ass".to_string(), &many).ok().unwrap());
    let listed = app.listed_lines();
    assert_eq!(listed.len(), 21);
    assert_eq!(listed[0], 0);
    assert_eq!(&listed[1..], &(0..20).collect::<Vec<usize>>()[..]);
    assert_eq!(app.subtitle_file().get_line(listed[20]).text, "19");
}

#[test]
fn reading_on_keeps_what_was_read() {
    let all = script(BASE);
    for cut in 0..=all.len() {
        let prefix = parse_ass("x.ass".to_string(), &all[..cut].to_vec()).ok().unwrap();
        let whole = parse_ass("x.ass".to_string(), &all).ok().unwrap();
        let (p, w) = (texts(&prefix), texts(&whole));
        assert!(p.len() <= w.len());
        assert_eq!(&w[..p.len()], &p[..]);
    }
}

#[test]
fn lines_before_the_first_header_and_empty_lines_do_not_matter() {
    let plain = parse_ass("x.ass".to_string(), &script(BASE)).ok().unwrap();
    let mut edited: Vec<&str> = vec![
        "Dialogue: 999,broken",
        "",
        "Style: not a style",
        "Title: no section yet",
        "; comment",
        "",
        "",
    ];
    for l in BASE {
        edited.push(l);
        edited.push("");
        edited.push("");
    }
    let other = parse_ass("x.ass".to_string(), &script(&edited)).ok().unwrap();
    assert_eq!(texts(&plain), texts(&other));
    assert_eq!(plain.get_video(), other.get_video());
    assert_eq!(plain.get_audio(), other.get_audio());
}

#[test]
fn read_script_names_the_section_of_a_rejected_line() {
    let mut lines = script(BASE);
    lines.push("Dialogue: no shape".to_string());
    match read_script("x.ass".to_string(), &lines) {
        ScriptOutcome::Rejected(e, state) => {
            assert_eq!(state, State::Events);
            assert_eq!(e.get_reason(), "Not an Ass File");
        }
        _ => panic!(),
    }
    let aborting = script(&["[Events]", "Dialogue: 300,0:00:01.00,0:00:02.00,S,,0,0,0,,t"]);
    assert!(matches!(read_script("x.ass".to_string(), &aborting), ScriptOutcome::Aborted));
    match read_script("x.ass".to_string(), &script(BASE)) {
        ScriptOutcome::Parsed(f) => assert_eq!(texts(&f), vec!["one", "two", "three"]),
        _ => panic!(),
    }
}
