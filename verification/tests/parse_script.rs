use ass_editor::parser::parse_ass;

fn script(lines: &[&str]) -> Vec<String> {
    lines.iter().map(|l| l.to_string()).collect()
}

#[test]
fn reads_a_small_script() {
    let lines = script(&[
        "[Script Info]",
        "; a comment",
        "Title: Demo",
        "ScriptType: v4.00+",
        "",
        "[Aegisub Project Garbage]",
        "Video File: movie.mkv",
        "Audio File: movie.mka",
        "",
        "[V4+ Styles]",
        "Format: Name, Fontname, Fontsize, PrimaryColour, SecondaryColour, OutlineColour, BackColour, Bold, Italic, Underline, StrikeOut, ScaleX, ScaleY, Spacing, Angle, BorderStyle, Outline, Shadow, Alignment, MarginL, MarginR, MarginV, Encoding",
        "Style: Default,Arial,20,&H00FFFFFF,&H000000FF,&H00000000,&H00000000,0,0,0,0,100,100,0,0,1,2,2,2,10,10,10,1",
        "",
        "[Events]",
        "Format: Layer, Start, End, Style, Name, MarginL, MarginR, MarginV, Effect, Text",
        "Dialogue: 0,0:00:01.00,0:00:03.50,Default,,0,0,0,,Hello, world!",
        "Comment: 1,0:01:02.03,1:02:03.04,Default,Bob,10,20,30,fx,{\\i1}Hi",
    ]);
    let file = parse_ass("demo.ass".to_string(), &lines).ok().unwrap();
    assert_eq!(file.get_name(), "demo.ass");
    assert_eq!(file.get_number_of_line(), 2);
    assert_eq!(file.get_video(), "movie.mkv");
    assert_eq!(file.get_audio(), "movie.mka");
    let first = file.get_line(0);
    assert_eq!(first.format, "Dialogue");
    assert_eq!(first.layer, 0);
    assert_eq!(first.start.hours, 0);
    assert_eq!(first.start.minutes, 0);
    assert_eq!(first.start.seconds, "01.00");
    assert_eq!(first.end.seconds, "03.50");
    assert_eq!(first.style, "Default");
    assert_eq!(first.name, "");
    assert_eq!(first.margin.len(), 1);
    assert_eq!(first.margin[0], ("0".to_string(), "0".to_string(), "0".to_string()));
    assert_eq!(first.effect, "");
    assert_eq!(first.text, "Hello, world!");
    let second = file.get_line(1);
    assert_eq!(second.format, "Comment");
    assert_eq!(second.layer, 1);
    assert_eq!(second.end.hours, 1);
    assert_eq!(second.end.minutes, 2);
    assert_eq!(second.name, "Bob");
    assert_eq!(second.margin[0], ("10".to_string(), "20".to_string(), "30".to_string()));
    assert_eq!(second.effect, "fx");
    assert_eq!(second.text, "{\\i1}Hi");
}
