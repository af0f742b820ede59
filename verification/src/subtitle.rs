//! The parts of a script: times, dialogue lines, styles, and the parsed file.

use vstd::prelude::*;
use vstd::hash_map::StringHashMap;
use crate::colour::AssColour;

verus! {

/// A point in time as a script writes it, `h:mm:ss.cc`.
pub struct Time {
    pub hours: u8,
    pub minutes: u8,
    /// The seconds as written (five characters, such as `05.20`), a literal
    /// that `f32::from_str` accepts.
    pub seconds: String,
}

/// What a `Time` holds.
pub struct TimeView {
    pub hours: u8,
    pub minutes: u8,
    pub seconds: Seq<char>,
}

impl View for Time {
    type V = TimeView;

    open spec fn view(&self) -> TimeView {
        TimeView { hours: self.hours, minutes: self.minutes, seconds: self.seconds@ }
    }
}

impl Clone for Time {
    fn clone(&self) -> (t: Self)
        ensures
            t@ == self@,
    {
        Time { hours: self.hours, minutes: self.minutes, seconds: self.seconds.clone() }
    }
}

/// One event of the `[Events]` section.
pub struct Line {
    /// The kind of event (`Dialogue`, `Comment`, ...).
    pub format: String,
    pub layer: u8,
    pub start: Time,
    pub end: Time,
    pub style: String,
    pub name: String,
    /// Left, right and vertical margins as written (digits).
    pub margin: Vec<(String, String, String)>,
    pub effect: String,
    pub text: String,
}

/// What a `Line` holds.
pub struct LineView {
    pub format: Seq<char>,
    pub layer: u8,
    pub start: TimeView,
    pub end: TimeView,
    pub style: Seq<char>,
    pub name: Seq<char>,
    pub margin: Seq<(Seq<char>, Seq<char>, Seq<char>)>,
    pub effect: Seq<char>,
    pub text: Seq<char>,
}

/// The view of each margin triple.
pub open spec fn margins_view(m: Seq<(String, String, String)>) -> Seq<(Seq<char>, Seq<char>, Seq<char>)> {
    m.map_values(|t: (String, String, String)| (t.0@, t.1@, t.2@))
}

impl View for Line {
    type V = LineView;

    open spec fn view(&self) -> LineView {
        LineView {
            format: self.format@,
            layer: self.layer,
            start: self.start@,
            end: self.end@,
            style: self.style@,
            name: self.name@,
            margin: margins_view(self.margin@),
            effect: self.effect@,
            text: self.text@,
        }
    }
}

fn clone_margins(m: &Vec<(String, String, String)>) -> (r: Vec<(String, String, String)>)
    ensures
        margins_view(r@) == margins_view(m@),
{
    let mut r: Vec<(String, String, String)> = Vec::new();
    let mut i: usize = 0;
    while i < m.len()
        invariant
            i <= m.len(),
            margins_view(r@) == margins_view(m@).take(i as int),
        decreases m.len() - i,
    {
        let t = &m[i];
        r.push((t.0.clone(), t.1.clone(), t.2.clone()));
        assert(margins_view(m@).take(i + 1) == margins_view(m@).take(i as int).push(
            margins_view(m@)[i as int],
        ));
        i = i + 1;
    }
    r
}

impl Clone for Line {
    fn clone(&self) -> (l: Self)
        ensures
            l@ == self@,
    {
        Line {
            format: self.format.clone(),
            layer: self.layer,
            start: self.start.clone(),
            end: self.end.clone(),
            style: self.style.clone(),
            name: self.name.clone(),
            margin: clone_margins(&self.margin),
            effect: self.effect.clone(),
            text: self.text.clone(),
        }
    }
}

/// A style of the `[V4+ Styles]` section. Numbers that the format allows to
/// be fractional are kept as written: each is a literal that
/// `f32::from_str` accepts.
pub struct AssStyle {
    pub name: String,
    pub font_name: String,
    /// Digits.
    pub font_size: String,
    pub primary_colour: AssColour,
    pub secondary_colour: AssColour,
    pub outline_colour: AssColour,
    pub back_colour: AssColour,
    pub bold: bool,
    pub italic: bool,
    pub underline: bool,
    pub strike_out: bool,
    /// Horizontal and vertical scale in percent, one to three digits each.
    pub scale: (String, String),
    pub spacing: String,
    pub angle: String,
    pub border_style: u8,
    pub outline: String,
    pub shadow: String,
    pub alignment: u8,
    /// Left, right and vertical margins.
    pub margin: (String, String, String),
    pub encoding: u8,
}

/// What an `AssStyle` holds.
pub struct AssStyleView {
    pub name: Seq<char>,
    pub font_name: Seq<char>,
    pub font_size: Seq<char>,
    pub primary_colour: AssColour,
    pub secondary_colour: AssColour,
    pub outline_colour: AssColour,
    pub back_colour: AssColour,
    pub bold: bool,
    pub italic: bool,
    pub underline: bool,
    pub strike_out: bool,
    pub scale: (Seq<char>, Seq<char>),
    pub spacing: Seq<char>,
    pub angle: Seq<char>,
    pub border_style: u8,
    pub outline: Seq<char>,
    pub shadow: Seq<char>,
    pub alignment: u8,
    pub margin: (Seq<char>, Seq<char>, Seq<char>),
    pub encoding: u8,
}

impl View for AssStyle {
    type V = AssStyleView;

    open spec fn view(&self) -> AssStyleView {
        AssStyleView {
            name: self.name@,
            font_name: self.font_name@,
            font_size: self.font_size@,
            primary_colour: self.primary_colour,
            secondary_colour: self.secondary_colour,
            outline_colour: self.outline_colour,
            back_colour: self.back_colour,
            bold: self.bold,
            italic: self.italic,
            underline: self.underline,
            strike_out: self.strike_out,
            scale: (self.scale.0@, self.scale.1@),
            spacing: self.spacing@,
            angle: self.angle@,
            border_style: self.border_style,
            outline: self.outline@,
            shadow: self.shadow@,
            alignment: self.alignment,
            margin: (self.margin.0@, self.margin.1@, self.margin.2@),
            encoding: self.encoding,
        }
    }
}

/// Why a script could not be read.
#[derive(Debug)]
pub struct ParseError {
    reason: String,
}

impl View for ParseError {
    type V = Seq<char>;

    closed spec fn view(&self) -> Seq<char> {
        self.reason@
    }
}

impl ParseError {
    /// An error with the given reason.
    pub fn new(reason: String) -> (e: ParseError)
        ensures
            e@ == reason@,
    {
        ParseError { reason }
    }

    /// The reason.
    pub fn get_reason(self) -> (r: String)
        ensures
            r@ == self@,
    {
        self.reason
    }
}

/// The view of a map from names to strings.
pub open spec fn string_map_view(m: Map<Seq<char>, String>) -> Map<Seq<char>, Seq<char>> {
    m.map_values(|v: String| v@)
}

/// The view of a map from names to styles.
pub open spec fn style_map_view(m: Map<Seq<char>, AssStyle>) -> Map<Seq<char>, AssStyleView> {
    m.map_values(|v: AssStyle| v@)
}

/// The view of a sequence of lines.
pub open spec fn lines_view(s: Seq<Line>) -> Seq<LineView> {
    s.map_values(|l: Line| l@)
}

/// A parsed script.
pub struct SubtitleFile {
    file_name: String,
    script_info: StringHashMap<String>,
    styles: StringHashMap<AssStyle>,
    video: String,
    audio: String,
    lines: Vec<Line>,
}

/// What a `SubtitleFile` holds.
pub struct SubtitleFileView {
    pub file_name: Seq<char>,
    /// The entries of `[Script Info]`.
    pub script_info: Map<Seq<char>, Seq<char>>,
    /// The styles, by name.
    pub styles: Map<Seq<char>, AssStyleView>,
    /// The video file that `[Aegisub Project Garbage]` names, or empty.
    pub video: Seq<char>,
    /// The audio file that `[Aegisub Project Garbage]` names, or empty.
    pub audio: Seq<char>,
    /// The events, in the order of the file.
    pub lines: Seq<LineView>,
}

impl View for SubtitleFile {
    type V = SubtitleFileView;

    closed spec fn view(&self) -> SubtitleFileView {
        SubtitleFileView {
            file_name: self.file_name@,
            script_info: string_map_view(self.script_info@),
            styles: style_map_view(self.styles@),
            video: self.video@,
            audio: self.audio@,
            lines: lines_view(self.lines@),
        }
    }
}

impl Default for SubtitleFile {
    fn default() -> (f: Self)
        ensures
            f@.file_name.len() == 0,
            f@.script_info == Map::<Seq<char>, Seq<char>>::empty(),
            f@.styles == Map::<Seq<char>, AssStyleView>::empty(),
            f@.video.len() == 0,
            f@.audio.len() == 0,
            f@.lines.len() == 0,
    {
        let f = SubtitleFile {
            file_name: String::new(),
            script_info: StringHashMap::new(),
            styles: StringHashMap::new(),
            video: String::new(),
            audio: String::new(),
            lines: Vec::new(),
        };
        assert(string_map_view(f.script_info@) =~= Map::<Seq<char>, Seq<char>>::empty());
        assert(style_map_view(f.styles@) =~= Map::<Seq<char>, AssStyleView>::empty());
        f
    }
}

impl SubtitleFile {
    /// Assembles a file from its parts.
    pub(crate) fn from_parts(
        file_name: String,
        script_info: StringHashMap<String>,
        styles: StringHashMap<AssStyle>,
        video: String,
        audio: String,
        lines: Vec<Line>,
    ) -> (f: SubtitleFile)
        ensures
            f@ == (SubtitleFileView {
                file_name: file_name@,
                script_info: string_map_view(script_info@),
                styles: style_map_view(styles@),
                video: video@,
                audio: audio@,
                lines: lines_view(lines@),
            }),
    {
        SubtitleFile { file_name, script_info, styles, video, audio, lines }
    }

    /// The name of the file the script was read from.
    pub fn get_name(&self) -> (n: String)
        ensures
            n@ == self@.file_name,
    {
        self.file_name.clone()
    }

    /// A copy of the event at index `l`.
    pub fn get_line(&self, l: usize) -> (line: Line)
        requires
            l < self@.lines.len(),
        ensures
            line@ == self@.lines[l as int],
    {
        self.lines[l].clone()
    }

    /// A copy of all events.
    pub fn get_lines(&self) -> (lines: Vec<Line>)
        ensures
            lines_view(lines@) == self@.lines,
    {
        let mut r: Vec<Line> = Vec::new();
        let mut i: usize = 0;
        while i < self.lines.len()
            invariant
                i <= self.lines.len(),
                lines_view(r@) == lines_view(self.lines@).take(i as int),
            decreases self.lines.len() - i,
        {
            r.push(self.lines[i].clone());
            assert(lines_view(self.lines@).take(i + 1) == lines_view(self.lines@).take(i as int).push(
                lines_view(self.lines@)[i as int],
            ));
            i = i + 1;
        }
        assert(lines_view(self.lines@).take(self.lines.len() as int) == lines_view(self.lines@));
        r
    }

    /// The number of events.
    pub fn get_number_of_line(&self) -> (n: usize)
        ensures
            n == self@.lines.len(),
    {
        self.lines.len()
    }

    /// The video file the script names.
    pub fn get_video(&self) -> (v: String)
        ensures
            v@ == self@.video,
    {
        self.video.clone()
    }

    /// The audio file the script names.
    pub fn get_audio(&self) -> (a: String)
        ensures
            a@ == self@.audio,
    {
        self.audio.clone()
    }
}

} // verus!
