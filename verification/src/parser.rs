//! Reading a script line by line.
//!
//! A script is read in sections (`[Script Info]`, `[Aegisub Project Garbage]`,
//! `[V4+ Styles]`, `[Events]`). `interpret_line` says what one line means in
//! the current section; `AssParser` collects what the lines say; `parse_ass`
//! reads a whole script.

use vstd::prelude::*;
use vstd::hash_map::StringHashMap;
use crate::colour::{AssColour, ass_colour_value, is_ass_colour, is_ass_colour_text};
use crate::grammar::{
    EventSpans, StyleSpans, event_match, info_match, match_event, match_info, match_style,
    style_match, style_spans_wf,
};
use crate::lexical::{
    all_radix_digits, digit_of, digits_value, is_digit, is_f32_literal, is_f32_literal_at,
    parse_u8_radix, u8_from_str_radix,
};
use crate::subtitle::{
    AssStyle, AssStyleView, Line, LineView, ParseError, SubtitleFile, SubtitleFileView, Time,
    TimeView, lines_view, string_map_view, style_map_view,
};
use crate::text::{chars_of, string_from_range};

verus! {

/// The section of the script being read.
#[derive(Clone, Copy, PartialEq, Eq, Debug)]
pub enum State {
    /// Before the first section header.
    Start,
    /// `[Script Info]`.
    Info,
    /// `[Aegisub Project Garbage]`.
    AegisGarbage,
    /// `[V4+ Styles]`.
    Styles,
    /// `[Events]`.
    Events,
}

/// What one line of a script means.
pub enum LineAction {
    /// Nothing: an empty line, a format line, a comment, or a line before
    /// the first section.
    Skip,
    /// A section header.
    Enter(State),
    /// An entry of `[Script Info]`.
    InfoEntry(String, String),
    /// An entry of `[Aegisub Project Garbage]`.
    GarbageEntry(String, String),
    /// A style.
    StyleEntry(AssStyle),
    /// An event.
    Event(Line),
    /// The script is not a valid one, for the reason given.
    Reject(ParseError),
    /// A field of the line does not hold the number its place calls for;
    /// reading the script cannot go on.
    Abort,
}

/// What a `LineAction` holds.
pub enum Action {
    Skip,
    Enter(State),
    InfoEntry(Seq<char>, Seq<char>),
    GarbageEntry(Seq<char>, Seq<char>),
    StyleEntry(AssStyleView),
    Event(LineView),
    Reject(Seq<char>),
    Abort,
}

impl View for LineAction {
    type V = Action;

    open spec fn view(&self) -> Action {
        match self {
            LineAction::Skip => Action::Skip,
            LineAction::Enter(s) => Action::Enter(*s),
            LineAction::InfoEntry(k, v) => Action::InfoEntry(k@, v@),
            LineAction::GarbageEntry(k, v) => Action::GarbageEntry(k@, v@),
            LineAction::StyleEntry(st) => Action::StyleEntry(st@),
            LineAction::Event(l) => Action::Event(l@),
            LineAction::Reject(e) => Action::Reject(e@),
            LineAction::Abort => Action::Abort,
        }
    }
}

/// The reason given for a line that does not have the shape its section
/// calls for.
pub open spec fn not_ass_reason() -> Seq<char> {
    "Not an Ass File"@
}

/// The reason given for a style whose font size is empty: the debug form of
/// the error `f32::from_str` returns for an empty string.
pub open spec fn empty_float_reason() -> Seq<char> {
    "ParseFloatError { kind: Empty }"@
}

/// The format line of `[Events]`.
pub open spec fn event_format_line() -> Seq<char> {
    "Format: Layer, Start, End, Style, Name, MarginL, MarginR, MarginV, Effect, Text"@
}

/// The format line of `[V4+ Styles]`.
pub open spec fn style_format_line() -> Seq<char> {
    "Format: Name, Fontname, Fontsize, PrimaryColour, SecondaryColour, OutlineColour, BackColour, Bold, Italic, Underline, StrikeOut, ScaleX, ScaleY, Spacing, Angle, BorderStyle, Outline, Shadow, Alignment, MarginL, MarginR, MarginV, Encoding"@
}

/// The characters `l[a..b]`.
pub open spec fn span(l: Seq<char>, a: int, b: int) -> Seq<char> {
    l.subrange(a, b)
}

/// The value of the decimal digits `l[a..b]` as `str::parse::<u8>` gives it.
pub open spec fn u8_at(l: Seq<char>, a: int, b: int) -> u8 {
    u8_from_str_radix(span(l, a, b), 10).unwrap()
}

/// What an entry line `l` of an info section means.
pub open spec fn entry_action(l: Seq<char>, garbage: bool) -> Action {
    if l[0] == ';' {
        Action::Skip
    } else {
        match info_match(l) {
            None => Action::Reject(not_ass_reason()),
            Some(m) => {
                let key = span(l, m.start as int, m.separator as int);
                let value = span(l, m.separator + 2, m.end as int);
                if garbage {
                    Action::GarbageEntry(key, value)
                } else {
                    Action::InfoEntry(key, value)
                }
            },
        }
    }
}

/// The style that the style line `l`, matched as `m`, defines.
#[verifier::opaque]
pub open spec fn style_of(l: Seq<char>, m: StyleSpans) -> AssStyleView {
    let r = m.rest;
    let fs = r.fontsize_end as int;
    let minus_one = seq!['-', '1'];
    AssStyleView {
        name: span(l, m.format_end + 2, m.name_end as int),
        font_name: span(l, m.name_end + 1, m.fontname_end as int),
        font_size: span(l, m.fontname_end + 1, fs),
        primary_colour: ass_colour_value(span(l, fs + 1, fs + 11)),
        secondary_colour: ass_colour_value(span(l, fs + 12, fs + 22)),
        outline_colour: ass_colour_value(span(l, fs + 23, fs + 33)),
        back_colour: ass_colour_value(span(l, fs + 34, fs + 44)),
        bold: span(l, fs + 45, r.bold_end as int) == minus_one,
        italic: span(l, r.bold_end + 1, r.italic_end as int) == minus_one,
        underline: span(l, r.italic_end + 1, r.underline_end as int) == minus_one,
        strike_out: span(l, r.underline_end + 1, r.strike_out_end as int) == minus_one,
        scale: (
            span(l, r.strike_out_end + 1, r.scale_x_end as int),
            span(l, r.scale_x_end + 1, r.scale_y_end as int),
        ),
        spacing: span(l, r.scale_y_end + 1, r.spacing_end as int),
        angle: span(l, r.spacing_end + 1, r.angle_end as int),
        border_style: u8_at(l, r.angle_end + 1, r.border_style_end as int),
        outline: span(l, r.border_style_end + 1, r.outline_end as int),
        shadow: span(l, r.outline_end + 1, r.shadow_end as int),
        alignment: u8_at(l, r.shadow_end + 1, r.shadow_end + 2),
        margin: (
            span(l, r.shadow_end + 3, r.margin_l_end as int),
            span(l, r.margin_l_end + 1, r.margin_r_end as int),
            span(l, r.margin_r_end + 1, r.margin_v_end as int),
        ),
        encoding: u8_at(l, r.margin_v_end + 1, r.margin_v_end + 2),
    }
}

/// Some field of the style line `l`, matched as `m`, does not hold what its
/// place calls for: a colour that `from_ass_colour` cannot read, a
/// fractional number that is no `f32` literal, or a border style that is no
/// `u8`.
pub open spec fn style_is_broken(l: Seq<char>, m: StyleSpans) -> bool {
    let r = m.rest;
    let fs = r.fontsize_end as int;
    ||| !is_ass_colour(span(l, fs + 1, fs + 11))
    ||| !is_ass_colour(span(l, fs + 12, fs + 22))
    ||| !is_ass_colour(span(l, fs + 23, fs + 33))
    ||| !is_ass_colour(span(l, fs + 34, fs + 44))
    ||| !is_f32_literal(span(l, r.scale_y_end + 1, r.spacing_end as int))
    ||| !is_f32_literal(span(l, r.spacing_end + 1, r.angle_end as int))
    ||| u8_from_str_radix(span(l, r.angle_end + 1, r.border_style_end as int), 10) is None
    ||| !is_f32_literal(span(l, r.border_style_end + 1, r.outline_end as int))
    ||| !is_f32_literal(span(l, r.outline_end + 1, r.shadow_end as int))
    ||| !is_f32_literal(span(l, r.shadow_end + 3, r.margin_l_end as int))
    ||| !is_f32_literal(span(l, r.margin_l_end + 1, r.margin_r_end as int))
    ||| !is_f32_literal(span(l, r.margin_r_end + 1, r.margin_v_end as int))
}

/// What a line `l` of `[V4+ Styles]` means.
pub open spec fn style_action(l: Seq<char>) -> Action {
    match style_match(l) {
        None => Action::Reject(not_ass_reason()),
        Some(m) => if m.fontname_end + 1 == m.rest.fontsize_end {
            Action::Reject(empty_float_reason())
        } else if style_is_broken(l, m) {
            Action::Abort
        } else {
            Action::StyleEntry(style_of(l, m))
        },
    }
}

/// The time written by the clock `h:mm:ss.cc` that starts at `p`.
pub open spec fn clock_of(l: Seq<char>, p: int) -> TimeView {
    TimeView { hours: u8_at(l, p, p + 1), minutes: u8_at(l, p + 2, p + 4), seconds: span(l, p + 5, p + 10) }
}

/// The event that the event line `l`, matched as `m`, holds.
pub open spec fn event_of(l: Seq<char>, m: EventSpans) -> LineView {
    let q = m.layer_end as int;
    LineView {
        format: span(l, m.start as int, m.format_end as int),
        layer: u8_at(l, m.format_end + 2, q),
        start: clock_of(l, q + 1),
        end: clock_of(l, q + 12),
        style: span(l, q + 23, m.style_end as int),
        name: span(l, m.style_end + 1, m.name_end as int),
        margin: seq![
            (
                span(l, m.name_end + 1, m.margin_l_end as int),
                span(l, m.margin_l_end + 1, m.margin_r_end as int),
                span(l, m.margin_r_end + 1, m.margin_v_end as int),
            ),
        ],
        effect: span(l, m.margin_v_end + 1, m.effect_end as int),
        text: span(l, m.effect_end + 1, m.text_end as int),
    }
}

/// Some field of the event line `l`, matched as `m`, does not hold what its
/// place calls for: a layer that is no `u8`, seconds or margins that are no
/// `f32` literal.
pub open spec fn event_is_broken(l: Seq<char>, m: EventSpans) -> bool {
    let q = m.layer_end as int;
    ||| u8_from_str_radix(span(l, m.format_end + 2, q), 10) is None
    ||| !is_f32_literal(span(l, q + 6, q + 11))
    ||| !is_f32_literal(span(l, q + 17, q + 22))
    ||| !is_f32_literal(span(l, m.name_end + 1, m.margin_l_end as int))
    ||| !is_f32_literal(span(l, m.margin_l_end + 1, m.margin_r_end as int))
    ||| !is_f32_literal(span(l, m.margin_r_end + 1, m.margin_v_end as int))
}

/// What a line `l` of `[Events]` means.
pub open spec fn event_action(l: Seq<char>) -> Action {
    match event_match(l) {
        None => Action::Reject(not_ass_reason()),
        Some(m) => if event_is_broken(l, m) {
            Action::Abort
        } else {
            Action::Event(event_of(l, m))
        },
    }
}

/// What the line `l` means when read in section `state`.
pub open spec fn line_action(state: State, l: Seq<char>) -> Action {
    if l.len() == 0 {
        Action::Skip
    } else if l == "\u{feff}[Script Info]"@ || l == "[Script Info]"@ {
        Action::Enter(State::Info)
    } else if l == "[Aegisub Project Garbage]"@ {
        Action::Enter(State::AegisGarbage)
    } else if l == "[V4+ Styles]"@ {
        Action::Enter(State::Styles)
    } else if l == "[Events]"@ {
        Action::Enter(State::Events)
    } else if l == event_format_line() || l == style_format_line() {
        Action::Skip
    } else {
        match state {
            State::Start => Action::Skip,
            State::Info => entry_action(l, false),
            State::AegisGarbage => entry_action(l, true),
            State::Styles => style_action(l),
            State::Events => event_action(l),
        }
    }
}

/// The characters of `v` are those of `lit`.
fn chars_equal(v: &Vec<char>, lit: &str) -> (r: bool)
    ensures
        r == (v@ == lit@),
{
    let w = chars_of(lit);
    if v.len() != w.len() {
        return false;
    }
    let mut i: usize = 0;
    while i < v.len()
        invariant
            i <= v.len() == w.len(),
            w@ == lit@,
            forall|j: int| 0 <= j < i ==> v@[j] == w@[j],
        decreases v.len() - i,
    {
        if v[i] != w[i] {
            return false;
        }
        i = i + 1;
    }
    assert(v@ == w@);
    true
}

proof fn lemma_short_digits(s: Seq<char>)
    requires
        1 <= s.len() <= 2,
        forall|i: int| 0 <= i < s.len() ==> is_digit(#[trigger] s[i]),
    ensures
        u8_from_str_radix(s, 10) is Some,
{
    reveal_with_fuel(digits_value, 3);
    assert(s[0] != '+');
    assert forall|i: int| 0 <= i < s.len() implies (#[trigger] digit_of(s[i], 10)) is Some by {
        assert(is_digit(s[i]));
    }
    assert(all_radix_digits(s, 10));
    if s.len() == 2 {
        assert(s.drop_last().drop_last().len() == 0);
        assert(s.drop_last().last() == s[0]);
    }
}

/// `str::parse::<u8>` of `v[lo..hi]`, where those one or two characters are
/// digits.
fn small_number(v: &Vec<char>, lo: usize, hi: usize) -> (r: u8)
    requires
        lo < hi <= v.len(),
        hi - lo <= 2,
        forall|i: int| lo <= i < hi ==> is_digit(#[trigger] v@[i]),
    ensures
        r == u8_at(v@, lo as int, hi as int),
{
    proof {
        let s = v@.subrange(lo as int, hi as int);
        assert forall|i: int| 0 <= i < s.len() implies is_digit(#[trigger] s[i]) by {
            assert(s[i] == v@[lo + i]);
        }
        lemma_short_digits(s);
    }
    match parse_u8_radix(v, lo, hi, 10) {
        Some(x) => x,
        None => 0,
    }
}

fn entry_line(l: &Vec<char>, garbage: bool) -> (a: LineAction)
    requires
        l.len() > 0,
    ensures
        a@ == entry_action(l@, garbage),
{
    if l[0] == ';' {
        return LineAction::Skip;
    }
    match match_info(l) {
        None => LineAction::Reject(ParseError::new(String::from_str("Not an Ass File"))),
        Some(m) => {
            let key = string_from_range(l, m.start, m.separator);
            let value = string_from_range(l, m.separator + 2, m.end);
            if garbage {
                LineAction::GarbageEntry(key, value)
            } else {
                LineAction::InfoEntry(key, value)
            }
        },
    }
}

/// The time of the clock `h:mm:ss.cc` that starts at `p`.
fn clock_time(l: &Vec<char>, p: usize) -> (t: Time)
    requires
        crate::grammar::clock_at(l@, p as int),
    ensures
        t@ == clock_of(l@, p as int),
{
    assert(p + 10 < l.len());
    assert(is_digit(l@[p as int]));
    assert(is_digit(l@[p + 2]) && is_digit(l@[p + 3]));
    let hours = small_number(l, p, p + 1);
    let minutes = small_number(l, p + 2, p + 4);
    let seconds = string_from_range(l, p + 5, p + 10);
    Time { hours, minutes, seconds }
}

fn event_line(l: &Vec<char>) -> (a: LineAction)
    ensures
        a@ == event_action(l@),
{
    let m = match match_event(l) {
        None => return LineAction::Reject(ParseError::new(String::from_str("Not an Ass File"))),
        Some(m) => m,
    };
    let q = m.layer_end;
    assert(crate::grammar::clock_at(l@, q + 1) && crate::grammar::clock_at(l@, q + 12));
    let layer = match parse_u8_radix(l, m.format_end + 2, q, 10) {
        Some(x) => x,
        None => return LineAction::Abort,
    };
    if !is_f32_literal_at(l, q + 6, q + 11) || !is_f32_literal_at(l, q + 17, q + 22)
        || !is_f32_literal_at(l, m.name_end + 1, m.margin_l_end) || !is_f32_literal_at(
        l,
        m.margin_l_end + 1,
        m.margin_r_end,
    ) || !is_f32_literal_at(l, m.margin_r_end + 1, m.margin_v_end) {
        return LineAction::Abort;
    }
    let start = clock_time(l, q + 1);
    let end = clock_time(l, q + 12);
    let mut margin: Vec<(String, String, String)> = Vec::new();
    margin.push(
        (
            string_from_range(l, m.name_end + 1, m.margin_l_end),
            string_from_range(l, m.margin_l_end + 1, m.margin_r_end),
            string_from_range(l, m.margin_r_end + 1, m.margin_v_end),
        ),
    );
    let line = Line {
        format: string_from_range(l, m.start, m.format_end),
        layer,
        start,
        end,
        style: string_from_range(l, q + 23, m.style_end),
        name: string_from_range(l, m.style_end + 1, m.name_end),
        margin,
        effect: string_from_range(l, m.margin_v_end + 1, m.effect_end),
        text: string_from_range(l, m.effect_end + 1, m.text_end),
    };
    assert(crate::subtitle::margins_view(line.margin@) =~= event_of(l@, m).margin);
    LineAction::Event(line)
}

/// The characters `v[lo..hi]` are `-1`.
fn is_minus_one(v: &Vec<char>, lo: usize, hi: usize) -> (r: bool)
    requires
        lo <= hi <= v.len(),
    ensures
        r == (v@.subrange(lo as int, hi as int) == seq!['-', '1']),
{
    let r = hi - lo == 2 && v[lo] == '-' && v[lo + 1] == '1';
    assert(seq!['-', '1'].len() == 2 && seq!['-', '1'][0] == '-' && seq!['-', '1'][1] == '1');
    if hi - lo == 2 {
        assert(v@.subrange(lo as int, hi as int)[0] == v@[lo as int]);
        assert(v@.subrange(lo as int, hi as int)[1] == v@[lo + 1]);
        if r {
            assert(v@.subrange(lo as int, hi as int) =~= seq!['-', '1']);
        }
    }
    r
}

/// The colour written at `v[lo..lo + 10]`, or `None` where `from_ass_colour`
/// would panic on it.
fn read_colour_at(v: &Vec<char>, lo: usize) -> (r: Option<AssColour>)
    requires
        lo + 10 <= v.len(),
    ensures
        match r {
            Some(c) => is_ass_colour(v@.subrange(lo as int, lo + 10)) && c == ass_colour_value(
                v@.subrange(lo as int, lo + 10),
            ),
            None => !is_ass_colour(v@.subrange(lo as int, lo + 10)),
        },
{
    let text = string_from_range(v, lo, lo + 10);
    if is_ass_colour_text(text.as_str()) {
        Some(AssColour::from_ass_colour(text))
    } else {
        None
    }
}

/// The fractional numbers and the border style of the style line `l`,
/// matched as `m`, are all readable.
fn style_numbers_readable(l: &Vec<char>, m: StyleSpans) -> (ok: bool)
    requires
        style_spans_wf(m, l.len() as int),
    ensures
        ok == {
            let r = m.rest;
            &&& is_f32_literal(span(l@, r.scale_y_end + 1, r.spacing_end as int))
            &&& is_f32_literal(span(l@, r.spacing_end + 1, r.angle_end as int))
            &&& u8_from_str_radix(span(l@, r.angle_end + 1, r.border_style_end as int), 10) is Some
            &&& is_f32_literal(span(l@, r.border_style_end + 1, r.outline_end as int))
            &&& is_f32_literal(span(l@, r.outline_end + 1, r.shadow_end as int))
            &&& is_f32_literal(span(l@, r.shadow_end + 3, r.margin_l_end as int))
            &&& is_f32_literal(span(l@, r.margin_l_end + 1, r.margin_r_end as int))
            &&& is_f32_literal(span(l@, r.margin_r_end + 1, r.margin_v_end as int))
        },
{
    let r = m.rest;
    is_f32_literal_at(l, r.scale_y_end + 1, r.spacing_end) && is_f32_literal_at(
        l,
        r.spacing_end + 1,
        r.angle_end,
    ) && parse_u8_radix(l, r.angle_end + 1, r.border_style_end, 10).is_some() && is_f32_literal_at(
        l,
        r.border_style_end + 1,
        r.outline_end,
    ) && is_f32_literal_at(l, r.outline_end + 1, r.shadow_end) && is_f32_literal_at(
        l,
        r.shadow_end + 3,
        r.margin_l_end,
    ) && is_f32_literal_at(l, r.margin_l_end + 1, r.margin_r_end) && is_f32_literal_at(
        l,
        r.margin_r_end + 1,
        r.margin_v_end,
    )
}

/// The style that the style line `l`, matched as `m`, defines, given its
/// colours.
#[verifier::rlimit(30)]
fn build_style(
    l: &Vec<char>,
    m: StyleSpans,
    primary_colour: AssColour,
    secondary_colour: AssColour,
    outline_colour: AssColour,
    back_colour: AssColour,
) -> (st: AssStyle)
    requires
        style_spans_wf(m, l.len() as int),
        crate::grammar::style_digits(m.rest, l@),
        u8_from_str_radix(span(l@, m.rest.angle_end + 1, m.rest.border_style_end as int), 10) is Some,
        primary_colour == ass_colour_value(span(l@, m.rest.fontsize_end + 1, m.rest.fontsize_end + 11)),
        secondary_colour == ass_colour_value(span(l@, m.rest.fontsize_end + 12, m.rest.fontsize_end + 22)),
        outline_colour == ass_colour_value(span(l@, m.rest.fontsize_end + 23, m.rest.fontsize_end + 33)),
        back_colour == ass_colour_value(span(l@, m.rest.fontsize_end + 34, m.rest.fontsize_end + 44)),
    ensures
        st@ == style_of(l@, m),
{
    reveal(style_of);
    let r = m.rest;
    let fs = r.fontsize_end;
    let border_style = match parse_u8_radix(l, r.angle_end + 1, r.border_style_end, 10) {
        Some(x) => x,
        None => 0,
    };
    let alignment = small_number(l, r.shadow_end + 1, r.shadow_end + 2);
    let encoding = small_number(l, r.margin_v_end + 1, r.margin_v_end + 2);
    AssStyle {
        name: string_from_range(l, m.format_end + 2, m.name_end),
        font_name: string_from_range(l, m.name_end + 1, m.fontname_end),
        font_size: string_from_range(l, m.fontname_end + 1, fs),
        primary_colour,
        secondary_colour,
        outline_colour,
        back_colour,
        bold: is_minus_one(l, fs + 45, r.bold_end),
        italic: is_minus_one(l, r.bold_end + 1, r.italic_end),
        underline: is_minus_one(l, r.italic_end + 1, r.underline_end),
        strike_out: is_minus_one(l, r.underline_end + 1, r.strike_out_end),
        scale: (
            string_from_range(l, r.strike_out_end + 1, r.scale_x_end),
            string_from_range(l, r.scale_x_end + 1, r.scale_y_end),
        ),
        spacing: string_from_range(l, r.scale_y_end + 1, r.spacing_end),
        angle: string_from_range(l, r.spacing_end + 1, r.angle_end),
        border_style,
        outline: string_from_range(l, r.border_style_end + 1, r.outline_end),
        shadow: string_from_range(l, r.outline_end + 1, r.shadow_end),
        alignment,
        margin: (
            string_from_range(l, r.shadow_end + 3, r.margin_l_end),
            string_from_range(l, r.margin_l_end + 1, r.margin_r_end),
            string_from_range(l, r.margin_r_end + 1, r.margin_v_end),
        ),
        encoding,
    }
}

fn style_line(l: &Vec<char>) -> (a: LineAction)
    ensures
        a@ == style_action(l@),
{
    let m = match match_style(l) {
        None => return LineAction::Reject(ParseError::new(String::from_str("Not an Ass File"))),
        Some(m) => m,
    };
    let fs = m.rest.fontsize_end;
    if m.fontname_end + 1 == fs {
        return LineAction::Reject(
            ParseError::new(String::from_str("ParseFloatError { kind: Empty }")),
        );
    }
    let primary_colour = match read_colour_at(l, fs + 1) {
        Some(c) => c,
        None => return LineAction::Abort,
    };
    let secondary_colour = match read_colour_at(l, fs + 12) {
        Some(c) => c,
        None => return LineAction::Abort,
    };
    let outline_colour = match read_colour_at(l, fs + 23) {
        Some(c) => c,
        None => return LineAction::Abort,
    };
    let back_colour = match read_colour_at(l, fs + 34) {
        Some(c) => c,
        None => return LineAction::Abort,
    };
    if !style_numbers_readable(l, m) {
        return LineAction::Abort;
    }
    let style = build_style(l, m, primary_colour, secondary_colour, outline_colour, back_colour);
    LineAction::StyleEntry(style)
}

/// What the line `line` means when read in section `state`. `Abort` marks
/// the lines on which reading the script cannot go on.
pub fn interpret_line(state: State, line: &str) -> (a: LineAction)
    ensures
        a@ == line_action(state, line@),
{
    let l = chars_of(line);
    if l.len() == 0 {
        return LineAction::Skip;
    }
    if chars_equal(&l, "\u{feff}[Script Info]") || chars_equal(&l, "[Script Info]") {
        return LineAction::Enter(State::Info);
    }
    if chars_equal(&l, "[Aegisub Project Garbage]") {
        return LineAction::Enter(State::AegisGarbage);
    }
    if chars_equal(&l, "[V4+ Styles]") {
        return LineAction::Enter(State::Styles);
    }
    if chars_equal(&l, "[Events]") {
        return LineAction::Enter(State::Events);
    }
    if chars_equal(&l, "Format: Layer, Start, End, Style, Name, MarginL, MarginR, MarginV, Effect, Text")
        || chars_equal(
        &l,
        "Format: Name, Fontname, Fontsize, PrimaryColour, SecondaryColour, OutlineColour, BackColour, Bold, Italic, Underline, StrikeOut, ScaleX, ScaleY, Spacing, Angle, BorderStyle, Outline, Shadow, Alignment, MarginL, MarginR, MarginV, Encoding",
    ) {
        return LineAction::Skip;
    }
    match state {
        State::Start => LineAction::Skip,
        State::Info => entry_line(&l, false),
        State::AegisGarbage => entry_line(&l, true),
        State::Styles => style_line(&l),
        State::Events => event_line(&l),
    }
}

// ---------------------------------------------------------------------------
// Reading a whole script

/// What has been read of a script so far.
pub struct ParserView {
    pub state: State,
    pub script_info: Map<Seq<char>, Seq<char>>,
    pub aegis_garbage: Map<Seq<char>, Seq<char>>,
    pub styles: Map<Seq<char>, AssStyleView>,
    pub lines: Seq<LineView>,
}

/// Nothing read yet.
pub open spec fn initial_parser() -> ParserView {
    ParserView {
        state: State::Start,
        script_info: Map::empty(),
        aegis_garbage: Map::empty(),
        styles: Map::empty(),
        lines: Seq::empty(),
    }
}

/// What has been read once a line that means `a` is read after `p`. A later
/// entry or style with the same name replaces an earlier one; events are
/// kept in order.
pub open spec fn next_parser(p: ParserView, a: Action) -> ParserView {
    match a {
        Action::Enter(s) => ParserView { state: s, ..p },
        Action::InfoEntry(k, v) => ParserView { script_info: p.script_info.insert(k, v), ..p },
        Action::GarbageEntry(k, v) => ParserView { aegis_garbage: p.aegis_garbage.insert(k, v), ..p },
        Action::StyleEntry(st) => ParserView { styles: p.styles.insert(st.name, st), ..p },
        Action::Event(line) => ParserView { lines: p.lines.push(line), ..p },
        _ => p,
    }
}

/// How reading the lines `lines` after `p` ends.
pub enum Outcome {
    /// All lines were read.
    Read(ParserView),
    /// A line, read in the section given, is rejected for the reason given.
    Rejected(Seq<char>, State),
    /// A line cannot be read on (`LineAction::Abort`).
    Aborted,
}

/// Reads `lines` one by one after `p`, stopping at the first line rejected
/// or aborted.
pub open spec fn read_lines(p: ParserView, lines: Seq<Seq<char>>) -> Outcome
    decreases lines.len(),
{
    if lines.len() == 0 {
        Outcome::Read(p)
    } else {
        let a = line_action(p.state, lines[0]);
        match a {
            Action::Abort => Outcome::Aborted,
            Action::Reject(r) => Outcome::Rejected(r, p.state),
            _ => read_lines(next_parser(p, a), lines.drop_first()),
        }
    }
}

/// The value a map gives `k`, or the empty string.
pub open spec fn value_or_empty(m: Map<Seq<char>, Seq<char>>, k: Seq<char>) -> Seq<char> {
    if m.contains_key(k) {
        m[k]
    } else {
        Seq::empty()
    }
}

/// The file made of what was read: the video and audio files are the
/// `Video File` and `Audio File` entries of `[Aegisub Project Garbage]`.
pub open spec fn finished_file(p: ParserView, file_name: Seq<char>) -> SubtitleFileView {
    SubtitleFileView {
        file_name,
        script_info: p.script_info,
        styles: p.styles,
        video: value_or_empty(p.aegis_garbage, "Video File"@),
        audio: value_or_empty(p.aegis_garbage, "Audio File"@),
        lines: p.lines,
    }
}

/// Collects what the lines of a script say.
pub struct AssParser {
    state: State,
    script_info: StringHashMap<String>,
    aegis_garbage: StringHashMap<String>,
    styles: StringHashMap<AssStyle>,
    lines: Vec<Line>,
}

impl View for AssParser {
    type V = ParserView;

    closed spec fn view(&self) -> ParserView {
        ParserView {
            state: self.state,
            script_info: string_map_view(self.script_info@),
            aegis_garbage: string_map_view(self.aegis_garbage@),
            styles: style_map_view(self.styles@),
            lines: lines_view(self.lines@),
        }
    }
}

impl AssParser {
    /// A parser that has read nothing.
    pub fn new() -> (p: AssParser)
        ensures
            p@ == initial_parser(),
    {
        let p = AssParser {
            state: State::Start,
            script_info: StringHashMap::new(),
            aegis_garbage: StringHashMap::new(),
            styles: StringHashMap::new(),
            lines: Vec::new(),
        };
        assert(string_map_view(p.script_info@) =~= Map::empty());
        assert(string_map_view(p.aegis_garbage@) =~= Map::empty());
        assert(style_map_view(p.styles@) =~= Map::empty());
        assert(lines_view(p.lines@) =~= Seq::empty());
        p
    }

    /// The section being read.
    pub fn state(&self) -> (s: State)
        ensures
            s == self@.state,
    {
        self.state
    }

    /// Takes in what a line means: a rejection is handed back, anything
    /// else is recorded.
    pub fn apply(&mut self, action: LineAction) -> (r: Result<(), ParseError>)
        requires
            !(action@ is Abort),
        ensures
            match action@ {
                Action::Reject(reason) => r matches Err(e) && e@ == reason && final(self)@ == old(self)@,
                _ => r is Ok && final(self)@ == next_parser(old(self)@, action@),
            },
    {
        match action {
            LineAction::Skip => Ok(()),
            LineAction::Enter(s) => {
                self.state = s;
                Ok(())
            },
            LineAction::InfoEntry(k, v) => {
                let ghost kv = k@;
                let ghost vv = v@;
                self.script_info.insert(k, v);
                assert(string_map_view(self.script_info@) =~= string_map_view(
                    old(self).script_info@,
                ).insert(kv, vv));
                Ok(())
            },
            LineAction::GarbageEntry(k, v) => {
                let ghost kv = k@;
                let ghost vv = v@;
                self.aegis_garbage.insert(k, v);
                assert(string_map_view(self.aegis_garbage@) =~= string_map_view(
                    old(self).aegis_garbage@,
                ).insert(kv, vv));
                Ok(())
            },
            LineAction::StyleEntry(st) => {
                let ghost sv = st@;
                let name = st.name.clone();
                self.styles.insert(name, st);
                assert(style_map_view(self.styles@) =~= style_map_view(old(self).styles@).insert(
                    sv.name,
                    sv,
                ));
                Ok(())
            },
            LineAction::Event(line) => {
                self.lines.push(line);
                assert(lines_view(self.lines@) =~= lines_view(old(self).lines@).push(action@->Event_0));
                Ok(())
            },
            LineAction::Reject(e) => Err(e),
            LineAction::Abort => Ok(()),
        }
    }

    /// The file made of what was read, named `file_name`.
    pub fn finish(self, file_name: String) -> (f: SubtitleFile)
        ensures
            f@ == finished_file(self@, file_name@),
    {
        let video = match self.aegis_garbage.get("Video File") {
            Some(v) => v.clone(),
            None => String::new(),
        };
        let audio = match self.aegis_garbage.get("Audio File") {
            Some(a) => a.clone(),
            None => String::new(),
        };
        SubtitleFile::from_parts(file_name, self.script_info, self.styles, video, audio, self.lines)
    }
}

/// The view of each line of a script.
pub open spec fn text_lines_view(lines: Seq<String>) -> Seq<Seq<char>> {
    lines.map_values(|s: String| s@)
}

/// How reading a whole script ends.
pub enum ScriptOutcome {
    /// All lines were read, giving this file.
    Parsed(SubtitleFile),
    /// A line, read in the section given, is rejected for the reason given.
    Rejected(ParseError, State),
    /// A line cannot be read on (`LineAction::Abort`).
    Aborted,
}

/// Reads the script whose lines are `lines` (without their line breaks),
/// read from the file `file_name`, line by line, stopping at the first line
/// rejected or aborted.
pub fn read_script(file_name: String, lines: &Vec<String>) -> (r: ScriptOutcome)
    ensures
        match read_lines(initial_parser(), text_lines_view(lines@)) {
            Outcome::Read(p) => r matches ScriptOutcome::Parsed(f) && f@ == finished_file(p, file_name@),
            Outcome::Rejected(reason, state) => r matches ScriptOutcome::Rejected(e, s) && e@ == reason
                && s == state,
            Outcome::Aborted => r is Aborted,
        },
{
    let ghost all = text_lines_view(lines@);
    let mut parser = AssParser::new();
    let mut i: usize = 0;
    assert(all.skip(0) =~= all);
    while i < lines.len()
        invariant
            i <= lines.len(),
            all == text_lines_view(lines@),
            read_lines(initial_parser(), all) == read_lines(parser@, all.skip(i as int)),
        decreases lines.len() - i,
    {
        let ghost rest = all.skip(i as int);
        assert(rest[0] == lines@[i as int]@);
        assert(rest.drop_first() == all.skip(i + 1));
        let state = parser.state();
        let action = interpret_line(state, lines[i].as_str());
        if let LineAction::Abort = action {
            return ScriptOutcome::Aborted;
        }
        match parser.apply(action) {
            Ok(()) => {},
            Err(e) => return ScriptOutcome::Rejected(e, state),
        }
        i = i + 1;
    }
    assert(all.skip(i as int).len() == 0);
    ScriptOutcome::Parsed(parser.finish(file_name))
}

/// Reads the script whose lines are `lines` (without their line breaks),
/// read from the file `file_name`; no line of it may abort.
pub fn parse_ass(file_name: String, lines: &Vec<String>) -> (r: Result<SubtitleFile, ParseError>)
    requires
        !(read_lines(initial_parser(), text_lines_view(lines@)) is Aborted),
    ensures
        match read_lines(initial_parser(), text_lines_view(lines@)) {
            Outcome::Read(p) => r matches Ok(f) && f@ == finished_file(p, file_name@),
            Outcome::Rejected(reason, _) => r matches Err(e) && e@ == reason,
            Outcome::Aborted => false,
        },
{
    match read_script(file_name, lines) {
        ScriptOutcome::Parsed(f) => Ok(f),
        ScriptOutcome::Rejected(e, _) => Err(e),
        ScriptOutcome::Aborted => Err(ParseError::new(String::new())),
    }
}

} // verus!
