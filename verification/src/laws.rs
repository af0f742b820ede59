//! What holds of reading scripts as a whole.

use vstd::prelude::*;
use crate::colour::ass_colour_value;
use crate::grammar::{event_match, info_match, style_match};
use crate::lexical::u8_from_str_radix;
use crate::parser::{
    Action, Outcome, ParserView, State, event_format_line, event_is_broken, event_of, finished_file,
    initial_parser, line_action, next_parser, read_lines, style_format_line, style_is_broken,
    style_of,
};
use crate::subtitle::TimeView;

verus! {

/// Reading `a` and then `b` is reading `a + b`: the lines after `a` are read
/// in the state that `a` leaves, and nothing after a rejected or aborted
/// line is read.
pub proof fn reading_continues(p: ParserView, a: Seq<Seq<char>>, b: Seq<Seq<char>>)
    ensures
        read_lines(p, a + b) == match read_lines(p, a) {
            Outcome::Read(q) => read_lines(q, b),
            other => other,
        },
    decreases a.len(),
{
    if a.len() == 0 {
        assert(a + b =~= b);
    } else {
        assert((a + b)[0] == a[0]);
        assert((a + b).drop_first() =~= a.drop_first() + b);
        let act = line_action(p.state, a[0]);
        match act {
            Action::Abort => {},
            Action::Reject(_) => {},
            _ => {
                reading_continues(next_parser(p, act), a.drop_first(), b);
            },
        }
    }
}

/// A line that means nothing in any section can be taken out of a script
/// without changing what reading it gives.
proof fn idle_line_is_ignored(p: ParserView, before: Seq<Seq<char>>, l: Seq<char>, after: Seq<Seq<char>>)
    requires
        forall|s: State| #[trigger] line_action(s, l) == Action::Skip,
    ensures
        read_lines(p, before + seq![l] + after) == read_lines(p, before + after),
{
    reading_continues(p, before, seq![l] + after);
    reading_continues(p, before, after);
    assert(before + seq![l] + after =~= before + (seq![l] + after));
    if let Outcome::Read(q) = read_lines(p, before) {
        let rest = seq![l] + after;
        assert(rest[0] == l);
        assert(rest.drop_first() =~= after);
        assert(line_action(q.state, l) == Action::Skip);
        assert(next_parser(q, Action::Skip) == q);
    }
}

/// Empty lines are ignored: taking an empty line out of a script, anywhere,
/// does not change what reading it gives.
pub proof fn empty_lines_are_ignored(p: ParserView, before: Seq<Seq<char>>, after: Seq<Seq<char>>)
    ensures
        read_lines(p, before + seq![Seq::<char>::empty()] + after) == read_lines(p, before + after),
{
    idle_line_is_ignored(p, before, Seq::empty(), after);
}

/// The `Format:` lines of the styles and events sections are ignored in any
/// section: taking one out of a script does not change what reading it gives.
pub proof fn format_lines_are_ignored(p: ParserView, before: Seq<Seq<char>>, after: Seq<Seq<char>>)
    ensures
        read_lines(p, before + seq![event_format_line()] + after) == read_lines(p, before + after),
        read_lines(p, before + seq![style_format_line()] + after) == read_lines(p, before + after),
{
    reveal_strlit("Format: Layer, Start, End, Style, Name, MarginL, MarginR, MarginV, Effect, Text");
    reveal_strlit(
        "Format: Name, Fontname, Fontsize, PrimaryColour, SecondaryColour, OutlineColour, BackColour, Bold, Italic, Underline, StrikeOut, ScaleX, ScaleY, Spacing, Angle, BorderStyle, Outline, Shadow, Alignment, MarginL, MarginR, MarginV, Encoding",
    );
    reveal_strlit("\u{feff}[Script Info]");
    reveal_strlit("[Script Info]");
    reveal_strlit("[Aegisub Project Garbage]");
    reveal_strlit("[V4+ Styles]");
    reveal_strlit("[Events]");
    assert forall|s: State| #[trigger] line_action(s, event_format_line()) == Action::Skip by {
        assert(event_format_line().len() != "[Events]"@.len());
        assert(event_format_line().len() != "[Script Info]"@.len());
        assert(event_format_line().len() != "\u{feff}[Script Info]"@.len());
        assert(event_format_line().len() != "[Aegisub Project Garbage]"@.len());
        assert(event_format_line().len() != "[V4+ Styles]"@.len());
    }
    assert forall|s: State| #[trigger] line_action(s, style_format_line()) == Action::Skip by {
        assert(style_format_line().len() != "[Events]"@.len());
        assert(style_format_line().len() != "[Script Info]"@.len());
        assert(style_format_line().len() != "\u{feff}[Script Info]"@.len());
        assert(style_format_line().len() != "[Aegisub Project Garbage]"@.len());
        assert(style_format_line().len() != "[V4+ Styles]"@.len());
    }
    idle_line_is_ignored(p, before, event_format_line(), after);
    idle_line_is_ignored(p, before, style_format_line(), after);
}

/// Once a line is rejected, the lines after it do not matter: reading stops
/// there with that line's reason.
pub proof fn reading_stops_at_a_rejected_line(
    p: ParserView,
    before: Seq<Seq<char>>,
    l: Seq<char>,
    after: Seq<Seq<char>>,
    q: ParserView,
    reason: Seq<char>,
)
    requires
        read_lines(p, before) == Outcome::Read(q),
        line_action(q.state, l) == Action::Reject(reason),
    ensures
        read_lines(p, before + seq![l] + after) == Outcome::Rejected(reason, q.state),
{
    reading_continues(p, before, seq![l] + after);
    assert(before + seq![l] + after =~= before + (seq![l] + after));
    assert((seq![l] + after)[0] == l);
}

/// Section headers are recognised in every section, and so is the byte
/// order mark some editors put before the first header.
pub proof fn headers_are_recognised_everywhere(s: State)
    ensures
        line_action(s, "[Script Info]"@) == Action::Enter(State::Info),
        line_action(s, "\u{feff}[Script Info]"@) == Action::Enter(State::Info),
        line_action(s, "[Aegisub Project Garbage]"@) == Action::Enter(State::AegisGarbage),
        line_action(s, "[V4+ Styles]"@) == Action::Enter(State::Styles),
        line_action(s, "[Events]"@) == Action::Enter(State::Events),
{
    reveal_strlit("\u{feff}[Script Info]");
    reveal_strlit("[Script Info]");
    reveal_strlit("[Aegisub Project Garbage]");
    reveal_strlit("[V4+ Styles]");
    reveal_strlit("[Events]");
    assert("[Aegisub Project Garbage]"@.len() != "[Script Info]"@.len());
    assert("[Aegisub Project Garbage]"@.len() != "\u{feff}[Script Info]"@.len());
    assert("[V4+ Styles]"@.len() != "[Script Info]"@.len());
    assert("[V4+ Styles]"@.len() != "\u{feff}[Script Info]"@.len());
    assert("[V4+ Styles]"@.len() != "[Aegisub Project Garbage]"@.len());
    assert("[Events]"@ != "[Script Info]"@ && "[Events]"@ != "[V4+ Styles]"@);
    assert("[Events]"@.len() != "\u{feff}[Script Info]"@.len());
    assert("[Events]"@.len() != "[Aegisub Project Garbage]"@.len());
    assert("[Events]"@[1] != "[V4+ Styles]"@[1]);
}

/// Reading on never takes back what was read: the events read so far stay,
/// in order, at the front of the events, and every entry, garbage entry and
/// style name read so far is still there.
pub proof fn reading_keeps_what_was_read(p: ParserView, lines: Seq<Seq<char>>)
    ensures
        read_lines(p, lines) matches Outcome::Read(q) ==> {
            &&& p.lines.len() <= q.lines.len()
            &&& q.lines.subrange(0, p.lines.len() as int) == p.lines
            &&& p.script_info.dom().subset_of(q.script_info.dom())
            &&& p.aegis_garbage.dom().subset_of(q.aegis_garbage.dom())
            &&& p.styles.dom().subset_of(q.styles.dom())
        },
    decreases lines.len(),
{
    if lines.len() > 0 {
        let a = line_action(p.state, lines[0]);
        match a {
            Action::Abort => {},
            Action::Reject(_) => {},
            _ => {
                let p2 = next_parser(p, a);
                reading_keeps_what_was_read(p2, lines.drop_first());
                if let Outcome::Read(q) = read_lines(p, lines) {
                    assert(p2.lines.subrange(0, p.lines.len() as int) =~= p.lines);
                    assert(q.lines.subrange(0, p.lines.len() as int) =~= q.lines.subrange(
                        0,
                        p2.lines.len() as int,
                    ).subrange(0, p.lines.len() as int));
                }
            },
        }
    } else {
        assert(p.lines.subrange(0, p.lines.len() as int) =~= p.lines);
    }
}

/// `l` is one of the section headers.
pub open spec fn is_section_header(l: Seq<char>) -> bool {
    ||| l == "\u{feff}[Script Info]"@
    ||| l == "[Script Info]"@
    ||| l == "[Aegisub Project Garbage]"@
    ||| l == "[V4+ Styles]"@
    ||| l == "[Events]"@
}

/// Before the first section header every line but a header means nothing.
pub proof fn lines_before_the_first_header_mean_nothing(l: Seq<char>)
    requires
        !is_section_header(l),
    ensures
        line_action(State::Start, l) == Action::Skip,
{
}

/// Lines that are no section header, read before the first header, change
/// nothing: reading them and then `lines` is reading `lines`.
pub proof fn lines_before_the_first_header_are_ignored(
    p: ParserView,
    lead: Seq<Seq<char>>,
    lines: Seq<Seq<char>>,
)
    requires
        p.state == State::Start,
        forall|i: int| 0 <= i < lead.len() ==> !is_section_header(#[trigger] lead[i]),
    ensures
        read_lines(p, lead + lines) == read_lines(p, lines),
    decreases lead.len(),
{
    if lead.len() == 0 {
        assert(lead + lines =~= lines);
    } else {
        assert((lead + lines)[0] == lead[0]);
        assert((lead + lines).drop_first() =~= lead.drop_first() + lines);
        lines_before_the_first_header_mean_nothing(lead[0]);
        assert(next_parser(p, Action::Skip) == p);
        assert forall|i: int| 0 <= i < lead.drop_first().len() implies !is_section_header(
            #[trigger] lead.drop_first()[i],
        ) by {
            assert(lead.drop_first()[i] == lead[i + 1]);
        }
        lines_before_the_first_header_are_ignored(p, lead.drop_first(), lines);
    }
}

/// The lines of `a` that are not empty, in order.
pub open spec fn non_empty_lines(a: Seq<Seq<char>>) -> Seq<Seq<char>>
    decreases a.len(),
{
    if a.len() == 0 {
        a
    } else if a[0].len() == 0 {
        non_empty_lines(a.drop_first())
    } else {
        seq![a[0]] + non_empty_lines(a.drop_first())
    }
}

/// Reading a script is reading its non-empty lines.
proof fn lemma_read_non_empty_lines(p: ParserView, a: Seq<Seq<char>>)
    ensures
        read_lines(p, a) == read_lines(p, non_empty_lines(a)),
    decreases a.len(),
{
    if a.len() > 0 {
        let rest = a.drop_first();
        if a[0].len() == 0 {
            assert(next_parser(p, Action::Skip) == p);
            lemma_read_non_empty_lines(p, rest);
        } else {
            let b = seq![a[0]] + non_empty_lines(rest);
            assert(b[0] == a[0]);
            assert(b.drop_first() =~= non_empty_lines(rest));
            let act = line_action(p.state, a[0]);
            match act {
                Action::Abort => {},
                Action::Reject(_) => {},
                _ => {
                    lemma_read_non_empty_lines(next_parser(p, act), rest);
                },
            }
        }
    }
}

/// Empty lines do not matter: two scripts whose non-empty lines are the
/// same, in the same order, read alike, however many empty lines are put in
/// or taken out, and wherever.
pub proof fn empty_lines_do_not_matter(p: ParserView, a: Seq<Seq<char>>, b: Seq<Seq<char>>)
    requires
        non_empty_lines(a) == non_empty_lines(b),
    ensures
        read_lines(p, a) == read_lines(p, b),
{
    lemma_read_non_empty_lines(p, a);
    lemma_read_non_empty_lines(p, b);
}

/// `c1` splits at `k1` and `c2` at `k2` into a part that holds no section
/// header and a rest, and the two rests have the same non-empty lines.
pub open spec fn split_alike(c1: Seq<Seq<char>>, c2: Seq<Seq<char>>, k1: int, k2: int) -> bool {
    &&& 0 <= k1 <= c1.len() && 0 <= k2 <= c2.len()
    &&& forall|i: int| 0 <= i < k1 ==> !is_section_header(#[trigger] c1[i])
    &&& forall|i: int| 0 <= i < k2 ==> !is_section_header(#[trigger] c2[i])
    &&& non_empty_lines(c1.skip(k1)) == non_empty_lines(c2.skip(k2))
}

/// `c2` is `c1` with empty lines put in or taken out anywhere, and with
/// lines that are no section header put in or taken out before the first
/// header: both split alike somewhere.
pub open spec fn differ_only_in_blank_and_leading_lines(c1: Seq<Seq<char>>, c2: Seq<Seq<char>>) -> bool {
    exists|k1: int, k2: int| split_alike(c1, c2, k1, k2)
}

/// Two scripts that differ only in empty lines, and in lines before their
/// first section header, read alike, whatever file they are read from: both
/// are read to the same file, or both are rejected for the same reason at a
/// line of the same section, or both stop at a line that cannot be read on.
pub proof fn blank_and_leading_lines_do_not_matter(
    c1: Seq<Seq<char>>,
    c2: Seq<Seq<char>>,
    file_name: Seq<char>,
)
    requires
        differ_only_in_blank_and_leading_lines(c1, c2),
    ensures
        read_lines(initial_parser(), c1) == read_lines(initial_parser(), c2),
        match (read_lines(initial_parser(), c1), read_lines(initial_parser(), c2)) {
            (Outcome::Read(p1), Outcome::Read(p2)) => finished_file(p1, file_name) == finished_file(
                p2,
                file_name,
            ),
            (Outcome::Rejected(r1, s1), Outcome::Rejected(r2, s2)) => r1 == r2 && s1 == s2,
            (Outcome::Aborted, Outcome::Aborted) => true,
            _ => false,
        },
{
    let (k1, k2) = choose|k1: int, k2: int| split_alike(c1, c2, k1, k2);
    let (lead1, rest1) = (c1.take(k1), c1.skip(k1));
    let (lead2, rest2) = (c2.take(k2), c2.skip(k2));
    assert(c1 =~= lead1 + rest1);
    assert(c2 =~= lead2 + rest2);
    assert forall|i: int| 0 <= i < lead1.len() implies !is_section_header(#[trigger] lead1[i]) by {
        assert(lead1[i] == c1[i]);
    }
    assert forall|i: int| 0 <= i < lead2.len() implies !is_section_header(#[trigger] lead2[i]) by {
        assert(lead2[i] == c2[i]);
    }
    lines_before_the_first_header_are_ignored(initial_parser(), lead1, rest1);
    lines_before_the_first_header_are_ignored(initial_parser(), lead2, rest2);
    empty_lines_do_not_matter(initial_parser(), rest1, rest2);
}


/// A line that is neither empty, nor a section header, nor one of the two
/// format lines: what it means is up to the section it is read in.
pub open spec fn is_content_line(l: Seq<char>) -> bool {
    &&& l.len() > 0
    &&& !is_section_header(l)
    &&& l != event_format_line() && l != style_format_line()
}

/// The decimal number written as `s`.
pub open spec fn decimal(s: Seq<char>) -> u8 {
    u8_from_str_radix(s, 10).unwrap()
}

/// An event line of `[Events]` that has the event shape, and whose numbers
/// are numbers, adds exactly one event after those read before, whatever
/// its fields hold (an empty text or effect too), and changes nothing else.
/// Each field of the event is the characters of the line between the
/// separators of the match: the effect is what lies between the comma after
/// the last margin and the next comma, the text what follows to the end of
/// the line.
pub proof fn event_lines_are_appended(p: ParserView, l: Seq<char>)
    requires
        p.state == State::Events,
        is_content_line(l),
        event_match(l) matches Some(m) && !event_is_broken(l, m),
    ensures
        read_lines(p, seq![l]) matches Outcome::Read(r) && {
            let m = event_match(l).unwrap();
            let c = m.layer_end as int;
            let e = r.lines.last();
            &&& r.lines.len() == p.lines.len() + 1
            &&& r.lines.take(p.lines.len() as int) == p.lines
            &&& r.state == p.state && r.script_info == p.script_info
            &&& r.aegis_garbage == p.aegis_garbage && r.styles == p.styles
            &&& e.format == l.subrange(m.start as int, m.format_end as int)
            &&& e.layer == decimal(l.subrange(m.format_end + 2, c))
            &&& e.start == TimeView {
                hours: decimal(l.subrange(c + 1, c + 2)),
                minutes: decimal(l.subrange(c + 3, c + 5)),
                seconds: l.subrange(c + 6, c + 11),
            }
            &&& e.end == TimeView {
                hours: decimal(l.subrange(c + 12, c + 13)),
                minutes: decimal(l.subrange(c + 14, c + 16)),
                seconds: l.subrange(c + 17, c + 22),
            }
            &&& e.style == l.subrange(c + 23, m.style_end as int)
            &&& e.name == l.subrange(m.style_end + 1, m.name_end as int)
            &&& e.margin == seq![
                (
                    l.subrange(m.name_end + 1, m.margin_l_end as int),
                    l.subrange(m.margin_l_end + 1, m.margin_r_end as int),
                    l.subrange(m.margin_r_end + 1, m.margin_v_end as int),
                ),
            ]
            &&& e.effect == l.subrange(m.margin_v_end + 1, m.effect_end as int)
            &&& e.text == l.subrange(m.effect_end + 1, m.text_end as int)
        },
{
    let r = next_parser(p, line_action(p.state, l));
    let m = event_match(l).unwrap();
    assert(line_action(p.state, l) == Action::Event(event_of(l, m)));
    lemma_read_one_line(p, l);
    assert(r.lines.take(p.lines.len() as int) =~= p.lines);
}

/// Reading the one line `l` after `p` is taking in what it means there.
proof fn lemma_read_one_line(p: ParserView, l: Seq<char>)
    ensures
        read_lines(p, seq![l]) == match line_action(p.state, l) {
            Action::Abort => Outcome::Aborted,
            Action::Reject(reason) => Outcome::Rejected(reason, p.state),
            a => Outcome::Read(next_parser(p, a)),
        },
{
    let a = line_action(p.state, l);
    assert(seq![l].drop_first() =~= Seq::<Seq<char>>::empty());
    assert(read_lines(next_parser(p, a), Seq::<Seq<char>>::empty()) == Outcome::Read(next_parser(p, a)));
}

/// A style line of `[V4+ Styles]` that has the style shape, a font size and
/// fields that hold what their places call for, defines the style of its
/// name, replacing any earlier one, and changes nothing else. Each field of
/// the style is read from the characters of the line between the separators
/// of the match: the four colours from the four `&HAABBGGRR` fields in
/// order, a flag is set when its field is `-1`.
pub proof fn style_lines_define_their_style(p: ParserView, l: Seq<char>)
    requires
        p.state == State::Styles,
        is_content_line(l),
        style_match(l) matches Some(m) && m.fontname_end + 1 != m.rest.fontsize_end
            && !style_is_broken(l, m),
    ensures
        read_lines(p, seq![l]) matches Outcome::Read(r) && {
            let m = style_match(l).unwrap();
            let x = m.rest;
            let fs = x.fontsize_end as int;
            let name = l.subrange(m.format_end + 2, m.name_end as int);
            let st = r.styles[name];
            let minus_one = seq!['-', '1'];
            &&& r.styles.dom() == p.styles.dom().insert(name)
            &&& forall|k: Seq<char>| k != name && p.styles.contains_key(k) ==> r.styles[k] == p.styles[k]
            &&& r.state == p.state && r.script_info == p.script_info
            &&& r.aegis_garbage == p.aegis_garbage && r.lines == p.lines
            &&& st.name == name
            &&& st.font_name == l.subrange(m.name_end + 1, m.fontname_end as int)
            &&& st.font_size == l.subrange(m.fontname_end + 1, fs)
            &&& st.primary_colour == ass_colour_value(l.subrange(fs + 1, fs + 11))
            &&& st.secondary_colour == ass_colour_value(l.subrange(fs + 12, fs + 22))
            &&& st.outline_colour == ass_colour_value(l.subrange(fs + 23, fs + 33))
            &&& st.back_colour == ass_colour_value(l.subrange(fs + 34, fs + 44))
            &&& st.bold == (l.subrange(fs + 45, x.bold_end as int) == minus_one)
            &&& st.italic == (l.subrange(x.bold_end + 1, x.italic_end as int) == minus_one)
            &&& st.underline == (l.subrange(x.italic_end + 1, x.underline_end as int) == minus_one)
            &&& st.strike_out == (l.subrange(x.underline_end + 1, x.strike_out_end as int)
                == minus_one)
            &&& st.scale == (
                l.subrange(x.strike_out_end + 1, x.scale_x_end as int),
                l.subrange(x.scale_x_end + 1, x.scale_y_end as int),
            )
            &&& st.spacing == l.subrange(x.scale_y_end + 1, x.spacing_end as int)
            &&& st.angle == l.subrange(x.spacing_end + 1, x.angle_end as int)
            &&& st.border_style == decimal(l.subrange(x.angle_end + 1, x.border_style_end as int))
            &&& st.outline == l.subrange(x.border_style_end + 1, x.outline_end as int)
            &&& st.shadow == l.subrange(x.outline_end + 1, x.shadow_end as int)
            &&& st.alignment == decimal(l.subrange(x.shadow_end + 1, x.shadow_end + 2))
            &&& st.margin == (
                l.subrange(x.shadow_end + 3, x.margin_l_end as int),
                l.subrange(x.margin_l_end + 1, x.margin_r_end as int),
                l.subrange(x.margin_r_end + 1, x.margin_v_end as int),
            )
            &&& st.encoding == decimal(l.subrange(x.margin_v_end + 1, x.margin_v_end + 2))
        },
{
    reveal(style_of);
    lemma_read_one_line(p, l);
    let r = next_parser(p, line_action(p.state, l));
    let m = style_match(l).unwrap();
    assert(line_action(p.state, l) == Action::StyleEntry(style_of(l, m)));
    let name = l.subrange(m.format_end + 2, m.name_end as int);
    assert(r.styles.dom() =~= p.styles.dom().insert(name));
}

/// An entry line `Key: value` of `[Script Info]` or
/// `[Aegisub Project Garbage]` that is no comment sets its key to its value
/// in the entries of its section, replacing any earlier value, and changes
/// nothing else. The key is what comes before the first `": "`, the value
/// what follows it to the end of the line.
pub proof fn entry_lines_set_their_key(p: ParserView, l: Seq<char>)
    requires
        p.state == State::Info || p.state == State::AegisGarbage,
        is_content_line(l),
        l[0] != ';',
        info_match(l) is Some,
    ensures
        read_lines(p, seq![l]) matches Outcome::Read(r) && {
            let m = info_match(l).unwrap();
            let key = l.subrange(m.start as int, m.separator as int);
            let value = l.subrange(m.separator + 2, m.end as int);
            &&& r.state == p.state && r.styles == p.styles && r.lines == p.lines
            &&& p.state == State::Info ==> r.script_info == p.script_info.insert(key, value)
                && r.aegis_garbage == p.aegis_garbage
            &&& p.state == State::AegisGarbage ==> r.aegis_garbage == p.aegis_garbage.insert(key, value)
                && r.script_info == p.script_info
        },
{
    lemma_read_one_line(p, l);
}

/// The video and audio files of a finished file are the values of the
/// `Video File` and `Audio File` entries of `[Aegisub Project Garbage]`,
/// each the empty string where its entry is missing; the file keeps the
/// entries of `[Script Info]`, the styles and the events read, in order.
pub proof fn video_and_audio_are_their_entries(p: ParserView, file_name: Seq<char>)
    ensures
        ({
            let f = finished_file(p, file_name);
            let g = p.aegis_garbage;
            &&& f.file_name == file_name && f.script_info == p.script_info
            &&& f.styles == p.styles && f.lines == p.lines
            &&& g.contains_key("Video File"@) ==> f.video == g["Video File"@]
            &&& !g.contains_key("Video File"@) ==> f.video.len() == 0
            &&& g.contains_key("Audio File"@) ==> f.audio == g["Audio File"@]
            &&& !g.contains_key("Audio File"@) ==> f.audio.len() == 0
        }),
{
}

/// The audio file does not depend on the video entry, nor the video file
/// on the audio entry: setting or removing one of them leaves the other
/// file as it was.
pub proof fn video_and_audio_are_independent(p: ParserView, file_name: Seq<char>, v: Seq<char>)
    ensures
        ({
            let f = finished_file(p, file_name);
            let g = p.aegis_garbage;
            let with = |h: Map<Seq<char>, Seq<char>>| finished_file(ParserView { aegis_garbage: h, ..p }, file_name);
            &&& with(g.insert("Video File"@, v)).audio == f.audio
            &&& with(g.remove("Video File"@)).audio == f.audio
            &&& with(g.insert("Audio File"@, v)).video == f.video
            &&& with(g.remove("Audio File"@)).video == f.video
        }),
{
    reveal_strlit("Video File");
    reveal_strlit("Audio File");
    assert("Video File"@ != "Audio File"@) by {
        assert("Video File"@[0] != "Audio File"@[0]);
    }
}


/// A line of a section that lacks the shape its section calls for ends the
/// reading: it is rejected as no script ("Not an Ass File"), with the
/// section it was read in. Comments of the info sections are no such lines:
/// they change nothing. A style whose font size is empty is rejected with
/// the error of reading an empty number.
pub proof fn lines_without_their_shape_are_rejected(p: ParserView, l: Seq<char>)
    requires
        is_content_line(l),
    ensures
        p.state == State::Events && event_match(l) is None ==> read_lines(p, seq![l])
            == Outcome::Rejected("Not an Ass File"@, State::Events),
        p.state == State::Styles && style_match(l) is None ==> read_lines(p, seq![l])
            == Outcome::Rejected("Not an Ass File"@, State::Styles),
        p.state == State::Styles && style_match(l) is Some && style_match(l).unwrap().fontname_end + 1
            == style_match(l).unwrap().rest.fontsize_end ==> read_lines(p, seq![l]) == Outcome::Rejected(
            "ParseFloatError { kind: Empty }"@,
            State::Styles,
        ),
        (p.state == State::Info || p.state == State::AegisGarbage) && l[0] != ';' && info_match(l)
            is None ==> read_lines(p, seq![l]) == Outcome::Rejected("Not an Ass File"@, p.state),
        (p.state == State::Info || p.state == State::AegisGarbage) && l[0] == ';' ==> read_lines(
            p,
            seq![l],
        ) == Outcome::Read(p),
        p.state == State::Start ==> read_lines(p, seq![l]) == Outcome::Read(p),
{
    lemma_read_one_line(p, l);
}

} // verus!
