//! The line matchers find the same fields as the patterns the script format
//! is usually described with, run by the `regex` crate.

use ass_editor::grammar::{match_event, match_info, match_style};
use regex::Regex;

const INFO: &str = r"(?<field>.*?): (?<content>.*)";
const STYLE: &str = r"(?<Format>[a-z A-Z]*): (?<Name>.*?),(?<Fontname>.*?),(?<Fontsize>[0-9]*),(?<PrimaryColour>&[A-Z 0-9]{9}),(?<SecondaryColour>&[A-Z 0-9]{9}),(?<OutlineColour>&[A-Z 0-9]{9}),(?<BackColour>&[A-Z 0-9]{9}),(?<Bold>\-?[0-9]),(?<Italic>\-?[0-9]),(?<Underline>\-?[0-9]),(?<StrikeOut>\-?[0-9]),(?<ScaleX>[0-9]{1,3}),(?<ScaleY>[0-9]{1,3}),(?<Spacing>.*?),(?<Angle>.*?),(?<BorderStyle>.*?),(?<Outline>.*?),(?<Shadow>.*?),(?<Alignment>[0-9]),(?<MarginL>.*?),(?<MarginR>.*?),(?<MarginV>.*?),(?<Encoding>[0-9])";
const EVENT: &str = r"(?<Format>[a-z A-Z]*): (?<Layer>[0-9]*?),(?<yStart>[0-9]{1}):(?<minStart>[0-9]{2}):(?<sStart>[0-9]{2}.[0-9]{2}),(?<yEnd>[0-9]{1}):(?<minEnd>[0-9]{2}):(?<sEnd>[0-9]{2}.[0-9]{2}),(?<Style>.*?),(?<Name>.*?),(?<MarginL>[0-9]*?),(?<MarginR>[0-9]*?),(?<MarginV>[0-9]*?),(?<Effect>.*?),(?<Text>.*)";

struct Rng(u64);

impl Rng {
    fn next(&mut self) -> u64 {
        self.0 = self.0.wrapping_mul(6364136223846793005).wrapping_add(1442695040888963407);
        self.0 >> 33
    }
    fn below(&mut self, n: usize) -> usize {
        (self.next() % n as u64) as usize
    }
}

const ALPHABET: &[char] = &[
    '0', '1', '5', '9', ',', ',', ',', ':', ' ', '.', '&', 'H', 'A', 'F', 'Z', '-', 'a', 'x', 'e', ';', '+',
    '\n',
];

fn mutate(rng: &mut Rng, line: &str) -> String {
    let mut chars: Vec<char> = line.chars().collect();
    let edits = rng.below(4);
    for _ in 0..edits {
        let kind = rng.below(3);
        let c = ALPHABET[rng.below(ALPHABET.len())];
        match kind {
            0 if !chars.is_empty() => {
                let i = rng.below(chars.len());
                chars[i] = c;
            }
            1 => {
                let i = rng.below(chars.len() + 1);
                chars.insert(i, c);
            }
            _ if !chars.is_empty() => {
                let i = rng.below(chars.len());
                chars.remove(i);
            }
            _ => {}
        }
    }
    chars.into_iter().collect()
}

fn random_line(rng: &mut Rng) -> String {
    let n = rng.below(40);
    (0..n).map(|_| ALPHABET[rng.below(ALPHABET.len())]).collect()
}

fn groups(re: &Regex, line: &str, names: &[&str]) -> Option<Vec<(usize, usize)>> {
    let caps = re.captures(line)?;
    Some(
        names
            .iter()
            .map(|n| {
                let m = caps.name(n).unwrap();
                (m.start(), m.end())
            })
            .collect(),
    )
}

fn event_groups(line: &str) -> Option<Vec<(usize, usize)>> {
    let l: Vec<char> = line.chars().collect();
    let m = match_event(&l)?;
    let q = m.layer_end;
    Some(vec![
        (m.start, m.format_end),
        (m.format_end + 2, q),
        (q + 1, q + 2),
        (q + 3, q + 5),
        (q + 6, q + 11),
        (q + 12, q + 13),
        (q + 14, q + 16),
        (q + 17, q + 22),
        (q + 23, m.style_end),
        (m.style_end + 1, m.name_end),
        (m.name_end + 1, m.margin_l_end),
        (m.margin_l_end + 1, m.margin_r_end),
        (m.margin_r_end + 1, m.margin_v_end),
        (m.margin_v_end + 1, m.effect_end),
        (m.effect_end + 1, m.text_end),
    ])
}

fn style_groups(line: &str) -> Option<Vec<(usize, usize)>> {
    let l: Vec<char> = line.chars().collect();
    let m = match_style(&l)?;
    let r = m.rest;
    let fs = r.fontsize_end;
    Some(vec![
        (m.start, m.format_end),
        (m.format_end + 2, m.name_end),
        (m.name_end + 1, m.fontname_end),
        (m.fontname_end + 1, fs),
        (fs + 1, fs + 11),
        (fs + 12, fs + 22),
        (fs + 23, fs + 33),
        (fs + 34, fs + 44),
        (fs + 45, r.bold_end),
        (r.bold_end + 1, r.italic_end),
        (r.italic_end + 1, r.underline_end),
        (r.underline_end + 1, r.strike_out_end),
        (r.strike_out_end + 1, r.scale_x_end),
        (r.scale_x_end + 1, r.scale_y_end),
        (r.scale_y_end + 1, r.spacing_end),
        (r.spacing_end + 1, r.angle_end),
        (r.angle_end + 1, r.border_style_end),
        (r.border_style_end + 1, r.outline_end),
        (r.outline_end + 1, r.shadow_end),
        (r.shadow_end + 1, r.shadow_end + 2),
        (r.shadow_end + 3, r.margin_l_end),
        (r.margin_l_end + 1, r.margin_r_end),
        (r.margin_r_end + 1, r.margin_v_end),
        (r.margin_v_end + 1, r.margin_v_end + 2),
    ])
}

fn info_groups(line: &str) -> Option<Vec<(usize, usize)>> {
    let l: Vec<char> = line.chars().collect();
    let m = match_info(&l)?;
    Some(vec![(m.start, m.separator), (m.separator + 2, m.end)])
}

const EVENT_NAMES: &[&str] = &[
    "Format", "Layer", "yStart", "minStart", "sStart", "yEnd", "minEnd", "sEnd", "Style", "Name",
    "MarginL", "MarginR", "MarginV", "Effect", "Text",
];
const STYLE_NAMES: &[&str] = &[
    "Format", "Name", "Fontname", "Fontsize", "PrimaryColour", "SecondaryColour", "OutlineColour",
    "BackColour", "Bold", "Italic", "Underline", "StrikeOut", "ScaleX", "ScaleY", "Spacing",
    "Angle", "BorderStyle", "Outline", "Shadow", "Alignment", "MarginL", "MarginR", "MarginV",
    "Encoding",
];

const EVENT_SEEDS: &[&str] = &[
    "Dialogue: 0,0:00:01.00,0:00:03.50,Default,,0,0,0,,Hello, world!",
    "Comment: 12,1:02:03.04,1:02:03.99,Main,Bob,10,20,30,fx,text",
    "Dialogue: 0,0:00:01.00,0:00:03.50,Default,a,b,1,2,3,e,t,u",
    "Dialogue: 0,0:00:01.00,0:00:03.50,S,N,1,2,3,E",
    "x,Dialogue: 0,0:00:01.00,0:00:03.50,S,N,1,2,3,E,",
    "Dialogue: ,0:00:01x00,0:00:03e50,S,N,,,,,T",
    "Dialogue: 0,0:00:01.00,0:00:03.50,S,N\n,1,2,3,E,T\nComment: 0,0:00:01.00,0:00:03.50,S,N,1,2,3,E,T",
    "Dialogue: 0,0:00:01.00,0:00:03.50,S,N,1,2,3,E,T\nmore",
];
const STYLE_SEEDS: &[&str] = &[
    "Style: Default,Arial,20,&H00FFFFFF,&H000000FF,&H00000000,&H00000000,0,0,0,0,100,100,0,0,1,2,2,2,10,10,10,1",
    "Style: Top,Times New Roman,48,&H00FFFFFF,&H000000FF,&H00000000,&H80000000,-1,0,-1,0,100,90,1.5,0,1,2,0,8,10,10,20,0",
    "Style: A,B,C,D,,&H00FFFFFF,&H000000FF,&H00000000,&H00000000,0,0,0,0,100,100,0,0,1,2,2,2,10,10,10,1,extra,1",
    "Style: X,F,,&HFFFFFFFFF,&H000000FF,&H00000000,&H00000000,-1,-1,-1,-1,1,1,a,b,c,d,e,f,5,g,h,i,j,7",
    "Style: A\nStyle: B,F,1,&H00FFFFFF,&H000000FF,&H00000000,&H00000000,0,0,0,0,100,100,0,0,1,2,2,2,10,10,10,1\n,2",
];
const INFO_SEEDS: &[&str] = &["Title: Demo", "ScriptType: v4.00+", "a: b: c", "no separator", ":", ": ", "a\nb: c\nd", "x: y\nz"];

fn check(seeds: &[&str], re: &Regex, names: &[&str], ours: fn(&str) -> Option<Vec<(usize, usize)>>, rounds: usize) {
    let mut rng = Rng(0x5eed);
    let mut matched = 0;
    for round in 0..rounds {
        let line = if round % 5 == 4 {
            random_line(&mut rng)
        } else {
            let seed = seeds[rng.below(seeds.len())];
            if round % 5 == 0 {
                seed.to_string()
            } else {
                mutate(&mut rng, seed)
            }
        };
        let expected = groups(re, &line, names);
        if expected.is_some() {
            matched += 1;
        }
        assert_eq!(ours(&line), expected, "line {:?}", line);
    }
    assert!(matched > rounds / 10);
}

#[test]
fn event_matches_agree_with_regex() {
    check(EVENT_SEEDS, &Regex::new(EVENT).unwrap(), EVENT_NAMES, event_groups, 6000);
}

#[test]
fn style_matches_agree_with_regex() {
    check(STYLE_SEEDS, &Regex::new(STYLE).unwrap(), STYLE_NAMES, style_groups, 6000);
}

#[test]
fn info_matches_agree_with_regex() {
    check(INFO_SEEDS, &Regex::new(INFO).unwrap(), &["field", "content"], info_groups, 6000);
}

fn rebuild(line: &str, spans: &[(usize, usize)], seps: &[&str]) -> String {
    let l: Vec<char> = line.chars().collect();
    let mut out = String::new();
    for (i, (a, b)) in spans.iter().enumerate() {
        out.extend(&l[*a..*b]);
        if i < seps.len() {
            out.push_str(seps[i]);
        }
    }
    out
}

#[test]
fn matched_fields_rebuild_the_line() {
    let mut rng = Rng(99);
    let mut seen = 0;
    for round in 0..4000 {
        let seed = EVENT_SEEDS[round % EVENT_SEEDS.len()];
        let line = mutate(&mut rng, seed);
        if let Some(g) = event_groups(&line) {
            seen += 1;
            // The two clocks are rebuilt from their three parts.
            let spans = [g[0], g[1], (g[2].0, g[4].1), (g[5].0, g[7].1), g[8], g[9], g[10], g[11], g[12], g[13], g[14]];
            let seps = [": ", ",", ",", ",", ",", ",", ",", ",", ",", ","];
            let suffix: String = line.chars().skip(g[0].0).take(g[14].1 - g[0].0).collect();
            assert_eq!(rebuild(&line, &spans, &seps), suffix);
        }
        let seed = STYLE_SEEDS[round % STYLE_SEEDS.len()];
        let line = mutate(&mut rng, seed);
        if let Some(g) = style_groups(&line) {
            seen += 1;
            let mut seps = vec![": "];
            seps.extend(std::iter::repeat(",").take(g.len() - 2));
            let matched: String = line.chars().skip(g[0].0).take(g[23].1 - g[0].0).collect();
            assert_eq!(rebuild(&line, &g, &seps), matched);
        }
    }
    for round in 0..2000 {
        let line = mutate(&mut rng, INFO_SEEDS[round % INFO_SEEDS.len()]);
        if let Some(g) = info_groups(&line) {
            let matched: String = line.chars().skip(g[0].0).take(g[1].1 - g[0].0).collect();
            assert_eq!(rebuild(&line, &g, &[": "]), matched);
            let key: String = line.chars().skip(g[0].0).take(g[0].1 - g[0].0).collect();
            assert!(!key.contains(": ") && !key.contains('\n'));
        }
    }
    assert!(seen > 100);
}

#[test]
fn empty_font_size_reason_is_the_std_error() {
    let e = "".parse::<f32>().unwrap_err();
    assert_eq!(format!("{e:?}"), "ParseFloatError { kind: Empty }");
}

#[test]
fn preferred_splits_take_the_shortest_lazy_fields() {
    // The key stops at the first ": ", the value runs to the line break.
    let l: Vec<char> = "Title: a: b\nnext".chars().collect();
    let m = match_info(&l).unwrap();
    assert_eq!((m.start, m.separator, m.end), (0, 5, 11));

    // A name holding commas: the style ends at the first comma, the name at
    // the first comma after which the margins can follow.
    let line = "Dialogue: 0,0:00:01.00,0:00:02.00,Default,a,b,1,2,3,fx,text, more";
    let l: Vec<char> = line.chars().collect();
    let m = match_event(&l).unwrap();
    let field = |a: usize, b: usize| -> String { l[a..b].iter().collect() };
    assert_eq!(field(m.layer_end + 23, m.style_end), "Default");
    assert_eq!(field(m.style_end + 1, m.name_end), "a,b");
    assert_eq!(field(m.margin_v_end + 1, m.effect_end), "fx");
    assert_eq!(field(m.effect_end + 1, m.text_end), "text, more");

    // No split of the line has the event shape: the clocks are malformed.
    let l: Vec<char> = "Dialogue: 0,0:0:01.00,0:00:02.00,a,b,1,2,3,fx,t".chars().collect();
    assert!(match_event(&l).is_none());

    // A style whose font name holds a comma.
    let line = "Style: Default,Arial,Bold,20,&H00FFFFFF,&H000000FF,&H00000000,&H00000000,0,0,0,0,100,100,0,0,1,2,2,2,10,10,10,1";
    let l: Vec<char> = line.chars().collect();
    let m = match_style(&l).unwrap();
    let field = |a: usize, b: usize| -> String { l[a..b].iter().collect() };
    assert_eq!(field(m.format_end + 2, m.name_end), "Default");
    assert_eq!(field(m.name_end + 1, m.fontname_end), "Arial,Bold");
    assert_eq!(field(m.rest.margin_v_end + 1, m.rest.margin_v_end + 2), "1");
}
