use ass_editor::colour::{is_ass_colour_text, AssColour};
use ass_editor::lexical::{digit_value, is_f32_literal_at, parse_u8_radix};

fn chars(s: &str) -> Vec<char> {
    s.chars().collect()
}

fn u8_of(s: &str, radix: u32) -> Option<u8> {
    let v = chars(s);
    parse_u8_radix(&v, 0, v.len(), radix)
}

fn float_ok(s: &str) -> bool {
    let v = chars(s);
    is_f32_literal_at(&v, 0, v.len())
}

#[test]
fn decimal_u8_values() {
    assert_eq!(u8_of("0", 10), Some(0));
    assert_eq!(u8_of("7", 10), Some(7));
    assert_eq!(u8_of("007", 10), Some(7));
    assert_eq!(u8_of("255", 10), Some(255));
    assert_eq!(u8_of("+42", 10), Some(42));
    assert_eq!(u8_of("256", 10), None);
    assert_eq!(u8_of("1000", 10), None);
    assert_eq!(u8_of("", 10), None);
    assert_eq!(u8_of("+", 10), None);
    assert_eq!(u8_of("-1", 10), None);
    assert_eq!(u8_of("1a", 10), None);
    assert_eq!(u8_of(" 1", 10), None);
}

#[test]
fn u8_parsing_agrees_with_std() {
    let samples = ["", "+", "-", "0", "9", "10", "99", "100", "254", "255", "256", "300", "+0", "+255",
        "+256", "-0", "00000000000000000000000001", "12a", "a", "ff", "FF", "fF", "+f", "100", "1f0", "g"];
    for s in samples {
        assert_eq!(u8_of(s, 10), u8::from_str_radix(s, 10).ok(), "{s:?} in base 10");
        assert_eq!(u8_of(s, 16), u8::from_str_radix(s, 16).ok(), "{s:?} in base 16");
    }
}

#[test]
fn hexadecimal_u8_values() {
    assert_eq!(u8_of("ff", 16), Some(255));
    assert_eq!(u8_of("FF", 16), Some(255));
    assert_eq!(u8_of("0A", 16), Some(10));
    assert_eq!(u8_of("+f", 16), Some(15));
    assert_eq!(u8_of("1g", 16), None);
    assert_eq!(u8_of("100", 16), None);
}

#[test]
fn digit_values() {
    assert_eq!(digit_value('7', 10), Some(7));
    assert_eq!(digit_value('a', 10), None);
    assert_eq!(digit_value('a', 16), Some(10));
    assert_eq!(digit_value('F', 16), Some(15));
    assert_eq!(digit_value('g', 16), None);
    assert_eq!(digit_value('z', 36), Some(35));
}

#[test]
fn float_literals() {
    for s in ["0", "1.5", "-2", "+3", ".5", "5.", "1e5", "1E-5", "2.5e+10", "12e34", "inf", "-inf",
        "+Infinity", "INFINITY", "NaN", "nan", "007", "12.34"] {
        assert!(float_ok(s), "{s:?} should be accepted");
        assert!(s.parse::<f32>().is_ok());
    }
    for s in ["", ".", "-", "+", "e5", "1e", "1e+", "12x34", "12+34", " 1", "1 ", "0x10", "1.2.3",
        "infinit", "in", "nana", "--1", "1_0", "abc"] {
        assert!(!float_ok(s), "{s:?} should be refused");
        assert!(s.parse::<f32>().is_err());
    }
}

#[test]
fn float_literals_agree_with_std() {
    let alphabet = ['0', '7', '.', 'e', 'E', '+', '-', 'i', 'n', 'f', 'a', 'x', ' '];
    let mut state: u64 = 7;
    for _ in 0..20000 {
        state = state.wrapping_mul(6364136223846793005).wrapping_add(1442695040888963407);
        let len = ((state >> 33) % 6) as usize;
        let mut s = String::new();
        let mut x = state;
        for _ in 0..len {
            x = x.wrapping_mul(6364136223846793005).wrapping_add(1442695040888963407);
            s.push(alphabet[((x >> 33) % alphabet.len() as u64) as usize]);
        }
        assert_eq!(float_ok(&s), s.parse::<f32>().is_ok(), "{s:?}");
    }
}

#[test]
fn colours_read_alpha_blue_green_red() {
    let white = AssColour::from_ass_colour("&H00FFFFFF".to_string());
    assert_eq!(white.colour, (255, 255, 255));
    assert_eq!(white.alpha, 0);
    let c = AssColour::from_ass_colour("&H80112233".to_string());
    assert_eq!(c.colour, (0x33, 0x22, 0x11));
    assert_eq!(c.alpha, 0x80);
    let signed = AssColour::from_ass_colour("&H+F0a0B0c".to_string());
    assert_eq!(signed.alpha, 15);
    assert_eq!(signed.colour, (0x0c, 0x0b, 0x0a));
    let longer = AssColour::from_ass_colour("&H01020304 and more".to_string());
    assert_eq!(longer.colour, (4, 3, 2));
    assert_eq!(longer.alpha, 1);
}

#[test]
fn colour_text_can_be_tested_before_reading() {
    assert!(is_ass_colour_text("&H00FFFFFF"));
    assert!(is_ass_colour_text("&H+F0a0B0c"));
    assert!(!is_ass_colour_text("&HGG000000"));
    assert!(!is_ass_colour_text("&H00FFFF"));
    assert!(!is_ass_colour_text("é&H00FFFFF"));
}
