use andes_res::text::{chars_of, parse_u16, push_radix, push_str, split_chars};

fn parse(s: &str) -> Option<u16> {
    parse_u16(&s.chars().collect())
}

#[test]
fn parse_u16_like_std() {
    for s in ["0", "12", "+12", "007", "65535", "65536", "", "+", "-1", "1 ", "x", "99999999999"] {
        assert_eq!(parse(s), s.parse::<u16>().ok(), "{:?}", s);
    }
}

#[test]
fn split_like_std() {
    for s in ["", "a", "a b", "a  b", " a ", "255 128 0"] {
        let chars: Vec<char> = s.chars().collect();
        let got: Vec<String> =
            split_chars(&chars, ' ').iter().map(|p| p.iter().collect()).collect();
        let want: Vec<String> = s.split(' ').map(String::from).collect();
        assert_eq!(got, want);
    }
}

#[test]
fn radix_rendering() {
    let mut out = Vec::new();
    push_radix(&mut out, 0, 16);
    push_str(&mut out, ",");
    push_radix(&mut out, 0xabc, 16);
    push_str(&mut out, ",");
    push_radix(&mut out, 1234567, 10);
    let s: String = out.iter().collect();
    assert_eq!(s, "0,abc,1234567");
    assert_eq!(chars_of("héllo"), vec!['h', 'é', 'l', 'l', 'o']);
}
