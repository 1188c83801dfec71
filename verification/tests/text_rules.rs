use rusthia::map::text::{
    trim_chars, first_line_chars, split_chars, extension_chars, split_name_chars, trim_end_cr_chars,
};

fn chars(s: &str) -> Vec<char> {
    s.chars().collect()
}

fn text(v: &[char]) -> String {
    v.iter().collect()
}

#[test]
fn trim_follows_std() {
    for s in ["", "  ", " a ", "\t\u{3000}x y\u{2003}\n", "\u{85}a\u{A0}", "a", "\u{200B}a"] {
        assert_eq!(text(&trim_chars(&chars(s))), s.trim(), "{:?}", s);
    }
}

#[test]
fn first_line_follows_std() {
    for s in ["", "\n", "a\r\nb", "a\rb\nc", "abc\r", "abc", "x\r\r\ny", "\r\n"] {
        assert_eq!(text(&first_line_chars(&chars(s))), s.lines().next().unwrap_or(""), "{:?}", s);
    }
}

#[test]
fn split_follows_std() {
    for s in ["", ",", "a,b", ",a,,b,", "a & b,c d"] {
        let ours: Vec<String> = split_chars(&chars(s), &[' ', '&', ',']).iter().map(|f| text(f)).collect();
        let std_: Vec<String> = s.split([' ', '&', ',']).map(|f| f.to_string()).collect();
        assert_eq!(ours, std_, "{:?}", s);
    }
}

#[test]
fn extension_follows_rsplit() {
    for s in ["a.b", "a.b.c", "noext", ".hidden", "trailing.", ""] {
        assert_eq!(text(&extension_chars(&chars(s))), s.rsplit('.').next().unwrap_or(""), "{:?}", s);
    }
}

#[test]
fn artist_title_split() {
    let (a, t) = split_name_chars(&chars(" A - B - C "));
    assert_eq!(text(&a), "A");
    assert_eq!(text(&t), "B - C");
    let (a, t) = split_name_chars(&chars("Only-Title "));
    assert_eq!(text(&a), "");
    assert_eq!(text(&t), "Only-Title");
    assert_eq!(text(&trim_end_cr_chars(&chars("x\r\r"))), "x");
}
