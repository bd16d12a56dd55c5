use driver_indexer::subCommand::create_index::InfInfo;
use driver_indexer::text::{lines_of, nonempty_split, replace_str, split_chars};
use driver_indexer::utils::util::isArchive;
use driver_indexer::utils::util::String_utils;

fn chars(s: &str) -> Vec<char> {
    s.chars().collect()
}

fn strings(v: &[Vec<char>]) -> Vec<String> {
    v.iter().map(|c| c.iter().collect()).collect()
}

#[test]
fn replace_matches_std() {
    let cases = [("a  b   c", "  ", ""), ("aaaa", "aa", "b"), ("x\r\ny", "\r\n", "|\r\n"), ("abc", "z", "q"), ("", "a", "b")];
    for (s, f, t) in cases {
        assert_eq!(replace_str(s, f, t), s.replace(f, t));
    }
}

#[test]
fn lines_match_std() {
    for s in ["a\nb", "a\r\nb\r\n", "", "\n", "a\n\nb", "x\r", "a\rb\n"] {
        let ours = strings(&lines_of(&chars(s)));
        let theirs: Vec<String> = s.lines().map(|l| l.to_string()).collect();
        assert_eq!(ours, theirs, "input {:?}", s);
    }
}

#[test]
fn split_matches_std() {
    for s in ["1.2.3", "", ".", "a..b", "abc"] {
        let ours = strings(&split_chars(&chars(s), '.'));
        let theirs: Vec<String> = s.split('.').map(|l| l.to_string()).collect();
        assert_eq!(ours, theirs);
    }
    assert_eq!(nonempty_split(",a,,b,", ','), vec!["a".to_string(), "b".to_string()]);
}

#[test]
fn case_mapping() {
    // extensions are compared lower-cased
    assert!(isArchive("CAB"));
    assert!(isArchive("Wim"));
    assert!(!isArchive("EXE"));
    // hardware ids are kept upper-cased
    let info = InfInfo::parsingInfContent(String::new(), "a.inf".to_string(), "[M]\r\nx=y,usb\\vid_0bda&pid_b711\r\n");
    assert_eq!(info.DriverList, vec!["USB\\VID_0BDA&PID_B711".to_string()]);
}

#[test]
fn string_left_center_right() {
    let s = String::from("PATH|Name: Dev|Hardware IDs:,A,B|Compatible IDs:,C|");
    assert_eq!(s.get_string_left("|").unwrap(), "PATH");
    assert_eq!(s.get_string_center("Name:", "|").unwrap(), " Dev");
    assert_eq!(s.get_string_center("Hardware IDs:", "|").unwrap(), ",A,B");
    assert_eq!(s.get_string_right("Compatible IDs:").unwrap(), ",C|");
    assert!(s.get_string_left("#").is_err());
    assert!(s.get_string_center("Nope:", "|").is_err());
    assert!(s.get_string_center("Name:", "#").is_err());
    assert!(s.get_string_right("#").is_err());
    // the left part, the marker and the right part give the text back
    let left = s.get_string_left("|").unwrap();
    let right = s.get_string_right("|").unwrap();
    assert_eq!(format!("{}|{}", left, right), s);
}
