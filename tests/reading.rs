use filers_mcp::lines::{decode_lines, read_text, split_raw_lines};
use filers_mcp::paths::literal_ancestors;
use filers_mcp::tools::{list_entries, EntryKind, FileTools, PairKind, TargetProbe};
use filers_mcp::validation::{AllowedPaths, PathProbe, RootProbe};

fn plain(path: &str) -> PathProbe {
    PathProbe { resolved: Some(path.to_string()), symlinked: vec![false; literal_ancestors(path).len()] }
}

#[test]
fn test_read_write_list() {
    let written = "hello\nworld";
    let content = read_text(&written.as_bytes().to_vec(), None, None);
    assert_eq!(content, "hello\nworld");
    let entries = list_entries(vec![Some(("test.txt".to_string(), EntryKind::File))]);
    assert!(entries.iter().any(|(name, kind)| name == "test.txt" && kind == "file"));
}

#[test]
fn test_filetools_read_write_list() {
    let content = read_text(&"hi".as_bytes().to_vec(), None, None);
    assert_eq!(content, "hi");
    let entries = list_entries(vec![Some(("f.txt".to_string(), EntryKind::File))]);
    assert!(entries.iter().any(|(n, k)| n == "f.txt" && k == "file"));
}

#[test]
fn test_copy_file() {
    let dir = "/tmp/sandbox_copy";
    let root = RootProbe { path: dir.to_string(), resolved: Some(dir.to_string()), is_dir: true };
    let allowed = AllowedPaths::new(vec![root]).unwrap();
    let tools = FileTools { allowed_paths: &allowed };
    let from = format!("{}/from.txt", dir);
    let to = format!("{}/to.txt", dir);
    let target = TargetProbe {
        path: PathProbe { resolved: None, symlinked: vec![false; 3] },
        missing: 1,
        base: plain(dir),
    };
    let (a, b) = tools.authorize_pair(PairKind::Move, &from, &plain(&from), &to, &target).unwrap();
    assert_eq!((a, b), (from.clone(), to.clone()));
    let content = read_text(&"copy this".as_bytes().to_vec(), None, None);
    assert_eq!(content, "copy this");
}

#[test]
fn head_and_tail_of_five_lines() {
    let bytes = "l1\nl2\nl3\nl4\nl5\n".as_bytes().to_vec();
    assert_eq!(read_text(&bytes, Some(2), None), "l1\nl2");
    assert_eq!(read_text(&bytes, None, Some(2)), "l4\nl5");
    assert_eq!(read_text(&bytes, Some(2), Some(1)), "l1\nl2");
    assert_eq!(read_text(&bytes, Some(9), None), "l1\nl2\nl3\nl4\nl5");
    assert_eq!(read_text(&bytes, None, Some(9)), "l1\nl2\nl3\nl4\nl5");
    assert_eq!(read_text(&bytes, Some(0), None), "");
    assert_eq!(read_text(&bytes, None, Some(0)), "");
}

#[test]
fn line_ends_and_bad_bytes() {
    assert_eq!(read_text(&b"a\r\nb\r\n".to_vec(), None, None), "a\nb");
    assert_eq!(read_text(&b"a\rb".to_vec(), None, None), "a\rb");
    assert_eq!(read_text(&b"\n\nx".to_vec(), None, None), "\n\nx");
    assert_eq!(read_text(&b"ok\n\xff\xfe\nfine".to_vec(), None, None), "ok\nfine");
    assert_eq!(read_text(&"caf\u{e9}\n\u{1f600}".as_bytes().to_vec(), None, None), "caf\u{e9}\n\u{1f600}");
    assert_eq!(read_text(&Vec::new(), None, None), "");
}

#[test]
fn raw_lines_and_decoding() {
    let raw = split_raw_lines(&b"a\r\n\nbc".to_vec());
    assert_eq!(raw, vec![b"a".to_vec(), b"".to_vec(), b"bc".to_vec()]);
    let text = decode_lines(vec![b"x".to_vec(), vec![0xc3], "\u{e9}".as_bytes().to_vec()]);
    assert_eq!(text, vec!["x".to_string(), "\u{e9}".to_string()]);
}

#[test]
fn unreadable_entry_is_left_out() {
    let entries = vec![
        Some(("a".to_string(), EntryKind::File)),
        None,
        Some(("d".to_string(), EntryKind::Dir)),
        Some(("s".to_string(), EntryKind::Other)),
        Some(("u".to_string(), EntryKind::Unknown)),
    ];
    let listing = list_entries(entries);
    let expect: Vec<(String, String)> = vec![
        ("a".to_string(), "file".to_string()),
        ("d".to_string(), "dir".to_string()),
        ("s".to_string(), "other".to_string()),
        ("u".to_string(), "unknown".to_string()),
    ];
    assert_eq!(listing, expect);
}
