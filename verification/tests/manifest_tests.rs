use game_updater::descriptor::parse_u64;
use game_updater::manifest::{parse_patch_line, read_delete_list, read_patch_list};

fn names(v: Vec<Vec<u8>>) -> Vec<String> {
    v.into_iter().map(|b| String::from_utf8(b).unwrap()).collect()
}

#[test]
fn test_parse_line_json() {
    let content = r#"
        {"remoteName": "file1.txt"}
        {"remoteName": "file2.jpg"}
        {"invalid": "data"}
        "#;
    let result = names(read_patch_list(content.as_bytes()));
    assert_eq!(result, vec!["file1.txt", "file2.jpg"]);
}

#[test]
fn test_tolerant_patch_list() {
    let content = "{\"remoteName\":\"a\"}\n{\"remoteName\":\"b\"}\n{\"bogus\":1}";
    let result = names(read_patch_list(content.as_bytes()));
    assert_eq!(result, vec!["a", "b"]);
}

#[test]
fn test_patch_line_well_formed() {
    let r = parse_patch_line(b"{\"remoteName\": \"data/a.pak\"}".as_slice());
    assert_eq!(r, Some(b"data/a.pak".to_vec()));
}

#[test]
fn test_patch_line_extra_members() {
    let r = parse_patch_line(b"{\"md5\": \"abc123\", \"remoteName\": \"x.bin\"}".as_slice());
    assert_eq!(r, Some(b"x.bin".to_vec()));
}

#[test]
fn test_patch_line_escapes() {
    let r = parse_patch_line(b"{\"remoteName\": \"a\\\"b\\\\c\"}".as_slice());
    assert_eq!(r, Some(b"a\"b\\c".to_vec()));
}

#[test]
fn test_patch_line_malformed() {
    assert_eq!(parse_patch_line(b"{bogus".as_slice()), None);
    assert_eq!(parse_patch_line(b"not json at all".as_slice()), None);
    assert_eq!(parse_patch_line(b"".as_slice()), None);
    // A remoteName that is not a string does not name a file.
    assert_eq!(parse_patch_line(b"{\"remoteName\": 5}".as_slice()), None);
    // Trailing garbage after the closing brace makes the line malformed.
    assert_eq!(parse_patch_line(b"{\"remoteName\": \"a\"} x".as_slice()), None);
    // An unsupported escape makes the line malformed.
    assert_eq!(parse_patch_line(b"{\"remoteName\": \"\\u0061\"}".as_slice()), None);
}

#[test]
fn test_patch_list_empty_and_blank() {
    assert_eq!(read_patch_list(b"".as_slice()).len(), 0);
    assert_eq!(read_patch_list(b"\n\n   \n".as_slice()).len(), 0);
}

#[test]
fn test_delete_list_lines() {
    let content = "old/stale.dat\n\n  spaced.txt  \r\nlast";
    let result = names(read_delete_list(content.as_bytes()));
    assert_eq!(result, vec!["old/stale.dat", "spaced.txt", "last"]);
}

#[test]
fn test_delete_list_empty() {
    assert_eq!(read_delete_list(b"".as_slice()).len(), 0);
    assert_eq!(read_delete_list(b"\n \n\t\n".as_slice()).len(), 0);
}

#[test]
fn test_u64_string_deserialization() {
    let value = parse_u64(b"123456".as_slice()).unwrap();
    assert_eq!(value, 123456);
}

#[test]
fn test_parse_u64_edges() {
    assert_eq!(parse_u64(b"+123".as_slice()), Some(123));
    assert_eq!(parse_u64(b"0".as_slice()), Some(0));
    assert_eq!(parse_u64(b"".as_slice()), None);
    assert_eq!(parse_u64(b"+".as_slice()), None);
    assert_eq!(parse_u64(b"12a".as_slice()), None);
    assert_eq!(parse_u64(b"-1".as_slice()), None);
    assert_eq!(parse_u64(b"18446744073709551615".as_slice()), Some(u64::MAX));
    assert_eq!(parse_u64(b"18446744073709551616".as_slice()), None);
}
