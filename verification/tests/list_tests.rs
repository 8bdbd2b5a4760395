use laundry5::error::LoadError;
use laundry5::list::{load_from_lines, Endpoint, Ip};

/// Splits a buffer into lines the way a buffered line reader does:
/// on `\n`, with no trailing empty line for a final `\n`, and with a
/// trailing `\r` stripped.
fn lines_of(buf: &[u8]) -> Vec<Vec<u8>> {
    let mut lines: Vec<Vec<u8>> = Vec::new();
    let mut cur: Vec<u8> = Vec::new();
    for &b in buf {
        if b == b'\n' {
            if cur.last() == Some(&b'\r') {
                cur.pop();
            }
            lines.push(cur);
            cur = Vec::new();
        } else {
            cur.push(b);
        }
    }
    if !cur.is_empty() {
        lines.push(cur);
    }
    lines
}

fn v4(a: u8, b: u8, c: u8, d: u8, port: u16) -> Endpoint {
    Endpoint { ip: Ip::V4(a, b, c, d), port }
}

fn v6(g: [u16; 8], port: u16) -> Endpoint {
    Endpoint { ip: Ip::V6(g[0], g[1], g[2], g[3], g[4], g[5], g[6], g[7]), port }
}

#[test]
fn test_parse_empty() {
    let buf = b"";
    let list = load_from_lines(&lines_of(buf)).unwrap();
    assert_eq!(&list, &[]);
}

#[test]
fn test_parse_empty_newline() {
    let buf = b"\n";
    let list = load_from_lines(&lines_of(buf)).unwrap();
    assert_eq!(&list, &[]);
}

#[test]
fn test_parse_empty_two_newlines() {
    let buf = b"\n\n";
    let list = load_from_lines(&lines_of(buf)).unwrap();
    assert_eq!(&list, &[]);
}

#[test]
fn test_parse_empty_comment() {
    let buf = b"# this is a comment";
    let list = load_from_lines(&lines_of(buf)).unwrap();
    assert_eq!(&list, &[]);
}

#[test]
fn test_parse_ipv4() {
    let buf = b"192.0.2.1:1337";
    let list = load_from_lines(&lines_of(buf)).unwrap();
    assert_eq!(&list, &[v4(192, 0, 2, 1, 1337)]);
}

#[test]
fn test_parse_ipv6() {
    let buf = b"[2001:0DB8::12:34]:1337";
    let list = load_from_lines(&lines_of(buf)).unwrap();
    assert_eq!(&list, &[v6([0x2001, 0xdb8, 0, 0, 0, 0, 0x12, 0x34], 1337)]);
}

#[test]
fn test_parse_mixed() {
    let buf = b"192.0.2.1:1337
192.0.2.2:1337
192.0.2.3:1337
[2001:0DB8::12:34]:1337
[2001:0DB8::56:78]:1337


";
    let list = load_from_lines(&lines_of(buf)).unwrap();
    assert_eq!(
        &list,
        &[
            v4(192, 0, 2, 1, 1337),
            v4(192, 0, 2, 2, 1337),
            v4(192, 0, 2, 3, 1337),
            v6([0x2001, 0xdb8, 0, 0, 0, 0, 0x12, 0x34], 1337),
            v6([0x2001, 0xdb8, 0, 0, 0, 0, 0x56, 0x78], 1337),
        ]
    );
}

#[test]
fn test_parse_all_forms_of_ipv6() {
    let list = load_from_lines(&lines_of(b"[::]:1\n[::1]:2\n[1::]:3\n[1:2:3:4:5:6:7:8]:4"))
        .unwrap();
    assert_eq!(
        &list,
        &[
            v6([0, 0, 0, 0, 0, 0, 0, 0], 1),
            v6([0, 0, 0, 0, 0, 0, 0, 1], 2),
            v6([1, 0, 0, 0, 0, 0, 0, 0], 3),
            v6([1, 2, 3, 4, 5, 6, 7, 8], 4),
        ]
    );
}

#[test]
fn test_parse_invalid_line_fails_whole_load() {
    // The good first line must not leak out as a partial list.
    let r = load_from_lines(&lines_of(b"192.0.2.1:1337\nnot a proxy\n192.0.2.2:1337"));
    assert_eq!(r, Err(LoadError::InvalidLine(1)));
}

#[test]
fn test_parse_rejects_bad_entries() {
    for bad in [
        &b"192.0.2.1"[..],
        b"192.0.2.256:80",
        b"192.0.2:80",
        b"192.0.2.1.5:80",
        b"192.0.02.1:80",
        b"192.0.2.1:",
        b"192.0.2.1:65536",
        b"[12345::1]:80",
        b"[1:2:3:4:5:6:7:8:9]:80",
        b"[1::2::3]:80",
        b"[1:::2]:80",
        b"[1:2:3:4:5:6:7]:80",
        b"[::1]80",
        b"[::1]:",
        b"[::g]:80",
        b"hello:80",
        b" 192.0.2.1:1337",
    ] {
        let r = load_from_lines(&vec![bad.to_vec()]);
        assert_eq!(r, Err(LoadError::InvalidLine(0)), "input: {:?}", bad);
    }
}

#[test]
fn test_parse_comment_between_entries() {
    let list =
        load_from_lines(&lines_of(b"# head\n192.0.2.7:80\n\n# tail\n[::2]:81\n")).unwrap();
    assert_eq!(&list, &[v4(192, 0, 2, 7, 80), v6([0, 0, 0, 0, 0, 0, 0, 2], 81)]);
}
