use flowgate::number::{digit_of, read_digits, read_number, write_number, Radix};
use flowgate::scan::{first_true, last_true};
use flowgate::text::{
    append, equals, equals_ignore_case, find_bytes, has_suffix, is_match_at, prefix, split_bytes,
    to_lower, to_vec, trim_bytes, trimmed_end, trimmed_start,
};

fn written(n: u32, radix: Radix) -> String {
    let mut out = Vec::new();
    write_number(&mut out, n, radix);
    String::from_utf8(out).unwrap()
}

#[test]
fn find_gives_the_first_occurrence() {
    assert_eq!(find_bytes(b"a\r\nb\r\nc", b"\r\n"), Some(1));
    assert_eq!(find_bytes(b"abc", b"\r\n"), None);
    assert_eq!(find_bytes(b"abc", b"abc"), Some(0));
    assert_eq!(find_bytes(b"ab", b"abc"), None);
    assert_eq!(find_bytes(b"aab", b"ab"), Some(1));
    assert_eq!(find_bytes(b"", b"a"), None);
    assert_eq!(find_bytes(b"abc", b""), Some(0));
    assert_eq!(find_bytes(b"", b""), Some(0));
    assert_eq!(find_bytes(b"xyz", b"z"), Some(2));
}

#[test]
fn match_at_an_index() {
    assert!(is_match_at(b"hello", b"ll", 2));
    assert!(!is_match_at(b"hello", b"ll", 3));
    assert!(!is_match_at(b"hello", b"lo", 4));
    assert!(is_match_at(b"hello", b"", 5));
    assert!(!is_match_at(b"hello", b"", 6));
}

#[test]
fn split_at_every_occurrence() {
    let parts = split_bytes(b"a\r\n\r\nb", b"\r\n");
    assert_eq!(parts, vec![b"a".to_vec(), b"".to_vec(), b"b".to_vec()]);
    assert_eq!(split_bytes(b"abc", b","), vec![b"abc".to_vec()]);
    assert_eq!(split_bytes(b"", b","), vec![b"".to_vec()]);
    assert_eq!(split_bytes(b",", b","), vec![b"".to_vec(), b"".to_vec()]);
    assert_eq!(split_bytes(b"a,b,", b","), vec![b"a".to_vec(), b"b".to_vec(), b"".to_vec()]);
    assert_eq!(split_bytes(b"aaa", b"aa"), vec![b"".to_vec(), b"a".to_vec()]);
}

#[test]
fn split_is_what_std_does() {
    for text in ["", "a", "a b", " a  b ", "GET / HTTP/1.1", "  "] {
        let ours: Vec<String> = split_bytes(text.as_bytes(), b" ")
            .into_iter()
            .map(|p| String::from_utf8(p).unwrap())
            .collect();
        let theirs: Vec<String> = text.split(' ').map(|p| p.to_string()).collect();
        assert_eq!(ours, theirs);
    }
}

#[test]
fn case_of_ascii_letters() {
    assert_eq!(to_lower(b'A'), b'a');
    assert_eq!(to_lower(b'Z'), b'z');
    assert_eq!(to_lower(b'a'), b'a');
    assert_eq!(to_lower(b'@'), b'@');
    assert_eq!(to_lower(b'['), b'[');
    assert_eq!(to_lower(0xC9), 0xC9);
    assert!(equals_ignore_case(b"Content-Length", b"content-length"));
    assert!(equals_ignore_case(b"HOST", b"host"));
    assert!(!equals_ignore_case(b"hosts", b"host"));
    assert!(!equals_ignore_case(b"h0st", b"host"));
    assert!(equals_ignore_case(b"", b""));
    assert!(equals(b"abc", b"abc"));
    assert!(!equals(b"abc", b"abC"));
    assert!(!equals(b"abc", b"ab"));
}

#[test]
fn trimming() {
    assert_eq!(trimmed_end(b"ab\0\0", 0), 2);
    assert_eq!(trimmed_end(b"\0\0", 0), 0);
    assert_eq!(trimmed_end(b"", 0), 0);
    assert_eq!(trimmed_end(b"\0a", 0), 2);
    assert_eq!(trimmed_start(b"\0\0a\0", 0), 2);
    assert_eq!(trimmed_start(b"", 0), 0);
    assert_eq!(trim_bytes(b"  chunked ", b' '), b"chunked".to_vec());
    assert_eq!(trim_bytes(b"   ", b' '), b"".to_vec());
    assert_eq!(trim_bytes(b"a b", b' '), b"a b".to_vec());
}

#[test]
fn suffixes_and_prefixes() {
    assert!(has_suffix(b"abc\r\n\r\n", b"\r\n\r\n"));
    assert!(!has_suffix(b"abc\r\n\r", b"\r\n\r\n"));
    assert!(!has_suffix(b"\n", b"\r\n"));
    assert!(has_suffix(b"abc", b""));
    assert_eq!(prefix(b"abcdef", 3), b"abc".to_vec());
    assert_eq!(prefix(b"abc", 0), b"".to_vec());
    assert_eq!(prefix(b"abc", 9), b"abc".to_vec());
    assert_eq!(to_vec(b"abc"), b"abc".to_vec());
    let mut out = b"ab".to_vec();
    append(&mut out, b"cd");
    assert_eq!(out, b"abcd".to_vec());
}

#[test]
fn first_and_last_true() {
    assert_eq!(first_true(&[false, true, true]), Some(1));
    assert_eq!(last_true(&[false, true, true, false]), Some(2));
    assert_eq!(first_true(&[false, false]), None);
    assert_eq!(last_true(&[]), None);
}

#[test]
fn digits() {
    assert_eq!(digit_of(b'7', Radix::Ten), Some(7));
    assert_eq!(digit_of(b'a', Radix::Ten), None);
    assert_eq!(digit_of(b'a', Radix::Sixteen), Some(10));
    assert_eq!(digit_of(b'F', Radix::Sixteen), Some(15));
    assert_eq!(digit_of(b'g', Radix::Sixteen), None);
    assert_eq!(digit_of(b'/', Radix::Ten), None);
    assert_eq!(digit_of(b':', Radix::Sixteen), None);
}

#[test]
fn numbers_are_read_as_std_reads_them() {
    for text in ["0", "7", "007", "+5", "+", "", "-1", "12a", " 1", "1 ", "65535", "65536", "++1"] {
        let theirs = text.parse::<u16>().ok().map(|v| v as usize);
        assert_eq!(read_number(text.as_bytes(), Radix::Ten, 65535), theirs, "{:?}", text);
    }
    for text in ["0", "ff", "FF", "+1f", "0x10", "g", "", "1F4", "ffff", "10000"] {
        let theirs = u16::from_str_radix(text, 16).ok().map(|v| v as usize);
        assert_eq!(read_number(text.as_bytes(), Radix::Sixteen, 65535), theirs, "{:?}", text);
    }
}

#[test]
fn numbers_up_to_the_bound() {
    assert_eq!(read_number(b"255", Radix::Ten, 255), Some(255));
    assert_eq!(read_number(b"256", Radix::Ten, 255), None);
    let max = usize::MAX.to_string();
    assert_eq!(read_number(max.as_bytes(), Radix::Ten, usize::MAX), Some(usize::MAX));
    let more = format!("{}0", max);
    assert_eq!(read_number(more.as_bytes(), Radix::Ten, usize::MAX), None);
    assert_eq!(read_number(b"99999999999999999999999999999999", Radix::Ten, usize::MAX), None);
    assert_eq!(read_digits(b"+5", Radix::Ten, 100), None);
    assert_eq!(read_digits(b"5", Radix::Ten, 100), Some(5));
}

#[test]
fn numbers_are_written_as_std_writes_them() {
    for n in [0u32, 1, 9, 10, 99, 100, 255, 256, 40000, 65535, 65536, u32::MAX] {
        assert_eq!(written(n, Radix::Ten), format!("{}", n));
        assert_eq!(written(n, Radix::Sixteen), format!("{:x}", n));
    }
}

#[test]
fn written_numbers_are_read_back() {
    for n in [0u32, 5, 10, 255, 4096, 65535] {
        assert_eq!(read_number(written(n, Radix::Ten).as_bytes(), Radix::Ten, 65535), Some(n as usize));
        assert_eq!(read_number(written(n, Radix::Sixteen).as_bytes(), Radix::Sixteen, 65535), Some(n as usize));
    }
}
