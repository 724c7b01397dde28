use cat::{escape_byte, is_blank, numbering_prefix, split_lines};

#[test]
fn escape_table_control_bytes() {
    assert_eq!(escape_byte(0), b"^@".to_vec());
    assert_eq!(escape_byte(1), b"^A".to_vec());
    assert_eq!(escape_byte(8), b"^H".to_vec());
    assert_eq!(escape_byte(11), b"^K".to_vec());
    assert_eq!(escape_byte(31), b"^_".to_vec());
    assert_eq!(escape_byte(127), b"^?".to_vec());
}

#[test]
fn escape_table_high_bytes() {
    assert_eq!(escape_byte(128), b"M-^@".to_vec());
    assert_eq!(escape_byte(159), b"M-^_".to_vec());
    assert_eq!(escape_byte(160), b"M- ".to_vec());
    assert_eq!(escape_byte(193), b"M-A".to_vec());
    assert_eq!(escape_byte(254), b"M-~".to_vec());
    assert_eq!(escape_byte(255), b"M-^?".to_vec());
}

#[test]
fn escape_table_keeps_printable_tab_and_line_feed() {
    for b in 32u8..=126u8 {
        assert_eq!(escape_byte(b), vec![b]);
    }
    assert_eq!(escape_byte(9), vec![9]);
    assert_eq!(escape_byte(10), vec![10]);
}

#[test]
fn numbering_prefix_widths() {
    assert_eq!(numbering_prefix(1), b"     ".to_vec());
    assert_eq!(numbering_prefix(9), b"     ".to_vec());
    assert_eq!(numbering_prefix(10), b"    ".to_vec());
    assert_eq!(numbering_prefix(99), b"    ".to_vec());
    assert_eq!(numbering_prefix(100), b"   ".to_vec());
    assert_eq!(numbering_prefix(9999), b"  ".to_vec());
    assert_eq!(numbering_prefix(99999), b" ".to_vec());
    assert_eq!(numbering_prefix(100000), Vec::<u8>::new());
    assert_eq!(numbering_prefix(u64::MAX), Vec::<u8>::new());
}

#[test]
fn number_field_exact() {
    assert_eq!(cat::number::number_field(1), b"     1\t".to_vec());
    assert_eq!(cat::number::number_field(12), b"    12\t".to_vec());
    assert_eq!(cat::number::number_field(100000), b"100000\t".to_vec());
    assert_eq!(cat::number::number_field(1234567), b"1234567\t".to_vec());
}

#[test]
fn is_blank_checks_first_byte() {
    assert!(is_blank(b"\n"));
    assert!(!is_blank(b"a\n"));
    assert!(!is_blank(b" \n"));
}

#[test]
fn append_str_inserts_before_last_byte() {
    let mut line = b"ab\n".to_vec();
    cat::append_str(&mut line, b"$$");
    assert_eq!(line, b"ab$$\n".to_vec());
}

#[test]
fn split_lines_keeps_delimiters() {
    let parts = split_lines(&b"a\nbc\nd".to_vec());
    assert_eq!(parts, vec![b"a\n".to_vec(), b"bc\n".to_vec(), b"d".to_vec()]);
}

#[test]
fn split_lines_blank_lines() {
    let parts = split_lines(&b"\n\n".to_vec());
    assert_eq!(parts, vec![b"\n".to_vec(), b"\n".to_vec()]);
}

#[test]
fn split_lines_empty_stream() {
    let parts = split_lines(&Vec::new());
    assert_eq!(parts, Vec::<Vec<u8>>::new());
}
