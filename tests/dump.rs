use hexdump::{encode, to_char, DumpError, HexDumper};

fn dump_chunks(chunks: &[&[u8]]) -> Vec<u8> {
    let mut d = HexDumper::new();
    let mut out = Vec::new();
    for c in chunks {
        assert_eq!(d.write(c, &mut out), Ok(c.len()));
    }
    d.close(&mut out);
    out
}

fn dump_all(input: &[u8]) -> String {
    String::from_utf8(dump_chunks(&[input])).unwrap()
}

#[test]
fn encode_writes_lowercase_pairs() {
    let mut dest = [b'x'; 8];
    let n = encode(&mut dest, &[0x00, 0xab, 0x7f]);
    assert_eq!(n, 6);
    assert_eq!(&dest, b"00ab7fxx");
}

#[test]
fn encode_empty_source_leaves_dest() {
    let mut dest = [b'z'; 2];
    assert_eq!(encode(&mut dest, &[]), 0);
    assert_eq!(&dest, b"zz");
}

#[test]
fn to_char_classifies_printable_range() {
    assert_eq!(to_char(31), b'.');
    assert_eq!(to_char(32), b' ');
    assert_eq!(to_char(b'A'), b'A');
    assert_eq!(to_char(126), b'~');
    assert_eq!(to_char(127), b'.');
    assert_eq!(to_char(0), b'.');
    assert_eq!(to_char(255), b'.');
    for b in 0..=255u8 {
        let c = to_char(b);
        assert_eq!(c == b, (32..=126).contains(&b));
        if c != b {
            assert_eq!(c, b'.');
        }
    }
}

#[test]
fn two_bytes_padded_line() {
    let expected = format!(
        "00000000  48 69 {}{}{}{}Hi|\n",
        " ".repeat(15),
        "    ",
        " ".repeat(21),
        "    |"
    );
    assert_eq!(dump_all(b"Hi"), expected);
    assert_eq!(expected.len(), 65);
}

#[test]
fn sixteen_bytes_one_line() {
    let input: Vec<u8> = (0u8..16).collect();
    assert_eq!(
        dump_all(&input),
        "00000000  00 01 02 03 04 05 06 07  08 09 0a 0b 0c 0d 0e 0f  |................|\n"
    );
}

#[test]
fn seventeen_bytes_two_lines() {
    let input = [b'A'; 17];
    let expected = format!(
        "00000000  41 41 41 41 41 41 41 41  41 41 41 41 41 41 41 41  |AAAAAAAAAAAAAAAA|\n\
         00000010  41 {}{}{}{}A|\n",
        " ".repeat(18),
        "    ",
        " ".repeat(21),
        "    |"
    );
    assert_eq!(dump_all(&input), expected);
}

#[test]
fn zero_bytes_close_emits_nothing_on_full_lines() {
    for k in [0usize, 16, 32, 48] {
        let input = vec![0u8; k];
        let mut d = HexDumper::new();
        let mut out = Vec::new();
        d.write(&input, &mut out).unwrap();
        let before = out.len();
        assert_eq!(before, 79 * (k / 16));
        d.close(&mut out);
        assert_eq!(out.len(), before);
    }
}

#[test]
fn zero_bytes_close_completes_partial_line() {
    for k in [1usize, 5, 15, 17, 40] {
        let out = dump_all(&vec![0u8; k]);
        let lines: Vec<&str> = out.split_terminator('\n').collect();
        assert_eq!(lines.len(), (k + 15) / 16);
        let last = lines[lines.len() - 1];
        assert_eq!(last.len(), 62 + k % 16);
        assert!(last.ends_with('|'));
        assert!(out.ends_with("|\n"));
    }
}

#[test]
fn offsets_count_sixteen_per_line() {
    let input = vec![7u8; 16 * 20];
    let out = dump_all(&input);
    for (j, line) in out.split_terminator('\n').enumerate() {
        assert_eq!(&line[..10], format!("{:08x}  ", 16 * j));
    }
}

#[test]
fn close_twice_emits_once() {
    let mut d = HexDumper::new();
    let mut out = Vec::new();
    d.write(b"abc", &mut out).unwrap();
    d.close(&mut out);
    let once = out.clone();
    d.close(&mut out);
    assert_eq!(out, once);
    assert!(d.closed());
}

#[test]
fn write_after_close_fails_silently() {
    let mut d = HexDumper::new();
    let mut out = Vec::new();
    d.write(b"abc", &mut out).unwrap();
    d.close(&mut out);
    let once = out.clone();
    assert_eq!(d.write(b"more", &mut out), Err(DumpError::WriteClosed));
    assert_eq!(out, once);
}

#[test]
fn flush_only_while_open() {
    let mut d = HexDumper::new();
    let mut out = Vec::new();
    assert_eq!(d.flush(), Ok(()));
    d.close(&mut out);
    assert_eq!(d.flush(), Err(DumpError::FlushClosed));
}

#[test]
fn chunking_does_not_change_output() {
    let input: Vec<u8> = (0..100u32).map(|i| (i * 37 % 256) as u8).collect();
    let whole = dump_chunks(&[&input]);
    let singles: Vec<&[u8]> = input.chunks(1).collect();
    assert_eq!(dump_chunks(&singles), whole);
    let sevens: Vec<&[u8]> = input.chunks(7).collect();
    assert_eq!(dump_chunks(&sevens), whole);
    let uneven: Vec<&[u8]> = vec![&input[..0], &input[..15], &input[15..16], &input[16..99], &input[99..]];
    assert_eq!(dump_chunks(&uneven), whole);
}

#[test]
fn sidebar_marks_unprintable() {
    let out = dump_all(&[b'a', 0x0a, 0x7f, b'~']);
    assert!(out.starts_with("00000000  61 0a 7f 7e "));
    assert!(out.ends_with("|a..~|\n"));
}
