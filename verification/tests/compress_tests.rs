use service::compress_message;

fn test_some(rx: &[u8], expect: &[u8]) {
    let mut tx = vec![0u8; 32];
    let res = compress_message(rx, &mut tx);
    assert_eq!(&tx[..res.unwrap()], expect);
}

#[test]
fn test_none() {
    let mut tx: Vec<u8> = Vec::new();
    let result = compress_message(&[], &mut tx);
    assert_eq!(result, None);
}

#[test]
fn test_compress_message() {
    test_some(&[97u8], &[97]);
    test_some(&[97u8, 97], &[97, 97]);
    test_some(&[97u8, 97, 97], &[51, 97]);
    test_some(&[97u8, 97, 97, 98], &[51, 97, 98]);
    test_some(&[97u8, 97, 98, 98], &[97, 97, 98, 98]);

    let msg = [97u8, 97, 97, 97, 97, 97, 97, 97, 97, 97];
    test_some(&msg, &[49, 48, 97]);

    let msg = [97u8, 97, 97, 97, 97, 97, 97, 97, 97, 97, 97];
    test_some(&msg, &[49, 49, 97]);
}

#[test]
fn test_compress_examples() {
    test_some(b"a", b"a");
    test_some(b"aa", b"aa");
    test_some(b"aaa", b"3a");
    test_some(b"aaaaabbb", b"5a3b");
    test_some(b"aaaaabbbbbbaaabb", b"5a6b3abb");
    test_some(b"abcdefg", b"abcdefg");
    test_some(b"aaaccddddhhhhi", b"3acc4d4hi");
}

#[test]
fn test_compress_never_expands() {
    let inputs: [&[u8]; 6] = [
        b"a",
        b"aa",
        b"aaa",
        b"aaaaabbbbbbaaabb",
        b"abcdefg",
        b"aaaccddddhhhhi",
    ];
    for rx in inputs.iter() {
        let mut tx = vec![0u8; rx.len()];
        let n = compress_message(rx, &mut tx).unwrap();
        assert!(n <= rx.len());
    }
}

#[test]
fn test_compress_input_larger_than_destination() {
    let mut tx = vec![0u8; 2];
    assert_eq!(compress_message(b"aaa", &mut tx), None);
    assert_eq!(tx, vec![0u8, 0]);
}
