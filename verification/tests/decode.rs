use silences::decode::decode_text;

#[test]
fn decode_text_keeps_utf8() {
    let bytes = "héllo, 世界".as_bytes().to_vec();
    assert_eq!(decode_text(&bytes), "héllo, 世界");
}

#[test]
fn decode_text_reads_gbk() {
    // "中文" in GBK
    let bytes: Vec<u8> = vec![0xD6, 0xD0, 0xCE, 0xC4];
    assert_eq!(decode_text(&bytes), "中文");
}

#[test]
fn decode_text_falls_back_to_windows_1252() {
    // a lone 0xFF is malformed in GBK, Shift_JIS and EUC-KR, and is 'ÿ' in Windows-1252
    let bytes: Vec<u8> = vec![b'a', 0xFF];
    assert_eq!(decode_text(&bytes), "aÿ");
}

#[test]
fn decode_text_empty() {
    assert_eq!(decode_text(&[]), "");
}
