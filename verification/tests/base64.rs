use opensearch_transport::base64::{decode, encode};

#[test]
fn encode_gives_the_standard_test_vectors() {
    assert_eq!(encode(b""), b"".to_vec());
    assert_eq!(encode(b"f"), b"Zg==".to_vec());
    assert_eq!(encode(b"fo"), b"Zm8=".to_vec());
    assert_eq!(encode(b"foo"), b"Zm9v".to_vec());
    assert_eq!(encode(b"foob"), b"Zm9vYg==".to_vec());
    assert_eq!(encode(b"fooba"), b"Zm9vYmE=".to_vec());
    assert_eq!(encode(b"foobar"), b"Zm9vYmFy".to_vec());
}

#[test]
fn encode_uses_the_whole_alphabet() {
    assert_eq!(encode(&[0xfb, 0xff, 0xbf]), b"+/+/".to_vec());
    assert_eq!(encode(&[0x00, 0x10, 0x83, 0x10, 0x51, 0x87]), b"ABCDEFGH".to_vec());
    assert_eq!(encode(&[0xff, 0xff, 0xff]), b"////".to_vec());
    assert_eq!(encode(&[0xd3, 0x5d, 0xb7]), b"0123".to_vec());
    assert_eq!(encode(&[0x69, 0xb7, 0x1d]), b"abcd".to_vec());
}

#[test]
fn decode_gives_the_standard_test_vectors() {
    assert_eq!(decode(b""), Some(b"".to_vec()));
    assert_eq!(decode(b"Zg=="), Some(b"f".to_vec()));
    assert_eq!(decode(b"Zm8="), Some(b"fo".to_vec()));
    assert_eq!(decode(b"Zm9v"), Some(b"foo".to_vec()));
    assert_eq!(decode(b"Zm9vYg=="), Some(b"foob".to_vec()));
    assert_eq!(decode(b"Zm9vYmE="), Some(b"fooba".to_vec()));
    assert_eq!(decode(b"Zm9vYmFy"), Some(b"foobar".to_vec()));
    assert_eq!(decode(b"+/+/"), Some(vec![0xfb, 0xff, 0xbf]));
}

#[test]
fn decode_refuses_a_text_that_is_not_whole_groups() {
    assert_eq!(decode(b"Z"), None);
    assert_eq!(decode(b"Zg"), None);
    assert_eq!(decode(b"Zg="), None);
    assert_eq!(decode(b"Zm9vY"), None);
}

#[test]
fn decode_refuses_characters_outside_the_alphabet() {
    assert_eq!(decode(b"Zm9-"), None);
    assert_eq!(decode(b"Zm9_"), None);
    assert_eq!(decode(b"Zm 9"), None);
    assert_eq!(decode(b"Zm9v\n"), None);
    assert_eq!(decode(&[0x5a, 0x6d, 0x39, 0xff]), None);
}

#[test]
fn decode_refuses_padding_out_of_place() {
    assert_eq!(decode(b"===="), None);
    assert_eq!(decode(b"Z==="), None);
    assert_eq!(decode(b"=g=="), None);
    assert_eq!(decode(b"Zg=g"), None);
    assert_eq!(decode(b"Zg==Zm9v"), None);
    assert_eq!(decode(b"Zm8=Zm9v"), None);
}

#[test]
fn decode_refuses_unused_bits_that_are_not_zero() {
    assert_eq!(decode(b"Zh=="), None);
    assert_eq!(decode(b"Zm9="), None);
    assert_eq!(decode(b"Zm8="), Some(b"fo".to_vec()));
}

#[test]
fn decode_inverts_encode_on_every_length() {
    let data: Vec<u8> = (0..=255u8).collect();
    for n in 0..data.len() {
        let text = encode(&data[..n]);
        assert_eq!(text.len(), (n + 2) / 3 * 4);
        assert_eq!(decode(&text), Some(data[..n].to_vec()));
    }
}
