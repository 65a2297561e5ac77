use fx::codec::decode_envelope;
use fx::codec::encode_envelope;
use fx::codec::Ciphertext;

#[test]
fn encode_matches_wire_format() {
    let env = Ciphertext {
        nonce: [0, 1, 2, 3, 4, 5, 6, 7, 8, 9, 10, 11],
        ciphertext: vec![0, 7, 42, 200, 255],
    };
    let encoded = encode_envelope(&env);
    assert_eq!(
        encoded,
        "{\"nonce\":[0,1,2,3,4,5,6,7,8,9,10,11],\"ciphertext\":[0,7,42,200,255]}"
    );
}

#[test]
fn encode_decode_roundtrip() {
    let env = Ciphertext {
        nonce: [255, 254, 0, 1, 99, 100, 101, 9, 10, 11, 128, 200],
        ciphertext: (0..=255).collect(),
    };
    let decoded = decode_envelope(&encode_envelope(&env)).unwrap();
    assert_eq!(decoded.nonce, env.nonce);
    assert_eq!(decoded.ciphertext, env.ciphertext);
}

#[test]
fn empty_ciphertext_roundtrips() {
    let env = Ciphertext { nonce: [9; 12], ciphertext: vec![] };
    let encoded = encode_envelope(&env);
    assert_eq!(encoded, "{\"nonce\":[9,9,9,9,9,9,9,9,9,9,9,9],\"ciphertext\":[]}");
    let decoded = decode_envelope(&encoded).unwrap();
    assert_eq!(decoded.nonce, env.nonce);
    assert!(decoded.ciphertext.is_empty());
}

#[test]
fn decode_rejects_malformed_values() {
    let bad = [
        "",
        "{",
        "{}",
        "null",
        "{\"nonce\":[],\"ciphertext\":[]}",
        "{\"nonce\":[1,2,3,4,5,6,7,8,9,10,11],\"ciphertext\":[]}",
        "{\"nonce\":[1,2,3,4,5,6,7,8,9,10,11,12,13],\"ciphertext\":[]}",
        "{\"nonce\":[1,2,3,4,5,6,7,8,9,10,11,256],\"ciphertext\":[]}",
        "{\"nonce\":[1,2,3,4,5,6,7,8,9,10,11,012],\"ciphertext\":[]}",
        "{\"nonce\":[1,2,3,4,5,6,7,8,9,10,11,12],\"ciphertext\":[1,]}",
        "{\"nonce\":[1,2,3,4,5,6,7,8,9,10,11,12],\"ciphertext\":[1] }",
        "{\"nonce\":[1,2,3,4,5,6,7,8,9,10,11,12],\"ciphertext\":[1]}x",
        "{\"nonce\": [1,2,3,4,5,6,7,8,9,10,11,12],\"ciphertext\":[1]}",
        "{\"nonce\":[1,2,3,4,5,6,7,8,9,10,11,12],\"ciphertext\":[-1]}",
        "{\"ciphertext\":[1],\"nonce\":[1,2,3,4,5,6,7,8,9,10,11,12]}",
    ];
    for value in bad {
        assert!(decode_envelope(value).is_none(), "accepted: {value}");
    }
}

#[test]
fn decode_accepts_exactly_the_canonical_form() {
    let value = "{\"nonce\":[1,2,3,4,5,6,7,8,9,10,11,12],\"ciphertext\":[13,250]}";
    let env = decode_envelope(value).unwrap();
    assert_eq!(env.nonce, [1, 2, 3, 4, 5, 6, 7, 8, 9, 10, 11, 12]);
    assert_eq!(env.ciphertext, vec![13, 250]);
    assert_eq!(encode_envelope(&env), value);
}
