use enclave_tools::fingerprint::{FingerprintRequest, GenerateFingerprintRequest};
use enclave_tools::numparse::IntErrorKind;
use enclave_tools::proxy::{
    address_len, decode_original_dst, split_vsock, OriginalDst, ProxyError, VsockAddrParseError,
    VsockAddress,
};

#[test]
fn vsock_addresses() {
    assert_eq!(split_vsock("3:1200"), Ok(VsockAddress { cid: 3, port: 1200 }));
    assert_eq!(split_vsock("31200"), Err(VsockAddrParseError::SplitError));
    assert_eq!(split_vsock("x:1"), Err(VsockAddrParseError::CidParseError(IntErrorKind::InvalidDigit)));
    assert_eq!(split_vsock("3:1:2"), Err(VsockAddrParseError::PortParseError(IntErrorKind::InvalidDigit)));
    assert_eq!(split_vsock("3:"), Err(VsockAddrParseError::PortParseError(IntErrorKind::Empty)));
    assert_eq!(VsockAddrParseError::SplitError.message(), "invalid vsock address, should contain one colon [:] sign");
}

#[test]
fn original_destinations() {
    assert_eq!(address_len(4), Ok(4));
    assert_eq!(address_len(6), Ok(16));
    assert_eq!(address_len(5), Err(ProxyError::MalformedOriginalDst { marker: 5 }));
    assert_eq!(
        decode_original_dst(4, &[1, 0, 0, 127, 0x50, 0x00]),
        Ok(OriginalDst::V4 { ip: 0x7f000001, port: 80 })
    );
    let mut v6 = vec![0u8; 16];
    v6[0] = 1;
    v6.push(0xbb);
    v6.push(0x01);
    assert_eq!(decode_original_dst(6, &v6), Ok(OriginalDst::V6 { ip: 1, port: 443 }));
    assert_eq!(decode_original_dst(9, &[]), Err(ProxyError::MalformedOriginalDst { marker: 9 }));
    assert_eq!(
        ProxyError::MalformedOriginalDst { marker: 9 }.message(),
        "can't retrieve original_dst from vsock stream: malformed bytes or invalid IP version marker 9"
    );
}

#[test]
fn fingerprint_arguments() {
    let g = GenerateFingerprintRequest {
        key_length: 16,
        response_length: 1,
        num_fingerprints: 8,
        batch_size: 2,
        model_used_for_key_generation: "m".to_string(),
        key_response_strategy: "s".to_string(),
        output_file: "o".to_string(),
    };
    assert_eq!(
        g.to_args(),
        vec![
            "--key_length", "16", "--response_length", "1", "--num_fingerprints", "8", "--batch_size", "2",
            "--model_used_for_key_generation", "m", "--key_response_strategy", "s", "--output_file", "o"
        ]
    );
    let f = FingerprintRequest {
        model_path: "p".to_string(),
        num_fingerprints: 8,
        max_key_length: 16,
        max_response_length: 1,
        batch_size: 4,
        num_train_epochs: 10,
        learning_rate: 1e-5f32.to_string(),
        weight_decay: 0f32.to_string(),
        fingerprint_generation_strategy: "english".to_string(),
        fingerprints_file_path: "f.json".to_string(),
    };
    assert_eq!(
        f.to_args(),
        vec![
            "--model_path", "p", "--num_fingerprints", "8", "--max_key_length", "16", "--max_response_length", "1",
            "--batch_size", "4", "--num_train_epochs", "10", "--learning_rate", "0.00001", "--weight_decay", "0",
            "--fingerprint_generation_strategy", "english", "--fingerprints_file_path", "f.json"
        ]
    );
}
