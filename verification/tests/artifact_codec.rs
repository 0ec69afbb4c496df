use proving_api::artifacts::{
    BatchProof, BundleProof, ChunkInfo, ChunkProof, Hash32, Proof, SubCircuitRowUsage,
};

fn sample_proof() -> Proof {
    Proof {
        proof: vec![1, 2, 3],
        instances: vec![],
        vk: vec![9, 9],
        git_version: Some("abc".to_string()),
    }
}

fn sample_chunk_info() -> ChunkInfo {
    ChunkInfo {
        chain_id: 534352,
        prev_state_root: Hash32::zero(),
        post_state_root: Hash32::from_bytes(vec![0xab; 32]).unwrap(),
        withdraw_root: Hash32::zero(),
        data_hash: Hash32::from_bytes(vec![0x01; 32]).unwrap(),
        tx_bytes: vec![0xde, 0xad],
        is_padding: false,
    }
}

#[test]
fn proof_encodes_to_expected_text() {
    let json = sample_proof().to_json();
    assert_eq!(
        json,
        "{\"proof\":\"AQID\",\"instances\":\"\",\"vk\":\"CQk=\",\"git_version\":\"abc\"}"
    );
}

#[test]
fn empty_bytes_encode_to_empty_base64() {
    let json = sample_proof().to_json();
    assert!(json.contains("\"instances\":\"\""));
}

#[test]
fn proof_round_trips() {
    let p = sample_proof();
    let json = p.to_json();
    let q = Proof::from_json(&json).unwrap();
    assert_eq!(q.proof, vec![1, 2, 3]);
    assert_eq!(q.instances, Vec::<u8>::new());
    assert_eq!(q.vk, vec![9, 9]);
    assert_eq!(q.git_version.as_deref(), Some("abc"));
}

#[test]
fn proof_without_git_version_round_trips() {
    let p = Proof { proof: vec![255, 0, 16], instances: vec![7], vk: vec![], git_version: None };
    let json = p.to_json();
    assert!(json.contains("\"git_version\":null"));
    let q = Proof::from_json(&json).unwrap();
    assert_eq!(q.proof, vec![255, 0, 16]);
    assert_eq!(q.instances, vec![7]);
    assert_eq!(q.vk, Vec::<u8>::new());
    assert_eq!(q.git_version, None);
}

#[test]
fn malformed_base64_fails_decoding() {
    // One corrupted byte field at a time: decoding must fail, never yield an
    // empty or truncated blob.
    let good = "{\"proof\":\"AQID\",\"instances\":\"\",\"vk\":\"CQk=\",\"git_version\":\"abc\"}";
    assert!(Proof::from_json(good).is_ok());
    let bad_proof = good.replace("AQID", "A!ID");
    assert!(Proof::from_json(&bad_proof).is_err());
    let bad_vk = good.replace("CQk=", "CQk");
    assert!(Proof::from_json(&bad_vk).is_err());
    let bad_pad = good.replace("AQID", "AQ=A");
    assert!(Proof::from_json(&bad_pad).is_err());
}

#[test]
fn truncated_text_fails_decoding() {
    let good = sample_proof().to_json();
    assert!(Proof::from_json(&good[..good.len() - 1]).is_err());
    assert!(Proof::from_json("").is_err());
    assert!(Proof::from_json("{}").is_err());
}

#[test]
fn bundle_proof_is_a_flattened_proof() {
    let b = BundleProof { on_chain_proof: sample_proof() };
    let json = b.to_json();
    assert_eq!(
        json,
        "{\"proof\":\"AQID\",\"instances\":\"\",\"vk\":\"CQk=\",\"git_version\":\"abc\"}"
    );
    let back = BundleProof::from_json(&json).unwrap();
    assert_eq!(back.on_chain_proof.vk, vec![9, 9]);
}

#[test]
fn chunk_proof_flattens_embedded_proof_keys() {
    let cp = ChunkProof {
        protocol: vec![5],
        proof: sample_proof(),
        chunk_info: sample_chunk_info(),
        row_usages: vec![SubCircuitRowUsage { name: "evm".to_string(), row_number: 42 }],
    };
    let json = cp.to_json();
    let v: serde_json::Value = serde_json::from_str(&json).unwrap();
    let obj = v.as_object().unwrap();
    // The embedded proof's keys are siblings of the chunk proof's own keys,
    // not nested under a "proof" object.
    assert!(obj["proof"].is_string());
    assert!(obj["instances"].is_string());
    assert!(obj["vk"].is_string());
    assert!(obj.contains_key("git_version"));
    assert!(obj.contains_key("chunk_info"));
    assert!(obj.contains_key("row_usages"));
    assert_eq!(obj["proof"].as_str().unwrap(), "AQID");
    assert_eq!(obj["chunk_info"]["chain_id"].as_u64().unwrap(), 534352);
    assert_eq!(obj["row_usages"][0]["name"].as_str().unwrap(), "evm");
    assert_eq!(obj["row_usages"][0]["row_number"].as_u64().unwrap(), 42);
}

#[test]
fn chunk_info_hashes_encode_as_fixed_width_hex() {
    let json = sample_chunk_info().to_json();
    let v: serde_json::Value = serde_json::from_str(&json).unwrap();
    let prev = v["prev_state_root"].as_str().unwrap();
    assert_eq!(prev, format!("0x{}", "00".repeat(32)));
    let post = v["post_state_root"].as_str().unwrap();
    assert_eq!(post, format!("0x{}", "ab".repeat(32)));
    assert_eq!(v["tx_bytes"].as_str().unwrap(), "3q0=");
    assert_eq!(v["is_padding"], serde_json::Value::Bool(false));
}

#[test]
fn batch_proof_flattens_and_carries_batch_hash() {
    let bp = BatchProof {
        protocol: vec![],
        proof: sample_proof(),
        batch_hash: Hash32::from_bytes(vec![0x11; 32]).unwrap(),
    };
    let json = bp.to_json();
    let v: serde_json::Value = serde_json::from_str(&json).unwrap();
    let obj = v.as_object().unwrap();
    assert!(obj["proof"].is_string());
    assert_eq!(obj["batch_hash"].as_str().unwrap(), format!("0x{}", "11".repeat(32)));
}

#[test]
fn batch_proof_round_trips() {
    let bp = BatchProof {
        protocol: vec![1, 2],
        proof: sample_proof(),
        batch_hash: Hash32::from_bytes(vec![0x11; 32]).unwrap(),
    };
    let json = bp.to_json();
    let back = BatchProof::from_json(&json).unwrap();
    assert_eq!(back.protocol, vec![1, 2]);
    assert_eq!(back.proof.proof, vec![1, 2, 3]);
    assert_eq!(back.proof.git_version.as_deref(), Some("abc"));
    assert_eq!(back.batch_hash.bytes, vec![0x11; 32]);
}

#[test]
fn batch_proof_rejects_malformed_fields() {
    let bp = BatchProof {
        protocol: vec![1, 2],
        proof: sample_proof(),
        batch_hash: Hash32::from_bytes(vec![0x11; 32]).unwrap(),
    };
    let json = bp.to_json();
    assert!(BatchProof::from_json(&json.replace("AQID", "AQI_D")).is_err());
    // A batch hash shorter than 32 bytes of hex is refused.
    assert!(BatchProof::from_json(&json.replace(&"11".repeat(32), &"11".repeat(31))).is_err());
    // A batch hash with a non-hex digit is refused.
    assert!(
        BatchProof::from_json(&json.replace(&"11".repeat(32), &format!("g1{}", "11".repeat(31))))
            .is_err()
    );
}

#[test]
fn chunk_info_round_trips() {
    let info = sample_chunk_info();
    let json = info.to_json();
    let back = ChunkInfo::from_json(&json).unwrap();
    assert_eq!(back.chain_id, 534352);
    assert_eq!(back.prev_state_root.bytes, vec![0u8; 32]);
    assert_eq!(back.post_state_root.bytes, vec![0xab; 32]);
    assert_eq!(back.data_hash.bytes, vec![0x01; 32]);
    assert_eq!(back.tx_bytes, vec![0xde, 0xad]);
    assert!(!back.is_padding);
}

#[test]
fn chunk_info_rejects_malformed_fields() {
    let json = sample_chunk_info().to_json();
    // Malformed base64 transaction bytes.
    assert!(ChunkInfo::from_json(&json.replace("3q0=", "3q0")).is_err());
    // A non-hex digit in a hash.
    assert!(ChunkInfo::from_json(&json.replace(&"ab".repeat(32), &format!("zb{}", "ab".repeat(31)))).is_err());
    // A non-canonical decimal with a leading zero.
    assert!(ChunkInfo::from_json(&json.replace("534352", "0534352")).is_err());
    // A decimal beyond 64 bits.
    assert!(ChunkInfo::from_json(&json.replace("534352", "99999999999999999999999")).is_err());
}

#[test]
fn chain_id_encodes_as_full_decimal() {
    let mut info = sample_chunk_info();
    info.chain_id = u64::MAX;
    let v: serde_json::Value = serde_json::from_str(&info.to_json()).unwrap();
    assert_eq!(v["chain_id"].as_u64().unwrap(), u64::MAX);
    info.chain_id = 0;
    let v0: serde_json::Value = serde_json::from_str(&info.to_json()).unwrap();
    assert_eq!(v0["chain_id"].as_u64().unwrap(), 0);
}

#[test]
fn hash32_refuses_other_lengths() {
    assert!(Hash32::from_bytes(vec![0; 31]).is_err());
    assert!(Hash32::from_bytes(vec![0; 33]).is_err());
    assert!(Hash32::from_bytes(vec![0; 32]).is_ok());
}

#[test]
fn git_version_is_escaped_and_round_trips() {
    let p = Proof {
        proof: vec![],
        instances: vec![],
        vk: vec![],
        git_version: Some("a\"b\\c\u{1}".to_string()),
    };
    let json = p.to_json();
    assert!(json.contains("\"git_version\":\"a\\\"b\\\\c\\u0001\""));
    // The emitted text is real JSON: serde_json reads the same string back.
    let v: serde_json::Value = serde_json::from_str(&json).unwrap();
    assert_eq!(v["git_version"].as_str().unwrap(), "a\"b\\c\u{1}");
    // And the library's own decoder inverts the escape.
    let q = Proof::from_json(&json).unwrap();
    assert_eq!(q.git_version.as_deref(), Some("a\"b\\c\u{1}"));
}

#[test]
fn non_canonical_escapes_are_rejected() {
    let good = sample_proof().to_json();
    // An unescaped raw control character.
    assert!(Proof::from_json(&good.replace("abc", "a\u{1}c")).is_err());
    // A lone backslash escape of the wrong kind.
    assert!(Proof::from_json(&good.replace("abc", "a\\nc")).is_err());
    // A \u escape outside the control range.
    assert!(Proof::from_json(&good.replace("abc", "a\\u0041c")).is_err());
}

#[test]
fn sub_circuit_names_are_escaped() {
    let cp = ChunkProof {
        protocol: vec![],
        proof: sample_proof(),
        chunk_info: sample_chunk_info(),
        row_usages: vec![SubCircuitRowUsage { name: "a\"b".to_string(), row_number: 7 }],
    };
    let v: serde_json::Value = serde_json::from_str(&cp.to_json()).unwrap();
    assert_eq!(v["row_usages"][0]["name"].as_str().unwrap(), "a\"b");
}
