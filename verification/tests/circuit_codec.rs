use proving_api::circuit::CircuitType;

#[test]
fn u8_codec_round_trips_defined_values() {
    for v in 0u8..=3 {
        assert_eq!(CircuitType::from_u8(v).to_u8(), v);
    }
    assert_eq!(CircuitType::from_u8(CircuitType::Undefined.to_u8()), CircuitType::Undefined);
    assert_eq!(CircuitType::from_u8(CircuitType::Chunk.to_u8()), CircuitType::Chunk);
    assert_eq!(CircuitType::from_u8(CircuitType::Batch.to_u8()), CircuitType::Batch);
    assert_eq!(CircuitType::from_u8(CircuitType::Bundle.to_u8()), CircuitType::Bundle);
}

#[test]
fn u8_decode_is_lenient_above_three() {
    for v in 4u8..=255 {
        assert_eq!(CircuitType::from_u8(v), CircuitType::Undefined);
    }
}

#[test]
fn str_decode_known_names() {
    assert_eq!(CircuitType::from_string("chunk"), CircuitType::Chunk);
    assert_eq!(CircuitType::from_string("batch"), CircuitType::Batch);
    assert_eq!(CircuitType::from_string("bundle"), CircuitType::Bundle);
}

#[test]
fn str_decode_is_lenient_elsewhere() {
    for s in ["", "Chunk", "chunk ", "batches", "undefined", "CHUNK", "bundl"] {
        assert_eq!(CircuitType::from_string(s), CircuitType::Undefined);
    }
}

#[test]
fn display_inverts_str_decode() {
    assert_eq!(CircuitType::from_string("chunk").display(), "chunk");
    assert_eq!(CircuitType::Undefined.display(), "undefined");
    assert_eq!(CircuitType::Batch.display(), "batch");
    assert_eq!(CircuitType::Bundle.display(), "bundle");
    for t in [
        CircuitType::Undefined,
        CircuitType::Chunk,
        CircuitType::Batch,
        CircuitType::Bundle,
    ] {
        assert_eq!(CircuitType::from_string(t.display()), t);
    }
}
