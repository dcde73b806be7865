use copilot_core::blob::{embedding_from_blob, embedding_to_blob};

fn bits(embedding: &[f32]) -> Vec<u32> {
    embedding.iter().map(|f| f.to_bits()).collect()
}

fn floats(words: &[u32]) -> Vec<f32> {
    words.iter().map(|w| f32::from_bits(*w)).collect()
}

#[test]
fn embedding_blob_round_trips() {
    let embedding = vec![0.1f32, -0.5, 0.0, 1.0];
    let blob = embedding_to_blob(&bits(&embedding));
    assert_eq!(blob.len(), embedding.len() * 4);
    let decoded = floats(&embedding_from_blob(&blob));
    assert_eq!(decoded.len(), embedding.len());
    for (a, b) in decoded.iter().zip(embedding.iter()) {
        assert!((a - b).abs() < 1e-6);
    }
    assert!(embedding_from_blob(&[1, 2, 3]).is_empty(), "misaligned");
}

#[test]
fn blob_bytes_are_little_endian_bit_patterns() {
    let blob = embedding_to_blob(&bits(&[1.0f32]));
    assert_eq!(blob, 1.0f32.to_le_bytes().to_vec());
    assert_eq!(embedding_to_blob(&[0x0403_0201]), vec![1, 2, 3, 4]);
    assert_eq!(embedding_from_blob(&[1, 2, 3, 4, 0xff, 0, 0, 0]), vec![0x0403_0201, 0xff]);
}

#[test]
fn empty_and_misaligned_blobs_decode_to_nothing() {
    assert!(embedding_from_blob(&[]).is_empty());
    assert!(embedding_from_blob(&[0; 7]).is_empty());
    assert!(embedding_to_blob(&[]).is_empty());
}
