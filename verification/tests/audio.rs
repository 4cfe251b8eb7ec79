use tinta_core::audio::{frame, message_length, pcm_data, wav, FrameError, MAX_MESSAGE};

#[test]
fn wav_files_read_back_their_samples() {
    let samples: Vec<u8> = (0..=255u8).collect();
    let file = wav(&samples);
    assert_eq!(file.len(), 44 + samples.len());
    assert_eq!(&file[0..4], b"RIFF");
    assert_eq!(u32::from_le_bytes(file[4..8].try_into().unwrap()), 36 + 256);
    assert_eq!(&file[8..16], b"WAVEfmt ");
    assert_eq!(u32::from_le_bytes(file[24..28].try_into().unwrap()), 16000);
    assert_eq!(&file[36..40], b"data");
    assert_eq!(pcm_data(&file), Some(samples));
}

#[test]
fn pcm_data_skips_other_chunks_and_cuts_short_files() {
    let mut file = b"RIFF\0\0\0\0WAVE".to_vec();
    file.extend_from_slice(b"LIST");
    file.extend_from_slice(&3u32.to_le_bytes());
    file.extend_from_slice(&[1, 2, 3, 0]);
    file.extend_from_slice(b"data");
    file.extend_from_slice(&10u32.to_le_bytes());
    file.extend_from_slice(&[9, 8, 7]);
    assert_eq!(pcm_data(&file), Some(vec![9, 8, 7]));
    assert_eq!(pcm_data(b"RIFF\0\0\0\0WAVE"), None);
    assert_eq!(pcm_data(&[]), None);
}

#[test]
fn native_messages_carry_their_length() {
    let body = br#"{"type":"ping"}"#;
    let framed = frame(body);
    assert_eq!(framed.len(), 4 + body.len());
    assert_eq!(&framed[4..], body);
    let header: [u8; 4] = framed[0..4].try_into().unwrap();
    assert_eq!(message_length(&header), Ok(body.len()));
    assert_eq!(message_length(&(MAX_MESSAGE as u32).to_le_bytes()), Ok(MAX_MESSAGE));
    assert_eq!(message_length(&(MAX_MESSAGE as u32 + 1).to_le_bytes()), Err(FrameError::TooLarge));
}
