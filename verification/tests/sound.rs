use pigeon::sound::{read_pcm_s16le_wav, SoundDecision, SoundPlayer, WavError};

fn fmt_chunk(format: u16, channels: u16, rate: u32, bits: u16) -> Vec<u8> {
    let block_align = channels * bits / 8;
    let mut chunk = Vec::new();
    chunk.extend_from_slice(&format.to_le_bytes());
    chunk.extend_from_slice(&channels.to_le_bytes());
    chunk.extend_from_slice(&rate.to_le_bytes());
    chunk.extend_from_slice(&(rate * block_align as u32).to_le_bytes());
    chunk.extend_from_slice(&block_align.to_le_bytes());
    chunk.extend_from_slice(&bits.to_le_bytes());
    chunk
}

fn wav(chunks: &[(&[u8; 4], Vec<u8>)]) -> Vec<u8> {
    let mut body = b"WAVE".to_vec();
    for (id, data) in chunks {
        body.extend_from_slice(&id[..]);
        body.extend_from_slice(&(data.len() as u32).to_le_bytes());
        body.extend_from_slice(data);
        if data.len() % 2 == 1 {
            body.push(0);
        }
    }
    let mut out = b"RIFF".to_vec();
    out.extend_from_slice(&(body.len() as u32).to_le_bytes());
    out.extend_from_slice(&body);
    out
}

#[test]
fn reads_pcm_samples() {
    let bytes = wav(&[(b"fmt ", fmt_chunk(1, 2, 44100, 16)), (b"data", vec![1, 2, 3, 4])]);
    let wav = read_pcm_s16le_wav(&bytes).unwrap().unwrap();
    assert_eq!(wav.sample_rate, 44100);
    assert_eq!(wav.channels, 2);
    assert_eq!(wav.data, vec![1, 2, 3, 4]);
}

#[test]
fn skips_other_chunks_and_their_padding() {
    let bytes = wav(&[
        (b"LIST", vec![9, 9, 9]),
        (b"fmt ", fmt_chunk(1, 1, 8000, 16)),
        (b"data", vec![5, 6]),
    ]);
    let wav = read_pcm_s16le_wav(&bytes).unwrap().unwrap();
    assert_eq!(wav.sample_rate, 8000);
    assert_eq!(wav.channels, 1);
    assert_eq!(wav.data, vec![5, 6]);
}

#[test]
fn rejects_files_that_are_not_pcm_wav() {
    assert!(matches!(read_pcm_s16le_wav(b"RIFX\0\0\0\0WAVE"), Ok(None)));
    let eight_bit = wav(&[(b"fmt ", fmt_chunk(1, 1, 8000, 8)), (b"data", vec![1, 2])]);
    assert!(matches!(read_pcm_s16le_wav(&eight_bit), Ok(None)));
    let float = wav(&[(b"fmt ", fmt_chunk(3, 1, 8000, 16)), (b"data", vec![1, 2])]);
    assert!(matches!(read_pcm_s16le_wav(&float), Ok(None)));
    let silent = wav(&[(b"fmt ", fmt_chunk(1, 0, 8000, 16)), (b"data", vec![1, 2])]);
    assert!(matches!(read_pcm_s16le_wav(&silent), Ok(None)));
    let no_data = wav(&[(b"fmt ", fmt_chunk(1, 1, 8000, 16))]);
    assert!(matches!(read_pcm_s16le_wav(&no_data), Ok(None)));
    let big_fmt = wav(&[(b"fmt ", vec![0; 300]), (b"data", vec![1, 2])]);
    assert!(matches!(read_pcm_s16le_wav(&big_fmt), Ok(None)));
}

#[test]
fn a_data_chunk_over_the_limit_is_refused() {
    let mut bytes = wav(&[(b"fmt ", fmt_chunk(1, 1, 8000, 16))]);
    bytes.extend_from_slice(b"data");
    bytes.extend_from_slice(&9_000_000u32.to_le_bytes());
    assert!(matches!(read_pcm_s16le_wav(&bytes), Ok(None)));
}

#[test]
fn files_cut_short_are_errors() {
    assert!(matches!(read_pcm_s16le_wav(b"RIFF\0\0"), Err(WavError::Truncated)));
    let mut bytes = wav(&[(b"fmt ", fmt_chunk(1, 1, 8000, 16))]);
    bytes.extend_from_slice(b"data");
    bytes.extend_from_slice(&100u32.to_le_bytes());
    bytes.extend_from_slice(&[1, 2, 3, 4]);
    assert!(matches!(read_pcm_s16le_wav(&bytes), Err(WavError::Truncated)));
}

#[test]
fn a_trailing_partial_chunk_header_ends_the_file() {
    let mut bytes = wav(&[(b"fmt ", fmt_chunk(1, 1, 8000, 16)), (b"data", vec![7, 8])]);
    bytes.extend_from_slice(b"ju");
    let wav = read_pcm_s16le_wav(&bytes).unwrap().unwrap();
    assert_eq!(wav.data, vec![7, 8]);
}

#[test]
fn sounds_wait_out_the_cooldown() {
    let mut player = SoundPlayer::new();
    assert_eq!(player.decide(false, true, 0, 250), SoundDecision::Disabled);
    assert_eq!(player.decide(true, false, 0, 250), SoundDecision::NoFile);
    assert_eq!(player.decide(true, true, 1000, 250), SoundDecision::Play);
    assert_eq!(player.decide(true, true, 1100, 250), SoundDecision::CoolingDown);
    assert_eq!(player.decide(true, true, 1249, 250), SoundDecision::CoolingDown);
    assert_eq!(player.decide(true, true, 1250, 250), SoundDecision::Play);
    assert_eq!(player.decide(true, true, 900, 250), SoundDecision::CoolingDown);
}

#[test]
fn cooldown_checks_record_the_time_played() {
    let mut player = SoundPlayer::new();
    assert!(!player.is_on_cooldown(10, 0));
    assert!(!player.is_on_cooldown(10, 0));
    assert!(player.is_on_cooldown(10, 1));
}
