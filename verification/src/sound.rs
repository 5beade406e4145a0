//! Notification sounds: reading 16-bit PCM WAV files and deciding when a
//! sound may play.

use vstd::prelude::*;

verus! {

/// The largest `data` chunk played.
pub const MAX_PULSE_WAV_BYTES: u32 = 8388608;

/// The largest `fmt ` chunk accepted.
pub const MAX_WAV_FMT_CHUNK_BYTES: u32 = 256;

/// The samples of a PCM s16le WAV file.
pub struct WavData {
    pub sample_rate: u32,
    pub channels: u8,
    pub data: Vec<u8>,
}

/// The content of [`WavData`].
pub struct WavModel {
    pub sample_rate: u32,
    pub channels: u8,
    pub data: Seq<u8>,
}

impl View for WavData {
    type V = WavModel;

    open spec fn view(&self) -> WavModel {
        WavModel { sample_rate: self.sample_rate, channels: self.channels, data: self.data@ }
    }
}

/// Why a WAV file could not be read.
#[derive(Clone, Copy, Debug, PartialEq, Eq, Structural)]
pub enum WavError {
    /// The file ends inside its header or inside a chunk it needs.
    Truncated,
}

/// The little-endian 16-bit value at `i`.
pub open spec fn u16_le(b: Seq<u8>, i: int) -> int {
    b[i] + 256 * b[i + 1]
}

/// The little-endian 32-bit value at `i`.
pub open spec fn u32_le(b: Seq<u8>, i: int) -> int {
    b[i] + 256 * b[i + 1] + 65536 * b[i + 2] + 16777216 * b[i + 3]
}

/// Whether the four bytes at `i` are `t0 t1 t2 t3`.
pub open spec fn has_tag(b: Seq<u8>, i: int, t0: u8, t1: u8, t2: u8, t3: u8) -> bool {
    b[i] == t0 && b[i + 1] == t1 && b[i + 2] == t2 && b[i + 3] == t3
}

/// What the chunks read so far give once the file ends: the samples when
/// both a format and a data chunk were found.
pub open spec fn wav_finish(format: Option<(u32, u8)>, data: Option<Seq<u8>>) -> Result<
    Option<WavModel>,
    WavError,
> {
    match (format, data) {
        (Some((rate, channels)), Some(d)) => Ok(
            Some(WavModel { sample_rate: rate, channels, data: d }),
        ),
        _ => Ok(None),
    }
}

/// Reading chunks from byte `pos`: a `fmt ` chunk must describe 16-bit
/// integer PCM with 1 to 255 channels, a `data` chunk must fit the size
/// limit, other chunks are skipped, and each chunk is padded to an even
/// size. A later chunk of a kind replaces an earlier one.
pub open spec fn wav_scan(
    b: Seq<u8>,
    pos: int,
    format: Option<(u32, u8)>,
    data: Option<Seq<u8>>,
) -> Result<Option<WavModel>, WavError>
    decreases b.len() - pos,
{
    if pos < 0 || pos + 8 > b.len() {
        wav_finish(format, data)
    } else {
        let size = u32_le(b, pos + 4);
        let body = pos + 8;
        let next = body + size + size % 2;
        if has_tag(b, pos, 0x66, 0x6D, 0x74, 0x20) {
            if size < 16 || size > MAX_WAV_FMT_CHUNK_BYTES {
                Ok(None)
            } else if body + size > b.len() {
                Err(WavError::Truncated)
            } else {
                let audio_format = u16_le(b, body);
                let channels = u16_le(b, body + 2);
                let rate = u32_le(b, body + 4);
                let bits = u16_le(b, body + 14);
                if audio_format != 1 || bits != 16 || channels == 0 || channels > 255 {
                    Ok(None)
                } else if next + 8 > b.len() {
                    wav_finish(Some((rate as u32, channels as u8)), data)
                } else {
                    wav_scan(b, next, Some((rate as u32, channels as u8)), data)
                }
            }
        } else if has_tag(b, pos, 0x64, 0x61, 0x74, 0x61) {
            if size > MAX_PULSE_WAV_BYTES {
                Ok(None)
            } else if body + size > b.len() {
                Err(WavError::Truncated)
            } else if next + 8 > b.len() {
                wav_finish(format, Some(b.subrange(body, body + size)))
            } else {
                wav_scan(b, next, format, Some(b.subrange(body, body + size)))
            }
        } else if next + 8 > b.len() {
            wav_finish(format, data)
        } else {
            wav_scan(b, next, format, data)
        }
    }
}

/// What a file's bytes hold: an error when they end inside the 12-byte
/// RIFF header, nothing when that header is not `RIFF....WAVE`, and
/// otherwise what its chunks give.
pub open spec fn wav_parse(b: Seq<u8>) -> Result<Option<WavModel>, WavError> {
    if b.len() < 12 {
        Err(WavError::Truncated)
    } else if !has_tag(b, 0, 0x52, 0x49, 0x46, 0x46) || !has_tag(b, 8, 0x57, 0x41, 0x56, 0x45) {
        Ok(None)
    } else {
        wav_scan(b, 12, None, None)
    }
}

/// The bytes of an optional buffer.
pub open spec fn opt_bytes(d: Option<Vec<u8>>) -> Option<Seq<u8>> {
    match d {
        Some(v) => Some(v@),
        None => None,
    }
}

fn read_u16_le(b: &[u8], i: usize) -> (v: u32)
    requires
        i + 2 <= b@.len(),
    ensures
        v == u16_le(b@, i as int),
{
    b[i] as u32 + 256 * b[i + 1] as u32
}

fn read_u32_le(b: &[u8], i: usize) -> (v: u32)
    requires
        i + 4 <= b@.len(),
    ensures
        v == u32_le(b@, i as int),
{
    b[i] as u32 + 256 * b[i + 1] as u32 + 65536 * b[i + 2] as u32 + 16777216 * b[i + 3] as u32
}

fn tag_at(b: &[u8], i: usize, t0: u8, t1: u8, t2: u8, t3: u8) -> (r: bool)
    requires
        i + 4 <= b@.len(),
    ensures
        r == has_tag(b@, i as int, t0, t1, t2, t3),
{
    b[i] == t0 && b[i + 1] == t1 && b[i + 2] == t2 && b[i + 3] == t3
}

fn copy_range(b: &[u8], start: usize, end: usize) -> (v: Vec<u8>)
    requires
        start <= end <= b@.len(),
    ensures
        v@ == b@.subrange(start as int, end as int),
{
    let mut v: Vec<u8> = Vec::new();
    let mut i = start;
    while i < end
        invariant
            start <= i <= end,
            end <= b@.len(),
            v@ == b@.subrange(start as int, i as int),
        decreases end - i,
    {
        v.push(b[i]);
        i = i + 1;
    }
    v
}

/// Reads the samples of a 16-bit PCM WAV file from its bytes.
pub fn read_pcm_s16le_wav(bytes: &[u8]) -> (r: Result<Option<WavData>, WavError>)
    ensures
        match r {
            Ok(Some(w)) => wav_parse(bytes@) == Ok::<Option<WavModel>, WavError>(Some(w@)),
            Ok(None) => wav_parse(bytes@) == Ok::<Option<WavModel>, WavError>(None),
            Err(e) => wav_parse(bytes@) == Err::<Option<WavModel>, WavError>(e),
        },
{
    let ghost b = bytes@;
    let len = bytes.len();
    if len < 12 {
        return Err(WavError::Truncated);
    }
    if !tag_at(bytes, 0, 0x52, 0x49, 0x46, 0x46) || !tag_at(bytes, 8, 0x57, 0x41, 0x56, 0x45) {
        return Ok(None);
    }
    let mut format: Option<(u32, u8)> = None;
    let mut data: Option<Vec<u8>> = None;
    let mut pos: usize = 12;
    loop
        invariant
            b == bytes@,
            len == b.len(),
            pos <= len,
            wav_parse(b) == wav_scan(b, pos as int, format, opt_bytes(data)),
        ensures
            wav_parse(b) == wav_finish(format, opt_bytes(data)),
        decreases len - pos,
    {
        if len - pos < 8 {
            break;
        }
        let size = read_u32_le(bytes, pos + 4);
        let body = pos + 8;
        let remaining = len - body;
        let skip: u64 = size as u64 + (size % 2) as u64;
        if tag_at(bytes, pos, 0x66, 0x6D, 0x74, 0x20) {
            if size < 16 || size > MAX_WAV_FMT_CHUNK_BYTES {
                return Ok(None);
            }
            if size as usize > remaining {
                return Err(WavError::Truncated);
            }
            let audio_format = read_u16_le(bytes, body);
            let channels = read_u16_le(bytes, body + 2);
            let sample_rate = read_u32_le(bytes, body + 4);
            let bits_per_sample = read_u16_le(bytes, body + 14);
            if audio_format != 1 || bits_per_sample != 16 || channels == 0 || channels > 255 {
                return Ok(None);
            }
            format = Some((sample_rate, channels as u8));
        } else if tag_at(bytes, pos, 0x64, 0x61, 0x74, 0x61) {
            if size > MAX_PULSE_WAV_BYTES {
                return Ok(None);
            }
            if size as usize > remaining {
                return Err(WavError::Truncated);
            }
            data = Some(copy_range(bytes, body, body + size as usize));
        }
        if skip + 8 > remaining as u64 {
            break;
        }
        pos = body + skip as usize;
    }
    match (format, data) {
        (Some((sample_rate, channels)), Some(data)) => Ok(
            Some(WavData { sample_rate, channels, data }),
        ),
        _ => Ok(None),
    }
}

/// Remembers when a sound last played, in milliseconds on a monotonic
/// clock, so that sounds are not played too close together.
pub struct SoundPlayer {
    last_played: Option<u64>,
}

/// Whether a sound is asked for too soon after the last one: less than
/// `cooldown` milliseconds after it (a clock that went back counts as no
/// time passing).
pub open spec fn cooling_down(last_played: Option<u64>, now: u64, cooldown: u64) -> bool {
    match last_played {
        Some(last) => (if now >= last {
            now - last
        } else {
            0
        }) < cooldown,
        None => false,
    }
}

/// What to do with a request to play the notification sound.
#[derive(Clone, Copy, Debug, PartialEq, Eq, Structural)]
pub enum SoundDecision {
    /// Sound is turned off.
    Disabled,
    /// Sound is on but no file is configured.
    NoFile,
    /// The last sound played too recently.
    CoolingDown,
    /// Play it.
    Play,
}

impl SoundPlayer {
    pub closed spec fn last_played(&self) -> Option<u64> {
        self.last_played
    }

    pub fn new() -> (p: Self)
        ensures
            p.last_played() is None,
    {
        SoundPlayer { last_played: None }
    }

    /// Whether a sound asked for at `now` is too soon; when it is not, `now`
    /// becomes the time of the last sound.
    pub fn is_on_cooldown(&mut self, now: u64, cooldown: u64) -> (b: bool)
        ensures
            b == cooling_down(old(self).last_played(), now, cooldown),
            final(self).last_played() == (if b {
                old(self).last_played()
            } else {
                Some(now)
            }),
    {
        if let Some(last) = self.last_played {
            if now.saturating_sub(last) < cooldown {
                return true;
            }
        }
        self.last_played = Some(now);
        false
    }

    /// Decides a request to play the sound: nothing when sound is off or no
    /// file is set, nothing while cooling down, and otherwise play.
    pub fn decide(&mut self, enabled: bool, has_file: bool, now: u64, cooldown: u64) -> (d:
        SoundDecision)
        ensures
            d == (if !enabled {
                SoundDecision::Disabled
            } else if !has_file {
                SoundDecision::NoFile
            } else if cooling_down(old(self).last_played(), now, cooldown) {
                SoundDecision::CoolingDown
            } else {
                SoundDecision::Play
            }),
            final(self).last_played() == (if d == SoundDecision::Play {
                Some(now)
            } else {
                old(self).last_played()
            }),
    {
        if !enabled {
            return SoundDecision::Disabled;
        }
        if !has_file {
            return SoundDecision::NoFile;
        }
        if self.is_on_cooldown(now, cooldown) {
            return SoundDecision::CoolingDown;
        }
        SoundDecision::Play
    }
}

} // verus!
