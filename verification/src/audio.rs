//! The byte formats at the edges of the app: WAV files of 16-bit mono audio at 16 kHz, and the
//! length-prefixed messages of Chrome native messaging.
use vstd::prelude::*;

verus! {

/// The low `k` bytes of `n`, in little-endian order.
pub open spec fn le_bytes(n: nat, k: nat) -> Seq<u8>
    decreases k,
{
    if k == 0 {
        Seq::empty()
    } else {
        seq![(n % 256) as u8] + le_bytes(n / 256, (k - 1) as nat)
    }
}

/// The number that little-endian bytes hold.
pub open spec fn le_value(b: Seq<u8>) -> nat
    decreases b.len(),
{
    if b.len() == 0 {
        0
    } else {
        b[0] as nat + 256 * le_value(b.drop_first())
    }
}

/// The ASCII bytes of a chunk name.
pub open spec fn tag(s: Seq<char>) -> Seq<u8> {
    s.map_values(|c: char| c as u8)
}

/// Appends the low `k` bytes of `n` in little-endian order.
fn push_le(out: &mut Vec<u8>, n: u32, k: usize)
    ensures
        final(out)@ == old(out)@ + le_bytes(n as nat, k as nat),
{
    let ghost start = out@;
    let mut v: u32 = n;
    let mut i: usize = 0;
    assert(start + le_bytes(n as nat, k as nat) =~= out@ + le_bytes(v as nat, (k - i) as nat));
    while i < k
        invariant
            i <= k,
            start + le_bytes(n as nat, k as nat) == out@ + le_bytes(v as nat, (k - i) as nat),
        decreases k - i,
    {
        let ghost before = out@;
        let ghost w = v as nat;
        let ghost rest = (k - i) as nat;
        assert(le_bytes(w, rest) == seq![(w % 256) as u8] + le_bytes(w / 256, (rest - 1) as nat));
        out.push((v % 256) as u8);
        v = v / 256;
        i = i + 1;
        assert(out@ + le_bytes(v as nat, (k - i) as nat) =~= before + le_bytes(w, rest));
    }
    assert(le_bytes(v as nat, 0) =~= Seq::<u8>::empty());
    assert(out@ =~= start + le_bytes(n as nat, k as nat));
}

fn push_tag(out: &mut Vec<u8>, t: &[u8; 4])
    ensures
        final(out)@ == old(out)@ + t@,
{
    let ghost start = out@;
    let mut i: usize = 0;
    while i < 4
        invariant
            i <= 4,
            out@ == start + t@.take(i as int),
        decreases 4 - i,
    {
        out.push(t[i]);
        i = i + 1;
        assert(out@ =~= start + t@.take(i as int));
    }
    assert(t@.take(4) =~= t@);
}

fn push_bytes(out: &mut Vec<u8>, b: &[u8])
    ensures
        final(out)@ == old(out)@ + b@,
{
    let ghost start = out@;
    let mut i: usize = 0;
    while i < b.len()
        invariant
            i <= b.len(),
            out@ == start + b@.take(i as int),
        decreases b.len() - i,
    {
        out.push(b[i]);
        i = i + 1;
        assert(out@ =~= start + b@.take(i as int));
    }
    assert(b@.take(b@.len() as int) =~= b@);
}

// MARK: WAV

/// The header of a WAV file of 16-bit mono PCM at 16 kHz with `n` bytes of samples: the RIFF size,
/// the format chunk, and the size of the data chunk.
pub open spec fn wav_header(n: nat) -> Seq<u8> {
    tag("RIFF"@) + le_bytes(36 + n, 4) + tag("WAVEfmt "@) + le_bytes(16, 4) + le_bytes(1, 2) + le_bytes(1, 2)
        + le_bytes(16000, 4) + le_bytes(32000, 4) + le_bytes(2, 2) + le_bytes(16, 2) + tag("data"@)
        + le_bytes(n, 4)
}

/// A WAV file of 16-bit mono PCM samples at 16 kHz.
pub fn wav(samples: &[u8]) -> (r: Vec<u8>)
    requires
        36 + samples@.len() <= u32::MAX,
    ensures
        r@ == wav_header(samples@.len()) + samples@,
{
    let n = samples.len() as u32;
    let mut out: Vec<u8> = Vec::new();
    push_tag(&mut out, &[82u8, 73u8, 70u8, 70u8]);
    push_le(&mut out, 36 + n, 4);
    push_tag(&mut out, &[87u8, 65u8, 86u8, 69u8]);
    push_tag(&mut out, &[102u8, 109u8, 116u8, 32u8]);
    push_le(&mut out, 16, 4);
    push_le(&mut out, 1, 2);
    push_le(&mut out, 1, 2);
    push_le(&mut out, 16000, 4);
    push_le(&mut out, 32000, 4);
    push_le(&mut out, 2, 2);
    push_le(&mut out, 16, 2);
    push_tag(&mut out, &[100u8, 97u8, 116u8, 97u8]);
    push_le(&mut out, n, 4);
    push_bytes(&mut out, samples);
    proof {
        reveal_strlit("RIFF");
        reveal_strlit("WAVEfmt ");
        reveal_strlit("data");
        assert(tag("RIFF"@) =~= seq![82u8, 73u8, 70u8, 70u8]);
        assert(tag("WAVEfmt "@) =~= seq![87u8, 65u8, 86u8, 69u8] + seq![102u8, 109u8, 116u8, 32u8]);
        assert(tag("data"@) =~= seq![100u8, 97u8, 116u8, 97u8]);
    }
    assert(out@ =~= wav_header(samples@.len()) + samples@);
    out
}

/// The value of the four little-endian bytes at `i`.
fn le_u32_at(data: &[u8], i: usize) -> (r: u32)
    requires
        i + 4 <= data@.len(),
    ensures
        r == le_value(data@.subrange(i as int, i + 4)),
{
    let ghost b = data@.subrange(i as int, i + 4);
    assert(b.drop_first().drop_first().drop_first().drop_first() =~= Seq::<u8>::empty());
    assert(le_value(b.drop_first().drop_first().drop_first().drop_first()) == 0);
    assert(le_value(b.drop_first().drop_first().drop_first()) == b[3] as nat) by {
        assert(b.drop_first().drop_first().drop_first()[0] == b[3]);
    }
    assert(le_value(b.drop_first().drop_first()) == b[2] as nat + 256 * (b[3] as nat)) by {
        assert(b.drop_first().drop_first()[0] == b[2]);
    }
    assert(le_value(b.drop_first()) == b[1] as nat + 256 * (b[2] as nat + 256 * (b[3] as nat))) by {
        assert(b.drop_first()[0] == b[1]);
    }
    let v: u32 = data[i] as u32 + 256 * (data[i + 1] as u32 + 256 * (data[i + 2] as u32 + 256 * (data[i
        + 3] as u32)));
    v
}

/// The samples of the first data chunk at or after the chunk at `i`: the chunks follow one
/// another, each with a four-byte name, a four-byte little-endian size, and its bytes padded to an
/// even length. A data chunk that the file cuts short gives the bytes that are there.
pub open spec fn data_chunk(data: Seq<u8>, i: int) -> Option<Seq<u8>>
    decreases (if 0 <= i <= data.len() {
        data.len() - i
    } else {
        0
    }),
{
    if i < 0 || i + 8 > data.len() {
        None
    } else {
        let size = le_value(data.subrange(i + 4, i + 8));
        if data.subrange(i, i + 4) == tag("data"@) {
            let end = if i + 8 + size < data.len() {
                i + 8 + size
            } else {
                data.len() as int
            };
            Some(data.subrange(i + 8, end))
        } else {
            data_chunk(data, i + 8 + size + size % 2)
        }
    }
}

/// The 16-bit PCM samples of a WAV file: the data of its first data chunk after the RIFF header.
pub fn pcm_data(data: &[u8]) -> (r: Option<Vec<u8>>)
    ensures
        match r {
            Some(v) => data_chunk(data@, 12) == Some(v@),
            None => data_chunk(data@, 12) is None,
        },
{
    let len = data.len() as u128;
    let mut i: u128 = 12;
    while i + 8 <= len
        invariant
            len == data@.len(),
            len <= usize::MAX,
            12 <= i <= len + 0x2_0000_0010,
            data_chunk(data@, 12) == data_chunk(data@, i as int),
        decreases len + 0x3_0000_0000 - i,
    {
        proof {
            reveal_strlit("data");
        }
        let at = i as usize;
        let is_data = data[at] == 100u8 && data[at + 1] == 97u8 && data[at + 2] == 116u8 && data[at + 3] == 97u8;
        let size = le_u32_at(data, at + 4) as u128;
        assert(tag("data"@) =~= seq![100u8, 97u8, 116u8, 97u8]);
        assert(is_data == (data@.subrange(i as int, i + 4) == tag("data"@))) by {
            if is_data {
                assert(data@.subrange(i as int, i + 4) =~= seq![100u8, 97u8, 116u8, 97u8]);
            } else {
                if data@.subrange(i as int, i + 4) == tag("data"@) {
                    assert(data@.subrange(i as int, i + 4)[0] == data@[i as int]);
                    assert(data@.subrange(i as int, i + 4)[1] == data@[i + 1]);
                    assert(data@.subrange(i as int, i + 4)[2] == data@[i + 2]);
                    assert(data@.subrange(i as int, i + 4)[3] == data@[i + 3]);
                }
            }
        }
        if is_data {
            let end: u128 = if i + 8 + size < len {
                i + 8 + size
            } else {
                len
            };
            let end_at: usize = end as usize;
            let mut out: Vec<u8> = Vec::new();
            let mut k: usize = at + 8;
            assert(out@ =~= data@.subrange(at + 8, k as int));
            while k < end_at
                invariant
                    at + 8 <= k <= end_at,
                    end_at <= data@.len(),
                    out@ == data@.subrange(at + 8, k as int),
                decreases end_at - k,
            {
                out.push(data[k]);
                k = k + 1;
                assert(out@ =~= data@.subrange(at + 8, k as int));
            }
            return Some(out);
        }
        i = i + 8 + size + size % 2;
    }
    None
}

// MARK: Native messaging

/// The longest message that the native host takes from Chrome, in bytes.
pub const MAX_MESSAGE: usize = 262144;

/// Why a message from Chrome is refused.
#[derive(Debug, Clone, Copy, PartialEq, Eq, Structural)]
pub enum FrameError {
    /// The message is longer than `MAX_MESSAGE` bytes.
    TooLarge,
}

/// A message for Chrome: the length of the body in four bytes, then the body. Chrome takes the
/// length in the byte order of the machine, and the Macs that run Tinta are little-endian.
pub fn frame(body: &[u8]) -> (r: Vec<u8>)
    requires
        body@.len() <= u32::MAX,
    ensures
        r@ == le_bytes(body@.len(), 4) + body@,
{
    let mut out: Vec<u8> = Vec::new();
    push_le(&mut out, body.len() as u32, 4);
    push_bytes(&mut out, body);
    out
}

/// The length of the body of a message from Chrome, from its four-byte prefix.
pub fn message_length(header: &[u8; 4]) -> (r: Result<usize, FrameError>)
    ensures
        le_value(header@) > MAX_MESSAGE ==> r == Err::<usize, FrameError>(FrameError::TooLarge),
        le_value(header@) <= MAX_MESSAGE ==> r == Ok::<usize, FrameError>(le_value(header@) as usize),
{
    let n = le_u32_at(header, 0);
    assert(header@.subrange(0, 4) =~= header@);
    if n as usize > MAX_MESSAGE {
        Err(FrameError::TooLarge)
    } else {
        Ok(n as usize)
    }
}


// MARK: Laws

/// Little-endian bytes read back as the number that they were written from, when it fits.
pub proof fn law_le_round_trip(n: nat, k: nat)
    requires
        n < vstd::arithmetic::power::pow(256, k),
    ensures
        le_value(le_bytes(n, k)) == n,
        le_bytes(n, k).len() == k,
    decreases k,
{
    reveal(vstd::arithmetic::power::pow);
    if k == 0 {
        assert(le_bytes(n, k) =~= Seq::<u8>::empty());
    } else {
        let rest = le_bytes(n / 256, (k - 1) as nat);
        assert(n / 256 < vstd::arithmetic::power::pow(256, (k - 1) as nat)) by {
            vstd::arithmetic::div_mod::lemma_div_is_ordered(
                n as int,
                (vstd::arithmetic::power::pow(256, (k - 1) as nat) * 256 - 1) as int,
                256,
            );
            vstd::arithmetic::div_mod::lemma_fundamental_div_mod(n as int, 256);
            assert(vstd::arithmetic::power::pow(256, k) == 256 * vstd::arithmetic::power::pow(256, (k - 1) as nat));
        }
        law_le_round_trip(n / 256, (k - 1) as nat);
        assert((seq![(n % 256) as u8] + rest).drop_first() =~= rest);
        assert((seq![(n % 256) as u8] + rest)[0] == (n % 256) as u8);
    }
}

/// A frame for Chrome holds the length of its body: the length that the host reads back from the
/// first four bytes is the length of the body.
pub proof fn law_frame_round_trip(n: nat)
    requires
        n <= u32::MAX,
    ensures
        le_value(le_bytes(n, 4)) == n,
        le_bytes(n, 4).len() == 4,
{
    assert(vstd::arithmetic::power::pow(256, 4) == 0x1_0000_0000) by {
        reveal_with_fuel(vstd::arithmetic::power::pow, 5);
    }
    law_le_round_trip(n, 4);
}

/// The samples of a WAV file that `wav` writes are what `pcm_data` reads back.
pub proof fn law_wav_round_trip(samples: Seq<u8>)
    requires
        36 + samples.len() <= u32::MAX,
    ensures
        data_chunk(wav_header(samples.len()) + samples, 12) == Some(samples),
{
    let n = samples.len();
    let f = wav_header(n) + samples;
    law_frame_round_trip(36 + n);
    law_frame_round_trip(16);
    law_frame_round_trip(16000);
    law_frame_round_trip(32000);
    law_frame_round_trip(n);
    assert(le_bytes(1, 2).len() == 2 && le_bytes(2, 2).len() == 2 && le_bytes(16, 2).len() == 2) by {
        reveal_with_fuel(le_bytes, 3);
    }
    reveal_strlit("RIFF");
    reveal_strlit("WAVEfmt ");
    reveal_strlit("data");
    assert(tag("RIFF"@).len() == 4);
    assert(tag("WAVEfmt "@).len() == 8);
    assert(tag("data"@) =~= seq![100u8, 97u8, 116u8, 97u8]);
    assert(tag("WAVEfmt "@) =~= seq![87u8, 65u8, 86u8, 69u8, 102u8, 109u8, 116u8, 32u8]);
    assert(wav_header(n).len() == 44);
    assert(f.subrange(12, 16) =~= seq![102u8, 109u8, 116u8, 32u8]);
    assert(f.subrange(16, 20) =~= le_bytes(16, 4));
    assert(f.subrange(12, 16) != tag("data"@)) by {
        assert(f.subrange(12, 16)[0] != tag("data"@)[0]);
    }
    assert(f.subrange(36, 40) =~= tag("data"@));
    assert(f.subrange(40, 44) =~= le_bytes(n, 4));
    assert(data_chunk(f, 12) == data_chunk(f, 36));
    assert(f.subrange(44, 44 + n as int) =~= samples);
}

} // verus!
