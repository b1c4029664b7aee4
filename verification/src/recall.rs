use vstd::prelude::*;
use vstd::string::*;
use base64::Engine;

verus! {

#[verifier::external_type_specification]
#[verifier::external_body]
pub struct ExDecodeError(base64::DecodeError);

/// What base64's `STANDARD` engine (RFC 4648 alphabet, padding required)
/// decodes `input` to, or `None` where it reports an error.
pub uninterp spec fn base64_standard_decode(input: Seq<u8>) -> Option<Seq<u8>>;

/// The character of the standard base64 alphabet (`A`-`Z`, `a`-`z`, `0`-`9`,
/// `+`, `/`) for a 6-bit value.
pub open spec fn base64_digit(v: int) -> u8 {
    if v < 26 {
        (65 + v) as u8
    } else if v < 52 {
        (97 + v - 26) as u8
    } else if v < 62 {
        (48 + v - 52) as u8
    } else if v == 62 {
        43u8
    } else {
        47u8
    }
}

/// The padded standard base64 encoding of `b` (RFC 4648, section 4): each
/// group of three bytes becomes four digits, and a final group of one or two
/// bytes is completed with `=`.
pub open spec fn base64_standard_encode(b: Seq<u8>) -> Seq<u8>
    decreases b.len(),
{
    if b.len() == 0 {
        Seq::empty()
    } else if b.len() == 1 {
        let x = b[0] as int;
        seq![base64_digit(x / 4), base64_digit((x % 4) * 16), 61u8, 61u8]
    } else if b.len() == 2 {
        let x = b[0] as int;
        let y = b[1] as int;
        seq![base64_digit(x / 4), base64_digit((x % 4) * 16 + y / 16), base64_digit((y % 16) * 4), 61u8]
    } else {
        let x = b[0] as int;
        let y = b[1] as int;
        let z = b[2] as int;
        seq![
            base64_digit(x / 4),
            base64_digit((x % 4) * 16 + y / 16),
            base64_digit((y % 16) * 4 + z / 64),
            base64_digit(z % 64),
        ] + base64_standard_encode(b.skip(3))
    }
}

/// Calls `base64::engine::general_purpose::STANDARD.decode`: the decoded bytes
/// are those named by `base64_standard_decode`, and an error comes exactly
/// where that name is `None`. The engine decodes what the standard padded
/// encoding makes of any bytes back to those bytes (the crate documents the
/// round trip; its `PAD` configuration requires canonical padding).
#[verifier::external_body]
fn decode_base64_standard(input: &[u8]) -> (r: Result<Vec<u8>, base64::DecodeError>)
    ensures
        match r {
            Ok(v) => base64_standard_decode(input@) == Some(v@)
                && forall|b: Seq<u8>| #[trigger] base64_standard_encode(b) == input@ ==> v@ == b,
            Err(_) => base64_standard_decode(input@) is None
                && forall|b: Seq<u8>| #[trigger] base64_standard_encode(b) != input@,
        },
{
    base64::engine::general_purpose::STANDARD.decode(input)
}

/// The signed 16-bit sample stored little-endian in `lo`, `hi`.
pub open spec fn s16le(lo: u8, hi: u8) -> int {
    let u = lo as int + 256 * hi as int;
    if u < 32768 {
        u
    } else {
        u - 65536
    }
}

/// The samples of little-endian signed-16 PCM: one per complete pair of
/// bytes, a trailing odd byte ignored.
pub open spec fn pcm_s16le(bytes: Seq<u8>) -> Seq<i16> {
    Seq::new(bytes.len() / 2, |i: int| s16le(bytes[2 * i], bytes[2 * i + 1]) as i16)
}

/// Decodes little-endian signed-16 PCM bytes into samples.
pub fn pcm_s16le_to_i16(bytes: &[u8]) -> (out: Vec<i16>)
    ensures
        out@ == pcm_s16le(bytes@),
        forall|i: int| 0 <= i < out@.len() ==> #[trigger] out@[i] as int == s16le(bytes@[2 * i], bytes@[2 * i + 1]),
        out@.len() == bytes@.len() / 2,
        forall|i: int| 0 <= i < out@.len() ==> #[trigger] out@[i] as int == bytes@[2 * i] as int + 256 * bytes@[2 * i + 1] as int
            - if bytes@[2 * i + 1] >= 0x80 { 65536int } else { 0int },
        forall|i: int| 0 <= i < out@.len() ==> (#[trigger] out@[i] < 0 <==> bytes@[2 * i + 1] >= 0x80),
{
    let mut out: Vec<i16> = Vec::new();
    let n = bytes.len() / 2;
    let mut i: usize = 0;
    while i < n
        invariant
            n == bytes@.len() / 2,
            bytes@.len() <= usize::MAX,
            i <= n,
            out@.len() == i,
            forall|j: int| 0 <= j < i ==> #[trigger] out@[j] == s16le(bytes@[2 * j], bytes@[2 * j + 1]) as i16,
            forall|j: int| 0 <= j < i ==> #[trigger] out@[j] as int == s16le(bytes@[2 * j], bytes@[2 * j + 1]),
        decreases n - i,
    {
        let lo = bytes[2 * i] as i32;
        let hi = bytes[2 * i + 1] as i32;
        let u = lo + 256 * hi;
        let v: i32 = if u < 32768 { u } else { u - 65536 };
        out.push(v as i16);
        i = i + 1;
    }
    assert(out@ =~= pcm_s16le(bytes@));
    proof {
        assert forall|i: int| 0 <= i < out@.len() implies #[trigger] out@[i] as int == bytes@[2 * i] as int + 256 * bytes@[2 * i + 1] as int
            - if bytes@[2 * i + 1] >= 0x80 { 65536int } else { 0int } by {
            lemma_s16le_twos_complement(bytes@[2 * i], bytes@[2 * i + 1]);
        }
        assert forall|i: int| 0 <= i < out@.len() implies (#[trigger] out@[i] < 0 <==> bytes@[2 * i + 1] >= 0x80) by {
            lemma_s16le_twos_complement(bytes@[2 * i], bytes@[2 * i + 1]);
        }
    }
    out
}

/// A little-endian 16-bit sample is read in two's complement: its value is
/// `lo + 256 * hi`, less 65536 when the high byte's top bit is set; so it is
/// negative exactly when that bit is set, and lies in `i16`'s range.
pub proof fn lemma_s16le_twos_complement(lo: u8, hi: u8)
    ensures
        s16le(lo, hi) == lo as int + 256 * hi as int - if hi >= 0x80 { 65536int } else { 0int },
        s16le(lo, hi) < 0 <==> hi >= 0x80,
        -32768 <= s16le(lo, hi) <= 32767,
{
}

/// Whether `needle` occurs as a contiguous run of characters in `hay`.
pub open spec fn has_text(hay: Seq<char>, needle: Seq<char>) -> bool {
    exists|i: int| 0 <= i && i + needle.len() <= hay.len() && #[trigger] hay.subrange(i, i + needle.len()) == needle
}

/// A text contains each text it is made of: `a + n + b` contains `n`,
/// wherever it stands; and no text contains one longer than itself.
pub proof fn lemma_has_text_parts(a: Seq<char>, n: Seq<char>, b: Seq<char>)
    ensures
        has_text(a + n + b, n),
        forall|h: Seq<char>, m: Seq<char>| #[trigger] has_text(h, m) ==> m.len() <= h.len(),
{
    let h = a + n + b;
    assert(h.subrange(a.len() as int, (a.len() + n.len()) as int) =~= n);
}

fn chars_of(s: &str) -> (out: Vec<char>)
    ensures
        out@ == s@,
{
    let n = s.unicode_len();
    let mut out: Vec<char> = Vec::new();
    let mut i: usize = 0;
    while i < n
        invariant
            n == s@.len(),
            i <= n,
            out@ == s@.subrange(0, i as int),
        decreases n - i,
    {
        out.push(s.get_char(i));
        i = i + 1;
    }
    assert(out@ =~= s@);
    out
}

fn run_matches(hay: &Vec<char>, start: usize, needle: &Vec<char>) -> (b: bool)
    requires
        start + needle@.len() <= hay@.len(),
        hay@.len() <= usize::MAX,
    ensures
        b == (hay@.subrange(start as int, start + needle@.len()) == needle@),
{
    let mut j: usize = 0;
    while j < needle.len()
        invariant
            start + needle@.len() <= hay@.len(),
            hay@.len() <= usize::MAX,
            j <= needle@.len(),
            hay@.subrange(start as int, start + j) == needle@.subrange(0, j as int),
        decreases needle@.len() - j,
    {
        if hay[start + j] != needle[j] {
            assert(hay@.subrange(start as int, start + needle@.len())[j as int] != needle@[j as int]);
            return false;
        }
        assert(hay@.subrange(start as int, start + j + 1) =~= needle@.subrange(0, j + 1));
        j = j + 1;
    }
    assert(hay@.subrange(start as int, start + needle@.len()) =~= needle@);
    true
}

/// Whether `needle` occurs in `hay`.
pub fn contains_text(hay: &str, needle: &str) -> (b: bool)
    ensures
        b == has_text(hay@, needle@),
{
    let h = chars_of(hay);
    let n = chars_of(needle);
    if n.len() > h.len() {
        return false;
    }
    let hl = h.len();
    let last = hl - n.len();
    let mut i: usize = 0;
    while i <= last
        invariant
            h@ == hay@,
            n@ == needle@,
            h@.len() <= usize::MAX,
            last == h@.len() - n@.len(),
            i <= last + 1,
            forall|k: int| 0 <= k < i ==> #[trigger] h@.subrange(k, k + n@.len()) != n@,
        decreases last + 1 - i,
    {
        if run_matches(&h, i, &n) {
            return true;
        }
        if i == last {
            return false;
        }
        i = i + 1;
    }
    false
}

/// The identity of the participant a chunk of meeting audio came from: the
/// participant's id rendered as text (a JSON string's contents, or the JSON
/// text of any other value), and their display name.
pub struct Participant {
    pub id: Option<String>,
    pub name: Option<String>,
}

/// One decoded chunk of meeting audio: who it came from, and its signed
/// 16-bit samples.
#[derive(Debug, PartialEq, Eq)]
pub struct ParsedAudio {
    pub participant_key: String,
    pub frames: Vec<i16>,
}

/// Whether an event carries raw PCM: its name mentions both `audio` and `raw`.
pub open spec fn is_raw_audio_event(event: Seq<char>) -> bool {
    has_text(event, "audio"@) && has_text(event, "raw"@)
}

/// The key under which a chunk's audio is attributed: the participant's id,
/// else their name, else `mixed` for the mixed stream.
pub open spec fn participant_key(p: Option<Participant>) -> Seq<char> {
    match p {
        Some(q) => match q.id {
            Some(id) => id@,
            None => match q.name {
                Some(n) => n@,
                None => "mixed"@,
            },
        },
        None => "mixed"@,
    }
}

/// The audio carried by a buffer that decoded to `bytes` (`None` when it was
/// not valid base64): nothing for an invalid buffer or one without a complete
/// sample, otherwise the participant's key and the samples.
pub open spec fn audio_of_bytes(bytes: Option<Seq<u8>>, p: Option<Participant>) -> Option<(Seq<char>, Seq<i16>)> {
    match bytes {
        None => None,
        Some(b) => if pcm_s16le(b).len() == 0 {
            None
        } else {
            Some((participant_key(p), pcm_s16le(b)))
        },
    }
}

/// The audio a real-time meeting message carries, given its event name, its
/// base64 buffer and its participant: `None` for events that are not raw
/// audio, for a buffer that is not valid base64, and for one that decodes to
/// no complete sample.
pub open spec fn audio_of(event: Seq<char>, buffer: Seq<u8>, p: Option<Participant>) -> Option<(Seq<char>, Seq<i16>)> {
    if !is_raw_audio_event(event) {
        None
    } else {
        audio_of_bytes(base64_standard_decode(buffer), p)
    }
}

/// Whether a parsed chunk is the one a specification describes.
pub open spec fn parsed_is(r: Option<ParsedAudio>, expected: Option<(Seq<char>, Seq<i16>)>) -> bool {
    match (r, expected) {
        (Some(a), Some((key, frames))) => a.participant_key@ == key && a.frames@ == frames,
        (None, None) => true,
        _ => false,
    }
}

/// Builds the audio chunk from a decoded buffer (see `audio_of_bytes`).
pub fn audio_from_decoded(decoded: Option<Vec<u8>>, participant: Option<Participant>) -> (r: Option<ParsedAudio>)
    ensures
        parsed_is(r, audio_of_bytes(match decoded { Some(v) => Some(v@), None => None }, participant)),
{
    let bytes = match decoded {
        Some(b) => b,
        None => return None,
    };
    let frames = pcm_s16le_to_i16(bytes.as_slice());
    if frames.len() == 0 {
        return None;
    }
    let participant_key = match participant {
        Some(p) => match p.id {
            Some(id) => id,
            None => match p.name {
                Some(n) => n,
                None => String::from_str("mixed"),
            },
        },
        None => String::from_str("mixed"),
    };
    Some(ParsedAudio { participant_key, frames })
}

/// Decodes the audio of one real-time meeting message from its fields (see
/// `audio_of`).
pub fn audio_message(event: &str, buffer: &[u8], participant: Option<Participant>) -> (r: Option<ParsedAudio>)
    ensures
        parsed_is(r, audio_of(event@, buffer@, participant)),
        forall|b: Seq<u8>| #[trigger] base64_standard_encode(b) == buffer@ ==> parsed_is(
            r,
            if is_raw_audio_event(event@) { audio_of_bytes(Some(b), participant) } else { None },
        ),
{
    if !(contains_text(event, "audio") && contains_text(event, "raw")) {
        return None;
    }
    let decoded = match decode_base64_standard(buffer) {
        Ok(b) => Some(b),
        Err(_) => None,
    };
    audio_from_decoded(decoded, participant)
}

} // verus!
