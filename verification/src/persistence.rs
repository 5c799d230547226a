//! The saved-game file format. A file is a sequence of frames, each a length (four bytes,
//! little endian) followed by that many bytes. The first frame holds the header, which
//! records the file's version; each later frame holds a chunk of the game's events. New
//! chunks can be appended onto an existing game.
use byteorder::{ByteOrder, LittleEndian, WriteBytesExt};
use crate::message::{Message, Topic};
use crate::text::{decimal, push_decimal};
use vstd::prelude::*;

verus! {

pub const MAJOR_VERSION: u8 = 1;

pub const MINOR_VERSION: u8 = 0;

// ---------------------------------------------------------------------------------------
// Lengths as four little-endian bytes.

/// The four bytes of the number, least significant first.
pub open spec fn le_bytes(n: u32) -> Seq<u8> {
    seq![(n % 256) as u8, ((n / 256) % 256) as u8, ((n / 65536) % 256) as u8, (n / 16777216) as u8]
}

/// The number that four bytes, least significant first, stand for.
pub open spec fn le_value(b: Seq<u8>) -> int {
    b[0] + 256 * b[1] + 65536 * b[2] + 16777216 * b[3]
}

/// Calls byteorder's `write_u32::<LittleEndian>` on a new `Vec`. Trusted: the four bytes
/// of the number, least significant first (writing into a `Vec` cannot fail).
#[verifier::external_body]
fn le_u32_bytes(n: u32) -> (bytes: Vec<u8>)
    ensures
        bytes@ == le_bytes(n),
{
    let mut bytes = Vec::new();
    bytes.write_u32::<LittleEndian>(n).unwrap();
    bytes
}

/// Calls byteorder's `LittleEndian::read_u32`, which reads the first four bytes (and
/// panics on fewer). Trusted: the number they stand for, least significant first.
#[verifier::external_body]
fn read_le_u32(bytes: &[u8]) -> (n: u32)
    requires
        bytes@.len() >= 4,
    ensures
        n == le_value(bytes@),
{
    LittleEndian::read_u32(bytes)
}

pub proof fn lemma_le_round_trip(n: u32)
    ensures
        le_value(le_bytes(n)) == n,
        le_bytes(n).len() == 4,
{
    let b = le_bytes(n);
    assert(b[0] == n % 256);
    assert(b[1] == (n / 256) % 256);
    assert(b[2] == (n / 65536) % 256);
    assert(b[3] == n / 16777216);
    assert((n % 256) + 256 * ((n / 256) % 256) + 65536 * ((n / 65536) % 256) + 16777216 * (n
        / 16777216) == n) by (nonlinear_arith);
}

// ---------------------------------------------------------------------------------------
// Frames.

/// The length that a frame records for a payload: the length modulo 2^32, as it is
/// written in four bytes.
pub open spec fn recorded_len(len: nat) -> u32 {
    (len % 0x1_0000_0000) as u32
}

/// A payload in a frame: its recorded length, then its bytes.
pub open spec fn frame(payload: Seq<u8>) -> Seq<u8> {
    le_bytes(recorded_len(payload.len())) + payload
}

/// Payloads framed one after another.
pub open spec fn frames(payloads: Seq<Seq<u8>>) -> Seq<u8>
    decreases payloads.len(),
{
    if payloads.len() == 0 {
        Seq::empty()
    } else {
        frame(payloads[0]) + frames(payloads.drop_first())
    }
}

/// Every payload's length fits in the four bytes that record it.
pub open spec fn lengths_fit(payloads: Seq<Seq<u8>>) -> bool {
    forall|i: int| 0 <= i < payloads.len() ==> (#[trigger] payloads[i]).len() < 0x1_0000_0000
}

/// The payloads of the frames that start at `pos`, read until fewer than four bytes
/// remain; `None` when a frame's payload runs past the end.
pub open spec fn payloads_from(bytes: Seq<u8>, pos: int) -> Option<Seq<Seq<u8>>>
    decreases bytes.len() - pos,
{
    if pos < 0 || pos + 4 > bytes.len() {
        Some(Seq::empty())
    } else {
        let len = le_value(bytes.subrange(pos, pos + 4));
        if pos + 4 + len > bytes.len() {
            None
        } else {
            match payloads_from(bytes, pos + 4 + len) {
                Some(rest) => Some(seq![bytes.subrange(pos + 4, pos + 4 + len)] + rest),
                None => None,
            }
        }
    }
}

/// Reading the frames after any prefix gives back the payloads that were framed, when
/// each payload's length fits in four bytes.
pub proof fn lemma_read_frames(prefix: Seq<u8>, payloads: Seq<Seq<u8>>)
    requires
        lengths_fit(payloads),
    ensures
        payloads_from(prefix + frames(payloads), prefix.len() as int) == Some(payloads),
    decreases payloads.len(),
{
    let bytes = prefix + frames(payloads);
    let pos = prefix.len() as int;
    if payloads.len() == 0 {
        assert(bytes =~= prefix);
        assert(payloads =~= Seq::<Seq<u8>>::empty());
    } else {
        let p = payloads[0];
        let rest = payloads.drop_first();
        let len = p.len();
        lemma_le_round_trip(recorded_len(len));
        assert(recorded_len(len) == len);
        assert(bytes =~= prefix + le_bytes(recorded_len(len)) + p + frames(rest));
        assert(bytes.subrange(pos, pos + 4) =~= le_bytes(recorded_len(len)));
        assert(bytes.subrange(pos + 4, pos + 4 + len) =~= p);
        let next = prefix + frame(p);
        assert(next + frames(rest) =~= bytes);
        assert(lengths_fit(rest)) by {
            assert forall|i: int| 0 <= i < rest.len() implies (#[trigger] rest[i]).len()
                < 0x1_0000_0000 by {
                assert(rest[i] == payloads[i + 1]);
            }
        }
        lemma_read_frames(next, rest);
        assert(next.len() == pos + 4 + len);
        assert(seq![p] + rest =~= payloads);
    }
}

/// Appends the length, as four little-endian bytes (modulo 2^32, as a `u32` cast).
fn write_len(out: &mut Vec<u8>, len: usize)
    ensures
        final(out)@ == old(out)@ + le_bytes(recorded_len(len as nat)),
{
    let n: u32 = ((len as u64) % 0x1_0000_0000u64) as u32;
    let mut bytes = le_u32_bytes(n);
    out.append(&mut bytes);
}

/// The length recorded at `pos`, if four bytes remain there.
fn read_len(bytes: &[u8], pos: usize) -> (r: Option<usize>)
    ensures
        match r {
            Some(len) => pos + 4 <= bytes@.len() && len == le_value(
                bytes@.subrange(pos as int, pos + 4),
            ),
            None => pos + 4 > bytes@.len(),
        },
{
    if pos <= bytes.len() && bytes.len() - pos >= 4 {
        let n = read_le_u32(&bytes[pos..pos + 4]);
        Some(n as usize)
    } else {
        None
    }
}

/// Appends the payload in a frame.
pub fn append_frame(out: &mut Vec<u8>, payload: &[u8])
    ensures
        final(out)@ == old(out)@ + frame(payload@),
{
    write_len(out, payload.len());
    let mut i: usize = 0;
    let ghost start = out@;
    while i < payload.len()
        invariant
            i <= payload@.len(),
            out@ == start + payload@.subrange(0, i as int),
        decreases payload@.len() - i,
    {
        out.push(payload[i]);
        assert(payload@.subrange(0, i + 1) =~= payload@.subrange(0, i as int).push(payload@[i as int]));
        i = i + 1;
    }
    assert(payload@.subrange(0, payload@.len() as int) =~= payload@);
}

/// Reads the payloads of the frames that start at `pos`, until fewer than four bytes
/// remain; `None` when a frame's payload runs past the end.
pub fn read_payloads(bytes: &[u8], pos: usize) -> (r: Option<Vec<Vec<u8>>>)
    ensures
        match r {
            Some(v) => payloads_from(bytes@, pos as int) == Some(
                v@.map_values(|p: Vec<u8>| p@),
            ),
            None => payloads_from(bytes@, pos as int) is None,
        },
    decreases bytes@.len() - pos,
{
    match read_len(bytes, pos) {
        None => {
            let v: Vec<Vec<u8>> = Vec::new();
            assert(v@.map_values(|p: Vec<u8>| p@) =~= Seq::empty());
            Some(v)
        },
        Some(len) => {
            if bytes.len() - pos - 4 < len {
                return None;
            }
            let start = pos + 4;
            let payload = slice_to_vec(&bytes[start..start + len]);
            match read_payloads(bytes, start + len) {
                Some(rest) => {
                    let mut v: Vec<Vec<u8>> = Vec::new();
                    v.push(payload);
                    let mut rest = rest;
                    let ghost rest_view = rest@.map_values(|p: Vec<u8>| p@);
                    v.append(&mut rest);
                    assert(v@.map_values(|p: Vec<u8>| p@) =~= seq![
                        bytes@.subrange(start as int, start + len),
                    ] + rest_view);
                    Some(v)
                },
                None => None,
            }
        },
    }
}

/// A copy of the bytes.
fn slice_to_vec(bytes: &[u8]) -> (v: Vec<u8>)
    ensures
        v@ == bytes@,
{
    let mut v: Vec<u8> = Vec::new();
    let mut i: usize = 0;
    while i < bytes.len()
        invariant
            i <= bytes@.len(),
            v@ == bytes@.subrange(0, i as int),
        decreases bytes@.len() - i,
    {
        v.push(bytes[i]);
        assert(bytes@.subrange(0, i + 1) =~= bytes@.subrange(0, i as int).push(bytes@[i as int]));
        i = i + 1;
    }
    assert(bytes@.subrange(0, bytes@.len() as int) =~= bytes@);
    v
}

// ---------------------------------------------------------------------------------------
// The header and the whole file.

/// The bytes that postcard writes for a header's fields (major and minor version, date,
/// operating system), as it writes a struct of them.
pub uninterp spec fn postcard_header_bytes(major: u8, minor: u8, date: Seq<char>, os: Seq<char>) -> Seq<u8>;

/// The header fields that postcard reads from the bytes (`None` on an error).
pub uninterp spec fn postcard_header_read(bytes: Seq<u8>) -> Option<(u8, u8, Seq<char>, Seq<char>)>;

/// Calls `postcard::to_stdvec` on the header's fields. Trusted: the result is the encoding
/// that the name stands for, and postcard reads it back as the same fields (writing into
/// a `Vec` cannot fail).
#[verifier::external_body]
fn encode_header(major: u8, minor: u8, date: &str, os: &str) -> (bytes: Vec<u8>)
    ensures
        bytes@ == postcard_header_bytes(major, minor, date@, os@),
        postcard_header_read(bytes@) == Some((major, minor, date@, os@)),
{
    postcard::to_stdvec(&(major, minor, date, os)).unwrap()
}

/// Calls `postcard::from_bytes` for the header's fields. Trusted: the result is the named
/// read of the bytes, `None` where postcard returns an error.
#[verifier::external_body]
fn decode_header(bytes: &[u8]) -> (r: Option<(u8, u8, String, String)>)
    ensures
        match r {
            Some((major, minor, date, os)) => postcard_header_read(bytes@) == Some(
                (major, minor, date@, os@),
            ),
            None => postcard_header_read(bytes@) is None,
        },
{
    postcard::from_bytes::<(u8, u8, String, String)>(bytes).ok()
}

/// Identifies the program and version that wrote a saved game.
#[derive(Debug, PartialEq, Eq)]
pub struct Header {
    pub major_version: u8,
    pub minor_version: u8,
    pub date: String,
    pub os: String,
}

impl Header {
    /// The header for a game saved now by this version, given the date and the operating
    /// system.
    pub fn new(date: String, os: String) -> (h: Header)
        ensures
            h.major_version == MAJOR_VERSION,
            h.minor_version == MINOR_VERSION,
            h.date@ == date@,
            h.os@ == os@,
    {
        Header { major_version: MAJOR_VERSION, minor_version: MINOR_VERSION, date, os }
    }
}

/// A saved game written by an incompatible version.
#[derive(Debug, Clone, Copy, PartialEq, Eq, Structural)]
pub struct BadVersionError {
    major: u8,
}

/// The error for a saved game of the major version.
pub closed spec fn version_error(major: u8) -> BadVersionError {
    BadVersionError { major }
}

impl BadVersionError {
    pub closed spec fn spec_major(&self) -> u8 {
        self.major
    }

    /// The error for a saved game of the major version.
    pub fn new(major: u8) -> (e: BadVersionError)
        ensures
            e == version_error(major),
            e.spec_major() == major,
    {
        BadVersionError { major }
    }

    /// Says which version was expected and which was found.
    pub fn to_string(&self) -> (s: String)
        ensures
            s@ == "Expected file version "@ + decimal(MAJOR_VERSION as nat) + " but found version "@
                + decimal(self.spec_major() as nat),
    {
        let mut s = String::from_str("Expected file version ");
        push_decimal(&mut s, MAJOR_VERSION as u64);
        s.append(" but found version ");
        push_decimal(&mut s, self.major as u64);
        s
    }
}

/// Why a saved game could not be loaded.
#[derive(Debug, Clone, Copy, PartialEq, Eq, Structural)]
pub enum LoadError {
    /// The file ends inside its header or inside a chunk.
    Truncated,
    /// The header's bytes do not read as a header.
    BadHeader,
    /// The file was written by an incompatible version.
    BadVersion(BadVersionError),
}

/// What loading the file gives: the header's fields and the event chunks, or the error.
pub open spec fn spec_load(bytes: Seq<u8>) -> Result<(u8, u8, Seq<char>, Seq<char>, Seq<Seq<u8>>), LoadError> {
    if bytes.len() < 4 {
        Err(LoadError::Truncated)
    } else {
        let len = le_value(bytes.subrange(0, 4));
        if 4 + len > bytes.len() {
            Err(LoadError::Truncated)
        } else {
            match postcard_header_read(bytes.subrange(4, 4 + len)) {
                None => Err(LoadError::BadHeader),
                Some((major, minor, date, os)) => if major != MAJOR_VERSION {
                    Err(LoadError::BadVersion(version_error(major)))
                } else {
                    match payloads_from(bytes, 4 + len) {
                        Some(chunks) => Ok((major, minor, date, os, chunks)),
                        None => Err(LoadError::Truncated),
                    }
                },
            }
        }
    }
}

/// The start of a new saved game: the header in a frame.
pub fn new_with_header(header: &Header) -> (file: Vec<u8>)
    ensures
        file@ == frame(
            postcard_header_bytes(
                header.major_version,
                header.minor_version,
                header.date@,
                header.os@,
            ),
        ),
        postcard_header_read(
            postcard_header_bytes(
                header.major_version,
                header.minor_version,
                header.date@,
                header.os@,
            ),
        ) == Some((header.major_version, header.minor_version, header.date@, header.os@)),
{
    let bytes = encode_header(
        header.major_version,
        header.minor_version,
        header.date.as_str(),
        header.os.as_str(),
    );
    let mut file: Vec<u8> = Vec::new();
    append_frame(&mut file, bytes.as_slice());
    assert(file@ =~= frame(bytes@));
    file
}

/// Appends a chunk of encoded events onto a saved game.
pub fn append_game(file: &mut Vec<u8>, events: &[u8])
    ensures
        final(file)@ == old(file)@ + frame(events@),
{
    append_frame(file, events);
}

/// Reads a saved game: its header, which must be of this major version, and its chunks
/// of encoded events.
pub fn load_game(bytes: &[u8]) -> (r: Result<(Header, Vec<Vec<u8>>), LoadError>)
    ensures
        match (r, spec_load(bytes@)) {
            (Ok((h, chunks)), Ok((major, minor, date, os, payloads))) => {
                &&& h.major_version == major
                &&& h.minor_version == minor
                &&& h.date@ == date
                &&& h.os@ == os
                &&& chunks@.map_values(|c: Vec<u8>| c@) == payloads
            },
            (Err(e), Err(f)) => e == f,
            _ => false,
        },
{
    let len = match read_len(bytes, 0) {
        Some(len) => len,
        None => {
            return Err(LoadError::Truncated);
        },
    };
    if bytes.len() - 4 < len {
        return Err(LoadError::Truncated);
    }
    let (major, minor, date, os) = match decode_header(&bytes[4..4 + len]) {
        Some(fields) => fields,
        None => {
            return Err(LoadError::BadHeader);
        },
    };
    if major != MAJOR_VERSION {
        return Err(LoadError::BadVersion(BadVersionError { major }));
    }
    match read_payloads(bytes, 4 + len) {
        Some(chunks) => Ok(
            (Header { major_version: major, minor_version: minor, date, os }, chunks),
        ),
        None => Err(LoadError::Truncated),
    }
}

/// A saved game loads as what was saved: the header that started it and the chunks that
/// were appended, in order, when the header's version is this one and every frame's
/// length fits in four bytes.
pub proof fn law_load_after_save(
    major: u8,
    minor: u8,
    date: Seq<char>,
    os: Seq<char>,
    chunks: Seq<Seq<u8>>,
)
    requires
        postcard_header_read(postcard_header_bytes(major, minor, date, os)) == Some(
            (major, minor, date, os),
        ),
        postcard_header_bytes(major, minor, date, os).len() < 0x1_0000_0000,
        major == MAJOR_VERSION,
        lengths_fit(chunks),
    ensures
        spec_load(frame(postcard_header_bytes(major, minor, date, os)) + frames(chunks)) == Ok::<
            (u8, u8, Seq<char>, Seq<char>, Seq<Seq<u8>>),
            LoadError,
        >((major, minor, date, os, chunks)),
{
    let hb = postcard_header_bytes(major, minor, date, os);
    let prefix = frame(hb);
    let bytes = prefix + frames(chunks);
    let len = hb.len() as int;
    lemma_le_round_trip(recorded_len(hb.len()));
    assert(recorded_len(hb.len()) == len);
    assert(bytes.subrange(0, 4) =~= le_bytes(recorded_len(hb.len())));
    assert(le_value(bytes.subrange(0, 4)) == len);
    assert(bytes.subrange(4, 4 + len) =~= hb);
    assert(prefix.len() == 4 + len);
    lemma_read_frames(prefix, chunks);
    assert(payloads_from(bytes, 4 + len) == Some(chunks));
}

/// Frames written one after another read as one list: appending chunks onto a saved game
/// and framing them all at once give the same bytes.
pub proof fn law_frames_append(first: Seq<Seq<u8>>, second: Seq<Seq<u8>>)
    ensures
        frames(first + second) == frames(first) + frames(second),
    decreases first.len(),
{
    if first.len() == 0 {
        assert(first + second =~= second);
    } else {
        law_frames_append(first.drop_first(), second);
        assert((first + second).drop_first() =~= first.drop_first() + second);
        assert((first + second)[0] == first[0]);
    }
}


/// The text of an error about the saved game's file: what could not be done with it, and
/// why.
pub open spec fn file_error_text(path: Seq<char>, doing: Seq<char>, err: Seq<char>) -> Seq<char> {
    "Couldn't open "@ + path + doing + ": "@ + err
}

/// The texts of the messages when a saved game is loaded: the read error, if reading
/// failed; the append error, if the file was opened for appending and that failed; and
/// then the warnings.
pub open spec fn load_texts(
    path: Seq<char>,
    loaded: Result<(u64, usize), Seq<char>>,
    appended: Option<Result<(), Seq<char>>>,
    warnings: Seq<Seq<char>>,
) -> Seq<Seq<char>> {
    let read = match loaded {
        Ok(_) => Seq::empty(),
        Err(e) => seq![file_error_text(path, " for reading"@, e)],
    };
    let append = match appended {
        Some(Err(e)) => seq![file_error_text(path, " for appending"@, e)],
        _ => Seq::empty(),
    };
    read + append + warnings
}

/// What loading a saved game comes to.
pub struct LoadPlan {
    /// The seed of the game: the saved one, or 1 when the file could not be read.
    pub seed: u64,
    /// Errors to show the player, oldest first.
    pub messages: Vec<Message>,
    /// The saved actions are replayed, with new ones appended to the file; otherwise a
    /// new game starts.
    pub replay: bool,
}

fn file_error(path: &str, doing: &str, err: &String) -> (m: Message)
    ensures
        m.topic == Topic::Error,
        m.text@ == file_error_text(path@, doing@, err@),
{
    let mut text = String::from_str("Couldn't open ");
    text.append(path);
    text.append(doing);
    text.append(": ");
    text.append(err.as_str());
    proof {
        assert(text@ =~= file_error_text(path@, doing@, err@));
    }
    Message { topic: Topic::Error, text }
}

/// The decisions of loading a saved game, given what reading its file gave (the seed and
/// the number of saved actions, or the error's text), what opening it for appending gave
/// (which is tried only when there are saved actions), and the warnings met on the way.
/// The actions are replayed only when the file could be opened for appending.
pub fn load_plan(
    path: &str,
    loaded: Result<(u64, usize), String>,
    appended: Option<Result<(), String>>,
    warnings: &Vec<String>,
) -> (r: LoadPlan)
    requires
        appended is Some <==> (loaded matches Ok((_, n)) && n > 0),
    ensures
        r.seed == match loaded {
            Ok((seed, _)) => seed,
            Err(_) => 1,
        },
        r.replay == (appended matches Some(Ok(_))),
        ({
            let texts = load_texts(
                path@,
                match loaded {
                    Ok(v) => Ok(v),
                    Err(e) => Err(e@),
                },
                match appended {
                    Some(Ok(())) => Some(Ok(())),
                    Some(Err(e)) => Some(Err(e@)),
                    None => None,
                },
                warnings@.map_values(|w: String| w@),
            );
            &&& r.messages@.len() == texts.len()
            &&& forall|i: int| 0 <= i < texts.len() ==> (#[trigger] r.messages@[i]).topic == Topic::Error
                && r.messages@[i].text@ == texts[i]
        }),
{
    let mut messages: Vec<Message> = Vec::new();
    let seed = match &loaded {
        Ok((s, _)) => *s,
        Err(e) => {
            messages.push(file_error(path, " for reading", e));
            1
        },
    };
    let ghost first = messages@;
    let replay = match &appended {
        Some(Ok(())) => true,
        Some(Err(e)) => {
            messages.push(file_error(path, " for appending", e));
            false
        },
        None => false,
    };
    let ghost second = messages@;
    let ghost head: Seq<Seq<char>> = {
        let read = match &loaded {
            Ok(_) => Seq::<Seq<char>>::empty(),
            Err(e) => seq![file_error_text(path@, " for reading"@, e@)],
        };
        let append = match &appended {
            Some(Err(e)) => seq![file_error_text(path@, " for appending"@, e@)],
            _ => Seq::<Seq<char>>::empty(),
        };
        read + append
    };
    assert(second.len() == head.len());
    assert(forall|j: int| 0 <= j < head.len() ==> (#[trigger] second[j]).topic == Topic::Error
        && second[j].text@ == head[j]);
    let mut i: usize = 0;
    while i < warnings.len()
        invariant
            i <= warnings@.len(),
            messages@.len() == second.len() + i,
            forall|j: int| 0 <= j < second.len() ==> messages@[j] == second[j],
            forall|j: int| 0 <= j < i ==> (#[trigger] messages@[second.len() + j]).topic == Topic::Error
                && messages@[second.len() + j].text@ == warnings@[j]@,
        decreases warnings@.len() - i,
    {
        let text = warnings[i].clone();
        messages.push(Message { topic: Topic::Error, text });
        i = i + 1;
    }
    proof {
        let texts = load_texts(
            path@,
            match loaded {
                Ok(v) => Ok(v),
                Err(e) => Err(e@),
            },
            match appended {
                Some(Ok(())) => Some(Ok(())),
                Some(Err(e)) => Some(Err(e@)),
                None => None,
            },
            warnings@.map_values(|w: String| w@),
        );
        let shown = warnings@.map_values(|w: String| w@);
        assert(texts =~= head + shown);
        assert forall|j: int| 0 <= j < texts.len() implies (#[trigger] messages@[j]).topic == Topic::Error
            && messages@[j].text@ == texts[j] by {
            if j >= second.len() {
                let w = j - second.len();
                assert(messages@[second.len() + w].text@ == warnings@[w]@);
                assert(shown[w] == warnings@[w]@);
            } else {
                assert(messages@[j] == second[j]);
            }
        }
    }
    LoadPlan { seed, messages, replay }
}

} // verus!
