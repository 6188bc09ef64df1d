//! Virus scans: the stream protocol of the scanner and its replies.
//!
//! The caller moves the bytes; `Scan` says what follows each event.

use vstd::prelude::*;
use vstd::string::*;

use crate::bytes;
use crate::bytes::{extend, to_be};
use crate::text;
use crate::text::{
    chars_of, debug_text, has_suffix, lossy_text, same_text, trim_text, without_prefix,
    without_suffix, Trim,
};

verus! {

/// The most bytes that go into one frame.
pub const CHUNK_SIZE: usize = 8192;

/// Whether an address of the scanner is the path of a Unix socket rather than
/// a TCP address.
pub fn is_socket_path(addr: &str) -> (r: bool)
    ensures
        r == (addr@.len() > 0 && addr@[0] == '/'),
{
    let chars = chars_of(addr);
    chars.len() > 0 && chars[0] == '/'
}

/// What can go wrong on the connection.
#[derive(Debug, Clone, Copy, PartialEq, Eq, Structural)]
pub enum WireError {
    BrokenPipe,
    ConnectionReset,
    Other,
}

/// The scanner has closed the connection: it found a virus, or has already
/// sent its reply.
pub open spec fn closed(e: WireError) -> bool {
    e == WireError::BrokenPipe || e == WireError::ConnectionReset
}

/// Whether the scanner has closed the connection.
pub fn is_connection_closed(e: WireError) -> (r: bool)
    ensures
        r == closed(e),
{
    match e {
        WireError::BrokenPipe => true,
        WireError::ConnectionReset => true,
        WireError::Other => false,
    }
}

// ---------------------------------------------------------------- sending

/// The command that opens a stream.
pub open spec fn command_bytes() -> Seq<u8> {
    seq![0x7au8, 0x49, 0x4e, 0x53, 0x54, 0x52, 0x45, 0x41, 0x4d, 0x00]
}

/// A chunk as a frame: its length in four bytes, then its bytes.
pub open spec fn frame_bytes(chunk: Seq<u8>) -> Seq<u8> {
    bytes::be_bytes(chunk.len(), 4) + chunk
}

/// The frame that ends a stream.
pub open spec fn end_bytes() -> Seq<u8> {
    seq![0u8, 0, 0, 0]
}

/// A row of chunks as frames, with the end frame.
pub open spec fn framed(chunks: Seq<Seq<u8>>) -> Seq<u8>
    decreases chunks.len(),
{
    if chunks.len() == 0 {
        end_bytes()
    } else {
        frame_bytes(chunks[0]) + framed(chunks.skip(1))
    }
}

/// What a scanner makes of a row of frames: the bytes up to the end frame, or
/// nothing where the row breaks off.
pub open spec fn unframed(stream: Seq<u8>) -> Option<Seq<u8>>
    decreases stream.len(),
{
    if stream.len() < 4 {
        None
    } else {
        let n = bytes::be_value(stream.take(4));
        if n == 0 {
            Some(Seq::empty())
        } else if stream.len() < 4 + n {
            None
        } else {
            match unframed(stream.skip((4 + n) as int)) {
                Some(rest) => Some(stream.subrange(4, (4 + n) as int) + rest),
                None => None,
            }
        }
    }
}

/// The bytes of a row of chunks.
pub open spec fn content(chunks: Seq<Seq<u8>>) -> Seq<u8>
    decreases chunks.len(),
{
    if chunks.len() == 0 {
        Seq::empty()
    } else {
        chunks[0] + content(chunks.skip(1))
    }
}

/// The command that opens a stream.
pub fn stream_command() -> (r: [u8; 10])
    ensures
        r@ == command_bytes(),
{
    let r: [u8; 10] = [0x7au8, 0x49, 0x4e, 0x53, 0x54, 0x52, 0x45, 0x41, 0x4d, 0x00];
    assert(r@ =~= command_bytes());
    r
}

/// A chunk as a frame.
pub fn frame(chunk: &[u8]) -> (r: Vec<u8>)
    ensures
        r@ == frame_bytes(chunk@),
{
    let mut out = to_be(chunk.len() as u128, 4);
    extend(&mut out, chunk);
    out
}

/// The frame that ends a stream.
pub fn end_frame() -> (r: [u8; 4])
    ensures
        r@ == end_bytes(),
{
    let r: [u8; 4] = [0u8, 0, 0, 0];
    assert(r@ =~= end_bytes());
    r
}

/// The scanner gets the file as it is: the frames of a row of chunks give
/// back the bytes of the chunks.
pub proof fn lemma_frames_carry_content(chunks: Seq<Seq<u8>>)
    requires
        forall|i: int| 0 <= i < chunks.len() ==> 0 < (#[trigger] chunks[i]).len() <= CHUNK_SIZE,
    ensures
        unframed(framed(chunks)) == Some(content(chunks)),
    decreases chunks.len(),
{
    bytes::lemma_byte_ranges();
    if chunks.len() == 0 {
        let s = end_bytes();
        assert(s.take(4) =~= s);
        reveal_with_fuel(bytes::be_value, 5);
        assert(s.drop_last().drop_last().drop_last().drop_last() =~= Seq::<u8>::empty());
        assert(bytes::be_value(s) == 0);
    } else {
        let head = chunks[0];
        let tail = chunks.skip(1);
        assert forall|i: int| 0 <= i < tail.len() implies 0 < (#[trigger] tail[i]).len()
            <= CHUNK_SIZE by {
            assert(tail[i] == chunks[i + 1]);
        }
        lemma_frames_carry_content(tail);
        let n = head.len();
        assert(0 < n <= CHUNK_SIZE);
        bytes::lemma_be_round_trip(n, 4);
        let s = framed(chunks);
        assert(s.take(4) =~= bytes::be_bytes(n, 4));
        assert(s.subrange(4, (4 + n) as int) =~= head);
        assert(s.skip((4 + n) as int) =~= framed(tail));
    }
}

// ---------------------------------------------------------------- the scan

/// What is to be done next.
#[derive(Debug, Clone, Copy, PartialEq, Eq, Structural)]
pub enum ScanStage {
    /// Read the next chunk of the file.
    ReadingFile,
    /// Send the chunk as a frame.
    Sending,
    /// Send the end frame, whether or not that succeeds.
    Ending,
    /// Read the next byte of the reply.
    Replying,
    /// The reply is complete.
    Finished,
    /// The scan failed.
    Broken,
}

/// What happened.
#[derive(Debug, Clone, Copy, PartialEq, Eq, Structural)]
pub enum ScanEvent {
    /// So many bytes of the file were read; none at its end.
    FileRead(usize),
    /// What was to be sent is sent.
    Sent,
    /// A byte of the reply.
    Byte(u8),
    /// The connection has ended.
    Eof,
    /// The connection or the file failed.
    Failed(WireError),
}

/// The byte ends a reply.
pub open spec fn ends_reply(b: u8) -> bool {
    b == 0x00 || b == 0x0a
}

/// What an event leads to: the next stage and the byte that it adds to the
/// reply. A scanner that closes the connection while the file is being sent
/// has found something: its reply is read all the same.
pub open spec fn scan_step(stage: ScanStage, event: ScanEvent) -> (ScanStage, Option<u8>) {
    match stage {
        ScanStage::ReadingFile => match event {
            ScanEvent::FileRead(n) => if n == 0 {
                (ScanStage::Ending, None)
            } else {
                (ScanStage::Sending, None)
            },
            _ => (ScanStage::Broken, None),
        },
        ScanStage::Sending => match event {
            ScanEvent::Sent => (ScanStage::ReadingFile, None),
            ScanEvent::Failed(e) => if closed(e) {
                (ScanStage::Ending, None)
            } else {
                (ScanStage::Broken, None)
            },
            _ => (ScanStage::Broken, None),
        },
        ScanStage::Ending => (ScanStage::Replying, None),
        ScanStage::Replying => match event {
            ScanEvent::Byte(b) => if ends_reply(b) {
                (ScanStage::Finished, None)
            } else {
                (ScanStage::Replying, Some(b))
            },
            ScanEvent::Eof => (ScanStage::Finished, None),
            ScanEvent::Failed(e) => if closed(e) {
                (ScanStage::Finished, None)
            } else {
                (ScanStage::Broken, None)
            },
            _ => (ScanStage::Broken, None),
        },
        ScanStage::Finished => (ScanStage::Finished, None),
        ScanStage::Broken => (ScanStage::Broken, None),
    }
}

/// One scan.
pub struct Scan {
    stage: ScanStage,
    reply: Vec<u8>,
}

impl Scan {
    /// What is to be done next.
    pub closed spec fn stage(&self) -> ScanStage {
        self.stage
    }

    /// The reply so far.
    pub closed spec fn reply(&self) -> Seq<u8> {
        self.reply@
    }

    /// A scan whose command has been sent.
    pub fn new() -> (r: Scan)
        ensures
            r.stage() == ScanStage::ReadingFile,
            r.reply() == Seq::<u8>::empty(),
    {
        Scan { stage: ScanStage::ReadingFile, reply: Vec::new() }
    }

    /// What is to be done next.
    pub fn next(&self) -> (r: ScanStage)
        ensures
            r == self.stage(),
    {
        self.stage
    }

    /// Takes in what happened.
    pub fn advance(&mut self, event: ScanEvent)
        ensures
            final(self).stage() == scan_step(old(self).stage(), event).0,
            final(self).reply() == (match scan_step(old(self).stage(), event).1 {
                Some(b) => old(self).reply().push(b),
                None => old(self).reply(),
            }),
    {
        match self.stage {
            ScanStage::ReadingFile => match event {
                ScanEvent::FileRead(n) => if n == 0 {
                    self.stage = ScanStage::Ending;
                } else {
                    self.stage = ScanStage::Sending;
                },
                _ => {
                    self.stage = ScanStage::Broken;
                },
            },
            ScanStage::Sending => match event {
                ScanEvent::Sent => {
                    self.stage = ScanStage::ReadingFile;
                },
                ScanEvent::Failed(e) => if is_connection_closed(e) {
                    self.stage = ScanStage::Ending;
                } else {
                    self.stage = ScanStage::Broken;
                },
                _ => {
                    self.stage = ScanStage::Broken;
                },
            },
            ScanStage::Ending => {
                self.stage = ScanStage::Replying;
            },
            ScanStage::Replying => match event {
                ScanEvent::Byte(b) => if b == 0x00 || b == 0x0a {
                    self.stage = ScanStage::Finished;
                } else {
                    self.reply.push(b);
                },
                ScanEvent::Eof => {
                    self.stage = ScanStage::Finished;
                },
                ScanEvent::Failed(e) => if is_connection_closed(e) {
                    self.stage = ScanStage::Finished;
                } else {
                    self.stage = ScanStage::Broken;
                },
                _ => {
                    self.stage = ScanStage::Broken;
                },
            },
            ScanStage::Finished => {},
            ScanStage::Broken => {},
        }
    }

    /// What the scanner replied.
    pub fn verdict(&self) -> (r: Result<ScanResult, String>)
        ensures
            verdict_view(r) == reply_verdict(self.reply()),
    {
        let whole = lossy_text(self.reply.as_slice());
        let response = trim_text(whole.as_str(), &Trim::Blank);
        read_response(response.as_str())
    }
}

// ---------------------------------------------------------------- replies

/// What a scan found.
#[derive(Debug)]
pub enum ScanResult {
    Clean,
    Infected(String),
}

/// What a reply says.
pub enum Verdict {
    Clean,
    Infected(Seq<char>),
    Error(Seq<char>),
}

/// What the outcome of a scan says.
pub open spec fn verdict_view(r: Result<ScanResult, String>) -> Verdict {
    match r {
        Ok(ScanResult::Clean) => Verdict::Clean,
        Ok(ScanResult::Infected(name)) => Verdict::Infected(name@),
        Err(message) => Verdict::Error(message@),
    }
}

/// What the text between two texts is, where there is room for both.
pub open spec fn between(s: Seq<char>, front: Seq<char>, back: Seq<char>) -> Option<Seq<char>> {
    if front.is_prefix_of(s) && back.is_suffix_of(s.skip(front.len() as int)) {
        Some(s.subrange(front.len() as int, s.len() - back.len()))
    } else {
        None
    }
}

/// What a response says: `stream: OK` is clean, `stream: NAME FOUND` is an
/// infection, one that ends in ` ERROR` is an error as it stands, and any
/// other is quoted in an error.
pub open spec fn response_verdict(response: Seq<char>) -> Verdict {
    if response == "stream: OK"@ {
        Verdict::Clean
    } else {
        match between(response, "stream: "@, " FOUND"@) {
            Some(name) => Verdict::Infected(name),
            None => if " ERROR"@.is_suffix_of(response) {
                Verdict::Error(response)
            } else {
                Verdict::Error("unexpected clamd response: "@ + text::debug_form(response))
            },
        }
    }
}

/// What the bytes of a reply say.
pub open spec fn reply_verdict(reply: Seq<u8>) -> Verdict {
    response_verdict(text::trim_both(text::lossy_utf8(reply), Trim::Blank))
}

/// Reads a response of the scanner.
pub fn read_response(response: &str) -> (r: Result<ScanResult, String>)
    ensures
        verdict_view(r) == response_verdict(response@),
{
    if same_text(response, "stream: OK") {
        return Ok(ScanResult::Clean);
    }
    if let Some(rest) = without_prefix(response, "stream: ") {
        if let Some(name) = without_suffix(rest.as_str(), " FOUND") {
            assert(name@ =~= response@.subrange(
                "stream: "@.len() as int,
                response@.len() - " FOUND"@.len(),
            ));
            return Ok(ScanResult::Infected(name));
        }
    }
    if has_suffix(response, " ERROR") {
        return Err(response.to_owned());
    }
    let mut message = "unexpected clamd response: ".to_owned();
    let quoted = debug_text(response);
    message.append(quoted.as_str());
    Err(message)
}

/// Whether an upload is deleted after its scan: only an infected one is.
pub fn must_delete(outcome: &Result<ScanResult, String>) -> (r: bool)
    ensures
        r == (verdict_view(*outcome) is Infected),
{
    match outcome {
        Ok(ScanResult::Infected(_)) => true,
        _ => false,
    }
}

/// The stage and the reply after a row of events.
pub open spec fn scan_run(stage: ScanStage, reply: Seq<u8>, events: Seq<ScanEvent>) -> (
    ScanStage,
    Seq<u8>,
)
    decreases events.len(),
{
    if events.len() == 0 {
        (stage, reply)
    } else {
        let (next, added) = scan_step(stage, events[0]);
        scan_run(
            next,
            match added {
                Some(b) => reply.push(b),
                None => reply,
            },
            events.skip(1),
        )
    }
}

/// The bytes as they come in from the scanner.
pub open spec fn byte_events(bytes: Seq<u8>) -> Seq<ScanEvent> {
    bytes.map_values(|b: u8| ScanEvent::Byte(b))
}

proof fn lemma_finished_stays(reply: Seq<u8>, events: Seq<ScanEvent>)
    ensures
        scan_run(ScanStage::Finished, reply, events) == (ScanStage::Finished, reply),
    decreases events.len(),
{
    if events.len() > 0 {
        lemma_finished_stays(reply, events.skip(1));
    }
}

/// The reply that is judged is what the scanner sends up to the first byte
/// that ends a reply; whatever comes after it changes nothing.
pub proof fn lemma_reply_ends_at_terminator(reply: Seq<u8>, bytes: Seq<u8>, k: int)
    requires
        0 <= k < bytes.len(),
        ends_reply(bytes[k]),
        forall|i: int| 0 <= i < k ==> !ends_reply(#[trigger] bytes[i]),
    ensures
        scan_run(ScanStage::Replying, reply, byte_events(bytes)) == (
            ScanStage::Finished,
            reply + bytes.take(k),
        ),
    decreases k,
{
    let events = byte_events(bytes);
    assert(events.skip(1) =~= byte_events(bytes.skip(1)));
    if k == 0 {
        lemma_finished_stays(reply, events.skip(1));
        assert(reply + bytes.take(0) =~= reply);
    } else {
        let tail = bytes.skip(1);
        assert forall|i: int| 0 <= i < k - 1 implies !ends_reply(#[trigger] tail[i]) by {
            assert(!ends_reply(bytes[i + 1]));
        }
        assert(!ends_reply(bytes[0]));
        lemma_reply_ends_at_terminator(reply.push(bytes[0]), tail, k - 1);
        assert(reply.push(bytes[0]) + tail.take(k - 1) =~= reply + bytes.take(k));
    }
}

// ---------------------------------------------------------------- laws

/// A file is clean only where the scanner says so in these words; a name
/// between `stream: ` and ` FOUND` is that of an infection, whatever the name.
pub proof fn lemma_verdicts(response: Seq<char>, name: Seq<char>)
    ensures
        response_verdict(response) is Clean <==> response == "stream: OK"@,
        response_verdict("stream: "@ + name + " FOUND"@) == Verdict::Infected(name),
        response_verdict(response) matches Verdict::Infected(found) ==> response == "stream: "@
            + found + " FOUND"@,
{
    reveal_strlit("stream: OK");
    reveal_strlit("stream: ");
    reveal_strlit(" FOUND");
    let s = "stream: "@ + name + " FOUND"@;
    assert(s.last() == 'D');
    assert("stream: OK"@.last() == 'K');
    assert(s.subrange(0, 8) =~= "stream: "@);
    let rest = s.skip(8);
    assert(rest.subrange(rest.len() - 6, rest.len() as int) =~= " FOUND"@);
    assert(s.subrange(8, s.len() - 6) =~= name);
    if let Verdict::Infected(found) = response_verdict(response) {
        let tail = response.skip(8);
        assert(response.subrange(0, 8) =~= "stream: "@);
        assert(tail.subrange(tail.len() - 6, tail.len() as int) =~= " FOUND"@);
        assert(found =~= response.subrange(8, response.len() - 6));
        assert(response =~= "stream: "@ + found + " FOUND"@);
    }
}

/// Anything else is an error: as it stands where it ends in ` ERROR`, and else
/// quoted.
pub proof fn lemma_errors_of_the_scanner(response: Seq<char>)
    requires
        response != "stream: OK"@,
        !(exists|name: Seq<char>| response == #[trigger] ("stream: "@ + name + " FOUND"@)),
    ensures
        " ERROR"@.is_suffix_of(response) ==> response_verdict(response) == Verdict::Error(response),
        !" ERROR"@.is_suffix_of(response) ==> response_verdict(response) == Verdict::Error(
            "unexpected clamd response: "@ + text::debug_form(response),
        ),
{
    lemma_verdicts(response, Seq::empty());
    if let Verdict::Infected(found) = response_verdict(response) {
        assert(response == "stream: "@ + found + " FOUND"@);
    }
}

/// A reply is judged without the blanks around it.
pub proof fn lemma_reply_is_trimmed(
    reply: Seq<u8>,
    front: Seq<char>,
    response: Seq<char>,
    back: Seq<char>,
)
    requires
        text::lossy_utf8(reply) == front + response + back,
        forall|i: int| 0 <= i < front.len() ==> text::unicode_whitespace(#[trigger] front[i]),
        forall|i: int| 0 <= i < back.len() ==> text::unicode_whitespace(#[trigger] back[i]),
        response.len() > 0 ==> !text::unicode_whitespace(response[0]) && !text::unicode_whitespace(
            response.last(),
        ),
    ensures
        reply_verdict(reply) == response_verdict(response),
{
    text::lemma_trim_leaves_the_middle(front, response, back, Trim::Blank);
}

/// A frame tells the length of its chunk in four bytes and then holds the
/// chunk; the end of a stream is a frame of length 0, and its command is
/// `zINSTREAM` with a zero byte behind it.
pub proof fn lemma_frames(chunk: Seq<u8>)
    requires
        chunk.len() < 0x1_0000_0000,
    ensures
        frame_bytes(chunk).len() == chunk.len() + 4,
        bytes::be_value(frame_bytes(chunk).take(4)) == chunk.len(),
        frame_bytes(chunk).skip(4) == chunk,
        end_bytes() == seq![0u8, 0, 0, 0],
        command_bytes().len() == 10,
        command_bytes()[9] == 0,
        forall|i: int| 0 <= i < 9 ==> #[trigger] command_bytes()[i] as char == "zINSTREAM"@[i],
{
    bytes::lemma_byte_ranges();
    bytes::lemma_be_round_trip(chunk.len(), 4);
    assert(frame_bytes(chunk).take(4) =~= bytes::be_bytes(chunk.len(), 4));
    assert(frame_bytes(chunk).skip(4) =~= chunk);
    reveal_strlit("zINSTREAM");
    let c = command_bytes();
    assert forall|i: int| 0 <= i < 9 implies #[trigger] c[i] as char == "zINSTREAM"@[i] by {
        if i == 0 {
        } else if i == 1 {
        } else if i == 2 {
        } else if i == 3 {
        } else if i == 4 {
        } else if i == 5 {
        } else if i == 6 {
        } else if i == 7 {
        } else {
        }
    }
}

/// The file is sent chunk by chunk until its end, and then the stream is
/// ended.
pub proof fn lemma_file_is_sent(n: usize)
    ensures
        n > 0 ==> scan_step(ScanStage::ReadingFile, ScanEvent::FileRead(n)) == (
            ScanStage::Sending,
            None::<u8>,
        ),
        scan_step(ScanStage::ReadingFile, ScanEvent::FileRead(0)) == (
            ScanStage::Ending,
            None::<u8>,
        ),
        scan_step(ScanStage::Sending, ScanEvent::Sent) == (ScanStage::ReadingFile, None::<u8>),
{
}

/// A scanner that has closed the connection is still listened to: its reply is
/// read, or what there is of it; any other failure breaks the scan off.
pub proof fn lemma_closed_connection(e: WireError)
    ensures
        e == WireError::BrokenPipe || e == WireError::ConnectionReset ==> {
            &&& scan_step(ScanStage::Sending, ScanEvent::Failed(e)) == (
                ScanStage::Ending,
                None::<u8>,
            )
            &&& scan_step(ScanStage::Replying, ScanEvent::Failed(e)) == (
                ScanStage::Finished,
                None::<u8>,
            )
        },
        e == WireError::Other ==> {
            &&& scan_step(ScanStage::Sending, ScanEvent::Failed(e)) == (
                ScanStage::Broken,
                None::<u8>,
            )
            &&& scan_step(ScanStage::Replying, ScanEvent::Failed(e)) == (
                ScanStage::Broken,
                None::<u8>,
            )
        },
        scan_step(ScanStage::ReadingFile, ScanEvent::Failed(e)) == (ScanStage::Broken, None::<u8>),
{
}

/// Whatever comes of ending the stream, the reply is read: a byte other than
/// zero and the line feed belongs to it, and either of these two or the end of
/// the connection ends it.
pub proof fn lemma_reply_is_read(event: ScanEvent, b: u8)
    ensures
        scan_step(ScanStage::Ending, event) == (ScanStage::Replying, None::<u8>),
        b != 0 && b != 10 ==> scan_step(ScanStage::Replying, ScanEvent::Byte(b)) == (
            ScanStage::Replying,
            Some(b),
        ),
        b == 0 || b == 10 ==> scan_step(ScanStage::Replying, ScanEvent::Byte(b)) == (
            ScanStage::Finished,
            None::<u8>,
        ),
        scan_step(ScanStage::Replying, ScanEvent::Eof) == (ScanStage::Finished, None::<u8>),
        scan_step(ScanStage::Finished, event) == (ScanStage::Finished, None::<u8>),
        scan_step(ScanStage::Broken, event) == (ScanStage::Broken, None::<u8>),
{
}

/// Only in the reply bytes are taken in, and a scan ends well only there.
pub proof fn lemma_verdict_comes_from_the_reply(stage: ScanStage, event: ScanEvent)
    requires
        stage != ScanStage::Replying,
    ensures
        scan_step(stage, event).1 is None,
        scan_step(stage, event).0 == ScanStage::Finished ==> stage == ScanStage::Finished,
{
}

/// What a scan says is what its outcome holds.
pub proof fn lemma_what_a_scan_says(name: String)
    ensures
        verdict_view(Ok(ScanResult::Clean)) == Verdict::Clean,
        verdict_view(Ok(ScanResult::Infected(name))) == Verdict::Infected(name@),
        verdict_view(Err(name)) == Verdict::Error(name@),
        CHUNK_SIZE == 8192,
{
}

} // verus!
