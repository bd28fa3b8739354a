//! The file-streaming sub-protocol: how a batch of files is framed on the
//! data connection, how the receiver reads it back and what each side
//! reports at the end.
use vstd::prelude::*;
use vstd::string::StringSliceAdditionalSpecFns;
use crate::address::IpAddress;
use crate::protocol::{parse_remote, remote_text, LocalResponse, RemoteResponse};
use crate::text::{
    append_bytes, bytes_eq, copy_range, crlf, dec_text, find_byte, index_of, parse_bounded,
    parse_up_to, push_dec, push_str, split_first, split_once, trim, trimmed,
};

verus! {

/// Longest file name sent, in bytes; a longer one is cut.
pub const FILE_NAME_LENGTH_LIMIT: usize = 260;

/// Size of the chunks a file body is streamed in.
pub const FILE_TRANS_BUF_SIZE: usize = 8192;

/// Most bytes a receiver holds while waiting for the lines that open a
/// stream or a frame; the longest valid ones take well under this.
pub const HEAD_BUFFER_LIMIT: usize = 1024;

/// A named file body.
#[derive(Clone, Debug)]
pub struct FileData {
    name: Vec<u8>,
    data: Vec<u8>,
}

impl View for FileData {
    type V = (Seq<u8>, Seq<u8>);

    open spec fn view(&self) -> (Seq<u8>, Seq<u8>) {
        (self.spec_name(), self.spec_data())
    }
}

impl FileData {
    pub closed spec fn spec_name(&self) -> Seq<u8> {
        self.name@
    }

    pub closed spec fn spec_data(&self) -> Seq<u8> {
        self.data@
    }

    pub fn empty_file(name: Vec<u8>) -> (r: FileData)
        ensures
            r@ == (name@, Seq::<u8>::empty()),
    {
        FileData { name, data: Vec::with_capacity(0) }
    }

    pub fn new(name: Vec<u8>, data: Vec<u8>) -> (r: FileData)
        ensures
            r@ == (name@, data@),
    {
        FileData { name, data }
    }

    pub fn name(&self) -> (r: &[u8])
        ensures
            r@ == self@.0,
    {
        self.name.as_slice()
    }

    pub fn data(&self) -> (r: &[u8])
        ensures
            r@ == self@.1,
    {
        self.data.as_slice()
    }
}

/// Whether `b` continues a UTF-8 character rather than starting one.
pub open spec fn is_continuation(b: u8) -> bool {
    0x80 <= b && b <= 0xBF
}

/// The largest cut of `name` at or below `k` that does not fall inside a
/// UTF-8 character: the byte after it starts a character (or the cut is at
/// the very start).
pub open spec fn char_cut(name: Seq<u8>, k: nat) -> nat
    decreases k,
{
    if k == 0 || k >= name.len() || !is_continuation(name[k as int]) {
        k
    } else {
        char_cut(name, (k - 1) as nat)
    }
}

/// The name as sent: a name longer than the limit is cut to its longest
/// prefix within the limit that ends on a character boundary.
pub open spec fn sent_name(name: Seq<u8>) -> Seq<u8> {
    if name.len() > FILE_NAME_LENGTH_LIMIT {
        name.subrange(0, char_cut(name, FILE_NAME_LENGTH_LIMIT as nat) as int)
    } else {
        name
    }
}

proof fn lemma_char_cut_step(name: Seq<u8>, k: nat)
    requires
        0 < k < name.len(),
        is_continuation(name[k as int]),
    ensures
        char_cut(name, k) == char_cut(name, (k - 1) as nat),
{
}

/// Where a name that is too long is cut.
fn name_cut(name: &[u8]) -> (r: usize)
    requires
        name@.len() > FILE_NAME_LENGTH_LIMIT,
    ensures
        r == char_cut(name@, FILE_NAME_LENGTH_LIMIT as nat),
        r <= FILE_NAME_LENGTH_LIMIT,
{
    let mut k: usize = FILE_NAME_LENGTH_LIMIT;
    while k > 0 && 0x80 <= name[k] && name[k] <= 0xBF
        invariant
            k <= FILE_NAME_LENGTH_LIMIT < name@.len(),
            char_cut(name@, k as nat) == char_cut(name@, FILE_NAME_LENGTH_LIMIT as nat),
        decreases k,
    {
        proof {
            lemma_char_cut_step(name@, k as nat);
        }
        k = k - 1;
    }
    k
}

/// `SEND_START` and the blank line that opens the first frame.
pub open spec fn stream_head() -> Seq<u8> {
    "SEND_START".spec_bytes() + crlf() + crlf()
}

/// The header line of a file: `<name>:<size>`.
pub open spec fn header_text(name: Seq<u8>, size: nat) -> Seq<u8> {
    sent_name(name) + seq![58u8] + dec_text(size) + crlf()
}

/// A file's frame: header, body, then the blank line that closes it.
pub open spec fn frame_text(f: (Seq<u8>, Seq<u8>)) -> Seq<u8> {
    header_text(f.0, f.1.len()) + f.1 + crlf()
}

pub open spec fn frames_text(files: Seq<(Seq<u8>, Seq<u8>)>) -> Seq<u8>
    decreases files.len(),
{
    if files.len() == 0 {
        Seq::empty()
    } else {
        frames_text(files.drop_last()) + frame_text(files.last())
    }
}

/// `SEND_END`, the line after the last frame.
pub open spec fn stream_tail() -> Seq<u8> {
    "SEND_END".spec_bytes() + crlf()
}

/// The whole stream that carries `files`.
pub open spec fn stream_text(files: Seq<(Seq<u8>, Seq<u8>)>) -> Seq<u8> {
    stream_head() + frames_text(files) + stream_tail()
}

/// The first line of `s`, terminator included, and what follows it.
pub open spec fn take_line(s: Seq<u8>) -> Option<(Seq<u8>, Seq<u8>)> {
    match index_of(s, 10) {
        Some(i) => Some((s.subrange(0, i + 1), s.subrange(i + 1, s.len() as int))),
        None => None,
    }
}

/// A header line's name and size.
/// A name that stays inside the receive directory: not empty, no path
/// separator (`/` or `\`), and neither `.` nor `..`.
pub open spec fn safe_name(name: Seq<u8>) -> bool {
    &&& name.len() > 0
    &&& forall|i: int| 0 <= i < name.len() ==> #[trigger] name[i] != 47 && name[i] != 92
    &&& name != seq![46u8]
    &&& name != seq![46u8, 46u8]
}

/// Whether a received name is safe to create in the receive directory.
pub fn is_safe_name(name: &[u8]) -> (r: bool)
    ensures
        r == safe_name(name@),
{
    if name.len() == 0 {
        return false;
    }
    let mut i: usize = 0;
    while i < name.len()
        invariant
            i <= name@.len(),
            forall|j: int| 0 <= j < i ==> #[trigger] name@[j] != 47 && name@[j] != 92,
        decreases name@.len() - i,
    {
        if name[i] == 47 || name[i] == 92 {
            return false;
        }
        i = i + 1;
    }
    if name.len() == 1 && name[0] == 46 {
        assert(name@ =~= seq![46u8]);
        return false;
    }
    if name.len() == 2 && name[0] == 46 && name[1] == 46 {
        assert(name@ =~= seq![46u8, 46u8]);
        return false;
    }
    proof {
        if name@ == seq![46u8] {
            assert(name@.len() == 1);
        }
        if name@ == seq![46u8, 46u8] {
            assert(name@.len() == 2 && name@[0] == 46 && name@[1] == 46);
        }
    }
    true
}

/// A header line's name and size; a name that would leave the receive
/// directory makes the frame malformed.
pub open spec fn parse_header(t: Seq<u8>) -> Option<(Seq<u8>, nat)> {
    match split_first(t, 58) {
        Some((name, size)) => if safe_name(name) {
            match parse_bounded(size, u64::MAX as nat) {
                Some(n) => Some((name, n)),
                None => None,
            }
        } else {
            None
        },
        None => None,
    }
}

/// How far a received stream got.
#[derive(Clone, Copy, Debug, PartialEq, Eq, Structural)]
pub enum StreamStatus {
    /// `SEND_END` was read where a header could stand.
    Complete,
    /// The bytes end before the stream does: more may come.
    Incomplete,
    /// Something other than the framing allows was read.
    Malformed,
}

/// Why a transfer did not end cleanly.
#[derive(Clone, Copy, Debug, PartialEq, Eq, Structural)]
pub enum FileRecvError {
    /// The stream ended before a file's declared size was read, or before
    /// `SEND_END`.
    IncorrectFileSize,
    /// A line stood where the framing does not allow it.
    InvalidFrame,
}

impl StreamStatus {
    /// The failure that an unfinished or broken stream stands for.
    pub fn error(&self) -> (r: Option<FileRecvError>)
        ensures
            r == (match *self {
                StreamStatus::Complete => None,
                StreamStatus::Incomplete => Some(FileRecvError::IncorrectFileSize),
                StreamStatus::Malformed => Some(FileRecvError::InvalidFrame),
            }),
    {
        match self {
            StreamStatus::Complete => None,
            StreamStatus::Incomplete => Some(FileRecvError::IncorrectFileSize),
            StreamStatus::Malformed => Some(FileRecvError::InvalidFrame),
        }
    }
}

/// The receiving listener's check of who connected: only the IP that was
/// granted the port may send; any other gets `INVALID_REQUEST` (and its
/// connection is dropped unread).
pub fn screen_sender(granted: IpAddress, peer: IpAddress) -> (r: Option<RemoteResponse>)
    ensures
        peer == granted ==> r is None,
        peer != granted ==> r == Some(RemoteResponse::InvalidRequest),
{
    if peer.same_host(&granted) {
        None
    } else {
        Some(RemoteResponse::InvalidRequest)
    }
}

/// The files whose frames `s` holds in full, and how the frames end; `s`
/// starts where a blank separator line is expected.
pub open spec fn decode_frames(s: Seq<u8>) -> (Seq<(Seq<u8>, Seq<u8>)>, StreamStatus)
    decreases s.len()
        via decode_frames_decreases
{
    match take_line(s) {
        None => (Seq::empty(), StreamStatus::Incomplete),
        Some((blank, rest)) => if trim(blank).len() != 0 {
            (Seq::empty(), StreamStatus::Malformed)
        } else {
            match take_line(rest) {
                None => (Seq::empty(), StreamStatus::Incomplete),
                Some((header, body)) => if trim(header) == "SEND_END".spec_bytes() {
                    (Seq::empty(), StreamStatus::Complete)
                } else {
                    match parse_header(trim(header)) {
                        None => (Seq::empty(), StreamStatus::Malformed),
                        Some((name, size)) => if body.len() < size {
                            (Seq::empty(), StreamStatus::Incomplete)
                        } else {
                            let next = decode_frames(body.subrange(size as int, body.len() as int));
                            (seq![(name, body.subrange(0, size as int))] + next.0, next.1)
                        },
                    }
                },
            }
        },
    }
}

#[via_fn]
proof fn decode_frames_decreases(s: Seq<u8>) {
    crate::text::lemma_index_of_bounds(s, 10);
    match take_line(s) {
        Some((blank, rest)) => {
            crate::text::lemma_index_of_bounds(rest, 10);
        },
        None => {},
    }
}

/// What a receiver makes of the bytes read so far on a data connection.
pub open spec fn decode_stream(s: Seq<u8>) -> (Seq<(Seq<u8>, Seq<u8>)>, StreamStatus) {
    match take_line(s) {
        None => (Seq::empty(), StreamStatus::Incomplete),
        Some((start, rest)) => if trim(start) == "SEND_START".spec_bytes() {
            decode_frames(rest)
        } else {
            (Seq::empty(), StreamStatus::Malformed)
        },
    }
}

/// The receiver's last word: the count of files on a clean end, the count
/// so far where the stream broke off after at least one file, and an
/// invalid request where no file came.
pub open spec fn receiver_reply_spec(status: StreamStatus, received: u64) -> RemoteResponse {
    if received == 0 {
        RemoteResponse::InvalidRequest
    } else if status == StreamStatus::Complete {
        RemoteResponse::FilesReceived(received)
    } else {
        RemoteResponse::UnexpectedEndFlag(received)
    }
}

/// What the receiver answers once a stream has ended (`Complete`) or broken
/// off, having taken in `received` files.
pub fn receiver_reply(status: StreamStatus, received: u64) -> (r: RemoteResponse)
    ensures
        r == receiver_reply_spec(status, received),
{
    if received == 0 {
        RemoteResponse::InvalidRequest
    } else if status == StreamStatus::Complete {
        RemoteResponse::FilesReceived(received)
    } else {
        RemoteResponse::UnexpectedEndFlag(received)
    }
}

/// The sender's reading of the receiver's last line when `total` files were
/// sent: the local reply, and whether the disagreement is to be echoed to
/// the peer as well.
pub open spec fn final_reply_spec(line: Seq<u8>, total: nat) -> (LocalResponse, bool) {
    match parse_remote(line) {
        Some(RemoteResponse::FilesReceived(n)) => if n == total {
            (LocalResponse::AllFilesSucceeded, false)
        } else if n < total {
            (LocalResponse::FilesSucceeded(n), false)
        } else {
            (LocalResponse::UnexpectedSendResponse, true)
        },
        _ => (LocalResponse::UnexpectedSendResponse, true),
    }
}

/// Reads the receiver's final reply after `total` files were sent.
pub fn interpret_final_reply(line: &[u8], total: usize) -> (r: (LocalResponse, bool))
    ensures
        r == final_reply_spec(line@, total as nat),
{
    match RemoteResponse::parse(line) {
        Ok(RemoteResponse::FilesReceived(n)) => {
            if n == total as u64 {
                (LocalResponse::AllFilesSucceeded, false)
            } else if n < total as u64 {
                (LocalResponse::FilesSucceeded(n), false)
            } else {
                (LocalResponse::UnexpectedSendResponse, true)
            }
        },
        _ => (LocalResponse::UnexpectedSendResponse, true),
    }
}

/// Appends `SEND_START` and the blank line that opens the first frame.
pub fn push_stream_head(out: &mut Vec<u8>)
    ensures
        final(out)@ == old(out)@ + stream_head(),
{
    push_str(out, "SEND_START");
    out.push(13);
    out.push(10);
    out.push(13);
    out.push(10);
    assert(final(out)@ =~= old(out)@ + stream_head());
}

/// Appends the header line of a file named `name` of `size` bytes.
pub fn push_header(out: &mut Vec<u8>, name: &[u8], size: u64)
    ensures
        final(out)@ == old(out)@ + header_text(name@, size as nat),
{
    if name.len() > FILE_NAME_LENGTH_LIMIT {
        let cut = name_cut(name);
        append_bytes(out, &name[0..cut]);
    } else {
        append_bytes(out, name);
    }
    out.push(58);
    push_dec(out, size);
    out.push(13);
    out.push(10);
    assert(final(out)@ =~= old(out)@ + header_text(name@, size as nat));
}

/// Appends the blank line that closes a frame.
pub fn push_frame_end(out: &mut Vec<u8>)
    ensures
        final(out)@ == old(out)@ + crlf(),
{
    out.push(13);
    out.push(10);
    assert(final(out)@ =~= old(out)@ + crlf());
}

/// Appends `SEND_END`.
pub fn push_stream_tail(out: &mut Vec<u8>)
    ensures
        final(out)@ == old(out)@ + stream_tail(),
{
    push_str(out, "SEND_END");
    out.push(13);
    out.push(10);
    assert(final(out)@ =~= old(out)@ + stream_tail());
}

/// The whole stream that carries `files`.
pub fn encode_stream(files: &Vec<FileData>) -> (r: Vec<u8>)
    ensures
        r@ == stream_text(files@.map_values(|f: FileData| f@)),
{
    let ghost fs = files@.map_values(|f: FileData| f@);
    let mut out: Vec<u8> = Vec::new();
    push_stream_head(&mut out);
    let mut i: usize = 0;
    while i < files.len()
        invariant
            i <= files@.len(),
            fs == files@.map_values(|f: FileData| f@),
            out@ == stream_head() + frames_text(fs.subrange(0, i as int)),
        decreases files@.len() - i,
    {
        let f = &files[i];
        push_header(&mut out, f.name(), f.data().len() as u64);
        append_bytes(&mut out, f.data());
        push_frame_end(&mut out);
        proof {
            let pre = fs.subrange(0, i as int);
            let next = fs.subrange(0, i + 1);
            assert(next.drop_last() =~= pre);
            assert(next.last() == f@);
            assert(out@ =~= stream_head() + frames_text(next));
        }
        i = i + 1;
    }
    push_stream_tail(&mut out);
    assert(fs.subrange(0, i as int) =~= fs);
    assert(out@ =~= stream_text(fs));
    out
}

/// The first line of `buf[from..]`: where it ends (one past its `\n`).
fn line_end(buf: &[u8], from: usize) -> (r: Option<usize>)
    requires
        from <= buf@.len(),
    ensures
        match take_line(buf@.subrange(from as int, buf@.len() as int)) {
            Some((line, rest)) => r == Some((from + line.len()) as usize) && from < r->0 <= buf@.len()
                && line == buf@.subrange(from as int, r->0 as int) && rest == buf@.subrange(
                r->0 as int,
                buf@.len() as int,
            ),
            None => r is None,
        },
{
    let n = buf.len();
    let tail = &buf[from..n];
    match find_byte(tail, 10) {
        Some(i) => {
            proof {
                crate::text::lemma_index_of_bounds(tail@, 10);
                assert(tail@.subrange(0, i + 1) =~= buf@.subrange(from as int, from + i + 1));
                assert(tail@.subrange(i + 1, tail@.len() as int) =~= buf@.subrange(
                    from + i + 1,
                    buf@.len() as int,
                ));
            }
            Some(from + i + 1)
        },
        None => None,
    }
}

/// How the opening line of a stream reads.
#[derive(Clone, Copy, Debug, PartialEq, Eq, Structural)]
pub enum StreamOpening {
    /// The line is not complete yet.
    NeedMore,
    /// The line is not `SEND_START`.
    Malformed,
    /// `SEND_START`, taking this many bytes.
    Started(usize),
}

pub open spec fn opening_spec(s: Seq<u8>) -> StreamOpening {
    match take_line(s) {
        None => StreamOpening::NeedMore,
        Some((start, rest)) => if trim(start) == "SEND_START".spec_bytes() {
            StreamOpening::Started(start.len() as usize)
        } else {
            StreamOpening::Malformed
        },
    }
}

/// The front of a frame: the blank separator and the line after it.
pub enum FrameHeadView {
    NeedMore,
    Malformed,
    End,
    File(Seq<u8>, nat, nat),
}

/// The front of a frame as read from received bytes.
#[derive(Debug)]
pub enum FrameHead {
    /// Its lines are not complete yet.
    NeedMore,
    /// Something the framing does not allow.
    Malformed,
    /// `SEND_END`: the stream ended cleanly.
    End,
    /// A file of `size` bytes named `name` follows the first `used` bytes.
    File { name: Vec<u8>, size: u64, used: usize },
}

impl FrameHead {
    pub open spec fn view(&self) -> FrameHeadView {
        match self {
            FrameHead::NeedMore => FrameHeadView::NeedMore,
            FrameHead::Malformed => FrameHeadView::Malformed,
            FrameHead::End => FrameHeadView::End,
            FrameHead::File { name, size, used } => FrameHeadView::File(
                name@,
                *size as nat,
                *used as nat,
            ),
        }
    }
}

pub open spec fn frame_head_spec(s: Seq<u8>) -> FrameHeadView {
    match take_line(s) {
        None => FrameHeadView::NeedMore,
        Some((blank, rest)) => if trim(blank).len() != 0 {
            FrameHeadView::Malformed
        } else {
            match take_line(rest) {
                None => FrameHeadView::NeedMore,
                Some((header, body)) => if trim(header) == "SEND_END".spec_bytes() {
                    FrameHeadView::End
                } else {
                    match parse_header(trim(header)) {
                        None => FrameHeadView::Malformed,
                        Some((name, size)) => FrameHeadView::File(
                            name,
                            size,
                            blank.len() + header.len(),
                        ),
                    }
                },
            }
        },
    }
}

/// Reading a stream by its opening line and then frame by frame gives what
/// `decode_stream` gives for the whole.
pub proof fn lemma_decode_stream_by_opening(s: Seq<u8>)
    requires
        s.len() <= usize::MAX,
    ensures
        decode_stream(s) == match opening_spec(s) {
            StreamOpening::NeedMore => (
                Seq::<(Seq<u8>, Seq<u8>)>::empty(),
                StreamStatus::Incomplete,
            ),
            StreamOpening::Malformed => (
                Seq::<(Seq<u8>, Seq<u8>)>::empty(),
                StreamStatus::Malformed,
            ),
            StreamOpening::Started(u) => decode_frames(s.subrange(u as int, s.len() as int)),
        },
{
    crate::text::lemma_index_of_bounds(s, 10);
    match take_line(s) {
        Some((start, rest)) => {
            assert(s.subrange(start.len() as int, s.len() as int) =~= rest);
        },
        None => {},
    }
}

/// Reading the front of a frame, then its body, then the frames after it,
/// gives what `decode_frames` gives for the whole.
pub proof fn lemma_decode_frames_by_head(s: Seq<u8>)
    ensures
        decode_frames(s) == match frame_head_spec(s) {
            FrameHeadView::NeedMore => (
                Seq::<(Seq<u8>, Seq<u8>)>::empty(),
                StreamStatus::Incomplete,
            ),
            FrameHeadView::Malformed => (
                Seq::<(Seq<u8>, Seq<u8>)>::empty(),
                StreamStatus::Malformed,
            ),
            FrameHeadView::End => (Seq::<(Seq<u8>, Seq<u8>)>::empty(), StreamStatus::Complete),
            FrameHeadView::File(name, size, used) => {
                let body = s.subrange(used as int, s.len() as int);
                if body.len() < size {
                    (Seq::<(Seq<u8>, Seq<u8>)>::empty(), StreamStatus::Incomplete)
                } else {
                    let next = decode_frames(body.subrange(size as int, body.len() as int));
                    (seq![(name, body.subrange(0, size as int))] + next.0, next.1)
                }
            },
        },
{
    crate::text::lemma_index_of_bounds(s, 10);
    match take_line(s) {
        Some((blank, rest)) => {
            crate::text::lemma_index_of_bounds(rest, 10);
            match take_line(rest) {
                Some((header, body)) => {
                    assert(s.subrange((blank.len() + header.len()) as int, s.len() as int)
                        =~= body);
                },
                None => {},
            }
        },
        None => {},
    }
}

/// Reads the opening line of a stream from the bytes received so far.
pub fn read_opening(buf: &[u8]) -> (r: StreamOpening)
    ensures
        r == opening_spec(buf@),
{
    let n = buf.len();
    assert(buf@.subrange(0, n as int) =~= buf@);
    match line_end(buf, 0) {
        None => StreamOpening::NeedMore,
        Some(e) => {
            let t = trimmed(&buf[0..e]);
            if bytes_eq(t.as_slice(), "SEND_START".as_bytes()) {
                StreamOpening::Started(e)
            } else {
                StreamOpening::Malformed
            }
        },
    }
}

/// Reads the front of the next frame from the bytes received since the
/// last one; the caller then takes the file's body from what follows.
pub fn read_frame_head(buf: &[u8]) -> (r: FrameHead)
    ensures
        r.view() == frame_head_spec(buf@),
{
    let n = buf.len();
    assert(buf@.subrange(0, n as int) =~= buf@);
    let blank_end = match line_end(buf, 0) {
        Some(e) => e,
        None => return FrameHead::NeedMore,
    };
    let blank = trimmed(&buf[0..blank_end]);
    if blank.len() != 0 {
        return FrameHead::Malformed;
    }
    let header_end = match line_end(buf, blank_end) {
        Some(e) => e,
        None => return FrameHead::NeedMore,
    };
    let header = trimmed(&buf[blank_end..header_end]);
    if bytes_eq(header.as_slice(), "SEND_END".as_bytes()) {
        return FrameHead::End;
    }
    match split_once(header.as_slice(), 58) {
        Some((name, size_text)) => {
            if !is_safe_name(name.as_slice()) {
                return FrameHead::Malformed;
            }
            match parse_up_to(size_text.as_slice(), 18446744073709551615) {
                Some(size) => FrameHead::File { name, size, used: header_end },
                None => FrameHead::Malformed,
            }
        },
        None => FrameHead::Malformed,
    }
}

/// One step through a file's body: of `available` bytes at hand, take as
/// many as the `left` bytes of the body still need. Returns the bytes taken,
/// the bytes still left, and the count of whole files, which grows by one
/// when the body is complete (a body of no bytes completes at once).
pub fn body_step(left: u64, received: u64, available: usize) -> (r: (usize, u64, u64))
    ensures
        r.0 as nat == (if (left as nat) < (available as nat) {
            left as nat
        } else {
            available as nat
        }),
        r.1 == left - r.0,
        r.2 == (if r.1 == 0 && received < u64::MAX {
            (received + 1) as u64
        } else {
            received
        }),
{
    let take: usize = if left < available as u64 {
        left as usize
    } else {
        available
    };
    let rest = left - take as u64;
    let count = if rest == 0 && received < u64::MAX {
        received + 1
    } else {
        received
    };
    (take, rest, count)
}

/// The files that `buf` carries in full and how far the stream got.
pub fn decode_stream_bytes(buf: &[u8]) -> (r: (Vec<FileData>, StreamStatus))
    ensures
        r.0@.map_values(|f: FileData| f@) == decode_stream(buf@).0,
        r.1 == decode_stream(buf@).1,
{
    let mut files: Vec<FileData> = Vec::new();
    let n = buf.len();
    let first = match line_end(buf, 0) {
        Some(e) => e,
        None => {
            assert(buf@.subrange(0, n as int) =~= buf@);
            assert(files@.map_values(|f: FileData| f@) =~= Seq::<(Seq<u8>, Seq<u8>)>::empty());
            return (files, StreamStatus::Incomplete);
        },
    };
    assert(buf@.subrange(0, n as int) =~= buf@);
    let start_line = trimmed(&buf[0..first]);
    if !bytes_eq(start_line.as_slice(), "SEND_START".as_bytes()) {
        assert(files@.map_values(|f: FileData| f@) =~= Seq::<(Seq<u8>, Seq<u8>)>::empty());
        return (files, StreamStatus::Malformed);
    }
    let ghost whole = buf@.subrange(first as int, n as int);
    assert(decode_stream(buf@) == decode_frames(whole));
    let mut pos: usize = first;
    loop
        invariant
            first <= pos <= n,
            n == buf@.len(),
            whole == buf@.subrange(first as int, n as int),
            decode_stream(buf@) == decode_frames(whole),
            decode_frames(whole) == (
                files@.map_values(|f: FileData| f@) + decode_frames(
                    buf@.subrange(pos as int, n as int),
                ).0,
                decode_frames(buf@.subrange(pos as int, n as int)).1,
            ),
        decreases n - pos,
    {
        let ghost here = buf@.subrange(pos as int, n as int);
        let ghost got = files@.map_values(|f: FileData| f@);
        let blank_end = match line_end(buf, pos) {
            Some(e) => e,
            None => {
                assert(got + Seq::<(Seq<u8>, Seq<u8>)>::empty() =~= got);
                return (files, StreamStatus::Incomplete);
            },
        };
        let blank = trimmed(&buf[pos..blank_end]);
        if blank.len() != 0 {
            assert(got + Seq::<(Seq<u8>, Seq<u8>)>::empty() =~= got);
            return (files, StreamStatus::Malformed);
        }
        let header_end = match line_end(buf, blank_end) {
            Some(e) => e,
            None => {
                assert(got + Seq::<(Seq<u8>, Seq<u8>)>::empty() =~= got);
                return (files, StreamStatus::Incomplete);
            },
        };
        let header = trimmed(&buf[blank_end..header_end]);
        if bytes_eq(header.as_slice(), "SEND_END".as_bytes()) {
            assert(got + Seq::<(Seq<u8>, Seq<u8>)>::empty() =~= got);
            return (files, StreamStatus::Complete);
        }
        let (name, size) = match split_once(header.as_slice(), 58) {
            Some((name, size_text)) => {
                if !is_safe_name(name.as_slice()) {
                    assert(got + Seq::<(Seq<u8>, Seq<u8>)>::empty() =~= got);
                    return (files, StreamStatus::Malformed);
                }
                match parse_up_to(size_text.as_slice(), 18446744073709551615) {
                    Some(size) => (name, size),
                    None => {
                        assert(got + Seq::<(Seq<u8>, Seq<u8>)>::empty() =~= got);
                        return (files, StreamStatus::Malformed);
                    },
                }
            },
            None => {
                assert(got + Seq::<(Seq<u8>, Seq<u8>)>::empty() =~= got);
                return (files, StreamStatus::Malformed);
            },
        };
        if ((n - header_end) as u64) < size {
            assert(got + Seq::<(Seq<u8>, Seq<u8>)>::empty() =~= got);
            return (files, StreamStatus::Incomplete);
        }
        let body_end = header_end + size as usize;
        let data = copy_range(buf, header_end, body_end);
        let ghost body = buf@.subrange(header_end as int, n as int);
        assert(body.subrange(0, size as int) =~= data@);
        assert(body.subrange(size as int, body.len() as int) =~= buf@.subrange(
            body_end as int,
            n as int,
        ));
        files.push(FileData::new(name, data));
        proof {
            let now = files@.map_values(|f: FileData| f@);
            assert(now =~= got.push((name@, data@)));
            let rest = decode_frames(buf@.subrange(body_end as int, n as int));
            assert(decode_frames(here) == (seq![(name@, data@)] + rest.0, rest.1));
            assert(got + (seq![(name@, data@)] + rest.0) =~= now + rest.0);
        }
        pos = body_end;
    }
}

proof fn lemma_send_end_bytes()
    ensures
        "SEND_END".spec_bytes() == seq![83u8, 69u8, 78u8, 68u8, 95u8, 69u8, 78u8, 68u8],
{
    reveal_strlit("SEND_END");
    assert(vstd::utf8::is_ascii_chars("SEND_END"@));
    vstd::utf8::is_ascii_chars_encode_utf8("SEND_END"@);
    assert("SEND_END".spec_bytes() =~= seq![83u8, 69u8, 78u8, 68u8, 95u8, 69u8, 78u8, 68u8]);
}

proof fn lemma_send_start_bytes()
    ensures
        "SEND_START".spec_bytes() == seq![
            83u8,
            69u8,
            78u8,
            68u8,
            95u8,
            83u8,
            84u8,
            65u8,
            82u8,
            84u8,
        ],
{
    reveal_strlit("SEND_START");
    assert(vstd::utf8::is_ascii_chars("SEND_START"@));
    vstd::utf8::is_ascii_chars_encode_utf8("SEND_START"@);
    assert("SEND_START".spec_bytes() =~= seq![
        83u8,
        69u8,
        78u8,
        68u8,
        95u8,
        83u8,
        84u8,
        65u8,
        82u8,
        84u8,
    ]);
}

/// A name that survives the framing unchanged: not empty, not longer than
/// the limit, without `:` or a line feed, not starting with whitespace, and
/// safe to create in the receive directory.
pub open spec fn plain_name(name: Seq<u8>) -> bool {
    &&& 0 < name.len() <= FILE_NAME_LENGTH_LIMIT
    &&& forall|i: int| 0 <= i < name.len() ==> #[trigger] name[i] != 58 && name[i] != 10
    &&& !crate::text::is_ws(name[0])
    &&& safe_name(name)
}

/// Files that a stream can carry unchanged.
pub open spec fn plain_files(fs: Seq<(Seq<u8>, Seq<u8>)>) -> bool {
    forall|i: int| 0 <= i < fs.len() ==> plain_name(#[trigger] fs[i].0) && fs[i].1.len() <= u64::MAX
}

proof fn lemma_frames_front(fs: Seq<(Seq<u8>, Seq<u8>)>)
    requires
        fs.len() > 0,
    ensures
        frames_text(fs) == frame_text(fs[0]) + frames_text(fs.drop_first()),
    decreases fs.len(),
{
    if fs.len() == 1 {
        assert(fs.drop_last() =~= Seq::<(Seq<u8>, Seq<u8>)>::empty());
        assert(fs.drop_first() =~= Seq::<(Seq<u8>, Seq<u8>)>::empty());
        assert(frames_text(fs) =~= frame_text(fs[0]) + frames_text(fs.drop_first()));
    } else {
        lemma_frames_front(fs.drop_last());
        assert(fs.drop_last().drop_first() =~= fs.drop_first().drop_last());
        assert(fs.drop_first().last() == fs.last());
        assert(fs.drop_last()[0] == fs[0]);
        assert(frames_text(fs) =~= frame_text(fs[0]) + frames_text(fs.drop_first()));
    }
}

/// A line whose only line feed ends it is what `take_line` takes first.
proof fn lemma_take_line(line: Seq<u8>, rest: Seq<u8>)
    requires
        line.len() > 0,
        line.last() == 10,
        forall|i: int| 0 <= i < line.len() - 1 ==> line[i] != 10,
    ensures
        take_line(line + rest) == Some((line, rest)),
{
    let body = line.drop_last();
    assert(body + seq![10u8] =~= line);
    crate::text::lemma_index_of_after(body, seq![10u8], 10);
    assert(index_of(seq![10u8], 10) == Some(0int));
    crate::text::lemma_index_of_before(line, rest, 10);
    assert((line + rest).subrange(0, line.len() as int) =~= line);
    assert((line + rest).subrange(line.len() as int, (line + rest).len() as int) =~= rest);
}

/// What a plain name's header line is made of.
proof fn lemma_header(name: Seq<u8>, size: nat)
    requires
        plain_name(name),
        size <= u64::MAX,
    ensures
        header_text(name, size) == name + seq![58u8] + dec_text(size) + crlf(),
        forall|i: int|
            0 <= i < header_text(name, size).len() - 1 ==> header_text(name, size)[i] != 10,
        header_text(name, size).last() == 10,
        trim(header_text(name, size)) == name + seq![58u8] + dec_text(size),
        trim(header_text(name, size)) != "SEND_END".spec_bytes(),
        parse_header(trim(header_text(name, size))) == Some((name, size)),
{
    let d = dec_text(size);
    crate::text::lemma_dec_text(size);
    let t = name + seq![58u8] + d;
    let h = t + crlf();
    assert(header_text(name, size) =~= h);
    assert forall|i: int| 0 <= i < h.len() - 1 implies h[i] != 10 by {
        if i < name.len() {
            assert(h[i] == name[i]);
        } else if i == name.len() {
        } else if i < t.len() {
            assert(h[i] == d[i - name.len() - 1]);
            assert(crate::text::is_digit(d[i - name.len() - 1]));
        }
    }
    assert(t[0] == name[0]);
    assert(t.last() == d.last());
    crate::text::lemma_trim_line(t);
    lemma_send_end_bytes();
    assert(t[name.len() as int] == 58);
    if t == "SEND_END".spec_bytes() {
        assert(t.len() == 8);
        assert(false);
    }
    assert forall|i: int| 0 <= i < name.len() implies name[i] != 58 by {}
    crate::text::lemma_index_of_after(name, seq![58u8] + d, 58);
    assert(name + (seq![58u8] + d) =~= t);
    assert(index_of(seq![58u8] + d, 58) == Some(0int));
    assert(t.subrange(0, name.len() as int) =~= name);
    assert(t.subrange(name.len() as int + 1, t.len() as int) =~= d);
    crate::text::lemma_parse_dec_text(size, u64::MAX as nat);
}

/// The frames of plain files, then `SEND_END`, read back as those files
/// and a clean end.
proof fn lemma_decode_frames(fs: Seq<(Seq<u8>, Seq<u8>)>)
    requires
        plain_files(fs),
    ensures
        decode_frames(crlf() + frames_text(fs) + stream_tail()) == (fs, StreamStatus::Complete),
    decreases fs.len(),
{
    let x = frames_text(fs) + stream_tail();
    assert(crlf() + frames_text(fs) + stream_tail() =~= crlf() + x);
    lemma_take_line(crlf(), x);
    crate::text::lemma_trim_crlf();
    lemma_send_end_bytes();
    if fs.len() == 0 {
        assert(x =~= stream_tail() + Seq::<u8>::empty());
        lemma_take_line(stream_tail(), Seq::<u8>::empty());
        crate::text::lemma_trim_line("SEND_END".spec_bytes());
        assert(decode_frames(crlf() + x) == (fs, StreamStatus::Complete));
    } else {
        let f = fs[0];
        let rest = fs.drop_first();
        assert(plain_files(rest)) by {
            assert forall|i: int| 0 <= i < rest.len() implies plain_name(#[trigger] rest[i].0)
                && rest[i].1.len() <= u64::MAX by {
                assert(rest[i] == fs[i + 1]);
            }
        }
        assert(plain_name(fs[0].0) && fs[0].1.len() <= u64::MAX);
        lemma_frames_front(fs);
        lemma_header(f.0, f.1.len());
        let h = header_text(f.0, f.1.len());
        let tail = crlf() + frames_text(rest) + stream_tail();
        assert(x =~= h + (f.1 + tail));
        lemma_take_line(h, f.1 + tail);
        assert(sent_name(f.0) == f.0);
        let body = f.1 + tail;
        assert(body.subrange(0, f.1.len() as int) =~= f.1);
        assert(body.subrange(f.1.len() as int, body.len() as int) =~= tail);
        lemma_decode_frames(rest);
        assert(seq![(f.0, f.1)] + rest =~= fs);
    }
}

/// The frames of plain files, cut inside the body of the file after them,
/// read back as those files and an unfinished stream.
proof fn lemma_decode_frames_cut(
    pre: Seq<(Seq<u8>, Seq<u8>)>,
    f: (Seq<u8>, Seq<u8>),
    cut: nat,
)
    requires
        plain_files(pre),
        plain_name(f.0),
        f.1.len() <= u64::MAX,
        cut < f.1.len(),
    ensures
        decode_frames(
            crlf() + frames_text(pre) + header_text(f.0, f.1.len()) + f.1.subrange(0, cut as int),
        ) == (pre, StreamStatus::Incomplete),
    decreases pre.len(),
{
    let part = header_text(f.0, f.1.len()) + f.1.subrange(0, cut as int);
    let x = frames_text(pre) + part;
    assert(crlf() + frames_text(pre) + header_text(f.0, f.1.len()) + f.1.subrange(0, cut as int)
        =~= crlf() + x);
    lemma_take_line(crlf(), x);
    crate::text::lemma_trim_crlf();
    if pre.len() == 0 {
        assert(x =~= part);
        lemma_header(f.0, f.1.len());
        lemma_take_line(header_text(f.0, f.1.len()), f.1.subrange(0, cut as int));
        assert(decode_frames(crlf() + x) == (pre, StreamStatus::Incomplete));
    } else {
        let g = pre[0];
        let rest = pre.drop_first();
        assert(plain_files(rest)) by {
            assert forall|i: int| 0 <= i < rest.len() implies plain_name(#[trigger] rest[i].0)
                && rest[i].1.len() <= u64::MAX by {
                assert(rest[i] == pre[i + 1]);
            }
        }
        assert(plain_name(pre[0].0) && pre[0].1.len() <= u64::MAX);
        lemma_frames_front(pre);
        lemma_header(g.0, g.1.len());
        let h = header_text(g.0, g.1.len());
        let tail = crlf() + frames_text(rest) + part;
        assert(x =~= h + (g.1 + tail));
        lemma_take_line(h, g.1 + tail);
        assert(sent_name(g.0) == g.0);
        let body = g.1 + tail;
        assert(body.subrange(0, g.1.len() as int) =~= g.1);
        assert(body.subrange(g.1.len() as int, body.len() as int) =~= tail);
        lemma_decode_frames_cut(rest, f, cut);
        assert(tail =~= crlf() + frames_text(rest) + header_text(f.0, f.1.len()) + f.1.subrange(
            0,
            cut as int,
        ));
        assert(seq![(g.0, g.1)] + rest =~= pre);
    }
}

proof fn lemma_start_line()
    ensures
        trim("SEND_START".spec_bytes() + crlf()) == "SEND_START".spec_bytes(),
        forall|i: int|
            0 <= i < ("SEND_START".spec_bytes() + crlf()).len() - 1 ==> (
            "SEND_START".spec_bytes() + crlf())[i] != 10,
{
    lemma_send_start_bytes();
    crate::text::lemma_trim_line("SEND_START".spec_bytes());
}

/// A stream of plain files reads back as exactly those files, ended
/// cleanly; the receiver then reports their count, and a sender that sent
/// that many reads the report as full success.
pub proof fn lemma_stream_round_trip(fs: Seq<(Seq<u8>, Seq<u8>)>)
    requires
        plain_files(fs),
    ensures
        decode_stream(stream_text(fs)) == (fs, StreamStatus::Complete),
        0 < fs.len() <= u64::MAX ==> receiver_reply_spec(StreamStatus::Complete, fs.len() as u64)
            == RemoteResponse::FilesReceived(fs.len() as u64),
        0 < fs.len() <= u64::MAX ==> final_reply_spec(
            remote_text(RemoteResponse::FilesReceived(fs.len() as u64)),
            fs.len(),
        ) == (LocalResponse::AllFilesSucceeded, false),
{
    if 0 < fs.len() <= u64::MAX {
        crate::protocol::lemma_remote_number_round_trip(
            RemoteResponse::FilesReceived(fs.len() as u64),
        );
    }
    let first = "SEND_START".spec_bytes() + crlf();
    let rest = crlf() + frames_text(fs) + stream_tail();
    assert(stream_text(fs) =~= first + rest);
    lemma_start_line();
    lemma_send_start_bytes();
    lemma_take_line(first, rest);
    lemma_decode_frames(fs);
}

/// A stream of plain files that breaks off inside the body of the file
/// after `pre` reads back as the files of `pre`, unfinished; the receiver
/// then reports how many of them came, where any did.
pub proof fn lemma_stream_cut(pre: Seq<(Seq<u8>, Seq<u8>)>, f: (Seq<u8>, Seq<u8>), cut: nat)
    requires
        plain_files(pre),
        plain_name(f.0),
        f.1.len() <= u64::MAX,
        cut < f.1.len(),
    ensures
        decode_stream(
            stream_head() + frames_text(pre) + header_text(f.0, f.1.len()) + f.1.subrange(
                0,
                cut as int,
            ),
        ) == (pre, StreamStatus::Incomplete),
        0 < pre.len() <= u64::MAX ==> receiver_reply_spec(StreamStatus::Incomplete, pre.len() as u64)
            == RemoteResponse::UnexpectedEndFlag(pre.len() as u64),
{
    let first = "SEND_START".spec_bytes() + crlf();
    let rest = crlf() + frames_text(pre) + header_text(f.0, f.1.len()) + f.1.subrange(
        0,
        cut as int,
    );
    assert(stream_head() + frames_text(pre) + header_text(f.0, f.1.len()) + f.1.subrange(
        0,
        cut as int,
    ) =~= first + rest);
    lemma_start_line();
    lemma_send_start_bytes();
    lemma_take_line(first, rest);
    lemma_decode_frames_cut(pre, f, cut);
}

} // verus!
