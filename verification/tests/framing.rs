use see_k::error::TransportError;
use see_k::text::decimal_text;
use see_k::wire::{
    header, header_value, FrameReader, ReadReply, ReadRequest, HEADER_BYTES, MAX_MANIFEST_BYTES,
    MAX_MESSAGE_BYTES,
};

/// A stream that delivers its bytes in the pieces they were written in.
struct Pieces {
    pieces: Vec<Vec<u8>>,
    largest_request: usize,
}

impl Pieces {
    fn new(pieces: &[&[u8]]) -> Pieces {
        Pieces { pieces: pieces.iter().map(|piece| piece.to_vec()).collect(), largest_request: 0 }
    }

    fn some(&mut self, max: usize) -> Option<Vec<u8>> {
        while !self.pieces.is_empty() && self.pieces[0].is_empty() {
            self.pieces.remove(0);
        }
        if self.pieces.is_empty() {
            return None;
        }
        let n = self.pieces[0].len().min(max);
        Some(self.pieces[0].drain(..n).collect())
    }

    fn exact(&mut self, len: usize) -> Option<Vec<u8>> {
        let mut bytes = Vec::new();
        while bytes.len() < len {
            bytes.extend(self.some(len - bytes.len())?);
        }
        Some(bytes)
    }

    fn read_frame(&mut self, limit: usize) -> Result<Option<Vec<u8>>, TransportError> {
        let mut reader = FrameReader::new(limit);
        loop {
            let reply = match reader.request().unwrap() {
                ReadRequest::UpTo { max } => match self.some(max) {
                    Some(bytes) => ReadReply::Bytes(bytes),
                    None => ReadReply::Finished,
                },
                ReadRequest::Exact { len } => {
                    self.largest_request = self.largest_request.max(len);
                    match self.exact(len) {
                        Some(bytes) => ReadReply::Bytes(bytes),
                        None => ReadReply::Failed("ended".to_string()),
                    }
                }
            };
            if let Some(outcome) = reader.feed(reply) {
                assert_eq!(reader.request(), None);
                return outcome;
            }
        }
    }
}

#[test]
fn bounded_framing_handles_fragmentation_coalescing_and_invalid_lengths() {
    let max = u32::MAX.to_be_bytes();
    let mut stream = Pieces::new(&[&[0, 0], &[0, 3, 10], &[11, 12, 0, 0, 0, 1, 13], &max]);
    assert_eq!(stream.read_frame(MAX_MESSAGE_BYTES).unwrap(), Some(vec![10, 11, 12]));
    assert_eq!(stream.read_frame(MAX_MESSAGE_BYTES).unwrap(), Some(vec![13]));
    let error = stream.read_frame(MAX_MESSAGE_BYTES).unwrap_err();
    assert!(error.message().contains("exceeds limit"));
}

#[test]
fn limits_are_the_documented_ones() {
    assert_eq!(MAX_MESSAGE_BYTES, 67_108_864);
    assert_eq!(MAX_MANIFEST_BYTES, 65_536);
    assert_eq!(HEADER_BYTES, 4);
}

#[test]
fn headers_are_big_endian_and_cut_to_four_bytes() {
    assert_eq!(header(0), [0, 0, 0, 0]);
    assert_eq!(header(0x01020304), [1, 2, 3, 4]);
    assert_eq!(header(u32::MAX as usize), [255, 255, 255, 255]);
    assert_eq!(header(0x1_0000_0005), [0, 0, 0, 5]);
    assert_eq!(header_value(&[1, 2, 3, 4]), 0x01020304);
    assert_eq!(header_value(&[255, 255, 255, 255]), u32::MAX);
    for value in [0usize, 1, 255, 256, 65_535, 65_536, 16_777_216, 67_108_864] {
        assert_eq!(header_value(&header(value)), value as u32);
    }
}

#[test]
fn every_first_piece_gives_the_same_frames() {
    let bodies: Vec<Vec<u8>> = vec![vec![], vec![7], vec![1, 2, 3, 4, 5], vec![0; 300]];
    let mut bytes = Vec::new();
    for body in &bodies {
        bytes.extend_from_slice(&header(body.len()));
        bytes.extend_from_slice(body);
    }
    for size in 1..12 {
        let pieces: Vec<&[u8]> = bytes.chunks(size).collect();
        let mut stream = Pieces::new(&pieces);
        for body in &bodies {
            assert_eq!(stream.read_frame(300).unwrap().as_ref(), Some(body));
        }
        assert_eq!(stream.read_frame(300).unwrap(), None);
    }
}

#[test]
fn a_finished_stream_has_no_frame() {
    assert_eq!(Pieces::new(&[]).read_frame(10).unwrap(), None);
}

#[test]
fn a_length_at_the_limit_is_read_and_one_over_it_is_not() {
    let mut stream = Pieces::new(&[&[0, 0, 0, 3, 1, 2, 3]]);
    assert_eq!(stream.read_frame(3).unwrap(), Some(vec![1, 2, 3]));
    let mut stream = Pieces::new(&[&[0, 0, 0, 4, 1, 2, 3, 4]]);
    let error = stream.read_frame(3).unwrap_err();
    assert!(matches!(error, TransportError::FrameTooLong { len: 4, limit: 3 }));
    assert_eq!(error.message(), "seek frame length 4 exceeds limit 3");
    assert!(stream.largest_request <= 4);
    assert_eq!(stream.exact(4), Some(vec![1, 2, 3, 4]));
}

#[test]
fn truncated_frames_are_errors() {
    let error = Pieces::new(&[&[0, 0], &[1]]).read_frame(10).unwrap_err();
    assert_eq!(error.message(), "seek truncated header: ended");
    let error = Pieces::new(&[&[0, 0, 0, 5], &[1, 2]]).read_frame(10).unwrap_err();
    assert_eq!(error.message(), "seek truncated frame: ended");
}

#[test]
fn a_failed_first_read_is_an_error() {
    let mut reader = FrameReader::new(10);
    assert_eq!(reader.request(), Some(ReadRequest::UpTo { max: 4 }));
    let error = reader.feed(ReadReply::Failed("reset".to_string())).unwrap().unwrap_err();
    assert_eq!(error.message(), "seek read: reset");
    assert_eq!(reader.request(), None);
}

#[test]
fn a_first_read_of_nothing_leaves_the_whole_header() {
    let mut reader = FrameReader::new(10);
    assert!(reader.feed(ReadReply::Bytes(vec![])).is_none());
    assert_eq!(reader.request(), Some(ReadRequest::Exact { len: 4 }));
    assert!(reader.feed(ReadReply::Bytes(vec![0, 0, 0, 2])).is_none());
    assert_eq!(reader.request(), Some(ReadRequest::Exact { len: 2 }));
    assert_eq!(reader.feed(ReadReply::Bytes(vec![8, 9])).unwrap().unwrap(), Some(vec![8, 9]));
}

#[test]
fn decimals_have_no_leading_zeros() {
    for n in [0usize, 7, 9, 10, 11, 99, 100, 1_000, 65_536, 67_108_864, u32::MAX as usize] {
        assert_eq!(decimal_text(n), n.to_string());
    }
}

#[test]
fn errors_are_reported_in_words() {
    let e = || "why".to_string();
    let texts = [
        (TransportError::Encode(e()), "seek encode: why"),
        (TransportError::MessageTooLarge, "seek message exceeds 64 MiB"),
        (TransportError::InvalidFrame(e()), "seek invalid frame: why"),
        (TransportError::Read(e()), "seek read: why"),
        (TransportError::TruncatedHeader(e()), "seek truncated header: why"),
        (TransportError::TruncatedFrame(e()), "seek truncated frame: why"),
        (TransportError::SendStopped(e()), "seek send stream stopped: why"),
        (TransportError::Write(e()), "seek write: why"),
        (TransportError::ManifestTooLarge, "seek type manifest too large"),
        (TransportError::ProtocolHeader(e()), "seek protocol header: why"),
        (TransportError::TypeManifest(e()), "seek type manifest: why"),
        (TransportError::ProtocolMismatch, "seek wire protocol mismatch; update both peers"),
        (TransportError::MissingManifest, "seek missing type manifest"),
        (TransportError::ManifestMismatch, "seek ordered type identities differ between peers"),
        (TransportError::Connection(e()), "why"),
        (TransportError::LaneHeader(e()), "seek lane header: why"),
        (TransportError::LaneMismatch, "seek lane identifier mismatch"),
        (TransportError::Readiness(e()), "seek readiness: why"),
        (TransportError::InvalidReadiness, "seek invalid readiness acknowledgement"),
        (TransportError::TlsHandshake(e()), "seek TLS handshake: why"),
        (TransportError::SetupTimedOut, "seek setup timed out"),
    ];
    for (error, text) in texts {
        assert_eq!(error.message(), text);
    }
}
