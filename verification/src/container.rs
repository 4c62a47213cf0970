//! The container codec: a 48-byte header (format tag, salt, root nonce,
//! declared chunk size) followed by the frames, each behind its length as
//! eight little-endian bytes, up to the end of the container.

use vstd::prelude::*;
use vstd::bytes::spec_u32_from_le_bytes;
use vstd::bytes::spec_u32_to_le_bytes;
use vstd::bytes::spec_u64_from_le_bytes;
use vstd::bytes::spec_u64_to_le_bytes;
use vstd::bytes::u32_from_le_bytes;
use vstd::bytes::u32_to_le_bytes;
use vstd::bytes::u64_from_le_bytes;
use vstd::bytes::u64_to_le_bytes;
use vstd::slice::slice_subrange;
use crate::buffer::append_bytes;
use crate::buffer::copy_bytes;
use crate::error::StoreError;
use crate::stream::frame_views;

verus! {

/// Length of the header in bytes.
pub const HEADER_LEN: usize = 48;

/// The format tag: the ASCII letters `JSM1`.
pub open spec fn magic_tag() -> Seq<u8> {
    seq![0x4au8, 0x53u8, 0x4du8, 0x31u8]
}

/// The fields of a container's header.
#[derive(Clone, Debug)]
pub struct Header {
    /// Sixteen bytes; meaningful only where the key came from a passphrase.
    pub salt: Vec<u8>,
    /// Twenty-four bytes from which each chunk's nonce derives.
    pub root_nonce: Vec<u8>,
    /// The chunk size that the writer declares; readers do not rely on it.
    pub chunk_size: u32,
}

/// A header as plain values.
pub struct HeaderView {
    pub salt: Seq<u8>,
    pub root_nonce: Seq<u8>,
    pub chunk_size: u32,
}

impl View for Header {
    type V = HeaderView;

    open spec fn view(&self) -> HeaderView {
        HeaderView { salt: self.salt@, root_nonce: self.root_nonce@, chunk_size: self.chunk_size }
    }
}

impl HeaderView {
    /// The salt has 16 bytes and the root nonce 24.
    pub open spec fn wf(self) -> bool {
        self.salt.len() == 16 && self.root_nonce.len() == 24
    }
}

impl Header {
    /// The salt has 16 bytes and the root nonce 24.
    pub open spec fn wf(&self) -> bool {
        self@.wf()
    }
}

/// The 48 bytes of a header.
pub open spec fn header_bytes(header: HeaderView) -> Seq<u8> {
    magic_tag() + header.salt + header.root_nonce + spec_u32_to_le_bytes(header.chunk_size)
}

/// One frame on disk: its length as eight little-endian bytes, then its bytes.
pub open spec fn frame_bytes(frame: Seq<u8>) -> Seq<u8> {
    spec_u64_to_le_bytes(frame.len() as u64) + frame
}

/// The frames on disk, one after another.
pub open spec fn frames_bytes(frames: Seq<Seq<u8>>) -> Seq<u8>
    decreases frames.len(),
{
    if frames.len() == 0 {
        Seq::<u8>::empty()
    } else {
        frame_bytes(frames.first()) + frames_bytes(frames.drop_first())
    }
}

/// A whole container: the header, then the frames.
pub open spec fn container_bytes(header: HeaderView, frames: Seq<Seq<u8>>) -> Seq<u8> {
    header_bytes(header) + frames_bytes(frames)
}

/// What the first 48 bytes of a container say: `MalformedContainer` where
/// there are fewer than four bytes, `BadMagic` where the first four are not
/// the format tag, `MalformedContainer` where the header is cut short, the
/// header's fields otherwise.
pub open spec fn parsed_header(bytes: Seq<u8>) -> Result<HeaderView, StoreError> {
    if bytes.len() < 4 {
        Err(StoreError::MalformedContainer)
    } else if bytes.subrange(0, 4) != magic_tag() {
        Err(StoreError::BadMagic)
    } else if bytes.len() < 48 {
        Err(StoreError::MalformedContainer)
    } else {
        Ok(
            HeaderView {
                salt: bytes.subrange(4, 20),
                root_nonce: bytes.subrange(20, 44),
                chunk_size: spec_u32_from_le_bytes(bytes.subrange(44, 48)),
            },
        )
    }
}

/// The frames that the bytes after a header hold, or nothing where a length
/// prefix is cut short or claims more bytes than remain.
pub open spec fn parsed_frames(bytes: Seq<u8>) -> Option<Seq<Seq<u8>>>
    decreases bytes.len(),
{
    if bytes.len() == 0 {
        Some(Seq::<Seq<u8>>::empty())
    } else if bytes.len() < 8 {
        None
    } else {
        let claimed = spec_u64_from_le_bytes(bytes.subrange(0, 8)) as int;
        if claimed > bytes.len() - 8 {
            None
        } else {
            match parsed_frames(bytes.subrange(8 + claimed, bytes.len() as int)) {
                None => None,
                Some(rest) => Some(seq![bytes.subrange(8, 8 + claimed)] + rest),
            }
        }
    }
}

/// The bytes of a container after its header.
pub open spec fn body_of(bytes: Seq<u8>) -> Seq<u8> {
    bytes.subrange(48, bytes.len() as int)
}

/// Writing one more frame appends its bytes.
pub proof fn lemma_frames_bytes_push(frames: Seq<Seq<u8>>, frame: Seq<u8>)
    ensures
        frames_bytes(frames.push(frame)) == frames_bytes(frames) + frame_bytes(frame),
    decreases frames.len(),
{
    let longer = frames.push(frame);
    if frames.len() == 0 {
        assert(longer.drop_first() =~= Seq::<Seq<u8>>::empty());
        assert(frames_bytes(longer.drop_first()) =~= Seq::<u8>::empty());
        assert(frames_bytes(longer) =~= frame_bytes(frame));
        assert(frames_bytes(frames) + frame_bytes(frame) =~= frame_bytes(frame));
    } else {
        assert(longer.first() == frames.first());
        assert(longer.drop_first() =~= frames.drop_first().push(frame));
        lemma_frames_bytes_push(frames.drop_first(), frame);
        assert(frames_bytes(longer) =~= frames_bytes(frames) + frame_bytes(frame));
    }
}

/// Parsing the bytes of some frames gives those frames back.
pub proof fn lemma_frames_parse_back(frames: Seq<Seq<u8>>)
    requires
        forall|i: int| 0 <= i < frames.len() ==> (#[trigger] frames[i]).len() <= u64::MAX,
    ensures
        parsed_frames(frames_bytes(frames)) == Some(frames),
    decreases frames.len(),
{
    if frames.len() == 0 {
        assert(frames =~= Seq::<Seq<u8>>::empty());
    } else {
        let first = frames.first();
        let rest = frames.drop_first();
        let bytes = frames_bytes(frames);
        vstd::bytes::lemma_auto_spec_u64_to_from_le_bytes();
        assert(first == frames[0]);
        assert(forall|i: int| 0 <= i < rest.len() ==> rest[i] == frames[i + 1]);
        lemma_frames_parse_back(rest);
        let prefix = spec_u64_to_le_bytes(first.len() as u64);
        assert(prefix.len() == 8);
        assert(bytes == prefix + first + frames_bytes(rest));
        assert(bytes.subrange(0, 8) =~= prefix);
        assert(spec_u64_from_le_bytes(prefix) == first.len() as u64);
        assert(bytes.subrange(8, 8 + first.len() as int) =~= first);
        assert(bytes.subrange(8 + first.len() as int, bytes.len() as int) =~= frames_bytes(rest));
        assert(seq![first] + rest =~= frames);
    }
}

/// Parsing a container that was put together from a header and frames gives
/// that header and those frames back.
pub proof fn lemma_container_parses_back(header: HeaderView, frames: Seq<Seq<u8>>)
    requires
        header.wf(),
        forall|i: int| 0 <= i < frames.len() ==> (#[trigger] frames[i]).len() <= u64::MAX,
    ensures
        parsed_header(container_bytes(header, frames)) == Ok::<HeaderView, StoreError>(header),
        parsed_frames(body_of(container_bytes(header, frames))) == Some(frames),
{
    let bytes = container_bytes(header, frames);
    vstd::bytes::lemma_auto_spec_u32_to_from_le_bytes();
    let size = spec_u32_to_le_bytes(header.chunk_size);
    assert(size.len() == 4);
    assert(header_bytes(header).len() == 48);
    assert(bytes.subrange(0, 4) =~= magic_tag());
    assert(bytes.subrange(4, 20) =~= header.salt);
    assert(bytes.subrange(20, 44) =~= header.root_nonce);
    assert(bytes.subrange(44, 48) =~= size);
    assert(body_of(bytes) =~= frames_bytes(frames));
    lemma_frames_parse_back(frames);
}

/// Frames that were parsed out of some bytes are written as exactly those
/// bytes: nothing stands between the frames or behind the last.
pub proof fn lemma_frames_encode_back(bytes: Seq<u8>)
    requires
        parsed_frames(bytes) is Some,
    ensures
        frames_bytes(parsed_frames(bytes)->Some_0) == bytes,
    decreases bytes.len(),
{
    if bytes.len() == 0 {
        assert(frames_bytes(Seq::<Seq<u8>>::empty()) =~= bytes);
    } else {
        vstd::bytes::lemma_auto_spec_u64_to_from_le_bytes();
        let prefix = bytes.subrange(0, 8);
        let claimed = spec_u64_from_le_bytes(prefix) as int;
        let first = bytes.subrange(8, 8 + claimed);
        let tail = bytes.subrange(8 + claimed, bytes.len() as int);
        lemma_frames_encode_back(tail);
        let rest = parsed_frames(tail)->Some_0;
        let frames = seq![first] + rest;
        assert(frames.first() == first);
        assert(frames.drop_first() =~= rest);
        assert(spec_u64_to_le_bytes(spec_u64_from_le_bytes(prefix)) == prefix);
        assert(first.len() as u64 == spec_u64_from_le_bytes(prefix));
        assert(frames_bytes(frames) =~= prefix + first + tail);
        assert(prefix + first + tail =~= bytes);
    }
}

/// A container that parses is exactly the bytes of its header and frames:
/// the layout leaves no room for anything else.
pub proof fn lemma_container_encodes_back(bytes: Seq<u8>)
    requires
        parsed_header(bytes) is Ok,
        parsed_frames(body_of(bytes)) is Some,
    ensures
        container_bytes(parsed_header(bytes)->Ok_0, parsed_frames(body_of(bytes))->Some_0)
            == bytes,
{
    vstd::bytes::lemma_auto_spec_u32_to_from_le_bytes();
    let header = parsed_header(bytes)->Ok_0;
    let size = bytes.subrange(44, 48);
    assert(spec_u32_to_le_bytes(spec_u32_from_le_bytes(size)) == size);
    assert(header_bytes(header) =~= bytes.subrange(0, 48));
    lemma_frames_encode_back(body_of(bytes));
    assert(bytes.subrange(0, 48) + body_of(bytes) =~= bytes);
}

/// A container whose first four bytes are not the format tag has no header:
/// it is refused with `BadMagic`, whatever follows.
pub proof fn lemma_wrong_tag_is_bad_magic(bytes: Seq<u8>)
    requires
        bytes.len() >= 4,
        bytes.subrange(0, 4) != magic_tag(),
    ensures
        parsed_header(bytes) == Err::<HeaderView, StoreError>(StoreError::BadMagic),
{
}

/// Writes a header and frames as one container.
pub fn encode_container(header: &Header, frames: &Vec<Vec<u8>>) -> (bytes: Vec<u8>)
    requires
        header.wf(),
    ensures
        bytes@ == container_bytes(header@, frame_views(frames@)),
{
    let mut bytes: Vec<u8> = Vec::new();
    bytes.push(0x4a);
    bytes.push(0x53);
    bytes.push(0x4d);
    bytes.push(0x31);
    assert(bytes@ =~= magic_tag());
    append_bytes(&mut bytes, header.salt.as_slice());
    append_bytes(&mut bytes, header.root_nonce.as_slice());
    let size = u32_to_le_bytes(header.chunk_size);
    append_bytes(&mut bytes, size.as_slice());
    let ghost views = frame_views(frames@);
    let mut index: usize = 0;
    assert(views.take(0) =~= Seq::<Seq<u8>>::empty());
    assert(bytes@ =~= header_bytes(header@) + frames_bytes(views.take(0)));
    while index < frames.len()
        invariant
            index <= frames@.len(),
            views == frame_views(frames@),
            bytes@ == header_bytes(header@) + frames_bytes(views.take(index as int)),
        decreases frames@.len() - index,
    {
        let frame = &frames[index];
        let length = u64_to_le_bytes(frame.len() as u64);
        proof {
            lemma_frames_bytes_push(views.take(index as int), frame@);
            assert(views.take(index as int).push(frame@) =~= views.take(index + 1));
        }
        append_bytes(&mut bytes, length.as_slice());
        append_bytes(&mut bytes, frame.as_slice());
        assert(bytes@ =~= header_bytes(header@) + frames_bytes(views.take(index + 1)));
        index += 1;
    }
    assert(views.take(index as int) =~= views);
    bytes
}

/// Reads the header off the start of a container.
pub fn parse_header(bytes: &[u8]) -> (r: Result<Header, StoreError>)
    ensures
        match parsed_header(bytes@) {
            Ok(header) => r matches Ok(h) && h@ == header && h.wf(),
            Err(e) => r matches Err(x) && x == e,
        },
{
    if bytes.len() < 4 {
        return Err(StoreError::MalformedContainer);
    }
    if bytes[0] != 0x4a || bytes[1] != 0x53 || bytes[2] != 0x4d || bytes[3] != 0x31 {
        assert(bytes@.subrange(0, 4) != magic_tag()) by {
            if bytes@.subrange(0, 4) == magic_tag() {
                assert(bytes@.subrange(0, 4)[0] == magic_tag()[0]);
                assert(bytes@.subrange(0, 4)[1] == magic_tag()[1]);
                assert(bytes@.subrange(0, 4)[2] == magic_tag()[2]);
                assert(bytes@.subrange(0, 4)[3] == magic_tag()[3]);
            }
        }
        return Err(StoreError::BadMagic);
    }
    assert(bytes@.subrange(0, 4) =~= magic_tag());
    if bytes.len() < HEADER_LEN {
        return Err(StoreError::MalformedContainer);
    }
    let salt = copy_bytes(slice_subrange(bytes, 4, 20));
    let root_nonce = copy_bytes(slice_subrange(bytes, 20, 44));
    let chunk_size = u32_from_le_bytes(slice_subrange(bytes, 44, 48));
    Ok(Header { salt, root_nonce, chunk_size })
}

/// Reads the frames that follow a header, up to the end of the bytes.
pub fn parse_frames(bytes: &[u8]) -> (r: Result<Vec<Vec<u8>>, StoreError>)
    ensures
        match parsed_frames(bytes@) {
            Some(frames) => r matches Ok(f) && frame_views(f@) == frames,
            None => r matches Err(e) && e == StoreError::MalformedContainer,
        },
{
    let mut frames: Vec<Vec<u8>> = Vec::new();
    let mut position: usize = 0;
    assert(bytes@.subrange(0, bytes@.len() as int) =~= bytes@);
    assert(frame_views(frames@) =~= Seq::<Seq<u8>>::empty());
    assert(forall|rest: Seq<Seq<u8>>| Seq::<Seq<u8>>::empty() + rest =~= rest);
    while position < bytes.len()
        invariant
            position <= bytes@.len(),
            parsed_frames(bytes@) == match parsed_frames(
                bytes@.subrange(position as int, bytes@.len() as int),
            ) {
                None => None,
                Some(rest) => Some(frame_views(frames@) + rest),
            },
        decreases bytes@.len() - position,
    {
        let ghost tail = bytes@.subrange(position as int, bytes@.len() as int);
        let remaining: usize = bytes.len() - position;
        if remaining < 8 {
            return Err(StoreError::MalformedContainer);
        }
        let claimed: u64 = u64_from_le_bytes(slice_subrange(bytes, position, position + 8));
        assert(tail.subrange(0, 8) =~= bytes@.subrange(position as int, position + 8));
        if claimed > (remaining - 8) as u64 {
            return Err(StoreError::MalformedContainer);
        }
        let length: usize = claimed as usize;
        let start: usize = position + 8;
        let frame = copy_bytes(slice_subrange(bytes, start, start + length));
        proof {
            let ghost next = bytes@.subrange(start + length, bytes@.len() as int);
            assert(tail.subrange(8, 8 + length) =~= frame@);
            assert(tail.subrange(8 + length, tail.len() as int) =~= next);
            assert(frame_views(frames@.push(frame)) =~= frame_views(frames@).push(frame@));
            assert(forall|rest: Seq<Seq<u8>>|
                frame_views(frames@).push(frame@) + rest =~= frame_views(frames@) + (seq![
                    frame@,
                ] + rest));
        }
        frames.push(frame);
        position = start + length;
    }
    assert(bytes@.subrange(position as int, bytes@.len() as int) =~= Seq::<u8>::empty());
    assert(frame_views(frames@) + Seq::<Seq<u8>>::empty() =~= frame_views(frames@));
    Ok(frames)
}

} // verus!
