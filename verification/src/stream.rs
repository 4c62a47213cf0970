//! The chunk cipher engine: a byte stream is sealed in chunks of a fixed
//! size, chunk `i` under the nonce derived from the root nonce and `i`, and
//! opened again frame by frame in the same order.

use vstd::prelude::*;
use vstd::slice::slice_subrange;
use crate::error::StoreError;
use crate::nonce::chunk_nonce;
use crate::nonce::chunk_nonce_of;
use crate::nonce::NONCE_LEN;
use crate::primitives::open;
use crate::primitives::opened;
use crate::primitives::random_bytes;
use crate::primitives::seal;
use crate::primitives::sealed;

verus! {

/// Plaintext bytes per chunk; the last chunk of a stream may be shorter.
pub const CHUNK_SIZE: usize = 65536;

/// The number of chunks that a stream of `len` bytes splits into.
pub open spec fn chunk_count(len: nat) -> nat {
    ((len + 65535) / 65536) as nat
}

/// Where chunk `i` of a stream of `len` bytes ends.
pub open spec fn chunk_end(len: nat, i: int) -> int {
    if (i + 1) * 65536 <= len {
        (i + 1) * 65536
    } else {
        len as int
    }
}

/// Chunk `i` of a stream.
pub open spec fn chunk_of(plain: Seq<u8>, i: int) -> Seq<u8> {
    plain.subrange(i * 65536, chunk_end(plain.len(), i))
}

/// The frames that sealing a stream under a key and a root nonce gives.
pub open spec fn sealed_frames(key: Seq<u8>, root: Seq<u8>, plain: Seq<u8>) -> Seq<Seq<u8>> {
    Seq::new(
        chunk_count(plain.len()),
        |i: int| sealed(key, chunk_nonce_of(root, i as u64), chunk_of(plain, i)),
    )
}

/// The plaintext that a sequence of frames opens to, frame `i` under the
/// nonce of chunk `i`: the chunks one after another, or nothing as soon as
/// one frame fails to verify.
pub open spec fn opened_frames(key: Seq<u8>, root: Seq<u8>, frames: Seq<Seq<u8>>) -> Option<
    Seq<u8>,
>
    decreases frames.len(),
{
    if frames.len() == 0 {
        Some(Seq::<u8>::empty())
    } else {
        match opened_frames(key, root, frames.drop_last()) {
            None => None,
            Some(before) => match opened(
                key,
                chunk_nonce_of(root, (frames.len() - 1) as u64),
                frames.last(),
            ) {
                None => None,
                Some(chunk) => Some(before + chunk),
            },
        }
    }
}

/// The frames of a vector of byte vectors, each by its view.
pub open spec fn frame_views(frames: Seq<Vec<u8>>) -> Seq<Seq<u8>> {
    Seq::new(frames.len(), |i: int| frames[i]@)
}

/// Once a prefix of the frames fails to open, so does the whole sequence.
pub proof fn lemma_failure_is_final(key: Seq<u8>, root: Seq<u8>, frames: Seq<Seq<u8>>, n: int)
    requires
        0 <= n <= frames.len(),
        opened_frames(key, root, frames.take(n)) is None,
    ensures
        opened_frames(key, root, frames) is None,
    decreases frames.len() - n,
{
    if n == frames.len() {
        assert(frames.take(n) =~= frames);
    } else {
        assert(frames.take(n + 1).drop_last() =~= frames.take(n));
        lemma_failure_is_final(key, root, frames, n + 1);
    }
}

/// One frame that does not verify under the nonce of its place fails the
/// whole sequence, wherever it stands: no part of the plaintext comes out.
pub proof fn lemma_rejected_frame_fails_stream(
    key: Seq<u8>,
    root: Seq<u8>,
    frames: Seq<Seq<u8>>,
    i: int,
)
    requires
        0 <= i < frames.len(),
        opened(key, chunk_nonce_of(root, i as u64), frames[i]) is None,
    ensures
        opened_frames(key, root, frames) is None,
{
    assert(frames.take(i + 1).last() == frames[i]);
    assert(frames.take(i + 1).len() - 1 == i);
    lemma_failure_is_final(key, root, frames, i + 1);
}

/// Frames of which each opens to its chunk of a stream open, one after
/// another, to the stream's prefix that those chunks cover.
pub proof fn lemma_chunks_open_in_order(
    key: Seq<u8>,
    root: Seq<u8>,
    frames: Seq<Seq<u8>>,
    plain: Seq<u8>,
    n: int,
)
    requires
        0 <= n <= frames.len(),
        frames.len() <= chunk_count(plain.len()),
        forall|i: int|
            0 <= i < frames.len() ==> opened(
                key,
                chunk_nonce_of(root, i as u64),
                #[trigger] frames[i],
            ) == Some(chunk_of(plain, i)),
    ensures
        opened_frames(key, root, frames.take(n)) == Some(
            plain.subrange(0, if n == 0 { 0 } else { chunk_end(plain.len(), n - 1) }),
        ),
    decreases n,
{
    if n == 0 {
        assert(frames.take(0).len() == 0);
        assert(plain.subrange(0, 0) =~= Seq::<u8>::empty());
    } else {
        lemma_chunks_open_in_order(key, root, frames, plain, n - 1);
        assert(frames.take(n).drop_last() =~= frames.take(n - 1));
        assert(frames.take(n).last() == frames[n - 1]);
        let before = plain.subrange(
            0,
            if n - 1 == 0 { 0 } else { chunk_end(plain.len(), n - 2) },
        );
        assert(before + chunk_of(plain, n - 1) =~= plain.subrange(
            0,
            chunk_end(plain.len(), n - 1),
        ));
    }
}

/// A stream whose length is a multiple of the chunk size splits into exactly
/// that many chunks, each of them full: none is empty and none trails.
pub proof fn lemma_exact_multiple_has_no_trailing_chunk(plain: Seq<u8>)
    requires
        plain.len() % 65536 == 0,
    ensures
        chunk_count(plain.len()) == plain.len() / 65536,
        forall|i: int|
            0 <= i < chunk_count(plain.len()) ==> (#[trigger] chunk_of(plain, i)).len() == 65536,
{
}

/// Whether frames are what sealing a stream under a key and a root nonce
/// gives: one frame for each chunk and no other, frame `i` the sealed chunk
/// `i`, 16 bytes longer than the chunk, which is never empty; frame `i`
/// opens to chunk `i` under the nonce of its place; and the frames open, in
/// order, to the stream.
pub open spec fn is_sealing_of(
    frames: Seq<Seq<u8>>,
    key: Seq<u8>,
    root: Seq<u8>,
    plain: Seq<u8>,
) -> bool {
    &&& frames == sealed_frames(key, root, plain)
    &&& frames.len() == chunk_count(plain.len())
    &&& forall|i: int|
        0 <= i < frames.len() ==> 0 < chunk_of(plain, i).len() <= 65536 && (
        #[trigger] frames[i]).len() == chunk_of(plain, i).len() + 16
    &&& forall|i: int|
        0 <= i < frames.len() ==> opened(key, chunk_nonce_of(root, i as u64), #[trigger] frames[i])
            == Some(chunk_of(plain, i))
    &&& opened_frames(key, root, frames) == Some(plain)
}

/// Seals a stream under a key and a given root nonce: chunk after chunk,
/// each under the nonce of its place.
pub fn seal_stream(plain: &[u8], key: &[u8], root: &[u8]) -> (r: Result<Vec<Vec<u8>>, StoreError>)
    requires
        key@.len() == 32,
        root@.len() == 24,
    ensures
        r matches Ok(frames) && is_sealing_of(frame_views(frames@), key@, root@, plain@),
{
    let mut frames: Vec<Vec<u8>> = Vec::new();
    let mut position: usize = 0;
    let mut index: u64 = 0;
    while position < plain.len()
        invariant
            key@.len() == 32,
            root@.len() == 24,
            position <= plain@.len(),
            frames@.len() == index,
            index <= chunk_count(plain@.len()),
            position == if index == 0 {
                0
            } else {
                chunk_end(plain@.len(), index - 1)
            },
            position < plain@.len() ==> position == index * 65536,
            forall|i: int|
                0 <= i < index ==> 0 < (#[trigger] chunk_of(plain@, i)).len() <= 65536
                    && frames@[i]@.len() == chunk_of(plain@, i).len() + 16,
            forall|i: int|
                0 <= i < index ==> (#[trigger] frames@[i])@ == sealed(
                    key@,
                    chunk_nonce_of(root@, i as u64),
                    chunk_of(plain@, i),
                ),
            forall|i: int|
                0 <= i < index ==> opened(
                    key@,
                    chunk_nonce_of(root@, i as u64),
                    (#[trigger] frames@[i])@,
                ) == Some(chunk_of(plain@, i)),
        decreases plain@.len() - position,
    {
        let end: usize = if plain.len() - position > CHUNK_SIZE {
            position + CHUNK_SIZE
        } else {
            plain.len()
        };
        let chunk = slice_subrange(plain, position, end);
        assert(chunk@ == chunk_of(plain@, index as int));
        let nonce = chunk_nonce(root, index);
        let frame = match seal(key, nonce.as_slice(), chunk) {
            Some(frame) => frame,
            None => {
                return Err(StoreError::EncryptionError);
            },
        };
        frames.push(frame);
        position = end;
        index = index + 1;
    }
    proof {
        assert(frame_views(frames@) =~= sealed_frames(key@, root@, plain@));
        let views = frame_views(frames@);
        assert forall|i: int| 0 <= i < views.len() implies 0 < chunk_of(plain@, i).len() <= 65536
            && (#[trigger] views[i]).len() == chunk_of(plain@, i).len() + 16 by {
            assert(views[i] == frames@[i]@);
        }
        assert forall|i: int| 0 <= i < views.len() implies opened(
            key@,
            chunk_nonce_of(root@, i as u64),
            #[trigger] views[i],
        ) == Some(chunk_of(plain@, i)) by {
            assert(views[i] == frames@[i]@);
        }
        lemma_chunks_open_in_order(key@, root@, views, plain@, views.len() as int);
        assert(views.take(views.len() as int) =~= views);
        assert(plain@.subrange(0, plain@.len() as int) =~= plain@);
    }
    Ok(frames)
}

/// Seals a stream under a key and a fresh random root nonce, and returns the
/// root nonce with the frames.
pub fn encrypt_stream(plain: &[u8], key: &[u8]) -> (r: Result<(Vec<u8>, Vec<Vec<u8>>), StoreError>)
    requires
        key@.len() == 32,
    ensures
        r matches Ok(out) && out.0@.len() == 24 && is_sealing_of(
            frame_views(out.1@),
            key@,
            out.0@,
            plain@,
        ),
{
    let root = random_bytes(NONCE_LEN);
    match seal_stream(plain, key, root.as_slice()) {
        Ok(frames) => Ok((root, frames)),
        Err(e) => Err(e),
    }
}

/// Opens the frames in order and concatenates the chunks. One frame that
/// fails to verify fails the whole stream with `AuthenticationFailure`.
pub fn decrypt_stream(root: &[u8], frames: &Vec<Vec<u8>>, key: &[u8]) -> (r: Result<
    Vec<u8>,
    StoreError,
>)
    requires
        key@.len() == 32,
        root@.len() == 24,
    ensures
        match opened_frames(key@, root@, frame_views(frames@)) {
            Some(plain) => r matches Ok(p) && p@ == plain,
            None => r matches Err(e) && e == StoreError::AuthenticationFailure,
        },
{
    let ghost views = frame_views(frames@);
    let mut plain: Vec<u8> = Vec::new();
    let mut index: usize = 0;
    while index < frames.len()
        invariant
            key@.len() == 32,
            root@.len() == 24,
            index <= frames@.len(),
            views == frame_views(frames@),
            opened_frames(key@, root@, views.take(index as int)) == Some(plain@),
        decreases frames@.len() - index,
    {
        let nonce = chunk_nonce(root, index as u64);
        proof {
            assert(views.take(index + 1).drop_last() =~= views.take(index as int));
            assert(views.take(index + 1).last() == frames@[index as int]@);
        }
        match open(key, nonce.as_slice(), frames[index].as_slice()) {
            Some(chunk) => {
                let mut chunk = chunk;
                plain.append(&mut chunk);
            },
            None => {
                proof {
                    lemma_failure_is_final(key@, root@, views, index + 1);
                }
                return Err(StoreError::AuthenticationFailure);
            },
        }
        index += 1;
    }
    proof {
        assert(views.take(index as int) =~= views);
    }
    Ok(plain)
}

} // verus!
