//! Splitting byte streams into fixed-size frames for streaming transfers.
use vstd::prelude::*;
use crate::checksum::next_block_len;

verus! {

/// Size of the frames that chunk data is streamed in (1 MiB).
pub const FRAME_SIZE: usize = 1048576;

/// Consecutive frames of `frame` bytes; the last may be shorter. Empty data
/// has no frames.
pub open spec fn split_frames(data: Seq<u8>, frame: nat) -> Seq<Seq<u8>>
    decreases data.len(),
{
    if data.len() == 0 || frame == 0 {
        Seq::empty()
    } else {
        let n = next_block_len(data.len(), frame);
        seq![data.take(n as int)] + split_frames(data.skip(n as int), frame)
    }
}

/// The concatenation of a sequence of byte strings.
pub open spec fn concat(parts: Seq<Seq<u8>>) -> Seq<u8>
    decreases parts.len(),
{
    if parts.len() == 0 {
        Seq::empty()
    } else {
        concat(parts.drop_last()) + parts.last()
    }
}

/// Concatenating one more part appends it.
pub proof fn lemma_concat_push(parts: Seq<Seq<u8>>, p: Seq<u8>)
    ensures
        concat(parts.push(p)) == concat(parts) + p,
{
    assert(parts.push(p).drop_last() =~= parts);
}

/// Concatenation distributes over appending sequences of parts.
pub proof fn lemma_concat_append(a: Seq<Seq<u8>>, b: Seq<Seq<u8>>)
    ensures
        concat(a + b) == concat(a) + concat(b),
    decreases b.len(),
{
    if b.len() == 0 {
        assert(a + b =~= a);
        assert(concat(a) + Seq::<u8>::empty() =~= concat(a));
    } else {
        lemma_concat_append(a, b.drop_last());
        assert((a + b).drop_last() =~= a + b.drop_last());
        assert(concat(a) + concat(b.drop_last()) + b.last() =~= concat(a) + (concat(b.drop_last()) + b.last()));
    }
}

/// The frames of some data, concatenated, give back the data; every
/// frame is non-empty and no longer than the frame size, and all frames but
/// the last are full.
pub proof fn lemma_split_frames(data: Seq<u8>, frame: nat)
    requires
        frame > 0,
    ensures
        concat(split_frames(data, frame)) == data,
        forall|i: int| 0 <= i < split_frames(data, frame).len() ==> 0 < #[trigger] split_frames(data, frame)[i].len() <= frame,
        forall|i: int| 0 <= i < split_frames(data, frame).len() - 1 ==> #[trigger] split_frames(data, frame)[i].len() == frame,
    decreases data.len(),
{
    if data.len() > 0 {
        let n = next_block_len(data.len(), frame);
        let rest = data.skip(n as int);
        lemma_split_frames(rest, frame);
        let f = split_frames(data, frame);
        assert(f == seq![data.take(n as int)] + split_frames(rest, frame));
        lemma_concat_append(seq![data.take(n as int)], split_frames(rest, frame));
        assert(concat(seq![data.take(n as int)]) =~= data.take(n as int)) by {
            assert(seq![data.take(n as int)].drop_last() =~= Seq::<Seq<u8>>::empty());
            assert(concat(Seq::<Seq<u8>>::empty()) == Seq::<u8>::empty());
            assert(Seq::<u8>::empty() + data.take(n as int) =~= data.take(n as int));
        }
        assert(data.take(n as int) + rest =~= data);
        assert forall|i: int| 0 <= i < f.len() implies 0 < #[trigger] f[i].len() <= frame by {
            if i > 0 {
                assert(f[i] == split_frames(rest, frame)[i - 1]);
            }
        }
        assert forall|i: int| 0 <= i < f.len() - 1 implies #[trigger] f[i].len() == frame by {
            if i > 0 {
                assert(f[i] == split_frames(rest, frame)[i - 1]);
            } else {
                assert(split_frames(rest, frame).len() > 0);
                assert(rest.len() > 0);
            }
        }
    }
}

/// Splits `data` into frames of `frame` bytes.
pub fn split_into_frames(data: &[u8], frame: usize) -> (frames: Vec<Vec<u8>>)
    requires
        frame > 0,
    ensures
        frames@.map_values(|v: Vec<u8>| v@) == split_frames(data@, frame as nat),
{
    let mut frames: Vec<Vec<u8>> = Vec::new();
    let len = data.len();
    let mut start: usize = 0;
    proof {
        assert(data@.skip(0) =~= data@);
        assert(frames@.map_values(|v: Vec<u8>| v@) + split_frames(data@, frame as nat) =~= split_frames(data@, frame as nat));
    }
    while start < len
        invariant
            len == data@.len(),
            frame > 0,
            start <= len,
            frames@.map_values(|v: Vec<u8>| v@) + split_frames(data@.skip(start as int), frame as nat) == split_frames(data@, frame as nat),
        decreases len - start,
    {
        let n: usize = if len - start < frame { len - start } else { frame };
        let part = vstd::slice::slice_to_vec(vstd::slice::slice_subrange(data, start, start + n));
        let ghost prev = frames@.map_values(|v: Vec<u8>| v@);
        proof {
            let rest = data@.skip(start as int);
            assert(rest.take(n as int) =~= part@);
            assert(rest.skip(n as int) =~= data@.skip(start + n));
            assert(split_frames(rest, frame as nat) == seq![part@] + split_frames(rest.skip(n as int), frame as nat));
        }
        frames.push(part);
        proof {
            assert(frames@.map_values(|v: Vec<u8>| v@) =~= prev.push(part@));
            assert(prev.push(part@) + split_frames(data@.skip(start + n), frame as nat)
                =~= prev + (seq![part@] + split_frames(data@.skip(start + n), frame as nat)));
        }
        start = start + n;
    }
    proof {
        assert(data@.skip(len as int) =~= Seq::<u8>::empty());
        assert(frames@.map_values(|v: Vec<u8>| v@) + Seq::<Seq<u8>>::empty() =~= frames@.map_values(|v: Vec<u8>| v@));
    }
    frames
}

} // verus!
