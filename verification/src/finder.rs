//! Frame reassembly from a noisy byte stream.
//!
//! A [`PacketFinder`] consumes one byte at a time and emits the payload of
//! every complete `0x00 ... 0x00` frame it sees. The leading delimiter of
//! one frame also terminates the previous frame, so back-to-back frames on
//! the wire need only a single delimiter between them.

use vstd::prelude::*;

verus! {

/// Capacity of the reassembly buffer: one delimiter sentinel plus frame
/// bytes.
pub const FINDER_CAPACITY: usize = 512;

/// One transition of the frame-finding state machine.
///
/// The state is the reassembly buffer: empty when idle, otherwise a `0x00`
/// sentinel followed by the frame bytes seen so far. The result is the new
/// state together with the frame emitted by this byte, if any.
pub open spec fn finder_step(state: Seq<u8>, byte: u8) -> (Seq<u8>, Option<Seq<u8>>) {
    if state.len() < FINDER_CAPACITY {
        if byte == 0u8 {
            if state.len() > 0 {
                (seq![0u8], Some(state.skip(1)))
            } else {
                (seq![0u8], None)
            }
        } else {
            if state.len() > 0 {
                (state.push(byte), None)
            } else {
                (state, None)
            }
        }
    } else {
        (Seq::<u8>::empty(), None)
    }
}

/// Folding [`finder_step`] over a whole input: the final state and every
/// frame emitted along the way, in order.
pub open spec fn finder_run(state: Seq<u8>, input: Seq<u8>) -> (Seq<u8>, Seq<Seq<u8>>)
    decreases input.len(),
{
    if input.len() == 0 {
        (state, Seq::<Seq<u8>>::empty())
    } else {
        let step = finder_step(state, input[0]);
        let rest = finder_run(step.0, input.skip(1));
        (
            rest.0,
            match step.1 {
                Some(frame) => seq![frame] + rest.1,
                None => rest.1,
            },
        )
    }
}

/// Extracts complete frames from a byte stream, one byte at a time.
pub struct PacketFinder {
    buffer: Vec<u8>,
    max_buffer_size: usize,
}

impl View for PacketFinder {
    type V = Seq<u8>;

    closed spec fn view(&self) -> Seq<u8> {
        self.buffer@
    }
}

/// A reassembly buffer is well formed when it fits the capacity and is
/// either idle (empty) or holds the sentinel followed by non-zero frame
/// bytes.
pub open spec fn finder_state_wf(state: Seq<u8>) -> bool {
    &&& state.len() <= FINDER_CAPACITY
    &&& state.len() > 0 ==> state[0] == 0u8
    &&& forall|i: int| 1 <= i < state.len() ==> #[trigger] state[i] != 0u8
}

impl PacketFinder {
    /// The finder's capacity bookkeeping is intact.
    pub closed spec fn wf(&self) -> bool {
        &&& finder_state_wf(self@)
        &&& self.max_buffer_size == FINDER_CAPACITY
    }

    /// A fresh finder with an idle buffer.
    pub fn new() -> (r: PacketFinder)
        ensures
            r.wf(),
            r@ == Seq::<u8>::empty(),
    {
        PacketFinder { buffer: Vec::new(), max_buffer_size: FINDER_CAPACITY }
    }

    /// Feed one byte; emits the completed frame, if this byte completed
    /// one, exactly as [`finder_step`] describes.
    pub fn push_byte(&mut self, byte: u8) -> (r: Option<Vec<u8>>)
        requires
            old(self).wf(),
        ensures
            final(self).wf(),
            final(self)@ == finder_step(old(self)@, byte).0,
            match r {
                Some(frame) => finder_step(old(self)@, byte).1 == Some(frame@),
                None => finder_step(old(self)@, byte).1 is None,
            },
    {
        if self.buffer.len() < self.max_buffer_size {
            if byte == 0x00u8 {
                if self.buffer.len() > 0 {
                    let packet = self.buffer.split_off(1);
                    assert(self.buffer@ =~= seq![0u8]);
                    return Some(packet);
                } else {
                    self.buffer.push(byte);
                    assert(self.buffer@ =~= seq![0u8]);
                }
            } else {
                if self.buffer.len() > 0 {
                    self.buffer.push(byte);
                }
            }
        } else {
            self.buffer.clear();
        }
        None
    }
}

/// A frame the finder can emit: free of zero bytes and short enough to
/// have fit the buffer together with its sentinel.
pub open spec fn frame_ok(f: Seq<u8>) -> bool {
    &&& f.len() <= FINDER_CAPACITY - 2
    &&& forall|i: int| 0 <= i < f.len() ==> f[i] != 0u8
}

/// Every frame of the list is one the finder can emit.
pub open spec fn frames_ok(fs: Seq<Seq<u8>>) -> bool {
    forall|k: int| 0 <= k < fs.len() ==> frame_ok(#[trigger] fs[k])
}

/// The frame list rejoined as a wire stream: a delimiter, then each frame
/// followed by a delimiter, so back-to-back frames share one delimiter.
pub open spec fn delimited(frames: Seq<Seq<u8>>) -> Seq<u8>
    decreases frames.len(),
{
    if frames.len() == 0 {
        seq![0u8]
    } else {
        seq![0u8] + frames[0] + delimited(frames.skip(1))
    }
}

proof fn lemma_finder_run_frames(state: Seq<u8>, input: Seq<u8>)
    requires
        finder_state_wf(state),
    ensures
        finder_state_wf(finder_run(state, input).0),
        frames_ok(finder_run(state, input).1),
    decreases input.len(),
{
    if input.len() > 0 {
        let step = finder_step(state, input[0]);
        assert(finder_state_wf(step.0));
        match step.1 {
            Some(f) => {
                assert(f == state.skip(1));
                assert(frame_ok(f));
            },
            None => {},
        }
        lemma_finder_run_frames(step.0, input.skip(1));
        match step.1 {
            Some(f) => {
                assert(forall|k: int|
                    0 <= k < finder_run(state, input).1.len() ==> frame_ok(
                        #[trigger] finder_run(state, input).1[k],
                    ));
            },
            None => {},
        }
    }
}

proof fn lemma_push_bytes(state: Seq<u8>, f: Seq<u8>, rest: Seq<u8>)
    requires
        state.len() >= 1,
        state[0] == 0u8,
        forall|i: int| 1 <= i < state.len() ==> #[trigger] state[i] != 0u8,
        state.len() + f.len() <= FINDER_CAPACITY - 1,
        forall|i: int| 0 <= i < f.len() ==> #[trigger] f[i] != 0u8,
    ensures
        finder_run(state, f + rest) == finder_run(state + f, rest),
    decreases f.len(),
{
    if f.len() == 0 {
        assert(f + rest =~= rest);
        assert(state + f =~= state);
    } else {
        assert((f + rest)[0] == f[0]);
        assert(f[0] != 0u8);
        assert(finder_step(state, f[0]) == (state.push(f[0]), None::<Seq<u8>>));
        assert((f + rest).skip(1) =~= f.skip(1) + rest);
        assert(state.push(f[0]) =~= state + seq![f[0]]);
        lemma_push_bytes(state.push(f[0]), f.skip(1), rest);
        assert(state.push(f[0]) + f.skip(1) =~= state + f);
    }
}

proof fn lemma_replay_aux(fs: Seq<Seq<u8>>)
    requires
        frames_ok(fs),
    ensures
        finder_run(seq![0u8], delimited(fs).skip(1)) == (seq![0u8], fs),
    decreases fs.len(),
{
    if fs.len() == 0 {
        assert(delimited(fs).skip(1) =~= Seq::<u8>::empty());
    } else {
        let f0 = fs[0];
        assert(frame_ok(f0));
        let tail = delimited(fs.skip(1));
        assert(delimited(fs).skip(1) =~= f0 + (seq![0u8] + tail.skip(1)));
        assert(tail.len() >= 1 && tail[0] == 0u8);
        assert(seq![0u8] + tail.skip(1) =~= tail);
        lemma_push_bytes(seq![0u8], f0, tail);
        let full = seq![0u8] + f0;
        assert(full.len() == 1 + f0.len() < FINDER_CAPACITY);
        assert(full[0] == 0u8 && full.len() > 0);
        assert(finder_step(full, tail[0]) == (seq![0u8], Some(full.skip(1))));
        assert(full.skip(1) =~= f0);
        lemma_replay_aux(fs.skip(1));
        assert(finder_run(full, tail) == (
            seq![0u8],
            seq![f0] + finder_run(seq![0u8], tail.skip(1)).1,
        ));
        assert(seq![f0] + fs.skip(1) =~= fs);
    }
}

/// Law: frame finding is replay-stable. Take the frames one finder emits
/// from any byte stream, rejoin them with `0x00` delimiters, and feed
/// them to a fresh finder: it emits exactly the same frames.
pub proof fn lemma_finder_replay(input: Seq<u8>)
    ensures
        ({
            let frames = finder_run(Seq::<u8>::empty(), input).1;
            finder_run(Seq::<u8>::empty(), delimited(frames)).1 == frames
        }),
{
    let frames = finder_run(Seq::<u8>::empty(), input).1;
    assert(finder_state_wf(Seq::<u8>::empty()));
    lemma_finder_run_frames(Seq::<u8>::empty(), input);
    lemma_replay_aux(frames);
    assert(delimited(frames).len() >= 1 && delimited(frames)[0] == 0u8);
    assert(finder_step(Seq::<u8>::empty(), 0u8) == (seq![0u8], None::<Seq<u8>>));
}

impl Default for PacketFinder {
    /// Same as [`PacketFinder::new`].
    fn default() -> (r: PacketFinder)
        ensures
            r.wf(),
            r@ == Seq::<u8>::empty(),
    {
        PacketFinder::new()
    }
}

} // verus!
