//! The per-connection jitter buffer and its playback state machine.
//!
//! A buffer owns the block currently being played, a FIFO of decoded blocks
//! awaiting playback, a cursor into the current block, and a warm-up flag.
//! It is created on a connection's first successfully decoded frame and from
//! then on answers one `advance_and_sample` call per output sample slot.

use std::collections::VecDeque;
use vstd::prelude::*;

use crate::codec::FrameDecoder;

verus! {

/// Playback phase of a jitter buffer.
///
/// A buffer starts in `Warming` and contributes silence until enough blocks
/// have queued up to absorb ordinary network jitter; it then moves to
/// `Playing` and stays there until the connection closes.
#[derive(Debug, Clone, Copy, PartialEq, Eq, Structural)]
pub enum JbState {
    Warming,
    Playing,
}

/// The mathematical state of a jitter buffer: everything playback depends
/// on, with the opaque decoder left out.
#[verifier::ext_equal]
pub ghost struct JbView {
    pub id: u32,
    pub current: Seq<i16>,
    pub pending: Seq<Seq<i16>>,
    pub cursor: nat,
    pub playing: bool,
    pub warmup: nat,
}

/// Well-formedness: the current block is never empty, the cursor stays in
/// bounds, and every queued block is non-empty (so a popped block can always
/// be played).
pub open spec fn jb_wf(v: JbView) -> bool {
    &&& v.current.len() > 0
    &&& v.cursor < v.current.len()
    &&& forall|i: int| 0 <= i < v.pending.len() ==> #[trigger] v.pending[i].len() > 0
}

/// The sample one `advance_and_sample` call contributes: silence while
/// warming, otherwise the sample under the cursor.
pub open spec fn jb_sample(v: JbView) -> i16 {
    if v.playing {
        v.current[v.cursor as int]
    } else {
        0
    }
}

/// The buffer state after one `advance_and_sample` call.
///
/// While warming, the buffer plays nothing and turns to `Playing` once more
/// than `warmup` blocks are queued. While playing, the cursor advances; at
/// the end of the current block the head of the queue takes over, and if the
/// queue is empty the same block is replayed from its start (an underrun
/// loops the most recent audio rather than going silent).
pub open spec fn jb_step(v: JbView) -> JbView {
    if !v.playing {
        if v.pending.len() > v.warmup {
            JbView { playing: true, ..v }
        } else {
            v
        }
    } else if v.cursor + 1 == v.current.len() {
        if v.pending.len() > 0 {
            JbView { current: v.pending[0], pending: v.pending.drop_first(), cursor: 0, ..v }
        } else {
            JbView { cursor: 0, ..v }
        }
    } else {
        JbView { cursor: v.cursor + 1, ..v }
    }
}

/// The buffer state after `k` consecutive `advance_and_sample` calls.
pub open spec fn jb_step_k(v: JbView, k: nat) -> JbView
    decreases k,
{
    if k == 0 {
        v
    } else {
        jb_step(jb_step_k(v, (k - 1) as nat))
    }
}

/// One step preserves well-formedness.
pub proof fn lemma_step_wf(v: JbView)
    requires
        jb_wf(v),
    ensures
        jb_wf(jb_step(v)),
{
}

/// The per-connection jitter buffer.
pub struct JitterBuffer {
    /// Identifier of the connection this buffer belongs to.
    pub connection_id: u32,
    /// The block currently being played; never empty.
    pub current_block: Vec<i16>,
    /// Decoded blocks awaiting playback, in arrival order.
    pub pending_blocks: VecDeque<Vec<i16>>,
    /// Index of the next sample to play in `current_block`.
    pub cursor: usize,
    /// Warm-up flag: `Warming` until the queue has grown past `warmup_depth`.
    pub state: JbState,
    /// How many queued blocks beyond which warm-up ends.
    pub warmup_depth: usize,
    /// Codec state carried across this connection's decode calls.
    pub decoder: FrameDecoder,
}

impl View for JitterBuffer {
    type V = JbView;

    open spec fn view(&self) -> JbView {
        JbView {
            id: self.connection_id,
            current: self.current_block@,
            pending: self.pending_blocks@.map_values(|b: Vec<i16>| b@),
            cursor: self.cursor as nat,
            playing: self.state is Playing,
            warmup: self.warmup_depth as nat,
        }
    }
}

impl JitterBuffer {
    /// Well-formedness of the executable buffer, stated over its view.
    pub open spec fn wf(&self) -> bool {
        jb_wf(self@)
    }

    /// Creates the buffer for a connection's first decoded block: the block
    /// becomes the current block directly, the queue starts empty, and the
    /// buffer begins warming.
    pub fn new(
        connection_id: u32,
        first_block: Vec<i16>,
        warmup_depth: usize,
        decoder: FrameDecoder,
    ) -> (jb: JitterBuffer)
        requires
            first_block@.len() > 0,
        ensures
            jb.wf(),
            jb@ == (JbView {
                id: connection_id,
                current: first_block@,
                pending: Seq::<Seq<i16>>::empty(),
                cursor: 0,
                playing: false,
                warmup: warmup_depth as nat,
            }),
    {
        let jb = JitterBuffer {
            connection_id,
            current_block: first_block,
            pending_blocks: VecDeque::new(),
            cursor: 0,
            state: JbState::Warming,
            warmup_depth,
            decoder,
        };
        proof {
            assert(jb@.pending =~= Seq::<Seq<i16>>::empty());
            assert(jb@ =~= (JbView {
                id: connection_id,
                current: jb.current_block@,
                pending: Seq::<Seq<i16>>::empty(),
                cursor: 0,
                playing: false,
                warmup: warmup_depth as nat,
            }));
        }
        jb
    }

    /// Appends a decoded block to the tail of the queue; nothing else of the
    /// buffer changes.
    pub fn enqueue(&mut self, block: Vec<i16>)
        requires
            old(self).wf(),
            block@.len() > 0,
        ensures
            final(self).wf(),
            final(self)@ == (JbView { pending: old(self)@.pending.push(block@), ..old(self)@ }),
    {
        self.pending_blocks.push_back(block);
        proof {
            assert(self@.pending =~= old(self)@.pending.push(block@));
            assert(self@ =~= (JbView { pending: old(self)@.pending.push(block@), ..old(self)@ }));
        }
    }

    /// Feeds one arriving payload to this connection's decoder and, when it
    /// yields a playable (non-empty) block, queues it. On a failed or empty
    /// decode the frame is dropped and the observable buffer state is
    /// unchanged, whatever the decoder made of the payload.
    pub fn feed(&mut self, payload: Vec<u8>) -> (queued: bool)
        requires
            old(self).wf(),
        ensures
            final(self).wf(),
            final(self).connection_id == old(self).connection_id,
            queued ==> exists|b: Seq<i16>|
                b.len() > 0 && final(self)@ == (JbView {
                    pending: old(self)@.pending.push(b),
                    ..old(self)@
                }),
            !queued ==> final(self)@ == old(self)@,
    {
        match crate::codec::decode_frame(&mut self.decoder, payload) {
            Ok(block) => {
                if block.len() > 0 {
                    let ghost b = block@;
                    self.enqueue(block);
                    proof {
                        assert(b.len() > 0 && self@ == (JbView {
                            pending: old(self)@.pending.push(b),
                            ..old(self)@
                        }));
                    }
                    true
                } else {
                    proof {
                        assert(self@ =~= old(self)@);
                    }
                    false
                }
            },
            Err(_) => {
                proof {
                    assert(self@ =~= old(self)@);
                }
                false
            },
        }
    }

    /// The per-output-sample operation: returns this buffer's contribution
    /// to the current sample slot and advances the playback state by one
    /// step of `jb_step`.
    pub fn advance_and_sample(&mut self) -> (sample: i16)
        requires
            old(self).wf(),
        ensures
            final(self).wf(),
            final(self)@ == jb_step(old(self)@),
            sample == jb_sample(old(self)@),
    {
        match self.state {
            JbState::Warming => {
                if self.pending_blocks.len() > self.warmup_depth {
                    self.state = JbState::Playing;
                }
                proof {
                    assert(self@ =~= jb_step(old(self)@));
                }
                0
            },
            JbState::Playing => {
                proof {
                    assert(self.cursor < self.current_block.len());
                }
                let sample = self.current_block[self.cursor];
                if self.cursor + 1 == self.current_block.len() {
                    match self.pending_blocks.pop_front() {
                        Some(next) => {
                            self.current_block = next;
                            proof {
                                assert(self@.pending =~= old(self)@.pending.drop_first());
                            }
                        },
                        None => {},
                    }
                    self.cursor = 0;
                } else {
                    self.cursor = self.cursor + 1;
                }
                proof {
                    assert(self@ =~= jb_step(old(self)@));
                }
                sample
            },
        }
    }
}

/// Warm-up threshold law: a warming buffer contributes silence; with at most
/// `warmup` queued blocks it stays warming, and with more it turns to
/// `Playing` on the next sample step.
pub proof fn lemma_warmup_threshold(v: JbView)
    requires
        jb_wf(v),
        !v.playing,
    ensures
        jb_sample(v) == 0,
        v.pending.len() <= v.warmup ==> !jb_step(v).playing,
        v.pending.len() > v.warmup ==> jb_step(v).playing,
{
}

/// Underrun continuity law: a playing buffer whose queue is empty keeps
/// replaying its current block. After `k` further steps the block and the
/// empty queue are unchanged, the cursor has moved `k` places around the
/// block, and the sample contributed is the one that distance into the last
/// complete cycle — the buffer loops, it never drops to silence.
pub proof fn lemma_underrun_loops(v: JbView, k: nat)
    requires
        jb_wf(v),
        v.playing,
        v.pending.len() == 0,
    ensures
        jb_wf(jb_step_k(v, k)),
        jb_step_k(v, k) == (JbView {
            cursor: (v.cursor + k) % v.current.len(),
            ..v
        }),
        jb_sample(jb_step_k(v, k)) == v.current[((v.cursor + k) % v.current.len()) as int],
    decreases k,
{
    let n = v.current.len();
    if k == 0 {
        vstd::arithmetic::div_mod::lemma_small_mod(v.cursor, n);
        assert(jb_step_k(v, k) =~= (JbView { cursor: (v.cursor + k) % n, ..v }));
    } else {
        lemma_underrun_loops(v, (k - 1) as nat);
        let w = jb_step_k(v, (k - 1) as nat);
        let r = w.cursor;
        vstd::arithmetic::div_mod::lemma_add_mod_noop(
            (v.cursor + k - 1) as int,
            1int,
            n as int,
        );
        if r + 1 == n {
            vstd::arithmetic::div_mod::lemma_mod_self_0(n as int);
            if n == 1 {
                vstd::arithmetic::div_mod::lemma_small_mod(0, n);
            } else {
                vstd::arithmetic::div_mod::lemma_small_mod(1, n);
            }
            assert((v.cursor + k) % n == 0);
        } else {
            vstd::arithmetic::div_mod::lemma_small_mod(1, n);
            vstd::arithmetic::div_mod::lemma_small_mod((r + 1) as nat, n);
            assert((v.cursor + k) % n == r + 1);
        }
        assert(jb_step_k(v, k) =~= (JbView { cursor: (v.cursor + k) % n, ..v }));
    }
}

} // verus!
