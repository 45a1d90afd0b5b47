//! The shared latest-frame state: the two most recent captures, whether
//! the older of them is due to the clients, and the hash of what was last
//! sent. One capture loop advances it, any number of connections poll it.

use vstd::prelude::*;
use vstd::pervasive::unreached;
use crate::diff::{calc_diff, score_parts, DiffScore, TOTAL_PARTS};
use crate::hash::{content_hash, md5_hex};
use crate::img::{interleave, ImageView, RgbImage};
use crate::wire::{
    encode_frame,
    frame_message,
    is_more_request,
    lemma_frame_message_not_empty,
    more_token,
};

verus! {

/// What a [`FrameStore`] stands for.
pub struct StoreView {
    /// The capture before the latest: the one that is offered to clients.
    pub previous: ImageView,
    /// The latest capture.
    pub current: ImageView,
    /// Whether `previous` is due to the clients.
    pub should_deliver: bool,
    /// The hash of the frame that was last sent to any client; empty
    /// until one was sent.
    pub last_delivered_hash: Seq<char>,
}

impl StoreView {
    /// Both captures are rasters, and a capture without pixels is never
    /// due.
    pub open spec fn wf(self) -> bool {
        &&& self.previous.wf()
        &&& self.current.wf()
        &&& self.should_deliver ==> !self.previous.is_empty()
    }

    /// The store before the first capture.
    pub open spec fn initial() -> StoreView {
        StoreView {
            previous: ImageView::unset_value(),
            current: ImageView::unset_value(),
            should_deliver: false,
            last_delivered_hash: Seq::empty(),
        }
    }
}

/// The score of the latest capture against the one before it, in parts:
/// the largest score if the latest has no pixels or not as many as the other,
/// and the score of their average colours otherwise.
pub open spec fn frame_diff_spec(previous: ImageView, current: ImageView) -> nat {
    if current.is_empty() || previous.pixels.len() != current.pixels.len() {
        TOTAL_PARTS as nat
    } else {
        score_parts(previous.pixels, current.pixels)
    }
}

/// Whether `previous` is due to the clients once `current` has followed
/// it: it has pixels and extent, and the score reaches the threshold.
pub open spec fn delivery_due(previous: ImageView, current: ImageView, threshold: nat) -> bool {
    &&& !previous.is_empty()
    &&& frame_diff_spec(previous, current) >= threshold
    &&& previous.height != 0
    &&& previous.width != 0
}

/// Whether what was kept of `current` on disk repeats `previous`: the
/// score is under the threshold and is nothing at all.
pub open spec fn artifact_redundant(previous: ImageView, current: ImageView, threshold: nat)
    -> bool {
    &&& !previous.is_empty()
    &&& frame_diff_spec(previous, current) < threshold
    &&& frame_diff_spec(previous, current) == 0
}

/// The store after the capture `frame` has come in.
pub open spec fn after_tick(store: StoreView, frame: ImageView, threshold: nat) -> StoreView {
    StoreView {
        previous: store.current,
        current: frame,
        should_deliver: delivery_due(store.current, frame, threshold),
        last_delivered_hash: store.last_delivered_hash,
    }
}

/// Whether `outcome` is what a tick tells of the capture `frame` coming
/// into `store`: the score against the latest capture so far, if that one has
/// pixels, and whether what was kept of `frame` repeats it.
pub open spec fn outcome_of_tick(
    store: StoreView,
    frame: ImageView,
    threshold: nat,
    outcome: TickOutcome,
) -> bool {
    &&& outcome.remove_artifact == artifact_redundant(store.current, frame, threshold)
    &&& match outcome.diff {
        Some(diff) => !store.current.is_empty() && diff@ == frame_diff_spec(store.current, frame),
        None => store.current.is_empty(),
    }
}

/// Whether a poll sends the frame, given the hash of its bytes: the frame
/// is due, and it is not the one that was sent last.
pub open spec fn frame_is_new(store: StoreView, hash: Seq<char>) -> bool {
    store.should_deliver && store.last_delivered_hash != hash
}

/// What a poll answers, given the hash of the offered frame: the framed
/// frame if it is new, and the empty reply that stands for "nothing new"
/// otherwise.
pub open spec fn reply_to(store: StoreView, hash: Seq<char>) -> Seq<u8> {
    if frame_is_new(store, hash) {
        frame_message(store.previous.height, interleave(store.previous.pixels))
    } else {
        Seq::empty()
    }
}

/// The store after a poll, given the hash of the offered frame: a frame
/// that was sent is remembered by its hash.
pub open spec fn after_reply(store: StoreView, hash: Seq<char>) -> StoreView {
    if frame_is_new(store, hash) {
        StoreView { last_delivered_hash: hash, ..store }
    } else {
        store
    }
}

/// The hash of the frame that the store offers.
pub open spec fn offered_hash(store: StoreView) -> Seq<char> {
    md5_hex(interleave(store.previous.pixels))
}

/// Captures with different numbers of pixels are never scored by their
/// colours: they get the largest score.
pub proof fn lemma_mismatch_scores_total(previous: ImageView, current: ImageView)
    requires
        previous.pixels.len() != current.pixels.len(),
    ensures
        frame_diff_spec(previous, current) == TOTAL_PARTS,
{
}

/// Of two polls with no capture between them, the second is answered with
/// the empty reply and leaves the store as it is, whatever the first was
/// answered with. Where the frame was new, the first poll is answered with the
/// framed frame, which is not empty.
pub proof fn lemma_second_poll_silent(store: StoreView, hash: Seq<char>)
    ensures
        reply_to(after_reply(store, hash), hash) == Seq::<u8>::empty(),
        after_reply(after_reply(store, hash), hash) == after_reply(store, hash),
        frame_is_new(store, hash) ==> reply_to(store, hash) == frame_message(
            store.previous.height,
            interleave(store.previous.pixels),
        ) && reply_to(store, hash).len() > 0,
{
    lemma_frame_message_not_empty(store.previous.height, interleave(store.previous.pixels));
}

/// A frame that is not due is never sent.
pub proof fn lemma_not_due_not_sent(store: StoreView, hash: Seq<char>)
    requires
        !store.should_deliver,
    ensures
        reply_to(store, hash) == Seq::<u8>::empty(),
        after_reply(store, hash) == store,
{
}

/// A capture without pixels is never sent.
pub proof fn lemma_empty_never_sent(store: StoreView, hash: Seq<char>)
    requires
        store.wf(),
        store.previous.is_empty(),
    ensures
        reply_to(store, hash) == Seq::<u8>::empty(),
{
}

/// A tick keeps the store well formed, and a poll too.
pub proof fn lemma_steps_keep_wf(store: StoreView, frame: ImageView, threshold: nat, hash: Seq<char>)
    requires
        store.wf(),
        frame.wf(),
    ensures
        after_tick(store, frame, threshold).wf(),
        after_reply(store, hash).wf(),
{
}

/// What a tick found, for the capture loop to act on.
#[derive(Clone, Copy, Debug, PartialEq, Eq)]
pub struct TickOutcome {
    /// The score of the latest capture against the one before it; `None`
    /// while there is no capture with pixels before it.
    pub diff: Option<DiffScore>,
    /// Whether what was kept of the latest capture on disk repeats the
    /// one before it and may be removed.
    pub remove_artifact: bool,
}

/// The score of `current` against the capture before it: the largest score
/// if `current` has no pixels or not as many as `previous`, so that such a
/// pair is never scored by its colours, and the score of their average colours
/// otherwise.
pub fn frame_diff(previous: &RgbImage, current: &RgbImage) -> (diff: DiffScore)
    ensures
        diff@ == frame_diff_spec(previous@, current@),
{
    if current.is_empty() || previous.data().len() != current.data().len() {
        DiffScore::total()
    } else {
        match calc_diff(previous, current) {
            Ok(score) => score,
            Err(_) => unreached(),
        }
    }
}

/// The two most recent captures, whether the older is due to the clients,
/// and the hash of the frame that was last sent.
#[derive(Debug)]
pub struct FrameStore {
    previous: RgbImage,
    current: RgbImage,
    should_deliver: bool,
    last_delivered_hash: String,
}

impl View for FrameStore {
    type V = StoreView;

    closed spec fn view(&self) -> StoreView {
        StoreView {
            previous: self.previous@,
            current: self.current@,
            should_deliver: self.should_deliver,
            last_delivered_hash: self.last_delivered_hash@,
        }
    }
}

impl FrameStore {
    /// Every store is well formed.
    #[verifier::type_invariant]
    pub open spec fn well_formed(self) -> bool {
        self@.wf()
    }

    /// The store before the first capture: no frames, nothing due,
    /// nothing sent.
    pub fn new() -> (store: FrameStore)
        ensures
            store@ == StoreView::initial(),
    {
        let previous: RgbImage = RgbImage::new();
        let current: RgbImage = RgbImage::new();
        FrameStore { previous, current, should_deliver: false, last_delivered_hash: String::new() }
    }

    /// Takes in the capture `frame`: the latest capture becomes the one
    /// before it, and that one is due to the clients if it has pixels and
    /// extent and the score of `frame` against it reaches `threshold`. What
    /// was last sent stays as it is. The outcome tells the score, and whether
    /// `frame` repeats the capture before it and need not be kept.
    pub fn tick(&mut self, frame: RgbImage, threshold: DiffScore) -> (outcome: TickOutcome)
        ensures
            final(self)@ == after_tick(old(self)@, frame@, threshold@),
            outcome_of_tick(old(self)@, frame@, threshold@, outcome),
    {
        proof {
            use_type_invariant(&*self);
            use_type_invariant(&frame);
        }
        self.should_deliver = false;
        core::mem::swap(&mut self.previous, &mut self.current);
        self.current = frame;
        if self.previous.is_empty() {
            return TickOutcome { diff: None, remove_artifact: false };
        }
        let diff: DiffScore = frame_diff(&self.previous, &self.current);
        if diff.at_least(&threshold) {
            if self.previous.height() != 0 && self.previous.width() != 0 {
                self.should_deliver = true;
            }
            TickOutcome { diff: Some(diff), remove_artifact: false }
        } else {
            TickOutcome { diff: Some(diff), remove_artifact: diff.is_zero() }
        }
    }

    /// One turn of the capture loop. A capture that came in is taken in
    /// as [`FrameStore::tick`] does. A capture that failed leaves the store as
    /// it is, and its error is handed on: no frame is made up in its place.
    pub fn advance<E>(&mut self, captured: Result<RgbImage, E>, threshold: DiffScore) -> (outcome:
        Result<TickOutcome, E>)
        ensures
            match captured {
                Ok(frame) => {
                    &&& final(self)@ == after_tick(old(self)@, frame@, threshold@)
                    &&& outcome matches Ok(told)
                    &&& outcome_of_tick(old(self)@, frame@, threshold@, told)
                },
                Err(e) => final(self)@ == old(self)@ && outcome == Err::<TickOutcome, E>(e),
            },
    {
        match captured {
            Ok(frame) => Ok(self.tick(frame, threshold)),
            Err(e) => Err(e),
        }
    }

    /// Answers a poll, given the hash of the offered frame's bytes: the
    /// framed frame if it is due and `hash` is not the hash that was last
    /// sent, and the empty reply otherwise. A frame that is sent is
    /// remembered by `hash`.
    pub fn deliver(&mut self, hash: String) -> (reply: Vec<u8>)
        ensures
            reply@ == reply_to(old(self)@, hash@),
            final(self)@ == after_reply(old(self)@, hash@),
    {
        proof {
            use_type_invariant(&*self);
        }
        if self.should_deliver && !(self.last_delivered_hash == hash) {
            let message: Vec<u8> = encode_frame(&self.previous);
            self.last_delivered_hash = hash;
            message
        } else {
            Vec::new()
        }
    }

    /// Answers a poll: hashes the bytes of the offered frame and sends it
    /// if it is due and was not the last one sent. No frame has the empty
    /// hash of a store that has sent nothing yet, so the first frame that is
    /// due is sent.
    pub fn poll(&mut self) -> (reply: Vec<u8>)
        ensures
            reply@ == reply_to(old(self)@, offered_hash(old(self)@)),
            final(self)@ == after_reply(old(self)@, offered_hash(old(self)@)),
            old(self)@.should_deliver && old(self)@.last_delivered_hash.len() == 0 ==> reply@
                == frame_message(
                old(self)@.previous.height,
                interleave(old(self)@.previous.pixels),
            ),
    {
        let bytes: Vec<u8> = self.previous.as_vec_u8();
        let hash: String = content_hash(&bytes);
        self.deliver(hash)
    }

    /// Takes one request of a connection. The token `more` is answered as a
    /// poll is; anything else, nothing at all too, ends the connection and
    /// leaves the store as it is.
    pub fn serve(&mut self, request: &[u8]) -> (reply: Option<Vec<u8>>)
        ensures
            reply is Some <==> request@ == more_token(),
            reply matches Some(bytes) ==> bytes@ == reply_to(old(self)@, offered_hash(old(self)@))
                && final(self)@ == after_reply(old(self)@, offered_hash(old(self)@)),
            reply is None ==> final(self)@ == old(self)@,
    {
        if is_more_request(request) {
            Some(self.poll())
        } else {
            None
        }
    }

    /// The capture before the latest: the one that is offered to clients.
    pub fn previous(&self) -> (image: &RgbImage)
        ensures
            image@ == self@.previous,
    {
        &self.previous
    }

    /// The latest capture.
    pub fn current(&self) -> (image: &RgbImage)
        ensures
            image@ == self@.current,
    {
        &self.current
    }

    /// Whether the capture before the latest is due to the clients.
    pub fn should_deliver(&self) -> (due: bool)
        ensures
            due == self@.should_deliver,
    {
        self.should_deliver
    }

    /// The hash of the frame that was last sent; empty until one was
    /// sent.
    pub fn last_delivered_hash(&self) -> (hash: &String)
        ensures
            hash@ == self@.last_delivered_hash,
    {
        &self.last_delivered_hash
    }
}

} // verus!
