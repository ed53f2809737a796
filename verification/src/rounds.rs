//! The per-channel round state machine.
//!
//! A round runs from the moment a level image is presented on a channel to
//! its resolution or expiry.  Events arrive from the transport as plain
//! values; this module decides every transition.  The fetch and the
//! transform happen elsewhere and race against newer events, so a computed
//! fingerprint is committed only after re-checking that the round still
//! shows the image it was computed from; a stale result is discarded
//! without touching the state.

use vstd::prelude::*;

use std::collections::HashMap;

use crate::difficulty::LevelDifficulty;
use crate::level::{valid_name, Coefficients};
use crate::text::{
    ascii_lowercase, bytes_eq, extract_mention, first_mention, mention_value, spec_lower,
};

verus! {

broadcast use vstd::std_specs::hash::group_hash_axioms;

/// The transient state of one channel's round.
pub struct ChannelState {
    /// The image the round shows.
    pub url: Vec<u8>,
    /// The fetched image bytes, once they arrived and were still current.
    pub bytes: Option<Vec<u8>>,
    /// Our best guess and its distance sort key, once computed.
    pub guess: Option<(Vec<u8>, u32)>,
    /// The image's fingerprint, once computed and still current.
    pub coefficients: Option<Coefficients>,
    pub difficulty: LevelDifficulty,
    /// Ledger of submitted guesses: the latest text per author.
    pub guesses: HashMap<u64, Vec<u8>>,
}

impl ChannelState {
    pub open spec fn wf(&self) -> bool {
        &&& match self.coefficients {
            Some(c) => c@.wf(),
            None => true,
        }
        &&& match self.guess {
            Some(g) => valid_name(g.0@),
            None => true,
        }
    }
}

/// A round state as installed by a round-started event: the image and
/// difficulty recorded, everything else yet to come.
pub open spec fn fresh_round(st: ChannelState, url: Seq<u8>, difficulty: LevelDifficulty) -> bool {
    &&& st.url@ == url
    &&& st.bytes is None
    &&& st.guess is None
    &&& st.coefficients is None
    &&& st.difficulty == difficulty
    &&& st.guesses@ == Map::<u64, Vec<u8>>::empty()
}

/// The two states agree on everything but the guess ledger.
pub open spec fn same_but_ledger(a: ChannelState, b: ChannelState) -> bool {
    &&& b.url == a.url
    &&& b.bytes == a.bytes
    &&& b.guess == a.guess
    &&& b.coefficients == a.coefficients
    &&& b.difficulty == a.difficulty
}

/// Would a fingerprint computed against `url` be committed?  Only a round
/// that still shows exactly that image accepts it.
pub open spec fn accepts_fingerprint(
    rounds: Map<u64, ChannelState>,
    channel: u64,
    url: Seq<u8>,
) -> bool {
    rounds.contains_key(channel) && rounds[channel].url@ == url
}

/// Law: a superseding round-started event installs its own image for the
/// channel, and from then on a fingerprint computed against the earlier
/// image is not accepted; the recorded image stays the new one.
pub proof fn lemma_round_staleness(
    rounds: Map<u64, ChannelState>,
    st_b: ChannelState,
    channel: u64,
    url_a: Seq<u8>,
)
    requires
        st_b.url@ != url_a,
    ensures
        !accepts_fingerprint(rounds.insert(channel, st_b), channel, url_a),
        rounds.insert(channel, st_b)[channel].url@ == st_b.url@,
{
}

/// What a round-resolved event decides.
pub enum Resolution {
    /// No round was active on the channel.
    NoRound,
    /// The resolution text named no winner.
    NoWinner,
    /// The winner never submitted a guess; the round is simply dropped.
    NoLedgerEntry,
    /// Our stored guess matches the winning answer: nothing to learn.  The
    /// round's fetched image bytes, if any, ride along for the caller's
    /// archive.
    Correct { name: Vec<u8>, distance_key: u32, image: Option<Vec<u8>> },
    /// The winning answer, case-folded, is to be learned under the round's
    /// difficulty with the round's fingerprint — if one was ever computed —
    /// and the round's fetched image bytes, if any, for the caller's
    /// archive.
    Learn {
        name: Vec<u8>,
        difficulty: LevelDifficulty,
        coefficients: Option<Coefficients>,
        image: Option<Vec<u8>>,
    },
}

/// The per-channel round map and its transitions.  Callers that share it
/// across tasks put it behind a reader/writer lock held only for the
/// in-memory update, never across a fetch or a transform.
pub struct Handler {
    pub rounds: HashMap<u64, ChannelState>,
}

impl Handler {
    pub open spec fn wf(&self) -> bool {
        forall|c: u64| self.rounds@.contains_key(c) ==> (#[trigger] self.rounds@[c]).wf()
    }

    pub fn new() -> (h: Handler)
        ensures
            h.wf(),
            h.rounds@ == Map::<u64, ChannelState>::empty(),
    {
        Handler { rounds: HashMap::new() }
    }

    /// A round-started event.  If the channel already shows exactly this
    /// image the event is a redundant re-notification and is ignored;
    /// otherwise any prior round is discarded outright and a fresh state is
    /// installed at once, before any fetch begins.
    pub fn round_started(&mut self, channel: u64, url: Vec<u8>, difficulty: LevelDifficulty) -> (started:
        bool)
        requires
            old(self).wf(),
        ensures
            final(self).wf(),
            started == !(old(self).rounds@.contains_key(channel) && old(self).rounds@[channel].url@ == url@),
            !started ==> final(self).rounds@ == old(self).rounds@,
            started ==> {
                &&& final(self).rounds@.dom() == old(self).rounds@.dom().insert(channel)
                &&& forall|c: u64|
                    c != channel && old(self).rounds@.contains_key(c) ==> final(self).rounds@[c] == old(self).rounds@[c]
                &&& fresh_round(final(self).rounds@[channel], url@, difficulty)
            },
    {
        let same = match self.rounds.get(&channel) {
            Some(st) => bytes_eq(&st.url, &url),
            None => false,
        };
        if same {
            return false;
        }
        let fresh = ChannelState {
            url,
            bytes: None,
            guess: None,
            coefficients: None,
            difficulty,
            guesses: HashMap::new(),
        };
        self.rounds.insert(channel, fresh);
        proof {
            assert(self.rounds@.dom() =~= old(self).rounds@.dom().insert(channel));
        }
        true
    }

    /// A submitted guess.  Recorded into the round's ledger whatever phase
    /// the round is in; with no round active there is no ledger and the
    /// text is dropped.
    pub fn guess_submitted(&mut self, channel: u64, author: u64, text: Vec<u8>) -> (recorded: bool)
        requires
            old(self).wf(),
        ensures
            final(self).wf(),
            recorded == old(self).rounds@.contains_key(channel),
            !recorded ==> final(self).rounds@ == old(self).rounds@,
            recorded ==> {
                &&& final(self).rounds@.dom() == old(self).rounds@.dom()
                &&& forall|c: u64|
                    c != channel && old(self).rounds@.contains_key(c) ==> final(self).rounds@[c] == old(self).rounds@[c]
                &&& same_but_ledger(old(self).rounds@[channel], final(self).rounds@[channel])
                &&& final(self).rounds@[channel].guesses@ == old(self).rounds@[channel].guesses@.insert(author, text)
            },
    {
        match self.rounds.remove(&channel) {
            None => false,
            Some(st) => {
                let mut st = st;
                st.guesses.insert(author, text);
                self.rounds.insert(channel, st);
                proof {
                    assert(self.rounds@.dom() =~= old(self).rounds@.dom());
                }
                true
            },
        }
    }

    /// The fetched image's fingerprint is ready.  Committed only when the
    /// round still shows the image it was computed from; a result for a
    /// superseded or vanished round is discarded with no state change.
    pub fn fingerprint_ready(
        &mut self,
        channel: u64,
        url: &Vec<u8>,
        image: Vec<u8>,
        coefficients: Coefficients,
    ) -> (accepted: bool)
        requires
            old(self).wf(),
            coefficients.wf(),
        ensures
            final(self).wf(),
            accepted == accepts_fingerprint(old(self).rounds@, channel, url@),
            !accepted ==> final(self).rounds@ == old(self).rounds@,
            accepted ==> {
                &&& final(self).rounds@.dom() == old(self).rounds@.dom()
                &&& forall|c: u64|
                    c != channel && old(self).rounds@.contains_key(c) ==> final(self).rounds@[c] == old(self).rounds@[c]
                &&& ({
                    let st0 = old(self).rounds@[channel];
                    let st1 = final(self).rounds@[channel];
                    &&& st1.url == st0.url
                    &&& st1.guess == st0.guess
                    &&& st1.difficulty == st0.difficulty
                    &&& st1.guesses == st0.guesses
                    &&& st1.bytes == Some(image)
                    &&& st1.coefficients == Some(coefficients)
                })
            },
    {
        match self.rounds.remove(&channel) {
            None => false,
            Some(st) => {
                if bytes_eq(&st.url, url) {
                    let mut st = st;
                    st.bytes = Some(image);
                    st.coefficients = Some(coefficients);
                    self.rounds.insert(channel, st);
                    proof {
                        assert(self.rounds@.dom() =~= old(self).rounds@.dom());
                    }
                    true
                } else {
                    self.rounds.insert(channel, st);
                    proof {
                        assert(self.rounds@ =~= old(self).rounds@);
                    }
                    false
                }
            },
        }
    }

    /// The matcher's answer for the round's fingerprint.  Committed under
    /// the same re-check as the fingerprint itself.
    pub fn record_guess(&mut self, channel: u64, url: &Vec<u8>, name: Vec<u8>, distance_key: u32) -> (accepted:
        bool)
        requires
            old(self).wf(),
            valid_name(name@),
        ensures
            final(self).wf(),
            accepted == accepts_fingerprint(old(self).rounds@, channel, url@),
            !accepted ==> final(self).rounds@ == old(self).rounds@,
            accepted ==> {
                &&& final(self).rounds@.dom() == old(self).rounds@.dom()
                &&& forall|c: u64|
                    c != channel && old(self).rounds@.contains_key(c) ==> final(self).rounds@[c] == old(self).rounds@[c]
                &&& ({
                    let st0 = old(self).rounds@[channel];
                    let st1 = final(self).rounds@[channel];
                    &&& st1.url == st0.url
                    &&& st1.bytes == st0.bytes
                    &&& st1.coefficients == st0.coefficients
                    &&& st1.difficulty == st0.difficulty
                    &&& st1.guesses == st0.guesses
                    &&& st1.guess == Some((name, distance_key))
                })
            },
    {
        match self.rounds.remove(&channel) {
            None => false,
            Some(st) => {
                if bytes_eq(&st.url, url) {
                    let mut st = st;
                    st.guess = Some((name, distance_key));
                    self.rounds.insert(channel, st);
                    proof {
                        assert(self.rounds@.dom() =~= old(self).rounds@.dom());
                    }
                    true
                } else {
                    self.rounds.insert(channel, st);
                    proof {
                        assert(self.rounds@ =~= old(self).rounds@);
                    }
                    false
                }
            },
        }
    }

    /// A round-timed-out event: the round's state is removed outright; the
    /// catalogue is untouched.
    pub fn round_timeout(&mut self, channel: u64)
        requires
            old(self).wf(),
        ensures
            final(self).wf(),
            final(self).rounds@ == old(self).rounds@.remove(channel),
    {
        self.rounds.remove(&channel);
    }

    /// A round-resolved event.  The round's state is removed whatever the
    /// outcome.  The winner is the first author mentioned in the resolution
    /// text; their last submitted guess, case-folded, is held against our
    /// stored guess.  On a match nothing is learned; on a mismatch the
    /// submitted answer is handed back to be learned under the round's
    /// difficulty.
    pub fn round_resolved(&mut self, channel: u64, desc: &Vec<u8>) -> (r: Resolution)
        requires
            old(self).wf(),
        ensures
            final(self).wf(),
            final(self).rounds@ == old(self).rounds@.remove(channel),
            ({
                let had = old(self).rounds@.contains_key(channel);
                let st = old(self).rounds@[channel];
                let found = first_mention(desc@) is Some && mention_value(
                    desc@,
                    first_mention(desc@)->Some_0,
                ) <= u64::MAX;
                let winner = mention_value(desc@, first_mention(desc@)->Some_0) as u64;
                match r {
                    Resolution::NoRound => !had,
                    Resolution::NoWinner => had && !found,
                    Resolution::NoLedgerEntry => had && found && !st.guesses@.contains_key(winner),
                    Resolution::Correct { name, distance_key, image } => {
                        &&& had
                        &&& found
                        &&& st.guesses@.contains_key(winner)
                        &&& st.guess == Some((name, distance_key))
                        &&& name@ == spec_lower(st.guesses@[winner]@)
                        &&& image == st.bytes
                    },
                    Resolution::Learn { name, difficulty, coefficients, image } => {
                        &&& had
                        &&& found
                        &&& st.guesses@.contains_key(winner)
                        &&& name@ == spec_lower(st.guesses@[winner]@)
                        &&& difficulty == st.difficulty
                        &&& coefficients == st.coefficients
                        &&& image == st.bytes
                        &&& match st.guess {
                            Some(g) => g.0@ != name@,
                            None => true,
                        }
                    },
                }
            }),
    {
        match self.rounds.remove(&channel) {
            None => Resolution::NoRound,
            Some(st) => {
                match extract_mention(desc) {
                    None => Resolution::NoWinner,
                    Some(winner) => {
                        match st.guesses.get(&winner) {
                            None => Resolution::NoLedgerEntry,
                            Some(text) => {
                                let lowered = ascii_lowercase(text);
                                let correct = match &st.guess {
                                    Some(g) => bytes_eq(&g.0, &lowered),
                                    None => false,
                                };
                                if correct {
                                    match st.guess {
                                        Some(g) => Resolution::Correct {
                                            name: g.0,
                                            distance_key: g.1,
                                            image: st.bytes,
                                        },
                                        // `correct` can only hold with a stored guess
                                        None => vstd::pervasive::unreached(),
                                    }
                                } else {
                                    Resolution::Learn {
                                        name: lowered,
                                        difficulty: st.difficulty,
                                        coefficients: st.coefficients,
                                        image: st.bytes,
                                    }
                                }
                            },
                        }
                    },
                }
            },
        }
    }
}

} // verus!
