//! The debounce state machine: a recognised track is announced only after two
//! consecutive recognitions agree, and is not announced again while it stays
//! the confirmed track.

use vstd::prelude::*;
use crate::recognition::{
    spec_track_from_response, spec_track_identity, track_identity, RecognitionError, ShazamResponse,
    ShazamTrack,
};

verus! {

/// Remembers the announced track and the previous recognition.
pub struct StabilityTracker {
    confirmed: Option<String>,
    confirmed_at: i64,
    candidate: Option<String>,
}

/// What a successful recognition leads to.
#[derive(Clone, Copy, Debug, PartialEq, Eq, Structural)]
pub enum Decision {
    /// The track is the one already announced.
    Suppressed,
    /// The track matched the previous recognition and is now confirmed.
    Announce,
    /// The track is a new candidate, awaiting a second recognition.
    Pending,
}

/// View of an optional string.
pub open spec fn option_view(o: Option<String>) -> Option<Seq<char>> {
    match o {
        Some(s) => Some(s@),
        None => None,
    }
}

impl StabilityTracker {
    pub closed spec fn confirmed(&self) -> Option<Seq<char>> {
        option_view(self.confirmed)
    }

    pub closed spec fn candidate(&self) -> Option<Seq<char>> {
        option_view(self.candidate)
    }

    /// When the confirmed track was confirmed, as the caller's clock gave it.
    pub closed spec fn confirmed_at(&self) -> i64 {
        self.confirmed_at
    }

    /// Nothing confirmed, no candidate.
    pub fn new() -> (r: StabilityTracker)
        ensures
            r.confirmed() is None,
            r.candidate() is None,
    {
        StabilityTracker { confirmed: None, confirmed_at: 0, candidate: None }
    }

    /// The transition for one recognised track identity at time `now`: a track
    /// equal to the confirmed one is suppressed; one equal to the previous
    /// recognition is confirmed and announced; any other becomes the candidate.
    pub open spec fn observed(
        before: StabilityTracker,
        after: StabilityTracker,
        identity: Seq<char>,
        now: i64,
        d: Decision,
    ) -> bool {
        if before.confirmed() == Some(identity) {
            &&& d == Decision::Suppressed
            &&& after.confirmed() == before.confirmed()
            &&& after.confirmed_at() == before.confirmed_at()
            &&& after.candidate() == before.candidate()
        } else if before.candidate() == Some(identity) {
            &&& d == Decision::Announce
            &&& after.confirmed() == Some(identity)
            &&& after.confirmed_at() == now
            &&& after.candidate() == Some(identity)
        } else {
            &&& d == Decision::Pending
            &&& after.confirmed() == before.confirmed()
            &&& after.confirmed_at() == before.confirmed_at()
            &&& after.candidate() == Some(identity)
        }
    }

    /// Nothing changes.
    pub open spec fn unchanged(before: StabilityTracker, after: StabilityTracker) -> bool {
        &&& after.confirmed() == before.confirmed()
        &&& after.confirmed_at() == before.confirmed_at()
        &&& after.candidate() == before.candidate()
    }

    /// Takes in the identity of a recognised track, at time `now`.
    pub fn observe(&mut self, identity: &String, now: i64) -> (d: Decision)
        ensures
            Self::observed(*old(self), *final(self), identity@, now, d),
    {
        let same_as_confirmed = match &self.confirmed {
            Some(c) => c.eq(identity),
            None => false,
        };
        if same_as_confirmed {
            return Decision::Suppressed;
        }
        let same_as_candidate = match &self.candidate {
            Some(c) => c.eq(identity),
            None => false,
        };
        if same_as_candidate {
            self.confirmed = Some(identity.clone());
            self.confirmed_at = now;
            Decision::Announce
        } else {
            self.candidate = Some(identity.clone());
            Decision::Pending
        }
    }

    /// Takes in the outcome of one recognition attempt, at time `now`. A failed
    /// attempt, whatever its error, leaves the state as it is.
    pub fn observe_outcome(
        &mut self,
        outcome: &Result<ShazamTrack, RecognitionError>,
        now: i64,
    ) -> (r: Option<Decision>)
        ensures
            Self::outcome_observed(*old(self), *final(self), *outcome, now, r),
    {
        match outcome {
            Ok(track) => {
                let identity = track_identity(track);
                Some(self.observe(&identity, now))
            },
            Err(_) => None,
        }
    }

    pub open spec fn outcome_observed(
        before: StabilityTracker,
        after: StabilityTracker,
        outcome: Result<ShazamTrack, RecognitionError>,
        now: i64,
        r: Option<Decision>,
    ) -> bool {
        match outcome {
            Ok(track) => r is Some && Self::observed(
                before,
                after,
                spec_track_identity(track),
                now,
                r->Some_0,
            ),
            Err(_) => r is None && Self::unchanged(before, after),
        }
    }

    /// The confirmed track and when it was confirmed.
    pub fn last_confirmed(&self) -> (r: Option<(String, i64)>)
        ensures
            match r {
                Some((id, at)) => self.confirmed() == Some(id@) && at == self.confirmed_at(),
                None => self.confirmed() is None,
            },
    {
        match &self.confirmed {
            Some(c) => Some((c.clone(), self.confirmed_at)),
            None => None,
        }
    }
}

/// A response that names no track is a `NoMatch`, and taking that outcome in
/// leaves the tracker's state as it was.
pub proof fn lemma_no_match_keeps_state(
    response: ShazamResponse,
    before: StabilityTracker,
    after: StabilityTracker,
    now: i64,
    r: Option<Decision>,
)
    requires
        response.track is None,
        StabilityTracker::outcome_observed(before, after, spec_track_from_response(response), now, r),
    ensures
        spec_track_from_response(response) == Err::<ShazamTrack, RecognitionError>(
            RecognitionError::NoMatch,
        ),
        r is None,
        StabilityTracker::unchanged(before, after),
{
}

} // verus!
