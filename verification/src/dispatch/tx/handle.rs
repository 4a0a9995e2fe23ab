use vstd::prelude::*;

use super::state::{DispatchCompletion, DispatchState, Outcome, TxModel};
use super::types::{
    standing_of, DispatchPeerResult, DispatchPeerState, DispatchResult, PeerStanding,
};
use crate::dispatch::context::{DispatchResponse, DispatchResponseKind};
use crate::error::RaftError;
use crate::types::PeerId;

verus! {

/// What an outcome says, where it is a failure.
pub open spec fn outcome_text(o: Outcome) -> Seq<char> {
    match o {
        Outcome::Succeeded => Seq::empty(),
        Outcome::Impossible(m) => m,
        Outcome::Failed(m) => m,
        Outcome::TimedOut => "dispatch timed out"@,
        Outcome::LostLeadership => "dispatch aborted: leadership lost"@,
    }
}

/// A look at a command in flight.
#[derive(Clone, Copy, Debug)]
pub struct DispatchHandle<'a, R> {
    pub state: &'a DispatchState<R>,
}

impl<'a, R> DispatchHandle<'a, R> {
    pub fn tx_id(&self) -> (r: u64)
        ensures
            r == self.state@.tx_id,
    {
        self.state.result.tx_id
    }

    pub fn command(&self) -> (r: u8)
        ensures
            r == self.state@.command,
    {
        self.state.result.command
    }

    /// Whether the command has completed.
    pub fn is_ready(&self) -> (r: bool)
        ensures
            r == (self.state@.completion is Some),
    {
        self.state.completion.is_some()
    }

    /// How the command came out, once it has completed.
    pub fn try_result(&self) -> (r: Option<Result<&'a DispatchResult<R>, RaftError>>)
        ensures
            match self.state@.completion {
                None => r is None,
                Some(Outcome::Succeeded) => r matches Some(Ok(result)) && *result
                    == self.state.result,
                Some(failure) => r matches Some(Err(e)) && e.is_dispatch(outcome_text(failure)),
            },
    {
        match &self.state.completion {
            None => None,
            Some(DispatchCompletion::Succeeded) => Some(Ok(&self.state.result)),
            Some(DispatchCompletion::Failed(f)) => Some(Err(f.to_error())),
        }
    }
}

/// How recording a target's new state came out: nothing changes once the
/// command has completed, and only a target has a state.
pub open spec fn recorded<R>(
    before: TxModel<R>,
    peer: PeerId,
    next: spec_fn(DispatchPeerState<R>) -> DispatchPeerState<R>,
    r: Result<(), RaftError>,
    after: TxModel<R>,
) -> bool {
    if before.completion is Some {
        r is Ok && after == before
    } else if !before.targets(peer) {
        (r matches Err(RaftError::PeerUnknown(p)) && p == peer) && after == before
    } else {
        &&& r is Ok
        &&& exists|i: int| #[trigger]
            before.is_slot(peer, i) && after == before.with_state(i, next(before.peers[i].state))
    }
}

/// The state after a progress report: an answer that is already in stays.
pub open spec fn progressed<R>(payload: Vec<u8>) -> spec_fn(
    DispatchPeerState<R>,
) -> DispatchPeerState<R> {
    |current: DispatchPeerState<R>|
        if standing_of(current) == PeerStanding::Waiting {
            DispatchPeerState::Progress(payload)
        } else {
            current
        }
}

/// A command in flight, and how to read its responses.
pub struct DispatchTx<R, F> {
    pub state: DispatchState<R>,
    pub decode_response: F,
}

impl<R, F> DispatchTx<R, F> {
    /// A look at the command.
    pub fn handle(&self) -> (r: DispatchHandle<'_, R>)
        ensures
            *r.state == self.state,
    {
        DispatchHandle { state: &self.state }
    }

    /// Where `peer` stands among the targets.
    fn find(&self, peer: PeerId) -> (r: Option<usize>)
        ensures
            match r {
                Some(i) => self.state@.is_slot(peer, i as int),
                None => !self.state@.targets(peer),
            },
    {
        let size: usize = self.state.result.peers.len();
        let mut i: usize = 0;
        while i < size
            invariant
                i <= size,
                size == self.state.result.peers@.len(),
                forall|j: int|
                    0 <= j < i ==> (#[trigger] self.state.result.peers@[j]).peer != peer,
            decreases size - i,
        {
            if self.state.result.peers[i].peer == peer {
                return Some(i);
            }
            i = i + 1;
        }
        None
    }

    /// Records a target's answer, which replaces whatever it said before.
    fn record(&mut self, peer: PeerId, state: DispatchPeerState<R>) -> (r: Result<(), RaftError>)
        ensures
            recorded(
                old(self).state@,
                peer,
                |_current: DispatchPeerState<R>| state,
                r,
                final(self).state@,
            ),
            final(self).decode_response == old(self).decode_response,
    {
        if self.state.completion.is_some() {
            return Ok(());
        }
        match self.find(peer) {
            None => Err(RaftError::PeerUnknown(peer)),
            Some(i) => {
                let slot = DispatchPeerResult { peer: self.state.result.peers[i].peer, state };
                self.state.result.peers.set(i, slot);
                self.state.evaluate();
                assert(old(self).state@.is_slot(peer, i as int));
                assert(self.state@ == old(self).state@.with_state(i as int, state));
                Ok(())
            },
        }
    }

    pub fn accept(&mut self, peer: PeerId, value: R) -> (r: Result<(), RaftError>)
        ensures
            recorded(
                old(self).state@,
                peer,
                |_current: DispatchPeerState<R>| DispatchPeerState::Accepted(value),
                r,
                final(self).state@,
            ),
            final(self).decode_response == old(self).decode_response,
    {
        self.record(peer, DispatchPeerState::Accepted(value))
    }

    pub fn reject(&mut self, peer: PeerId, reason: Vec<u8>) -> (r: Result<(), RaftError>)
        ensures
            recorded(
                old(self).state@,
                peer,
                |_current: DispatchPeerState<R>| DispatchPeerState::Rejected(reason),
                r,
                final(self).state@,
            ),
            final(self).decode_response == old(self).decode_response,
    {
        self.record(peer, DispatchPeerState::Rejected(reason))
    }

    /// A progress report does not take back an answer.
    pub fn progress(&mut self, peer: PeerId, payload: Vec<u8>) -> (r: Result<(), RaftError>)
        ensures
            recorded(old(self).state@, peer, progressed(payload), r, final(self).state@),
            final(self).decode_response == old(self).decode_response,
    {
        if self.state.completion.is_some() {
            return Ok(());
        }
        match self.find(peer) {
            None => Err(RaftError::PeerUnknown(peer)),
            Some(i) => {
                assert(old(self).state@.is_slot(peer, i as int));
                if self.state.result.peers[i].state.standing() == PeerStanding::Waiting {
                    let slot = DispatchPeerResult {
                        peer: self.state.result.peers[i].peer,
                        state: DispatchPeerState::Progress(payload),
                    };
                    self.state.result.peers.set(i, slot);
                }
                self.state.evaluate();
                proof {
                    let was = old(self).state@.peers[i as int];
                    let next = progressed(payload)(was.state);
                    assert(old(self).state@.peers.update(
                        i as int,
                        DispatchPeerResult { peer: was.peer, state: next },
                    ) =~= self.state@.peers);
                    assert(self.state@ == old(self).state@.with_state(i as int, next));
                }
                Ok(())
            },
        }
    }

    pub fn fail(&mut self, peer: PeerId, error: Vec<u8>) -> (r: Result<(), RaftError>)
        ensures
            recorded(
                old(self).state@,
                peer,
                |_current: DispatchPeerState<R>| DispatchPeerState::Failed(error),
                r,
                final(self).state@,
            ),
            final(self).decode_response == old(self).decode_response,
    {
        self.record(peer, DispatchPeerState::Failed(error))
    }

    pub fn disconnect(&mut self, peer: PeerId) -> (r: Result<(), RaftError>)
        ensures
            recorded(
                old(self).state@,
                peer,
                |_current: DispatchPeerState<R>| DispatchPeerState::Disconnected,
                r,
                final(self).state@,
            ),
            final(self).decode_response == old(self).decode_response,
    {
        self.record(peer, DispatchPeerState::Disconnected)
    }
}

/// How an accept came out whose value reads as `decoded`.
pub open spec fn accepted_as<R>(
    before: TxModel<R>,
    peer: PeerId,
    decoded: Result<R, RaftError>,
    r: Result<(), RaftError>,
    after: TxModel<R>,
) -> bool {
    match decoded {
        Ok(value) => recorded(
            before,
            peer,
            |_current: DispatchPeerState<R>| DispatchPeerState::Accepted(value),
            r,
            after,
        ),
        Err(e) => r == Err::<(), RaftError>(e) && after == before,
    }
}

/// How recording a response came out.
pub open spec fn responded<R, F>(
    tx: DispatchTx<R, F>,
    peer: PeerId,
    response: DispatchResponse,
    r: Result<(), RaftError>,
    after: TxModel<R>,
) -> bool where F: Fn(&[u8]) -> Result<R, RaftError> {
    match response.kind {
        DispatchResponseKind::Accepted => exists|decoded: Result<R, RaftError>| #[trigger]
            tx.decodes(response.payload@, decoded) && accepted_as(
                tx.state@,
                peer,
                decoded,
                r,
                after,
            ),
        DispatchResponseKind::Rejected => recorded(
            tx.state@,
            peer,
            |_current: DispatchPeerState<R>|
                DispatchPeerState::Rejected(response.payload),
            r,
            after,
        ),
        DispatchResponseKind::Progress => recorded(
            tx.state@,
            peer,
            progressed(response.payload),
            r,
            after,
        ),
        DispatchResponseKind::Failed => recorded(
            tx.state@,
            peer,
            |_current: DispatchPeerState<R>| DispatchPeerState::Failed(response.payload),
            r,
            after,
        ),
    }
}

impl<R, F> DispatchTx<R, F> where F: Fn(&[u8]) -> Result<R, RaftError> {
    /// Whether the command's function can read `payload`.
    pub open spec fn reads(self, payload: Seq<u8>) -> bool {
        forall|b: &[u8]| b@ == payload ==> #[trigger] call_requires(self.decode_response, (b,))
    }

    /// Whether the command's function may make `decoded` of `payload`.
    pub open spec fn decodes(self, payload: Seq<u8>, decoded: Result<R, RaftError>) -> bool {
        exists|b: &[u8]| b@ == payload && #[trigger] call_ensures(
            self.decode_response,
            (b,),
            decoded,
        )
    }

    /// Records an accept. A value that cannot be read is an error, and nothing
    /// is recorded.
    pub fn accept_raw(&mut self, peer: PeerId, payload: Vec<u8>) -> (r: Result<(), RaftError>)
        requires
            old(self).reads(payload@),
        ensures
            exists|decoded: Result<R, RaftError>| #[trigger]
                old(self).decodes(payload@, decoded) && accepted_as(
                    old(self).state@,
                    peer,
                    decoded,
                    r,
                    final(self).state@,
                ),
            final(self).decode_response == old(self).decode_response,
    {
        let bytes = payload.as_slice();
        let decoded = (self.decode_response)(bytes);
        assert(old(self).decodes(payload@, decoded));
        match decoded {
            Err(e) => Err(e),
            Ok(value) => self.accept(peer, value),
        }
    }

    /// Records whatever a target answered.
    pub fn on_response(&mut self, peer: PeerId, response: DispatchResponse) -> (r: Result<
        (),
        RaftError,
    >)
        requires
            response.kind is Accepted ==> old(self).reads(response.payload@),
        ensures
            responded(*old(self), peer, response, r, final(self).state@),
            final(self).decode_response == old(self).decode_response,
    {
        match response.kind {
            DispatchResponseKind::Accepted => self.accept_raw(peer, response.payload),
            DispatchResponseKind::Rejected => self.reject(peer, response.payload),
            DispatchResponseKind::Progress => self.progress(peer, response.payload),
            DispatchResponseKind::Failed => self.fail(peer, response.payload),
        }
    }
}

/// Records the answers of one target.
pub struct DispatchTxResponder<R, F> {
    pub peer: PeerId,
    pub tx: DispatchTx<R, F>,
}

impl<R, F> DispatchTxResponder<R, F> {
    pub fn new(peer: PeerId, tx: DispatchTx<R, F>) -> (r: Self)
        ensures
            r.peer == peer,
            r.tx == tx,
    {
        DispatchTxResponder { peer, tx }
    }
}

} // verus!
