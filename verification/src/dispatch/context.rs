//! Answering a command.

use vstd::prelude::*;
use vstd::utf8::encode_utf8;

use super::spec::DispatchSpec;
use crate::error::RaftError;
use crate::protocol::codec::le::put_slice;

verus! {

#[derive(Clone, Copy, Debug, PartialEq, Eq, Structural)]
pub enum DispatchResponseKind {
    Accepted,
    Rejected,
    Progress,
    Failed,
}

/// What a target answers.
#[derive(Clone, Debug)]
pub struct DispatchResponse {
    pub tx_id: u64,
    pub command: u8,
    pub kind: DispatchResponseKind,
    pub payload: Vec<u8>,
}

/// A command being handled: every answer to it carries its numbers.
#[derive(Clone, Copy, Debug)]
pub struct DispatchContextView {
    pub tx_id: u64,
    pub command: u8,
}

impl DispatchContextView {
    pub fn new(tx_id: u64, command: u8) -> (r: Self)
        ensures
            r == (DispatchContextView { tx_id, command }),
    {
        DispatchContextView { tx_id, command }
    }

    pub fn tx_id(&self) -> (r: u64)
        ensures
            r == self.tx_id,
    {
        self.tx_id
    }

    pub fn command(&self) -> (r: u8)
        ensures
            r == self.command,
    {
        self.command
    }

    /// An answer of this kind.
    pub fn answer(&self, kind: DispatchResponseKind, payload: Vec<u8>) -> (r: DispatchResponse)
        ensures
            r == (DispatchResponse { tx_id: self.tx_id, command: self.command, kind, payload }),
    {
        DispatchResponse { tx_id: self.tx_id, command: self.command, kind, payload }
    }

    pub fn accept_bytes(&self, payload: Vec<u8>) -> (r: DispatchResponse)
        ensures
            r == (DispatchResponse {
                tx_id: self.tx_id,
                command: self.command,
                kind: DispatchResponseKind::Accepted,
                payload,
            }),
    {
        self.answer(DispatchResponseKind::Accepted, payload)
    }

    pub fn progress_bytes(&self, payload: Vec<u8>) -> (r: DispatchResponse)
        ensures
            r == (DispatchResponse {
                tx_id: self.tx_id,
                command: self.command,
                kind: DispatchResponseKind::Progress,
                payload,
            }),
    {
        self.answer(DispatchResponseKind::Progress, payload)
    }

    /// Accepts with `value`, as the command encodes it.
    pub fn accept_with<P, R, EP, DP, ER, DR>(
        &self,
        spec: &DispatchSpec<P, R, EP, DP, ER, DR>,
        value: &R,
    ) -> (r: Result<DispatchResponse, RaftError>) where
        EP: Fn(&P) -> Result<Vec<u8>, RaftError>,
        DP: Fn(&[u8]) -> Result<P, RaftError>,
        ER: Fn(&R) -> Result<Vec<u8>, RaftError>,
        DR: Fn(&[u8]) -> Result<R, RaftError>,

        requires
            call_requires(spec.encode_response, (value,)),
        ensures
            match r {
                Ok(response) => {
                    &&& response.tx_id == self.tx_id
                    &&& response.command == self.command
                    &&& response.kind is Accepted
                    &&& call_ensures(
                        spec.encode_response,
                        (value,),
                        Ok::<Vec<u8>, RaftError>(response.payload),
                    )
                },
                Err(e) => call_ensures(
                    spec.encode_response,
                    (value,),
                    Err::<Vec<u8>, RaftError>(e),
                ),
            },
    {
        match spec.encode_response(value) {
            Err(e) => Err(e),
            Ok(payload) => Ok(self.accept_bytes(payload)),
        }
    }

    /// Turns the command down, with the reason in UTF-8.
    pub fn reject(&self, reason: &str) -> (r: DispatchResponse)
        ensures
            r.tx_id == self.tx_id,
            r.command == self.command,
            r.kind is Rejected,
            r.payload@ == encode_utf8(reason@),
    {
        self.answer(DispatchResponseKind::Rejected, utf8(reason))
    }

    /// Reports that the command failed, with the error in UTF-8.
    pub fn fail(&self, error: &str) -> (r: DispatchResponse)
        ensures
            r.tx_id == self.tx_id,
            r.command == self.command,
            r.kind is Failed,
            r.payload@ == encode_utf8(error@),
    {
        self.answer(DispatchResponseKind::Failed, utf8(error))
    }
}

/// `words` in UTF-8.
fn utf8(words: &str) -> (r: Vec<u8>)
    ensures
        r@ == encode_utf8(words@),
{
    let mut out: Vec<u8> = Vec::new();
    put_slice(&mut out, words.as_bytes());
    assert(out@ =~= encode_utf8(words@));
    out
}

} // verus!
