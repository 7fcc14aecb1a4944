//! The commitments API: method dispatch, request authentication, and the
//! version and metadata queries.
use vstd::prelude::*;
use crate::aggregator::{after_commit, slot_view, Aggregator, Limits, SlotState};
use crate::auth::{auth_fields, parse_auth_header};
use crate::error::{CommitmentError, ParamError};
use crate::request::{request_digest, tx_hashes_of, tx_views, Commitment, InclusionRequest};
use crate::signing::{address_eq, recover_signer};
use crate::validator::{inclusion_error, signed_by, total_gas, validate, ValidatorConfig};

verus! {

pub const GET_VERSION_METHOD: &'static str = "bolt_getVersion";

pub const GET_METADATA_METHOD: &'static str = "bolt_getMetadata";

pub const REQUEST_INCLUSION_METHOD: &'static str = "bolt_requestInclusion";

/// The body served for routes that match nothing.
pub const NOT_FOUND_BODY: &'static str = "404 - Not Found";

/// The body of the liveness route.
pub const STATUS_BODY: &'static str = "OK";

/// The methods of the commitments API.
#[derive(Clone, Copy, Debug, PartialEq, Eq, Structural)]
pub enum RpcMethod {
    GetVersion,
    GetMetadata,
    RequestInclusion,
}

/// The method a name stands for.
pub open spec fn method_named(name: Seq<char>) -> Result<RpcMethod, CommitmentError> {
    if name == GET_VERSION_METHOD@ {
        Ok(RpcMethod::GetVersion)
    } else if name == GET_METADATA_METHOD@ {
        Ok(RpcMethod::GetMetadata)
    } else if name == REQUEST_INCLUSION_METHOD@ {
        Ok(RpcMethod::RequestInclusion)
    } else {
        Err(CommitmentError::UnknownMethod)
    }
}

/// Resolves a method name; an unknown one fails with `UnknownMethod`.
pub fn parse_method(name: &str) -> (r: Result<RpcMethod, CommitmentError>)
    ensures
        r == method_named(name@),
{
    let n = name.to_owned();
    if n == GET_VERSION_METHOD.to_owned() {
        Ok(RpcMethod::GetVersion)
    } else if n == GET_METADATA_METHOD.to_owned() {
        Ok(RpcMethod::GetMetadata)
    } else if n == REQUEST_INCLUSION_METHOD.to_owned() {
        Ok(RpcMethod::RequestInclusion)
    } else {
        Err(CommitmentError::UnknownMethod)
    }
}

/// The fixed response of the catch-all route.
pub fn not_found() -> (r: &'static str)
    ensures
        r@ == NOT_FOUND_BODY@,
{
    NOT_FOUND_BODY
}

/// The fixed response of the liveness route.
pub fn status() -> (r: &'static str)
    ensures
        r@ == STATUS_BODY@,
{
    STATUS_BODY
}

/// The configured limits and the software version.
#[derive(Clone, Debug)]
pub struct MetadataResponse {
    pub limits: Limits,
    pub version: String,
}

/// The result of a successful call.
#[derive(Clone, Debug)]
pub enum RpcResult {
    Version(String),
    Metadata(MetadataResponse),
    Commitment(Commitment),
}

/// The bytes of an optional header.
pub open spec fn header_view(h: Option<&[u8]>) -> Option<Seq<u8>> {
    match h {
        Some(b) => Some(b@),
        None => None,
    }
}

/// How authentication of a request for `slot` with `txs` fails, or `None`
/// where the header is well formed and its signature recovers its signer.
pub open spec fn auth_error(header: Option<Seq<u8>>, slot: u64, txs: Seq<Seq<u8>>) -> Option<CommitmentError> {
    match header {
        None => Some(CommitmentError::InvalidParams(ParamError::MissingAuthHeader)),
        Some(h) => match auth_fields(h) {
            None => Some(CommitmentError::InvalidParams(ParamError::MalformedAuthHeader)),
            Some((a, s)) => if signed_by(slot, txs, Some(s), a) {
                None
            } else {
                Some(CommitmentError::InvalidSignature)
            },
        },
    }
}

/// `r` is what handling `request` with the authentication header `header`
/// gives, and `after` the slots it leaves, from the slots `before`: the
/// authentication failure where there is one, else the validation outcome of
/// the request signed as the header says.
pub open spec fn inclusion_done(
    cfg: ValidatorConfig,
    before: Map<u64, SlotState>,
    after: Map<u64, SlotState>,
    current_slot: u64,
    request: InclusionRequest,
    header: Option<Seq<u8>>,
    r: Result<Commitment, CommitmentError>,
) -> bool {
    let slot = request.slot;
    let txs = tx_views(request.transactions@);
    match auth_error(header, slot, txs) {
        Some(e) => r == Err::<Commitment, CommitmentError>(e) && after == before,
        None => {
            let (a, s) = auth_fields(header.unwrap()).unwrap();
            let failure = inclusion_error(cfg, before, current_slot, slot, txs, Some(s), a);
            match r {
                Ok(c) => {
                    &&& failure is None
                    &&& c.request_digest@ == request_digest(slot, txs)
                    &&& c.signer@ == a
                    &&& c.signature@ == s
                    &&& slot_view(after, slot) == after_commit(slot_view(before, slot), tx_hashes_of(txs), total_gas(txs))
                    &&& forall|t: u64| t != slot ==> slot_view(after, t) == slot_view(before, t)
                },
                Err(e) => failure == Some(e) && after == before,
            }
        },
    }
}

/// The commitment a call's result carries, as the result of an inclusion request.
pub open spec fn as_inclusion_result(r: Result<RpcResult, CommitmentError>) -> Result<Commitment, CommitmentError> {
    match r {
        Ok(RpcResult::Commitment(c)) => Ok(c),
        Ok(_) => Err(CommitmentError::UnknownMethod),
        Err(e) => Err(e),
    }
}

/// The sidecar's commitments API: its configuration, its per-slot state and
/// its version.
pub struct CommitmentsApi {
    pub config: ValidatorConfig,
    pub aggregator: Aggregator,
    pub version: String,
}

impl CommitmentsApi {
    pub open spec fn wf(&self) -> bool {
        self.aggregator.wf()
    }

    /// An API with no slot state yet.
    pub fn new(config: ValidatorConfig, version: String) -> (r: CommitmentsApi)
        ensures
            r.wf(),
            r.config == config,
            r.version == version,
            r.aggregator.slots@ == Map::<u64, SlotState>::empty(),
    {
        CommitmentsApi { config, aggregator: Aggregator::new(), version }
    }

    /// The software version.
    pub fn get_version(&self) -> (r: String)
        ensures
            r@ == self.version@,
    {
        self.version.clone()
    }

    /// The configured per-slot limits.
    pub fn limits(&self) -> (r: Limits)
        ensures
            r == self.config.limits,
    {
        self.config.limits
    }

    /// The configured limits and the software version.
    pub fn get_metadata(&self) -> (r: MetadataResponse)
        ensures
            r.limits == self.config.limits,
            r.version@ == self.version@,
    {
        MetadataResponse { limits: self.limits(), version: self.get_version() }
    }

    /// Authenticates a request by its header, then validates it and records
    /// its constraints. The header must spell the signer and a signature over
    /// the request's digest from which that signer is recovered.
    pub fn request_inclusion(&mut self, request: InclusionRequest, auth_header: Option<&[u8]>, current_slot: u64) -> (r: Result<Commitment, CommitmentError>)
        requires
            old(self).wf(),
        ensures
            final(self).wf(),
            final(self).config == old(self).config,
            final(self).version == old(self).version,
            inclusion_done(old(self).config, old(self).aggregator.slots@, final(self).aggregator.slots@, current_slot, request, header_view(auth_header), r),
    {
        let h = match auth_header {
            Some(h) => h,
            None => return Err(CommitmentError::InvalidParams(ParamError::MissingAuthHeader)),
        };
        let (signer, sig) = match parse_auth_header(h) {
            Ok(p) => p,
            Err(e) => return Err(e),
        };
        let mut request = request;
        request.set_signature(sig);
        let digest = request.digest();
        let recovered = match recover_signer(&digest, &sig) {
            Ok(a) => a,
            Err(_) => return Err(CommitmentError::InvalidSignature),
        };
        if !address_eq(&recovered, &signer) {
            return Err(CommitmentError::InvalidSignature);
        }
        proof {
            assert(recovered@ == signer@);
            assert(recovered == signer);
        }
        request.set_signer(recovered);
        validate(&mut self.aggregator, &self.config, &request, &recovered, current_slot)
    }

    /// Handles one call: `method` names the operation, `param` is the call's
    /// first parameter decoded as a request (or the decoder's message), and
    /// `auth_header` the raw authentication header, if any.
    pub fn rpc_entrypoint(
        &mut self,
        method: &str,
        param: Option<Result<InclusionRequest, String>>,
        auth_header: Option<&[u8]>,
        current_slot: u64,
    ) -> (r: Result<RpcResult, CommitmentError>)
        requires
            old(self).wf(),
        ensures
            final(self).wf(),
            final(self).config == old(self).config,
            final(self).version == old(self).version,
            method_named(method@) is Err ==> r == Err::<RpcResult, CommitmentError>(CommitmentError::UnknownMethod)
                && final(self).aggregator.slots@ == old(self).aggregator.slots@,
            method_named(method@) == Ok::<RpcMethod, CommitmentError>(RpcMethod::GetVersion) ==> (r matches Ok(RpcResult::Version(v))
                && v@ == old(self).version@) && final(self).aggregator.slots@ == old(self).aggregator.slots@,
            method_named(method@) == Ok::<RpcMethod, CommitmentError>(RpcMethod::GetMetadata) ==> (r matches Ok(RpcResult::Metadata(m))
                && m.limits == old(self).config.limits && m.version@ == old(self).version@)
                && final(self).aggregator.slots@ == old(self).aggregator.slots@,
            method_named(method@) == Ok::<RpcMethod, CommitmentError>(RpcMethod::RequestInclusion) ==> {
                &&& auth_header is None ==> r == Err::<RpcResult, CommitmentError>(
                    CommitmentError::InvalidParams(ParamError::MissingAuthHeader),
                )
                &&& (auth_header matches Some(h) && auth_fields(h@) is None) ==> r == Err::<RpcResult, CommitmentError>(
                    CommitmentError::InvalidParams(ParamError::MalformedAuthHeader),
                )
                &&& (auth_header matches Some(h) && auth_fields(h@) is Some && param is None) ==> r
                    == Err::<RpcResult, CommitmentError>(CommitmentError::InvalidParams(ParamError::MissingParam))
                &&& match param {
                    Some(Err(msg)) => (auth_header matches Some(h) && auth_fields(h@) is Some) ==> r
                        == Err::<RpcResult, CommitmentError>(CommitmentError::InvalidJson(msg)),
                    _ => true,
                }
                &&& !(param matches Some(Ok(_))) ==> final(self).aggregator.slots@ == old(self).aggregator.slots@
                &&& match param {
                    Some(Ok(req)) => (auth_header matches Some(h) && auth_fields(h@) is Some) ==> inclusion_done(
                        old(self).config,
                        old(self).aggregator.slots@,
                        final(self).aggregator.slots@,
                        current_slot,
                        req,
                        header_view(auth_header),
                        as_inclusion_result(r),
                    ),
                    _ => true,
                }
                &&& r is Ok ==> (r matches Ok(RpcResult::Commitment(_))) && (param matches Some(Ok(_)))
            },
    {
        let m = match parse_method(method) {
            Ok(m) => m,
            Err(e) => return Err(e),
        };
        match m {
            RpcMethod::GetVersion => Ok(RpcResult::Version(self.get_version())),
            RpcMethod::GetMetadata => Ok(RpcResult::Metadata(self.get_metadata())),
            RpcMethod::RequestInclusion => {
                let h = match auth_header {
                    Some(h) => h,
                    None => return Err(CommitmentError::InvalidParams(ParamError::MissingAuthHeader)),
                };
                match parse_auth_header(h) {
                    Ok(_) => {},
                    Err(e) => return Err(e),
                }
                let request = match param {
                    None => return Err(CommitmentError::InvalidParams(ParamError::MissingParam)),
                    Some(Err(msg)) => return Err(CommitmentError::InvalidJson(msg)),
                    Some(Ok(req)) => req,
                };
                match self.request_inclusion(request, Some(h), current_slot) {
                    Ok(c) => Ok(RpcResult::Commitment(c)),
                    Err(e) => Err(e),
                }
            },
        }
    }
}

} // verus!
