//! Building a signed request: the credentials, the timestamp and
//! signature injection, and the method-aware placement of parameters as
//! query pairs or a JSON body.

use vstd::prelude::*;

use crate::json::{json_render, json_value};
use crate::params::{
    entries_set, lemma_entries_set_scalar_shape, lemma_model_entries, lemma_obj_set_model,
    lemma_sorted_lookup, model_entries, ParamModel, ParamValue,
};
use crate::sign::{get_signature, signature_of};
use crate::text::{dec_int, i64_to_dec};

verus! {

/// The header that carries the raw access key.
pub const ACCESS_KEY_HEADER: &'static str = "x-bit-access-key";

/// The fixed protocol identifier header and its value.
pub const LANGUAGE_TYPE_HEADER: &'static str = "language-type";

pub const LANGUAGE_TYPE_VALUE: &'static str = "1";

/// The access key, secret key and base URL of one client: immutable for
/// the client's lifetime.
pub struct Credentials {
    pub access_key: String,
    pub secret_key: String,
    pub base_url: String,
}

impl Credentials {
    /// Hold the credential triple. HMAC-SHA256 accepts keys of any
    /// length, so no secret is rejected here.
    pub fn new(access_key: &str, secret_key: &str, base_url: &str) -> (r: Credentials)
        ensures
            r.access_key@ == access_key@,
            r.secret_key@ == secret_key@,
            r.base_url@ == base_url@,
    {
        Credentials {
            access_key: access_key.to_owned(),
            secret_key: secret_key.to_owned(),
            base_url: base_url.to_owned(),
        }
    }
}

/// The HTTP method of a request.
#[derive(Clone, Copy, PartialEq, Eq, Structural, Debug)]
pub enum HttpMethod {
    Get,
    Post,
}

/// Why a request could not be built.
#[derive(Clone, Copy, PartialEq, Eq, Structural, Debug)]
pub enum RequestError {
    /// The parameters are not a mapping.
    NotAnObject,
    /// A GET request carries a nested value, which the query string
    /// cannot hold.
    NonScalarQueryValue,
}

/// Where the signed parameters travel: the query string for GET, a JSON
/// body for everything else.
pub enum RequestPayload {
    Query(Vec<(String, String)>),
    JsonBody(String),
}

/// A fully built request, ready for a transport to send: the absolute
/// URL, the method, the access key for its header, and the payload.
pub struct PreparedRequest {
    pub url: String,
    pub method: HttpMethod,
    pub access_key: String,
    pub payload: RequestPayload,
}

/// The query-string text of a scalar; nested values have none.
pub open spec fn scalar_text(m: ParamModel) -> Seq<char> {
    match m {
        ParamModel::Bool(b) => if b {
            "true"@
        } else {
            "false"@
        },
        ParamModel::Int(n) => dec_int(n),
        ParamModel::Str(s) => s,
        _ => Seq::empty(),
    }
}

/// Every entry of the mapping holds a scalar.
pub open spec fn all_scalar(m: ParamModel) -> bool {
    forall|i: int|
        0 <= i < m.obj_entries().len() ==> (#[trigger] m.obj_entries()[i].1).is_scalar()
}

/// The parameters with the nonce bound to `timestamp`.
pub open spec fn with_timestamp(params: ParamModel, ts: int) -> ParamModel {
    params.obj_set("timestamp"@, ParamModel::Int(ts))
}

/// The parameters as they are sent: the nonce under `timestamp`, then the
/// signature over path and parameters-with-timestamp under `signature`.
pub open spec fn signed_params(
    secret: Seq<char>,
    path: Seq<char>,
    params: ParamModel,
    ts: int,
) -> ParamModel {
    with_timestamp(params, ts).obj_set(
        "signature"@,
        ParamModel::Str(signature_of(secret, path, with_timestamp(params, ts))),
    )
}

/// The views of built query pairs.
pub open spec fn query_view(q: Seq<(String, String)>) -> Seq<(Seq<char>, Seq<char>)> {
    Seq::new(q.len(), |i: int| (q[i].0@, q[i].1@))
}

/// The query pairs a mapping denotes: each key with its scalar's text, in
/// entry order.
pub open spec fn query_of(m: ParamModel) -> Seq<(Seq<char>, Seq<char>)> {
    Seq::new(m.obj_entries().len(), |i: int| (m.obj_entries()[i].0, scalar_text(m.obj_entries()[i].1)))
}

/// What a well-built request looks like for given inputs.
pub open spec fn request_matches(
    req: PreparedRequest,
    access_key: Seq<char>,
    base_url: Seq<char>,
    secret: Seq<char>,
    path: Seq<char>,
    method: HttpMethod,
    params: ParamModel,
    ts: int,
) -> bool {
    let signed = signed_params(secret, path, params, ts);
    &&& req.url@ == base_url + path
    &&& req.method == method
    &&& req.access_key@ == access_key
    &&& match method {
        HttpMethod::Get => req.payload matches RequestPayload::Query(q) && query_view(q@)
            == query_of(signed),
        HttpMethod::Post => req.payload matches RequestPayload::JsonBody(b) && b@ == json_value(
            signed,
        ),
    }
}

/// The query text of a scalar value; nothing for nested values.
fn render_scalar(v: &ParamValue) -> (r: Option<String>)
    ensures
        r is Some <==> v@.is_scalar(),
        r matches Some(s) ==> s@ == scalar_text(v@),
{
    match v {
        ParamValue::Bool(b) => {
            if *b {
                Some(String::from_str("true"))
            } else {
                Some(String::from_str("false"))
            }
        },
        ParamValue::Int(n) => Some(i64_to_dec(*n)),
        ParamValue::Str(s) => Some(s.clone()),
        ParamValue::Arr(_) => None,
        ParamValue::Obj(_) => None,
    }
}

/// The query pairs for a mapping of scalars; the error when any value is
/// nested.
fn build_query(v: &ParamValue) -> (r: Result<Vec<(String, String)>, RequestError>)
    ensures
        r matches Ok(q) ==> all_scalar(v@) && query_view(q@) == query_of(v@),
        r is Err ==> r == Err::<Vec<(String, String)>, RequestError>(
            RequestError::NonScalarQueryValue,
        ) && !all_scalar(v@),
        all_scalar(v@) ==> r is Ok,
{
    match v {
        ParamValue::Obj(entries) => {
            let ghost ms = model_entries(entries@);
            proof {
                lemma_model_entries(entries@);
            }
            let mut q: Vec<(String, String)> = Vec::new();
            let n = entries.len();
            let mut i: usize = 0;
            while i < n
                invariant
                    *v == ParamValue::Obj(*entries),
                    ms == model_entries(entries@),
                    ms.len() == n,
                    n == entries@.len(),
                    forall|j: int|
                        0 <= j < n ==> ms[j] == (#[trigger] entries@[j].0@, entries@[j].1.model()),
                    i <= n,
                    q@.len() == i,
                    forall|j: int| 0 <= j < i ==> (#[trigger] ms[j].1).is_scalar(),
                    forall|j: int|
                        0 <= j < i ==> ((#[trigger] q@[j]).0@, q@[j].1@) == (
                            ms[j].0,
                            scalar_text(ms[j].1),
                        ),
                decreases n - i,
            {
                let key = entries[i].0.clone();
                proof {
                    assert(ms[i as int] == (entries@[i as int].0@, entries@[i as int].1.model()));
                }
                match render_scalar(&entries[i].1) {
                    Some(text) => {
                        q.push((key, text));
                    },
                    None => {
                        assert(v@.obj_entries() == ms);
                        assert(!(v@.obj_entries()[i as int].1).is_scalar());
                        return Err(RequestError::NonScalarQueryValue);
                    },
                }
                i = i + 1;
            }
            proof {
                assert(v@.obj_entries() == ms);
                assert forall|j: int| 0 <= j < v@.obj_entries().len() implies (
                #[trigger] v@.obj_entries()[j].1).is_scalar() by {
                    assert(ms[j].1.is_scalar());
                }
                assert(query_view(q@) =~= query_of(v@));
            }
            Ok(q)
        },
        _ => {
            let q: Vec<(String, String)> = Vec::new();
            proof {
                assert(!(v@ is Obj));
                assert(v@.obj_entries() =~= Seq::<(Seq<char>, ParamModel)>::empty());
                assert(query_view(q@) =~= query_of(v@));
            }
            Ok(q)
        },
    }
}

/// Build one signed request: bind the nonce to `timestamp`, sign the
/// parameters as they then stand, bind the signature to `signature`, and
/// place the result in the query string for GET or in a JSON body
/// otherwise. The caller's value is taken and returned augmented inside
/// the request; the caller's own copy is never mutated.
pub fn prepare_private_request(
    creds: &Credentials,
    path: &str,
    method: HttpMethod,
    params: ParamValue,
    timestamp_ms: i64,
) -> (r: Result<PreparedRequest, RequestError>)
    requires
        params@.wf(),
    ensures
        r matches Ok(req) ==> params@ is Obj && request_matches(
            req,
            creds.access_key@,
            creds.base_url@,
            creds.secret_key@,
            path@,
            method,
            params@,
            timestamp_ms as int,
        ),
        r == Err::<PreparedRequest, RequestError>(RequestError::NotAnObject) <==> !(params@
            is Obj),
        r == Err::<PreparedRequest, RequestError>(RequestError::NonScalarQueryValue) <==> (
        params@ is Obj && method == HttpMethod::Get && !all_scalar(
            signed_params(creds.secret_key@, path@, params@, timestamp_ms as int),
        )),
        params@ is Obj && (method == HttpMethod::Post || all_scalar(
            signed_params(creds.secret_key@, path@, params@, timestamp_ms as int),
        )) ==> r is Ok,
{
    let ghost gparams = params@;
    let is_obj = match &params {
        ParamValue::Obj(_) => true,
        _ => false,
    };
    if !is_obj {
        return Err(RequestError::NotAnObject);
    }
    proof {
        lemma_obj_set_model(gparams, "timestamp"@, ParamModel::Int(timestamp_ms as int));
    }
    let with_ts = params.obj_set(String::from_str("timestamp"), ParamValue::Int(timestamp_ms));
    let sig = get_signature(creds.secret_key.as_str(), path, &with_ts);
    proof {
        lemma_obj_set_model(with_ts@, "signature"@, ParamModel::Str(sig@));
    }
    let signed = with_ts.obj_set(String::from_str("signature"), ParamValue::Str(sig));
    let ghost gsigned = signed_params(
        creds.secret_key@,
        path@,
        gparams,
        timestamp_ms as int,
    );
    proof {
        assert(signed@ == gsigned);
    }
    let mut url = String::new();
    url.append(creds.base_url.as_str());
    url.append(path);
    proof {
        assert(url@ =~= creds.base_url@ + path@);
    }
    let payload = match method {
        HttpMethod::Get => {
            match build_query(&signed) {
                Ok(q) => RequestPayload::Query(q),
                Err(e) => {
                    return Err(e);
                },
            }
        },
        HttpMethod::Post => RequestPayload::JsonBody(json_render(&signed)),
    };
    Ok(
        PreparedRequest {
            url,
            method,
            access_key: creds.access_key.clone(),
            payload,
        },
    )
}

/// Whether the signed parameters are all scalars is decided by the
/// caller's parameters and the two injected scalars alone; the nonce's
/// value plays no part.
pub proof fn lemma_signed_scalar_timestamp_independent(
    secret: Seq<char>,
    path: Seq<char>,
    params: ParamModel,
    ts1: int,
    ts2: int,
)
    requires
        params is Obj,
    ensures
        all_scalar(signed_params(secret, path, params, ts1)) == all_scalar(
            signed_params(secret, path, params, ts2),
        ),
{
    let es = params.obj_entries();
    lemma_entries_set_scalar_shape(es, es, "timestamp"@, ParamModel::Int(ts1), ParamModel::Int(ts2));
    let w1 = entries_set(es, "timestamp"@, ParamModel::Int(ts1));
    let w2 = entries_set(es, "timestamp"@, ParamModel::Int(ts2));
    let sig1 = ParamModel::Str(signature_of(secret, path, with_timestamp(params, ts1)));
    let sig2 = ParamModel::Str(signature_of(secret, path, with_timestamp(params, ts2)));
    lemma_entries_set_scalar_shape(w1, w2, "signature"@, sig1, sig2);
    let s1 = signed_params(secret, path, params, ts1).obj_entries();
    let s2 = signed_params(secret, path, params, ts2).obj_entries();
    assert(s1 == entries_set(w1, "signature"@, sig1));
    assert(s2 == entries_set(w2, "signature"@, sig2));
    if all_scalar(signed_params(secret, path, params, ts1)) {
        assert forall|i: int| 0 <= i < s2.len() implies (#[trigger] s2[i].1).is_scalar() by {
            assert(s1[i].1.is_scalar());
            assert(s1[i].1.is_scalar() == s2[i].1.is_scalar());
        }
    }
    if all_scalar(signed_params(secret, path, params, ts2)) {
        assert forall|i: int| 0 <= i < s1.len() implies (#[trigger] s1[i].1).is_scalar() by {
            assert(s2[i].1.is_scalar());
            assert(s1[i].1.is_scalar() == s2[i].1.is_scalar());
        }
    }
}

/// Relies on chrono's `Utc::now().timestamp_millis()` for the wall-clock
/// nonce; the clock decides the value, so nothing is promised of it.
#[verifier::external_body]
pub fn current_timestamp_millis() -> i64 {
    chrono::Utc::now().timestamp_millis()
}

/// Build one signed request with the nonce taken from the wall clock.
pub fn prepare_private_request_now(
    creds: &Credentials,
    path: &str,
    method: HttpMethod,
    params: ParamValue,
) -> (r: Result<PreparedRequest, RequestError>)
    requires
        params@.wf(),
    ensures
        r matches Ok(req) ==> params@ is Obj && exists|ts: int|
            #[trigger] request_matches(
                req,
                creds.access_key@,
                creds.base_url@,
                creds.secret_key@,
                path@,
                method,
                params@,
                ts,
            ),
        r == Err::<PreparedRequest, RequestError>(RequestError::NotAnObject) <==> !(params@
            is Obj),
        params@ is Obj && method == HttpMethod::Post ==> r is Ok,
        params@ is Obj && method == HttpMethod::Get && (forall|ts: int|
            all_scalar(
                #[trigger] signed_params(creds.secret_key@, path@, params@, ts),
            )) ==> r is Ok,
        r == Err::<PreparedRequest, RequestError>(RequestError::NonScalarQueryValue) <==> (
        params@ is Obj && method == HttpMethod::Get && !(forall|ts: int|
            all_scalar(#[trigger] signed_params(creds.secret_key@, path@, params@, ts)))),
{
    let ts = current_timestamp_millis();
    let r = prepare_private_request(creds, path, method, params, ts);
    proof {
        if r is Ok {
            assert(request_matches(
                r->Ok_0,
                creds.access_key@,
                creds.base_url@,
                creds.secret_key@,
                path@,
                method,
                params@,
                ts as int,
            ));
        }
        if params@ is Obj && !(forall|ts2: int|
            all_scalar(#[trigger] signed_params(creds.secret_key@, path@, params@, ts2)))  {
            let ts0 = choose|ts2: int|
                !all_scalar(#[trigger] signed_params(creds.secret_key@, path@, params@, ts2));
            lemma_signed_scalar_timestamp_independent(
                creds.secret_key@,
                path@,
                params@,
                ts as int,
                ts0,
            );
        }
    }
    r
}

/// The signed parameters carry exactly the caller's fields plus
/// `timestamp` and `signature`, and stay well-formed.
pub proof fn lemma_signed_params_fields(
    secret: Seq<char>,
    path: Seq<char>,
    params: ParamModel,
    ts: int,
)
    requires
        params is Obj,
        params.wf(),
    ensures
        signed_params(secret, path, params, ts) is Obj,
        signed_params(secret, path, params, ts).wf(),
        signed_params(secret, path, params, ts).obj_map() == params.obj_map().insert(
            "timestamp"@,
            ParamModel::Int(ts),
        ).insert(
            "signature"@,
            ParamModel::Str(signature_of(secret, path, with_timestamp(params, ts))),
        ),
{
    lemma_obj_set_model(params, "timestamp"@, ParamModel::Int(ts));
    lemma_obj_set_model(
        with_timestamp(params, ts),
        "signature"@,
        ParamModel::Str(signature_of(secret, path, with_timestamp(params, ts))),
    );
}

/// A GET request's query pairs carry the nonce under `timestamp` and the
/// signature under `signature`.
pub proof fn lemma_get_query_carries_auth(
    secret: Seq<char>,
    path: Seq<char>,
    params: ParamModel,
    ts: int,
)
    requires
        params is Obj,
        params.wf(),
    ensures
        exists|i: int|
            0 <= i < query_of(signed_params(secret, path, params, ts)).len() && #[trigger] query_of(
                signed_params(secret, path, params, ts),
            )[i] == ("timestamp"@, dec_int(ts)),
        exists|i: int|
            0 <= i < query_of(signed_params(secret, path, params, ts)).len() && #[trigger] query_of(
                signed_params(secret, path, params, ts),
            )[i] == ("signature"@, signature_of(secret, path, with_timestamp(params, ts))),
{
    lemma_signed_params_fields(secret, path, params, ts);
    let signed = signed_params(secret, path, params, ts);
    let m = signed.obj_map();
    let sig = signature_of(secret, path, with_timestamp(params, ts));
    reveal_strlit("timestamp");
    reveal_strlit("signature");
    assert(("timestamp")@[0] == 't');
    assert(("signature")@[0] == 's');
    assert(("timestamp")@ != ("signature")@);
    assert(m[("timestamp")@] == ParamModel::Int(ts));
    assert(m[("signature")@] == ParamModel::Str(sig));
    assert(m.dom().contains(("timestamp")@));
    assert(m.dom().contains(("signature")@));
    lemma_sorted_lookup(signed.obj_entries(), "timestamp"@);
    lemma_sorted_lookup(signed.obj_entries(), "signature"@);
    let i = choose|i: int|
        0 <= i < signed.obj_entries().len() && #[trigger] signed.obj_entries()[i] == (
            "timestamp"@,
            ParamModel::Int(ts),
        );
    assert(query_of(signed)[i] == ("timestamp"@, dec_int(ts)));
    let j = choose|j: int|
        0 <= j < signed.obj_entries().len() && #[trigger] signed.obj_entries()[j] == (
            "signature"@,
            ParamModel::Str(sig),
        );
    assert(query_of(signed)[j] == ("signature"@, sig));
}

} // verus!
