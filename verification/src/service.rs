//! The scrobbling protocol: services, request signing, the form bodies of
//! the two API methods, and the tolerant reading of their responses.
//!
//! Sending the requests is the caller's business; everything here builds
//! and interprets plain values.

use vstd::prelude::*;
use vstd::relations::{total_ordering, sorted_by};
use vstd::seq_lib::lemma_sorted_unique;
use crate::text::{
    spec_str_le, str_le, str_eq, lemma_str_le_refl, lemma_str_le_antisym, lemma_str_le_trans,
    lemma_str_le_total, spec_i64_chars, i64_to_string, spec_u64_chars, u64_to_string,
    spec_parse_u32, parse_u32_str,
};
use crate::jsonval::{
    json_parse, json_get, json_as_str, json_as_u64, json_as_array, json_is_object, json_render,
    JVal, jcontents, jval_of, jget,
};

verus! {

/// A scrobbling service the protocol client can talk to.
#[derive(Debug, Clone, Copy, PartialEq, Eq, Structural)]
pub enum Service {
    LastFm,
    LibreFm,
}

/// How the protocol can fail: a service name nobody supports, a failed
/// authentication exchange, a response that is not JSON, a remote
/// top-level error, or one rejected scrobble.
#[derive(Debug, PartialEq)]
pub enum ServiceError {
    UnsupportedService,
    Auth,
    Response,
    Api { code: String, message: String },
    Rejected { code: String, message: String },
}

impl Service {
    /// Reads a service name; only "lastfm" and "librefm" are known.
    pub fn parse(value: &str) -> (r: Result<Service, ServiceError>)
        ensures
            r == (if value@ == "lastfm"@ {
                Ok::<Service, ServiceError>(Service::LastFm)
            } else if value@ == "librefm"@ {
                Ok::<Service, ServiceError>(Service::LibreFm)
            } else {
                Err::<Service, ServiceError>(ServiceError::UnsupportedService)
            }),
    {
        if str_eq(value, "lastfm") {
            Ok(Service::LastFm)
        } else if str_eq(value, "librefm") {
            Ok(Service::LibreFm)
        } else {
            Err(ServiceError::UnsupportedService)
        }
    }

    /// The service's API endpoint.
    pub fn base_url(self) -> (r: &'static str)
        ensures
            self is LastFm ==> r@ == "https://ws.audioscrobbler.com/2.0/"@,
            self is LibreFm ==> r@ == "https://libre.fm/2.0/"@,
    {
        match self {
            Service::LastFm => "https://ws.audioscrobbler.com/2.0/",
            Service::LibreFm => "https://libre.fm/2.0/",
        }
    }
}

/// What md5 digests the UTF-8 bytes of a string to, as 32 lowercase hex
/// digits.
pub uninterp spec fn md5_hex_of(s: Seq<char>) -> Seq<char>;

/// A lowercase hexadecimal digit.
pub open spec fn spec_is_hex_lower(c: char) -> bool {
    (48 <= c as int && c as int <= 57) || (97 <= c as int && c as int <= 102)
}

/// Relies on md5::compute and the LowerHex form of its digest: 16 bytes
/// digested from the string's UTF-8 bytes, written as exactly 32
/// lowercase hex digits; the result depends on the input alone.
#[verifier::external_body]
fn md5_hex(input: &str) -> (r: String)
    ensures
        r@ == md5_hex_of(input@),
        r@.len() == 32,
        forall|i: int| 0 <= i < 32 ==> spec_is_hex_lower(#[trigger] r@[i]),
{
    format!("{:x}", md5::compute(input.as_bytes()))
}

/// The view of a parameter list: each name and value as characters.
pub open spec fn params_view(v: Seq<(String, String)>) -> Seq<(Seq<char>, Seq<char>)> {
    v.map_values(|p: (String, String)| (p.0@, p.1@))
}

/// The signing order: by name, ties broken by value.
pub open spec fn param_le(a: (Seq<char>, Seq<char>), b: (Seq<char>, Seq<char>)) -> bool {
    if a.0 == b.0 {
        spec_str_le(a.1, b.1)
    } else {
        spec_str_le(a.0, b.0)
    }
}

pub open spec fn param_order() -> spec_fn((Seq<char>, Seq<char>), (Seq<char>, Seq<char>)) -> bool {
    |a: (Seq<char>, Seq<char>), b: (Seq<char>, Seq<char>)| param_le(a, b)
}

pub proof fn lemma_param_total_ordering()
    ensures
        total_ordering(param_order()),
{
    let leq = param_order();
    assert forall|a: (Seq<char>, Seq<char>)| #[trigger] leq(a, a) by {
        lemma_str_le_refl(a.0);
        lemma_str_le_refl(a.1);
    }
    assert forall|a: (Seq<char>, Seq<char>), b: (Seq<char>, Seq<char>)|
        #[trigger] leq(a, b) && #[trigger] leq(b, a) implies a == b by {
        if a.0 == b.0 {
            lemma_str_le_antisym(a.1, b.1);
        } else {
            lemma_str_le_antisym(a.0, b.0);
        }
    }
    assert forall|a: (Seq<char>, Seq<char>), b: (Seq<char>, Seq<char>), c: (Seq<char>, Seq<char>)|
        #[trigger] leq(a, b) && #[trigger] leq(b, c) implies #[trigger] leq(a, c) by {
        if a.0 == b.0 && b.0 == c.0 {
            lemma_str_le_trans(a.1, b.1, c.1);
        } else if a.0 == b.0 {
        } else if b.0 == c.0 {
        } else {
            lemma_str_le_trans(a.0, b.0, c.0);
            if a.0 == c.0 {
                lemma_str_le_antisym(a.0, b.0);
            }
        }
    }
    assert forall|a: (Seq<char>, Seq<char>), b: (Seq<char>, Seq<char>)|
        #[trigger] leq(a, b) || #[trigger] leq(b, a) by {
        if a.0 == b.0 {
            lemma_str_le_total(a.1, b.1);
        } else {
            lemma_str_le_total(a.0, b.0);
        }
    }
}

/// The signing concatenation: each name immediately followed by its
/// value, with no separators.
pub open spec fn spec_concat_params(ps: Seq<(Seq<char>, Seq<char>)>) -> Seq<char>
    decreases ps.len(),
{
    if ps.len() == 0 {
        Seq::empty()
    } else {
        spec_concat_params(ps.drop_last()) + ps.last().0 + ps.last().1
    }
}

/// The request signature: the parameters sorted by the signing order,
/// concatenated, the shared secret appended, the whole digested.
pub open spec fn spec_sign(params: Seq<(Seq<char>, Seq<char>)>, secret: Seq<char>) -> Seq<char> {
    md5_hex_of(spec_concat_params(params.sort_by(param_order())) + secret)
}

/// The signature does not depend on the order the parameters are given
/// in: any two lists with the same parameters sign identically.
pub proof fn lemma_sign_order_independent(
    p1: Seq<(Seq<char>, Seq<char>)>,
    p2: Seq<(Seq<char>, Seq<char>)>,
    secret: Seq<char>,
)
    requires
        p1.to_multiset() == p2.to_multiset(),
    ensures
        spec_sign(p1, secret) == spec_sign(p2, secret),
{
    lemma_param_total_ordering();
    p1.lemma_sort_by_ensures(param_order());
    p2.lemma_sort_by_ensures(param_order());
    lemma_sorted_unique(p1.sort_by(param_order()), p2.sort_by(param_order()), param_order());
}

fn param_le_exec(a: &(String, String), b: &(String, String)) -> (r: bool)
    ensures
        r == param_le((a.0@, a.1@), (b.0@, b.1@)),
{
    if str_eq(a.0.as_str(), b.0.as_str()) {
        str_le(a.1.as_str(), b.1.as_str())
    } else {
        str_le(a.0.as_str(), b.0.as_str())
    }
}

proof fn lemma_params_view_insert(s: Seq<(String, String)>, j: int, x: (String, String))
    requires
        0 <= j <= s.len(),
    ensures
        params_view(s.insert(j, x)) == params_view(s).insert(j, (x.0@, x.1@)),
{
    s.insert_ensures(j, x);
    params_view(s).insert_ensures(j, (x.0@, x.1@));
    assert(params_view(s.insert(j, x)) =~= params_view(s).insert(j, (x.0@, x.1@)));
}

proof fn lemma_params_view_push(s: Seq<(String, String)>, x: (String, String))
    ensures
        params_view(s.push(x)) == params_view(s).push((x.0@, x.1@)),
{
    assert(params_view(s.push(x)) =~= params_view(s).push((x.0@, x.1@)));
}

proof fn lemma_sorted_insert(
    s: Seq<(Seq<char>, Seq<char>)>,
    j: int,
    x: (Seq<char>, Seq<char>),
)
    requires
        sorted_by(s, param_order()),
        0 <= j <= s.len(),
        forall|q: int| 0 <= q < j ==> param_le(#[trigger] s[q], x),
        forall|q: int| j <= q < s.len() ==> param_le(x, #[trigger] s[q]),
    ensures
        sorted_by(s.insert(j, x), param_order()),
{
    s.insert_ensures(j, x);
    let t = s.insert(j, x);
    assert forall|m: int, n: int| 0 <= m < n < t.len() implies param_order()(t[m], t[n]) by {
        if n < j {
            assert(param_order()(s[m], s[n]));
        } else if m < j && n == j {
            assert(param_le(s[m], x));
        } else if m < j && n > j {
            assert(param_order()(s[m], s[n - 1]));
        } else if m == j {
            assert(param_le(x, s[n - 1]));
        } else {
            assert(param_order()(s[m - 1], s[n - 1]));
        }
    }
}

/// Sorts a parameter list into the signing order.
#[verifier::rlimit(60)]
fn sort_params(params: &Vec<(String, String)>) -> (r: Vec<(String, String)>)
    ensures
        params_view(r@) == params_view(params@).sort_by(param_order()),
{
    let mut out: Vec<(String, String)> = Vec::new();
    let mut i: usize = 0;
    proof {
        lemma_param_total_ordering();
        assert(params_view(Seq::<(String, String)>::empty()) =~= Seq::<
            (Seq<char>, Seq<char>),
        >::empty());
        assert(params_view(params@.take(0)) =~= Seq::<(Seq<char>, Seq<char>)>::empty());
        assert(params_view(out@).to_multiset() =~= params_view(params@.take(0)).to_multiset());
    }
    while i < params.len()
        invariant
            i <= params@.len(),
            total_ordering(param_order()),
            sorted_by(params_view(out@), param_order()),
            params_view(out@).to_multiset() == params_view(params@.take(i as int)).to_multiset(),
        decreases params@.len() - i,
    {
        let p = (params[i].0.clone(), params[i].1.clone());
        let ghost pv = (p.0@, p.1@);
        let mut j: usize = 0;
        while j < out.len() && param_le_exec(&out[j], &p)
            invariant
                j <= out@.len(),
                pv == (p.0@, p.1@),
                forall|q: int| 0 <= q < j ==> param_le(#[trigger] params_view(out@)[q], pv),
            decreases out@.len() - j,
        {
            proof {
                assert(params_view(out@)[j as int] == (out@[j as int].0@, out@[j as int].1@));
            }
            j = j + 1;
        }
        proof {
            let ov = params_view(out@);
            if j < out@.len() {
                assert(ov[j as int] == (out@[j as int].0@, out@[j as int].1@));
                assert(!param_le(ov[j as int], pv));
            }
            assert forall|q: int| j <= q < ov.len() implies param_le(pv, #[trigger] ov[q]) by {
                assert(param_order()(pv, ov[j as int]) || param_order()(ov[j as int], pv));
                if q > j {
                    assert(param_order()(ov[j as int], ov[q]));
                    assert(param_order()(pv, ov[j as int]) && param_order()(ov[j as int], ov[q])
                        ==> param_order()(pv, ov[q]));
                }
            }
            lemma_sorted_insert(ov, j as int, pv);
            lemma_params_view_insert(out@, j as int, p);
            vstd::seq_lib::to_multiset_insert(ov, j as int, pv);
            assert(params@.take(i + 1) =~= params@.take(i as int).push(params@[i as int]));
            lemma_params_view_push(params@.take(i as int), params@[i as int]);
            vstd::seq_lib::to_multiset_build(
                params_view(params@.take(i as int)),
                (params@[i as int].0@, params@[i as int].1@),
            );
            assert(pv == (params@[i as int].0@, params@[i as int].1@));
        }
        out.insert(j, p);
        i = i + 1;
    }
    proof {
        assert(params@.take(params@.len() as int) =~= params@);
        params_view(params@).lemma_sort_by_ensures(param_order());
        lemma_sorted_unique(
            params_view(out@),
            params_view(params@).sort_by(param_order()),
            param_order(),
        );
    }
    out
}

/// Signs a parameter list: sorted, concatenated name-value, the shared
/// secret appended, digested, hex-encoded.
pub fn sign_params(params: &Vec<(String, String)>, secret: &str) -> (r: String)
    ensures
        r@ == spec_sign(params_view(params@), secret@),
        r@.len() == 32,
        forall|i: int| 0 <= i < 32 ==> spec_is_hex_lower(#[trigger] r@[i]),
{
    let sorted = sort_params(params);
    let ghost sv = params_view(sorted@);
    let mut input = String::new();
    let mut i: usize = 0;
    proof {
        assert(sv.take(0) =~= Seq::<(Seq<char>, Seq<char>)>::empty());
    }
    while i < sorted.len()
        invariant
            i <= sorted@.len(),
            sv == params_view(sorted@),
            input@ == spec_concat_params(sv.take(i as int)),
        decreases sorted@.len() - i,
    {
        proof {
            assert(sv.take(i + 1).drop_last() =~= sv.take(i as int));
            assert(sv.take(i + 1).last() == sv[i as int]);
            assert(sv[i as int] == (sorted@[i as int].0@, sorted@[i as int].1@));
        }
        input.append(sorted[i].0.as_str());
        input.append(sorted[i].1.as_str());
        i = i + 1;
    }
    proof {
        assert(sv.take(sorted@.len() as int) =~= sv);
    }
    input.append(secret);
    md5_hex(input.as_str())
}

// ---------------------------------------------------------------------------
// Request bodies
// ---------------------------------------------------------------------------
/// The unsigned parameters of the authentication exchange.  The auth
/// token digests the user name and the externally supplied password
/// digest; the plain password never appears.
pub open spec fn spec_auth_base(u: Seq<char>, pw: Seq<char>, key: Seq<char>) -> Seq<
    (Seq<char>, Seq<char>),
> {
    seq![
        ("method"@, "auth.getMobileSession"@),
        ("username"@, u),
        ("authToken"@, md5_hex_of(u + pw)),
        ("api_key"@, key),
    ]
}

/// The full authentication form body: the base parameters, the signature
/// over them, then the response format, which the signature leaves out.
pub open spec fn spec_auth_params(
    u: Seq<char>,
    pw: Seq<char>,
    key: Seq<char>,
    secret: Seq<char>,
) -> Seq<(Seq<char>, Seq<char>)> {
    spec_auth_base(u, pw, key).push(("api_sig"@, spec_sign(spec_auth_base(u, pw, key), secret))).push(
        ("format"@, "json"@),
    )
}

/// Builds the signed form body of the authentication exchange.
pub fn auth_request_params(
    username: &str,
    password_md5: &str,
    api_key: &str,
    api_secret: &str,
) -> (r: Vec<(String, String)>)
    ensures
        params_view(r@) == spec_auth_params(username@, password_md5@, api_key@, api_secret@),
{
    let mut token_input = String::from_str(username);
    token_input.append(password_md5);
    let auth_token = md5_hex(token_input.as_str());
    let mut params: Vec<(String, String)> = Vec::new();
    params.push((String::from_str("method"), String::from_str("auth.getMobileSession")));
    params.push((String::from_str("username"), String::from_str(username)));
    params.push((String::from_str("authToken"), auth_token));
    params.push((String::from_str("api_key"), String::from_str(api_key)));
    proof {
        assert(params_view(params@) =~= spec_auth_base(username@, password_md5@, api_key@));
    }
    let sig = sign_params(&params, api_secret);
    params.push((String::from_str("api_sig"), sig));
    params.push((String::from_str("format"), String::from_str("json")));
    proof {
        assert(params_view(params@) =~= spec_auth_params(
            username@,
            password_md5@,
            api_key@,
            api_secret@,
        ));
    }
    params
}

/// The unsigned parameters of one scrobble submission: the record's
/// fields, with the album only when there is one and the duration only
/// when it is positive.
pub open spec fn spec_scrobble_base(
    t: crate::scrobble::ScrobbleTrack,
    key: Seq<char>,
    sk: Seq<char>,
) -> Seq<(Seq<char>, Seq<char>)> {
    let base = seq![
        ("method"@, "track.scrobble"@),
        ("artist"@, t.artist@),
        ("track"@, t.title@),
        ("timestamp"@, spec_i64_chars(t.timestamp as int)),
        ("api_key"@, key),
        ("sk"@, sk),
    ];
    let with_album = if t.album is Some {
        base.push(("album"@, t.album->0@))
    } else {
        base
    };
    if t.duration > 0 {
        with_album.push(("duration"@, spec_i64_chars(t.duration as int)))
    } else {
        with_album
    }
}

/// The full scrobble form body: base parameters, their signature, then
/// the response format.
pub open spec fn spec_scrobble_params(
    t: crate::scrobble::ScrobbleTrack,
    key: Seq<char>,
    sk: Seq<char>,
    secret: Seq<char>,
) -> Seq<(Seq<char>, Seq<char>)> {
    spec_scrobble_base(t, key, sk).push(
        ("api_sig"@, spec_sign(spec_scrobble_base(t, key, sk), secret)),
    ).push(("format"@, "json"@))
}

/// Builds the signed form body submitting one scrobble record.
pub fn scrobble_request_params(
    track: &crate::scrobble::ScrobbleTrack,
    api_key: &str,
    session_key: &str,
    api_secret: &str,
) -> (r: Vec<(String, String)>)
    ensures
        params_view(r@) == spec_scrobble_params(*track, api_key@, session_key@, api_secret@),
{
    let mut params: Vec<(String, String)> = Vec::new();
    params.push((String::from_str("method"), String::from_str("track.scrobble")));
    params.push((String::from_str("artist"), track.artist.clone()));
    params.push((String::from_str("track"), track.title.clone()));
    params.push((String::from_str("timestamp"), i64_to_string(track.timestamp)));
    params.push((String::from_str("api_key"), String::from_str(api_key)));
    params.push((String::from_str("sk"), String::from_str(session_key)));
    match &track.album {
        Some(album) => {
            params.push((String::from_str("album"), album.clone()));
        },
        None => {},
    }
    if track.duration > 0 {
        params.push((String::from_str("duration"), i64_to_string(track.duration)));
    }
    proof {
        assert(params_view(params@) =~= spec_scrobble_base(*track, api_key@, session_key@));
    }
    let sig = sign_params(&params, api_secret);
    params.push((String::from_str("api_sig"), sig));
    params.push((String::from_str("format"), String::from_str("json")));
    proof {
        assert(params_view(params@) =~= spec_scrobble_params(
            *track,
            api_key@,
            session_key@,
            api_secret@,
        ));
    }
    params
}

// ---------------------------------------------------------------------------
// Response shapes
// ---------------------------------------------------------------------------
/// The scrobble response as far as its shape is regular: counters under
/// `scrobbles.@attr` and per-record entries under `scrobbles.scrobble`.
#[derive(Debug)]
pub struct ScrobbleResponse {
    pub scrobbles: Option<Scrobbles>,
}

#[derive(Debug)]
pub struct Scrobbles {
    pub attr: Option<ScrobbleAttr>,
    pub scrobble: Option<ScrobbleEntries>,
}

/// The accepted and ignored counters of a response.
#[derive(Debug)]
pub struct ScrobbleAttr {
    pub accepted: u32,
    pub ignored: u32,
}

/// The `scrobble` field: one entry, or an array of them.
#[derive(Debug)]
pub enum ScrobbleEntries {
    One(ScrobbleEntry),
    Many(Vec<ScrobbleEntry>),
}

#[derive(Debug)]
pub struct ScrobbleEntry {
    pub ignored_message: Option<IgnoredMessageField>,
}

/// A rejection reason: a structured object, a bare string, or a bare
/// number.
#[derive(Debug)]
pub enum IgnoredMessageField {
    Object(IgnoredMessage),
    Text(String),
    Number(u32),
}

#[derive(Debug)]
pub struct IgnoredMessage {
    pub text: Option<String>,
    pub code: Option<String>,
}

/// The first entry's rejection reason, if any.
pub open spec fn spec_first_ignored_message(e: ScrobbleEntries) -> Option<IgnoredMessageField> {
    match e {
        ScrobbleEntries::One(entry) => entry.ignored_message,
        ScrobbleEntries::Many(entries) => if entries@.len() > 0 {
            entries@[0].ignored_message
        } else {
            None
        },
    }
}

impl ScrobbleEntries {
    /// The first entry's rejection reason, if any.
    pub fn first_ignored_message(&self) -> (r: Option<&IgnoredMessageField>)
        ensures
            match r {
                Some(m) => spec_first_ignored_message(*self) == Some(*m),
                None => spec_first_ignored_message(*self) is None,
            },
    {
        match self {
            ScrobbleEntries::One(entry) => entry.ignored_message.as_ref(),
            ScrobbleEntries::Many(entries) => {
                if entries.len() > 0 {
                    entries[0].ignored_message.as_ref()
                } else {
                    None
                }
            },
        }
    }
}

/// The code and message a rejection reason amounts to, with "unknown"
/// and "Scrobble rejected" filling what the response left out.
pub open spec fn spec_im_pair_struct(im: Option<IgnoredMessageField>) -> (Seq<char>, Seq<char>) {
    match im {
        Some(IgnoredMessageField::Object(m)) => (
            match m.code {
                Some(c) => c@,
                None => "unknown"@,
            },
            match m.text {
                Some(t) => t@,
                None => "Scrobble rejected"@,
            },
        ),
        Some(IgnoredMessageField::Text(t)) => ("unknown"@, t@),
        Some(IgnoredMessageField::Number(n)) => ("unknown"@, spec_u64_chars(n as int)),
        None => ("unknown"@, "Scrobble rejected"@),
    }
}

/// The rejection a regular-shaped response amounts to: nothing on
/// success, else the rejection code and message.  Code "91" means
/// "already submitted" and counts as success.
pub open spec fn spec_struct_outcome(p: ScrobbleResponse) -> Option<(Seq<char>, Seq<char>)> {
    match p.scrobbles {
        None => None,
        Some(s) => {
            let accepted = match s.attr {
                Some(a) => a.accepted,
                None => 0,
            };
            let ignored = match s.attr {
                Some(a) => a.ignored,
                None => 0,
            };
            if accepted > 0 && ignored == 0 {
                None
            } else {
                let pair = spec_im_pair_struct(
                    match s.scrobble {
                        Some(entries) => spec_first_ignored_message(entries),
                        None => None,
                    },
                );
                if pair.0 == "91"@ {
                    None
                } else {
                    Some(pair)
                }
            }
        },
    }
}

// ---------------------------------------------------------------------------
// The permissive reading, over the modeled value
// ---------------------------------------------------------------------------
/// A counter read permissively: a number in range, or a decimal string.
pub open spec fn spec_parse_u32_value(v: JVal) -> Option<u32> {
    match v {
        JVal::UInt(n) => if n <= u32::MAX {
            Some(n as u32)
        } else {
            None
        },
        JVal::Str(s) => spec_parse_u32(s),
        _ => None,
    }
}

/// One counter under `@attr`, zero when absent or unreadable.
pub open spec fn spec_counter(attr: Option<JVal>, key: Seq<char>) -> u32 {
    match attr {
        None => 0,
        Some(a) => match jget(a, key) {
            None => 0,
            Some(v) => match spec_parse_u32_value(v) {
                Some(n) => n,
                None => 0,
            },
        },
    }
}

/// The entry a `scrobble` member denotes: the first element of an
/// array, or an object itself.
pub open spec fn spec_first(v: JVal) -> Option<JVal> {
    match v {
        JVal::Arr(a) => if a.len() > 0 {
            Some(a[0])
        } else {
            None
        },
        JVal::Obj(_) => Some(v),
        _ => None,
    }
}

/// The code and message a rejection reason of any shape carries: a bare
/// string or number keeps code "unknown"; an object is read under
/// `code` and `#text`; everything absent falls to the defaults.
pub open spec fn spec_ignored_pair(v: JVal) -> (Seq<char>, Seq<char>) {
    match v {
        JVal::Str(s) => ("unknown"@, s),
        JVal::UInt(n) => ("unknown"@, spec_u64_chars(n as int)),
        _ => (
            match jget(v, "code"@) {
                Some(JVal::Str(c)) => c,
                _ => "unknown"@,
            },
            match jget(v, "#text"@) {
                Some(JVal::Str(t)) => t,
                _ => "Scrobble rejected"@,
            },
        ),
    }
}

/// The code and message a whole `scrobble` member yields.
pub open spec fn spec_member_pair(member: JVal) -> (Seq<char>, Seq<char>) {
    match spec_first(member) {
        Some(f) => match jget(f, "ignoredMessage"@) {
            Some(imv) => spec_ignored_pair(imv),
            None => ("unknown"@, "Scrobble rejected"@),
        },
        None => ("unknown"@, "Scrobble rejected"@),
    }
}

/// The rejection a response of any shape amounts to, read permissively:
/// nothing on success (counters, or code "91"), else the code and
/// message.
pub open spec fn spec_value_outcome(m: JVal) -> Option<(Seq<char>, Seq<char>)> {
    match jget(m, "scrobbles"@) {
        None => None,
        Some(s) => {
            let accepted = spec_counter(jget(s, "@attr"@), "accepted"@);
            let ignored = spec_counter(jget(s, "@attr"@), "ignored"@);
            if accepted > 0 && ignored == 0 {
                None
            } else {
                let pair = match jget(s, "scrobble"@) {
                    Some(sv) => spec_member_pair(sv),
                    None => ("unknown"@, "Scrobble rejected"@),
                };
                if pair.0 == "91"@ {
                    None
                } else {
                    Some(pair)
                }
            }
        },
    }
}

/// The message a top-level error carries: the `message` string, or
/// "API error".
pub open spec fn spec_api_message(m: JVal) -> Seq<char> {
    match jget(m, "message"@) {
        Some(JVal::Str(s)) => s,
        _ => "API error"@,
    }
}

/// The rendering of a top-level error value, where the model carries
/// it: null, booleans and numbers are pinned; strings, arrays and
/// objects render with quoting the model does not carry.
pub open spec fn spec_api_code(errv: JVal) -> Option<Seq<char>> {
    match errv {
        JVal::Null => Some("null"@),
        JVal::Bool(b) => Some(
            if b {
                "true"@
            } else {
                "false"@
            },
        ),
        JVal::UInt(n) => Some(spec_u64_chars(n as int)),
        JVal::NumOther(t) => Some(t),
        _ => None,
    }
}

/// The session key an authentication response yields: the string under
/// `session.key`, owed exactly when the text is JSON with no top-level
/// `error` member and such a string.
pub open spec fn spec_session_key(p: Option<JVal>) -> Option<Seq<char>> {
    match p {
        None => None,
        Some(m) => if jget(m, "error"@) is Some {
            None
        } else {
            match jget(m, "session"@) {
                Some(s) => match jget(s, "key"@) {
                    Some(JVal::Str(k)) => Some(k),
                    _ => None,
                },
                None => None,
            }
        },
    }
}

/// Decides a regular-shaped response: success, or the one record's
/// rejection.
pub fn check_scrobble_from_struct(parsed: &ScrobbleResponse) -> (r: Result<(), ServiceError>)
    ensures
        match r {
            Ok(()) => spec_struct_outcome(*parsed) is None,
            Err(e) => match e {
                ServiceError::Rejected { code, message } => spec_struct_outcome(*parsed) == Some(
                    (code@, message@),
                ),
                _ => false,
            },
        },
{
    let scrobbles = match &parsed.scrobbles {
        None => {
            return Ok(());
        },
        Some(s) => s,
    };
    let accepted: u32 = match &scrobbles.attr {
        Some(a) => a.accepted,
        None => 0,
    };
    let ignored: u32 = match &scrobbles.attr {
        Some(a) => a.ignored,
        None => 0,
    };
    if accepted > 0 && ignored == 0 {
        return Ok(());
    }
    let im = match &scrobbles.scrobble {
        Some(entries) => entries.first_ignored_message(),
        None => None,
    };
    let code: String = match im {
        Some(IgnoredMessageField::Object(m)) => match &m.code {
            Some(c) => c.clone(),
            None => String::from_str("unknown"),
        },
        _ => String::from_str("unknown"),
    };
    let message: String = match im {
        Some(IgnoredMessageField::Object(m)) => match &m.text {
            Some(t) => t.clone(),
            None => String::from_str("Scrobble rejected"),
        },
        Some(IgnoredMessageField::Text(t)) => t.clone(),
        Some(IgnoredMessageField::Number(n)) => u64_to_string(*n as u64),
        None => String::from_str("Scrobble rejected"),
    };
    if str_eq(code.as_str(), "91") {
        return Ok(());
    }
    Err(ServiceError::Rejected { code, message })
}

/// The last step of a rejection: code "91" still counts as success,
/// anything else fails with that code and message.
pub fn ignored_outcome(code: String, message: String) -> (r: Result<(), ServiceError>)
    ensures
        code@ == "91"@ ==> r == Ok::<(), ServiceError>(()),
        code@ != "91"@ ==> match r {
            Err(ServiceError::Rejected { code: c, message: m }) => c@ == code@ && m@ == message@,
            _ => false,
        },
{
    if str_eq(code.as_str(), "91") {
        Ok(())
    } else {
        Err(ServiceError::Rejected { code, message })
    }
}

// ---------------------------------------------------------------------------
// Reading responses of irregular shape
// ---------------------------------------------------------------------------
/// A counter that may arrive as a number or as a decimal string.
fn parse_u32_value(value: &serde_json::Value) -> (r: Option<u32>)
    ensures
        r == spec_parse_u32_value(jcontents(*value)),
{
    match json_as_u64(value) {
        Some(n) => {
            if n <= 0xFFFF_FFFF {
                Some(n as u32)
            } else {
                None
            }
        },
        None => match json_as_str(value) {
            Some(s) => parse_u32_str(s.as_str()),
            None => None,
        },
    }
}

/// The first element of an array, or an object itself.
fn first_scrobble_value<'a>(value: &'a serde_json::Value) -> (r: Option<&'a serde_json::Value>)
    ensures
        match r {
            Some(f) => spec_first(jcontents(*value)) == Some(jcontents(*f)),
            None => spec_first(jcontents(*value)) is None,
        },
{
    match json_as_array(value) {
        Some(arr) => {
            if arr.len() > 0 {
                Some(&arr[0])
            } else {
                None
            }
        },
        None => {
            if json_is_object(value) {
                Some(value)
            } else {
                None
            }
        },
    }
}

/// The code and message a rejection reason of any shape carries, with
/// "unknown" and "Scrobble rejected" filling what is absent.
fn ignored_message_from_value(value: &serde_json::Value) -> (r: (String, String))
    ensures
        r.0@ == spec_ignored_pair(jcontents(*value)).0,
        r.1@ == spec_ignored_pair(jcontents(*value)).1,
{
    match json_as_str(value) {
        Some(text) => {
            return (String::from_str("unknown"), text);
        },
        None => {},
    }
    match json_as_u64(value) {
        Some(number) => {
            return (String::from_str("unknown"), u64_to_string(number));
        },
        None => {},
    }
    let code = match json_get(value, "code") {
        Some(c) => match json_as_str(c) {
            Some(s) => s,
            None => String::from_str("unknown"),
        },
        None => String::from_str("unknown"),
    };
    let text = match json_get(value, "#text") {
        Some(t) => match json_as_str(t) {
            Some(s) => s,
            None => String::from_str("Scrobble rejected"),
        },
        None => String::from_str("Scrobble rejected"),
    };
    (code, text)
}

/// Decides a response whose shape the regular reading refused, reading
/// the same fields permissively: success, or the one record's
/// rejection.
pub fn check_scrobble_from_value(parsed: &serde_json::Value) -> (r: Result<(), ServiceError>)
    ensures
        match r {
            Ok(()) => spec_value_outcome(jcontents(*parsed)) is None,
            Err(e) => match e {
                ServiceError::Rejected { code, message } => spec_value_outcome(jcontents(*parsed))
                    == Some((code@, message@)),
                _ => false,
            },
        },
{
    let scrobbles = match json_get(parsed, "scrobbles") {
        None => {
            return Ok(());
        },
        Some(s) => s,
    };
    let attr = json_get(scrobbles, "@attr");
    let accepted: u32 = match attr {
        Some(a) => match json_get(a, "accepted") {
            Some(v) => match parse_u32_value(v) {
                Some(n) => n,
                None => 0,
            },
            None => 0,
        },
        None => 0,
    };
    let ignored: u32 = match attr {
        Some(a) => match json_get(a, "ignored") {
            Some(v) => match parse_u32_value(v) {
                Some(n) => n,
                None => 0,
            },
            None => 0,
        },
        None => 0,
    };
    if accepted > 0 && ignored == 0 {
        return Ok(());
    }
    let ignored_message = match json_get(scrobbles, "scrobble") {
        Some(sv) => match first_scrobble_value(sv) {
            Some(first) => match json_get(first, "ignoredMessage") {
                Some(im) => Some(ignored_message_from_value(im)),
                None => None,
            },
            None => None,
        },
        None => None,
    };
    let (code, message) = match ignored_message {
        Some(pair) => pair,
        None => (String::from_str("unknown"), String::from_str("Scrobble rejected")),
    };
    match ignored_outcome(code, message) {
        Ok(()) => Ok(()),
        Err(e) => Err(e),
    }
}

/// A top-level `error` member fails the request before anything else is
/// looked at; the code is the error value rendered back as JSON, the
/// message the `message` string or "API error".
pub fn check_api_error(parsed: &serde_json::Value) -> (r: Result<(), ServiceError>)
    ensures
        match r {
            Ok(()) => jget(jcontents(*parsed), "error"@) is None,
            Err(e) => match e {
                ServiceError::Api { code, message } => {
                    &&& jget(jcontents(*parsed), "error"@) is Some
                    &&& message@ == spec_api_message(jcontents(*parsed))
                    &&& match spec_api_code(jget(jcontents(*parsed), "error"@)->Some_0) {
                        Some(c) => code@ == c,
                        None => true,
                    }
                },
                _ => false,
            },
        },
{
    let error = match json_get(parsed, "error") {
        None => {
            return Ok(());
        },
        Some(e) => e,
    };
    let message = match json_get(parsed, "message") {
        Some(m) => match json_as_str(m) {
            Some(s) => s,
            None => String::from_str("API error"),
        },
        None => String::from_str("API error"),
    };
    Err(ServiceError::Api { code: json_render(error), message })
}

// ---------------------------------------------------------------------------
// Rebuilding the regular shape from a parsed value
// ---------------------------------------------------------------------------
/// A counter field that must be present and read as a number or a
/// decimal string.
fn attr_field_from_json(attr: &serde_json::Value, key: &str) -> (r: Option<u32>)
    ensures
        r == (match jget(jcontents(*attr), key@) {
            Some(v) => spec_parse_u32_value(v),
            None => None::<u32>,
        }),
{
    match json_get(attr, key) {
        Some(v) => parse_u32_value(v),
        None => None,
    }
}

/// Rebuilds one rejection reason strictly; where it succeeds, the
/// strict reading and the permissive one agree on the code and message.
fn ignored_message_field_from_json(v: &serde_json::Value) -> (r: Option<IgnoredMessageField>)
    ensures
        match r {
            Some(f) => spec_im_pair_struct(Some(f)) == spec_ignored_pair(jcontents(*v)),
            None => true,
        },
{
    if json_is_object(v) {
        let code = match json_get(v, "code") {
            Some(c) => match json_as_str(c) {
                Some(s) => Some(s),
                None => {
                    return None;
                },
            },
            None => None,
        };
        let text = match json_get(v, "#text") {
            Some(t) => match json_as_str(t) {
                Some(s) => Some(s),
                None => {
                    return None;
                },
            },
            None => None,
        };
        return Some(IgnoredMessageField::Object(IgnoredMessage { text, code }));
    }
    match json_as_str(v) {
        Some(s) => {
            return Some(IgnoredMessageField::Text(s));
        },
        None => {},
    }
    match json_as_u64(v) {
        Some(n) => {
            if n <= 0xFFFF_FFFF {
                Some(IgnoredMessageField::Number(n as u32))
            } else {
                None
            }
        },
        None => None,
    }
}

/// Rebuilds one scrobble entry strictly; where it succeeds, its
/// rejection reason reads as the permissive reading of the member.
fn entry_from_json(v: &serde_json::Value) -> (r: Option<ScrobbleEntry>)
    ensures
        match r {
            Some(e) => jcontents(*v) is Obj && match e.ignored_message {
                None => jget(jcontents(*v), "ignoredMessage"@) is None,
                Some(f) => {
                    &&& jget(jcontents(*v), "ignoredMessage"@) is Some
                    &&& spec_im_pair_struct(Some(f)) == spec_ignored_pair(
                        jget(jcontents(*v), "ignoredMessage"@)->Some_0,
                    )
                },
            },
            None => true,
        },
{
    if !json_is_object(v) {
        return None;
    }
    match json_get(v, "ignoredMessage") {
        None => Some(ScrobbleEntry { ignored_message: None }),
        Some(im) => match ignored_message_field_from_json(im) {
            Some(f) => Some(ScrobbleEntry { ignored_message: Some(f) }),
            None => None,
        },
    }
}

/// Rebuilds the `scrobble` member strictly, one entry or an array of
/// them; where it succeeds, its first rejection reason reads as the
/// permissive reading of the member.
fn entries_from_json(v: &serde_json::Value) -> (r: Option<ScrobbleEntries>)
    ensures
        match r {
            Some(es) => spec_im_pair_struct(spec_first_ignored_message(es)) == spec_member_pair(
                jcontents(*v),
            ),
            None => true,
        },
{
    match entry_from_json(v) {
        Some(e) => {
            return Some(ScrobbleEntries::One(e));
        },
        None => {},
    }
    let arr = match json_as_array(v) {
        Some(a) => a,
        None => {
            return None;
        },
    };
    let ghost model = jcontents(*v);
    let mut entries: Vec<ScrobbleEntry> = Vec::new();
    let mut i: usize = 0;
    while i < arr.len()
        invariant
            i <= arr@.len(),
            entries@.len() == i,
            model == JVal::Arr(arr@.map_values(|e: serde_json::Value| jcontents(e))),
            i > 0 ==> {
                &&& jcontents(arr@[0]) is Obj
                &&& match entries@[0].ignored_message {
                    None => jget(jcontents(arr@[0]), "ignoredMessage"@) is None,
                    Some(f) => {
                        &&& jget(jcontents(arr@[0]), "ignoredMessage"@) is Some
                        &&& spec_im_pair_struct(Some(f)) == spec_ignored_pair(
                            jget(jcontents(arr@[0]), "ignoredMessage"@)->Some_0,
                        )
                    },
                }
            },
        decreases arr@.len() - i,
    {
        match entry_from_json(&arr[i]) {
            Some(e) => {
                entries.push(e);
            },
            None => {
                return None;
            },
        }
        i = i + 1;
    }
    proof {
        let elems = arr@.map_values(|e: serde_json::Value| jcontents(e));
        if arr@.len() > 0 {
            assert(elems[0] == jcontents(arr@[0]));
        }
    }
    Some(ScrobbleEntries::Many(entries))
}

/// Rebuilds the regular response shape from a parsed value, or nothing
/// where the shape does not fit and the permissive reading must decide.
/// Where it succeeds, the regular decision and the permissive one agree.
fn scrobble_response_from_json(v: &serde_json::Value) -> (r: Option<ScrobbleResponse>)
    ensures
        match r {
            Some(resp) => spec_struct_outcome(resp) == spec_value_outcome(jcontents(*v)),
            None => true,
        },
{
    if !json_is_object(v) {
        return None;
    }
    let sv = match json_get(v, "scrobbles") {
        None => {
            return Some(ScrobbleResponse { scrobbles: None });
        },
        Some(sv) => sv,
    };
    if !json_is_object(sv) {
        return None;
    }
    let attr = match json_get(sv, "@attr") {
        None => None,
        Some(av) => {
            let accepted = match attr_field_from_json(av, "accepted") {
                Some(n) => n,
                None => {
                    return None;
                },
            };
            let ignored = match attr_field_from_json(av, "ignored") {
                Some(n) => n,
                None => {
                    return None;
                },
            };
            Some(ScrobbleAttr { accepted, ignored })
        },
    };
    let scrobble = match json_get(sv, "scrobble") {
        None => None,
        Some(ev) => match entries_from_json(ev) {
            Some(e) => Some(e),
            None => {
                return None;
            },
        },
    };
    Some(ScrobbleResponse { scrobbles: Some(Scrobbles { attr, scrobble }) })
}

// ---------------------------------------------------------------------------
// The two response readers
// ---------------------------------------------------------------------------
/// Reads the authentication response: the session key under
/// `session.key`, owed exactly when the payload is JSON without a
/// top-level `error` member and carries such a string; anything else
/// fails the exchange.
pub fn parse_session_response(text: &str) -> (r: Result<String, ServiceError>)
    ensures
        match r {
            Ok(k) => spec_session_key(jval_of(text@)) == Some(k@),
            Err(e) => e == ServiceError::Auth && spec_session_key(jval_of(text@)) is None,
        },
{
    let parsed = match json_parse(text) {
        None => {
            return Err(ServiceError::Auth);
        },
        Some(v) => v,
    };
    match json_get(&parsed, "error") {
        Some(_) => {
            return Err(ServiceError::Auth);
        },
        None => {},
    }
    let session = match json_get(&parsed, "session") {
        None => {
            return Err(ServiceError::Auth);
        },
        Some(s) => s,
    };
    let key = match json_get(session, "key") {
        None => {
            return Err(ServiceError::Auth);
        },
        Some(k) => k,
    };
    match json_as_str(key) {
        Some(s) => Ok(s),
        None => Err(ServiceError::Auth),
    }
}

/// Reads a scrobble response: a payload that is not JSON fails; a
/// top-level error fails before any scrobble field is looked at; then
/// the regular shape decides, or, where it does not fit, the permissive
/// reading — and where both fit, they agree.
pub fn interpret_scrobble_response(text: &str) -> (r: Result<(), ServiceError>)
    ensures
        match jval_of(text@) {
            None => r == Err::<(), ServiceError>(ServiceError::Response),
            Some(m) => match jget(m, "error"@) {
                Some(errv) => match r {
                    Err(ServiceError::Api { code, message }) => {
                        &&& message@ == spec_api_message(m)
                        &&& match spec_api_code(errv) {
                            Some(c) => code@ == c,
                            None => true,
                        }
                    },
                    _ => false,
                },
                None => match r {
                    Ok(()) => spec_value_outcome(m) is None,
                    Err(e) => match e {
                        ServiceError::Rejected { code, message } => spec_value_outcome(m) == Some(
                            (code@, message@),
                        ),
                        _ => false,
                    },
                },
            },
        },
{
    let parsed = match json_parse(text) {
        None => {
            return Err(ServiceError::Response);
        },
        Some(v) => v,
    };
    match check_api_error(&parsed) {
        Ok(()) => {},
        Err(e) => {
            return Err(e);
        },
    }
    match scrobble_response_from_json(&parsed) {
        Some(resp) => match check_scrobble_from_struct(&resp) {
            Ok(()) => Ok(()),
            Err(e) => Err(e),
        },
        None => check_scrobble_from_value(&parsed),
    }
}

} // verus!
