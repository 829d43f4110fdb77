//! The account's registration with its remote instance, the session user,
//! and instance software discovery.
//!
//! An application registration (client id and secret) is persisted in the
//! store base64-encoded; the codec here is verified to round-trip through
//! the trusted base64 wrappers.
use vstd::prelude::*;

use base64::Engine;

use crate::text;
use vstd::utf8::{encode_utf8, valid_utf8};

verus! {

/// An application registration with a remote instance.
pub struct FediverseApp {
    pub client_id: String,
    pub client_secret: String,
}

/// What base64's standard-alphabet engine encodes a byte string to.
pub uninterp spec fn b64_of(data: Seq<u8>) -> Seq<u8>;

/// Relies on base64's `Engine::encode` with the standard alphabet: the
/// output is a function of the input bytes alone, four bytes for every
/// three of input (padded).
#[verifier::external_body]
fn b64_encode(data: &[u8]) -> (r: Vec<u8>)
    requires
        data@.len() <= usize::MAX / 4,
    ensures
        r@ == b64_of(data@),
        r@.len() == 4 * ((data@.len() + 2) / 3),
{
    base64::engine::general_purpose::STANDARD.encode(data).into_bytes()
}

/// Relies on base64's `Engine::decode` with the standard alphabet: decoding
/// inverts encoding.
#[verifier::external_body]
fn b64_decode(data: &[u8]) -> (r: Result<Vec<u8>, ()>)
    ensures
        forall|s: Seq<u8>| data@ == b64_of(s) ==> r is Ok && r->Ok_0@ == s,
{
    match base64::engine::general_purpose::STANDARD.decode(data) {
        Ok(v) => Ok(v),
        Err(_) => Err(()),
    }
}

/// Relies on std's `String::from_utf8`: it succeeds exactly on valid UTF-8
/// and returns the string of those bytes.
#[verifier::external_body]
fn utf8_to_string(v: Vec<u8>) -> (r: Result<String, ()>)
    ensures
        match r {
            Ok(s) => encode_utf8(s@) == v@,
            Err(_) => !valid_utf8(v@),
        },
        valid_utf8(v@) ==> r is Ok,
{
    match String::from_utf8(v) {
        Ok(s) => Ok(s),
        Err(_) => Err(()),
    }
}

/// Why stored registration data could not be read back.
#[derive(Clone, Copy, PartialEq, Eq, Structural, Debug)]
pub enum SecretError {
    /// The stored value is not base64.
    NotBase64,
    /// The decoded bytes are not UTF-8 text.
    NotUtf8,
}

/// Encodes a registration for storage: the base64 of each field's UTF-8
/// bytes, client id first.  `None` only for fields too large to encode at
/// all, a machine limit no real credential reaches.
pub fn encode_app_secret(app: &FediverseApp) -> (r: Option<(Vec<u8>, Vec<u8>)>)
    ensures
        match r {
            Some(p) => {
                &&& p.0@ == b64_of(encode_utf8(app.client_id@))
                &&& p.1@ == b64_of(encode_utf8(app.client_secret@))
            },
            None => encode_utf8(app.client_id@).len() > usize::MAX / 4 || encode_utf8(
                app.client_secret@,
            ).len() > usize::MAX / 4,
        },
{
    let id_bytes = app.client_id.as_str().as_bytes();
    let secret_bytes = app.client_secret.as_str().as_bytes();
    if id_bytes.len() > usize::MAX / 4 || secret_bytes.len() > usize::MAX / 4 {
        return None;
    }
    let id_b = b64_encode(id_bytes);
    let secret_b = b64_encode(secret_bytes);
    Some((id_b, secret_b))
}

/// Decodes a stored registration.  Whatever was stored by
/// `encode_app_secret` is recovered exactly; data from elsewhere is
/// rejected when it is not base64 or not UTF-8.
pub fn decode_app_secret(id_b64: &[u8], secret_b64: &[u8]) -> (r: Result<FediverseApp, SecretError>)
    ensures
        forall|id_s: Seq<char>, sec_s: Seq<char>|
            id_b64@ == b64_of(#[trigger] encode_utf8(id_s)) && secret_b64@ == b64_of(
                #[trigger] encode_utf8(sec_s),
            ) ==> r is Ok && r->Ok_0.client_id@ == id_s && r->Ok_0.client_secret@ == sec_s,
{
    broadcast use vstd::utf8::encode_utf8_valid_utf8;
    broadcast use vstd::utf8::encode_utf8_decode_utf8;

    let id_bytes = match b64_decode(id_b64) {
        Ok(v) => v,
        Err(_) => {
            return Err(SecretError::NotBase64);
        },
    };
    let secret_bytes = match b64_decode(secret_b64) {
        Ok(v) => v,
        Err(_) => {
            return Err(SecretError::NotBase64);
        },
    };
    let ghost idb = id_bytes@;
    let ghost secb = secret_bytes@;
    let client_id = match utf8_to_string(id_bytes) {
        Ok(s) => s,
        Err(_) => {
            return Err(SecretError::NotUtf8);
        },
    };
    let client_secret = match utf8_to_string(secret_bytes) {
        Ok(s) => s,
        Err(_) => {
            return Err(SecretError::NotUtf8);
        },
    };
    let app = FediverseApp { client_id, client_secret };
    proof {
        assert forall|id_s: Seq<char>, sec_s: Seq<char>|
            id_b64@ == b64_of(#[trigger] encode_utf8(id_s)) && secret_b64@ == b64_of(
                #[trigger] encode_utf8(sec_s),
            ) implies app.client_id@ == id_s && app.client_secret@ == sec_s by {
            assert(idb == encode_utf8(id_s));
            assert(secb == encode_utf8(sec_s));
            assert(vstd::utf8::decode_utf8(encode_utf8(app.client_id@)) == app.client_id@);
            assert(vstd::utf8::decode_utf8(encode_utf8(id_s)) == id_s);
            assert(vstd::utf8::decode_utf8(encode_utf8(app.client_secret@))
                == app.client_secret@);
            assert(vstd::utf8::decode_utf8(encode_utf8(sec_s)) == sec_s);
        }
    }
    Ok(app)
}

/// The `rel` value that names the nodeinfo schema document.
pub open spec fn spec_nodeinfo_rel() -> Seq<u8> {
    seq![0x68u8, 0x74, 0x74, 0x70, 0x3a, 0x2f, 0x2f, 0x6e, 0x6f, 0x64, 0x65, 0x69, 0x6e, 0x66, 0x6f, 0x2e, 0x64, 0x69, 0x61, 0x73, 0x70, 0x6f, 0x72, 0x61, 0x2e, 0x73, 0x6f, 0x66, 0x74, 0x77, 0x61, 0x72, 0x65, 0x2f, 0x6e, 0x73, 0x2f, 0x73, 0x63, 0x68, 0x65, 0x6d, 0x61, 0x2f, 0x32, 0x2e, 0x30]
}

/// One link of a `.well-known/nodeinfo` document.
pub struct WellKnownLink {
    pub rel: Vec<u8>,
    pub href: Vec<u8>,
}

/// Picks the nodeinfo document's address out of the well-known links: the
/// first link whose `rel` names the nodeinfo schema, if any.
pub fn find_nodeinfo_href(links: Vec<WellKnownLink>) -> (r: Option<Vec<u8>>)
    ensures
        match r {
            Some(href) => exists|i: int|
                {
                    &&& 0 <= i < links@.len()
                    &&& (#[trigger] links@[i].rel)@ == spec_nodeinfo_rel()
                    &&& href@ == links@[i].href@
                    &&& forall|j: int| 0 <= j < i ==> links@[j].rel@ != spec_nodeinfo_rel()
                },
            None => forall|i: int|
                0 <= i < links@.len() ==> (#[trigger] links@[i].rel)@ != spec_nodeinfo_rel(),
        },
{
    let mut tag: Vec<u8> = Vec::new();
    tag.push(0x68);
    tag.push(0x74);
    tag.push(0x74);
    tag.push(0x70);
    tag.push(0x3a);
    tag.push(0x2f);
    tag.push(0x2f);
    tag.push(0x6e);
    tag.push(0x6f);
    tag.push(0x64);
    tag.push(0x65);
    tag.push(0x69);
    tag.push(0x6e);
    tag.push(0x66);
    tag.push(0x6f);
    tag.push(0x2e);
    tag.push(0x64);
    tag.push(0x69);
    tag.push(0x61);
    tag.push(0x73);
    tag.push(0x70);
    tag.push(0x6f);
    tag.push(0x72);
    tag.push(0x61);
    tag.push(0x2e);
    tag.push(0x73);
    tag.push(0x6f);
    tag.push(0x66);
    tag.push(0x74);
    tag.push(0x77);
    tag.push(0x61);
    tag.push(0x72);
    tag.push(0x65);
    tag.push(0x2f);
    tag.push(0x6e);
    tag.push(0x73);
    tag.push(0x2f);
    tag.push(0x73);
    tag.push(0x63);
    tag.push(0x68);
    tag.push(0x65);
    tag.push(0x6d);
    tag.push(0x61);
    tag.push(0x2f);
    tag.push(0x32);
    tag.push(0x2e);
    tag.push(0x30);
    proof {
        assert(tag@ =~= spec_nodeinfo_rel());
    }
    let mut rest = links;
    let ghost all = rest@;
    let n = rest.len();
    let mut i: usize = 0;
    while i < n
        invariant
            tag@ == spec_nodeinfo_rel(),
            all == links@,
            n == all.len(),
            i <= n,
            rest@.len() == n - i,
            forall|k: int| 0 <= k < rest@.len() ==> rest@[k] == all[i + k],
            forall|j: int| 0 <= j < i ==> (#[trigger] all[j].rel)@ != spec_nodeinfo_rel(),
        decreases n - i,
    {
        let link = rest.remove(0);
        proof {
            assert(link == all[i as int]);
            assert(forall|k: int| 0 <= k < rest@.len() ==> rest@[k] == all[i + 1 + k]);
        }
        if text::bytes_eq(link.rel.as_slice(), tag.as_slice()) {
            proof {
                assert(all == links@);
                assert((links@[i as int].rel)@ == spec_nodeinfo_rel());
            }
            return Some(link.href);
        }
        i = i + 1;
    }
    None
}

/// The session user: the account an operator logged in as.
pub struct FediverseUser {
    pub domain: String,
    pub handle: String,
    pub name: Option<String>,
    pub avatar_url: Option<String>,
    pub access_token: String,
    pub software: String,
    /// When the session expires, as a timestamp.
    pub exp: i64,
}

/// How long a session lives, in seconds: one day.
pub const SESSION_EXP_SECONDS: i64 = 86400;

/// The display form of a user: `name (handle@domain)` when a display name
/// is set, `handle@domain` otherwise.
pub open spec fn spec_user_display(
    name: Option<Seq<char>>,
    handle: Seq<char>,
    domain: Seq<char>,
) -> Seq<u8> {
    let base = encode_utf8(handle) + seq![0x40u8] + encode_utf8(domain);
    match name {
        Some(n) => encode_utf8(n) + seq![0x20u8, 0x28u8] + base + seq![0x29u8],
        None => base,
    }
}

impl FediverseUser {
    /// Makes a session user logged in at `now`, expiring one day later.
    pub fn new(
        domain: String,
        handle: String,
        name: Option<String>,
        avatar_url: Option<String>,
        access_token: String,
        software: String,
        now: i64,
    ) -> (r: FediverseUser)
        requires
            now + SESSION_EXP_SECONDS <= i64::MAX,
        ensures
            r.domain == domain,
            r.handle == handle,
            r.name == name,
            r.avatar_url == avatar_url,
            r.access_token == access_token,
            r.software == software,
            r.exp == now + SESSION_EXP_SECONDS,
    {
        let exp = now + SESSION_EXP_SECONDS;
        FediverseUser { domain, handle, name, avatar_url, access_token, software, exp }
    }

    /// The name to show for this user: the display name when set, the
    /// handle otherwise.
    pub fn display_name(&self) -> (r: &str)
        ensures
            r@ == match self.name {
                Some(n) => n@,
                None => self.handle@,
            },
    {
        match &self.name {
            Some(n) => n.as_str(),
            None => self.handle.as_str(),
        }
    }

    /// The user rendered for logs: `name (handle@domain)` or
    /// `handle@domain`.
    pub fn display_bytes(&self) -> (r: Vec<u8>)
        ensures
            r@ == spec_user_display(
                match self.name {
                    Some(n) => Some(n@),
                    None => None,
                },
                self.handle@,
                self.domain@,
            ),
    {
        let mut out: Vec<u8> = Vec::new();
        match &self.name {
            Some(n) => {
                text::append_bytes(&mut out, n.as_str().as_bytes());
                out.push(0x20);
                out.push(0x28);
                text::append_bytes(&mut out, self.handle.as_str().as_bytes());
                out.push(0x40);
                text::append_bytes(&mut out, self.domain.as_str().as_bytes());
                out.push(0x29);
                proof {
                    assert(out@ =~= spec_user_display(
                        Some(n@),
                        self.handle@,
                        self.domain@,
                    ));
                }
            },
            None => {
                text::append_bytes(&mut out, self.handle.as_str().as_bytes());
                out.push(0x40);
                text::append_bytes(&mut out, self.domain.as_str().as_bytes());
                proof {
                    assert(out@ =~= spec_user_display(None, self.handle@, self.domain@));
                }
            },
        }
        out
    }
}

} // verus!
