//! Outbound requests: the status post each adapter sends, and the
//! real-time connection each adapter opens.
//!
//! A quote is posted with restricted visibility (`unlisted` on the
//! Mastodon family, `home` on the Misskey family), never fully public.
//! The Mastodon family authenticates with a bearer header; the Misskey
//! family carries the credential in the request body, and its streaming
//! connection in the connect URL.
use vstd::prelude::*;

use crate::stream::Family;
use crate::text;

verus! {

/// The bytes of `https://`.
pub open spec fn spec_https_tag() -> Seq<u8> {
    seq![0x68u8, 0x74, 0x74, 0x70, 0x73, 0x3a, 0x2f, 0x2f]
}

fn https_tag() -> (r: Vec<u8>)
    ensures
        r@ == spec_https_tag(),
{
    let mut v: Vec<u8> = Vec::new();
    v.push(0x68);
    v.push(0x74);
    v.push(0x74);
    v.push(0x70);
    v.push(0x73);
    v.push(0x3a);
    v.push(0x2f);
    v.push(0x2f);
    proof {
        assert(v@ =~= spec_https_tag());
    }
    v
}

/// The bytes of `wss://`.
pub open spec fn spec_wss_tag() -> Seq<u8> {
    seq![0x77u8, 0x73, 0x73, 0x3a, 0x2f, 0x2f]
}

fn wss_tag() -> (r: Vec<u8>)
    ensures
        r@ == spec_wss_tag(),
{
    let mut v: Vec<u8> = Vec::new();
    v.push(0x77);
    v.push(0x73);
    v.push(0x73);
    v.push(0x3a);
    v.push(0x2f);
    v.push(0x2f);
    proof {
        assert(v@ =~= spec_wss_tag());
    }
    v
}

/// The bytes of `/api/v1/statuses`.
pub open spec fn spec_statuses_path_tag() -> Seq<u8> {
    seq![0x2fu8, 0x61, 0x70, 0x69, 0x2f, 0x76, 0x31, 0x2f, 0x73, 0x74, 0x61, 0x74, 0x75, 0x73, 0x65, 0x73]
}

fn statuses_path_tag() -> (r: Vec<u8>)
    ensures
        r@ == spec_statuses_path_tag(),
{
    let mut v: Vec<u8> = Vec::new();
    v.push(0x2f);
    v.push(0x61);
    v.push(0x70);
    v.push(0x69);
    v.push(0x2f);
    v.push(0x76);
    v.push(0x31);
    v.push(0x2f);
    v.push(0x73);
    v.push(0x74);
    v.push(0x61);
    v.push(0x74);
    v.push(0x75);
    v.push(0x73);
    v.push(0x65);
    v.push(0x73);
    proof {
        assert(v@ =~= spec_statuses_path_tag());
    }
    v
}

/// The bytes of `/api/notes/create`.
pub open spec fn spec_notes_path_tag() -> Seq<u8> {
    seq![0x2fu8, 0x61, 0x70, 0x69, 0x2f, 0x6e, 0x6f, 0x74, 0x65, 0x73, 0x2f, 0x63, 0x72, 0x65, 0x61, 0x74, 0x65]
}

fn notes_path_tag() -> (r: Vec<u8>)
    ensures
        r@ == spec_notes_path_tag(),
{
    let mut v: Vec<u8> = Vec::new();
    v.push(0x2f);
    v.push(0x61);
    v.push(0x70);
    v.push(0x69);
    v.push(0x2f);
    v.push(0x6e);
    v.push(0x6f);
    v.push(0x74);
    v.push(0x65);
    v.push(0x73);
    v.push(0x2f);
    v.push(0x63);
    v.push(0x72);
    v.push(0x65);
    v.push(0x61);
    v.push(0x74);
    v.push(0x65);
    proof {
        assert(v@ =~= spec_notes_path_tag());
    }
    v
}

/// The bytes of `unlisted`.
pub open spec fn spec_unlisted_tag() -> Seq<u8> {
    seq![0x75u8, 0x6e, 0x6c, 0x69, 0x73, 0x74, 0x65, 0x64]
}

fn unlisted_tag() -> (r: Vec<u8>)
    ensures
        r@ == spec_unlisted_tag(),
{
    let mut v: Vec<u8> = Vec::new();
    v.push(0x75);
    v.push(0x6e);
    v.push(0x6c);
    v.push(0x69);
    v.push(0x73);
    v.push(0x74);
    v.push(0x65);
    v.push(0x64);
    proof {
        assert(v@ =~= spec_unlisted_tag());
    }
    v
}

/// The bytes of `home`.
pub open spec fn spec_home_tag() -> Seq<u8> {
    seq![0x68u8, 0x6f, 0x6d, 0x65]
}

fn home_tag() -> (r: Vec<u8>)
    ensures
        r@ == spec_home_tag(),
{
    let mut v: Vec<u8> = Vec::new();
    v.push(0x68);
    v.push(0x6f);
    v.push(0x6d);
    v.push(0x65);
    proof {
        assert(v@ =~= spec_home_tag());
    }
    v
}

/// The bytes of `/api/v1/streaming?stream=user:notification`.
pub open spec fn spec_mastodon_stream_path_tag() -> Seq<u8> {
    seq![0x2fu8, 0x61, 0x70, 0x69, 0x2f, 0x76, 0x31, 0x2f, 0x73, 0x74, 0x72, 0x65, 0x61, 0x6d, 0x69, 0x6e, 0x67, 0x3f, 0x73, 0x74, 0x72, 0x65, 0x61, 0x6d, 0x3d, 0x75, 0x73, 0x65, 0x72, 0x3a, 0x6e, 0x6f, 0x74, 0x69, 0x66, 0x69, 0x63, 0x61, 0x74, 0x69, 0x6f, 0x6e]
}

fn mastodon_stream_path_tag() -> (r: Vec<u8>)
    ensures
        r@ == spec_mastodon_stream_path_tag(),
{
    let mut v: Vec<u8> = Vec::new();
    v.push(0x2f);
    v.push(0x61);
    v.push(0x70);
    v.push(0x69);
    v.push(0x2f);
    v.push(0x76);
    v.push(0x31);
    v.push(0x2f);
    v.push(0x73);
    v.push(0x74);
    v.push(0x72);
    v.push(0x65);
    v.push(0x61);
    v.push(0x6d);
    v.push(0x69);
    v.push(0x6e);
    v.push(0x67);
    v.push(0x3f);
    v.push(0x73);
    v.push(0x74);
    v.push(0x72);
    v.push(0x65);
    v.push(0x61);
    v.push(0x6d);
    v.push(0x3d);
    v.push(0x75);
    v.push(0x73);
    v.push(0x65);
    v.push(0x72);
    v.push(0x3a);
    v.push(0x6e);
    v.push(0x6f);
    v.push(0x74);
    v.push(0x69);
    v.push(0x66);
    v.push(0x69);
    v.push(0x63);
    v.push(0x61);
    v.push(0x74);
    v.push(0x69);
    v.push(0x6f);
    v.push(0x6e);
    proof {
        assert(v@ =~= spec_mastodon_stream_path_tag());
    }
    v
}

/// The bytes of `/streaming?i=`.
pub open spec fn spec_misskey_stream_path_tag() -> Seq<u8> {
    seq![0x2fu8, 0x73, 0x74, 0x72, 0x65, 0x61, 0x6d, 0x69, 0x6e, 0x67, 0x3f, 0x69, 0x3d]
}

fn misskey_stream_path_tag() -> (r: Vec<u8>)
    ensures
        r@ == spec_misskey_stream_path_tag(),
{
    let mut v: Vec<u8> = Vec::new();
    v.push(0x2f);
    v.push(0x73);
    v.push(0x74);
    v.push(0x72);
    v.push(0x65);
    v.push(0x61);
    v.push(0x6d);
    v.push(0x69);
    v.push(0x6e);
    v.push(0x67);
    v.push(0x3f);
    v.push(0x69);
    v.push(0x3d);
    proof {
        assert(v@ =~= spec_misskey_stream_path_tag());
    }
    v
}

/// One outbound status post, ready for the HTTP layer to send.
pub struct OutboundPost {
    /// The full request URL.
    pub url: Vec<u8>,
    /// The visibility to request.
    pub visibility: Vec<u8>,
    /// The status text.
    pub text: Vec<u8>,
    /// The message this post replies to, if any.
    pub reply_to: Option<Vec<u8>>,
    /// Whether the credential goes in a bearer header (Mastodon family) or
    /// in the request body (Misskey family).
    pub bearer_auth: bool,
}

/// The URL a family posts statuses to.
pub open spec fn spec_post_url(family: Family, domain: Seq<u8>) -> Seq<u8> {
    match family {
        Family::Mastodon => spec_https_tag() + domain + spec_statuses_path_tag(),
        Family::Misskey => spec_https_tag() + domain + spec_notes_path_tag(),
    }
}

/// The visibility a family posts with: restricted, never public.
pub open spec fn spec_post_visibility(family: Family) -> Seq<u8> {
    match family {
        Family::Mastodon => spec_unlisted_tag(),
        Family::Misskey => spec_home_tag(),
    }
}

/// Plans one status post: the family's endpoint, its restricted
/// visibility, the text and thread target unchanged, and where the
/// credential goes.
pub fn plan_status_post(family: Family, domain: &[u8], text: Vec<u8>, reply_to: Option<Vec<u8>>)
    -> (r: OutboundPost)
    ensures
        r.url@ == spec_post_url(family, domain@),
        r.visibility@ == spec_post_visibility(family),
        r.text@ == text@,
        r.reply_to == reply_to,
        r.bearer_auth == (family is Mastodon),
{
    let mut url = https_tag();
    text::append_bytes(&mut url, domain);
    match family {
        Family::Mastodon => {
            let path = statuses_path_tag();
            text::append_bytes(&mut url, path.as_slice());
            OutboundPost { url, visibility: unlisted_tag(), text, reply_to, bearer_auth: true }
        },
        Family::Misskey => {
            let path = notes_path_tag();
            text::append_bytes(&mut url, path.as_slice());
            OutboundPost { url, visibility: home_tag(), text, reply_to, bearer_auth: false }
        },
    }
}

/// The URL a family's real-time stream is opened at.  The Mastodon family
/// subscribes to the personal notification stream and authenticates with a
/// bearer header; the Misskey family passes the credential in the URL and
/// subscribes by a later channel handshake.
pub open spec fn spec_connect_url(family: Family, domain: Seq<u8>, token: Seq<u8>) -> Seq<u8> {
    match family {
        Family::Mastodon => spec_wss_tag() + domain + spec_mastodon_stream_path_tag(),
        Family::Misskey => spec_wss_tag() + domain + spec_misskey_stream_path_tag() + token,
    }
}

/// Builds the connect URL for a family.
pub fn connect_url(family: Family, domain: &[u8], token: &[u8]) -> (r: Vec<u8>)
    ensures
        r@ == spec_connect_url(family, domain@, token@),
{
    let mut url = wss_tag();
    text::append_bytes(&mut url, domain);
    match family {
        Family::Mastodon => {
            let path = mastodon_stream_path_tag();
            text::append_bytes(&mut url, path.as_slice());
        },
        Family::Misskey => {
            let path = misskey_stream_path_tag();
            text::append_bytes(&mut url, path.as_slice());
            text::append_bytes(&mut url, token);
        },
    }
    url
}

} // verus!
