//! Names of the store resources that hold one account's data.
//!
//! Each name is a fixed prefix followed by the account's coordinates,
//! normalized to the store's naming rules: ASCII letters lower-cased and
//! `_` replaced by `-`.
use vstd::prelude::*;

use crate::text;
use crate::text::sanitized;

verus! {

/// The bytes of the prefix `fediq-fediverse-app-`.
pub open spec fn spec_prefix_app_secret() -> Seq<u8> {
    seq![0x66u8, 0x65, 0x64, 0x69, 0x71, 0x2d, 0x66, 0x65, 0x64, 0x69, 0x76, 0x65, 0x72, 0x73, 0x65, 0x2d, 0x61, 0x70, 0x70, 0x2d]
}

/// The name under which this account's application registration is stored.
pub open spec fn spec_app_secret_name(domain: Seq<u8>) -> Seq<u8> {
    sanitized(spec_prefix_app_secret() + domain)
}

/// Builds that name from the account's domain.
pub fn fediverse_app_secret_name(domain: &[u8]) -> (r: Vec<u8>)
    ensures
        r@ == spec_app_secret_name(domain@),
{
    let mut raw: Vec<u8> = Vec::new();
    raw.push(0x66);
    raw.push(0x65);
    raw.push(0x64);
    raw.push(0x69);
    raw.push(0x71);
    raw.push(0x2d);
    raw.push(0x66);
    raw.push(0x65);
    raw.push(0x64);
    raw.push(0x69);
    raw.push(0x76);
    raw.push(0x65);
    raw.push(0x72);
    raw.push(0x73);
    raw.push(0x65);
    raw.push(0x2d);
    raw.push(0x61);
    raw.push(0x70);
    raw.push(0x70);
    raw.push(0x2d);
    proof {
        assert(raw@ =~= spec_prefix_app_secret());
    }
    text::append_bytes(&mut raw, domain);
    let mut out: Vec<u8> = Vec::new();
    text::append_sanitized(&mut out, raw.as_slice());
    proof {
        assert(raw@ =~= spec_prefix_app_secret() + domain@);
    }
    out
}

/// The bytes of the prefix `fediq-quotes-`.
pub open spec fn spec_prefix_quotes() -> Seq<u8> {
    seq![0x66u8, 0x65, 0x64, 0x69, 0x71, 0x2d, 0x71, 0x75, 0x6f, 0x74, 0x65, 0x73, 0x2d]
}

/// The name under which this account's `quotes` resource is stored.
pub open spec fn spec_quotes_name(domain: Seq<u8>, handle: Seq<u8>) -> Seq<u8> {
    sanitized(spec_prefix_quotes() + domain + seq![0x2du8] + handle)
}

/// Builds that name from the account's domain and handle.
pub fn quotes_configmap_name(domain: &[u8], handle: &[u8]) -> (r: Vec<u8>)
    ensures
        r@ == spec_quotes_name(domain@, handle@),
{
    let mut raw: Vec<u8> = Vec::new();
    raw.push(0x66);
    raw.push(0x65);
    raw.push(0x64);
    raw.push(0x69);
    raw.push(0x71);
    raw.push(0x2d);
    raw.push(0x71);
    raw.push(0x75);
    raw.push(0x6f);
    raw.push(0x74);
    raw.push(0x65);
    raw.push(0x73);
    raw.push(0x2d);
    proof {
        assert(raw@ =~= spec_prefix_quotes());
    }
    text::append_bytes(&mut raw, domain);
    raw.push(0x2d);
    text::append_bytes(&mut raw, handle);
    let mut out: Vec<u8> = Vec::new();
    text::append_sanitized(&mut out, raw.as_slice());
    proof {
        assert(raw@ =~= spec_prefix_quotes() + domain@ + seq![0x2du8] + handle@);
    }
    out
}

/// The bytes of the prefix `fediq-replies-`.
pub open spec fn spec_prefix_replies() -> Seq<u8> {
    seq![0x66u8, 0x65, 0x64, 0x69, 0x71, 0x2d, 0x72, 0x65, 0x70, 0x6c, 0x69, 0x65, 0x73, 0x2d]
}

/// The name under which this account's `replies` resource is stored.
pub open spec fn spec_replies_name(domain: Seq<u8>, handle: Seq<u8>) -> Seq<u8> {
    sanitized(spec_prefix_replies() + domain + seq![0x2du8] + handle)
}

/// Builds that name from the account's domain and handle.
pub fn replies_configmap_name(domain: &[u8], handle: &[u8]) -> (r: Vec<u8>)
    ensures
        r@ == spec_replies_name(domain@, handle@),
{
    let mut raw: Vec<u8> = Vec::new();
    raw.push(0x66);
    raw.push(0x65);
    raw.push(0x64);
    raw.push(0x69);
    raw.push(0x71);
    raw.push(0x2d);
    raw.push(0x72);
    raw.push(0x65);
    raw.push(0x70);
    raw.push(0x6c);
    raw.push(0x69);
    raw.push(0x65);
    raw.push(0x73);
    raw.push(0x2d);
    proof {
        assert(raw@ =~= spec_prefix_replies());
    }
    text::append_bytes(&mut raw, domain);
    raw.push(0x2d);
    text::append_bytes(&mut raw, handle);
    let mut out: Vec<u8> = Vec::new();
    text::append_sanitized(&mut out, raw.as_slice());
    proof {
        assert(raw@ =~= spec_prefix_replies() + domain@ + seq![0x2du8] + handle@);
    }
    out
}

/// The bytes of the prefix `fediq-quote-dedup-`.
pub open spec fn spec_prefix_quote_dedup() -> Seq<u8> {
    seq![0x66u8, 0x65, 0x64, 0x69, 0x71, 0x2d, 0x71, 0x75, 0x6f, 0x74, 0x65, 0x2d, 0x64, 0x65, 0x64, 0x75, 0x70, 0x2d]
}

/// The name under which this account's `quote-dedup` resource is stored.
pub open spec fn spec_quote_dedup_name(domain: Seq<u8>, handle: Seq<u8>) -> Seq<u8> {
    sanitized(spec_prefix_quote_dedup() + domain + seq![0x2du8] + handle)
}

/// Builds that name from the account's domain and handle.
pub fn quote_dedup_configmap_name(domain: &[u8], handle: &[u8]) -> (r: Vec<u8>)
    ensures
        r@ == spec_quote_dedup_name(domain@, handle@),
{
    let mut raw: Vec<u8> = Vec::new();
    raw.push(0x66);
    raw.push(0x65);
    raw.push(0x64);
    raw.push(0x69);
    raw.push(0x71);
    raw.push(0x2d);
    raw.push(0x71);
    raw.push(0x75);
    raw.push(0x6f);
    raw.push(0x74);
    raw.push(0x65);
    raw.push(0x2d);
    raw.push(0x64);
    raw.push(0x65);
    raw.push(0x64);
    raw.push(0x75);
    raw.push(0x70);
    raw.push(0x2d);
    proof {
        assert(raw@ =~= spec_prefix_quote_dedup());
    }
    text::append_bytes(&mut raw, domain);
    raw.push(0x2d);
    text::append_bytes(&mut raw, handle);
    let mut out: Vec<u8> = Vec::new();
    text::append_sanitized(&mut out, raw.as_slice());
    proof {
        assert(raw@ =~= spec_prefix_quote_dedup() + domain@ + seq![0x2du8] + handle@);
    }
    out
}

/// The bytes of the prefix `fediq-poster-`.
pub open spec fn spec_prefix_poster_cronjob() -> Seq<u8> {
    seq![0x66u8, 0x65, 0x64, 0x69, 0x71, 0x2d, 0x70, 0x6f, 0x73, 0x74, 0x65, 0x72, 0x2d]
}

/// The name under which this account's `poster-cronjob` resource is stored.
pub open spec fn spec_poster_cronjob_name(domain: Seq<u8>, handle: Seq<u8>) -> Seq<u8> {
    sanitized(spec_prefix_poster_cronjob() + domain + seq![0x2du8] + handle)
}

/// Builds that name from the account's domain and handle.
pub fn poster_cronjob_name(domain: &[u8], handle: &[u8]) -> (r: Vec<u8>)
    ensures
        r@ == spec_poster_cronjob_name(domain@, handle@),
{
    let mut raw: Vec<u8> = Vec::new();
    raw.push(0x66);
    raw.push(0x65);
    raw.push(0x64);
    raw.push(0x69);
    raw.push(0x71);
    raw.push(0x2d);
    raw.push(0x70);
    raw.push(0x6f);
    raw.push(0x73);
    raw.push(0x74);
    raw.push(0x65);
    raw.push(0x72);
    raw.push(0x2d);
    proof {
        assert(raw@ =~= spec_prefix_poster_cronjob());
    }
    text::append_bytes(&mut raw, domain);
    raw.push(0x2d);
    text::append_bytes(&mut raw, handle);
    let mut out: Vec<u8> = Vec::new();
    text::append_sanitized(&mut out, raw.as_slice());
    proof {
        assert(raw@ =~= spec_prefix_poster_cronjob() + domain@ + seq![0x2du8] + handle@);
    }
    out
}

/// The bytes of the prefix `fediq-streaming-`.
pub open spec fn spec_prefix_streaming_deployment() -> Seq<u8> {
    seq![0x66u8, 0x65, 0x64, 0x69, 0x71, 0x2d, 0x73, 0x74, 0x72, 0x65, 0x61, 0x6d, 0x69, 0x6e, 0x67, 0x2d]
}

/// The name under which this account's `streaming-deployment` resource is stored.
pub open spec fn spec_streaming_deployment_name(domain: Seq<u8>, handle: Seq<u8>) -> Seq<u8> {
    sanitized(spec_prefix_streaming_deployment() + domain + seq![0x2du8] + handle)
}

/// Builds that name from the account's domain and handle.
pub fn streaming_deployment_name(domain: &[u8], handle: &[u8]) -> (r: Vec<u8>)
    ensures
        r@ == spec_streaming_deployment_name(domain@, handle@),
{
    let mut raw: Vec<u8> = Vec::new();
    raw.push(0x66);
    raw.push(0x65);
    raw.push(0x64);
    raw.push(0x69);
    raw.push(0x71);
    raw.push(0x2d);
    raw.push(0x73);
    raw.push(0x74);
    raw.push(0x72);
    raw.push(0x65);
    raw.push(0x61);
    raw.push(0x6d);
    raw.push(0x69);
    raw.push(0x6e);
    raw.push(0x67);
    raw.push(0x2d);
    proof {
        assert(raw@ =~= spec_prefix_streaming_deployment());
    }
    text::append_bytes(&mut raw, domain);
    raw.push(0x2d);
    text::append_bytes(&mut raw, handle);
    let mut out: Vec<u8> = Vec::new();
    text::append_sanitized(&mut out, raw.as_slice());
    proof {
        assert(raw@ =~= spec_prefix_streaming_deployment() + domain@ + seq![0x2du8] + handle@);
    }
    out
}

/// The address the admin service listens on when none is configured.
pub fn default_listen_addr() -> (r: String)
    ensures
        r@ == "0.0.0.0:3000"@,
{
    "0.0.0.0:3000".to_owned()
}

} // verus!
