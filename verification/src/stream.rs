//! The mention streamer: connection supervisor, wire-frame classification,
//! and the per-mention reply decision.
//!
//! The supervisor is a state machine `Connecting -> Streaming ->
//! (Disconnected | Stopped)`.  Transport failure always leads back to a
//! reconnect; only the external stop signal reaches the terminal `Stopped`
//! state, after which no connection attempt is ever made again.
use vstd::prelude::*;

use crate::dice;
use crate::replies::{ReplyTable, spec_keyword_reply, spec_no_keyword_reply};
use crate::text;

verus! {

/// The two supported remote software families.
#[derive(Clone, Copy, PartialEq, Eq, Structural, Debug)]
pub enum Family {
    Mastodon,
    Misskey,
}

/// Classifies the configured software-family tag.  `mastodon` is the
/// Mastodon family; `misskey`, `cherrypick` and `firefish` are the
/// Misskey-compatible family; anything else is a fatal misconfiguration.
pub fn software_family(name: &[u8]) -> (r: Option<Family>)
    ensures
        r == spec_software_family(name@),
{
    if text::bytes_eq(name, tag_mastodon().as_slice()) {
        Some(Family::Mastodon)
    } else if text::bytes_eq(name, tag_misskey().as_slice()) || text::bytes_eq(
        name,
        tag_cherrypick().as_slice(),
    ) || text::bytes_eq(name, tag_firefish().as_slice()) {
        Some(Family::Misskey)
    } else {
        None
    }
}

/// The family a software tag names, if any.
pub open spec fn spec_software_family(name: Seq<u8>) -> Option<Family> {
    if name == spec_tag_mastodon() {
        Some(Family::Mastodon)
    } else if name == spec_tag_misskey() || name == spec_tag_cherrypick() || name
        == spec_tag_firefish() {
        Some(Family::Misskey)
    } else {
        None
    }
}

/// The bytes of the tag `mastodon`.
pub open spec fn spec_tag_mastodon() -> Seq<u8> {
    seq![0x6du8, 0x61, 0x73, 0x74, 0x6f, 0x64, 0x6f, 0x6e]
}

/// The bytes of the tag `misskey`.
pub open spec fn spec_tag_misskey() -> Seq<u8> {
    seq![0x6du8, 0x69, 0x73, 0x73, 0x6b, 0x65, 0x79]
}

/// The bytes of the tag `cherrypick`.
pub open spec fn spec_tag_cherrypick() -> Seq<u8> {
    seq![0x63u8, 0x68, 0x65, 0x72, 0x72, 0x79, 0x70, 0x69, 0x63, 0x6b]
}

/// The bytes of the tag `firefish`.
pub open spec fn spec_tag_firefish() -> Seq<u8> {
    seq![0x66u8, 0x69, 0x72, 0x65, 0x66, 0x69, 0x73, 0x68]
}

/// The tag `mastodon` as bytes.
fn tag_mastodon() -> (r: Vec<u8>)
    ensures
        r@ == spec_tag_mastodon(),
{
    let mut v: Vec<u8> = Vec::new();
    v.push(0x6d);
    v.push(0x61);
    v.push(0x73);
    v.push(0x74);
    v.push(0x6f);
    v.push(0x64);
    v.push(0x6f);
    v.push(0x6e);
    proof {
        assert(v@ =~= spec_tag_mastodon());
    }
    v
}

/// The tag `misskey` as bytes.
fn tag_misskey() -> (r: Vec<u8>)
    ensures
        r@ == spec_tag_misskey(),
{
    let mut v: Vec<u8> = Vec::new();
    v.push(0x6d);
    v.push(0x69);
    v.push(0x73);
    v.push(0x73);
    v.push(0x6b);
    v.push(0x65);
    v.push(0x79);
    proof {
        assert(v@ =~= spec_tag_misskey());
    }
    v
}

/// The tag `cherrypick` as bytes.
fn tag_cherrypick() -> (r: Vec<u8>)
    ensures
        r@ == spec_tag_cherrypick(),
{
    let mut v: Vec<u8> = Vec::new();
    v.push(0x63);
    v.push(0x68);
    v.push(0x65);
    v.push(0x72);
    v.push(0x72);
    v.push(0x79);
    v.push(0x70);
    v.push(0x69);
    v.push(0x63);
    v.push(0x6b);
    proof {
        assert(v@ =~= spec_tag_cherrypick());
    }
    v
}

/// The tag `firefish` as bytes.
fn tag_firefish() -> (r: Vec<u8>)
    ensures
        r@ == spec_tag_firefish(),
{
    let mut v: Vec<u8> = Vec::new();
    v.push(0x66);
    v.push(0x69);
    v.push(0x72);
    v.push(0x65);
    v.push(0x66);
    v.push(0x69);
    v.push(0x73);
    v.push(0x68);
    proof {
        assert(v@ =~= spec_tag_firefish());
    }
    v
}

/// The bytes of the flag value `true`.
pub open spec fn spec_tag_true() -> Seq<u8> {
    seq![0x74u8, 0x72, 0x75, 0x65]
}

/// Reads a stored feature flag: enabled exactly when the stored value is
/// the word `true`; an absent or malformed value leaves the feature off.
pub fn flag_enabled(value: Option<&Vec<u8>>) -> (r: bool)
    ensures
        r == match value {
            Some(v) => v@ == spec_tag_true(),
            None => false,
        },
{
    match value {
        None => false,
        Some(v) => {
            let mut tag: Vec<u8> = Vec::new();
            tag.push(0x74);
            tag.push(0x72);
            tag.push(0x75);
            tag.push(0x65);
            proof {
                assert(tag@ =~= spec_tag_true());
            }
            text::bytes_eq(v.as_slice(), tag.as_slice())
        },
    }
}

/// The supervisor's state.
#[derive(Clone, Copy, PartialEq, Eq, Structural, Debug)]
pub enum SupervisorState {
    /// Opening an authenticated connection.
    Connecting,
    /// Reading frames from a live connection.
    Streaming,
    /// The connection was lost; a reconnect is due.
    Disconnected,
    /// Terminal: the stop signal fired.
    Stopped,
}

/// What the supervisor observes at a yield point.
#[derive(Clone, Copy, PartialEq, Eq, Structural, Debug)]
pub enum StreamEvent {
    /// A connection attempt succeeded.
    ConnectSucceeded,
    /// A connection attempt failed.
    ConnectFailed,
    /// A frame arrived on the live connection.
    FrameArrived,
    /// The connection closed or a read failed.
    StreamClosed,
    /// The external stop signal was observed.
    StopRequested,
}

/// What the runtime must do next.
#[derive(Clone, Copy, PartialEq, Eq, Structural, Debug)]
pub enum SupervisorAction {
    /// Attempt to open a connection.
    OpenConnection,
    /// Wait for the next frame.
    ReadFrame,
    /// Decode the frame and possibly reply, then read again.
    HandleFrame,
    /// Close any live connection and make no further attempts.
    CloseConnection,
}

/// The supervisor's transition function.
pub open spec fn spec_step(s: SupervisorState, e: StreamEvent) -> (SupervisorState,
    SupervisorAction) {
    match (s, e) {
        (SupervisorState::Stopped, _) => (
            SupervisorState::Stopped,
            SupervisorAction::CloseConnection,
        ),
        (_, StreamEvent::StopRequested) => (
            SupervisorState::Stopped,
            SupervisorAction::CloseConnection,
        ),
        (SupervisorState::Streaming, StreamEvent::FrameArrived) => (
            SupervisorState::Streaming,
            SupervisorAction::HandleFrame,
        ),
        (SupervisorState::Streaming, StreamEvent::StreamClosed) => (
            SupervisorState::Disconnected,
            SupervisorAction::OpenConnection,
        ),
        (SupervisorState::Streaming, _) => (SupervisorState::Streaming, SupervisorAction::ReadFrame),
        (_, StreamEvent::ConnectSucceeded) => (
            SupervisorState::Streaming,
            SupervisorAction::ReadFrame,
        ),
        (_, _) => (SupervisorState::Connecting, SupervisorAction::OpenConnection),
    }
}

/// Advances the supervisor by one observed event.
pub fn supervisor_step(s: SupervisorState, e: StreamEvent) -> (r: (
    SupervisorState,
    SupervisorAction,
))
    ensures
        r == spec_step(s, e),
{
    match (s, e) {
        (SupervisorState::Stopped, _) => (
            SupervisorState::Stopped,
            SupervisorAction::CloseConnection,
        ),
        (_, StreamEvent::StopRequested) => (
            SupervisorState::Stopped,
            SupervisorAction::CloseConnection,
        ),
        (SupervisorState::Streaming, StreamEvent::FrameArrived) => (
            SupervisorState::Streaming,
            SupervisorAction::HandleFrame,
        ),
        (SupervisorState::Streaming, StreamEvent::StreamClosed) => (
            SupervisorState::Disconnected,
            SupervisorAction::OpenConnection,
        ),
        (SupervisorState::Streaming, _) => (SupervisorState::Streaming, SupervisorAction::ReadFrame),
        (_, StreamEvent::ConnectSucceeded) => (
            SupervisorState::Streaming,
            SupervisorAction::ReadFrame,
        ),
        (_, _) => (SupervisorState::Connecting, SupervisorAction::OpenConnection),
    }
}

/// The state after a whole trace of events.
pub open spec fn run_steps(s: SupervisorState, events: Seq<StreamEvent>) -> SupervisorState
    decreases events.len(),
{
    if events.len() == 0 {
        s
    } else {
        run_steps(spec_step(s, events[0]).0, events.skip(1))
    }
}

/// How many events of a trace lead to a frame being handled (and so
/// possibly to a reply decision).
pub open spec fn handled_count(s: SupervisorState, events: Seq<StreamEvent>) -> nat
    decreases events.len(),
{
    if events.len() == 0 {
        0
    } else {
        (if spec_step(s, events[0]).1 == SupervisorAction::HandleFrame {
            1nat
        } else {
            0nat
        }) + handled_count(spec_step(s, events[0]).0, events.skip(1))
    }
}

/// How many events of a trace lead to a connection attempt.
pub open spec fn opens_count(s: SupervisorState, events: Seq<StreamEvent>) -> nat
    decreases events.len(),
{
    if events.len() == 0 {
        0
    } else {
        (if spec_step(s, events[0]).1 == SupervisorAction::OpenConnection {
            1nat
        } else {
            0nat
        }) + opens_count(spec_step(s, events[0]).0, events.skip(1))
    }
}

/// A trace of `n` failed connection attempts.
pub open spec fn failure_trace(n: nat) -> Seq<StreamEvent> {
    Seq::new(n, |i: int| StreamEvent::ConnectFailed)
}

/// Reconnect liveness: after any number of consecutive connection failures
/// followed by one success, the supervisor is `Streaming`, and no frame was
/// handled (so no reply decision was made) during the failed attempts.
pub proof fn lemma_reconnect_liveness(n: nat)
    ensures
        run_steps(SupervisorState::Connecting, failure_trace(n).push(StreamEvent::ConnectSucceeded))
            == SupervisorState::Streaming,
        handled_count(
            SupervisorState::Connecting,
            failure_trace(n).push(StreamEvent::ConnectSucceeded),
        ) == 0,
    decreases n,
{
    let tr = failure_trace(n).push(StreamEvent::ConnectSucceeded);
    if n == 0 {
        assert(tr.len() == 1);
        assert(tr[0] == StreamEvent::ConnectSucceeded);
        assert(tr.skip(1) =~= Seq::<StreamEvent>::empty());
        assert(run_steps(SupervisorState::Streaming, tr.skip(1)) == SupervisorState::Streaming);
        assert(handled_count(SupervisorState::Streaming, tr.skip(1)) == 0);
        assert(run_steps(SupervisorState::Connecting, tr) == run_steps(
            SupervisorState::Streaming,
            tr.skip(1),
        ));
        assert(handled_count(SupervisorState::Connecting, tr) == handled_count(
            SupervisorState::Streaming,
            tr.skip(1),
        ));
    } else {
        lemma_reconnect_liveness((n - 1) as nat);
        assert(tr[0] == StreamEvent::ConnectFailed);
        assert(spec_step(SupervisorState::Connecting, StreamEvent::ConnectFailed).0
            == SupervisorState::Connecting);
        assert(tr.skip(1) =~= failure_trace((n - 1) as nat).push(StreamEvent::ConnectSucceeded));
        assert(run_steps(SupervisorState::Connecting, tr) == run_steps(
            SupervisorState::Connecting,
            tr.skip(1),
        ));
        assert(handled_count(SupervisorState::Connecting, tr) == handled_count(
            SupervisorState::Connecting,
            tr.skip(1),
        ));
    }
}

/// Graceful stop: the stop signal moves any state to `Stopped` with the
/// order to close, in one step.
pub proof fn lemma_stop_is_immediate(s: SupervisorState)
    ensures
        spec_step(s, StreamEvent::StopRequested) == (
            SupervisorState::Stopped,
            SupervisorAction::CloseConnection,
        ),
{
}

/// Once stopped, the supervisor stays stopped and never orders another
/// connection attempt, whatever else is observed.
pub proof fn lemma_stopped_is_terminal(events: Seq<StreamEvent>)
    ensures
        run_steps(SupervisorState::Stopped, events) == SupervisorState::Stopped,
        opens_count(SupervisorState::Stopped, events) == 0,
    decreases events.len(),
{
    if events.len() > 0 {
        lemma_stopped_is_terminal(events.skip(1));
    }
}

/// A normalized mention, as an adapter decodes it from the wire.
pub struct MentionEvent {
    /// The author's handle; for the Mastodon family this is the full
    /// `user@host` account, for the Misskey family the bare user name.
    pub author_handle: Vec<u8>,
    /// The author's host, where the handle does not carry it.
    pub author_host: Option<Vec<u8>>,
    /// The mention's text.
    pub mention_text: Vec<u8>,
    /// The id of the message being replied to.
    pub reference_id: Vec<u8>,
}

/// A Mastodon-family mention payload: present exactly when the envelope's
/// payload decoded as a mention notification with all its fields.
pub struct MastodonPayload {
    pub acct: Vec<u8>,
    pub status_id: Vec<u8>,
    pub content: Vec<u8>,
}

/// One decoded Mastodon-family wire frame: the envelope's event name, and
/// the mention payload when there was one.
pub struct MastodonFrame {
    pub event: Vec<u8>,
    pub mention: Option<MastodonPayload>,
}

/// The bytes of the event name `notification`.
pub open spec fn spec_tag_notification() -> Seq<u8> {
    seq![0x6eu8, 0x6f, 0x74, 0x69, 0x66, 0x69, 0x63, 0x61, 0x74, 0x69, 0x6f, 0x6e]
}

/// The event name `notification` as bytes.
fn tag_notification() -> (r: Vec<u8>)
    ensures
        r@ == spec_tag_notification(),
{
    let mut v: Vec<u8> = Vec::new();
    v.push(0x6e);
    v.push(0x6f);
    v.push(0x74);
    v.push(0x69);
    v.push(0x66);
    v.push(0x69);
    v.push(0x63);
    v.push(0x61);
    v.push(0x74);
    v.push(0x69);
    v.push(0x6f);
    v.push(0x6e);
    proof {
        assert(v@ =~= spec_tag_notification());
    }
    v
}

/// Classifies a Mastodon-family frame: a mention exactly when the envelope
/// is a `notification` carrying a mention payload; every other frame is a
/// control frame to ignore.
pub fn classify_mastodon(frame: MastodonFrame) -> (r: Option<MentionEvent>)
    ensures
        match r {
            Some(ev) => {
                &&& frame.event@ == spec_tag_notification()
                &&& frame.mention is Some
                &&& ev.author_handle@ == frame.mention->0.acct@
                &&& ev.author_host is None
                &&& ev.mention_text@ == frame.mention->0.content@
                &&& ev.reference_id@ == frame.mention->0.status_id@
            },
            None => frame.event@ != spec_tag_notification() || frame.mention is None,
        },
{
    if !text::bytes_eq(frame.event.as_slice(), tag_notification().as_slice()) {
        return None;
    }
    match frame.mention {
        Some(payload) => Some(
            MentionEvent {
                author_handle: payload.acct,
                author_host: None,
                mention_text: payload.content,
                reference_id: payload.status_id,
            },
        ),
        None => None,
    }
}

/// A Misskey-family mention body: present exactly when the channel message
/// decoded as a mention with all its fields.
pub struct MisskeyMention {
    pub note_id: Vec<u8>,
    pub username: Vec<u8>,
    pub host: Vec<u8>,
    pub text: Vec<u8>,
}

/// One decoded Misskey-family wire frame: the channel id it arrived on, if
/// it was a channel message, and the mention body when there was one.
pub struct MisskeyFrame {
    pub channel: Option<Vec<u8>>,
    pub mention: Option<MisskeyMention>,
}

/// Classifies a Misskey-family frame: a mention exactly when it is a
/// channel message on the locally chosen channel (stale or foreign channel
/// traffic is discriminated away) carrying a mention body.
pub fn classify_misskey(frame: MisskeyFrame, expected_channel: &[u8]) -> (r: Option<MentionEvent>)
    ensures
        match r {
            Some(ev) => {
                &&& frame.channel is Some
                &&& frame.channel->0@ == expected_channel@
                &&& frame.mention is Some
                &&& ev.author_handle@ == frame.mention->0.username@
                &&& ev.author_host == Some(frame.mention->0.host)
                &&& ev.mention_text@ == frame.mention->0.text@
                &&& ev.reference_id@ == frame.mention->0.note_id@
            },
            None => frame.channel is None || frame.channel->0@ != expected_channel@
                || frame.mention is None,
        },
{
    match frame.channel {
        None => None,
        Some(ch) => {
            if !text::bytes_eq(ch.as_slice(), expected_channel) {
                return None;
            }
            match frame.mention {
                Some(body) => Some(
                    MentionEvent {
                        author_handle: body.username,
                        author_host: Some(body.host),
                        mention_text: body.text,
                        reference_id: body.note_id,
                    },
                ),
                None => None,
            }
        },
    }
}

/// The decision made for one mention: what to post, if anything.
pub struct ReplyDecision {
    /// The full reply text, addressed at the author.
    pub text: Vec<u8>,
    /// The id of the mention being answered, the reply's thread target.
    pub reply_target: Vec<u8>,
}

/// The reply body chosen for a mention, if any: a keyword reply when one
/// keyword matches, else a dice reply when the dice feature is on and the
/// text carries a dice pattern; dice are only consulted when no keyword
/// matched.
pub open spec fn spec_response_chosen(
    tbl: crate::replies::ReplyMapView,
    mention: Seq<u8>,
    dice_enabled: bool,
    body: Seq<u8>,
) -> bool {
    spec_keyword_reply(tbl, mention, body) || (spec_no_keyword_reply(tbl, mention) && dice_enabled
        && dice::spec_dice_reply(mention, body))
}

/// No reply is owed to a mention: no keyword matches (or the winning pool
/// is empty), and the dice engine is off or rejects the text.
pub open spec fn spec_no_response(
    tbl: crate::replies::ReplyMapView,
    mention: Seq<u8>,
    dice_enabled: bool,
) -> bool {
    spec_no_keyword_reply(tbl, mention) && (!dice_enabled || dice::spec_dice_rejected(mention))
}

/// Chooses at most one reply body for a mention: keyword replies first,
/// dice only as a fallback when no keyword matched and the flag is on.
pub fn choose_response(table: &ReplyTable, mention_text: &[u8], dice_enabled: bool) -> (r: Option<
    Vec<u8>,
>)
    requires
        table.wf(),
    ensures
        match r {
            Some(body) => spec_response_chosen(table@, mention_text@, dice_enabled, body@),
            None => spec_no_response(table@, mention_text@, dice_enabled),
        },
{
    match table.get_reply(mention_text) {
        Some(body) => Some(body),
        None => {
            if dice_enabled {
                dice::get_dice(mention_text)
            } else {
                None
            }
        },
    }
}

/// Composes the outgoing reply: addressed publicly at the author
/// (`@handle` or `@user@host`), a space, then the body, threaded onto the
/// original message so the bot never answers itself in a loop.
pub fn compose_reply(event: &MentionEvent, body: Vec<u8>) -> (r: Vec<u8>)
    ensures
        r@ == seq![0x40u8] + event.author_handle@ + (match event.author_host {
            Some(h) => seq![0x40u8] + h@,
            None => Seq::<u8>::empty(),
        }) + seq![0x20u8] + body@,
{
    let mut out: Vec<u8> = Vec::new();
    out.push(0x40);
    text::append_bytes(&mut out, event.author_handle.as_slice());
    match &event.author_host {
        Some(h) => {
            out.push(0x40);
            text::append_bytes(&mut out, h.as_slice());
        },
        None => {},
    }
    out.push(0x20);
    text::append_bytes(&mut out, body.as_slice());
    proof {
        assert(out@ =~= seq![0x40u8] + event.author_handle@ + (match event.author_host {
            Some(h) => seq![0x40u8] + h@,
            None => Seq::<u8>::empty(),
        }) + seq![0x20u8] + body@);
    }
    out
}

/// Handles one decoded mention: decides the reply and addresses it.
///
/// Returns `None` exactly when neither the keyword table nor the dice
/// engine owes a reply; this is a normal outcome, not an error.
pub fn handle_mention(table: &ReplyTable, event: &MentionEvent, dice_enabled: bool) -> (r: Option<
    ReplyDecision,
>)
    requires
        table.wf(),
    ensures
        match r {
            Some(d) => exists|body: Seq<u8>|
                #[trigger] spec_response_chosen(table@, event.mention_text@, dice_enabled, body)
                    && d.text@ == seq![0x40u8] + event.author_handle@ + (match event.author_host {
                    Some(h) => seq![0x40u8] + h@,
                    None => Seq::<u8>::empty(),
                }) + seq![0x20u8] + body && d.reply_target@ == event.reference_id@,
            None => spec_no_response(table@, event.mention_text@, dice_enabled),
        },
{
    match choose_response(table, event.mention_text.as_slice(), dice_enabled) {
        None => None,
        Some(body) => {
            let ghost b = body@;
            let text = compose_reply(event, body);
            let mut reply_target: Vec<u8> = Vec::new();
            text::append_bytes(&mut reply_target, event.reference_id.as_slice());
            proof {
                assert(spec_response_chosen(table@, event.mention_text@, dice_enabled, b));
            }
            Some(ReplyDecision { text, reply_target })
        },
    }
}

} // verus!
