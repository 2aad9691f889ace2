//! One gateway session: the channels it subscribes and the notifications it
//! publishes on connect, the dispatch of inbound frames while it is active,
//! and the unwinding of its subscriptions on disconnect.
use vstd::prelude::*;

use crate::aggregate::{friend_channel, subscriptions_key, user_channel, views_of};
use crate::codec::{
    compress_frame, decompress, deflate_of, envelope_jv, find_key, frame_of, take_one, InEvent,
};
use crate::json::{ser, sp_json, Json, Jv};
use crate::names::{
    b_kind_ping, b_kind_pong, b_kind_push_token, b_kind_presence_update, b_kind_init, b_id,
    b_presence, b_last_seen, b_online, b_token, k_kind_init, k_kind_ping, k_kind_pong,
    k_kind_presence_update, k_kind_push_token, k_chan_f, k_chan_u, k_id, k_last_seen, k_online,
    k_presence, k_subscriptions_suffix, k_token, k_user_session_prefix,
};
use crate::store::MemStore;
use crate::json::copy_bytes;

verus! {

/// The client events the gateway recognizes.
pub enum RealTimeEvents {
    Ping,
    PushToken { token: String },
}

/// Relies on `String::from_utf8`: it succeeds exactly on valid UTF-8, and
/// the returned string holds exactly the given bytes.
#[verifier::external_body]
fn bytes_to_string(b: Vec<u8>) -> (r: Option<String>)
    ensures
        match r {
            Some(s) => vstd::utf8::valid_utf8(b@) && vstd::utf8::encode_utf8(s@) == b@,
            None => !vstd::utf8::valid_utf8(b@),
        },
{
    String::from_utf8(b).ok()
}

/// The token a `PUSH_TOKEN` payload carries, if it is well-shaped.
pub open spec fn token_of(d: Jv) -> Option<Seq<u8>> {
    match d {
        Jv::Obj(pairs) => match find_key(pairs, k_token()) {
            Some(Jv::Str(t)) => Some(t),
            _ => None,
        },
        _ => None,
    }
}

/// Reads one decoded frame into a recognized client event; anything else,
/// a `PUSH_TOKEN` payload without a string token included, reads as nothing.
pub fn parse_event(ev: InEvent) -> (r: Option<RealTimeEvents>)
    ensures
        match r {
            Some(RealTimeEvents::Ping) => ev.kind@ == k_kind_ping(),
            Some(RealTimeEvents::PushToken { token }) => ev.kind@ == k_kind_push_token()
                && (match token_of(ev.data.jv()) {
                Some(t) => vstd::utf8::valid_utf8(t) && vstd::utf8::encode_utf8(token@) == t,
                None => false,
            }),
            None => ev.kind@ != k_kind_ping() && (ev.kind@ != k_kind_push_token() || (match
                token_of(ev.data.jv()) {
                Some(t) => !vstd::utf8::valid_utf8(t),
                None => true,
            })),
        },
{
    let ping = b_kind_ping();
    let push = b_kind_push_token();
    if crate::codec::bytes_eq(ev.kind.as_slice(), ping.as_slice()) {
        return Some(RealTimeEvents::Ping);
    }
    if !crate::codec::bytes_eq(ev.kind.as_slice(), push.as_slice()) {
        return None;
    }
    match ev.data {
        Json::Obj(pairs) => {
            let kt = b_token();
            match take_one(pairs, &kt) {
                Some(Json::Str(t)) => match bytes_to_string(t) {
                    Some(token) => Some(RealTimeEvents::PushToken { token }),
                    None => None,
                },
                _ => None,
            }
        },
        _ => None,
    }
}

/// What the session does with one inbound frame's decompressed bytes.
pub enum ActionModel {
    Pong,
    StoreToken(Seq<u8>),
    Ignore,
}

/// The dispatch decision for the decompressed bytes of one inbound frame:
/// `PING` is answered, a well-shaped `PUSH_TOKEN` is recorded, and all else,
/// malformed input included, is ignored.
pub open spec fn dispatch_model(x: Seq<u8>) -> ActionModel {
    match sp_json(x) {
        Some(v) => match frame_of(v) {
            Some((k, d)) => if k == k_kind_ping() {
                ActionModel::Pong
            } else if k == k_kind_push_token() {
                match token_of(d) {
                    Some(t) => if vstd::utf8::valid_utf8(t) {
                        ActionModel::StoreToken(t)
                    } else {
                        ActionModel::Ignore
                    },
                    None => ActionModel::Ignore,
                }
            } else {
                ActionModel::Ignore
            },
            None => ActionModel::Ignore,
        },
        None => ActionModel::Ignore,
    }
}

/// What the session does with one inbound frame.
pub enum InboundAction {
    ReplyPong,
    StorePushToken { token: String },
    Ignore,
}

/// Whether an action carries out a dispatch decision.
pub open spec fn action_matches(r: InboundAction, m: ActionModel) -> bool {
    match m {
        ActionModel::Pong => r is ReplyPong,
        ActionModel::StoreToken(t) => r matches InboundAction::StorePushToken { token }
            && vstd::utf8::encode_utf8(token@) == t,
        ActionModel::Ignore => r is Ignore,
    }
}

/// Decides what to do with one inbound frame: decompress, parse, dispatch.
/// Whatever bytes the frame decompresses to, the action taken is the
/// dispatch decision for those bytes; a frame that does not decompress is
/// ignored and the session stays open.
pub fn dispatch_event(msg: &[u8]) -> (r: InboundAction)
    ensures
        forall|x: Seq<u8>| msg@ == #[trigger] deflate_of(x) ==> action_matches(
            r,
            dispatch_model(x),
        ),
{
    proof {
        assert(k_kind_ping().len() == 4 && k_kind_push_token().len() == 10);
    }
    match decompress(msg) {
        Err(_) => InboundAction::Ignore,
        Ok(ev) => {
            match parse_event(ev) {
                Some(RealTimeEvents::Ping) => InboundAction::ReplyPong,
                Some(RealTimeEvents::PushToken { token }) => InboundAction::StorePushToken {
                    token,
                },
                None => InboundAction::Ignore,
            }
        },
    }
}

// ------------------------------------------------------------------
// Outbound frames
// ------------------------------------------------------------------
/// The compressed `PONG` frame, with no payload.
pub fn pong_frame() -> (r: Vec<u8>)
    ensures
        r@ == deflate_of(ser(envelope_jv(k_kind_pong(), Jv::Null))),
{
    compress_frame(b_kind_pong(), Json::Null)
}

/// The compressed `INIT` frame around a snapshot document.
pub fn init_frame(data: Json) -> (r: Vec<u8>)
    ensures
        r@ == deflate_of(ser(envelope_jv(k_kind_init(), data.jv()))),
{
    compress_frame(b_kind_init(), data)
}

/// The payload of a presence-online notification for `user`.
pub open spec fn presence_online_jv(user: Seq<u8>) -> Jv {
    Jv::Obj(
        seq![
            (k_id(), Jv::Str(user)),
            (k_presence(), Jv::Str(k_online())),
            (k_last_seen(), Jv::Null),
        ],
    )
}

/// The compressed bytes of a presence-online notification for `user`.
pub open spec fn presence_online_wire(user: Seq<u8>) -> Seq<u8> {
    deflate_of(ser(envelope_jv(k_kind_presence_update(), presence_online_jv(user))))
}

/// Builds the compressed presence-online notification for `user_id`.
pub fn presence_online_frame(user_id: &Vec<u8>) -> (r: Vec<u8>)
    ensures
        r@ == presence_online_wire(user_id@),
{
    let mut pairs: Vec<(Vec<u8>, Json)> = Vec::new();
    pairs.push((b_id(), Json::Str(copy_bytes(user_id))));
    pairs.push((b_presence(), Json::Str(b_online())));
    pairs.push((b_last_seen(), Json::Null));
    let data = Json::Obj(pairs);
    proof {
        crate::json::lemma_jv_pairs(data->Obj_0@);
        assert(Json::jv_pairs(data->Obj_0@) =~= presence_online_jv(user_id@)->Obj_0);
    }
    compress_frame(b_kind_presence_update(), data)
}

// ------------------------------------------------------------------
// Connect and disconnect
// ------------------------------------------------------------------
/// What a session does on connect: the channels it subscribes and the
/// presence notifications it publishes.
pub struct ConnectPlan {
    pub subscriptions: Vec<Vec<u8>>,
    pub publishes: Vec<(Vec<u8>, Vec<u8>)>,
}

/// The channels a session subscribes: its own user channel, then one friend
/// channel per directory user.
pub open spec fn subs_model(user: Seq<u8>, friends: Seq<Seq<u8>>) -> Seq<Seq<u8>> {
    seq![k_chan_u() + user] + friends.map_values(|f: Seq<u8>| k_chan_f() + f)
}

/// The presence-online notifications a session publishes: one to each
/// directory user's own channel, except to itself.
pub open spec fn pubs_model(user: Seq<u8>, friends: Seq<Seq<u8>>) -> Seq<(Seq<u8>, Seq<u8>)>
    decreases friends.len(),
{
    if friends.len() == 0 {
        Seq::empty()
    } else {
        (if friends[0] == user {
            Seq::empty()
        } else {
            seq![(k_chan_u() + friends[0], presence_online_wire(user))]
        }) + pubs_model(user, friends.drop_first())
    }
}

/// The views of a list of publish pairs.
pub open spec fn pub_views(p: Seq<(Vec<u8>, Vec<u8>)>) -> Seq<(Seq<u8>, Seq<u8>)> {
    p.map_values(|q: (Vec<u8>, Vec<u8>)| (q.0@, q.1@))
}

/// Plans a connect: subscribe to the session's own user channel and to one
/// friend channel per directory user, and publish a presence-online
/// notification to every directory user's channel but its own.
#[verifier::loop_isolation(false)]
pub fn connect_plan(user_id: &Vec<u8>, friend_ids: &Vec<Vec<u8>>) -> (r: ConnectPlan)
    ensures
        views_of(r.subscriptions@) == subs_model(user_id@, views_of(friend_ids@)),
        pub_views(r.publishes@) == pubs_model(user_id@, views_of(friend_ids@)),
{
    let ghost fviews = views_of(friend_ids@);
    let n = friend_ids.len();
    let mut subs: Vec<Vec<u8>> = Vec::new();
    subs.push(user_channel(user_id));
    let mut i: usize = 0;
    while i < n
        invariant
            i <= n,
            n == friend_ids@.len(),
            subs@.len() == i + 1,
            subs@[0]@ == k_chan_u() + user_id@,
            forall|k: int| 0 <= k < i ==> subs@[k + 1]@ == k_chan_f() + friend_ids@[k]@,
        decreases n - i,
    {
        subs.push(friend_channel(&friend_ids[i]));
        i = i + 1;
    }
    proof {
        assert(views_of(subs@) =~= subs_model(user_id@, fviews));
    }
    let mut pubs: Vec<(Vec<u8>, Vec<u8>)> = Vec::new();
    proof {
        assert(fviews.subrange(n as int, n as int) =~= Seq::<Seq<u8>>::empty());
        assert(pub_views(pubs@) =~= pubs_model(user_id@, fviews.subrange(n as int, n as int)));
    }
    let mut j: usize = n;
    while j > 0
        invariant
            j <= n,
            n == friend_ids@.len(),
            fviews == views_of(friend_ids@),
            fviews.len() == n,
            pub_views(pubs@) == pubs_model(user_id@, fviews.subrange(j as int, n as int)),
        decreases j,
    {
        j = j - 1;
        let prev = Ghost(pubs@);
        proof {
            assert(fviews.subrange(j as int, n as int)[0] == fviews[j as int]);
            assert(fviews[j as int] == friend_ids@[j as int]@);
            assert(fviews.subrange(j as int, n as int).drop_first() =~= fviews.subrange(
                j + 1,
                n as int,
            ));
        }
        if !crate::codec::bytes_eq(friend_ids[j].as_slice(), user_id.as_slice()) {
            let chan = user_channel(&friend_ids[j]);
            let frame = presence_online_frame(user_id);
            pubs.insert(0, (chan, frame));
            proof {
                assert(pubs@ =~= prev@.insert(0, pubs@[0]));
                assert(pub_views(pubs@) =~= seq![
                    (k_chan_u() + fviews[j as int], presence_online_wire(user_id@)),
                ] + pub_views(prev@));
            }
        } else {
            proof {
                assert(Seq::<(Seq<u8>, Seq<u8>)>::empty() + pub_views(pubs@) =~= pub_views(
                    pubs@,
                ));
            }
        }
    }
    proof {
        assert(fviews.subrange(0, n as int) =~= fviews);
    }
    ConnectPlan { subscriptions: subs, publishes: pubs }
}

/// Records the channels a session subscribed under its bookkeeping key, so
/// that disconnect can unwind exactly that set.
pub fn record_subscriptions(store: &mut MemStore, session_id: &Vec<u8>, subscriptions: &Vec<
    Vec<u8>,
>)
    ensures
        final(store).set_view(
            k_user_session_prefix() + session_id@ + k_subscriptions_suffix(),
        ) == Some(views_of(subscriptions@)),
        forall|k: Seq<u8>|
            k != k_user_session_prefix() + session_id@ + k_subscriptions_suffix() ==> final(store).set_view(k) == old(store).set_view(k),
        final(store).entries == old(store).entries,
        final(store).now == old(store).now,
{
    let key = subscriptions_key(session_id);
    let copy = crate::store::copy_string_list(subscriptions);
    store.set_put(key, copy);
}

/// Reads back and clears the session's recorded subscriptions: the returned
/// channels, to be unsubscribed, are exactly the recorded set, and the
/// bookkeeping key is gone afterwards.
pub fn teardown_plan(store: &mut MemStore, session_id: &Vec<u8>) -> (r: Vec<Vec<u8>>)
    ensures
        match old(store).set_view(
            k_user_session_prefix() + session_id@ + k_subscriptions_suffix(),
        ) {
            Some(m) => views_of(r@) == m,
            None => r@.len() == 0,
        },
        final(store).set_view(
            k_user_session_prefix() + session_id@ + k_subscriptions_suffix(),
        ) is None,
        forall|k: Seq<u8>|
            k != k_user_session_prefix() + session_id@ + k_subscriptions_suffix() ==> final(store).set_view(k) == old(store).set_view(k),
        final(store).entries == old(store).entries,
        final(store).now == old(store).now,
{
    let key = subscriptions_key(session_id);
    let subs = match store.set_members(&key) {
        Some(m) => m,
        None => Vec::new(),
    };
    store.set_del(key);
    subs
}


/// Subscription symmetry: for any friend count, the channel set a connect
/// plan subscribes is the set its bookkeeping records, and the set a
/// teardown unsubscribes is the recorded set, so all three are one and the
/// same. The hypotheses are exactly what `connect_plan`,
/// `record_subscriptions` and `teardown_plan` ensure.
pub proof fn lemma_subscription_symmetry(
    plan_subs: Seq<Seq<u8>>,
    recorded: Option<Seq<Seq<u8>>>,
    torn_down: Seq<Seq<u8>>,
    user: Seq<u8>,
    friends: Seq<Seq<u8>>,
)
    requires
        plan_subs == subs_model(user, friends),
        recorded == Some(plan_subs),
        match recorded {
            Some(m) => torn_down == m,
            None => torn_down == Seq::<Seq<u8>>::empty(),
        },
    ensures
        torn_down == plan_subs,
        plan_subs.len() == 1 + friends.len(),
{
}

} // verus!
