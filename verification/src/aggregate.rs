//! Snapshot aggregation: the relationship graph as the viewer sees it, the
//! directory of users a session needs, presence defaulting, and the cache
//! keys of each aggregated query.
use vstd::prelude::*;

use crate::codec::{bytes_eq, find_key};
use crate::json::{copy_bytes, json_to_bytes, lemma_jv_pairs, lemma_jv_seq, parse_json, ser, sp_json, Json, Jv};
use crate::names::{
    b_accepted_at, b_channels, b_created_at, b_incoming, b_last_seen, b_me, b_presence,
    b_push_token, b_relationships, b_session, b_user_id, b_users, k_accepted_at, k_channels,
    k_created_at, k_incoming, k_last_seen, k_me, k_presence, k_push_token, k_relationships,
    k_session, k_user_id, k_users,
    b_display_name, b_id, b_members, b_username, k_display_name, k_id, k_members, k_username,
    b_cache_me_user, b_cache_u_channels, b_cache_u_frnds, b_cache_uf, b_chan_f, b_chan_u,
    b_offline, b_subscriptions_suffix, b_user_last_seen_prefix, b_user_prefix,
    b_user_session_prefix, concat_bytes, k_cache_me_user, k_cache_u_channels, k_cache_u_frnds,
    k_cache_uf, k_chan_f, k_chan_u, k_offline, k_subscriptions_suffix, k_user_last_seen_prefix,
    k_user_prefix, k_user_session_prefix,
};

verus! {

/// One stored friendship row.
pub struct Friend {
    pub id: Vec<u8>,
    pub user_a: Vec<u8>,
    pub user_b: Vec<u8>,
    pub accepted_at: Option<Vec<u8>>,
    pub created_at: Vec<u8>,
}

/// One friendship as the viewing user sees it.
pub struct Relationship {
    pub id: Vec<u8>,
    pub user_id: Vec<u8>,
    pub incoming: bool,
    pub accepted_at: Option<Vec<u8>>,
    pub created_at: Vec<u8>,
}

/// The side of a stored edge that is not the viewer.
pub open spec fn counterpart_of(viewer: Seq<u8>, user_a: Seq<u8>, user_b: Seq<u8>) -> Seq<u8> {
    if user_a == viewer {
        user_b
    } else {
        user_a
    }
}

/// Whether the edge points at the viewer: true when the viewer is stored as
/// the second party.
pub open spec fn incoming_of(viewer: Seq<u8>, user_a: Seq<u8>) -> bool {
    user_a != viewer
}

/// The view of one byte string option.
pub open spec fn opt_view(v: Option<Vec<u8>>) -> Option<Seq<u8>> {
    match v {
        Some(b) => Some(b@),
        None => None,
    }
}

fn copy_opt(v: &Option<Vec<u8>>) -> (r: Option<Vec<u8>>)
    ensures
        opt_view(r) == opt_view(*v),
{
    match v {
        Some(b) => Some(copy_bytes(b)),
        None => None,
    }
}

/// Turns a stored edge into the relationship the viewer sees.
pub fn relationship_of(viewer: &Vec<u8>, f: &Friend) -> (r: Relationship)
    ensures
        r.id@ == f.id@,
        r.user_id@ == counterpart_of(viewer@, f.user_a@, f.user_b@),
        r.incoming == incoming_of(viewer@, f.user_a@),
        opt_view(r.accepted_at) == opt_view(f.accepted_at),
        r.created_at@ == f.created_at@,
{
    let outgoing = bytes_eq(f.user_a.as_slice(), viewer.as_slice());
    Relationship {
        id: copy_bytes(&f.id),
        user_id: if outgoing {
            copy_bytes(&f.user_b)
        } else {
            copy_bytes(&f.user_a)
        },
        incoming: !outgoing,
        accepted_at: copy_opt(&f.accepted_at),
        created_at: copy_bytes(&f.created_at),
    }
}

/// Relationship direction: for a stored edge `(user_a = x, user_b = y)`,
/// viewing as `x` yields an outgoing edge whose counterpart is `y`, and
/// viewing as `y` an incoming edge whose counterpart is `x`.
pub proof fn lemma_relationship_direction(x: Seq<u8>, y: Seq<u8>)
    requires
        x != y,
    ensures
        counterpart_of(x, x, y) == y,
        !incoming_of(x, x),
        counterpart_of(y, x, y) == x,
        incoming_of(y, x),
{
}

/// Whether some string in the list holds exactly the bytes `x`.
pub open spec fn contains_bytes(s: Seq<Vec<u8>>, x: Seq<u8>) -> bool {
    exists|i: int| 0 <= i < s.len() && s[i]@ == x
}

/// Whether the list holds `x`.
#[verifier::loop_isolation(false)]
pub fn list_contains(list: &Vec<Vec<u8>>, x: &Vec<u8>) -> (r: bool)
    ensures
        r == contains_bytes(list@, x@),
{
    let n = list.len();
    let mut i: usize = 0;
    while i < n
        invariant
            i <= n,
            n == list@.len(),
            forall|j: int| 0 <= j < i ==> list@[j]@ != x@,
        decreases n - i,
    {
        if bytes_eq(list[i].as_slice(), x.as_slice()) {
            proof {
                assert(list@[i as int]@ == x@);
            }
            return true;
        }
        i = i + 1;
    }
    false
}

/// Whether `x` belongs in the viewer's directory: it occurs among the
/// channel members or as a friendship counterpart, and is not the viewer.
pub open spec fn directory_member(
    viewer: Seq<u8>,
    member_ids: Seq<Vec<u8>>,
    friends: Seq<Friend>,
    x: Seq<u8>,
) -> bool {
    x != viewer && (contains_bytes(member_ids, x) || exists|i: int|
        0 <= i < friends.len() && counterpart_of(
            viewer,
            friends[i].user_a@,
            friends[i].user_b@,
        ) == x)
}

/// Builds the deduplicated directory of users to load: every channel member
/// and every friendship counterpart, the viewer excluded.
#[verifier::loop_isolation(false)]
pub fn users_to_load(viewer: &Vec<u8>, member_ids: &Vec<Vec<u8>>, friends: &Vec<Friend>) -> (r:
    Vec<Vec<u8>>)
    ensures
        forall|k: int, l: int| 0 <= k < l < r@.len() ==> r@[k]@ != r@[l]@,
        forall|x: Seq<u8>| #[trigger]
            contains_bytes(r@, x) <==> directory_member(viewer@, member_ids@, friends@, x),
{
    let mut out: Vec<Vec<u8>> = Vec::new();
    let n = member_ids.len();
    let mut i: usize = 0;
    while i < n
        invariant
            i <= n,
            n == member_ids@.len(),
            forall|k: int, l: int| 0 <= k < l < out@.len() ==> out@[k]@ != out@[l]@,
            forall|x: Seq<u8>| #[trigger]
                contains_bytes(out@, x) <==> (x != viewer@ && contains_bytes(
                    member_ids@.subrange(0, i as int),
                    x,
                )),
        decreases n - i,
    {
        let m = &member_ids[i];
        let is_viewer = bytes_eq(m.as_slice(), viewer.as_slice());
        let already = list_contains(&out, m);
        let prev = Ghost(out@);
        if !is_viewer && !already {
            out.push(copy_bytes(m));
        }
        proof {
            assert forall|x: Seq<u8>| #[trigger]
                contains_bytes(out@, x) <==> (x != viewer@ && contains_bytes(
                    member_ids@.subrange(0, i + 1),
                    x,
                )) by {
                if contains_bytes(out@, x) {
                    let w = choose|j: int| 0 <= j < out@.len() && out@[j]@ == x;
                    if w < prev@.len() {
                        assert(contains_bytes(prev@, x));
                    } else {
                        assert(out@[w]@ == member_ids@[i as int]@);
                        assert(member_ids@.subrange(0, i + 1)[i as int]@ == x);
                    }
                }
                if x != viewer@ && contains_bytes(member_ids@.subrange(0, i + 1), x) {
                    let w = choose|j: int|
                        0 <= j < i + 1 && (#[trigger] member_ids@.subrange(0, i + 1)[j])@ == x;
                    if w < i {
                        assert(member_ids@.subrange(0, i as int)[w]@ == x);
                        assert(contains_bytes(member_ids@.subrange(0, i as int), x));
                        assert(contains_bytes(prev@, x));
                        let u = choose|j: int| 0 <= j < prev@.len() && prev@[j]@ == x;
                        assert(out@[u]@ == x);
                    } else {
                        assert(member_ids@[i as int]@ == x);
                        if !is_viewer && !already {
                            assert(out@[out@.len() - 1]@ == x);
                        } else {
                            assert(contains_bytes(prev@, x));
                            let u = choose|j: int| 0 <= j < prev@.len() && prev@[j]@ == x;
                            assert(out@[u]@ == x);
                        }
                    }
                }
            }
        }
        i = i + 1;
    }
    proof {
        assert(member_ids@.subrange(0, n as int) =~= member_ids@);
    }
    let fn_count = friends.len();
    let mut j: usize = 0;
    while j < fn_count
        invariant
            j <= fn_count,
            fn_count == friends@.len(),
            forall|k: int, l: int| 0 <= k < l < out@.len() ==> out@[k]@ != out@[l]@,
            forall|x: Seq<u8>| #[trigger]
                contains_bytes(out@, x) <==> (x != viewer@ && (contains_bytes(member_ids@, x)
                    || exists|i2: int|
                    0 <= i2 < j && counterpart_of(
                        viewer@,
                        friends@[i2].user_a@,
                        friends@[i2].user_b@,
                    ) == x)),
        decreases fn_count - j,
    {
        let f = &friends[j];
        let outgoing = bytes_eq(f.user_a.as_slice(), viewer.as_slice());
        let c: &Vec<u8> = if outgoing {
            &f.user_b
        } else {
            &f.user_a
        };
        proof {
            assert(c@ == counterpart_of(viewer@, friends@[j as int].user_a@, friends@[
                j as int].user_b@));
        }
        let is_viewer = bytes_eq(c.as_slice(), viewer.as_slice());
        let already = list_contains(&out, c);
        let prev = Ghost(out@);
        if !is_viewer && !already {
            out.push(copy_bytes(c));
        }
        proof {
            assert forall|x: Seq<u8>| #[trigger]
                contains_bytes(out@, x) <==> (x != viewer@ && (contains_bytes(member_ids@, x)
                    || exists|i2: int|
                    0 <= i2 < j + 1 && counterpart_of(
                        viewer@,
                        friends@[i2].user_a@,
                        friends@[i2].user_b@,
                    ) == x)) by {
                if contains_bytes(out@, x) {
                    let w = choose|k: int| 0 <= k < out@.len() && out@[k]@ == x;
                    if w < prev@.len() {
                        assert(contains_bytes(prev@, x));
                    } else {
                        assert(out@[w]@ == c@);
                        assert(counterpart_of(
                            viewer@,
                            friends@[j as int].user_a@,
                            friends@[j as int].user_b@,
                        ) == x);
                    }
                }
                if x != viewer@ && (contains_bytes(member_ids@, x) || exists|i2: int|
                    0 <= i2 < j + 1 && counterpart_of(
                        viewer@,
                        friends@[i2].user_a@,
                        friends@[i2].user_b@,
                    ) == x) {
                    if contains_bytes(member_ids@, x) || exists|i2: int|
                        0 <= i2 < j && counterpart_of(
                            viewer@,
                            friends@[i2].user_a@,
                            friends@[i2].user_b@,
                        ) == x {
                        assert(contains_bytes(prev@, x));
                        let u = choose|k: int| 0 <= k < prev@.len() && prev@[k]@ == x;
                        assert(out@[u]@ == x);
                    } else {
                        assert(counterpart_of(
                            viewer@,
                            friends@[j as int].user_a@,
                            friends@[j as int].user_b@,
                        ) == x);
                        assert(c@ == x);
                        if !is_viewer && !already {
                            assert(out@[out@.len() - 1]@ == x);
                        } else {
                            assert(contains_bytes(prev@, x));
                            let u = choose|k: int| 0 <= k < prev@.len() && prev@[k]@ == x;
                            assert(out@[u]@ == x);
                        }
                    }
                }
            }
        }
        j = j + 1;
    }
    out
}

// ------------------------------------------------------------------
// Presence
// ------------------------------------------------------------------
/// A user's presence as merged into the snapshot.
pub struct PresenceInfo {
    pub presence: Vec<u8>,
    pub last_seen: Option<Vec<u8>>,
}

/// Merges the two presence reads for one user. A user with no stored record
/// reads as `OFFLINE` with no last-seen time; a lookup never fails.
pub fn presence_info(fetched: Option<Vec<u8>>, last_seen: Option<Vec<u8>>) -> (r: PresenceInfo)
    ensures
        r.presence@ == match fetched {
            Some(p) => p@,
            None => k_offline(),
        },
        opt_view(r.last_seen) == opt_view(last_seen),
{
    PresenceInfo {
        presence: match fetched {
            Some(p) => p,
            None => b_offline(),
        },
        last_seen,
    }
}

// ------------------------------------------------------------------
// Store keys
// ------------------------------------------------------------------
/// The profile cache key `CACHE:ME_USER:<id>`.
pub fn cache_key_me_user(id: &Vec<u8>) -> (r: Vec<u8>)
    ensures
        r@ == k_cache_me_user() + id@,
{
    concat_bytes(b_cache_me_user(), id)
}

/// The friendships cache key `CACHE:U_FRNDS:<id>`.
pub fn cache_key_friends(id: &Vec<u8>) -> (r: Vec<u8>)
    ensures
        r@ == k_cache_u_frnds() + id@,
{
    concat_bytes(b_cache_u_frnds(), id)
}

/// The directory cache key `CACHE:UF:<id>`.
pub fn cache_key_directory(id: &Vec<u8>) -> (r: Vec<u8>)
    ensures
        r@ == k_cache_uf() + id@,
{
    concat_bytes(b_cache_uf(), id)
}

/// The channels cache key `CACHE:U_CHANNELS:<id>`.
pub fn cache_key_channels(id: &Vec<u8>) -> (r: Vec<u8>)
    ensures
        r@ == k_cache_u_channels() + id@,
{
    concat_bytes(b_cache_u_channels(), id)
}

/// The presence hash key `user:<id>`.
pub fn presence_key(id: &Vec<u8>) -> (r: Vec<u8>)
    ensures
        r@ == k_user_prefix() + id@,
{
    concat_bytes(b_user_prefix(), id)
}

/// The last-seen hash key `user-lastSeen:<id>`.
pub fn last_seen_key(id: &Vec<u8>) -> (r: Vec<u8>)
    ensures
        r@ == k_user_last_seen_prefix() + id@,
{
    concat_bytes(b_user_last_seen_prefix(), id)
}

/// The subscription bookkeeping key `user:session:<session_id>:subscriptions`.
pub fn subscriptions_key(session_id: &Vec<u8>) -> (r: Vec<u8>)
    ensures
        r@ == k_user_session_prefix() + session_id@ + k_subscriptions_suffix(),
{
    let head = concat_bytes(b_user_session_prefix(), session_id);
    let tail = b_subscriptions_suffix();
    concat_bytes(head, &tail)
}

/// The direct-to-user bus channel `U.<user_id>`.
pub fn user_channel(user_id: &Vec<u8>) -> (r: Vec<u8>)
    ensures
        r@ == k_chan_u() + user_id@,
{
    concat_bytes(b_chan_u(), user_id)
}

/// The friend-broadcast bus channel `F.<user_id>`.
pub fn friend_channel(user_id: &Vec<u8>) -> (r: Vec<u8>)
    ensures
        r@ == k_chan_f() + user_id@,
{
    concat_bytes(b_chan_f(), user_id)
}


// ------------------------------------------------------------------
// Profiles and their cached form
// ------------------------------------------------------------------
/// A user profile row.
pub struct Profile {
    pub id: Vec<u8>,
    pub display_name: Vec<u8>,
    pub username: Vec<u8>,
}

/// The document a profile serializes to.
pub open spec fn profile_jv(id: Seq<u8>, display_name: Seq<u8>, username: Seq<u8>) -> Jv {
    Jv::Obj(
        seq![
            (k_id(), Jv::Str(id)),
            (k_display_name(), Jv::Str(display_name)),
            (k_username(), Jv::Str(username)),
        ],
    )
}

/// Builds the document of a profile.
pub fn profile_to_json(p: &Profile) -> (r: Json)
    ensures
        r.jv() == profile_jv(p.id@, p.display_name@, p.username@),
{
    let mut pairs: Vec<(Vec<u8>, Json)> = Vec::new();
    pairs.push((b_id(), Json::Str(copy_bytes(&p.id))));
    pairs.push((b_display_name(), Json::Str(copy_bytes(&p.display_name))));
    pairs.push((b_username(), Json::Str(copy_bytes(&p.username))));
    let r = Json::Obj(pairs);
    proof {
        lemma_jv_pairs(r->Obj_0@);
        assert(Json::jv_pairs(r->Obj_0@) =~= profile_jv(p.id@, p.display_name@, p.username@)->Obj_0);
    }
    r
}

/// The profile a document decodes to, if it is a well-shaped profile.
pub open spec fn profile_of_jv(v: Jv) -> Option<(Seq<u8>, Seq<u8>, Seq<u8>)> {
    match v {
        Jv::Obj(pairs) => match (
            find_key(pairs, k_id()),
            find_key(pairs, k_display_name()),
            find_key(pairs, k_username()),
        ) {
            (Some(Jv::Str(id)), Some(Jv::Str(dn)), Some(Jv::Str(un))) => Some((id, dn, un)),
            _ => None,
        },
        _ => None,
    }
}

/// Decodes a profile from a parsed document.
pub fn profile_from_json(v: Json) -> (r: Option<Profile>)
    ensures
        match r {
            Some(p) => profile_of_jv(v.jv()) == Some((p.id@, p.display_name@, p.username@)),
            None => profile_of_jv(v.jv()) is None,
        },
{
    match v {
        Json::Obj(pairs) => {
            let kid = b_id();
            let kdn = b_display_name();
            let kun = b_username();
            proof {
                assert(k_id().len() == 2 && k_display_name().len() == 12 && k_username().len()
                    == 8);
            }
            let (idv, dnv, unv) = crate::codec::take_three(pairs, &kid, &kdn, &kun);
            match (idv, dnv, unv) {
                (Some(Json::Str(id)), Some(Json::Str(dn)), Some(Json::Str(un))) => Some(
                    Profile { id, display_name: dn, username: un },
                ),
                _ => None,
            }
        },
        _ => None,
    }
}


/// Encodes a profile for the cache.
pub fn profile_encode(p: &Profile) -> (r: Vec<u8>)
    ensures
        r@ == ser(profile_jv(p.id@, p.display_name@, p.username@)),
{
    let doc = profile_to_json(p);
    json_to_bytes(&doc)
}

/// Decodes a cached profile; anything that is not a well-shaped profile
/// document reads as a cache miss.
pub fn profile_decode(bytes: &[u8]) -> (r: Option<Profile>)
    ensures
        match r {
            Some(p) => sp_json(bytes@) matches Some(v) && profile_of_jv(v) == Some(
                (p.id@, p.display_name@, p.username@),
            ),
            None => match sp_json(bytes@) {
                Some(v) => profile_of_jv(v) is None,
                None => true,
            },
        },
{
    match parse_json(bytes) {
        Some(v) => profile_from_json(v),
        None => None,
    }
}

/// A cached profile decodes to exactly the profile that was stored: the
/// serialized document parses back and decodes to the same three fields.
pub proof fn lemma_profile_round_trip(id: Seq<u8>, display_name: Seq<u8>, username: Seq<u8>)
    ensures
        sp_json(ser(profile_jv(id, display_name, username))) == Some(
            profile_jv(id, display_name, username),
        ),
        profile_of_jv(profile_jv(id, display_name, username)) == Some(
            (id, display_name, username),
        ),
{
    let v = profile_jv(id, display_name, username);
    let pairs = v->Obj_0;
    assert(crate::json::wf_pairs(pairs)) by {
        assert(forall|i: int| 0 <= i < 3 ==> crate::json::wf(#[trigger] pairs[i].1));
    }
    assert(crate::json::wf(v));
    crate::json::lemma_json_round_trip(v);
    assert(k_id().len() == 2 && k_display_name().len() == 12 && k_username().len() == 8);
    assert(pairs[0].0 == k_id() && pairs[1].0 == k_display_name() && pairs[2].0 == k_username());
    let r1 = pairs.drop_first();
    let r2 = r1.drop_first();
    assert(r1 =~= seq![(k_display_name(), Jv::Str(display_name)), (k_username(), Jv::Str(username))]);
    assert(r2 =~= seq![(k_username(), Jv::Str(username))]);
    assert(find_key(pairs, k_id()) == Some(Jv::Str(id)));
    assert(find_key(pairs, k_display_name()) == find_key(r1, k_display_name()));
    assert(find_key(r1, k_display_name()) == Some(Jv::Str(display_name)));
    assert(find_key(pairs, k_username()) == find_key(r1, k_username()));
    assert(find_key(r1, k_username()) == find_key(r2, k_username()));
    assert(find_key(r2, k_username()) == Some(Jv::Str(username)));
}

// ------------------------------------------------------------------
// The channel aggregation document
// ------------------------------------------------------------------
/// The views of a list of byte strings.
pub open spec fn views_of(s: Seq<Vec<u8>>) -> Seq<Seq<u8>> {
    s.map_values(|b: Vec<u8>| b@)
}

/// The id a channel record carries, if it is an object with a string id.
pub open spec fn channel_id_of(v: Jv) -> Option<Seq<u8>> {
    match v {
        Jv::Obj(pairs) => match find_key(pairs, k_id()) {
            Some(Jv::Str(id)) => Some(id),
            _ => None,
        },
        _ => None,
    }
}

/// The strings in a list, anything else skipped.
pub open spec fn strings_of(items: Seq<Jv>) -> Seq<Seq<u8>>
    decreases items.len(),
{
    if items.len() == 0 {
        Seq::empty()
    } else {
        (match items[0] {
            Jv::Str(s) => seq![s],
            _ => Seq::empty(),
        }) + strings_of(items.drop_first())
    }
}

/// The member ids a channel record carries.
pub open spec fn members_of_channel(v: Jv) -> Seq<Seq<u8>> {
    match v {
        Jv::Obj(pairs) => match find_key(pairs, k_members()) {
            Some(Jv::Arr(items)) => strings_of(items),
            _ => Seq::empty(),
        },
        _ => Seq::empty(),
    }
}

/// The channel records keyed by their id, records without a string id
/// dropped.
pub open spec fn channels_pairs_of(elems: Seq<Jv>) -> Seq<(Seq<u8>, Jv)>
    decreases elems.len(),
{
    if elems.len() == 0 {
        Seq::empty()
    } else {
        (match channel_id_of(elems[0]) {
            Some(id) => seq![(id, elems[0])],
            None => Seq::empty(),
        }) + channels_pairs_of(elems.drop_first())
    }
}

/// All member ids across the channel records, in order.
pub open spec fn members_flat_of(elems: Seq<Jv>) -> Seq<Seq<u8>>
    decreases elems.len(),
{
    if elems.len() == 0 {
        Seq::empty()
    } else {
        members_of_channel(elems[0]) + members_flat_of(elems.drop_first())
    }
}

/// Reads the first value under `key` in an object's pairs.
#[verifier::loop_isolation(false)]
fn obj_get_ref<'a>(pairs: &'a Vec<(Vec<u8>, Json)>, key: &Vec<u8>) -> (r: Option<&'a Json>)
    ensures
        match r {
            Some(v) => find_key(Json::jv_pairs(pairs@), key@) == Some(v.jv()),
            None => find_key(Json::jv_pairs(pairs@), key@) is None,
        },
{
    let ghost jp = Json::jv_pairs(pairs@);
    proof {
        lemma_jv_pairs(pairs@);
        assert(jp.subrange(0, jp.len() as int) =~= jp);
    }
    let n = pairs.len();
    let mut i: usize = 0;
    while i < n
        invariant
            i <= n,
            n == pairs@.len(),
            jp.len() == n,
            find_key(jp, key@) == find_key(jp.subrange(i as int, n as int), key@),
        decreases n - i,
    {
        proof {
            assert(jp.subrange(i as int, n as int)[0] == jp[i as int]);
            assert(jp[i as int] == (pairs@[i as int].0@, pairs@[i as int].1.jv()));
            assert(jp.subrange(i as int, n as int).drop_first() =~= jp.subrange(
                i + 1,
                n as int,
            ));
        }
        if bytes_eq(pairs[i].0.as_slice(), key.as_slice()) {
            return Some(&pairs[i].1);
        }
        i = i + 1;
    }
    proof {
        assert(jp.subrange(n as int, n as int) =~= Seq::<(Seq<u8>, Jv)>::empty());
    }
    None
}

/// Copies the string members out of a list.
#[verifier::loop_isolation(false)]
fn strings_from(items: &Vec<Json>) -> (r: Vec<Vec<u8>>)
    ensures
        views_of(r@) == strings_of(Json::jv_seq(items@)),
{
    let ghost jvs = Json::jv_seq(items@);
    proof {
        lemma_jv_seq(items@);
    }
    let mut acc: Vec<Vec<u8>> = Vec::new();
    let n = items.len();
    proof {
        assert(jvs.subrange(n as int, n as int) =~= Seq::<Jv>::empty());
        assert(views_of(acc@) =~= strings_of(jvs.subrange(n as int, n as int)));
    }
    let mut i: usize = n;
    while i > 0
        invariant
            i <= n,
            n == items@.len(),
            jvs.len() == n,
            views_of(acc@) == strings_of(jvs.subrange(i as int, n as int)),
        decreases i,
    {
        i = i - 1;
        let prev = Ghost(acc@);
        proof {
            assert(jvs.subrange(i as int, n as int)[0] == jvs[i as int]);
            assert(jvs[i as int] == items@[i as int].jv());
            assert(jvs.subrange(i as int, n as int).drop_first() =~= jvs.subrange(
                i + 1,
                n as int,
            ));
        }
        match &items[i] {
            Json::Str(s) => {
                acc.insert(0, copy_bytes(s));
                proof {
                    assert(acc@ =~= prev@.insert(0, acc@[0]));
                    assert(views_of(acc@) =~= seq![items@[i as int]->Str_0@] + views_of(prev@));
                }
            },
            _ => {
                proof {
                    assert(Seq::<Seq<u8>>::empty() + views_of(acc@) =~= views_of(acc@));
                }
            },
        }
    }
    proof {
        assert(jvs.subrange(0, n as int) =~= jvs);
    }
    acc
}

/// Keys the channel aggregation document by channel id and collects every
/// member id it names. A null document reads as no channels; anything that
/// is not a list of records is rejected.
#[verifier::loop_isolation(false)]
pub fn channels_index(doc: Json) -> (r: Option<(Vec<(Vec<u8>, Json)>, Vec<Vec<u8>>)>)
    ensures
        match r {
            Some(p) => match doc.jv() {
                Jv::Arr(elems) => Json::jv_pairs(p.0@) == channels_pairs_of(elems) && views_of(
                    p.1@,
                ) == members_flat_of(elems),
                Jv::Null => p.0@.len() == 0 && p.1@.len() == 0,
                _ => false,
            },
            None => !(doc.jv() is Arr) && !(doc.jv() is Null),
        },
{
    match doc {
        Json::Null => Some((Vec::new(), Vec::new())),
        Json::Arr(elems) => {
            let ghost full = Json::jv_seq(elems@);
            proof {
                lemma_jv_seq(elems@);
            }
            let mut rem = elems;
            let mut pairs_acc: Vec<(Vec<u8>, Json)> = Vec::new();
            let mut members_acc: Vec<Vec<u8>> = Vec::new();
            proof {
                assert(Json::jv_seq(rem@) =~= full.subrange(0, rem@.len() as int));
                assert(full.subrange(rem@.len() as int, full.len() as int) =~= Seq::<Jv>::empty());
                assert(Json::jv_pairs(pairs_acc@) =~= channels_pairs_of(
                    full.subrange(rem@.len() as int, full.len() as int),
                ));
                assert(views_of(members_acc@) =~= members_flat_of(
                    full.subrange(rem@.len() as int, full.len() as int),
                ));
            }
            loop
                invariant
                    rem@.len() <= full.len(),
                    Json::jv_seq(rem@) == full.subrange(0, rem@.len() as int),
                    Json::jv_pairs(pairs_acc@) == channels_pairs_of(
                        full.subrange(rem@.len() as int, full.len() as int),
                    ),
                    views_of(members_acc@) == members_flat_of(
                        full.subrange(rem@.len() as int, full.len() as int),
                    ),
                decreases rem@.len(),
            {
                let prev = Ghost(rem@);
                match rem.pop() {
                    None => {
                        proof {
                            assert(full.subrange(0, full.len() as int) =~= full);
                        }
                        return Some((pairs_acc, members_acc));
                    },
                    Some(e) => {
                        let ghost k = rem@.len() as int;
                        proof {
                            lemma_jv_seq(prev@);
                            lemma_jv_seq(rem@);
                            assert(prev@ =~= rem@.push(e));
                            assert(Json::jv_seq(rem@) =~= full.subrange(0, k)) by {
                                assert(forall|m: int|
                                    0 <= m < k ==> #[trigger] rem@[m] == prev@[m]);
                            }
                            assert(e.jv() == full[k]) by {
                                assert(prev@[k] == e);
                            }
                            assert(full.subrange(k, full.len() as int)[0] == full[k]);
                            assert(full.subrange(k, full.len() as int).drop_first()
                                =~= full.subrange(k + 1, full.len() as int));
                        }
                        let mems = channel_members(&e);
                        let id_opt: Option<Vec<u8>> = match &e {
                            Json::Obj(ps) => {
                                let ki = b_id();
                                match obj_get_ref(ps, &ki) {
                                    Some(j) => match j {
                                        Json::Str(s) => Some(copy_bytes(s)),
                                        _ => None,
                                    },
                                    None => None,
                                }
                            },
                            _ => None,
                        };
                        let prev_pairs = Ghost(pairs_acc@);
                        match id_opt {
                            Some(idb) => {
                                proof {
                                    assert(channel_id_of(e.jv()) == Some(idb@));
                                }
                                pairs_acc.insert(0, (idb, e));
                                proof {
                                    lemma_jv_pairs(prev_pairs@);
                                    lemma_jv_pairs(pairs_acc@);
                                    assert(Json::jv_pairs(pairs_acc@) =~= seq![
                                        (pairs_acc@[0].0@, pairs_acc@[0].1.jv()),
                                    ] + Json::jv_pairs(prev_pairs@));
                                }
                            },
                            None => {
                                proof {
                                    assert(channel_id_of(e.jv()) is None);
                                    assert(Seq::<(Seq<u8>, Jv)>::empty() + Json::jv_pairs(
                                        pairs_acc@,
                                    ) =~= Json::jv_pairs(pairs_acc@));
                                }
                            },
                        }
                        let prev_mem = Ghost(members_acc@);
                        let gmems = Ghost(mems@);
                        let mut newm = mems;
                        newm.append(&mut members_acc);
                        members_acc = newm;
                        proof {
                            assert(members_acc@ =~= gmems@ + prev_mem@);
                            assert(views_of(members_acc@) =~= views_of(gmems@) + views_of(
                                prev_mem@,
                            ));
                        }
                    },
                }
            }
        },
        Json::Bool(_) => None,
        Json::Num(_) => None,
        Json::Str(_) => None,
        Json::Obj(_) => None,
    }
}

/// Copies the member ids out of one channel record.
fn channel_members(v: &Json) -> (r: Vec<Vec<u8>>)
    ensures
        views_of(r@) == members_of_channel(v.jv()),
{
    match v {
        Json::Obj(pairs) => {
            let km = b_members();
            match obj_get_ref(pairs, &km) {
                Some(j) => match j {
                    Json::Arr(items) => strings_from(items),
                    _ => {
                        let r: Vec<Vec<u8>> = Vec::new();
                        proof {
                            assert(views_of(r@) =~= Seq::<Seq<u8>>::empty());
                        }
                        r
                    },
                },
                None => {
                    let r: Vec<Vec<u8>> = Vec::new();
                    proof {
                        assert(views_of(r@) =~= Seq::<Seq<u8>>::empty());
                    }
                    r
                },
            }
        },
        _ => {
            let r: Vec<Vec<u8>> = Vec::new();
            proof {
                assert(views_of(r@) =~= Seq::<Seq<u8>>::empty());
            }
            r
        },
    }
}


// ------------------------------------------------------------------
// Building the snapshot document
// ------------------------------------------------------------------
/// The document of one optional string: the string, or null.
pub open spec fn opt_str_jv(v: Option<Seq<u8>>) -> Jv {
    match v {
        Some(s) => Jv::Str(s),
        None => Jv::Null,
    }
}

fn opt_str_json(v: &Option<Vec<u8>>) -> (r: Json)
    ensures
        r.jv() == opt_str_jv(opt_view(*v)),
{
    match v {
        Some(s) => Json::Str(copy_bytes(s)),
        None => Json::Null,
    }
}

/// The document one relationship serializes to.
pub open spec fn relationship_jv(r: Relationship) -> Jv {
    Jv::Obj(
        seq![
            (k_id(), Jv::Str(r.id@)),
            (k_user_id(), Jv::Str(r.user_id@)),
            (k_incoming(), Jv::Bool(r.incoming)),
            (k_accepted_at(), opt_str_jv(opt_view(r.accepted_at))),
            (k_created_at(), Jv::Str(r.created_at@)),
        ],
    )
}

fn relationship_to_json(r: &Relationship) -> (j: Json)
    ensures
        j.jv() == relationship_jv(*r),
{
    let mut pairs: Vec<(Vec<u8>, Json)> = Vec::new();
    pairs.push((b_id(), Json::Str(copy_bytes(&r.id))));
    pairs.push((b_user_id(), Json::Str(copy_bytes(&r.user_id))));
    pairs.push((b_incoming(), Json::Bool(r.incoming)));
    pairs.push((b_accepted_at(), opt_str_json(&r.accepted_at)));
    pairs.push((b_created_at(), Json::Str(copy_bytes(&r.created_at))));
    let j = Json::Obj(pairs);
    proof {
        lemma_jv_pairs(j->Obj_0@);
        assert(Json::jv_pairs(j->Obj_0@) =~= relationship_jv(*r)->Obj_0);
    }
    j
}

/// The relationships map: each relationship keyed by its edge id.
pub open spec fn relationships_pairs(rels: Seq<Relationship>) -> Seq<(Seq<u8>, Jv)> {
    rels.map_values(|r: Relationship| (r.id@, relationship_jv(r)))
}

/// Builds the relationships map document.
#[verifier::loop_isolation(false)]
pub fn relationships_json(rels: &Vec<Relationship>) -> (j: Json)
    ensures
        j.jv() == Jv::Obj(relationships_pairs(rels@)),
{
    let mut pairs: Vec<(Vec<u8>, Json)> = Vec::new();
    let n = rels.len();
    let mut i: usize = 0;
    while i < n
        invariant
            i <= n,
            n == rels@.len(),
            Json::jv_pairs(pairs@) == relationships_pairs(rels@.subrange(0, i as int)),
        decreases n - i,
    {
        let prev = Ghost(pairs@);
        pairs.push((copy_bytes(&rels[i].id), relationship_to_json(&rels[i])));
        proof {
            crate::json::lemma_jv_pairs_push(prev@, pairs@.last().0, pairs@.last().1);
            assert(Json::jv_pairs(pairs@) =~= relationships_pairs(rels@.subrange(0, i + 1)));
        }
        i = i + 1;
    }
    proof {
        assert(rels@.subrange(0, n as int) =~= rels@);
    }
    let j = Json::Obj(pairs);
    j
}

/// The users map: each profile keyed by its id.
pub open spec fn users_pairs(profiles: Seq<Profile>) -> Seq<(Seq<u8>, Jv)> {
    profiles.map_values(
        |p: Profile| (p.id@, profile_jv(p.id@, p.display_name@, p.username@)),
    )
}

/// Builds the users map document.
#[verifier::loop_isolation(false)]
pub fn users_json(profiles: &Vec<Profile>) -> (j: Json)
    ensures
        j.jv() == Jv::Obj(users_pairs(profiles@)),
{
    let mut pairs: Vec<(Vec<u8>, Json)> = Vec::new();
    let n = profiles.len();
    let mut i: usize = 0;
    while i < n
        invariant
            i <= n,
            n == profiles@.len(),
            Json::jv_pairs(pairs@) == users_pairs(profiles@.subrange(0, i as int)),
        decreases n - i,
    {
        let prev = Ghost(pairs@);
        pairs.push((copy_bytes(&profiles[i].id), profile_to_json(&profiles[i])));
        proof {
            crate::json::lemma_jv_pairs_push(prev@, pairs@.last().0, pairs@.last().1);
            assert(Json::jv_pairs(pairs@) =~= users_pairs(profiles@.subrange(0, i + 1)));
        }
        i = i + 1;
    }
    proof {
        assert(profiles@.subrange(0, n as int) =~= profiles@);
    }
    let j = Json::Obj(pairs);
    j
}

/// The document one presence record serializes to.
pub open spec fn presence_jv(p: PresenceInfo) -> Jv {
    Jv::Obj(
        seq![
            (k_presence(), Jv::Str(p.presence@)),
            (k_last_seen(), opt_str_jv(opt_view(p.last_seen))),
        ],
    )
}

fn presence_to_json(p: &PresenceInfo) -> (j: Json)
    ensures
        j.jv() == presence_jv(*p),
{
    let mut pairs: Vec<(Vec<u8>, Json)> = Vec::new();
    pairs.push((b_presence(), Json::Str(copy_bytes(&p.presence))));
    pairs.push((b_last_seen(), opt_str_json(&p.last_seen)));
    let j = Json::Obj(pairs);
    proof {
        lemma_jv_pairs(j->Obj_0@);
        assert(Json::jv_pairs(j->Obj_0@) =~= presence_jv(*p)->Obj_0);
    }
    j
}

/// The presence map: each user's presence keyed by the user id.
pub open spec fn presence_pairs(entries: Seq<(Vec<u8>, PresenceInfo)>) -> Seq<(Seq<u8>, Jv)> {
    entries.map_values(|e: (Vec<u8>, PresenceInfo)| (e.0@, presence_jv(e.1)))
}

/// Builds the presence map document.
#[verifier::loop_isolation(false)]
pub fn presence_json(entries: &Vec<(Vec<u8>, PresenceInfo)>) -> (j: Json)
    ensures
        j.jv() == Jv::Obj(presence_pairs(entries@)),
{
    let mut pairs: Vec<(Vec<u8>, Json)> = Vec::new();
    let n = entries.len();
    let mut i: usize = 0;
    while i < n
        invariant
            i <= n,
            n == entries@.len(),
            Json::jv_pairs(pairs@) == presence_pairs(entries@.subrange(0, i as int)),
        decreases n - i,
    {
        let prev = Ghost(pairs@);
        pairs.push((copy_bytes(&entries[i].0), presence_to_json(&entries[i].1)));
        proof {
            crate::json::lemma_jv_pairs_push(prev@, pairs@.last().0, pairs@.last().1);
            assert(Json::jv_pairs(pairs@) =~= presence_pairs(entries@.subrange(0, i + 1)));
        }
        i = i + 1;
    }
    proof {
        assert(entries@.subrange(0, n as int) =~= entries@);
    }
    let j = Json::Obj(pairs);
    j
}

/// The full snapshot document as the `INIT` frame carries it.
pub open spec fn init_data_jv(
    relationships: Jv,
    users: Jv,
    me: Jv,
    channels: Jv,
    presence: Jv,
    session_id: Seq<u8>,
    push_token: Option<Jv>,
) -> Jv {
    Jv::Obj(
        seq![
            (k_relationships(), relationships),
            (k_users(), users),
            (k_me(), me),
            (k_channels(), channels),
            (k_presence(), presence),
            (k_session(), Jv::Str(session_id)),
            (
                k_push_token(),
                match push_token {
                    Some(t) => t,
                    None => Jv::Null,
                },
            ),
        ],
    )
}

/// Assembles the snapshot document: the three aggregated maps, the viewer's
/// profile, live presence, the session id and the push-token record.
pub fn build_init_data(
    relationships: Json,
    users: Json,
    me: Json,
    channels: Json,
    presence: Json,
    session_id: Vec<u8>,
    push_token: Option<Json>,
) -> (j: Json)
    ensures
        j.jv() == init_data_jv(
            relationships.jv(),
            users.jv(),
            me.jv(),
            channels.jv(),
            presence.jv(),
            session_id@,
            match push_token {
                Some(t) => Some(t.jv()),
                None => None,
            },
        ),
{
    let ghost gt: Option<Jv> = match &push_token {
        Some(t) => Some(t.jv()),
        None => None,
    };
    let ghost model = init_data_jv(
        relationships.jv(),
        users.jv(),
        me.jv(),
        channels.jv(),
        presence.jv(),
        session_id@,
        gt,
    );
    let mut pairs: Vec<(Vec<u8>, Json)> = Vec::new();
    pairs.push((b_relationships(), relationships));
    pairs.push((b_users(), users));
    pairs.push((b_me(), me));
    pairs.push((b_channels(), channels));
    pairs.push((b_presence(), presence));
    pairs.push((b_session(), Json::Str(session_id)));
    pairs.push((b_push_token(), match push_token {
        Some(t) => t,
        None => Json::Null,
    }));
    let j = Json::Obj(pairs);
    proof {
        lemma_jv_pairs(j->Obj_0@);
        assert(Json::jv_pairs(j->Obj_0@) =~= model->Obj_0);
    }
    j
}

} // verus!
