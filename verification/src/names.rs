//! The protocol's names as byte strings: frame kinds, envelope and snapshot
//! keys, and the store's key prefixes, each as a spec constant with its
//! executable builder.
use vstd::prelude::*;

verus! {
/// The bytes of `"INIT"`.
pub open spec fn k_kind_init() -> Seq<u8> {
    seq![0x49u8, 0x4Eu8, 0x49u8, 0x54u8]
}

/// The bytes of `"INIT"`.
pub fn b_kind_init() -> (r: Vec<u8>)
    ensures
        r@ == k_kind_init(),
{
    let mut k: Vec<u8> = Vec::new();
    k.push(0x49);
    k.push(0x4E);
    k.push(0x49);
    k.push(0x54);
    proof {
        assert(k@ =~= k_kind_init());
    }
    k
}

/// The bytes of `"PING"`.
pub open spec fn k_kind_ping() -> Seq<u8> {
    seq![0x50u8, 0x49u8, 0x4Eu8, 0x47u8]
}

/// The bytes of `"PING"`.
pub fn b_kind_ping() -> (r: Vec<u8>)
    ensures
        r@ == k_kind_ping(),
{
    let mut k: Vec<u8> = Vec::new();
    k.push(0x50);
    k.push(0x49);
    k.push(0x4E);
    k.push(0x47);
    proof {
        assert(k@ =~= k_kind_ping());
    }
    k
}

/// The bytes of `"PONG"`.
pub open spec fn k_kind_pong() -> Seq<u8> {
    seq![0x50u8, 0x4Fu8, 0x4Eu8, 0x47u8]
}

/// The bytes of `"PONG"`.
pub fn b_kind_pong() -> (r: Vec<u8>)
    ensures
        r@ == k_kind_pong(),
{
    let mut k: Vec<u8> = Vec::new();
    k.push(0x50);
    k.push(0x4F);
    k.push(0x4E);
    k.push(0x47);
    proof {
        assert(k@ =~= k_kind_pong());
    }
    k
}

/// The bytes of `"PUSH_TOKEN"`.
pub open spec fn k_kind_push_token() -> Seq<u8> {
    seq![0x50u8, 0x55u8, 0x53u8, 0x48u8, 0x5Fu8, 0x54u8, 0x4Fu8, 0x4Bu8, 0x45u8, 0x4Eu8]
}

/// The bytes of `"PUSH_TOKEN"`.
pub fn b_kind_push_token() -> (r: Vec<u8>)
    ensures
        r@ == k_kind_push_token(),
{
    let mut k: Vec<u8> = Vec::new();
    k.push(0x50);
    k.push(0x55);
    k.push(0x53);
    k.push(0x48);
    k.push(0x5F);
    k.push(0x54);
    k.push(0x4F);
    k.push(0x4B);
    k.push(0x45);
    k.push(0x4E);
    proof {
        assert(k@ =~= k_kind_push_token());
    }
    k
}

/// The bytes of `"PRESENCE_UPDATE"`.
pub open spec fn k_kind_presence_update() -> Seq<u8> {
    seq![0x50u8, 0x52u8, 0x45u8, 0x53u8, 0x45u8, 0x4Eu8, 0x43u8, 0x45u8, 0x5Fu8, 0x55u8, 0x50u8, 0x44u8, 0x41u8, 0x54u8, 0x45u8]
}

/// The bytes of `"PRESENCE_UPDATE"`.
pub fn b_kind_presence_update() -> (r: Vec<u8>)
    ensures
        r@ == k_kind_presence_update(),
{
    let mut k: Vec<u8> = Vec::new();
    k.push(0x50);
    k.push(0x52);
    k.push(0x45);
    k.push(0x53);
    k.push(0x45);
    k.push(0x4E);
    k.push(0x43);
    k.push(0x45);
    k.push(0x5F);
    k.push(0x55);
    k.push(0x50);
    k.push(0x44);
    k.push(0x41);
    k.push(0x54);
    k.push(0x45);
    proof {
        assert(k@ =~= k_kind_presence_update());
    }
    k
}

/// The bytes of `"me"`.
pub open spec fn k_me() -> Seq<u8> {
    seq![0x6Du8, 0x65u8]
}

/// The bytes of `"me"`.
pub fn b_me() -> (r: Vec<u8>)
    ensures
        r@ == k_me(),
{
    let mut k: Vec<u8> = Vec::new();
    k.push(0x6D);
    k.push(0x65);
    proof {
        assert(k@ =~= k_me());
    }
    k
}

/// The bytes of `"channels"`.
pub open spec fn k_channels() -> Seq<u8> {
    seq![0x63u8, 0x68u8, 0x61u8, 0x6Eu8, 0x6Eu8, 0x65u8, 0x6Cu8, 0x73u8]
}

/// The bytes of `"channels"`.
pub fn b_channels() -> (r: Vec<u8>)
    ensures
        r@ == k_channels(),
{
    let mut k: Vec<u8> = Vec::new();
    k.push(0x63);
    k.push(0x68);
    k.push(0x61);
    k.push(0x6E);
    k.push(0x6E);
    k.push(0x65);
    k.push(0x6C);
    k.push(0x73);
    proof {
        assert(k@ =~= k_channels());
    }
    k
}

/// The bytes of `"relationships"`.
pub open spec fn k_relationships() -> Seq<u8> {
    seq![0x72u8, 0x65u8, 0x6Cu8, 0x61u8, 0x74u8, 0x69u8, 0x6Fu8, 0x6Eu8, 0x73u8, 0x68u8, 0x69u8, 0x70u8, 0x73u8]
}

/// The bytes of `"relationships"`.
pub fn b_relationships() -> (r: Vec<u8>)
    ensures
        r@ == k_relationships(),
{
    let mut k: Vec<u8> = Vec::new();
    k.push(0x72);
    k.push(0x65);
    k.push(0x6C);
    k.push(0x61);
    k.push(0x74);
    k.push(0x69);
    k.push(0x6F);
    k.push(0x6E);
    k.push(0x73);
    k.push(0x68);
    k.push(0x69);
    k.push(0x70);
    k.push(0x73);
    proof {
        assert(k@ =~= k_relationships());
    }
    k
}

/// The bytes of `"users"`.
pub open spec fn k_users() -> Seq<u8> {
    seq![0x75u8, 0x73u8, 0x65u8, 0x72u8, 0x73u8]
}

/// The bytes of `"users"`.
pub fn b_users() -> (r: Vec<u8>)
    ensures
        r@ == k_users(),
{
    let mut k: Vec<u8> = Vec::new();
    k.push(0x75);
    k.push(0x73);
    k.push(0x65);
    k.push(0x72);
    k.push(0x73);
    proof {
        assert(k@ =~= k_users());
    }
    k
}

/// The bytes of `"presence"`.
pub open spec fn k_presence() -> Seq<u8> {
    seq![0x70u8, 0x72u8, 0x65u8, 0x73u8, 0x65u8, 0x6Eu8, 0x63u8, 0x65u8]
}

/// The bytes of `"presence"`.
pub fn b_presence() -> (r: Vec<u8>)
    ensures
        r@ == k_presence(),
{
    let mut k: Vec<u8> = Vec::new();
    k.push(0x70);
    k.push(0x72);
    k.push(0x65);
    k.push(0x73);
    k.push(0x65);
    k.push(0x6E);
    k.push(0x63);
    k.push(0x65);
    proof {
        assert(k@ =~= k_presence());
    }
    k
}

/// The bytes of `"session"`.
pub open spec fn k_session() -> Seq<u8> {
    seq![0x73u8, 0x65u8, 0x73u8, 0x73u8, 0x69u8, 0x6Fu8, 0x6Eu8]
}

/// The bytes of `"session"`.
pub fn b_session() -> (r: Vec<u8>)
    ensures
        r@ == k_session(),
{
    let mut k: Vec<u8> = Vec::new();
    k.push(0x73);
    k.push(0x65);
    k.push(0x73);
    k.push(0x73);
    k.push(0x69);
    k.push(0x6F);
    k.push(0x6E);
    proof {
        assert(k@ =~= k_session());
    }
    k
}

/// The bytes of `"push_token"`.
pub open spec fn k_push_token() -> Seq<u8> {
    seq![0x70u8, 0x75u8, 0x73u8, 0x68u8, 0x5Fu8, 0x74u8, 0x6Fu8, 0x6Bu8, 0x65u8, 0x6Eu8]
}

/// The bytes of `"push_token"`.
pub fn b_push_token() -> (r: Vec<u8>)
    ensures
        r@ == k_push_token(),
{
    let mut k: Vec<u8> = Vec::new();
    k.push(0x70);
    k.push(0x75);
    k.push(0x73);
    k.push(0x68);
    k.push(0x5F);
    k.push(0x74);
    k.push(0x6F);
    k.push(0x6B);
    k.push(0x65);
    k.push(0x6E);
    proof {
        assert(k@ =~= k_push_token());
    }
    k
}

/// The bytes of `"id"`.
pub open spec fn k_id() -> Seq<u8> {
    seq![0x69u8, 0x64u8]
}

/// The bytes of `"id"`.
pub fn b_id() -> (r: Vec<u8>)
    ensures
        r@ == k_id(),
{
    let mut k: Vec<u8> = Vec::new();
    k.push(0x69);
    k.push(0x64);
    proof {
        assert(k@ =~= k_id());
    }
    k
}

/// The bytes of `"display_name"`.
pub open spec fn k_display_name() -> Seq<u8> {
    seq![0x64u8, 0x69u8, 0x73u8, 0x70u8, 0x6Cu8, 0x61u8, 0x79u8, 0x5Fu8, 0x6Eu8, 0x61u8, 0x6Du8, 0x65u8]
}

/// The bytes of `"display_name"`.
pub fn b_display_name() -> (r: Vec<u8>)
    ensures
        r@ == k_display_name(),
{
    let mut k: Vec<u8> = Vec::new();
    k.push(0x64);
    k.push(0x69);
    k.push(0x73);
    k.push(0x70);
    k.push(0x6C);
    k.push(0x61);
    k.push(0x79);
    k.push(0x5F);
    k.push(0x6E);
    k.push(0x61);
    k.push(0x6D);
    k.push(0x65);
    proof {
        assert(k@ =~= k_display_name());
    }
    k
}

/// The bytes of `"username"`.
pub open spec fn k_username() -> Seq<u8> {
    seq![0x75u8, 0x73u8, 0x65u8, 0x72u8, 0x6Eu8, 0x61u8, 0x6Du8, 0x65u8]
}

/// The bytes of `"username"`.
pub fn b_username() -> (r: Vec<u8>)
    ensures
        r@ == k_username(),
{
    let mut k: Vec<u8> = Vec::new();
    k.push(0x75);
    k.push(0x73);
    k.push(0x65);
    k.push(0x72);
    k.push(0x6E);
    k.push(0x61);
    k.push(0x6D);
    k.push(0x65);
    proof {
        assert(k@ =~= k_username());
    }
    k
}

/// The bytes of `"user_id"`.
pub open spec fn k_user_id() -> Seq<u8> {
    seq![0x75u8, 0x73u8, 0x65u8, 0x72u8, 0x5Fu8, 0x69u8, 0x64u8]
}

/// The bytes of `"user_id"`.
pub fn b_user_id() -> (r: Vec<u8>)
    ensures
        r@ == k_user_id(),
{
    let mut k: Vec<u8> = Vec::new();
    k.push(0x75);
    k.push(0x73);
    k.push(0x65);
    k.push(0x72);
    k.push(0x5F);
    k.push(0x69);
    k.push(0x64);
    proof {
        assert(k@ =~= k_user_id());
    }
    k
}

/// The bytes of `"incoming"`.
pub open spec fn k_incoming() -> Seq<u8> {
    seq![0x69u8, 0x6Eu8, 0x63u8, 0x6Fu8, 0x6Du8, 0x69u8, 0x6Eu8, 0x67u8]
}

/// The bytes of `"incoming"`.
pub fn b_incoming() -> (r: Vec<u8>)
    ensures
        r@ == k_incoming(),
{
    let mut k: Vec<u8> = Vec::new();
    k.push(0x69);
    k.push(0x6E);
    k.push(0x63);
    k.push(0x6F);
    k.push(0x6D);
    k.push(0x69);
    k.push(0x6E);
    k.push(0x67);
    proof {
        assert(k@ =~= k_incoming());
    }
    k
}

/// The bytes of `"accepted_at"`.
pub open spec fn k_accepted_at() -> Seq<u8> {
    seq![0x61u8, 0x63u8, 0x63u8, 0x65u8, 0x70u8, 0x74u8, 0x65u8, 0x64u8, 0x5Fu8, 0x61u8, 0x74u8]
}

/// The bytes of `"accepted_at"`.
pub fn b_accepted_at() -> (r: Vec<u8>)
    ensures
        r@ == k_accepted_at(),
{
    let mut k: Vec<u8> = Vec::new();
    k.push(0x61);
    k.push(0x63);
    k.push(0x63);
    k.push(0x65);
    k.push(0x70);
    k.push(0x74);
    k.push(0x65);
    k.push(0x64);
    k.push(0x5F);
    k.push(0x61);
    k.push(0x74);
    proof {
        assert(k@ =~= k_accepted_at());
    }
    k
}

/// The bytes of `"created_at"`.
pub open spec fn k_created_at() -> Seq<u8> {
    seq![0x63u8, 0x72u8, 0x65u8, 0x61u8, 0x74u8, 0x65u8, 0x64u8, 0x5Fu8, 0x61u8, 0x74u8]
}

/// The bytes of `"created_at"`.
pub fn b_created_at() -> (r: Vec<u8>)
    ensures
        r@ == k_created_at(),
{
    let mut k: Vec<u8> = Vec::new();
    k.push(0x63);
    k.push(0x72);
    k.push(0x65);
    k.push(0x61);
    k.push(0x74);
    k.push(0x65);
    k.push(0x64);
    k.push(0x5F);
    k.push(0x61);
    k.push(0x74);
    proof {
        assert(k@ =~= k_created_at());
    }
    k
}

/// The bytes of `"lastSeen"`.
pub open spec fn k_last_seen() -> Seq<u8> {
    seq![0x6Cu8, 0x61u8, 0x73u8, 0x74u8, 0x53u8, 0x65u8, 0x65u8, 0x6Eu8]
}

/// The bytes of `"lastSeen"`.
pub fn b_last_seen() -> (r: Vec<u8>)
    ensures
        r@ == k_last_seen(),
{
    let mut k: Vec<u8> = Vec::new();
    k.push(0x6C);
    k.push(0x61);
    k.push(0x73);
    k.push(0x74);
    k.push(0x53);
    k.push(0x65);
    k.push(0x65);
    k.push(0x6E);
    proof {
        assert(k@ =~= k_last_seen());
    }
    k
}

/// The bytes of `"ONLINE"`.
pub open spec fn k_online() -> Seq<u8> {
    seq![0x4Fu8, 0x4Eu8, 0x4Cu8, 0x49u8, 0x4Eu8, 0x45u8]
}

/// The bytes of `"ONLINE"`.
pub fn b_online() -> (r: Vec<u8>)
    ensures
        r@ == k_online(),
{
    let mut k: Vec<u8> = Vec::new();
    k.push(0x4F);
    k.push(0x4E);
    k.push(0x4C);
    k.push(0x49);
    k.push(0x4E);
    k.push(0x45);
    proof {
        assert(k@ =~= k_online());
    }
    k
}

/// The bytes of `"OFFLINE"`.
pub open spec fn k_offline() -> Seq<u8> {
    seq![0x4Fu8, 0x46u8, 0x46u8, 0x4Cu8, 0x49u8, 0x4Eu8, 0x45u8]
}

/// The bytes of `"OFFLINE"`.
pub fn b_offline() -> (r: Vec<u8>)
    ensures
        r@ == k_offline(),
{
    let mut k: Vec<u8> = Vec::new();
    k.push(0x4F);
    k.push(0x46);
    k.push(0x46);
    k.push(0x4C);
    k.push(0x49);
    k.push(0x4E);
    k.push(0x45);
    proof {
        assert(k@ =~= k_offline());
    }
    k
}

/// The bytes of `"token"`.
pub open spec fn k_token() -> Seq<u8> {
    seq![0x74u8, 0x6Fu8, 0x6Bu8, 0x65u8, 0x6Eu8]
}

/// The bytes of `"token"`.
pub fn b_token() -> (r: Vec<u8>)
    ensures
        r@ == k_token(),
{
    let mut k: Vec<u8> = Vec::new();
    k.push(0x74);
    k.push(0x6F);
    k.push(0x6B);
    k.push(0x65);
    k.push(0x6E);
    proof {
        assert(k@ =~= k_token());
    }
    k
}

/// The bytes of `"members"`.
pub open spec fn k_members() -> Seq<u8> {
    seq![0x6Du8, 0x65u8, 0x6Du8, 0x62u8, 0x65u8, 0x72u8, 0x73u8]
}

/// The bytes of `"members"`.
pub fn b_members() -> (r: Vec<u8>)
    ensures
        r@ == k_members(),
{
    let mut k: Vec<u8> = Vec::new();
    k.push(0x6D);
    k.push(0x65);
    k.push(0x6D);
    k.push(0x62);
    k.push(0x65);
    k.push(0x72);
    k.push(0x73);
    proof {
        assert(k@ =~= k_members());
    }
    k
}

/// The bytes of `"CACHE:ME_USER:"`.
pub open spec fn k_cache_me_user() -> Seq<u8> {
    seq![0x43u8, 0x41u8, 0x43u8, 0x48u8, 0x45u8, 0x3Au8, 0x4Du8, 0x45u8, 0x5Fu8, 0x55u8, 0x53u8, 0x45u8, 0x52u8, 0x3Au8]
}

/// The bytes of `"CACHE:ME_USER:"`.
pub fn b_cache_me_user() -> (r: Vec<u8>)
    ensures
        r@ == k_cache_me_user(),
{
    let mut k: Vec<u8> = Vec::new();
    k.push(0x43);
    k.push(0x41);
    k.push(0x43);
    k.push(0x48);
    k.push(0x45);
    k.push(0x3A);
    k.push(0x4D);
    k.push(0x45);
    k.push(0x5F);
    k.push(0x55);
    k.push(0x53);
    k.push(0x45);
    k.push(0x52);
    k.push(0x3A);
    proof {
        assert(k@ =~= k_cache_me_user());
    }
    k
}

/// The bytes of `"CACHE:U_FRNDS:"`.
pub open spec fn k_cache_u_frnds() -> Seq<u8> {
    seq![0x43u8, 0x41u8, 0x43u8, 0x48u8, 0x45u8, 0x3Au8, 0x55u8, 0x5Fu8, 0x46u8, 0x52u8, 0x4Eu8, 0x44u8, 0x53u8, 0x3Au8]
}

/// The bytes of `"CACHE:U_FRNDS:"`.
pub fn b_cache_u_frnds() -> (r: Vec<u8>)
    ensures
        r@ == k_cache_u_frnds(),
{
    let mut k: Vec<u8> = Vec::new();
    k.push(0x43);
    k.push(0x41);
    k.push(0x43);
    k.push(0x48);
    k.push(0x45);
    k.push(0x3A);
    k.push(0x55);
    k.push(0x5F);
    k.push(0x46);
    k.push(0x52);
    k.push(0x4E);
    k.push(0x44);
    k.push(0x53);
    k.push(0x3A);
    proof {
        assert(k@ =~= k_cache_u_frnds());
    }
    k
}

/// The bytes of `"CACHE:UF:"`.
pub open spec fn k_cache_uf() -> Seq<u8> {
    seq![0x43u8, 0x41u8, 0x43u8, 0x48u8, 0x45u8, 0x3Au8, 0x55u8, 0x46u8, 0x3Au8]
}

/// The bytes of `"CACHE:UF:"`.
pub fn b_cache_uf() -> (r: Vec<u8>)
    ensures
        r@ == k_cache_uf(),
{
    let mut k: Vec<u8> = Vec::new();
    k.push(0x43);
    k.push(0x41);
    k.push(0x43);
    k.push(0x48);
    k.push(0x45);
    k.push(0x3A);
    k.push(0x55);
    k.push(0x46);
    k.push(0x3A);
    proof {
        assert(k@ =~= k_cache_uf());
    }
    k
}

/// The bytes of `"CACHE:U_CHANNELS:"`.
pub open spec fn k_cache_u_channels() -> Seq<u8> {
    seq![0x43u8, 0x41u8, 0x43u8, 0x48u8, 0x45u8, 0x3Au8, 0x55u8, 0x5Fu8, 0x43u8, 0x48u8, 0x41u8, 0x4Eu8, 0x4Eu8, 0x45u8, 0x4Cu8, 0x53u8, 0x3Au8]
}

/// The bytes of `"CACHE:U_CHANNELS:"`.
pub fn b_cache_u_channels() -> (r: Vec<u8>)
    ensures
        r@ == k_cache_u_channels(),
{
    let mut k: Vec<u8> = Vec::new();
    k.push(0x43);
    k.push(0x41);
    k.push(0x43);
    k.push(0x48);
    k.push(0x45);
    k.push(0x3A);
    k.push(0x55);
    k.push(0x5F);
    k.push(0x43);
    k.push(0x48);
    k.push(0x41);
    k.push(0x4E);
    k.push(0x4E);
    k.push(0x45);
    k.push(0x4C);
    k.push(0x53);
    k.push(0x3A);
    proof {
        assert(k@ =~= k_cache_u_channels());
    }
    k
}

/// The bytes of `"user:"`.
pub open spec fn k_user_prefix() -> Seq<u8> {
    seq![0x75u8, 0x73u8, 0x65u8, 0x72u8, 0x3Au8]
}

/// The bytes of `"user:"`.
pub fn b_user_prefix() -> (r: Vec<u8>)
    ensures
        r@ == k_user_prefix(),
{
    let mut k: Vec<u8> = Vec::new();
    k.push(0x75);
    k.push(0x73);
    k.push(0x65);
    k.push(0x72);
    k.push(0x3A);
    proof {
        assert(k@ =~= k_user_prefix());
    }
    k
}

/// The bytes of `"user-lastSeen:"`.
pub open spec fn k_user_last_seen_prefix() -> Seq<u8> {
    seq![0x75u8, 0x73u8, 0x65u8, 0x72u8, 0x2Du8, 0x6Cu8, 0x61u8, 0x73u8, 0x74u8, 0x53u8, 0x65u8, 0x65u8, 0x6Eu8, 0x3Au8]
}

/// The bytes of `"user-lastSeen:"`.
pub fn b_user_last_seen_prefix() -> (r: Vec<u8>)
    ensures
        r@ == k_user_last_seen_prefix(),
{
    let mut k: Vec<u8> = Vec::new();
    k.push(0x75);
    k.push(0x73);
    k.push(0x65);
    k.push(0x72);
    k.push(0x2D);
    k.push(0x6C);
    k.push(0x61);
    k.push(0x73);
    k.push(0x74);
    k.push(0x53);
    k.push(0x65);
    k.push(0x65);
    k.push(0x6E);
    k.push(0x3A);
    proof {
        assert(k@ =~= k_user_last_seen_prefix());
    }
    k
}

/// The bytes of `"user:session:"`.
pub open spec fn k_user_session_prefix() -> Seq<u8> {
    seq![0x75u8, 0x73u8, 0x65u8, 0x72u8, 0x3Au8, 0x73u8, 0x65u8, 0x73u8, 0x73u8, 0x69u8, 0x6Fu8, 0x6Eu8, 0x3Au8]
}

/// The bytes of `"user:session:"`.
pub fn b_user_session_prefix() -> (r: Vec<u8>)
    ensures
        r@ == k_user_session_prefix(),
{
    let mut k: Vec<u8> = Vec::new();
    k.push(0x75);
    k.push(0x73);
    k.push(0x65);
    k.push(0x72);
    k.push(0x3A);
    k.push(0x73);
    k.push(0x65);
    k.push(0x73);
    k.push(0x73);
    k.push(0x69);
    k.push(0x6F);
    k.push(0x6E);
    k.push(0x3A);
    proof {
        assert(k@ =~= k_user_session_prefix());
    }
    k
}

/// The bytes of `":subscriptions"`.
pub open spec fn k_subscriptions_suffix() -> Seq<u8> {
    seq![0x3Au8, 0x73u8, 0x75u8, 0x62u8, 0x73u8, 0x63u8, 0x72u8, 0x69u8, 0x70u8, 0x74u8, 0x69u8, 0x6Fu8, 0x6Eu8, 0x73u8]
}

/// The bytes of `":subscriptions"`.
pub fn b_subscriptions_suffix() -> (r: Vec<u8>)
    ensures
        r@ == k_subscriptions_suffix(),
{
    let mut k: Vec<u8> = Vec::new();
    k.push(0x3A);
    k.push(0x73);
    k.push(0x75);
    k.push(0x62);
    k.push(0x73);
    k.push(0x63);
    k.push(0x72);
    k.push(0x69);
    k.push(0x70);
    k.push(0x74);
    k.push(0x69);
    k.push(0x6F);
    k.push(0x6E);
    k.push(0x73);
    proof {
        assert(k@ =~= k_subscriptions_suffix());
    }
    k
}

/// The bytes of `"U."`.
pub open spec fn k_chan_u() -> Seq<u8> {
    seq![0x55u8, 0x2Eu8]
}

/// The bytes of `"U."`.
pub fn b_chan_u() -> (r: Vec<u8>)
    ensures
        r@ == k_chan_u(),
{
    let mut k: Vec<u8> = Vec::new();
    k.push(0x55);
    k.push(0x2E);
    proof {
        assert(k@ =~= k_chan_u());
    }
    k
}

/// The bytes of `"F."`.
pub open spec fn k_chan_f() -> Seq<u8> {
    seq![0x46u8, 0x2Eu8]
}

/// The bytes of `"F."`.
pub fn b_chan_f() -> (r: Vec<u8>)
    ensures
        r@ == k_chan_f(),
{
    let mut k: Vec<u8> = Vec::new();
    k.push(0x46);
    k.push(0x2E);
    proof {
        assert(k@ =~= k_chan_f());
    }
    k
}

/// Joins two byte strings.
pub fn concat_bytes(mut a: Vec<u8>, b: &Vec<u8>) -> (r: Vec<u8>)
    ensures
        r@ == a@ + b@,
{
    let ghost ga = a@;
    a.extend_from_slice(b.as_slice());
    proof {
        assert(a@ =~= ga + b@);
    }
    a
}

} // verus!
