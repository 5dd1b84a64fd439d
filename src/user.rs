use vstd::prelude::*;
use crate::scheduler::VerifyRegistry;
use crate::verify_state::VerifyInfo;

verus! {

/// The authenticated user, as the identity header describes it.
#[derive(Debug, Clone)]
pub struct UserInfo {
    pub id: i64,
    pub open_id: String,
    pub name: Option<String>,
    pub given_name: Option<String>,
    pub family_name: Option<String>,
    pub nickname: Option<String>,
    pub preferred_username: Option<String>,
    pub profile: Option<String>,
    pub picture: Option<String>,
    pub website: Option<String>,
    pub email: Option<String>,
    pub email_verified: Option<bool>,
    pub gender: Option<String>,
    pub birthdate: Option<String>,
    pub zoneinfo: Option<String>,
    pub locale: Option<String>,
    pub phone_number: Option<String>,
    pub phone_number_verified: Option<bool>,
    pub address: Option<String>,
}

impl UserInfo {
    /// A user known only by id and open id.
    pub fn with_id(id: i64, open_id: String) -> (r: UserInfo)
        ensures
            r.id == id,
            r.open_id == open_id,
            r.name is None && r.given_name is None && r.family_name is None && r.nickname is None,
            r.preferred_username is None && r.profile is None && r.picture is None && r.website is None,
            r.email is None && r.email_verified is None && r.gender is None && r.birthdate is None,
            r.zoneinfo is None && r.locale is None && r.phone_number is None,
            r.phone_number_verified is None && r.address is None,
    {
        UserInfo {
            id,
            open_id,
            name: None,
            given_name: None,
            family_name: None,
            nickname: None,
            preferred_username: None,
            profile: None,
            picture: None,
            website: None,
            email: None,
            email_verified: None,
            gender: None,
            birthdate: None,
            zoneinfo: None,
            locale: None,
            phone_number: None,
            phone_number_verified: None,
            address: None,
        }
    }
}

/// The authenticated user of a request.
#[derive(Debug, Clone)]
pub struct User(pub UserInfo);

/// One user's verification counters, as listed to clients.
#[derive(Debug, Clone)]
pub struct UserVerifyInfoItem {
    pub user_id: i64,
    pub pending_unverify_count: u64,
    pub success_count: u64,
    pub fail_count: u64,
    pub processing_count: u64,
    pub total: u64,
    pub token_usage: u64,
    pub matched_count: u64,
    pub max_match_limit: u64,
    pub total_matched_count: u64,
    pub user_info: Option<UserInfo>,
}

/// pending + processing + success + fail equals total; matched stays
/// within total, and within the quota when one is set.
pub open spec fn item_consistent(it: UserVerifyInfoItem) -> bool {
    &&& it.pending_unverify_count + it.processing_count + it.success_count + it.fail_count == it.total
    &&& it.matched_count <= it.total
    &&& it.max_match_limit != 0 ==> it.matched_count <= it.max_match_limit
}

pub open spec fn item_matches(it: UserVerifyInfoItem, info: VerifyInfo) -> bool {
    &&& it.pending_unverify_count == info.pending_unverify_count
    &&& it.success_count == info.success_count
    &&& it.fail_count == info.fail_count
    &&& it.processing_count == info.processing_count
    &&& it.total == info.total
    &&& it.token_usage == info.token_usage
    &&& it.matched_count == info.matched_count
    &&& it.max_match_limit == info.max_match_limit
    &&& it.total_matched_count == info.total_matched_count
}

impl UserVerifyInfoItem {
    pub fn from_info(user_id: i64, info: &VerifyInfo, user_info: Option<UserInfo>) -> (r: UserVerifyInfoItem)
        ensures
            r.user_id == user_id,
            item_matches(r, *info),
            r.user_info == user_info,
    {
        UserVerifyInfoItem {
            user_id,
            pending_unverify_count: info.pending_unverify_count,
            success_count: info.success_count,
            fail_count: info.fail_count,
            processing_count: info.processing_count,
            total: info.total,
            token_usage: info.token_usage,
            matched_count: info.matched_count,
            max_match_limit: info.max_match_limit,
            total_matched_count: info.total_matched_count,
            user_info,
        }
    }
}

/// The counters of every active user, one item each; only the item of
/// the requesting user carries that user's details.
pub fn all_users_verify_info(registry: &VerifyRegistry, current: UserInfo) -> (r: Vec<UserVerifyInfoItem>)
    requires
        registry.wf(),
    ensures
        forall|u: i64| registry.active_set().contains(u) <==> exists|i: int|
            0 <= i < r@.len() && #[trigger] r@[i].user_id == u,
        forall|i: int, j: int| 0 <= i < r@.len() && 0 <= j < r@.len() && i != j ==> #[trigger] r@[i].user_id != #[trigger] r@[j].user_id,
        forall|i: int| 0 <= i < r@.len() ==> registry.model(#[trigger] r@[i].user_id) is Some
            && item_matches(r@[i], registry.model(r@[i].user_id).unwrap().info()),
        forall|i: int| 0 <= i < r@.len() ==> (#[trigger] r@[i].user_info is Some <==> r@[i].user_id == current.id),
        forall|i: int| 0 <= i < r@.len() && #[trigger] r@[i].user_info is Some ==> r@[i].user_info == Some(current),
        forall|i: int| 0 <= i < r@.len() ==> item_consistent(#[trigger] r@[i]),
{
    let ids = registry.active_users();
    let me = current.id;
    let ghost cur_spec = current;
    let mut cur: Option<UserInfo> = Some(current);
    let mut out: Vec<UserVerifyInfoItem> = Vec::new();
    let mut i: usize = 0;
    proof {
        assert forall|u: i64| ids@.contains(u) <==> registry.active_set().contains(u) by {
            assert(ids@.to_set().contains(u) <==> ids@.contains(u));
        }
    }
    while i < ids.len()
        invariant
            0 <= i <= ids@.len(),
            registry.wf(),
            me == cur_spec.id,
            ids@.no_duplicates(),
            forall|u: i64| ids@.contains(u) <==> registry.active_set().contains(u),
            out@.len() == i,
            forall|k: int| 0 <= k < i ==> #[trigger] out@[k].user_id == ids@[k],
            forall|k: int| 0 <= k < i ==> registry.model(#[trigger] out@[k].user_id) is Some
                && item_matches(out@[k], registry.model(out@[k].user_id).unwrap().info()),
            forall|k: int| 0 <= k < i ==> (#[trigger] out@[k].user_info is Some <==> out@[k].user_id == me),
            forall|k: int| 0 <= k < i && #[trigger] out@[k].user_info is Some ==> out@[k].user_info == Some(cur_spec),
            forall|k: int| 0 <= k < i ==> item_consistent(#[trigger] out@[k]),
            cur is Some <==> forall|k: int| 0 <= k < i ==> #[trigger] ids@[k] != me,
            cur is Some ==> cur == Some(cur_spec),
        decreases ids@.len() - i,
    {
        let u = ids[i];
        proof {
            assert(ids@.contains(u));
        }
        let snap = registry.snapshot(u);
        let info = match snap {
            Some(x) => x,
            None => {
                proof {
                    assert(false);
                }
                VerifyInfo {
                    pending_unverify_count: 0,
                    processing_count: 0,
                    success_count: 0,
                    fail_count: 0,
                    total: 0,
                    token_usage: 0,
                    matched_count: 0,
                    max_match_limit: 0,
                    total_matched_count: 0,
                }
            },
        };
        let details = if u == me {
            proof {
                assert forall|k: int| 0 <= k < i implies #[trigger] ids@[k] != me by {
                    assert(ids@[k] != ids@[i as int]);
                }
            }
            cur.take()
        } else {
            None
        };
        out.push(UserVerifyInfoItem::from_info(u, &info, details));
        proof {
            assert forall|k: int| 0 <= k < i + 1 implies #[trigger] out@[k].user_id == ids@[k] by {}
        }
        i = i + 1;
    }
    proof {
        assert forall|u: i64| registry.active_set().contains(u) implies exists|k: int|
            0 <= k < out@.len() && #[trigger] out@[k].user_id == u by {
            let k = choose|k: int| 0 <= k < ids@.len() && ids@[k] == u;
            assert(out@[k].user_id == u);
        }
        assert forall|a: int, b: int| 0 <= a < out@.len() && 0 <= b < out@.len() && a != b implies #[trigger] out@[a].user_id
            != #[trigger] out@[b].user_id by {
            assert(out@[a].user_id == ids@[a]);
            assert(out@[b].user_id == ids@[b]);
        }
        assert forall|u: i64| (exists|k: int| 0 <= k < out@.len() && #[trigger] out@[k].user_id == u) implies registry.active_set().contains(u) by {
            let k = choose|k: int| 0 <= k < out@.len() && #[trigger] out@[k].user_id == u;
            assert(ids@[k] == u);
            assert(ids@.contains(u));
        }
    }
    out
}

} // verus!
