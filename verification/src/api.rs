//! Requests to the Stalcraft web API: where they go, how they authenticate,
//! and what is taken from the clan member list.

use vstd::prelude::*;
use crate::config::{Config, DEMO_API};
use crate::members::nick_views;
use crate::text::push_str;

verus! {

/// A clan member as the API lists it.
pub struct ClanMember {
    pub name: String,
}

/// The names of listed clan members, in order.
pub open spec fn member_names(listed: Seq<ClanMember>) -> Seq<Seq<char>> {
    listed.map_values(|m: ClanMember| m.name@)
}

/// What requests to the API are made with: the token, the region and whether
/// the demo host is used.
pub struct Requester {
    pub token: String,
    pub region: String,
    pub demo_api: bool,
}

/// The address of API resource `path` in `region`, on the demo host (`d`)
/// or the production host (`e`).
pub open spec fn api_url(demo_api: bool, region: Seq<char>, path: Seq<char>) -> Seq<char> {
    "https://"@ + (if demo_api {
        "d"@
    } else {
        "e"@
    }) + "api.stalcraft.net/"@ + region + "/"@ + path
}

impl Requester {
    /// A requester with the token and region of `config`, on the host `DEMO_API` selects.
    pub fn default(config: &Config) -> (r: Requester)
        ensures
            r.token@ == config.stalcraft_api_token@,
            r.region@ == config.stalcraft_region@,
            r.demo_api == DEMO_API,
    {
        Requester {
            token: config.stalcraft_api_token.clone(),
            region: config.stalcraft_region.clone(),
            demo_api: DEMO_API,
        }
    }

    /// The address of API resource `path`.
    pub fn url(&self, path: &str) -> (url: String)
        ensures
            url@ == api_url(self.demo_api, self.region@, path@),
    {
        let mut url = String::from_str("https://");
        if self.demo_api {
            push_str(&mut url, "d");
        } else {
            push_str(&mut url, "e");
        }
        push_str(&mut url, "api.stalcraft.net/");
        push_str(&mut url, self.region.as_str());
        push_str(&mut url, "/");
        push_str(&mut url, path);
        url
    }

    /// The value of the `Authorization` header.
    pub fn auth_header(&self) -> (header: String)
        ensures
            header@ == "Bearer "@ + self.token@,
    {
        let mut header = String::from_str("Bearer ");
        push_str(&mut header, self.token.as_str());
        header
    }

    /// The API resource that lists the members of clan `clan_id`.
    pub fn clan_members_path(clan_id: &str) -> (path: String)
        ensures
            path@ == "clan/"@ + clan_id@ + "/members"@,
    {
        let mut path = String::from_str("clan/");
        push_str(&mut path, clan_id);
        push_str(&mut path, "/members");
        path
    }

    /// The nicknames of the members the API listed, in its order.
    pub fn clan_members(listed: Vec<ClanMember>) -> (names: Vec<String>)
        ensures
            nick_views(names@) == member_names(listed@),
    {
        let mut names: Vec<String> = Vec::new();
        let mut i: usize = 0;
        while i < listed.len()
            invariant
                i <= listed@.len(),
                names@.len() == i,
                nick_views(names@) == member_names(listed@).take(i as int),
            decreases listed@.len() - i,
        {
            let ghost before = names@;
            let name = listed[i].name.clone();
            names.push(name);
            assert(names@ == before.push(name));
            assert(nick_views(names@)[i as int] == member_names(listed@)[i as int]);
            i = i + 1;
            assert(nick_views(names@) =~= member_names(listed@).take(i as int));
        }
        assert(member_names(listed@).take(i as int) =~= member_names(listed@));
        names
    }
}

} // verus!
