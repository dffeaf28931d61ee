//! Signing in through the running Riot client: its lockfile, the tokens it
//! hands out, and the headers every Riot request carries.
use vstd::prelude::*;
use crate::json::Json;
use crate::text::{chars_of, push_text, string_of};

verus! {

/// Where the local client listens and the password it accepts.
pub struct Lockfile {
    pub port: String,
    pub password: String,
}

/// The `:`-separated fields of a text, in order.
pub open spec fn fields(t: Seq<char>) -> Seq<Seq<char>>
    decreases t.len(),
{
    if t.len() == 0 {
        seq![Seq::empty()]
    } else {
        let prev = fields(t.drop_last());
        if t.last() == ':' {
            prev.push(Seq::empty())
        } else {
            prev.update(prev.len() - 1, prev.last().push(t.last()))
        }
    }
}

proof fn lemma_fields_len(t: Seq<char>)
    ensures
        fields(t).len() >= 1,
    decreases t.len(),
{
    if t.len() > 0 {
        lemma_fields_len(t.drop_last());
    }
}

/// The lockfile "name:pid:port:password:protocol": its port and password;
/// `None` unless it has exactly those five fields.
pub open spec fn lockfile_spec(t: Seq<char>) -> Option<(Seq<char>, Seq<char>)> {
    let f = fields(t);
    if f.len() == 5 {
        Some((f[2], f[3]))
    } else {
        None
    }
}

pub fn parse_lockfile(text: &str) -> (r: Option<Lockfile>)
    ensures
        match r {
            Some(l) => lockfile_spec(text@) == Some((l.port@, l.password@)),
            None => lockfile_spec(text@) is None,
        },
{
    let cs = chars_of(text);
    let mut parts: Vec<Vec<char>> = Vec::new();
    parts.push(Vec::new());
    proof {
        assert(cs@.take(0) =~= Seq::<char>::empty());
    }
    for i in 0..cs.len()
        invariant
            parts@.len() >= 1,
            parts@.map_values(|p: Vec<char>| p@) == fields(cs@.take(i as int)),
    {
        let ghost before = parts@.map_values(|p: Vec<char>| p@);
        proof {
            assert(cs@.take(i as int + 1).drop_last() =~= cs@.take(i as int));
            assert(cs@.take(i as int + 1).last() == cs@[i as int]);
        }
        let c = cs[i];
        if c == ':' {
            parts.push(Vec::new());
            proof {
                assert(parts@.map_values(|p: Vec<char>| p@) =~= before.push(Seq::empty()));
            }
        } else {
            let last = parts.len() - 1;
            let mut cur = parts.pop().unwrap();
            cur.push(c);
            parts.push(cur);
            proof {
                assert(parts@.map_values(|p: Vec<char>| p@) =~= before.update(
                    last as int,
                    before[last as int].push(c),
                ));
            }
        }
    }
    proof {
        assert(cs@.take(cs@.len() as int) =~= cs@);
    }
    if parts.len() != 5 {
        return None;
    }
    proof {
        assert(parts@[2]@ == fields(text@)[2]);
        assert(parts@[3]@ == fields(text@)[3]);
    }
    Some(Lockfile { port: string_of(&parts[2]), password: string_of(&parts[3]) })
}

/// The signed-in user and the tokens that authorise Riot requests.
pub struct AuthContext {
    pub access_token: String,
    pub entitlement: String,
    pub puuid: String,
}

/// The tokens in the local client's entitlements response: "accessToken",
/// "token" and "subject", all present.
pub open spec fn entitlements_spec(j: Json) -> Option<(Seq<char>, Seq<char>, Seq<char>)> {
    match (j.field_str("accessToken"@), j.field_str("token"@), j.field_str("subject"@)) {
        (Some(a), Some(t), Some(s)) => Some((a, t, s)),
        _ => None,
    }
}

pub fn parse_entitlements(j: &Json) -> (r: Option<AuthContext>)
    ensures
        match r {
            Some(c) => entitlements_spec(*j) == Some((c.access_token@, c.entitlement@, c.puuid@)),
            None => entitlements_spec(*j) is None,
        },
{
    match (j.get_str("accessToken"), j.get_str("token"), j.get_str("subject")) {
        (Some(a), Some(t), Some(s)) => Some(
            AuthContext { access_token: a.to_owned(), entitlement: t.to_owned(), puuid: s.to_owned() },
        ),
        _ => None,
    }
}

/// The client platform that Riot requests declare, as the base64 JSON the
/// game client sends.
pub open spec fn client_platform() -> Seq<char> {
    "ew0KCSJwbGF0Zm9ybVR5cGUiOiAiUEMiLA0KCSJwbGF0Zm9ybU9TIjogIldpbmRvd3MiLA0KCSJwbGF0Zm9ybU9TVmVyc2lvbiI6ICIxMC4wLjE5MDQyLjEuMjU2LjY0Yml0IiwNCgkicGxhdGZvcm1DaGlwc2V0IjogIlVua25vd24iDQp9"@
}

/// The headers of a Riot request: the bearer token, the entitlement, the
/// client platform and the client version.
pub open spec fn pvp_headers_spec(ctx: AuthContext, version: Seq<char>) -> Seq<(Seq<char>, Seq<char>)> {
    seq![
        ("Authorization"@, "Bearer "@ + ctx.access_token@),
        ("X-Riot-Entitlements-JWT"@, ctx.entitlement@),
        ("X-Riot-ClientPlatform"@, client_platform()),
        ("X-Riot-ClientVersion"@, version),
    ]
}

pub fn pvp_headers(ctx: &AuthContext, version: &str) -> (r: Vec<(String, String)>)
    ensures
        r@.map_values(|h: (String, String)| (h.0@, h.1@)) == pvp_headers_spec(*ctx, version@),
{
    let mut bearer = "Bearer ".to_owned();
    push_text(&mut bearer, ctx.access_token.as_str());
    let r = vec![
        ("Authorization".to_owned(), bearer),
        ("X-Riot-Entitlements-JWT".to_owned(), ctx.entitlement.clone()),
        (
            "X-Riot-ClientPlatform".to_owned(),
            "ew0KCSJwbGF0Zm9ybVR5cGUiOiAiUEMiLA0KCSJwbGF0Zm9ybU9TIjogIldpbmRvd3MiLA0KCSJwbGF0Zm9ybU9TVmVyc2lvbiI6ICIxMC4wLjE5MDQyLjEuMjU2LjY0Yml0IiwNCgkicGxhdGZvcm1DaGlwc2V0IjogIlVua25vd24iDQp9".to_owned(),
        ),
        ("X-Riot-ClientVersion".to_owned(), version.to_owned()),
    ];
    proof {
        assert(r@.map_values(|h: (String, String)| (h.0@, h.1@)) =~= pvp_headers_spec(*ctx, version@));
    }
    r
}

} // verus!
