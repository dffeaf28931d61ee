//! Discord rich presence: what the status says, and when it is sent. The
//! connection to Discord is the caller's; this state machine tells it when
//! to connect, clear or send, and learns from it how that went.
use vstd::prelude::*;
use crate::model::{MatchView, MatchViewV, RowView};
use crate::text::{decimal, push_decimal, push_text};

verus! {

/// The shared application id, used unless another is configured.
pub open spec fn default_app_id() -> Seq<char> {
    "1519865652763033752"@
}

/// The dedup key while presence is turned off in settings.
pub open spec fn off_key() -> Seq<char> {
    "__rpc_off__"@
}

/// The presence is re-sent every this many updates even when unchanged.
pub const KEEPALIVE_EVERY: u32 = 10;

/// The application id to use: the configured one when it is not empty, the
/// shared one otherwise.
pub fn pick_app_id(configured: Option<String>) -> (r: String)
    ensures
        r@ == match configured {
            Some(id) => if id@.len() > 0 {
                id@
            } else {
                default_app_id()
            },
            None => default_app_id(),
        },
{
    match configured {
        Some(id) => if !id.as_str().is_empty() {
            id
        } else {
            "1519865652763033752".to_owned()
        },
        None => "1519865652763033752".to_owned(),
    }
}

/// The user's rank for the status: "<rank> - <rr> RR" when ranked, the rank
/// name alone when not, nothing without a profile.
pub open spec fn self_rank_spec(me: Option<RowView>) -> Seq<char> {
    match me {
        Some(m) => if m.rank_tier > 0 {
            m.rank_name + " - "@ + decimal(m.rr as nat) + " RR"@
        } else {
            m.rank_name
        },
        None => Seq::empty(),
    }
}

pub fn self_rank(view: &MatchView) -> (r: String)
    ensures
        r@ == self_rank_spec(view@.me),
{
    match &view.me {
        Some(me) => {
            if me.rank_tier > 0 {
                let mut s = me.rank_name.clone();
                push_text(&mut s, " - ");
                push_decimal(&mut s, me.rr as u64);
                push_text(&mut s, " RR");
                s
            } else {
                me.rank_name.clone()
            }
        },
        None => String::new(),
    }
}

/// The two status lines: the activity ("Idle" when there is none) with the
/// live score once a game is under way, and the user's rank.
pub open spec fn activity_text_spec(v: MatchViewV) -> (Seq<char>, Seq<char>) {
    let base = if v.activity.len() == 0 {
        "Idle"@
    } else {
        v.activity
    };
    let details = if v.ally_score > 0 || v.enemy_score > 0 {
        base + "  "@ + decimal(v.ally_score as nat) + " - "@ + decimal(v.enemy_score as nat)
    } else {
        base
    };
    (details, self_rank_spec(v.me))
}

pub fn activity_text(view: &MatchView) -> (r: (String, String))
    ensures
        (r.0@, r.1@) == activity_text_spec(view@),
{
    let mut details = if view.activity.as_str().is_empty() {
        "Idle".to_owned()
    } else {
        view.activity.clone()
    };
    if view.ally_score > 0 || view.enemy_score > 0 {
        push_text(&mut details, "  ");
        push_decimal(&mut details, view.ally_score as u64);
        push_text(&mut details, " - ");
        push_decimal(&mut details, view.enemy_score as u64);
    }
    (details, self_rank(view))
}

/// The large image and its caption: the live map splash and name while in a
/// match, the bundled logo otherwise.
pub open spec fn large_asset_spec(v: MatchViewV) -> (Seq<char>, Seq<char>) {
    if v.map_image.len() == 0 {
        ("logo"@, "Peek"@)
    } else if v.map.len() == 0 {
        (v.map_image, "Peek"@)
    } else {
        (v.map_image, v.map)
    }
}

pub fn large_asset(view: &MatchView) -> (r: (String, String))
    ensures
        (r.0@, r.1@) == large_asset_spec(view@),
{
    if view.map_image.as_str().is_empty() {
        ("logo".to_owned(), "Peek".to_owned())
    } else if view.map.as_str().is_empty() {
        (view.map_image.clone(), "Peek".to_owned())
    } else {
        (view.map_image.clone(), view.map.clone())
    }
}

/// The small image and its caption: the user's rank icon and name, when
/// ranked and the icon is known.
pub open spec fn rank_asset_spec(v: MatchViewV) -> Option<(Seq<char>, Seq<char>)> {
    match v.me {
        Some(m) => if m.rank_tier == 0 || m.rank_icon.len() == 0 {
            None
        } else {
            Some((m.rank_icon, m.rank_name))
        },
        None => None,
    }
}

pub fn rank_asset(view: &MatchView) -> (r: Option<(String, String)>)
    ensures
        match r {
            Some(p) => rank_asset_spec(view@) == Some((p.0@, p.1@)),
            None => rank_asset_spec(view@) is None,
        },
{
    match &view.me {
        Some(me) => {
            if me.rank_tier == 0 || me.rank_icon.as_str().is_empty() {
                None
            } else {
                Some((me.rank_icon.clone(), me.rank_name.clone()))
            }
        },
        None => None,
    }
}

/// The user's party size, when the roster knows it.
pub open spec fn party_size_spec(v: MatchViewV) -> Option<u32> {
    match v.me {
        Some(m) => if m.party_size >= 1 {
            Some(m.party_size)
        } else {
            None
        },
        None => None,
    }
}

pub fn party_size(view: &MatchView) -> (r: Option<u32>)
    ensures
        r == party_size_spec(view@),
{
    match &view.me {
        Some(me) => if me.party_size >= 1 {
            Some(me.party_size)
        } else {
            None
        },
        None => None,
    }
}

/// What identifies a status, so an unchanged one is not sent again:
/// "details|state|large image|rank icon|party size" (an absent icon is
/// empty, an absent size 0).
pub open spec fn status_key_spec(v: MatchViewV) -> Seq<char> {
    let (details, state) = activity_text_spec(v);
    let rank = match rank_asset_spec(v) {
        Some(p) => p.0,
        None => Seq::empty(),
    };
    let size: nat = match party_size_spec(v) {
        Some(n) => n as nat,
        None => 0,
    };
    details + "|"@ + state + "|"@ + large_asset_spec(v).0 + "|"@ + rank + "|"@ + decimal(size)
}

/// Everything one status update sends.
pub struct Status {
    pub details: String,
    pub state: String,
    pub large_image: String,
    pub large_text: String,
    pub rank: Option<(String, String)>,
    /// The party bracket's size, at most 5.
    pub party: Option<u32>,
    pub start: i64,
    pub key: String,
}

/// What the caller does before an update can be sent.
pub enum Begin {
    /// Presence has no application id: do nothing.
    Skip,
    /// Presence was just turned off: clear the activity once, connecting
    /// first if needed.
    ClearOff,
    /// Presence is off and already cleared: do nothing.
    StayOff,
    /// Connect first, then report with `on_connect`.
    Connect,
    /// Connected: build the status with `prepare`.
    Ready,
}

/// The presence state between updates.
pub struct Rpc {
    pub app_id: String,
    pub start: i64,
    pub last_key: String,
    pub ticks: u32,
    /// Whether the caller holds a live connection.
    pub connected: bool,
}

/// The presence state as values.
pub struct RpcView {
    pub app_id: Seq<char>,
    pub start: i64,
    pub last_key: Seq<char>,
    pub ticks: u32,
    pub connected: bool,
}

impl View for Rpc {
    type V = RpcView;

    open spec fn view(&self) -> RpcView {
        RpcView {
            app_id: self.app_id@,
            start: self.start,
            last_key: self.last_key@,
            ticks: self.ticks,
            connected: self.connected,
        }
    }
}

/// The first step of an update: without an application id, skip; turned
/// off, clear once (marked by the off key) and then stay off; turned on,
/// connect first when there is no connection.
pub open spec fn begin_spec(v: RpcView, enabled: bool) -> (Begin, RpcView) {
    if v.app_id.len() == 0 {
        (Begin::Skip, v)
    } else if !enabled {
        if v.last_key != off_key() {
            (Begin::ClearOff, RpcView { last_key: off_key(), ..v })
        } else {
            (Begin::StayOff, v)
        }
    } else if v.connected {
        (Begin::Ready, v)
    } else {
        (Begin::Connect, v)
    }
}

/// After a connection attempt: a made connection is kept, and while
/// presence is on it forgets the last status sent.
pub open spec fn connect_spec(v: RpcView, ok: bool, enabled: bool) -> RpcView {
    if ok {
        RpcView {
            connected: true,
            last_key: if enabled {
                Seq::empty()
            } else {
                v.last_key
            },
            ..v
        }
    } else {
        v
    }
}

/// The update counter after one more update, wrapping at the top.
pub open spec fn next_tick(t: u32) -> u32 {
    if t == u32::MAX {
        0
    } else {
        (t + 1) as u32
    }
}

/// Building the status counts the update; it is sent unless its key is the
/// last one sent and no keep-alive is due.
pub open spec fn prepare_spec(v: RpcView, mv: MatchViewV) -> (bool, RpcView) {
    let w = RpcView { ticks: next_tick(v.ticks), ..v };
    (!(status_key_spec(mv) == v.last_key && w.ticks % KEEPALIVE_EVERY != 0), w)
}

/// After a send: a sent key becomes the last one; a failed send drops the
/// connection and forgets the last key.
pub open spec fn sent_spec(v: RpcView, key: Seq<char>, ok: bool) -> RpcView {
    if ok {
        RpcView { last_key: key, ..v }
    } else {
        RpcView { last_key: Seq::empty(), connected: false, ..v }
    }
}

impl Rpc {
    pub fn new(app_id: String, start: i64) -> (r: Rpc)
        ensures
            r.app_id == app_id,
            r.start == start,
            r.last_key@.len() == 0,
            r.ticks == 0,
            !r.connected,
    {
        Rpc { app_id, start, last_key: String::new(), ticks: 0, connected: false }
    }

    pub fn has_app_id(&self) -> (r: bool)
        ensures
            r == (self.app_id@.len() > 0),
    {
        !self.app_id.as_str().is_empty()
    }

    /// The first step of an update. Turning presence off clears it once,
    /// marked by the off key; when on, a missing connection is made first.
    pub fn begin(&mut self, enabled: bool) -> (b: Begin)
        ensures
            final(self).app_id == old(self).app_id,
            final(self).start == old(self).start,
            final(self).ticks == old(self).ticks,
            final(self).connected == old(self).connected,
            old(self).app_id@.len() == 0 ==> b is Skip && final(self).last_key == old(self).last_key,
            old(self).app_id@.len() > 0 && !enabled && old(self).last_key@ != off_key() ==> b is ClearOff
                && final(self).last_key@ == off_key(),
            old(self).app_id@.len() > 0 && !enabled && old(self).last_key@ == off_key() ==> b is StayOff
                && final(self).last_key == old(self).last_key,
            old(self).app_id@.len() > 0 && enabled ==> final(self).last_key == old(self).last_key && (
            if old(self).connected {
                b is Ready
            } else {
                b is Connect
            }),
            (b, final(self)@) == begin_spec(old(self)@, enabled),
    {
        if !self.has_app_id() {
            return Begin::Skip;
        }
        if !enabled {
            if !crate::text::text_eq(self.last_key.as_str(), "__rpc_off__") {
                self.last_key = "__rpc_off__".to_owned();
                return Begin::ClearOff;
            }
            return Begin::StayOff;
        }
        if self.connected {
            Begin::Ready
        } else {
            Begin::Connect
        }
    }

    /// How a connection attempt went. A fresh connection forgets the last
    /// status, so the next one is sent even if unchanged. While presence is
    /// off the off key is kept, so the clear is not repeated.
    pub fn on_connect(&mut self, ok: bool, enabled: bool)
        ensures
            final(self).app_id == old(self).app_id,
            final(self).start == old(self).start,
            final(self).ticks == old(self).ticks,
            final(self).connected == (old(self).connected || ok),
            ok && enabled ==> final(self).last_key@.len() == 0,
            !(ok && enabled) ==> final(self).last_key == old(self).last_key,
            final(self)@ == connect_spec(old(self)@, ok, enabled),
    {
        if ok {
            self.connected = true;
            if enabled {
                self.last_key = String::new();
            }
        }
    }

    /// Builds the status for a view, counting the update. `None` when it
    /// matches the last one sent and no keep-alive is due (every tenth
    /// update).
    pub fn prepare(&mut self, view: &MatchView) -> (r: Option<Status>)
        ensures
            final(self).app_id == old(self).app_id,
            final(self).start == old(self).start,
            final(self).last_key == old(self).last_key,
            final(self).connected == old(self).connected,
            final(self).ticks == if old(self).ticks == u32::MAX {
                0
            } else {
                (old(self).ticks + 1) as u32
            },
            ({
                let key = status_key_spec(view@);
                let keepalive = final(self).ticks % KEEPALIVE_EVERY == 0;
                if key == old(self).last_key@ && !keepalive {
                    r is None
                } else {
                    r is Some && {
                        let s = r->0;
                        &&& s.key@ == key
                        &&& (s.details@, s.state@) == activity_text_spec(view@)
                        &&& (s.large_image@, s.large_text@) == large_asset_spec(view@)
                        &&& match s.rank {
                            Some(p) => rank_asset_spec(view@) == Some((p.0@, p.1@)),
                            None => rank_asset_spec(view@) is None,
                        }
                        &&& s.party == match party_size_spec(view@) {
                            Some(n) => Some(if n < 5 { n } else { 5u32 }),
                            None => None,
                        }
                        &&& s.start == old(self).start
                    }
                }
            }),
            final(self)@ == prepare_spec(old(self)@, view@).1,
            (r is Some) == prepare_spec(old(self)@, view@).0,
    {
        self.ticks = if self.ticks == u32::MAX {
            0
        } else {
            self.ticks + 1
        };
        let (details, state) = activity_text(view);
        let (large_image, large_text) = large_asset(view);
        let rank = rank_asset(view);
        let psize = party_size(view);
        let mut key = details.clone();
        push_text(&mut key, "|");
        push_text(&mut key, state.as_str());
        push_text(&mut key, "|");
        push_text(&mut key, large_image.as_str());
        push_text(&mut key, "|");
        match &rank {
            Some(p) => push_text(&mut key, p.0.as_str()),
            None => {},
        }
        push_text(&mut key, "|");
        let size: u32 = match psize {
            Some(n) => n,
            None => 0,
        };
        push_decimal(&mut key, size as u64);
        proof {
            let rk = match rank_asset_spec(view@) {
                Some(p) => p.0,
                None => Seq::<char>::empty(),
            };
            assert(key@ =~= details@ + "|"@ + state@ + "|"@ + large_image@ + "|"@ + rk + "|"@
                + decimal(size as nat));
        }
        let keepalive = self.ticks % KEEPALIVE_EVERY == 0;
        if crate::text::text_eq(key.as_str(), self.last_key.as_str()) && !keepalive {
            return None;
        }
        let party = match psize {
            Some(n) => Some(if n < 5 { n } else { 5 }),
            None => None,
        };
        Some(Status { details, state, large_image, large_text, rank, party, start: self.start, key })
    }

    /// How sending went: a sent status becomes the last one; a failed send
    /// means the connection dropped, so the next update reconnects and
    /// sends again.
    pub fn on_sent(&mut self, key: String, ok: bool)
        ensures
            final(self).app_id == old(self).app_id,
            final(self).start == old(self).start,
            final(self).ticks == old(self).ticks,
            ok ==> final(self).last_key == key && final(self).connected == old(self).connected,
            !ok ==> final(self).last_key@.len() == 0 && !final(self).connected,
            final(self)@ == sent_spec(old(self)@, key@, ok),
    {
        if ok {
            self.last_key = key;
        } else {
            self.connected = false;
            self.last_key = String::new();
        }
    }
}

/// What one update asks of the Discord client: to connect, to clear the
/// activity because presence was turned off, and to send a status (which
/// sets the activity, or clears it when the status has no details).
pub struct RpcCalls {
    pub connect: bool,
    pub clear: bool,
    pub send: bool,
}

pub open spec fn no_calls() -> RpcCalls {
    RpcCalls { connect: false, clear: false, send: false }
}

/// Building and, when due, sending the status on a live connection.
pub open spec fn send_part(v: RpcView, mv: MatchViewV, send_ok: bool, connected_now: bool) -> (
    RpcView,
    RpcCalls,
) {
    let (go, w) = prepare_spec(v, mv);
    if go {
        (
            sent_spec(w, status_key_spec(mv), send_ok),
            RpcCalls { connect: connected_now, clear: false, send: true },
        )
    } else {
        (w, RpcCalls { connect: connected_now, clear: false, send: false })
    }
}

/// One whole update as the caller runs the steps: `begin`; on `ClearOff`,
/// connect when there is no connection and clear when connected; on
/// `Connect`, connect and, when that worked, go on as on `Ready`; on
/// `Ready`, `prepare` and, when a status comes, send it and report with
/// `on_sent`. `connect_ok` and `send_ok` are how the client calls went.
pub open spec fn update_spec(
    v: RpcView,
    mv: MatchViewV,
    enabled: bool,
    connect_ok: bool,
    send_ok: bool,
) -> (RpcView, RpcCalls) {
    let (b, v1) = begin_spec(v, enabled);
    match b {
        Begin::ClearOff => if v1.connected {
            (v1, RpcCalls { connect: false, clear: true, send: false })
        } else {
            (
                connect_spec(v1, connect_ok, false),
                RpcCalls { connect: true, clear: connect_ok, send: false },
            )
        },
        Begin::Connect => {
            let v2 = connect_spec(v1, connect_ok, true);
            if connect_ok {
                send_part(v2, mv, send_ok, true)
            } else {
                (v2, RpcCalls { connect: true, clear: false, send: false })
            }
        },
        Begin::Ready => send_part(v1, mv, send_ok, false),
        _ => (v1, no_calls()),
    }
}

/// A status key is never empty, so it never matches a forgotten one.
pub proof fn lemma_status_key_not_empty(mv: MatchViewV)
    ensures
        status_key_spec(mv).len() > 0,
{
    reveal_strlit("|");
}

/// The whole update. Without an application id nothing happens. Turned off,
/// presence is cleared once: the activity is cleared (connecting first when
/// needed) and no status is sent; once off, further updates do nothing.
/// Turned on, nothing is cleared; a status is sent whenever its key differs
/// from the last one sent, on every fresh connection, and as a keep-alive
/// every tenth update, and not otherwise; a sent status becomes the last
/// one, and a failed send drops the connection and forgets it.
pub proof fn law_update(v: RpcView, mv: MatchViewV, enabled: bool, connect_ok: bool, send_ok: bool)
    ensures
        ({
            let (w, c) = update_spec(v, mv, enabled, connect_ok, send_ok);
            let key = status_key_spec(mv);
            let live = v.connected || connect_ok;
            let keepalive = next_tick(v.ticks) % KEEPALIVE_EVERY == 0;
            &&& v.app_id.len() == 0 ==> w == v && c == no_calls()
            &&& v.app_id.len() > 0 && !enabled && v.last_key != off_key() ==> {
                &&& w.last_key == off_key()
                &&& w.ticks == v.ticks
                &&& c == (RpcCalls { connect: !v.connected, clear: live, send: false })
            }
            &&& v.app_id.len() > 0 && !enabled && v.last_key == off_key() ==> w == v && c
                == no_calls()
            &&& v.app_id.len() > 0 && enabled ==> {
                &&& !c.clear
                &&& c.connect == !v.connected
                &&& c.send == (live && (!v.connected || key != v.last_key || keepalive))
                &&& !live ==> w == v
                &&& live && !c.send ==> w == RpcView { ticks: next_tick(v.ticks), ..v }
                &&& c.send && send_ok ==> w == RpcView {
                    ticks: next_tick(v.ticks),
                    last_key: key,
                    connected: true,
                    ..v
                }
                &&& c.send && !send_ok ==> w == RpcView {
                    ticks: next_tick(v.ticks),
                    last_key: Seq::empty(),
                    connected: false,
                    ..v
                }
            }
        }),
{
    lemma_status_key_not_empty(mv);
}

/// Turned off, presence is cleared once, not on every update: after one
/// update with presence off, the next one does nothing.
pub proof fn law_cleared_once(
    v: RpcView,
    mv1: MatchViewV,
    mv2: MatchViewV,
    ok1: bool,
    sent1: bool,
    ok2: bool,
    sent2: bool,
)
    requires
        v.app_id.len() > 0,
    ensures
        ({
            let w = update_spec(v, mv1, false, ok1, sent1).0;
            update_spec(w, mv2, false, ok2, sent2) == (w, no_calls())
        }),
{
}

} // verus!
