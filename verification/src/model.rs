//! What the UI shows: the match state, one row per player, the recent
//! matches, and the whole view that is pushed to the window.
use vstd::prelude::*;

verus! {

#[derive(PartialEq, Eq, Structural, Clone, Copy, Debug)]
pub enum MatchState {
    NoGame,
    Menu,
    PreGame,
    CoreGame,
}

/// One player's line in the roster.
pub struct PlayerRow {
    pub puuid: String,
    pub name: String,
    pub player_card: String,
    pub agent: String,
    pub agent_icon: String,
    pub team: String,
    pub party_id: String,
    pub hidden_name: bool,
    pub rank_tier: u32,
    pub rank_name: String,
    pub rank_icon: String,
    pub rr: u32,
    pub peak_rank_name: String,
    pub peak_rank_tier: u32,
    pub peak_rank_icon: String,
    pub peak_act: String,
    pub win_rate: u32,
    pub wins: u32,
    pub games: u32,
    pub leaderboard: u32,
    pub account_level: u32,
    pub last_kills: u32,
    pub last_deaths: u32,
    pub last_hs: u32,
    pub last_acs: u32,
    pub last_adr: u32,
    pub last_kast: u32,
    pub last_assists: u32,
    pub has_combat: bool,
    pub streak: i32,
    pub rr_trend: i32,
    pub recent_wins: u32,
    pub recent_losses: u32,
    pub smurf_score: u32,
    pub party_size: u32,
    pub encounters: u32,
    pub encounter_wins: u32,
    pub encounter_losses: u32,
    pub locked: bool,
    pub premium_skins: bool,
    pub vandal_skin: String,
    pub vandal_image: String,
    pub vandal_tier_color: String,
}

/// A roster line as values.
pub struct RowView {
    pub puuid: Seq<char>,
    pub name: Seq<char>,
    pub player_card: Seq<char>,
    pub agent: Seq<char>,
    pub agent_icon: Seq<char>,
    pub team: Seq<char>,
    pub party_id: Seq<char>,
    pub hidden_name: bool,
    pub rank_tier: u32,
    pub rank_name: Seq<char>,
    pub rank_icon: Seq<char>,
    pub rr: u32,
    pub peak_rank_name: Seq<char>,
    pub peak_rank_tier: u32,
    pub peak_rank_icon: Seq<char>,
    pub peak_act: Seq<char>,
    pub win_rate: u32,
    pub wins: u32,
    pub games: u32,
    pub leaderboard: u32,
    pub account_level: u32,
    pub last_kills: u32,
    pub last_deaths: u32,
    pub last_hs: u32,
    pub last_acs: u32,
    pub last_adr: u32,
    pub last_kast: u32,
    pub last_assists: u32,
    pub has_combat: bool,
    pub streak: i32,
    pub rr_trend: i32,
    pub recent_wins: u32,
    pub recent_losses: u32,
    pub smurf_score: u32,
    pub party_size: u32,
    pub encounters: u32,
    pub encounter_wins: u32,
    pub encounter_losses: u32,
    pub locked: bool,
    pub premium_skins: bool,
    pub vandal_skin: Seq<char>,
    pub vandal_image: Seq<char>,
    pub vandal_tier_color: Seq<char>,
}

impl View for PlayerRow {
    type V = RowView;

    open spec fn view(&self) -> RowView {
        RowView {
            puuid: self.puuid@,
            name: self.name@,
            player_card: self.player_card@,
            agent: self.agent@,
            agent_icon: self.agent_icon@,
            team: self.team@,
            party_id: self.party_id@,
            hidden_name: self.hidden_name,
            rank_tier: self.rank_tier,
            rank_name: self.rank_name@,
            rank_icon: self.rank_icon@,
            rr: self.rr,
            peak_rank_name: self.peak_rank_name@,
            peak_rank_tier: self.peak_rank_tier,
            peak_rank_icon: self.peak_rank_icon@,
            peak_act: self.peak_act@,
            win_rate: self.win_rate,
            wins: self.wins,
            games: self.games,
            leaderboard: self.leaderboard,
            account_level: self.account_level,
            last_kills: self.last_kills,
            last_deaths: self.last_deaths,
            last_hs: self.last_hs,
            last_acs: self.last_acs,
            last_adr: self.last_adr,
            last_kast: self.last_kast,
            last_assists: self.last_assists,
            has_combat: self.has_combat,
            streak: self.streak,
            rr_trend: self.rr_trend,
            recent_wins: self.recent_wins,
            recent_losses: self.recent_losses,
            smurf_score: self.smurf_score,
            party_size: self.party_size,
            encounters: self.encounters,
            encounter_wins: self.encounter_wins,
            encounter_losses: self.encounter_losses,
            locked: self.locked,
            premium_skins: self.premium_skins,
            vandal_skin: self.vandal_skin@,
            vandal_image: self.vandal_image@,
            vandal_tier_color: self.vandal_tier_color@,
        }
    }
}

/// A row that knows only the player's id: empty texts, zero numbers, false flags.
pub open spec fn blank_row(puuid: Seq<char>) -> RowView {
    RowView {
        puuid,
        name: Seq::empty(),
        player_card: Seq::empty(),
        agent: Seq::empty(),
        agent_icon: Seq::empty(),
        team: Seq::empty(),
        party_id: Seq::empty(),
        hidden_name: false,
        rank_tier: 0,
        rank_name: Seq::empty(),
        rank_icon: Seq::empty(),
        rr: 0,
        peak_rank_name: Seq::empty(),
        peak_rank_tier: 0,
        peak_rank_icon: Seq::empty(),
        peak_act: Seq::empty(),
        win_rate: 0,
        wins: 0,
        games: 0,
        leaderboard: 0,
        account_level: 0,
        last_kills: 0,
        last_deaths: 0,
        last_hs: 0,
        last_acs: 0,
        last_adr: 0,
        last_kast: 0,
        last_assists: 0,
        has_combat: false,
        streak: 0,
        rr_trend: 0,
        recent_wins: 0,
        recent_losses: 0,
        smurf_score: 0,
        party_size: 0,
        encounters: 0,
        encounter_wins: 0,
        encounter_losses: 0,
        locked: false,
        premium_skins: false,
        vandal_skin: Seq::empty(),
        vandal_image: Seq::empty(),
        vandal_tier_color: Seq::empty(),
    }
}

impl PlayerRow {
    /// A row that knows only the player's id.
    pub fn blank(puuid: String) -> (r: PlayerRow)
        ensures
            r@ == blank_row(puuid@),
    {
        PlayerRow {
            puuid,
            name: String::new(),
            player_card: String::new(),
            agent: String::new(),
            agent_icon: String::new(),
            team: String::new(),
            party_id: String::new(),
            hidden_name: false,
            rank_tier: 0,
            rank_name: String::new(),
            rank_icon: String::new(),
            rr: 0,
            peak_rank_name: String::new(),
            peak_rank_tier: 0,
            peak_rank_icon: String::new(),
            peak_act: String::new(),
            win_rate: 0,
            wins: 0,
            games: 0,
            leaderboard: 0,
            account_level: 0,
            last_kills: 0,
            last_deaths: 0,
            last_hs: 0,
            last_acs: 0,
            last_adr: 0,
            last_kast: 0,
            last_assists: 0,
            has_combat: false,
            streak: 0,
            rr_trend: 0,
            recent_wins: 0,
            recent_losses: 0,
            smurf_score: 0,
            party_size: 0,
            encounters: 0,
            encounter_wins: 0,
            encounter_losses: 0,
            locked: false,
            premium_skins: false,
            vandal_skin: String::new(),
            vandal_image: String::new(),
            vandal_tier_color: String::new(),
        }
    }

    /// An equal copy.
    pub fn copy_row(&self) -> (r: PlayerRow)
        ensures
            r == *self,
    {
        PlayerRow {
            puuid: self.puuid.clone(),
            name: self.name.clone(),
            player_card: self.player_card.clone(),
            agent: self.agent.clone(),
            agent_icon: self.agent_icon.clone(),
            team: self.team.clone(),
            party_id: self.party_id.clone(),
            hidden_name: self.hidden_name,
            rank_tier: self.rank_tier,
            rank_name: self.rank_name.clone(),
            rank_icon: self.rank_icon.clone(),
            rr: self.rr,
            peak_rank_name: self.peak_rank_name.clone(),
            peak_rank_tier: self.peak_rank_tier,
            peak_rank_icon: self.peak_rank_icon.clone(),
            peak_act: self.peak_act.clone(),
            win_rate: self.win_rate,
            wins: self.wins,
            games: self.games,
            leaderboard: self.leaderboard,
            account_level: self.account_level,
            last_kills: self.last_kills,
            last_deaths: self.last_deaths,
            last_hs: self.last_hs,
            last_acs: self.last_acs,
            last_adr: self.last_adr,
            last_kast: self.last_kast,
            last_assists: self.last_assists,
            has_combat: self.has_combat,
            streak: self.streak,
            rr_trend: self.rr_trend,
            recent_wins: self.recent_wins,
            recent_losses: self.recent_losses,
            smurf_score: self.smurf_score,
            party_size: self.party_size,
            encounters: self.encounters,
            encounter_wins: self.encounter_wins,
            encounter_losses: self.encounter_losses,
            locked: self.locked,
            premium_skins: self.premium_skins,
            vandal_skin: self.vandal_skin.clone(),
            vandal_image: self.vandal_image.clone(),
            vandal_tier_color: self.vandal_tier_color.clone(),
        }
    }
}

/// One player's line in a match scoreboard.
pub struct ScoreEntry {
    pub name: String,
    pub agent_icon: String,
    pub kills: u32,
    pub deaths: u32,
    pub assists: u32,
    pub acs: u32,
    pub hs: u32,
    pub ally: bool,
    pub is_self: bool,
}

pub struct ScoreView {
    pub name: Seq<char>,
    pub agent_icon: Seq<char>,
    pub kills: u32,
    pub deaths: u32,
    pub assists: u32,
    pub acs: u32,
    pub hs: u32,
    pub ally: bool,
    pub is_self: bool,
}

impl View for ScoreEntry {
    type V = ScoreView;

    open spec fn view(&self) -> ScoreView {
        ScoreView {
            name: self.name@,
            agent_icon: self.agent_icon@,
            kills: self.kills,
            deaths: self.deaths,
            assists: self.assists,
            acs: self.acs,
            hs: self.hs,
            ally: self.ally,
            is_self: self.is_self,
        }
    }
}

impl ScoreEntry {
    pub fn copy_entry(&self) -> (r: ScoreEntry)
        ensures
            r == *self,
    {
        ScoreEntry {
            name: self.name.clone(),
            agent_icon: self.agent_icon.clone(),
            kills: self.kills,
            deaths: self.deaths,
            assists: self.assists,
            acs: self.acs,
            hs: self.hs,
            ally: self.ally,
            is_self: self.is_self,
        }
    }
}

/// The views of a list of scoreboard lines.
pub open spec fn score_views(v: Seq<ScoreEntry>) -> Seq<ScoreView> {
    v.map_values(|e: ScoreEntry| e@)
}

pub fn copy_scoreboard(v: &Vec<ScoreEntry>) -> (r: Vec<ScoreEntry>)
    ensures
        r@ == v@,
{
    let mut out: Vec<ScoreEntry> = Vec::new();
    let mut i: usize = 0;
    while i < v.len()
        invariant
            i <= v@.len(),
            out@ == v@.take(i as int),
        decreases v@.len() - i,
    {
        out.push(v[i].copy_entry());
        proof {
            assert(out@ =~= v@.take(i as int + 1));
        }
        i += 1;
    }
    proof {
        assert(v@.take(i as int) =~= v@);
    }
    out
}

/// One recent match in the player's own history.
pub struct HistoryEntry {
    pub map: String,
    pub map_image: String,
    pub rr_change: i32,
    pub tier: u32,
    pub rank_name: String,
    pub ranked: bool,
    pub agent_icon: String,
    pub agent_name: String,
    pub kills: u32,
    pub deaths: u32,
    pub assists: u32,
    pub acs: u32,
    pub adr: u32,
    pub kast: u32,
    pub hs: u32,
    pub self_rounds: u32,
    pub enemy_rounds: u32,
    pub won: bool,
    pub has_stats: bool,
    pub scoreboard: Vec<ScoreEntry>,
}

pub struct HistoryView {
    pub map: Seq<char>,
    pub map_image: Seq<char>,
    pub rr_change: i32,
    pub tier: u32,
    pub rank_name: Seq<char>,
    pub ranked: bool,
    pub agent_icon: Seq<char>,
    pub agent_name: Seq<char>,
    pub kills: u32,
    pub deaths: u32,
    pub assists: u32,
    pub acs: u32,
    pub adr: u32,
    pub kast: u32,
    pub hs: u32,
    pub self_rounds: u32,
    pub enemy_rounds: u32,
    pub won: bool,
    pub has_stats: bool,
    pub scoreboard: Seq<ScoreView>,
}

impl View for HistoryEntry {
    type V = HistoryView;

    open spec fn view(&self) -> HistoryView {
        HistoryView {
            map: self.map@,
            map_image: self.map_image@,
            rr_change: self.rr_change,
            tier: self.tier,
            rank_name: self.rank_name@,
            ranked: self.ranked,
            agent_icon: self.agent_icon@,
            agent_name: self.agent_name@,
            kills: self.kills,
            deaths: self.deaths,
            assists: self.assists,
            acs: self.acs,
            adr: self.adr,
            kast: self.kast,
            hs: self.hs,
            self_rounds: self.self_rounds,
            enemy_rounds: self.enemy_rounds,
            won: self.won,
            has_stats: self.has_stats,
            scoreboard: score_views(self.scoreboard@),
        }
    }
}

/// A history line that knows nothing yet.
pub open spec fn blank_history() -> HistoryView {
    HistoryView {
        map: Seq::empty(),
        map_image: Seq::empty(),
        rr_change: 0,
        tier: 0,
        rank_name: Seq::empty(),
        ranked: false,
        agent_icon: Seq::empty(),
        agent_name: Seq::empty(),
        kills: 0,
        deaths: 0,
        assists: 0,
        acs: 0,
        adr: 0,
        kast: 0,
        hs: 0,
        self_rounds: 0,
        enemy_rounds: 0,
        won: false,
        has_stats: false,
        scoreboard: Seq::empty(),
    }
}

impl HistoryEntry {
    pub fn blank() -> (r: HistoryEntry)
        ensures
            r@ == blank_history(),
    {
        let r = HistoryEntry {
            map: String::new(),
            map_image: String::new(),
            rr_change: 0,
            tier: 0,
            rank_name: String::new(),
            ranked: false,
            agent_icon: String::new(),
            agent_name: String::new(),
            kills: 0,
            deaths: 0,
            assists: 0,
            acs: 0,
            adr: 0,
            kast: 0,
            hs: 0,
            self_rounds: 0,
            enemy_rounds: 0,
            won: false,
            has_stats: false,
            scoreboard: Vec::new(),
        };
        proof {
            assert(score_views(r.scoreboard@) =~= Seq::<ScoreView>::empty());
        }
        r
    }

    pub fn copy_history(&self) -> (r: HistoryEntry)
        ensures
            r@ == self@,
    {
        HistoryEntry {
            map: self.map.clone(),
            map_image: self.map_image.clone(),
            rr_change: self.rr_change,
            tier: self.tier,
            rank_name: self.rank_name.clone(),
            ranked: self.ranked,
            agent_icon: self.agent_icon.clone(),
            agent_name: self.agent_name.clone(),
            kills: self.kills,
            deaths: self.deaths,
            assists: self.assists,
            acs: self.acs,
            adr: self.adr,
            kast: self.kast,
            hs: self.hs,
            self_rounds: self.self_rounds,
            enemy_rounds: self.enemy_rounds,
            won: self.won,
            has_stats: self.has_stats,
            scoreboard: copy_scoreboard(&self.scoreboard),
        }
    }
}

/// Everything the window shows.
pub struct MatchView {
    pub state: MatchState,
    pub mode: String,
    pub activity: String,
    pub players: Vec<PlayerRow>,
    pub me: Option<PlayerRow>,
    pub history: Vec<HistoryEntry>,
    pub stale: bool,
    pub phase_time: u32,
    pub map: String,
    pub map_image: String,
    pub ally_score: u32,
    pub enemy_score: u32,
    pub combat_loading: bool,
}

/// Everything the window shows, as values.
pub struct MatchViewV {
    pub state: MatchState,
    pub mode: Seq<char>,
    pub activity: Seq<char>,
    pub players: Seq<RowView>,
    pub me: Option<RowView>,
    pub history: Seq<HistoryView>,
    pub stale: bool,
    pub phase_time: u32,
    pub map: Seq<char>,
    pub map_image: Seq<char>,
    pub ally_score: u32,
    pub enemy_score: u32,
    pub combat_loading: bool,
}

pub open spec fn row_views(v: Seq<PlayerRow>) -> Seq<RowView> {
    v.map_values(|r: PlayerRow| r@)
}

pub open spec fn history_views(v: Seq<HistoryEntry>) -> Seq<HistoryView> {
    v.map_values(|h: HistoryEntry| h@)
}

pub open spec fn opt_row_view(o: Option<PlayerRow>) -> Option<RowView> {
    match o {
        Some(r) => Some(r@),
        None => None,
    }
}

impl View for MatchView {
    type V = MatchViewV;

    open spec fn view(&self) -> MatchViewV {
        MatchViewV {
            state: self.state,
            mode: self.mode@,
            activity: self.activity@,
            players: row_views(self.players@),
            me: opt_row_view(self.me),
            history: history_views(self.history@),
            stale: self.stale,
            phase_time: self.phase_time,
            map: self.map@,
            map_image: self.map_image@,
            ally_score: self.ally_score,
            enemy_score: self.enemy_score,
            combat_loading: self.combat_loading,
        }
    }
}

pub fn copy_rows(v: &Vec<PlayerRow>) -> (r: Vec<PlayerRow>)
    ensures
        r@ == v@,
{
    let mut out: Vec<PlayerRow> = Vec::new();
    let mut i: usize = 0;
    while i < v.len()
        invariant
            i <= v@.len(),
            out@ == v@.take(i as int),
        decreases v@.len() - i,
    {
        out.push(v[i].copy_row());
        proof {
            assert(out@ =~= v@.take(i as int + 1));
        }
        i += 1;
    }
    proof {
        assert(v@.take(i as int) =~= v@);
    }
    out
}

pub fn copy_history_list(v: &Vec<HistoryEntry>) -> (r: Vec<HistoryEntry>)
    ensures
        history_views(r@) == history_views(v@),
{
    let mut out: Vec<HistoryEntry> = Vec::new();
    let mut i: usize = 0;
    while i < v.len()
        invariant
            i <= v@.len(),
            history_views(out@) == history_views(v@.take(i as int)),
        decreases v@.len() - i,
    {
        let ghost before = out@;
        let h = v[i].copy_history();
        out.push(h);
        proof {
            assert(out@ == before.push(h));
            assert(history_views(out@) =~= history_views(before).push(h@));
            assert(history_views(v@.take(i as int + 1)) =~= history_views(v@.take(i as int)).push(
                v@[i as int]@,
            ));
        }
        i += 1;
    }
    proof {
        assert(v@.take(i as int) =~= v@);
    }
    out
}

impl MatchView {
    pub fn copy_view(&self) -> (r: MatchView)
        ensures
            r@ == self@,
    {
        MatchView {
            state: self.state,
            mode: self.mode.clone(),
            activity: self.activity.clone(),
            players: copy_rows(&self.players),
            me: match &self.me {
                Some(m) => Some(m.copy_row()),
                None => None,
            },
            history: copy_history_list(&self.history),
            stale: self.stale,
            phase_time: self.phase_time,
            map: self.map.clone(),
            map_image: self.map_image.clone(),
            ally_score: self.ally_score,
            enemy_score: self.enemy_score,
            combat_loading: self.combat_loading,
        }
    }
}

} // verus!
