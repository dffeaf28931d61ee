//! Static game data from valorant-api.com: rank tiers, agents, maps, player
//! cards, seasons, weapon skins and content tiers, read into lookup tables.
use vstd::prelude::*;
use crate::json::Json;
use crate::assoc::{
    as_map, get_text, get_text_n, insert, insert_text, insert_text_n, lookup, text_map,
    text_map_n,
};
use crate::text::{
    all_digits, chars_of, contains, contains_text, decimal, last_word, last_word_of, lower_text,
    parse_u32, parse_u32_spec, push_decimal, push_text, text_eq, to_lower, to_upper, trim_of,
    trim_spec, upper_text,
};

verus! {

/// A weapon skin: its name, its art, and its content-tier uuid.
pub struct SkinInfo {
    pub name: String,
    pub image: String,
    pub tier_uuid: String,
}

pub struct SkinView {
    pub name: Seq<char>,
    pub image: Seq<char>,
    pub tier_uuid: Seq<char>,
}

impl View for SkinInfo {
    type V = SkinView;

    open spec fn view(&self) -> SkinView {
        SkinView { name: self.name@, image: self.image@, tier_uuid: self.tier_uuid@ }
    }
}

impl SkinInfo {
    /// An equal copy.
    pub fn copy_info(&self) -> (r: SkinInfo)
        ensures
            r == *self,
    {
        SkinInfo { name: self.name.clone(), image: self.image.clone(), tier_uuid: self.tier_uuid.clone() }
    }
}

/// The text a table maps `k` to, or the empty text.
pub open spec fn text_or_empty_in<K>(m: Map<K, Seq<char>>, k: K) -> Seq<char> {
    if m.contains_key(k) {
        m[k]
    } else {
        Seq::empty()
    }
}

/// The lookup tables that the roster and history screens resolve ids with.
pub struct StaticData {
    pub tiers: Vec<(u32, String)>,
    pub tier_icons: Vec<(u32, String)>,
    pub agents: Vec<(String, String)>,
    pub agent_icons: Vec<(String, String)>,
    pub maps: Vec<(String, String)>,
    pub map_images: Vec<(String, String)>,
    pub card_arts: Vec<(String, String)>,
    pub season_labels: Vec<(String, String)>,
    /// Skin uuid, level uuid, or chroma uuid to skin name, art, content-tier uuid.
    pub skins: Vec<(String, SkinInfo)>,
    /// Content-tier uuid to CSS hex accent color.
    pub tier_colors: Vec<(String, String)>,
}

impl StaticData {
    /// Tables with no entries.
    pub fn empty() -> (s: StaticData)
        ensures
            s.tiers@.len() == 0 && s.tier_icons@.len() == 0 && s.agents@.len() == 0
                && s.agent_icons@.len() == 0 && s.maps@.len() == 0 && s.map_images@.len() == 0
                && s.card_arts@.len() == 0 && s.season_labels@.len() == 0 && s.skins@.len() == 0
                && s.tier_colors@.len() == 0,
    {
        StaticData {
            tiers: Vec::new(),
            tier_icons: Vec::new(),
            agents: Vec::new(),
            agent_icons: Vec::new(),
            maps: Vec::new(),
            map_images: Vec::new(),
            card_arts: Vec::new(),
            season_labels: Vec::new(),
            skins: Vec::new(),
            tier_colors: Vec::new(),
        }
    }

    pub open spec fn rank_name_spec(&self, tier: u32) -> Seq<char> {
        if text_map_n(self.tiers@).contains_key(tier) {
            text_map_n(self.tiers@)[tier]
        } else {
            "Unranked"@
        }
    }

    /// The name of a rank tier, "Unranked" for an unknown tier.
    pub fn rank_name(&self, tier: u32) -> (r: String)
        ensures
            r@ == self.rank_name_spec(tier),
    {
        match get_text_n(&self.tiers, tier) {
            Some(n) => n,
            None => "Unranked".to_owned(),
        }
    }

    pub open spec fn rank_icon_spec(&self, tier: u32) -> Seq<char> {
        text_or_empty_in(text_map_n(self.tier_icons@), tier)
    }

    pub fn rank_icon(&self, tier: u32) -> (r: String)
        ensures
            r@ == self.rank_icon_spec(tier),
    {
        match get_text_n(&self.tier_icons, tier) {
            Some(n) => n,
            None => String::new(),
        }
    }

    /// Riot reports character ids in mixed case while the tables are keyed
    /// lowercase, so the id is lowercased before the lookup.
    pub open spec fn agent_name_spec(&self, id: Seq<char>) -> Seq<char> {
        text_or_empty_in(text_map(self.agents@), lower_text(id))
    }

    pub fn agent_name(&self, id: &str) -> (r: String)
        ensures
            r@ == self.agent_name_spec(id@),
    {
        let key = to_lower(id);
        text_or_empty(&self.agents, key.as_str())
    }

    pub open spec fn agent_icon_spec(&self, id: Seq<char>) -> Seq<char> {
        text_or_empty_in(text_map(self.agent_icons@), lower_text(id))
    }

    pub fn agent_icon(&self, id: &str) -> (r: String)
        ensures
            r@ == self.agent_icon_spec(id@),
    {
        let key = to_lower(id);
        text_or_empty(&self.agent_icons, key.as_str())
    }

    pub open spec fn map_name_spec(&self, map_url: Seq<char>) -> Seq<char> {
        text_or_empty_in(text_map(self.maps@), map_url)
    }

    pub fn map_name(&self, map_url: &str) -> (r: String)
        ensures
            r@ == self.map_name_spec(map_url@),
    {
        text_or_empty(&self.maps, map_url)
    }

    pub open spec fn map_image_spec(&self, map_url: Seq<char>) -> Seq<char> {
        text_or_empty_in(text_map(self.map_images@), map_url)
    }

    pub fn map_image(&self, map_url: &str) -> (r: String)
        ensures
            r@ == self.map_image_spec(map_url@),
    {
        text_or_empty(&self.map_images, map_url)
    }

    pub open spec fn skins_view(&self) -> Map<Seq<char>, SkinView> {
        as_map(self.skins@).map_values(|i: SkinInfo| i@)
    }

    /// The skin behind a skin, level or chroma id, looked up lowercase.
    pub fn skin_info(&self, skin_id: &str) -> (r: Option<&SkinInfo>)
        ensures
            match r {
                Some(i) => self.skins_view().contains_key(lower_text(skin_id@))
                    && self.skins_view()[lower_text(skin_id@)] == i@,
                None => !self.skins_view().contains_key(lower_text(skin_id@)),
            },
    {
        let key = to_lower(skin_id);
        lookup(&self.skins, key.as_str())
    }

    pub open spec fn tier_color_spec(&self, tier_uuid: Seq<char>) -> Seq<char> {
        text_or_empty_in(text_map(self.tier_colors@), tier_uuid)
    }

    pub fn tier_color(&self, tier_uuid: &str) -> (r: String)
        ensures
            r@ == self.tier_color_spec(tier_uuid@),
    {
        text_or_empty(&self.tier_colors, tier_uuid)
    }

    pub open spec fn card_art_spec(&self, id: Seq<char>) -> Seq<char> {
        text_or_empty_in(text_map(self.card_arts@), lower_text(id))
    }

    pub fn card_art(&self, id: &str) -> (r: String)
        ensures
            r@ == self.card_art_spec(id@),
    {
        let key = to_lower(id);
        text_or_empty(&self.card_arts, key.as_str())
    }

    pub open spec fn season_label_spec(&self, uuid: Seq<char>) -> Seq<char> {
        text_or_empty_in(text_map(self.season_labels@), uuid)
    }

    pub fn season_label(&self, uuid: &str) -> (r: String)
        ensures
            r@ == self.season_label_spec(uuid@),
    {
        text_or_empty(&self.season_labels, uuid)
    }
}

fn text_or_empty(m: &Vec<(String, String)>, k: &str) -> (r: String)
    ensures
        r@ == text_or_empty_in(text_map(m@), k@),
{
    match get_text(m, k) {
        Some(v) => v,
        None => String::new(),
    }
}

/// The array under "data", or no entries.
pub open spec fn data_entries(json: Json) -> Seq<Json> {
    match json.field_arr("data"@) {
        Some(a) => a,
        None => Seq::empty(),
    }
}

/// The table from text `key` to text `val` over the entries that have both,
/// a later entry replacing an earlier one with the same key.
pub open spec fn pairs_map(entries: Seq<Json>, key: Seq<char>, val: Seq<char>) -> Map<Seq<char>, Seq<char>>
    decreases entries.len(),
{
    if entries.len() == 0 {
        Map::empty()
    } else {
        let prev = pairs_map(entries.drop_last(), key, val);
        let e = entries.last();
        match (e.field_str(key), e.field_str(val)) {
            (Some(k), Some(v)) => prev.insert(k, v),
            _ => prev,
        }
    }
}

/// Reads a key/value table out of the "data" array of a valorant-api response.
pub fn parse_pairs(json: &Json, key: &str, val: &str) -> (r: Vec<(String, String)>)
    ensures
        text_map(r@) == pairs_map(data_entries(*json), key@, val@),
{
    let mut out: Vec<(String, String)> = Vec::new();
    proof {
        assert(text_map(out@) =~= Map::<Seq<char>, Seq<char>>::empty());
    }
    let entries = match json.get_array("data") {
        Some(a) => a,
        None => return out,
    };
    let ghost es = data_entries(*json);
    proof {
        assert(es.take(0) =~= Seq::<Json>::empty());
    }
    let mut i: usize = 0;
    while i < entries.len()
        invariant
            i <= entries@.len(),
            entries@ == es,
            text_map(out@) == pairs_map(es.take(i as int), key@, val@),
        decreases entries@.len() - i,
    {
        let e: &Json = &entries[i];
        proof {
            assert(es.take(i as int + 1).drop_last() =~= es.take(i as int));
            assert(es.take(i as int + 1).last() == *e);
        }
        match (e.get_str(key), e.get_str(val)) {
            (Some(k), Some(v)) => {
                insert_text(&mut out, k.to_owned(), v.to_owned());
            },
            _ => {},
        }
        i += 1;
    }
    proof {
        assert(es.take(entries@.len() as int) =~= es);
    }
    out
}

pub fn parse_agents(json: &Json) -> (r: Vec<(String, String)>)
    ensures
        text_map(r@) == pairs_map(data_entries(*json), "uuid"@, "displayName"@),
{
    parse_pairs(json, "uuid", "displayName")
}

pub fn parse_agent_icons(json: &Json) -> (r: Vec<(String, String)>)
    ensures
        text_map(r@) == pairs_map(data_entries(*json), "uuid"@, "displayIcon"@),
{
    parse_pairs(json, "uuid", "displayIcon")
}

pub fn parse_maps(json: &Json) -> (r: Vec<(String, String)>)
    ensures
        text_map(r@) == pairs_map(data_entries(*json), "mapUrl"@, "displayName"@),
{
    parse_pairs(json, "mapUrl", "displayName")
}

pub fn parse_map_images(json: &Json) -> (r: Vec<(String, String)>)
    ensures
        text_map(r@) == pairs_map(data_entries(*json), "mapUrl"@, "listViewIcon"@),
{
    parse_pairs(json, "mapUrl", "listViewIcon")
}

pub fn parse_player_cards(json: &Json) -> (r: Vec<(String, String)>)
    ensures
        text_map(r@) == pairs_map(data_entries(*json), "uuid"@, "wideArt"@),
{
    parse_pairs(json, "uuid", "wideArt")
}

/// The tiers of the current (last) episode. Older episodes use the
/// pre-Ascendant numbering, so only the last one maps tier numbers right.
pub open spec fn current_tiers(json: Json) -> Seq<Json> {
    match json.field_arr("data"@) {
        Some(a) => if a.len() > 0 {
            match a.last().field_arr("tiers"@) {
                Some(t) => t,
                None => Seq::empty(),
            }
        } else {
            Seq::empty()
        },
        None => Seq::empty(),
    }
}

/// The table from tier number (truncated to 32 bits) to the text `val`.
pub open spec fn tier_map(entries: Seq<Json>, val: Seq<char>) -> Map<u32, Seq<char>>
    decreases entries.len(),
{
    if entries.len() == 0 {
        Map::empty()
    } else {
        let prev = tier_map(entries.drop_last(), val);
        let e = entries.last();
        match (e.field_u64("tier"@), e.field_str(val)) {
            (Some(n), Some(v)) => prev.insert(n as u32, v),
            _ => prev,
        }
    }
}

fn tier_table(json: &Json, val: &str) -> (r: Vec<(u32, String)>)
    ensures
        text_map_n(r@) == tier_map(current_tiers(*json), val@),
{
    let mut out: Vec<(u32, String)> = Vec::new();
    proof {
        assert(text_map_n(out@) =~= Map::<u32, Seq<char>>::empty());
    }
    let data = match json.get_array("data") {
        Some(a) => a,
        None => return out,
    };
    if data.len() == 0 {
        return out;
    }
    let tiers = match data[data.len() - 1].get_array("tiers") {
        Some(t) => t,
        None => return out,
    };
    let ghost es = current_tiers(*json);
    proof {
        assert(es == tiers@);
        assert(es.take(0) =~= Seq::<Json>::empty());
    }
    let mut i: usize = 0;
    while i < tiers.len()
        invariant
            i <= tiers@.len(),
            es == tiers@,
            text_map_n(out@) == tier_map(es.take(i as int), val@),
        decreases tiers@.len() - i,
    {
        let e = &tiers[i];
        proof {
            assert(es.take(i as int + 1).drop_last() =~= es.take(i as int));
            assert(es.take(i as int + 1).last() == *e);
        }
        match (e.get_u64("tier"), e.get_str(val)) {
            (Some(n), Some(v)) => {
                insert_text_n(&mut out, n as u32, v.to_owned());
            },
            _ => {},
        }
        i += 1;
    }
    proof {
        assert(es.take(tiers@.len() as int) =~= es);
    }
    out
}

pub fn parse_tiers(json: &Json) -> (r: Vec<(u32, String)>)
    ensures
        text_map_n(r@) == tier_map(current_tiers(*json), "tierName"@),
{
    tier_table(json, "tierName")
}

pub fn parse_tier_icons(json: &Json) -> (r: Vec<(u32, String)>)
    ensures
        text_map_n(r@) == tier_map(current_tiers(*json), "largeIcon"@),
{
    tier_table(json, "largeIcon")
}

/// An optional array, or no entries.
pub open spec fn arr_or_empty(o: Option<Seq<Json>>) -> Seq<Json> {
    match o {
        Some(a) => a,
        None => Seq::empty(),
    }
}

pub open spec fn icon_of(j: Json) -> Option<Seq<char>> {
    j.field_str("displayIcon"@)
}

/// The icon of the last entry that has one.
pub open spec fn last_icon(xs: Seq<Json>) -> Option<Seq<char>>
    decreases xs.len(),
{
    if xs.len() == 0 {
        None
    } else {
        match icon_of(xs.last()) {
            Some(t) => Some(t),
            None => last_icon(xs.drop_last()),
        }
    }
}

/// The icon of the first entry of an optional array.
pub open spec fn first_icon(xs: Option<Seq<Json>>) -> Option<Seq<char>> {
    match xs {
        Some(a) => if a.len() > 0 {
            icon_of(a[0])
        } else {
            None
        },
        None => None,
    }
}

/// A skin's art: its own icon, else the last level icon, else the first
/// chroma icon, else the first level icon, else nothing.
pub open spec fn skin_image(skin: Json) -> Seq<char> {
    let levels = skin.field_arr("levels"@);
    let chromas = skin.field_arr("chromas"@);
    match icon_of(skin) {
        Some(t) => t,
        None => match last_icon(arr_or_empty(levels)) {
            Some(t) => t,
            None => match first_icon(chromas) {
                Some(t) => t,
                None => match first_icon(levels) {
                    Some(t) => t,
                    None => Seq::empty(),
                },
            },
        },
    }
}

pub open spec fn skin_view(skin: Json) -> SkinView {
    SkinView {
        name: skin.text_at("displayName"@),
        image: skin_image(skin),
        tier_uuid: skin.text_at("contentTierUuid"@),
    }
}

/// The "uuid" texts of a list of entries, skipping entries without one.
pub open spec fn uuids(xs: Seq<Json>) -> Seq<Seq<char>>
    decreases xs.len(),
{
    if xs.len() == 0 {
        Seq::empty()
    } else {
        match xs.last().field_str("uuid"@) {
            Some(u) => uuids(xs.drop_last()).push(u),
            None => uuids(xs.drop_last()),
        }
    }
}

/// Every id a loadout may report for a skin: the skin uuid, each level uuid
/// and each chroma uuid.
pub open spec fn skin_ids(skin: Json) -> Seq<Seq<char>> {
    let own = match skin.field_str("uuid"@) {
        Some(u) => seq![u],
        None => Seq::empty(),
    };
    own + uuids(arr_or_empty(skin.field_arr("levels"@))) + uuids(
        arr_or_empty(skin.field_arr("chromas"@)),
    )
}

pub open spec fn insert_all<V>(m: Map<Seq<char>, V>, ids: Seq<Seq<char>>, v: V) -> Map<Seq<char>, V>
    decreases ids.len(),
{
    if ids.len() == 0 {
        m
    } else {
        insert_all(m, ids.drop_last(), v).insert(ids.last(), v)
    }
}

pub open spec fn skins_fold(m: Map<Seq<char>, SkinView>, skins: Seq<Json>) -> Map<Seq<char>, SkinView>
    decreases skins.len(),
{
    if skins.len() == 0 {
        m
    } else {
        insert_all(skins_fold(m, skins.drop_last()), skin_ids(skins.last()), skin_view(skins.last()))
    }
}

/// The skin table of the weapons response: every id of every skin of every
/// weapon, to that skin.
pub open spec fn weapons_fold(weapons: Seq<Json>) -> Map<Seq<char>, SkinView>
    decreases weapons.len(),
{
    if weapons.len() == 0 {
        Map::empty()
    } else {
        skins_fold(
            weapons_fold(weapons.drop_last()),
            arr_or_empty(weapons.last().field_arr("skins"@)),
        )
    }
}

fn last_icon_of(xs: &Vec<Json>) -> (r: Option<&str>)
    ensures
        match r {
            Some(t) => last_icon(xs@) == Some(t@),
            None => last_icon(xs@) is None,
        },
{
    let mut found: Option<&str> = None;
    let mut i: usize = 0;
    proof {
        assert(xs@.take(0) =~= Seq::<Json>::empty());
    }
    while i < xs.len()
        invariant
            i <= xs@.len(),
            match found {
                Some(t) => last_icon(xs@.take(i as int)) == Some(t@),
                None => last_icon(xs@.take(i as int)) is None,
            },
        decreases xs@.len() - i,
    {
        proof {
            assert(xs@.take(i as int + 1).drop_last() =~= xs@.take(i as int));
            assert(xs@.take(i as int + 1).last() == xs@[i as int]);
        }
        match xs[i].get_str("displayIcon") {
            Some(t) => {
                found = Some(t);
            },
            None => {},
        }
        i += 1;
    }
    proof {
        assert(xs@.take(xs@.len() as int) =~= xs@);
    }
    found
}

fn first_icon_of(xs: Option<&Vec<Json>>) -> (r: Option<&str>)
    ensures
        match r {
            Some(t) => first_icon(match xs {
                Some(a) => Some(a@),
                None => None,
            }) == Some(t@),
            None => first_icon(match xs {
                Some(a) => Some(a@),
                None => None,
            }) is None,
        },
{
    match xs {
        Some(a) => if a.len() > 0 {
            a[0].get_str("displayIcon")
        } else {
            None
        },
        None => None,
    }
}

fn skin_of(skin: &Json) -> (r: SkinInfo)
    ensures
        r@ == skin_view(*skin),
{
    let levels = skin.get_array("levels");
    let chromas = skin.get_array("chromas");
    let image: &str = match skin.get_str("displayIcon") {
        Some(t) => t,
        None => {
            let last = match levels {
                Some(l) => last_icon_of(l),
                None => None,
            };
            match last {
                Some(t) => t,
                None => match first_icon_of(chromas) {
                    Some(t) => t,
                    None => match first_icon_of(levels) {
                        Some(t) => t,
                        None => "",
                    },
                },
            }
        },
    };
    proof {
        reveal_strlit("");
        assert(""@ =~= Seq::<char>::empty());
        assert(last_icon(Seq::<Json>::empty()) is None);
    }
    SkinInfo {
        name: skin.text("displayName"),
        image: image.to_owned(),
        tier_uuid: skin.text("contentTierUuid"),
    }
}

fn push_uuids(out: &mut Vec<String>, xs: Option<&Vec<Json>>)
    ensures
        crate::encounter::texts(final(out)@) == crate::encounter::texts(old(out)@) + uuids(
            arr_or_empty(
                match xs {
                    Some(a) => Some(a@),
                    None => None,
                },
            ),
        ),
{
    let ghost start = crate::encounter::texts(out@);
    match xs {
        Some(a) => {
            let mut i: usize = 0;
            proof {
                assert(a@.take(0) =~= Seq::<Json>::empty());
                assert(start + uuids(a@.take(0)) =~= start);
            }
            while i < a.len()
                invariant
                    i <= a@.len(),
                    crate::encounter::texts(out@) == start + uuids(a@.take(i as int)),
                decreases a@.len() - i,
            {
                proof {
                    assert(a@.take(i as int + 1).drop_last() =~= a@.take(i as int));
                    assert(a@.take(i as int + 1).last() == a@[i as int]);
                }
                match a[i].get_str("uuid") {
                    Some(u) => {
                        let ghost before = out@;
                        let us: String = u.to_owned();
                        out.push(us);
                        proof {
                            assert(crate::encounter::texts(out@) =~= crate::encounter::texts(
                                before,
                            ).push(us@));
                            assert(start + uuids(a@.take(i as int + 1)) =~= (start + uuids(
                                a@.take(i as int),
                            )).push(us@));
                        }
                    },
                    None => {},
                }
                i += 1;
            }
            proof {
                assert(a@.take(a@.len() as int) =~= a@);
            }
        },
        None => {
            proof {
                assert(start + uuids(Seq::<Json>::empty()) =~= start);
            }
        },
    }
}

fn ids_of(skin: &Json) -> (r: Vec<String>)
    ensures
        crate::encounter::texts(r@) == skin_ids(*skin),
{
    let mut ids: Vec<String> = Vec::new();
    match skin.get_str("uuid") {
        Some(u) => {
            ids.push(u.to_owned());
        },
        None => {},
    }
    proof {
        let own = match skin.field_str("uuid"@) {
            Some(u) => seq![u],
            None => Seq::<Seq<char>>::empty(),
        };
        assert(crate::encounter::texts(ids@) =~= own);
    }
    push_uuids(&mut ids, skin.get_array("levels"));
    push_uuids(&mut ids, skin.get_array("chromas"));
    ids
}

fn insert_ids(out: &mut Vec<(String, SkinInfo)>, ids: Vec<String>, info: &SkinInfo)
    ensures
        as_map(final(out)@).map_values(|i: SkinInfo| i@) == insert_all(
            as_map(old(out)@).map_values(|i: SkinInfo| i@),
            crate::encounter::texts(ids@),
            info@,
        ),
{
    let ghost start = as_map(out@).map_values(|i: SkinInfo| i@);
    let ghost ts = crate::encounter::texts(ids@);
    let mut i: usize = 0;
    proof {
        assert(ts.take(0) =~= Seq::<Seq<char>>::empty());
    }
    while i < ids.len()
        invariant
            i <= ids@.len(),
            ts == crate::encounter::texts(ids@),
            as_map(out@).map_values(|i: SkinInfo| i@) == insert_all(start, ts.take(i as int), info@),
        decreases ids@.len() - i,
    {
        proof {
            assert(ts.take(i as int + 1).drop_last() =~= ts.take(i as int));
            assert(ts.take(i as int + 1).last() == ids@[i as int]@);
        }
        let ghost before = out@;
        let copy = info.copy_info();
        insert(out, ids[i].clone(), copy);
        proof {
            assert(as_map(out@).map_values(|i: SkinInfo| i@) =~= as_map(before).map_values(
                |i: SkinInfo| i@,
            ).insert(ids@[i as int]@, info@));
        }
        i += 1;
    }
    proof {
        assert(ts.take(ids@.len() as int) =~= ts);
    }
}

/// Maps every id a loadout might report for a skin (the skin uuid, each level
/// uuid, and each chroma uuid) to one `SkinInfo`, so a lookup hits whichever
/// id the loadout socket carries.
pub fn parse_skins(json: &Json) -> (r: Vec<(String, SkinInfo)>)
    ensures
        as_map(r@).map_values(|i: SkinInfo| i@) == weapons_fold(data_entries(*json)),
{
    let mut out: Vec<(String, SkinInfo)> = Vec::new();
    proof {
        assert(as_map(out@).map_values(|i: SkinInfo| i@) =~= Map::<Seq<char>, SkinView>::empty());
    }
    let weapons = match json.get_array("data") {
        Some(a) => a,
        None => return out,
    };
    let ghost ws = weapons@;
    proof {
        assert(ws.take(0) =~= Seq::<Json>::empty());
    }
    let mut w: usize = 0;
    while w < weapons.len()
        invariant
            w <= ws.len(),
            ws == weapons@,
            ws == data_entries(*json),
            as_map(out@).map_values(|i: SkinInfo| i@) == weapons_fold(ws.take(w as int)),
        decreases ws.len() - w,
    {
        proof {
            assert(ws.take(w as int + 1).drop_last() =~= ws.take(w as int));
            assert(ws.take(w as int + 1).last() == ws[w as int]);
        }
        let ghost base = weapons_fold(ws.take(w as int));
        match weapons[w].get_array("skins") {
            Some(skins) => {
                let mut k: usize = 0;
                proof {
                    assert(skins@.take(0) =~= Seq::<Json>::empty());
                }
                while k < skins.len()
                    invariant
                        k <= skins@.len(),
                        as_map(out@).map_values(|i: SkinInfo| i@) == skins_fold(
                            base,
                            skins@.take(k as int),
                        ),
                    decreases skins@.len() - k,
                {
                    proof {
                        assert(skins@.take(k as int + 1).drop_last() =~= skins@.take(k as int));
                        assert(skins@.take(k as int + 1).last() == skins@[k as int]);
                    }
                    let skin = &skins[k];
                    let info = skin_of(skin);
                    let ids = ids_of(skin);
                    insert_ids(&mut out, ids, &info);
                    k += 1;
                }
                proof {
                    assert(skins@.take(skins@.len() as int) =~= skins@);
                }
            },
            None => {},
        }
        w += 1;
    }
    proof {
        assert(ws.take(ws.len() as int) =~= ws);
    }
    out
}

/// The number of bytes of the UTF-8 encoding of `c`.
pub open spec fn utf8_width(c: char) -> nat {
    if (c as u32) < 0x80 {
        1
    } else if (c as u32) < 0x800 {
        2
    } else if (c as u32) < 0x10000 {
        3
    } else {
        4
    }
}

/// The UTF-8 length of a text, which `str::len` reports.
pub open spec fn byte_len(s: Seq<char>) -> nat
    decreases s.len(),
{
    if s.len() == 0 {
        0
    } else {
        utf8_width(s[0]) + byte_len(s.drop_first())
    }
}

/// The characters of the first `n` bytes of `s`, when byte `n` falls on a
/// character boundary within `s`.
pub open spec fn byte_prefix(s: Seq<char>, n: int) -> Option<Seq<char>>
    decreases s.len(),
{
    if n == 0 {
        Some(Seq::empty())
    } else if n < 0 || s.len() == 0 || utf8_width(s[0]) > n {
        None
    } else {
        match byte_prefix(s.drop_first(), n - utf8_width(s[0])) {
            Some(p) => Some(seq![s[0]] + p),
            None => None,
        }
    }
}

proof fn lemma_byte_prefix_len(s: Seq<char>, n: int)
    requires
        byte_prefix(s, n) is Some,
    ensures
        byte_len(s) >= n,
    decreases s.len(),
{
    if n != 0 {
        lemma_byte_prefix_len(s.drop_first(), n - utf8_width(s[0]));
    }
}

fn width(c: char) -> (w: usize)
    ensures
        w == utf8_width(c),
{
    let v = c as u32;
    if v < 0x80 {
        1
    } else if v < 0x800 {
        2
    } else if v < 0x10000 {
        3
    } else {
        4
    }
}

/// The number of characters in the first `n` bytes of `s` from index `i`,
/// when that is a character boundary.
fn byte_prefix_len(s: &Vec<char>, i: usize, n: usize) -> (r: Option<usize>)
    requires
        i <= s@.len(),
    ensures
        match r {
            Some(k) => i + k <= s@.len() && byte_prefix(s@.skip(i as int), n as int) == Some(
                s@.subrange(i as int, i + k),
            ),
            None => byte_prefix(s@.skip(i as int), n as int) is None,
        },
    decreases s@.len() - i,
{
    if n == 0 {
        proof {
            assert(s@.subrange(i as int, i as int) =~= Seq::<char>::empty());
        }
        return Some(0);
    }
    if i >= s.len() {
        return None;
    }
    let w = width(s[i]);
    proof {
        assert(s@.skip(i as int)[0] == s@[i as int]);
        assert(s@.skip(i as int).drop_first() =~= s@.skip(i + 1));
    }
    if w > n {
        return None;
    }
    match byte_prefix_len(s, i + 1, n - w) {
        Some(k) => {
            proof {
                assert(seq![s@[i as int]] + s@.subrange(i + 1, i + 1 + k) =~= s@.subrange(
                    i as int,
                    i + 1 + k,
                ));
            }
            Some(k + 1)
        },
        None => None,
    }
}

/// Whether the UTF-8 length of `s` from index `i` is at least `n`.
fn bytes_at_least(s: &Vec<char>, i: usize, n: usize) -> (r: bool)
    requires
        i <= s@.len(),
    ensures
        r == (byte_len(s@.skip(i as int)) >= n),
    decreases s@.len() - i,
{
    if n == 0 {
        return true;
    }
    if i >= s.len() {
        proof {
            assert(s@.skip(i as int) =~= Seq::<char>::empty());
        }
        return false;
    }
    let w = width(s[i]);
    proof {
        assert(s@.skip(i as int)[0] == s@[i as int]);
        assert(s@.skip(i as int).drop_first() =~= s@.skip(i + 1));
    }
    if w >= n {
        return true;
    }
    bytes_at_least(s, i + 1, n - w)
}

/// A color entry's CSS value: "#" and the first six bytes of its RRGGBBAA
/// "highlightColor", when it has at least six bytes.
pub open spec fn colors_map(entries: Seq<Json>) -> Map<Seq<char>, Seq<char>>
    decreases entries.len(),
{
    if entries.len() == 0 {
        Map::empty()
    } else {
        let prev = colors_map(entries.drop_last());
        let e = entries.last();
        match (e.field_str("uuid"@), e.field_str("highlightColor"@)) {
            (Some(u), Some(c)) => if byte_len(c) >= 6 {
                prev.insert(u, "#"@ + byte_prefix(c, 6)->0)
            } else {
                prev
            },
            _ => prev,
        }
    }
}

/// Every color of six bytes or more has a character boundary at byte six;
/// slicing it there would panic otherwise.
pub open spec fn colors_sliceable(entries: Seq<Json>) -> bool {
    forall|i: int|
        0 <= i < entries.len() ==> match (
            #[trigger] entries[i].field_str("uuid"@),
            entries[i].field_str("highlightColor"@),
        ) {
            (Some(u), Some(c)) => byte_len(c) >= 6 ==> byte_prefix(c, 6) is Some,
            _ => true,
        }
}

/// Content-tier uuid to CSS "#RRGGBB" from the 8-digit RRGGBBAA highlightColor.
pub fn parse_tier_colors(json: &Json) -> (r: Vec<(String, String)>)
    requires
        colors_sliceable(data_entries(*json)),
    ensures
        text_map(r@) == colors_map(data_entries(*json)),
{
    let mut out: Vec<(String, String)> = Vec::new();
    proof {
        assert(text_map(out@) =~= Map::<Seq<char>, Seq<char>>::empty());
    }
    let entries = match json.get_array("data") {
        Some(a) => a,
        None => return out,
    };
    let ghost es = entries@;
    proof {
        assert(es.take(0) =~= Seq::<Json>::empty());
    }
    let mut i: usize = 0;
    while i < entries.len()
        invariant
            i <= es.len(),
            es == entries@,
            colors_sliceable(es),
            text_map(out@) == colors_map(es.take(i as int)),
        decreases es.len() - i,
    {
        let e = &entries[i];
        proof {
            assert(es.take(i as int + 1).drop_last() =~= es.take(i as int));
            assert(es.take(i as int + 1).last() == *e);
        }
        match (e.get_str("uuid"), e.get_str("highlightColor")) {
            (Some(u), Some(c)) => {
                let cs = chars_of(c);
                proof {
                    assert(cs@.skip(0) =~= cs@);
                    assert(match (es[i as int].field_str("uuid"@), es[i as int].field_str("highlightColor"@)) {
                        (Some(u), Some(c)) => byte_len(c) >= 6 ==> byte_prefix(c, 6) is Some,
                        _ => true,
                    });
                }
                match byte_prefix_len(&cs, 0, 6) {
                    Some(k) => {
                        proof {
                            lemma_byte_prefix_len(cs@, 6);
                        }
                        let mut v = "#".to_owned();
                        let head = crate::text::slice_text(&cs, 0, k);
                        push_text(&mut v, head.as_str());
                        insert_text(&mut out, u.to_owned(), v);
                    },
                    None => {},
                }
            },
            _ => {},
        }
        i += 1;
    }
    proof {
        assert(es.take(es.len() as int) =~= es);
    }
    out
}

/// Whether `parse_tier_colors` may read this response.
pub fn tier_colors_sliceable(json: &Json) -> (r: bool)
    ensures
        r == colors_sliceable(data_entries(*json)),
{
    let entries = match json.get_array("data") {
        Some(a) => a,
        None => return true,
    };
    let mut i: usize = 0;
    while i < entries.len()
        invariant
            i <= entries@.len(),
            entries@ == data_entries(*json),
            forall|j: int|
                0 <= j < i ==> match (
                    #[trigger] entries@[j].field_str("uuid"@),
                    entries@[j].field_str("highlightColor"@),
                ) {
                    (Some(u), Some(c)) => byte_len(c) >= 6 ==> byte_prefix(c, 6) is Some,
                    _ => true,
                },
        decreases entries@.len() - i,
    {
        match (entries[i].get_str("uuid"), entries[i].get_str("highlightColor")) {
            (Some(u), Some(c)) => {
                let cs = chars_of(c);
                proof {
                    assert(cs@.skip(0) =~= cs@);
                }
                if bytes_at_least(&cs, 0, 6) && byte_prefix_len(&cs, 0, 6).is_none() {
                    return false;
                }
            },
            _ => {},
        }
        i += 1;
    }
    true
}

/// Roman numerals up to VII.
pub open spec fn roman(w: Seq<char>) -> Option<u32> {
    if w == "I"@ {
        Some(1)
    } else if w == "II"@ {
        Some(2)
    } else if w == "III"@ {
        Some(3)
    } else if w == "IV"@ {
        Some(4)
    } else if w == "V"@ {
        Some(5)
    } else if w == "VI"@ {
        Some(6)
    } else if w == "VII"@ {
        Some(7)
    } else {
        None
    }
}

/// The number at the end of a season name, in digits or as a roman numeral.
pub open spec fn extract_num_spec(name: Seq<char>) -> Option<u32> {
    match last_word(name) {
        None => None,
        Some(w) => match parse_u32_spec(w) {
            Some(n) => Some(n),
            None => roman(upper_text(w)),
        },
    }
}

fn roman_value(w: &str) -> (r: Option<u32>)
    ensures
        r == roman(w@),
{
    if text_eq(w, "I") {
        Some(1)
    } else if text_eq(w, "II") {
        Some(2)
    } else if text_eq(w, "III") {
        Some(3)
    } else if text_eq(w, "IV") {
        Some(4)
    } else if text_eq(w, "V") {
        Some(5)
    } else if text_eq(w, "VI") {
        Some(6)
    } else if text_eq(w, "VII") {
        Some(7)
    } else {
        None
    }
}

fn extract_num(name: &Vec<char>) -> (r: Option<u32>)
    ensures
        r == extract_num_spec(name@),
{
    let last = match last_word_of(name) {
        Some(w) => w,
        None => return None,
    };
    let lc = chars_of(last.as_str());
    match parse_u32(&lc) {
        Some(n) => Some(n),
        None => {
            let up = to_upper(last.as_str());
            roman_value(up.as_str())
        },
    }
}

/// Short label for a parent season: "E8" for "EPISODE 8", or the name itself
/// for the version-based seasons such as "V26".
pub open spec fn parent_label_spec(name: Seq<char>) -> Option<Seq<char>> {
    let t = trim_spec(name);
    if contains_text(upper_text(t), "EPISODE"@) {
        match extract_num_spec(t) {
            Some(n) => Some("E"@ + decimal(n as nat)),
            None => None,
        }
    } else if t.len() >= 2 && t[0] == 'V' && all_digits(t.drop_first()) {
        Some(t)
    } else {
        None
    }
}

fn parent_label(name: &str) -> (r: Option<String>)
    ensures
        match r {
            Some(l) => parent_label_spec(name@) == Some(l@),
            None => parent_label_spec(name@) is None,
        },
{
    let nc = chars_of(name);
    let t = trim_of(&nc);
    let tc = chars_of(t.as_str());
    let up = to_upper(t.as_str());
    let upc = chars_of(up.as_str());
    let ep = chars_of("EPISODE");
    if contains(&upc, &ep) {
        return match extract_num(&tc) {
            Some(n) => {
                let mut s = "E".to_owned();
                push_decimal(&mut s, n as u64);
                Some(s)
            },
            None => None,
        };
    }
    if tc.len() >= 2 && tc[0] == 'V' {
        let mut k: usize = 1;
        while k < tc.len()
            invariant
                1 <= k <= tc@.len(),
                tc@ == trim_spec(name@),
                t@ == tc@,
                !contains_text(upper_text(tc@), "EPISODE"@),
                tc@.len() >= 2,
                tc@[0] == 'V',
                forall|j: int| 1 <= j < k ==> crate::text::is_digit(tc@[j]),
            decreases tc@.len() - k,
        {
            if !('0' <= tc[k] && tc[k] <= '9') {
                proof {
                    assert(tc@.drop_first()[k - 1] == tc@[k as int]);
                }
                return None;
            }
            k += 1;
        }
        proof {
            assert forall|j: int| 0 <= j < tc@.drop_first().len() implies crate::text::is_digit(
                #[trigger] tc@.drop_first()[j],
            ) by {
                assert(tc@.drop_first()[j] == tc@[j + 1]);
            }
        }
        return Some(t);
    }
    None
}

/// Labels of the top-level seasons (no "parentUuid"): episodes and
/// version seasons, keyed by a non-empty uuid.
pub open spec fn parents_map(arr: Seq<Json>) -> Map<Seq<char>, Seq<char>>
    decreases arr.len(),
{
    if arr.len() == 0 {
        Map::empty()
    } else {
        let prev = parents_map(arr.drop_last());
        let s = arr.last();
        if s.field_str("parentUuid"@) is None {
            let uuid = s.text_at("uuid"@);
            match parent_label_spec(s.text_at("displayName"@)) {
                Some(l) => if uuid.len() > 0 {
                    prev.insert(uuid, l)
                } else {
                    prev
                },
                None => prev,
            }
        } else {
            prev
        }
    }
}

/// Each act uuid to "<parent label>A<act number>", e.g. "E8A2" or "V26A4".
pub open spec fn acts_map(arr: Seq<Json>, parents: Map<Seq<char>, Seq<char>>) -> Map<Seq<char>, Seq<char>>
    decreases arr.len(),
{
    if arr.len() == 0 {
        Map::empty()
    } else {
        let prev = acts_map(arr.drop_last(), parents);
        let s = arr.last();
        let name = s.text_at("displayName"@);
        let parent = s.text_at("parentUuid"@);
        if contains_text(upper_text(name), "ACT"@) && extract_num_spec(name) is Some
            && parents.contains_key(parent) {
            prev.insert(
                s.text_at("uuid"@),
                parents[parent] + "A"@ + decimal(extract_num_spec(name)->0 as nat),
            )
        } else {
            prev
        }
    }
}

/// Maps each competitive act uuid to a short label like "E8A2" or "V26A4".
pub fn parse_seasons(json: &Json) -> (r: Vec<(String, String)>)
    ensures
        text_map(r@) == acts_map(data_entries(*json), parents_map(data_entries(*json))),
{
    let mut out: Vec<(String, String)> = Vec::new();
    proof {
        assert(text_map(out@) =~= Map::<Seq<char>, Seq<char>>::empty());
    }
    let arr = match json.get_array("data") {
        Some(a) => a,
        None => return out,
    };
    let ghost es = arr@;
    let mut parents: Vec<(String, String)> = Vec::new();
    proof {
        assert(text_map(parents@) =~= Map::<Seq<char>, Seq<char>>::empty());
        assert(es.take(0) =~= Seq::<Json>::empty());
    }
    let mut i: usize = 0;
    while i < arr.len()
        invariant
            i <= es.len(),
            es == arr@,
            text_map(parents@) == parents_map(es.take(i as int)),
        decreases es.len() - i,
    {
        let s = &arr[i];
        proof {
            assert(es.take(i as int + 1).drop_last() =~= es.take(i as int));
            assert(es.take(i as int + 1).last() == *s);
        }
        if s.get_str("parentUuid").is_none() {
            let name = s.text("displayName");
            let uuid = s.text("uuid");
            match parent_label(name.as_str()) {
                Some(label) => {
                    if !uuid.as_str().is_empty() {
                        insert_text(&mut parents, uuid, label);
                    }
                },
                None => {},
            }
        }
        i += 1;
    }
    proof {
        assert(es.take(es.len() as int) =~= es);
    }
    let ghost pm = parents_map(es);
    let act = chars_of("ACT");
    let mut i: usize = 0;
    while i < arr.len()
        invariant
            i <= es.len(),
            es == arr@,
            text_map(parents@) == pm,
            act@ == "ACT"@,
            text_map(out@) == acts_map(es.take(i as int), pm),
        decreases es.len() - i,
    {
        let s = &arr[i];
        proof {
            assert(es.take(i as int + 1).drop_last() =~= es.take(i as int));
            assert(es.take(i as int + 1).last() == *s);
        }
        let name = s.text("displayName");
        let uuid = s.text("uuid");
        let parent = s.text("parentUuid");
        let up = to_upper(name.as_str());
        let upc = chars_of(up.as_str());
        if contains(&upc, &act) {
            let nc = chars_of(name.as_str());
            match (extract_num(&nc), get_text(&parents, parent.as_str())) {
                (Some(n), Some(label)) => {
                    let mut v = label;
                    push_text(&mut v, "A");
                    push_decimal(&mut v, n as u64);
                    insert_text(&mut out, uuid, v);
                },
                _ => {},
            }
        }
        i += 1;
    }
    proof {
        assert(es.take(es.len() as int) =~= es);
    }
    out
}


/// The lookup tables built from the seven catalogue documents: competitive
/// tiers, agents, maps, player cards, seasons, weapons and content tiers.
pub fn build_static(
    tiers: &Json,
    agents: &Json,
    maps: &Json,
    cards: &Json,
    seasons: &Json,
    weapons: &Json,
    tier_colors: &Json,
) -> (s: StaticData)
    requires
        colors_sliceable(data_entries(*tier_colors)),
    ensures
        text_map_n(s.tiers@) == tier_map(current_tiers(*tiers), "tierName"@),
        text_map_n(s.tier_icons@) == tier_map(current_tiers(*tiers), "largeIcon"@),
        text_map(s.agents@) == pairs_map(data_entries(*agents), "uuid"@, "displayName"@),
        text_map(s.agent_icons@) == pairs_map(data_entries(*agents), "uuid"@, "displayIcon"@),
        text_map(s.maps@) == pairs_map(data_entries(*maps), "mapUrl"@, "displayName"@),
        text_map(s.map_images@) == pairs_map(data_entries(*maps), "mapUrl"@, "listViewIcon"@),
        text_map(s.card_arts@) == pairs_map(data_entries(*cards), "uuid"@, "wideArt"@),
        text_map(s.season_labels@) == acts_map(
            data_entries(*seasons),
            parents_map(data_entries(*seasons)),
        ),
        as_map(s.skins@).map_values(|i: SkinInfo| i@) == weapons_fold(data_entries(*weapons)),
        text_map(s.tier_colors@) == colors_map(data_entries(*tier_colors)),
{
    StaticData {
        tiers: parse_tiers(tiers),
        tier_icons: parse_tier_icons(tiers),
        agents: parse_agents(agents),
        agent_icons: parse_agent_icons(agents),
        maps: parse_maps(maps),
        map_images: parse_map_images(maps),
        card_arts: parse_player_cards(cards),
        season_labels: parse_seasons(seasons),
        skins: parse_skins(weapons),
        tier_colors: parse_tier_colors(tier_colors),
    }
}

} // verus!
