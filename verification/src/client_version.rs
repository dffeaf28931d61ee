//! Region and client build: the Riot endpoints for a region, and the region
//! and build read out of VALORANT's log.
use vstd::prelude::*;
use crate::json::Json;
use crate::text::{
    chars_of, contains, contains_text, find_from, find_spec, occurs_at, push_text, slice_text,
};

verus! {

pub struct Region {
    pub region: String,
    pub shard: String,
}

impl Region {
    /// "https://pd.{shard}.a.pvp.net"
    pub fn pd_base(&self) -> (r: String)
        ensures
            r@ == "https://pd."@ + self.shard@ + ".a.pvp.net"@,
    {
        let mut s = "https://pd.".to_owned();
        push_text(&mut s, self.shard.as_str());
        push_text(&mut s, ".a.pvp.net");
        s
    }

    /// "https://glz-{region}-1.{shard}.a.pvp.net"
    pub fn glz_base(&self) -> (r: String)
        ensures
            r@ == "https://glz-"@ + self.region@ + "-1."@ + self.shard@ + ".a.pvp.net"@,
    {
        let mut s = "https://glz-".to_owned();
        push_text(&mut s, self.region.as_str());
        push_text(&mut s, "-1.");
        push_text(&mut s, self.shard.as_str());
        push_text(&mut s, ".a.pvp.net");
        s
    }

    /// "https://shared.{shard}.a.pvp.net"
    pub fn shared_base(&self) -> (r: String)
        ensures
            r@ == "https://shared."@ + self.shard@ + ".a.pvp.net"@,
    {
        let mut s = "https://shared.".to_owned();
        push_text(&mut s, self.shard.as_str());
        push_text(&mut s, ".a.pvp.net");
        s
    }
}

/// The region to use: the configured region (with the configured shard, or
/// the region again as shard) when one is configured; else the one found in
/// the log; else North America.
pub open spec fn pick_region_spec(
    region: Option<Seq<char>>,
    shard: Option<Seq<char>>,
    from_log: Option<(Seq<char>, Seq<char>)>,
) -> (Seq<char>, Seq<char>) {
    match region {
        Some(r) => (r, match shard {
            Some(s) => s,
            None => r,
        }),
        None => match from_log {
            Some(p) => p,
            None => ("na"@, "na"@),
        },
    }
}

pub fn pick_region(region: Option<String>, shard: Option<String>, from_log: Option<Region>) -> (r:
    Region)
    ensures
        (r.region@, r.shard@) == pick_region_spec(
            match region {
                Some(x) => Some(x@),
                None => None,
            },
            match shard {
                Some(x) => Some(x@),
                None => None,
            },
            match from_log {
                Some(g) => Some((g.region@, g.shard@)),
                None => None,
            },
        ),
{
    match region {
        Some(reg) => {
            let sh = match shard {
                Some(s) => s,
                None => reg.clone(),
            };
            Region { region: reg, shard: sh }
        },
        None => match from_log {
            Some(g) => g,
            None => Region { region: "na".to_owned(), shard: "na".to_owned() },
        },
    }
}

/// Region and shard of the first glz URL in a log text: the text between
/// "glz-" and the next "-1.", then the text from there to the next
/// ".a.pvp.net". `None` when a marker is missing or either part is empty.
pub open spec fn region_in_log(t: Seq<char>) -> Option<(Seq<char>, Seq<char>)> {
    match find_spec(t, "glz-"@, 0) {
        None => None,
        Some(start) => {
            let rest = t.subrange(start + 4, t.len() as int);
            match find_spec(rest, "-1."@, 0) {
                None => None,
                Some(dash) => {
                    let region = rest.subrange(0, dash);
                    let after = rest.subrange(dash + 3, rest.len() as int);
                    match find_spec(after, ".a.pvp.net"@, 0) {
                        None => None,
                        Some(dot) => {
                            let shard = after.subrange(0, dot);
                            if region.len() == 0 || shard.len() == 0 {
                                None
                            } else {
                                Some((region, shard))
                            }
                        },
                    }
                },
            }
        },
    }
}

proof fn lemma_first_mark(hay: Seq<char>, pat: Seq<char>, i: int)
    requires
        0 <= i,
        i + pat.len() <= hay.len(),
        pat.len() > 0,
        hay.subrange(i, i + pat.len()) =~= pat,
        forall|j: int| 0 <= j < i ==> hay[j] != pat[0],
    ensures
        find_spec(hay, pat, 0) == Some(i),
{
    assert forall|j: int| 0 <= j < i implies !occurs_at(hay, pat, j) by {
        if occurs_at(hay, pat, j) {
            assert(hay.subrange(j, j + pat.len())[0] == hay[j]);
        }
    }
    crate::text::lemma_find_spec_first(hay, pat, 0, i);
}

/// A glz URL built from a region parses back to that region and shard,
/// wherever it stands in a log after text without "glz-", as long as the
/// region holds no '-' and the shard no '.' (as region and shard ids do).
pub proof fn law_glz_url_round_trip(
    prefix: Seq<char>,
    region: Seq<char>,
    shard: Seq<char>,
    suffix: Seq<char>,
)
    requires
        region.len() > 0,
        shard.len() > 0,
        forall|k: int| 0 <= k < region.len() ==> region[k] != '-',
        forall|k: int| 0 <= k < shard.len() ==> shard[k] != '.',
        forall|j: int| !occurs_at(prefix, "glz-"@, j),
    ensures
        region_in_log(
            prefix + ("https://glz-"@ + region + "-1."@ + shard + ".a.pvp.net"@) + suffix,
        ) == Some((region, shard)),
{
    reveal_strlit("https://glz-");
    reveal_strlit("glz-");
    reveal_strlit("-1.");
    reveal_strlit(".a.pvp.net");
    let b = "https://glz-"@;
    let g = "glz-"@;
    let c = "-1."@;
    let d = ".a.pvp.net"@;
    let t = prefix + (b + region + c + shard + d) + suffix;
    let n: int = prefix.len() as int;
    let i0: int = n + 8;
    assert(b.len() == 12 && g.len() == 4 && c.len() == 3 && d.len() == 10);
    let tail = region + c + shard + d + suffix;
    assert(t =~= prefix + b + tail);
    assert forall|k: int| 0 <= k < 12 implies t[n + k] == b[k] by {}
    assert(t.subrange(i0, i0 + 4) =~= g);
    assert forall|j: int| 0 <= j < i0 implies !occurs_at(t, g, j) by {
        if occurs_at(t, g, j) {
            assert(t.subrange(j, j + 4)[0] == t[j]);
            if j + 4 <= n {
                assert(prefix.subrange(j, j + 4) =~= t.subrange(j, j + 4));
                assert(occurs_at(prefix, g, j));
            } else if j < n {
                assert(t.subrange(j, j + 4)[n - j] == t[n]);
                assert(t[n] == 'h');
            } else {
                assert(t[j] == b[j - n]);
            }
        }
    }
    crate::text::lemma_find_spec_first(t, g, 0, i0);
    let rest = t.subrange(i0 + 4, t.len() as int);
    assert(rest =~= tail);
    lemma_first_mark(rest, c, region.len() as int);
    assert(rest.subrange(0, region.len() as int) =~= region);
    let after = rest.subrange(region.len() as int + 3, rest.len() as int);
    assert(after =~= shard + d + suffix);
    lemma_first_mark(after, d, shard.len() as int);
    assert(after.subrange(0, shard.len() as int) =~= shard);
}

/// Pulls region and shard out of a glz URL found in VALORANT's log, e.g.
/// "https://glz-eu-1.eu.a.pvp.net".
pub fn parse_region_from_log(text: &str) -> (r: Option<Region>)
    ensures
        match r {
            Some(reg) => region_in_log(text@) == Some((reg.region@, reg.shard@)),
            None => region_in_log(text@) is None,
        },
{
    let t = chars_of(text);
    let marker = chars_of("glz-");
    proof {
        reveal_strlit("glz-");
    }
    let start = match find_from(&t, &marker, 0) {
        Some(i) => i,
        None => return None,
    };
    proof {
        assert(marker@.len() == 4);
        assert(occurs_at(t@, marker@, start as int));
    }
    let n = t.len();
    assert(start + 4 <= n);
    let rest = slice_chars(&t, start + 4, n);
    let dash_pat = chars_of("-1.");
    proof {
        reveal_strlit("-1.");
    }
    let dash = match find_from(&rest, &dash_pat, 0) {
        Some(i) => i,
        None => return None,
    };
    let after = slice_chars(&rest, dash + 3, rest.len());
    let dot_pat = chars_of(".a.pvp.net");
    let dot = match find_from(&after, &dot_pat, 0) {
        Some(i) => i,
        None => return None,
    };
    if dash == 0 || dot == 0 {
        return None;
    }
    Some(Region { region: slice_text(&rest, 0, dash), shard: slice_text(&after, 0, dot) })
}

/// The characters of `s` from `lo` up to `hi`, as a vector.
pub fn slice_chars(s: &Vec<char>, lo: usize, hi: usize) -> (r: Vec<char>)
    requires
        lo <= hi <= s@.len(),
    ensures
        r@ == s@.subrange(lo as int, hi as int),
{
    let mut out: Vec<char> = Vec::new();
    let mut i: usize = lo;
    while i < hi
        invariant
            lo <= i <= hi,
            hi <= s@.len(),
            out@ == s@.subrange(lo as int, i as int),
        decreases hi - i,
    {
        out.push(s[i]);
        proof {
            assert(s@.subrange(lo as int, i + 1) =~= s@.subrange(lo as int, i as int).push(
                s@[i as int],
            ));
        }
        i += 1;
    }
    out
}

/// Characters that may appear in a build token: ASCII letters and digits,
/// '.' and '-'.
pub open spec fn build_char(c: char) -> bool {
    ('0' <= c && c <= '9') || ('a' <= c && c <= 'z') || ('A' <= c && c <= 'Z') || c == '.' || c
        == '-'
}

/// End of the build token that starts at `j`: the first later index whose
/// character is not a build character, or the end of the text.
pub open spec fn token_end(t: Seq<char>, j: int) -> int
    decreases t.len() - j,
{
    if j < 0 || j >= t.len() {
        t.len() as int
    } else if build_char(t[j]) {
        token_end(t, j + 1)
    } else {
        j
    }
}

/// The build token at index `i`.
pub open spec fn token_at(t: Seq<char>, i: int) -> Seq<char> {
    t.subrange(i, token_end(t, i))
}

/// The build named by the last "release-" token among the first `n`
/// positions of the log whose token holds "-shipping-".
pub open spec fn version_in(t: Seq<char>, n: int) -> Option<Seq<char>>
    decreases n,
{
    if n <= 0 {
        None
    } else if occurs_at(t, "release-"@, n - 1) && contains_text(
        token_at(t, n - 1),
        "-shipping-"@,
    ) {
        Some(token_at(t, n - 1))
    } else {
        version_in(t, n - 1)
    }
}

proof fn lemma_version_in_gap(t: Seq<char>, lo: int, hi: int)
    requires
        0 <= lo <= hi,
        forall|j: int| lo <= j < hi ==> !occurs_at(t, "release-"@, j),
    ensures
        version_in(t, hi) == version_in(t, lo),
    decreases hi - lo,
{
    if lo < hi {
        lemma_version_in_gap(t, lo, hi - 1);
    }
}

proof fn lemma_token_end_bounds(t: Seq<char>, j: int)
    requires
        0 <= j <= t.len(),
    ensures
        j <= token_end(t, j) <= t.len(),
    decreases t.len() - j,
{
    if j < t.len() && build_char(t[j]) {
        lemma_token_end_bounds(t, j + 1);
    }
}

fn build_token_end(t: &Vec<char>, start: usize) -> (e: usize)
    requires
        start <= t@.len(),
    ensures
        e as int == token_end(t@, start as int),
        start <= e <= t@.len(),
{
    let mut j: usize = start;
    while j < t.len()
        invariant
            start <= j <= t@.len(),
            token_end(t@, start as int) == token_end(t@, j as int),
        decreases t@.len() - j,
    {
        let c = t[j];
        if !(('0' <= c && c <= '9') || ('a' <= c && c <= 'z') || ('A' <= c && c <= 'Z') || c
            == '.' || c == '-') {
            return j;
        }
        j += 1;
    }
    j
}

/// The running build from the log, e.g. "release-13.00-shipping-32-4990475":
/// the last "release-" token that holds "-shipping-", which is the most
/// recent build the client logged.
pub fn parse_version_from_log(text: &str) -> (r: Option<String>)
    ensures
        match r {
            Some(v) => version_in(text@, text@.len() as int) == Some(v@),
            None => version_in(text@, text@.len() as int) is None,
        },
{
    let t = chars_of(text);
    let pat = chars_of("release-");
    let ship = chars_of("-shipping-");
    proof {
        reveal_strlit("release-");
    }
    let mut found: Option<String> = None;
    let mut pos: usize = 0;
    while pos <= t.len()
        invariant
            pos <= t@.len(),
            t@ == text@,
            pat@ == "release-"@,
            ship@ == "-shipping-"@,
            pat@.len() == 8,
            match found {
                Some(v) => version_in(t@, pos as int) == Some(v@),
                None => version_in(t@, pos as int) is None,
            },
        decreases t@.len() + 1 - pos,
    {
        match find_from(&t, &pat, pos) {
            None => {
                proof {
                    lemma_version_in_gap(t@, pos as int, t@.len() as int);
                }
                return found;
            },
            Some(i) => {
                proof {
                    lemma_version_in_gap(t@, pos as int, i as int);
                }
                let e = build_token_end(&t, i);
                let token = slice_chars(&t, i, e);
                if contains(&token, &ship) {
                    found = Some(slice_text(&t, i, e));
                }
                proof {
                    assert(occurs_at(t@, pat@, i as int));
                }
                pos = i + 1;
            },
        }
    }
    found
}

/// The "riotClientVersion" under "data" in the valorant-api version response.
pub open spec fn version_in_response(json: Json) -> Option<Seq<char>> {
    match json.field("data"@) {
        Some(d) => d.field_str("riotClientVersion"@),
        None => None,
    }
}

pub fn parse_version(json: &Json) -> (r: Option<String>)
    ensures
        match r {
            Some(v) => version_in_response(*json) == Some(v@),
            None => version_in_response(*json) is None,
        },
{
    match json.get("data") {
        Some(d) => match d.get_str("riotClientVersion") {
            Some(v) => Some(v.to_owned()),
            None => None,
        },
        None => None,
    }
}

} // verus!
