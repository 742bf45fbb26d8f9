//! Reading Steam's metadata files: the per-user `localconfig.vdf` (play times
//! and the friends status) and the `appmanifest_*.acf` of each installed game.

use vstd::prelude::*;

use crate::playtimes::Playtimes;
use crate::text::{decimal_value, parse_u32, parse_u32_spec, unsigned_digits};

verus! {

// ---------------------------------------------------------------------------
// The regex engine
// ---------------------------------------------------------------------------

#[verifier::external_type_specification]
#[verifier::external_body]
pub struct ExRegex(regex::Regex);

/// Whether `regex::Regex::new` accepts this pattern.
pub uninterp spec fn regex_compiles(pattern: Seq<char>) -> bool;

/// What `regex::Regex::captures` finds in `haystack`: the groups of the
/// leftmost-first match (group 0 first, `None` for a group that took no part),
/// or `None` without a match.
pub uninterp spec fn regex_captures(pattern: Seq<char>, haystack: Seq<char>) -> Option<
    Seq<Option<Seq<char>>>,
>;

/// What `regex::Regex::captures_iter` yields for `haystack`: the groups of each
/// successive non-overlapping match.
pub uninterp spec fn regex_captures_iter(pattern: Seq<char>, haystack: Seq<char>) -> Seq<
    Seq<Option<Seq<char>>>,
>;

/// A compiled regular expression together with the pattern it came from.
pub struct Pattern {
    source: String,
    regex: regex::Regex,
}

impl Pattern {
    pub closed spec fn source(&self) -> Seq<char> {
        self.source@
    }
}

/// Calls `regex::Regex::new`: `Some` exactly when the engine accepts the
/// pattern, and then holding the pattern it was compiled from.
#[verifier::external_body]
fn compile(source: &str) -> (res: Option<Pattern>)
    ensures
        res is Some <==> regex_compiles(source@),
        res matches Some(p) ==> p.source() == source@,
{
    match regex::Regex::new(source) {
        Ok(regex) => Some(Pattern { source: source.to_string(), regex }),
        Err(_) => None,
    }
}

/// Calls `regex::Regex::captures`, each group converted to an owned string.
#[verifier::external_body]
fn captures(pattern: &Pattern, haystack: &str) -> (res: Option<Vec<Option<String>>>)
    ensures
        res.deep_view() == regex_captures(pattern.source(), haystack@),
{
    let caps = pattern.regex.captures(haystack)?;
    let mut groups = Vec::new();
    for m in caps.iter() {
        groups.push(match m {
            Some(m) => Some(m.as_str().to_string()),
            None => None,
        });
    }
    Some(groups)
}

/// Calls `regex::Regex::captures_iter`, each group converted to an owned
/// string.
#[verifier::external_body]
fn captures_iter(pattern: &Pattern, haystack: &str) -> (res: Vec<Vec<Option<String>>>)
    ensures
        res.deep_view() == regex_captures_iter(pattern.source(), haystack@),
{
    let mut all = Vec::new();
    for caps in pattern.regex.captures_iter(haystack) {
        let mut groups = Vec::new();
        for m in caps.iter() {
            groups.push(match m {
                Some(m) => Some(m.as_str().to_string()),
                None => None,
            });
        }
        all.push(groups);
    }
    all
}

// ---------------------------------------------------------------------------
// Play times
// ---------------------------------------------------------------------------

/// An app id in quotes, then a block that mentions `"Playtime"` and its value.
pub const PLAYTIME_PATTERN: &'static str = r#""(\d+)"\s+\{\s+[^}]*"Playtime"\s+"(\d+)""#;

/// The entry one match contributes: group 1 is the app id, group 2 the play
/// time, which must parse as a `u32`.
pub open spec fn playtime_entry(groups: Seq<Option<Seq<char>>>) -> Option<(Seq<char>, u32)> {
    if groups.len() >= 3 && groups[1] is Some && groups[2] is Some && parse_u32_spec(
        groups[2]->0,
    ) is Some {
        Some((groups[1]->0, parse_u32_spec(groups[2]->0)->0))
    } else {
        None
    }
}

/// The table that the matches build, a later match of an id replacing an
/// earlier one.
pub open spec fn playtimes_from(matches: Seq<Seq<Option<Seq<char>>>>) -> Map<Seq<char>, u32>
    decreases matches.len(),
{
    if matches.len() == 0 {
        Map::empty()
    } else {
        let m = playtimes_from(matches.drop_last());
        match playtime_entry(matches.last()) {
            Some((id, minutes)) => m.insert(id, minutes),
            None => m,
        }
    }
}

/// The match gives `id` a play time.
pub open spec fn gives_time_for(groups: Seq<Option<Seq<char>>>, id: Seq<char>) -> bool {
    playtime_entry(groups) is Some && (playtime_entry(groups)->0).0 == id
}

/// The play time a match gives.
pub open spec fn entry_minutes(groups: Seq<Option<Seq<char>>>) -> u32 {
    (playtime_entry(groups)->0).1
}

/// An app's entry in the table is the last match that gives it a play time:
/// the table lists exactly the ids some match gives a time, with the time of
/// the last such match.
pub proof fn lemma_playtimes_last_match_wins(matches: Seq<Seq<Option<Seq<char>>>>, id: Seq<char>)
    ensures
        playtimes_from(matches).contains_key(id) <==> exists|k: int|
            0 <= k < matches.len() && #[trigger] gives_time_for(matches[k], id),
        forall|k: int|
            0 <= k < matches.len() && #[trigger] gives_time_for(matches[k], id) && (forall|j: int|
                k < j < matches.len() ==> !#[trigger] gives_time_for(matches[j], id))
                ==> playtimes_from(matches)[id] == entry_minutes(matches[k]),
    decreases matches.len(),
{
    if matches.len() > 0 {
        let init = matches.drop_last();
        let n = matches.len() - 1;
        lemma_playtimes_last_match_wins(init, id);
        assert forall|k: int| 0 <= k < n implies #[trigger] matches[k] == init[k] by {}
        if playtimes_from(matches).contains_key(id) && !gives_time_for(matches[n], id) {
            let k = choose|k: int| 0 <= k < init.len() && #[trigger] gives_time_for(init[k], id);
            assert(matches[k] == init[k]);
        }
        if exists|k: int| 0 <= k < matches.len() && #[trigger] gives_time_for(matches[k], id) {
            let k = choose|k: int| 0 <= k < matches.len() && #[trigger] gives_time_for(matches[k], id);
            if k < n {
                assert(matches[k] == init[k]);
            }
        }
        assert forall|k: int|
            0 <= k < matches.len() && #[trigger] gives_time_for(matches[k], id) && (forall|j: int|
                k < j < matches.len() ==> !#[trigger] gives_time_for(matches[j], id))
                implies playtimes_from(matches)[id] == entry_minutes(matches[k]) by {
            if k < n {
                assert(!gives_time_for(matches[n], id));
                assert(matches[k] == init[k]);
                assert forall|j: int| k < j < init.len() implies !#[trigger] gives_time_for(init[j], id) by {
                    assert(matches[j] == init[j]);
                }
            }
        }
    }
}

/// A match whose app id and play time took part gives the id the decimal value
/// of its digits, when that fits in a `u32`.
pub proof fn lemma_playtime_entry_digits(groups: Seq<Option<Seq<char>>>, id: Seq<char>, d: Seq<char>)
    requires
        groups.len() >= 3,
        groups[1] == Some(id),
        groups[2] == Some(d),
        d.len() > 0,
        forall|i: int| 0 <= i < d.len() ==> '0' <= #[trigger] d[i] <= '9',
        decimal_value(d) <= u32::MAX,
    ensures
        playtime_entry(groups) == Some((id, decimal_value(d) as u32)),
{
    assert(d[0] != '+');
    assert(unsigned_digits(d) == d);
}

/// Builds the play-time table from the matches of [`PLAYTIME_PATTERN`].
pub fn playtimes_from_captures(matches: &Vec<Vec<Option<String>>>) -> (res: Playtimes)
    ensures
        res@ == playtimes_from(matches.deep_view()),
{
    let mut res = Playtimes::new();
    let mut i: usize = 0;
    while i < matches.len()
        invariant
            i <= matches.len(),
            res@ == playtimes_from(matches.deep_view().take(i as int)),
        decreases matches.len() - i,
    {
        let groups = &matches[i];
        assert(matches.deep_view().take(i + 1).drop_last() =~= matches.deep_view().take(i as int));
        assert(matches.deep_view().take(i + 1).last() == groups.deep_view());
        if groups.len() >= 3 {
            match (&groups[1], &groups[2]) {
                (Some(id), Some(minutes)) => {
                    match parse_u32(minutes.as_str()) {
                        Some(m) => {
                            res.insert(id.clone(), m);
                        },
                        None => {},
                    }
                },
                _ => {},
            }
        }
        i = i + 1;
    }
    assert(matches.deep_view().take(matches.len() as int) =~= matches.deep_view());
    res
}

/// The play time of each app in a `localconfig.vdf`. A pattern that the
/// engine refused would yield an empty table.
pub fn parse_playtimes_from_vdf(content: &str) -> (res: Playtimes)
    ensures
        regex_compiles(PLAYTIME_PATTERN@) ==> res@ == playtimes_from(
            regex_captures_iter(PLAYTIME_PATTERN@, content@),
        ),
        !regex_compiles(PLAYTIME_PATTERN@) ==> res@ == Map::<Seq<char>, u32>::empty(),
{
    match compile(PLAYTIME_PATTERN) {
        Some(re) => {
            let matches = captures_iter(&re, content);
            playtimes_from_captures(&matches)
        },
        None => Playtimes::new(),
    }
}

// ---------------------------------------------------------------------------
// Friends status
// ---------------------------------------------------------------------------

/// The persona state in the friends settings, with or without an escaped quote.
pub const PERSONA_PATTERN: &'static str = r#"ePersonaState\\?":\s*(\d+)"#;

/// Online unless the first match reports state `0` (offline) or `7`
/// (invisible); online too when nothing matches.
pub open spec fn persona_online(found: Option<Seq<Option<Seq<char>>>>) -> bool {
    match found {
        Some(groups) => !(groups.len() > 1 && groups[1] is Some && (groups[1]->0 == seq!['7']
            || groups[1]->0 == seq!['0'])),
        None => true,
    }
}

/// The status is offline exactly when the first match's state is `0` or `7`;
/// every other state, and no match, leaves the user online.
pub proof fn lemma_persona_offline_states(found: Option<Seq<Option<Seq<char>>>>)
    ensures
        !persona_online(found) <==> (found is Some && found->0.len() > 1 && (found->0[1] == Some(
            seq!['0'],
        ) || found->0[1] == Some(seq!['7']))),
{
}

/// Decides the friends status from the first match of [`PERSONA_PATTERN`].
pub fn persona_online_from_captures(found: &Option<Vec<Option<String>>>) -> (res: bool)
    ensures
        res == persona_online(found.deep_view()),
{
    match found {
        Some(groups) => {
            if groups.len() > 1 {
                match &groups[1] {
                    Some(state) => {
                        let invisible = "7".to_owned();
                        let offline = "0".to_owned();
                        proof {
                            reveal_strlit("7");
                            reveal_strlit("0");
                            assert(invisible@ =~= seq!['7']);
                            assert(offline@ =~= seq!['0']);
                        }
                        !(*state == invisible || *state == offline)
                    },
                    None => true,
                }
            } else {
                true
            }
        },
        None => true,
    }
}

/// Whether the friends settings in a `localconfig.vdf` leave the user online.
/// A pattern that the engine refused would leave the user online.
pub fn parse_persona_state_from_vdf(content: &str) -> (res: bool)
    ensures
        regex_compiles(PERSONA_PATTERN@) ==> res == persona_online(
            regex_captures(PERSONA_PATTERN@, content@),
        ),
        !regex_compiles(PERSONA_PATTERN@) ==> res,
{
    match compile(PERSONA_PATTERN) {
        Some(re) => {
            let found = captures(&re, content);
            persona_online_from_captures(&found)
        },
        None => true,
    }
}

// ---------------------------------------------------------------------------
// App manifests
// ---------------------------------------------------------------------------

/// The quoted app id of a manifest.
pub const APPID_PATTERN: &'static str = r#""appid"\s+"(\d+)""#;

/// The quoted name of a manifest.
pub const NAME_PATTERN: &'static str = r#""name"\s+"([^"]+)""#;

/// Group 1 of a match, when the match took part and has that group.
pub open spec fn group_one(found: Option<Seq<Option<Seq<char>>>>) -> Option<Seq<char>> {
    match found {
        Some(groups) => if groups.len() > 1 && groups[1] is Some {
            Some(groups[1]->0)
        } else {
            None
        },
        None => None,
    }
}

/// The id and the name of a manifest, from the first match of each pattern.
pub open spec fn acf_fields(
    id_found: Option<Seq<Option<Seq<char>>>>,
    name_found: Option<Seq<Option<Seq<char>>>>,
) -> Option<(Seq<char>, Seq<char>)> {
    match (group_one(id_found), group_one(name_found)) {
        (Some(id), Some(name)) => Some((id, name)),
        _ => None,
    }
}

/// What [`parse_acf_file`] returns for a manifest with these characters.
pub open spec fn parse_acf_spec(content: Seq<char>) -> Option<(Seq<char>, Seq<char>)> {
    if regex_compiles(APPID_PATTERN@) && regex_compiles(NAME_PATTERN@) {
        acf_fields(
            regex_captures(APPID_PATTERN@, content),
            regex_captures(NAME_PATTERN@, content),
        )
    } else {
        None
    }
}

fn group_one_exec(found: Option<Vec<Option<String>>>) -> (res: Option<String>)
    ensures
        res.deep_view() == group_one(found.deep_view()),
{
    match found {
        Some(groups) => {
            if groups.len() > 1 {
                match &groups[1] {
                    Some(g) => Some(g.clone()),
                    None => None,
                }
            } else {
                None
            }
        },
        None => None,
    }
}

/// Takes the id and the name of a manifest from the first match of
/// [`APPID_PATTERN`] and of [`NAME_PATTERN`].
pub fn acf_fields_from_captures(
    id_found: Option<Vec<Option<String>>>,
    name_found: Option<Vec<Option<String>>>,
) -> (res: Option<(String, String)>)
    ensures
        res.deep_view() == acf_fields(id_found.deep_view(), name_found.deep_view()),
{
    let id = group_one_exec(id_found);
    let name = group_one_exec(name_found);
    match (id, name) {
        (Some(id), Some(name)) => Some((id, name)),
        _ => None,
    }
}

/// The app id and the name in an `appmanifest_*.acf`, or `None` when either
/// is missing.
pub fn parse_acf_file(content: &str) -> (res: Option<(String, String)>)
    ensures
        res.deep_view() == parse_acf_spec(content@),
{
    let re_id = match compile(APPID_PATTERN) {
        Some(re) => re,
        None => return None,
    };
    let re_name = match compile(NAME_PATTERN) {
        Some(re) => re,
        None => return None,
    };
    let id_found = match captures(&re_id, content) {
        Some(found) => found,
        None => return None,
    };
    let name_found = match captures(&re_name, content) {
        Some(found) => found,
        None => return None,
    };
    acf_fields_from_captures(Some(id_found), Some(name_found))
}

} // verus!
