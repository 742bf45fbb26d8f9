//! Keeping the game library in step with what Steam has installed.

use vstd::prelude::*;

use crate::model::{Game, GameView, game_names, games_view};
use crate::order::{
    arrangement, insert_by_name, lemma_arrangement_is, lemma_arrangement_exists,
    names_view, sorted_by_name, indexes_into, key_before,
};
use vstd::string::StringSliceAdditionalSpecFns;

use crate::playtimes::Playtimes;
use crate::text::{
    chars_of, lemma_seq_lt_irreflexive, lemma_seq_lt_total, lemma_seq_lt_transitive, seq_lt,
};
use crate::vdf::{parse_acf_file, parse_acf_spec};

verus! {

// ---------------------------------------------------------------------------
// Merging a scan into the library
// ---------------------------------------------------------------------------

/// The last index before `end` of a game with this id, or -1.
pub open spec fn last_with_id(games: Seq<GameView>, end: int, id: Seq<char>) -> int
    decreases end,
{
    if end <= 0 {
        -1
    } else if games[end - 1].id == id {
        end - 1
    } else {
        last_with_id(games, end - 1, id)
    }
}

/// A scanned game keeps the hidden and favorite marks that the library gave
/// its id (the last entry of the library for it, when there are several).
pub open spec fn merged_game(existing: Seq<GameView>, g: GameView) -> GameView {
    let k = last_with_id(existing, existing.len() as int, g.id);
    if k >= 0 {
        GameView { hidden: existing[k].hidden, favorite: existing[k].favorite, ..g }
    } else {
        g
    }
}

/// The scanned games, in scan order, with the marks that the library had for
/// them; games missing from the scan are dropped.
pub fn merge_scanned_games(existing_games: &[Game], scanned_games: Vec<Game>) -> (res: Vec<Game>)
    ensures
        games_view(res@) == games_view(scanned_games@).map_values(
            |g: GameView| merged_game(games_view(existing_games@), g),
        ),
{
    let ghost ev = games_view(existing_games@);
    let mut updated_games: Vec<Game> = Vec::new();
    let mut i: usize = 0;
    while i < scanned_games.len()
        invariant
            i <= scanned_games.len(),
            ev == games_view(existing_games@),
            updated_games@.len() == i,
            forall|k: int|
                0 <= k < i ==> (#[trigger] updated_games@[k])@ == merged_game(
                    ev,
                    scanned_games@[k]@,
                ),
        decreases scanned_games.len() - i,
    {
        let mut game = scanned_games[i].clone();
        let mut j: usize = existing_games.len();
        while j > 0
            invariant
                j <= existing_games.len(),
                ev == games_view(existing_games@),
                last_with_id(ev, ev.len() as int, game.id@) == last_with_id(ev, j as int, game.id@),
            ensures
                last_with_id(ev, ev.len() as int, game.id@) == j - 1,
            decreases j,
        {
            if existing_games[j - 1].id == game.id {
                break;
            }
            j = j - 1;
        }
        if j > 0 {
            game.hidden = existing_games[j - 1].hidden;
            game.favorite = existing_games[j - 1].favorite;
        }
        updated_games.push(game);
        i = i + 1;
    }
    assert(games_view(updated_games@) =~= games_view(scanned_games@).map_values(
        |g: GameView| merged_game(ev, g),
    ));
    updated_games
}

/// A scan merged into an empty library is the scan itself.
pub proof fn lemma_merge_into_empty(scanned: Seq<GameView>)
    ensures
        scanned.map_values(|g: GameView| merged_game(Seq::<GameView>::empty(), g)) == scanned,
{
    assert(scanned.map_values(|g: GameView| merged_game(Seq::<GameView>::empty(), g)) =~= scanned);
}

/// Merging the same library a second time changes nothing.
pub proof fn lemma_merge_idempotent(existing: Seq<GameView>, scanned: Seq<GameView>)
    ensures
        ({
            let once = scanned.map_values(|g: GameView| merged_game(existing, g));
            once.map_values(|g: GameView| merged_game(existing, g)) == once
        }),
{
    let once = scanned.map_values(|g: GameView| merged_game(existing, g));
    assert(once.map_values(|g: GameView| merged_game(existing, g)) =~= once);
}

/// Merging keeps the scan's games, in scan order, with their ids, names and
/// play times; only the hidden and favorite marks can change.
pub proof fn lemma_merge_keeps_scan(existing: Seq<GameView>, scanned: Seq<GameView>, i: int)
    requires
        0 <= i < scanned.len(),
    ensures
        ({
            let m = scanned.map_values(|g: GameView| merged_game(existing, g))[i];
            &&& m.id == scanned[i].id
            &&& m.name == scanned[i].name
            &&& m.playtime == scanned[i].playtime
        }),
{
}

/// What [`last_with_id`] finds: the last game before `end` with the id.
pub proof fn lemma_last_with_id(games: Seq<GameView>, end: int, id: Seq<char>)
    requires
        end <= games.len(),
    ensures
        last_with_id(games, end, id) >= 0 ==> 0 <= last_with_id(games, end, id) < end
            && games[last_with_id(games, end, id)].id == id && forall|j: int|
            last_with_id(games, end, id) < j < end ==> #[trigger] games[j].id != id,
        last_with_id(games, end, id) < 0 ==> forall|j: int| 0 <= j < end ==> #[trigger] games[j].id != id,
    decreases end,
{
    if end > 0 && games[end - 1].id != id {
        lemma_last_with_id(games, end - 1, id);
    }
}

/// A merged game takes its hidden and favorite marks from the last library
/// entry with its id, when there is one, and keeps its own otherwise;
/// everything else comes from the scan.
pub proof fn lemma_merge_takes_last_marks(existing: Seq<GameView>, scanned: Seq<GameView>, i: int)
    requires
        0 <= i < scanned.len(),
    ensures
        ({
            let m = scanned.map_values(|g: GameView| merged_game(existing, g));
            let g = scanned[i];
            &&& m.len() == scanned.len()
            &&& (exists|k: int| 0 <= k < existing.len() && #[trigger] existing[k].id == g.id) ==> exists|
                k: int,
            |
                0 <= k < existing.len() && #[trigger] existing[k].id == g.id && (forall|j: int|
                    k < j < existing.len() ==> #[trigger] existing[j].id != g.id) && m[i] == (GameView {
                    hidden: existing[k].hidden,
                    favorite: existing[k].favorite,
                    ..g
                })
            &&& !(exists|k: int| 0 <= k < existing.len() && #[trigger] existing[k].id == g.id) ==> m[i] == g
        }),
{
    let g = scanned[i];
    lemma_last_with_id(existing, existing.len() as int, g.id);
    let k = last_with_id(existing, existing.len() as int, g.id);
    if k >= 0 {
        assert(existing[k].id == g.id);
    }
}

// ---------------------------------------------------------------------------
// Play times
// ---------------------------------------------------------------------------

/// A game with the play time that the table records for its id, if any.
pub open spec fn refreshed_game(playtimes: Map<Seq<char>, u32>, g: GameView) -> GameView {
    if playtimes.contains_key(g.id) {
        GameView { playtime: playtimes[g.id], ..g }
    } else {
        g
    }
}

/// Takes each game's play time from the table; games it does not list keep
/// theirs.
pub fn refresh_playtimes(games: &mut [Game], playtimes: &Playtimes)
    ensures
        games_view(final(games)@) == games_view(old(games)@).map_values(
            |g: GameView| refreshed_game(playtimes@, g),
        ),
{
    let ghost old_view = games_view(games@);
    let mut i: usize = 0;
    while i < games.len()
        invariant
            i <= games.len(),
            games@.len() == old_view.len(),
            forall|k: int|
                0 <= k < i ==> (#[trigger] games@[k])@ == refreshed_game(playtimes@, old_view[k]),
            forall|k: int| i <= k < games@.len() ==> (#[trigger] games@[k])@ == old_view[k],
        decreases games.len() - i,
    {
        match playtimes.get(games[i].id.as_str()) {
            Some(pt) => {
                games[i].playtime = *pt;
            },
            None => {},
        }
        i = i + 1;
    }
    assert(games_view(games@) =~= old_view.map_values(|g: GameView| refreshed_game(playtimes@, g)));
}

/// Refreshing gives every game whose id the table lists the table's play time,
/// whatever its marks, leaves the others' as they were, and changes nothing
/// else.
pub proof fn lemma_refresh_sets_playtimes(
    games: Seq<GameView>,
    playtimes: Map<Seq<char>, u32>,
    i: int,
)
    requires
        0 <= i < games.len(),
    ensures
        ({
            let r = games.map_values(|g: GameView| refreshed_game(playtimes, g));
            &&& r.len() == games.len()
            &&& playtimes.contains_key(games[i].id) ==> r[i].playtime == playtimes[games[i].id]
            &&& !playtimes.contains_key(games[i].id) ==> r[i].playtime == games[i].playtime
            &&& r[i] == (GameView { playtime: r[i].playtime, ..games[i] })
        }),
{
}

// ---------------------------------------------------------------------------
// Sorting by name
// ---------------------------------------------------------------------------

pub open spec fn every_index() -> spec_fn(usize) -> bool {
    |i: usize| true
}

/// The games sorted by name, games with equal names in the order they had
/// (a stable sort).
pub open spec fn sorted_games(games: Seq<GameView>) -> Seq<GameView> {
    arrangement(game_names(games), games.len(), every_index()).map_values(
        |i: usize| games[i as int],
    )
}

/// Sorts the games by name, keeping the order of games with equal names.
pub fn sort_games_by_name(games: &mut Vec<Game>)
    ensures
        games_view(final(games)@) == sorted_games(games_view(old(games)@)),
{
    let ghost gv = games_view(games@);
    let ghost gnames = game_names(gv);
    let n = games.len();
    let mut names: Vec<Vec<char>> = Vec::new();
    let mut i: usize = 0;
    while i < n
        invariant
            n == games.len(),
            i <= n,
            names@.len() == i,
            forall|k: int| 0 <= k < i ==> (#[trigger] names@[k])@ == games@[k].name@,
        decreases n - i,
    {
        names.push(chars_of(games[i].name.as_str()));
        i = i + 1;
    }
    assert(names_view(names@) =~= gnames);
    let mut order: Vec<usize> = Vec::new();
    let mut i: usize = 0;
    while i < n
        invariant
            n == games.len(),
            n == gv.len(),
            i <= n,
            names@.len() == n,
            names_view(names@) == gnames,
            sorted_by_name(gnames, order@),
            indexes_into(gnames, order@),
            order@.len() == i,
            forall|x: usize| order@.contains(x) <==> (x < i && (every_index())(x)),
        decreases n - i,
    {
        insert_by_name(&names, &mut order, i);
        i = i + 1;
    }
    proof {
        lemma_arrangement_is(gnames, n as nat, every_index(), order@);
    }
    let mut sorted: Vec<Game> = Vec::new();
    let mut k: usize = 0;
    while k < order.len()
        invariant
            k <= order.len(),
            n == games.len(),
            gv == games_view(games@),
            indexes_into(gnames, order@),
            gnames.len() == n,
            sorted@.len() == k,
            forall|j: int| 0 <= j < k ==> (#[trigger] sorted@[j])@ == gv[order@[j] as int],
        decreases order.len() - k,
    {
        sorted.push(games[order[k]].clone());
        k = k + 1;
    }
    assert(games_view(sorted@) =~= order@.map_values(|i: usize| gv[i as int]));
    *games = sorted;
}

/// A sorted list is sorted by name: no game's name comes before that of a game
/// ahead of it, and the list holds each game of the library once.
pub proof fn lemma_sorted_games_shape(games: Seq<GameView>)
    requires
        games.len() <= usize::MAX,
    ensures
        sorted_games(games).len() == games.len(),
        forall|j: int, k: int|
            0 <= j < k < games.len() ==> !seq_lt(
                #[trigger] sorted_games(games)[k].name,
                #[trigger] sorted_games(games)[j].name,
            ),
        exists|order: Seq<usize>|
            order.len() == games.len() && (forall|i: usize| i < games.len() ==> order.contains(i))
                && (forall|j: int| 0 <= j < games.len() ==> #[trigger] sorted_games(games)[j] == games[order[j] as int])
                && (forall|j: int, k: int|
                0 <= j < k < games.len() && games[order[j] as int].name == games[order[k] as int].name
                    ==> #[trigger] order[j] < #[trigger] order[k]),
{
    let names = game_names(games);
    lemma_arrangement_exists(names, games.len(), every_index());
    let order = arrangement(names, games.len(), every_index());
    let s = sorted_games(games);
    assert forall|i: usize| i < games.len() implies order.contains(i) by {
        assert((every_index())(i));
    }
    assert forall|i: usize| i < games.len() implies #[trigger] (every_index())(i) by {}
    assert forall|j: int, k: int| 0 <= j < k < games.len() implies !seq_lt(
        #[trigger] s[k].name,
        #[trigger] s[j].name,
    ) by {
        assert(key_before(names, order[j], order[k]));
        assert(order.contains(order[j]) && order.contains(order[k]));
        if seq_lt(s[k].name, s[j].name) {
            if seq_lt(s[j].name, s[k].name) {
                lemma_seq_lt_transitive(s[j].name, s[k].name, s[j].name);
                lemma_seq_lt_irreflexive(s[j].name);
            } else {
                lemma_seq_lt_irreflexive(s[j].name);
            }
        }
    }
    assert(forall|j: int| 0 <= j < games.len() ==> #[trigger] s[j] == games[order[j] as int]);
    assert forall|j: int, k: int|
        0 <= j < k < games.len() && games[order[j] as int].name == games[order[k] as int].name
            implies #[trigger] order[j] < #[trigger] order[k] by {
        assert(key_before(names, order[j], order[k]));
        lemma_seq_lt_irreflexive(games[order[j] as int].name);
    }
}

/// Sorting a sorted list changes nothing.
pub proof fn lemma_sort_idempotent(games: Seq<GameView>)
    requires
        games.len() <= usize::MAX,
    ensures
        sorted_games(sorted_games(games)) == sorted_games(games),
{
    let s = sorted_games(games);
    lemma_sorted_games_shape(games);
    let n = s.len();
    let names = game_names(s);
    let id = Seq::new(n, |i: int| i as usize);
    assert forall|j: int, k: int| 0 <= j < k < id.len() implies key_before(
        names,
        #[trigger] id[j],
        #[trigger] id[k],
    ) by {
        assert(!seq_lt(s[k].name, s[j].name));
        if s[j].name != s[k].name {
            lemma_seq_lt_total(s[j].name, s[k].name);
        }
    }
    assert forall|x: usize| id.contains(x) <==> (x < n && (every_index())(x)) by {
        if x < n {
            assert(id[x as int] == x);
        }
    }
    lemma_arrangement_is(names, n, every_index(), id);
    assert(sorted_games(s) =~= s);
}

// ---------------------------------------------------------------------------
// Loading the library
// ---------------------------------------------------------------------------

/// The scanned games with the marks of the library.
pub open spec fn merge_view(existing: Seq<GameView>, scanned: Seq<GameView>) -> Seq<GameView> {
    scanned.map_values(|g: GameView| merged_game(existing, g))
}

/// The games with the play times of the table.
pub open spec fn refresh_view(games: Seq<GameView>, playtimes: Map<Seq<char>, u32>) -> Seq<
    GameView,
> {
    games.map_values(|g: GameView| refreshed_game(playtimes, g))
}

/// The library after a start-up sync, and what it asks to be written back.
pub struct Synced {
    /// The library as shown: merged, with fresh play times, sorted by name.
    pub games: Vec<Game>,
    /// The merged library to write back to its file, when a scan took place.
    pub to_save: Option<Vec<Game>>,
}

/// The library loaded from its file, with the marks carried over to a scan of
/// the installed games (when the scan succeeded), the play times of the table
/// (when it could be read) and the games sorted by name.
pub fn sync_and_load_games(
    loaded: Vec<Game>,
    scanned: Option<Vec<Game>>,
    playtimes: Option<&Playtimes>,
) -> (res: Synced)
    ensures
        ({
            let merged = match scanned {
                Some(s) => merge_view(games_view(loaded@), games_view(s@)),
                None => games_view(loaded@),
            };
            let refreshed = match playtimes {
                Some(p) => refresh_view(merged, p@),
                None => merged,
            };
            &&& res.to_save is Some <==> scanned is Some
            &&& (res.to_save matches Some(v) ==> games_view(v@) == merged)
            &&& games_view(res.games@) == sorted_games(refreshed)
        }),
{
    let mut games = loaded;
    let mut to_save: Option<Vec<Game>> = None;
    match scanned {
        Some(s) => {
            games = merge_scanned_games(games.as_slice(), s);
            to_save = Some(clone_games(&games));
        },
        None => {},
    }
    match playtimes {
        Some(p) => refresh_playtimes(&mut games, p),
        None => {},
    }
    sort_games_by_name(&mut games);
    Synced { games, to_save }
}

/// A copy of each game.
pub fn clone_games(games: &Vec<Game>) -> (res: Vec<Game>)
    ensures
        games_view(res@) == games_view(games@),
{
    let mut res: Vec<Game> = Vec::new();
    let mut i: usize = 0;
    while i < games.len()
        invariant
            i <= games.len(),
            res@.len() == i,
            forall|k: int| 0 <= k < i ==> (#[trigger] res@[k])@ == games@[k]@,
        decreases games.len() - i,
    {
        res.push(games[i].clone());
        i = i + 1;
    }
    assert(games_view(res@) =~= games_view(games@));
    res
}

// ---------------------------------------------------------------------------
// Scanning the installed games
// ---------------------------------------------------------------------------

/// The games that a sequence of manifests describe, with the play times of
/// the table (0 for an app it does not list); manifests without an id or a
/// name are skipped.
pub open spec fn acf_games(contents: Seq<Seq<char>>, playtimes: Map<Seq<char>, u32>) -> Seq<
    GameView,
>
    decreases contents.len(),
{
    if contents.len() == 0 {
        seq![]
    } else {
        let earlier = acf_games(contents.drop_last(), playtimes);
        match parse_acf_spec(contents.last()) {
            Some((id, name)) => earlier.push(
                GameView {
                    name,
                    id,
                    hidden: false,
                    playtime: if playtimes.contains_key(id) {
                        playtimes[id]
                    } else {
                        0
                    },
                    favorite: false,
                },
            ),
            None => earlier,
        }
    }
}

/// The installed games, from the contents of the app manifests in the order
/// they were read.
pub fn games_from_acf_files(contents: &Vec<String>, playtimes: &Playtimes) -> (res: Vec<Game>)
    ensures
        games_view(res@) == acf_games(contents.deep_view(), playtimes@),
{
    let mut games: Vec<Game> = Vec::new();
    let mut i: usize = 0;
    while i < contents.len()
        invariant
            i <= contents.len(),
            games_view(games@) == acf_games(contents.deep_view().take(i as int), playtimes@),
        decreases contents.len() - i,
    {
        assert(contents.deep_view().take(i + 1).drop_last() =~= contents.deep_view().take(i as int));
        assert(contents.deep_view().take(i + 1).last() == contents@[i as int]@);
        match parse_acf_file(contents[i].as_str()) {
            Some((id, name)) => {
                let playtime = match playtimes.get(id.as_str()) {
                    Some(pt) => *pt,
                    None => 0,
                };
                let ghost before = games_view(games@);
                games.push(Game { name, id, hidden: false, playtime, favorite: false });
                assert(games_view(games@) =~= before.push(games@.last()@));
            },
            None => {},
        }
        i = i + 1;
    }
    assert(contents.deep_view().take(contents.len() as int) =~= contents.deep_view());
    games
}

// ---------------------------------------------------------------------------
// Files of the launcher
// ---------------------------------------------------------------------------

/// The path of `file` inside the directory `dir`, as bytes: one `/` goes
/// between them unless `dir` is empty or already ends in `/`.
pub open spec fn path_in(dir: Seq<u8>, file: Seq<u8>) -> Seq<u8> {
    if dir.len() == 0 || dir.last() == 0x2Fu8 {
        dir + file
    } else {
        dir + seq![0x2Fu8] + file
    }
}

fn join_path(dir: &[u8], file: &str) -> (res: Vec<u8>)
    ensures
        res@ == path_in(dir@, file.spec_bytes()),
{
    let mut res: Vec<u8> = Vec::new();
    let mut i: usize = 0;
    while i < dir.len()
        invariant
            i <= dir.len(),
            res@ == dir@.take(i as int),
        decreases dir.len() - i,
    {
        res.push(dir[i]);
        i = i + 1;
        assert(res@ =~= dir@.take(i as int));
    }
    assert(dir@.take(dir.len() as int) =~= dir@);
    if dir.len() > 0 && dir[dir.len() - 1] != 0x2Fu8 {
        res.push(0x2Fu8);
    }
    let ghost prefix = res@;
    let fb = file.as_bytes();
    let mut j: usize = 0;
    while j < fb.len()
        invariant
            j <= fb.len(),
            res@ == prefix + fb@.take(j as int),
        decreases fb.len() - j,
    {
        res.push(fb[j]);
        j = j + 1;
        assert(res@ =~= prefix + fb@.take(j as int));
    }
    assert(fb@.take(fb.len() as int) =~= fb@);
    res
}

/// The library file, `games.json` in the configuration directory (paths as
/// the bytes that the system gives them).
pub fn get_games_path(config_dir: &[u8]) -> (res: Vec<u8>)
    ensures
        res@ == path_in(config_dir@, "games.json".spec_bytes()),
{
    join_path(config_dir, "games.json")
}

/// The state file, `state.json` in the configuration directory.
pub fn get_state_path(config_dir: &[u8]) -> (res: Vec<u8>)
    ensures
        res@ == path_in(config_dir@, "state.json".spec_bytes()),
{
    join_path(config_dir, "state.json")
}

} // verus!
