use vstd::prelude::*;

use crate::library::clone_games;
use crate::model::{Game, GameView, game_names, games_view};
use crate::order::{
    arrangement, insert_by_name, lemma_arrangement_is, lemma_arrangement_exists,
    lemma_sorted_distinct, names_view, sorted_by_name, indexes_into, key_before,
};
use crate::text::{
    chars_of, contains_chars, lemma_contains_in_empty, lemma_contains_transitive, lowercase,
    pop_char, push_char, seq_contains, to_lowercase,
};

verus! {

// ---------------------------------------------------------------------------
// State, effects and their mathematical values
// ---------------------------------------------------------------------------

/// The launcher's state: the library, the selection and the modes.
#[derive(Debug)]
pub struct App {
    pub games: Vec<Game>,
    /// Index into `games` of the selected game.
    pub cursor: usize,
    /// Whether key presses are typed into the search query.
    pub searching: bool,
    pub search_query: String,
    /// Whether the list shows the hidden games instead of the others.
    pub show_hidden: bool,
    pub quit_after_launch: bool,
    pub steam_online: bool,
    pub should_quit: bool,
}

/// The mathematical value of an [`App`].
#[verifier::ext_equal]
pub struct AppView {
    pub games: Seq<GameView>,
    pub cursor: usize,
    pub searching: bool,
    pub query: Seq<char>,
    pub show_hidden: bool,
    pub quit_after_launch: bool,
    pub steam_online: bool,
    pub should_quit: bool,
}

impl Clone for App {
    fn clone(&self) -> (res: App)
        ensures
            res@ == self@,
    {
        App {
            games: clone_games(&self.games),
            cursor: self.cursor,
            searching: self.searching,
            search_query: self.search_query.clone(),
            show_hidden: self.show_hidden,
            quit_after_launch: self.quit_after_launch,
            steam_online: self.steam_online,
            should_quit: self.should_quit,
        }
    }
}

impl View for App {
    type V = AppView;

    open spec fn view(&self) -> AppView {
        AppView {
            games: games_view(self.games@),
            cursor: self.cursor,
            searching: self.searching,
            query: self.search_query@,
            show_hidden: self.show_hidden,
            quit_after_launch: self.quit_after_launch,
            steam_online: self.steam_online,
            should_quit: self.should_quit,
        }
    }
}

/// Work that a transition asks of the world outside the state: the caller
/// performs the effects in order.
#[derive(Debug, PartialEq, Eq)]
pub enum Effect {
    /// Record this game id as the last selected one.
    SaveState(String),
    /// Write the library (the `games` of the state) back to its file.
    SaveGames,
    /// Ask Steam to go online (`true`) or offline (`false`).
    SetSteamStatus(bool),
    /// Ask Steam to start the game with this id.
    LaunchGame(String),
}

/// The mathematical value of an [`Effect`].
pub enum EffectView {
    SaveState(Seq<char>),
    SaveGames,
    SetSteamStatus(bool),
    LaunchGame(Seq<char>),
}

impl View for Effect {
    type V = EffectView;

    open spec fn view(&self) -> EffectView {
        match self {
            Effect::SaveState(id) => EffectView::SaveState(id@),
            Effect::SaveGames => EffectView::SaveGames,
            Effect::SetSteamStatus(b) => EffectView::SetSteamStatus(*b),
            Effect::LaunchGame(id) => EffectView::LaunchGame(id@),
        }
    }
}

pub open spec fn effects_view(effects: Seq<Effect>) -> Seq<EffectView> {
    effects.map_values(|e: Effect| e@)
}

// ---------------------------------------------------------------------------
// The visible list
// ---------------------------------------------------------------------------

/// A game is listed under an already lowered query when it belongs to the
/// current view (hidden games in the hidden view, the others otherwise) and,
/// unless the lowered query is empty, its lowered name contains it.
pub open spec fn listed_with(
    g: GameView,
    show_hidden: bool,
    lowered_name: Seq<char>,
    lowered_query: Seq<char>,
) -> bool {
    &&& g.hidden == show_hidden
    &&& (lowered_query.len() == 0 || seq_contains(lowered_name, lowered_query))
}

/// A game is listed when it belongs to the current view and, when a query is
/// typed, its name contains the query, both compared in lower case (a string
/// lowers to the empty one exactly when it is empty).
pub open spec fn is_listed(g: GameView, show_hidden: bool, query: Seq<char>) -> bool {
    listed_with(g, show_hidden, lowercase(g.name), lowercase(query))
}

/// The lowered names of the games.
pub open spec fn lowered_names(games: Seq<GameView>) -> Seq<Seq<char>> {
    games.map_values(|g: GameView| lowercase(g.name))
}

pub open spec fn listed_favorite_with(
    games: Seq<GameView>,
    show_hidden: bool,
    names: Seq<Seq<char>>,
    query: Seq<char>,
) -> spec_fn(usize) -> bool {
    |i: usize| listed_with(games[i as int], show_hidden, names[i as int], query) && games[i as int].favorite
}

pub open spec fn listed_other_with(
    games: Seq<GameView>,
    show_hidden: bool,
    names: Seq<Seq<char>>,
    query: Seq<char>,
) -> spec_fn(usize) -> bool {
    |i: usize| listed_with(games[i as int], show_hidden, names[i as int], query) && !games[i as int].favorite
}

/// The order in which the list shows the games, given each game's lowered
/// name and the lowered query: the listed favorites by name, then the other
/// listed games by name; equal names keep their library order.
pub open spec fn order_with(
    games: Seq<GameView>,
    show_hidden: bool,
    names: Seq<Seq<char>>,
    query: Seq<char>,
) -> Seq<usize> {
    arrangement(game_names(games), games.len(), listed_favorite_with(games, show_hidden, names, query))
        + arrangement(
        game_names(games),
        games.len(),
        listed_other_with(games, show_hidden, names, query),
    )
}

/// The order in which the list shows the games of a state.
pub open spec fn visual_order(v: AppView) -> Seq<usize> {
    order_with(v.games, v.show_hidden, lowered_names(v.games), lowercase(v.query))
}

/// No entry occurs twice in `s`.
pub open spec fn distinct(s: Seq<usize>) -> bool {
    forall|j: int, k: int| 0 <= j < s.len() && 0 <= k < s.len() && j != k ==> s[j] != s[k]
}

/// The list shows each listed game exactly once, favorites first, and within
/// the favorites and within the others by name, equal names in library order.
pub proof fn lemma_order_with_shape(
    games: Seq<GameView>,
    show_hidden: bool,
    lnames: Seq<Seq<char>>,
    query: Seq<char>,
)
    requires
        games.len() <= usize::MAX,
    ensures
        ({
            let s = order_with(games, show_hidden, lnames, query);
            &&& distinct(s)
            &&& forall|x: usize| #[trigger] s.contains(x) <==> (x < games.len() && listed_with(
                games[x as int],
                show_hidden,
                lnames[x as int],
                query,
            ))
            &&& forall|j: int| 0 <= j < s.len() ==> #[trigger] s[j] < games.len()
            &&& forall|j: int, k: int|
                0 <= j < k < s.len() && games[s[k] as int].favorite ==> games[s[j] as int].favorite
            &&& forall|j: int, k: int|
                0 <= j < k < s.len() && games[s[j] as int].favorite == games[s[k] as int].favorite
                    ==> key_before(game_names(games), #[trigger] s[j], #[trigger] s[k])
        }),
{
    let names = game_names(games);
    let n = games.len();
    let fav = listed_favorite_with(games, show_hidden, lnames, query);
    let oth = listed_other_with(games, show_hidden, lnames, query);
    lemma_arrangement_exists(names, n, fav);
    lemma_arrangement_exists(names, n, oth);
    let f = arrangement(names, n, fav);
    let o = arrangement(names, n, oth);
    let s = order_with(games, show_hidden, lnames, query);
    assert(s == f + o);
    assert forall|j: int| 0 <= j < s.len() implies #[trigger] s[j] < n && (if j < f.len() {
        fav(s[j])
    } else {
        oth(s[j])
    }) by {
        if j < f.len() {
            assert(s[j] == f[j]);
            assert(f.contains(f[j]));
        } else {
            assert(s[j] == o[j - f.len()]);
            assert(o.contains(o[j - f.len()]));
        }
    }
    assert forall|j: int, k: int| 0 <= j < s.len() && 0 <= k < s.len() && j != k implies s[j]
        != s[k] by {
        if j < f.len() && k < f.len() {
            lemma_sorted_distinct(names, f, j, k);
        } else if j >= f.len() && k >= f.len() {
            lemma_sorted_distinct(names, o, j - f.len(), k - f.len());
        }
    }
    assert forall|x: usize| #[trigger] s.contains(x) <==> (x < n && listed_with(
        games[x as int],
        show_hidden,
        lnames[x as int],
        query,
    )) by {
        if s.contains(x) {
            let j = choose|j: int| 0 <= j < s.len() && s[j] == x;
        }
        if x < n && listed_with(games[x as int], show_hidden, lnames[x as int], query) {
            if games[x as int].favorite {
                assert(f.contains(x));
                let j = choose|j: int| 0 <= j < f.len() && f[j] == x;
                assert(s[j] == x);
            } else {
                assert(o.contains(x));
                let j = choose|j: int| 0 <= j < o.len() && o[j] == x;
                assert(s[j + f.len()] == x);
            }
        }
    }
    assert forall|j: int, k: int|
        0 <= j < k < s.len() && games[s[k] as int].favorite
            == games[s[j] as int].favorite implies key_before(
        names,
        #[trigger] s[j],
        #[trigger] s[k],
    ) by {
        if k < f.len() {
            assert(s[j] == f[j] && s[k] == f[k]);
        } else if j >= f.len() {
            assert(s[j] == o[j - f.len()] && s[k] == o[k - f.len()]);
        }
    }
}

/// The list of a state shows each listed game exactly once, favorites first,
/// and within the favorites and within the others by name, equal names in
/// library order.
pub proof fn lemma_visual_order_shape(v: AppView)
    requires
        v.games.len() <= usize::MAX,
    ensures
        distinct(visual_order(v)),
        forall|x: usize| #[trigger] visual_order(v).contains(x) <==> (x < v.games.len()
            && is_listed(v.games[x as int], v.show_hidden, v.query)),
        forall|j: int| 0 <= j < visual_order(v).len() ==> #[trigger] visual_order(v)[j] < v.games.len(),
        forall|j: int, k: int|
            0 <= j < k < visual_order(v).len() && v.games[visual_order(v)[k] as int].favorite
                ==> v.games[visual_order(v)[j] as int].favorite,
        forall|j: int, k: int|
            0 <= j < k < visual_order(v).len() && v.games[visual_order(v)[j] as int].favorite
                == v.games[visual_order(v)[k] as int].favorite ==> key_before(
                game_names(v.games),
                #[trigger] visual_order(v)[j],
                #[trigger] visual_order(v)[k],
            ),
{
    lemma_order_with_shape(v.games, v.show_hidden, lowered_names(v.games), lowercase(v.query));
    let s = visual_order(v);
    assert forall|x: usize| #[trigger] s.contains(x) <==> (x < v.games.len() && is_listed(
        v.games[x as int],
        v.show_hidden,
        v.query,
    )) by {
        if x < v.games.len() {
            assert(lowered_names(v.games)[x as int] == lowercase(v.games[x as int].name));
        }
    }
}

/// The position of `x` in a sequence without repeats is the one where it is found.
pub proof fn lemma_index_of_distinct(s: Seq<usize>, j: int)
    requires
        distinct(s),
        0 <= j < s.len(),
    ensures
        s.contains(s[j]),
        s.index_of(s[j]) == j,
{
    assert(s.contains(s[j]));
}

// ---------------------------------------------------------------------------
// Transitions, as functions of the state
// ---------------------------------------------------------------------------

/// The id that the state file records for the current selection, if any.
pub open spec fn saved_id(v: AppView) -> Option<Seq<char>> {
    if v.cursor < v.games.len() {
        Some(v.games[v.cursor as int].id)
    } else {
        None
    }
}

/// The effect that records the selection, when there is one.
pub open spec fn save_effects(v: AppView) -> Seq<EffectView> {
    match saved_id(v) {
        Some(id) => seq![EffectView::SaveState(id)],
        None => seq![],
    }
}

pub open spec fn with_cursor(v: AppView, c: usize) -> AppView {
    AppView { cursor: c, ..v }
}

/// The entry after the selection in `s`, wrapping around; the first entry when
/// the selection is not in `s`.
pub open spec fn next_target(s: Seq<usize>, c: usize) -> usize {
    if s.contains(c) && s.index_of(c) + 1 < s.len() {
        s[s.index_of(c) + 1]
    } else {
        s[0]
    }
}

/// The entry before the selection in `s`, wrapping around; the last entry when
/// the selection is not in `s`.
pub open spec fn prev_target(s: Seq<usize>, c: usize) -> usize {
    if s.contains(c) && s.index_of(c) > 0 {
        s[s.index_of(c) - 1]
    } else {
        s[s.len() - 1]
    }
}

/// Moving down the list.
pub open spec fn next_item_step(v: AppView) -> (AppView, Seq<EffectView>) {
    let s = visual_order(v);
    if s.len() == 0 {
        (v, seq![])
    } else {
        let w = with_cursor(v, next_target(s, v.cursor));
        (w, save_effects(w))
    }
}

/// Moving up the list.
pub open spec fn prev_item_step(v: AppView) -> (AppView, Seq<EffectView>) {
    let s = visual_order(v);
    if s.len() == 0 {
        (v, seq![])
    } else {
        let w = with_cursor(v, prev_target(s, v.cursor));
        (w, save_effects(w))
    }
}

/// Selecting the first entry of the list (index 0 when the list is empty).
pub open spec fn snap_step(v: AppView) -> (AppView, Seq<EffectView>) {
    let s = visual_order(v);
    let w = with_cursor(v, if s.len() > 0 { s[0] } else { 0 });
    (w, save_effects(w))
}

/// The first index at or after `from` whose game has the given hidden flag,
/// or -1.
pub open spec fn first_from(games: Seq<GameView>, from: int, hidden: bool) -> int
    decreases games.len() - from,
{
    if from >= games.len() {
        -1
    } else if games[from].hidden == hidden {
        from
    } else {
        first_from(games, from + 1, hidden)
    }
}

/// The last index before `end` whose game has the given hidden flag, or -1.
pub open spec fn last_before(games: Seq<GameView>, end: int, hidden: bool) -> int
    decreases end,
{
    if end <= 0 {
        -1
    } else if games[end - 1].hidden == hidden {
        end - 1
    } else {
        last_before(games, end - 1, hidden)
    }
}

/// The first index at or after `from` of a game that is not hidden and has
/// this id, or -1.
pub open spec fn first_with_id(games: Seq<GameView>, from: int, id: Seq<char>) -> int
    decreases games.len() - from,
{
    if from >= games.len() {
        -1
    } else if games[from].id == id && !games[from].hidden {
        from
    } else {
        first_with_id(games, from + 1, id)
    }
}

/// Where the selection goes once the game at `c` left the view: the next game
/// of the view after `c`, else the last one before it, else index 0.
pub open spec fn hide_target(games: Seq<GameView>, c: int, show_hidden: bool) -> usize {
    let f = first_from(games, c + 1, show_hidden);
    if f >= 0 {
        f as usize
    } else {
        let b = last_before(games, c, show_hidden);
        if b >= 0 {
            b as usize
        } else {
            0
        }
    }
}

pub open spec fn flip_hidden(games: Seq<GameView>, c: int) -> Seq<GameView> {
    games.update(c, GameView { hidden: !games[c].hidden, ..games[c] })
}

pub open spec fn flip_favorite(games: Seq<GameView>, c: int) -> Seq<GameView> {
    games.update(c, GameView { favorite: !games[c].favorite, ..games[c] })
}

/// Marking the selected game as a favorite, or no longer.
pub open spec fn toggle_favorite_step(v: AppView) -> (AppView, Seq<EffectView>) {
    if v.cursor < v.games.len() {
        (AppView { games: flip_favorite(v.games, v.cursor as int), ..v }, seq![EffectView::SaveGames])
    } else {
        (v, seq![])
    }
}

/// Hiding the selected game, or showing it again; the selection then moves to
/// a game that stays in the view.
pub open spec fn toggle_hidden_step(v: AppView) -> (AppView, Seq<EffectView>) {
    if v.cursor < v.games.len() {
        let games = flip_hidden(v.games, v.cursor as int);
        let w = AppView {
            games,
            cursor: hide_target(games, v.cursor as int, v.show_hidden),
            ..v
        };
        (w, seq![EffectView::SaveGames] + save_effects(w))
    } else {
        (v, seq![])
    }
}

/// Switching between the hidden games and the others; the selection goes to
/// the first game of the new view in library order.
pub open spec fn toggle_view_mode_step(v: AppView) -> (AppView, Seq<EffectView>) {
    let show_hidden = !v.show_hidden;
    let f = first_from(v.games, 0, show_hidden);
    let w = AppView { show_hidden, cursor: if f >= 0 { f as usize } else { 0 }, ..v };
    (w, save_effects(w))
}

/// Switching Steam between online and offline.
pub open spec fn toggle_steam_status_step(v: AppView) -> (AppView, Seq<EffectView>) {
    (
        AppView { steam_online: !v.steam_online, ..v },
        seq![EffectView::SetSteamStatus(!v.steam_online)],
    )
}

/// Starting the selected game; the launcher then quits when asked to.
pub open spec fn launch_step(v: AppView) -> (AppView, Seq<EffectView>) {
    if v.games.len() == 0 || v.cursor >= v.games.len() {
        (v, seq![])
    } else {
        (
            AppView { should_quit: v.should_quit || v.quit_after_launch, ..v },
            save_effects(v) + seq![EffectView::LaunchGame(v.games[v.cursor as int].id)],
        )
    }
}

/// Quitting, after recording the selection.
pub open spec fn quit_step(v: AppView) -> (AppView, Seq<EffectView>) {
    (AppView { should_quit: true, ..v }, save_effects(v))
}

/// The selection at start-up: the game last selected when it is still in
/// view, else the first game that is not hidden, else index 0.
pub open spec fn initial_cursor(games: Seq<GameView>, last: Option<Seq<char>>) -> usize {
    let unhidden = first_from(games, 0, false);
    let fallback: usize = if unhidden >= 0 { unhidden as usize } else { 0 };
    match last {
        Some(id) => {
            let p = first_with_id(games, 0, id);
            if p >= 0 {
                p as usize
            } else {
                fallback
            }
        },
        None => fallback,
    }
}

pub open spec fn option_str_view(s: Option<&str>) -> Option<Seq<char>> {
    match s {
        Some(s) => Some(s@),
        None => None,
    }
}

/// The keys the launcher reacts to.
#[derive(Debug, Clone, Copy, PartialEq, Eq)]
pub enum KeyCode {
    Enter,
    Esc,
    Backspace,
    Up,
    Down,
    Char(char),
    /// Any other key.
    Other,
}

/// A key press, with whether Control was held.
#[derive(Debug, Clone, Copy, PartialEq, Eq)]
pub struct KeyEvent {
    pub code: KeyCode,
    pub control: bool,
}

impl KeyEvent {
    pub fn new(code: KeyCode, control: bool) -> (res: KeyEvent)
        ensures
            res.code == code,
            res.control == control,
    {
        KeyEvent { code, control }
    }
}

/// What a key press does: while searching, keys edit the query and the
/// selection follows the first match; otherwise they are commands.
pub open spec fn key_step(v: AppView, key: KeyEvent) -> (AppView, Seq<EffectView>) {
    if v.searching {
        match key.code {
            KeyCode::Enter => snap_step(AppView { searching: false, ..v }),
            KeyCode::Esc => snap_step(AppView { searching: false, query: seq![], ..v }),
            KeyCode::Backspace => snap_step(
                AppView {
                    query: if v.query.len() > 0 {
                        v.query.drop_last()
                    } else {
                        v.query
                    },
                    ..v
                },
            ),
            KeyCode::Char(c) => snap_step(AppView { query: v.query.push(c), ..v }),
            _ => (v, seq![]),
        }
    } else if v.query.len() > 0 && key.code is Esc {
        snap_step(AppView { query: seq![], ..v })
    } else {
        match key.code {
            KeyCode::Char(c) => if c == 'q' || (c == 'c' && key.control) {
                quit_step(v)
            } else if c == 'o' || c == 'O' {
                toggle_steam_status_step(v)
            } else if c == '/' {
                (AppView { searching: true, query: seq![], ..v }, seq![])
            } else if c == 'k' {
                prev_item_step(v)
            } else if c == 'j' {
                next_item_step(v)
            } else if c == 'h' {
                toggle_hidden_step(v)
            } else if c == 'f' {
                toggle_favorite_step(v)
            } else if c == 'H' {
                toggle_view_mode_step(v)
            } else {
                (v, seq![])
            },
            KeyCode::Up => prev_item_step(v),
            KeyCode::Down => next_item_step(v),
            KeyCode::Enter => launch_step(v),
            _ => (v, seq![]),
        }
    }
}

// ---------------------------------------------------------------------------
// Laws of the transitions
// ---------------------------------------------------------------------------

/// The list depends only on the library, the view and the query, not on the
/// selection or the other flags.
pub proof fn lemma_visual_order_depends_on_filter(v: AppView, w: AppView)
    requires
        w.games == v.games,
        w.show_hidden == v.show_hidden,
        w.query == v.query,
    ensures
        visual_order(w) == visual_order(v),
{
}

/// Matching ignores case: queries that lower to the same text give the same
/// list.
pub proof fn lemma_query_ignores_case(v: AppView, w: AppView)
    requires
        w.games == v.games,
        w.show_hidden == v.show_hidden,
        lowercase(w.query) == lowercase(v.query),
    ensures
        visual_order(w) == visual_order(v),
{
}

/// Lengthening the query never adds games: when the lowered query of `v`
/// occurs in that of `w`, every game that `w` lists, `v` lists too.
pub proof fn lemma_longer_query_narrows(v: AppView, w: AppView, x: usize)
    requires
        v.games.len() <= usize::MAX,
        w.games == v.games,
        w.show_hidden == v.show_hidden,
        seq_contains(lowercase(w.query), lowercase(v.query)),
        visual_order(w).contains(x),
    ensures
        visual_order(v).contains(x),
{
    lemma_visual_order_shape(v);
    lemma_visual_order_shape(w);
    let g = v.games[x as int];
    let lq = lowercase(v.query);
    let lw = lowercase(w.query);
    if lq.len() > 0 {
        if lw.len() == 0 {
            lemma_contains_in_empty(lw, lq);
        }
        lemma_contains_transitive(lowercase(g.name), lw, lq);
    }
}

/// Moving down and then up returns to the selected game, and so does moving up
/// and then down, whenever the selected game is listed.
pub proof fn lemma_next_prev_inverse(v: AppView)
    requires
        v.games.len() <= usize::MAX,
        visual_order(v).contains(v.cursor),
    ensures
        prev_item_step(next_item_step(v).0).0 == v,
        next_item_step(prev_item_step(v).0).0 == v,
{
    let s = visual_order(v);
    lemma_visual_order_shape(v);
    let j = s.index_of(v.cursor);
    let n = s.len();
    let w1 = next_item_step(v).0;
    lemma_visual_order_depends_on_filter(v, w1);
    let k1 = if j + 1 < n { j + 1 } else { 0 };
    assert(w1.cursor == s[k1]);
    lemma_index_of_distinct(s, k1);
    if k1 > 0 {
        assert(s[k1 - 1] == v.cursor);
    } else {
        assert(j == n - 1);
    }
    assert(prev_item_step(w1).0 =~= v);
    let w2 = prev_item_step(v).0;
    lemma_visual_order_depends_on_filter(v, w2);
    let k2 = if j > 0 { j - 1 } else { n - 1 };
    assert(w2.cursor == s[k2]);
    lemma_index_of_distinct(s, k2);
    assert(next_item_step(w2).0 =~= v);
}

/// Moving down from the last listed game selects the first one, and moving up
/// from the first selects the last one.
pub proof fn lemma_navigation_wraps_around(v: AppView)
    requires
        v.games.len() <= usize::MAX,
        visual_order(v).len() > 0,
    ensures
        v.cursor == visual_order(v).last() ==> next_item_step(v).0.cursor == visual_order(v)[0],
        v.cursor == visual_order(v)[0] ==> prev_item_step(v).0.cursor == visual_order(v).last(),
{
    let s = visual_order(v);
    lemma_visual_order_shape(v);
    if v.cursor == s.last() {
        lemma_index_of_distinct(s, s.len() - 1);
    }
    if v.cursor == s[0] {
        lemma_index_of_distinct(s, 0);
    }
}

/// Moving through a non-empty list always selects a listed game, and records it.
pub proof fn lemma_navigation_selects_listed(v: AppView)
    requires
        v.games.len() <= usize::MAX,
        visual_order(v).len() > 0,
    ensures
        visual_order(v).contains(next_item_step(v).0.cursor),
        visual_order(v).contains(prev_item_step(v).0.cursor),
        visual_order(v).contains(snap_step(v).0.cursor),
        next_item_step(v).1 == seq![EffectView::SaveState(v.games[next_item_step(v).0.cursor as int].id)],
        prev_item_step(v).1 == seq![EffectView::SaveState(v.games[prev_item_step(v).0.cursor as int].id)],
{
    let s = visual_order(v);
    lemma_visual_order_shape(v);
    assert(s.contains(s[0]));
    assert(s.contains(s[s.len() - 1]));
    if s.contains(v.cursor) {
        let j = s.index_of(v.cursor);
        if j + 1 < s.len() {
            assert(s.contains(s[j + 1]));
        }
        if j > 0 {
            assert(s.contains(s[j - 1]));
        }
    }
}

/// Marking a favorite twice restores the state.
pub proof fn lemma_toggle_favorite_twice(v: AppView)
    ensures
        toggle_favorite_step(toggle_favorite_step(v).0).0 == v,
{
    if v.cursor < v.games.len() {
        let g = flip_favorite(flip_favorite(v.games, v.cursor as int), v.cursor as int);
        assert(g =~= v.games);
    }
}

/// Switching Steam's status twice restores the state.
pub proof fn lemma_toggle_steam_status_twice(v: AppView)
    ensures
        toggle_steam_status_step(toggle_steam_status_step(v).0).0 == v,
{
}

/// Switching the view twice restores the view and leaves the library alone.
pub proof fn lemma_toggle_view_mode_twice(v: AppView)
    ensures
        toggle_view_mode_step(toggle_view_mode_step(v).0).0.show_hidden == v.show_hidden,
        toggle_view_mode_step(toggle_view_mode_step(v).0).0.games == v.games,
{
}

/// Hiding a game flips its flag and leaves every other game as it was.
pub proof fn lemma_toggle_hidden_flips_one(v: AppView, i: int)
    requires
        v.cursor < v.games.len(),
        0 <= i < v.games.len(),
    ensures
        toggle_hidden_step(v).0.games.len() == v.games.len(),
        i == v.cursor ==> toggle_hidden_step(v).0.games[i].hidden == !v.games[i].hidden,
        i != v.cursor ==> toggle_hidden_step(v).0.games[i] == v.games[i],
{
}

/// What [`first_from`] finds: a game with the flag at or after `from`, and
/// none before it; -1 only when there is none.
pub proof fn lemma_first_from(games: Seq<GameView>, from: int, hidden: bool)
    requires
        0 <= from,
    ensures
        first_from(games, from, hidden) >= 0 ==> from <= first_from(games, from, hidden)
            < games.len() && games[first_from(games, from, hidden)].hidden == hidden,
        first_from(games, from, hidden) >= 0 ==> forall|j: int|
            from <= j < first_from(games, from, hidden) ==> #[trigger] games[j].hidden != hidden,
        first_from(games, from, hidden) < 0 ==> first_from(games, from, hidden) == -1 && forall|
            i: int,
        | from <= i < games.len() ==> #[trigger] games[i].hidden != hidden,
    decreases games.len() - from,
{
    if from < games.len() && games[from].hidden != hidden {
        lemma_first_from(games, from + 1, hidden);
    }
}

/// What [`last_before`] finds: the last game with the flag before `end`;
/// -1 only when there is none.
pub proof fn lemma_last_before(games: Seq<GameView>, end: int, hidden: bool)
    requires
        end <= games.len(),
    ensures
        last_before(games, end, hidden) >= 0 ==> 0 <= last_before(games, end, hidden) < end
            && games[last_before(games, end, hidden)].hidden == hidden,
        last_before(games, end, hidden) >= 0 ==> forall|j: int|
            last_before(games, end, hidden) < j < end ==> #[trigger] games[j].hidden != hidden,
        last_before(games, end, hidden) < 0 ==> last_before(games, end, hidden) == -1 && forall|
            j: int,
        | 0 <= j < end ==> #[trigger] games[j].hidden != hidden,
    decreases end,
{
    if end > 0 && games[end - 1].hidden != hidden {
        lemma_last_before(games, end - 1, hidden);
    }
}

/// What [`first_with_id`] finds: a game in view with the id.
pub proof fn lemma_first_with_id(games: Seq<GameView>, from: int, id: Seq<char>)
    requires
        0 <= from,
    ensures
        first_with_id(games, from, id) >= 0 ==> from <= first_with_id(games, from, id)
            < games.len() && games[first_with_id(games, from, id)].id == id
            && !games[first_with_id(games, from, id)].hidden,
        first_with_id(games, from, id) >= 0 ==> forall|j: int|
            from <= j < first_with_id(games, from, id) ==> !(#[trigger] games[j].id == id
                && !games[j].hidden),
        first_with_id(games, from, id) < 0 ==> forall|i: int|
            from <= i < games.len() ==> !(#[trigger] games[i].id == id && !games[i].hidden),
    decreases games.len() - from,
{
    if from < games.len() && !(games[from].id == id && !games[from].hidden) {
        lemma_first_with_id(games, from + 1, id);
    }
}

/// At start-up the selection is on a game that is not hidden whenever there is
/// one, and it is the last selected game when that one is in view.
pub proof fn lemma_initial_selection_in_view(games: Seq<GameView>, last: Option<Seq<char>>)
    requires
        games.len() <= usize::MAX,
    ensures
        (exists|i: int| 0 <= i < games.len() && !#[trigger] games[i].hidden) ==> ({
            let c = initial_cursor(games, last);
            c < games.len() && !games[c as int].hidden
        }),
        last is Some && (exists|i: int|
            0 <= i < games.len() && #[trigger] games[i].id == last->0 && !games[i].hidden)
            ==> games[initial_cursor(games, last) as int].id == last->0,
{
    lemma_first_from(games, 0, false);
    if let Some(id) = last {
        lemma_first_with_id(games, 0, id);
    }
}

/// While searching, keys only edit the query and move the selection: the
/// library, the view and the other flags stay, and the only effect is
/// recording the selection.
pub proof fn lemma_search_keys_only_filter(v: AppView, key: KeyEvent)
    requires
        v.searching,
    ensures
        key_step(v, key).0.games == v.games,
        key_step(v, key).0.show_hidden == v.show_hidden,
        key_step(v, key).0.should_quit == v.should_quit,
        key_step(v, key).0.steam_online == v.steam_online,
        key_step(v, key).1.len() == 0 || key_step(v, key).1 == save_effects(key_step(v, key).0),
{
}

// ---------------------------------------------------------------------------
// Executable transitions
// ---------------------------------------------------------------------------

/// Where `x` first occurs in `s`.
fn position_of(s: &Vec<usize>, x: usize) -> (res: Option<usize>)
    ensures
        res is None ==> !s@.contains(x),
        res matches Some(j) ==> j < s.len() && s@[j as int] == x,
{
    let mut j: usize = 0;
    while j < s.len()
        invariant
            j <= s.len(),
            forall|k: int| 0 <= k < j ==> s@[k] != x,
        decreases s.len() - j,
    {
        if s[j] == x {
            return Some(j);
        }
        j = j + 1;
    }
    None
}

/// The indices into `games` of the games listed under an already lowered
/// query, in the order shown, given the lowered name of each game.
pub fn listed_order(
    games: &Vec<Game>,
    show_hidden: bool,
    lowered_names: &Vec<String>,
    lowered_query: &str,
) -> (res: Vec<usize>)
    requires
        lowered_names.len() == games.len(),
    ensures
        res@ == order_with(games_view(games@), show_hidden, lowered_names.deep_view(), lowered_query@),
{
    let n = games.len();
    let ghost gv = games_view(games@);
    let ghost gnames = game_names(gv);
    let ghost ln = lowered_names.deep_view();
    let ghost fav = listed_favorite_with(gv, show_hidden, ln, lowered_query@);
    let ghost oth = listed_other_with(gv, show_hidden, ln, lowered_query@);
    let mut names: Vec<Vec<char>> = Vec::new();
    let mut i: usize = 0;
    while i < n
        invariant
            n == games.len(),
            i <= n,
            names@.len() == i,
            forall|k: int| 0 <= k < i ==> (#[trigger] names@[k])@ == games@[k].name@,
        decreases n - i,
    {
        names.push(chars_of(games[i].name.as_str()));
        i = i + 1;
    }
    assert(names_view(names@) =~= gnames);
    let query_chars = chars_of(lowered_query);
    let query_empty = lowered_query.is_empty();
    let mut favs: Vec<usize> = Vec::new();
    let mut others: Vec<usize> = Vec::new();
    let mut i: usize = 0;
    while i < n
        invariant
            n == games.len(),
            n == gv.len(),
            n == lowered_names.len(),
            gv == games_view(games@),
            ln == lowered_names.deep_view(),
            fav == listed_favorite_with(gv, show_hidden, ln, lowered_query@),
            oth == listed_other_with(gv, show_hidden, ln, lowered_query@),
            i <= n,
            names@.len() == n,
            names_view(names@) == gnames,
            gnames == game_names(gv),
            query_chars@ == lowered_query@,
            query_empty == (lowered_query@.len() == 0),
            sorted_by_name(gnames, favs@),
            sorted_by_name(gnames, others@),
            indexes_into(gnames, favs@),
            indexes_into(gnames, others@),
            forall|x: usize| favs@.contains(x) <==> (x < i && fav(x)),
            forall|x: usize| others@.contains(x) <==> (x < i && oth(x)),
        decreases n - i,
    {
        let g = &games[i];
        let mut listed = g.hidden == show_hidden;
        if listed && !query_empty {
            let name_chars = chars_of(lowered_names[i].as_str());
            listed = contains_chars(&name_chars, &query_chars);
        }
        assert(gv[i as int] == g@);
        assert(ln[i as int] == lowered_names@[i as int]@);
        assert(listed == listed_with(gv[i as int], show_hidden, ln[i as int], lowered_query@));
        if listed {
            if g.favorite {
                insert_by_name(&names, &mut favs, i);
            } else {
                insert_by_name(&names, &mut others, i);
            }
        }
        i = i + 1;
    }
    proof {
        lemma_arrangement_is(gnames, n as nat, fav, favs@);
        lemma_arrangement_is(gnames, n as nat, oth, others@);
    }
    let mut others = others;
    favs.append(&mut others);
    favs
}

impl App {
    /// A launcher over `games`, selecting the game last selected when it is in
    /// view, else the first game that is not hidden.
    pub fn new(
        games: Vec<Game>,
        quit_after_launch: bool,
        last_selected_id: Option<&str>,
        steam_online: bool,
    ) -> (app: App)
        ensures
            app@ == (AppView {
                games: games_view(games@),
                cursor: initial_cursor(games_view(games@), option_str_view(last_selected_id)),
                searching: false,
                query: Seq::<char>::empty(),
                show_hidden: false,
                quit_after_launch,
                steam_online,
                should_quit: false,
            }),
    {
        let ghost gv = games_view(games@);
        let n = games.len();
        let mut unhidden: usize = 0;
        let mut found_unhidden = false;
        let mut i: usize = 0;
        while i < n
            invariant_except_break
                !found_unhidden,
            invariant
                n == games.len(),
                gv == games_view(games@),
                i <= n,
                first_from(gv, 0, false) == first_from(gv, i as int, false),
            ensures
                found_unhidden ==> first_from(gv, 0, false) == unhidden,
                !found_unhidden ==> first_from(gv, 0, false) == -1,
            decreases n - i,
        {
            if !games[i].hidden {
                unhidden = i;
                found_unhidden = true;
                break;
            }
            i = i + 1;
        }
        let mut cursor: usize = if found_unhidden { unhidden } else { 0 };
        match last_selected_id {
            Some(id) => {
                let wanted = id.to_owned();
                let mut i: usize = 0;
                while i < n
                    invariant
                        n == games.len(),
                        gv == games_view(games@),
                        i <= n,
                        first_with_id(gv, 0, id@) == first_with_id(gv, i as int, id@),
                        wanted@ == id@,
                    ensures
                        first_with_id(gv, 0, id@) == -1 || first_with_id(gv, 0, id@) == i,
                        i < n ==> first_with_id(gv, 0, id@) == i,
                    decreases n - i,
                {
                    if games[i].id == wanted && !games[i].hidden {
                        break;
                    }
                    i = i + 1;
                }
                if i < n {
                    cursor = i;
                }
            },
            None => {},
        }
        App {
            games,
            cursor,
            searching: false,
            search_query: String::new(),
            show_hidden: false,
            quit_after_launch,
            steam_online,
            should_quit: false,
        }
    }

    /// The indices into `games` of the listed games, in the order shown.
    pub fn filtered_indices(&self) -> (res: Vec<usize>)
        ensures
            res@ == visual_order(self@),
    {
        let n = self.games.len();
        let ghost v = self@;
        let mut lowered: Vec<String> = Vec::new();
        let mut i: usize = 0;
        while i < n
            invariant
                n == self.games.len(),
                v == self@,
                i <= n,
                lowered@.len() == i,
                forall|k: int| 0 <= k < i ==> (#[trigger] lowered@[k])@ == lowercase(self.games@[k].name@),
            decreases n - i,
        {
            lowered.push(to_lowercase(self.games[i].name.as_str()));
            i = i + 1;
        }
        assert(lowered.deep_view() =~= lowered_names(v.games));
        let query_lower = to_lowercase(self.search_query.as_str());
        listed_order(&self.games, self.show_hidden, &lowered, query_lower.as_str())
    }

    /// The id to record as the last selected one: that of the selected game,
    /// or `None` when the selection is out of range.
    pub fn save_current_state(&self) -> (res: Option<String>)
        ensures
            res is Some <==> saved_id(self@) is Some,
            res matches Some(id) ==> saved_id(self@) == Some(id@),
    {
        if !self.games.is_empty() && self.cursor < self.games.len() {
            Some(self.games[self.cursor].id.clone())
        } else {
            None
        }
    }

    /// Moves the selection to the next listed game, wrapping around at the end.
    pub fn next_item(&mut self) -> (effects: Vec<Effect>)
        ensures
            final(self)@ == next_item_step(old(self)@).0,
            effects_view(effects@) == next_item_step(old(self)@).1,
    {
        let visual = self.filtered_indices();
        if visual.len() == 0 {
            let effects: Vec<Effect> = Vec::new();
            assert(effects_view(effects@) =~= seq![]);
            return effects;
        }
        proof {
            assert(self@.games.len() == self.games.len());
            lemma_visual_order_shape(self@);
        }
        let pos = position_of(&visual, self.cursor);
        match pos {
            Some(idx) => {
                proof {
                    lemma_index_of_distinct(visual@, idx as int);
                }
                if idx + 1 < visual.len() {
                    self.cursor = visual[idx + 1];
                } else {
                    self.cursor = visual[0];
                }
            },
            None => {
                self.cursor = visual[0];
            },
        }
        self.save_effect_list()
    }

    /// Moves the selection to the previous listed game, wrapping around at the
    /// start.
    pub fn prev_item(&mut self) -> (effects: Vec<Effect>)
        ensures
            final(self)@ == prev_item_step(old(self)@).0,
            effects_view(effects@) == prev_item_step(old(self)@).1,
    {
        let visual = self.filtered_indices();
        if visual.len() == 0 {
            let effects: Vec<Effect> = Vec::new();
            assert(effects_view(effects@) =~= seq![]);
            return effects;
        }
        proof {
            assert(self@.games.len() == self.games.len());
            lemma_visual_order_shape(self@);
        }
        let pos = position_of(&visual, self.cursor);
        match pos {
            Some(idx) => {
                proof {
                    lemma_index_of_distinct(visual@, idx as int);
                }
                if idx > 0 {
                    self.cursor = visual[idx - 1];
                } else {
                    self.cursor = visual[visual.len() - 1];
                }
            },
            None => {
                self.cursor = visual[visual.len() - 1];
            },
        }
        self.save_effect_list()
    }

    /// Marks the selected game as a favorite, or no longer.
    pub fn toggle_favorite(&mut self) -> (effects: Vec<Effect>)
        ensures
            final(self)@ == toggle_favorite_step(old(self)@).0,
            effects_view(effects@) == toggle_favorite_step(old(self)@).1,
    {
        let mut effects: Vec<Effect> = Vec::new();
        if self.cursor < self.games.len() {
            let c = self.cursor;
            let ghost before = self@;
            let flipped = !self.games[c].favorite;
            self.games[c].favorite = flipped;
            assert(self@.games =~= flip_favorite(before.games, c as int));
            effects.push(Effect::SaveGames);
        }
        assert(effects_view(effects@) =~= toggle_favorite_step(old(self)@).1);
        effects
    }

    /// Hides the selected game, or shows it again, and moves the selection to
    /// the next game still in the view (else the last one before it, else 0).
    pub fn toggle_hidden(&mut self) -> (effects: Vec<Effect>)
        ensures
            final(self)@ == toggle_hidden_step(old(self)@).0,
            effects_view(effects@) == toggle_hidden_step(old(self)@).1,
    {
        if self.cursor >= self.games.len() {
            let effects: Vec<Effect> = Vec::new();
            assert(effects_view(effects@) =~= seq![]);
            return effects;
        }
        let c = self.cursor;
        let ghost before = self@;
        let flipped = !self.games[c].hidden;
        self.games[c].hidden = flipped;
        let ghost gv = self@.games;
        assert(gv =~= flip_hidden(before.games, c as int));
        let n = self.games.len();
        let sh = self.show_hidden;
        let mut found = false;
        let mut i: usize = c + 1;
        while i < n
            invariant_except_break
                !found,
            invariant
                n == self.games.len(),
                gv == games_view(self.games@),
                c < n,
                c + 1 <= i <= n,
                sh == self.show_hidden,
                first_from(gv, c + 1, sh) == first_from(gv, i as int, sh),
            ensures
                found ==> first_from(gv, c + 1, sh) == i && i < n,
                !found ==> first_from(gv, c + 1, sh) == -1,
            decreases n - i,
        {
            if self.games[i].hidden == sh {
                found = true;
                break;
            }
            i = i + 1;
        }
        if found {
            self.cursor = i;
        } else {
            let mut j: usize = c;
            while j > 0
                invariant_except_break
                    !found,
                invariant
                    n == self.games.len(),
                    gv == games_view(self.games@),
                    j <= c < n,
                    sh == self.show_hidden,
                    last_before(gv, c as int, sh) == last_before(gv, j as int, sh),
                ensures
                    found ==> last_before(gv, c as int, sh) == j - 1 && j > 0,
                    !found ==> last_before(gv, c as int, sh) == -1,
                decreases j,
            {
                if self.games[j - 1].hidden == sh {
                    found = true;
                    break;
                }
                j = j - 1;
            }
            if found {
                self.cursor = j - 1;
            } else {
                self.cursor = 0;
            }
        }
        let mut effects: Vec<Effect> = Vec::new();
        effects.push(Effect::SaveGames);
        let mut saves = self.save_effect_list();
        effects.append(&mut saves);
        assert(effects_view(effects@) =~= seq![EffectView::SaveGames] + save_effects(self@));
        effects
    }

    /// Switches between the hidden games and the others, selecting the first
    /// game of the new view in library order.
    pub fn toggle_view_mode(&mut self) -> (effects: Vec<Effect>)
        ensures
            final(self)@ == toggle_view_mode_step(old(self)@).0,
            effects_view(effects@) == toggle_view_mode_step(old(self)@).1,
    {
        self.show_hidden = !self.show_hidden;
        let ghost gv = self@.games;
        let n = self.games.len();
        let sh = self.show_hidden;
        let mut found = false;
        let mut i: usize = 0;
        while i < n
            invariant_except_break
                !found,
            invariant
                n == self.games.len(),
                gv == games_view(self.games@),
                i <= n,
                sh == self.show_hidden,
                first_from(gv, 0, sh) == first_from(gv, i as int, sh),
            ensures
                found ==> first_from(gv, 0, sh) == i && i < n,
                !found ==> first_from(gv, 0, sh) == -1,
            decreases n - i,
        {
            if self.games[i].hidden == sh {
                found = true;
                break;
            }
            i = i + 1;
        }
        if found {
            self.cursor = i;
        } else {
            self.cursor = 0;
        }
        self.save_effect_list()
    }

    /// Switches Steam between online and offline.
    pub fn toggle_steam_status(&mut self) -> (effects: Vec<Effect>)
        ensures
            final(self)@ == toggle_steam_status_step(old(self)@).0,
            effects_view(effects@) == toggle_steam_status_step(old(self)@).1,
    {
        self.steam_online = !self.steam_online;
        let mut effects: Vec<Effect> = Vec::new();
        effects.push(Effect::SetSteamStatus(self.steam_online));
        assert(effects_view(effects@) =~= toggle_steam_status_step(old(self)@).1);
        effects
    }

    /// Starts the selected game after recording the selection, and quits
    /// afterwards when the launcher was asked to.
    pub fn launch_selected(&mut self) -> (effects: Vec<Effect>)
        ensures
            final(self)@ == launch_step(old(self)@).0,
            effects_view(effects@) == launch_step(old(self)@).1,
    {
        if self.games.is_empty() || self.cursor >= self.games.len() {
            let effects: Vec<Effect> = Vec::new();
            assert(effects_view(effects@) =~= seq![]);
            return effects;
        }
        let game_id = self.games[self.cursor].id.clone();
        let mut effects = self.save_effect_list();
        effects.push(Effect::LaunchGame(game_id));
        if self.quit_after_launch {
            self.should_quit = true;
        }
        assert(effects_view(effects@) =~= launch_step(old(self)@).1);
        effects
    }

    /// Records the selection and asks the launcher to quit.
    fn quit(&mut self) -> (effects: Vec<Effect>)
        ensures
            final(self)@ == quit_step(old(self)@).0,
            effects_view(effects@) == quit_step(old(self)@).1,
    {
        let effects = self.save_effect_list();
        self.should_quit = true;
        effects
    }

    /// Applies one key press.
    pub fn handle_key_event(&mut self, key: KeyEvent) -> (effects: Vec<Effect>)
        ensures
            final(self)@ == key_step(old(self)@, key).0,
            effects_view(effects@) == key_step(old(self)@, key).1,
    {
        if self.searching {
            match key.code {
                KeyCode::Enter => {
                    self.searching = false;
                    self.snap_cursor_to_first_match()
                },
                KeyCode::Esc => {
                    self.searching = false;
                    self.search_query = String::new();
                    self.snap_cursor_to_first_match()
                },
                KeyCode::Backspace => {
                    let _ = pop_char(&mut self.search_query);
                    self.snap_cursor_to_first_match()
                },
                KeyCode::Char(c) => {
                    push_char(&mut self.search_query, c);
                    self.snap_cursor_to_first_match()
                },
                _ => {
                    let effects: Vec<Effect> = Vec::new();
                    assert(effects_view(effects@) =~= seq![]);
                    effects
                },
            }
        } else if !self.search_query.as_str().is_empty() && matches!(key.code, KeyCode::Esc) {
            self.search_query = String::new();
            self.snap_cursor_to_first_match()
        } else {
            match key.code {
                KeyCode::Char(c) => {
                    if c == 'q' || (c == 'c' && key.control) {
                        self.quit()
                    } else if c == 'o' || c == 'O' {
                        self.toggle_steam_status()
                    } else if c == '/' {
                        self.searching = true;
                        self.search_query = String::new();
                        let effects: Vec<Effect> = Vec::new();
                        assert(effects_view(effects@) =~= seq![]);
                        effects
                    } else if c == 'k' {
                        self.prev_item()
                    } else if c == 'j' {
                        self.next_item()
                    } else if c == 'h' {
                        self.toggle_hidden()
                    } else if c == 'f' {
                        self.toggle_favorite()
                    } else if c == 'H' {
                        self.toggle_view_mode()
                    } else {
                        let effects: Vec<Effect> = Vec::new();
                        assert(effects_view(effects@) =~= seq![]);
                        effects
                    }
                },
                KeyCode::Up => self.prev_item(),
                KeyCode::Down => self.next_item(),
                KeyCode::Enter => self.launch_selected(),
                _ => {
                    let effects: Vec<Effect> = Vec::new();
                    assert(effects_view(effects@) =~= seq![]);
                    effects
                },
            }
        }
    }

    fn save_effect_list(&self) -> (res: Vec<Effect>)
        ensures
            effects_view(res@) == save_effects(self@),
    {
        let mut res: Vec<Effect> = Vec::new();
        match self.save_current_state() {
            Some(id) => {
                res.push(Effect::SaveState(id));
                assert(effects_view(res@) =~= save_effects(self@));
            },
            None => {
                assert(effects_view(res@) =~= save_effects(self@));
            },
        }
        res
    }

    /// Selects the first listed game (index 0 when nothing is listed).
    pub fn snap_cursor_to_first_match(&mut self) -> (effects: Vec<Effect>)
        ensures
            final(self)@ == snap_step(old(self)@).0,
            effects_view(effects@) == snap_step(old(self)@).1,
    {
        let visual = self.filtered_indices();
        if visual.len() > 0 {
            self.cursor = visual[0];
        } else {
            self.cursor = 0;
        }
        self.save_effect_list()
    }
}

} // verus!
