//! What each command of the launcher does, stated over the fields of the
//! state and the list it shows.

use vstd::prelude::*;

use crate::app::{
    first_from, flip_hidden, initial_cursor, key_step, last_before, lemma_first_from,
    lemma_first_with_id, lemma_last_before, lemma_visual_order_shape, toggle_hidden_step,
    toggle_view_mode_step, visual_order, snap_step, AppView, EffectView, KeyCode, KeyEvent,
};
use crate::model::game_names;
use crate::order::key_before;
use crate::text::{lemma_seq_lt_irreflexive, lemma_seq_lt_transitive, seq_lt};
use crate::model::GameView;
use crate::text::{lowercase, seq_contains};

verus! {

/// Hiding or showing the selected game flips its flag alone; the selection
/// then goes to the first game after it that is still in the view, else to the
/// last one before it, else to index 0; the library and the new selection are
/// recorded.
pub proof fn lemma_toggle_hidden_moves_selection(v: AppView)
    requires
        v.cursor < v.games.len(),
        v.games.len() <= usize::MAX,
    ensures
        ({
            let w = toggle_hidden_step(v).0;
            let e = toggle_hidden_step(v).1;
            let c = v.cursor as int;
            let sh = v.show_hidden;
            let after = exists|i: int| c < i < w.games.len() && #[trigger] w.games[i].hidden == sh;
            let before = exists|i: int| 0 <= i < c && #[trigger] w.games[i].hidden == sh;
            &&& w.games.len() == v.games.len()
            &&& w.games[c].hidden == !v.games[c].hidden
            &&& w.games[c] == (GameView { hidden: !v.games[c].hidden, ..v.games[c] })
            &&& forall|i: int| 0 <= i < v.games.len() && i != c ==> #[trigger] w.games[i] == v.games[i]
            &&& w == (AppView { games: w.games, cursor: w.cursor, ..v })
            &&& after ==> c < w.cursor < w.games.len() && w.games[w.cursor as int].hidden == sh
                && forall|j: int| c < j < w.cursor ==> #[trigger] w.games[j].hidden != sh
            &&& !after && before ==> w.cursor < c && w.games[w.cursor as int].hidden == sh
                && forall|j: int| w.cursor < j < c ==> #[trigger] w.games[j].hidden != sh
            &&& !after && !before ==> w.cursor == 0
            &&& w.cursor < w.games.len()
            &&& e == seq![EffectView::SaveGames, EffectView::SaveState(w.games[w.cursor as int].id)]
        }),
{
    let w = toggle_hidden_step(v).0;
    let c = v.cursor as int;
    let sh = v.show_hidden;
    let games = flip_hidden(v.games, c);
    lemma_first_from(games, c + 1, sh);
    lemma_last_before(games, c, sh);
    if exists|i: int| c < i < w.games.len() && #[trigger] w.games[i].hidden == sh {
        let i = choose|i: int| c < i < w.games.len() && #[trigger] w.games[i].hidden == sh;
        assert(first_from(games, c + 1, sh) >= 0);
    } else if exists|i: int| 0 <= i < c && #[trigger] w.games[i].hidden == sh {
        let i = choose|i: int| 0 <= i < c && #[trigger] w.games[i].hidden == sh;
        assert(last_before(games, c, sh) >= 0);
    }
}

/// Switching the view flips it and selects the first game of the new view in
/// library order (index 0 when the view is empty), then records it.
pub proof fn lemma_toggle_view_mode_selects_first(v: AppView)
    requires
        v.games.len() <= usize::MAX,
    ensures
        ({
            let w = toggle_view_mode_step(v).0;
            let sh = !v.show_hidden;
            let any = exists|i: int| 0 <= i < v.games.len() && #[trigger] v.games[i].hidden == sh;
            &&& w == (AppView { show_hidden: sh, cursor: w.cursor, ..v })
            &&& any ==> w.cursor < v.games.len() && v.games[w.cursor as int].hidden == sh && forall|
                j: int,
            | 0 <= j < w.cursor ==> #[trigger] v.games[j].hidden != sh
            &&& !any ==> w.cursor == 0
            &&& toggle_view_mode_step(v).1 == if w.cursor < v.games.len() {
                seq![EffectView::SaveState(v.games[w.cursor as int].id)]
            } else {
                Seq::<EffectView>::empty()
            }
        }),
{
    let sh = !v.show_hidden;
    lemma_first_from(v.games, 0, sh);
    if exists|i: int| 0 <= i < v.games.len() && #[trigger] v.games[i].hidden == sh {
        let i = choose|i: int| 0 <= i < v.games.len() && #[trigger] v.games[i].hidden == sh;
    }
}

/// At start-up the selection is the first game in view with the last selected
/// id when there is one, else the first game that is not hidden, else index 0.
pub proof fn lemma_initial_selection(games: Seq<GameView>, last: Option<Seq<char>>)
    requires
        games.len() <= usize::MAX,
    ensures
        ({
            let c = initial_cursor(games, last);
            let found = last is Some && exists|i: int|
                0 <= i < games.len() && #[trigger] games[i].id == last->0 && !games[i].hidden;
            let unhidden = exists|i: int| 0 <= i < games.len() && !#[trigger] games[i].hidden;
            &&& found ==> c < games.len() && games[c as int].id == last->0 && !games[c as int].hidden
                && forall|j: int|
                0 <= j < c ==> !(#[trigger] games[j].id == last->0 && !games[j].hidden)
            &&& !found && unhidden ==> c < games.len() && !games[c as int].hidden && forall|j: int|
                0 <= j < c ==> #[trigger] games[j].hidden
            &&& !found && !unhidden ==> c == 0
        }),
{
    lemma_first_from(games, 0, false);
    if let Some(id) = last {
        lemma_first_with_id(games, 0, id);
        if exists|i: int| 0 <= i < games.len() && #[trigger] games[i].id == id && !games[i].hidden {
            let i = choose|i: int| 0 <= i < games.len() && #[trigger] games[i].id == id && !games[i].hidden;
        }
    }
    if exists|i: int| 0 <= i < games.len() && !#[trigger] games[i].hidden {
        let i = choose|i: int| 0 <= i < games.len() && !#[trigger] games[i].hidden;
    }
}

/// The list shows exactly the games of the current view whose lowered name
/// contains the lowered query (every game of the view when the lowered query
/// is empty), favorites first.
pub proof fn lemma_listed_games(v: AppView, x: usize)
    requires
        v.games.len() <= usize::MAX,
    ensures
        visual_order(v).contains(x) <==> (x < v.games.len() && v.games[x as int].hidden
            == v.show_hidden && (lowercase(v.query).len() == 0 || seq_contains(
            lowercase(v.games[x as int].name),
            lowercase(v.query),
        ))),
{
    lemma_visual_order_shape(v);
}

/// The list puts favorites first; within each part no name comes before the
/// name listed ahead of it, and games with equal names keep library order.
pub proof fn lemma_list_order(v: AppView)
    requires
        v.games.len() <= usize::MAX,
    ensures
        ({
            let s = visual_order(v);
            forall|j: int, k: int|
                0 <= j < k < s.len() ==> {
                    let a = v.games[#[trigger] s[j] as int];
                    let b = v.games[#[trigger] s[k] as int];
                    &&& (b.favorite ==> a.favorite)
                    &&& (a.favorite == b.favorite ==> !seq_lt(b.name, a.name))
                    &&& (a.favorite == b.favorite && a.name == b.name ==> s[j] < s[k])
                }
        }),
{
    let s = visual_order(v);
    lemma_visual_order_shape(v);
    assert forall|j: int, k: int| 0 <= j < k < s.len() implies {
        let a = v.games[#[trigger] s[j] as int];
        let b = v.games[#[trigger] s[k] as int];
        &&& (b.favorite ==> a.favorite)
        &&& (a.favorite == b.favorite ==> !seq_lt(b.name, a.name))
        &&& (a.favorite == b.favorite && a.name == b.name ==> s[j] < s[k])
    } by {
        let a = v.games[s[j] as int];
        let b = v.games[s[k] as int];
        if a.favorite == b.favorite {
            let names = game_names(v.games);
            assert(key_before(names, s[j], s[k]));
            assert(names[s[j] as int] == a.name && names[s[k] as int] == b.name);
            if seq_lt(b.name, a.name) {
                if seq_lt(a.name, b.name) {
                    lemma_seq_lt_transitive(a.name, b.name, a.name);
                }
                lemma_seq_lt_irreflexive(a.name);
            }
            if a.name == b.name {
                lemma_seq_lt_irreflexive(a.name);
            }
        }
    }
}

/// Selecting the first match selects the first entry of the list (index 0 when
/// it is empty) and changes nothing else; the selection is recorded.
pub proof fn lemma_snap_selects_first(v: AppView)
    ensures
        ({
            let s = visual_order(v);
            let w = snap_step(v).0;
            &&& w == (AppView { cursor: if s.len() > 0 { s[0] } else { 0 }, ..v })
            &&& snap_step(v).1 == if w.cursor < v.games.len() {
                seq![EffectView::SaveState(v.games[w.cursor as int].id)]
            } else {
                Seq::<EffectView>::empty()
            }
        }),
{
}

/// Moving up (Up or `k`) selects the entry before the selection in the list,
/// the last entry from the first one or from outside the list; moving down
/// (Down or `j`) selects the entry after it, the first entry from the last one
/// or from outside the list. Only the selection changes, and it is recorded;
/// with an empty list nothing happens.
pub proof fn lemma_move_keys(v: AppView, key: KeyEvent)
    requires
        !v.searching,
        !(v.query.len() > 0 && key.code is Esc),
        v.games.len() <= usize::MAX,
    ensures
        ({
            let s = visual_order(v);
            let w = key_step(v, key).0;
            let e = key_step(v, key).1;
            let up = key.code is Up || key.code == KeyCode::Char('k');
            let down = key.code is Down || key.code == KeyCode::Char('j');
            &&& (up || down) && s.len() == 0 ==> w == v && e.len() == 0
            &&& (up || down) && s.len() > 0 ==> w == (AppView { cursor: w.cursor, ..v })
                && w.cursor < v.games.len() && e == seq![EffectView::SaveState(v.games[w.cursor as int].id)]
            &&& up && s.len() > 0 ==> (forall|j: int|
                0 <= j < s.len() && #[trigger] s[j] == v.cursor ==> w.cursor == if j > 0 {
                    s[j - 1]
                } else {
                    s[s.len() - 1]
                }) && (!s.contains(v.cursor) ==> w.cursor == s[s.len() - 1])
            &&& down && s.len() > 0 ==> (forall|j: int|
                0 <= j < s.len() && #[trigger] s[j] == v.cursor ==> w.cursor == if j + 1 < s.len() {
                    s[j + 1]
                } else {
                    s[0]
                }) && (!s.contains(v.cursor) ==> w.cursor == s[0])
        }),
{
    let s = visual_order(v);
    lemma_visual_order_shape(v);
    if s.len() > 0 {
        assert(s.contains(s[0]));
        assert(s.contains(s[s.len() - 1]));
        if s.contains(v.cursor) {
            let k = s.index_of(v.cursor);
            assert(s[k] == v.cursor);
            assert forall|j: int| 0 <= j < s.len() && #[trigger] s[j] == v.cursor implies j == k by {}
            if k + 1 < s.len() {
                assert(s.contains(s[k + 1]));
            }
            if k > 0 {
                assert(s.contains(s[k - 1]));
            }
        }
    }
}

/// Outside a search (and but for Esc clearing a query), the arrow keys and
/// the letter keys do the same: Up acts as `k` and Down as `j`, whether or not
/// Ctrl is held.
pub proof fn lemma_arrows_match_letters(v: AppView, c1: bool, c2: bool)
    requires
        !v.searching,
    ensures
        key_step(v, KeyEvent { code: KeyCode::Up, control: c1 }) == key_step(
            v,
            KeyEvent { code: KeyCode::Char('k'), control: c2 },
        ),
        key_step(v, KeyEvent { code: KeyCode::Down, control: c1 }) == key_step(
            v,
            KeyEvent { code: KeyCode::Char('j'), control: c2 },
        ),
{
}

/// The other commands: `q` and Ctrl-C quit after recording the selection; `o`
/// and `O` switch Steam's status; `/` starts a new search; `f` flips the
/// selected game's favorite mark; `h` hides or shows it; `H` switches the
/// view; Enter starts the selected game.
pub proof fn lemma_command_keys(v: AppView, key: KeyEvent)
    requires
        !v.searching,
        !(v.query.len() > 0 && key.code is Esc),
    ensures
        ({
            let w = key_step(v, key).0;
            let e = key_step(v, key).1;
            let saved = if v.cursor < v.games.len() {
                seq![EffectView::SaveState(v.games[v.cursor as int].id)]
            } else {
                Seq::<EffectView>::empty()
            };
            &&& key.code == KeyCode::Char('q') || (key.code == KeyCode::Char('c') && key.control)
                ==> w == (AppView { should_quit: true, ..v }) && e == saved
            &&& key.code == KeyCode::Char('o') || key.code == KeyCode::Char('O') ==> w == (AppView {
                steam_online: !v.steam_online,
                ..v
            }) && e == seq![EffectView::SetSteamStatus(!v.steam_online)]
            &&& key.code == KeyCode::Char('/') ==> w == (AppView {
                searching: true,
                query: Seq::<char>::empty(),
                ..v
            }) && e.len() == 0
            &&& key.code == KeyCode::Char('f') && v.cursor < v.games.len() ==> w == (AppView {
                games: v.games.update(
                    v.cursor as int,
                    GameView { favorite: !v.games[v.cursor as int].favorite, ..v.games[v.cursor as int] },
                ),
                ..v
            }) && e == seq![EffectView::SaveGames]
            &&& key.code == KeyCode::Char('f') && v.cursor >= v.games.len() ==> w == v && e.len() == 0
            &&& key.code == KeyCode::Char('h') ==> key_step(v, key) == toggle_hidden_step(v)
            &&& key.code == KeyCode::Char('H') ==> key_step(v, key) == toggle_view_mode_step(v)
            &&& key.code is Enter && v.cursor < v.games.len() ==> w == (AppView {
                should_quit: v.should_quit || v.quit_after_launch,
                ..v
            }) && e == seq![
                EffectView::SaveState(v.games[v.cursor as int].id),
                EffectView::LaunchGame(v.games[v.cursor as int].id),
            ]
            &&& key.code is Enter && v.cursor >= v.games.len() ==> w == v && e.len() == 0
            &&& key.code is Other ==> w == v && e.len() == 0
        }),
{
}

/// While searching, a character is appended to the query, Backspace removes
/// the last one, Enter ends the search keeping the query and Esc ends it
/// clearing the query; after each the selection is the first listed game
/// (index 0 when none is listed), and it is recorded.
pub proof fn lemma_search_keys(v: AppView, key: KeyEvent)
    requires
        v.searching,
    ensures
        ({
            let w = key_step(v, key).0;
            let e = key_step(v, key).1;
            let s = visual_order(w);
            &&& (key.code is Char ==> w.searching && w.query == v.query.push(key.code->0))
            &&& (key.code is Backspace ==> w.searching && w.query == if v.query.len() > 0 {
                v.query.drop_last()
            } else {
                v.query
            })
            &&& (key.code is Enter ==> !w.searching && w.query == v.query)
            &&& (key.code is Esc ==> !w.searching && w.query == Seq::<char>::empty())
            &&& (key.code is Char || key.code is Backspace || key.code is Enter || key.code is Esc)
                ==> w == (AppView { searching: w.searching, query: w.query, cursor: w.cursor, ..v })
                && w.cursor == (if s.len() > 0 { s[0] } else { 0 }) && e == (if w.cursor
                < w.games.len() {
                seq![EffectView::SaveState(w.games[w.cursor as int].id)]
            } else {
                Seq::<EffectView>::empty()
            })
            &&& (key.code is Up || key.code is Down || key.code is Other) ==> w == v && e.len() == 0
        }),
{
}

} // verus!
