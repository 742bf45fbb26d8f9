use vstd::prelude::*;

verus! {

/// One installed game, as the launcher keeps it in its library file.
#[derive(Debug, PartialEq, Eq)]
pub struct Game {
    pub name: String,
    pub id: String,
    pub hidden: bool,
    /// Total play time in minutes.
    pub playtime: u32,
    pub favorite: bool,
}

/// The mathematical value of a [`Game`].
pub struct GameView {
    pub name: Seq<char>,
    pub id: Seq<char>,
    pub hidden: bool,
    pub playtime: u32,
    pub favorite: bool,
}

impl View for Game {
    type V = GameView;

    open spec fn view(&self) -> GameView {
        GameView {
            name: self.name@,
            id: self.id@,
            hidden: self.hidden,
            playtime: self.playtime,
            favorite: self.favorite,
        }
    }
}

/// The views of a sequence of games.
pub open spec fn games_view(games: Seq<Game>) -> Seq<GameView> {
    games.map_values(|g: Game| g@)
}

/// The names of a sequence of games.
pub open spec fn game_names(games: Seq<GameView>) -> Seq<Seq<char>> {
    games.map_values(|g: GameView| g.name)
}

impl Clone for Game {
    fn clone(&self) -> (res: Game)
        ensures
            res@ == self@,
    {
        Game {
            name: self.name.clone(),
            id: self.id.clone(),
            hidden: self.hidden,
            playtime: self.playtime,
            favorite: self.favorite,
        }
    }
}

/// The state that survives between runs: which game was selected last.
#[derive(Debug, PartialEq, Eq)]
pub struct State {
    pub last_selected_id: String,
}

impl Default for State {
    fn default() -> (res: State)
        ensures
            res.last_selected_id@ == Seq::<char>::empty(),
    {
        State { last_selected_id: String::new() }
    }
}

impl Clone for State {
    fn clone(&self) -> (res: State)
        ensures
            res.last_selected_id@ == self.last_selected_id@,
    {
        State { last_selected_id: self.last_selected_id.clone() }
    }
}

impl State {
    /// The id to select at start-up: none when nothing was recorded.
    pub fn last_selected(&self) -> (res: Option<&str>)
        ensures
            self.last_selected_id@.len() == 0 ==> res is None,
            self.last_selected_id@.len() > 0 ==> (res matches Some(s) && s@ == self.last_selected_id@),
    {
        if self.last_selected_id.as_str().is_empty() {
            None
        } else {
            Some(self.last_selected_id.as_str())
        }
    }
}

} // verus!
