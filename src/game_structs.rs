use vstd::prelude::*;
use vstd::string::StringExecFns;

verus! {

/// The lane a player is tracked in; its ordinal is the champion slot that
/// faces the player in a team column.
#[derive(Clone, Copy, Debug, PartialEq, Eq, Structural)]
pub enum Role {
    Top,
    Jungle,
    Mid,
    Bottom,
    Support,
}

/// The slot of a role within a team's champion listing.
pub open spec fn role_slot(role: Role) -> nat {
    match role {
        Role::Top => 0,
        Role::Jungle => 1,
        Role::Mid => 2,
        Role::Bottom => 3,
        Role::Support => 4,
    }
}

/// The role named by a lowercase word, if any.
pub open spec fn role_named(input: Seq<char>) -> Option<Role> {
    if input == "top"@ {
        Some(Role::Top)
    } else if input == "jungle"@ {
        Some(Role::Jungle)
    } else if input == "mid"@ {
        Some(Role::Mid)
    } else if input == "bottom"@ {
        Some(Role::Bottom)
    } else if input == "support"@ {
        Some(Role::Support)
    } else {
        None
    }
}

impl Role {
    pub fn value(&self) -> (r: u8)
        ensures
            r as nat == role_slot(*self),
    {
        match self {
            Role::Top => 0,
            Role::Jungle => 1,
            Role::Mid => 2,
            Role::Bottom => 3,
            Role::Support => 4,
        }
    }

    /// Reads a lowercase role word; any other text gives `None`.
    pub fn from_str(input: &str) -> (r: Option<Role>)
        ensures
            r == role_named(input@),
    {
        proof {
            reveal_strlit("top");
            reveal_strlit("jungle");
            reveal_strlit("mid");
            reveal_strlit("bottom");
            reveal_strlit("support");
        }
        let s = String::from_str(input);
        if s == String::from_str("top") {
            Some(Role::Top)
        } else if s == String::from_str("jungle") {
            Some(Role::Jungle)
        } else if s == String::from_str("mid") {
            Some(Role::Mid)
        } else if s == String::from_str("bottom") {
            Some(Role::Bottom)
        } else if s == String::from_str("support") {
            Some(Role::Support)
        } else {
            None
        }
    }
}

#[derive(Clone, Copy, Debug, PartialEq, Eq, Structural)]
pub struct Kda {
    pub kills: u8,
    pub deaths: u8,
    pub assists: u8,
}

/// One match of the requested block.
#[derive(Debug)]
pub struct Game {
    pub num: u8,
    pub ally_champ: String,
    pub enemy_champ: String,
    pub win: bool,
    pub kda: Kda,
    pub duration: String,
}

pub struct GameView {
    pub num: nat,
    pub ally_champ: Seq<char>,
    pub enemy_champ: Seq<char>,
    pub win: bool,
    pub kda: Kda,
    pub duration: Seq<char>,
}

impl View for Game {
    type V = GameView;

    open spec fn view(&self) -> GameView {
        GameView {
            num: self.num as nat,
            ally_champ: self.ally_champ@,
            enemy_champ: self.enemy_champ@,
            win: self.win,
            kda: self.kda,
            duration: self.duration@,
        }
    }
}

/// The games of a vector, seen as values.
pub open spec fn games_view(games: Seq<Game>) -> Seq<GameView> {
    games.map_values(|g: Game| g@)
}

/// The dated, chronologically ordered games of one report.
#[derive(Debug)]
pub struct Session {
    pub date: String,
    pub games: Vec<Game>,
}

pub struct SessionView {
    pub date: Seq<char>,
    pub games: Seq<GameView>,
}

impl View for Session {
    type V = SessionView;

    open spec fn view(&self) -> SessionView {
        SessionView { date: self.date@, games: games_view(self.games@) }
    }
}

/// Whose history to fetch, how many games to take, and which slot faces them.
pub struct Player {
    pub username: String,
    pub tag: String,
    pub region: String,
    pub role: Role,
    pub block_game_count: u8,
}

/// The address of a player's statistics page.
pub open spec fn player_url(region: Seq<char>, username: Seq<char>, tag: Seq<char>) -> Seq<char> {
    "https://www.leagueofgraphs.com/summoner/"@ + region + "/"@ + username + "-"@ + tag
}

impl Player {
    pub fn get_url_from_player(&self) -> (r: String)
        ensures
            r@ == player_url(self.region@, self.username@, self.tag@),
    {
        let mut url = String::from_str("https://www.leagueofgraphs.com/summoner/");
        url.append(self.region.as_str());
        url.append("/");
        url.append(self.username.as_str());
        url.append("-");
        url.append(self.tag.as_str());
        url
    }
}

} // verus!
