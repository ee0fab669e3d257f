use vstd::prelude::*;
use vstd::string::StringExecFns;
use crate::game_structs::{Game, GameView, Kda, Role, Session, SessionView, games_view, role_slot};
use crate::text::{byte_of_text, decimal_text, lemma_byte_text_round_trip, parse_byte};

verus! {

/// Rows at the top of the history table that hold headers or filler.
pub const USELESS_ROW_COUNT: usize = 2;

/// What the interpretation reads from one table row, each field as the page
/// gave it: the trimmed duration text, the kill, death and assist texts, the
/// first champion image's name, the result text, and for each team column the
/// name of each champion image in it. An absent element is `None`.
pub struct RowFields {
    pub duration: Option<String>,
    pub kills: Option<String>,
    pub deaths: Option<String>,
    pub assists: Option<String>,
    pub ally_champ: Option<String>,
    pub status: Option<String>,
    pub columns: Vec<Vec<Option<String>>>,
}

/// A row's fields as texts.
pub struct RowView {
    pub duration: Option<Seq<char>>,
    pub kills: Option<Seq<char>>,
    pub deaths: Option<Seq<char>>,
    pub assists: Option<Seq<char>>,
    pub ally_champ: Option<Seq<char>>,
    pub status: Option<Seq<char>>,
    pub columns: Seq<Seq<Option<Seq<char>>>>,
}

pub open spec fn opt_view(o: Option<String>) -> Option<Seq<char>> {
    match o {
        Some(s) => Some(s@),
        None => None,
    }
}

pub open spec fn column_view(column: Vec<Option<String>>) -> Seq<Option<Seq<char>>> {
    column@.map_values(|o: Option<String>| opt_view(o))
}

impl View for RowFields {
    type V = RowView;

    open spec fn view(&self) -> RowView {
        RowView {
            duration: opt_view(self.duration),
            kills: opt_view(self.kills),
            deaths: opt_view(self.deaths),
            assists: opt_view(self.assists),
            ally_champ: opt_view(self.ally_champ),
            status: opt_view(self.status),
            columns: self.columns@.map_values(|c: Vec<Option<String>>| column_view(c)),
        }
    }
}

/// The rows of a table, seen as texts.
pub open spec fn rows_view(table: Seq<RowFields>) -> Seq<RowView> {
    table.map_values(|r: RowFields| r@)
}

/// A field that a match row must hold.
#[derive(Clone, Copy, Debug, PartialEq, Eq, Structural)]
pub enum RowField {
    Kills,
    Deaths,
    Assists,
    AllyChampion,
    Status,
    TeamColumn,
    EnemyChampion,
}

/// Why a row that has a duration could not be read.
#[derive(Clone, Copy, Debug, PartialEq, Eq, Structural)]
pub enum RowFault {
    Malformed(RowField),
    RoleOutOfRange,
}

/// Why a whole extraction failed. `row` is the 1-based position of the row in
/// the table.
#[derive(Clone, Copy, Debug, PartialEq, Eq, Structural)]
pub enum ExtractionError {
    TableNotFound,
    RowMalformed { row: usize, field: RowField },
    RoleIndexOutOfRange { row: usize },
}

pub open spec fn number_field(f: Option<Seq<char>>) -> Option<u8> {
    match f {
        Some(t) => byte_of_text(t),
        None => None,
    }
}

/// The champion at a slot of a team column.
pub open spec fn slot_champion(column: Seq<Option<Seq<char>>>, slot: nat) -> Result<Seq<char>, RowFault> {
    if slot >= column.len() {
        Err(RowFault::RoleOutOfRange)
    } else {
        match column[slot as int] {
            Some(a) => Ok(a),
            None => Err(RowFault::Malformed(RowField::EnemyChampion)),
        }
    }
}

/// The enemy champion of a row: the role slot of the first team column, or,
/// where that names the ally champion, the role slot of the second one.
pub open spec fn enemy_of(row: RowView, slot: nat, ally: Seq<char>) -> Result<Seq<char>, RowFault> {
    if row.columns.len() == 0 {
        Err(RowFault::Malformed(RowField::TeamColumn))
    } else {
        match slot_champion(row.columns[0], slot) {
            Err(f) => Err(f),
            Ok(first) => if first != ally {
                Ok(first)
            } else if row.columns.len() < 2 {
                Err(RowFault::Malformed(RowField::TeamColumn))
            } else {
                slot_champion(row.columns[1], slot)
            },
        }
    }
}

/// What one row gives: no game where it has no duration, else a game (still
/// unnumbered) or the first missing field, in the order the fields are read.
pub open spec fn row_outcome(row: RowView, slot: nat) -> Result<Option<GameView>, RowFault> {
    if row.duration is None {
        Ok(None)
    } else if number_field(row.kills) is None {
        Err(RowFault::Malformed(RowField::Kills))
    } else if number_field(row.deaths) is None {
        Err(RowFault::Malformed(RowField::Deaths))
    } else if number_field(row.assists) is None {
        Err(RowFault::Malformed(RowField::Assists))
    } else if row.ally_champ is None {
        Err(RowFault::Malformed(RowField::AllyChampion))
    } else if row.status is None {
        Err(RowFault::Malformed(RowField::Status))
    } else {
        match enemy_of(row, slot, row.ally_champ.unwrap()) {
            Err(f) => Err(f),
            Ok(enemy) => Ok(
                Some(
                    GameView {
                        num: 0,
                        ally_champ: row.ally_champ.unwrap(),
                        enemy_champ: enemy,
                        win: row.status.unwrap() == "Victory"@,
                        kda: Kda {
                            kills: number_field(row.kills).unwrap(),
                            deaths: number_field(row.deaths).unwrap(),
                            assists: number_field(row.assists).unwrap(),
                        },
                        duration: row.duration.unwrap(),
                    },
                ),
            ),
        }
    }
}

pub open spec fn row_result_view(r: Result<Option<Game>, RowFault>) -> Result<Option<GameView>, RowFault> {
    match r {
        Ok(Some(g)) => Ok(Some(g@)),
        Ok(None) => Ok(None),
        Err(f) => Err(f),
    }
}

/// The extraction error for a row fault at a table position.
pub open spec fn row_error(f: RowFault, position: nat) -> ExtractionError {
    match f {
        RowFault::Malformed(field) => ExtractionError::RowMalformed { row: position as usize, field },
        RowFault::RoleOutOfRange => ExtractionError::RoleIndexOutOfRange { row: position as usize },
    }
}

/// The games of a run of rows in table order, the first of which stands at
/// table position `first`; the first fault ends the run.
pub open spec fn rows_outcome(rows: Seq<RowView>, slot: nat, first: nat) -> Result<Seq<GameView>, ExtractionError>
    decreases rows.len(),
{
    if rows.len() == 0 {
        Ok(seq![])
    } else {
        match rows_outcome(rows.drop_last(), slot, first) {
            Err(e) => Err(e),
            Ok(games) => match row_outcome(rows.last(), slot) {
                Err(f) => Err(row_error(f, (first + rows.len() - 1) as nat)),
                Ok(None) => Ok(games),
                Ok(Some(g)) => Ok(games.push(g)),
            },
        }
    }
}

/// The rows of a table that hold the requested block: past the headers, and
/// no further than `n` rows.
pub open spec fn block_rows(table: Seq<RowView>, n: nat) -> Seq<RowView> {
    let end = if table.len() < n + USELESS_ROW_COUNT { table.len() } else { (n + USELESS_ROW_COUNT) as nat };
    if end <= USELESS_ROW_COUNT {
        seq![]
    } else {
        table.subrange(USELESS_ROW_COUNT as int, end as int)
    }
}

pub open spec fn with_num(g: GameView, num: nat) -> GameView {
    GameView {
        num,
        ally_champ: g.ally_champ,
        enemy_champ: g.enemy_champ,
        win: g.win,
        kda: g.kda,
        duration: g.duration,
    }
}

/// Games found newest first, put oldest first and numbered from 1.
pub open spec fn chronological(games: Seq<GameView>) -> Seq<GameView> {
    Seq::new(games.len(), |i: int| with_num(games[games.len() - 1 - i], (i + 1) as nat))
}

/// The session that a table gives for a role and a block size, or the first
/// fault met in the block.
pub open spec fn history_outcome(table: Seq<RowView>, role: Role, n: nat, date: Seq<char>) -> Result<SessionView, ExtractionError> {
    match rows_outcome(block_rows(table, n), role_slot(role), (USELESS_ROW_COUNT + 1) as nat) {
        Err(e) => Err(e),
        Ok(games) => Ok(SessionView { date, games: chronological(games) }),
    }
}

pub open spec fn session_result_view(r: Result<Session, ExtractionError>) -> Result<SessionView, ExtractionError> {
    match r {
        Ok(s) => Ok(s@),
        Err(e) => Err(e),
    }
}

fn read_count(f: &Option<String>) -> (r: Option<u8>)
    ensures
        r == number_field(opt_view(*f)),
{
    match f {
        Some(t) => parse_byte(t.as_str()),
        None => None,
    }
}

fn read_slot(column: &Vec<Option<String>>, slot: usize) -> (r: Result<String, RowFault>)
    ensures
        match r {
            Ok(s) => slot_champion(column_view(*column), slot as nat) == Ok::<Seq<char>, RowFault>(s@),
            Err(f) => slot_champion(column_view(*column), slot as nat) == Err::<Seq<char>, RowFault>(f),
        },
{
    if slot >= column.len() {
        Err(RowFault::RoleOutOfRange)
    } else {
        match &column[slot] {
            Some(a) => Ok(a.clone()),
            None => Err(RowFault::Malformed(RowField::EnemyChampion)),
        }
    }
}

/// Picks the enemy champion of a row, falling back to the second team column
/// when the first one's role slot names the ally champion. This cannot tell a
/// true mirror match from a misread column.
pub fn enemy_champion(row: &RowFields, slot: usize, ally: &String) -> (r: Result<String, RowFault>)
    ensures
        match r {
            Ok(s) => enemy_of(row@, slot as nat, ally@) == Ok::<Seq<char>, RowFault>(s@),
            Err(f) => enemy_of(row@, slot as nat, ally@) == Err::<Seq<char>, RowFault>(f),
        },
{
    if row.columns.len() == 0 {
        return Err(RowFault::Malformed(RowField::TeamColumn));
    }
    let first = match read_slot(&row.columns[0], slot) {
        Err(f) => return Err(f),
        Ok(s) => s,
    };
    if !(first == *ally) {
        Ok(first)
    } else if row.columns.len() < 2 {
        Err(RowFault::Malformed(RowField::TeamColumn))
    } else {
        read_slot(&row.columns[1], slot)
    }
}

/// Reads one row into an unnumbered game (`num` is 0), or nothing where the
/// row has no duration.
pub fn interpret_row(row: &RowFields, slot: usize) -> (r: Result<Option<Game>, RowFault>)
    ensures
        row_result_view(r) == row_outcome(row@, slot as nat),
{
    let duration = match &row.duration {
        None => return Ok(None),
        Some(d) => d.clone(),
    };
    let kills = match read_count(&row.kills) {
        None => return Err(RowFault::Malformed(RowField::Kills)),
        Some(v) => v,
    };
    let deaths = match read_count(&row.deaths) {
        None => return Err(RowFault::Malformed(RowField::Deaths)),
        Some(v) => v,
    };
    let assists = match read_count(&row.assists) {
        None => return Err(RowFault::Malformed(RowField::Assists)),
        Some(v) => v,
    };
    let ally_champ = match &row.ally_champ {
        None => return Err(RowFault::Malformed(RowField::AllyChampion)),
        Some(a) => a.clone(),
    };
    let win = match &row.status {
        None => return Err(RowFault::Malformed(RowField::Status)),
        Some(s) => {
            proof {
                reveal_strlit("Victory");
            }
            *s == String::from_str("Victory")
        },
    };
    let enemy_champ = match enemy_champion(row, slot, &ally_champ) {
        Err(f) => return Err(f),
        Ok(e) => e,
    };
    let game = Game { num: 0, ally_champ, enemy_champ, win, kda: Kda { kills, deaths, assists }, duration };
    Ok(Some(game))
}

/// How many rows of a run have a duration.
pub open spec fn timed_count(rows: Seq<RowView>) -> nat
    decreases rows.len(),
{
    if rows.len() == 0 {
        0
    } else {
        timed_count(rows.drop_last()) + if rows.last().duration is Some {
            1nat
        } else {
            0nat
        }
    }
}

/// A run of rows that is read whole gives one game for each row with a
/// duration, and so never more games than rows.
pub proof fn lemma_outcome_count(rows: Seq<RowView>, slot: nat, first: nat)
    ensures
        timed_count(rows) <= rows.len(),
        rows_outcome(rows, slot, first) is Ok ==> rows_outcome(rows, slot, first)->Ok_0.len()
            == timed_count(rows),
    decreases rows.len(),
{
    if rows.len() > 0 {
        lemma_outcome_count(rows.drop_last(), slot, first);
    }
}

/// Once a prefix of a run of rows has failed, the whole run fails the same way.
pub proof fn lemma_prefix_fault(rows: Seq<RowView>, k: int, slot: nat, first: nat)
    requires
        0 <= k <= rows.len(),
        rows_outcome(rows.take(k), slot, first) is Err,
    ensures
        rows_outcome(rows, slot, first) == rows_outcome(rows.take(k), slot, first),
    decreases rows.len(),
{
    if k < rows.len() {
        assert(rows.drop_last().take(k) =~= rows.take(k));
        lemma_prefix_fault(rows.drop_last(), k, slot, first);
    } else {
        assert(rows.take(k) =~= rows);
    }
}

/// A run of rows never fails for want of a table.
pub proof fn lemma_no_missing_table(rows: Seq<RowView>, slot: nat, first: nat)
    ensures
        rows_outcome(rows, slot, first) != Err::<Seq<GameView>, ExtractionError>(ExtractionError::TableNotFound),
    decreases rows.len(),
{
    if rows.len() > 0 {
        lemma_no_missing_table(rows.drop_last(), slot, first);
    }
}

fn fault_error(f: RowFault, position: usize) -> (r: ExtractionError)
    ensures
        r == row_error(f, position as nat),
{
    match f {
        RowFault::Malformed(field) => ExtractionError::RowMalformed { row: position, field },
        RowFault::RoleOutOfRange => ExtractionError::RoleIndexOutOfRange { row: position },
    }
}

/// Builds the session of a table's rows (headers included, newest game
/// first): reads the rows of the block in table order, stops at the first
/// fault, and hands the games back oldest first, numbered from 1.
pub fn history_from_rows(table: &Vec<RowFields>, role: Role, block_game_count: u8, date: String) -> (r: Result<Session, ExtractionError>)
    ensures
        session_result_view(r) == history_outcome(rows_view(table@), role, block_game_count as nat, date@),
{
    let slot = role.value() as usize;
    let n = block_game_count as usize;
    let end = if table.len() < n + USELESS_ROW_COUNT {
        table.len()
    } else {
        n + USELESS_ROW_COUNT
    };
    let ghost block = block_rows(rows_view(table@), n as nat);
    let ghost first = (USELESS_ROW_COUNT + 1) as nat;
    assert(block.len() == if end <= 2 { 0 } else { end - 2 });
    let mut found: Vec<Game> = Vec::new();
    let mut i: usize = USELESS_ROW_COUNT;
    assert(block.take(0) =~= seq![]);
    while i < end
        invariant
            2 <= i,
            n == block_game_count as usize,
            i <= end || end <= 2,
            end <= table@.len(),
            rows_view(table@).len() == table@.len(),
            end <= n + 2,
            i - 2 <= block.len(),
            block.len() == if end <= 2 { 0 } else { end - 2 },
            block == block_rows(rows_view(table@), n as nat),
            first == 3,
            slot == role_slot(role),
            rows_outcome(block.take(i - 2), slot as nat, first) is Ok,
            games_view(found@) == rows_outcome(block.take(i - 2), slot as nat, first)->Ok_0,
        decreases end - i,
    {
        let ghost before = block.take(i - 2);
        let ghost after = block.take(i + 1 - 2);
        assert(after.drop_last() =~= before);
        assert(after.last() == table@[i as int]@);
        match interpret_row(&table[i], slot) {
            Err(f) => {
                proof {
                    lemma_prefix_fault(block, (i + 1 - 2) as int, slot as nat, first);
                }
                return Err(fault_error(f, i + 1));
            },
            Ok(None) => {},
            Ok(Some(g)) => {
                let ghost old_found = found@;
                found.push(g);
                assert(games_view(found@) =~= games_view(old_found).push(g@));
            },
        }
        i = i + 1;
    }
    let ghost all = games_view(found@);
    proof {
        if end > 2 {
            assert(block.take(i - 2) =~= block);
        } else {
            assert(block =~= block.take(i - 2));
        }
        lemma_outcome_count(block, slot as nat, first);
    }
    let total = found.len();
    let mut games: Vec<Game> = Vec::new();
    while found.len() > 0
        invariant
            found.len() + games.len() == total,
            total == all.len(),
            total <= n,
            n <= 255,
            games_view(found@) == all.take(found.len() as int),
            games_view(games@) == chronological(all).take(games.len() as int),
        decreases found.len(),
    {
        let ghost old_found = found@;
        let mut g = found.pop().unwrap();
        assert(old_found.drop_last() =~= found@);
        assert(games_view(old_found)[old_found.len() - 1] == g@);
        assert(games_view(found@) =~= all.take(found.len() as int));
        g.num = (games.len() + 1) as u8;
        games.push(g);
        assert(games_view(games@) =~= chronological(all).take(games.len() as int));
    }
    assert(games_view(games@) =~= chronological(all));
    Ok(Session { date, games })
}

proof fn lemma_timed_count_full(rows: Seq<RowView>)
    ensures
        timed_count(rows) == rows.len() <==> forall|j: int| 0 <= j < rows.len() ==> (#[trigger] rows[j]).duration is Some,
    decreases rows.len(),
{
    if rows.len() > 0 {
        let init = rows.drop_last();
        lemma_timed_count_full(init);
        lemma_outcome_count(init, 0, 0);
        if forall|j: int| 0 <= j < rows.len() ==> (#[trigger] rows[j]).duration is Some {
            assert forall|j: int| 0 <= j < init.len() implies (#[trigger] init[j]).duration is Some by {
                assert(init[j] == rows[j]);
            }
            assert(rows[rows.len() - 1] == rows.last());
        }
        if timed_count(rows) == rows.len() {
            assert forall|j: int| 0 <= j < rows.len() implies (#[trigger] rows[j]).duration is Some by {
                if j < init.len() {
                    assert(init[j] == rows[j]);
                }
            }
        }
    }
}

/// A table that holds the whole block gives at most `n` games: one for each
/// row of the block that has a duration, so exactly `n` when every one has.
pub proof fn lemma_block_size(table: Seq<RowView>, role: Role, n: nat, date: Seq<char>)
    requires
        table.len() >= n + USELESS_ROW_COUNT,
    ensures
        block_rows(table, n).len() == n,
        history_outcome(table, role, n, date) is Ok ==> {
            let games = history_outcome(table, role, n, date)->Ok_0.games;
            &&& games.len() == timed_count(block_rows(table, n))
            &&& games.len() <= n
            &&& (games.len() == n <==> forall|j: int| 0 <= j < n ==> (#[trigger] block_rows(table, n)[j]).duration is Some)
        },
{
    let block = block_rows(table, n);
    lemma_outcome_count(block, role_slot(role), (USELESS_ROW_COUNT + 1) as nat);
    lemma_timed_count_full(block);
}

/// The games of a session are numbered 1, 2, 3, ... in order.
pub proof fn lemma_numbered_from_one(table: Seq<RowView>, role: Role, n: nat, date: Seq<char>)
    ensures
        history_outcome(table, role, n, date) is Ok ==> {
            let games = history_outcome(table, role, n, date)->Ok_0.games;
            forall|i: int| 0 <= i < games.len() ==> (#[trigger] games[i]).num == i + 1
        },
{
}

/// A row shows a game: its duration, its kill, death and assist counts in
/// base ten, the ally champion first, `Victory` or `Defeat`, and the enemy
/// champion at the role slot of the first team column; where the enemy is the
/// ally's own champion, it also stands at the role slot of the second column.
pub open spec fn renders_game(row: RowView, g: GameView, slot: nat) -> bool {
    &&& row.duration == Some(g.duration)
    &&& row.kills == Some(decimal_text(g.kda.kills as nat))
    &&& row.deaths == Some(decimal_text(g.kda.deaths as nat))
    &&& row.assists == Some(decimal_text(g.kda.assists as nat))
    &&& row.ally_champ == Some(g.ally_champ)
    &&& row.status == Some(if g.win { "Victory"@ } else { "Defeat"@ })
    &&& row.columns.len() >= 1
    &&& slot < row.columns[0].len()
    &&& row.columns[0][slot as int] == Some(g.enemy_champ)
    &&& g.enemy_champ == g.ally_champ ==> {
        &&& row.columns.len() >= 2
        &&& slot < row.columns[1].len()
        &&& row.columns[1][slot as int] == Some(g.enemy_champ)
    }
}

/// A row that shows a game reads back as that game, unnumbered.
pub proof fn lemma_row_round_trip(row: RowView, g: GameView, slot: nat)
    requires
        renders_game(row, g, slot),
    ensures
        row_outcome(row, slot) == Ok::<Option<GameView>, RowFault>(Some(with_num(g, 0))),
{
    reveal_strlit("Victory");
    reveal_strlit("Defeat");
    lemma_byte_text_round_trip(g.kda.kills);
    lemma_byte_text_round_trip(g.kda.deaths);
    lemma_byte_text_round_trip(g.kda.assists);
    assert(("Victory"@ == "Defeat"@) == false) by {
        assert("Victory"@[0] != "Defeat"@[0]);
    }
}

proof fn lemma_rendered_rows(rows: Seq<RowView>, shown: Seq<GameView>, slot: nat, first: nat)
    requires
        rows.len() == shown.len(),
        forall|j: int| 0 <= j < rows.len() ==> renders_game(#[trigger] rows[j], shown[j], slot),
    ensures
        rows_outcome(rows, slot, first) == Ok::<Seq<GameView>, ExtractionError>(
            Seq::new(shown.len(), |j: int| with_num(shown[j], 0)),
        ),
    decreases rows.len(),
{
    if rows.len() > 0 {
        let k = rows.len() - 1;
        assert forall|j: int| 0 <= j < k implies renders_game(#[trigger] rows.drop_last()[j], shown.drop_last()[j], slot) by {
            assert(rows.drop_last()[j] == rows[j]);
        }
        lemma_rendered_rows(rows.drop_last(), shown.drop_last(), slot, first);
        assert(renders_game(rows[k], shown[k], slot));
        lemma_row_round_trip(rows.last(), shown.last(), slot);
        assert(Seq::new(shown.drop_last().len(), |j: int| with_num(shown.drop_last()[j], 0)).push(with_num(shown.last(), 0))
            =~= Seq::new(shown.len(), |j: int| with_num(shown[j], 0)));
    } else {
        assert(Seq::new(shown.len(), |j: int| with_num(shown[j], 0)) =~= seq![]);
    }
}

/// A table whose block rows show known games, newest first, gives back those
/// games oldest first, with their numbers, fields and date.
pub proof fn lemma_round_trip(table: Seq<RowView>, games: Seq<GameView>, role: Role, date: Seq<char>)
    requires
        table.len() == games.len() + USELESS_ROW_COUNT,
        forall|i: int| 0 <= i < games.len() ==> (#[trigger] games[i]).num == i + 1,
        forall|j: int|
            0 <= j < games.len() ==> renders_game(
                #[trigger] table[j + USELESS_ROW_COUNT],
                games[games.len() - 1 - j],
                role_slot(role),
            ),
    ensures
        history_outcome(table, role, games.len(), date) == Ok::<SessionView, ExtractionError>(
            SessionView { date, games },
        ),
{
    let n = games.len();
    let block = block_rows(table, n);
    let shown = Seq::new(n, |j: int| games[n - 1 - j]);
    if n > 0 {
        assert(block =~= table.subrange(2, (n + 2) as int));
    } else {
        assert(block =~= seq![]);
    }
    assert forall|j: int| 0 <= j < block.len() implies renders_game(#[trigger] block[j], shown[j], role_slot(role)) by {
        assert(block[j] == table[j + USELESS_ROW_COUNT]);
    }
    lemma_rendered_rows(block, shown, role_slot(role), (USELESS_ROW_COUNT + 1) as nat);
    let found = Seq::new(shown.len(), |j: int| with_num(shown[j], 0));
    assert(chronological(found) =~= games) by {
        assert forall|i: int| 0 <= i < n implies chronological(found)[i] == games[i] by {
            assert(found[n - 1 - i] == with_num(games[i], 0));
        }
    }
}

/// Where the role slot of the first team column names the ally champion, the
/// enemy champion is the one at the role slot of the second column; it equals
/// the ally champion only where that second one does too.
pub proof fn lemma_disambiguation(row: RowView, slot: nat)
    requires
        row_outcome(row, slot) is Ok,
        row_outcome(row, slot)->Ok_0 is Some,
        row.columns.len() > 0,
        slot < row.columns[0].len(),
        row.columns[0][slot as int] == row.ally_champ,
    ensures
        row.columns.len() >= 2,
        slot < row.columns[1].len(),
        row.columns[1][slot as int] is Some,
        ({
            let g = row_outcome(row, slot)->Ok_0.unwrap();
            &&& g.enemy_champ == row.columns[1][slot as int].unwrap()
            &&& (g.enemy_champ == g.ally_champ <==> row.columns[1][slot as int].unwrap() == g.ally_champ)
        }),
{
}

/// A row without a duration adds no game and ends nothing: the run reads on
/// as if the row were not there.
pub proof fn lemma_untimed_row_skipped(rows: Seq<RowView>, row: RowView, slot: nat, first: nat)
    requires
        row.duration is None,
    ensures
        rows_outcome(rows.push(row), slot, first) == rows_outcome(rows, slot, first),
{
    assert(rows.push(row).drop_last() =~= rows);
}

/// The first of the kill, death and assist fields that a row lacks or cannot
/// read as a byte.
pub open spec fn missing_count(row: RowView) -> RowField {
    if number_field(row.kills) is None {
        RowField::Kills
    } else if number_field(row.deaths) is None {
        RowField::Deaths
    } else {
        RowField::Assists
    }
}

/// A block row with a duration but without a readable kill, death or assist
/// count fails the whole extraction, so no game comes out; where no earlier
/// row failed, the failure names that row and field.
pub proof fn lemma_missing_count_aborts(table: Seq<RowView>, role: Role, n: nat, date: Seq<char>, k: int)
    requires
        USELESS_ROW_COUNT <= k < table.len(),
        k < n + USELESS_ROW_COUNT,
        table[k].duration is Some,
        number_field(table[k].kills) is None || number_field(table[k].deaths) is None
            || number_field(table[k].assists) is None,
    ensures
        history_outcome(table, role, n, date) is Err,
        rows_outcome(block_rows(table, n).take(k - USELESS_ROW_COUNT), role_slot(role), (USELESS_ROW_COUNT + 1) as nat) is Ok
            ==> history_outcome(table, role, n, date) == Err::<SessionView, ExtractionError>(
            ExtractionError::RowMalformed { row: (k + 1) as usize, field: missing_count(table[k]) },
        ),
{
    let block = block_rows(table, n);
    let slot = role_slot(role);
    let first = (USELESS_ROW_COUNT + 1) as nat;
    let m = k - USELESS_ROW_COUNT;
    assert(block[m] == table[k]);
    let upto = block.take(m + 1);
    assert(upto.drop_last() =~= block.take(m));
    assert(upto.last() == table[k]);
    lemma_prefix_fault_any(block, m, slot, first);
    lemma_prefix_fault(block, m + 1, slot, first);
}

proof fn lemma_prefix_fault_any(rows: Seq<RowView>, m: int, slot: nat, first: nat)
    requires
        0 <= m < rows.len(),
        rows[m].duration is Some,
        row_outcome(rows[m], slot) is Err,
    ensures
        rows_outcome(rows.take(m + 1), slot, first) is Err,
{
    let upto = rows.take(m + 1);
    assert(upto.drop_last() =~= rows.take(m));
    assert(upto.last() == rows[m]);
}

} // verus!
