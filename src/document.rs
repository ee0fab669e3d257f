use vstd::prelude::*;
use vstd::string::StringExecFns;
use scraper::{Html, Selector};
use crate::game_structs::{Player, Session, games_view, role_slot};
use crate::history::{
    ExtractionError, RowFields, RowView, USELESS_ROW_COUNT, block_rows, column_view, history_from_rows,
    history_outcome, lemma_no_missing_table, lemma_outcome_count, opt_view, rows_view, session_result_view,
};
use crate::text::{trim_text, trimmed};

verus! {

#[verifier::external_type_specification]
#[verifier::external_body]
pub struct ExHtml(scraper::Html);

#[verifier::external_type_specification]
#[verifier::external_body]
pub struct ExSelector(scraper::Selector);

/// Whether scraper's `Selector::parse` accepts a pattern.
pub uninterp spec fn selector_parses(pattern: Seq<char>) -> bool;

/// How many elements of the page parsed from `markup` match `pattern`.
pub uninterp spec fn match_count(markup: Seq<char>, pattern: Seq<char>) -> nat;

/// How many elements match `row` inside the first element that matches `body`.
pub uninterp spec fn row_count(markup: Seq<char>, body: Seq<char>, row: Seq<char>) -> nat;

/// How many elements match `field` inside row `k`.
pub uninterp spec fn row_match_count(markup: Seq<char>, body: Seq<char>, row: Seq<char>, k: nat, field: Seq<char>) -> nat;

/// The inner markup of match `j` of `field` inside row `k`.
pub uninterp spec fn row_match_inner_html(
    markup: Seq<char>,
    body: Seq<char>,
    row: Seq<char>,
    k: nat,
    field: Seq<char>,
    j: nat,
) -> Seq<char>;

/// The value of attribute `attr` of match `j` of `field` inside row `k`.
pub uninterp spec fn row_match_attribute(
    markup: Seq<char>,
    body: Seq<char>,
    row: Seq<char>,
    k: nat,
    field: Seq<char>,
    j: nat,
    attr: Seq<char>,
) -> Option<Seq<char>>;

/// How many elements match `image` inside match `c` of `column` in row `k`.
pub uninterp spec fn column_match_count(
    markup: Seq<char>,
    body: Seq<char>,
    row: Seq<char>,
    k: nat,
    column: Seq<char>,
    c: nat,
    image: Seq<char>,
) -> nat;

/// The value of attribute `attr` of match `i` of `image` inside match `c` of
/// `column` in row `k`.
pub uninterp spec fn column_match_attribute(
    markup: Seq<char>,
    body: Seq<char>,
    row: Seq<char>,
    k: nat,
    column: Seq<char>,
    c: nat,
    image: Seq<char>,
    i: nat,
    attr: Seq<char>,
) -> Option<Seq<char>>;

/// A page parsed together with the markup it came from. Its fields are
/// private and `Page::parse` is its only constructor, so `html` is always
/// the tree of `markup`.
pub struct Page {
    markup: String,
    html: Html,
}

impl View for Page {
    type V = Seq<char>;

    closed spec fn view(&self) -> Seq<char> {
        self.markup@
    }
}

/// A compiled selector together with its pattern. Its fields are private and
/// `Query::compile` is its only constructor, so `compiled` is always what
/// the pattern compiles to.
pub struct Query {
    pattern: String,
    compiled: Selector,
}

impl View for Query {
    type V = Seq<char>;

    closed spec fn view(&self) -> Seq<char> {
        self.pattern@
    }
}

/// Relies on scraper's `Html::parse_document`: the element tree of a page.
#[verifier::external_body]
fn parse_document(markup: &str) -> Html {
    Html::parse_document(markup)
}

/// Relies on scraper's `Selector::parse`: a compiled selector group exactly
/// where it accepts the pattern.
#[verifier::external_body]
fn compile_selector(pattern: &str) -> (r: Option<Selector>)
    ensures
        r is Some <==> selector_parses(pattern@),
{
    Selector::parse(pattern).ok()
}

/// Relies on scraper's `Html::select`: the number of matching elements.
#[verifier::external_body]
fn count_matches(page: &Page, q: &Query) -> (r: usize)
    ensures
        r as nat == match_count(page@, q@),
{
    page.html.select(&q.compiled).count()
}

/// Relies on scraper's `Html::select` and `ElementRef::select`: the number of
/// rows in the first table body.
#[verifier::external_body]
fn count_rows(page: &Page, body: &Query, row: &Query) -> (r: usize)
    requires
        0 < match_count(page@, body@),
    ensures
        r as nat == row_count(page@, body@, row@),
{
    page.html.select(&body.compiled).nth(0).unwrap().select(&row.compiled).count()
}

/// Relies on scraper's `Html::select` and `ElementRef::select`: the number of
/// matches of a field in row `k`.
#[verifier::external_body]
fn count_in_row(page: &Page, body: &Query, row: &Query, k: usize, field: &Query) -> (r: usize)
    requires
        0 < match_count(page@, body@),
        k < row_count(page@, body@, row@),
    ensures
        r as nat == row_match_count(page@, body@, row@, k as nat, field@),
{
    let tr = page.html.select(&body.compiled).nth(0).unwrap().select(&row.compiled).nth(k).unwrap();
    tr.select(&field.compiled).count()
}

/// Relies on scraper's `ElementRef::inner_html`: the markup inside match `j`
/// of a field in row `k`.
#[verifier::external_body]
fn inner_html_in_row(page: &Page, body: &Query, row: &Query, k: usize, field: &Query, j: usize) -> (r: String)
    requires
        0 < match_count(page@, body@),
        k < row_count(page@, body@, row@),
        j < row_match_count(page@, body@, row@, k as nat, field@),
    ensures
        r@ == row_match_inner_html(page@, body@, row@, k as nat, field@, j as nat),
{
    let tr = page.html.select(&body.compiled).nth(0).unwrap().select(&row.compiled).nth(k).unwrap();
    tr.select(&field.compiled).nth(j).unwrap().inner_html()
}

/// Relies on scraper's `ElementRef::attr`: an attribute of match `j` of a
/// field in row `k`, if that element has it.
#[verifier::external_body]
fn attribute_in_row(page: &Page, body: &Query, row: &Query, k: usize, field: &Query, j: usize, attr: &str) -> (r: Option<String>)
    requires
        0 < match_count(page@, body@),
        k < row_count(page@, body@, row@),
        j < row_match_count(page@, body@, row@, k as nat, field@),
    ensures
        opt_view(r) == row_match_attribute(page@, body@, row@, k as nat, field@, j as nat, attr@),
{
    let tr = page.html.select(&body.compiled).nth(0).unwrap().select(&row.compiled).nth(k).unwrap();
    tr.select(&field.compiled).nth(j).unwrap().attr(attr).map(String::from)
}

/// Relies on scraper's `ElementRef::select`: the number of images in team
/// column `c` of row `k`.
#[verifier::external_body]
fn count_in_column(page: &Page, body: &Query, row: &Query, k: usize, column: &Query, c: usize, image: &Query) -> (r: usize)
    requires
        0 < match_count(page@, body@),
        k < row_count(page@, body@, row@),
        c < row_match_count(page@, body@, row@, k as nat, column@),
    ensures
        r as nat == column_match_count(page@, body@, row@, k as nat, column@, c as nat, image@),
{
    let tr = page.html.select(&body.compiled).nth(0).unwrap().select(&row.compiled).nth(k).unwrap();
    tr.select(&column.compiled).nth(c).unwrap().select(&image.compiled).count()
}

/// Relies on scraper's `ElementRef::attr`: an attribute of image `i` in team
/// column `c` of row `k`, if that image has it.
#[verifier::external_body]
fn attribute_in_column(
    page: &Page,
    body: &Query,
    row: &Query,
    k: usize,
    column: &Query,
    c: usize,
    image: &Query,
    i: usize,
    attr: &str,
) -> (r: Option<String>)
    requires
        0 < match_count(page@, body@),
        k < row_count(page@, body@, row@),
        c < row_match_count(page@, body@, row@, k as nat, column@),
        i < column_match_count(page@, body@, row@, k as nat, column@, c as nat, image@),
    ensures
        opt_view(r) == column_match_attribute(page@, body@, row@, k as nat, column@, c as nat, image@, i as nat, attr@),
{
    let tr = page.html.select(&body.compiled).nth(0).unwrap().select(&row.compiled).nth(k).unwrap();
    let col = tr.select(&column.compiled).nth(c).unwrap();
    col.select(&image.compiled).nth(i).unwrap().attr(attr).map(String::from)
}

impl Page {
    pub fn parse(markup: &str) -> (r: Page)
        ensures
            r@ == markup@,
    {
        Page { markup: String::from_str(markup), html: parse_document(markup) }
    }
}

impl Query {
    /// Compiles a pattern; `None` exactly where it is no selector group.
    pub fn compile(pattern: &str) -> (r: Option<Query>)
        ensures
            r is Some <==> selector_parses(pattern@),
            r is Some ==> r.unwrap()@ == pattern@,
    {
        match compile_selector(pattern) {
            Some(compiled) => Some(Query { pattern: String::from_str(pattern), compiled }),
            None => None,
        }
    }
}

pub const TABLE_BODY_PATTERN: &'static str = "table.data_table.relative.recentGamesTable.inverted_rows_color>tbody";
pub const ROW_PATTERN: &'static str = "tr";
pub const KILLS_PATTERN: &'static str = "span.kills";
pub const DEATHS_PATTERN: &'static str = "span.deaths";
pub const ASSISTS_PATTERN: &'static str = "span.assists";
pub const DURATION_PATTERN: &'static str = ".gameDuration";
pub const CHAMPION_IMAGE_PATTERN: &'static str = "img";
pub const STATUS_PATTERN: &'static str = ".victoryDefeatText";
pub const TEAM_COLUMN_PATTERN: &'static str = ".summonerColumn";
pub const CHAMPION_NAME_ATTRIBUTE: &'static str = "alt";

/// Whether every pattern the extraction reads by compiles.
pub open spec fn patterns_parse() -> bool {
    &&& selector_parses(TABLE_BODY_PATTERN@)
    &&& selector_parses(ROW_PATTERN@)
    &&& selector_parses(KILLS_PATTERN@)
    &&& selector_parses(DEATHS_PATTERN@)
    &&& selector_parses(ASSISTS_PATTERN@)
    &&& selector_parses(DURATION_PATTERN@)
    &&& selector_parses(CHAMPION_IMAGE_PATTERN@)
    &&& selector_parses(STATUS_PATTERN@)
    &&& selector_parses(TEAM_COLUMN_PATTERN@)
}

/// The compiled selectors of every element the extraction reads, each for
/// its fixed pattern.
pub struct Selectors {
    table_body: Query,
    row: Query,
    kills: Query,
    deaths: Query,
    assists: Query,
    duration: Query,
    champion_image: Query,
    status: Query,
    team_column: Query,
}

impl Selectors {
    #[verifier::type_invariant]
    spec fn fixed(&self) -> bool {
        &&& self.table_body@ == TABLE_BODY_PATTERN@
        &&& self.row@ == ROW_PATTERN@
        &&& self.kills@ == KILLS_PATTERN@
        &&& self.deaths@ == DEATHS_PATTERN@
        &&& self.assists@ == ASSISTS_PATTERN@
        &&& self.duration@ == DURATION_PATTERN@
        &&& self.champion_image@ == CHAMPION_IMAGE_PATTERN@
        &&& self.status@ == STATUS_PATTERN@
        &&& self.team_column@ == TEAM_COLUMN_PATTERN@
    }

    /// Compiles every pattern once; `None` exactly where one of them does not
    /// parse.
    pub fn new() -> (r: Option<Selectors>)
        ensures
            r is Some <==> patterns_parse(),
    {
        let table_body = Query::compile(TABLE_BODY_PATTERN)?;
        let row = Query::compile(ROW_PATTERN)?;
        let kills = Query::compile(KILLS_PATTERN)?;
        let deaths = Query::compile(DEATHS_PATTERN)?;
        let assists = Query::compile(ASSISTS_PATTERN)?;
        let duration = Query::compile(DURATION_PATTERN)?;
        let champion_image = Query::compile(CHAMPION_IMAGE_PATTERN)?;
        let status = Query::compile(STATUS_PATTERN)?;
        let team_column = Query::compile(TEAM_COLUMN_PATTERN)?;
        Some(Selectors { table_body, row, kills, deaths, assists, duration, champion_image, status, team_column })
    }
}

/// The inner markup of the first match of `field` in row `k`, if any.
pub open spec fn first_inner_html(markup: Seq<char>, k: nat, field: Seq<char>) -> Option<Seq<char>> {
    if row_match_count(markup, TABLE_BODY_PATTERN@, ROW_PATTERN@, k, field) > 0 {
        Some(row_match_inner_html(markup, TABLE_BODY_PATTERN@, ROW_PATTERN@, k, field, 0))
    } else {
        None
    }
}

/// The champion name of the first image of row `k`, if there is an image and
/// it has a name.
pub open spec fn first_champion(markup: Seq<char>, k: nat) -> Option<Seq<char>> {
    if row_match_count(markup, TABLE_BODY_PATTERN@, ROW_PATTERN@, k, CHAMPION_IMAGE_PATTERN@) > 0 {
        row_match_attribute(
            markup,
            TABLE_BODY_PATTERN@,
            ROW_PATTERN@,
            k,
            CHAMPION_IMAGE_PATTERN@,
            0,
            CHAMPION_NAME_ATTRIBUTE@,
        )
    } else {
        None
    }
}

/// The champion names of the images of team column `c` of row `k`.
pub open spec fn column_names(markup: Seq<char>, k: nat, c: nat) -> Seq<Option<Seq<char>>> {
    Seq::new(
        column_match_count(markup, TABLE_BODY_PATTERN@, ROW_PATTERN@, k, TEAM_COLUMN_PATTERN@, c, CHAMPION_IMAGE_PATTERN@),
        |i: int|
            column_match_attribute(
                markup,
                TABLE_BODY_PATTERN@,
                ROW_PATTERN@,
                k,
                TEAM_COLUMN_PATTERN@,
                c,
                CHAMPION_IMAGE_PATTERN@,
                i as nat,
                CHAMPION_NAME_ATTRIBUTE@,
            ),
    )
}

/// The fields of row `k` of the page's history table; the duration is trimmed.
pub open spec fn page_row(markup: Seq<char>, k: nat) -> RowView {
    RowView {
        duration: match first_inner_html(markup, k, DURATION_PATTERN@) {
            Some(t) => Some(trim_text(t)),
            None => None,
        },
        kills: first_inner_html(markup, k, KILLS_PATTERN@),
        deaths: first_inner_html(markup, k, DEATHS_PATTERN@),
        assists: first_inner_html(markup, k, ASSISTS_PATTERN@),
        ally_champ: first_champion(markup, k),
        status: first_inner_html(markup, k, STATUS_PATTERN@),
        columns: Seq::new(
            row_match_count(markup, TABLE_BODY_PATTERN@, ROW_PATTERN@, k, TEAM_COLUMN_PATTERN@),
            |c: int| column_names(markup, k, c as nat),
        ),
    }
}

/// The first rows of the page's history table, headers included, no more
/// than `n` past the headers.
pub open spec fn page_table(markup: Seq<char>, n: nat) -> Seq<RowView> {
    let rows = row_count(markup, TABLE_BODY_PATTERN@, ROW_PATTERN@);
    let len = if rows < n + USELESS_ROW_COUNT { rows } else { (n + USELESS_ROW_COUNT) as nat };
    Seq::new(len, |k: int| page_row(markup, k as nat))
}

fn first_text(page: &Page, sel: &Selectors, k: usize, field: &Query) -> (r: Option<String>)
    requires
        0 < match_count(page@, TABLE_BODY_PATTERN@),
        k < row_count(page@, TABLE_BODY_PATTERN@, ROW_PATTERN@),
    ensures
        opt_view(r) == first_inner_html(page@, k as nat, field@),
{
    proof {
        use_type_invariant(sel);
    }
    if count_in_row(page, &sel.table_body, &sel.row, k, field) == 0 {
        None
    } else {
        Some(inner_html_in_row(page, &sel.table_body, &sel.row, k, field, 0))
    }
}

fn read_column(page: &Page, sel: &Selectors, k: usize, c: usize) -> (r: Vec<Option<String>>)
    requires
        0 < match_count(page@, TABLE_BODY_PATTERN@),
        k < row_count(page@, TABLE_BODY_PATTERN@, ROW_PATTERN@),
        c < row_match_count(page@, TABLE_BODY_PATTERN@, ROW_PATTERN@, k as nat, TEAM_COLUMN_PATTERN@),
    ensures
        column_view(r) == column_names(page@, k as nat, c as nat),
{
    proof {
        use_type_invariant(sel);
    }
    let ghost want = column_names(page@, k as nat, c as nat);
    let count = count_in_column(page, &sel.table_body, &sel.row, k, &sel.team_column, c, &sel.champion_image);
    let mut names: Vec<Option<String>> = Vec::new();
    let mut i: usize = 0;
    while i < count
        invariant
            i <= count,
            count == want.len(),
            names@.len() == i,
            forall|j: int| 0 <= j < i ==> opt_view(#[trigger] names@[j]) == want[j],
            0 < match_count(page@, TABLE_BODY_PATTERN@),
            k < row_count(page@, TABLE_BODY_PATTERN@, ROW_PATTERN@),
            c < row_match_count(page@, TABLE_BODY_PATTERN@, ROW_PATTERN@, k as nat, TEAM_COLUMN_PATTERN@),
            want == column_names(page@, k as nat, c as nat),
        decreases count - i,
    {
        proof {
            use_type_invariant(sel);
        }
        let name = attribute_in_column(
            page,
            &sel.table_body,
            &sel.row,
            k,
            &sel.team_column,
            c,
            &sel.champion_image,
            i,
            CHAMPION_NAME_ATTRIBUTE,
        );
        names.push(name);
        i = i + 1;
    }
    assert(column_view(names) =~= want);
    names
}

/// Reads the fields of row `k` of the page's history table.
pub fn read_row(page: &Page, sel: &Selectors, k: usize) -> (r: RowFields)
    requires
        0 < match_count(page@, TABLE_BODY_PATTERN@),
        k < row_count(page@, TABLE_BODY_PATTERN@, ROW_PATTERN@),
    ensures
        r@ == page_row(page@, k as nat),
{
    proof {
        use_type_invariant(sel);
    }
    let duration = match first_text(page, sel, k, &sel.duration) {
        Some(t) => Some(trimmed(t.as_str())),
        None => None,
    };
    let kills = first_text(page, sel, k, &sel.kills);
    let deaths = first_text(page, sel, k, &sel.deaths);
    let assists = first_text(page, sel, k, &sel.assists);
    let status = first_text(page, sel, k, &sel.status);
    let ally_champ = if count_in_row(page, &sel.table_body, &sel.row, k, &sel.champion_image) == 0 {
        None
    } else {
        attribute_in_row(page, &sel.table_body, &sel.row, k, &sel.champion_image, 0, CHAMPION_NAME_ATTRIBUTE)
    };
    let ghost want = page_row(page@, k as nat);
    let column_total = count_in_row(page, &sel.table_body, &sel.row, k, &sel.team_column);
    let mut columns: Vec<Vec<Option<String>>> = Vec::new();
    let mut c: usize = 0;
    while c < column_total
        invariant
            c <= column_total,
            column_total == want.columns.len(),
            columns@.len() == c,
            forall|j: int| 0 <= j < c ==> column_view(#[trigger] columns@[j]) == want.columns[j],
            0 < match_count(page@, TABLE_BODY_PATTERN@),
            k < row_count(page@, TABLE_BODY_PATTERN@, ROW_PATTERN@),
            want == page_row(page@, k as nat),
            sel.team_column@ == TEAM_COLUMN_PATTERN@,
        decreases column_total - c,
    {
        columns.push(read_column(page, sel, k, c));
        c = c + 1;
    }
    let r = RowFields { duration, kills, deaths, assists, ally_champ, status, columns };
    assert(r@.columns =~= want.columns);
    r
}

/// Extracts a player's session from a statistics page. It fails with
/// `TableNotFound` exactly where nothing matches the table pattern; else it
/// gives what the table's first rows give for the player's role and block.
pub fn build_history(markup: &str, sel: &Selectors, player: &Player, date: String) -> (r: Result<Session, ExtractionError>)
    ensures
        (r == Err::<Session, ExtractionError>(ExtractionError::TableNotFound)) <==> match_count(markup@, TABLE_BODY_PATTERN@) == 0,
        match_count(markup@, TABLE_BODY_PATTERN@) > 0 ==> session_result_view(r) == history_outcome(
            page_table(markup@, player.block_game_count as nat),
            player.role,
            player.block_game_count as nat,
            date@,
        ),
        r is Ok ==> r->Ok_0.games@.len() <= player.block_game_count,
        r is Ok ==> forall|i: int| 0 <= i < r->Ok_0.games@.len() ==> (#[trigger] r->Ok_0.games@[i]).num == i + 1,
{
    proof {
        use_type_invariant(sel);
    }
    let page = Page::parse(markup);
    if count_matches(&page, &sel.table_body) == 0 {
        return Err(ExtractionError::TableNotFound);
    }
    let rows = count_rows(&page, &sel.table_body, &sel.row);
    let limit = player.block_game_count as usize + USELESS_ROW_COUNT;
    let ghost want = page_table(markup@, player.block_game_count as nat);
    let mut table: Vec<RowFields> = Vec::new();
    let mut k: usize = 0;
    while k < rows && k < limit
        invariant
            table@.len() == k,
            k <= rows,
            k <= limit,
            rows == row_count(page@, TABLE_BODY_PATTERN@, ROW_PATTERN@),
            limit == player.block_game_count + USELESS_ROW_COUNT,
            0 < match_count(page@, TABLE_BODY_PATTERN@),
            page@ == markup@,
            want == page_table(markup@, player.block_game_count as nat),
            forall|j: int| 0 <= j < k ==> (#[trigger] table@[j])@ == want[j],
        decreases rows - k,
    {
        table.push(read_row(&page, sel, k));
        k = k + 1;
    }
    assert(rows_view(table@) =~= want);
    let r = history_from_rows(&table, player.role, player.block_game_count, date);
    proof {
        let n = player.block_game_count as nat;
        let slot = role_slot(player.role);
        let first = (USELESS_ROW_COUNT + 1) as nat;
        lemma_outcome_count(block_rows(want, n), slot, first);
        lemma_no_missing_table(block_rows(want, n), slot, first);
        if r is Ok {
            let games = r->Ok_0.games@;
            assert(games_view(games).len() == games.len());
            assert forall|i: int| 0 <= i < games.len() implies (#[trigger] games[i]).num == i + 1 by {
                assert(games_view(games)[i] == games[i]@);
            }
        }
    }
    r
}

} // verus!
