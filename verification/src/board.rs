//! The 5×5 play board and the board sets it is drawn from.
//!
//! A board holds 25 words, 25 colored tiles and a reveal bitmap, all
//! stored row-major.  A board set maps languages to word lists and
//! carries the curated tile maps; generating a board draws 25 words
//! without replacement and picks one tile map at random.

use vstd::prelude::*;
use rand::Rng;
use rand::seq::SliceRandom;
use crate::team::Team;
use crate::error::BoardError;
use crate::bytes::{bytes_eq, copy_bytes};
use crate::json::{JsonV, json_view, json_member_views, jv_get};
use crate::text::{s_words, s_tiles, s_neutral, s_blue, s_red, s_death};

verus! {

broadcast use crate::bytes::lemma_bytes_deep_view;

/// The number of cells of a board.
pub const CELLS: usize = 25;

/// The hidden color of one cell.
#[derive(Debug, Clone, Copy, PartialEq, Eq, Structural)]
pub enum Tile {
    Neutral,
    Blue,
    Red,
    Death,
}

/// The tile color belonging to a team.
pub open spec fn team_tile(t: Team) -> Tile {
    match t {
        Team::Blue => Tile::Blue,
        Team::Red => Tile::Red,
    }
}

/// How many entries of `tiles` are `c`.
pub open spec fn count_tiles(tiles: Seq<Tile>, c: Tile) -> int
    decreases tiles.len(),
{
    if tiles.len() == 0 {
        0
    } else {
        count_tiles(tiles.drop_last(), c) + (if tiles.last() == c {
            1int
        } else {
            0int
        })
    }
}

/// Every cell of the team's color has been revealed.
pub open spec fn all_revealed_of(tiles: Seq<Tile>, cards: Seq<bool>, t: Team) -> bool {
    forall|i: int| 0 <= i < tiles.len() && tiles[i] == team_tile(t) ==> cards[i]
}

/// The winner on a reveal bitmap: a team whose cells are all revealed,
/// checked blue first.
pub open spec fn winner_of(tiles: Seq<Tile>, cards: Seq<bool>) -> Option<Team> {
    if all_revealed_of(tiles, cards, Team::Blue) {
        Some(Team::Blue)
    } else if all_revealed_of(tiles, cards, Team::Red) {
        Some(Team::Red)
    } else {
        None
    }
}

/// How many entries of `tiles` are `c` and revealed in `cards`.
pub open spec fn count_revealed(tiles: Seq<Tile>, cards: Seq<bool>, c: Tile) -> int
    decreases tiles.len(),
{
    if tiles.len() == 0 || cards.len() < tiles.len() {
        0
    } else {
        count_revealed(tiles.drop_last(), cards.drop_last(), c) + (if tiles.last() == c
            && cards.last() {
            1int
        } else {
            0int
        })
    }
}

/// The revealed count never exceeds the tile count, and the two agree
/// exactly when every cell of color `c` is revealed.
pub proof fn lemma_counts(tiles: Seq<Tile>, cards: Seq<bool>, c: Tile)
    requires
        tiles.len() == cards.len(),
    ensures
        0 <= count_revealed(tiles, cards, c) <= count_tiles(tiles, c),
        (count_revealed(tiles, cards, c) == count_tiles(tiles, c)) <==> (forall|i: int|
            0 <= i < tiles.len() && tiles[i] == c ==> cards[i]),
    decreases tiles.len(),
{
    if tiles.len() > 0 {
        lemma_counts(tiles.drop_last(), cards.drop_last(), c);
        let n = tiles.len() - 1;
        assert(forall|i: int|
            0 <= i < n ==> tiles.drop_last()[i] == tiles[i] && cards.drop_last()[i] == cards[i]);
        if count_revealed(tiles, cards, c) == count_tiles(tiles, c) {
            assert(count_revealed(tiles.drop_last(), cards.drop_last(), c) == count_tiles(
                tiles.drop_last(),
                c,
            ));
            assert forall|i: int| 0 <= i < tiles.len() && tiles[i] == c implies cards[i] by {
                if i < n {
                    assert(tiles.drop_last()[i] == c);
                }
            }
        }
    }
}

/// The board of one game: words, tile colors, and the reveal bitmap,
/// each of the 25 cells stored row-major at index `x * 5 + y`.
#[derive(Debug)]
pub struct Board {
    pub words: Vec<Vec<u8>>,
    pub tiles: Vec<Tile>,
    pub cards: Vec<bool>,
}

impl Board {
    pub open spec fn wf(self) -> bool {
        &&& self.words@.len() == 25
        &&& self.tiles@.len() == 25
        &&& self.cards@.len() == 25
    }

    /// Every cell of the team's color has been revealed.
    pub open spec fn all_revealed(self, t: Team) -> bool {
        all_revealed_of(self.tiles@, self.cards@, t)
    }

    /// The winner: a team whose cells are all revealed, checked blue first.
    pub open spec fn spec_winner(self) -> Option<Team> {
        winner_of(self.tiles@, self.cards@)
    }

    /// The team with the most tiles opens the game; blue on a tie.
    pub open spec fn spec_start_team(self) -> Team {
        if count_tiles(self.tiles@, Tile::Red) > count_tiles(self.tiles@, Tile::Blue) {
            Team::Red
        } else {
            Team::Blue
        }
    }

    /// Reveals the cell at `(x, y)` and reports its color.
    pub fn put_card(&mut self, x: usize, y: usize) -> (r: Tile)
        requires
            old(self).wf(),
            x < 5,
            y < 5,
        ensures
            final(self).wf(),
            final(self).cards@ == old(self).cards@.update(x * 5 + y, true),
            final(self).tiles == old(self).tiles,
            final(self).words == old(self).words,
            r == old(self).tiles@[x * 5 + y as int],
    {
        let idx: usize = x * 5 + y;
        self.cards.set(idx, true);
        self.tiles[idx]
    }

    /// Counts the team's tiles and how many of them are revealed.
    fn count_cards(&self, team: &Team) -> (r: (u8, u8))
        requires
            self.wf(),
        ensures
            r.0 == count_tiles(self.tiles@, team_tile(*team)),
            r.1 == count_revealed(self.tiles@, self.cards@, team_tile(*team)),
    {
        let search: Tile = match team {
            Team::Red => Tile::Red,
            Team::Blue => Tile::Blue,
        };
        let ghost c = team_tile(*team);
        let mut tiles: u8 = 0;
        let mut cards: u8 = 0;
        let mut i: usize = 0;
        while i < 25
            invariant
                self.wf(),
                i <= 25,
                search == c,
                tiles == count_tiles(self.tiles@.subrange(0, i as int), c),
                cards == count_revealed(
                    self.tiles@.subrange(0, i as int),
                    self.cards@.subrange(0, i as int),
                    c,
                ),
                tiles <= i,
                cards <= i,
            decreases 25 - i,
        {
            let ghost tpre = self.tiles@.subrange(0, i as int);
            let ghost cpre = self.cards@.subrange(0, i as int);
            let ghost tpost = self.tiles@.subrange(0, i + 1 as int);
            let ghost cpost = self.cards@.subrange(0, i + 1 as int);
            proof {
                assert(tpost.drop_last() =~= tpre);
                assert(cpost.drop_last() =~= cpre);
                lemma_counts(tpre, cpre, c);
            }
            if self.tiles[i] == search {
                tiles = tiles + 1;
                if self.cards[i] {
                    cards = cards + 1;
                }
            }
            i += 1;
        }
        proof {
            assert(self.tiles@.subrange(0, 25) =~= self.tiles@);
            assert(self.cards@.subrange(0, 25) =~= self.cards@);
        }
        (tiles, cards)
    }

    /// The winner so far, if either team has revealed all its cells.
    ///
    /// A returned team has every cell of its color revealed.
    pub fn winner(&self) -> (r: Option<Team>)
        requires
            self.wf(),
        ensures
            r == self.spec_winner(),
            r matches Some(t) ==> self.all_revealed(t),
    {
        proof {
            lemma_counts(self.tiles@, self.cards@, Tile::Blue);
            lemma_counts(self.tiles@, self.cards@, Tile::Red);
        }
        let (blue_tiles, blue_cards) = self.count_cards(&Team::Blue);
        if blue_tiles == blue_cards {
            return Some(Team::Blue);
        }
        let (red_tiles, red_cards) = self.count_cards(&Team::Red);
        if red_tiles == red_cards {
            return Some(Team::Red);
        }
        None
    }

    /// The team that opens the game on this board.
    pub fn start_team(&self) -> (r: Team)
        requires
            self.wf(),
        ensures
            r == self.spec_start_team(),
    {
        let (red_tiles, _) = self.count_cards(&Team::Red);
        let (blue_tiles, _) = self.count_cards(&Team::Blue);
        if red_tiles > blue_tiles {
            Team::Red
        } else {
            Team::Blue
        }
    }
}

/// Revealing a cell that is already revealed leaves the reveal bitmap,
/// and with it the winner, unchanged.
pub proof fn lemma_reveal_idempotent(b: Board, x: usize, y: usize)
    requires
        b.wf(),
        x < 5,
        y < 5,
        b.cards@[x * 5 + y],
    ensures
        b.cards@.update(x * 5 + y, true) == b.cards@,
        winner_of(b.tiles@, b.cards@.update(x * 5 + y, true)) == winner_of(b.tiles@, b.cards@),
{
    assert(b.cards@.update(x * 5 + y, true) =~= b.cards@);
}

/// Taking a prefix of a sequence keeps its multiset within the whole
/// sequence's.
proof fn lemma_prefix_multiset_subset<A>(s: Seq<A>, k: int)
    requires
        0 <= k <= s.len(),
    ensures
        s.subrange(0, k).to_multiset().subset_of(s.to_multiset()),
    decreases s.len() - k,
{
    broadcast use vstd::seq::Seq::to_multiset_ensures;

    broadcast use vstd::multiset::group_multiset_axioms;
    broadcast use vstd::seq_lib::group_to_multiset_ensures;

    if k == s.len() {
        assert(s.subrange(0, k) =~= s);
    } else {
        lemma_prefix_multiset_subset(s, k + 1);
        let pre = s.subrange(0, k);
        let pre1 = s.subrange(0, k + 1);
        assert(pre1 =~= pre.push(s[k]));
        assert(pre.push(s[k]).to_multiset() =~= pre.to_multiset().insert(s[k]));
        assert forall|x: A| #[trigger] pre.to_multiset().count(x) <= s.to_multiset().count(x) by {
            assert(pre.to_multiset().count(x) <= pre.to_multiset().insert(s[k]).count(x));
            assert(pre1.to_multiset().count(x) <= s.to_multiset().count(x));
        }
    }
}

/// The curated data a server is started with: per-language word lists
/// and a list of 25-cell tile maps.
#[derive(Debug)]
pub struct BoardSet {
    pub words: Vec<(Vec<u8>, Vec<Vec<u8>>)>,
    pub tiles: Vec<Vec<Tile>>,
}

impl BoardSet {
    /// Languages are pairwise distinct, every word list offers at least
    /// a board's worth of words, and at least one tile map exists, each
    /// covering exactly the 25 cells.
    pub open spec fn wf(self) -> bool {
        &&& forall|i: int, j: int|
            0 <= i < j < self.words@.len() ==> (#[trigger] self.words@[i]).0@ != (
            #[trigger] self.words@[j]).0@
        &&& forall|i: int| 0 <= i < self.words@.len() ==> (#[trigger] self.words@[i]).1@.len() >= 25
        &&& self.tiles@.len() > 0
        &&& forall|k: int| 0 <= k < self.tiles@.len() ==> (#[trigger] self.tiles@[k])@.len() == 25
    }

    pub open spec fn spec_has_lang(self, lang: Seq<u8>) -> bool {
        exists|i: int| 0 <= i < self.words@.len() && (#[trigger] self.words@[i]).0@ == lang
    }

    /// The position of the word list for `lang`; meaningful only when
    /// `spec_has_lang(lang)`.
    pub open spec fn lang_index(self, lang: Seq<u8>) -> int {
        choose|i: int| 0 <= i < self.words@.len() && (#[trigger] self.words@[i]).0@ == lang
    }

    /// The word list for `lang`.
    pub open spec fn spec_lang_words(self, lang: Seq<u8>) -> Seq<Seq<u8>> {
        self.words@[self.lang_index(lang)].1.deep_view()
    }

    /// The position of the word list for `language`, if present.
    fn find_language(&self, language: &[u8]) -> (r: Option<usize>)
        requires
            self.wf(),
        ensures
            match r {
                Some(i) => self.spec_has_lang(language@) && self.lang_index(language@) == i && i
                    < self.words@.len(),
                None => !self.spec_has_lang(language@),
            },
    {
        let n: usize = self.words.len();
        let mut i: usize = 0;
        while i < n
            invariant
                self.wf(),
                n == self.words@.len(),
                i <= n,
                forall|k: int| 0 <= k < i ==> (#[trigger] self.words@[k]).0@ != language@,
            decreases n - i,
        {
            if bytes_eq(self.words[i].0.as_slice(), language) {
                proof {
                    assert(self.spec_has_lang(language@));
                    let j = self.lang_index(language@);
                    if i < j {
                        assert(self.words@[i as int].0@ != self.words@[j].0@);
                    } else if j < i {
                        assert(self.words@[j].0@ != self.words@[i as int].0@);
                    }
                }
                return Some(i);
            }
            i += 1;
        }
        None
    }

    /// Generates a fresh board: 25 words drawn without replacement from
    /// the language's word list, one of the curated tile maps, and no
    /// cell revealed.
    pub fn new_board(&self, language: &[u8]) -> (r: Result<Board, BoardError>)
        requires
            self.wf(),
        ensures
            r is Ok <==> self.spec_has_lang(language@),
            r matches Err(e) ==> e matches BoardError::Language(l) && l@ == language@,
            r matches Ok(b) ==> {
                &&& b.wf()
                &&& forall|i: int| 0 <= i < 25 ==> !(#[trigger] b.cards@[i])
                &&& exists|k: int|
                    0 <= k < self.tiles@.len() && b.tiles@ == (#[trigger] self.tiles@[k])@
                &&& b.words.deep_view().to_multiset().subset_of(
                    self.spec_lang_words(language@).to_multiset(),
                )
            },
    {
        let li: usize = match self.find_language(language) {
            Some(li) => li,
            None => {
                return Err(BoardError::Language(copy_bytes(language)));
            },
        };

        // Work on a private copy of the word list.
        let src_list: &Vec<Vec<u8>> = &self.words[li].1;
        let mut list: Vec<Vec<u8>> = Vec::new();
        let m: usize = src_list.len();
        let mut j: usize = 0;
        while j < m
            invariant
                m == src_list@.len(),
                j <= m,
                list@.len() == j,
                forall|k: int| 0 <= k < j ==> #[trigger] list.deep_view()[k] == src_list.deep_view()[k],
            decreases m - j,
        {
            let w = copy_bytes(src_list[j].as_slice());
            assert(w.deep_view() =~= src_list.deep_view()[j as int]);
            let ghost prev = list@;
            let ghost prevd = list.deep_view();
            list.push(w);
            proof {
                assert forall|k: int| 0 <= k < j + 1 implies #[trigger] list.deep_view()[k]
                    == src_list.deep_view()[k] by {
                    assert(list.deep_view()[k] == list@[k].deep_view());
                    if k < j {
                        assert(list@[k] == prev[k]);
                        assert(prevd[k] == prev[k].deep_view());
                    }
                }
            }
            j += 1;
        }
        assert(list.deep_view() =~= src_list.deep_view());
        assert(src_list.deep_view() == self.spec_lang_words(language@));

        shuffle_words(&mut list);
        let ghost shuffled = list.deep_view();

        let mut words: Vec<Vec<u8>> = Vec::new();
        let mut j: usize = 0;
        while j < 25
            invariant
                list@.len() >= 25,
                shuffled == list.deep_view(),
                j <= 25,
                words@.len() == j,
                forall|k: int| 0 <= k < j ==> #[trigger] words.deep_view()[k] == list.deep_view()[k],
            decreases 25 - j,
        {
            let w = copy_bytes(list[j].as_slice());
            assert(w.deep_view() =~= list.deep_view()[j as int]);
            let ghost prev = words@;
            let ghost prevd = words.deep_view();
            words.push(w);
            proof {
                assert forall|k: int| 0 <= k < j + 1 implies #[trigger] words.deep_view()[k]
                    == list.deep_view()[k] by {
                    assert(words.deep_view()[k] == words@[k].deep_view());
                    if k < j {
                        assert(words@[k] == prev[k]);
                        assert(prevd[k] == prev[k].deep_view());
                    }
                }
            }
            j += 1;
        }
        proof {
            assert(words.deep_view() =~= shuffled.subrange(0, 25));
            lemma_prefix_multiset_subset(shuffled, 25);
        }

        let k: usize = random_index(self.tiles.len());
        let src_tiles: &Vec<Tile> = &self.tiles[k];
        let mut tiles: Vec<Tile> = Vec::new();
        let mut j: usize = 0;
        while j < 25
            invariant
                src_tiles@.len() == 25,
                j <= 25,
                tiles@ =~= src_tiles@.subrange(0, j as int),
            decreases 25 - j,
        {
            tiles.push(src_tiles[j]);
            assert(tiles@ =~= src_tiles@.subrange(0, j + 1 as int));
            j += 1;
        }
        assert(tiles@ =~= src_tiles@);

        let mut cards: Vec<bool> = Vec::new();
        let mut j: usize = 0;
        while j < 25
            invariant
                j <= 25,
                cards@.len() == j,
                forall|k2: int| 0 <= k2 < j ==> !(#[trigger] cards@[k2]),
            decreases 25 - j,
        {
            cards.push(false);
            j += 1;
        }

        Ok(Board { words, tiles, cards })
    }
}

/// Relies on `rand::seq::SliceRandom::shuffle`: a sequence of in-place
/// swaps driven by the thread-local generator, so the elements are
/// permuted and nothing else changes.
#[verifier::external_body]
fn shuffle_words(v: &mut Vec<Vec<u8>>)
    ensures
        final(v).deep_view().to_multiset() == old(v).deep_view().to_multiset(),
        final(v)@.len() == old(v)@.len(),
{
    v.shuffle(&mut rand::thread_rng());
}

/// Relies on `rand::Rng::gen_range`: a value drawn from the half-open
/// range `0..n`, which is nonempty because `n > 0`.
#[verifier::external_body]
fn random_index(n: usize) -> (r: usize)
    requires
        n > 0,
    ensures
        r < n,
{
    rand::thread_rng().gen_range(0..n)
}

/// The tile a color word of the board file names.
pub open spec fn spec_tile_of_name(s: Seq<u8>) -> Option<Tile> {
    if s == s_neutral() {
        Some(Tile::Neutral)
    } else if s == s_blue() {
        Some(Tile::Blue)
    } else if s == s_red() {
        Some(Tile::Red)
    } else if s == s_death() {
        Some(Tile::Death)
    } else {
        None
    }
}

/// One board-file cell: a string naming a tile color.
pub open spec fn spec_cell_ok(v: JsonV) -> bool {
    v matches JsonV::Str(s) && spec_tile_of_name(s) is Some
}

/// One board-file row: five cells.
pub open spec fn spec_row_ok(v: JsonV) -> bool {
    v matches JsonV::Arr(cells) && cells.len() == 5 && (forall|c: int|
        0 <= c < 5 ==> spec_cell_ok(#[trigger] cells[c]))
}

/// One board-file tile map: five rows.
pub open spec fn spec_map_ok(v: JsonV) -> bool {
    v matches JsonV::Arr(rows) && rows.len() == 5 && (forall|r: int|
        0 <= r < 5 ==> spec_row_ok(#[trigger] rows[r]))
}

/// One board-file word list: at least a board's worth of strings.
pub open spec fn spec_lang_ok(v: JsonV) -> bool {
    v matches JsonV::Arr(ws) && ws.len() >= 25 && (forall|k: int|
        0 <= k < ws.len() ==> (#[trigger] ws[k]) matches JsonV::Str(_))
}

/// The board-file language table: pairwise-distinct language keys,
/// each mapped to a full word list.
pub open spec fn spec_langs_ok(langs: Seq<(Seq<u8>, JsonV)>) -> bool {
    &&& forall|a: int, b: int|
        0 <= a < b < langs.len() ==> (#[trigger] langs[a]).0 != (#[trigger] langs[b]).0
    &&& forall|a: int| 0 <= a < langs.len() ==> spec_lang_ok((#[trigger] langs[a]).1)
}

/// The documented shape of the startup board file: an object whose
/// `words` member is a language table and whose `tiles` member is a
/// non-empty array of 5x5 tile maps.
pub open spec fn spec_board_file_shape(j: JsonV) -> bool {
    &&& j is Obj
    &&& jv_get(j->Obj_0, s_words()) matches Some(JsonV::Obj(langs)) && spec_langs_ok(langs)
    &&& jv_get(j->Obj_0, s_tiles()) matches Some(JsonV::Arr(maps)) && maps.len() > 0 && (
    forall|m: int| 0 <= m < maps.len() ==> spec_map_ok(#[trigger] maps[m]))
}

/// The strings of a JSON array of strings.
pub open spec fn spec_strs_of(ws: Seq<JsonV>) -> Seq<Seq<u8>> {
    Seq::new(ws.len(), |k: int| ws[k]->Str_0)
}

/// The 25 tiles a well-shaped tile map denotes, row-major.
pub open spec fn spec_map_matches(v: JsonV, map: Seq<Tile>) -> bool {
    &&& map.len() == 25
    &&& forall|k: int|
        0 <= k < 25 ==> #[trigger] map[k] == spec_tile_of_name(
            v->Arr_0[k / 5]->Arr_0[k % 5]->Str_0,
        )->Some_0
}

/// A board set holding exactly the word lists and tile maps of a
/// well-shaped board file.
pub open spec fn spec_board_set_matches(j: JsonV, bs: BoardSet) -> bool {
    let langs = jv_get(j->Obj_0, s_words())->Some_0->Obj_0;
    let maps = jv_get(j->Obj_0, s_tiles())->Some_0->Arr_0;
    &&& bs.words@.len() == langs.len()
    &&& forall|i: int|
        0 <= i < langs.len() ==> (#[trigger] bs.words@[i]).0@ == langs[i].0 && bs.words@[i].1.deep_view()
            == spec_strs_of(langs[i].1->Arr_0)
    &&& bs.tiles@.len() == maps.len()
    &&& forall|m: int|
        0 <= m < maps.len() ==> spec_map_matches(maps[m], (#[trigger] bs.tiles@[m])@)
}

/// Reads the startup board file: `{"words": {lang: [word, ...]},
/// "tiles": [[5 rows of 5 color words], ...]}`.  The result is the
/// file's exact word lists and tile maps; anything that is not a
/// well-shaped file — unparsable text, duplicate languages, a short
/// word list, a missing or malformed tile map — comes back as `None`.
pub fn parse_board_set(text: &[u8]) -> (r: Option<BoardSet>)
    ensures
        match crate::json::spec_parse_text(text@) {
            None => r is None,
            Some(j) => match r {
                Some(bs) => bs.wf() && spec_board_file_shape(j) && spec_board_set_matches(j, bs),
                None => !spec_board_file_shape(j),
            },
        },
{
    let top = match crate::json::parse_text(text) {
        Some(j) => j,
        None => {
            return None;
        },
    };
    let ms = match &top {
        crate::json::Json::Obj(ms) => ms,
        _ => {
            return None;
        },
    };
    let ghost jv = crate::json::json_view(top);
    proof {
        assert(jv == JsonV::Obj(json_member_views(ms@)));
    }
    let kwords = crate::text::b_words();
    let ktiles = crate::text::b_tiles();
    let langs = match crate::json::obj_get(ms, kwords.as_slice()) {
        Some(crate::json::Json::Obj(langs)) => langs,
        _ => {
            return None;
        },
    };
    let ghost langs_v = json_member_views(langs@);
    proof {
        crate::json::lemma_json_member_views_index(langs@);
        assert(jv_get(jv->Obj_0, s_words()) == Some(JsonV::Obj(langs_v)));
    }
    let mut words: Vec<(Vec<u8>, Vec<Vec<u8>>)> = Vec::new();
    let nl: usize = langs.len();
    let mut i: usize = 0;
    while i < nl
        invariant
            crate::json::spec_parse_text(text@) == Some(jv),
            jv is Obj,
            jv_get(jv->Obj_0, s_words()) == Some(JsonV::Obj(langs_v)),
            nl == langs@.len(),
            i <= nl,
            langs_v == json_member_views(langs@),
            langs_v.len() == nl,
            forall|k: int| 0 <= k < nl ==> langs_v[k] == (langs@[k].0@, json_view(langs@[k].1)),
            words@.len() == i,
            forall|a: int, b: int|
                0 <= a < b < i ==> (#[trigger] langs_v[a]).0 != (#[trigger] langs_v[b]).0,
            forall|a: int| 0 <= a < i ==> spec_lang_ok((#[trigger] langs_v[a]).1),
            forall|a: int|
                0 <= a < i ==> (#[trigger] words@[a]).0@ == langs_v[a].0 && words@[a].1.deep_view()
                    == spec_strs_of(langs_v[a].1->Arr_0),
        decreases nl - i,
    {
        let lang = copy_bytes(langs[i].0.as_slice());
        // A duplicate language key breaks the table's shape.
        let nw: usize = words.len();
        let mut k: usize = 0;
        while k < nw
            invariant
                crate::json::spec_parse_text(text@) == Some(jv),
                jv is Obj,
                jv_get(jv->Obj_0, s_words()) == Some(JsonV::Obj(langs_v)),
                nw == words@.len(),
                k <= nw,
                lang@ == langs_v[i as int].0,
                i < nl,
                langs_v.len() == nl,
                nw == i,
                forall|a: int| 0 <= a < nw ==> (#[trigger] words@[a]).0@ == langs_v[a].0,
                forall|a: int| 0 <= a < k ==> (#[trigger] words@[a]).0@ != lang@,
            decreases nw - k,
        {
            if bytes_eq(words[k].0.as_slice(), lang.as_slice()) {
                proof {
                    assert(langs_v[k as int].0 == langs_v[i as int].0);
                    assert(!spec_langs_ok(langs_v));
                }
                return None;
            }
            k += 1;
        }
        let list = match &langs[i].1 {
            crate::json::Json::Arr(list) => list,
            _ => {
                proof {
                    assert(!spec_lang_ok(langs_v[i as int].1));
                }
                return None;
            },
        };
        let ghost list_v = crate::json::json_views(list@);
        proof {
            crate::json::lemma_json_views_index(list@);
            assert(langs_v[i as int].1 == JsonV::Arr(list_v));
        }
        let mut wlist: Vec<Vec<u8>> = Vec::new();
        let nj: usize = list.len();
        let mut j: usize = 0;
        while j < nj
            invariant
                crate::json::spec_parse_text(text@) == Some(jv),
                jv is Obj,
                jv_get(jv->Obj_0, s_words()) == Some(JsonV::Obj(langs_v)),
                i < nl,
                langs_v.len() == nl,
                langs_v[i as int].1 == JsonV::Arr(list_v),
                nj == list@.len(),
                j <= nj,
                list_v == crate::json::json_views(list@),
                list_v.len() == nj,
                forall|k2: int| 0 <= k2 < nj ==> list_v[k2] == json_view(list@[k2]),
                wlist@.len() == j,
                forall|k2: int|
                    0 <= k2 < j ==> ((#[trigger] list_v[k2]) matches JsonV::Str(_)
                        && wlist.deep_view()[k2] == list_v[k2]->Str_0),
            decreases nj - j,
        {
            match &list[j] {
                crate::json::Json::Str(w) => {
                    proof {
                        assert(list_v[j as int] == JsonV::Str(w@));
                    }
                    let ghost prev = wlist@;
                    let ghost prevd = wlist.deep_view();
                    wlist.push(copy_bytes(w.as_slice()));
                    proof {
                        assert forall|k2: int|
                            0 <= k2 < j + 1 implies ((#[trigger] list_v[k2]) matches JsonV::Str(
                            _,
                        ) && wlist.deep_view()[k2] == list_v[k2]->Str_0) by {
                            assert(wlist.deep_view()[k2] == wlist@[k2].deep_view());
                            if k2 < j {
                                assert(wlist@[k2] == prev[k2]);
                                assert(prevd[k2] == prev[k2].deep_view());
                            } else {
                                assert(wlist@[k2]@ == w@);
                            }
                        }
                    }
                },
                _ => {
                    proof {
                        assert(!(list_v[j as int] matches JsonV::Str(_)));
                        assert(!spec_lang_ok(langs_v[i as int].1));
                    }
                    return None;
                },
            }
            j += 1;
        }
        if wlist.len() < 25 {
            proof {
                assert(!spec_lang_ok(langs_v[i as int].1));
            }
            return None;
        }
        proof {
            assert(wlist.deep_view() =~= spec_strs_of(list_v));
            assert(spec_lang_ok(langs_v[i as int].1));
        }
        let ghost prew = words@;
        let ghost glang = lang@;
        let ghost gw = wlist.deep_view();
        words.push((lang, wlist));
        proof {
            assert(words@[i as int].0@ == glang);
            assert(words@[i as int].1.deep_view() == gw);
            assert forall|a: int, b: int|
                0 <= a < b < i + 1 implies (#[trigger] langs_v[a]).0 != (
            #[trigger] langs_v[b]).0 by {
                if b < i {
                } else {
                    assert(prew[a].0@ == langs_v[a].0);
                    assert(prew[a].0@ != glang);
                    assert(langs_v[b].0 == glang);
                }
            }
            assert forall|a: int|
                0 <= a < i + 1 implies (#[trigger] words@[a]).0@ == langs_v[a].0
                && words@[a].1.deep_view() == spec_strs_of(langs_v[a].1->Arr_0) by {
                if a < i {
                    assert(words@[a] == prew[a]);
                }
            }
        }
        i += 1;
    }
    let maps = match crate::json::obj_get(ms, ktiles.as_slice()) {
        Some(crate::json::Json::Arr(maps)) => maps,
        _ => {
            return None;
        },
    };
    let ghost maps_v = crate::json::json_views(maps@);
    proof {
        crate::json::lemma_json_views_index(maps@);
        assert(jv_get(jv->Obj_0, s_tiles()) == Some(JsonV::Arr(maps_v)));
    }
    if maps.len() == 0 {
        return None;
    }
    let mut tiles: Vec<Vec<Tile>> = Vec::new();
    let nm: usize = maps.len();
    let mut i: usize = 0;
    while i < nm
        invariant
            crate::json::spec_parse_text(text@) == Some(jv),
            jv is Obj,
            jv_get(jv->Obj_0, s_words()) == Some(JsonV::Obj(langs_v)),
            spec_langs_ok(langs_v),
            jv_get(jv->Obj_0, s_tiles()) == Some(JsonV::Arr(maps_v)),
            nm == maps@.len(),
            i <= nm,
            maps_v == crate::json::json_views(maps@),
            maps_v.len() == nm,
            forall|k: int| 0 <= k < nm ==> maps_v[k] == json_view(maps@[k]),
            tiles@.len() == i,
            forall|a: int| 0 <= a < i ==> spec_map_ok(#[trigger] maps_v[a]),
            forall|a: int|
                0 <= a < i ==> spec_map_matches(maps_v[a], (#[trigger] tiles@[a])@),
        decreases nm - i,
    {
        let rows = match &maps[i] {
            crate::json::Json::Arr(rows) => rows,
            _ => {
                proof {
                    assert(!spec_map_ok(maps_v[i as int]));
                }
                return None;
            },
        };
        let ghost rows_v = crate::json::json_views(rows@);
        proof {
            crate::json::lemma_json_views_index(rows@);
            assert(maps_v[i as int] == JsonV::Arr(rows_v));
        }
        if rows.len() != 5 {
            proof {
                assert(!spec_map_ok(maps_v[i as int]));
            }
            return None;
        }
        let mut map: Vec<Tile> = Vec::new();
        let mut r: usize = 0;
        while r < 5
            invariant
                crate::json::spec_parse_text(text@) == Some(jv),
                jv is Obj,
                jv_get(jv->Obj_0, s_words()) == Some(JsonV::Obj(langs_v)),
                spec_langs_ok(langs_v),
                jv_get(jv->Obj_0, s_tiles()) == Some(JsonV::Arr(maps_v)),
                rows@.len() == 5,
                rows_v == crate::json::json_views(rows@),
                rows_v.len() == 5,
                forall|k: int| 0 <= k < 5 ==> rows_v[k] == json_view(rows@[k]),
                maps_v[i as int] == JsonV::Arr(rows_v),
                i < nm,
                maps_v.len() == nm,
                r <= 5,
                map@.len() == r * 5,
                forall|rr: int| 0 <= rr < r ==> spec_row_ok(#[trigger] rows_v[rr]),
                forall|k: int|
                    0 <= k < r * 5 ==> #[trigger] map@[k] == spec_tile_of_name(
                        rows_v[k / 5]->Arr_0[k % 5]->Str_0,
                    )->Some_0,
            decreases 5 - r,
        {
            let cells = match &rows[r] {
                crate::json::Json::Arr(cells) => cells,
                _ => {
                    proof {
                        assert(!spec_row_ok(rows_v[r as int]));
                        assert(!spec_map_ok(maps_v[i as int]));
                    }
                    return None;
                },
            };
            let ghost cells_v = crate::json::json_views(cells@);
            proof {
                crate::json::lemma_json_views_index(cells@);
                assert(rows_v[r as int] == JsonV::Arr(cells_v));
            }
            if cells.len() != 5 {
                proof {
                    assert(!spec_row_ok(rows_v[r as int]));
                    assert(!spec_map_ok(maps_v[i as int]));
                }
                return None;
            }
            let mut c: usize = 0;
            while c < 5
                invariant
                    crate::json::spec_parse_text(text@) == Some(jv),
                    jv is Obj,
                    jv_get(jv->Obj_0, s_words()) == Some(JsonV::Obj(langs_v)),
                    spec_langs_ok(langs_v),
                    jv_get(jv->Obj_0, s_tiles()) == Some(JsonV::Arr(maps_v)),
                    cells@.len() == 5,
                    cells_v == crate::json::json_views(cells@),
                    cells_v.len() == 5,
                    forall|k: int| 0 <= k < 5 ==> cells_v[k] == json_view(cells@[k]),
                    rows_v.len() == 5,
                    rows_v[r as int] == JsonV::Arr(cells_v),
                    maps_v[i as int] == JsonV::Arr(rows_v),
                    i < nm,
                    maps_v.len() == nm,
                    r < 5,
                    c <= 5,
                    map@.len() == r * 5 + c,
                    forall|cc: int| 0 <= cc < c ==> spec_cell_ok(#[trigger] cells_v[cc]),
                    forall|k: int|
                        0 <= k < r * 5 + c ==> #[trigger] map@[k] == spec_tile_of_name(
                            rows_v[k / 5]->Arr_0[k % 5]->Str_0,
                        )->Some_0,
                decreases 5 - c,
            {
                let name = match &cells[c] {
                    crate::json::Json::Str(name) => name,
                    _ => {
                        proof {
                            assert(!spec_cell_ok(cells_v[c as int]));
                            assert(!spec_row_ok(rows_v[r as int]));
                            assert(!spec_map_ok(maps_v[i as int]));
                        }
                        return None;
                    },
                };
                proof {
                    assert(cells_v[c as int] == JsonV::Str(name@));
                }
                let nb = crate::text::b_neutral();
                let bb = crate::text::b_blue();
                let rb = crate::text::b_red();
                let db = crate::text::b_death();
                let tile = if bytes_eq(name.as_slice(), nb.as_slice()) {
                    Tile::Neutral
                } else if bytes_eq(name.as_slice(), bb.as_slice()) {
                    Tile::Blue
                } else if bytes_eq(name.as_slice(), rb.as_slice()) {
                    Tile::Red
                } else if bytes_eq(name.as_slice(), db.as_slice()) {
                    Tile::Death
                } else {
                    proof {
                        assert(spec_tile_of_name(name@) is None);
                        assert(!spec_cell_ok(cells_v[c as int]));
                        assert(!spec_row_ok(rows_v[r as int]));
                        assert(!spec_map_ok(maps_v[i as int]));
                    }
                    return None;
                };
                proof {
                    assert(spec_tile_of_name(name@) == Some(tile));
                }
                map.push(tile);
                proof {
                    let k = r * 5 + c;
                    assert(k / 5 == r && k % 5 == c) by (nonlinear_arith)
                        requires
                            r < 5,
                            c < 5,
                            k == r * 5 + c,
                    {}
                    assert(map@[k as int] == spec_tile_of_name(
                        rows_v[k as int / 5]->Arr_0[k as int % 5]->Str_0,
                    )->Some_0);
                }
                c += 1;
            }
            proof {
                assert(spec_row_ok(rows_v[r as int]));
            }
            r += 1;
        }
        proof {
            assert(spec_map_ok(maps_v[i as int]));
            assert(spec_map_matches(maps_v[i as int], map@));
        }
        tiles.push(map);
        i += 1;
    }
    let bs = BoardSet { words, tiles };
    proof {
        assert(spec_board_file_shape(jv));
        assert(spec_board_set_matches(jv, bs));
        assert(bs.wf()) by {
            assert forall|a: int| 0 <= a < bs.words@.len() implies (
            #[trigger] bs.words@[a]).1@.len() >= 25 by {
                assert(bs.words@[a].1.deep_view() == spec_strs_of(langs_v[a].1->Arr_0));
                assert(bs.words@[a].1.deep_view().len() == bs.words@[a].1@.len());
                assert(spec_lang_ok(langs_v[a].1));
            }
        }
    }
    Some(bs)
}

} // verus!
