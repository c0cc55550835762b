//! The statistics engine: the board, the layout table, the score, and the one
//! streaming pass over a corpus that fills a `Stats`.
use vstd::prelude::*;
use ahash::AHashMap;
use crate::stats::bigram_stats::bigram_effect;
use crate::stats::bigram_stats::count_bigram;
use crate::stats::bigram_stats::count_skipgram;
use crate::stats::bigram_stats::far_of;
use crate::stats::bigram_stats::is_bad;
use crate::stats::bigram_stats::lemma_diagonal;
use crate::stats::bigram_stats::pair_kind;
use crate::stats::bigram_stats::shows_bigram;
use crate::stats::bigram_stats::shows_skipgram;
use crate::stats::bigram_stats::skipgram_effect;
use crate::stats::bigram_stats::travel;
use crate::stats::trigram_stats::count_trigram;
use crate::stats::trigram_stats::shows_trigram;
use crate::stats::trigram_stats::trigram_effect;
use crate::stats::trigram_stats::trigram_kind;
use crate::tables::ngram_entries;
use crate::tables::ngrams_get;
use crate::tables::ngrams_insert;
use crate::tables::rule_entries;
use crate::tables::table_entries;
use crate::tables::table_get;
use crate::tables::table_insert;
use crate::tables::table_new;
use crate::tables::weight_entries;
use crate::tables::weights_insert;
use crate::tables::weights_new;
use crate::text::apply_magic;
use crate::text::category_of;
use crate::text::chars_of;
use crate::text::lemma_substituted_chars;
use crate::text::parse_category;
use crate::text::substituted;
use crate::AnalysisError;
use crate::Category;
use crate::Config;
use crate::Finger;
use crate::Hand;
use crate::MAX_CORPUS;
use crate::Key;
use crate::Stats;
use crate::Tally;

pub mod bigram_stats;
pub mod trigram_stats;

verus! {

/// How unwelcome a stroke on each slot is, by slot index.
pub const HEAT: [u32; 32] = [
    12, 4, 3, 6, 7, 7, 6, 3, 4, 12,
    3, 1, 0, 0, 6, 6, 0, 0, 1, 3,
    8, 9, 8, 7, 9, 9, 7, 8, 9, 8,
    0, 0,
];

/// The finger of each of the ten columns of a row, from the left.
pub open spec fn column_finger(column: int) -> Finger {
    if column == 0 || column == 9 {
        Finger::Pinky
    } else if column == 1 || column == 8 {
        Finger::Ring
    } else if column == 2 || column == 7 {
        Finger::Middle
    } else {
        Finger::Index
    }
}

/// The key at a slot of the board. Slots 0 to 29 are three rows of ten keys,
/// the left hand on the first five columns and the right hand on the others,
/// mirrored, with the two columns in the middle the lateral columns of the
/// index fingers. Slots 30 and 31 are the thumb keys of the left and of the
/// right hand.
pub open spec fn slot(index: int) -> Key {
    if index == 30 {
        Key { index: 30, hand: Hand::Left, finger: Finger::Thumb, row: 3, lateral: false }
    } else if index == 31 {
        Key { index: 31, hand: Hand::Right, finger: Finger::Thumb, row: 3, lateral: false }
    } else {
        let column = index % 10;
        Key {
            index: index as u8,
            hand: if column < 5 {
                Hand::Left
            } else {
                Hand::Right
            },
            finger: column_finger(column),
            row: (index / 10) as u8,
            lateral: column == 4 || column == 5,
        }
    }
}

/// Whether a key is a key of the board.
pub open spec fn on_board(key: Key) -> bool {
    key.index < 32 && key == slot(key.index as int)
}

/// The key at a slot of the board.
pub fn slot_key(index: usize) -> (key: Key)
    requires
        index < 32,
    ensures
        key == slot(index as int),
        on_board(key),
{
    if index == 30 {
        Key { index: 30, hand: Hand::Left, finger: Finger::Thumb, row: 3, lateral: false }
    } else if index == 31 {
        Key { index: 31, hand: Hand::Right, finger: Finger::Thumb, row: 3, lateral: false }
    } else {
        let column = index % 10;
        let finger = if column == 0 || column == 9 {
            Finger::Pinky
        } else if column == 1 || column == 8 {
            Finger::Ring
        } else if column == 2 || column == 7 {
            Finger::Middle
        } else {
            Finger::Index
        };
        Key {
            index: index as u8,
            hand: if column < 5 {
                Hand::Left
            } else {
                Hand::Right
            },
            finger,
            row: (index / 10) as u8,
            lateral: column == 4 || column == 5,
        }
    }
}

/// Whether no character stands on two slots of an arrangement.
pub open spec fn distinct(layout: Seq<char>) -> bool {
    forall|i: int, j: int| 0 <= i < j < layout.len() ==> layout[i] != layout[j]
}

/// Whether an arrangement holds no character twice.
pub fn is_distinct(layout: &[char; 32]) -> (yes: bool)
    ensures
        yes == distinct(layout@),
{
    let mut j: usize = 1;
    while j < 32
        invariant
            1 <= j <= 32,
            layout@.len() == 32,
            forall|a: int, b: int| 0 <= a < b < j ==> layout@[a] != layout@[b],
        decreases 32 - j,
    {
        let mut i: usize = 0;
        while i < j
            invariant
                i <= j < 32,
                layout@.len() == 32,
                forall|a: int| 0 <= a < i ==> layout@[a] != layout@[j as int],
            decreases j - i,
        {
            if layout[i] == layout[j] {
                return false;
            }
            i += 1;
        }
        j += 1;
    }
    true
}

/// The table of the first `upto` slots of an arrangement: each character with
/// the key of its slot. A character that stands on several slots gets the key
/// of the last of them.
pub open spec fn table_upto(layout: Seq<char>, upto: nat) -> Map<char, Key>
    decreases upto,
{
    if upto == 0 {
        Map::empty()
    } else {
        table_upto(layout, (upto - 1) as nat).insert(layout[upto - 1], slot(upto - 1))
    }
}

/// The table of an arrangement.
pub open spec fn table_of(layout: Seq<char>) -> Map<char, Key> {
    table_upto(layout, layout.len())
}

/// Whether a character stands on one of the first `upto` slots.
pub open spec fn placed(layout: Seq<char>, upto: int, c: char) -> bool {
    exists|i: int| 0 <= i < upto && #[trigger] layout[i] == c
}

/// A table holds the characters of its slots and nothing else, and every key
/// in it is a key of the board.
pub proof fn lemma_table_holds(layout: Seq<char>, upto: nat)
    requires
        upto <= layout.len() <= 32,
    ensures
        forall|c: char| #[trigger]
            table_upto(layout, upto).dom().contains(c) <==> placed(layout, upto as int, c),
        forall|c: char| #[trigger]
            table_upto(layout, upto).dom().contains(c) ==> on_board(table_upto(layout, upto)[c]),
    decreases upto,
{
    if upto > 0 {
        let before = (upto - 1) as nat;
        lemma_table_holds(layout, before);
        let last = layout[upto - 1];
        let earlier = table_upto(layout, before);
        assert(table_upto(layout, upto) == earlier.insert(last, slot(upto - 1)));
        assert forall|c: char| #[trigger]
            table_upto(layout, upto).dom().contains(c) <==> placed(layout, upto as int, c) by {
            if placed(layout, upto as int, c) {
                let i = choose|i: int| 0 <= i < upto && #[trigger] layout[i] == c;
                if i < upto - 1 {
                    assert(placed(layout, before as int, c));
                    assert(earlier.dom().contains(c));
                }
            }
            if table_upto(layout, upto).dom().contains(c) {
                if c == last {
                    assert(layout[upto - 1] == c);
                } else {
                    assert(earlier.dom().contains(c));
                    assert(placed(layout, before as int, c));
                    let i = choose|i: int| 0 <= i < before && #[trigger] layout[i] == c;
                    assert(layout[i] == c);
                }
            }
        }
        assert forall|c: char| #[trigger]
            table_upto(layout, upto).dom().contains(c) implies on_board(
            table_upto(layout, upto)[c],
        ) by {
            if c != last {
                assert(earlier.dom().contains(c));
            }
        }
    }
}

/// In the table of an arrangement without repeats every character has the key
/// of its own slot.
pub proof fn lemma_table_slot(layout: Seq<char>, upto: nat, at: int)
    requires
        distinct(layout),
        0 <= at < upto <= layout.len(),
    ensures
        table_upto(layout, upto).dom().contains(layout[at]),
        table_upto(layout, upto)[layout[at]] == slot(at),
    decreases upto,
{
    if at < upto - 1 {
        lemma_table_slot(layout, (upto - 1) as nat, at);
    }
}

/// Builds the table of an arrangement: each of its characters with the key of
/// the slot it stands on.
pub fn layout_raw_to_table(layout_raw: &[char; 32]) -> (table: AHashMap<char, Key>)
    ensures
        table_entries(table) == table_of(layout_raw@),
{
    let mut table = table_new();
    let mut index: usize = 0;
    while index < 32
        invariant
            index <= 32,
            layout_raw@.len() == 32,
            table_entries(table) == table_upto(layout_raw@, index as nat),
        decreases 32 - index,
    {
        table_insert(&mut table, layout_raw[index], slot_key(index));
        index += 1;
    }
    table
}

/// The weight of each finger in the cost of its travel.
pub open spec fn standard_weights() -> Map<Finger, i64> {
    Map::<Finger, i64>::empty().insert(Finger::Pinky, 66).insert(Finger::Ring, 28).insert(
        Finger::Middle,
        21,
    ).insert(Finger::Index, 18).insert(Finger::Thumb, 50)
}

/// The table of the standard finger weights.
pub fn finger_weights() -> (weights: AHashMap<Finger, i64>)
    ensures
        weight_entries(weights) == standard_weights(),
{
    let mut weights = weights_new();
    weights_insert(&mut weights, Finger::Pinky, 66);
    weights_insert(&mut weights, Finger::Ring, 28);
    weights_insert(&mut weights, Finger::Middle, 21);
    weights_insert(&mut weights, Finger::Index, 18);
    weights_insert(&mut weights, Finger::Thumb, 50);
    weights
}

/// The score of a tally under a table of weights: the sum over all categories,
/// the travel cost and the heat among them, of the count times the weight.
pub open spec fn weighted(tally: Tally, weights: Tally) -> int {
    tally.fspeed * weights.fspeed + tally.heatmap * weights.heatmap + tally.sfb * weights.sfb + tally.sfr * weights.sfr + tally.sfs * weights.sfs + tally.lsb
        * weights.lsb + tally.lss * weights.lss + tally.hsb * weights.hsb + tally.hss * weights.hss
        + tally.fsb * weights.fsb + tally.fss * weights.fss + tally.inroll * weights.inroll
        + tally.outroll * weights.outroll + tally.inthreeroll * weights.inthreeroll
        + tally.outthreeroll * weights.outthreeroll + tally.alt * weights.alt + tally.weak_red
        * weights.weak_red + tally.red * weights.red
}

/// Whether every number that a score reads lies within `limit` of zero.
pub open spec fn within(tally: Tally, limit: int) -> bool {
    &&& -limit <= tally.fspeed <= limit
    &&& -limit <= tally.heatmap <= limit
    &&& -limit <= tally.sfb <= limit
    &&& -limit <= tally.sfr <= limit
    &&& -limit <= tally.sfs <= limit
    &&& -limit <= tally.lsb <= limit
    &&& -limit <= tally.lss <= limit
    &&& -limit <= tally.hsb <= limit
    &&& -limit <= tally.hss <= limit
    &&& -limit <= tally.fsb <= limit
    &&& -limit <= tally.fss <= limit
    &&& -limit <= tally.inroll <= limit
    &&& -limit <= tally.outroll <= limit
    &&& -limit <= tally.inthreeroll <= limit
    &&& -limit <= tally.outthreeroll <= limit
    &&& -limit <= tally.alt <= limit
    &&& -limit <= tally.weak_red <= limit
    &&& -limit <= tally.red <= limit
}

/// A limit on counts under which every score can be held.
pub const COUNT_LIMIT: i64 = 0x4000_0000_0000;

/// A limit on weights under which every score can be held.
pub const WEIGHT_LIMIT: i64 = 0x1000;

/// The weights of the score: costs for travel, heat, lateral stretches,
/// scissors and redirects, rewards for rolls, and nothing for the rest.
pub open spec fn standard_table() -> Tally {
    Tally {
        heatmap: -200,
        fspeed: -200,
        fsb: -500,
        hsb: -100,
        hss: -20,
        fss: -100,
        lsb: -100,
        lss: -20,
        inroll: 100,
        outroll: 50,
        inthreeroll: 300,
        outthreeroll: 150,
        weak_red: -600,
        red: -7,
        ..Tally::zero()
    }
}

/// The table of the weights of the score.
pub fn score_weights() -> (weights: Stats)
    ensures
        weights@ == standard_table(),
        within(weights@, WEIGHT_LIMIT as int),
{
    let mut weights = Stats::default();
    weights.heatmap = -200;
    weights.fspeed = -200;
    weights.fsb = -500;
    weights.hsb = -100;
    weights.hss = -20;
    weights.fss = -100;
    weights.lsb = -100;
    weights.lss = -20;
    weights.inroll = 100;
    weights.outroll = 50;
    weights.inthreeroll = 300;
    weights.outthreeroll = 150;
    weights.weak_red = -600;
    weights.red = -7;
    weights
}

/// Whether a number fits the field of a counter.
pub open spec fn fits_counter(x: int) -> bool {
    i64::MIN <= x <= i64::MAX
}

/// Whether the score of a tally under a table of weights can be held: each
/// count times its weight fits, and so does their sum.
pub open spec fn scorable(tally: Tally, weights: Tally) -> bool {
    &&& fits_counter(tally.fspeed * weights.fspeed)
    &&& fits_counter(tally.heatmap * weights.heatmap)
    &&& fits_counter(tally.sfb * weights.sfb)
    &&& fits_counter(tally.sfr * weights.sfr)
    &&& fits_counter(tally.sfs * weights.sfs)
    &&& fits_counter(tally.lsb * weights.lsb)
    &&& fits_counter(tally.lss * weights.lss)
    &&& fits_counter(tally.hsb * weights.hsb)
    &&& fits_counter(tally.hss * weights.hss)
    &&& fits_counter(tally.fsb * weights.fsb)
    &&& fits_counter(tally.fss * weights.fss)
    &&& fits_counter(tally.inroll * weights.inroll)
    &&& fits_counter(tally.outroll * weights.outroll)
    &&& fits_counter(tally.inthreeroll * weights.inthreeroll)
    &&& fits_counter(tally.outthreeroll * weights.outthreeroll)
    &&& fits_counter(tally.alt * weights.alt)
    &&& fits_counter(tally.weak_red * weights.weak_red)
    &&& fits_counter(tally.red * weights.red)
    &&& fits_counter(weighted(tally, weights))
}

/// A product of a count and a weight within the limits.
proof fn lemma_term_is_small(count: int, weight: int)
    requires
        -COUNT_LIMIT <= count <= COUNT_LIMIT,
        -WEIGHT_LIMIT <= weight <= WEIGHT_LIMIT,
    ensures
        -0x400_0000_0000_0000 <= count * weight <= 0x400_0000_0000_0000,
{
    assert(-0x400_0000_0000_0000 <= count * weight <= 0x400_0000_0000_0000) by (nonlinear_arith)
        requires
            -0x4000_0000_0000 <= count <= 0x4000_0000_0000,
            -0x1000 <= weight <= 0x1000,
    ;
}

/// Counts within the count limit can be scored under weights within the
/// weight limit.
pub proof fn lemma_within_limits_is_scorable(tally: Tally, weights: Tally)
    requires
        within(tally, COUNT_LIMIT as int),
        within(weights, WEIGHT_LIMIT as int),
    ensures
        scorable(tally, weights),
{
    lemma_term_is_small(tally.fspeed, weights.fspeed);
    lemma_term_is_small(tally.heatmap, weights.heatmap);
    lemma_term_is_small(tally.sfb, weights.sfb);
    lemma_term_is_small(tally.sfr, weights.sfr);
    lemma_term_is_small(tally.sfs, weights.sfs);
    lemma_term_is_small(tally.lsb, weights.lsb);
    lemma_term_is_small(tally.lss, weights.lss);
    lemma_term_is_small(tally.hsb, weights.hsb);
    lemma_term_is_small(tally.hss, weights.hss);
    lemma_term_is_small(tally.fsb, weights.fsb);
    lemma_term_is_small(tally.fss, weights.fss);
    lemma_term_is_small(tally.inroll, weights.inroll);
    lemma_term_is_small(tally.outroll, weights.outroll);
    lemma_term_is_small(tally.inthreeroll, weights.inthreeroll);
    lemma_term_is_small(tally.outthreeroll, weights.outthreeroll);
    lemma_term_is_small(tally.alt, weights.alt);
    lemma_term_is_small(tally.weak_red, weights.weak_red);
    lemma_term_is_small(tally.red, weights.red);
}

/// One count times its weight.
fn term(count: i64, weight: i64) -> (product: i128)
    ensures
        product == count * weight,
{
    assert(-0x4000_0000_0000_0000_0000_0000_0000_0000 <= count * weight
        <= 0x4000_0000_0000_0000_0000_0000_0000_0000) by (nonlinear_arith)
        requires
            -0x8000_0000_0000_0000 <= count <= 0x8000_0000_0000_0000,
            -0x8000_0000_0000_0000 <= weight <= 0x8000_0000_0000_0000,
    ;
    let wide_count: i128 = count as i128;
    let wide_weight: i128 = weight as i128;
    wide_count * wide_weight
}

/// The score of a set of counters under a table of weights.
pub fn score(stats: &Stats, weighting: &Stats) -> (total: i64)
    requires
        scorable(stats@, weighting@),
    ensures
        total == weighted(stats@, weighting@),
{
    let mut total: i128 = term(stats.fspeed, weighting.fspeed);
    total = total + term(stats.heatmap, weighting.heatmap);
    total = total + term(stats.sfb, weighting.sfb);
    total = total + term(stats.sfr, weighting.sfr);
    total = total + term(stats.sfs, weighting.sfs);
    total = total + term(stats.lsb, weighting.lsb);
    total = total + term(stats.lss, weighting.lss);
    total = total + term(stats.hsb, weighting.hsb);
    total = total + term(stats.hss, weighting.hss);
    total = total + term(stats.fsb, weighting.fsb);
    total = total + term(stats.fss, weighting.fss);
    total = total + term(stats.inroll, weighting.inroll);
    total = total + term(stats.outroll, weighting.outroll);
    total = total + term(stats.inthreeroll, weighting.inthreeroll);
    total = total + term(stats.outthreeroll, weighting.outthreeroll);
    total = total + term(stats.alt, weighting.alt);
    total = total + term(stats.weak_red, weighting.weak_red);
    total = total + term(stats.red, weighting.red);
    total as i64
}

/// A cost that shrinks costs no more: under a weight that is not positive, a
/// smaller amount gives a product that is not smaller.
proof fn lemma_cost_shrinks(more: int, less: int, weight: int)
    requires
        less <= more,
        weight <= 0,
    ensures
        less * weight >= more * weight,
{
    assert(less * weight >= more * weight) by (nonlinear_arith)
        requires
            less <= more,
            weight <= 0,
    ;
}

/// Fewer costs, no lower score. Where no counter that the score charges for
/// (travel, heat, lateral stretches, scissors, redirects) is higher in `after`
/// than in `before`, and the counters that it rewards are the same in both,
/// the score of `after` is at least the score of `before`. This holds in
/// particular where every charged counter is strictly lower.
pub proof fn lemma_fewer_costs_no_lower_score(before: Tally, after: Tally)
    requires
        after.fspeed <= before.fspeed,
        after.heatmap <= before.heatmap,
        after.lsb <= before.lsb,
        after.lss <= before.lss,
        after.hsb <= before.hsb,
        after.hss <= before.hss,
        after.fsb <= before.fsb,
        after.fss <= before.fss,
        after.weak_red <= before.weak_red,
        after.red <= before.red,
        after.inroll == before.inroll,
        after.outroll == before.outroll,
        after.inthreeroll == before.inthreeroll,
        after.outthreeroll == before.outthreeroll,
    ensures
        weighted(after, standard_table()) >= weighted(before, standard_table()),
{
    let w = standard_table();
    lemma_cost_shrinks(before.fspeed, after.fspeed, w.fspeed);
    lemma_cost_shrinks(before.heatmap, after.heatmap, w.heatmap);
    lemma_cost_shrinks(before.lsb, after.lsb, w.lsb);
    lemma_cost_shrinks(before.lss, after.lss, w.lss);
    lemma_cost_shrinks(before.hsb, after.hsb, w.hsb);
    lemma_cost_shrinks(before.hss, after.hss, w.hss);
    lemma_cost_shrinks(before.fsb, after.fsb, w.fsb);
    lemma_cost_shrinks(before.fss, after.fss, w.fss);
    lemma_cost_shrinks(before.weak_red, after.weak_red, w.weak_red);
    lemma_cost_shrinks(before.red, after.red, w.red);
    assert(w.sfb == 0 && w.sfr == 0 && w.sfs == 0 && w.alt == 0);
    assert(after.sfb * w.sfb == 0 && before.sfb * w.sfb == 0);
    assert(after.sfr * w.sfr == 0 && before.sfr * w.sfr == 0);
    assert(after.sfs * w.sfs == 0 && before.sfs * w.sfs == 0);
    assert(after.alt * w.alt == 0 && before.alt * w.alt == 0);
}

/// A table of counts with one more count of `item`.
pub open spec fn bump<K>(counts: Map<K, u32>, item: K) -> Map<K, u32> {
    counts.insert(
        item,
        if counts.dom().contains(item) {
            (counts[item] + 1) as u32
        } else {
            1u32
        },
    )
}

/// What the stroke of one key adds: the heat of its slot.
pub open spec fn heat_step(tally: Tally, key: Key) -> Tally {
    Tally { heatmap: tally.heatmap + HEAT@[key.index as int], ..tally }
}

/// What one adjacent pair adds: one bigram, its category and cost, and one
/// entry in the n-gram table where the report shows the pair.
pub open spec fn bigram_step(
    tally: Tally,
    key1: Key,
    key2: Key,
    gram: (char, char, char),
    report: Option<Category>,
    weights: Map<Finger, i64>,
) -> Tally {
    let counted = Tally { bigrams: tally.bigrams + 1, ..tally };
    let filed = bigram_effect(counted, key1, key2, weights);
    if shows_bigram(report, pair_kind(key1, key2)) {
        Tally { ngrams: bump(filed.ngrams, gram), ..filed }
    } else {
        filed
    }
}

/// What one skipgram adds: its counts and cost, and one entry in the n-gram
/// table where the report shows it.
pub open spec fn skipgram_step(
    tally: Tally,
    key1: Key,
    key2: Key,
    far: Option<Key>,
    gram: (char, char, char),
    report: Option<Category>,
    weights: Map<Finger, i64>,
) -> Tally {
    let filed = skipgram_effect(tally, key1, key2, far, weights);
    if shows_skipgram(report, key1, key2, far) {
        Tally { ngrams: bump(filed.ngrams, gram), ..filed }
    } else {
        filed
    }
}

/// What one trigram adds: one trigram, its category, and one entry in the
/// n-gram table where the report shows it.
pub open spec fn trigram_step(
    tally: Tally,
    key1: Key,
    key2: Key,
    key3: Key,
    gram: (char, char, char),
    report: Option<Category>,
    config: Config,
) -> Tally {
    let kind = trigram_kind(key1, key2, key3, config);
    let filed = trigram_effect(tally, kind);
    let counted = Tally { trigrams: filed.trigrams + 1, ..filed };
    if shows_trigram(report, kind) {
        Tally { ngrams: bump(counted.ngrams, gram), ..counted }
    } else {
        counted
    }
}

/// What one pass reads: the text after substitution, the table of the
/// layout, the category to report on, the toggles and the finger weights.
pub struct Pass {
    pub text: Seq<char>,
    pub table: Map<char, Key>,
    pub report: Option<Category>,
    pub config: Config,
    pub weights: Map<Finger, i64>,
}

impl Pass {
    /// The key of the character at a position of the text.
    pub open spec fn key(self, at: int) -> Key {
        self.table[self.text[at]]
    }

    /// The key three back from a position, where the text reaches that far.
    pub open spec fn far(self, at: int) -> Option<Key> {
        if at >= 3 {
            Some(self.key(at - 3))
        } else {
            None
        }
    }

    /// The tally after the character at `at` has been read on top of `tally`:
    /// its heat; with one character before it, the bigram that the two make;
    /// with two before it, the skipgram with the character two back and the
    /// trigram of the three.
    pub open spec fn step(self, tally: Tally, at: int) -> Tally {
        let heated = heat_step(tally, self.key(at));
        let paired = if at >= 1 {
            bigram_step(
                heated,
                self.key(at - 1),
                self.key(at),
                (self.text[at - 1], self.text[at], ' '),
                self.report,
                self.weights,
            )
        } else {
            heated
        };
        let skipped = if at >= 2 {
            skipgram_step(
                paired,
                self.key(at - 2),
                self.key(at),
                self.far(at),
                (self.text[at - 2], self.text[at], ' '),
                self.report,
                self.weights,
            )
        } else {
            paired
        };
        if at >= 2 {
            trigram_step(
                skipped,
                self.key(at - 2),
                self.key(at - 1),
                self.key(at),
                (self.text[at - 2], self.text[at - 1], self.text[at]),
                self.report,
                self.config,
            )
        } else {
            skipped
        }
    }

    /// The tally after the first `upto` characters of the text.
    pub open spec fn upto(self, upto: nat) -> Tally
        decreases upto,
    {
        if upto == 0 {
            Tally::zero()
        } else {
            self.step(self.upto((upto - 1) as nat), upto - 1)
        }
    }

    /// Whether the table knows each of the first `upto` characters.
    pub open spec fn known(self, upto: int) -> bool {
        knows(self.table, self.text, upto)
    }

    /// Whether the character at `at` is the first that the table lacks.
    pub open spec fn stranger_at(self, at: int) -> bool {
        stranger(self.table, self.text, at)
    }
}

/// Whether a table knows each of the first `upto` characters of a text.
pub open spec fn knows(table: Map<char, Key>, text: Seq<char>, upto: int) -> bool {
    forall|i: int| 0 <= i < upto ==> table.dom().contains(#[trigger] text[i])
}

/// Whether the character at `at` is the first of a text that a table lacks.
pub open spec fn stranger(table: Map<char, Key>, text: Seq<char>, at: int) -> bool {
    0 <= at < text.len() && knows(table, text, at) && !table.dom().contains(text[at])
}

/// What closes a pass: with thumbs left out of both alternation and rolls the
/// trigrams filed under nothing are taken off the count of trigrams; then the
/// score is drawn from the counters.
pub open spec fn finish(tally: Tally, config: Config) -> Tally {
    let trimmed = if !(config.thumb_alt || config.thumb_roll) {
        Tally { trigrams: tally.trigrams - tally.thumb_stat, ..tally }
    } else {
        tally
    };
    Tally { score: weighted(trimmed, standard_table()), ..trimmed }
}

/// How many of the n-grams of one character a report can show: its bigram,
/// its skipgram or its trigram, as the category of the report is one of
/// bigrams, of skipgrams or of trigrams; `b`, `s` and `g` are 1 where that
/// n-gram has been read and 0 where not.
pub open spec fn shown(report: Option<Category>, b: int, s: int, g: int) -> int {
    match report {
        None => 0,
        Some(Category::Sfb) | Some(Category::Sfr) | Some(Category::Lsb) | Some(Category::Hsb) | Some(
            Category::Fsb,
        ) => b,
        Some(Category::Sfs) | Some(Category::Lss) | Some(Category::Hss) | Some(Category::Fss) => s,
        Some(_) => g,
    }
}

/// How far the counters of a report can have come after `n` characters and,
/// of the next character, its heat (`h`), its bigram (`b`), its skipgram (`s`)
/// and its trigram (`g`), each of them 1 where it has been read and 0 where
/// not.
pub open spec fn bounded_at(
    tally: Tally,
    report: Option<Category>,
    n: int,
    h: int,
    b: int,
    s: int,
    g: int,
) -> bool {
    &&& tally.score == 0
    &&& 0 <= tally.fspeed <= 1188 * n + 990 * b + 198 * s
    &&& 0 <= tally.heatmap <= 12 * n + 12 * h
    &&& 0 <= tally.sfb <= n + b
    &&& 0 <= tally.sfr <= n + b
    &&& 0 <= tally.sfs <= 2 * n + 2 * s
    &&& 0 <= tally.lsb <= n + b
    &&& 0 <= tally.lss <= n + s
    &&& 0 <= tally.hsb <= n + b
    &&& 0 <= tally.hss <= n + s
    &&& 0 <= tally.fsb <= n + b
    &&& 0 <= tally.fss <= n + s
    &&& 0 <= tally.inroll <= n + g
    &&& 0 <= tally.outroll <= n + g
    &&& 0 <= tally.alt <= n + g
    &&& 0 <= tally.inthreeroll <= n + g
    &&& 0 <= tally.outthreeroll <= n + g
    &&& 0 <= tally.weak_red <= n + g
    &&& 0 <= tally.red <= n + g
    &&& 0 <= tally.thumb_stat <= tally.trigrams <= n + g
    &&& 0 <= tally.bigrams <= n + b
    &&& 0 <= tally.skipgrams <= n + s
    &&& (forall|gram: (char, char, char)| #[trigger]
        tally.ngrams.dom().contains(gram) ==> tally.ngrams[gram] <= n + shown(report, b, s, g))
}

/// How far the counters of a report can have come after `n` characters.
pub open spec fn bounded(tally: Tally, report: Option<Category>, n: int) -> bool {
    bounded_at(tally, report, n, 0, 0, 0, 0)
}

/// On the board no finger travels further than three rows.
pub proof fn lemma_travel_on_board(key1: Key, key2: Key)
    requires
        on_board(key1),
        on_board(key2),
    ensures
        1 <= travel(key1, key2) <= 3,
{
    let dy = if key1.row >= key2.row {
        key1.row - key2.row
    } else {
        key2.row - key1.row
    };
    lemma_diagonal(dy);
}

/// Counts one more n-gram.
fn note(ngrams: &mut AHashMap<[char; 3], u32>, gram: (char, char, char))
    requires
        ngram_entries(*old(ngrams)).dom().contains(gram) ==> ngram_entries(*old(ngrams))[gram]
            < u32::MAX,
    ensures
        ngram_entries(*final(ngrams)) == bump(ngram_entries(*old(ngrams)), gram),
{
    let count: u32 = match ngrams_get(ngrams, gram) {
        Some(seen) => seen + 1,
        None => 1,
    };
    ngrams_insert(ngrams, gram, count);
}

/// Reads one adjacent pair into the counters, and says how much the pair adds
/// to the table of bad bigrams where `get_bad_bigrams` asks for it.
pub(crate) fn read_bigram(
    stats: &mut Stats,
    key1: &Key,
    key2: &Key,
    gram: (char, char, char),
    report: Option<Category>,
    weights: &AHashMap<Finger, i64>,
    get_bad_bigrams: bool,
    Ghost(n): Ghost<int>,
) -> (bad: u32)
    requires
        bounded_at(old(stats)@, report, n, 1, 0, 0, 0),
        0 <= n < MAX_CORPUS,
        on_board(*key1),
        on_board(*key2),
        weight_entries(*weights) == standard_weights(),
    ensures
        final(stats)@ == bigram_step(
            old(stats)@,
            *key1,
            *key2,
            gram,
            report,
            weight_entries(*weights),
        ),
        bounded_at(final(stats)@, report, n, 1, 1, 0, 0),
        bad == (if get_bad_bigrams && is_bad(pair_kind(*key1, *key2)) {
            1u32
        } else {
            0u32
        }),
{
    proof {
        lemma_travel_on_board(*key1, *key2);
        let w = standard_weights();
        assert(w.dom().contains(key1.finger));
        assert(0 <= w[key1.finger] <= 66);
        assert(0 <= 5 * w[key1.finger] * travel(*key1, *key2) <= 990) by (nonlinear_arith)
            requires
                0 <= w[key1.finger] <= 66,
                1 <= travel(*key1, *key2) <= 3,
        ;
    }
    stats.bigrams = stats.bigrams + 1;
    let shown = count_bigram(key1, key2, report, stats, weights, get_bad_bigrams);
    let ghost filed = stats@;
    assert(filed.ngrams == old(stats)@.ngrams);
    assert(bounded_at(filed, report, n, 1, 1, 0, 0));
    if shown.0 {
        assert(stats@.ngrams.dom().contains(gram) ==> stats@.ngrams[gram] <= n);
        note(&mut stats.ngram_table, gram);
        assert(stats@ == (Tally { ngrams: bump(filed.ngrams, gram), ..filed }));
    }
    shown.1
}

/// Reads one skipgram into the counters.
fn read_skipgram(
    stats: &mut Stats,
    key1: &Key,
    key2: &Key,
    far: Option<&Key>,
    gram: (char, char, char),
    report: Option<Category>,
    weights: &AHashMap<Finger, i64>,
    Ghost(n): Ghost<int>,
)
    requires
        bounded_at(old(stats)@, report, n, 1, 1, 0, 0),
        0 <= n < MAX_CORPUS,
        on_board(*key1),
        on_board(*key2),
        weight_entries(*weights) == standard_weights(),
    ensures
        final(stats)@ == skipgram_step(
            old(stats)@,
            *key1,
            *key2,
            far_of(far),
            gram,
            report,
            weight_entries(*weights),
        ),
        bounded_at(final(stats)@, report, n, 1, 1, 1, 0),
{
    proof {
        lemma_travel_on_board(*key1, *key2);
        let w = standard_weights();
        assert(w.dom().contains(key1.finger));
        assert(0 <= w[key1.finger] <= 66);
        assert(0 <= 1 * w[key1.finger] * travel(*key1, *key2) <= 198) by (nonlinear_arith)
            requires
                0 <= w[key1.finger] <= 66,
                1 <= travel(*key1, *key2) <= 3,
        ;
    }
    let shown = count_skipgram(key1, key2, far, report, stats, weights);
    if shown {
        assert(stats@.ngrams == old(stats)@.ngrams);
        assert(stats@.ngrams.dom().contains(gram) ==> stats@.ngrams[gram] <= n);
        note(&mut stats.ngram_table, gram);
    }
}

/// Reads one trigram into the counters.
fn read_trigram(
    stats: Stats,
    key1: &Key,
    key2: &Key,
    key3: &Key,
    gram: (char, char, char),
    report: Option<Category>,
    config: &Config,
    Ghost(n): Ghost<int>,
) -> (out: Stats)
    requires
        bounded_at(stats@, report, n, 1, 1, 1, 0),
        0 <= n < MAX_CORPUS,
    ensures
        out@ == trigram_step(stats@, *key1, *key2, *key3, gram, report, *config),
        bounded_at(out@, report, n, 1, 1, 1, 1),
{
    let filed = count_trigram(key1, key2, key3, report, config, stats);
    let mut next = filed.0;
    next.trigrams = next.trigrams + 1;
    if filed.1 {
        assert(next@.ngrams == stats@.ngrams);
        assert(next@.ngrams.dom().contains(gram) ==> next@.ngrams[gram] <= n);
        note(&mut next.ngram_table, gram);
    }
    next
}

/// The heat of a slot.
fn heat_of(key: &Key) -> (heat: i64)
    requires
        on_board(*key),
    ensures
        heat == HEAT@[key.index as int],
        0 <= heat <= 12,
{
    HEAT[key.index as usize] as i64
}

/// Reads the character at `at`, whose key is `key`, on top of what the
/// characters before it have left: `one`, `two` and `three` are the keys, and
/// `before` and `earlier` the characters, one, two and three back.
fn advance(
    stats: Stats,
    at: usize,
    letter: char,
    before: char,
    earlier: char,
    key: &Key,
    one: &Key,
    two: &Key,
    three: &Key,
    report: Option<Category>,
    config: &Config,
    weights: &AHashMap<Finger, i64>,
    Ghost(p): Ghost<Pass>,
) -> (next: Stats)
    requires
        at < p.text.len() <= MAX_CORPUS,
        bounded(stats@, report, at as int),
        p.report == report,
        p.config == *config,
        p.weights == standard_weights(),
        weight_entries(*weights) == standard_weights(),
        letter == p.text[at as int],
        *key == p.key(at as int),
        at >= 1 ==> *one == p.key(at - 1) && before == p.text[at - 1],
        at >= 2 ==> *two == p.key(at - 2) && earlier == p.text[at - 2],
        at >= 3 ==> *three == p.key(at - 3),
        on_board(*key),
        on_board(*one),
        on_board(*two),
        on_board(*three),
    ensures
        next@ == p.step(stats@, at as int),
        bounded(next@, report, at + 1),
{
    let mut next = stats;
    next.heatmap = next.heatmap + heat_of(key);
    assert(next@ == heat_step(stats@, p.key(at as int)));
    assert(bounded_at(next@, report, at as int, 1, 0, 0, 0));
    if at >= 1 {
        read_bigram(
            &mut next,
            one,
            key,
            (before, letter, ' '),
            report,
            weights,
            false,
            Ghost(at as int),
        );
    }
    assert(bounded_at(next@, report, at as int, 1, 1, 0, 0));
    if at >= 2 {
        let far = if at >= 3 {
            Some(three)
        } else {
            None
        };
        assert(far_of(far) == p.far(at as int));
        read_skipgram(
            &mut next,
            two,
            key,
            far,
            (earlier, letter, ' '),
            report,
            weights,
            Ghost(at as int),
        );
        next = read_trigram(
            next,
            two,
            one,
            key,
            (earlier, before, letter),
            report,
            config,
            Ghost(at as int),
        );
    }
    assert(bounded_at(next@, report, at as int, 1, 1, 1, 1));
    next
}

/// Streams a text through a layout table.
fn pass(
    text: &Vec<char>,
    table: &AHashMap<char, Key>,
    report: Option<Category>,
    config: &Config,
    weights: &AHashMap<Finger, i64>,
) -> (result: Result<Stats, AnalysisError>)
    requires
        text@.len() <= MAX_CORPUS,
        forall|c: char| #[trigger]
            table_entries(*table).dom().contains(c) ==> on_board(table_entries(*table)[c]),
        weight_entries(*weights) == standard_weights(),
    ensures
        ({
            let p = Pass {
                text: text@,
                table: table_entries(*table),
                report,
                config: *config,
                weights: standard_weights(),
            };
            match result {
                Ok(stats) => p.known(text@.len() as int) && stats@ == p.upto(text@.len())
                    && bounded(stats@, report, text@.len() as int),
                Err(AnalysisError::Lookup(c)) => exists|at: int|
                    #[trigger] p.stranger_at(at) && c == text@[at],
                Err(AnalysisError::Configuration) => false,
            }
        }),
{
    let ghost p = Pass {
        text: text@,
        table: table_entries(*table),
        report,
        config: *config,
        weights: standard_weights(),
    };
    let n = text.len();
    let mut stats = Stats::default();
    let mut one = slot_key(0);
    let mut two = slot_key(0);
    let mut three = slot_key(0);
    let mut before = ' ';
    let mut earlier = ' ';
    let mut i: usize = 0;
    while i < n
        invariant
            i <= n,
            n == text@.len(),
            n <= MAX_CORPUS,
            p.text == text@,
            p.table == table_entries(*table),
            p.report == report,
            p.config == *config,
            p.weights == standard_weights(),
            forall|c: char| #[trigger]
                table_entries(*table).dom().contains(c) ==> on_board(table_entries(*table)[c]),
            weight_entries(*weights) == standard_weights(),
            p.known(i as int),
            stats@ == p.upto(i as nat),
            bounded(stats@, report, i as int),
            i >= 1 ==> one == p.key(i - 1) && before == p.text[i - 1],
            i >= 2 ==> two == p.key(i - 2) && earlier == p.text[i - 2],
            i >= 3 ==> three == p.key(i - 3),
            on_board(one),
            on_board(two),
            on_board(three),
        decreases n - i,
    {
        let letter = text[i];
        let key = match table_get(table, letter) {
            Some(key) => key,
            None => {
                assert(p.stranger_at(i as int));
                return Err(AnalysisError::Lookup(letter));
            },
        };
        stats = advance(
            stats,
            i,
            letter,
            before,
            earlier,
            &key,
            &one,
            &two,
            &three,
            report,
            config,
            weights,
            Ghost(p),
        );
        three = two;
        two = one;
        one = key;
        earlier = before;
        before = letter;
        i += 1;
    }
    Ok(stats)
}

/// Closes a pass.
fn close(
    stats: Stats,
    config: &Config,
    Ghost(report): Ghost<Option<Category>>,
    Ghost(n): Ghost<int>,
) -> (closed: Stats)
    requires
        bounded(stats@, report, n),
        0 <= n <= MAX_CORPUS,
    ensures
        closed@ == finish(stats@, *config),
{
    let mut closed = stats;
    if !(config.thumb_alt || config.thumb_roll) {
        closed.trigrams = closed.trigrams - closed.thumb_stat;
    }
    let weights = score_weights();
    proof {
        lemma_within_limits_is_scorable(closed@, weights@);
    }
    closed.score = score(&closed, &weights);
    closed
}

/// What a pass over `corpus` reads.
pub open spec fn pass_of(
    corpus: Seq<char>,
    layout: Seq<char>,
    report: Option<Category>,
    rules: Map<char, char>,
    config: Config,
) -> Pass {
    Pass {
        text: substituted(corpus, rules),
        table: table_of(layout),
        report,
        config,
        weights: standard_weights(),
    }
}

/// The tally of a corpus on a layout: the rules are applied to the corpus,
/// the result is streamed through the table of the layout, and the pass is
/// closed.
pub open spec fn analysis(
    corpus: Seq<char>,
    layout: Seq<char>,
    report: Option<Category>,
    rules: Map<char, char>,
    config: Config,
) -> Tally {
    let p = pass_of(corpus, layout, report, rules, config);
    finish(p.upto(p.text.len()), config)
}

/// Whether `result` is what an analysis returns. An arrangement that holds a
/// character twice is refused. Otherwise the first character of the
/// substituted corpus that the arrangement lacks is reported, and where there
/// is none the tally is returned.
pub open spec fn analyzed(
    corpus: Seq<char>,
    layout: Seq<char>,
    report: Option<Category>,
    rules: Map<char, char>,
    config: Config,
    result: Result<Tally, AnalysisError>,
) -> bool {
    let p = pass_of(corpus, layout, report, rules, config);
    match result {
        Ok(tally) => distinct(layout) && p.known(p.text.len() as int) && tally == analysis(
            corpus,
            layout,
            report,
            rules,
            config,
        ),
        Err(AnalysisError::Configuration) => !distinct(layout),
        Err(AnalysisError::Lookup(c)) => distinct(layout) && exists|at: int|
            #[trigger] p.stranger_at(at) && c == p.text[at],
    }
}

/// What a result says, with the counters as a tally.
pub open spec fn told(result: Result<Stats, AnalysisError>) -> Result<Tally, AnalysisError> {
    match result {
        Ok(stats) => Ok(stats@),
        Err(e) => Err(e),
    }
}

/// An analysis has one answer: whatever two runs on the same corpus, layout,
/// report, rules and toggles return, they return the same.
pub proof fn lemma_analysis_is_a_function(
    corpus: Seq<char>,
    layout: Seq<char>,
    report: Option<Category>,
    rules: Map<char, char>,
    config: Config,
    first: Result<Tally, AnalysisError>,
    second: Result<Tally, AnalysisError>,
)
    requires
        analyzed(corpus, layout, report, rules, config, first),
        analyzed(corpus, layout, report, rules, config, second),
    ensures
        first == second,
{
    let p = pass_of(corpus, layout, report, rules, config);
    if first is Err && second is Err && distinct(layout) {
        let a = choose|at: int| #[trigger] p.stranger_at(at) && first->Err_0->Lookup_0 == p.text[at];
        let b = choose|at: int| #[trigger]
            p.stranger_at(at) && second->Err_0->Lookup_0 == p.text[at];
        if a < b {
            assert(p.table.dom().contains(p.text[a]));
        }
        if b < a {
            assert(p.table.dom().contains(p.text[b]));
        }
    } else if distinct(layout) {
        if first is Err {
            let a = choose|at: int| #[trigger]
                p.stranger_at(at) && first->Err_0->Lookup_0 == p.text[at];
            assert(p.table.dom().contains(p.text[a]));
        }
        if second is Err {
            let b = choose|at: int| #[trigger]
                p.stranger_at(at) && second->Err_0->Lookup_0 == p.text[at];
            assert(p.table.dom().contains(p.text[b]));
        }
    }
}

/// Whether one finger other than a thumb strikes both keys, in different
/// rows.
pub open spec fn one_finger_two_rows(key1: Key, key2: Key) -> bool {
    key1.hand == key2.hand && key1.finger == key2.finger && key1.finger != Finger::Thumb
        && key1.row != key2.row
}

/// The number of adjacent pairs among the first `upto` characters of a text
/// that one finger strikes in different rows.
pub open spec fn same_finger_pairs(table: Map<char, Key>, text: Seq<char>, upto: nat) -> int
    decreases upto,
{
    if upto <= 1 {
        0
    } else {
        same_finger_pairs(table, text, (upto - 1) as nat) + (if one_finger_two_rows(
            table[text[upto - 2]],
            table[text[upto - 1]],
        ) {
            1int
        } else {
            0int
        })
    }
}

/// After any number of characters a pass has counted one bigram less than
/// characters, and as many same-finger bigrams as there are adjacent pairs
/// that one finger strikes in different rows.
pub proof fn lemma_pass_counts_pairs(p: Pass, upto: nat)
    ensures
        p.upto(upto).bigrams == (if upto == 0 {
            0
        } else {
            upto - 1
        }),
        p.upto(upto).sfb == same_finger_pairs(p.table, p.text, upto),
    decreases upto,
{
    if upto > 0 {
        lemma_pass_counts_pairs(p, (upto - 1) as nat);
        let at = upto - 1;
        let before = p.upto(at as nat);
        let heated = heat_step(before, p.key(at));
        if at >= 1 {
            let key1 = p.key(at - 1);
            let key2 = p.key(at);
            let paired = bigram_step(
                heated,
                key1,
                key2,
                (p.text[at - 1], p.text[at], ' '),
                p.report,
                p.weights,
            );
            assert(paired.bigrams == before.bigrams + 1);
            assert(paired.sfb == before.sfb + (if one_finger_two_rows(key1, key2) {
                1int
            } else {
                0int
            }));
            assert(p.upto(upto).bigrams == paired.bigrams);
            assert(p.upto(upto).sfb == paired.sfb);
        }
    }
}

/// The arrangement that costs less scores no lower. Where the analysis of a
/// corpus on a second arrangement, such as the first with two characters
/// exchanged, counts no more than on the first under each category that the
/// score charges for, and the same under each that it rewards, its score is
/// at least the score on the first.
pub proof fn lemma_cheaper_arrangement_scores_no_lower(
    corpus: Seq<char>,
    first: Seq<char>,
    second: Seq<char>,
    report: Option<Category>,
    first_rules: Map<char, char>,
    second_rules: Map<char, char>,
    config: Config,
)
    requires
        ({
            let before = analysis(corpus, first, report, first_rules, config);
            let after = analysis(corpus, second, report, second_rules, config);
            &&& after.fspeed <= before.fspeed
            &&& after.heatmap <= before.heatmap
            &&& after.lsb <= before.lsb
            &&& after.lss <= before.lss
            &&& after.hsb <= before.hsb
            &&& after.hss <= before.hss
            &&& after.fsb <= before.fsb
            &&& after.fss <= before.fss
            &&& after.weak_red <= before.weak_red
            &&& after.red <= before.red
            &&& after.inroll == before.inroll
            &&& after.outroll == before.outroll
            &&& after.inthreeroll == before.inthreeroll
            &&& after.outthreeroll == before.outthreeroll
        }),
    ensures
        analysis(corpus, second, report, second_rules, config).score >= analysis(
            corpus,
            first,
            report,
            first_rules,
            config,
        ).score,
{
    let one = analysis(corpus, first, report, first_rules, config);
    let two = analysis(corpus, second, report, second_rules, config);
    assert(one.score == weighted(one, standard_table()));
    assert(two.score == weighted(two, standard_table()));
    lemma_fewer_costs_no_lower_score(one, two);
}

/// An analysis counts one bigram less than the corpus has characters, and as
/// many same-finger bigrams as the corpus, read under its rules, has adjacent
/// pairs that one finger strikes in different rows.
pub proof fn lemma_analysis_counts_pairs(
    corpus: Seq<char>,
    layout: Seq<char>,
    report: Option<Category>,
    rules: Map<char, char>,
    config: Config,
)
    ensures
        analysis(corpus, layout, report, rules, config).bigrams == (if corpus.len() == 0 {
            0
        } else {
            corpus.len() - 1
        }),
        analysis(corpus, layout, report, rules, config).sfb == same_finger_pairs(
            table_of(layout),
            substituted(corpus, rules),
            corpus.len(),
        ),
{
    let p = pass_of(corpus, layout, report, rules, config);
    lemma_substituted_chars(corpus, rules);
    lemma_pass_counts_pairs(p, p.text.len());
}

/// Analyzes a corpus that is held as characters.
pub fn analyze_text(
    corpus: &Vec<char>,
    layout_letters: &[char; 32],
    report: Option<Category>,
    magic_rules: &AHashMap<char, char>,
    config: &Config,
) -> (result: Result<Stats, AnalysisError>)
    requires
        corpus@.len() <= MAX_CORPUS,
    ensures
        analyzed(
            corpus@,
            layout_letters@,
            report,
            rule_entries(*magic_rules),
            *config,
            told(result),
        ),
{
    if !is_distinct(layout_letters) {
        return Err(AnalysisError::Configuration);
    }
    let table = layout_raw_to_table(layout_letters);
    let weights = finger_weights();
    let text = apply_magic(corpus, magic_rules);
    proof {
        lemma_table_holds(layout_letters@, 32);
        lemma_substituted_chars(corpus@, rule_entries(*magic_rules));
    }
    match pass(&text, &table, report, config, &weights) {
        Ok(stats) => Ok(close(stats, config, Ghost(report), Ghost(text@.len() as int))),
        Err(e) => Err(e),
    }
}

/// Analyzes a corpus on a layout: one full pass that fills every counter, the
/// n-gram table of the category that `command` names, and the score.
pub fn analyze(
    corpus: &str,
    layout_letters: [char; 32],
    command: &str,
    magic_rules: &AHashMap<char, char>,
    config: &Config,
) -> (result: Result<Stats, AnalysisError>)
    requires
        corpus@.len() <= MAX_CORPUS,
    ensures
        analyzed(
            corpus@,
            layout_letters@,
            category_of(command@),
            rule_entries(*magic_rules),
            *config,
            told(result),
        ),
{
    let text = chars_of(corpus);
    let report = parse_category(command);
    analyze_text(&text, &layout_letters, report, magic_rules, config)
}

} // verus!
