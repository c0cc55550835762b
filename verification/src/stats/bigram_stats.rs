//! Two-key effort: same-finger strokes, lateral stretches and scissors, for
//! adjacent keys and for keys one apart.
use vstd::prelude::*;
use ahash::AHashMap;
use crate::tables::weight_entries;
use crate::tables::weights_get;
use crate::text::parse_category;
use crate::text::category_of;
use crate::Category;
use crate::Finger;
use crate::Key;
use crate::Stats;
use crate::Tally;

verus! {

/// The number of rows between two keys.
pub open spec fn row_gap(key1: Key, key2: Key) -> int {
    if key1.row >= key2.row {
        key1.row - key2.row
    } else {
        key2.row - key1.row
    }
}

/// Whether both keys lie on one hand and neither is a thumb key.
pub open spec fn same_hand_fingers(key1: Key, key2: Key) -> bool {
    key1.hand == key2.hand && key1.finger != Finger::Thumb && key2.finger != Finger::Thumb
}

/// Whether two keys are distinct keys of one finger.
pub open spec fn same_finger(key1: Key, key2: Key) -> bool {
    key1.finger == key2.finger && key1.hand == key2.hand && key1 != key2
}

/// Whether two keys of one hand, neither a thumb key, include a key of a
/// lateral column.
pub open spec fn lateral_stretch(key1: Key, key2: Key) -> bool {
    (key1.lateral || key2.lateral) && same_hand_fingers(key1, key2)
}

/// The pairs of fingers that can scissor: pinky or index against middle or
/// ring, and middle against ring.
pub open spec fn scissor_pair(finger1: Finger, finger2: Finger) -> bool {
    let outer1 = finger1 == Finger::Pinky || finger1 == Finger::Index;
    let outer2 = finger2 == Finger::Pinky || finger2 == Finger::Index;
    let inner1 = finger1 == Finger::Middle || finger1 == Finger::Ring;
    let inner2 = finger2 == Finger::Middle || finger2 == Finger::Ring;
    (outer1 && inner2) || (outer2 && inner1) || (inner1 && inner2 && finger1 != finger2)
}

/// The row distance of a scissoring pair of keys, and 0 for every other pair.
pub open spec fn scissor_reach(key1: Key, key2: Key) -> int {
    if key1.hand == key2.hand && key1.finger != key2.finger && scissor_pair(
        key1.finger,
        key2.finger,
    ) {
        row_gap(key1, key2)
    } else {
        0
    }
}

/// What a pair of keys is filed under.
#[derive(Clone, Copy, Debug, PartialEq, Eq, Structural)]
pub enum Pair {
    /// One key struck twice.
    Repeat,
    /// Two keys of one finger in different rows.
    SameFinger,
    /// Two fingers of one hand, one of them on a lateral column.
    Lateral,
    /// A scissoring pair one row apart.
    HalfScissor,
    /// A scissoring pair two rows apart.
    FullScissor,
    /// None of these.
    Plain,
}

/// The one category of a pair of keys. Pairs across hands, and pairs with a
/// thumb key, are plain. On one finger the pair is a repeat where both keys
/// are the same slot and a same-finger pair where the rows differ. On two
/// fingers a lateral key makes the pair a lateral stretch; otherwise a
/// scissoring pair is a half scissor at one row and a full scissor at two.
pub open spec fn pair_kind(key1: Key, key2: Key) -> Pair {
    if !same_hand_fingers(key1, key2) {
        Pair::Plain
    } else if key1.finger == key2.finger {
        if key1 == key2 {
            Pair::Repeat
        } else if key1.row != key2.row {
            Pair::SameFinger
        } else {
            Pair::Plain
        }
    } else if key1.lateral || key2.lateral {
        Pair::Lateral
    } else if scissor_reach(key1, key2) == 1 {
        Pair::HalfScissor
    } else if scissor_reach(key1, key2) == 2 {
        Pair::FullScissor
    } else {
        Pair::Plain
    }
}

/// Whether `r` is the largest number whose square does not exceed `x`.
pub open spec fn is_floor_sqrt(x: int, r: int) -> bool {
    0 <= r && r * r <= x < (r + 1) * (r + 1)
}

/// The largest number whose square does not exceed `x`.
pub open spec fn floor_sqrt(x: int) -> int {
    choose|r: int| is_floor_sqrt(x, r)
}

/// The distance a finger travels between two of its keys: the row distance,
/// but at least 1, within a column, and the rounded-down length of the
/// diagonal where the finger also crosses to or from its lateral column.
pub open spec fn travel(key1: Key, key2: Key) -> int {
    let dy = row_gap(key1, key2);
    if key1.lateral == key2.lateral {
        if dy >= 1 {
            dy
        } else {
            1
        }
    } else {
        floor_sqrt(dy * dy + 1)
    }
}

/// Rounded down, the diagonal over `dy` rows and one column is as long as the
/// rows alone, and 1 where there are none.
pub proof fn lemma_diagonal(dy: int)
    requires
        0 <= dy,
    ensures
        floor_sqrt(dy * dy + 1) == (if dy >= 1 { dy } else { 1 }),
{
    let x = dy * dy + 1;
    let r0 = if dy >= 1 { dy } else { 1int };
    assert(0 <= r0 && r0 * r0 <= x < (r0 + 1) * (r0 + 1)) by (nonlinear_arith)
        requires
            0 <= dy,
            x == dy * dy + 1,
            r0 == (if dy >= 1 { dy } else { 1int }),
    ;
    assert(is_floor_sqrt(x, r0));
    let r = floor_sqrt(x);
    assert(is_floor_sqrt(x, r));
    assert(r == r0) by (nonlinear_arith)
        requires
            0 <= r,
            r * r <= x < (r + 1) * (r + 1),
            0 <= r0,
            r0 * r0 <= x < (r0 + 1) * (r0 + 1),
    ;
}

/// What one adjacent pair of keys adds to a tally: one count in the pair's
/// category and, on one finger, the cost of the finger's travel. The cost is
/// the finger's weight times the distance, five-fold for a same-finger pair
/// and two-fold, over a distance of 1, for a repeat.
pub open spec fn bigram_effect(tally: Tally, key1: Key, key2: Key, weights: Map<Finger, i64>) -> Tally {
    match pair_kind(key1, key2) {
        Pair::Repeat => Tally {
            sfr: tally.sfr + 1,
            fspeed: tally.fspeed + 2 * weights[key1.finger],
            ..tally
        },
        Pair::SameFinger => Tally {
            sfb: tally.sfb + 1,
            fspeed: tally.fspeed + 5 * weights[key1.finger] * travel(key1, key2),
            ..tally
        },
        Pair::Lateral => Tally { lsb: tally.lsb + 1, ..tally },
        Pair::HalfScissor => Tally { hsb: tally.hsb + 1, ..tally },
        Pair::FullScissor => Tally { fsb: tally.fsb + 1, ..tally },
        Pair::Plain => tally,
    }
}

/// Whether the pair's finger has a weight where the pair costs travel.
pub open spec fn weighs(weights: Map<Finger, i64>, key1: Key, key2: Key) -> bool {
    same_hand_fingers(key1, key2) && key1.finger == key2.finger ==> weights.dom().contains(
        key1.finger,
    )
}

/// Whether a report on `report` shows an adjacent pair of this kind.
pub open spec fn shows_bigram(report: Option<Category>, kind: Pair) -> bool {
    match kind {
        Pair::Repeat => report == Some(Category::Sfr),
        Pair::SameFinger => report == Some(Category::Sfb),
        Pair::Lateral => report == Some(Category::Lsb),
        Pair::HalfScissor => report == Some(Category::Hsb),
        Pair::FullScissor => report == Some(Category::Fsb),
        Pair::Plain => false,
    }
}

/// Whether rule mining counts an adjacent pair of this kind as bad.
pub open spec fn is_bad(kind: Pair) -> bool {
    kind == Pair::SameFinger || kind == Pair::Lateral || kind == Pair::HalfScissor || kind
        == Pair::FullScissor
}

/// No adjacent pair is counted under two categories: of the five bigram
/// counters at most one moves, by one, and no other counter but the travel
/// cost moves at all.
pub proof fn lemma_bigram_categories_exclusive(
    tally: Tally,
    key1: Key,
    key2: Key,
    weights: Map<Finger, i64>,
)
    ensures
        ({
            let after = bigram_effect(tally, key1, key2, weights);
            let sfb = after.sfb - tally.sfb;
            let sfr = after.sfr - tally.sfr;
            let lsb = after.lsb - tally.lsb;
            let hsb = after.hsb - tally.hsb;
            let fsb = after.fsb - tally.fsb;
            &&& 0 <= sfb <= 1 && 0 <= sfr <= 1 && 0 <= lsb <= 1 && 0 <= hsb <= 1 && 0 <= fsb <= 1
            &&& sfb + sfr + lsb + hsb + fsb <= 1
            &&& sfb + sfr + lsb + hsb + fsb == 1 <==> pair_kind(key1, key2) != Pair::Plain
            &&& after == (Tally {
                sfb: after.sfb,
                sfr: after.sfr,
                lsb: after.lsb,
                hsb: after.hsb,
                fsb: after.fsb,
                fspeed: after.fspeed,
                ..tally
            })
        }),
{
}

/// Whether two keys are distinct keys of one finger.
pub fn sf(key1: &Key, key2: &Key) -> (yes: bool)
    ensures
        yes == same_finger(*key1, *key2),
{
    key1.finger == key2.finger && key1.hand == key2.hand && *key1 != *key2
}

/// Whether two keys of one hand, neither a thumb key, include a key of a
/// lateral column.
pub fn ls(key1: &Key, key2: &Key) -> (yes: bool)
    ensures
        yes == lateral_stretch(*key1, *key2),
{
    (key1.lateral || key2.lateral) && key1.hand == key2.hand && key1.finger != Finger::Thumb
        && key2.finger != Finger::Thumb
}

/// The row distance of a scissoring pair of keys, and 0 for every other pair.
pub fn scissor(key1: &Key, key2: &Key) -> (reach: u8)
    ensures
        reach == scissor_reach(*key1, *key2),
{
    let distance: u8 = if key1.row >= key2.row {
        key1.row - key2.row
    } else {
        key2.row - key1.row
    };
    let outer1 = key1.finger == Finger::Pinky || key1.finger == Finger::Index;
    let outer2 = key2.finger == Finger::Pinky || key2.finger == Finger::Index;
    let inner1 = key1.finger == Finger::Middle || key1.finger == Finger::Ring;
    let inner2 = key2.finger == Finger::Middle || key2.finger == Finger::Ring;
    if key1.hand == key2.hand && key1.finger != key2.finger && ((outer1 && inner2) || (outer2
        && inner1) || (inner1 && inner2)) {
        return distance;
    }
    0
}

/// The category of a pair of keys.
pub fn classify(key1: &Key, key2: &Key) -> (kind: Pair)
    ensures
        kind == pair_kind(*key1, *key2),
{
    if !(key1.hand == key2.hand && key1.finger != Finger::Thumb && key2.finger != Finger::Thumb) {
        Pair::Plain
    } else if key1.finger == key2.finger {
        if *key1 == *key2 {
            Pair::Repeat
        } else if key1.row != key2.row {
            Pair::SameFinger
        } else {
            Pair::Plain
        }
    } else if key1.lateral || key2.lateral {
        Pair::Lateral
    } else {
        let reach = scissor(key1, key2);
        if reach == 1 {
            Pair::HalfScissor
        } else if reach == 2 {
            Pair::FullScissor
        } else {
            Pair::Plain
        }
    }
}

/// The distance a finger travels between two of its keys.
pub fn distance(key1: &Key, key2: &Key) -> (d: u8)
    ensures
        d == travel(*key1, *key2),
        1 <= d,
{
    let dy: u8 = if key1.row >= key2.row {
        key1.row - key2.row
    } else {
        key2.row - key1.row
    };
    proof {
        lemma_diagonal(dy as int);
    }
    if dy >= 1 {
        dy
    } else {
        1
    }
}

/// A product is as small as its factors.
proof fn lemma_product_bounds(a: int, b: int, bound: int, most: int)
    requires
        -bound <= a <= bound,
        0 <= b <= most,
    ensures
        -bound * most <= a * b <= bound * most,
{
    assert(-bound * most <= a * b <= bound * most) by (nonlinear_arith)
        requires
            -bound <= a <= bound,
            0 <= b <= most,
    ;
}

/// Adds the travel cost of one same-finger pair to the running cost.
fn add_cost(fspeed: i64, factor: u8, weight: i64, d: u8) -> (sum: i64)
    requires
        i64::MIN <= fspeed + factor * weight * d <= i64::MAX,
    ensures
        sum == fspeed + factor * weight * d,
{
    proof {
        lemma_product_bounds(weight as int, factor as int, 0x8000_0000_0000_0000, 255);
        assert(factor * weight == weight * factor) by (nonlinear_arith);
        lemma_product_bounds(factor * weight, d as int, 0x8000_0000_0000_0000int * 255, 255);
    }
    let scaled: i128 = (factor as i128) * (weight as i128);
    let cost: i128 = scaled * (d as i128);
    let total: i128 = (fspeed as i128) + cost;
    total as i64
}

/// Files one adjacent pair of keys: counts it under its category, adds the
/// travel cost of a same-finger pair, and says whether the report shows the
/// pair and how much the pair adds to the table of bad bigrams.
pub fn count_bigram(
    key1: &Key,
    key2: &Key,
    report: Option<Category>,
    stats: &mut Stats,
    finger_weights: &AHashMap<Finger, i64>,
    get_bad_bigrams: bool,
) -> (out: (bool, u32))
    requires
        weighs(weight_entries(*finger_weights), *key1, *key2),
        bigram_effect(old(stats)@, *key1, *key2, weight_entries(*finger_weights)).fits(),
    ensures
        final(stats)@ == bigram_effect(old(stats)@, *key1, *key2, weight_entries(*finger_weights)),
        out.0 == shows_bigram(report, pair_kind(*key1, *key2)),
        out.1 == (if get_bad_bigrams && is_bad(pair_kind(*key1, *key2)) {
            1u32
        } else {
            0u32
        }),
{
    let kind = classify(key1, key2);
    let mut insert_bigram = false;
    let mut bad: u32 = 0;
    match kind {
        Pair::Repeat => {
            let weight = weights_get(finger_weights, key1.finger).unwrap();
            stats.sfr = stats.sfr + 1;
            stats.fspeed = add_cost(stats.fspeed, 2, weight, 1);
            insert_bigram = report == Some(Category::Sfr);
        },
        Pair::SameFinger => {
            let weight = weights_get(finger_weights, key1.finger).unwrap();
            let d = distance(key1, key2);
            stats.sfb = stats.sfb + 1;
            stats.fspeed = add_cost(stats.fspeed, 5, weight, d);
            insert_bigram = report == Some(Category::Sfb);
            bad = 1;
        },
        Pair::Lateral => {
            stats.lsb = stats.lsb + 1;
            insert_bigram = report == Some(Category::Lsb);
            bad = 1;
        },
        Pair::HalfScissor => {
            stats.hsb = stats.hsb + 1;
            insert_bigram = report == Some(Category::Hsb);
            bad = 1;
        },
        Pair::FullScissor => {
            stats.fsb = stats.fsb + 1;
            insert_bigram = report == Some(Category::Fsb);
            bad = 1;
        },
        Pair::Plain => {},
    }
    if !get_bad_bigrams {
        bad = 0;
    }
    (insert_bigram, bad)
}

/// Files one adjacent pair of keys for the report that `command` names.
pub fn bigram_stats(
    key1: &Key,
    key2: &Key,
    command: &str,
    stats: &mut Stats,
    finger_weights: &AHashMap<Finger, i64>,
    get_bad_bigrams: bool,
) -> (out: (bool, u32))
    requires
        weighs(weight_entries(*finger_weights), *key1, *key2),
        bigram_effect(old(stats)@, *key1, *key2, weight_entries(*finger_weights)).fits(),
    ensures
        final(stats)@ == bigram_effect(old(stats)@, *key1, *key2, weight_entries(*finger_weights)),
        out.0 == shows_bigram(category_of(command@), pair_kind(*key1, *key2)),
        out.1 == (if get_bad_bigrams && is_bad(pair_kind(*key1, *key2)) {
            1u32
        } else {
            0u32
        }),
{
    let report = parse_category(command);
    count_bigram(key1, key2, report, stats, finger_weights, get_bad_bigrams)
}

/// What the pair of the current key and the key two back adds by itself: one
/// count in the skipgram counter of the pair's category, and the travel cost
/// of a same-finger pair at the finger's plain weight. A repeat adds nothing.
pub open spec fn skip_primary(tally: Tally, key1: Key, key2: Key, weights: Map<Finger, i64>) -> Tally {
    match pair_kind(key1, key2) {
        Pair::SameFinger => Tally {
            sfs: tally.sfs + 1,
            fspeed: tally.fspeed + 1 * weights[key1.finger] * travel(key1, key2),
            ..tally
        },
        Pair::Lateral => Tally { lss: tally.lss + 1, ..tally },
        Pair::HalfScissor => Tally { hss: tally.hss + 1, ..tally },
        Pair::FullScissor => Tally { fss: tally.fss + 1, ..tally },
        Pair::Repeat => tally,
        Pair::Plain => tally,
    }
}

/// Whether the key three back shares a finger with the current key without
/// being the same key.
pub open spec fn far_same_finger(far: Key, key2: Key) -> bool {
    far.finger == key2.finger && far != key2
}

/// What the key three back adds where it lies on the hand of the current key:
/// one same-finger skipgram where it shares the finger of the current key and
/// is another key, so that a key pressed again is not counted as travel.
pub open spec fn skip_far(tally: Tally, key2: Key, far: Key) -> Tally {
    if far_same_finger(far, key2) {
        Tally { sfs: tally.sfs + 1, ..tally }
    } else {
        tally
    }
}

/// Whether the key three back takes part: it exists and lies on the hand of
/// the current key.
pub open spec fn far_counts(key2: Key, far: Option<Key>) -> bool {
    far matches Some(k) && k.hand == key2.hand
}

/// What one skipgram adds to a tally. Every skipgram is counted, once. Where
/// both keys lie on one hand and neither is a thumb key, the pair is filed as
/// `skip_primary` says, and the key three back as `skip_far` says.
pub open spec fn skipgram_effect(
    tally: Tally,
    key1: Key,
    key2: Key,
    far: Option<Key>,
    weights: Map<Finger, i64>,
) -> Tally {
    let counted = Tally { skipgrams: tally.skipgrams + 1, ..tally };
    if !same_hand_fingers(key1, key2) {
        counted
    } else {
        let filed = skip_primary(counted, key1, key2, weights);
        if far_counts(key2, far) {
            skip_far(filed, key2, far->0)
        } else {
            filed
        }
    }
}

/// Whether a report on `report` shows this skipgram.
pub open spec fn shows_skipgram(report: Option<Category>, key1: Key, key2: Key, far: Option<Key>) -> bool {
    let kind = pair_kind(key1, key2);
    let with_far = far_counts(key2, far);
    same_hand_fingers(key1, key2) && match report {
        Some(Category::Sfs) => kind == Pair::SameFinger || (with_far && far_same_finger(
            far->0,
            key2,
        )),
        Some(Category::Lss) => kind == Pair::Lateral,
        Some(Category::Hss) => kind == Pair::HalfScissor,
        Some(Category::Fss) => kind == Pair::FullScissor,
        _ => false,
    }
}

/// Files one skipgram: the current key `key2`, the key two back `key1` and,
/// where the text reaches that far, the key three back.
pub fn count_skipgram(
    key1: &Key,
    key2: &Key,
    epic_key1: Option<&Key>,
    report: Option<Category>,
    stats: &mut Stats,
    finger_weights: &AHashMap<Finger, i64>,
) -> (insert_ngram: bool)
    requires
        weighs(weight_entries(*finger_weights), *key1, *key2),
        skipgram_effect(
            old(stats)@,
            *key1,
            *key2,
            far_of(epic_key1),
            weight_entries(*finger_weights),
        ).fits(),
    ensures
        final(stats)@ == skipgram_effect(
            old(stats)@,
            *key1,
            *key2,
            far_of(epic_key1),
            weight_entries(*finger_weights),
        ),
        insert_ngram == shows_skipgram(report, *key1, *key2, far_of(epic_key1)),
{
    let mut insert_ngram = false;
    stats.skipgrams = stats.skipgrams + 1;
    if key1.hand == key2.hand && key1.finger != Finger::Thumb && key2.finger != Finger::Thumb {
        match classify(key1, key2) {
            Pair::SameFinger => {
                let weight = weights_get(finger_weights, key1.finger).unwrap();
                let d = distance(key1, key2);
                stats.fspeed = add_cost(stats.fspeed, 1, weight, d);
                stats.sfs = stats.sfs + 1;
                if report == Some(Category::Sfs) {
                    insert_ngram = true;
                }
            },
            Pair::Lateral => {
                stats.lss = stats.lss + 1;
                if report == Some(Category::Lss) {
                    insert_ngram = true;
                }
            },
            Pair::HalfScissor => {
                stats.hss = stats.hss + 1;
                if report == Some(Category::Hss) {
                    insert_ngram = true;
                }
            },
            Pair::FullScissor => {
                stats.fss = stats.fss + 1;
                if report == Some(Category::Fss) {
                    insert_ngram = true;
                }
            },
            Pair::Repeat => {},
            Pair::Plain => {},
        }
        match epic_key1 {
            Some(far) => {
                if far.hand == key2.hand && far.finger == key2.finger && *far != *key2 {
                    stats.sfs = stats.sfs + 1;
                    if report == Some(Category::Sfs) {
                        insert_ngram = true;
                    }
                }
            },
            None => {},
        }
    }
    insert_ngram
}

/// The key behind an optional reference.
pub open spec fn far_of(epic_key1: Option<&Key>) -> Option<Key> {
    match epic_key1 {
        Some(key) => Some(*key),
        None => None,
    }
}

/// Files one skipgram for the report that `command` names.
pub fn skipgram_stats(
    key1: &Key,
    key2: &Key,
    epic_key1: Option<&Key>,
    command: &str,
    stats: &mut Stats,
    finger_weights: &AHashMap<Finger, i64>,
) -> (insert_ngram: bool)
    requires
        weighs(weight_entries(*finger_weights), *key1, *key2),
        skipgram_effect(
            old(stats)@,
            *key1,
            *key2,
            far_of(epic_key1),
            weight_entries(*finger_weights),
        ).fits(),
    ensures
        final(stats)@ == skipgram_effect(
            old(stats)@,
            *key1,
            *key2,
            far_of(epic_key1),
            weight_entries(*finger_weights),
        ),
        insert_ngram == shows_skipgram(category_of(command@), *key1, *key2, far_of(epic_key1)),
{
    let report = parse_category(command);
    count_skipgram(key1, key2, epic_key1, report, stats, finger_weights)
}

} // verus!
