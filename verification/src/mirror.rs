//! The board is the same for both hands: an arrangement and its mirror image
//! read every corpus alike.
use vstd::prelude::*;
use crate::stats::analysis;
use crate::stats::analyzed;
use crate::stats::bigram_stats::pair_kind;
use crate::stats::bigram_stats::skipgram_effect;
use crate::stats::bigram_stats::shows_skipgram;
use crate::stats::bigram_stats::travel;
use crate::stats::distinct;
use crate::stats::knows;
use crate::stats::lemma_table_holds;
use crate::stats::lemma_table_slot;
use crate::stats::on_board;
use crate::stats::pass_of;
use crate::stats::placed;
use crate::stats::slot;
use crate::stats::table_of;
use crate::stats::trigram_stats::trigram_kind;
use crate::stats::Pass;
use crate::stats::HEAT;
use crate::AnalysisError;
use crate::Category;
use crate::Config;
use crate::Key;
use crate::Tally;

verus! {

/// The slot that lies where a slot lies on the other hand: in the same row,
/// the column counted from the other side; and the other thumb key.
pub open spec fn mirror_slot(index: int) -> int {
    if index == 30 {
        31
    } else if index == 31 {
        30
    } else {
        (index / 10) * 10 + 9 - index % 10
    }
}

/// The arrangement with the hands exchanged: every character on the slot
/// that mirrors its own.
pub open spec fn mirrored(layout: Seq<char>) -> Seq<char> {
    Seq::new(32, |i: int| layout[mirror_slot(i)])
}

/// The key that mirrors a key of the board.
pub open spec fn mirror_key(key: Key) -> Key {
    slot(mirror_slot(key.index as int))
}

/// The mirror of a slot is a slot, and the mirror of the mirror is the slot
/// itself.
pub proof fn lemma_mirror_slot(index: int)
    requires
        0 <= index < 32,
    ensures
        0 <= mirror_slot(index) < 32,
        mirror_slot(mirror_slot(index)) == index,
{
}

/// The mirror of a key of the board is the key of the same finger, row and
/// column kind on the other hand, as unwelcome as the key itself; and the
/// mirror of the mirror is the key itself.
pub proof fn lemma_mirror_key(key: Key)
    requires
        on_board(key),
    ensures
        on_board(mirror_key(key)),
        mirror_key(key).hand != key.hand,
        mirror_key(key).finger == key.finger,
        mirror_key(key).row == key.row,
        mirror_key(key).lateral == key.lateral,
        mirror_key(mirror_key(key)) == key,
        HEAT@[mirror_key(key).index as int] == HEAT@[key.index as int],
{
    let i = key.index as int;
    lemma_mirror_slot(i);
    assert(HEAT@[mirror_slot(i)] == HEAT@[i]) by {
        lemma_heat_is_mirrored(i);
    }
}

/// A slot and its mirror are alike unwelcome.
proof fn lemma_heat_is_mirrored(index: int)
    requires
        0 <= index < 32,
    ensures
        HEAT@[mirror_slot(index)] == HEAT@[index],
{
    let h = HEAT@;
    assert(h[0] == h[9] && h[1] == h[8] && h[2] == h[7] && h[3] == h[6] && h[4] == h[5]);
    assert(h[10] == h[19] && h[11] == h[18] && h[12] == h[17] && h[13] == h[16] && h[14] == h[15]);
    assert(h[20] == h[29] && h[21] == h[28] && h[22] == h[27] && h[23] == h[26] && h[24] == h[25]);
    assert(h[30] == h[31]);
}

/// The mirror of an arrangement without repeats has no repeats, holds the
/// same characters, and has each of them on the mirror of its key.
pub proof fn lemma_mirror_table(layout: Seq<char>)
    requires
        layout.len() == 32,
        distinct(layout),
    ensures
        mirrored(layout).len() == 32,
        distinct(mirrored(layout)),
        table_of(mirrored(layout)).dom() == table_of(layout).dom(),
        forall|c: char| #[trigger]
            table_of(layout).dom().contains(c) ==> on_board(table_of(layout)[c]) && table_of(
                mirrored(layout),
            )[c] == mirror_key(table_of(layout)[c]),
{
    let other = mirrored(layout);
    assert forall|i: int, j: int| 0 <= i < j < 32 implies other[i] != other[j] by {
        lemma_mirror_slot(i);
        lemma_mirror_slot(j);
        let a = mirror_slot(i);
        let b = mirror_slot(j);
        if a < b {
            assert(layout[a] != layout[b]);
        } else {
            assert(layout[b] != layout[a]);
        }
    }
    lemma_table_holds(layout, 32);
    lemma_table_holds(other, 32);
    assert forall|c: char| #[trigger] table_of(layout).dom().contains(c) implies table_of(
        other,
    ).dom().contains(c) && on_board(table_of(layout)[c]) && table_of(other)[c] == mirror_key(
        table_of(layout)[c],
    ) by {
        assert(placed(layout, 32, c));
        let i = choose|i: int| 0 <= i < 32 && #[trigger] layout[i] == c;
        lemma_mirror_slot(i);
        let m = mirror_slot(i);
        assert(other[m] == layout[i]);
        lemma_table_slot(layout, 32, i);
        lemma_table_slot(other, 32, m);
        assert(placed(other, 32, c));
    }
    assert forall|c: char| #[trigger] table_of(other).dom().contains(c) implies table_of(
        layout,
    ).dom().contains(c) by {
        assert(placed(other, 32, c));
        let m = choose|m: int| 0 <= m < 32 && #[trigger] other[m] == c;
        lemma_mirror_slot(m);
        assert(layout[mirror_slot(m)] == c);
        assert(placed(layout, 32, c));
    }
    assert(table_of(other).dom() =~= table_of(layout).dom());
}

/// Whether a second pass reads what a first pass reads, on the mirror of
/// each of its keys.
pub open spec fn mirrors(p: Pass, q: Pass) -> bool {
    &&& q.text == p.text
    &&& q.report == p.report
    &&& q.config == p.config
    &&& q.weights == p.weights
    &&& q.table.dom() == p.table.dom()
    &&& forall|c: char| #[trigger]
        p.table.dom().contains(c) ==> on_board(p.table[c]) && q.table[c] == mirror_key(p.table[c])
}

/// Two keys and their mirrors make the same kind of pair, and the same
/// travel.
proof fn lemma_mirror_pair(key1: Key, key2: Key)
    requires
        on_board(key1),
        on_board(key2),
    ensures
        pair_kind(mirror_key(key1), mirror_key(key2)) == pair_kind(key1, key2),
        travel(mirror_key(key1), mirror_key(key2)) == travel(key1, key2),
        (mirror_key(key1) == mirror_key(key2)) == (key1 == key2),
        (mirror_key(key1).hand == mirror_key(key2).hand) == (key1.hand == key2.hand),
{
    lemma_mirror_key(key1);
    lemma_mirror_key(key2);
}

/// A pass over the mirror adds with every character what the pass itself
/// adds.
proof fn lemma_mirror_step(p: Pass, q: Pass, tally: Tally, at: int)
    requires
        mirrors(p, q),
        0 <= at < p.text.len(),
        knows(p.table, p.text, at + 1),
    ensures
        q.step(tally, at) == p.step(tally, at),
{
    let key = p.key(at);
    assert(p.table.dom().contains(p.text[at]));
    lemma_mirror_key(key);
    if at >= 1 {
        assert(p.table.dom().contains(p.text[at - 1]));
        lemma_mirror_pair(p.key(at - 1), key);
    }
    if at >= 2 {
        assert(p.table.dom().contains(p.text[at - 2]));
        lemma_mirror_pair(p.key(at - 2), key);
        lemma_mirror_pair(p.key(at - 2), p.key(at - 1));
        lemma_mirror_key(p.key(at - 2));
        lemma_mirror_key(p.key(at - 1));
        assert(trigram_kind(q.key(at - 2), q.key(at - 1), q.key(at), q.config) == trigram_kind(
            p.key(at - 2),
            p.key(at - 1),
            p.key(at),
            p.config,
        ));
        if at >= 3 {
            assert(p.table.dom().contains(p.text[at - 3]));
            lemma_mirror_pair(p.key(at - 3), key);
            lemma_mirror_key(p.key(at - 3));
        }
        assert forall|t: Tally| #[trigger]
            skipgram_effect(t, q.key(at - 2), q.key(at), q.far(at), q.weights) == skipgram_effect(
                t,
                p.key(at - 2),
                p.key(at),
                p.far(at),
                p.weights,
            ) by {}
        assert(shows_skipgram(q.report, q.key(at - 2), q.key(at), q.far(at)) == shows_skipgram(
            p.report,
            p.key(at - 2),
            p.key(at),
            p.far(at),
        ));
    }
}

/// A pass over the mirror counts what the pass itself counts.
pub proof fn lemma_mirror_pass(p: Pass, q: Pass, upto: nat)
    requires
        mirrors(p, q),
        upto <= p.text.len(),
        knows(p.table, p.text, upto as int),
    ensures
        q.upto(upto) == p.upto(upto),
    decreases upto,
{
    if upto > 0 {
        lemma_mirror_pass(p, q, (upto - 1) as nat);
        lemma_mirror_step(p, q, p.upto((upto - 1) as nat), upto - 1);
    }
}

/// Exchanging the hands changes nothing: whatever an analysis returns on an
/// arrangement, counters, tables, score or refusal, it returns on the
/// mirrored arrangement.
pub proof fn lemma_mirrored_hands_read_the_same(
    corpus: Seq<char>,
    layout: Seq<char>,
    report: Option<Category>,
    rules: Map<char, char>,
    config: Config,
    result: Result<Tally, AnalysisError>,
)
    requires
        layout.len() == 32,
        analyzed(corpus, layout, report, rules, config, result),
    ensures
        analyzed(corpus, mirrored(layout), report, rules, config, result),
{
    let other = mirrored(layout);
    let p = pass_of(corpus, layout, report, rules, config);
    let q = pass_of(corpus, other, report, rules, config);
    if distinct(layout) {
        lemma_mirror_table(layout);
        assert(mirrors(p, q));
        match result {
            Ok(tally) => {
                lemma_mirror_pass(p, q, p.text.len());
                assert(analysis(corpus, other, report, rules, config) == analysis(
                    corpus,
                    layout,
                    report,
                    rules,
                    config,
                ));
            },
            Err(e) => {
                let at = choose|at: int| #[trigger] p.stranger_at(at) && e->Lookup_0 == p.text[at];
                assert(q.stranger_at(at));
            },
        }
    } else {
        let (i, j) = choose|i: int, j: int|
            0 <= i < j < 32 && #[trigger] layout[i] == #[trigger] layout[j];
        lemma_mirror_slot(i);
        lemma_mirror_slot(j);
        let a = mirror_slot(i);
        let b = mirror_slot(j);
        assert(other[a] == layout[i] && other[b] == layout[j]);
        if a < b {
            assert(other[a] == other[b]);
        } else {
            assert(other[b] == other[a]);
        }
    }
}

} // verus!
