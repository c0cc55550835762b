//! Rule mining and the moves of the search.
use vstd::prelude::*;
use ahash::AHashMap;
use crate::chance::random_between;
use crate::chance::shuffled;
use crate::stats::analysis;
use crate::stats::analyze_text;
use crate::stats::analyzed;
use crate::stats::pass_of;
use crate::stats::placed;
use crate::stats::bigram_stats::is_bad;
use crate::stats::bigram_stats::pair_kind;
use crate::stats::bounded;
use crate::stats::bump;
use crate::stats::distinct;
use crate::stats::finger_weights;
use crate::stats::is_distinct;
use crate::stats::knows;
use crate::stats::layout_raw_to_table;
use crate::stats::lemma_table_holds;
use crate::stats::on_board;
use crate::stats::read_bigram;
use crate::stats::slot_key;
use crate::stats::standard_weights;
use crate::stats::stranger;
use crate::stats::table_of;
use crate::tables::bigram_entries;
use crate::tables::bigrams_get;
use crate::tables::bigrams_insert;
use crate::tables::bigrams_list;
use crate::tables::rule_entries;
use crate::tables::rules_get;
use crate::tables::rules_insert;
use crate::tables::rules_new;
use crate::tables::table_entries;
use crate::tables::table_get;
use crate::tables::weight_entries;
use crate::text::chars_of;
use crate::text::lemma_no_rules_no_change;
use crate::text::lemma_substituted_chars;
use crate::text::substituted;
use crate::Config;
use crate::Layout;
use crate::MAGIC;
use crate::Algorithm;
use crate::AnalysisError;
use crate::Finger;
use crate::Key;
use crate::Stats;
use crate::MAX_CORPUS;

verus! {

/// How often each bad bigram occurs among the first `upto` characters of a
/// text: for every ordered pair of characters, the number of places where the
/// two stand side by side and their keys make a same-finger bigram, a lateral
/// stretch or a scissor. Pairs that never do are not in the table.
pub open spec fn bad_counts(text: Seq<char>, table: Map<char, Key>, upto: nat) -> Map<
    (char, char),
    u32,
>
    decreases upto,
{
    if upto == 0 {
        Map::empty()
    } else {
        let prior = bad_counts(text, table, (upto - 1) as nat);
        let at = upto - 1;
        if at >= 1 && is_bad(pair_kind(table[text[at - 1]], table[text[at]])) {
            bump(prior, (text[at - 1], text[at]))
        } else {
            prior
        }
    }
}

/// The order that breaks ties between two pairs of characters: by the first
/// character, then by the second.
pub open spec fn pair_before(a: (char, char), b: (char, char)) -> bool {
    (a.0 as u32) < (b.0 as u32) || (a.0 == b.0 && (a.1 as u32) < (b.1 as u32))
}

/// Whether pair `a` comes before pair `b` when the pairs are sorted by falling
/// count, ties broken by `pair_before`.
pub open spec fn outranks(counts: Map<(char, char), u32>, a: (char, char), b: (char, char)) -> bool {
    counts[a] > counts[b] || (counts[a] == counts[b] && pair_before(a, b))
}

/// Whether a counted pair can still become a rule: no rule has its first
/// character yet.
pub open spec fn eligible(
    counts: Map<(char, char), u32>,
    rules: Map<char, char>,
    pair: (char, char),
) -> bool {
    counts.dom().contains(pair) && !rules.dom().contains(pair.0)
}

/// Whether a pair is the first of the sorted pairs that can still become a
/// rule.
pub open spec fn is_top(
    counts: Map<(char, char), u32>,
    rules: Map<char, char>,
    pair: (char, char),
) -> bool {
    eligible(counts, rules, pair) && forall|other: (char, char)| #[trigger]
        eligible(counts, rules, other) && other != pair ==> outranks(counts, pair, other)
}

/// The rules after up to `budget` more of them have been added to `rules`:
/// each time the first of the sorted pairs that can still become a rule does,
/// until the budget is spent or no pair is left.
pub open spec fn select(
    counts: Map<(char, char), u32>,
    rules: Map<char, char>,
    budget: nat,
) -> Map<char, char>
    decreases budget,
{
    if budget == 0 || !(exists|pair: (char, char)| is_top(counts, rules, pair)) {
        rules
    } else {
        let pair = choose|pair: (char, char)| is_top(counts, rules, pair);
        select(counts, rules.insert(pair.0, pair.1), (budget - 1) as nat)
    }
}

/// The magic rules of a corpus on a layout: the bad bigrams of the corpus are
/// counted, and up to `rule_count` of them become rules, the most frequent
/// first, each first character in one rule at most.
pub open spec fn magic_rules(corpus: Seq<char>, layout: Seq<char>, rule_count: nat) -> Map<
    char,
    char,
> {
    select(bad_counts(corpus, table_of(layout), corpus.len()), Map::empty(), rule_count)
}

/// Whether `result` is what rule mining returns. An arrangement that holds a
/// character twice is refused. Otherwise the first character of the corpus
/// that the arrangement lacks is reported, and where there is none the rules
/// are returned.
pub open spec fn mined(
    corpus: Seq<char>,
    layout: Seq<char>,
    rule_count: nat,
    result: Result<Map<char, char>, AnalysisError>,
) -> bool {
    let table = table_of(layout);
    match result {
        Ok(rules) => distinct(layout) && knows(table, corpus, corpus.len() as int) && rules
            == magic_rules(corpus, layout, rule_count),
        Err(AnalysisError::Configuration) => !distinct(layout),
        Err(AnalysisError::Lookup(c)) => distinct(layout) && exists|at: int|
            #[trigger] stranger(table, corpus, at) && c == corpus[at],
    }
}

/// What a mining result says, with the rules as a map.
pub open spec fn ruled(result: Result<AHashMap<char, char>, AnalysisError>) -> Result<
    Map<char, char>,
    AnalysisError,
> {
    match result {
        Ok(rules) => Ok(rule_entries(rules)),
        Err(e) => Err(e),
    }
}

/// Mining has one answer: whatever two runs on the same corpus, layout and
/// rule count return, they return the same.
pub proof fn lemma_mining_is_a_function(
    corpus: Seq<char>,
    layout: Seq<char>,
    rule_count: nat,
    first: Result<Map<char, char>, AnalysisError>,
    second: Result<Map<char, char>, AnalysisError>,
)
    requires
        mined(corpus, layout, rule_count, first),
        mined(corpus, layout, rule_count, second),
    ensures
        first == second,
{
    let table = table_of(layout);
    if distinct(layout) {
        if first is Err {
            let a = choose|at: int| #[trigger]
                stranger(table, corpus, at) && first->Err_0->Lookup_0 == corpus[at];
            assert(!table.dom().contains(corpus[a]));
            if second is Err {
                let b = choose|at: int| #[trigger]
                    stranger(table, corpus, at) && second->Err_0->Lookup_0 == corpus[at];
                if a < b {
                    assert(table.dom().contains(corpus[a]));
                }
                if b < a {
                    assert(table.dom().contains(corpus[b]));
                }
            } else {
                assert(table.dom().contains(corpus[a]));
            }
        } else if second is Err {
            let b = choose|at: int| #[trigger]
                stranger(table, corpus, at) && second->Err_0->Lookup_0 == corpus[at];
            assert(table.dom().contains(corpus[b]));
        }
    }
}

/// Counts `amount` more occurrences of a pair.
fn add_bad(bigrams: &mut AHashMap<[char; 2], u32>, pair: (char, char), amount: u32)
    requires
        amount == 1,
        bigram_entries(*old(bigrams)).dom().contains(pair) ==> bigram_entries(*old(bigrams))[pair]
            < u32::MAX,
    ensures
        bigram_entries(*final(bigrams)) == bump(bigram_entries(*old(bigrams)), pair),
{
    let count: u32 = match bigrams_get(bigrams, pair) {
        Some(seen) => seen + amount,
        None => amount,
    };
    bigrams_insert(bigrams, pair, count);
}

/// Streams a text through a layout table and counts its bad bigrams.
fn count_bad(text: &Vec<char>, table: &AHashMap<char, Key>, weights: &AHashMap<Finger, i64>) -> (result:
    Result<Stats, AnalysisError>)
    requires
        text@.len() <= MAX_CORPUS,
        forall|c: char| #[trigger]
            table_entries(*table).dom().contains(c) ==> on_board(table_entries(*table)[c]),
        weight_entries(*weights) == standard_weights(),
    ensures
        match result {
            Ok(stats) => knows(table_entries(*table), text@, text@.len() as int)
                && stats@.bad_bigrams == bad_counts(text@, table_entries(*table), text@.len()),
            Err(AnalysisError::Lookup(c)) => exists|at: int|
                #[trigger] stranger(table_entries(*table), text@, at) && c == text@[at],
            Err(AnalysisError::Configuration) => false,
        },
{
    let n = text.len();
    let mut stats = Stats::default();
    let mut previous = slot_key(0);
    let mut before = ' ';
    let mut i: usize = 0;
    while i < n
        invariant
            i <= n,
            n == text@.len(),
            n <= MAX_CORPUS,
            forall|c: char| #[trigger]
                table_entries(*table).dom().contains(c) ==> on_board(table_entries(*table)[c]),
            weight_entries(*weights) == standard_weights(),
            knows(table_entries(*table), text@, i as int),
            bounded(stats@, None, i as int),
            stats@.bad_bigrams == bad_counts(text@, table_entries(*table), i as nat),
            forall|pair: (char, char)| #[trigger]
                stats@.bad_bigrams.dom().contains(pair) ==> stats@.bad_bigrams[pair] <= i,
            i >= 1 ==> previous == table_entries(*table)[text@[i - 1]] && before == text@[i - 1],
            on_board(previous),
        decreases n - i,
    {
        let letter = text[i];
        let key = match table_get(table, letter) {
            Some(key) => key,
            None => {
                assert(stranger(table_entries(*table), text@, i as int));
                return Err(AnalysisError::Lookup(letter));
            },
        };
        if i >= 1 {
            let bad = read_bigram(
                &mut stats,
                &previous,
                &key,
                (before, letter, ' '),
                None,
                weights,
                true,
                Ghost(i as int),
            );
            if bad > 0 {
                add_bad(&mut stats.bad_bigrams, (before, letter), bad);
            }
        }
        previous = key;
        before = letter;
        i += 1;
    }
    Ok(stats)
}

/// Whether a list holds each counted pair once, with its count, and nothing
/// else.
pub open spec fn lists(list: Seq<((char, char), u32)>, counts: Map<(char, char), u32>) -> bool {
    &&& forall|i: int| 0 <= i < list.len() ==> counts.contains_pair(#[trigger] list[i].0, list[i].1)
    &&& forall|i: int, j: int|
        0 <= i < j < list.len() ==> (#[trigger] list[i]).0 != (#[trigger] list[j]).0
    &&& forall|pair: (char, char)| #[trigger]
        counts.dom().contains(pair) ==> exists|i: int|
            0 <= i < list.len() && (#[trigger] list[i]).0 == pair
}

/// Of two different pairs one comes before the other.
proof fn lemma_pairs_are_ordered(a: (char, char), b: (char, char))
    requires
        a != b,
    ensures
        pair_before(a, b) || pair_before(b, a),
{
    vstd::utf8::char_u32_cast(a.0, a.0 as u32);
    vstd::utf8::char_u32_cast(b.0, b.0 as u32);
    vstd::utf8::char_u32_cast(a.1, a.1 as u32);
    vstd::utf8::char_u32_cast(b.1, b.1 as u32);
}

/// Whether pair `a` comes before pair `b` in the order that breaks ties.
fn comes_before(a: (char, char), b: (char, char)) -> (yes: bool)
    ensures
        yes == pair_before(a, b),
{
    (a.0 as u32) < (b.0 as u32) || (a.0 == b.0 && (a.1 as u32) < (b.1 as u32))
}

/// Finds the first of the sorted pairs that can still become a rule.
fn pick_top(
    list: &Vec<((char, char), u32)>,
    rules: &AHashMap<char, char>,
    Ghost(counts): Ghost<Map<(char, char), u32>>,
) -> (top: Option<usize>)
    requires
        lists(list@, counts),
    ensures
        match top {
            Some(at) => at < list@.len() && is_top(counts, rule_entries(*rules), list@[at as int].0),
            None => forall|pair: (char, char)| !eligible(counts, rule_entries(*rules), pair),
        },
{
    let ghost held = rule_entries(*rules);
    let mut top: Option<usize> = None;
    let mut i: usize = 0;
    while i < list.len()
        invariant
            i <= list@.len(),
            lists(list@, counts),
            held == rule_entries(*rules),
            match top {
                Some(at) => at < i && eligible(counts, held, list@[at as int].0) && forall|j: int|
                    0 <= j < i && j != at && eligible(counts, held, (#[trigger] list@[j]).0)
                        ==> outranks(counts, list@[at as int].0, list@[j].0),
                None => forall|j: int| 0 <= j < i ==> !eligible(counts, held, (#[trigger] list@[j]).0),
            },
        decreases list@.len() - i,
    {
        let entry = list[i];
        assert(counts.contains_pair(list@[i as int].0, list@[i as int].1));
        if rules_get(rules, entry.0.0).is_none() {
            match top {
                Some(at) => {
                    let best = list[at];
                    assert(counts.contains_pair(list@[at as int].0, list@[at as int].1));
                    assert(best.0 != entry.0);
                    if entry.1 > best.1 || (entry.1 == best.1 && comes_before(entry.0, best.0)) {
                        assert(outranks(counts, entry.0, best.0));
                        assert forall|j: int|
                            0 <= j < i + 1 && j != i && eligible(
                                counts,
                                held,
                                (#[trigger] list@[j]).0,
                            ) implies outranks(counts, entry.0, list@[j].0) by {
                            if j != at {
                                assert(outranks(counts, best.0, list@[j].0));
                            }
                        }
                        top = Some(i);
                    } else {
                        proof {
                            lemma_pairs_are_ordered(best.0, entry.0);
                        }
                        assert(outranks(counts, best.0, entry.0));
                    }
                },
                None => {
                    top = Some(i);
                },
            }
        }
        i += 1;
    }
    proof {
        match top {
            Some(at) => {
                let pair = list@[at as int].0;
                assert forall|other: (char, char)| #[trigger]
                    eligible(counts, held, other) && other != pair implies outranks(
                    counts,
                    pair,
                    other,
                ) by {
                    let j = choose|j: int| 0 <= j < list@.len() && (#[trigger] list@[j]).0 == other;
                    assert(eligible(counts, held, list@[j].0));
                }
            },
            None => {
                assert forall|pair: (char, char)| !eligible(counts, held, pair) by {
                    if eligible(counts, held, pair) {
                        let j = choose|j: int|
                            0 <= j < list@.len() && (#[trigger] list@[j]).0 == pair;
                        assert(!eligible(counts, held, list@[j].0));
                    }
                }
            },
        }
    }
    top
}

/// No two pairs are the first of the sorted pairs at once.
proof fn lemma_top_is_one(
    counts: Map<(char, char), u32>,
    rules: Map<char, char>,
    a: (char, char),
    b: (char, char),
)
    requires
        is_top(counts, rules, a),
        is_top(counts, rules, b),
    ensures
        a == b,
{
    if a != b {
        assert(eligible(counts, rules, b));
        assert(outranks(counts, a, b));
        assert(eligible(counts, rules, a));
        assert(outranks(counts, b, a));
    }
}

/// Selects up to `rule_count` rules from a list of counted pairs.
fn select_rules(
    list: &Vec<((char, char), u32)>,
    rule_count: usize,
    Ghost(counts): Ghost<Map<(char, char), u32>>,
) -> (rules: AHashMap<char, char>)
    requires
        lists(list@, counts),
    ensures
        rule_entries(rules) == select(counts, Map::empty(), rule_count as nat),
{
    let mut rules = rules_new();
    let mut left = rule_count;
    while left > 0
        invariant
            lists(list@, counts),
            select(counts, Map::empty(), rule_count as nat) == select(
                counts,
                rule_entries(rules),
                left as nat,
            ),
        decreases left,
    {
        let ghost held = rule_entries(rules);
        match pick_top(list, &rules, Ghost(counts)) {
            Some(at) => {
                let pair = list[at].0;
                proof {
                    let chosen = choose|pair: (char, char)| is_top(counts, held, pair);
                    lemma_top_is_one(counts, held, pair, chosen);
                }
                rules_insert(&mut rules, pair.0, pair.1);
                left = left - 1;
            },
            None => {
                proof {
                    assert forall|pair: (char, char)| !is_top(counts, held, pair) by {
                        assert(!eligible(counts, held, pair));
                    }
                }
                return rules;
            },
        }
    }
    rules
}

/// Mines the rules of a corpus that is held as characters.
pub fn mine_text(corpus: &Vec<char>, layout_letters: &[char; 32], magic_rules: usize) -> (result:
    Result<AHashMap<char, char>, AnalysisError>)
    requires
        corpus@.len() <= MAX_CORPUS,
    ensures
        mined(corpus@, layout_letters@, magic_rules as nat, ruled(result)),
{
    if !is_distinct(layout_letters) {
        return Err(AnalysisError::Configuration);
    }
    let table = layout_raw_to_table(layout_letters);
    let weights = finger_weights();
    proof {
        lemma_table_holds(layout_letters@, 32);
    }
    match count_bad(corpus, &table, &weights) {
        Ok(stats) => {
            let ghost counts = stats@.bad_bigrams;
            let list = bigrams_list(stats.bad_bigrams);
            Ok(select_rules(&list, magic_rules, Ghost(counts)))
        },
        Err(e) => Err(e),
    }
}

/// Mines the magic rules of a corpus on a layout: counts the bad bigrams of
/// the corpus as it stands, sorts them by falling count, ties by the pair of
/// characters, and walks the sorted pairs, making a rule of each pair whose
/// first character has no rule yet, until `magic_rules` rules are made or the
/// pairs run out.
pub fn get_magic_rules(corpus: &str, layout_letters: [char; 32], magic_rules: usize) -> (result:
    Result<AHashMap<char, char>, AnalysisError>)
    requires
        corpus@.len() <= MAX_CORPUS,
    ensures
        mined(corpus@, layout_letters@, magic_rules as nat, ruled(result)),
{
    let text = chars_of(corpus);
    mine_text(&text, &layout_letters, magic_rules)
}

/// Whether a corpus can be searched on an arrangement with up to `rule_count`
/// rules: the arrangement holds no character twice, it holds every character
/// of the corpus, and where rules are mined it holds the magic key that they
/// put into the corpus.
pub open spec fn fit(layout: Seq<char>, corpus: Seq<char>, rule_count: nat) -> bool {
    &&& layout.len() == 32
    &&& distinct(layout)
    &&& rule_count > 0 ==> placed(layout, 32, MAGIC)
    &&& forall|i: int| 0 <= i < corpus.len() ==> placed(layout, 32, #[trigger] corpus[i])
}

/// Whether a corpus can be searched on an arrangement with up to `rule_count`
/// rules.
pub fn suits(layout: &[char; 32], corpus: &Vec<char>, rule_count: usize) -> (yes: bool)
    ensures
        yes == fit(layout@, corpus@, rule_count as nat),
{
    if !is_distinct(layout) {
        return false;
    }
    let table = layout_raw_to_table(layout);
    proof {
        lemma_table_holds(layout@, 32);
    }
    if rule_count > 0 && table_get(&table, MAGIC).is_none() {
        return false;
    }
    let mut i: usize = 0;
    while i < corpus.len()
        invariant
            i <= corpus@.len(),
            layout@.len() == 32,
            table_entries(table) == table_of(layout@),
            forall|c: char| #[trigger]
                table_of(layout@).dom().contains(c) <==> placed(layout@, 32, c),
            forall|j: int| 0 <= j < i ==> placed(layout@, 32, #[trigger] corpus@[j]),
        decreases corpus@.len() - i,
    {
        if table_get(&table, corpus[i]).is_none() {
            assert(!placed(layout@, 32, corpus@[i as int]));
            return false;
        }
        i += 1;
    }
    true
}

/// On a fitting arrangement the table knows the corpus, before and after
/// rules are applied; with a rule count of zero there are no rules.
pub proof fn lemma_fit_reads(
    layout: Seq<char>,
    corpus: Seq<char>,
    rule_count: nat,
    rules: Map<char, char>,
)
    requires
        fit(layout, corpus, rule_count),
        rule_count == 0 ==> rules == Map::<char, char>::empty(),
    ensures
        knows(table_of(layout), corpus, corpus.len() as int),
        knows(
            table_of(layout),
            substituted(corpus, rules),
            substituted(corpus, rules).len() as int,
        ),
{
    lemma_table_holds(layout, 32);
    lemma_substituted_chars(corpus, rules);
    if rule_count == 0 {
        lemma_no_rules_no_change(corpus);
    }
    let table = table_of(layout);
    let text = substituted(corpus, rules);
    assert forall|i: int| 0 <= i < corpus.len() implies table.dom().contains(
        #[trigger] corpus[i],
    ) by {
        assert(placed(layout, 32, corpus[i]));
    }
    assert forall|i: int| 0 <= i < text.len() implies table.dom().contains(#[trigger] text[i]) by {
        assert(text[i] == corpus[i] || text[i] == MAGIC);
        assert(placed(layout, 32, corpus[i]));
    }
}

/// The score of a corpus on an arrangement, scored with the rules mined for
/// that arrangement.
pub open spec fn merit(corpus: Seq<char>, layout: Seq<char>, rule_count: nat, config: Config) -> int {
    analysis(corpus, layout, None, magic_rules(corpus, layout, rule_count), config).score
}

impl Layout {
    /// Whether a candidate is what its arrangement makes of the corpus: its
    /// rules are the rules mined for the arrangement, and its counters and
    /// score are those of the corpus under these rules.
    pub open spec fn settled(&self, corpus: Seq<char>, rule_count: nat, config: Config) -> bool {
        &&& rule_entries(self.magic) == magic_rules(corpus, self.layout@, rule_count)
        &&& self.stats@ == analysis(corpus, self.layout@, None, rule_entries(self.magic), config)
    }
}

/// Makes the candidate of an arrangement: mines its rules and analyzes the
/// corpus under them, both from scratch.
pub fn evaluate(layout: [char; 32], corpus: &Vec<char>, rule_count: usize, config: &Config) -> (out:
    Layout)
    requires
        fit(layout@, corpus@, rule_count as nat),
        corpus@.len() <= MAX_CORPUS,
    ensures
        out.layout@ == layout@,
        out.settled(corpus@, rule_count as nat, *config),
        out.stats.score == merit(corpus@, layout@, rule_count as nat, *config),
{
    proof {
        lemma_fit_reads(layout@, corpus@, 0, Map::empty());
    }
    let mined = mine_text(corpus, &layout, rule_count);
    assert(mined is Ok) by {
        if mined is Err {
            let e = mined->Err_0;
            if e is Lookup {
                let at = choose|at: int| #[trigger]
                    stranger(table_of(layout@), corpus@, at) && e->Lookup_0 == corpus@[at];
                assert(table_of(layout@).dom().contains(corpus@[at]));
            }
        }
    }
    let magic = mined.unwrap();
    proof {
        lemma_fit_reads(layout@, corpus@, rule_count as nat, rule_entries(magic));
    }
    let analyzed = analyze_text(corpus, &layout, None, &magic, config);
    assert(analyzed is Ok) by {
        if analyzed is Err {
            let e = analyzed->Err_0;
            let p = pass_of(corpus@, layout@, None, rule_entries(magic), *config);
            if e is Lookup {
                let at = choose|at: int| #[trigger] p.stranger_at(at) && e->Lookup_0 == p.text[at];
                assert(p.table.dom().contains(p.text[at]));
            }
        }
    }
    let stats = analyzed.unwrap();
    Layout { layout, stats, magic }
}

/// An arrangement with the characters of two slots exchanged.
pub open spec fn swapped(layout: Seq<char>, i: int, j: int) -> Seq<char> {
    layout.update(i, layout[j]).update(j, layout[i])
}

/// Exchanging two slots keeps an arrangement fitting.
pub proof fn lemma_swap_fits(layout: Seq<char>, corpus: Seq<char>, rule_count: nat, i: int, j: int)
    requires
        fit(layout, corpus, rule_count),
        0 <= i < 32,
        0 <= j < 32,
    ensures
        fit(swapped(layout, i, j), corpus, rule_count),
{
    let out = swapped(layout, i, j);
    assert forall|c: char| placed(layout, 32, c) implies placed(out, 32, c) by {
        let k = choose|k: int| 0 <= k < 32 && #[trigger] layout[k] == c;
        let to = if k == i {
            j
        } else if k == j {
            i
        } else {
            k
        };
        assert(out[to] == c);
    }
    assert forall|i: int| 0 <= i < corpus.len() implies placed(out, 32, #[trigger] corpus[i]) by {
        assert(placed(layout, 32, corpus[i]));
    }
}

/// Exchanging two slots keeps the characters of an arrangement.
pub proof fn lemma_swap_keeps_keys(layout: Seq<char>, i: int, j: int)
    requires
        0 <= i < layout.len(),
        0 <= j < layout.len(),
    ensures
        swapped(layout, i, j).to_multiset() == layout.to_multiset(),
{
    broadcast use vstd::multiset::group_multiset_axioms;

    if i == j {
        assert(swapped(layout, i, j) =~= layout);
    } else {
        let first = layout.update(i, layout[j]);
        vstd::seq_lib::to_multiset_update(layout, i, layout[j]);
        vstd::seq_lib::to_multiset_update(first, j, layout[i]);
        vstd::seq_lib::to_multiset_contains(layout, layout[i]);
        vstd::seq_lib::to_multiset_contains(layout, layout[j]);
        assert(layout.contains(layout[i]));
        assert(layout.contains(layout[j]));
        assert(first[j] == layout[j]);
        assert(swapped(layout, i, j).to_multiset() =~= layout.to_multiset());
    }
}

/// Exchanges the characters of two slots.
pub fn swap_slots(layout: [char; 32], i: usize, j: usize) -> (out: [char; 32])
    requires
        i < 32,
        j < 32,
    ensures
        out@ == swapped(layout@, i as int, j as int),
{
    let mut out = layout;
    let a = layout[i];
    let b = layout[j];
    out[i] = b;
    out[j] = a;
    out
}

/// An arrangement with two columns exchanged in all three rows of the
/// fingers.
pub open spec fn columns_swapped(layout: Seq<char>, col1: int, col2: int) -> Seq<char> {
    swapped(swapped(swapped(layout, col1, col2), col1 + 10, col2 + 10), col1 + 20, col2 + 20)
}

/// Exchanges two columns in all three rows of the fingers.
pub fn column_swap(layout: [char; 32], col1: usize, col2: usize) -> (out: [char; 32])
    requires
        col1 < 10,
        col2 < 10,
    ensures
        out@ == columns_swapped(layout@, col1 as int, col2 as int),
{
    let top = swap_slots(layout, col1, col2);
    let middle = swap_slots(top, col1 + 10, col2 + 10);
    swap_slots(middle, col1 + 20, col2 + 20)
}

/// A move of the search: the exchange of two slots, or of two columns.
#[derive(Clone, Copy, Debug, PartialEq, Eq, Structural)]
pub enum Move {
    Slots(usize, usize),
    Columns(usize, usize),
}

impl Move {
    /// Whether the move stays on the board.
    pub open spec fn valid(self) -> bool {
        match self {
            Move::Slots(i, j) => i < 32 && j < 32,
            Move::Columns(a, b) => a < 10 && b < 10,
        }
    }

    /// The arrangement that the move makes of another.
    pub open spec fn of(self, layout: Seq<char>) -> Seq<char> {
        match self {
            Move::Slots(i, j) => swapped(layout, i as int, j as int),
            Move::Columns(a, b) => columns_swapped(layout, a as int, b as int),
        }
    }
}

/// A move keeps an arrangement fitting, and keeps its characters.
pub proof fn lemma_move_fits(layout: Seq<char>, corpus: Seq<char>, rule_count: nat, step: Move)
    requires
        fit(layout, corpus, rule_count),
        step.valid(),
    ensures
        fit(step.of(layout), corpus, rule_count),
        step.of(layout).to_multiset() == layout.to_multiset(),
{
    match step {
        Move::Slots(i, j) => {
            lemma_swap_fits(layout, corpus, rule_count, i as int, j as int);
            lemma_swap_keeps_keys(layout, i as int, j as int);
        },
        Move::Columns(a, b) => {
            lemma_swap_fits(layout, corpus, rule_count, a as int, b as int);
            lemma_swap_keeps_keys(layout, a as int, b as int);
            let top = swapped(layout, a as int, b as int);
            lemma_swap_fits(top, corpus, rule_count, a + 10, b + 10);
            lemma_swap_keeps_keys(top, a + 10, b + 10);
            let middle = swapped(top, a + 10, b + 10);
            lemma_swap_fits(middle, corpus, rule_count, a + 20, b + 20);
            lemma_swap_keeps_keys(middle, a + 20, b + 20);
        },
    }
}

/// Makes the candidate that a move leads to from another candidate.
pub fn try_move(
    old_layout: &Layout,
    step: Move,
    corpus: &Vec<char>,
    magic_rules: usize,
    config: &Config,
) -> (out: Layout)
    requires
        fit(old_layout.layout@, corpus@, magic_rules as nat),
        corpus@.len() <= MAX_CORPUS,
        step.valid(),
    ensures
        out.layout@ == step.of(old_layout.layout@),
        out.layout@.to_multiset() == old_layout.layout@.to_multiset(),
        fit(out.layout@, corpus@, magic_rules as nat),
        out.settled(corpus@, magic_rules as nat, *config),
        out.stats.score == merit(corpus@, out.layout@, magic_rules as nat, *config),
{
    let layout = match step {
        Move::Slots(i, j) => swap_slots(old_layout.layout, i, j),
        Move::Columns(a, b) => column_swap(old_layout.layout, a, b),
    };
    proof {
        lemma_move_fits(old_layout.layout@, corpus@, magic_rules as nat, step);
    }
    evaluate(layout, corpus, magic_rules, config)
}

/// Draws a move: more often than not the exchange of two slots drawn from the
/// whole board, else the exchange of two columns drawn from all ten.
pub fn random_move() -> (step: Move)
    ensures
        step.valid(),
        exists|kind: usize, a: usize, b: usize|
            kind < 10 && draws_of(kind).0 <= a < draws_of(kind).1 && draws_of(kind).0 <= b
                < draws_of(kind).1 && step == #[trigger] move_of(kind, a, b),
{
    let kind = random_between(0, 10);
    let range = draw_range(kind);
    let a = random_between(range.0, range.1);
    let b = random_between(range.0, range.1);
    let step = chosen_move(kind, a, b);
    assert(step == move_of(kind, a, b));
    step
}

/// The range that the two numbers of a move are drawn from, once its kind is
/// drawn from ten: for six kinds of the ten, the slots of the whole board;
/// for the other four, the ten columns.
pub open spec fn draws_of(kind: usize) -> (usize, usize) {
    if kind > 3 {
        (0usize, 32usize)
    } else {
        (0usize, 10usize)
    }
}

/// The range that the two numbers of a move are drawn from, once its kind is
/// drawn.
pub fn draw_range(kind: usize) -> (range: (usize, usize))
    ensures
        range == draws_of(kind),
        range.0 < range.1,
{
    if kind > 3 {
        (0, 32)
    } else {
        (0, 10)
    }
}

/// The move that three draws make: an exchange of two slots for six kinds of
/// the ten, of two columns for the other four.
pub open spec fn move_of(kind: usize, a: usize, b: usize) -> Move {
    if kind > 3 {
        Move::Slots(a, b)
    } else {
        Move::Columns(a, b)
    }
}

/// The move that three draws make.
pub fn chosen_move(kind: usize, a: usize, b: usize) -> (step: Move)
    ensures
        step == move_of(kind, a, b),
{
    if kind > 3 {
        Move::Slots(a, b)
    } else {
        Move::Columns(a, b)
    }
}

/// Tries one random move from a candidate. Whatever is drawn, the result is
/// the candidate of an arrangement that lies one valid move away.
pub fn attempt_swap(old_layout: &Layout, corpus: &str, magic_rules: usize, config: &Config) -> (out:
    Layout)
    requires
        fit(old_layout.layout@, corpus@, magic_rules as nat),
        corpus@.len() <= MAX_CORPUS,
    ensures
        exists|step: Move| step.valid() && out.layout@ == #[trigger] step.of(old_layout.layout@),
        out.layout@.to_multiset() == old_layout.layout@.to_multiset(),
        fit(out.layout@, corpus@, magic_rules as nat),
        out.settled(corpus@, magic_rules as nat, *config),
        out.stats.score == merit(corpus@, out.layout@, magic_rules as nat, *config),
{
    let text = chars_of(corpus);
    let step = random_move();
    let out = try_move(old_layout, step, &text, magic_rules, config);
    assert(out.layout@ == step.of(old_layout.layout@));
    out
}

/// Whether the pair of slots `(a, b)` is tried before the pair `(i, j)`.
pub open spec fn tried_before(a: int, b: int, i: int, j: int) -> bool {
    a < i || (a == i && b < j)
}

/// Whether `found` is what one round of hill climbing makes of `base`. At a
/// peak no exchange of two slots scores higher than `base`, and `found` is
/// `base`. Otherwise `found` is `base` with two slots exchanged, it scores
/// higher than `base`, no exchange scores higher than it, and every exchange
/// that is tried before it scores less.
pub open spec fn best_of(
    corpus: Seq<char>,
    base: Seq<char>,
    rule_count: nat,
    config: Config,
    found: Seq<char>,
    peak: bool,
) -> bool {
    if peak {
        &&& found == base
        &&& forall|a: int, b: int|
            0 <= a < b < 32 ==> #[trigger] merit(corpus, swapped(base, a, b), rule_count, config)
                <= merit(corpus, base, rule_count, config)
    } else {
        exists|i: int, j: int|
            {
                &&& 0 <= i < j < 32
                &&& found == #[trigger] swapped(base, i, j)
                &&& merit(corpus, found, rule_count, config) > merit(
                    corpus,
                    base,
                    rule_count,
                    config,
                )
                &&& forall|a: int, b: int|
                    0 <= a < b < 32 ==> #[trigger] merit(
                        corpus,
                        swapped(base, a, b),
                        rule_count,
                        config,
                    ) <= merit(corpus, found, rule_count, config)
                &&& forall|a: int, b: int|
                    0 <= a < b < 32 && tried_before(a, b, i, j) ==> #[trigger] merit(
                        corpus,
                        swapped(base, a, b),
                        rule_count,
                        config,
                    ) < merit(corpus, found, rule_count, config)
            }
    }
}

/// The number of pairs of slots whose first slot comes before `first`.
pub open spec fn pairs_before(first: nat) -> nat
    decreases first,
{
    if first == 0 {
        0
    } else {
        pairs_before((first - 1) as nat) + (32 - first) as nat
    }
}

/// There are 496 pairs of slots.
pub proof fn lemma_pairs_in_all()
    ensures
        pairs_before(32) == 496,
{
    reveal_with_fuel(pairs_before, 33);
}

/// A round of hill climbing never lowers the score.
pub proof fn lemma_climb_never_falls(
    corpus: Seq<char>,
    base: Seq<char>,
    rule_count: nat,
    config: Config,
    found: Seq<char>,
    peak: bool,
)
    requires
        best_of(corpus, base, rule_count, config, found, peak),
    ensures
        merit(corpus, found, rule_count, config) >= merit(corpus, base, rule_count, config),
{
}

/// One round of hill climbing: scores the arrangement, then tries the
/// exchange of every pair of its slots, 496 candidates in all, each scored
/// once, and returns the best of what it met, the first such where several
/// score alike, with the number of candidates tried; or, where no exchange
/// scores higher than the arrangement itself, its own candidate, marked as a
/// peak.
pub fn find_best_swap(
    layout_raw: [char; 32],
    corpus: &Vec<char>,
    magic_rules: usize,
    config: &Config,
) -> (out: (Layout, bool, usize))
    requires
        fit(layout_raw@, corpus@, magic_rules as nat),
        corpus@.len() <= MAX_CORPUS,
    ensures
        fit(out.0.layout@, corpus@, magic_rules as nat),
        out.0.settled(corpus@, magic_rules as nat, *config),
        best_of(corpus@, layout_raw@, magic_rules as nat, *config, out.0.layout@, out.1),
        out.0.layout@.to_multiset() == layout_raw@.to_multiset(),
        out.0.stats.score == merit(corpus@, out.0.layout@, magic_rules as nat, *config),
        out.0.stats.score >= merit(corpus@, layout_raw@, magic_rules as nat, *config),
        out.2 == 496,
{
    let base = layout_raw;
    let ghost n = magic_rules as nat;
    let ghost start = merit(corpus@, base@, n, *config);
    let mut best = evaluate(base, corpus, magic_rules, config);
    let mut changed = false;
    let mut evaluations: usize = 0;
    let ghost mut bi: int = 0;
    let ghost mut bj: int = 0;
    let mut i: usize = 0;
    while i < 32
        invariant
            i <= 32,
            fit(base@, corpus@, magic_rules as nat),
            corpus@.len() <= MAX_CORPUS,
            n == magic_rules as nat,
            start == merit(corpus@, base@, n, *config),
            fit(best.layout@, corpus@, magic_rules as nat),
            best.settled(corpus@, n, *config),
            best.stats.score == merit(corpus@, best.layout@, n, *config),
            best.stats.score >= start,
            evaluations == pairs_before(i as nat),
            !changed ==> best.layout@ == base@,
            changed ==> 0 <= bi < bj < 32 && tried_before(bi, bj, i as int, 0) && best.layout@
                == swapped(base@, bi, bj) && best.stats.score > start,
            forall|a: int, b: int|
                0 <= a < b < 32 && tried_before(a, b, i as int, 0) ==> #[trigger] merit(
                    corpus@,
                    swapped(base@, a, b),
                    n,
                    *config,
                ) <= best.stats.score,
            changed ==> forall|a: int, b: int|
                0 <= a < b < 32 && tried_before(a, b, bi, bj) ==> #[trigger] merit(
                    corpus@,
                    swapped(base@, a, b),
                    n,
                    *config,
                ) < best.stats.score,
        decreases 32 - i,
    {
        let mut j: usize = i + 1;
        while j < 32
            invariant
                i < 32,
                i < j <= 32,
                fit(base@, corpus@, magic_rules as nat),
                corpus@.len() <= MAX_CORPUS,
                n == magic_rules as nat,
                start == merit(corpus@, base@, n, *config),
                fit(best.layout@, corpus@, magic_rules as nat),
                best.settled(corpus@, n, *config),
                best.stats.score == merit(corpus@, best.layout@, n, *config),
                best.stats.score >= start,
                evaluations == pairs_before(i as nat) + (j - i - 1),
                !changed ==> best.layout@ == base@,
                changed ==> 0 <= bi < bj < 32 && tried_before(bi, bj, i as int, j as int)
                    && best.layout@ == swapped(base@, bi, bj) && best.stats.score > start,
                forall|a: int, b: int|
                    0 <= a < b < 32 && tried_before(a, b, i as int, j as int) ==> #[trigger] merit(
                        corpus@,
                        swapped(base@, a, b),
                        n,
                        *config,
                    ) <= best.stats.score,
                changed ==> forall|a: int, b: int|
                    0 <= a < b < 32 && tried_before(a, b, bi, bj) ==> #[trigger] merit(
                        corpus@,
                        swapped(base@, a, b),
                        n,
                        *config,
                    ) < best.stats.score,
            decreases 32 - j,
        {
            let layout = swap_slots(base, i, j);
            proof {
                lemma_swap_fits(base@, corpus@, n, i as int, j as int);
                lemma_pairs_in_all();
                lemma_pairs_grow(i as nat);
            }
            let candidate = evaluate(layout, corpus, magic_rules, config);
            evaluations = evaluations + 1;
            if candidate.stats.score > best.stats.score {
                changed = true;
                best = candidate;
                proof {
                    bi = i as int;
                    bj = j as int;
                }
            }
            j += 1;
        }
        assert(pairs_before((i + 1) as nat) == pairs_before(i as nat) + (31 - i));
        i += 1;
    }
    proof {
        lemma_pairs_in_all();
        if changed {
            assert(best.layout@ == swapped(base@, bi, bj));
            lemma_swap_keeps_keys(base@, bi, bj);
        }
    }
    (best, !changed, evaluations)
}

/// The number of pairs grows with the first slot and stays within 496.
proof fn lemma_pairs_grow(first: nat)
    requires
        first < 32,
    ensures
        pairs_before(first) + (31 - first) <= 496,
        pairs_before(first + 1) == pairs_before(first) + (31 - first),
    decreases 32 - first,
{
    lemma_pairs_in_all();
    if first < 31 {
        lemma_pairs_grow(first + 1);
        assert(pairs_before(first + 2) == pairs_before(first + 1) + (30 - first));
    }
}

/// The same characters in another order make an arrangement that fits as
/// well.
pub proof fn lemma_mix_fits(layout: Seq<char>, mixed: Seq<char>, corpus: Seq<char>, rule_count: nat)
    requires
        fit(layout, corpus, rule_count),
        mixed.to_multiset() == layout.to_multiset(),
    ensures
        fit(mixed, corpus, rule_count),
{
    broadcast use vstd::multiset::group_multiset_axioms;

    vstd::seq_lib::to_multiset_len(layout);
    vstd::seq_lib::to_multiset_len(mixed);
    assert(layout.no_duplicates());
    layout.lemma_multiset_has_no_duplicates();
    mixed.lemma_multiset_has_no_duplicates_conv();
    assert forall|c: char| placed(layout, 32, c) implies placed(mixed, 32, c) by {
        let k = choose|k: int| 0 <= k < 32 && #[trigger] layout[k] == c;
        assert(layout.contains(c));
        vstd::seq_lib::to_multiset_contains(layout, c);
        vstd::seq_lib::to_multiset_contains(mixed, c);
        assert(mixed.contains(c));
        let m = choose|m: int| 0 <= m < mixed.len() && mixed[m] == c;
        assert(mixed[m] == c);
    }
    assert forall|i: int| 0 <= i < corpus.len() implies placed(mixed, 32, #[trigger] corpus[i]) by {
        assert(placed(layout, 32, corpus[i]));
    }
}

/// Makes the candidate of a random arrangement of the characters of
/// `layout_raw`. Whatever is drawn, the result is the candidate of an
/// arrangement of the same characters.
pub fn randomise_layout(
    layout_raw: [char; 32],
    corpus: &Vec<char>,
    magic_rule_number: usize,
    config: &Config,
) -> (out: Layout)
    requires
        fit(layout_raw@, corpus@, magic_rule_number as nat),
        corpus@.len() <= MAX_CORPUS,
    ensures
        out.layout@.to_multiset() == layout_raw@.to_multiset(),
        fit(out.layout@, corpus@, magic_rule_number as nat),
        out.settled(corpus@, magic_rule_number as nat, *config),
        out.stats.score == merit(corpus@, out.layout@, magic_rule_number as nat, *config),
{
    let mixed = shuffled(layout_raw);
    proof {
        lemma_mix_fits(layout_raw@, mixed@, corpus@, magic_rule_number as nat);
    }
    evaluate(mixed, corpus, magic_rule_number, config)
}

/// The number of scores that calibrate a temperature.
pub const SAMPLES: usize = 10;

/// The arrangement after the first `upto` of a list of exchanges of two slots
/// have been made one after the other.
pub open spec fn walked(layout: Seq<char>, pairs: Seq<(usize, usize)>, upto: nat) -> Seq<char>
    decreases upto,
{
    if upto == 0 {
        layout
    } else {
        swapped(
            walked(layout, pairs, (upto - 1) as nat),
            pairs[upto - 1].0 as int,
            pairs[upto - 1].1 as int,
        )
    }
}

/// Whether every exchange of a list stays on the board.
pub open spec fn on_the_board(pairs: Seq<(usize, usize)>) -> bool {
    forall|k: int| 0 <= k < pairs.len() ==> (#[trigger] pairs[k]).0 < 32 && pairs[k].1 < 32
}

/// Walks a candidate through a list of exchanges of two slots, one after the
/// other, and returns the score after each. The candidate ends as the
/// candidate of the last arrangement.
pub fn sample_scores(
    layout: &mut Layout,
    pairs: &Vec<(usize, usize)>,
    corpus: &Vec<char>,
    magic_rules: usize,
    config: &Config,
) -> (scores: Vec<i64>)
    requires
        fit(old(layout).layout@, corpus@, magic_rules as nat),
        corpus@.len() <= MAX_CORPUS,
        on_the_board(pairs@),
    ensures
        scores@.len() == pairs@.len(),
        forall|k: int|
            0 <= k < pairs@.len() ==> #[trigger] scores@[k] == merit(
                corpus@,
                walked(old(layout).layout@, pairs@, (k + 1) as nat),
                magic_rules as nat,
                *config,
            ),
        final(layout).layout@ == walked(old(layout).layout@, pairs@, pairs@.len()),
        final(layout).layout@.to_multiset() == old(layout).layout@.to_multiset(),
        fit(final(layout).layout@, corpus@, magic_rules as nat),
        pairs@.len() > 0 ==> final(layout).settled(corpus@, magic_rules as nat, *config),
        pairs@.len() == 0 ==> *final(layout) == *old(layout),
{
    let mut scores: Vec<i64> = Vec::new();
    let mut k: usize = 0;
    while k < pairs.len()
        invariant
            k <= pairs@.len(),
            corpus@.len() <= MAX_CORPUS,
            on_the_board(pairs@),
            scores@.len() == k,
            forall|m: int|
                0 <= m < k ==> #[trigger] scores@[m] == merit(
                    corpus@,
                    walked(old(layout).layout@, pairs@, (m + 1) as nat),
                    magic_rules as nat,
                    *config,
                ),
            layout.layout@ == walked(old(layout).layout@, pairs@, k as nat),
            layout.layout@.to_multiset() == old(layout).layout@.to_multiset(),
            fit(layout.layout@, corpus@, magic_rules as nat),
            k > 0 ==> layout.settled(corpus@, magic_rules as nat, *config),
            k == 0 ==> *layout == *old(layout),
        decreases pairs@.len() - k,
    {
        let pair = pairs[k];
        let next = try_move(layout, Move::Slots(pair.0, pair.1), corpus, magic_rules, config);
        scores.push(next.stats.score);
        *layout = next;
        k += 1;
    }
    scores
}

/// Walks a candidate through ten random exchanges of two slots and returns
/// the ten scores met, from which a temperature is calibrated. Whatever is
/// drawn, the candidate ends as the candidate of a fitting arrangement.
pub fn calibration_scores(layout: &mut Layout, corpus: &str, magic_rules: usize, config: &Config) -> (scores:
    Vec<i64>)
    requires
        fit(old(layout).layout@, corpus@, magic_rules as nat),
        corpus@.len() <= MAX_CORPUS,
    ensures
        scores@.len() == SAMPLES,
        exists|pairs: Seq<(usize, usize)>|
            {
                &&& pairs.len() == SAMPLES
                &&& on_the_board(pairs)
                &&& final(layout).layout@ == #[trigger] walked(
                    old(layout).layout@,
                    pairs,
                    SAMPLES as nat,
                )
                &&& forall|k: int|
                    0 <= k < SAMPLES ==> #[trigger] scores@[k] == merit(
                        corpus@,
                        walked(old(layout).layout@, pairs, (k + 1) as nat),
                        magic_rules as nat,
                        *config,
                    )
            },
        final(layout).layout@.to_multiset() == old(layout).layout@.to_multiset(),
        fit(final(layout).layout@, corpus@, magic_rules as nat),
        final(layout).settled(corpus@, magic_rules as nat, *config),
{
    let text = chars_of(corpus);
    let mut pairs: Vec<(usize, usize)> = Vec::new();
    while pairs.len() < SAMPLES
        invariant
            pairs@.len() <= SAMPLES,
            on_the_board(pairs@),
        decreases SAMPLES - pairs@.len(),
    {
        let a = random_between(0, 32);
        let b = random_between(0, 32);
        pairs.push((a, b));
    }
    let scores = sample_scores(layout, &pairs, &text, magic_rules, config);
    assert(layout.layout@ == walked(old(layout).layout@, pairs@, SAMPLES as nat));
    scores
}

/// The number of workers of a search.
pub const THREADS: usize = 8;

/// Whether `best` is the worker that a search returns: no worker scores
/// higher, and every worker before it scores less.
pub open spec fn leads(scores: Seq<i64>, best: int) -> bool {
    &&& 0 <= best < scores.len()
    &&& forall|k: int| 0 <= k < scores.len() ==> scores[k] <= scores[best]
    &&& forall|k: int| 0 <= k < best ==> scores[k] < scores[best]
}

/// The scores of a list of candidates.
pub open spec fn scores_of(layouts: Seq<Layout>) -> Seq<i64> {
    Seq::new(layouts.len(), |k: int| layouts[k].stats.score)
}

/// Picks the best of the workers' results: the one with the highest score,
/// and of several with that score the first.
pub fn compare_layouts(layouts: &Vec<Layout>) -> (best: usize)
    requires
        layouts@.len() > 0,
    ensures
        leads(scores_of(layouts@), best as int),
{
    let mut best: usize = 0;
    let mut k: usize = 1;
    while k < layouts.len()
        invariant
            1 <= k <= layouts@.len(),
            best < k,
            forall|m: int| 0 <= m < k ==> layouts@[m].stats.score <= layouts@[best as int].stats.score,
            forall|m: int| 0 <= m < best ==> layouts@[m].stats.score < layouts@[best as int].stats.score,
        decreases layouts@.len() - k,
    {
        if layouts[k].stats.score > layouts[best].stats.score {
            best = k;
        }
        k += 1;
    }
    best
}

/// Two workers cannot both lead.
pub proof fn lemma_one_leads(scores: Seq<i64>, a: int, b: int)
    requires
        leads(scores, a),
        leads(scores, b),
    ensures
        a == b,
{
    if a < b {
        assert(scores[a] < scores[b]);
        assert(scores[b] <= scores[a]);
    }
    if b < a {
        assert(scores[b] < scores[a]);
        assert(scores[a] <= scores[b]);
    }
}

/// Why a worker stopped.
#[derive(Clone, Copy, Debug, PartialEq, Eq, Structural)]
pub enum Termination {
    /// A round of hill climbing found no better arrangement.
    Converged,
    /// The iterations ran out.
    BudgetExhausted,
    /// The target score was reached.
    TargetReached,
}

/// What a worker does in one iteration.
#[derive(Clone, Copy, Debug, PartialEq, Eq, Structural)]
pub enum Plan {
    /// A round of hill climbing from the current candidate.
    Climb,
    /// A fresh random arrangement.
    Shuffle,
    /// One random move from the current candidate.
    Step,
}

/// The score at which a search stops.
pub const TARGET_SCORE: i64 = 10000;

/// What a strategy does in an iteration. Hill climbing climbs, and so does
/// the hybrid once it is cold; the random search shuffles; every other
/// strategy takes a random step.
pub open spec fn plan_of(algorithm: Algorithm, cold: bool) -> Plan {
    if algorithm == Algorithm::HillClimbing || (algorithm == Algorithm::Hybrid && cold) {
        Plan::Climb
    } else if algorithm == Algorithm::RandomLayout {
        Plan::Shuffle
    } else {
        Plan::Step
    }
}

/// What a worker does next: nothing where its iterations have run out, else
/// what its strategy asks for. `cold` says whether the temperature has fallen
/// to the threshold at which the hybrid turns to hill climbing.
pub fn next_plan(algorithm: Algorithm, cold: bool, iterations: u64, max_iterations: u64) -> (plan:
    Result<Plan, Termination>)
    ensures
        plan == (if iterations >= max_iterations {
            Err::<Plan, Termination>(Termination::BudgetExhausted)
        } else {
            Ok::<Plan, Termination>(plan_of(algorithm, cold))
        }),
{
    if iterations >= max_iterations {
        return Err(Termination::BudgetExhausted);
    }
    if algorithm == Algorithm::HillClimbing || (algorithm == Algorithm::Hybrid && cold) {
        Ok(Plan::Climb)
    } else if algorithm == Algorithm::RandomLayout {
        Ok(Plan::Shuffle)
    } else {
        Ok(Plan::Step)
    }
}

/// Whether annealing takes a proposal: always where it scores higher, and
/// else where the draw of the lottery fell in its favour.
pub fn annealing_assess(old_stats: &Stats, new_stats: &Stats, lottery: bool) -> (taken: bool)
    ensures
        taken == (new_stats.score > old_stats.score || lottery),
{
    new_stats.score > old_stats.score || lottery
}

/// Whether a strategy takes a proposal. A climb is always taken. The
/// annealing strategies take what `annealing_assess` takes; the others take
/// only what scores higher.
pub open spec fn accepts(
    algorithm: Algorithm,
    cold: bool,
    current: int,
    proposal: int,
    lottery: bool,
) -> bool {
    match plan_of(algorithm, cold) {
        Plan::Climb => true,
        _ => if algorithm == Algorithm::SimAnnealing || algorithm == Algorithm::Hybrid {
            proposal > current || lottery
        } else {
            proposal > current
        },
    }
}

/// What a worker does with a proposal. At a peak of hill climbing the worker
/// stops with what it has. A proposal that is taken becomes the current
/// candidate, and the worker stops where it reaches the target score. A
/// proposal that is not taken is dropped.
pub open spec fn settled_as(
    algorithm: Algorithm,
    cold: bool,
    target: int,
    current: Layout,
    proposal: Layout,
    peak: bool,
    lottery: bool,
    out: (Layout, Option<Termination>),
) -> bool {
    if plan_of(algorithm, cold) == Plan::Climb && peak {
        out.0 == proposal && out.1 == Some(Termination::Converged)
    } else if accepts(
        algorithm,
        cold,
        current.stats.score as int,
        proposal.stats.score as int,
        lottery,
    ) {
        out.0 == proposal && out.1 == (if proposal.stats.score >= target {
            Some(Termination::TargetReached)
        } else {
            None
        })
    } else {
        out.0 == current && out.1 == None::<Termination>
    }
}

/// Hill climbing keeps its best: where the proposal of a climb scores no less
/// than the current candidate, as the proposals of `find_best_swap` do, the
/// candidate that the worker goes on with scores no less either.
pub proof fn lemma_hill_climbing_never_falls(
    cold: bool,
    target: int,
    current: Layout,
    proposal: Layout,
    peak: bool,
    lottery: bool,
    out: (Layout, Option<Termination>),
)
    requires
        settled_as(Algorithm::HillClimbing, cold, target, current, proposal, peak, lottery, out),
        proposal.stats.score >= current.stats.score,
    ensures
        out.0.stats.score >= current.stats.score,
{
}

/// The greedy and the random search never fall, and keep what they have
/// against every proposal that scores no higher.
pub proof fn lemma_greedy_keeps_or_rises(
    algorithm: Algorithm,
    cold: bool,
    target: int,
    current: Layout,
    proposal: Layout,
    peak: bool,
    lottery: bool,
    out: (Layout, Option<Termination>),
)
    requires
        algorithm == Algorithm::GreedySwapping || algorithm == Algorithm::RandomLayout,
        settled_as(algorithm, cold, target, current, proposal, peak, lottery, out),
    ensures
        out.0.stats.score >= current.stats.score,
        proposal.stats.score <= current.stats.score ==> out.0 == current && out.1.is_none(),
{
}

/// Whether a strategy takes a proposal that is not the peak of a climb.
pub fn takes(
    algorithm: Algorithm,
    cold: bool,
    current: &Stats,
    proposal: &Stats,
    lottery: bool,
) -> (taken: bool)
    ensures
        taken == accepts(algorithm, cold, current.score as int, proposal.score as int, lottery),
{
    let climbing = algorithm == Algorithm::HillClimbing || (algorithm == Algorithm::Hybrid && cold);
    let annealing = algorithm == Algorithm::SimAnnealing || algorithm == Algorithm::Hybrid;
    if climbing {
        true
    } else if annealing {
        annealing_assess(current, proposal, lottery)
    } else {
        proposal.score > current.score
    }
}

/// Decides what becomes of a proposal, and whether the worker stops.
pub fn settle(
    algorithm: Algorithm,
    cold: bool,
    target: i64,
    current: Layout,
    proposal: Layout,
    peak: bool,
    lottery: bool,
) -> (out: (Layout, Option<Termination>))
    ensures
        settled_as(algorithm, cold, target as int, current, proposal, peak, lottery, out),
{
    let climbing = algorithm == Algorithm::HillClimbing || (algorithm == Algorithm::Hybrid && cold);
    if climbing && peak {
        return (proposal, Some(Termination::Converged));
    }
    if takes(algorithm, cold, &current.stats, &proposal.stats, lottery) {
        if proposal.stats.score >= target {
            (proposal, Some(Termination::TargetReached))
        } else {
            (proposal, None)
        }
    } else {
        (current, None)
    }
}

/// Makes the proposal of one iteration: the best exchange of a climb, a fresh
/// random arrangement of the characters of `layout_raw`, or one random move
/// from the current candidate. The flag marks the peak of a climb.
pub fn propose(
    plan: Plan,
    layout_raw: [char; 32],
    current: &Layout,
    corpus: &str,
    magic_rules: usize,
    config: &Config,
) -> (out: (Layout, bool))
    requires
        fit(layout_raw@, corpus@, magic_rules as nat),
        fit(current.layout@, corpus@, magic_rules as nat),
        current.layout@.to_multiset() == layout_raw@.to_multiset(),
        corpus@.len() <= MAX_CORPUS,
        current.settled(corpus@, magic_rules as nat, *config),
    ensures
        fit(out.0.layout@, corpus@, magic_rules as nat),
        out.0.layout@.to_multiset() == layout_raw@.to_multiset(),
        out.0.settled(corpus@, magic_rules as nat, *config),
        out.0.stats.score == merit(corpus@, out.0.layout@, magic_rules as nat, *config),
        match plan {
            Plan::Climb => best_of(
                corpus@,
                current.layout@,
                magic_rules as nat,
                *config,
                out.0.layout@,
                out.1,
            ) && out.0.stats.score >= current.stats.score,
            Plan::Shuffle => !out.1 && out.0.layout@.to_multiset() == layout_raw@.to_multiset(),
            Plan::Step => !out.1 && exists|step: Move|
                step.valid() && out.0.layout@ == #[trigger] step.of(current.layout@),
        },
{
    let text = chars_of(corpus);
    match plan {
        Plan::Climb => {
            let found = find_best_swap(current.layout, &text, magic_rules, config);
            (found.0, found.1)
        },
        Plan::Shuffle => (randomise_layout(layout_raw, &text, magic_rules, config), false),
        Plan::Step => {
            let step = random_move();
            let out = try_move(current, step, &text, magic_rules, config);
            assert(out.layout@ == step.of(current.layout@));
            (out, false)
        },
    }
}

/// Whether a strategy runs without a temperature.
pub open spec fn cool(algorithm: Algorithm) -> bool {
    algorithm == Algorithm::HillClimbing || algorithm == Algorithm::GreedySwapping || algorithm
        == Algorithm::RandomLayout
}

/// Whether no valid move from an arrangement scores higher than `score`.
pub open spec fn no_move_rises(
    corpus: Seq<char>,
    layout: Seq<char>,
    rule_count: nat,
    config: Config,
    score: int,
) -> bool {
    forall|step: Move|
        step.valid() ==> #[trigger] merit(corpus, step.of(layout), rule_count, config) <= score
}

/// Whether an arrangement is a peak: no exchange of two of its slots scores
/// higher.
pub open spec fn at_peak(corpus: Seq<char>, layout: Seq<char>, rule_count: nat, config: Config) -> bool {
    best_of(corpus, layout, rule_count, config, layout, true)
}

/// Where hill climbing from the arrangement `from` with `budget` rounds at
/// most ends, why, and after how many rounds. Without budget it ends where it
/// is. At a peak it ends where it is, converged, having spent a round to find
/// that out. Otherwise it moves to the best exchange of two slots; it ends
/// there where that reaches the target score, and else climbs on from there
/// with the rest of its budget.
pub open spec fn ascent(
    corpus: Seq<char>,
    rule_count: nat,
    config: Config,
    from: Seq<char>,
    budget: nat,
) -> (Seq<char>, Termination, nat)
    decreases budget,
{
    if budget == 0 {
        (from, Termination::BudgetExhausted, 0)
    } else if at_peak(corpus, from, rule_count, config) {
        (from, Termination::Converged, 1)
    } else {
        let next = choose|next: Seq<char>| best_of(corpus, from, rule_count, config, next, false);
        if merit(corpus, next, rule_count, config) >= TARGET_SCORE {
            (next, Termination::TargetReached, 1)
        } else {
            let rest = ascent(corpus, rule_count, config, next, (budget - 1) as nat);
            (rest.0, rest.1, rest.2 + 1)
        }
    }
}

/// A round of hill climbing has one result.
pub proof fn lemma_best_is_one(
    corpus: Seq<char>,
    base: Seq<char>,
    rule_count: nat,
    config: Config,
    first: Seq<char>,
    second: Seq<char>,
)
    requires
        best_of(corpus, base, rule_count, config, first, false),
        best_of(corpus, base, rule_count, config, second, false),
    ensures
        first == second,
{
    let (i, j) = choose|i: int, j: int|
        {
            &&& 0 <= i < j < 32
            &&& first == #[trigger] swapped(base, i, j)
            &&& forall|a: int, b: int|
                0 <= a < b < 32 ==> #[trigger] merit(
                    corpus,
                    swapped(base, a, b),
                    rule_count,
                    config,
                ) <= merit(corpus, first, rule_count, config)
            &&& forall|a: int, b: int|
                0 <= a < b < 32 && tried_before(a, b, i, j) ==> #[trigger] merit(
                    corpus,
                    swapped(base, a, b),
                    rule_count,
                    config,
                ) < merit(corpus, first, rule_count, config)
        };
    let (k, l) = choose|k: int, l: int|
        {
            &&& 0 <= k < l < 32
            &&& second == #[trigger] swapped(base, k, l)
            &&& forall|a: int, b: int|
                0 <= a < b < 32 ==> #[trigger] merit(
                    corpus,
                    swapped(base, a, b),
                    rule_count,
                    config,
                ) <= merit(corpus, second, rule_count, config)
            &&& forall|a: int, b: int|
                0 <= a < b < 32 && tried_before(a, b, k, l) ==> #[trigger] merit(
                    corpus,
                    swapped(base, a, b),
                    rule_count,
                    config,
                ) < merit(corpus, second, rule_count, config)
        };
    let high = merit(corpus, first, rule_count, config);
    let other = merit(corpus, second, rule_count, config);
    assert(merit(corpus, swapped(base, i, j), rule_count, config) <= other);
    assert(merit(corpus, swapped(base, k, l), rule_count, config) <= high);
    if tried_before(i, j, k, l) {
        assert(merit(corpus, swapped(base, i, j), rule_count, config) < other);
    } else if tried_before(k, l, i, j) {
        assert(merit(corpus, swapped(base, k, l), rule_count, config) < high);
    }
}

/// What a round of hill climbing makes of an ascent with budget: its end at
/// a peak or at the target, and else one round more than the ascent from
/// what the round found.
pub proof fn lemma_ascent_round(
    corpus: Seq<char>,
    rule_count: nat,
    config: Config,
    from: Seq<char>,
    budget: nat,
    found: Seq<char>,
    peak: bool,
)
    requires
        budget > 0,
        best_of(corpus, from, rule_count, config, found, peak),
    ensures
        ascent(corpus, rule_count, config, from, budget) == (if peak {
            (from, Termination::Converged, 1nat)
        } else if merit(corpus, found, rule_count, config) >= TARGET_SCORE {
            (found, Termination::TargetReached, 1nat)
        } else {
            let rest = ascent(corpus, rule_count, config, found, (budget - 1) as nat);
            (rest.0, rest.1, rest.2 + 1)
        }),
{
    if at_peak(corpus, from, rule_count, config) {
        lemma_peak_is_found(corpus, from, rule_count, config, found, peak);
    } else {
        assert(!peak);
        let next = choose|next: Seq<char>| best_of(corpus, from, rule_count, config, next, false);
        lemma_best_is_one(corpus, from, rule_count, config, found, next);
    }
}

/// Whether `out` can be the end of a run that began at `start`: the last
/// candidate, the reason for the end, and the number of iterations made. The
/// run makes `max_iterations` iterations at most and never falls below its
/// start. It ends with its budget exhausted where it has made them all
/// without another end, and only then; without iterations it ends where it
/// began. It ends as converged only at a peak of hill climbing, and as having
/// reached the target only on a candidate that it took on the way and that
/// scores at least the target; where its budget ran out, it still stands at
/// its start or below the target. Hill climbing draws nothing, and ends as
/// `ascent` says; the greedy search keeps a start from which no move rises.
pub open spec fn ran(
    corpus: Seq<char>,
    rule_count: nat,
    config: Config,
    algorithm: Algorithm,
    max_iterations: u64,
    start: Layout,
    out: (Layout, Termination, u64),
) -> bool {
    let first = start.stats.score as int;
    &&& out.0.stats.score >= first
    &&& out.2 <= max_iterations
    &&& out.1 == Termination::BudgetExhausted ==> out.2 == max_iterations
    &&& out.1 != Termination::BudgetExhausted ==> out.2 >= 1
    &&& out.2 == 0 ==> out.0 == start
    &&& out.1 == Termination::Converged ==> algorithm == Algorithm::HillClimbing && best_of(
        corpus,
        out.0.layout@,
        rule_count,
        config,
        out.0.layout@,
        true,
    )
    &&& out.1 == Termination::TargetReached ==> out.0.stats.score >= TARGET_SCORE
        && out.0.stats.score > first
    &&& out.1 == Termination::BudgetExhausted ==> out.0 == start || out.0.stats.score
        < TARGET_SCORE
    &&& algorithm == Algorithm::HillClimbing ==> (out.0.layout@, out.1, out.2 as nat) == ascent(
        corpus,
        rule_count,
        config,
        start.layout@,
        max_iterations as nat,
    )
    &&& algorithm == Algorithm::GreedySwapping && no_move_rises(
        corpus,
        start.layout@,
        rule_count,
        config,
        first,
    ) ==> out.0 == start && out.1 == Termination::BudgetExhausted
}

/// Runs a strategy without a temperature from a given candidate until it
/// reaches a peak or the target score or its iterations run out, and returns
/// the last candidate, the reason for the end, and the number of iterations
/// made. Whatever is drawn on the way, the result is the candidate of an
/// arrangement of the same characters, and the run is as `ran` says.
pub fn generate_from(
    start: Layout,
    layout_raw: [char; 32],
    corpus: &str,
    max_iterations: u64,
    magic_rules: usize,
    algorithm: Algorithm,
    config: &Config,
) -> (out: (Layout, Termination, u64))
    requires
        fit(layout_raw@, corpus@, magic_rules as nat),
        fit(start.layout@, corpus@, magic_rules as nat),
        start.layout@.to_multiset() == layout_raw@.to_multiset(),
        start.settled(corpus@, magic_rules as nat, *config),
        corpus@.len() <= MAX_CORPUS,
        cool(algorithm),
    ensures
        fit(out.0.layout@, corpus@, magic_rules as nat),
        out.0.layout@.to_multiset() == layout_raw@.to_multiset(),
        out.0.settled(corpus@, magic_rules as nat, *config),
        ran(corpus@, magic_rules as nat, *config, algorithm, max_iterations, start, out),
{
    let ghost n = magic_rules as nat;
    let ghost first = start.stats.score as int;
    let ghost held = algorithm == Algorithm::GreedySwapping && no_move_rises(
        corpus@,
        start.layout@,
        n,
        *config,
        first,
    );
    let mut layout = start;
    let mut iterations: u64 = 0;
    loop
        invariant
            fit(layout_raw@, corpus@, magic_rules as nat),
            fit(layout.layout@, corpus@, magic_rules as nat),
            layout.layout@.to_multiset() == layout_raw@.to_multiset(),
            corpus@.len() <= MAX_CORPUS,
            cool(algorithm),
            layout.settled(corpus@, magic_rules as nat, *config),
            iterations <= max_iterations,
            n == magic_rules as nat,
            first == start.stats.score as int,
            held == (algorithm == Algorithm::GreedySwapping && no_move_rises(
                corpus@,
                start.layout@,
                n,
                *config,
                first,
            )),
            layout.stats.score >= first,
            iterations == 0 ==> layout == start,
            layout == start || layout.stats.score < TARGET_SCORE,
            held ==> layout == start,
            algorithm == Algorithm::HillClimbing ==> ({
                let whole = ascent(corpus@, n, *config, start.layout@, max_iterations as nat);
                let rest = ascent(
                    corpus@,
                    n,
                    *config,
                    layout.layout@,
                    (max_iterations - iterations) as nat,
                );
                whole == (rest.0, rest.1, (rest.2 + iterations) as nat)
            }),
        decreases max_iterations - iterations,
    {
        let plan = match next_plan(algorithm, false, iterations, max_iterations) {
            Ok(plan) => plan,
            Err(why) => {
                return (layout, why, iterations);
            },
        };
        let ghost current = layout;
        let ghost left = (max_iterations - iterations) as nat;
        let proposal = propose(plan, layout_raw, &layout, corpus, magic_rules, config);
        let ghost offered = proposal.0;
        let ghost peaked = proposal.1;
        let next = settle(algorithm, false, TARGET_SCORE, layout, proposal.0, proposal.1, false);
        proof {
            if held {
                let step = choose|step: Move|
                    step.valid() && offered.layout@ == #[trigger] step.of(current.layout@);
                assert(merit(corpus@, step.of(start.layout@), n, *config) <= first);
            }
            if algorithm == Algorithm::HillClimbing {
                lemma_ascent_round(corpus@, n, *config, current.layout@, left, offered.layout@, peaked);
            }
        }
        iterations = iterations + 1;
        layout = next.0;
        match next.1 {
            Some(why) => {
                return (layout, why, iterations);
            },
            None => {},
        }
    }
}

/// At a peak a round of hill climbing finds the peak.
pub proof fn lemma_peak_is_found(
    corpus: Seq<char>,
    base: Seq<char>,
    rule_count: nat,
    config: Config,
    found: Seq<char>,
    peak: bool,
)
    requires
        best_of(corpus, base, rule_count, config, base, true),
        best_of(corpus, base, rule_count, config, found, peak),
    ensures
        peak,
        found == base,
{
    if !peak {
        let (i, j) = choose|i: int, j: int|
            {
                &&& 0 <= i < j < 32
                &&& found == #[trigger] swapped(base, i, j)
                &&& merit(corpus, found, rule_count, config) > merit(
                    corpus,
                    base,
                    rule_count,
                    config,
                )
            };
        assert(merit(corpus, swapped(base, i, j), rule_count, config) <= merit(
            corpus,
            base,
            rule_count,
            config,
        ));
    }
}

/// One worker of a strategy that runs without a temperature: starts from a
/// random arrangement, walked through the ten exchanges of a calibration, and
/// runs from there as `generate_from` does. Whatever is drawn, the result is
/// the candidate of an arrangement of the same characters, and there is a
/// start from which the run is as `ran` says: a worker makes no more than its
/// iterations and ends with its budget exhausted only where it has made them
/// all, one that converged stands at a peak, and one that reached the target
/// scores at least the target.
pub fn generate(
    layout_raw: [char; 32],
    corpus: &str,
    max_iterations: u64,
    magic_rules: usize,
    algorithm: Algorithm,
    config: &Config,
) -> (out: (Layout, Termination, u64))
    requires
        fit(layout_raw@, corpus@, magic_rules as nat),
        corpus@.len() <= MAX_CORPUS,
        cool(algorithm),
    ensures
        fit(out.0.layout@, corpus@, magic_rules as nat),
        out.0.layout@.to_multiset() == layout_raw@.to_multiset(),
        out.0.settled(corpus@, magic_rules as nat, *config),
        exists|start: Layout|
            {
                &&& start.layout@.to_multiset() == layout_raw@.to_multiset()
                &&& start.settled(corpus@, magic_rules as nat, *config)
                &&& #[trigger] ran(
                    corpus@,
                    magic_rules as nat,
                    *config,
                    algorithm,
                    max_iterations,
                    start,
                    out,
                )
            },
        out.2 <= max_iterations,
        out.1 == Termination::BudgetExhausted ==> out.2 == max_iterations,
        out.1 != Termination::BudgetExhausted ==> out.2 >= 1,
        max_iterations == 0 ==> out.1 == Termination::BudgetExhausted,
        out.1 == Termination::Converged ==> algorithm == Algorithm::HillClimbing && best_of(
            corpus@,
            out.0.layout@,
            magic_rules as nat,
            *config,
            out.0.layout@,
            true,
        ),
        out.1 == Termination::TargetReached ==> out.0.stats.score >= TARGET_SCORE,
{
    let text = chars_of(corpus);
    let mut layout = randomise_layout(layout_raw, &text, magic_rules, config);
    let _ = calibration_scores(&mut layout, corpus, magic_rules, config);
    let ghost start = layout;
    let out = generate_from(layout, layout_raw, corpus, max_iterations, magic_rules, algorithm, config);
    assert(ran(corpus@, magic_rules as nat, *config, algorithm, max_iterations, start, out));
    out
}

} // verus!
