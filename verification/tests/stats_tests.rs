use ahash::AHashMap;
use chogalyzer::corpus::{convert, filter_corpus};
use chogalyzer::stats::bigram_stats::{
    bigram_stats, classify, distance, ls, scissor, sf, skipgram_stats, Pair,
};
use chogalyzer::stats::trigram_stats::{onehand, roll, trigram_stat, trigram_stats, Trigram};
use chogalyzer::stats::{
    analyze, finger_weights, is_distinct, layout_raw_to_table, score, score_weights, slot_key,
};
use chogalyzer::text::{apply_magic, chars_of, parse_category};
use chogalyzer::{AnalysisError, Category, Config, Finger, Hand, Key, Stats};

fn arrangement(text: &str) -> [char; 32] {
    let letters: Vec<char> = text.chars().collect();
    assert_eq!(letters.len(), 32);
    let mut layout = [' '; 32];
    for (i, c) in letters.iter().enumerate() {
        layout[i] = *c;
    }
    layout
}

fn qwerty() -> [char; 32] {
    arrangement("qwertyuiopasdfghjkl;zxcvbnm,./⎵_")
}

fn starred() -> [char; 32] {
    arrangement("qwertyuiopasdfghjkl;zxcvbnm,.*⎵_")
}

fn both() -> Config {
    Config { thumb_alt: true, thumb_roll: true }
}

fn no_rules() -> AHashMap<char, char> {
    AHashMap::new()
}

fn mirror(layout: &[char; 32]) -> [char; 32] {
    let mut other = *layout;
    for row in 0..3 {
        for column in 0..10 {
            other[row * 10 + column] = layout[row * 10 + 9 - column];
        }
    }
    other[30] = layout[31];
    other[31] = layout[30];
    other
}

#[test]
fn board_has_mirrored_hands_and_two_thumbs() {
    let pinky = slot_key(0);
    assert_eq!(pinky, Key { index: 0, hand: Hand::Left, finger: Finger::Pinky, row: 0, lateral: false });
    let stretch = slot_key(14);
    assert_eq!(stretch, Key { index: 14, hand: Hand::Left, finger: Finger::Index, row: 1, lateral: true });
    let right = slot_key(25);
    assert_eq!(right, Key { index: 25, hand: Hand::Right, finger: Finger::Index, row: 2, lateral: true });
    assert_eq!(slot_key(29), Key { index: 29, hand: Hand::Right, finger: Finger::Pinky, row: 2, lateral: false });
    assert_eq!(slot_key(17).finger, Finger::Middle);
    assert_eq!(slot_key(18).finger, Finger::Ring);
    assert_eq!(slot_key(30), Key { index: 30, hand: Hand::Left, finger: Finger::Thumb, row: 3, lateral: false });
    assert_eq!(slot_key(31), Key { index: 31, hand: Hand::Right, finger: Finger::Thumb, row: 3, lateral: false });
}

#[test]
fn table_maps_each_character_to_its_slot() {
    let table = layout_raw_to_table(&qwerty());
    assert_eq!(table.len(), 32);
    assert_eq!(table.get(&'q'), Some(&slot_key(0)));
    assert_eq!(table.get(&'b'), Some(&slot_key(24)));
    assert_eq!(table.get(&'⎵'), Some(&slot_key(30)));
    assert_eq!(table.get(&'_'), Some(&slot_key(31)));
    assert_eq!(table.get(&'*'), None);
}

#[test]
fn table_keeps_the_last_slot_of_a_repeated_character() {
    let mut layout = qwerty();
    layout[5] = 'q';
    let table = layout_raw_to_table(&layout);
    assert_eq!(table.len(), 31);
    assert_eq!(table.get(&'q'), Some(&slot_key(5)));
}

#[test]
fn distinct_arrangements_are_told_apart() {
    assert!(is_distinct(&qwerty()));
    let mut layout = qwerty();
    layout[31] = 'q';
    assert!(!is_distinct(&layout));
}

#[test]
fn finger_weights_hold_the_five_fingers() {
    let weights = finger_weights();
    assert_eq!(weights.len(), 5);
    assert_eq!(weights.get(&Finger::Pinky), Some(&66));
    assert_eq!(weights.get(&Finger::Ring), Some(&28));
    assert_eq!(weights.get(&Finger::Middle), Some(&21));
    assert_eq!(weights.get(&Finger::Index), Some(&18));
    assert_eq!(weights.get(&Finger::Thumb), Some(&50));
}

#[test]
fn pairs_are_filed_under_one_category() {
    assert_eq!(classify(&slot_key(3), &slot_key(3)), Pair::Repeat);
    assert_eq!(classify(&slot_key(24), &slot_key(3)), Pair::SameFinger);
    assert_eq!(classify(&slot_key(3), &slot_key(4)), Pair::Plain);
    assert_eq!(classify(&slot_key(4), &slot_key(2)), Pair::Lateral);
    assert_eq!(classify(&slot_key(4), &slot_key(12)), Pair::Lateral);
    assert_eq!(classify(&slot_key(1), &slot_key(12)), Pair::HalfScissor);
    assert_eq!(classify(&slot_key(0), &slot_key(21)), Pair::FullScissor);
    assert_eq!(classify(&slot_key(0), &slot_key(1)), Pair::Plain);
    assert_eq!(classify(&slot_key(0), &slot_key(9)), Pair::Plain);
    assert_eq!(classify(&slot_key(30), &slot_key(0)), Pair::Plain);
    assert_eq!(classify(&slot_key(0), &slot_key(23)), Pair::Plain);
}

#[test]
fn same_finger_and_lateral_and_scissor_predicates() {
    assert!(sf(&slot_key(3), &slot_key(13)));
    assert!(sf(&slot_key(3), &slot_key(4)));
    assert!(!sf(&slot_key(3), &slot_key(3)));
    assert!(!sf(&slot_key(3), &slot_key(6)));
    assert!(ls(&slot_key(4), &slot_key(0)));
    assert!(ls(&slot_key(0), &slot_key(14)));
    assert!(!ls(&slot_key(4), &slot_key(9)));
    assert!(!ls(&slot_key(4), &slot_key(30)));
    assert!(!ls(&slot_key(0), &slot_key(1)));
    assert_eq!(scissor(&slot_key(0), &slot_key(11)), 1);
    assert_eq!(scissor(&slot_key(0), &slot_key(21)), 2);
    assert_eq!(scissor(&slot_key(22), &slot_key(1)), 2);
    assert_eq!(scissor(&slot_key(2), &slot_key(3)), 0);
    assert_eq!(scissor(&slot_key(0), &slot_key(3)), 0);
    assert_eq!(scissor(&slot_key(0), &slot_key(13)), 0);
    assert_eq!(scissor(&slot_key(0), &slot_key(18)), 0);
    assert_eq!(scissor(&slot_key(1), &slot_key(11)), 0);
}

#[test]
fn travel_is_the_rows_but_at_least_one() {
    assert_eq!(distance(&slot_key(3), &slot_key(13)), 1);
    assert_eq!(distance(&slot_key(3), &slot_key(23)), 2);
    assert_eq!(distance(&slot_key(3), &slot_key(4)), 1);
    assert_eq!(distance(&slot_key(3), &slot_key(14)), 1);
    assert_eq!(distance(&slot_key(3), &slot_key(24)), 2);
    assert_eq!(distance(&slot_key(3), &slot_key(3)), 1);
}

#[test]
fn same_finger_bigram_costs_five_weights_a_row() {
    let weights = finger_weights();
    let mut stats = Stats::default();
    let out = bigram_stats(&slot_key(24), &slot_key(3), "sfb", &mut stats, &weights, true);
    assert_eq!(out, (true, 1));
    assert_eq!(stats.sfb, 1);
    assert_eq!(stats.fspeed, 5 * 18 * 2);
    assert_eq!(stats.sfr + stats.lsb + stats.hsb + stats.fsb, 0);
    let out = bigram_stats(&slot_key(0), &slot_key(10), "lsb", &mut stats, &weights, false);
    assert_eq!(out, (false, 0));
    assert_eq!(stats.sfb, 2);
    assert_eq!(stats.fspeed, 180 + 5 * 66);
}

#[test]
fn repeat_costs_two_weights_and_is_no_bad_bigram() {
    let weights = finger_weights();
    let mut stats = Stats::default();
    let out = bigram_stats(&slot_key(1), &slot_key(1), "sfr", &mut stats, &weights, true);
    assert_eq!(out, (true, 0));
    assert_eq!(stats.sfr, 1);
    assert_eq!(stats.sfb, 0);
    assert_eq!(stats.fspeed, 2 * 28);
}

#[test]
fn lateral_and_scissor_bigrams_count_once() {
    let weights = finger_weights();
    let mut stats = Stats::default();
    assert_eq!(bigram_stats(&slot_key(4), &slot_key(12), "lsb", &mut stats, &weights, true), (true, 1));
    assert_eq!((stats.lsb, stats.hsb, stats.fsb), (1, 0, 0));
    assert_eq!(bigram_stats(&slot_key(1), &slot_key(12), "hsb", &mut stats, &weights, true), (true, 1));
    assert_eq!((stats.lsb, stats.hsb, stats.fsb), (1, 1, 0));
    assert_eq!(bigram_stats(&slot_key(0), &slot_key(21), "hsb", &mut stats, &weights, true), (false, 1));
    assert_eq!((stats.lsb, stats.hsb, stats.fsb), (1, 1, 1));
    assert_eq!(bigram_stats(&slot_key(0), &slot_key(9), "fsb", &mut stats, &weights, true), (false, 0));
    assert_eq!(bigram_stats(&slot_key(30), &slot_key(0), "fsb", &mut stats, &weights, true), (false, 0));
    assert_eq!((stats.lsb, stats.hsb, stats.fsb), (1, 1, 1));
    assert_eq!(stats.fspeed, 0);
    assert_eq!(stats.bigrams, 0);
}

#[test]
fn skipgram_counts_the_pair_and_the_key_three_back() {
    let weights = finger_weights();
    let mut stats = Stats::default();
    let shown = skipgram_stats(&slot_key(3), &slot_key(23), None, "sfs", &mut stats, &weights);
    assert!(shown);
    assert_eq!(stats.skipgrams, 1);
    assert_eq!(stats.sfs, 1);
    assert_eq!(stats.fspeed, 18 * 2);

    let mut stats = Stats::default();
    let far = slot_key(13);
    let shown = skipgram_stats(&slot_key(3), &slot_key(23), Some(&far), "lss", &mut stats, &weights);
    assert!(!shown);
    assert_eq!(stats.skipgrams, 1);
    assert_eq!(stats.sfs, 2);
    assert_eq!(stats.lss, 0);
    assert_eq!(stats.fspeed, 18 * 2);

    let mut stats = Stats::default();
    let far = slot_key(14);
    let shown = skipgram_stats(&slot_key(1), &slot_key(12), Some(&far), "hss", &mut stats, &weights);
    assert!(shown);
    assert_eq!(stats.skipgrams, 1);
    assert_eq!(stats.hss, 1);
    assert_eq!(stats.lss, 0);
    assert_eq!(stats.sfs, 0);
    assert_eq!(stats.fss, 0);
}

#[test]
fn key_three_back_adds_only_a_same_finger_skipgram() {
    let weights = finger_weights();
    let mut stats = Stats::default();
    let same = slot_key(12);
    let shown = skipgram_stats(&slot_key(1), &slot_key(12), Some(&same), "sfs", &mut stats, &weights);
    assert!(!shown);
    assert_eq!((stats.skipgrams, stats.sfs, stats.hss), (1, 0, 1));

    let mut stats = Stats::default();
    let above = slot_key(2);
    let shown = skipgram_stats(&slot_key(1), &slot_key(12), Some(&above), "sfs", &mut stats, &weights);
    assert!(shown);
    assert_eq!((stats.skipgrams, stats.sfs, stats.hss, stats.lss, stats.fss), (1, 1, 1, 0, 0));
    assert_eq!(stats.fspeed, 0);

    let mut stats = Stats::default();
    let other_hand = slot_key(7);
    let shown = skipgram_stats(&slot_key(1), &slot_key(12), Some(&other_hand), "sfs", &mut stats, &weights);
    assert!(!shown);
    assert_eq!((stats.skipgrams, stats.sfs, stats.hss), (1, 0, 1));

    let mut stats = Stats::default();
    let lateral = slot_key(4);
    let shown = skipgram_stats(&slot_key(1), &slot_key(14), Some(&lateral), "lss", &mut stats, &weights);
    assert!(shown);
    assert_eq!((stats.skipgrams, stats.sfs, stats.lss), (1, 1, 1));
}

#[test]
fn skipgram_across_hands_or_with_a_thumb_is_only_counted() {
    let weights = finger_weights();
    let mut stats = Stats::default();
    let far = slot_key(9);
    assert!(!skipgram_stats(&slot_key(0), &slot_key(9), Some(&far), "sfs", &mut stats, &weights));
    assert!(!skipgram_stats(&slot_key(30), &slot_key(0), Some(&slot_key(0)), "sfs", &mut stats, &weights));
    assert_eq!(stats.skipgrams, 2);
    assert_eq!(stats.sfs + stats.lss + stats.hss + stats.fss, 0);
    assert!(!skipgram_stats(&slot_key(2), &slot_key(2), None, "sfs", &mut stats, &weights));
    assert_eq!(stats.skipgrams, 3);
    assert_eq!(stats.sfs, 0);
}

#[test]
fn trigrams_are_filed_by_hands_and_fingers() {
    let c = both();
    assert_eq!(trigram_stat(&slot_key(0), &slot_key(9), &slot_key(1), &c), Trigram::Alt);
    assert_eq!(trigram_stat(&slot_key(0), &slot_key(1), &slot_key(2), &c), Trigram::InThreeRoll);
    assert_eq!(trigram_stat(&slot_key(2), &slot_key(1), &slot_key(0), &c), Trigram::OutThreeRoll);
    assert_eq!(trigram_stat(&slot_key(0), &slot_key(2), &slot_key(1), &c), Trigram::WeakRed);
    assert_eq!(trigram_stat(&slot_key(0), &slot_key(3), &slot_key(1), &c), Trigram::Red);
    assert_eq!(trigram_stat(&slot_key(0), &slot_key(1), &slot_key(9), &c), Trigram::Inroll);
    assert_eq!(trigram_stat(&slot_key(1), &slot_key(0), &slot_key(9), &c), Trigram::Outroll);
    assert_eq!(trigram_stat(&slot_key(9), &slot_key(0), &slot_key(1), &c), Trigram::Inroll);
    assert_eq!(trigram_stat(&slot_key(9), &slot_key(1), &slot_key(1), &c), Trigram::Outroll);
    assert_eq!(trigram_stat(&slot_key(1), &slot_key(30), &slot_key(2), &c), Trigram::WeakRed);
}

#[test]
fn thumbs_can_be_left_out_of_alternation_and_rolls() {
    let no_alt = Config { thumb_alt: false, thumb_roll: true };
    let no_roll = Config { thumb_alt: true, thumb_roll: false };
    assert_eq!(trigram_stat(&slot_key(0), &slot_key(31), &slot_key(1), &both()), Trigram::Alt);
    assert_eq!(trigram_stat(&slot_key(0), &slot_key(31), &slot_key(1), &no_alt), Trigram::Other);
    assert_eq!(trigram_stat(&slot_key(0), &slot_key(9), &slot_key(1), &no_alt), Trigram::Alt);
    assert_eq!(roll(&slot_key(0), &slot_key(30), &both()), Trigram::Inroll);
    assert_eq!(roll(&slot_key(0), &slot_key(30), &no_roll), Trigram::Other);
    assert_eq!(roll(&slot_key(3), &slot_key(3), &both()), Trigram::Outroll);
    assert_eq!(onehand(&slot_key(2), &slot_key(30), &slot_key(1), &both()), Trigram::WeakRed);
}

#[test]
fn one_hand_with_a_thumb_left_out_is_filed_under_nothing() {
    let no_roll = Config { thumb_alt: true, thumb_roll: false };
    assert_eq!(onehand(&slot_key(0), &slot_key(1), &slot_key(30), &no_roll), Trigram::Other);
    assert_eq!(onehand(&slot_key(0), &slot_key(1), &slot_key(2), &no_roll), Trigram::InThreeRoll);
    assert_eq!(onehand(&slot_key(30), &slot_key(3), &slot_key(2), &both()), Trigram::OutThreeRoll);
}

#[test]
fn trigram_stats_adds_one_count() {
    let stats = Stats::default();
    let (stats, shown) = trigram_stats(&slot_key(0), &slot_key(1), &slot_key(2), "inthreeroll", &both(), stats);
    assert!(shown);
    assert_eq!(stats.inthreeroll, 1);
    let (stats, shown) = trigram_stats(&slot_key(0), &slot_key(9), &slot_key(1), "red", &both(), stats);
    assert!(!shown);
    assert_eq!(stats.alt, 1);
    let no_alt = Config { thumb_alt: false, thumb_roll: true };
    let (stats, shown) = trigram_stats(&slot_key(0), &slot_key(31), &slot_key(1), "thumb_stat", &no_alt, stats);
    assert!(shown);
    assert_eq!(stats.thumb_stat, 1);
    assert_eq!(stats.trigrams, 0);
    assert_eq!(stats.inroll + stats.outroll + stats.outthreeroll + stats.red + stats.weak_red, 0);
}

#[test]
fn report_tags_name_categories() {
    assert_eq!(parse_category("sfb"), Some(Category::Sfb));
    assert_eq!(parse_category("weak_red"), Some(Category::WeakRed));
    assert_eq!(parse_category("thumb_stat"), Some(Category::ThumbStat));
    assert_eq!(parse_category("outthreeroll"), Some(Category::OutThreeRoll));
    assert_eq!(parse_category("analyze"), None);
    assert_eq!(parse_category("generate"), None);
    assert_eq!(parse_category(""), None);
    assert_eq!(parse_category("sf"), None);
    assert_eq!(parse_category("sfbs"), None);
}

#[test]
fn chars_of_decodes_every_character() {
    assert_eq!(chars_of("a⎵b"), vec!['a', '⎵', 'b']);
    assert_eq!(chars_of(""), Vec::<char>::new());
}

#[test]
fn substitution_is_from_the_left_and_never_overlaps() {
    let mut rules = AHashMap::new();
    rules.insert('l', 'l');
    let text: Vec<char> = "lllal".chars().collect();
    assert_eq!(apply_magic(&text, &rules), vec!['l', '*', 'l', 'a', 'l']);
    let mut rules = AHashMap::new();
    rules.insert('t', 'h');
    let text: Vec<char> = "thethth".chars().collect();
    assert_eq!(apply_magic(&text, &rules), vec!['t', '*', 'e', 't', '*', 't', '*']);
    let text: Vec<char> = "t".chars().collect();
    assert_eq!(apply_magic(&text, &rules), vec!['t']);
    assert_eq!(text, vec!['t']);
}

#[test]
fn rules_are_applied_in_one_pass_from_the_left() {
    let mut rules = AHashMap::new();
    rules.insert('*', 'e');
    rules.insert('t', 'h');
    rules.insert('é', 'x');
    let text: Vec<char> = "thethe".chars().collect();
    let out = apply_magic(&text, &rules);
    assert_eq!(out, vec!['t', '*', 'e', 't', '*', 'e']);
    let mut rules = AHashMap::new();
    rules.insert('h', 'e');
    rules.insert('t', 'h');
    let out = apply_magic(&text, &rules);
    assert_eq!(out, vec!['t', '*', 'e', 't', '*', 'e']);
    let mut rules = AHashMap::new();
    rules.insert('e', 't');
    rules.insert('t', 'h');
    let out = apply_magic(&text, &rules);
    assert_eq!(out, vec!['t', '*', 'e', '*', 'h', 'e']);
    let mut rules = AHashMap::new();
    rules.insert('l', 'l');
    let text: Vec<char> = "lllal".chars().collect();
    assert_eq!(apply_magic(&text, &rules), vec!['l', '*', 'l', 'a', 'l']);
    assert_eq!(apply_magic(&text, &no_rules()), text);
    let one: Vec<char> = "l".chars().collect();
    assert_eq!(apply_magic(&one, &rules), one);
}

#[test]
fn chained_rules_read_the_same_on_a_mirrored_arrangement() {
    let mut rules = AHashMap::new();
    rules.insert('a', 'b');
    rules.insert('b', 'c');
    let text: Vec<char> = "abc".chars().collect();
    assert_eq!(apply_magic(&text, &rules), vec!['a', '*', 'c']);
    let layout = arrangement("abcdefghijkl*mnopqrstuvwxyz,./-_");
    let other = mirror(&layout);
    assert_eq!(other, arrangement("jihgfedcbasrqponm*lk/.,zyxwvut_-"));
    assert_eq!(mirror(&other), layout);
    let corpus = "abcabc_the_cab_back";
    let one = analyze(corpus, layout, "sfs", &rules, &both()).unwrap();
    let two = analyze(corpus, other, "sfs", &rules, &both()).unwrap();
    assert_eq!(one.ngram_table, two.ngram_table);
    assert_eq!(one.bad_bigrams, two.bad_bigrams);
    assert_eq!(one.score, two.score);
    assert_eq!(
        (one.fspeed, one.heatmap, one.sfb, one.sfr, one.sfs, one.lsb, one.lss, one.fsb, one.fss),
        (two.fspeed, two.heatmap, two.sfb, two.sfr, two.sfs, two.lsb, two.lss, two.fsb, two.fss)
    );
    assert_eq!(
        (one.hsb, one.hss, one.inroll, one.outroll, one.alt, one.inthreeroll, one.outthreeroll),
        (two.hsb, two.hss, two.inroll, two.outroll, two.alt, two.inthreeroll, two.outthreeroll)
    );
    assert_eq!(
        (one.weak_red, one.red, one.bigrams, one.skipgrams, one.trigrams),
        (two.weak_red, two.red, two.bigrams, two.skipgrams, two.trigrams)
    );
    let short = analyze("abc", layout, "analyze", &rules, &both()).unwrap();
    assert_eq!(short.heatmap, 12 + 0 + 3);
    let mut twice = layout;
    twice[5] = 'a';
    assert_eq!(
        analyze(corpus, mirror(&twice), "analyze", &rules, &both()).err(),
        Some(AnalysisError::Configuration)
    );
    assert_eq!(
        analyze("ab#", other, "analyze", &rules, &both()).err(),
        analyze("ab#", layout, "analyze", &rules, &both()).err()
    );
}

#[test]
fn score_takes_every_count_whose_products_and_sum_fit() {
    let weights = score_weights();
    let mut stats = Stats::default();
    stats.inroll = 1 << 56;
    stats.fspeed = 1 << 55;
    assert_eq!(score(&stats, &weights), 100 * (1i64 << 56) - 200 * (1i64 << 55));
    let mut stats = Stats::default();
    stats.red = i64::MAX / 7;
    assert_eq!(score(&stats, &weights), -7 * (i64::MAX / 7));
    let mut stats = Stats::default();
    stats.sfb = i64::MAX;
    stats.alt = i64::MIN;
    assert_eq!(score(&stats, &weights), 0);
}

#[test]
fn score_is_the_weighted_sum() {
    let weights = score_weights();
    let mut stats = Stats::default();
    stats.fspeed = 180;
    stats.heatmap = 7;
    stats.lsb = 1;
    stats.lss = 2;
    stats.hsb = 3;
    stats.hss = 4;
    stats.fsb = 5;
    stats.fss = 6;
    stats.inroll = 7;
    stats.outroll = 8;
    stats.inthreeroll = 9;
    stats.outthreeroll = 10;
    stats.weak_red = 11;
    stats.red = 12;
    stats.sfb = 100;
    stats.sfr = 100;
    stats.sfs = 100;
    stats.alt = 100;
    let expected = -36000 - 1400 - 100 - 40 - 300 - 80 - 2500 - 600 + 700 + 400 + 2700 + 1500 - 6600
        - 84;
    assert_eq!(score(&stats, &weights), expected);
    assert_eq!(score(&Stats::default(), &weights), 0);
}

#[test]
fn travel_and_heat_enter_at_their_full_weight() {
    let weights = score_weights();
    let mut stats = Stats::default();
    stats.fspeed = 1;
    assert_eq!(score(&stats, &weights), -200);
    stats.fspeed = 0;
    stats.heatmap = 1;
    assert_eq!(score(&stats, &weights), -200);
    stats.fspeed = 3;
    stats.heatmap = 2;
    assert_eq!(score(&stats, &weights), -1000);
}

#[test]
fn fewer_costs_do_not_lower_the_score() {
    let weights = score_weights();
    let mut before = Stats::default();
    before.fspeed = 500;
    before.heatmap = 90;
    before.lsb = 4;
    before.fsb = 2;
    before.red = 9;
    before.inroll = 3;
    let mut after = Stats::default();
    after.fspeed = 499;
    after.heatmap = 89;
    after.lsb = 3;
    after.fsb = 1;
    after.red = 8;
    after.inroll = 3;
    assert!(score(&after, &weights) >= score(&before, &weights));
    assert_eq!(score(&before, &weights), -100000 - 18000 - 400 - 1000 - 63 + 300);
}

fn same_pair_count(corpus: &str, layout: &[char; 32]) -> i64 {
    let place = |c: char| layout.iter().position(|x| *x == c).unwrap();
    let finger = |slot: usize| {
        if slot >= 30 {
            (slot, 9)
        } else {
            let column = slot % 10;
            let hand = if column < 5 { 0 } else { 1 };
            let finger = [4, 3, 2, 1, 1, 1, 1, 2, 3, 4][column];
            (hand, finger)
        }
    };
    let letters: Vec<char> = corpus.chars().collect();
    let mut count = 0;
    for pair in letters.windows(2) {
        let (a, b) = (place(pair[0]), place(pair[1]));
        if a < 30 && b < 30 && finger(a) == finger(b) && a / 10 != b / 10 {
            count += 1;
        }
    }
    count
}

#[test]
fn quick_brown_fox_on_qwerty() {
    let corpus = "the_quick_brown_fox⎵";
    let stats = analyze(corpus, qwerty(), "analyze", &no_rules(), &both()).unwrap();
    assert_eq!(corpus.chars().count(), 20);
    assert_eq!(stats.bigrams, 19);
    assert_eq!(stats.sfb, same_pair_count(corpus, &qwerty()));
    assert_eq!(stats.sfb, 1);
    assert_eq!(stats.trigrams, 18);
    assert!(stats.ngram_table.is_empty());
    assert!(stats.bad_bigrams.is_empty());
}

#[test]
fn quick_brown_fox_without_blanks() {
    let corpus = "thequickbrownfox⎵";
    let stats = analyze(corpus, qwerty(), "analyze", &no_rules(), &both()).unwrap();
    assert_eq!(stats.bigrams, 16);
    assert_eq!(stats.sfb, same_pair_count(corpus, &qwerty()));
    assert_eq!(stats.sfb, 1);
}

#[test]
fn short_corpora_have_exact_counters() {
    let stats = analyze("", qwerty(), "analyze", &no_rules(), &both()).unwrap();
    assert_eq!((stats.bigrams, stats.skipgrams, stats.trigrams, stats.score), (0, 0, 0, 0));
    let stats = analyze("a", qwerty(), "analyze", &no_rules(), &both()).unwrap();
    assert_eq!((stats.bigrams, stats.skipgrams, stats.trigrams), (0, 0, 0));
    assert_eq!(stats.heatmap, 3);
    assert_eq!(stats.score, -600);
    let stats = analyze("br", qwerty(), "analyze", &no_rules(), &both()).unwrap();
    assert_eq!((stats.bigrams, stats.skipgrams, stats.trigrams), (1, 0, 0));
    assert_eq!(stats.sfb, 1);
    assert_eq!(stats.fspeed, 180);
    assert_eq!(stats.heatmap, 9 + 6);
    assert_eq!(stats.score, -36000 - 3000);
}

#[test]
fn three_characters_make_one_skipgram_and_one_trigram() {
    let stats = analyze("asd", qwerty(), "inthreeroll", &no_rules(), &both()).unwrap();
    assert_eq!((stats.bigrams, stats.skipgrams, stats.trigrams), (2, 1, 1));
    assert_eq!(stats.inthreeroll, 1);
    assert_eq!(stats.heatmap, 3 + 1 + 0);
    assert_eq!(stats.score, 300 - 800);
    assert_eq!(stats.ngram_table.len(), 1);
    assert_eq!(stats.ngram_table.get(&['a', 's', 'd']), Some(&1));
}

#[test]
fn fourth_character_brings_the_key_three_back() {
    let stats = analyze("rfvb", qwerty(), "sfs", &no_rules(), &both()).unwrap();
    assert_eq!(stats.bigrams, 3);
    assert_eq!(stats.sfb, 2);
    assert_eq!(stats.skipgrams, 2);
    assert_eq!(stats.sfs, 1 + 1 + 1);
    assert_eq!(stats.lss, 0);
    assert_eq!(stats.fspeed, 90 + 90 + 36 + 18);
    assert_eq!(stats.ngram_table.get(&['r', 'v', ' ']), Some(&1));
    assert_eq!(stats.ngram_table.get(&['f', 'b', ' ']), Some(&1));
    assert_eq!(stats.ngram_table.len(), 2);
}

#[test]
fn report_collects_the_shown_bigrams() {
    let stats = analyze("brbrxbr", qwerty(), "sfb", &no_rules(), &both()).unwrap();
    assert_eq!(stats.ngram_table.get(&['b', 'r', ' ']), Some(&3));
    assert_eq!(stats.ngram_table.get(&['r', 'b', ' ']), Some(&1));
    assert_eq!(stats.ngram_table.len(), 2);
    assert_eq!(stats.sfb, 4);
    let plain = analyze("brbrxbr", qwerty(), "analyze", &no_rules(), &both()).unwrap();
    assert_eq!(plain.sfb, stats.sfb);
    assert_eq!(plain.score, stats.score);
    assert_eq!(plain.fspeed, stats.fspeed);
    assert!(plain.ngram_table.is_empty());
}

#[test]
fn analysis_is_the_same_twice() {
    let corpus = "the_quick_brown_fox_jumps_over_the_lazy_dog";
    let mut rules = AHashMap::new();
    rules.insert('t', 'h');
    rules.insert('o', 'w');
    let one = analyze(corpus, starred(), "sfs", &rules, &both()).unwrap();
    let two = analyze(corpus, starred(), "sfs", &rules, &both()).unwrap();
    assert_eq!(one.score, two.score);
    assert_eq!(
        (one.fspeed, one.sfb, one.sfr, one.sfs, one.lsb, one.lss, one.fsb, one.fss, one.hsb, one.hss),
        (two.fspeed, two.sfb, two.sfr, two.sfs, two.lsb, two.lss, two.fsb, two.fss, two.hsb, two.hss)
    );
    assert_eq!(
        (one.inroll, one.outroll, one.alt, one.inthreeroll, one.outthreeroll, one.weak_red, one.red),
        (two.inroll, two.outroll, two.alt, two.inthreeroll, two.outthreeroll, two.weak_red, two.red)
    );
    assert_eq!(
        (one.heatmap, one.thumb_stat, one.bigrams, one.skipgrams, one.trigrams),
        (two.heatmap, two.thumb_stat, two.bigrams, two.skipgrams, two.trigrams)
    );
    assert_eq!(one.ngram_table, two.ngram_table);
    assert_eq!(one.bad_bigrams, two.bad_bigrams);
}

#[test]
fn rules_change_what_is_typed() {
    let mut rules = AHashMap::new();
    rules.insert('b', 'r');
    let plain = analyze("brbr", starred(), "analyze", &no_rules(), &both()).unwrap();
    let ruled = analyze("brbr", starred(), "analyze", &rules, &both()).unwrap();
    assert_eq!(plain.sfb, 3);
    assert_eq!(ruled.sfb, 0);
    assert_eq!(ruled.bigrams, 3);
    assert_eq!(ruled.heatmap, 9 + 8 + 9 + 8);
}

#[test]
fn repeated_character_in_the_arrangement_is_refused() {
    let mut layout = qwerty();
    layout[1] = 'q';
    let result = analyze("abc", layout, "analyze", &no_rules(), &both());
    assert_eq!(result.err(), Some(AnalysisError::Configuration));
    let result = analyze("", layout, "analyze", &no_rules(), &both());
    assert_eq!(result.err(), Some(AnalysisError::Configuration));
}

#[test]
fn first_unknown_character_is_reported() {
    let result = analyze("abé#c", qwerty(), "analyze", &no_rules(), &both());
    assert_eq!(result.err(), Some(AnalysisError::Lookup('é')));
    let mut rules = AHashMap::new();
    rules.insert('t', 'h');
    let result = analyze("the", qwerty(), "analyze", &rules, &both());
    assert_eq!(result.err(), Some(AnalysisError::Lookup('*')));
    assert!(analyze("tea", qwerty(), "analyze", &rules, &both()).is_ok());
}

#[test]
fn trigrams_filed_under_nothing_are_taken_off_without_thumbs() {
    let none = Config { thumb_alt: false, thumb_roll: false };
    let stats = analyze("a_s⎵d", qwerty(), "analyze", &no_rules(), &none).unwrap();
    assert_eq!(stats.thumb_stat, 3);
    assert_eq!(stats.trigrams, 0);
    let stats = analyze("a_s⎵d", qwerty(), "analyze", &no_rules(), &both()).unwrap();
    assert_eq!(stats.thumb_stat, 0);
    assert_eq!(stats.trigrams, 3);
    assert_eq!(stats.alt, 1);
}

#[test]
fn raw_text_is_filtered_to_the_layout() {
    let out: String = filter_corpus("The Fox\n\nis #1\nÉ", &starred()).into_iter().collect();
    assert_eq!(out, "*the_*foxis_");
    let out: String = filter_corpus("a\n\n\nb\n\n\n\nZ", &starred()).into_iter().collect();
    assert_eq!(out, "ab*z");
    let plain = qwerty();
    let out: String = filter_corpus("Ab c", &plain).into_iter().collect();
    assert_eq!(out, "ab_c");
    assert!(filter_corpus("", &plain).is_empty());
}

#[test]
fn corpus_is_carried_between_layouts() {
    let old = starred();
    let mut new = starred();
    new.swap(0, 1);
    new.swap(10, 11);
    let mut new_rules = AHashMap::new();
    new_rules.insert('t', 'h');
    let mut old_rules = AHashMap::new();
    old_rules.insert('t', 'e');
    let out: String = convert("the_wall_sat", &new, &old, &new_rules, &old_rules).into_iter().collect();
    assert_eq!(out, "tee qsll ast");
    let none = AHashMap::new();
    let out: String = convert("a_b", &old, &old, &none, &none).into_iter().collect();
    assert_eq!(out, "a b");
    let out: String = convert("aab", &old, &old, &none, &none).into_iter().collect();
    assert_eq!(out, "aab");
}
