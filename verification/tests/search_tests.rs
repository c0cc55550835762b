use ahash::AHashMap;
use chogalyzer::generation::{
    annealing_assess, attempt_swap, calibration_scores, chosen_move, column_swap, compare_layouts,
    draw_range, evaluate, find_best_swap, generate, generate_from, get_magic_rules, mine_text, next_plan, propose, random_move, randomise_layout,
    sample_scores, settle, suits, swap_slots, try_move, Move, Plan, Termination, TARGET_SCORE,
};
use chogalyzer::stats::analyze;
use chogalyzer::{load_layout, load_magic_rules};
use chogalyzer::{Algorithm, AnalysisError, Config, Layout, Stats};

fn arrangement(text: &str) -> [char; 32] {
    let letters: Vec<char> = text.chars().collect();
    assert_eq!(letters.len(), 32);
    let mut layout = [' '; 32];
    for (i, c) in letters.iter().enumerate() {
        layout[i] = *c;
    }
    layout
}

fn starred() -> [char; 32] {
    arrangement("qwertyuiopasdfghjkl;zxcvbnm,.*⎵_")
}

fn both() -> Config {
    Config { thumb_alt: true, thumb_roll: true }
}

fn letters(text: &str) -> Vec<char> {
    text.chars().collect()
}

fn rules_of(pairs: &[(char, char)]) -> AHashMap<char, char> {
    let mut rules = AHashMap::new();
    for (a, b) in pairs {
        rules.insert(*a, *b);
    }
    rules
}

fn scored(score: i64) -> Layout {
    let mut stats = Stats::default();
    stats.score = score;
    Layout { layout: starred(), stats, magic: AHashMap::new() }
}

fn sorted(layout: &[char; 32]) -> Vec<char> {
    let mut all = layout.to_vec();
    all.sort();
    all
}

const CORPUS: &str = "the_quick_brown_fox_jumps_over_the_lazy_dog";

#[test]
fn rules_are_mined_by_falling_count() {
    let corpus = "brbrbrdede";
    assert_eq!(get_magic_rules(corpus, starred(), 0).unwrap(), rules_of(&[]));
    assert_eq!(get_magic_rules(corpus, starred(), 1).unwrap(), rules_of(&[('b', 'r')]));
    assert_eq!(
        get_magic_rules(corpus, starred(), 2).unwrap(),
        rules_of(&[('b', 'r'), ('d', 'e')])
    );
    assert_eq!(
        get_magic_rules(corpus, starred(), 3).unwrap(),
        rules_of(&[('b', 'r'), ('d', 'e'), ('r', 'b')])
    );
    assert_eq!(
        get_magic_rules(corpus, starred(), 10).unwrap(),
        rules_of(&[('b', 'r'), ('d', 'e'), ('r', 'b'), ('e', 'd')])
    );
}

#[test]
fn ties_between_rules_go_to_the_earlier_pair() {
    let corpus = "rf_fr_vf_fv";
    let rules = get_magic_rules(corpus, starred(), 1).unwrap();
    assert_eq!(rules, rules_of(&[('f', 'r')]));
    let rules = get_magic_rules(corpus, starred(), 2).unwrap();
    assert_eq!(rules, rules_of(&[('f', 'r'), ('r', 'f')]));
}

#[test]
fn repeats_and_plain_bigrams_make_no_rules() {
    assert_eq!(get_magic_rules("aaaa_a_a", starred(), 5).unwrap(), rules_of(&[]));
    assert_eq!(get_magic_rules("", starred(), 5).unwrap(), rules_of(&[]));
    assert_eq!(get_magic_rules("b", starred(), 5).unwrap(), rules_of(&[]));
}

#[test]
fn mining_is_the_same_twice() {
    let one = get_magic_rules(CORPUS, starred(), 6).unwrap();
    let two = get_magic_rules(CORPUS, starred(), 6).unwrap();
    assert_eq!(one, two);
    assert!(one.len() <= 6);
    assert!(!one.is_empty());
}

#[test]
fn mining_refuses_what_analysis_refuses() {
    let mut layout = starred();
    layout[3] = 'q';
    assert_eq!(get_magic_rules("ab", layout, 3).err(), Some(AnalysisError::Configuration));
    assert_eq!(get_magic_rules("ab#é", starred(), 3).err(), Some(AnalysisError::Lookup('#')));
    assert!(mine_text(&letters("ab"), &starred(), 3).is_ok());
}

#[test]
fn corpus_suits_an_arrangement_with_all_its_characters() {
    assert!(suits(&starred(), &letters(CORPUS), 3));
    assert!(suits(&starred(), &letters(""), 3));
    assert!(!suits(&starred(), &letters("abc#"), 3));
    assert!(!suits(&starred(), &letters("abc#"), 0));
    let mut twice = starred();
    twice[0] = 'w';
    assert!(!suits(&twice, &letters("abc"), 3));
    assert!(!suits(&twice, &letters("abc"), 0));
}

#[test]
fn magic_key_is_needed_only_where_rules_are_mined() {
    let plain = arrangement("qwertyuiopasdfghjkl;zxcvbnm,./⎵_");
    assert!(!suits(&plain, &letters("abc"), 1));
    assert!(!suits(&plain, &letters("abc"), 10));
    assert!(suits(&plain, &letters("abc"), 0));
    assert!(suits(&plain, &letters("thequickbrownfox⎵"), 0));
    assert!(!suits(&plain, &letters("the*"), 0));
    let corpus = letters("thequickbrownfox⎵");
    let candidate = evaluate(plain, &corpus, 0, &both());
    assert!(candidate.magic.is_empty());
    assert_eq!(candidate.stats.bigrams, 16);
    assert_eq!(candidate.stats.sfb, 1);
    let direct = analyze("thequickbrownfox⎵", plain, "generate", &rules_of(&[]), &both()).unwrap();
    assert_eq!(candidate.stats.score, direct.score);
    let (found, peak, tried) = find_best_swap(candidate.layout, &corpus, 0, &both());
    assert_eq!(tried, 496);
    assert!(found.stats.score >= candidate.stats.score);
    assert_eq!(peak, found.layout == candidate.layout);
    assert!(found.magic.is_empty());
}

#[test]
fn evaluation_mines_and_analyzes() {
    let corpus = letters("brbrbrdede");
    let candidate = evaluate(starred(), &corpus, 2, &both());
    assert_eq!(candidate.layout, starred());
    assert_eq!(candidate.magic, rules_of(&[('b', 'r'), ('d', 'e')]));
    let direct = analyze("brbrbrdede", starred(), "generate", &candidate.magic, &both()).unwrap();
    assert_eq!(candidate.stats.score, direct.score);
    assert_eq!(candidate.stats.sfb, direct.sfb);
    assert_eq!(candidate.stats.sfb, 0);
    assert_eq!(candidate.stats.bigrams, 9);
}

#[test]
fn slots_and_columns_are_exchanged() {
    let layout = starred();
    let out = swap_slots(layout, 0, 31);
    assert_eq!(out[0], '_');
    assert_eq!(out[31], 'q');
    assert_eq!(&out[1..31], &layout[1..31]);
    assert_eq!(swap_slots(layout, 7, 7), layout);
    let out = column_swap(layout, 1, 8);
    assert_eq!((out[1], out[11], out[21]), ('o', 'l', '.'));
    assert_eq!((out[8], out[18], out[28]), ('w', 's', 'x'));
    assert_eq!((out[0], out[30], out[31]), ('q', '⎵', '_'));
    assert_eq!(sorted(&out), sorted(&layout));
    assert_eq!(column_swap(layout, 3, 3), layout);
}

#[test]
fn move_leads_to_the_candidate_of_the_new_arrangement() {
    let corpus = letters(CORPUS);
    let start = evaluate(starred(), &corpus, 3, &both());
    let next = try_move(&start, Move::Slots(2, 17), &corpus, 3, &both());
    assert_eq!(next.layout, swap_slots(starred(), 2, 17));
    let direct = evaluate(next.layout, &corpus, 3, &both());
    assert_eq!(next.stats.score, direct.stats.score);
    assert_eq!(next.magic, direct.magic);
    let next = try_move(&start, Move::Columns(1, 2), &corpus, 3, &both());
    assert_eq!(next.layout, column_swap(starred(), 1, 2));
}

#[test]
fn random_moves_stay_on_the_board() {
    let mut slots = 0;
    let mut columns = 0;
    for _ in 0..400 {
        match random_move() {
            Move::Slots(i, j) => {
                assert!(i < 32 && j < 32);
                slots += 1;
            }
            Move::Columns(a, b) => {
                assert!(a < 10 && b < 10);
                columns += 1;
            }
        }
    }
    assert!(slots > columns);
    assert!(columns > 0);
}

#[test]
fn attempt_keeps_the_characters() {
    let corpus = letters(CORPUS);
    let start = evaluate(starred(), &corpus, 3, &both());
    let mut moved = false;
    for _ in 0..20 {
        let next = attempt_swap(&start, CORPUS, 3, &both());
        assert_eq!(sorted(&next.layout), sorted(&starred()));
        let direct = evaluate(next.layout, &corpus, 3, &both());
        assert_eq!(next.stats.score, direct.stats.score);
        moved = moved || next.layout != starred();
    }
    assert!(moved);
}

#[test]
fn shuffle_keeps_the_characters() {
    let corpus = letters(CORPUS);
    let mut mixed = false;
    for _ in 0..5 {
        let next = randomise_layout(starred(), &corpus, 3, &both());
        assert_eq!(sorted(&next.layout), sorted(&starred()));
        let direct = evaluate(next.layout, &corpus, 3, &both());
        assert_eq!(next.stats.score, direct.stats.score);
        mixed = mixed || next.layout != starred();
    }
    assert!(mixed);
}

#[test]
fn climb_tries_every_pair_and_never_falls() {
    let corpus = letters(CORPUS);
    let start = evaluate(starred(), &corpus, 3, &both());
    let before = start.stats.score;
    let (best, peak, evaluations) = find_best_swap(start.layout, &corpus, 3, &both());
    assert_eq!(evaluations, 32 * 31 / 2);
    assert!(best.stats.score >= before);
    assert_eq!(peak, best.layout == starred());
    let mut highest = before;
    let mut first = starred();
    for i in 0..32 {
        for j in (i + 1)..32 {
            let tried = evaluate(swap_slots(starred(), i, j), &corpus, 3, &both());
            if tried.stats.score > highest {
                highest = tried.stats.score;
                first = tried.layout;
            }
        }
    }
    assert_eq!(best.stats.score, highest);
    assert_eq!(best.layout, first);
}

fn climb_to_peak(corpus: &Vec<char>) -> Layout {
    let mut current = evaluate(starred(), corpus, 2, &both());
    let mut last = current.stats.score;
    for _ in 0..200 {
        let (best, peak, _) = find_best_swap(current.layout, corpus, 2, &both());
        assert!(best.stats.score >= last);
        last = best.stats.score;
        current = best;
        if peak {
            return current;
        }
    }
    panic!("no peak within 200 rounds");
}

#[test]
fn hill_climbing_reaches_a_peak_with_rising_scores() {
    let corpus = letters("the_quick_brown_fox");
    let peak = climb_to_peak(&corpus);
    let (again, at_peak, _) = find_best_swap(peak.layout, &corpus, 2, &both());
    assert!(at_peak);
    assert_eq!(again.layout, peak.layout);
}

#[test]
fn greedy_at_a_peak_keeps_its_layout() {
    let corpus = letters("the_quick_brown_fox");
    let peak = climb_to_peak(&corpus);
    let kept = peak.layout;
    let mut current = peak;
    for i in 0..32 {
        for j in 0..32 {
            let proposal = try_move(&current, Move::Slots(i, j), &corpus, 2, &both());
            let (next, stop) = settle(
                Algorithm::GreedySwapping,
                false,
                i64::MAX,
                current,
                proposal,
                false,
                true,
            );
            assert_eq!(stop, None);
            assert_eq!(next.layout, kept);
            current = next;
        }
    }
}

#[test]
fn samples_walk_through_the_exchanges() {
    let corpus = letters(CORPUS);
    let mut candidate = evaluate(starred(), &corpus, 3, &both());
    let pairs = vec![(0, 1), (5, 20), (0, 1)];
    let scores = sample_scores(&mut candidate, &pairs, &corpus, 3, &both());
    let one = swap_slots(starred(), 0, 1);
    let two = swap_slots(one, 5, 20);
    let three = swap_slots(two, 0, 1);
    assert_eq!(
        scores,
        vec![
            evaluate(one, &corpus, 3, &both()).stats.score,
            evaluate(two, &corpus, 3, &both()).stats.score,
            evaluate(three, &corpus, 3, &both()).stats.score,
        ]
    );
    assert_eq!(candidate.layout, three);
    assert_eq!(candidate.layout, swap_slots(starred(), 5, 20));
    assert_eq!(candidate.stats.score, scores[2]);
    let none = sample_scores(&mut candidate, &Vec::new(), &corpus, 3, &both());
    assert!(none.is_empty());
    assert_eq!(candidate.layout, three);
}

#[test]
fn calibration_returns_ten_scores() {
    let corpus = letters(CORPUS);
    let mut candidate = evaluate(starred(), &corpus, 3, &both());
    let scores = calibration_scores(&mut candidate, CORPUS, 3, &both());
    assert_eq!(scores.len(), 10);
    assert_eq!(sorted(&candidate.layout), sorted(&starred()));
    assert_eq!(candidate.stats.score, scores[9]);
    assert_eq!(candidate.stats.score, evaluate(candidate.layout, &corpus, 3, &both()).stats.score);
}

#[test]
fn first_of_the_highest_workers_wins() {
    let layouts = vec![scored(3), scored(9), scored(-4), scored(9), scored(8)];
    assert_eq!(compare_layouts(&layouts), 1);
    let layouts = vec![scored(-3)];
    assert_eq!(compare_layouts(&layouts), 0);
    let layouts = vec![scored(5), scored(5), scored(5)];
    assert_eq!(compare_layouts(&layouts), 0);
    let layouts = vec![scored(1), scored(2), scored(3)];
    assert_eq!(compare_layouts(&layouts), 2);
}

#[test]
fn plan_follows_the_strategy() {
    assert_eq!(next_plan(Algorithm::HillClimbing, false, 0, 5), Ok(Plan::Climb));
    assert_eq!(next_plan(Algorithm::Hybrid, true, 0, 5), Ok(Plan::Climb));
    assert_eq!(next_plan(Algorithm::Hybrid, false, 0, 5), Ok(Plan::Step));
    assert_eq!(next_plan(Algorithm::SimAnnealing, true, 4, 5), Ok(Plan::Step));
    assert_eq!(next_plan(Algorithm::GreedySwapping, false, 0, 5), Ok(Plan::Step));
    assert_eq!(next_plan(Algorithm::RandomLayout, false, 0, 5), Ok(Plan::Shuffle));
    assert_eq!(next_plan(Algorithm::RandomLayout, false, 5, 5), Err(Termination::BudgetExhausted));
    assert_eq!(next_plan(Algorithm::HillClimbing, false, 0, 0), Err(Termination::BudgetExhausted));
}

#[test]
fn annealing_takes_better_proposals_and_lucky_ones() {
    let low = scored(1).stats;
    let high = scored(2).stats;
    assert!(annealing_assess(&low, &high, false));
    assert!(annealing_assess(&high, &low, true));
    assert!(!annealing_assess(&high, &low, false));
    assert!(!annealing_assess(&low, &scored(1).stats, false));
}

#[test]
fn worker_stops_at_a_peak_and_at_the_target() {
    let (out, stop) = settle(Algorithm::HillClimbing, false, TARGET_SCORE, scored(5), scored(5), true, false);
    assert_eq!((out.stats.score, stop), (5, Some(Termination::Converged)));
    let (out, stop) = settle(Algorithm::Hybrid, true, TARGET_SCORE, scored(5), scored(5), true, false);
    assert_eq!((out.stats.score, stop), (5, Some(Termination::Converged)));
    let (out, stop) = settle(Algorithm::HillClimbing, false, TARGET_SCORE, scored(5), scored(7), false, false);
    assert_eq!((out.stats.score, stop), (7, None));
    let (out, stop) = settle(Algorithm::HillClimbing, false, TARGET_SCORE, scored(5), scored(10000), false, false);
    assert_eq!((out.stats.score, stop), (10000, Some(Termination::TargetReached)));
    let (out, stop) = settle(Algorithm::GreedySwapping, false, TARGET_SCORE, scored(5), scored(10001), false, false);
    assert_eq!((out.stats.score, stop), (10001, Some(Termination::TargetReached)));
}

#[test]
fn worker_takes_or_drops_a_proposal() {
    let (out, stop) = settle(Algorithm::GreedySwapping, false, TARGET_SCORE, scored(5), scored(5), false, true);
    assert_eq!((out.stats.score, stop), (5, None));
    let (out, stop) = settle(Algorithm::GreedySwapping, false, TARGET_SCORE, scored(5), scored(4), true, true);
    assert_eq!((out.stats.score, stop), (5, None));
    let (out, stop) = settle(Algorithm::RandomLayout, false, TARGET_SCORE, scored(5), scored(6), false, false);
    assert_eq!((out.stats.score, stop), (6, None));
    let (out, stop) = settle(Algorithm::RandomLayout, true, TARGET_SCORE, scored(5), scored(4), false, true);
    assert_eq!((out.stats.score, stop), (5, None));
    let (out, stop) = settle(Algorithm::SimAnnealing, false, TARGET_SCORE, scored(5), scored(4), false, true);
    assert_eq!((out.stats.score, stop), (4, None));
    let (out, stop) = settle(Algorithm::SimAnnealing, true, TARGET_SCORE, scored(5), scored(4), true, false);
    assert_eq!((out.stats.score, stop), (5, None));
    let (out, stop) = settle(Algorithm::Hybrid, false, TARGET_SCORE, scored(5), scored(4), false, true);
    assert_eq!((out.stats.score, stop), (4, None));
    let (out, stop) = settle(Algorithm::Hybrid, false, TARGET_SCORE, scored(5), scored(4), true, false);
    assert_eq!((out.stats.score, stop), (5, None));
    let (out, stop) = settle(Algorithm::Hybrid, true, TARGET_SCORE, scored(5), scored(4), false, false);
    assert_eq!((out.stats.score, stop), (4, None));
}

#[test]
fn proposals_follow_the_plan() {
    let corpus = letters(CORPUS);
    let current = evaluate(starred(), &corpus, 3, &both());
    let (found, peak) = propose(Plan::Climb, starred(), &current, CORPUS, 3, &both());
    assert!(found.stats.score >= current.stats.score);
    assert_eq!(peak, found.layout == current.layout);
    let (found, peak) = propose(Plan::Shuffle, starred(), &current, CORPUS, 3, &both());
    assert!(!peak);
    assert_eq!(sorted(&found.layout), sorted(&starred()));
    let (found, peak) = propose(Plan::Step, starred(), &current, CORPUS, 3, &both());
    assert!(!peak);
    assert_eq!(sorted(&found.layout), sorted(&starred()));
    assert_eq!(found.stats.score, evaluate(found.layout, &corpus, 3, &both()).stats.score);
}

#[test]
fn layout_file_names_thirty_two_keys() {
    let text = "q w e r t  y u i o p\na s d f g  h j k l ;\nz x c v b  n m , . *\n      ⎵ _\nth\n\nbr\n";
    assert_eq!(load_layout(text), Ok(starred()));
    assert_eq!(load_layout("qwertyuiop\nasdfghjkl;\nzxcvbnm,.*\n⎵_"), Ok(starred()));
    assert_eq!(load_layout("qwertyuiop\nasdfghjkl;\nzxcvbnm,.*\n⎵"), Err(AnalysisError::Configuration));
    assert_eq!(load_layout("qwertyuiopasdfghjkl;zxcvbnm,.*⎵_"), Ok(starred()));
    assert_eq!(load_layout("qwertyuiopasdfghjkl;zxcvbnm,.*⎵_xyz"), Err(AnalysisError::Configuration));
    assert_eq!(load_layout(""), Err(AnalysisError::Configuration));
}

#[test]
fn layout_file_names_its_rules() {
    let text = "q w e r t  y u i o p\na s d f g  h j k l ;\nz x c v b  n m , . *\n      ⎵ _\nth\n\nbr\nt e\nxyz\n";
    let rules = load_magic_rules(text).unwrap();
    assert_eq!(rules, rules_of(&[('t', 'e'), ('b', 'r'), ('x', 'y')]));
    assert_eq!(load_magic_rules("qwertyuiop\nasdfghjkl;\nzxcvbnm,.*\n⎵_").unwrap(), rules_of(&[]));
    assert_eq!(load_magic_rules("qwertyuiop\nasdfghjkl;\nzxcvbnm,.*\n⎵_\n").unwrap(), rules_of(&[]));
    assert_eq!(load_magic_rules("").unwrap(), rules_of(&[]));
    let broken = "qwertyuiop\nasdfghjkl;\nzxcvbnm,.*\n⎵_\nth\nb\nde\n";
    assert_eq!(load_magic_rules(broken).err(), Some(AnalysisError::Configuration));
    let broken = "qwertyuiop\nasdfghjkl;\nzxcvbnm,.*\n⎵_\nth\nb";
    assert_eq!(load_magic_rules(broken).err(), Some(AnalysisError::Configuration));
    let whole = "qwertyuiop\nasdfghjkl;\nzxcvbnm,.*\n⎵_\nth\nbr";
    assert_eq!(load_magic_rules(whole).unwrap(), rules_of(&[('t', 'h'), ('b', 'r')]));
}

#[test]
fn copies_keep_counters_and_tables() {
    let corpus = letters("brbrbrdede");
    let candidate = evaluate(starred(), &corpus, 2, &both());
    let copy = candidate.clone();
    assert_eq!(copy.layout, candidate.layout);
    assert_eq!(copy.magic, candidate.magic);
    assert_eq!(copy.magic.len(), 2);
    assert_eq!(copy.stats.score, candidate.stats.score);
    assert_eq!(copy.stats.heatmap, candidate.stats.heatmap);
    let stats = analyze("brbrxbr", starred(), "sfb", &rules_of(&[]), &both()).unwrap();
    let copy = stats.clone();
    assert_eq!(copy.ngram_table, stats.ngram_table);
    assert_eq!(copy.ngram_table.len(), 2);
    assert_eq!(copy.bad_bigrams, stats.bad_bigrams);
    assert_eq!((copy.sfb, copy.bigrams, copy.trigrams), (stats.sfb, stats.bigrams, stats.trigrams));
}

#[test]
fn hill_climbing_worker_stops_at_a_peak() {
    let corpus = "the_quick_brown_fox";
    let (found, why, done) = generate(starred(), corpus, 200, 2, Algorithm::HillClimbing, &both());
    assert_eq!(why, Termination::Converged);
    assert!(1 <= done && done <= 200);
    assert_eq!(sorted(&found.layout), sorted(&starred()));
    let text = letters(corpus);
    let (again, peak, _) = find_best_swap(found.layout, &text, 2, &both());
    assert!(peak);
    assert_eq!(again.layout, found.layout);
    assert_eq!(found.stats.score, evaluate(found.layout, &text, 2, &both()).stats.score);
}

#[test]
fn worker_without_iterations_keeps_its_start() {
    for algorithm in [Algorithm::HillClimbing, Algorithm::GreedySwapping, Algorithm::RandomLayout] {
        let (found, why, done) = generate(starred(), CORPUS, 0, 3, algorithm, &both());
        assert_eq!(why, Termination::BudgetExhausted);
        assert_eq!(done, 0);
        assert_eq!(sorted(&found.layout), sorted(&starred()));
        let direct = evaluate(found.layout, &letters(CORPUS), 3, &both());
        assert_eq!(found.stats.score, direct.stats.score);
        assert_eq!(found.magic, direct.magic);
    }
}

#[test]
fn greedy_and_random_workers_use_up_their_iterations() {
    for algorithm in [Algorithm::GreedySwapping, Algorithm::RandomLayout] {
        let (found, why, done) = generate(starred(), CORPUS, 25, 3, algorithm, &both());
        assert_eq!(why, Termination::BudgetExhausted);
        assert_eq!(done, 25);
        assert!(found.stats.score < TARGET_SCORE);
        assert_eq!(sorted(&found.layout), sorted(&starred()));
    }
}

#[test]
fn draws_make_a_move_by_their_kind() {
    for kind in 0..4 {
        assert_eq!(draw_range(kind), (0, 10));
        assert_eq!(chosen_move(kind, 0, 9), Move::Columns(0, 9));
    }
    for kind in 4..10 {
        assert_eq!(draw_range(kind), (0, 32));
        assert_eq!(chosen_move(kind, 0, 31), Move::Slots(0, 31));
    }
    assert_eq!(chosen_move(3, 1, 1), Move::Columns(1, 1));
    assert_eq!(chosen_move(4, 7, 7), Move::Slots(7, 7));
}

#[test]
fn run_without_iterations_returns_its_start() {
    let text = letters(CORPUS);
    let start = evaluate(starred(), &text, 3, &both());
    for algorithm in [Algorithm::HillClimbing, Algorithm::GreedySwapping, Algorithm::RandomLayout] {
        let (found, why, done) =
            generate_from(start.clone(), starred(), CORPUS, 0, 3, algorithm, &both());
        assert_eq!(why, Termination::BudgetExhausted);
        assert_eq!(done, 0);
        assert_eq!(found.layout, start.layout);
        assert_eq!(found.stats.score, start.stats.score);
        assert_eq!(found.magic, start.magic);
    }
}

#[test]
fn run_never_falls_below_its_start() {
    let corpus = "the_quick_brown_fox";
    let text = letters(corpus);
    let start = evaluate(starred(), &text, 2, &both());
    for algorithm in [Algorithm::GreedySwapping, Algorithm::RandomLayout] {
        let (found, why, done) =
            generate_from(start.clone(), starred(), corpus, 30, 2, algorithm, &both());
        assert!(done <= 30);
        assert!(found.stats.score >= start.stats.score);
        assert_eq!(sorted(&found.layout), sorted(&starred()));
        assert_eq!(found.stats.score, evaluate(found.layout, &text, 2, &both()).stats.score);
        if why == Termination::TargetReached {
            assert!(found.stats.score >= TARGET_SCORE);
            assert!(found.stats.score > start.stats.score);
        } else {
            assert_eq!(why, Termination::BudgetExhausted);
            assert_eq!(done, 30);
            assert!(found.layout == start.layout || found.stats.score < TARGET_SCORE);
        }
    }
    let (found, why, done) =
        generate_from(start.clone(), starred(), corpus, 2, 2, Algorithm::HillClimbing, &both());
    assert!(found.stats.score >= start.stats.score);
    assert!(1 <= done && done <= 2);
    assert!(why != Termination::BudgetExhausted || (done == 2 && found.stats.score < TARGET_SCORE));
}

#[test]
fn hill_climbing_from_a_peak_stops_at_once() {
    let corpus = "the_quick_brown_fox";
    let text = letters(corpus);
    let (peak, why, _) = generate(starred(), corpus, 200, 2, Algorithm::HillClimbing, &both());
    if why == Termination::Converged {
        let (found, again, done) =
            generate_from(peak.clone(), starred(), corpus, 5, 2, Algorithm::HillClimbing, &both());
        assert_eq!(again, Termination::Converged);
        assert_eq!(done, 1);
        assert_eq!(found.layout, peak.layout);
        assert_eq!(found.stats.score, peak.stats.score);
        let (_, at_peak, tried) = find_best_swap(peak.layout, &text, 2, &both());
        assert!(at_peak);
        assert_eq!(tried, 496);
    } else {
        assert_eq!(why, Termination::TargetReached);
        assert!(peak.stats.score >= TARGET_SCORE);
    }
}

#[test]
fn hill_climbing_follows_the_best_exchange_of_each_round() {
    let corpus = "the_quick_brown_fox";
    let text = letters(corpus);
    let start = evaluate(starred(), &text, 2, &both());
    for budget in 0..4u64 {
        let mut expected = start.clone();
        let mut reason = Termination::BudgetExhausted;
        let mut rounds = 0;
        while rounds < budget {
            rounds += 1;
            let (found, peak, _) = find_best_swap(expected.layout, &text, 2, &both());
            if peak {
                reason = Termination::Converged;
                break;
            }
            expected = found;
            if expected.stats.score >= TARGET_SCORE {
                reason = Termination::TargetReached;
                break;
            }
        }
        let (found, why, done) =
            generate_from(start.clone(), starred(), corpus, budget, 2, Algorithm::HillClimbing, &both());
        assert_eq!(found.layout, expected.layout);
        assert_eq!(found.stats.score, expected.stats.score);
        assert_eq!(why, reason);
        assert_eq!(done, rounds);
    }
}
