//! The hash tables of the `ahash` crate that the library keeps its lookups and
//! counts in, with the contracts that the rest of the library relies on.
//!
//! Nothing here is proved. Each function below makes one call into the table
//! and states what the documentation of that call promises, over the name that
//! stands for what the table holds.
use vstd::prelude::*;
use ahash::AHashMap;
use ahash::RandomState;
use crate::Finger;
use crate::Key;

verus! {

/// `ahash::RandomState`: the hasher of the tables, carried unseen.
#[verifier::external_type_specification]
#[verifier::external_body]
pub struct ExRandomState(RandomState);

/// `ahash::AHashMap`: a table, seen only through the names below.
#[verifier::external_type_specification]
#[verifier::external_body]
#[verifier::reject_recursive_types(K)]
#[verifier::reject_recursive_types(V)]
#[verifier::reject_recursive_types(S)]
pub struct ExAHashMap<K, V, S>(AHashMap<K, V, S>);

/// The key that a layout table holds for each character.
pub uninterp spec fn table_entries(table: AHashMap<char, Key>) -> Map<char, Key>;

/// The weight that a table of finger weights holds for each finger.
pub uninterp spec fn weight_entries(weights: AHashMap<Finger, i64>) -> Map<Finger, i64>;

/// The count that an n-gram table holds for each triple of characters.
pub uninterp spec fn ngram_entries(ngrams: AHashMap<[char; 3], u32>) -> Map<(char, char, char), u32>;

/// The count that a bigram table holds for each ordered pair of characters.
pub uninterp spec fn bigram_entries(bigrams: AHashMap<[char; 2], u32>) -> Map<(char, char), u32>;

/// The second character that a rule set holds for each first character.
pub uninterp spec fn rule_entries(rules: AHashMap<char, char>) -> Map<char, char>;

/// `AHashMap::new`: the table it makes holds nothing.
#[verifier::external_body]
pub(crate) fn table_new() -> (fresh: AHashMap<char, Key>)
    ensures
        (table_entries(fresh) == Map::<char, Key>::empty()),
{
    AHashMap::new()
}

/// `AHashMap::insert`: afterwards the table holds `key` for `letter`, in place
/// of what it held for `letter` before, and everything else as before.
#[verifier::external_body]
pub(crate) fn table_insert(table: &mut AHashMap<char, Key>, letter: char, key: Key)
    ensures
        table_entries(*final(table)) == table_entries(*old(table)).insert(letter, key),
{
    table.insert(letter, key);
}

/// `AHashMap::get`: the key held for `letter`, or `None` where the table
/// holds none.
#[verifier::external_body]
pub(crate) fn table_get(table: &AHashMap<char, Key>, letter: char) -> (found: Option<Key>)
    ensures
        found == (if table_entries(*table).dom().contains(letter) {
            Some(table_entries(*table)[letter])
        } else {
            None
        }),
{
    table.get(&letter).copied()
}

/// `AHashMap::new`: the table it makes holds nothing.
#[verifier::external_body]
pub(crate) fn weights_new() -> (fresh: AHashMap<Finger, i64>)
    ensures
        (weight_entries(fresh) == Map::<Finger, i64>::empty()),
{
    AHashMap::new()
}

/// `AHashMap::insert`: afterwards the table holds `weight` for `finger`, in
/// place of what it held for `finger` before, and everything else as before.
#[verifier::external_body]
pub(crate) fn weights_insert(weights: &mut AHashMap<Finger, i64>, finger: Finger, weight: i64)
    ensures
        weight_entries(*final(weights)) == weight_entries(*old(weights)).insert(finger, weight),
{
    weights.insert(finger, weight);
}

/// `AHashMap::get`: the weight held for `finger`, or `None` where the table
/// holds none.
#[verifier::external_body]
pub(crate) fn weights_get(weights: &AHashMap<Finger, i64>, finger: Finger) -> (found: Option<i64>)
    ensures
        found == (if weight_entries(*weights).dom().contains(finger) {
            Some(weight_entries(*weights)[finger])
        } else {
            None
        }),
{
    weights.get(&finger).copied()
}

/// `AHashMap::new`: the table it makes holds nothing.
#[verifier::external_body]
pub(crate) fn ngrams_new() -> (fresh: AHashMap<[char; 3], u32>)
    ensures
        (ngram_entries(fresh) == Map::<(char, char, char), u32>::empty()),
{
    AHashMap::new()
}

/// `AHashMap::insert`: afterwards the table holds `count` for the triple, in
/// place of what it held for the triple before, and everything else as before.
#[verifier::external_body]
pub(crate) fn ngrams_insert(ngrams: &mut AHashMap<[char; 3], u32>, gram: (char, char, char), count: u32)
    ensures
        ngram_entries(*final(ngrams)) == ngram_entries(*old(ngrams)).insert(gram, count),
{
    ngrams.insert([gram.0, gram.1, gram.2], count);
}

/// `AHashMap::get`: the count held for the triple, or `None` where the table
/// holds none.
#[verifier::external_body]
pub(crate) fn ngrams_get(ngrams: &AHashMap<[char; 3], u32>, gram: (char, char, char)) -> (found: Option<u32>)
    ensures
        found == (if ngram_entries(*ngrams).dom().contains(gram) {
            Some(ngram_entries(*ngrams)[gram])
        } else {
            None
        }),
{
    ngrams.get(&[gram.0, gram.1, gram.2]).copied()
}

/// `AHashMap::clone`: the copy holds what the table holds.
#[verifier::external_body]
pub(crate) fn ngrams_clone(ngrams: &AHashMap<[char; 3], u32>) -> (copy: AHashMap<[char; 3], u32>)
    ensures
        ngram_entries(copy) == ngram_entries(*ngrams),
{
    ngrams.clone()
}

/// `AHashMap::new`: the table it makes holds nothing.
#[verifier::external_body]
pub(crate) fn bigrams_new() -> (fresh: AHashMap<[char; 2], u32>)
    ensures
        (bigram_entries(fresh) == Map::<(char, char), u32>::empty()),
{
    AHashMap::new()
}

/// `AHashMap::insert`: afterwards the table holds `count` for the pair, in
/// place of what it held for the pair before, and everything else as before.
#[verifier::external_body]
pub(crate) fn bigrams_insert(bigrams: &mut AHashMap<[char; 2], u32>, pair: (char, char), count: u32)
    ensures
        bigram_entries(*final(bigrams)) == bigram_entries(*old(bigrams)).insert(pair, count),
{
    bigrams.insert([pair.0, pair.1], count);
}

/// `AHashMap::get`: the count held for the pair, or `None` where the table
/// holds none.
#[verifier::external_body]
pub(crate) fn bigrams_get(bigrams: &AHashMap<[char; 2], u32>, pair: (char, char)) -> (found: Option<u32>)
    ensures
        found == (if bigram_entries(*bigrams).dom().contains(pair) {
            Some(bigram_entries(*bigrams)[pair])
        } else {
            None
        }),
{
    bigrams.get(&[pair.0, pair.1]).copied()
}

/// `AHashMap::clone`: the copy holds what the table holds.
#[verifier::external_body]
pub(crate) fn bigrams_clone(bigrams: &AHashMap<[char; 2], u32>) -> (copy: AHashMap<[char; 2], u32>)
    ensures
        bigram_entries(copy) == bigram_entries(*bigrams),
{
    bigrams.clone()
}

/// `AHashMap::into_iter`: every pair that the table holds comes out once, with
/// its count, and nothing else comes out. The order is the table's own and
/// nothing is claimed of it.
#[verifier::external_body]
pub(crate) fn bigrams_list(bigrams: AHashMap<[char; 2], u32>) -> (list: Vec<((char, char), u32)>)
    ensures
        forall|i: int|
            0 <= i < list@.len() ==> bigram_entries(bigrams).contains_pair(
                #[trigger] list@[i].0,
                list@[i].1,
            ),
        forall|i: int, j: int|
            0 <= i < j < list@.len() ==> (#[trigger] list@[i]).0 != (#[trigger] list@[j]).0,
        forall|pair: (char, char)| #[trigger]
            bigram_entries(bigrams).dom().contains(pair) ==> exists|i: int|
                0 <= i < list@.len() && (#[trigger] list@[i]).0 == pair,
{
    bigrams.into_iter().map(|(pair, count)| ((pair[0], pair[1]), count)).collect()
}

/// `AHashMap::new`: the rule set it makes holds nothing.
#[verifier::external_body]
pub(crate) fn rules_new() -> (fresh: AHashMap<char, char>)
    ensures
        (rule_entries(fresh) == Map::<char, char>::empty()),
{
    AHashMap::new()
}

/// `AHashMap::insert`: afterwards the rule set holds `second` for `first`, in
/// place of what it held for `first` before, and everything else as before.
#[verifier::external_body]
pub(crate) fn rules_insert(rules: &mut AHashMap<char, char>, first: char, second: char)
    ensures
        rule_entries(*final(rules)) == rule_entries(*old(rules)).insert(first, second),
{
    rules.insert(first, second);
}

/// `AHashMap::get`: the second character held for `first`, or `None` where
/// the rule set holds none.
#[verifier::external_body]
pub(crate) fn rules_get(rules: &AHashMap<char, char>, first: char) -> (found: Option<char>)
    ensures
        found == (if rule_entries(*rules).dom().contains(first) {
            Some(rule_entries(*rules)[first])
        } else {
            None
        }),
{
    rules.get(&first).copied()
}

/// `AHashMap::clone`: the copy holds what the rule set holds.
#[verifier::external_body]
pub(crate) fn rules_clone(rules: &AHashMap<char, char>) -> (copy: AHashMap<char, char>)
    ensures
        rule_entries(copy) == rule_entries(*rules),
{
    rules.clone()
}

} // verus!
