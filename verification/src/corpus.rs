//! Corpus text: what of a raw text a layout can type, and a corpus carried
//! from one layout to another.
use vstd::prelude::*;
use ahash::AHashMap;
use crate::tables::rule_entries;
use crate::tables::rules_get;
use crate::tables::rules_insert;
use crate::tables::rules_new;
use crate::text::chars_of;
use crate::text::exchange;
use crate::text::exchanged;
use crate::MAGIC;

verus! {

/// The key that is struck before a letter to make it a capital.
pub const SHIFT: char = '*';

/// A text without its empty lines: every pair of line breaks, found from the
/// left and never overlapping, is dropped.
pub open spec fn joined(text: Seq<char>) -> Seq<char>
    decreases text.len(),
{
    if text.len() < 2 {
        text
    } else if text[0] == '\n' && text[1] == '\n' {
        joined(text.skip(2))
    } else {
        seq![text[0]] + joined(text.skip(1))
    }
}

/// Whether a character is a capital letter of the basic alphabet.
pub open spec fn capital(c: char) -> bool {
    'A' <= c <= 'Z'
}

/// The small letter of a capital letter.
pub open spec fn small(c: char) -> char {
    ((c as u8) + 32) as char
}

/// The strokes that type a character: the blank key for a blank, the shift
/// key and the small letter for a capital, and the character itself for
/// anything else.
pub open spec fn typed(c: char) -> Seq<char> {
    if c == ' ' {
        seq!['_']
    } else if capital(c) {
        seq![SHIFT, small(c)]
    } else {
        seq![c]
    }
}

/// The strokes that type a text.
pub open spec fn spelled(text: Seq<char>) -> Seq<char>
    decreases text.len(),
{
    if text.len() == 0 {
        text
    } else {
        spelled(text.drop_last()) + typed(text.last())
    }
}

/// Of a text, the characters that stand in a layout.
pub open spec fn kept(text: Seq<char>, layout: Seq<char>) -> Seq<char>
    decreases text.len(),
{
    if text.len() == 0 {
        text
    } else if layout.contains(text.last()) {
        kept(text.drop_last(), layout).push(text.last())
    } else {
        kept(text.drop_last(), layout)
    }
}

/// What a layout can type of a raw text: the text without its empty lines,
/// spelled out in strokes, less the strokes that the layout lacks.
pub open spec fn filtered(text: Seq<char>, layout: Seq<char>) -> Seq<char> {
    kept(spelled(joined(text)), layout)
}

/// Drops the empty lines of a text.
fn join(text: &Vec<char>) -> (out: Vec<char>)
    ensures
        out@ == joined(text@),
{
    let n = text.len();
    let mut out: Vec<char> = Vec::new();
    let mut i: usize = 0;
    assert(text@.skip(0) =~= text@);
    while i < n
        invariant
            i <= n,
            n == text@.len(),
            joined(text@) == out@ + joined(text@.skip(i as int)),
        decreases n - i,
    {
        let ghost rest = text@.skip(i as int);
        let ghost before = out@;
        assert(rest[0] == text@[i as int]);
        if n - i >= 2 && text[i] == '\n' && text[i + 1] == '\n' {
            assert(rest[1] == text@[i + 1]);
            assert(rest.skip(2) =~= text@.skip(i + 2));
            i += 2;
        } else {
            out.push(text[i]);
            proof {
                assert(rest.skip(1) =~= text@.skip(i + 1));
                if rest.len() < 2 {
                    assert(joined(rest) =~= seq![rest[0]] + joined(rest.skip(1)));
                }
                assert(out@ + joined(rest.skip(1)) =~= before + (seq![rest[0]] + joined(
                    rest.skip(1),
                )));
            }
            i += 1;
        }
    }
    assert(out@ + joined(text@.skip(n as int)) =~= out@);
    out
}

/// Whether a character stands in a layout.
fn holds(layout: &[char; 32], c: char) -> (yes: bool)
    ensures
        yes == layout@.contains(c),
{
    let mut i: usize = 0;
    while i < 32
        invariant
            i <= 32,
            layout@.len() == 32,
            forall|j: int| 0 <= j < i ==> layout@[j] != c,
        decreases 32 - i,
    {
        if layout[i] == c {
            return true;
        }
        i += 1;
    }
    false
}

/// Keeps of a raw text what a layout can type.
pub fn filter_corpus(raw: &str, layout_raw: &[char; 32]) -> (corpus: Vec<char>)
    ensures
        corpus@ == filtered(raw@, layout_raw@),
{
    let text = join(&chars_of(raw));
    let mut strokes: Vec<char> = Vec::new();
    let mut i: usize = 0;
    while i < text.len()
        invariant
            i <= text@.len(),
            strokes@ == spelled(text@.take(i as int)),
        decreases text@.len() - i,
    {
        let c = text[i];
        assert(text@.take(i + 1).drop_last() =~= text@.take(i as int));
        let ghost before = strokes@;
        if c == ' ' {
            strokes.push('_');
            assert(strokes@ =~= before + typed(c));
        } else if 'A' <= c && c <= 'Z' {
            strokes.push(SHIFT);
            strokes.push(((c as u8) + 32) as char);
            assert(strokes@ =~= before + typed(c));
        } else {
            strokes.push(c);
            assert(strokes@ =~= before + typed(c));
        }
        i += 1;
    }
    assert(text@.take(text@.len() as int) =~= text@);
    let mut corpus: Vec<char> = Vec::new();
    let mut k: usize = 0;
    while k < strokes.len()
        invariant
            k <= strokes@.len(),
            corpus@ == kept(strokes@.take(k as int), layout_raw@),
        decreases strokes@.len() - k,
    {
        assert(strokes@.take(k + 1).drop_last() =~= strokes@.take(k as int));
        if holds(layout_raw, strokes[k]) {
            corpus.push(strokes[k]);
        }
        k += 1;
    }
    assert(strokes@.take(strokes@.len() as int) =~= strokes@);
    corpus
}

/// The two characters that a key and the magic key after it stand for: the
/// key's rule, or the key twice where it has no rule.
pub open spec fn stroke(rules: Map<char, char>, letter: char) -> (char, char) {
    if rules.dom().contains(letter) {
        (letter, rules[letter])
    } else {
        (letter, letter)
    }
}

/// The text with the digraphs of the first `upto` keys of a layout folded,
/// key after key, into the key and the magic key.
pub open spec fn folded(text: Seq<char>, layout: Seq<char>, rules: Map<char, char>, upto: nat) -> Seq<
    char,
>
    decreases upto,
{
    if upto == 0 {
        text
    } else {
        let letter = layout[upto - 1];
        exchanged(
            folded(text, layout, rules, (upto - 1) as nat),
            stroke(rules, letter),
            (letter, MAGIC),
        )
    }
}

/// The text with the magic strokes of the first `upto` keys of a layout
/// unfolded, key after key, into their digraphs.
pub open spec fn unfolded(text: Seq<char>, layout: Seq<char>, rules: Map<char, char>, upto: nat) -> Seq<
    char,
>
    decreases upto,
{
    if upto == 0 {
        text
    } else {
        let letter = layout[upto - 1];
        exchanged(
            unfolded(text, layout, rules, (upto - 1) as nat),
            (letter, MAGIC),
            stroke(rules, letter),
        )
    }
}

/// The character of the second layout on the slot of each of the first
/// `upto` characters of the first. A character that stands on several slots
/// goes by the last of them.
pub open spec fn places(from: Seq<char>, to: Seq<char>, upto: nat) -> Map<char, char>
    decreases upto,
{
    if upto == 0 {
        Map::empty()
    } else {
        places(from, to, (upto - 1) as nat).insert(from[upto - 1], to[upto - 1])
    }
}

/// Where a character goes: to its place, or to where it stands where it has
/// none.
pub open spec fn placed_at(places: Map<char, char>, c: char) -> char {
    if places.dom().contains(c) {
        places[c]
    } else {
        c
    }
}

/// The text with every character moved to its place.
pub open spec fn moved(text: Seq<char>, places: Map<char, char>) -> Seq<char> {
    Seq::new(text.len(), |i: int| placed_at(places, text[i]))
}

/// The text with a blank for every blank key.
pub open spec fn blanked(text: Seq<char>) -> Seq<char> {
    Seq::new(text.len(), |i: int| if text[i] == '_' { ' ' } else { text[i] })
}

/// A corpus typed on the old layout as it reads when the same keys are struck
/// on the new one: the digraphs of the new layout are folded into magic
/// strokes, every character moves from its slot on the new layout to the
/// character on that slot of the old one, the magic strokes are unfolded by
/// the rules of the old layout, and the blank keys become blanks.
pub open spec fn converted(
    corpus: Seq<char>,
    new_layout: Seq<char>,
    old_layout: Seq<char>,
    new_rules: Map<char, char>,
    old_rules: Map<char, char>,
) -> Seq<char> {
    blanked(
        unfolded(
            moved(folded(corpus, new_layout, new_rules, 32), places(new_layout, old_layout, 32)),
            old_layout,
            old_rules,
            32,
        ),
    )
}

/// The two characters that a key and the magic key after it stand for.
fn stroke_of(rules: &AHashMap<char, char>, letter: char) -> (pair: (char, char))
    ensures
        pair == stroke(rule_entries(*rules), letter),
{
    match rules_get(rules, letter) {
        Some(other) => (letter, other),
        None => (letter, letter),
    }
}

/// Carries a corpus from one layout to another.
pub fn convert(
    corpus: &str,
    new_layout: &[char; 32],
    old_layout: &[char; 32],
    new_magic_rules: &AHashMap<char, char>,
    old_magic_rules: &AHashMap<char, char>,
) -> (new_corpus: Vec<char>)
    ensures
        new_corpus@ == converted(
            corpus@,
            new_layout@,
            old_layout@,
            rule_entries(*new_magic_rules),
            rule_entries(*old_magic_rules),
        ),
{
    let mut text = chars_of(corpus);
    let mut slot: usize = 0;
    while slot < 32
        invariant
            slot <= 32,
            new_layout@.len() == 32,
            text@ == folded(corpus@, new_layout@, rule_entries(*new_magic_rules), slot as nat),
        decreases 32 - slot,
    {
        let letter = new_layout[slot];
        exchange(&mut text, stroke_of(new_magic_rules, letter), (letter, MAGIC));
        slot += 1;
    }
    let mut hash = rules_new();
    let mut slot: usize = 0;
    while slot < 32
        invariant
            slot <= 32,
            new_layout@.len() == 32,
            old_layout@.len() == 32,
            rule_entries(hash) == places(new_layout@, old_layout@, slot as nat),
        decreases 32 - slot,
    {
        rules_insert(&mut hash, new_layout[slot], old_layout[slot]);
        slot += 1;
    }
    let ghost folds = text@;
    let mut i: usize = 0;
    while i < text.len()
        invariant
            i <= text@.len(),
            text@.len() == folds.len(),
            forall|j: int| 0 <= j < i ==> text@[j] == placed_at(rule_entries(hash), folds[j]),
            forall|j: int| i <= j < text@.len() ==> text@[j] == folds[j],
        decreases text@.len() - i,
    {
        match rules_get(&hash, text[i]) {
            Some(to) => {
                text.set(i, to);
            },
            None => {},
        }
        i += 1;
    }
    assert(text@ =~= moved(folds, rule_entries(hash)));
    let ghost shifted = text@;
    let mut slot: usize = 0;
    while slot < 32
        invariant
            slot <= 32,
            old_layout@.len() == 32,
            text@ == unfolded(shifted, old_layout@, rule_entries(*old_magic_rules), slot as nat),
        decreases 32 - slot,
    {
        let letter = old_layout[slot];
        exchange(&mut text, (letter, MAGIC), stroke_of(old_magic_rules, letter));
        slot += 1;
    }
    let ghost whole = text@;
    let mut i: usize = 0;
    while i < text.len()
        invariant
            i <= text@.len(),
            text@.len() == whole.len(),
            forall|j: int|
                0 <= j < i ==> text@[j] == (if whole[j] == '_' {
                    ' '
                } else {
                    whole[j]
                }),
            forall|j: int| i <= j < text@.len() ==> text@[j] == whole[j],
        decreases text@.len() - i,
    {
        if text[i] == '_' {
            text.set(i, ' ');
        }
        i += 1;
    }
    assert(text@ =~= blanked(whole));
    text
}

} // verus!
