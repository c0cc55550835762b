//! The text of a layout file: four lines of keys, then one magic rule a line.
use vstd::prelude::*;
use ahash::AHashMap;
use crate::tables::rule_entries;
use crate::tables::rules_insert;
use crate::tables::rules_new;
use crate::text::chars_of;
use crate::AnalysisError;

verus! {

/// A text without the occurrences of one character.
pub open spec fn without(text: Seq<char>, dropped: char) -> Seq<char>
    decreases text.len(),
{
    if text.len() == 0 {
        text
    } else {
        let rest = without(text.drop_last(), dropped);
        if text.last() == dropped {
            rest
        } else {
            rest.push(text.last())
        }
    }
}

/// Drops the occurrences of one character.
fn strip(text: &Vec<char>, dropped: char) -> (out: Vec<char>)
    ensures
        out@ == without(text@, dropped),
{
    let mut out: Vec<char> = Vec::new();
    let mut i: usize = 0;
    while i < text.len()
        invariant
            i <= text@.len(),
            out@ == without(text@.take(i as int), dropped),
        decreases text@.len() - i,
    {
        assert(text@.take(i + 1).drop_last() =~= text@.take(i as int));
        if text[i] != dropped {
            out.push(text[i]);
        }
        i += 1;
    }
    assert(text@.take(text@.len() as int) =~= text@);
    out
}

/// The first `count` characters of a text, or all of a shorter one.
pub open spec fn leading(text: Seq<char>, count: int) -> Seq<char> {
    if text.len() <= count {
        text
    } else {
        text.take(count)
    }
}

/// The keys that a layout file names: of its text without the blanks, the
/// first 35 characters without the line breaks.
pub open spec fn named_keys(text: Seq<char>) -> Seq<char> {
    without(leading(without(text, ' '), 35), '\n')
}

/// Reads the arrangement of a layout file. The file names an arrangement
/// where it names 32 keys, and is refused where it names more or fewer.
pub fn load_layout(text: &str) -> (result: Result<[char; 32], AnalysisError>)
    ensures
        match result {
            Ok(layout) => named_keys(text@).len() == 32 && layout@ == named_keys(text@),
            Err(e) => named_keys(text@).len() != 32 && e == AnalysisError::Configuration,
        },
{
    let letters = strip(&chars_of(text), ' ');
    let mut head: Vec<char> = Vec::new();
    let mut i: usize = 0;
    while i < letters.len() && i < 35
        invariant
            i <= letters@.len(),
            i <= 35,
            head@ == letters@.take(i as int),
        decreases letters@.len() - i,
    {
        head.push(letters[i]);
        assert(letters@.take(i + 1) =~= letters@.take(i as int).push(letters@[i as int]));
        i += 1;
    }
    assert(head@ =~= leading(letters@, 35));
    let keys = strip(&head, '\n');
    if keys.len() != 32 {
        return Err(AnalysisError::Configuration);
    }
    let mut layout: [char; 32] = [' '; 32];
    let mut k: usize = 0;
    while k < 32
        invariant
            k <= 32,
            keys@.len() == 32,
            layout@.len() == 32,
            forall|j: int| 0 <= j < k ==> layout@[j] == keys@[j],
        decreases 32 - k,
    {
        layout[k] = keys[k];
        k += 1;
    }
    assert(layout@ =~= keys@);
    Ok(layout)
}

/// How far the reading of the rules has come: the rules read, the number of
/// characters seen on the current line, capped at two, the first character of
/// the line, and whether some line held a single character.
pub struct Reading {
    pub rules: Map<char, char>,
    pub column: int,
    pub first: char,
    pub broken: bool,
}

/// The reading after the first `upto` characters of the lines of rules. The
/// first two characters of a line make a rule; what follows them on the line
/// is passed over.
pub open spec fn read_upto(lines: Seq<char>, upto: nat) -> Reading
    decreases upto,
{
    if upto == 0 {
        Reading { rules: Map::empty(), column: 0, first: ' ', broken: false }
    } else {
        let before = read_upto(lines, (upto - 1) as nat);
        let c = lines[upto - 1];
        if c == '\n' {
            Reading { column: 0, broken: before.broken || before.column == 1, ..before }
        } else if before.column == 0 {
            Reading { column: 1, first: c, ..before }
        } else if before.column == 1 {
            Reading { rules: before.rules.insert(before.first, c), column: 2, ..before }
        } else {
            before
        }
    }
}

/// The lines of rules of a layout file: its text without the blanks, from
/// the 37th character on.
pub open spec fn rule_lines(text: Seq<char>) -> Seq<char> {
    let letters = without(text, ' ');
    if letters.len() <= 36 {
        Seq::empty()
    } else {
        letters.skip(36)
    }
}

/// The rules that a layout file names, or nothing where one of the lines of
/// rules holds a single character.
pub open spec fn named_rules(text: Seq<char>) -> Option<Map<char, char>> {
    let lines = rule_lines(text);
    let end = read_upto(lines, lines.len());
    if end.broken || end.column == 1 {
        None
    } else {
        Some(end.rules)
    }
}

/// Reads the magic rules of a layout file: one rule a line, the first
/// character of the line mapped to the second, empty lines passed over. A
/// file with a line of a single character is refused.
pub fn load_magic_rules(text: &str) -> (result: Result<AHashMap<char, char>, AnalysisError>)
    ensures
        match result {
            Ok(rules) => named_rules(text@) == Some(rule_entries(rules)),
            Err(e) => named_rules(text@).is_none() && e == AnalysisError::Configuration,
        },
{
    let letters = strip(&chars_of(text), ' ');
    let mut rules = rules_new();
    let mut column: u8 = 0;
    let mut first = ' ';
    let mut broken = false;
    let ghost lines = rule_lines(text@);
    let mut i: usize = 36;
    if letters.len() <= 36 {
        return Ok(rules);
    }
    while i < letters.len()
        invariant
            36 <= i <= letters@.len(),
            letters@ == without(text@, ' '),
            lines == letters@.skip(36),
            column <= 2,
            read_upto(lines, (i - 36) as nat) == (Reading {
                rules: rule_entries(rules),
                column: column as int,
                first,
                broken,
            }),
        decreases letters@.len() - i,
    {
        let c = letters[i];
        assert(lines[i - 36] == c);
        if c == '\n' {
            broken = broken || column == 1;
            column = 0;
        } else if column == 0 {
            column = 1;
            first = c;
        } else if column == 1 {
            rules_insert(&mut rules, first, c);
            column = 2;
        }
        i += 1;
    }
    if broken || column == 1 {
        Err(AnalysisError::Configuration)
    } else {
        Ok(rules)
    }
}

} // verus!
