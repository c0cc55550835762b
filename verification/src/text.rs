//! Text as sequences of characters: decoding, the names of the report
//! categories, and the substitution of magic rules.
use vstd::prelude::*;
use ahash::AHashMap;
use crate::tables::rule_entries;
use crate::tables::rules_get;
use crate::Category;
use crate::MAGIC;

verus! {

/// The characters of a string, in order.
pub fn chars_of(text: &str) -> (chars: Vec<char>)
    ensures
        chars@ == text@,
{
    let mut chars: Vec<char> = Vec::new();
    for c in it: text.chars()
        invariant
            it.seq() == text@,
            chars@ == it.seq().take(it.index() as int),
    {
        chars.push(c);
    }
    assert(chars@ == text@);
    chars
}

/// Whether `chars` spells `word`.
pub fn spells(chars: &Vec<char>, word: &str) -> (same: bool)
    ensures
        same == (chars@ == word@),
{
    let letters = chars_of(word);
    if letters.len() != chars.len() {
        return false;
    }
    let mut i: usize = 0;
    while i < letters.len()
        invariant
            i <= letters@.len(),
            letters@ == word@,
            letters@.len() == chars@.len(),
            forall|j: int| 0 <= j < i ==> letters@[j] == chars@[j],
        decreases letters@.len() - i,
    {
        if letters[i] != chars[i] {
            assert(chars@[i as int] != word@[i as int]);
            return false;
        }
        i += 1;
    }
    assert(chars@ =~= letters@);
    true
}

/// The category that a report tag names, if it names one.
pub open spec fn category_of(tag: Seq<char>) -> Option<Category> {
    if tag == "sfb"@ {
        Some(Category::Sfb)
    } else if tag == "sfr"@ {
        Some(Category::Sfr)
    } else if tag == "sfs"@ {
        Some(Category::Sfs)
    } else if tag == "lsb"@ {
        Some(Category::Lsb)
    } else if tag == "lss"@ {
        Some(Category::Lss)
    } else if tag == "hsb"@ {
        Some(Category::Hsb)
    } else if tag == "hss"@ {
        Some(Category::Hss)
    } else if tag == "fsb"@ {
        Some(Category::Fsb)
    } else if tag == "fss"@ {
        Some(Category::Fss)
    } else if tag == "inroll"@ {
        Some(Category::Inroll)
    } else if tag == "outroll"@ {
        Some(Category::Outroll)
    } else if tag == "alt"@ {
        Some(Category::Alt)
    } else if tag == "inthreeroll"@ {
        Some(Category::InThreeRoll)
    } else if tag == "outthreeroll"@ {
        Some(Category::OutThreeRoll)
    } else if tag == "weak_red"@ {
        Some(Category::WeakRed)
    } else if tag == "red"@ {
        Some(Category::Red)
    } else if tag == "thumb_stat"@ {
        Some(Category::ThumbStat)
    } else {
        None
    }
}

/// Reads a report tag. Any text that names no category selects none.
pub fn parse_category(command: &str) -> (report: Option<Category>)
    ensures
        report == category_of(command@),
{
    let tag = chars_of(command);
    if spells(&tag, "sfb") {
        Some(Category::Sfb)
    } else if spells(&tag, "sfr") {
        Some(Category::Sfr)
    } else if spells(&tag, "sfs") {
        Some(Category::Sfs)
    } else if spells(&tag, "lsb") {
        Some(Category::Lsb)
    } else if spells(&tag, "lss") {
        Some(Category::Lss)
    } else if spells(&tag, "hsb") {
        Some(Category::Hsb)
    } else if spells(&tag, "hss") {
        Some(Category::Hss)
    } else if spells(&tag, "fsb") {
        Some(Category::Fsb)
    } else if spells(&tag, "fss") {
        Some(Category::Fss)
    } else if spells(&tag, "inroll") {
        Some(Category::Inroll)
    } else if spells(&tag, "outroll") {
        Some(Category::Outroll)
    } else if spells(&tag, "alt") {
        Some(Category::Alt)
    } else if spells(&tag, "inthreeroll") {
        Some(Category::InThreeRoll)
    } else if spells(&tag, "outthreeroll") {
        Some(Category::OutThreeRoll)
    } else if spells(&tag, "weak_red") {
        Some(Category::WeakRed)
    } else if spells(&tag, "red") {
        Some(Category::Red)
    } else if spells(&tag, "thumb_stat") {
        Some(Category::ThumbStat)
    } else {
        None
    }
}

/// The text in which every occurrence of the pair `from`, found from the left
/// and never overlapping, is replaced by the pair `to`.
pub open spec fn exchanged(text: Seq<char>, from: (char, char), to: (char, char)) -> Seq<char>
    decreases text.len(),
{
    if text.len() < 2 {
        text
    } else if text[0] == from.0 && text[1] == from.1 {
        seq![to.0, to.1] + exchanged(text.skip(2), from, to)
    } else {
        seq![text[0]] + exchanged(text.skip(1), from, to)
    }
}

/// Replaces in place what `exchanged` replaces.
pub fn exchange(text: &mut Vec<char>, from: (char, char), to: (char, char))
    ensures
        final(text)@ == exchanged(old(text)@, from, to),
{
    let n = text.len();
    let mut i: usize = 0;
    assert(text@.take(0) + exchanged(old(text)@.skip(0), from, to) =~= exchanged(
        old(text)@,
        from,
        to,
    )) by {
        assert(old(text)@.skip(0) =~= old(text)@);
    }
    while n - i >= 2
        invariant
            i <= n,
            n == text@.len(),
            n == old(text)@.len(),
            forall|j: int| i <= j < n ==> text@[j] == old(text)@[j],
            exchanged(old(text)@, from, to) == text@.take(i as int) + exchanged(
                old(text)@.skip(i as int),
                from,
                to,
            ),
        decreases n - i,
    {
        let ghost before = text@;
        let ghost rest = old(text)@.skip(i as int);
        assert(rest.len() >= 2);
        assert(rest[0] == text@[i as int] && rest[1] == text@[i + 1]);
        if text[i] == from.0 && text[i + 1] == from.1 {
            text.set(i, to.0);
            text.set(i + 1, to.1);
            proof {
                assert(rest.skip(2) =~= old(text)@.skip(i + 2));
                assert(text@.take(i + 2) =~= before.take(i as int) + seq![to.0, to.1]);
            }
            i += 2;
        } else {
            proof {
                assert(rest.skip(1) =~= old(text)@.skip(i + 1));
                assert(text@.take(i + 1) =~= before.take(i as int) + seq![rest[0]]);
            }
            i += 1;
        }
    }
    proof {
        let rest = old(text)@.skip(i as int);
        assert(exchanged(rest, from, to) == rest);
        assert(text@ =~= text@.take(i as int) + rest);
    }
}

/// The text that an analysis reads: `text` read once from the left, and
/// wherever a character is followed by the character that its rule names, the
/// follower replaced by the magic key. A replaced character begins no pair of
/// its own, and nothing else decides: the same text and rules give the same
/// reading on every arrangement.
pub open spec fn substituted(text: Seq<char>, rules: Map<char, char>) -> Seq<char>
    decreases text.len(),
{
    if text.len() < 2 {
        text
    } else if rules.contains_pair(text[0], text[1]) {
        seq![text[0], MAGIC] + substituted(text.skip(2), rules)
    } else {
        seq![text[0]] + substituted(text.skip(1), rules)
    }
}

/// Applies the rules to a copy of the text.
pub fn apply_magic(text: &Vec<char>, rules: &AHashMap<char, char>) -> (out: Vec<char>)
    ensures
        out@ == substituted(text@, rule_entries(*rules)),
{
    let mut out = text.clone();
    assert(out@ =~= text@);
    let n = out.len();
    let mut i: usize = 0;
    assert(text@.skip(0) =~= text@);
    assert(out@.take(0) + substituted(text@, rule_entries(*rules)) =~= substituted(
        text@,
        rule_entries(*rules),
    ));
    while n - i >= 2
        invariant
            i <= n,
            n == out@.len(),
            n == text@.len(),
            forall|j: int| i <= j < n ==> out@[j] == text@[j],
            substituted(text@, rule_entries(*rules)) == out@.take(i as int) + substituted(
                text@.skip(i as int),
                rule_entries(*rules),
            ),
        decreases n - i,
    {
        let ghost before = out@;
        let ghost rest = text@.skip(i as int);
        assert(rest.len() >= 2);
        assert(rest[0] == out@[i as int] && rest[1] == out@[i + 1]);
        let first = out[i];
        if rules_get(rules, first) == Some(out[i + 1]) {
            out.set(i + 1, MAGIC);
            proof {
                assert(rest.skip(2) =~= text@.skip(i + 2));
                assert(out@.take(i + 2) =~= before.take(i as int) + seq![rest[0], MAGIC]);
            }
            i += 2;
        } else {
            proof {
                assert(rest.skip(1) =~= text@.skip(i + 1));
                assert(out@.take(i + 1) =~= before.take(i as int) + seq![rest[0]]);
            }
            i += 1;
        }
    }
    proof {
        let rest = text@.skip(i as int);
        assert(substituted(rest, rule_entries(*rules)) == rest);
        assert(out@ =~= out@.take(i as int) + rest);
    }
    out
}

/// Substitution keeps the length of the text and changes no character but
/// into the magic key.
pub proof fn lemma_substituted_chars(text: Seq<char>, rules: Map<char, char>)
    ensures
        substituted(text, rules).len() == text.len(),
        forall|i: int|
            0 <= i < text.len() ==> #[trigger] substituted(text, rules)[i] == text[i]
                || substituted(text, rules)[i] == MAGIC,
    decreases text.len(),
{
    let out = substituted(text, rules);
    if text.len() < 2 {
    } else if rules.contains_pair(text[0], text[1]) {
        let rest = text.skip(2);
        lemma_substituted_chars(rest, rules);
        let tail = substituted(rest, rules);
        assert forall|i: int| 0 <= i < text.len() implies #[trigger] out[i] == text[i] || out[i]
            == MAGIC by {
            if i >= 2 {
                assert(out[i] == tail[i - 2]);
                assert(rest[i - 2] == text[i]);
            }
        }
    } else {
        let rest = text.skip(1);
        lemma_substituted_chars(rest, rules);
        let tail = substituted(rest, rules);
        assert forall|i: int| 0 <= i < text.len() implies #[trigger] out[i] == text[i] || out[i]
            == MAGIC by {
            if i >= 1 {
                assert(out[i] == tail[i - 1]);
                assert(rest[i - 1] == text[i]);
            }
        }
    }
}

/// Without rules the text stays as it is.
pub proof fn lemma_no_rules_no_change(text: Seq<char>)
    ensures
        substituted(text, Map::<char, char>::empty()) == text,
    decreases text.len(),
{
    if text.len() >= 2 {
        lemma_no_rules_no_change(text.skip(1));
        assert(seq![text[0]] + text.skip(1) =~= text);
    }
}

} // verus!
