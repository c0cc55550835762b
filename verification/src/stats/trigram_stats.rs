//! Three-key movement: alternation, rolls and redirects.
use vstd::prelude::*;
use crate::text::parse_category;
use crate::text::category_of;
use crate::Category;
use crate::Config;
use crate::Finger;
use crate::Key;
use crate::Stats;
use crate::Tally;

verus! {

/// What three keys in a row are filed under.
#[derive(Clone, Copy, Debug, PartialEq, Eq, Hash, Structural)]
pub enum Trigram {
    Inroll,
    Outroll,
    Alt,
    InThreeRoll,
    OutThreeRoll,
    WeakRed,
    Red,
    Other,
}

/// Whether a key is a thumb key.
pub open spec fn is_thumb(key: Key) -> bool {
    key.finger == Finger::Thumb
}

/// Two keys of one hand in a row. With thumbs left out of rolls, a pair with a
/// thumb key is no roll. Otherwise the pair rolls inwards where the second
/// finger is further in than the first, and outwards in every other case.
pub open spec fn roll_kind(key1: Key, key2: Key, config: Config) -> Trigram {
    if !config.thumb_roll && (is_thumb(key1) || is_thumb(key2)) {
        Trigram::Other
    } else if key1.finger.rank() > key2.finger.rank() {
        Trigram::Inroll
    } else {
        Trigram::Outroll
    }
}

/// Three keys of one hand in a row. With thumbs left out of rolls, a triple
/// with a thumb key is filed under nothing. Otherwise fingers that move
/// steadily inwards make an inward three-roll, fingers that move steadily
/// outwards an outward one; every other triple is a redirect, a weak one where
/// no key of the three is an index key.
pub open spec fn onehand_kind(key1: Key, key2: Key, key3: Key, config: Config) -> Trigram {
    let f1 = key1.finger.rank();
    let f2 = key2.finger.rank();
    let f3 = key3.finger.rank();
    if !config.thumb_roll && (is_thumb(key1) || is_thumb(key2) || is_thumb(key3)) {
        Trigram::Other
    } else if f1 > f2 && f2 > f3 {
        Trigram::InThreeRoll
    } else if f1 < f2 && f2 < f3 {
        Trigram::OutThreeRoll
    } else if key1.finger != Finger::Index && key2.finger != Finger::Index && key3.finger
        != Finger::Index {
        Trigram::WeakRed
    } else {
        Trigram::Red
    }
}

/// The one category of three keys in a row. Where the middle key lies on the
/// other hand than both its neighbours, the hands alternate, unless thumbs are
/// left out of alternation and one of the three is a thumb key. Three keys of
/// one hand are filed by `onehand_kind`. Where just two neighbours share a
/// hand, that pair is filed by `roll_kind`.
pub open spec fn trigram_kind(key1: Key, key2: Key, key3: Key, config: Config) -> Trigram {
    if key2.hand != key1.hand && key2.hand != key3.hand && (config.thumb_alt || !(is_thumb(key1)
        || is_thumb(key2) || is_thumb(key3))) {
        Trigram::Alt
    } else if key1.hand == key2.hand && key2.hand == key3.hand {
        onehand_kind(key1, key2, key3, config)
    } else if key1.hand == key2.hand {
        roll_kind(key1, key2, config)
    } else if key2.hand == key3.hand {
        roll_kind(key2, key3, config)
    } else {
        Trigram::Other
    }
}

/// What one trigram of a kind adds to a tally: one count under that kind.
pub open spec fn trigram_effect(tally: Tally, kind: Trigram) -> Tally {
    match kind {
        Trigram::Inroll => Tally { inroll: tally.inroll + 1, ..tally },
        Trigram::Outroll => Tally { outroll: tally.outroll + 1, ..tally },
        Trigram::Alt => Tally { alt: tally.alt + 1, ..tally },
        Trigram::InThreeRoll => Tally { inthreeroll: tally.inthreeroll + 1, ..tally },
        Trigram::OutThreeRoll => Tally { outthreeroll: tally.outthreeroll + 1, ..tally },
        Trigram::Red => Tally { red: tally.red + 1, ..tally },
        Trigram::WeakRed => Tally { weak_red: tally.weak_red + 1, ..tally },
        Trigram::Other => Tally { thumb_stat: tally.thumb_stat + 1, ..tally },
    }
}

/// Whether a report on `report` shows a trigram of this kind.
pub open spec fn shows_trigram(report: Option<Category>, kind: Trigram) -> bool {
    match kind {
        Trigram::Inroll => report == Some(Category::Inroll),
        Trigram::Outroll => report == Some(Category::Outroll),
        Trigram::Alt => report == Some(Category::Alt),
        Trigram::InThreeRoll => report == Some(Category::InThreeRoll),
        Trigram::OutThreeRoll => report == Some(Category::OutThreeRoll),
        Trigram::Red => report == Some(Category::Red),
        Trigram::WeakRed => report == Some(Category::WeakRed),
        Trigram::Other => report == Some(Category::ThumbStat),
    }
}

/// The category of three keys in a row.
pub fn trigram_stat(key1: &Key, key2: &Key, key3: &Key, config: &Config) -> (kind: Trigram)
    ensures
        kind == trigram_kind(*key1, *key2, *key3, *config),
{
    if key2.hand != key1.hand && key2.hand != key3.hand && (config.thumb_alt || !(key1.finger
        == Finger::Thumb || key2.finger == Finger::Thumb || key3.finger == Finger::Thumb)) {
        return Trigram::Alt;
    }
    if key1.hand == key2.hand && key2.hand == key3.hand {
        return onehand(key1, key2, key3, config);
    }
    if key1.hand == key2.hand {
        roll(key1, key2, config)
    } else if key2.hand == key3.hand {
        roll(key2, key3, config)
    } else {
        Trigram::Other
    }
}

/// The category of two keys of one hand in a row.
pub fn roll(key1: &Key, key2: &Key, config: &Config) -> (kind: Trigram)
    ensures
        kind == roll_kind(*key1, *key2, *config),
{
    if !config.thumb_roll && (key1.finger == Finger::Thumb || key2.finger == Finger::Thumb) {
        return Trigram::Other;
    }
    if key1.finger.position() > key2.finger.position() {
        return Trigram::Inroll;
    }
    Trigram::Outroll
}

/// The category of three keys of one hand in a row.
pub fn onehand(key1: &Key, key2: &Key, key3: &Key, config: &Config) -> (kind: Trigram)
    ensures
        kind == onehand_kind(*key1, *key2, *key3, *config),
{
    if !config.thumb_roll && (key1.finger == Finger::Thumb || key2.finger == Finger::Thumb
        || key3.finger == Finger::Thumb) {
        return Trigram::Other;
    }
    let f1 = key1.finger.position();
    let f2 = key2.finger.position();
    let f3 = key3.finger.position();
    if f1 > f2 && f2 > f3 {
        return Trigram::InThreeRoll;
    }
    if f1 < f2 && f2 < f3 {
        return Trigram::OutThreeRoll;
    }
    if key1.finger != Finger::Index && key2.finger != Finger::Index && key3.finger
        != Finger::Index {
        return Trigram::WeakRed;
    }
    Trigram::Red
}

/// Files one trigram under its category and says whether the report shows it.
pub fn count_trigram(
    key1: &Key,
    key2: &Key,
    key3: &Key,
    report: Option<Category>,
    config: &Config,
    stats: Stats,
) -> (out: (Stats, bool))
    requires
        trigram_effect(stats@, trigram_kind(*key1, *key2, *key3, *config)).fits(),
    ensures
        out.0@ == trigram_effect(stats@, trigram_kind(*key1, *key2, *key3, *config)),
        out.1 == shows_trigram(report, trigram_kind(*key1, *key2, *key3, *config)),
{
    let mut stats = stats;
    let mut insert_ngram = false;
    match trigram_stat(key1, key2, key3, config) {
        Trigram::Inroll => {
            stats.inroll = stats.inroll + 1;
            insert_ngram = report == Some(Category::Inroll);
        },
        Trigram::Outroll => {
            stats.outroll = stats.outroll + 1;
            insert_ngram = report == Some(Category::Outroll);
        },
        Trigram::Alt => {
            stats.alt = stats.alt + 1;
            insert_ngram = report == Some(Category::Alt);
        },
        Trigram::InThreeRoll => {
            stats.inthreeroll = stats.inthreeroll + 1;
            insert_ngram = report == Some(Category::InThreeRoll);
        },
        Trigram::OutThreeRoll => {
            stats.outthreeroll = stats.outthreeroll + 1;
            insert_ngram = report == Some(Category::OutThreeRoll);
        },
        Trigram::Red => {
            stats.red = stats.red + 1;
            insert_ngram = report == Some(Category::Red);
        },
        Trigram::WeakRed => {
            stats.weak_red = stats.weak_red + 1;
            insert_ngram = report == Some(Category::WeakRed);
        },
        Trigram::Other => {
            stats.thumb_stat = stats.thumb_stat + 1;
            insert_ngram = report == Some(Category::ThumbStat);
        },
    }
    (stats, insert_ngram)
}

/// Files one trigram for the report that `command` names.
pub fn trigram_stats(
    key1: &Key,
    key2: &Key,
    key3: &Key,
    command: &str,
    config: &Config,
    stats: Stats,
) -> (out: (Stats, bool))
    requires
        trigram_effect(stats@, trigram_kind(*key1, *key2, *key3, *config)).fits(),
    ensures
        out.0@ == trigram_effect(stats@, trigram_kind(*key1, *key2, *key3, *config)),
        out.1 == shows_trigram(category_of(command@), trigram_kind(*key1, *key2, *key3, *config)),
{
    let report = parse_category(command);
    count_trigram(key1, key2, key3, report, config, stats)
}

} // verus!
