//! Scores keyboard layouts against a text corpus and searches the space of
//! arrangements for better ones.
//!
//! A layout is an arrangement of 32 distinct characters over a fixed board of
//! 32 key slots. The statistics engine streams a corpus once and files every
//! bigram, skipgram and trigram it meets under an effort category; the score
//! is a fixed weighted sum of those counts. The search strategies move through
//! the arrangements by swaps, scoring each candidate from scratch.
use vstd::prelude::*;
use ahash::AHashMap;

pub mod chance;
pub mod corpus;
pub mod tables;
pub mod text;
pub mod stats;
pub mod generation;
pub mod loading;
pub mod mirror;

pub use crate::loading::load_layout;
pub use crate::loading::load_magic_rules;

verus! {

/// The key that stands for the second character of a substituted digraph.
pub const MAGIC: char = '*';

/// The longest corpus that the counters can count: they are 32 bits wide.
pub const MAX_CORPUS: usize = 0xffff_ffff;

/// The hand that presses a key.
#[derive(Clone, Copy, Debug, PartialEq, Eq, Hash, Structural)]
pub enum Hand {
    Left,
    Right,
}

/// The finger that presses a key, from the innermost to the outermost.
#[derive(Clone, Copy, Debug, PartialEq, Eq, Hash, Structural)]
pub enum Finger {
    Thumb,
    Index,
    Middle,
    Ring,
    Pinky,
}

impl Finger {
    /// The position of the finger counted outwards from the thumb. Rolls and
    /// redirects compare fingers by this number and by nothing else.
    pub open spec fn rank(self) -> int {
        match self {
            Finger::Thumb => 0,
            Finger::Index => 1,
            Finger::Middle => 2,
            Finger::Ring => 3,
            Finger::Pinky => 4,
        }
    }

    /// The position of the finger counted outwards from the thumb.
    pub fn position(&self) -> (r: u8)
        ensures
            r == self.rank(),
    {
        match self {
            Finger::Thumb => 0,
            Finger::Index => 1,
            Finger::Middle => 2,
            Finger::Ring => 3,
            Finger::Pinky => 4,
        }
    }
}

/// One physical key slot of the board.
#[derive(Clone, Copy, Debug, PartialEq, Eq, Structural)]
pub struct Key {
    pub index: u8,
    pub hand: Hand,
    pub finger: Finger,
    pub row: u8,
    pub lateral: bool,
}

/// Whether thumb keys take part in alternation and in rolls.
#[derive(Clone, Copy, Debug, PartialEq, Eq, Structural)]
pub struct Config {
    pub thumb_alt: bool,
    pub thumb_roll: bool,
}

impl Default for Config {
    fn default() -> (config: Config)
        ensures
            config == (Config { thumb_alt: true, thumb_roll: true }),
    {
        Config { thumb_alt: true, thumb_roll: true }
    }
}

/// The search strategies.
#[derive(Clone, Copy, Debug, PartialEq, Eq, Structural)]
pub enum Algorithm {
    SimAnnealing,
    RandomLayout,
    GreedySwapping,
    HillClimbing,
    Hybrid,
}

impl Default for Algorithm {
    fn default() -> (algorithm: Algorithm)
        ensures
            algorithm == Algorithm::SimAnnealing,
    {
        Algorithm::SimAnnealing
    }
}

/// Why an analysis was refused.
#[derive(Clone, Copy, Debug, PartialEq, Eq, Structural)]
pub enum AnalysisError {
    /// The arrangement holds some character twice.
    Configuration,
    /// The corpus holds a character that the arrangement lacks.
    Lookup(char),
}

/// The category whose n-grams an analysis collects for display.
#[derive(Clone, Copy, Debug, PartialEq, Eq, Structural)]
pub enum Category {
    Sfb,
    Sfr,
    Sfs,
    Lsb,
    Lss,
    Hsb,
    Hss,
    Fsb,
    Fss,
    Inroll,
    Outroll,
    Alt,
    InThreeRoll,
    OutThreeRoll,
    WeakRed,
    Red,
    ThumbStat,
}

/// The counters of one analysis, or the weights that a score gives them.
pub struct Stats {
    pub score: i64,
    pub fspeed: i64,
    pub sfb: i64,
    pub sfr: i64,
    pub sfs: i64,
    pub lsb: i64,
    pub lss: i64,
    pub fsb: i64,
    pub fss: i64,
    pub hsb: i64,
    pub hss: i64,
    pub inroll: i64,
    pub outroll: i64,
    pub alt: i64,
    pub inthreeroll: i64,
    pub outthreeroll: i64,
    pub weak_red: i64,
    pub red: i64,
    pub heatmap: i64,
    pub thumb_stat: u32,
    pub bigrams: u32,
    pub skipgrams: u32,
    pub trigrams: u32,
    pub ngram_table: AHashMap<[char; 3], u32>,
    pub bad_bigrams: AHashMap<[char; 2], u32>,
}

/// A candidate of the search: an arrangement with the rules mined for it and
/// the counters of the corpus on it.
pub struct Layout {
    pub layout: [char; 32],
    pub stats: Stats,
    pub magic: AHashMap<char, char>,
}

/// What a `Stats` holds, as unbounded numbers and mathematical maps.
pub struct Tally {
    pub score: int,
    pub fspeed: int,
    pub sfb: int,
    pub sfr: int,
    pub sfs: int,
    pub lsb: int,
    pub lss: int,
    pub fsb: int,
    pub fss: int,
    pub hsb: int,
    pub hss: int,
    pub inroll: int,
    pub outroll: int,
    pub alt: int,
    pub inthreeroll: int,
    pub outthreeroll: int,
    pub weak_red: int,
    pub red: int,
    pub heatmap: int,
    pub thumb_stat: int,
    pub bigrams: int,
    pub skipgrams: int,
    pub trigrams: int,
    pub ngrams: Map<(char, char, char), u32>,
    pub bad_bigrams: Map<(char, char), u32>,
}

impl Tally {
    /// The tally of an analysis that has seen nothing.
    pub open spec fn zero() -> Tally {
        Tally {
            score: 0,
            fspeed: 0,
            sfb: 0,
            sfr: 0,
            sfs: 0,
            lsb: 0,
            lss: 0,
            fsb: 0,
            fss: 0,
            hsb: 0,
            hss: 0,
            inroll: 0,
            outroll: 0,
            alt: 0,
            inthreeroll: 0,
            outthreeroll: 0,
            weak_red: 0,
            red: 0,
            heatmap: 0,
            thumb_stat: 0,
            bigrams: 0,
            skipgrams: 0,
            trigrams: 0,
            ngrams: Map::empty(),
            bad_bigrams: Map::empty(),
        }
    }

    /// Every number lies in the range of the field that is to hold it.
    pub open spec fn fits(self) -> bool {
        &&& i64::MIN <= self.score <= i64::MAX
        &&& i64::MIN <= self.fspeed <= i64::MAX
        &&& i64::MIN <= self.sfb <= i64::MAX
        &&& i64::MIN <= self.sfr <= i64::MAX
        &&& i64::MIN <= self.sfs <= i64::MAX
        &&& i64::MIN <= self.lsb <= i64::MAX
        &&& i64::MIN <= self.lss <= i64::MAX
        &&& i64::MIN <= self.fsb <= i64::MAX
        &&& i64::MIN <= self.fss <= i64::MAX
        &&& i64::MIN <= self.hsb <= i64::MAX
        &&& i64::MIN <= self.hss <= i64::MAX
        &&& i64::MIN <= self.inroll <= i64::MAX
        &&& i64::MIN <= self.outroll <= i64::MAX
        &&& i64::MIN <= self.alt <= i64::MAX
        &&& i64::MIN <= self.inthreeroll <= i64::MAX
        &&& i64::MIN <= self.outthreeroll <= i64::MAX
        &&& i64::MIN <= self.weak_red <= i64::MAX
        &&& i64::MIN <= self.red <= i64::MAX
        &&& i64::MIN <= self.heatmap <= i64::MAX
        &&& 0 <= self.thumb_stat <= u32::MAX
        &&& 0 <= self.bigrams <= u32::MAX
        &&& 0 <= self.skipgrams <= u32::MAX
        &&& 0 <= self.trigrams <= u32::MAX
    }
}

impl View for Stats {
    type V = Tally;

    open spec fn view(&self) -> Tally {
        Tally {
            score: self.score as int,
            fspeed: self.fspeed as int,
            sfb: self.sfb as int,
            sfr: self.sfr as int,
            sfs: self.sfs as int,
            lsb: self.lsb as int,
            lss: self.lss as int,
            fsb: self.fsb as int,
            fss: self.fss as int,
            hsb: self.hsb as int,
            hss: self.hss as int,
            inroll: self.inroll as int,
            outroll: self.outroll as int,
            alt: self.alt as int,
            inthreeroll: self.inthreeroll as int,
            outthreeroll: self.outthreeroll as int,
            weak_red: self.weak_red as int,
            red: self.red as int,
            heatmap: self.heatmap as int,
            thumb_stat: self.thumb_stat as int,
            bigrams: self.bigrams as int,
            skipgrams: self.skipgrams as int,
            trigrams: self.trigrams as int,
            ngrams: tables::ngram_entries(self.ngram_table),
            bad_bigrams: tables::bigram_entries(self.bad_bigrams),
        }
    }
}

impl Default for Stats {
    fn default() -> (stats: Stats)
        ensures
            stats@ == Tally::zero(),
    {
        Stats {
            score: 0,
            fspeed: 0,
            sfb: 0,
            sfr: 0,
            sfs: 0,
            lsb: 0,
            lss: 0,
            fsb: 0,
            fss: 0,
            hsb: 0,
            hss: 0,
            inroll: 0,
            outroll: 0,
            alt: 0,
            inthreeroll: 0,
            outthreeroll: 0,
            weak_red: 0,
            red: 0,
            heatmap: 0,
            thumb_stat: 0,
            bigrams: 0,
            skipgrams: 0,
            trigrams: 0,
            ngram_table: tables::ngrams_new(),
            bad_bigrams: tables::bigrams_new(),
        }
    }
}

impl Clone for Stats {
    /// A copy with the same counters and tables.
    fn clone(&self) -> (copy: Stats)
        ensures
            copy@ == self@,
    {
        Stats {
            score: self.score,
            fspeed: self.fspeed,
            sfb: self.sfb,
            sfr: self.sfr,
            sfs: self.sfs,
            lsb: self.lsb,
            lss: self.lss,
            fsb: self.fsb,
            fss: self.fss,
            hsb: self.hsb,
            hss: self.hss,
            inroll: self.inroll,
            outroll: self.outroll,
            alt: self.alt,
            inthreeroll: self.inthreeroll,
            outthreeroll: self.outthreeroll,
            weak_red: self.weak_red,
            red: self.red,
            heatmap: self.heatmap,
            thumb_stat: self.thumb_stat,
            bigrams: self.bigrams,
            skipgrams: self.skipgrams,
            trigrams: self.trigrams,
            ngram_table: tables::ngrams_clone(&self.ngram_table),
            bad_bigrams: tables::bigrams_clone(&self.bad_bigrams),
        }
    }
}

impl Clone for Layout {
    /// A copy with the same arrangement, counters and rules.
    fn clone(&self) -> (copy: Layout)
        ensures
            copy.layout == self.layout,
            copy.stats@ == self.stats@,
            tables::rule_entries(copy.magic) == tables::rule_entries(self.magic),
    {
        Layout {
            layout: self.layout,
            stats: self.stats.clone(),
            magic: tables::rules_clone(&self.magic),
        }
    }
}

} // verus!
