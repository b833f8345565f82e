//! Chapter selectors: a single ordinal, a comma-separated list of ordinals,
//! or a closed range `lo-hi`.

use crate::text::{
    chars_of, contains_char, lemma_split_nonempty, ordinal_of, parse_ordinal_in, split,
    split_bounds,
};
use vstd::prelude::*;

verus! {

/// The ordinal that stands in for a selector token that denotes none.
pub const FALLBACK_ORDINAL: u16 = 1;

/// Which chapter ordinals a request asks for.
#[derive(Debug)]
pub enum Selector {
    /// Every ordinal from `lo` to `hi`, both included. A single ordinal is
    /// the range from itself to itself.
    Range { lo: u16, hi: u16 },
    /// The listed ordinals, in the order they were written.
    List(Vec<u16>),
}

/// A selector token that denotes no ordinal and was replaced by
/// [`FALLBACK_ORDINAL`]. `position` counts the tokens read, from zero.
#[derive(Debug)]
pub struct SelectorParseError {
    pub position: usize,
}

/// A selector as read from text, with a warning for each token that had to
/// be replaced.
#[derive(Debug)]
pub struct ParsedSelector {
    pub selector: Selector,
    pub warnings: Vec<SelectorParseError>,
}

impl Selector {
    /// Whether the selector asks for ordinal `n`.
    pub open spec fn selects(&self, n: u16) -> bool {
        match self {
            Selector::Range { lo, hi } => *lo <= n && n <= *hi,
            Selector::List(items) => items@.contains(n),
        }
    }

    /// Whether the selector asks for ordinal `n`.
    pub fn contains(&self, n: u16) -> (r: bool)
        ensures
            r == self.selects(n),
    {
        match self {
            Selector::Range { lo, hi } => *lo <= n && n <= *hi,
            Selector::List(items) => {
                let mut i: usize = 0;
                while i < items.len()
                    invariant
                        i <= items.len(),
                        self.selects(n) == items@.contains(n),
                        forall|k: int| 0 <= k < i ==> items@[k] != n,
                    decreases items.len() - i,
                {
                    if items[i] == n {
                        return true;
                    }
                    i = i + 1;
                }
                false
            },
        }
    }
}

/// The ordinal a token stands for: the one it denotes, or the fallback.
pub open spec fn ordinal_or_fallback(token: Seq<char>) -> u16 {
    match ordinal_of(token) {
        Some(n) => n,
        None => FALLBACK_ORDINAL,
    }
}

/// Whether a selector text is a list: it is one exactly when it holds a comma.
pub open spec fn is_list_form(s: Seq<char>) -> bool {
    s.contains(',')
}

/// The tokens of a selector text that are read as ordinals. A list is split
/// at its commas and every piece is read. Any other text is split at `-`, and
/// only the first two pieces are read.
pub open spec fn selector_tokens(s: Seq<char>) -> Seq<Seq<char>> {
    if is_list_form(s) {
        split(s, ',')
    } else if split(s, '-').len() > 2 {
        split(s, '-').take(2)
    } else {
        split(s, '-')
    }
}

/// Whether `selector` is what the text `s` asks for. In a list every token
/// gives one ordinal. Otherwise the first token gives the lower end, and the
/// second gives the upper end if it is there and lies above the lower end;
/// if not, the selector is the single lower ordinal.
pub open spec fn denotes(selector: Selector, s: Seq<char>) -> bool {
    let tokens = selector_tokens(s);
    match selector {
        Selector::List(items) => {
            &&& is_list_form(s)
            &&& items@.len() == tokens.len()
            &&& forall|i: int|
                0 <= i < tokens.len() ==> items@[i] == ordinal_or_fallback(#[trigger] tokens[i])
        },
        Selector::Range { lo, hi } => {
            &&& !is_list_form(s)
            &&& lo == ordinal_or_fallback(tokens[0])
            &&& hi == if tokens.len() > 1 && lo < ordinal_or_fallback(tokens[1]) {
                ordinal_or_fallback(tokens[1])
            } else {
                lo
            }
        },
    }
}

/// Whether `warnings` names exactly the tokens that denote no ordinal, each
/// once, in ascending position.
pub open spec fn warns_of(warnings: Seq<SelectorParseError>, tokens: Seq<Seq<char>>) -> bool {
    &&& forall|i: int, j: int|
        0 <= i < j < warnings.len() ==> warnings[i].position < warnings[j].position
    &&& forall|i: int| 0 <= i < warnings.len() ==> (#[trigger] warnings[i]).position < tokens.len()
    &&& forall|p: int|
        0 <= p < tokens.len() ==> (ordinal_of(#[trigger] tokens[p]) is None <==> exists|i: int|
            0 <= i < warnings.len() && (#[trigger] warnings[i]).position == p)
}

/// Reads the ordinals of the first `count` pieces marked by `bounds`,
/// replacing each piece that denotes none by the fallback and recording a
/// warning for it.
fn read_tokens(v: &Vec<char>, bounds: &Vec<(usize, usize)>, count: usize) -> (r: (
    Vec<u16>,
    Vec<SelectorParseError>,
))
    requires
        count <= bounds.len(),
        forall|i: int|
            0 <= i < bounds.len() ==> (#[trigger] bounds[i]).0 <= bounds[i].1 <= v.len(),
    ensures
        r.0.len() == count,
        forall|i: int|
            0 <= i < count ==> r.0[i] == ordinal_or_fallback(
                v@.subrange((#[trigger] bounds[i]).0 as int, bounds[i].1 as int),
            ),
        warns_of(
            r.1@,
            Seq::new(count as nat, |i: int| v@.subrange(bounds[i].0 as int, bounds[i].1 as int)),
        ),
{
    let mut items: Vec<u16> = Vec::new();
    let mut warnings: Vec<SelectorParseError> = Vec::new();
    let mut i: usize = 0;
    let ghost all = Seq::new(
        count as nat,
        |k: int| v@.subrange(bounds[k].0 as int, bounds[k].1 as int),
    );
    while i < count
        invariant
            i <= count <= bounds.len(),
            forall|k: int|
                0 <= k < bounds.len() ==> (#[trigger] bounds[k]).0 <= bounds[k].1 <= v.len(),
            all == Seq::new(
                count as nat,
                |k: int| v@.subrange(bounds[k].0 as int, bounds[k].1 as int),
            ),
            items.len() == i,
            forall|k: int| 0 <= k < i ==> items[k] == ordinal_or_fallback(#[trigger] all[k]),
            warns_of(warnings@, all.take(i as int)),
        decreases count - i,
    {
        let (from, to) = bounds[i];
        let ghost old_warnings = warnings@;
        let read = parse_ordinal_in(v, from, to);
        match read {
            Some(n) => {
                items.push(n);
            },
            None => {
                items.push(FALLBACK_ORDINAL);
                warnings.push(SelectorParseError { position: i });
            },
        }
        proof {
            let seen = all.take(i as int);
            let next = all.take(i + 1);
            assert forall|p: int| 0 <= p < next.len() implies (ordinal_of(#[trigger] next[p])
                is None <==> exists|w: int|
                0 <= w < warnings@.len() && (#[trigger] warnings@[w]).position == p) by {
                if p < i {
                    if ordinal_of(seen[p]) is None {
                        let w = choose|w: int|
                            0 <= w < old_warnings.len() && (#[trigger] old_warnings[w]).position
                                == p;
                        assert(warnings@[w].position == p);
                    }
                } else if read is None {
                    assert(warnings@[warnings@.len() - 1].position == p);
                }
            }
        }
        i = i + 1;
    }
    proof {
        assert(all.take(count as int) =~= all);
        assert forall|k: int| 0 <= k < count implies items[k] == ordinal_or_fallback(
            v@.subrange((#[trigger] bounds[k]).0 as int, bounds[k].1 as int),
        ) by {
            assert(all[k] == v@.subrange(bounds[k].0 as int, bounds[k].1 as int));
        }
    }
    (items, warnings)
}

/// Reads a selector from text. A token that denotes no ordinal never fails
/// the reading: it stands for [`FALLBACK_ORDINAL`], and a warning names it.
pub fn parse_selector(s: &str) -> (parsed: ParsedSelector)
    ensures
        denotes(parsed.selector, s@),
        warns_of(parsed.warnings@, selector_tokens(s@)),
{
    let v = chars_of(s);
    if contains_char(&v, ',') {
        let bounds = split_bounds(&v, ',');
        let (items, warnings) = read_tokens(&v, &bounds, bounds.len());
        proof {
            assert(Seq::new(
                bounds.len() as nat,
                |i: int| v@.subrange(bounds[i].0 as int, bounds[i].1 as int),
            ) =~= split(v@, ','));
        }
        ParsedSelector { selector: Selector::List(items), warnings }
    } else {
        let bounds = split_bounds(&v, '-');
        proof {
            lemma_split_nonempty(v@, '-');
        }
        let count: usize = if bounds.len() > 2 {
            2
        } else {
            bounds.len()
        };
        let (items, warnings) = read_tokens(&v, &bounds, count);
        proof {
            assert(Seq::new(
                count as nat,
                |i: int| v@.subrange(bounds[i].0 as int, bounds[i].1 as int),
            ) =~= selector_tokens(v@));
        }
        let lo = items[0];
        let hi = if count > 1 && lo < items[1] {
            items[1]
        } else {
            lo
        };
        ParsedSelector { selector: Selector::Range { lo, hi }, warnings }
    }
}

} // verus!
