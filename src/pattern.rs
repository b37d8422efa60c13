//! Finding the ergonomically costly placements in one token.
use vstd::prelude::*;
use crate::layout::{KeyLayout, zone_in, in_table, lemma_unmapped_is_zero};
use crate::text::char_vec;

verus! {

/// One costly placement found in a token.
#[derive(Debug, Clone, Copy, PartialEq, Eq, Structural)]
pub enum BadPattern {
    /// A character that needs an outward pinky stretch (zone `5` or more).
    WeakPosition(char),
    /// A character in an inner index-stretch column (zone `1` or `-1`).
    UnboundPosition(char),
    /// Two distinct adjacent characters typed by the same finger.
    SameFinger(char, char),
}

/// The character at index `i` of `t`.
pub open spec fn char_at(t: Seq<char>, i: int) -> char {
    t[i]
}

/// The finding that a character in zone `z` gives by itself: an inner
/// index-stretch column, or an outward pinky stretch on the right hand.
pub open spec fn own_findings(c: char, z: int) -> Seq<BadPattern> {
    if z == 1 || z == -1 {
        seq![BadPattern::UnboundPosition(c)]
    } else if z >= 5 {
        seq![BadPattern::WeakPosition(c)]
    } else {
        Seq::empty()
    }
}

/// The same-finger finding of index `i` of `t` with its successor: the two
/// characters differ and lie in one zone.
pub open spec fn pair_findings(table: Seq<(char, i8)>, t: Seq<char>, i: int) -> Seq<BadPattern> {
    let c = char_at(t, i);
    let d = char_at(t, i + 1);
    if i + 1 < t.len() && d != c && zone_in(table, d) == zone_in(table, c) {
        seq![BadPattern::SameFinger(c, d)]
    } else {
        Seq::empty()
    }
}

/// What the scan reports at index `i` of `t`: nothing for a character that
/// the layout does not place; otherwise its own finding, if any, then its
/// same-finger pair with its successor, if any.
pub open spec fn position_findings(table: Seq<(char, i8)>, t: Seq<char>, i: int) -> Seq<BadPattern> {
    let c = char_at(t, i);
    if zone_in(table, c) == 0 {
        Seq::empty()
    } else {
        own_findings(c, zone_in(table, c)) + pair_findings(table, t, i)
    }
}

/// The findings of the first `n` positions of `t`, left to right.
pub open spec fn findings_upto(table: Seq<(char, i8)>, t: Seq<char>, n: int) -> Seq<BadPattern>
    decreases n,
{
    if n <= 0 {
        Seq::empty()
    } else {
        findings_upto(table, t, n - 1) + position_findings(table, t, n - 1)
    }
}

/// The findings of the whole token `t` under `table`.
pub open spec fn detect(table: Seq<(char, i8)>, t: Seq<char>) -> Seq<BadPattern> {
    findings_upto(table, t, t.len() as int)
}

/// Appends what a character in zone `z` gives by itself.
fn push_own_findings(result: &mut Vec<BadPattern>, c: char, z: i8)
    ensures
        final(result)@ == old(result)@ + own_findings(c, z as int),
{
    if z == 1 || z == -1 {
        result.push(BadPattern::UnboundPosition(c));
    } else if z >= 5 {
        result.push(BadPattern::WeakPosition(c));
    }
    assert(result@ =~= old(result)@ + own_findings(c, z as int));
}

/// Whether the finding `f` names the character `c`.
pub open spec fn mentions(f: BadPattern, c: char) -> bool {
    match f {
        BadPattern::WeakPosition(a) => a == c,
        BadPattern::UnboundPosition(a) => a == c,
        BadPattern::SameFinger(a, b) => a == c || b == c,
    }
}

/// Whether the finding `f` pairs a character with itself.
pub open spec fn is_repeat_pair(f: BadPattern) -> bool {
    match f {
        BadPattern::SameFinger(a, b) => a == b,
        _ => false,
    }
}

/// A property of every finding of every position carries over to the
/// findings of the first `n` positions.
proof fn lemma_upto_all(
    table: Seq<(char, i8)>,
    t: Seq<char>,
    n: int,
    p: spec_fn(BadPattern) -> bool,
)
    requires
        0 <= n <= t.len(),
        forall|i: int, k: int|
            0 <= i < n && 0 <= k < position_findings(table, t, i).len() ==> p(
                #[trigger] position_findings(table, t, i)[k],
            ),
    ensures
        forall|k: int|
            0 <= k < findings_upto(table, t, n).len() ==> p(#[trigger] findings_upto(table, t, n)[k]),
    decreases n,
{
    if n > 0 {
        lemma_upto_all(table, t, n - 1, p);
        let a = findings_upto(table, t, n - 1);
        let b = position_findings(table, t, n - 1);
        assert forall|k: int| 0 <= k < (a + b).len() implies p(#[trigger] (a + b)[k]) by {
            if k >= a.len() {
                assert((a + b)[k] == b[k - a.len()]);
            }
        }
    }
}

/// A character that a layout's table does not hold lies in zone `0`;
/// nothing is reported at its positions in a token, and no finding of the
/// token names it, so it is never paired with either neighbour.
pub proof fn lemma_unmapped_char_unreported(table: Seq<(char, i8)>, t: Seq<char>, c: char)
    requires
        !in_table(table, c),
    ensures
        zone_in(table, c) == 0,
        forall|i: int|
            0 <= i < t.len() && t[i] == c ==> #[trigger] position_findings(table, t, i)
                == Seq::<BadPattern>::empty(),
        forall|k: int|
            0 <= k < detect(table, t).len() ==> !mentions(#[trigger] detect(table, t)[k], c),
{
    lemma_unmapped_is_zero(table, c);
    let p = |f: BadPattern| !mentions(f, c);
    assert forall|i: int, k: int|
        0 <= i < t.len() && 0 <= k < position_findings(table, t, i).len() implies p(
            #[trigger] position_findings(table, t, i)[k],
        ) by {
        let a = char_at(t, i);
        let own = own_findings(a, zone_in(table, a));
        let pair = pair_findings(table, t, i);
        if k >= own.len() {
            assert((own + pair)[k] == pair[k - own.len()]);
        }
    }
    lemma_upto_all(table, t, t.len() as int, p);
}

/// A character repeated next to itself is never reported as a same-finger
/// pair: no finding of a token pairs a character with itself.
pub proof fn lemma_repeat_never_paired(table: Seq<(char, i8)>, t: Seq<char>)
    ensures
        forall|i: int|
            0 <= i && i + 1 < t.len() && t[i] == t[i + 1] ==> #[trigger] pair_findings(table, t, i)
                == Seq::<BadPattern>::empty(),
        forall|k: int|
            0 <= k < detect(table, t).len() ==> !is_repeat_pair(#[trigger] detect(table, t)[k]),
{
    let p = |f: BadPattern| !is_repeat_pair(f);
    assert forall|i: int, k: int|
        0 <= i < t.len() && 0 <= k < position_findings(table, t, i).len() implies p(
            #[trigger] position_findings(table, t, i)[k],
        ) by {
        let a = char_at(t, i);
        let own = own_findings(a, zone_in(table, a));
        let pair = pair_findings(table, t, i);
        if k >= own.len() {
            assert((own + pair)[k] == pair[k - own.len()]);
        }
    }
    lemma_upto_all(table, t, t.len() as int, p);
}

impl KeyLayout {
    /// The costly placements of `word` (already lower-cased), in scan order.
    pub fn find_bad_patterns(&self, word: &str) -> (r: Vec<BadPattern>)
        ensures
            r@ == detect(self.spec_table(), word@),
    {
        let chars = char_vec(word);
        self.bad_patterns_of(&chars)
    }

    /// Appends the same-finger finding of index `i` of `word`, whose zone is `z`.
    fn push_pair_finding(&self, result: &mut Vec<BadPattern>, word: &Vec<char>, i: usize, z: i8)
        requires
            i < word@.len(),
            z as int == self.zone(word@[i as int]),
        ensures
            final(result)@ == old(result)@ + pair_findings(self.spec_table(), word@, i as int),
    {
        if word.len() - i > 1 {
            let c = word[i];
            let next = word[i + 1];
            if next != c {
                let z2 = self.get_finger(next);
                if z2 == z {
                    result.push(BadPattern::SameFinger(c, next));
                }
            }
        }
        assert(result@ =~= old(result)@ + pair_findings(self.spec_table(), word@, i as int));
    }

    /// The costly placements of the characters of `word`, in scan order.
    pub(crate) fn bad_patterns_of(&self, word: &Vec<char>) -> (r: Vec<BadPattern>)
        ensures
            r@ == detect(self.spec_table(), word@),
    {
        let ghost table = self.spec_table();
        let mut result: Vec<BadPattern> = Vec::new();
        let n = word.len();
        let mut i: usize = 0;
        while i < n
            invariant
                i <= n,
                n == word@.len(),
                table == self.spec_table(),
                result@ == findings_upto(table, word@, i as int),
            decreases n - i,
        {
            let ghost prev = result@;
            let c = word[i];
            let z = self.get_finger(c);
            if z != 0 {
                push_own_findings(&mut result, c, z);
                assert(result@ =~= prev + own_findings(c, z as int));
                self.push_pair_finding(&mut result, word, i, z);
            }
            assert(result@ =~= prev + position_findings(table, word@, i as int));
            i = i + 1;
        }
        result
    }
}

/// The three kinds of finding.
#[derive(Debug, Clone, Copy, PartialEq, Eq, Structural)]
pub enum PatternKind {
    Weak,
    SameFinger,
    Unbound,
}

/// The kind of a finding.
pub open spec fn kind_of(f: BadPattern) -> PatternKind {
    match f {
        BadPattern::WeakPosition(_) => PatternKind::Weak,
        BadPattern::SameFinger(_, _) => PatternKind::SameFinger,
        BadPattern::UnboundPosition(_) => PatternKind::Unbound,
    }
}

/// How many findings of `s` are of kind `kind`.
pub open spec fn count_of(s: Seq<BadPattern>, kind: PatternKind) -> nat
    decreases s.len(),
{
    if s.len() == 0 {
        0
    } else {
        count_of(s.drop_last(), kind) + if kind_of(s.last()) == kind {
            1nat
        } else {
            0nat
        }
    }
}

/// The number of findings in a tally, in all and by kind.
pub struct PatternCounts {
    pub total: usize,
    pub weak: usize,
    pub same_finger: usize,
    pub unbound: usize,
}

/// The kind of `f`.
pub fn pattern_kind(f: &BadPattern) -> (r: PatternKind)
    ensures
        r == kind_of(*f),
{
    match f {
        BadPattern::WeakPosition(_) => PatternKind::Weak,
        BadPattern::SameFinger(_, _) => PatternKind::SameFinger,
        BadPattern::UnboundPosition(_) => PatternKind::Unbound,
    }
}

proof fn lemma_count_bound(s: Seq<BadPattern>, kind: PatternKind)
    ensures
        count_of(s, kind) <= s.len(),
    decreases s.len(),
{
    if s.len() > 0 {
        lemma_count_bound(s.drop_last(), kind);
    }
}

/// Counts the findings of `findings`, in all and by kind.
pub fn count_patterns(findings: &Vec<BadPattern>) -> (r: PatternCounts)
    ensures
        r.total == findings@.len(),
        r.weak == count_of(findings@, PatternKind::Weak),
        r.same_finger == count_of(findings@, PatternKind::SameFinger),
        r.unbound == count_of(findings@, PatternKind::Unbound),
{
    let mut weak: usize = 0;
    let mut same_finger: usize = 0;
    let mut unbound: usize = 0;
    let mut i: usize = 0;
    while i < findings.len()
        invariant
            i <= findings@.len(),
            weak == count_of(findings@.take(i as int), PatternKind::Weak),
            same_finger == count_of(findings@.take(i as int), PatternKind::SameFinger),
            unbound == count_of(findings@.take(i as int), PatternKind::Unbound),
        decreases findings@.len() - i,
    {
        proof {
            assert(findings@.take(i + 1).drop_last() =~= findings@.take(i as int));
            lemma_count_bound(findings@.take(i as int), PatternKind::Weak);
            lemma_count_bound(findings@.take(i as int), PatternKind::SameFinger);
            lemma_count_bound(findings@.take(i as int), PatternKind::Unbound);
        }
        match pattern_kind(&findings[i]) {
            PatternKind::Weak => weak = weak + 1,
            PatternKind::SameFinger => same_finger = same_finger + 1,
            PatternKind::Unbound => unbound = unbound + 1,
        }
        i = i + 1;
    }
    assert(findings@.take(findings@.len() as int) =~= findings@);
    PatternCounts { total: findings.len(), weak, same_finger, unbound }
}

} // verus!
