//! Aggregation of findings over a corpus, with each distinct (token, layout)
//! pair detected at most once.
use vstd::prelude::*;
use crate::layout::{KeyLayout, builtin_table, is_builtin_name};
use crate::pattern::{BadPattern, char_at, detect};
use crate::text::{char_vec, lowercase, lower_of};

verus! {

/// A remembered detection: the findings of `token` under the layout called
/// `layout`.
struct MemoEntry {
    token: Vec<char>,
    layout: String,
    findings: Vec<BadPattern>,
}

/// Every finding credited to the layout called `name`.
pub struct LayoutTally {
    pub name: String,
    pub findings: Vec<BadPattern>,
}

/// The index of the last of the first `n` tallies that belongs to `name`, or
/// `-1` where none does.
pub open spec fn tally_index(s: Seq<LayoutTally>, name: Seq<char>, n: int) -> int
    decreases n,
{
    if n <= 0 {
        -1
    } else if s[n - 1].name@ == name {
        n - 1
    } else {
        tally_index(s, name, n - 1)
    }
}

/// The tallies as a map from layout name to findings.
pub open spec fn tally_map(s: Seq<LayoutTally>) -> Map<Seq<char>, Seq<BadPattern>> {
    Map::new(
        |k: Seq<char>| tally_index(s, k, s.len() as int) >= 0,
        |k: Seq<char>| s[tally_index(s, k, s.len() as int)].findings@,
    )
}

/// The findings credited to `name` in `m`; none where `m` has no entry.
pub open spec fn tally_get(m: Map<Seq<char>, Seq<BadPattern>>, name: Seq<char>) -> Seq<BadPattern> {
    if m.contains_key(name) {
        m[name]
    } else {
        Seq::empty()
    }
}

/// The findings of token `t` that the first `n` of `layouts` credit to the
/// layout called `name`, in order.
pub open spec fn credited(t: Seq<char>, layouts: Seq<KeyLayout>, name: Seq<char>, n: int) -> Seq<
    BadPattern,
>
    decreases n,
{
    if n <= 0 {
        Seq::empty()
    } else {
        credited(t, layouts, name, n - 1) + if layouts[n - 1].spec_name() == name {
            detect(layouts[n - 1].spec_table(), t)
        } else {
            Seq::empty()
        }
    }
}

/// The tally `m` once token `t` has been credited for the first `n` of
/// `layouts`: a layout gets an entry only once it has a finding.
pub open spec fn credit_upto(
    m: Map<Seq<char>, Seq<BadPattern>>,
    t: Seq<char>,
    layouts: Seq<KeyLayout>,
    n: int,
) -> Map<Seq<char>, Seq<BadPattern>> {
    Map::new(
        |k: Seq<char>| m.contains_key(k) || credited(t, layouts, k, n).len() > 0,
        |k: Seq<char>| tally_get(m, k) + credited(t, layouts, k, n),
    )
}

/// The tally `m` once token `t` has been credited for all of `layouts`.
pub open spec fn tally_step(
    m: Map<Seq<char>, Seq<BadPattern>>,
    t: Seq<char>,
    layouts: Seq<KeyLayout>,
) -> Map<Seq<char>, Seq<BadPattern>> {
    credit_upto(m, t, layouts, layouts.len() as int)
}

/// The memo keys `keys` once token `t` has been met with the first `n` of
/// `layouts`.
pub open spec fn keys_upto(
    keys: Set<(Seq<char>, Seq<char>)>,
    t: Seq<char>,
    layouts: Seq<KeyLayout>,
    n: int,
) -> Set<(Seq<char>, Seq<char>)>
    decreases n,
{
    if n <= 0 {
        keys
    } else {
        keys_upto(keys, t, layouts, n - 1).insert((t, layouts[n - 1].spec_name()))
    }
}

/// How many of the first `n` of `layouts` meet token `t` under a key that
/// `keys`, and the layouts before, have not yet given: the detections run.
pub open spec fn fresh_upto(
    keys: Set<(Seq<char>, Seq<char>)>,
    t: Seq<char>,
    layouts: Seq<KeyLayout>,
    n: int,
) -> nat
    decreases n,
{
    if n <= 0 {
        0
    } else {
        fresh_upto(keys, t, layouts, n - 1) + if keys_upto(keys, t, layouts, n - 1).contains(
            (t, layouts[n - 1].spec_name()),
        ) {
            0nat
        } else {
            1nat
        }
    }
}

/// All layouts in `layouts` are built-in ones.
pub open spec fn all_wf(layouts: Seq<KeyLayout>) -> bool {
    forall|j: int| 0 <= j < layouts.len() ==> (#[trigger] layouts[j]).wf()
}

/// `tally_index` looks only at the names of the first `n` tallies.
proof fn lemma_tally_index_names(s1: Seq<LayoutTally>, s2: Seq<LayoutTally>, k: Seq<char>, n: int)
    requires
        n <= s1.len(),
        n <= s2.len(),
        forall|i: int| 0 <= i < n ==> (#[trigger] s1[i]).name@ == s2[i].name@,
    ensures
        tally_index(s1, k, n) == tally_index(s2, k, n),
    decreases n,
{
    if n > 0 {
        lemma_tally_index_names(s1, s2, k, n - 1);
    }
}

/// `tally_index` gives a tally of that name, or `-1`.
proof fn lemma_tally_index_bounds(s: Seq<LayoutTally>, k: Seq<char>, n: int)
    requires
        0 <= n <= s.len(),
    ensures
        -1 <= tally_index(s, k, n) < n,
        tally_index(s, k, n) >= 0 ==> s[tally_index(s, k, n)].name@ == k,
    decreases n,
{
    if n > 0 {
        lemma_tally_index_bounds(s, k, n - 1);
    }
}

/// Crediting one more layout appends its findings to its entry, if it has any.
proof fn lemma_credit_step(
    m: Map<Seq<char>, Seq<BadPattern>>,
    t: Seq<char>,
    layouts: Seq<KeyLayout>,
    n: int,
)
    requires
        0 <= n < layouts.len(),
    ensures
        ({
            let name = layouts[n].spec_name();
            let f = detect(layouts[n].spec_table(), t);
            let before = credit_upto(m, t, layouts, n);
            let after = credit_upto(m, t, layouts, n + 1);
            &&& f.len() == 0 ==> after == before
            &&& f.len() > 0 ==> after == before.insert(name, tally_get(before, name) + f)
        }),
{
    let name = layouts[n].spec_name();
    let f = detect(layouts[n].spec_table(), t);
    let before = credit_upto(m, t, layouts, n);
    let after = credit_upto(m, t, layouts, n + 1);
    assert forall|k: Seq<char>| #[trigger]
        credited(t, layouts, k, n + 1) == credited(t, layouts, k, n) + if k == name {
            f
        } else {
            Seq::empty()
        } by {}
    if f.len() == 0 {
        assert forall|k: Seq<char>| #[trigger]
            credited(t, layouts, k, n + 1) == credited(t, layouts, k, n) by {
            assert(credited(t, layouts, k, n) + Seq::<BadPattern>::empty() =~= credited(
                t,
                layouts,
                k,
                n,
            ));
        }
        assert(after =~= before);
    } else {
        let target = before.insert(name, tally_get(before, name) + f);
        assert forall|k: Seq<char>| #[trigger] after.contains_key(k) == target.contains_key(k) by {}
        assert forall|k: Seq<char>| after.contains_key(k) implies #[trigger] after[k] == target[k] by {
            if k == name {
                assert(after[k] =~= tally_get(m, k) + credited(t, layouts, k, n) + f);
            } else {
                assert(after[k] =~= tally_get(m, k) + credited(t, layouts, k, n));
            }
        }
        assert(after =~= target);
    }
}

/// Copies every finding of `src` onto the end of `dst`.
fn append_copies(dst: &mut Vec<BadPattern>, src: &Vec<BadPattern>)
    ensures
        final(dst)@ == old(dst)@ + src@,
{
    let mut i: usize = 0;
    while i < src.len()
        invariant
            i <= src@.len(),
            dst@ == old(dst)@ + src@.take(i as int),
        decreases src@.len() - i,
    {
        dst.push(src[i]);
        i = i + 1;
        assert(dst@ =~= old(dst)@ + src@.take(i as int));
    }
    assert(src@.take(src@.len() as int) =~= src@);
}

/// Credits `findings` to the layout called `name`: appended to its entry, or
/// a new entry where it has none.
fn credit(tally: &mut Vec<LayoutTally>, name: &String, findings: &Vec<BadPattern>)
    requires
        findings@.len() > 0,
    ensures
        tally_map(final(tally)@) == tally_map(old(tally)@).insert(
            name@,
            tally_get(tally_map(old(tally)@), name@) + findings@,
        ),
{
    let ghost old_s = tally@;
    let ghost old_map = tally_map(old_s);
    let mut i: usize = tally.len();
    let mut found: Option<usize> = None;
    while i > 0
        invariant_except_break
            found is None,
        invariant
            i <= tally@.len(),
            tally@ == old_s,
            tally_index(old_s, name@, old_s.len() as int) == tally_index(old_s, name@, i as int),
        ensures
            found is Some ==> found->0 < old_s.len() && found->0 as int == tally_index(
                old_s,
                name@,
                old_s.len() as int,
            ),
            found is None ==> tally_index(old_s, name@, old_s.len() as int) == -1,
        decreases i,
    {
        if tally[i - 1].name == *name {
            found = Some(i - 1);
            break ;
        }
        i = i - 1;
    }
    match found {
        Some(j) => {
            append_copies(&mut tally[j].findings, findings);
            let ghost new_s = tally@;
            let ghost new_map = tally_map(new_s);
            let ghost target = old_map.insert(name@, tally_get(old_map, name@) + findings@);
            assert forall|k: Seq<char>| true implies tally_index(new_s, k, new_s.len() as int)
                == tally_index(old_s, k, old_s.len() as int) by {
                lemma_tally_index_names(new_s, old_s, k, new_s.len() as int);
            }
            assert forall|k: Seq<char>| #[trigger]
                new_map.contains_key(k) == target.contains_key(k) by {}
            assert(new_s[j as int].findings@ == old_s[j as int].findings@ + findings@);
            proof {
                lemma_tally_index_bounds(old_s, name@, old_s.len() as int);
            }
            assert forall|k: Seq<char>| new_map.contains_key(k) implies #[trigger] new_map[k]
                == target[k] by {
                lemma_tally_index_bounds(old_s, k, old_s.len() as int);
                let idx = tally_index(old_s, k, old_s.len() as int);
                assert(tally_index(new_s, k, new_s.len() as int) == idx);
                if k != name@ {
                    assert(idx != j);
                    assert(new_s[idx] == old_s[idx]);
                }
            }
            assert(new_map =~= target);
        },
        None => {
            let mut fresh: Vec<BadPattern> = Vec::new();
            append_copies(&mut fresh, findings);
            tally.push(LayoutTally { name: name.clone(), findings: fresh });
            let ghost new_s = tally@;
            let ghost new_map = tally_map(new_s);
            let ghost target = old_map.insert(name@, tally_get(old_map, name@) + findings@);
            assert forall|k: Seq<char>| true implies tally_index(new_s, k, old_s.len() as int)
                == tally_index(old_s, k, old_s.len() as int) by {
                lemma_tally_index_names(new_s, old_s, k, old_s.len() as int);
            }
            assert forall|k: Seq<char>| #[trigger]
                new_map.contains_key(k) == target.contains_key(k) by {}
            assert forall|k: Seq<char>| new_map.contains_key(k) implies #[trigger] new_map[k]
                == target[k] by {
                lemma_tally_index_bounds(old_s, k, old_s.len() as int);
                assert(new_s.len() == old_s.len() + 1);
                if k == name@ {
                    assert(tally_index(new_s, k, new_s.len() as int) == old_s.len());
                    assert(findings@ =~= Seq::<BadPattern>::empty() + findings@);
                } else {
                    let idx = tally_index(old_s, k, old_s.len() as int);
                    assert(tally_index(new_s, k, new_s.len() as int) == idx);
                    assert(new_s[idx] == old_s[idx]);
                }
            }
            assert(new_map =~= target);
        },
    }
}

/// Whether two character vectors hold the same characters.
fn same_chars(a: &Vec<char>, b: &Vec<char>) -> (r: bool)
    ensures
        r == (a@ == b@),
{
    if a.len() != b.len() {
        return false;
    }
    let mut i: usize = 0;
    while i < a.len()
        invariant
            i <= a@.len(),
            a@.len() == b@.len(),
            forall|j: int| 0 <= j < i ==> a@[j] == b@[j],
        decreases a@.len() - i,
    {
        if a[i] != b[i] {
            return false;
        }
        i = i + 1;
    }
    assert(a@ =~= b@);
    true
}

/// The number of buckets that remembered detections are spread over.
pub const MEMO_BUCKETS: usize = 4093;

/// The memo bucket of the first `n` characters of `t`: a polynomial hash of
/// their codes, reduced modulo the number of buckets at each step.
pub open spec fn bucket_upto(t: Seq<char>, n: int) -> int
    decreases n,
{
    if n <= 0 {
        0
    } else {
        (bucket_upto(t, n - 1) * 31 + (char_at(t, n - 1) as u32) as int) % (MEMO_BUCKETS as int)
    }
}

/// The memo bucket of token `t`.
pub open spec fn bucket_of(t: Seq<char>) -> int {
    bucket_upto(t, t.len() as int)
}

/// The memo bucket of `t`.
fn token_bucket(t: &Vec<char>) -> (r: usize)
    ensures
        r as int == bucket_of(t@),
        r < MEMO_BUCKETS,
{
    let mut h: u64 = 0;
    let mut i: usize = 0;
    while i < t.len()
        invariant
            i <= t@.len(),
            h as int == bucket_upto(t@, i as int),
            h < MEMO_BUCKETS,
        decreases t@.len() - i,
    {
        h = (h * 31 + (t[i] as u32) as u64) % (MEMO_BUCKETS as u64);
        i = i + 1;
    }
    h as usize
}

/// The key under which a remembered detection is found.
spec fn entry_key(e: MemoEntry) -> (Seq<char>, Seq<char>) {
    (e.token@, e.layout@)
}

/// The index of a remembered detection of `token` under the layout called
/// `name`, if there is one.
fn find_memo(seen: &Vec<MemoEntry>, token: &Vec<char>, name: &String) -> (r: Option<usize>)
    ensures
        r is Some ==> r->0 < seen@.len() && entry_key(seen@[r->0 as int]) == (token@, name@),
        r is None ==> forall|i: int|
            0 <= i < seen@.len() ==> entry_key(#[trigger] seen@[i]) != (token@, name@),
{
    let mut i: usize = 0;
    while i < seen.len()
        invariant
            i <= seen@.len(),
            forall|j: int| 0 <= j < i ==> entry_key(#[trigger] seen@[j]) != (token@, name@),
        decreases seen@.len() - i,
    {
        if seen[i].layout == *name && same_chars(&seen[i].token, token) {
            return Some(i);
        }
        i = i + 1;
    }
    None
}

/// The state of a scan: the detections already made, and every finding
/// credited so far to each layout.
pub struct AggregationEngine {
    seen: Vec<Vec<MemoEntry>>,
    tally: Vec<LayoutTally>,
}

impl AggregationEngine {
    /// The findings credited so far, by layout name.
    pub closed spec fn tally_view(&self) -> Map<Seq<char>, Seq<BadPattern>> {
        tally_map(self.tally@)
    }

    /// The (token, layout name) pairs whose detection is remembered.
    pub closed spec fn memo_keys(&self) -> Set<(Seq<char>, Seq<char>)> {
        Set::new(
            |k: (Seq<char>, Seq<char>)|
                exists|b: int, i: int|
                    0 <= b < self.seen@.len() && 0 <= i < self.seen@[b]@.len() && entry_key(
                        #[trigger] self.seen@[b]@[i],
                    ) == k,
        )
    }

    /// The remembered findings, by (token, layout name).
    pub closed spec fn memo_view(&self) -> Map<(Seq<char>, Seq<char>), Seq<BadPattern>> {
        Map::new(
            |k: (Seq<char>, Seq<char>)| self.memo_keys().contains(k),
            |k: (Seq<char>, Seq<char>)|
                {
                    let (b, i) = choose|b: int, i: int|
                        0 <= b < self.seen@.len() && 0 <= i < self.seen@[b]@.len() && entry_key(
                            #[trigger] self.seen@[b]@[i],
                        ) == k;
                    self.seen@[b]@[i].findings@
                },
        )
    }

    /// Every remembered detection is that of a built-in layout, holds what
    /// the detection gives, and lies in the bucket of its token.
    pub closed spec fn wf(&self) -> bool {
        &&& self.seen@.len() == MEMO_BUCKETS
        &&& forall|b: int, i: int|
            0 <= b < self.seen@.len() && 0 <= i < self.seen@[b]@.len() ==> {
                let e = #[trigger] self.seen@[b]@[i];
                &&& is_builtin_name(e.layout@)
                &&& e.findings@ == detect(builtin_table(e.layout@), e.token@)
                &&& bucket_of(e.token@) == b
            }
    }

    /// An engine at the start of a scan: nothing remembered, nothing credited.
    pub fn new() -> (r: Self)
        ensures
            r.wf(),
            r.memo_keys() == Set::<(Seq<char>, Seq<char>)>::empty(),
            r.tally_view() == Map::<Seq<char>, Seq<BadPattern>>::empty(),
    {
        let mut seen: Vec<Vec<MemoEntry>> = Vec::new();
        while seen.len() < MEMO_BUCKETS
            invariant
                seen@.len() <= MEMO_BUCKETS,
                forall|b: int| 0 <= b < seen@.len() ==> (#[trigger] seen@[b])@.len() == 0,
            decreases MEMO_BUCKETS - seen@.len(),
        {
            seen.push(Vec::new());
        }
        let r = AggregationEngine { seen, tally: Vec::new() };
        assert(r.memo_keys() =~= Set::<(Seq<char>, Seq<char>)>::empty());
        assert(r.tally_view() =~= Map::<Seq<char>, Seq<BadPattern>>::empty());
        r
    }

    /// The tallies, one entry for each layout with at least one finding.
    pub fn report(&self) -> (r: &Vec<LayoutTally>)
        ensures
            tally_map(r@) == self.tally_view(),
    {
        &self.tally
    }

    /// Remembering one more detection, in bucket `b`, adds its key.
    proof fn lemma_memo_keys_push(&self, other: &Self, b: int, e: MemoEntry)
        requires
            0 <= b < self.seen@.len(),
            other.seen@.len() == self.seen@.len(),
            forall|c: int| 0 <= c < self.seen@.len() && c != b ==> other.seen@[c] == self.seen@[c],
            other.seen@[b]@ == self.seen@[b]@.push(e),
        ensures
            other.memo_keys() == self.memo_keys().insert(entry_key(e)),
    {
        let last = self.seen@[b]@.len() as int;
        assert forall|k: (Seq<char>, Seq<char>)|
            #[trigger] other.memo_keys().contains(k) == self.memo_keys().insert(
                entry_key(e),
            ).contains(k) by {
            if self.memo_keys().contains(k) {
                let (c, i) = choose|c: int, i: int|
                    0 <= c < self.seen@.len() && 0 <= i < self.seen@[c]@.len() && entry_key(
                        #[trigger] self.seen@[c]@[i],
                    ) == k;
                if c == b {
                    assert(other.seen@[c]@[i] == self.seen@[c]@[i]);
                } else {
                    assert(other.seen@[c] == self.seen@[c]);
                }
            }
            if k == entry_key(e) {
                assert(other.seen@[b]@[last] == e);
            }
            if other.memo_keys().contains(k) {
                let (c, i) = choose|c: int, i: int|
                    0 <= c < other.seen@.len() && 0 <= i < other.seen@[c]@.len() && entry_key(
                        #[trigger] other.seen@[c]@[i],
                    ) == k;
                if c != b {
                    assert(other.seen@[c] == self.seen@[c]);
                } else if i < last {
                    assert(other.seen@[c]@[i] == self.seen@[c]@[i]);
                }
            }
        }
        assert(other.memo_keys() =~= self.memo_keys().insert(entry_key(e)));
    }

    /// Credits the already lower-cased token `word` for each of `layouts`, in
    /// order. A token of fewer than two characters is skipped and changes
    /// nothing. Otherwise each layout's findings for the token are appended to
    /// its tally, a layout getting an entry with its first finding; the
    /// detection runs only for a (token, layout name) pair not met before, and
    /// the result tells how many ran.
    pub fn process_normalized(&mut self, word: &str, layouts: &Vec<KeyLayout>) -> (computed: usize)
        requires
            old(self).wf(),
            all_wf(layouts@),
        ensures
            final(self).wf(),
            word@.len() <= 1 ==> *final(self) == *old(self) && computed == 0,
            word@.len() > 1 ==> final(self).tally_view() == tally_step(
                old(self).tally_view(),
                word@,
                layouts@,
            ),
            word@.len() > 1 ==> final(self).memo_keys() == keys_upto(
                old(self).memo_keys(),
                word@,
                layouts@,
                layouts@.len() as int,
            ),
            word@.len() > 1 ==> computed == fresh_upto(
                old(self).memo_keys(),
                word@,
                layouts@,
                layouts@.len() as int,
            ),
    {
        let chars = char_vec(word);
        if chars.len() <= 1 {
            return 0;
        }
        let ghost t = word@;
        let ghost m0 = self.tally_view();
        let ghost keys0 = self.memo_keys();
        proof {
            assert(credit_upto(m0, t, layouts@, 0) =~= m0);
        }
        let mut computed: usize = 0;
        let mut j: usize = 0;
        while j < layouts.len()
            invariant
                j <= layouts@.len(),
                chars@ == t,
                t == word@,
                all_wf(layouts@),
                self.wf(),
                computed <= j,
                self.tally_view() == credit_upto(m0, t, layouts@, j as int),
                self.memo_keys() == keys_upto(keys0, t, layouts@, j as int),
                computed == fresh_upto(keys0, t, layouts@, j as int),
            decreases layouts@.len() - j,
        {
            let layout = &layouts[j];
            let name = layout.name_string();
            let ghost f = detect(layout.spec_table(), t);
            proof {
                lemma_credit_step(m0, t, layouts@, j as int);
                assert(layouts@[j as int].wf());
            }
            let b = token_bucket(&chars);
            match find_memo(&self.seen[b], &chars, &name) {
                Some(i) => {
                    assert(self.seen@[b as int]@[i as int].findings@ == f);
                    if self.seen[b][i].findings.len() > 0 {
                        credit(&mut self.tally, &name, &self.seen[b][i].findings);
                    }
                    assert(self.memo_keys().contains((t, name@)));
                    assert(keys_upto(keys0, t, layouts@, j + 1) =~= keys_upto(
                        keys0,
                        t,
                        layouts@,
                        j as int,
                    ));
                },
                None => {
                    let findings = layout.bad_patterns_of(&chars);
                    if findings.len() > 0 {
                        credit(&mut self.tally, &name, &findings);
                    }
                    let ghost before = *self;
                    let entry = MemoEntry { token: char_vec(word), layout: name, findings };
                    let ghost e = entry;
                    self.seen[b].push(entry);
                    proof {
                        before.lemma_memo_keys_push(self, b as int, e);
                        if before.memo_keys().contains((t, name@)) {
                            let (c, i) = choose|c: int, i: int|
                                0 <= c < before.seen@.len() && 0 <= i < before.seen@[c]@.len()
                                    && entry_key(#[trigger] before.seen@[c]@[i]) == (t, name@);
                            assert(entry_key(before.seen@[b as int]@[i]) == (t, name@));
                        }
                    }
                    computed = computed + 1;
                },
            }
            j = j + 1;
        }
        computed
    }

    /// Lower-cases `token` and credits it for each of `layouts`, as
    /// `process_normalized` does with the lower-cased token.
    pub fn process(&mut self, token: &str, layouts: &Vec<KeyLayout>) -> (computed: usize)
        requires
            old(self).wf(),
            all_wf(layouts@),
        ensures
            final(self).wf(),
            lower_of(token@).len() <= 1 ==> *final(self) == *old(self) && computed == 0,
            lower_of(token@).len() > 1 ==> final(self).tally_view() == tally_step(
                old(self).tally_view(),
                lower_of(token@),
                layouts@,
            ),
            lower_of(token@).len() > 1 ==> final(self).memo_keys() == keys_upto(
                old(self).memo_keys(),
                lower_of(token@),
                layouts@,
                layouts@.len() as int,
            ),
            lower_of(token@).len() > 1 ==> computed == fresh_upto(
                old(self).memo_keys(),
                lower_of(token@),
                layouts@,
                layouts@.len() as int,
            ),
    {
        let lowered = lowercase(token);
        self.process_normalized(lowered.as_str(), layouts)
    }
}

/// `s` written `k` times in a row.
pub open spec fn repeat(s: Seq<BadPattern>, k: nat) -> Seq<BadPattern>
    decreases k,
{
    if k == 0 {
        Seq::empty()
    } else {
        repeat(s, (k - 1) as nat) + s
    }
}

/// The tally `m` once token `t` has been met `k` times, each time with all
/// of `layouts`.
pub open spec fn tally_steps(
    m: Map<Seq<char>, Seq<BadPattern>>,
    t: Seq<char>,
    layouts: Seq<KeyLayout>,
    k: nat,
) -> Map<Seq<char>, Seq<BadPattern>>
    decreases k,
{
    if k == 0 {
        m
    } else {
        tally_step(tally_steps(m, t, layouts, (k - 1) as nat), t, layouts)
    }
}

proof fn lemma_repeat_len(s: Seq<BadPattern>, k: nat)
    ensures
        repeat(s, k).len() == k * s.len(),
    decreases k,
{
    if k > 0 {
        lemma_repeat_len(s, (k - 1) as nat);
        assert(repeat(s, k).len() == (k - 1) * s.len() + s.len());
        assert((k - 1) * s.len() + s.len() == k * s.len()) by (nonlinear_arith);
    } else {
        assert(0 * s.len() == 0);
    }
}

/// A layout name that none of the first `n` layouts has is credited nothing.
proof fn lemma_credited_none(t: Seq<char>, layouts: Seq<KeyLayout>, name: Seq<char>, n: int)
    requires
        n <= layouts.len(),
        forall|i: int| 0 <= i < n ==> (#[trigger] layouts[i]).spec_name() != name,
    ensures
        credited(t, layouts, name, n) == Seq::<BadPattern>::empty(),
    decreases n,
{
    if n > 0 {
        lemma_credited_none(t, layouts, name, n - 1);
        assert(credited(t, layouts, name, n) =~= Seq::<BadPattern>::empty());
    }
}

/// A layout whose name no other layout of the first `n` has is credited
/// exactly its own findings.
proof fn lemma_credited_single(t: Seq<char>, layouts: Seq<KeyLayout>, j: int, n: int)
    requires
        0 <= j < n <= layouts.len(),
        forall|i: int|
            0 <= i < n && i != j ==> (#[trigger] layouts[i]).spec_name() != layouts[j].spec_name(),
    ensures
        credited(t, layouts, layouts[j].spec_name(), n) == detect(layouts[j].spec_table(), t),
    decreases n,
{
    let name = layouts[j].spec_name();
    if n - 1 == j {
        lemma_credited_none(t, layouts, name, j);
        assert(credited(t, layouts, name, n) =~= detect(layouts[j].spec_table(), t));
    } else {
        lemma_credited_single(t, layouts, j, n - 1);
        assert(credited(t, layouts, name, n) =~= credited(t, layouts, name, n - 1));
    }
}

/// Meeting a token once more adds, for every layout name, what the layouts
/// credit it for that token.
proof fn lemma_step_get(
    m: Map<Seq<char>, Seq<BadPattern>>,
    t: Seq<char>,
    layouts: Seq<KeyLayout>,
    name: Seq<char>,
)
    ensures
        tally_get(tally_step(m, t, layouts), name) == tally_get(m, name) + credited(
            t,
            layouts,
            name,
            layouts.len() as int,
        ),
{
    let c = credited(t, layouts, name, layouts.len() as int);
    if !tally_step(m, t, layouts).contains_key(name) {
        assert(c =~= Seq::<BadPattern>::empty());
        assert(tally_get(m, name) + c =~= Seq::<BadPattern>::empty());
    }
}

/// Tally additivity: where a token is met `k` times and the layout called
/// `name` is the only one of that name and finds `m` patterns in it, the
/// tally of that layout grows by those findings `k` times over, `k * m`
/// findings in all.
pub proof fn lemma_tally_additivity(
    m: Map<Seq<char>, Seq<BadPattern>>,
    t: Seq<char>,
    layouts: Seq<KeyLayout>,
    j: int,
    k: nat,
)
    requires
        0 <= j < layouts.len(),
        forall|i: int|
            0 <= i < layouts.len() && i != j ==> (#[trigger] layouts[i]).spec_name()
                != layouts[j].spec_name(),
    ensures
        tally_get(tally_steps(m, t, layouts, k), layouts[j].spec_name()) == tally_get(
            m,
            layouts[j].spec_name(),
        ) + repeat(detect(layouts[j].spec_table(), t), k),
        tally_get(tally_steps(m, t, layouts, k), layouts[j].spec_name()).len() == tally_get(
            m,
            layouts[j].spec_name(),
        ).len() + k * detect(layouts[j].spec_table(), t).len(),
    decreases k,
{
    let name = layouts[j].spec_name();
    let f = detect(layouts[j].spec_table(), t);
    lemma_repeat_len(f, k);
    if k > 0 {
        lemma_tally_additivity(m, t, layouts, j, (k - 1) as nat);
        let prev = tally_steps(m, t, layouts, (k - 1) as nat);
        lemma_step_get(prev, t, layouts, name);
        lemma_credited_single(t, layouts, j, layouts.len() as int);
        assert(tally_get(m, name) + repeat(f, (k - 1) as nat) + f =~= tally_get(m, name) + repeat(
            f,
            k,
        ));
    }
}

/// The keys that meeting a token adds hold every (token, layout name) pair
/// of the layouts met.
proof fn lemma_keys_upto_contains(
    keys: Set<(Seq<char>, Seq<char>)>,
    t: Seq<char>,
    layouts: Seq<KeyLayout>,
    n: int,
    i: int,
)
    requires
        0 <= i < n <= layouts.len(),
    ensures
        keys_upto(keys, t, layouts, n).contains((t, layouts[i].spec_name())),
    decreases n,
{
    if n - 1 != i {
        lemma_keys_upto_contains(keys, t, layouts, n - 1, i);
    }
}

/// Meeting keys that are already remembered neither adds keys nor detects.
proof fn lemma_known_keys(
    keys: Set<(Seq<char>, Seq<char>)>,
    t: Seq<char>,
    layouts: Seq<KeyLayout>,
    n: int,
)
    requires
        n <= layouts.len(),
        forall|i: int| 0 <= i < n ==> keys.contains((t, (#[trigger] layouts[i]).spec_name())),
    ensures
        keys_upto(keys, t, layouts, n) == keys,
        fresh_upto(keys, t, layouts, n) == 0,
    decreases n,
{
    if n > 0 {
        lemma_known_keys(keys, t, layouts, n - 1);
        assert(keys_upto(keys, t, layouts, n) =~= keys);
    }
}

/// A token met a second time with the same layouts runs no detection: the
/// first meeting remembered every pair, and the second adds no key.
pub proof fn lemma_second_meeting_detects_nothing(
    keys: Set<(Seq<char>, Seq<char>)>,
    t: Seq<char>,
    layouts: Seq<KeyLayout>,
)
    ensures
        ({
            let after = keys_upto(keys, t, layouts, layouts.len() as int);
            &&& fresh_upto(after, t, layouts, layouts.len() as int) == 0
            &&& keys_upto(after, t, layouts, layouts.len() as int) == after
        }),
{
    let after = keys_upto(keys, t, layouts, layouts.len() as int);
    assert forall|i: int| 0 <= i < layouts.len() implies after.contains(
        (t, (#[trigger] layouts[i]).spec_name()),
    ) by {
        lemma_keys_upto_contains(keys, t, layouts, layouts.len() as int, i);
    }
    lemma_known_keys(after, t, layouts, layouts.len() as int);
}

impl AggregationEngine {
    /// A remembered detection is what the detection itself gives: running it
    /// again on the token with the layout of that name yields the same findings.
    pub proof fn lemma_memo_matches_detection(&self, t: Seq<char>, layout: KeyLayout)
        requires
            self.wf(),
            layout.wf(),
            self.memo_keys().contains((t, layout.spec_name())),
        ensures
            self.memo_view().contains_key((t, layout.spec_name())),
            self.memo_view()[(t, layout.spec_name())] == detect(layout.spec_table(), t),
    {
        let k = (t, layout.spec_name());
        let (b, i) = choose|b: int, i: int|
            0 <= b < self.seen@.len() && 0 <= i < self.seen@[b]@.len() && entry_key(
                #[trigger] self.seen@[b]@[i],
            ) == k;
        let e = self.seen@[b]@[i];
        assert(e.findings@ == detect(builtin_table(e.layout@), e.token@));
    }
}

} // verus!
