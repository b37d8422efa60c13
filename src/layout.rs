//! Keyboard layouts: a named table from characters to finger zones.
//!
//! A finger zone is a signed code: `0` for a character the layout does not
//! place, negative for the left hand, positive for the right hand. Its
//! magnitude grows with the distance from the home area: `1` is the inner
//! index-stretch column, `2` to `4` the index, middle and ring columns, `5`
//! the pinky's outer home column, and `6` and `7` the far punctuation columns
//! that only an outward pinky stretch reaches (on the right hand only).
use vstd::prelude::*;

verus! {

/// The zone that `table` gives `c` among its first `n` entries: the last of
/// them whose character is `c` decides, as when the pairs are inserted into a
/// map in order; `0` where none is `c`.
pub open spec fn zone_upto(table: Seq<(char, i8)>, c: char, n: int) -> int
    decreases n,
{
    if n <= 0 {
        0
    } else if table[n - 1].0 == c {
        table[n - 1].1 as int
    } else {
        zone_upto(table, c, n - 1)
    }
}

/// The zone that `table` gives `c`.
pub open spec fn zone_in(table: Seq<(char, i8)>, c: char) -> int {
    zone_upto(table, c, table.len() as int)
}

/// Whether `table` has an entry for `c`.
pub open spec fn in_table(table: Seq<(char, i8)>, c: char) -> bool {
    exists|i: int| 0 <= i < table.len() && (#[trigger] table[i]).0 == c
}

/// A character without an entry lies in zone `0`.
pub proof fn lemma_absent_zone_zero(table: Seq<(char, i8)>, c: char, n: int)
    requires
        0 <= n <= table.len(),
        forall|i: int| 0 <= i < n ==> (#[trigger] table[i]).0 != c,
    ensures
        zone_upto(table, c, n) == 0,
    decreases n,
{
    if n > 0 {
        lemma_absent_zone_zero(table, c, n - 1);
    }
}

/// A character missing from a table lies in zone `0` of that table.
pub proof fn lemma_unmapped_is_zero(table: Seq<(char, i8)>, c: char)
    requires
        !in_table(table, c),
    ensures
        zone_in(table, c) == 0,
{
    lemma_absent_zone_zero(table, c, table.len() as int);
}

/// The Qwerty table: each character with its finger zone.
pub open spec fn qwerty_table() -> Seq<(char, i8)> {
    seq![
        ('1', -5i8), ('!', -5i8), ('q', -5i8), ('a', -5i8), ('z', -5i8), ('2', -4i8),
        ('@', -4i8), ('w', -4i8), ('s', -4i8), ('x', -4i8), ('3', -3i8), ('#', -3i8),
        ('e', -3i8), ('d', -3i8), ('c', -3i8), ('4', -2i8), ('$', -2i8), ('r', -2i8),
        ('f', -2i8), ('v', -2i8), ('5', -1i8), ('%', -1i8), ('t', -1i8), ('g', -1i8),
        ('b', -1i8), ('6', 1i8), ('^', 1i8), ('y', 1i8), ('h', 1i8), ('n', 1i8), ('7', 2i8),
        ('&', 2i8), ('u', 2i8), ('j', 2i8), ('m', 2i8), ('8', 3i8), ('*', 3i8), ('i', 3i8),
        ('k', 3i8), (',', 3i8), ('<', 3i8), ('9', 4i8), ('(', 4i8), ('o', 4i8), ('l', 4i8),
        ('.', 4i8), ('>', 3i8), ('0', 5i8), (')', 5i8), ('p', 5i8), (';', 5i8), ('/', 5i8),
        ('-', 6i8), ('_', 6i8), ('[', 6i8), ('{', 6i8), ('\'', 6i8), ('"', 6i8), ('=', 7i8),
        ('+', 7i8), (']', 7i8), ('}', 7i8),
    ]
}

/// The Colemak table: each character with its finger zone.
pub open spec fn colemak_table() -> Seq<(char, i8)> {
    seq![
        ('1', -5i8), ('!', -5i8), ('q', -5i8), ('a', -5i8), ('z', -5i8), ('2', -4i8),
        ('@', -4i8), ('w', -4i8), ('r', -4i8), ('x', -4i8), ('3', -3i8), ('#', -3i8),
        ('f', -3i8), ('s', -3i8), ('c', -3i8), ('4', -2i8), ('$', -2i8), ('p', -2i8),
        ('t', -2i8), ('v', -2i8), ('5', -1i8), ('%', -1i8), ('g', -1i8), ('d', -1i8),
        ('b', -1i8), ('6', 1i8), ('^', 1i8), ('j', 1i8), ('h', 1i8), ('k', 1i8), ('7', 2i8),
        ('&', 2i8), ('l', 2i8), ('n', 2i8), ('m', 2i8), ('8', 3i8), ('*', 3i8), ('u', 3i8),
        ('e', 3i8), (',', 3i8), ('<', 3i8), ('9', 4i8), ('(', 4i8), ('y', 4i8), ('i', 4i8),
        ('.', 4i8), ('>', 3i8), ('0', 5i8), (')', 5i8), (';', 5i8), ('o', 5i8), ('/', 5i8),
        ('-', 6i8), ('_', 6i8), ('[', 6i8), ('{', 6i8), ('\'', 6i8), ('"', 6i8), ('=', 7i8),
        ('+', 7i8), (']', 7i8), ('}', 7i8),
    ]
}

/// The Dvorak table: each character with its finger zone.
pub open spec fn dvorak_table() -> Seq<(char, i8)> {
    seq![
        ('1', -5i8), ('!', -5i8), ('/', -5i8), ('?', -5i8), ('a', -5i8), (';', -5i8),
        (':', -5i8), ('2', -4i8), ('@', -4i8), (',', -4i8), ('<', -4i8), ('o', -4i8),
        ('q', -3i8), ('3', -3i8), ('#', -3i8), ('.', -3i8), ('>', -3i8), ('e', -3i8),
        ('j', -3i8), ('4', -2i8), ('$', -2i8), ('p', -2i8), ('u', -2i8), ('k', -2i8),
        ('5', -1i8), ('%', -1i8), ('y', -1i8), ('i', -1i8), ('x', -1i8), ('6', 1i8), ('^', 1i8),
        ('f', 1i8), ('d', 1i8), ('b', 1i8), ('7', 2i8), ('&', 2i8), ('g', 2i8), ('h', 2i8),
        ('m', 2i8), ('8', 3i8), ('*', 3i8), ('c', 3i8), ('t', 3i8), ('w', 3i8), ('9', 4i8),
        ('(', 4i8), ('r', 4i8), ('n', 4i8), ('v', 4i8), ('0', 5i8), (')', 5i8), ('l', 5i8),
        ('s', 5i8), ('z', 5i8), ('[', 6i8), ('{', 6i8), ('-', 6i8), ('_', 6i8), (']', 7i8),
        ('}', 7i8), ('+', 7i8), ('=', 7i8),
    ]
}

/// Whether `name` is the name of one of the built-in layouts.
pub open spec fn is_builtin_name(name: Seq<char>) -> bool {
    name == "qwerty"@ || name == "colemak"@ || name == "dvorak"@
}

/// The table of the built-in layout called `name`.
pub open spec fn builtin_table(name: Seq<char>) -> Seq<(char, i8)> {
    if name == "qwerty"@ {
        qwerty_table()
    } else if name == "colemak"@ {
        colemak_table()
    } else if name == "dvorak"@ {
        dvorak_table()
    } else {
        Seq::empty()
    }
}

/// A named keyboard layout. It is built once, by one of the constructors of
/// the built-in layouts, and only read afterwards.
pub struct KeyLayout {
    name: String,
    table: Vec<(char, i8)>,
}

impl KeyLayout {
    /// The layout's name.
    pub closed spec fn spec_name(&self) -> Seq<char> {
        self.name@
    }

    /// The layout's table.
    pub closed spec fn spec_table(&self) -> Seq<(char, i8)> {
        self.table@
    }

    /// The zone of `c` in this layout.
    pub open spec fn zone(&self, c: char) -> int {
        zone_in(self.spec_table(), c)
    }

    /// A layout is one of the built-in ones: its name fixes its table.
    pub open spec fn wf(&self) -> bool {
        is_builtin_name(self.spec_name()) && self.spec_table() == builtin_table(self.spec_name())
    }

    /// The finger zone of `c`; `0` where the layout does not place `c`.
    pub fn get_finger(&self, c: char) -> (r: i8)
        ensures
            r as int == self.zone(c),
    {
        let mut i: usize = self.table.len();
        while i > 0
            invariant
                i <= self.table@.len(),
                zone_in(self.table@, c) == zone_upto(self.table@, c, i as int),
            decreases i,
        {
            let (k, z) = self.table[i - 1];
            if k == c {
                return z;
            }
            i = i - 1;
        }
        0
    }

    /// A copy of the layout's name.
    pub fn name_string(&self) -> (r: String)
        ensures
            r@ == self.spec_name(),
    {
        self.name.clone()
    }

    /// The layout's name: `"qwerty"`, `"colemak"` or `"dvorak"`.
    pub fn get_name(&self) -> (r: &str)
        ensures
            r@ == self.spec_name(),
    {
        self.name.as_str()
    }
}

fn qwerty_pairs() -> (r: Vec<(char, i8)>)
    ensures
        r@ == qwerty_table(),
{
    let r = vec![
        ('1', -5i8), ('!', -5i8), ('q', -5i8), ('a', -5i8), ('z', -5i8), ('2', -4i8),
        ('@', -4i8), ('w', -4i8), ('s', -4i8), ('x', -4i8), ('3', -3i8), ('#', -3i8),
        ('e', -3i8), ('d', -3i8), ('c', -3i8), ('4', -2i8), ('$', -2i8), ('r', -2i8),
        ('f', -2i8), ('v', -2i8), ('5', -1i8), ('%', -1i8), ('t', -1i8), ('g', -1i8),
        ('b', -1i8), ('6', 1i8), ('^', 1i8), ('y', 1i8), ('h', 1i8), ('n', 1i8), ('7', 2i8),
        ('&', 2i8), ('u', 2i8), ('j', 2i8), ('m', 2i8), ('8', 3i8), ('*', 3i8), ('i', 3i8),
        ('k', 3i8), (',', 3i8), ('<', 3i8), ('9', 4i8), ('(', 4i8), ('o', 4i8), ('l', 4i8),
        ('.', 4i8), ('>', 3i8), ('0', 5i8), (')', 5i8), ('p', 5i8), (';', 5i8), ('/', 5i8),
        ('-', 6i8), ('_', 6i8), ('[', 6i8), ('{', 6i8), ('\'', 6i8), ('"', 6i8), ('=', 7i8),
        ('+', 7i8), (']', 7i8), ('}', 7i8),
    ];
    assert(r@ =~= qwerty_table());
    r
}

fn colemak_pairs() -> (r: Vec<(char, i8)>)
    ensures
        r@ == colemak_table(),
{
    let r = vec![
        ('1', -5i8), ('!', -5i8), ('q', -5i8), ('a', -5i8), ('z', -5i8), ('2', -4i8),
        ('@', -4i8), ('w', -4i8), ('r', -4i8), ('x', -4i8), ('3', -3i8), ('#', -3i8),
        ('f', -3i8), ('s', -3i8), ('c', -3i8), ('4', -2i8), ('$', -2i8), ('p', -2i8),
        ('t', -2i8), ('v', -2i8), ('5', -1i8), ('%', -1i8), ('g', -1i8), ('d', -1i8),
        ('b', -1i8), ('6', 1i8), ('^', 1i8), ('j', 1i8), ('h', 1i8), ('k', 1i8), ('7', 2i8),
        ('&', 2i8), ('l', 2i8), ('n', 2i8), ('m', 2i8), ('8', 3i8), ('*', 3i8), ('u', 3i8),
        ('e', 3i8), (',', 3i8), ('<', 3i8), ('9', 4i8), ('(', 4i8), ('y', 4i8), ('i', 4i8),
        ('.', 4i8), ('>', 3i8), ('0', 5i8), (')', 5i8), (';', 5i8), ('o', 5i8), ('/', 5i8),
        ('-', 6i8), ('_', 6i8), ('[', 6i8), ('{', 6i8), ('\'', 6i8), ('"', 6i8), ('=', 7i8),
        ('+', 7i8), (']', 7i8), ('}', 7i8),
    ];
    assert(r@ =~= colemak_table());
    r
}

fn dvorak_pairs() -> (r: Vec<(char, i8)>)
    ensures
        r@ == dvorak_table(),
{
    let r = vec![
        ('1', -5i8), ('!', -5i8), ('/', -5i8), ('?', -5i8), ('a', -5i8), (';', -5i8),
        (':', -5i8), ('2', -4i8), ('@', -4i8), (',', -4i8), ('<', -4i8), ('o', -4i8),
        ('q', -3i8), ('3', -3i8), ('#', -3i8), ('.', -3i8), ('>', -3i8), ('e', -3i8),
        ('j', -3i8), ('4', -2i8), ('$', -2i8), ('p', -2i8), ('u', -2i8), ('k', -2i8),
        ('5', -1i8), ('%', -1i8), ('y', -1i8), ('i', -1i8), ('x', -1i8), ('6', 1i8), ('^', 1i8),
        ('f', 1i8), ('d', 1i8), ('b', 1i8), ('7', 2i8), ('&', 2i8), ('g', 2i8), ('h', 2i8),
        ('m', 2i8), ('8', 3i8), ('*', 3i8), ('c', 3i8), ('t', 3i8), ('w', 3i8), ('9', 4i8),
        ('(', 4i8), ('r', 4i8), ('n', 4i8), ('v', 4i8), ('0', 5i8), (')', 5i8), ('l', 5i8),
        ('s', 5i8), ('z', 5i8), ('[', 6i8), ('{', 6i8), ('-', 6i8), ('_', 6i8), (']', 7i8),
        ('}', 7i8), ('+', 7i8), ('=', 7i8),
    ];
    assert(r@ =~= dvorak_table());
    r
}

/// The QWERTY layout.
pub struct QwertyLayout;

impl QwertyLayout {
    pub fn new() -> (r: KeyLayout)
        ensures
            r.wf(),
            r.spec_name() == "qwerty"@,
            r.spec_table() == qwerty_table(),
    {
        KeyLayout { name: "qwerty".to_owned(), table: qwerty_pairs() }
    }
}

/// The Colemak layout.
pub struct ColemakLayout;

impl ColemakLayout {
    pub fn new() -> (r: KeyLayout)
        ensures
            r.wf(),
            r.spec_name() == "colemak"@,
            r.spec_table() == colemak_table(),
    {
        proof {
            reveal_strlit("qwerty");
            reveal_strlit("colemak");
            assert("colemak"@.len() != "qwerty"@.len());
        }
        KeyLayout { name: "colemak".to_owned(), table: colemak_pairs() }
    }
}

/// The Dvorak layout.
pub struct DvorakLayout;

impl DvorakLayout {
    pub fn new() -> (r: KeyLayout)
        ensures
            r.wf(),
            r.spec_name() == "dvorak"@,
            r.spec_table() == dvorak_table(),
    {
        proof {
            reveal_strlit("qwerty");
            reveal_strlit("colemak");
            reveal_strlit("dvorak");
            assert("dvorak"@[0] != "qwerty"@[0]);
            assert("dvorak"@.len() != "colemak"@.len());
        }
        KeyLayout { name: "dvorak".to_owned(), table: dvorak_pairs() }
    }
}

} // verus!
