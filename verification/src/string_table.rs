//! Interning tables of the dat files: every distinct text gets a number, and the
//! entities refer to texts by those numbers.
use vstd::prelude::*;
use crate::text::{lowercase, to_lowercase};
use vstd::string::StringExecFns;

verus! {

/// Position of the last element of `entries` equal to `key`, or -1 where none is.
pub open spec fn find_last(entries: Seq<Seq<char>>, key: Seq<char>) -> int
    decreases entries.len(),
{
    if entries.len() == 0 {
        -1
    } else if entries.last() == key {
        entries.len() - 1
    } else {
        find_last(entries.drop_last(), key)
    }
}

/// `find_last` names the last position that holds `key`.
pub proof fn lemma_find_last(entries: Seq<Seq<char>>, key: Seq<char>)
    ensures
        -1 <= find_last(entries, key) < entries.len(),
        find_last(entries, key) >= 0 ==> entries[find_last(entries, key)] == key,
        forall|k: int| find_last(entries, key) < k < entries.len() ==> entries[k] != key,
    decreases entries.len(),
{
    if entries.len() > 0 && entries.last() != key {
        let d = entries.drop_last();
        lemma_find_last(d, key);
        assert forall|k: int| 0 <= k < d.len() implies d[k] == entries[k] by {}
    }
}

/// Appending `key` makes its last occurrence the new last position.
pub proof fn lemma_find_last_push(entries: Seq<Seq<char>>, key: Seq<char>)
    ensures
        find_last(entries.push(key), key) == entries.len(),
{
    assert(entries.push(key).last() == key);
}

/// The lower-cased texts of a table.
pub open spec fn folded(entries: Seq<Seq<char>>) -> Seq<Seq<char>> {
    entries.map_values(|e: Seq<char>| lowercase(e))
}

/// The text that the general table stores for `value`: the empty text is kept as "None".
pub open spec fn general_key(value: Seq<char>) -> Seq<char> {
    if value.len() == 0 {
        "None"@
    } else {
        value
    }
}

/// Where the general table finds `value`, ignoring case; -1 where it does not.
pub open spec fn general_lookup(entries: Seq<Seq<char>>, value: Seq<char>) -> int {
    find_last(folded(entries), lowercase(general_key(value)))
}

/// The general table's entries after it has been asked for the number of `value`.
pub open spec fn general_intern_entries(entries: Seq<Seq<char>>, value: Seq<char>) -> Seq<Seq<char>> {
    if general_lookup(entries, value) >= 0 {
        entries
    } else {
        entries.push(general_key(value))
    }
}

/// The number the general table gives for `value`.
pub open spec fn general_intern_index(entries: Seq<Seq<char>>, value: Seq<char>) -> int {
    if general_lookup(entries, value) >= 0 {
        general_lookup(entries, value)
    } else {
        entries.len() as int
    }
}

/// The skill table's entries after it has been asked for the number of `value`.
pub open spec fn skill_intern_entries(entries: Seq<Seq<char>>, value: Seq<char>) -> Seq<Seq<char>> {
    if find_last(entries, value) >= 0 {
        entries
    } else {
        entries.push(value)
    }
}

/// The number the skill table gives for `value`.
pub open spec fn skill_intern_index(entries: Seq<Seq<char>>, value: Seq<char>) -> int {
    if find_last(entries, value) >= 0 {
        find_last(entries, value)
    } else {
        entries.len() as int
    }
}

/// Interning a sequence of texts into the general table, one after the other:
/// the entries at the end and the numbers given, in order.
pub open spec fn general_intern_all(entries: Seq<Seq<char>>, values: Seq<Seq<char>>) -> (
    Seq<Seq<char>>,
    Seq<int>,
)
    decreases values.len(),
{
    if values.len() == 0 {
        (entries, seq![])
    } else {
        let prev = general_intern_all(entries, values.drop_last());
        (
            general_intern_entries(prev.0, values.last()),
            prev.1.push(general_intern_index(prev.0, values.last())),
        )
    }
}

/// Interning a sequence of texts into the skill table, one after the other.
pub open spec fn skill_intern_all(entries: Seq<Seq<char>>, values: Seq<Seq<char>>) -> (
    Seq<Seq<char>>,
    Seq<int>,
)
    decreases values.len(),
{
    if values.len() == 0 {
        (entries, seq![])
    } else {
        let prev = skill_intern_all(entries, values.drop_last());
        (
            skill_intern_entries(prev.0, values.last()),
            prev.1.push(skill_intern_index(prev.0, values.last())),
        )
    }
}

/// Interning never makes a table shorter, and grows it by at most one entry per text.
pub proof fn lemma_general_intern_all_len(entries: Seq<Seq<char>>, values: Seq<Seq<char>>)
    ensures
        entries.len() <= general_intern_all(entries, values).0.len() <= entries.len() + values.len(),
        general_intern_all(entries, values).1.len() == values.len(),
        forall|i: int| 0 <= i < values.len() ==> 0 <= #[trigger] general_intern_all(entries, values).1[i]
            < general_intern_all(entries, values).0.len(),
        general_intern_all(entries, values).0.subrange(0, entries.len() as int) == entries,
    decreases values.len(),
{
    if values.len() > 0 {
        let prev = general_intern_all(entries, values.drop_last());
        lemma_general_intern_all_len(entries, values.drop_last());
        lemma_find_last(folded(prev.0), lowercase(general_key(values.last())));
        assert(general_intern_all(entries, values).0.subrange(0, entries.len() as int)
            =~= prev.0.subrange(0, entries.len() as int));
    }
}

/// The skill-table counterpart of `lemma_general_intern_all_len`.
pub proof fn lemma_skill_intern_all_len(entries: Seq<Seq<char>>, values: Seq<Seq<char>>)
    ensures
        entries.len() <= skill_intern_all(entries, values).0.len() <= entries.len() + values.len(),
        skill_intern_all(entries, values).1.len() == values.len(),
        forall|i: int| 0 <= i < values.len() ==> 0 <= #[trigger] skill_intern_all(entries, values).1[i]
            < skill_intern_all(entries, values).0.len(),
        skill_intern_all(entries, values).0.subrange(0, entries.len() as int) == entries,
    decreases values.len(),
{
    if values.len() > 0 {
        let prev = skill_intern_all(entries, values.drop_last());
        lemma_skill_intern_all_len(entries, values.drop_last());
        lemma_find_last(prev.0, values.last());
        assert(skill_intern_all(entries, values).0.subrange(0, entries.len() as int)
            =~= prev.0.subrange(0, entries.len() as int));
    }
}

/// Interning texts into the skill table numbers each text by an entry that holds
/// exactly that text, and keeps the entries already there.
pub proof fn lemma_skill_intern_all_texts(entries: Seq<Seq<char>>, values: Seq<Seq<char>>)
    ensures
        skill_intern_all(entries, values).1.len() == values.len(),
        entries.len() <= skill_intern_all(entries, values).0.len() <= entries.len() + values.len(),
        forall|i: int| 0 <= i < entries.len() ==> #[trigger] skill_intern_all(entries, values).0[i] == entries[i],
        forall|j: int|
            0 <= j < values.len() ==> 0 <= #[trigger] skill_intern_all(entries, values).1[j]
                < skill_intern_all(entries, values).0.len() && skill_intern_all(entries, values).0[skill_intern_all(
                entries,
                values,
            ).1[j]] == values[j],
    decreases values.len(),
{
    if values.len() > 0 {
        let d = values.drop_last();
        let prev = skill_intern_all(entries, d);
        lemma_skill_intern_all_texts(entries, d);
        let v = values.last();
        lemma_find_last(prev.0, v);
        let cur = skill_intern_all(entries, values);
        assert forall|i: int| 0 <= i < prev.0.len() implies cur.0[i] == prev.0[i] by {}
        assert forall|j: int| 0 <= j < values.len() implies 0 <= #[trigger] cur.1[j] < cur.0.len()
            && cur.0[cur.1[j]] == values[j] by {
            if j < d.len() {
                assert(d[j] == values[j]);
                assert(cur.1[j] == prev.1[j]);
            }
        }
    }
}

/// The table of texts that `l2gamedataname.dat` holds. Lookups ignore case;
/// the table remembers whether a lookup had to add a text.
pub struct L2GeneralStringTable {
    was_changed: bool,
    /// each text, with its lower-cased form; the position is the text's number
    entries: Vec<(String, String)>,
}

impl View for L2GeneralStringTable {
    type V = Seq<Seq<char>>;

    closed spec fn view(&self) -> Seq<Seq<char>> {
        self.entries@.map_values(|e: (String, String)| e.0@)
    }
}

impl Default for L2GeneralStringTable {
    fn default() -> (r: Self)
        ensures
            r@ == Seq::<Seq<char>>::empty(),
            !r.changed(),
    {
        let r = L2GeneralStringTable { was_changed: false, entries: Vec::new() };
        assert(r@ =~= Seq::<Seq<char>>::empty());
        r
    }
}

impl Clone for L2GeneralStringTable {
    fn clone(&self) -> (r: Self)
        ensures
            r@ == self@,
            r.changed() == self.changed(),
    {
        proof {
            use_type_invariant(self);
        }
        let n = self.entries.len();
        let mut entries: Vec<(String, String)> = Vec::new();
        let mut i: usize = 0;
        while i < n
            invariant
                i <= n,
                n == self.entries@.len(),
                n <= u32::MAX,
                forall|j: int| 0 <= j < n ==> (#[trigger] self.entries@[j]).1@ == lowercase(self.entries@[j].0@),
                entries@.len() == i,
                forall|j: int| 0 <= j < i ==> #[trigger] entries@[j] == self.entries@[j],
            decreases n - i,
        {
            let a = self.entries[i].0.clone();
            let b = self.entries[i].1.clone();
            entries.push((a, b));
            i += 1;
        }
        let r = L2GeneralStringTable { was_changed: self.was_changed, entries };
        proof {
            assert(r@ =~= self@);
        }
        r
    }
}

impl L2GeneralStringTable {
    #[verifier::type_invariant]
    spec fn inv(&self) -> bool {
        &&& self.entries@.len() <= u32::MAX
        &&& forall|i: int|
            0 <= i < self.entries@.len() ==> (#[trigger] self.entries@[i]).1@ == lowercase(
                self.entries@[i].0@,
            )
    }

    /// Whether a lookup has added a text since the table was made.
    pub closed spec fn changed(&self) -> bool {
        self.was_changed
    }

    /// Whether a lookup has added a text since the table was made.
    pub fn was_changed(&self) -> (r: bool)
        ensures
            r == self.changed(),
    {
        self.was_changed
    }

    /// Number of texts in the table.
    pub fn len(&self) -> (r: usize)
        ensures
            r == self@.len(),
            r <= u32::MAX,
    {
        proof {
            use_type_invariant(self);
        }
        self.entries.len()
    }

    /// The numbers of all texts, in ascending order.
    pub fn keys(&self) -> (r: Vec<u32>)
        ensures
            r@ == Seq::new(self@.len(), |i: int| i as u32),
    {
        proof {
            use_type_invariant(self);
        }
        let n = self.entries.len();
        let mut r: Vec<u32> = Vec::new();
        let mut i: usize = 0;
        while i < n
            invariant
                i <= n,
                n == self@.len(),
                n <= u32::MAX,
                r@ =~= Seq::new(i as nat, |k: int| k as u32),
            decreases n - i,
        {
            r.push(i as u32);
            i += 1;
        }
        r
    }

    /// The text with number `key`, if there is one.
    pub fn get(&self, key: &u32) -> (r: Option<&String>)
        ensures
            (*key as int) < self@.len() ==> r is Some && r.unwrap()@ == self@[*key as int],
            (*key as int) >= self@.len() ==> r is None,
    {
        let k = *key as usize;
        if k < self.entries.len() {
            Some(&self.entries[k].0)
        } else {
            None
        }
    }

    /// The text with number `index`; the number must be in the table.
    pub fn index(&self, index: u32) -> (r: &String)
        requires
            (index as int) < self@.len(),
        ensures
            r@ == self@[index as int],
    {
        &self.entries[index as usize].0
    }

    /// Builds a table that numbers `values` in their order, starting at 0.
    pub fn from_vec(values: Vec<String>) -> (r: Self)
        requires
            values@.len() <= u32::MAX,
        ensures
            r@ == values@.map_values(|v: String| v@),
            !r.changed(),
    {
        let mut s = Self::default();
        let n = values.len();
        let mut i: usize = 0;
        while i < n
            invariant
                i <= n,
                n == values@.len(),
                n <= u32::MAX,
                s@ =~= values@.subrange(0, i as int).map_values(|v: String| v@),
                !s.changed(),
            decreases n - i,
        {
            let v = values[i].clone();
            s.add(v);
            i += 1;
        }
        proof {
            assert(values@.subrange(0, n as int) =~= values@);
        }
        s
    }

    /// All texts, ordered by their numbers.
    pub fn to_vec(&self) -> (r: Vec<String>)
        ensures
            r@.map_values(|v: String| v@) == self@,
    {
        let n = self.entries.len();
        let mut r: Vec<String> = Vec::new();
        let mut i: usize = 0;
        while i < n
            invariant
                i <= n,
                n == self@.len(),
                r@.len() == i,
                forall|j: int| 0 <= j < i ==> (#[trigger] r@[j])@ == self@[j],
            decreases n - i,
        {
            let v = self.entries[i].0.clone();
            r.push(v);
            i += 1;
        }
        proof {
            assert(r@.map_values(|v: String| v@) =~= self@);
        }
        r
    }

    /// Appends `value` under the next free number and returns that number.
    /// The change mark is left as it was.
    pub fn add(&mut self, value: String) -> (r: u32)
        requires
            old(self)@.len() < u32::MAX,
        ensures
            r == old(self)@.len(),
            final(self)@ == old(self)@.push(value@),
            final(self).changed() == old(self).changed(),
    {
        proof {
            use_type_invariant(&*self);
        }
        let folded = to_lowercase(value.as_str());
        let r = self.entries.len() as u32;
        let mut entries: Vec<(String, String)> = Vec::new();
        std::mem::swap(&mut entries, &mut self.entries);
        entries.push((value, folded));
        self.entries = entries;
        proof {
            assert(self@ =~= old(self)@.push(value@));
        }
        r
    }

    /// The number of `value`, ignoring case; the empty text counts as "None".
    /// Where no text matches, the text is added under the next free number and
    /// the table is marked as changed.
    pub fn get_index(&mut self, value: &str) -> (r: u32)
        requires
            old(self)@.len() < u32::MAX,
        ensures
            r == general_intern_index(old(self)@, value@),
            final(self)@ == general_intern_entries(old(self)@, value@),
            final(self).changed() == (old(self).changed() || general_lookup(old(self)@, value@) < 0),
    {
        proof {
            use_type_invariant(&*self);
        }
        let key: &str = if value.is_empty() {
            "None"
        } else {
            value
        };
        proof {
            reveal_strlit("None");
            assert(key@ == general_key(value@));
        }
        let lower = to_lowercase(key);
        let ghost f = folded(self@);
        proof {
            lemma_find_last(f, lower@);
            assert forall|j: int| 0 <= j < self.entries@.len() implies #[trigger] f[j]
                == self.entries@[j].1@ by {}
        }
        let n = self.entries.len();
        let mut i: usize = n;
        while i > 0
            invariant
                i <= n,
                n == self.entries@.len(),
                n <= u32::MAX,
                self@ == old(self)@,
                lower@ == lowercase(general_key(value@)),
                f.len() == n,
                f == folded(self@),
                forall|j: int| 0 <= j < n ==> #[trigger] f[j] == self.entries@[j].1@,
                forall|k: int| i <= k < n ==> f[k] != lower@,
            decreases i,
        {
            i = i - 1;
            if self.entries[i].1 == lower {
                proof {
                    lemma_find_last(f, lower@);
                    assert(f[i as int] == lower@);
                    let fl = find_last(f, lower@);
                    assert(fl >= i as int);
                    assert(fl <= i as int);
                }
                return i as u32;
            }
        }
        proof {
            lemma_find_last(f, lower@);
        }
        self.was_changed = true;
        self.add(key.to_string())
    }
}

/// The table of texts that `skillname-ru.dat` holds. Lookups compare texts exactly.
pub struct L2SkillStringTable {
    entries: Vec<String>,
}

impl View for L2SkillStringTable {
    type V = Seq<Seq<char>>;

    closed spec fn view(&self) -> Seq<Seq<char>> {
        self.entries@.map_values(|e: String| e@)
    }
}

impl Default for L2SkillStringTable {
    fn default() -> (r: Self)
        ensures
            r@ == Seq::<Seq<char>>::empty(),
    {
        let r = L2SkillStringTable { entries: Vec::new() };
        assert(r@ =~= Seq::<Seq<char>>::empty());
        r
    }
}

impl Clone for L2SkillStringTable {
    fn clone(&self) -> (r: Self)
        ensures
            r@ == self@,
    {
        proof {
            use_type_invariant(self);
        }
        let n = self.entries.len();
        let mut entries: Vec<String> = Vec::new();
        let mut i: usize = 0;
        while i < n
            invariant
                i <= n,
                n == self.entries@.len(),
                n <= u32::MAX,
                entries@.len() == i,
                forall|j: int| 0 <= j < i ==> #[trigger] entries@[j] == self.entries@[j],
            decreases n - i,
        {
            let a = self.entries[i].clone();
            entries.push(a);
            i += 1;
        }
        let r = L2SkillStringTable { entries };
        proof {
            assert(r@ =~= self@);
        }
        r
    }
}

impl L2SkillStringTable {
    #[verifier::type_invariant]
    spec fn inv(&self) -> bool {
        self.entries@.len() <= u32::MAX
    }

    /// Number of texts in the table.
    pub fn len(&self) -> (r: usize)
        ensures
            r == self@.len(),
            r <= u32::MAX,
    {
        proof {
            use_type_invariant(self);
        }
        self.entries.len()
    }

    /// The numbers of all texts, in ascending order.
    pub fn keys(&self) -> (r: Vec<u32>)
        ensures
            r@ == Seq::new(self@.len(), |i: int| i as u32),
    {
        proof {
            use_type_invariant(self);
        }
        let n = self.entries.len();
        let mut r: Vec<u32> = Vec::new();
        let mut i: usize = 0;
        while i < n
            invariant
                i <= n,
                n == self@.len(),
                n <= u32::MAX,
                r@ =~= Seq::new(i as nat, |k: int| k as u32),
            decreases n - i,
        {
            r.push(i as u32);
            i += 1;
        }
        r
    }

    /// The text with number `key`, if there is one.
    pub fn get(&self, key: &u32) -> (r: Option<&String>)
        ensures
            (*key as int) < self@.len() ==> r is Some && r.unwrap()@ == self@[*key as int],
            (*key as int) >= self@.len() ==> r is None,
    {
        let k = *key as usize;
        if k < self.entries.len() {
            Some(&self.entries[k])
        } else {
            None
        }
    }

    /// The text with number `index`; the number must be in the table.
    pub fn index(&self, index: u32) -> (r: &String)
        requires
            (index as int) < self@.len(),
        ensures
            r@ == self@[index as int],
    {
        &self.entries[index as usize]
    }

    /// Builds a table that numbers `values` in their order, starting at 0.
    pub fn from_vec(values: Vec<String>) -> (r: Self)
        requires
            values@.len() <= u32::MAX,
        ensures
            r@ == values@.map_values(|v: String| v@),
    {
        let mut s = Self::default();
        let n = values.len();
        let mut i: usize = 0;
        while i < n
            invariant
                i <= n,
                n == values@.len(),
                n <= u32::MAX,
                s@ =~= values@.subrange(0, i as int).map_values(|v: String| v@),
            decreases n - i,
        {
            let v = values[i].clone();
            s.add(v);
            i += 1;
        }
        proof {
            assert(values@.subrange(0, n as int) =~= values@);
        }
        s
    }

    /// Appends `value` under the next free number and returns that number.
    pub fn add(&mut self, value: String) -> (r: u32)
        requires
            old(self)@.len() < u32::MAX,
        ensures
            r == old(self)@.len(),
            final(self)@ == old(self)@.push(value@),
    {
        proof {
            use_type_invariant(&*self);
        }
        let r = self.entries.len() as u32;
        let mut entries: Vec<String> = Vec::new();
        std::mem::swap(&mut entries, &mut self.entries);
        entries.push(value);
        self.entries = entries;
        proof {
            assert(self@ =~= old(self)@.push(value@));
        }
        r
    }

    /// The number of `value`; where the table does not hold it, it is added
    /// under the next free number.
    pub fn get_index(&mut self, value: &str) -> (r: u32)
        requires
            old(self)@.len() < u32::MAX,
        ensures
            r == skill_intern_index(old(self)@, value@),
            final(self)@ == skill_intern_entries(old(self)@, value@),
    {
        proof {
            use_type_invariant(&*self);
            lemma_find_last(self@, value@);
        }
        let owned = String::from_str(value);
        let n = self.entries.len();
        let mut i: usize = n;
        while i > 0
            invariant
                i <= n,
                n == self@.len(),
                n <= u32::MAX,
                owned@ == value@,
                self@ == old(self)@,
                forall|j: int| 0 <= j < n ==> #[trigger] self@[j] == self.entries@[j]@,
                forall|k: int| i <= k < n ==> self@[k] != value@,
            decreases i,
        {
            i = i - 1;
            if self.entries[i] == owned {
                proof {
                    lemma_find_last(self@, value@);
                    assert(self@[i as int] == self.entries@[i as int]@);
                    assert(self@[i as int] == value@);
                    let fl = find_last(self@, value@);
                    assert(fl >= i as int);
                    assert(fl <= i as int);
                }
                return i as u32;
            }
        }
        self.add(owned)
    }
}

/// Asks the general table for the number of each text, in order.
pub fn general_get_indices(table: &mut L2GeneralStringTable, texts: &Vec<&String>) -> (r: Vec<u32>)
    requires
        old(table)@.len() + texts@.len() < u32::MAX,
    ensures
        final(table)@ == general_intern_all(old(table)@, texts@.map_values(|t: &String| t@)).0,
        r@.map_values(|x: u32| x as int) == general_intern_all(
            old(table)@,
            texts@.map_values(|t: &String| t@),
        ).1,
        final(table).changed() == (old(table).changed() || final(table)@.len() > old(table)@.len()),
{
    let ghost vals = texts@.map_values(|t: &String| t@);
    let mut r: Vec<u32> = Vec::new();
    let n = texts.len();
    let mut i: usize = 0;
    while i < n
        invariant
            i <= n,
            n == texts@.len(),
            vals == texts@.map_values(|t: &String| t@),
            old(table)@.len() + n < u32::MAX,
            table@ == general_intern_all(old(table)@, vals.subrange(0, i as int)).0,
            r@.map_values(|x: u32| x as int) == general_intern_all(old(table)@, vals.subrange(0, i as int)).1,
            table.changed() == (old(table).changed() || table@.len() > old(table)@.len()),
        decreases n - i,
    {
        proof {
            lemma_general_intern_all_len(old(table)@, vals.subrange(0, i as int));
            assert(vals.subrange(0, i + 1).drop_last() =~= vals.subrange(0, i as int));
            assert(vals.subrange(0, i + 1).last() == texts@[i as int]@);
        }
        let ghost before = table@;
        let k = table.get_index(texts[i].as_str());
        proof {
            lemma_find_last(folded(before), lowercase(general_key(texts@[i as int]@)));
        }
        r.push(k);
        proof {
            assert(r@.map_values(|x: u32| x as int) =~= general_intern_all(old(table)@, vals.subrange(0, i + 1)).1);
        }
        i += 1;
    }
    proof {
        assert(vals.subrange(0, n as int) =~= vals);
    }
    r
}

/// Asks the skill table for the number of each text, in order.
pub fn skill_get_indices(table: &mut L2SkillStringTable, texts: &Vec<&String>) -> (r: Vec<u32>)
    requires
        old(table)@.len() + texts@.len() < u32::MAX,
    ensures
        final(table)@ == skill_intern_all(old(table)@, texts@.map_values(|t: &String| t@)).0,
        r@.map_values(|x: u32| x as int) == skill_intern_all(
            old(table)@,
            texts@.map_values(|t: &String| t@),
        ).1,
{
    let ghost vals = texts@.map_values(|t: &String| t@);
    let mut r: Vec<u32> = Vec::new();
    let n = texts.len();
    let mut i: usize = 0;
    while i < n
        invariant
            i <= n,
            n == texts@.len(),
            vals == texts@.map_values(|t: &String| t@),
            old(table)@.len() + n < u32::MAX,
            table@ == skill_intern_all(old(table)@, vals.subrange(0, i as int)).0,
            r@.map_values(|x: u32| x as int) == skill_intern_all(old(table)@, vals.subrange(0, i as int)).1,
        decreases n - i,
    {
        proof {
            lemma_skill_intern_all_len(old(table)@, vals.subrange(0, i as int));
            assert(vals.subrange(0, i + 1).drop_last() =~= vals.subrange(0, i as int));
            assert(vals.subrange(0, i + 1).last() == texts@[i as int]@);
        }
        let k = table.get_index(texts[i].as_str());
        r.push(k);
        proof {
            assert(r@.map_values(|x: u32| x as int) =~= skill_intern_all(old(table)@, vals.subrange(0, i + 1)).1);
        }
        i += 1;
    }
    proof {
        assert(vals.subrange(0, n as int) =~= vals);
    }
    r
}

/// Asking the general table for a text gives a number under which the table then
/// holds that text, up to case (the empty text standing for "None"); the texts it
/// held before keep their numbers.
pub proof fn law_general_index_names_text(entries: Seq<Seq<char>>, value: Seq<char>)
    ensures
        ({
            let e = general_intern_entries(entries, value);
            let i = general_intern_index(entries, value);
            &&& 0 <= i < e.len()
            &&& lowercase(e[i]) == lowercase(general_key(value))
            &&& e.subrange(0, entries.len() as int) == entries
        }),
{
    lemma_find_last(folded(entries), lowercase(general_key(value)));
    let e = general_intern_entries(entries, value);
    if general_lookup(entries, value) >= 0 {
        assert(e.subrange(0, entries.len() as int) =~= entries);
    } else {
        assert(e.subrange(0, entries.len() as int) =~= entries);
        assert(e[entries.len() as int] == general_key(value));
    }
}

/// Asking the general table twice for the same text gives the same number, and the
/// second time the table does not change.
pub proof fn law_general_index_idempotent(entries: Seq<Seq<char>>, value: Seq<char>)
    ensures
        ({
            let e = general_intern_entries(entries, value);
            &&& general_intern_entries(e, value) == e
            &&& general_intern_index(e, value) == general_intern_index(entries, value)
        }),
{
    let key = lowercase(general_key(value));
    lemma_find_last(folded(entries), key);
    if general_lookup(entries, value) < 0 {
        let e = entries.push(general_key(value));
        assert(folded(e) =~= folded(entries).push(key));
        lemma_find_last_push(folded(entries), key);
    }
}

/// Asking the skill table for a text gives a number under which the table then
/// holds exactly that text; the texts it held before keep their numbers, and asking
/// again gives the same number without a change.
pub proof fn law_skill_index_names_text(entries: Seq<Seq<char>>, value: Seq<char>)
    ensures
        ({
            let e = skill_intern_entries(entries, value);
            let i = skill_intern_index(entries, value);
            &&& 0 <= i < e.len()
            &&& e[i] == value
            &&& e.subrange(0, entries.len() as int) == entries
            &&& skill_intern_entries(e, value) == e
            &&& skill_intern_index(e, value) == i
        }),
{
    lemma_find_last(entries, value);
    let e = skill_intern_entries(entries, value);
    assert(e.subrange(0, entries.len() as int) =~= entries);
    if find_last(entries, value) < 0 {
        lemma_find_last_push(entries, value);
    }
}

} // verus!
