//! Tables: rows in the order of their keys.
use vstd::prelude::*;

verus! {

/// The key of a row, of up to four parts, ordered by the first part that differs.
#[derive(Clone, Copy, Debug, PartialEq, Eq, Structural)]
pub struct Key {
    pub a: i64,
    pub b: i64,
    pub c: i64,
    pub d: i64,
}

/// A key of one part.
pub open spec fn k1(a: int) -> Key {
    Key { a: a as i64, b: 0, c: 0, d: 0 }
}

/// A key of two parts.
pub open spec fn k2(a: int, b: int) -> Key {
    Key { a: a as i64, b: b as i64, c: 0, d: 0 }
}

/// A key of three parts.
pub open spec fn k3(a: int, b: int, c: int) -> Key {
    Key { a: a as i64, b: b as i64, c: c as i64, d: 0 }
}

pub open spec fn key_less(x: Key, y: Key) -> bool {
    x.a < y.a || (x.a == y.a && (x.b < y.b || (x.b == y.b && (x.c < y.c || (x.c == y.c && x.d
        < y.d)))))
}

pub fn key1(a: i64) -> (k: Key)
    ensures
        k == k1(a as int),
{
    Key { a, b: 0, c: 0, d: 0 }
}

pub fn key2(a: i64, b: i64) -> (k: Key)
    ensures
        k == k2(a as int, b as int),
{
    Key { a, b, c: 0, d: 0 }
}

pub fn key3(a: i64, b: i64, c: i64) -> (k: Key)
    ensures
        k == k3(a as int, b as int, c as int),
{
    Key { a, b, c, d: 0 }
}

fn is_less(x: Key, y: Key) -> (r: bool)
    ensures
        r == key_less(x, y),
{
    x.a < y.a || (x.a == y.a && (x.b < y.b || (x.b == y.b && (x.c < y.c || (x.c == y.c && x.d
        < y.d)))))
}

/// What a table can hold: a value that has a model and can be copied.
pub trait Row: Sized {
    /// The model of a row.
    type M;

    spec fn model(&self) -> Self::M;

    fn dup(&self) -> (r: Self)
        ensures
            r.model() == self.model(),
    ;
}

/// A row that is its own model.
#[derive(Clone, Copy, Debug, PartialEq)]
pub struct Plain<T: Copy>(pub T);

impl<T: Copy> Row for Plain<T> {
    type M = T;

    open spec fn model(&self) -> T {
        self.0
    }

    fn dup(&self) -> (r: Plain<T>) {
        Plain(self.0)
    }
}

/// The row with a key.
pub open spec fn get<V>(s: Seq<(Key, V)>, k: Key) -> Option<V>
    decreases s.len(),
{
    if s.len() == 0 {
        None
    } else if s[0].0 == k {
        Some(s[0].1)
    } else {
        get(s.drop_first(), k)
    }
}

pub open spec fn in_table<V>(s: Seq<(Key, V)>, k: Key) -> bool {
    get(s, k) is Some
}

/// The table with a row, in the place of the row that had its key.
pub open spec fn put<V>(s: Seq<(Key, V)>, k: Key, v: V) -> Seq<(Key, V)>
    decreases s.len(),
{
    if s.len() == 0 || key_less(k, s[0].0) {
        seq![(k, v)] + s
    } else if s[0].0 == k {
        s.update(0, (k, v))
    } else {
        seq![s[0]] + put(s.drop_first(), k, v)
    }
}

/// The table with a row, unless it has one with that key.
pub open spec fn put_new<V>(s: Seq<(Key, V)>, k: Key, v: V) -> Seq<(Key, V)> {
    if in_table(s, k) {
        s
    } else {
        put(s, k, v)
    }
}

/// Whether the rows are in the order of their keys, no two with the same key.
pub open spec fn sorted<V>(s: Seq<(Key, V)>) -> bool {
    forall|i: int, j: int| 0 <= i < j < s.len() ==> key_less(#[trigger] s[i].0, #[trigger] s[j].0)
}

/// A row that was put is found, and the others are as they were.
pub proof fn law_get_put<V>(s: Seq<(Key, V)>, k: Key, v: V, other: Key)
    ensures
        get(put(s, k, v), other) == if other == k {
            Some(v)
        } else {
            get(s, other)
        },
    decreases s.len(),
{
    reveal_with_fuel(get, 2);
    if s.len() == 0 || key_less(k, s[0].0) {
        assert((seq![(k, v)] + s).drop_first() =~= s);
    } else if s[0].0 == k {
        assert(s.update(0, (k, v)).drop_first() =~= s.drop_first());
    } else {
        let rest = put(s.drop_first(), k, v);
        assert((seq![s[0]] + rest).drop_first() =~= rest);
        law_get_put(s.drop_first(), k, v, other);
    }
}

/// Putting a row keeps the order of a table.
pub proof fn law_put_sorted<V>(s: Seq<(Key, V)>, k: Key, v: V)
    requires
        sorted(s),
    ensures
        sorted(put(s, k, v)),
        forall|x: Key|
            s.len() > 0 && key_less(x, s[0].0) && key_less(x, k) ==> key_less(
                x,
                #[trigger] put(s, k, v)[0].0,
            ),
        put(s, k, v).len() > 0,
        forall|j: int|
            0 <= j < put(s, k, v).len() ==> (#[trigger] put(s, k, v)[j]).0 == k || exists|i: int|
                0 <= i < s.len() && put(s, k, v)[j].0 == (#[trigger] s[i]).0,
    decreases s.len(),
{
    let t = put(s, k, v);
    if s.len() == 0 || key_less(k, s[0].0) {
        assert forall|j: int| 0 <= j < t.len() implies (#[trigger] t[j]).0 == k || exists|i: int|
            0 <= i < s.len() && t[j].0 == (#[trigger] s[i]).0 by {
            if j > 0 {
                assert(t[j] == s[j - 1]);
            }
        }
    } else if s[0].0 == k {
        assert forall|j: int| 0 <= j < t.len() implies (#[trigger] t[j]).0 == k || exists|i: int|
            0 <= i < s.len() && t[j].0 == (#[trigger] s[i]).0 by {
            assert(t[j].0 == s[j].0);
        }
    } else {
        let rest = s.drop_first();
        let u = put(rest, k, v);
        law_put_sorted(rest, k, v);
        assert forall|j: int| 0 < j < t.len() implies key_less(s[0].0, #[trigger] t[j].0) by {
            assert(t[j] == u[j - 1]);
            if u[j - 1].0 != k {
                let i = choose|i: int| 0 <= i < rest.len() && u[j - 1].0 == (#[trigger] rest[i]).0;
                assert(rest[i] == s[i + 1]);
            }
        }
        assert forall|i: int, j: int| 0 <= i < j < t.len() implies key_less(
            #[trigger] t[i].0,
            #[trigger] t[j].0,
        ) by {
            if i > 0 {
                assert(t[i] == u[i - 1] && t[j] == u[j - 1]);
            }
        }
        assert forall|j: int| 0 <= j < t.len() implies (#[trigger] t[j]).0 == k || exists|i: int|
            0 <= i < s.len() && t[j].0 == (#[trigger] s[i]).0 by {
            if j == 0 {
                assert(t[0].0 == s[0].0);
            } else {
                assert(t[j] == u[j - 1]);
                if u[j - 1].0 != k {
                    let i = choose|i: int|
                        0 <= i < rest.len() && u[j - 1].0 == (#[trigger] rest[i]).0;
                    assert(rest[i] == s[i + 1]);
                }
            }
        }
    }
}

proof fn lemma_put_at<V>(s: Seq<(Key, V)>, k: Key, v: V, i: int)
    requires
        0 <= i <= s.len(),
        forall|j: int| 0 <= j < i ==> key_less(#[trigger] s[j].0, k),
        i < s.len() ==> !key_less(s[i].0, k),
    ensures
        put(s, k, v) == if i < s.len() && s[i].0 == k {
            s.update(i, (k, v))
        } else {
            s.insert(i, (k, v))
        },
        i < s.len() && s[i].0 == k ==> get(s, k) == Some(s[i].1),
    decreases i,
{
    if i == 0 {
        assert(seq![(k, v)] + s =~= s.insert(0, (k, v)));
    } else {
        let rest = s.drop_first();
        assert(key_less(s[0].0, k));
        assert forall|j: int| 0 <= j < i - 1 implies key_less(#[trigger] rest[j].0, k) by {
            assert(rest[j] == s[j + 1]);
        }
        lemma_put_at(rest, k, v, i - 1);
        if i < s.len() && s[i].0 == k {
            assert(seq![s[0]] + rest.update(i - 1, (k, v)) =~= s.update(i, (k, v)));
        } else {
            assert(seq![s[0]] + rest.insert(i - 1, (k, v)) =~= s.insert(i, (k, v)));
        }
    }
}

/// The table without the row that has a key.
pub open spec fn without<V>(s: Seq<(Key, V)>, k: Key) -> Seq<(Key, V)>
    decreases s.len(),
{
    if s.len() == 0 {
        s
    } else if s[0].0 == k {
        s.drop_first()
    } else {
        seq![s[0]] + without(s.drop_first(), k)
    }
}

/// A row that was taken out is gone, and the others are as they were.
pub proof fn law_get_without<V>(s: Seq<(Key, V)>, k: Key, other: Key)
    requires
        sorted(s),
    ensures
        get(without(s, k), other) == if other == k {
            None
        } else {
            get(s, other)
        },
    decreases s.len(),
{
    reveal_with_fuel(get, 2);
    if s.len() > 0 {
        let rest = s.drop_first();
        assert(sorted(rest)) by {
            assert forall|i: int, j: int| 0 <= i < j < rest.len() implies key_less(
                #[trigger] rest[i].0,
                #[trigger] rest[j].0,
            ) by {
                assert(rest[i] == s[i + 1] && rest[j] == s[j + 1]);
            }
        }
        if s[0].0 == k {
            if other == k {
                assert forall|j: int| 0 <= j < rest.len() implies (#[trigger] rest[j]).0 != k by {
                    assert(rest[j] == s[j + 1]);
                    assert(key_less(s[0].0, s[j + 1].0));
                }
                lemma_get_none(rest, k);
            }
        } else {
            law_get_without(rest, k, other);
            assert((seq![s[0]] + without(rest, k)).drop_first() =~= without(rest, k));
        }
    }
}

proof fn lemma_get_none<V>(s: Seq<(Key, V)>, k: Key)
    requires
        forall|j: int| 0 <= j < s.len() ==> (#[trigger] s[j]).0 != k,
    ensures
        get(s, k) is None,
    decreases s.len(),
{
    if s.len() > 0 {
        let rest = s.drop_first();
        assert(s[0].0 != k);
        assert forall|j: int| 0 <= j < rest.len() implies (#[trigger] rest[j]).0 != k by {
            assert(rest[j] == s[j + 1]);
        }
        lemma_get_none(rest, k);
    }
}

proof fn lemma_without_at<V>(s: Seq<(Key, V)>, k: Key, i: int)
    requires
        0 <= i <= s.len(),
        forall|j: int| 0 <= j < i ==> (#[trigger] s[j]).0 != k,
        i < s.len() ==> s[i].0 == k,
    ensures
        without(s, k) == if i < s.len() {
            s.remove(i)
        } else {
            s
        },
    decreases i,
{
    if s.len() > 0 {
        let rest = s.drop_first();
        if i == 0 {
            assert(s.drop_first() =~= s.remove(0));
        } else {
            assert(s[0].0 != k);
            assert forall|j: int| 0 <= j < i - 1 implies (#[trigger] rest[j]).0 != k by {
                assert(rest[j] == s[j + 1]);
            }
            lemma_without_at(rest, k, i - 1);
            if i < s.len() {
                assert(seq![s[0]] + rest.remove(i - 1) =~= s.remove(i));
            } else {
                assert(seq![s[0]] + rest =~= s);
            }
        }
    }
}

/// Rows in the order of their keys.
pub struct Table<R: Row> {
    rows: Vec<(Key, R)>,
}

impl<R: Row> View for Table<R> {
    type V = Seq<(Key, R::M)>;

    closed spec fn view(&self) -> Seq<(Key, R::M)> {
        self.rows@.map_values(|e: (Key, R)| (e.0, e.1.model()))
    }
}

impl<R: Row> Table<R> {
    #[verifier::type_invariant]
    spec fn ordered(self) -> bool {
        sorted(self@)
    }

    pub fn new() -> (t: Table<R>)
        ensures
            t@ == Seq::<(Key, R::M)>::empty(),
    {
        let t = Table { rows: Vec::new() };
        proof {
            assert(t@ =~= Seq::<(Key, R::M)>::empty());
        }
        t
    }

    /// How many rows there are. They are in the order of their keys.
    pub fn len(&self) -> (n: usize)
        ensures
            n == self@.len(),
            sorted(self@),
    {
        proof {
            use_type_invariant(&*self);
        }
        self.rows.len()
    }

    pub fn key_at(&self, i: usize) -> (k: Key)
        requires
            i < self@.len(),
        ensures
            k == self@[i as int].0,
    {
        self.rows[i].0
    }

    pub fn row_at(&self, i: usize) -> (r: &R)
        requires
            i < self@.len(),
        ensures
            r.model() == self@[i as int].1,
    {
        &self.rows[i].1
    }

    /// The row with a key.
    pub fn get(&self, k: Key) -> (r: Option<&R>)
        ensures
            match r {
                Some(row) => get(self@, k) == Some(row.model()),
                None => get(self@, k) is None,
            },
    {
        let mut i: usize = 0;
        proof {
            assert(self@.skip(0) =~= self@);
        }
        while i < self.rows.len()
            invariant
                i <= self.rows@.len(),
                self@.len() == self.rows@.len(),
                get(self@, k) == get(self@.skip(i as int), k),
            decreases self.rows@.len() - i,
        {
            if self.rows[i].0 == k {
                return Some(&self.rows[i].1);
            }
            proof {
                assert(self@.skip(i as int).drop_first() =~= self@.skip(i + 1));
            }
            i = i + 1;
        }
        None
    }

    pub fn contains(&self, k: Key) -> (r: bool)
        ensures
            r == in_table(self@, k),
    {
        match self.get(k) {
            Some(_) => true,
            None => false,
        }
    }

    /// Puts a row, in the place of the row that had its key.
    pub fn put(&mut self, k: Key, row: R)
        ensures
            final(self)@ == put(old(self)@, k, row.model()),
    {
        proof {
            use_type_invariant(&*self);
        }
        let ghost before = self@;
        let mut rows: Vec<(Key, R)> = Vec::new();
        std::mem::swap(&mut rows, &mut self.rows);
        let mut i: usize = 0;
        while i < rows.len() && is_less(rows[i].0, k)
            invariant
                i <= rows@.len(),
                forall|j: int| 0 <= j < i ==> key_less(#[trigger] rows@[j].0, k),
            decreases rows@.len() - i,
        {
            i = i + 1;
        }
        let ghost v = row.model();
        proof {
            assert forall|j: int| 0 <= j < i implies key_less(#[trigger] before[j].0, k) by {
                assert(before[j].0 == rows@[j].0);
            }
            lemma_put_at(before, k, v, i as int);
            law_put_sorted(before, k, v);
        }
        if i < rows.len() && rows[i].0 == k {
            rows.set(i, (k, row));
            proof {
                assert(rows@.map_values(|e: (Key, R)| (e.0, e.1.model())) =~= before.update(
                    i as int,
                    (k, v),
                ));
            }
        } else {
            rows.insert(i, (k, row));
            proof {
                assert(rows@.map_values(|e: (Key, R)| (e.0, e.1.model())) =~= before.insert(
                    i as int,
                    (k, v),
                ));
            }
        }
        self.rows = rows;
    }

    /// Puts a row in the place of the one at an index.
    pub fn put_at(&mut self, i: usize, row: R)
        requires
            i < old(self)@.len(),
        ensures
            final(self)@ == old(self)@.update(i as int, (old(self)@[i as int].0, row.model())),
    {
        proof {
            use_type_invariant(&*self);
        }
        let ghost before = self@;
        let mut rows: Vec<(Key, R)> = Vec::new();
        std::mem::swap(&mut rows, &mut self.rows);
        let k = rows[i].0;
        let ghost v = row.model();
        rows.set(i, (k, row));
        proof {
            let after = rows@.map_values(|e: (Key, R)| (e.0, e.1.model()));
            assert(after =~= before.update(i as int, (k, v)));
            assert forall|a: int, b: int| 0 <= a < b < after.len() implies key_less(
                #[trigger] after[a].0,
                #[trigger] after[b].0,
            ) by {
                assert(after[a].0 == before[a].0 && after[b].0 == before[b].0);
            }
        }
        self.rows = rows;
    }

    /// Puts a row behind all others.
    pub fn append(&mut self, k: Key, row: R)
        requires
            forall|j: int| 0 <= j < old(self)@.len() ==> key_less(#[trigger] old(self)@[j].0, k),
        ensures
            final(self)@ == old(self)@.push((k, row.model())),
    {
        let ghost before = self@;
        let ghost v = row.model();
        proof {
            lemma_put_at(before, k, v, before.len() as int);
            assert(before.insert(before.len() as int, (k, v)) =~= before.push((k, v)));
        }
        self.put(k, row);
    }

    /// Takes out the row with a key.
    pub fn remove(&mut self, k: Key)
        ensures
            final(self)@ == without(old(self)@, k),
    {
        proof {
            use_type_invariant(&*self);
        }
        let ghost before = self@;
        let mut rows: Vec<(Key, R)> = Vec::new();
        std::mem::swap(&mut rows, &mut self.rows);
        let mut i: usize = 0;
        while i < rows.len() && rows[i].0 != k
            invariant
                i <= rows@.len(),
                forall|j: int| 0 <= j < i ==> (#[trigger] rows@[j]).0 != k,
            decreases rows@.len() - i,
        {
            i = i + 1;
        }
        proof {
            assert forall|j: int| 0 <= j < i implies (#[trigger] before[j]).0 != k by {
                assert(before[j].0 == rows@[j].0);
            }
            lemma_without_at(before, k, i as int);
        }
        if i < rows.len() {
            let ghost full = rows@;
            rows.remove(i);
            proof {
                let after = rows@.map_values(|e: (Key, R)| (e.0, e.1.model()));
                assert(after =~= before.remove(i as int));
                assert forall|a: int, b: int| 0 <= a < b < after.len() implies key_less(
                    #[trigger] after[a].0,
                    #[trigger] after[b].0,
                ) by {
                    let x = if a < i {
                        a
                    } else {
                        a + 1
                    };
                    let y = if b < i {
                        b
                    } else {
                        b + 1
                    };
                    assert(after[a] == before[x] && after[b] == before[y]);
                }
            }
        } else {
            proof {
                assert(rows@.map_values(|e: (Key, R)| (e.0, e.1.model())) =~= before);
            }
        }
        self.rows = rows;
    }

    /// Puts a row, unless there is one with that key; whether it was put.
    pub fn put_new(&mut self, k: Key, row: R) -> (r: bool)
        ensures
            final(self)@ == put_new(old(self)@, k, row.model()),
            r == !in_table(old(self)@, k),
    {
        if self.contains(k) {
            false
        } else {
            self.put(k, row);
            true
        }
    }

    pub fn dup(&self) -> (t: Table<R>)
        ensures
            t@ == self@,
    {
        proof {
            use_type_invariant(&*self);
        }
        let mut rows: Vec<(Key, R)> = Vec::new();
        let mut i: usize = 0;
        while i < self.rows.len()
            invariant
                i <= self.rows@.len(),
                rows@.len() == i,
                forall|j: int|
                    0 <= j < i ==> (#[trigger] rows@[j]).0 == self.rows@[j].0 && rows@[j].1.model()
                        == self.rows@[j].1.model(),
            decreases self.rows@.len() - i,
        {
            rows.push((self.rows[i].0, self.rows[i].1.dup()));
            i = i + 1;
        }
        proof {
            assert(rows@.map_values(|e: (Key, R)| (e.0, e.1.model())) =~= self@);
        }
        Table { rows }
    }
}

/// The row with a name.
pub open spec fn find<V>(s: Seq<(Seq<char>, V)>, name: Seq<char>) -> Option<V>
    decreases s.len(),
{
    if s.len() == 0 {
        None
    } else if s[0].0 == name {
        Some(s[0].1)
    } else {
        find(s.drop_first(), name)
    }
}

/// The rows with one more, or with one in the place of the row that had its name.
pub open spec fn place<V>(s: Seq<(Seq<char>, V)>, name: Seq<char>, v: V) -> Seq<(Seq<char>, V)>
    decreases s.len(),
{
    if s.len() == 0 {
        seq![(name, v)]
    } else if s[0].0 == name {
        s.update(0, (name, v))
    } else {
        seq![s[0]] + place(s.drop_first(), name, v)
    }
}

/// A row that was placed is found, and the others are as they were.
pub proof fn law_find_place<V>(s: Seq<(Seq<char>, V)>, name: Seq<char>, v: V, other: Seq<char>)
    ensures
        find(place(s, name, v), other) == if other == name {
            Some(v)
        } else {
            find(s, other)
        },
    decreases s.len(),
{
    reveal_with_fuel(find, 2);
    if s.len() == 0 {
        assert(place(s, name, v).drop_first() =~= Seq::empty());
    } else if s[0].0 == name {
        assert(s.update(0, (name, v)).drop_first() =~= s.drop_first());
    } else {
        let rest = place(s.drop_first(), name, v);
        assert((seq![s[0]] + rest).drop_first() =~= rest);
        law_find_place(s.drop_first(), name, v, other);
    }
}

proof fn lemma_place_at<V>(s: Seq<(Seq<char>, V)>, name: Seq<char>, v: V, i: int)
    requires
        0 <= i <= s.len(),
        forall|j: int| 0 <= j < i ==> (#[trigger] s[j]).0 != name,
        i < s.len() ==> s[i].0 == name,
    ensures
        place(s, name, v) == if i < s.len() {
            s.update(i, (name, v))
        } else {
            s.push((name, v))
        },
        find(s, name) == if i < s.len() {
            Some(s[i].1)
        } else {
            None
        },
    decreases i,
{
    if i == 0 {
        if s.len() == 0 {
            assert(seq![(name, v)] =~= s.push((name, v)));
        }
    } else {
        assert(s[0].0 != name);
        let rest = s.drop_first();
        assert forall|j: int| 0 <= j < i - 1 implies (#[trigger] rest[j]).0 != name by {
            assert(rest[j] == s[j + 1]);
        }
        lemma_place_at(rest, name, v, i - 1);
        if i < s.len() {
            assert(seq![s[0]] + rest.update(i - 1, (name, v)) =~= s.update(i, (name, v)));
        } else {
            assert(seq![s[0]] + rest.push((name, v)) =~= s.push((name, v)));
        }
    }
}

/// Rows found by name.
pub struct TextTable<R: Row> {
    rows: Vec<(String, R)>,
}

impl<R: Row> View for TextTable<R> {
    type V = Seq<(Seq<char>, R::M)>;

    closed spec fn view(&self) -> Seq<(Seq<char>, R::M)> {
        self.rows@.map_values(|e: (String, R)| (e.0@, e.1.model()))
    }
}

impl<R: Row> TextTable<R> {
    pub fn new() -> (t: TextTable<R>)
        ensures
            t@ == Seq::<(Seq<char>, R::M)>::empty(),
    {
        let t = TextTable { rows: Vec::new() };
        proof {
            assert(t@ =~= Seq::<(Seq<char>, R::M)>::empty());
        }
        t
    }

    pub fn len(&self) -> (n: usize)
        ensures
            n == self@.len(),
    {
        self.rows.len()
    }

    pub fn name_at(&self, i: usize) -> (name: &str)
        requires
            i < self@.len(),
        ensures
            name@ == self@[i as int].0,
    {
        self.rows[i].0.as_str()
    }

    pub fn row_at(&self, i: usize) -> (r: &R)
        requires
            i < self@.len(),
        ensures
            r.model() == self@[i as int].1,
    {
        &self.rows[i].1
    }

    fn position(&self, name: &String) -> (i: usize)
        ensures
            i <= self@.len(),
            forall|j: int| 0 <= j < i ==> (#[trigger] self@[j]).0 != name@,
            i < self@.len() ==> self@[i as int].0 == name@,
    {
        let mut i: usize = 0;
        while i < self.rows.len()
            invariant
                i <= self.rows@.len() == self@.len(),
                forall|j: int| 0 <= j < i ==> (#[trigger] self@[j]).0 != name@,
            decreases self.rows@.len() - i,
        {
            if self.rows[i].0 == *name {
                return i;
            }
            i = i + 1;
        }
        i
    }

    pub fn find(&self, name: &String) -> (r: Option<&R>)
        ensures
            match r {
                Some(row) => find(self@, name@) == Some(row.model()),
                None => find(self@, name@) is None,
            },
    {
        let i: usize = self.position(name);
        if i < self.rows.len() {
            proof {
                lemma_place_at(self@, name@, self@[i as int].1, i as int);
            }
            Some(&self.rows[i].1)
        } else {
            proof {
                if self@.len() > 0 {
                    lemma_place_at(self@, name@, self@[0].1, i as int);
                }
            }
            None
        }
    }

    pub fn place(&mut self, name: String, row: R)
        ensures
            final(self)@ == place(old(self)@, name@, row.model()),
    {
        let i: usize = self.position(&name);
        let ghost before = self@;
        let ghost v = row.model();
        let ghost text = name@;
        proof {
            lemma_place_at(before, text, v, i as int);
        }
        if i < self.rows.len() {
            self.rows.set(i, (name, row));
            proof {
                assert(self@ =~= before.update(i as int, (text, v)));
            }
        } else {
            self.rows.push((name, row));
            proof {
                assert(self@ =~= before.push((text, v)));
            }
        }
    }

    pub fn dup(&self) -> (t: TextTable<R>)
        ensures
            t@ == self@,
    {
        let mut rows: Vec<(String, R)> = Vec::new();
        let mut i: usize = 0;
        while i < self.rows.len()
            invariant
                i <= self.rows@.len(),
                rows@.len() == i,
                forall|j: int|
                    0 <= j < i ==> (#[trigger] rows@[j]).0@ == self.rows@[j].0@
                        && rows@[j].1.model() == self.rows@[j].1.model(),
            decreases self.rows@.len() - i,
        {
            rows.push((self.rows[i].0.clone(), self.rows[i].1.dup()));
            i = i + 1;
        }
        let t = TextTable { rows };
        proof {
            assert(t@ =~= self@);
        }
        t
    }
}

} // verus!
