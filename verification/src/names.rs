//! Rows by name, in the order of the names.
use crate::table::find;
use crate::text::chars_of;
use vstd::prelude::*;

verus! {

/// Whether one text comes before another: at the first place where they differ,
/// or because it ends there.
pub open spec fn text_before(a: Seq<char>, b: Seq<char>) -> bool
    decreases a.len(),
{
    if b.len() == 0 {
        false
    } else if a.len() == 0 {
        true
    } else if a[0] == b[0] {
        text_before(a.drop_first(), b.drop_first())
    } else {
        a[0] < b[0]
    }
}

/// Of two texts one comes before the other, unless they are the same.
pub proof fn law_text_order(a: Seq<char>, b: Seq<char>, c: Seq<char>)
    ensures
        !text_before(a, a),
        a == b || text_before(a, b) || text_before(b, a),
        text_before(a, b) && text_before(b, c) ==> text_before(a, c),
    decreases a.len() + b.len() + c.len(),
{
    if a.len() > 0 {
        law_text_order(a.drop_first(), Seq::empty(), Seq::empty());
    }
    if a.len() > 0 && b.len() > 0 && a[0] == b[0] {
        law_text_order(
            a.drop_first(),
            b.drop_first(),
            if c.len() > 0 {
                c.drop_first()
            } else {
                c
            },
        );
        if a.drop_first() == b.drop_first() {
            assert(a =~= seq![a[0]] + a.drop_first());
            assert(b =~= seq![b[0]] + b.drop_first());
        }
    }
    if a.len() == 0 && b.len() == 0 {
        assert(a =~= b);
    }
}

/// The rows with one more, or with one in the place of the row that had its name.
pub open spec fn name_put<V>(s: Seq<(Seq<char>, V)>, name: Seq<char>, v: V) -> Seq<(Seq<char>, V)>
    decreases s.len(),
{
    if s.len() == 0 || text_before(name, s[0].0) {
        seq![(name, v)] + s
    } else if s[0].0 == name {
        s.update(0, (name, v))
    } else {
        seq![s[0]] + name_put(s.drop_first(), name, v)
    }
}

/// Whether the rows are in the order of their names, no two with the same name.
pub open spec fn name_sorted<V>(s: Seq<(Seq<char>, V)>) -> bool {
    forall|i: int, j: int|
        0 <= i < j < s.len() ==> text_before(#[trigger] s[i].0, #[trigger] s[j].0)
}

/// A row that was put is found, and the others are as they were.
pub proof fn law_find_name_put<V>(
    s: Seq<(Seq<char>, V)>,
    name: Seq<char>,
    v: V,
    other: Seq<char>,
)
    ensures
        find(name_put(s, name, v), other) == if other == name {
            Some(v)
        } else {
            find(s, other)
        },
    decreases s.len(),
{
    reveal_with_fuel(find, 2);
    if s.len() == 0 || text_before(name, s[0].0) {
        assert((seq![(name, v)] + s).drop_first() =~= s);
    } else if s[0].0 == name {
        assert(s.update(0, (name, v)).drop_first() =~= s.drop_first());
    } else {
        let rest = name_put(s.drop_first(), name, v);
        assert((seq![s[0]] + rest).drop_first() =~= rest);
        law_find_name_put(s.drop_first(), name, v, other);
    }
}

/// Where a row is put among sorted rows.
proof fn lemma_name_put_at<V>(s: Seq<(Seq<char>, V)>, name: Seq<char>, v: V, i: int)
    requires
        0 <= i <= s.len(),
        forall|j: int| 0 <= j < i ==> text_before(#[trigger] s[j].0, name),
        i < s.len() ==> !text_before(s[i].0, name),
    ensures
        name_put(s, name, v) == if i < s.len() && s[i].0 == name {
            s.update(i, (name, v))
        } else {
            s.insert(i, (name, v))
        },
    decreases i,
{
    if i == 0 {
        if s.len() > 0 {
            law_text_order(name, s[0].0, name);
        }
        assert(seq![(name, v)] + s =~= s.insert(0, (name, v)));
    } else {
        let rest = s.drop_first();
        assert(text_before(s[0].0, name));
        law_text_order(name, s[0].0, name);
        assert forall|j: int| 0 <= j < i - 1 implies text_before(#[trigger] rest[j].0, name) by {
            assert(rest[j] == s[j + 1]);
        }
        lemma_name_put_at(rest, name, v, i - 1);
        if i < s.len() && s[i].0 == name {
            assert(seq![s[0]] + rest.update(i - 1, (name, v)) =~= s.update(i, (name, v)));
        } else {
            assert(seq![s[0]] + rest.insert(i - 1, (name, v)) =~= s.insert(i, (name, v)));
        }
    }
}

/// Putting a row keeps the order.
proof fn lemma_name_put_sorted<V>(s: Seq<(Seq<char>, V)>, name: Seq<char>, v: V, i: int)
    requires
        name_sorted(s),
        0 <= i <= s.len(),
        forall|j: int| 0 <= j < i ==> text_before(#[trigger] s[j].0, name),
        i < s.len() ==> !text_before(s[i].0, name),
    ensures
        name_sorted(name_put(s, name, v)),
{
    lemma_name_put_at(s, name, v, i);
    let t = name_put(s, name, v);
    let same = i < s.len() && s[i].0 == name;
    assert forall|a: int, b: int| 0 <= a < b < t.len() implies text_before(
        #[trigger] t[a].0,
        #[trigger] t[b].0,
    ) by {
        if same {
            assert(t[a].0 == s[a].0 && t[b].0 == s[b].0);
        } else {
            if i < s.len() {
                law_text_order(name, s[i].0, name);
                assert(text_before(name, s[i].0));
            }
            if b < i {
                assert(t[a] == s[a] && t[b] == s[b]);
            } else if b == i {
                assert(t[a] == s[a]);
            } else if a < i {
                assert(t[a] == s[a] && t[b] == s[b - 1]);
            } else if a == i {
                assert(t[b] == s[b - 1]);
                if b - 1 > i {
                    assert(text_before(s[i].0, s[b - 1].0));
                    law_text_order(name, s[i].0, s[b - 1].0);
                }
            } else {
                assert(t[a] == s[a - 1] && t[b] == s[b - 1]);
            }
        }
    }
}

/// The place of a name among sorted rows: behind all that come before it.
proof fn lemma_name_place<V>(s: Seq<(Seq<char>, V)>, name: Seq<char>) -> (i: int)
    requires
        name_sorted(s),
    ensures
        0 <= i <= s.len(),
        forall|j: int| 0 <= j < i ==> text_before(#[trigger] s[j].0, name),
        i < s.len() ==> !text_before(s[i].0, name),
    decreases s.len(),
{
    if s.len() == 0 || !text_before(s[0].0, name) {
        0
    } else {
        let rest = s.drop_first();
        assert forall|a: int, b: int| 0 <= a < b < rest.len() implies text_before(
            #[trigger] rest[a].0,
            #[trigger] rest[b].0,
        ) by {
            assert(rest[a] == s[a + 1] && rest[b] == s[b + 1]);
        }
        let k = lemma_name_place(rest, name);
        assert forall|j: int| 0 <= j < k + 1 implies text_before(#[trigger] s[j].0, name) by {
            if j > 0 {
                assert(rest[j - 1] == s[j]);
            }
        }
        if k < rest.len() {
            assert(rest[k] == s[k + 1]);
        }
        k + 1
    }
}

/// Putting a row keeps the order of the names, and every row is the one that was
/// put or was there.
pub proof fn law_name_put_keeps<V>(s: Seq<(Seq<char>, V)>, name: Seq<char>, v: V)
    requires
        name_sorted(s),
    ensures
        name_sorted(name_put(s, name, v)),
        forall|j: int|
            0 <= j < name_put(s, name, v).len() ==> #[trigger] name_put(s, name, v)[j] == (name, v)
                || s.contains(name_put(s, name, v)[j]),
{
    let i = lemma_name_place(s, name);
    lemma_name_put_at(s, name, v, i);
    lemma_name_put_sorted(s, name, v, i);
    let t = name_put(s, name, v);
    assert forall|j: int| 0 <= j < t.len() implies #[trigger] t[j] == (name, v) || s.contains(
        t[j],
    ) by {
        if j != i {
            if t.len() == s.len() || j < i {
                assert(t[j] == s[j]);
            } else {
                assert(t[j] == s[j - 1]);
            }
        }
    }
}

/// A row of sorted rows is found by its name.
pub proof fn law_row_found<V>(s: Seq<(Seq<char>, V)>, i: int)
    requires
        name_sorted(s),
        0 <= i < s.len(),
    ensures
        find(s, s[i].0) == Some(s[i].1),
    decreases s.len(),
{
    if i > 0 {
        let rest = s.drop_first();
        assert(text_before(s[0].0, s[i].0));
        law_text_order(s[0].0, s[i].0, s[0].0);
        assert forall|a: int, b: int| 0 <= a < b < rest.len() implies text_before(
            #[trigger] rest[a].0,
            #[trigger] rest[b].0,
        ) by {
            assert(rest[a] == s[a + 1] && rest[b] == s[b + 1]);
        }
        assert(rest[i - 1] == s[i]);
        law_row_found(rest, i - 1);
    }
}

fn is_before(a: &str, b: &str) -> (r: bool)
    ensures
        r == text_before(a@, b@),
{
    let x = chars_of(a);
    let y = chars_of(b);
    let mut i: usize = 0;
    proof {
        assert(x@.skip(0) =~= x@ && y@.skip(0) =~= y@);
    }
    while i < x.len() && i < y.len() && x[i] == y[i]
        invariant
            x@ == a@,
            y@ == b@,
            i <= x@.len(),
            i <= y@.len(),
            text_before(a@, b@) == text_before(x@.skip(i as int), y@.skip(i as int)),
        decreases x@.len() - i,
    {
        proof {
            assert(x@.skip(i as int).drop_first() =~= x@.skip(i + 1));
            assert(y@.skip(i as int).drop_first() =~= y@.skip(i + 1));
        }
        i = i + 1;
    }
    if i == y.len() {
        false
    } else if i == x.len() {
        true
    } else {
        x[i] < y[i]
    }
}

/// Rows by name, in the order of the names.
#[derive(Debug)]
pub struct NameTable<V> {
    rows: Vec<(String, V)>,
}

impl<V> View for NameTable<V> {
    type V = Seq<(Seq<char>, V)>;

    closed spec fn view(&self) -> Seq<(Seq<char>, V)> {
        self.rows@.map_values(|e: (String, V)| (e.0@, e.1))
    }
}

impl<V> NameTable<V> {
    #[verifier::type_invariant]
    spec fn ordered(self) -> bool {
        name_sorted(self@)
    }

    pub fn new() -> (t: NameTable<V>)
        ensures
            t@ == Seq::<(Seq<char>, V)>::empty(),
    {
        let rows: Vec<(String, V)> = Vec::new();
        proof {
            assert(rows@.map_values(|e: (String, V)| (e.0@, e.1)) =~= Seq::empty());
        }
        NameTable { rows }
    }

    pub fn len(&self) -> (n: usize)
        ensures
            n == self@.len(),
            name_sorted(self@),
    {
        proof {
            use_type_invariant(&*self);
        }
        self.rows.len()
    }

    pub fn name_at(&self, i: usize) -> (name: &str)
        requires
            i < self@.len(),
        ensures
            name@ == self@[i as int].0,
    {
        self.rows[i].0.as_str()
    }

    pub fn row_at(&self, i: usize) -> (row: &V)
        requires
            i < self@.len(),
        ensures
            *row == self@[i as int].1,
    {
        &self.rows[i].1
    }

    /// The row with a name.
    pub fn find(&self, name: &str) -> (r: Option<&V>)
        ensures
            match r {
                Some(row) => find(self@, name@) == Some(*row),
                None => find(self@, name@) is None,
            },
    {
        let mut i: usize = 0;
        proof {
            assert(self@.skip(0) =~= self@);
        }
        while i < self.rows.len()
            invariant
                i <= self@.len(),
                self@.len() == self.rows@.len(),
                find(self@, name@) == find(self@.skip(i as int), name@),
            decreases self@.len() - i,
        {
            proof {
                assert(self@.skip(i as int).drop_first() =~= self@.skip(i + 1));
                assert(self@[i as int] == (self.rows@[i as int].0@, self.rows@[i as int].1));
            }
            if crate::text::same_text(self.rows[i].0.as_str(), name) {
                return Some(&self.rows[i].1);
            }
            i = i + 1;
        }
        None
    }

    /// Puts a row, in the place of the row that had its name.
    pub fn put(&mut self, name: String, row: V)
        ensures
            final(self)@ == name_put(old(self)@, name@, row),
    {
        proof {
            use_type_invariant(&*self);
        }
        let ghost before = self@;
        let mut rows: Vec<(String, V)> = Vec::new();
        std::mem::swap(&mut rows, &mut self.rows);
        let mut i: usize = 0;
        while i < rows.len() && is_before(rows[i].0.as_str(), name.as_str())
            invariant
                i <= rows@.len(),
                forall|j: int| 0 <= j < i ==> text_before((#[trigger] rows@[j]).0@, name@),
            decreases rows@.len() - i,
        {
            i = i + 1;
        }
        proof {
            assert forall|j: int| 0 <= j < i implies text_before(
                #[trigger] before[j].0,
                name@,
            ) by {
                assert(before[j].0 == rows@[j].0@);
            }
            lemma_name_put_at(before, name@, row, i as int);
            lemma_name_put_sorted(before, name@, row, i as int);
        }
        if i < rows.len() && crate::text::same_text(rows[i].0.as_str(), name.as_str()) {
            let ghost entry = (name@, row);
            rows.set(i, (name, row));
            proof {
                assert(rows@.map_values(|e: (String, V)| (e.0@, e.1)) =~= before.update(
                    i as int,
                    entry,
                ));
            }
        } else {
            let ghost entry = (name@, row);
            rows.insert(i, (name, row));
            proof {
                assert(rows@.map_values(|e: (String, V)| (e.0@, e.1)) =~= before.insert(
                    i as int,
                    entry,
                ));
            }
        }
        self.rows = rows;
    }
}

} // verus!
