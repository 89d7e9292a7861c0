use vstd::prelude::*;

verus! {

/// A stored command together with its description and optional category.
pub struct Snippet {
    pub command: String,
    pub description: String,
    pub category: Option<String>,
}

/// One entry of the category index: a category name and the positions, in
/// increasing order, of the snippets that belong to it.
pub struct Category {
    pub name: String,
    pub indices: Vec<usize>,
}

impl PartialEq for Category {
    fn eq(&self, o: &Category) -> (r: bool) {
        if self.name != o.name || self.indices.len() != o.indices.len() {
            return false;
        }
        let mut k: usize = 0;
        while k < self.indices.len()
            invariant
                k <= self.indices.len(),
                self.indices.len() == o.indices.len(),
                forall|j: int| 0 <= j < k ==> self.indices@[j] == o.indices@[j],
            decreases self.indices.len() - k,
        {
            if self.indices[k] != o.indices[k] {
                return false;
            }
            k += 1;
        }
        assert(self.indices@ =~= o.indices@);
        true
    }
}

impl vstd::std_specs::cmp::PartialEqSpecImpl for Category {
    open spec fn obeys_eq_spec() -> bool {
        true
    }

    open spec fn eq_spec(&self, o: &Category) -> bool {
        self@ == o@
    }
}

/// The mathematical value of a [`Category`].
pub struct CategoryView {
    pub name: Seq<char>,
    pub indices: Seq<usize>,
}

impl View for Category {
    type V = CategoryView;

    open spec fn view(&self) -> CategoryView {
        CategoryView { name: self.name@, indices: self.indices@ }
    }
}

/// The reserved name of the entry that holds snippets without a category.
pub open spec fn no_category() -> Seq<char> {
    "No category"@
}

/// The name of the category entry a snippet belongs to.
pub open spec fn cat_name(s: Snippet) -> Seq<char> {
    match s.category {
        Some(c) => c@,
        None => no_category(),
    }
}

/// The positions, in increasing order, of the snippets whose category is `name`.
pub open spec fn positions_with(s: Seq<Snippet>, name: Seq<char>) -> Seq<usize>
    decreases s.len(),
{
    if s.len() == 0 {
        Seq::empty()
    } else {
        let rest = positions_with(s.drop_last(), name);
        if cat_name(s.last()) == name {
            rest.push((s.len() - 1) as usize)
        } else {
            rest
        }
    }
}

/// The positions `q` after the snippet at `i` has been taken out of the list:
/// `i` itself is dropped and every position above it moves down by one.
pub open spec fn shift_out(q: Seq<usize>, i: usize) -> Seq<usize>
    decreases q.len(),
{
    if q.len() == 0 {
        Seq::empty()
    } else {
        let rest = shift_out(q.drop_last(), i);
        let p = q.last();
        if p == i {
            rest
        } else if p > i {
            rest.push((p - 1) as usize)
        } else {
            rest.push(p)
        }
    }
}

/// Some entry of `cats` is named `name`.
pub open spec fn has_category(cats: Seq<CategoryView>, name: Seq<char>) -> bool {
    exists|c: int| 0 <= c < cats.len() && #[trigger] cats[c].name == name
}

/// The position of the entry of `cats` named `name` (meaningful when there is one).
pub open spec fn category_position(cats: Seq<CategoryView>, name: Seq<char>) -> int {
    choose|c: int| 0 <= c < cats.len() && #[trigger] cats[c].name == name
}

/// No two entries of `cats` share a name.
pub open spec fn names_distinct(cats: Seq<CategoryView>) -> bool {
    forall|i: int, j: int|
        0 <= i < cats.len() && 0 <= j < cats.len() && i != j ==> #[trigger] cats[i].name
            != #[trigger] cats[j].name
}

/// `cats` is a consistent category index of the snippet list `s`: the
/// "No category" entry comes first, names are distinct, each entry lists exactly
/// the positions of its snippets, and every snippet's category has an entry.
pub open spec fn index_consistent(cats: Seq<CategoryView>, s: Seq<Snippet>) -> bool {
    &&& cats.len() >= 1
    &&& cats[0].name == no_category()
    &&& names_distinct(cats)
    &&& forall|c: int| 0 <= c < cats.len() ==> #[trigger] cats[c].indices == positions_with(s, cats[c].name)
    &&& forall|p: int| 0 <= p < s.len() ==> has_category(cats, #[trigger] cat_name(s[p]))
}

/// Some entry of `cats` lists position `p`.
pub open spec fn listed(cats: Seq<CategoryView>, p: int) -> bool {
    exists|c: int, k: int|
        0 <= c < cats.len() && 0 <= k < cats[c].indices.len() && #[trigger] cats[c].indices[k] == p
}

/// The position lists of `cats`, taken together, hold each of `0..n` exactly once
/// and nothing else.
pub open spec fn is_partition(cats: Seq<CategoryView>, n: int) -> bool {
    &&& forall|c: int, k: int|
        0 <= c < cats.len() && 0 <= k < cats[c].indices.len() ==> #[trigger] cats[c].indices[k] < n
    &&& forall|p: int| 0 <= p < n ==> #[trigger] listed(cats, p)
    &&& forall|c1: int, k1: int, c2: int, k2: int|
        0 <= c1 < cats.len() && 0 <= k1 < cats[c1].indices.len() && 0 <= c2 < cats.len() && 0
            <= k2 < cats[c2].indices.len() && #[trigger] cats[c1].indices[k1]
            == #[trigger] cats[c2].indices[k2] ==> c1 == c2 && k1 == k2
}

/// `q` is strictly increasing.
pub open spec fn increasing(q: Seq<usize>) -> bool {
    forall|a: int, b: int| 0 <= a < b < q.len() ==> #[trigger] q[a] < #[trigger] q[b]
}

/// What `positions_with` holds: exactly the positions of the snippets named
/// `name`, in increasing order.
pub proof fn lemma_positions_with(s: Seq<Snippet>, name: Seq<char>)
    requires
        s.len() <= usize::MAX + 1,
    ensures
        increasing(positions_with(s, name)),
        forall|k: int|
            0 <= k < positions_with(s, name).len() ==> {
                let p = #[trigger] positions_with(s, name)[k];
                p < s.len() && cat_name(s[p as int]) == name
            },
        forall|p: int|
            0 <= p < s.len() && cat_name(s[p]) == name ==> #[trigger] positions_with(
                s,
                name,
            ).contains(p as usize),
    decreases s.len(),
{
    if s.len() > 0 {
        let t = s.drop_last();
        lemma_positions_with(t, name);
        let rest = positions_with(t, name);
        assert forall|p: int| 0 <= p < s.len() && cat_name(s[p]) == name implies #[trigger] positions_with(
            s,
            name,
        ).contains(p as usize) by {
            if p < s.len() - 1 {
                assert(t[p] == s[p]);
                assert(rest.contains(p as usize));
                let k = choose|k: int| 0 <= k < rest.len() && rest[k] == p as usize;
                assert(positions_with(s, name)[k] == p as usize);
            } else {
                assert(positions_with(s, name).last() == p as usize);
            }
        }
    }
}

/// Adding a snippet at the end adds its position to its own category only.
pub proof fn lemma_positions_with_push(s: Seq<Snippet>, x: Snippet, name: Seq<char>)
    ensures
        positions_with(s.push(x), name) == if cat_name(x) == name {
            positions_with(s, name).push(s.len() as usize)
        } else {
            positions_with(s, name)
        },
{
    assert(s.push(x).drop_last() =~= s);
}

/// `shift_out` leaves alone a list whose positions all lie below `i`.
proof fn lemma_shift_out_below(q: Seq<usize>, i: usize)
    requires
        forall|k: int| 0 <= k < q.len() ==> #[trigger] q[k] < i,
    ensures
        shift_out(q, i) == q,
    decreases q.len(),
{
    if q.len() > 0 {
        lemma_shift_out_below(q.drop_last(), i);
        assert(q.drop_last().push(q.last()) =~= q);
    }
}

/// Taking the snippet at `i` out of the list shifts every category's positions.
pub proof fn lemma_positions_with_remove(s: Seq<Snippet>, i: int, name: Seq<char>)
    requires
        0 <= i < s.len(),
        s.len() <= usize::MAX + 1,
    ensures
        positions_with(s.remove(i), name) == shift_out(positions_with(s, name), i as usize),
    decreases s.len(),
{
    let n = s.len();
    let t = s.drop_last();
    let pt = positions_with(t, name);
    lemma_positions_with(t, name);
    if i == n - 1 {
        assert(s.remove(i) =~= t);
        lemma_shift_out_below(pt, i as usize);
        if cat_name(s.last()) == name {
            assert(pt.push((n - 1) as usize).drop_last() =~= pt);
        }
    } else {
        lemma_positions_with_remove(t, i, name);
        let r = s.remove(i);
        assert(r.drop_last() =~= t.remove(i));
        assert(r.last() == s.last());
        if cat_name(s.last()) == name {
            assert(pt.push((n - 1) as usize).drop_last() =~= pt);
        }
    }
}

/// A consistent category index is a partition of the snippet positions.
pub proof fn lemma_index_is_partition(cats: Seq<CategoryView>, s: Seq<Snippet>)
    requires
        index_consistent(cats, s),
        s.len() <= usize::MAX + 1,
    ensures
        cats.len() >= 1,
        is_partition(cats, s.len() as int),
{
    assert forall|c: int| 0 <= c < cats.len() implies {
        &&& increasing(#[trigger] cats[c].indices)
        &&& forall|k: int|
            0 <= k < cats[c].indices.len() ==> {
                let p = #[trigger] cats[c].indices[k];
                p < s.len() && cat_name(s[p as int]) == cats[c].name
            }
    } by {
        lemma_positions_with(s, cats[c].name);
    }
    assert forall|p: int| 0 <= p < s.len() implies #[trigger] listed(cats, p) by {
        assert(has_category(cats, cat_name(s[p])));
        let c = choose|c: int| 0 <= c < cats.len() && #[trigger] cats[c].name == cat_name(s[p]);
        lemma_positions_with(s, cats[c].name);
        assert(cats[c].indices.contains(p as usize));
        let k = choose|k: int| 0 <= k < cats[c].indices.len() && cats[c].indices[k] == p as usize;
        assert(cats[c].indices[k] == p);
    }
    assert forall|c1: int, k1: int, c2: int, k2: int|
        0 <= c1 < cats.len() && 0 <= k1 < cats[c1].indices.len() && 0 <= c2 < cats.len() && 0
            <= k2 < cats[c2].indices.len() && #[trigger] cats[c1].indices[k1]
            == #[trigger] cats[c2].indices[k2] implies c1 == c2 && k1 == k2 by {
        let p = cats[c1].indices[k1];
        assert(cat_name(s[p as int]) == cats[c1].name);
        assert(cat_name(s[p as int]) == cats[c2].name);
        if c1 != c2 {
            assert(cats[c1].name != cats[c2].name);
        }
        if k1 < k2 {
            assert(cats[c1].indices[k1] < cats[c1].indices[k2]);
        } else if k2 < k1 {
            assert(cats[c1].indices[k2] < cats[c1].indices[k1]);
        }
    }
}

/// The index after a snippet of category `name` is added at position `n`: its
/// position goes to the end of the entry named `name`, or to a new entry at the
/// end of the index when there is none.
pub open spec fn add_to_index(cats: Seq<CategoryView>, name: Seq<char>, n: usize) -> Seq<
    CategoryView,
> {
    if has_category(cats, name) {
        let c = category_position(cats, name);
        cats.update(c, CategoryView { name: cats[c].name, indices: cats[c].indices.push(n) })
    } else {
        cats.push(CategoryView { name, indices: seq![n] })
    }
}

/// The index after the snippet at position `i` is taken out: every entry is
/// kept, in its place, with its positions shifted.
pub open spec fn remove_from_index(cats: Seq<CategoryView>, i: usize) -> Seq<CategoryView> {
    cats.map_values(|e: CategoryView| CategoryView { name: e.name, indices: shift_out(e.indices, i) })
}

/// With distinct names, the entry named `name` is the one `category_position` picks.
pub proof fn lemma_category_position(cats: Seq<CategoryView>, name: Seq<char>, c: int)
    requires
        names_distinct(cats),
        0 <= c < cats.len(),
        cats[c].name == name,
    ensures
        has_category(cats, name),
        category_position(cats, name) == c,
{
    assert(cats[c].name == name);
    let d = category_position(cats, name);
    if d != c {
        assert(cats[d].name != cats[c].name);
    }
}

/// Adding a snippet keeps the index consistent.
pub proof fn lemma_add_consistent(cats: Seq<CategoryView>, s: Seq<Snippet>, x: Snippet)
    requires
        index_consistent(cats, s),
        s.len() <= usize::MAX,
    ensures
        index_consistent(add_to_index(cats, cat_name(x), s.len() as usize), s.push(x)),
{
    let name = cat_name(x);
    let r = add_to_index(cats, name, s.len() as usize);
    let t = s.push(x);
    let found = has_category(cats, name);
    let tc = if found { category_position(cats, name) } else { cats.len() as int };
    assert(0 <= tc < r.len() && r[tc].name == name);
    assert forall|c: int| 0 <= c < cats.len() implies #[trigger] r[c].name == cats[c].name by {}
    assert forall|i: int, j: int|
        0 <= i < r.len() && 0 <= j < r.len() && i != j implies #[trigger] r[i].name
        != #[trigger] r[j].name by {
        if i < cats.len() && j < cats.len() {
            assert(cats[i].name != cats[j].name);
        }
    }
    assert forall|c: int| 0 <= c < r.len() implies #[trigger] r[c].indices == positions_with(
        t,
        r[c].name,
    ) by {
        lemma_positions_with_push(s, x, r[c].name);
        if c != tc {
            assert(r[c] == cats[c]);
            assert(r[c].name != name);
        } else if found {
            assert(cats[c].indices == positions_with(s, name));
        } else {
            lemma_positions_with(s, name);
            let q = positions_with(s, name);
            if q.len() > 0 {
                let p = q[0];
                assert(has_category(cats, cat_name(s[p as int])));
            }
            assert(q =~= Seq::<usize>::empty());
            assert(r[c].indices =~= q.push(s.len() as usize));
        }
    }
    assert forall|p: int| 0 <= p < t.len() implies has_category(r, #[trigger] cat_name(t[p])) by {
        if p < s.len() {
            assert(t[p] == s[p]);
            assert(has_category(cats, cat_name(s[p])));
            let c = choose|c: int| 0 <= c < cats.len() && #[trigger] cats[c].name == cat_name(s[p]);
            assert(r[c].name == cat_name(t[p]));
        } else {
            assert(r[tc].name == cat_name(t[p]));
        }
    }
}

/// Taking a snippet out, with every entry's positions shifted, keeps the index
/// consistent.
pub proof fn lemma_remove_consistent(cats: Seq<CategoryView>, s: Seq<Snippet>, i: int)
    requires
        index_consistent(cats, s),
        s.len() <= usize::MAX,
        0 <= i < s.len(),
    ensures
        index_consistent(remove_from_index(cats, i as usize), s.remove(i)),
{
    let r = remove_from_index(cats, i as usize);
    let t = s.remove(i);
    assert forall|c: int| 0 <= c < cats.len() implies #[trigger] r[c].name == cats[c].name by {}
    assert(names_distinct(r));
    assert forall|c: int| 0 <= c < r.len() implies #[trigger] r[c].indices == positions_with(
        t,
        r[c].name,
    ) by {
        lemma_positions_with_remove(s, i, cats[c].name);
        assert(cats[c].indices == positions_with(s, cats[c].name));
        assert(r[c].indices == shift_out(cats[c].indices, i as usize));
    }
    assert forall|p: int| 0 <= p < t.len() implies has_category(r, #[trigger] cat_name(t[p])) by {
        let q = if p < i { p } else { p + 1 };
        assert(t[p] == s[q]);
        assert(has_category(cats, cat_name(s[q])));
        let c = choose|c: int| 0 <= c < cats.len() && #[trigger] cats[c].name == cat_name(s[q]);
        assert(r[c].name == cat_name(t[p]));
    }
}

/// Adding a snippet to a consistent index leaves at least one entry and the
/// positions a partition of the grown list.
pub proof fn lemma_add_keeps_partition(cats: Seq<CategoryView>, s: Seq<Snippet>, x: Snippet)
    requires
        index_consistent(cats, s),
        s.len() <= usize::MAX,
    ensures
        add_to_index(cats, cat_name(x), s.len() as usize).len() >= 1,
        is_partition(add_to_index(cats, cat_name(x), s.len() as usize), s.len() + 1 as int),
{
    lemma_add_consistent(cats, s, x);
    lemma_index_is_partition(add_to_index(cats, cat_name(x), s.len() as usize), s.push(x));
}

/// Removing a snippet from a consistent index shortens the list by one and
/// leaves the shifted positions a partition of the shorter list.
pub proof fn lemma_remove_keeps_partition(cats: Seq<CategoryView>, s: Seq<Snippet>, i: usize)
    requires
        index_consistent(cats, s),
        s.len() <= usize::MAX,
        i < s.len(),
    ensures
        s.remove(i as int).len() == s.len() - 1,
        remove_from_index(cats, i).len() >= 1,
        is_partition(remove_from_index(cats, i), s.len() - 1 as int),
{
    lemma_remove_consistent(cats, s, i as int);
    lemma_index_is_partition(remove_from_index(cats, i), s.remove(i as int));
}

/// A snippet without a category always goes to the first entry, whatever other
/// entries there are.
pub proof fn lemma_uncategorized_goes_first(cats: Seq<CategoryView>, s: Seq<Snippet>, x: Snippet)
    requires
        index_consistent(cats, s),
        x.category is None,
    ensures
        add_to_index(cats, cat_name(x), s.len() as usize) == cats.update(
            0,
            CategoryView { name: cats[0].name, indices: cats[0].indices.push(s.len() as usize) },
        ),
{
    lemma_category_position(cats, no_category(), 0);
}

/// A first snippet of an unknown category creates exactly one entry, at the end;
/// a second snippet of that category goes to the same entry.
pub proof fn lemma_new_category_then_same(
    cats: Seq<CategoryView>,
    s: Seq<Snippet>,
    x: Snippet,
    y: Snippet,
)
    requires
        index_consistent(cats, s),
        s.len() < usize::MAX,
        cat_name(y) == cat_name(x),
        !has_category(cats, cat_name(x)),
    ensures
        ({
            let n = s.len() as usize;
            let once = add_to_index(cats, cat_name(x), n);
            let twice = add_to_index(once, cat_name(y), (n + 1) as usize);
            &&& once == cats.push(CategoryView { name: cat_name(x), indices: seq![n] })
            &&& twice == cats.push(
                CategoryView { name: cat_name(x), indices: seq![n, (n + 1) as usize] },
            )
        }),
{
    let n = s.len() as usize;
    let once = add_to_index(cats, cat_name(x), n);
    assert forall|i: int, j: int|
        0 <= i < once.len() && 0 <= j < once.len() && i != j implies #[trigger] once[i].name
        != #[trigger] once[j].name by {
        if i < cats.len() && j < cats.len() {
            assert(cats[i].name != cats[j].name);
        } else if i < cats.len() {
            assert(cats[i].name != cat_name(x));
        } else {
            assert(cats[j].name != cat_name(x));
        }
    }
    lemma_category_position(once, cat_name(x), cats.len() as int);
    assert(seq![n].push((n + 1) as usize) =~= seq![n, (n + 1) as usize]);
    assert(add_to_index(once, cat_name(y), (n + 1) as usize) =~= cats.push(
        CategoryView { name: cat_name(x), indices: seq![n, (n + 1) as usize] },
    ));
}

} // verus!
