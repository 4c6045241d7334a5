use vstd::prelude::*;

verus! {

/// A JSON value as a tree of plain values.
#[derive(Debug, PartialEq, Eq)]
pub enum Json {
    Null,
    Bool(bool),
    /// A number, held as its decimal text.
    Number(String),
    Str(String),
    Array(Vec<Json>),
    /// The members of an object, in order.
    Object(Vec<(String, Json)>),
}

/// The mathematical value of a JSON tree.
pub enum JsonView {
    Null,
    Bool(bool),
    Number(Seq<char>),
    Str(Seq<char>),
    Array(Seq<JsonView>),
    Object(Seq<(Seq<char>, JsonView)>),
}

/// The view of a JSON tree.
pub open spec fn view_of(j: Json) -> JsonView
    decreases j,
{
    match j {
        Json::Null => JsonView::Null,
        Json::Bool(b) => JsonView::Bool(b),
        Json::Number(n) => JsonView::Number(n@),
        Json::Str(s) => JsonView::Str(s@),
        Json::Array(v) => JsonView::Array(
            Seq::new(
                v@.len(),
                |i: int|
                    if 0 <= i < v@.len() {
                        view_of(v@[i])
                    } else {
                        JsonView::Null
                    },
            ),
        ),
        Json::Object(v) => JsonView::Object(
            Seq::new(
                v@.len(),
                |i: int|
                    if 0 <= i < v@.len() {
                        (v@[i].0@, view_of(v@[i].1))
                    } else {
                        (Seq::empty(), JsonView::Null)
                    },
            ),
        ),
    }
}

impl View for Json {
    type V = JsonView;

    open spec fn view(&self) -> JsonView {
        view_of(*self)
    }
}

/// The view of a list of values.
pub open spec fn items_view(v: Seq<Json>) -> Seq<JsonView> {
    Seq::new(v.len(), |i: int| v[i]@)
}

/// The view of a list of members: each name with the view of its value.
pub open spec fn members_view(m: Seq<(String, Json)>) -> Seq<(Seq<char>, JsonView)> {
    Seq::new(m.len(), |i: int| (m[i].0@, m[i].1@))
}

/// An array's view is the list of its items' views.
pub proof fn lemma_array_view(v: Vec<Json>)
    ensures
        view_of(Json::Array(v)) == JsonView::Array(items_view(v@)),
{
    if let JsonView::Array(s) = view_of(Json::Array(v)) {
        assert(s =~= items_view(v@));
    }
}

/// An object's view is the list of its members' views.
pub proof fn lemma_object_view(v: Vec<(String, Json)>)
    ensures
        view_of(Json::Object(v)) == JsonView::Object(members_view(v@)),
{
    if let JsonView::Object(s) = view_of(Json::Object(v)) {
        assert(s =~= members_view(v@));
    }
}

/// The index of the first member named `k` at index `i` or later, or -1.
pub open spec fn index_from(m: Seq<(Seq<char>, JsonView)>, k: Seq<char>, i: int) -> int
    decreases m.len() - i,
{
    if i < 0 || i >= m.len() {
        -1
    } else if m[i].0 == k {
        i
    } else {
        index_from(m, k, i + 1)
    }
}

/// The index of the first member named `k`, or -1.
pub open spec fn index_of(m: Seq<(Seq<char>, JsonView)>, k: Seq<char>) -> int {
    index_from(m, k, 0)
}

/// The value of the first member named `k`.
pub open spec fn lookup(m: Seq<(Seq<char>, JsonView)>, k: Seq<char>) -> Option<JsonView> {
    let i = index_of(m, k);
    if i < 0 {
        None
    } else {
        Some(m[i].1)
    }
}

/// Whether no member carries one of the names in `known`.
pub open spec fn avoids(m: Seq<(Seq<char>, JsonView)>, known: Seq<Seq<char>>) -> bool {
    forall|i: int| 0 <= i < m.len() ==> !known.contains(#[trigger] m[i].0)
}

/// The members of `m` whose names are not in `known`, in order.
pub open spec fn omit(m: Seq<(Seq<char>, JsonView)>, known: Seq<Seq<char>>) -> Seq<(Seq<char>, JsonView)>
    decreases m.len(),
{
    if m.len() == 0 {
        m
    } else {
        let rest = omit(m.drop_last(), known);
        if known.contains(m.last().0) {
            rest
        } else {
            rest.push(m.last())
        }
    }
}

/// `m` with the member named `k` set to `v`: the first member of that name
/// takes the new value, or, when there is none, a new member goes where the
/// names stay in order.
pub open spec fn upsert(m: Seq<(Seq<char>, JsonView)>, k: Seq<char>, v: JsonView) -> Seq<(Seq<char>, JsonView)> {
    let i = index_of(m, k);
    if i < 0 {
        m.insert(position(m, k), (k, v))
    } else {
        m.update(i, (k, v))
    }
}

/// Whether `a` comes before `b` in the order of code points, character by
/// character, a prefix first.
pub open spec fn text_less(a: Seq<char>, b: Seq<char>) -> bool
    decreases a.len(),
{
    if a.len() == 0 {
        b.len() > 0
    } else if b.len() == 0 {
        false
    } else if a[0] != b[0] {
        (a[0] as int) < (b[0] as int)
    } else {
        text_less(a.drop_first(), b.drop_first())
    }
}

/// Whether the names of `m` are strictly increasing: sorted, and each name
/// at most once.
pub open spec fn sorted(m: Seq<(Seq<char>, JsonView)>) -> bool {
    forall|i: int, j: int| 0 <= i < j < m.len() ==> text_less(#[trigger] m[i].0, #[trigger] m[j].0)
}

/// The first index from `i` on whose name does not come before `k`, or the
/// length.
pub open spec fn position_from(m: Seq<(Seq<char>, JsonView)>, k: Seq<char>, i: int) -> int
    decreases m.len() - i,
{
    if i < 0 || i >= m.len() {
        m.len() as int
    } else if !text_less(m[i].0, k) {
        i
    } else {
        position_from(m, k, i + 1)
    }
}

/// Where a member named `k` goes to keep the names sorted.
pub open spec fn position(m: Seq<(Seq<char>, JsonView)>, k: Seq<char>) -> int {
    position_from(m, k, 0)
}

/// The members of `s` set one after the other into an empty list: sorted,
/// with the last value of each name.
pub open spec fn canon(s: Seq<(Seq<char>, JsonView)>) -> Seq<(Seq<char>, JsonView)>
    decreases s.len(),
{
    if s.len() == 0 {
        s
    } else {
        upsert(canon(s.drop_last()), s.last().0, s.last().1)
    }
}

/// No text comes before itself.
pub proof fn lemma_text_irreflexive(a: Seq<char>)
    ensures
        !text_less(a, a),
    decreases a.len(),
{
    if a.len() > 0 {
        lemma_text_irreflexive(a.drop_first());
    }
}

/// Of two different texts, one comes before the other.
pub proof fn lemma_text_total(a: Seq<char>, b: Seq<char>)
    requires
        a != b,
    ensures
        text_less(a, b) || text_less(b, a),
    decreases a.len(),
{
    if a.len() == 0 && b.len() == 0 {
        assert(a =~= b);
    }
    if a.len() > 0 && b.len() > 0 && a[0] != b[0] {
        assert((a[0] as int) != (b[0] as int));
    }
    if a.len() > 0 && b.len() > 0 && a[0] == b[0] {
        if a.drop_first() == b.drop_first() {
            assert(a =~= seq![a[0]] + a.drop_first());
            assert(b =~= seq![b[0]] + b.drop_first());
        }
        lemma_text_total(a.drop_first(), b.drop_first());
    }
}

/// The order of texts is transitive.
pub proof fn lemma_text_transitive(a: Seq<char>, b: Seq<char>, c: Seq<char>)
    requires
        text_less(a, b),
        text_less(b, c),
    ensures
        text_less(a, c),
    decreases a.len(),
{
    if a.len() > 0 && b.len() > 0 && c.len() > 0 && a[0] == b[0] && b[0] == c[0] {
        lemma_text_transitive(a.drop_first(), b.drop_first(), c.drop_first());
    }
}

/// The order of texts is asymmetric.
pub proof fn lemma_text_asymmetric(a: Seq<char>, b: Seq<char>)
    requires
        text_less(a, b),
    ensures
        !text_less(b, a),
{
    if text_less(b, a) {
        lemma_text_transitive(a, b, a);
        lemma_text_irreflexive(a);
    }
}

/// The position of a name: every name before it comes before the name, and
/// the one at it does not.
pub proof fn lemma_position_from(m: Seq<(Seq<char>, JsonView)>, k: Seq<char>, i: int)
    requires
        0 <= i <= m.len(),
        forall|j: int| 0 <= j < i ==> text_less(m[j].0, k),
    ensures
        i <= position_from(m, k, i) <= m.len(),
        forall|j: int| 0 <= j < position_from(m, k, i) ==> text_less(m[j].0, k),
        position_from(m, k, i) < m.len() ==> !text_less(m[position_from(m, k, i)].0, k),
    decreases m.len() - i,
{
    if i < m.len() && text_less(m[i].0, k) {
        lemma_position_from(m, k, i + 1);
    }
}

/// The position is the first index whose name does not come before `k`.
pub proof fn lemma_position_at(m: Seq<(Seq<char>, JsonView)>, k: Seq<char>, p: int)
    requires
        0 <= p <= m.len(),
        forall|j: int| 0 <= j < p ==> text_less(m[j].0, k),
        p < m.len() ==> !text_less(m[p].0, k),
    ensures
        position(m, k) == p,
{
    lemma_position_from(m, k, 0);
    let q = position(m, k);
    if q < p {
        assert(text_less(m[q].0, k));
    }
}

/// Setting a member of a sorted list keeps it sorted.
pub proof fn lemma_upsert_sorted(m: Seq<(Seq<char>, JsonView)>, k: Seq<char>, v: JsonView)
    requires
        sorted(m),
    ensures
        sorted(upsert(m, k, v)),
{
    lemma_index_from(m, k, 0);
    lemma_position_from(m, k, 0);
    let u = upsert(m, k, v);
    if index_of(m, k) < 0 {
        let p = position(m, k);
        assert forall|j: int| p <= j < m.len() implies text_less(k, #[trigger] m[j].0) by {
            lemma_text_total(m[p].0, k);
            if j > p {
                lemma_text_transitive(k, m[p].0, m[j].0);
            }
        }
        assert forall|i: int, j: int| 0 <= i < j < u.len() implies text_less(#[trigger] u[i].0, #[trigger] u[j].0) by {
            if j < p {
                assert(u[i] == m[i] && u[j] == m[j]);
            } else if j == p {
                assert(u[i] == m[i]);
            } else if i < p {
                assert(u[i] == m[i] && u[j] == m[j - 1]);
                lemma_text_transitive(m[i].0, k, m[j - 1].0);
            } else if i == p {
                assert(u[j] == m[j - 1]);
            } else {
                assert(u[i] == m[i - 1] && u[j] == m[j - 1]);
            }
        }
    } else {
        assert forall|i: int, j: int| 0 <= i < j < u.len() implies text_less(#[trigger] u[i].0, #[trigger] u[j].0) by {
            assert(u[i].0 == m[i].0 && u[j].0 == m[j].0);
        }
    }
}

/// Setting a member under a name outside `known` keeps the list clear of
/// `known`.
pub proof fn lemma_upsert_avoids(m: Seq<(Seq<char>, JsonView)>, k: Seq<char>, v: JsonView, known: Seq<Seq<char>>)
    requires
        avoids(m, known),
        !known.contains(k),
    ensures
        avoids(upsert(m, k, v), known),
{
    lemma_index_from(m, k, 0);
    lemma_position_from(m, k, 0);
    let u = upsert(m, k, v);
    let p = position(m, k);
    assert forall|i: int| 0 <= i < u.len() implies !known.contains(#[trigger] u[i].0) by {
        if index_of(m, k) < 0 {
            if i < p {
                assert(u[i] == m[i]);
            } else if i > p {
                assert(u[i] == m[i - 1]);
            }
        } else if i != index_of(m, k) {
            assert(u[i] == m[i]);
        }
    }
}

/// The canonical list of a list clear of `known` is clear of it too.
pub proof fn lemma_canon_avoids(s: Seq<(Seq<char>, JsonView)>, known: Seq<Seq<char>>)
    requires
        avoids(s, known),
    ensures
        avoids(canon(s), known),
    decreases s.len(),
{
    if s.len() > 0 {
        let d = s.drop_last();
        assert(avoids(d, known)) by {
            assert forall|i: int| 0 <= i < d.len() implies !known.contains(#[trigger] d[i].0) by {
                assert(d[i] == s[i]);
            }
        }
        lemma_canon_avoids(d, known);
        assert(!known.contains(s[s.len() - 1].0));
        lemma_upsert_avoids(canon(d), s.last().0, s.last().1, known);
    }
}

/// Setting a member leaves the lookup of every other name as it was.
pub proof fn lemma_lookup_upsert_other(m: Seq<(Seq<char>, JsonView)>, k: Seq<char>, v: JsonView, k2: Seq<char>)
    requires
        k2 != k,
    ensures
        lookup(upsert(m, k, v), k2) == lookup(m, k2),
{
    lemma_index_from(m, k, 0);
    lemma_index_from(m, k2, 0);
    lemma_position_from(m, k, 0);
    let u = upsert(m, k, v);
    let i2 = index_of(m, k2);
    let p = position(m, k);
    if index_of(m, k) >= 0 {
        if i2 < 0 {
            assert forall|j: int| 0 <= j < u.len() implies u[j].0 != k2 by {
                if j != index_of(m, k) {
                    assert(u[j] == m[j]);
                }
            }
            lemma_index_of_absent(u, k2);
        } else {
            assert forall|j: int| 0 <= j < i2 implies u[j].0 != k2 by {
                if j != index_of(m, k) {
                    assert(u[j] == m[j]);
                }
            }
            lemma_index_of_at(u, k2, i2);
        }
    } else {
        if i2 < 0 {
            assert forall|j: int| 0 <= j < u.len() implies u[j].0 != k2 by {
                if j < p {
                    assert(u[j] == m[j]);
                } else if j > p {
                    assert(u[j] == m[j - 1]);
                }
            }
            lemma_index_of_absent(u, k2);
        } else if i2 < p {
            assert forall|j: int| 0 <= j < i2 implies u[j].0 != k2 by {
                assert(u[j] == m[j]);
            }
            assert(u[i2] == m[i2]);
            lemma_index_of_at(u, k2, i2);
        } else {
            assert forall|j: int| 0 <= j < i2 + 1 implies u[j].0 != k2 by {
                if j < p {
                    assert(u[j] == m[j]);
                } else if j > p {
                    assert(u[j] == m[j - 1]);
                }
            }
            assert(u[i2 + 1] == m[i2]);
            lemma_index_of_at(u, k2, i2 + 1);
        }
    }
}

/// Two sorted lists that give the same value under every name are equal.
pub proof fn lemma_sorted_unique(s: Seq<(Seq<char>, JsonView)>, t: Seq<(Seq<char>, JsonView)>)
    requires
        sorted(s),
        sorted(t),
        forall|k: Seq<char>| lookup(s, k) == lookup(t, k),
    ensures
        s == t,
    decreases s.len() + t.len(),
{
    if s.len() == 0 && t.len() > 0 {
        lemma_index_of_at(t, t[0].0, 0);
        lemma_index_of_absent(s, t[0].0);
        assert(lookup(s, t[0].0) == lookup(t, t[0].0));
    } else if t.len() == 0 && s.len() > 0 {
        lemma_index_of_at(s, s[0].0, 0);
        lemma_index_of_absent(t, s[0].0);
        assert(lookup(s, s[0].0) == lookup(t, s[0].0));
    } else if s.len() == 0 && t.len() == 0 {
        assert(s =~= t);
    } else {
        let a = s[0].0;
        let b = t[0].0;
        lemma_index_of_at(s, a, 0);
        lemma_index_of_at(t, b, 0);
        lemma_index_from(t, a, 0);
        lemma_index_from(s, b, 0);
        assert(lookup(s, a) == lookup(t, a));
        assert(lookup(s, b) == lookup(t, b));
        if a != b {
            let j = index_of(t, a);
            let i = index_of(s, b);
            assert(j > 0 && text_less(t[0].0, t[j].0));
            assert(i > 0 && text_less(s[0].0, s[i].0));
            lemma_text_asymmetric(a, b);
        }
        let s1 = s.drop_first();
        let t1 = t.drop_first();
        lemma_text_irreflexive(a);
        assert(s =~= seq![s[0]] + s1);
        assert(t =~= seq![t[0]] + t1);
        assert forall|k: Seq<char>| lookup(s1, k) == lookup(t1, k) by {
            if k == a {
                assert forall|j: int| 0 <= j < s1.len() implies s1[j].0 != k by {
                    assert(text_less(s[0].0, s[j + 1].0));
                }
                assert forall|j: int| 0 <= j < t1.len() implies t1[j].0 != k by {
                    assert(text_less(t[0].0, t[j + 1].0));
                }
                lemma_index_of_absent(s1, k);
                lemma_index_of_absent(t1, k);
            } else {
                lemma_lookup_skip(seq![s[0]], s1, k);
                lemma_lookup_skip(seq![t[0]], t1, k);
                assert(lookup(s, k) == lookup(t, k));
            }
        }
        assert(sorted(s1)) by {
            assert forall|i: int, j: int| 0 <= i < j < s1.len() implies text_less(#[trigger] s1[i].0, #[trigger] s1[j].0) by {
                assert(text_less(s[i + 1].0, s[j + 1].0));
            }
        }
        assert(sorted(t1)) by {
            assert forall|i: int, j: int| 0 <= i < j < t1.len() implies text_less(#[trigger] t1[i].0, #[trigger] t1[j].0) by {
                assert(text_less(t[i + 1].0, t[j + 1].0));
            }
        }
        lemma_sorted_unique(s1, t1);
    }
}

/// Setting two members of different names on a sorted list gives the same
/// list in either order.
pub proof fn lemma_upserts_commute(m: Seq<(Seq<char>, JsonView)>, k1: Seq<char>, v1: JsonView, k2: Seq<char>, v2: JsonView)
    requires
        sorted(m),
        k1 != k2,
    ensures
        upsert(upsert(m, k1, v1), k2, v2) == upsert(upsert(m, k2, v2), k1, v1),
{
    let a = upsert(m, k1, v1);
    let b = upsert(m, k2, v2);
    lemma_upsert_sorted(m, k1, v1);
    lemma_upsert_sorted(m, k2, v2);
    lemma_upsert_sorted(a, k2, v2);
    lemma_upsert_sorted(b, k1, v1);
    assert forall|k: Seq<char>| lookup(upsert(a, k2, v2), k) == lookup(upsert(b, k1, v1), k) by {
        if k == k1 {
            lemma_lookup_upsert_other(a, k2, v2, k);
            lemma_lookup_upsert(m, k1, v1);
            lemma_lookup_upsert(b, k1, v1);
        } else if k == k2 {
            lemma_lookup_upsert(a, k2, v2);
            lemma_lookup_upsert_other(b, k1, v1, k);
            lemma_lookup_upsert(m, k2, v2);
        } else {
            lemma_lookup_upsert_other(a, k2, v2, k);
            lemma_lookup_upsert_other(m, k1, v1, k);
            lemma_lookup_upsert_other(b, k1, v1, k);
            lemma_lookup_upsert_other(m, k2, v2, k);
        }
    }
    lemma_sorted_unique(upsert(a, k2, v2), upsert(b, k1, v1));
}

/// The canonical list is sorted.
pub proof fn lemma_canon_sorted(s: Seq<(Seq<char>, JsonView)>)
    ensures
        sorted(canon(s)),
    decreases s.len(),
{
    if s.len() > 0 {
        lemma_canon_sorted(s.drop_last());
        lemma_upsert_sorted(canon(s.drop_last()), s.last().0, s.last().1);
    }
}

/// A sorted list is its own canonical list.
pub proof fn lemma_canon_of_sorted(s: Seq<(Seq<char>, JsonView)>)
    requires
        sorted(s),
    ensures
        canon(s) == s,
    decreases s.len(),
{
    if s.len() > 0 {
        let d = s.drop_last();
        let k = s.last().0;
        assert(sorted(d)) by {
            assert forall|i: int, j: int| 0 <= i < j < d.len() implies text_less(#[trigger] d[i].0, #[trigger] d[j].0) by {
                assert(d[i] == s[i] && d[j] == s[j]);
            }
        }
        lemma_canon_of_sorted(d);
        assert forall|j: int| 0 <= j < d.len() implies text_less(d[j].0, k) && d[j].0 != k by {
            assert(d[j] == s[j]);
            assert(text_less(s[j].0, s[s.len() - 1].0));
            lemma_text_irreflexive(k);
        }
        lemma_index_of_absent(d, k);
        lemma_position_from(d, k, 0);
        assert(d.insert(d.len() as int, s.last()) =~= s);
    }
}

/// The character sequences of a list of names.
pub open spec fn views_of(ns: Seq<&str>) -> Seq<Seq<char>> {
    ns.map_values(|s: &str| s@)
}

/// A search from `i` finds a valid index, or none at all and then no member
/// from `i` on carries the name.
pub proof fn lemma_index_from(m: Seq<(Seq<char>, JsonView)>, k: Seq<char>, i: int)
    requires
        0 <= i,
    ensures
        index_from(m, k, i) == -1 || (i <= index_from(m, k, i) < m.len() && m[index_from(m, k, i)].0 == k),
        index_from(m, k, i) == -1 ==> forall|j: int| i <= j < m.len() ==> m[j].0 != k,
        index_from(m, k, i) != -1 ==> forall|j: int| i <= j < index_from(m, k, i) ==> m[j].0 != k,
    decreases m.len() - i,
{
    if i < m.len() && m[i].0 != k {
        lemma_index_from(m, k, i + 1);
    }
}

/// The first index is the one that no earlier member shares the name with.
pub proof fn lemma_index_of_at(m: Seq<(Seq<char>, JsonView)>, k: Seq<char>, i: int)
    requires
        0 <= i < m.len(),
        m[i].0 == k,
        forall|j: int| 0 <= j < i ==> m[j].0 != k,
    ensures
        index_of(m, k) == i,
{
    lemma_index_from(m, k, 0);
}

/// No member carries the name: the search finds nothing.
pub proof fn lemma_index_of_absent(m: Seq<(Seq<char>, JsonView)>, k: Seq<char>)
    requires
        forall|j: int| 0 <= j < m.len() ==> m[j].0 != k,
    ensures
        index_of(m, k) == -1,
{
    lemma_index_from(m, k, 0);
}

/// Setting a member and then looking it up gives the value set.
pub proof fn lemma_lookup_upsert(m: Seq<(Seq<char>, JsonView)>, k: Seq<char>, v: JsonView)
    ensures
        lookup(upsert(m, k, v), k) == Some(v),
{
    lemma_index_from(m, k, 0);
    let i = index_of(m, k);
    let u = upsert(m, k, v);
    if i < 0 {
        lemma_position_from(m, k, 0);
        let p = position(m, k);
        assert forall|j: int| 0 <= j < p implies u[j].0 != k by {
            assert(u[j] == m[j]);
        }
        lemma_index_of_at(u, k, p);
    } else {
        lemma_index_of_at(u, k, i);
    }
}

/// A list that carries no name of `known` has no value under such a name.
pub proof fn lemma_lookup_avoided(m: Seq<(Seq<char>, JsonView)>, known: Seq<Seq<char>>, k: Seq<char>)
    requires
        avoids(m, known),
        known.contains(k),
    ensures
        lookup(m, k) is None,
{
    assert forall|j: int| 0 <= j < m.len() implies m[j].0 != k by {
        assert(!known.contains(m[j].0));
    }
    lemma_index_of_absent(m, k);
}

/// A lookup passes over a front part that does not carry the name.
pub proof fn lemma_lookup_skip(a: Seq<(Seq<char>, JsonView)>, b: Seq<(Seq<char>, JsonView)>, k: Seq<char>)
    requires
        forall|j: int| 0 <= j < a.len() ==> a[j].0 != k,
    ensures
        lookup(a + b, k) == lookup(b, k),
{
    lemma_index_from(b, k, 0);
    let c = a + b;
    let i = index_of(b, k);
    if i < 0 {
        assert forall|j: int| 0 <= j < c.len() implies c[j].0 != k by {
            if j >= a.len() {
                assert(c[j] == b[j - a.len()]);
            }
        }
        lemma_index_of_absent(c, k);
    } else {
        assert forall|j: int| 0 <= j < a.len() + i implies c[j].0 != k by {
            if j >= a.len() {
                assert(c[j] == b[j - a.len()]);
            }
        }
        lemma_index_of_at(c, k, a.len() + i);
    }
}

/// A lookup of the name that the list starts with gives its value.
pub proof fn lemma_lookup_first(p: (Seq<char>, JsonView), b: Seq<(Seq<char>, JsonView)>)
    ensures
        lookup(seq![p] + b, p.0) == Some(p.1),
{
    lemma_index_of_at(seq![p] + b, p.0, 0);
}

/// Omitting names from a concatenation omits them from each part.
pub proof fn lemma_omit_concat(a: Seq<(Seq<char>, JsonView)>, b: Seq<(Seq<char>, JsonView)>, known: Seq<Seq<char>>)
    ensures
        omit(a + b, known) == omit(a, known) + omit(b, known),
    decreases b.len(),
{
    if b.len() == 0 {
        assert(a + b =~= a);
        assert(omit(a, known) + omit(b, known) =~= omit(a, known));
    } else {
        lemma_omit_concat(a, b.drop_last(), known);
        assert((a + b).drop_last() =~= a + b.drop_last());
        if !known.contains(b.last().0) {
            assert(omit(a, known) + omit(b.drop_last(), known).push(b.last()) =~= (omit(a, known) + omit(b.drop_last(), known)).push(b.last()));
        }
    }
}

/// Omitting names that no member carries changes nothing.
pub proof fn lemma_omit_avoided(m: Seq<(Seq<char>, JsonView)>, known: Seq<Seq<char>>)
    requires
        avoids(m, known),
    ensures
        omit(m, known) == m,
    decreases m.len(),
{
    if m.len() > 0 {
        lemma_omit_avoided(m.drop_last(), known);
        assert(!known.contains(m[m.len() - 1].0));
        assert(m.drop_last().push(m.last()) =~= m);
    }
}

/// What is left after omitting carries none of the omitted names, nor any
/// name that the list did not carry before.
pub proof fn lemma_omit_avoids(m: Seq<(Seq<char>, JsonView)>, known: Seq<Seq<char>>, other: Seq<Seq<char>>)
    ensures
        avoids(omit(m, known), known),
        avoids(m, other) ==> avoids(omit(m, known), other),
    decreases m.len(),
{
    if m.len() > 0 {
        lemma_omit_avoids(m.drop_last(), known, other);
        if avoids(m, other) {
            assert(avoids(m.drop_last(), other)) by {
                assert forall|i: int| 0 <= i < m.drop_last().len() implies !other.contains(#[trigger] m.drop_last()[i].0) by {
                    assert(m.drop_last()[i] == m[i]);
                }
            }
            assert(!other.contains(m[m.len() - 1].0));
        }
        let rest = omit(m.drop_last(), known);
        if !known.contains(m.last().0) {
            assert forall|i: int| 0 <= i < rest.push(m.last()).len() implies !known.contains(#[trigger] rest.push(m.last())[i].0) by {
                if i < rest.len() {
                    assert(rest.push(m.last())[i] == rest[i]);
                }
            }
            if avoids(m, other) {
                assert forall|i: int| 0 <= i < rest.push(m.last()).len() implies !other.contains(#[trigger] rest.push(m.last())[i].0) by {
                    if i < rest.len() {
                        assert(rest.push(m.last())[i] == rest[i]);
                    } else {
                        assert(!other.contains(m[m.len() - 1].0));
                    }
                }
            }
        }
    }
}

/// Two lists that carry no name of `known` join into one that carries none.
pub proof fn lemma_avoids_concat(a: Seq<(Seq<char>, JsonView)>, b: Seq<(Seq<char>, JsonView)>, known: Seq<Seq<char>>)
    requires
        avoids(a, known),
        avoids(b, known),
    ensures
        avoids(a + b, known),
{
    assert forall|i: int| 0 <= i < (a + b).len() implies !known.contains(#[trigger] (a + b)[i].0) by {
        if i < a.len() {
            assert((a + b)[i] == a[i]);
        } else {
            assert((a + b)[i] == b[i - a.len()]);
        }
    }
}

/// A list that carries no name of `a` nor of `b` carries no name of `c`
/// when every name of `c` is in `a` or in `b`.
pub proof fn lemma_avoids_within(m: Seq<(Seq<char>, JsonView)>, a: Seq<Seq<char>>, b: Seq<Seq<char>>, c: Seq<Seq<char>>)
    requires
        avoids(m, a),
        avoids(m, b),
        forall|k: Seq<char>| c.contains(k) ==> a.contains(k) || b.contains(k),
    ensures
        avoids(m, c),
{
    assert forall|i: int| 0 <= i < m.len() implies !c.contains(#[trigger] m[i].0) by {
        assert(!a.contains(m[i].0));
        assert(!b.contains(m[i].0));
    }
}

/// Whether `a` and `b` spell the same characters.
pub fn same_text(a: &String, b: &str) -> (r: bool)
    ensures
        r == (a@ == b@),
{
    let t = b.to_string();
    *a == t
}

/// Whether `a` comes before `b` in the order of code points.
pub fn text_less_than(a: &String, b: &String) -> (r: bool)
    ensures
        r == text_less(a@, b@),
{
    let x = a.as_str();
    let y = b.as_str();
    let la = x.unicode_len();
    let lb = y.unicode_len();
    let mut i: usize = 0;
    proof {
        assert(a@.subrange(0, la as int) =~= a@);
        assert(b@.subrange(0, lb as int) =~= b@);
    }
    while i < la && i < lb
        invariant
            la == a@.len(),
            lb == b@.len(),
            x@ == a@,
            y@ == b@,
            i <= la,
            i <= lb,
            text_less(a@, b@) == text_less(a@.subrange(i as int, la as int), b@.subrange(i as int, lb as int)),
        decreases la - i,
    {
        let c = x.get_char(i);
        let d = y.get_char(i);
        let ghost sa = a@.subrange(i as int, la as int);
        let ghost sb = b@.subrange(i as int, lb as int);
        if c != d {
            proof {
                assert(sa[0] == c && sb[0] == d);
            }
            return (c as u32) < (d as u32);
        }
        proof {
            assert(sa.drop_first() =~= a@.subrange(i + 1, la as int));
            assert(sb.drop_first() =~= b@.subrange(i + 1, lb as int));
        }
        i = i + 1;
    }
    proof {
        let sa = a@.subrange(i as int, la as int);
        let sb = b@.subrange(i as int, lb as int);
        assert(sa.len() == 0 || sb.len() == 0);
    }
    i == la && i < lb
}

/// Finds the first member named `k`.
pub fn find_member(m: &Vec<(String, Json)>, k: &str) -> (r: Option<usize>)
    ensures
        r is None ==> index_of(members_view(m@), k@) == -1,
        r matches Some(i) ==> index_of(members_view(m@), k@) == i as int && i < m@.len(),
{
    let mut i: usize = 0;
    while i < m.len()
        invariant
            i <= m@.len(),
            forall|j: int| 0 <= j < i ==> m@[j].0@ != k@,
        decreases m@.len() - i,
    {
        if same_text(&m[i].0, k) {
            proof {
                lemma_index_of_at(members_view(m@), k@, i as int);
            }
            return Some(i);
        }
        i = i + 1;
    }
    proof {
        lemma_index_of_absent(members_view(m@), k@);
    }
    None
}

/// Whether `k` is one of `names`.
pub fn is_one_of(k: &String, names: &Vec<&str>) -> (r: bool)
    ensures
        r == views_of(names@).contains(k@),
{
    let mut i: usize = 0;
    while i < names.len()
        invariant
            i <= names@.len(),
            forall|j: int| 0 <= j < i ==> names@[j]@ != k@,
        decreases names@.len() - i,
    {
        if same_text(k, names[i]) {
            proof {
                assert(views_of(names@)[i as int] == k@);
            }
            return true;
        }
        i = i + 1;
    }
    proof {
        if views_of(names@).contains(k@) {
            let j = choose|j: int| 0 <= j < views_of(names@).len() && views_of(names@)[j] == k@;
            assert(names@[j]@ == k@);
        }
    }
    false
}

/// Copies of the members of `m` whose names are not in `names`, in order.
pub fn omit_names(m: &Vec<(String, Json)>, names: &Vec<&str>) -> (r: Vec<(String, Json)>)
    ensures
        members_view(r@) == omit(members_view(m@), views_of(names@)),
{
    let ghost known = views_of(names@);
    let mut out: Vec<(String, Json)> = Vec::new();
    let mut i: usize = 0;
    while i < m.len()
        invariant
            i <= m@.len(),
            known == views_of(names@),
            members_view(out@) == omit(members_view(m@).take(i as int), known),
        decreases m@.len() - i,
    {
        let ghost before = members_view(m@).take(i as int);
        proof {
            assert(members_view(m@).take(i + 1).drop_last() =~= before);
            assert(members_view(m@).take(i + 1).last() == members_view(m@)[i as int]);
        }
        if !is_one_of(&m[i].0, names) {
            let v = m[i].1.copy();
            out.push((m[i].0.clone(), v));
            proof {
                assert(members_view(out@) =~= omit(before, known).push(members_view(m@)[i as int]));
            }
        }
        i = i + 1;
    }
    proof {
        assert(members_view(m@).take(m@.len() as int) =~= members_view(m@));
    }
    out
}

/// Appends copies of the members of `b` to `a`.
pub fn append_members(a: &mut Vec<(String, Json)>, b: &Vec<(String, Json)>)
    ensures
        members_view(final(a)@) == members_view(old(a)@) + members_view(b@),
{
    let mut i: usize = 0;
    while i < b.len()
        invariant
            i <= b@.len(),
            members_view(a@) == members_view(old(a)@) + members_view(b@).take(i as int),
        decreases b@.len() - i,
    {
        let ghost prev = members_view(a@);
        let v = b[i].1.copy();
        a.push((b[i].0.clone(), v));
        proof {
            assert(members_view(a@) =~= prev.push(members_view(b@)[i as int]));
            assert(members_view(b@).take(i + 1) =~= members_view(b@).take(i as int).push(members_view(b@)[i as int]));
            assert(members_view(a@) =~= members_view(old(a)@) + members_view(b@).take(i + 1));
        }
        i = i + 1;
    }
    proof {
        assert(members_view(b@).take(b@.len() as int) =~= members_view(b@));
    }
}

/// Copies of the members of `m` set one after the other into an empty list:
/// sorted by name, with the last value of each name.
pub fn canonical(m: &Vec<(String, Json)>) -> (r: Vec<(String, Json)>)
    ensures
        members_view(r@) == canon(members_view(m@)),
{
    let mut out: Vec<(String, Json)> = Vec::new();
    let mut i: usize = 0;
    while i < m.len()
        invariant
            i <= m@.len(),
            members_view(out@) == canon(members_view(m@).take(i as int)),
        decreases m@.len() - i,
    {
        proof {
            let t = members_view(m@).take(i + 1);
            assert(t.drop_last() =~= members_view(m@).take(i as int));
        }
        let v = m[i].1.copy();
        upsert_member(&mut out, m[i].0.as_str(), v);
        i = i + 1;
    }
    proof {
        assert(members_view(m@).take(m@.len() as int) =~= members_view(m@));
    }
    out
}

/// Gives the member named `k` the value `v`, inserting it in name order when
/// there is none.
pub fn upsert_member(m: &mut Vec<(String, Json)>, k: &str, v: Json)
    ensures
        members_view(final(m)@) == upsert(members_view(old(m)@), k@, v@),
{
    let name = k.to_string();
    match find_member(m, k) {
        Some(i) => {
            m.set(i, (name, v));
            proof {
                assert(members_view(m@) =~= upsert(members_view(old(m)@), k@, v@));
            }
        },
        None => {
            let key = k.to_string();
            let mut p: usize = 0;
            while p < m.len() && text_less_than(&m[p].0, &key)
                invariant
                    p <= m@.len(),
                    key@ == k@,
                    forall|j: int| 0 <= j < p ==> text_less(members_view(m@)[j].0, k@),
                decreases m@.len() - p,
            {
                p = p + 1;
            }
            proof {
                lemma_position_at(members_view(m@), k@, p as int);
            }
            m.insert(p, (name, v));
            proof {
                assert(members_view(m@) =~= upsert(members_view(old(m)@), k@, v@));
            }
        },
    }
}

/// The view of an optional value.
pub open spec fn opt_view<T: View>(o: Option<T>) -> Option<T::V> {
    match o {
        Some(x) => Some(x@),
        None => None,
    }
}

/// The value under `k` in `m`, read as a `T`: nothing when `k` is absent or
/// its value does not read as a `T`.
pub open spec fn field_value<T: FromJson>(m: Seq<(Seq<char>, JsonView)>, k: Seq<char>) -> Option<T::V> {
    match lookup(m, k) {
        None => None,
        Some(v) => T::decode(v),
    }
}

/// A type that a JSON value may be read as.
pub trait FromJson: View + Sized {
    /// The value that `j` reads as, if it has the right shape.
    spec fn decode(j: JsonView) -> Option<Self::V>;

    /// Reads `j` as a value of this type.
    fn from_json(j: &Json) -> (r: Option<Self>)
        ensures
            opt_view(r) == Self::decode(j@),
    ;
}

/// A type whose values can be written as JSON.
pub trait ToJson: View + Sized {
    /// The JSON value that `v` is written as.
    spec fn encode(v: Self::V) -> JsonView;

    /// Writes the value as JSON.
    fn to_json(&self) -> (r: Json)
        ensures
            r@ == Self::encode(self@),
    ;
}

impl FromJson for String {
    open spec fn decode(j: JsonView) -> Option<Seq<char>> {
        match j {
            JsonView::Str(s) => Some(s),
            _ => None,
        }
    }

    fn from_json(j: &Json) -> (r: Option<String>) {
        match j {
            Json::Str(s) => Some(s.clone()),
            _ => None,
        }
    }
}

impl ToJson for String {
    open spec fn encode(v: Seq<char>) -> JsonView {
        JsonView::Str(v)
    }

    fn to_json(&self) -> (r: Json) {
        Json::Str(self.clone())
    }
}

impl FromJson for bool {
    open spec fn decode(j: JsonView) -> Option<bool> {
        match j {
            JsonView::Bool(b) => Some(b),
            _ => None,
        }
    }

    fn from_json(j: &Json) -> (r: Option<bool>) {
        match j {
            Json::Bool(b) => Some(*b),
            _ => None,
        }
    }
}

impl ToJson for bool {
    open spec fn encode(v: bool) -> JsonView {
        JsonView::Bool(v)
    }

    fn to_json(&self) -> (r: Json) {
        Json::Bool(*self)
    }
}

impl FromJson for Json {
    open spec fn decode(j: JsonView) -> Option<JsonView> {
        Some(j)
    }

    fn from_json(j: &Json) -> (r: Option<Json>) {
        Some(j.copy())
    }
}

impl ToJson for Json {
    open spec fn encode(v: JsonView) -> JsonView {
        v
    }

    fn to_json(&self) -> (r: Json) {
        self.copy()
    }
}

/// Setting a member to a value whose JSON form reads back as the value, and
/// then reading the member as the same type, gives the value.
pub proof fn lemma_get_after_set<T: FromJson + ToJson>(m: Seq<(Seq<char>, JsonView)>, k: Seq<char>, v: <T as View>::V)
    requires
        T::decode(T::encode(v)) == Some(v),
    ensures
        field_value::<T>(upsert(m, k, T::encode(v)), k) == Some(v),
{
    lemma_lookup_upsert(m, k, T::encode(v));
}

/// A string reads back from its JSON form.
pub proof fn lemma_string_lossless(s: Seq<char>)
    ensures
        <String as FromJson>::decode(<String as ToJson>::encode(s)) == Some(s),
{
}

/// Reading a member that is absent gives nothing.
pub proof fn lemma_get_absent<T: FromJson>(m: Seq<(Seq<char>, JsonView)>, k: Seq<char>)
    requires
        forall|i: int| 0 <= i < m.len() ==> m[i].0 != k,
    ensures
        field_value::<T>(m, k) is None,
{
    lemma_index_of_absent(m, k);
}

/// Reading a member whose value does not read as a `T` gives nothing.
pub proof fn lemma_get_mismatch<T: FromJson>(m: Seq<(Seq<char>, JsonView)>, k: Seq<char>)
    requires
        lookup(m, k) matches Some(v) && T::decode(v) is None,
    ensures
        field_value::<T>(m, k) is None,
{
}

/// Whether every character of `s` is a decimal digit.
pub open spec fn all_digits(s: Seq<char>) -> bool {
    forall|i: int| 0 <= i < s.len() ==> '0' <= #[trigger] s[i] <= '9'
}

/// The number that a string of decimal digits spells.
pub open spec fn digits_value(s: Seq<char>) -> nat
    decreases s.len(),
{
    if s.len() == 0 {
        0
    } else {
        digits_value(s.drop_last()) * 10 + ((s.last() as int) - ('0' as int)) as nat
    }
}

/// The decimal digit for `d`, below ten.
pub open spec fn digit_char(d: nat) -> char {
    if d == 0 { '0' } else if d == 1 { '1' } else if d == 2 { '2' } else if d == 3 { '3' } else if d == 4 {
        '4'
    } else if d == 5 { '5' } else if d == 6 { '6' } else if d == 7 { '7' } else if d == 8 { '8' } else { '9' }
}

/// The decimal digits of `n`, without sign or leading zeros.
pub open spec fn decimal_text(n: nat) -> Seq<char>
    decreases n,
{
    if n < 10 {
        seq![digit_char(n)]
    } else {
        decimal_text(n / 10).push(digit_char(n % 10))
    }
}

/// The decimal digits of a number spell it back.
pub proof fn lemma_decimal_text(n: nat)
    ensures
        all_digits(decimal_text(n)),
        decimal_text(n).len() > 0,
        digits_value(decimal_text(n)) == n,
    decreases n,
{
    lemma_digit_char(n % 10);
    if n >= 10 {
        lemma_decimal_text(n / 10);
        let t = decimal_text(n);
        assert(t.drop_last() =~= decimal_text(n / 10));
        assert(t.last() == digit_char(n % 10));
        assert(n == (n / 10) * 10 + n % 10);
        assert forall|i: int| 0 <= i < t.len() implies '0' <= #[trigger] t[i] <= '9' by {
            if i < t.len() - 1 {
                assert(t[i] == decimal_text(n / 10)[i]);
            }
        }
    } else {
        let t = decimal_text(n);
        assert(t.drop_last() =~= Seq::<char>::empty());
        assert(digits_value(Seq::<char>::empty()) == 0);
        assert(n % 10 == n);
        assert(t.last() == digit_char(n));
        assert(digits_value(t) == digits_value(t.drop_last()) * 10 + ((t.last() as int) - ('0' as int)) as nat);
    }
}

/// The digit for `d` has the value `d`.
pub proof fn lemma_digit_char(d: nat)
    requires
        d < 10,
    ensures
        (digit_char(d) as int) - ('0' as int) == d,
        '0' <= digit_char(d) <= '9',
{
}

/// A longer string of digits spells at least as much as its front part.
pub proof fn lemma_digits_grow(s: Seq<char>, i: int)
    requires
        0 <= i <= s.len(),
        all_digits(s),
    ensures
        digits_value(s.take(i)) <= digits_value(s),
    decreases s.len() - i,
{
    if i < s.len() {
        lemma_digits_grow(s, i + 1);
        assert(s.take(i + 1).drop_last() =~= s.take(i));
        assert(s.take(i + 1).last() == s[i]);
        assert('0' <= s[i]);
    } else {
        assert(s.take(i) =~= s);
    }
}

/// Relies on u64's `Display` (through `ToString`): it writes the decimal
/// digits, without sign or leading zeros.
#[verifier::external_body]
fn decimal_string(n: u64) -> (r: String)
    ensures
        r@ == decimal_text(n as nat),
{
    n.to_string()
}

impl FromJson for u64 {
    /// A number written as decimal digits alone, at most `u64::MAX`.
    open spec fn decode(j: JsonView) -> Option<u64> {
        match j {
            JsonView::Number(s) => if s.len() > 0 && all_digits(s) && digits_value(s) <= u64::MAX {
                Some(digits_value(s) as u64)
            } else {
                None
            },
            _ => None,
        }
    }

    fn from_json(j: &Json) -> (r: Option<u64>) {
        let t = match j {
            Json::Number(t) => t,
            _ => return None,
        };
        proof {
            assert(j@ == JsonView::Number(t@));
        }
        let x = t.as_str();
        let n = x.unicode_len();
        if n == 0 {
            return None;
        }
        let mut i: usize = 0;
        let mut value: u64 = 0;
        while i < n
            invariant
                j@ == JsonView::Number(t@),
                n == t@.len(),
                x@ == t@,
                i <= n,
                all_digits(t@.take(i as int)),
                value as nat == digits_value(t@.take(i as int)),
            decreases n - i,
        {
            let c = x.get_char(i);
            if c < '0' || c > '9' {
                proof {
                    assert(t@[i as int] == c);
                    assert(!all_digits(t@));
                }
                return None;
            }
            let d = (c as u32 - 48) as u64;
            proof {
                assert(t@.take(i + 1).drop_last() =~= t@.take(i as int));
                assert(t@.take(i + 1).last() == c);
                assert(all_digits(t@.take(i + 1)));
            }
            proof {
                assert(digits_value(t@.take(i + 1)) == value as nat * 10 + d as nat);
            }
            if value > (u64::MAX - d) / 10 {
                proof {
                    assert(value as nat * 10 + d as nat > u64::MAX) by (nonlinear_arith)
                        requires
                            value > (u64::MAX - d) / 10,
                            d <= 9,
                    ;
                    if all_digits(t@) {
                        lemma_digits_grow(t@, i + 1);
                    }
                }
                return None;
            }
            value = value * 10 + d;
            i = i + 1;
        }
        proof {
            assert(t@.take(n as int) =~= t@);
        }
        Some(value)
    }
}

impl ToJson for u64 {
    open spec fn encode(v: u64) -> JsonView {
        JsonView::Number(decimal_text(v as nat))
    }

    fn to_json(&self) -> (r: Json) {
        Json::Number(decimal_string(*self))
    }
}

/// A `u64` reads back from its JSON form.
pub proof fn lemma_u64_lossless(n: u64)
    ensures
        <u64 as FromJson>::decode(<u64 as ToJson>::encode(n)) == Some(n),
{
    lemma_decimal_text(n as nat);
}

/// The value of the first member named `k`.
pub fn get_member<'a>(m: &'a Vec<(String, Json)>, k: &str) -> (r: Option<&'a Json>)
    ensures
        opt_view(r) == lookup(members_view(m@), k@),
{
    match find_member(m, k) {
        Some(i) => Some(&m[i].1),
        None => None,
    }
}

/// Reads the value of the first member named `k` as a `T`.
pub fn get_member_as<T: FromJson>(m: &Vec<(String, Json)>, k: &str) -> (r: Option<T>)
    ensures
        opt_view(r) == field_value::<T>(members_view(m@), k@),
{
    match get_member(m, k) {
        Some(v) => T::from_json(v),
        None => None,
    }
}

impl Json {
    /// A copy of the value, equal to it.
    pub fn copy(&self) -> (r: Json)
        ensures
            r@ == self@,
        decreases self,
    {
        match self {
            Json::Null => Json::Null,
            Json::Bool(b) => Json::Bool(*b),
            Json::Number(n) => Json::Number(n.clone()),
            Json::Str(s) => Json::Str(s.clone()),
            Json::Array(items) => {
                let r = copy_items(items);
                proof {
                    lemma_array_view(r);
                    lemma_array_view(*items);
                }
                Json::Array(r)
            },
            Json::Object(members) => {
                let r = copy_members(members);
                proof {
                    lemma_object_view(r);
                    lemma_object_view(*members);
                }
                Json::Object(r)
            },
        }
    }
}

/// A copy of a list of values, equal to it.
pub fn copy_items(items: &Vec<Json>) -> (r: Vec<Json>)
    ensures
        items_view(r@) == items_view(items@),
    decreases items,
{
    let mut out: Vec<Json> = Vec::new();
    let mut i: usize = 0;
    while i < items.len()
        invariant
            i <= items@.len(),
            items_view(out@) == items_view(items@.take(i as int)),
        decreases items@.len() - i,
    {
        out.push(items[i].copy());
        proof {
            assert(items_view(items@.take(i + 1)) =~= items_view(items@.take(i as int)).push(items@[i as int]@));
        }
        i = i + 1;
    }
    proof {
        assert(items@.take(items@.len() as int) =~= items@);
    }
    out
}

/// A copy of a list of members, equal to it.
pub fn copy_members(m: &Vec<(String, Json)>) -> (r: Vec<(String, Json)>)
    ensures
        members_view(r@) == members_view(m@),
    decreases m,
{
    let mut out: Vec<(String, Json)> = Vec::new();
    let mut i: usize = 0;
    while i < m.len()
        invariant
            i <= m@.len(),
            members_view(out@) == members_view(m@.take(i as int)),
        decreases m@.len() - i,
    {
        let v = m[i].1.copy();
        out.push((m[i].0.clone(), v));
        proof {
            assert(members_view(m@.take(i + 1)) =~= members_view(m@.take(i as int)).push((m@[i as int].0@, m@[i as int].1@)));
        }
        i = i + 1;
    }
    proof {
        assert(m@.take(m@.len() as int) =~= m@);
    }
    out
}

} // verus!
