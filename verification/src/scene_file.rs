//! The order in which a scene's entities are written, and how the first,
//! line-based scene format picks its root.

use vstd::prelude::*;

use crate::project_manager::model::{
    lemma_text_lt_irreflexive, lemma_text_lt_total, lemma_text_lt_transitive, opt_view, text_less, text_lt,
};
use crate::text::{chars_of, owned, str_equal};

verus! {

/// What a saved entity is ordered by: its parent's id text (entities
/// without a parent first), its order among its siblings, then its own id
/// text.
pub struct SaveKey {
    pub parent: Option<String>,
    pub order: u32,
    pub id: String,
}

pub struct SaveKeyView {
    pub parent: Option<Seq<char>>,
    pub order: u32,
    pub id: Seq<char>,
}

impl View for SaveKey {
    type V = SaveKeyView;

    open spec fn view(&self) -> SaveKeyView {
        SaveKeyView { parent: opt_view(self.parent), order: self.order, id: self.id@ }
    }
}

pub open spec fn key_views(keys: Seq<SaveKey>) -> Seq<SaveKeyView> {
    keys.map_values(|k: SaveKey| k@)
}

/// `None` before any text, texts in their order.
pub open spec fn parent_lt(a: Option<Seq<char>>, b: Option<Seq<char>>) -> bool {
    match (a, b) {
        (None, Some(_)) => true,
        (Some(x), Some(y)) => text_lt(x, y),
        _ => false,
    }
}

/// `a` is written before `b`.
pub open spec fn key_lt(a: SaveKeyView, b: SaveKeyView) -> bool {
    parent_lt(a.parent, b.parent) || (a.parent == b.parent && (a.order < b.order || (a.order
        == b.order && text_lt(a.id, b.id))))
}

/// `order` lists each entity once, in key order, and entities with equal
/// keys keep their places relative to each other.
pub open spec fn is_save_order(keys: Seq<SaveKeyView>, order: Seq<usize>) -> bool {
    &&& order.len() == keys.len()
    &&& order.no_duplicates()
    &&& forall|q: int| 0 <= q < order.len() ==> order[q] < keys.len()
    &&& forall|x: usize| x < keys.len() ==> order.contains(x)
    &&& forall|i: int, j: int|
        0 <= i < j < order.len() ==> !key_lt(keys[#[trigger] order[j] as int], keys[#[trigger] order[i] as int])
    &&& forall|i: int, j: int|
        0 <= i < j < order.len() && keys[#[trigger] order[i] as int] == keys[#[trigger] order[j] as int]
            ==> order[i] < order[j]
}

proof fn lemma_parent_lt_transitive(a: Option<Seq<char>>, b: Option<Seq<char>>, c: Option<Seq<char>>)
    requires
        parent_lt(a, b),
        parent_lt(b, c),
    ensures
        parent_lt(a, c),
{
    if a is Some {
        lemma_text_lt_transitive(a->0, b->0, c->0);
    }
}

proof fn lemma_parent_lt_irreflexive(a: Option<Seq<char>>)
    ensures
        !parent_lt(a, a),
{
    if a is Some {
        lemma_text_lt_irreflexive(a->0);
    }
}

/// Writing order is transitive.
pub proof fn lemma_key_lt_transitive(a: SaveKeyView, b: SaveKeyView, c: SaveKeyView)
    requires
        key_lt(a, b),
        key_lt(b, c),
    ensures
        key_lt(a, c),
{
    if parent_lt(a.parent, b.parent) && parent_lt(b.parent, c.parent) {
        lemma_parent_lt_transitive(a.parent, b.parent, c.parent);
    } else if a.parent == b.parent && b.parent == c.parent {
        lemma_parent_lt_irreflexive(a.parent);
        if a.order == b.order && b.order == c.order {
            lemma_text_lt_transitive(a.id, b.id, c.id);
        }
    }
}

/// No key is written before itself.
pub proof fn lemma_key_lt_irreflexive(a: SaveKeyView)
    ensures
        !key_lt(a, a),
{
    lemma_parent_lt_irreflexive(a.parent);
    lemma_text_lt_irreflexive(a.id);
}

/// Of two different keys, one is written before the other.
pub proof fn lemma_key_lt_total(a: SaveKeyView, b: SaveKeyView)
    requires
        a != b,
    ensures
        key_lt(a, b) || key_lt(b, a),
{
    if a.parent != b.parent {
        if a.parent is Some && b.parent is Some {
            lemma_text_lt_total(a.parent->0, b.parent->0);
        }
    } else if a.order == b.order {
        lemma_text_lt_total(a.id, b.id);
    }
}

/// Entity `x` is written before entity `y`: its key comes first, or the
/// keys are equal and it was given first.
pub open spec fn written_before(keys: Seq<SaveKeyView>, x: usize, y: usize) -> bool {
    key_lt(keys[x as int], keys[y as int]) || (keys[x as int] == keys[y as int] && x < y)
}

proof fn lemma_written_before_asymmetric(keys: Seq<SaveKeyView>, x: usize, y: usize)
    requires
        written_before(keys, x, y),
    ensures
        !written_before(keys, y, x),
{
    if key_lt(keys[x as int], keys[y as int]) && key_lt(keys[y as int], keys[x as int]) {
        lemma_key_lt_transitive(keys[x as int], keys[y as int], keys[x as int]);
        lemma_key_lt_irreflexive(keys[x as int]);
    }
    if key_lt(keys[x as int], keys[y as int]) && keys[x as int] == keys[y as int] {
        lemma_key_lt_irreflexive(keys[x as int]);
    }
    if key_lt(keys[y as int], keys[x as int]) && keys[x as int] == keys[y as int] {
        lemma_key_lt_irreflexive(keys[x as int]);
    }
}

proof fn lemma_save_order_steps(keys: Seq<SaveKeyView>, o: Seq<usize>)
    requires
        is_save_order(keys, o),
    ensures
        forall|i: int, j: int|
            0 <= i < j < o.len() ==> written_before(keys, #[trigger] o[i], #[trigger] o[j]),
{
    assert forall|i: int, j: int| 0 <= i < j < o.len() implies written_before(keys, #[trigger] o[i], #[trigger] o[j]) by {
        let a = keys[o[i] as int];
        let b = keys[o[j] as int];
        assert(!key_lt(b, a));
        if a != b {
            lemma_key_lt_total(a, b);
        }
    }
}

proof fn lemma_ordered_lists_equal(keys: Seq<SaveKeyView>, a: Seq<usize>, b: Seq<usize>)
    requires
        a.len() == b.len(),
        a.no_duplicates(),
        b.no_duplicates(),
        forall|x: usize| a.contains(x) <==> b.contains(x),
        forall|i: int, j: int| 0 <= i < j < a.len() ==> written_before(keys, #[trigger] a[i], #[trigger] a[j]),
        forall|i: int, j: int| 0 <= i < j < b.len() ==> written_before(keys, #[trigger] b[i], #[trigger] b[j]),
    ensures
        a == b,
    decreases a.len(),
{
    if a.len() > 0 {
        let x = a[0];
        let y = b[0];
        if x != y {
            assert(a.contains(x));
            let p = choose|p: int| 0 <= p < b.len() && b[p] == x;
            assert(b.contains(y));
            assert(a.contains(y));
            let q = choose|q: int| 0 <= q < a.len() && a[q] == y;
            assert(p > 0 && q > 0);
            assert(written_before(keys, b[0], b[p]));
            assert(written_before(keys, a[0], a[q]));
            lemma_written_before_asymmetric(keys, x, y);
        }
        let ta = a.drop_first();
        let tb = b.drop_first();
        assert forall|z: usize| ta.contains(z) <==> tb.contains(z) by {
            if ta.contains(z) {
                let k = choose|k: int| 0 <= k < ta.len() && ta[k] == z;
                assert(a[k + 1] == z);
                assert(z != x);
                assert(a.contains(z));
                assert(b.contains(z));
                let m = choose|m: int| 0 <= m < b.len() && b[m] == z;
                assert(m != 0);
                assert(tb[m - 1] == z);
            }
            if tb.contains(z) {
                let k = choose|k: int| 0 <= k < tb.len() && tb[k] == z;
                assert(b[k + 1] == z);
                assert(z != y);
                assert(b.contains(z));
                assert(a.contains(z));
                let m = choose|m: int| 0 <= m < a.len() && a[m] == z;
                assert(m != 0);
                assert(ta[m - 1] == z);
            }
        }
        assert forall|i: int, j: int| 0 <= i < j < ta.len() implies written_before(keys, #[trigger] ta[i], #[trigger] ta[j]) by {
            assert(ta[i] == a[i + 1] && ta[j] == a[j + 1]);
        }
        assert forall|i: int, j: int| 0 <= i < j < tb.len() implies written_before(keys, #[trigger] tb[i], #[trigger] tb[j]) by {
            assert(tb[i] == b[i + 1] && tb[j] == b[j + 1]);
        }
        lemma_ordered_lists_equal(keys, ta, tb);
        assert(a =~= seq![x] + ta);
        assert(b =~= seq![y] + tb);
    } else {
        assert(a =~= b);
    }
}

/// The writing order is fixed by the keys: two orders that each list every
/// entity once, in key order, with equal keys kept in their given order,
/// are the same order.
pub proof fn lemma_save_order_unique(keys: Seq<SaveKeyView>, a: Seq<usize>, b: Seq<usize>)
    requires
        is_save_order(keys, a),
        is_save_order(keys, b),
    ensures
        a == b,
{
    lemma_save_order_steps(keys, a);
    lemma_save_order_steps(keys, b);
    assert forall|x: usize| a.contains(x) <==> b.contains(x) by {
        if a.contains(x) {
            let k = choose|k: int| 0 <= k < a.len() && a[k] == x;
            assert(x < keys.len());
        }
        if b.contains(x) {
            let k = choose|k: int| 0 <= k < b.len() && b[k] == x;
            assert(x < keys.len());
        }
    }
    lemma_ordered_lists_equal(keys, a, b);
}

fn parent_less(a: &Option<String>, b: &Option<String>) -> (r: bool)
    ensures
        r == parent_lt(opt_view(*a), opt_view(*b)),
{
    match (a, b) {
        (None, Some(_)) => true,
        (Some(x), Some(y)) => text_less(&chars_of(x.as_str()), &chars_of(y.as_str())),
        _ => false,
    }
}

fn same_parent(a: &Option<String>, b: &Option<String>) -> (r: bool)
    ensures
        r == (opt_view(*a) == opt_view(*b)),
{
    match (a, b) {
        (None, None) => true,
        (Some(x), Some(y)) => str_equal(x.as_str(), y.as_str()),
        _ => false,
    }
}

fn key_less(a: &SaveKey, b: &SaveKey) -> (r: bool)
    ensures
        r == key_lt(a@, b@),
{
    if parent_less(&a.parent, &b.parent) {
        return true;
    }
    if !same_parent(&a.parent, &b.parent) {
        return false;
    }
    if a.order != b.order {
        return a.order < b.order;
    }
    text_less(&chars_of(a.id.as_str()), &chars_of(b.id.as_str()))
}

/// The order in which a scene's entities are written: by parent id, then
/// sibling order, then id, keeping the given order among equal keys. A
/// scene without entities cannot be saved.
pub fn save_order(keys: &Vec<SaveKey>) -> (r: Result<Vec<usize>, String>)
    ensures
        match r {
            Ok(order) => keys.len() > 0 && is_save_order(key_views(keys@), order@),
            Err(e) => keys.len() == 0 && e@ == "The scene has no editable entities."@,
        },
{
    if keys.len() == 0 {
        return Err(owned("The scene has no editable entities."));
    }
    let ghost kv = key_views(keys@);
    let mut order: Vec<usize> = Vec::new();
    let mut i: usize = 0;
    while i < keys.len()
        invariant
            i <= keys.len(),
            kv == key_views(keys@),
            kv.len() == keys.len(),
            order.len() == i,
            order@.no_duplicates(),
            forall|q: int| 0 <= q < order.len() ==> order@[q] < i,
            forall|x: usize| x < i ==> order@.contains(x),
            forall|a: int, b: int|
                0 <= a < b < order.len() ==> !key_lt(kv[#[trigger] order@[b] as int], kv[#[trigger] order@[a] as int]),
            forall|a: int, b: int|
                0 <= a < b < order.len() && kv[#[trigger] order@[a] as int] == kv[#[trigger] order@[b] as int]
                    ==> order@[a] < order@[b],
        decreases keys.len() - i,
    {
        let mut p: usize = 0;
        while p < order.len() && !key_less(&keys[i], &keys[order[p]])
            invariant
                p <= order.len(),
                i < keys.len(),
                kv == key_views(keys@),
                kv.len() == keys.len(),
                forall|q: int| 0 <= q < order.len() ==> order@[q] < i,
                forall|q: int| 0 <= q < p ==> !key_lt(kv[i as int], kv[#[trigger] order@[q] as int]),
            decreases order.len() - p,
        {
            assert(kv[i as int] == keys@[i as int]@);
            assert(kv[order@[p as int] as int] == keys@[order@[p as int] as int]@);
            p = p + 1;
        }
        assert(kv[i as int] == keys@[i as int]@);
        proof {
            if p < order.len() {
                assert(kv[order@[p as int] as int] == keys@[order@[p as int] as int]@);
                assert(key_lt(kv[i as int], kv[order@[p as int] as int]));
            }
        }
        let ghost old_order = order@;
        order.insert(p, i);
        proof {
            let o = order@;
            assert(o == old_order.insert(p as int, i));
            assert forall|x: usize| x < i + 1 implies o.contains(x) by {
                if x == i {
                    assert(o[p as int] == i);
                } else {
                    assert(old_order.contains(x));
                    let q = choose|q: int| 0 <= q < old_order.len() && old_order[q] == x;
                    if q < p {
                        assert(o[q] == x);
                    } else {
                        assert(o[q + 1] == x);
                    }
                }
            }
            assert forall|q: int| 0 <= q < o.len() implies o[q] < i + 1 by {
                if q < p {
                    assert(o[q] == old_order[q]);
                } else if q > p {
                    assert(o[q] == old_order[q - 1]);
                }
            }
            assert forall|a: int, b: int| 0 <= a < b < o.len() implies o[a] != o[b] by {
                if a < p {
                    assert(o[a] == old_order[a]);
                } else if a > p {
                    assert(o[a] == old_order[a - 1]);
                }
                if b < p {
                    assert(o[b] == old_order[b]);
                } else if b > p {
                    assert(o[b] == old_order[b - 1]);
                }
            }
            assert forall|a: int, b: int|
                0 <= a < b < o.len() implies !key_lt(kv[#[trigger] o[b] as int], kv[#[trigger] o[a] as int]) && (
                kv[o[a] as int] == kv[o[b] as int] ==> o[a] < o[b]) by {
                let ki = kv[i as int];
                if b < p {
                    assert(o[a] == old_order[a] && o[b] == old_order[b]);
                    assert(!key_lt(kv[old_order[b] as int], kv[old_order[a] as int]));
                    assert(kv[old_order[a] as int] == kv[old_order[b] as int] ==> old_order[a] < old_order[b]);
                } else if b == p {
                    assert(o[a] == old_order[a]);
                    assert(o[b] == i);
                    assert(!key_lt(ki, kv[old_order[a] as int]));
                    assert(old_order[a] < i);
                } else if a == p {
                    let kp = kv[old_order[p as int] as int];
                    assert(o[a] == i);
                    assert(o[b] == old_order[b - 1]);
                    assert(old_order[b - 1] < i);
                    assert(key_lt(ki, kp));
                    if b - 1 > p {
                        assert(!key_lt(kv[old_order[b - 1] as int], kv[old_order[p as int] as int]));
                    }
                    if key_lt(kv[o[b] as int], ki) {
                        lemma_key_lt_transitive(kv[o[b] as int], ki, kp);
                        if b - 1 == p {
                            lemma_key_lt_irreflexive(kp);
                        }
                    }
                    if kv[o[b] as int] == ki {
                        if b - 1 == p {
                            lemma_key_lt_irreflexive(ki);
                        }
                    }
                } else if a < p {
                    assert(o[a] == old_order[a] && o[b] == old_order[b - 1]);
                    assert(!key_lt(kv[old_order[b - 1] as int], kv[old_order[a] as int]));
                    assert(kv[old_order[a] as int] == kv[old_order[b - 1] as int] ==> old_order[a] < old_order[b - 1]);
                } else {
                    assert(o[a] == old_order[a - 1] && o[b] == old_order[b - 1]);
                    assert(!key_lt(kv[old_order[b - 1] as int], kv[old_order[a - 1] as int]));
                    assert(kv[old_order[a - 1] as int] == kv[old_order[b - 1] as int] ==> old_order[a - 1] < old_order[b - 1]);
                }
            }
        }
        i = i + 1;
    }
    proof {
        assert(order@.no_duplicates());
    }
    Ok(order)
}

/// The root of a scene in the first format: the first entity whose name is
/// `root_name`. Every other entity becomes its child.
pub fn legacy_root_index(names: &Vec<String>, root_name: &str) -> (r: Result<usize, String>)
    ensures
        match r {
            Ok(i) => i < names.len() && names@[i as int]@ == root_name@ && forall|k: int|
                0 <= k < i ==> (#[trigger] names@[k])@ != root_name@,
            Err(e) => (names.len() == 0 && e@ == "scene contains no entities"@) || (names.len() > 0
                && (forall|k: int| 0 <= k < names.len() ==> (#[trigger] names@[k])@ != root_name@)
                && e@ == "root entity is missing"@),
        },
{
    if names.len() == 0 {
        return Err(owned("scene contains no entities"));
    }
    let mut i: usize = 0;
    while i < names.len()
        invariant
            i <= names.len(),
            forall|k: int| 0 <= k < i ==> (#[trigger] names@[k])@ != root_name@,
        decreases names.len() - i,
    {
        if str_equal(names[i].as_str(), root_name) {
            return Ok(i);
        }
        i = i + 1;
    }
    Err(owned("root entity is missing"))
}

} // verus!
