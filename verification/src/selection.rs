//! Scene-object selection: the primary selection and the ordered
//! multi-selection whose last entry is the primary Inspector target.
//!
//! Entities are identified by their 64-bit id (`Entity::to_bits`).

use vstd::prelude::*;

verus! {

/// Currently selected scene object (if any): the compatibility-facing
/// primary selection.
#[derive(Clone, Copy, Debug, Default, PartialEq, Eq)]
pub struct Selection(pub Option<u64>);

/// `s` without the entity `e`.
pub open spec fn drop_entity(s: Seq<u64>, e: u64) -> Seq<u64>
    decreases s.len(),
{
    if s.len() == 0 {
        Seq::empty()
    } else if s.last() == e {
        drop_entity(s.drop_last(), e)
    } else {
        drop_entity(s.drop_last(), e).push(s.last())
    }
}

/// Adding `e` moves it to the end (appending it if absent).
pub open spec fn add_entity(s: Seq<u64>, e: u64) -> Seq<u64> {
    drop_entity(s, e).push(e)
}

/// Toggling `e` removes it if present and appends it otherwise.
pub open spec fn toggle_entity(s: Seq<u64>, e: u64) -> Seq<u64> {
    if s.contains(e) {
        drop_entity(s, e)
    } else {
        s.push(e)
    }
}

/// Adds each of `hits` in order.
pub open spec fn add_all(s: Seq<u64>, hits: Seq<u64>) -> Seq<u64>
    decreases hits.len(),
{
    if hits.len() == 0 {
        s
    } else {
        add_entity(add_all(s, hits.drop_last()), hits.last())
    }
}

/// The hits in order, each kept only at its last occurrence.
pub open spec fn last_occurrences(hits: Seq<u64>) -> Seq<u64>
    decreases hits.len(),
{
    if hits.len() == 0 {
        Seq::empty()
    } else if hits.drop_first().contains(hits[0]) {
        last_occurrences(hits.drop_first())
    } else {
        seq![hits[0]] + last_occurrences(hits.drop_first())
    }
}

proof fn lemma_drop_front(y: u64, s: Seq<u64>, e: u64)
    ensures
        drop_entity(seq![y] + s, e) == (if y == e {
            drop_entity(s, e)
        } else {
            seq![y] + drop_entity(s, e)
        }),
    decreases s.len(),
{
    let ys = seq![y] + s;
    if s.len() == 0 {
        assert(ys =~= seq![y]);
        assert(ys.drop_last() =~= Seq::<u64>::empty());
        assert(drop_entity(Seq::<u64>::empty(), e) == Seq::<u64>::empty());
        assert(drop_entity(ys, e) == if y == e {
            drop_entity(ys.drop_last(), e)
        } else {
            drop_entity(ys.drop_last(), e).push(y)
        });
        assert(seq![y] + Seq::<u64>::empty() =~= Seq::<u64>::empty().push(y));
    } else {
        lemma_drop_front(y, s.drop_last(), e);
        assert(ys.drop_last() =~= seq![y] + s.drop_last());
        assert(ys.last() == s.last());
        let d = drop_entity(s.drop_last(), e);
        if s.last() == e {
            assert(drop_entity(ys, e) == drop_entity(ys.drop_last(), e));
            assert(drop_entity(s, e) == d);
        } else {
            assert(drop_entity(ys, e) == drop_entity(ys.drop_last(), e).push(s.last()));
            assert(drop_entity(s, e) == d.push(s.last()));
            if y != e {
                assert((seq![y] + d).push(s.last()) =~= seq![y] + d.push(s.last()));
            }
        }
    }
}

proof fn lemma_last_occurrences_push(h: Seq<u64>, x: u64)
    ensures
        last_occurrences(h.push(x)) == drop_entity(last_occurrences(h), x).push(x),
    decreases h.len(),
{
    let hp = h.push(x);
    if h.len() == 0 {
        assert(hp.drop_first() =~= Seq::<u64>::empty());
        assert(!Seq::<u64>::empty().contains(x));
        assert(last_occurrences(Seq::<u64>::empty()) == Seq::<u64>::empty());
        assert(last_occurrences(h) == Seq::<u64>::empty());
        assert(drop_entity(Seq::<u64>::empty(), x) == Seq::<u64>::empty());
        assert(last_occurrences(hp) == seq![x] + last_occurrences(hp.drop_first()));
        assert(seq![x] + Seq::<u64>::empty() =~= Seq::<u64>::empty().push(x));
    } else {
        let a = h[0];
        let t = h.drop_first();
        lemma_last_occurrences_push(t, x);
        assert(hp.drop_first() =~= t.push(x));
        assert(hp[0] == a);
        let lt = last_occurrences(t);
        lemma_drop_front(a, lt, x);
        if t.contains(a) {
            assert(t.push(x).contains(a)) by {
                let k = choose|k: int| 0 <= k < t.len() && t[k] == a;
                assert(t.push(x)[k] == a);
            }
            assert(last_occurrences(hp) == last_occurrences(t.push(x)));
            assert(last_occurrences(h) == lt);
        } else if a == x {
            assert(t.push(x).contains(a)) by {
                assert(t.push(x)[t.len() as int] == a);
            }
            assert(last_occurrences(hp) == last_occurrences(t.push(x)));
            assert(last_occurrences(h) == seq![a] + lt);
        } else {
            assert(!t.push(x).contains(a)) by {
                if t.push(x).contains(a) {
                    let k = choose|k: int| 0 <= k < t.push(x).len() && t.push(x)[k] == a;
                    if k < t.len() {
                        assert(t[k] == a);
                    }
                }
            }
            assert(last_occurrences(hp) == seq![a] + last_occurrences(t.push(x)));
            assert(last_occurrences(h) == seq![a] + lt);
            assert(seq![a] + drop_entity(lt, x).push(x) =~= (seq![a] + drop_entity(lt, x)).push(x));
        }
    }
}

/// A box selection that replaces the old one selects the hit entities,
/// each at its last occurrence among the hits, in order.
pub proof fn lemma_box_select_keeps_last_occurrences(hits: Seq<u64>)
    ensures
        add_all(Seq::empty(), hits) == last_occurrences(hits),
    decreases hits.len(),
{
    if hits.len() > 0 {
        lemma_box_select_keeps_last_occurrences(hits.drop_last());
        lemma_last_occurrences_push(hits.drop_last(), hits.last());
        assert(hits.drop_last().push(hits.last()) =~= hits);
    }
}

/// Toggles each of `hits` in order.
pub open spec fn toggle_all(s: Seq<u64>, hits: Seq<u64>) -> Seq<u64>
    decreases hits.len(),
{
    if hits.len() == 0 {
        s
    } else {
        toggle_entity(toggle_all(s, hits.drop_last()), hits.last())
    }
}

pub open spec fn last_of(s: Seq<u64>) -> Option<u64> {
    if s.len() == 0 {
        None
    } else {
        Some(s.last())
    }
}

pub open spec fn option_seq(o: Option<u64>) -> Seq<u64> {
    match o {
        Some(e) => seq![e],
        None => Seq::empty(),
    }
}

pub proof fn lemma_drop_entity(s: Seq<u64>, e: u64)
    ensures
        forall|x: u64| drop_entity(s, e).contains(x) <==> (s.contains(x) && x != e),
        s.no_duplicates() ==> drop_entity(s, e).no_duplicates(),
        !s.contains(e) ==> drop_entity(s, e) == s,
        drop_entity(s, e).len() <= s.len(),
    decreases s.len(),
{
    if s.len() > 0 {
        let t = s.drop_last();
        lemma_drop_entity(t, e);
        assert forall|x: u64| s.contains(x) <==> (t.contains(x) || x == s.last()) by {
            if s.contains(x) {
                let i = choose|i: int| 0 <= i < s.len() && s[i] == x;
                if i < s.len() - 1 {
                    assert(t[i] == x);
                }
            }
            if t.contains(x) {
                let i = choose|i: int| 0 <= i < t.len() && t[i] == x;
                assert(s[i] == x);
            }
            if x == s.last() {
                assert(s[s.len() - 1] == x);
            }
        }
        let d = drop_entity(t, e);
        if s.last() != e {
            assert forall|x: u64| d.push(s.last()).contains(x) <==> (d.contains(x) || x == s.last()) by {
                if d.push(s.last()).contains(x) {
                    let i = choose|i: int| 0 <= i < d.len() + 1 && d.push(s.last())[i] == x;
                    if i < d.len() {
                        assert(d[i] == x);
                    }
                }
                if d.contains(x) {
                    let i = choose|i: int| 0 <= i < d.len() && d[i] == x;
                    assert(d.push(s.last())[i] == x);
                }
                if x == s.last() {
                    assert(d.push(s.last())[d.len() as int] == x);
                }
            }
            if s.no_duplicates() {
                assert(!t.contains(s.last())) by {
                    if t.contains(s.last()) {
                        let i = choose|i: int| 0 <= i < t.len() && t[i] == s.last();
                        assert(s[i] == s[s.len() - 1]);
                    }
                }
                assert(t.no_duplicates()) by {
                    assert forall|i: int, j: int| 0 <= i < t.len() && 0 <= j < t.len() && i != j implies t[i] != t[j] by {
                        assert(t[i] == s[i] && t[j] == s[j]);
                    }
                }
                assert(!d.contains(s.last()));
                assert forall|i: int, j: int|
                    0 <= i < d.len() + 1 && 0 <= j < d.len() + 1 && i != j implies d.push(s.last())[i]
                    != d.push(s.last())[j] by {
                    if i < d.len() && j < d.len() {
                    } else if i == d.len() {
                        assert(d.contains(d.push(s.last())[j]));
                    } else {
                        assert(d.contains(d.push(s.last())[i]));
                    }
                }
            }
            if !s.contains(e) {
                assert(!t.contains(e));
                assert(d == t);
                assert(t.push(s.last()) =~= s);
            }
        } else {
            if s.no_duplicates() {
                assert(t.no_duplicates()) by {
                    assert forall|i: int, j: int| 0 <= i < t.len() && 0 <= j < t.len() && i != j implies t[i] != t[j] by {
                        assert(t[i] == s[i] && t[j] == s[j]);
                    }
                }
            }
            assert(s[s.len() - 1] == e);
        }
    }
}

/// Removing the entity at `k` of a list without duplicates is dropping it.
proof fn lemma_remove_index(s: Seq<u64>, k: int)
    requires
        s.no_duplicates(),
        0 <= k < s.len(),
    ensures
        s.remove(k) == drop_entity(s, s[k]),
    decreases s.len(),
{
    let e = s[k];
    let t = s.drop_last();
    if k == s.len() - 1 {
        lemma_drop_entity(t, e);
        assert(!t.contains(e)) by {
            if t.contains(e) {
                let i = choose|i: int| 0 <= i < t.len() && t[i] == e;
                assert(s[i] == s[k]);
            }
        }
        assert(s.remove(k) =~= t);
    } else {
        assert(t.no_duplicates()) by {
            assert forall|i: int, j: int| 0 <= i < t.len() && 0 <= j < t.len() && i != j implies t[i] != t[j] by {
                assert(t[i] == s[i] && t[j] == s[j]);
            }
        }
        assert(t[k] == e);
        lemma_remove_index(t, k);
        assert(s.last() != e);
        assert(s.remove(k) =~= t.remove(k).push(s.last()));
    }
}

/// The ordered multi-selection. Its last entry is the primary target.
#[derive(Debug, Default)]
pub struct SelectionSet {
    primary: Option<u64>,
    entities: Vec<u64>,
}

pub struct SelectionSetView {
    pub primary: Option<u64>,
    pub entities: Seq<u64>,
}

impl View for SelectionSet {
    type V = SelectionSetView;

    closed spec fn view(&self) -> SelectionSetView {
        SelectionSetView { primary: self.primary, entities: self.entities@ }
    }
}

/// The entities shown as selected: the multi-selection while its primary
/// agrees with `selection`, otherwise just `selection`'s entity (a primary
/// assigned by older code replaces the multi-selection).
pub open spec fn spec_entities(set: SelectionSetView, selection: Selection) -> Seq<u64> {
    if set.primary == selection.0 {
        set.entities
    } else {
        option_seq(selection.0)
    }
}

/// The multi-selection after agreeing with `selection`.
pub open spec fn synced(set: SelectionSetView, selection: Selection) -> Seq<u64> {
    spec_entities(set, selection)
}

impl SelectionSet {
    /// No entity appears twice, and the primary is the last entity.
    #[verifier::type_invariant]
    spec fn well_formed(self) -> bool {
        &&& self.entities@.no_duplicates()
        &&& self.primary == last_of(self.entities@)
    }

    /// The invariant, as callers can read it.
    pub open spec fn valid(v: SelectionSetView) -> bool {
        &&& v.entities.no_duplicates()
        &&& v.primary == last_of(v.entities)
    }

    pub fn new() -> (r: Self)
        ensures
            r@.entities.len() == 0,
            r@.primary is None,
    {
        SelectionSet { primary: None, entities: Vec::new() }
    }

    /// The selected entities in order (see `spec_entities`).
    pub fn entities(&self, selection: &Selection) -> (r: Vec<u64>)
        ensures
            r@ == spec_entities(self@, *selection),
    {
        if self.primary == selection.0 {
            self.entities.clone()
        } else {
            let mut r = Vec::new();
            if let Some(e) = selection.0 {
                r.push(e);
            }
            assert(r@ =~= option_seq(selection.0));
            r
        }
    }

    pub fn contains(&self, selection: &Selection, entity: u64) -> (r: bool)
        ensures
            r == spec_entities(self@, *selection).contains(entity),
    {
        let list = self.entities(selection);
        let mut i: usize = 0;
        while i < list.len()
            invariant
                i <= list.len(),
                list@ == spec_entities(self@, *selection),
                forall|k: int| 0 <= k < i ==> list@[k] != entity,
            decreases list.len() - i,
        {
            if list[i] == entity {
                assert(list@[i as int] == entity);
                assert(list@.contains(entity));
                return true;
            }
            i = i + 1;
        }
        false
    }

    /// Replaces the selection with `entity` alone.
    pub fn select_only(&mut self, selection: &mut Selection, entity: u64)
        ensures
            final(self)@.entities == seq![entity],
            final(self)@.primary == Some(entity),
            final(selection).0 == Some(entity),
            Self::valid(final(self)@),
    {
        let mut entities = Vec::new();
        entities.push(entity);
        assert(entities@.no_duplicates());
        *self = SelectionSet { primary: Some(entity), entities };
        selection.0 = Some(entity);
    }

    /// Replaces the selection with `entities`, each kept once at its last
    /// position; the last one becomes primary.
    pub fn select_many(&mut self, selection: &mut Selection, entities: Vec<u64>)
        ensures
            final(self)@.entities == add_all(Seq::empty(), entities@),
            final(self)@.primary == last_of(final(self)@.entities),
            final(selection).0 == final(self)@.primary,
            Self::valid(final(self)@),
    {
        let list = add_each(Vec::new(), &entities);
        let primary = last_entity(&list);
        *self = SelectionSet { primary, entities: list };
        selection.0 = primary;
    }

    /// A click on `entity`: with `control` it is toggled, with `shift` it is
    /// added, otherwise it replaces the selection. The multi-selection first
    /// falls back to `selection` if they disagree.
    pub fn select_from_click(
        &mut self,
        selection: &mut Selection,
        entity: u64,
        shift: bool,
        control: bool,
    )
        ensures
            final(self)@.entities == (if control {
                toggle_entity(synced(old(self)@, *old(selection)), entity)
            } else if shift {
                add_entity(synced(old(self)@, *old(selection)), entity)
            } else {
                seq![entity]
            }),
            final(self)@.primary == last_of(final(self)@.entities),
            final(selection).0 == final(self)@.primary,
            Self::valid(final(self)@),
    {
        let start = self.synced_list(selection);
        let list = if control {
            toggle_one(start, entity)
        } else if shift {
            add_one(start, entity)
        } else {
            let mut only = Vec::new();
            only.push(entity);
            assert(only@ =~= seq![entity]);
            assert(only@.no_duplicates());
            only
        };
        let primary = last_entity(&list);
        *self = SelectionSet { primary, entities: list };
        selection.0 = primary;
    }

    /// A box selection over `entities` as one operation: with `control`
    /// each hit is toggled, with `shift` each is added, otherwise the hits
    /// replace the selection.
    pub fn select_from_box(
        &mut self,
        selection: &mut Selection,
        entities: Vec<u64>,
        shift: bool,
        control: bool,
    )
        ensures
            final(self)@.entities == (if control {
                toggle_all(synced(old(self)@, *old(selection)), entities@)
            } else if shift {
                add_all(synced(old(self)@, *old(selection)), entities@)
            } else {
                add_all(Seq::empty(), entities@)
            }),
            final(self)@.primary == last_of(final(self)@.entities),
            final(selection).0 == final(self)@.primary,
            Self::valid(final(self)@),
    {
        let start = self.synced_list(selection);
        let list = if control {
            toggle_each(start, &entities)
        } else if shift {
            add_each(start, &entities)
        } else {
            add_each(Vec::new(), &entities)
        };
        let primary = last_entity(&list);
        *self = SelectionSet { primary, entities: list };
        selection.0 = primary;
    }

    /// The multi-selection after agreeing with the primary selection.
    fn synced_list(&self, selection: &Selection) -> (r: Vec<u64>)
        ensures
            r@ == synced(self@, *selection),
            r@.no_duplicates(),
    {
        proof {
            use_type_invariant(self);
        }
        let r = self.entities(selection);
        assert(option_seq(selection.0).no_duplicates());
        r
    }
}

fn last_entity(v: &Vec<u64>) -> (r: Option<u64>)
    ensures
        r == last_of(v@),
{
    if v.len() == 0 {
        None
    } else {
        Some(v[v.len() - 1])
    }
}

fn position(v: &Vec<u64>, e: u64) -> (r: Option<usize>)
    ensures
        match r {
            Some(k) => k < v.len() && v@[k as int] == e,
            None => !v@.contains(e),
        },
{
    let mut i: usize = 0;
    while i < v.len()
        invariant
            i <= v.len(),
            forall|k: int| 0 <= k < i ==> v@[k] != e,
        decreases v.len() - i,
    {
        if v[i] == e {
            return Some(i);
        }
        i = i + 1;
    }
    None
}

fn add_one(v: Vec<u64>, e: u64) -> (r: Vec<u64>)
    requires
        v@.no_duplicates(),
    ensures
        r@ == add_entity(v@, e),
        r@.no_duplicates(),
{
    let mut v = v;
    let ghost start = v@;
    proof {
        lemma_drop_entity(start, e);
    }
    match position(&v, e) {
        Some(k) => {
            proof {
                lemma_remove_index(start, k as int);
            }
            v.remove(k);
        },
        None => {},
    }
    assert(v@ == drop_entity(start, e));
    assert(!v@.contains(e));
    v.push(e);
    assert forall|i: int, j: int| 0 <= i < v.len() && 0 <= j < v.len() && i != j implies v@[i] != v@[j] by {
        if i == v.len() - 1 {
            assert(drop_entity(start, e).contains(v@[j]));
        } else if j == v.len() - 1 {
            assert(drop_entity(start, e).contains(v@[i]));
        }
    }
    v
}

fn toggle_one(v: Vec<u64>, e: u64) -> (r: Vec<u64>)
    requires
        v@.no_duplicates(),
    ensures
        r@ == toggle_entity(v@, e),
        r@.no_duplicates(),
{
    let mut v = v;
    let ghost start = v@;
    proof {
        lemma_drop_entity(start, e);
    }
    match position(&v, e) {
        Some(k) => {
            proof {
                lemma_remove_index(start, k as int);
            }
            v.remove(k);
            v
        },
        None => {
            v.push(e);
            assert forall|i: int, j: int| 0 <= i < v.len() && 0 <= j < v.len() && i != j implies v@[i] != v@[j] by {
                if i == v.len() - 1 {
                    assert(start.contains(v@[j]));
                } else if j == v.len() - 1 {
                    assert(start.contains(v@[i]));
                }
            }
            v
        },
    }
}

fn add_each(v: Vec<u64>, hits: &Vec<u64>) -> (r: Vec<u64>)
    requires
        v@.no_duplicates(),
    ensures
        r@ == add_all(v@, hits@),
        r@.no_duplicates(),
{
    let ghost start = v@;
    let mut v = v;
    let mut i: usize = 0;
    while i < hits.len()
        invariant
            i <= hits.len(),
            v@ == add_all(start, hits@.take(i as int)),
            v@.no_duplicates(),
        decreases hits.len() - i,
    {
        assert(hits@.take(i + 1).drop_last() =~= hits@.take(i as int));
        v = add_one(v, hits[i]);
        i = i + 1;
    }
    assert(hits@.take(hits.len() as int) =~= hits@);
    v
}

fn toggle_each(v: Vec<u64>, hits: &Vec<u64>) -> (r: Vec<u64>)
    requires
        v@.no_duplicates(),
    ensures
        r@ == toggle_all(v@, hits@),
        r@.no_duplicates(),
{
    let ghost start = v@;
    let mut v = v;
    let mut i: usize = 0;
    while i < hits.len()
        invariant
            i <= hits.len(),
            v@ == toggle_all(start, hits@.take(i as int)),
            v@.no_duplicates(),
        decreases hits.len() - i,
    {
        assert(hits@.take(i + 1).drop_last() =~= hits@.take(i as int));
        v = toggle_one(v, hits[i]);
        i = i + 1;
    }
    assert(hits@.take(hits.len() as int) =~= hits@);
    v
}

/// Makes `entity` the primary selection (as code outside the multi-selection does).
pub fn select_entity(entity: u64, selection: &mut Selection)
    ensures
        final(selection).0 == Some(entity),
{
    selection.0 = Some(entity);
}

} // verus!
