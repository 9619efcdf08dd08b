//! Replacing the variables of an atom by fresh ones.

use vstd::prelude::*;
use crate::atom::{Atom, AtomView, VariableAtom, atom_view, views, lemma_views};
use crate::ids::VariableIdCounter;

verus! {

/// Whether the variable `k` (a name and an id) occurs in `a`, outside
/// grounded atoms.
pub open spec fn occurs(k: (Seq<char>, nat), a: AtomView) -> bool
    decreases a,
{
    match a {
        AtomView::Variable(name, id) => k == (name, id),
        AtomView::Expression(children) => occurs_in(k, children),
        _ => false,
    }
}

/// Whether the variable `k` occurs in one of `s`.
pub open spec fn occurs_in(k: (Seq<char>, nat), s: Seq<AtomView>) -> bool
    decreases s,
{
    s.len() > 0 && (occurs_in(k, s.drop_last()) || occurs(k, s.last()))
}

/// A variable occurs in a sequence exactly when it occurs in one of its
/// elements.
pub proof fn lemma_occurs_in(k: (Seq<char>, nat), s: Seq<AtomView>)
    ensures
        occurs_in(k, s) <==> exists|j: int| 0 <= j < s.len() && #[trigger] occurs(k, s[j]),
    decreases s.len(),
{
    if s.len() > 0 {
        lemma_occurs_in(k, s.drop_last());
        if occurs_in(k, s.drop_last()) {
            let j = choose|j: int| 0 <= j < s.drop_last().len() && #[trigger] occurs(k, s.drop_last()[j]);
            assert(s.drop_last()[j] == s[j]);
        }
        if occurs(k, s.last()) {
            assert(occurs(k, s[s.len() - 1]));
        }
        if exists|j: int| 0 <= j < s.len() && #[trigger] occurs(k, s[j]) {
            let j = choose|j: int| 0 <= j < s.len() && #[trigger] occurs(k, s[j]);
            if j < s.len() - 1 {
                assert(s.drop_last()[j] == s[j]);
            } else {
                assert(s.last() == s[j]);
            }
        }
    }
}

/// `a` with each variable `k` that `m` maps replaced by the variable of the
/// same name and id `m[k]`.
pub open spec fn rename(a: AtomView, m: Map<(Seq<char>, nat), nat>) -> AtomView
    decreases a,
{
    match a {
        AtomView::Variable(name, id) => if m.contains_key((name, id)) {
            AtomView::Variable(name, m[(name, id)])
        } else {
            a
        },
        AtomView::Expression(children) => AtomView::Expression(
            Seq::new(
                children.len(),
                |j: int|
                    if 0 <= j < children.len() {
                        rename(children[j], m)
                    } else {
                        children[j]
                    },
            ),
        ),
        _ => a,
    }
}

/// Some variable is mapped to `id` by `m`.
pub open spec fn maps_to(m: Map<(Seq<char>, nat), nat>, id: nat) -> bool {
    exists|k: (Seq<char>, nat)| #[trigger] m.contains_key(k) && m[k] == id
}

/// `m` renames the variables of `a` apart into `r`: it maps exactly the
/// variables that occur in `a`, gives distinct variables distinct ids, uses
/// every id in `lo..hi` and no other, and `r` is `a` renamed by it.
pub open spec fn is_renaming_apart(
    a: AtomView,
    r: AtomView,
    lo: nat,
    hi: nat,
    m: Map<(Seq<char>, nat), nat>,
) -> bool {
    &&& forall|k: (Seq<char>, nat)| #[trigger] m.contains_key(k) <==> occurs(k, a)
    &&& forall|k: (Seq<char>, nat)| #[trigger] m.contains_key(k) ==> lo <= m[k] < hi
    &&& forall|k1: (Seq<char>, nat), k2: (Seq<char>, nat)|
        #[trigger] m.contains_key(k1) && #[trigger] m.contains_key(k2) && m[k1] == m[k2] ==> k1 == k2
    &&& forall|id: nat| lo <= id < hi ==> #[trigger] maps_to(m, id)
    &&& r == rename(a, m)
}

/// `r` is `a` with its variables renamed apart, the new ids being `lo..hi`.
pub open spec fn renamed_apart(a: AtomView, r: AtomView, lo: nat, hi: nat) -> bool {
    exists|m: Map<(Seq<char>, nat), nat>| #[trigger] is_renaming_apart(a, r, lo, hi, m)
}

/// Renaming depends only on how the map treats the variables that occur.
pub proof fn lemma_rename_stable(a: AtomView, m1: Map<(Seq<char>, nat), nat>, m2: Map<(Seq<char>, nat), nat>)
    requires
        forall|k: (Seq<char>, nat)| occurs(k, a) ==> #[trigger] m1.contains_key(k),
        forall|k: (Seq<char>, nat)| #[trigger] m1.contains_key(k) ==> m2.contains_key(k) && m2[k] == m1[k],
    ensures
        rename(a, m1) == rename(a, m2),
    decreases a,
{
    match a {
        AtomView::Variable(name, id) => {
            assert(occurs((name, id), a));
        },
        AtomView::Expression(children) => {
            assert forall|j: int| 0 <= j < children.len() implies rename(children[j], m1) == rename(children[j], m2) by {
                assert forall|k: (Seq<char>, nat)| occurs(k, children[j]) implies #[trigger] m1.contains_key(k) by {
                    lemma_occurs_in(k, children);
                }
                lemma_rename_stable(children[j], m1, m2);
            }
            assert(rename(a, m1)->Expression_0 =~= rename(a, m2)->Expression_0);
        },
        _ => {},
    }
}

/// The variables of `a`, in the order they first occur, after those of
/// `seen`: each variable of `a` that `seen` does not hold is added when it
/// is first met, left to right.
pub open spec fn first_occurrences(seen: Seq<(Seq<char>, nat)>, a: AtomView) -> Seq<(Seq<char>, nat)>
    decreases a,
{
    match a {
        AtomView::Variable(name, id) => if seen.contains((name, id)) {
            seen
        } else {
            seen.push((name, id))
        },
        AtomView::Expression(children) => first_occurrences_all(seen, children),
        _ => seen,
    }
}

/// [first_occurrences] over a sequence of atoms, left to right.
pub open spec fn first_occurrences_all(seen: Seq<(Seq<char>, nat)>, s: Seq<AtomView>) -> Seq<(Seq<char>, nat)>
    decreases s,
{
    if s.len() == 0 {
        seen
    } else {
        first_occurrences(first_occurrences_all(seen, s.drop_last()), s.last())
    }
}

/// The distinct variables of `a`, in the order they first occur.
pub open spec fn variable_order(a: AtomView) -> Seq<(Seq<char>, nat)> {
    first_occurrences(Seq::empty(), a)
}

/// The map that gives the `i`-th variable of `order` the id `lo + i`.
pub open spec fn numbering(order: Seq<(Seq<char>, nat)>, lo: nat) -> Map<(Seq<char>, nat), nat> {
    Map::new(
        |k: (Seq<char>, nat)| order.contains(k),
        |k: (Seq<char>, nat)| (lo + order.index_of(k)) as nat,
    )
}

/// The names and ids of a sequence of variables.
pub open spec fn keys(s: Seq<VariableAtom>) -> Seq<(Seq<char>, nat)> {
    s.map_values(|v: VariableAtom| v@)
}

/// What [first_occurrences] keeps: `seen` comes first, the variables are
/// those of `seen` and of `a`, and none comes twice if none did in `seen`.
pub proof fn lemma_first_occurrences(seen: Seq<(Seq<char>, nat)>, a: AtomView)
    ensures
        first_occurrences(seen, a).len() >= seen.len(),
        first_occurrences(seen, a).take(seen.len() as int) == seen,
        forall|k: (Seq<char>, nat)| #[trigger] first_occurrences(seen, a).contains(k) <==>
            (seen.contains(k) || occurs(k, a)),
        seen.no_duplicates() ==> first_occurrences(seen, a).no_duplicates(),
    decreases a,
{
    let r = first_occurrences(seen, a);
    match a {
        AtomView::Variable(name, id) => {
            let k0 = (name, id);
            if !seen.contains(k0) {
                assert(r.take(seen.len() as int) =~= seen);
                assert forall|k: (Seq<char>, nat)| #[trigger] r.contains(k) <==> (seen.contains(k) || occurs(k, a)) by {
                    if r.contains(k) {
                        let i = choose|i: int| 0 <= i < r.len() && r[i] == k;
                        if i < seen.len() {
                            assert(seen[i] == k);
                        }
                    }
                    if seen.contains(k) {
                        let i = choose|i: int| 0 <= i < seen.len() && seen[i] == k;
                        assert(r[i] == k);
                    }
                    if occurs(k, a) {
                        assert(r[seen.len() as int] == k);
                    }
                }
            } else {
                assert(r.take(seen.len() as int) =~= seen);
            }
        },
        AtomView::Expression(children) => {
            lemma_first_occurrences_all(seen, children);
            assert forall|k: (Seq<char>, nat)| #[trigger] r.contains(k) <==> (seen.contains(k) || occurs(k, a)) by {
                lemma_occurs_in(k, children);
            }
        },
        _ => {
            assert(r.take(seen.len() as int) =~= seen);
        },
    }
}

/// [lemma_first_occurrences] over a sequence of atoms.
pub proof fn lemma_first_occurrences_all(seen: Seq<(Seq<char>, nat)>, s: Seq<AtomView>)
    ensures
        first_occurrences_all(seen, s).len() >= seen.len(),
        first_occurrences_all(seen, s).take(seen.len() as int) == seen,
        forall|k: (Seq<char>, nat)| #[trigger] first_occurrences_all(seen, s).contains(k) <==>
            (seen.contains(k) || occurs_in(k, s)),
        seen.no_duplicates() ==> first_occurrences_all(seen, s).no_duplicates(),
    decreases s,
{
    if s.len() == 0 {
        assert(seen.take(seen.len() as int) =~= seen);
    } else {
        let mid = first_occurrences_all(seen, s.drop_last());
        let r = first_occurrences_all(seen, s);
        lemma_first_occurrences_all(seen, s.drop_last());
        lemma_first_occurrences(mid, s.last());
        assert(r.take(seen.len() as int) =~= r.take(mid.len() as int).take(seen.len() as int));
    }
}

/// The variables found in a prefix of a sequence come first among those
/// found in the whole sequence.
proof fn lemma_first_occurrences_prefix(seen: Seq<(Seq<char>, nat)>, s: Seq<AtomView>, i: int)
    requires
        0 <= i <= s.len(),
    ensures
        first_occurrences_all(seen, s.take(i)).len() <= first_occurrences_all(seen, s).len(),
        first_occurrences_all(seen, s).take(first_occurrences_all(seen, s.take(i)).len() as int)
            == first_occurrences_all(seen, s.take(i)),
    decreases s.len(),
{
    let p = first_occurrences_all(seen, s.take(i));
    let r = first_occurrences_all(seen, s);
    if i == s.len() {
        assert(s.take(i) =~= s);
        assert(r.take(r.len() as int) =~= r);
    } else {
        assert(s.drop_last().take(i) =~= s.take(i));
        lemma_first_occurrences_prefix(seen, s.drop_last(), i);
        let mid = first_occurrences_all(seen, s.drop_last());
        lemma_first_occurrences(mid, s.last());
        assert(r.take(p.len() as int) =~= r.take(mid.len() as int).take(p.len() as int));
    }
}

proof fn lemma_first_occurrences_step(seen: Seq<(Seq<char>, nat)>, s: Seq<AtomView>, i: int)
    requires
        0 <= i < s.len(),
    ensures
        first_occurrences_all(seen, s.take(i + 1)) == first_occurrences(first_occurrences_all(seen, s.take(i)), s[i]),
{
    assert(s.take(i + 1).drop_last() =~= s.take(i));
}

/// In a sequence without duplicates, the `i`-th element is numbered `lo + i`.
pub proof fn lemma_numbering(order: Seq<(Seq<char>, nat)>, lo: nat, i: int)
    requires
        order.no_duplicates(),
        0 <= i < order.len(),
    ensures
        numbering(order, lo).contains_key(order[i]),
        numbering(order, lo)[order[i]] == lo + i,
{
    assert(order.contains(order[i]));
    let j = order.index_of(order[i]);
    assert(order[j] == order[i]);
}

/// Numbering a longer sequence without duplicates keeps the numbers of its
/// prefix.
proof fn lemma_numbering_prefix(p: Seq<(Seq<char>, nat)>, s: Seq<(Seq<char>, nat)>, lo: nat)
    requires
        p.len() <= s.len(),
        s.take(p.len() as int) == p,
        s.no_duplicates(),
    ensures
        forall|k: (Seq<char>, nat)| #[trigger] numbering(p, lo).contains_key(k) ==>
            numbering(s, lo).contains_key(k) && numbering(s, lo)[k] == numbering(p, lo)[k],
{
    assert forall|k: (Seq<char>, nat)| #[trigger] numbering(p, lo).contains_key(k) implies
        numbering(s, lo).contains_key(k) && numbering(s, lo)[k] == numbering(p, lo)[k] by {
        let i = choose|i: int| 0 <= i < p.len() && p[i] == k;
        assert(s[i] == p[i]);
        assert(p.no_duplicates()) by {
            assert forall|a: int, b: int| 0 <= a < p.len() && 0 <= b < p.len() && a != b implies p[a] != p[b] by {
                assert(s[a] == p[a] && s[b] == p[b]);
            }
        }
        lemma_numbering(p, lo, i);
        lemma_numbering(s, lo, i);
    }
}

/// Where `v` stands in `seen`, if it does.
fn position(seen: &Vec<VariableAtom>, v: &VariableAtom) -> (r: Option<usize>)
    ensures
        match r {
            Some(i) => i < seen@.len() && keys(seen@)[i as int] == v@,
            None => !keys(seen@).contains(v@),
        },
{
    let n = seen.len();
    let mut i: usize = 0;
    while i < n
        invariant
            n == seen@.len(),
            0 <= i <= n,
            forall|j: int| 0 <= j < i ==> keys(seen@)[j] != v@,
        decreases n - i,
    {
        if seen[i] == *v {
            return Some(i);
        }
        i = i + 1;
    }
    None
}

/// Adds to `seen` the variables of `a` that it does not hold, in the order
/// they first occur.
fn collect_variables(a: &Atom, seen: &mut Vec<VariableAtom>)
    ensures
        keys(final(seen)@) == first_occurrences(keys(old(seen)@), a@),
    decreases a@,
{
    match a {
        Atom::Variable(v) => {
            if position(seen, v).is_none() {
                seen.push(v.clone());
                assert(keys(seen@) =~= keys(old(seen)@).push(v@));
            }
        },
        Atom::Expression(e) => {
            let children = e.children();
            let ghost cs = views(children@);
            proof {
                lemma_views(children@);
            }
            let ghost seen0 = keys(seen@);
            let n = children.len();
            let mut i: usize = 0;
            while i < n
                invariant
                    *a == Atom::Expression(*e),
                    cs == e@,
                    cs == views(children@),
                    n == children@.len(),
                    cs.len() == n,
                    forall|j: int| 0 <= j < n ==> #[trigger] cs[j] == atom_view(children@[j]),
                    0 <= i <= n,
                    seen0 == keys(old(seen)@),
                    keys(seen@) == first_occurrences_all(seen0, cs.take(i as int)),
                decreases n - i,
            {
                proof {
                    assert(a@ == AtomView::Expression(cs));
                    assert(decreases_to!(a@ => a@->Expression_0));
                    assert(decreases_to!(cs => cs[i as int]));
                    lemma_first_occurrences_step(seen0, cs, i as int);
                }
                collect_variables(&children[i], seen);
                i = i + 1;
            }
            proof {
                assert(cs.take(n as int) =~= cs);
            }
        },
        _ => {},
    }
}

/// The distinct variables of `atom`, in the order they first occur.
pub fn variables(atom: &Atom) -> (r: Vec<VariableAtom>)
    ensures
        keys(r@) == variable_order(atom@),
{
    let mut seen: Vec<VariableAtom> = Vec::new();
    assert(keys(seen@) =~= Seq::empty());
    collect_variables(atom, &mut seen);
    seen
}

/// The table of the variables renamed so far: the `i`-th variable met and
/// its fresh copy, of the same name and with the id `first + i`.
struct Renaming {
    seen: Vec<VariableAtom>,
    fresh: Vec<VariableAtom>,
    first: Ghost<nat>,
}

impl Renaming {
    spec fn wf(&self, next: nat) -> bool {
        &&& self.fresh@.len() == self.seen@.len()
        &&& keys(self.seen@).no_duplicates()
        &&& forall|i: int| 0 <= i < self.seen@.len() ==>
            #[trigger] self.fresh@[i]@ == (self.seen@[i]@.0, (self.first@ + i) as nat)
        &&& next == self.first@ + self.seen@.len()
    }

    spec fn map(&self) -> Map<(Seq<char>, nat), nat> {
        numbering(keys(self.seen@), self.first@)
    }

    fn new(ids: &VariableIdCounter) -> (r: Self)
        ensures
            r.wf(ids@),
            r.first@ == ids@,
            keys(r.seen@) == Seq::<(Seq<char>, nat)>::empty(),
    {
        let r = Renaming { seen: Vec::new(), fresh: Vec::new(), first: Ghost(ids@) };
        assert(keys(r.seen@) =~= Seq::empty());
        r
    }

    /// The fresh copy of `v`, if it has one.
    fn lookup(&self, v: &VariableAtom, Ghost(next): Ghost<nat>) -> (r: Option<VariableAtom>)
        requires
            self.wf(next),
        ensures
            match r {
                Some(f) => keys(self.seen@).contains(v@) && f@ == (v@.0, self.map()[v@]),
                None => !keys(self.seen@).contains(v@),
            },
    {
        match position(&self.seen, v) {
            Some(i) => {
                proof {
                    lemma_numbering(keys(self.seen@), self.first@, i as int);
                }
                Some(self.fresh[i].clone())
            },
            None => None,
        }
    }

    /// Records that `v` is renamed to `fresh`.
    fn add(&mut self, v: VariableAtom, fresh: VariableAtom, Ghost(next): Ghost<nat>)
        requires
            old(self).wf(next),
            !keys(old(self).seen@).contains(v@),
            fresh@ == (v@.0, next),
        ensures
            final(self).wf(next + 1),
            final(self).first@ == old(self).first@,
            keys(final(self).seen@) == keys(old(self).seen@).push(v@),
    {
        let ghost key = v@;
        let ghost old_keys = keys(self.seen@);
        self.seen.push(v);
        self.fresh.push(fresh);
        proof {
            assert(keys(self.seen@) =~= old_keys.push(key));
            assert forall|a: int, b: int| 0 <= a < keys(self.seen@).len() && 0 <= b < keys(self.seen@).len()
                && a != b implies keys(self.seen@)[a] != keys(self.seen@)[b] by {
                if a < old_keys.len() && b < old_keys.len() {
                    assert(keys(self.seen@)[a] == old_keys[a]);
                    assert(keys(self.seen@)[b] == old_keys[b]);
                } else if a < old_keys.len() {
                    assert(keys(self.seen@)[a] == old_keys[a]);
                } else if b < old_keys.len() {
                    assert(keys(self.seen@)[b] == old_keys[b]);
                }
            }
        }
    }
}

/// Renames the variables of `a` apart, extending the table `t`.
fn rename_into(a: &Atom, t: &mut Renaming, ids: &mut VariableIdCounter) -> (r: Atom)
    requires
        old(t).wf(old(ids)@),
        old(t).first@ + first_occurrences(keys(old(t).seen@), a@).len() <= usize::MAX,
    ensures
        final(t).wf(final(ids)@),
        final(t).first@ == old(t).first@,
        keys(final(t).seen@) == first_occurrences(keys(old(t).seen@), a@),
        r@ == rename(a@, final(t).map()),
    decreases a@,
{
    proof {
        lemma_first_occurrences(keys(t.seen@), a@);
    }
    match a {
        Atom::Variable(v) => {
            assert(a@ == AtomView::Variable(v@.0, v@.1));
            match t.lookup(v, Ghost(ids@)) {
                Some(f) => Atom::Variable(f),
                None => {
                    let ghost next = ids@;
                    let ghost old_keys = keys(t.seen@);
                    let f = v.make_unique(ids);
                    t.add(v.clone(), f.clone(), Ghost(next));
                    proof {
                        lemma_numbering(keys(t.seen@), t.first@, old_keys.len() as int);
                    }
                    Atom::Variable(f)
                },
            }
        },
        Atom::Expression(e) => {
            let children = e.children();
            let ghost cs = views(children@);
            proof {
                lemma_views(children@);
            }
            let ghost seen0 = keys(t.seen@);
            let n = children.len();
            let mut out: Vec<Atom> = Vec::new();
            let mut i: usize = 0;
            while i < n
                invariant
                    *a == Atom::Expression(*e),
                    cs == e@,
                    cs == views(children@),
                    n == children@.len(),
                    cs.len() == n,
                    forall|j: int| 0 <= j < n ==> #[trigger] cs[j] == atom_view(children@[j]),
                    0 <= i <= n,
                    out@.len() == i,
                    t.wf(ids@),
                    t.first@ == old(t).first@,
                    seen0 == keys(old(t).seen@),
                    seen0.no_duplicates(),
                    t.first@ + first_occurrences_all(seen0, cs).len() <= usize::MAX,
                    keys(t.seen@) == first_occurrences_all(seen0, cs.take(i as int)),
                    forall|j: int| 0 <= j < i ==> #[trigger] atom_view(out@[j]) == rename(cs[j], t.map()),
                decreases n - i,
            {
                let ghost before = keys(t.seen@);
                proof {
                    assert(a@ == AtomView::Expression(cs));
                    assert(decreases_to!(a@ => a@->Expression_0));
                    assert(decreases_to!(cs => cs[i as int]));
                    lemma_first_occurrences_step(seen0, cs, i as int);
                    lemma_first_occurrences_prefix(seen0, cs, i + 1);
                }
                let c = rename_into(&children[i], t, ids);
                proof {
                    let after = keys(t.seen@);
                    lemma_first_occurrences_all(seen0, cs.take(i as int));
                    lemma_first_occurrences(before, cs[i as int]);
                    lemma_numbering_prefix(before, after, t.first@);
                    assert forall|j: int| 0 <= j < i implies #[trigger] atom_view(out@[j]) == rename(cs[j], t.map()) by {
                        assert forall|k: (Seq<char>, nat)| occurs(k, cs[j]) implies
                            #[trigger] numbering(before, t.first@).contains_key(k) by {
                            assert(cs.take(i as int)[j] == cs[j]);
                            lemma_occurs_in(k, cs.take(i as int));
                        }
                        lemma_rename_stable(cs[j], numbering(before, t.first@), t.map());
                    }
                }
                out.push(c);
                i = i + 1;
            }
            let r = Atom::expr(out);
            proof {
                lemma_views(out@);
                assert(cs.take(n as int) =~= cs);
                assert(a@ == AtomView::Expression(cs));
                assert(rename(a@, t.map())->Expression_0 =~= views(out@));
            }
            r
        },
        _ => a.clone(),
    }
}

/// Returns a copy of `atom` with all variables replaced by unique instances:
/// the `i`-th distinct variable, in the order they first occur, becomes the
/// variable of the same name with the id `i` places after the next id of
/// `ids`, everywhere it occurs; `ids` advances past the ids used.
pub fn make_variables_unique(atom: &Atom, ids: &mut VariableIdCounter) -> (r: Atom)
    requires
        old(ids)@ + variable_order(atom@).len() <= usize::MAX,
    ensures
        r@ == rename(atom@, numbering(variable_order(atom@), old(ids)@)),
        final(ids)@ == old(ids)@ + variable_order(atom@).len(),
{
    let mut t = Renaming::new(ids);
    rename_into(atom, &mut t, ids)
}

/// The variables of a copy made by [make_variables_unique] are renamed
/// apart: each distinct variable gets its own new id, from the ids the
/// counter handed out, and each of those ids is used.
pub proof fn law_unique_copy_is_renamed_apart(a: AtomView, lo: nat)
    ensures
        renamed_apart(a, rename(a, numbering(variable_order(a), lo)), lo, lo + variable_order(a).len()),
{
    let order = variable_order(a);
    let m = numbering(order, lo);
    let hi = lo + order.len();
    lemma_first_occurrences(Seq::empty(), a);
    assert(Seq::<(Seq<char>, nat)>::empty().no_duplicates());
    assert forall|k: (Seq<char>, nat)| #[trigger] m.contains_key(k) <==> occurs(k, a) by {
        assert(!Seq::<(Seq<char>, nat)>::empty().contains(k));
    }
    assert forall|k: (Seq<char>, nat)| #[trigger] m.contains_key(k) implies lo <= m[k] < hi by {
        let i = choose|i: int| 0 <= i < order.len() && order[i] == k;
        lemma_numbering(order, lo, i);
    }
    assert forall|k1: (Seq<char>, nat), k2: (Seq<char>, nat)|
        #[trigger] m.contains_key(k1) && #[trigger] m.contains_key(k2) && m[k1] == m[k2] implies k1 == k2 by {
        let i1 = choose|i: int| 0 <= i < order.len() && order[i] == k1;
        let i2 = choose|i: int| 0 <= i < order.len() && order[i] == k2;
        lemma_numbering(order, lo, i1);
        lemma_numbering(order, lo, i2);
    }
    assert forall|id: nat| lo <= id < hi implies #[trigger] maps_to(m, id) by {
        let i = id - lo;
        lemma_numbering(order, lo, i);
        assert(m.contains_key(order[i]) && m[order[i]] == id);
    }
    assert(is_renaming_apart(a, rename(a, m), lo, hi, m));
}


/// A variable occurs in `rename(a, m)` exactly when it is the renaming of a
/// variable of `a` that `m` covers, or a variable of `a` that `m` leaves
/// alone.
pub proof fn lemma_occurs_rename(k: (Seq<char>, nat), a: AtomView, m: Map<(Seq<char>, nat), nat>)
    ensures
        occurs(k, rename(a, m)) <==> exists|k0: (Seq<char>, nat)| #[trigger] occurs(k0, a) && (
            if m.contains_key(k0) { k == (k0.0, m[k0]) } else { k == k0 }),
    decreases a,
{
    match a {
        AtomView::Variable(name, id) => {
            if occurs(k, rename(a, m)) {
                assert(occurs((name, id), a));
            }
        },
        AtomView::Expression(children) => {
            let rc = rename(a, m)->Expression_0;
            lemma_occurs_in(k, rc);
            if occurs(k, rename(a, m)) {
                let j = choose|j: int| 0 <= j < rc.len() && #[trigger] occurs(k, rc[j]);
                lemma_occurs_rename(k, children[j], m);
                let k0 = choose|k0: (Seq<char>, nat)| #[trigger] occurs(k0, children[j]) && (
                    if m.contains_key(k0) { k == (k0.0, m[k0]) } else { k == k0 });
                lemma_occurs_in(k0, children);
                assert(occurs(k0, a));
            }
            if exists|k0: (Seq<char>, nat)| #[trigger] occurs(k0, a) && (
                if m.contains_key(k0) { k == (k0.0, m[k0]) } else { k == k0 }) {
                let k0 = choose|k0: (Seq<char>, nat)| #[trigger] occurs(k0, a) && (
                    if m.contains_key(k0) { k == (k0.0, m[k0]) } else { k == k0 });
                lemma_occurs_in(k0, children);
                let j = choose|j: int| 0 <= j < children.len() && #[trigger] occurs(k0, children[j]);
                lemma_occurs_rename(k, children[j], m);
                assert(occurs(k, rc[j]));
            }
        },
        _ => {},
    }
}

/// The variables of `r`, renamed apart from `a`, are all fresh: each has an
/// id from the new range, and, where the ids of `a` lie below that range,
/// none of them occurs in `a`.
pub proof fn law_renamed_variables_are_fresh(a: AtomView, r: AtomView, lo: nat, hi: nat)
    requires
        renamed_apart(a, r, lo, hi),
    ensures
        forall|k: (Seq<char>, nat)| #[trigger] occurs(k, r) ==> lo <= k.1 < hi,
        (forall|k: (Seq<char>, nat)| #[trigger] occurs(k, a) ==> k.1 < lo) ==>
            (forall|k: (Seq<char>, nat)| #[trigger] occurs(k, r) ==> !occurs(k, a)),
{
    let m = choose|m: Map<(Seq<char>, nat), nat>| #[trigger] is_renaming_apart(a, r, lo, hi, m);
    assert forall|k: (Seq<char>, nat)| #[trigger] occurs(k, r) implies lo <= k.1 < hi by {
        lemma_occurs_rename(k, a, m);
        let k0 = choose|k0: (Seq<char>, nat)| #[trigger] occurs(k0, a) && (
            if m.contains_key(k0) { k == (k0.0, m[k0]) } else { k == k0 });
        assert(m.contains_key(k0));
    }
}


/// The map that undoes `m`: it sends each renamed variable back to the id
/// it had.
pub open spec fn inverse(m: Map<(Seq<char>, nat), nat>) -> Map<(Seq<char>, nat), nat> {
    Map::new(
        |k2: (Seq<char>, nat)| exists|k: (Seq<char>, nat)| #[trigger] m.contains_key(k) && k2 == (k.0, m[k]),
        |k2: (Seq<char>, nat)| (choose|k: (Seq<char>, nat)| #[trigger] m.contains_key(k) && k2 == (k.0, m[k])).1,
    )
}

proof fn lemma_rename_inverse(a: AtomView, m: Map<(Seq<char>, nat), nat>)
    requires
        forall|k: (Seq<char>, nat)| occurs(k, a) ==> #[trigger] m.contains_key(k),
        forall|k1: (Seq<char>, nat), k2: (Seq<char>, nat)|
            #[trigger] m.contains_key(k1) && #[trigger] m.contains_key(k2) && m[k1] == m[k2] ==> k1 == k2,
    ensures
        rename(rename(a, m), inverse(m)) == a,
    decreases a,
{
    match a {
        AtomView::Variable(name, id) => {
            let k = (name, id);
            assert(occurs(k, a));
            let k2 = (name, m[k]);
            assert(inverse(m).contains_key(k2));
            let k1 = choose|k1: (Seq<char>, nat)| #[trigger] m.contains_key(k1) && k2 == (k1.0, m[k1]);
            assert(k1 == k);
        },
        AtomView::Expression(children) => {
            let rc = rename(a, m)->Expression_0;
            assert forall|j: int| 0 <= j < children.len() implies rename(rc[j], inverse(m)) == children[j] by {
                assert forall|k: (Seq<char>, nat)| occurs(k, children[j]) implies #[trigger] m.contains_key(k) by {
                    lemma_occurs_in(k, children);
                }
                lemma_rename_inverse(children[j], m);
            }
            assert(rename(rename(a, m), inverse(m))->Expression_0 =~= children);
        },
        _ => {},
    }
}

/// Renaming apart loses nothing: renaming the new variables of `r` back to
/// their old ids gives `a` again.
pub proof fn law_renaming_apart_is_undone(a: AtomView, r: AtomView, lo: nat, hi: nat)
    requires
        renamed_apart(a, r, lo, hi),
    ensures
        exists|m: Map<(Seq<char>, nat), nat>| rename(r, #[trigger] inverse(m)) == a,
{
    let m = choose|m: Map<(Seq<char>, nat), nat>| #[trigger] is_renaming_apart(a, r, lo, hi, m);
    lemma_rename_inverse(a, m);
    assert(rename(r, inverse(m)) == a);
}

/// Two fresh copies of a variable `v` taken one after the other from a
/// counter at `next` ([crate::VariableAtom::make_unique] gives `(v.0, next)`
/// and then `(v.0, next + 1)`) keep its name, differ from each other, and
/// differ from `v` when its id lies below `next`, as the id 0 of a variable
/// a user writes does.
pub proof fn law_unique_variables_differ(v: (Seq<char>, nat), next: nat)
    requires
        v.1 < next,
    ensures
        (v.0, next).0 == v.0,
        (v.0, next) != v,
        (v.0, (next + 1) as nat) != v,
        (v.0, next) != (v.0, (next + 1) as nat),
{
}

/// Renaming twice is renaming once by the composed map, on the variables
/// that occur.
proof fn lemma_rename_compose(
    a: AtomView,
    m1: Map<(Seq<char>, nat), nat>,
    m2: Map<(Seq<char>, nat), nat>,
    m3: Map<(Seq<char>, nat), nat>,
)
    requires
        forall|k: (Seq<char>, nat)| #[trigger] occurs(k, a) ==> {
            &&& m1.contains_key(k)
            &&& m2.contains_key(k)
            &&& m3.contains_key((k.0, m1[k]))
            &&& m3[(k.0, m1[k])] == m2[k]
        },
    ensures
        rename(rename(a, m1), m3) == rename(a, m2),
    decreases a,
{
    match a {
        AtomView::Variable(name, id) => {
            assert(occurs((name, id), a));
        },
        AtomView::Expression(children) => {
            let rc = rename(a, m1)->Expression_0;
            assert forall|j: int| 0 <= j < children.len() implies rename(rc[j], m3) == rename(children[j], m2) by {
                assert forall|k: (Seq<char>, nat)| #[trigger] occurs(k, children[j]) implies {
                    &&& m1.contains_key(k)
                    &&& m2.contains_key(k)
                    &&& m3.contains_key((k.0, m1[k]))
                    &&& m3[(k.0, m1[k])] == m2[k]
                } by {
                    lemma_occurs_in(k, children);
                    assert(occurs(k, a));
                }
                lemma_rename_compose(children[j], m1, m2, m3);
            }
            assert(rename(rename(a, m1), m3)->Expression_0 =~= rename(a, m2)->Expression_0);
        },
        _ => {},
    }
}

/// The map that moves each variable `(name, id)` of `r`, renamed from `a` by
/// `m1`, to the id `n` places on.
pub open spec fn shifted(a: AtomView, m1: Map<(Seq<char>, nat), nat>, n: nat) -> Map<(Seq<char>, nat), nat> {
    Map::new(
        |k2: (Seq<char>, nat)| exists|k: (Seq<char>, nat)| #[trigger] occurs(k, a) && k2 == (k.0, m1[k]),
        |k2: (Seq<char>, nat)| k2.1 + n,
    )
}

/// Two unique copies of `a` made one after the other by
/// [make_variables_unique] from one counter (the first from `lo`, the second
/// from `lo + n`, `n` being the number of distinct variables of `a`): the
/// second is the first renamed apart into the next `n` ids, no variable
/// occurs in both, and they differ where `a` has a variable.
pub proof fn law_successive_unique_copies(a: AtomView, lo: nat)
    ensures
        ({
            let n = variable_order(a).len();
            let r1 = rename(a, numbering(variable_order(a), lo));
            let r2 = rename(a, numbering(variable_order(a), lo + n));
            &&& renamed_apart(r1, r2, lo + n, lo + 2 * n)
            &&& forall|k: (Seq<char>, nat)| #[trigger] occurs(k, r1) ==> !occurs(k, r2)
            &&& n > 0 ==> r1 != r2
        }),
{
    let order = variable_order(a);
    let n = order.len();
    let m1 = numbering(order, lo);
    let m2 = numbering(order, lo + n);
    let r1 = rename(a, m1);
    let r2 = rename(a, m2);
    let m3 = shifted(a, m1, n);
    lemma_first_occurrences(Seq::empty(), a);
    assert(Seq::<(Seq<char>, nat)>::empty().no_duplicates());
    assert forall|k: (Seq<char>, nat)| #[trigger] occurs(k, a) implies {
        &&& m1.contains_key(k)
        &&& m2.contains_key(k)
        &&& m3.contains_key((k.0, m1[k]))
        &&& m3[(k.0, m1[k])] == m2[k]
    } by {
        assert(order.contains(k));
        let i = choose|i: int| 0 <= i < order.len() && order[i] == k;
        lemma_numbering(order, lo, i);
        lemma_numbering(order, (lo + n) as nat, i);
    }
    lemma_rename_compose(a, m1, m2, m3);
    assert forall|k2: (Seq<char>, nat)| #[trigger] m3.contains_key(k2) <==> occurs(k2, r1) by {
        lemma_occurs_rename(k2, a, m1);
        if occurs(k2, r1) {
            let k0 = choose|k0: (Seq<char>, nat)| #[trigger] occurs(k0, a) && (
                if m1.contains_key(k0) { k2 == (k0.0, m1[k0]) } else { k2 == k0 });
            assert(order.contains(k0));
        }
        if m3.contains_key(k2) {
            let k = choose|k: (Seq<char>, nat)| #[trigger] occurs(k, a) && k2 == (k.0, m1[k]);
            assert(order.contains(k));
        }
    }
    assert forall|k2: (Seq<char>, nat)| #[trigger] m3.contains_key(k2) implies lo + n <= m3[k2] < lo + 2 * n by {
        let k = choose|k: (Seq<char>, nat)| #[trigger] occurs(k, a) && k2 == (k.0, m1[k]);
        assert(order.contains(k));
        let i = choose|i: int| 0 <= i < order.len() && order[i] == k;
        lemma_numbering(order, lo, i);
    }
    assert forall|ka: (Seq<char>, nat), kb: (Seq<char>, nat)|
        #[trigger] m3.contains_key(ka) && #[trigger] m3.contains_key(kb) && m3[ka] == m3[kb] implies ka == kb by {
        let k1 = choose|k: (Seq<char>, nat)| #[trigger] occurs(k, a) && ka == (k.0, m1[k]);
        let k2 = choose|k: (Seq<char>, nat)| #[trigger] occurs(k, a) && kb == (k.0, m1[k]);
        assert(order.contains(k1));
        assert(order.contains(k2));
        let i1 = choose|i: int| 0 <= i < order.len() && order[i] == k1;
        let i2 = choose|i: int| 0 <= i < order.len() && order[i] == k2;
        lemma_numbering(order, lo, i1);
        lemma_numbering(order, lo, i2);
    }
    assert forall|id: nat| lo + n <= id < lo + 2 * n implies #[trigger] maps_to(m3, id) by {
        let i = id - lo - n;
        let k = order[i];
        lemma_numbering(order, lo, i);
        assert(order.contains(k));
        let k2 = (k.0, m1[k]);
        assert(m3.contains_key(k2));
        assert(m3[k2] == id);
    }
    assert(is_renaming_apart(r1, r2, lo + n, lo + 2 * n, m3));
    law_unique_copy_is_renamed_apart(a, lo);
    law_unique_copy_is_renamed_apart(a, lo + n);
    law_renamed_variables_are_fresh(a, r1, lo, lo + n);
    law_renamed_variables_are_fresh(a, r2, lo + n, lo + n + n);
    if n > 0 {
        let k = order[0];
        assert(order.contains(k));
        lemma_numbering(order, lo, 0);
        lemma_occurs_rename((k.0, m1[k]), a, m1);
        assert(occurs((k.0, m1[k]), r1));
        assert(!occurs((k.0, m1[k]), r2));
    }
}

} // verus!
