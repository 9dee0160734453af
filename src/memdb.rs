//! In-memory storage: the identifier generator, the generic repository, and the
//! database that holds one repository per kind of entity.
use std::collections::HashSet;

use vstd::prelude::*;

use crate::layout::{RepoTable, TableId, TableRepository};
use crate::menu;
use crate::order::{self, is_for_table, not_for_table, Order, RepoOrder};
use crate::{Identifier, RepoItem, Snapshot};

verus! {

broadcast use vstd::std_specs::hash::group_hash_axioms;

/// A failure reported by a repository.
#[derive(Debug, Clone, Copy, PartialEq, Eq, Structural)]
pub enum Error<I> {
    /// No live entity has this identifier.
    ItemNotFound { id: I },
    /// Every identifier of this kind has been handed out.
    IdsExhausted,
}

/// Source of fresh identifiers of one kind.
pub trait IdGenerator<I: Identifier> {
    /// The integer that the next identifier wraps; above `u32::MAX` once none is left.
    spec fn upcoming(&self) -> nat;

    fn get(&mut self) -> (r: Option<I>)
        ensures
            old(self).upcoming() <= u32::MAX ==> (r matches Some(id) && id.value()
                == old(self).upcoming() && final(self).upcoming() == old(self).upcoming() + 1),
            old(self).upcoming() > u32::MAX ==> r is None && final(self).upcoming() == old(
                self,
            ).upcoming(),
    ;
}

/// A counter that hands out increasing identifiers until the integer range is used up.
pub struct IdGeneratorImpl {
    next: u32,
    exhausted: bool,
}

impl IdGeneratorImpl {
    /// The integer the next identifier wraps, `u32::MAX + 1` once none is left.
    pub closed spec fn next_value(&self) -> nat {
        if self.exhausted {
            u32::MAX as nat + 1
        } else {
            self.next as nat
        }
    }

    pub fn new(start: u32) -> (r: IdGeneratorImpl)
        ensures
            r.next_value() == start,
    {
        IdGeneratorImpl { next: start, exhausted: false }
    }

    /// A generator whose first identifier follows `last`.
    pub fn after(last: u32) -> (r: IdGeneratorImpl)
        ensures
            r.next_value() == last + 1,
    {
        if last == u32::MAX {
            IdGeneratorImpl { next: last, exhausted: true }
        } else {
            IdGeneratorImpl { next: last + 1, exhausted: false }
        }
    }

    proof fn lemma_bounded(&self)
        ensures
            self.next_value() <= u32::MAX + 1,
    {
    }
}

impl Default for IdGeneratorImpl {
    fn default() -> (r: Self)
        ensures
            r.next_value() == 1,
    {
        IdGeneratorImpl::new(1)
    }
}

impl<I: Identifier> IdGenerator<I> for IdGeneratorImpl {
    open spec fn upcoming(&self) -> nat {
        self.next_value()
    }

    fn get(&mut self) -> (r: Option<I>) {
        if self.exhausted {
            None
        } else {
            let id = I::from_value(self.next);
            if self.next == u32::MAX {
                self.exhausted = true;
            } else {
                self.next = self.next + 1;
            }
            Some(id)
        }
    }
}

/// No two entries of `s` share an identifier.
pub open spec fn unique_ids<T, I>(s: Seq<RepoItem<T, I>>) -> bool {
    forall|i: int, j: int| 0 <= i < j < s.len() ==> s[i].id != s[j].id
}

/// The integer that follows every identifier of `s`: one above the largest, or 1 when `s`
/// is empty.
pub open spec fn following_id<T, I: Identifier>(s: Seq<RepoItem<T, I>>) -> nat
    decreases s.len(),
{
    if s.len() == 0 {
        1
    } else {
        let rest = following_id(s.drop_last());
        let own = s.last().id.value() + 1;
        if rest >= own {
            rest
        } else {
            own as nat
        }
    }
}

/// The entities of one kind, in the order they were stored, with the generator of
/// their identifiers.
pub struct InMemoryRepository<T, I> {
    items: Vec<RepoItem<T, I>>,
    idgen: IdGeneratorImpl,
    /// The integers of the stored identifiers, for checking existence without a scan.
    ids: HashSet<u32>,
}

impl<T, I> View for InMemoryRepository<T, I> {
    type V = Seq<RepoItem<T, I>>;

    closed spec fn view(&self) -> Seq<RepoItem<T, I>> {
        self.items@
    }
}

impl<T: Snapshot, I: Identifier> InMemoryRepository<T, I> {
    /// The integer that the next created entity's identifier wraps.
    pub closed spec fn next_id(&self) -> nat {
        self.idgen.next_value()
    }

    /// Identifiers are unique, and every stored one lies below the next one to be issued.
    pub open spec fn wf(&self) -> bool {
        &&& unique_ids(self@)
        &&& forall|i: int| 0 <= i < self@.len() ==> (#[trigger] self@[i]).id.value() < self.next_id()
        &&& self.live_ids_match()
    }

    /// Whether some entry's identifier wraps `v`.
    pub open spec fn has_value(&self, v: u32) -> bool {
        exists|i: int| 0 <= i < self@.len() && (#[trigger] self@[i]).id.value() == v
    }

    /// The set of live identifiers holds exactly the integers of the stored identifiers.
    pub closed spec fn live_ids_match(&self) -> bool {
        forall|v: u32| #[trigger] self.ids@.contains(v) <==> self.has_value(v)
    }

    /// Whether some entry has identifier `id`.
    pub open spec fn contains_id(&self, id: I) -> bool {
        exists|i: int| 0 <= i < self@.len() && (#[trigger] self@[i]).id == id
    }

    /// The position of the entry with identifier `id`, when there is one.
    pub open spec fn index_of_id(&self, id: I) -> int {
        choose|i: int| 0 <= i < self@.len() && (#[trigger] self@[i]).id == id
    }

    /// What a lookup of `id` gives: the stored entry, or `ItemNotFound`.
    pub open spec fn lookup(&self, id: I) -> Result<RepoItem<T, I>, Error<I>> {
        if self.contains_id(id) {
            Ok(self@[self.index_of_id(id)])
        } else {
            Err(Error::ItemNotFound { id })
        }
    }

    /// The entries after `item` replaces the entry with its identifier.
    pub open spec fn replaced(&self, item: RepoItem<T, I>) -> Seq<RepoItem<T, I>> {
        if self.contains_id(item.id) {
            self@.update(self.index_of_id(item.id), item)
        } else {
            self@
        }
    }

    /// The entries after the one with identifier `id` is taken out.
    pub open spec fn without(&self, id: I) -> Seq<RepoItem<T, I>> {
        if self.contains_id(id) {
            self@.remove(self.index_of_id(id))
        } else {
            self@
        }
    }

    /// What an update with `item` gives: `item` itself, or `ItemNotFound`.
    pub open spec fn update_result(&self, item: RepoItem<T, I>) -> Result<RepoItem<T, I>, Error<I>> {
        if self.contains_id(item.id) {
            Ok(item)
        } else {
            Err(Error::ItemNotFound { id: item.id })
        }
    }

    /// `post` and `r` are what creating `item` in `pre` gives: a new last entry under the
    /// next identifier, or `IdsExhausted` once identifiers are used up.
    pub open spec fn created(pre: Self, item: T, post: Self, r: Result<RepoItem<T, I>, Error<I>>) -> bool {
        if pre.next_id() <= u32::MAX {
            &&& r matches Ok(c)
            &&& c.id.value() == pre.next_id()
            &&& c.item == item
            &&& post@ == pre@.push(c)
            &&& post.next_id() == pre.next_id() + 1
        } else {
            &&& r == Err::<RepoItem<T, I>, Error<I>>(Error::IdsExhausted)
            &&& post@ == pre@
            &&& post.next_id() == pre.next_id()
        }
    }

    proof fn lemma_index_of_id(&self, id: I, i: int)
        requires
            self.wf(),
            0 <= i < self@.len(),
            self@[i].id == id,
        ensures
            self.contains_id(id),
            self.index_of_id(id) == i,
    {
    }

    pub fn new() -> (r: Self)
        ensures
            r.wf(),
            r@ == Seq::<RepoItem<T, I>>::empty(),
            r.next_id() == 1,
    {
        InMemoryRepository { items: Vec::new(), idgen: IdGeneratorImpl::default(), ids: HashSet::new() }
    }

    /// A repository holding `items`, whose next identifier follows the largest of theirs.
    pub fn from_items(items: Vec<RepoItem<T, I>>) -> (r: Self)
        requires
            unique_ids(items@),
        ensures
            r.wf(),
            r@ == items@,
            forall|i: int| 0 <= i < items@.len() ==> (#[trigger] items@[i]).id.value() < r.next_id(),
            r.next_id() == following_id(items@),
    {
        let mut largest: Option<u32> = None;
        let mut ids: HashSet<u32> = HashSet::new();
        let mut i: usize = 0;
        while i < items.len()
            invariant
                0 <= i <= items@.len(),
                forall|v: u32| #[trigger]
                    ids@.contains(v) <==> exists|j: int|
                        0 <= j < i && (#[trigger] items@[j]).id.value() == v,
                largest is None <==> i == 0,
                largest matches Some(m) ==> forall|j: int|
                    0 <= j < i ==> (#[trigger] items@[j]).id.value() <= m,
                largest matches Some(m) ==> m + 1 == following_id(items@.take(i as int)),
            decreases items@.len() - i,
        {
            assert(items@.take(i + 1).drop_last() =~= items@.take(i as int));
            assert(items@.take(0) =~= Seq::<RepoItem<T, I>>::empty());
            let v = items[i].id.to_value();
            ids.insert(v);
            proof {
                assert forall|w: u32| #[trigger]
                    ids@.contains(w) <==> exists|j: int|
                        0 <= j < i + 1 && (#[trigger] items@[j]).id.value() == w by {
                    if w == v {
                        assert(items@[i as int].id.value() == w);
                    }
                }
            }
            largest =
            match largest {
                Some(m) if m >= v => Some(m),
                _ => Some(v),
            };
            i = i + 1;
        }
        assert(items@.take(items@.len() as int) =~= items@);
        assert(items@.take(0) =~= Seq::<RepoItem<T, I>>::empty());
        let idgen = match largest {
            Some(m) => IdGeneratorImpl::after(m),
            None => IdGeneratorImpl::new(1),
        };
        let r = InMemoryRepository { items, idgen, ids };
        assert(r@ == items@);
        assert forall|v: u32| #[trigger] r.ids@.contains(v) <==> r.has_value(v) by {
            if r.has_value(v) {
                let j = choose|j: int| 0 <= j < r@.len() && (#[trigger] r@[j]).id.value() == v;
                assert(items@[j].id.value() == v);
            }
        }
        assert(r.live_ids_match());
        r
    }

    /// Whether no two of `items` share an identifier.
    pub fn has_unique_ids(items: &Vec<RepoItem<T, I>>) -> (r: bool)
        ensures
            r == unique_ids(items@),
    {
        let mut i: usize = 0;
        while i < items.len()
            invariant
                0 <= i <= items@.len(),
                forall|a: int, b: int| 0 <= a < i && a < b < items@.len() ==> items@[a].id != items@[b].id,
            decreases items@.len() - i,
        {
            let mut j: usize = i + 1;
            while j < items.len()
                invariant
                    i < items@.len(),
                    i < j <= items@.len(),
                    forall|b: int| i < b < j ==> items@[i as int].id != items@[b].id,
                decreases items@.len() - j,
            {
                if items[i].id.to_value() == items[j].id.to_value() {
                    proof {
                        I::lemma_value_injective(items@[i as int].id, items@[j as int].id);
                    }
                    return false;
                }
                j = j + 1;
            }
            i = i + 1;
        }
        true
    }

    /// Copies of all entries, in order.
    pub fn items(&self) -> (r: Vec<RepoItem<T, I>>)
        ensures
            r@ == self@,
    {
        let mut r: Vec<RepoItem<T, I>> = Vec::new();
        let mut i: usize = 0;
        while i < self.items.len()
            invariant
                0 <= i <= self@.len(),
                r@ == self@.take(i as int),
            decreases self@.len() - i,
        {
            r.push(self.items[i].snapshot());
            assert(self@.take(i + 1) =~= self@.take(i as int).push(self@[i as int]));
            i = i + 1;
        }
        assert(self@.take(self@.len() as int) =~= self@);
        r
    }

    pub fn get_all(&self) -> (r: Result<Vec<RepoItem<T, I>>, Error<I>>)
        ensures
            r matches Ok(v) && v@ == self@,
    {
        Ok(self.items())
    }

    /// The position of `id`, or `None` when no entry has it.
    fn position(&self, id: I) -> (r: Option<usize>)
        requires
            self.wf(),
        ensures
            r is None <==> !self.contains_id(id),
            r matches Some(i) ==> i == self.index_of_id(id) && i < self@.len(),
    {
        let mut i: usize = 0;
        while i < self.items.len()
            invariant
                self.wf(),
                0 <= i <= self@.len(),
                forall|j: int| 0 <= j < i ==> (#[trigger] self@[j]).id != id,
            decreases self@.len() - i,
        {
            if self.items[i].id.to_value() == id.to_value() {
                proof {
                    I::lemma_value_injective(self@[i as int].id, id);
                    self.lemma_index_of_id(id, i as int);
                }
                return Some(i);
            }
            i = i + 1;
        }
        None
    }

    pub fn get(&self, id: I) -> (r: Result<RepoItem<T, I>, Error<I>>)
        requires
            self.wf(),
        ensures
            r == self.lookup(id),
    {
        if !self.ids.contains(&id.to_value()) {
            return Err(Error::ItemNotFound { id });
        }
        match self.position(id) {
            Some(i) => Ok(self.items[i].snapshot()),
            None => Err(Error::ItemNotFound { id }),
        }
    }

    pub fn create(&mut self, item: T) -> (r: Result<RepoItem<T, I>, Error<I>>)
        requires
            old(self).wf(),
        ensures
            final(self).wf(),
            Self::created(*old(self), item, *final(self), r),
    {
        proof {
            self.idgen.lemma_bounded();
        }
        match self.idgen.get() {
            Some(id) => {
                let created: RepoItem<T, I> = RepoItem { id, item };
                let result = created.snapshot();
                self.ids.insert(id.to_value());
                self.items.push(created);
                proof {
                    assert forall|v: u32| #[trigger] self.ids@.contains(v) <==> self.has_value(v) by {
                        if old(self).has_value(v) {
                            let j = choose|j: int| 0 <= j < old(self)@.len() && (#[trigger] old(self)@[j]).id.value() == v;
                            assert(self@[j] == old(self)@[j]);
                        }
                        if v == id.value() {
                            assert(self@[self@.len() - 1].id.value() == v);
                        }
                        if self.has_value(v) && v != id.value() {
                            let j = choose|j: int| 0 <= j < self@.len() && (#[trigger] self@[j]).id.value() == v;
                            assert(old(self)@[j] == self@[j]);
                        }
                    }
                    assert forall|i: int, j: int| 0 <= i < j < self@.len() implies self@[i].id
                        != self@[j].id by {
                        if j == self@.len() - 1 {
                            assert(self@[i] == old(self)@[i]);
                        }
                    }
                    assert forall|i: int| 0 <= i < self@.len() implies (#[trigger] self@[i]).id.value()
                        < self.next_id() by {
                        if i < self@.len() - 1 {
                            assert(self@[i] == old(self)@[i]);
                        }
                    }
                }
                Ok(result)
            },
            None => Err(Error::IdsExhausted),
        }
    }

    pub fn update(&mut self, item: RepoItem<T, I>) -> (r: Result<RepoItem<T, I>, Error<I>>)
        requires
            old(self).wf(),
        ensures
            final(self).wf(),
            final(self)@ == old(self).replaced(item),
            final(self).next_id() == old(self).next_id(),
            r == old(self).update_result(item),
    {
        match self.position(item.id) {
            Some(i) => {
                let result = item.snapshot();
                self.items.set(i, item);
                proof {
                    assert forall|a: int, b: int| 0 <= a < b < self@.len() implies self@[a].id
                        != self@[b].id by {
                        assert(self@[a].id == old(self)@[a].id);
                        assert(self@[b].id == old(self)@[b].id);
                    }
                    assert forall|a: int| 0 <= a < self@.len() implies (#[trigger] self@[a]).id.value()
                        < self.next_id() by {
                        assert(self@[a].id == old(self)@[a].id);
                    }
                    assert forall|v: u32| #[trigger] self.ids@.contains(v) <==> self.has_value(v) by {
                        if old(self).has_value(v) {
                            let j = choose|j: int| 0 <= j < old(self)@.len() && (#[trigger] old(self)@[j]).id.value() == v;
                            assert(self@[j].id == old(self)@[j].id);
                        }
                        if self.has_value(v) {
                            let j = choose|j: int| 0 <= j < self@.len() && (#[trigger] self@[j]).id.value() == v;
                            assert(self@[j].id == old(self)@[j].id);
                        }
                    }
                }
                Ok(result)
            },
            None => Err(Error::ItemNotFound { id: item.id }),
        }
    }

    pub fn remove(&mut self, id: I) -> (r: Result<RepoItem<T, I>, Error<I>>)
        requires
            old(self).wf(),
        ensures
            final(self).wf(),
            final(self)@ == old(self).without(id),
            final(self).next_id() == old(self).next_id(),
            r == old(self).lookup(id),
    {
        match self.position(id) {
            Some(i) => {
                let removed = self.items.remove(i);
                self.ids.remove(&id.to_value());
                proof {
                    assert forall|v: u32| #[trigger] self.ids@.contains(v) <==> self.has_value(v) by {
                        if self.has_value(v) {
                            let j = choose|j: int| 0 <= j < self@.len() && (#[trigger] self@[j]).id.value() == v;
                            let oj = if j < i { j } else { j + 1 };
                            assert(self@[j] == old(self)@[oj]);
                            I::lemma_value_injective(old(self)@[oj].id, id);
                        }
                        if old(self).has_value(v) && v != id.value() {
                            let j = choose|j: int| 0 <= j < old(self)@.len() && (#[trigger] old(self)@[j]).id.value() == v;
                            if j < i {
                                assert(self@[j] == old(self)@[j]);
                            } else {
                                assert(self@[j - 1] == old(self)@[j]);
                            }
                        }
                    }
                    assert forall|a: int, b: int| 0 <= a < b < self@.len() implies self@[a].id
                        != self@[b].id by {
                        let oa = if a < i { a } else { a + 1 };
                        let ob = if b < i { b } else { b + 1 };
                        assert(self@[a] == old(self)@[oa]);
                        assert(self@[b] == old(self)@[ob]);
                    }
                    assert forall|a: int| 0 <= a < self@.len() implies (#[trigger] self@[a]).id.value()
                        < self.next_id() by {
                        let oa = if a < i { a } else { a + 1 };
                        assert(self@[a] == old(self)@[oa]);
                    }
                }
                Ok(removed)
            },
            None => Err(Error::ItemNotFound { id }),
        }
    }
}

impl<T: Snapshot, I: Identifier> Default for InMemoryRepository<T, I> {
    fn default() -> (r: Self)
        ensures
            r.wf(),
            r@ == Seq::<RepoItem<T, I>>::empty(),
            r.next_id() == 1,
    {
        Self::new()
    }
}

/// Successive creations on one repository hand out strictly increasing identifiers, in
/// the order of the calls; so no two of them are equal.
pub proof fn lemma_created_ids_increase<T: Snapshot, I: Identifier>(
    states: Seq<InMemoryRepository<T, I>>,
    values: Seq<T>,
    results: Seq<Result<RepoItem<T, I>, Error<I>>>,
)
    requires
        states.len() == results.len() + 1,
        values.len() == results.len(),
        forall|k: int|
            0 <= k < results.len() ==> InMemoryRepository::created(
                #[trigger] states[k],
                values[k],
                states[k + 1],
                results[k],
            ),
    ensures
        forall|i: int, j: int|
            0 <= i < j < results.len() && results[i] is Ok && results[j] is Ok ==> (
            #[trigger] results[i])->Ok_0.id.value() < (#[trigger] results[j])->Ok_0.id.value(),
{
    assert forall|i: int, j: int|
        0 <= i < j < results.len() && results[i] is Ok && results[j] is Ok implies (
        #[trigger] results[i])->Ok_0.id.value() < (#[trigger] results[j])->Ok_0.id.value() by {
        lemma_next_id_grows(states, values, results, i + 1, j);
        assert(InMemoryRepository::created(states[i], values[i], states[i + 1], results[i]));
        assert(InMemoryRepository::created(states[j], values[j], states[j + 1], results[j]));
    }
}

proof fn lemma_next_id_grows<T: Snapshot, I: Identifier>(
    states: Seq<InMemoryRepository<T, I>>,
    values: Seq<T>,
    results: Seq<Result<RepoItem<T, I>, Error<I>>>,
    i: int,
    j: int,
)
    requires
        states.len() == results.len() + 1,
        values.len() == results.len(),
        forall|k: int|
            0 <= k < results.len() ==> InMemoryRepository::created(
                #[trigger] states[k],
                values[k],
                states[k + 1],
                results[k],
            ),
        0 <= i <= j < states.len(),
    ensures
        states[i].next_id() <= states[j].next_id(),
    decreases j - i,
{
    if i < j {
        lemma_next_id_grows(states, values, results, i, j - 1);
        assert(InMemoryRepository::created(states[j - 1], values[j - 1], states[j], results[j - 1]));
    }
}

/// A created entity's identifier is new: it lies above every identifier already stored,
/// including those of entities since removed, whose identifiers lie below `next_id`.
pub proof fn lemma_created_id_is_fresh<T: Snapshot, I: Identifier>(
    pre: InMemoryRepository<T, I>,
    item: T,
    post: InMemoryRepository<T, I>,
    r: Result<RepoItem<T, I>, Error<I>>,
)
    requires
        pre.wf(),
        InMemoryRepository::created(pre, item, post, r),
        r is Ok,
    ensures
        !pre.contains_id(r->Ok_0.id),
        forall|i: int| 0 <= i < pre@.len() ==> (#[trigger] pre@[i]).id.value() < r->Ok_0.id.value(),
{
}

/// Reading back a created entity by its identifier gives exactly what creation returned.
pub proof fn lemma_get_after_create<T: Snapshot, I: Identifier>(
    pre: InMemoryRepository<T, I>,
    item: T,
    post: InMemoryRepository<T, I>,
    r: Result<RepoItem<T, I>, Error<I>>,
)
    requires
        pre.wf(),
        post.wf(),
        InMemoryRepository::created(pre, item, post, r),
        r is Ok,
    ensures
        post.lookup(r->Ok_0.id) == r,
{
    let c = r->Ok_0;
    assert(post@[pre@.len() as int] == c);
    post.lemma_index_of_id(c.id, pre@.len() as int);
}

/// Once an entity is removed, reading, updating or removing its identifier again fails
/// with `ItemNotFound`.
pub proof fn lemma_removed_stays_gone<T: Snapshot, I: Identifier>(
    pre: InMemoryRepository<T, I>,
    id: I,
    post: InMemoryRepository<T, I>,
)
    requires
        pre.wf(),
        pre.contains_id(id),
        post@ == pre.without(id),
    ensures
        !post.contains_id(id),
        post.lookup(id) == Err::<RepoItem<T, I>, Error<I>>(Error::ItemNotFound { id }),
        forall|v: T|
            post.update_result(RepoItem { id, item: v }) == Err::<RepoItem<T, I>, Error<I>>(
                Error::ItemNotFound { id },
            ),
{
    let k = pre.index_of_id(id);
    assert forall|j: int| 0 <= j < post@.len() implies (#[trigger] post@[j]).id != id by {
        let oj = if j < k { j } else { j + 1 };
        assert(post@[j] == pre@[oj]);
    }
}

/// Filtering keeps identifiers unique, and keeps only entries of the original.
proof fn lemma_filter_unique<T, I>(s: Seq<RepoItem<T, I>>, p: spec_fn(RepoItem<T, I>) -> bool)
    requires
        unique_ids(s),
    ensures
        unique_ids(s.filter(p)),
        forall|k: int| 0 <= k < s.filter(p).len() ==> s.contains(#[trigger] s.filter(p)[k]),
    decreases s.len(),
{
    broadcast use vstd::seq_lib::group_filter_ensures;

    if s.len() > 0 {
        let init = s.drop_last();
        let last = s.last();
        assert(init.push(last) =~= s);
        lemma_filter_unique(init, p);
        init.lemma_filter_push(last, p);
        let f = s.filter(p);
        let g = init.filter(p);
        assert forall|k: int| 0 <= k < f.len() implies s.contains(#[trigger] f[k]) by {
            if k < g.len() {
                assert(init.contains(g[k]));
                let j = choose|j: int| 0 <= j < init.len() && init[j] == g[k];
                assert(s[j] == init[j]);
            } else {
                assert(s[s.len() - 1] == last);
            }
        }
        if p(last) {
            assert forall|a: int, b: int| 0 <= a < b < f.len() implies f[a].id != f[b].id by {
                if b == f.len() - 1 {
                    assert(init.contains(g[a]));
                    let j = choose|j: int| 0 <= j < init.len() && init[j] == g[a];
                    assert(s[j] == init[j]);
                }
            }
        }
    } else {
        assert(s.filter(p).len() == 0);
    }
}

/// Once a table is cleared, reading, updating or removing any of its former orders fails
/// with `ItemNotFound`.
pub proof fn lemma_cleared_orders_stay_gone(
    pre: order::Repository,
    table_id: TableId,
    post: order::Repository,
    id: order::Id,
)
    requires
        pre.wf(),
        post@ == pre@.filter(not_for_table(table_id)),
        pre.contains_id(id),
        pre@[pre.index_of_id(id)].item.table.id == table_id,
    ensures
        !post.contains_id(id),
        post.lookup(id) == Err::<RepoOrder, Error<order::Id>>(Error::ItemNotFound { id }),
        forall|v: Order|
            post.update_result(RepoItem { id, item: v }) == Err::<RepoOrder, Error<order::Id>>(
                Error::ItemNotFound { id },
            ),
{
    broadcast use vstd::seq_lib::group_filter_ensures;

    lemma_filter_unique(pre@, not_for_table(table_id));
    let k = pre.index_of_id(id);
    assert forall|j: int| 0 <= j < post@.len() implies (#[trigger] post@[j]).id != id by {
        assert(pre@.contains(post@[j]));
        assert(not_for_table(table_id)(post@[j]));
        let i = choose|i: int| 0 <= i < pre@.len() && pre@[i] == post@[j];
        if post@[j].id == id {
            assert(i == k);
        }
    }
}

impl InMemoryRepository<Order, order::Id> {
    /// Copies of the orders of table `table_id`, in order.
    pub fn orders_for_table(&self, table_id: TableId) -> (r: Vec<RepoOrder>)
        ensures
            r@ == self@.filter(is_for_table(table_id)),
    {
        let mut r: Vec<RepoOrder> = Vec::new();
        let mut i: usize = 0;
        while i < self.items.len()
            invariant
                0 <= i <= self@.len(),
                r@ == self@.take(i as int).filter(is_for_table(table_id)),
            decreases self@.len() - i,
        {
            assert(self@.take(i + 1) =~= self@.take(i as int).push(self@[i as int]));
            proof {
                self@.take(i as int).lemma_filter_push(self@[i as int], is_for_table(table_id));
            }
            if self.items[i].item.table.id.0 == table_id.0 {
                r.push(self.items[i].snapshot());
            }
            i = i + 1;
        }
        assert(self@.take(self@.len() as int) =~= self@);
        r
    }

    /// Removes every order of table `table_id` and returns them, in order.
    pub fn remove_table_orders(&mut self, table_id: TableId) -> (r: Vec<RepoOrder>)
        requires
            old(self).wf(),
        ensures
            final(self).wf(),
            r@ == old(self)@.filter(is_for_table(table_id)),
            final(self)@ == old(self)@.filter(not_for_table(table_id)),
            final(self).next_id() == old(self).next_id(),
            old(self).all_active() ==> final(self).all_active(),
    {
        let mut removed: Vec<RepoOrder> = Vec::new();
        let mut kept: Vec<RepoOrder> = Vec::new();
        let mut kept_ids: HashSet<u32> = HashSet::new();
        let mut i: usize = 0;
        while i < self.items.len()
            invariant
                0 <= i <= self@.len(),
                forall|v: u32| #[trigger]
                    kept_ids@.contains(v) <==> exists|k: int|
                        0 <= k < kept@.len() && (#[trigger] kept@[k]).id.value() == v,
                removed@ == self@.take(i as int).filter(is_for_table(table_id)),
                kept@ == self@.take(i as int).filter(not_for_table(table_id)),
            decreases self@.len() - i,
        {
            assert(self@.take(i + 1) =~= self@.take(i as int).push(self@[i as int]));
            proof {
                self@.take(i as int).lemma_filter_push(self@[i as int], is_for_table(table_id));
                self@.take(i as int).lemma_filter_push(self@[i as int], not_for_table(table_id));
            }
            if self.items[i].item.table.id.0 == table_id.0 {
                removed.push(self.items[i].snapshot());
            } else {
                let v = self.items[i].id.to_value();
                kept_ids.insert(v);
                let ghost before = kept@;
                kept.push(self.items[i].snapshot());
                proof {
                    assert forall|w: u32| #[trigger]
                        kept_ids@.contains(w) <==> exists|k: int|
                            0 <= k < kept@.len() && (#[trigger] kept@[k]).id.value() == w by {
                        if w == v {
                            assert(kept@[kept@.len() - 1].id.value() == w);
                        }
                        if exists|k: int| 0 <= k < kept@.len() && (#[trigger] kept@[k]).id.value() == w {
                            let k = choose|k: int| 0 <= k < kept@.len() && (#[trigger] kept@[k]).id.value() == w;
                            if k < before.len() {
                                assert(before[k] == kept@[k]);
                            }
                        }
                        if w != v && kept_ids@.contains(w) {
                            let k = choose|k: int| 0 <= k < before.len() && (#[trigger] before[k]).id.value() == w;
                            assert(kept@[k] == before[k]);
                        }
                    }
                }
            }
            i = i + 1;
        }
        assert(self@.take(self@.len() as int) =~= self@);
        proof {
            lemma_filter_unique(self@, not_for_table(table_id));
            assert forall|a: int| 0 <= a < kept@.len() implies (#[trigger] kept@[a]).id.value()
                < self.next_id() && (self.all_active() ==> kept@[a].item.quantity > 0) by {
                assert(self@.contains(kept@[a]));
            }
        }
        self.items = kept;
        self.ids = kept_ids;
        removed
    }
}

/// The menu and the tables are left as they were.
pub open spec fn only_orders_changed(pre: Database, post: Database) -> bool {
    post.menu == pre.menu && post.tables == pre.tables
}

/// The restaurant's state: the menu, the tables and the orders, each in its own
/// repository. Callers that share one database between threads put each repository
/// behind its own lock; every operation here reads or writes one repository at a time,
/// except `order::place_order`, which reads the other two before it writes the orders.
pub struct Database {
    pub menu: menu::Repository,
    pub tables: TableRepository,
    pub orders: order::Repository,
}

impl Database {
    /// Every repository is well formed, and every stored order asks for a portion.
    pub open spec fn wf(&self) -> bool {
        &&& self.menu.wf()
        &&& self.tables.wf()
        &&& self.orders.wf()
        &&& self.orders.all_active()
    }

    /// A database holding the given dishes, tables and orders; each repository's
    /// identifiers continue after the largest it was given.
    pub fn new(menu: Vec<menu::RepoItem>, tables: Vec<RepoTable>, orders: Vec<RepoOrder>) -> (r:
        Database)
        requires
            unique_ids(menu@),
            unique_ids(tables@),
            unique_ids(orders@),
            forall|i: int| 0 <= i < orders@.len() ==> (#[trigger] orders@[i]).item.quantity > 0,
        ensures
            r.wf(),
            r.menu@ == menu@,
            r.tables@ == tables@,
            r.orders@ == orders@,
            r.menu.next_id() == following_id(menu@),
            r.tables.next_id() == following_id(tables@),
            r.orders.next_id() == following_id(orders@),
    {
        Database {
            menu: InMemoryRepository::from_items(menu),
            tables: InMemoryRepository::from_items(tables),
            orders: InMemoryRepository::from_items(orders),
        }
    }

    /// Copies of all tables, in order.
    pub fn tables(&self) -> (r: Vec<RepoTable>)
        ensures
            r@ == self.tables@,
    {
        self.tables.items()
    }

    pub fn table(&self, id: TableId) -> (r: Result<RepoTable, Error<TableId>>)
        requires
            self.wf(),
        ensures
            r == self.tables.lookup(id),
    {
        self.tables.get(id)
    }

    /// Copies of all dishes, in order.
    pub fn menu_items(&self) -> (r: Vec<menu::RepoItem>)
        ensures
            r@ == self.menu@,
    {
        self.menu.items()
    }

    pub fn menu_item(&self, id: menu::Id) -> (r: Result<menu::RepoItem, Error<menu::Id>>)
        requires
            self.wf(),
        ensures
            r == self.menu.lookup(id),
    {
        self.menu.get(id)
    }

    pub fn update_menu_item(&mut self, item: menu::RepoItem) -> (r: Result<
        menu::RepoItem,
        Error<menu::Id>,
    >)
        requires
            old(self).wf(),
        ensures
            final(self).wf(),
            r == old(self).menu.update_result(item),
            final(self).menu@ == old(self).menu.replaced(item),
            final(self).menu.next_id() == old(self).menu.next_id(),
            final(self).tables == old(self).tables,
            final(self).orders == old(self).orders,
    {
        self.menu.update(item)
    }

    /// Copies of all orders, in the order they were placed.
    pub fn get_all(&self) -> (r: Result<Vec<RepoOrder>, Error<order::Id>>)
        ensures
            r matches Ok(v) && v@ == self.orders@,
    {
        self.orders.get_all()
    }

    pub fn get(&self, id: order::Id) -> (r: Result<RepoOrder, Error<order::Id>>)
        requires
            self.wf(),
        ensures
            r == self.orders.lookup(id),
    {
        self.orders.get(id)
    }

    /// Stores `item` as a new order.
    pub fn create(&mut self, item: Order) -> (r: Result<RepoOrder, Error<order::Id>>)
        requires
            old(self).wf(),
            item.quantity > 0,
        ensures
            final(self).wf(),
            InMemoryRepository::created(old(self).orders, item, final(self).orders, r),
            only_orders_changed(*old(self), *final(self)),
    {
        let r = self.orders.create(item);
        proof {
            assert forall|i: int| 0 <= i < self.orders@.len() implies (
            #[trigger] self.orders@[i]).item.quantity > 0 by {
                if i < old(self).orders@.len() {
                    assert(self.orders@[i] == old(self).orders@[i]);
                }
            }
        }
        r
    }

    pub fn remove(&mut self, id: order::Id) -> (r: Result<RepoOrder, Error<order::Id>>)
        requires
            old(self).wf(),
        ensures
            final(self).wf(),
            r == old(self).orders.lookup(id),
            final(self).orders@ == old(self).orders.without(id),
            final(self).orders.next_id() == old(self).orders.next_id(),
            only_orders_changed(*old(self), *final(self)),
    {
        let r = self.orders.remove(id);
        proof {
            if old(self).orders.contains_id(id) {
                let k = old(self).orders.index_of_id(id);
                assert forall|j: int| 0 <= j < self.orders@.len() implies (
                #[trigger] self.orders@[j]).item.quantity > 0 by {
                    let oj = if j < k { j } else { j + 1 };
                    assert(self.orders@[j] == old(self).orders@[oj]);
                }
            }
        }
        r
    }

    pub fn update(&mut self, item: RepoOrder) -> (r: Result<RepoOrder, Error<order::Id>>)
        requires
            old(self).wf(),
            item.item.quantity > 0,
        ensures
            final(self).wf(),
            r == old(self).orders.update_result(item),
            final(self).orders@ == old(self).orders.replaced(item),
            final(self).orders.next_id() == old(self).orders.next_id(),
            only_orders_changed(*old(self), *final(self)),
    {
        let r = self.orders.update(item);
        proof {
            if old(self).orders.contains_id(item.id) {
                let k = old(self).orders.index_of_id(item.id);
                assert forall|j: int| 0 <= j < self.orders@.len() implies (
                #[trigger] self.orders@[j]).item.quantity > 0 by {
                    if j != k {
                        assert(self.orders@[j] == old(self).orders@[j]);
                    }
                }
            }
        }
        r
    }

    /// Copies of the orders of table `table_id`, in order; none is a valid answer.
    pub fn get_table(&self, table_id: TableId) -> (r: Vec<RepoOrder>)
        ensures
            r@ == self.orders@.filter(is_for_table(table_id)),
    {
        self.orders.orders_for_table(table_id)
    }

    /// Removes the orders of table `table_id`, and returns them in order.
    pub fn remove_table_orders(&mut self, table_id: TableId) -> (r: Vec<RepoOrder>)
        requires
            old(self).wf(),
        ensures
            final(self).wf(),
            r@ == old(self).orders@.filter(is_for_table(table_id)),
            final(self).orders@ == old(self).orders@.filter(not_for_table(table_id)),
            final(self).orders.next_id() == old(self).orders.next_id(),
            only_orders_changed(*old(self), *final(self)),
    {
        self.orders.remove_table_orders(table_id)
    }
}

impl Default for Database {
    fn default() -> (r: Database)
        ensures
            r.wf(),
            r.menu@.len() == 0,
            r.tables@.len() == 0,
            r.orders@.len() == 0,
            r.menu.next_id() == 1,
            r.tables.next_id() == 1,
            r.orders.next_id() == 1,
    {
        Database {
            menu: InMemoryRepository::new(),
            tables: InMemoryRepository::new(),
            orders: InMemoryRepository::new(),
        }
    }
}

} // verus!
