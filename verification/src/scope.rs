//! Nested lexical scopes: a [`Universe`] owns every scope; each scope but the
//! root has a parent, and a name is looked up in a scope and then in its
//! ancestors.
use vstd::prelude::*;
use vstd::string::StringExecFns;

verus! {

/// Identifies a scope of a [`Universe`].
#[derive(Clone, Copy, PartialEq, Eq, Structural, Debug, Hash)]
pub struct ScopeId(usize);

impl ScopeId {
    pub closed spec fn idx(self) -> nat {
        self.0 as nat
    }

    pub(crate) fn into_idx(self) -> (r: usize)
        ensures
            r == self.idx(),
    {
        self.0
    }

    pub(crate) fn from_idx(idx: usize) -> (r: Self)
        ensures
            r.idx() == idx,
    {
        Self(idx)
    }
}

/// One scope: its parent (none for the root) and the items it declares,
/// each name at most once.  The names and items stand in two vectors of the
/// same length rather than in a hash map keyed by `String`: vstd's
/// specification of `HashMap` holds only for key types whose hashing it
/// models (`obeys_key_model`, given for the integers and `bool`), and for
/// `String` it would take an assumption, so every lookup below would be left
/// unstated.
#[derive(Debug)]
pub struct Scope<Item> {
    parent: Option<ScopeId>,
    keys: Vec<String>,
    items: Vec<Item>,
}

/// The mathematical value of one scope.
pub struct ScopeView<Item> {
    pub parent: Option<nat>,
    pub items: Map<Seq<char>, Item>,
}

/// The map from names to items held by parallel key and item sequences.
pub open spec fn items_map<Item>(keys: Seq<String>, items: Seq<Item>) -> Map<Seq<char>, Item>
    decreases keys.len(),
{
    if keys.len() == 0 || items.len() == 0 {
        Map::empty()
    } else {
        items_map(keys.drop_last(), items.drop_last()).insert(keys.last()@, items.last())
    }
}

/// No name occurs twice among `keys`.
pub open spec fn keys_unique(keys: Seq<String>) -> bool {
    forall|i: int, j: int| 0 <= i < keys.len() && 0 <= j < keys.len() && i != j ==> keys[i]@ != keys[j]@
}

proof fn lemma_items_map_domain<Item>(keys: Seq<String>, items: Seq<Item>, k: Seq<char>)
    requires
        keys.len() == items.len(),
    ensures
        items_map(keys, items).contains_key(k) <==> exists|j: int| 0 <= j < keys.len() && #[trigger] keys[j]@ == k,
    decreases keys.len(),
{
    if keys.len() > 0 {
        lemma_items_map_domain(keys.drop_last(), items.drop_last(), k);
        if items_map(keys, items).contains_key(k) && keys.last()@ != k {
            let j = choose|j: int| 0 <= j < keys.drop_last().len() && #[trigger] keys.drop_last()[j]@ == k;
            assert(keys[j]@ == k);
        }
        if exists|j: int| 0 <= j < keys.len() && #[trigger] keys[j]@ == k {
            let j = choose|j: int| 0 <= j < keys.len() && #[trigger] keys[j]@ == k;
            if j < keys.len() - 1 {
                assert(keys.drop_last()[j]@ == k);
            }
        }
    }
}

proof fn lemma_items_map_get<Item>(keys: Seq<String>, items: Seq<Item>, j: int)
    requires
        keys.len() == items.len(),
        keys_unique(keys),
        0 <= j < keys.len(),
    ensures
        items_map(keys, items).contains_key(keys[j]@),
        items_map(keys, items)[keys[j]@] == items[j],
    decreases keys.len(),
{
    if j < keys.len() - 1 {
        lemma_items_map_get(keys.drop_last(), items.drop_last(), j);
        assert(keys.drop_last()[j] == keys[j]);
    }
}

proof fn lemma_items_map_set<Item>(keys: Seq<String>, items: Seq<Item>, j: int, v: Item)
    requires
        keys.len() == items.len(),
        keys_unique(keys),
        0 <= j < keys.len(),
    ensures
        items_map(keys, items.update(j, v)) == items_map(keys, items).insert(keys[j]@, v),
    decreases keys.len(),
{
    let n = keys.len();
    if j == n - 1 {
        assert(items.update(j, v).drop_last() =~= items.drop_last());
        assert(!items_map(keys.drop_last(), items.drop_last()).contains_key(keys[j]@)) by {
            lemma_items_map_domain(keys.drop_last(), items.drop_last(), keys[j]@);
        }
        assert(items_map(keys, items.update(j, v)) =~= items_map(keys, items).insert(keys[j]@, v));
    } else {
        lemma_items_map_set(keys.drop_last(), items.drop_last(), j, v);
        assert(items.update(j, v).drop_last() =~= items.drop_last().update(j, v));
        assert(keys.drop_last()[j] == keys[j]);
        assert(keys[n - 1]@ != keys[j]@);
        assert(items_map(keys, items.update(j, v)) =~= items_map(keys, items).insert(keys[j]@, v));
    }
}

pub closed spec fn scope_view<Item>(s: Scope<Item>) -> ScopeView<Item> {
    ScopeView {
        parent: match s.parent {
            Some(p) => Some(p.idx()),
            None => None,
        },
        items: items_map(s.keys@, s.items@),
    }
}

impl<Item> Scope<Item> {
    pub closed spec fn wf(self) -> bool {
        &&& self.keys@.len() == self.items@.len()
        &&& keys_unique(self.keys@)
    }

    /// The position of `key` among this scope's names.
    fn position(&self, key: &String) -> (r: Option<usize>)
        requires
            self.wf(),
        ensures
            match r {
                Some(j) => j < self.keys@.len() && self.keys@[j as int]@ == key@,
                None => !scope_view(*self).items.contains_key(key@),
            },
    {
        let n = self.keys.len();
        let mut j: usize = 0;
        while j < n
            invariant
                n == self.keys@.len(),
                0 <= j <= n,
                forall|i: int| 0 <= i < j ==> #[trigger] self.keys@[i]@ != key@,
            decreases n - j,
        {
            if self.keys[j] == *key {
                return Some(j);
            }
            j += 1;
        }
        proof {
            lemma_items_map_domain(self.keys@, self.items@, key@);
        }
        None
    }
}

/// All the scopes of one program.
#[derive(Debug)]
pub struct Universe<Item> {
    scopes: Vec<Scope<Item>>,
    root_scope_id: ScopeId,
}

/// Looks `key` up in scope `s` and then in its ancestors.
pub open spec fn lookup_view<Item>(u: Seq<ScopeView<Item>>, s: nat, key: Seq<char>) -> Option<Item>
    decreases s,
{
    if s >= u.len() {
        None
    } else if u[s as int].items.contains_key(key) {
        Some(u[s as int].items[key])
    } else {
        match u[s as int].parent {
            Some(p) => if p < s {
                lookup_view(u, p, key)
            } else {
                None
            },
            None => None,
        }
    }
}

/// The scope in which a lookup of `key` from `s` finds its item.
pub open spec fn defining_scope<Item>(u: Seq<ScopeView<Item>>, s: nat, key: Seq<char>) -> Option<nat>
    decreases s,
{
    if s >= u.len() {
        None
    } else if u[s as int].items.contains_key(key) {
        Some(s)
    } else {
        match u[s as int].parent {
            Some(p) => if p < s {
                defining_scope(u, p, key)
            } else {
                None
            },
            None => None,
        }
    }
}

/// A well-formed universe: the root is scope 0 and has no parent, every other
/// scope has a parent created before it.
pub open spec fn universe_wf<Item>(u: Seq<ScopeView<Item>>) -> bool {
    &&& u.len() >= 1
    &&& u[0].parent is None
    &&& forall|i: int| 1 <= i < u.len() ==> ((#[trigger] u[i]).parent matches Some(p) && p < i)
}

impl<Item> View for Universe<Item> {
    type V = Seq<ScopeView<Item>>;

    closed spec fn view(&self) -> Seq<ScopeView<Item>> {
        Seq::new(self.scopes@.len(), |i: int| scope_view(self.scopes@[i]))
    }
}

pub proof fn lemma_defining_scope<Item>(u: Seq<ScopeView<Item>>, s: nat, key: Seq<char>)
    ensures
        match defining_scope(u, s, key) {
            Some(d) => d <= s && d < u.len() && u[d as int].items.contains_key(key) && lookup_view(u, s, key)
                == Some(u[d as int].items[key]),
            None => lookup_view(u, s, key) is None,
        },
    decreases s,
{
    if s < u.len() && !u[s as int].items.contains_key(key) {
        if let Some(p) = u[s as int].parent {
            if p < s {
                lemma_defining_scope(u, p, key);
            }
        }
    }
}

impl<Item> Universe<Item> {
    /// Internal consistency: the view is well formed, the root is scope 0 and
    /// every scope names each item once.
    pub closed spec fn wf(&self) -> bool {
        &&& universe_wf(self@)
        &&& self.root_scope_id.idx() == 0
        &&& forall|i: int| 0 <= i < self.scopes@.len() ==> (#[trigger] self.scopes@[i]).wf()
    }

    /// Whether `id` names a scope of this universe.
    pub open spec fn valid(&self, id: ScopeId) -> bool {
        id.idx() < self@.len()
    }

    /// What looking `key` up from scope `id` finds.
    pub open spec fn lookup_spec(&self, id: ScopeId, key: Seq<char>) -> Option<Item> {
        lookup_view(self@, id.idx(), key)
    }

    /// A universe holding only an empty root scope.
    pub fn new() -> (r: Self)
        ensures
            r.wf(),
            r@ == seq![ScopeView::<Item> { parent: None, items: Map::empty() }],
            r.spec_root_scope_id().idx() == 0,
    {
        let root_scope_id = ScopeId::from_idx(0);
        let mut scopes = Vec::new();
        scopes.push(Scope { parent: None, keys: Vec::new(), items: Vec::new() });
        let r = Self { scopes, root_scope_id };
        assert(r@ =~= seq![ScopeView::<Item> { parent: None, items: Map::empty() }]);
        r
    }

    fn get_just_scope(&self, id: ScopeId) -> (r: &Scope<Item>)
        requires
            self.valid(id),
        ensures
            *r == self.scopes@[id.idx() as int],
    {
        &self.scopes[id.into_idx()]
    }

    /// Whether `id` names a scope of this universe.
    pub fn contains_scope(&self, id: ScopeId) -> (r: bool)
        ensures
            r == self.valid(id),
    {
        id.into_idx() < self.scopes.len()
    }

    /// A read handle on scope `id`.
    pub fn get_scope(&self, id: ScopeId) -> (r: ScopeRef<'_, Item>)
        ensures
            *r.universe == *self,
            r.scope == id,
    {
        ScopeRef { universe: self, scope: id }
    }

    /// A write handle on scope `id`.
    pub fn get_scope_mut(&mut self, id: ScopeId) -> (r: ScopeRefMut<'_, Item>)
        ensures
            *r.universe == *old(self),
            *final(r.universe) == *final(self),
            r.scope == id,
    {
        ScopeRefMut { universe: self, scope: id }
    }

    /// The id of the root scope.
    pub fn root_scope_id(&self) -> (r: ScopeId)
        ensures
            r == self.spec_root_scope_id(),
    {
        self.root_scope_id
    }

    pub closed spec fn spec_root_scope_id(&self) -> ScopeId {
        self.root_scope_id
    }

    /// A well-formed universe has a well-formed view whose root is scope 0.
    pub proof fn lemma_wf(&self)
        requires
            self.wf(),
        ensures
            universe_wf(self@),
            self.spec_root_scope_id().idx() == 0,
    {
    }

    /// A read handle on the root scope.
    pub fn root_scope(&self) -> (r: ScopeRef<'_, Item>)
        ensures
            *r.universe == *self,
            r.scope == self.spec_root_scope_id(),
    {
        self.get_scope(self.root_scope_id)
    }

    /// A write handle on the root scope.
    pub fn root_scope_mut(&mut self) -> (r: ScopeRefMut<'_, Item>)
        ensures
            *r.universe == *old(self),
            *final(r.universe) == *final(self),
            r.scope == old(self).spec_root_scope_id(),
    {
        let id = self.root_scope_id;
        self.get_scope_mut(id)
    }

    /// Looks `key` up in scope `scope_id`, then in its ancestors.
    pub fn scope_lookup(&self, scope_id: ScopeId, key: &str) -> (r: Option<&Item>)
        requires
            self.wf(),
            self.valid(scope_id),
        ensures
            match r {
                Some(x) => self.lookup_spec(scope_id, key@) == Some(*x),
                None => self.lookup_spec(scope_id, key@) is None,
            },
    {
        let key_s = String::from_str(key);
        let mut cur = scope_id;
        loop
            invariant
                key_s@ == key@,
                self.wf(),
                self.valid(cur),
                self.lookup_spec(scope_id, key@) == self.lookup_spec(cur, key@),
            decreases cur.idx(),
        {
            let scope = self.get_just_scope(cur);
            assert(self.scopes@[cur.idx() as int].wf());
            match scope.position(&key_s) {
                Some(j) => {
                    proof {
                        lemma_items_map_get(scope.keys@, scope.items@, j as int);
                    }
                    return Some(&scope.items[j]);
                },
                None => {},
            }
            match scope.parent {
                Some(p) => {
                    assert(cur.idx() >= 1);
                    assert(self@[cur.idx() as int].parent == Some(p.idx()));
                    cur = p;
                },
                None => {
                    return None;
                },
            }
        }
    }

    /// Finds the scope that defines `key` as seen from `scope_id`, and its
    /// position there.
    fn find_defining(&self, scope_id: ScopeId, key: &str) -> (r: Option<(usize, usize)>)
        requires
            self.wf(),
            self.valid(scope_id),
        ensures
            match r {
                Some((d, j)) => defining_scope(self@, scope_id.idx(), key@) == Some(d as nat) && j
                    < self.scopes@[d as int].keys@.len() && self.scopes@[d as int].keys@[j as int]@
                    == key@,
                None => defining_scope(self@, scope_id.idx(), key@) is None,
            },
    {
        let key_s = String::from_str(key);
        let mut cur = scope_id;
        loop
            invariant
                key_s@ == key@,
                self.wf(),
                self.valid(cur),
                defining_scope(self@, scope_id.idx(), key@) == defining_scope(self@, cur.idx(), key@),
            decreases cur.idx(),
        {
            let scope = self.get_just_scope(cur);
            assert(self.scopes@[cur.idx() as int].wf());
            match scope.position(&key_s) {
                Some(j) => {
                    proof {
                        lemma_items_map_get(scope.keys@, scope.items@, j as int);
                    }
                    return Some((cur.into_idx(), j));
                },
                None => {},
            }
            match scope.parent {
                Some(p) => {
                    assert(cur.idx() >= 1);
                    assert(self@[cur.idx() as int].parent == Some(p.idx()));
                    cur = p;
                },
                None => {
                    return None;
                },
            }
        }
    }

    /// Replaces the item that a lookup of `key` from `scope_id` finds by what
    /// `f` computes from it; returns whether there was one.
    pub fn scope_lookup_and_modify<F: FnOnce(&Item) -> Item>(
        &mut self,
        scope_id: ScopeId,
        key: &str,
        f: F,
    ) -> (r: bool)
        requires
            old(self).wf(),
            old(self).valid(scope_id),
            match defining_scope(old(self)@, scope_id.idx(), key@) {
                Some(d) => f.requires((&old(self)@[d as int].items[key@],)),
                None => true,
            },
        ensures
            final(self).wf(),
            r == old(self).lookup_spec(scope_id, key@) is Some,
            match defining_scope(old(self)@, scope_id.idx(), key@) {
                Some(d) => exists|v: Item|
                    {
                        &&& f.ensures((&old(self)@[d as int].items[key@],), v)
                        &&& final(self)@ == old(self)@.update(
                            d as int,
                            ScopeView { parent: old(self)@[d as int].parent, items: old(self)@[d as int].items.insert(key@, v) },
                        )
                    },
                None => *final(self) == *old(self),
            },
    {
        proof {
            lemma_defining_scope(self@, scope_id.idx(), key@);
        }
        match self.find_defining(scope_id, key) {
            None => false,
            Some((d, j)) => {
                let ghost old_u = self@;
                let ghost old_scope = self.scopes@[d as int];
                proof {
                    lemma_items_map_get(old_scope.keys@, old_scope.items@, j as int);
                }
                let new_item = f(&self.scopes[d].items[j]);
                let scope = &mut self.scopes[d];
                scope.items.set(j, new_item);
                proof {
                    lemma_items_map_set(old_scope.keys@, old_scope.items@, j as int, new_item);
                    assert(self@ =~= old_u.update(
                        d as int,
                        ScopeView { parent: old_u[d as int].parent, items: old_u[d as int].items.insert(key@, new_item) },
                    ));
                    assert forall|i: int| 0 <= i < self.scopes@.len() implies (#[trigger] self.scopes@[i]).wf() by {
                        if i != d {
                            assert(self.scopes@[i] == old(self).scopes@[i]);
                        }
                    }
                }
                true
            },
        }
    }

    /// Declares `key` as `item` in scope `scope_id`, replacing what that scope
    /// held under the name.
    pub fn scope_insert(&mut self, scope_id: ScopeId, key: String, item: Item)
        requires
            old(self).wf(),
            old(self).valid(scope_id),
        ensures
            final(self).wf(),
            final(self)@ == old(self)@.update(
                scope_id.idx() as int,
                ScopeView {
                    parent: old(self)@[scope_id.idx() as int].parent,
                    items: old(self)@[scope_id.idx() as int].items.insert(key@, item),
                },
            ),
    {
        let i = scope_id.into_idx();
        let ghost old_u = self@;
        let ghost old_scope = self.scopes@[i as int];
        assert(old_scope.wf());
        let pos = self.scopes[i].position(&key);
        let scope = &mut self.scopes[i];
        match pos {
            Some(j) => {
                scope.items.set(j, item);
                proof {
                    lemma_items_map_set(old_scope.keys@, old_scope.items@, j as int, item);
                }
            },
            None => {
                proof {
                    lemma_items_map_domain(old_scope.keys@, old_scope.items@, key@);
                }
                scope.keys.push(key);
                scope.items.push(item);
                proof {
                    let s = self.scopes@[i as int];
                    assert(s.keys@.drop_last() =~= old_scope.keys@);
                    assert(s.items@.drop_last() =~= old_scope.items@);
                    assert forall|a: int, b: int|
                        0 <= a < s.keys@.len() && 0 <= b < s.keys@.len() && a != b implies s.keys@[a]@
                        != s.keys@[b]@ by {
                        if a < old_scope.keys@.len() && b < old_scope.keys@.len() {
                            assert(s.keys@[a] == old_scope.keys@[a]);
                            assert(s.keys@[b] == old_scope.keys@[b]);
                        } else if a < old_scope.keys@.len() {
                            assert(s.keys@[a] == old_scope.keys@[a]);
                        } else {
                            assert(s.keys@[b] == old_scope.keys@[b]);
                        }
                    }
                }
            },
        }
        proof {
            assert(self@ =~= old_u.update(
                i as int,
                ScopeView { parent: old_u[i as int].parent, items: old_u[i as int].items.insert(key@, item) },
            ));
            assert forall|k: int| 0 <= k < self.scopes@.len() implies (#[trigger] self.scopes@[k]).wf() by {
                if k != i {
                    assert(self.scopes@[k] == old(self).scopes@[k]);
                }
            }
        }
    }

    /// Creates an empty scope whose parent is `parent_id`.
    pub fn new_scope(&mut self, parent_id: ScopeId) -> (r: ScopeId)
        requires
            old(self).wf(),
            old(self).valid(parent_id),
        ensures
            final(self).wf(),
            r.idx() == old(self)@.len(),
            final(self)@ == old(self)@.push(ScopeView { parent: Some(parent_id.idx()), items: Map::empty() }),
            final(self).spec_root_scope_id() == old(self).spec_root_scope_id(),
    {
        let id = ScopeId::from_idx(self.scopes.len());
        self.scopes.push(Scope { parent: Some(parent_id), keys: Vec::new(), items: Vec::new() });
        assert(self@ =~= old(self)@.push(ScopeView { parent: Some(parent_id.idx()), items: Map::empty() }));
        id
    }
}

fn map_items<Item, Item2, F: Fn(Item) -> Item2>(items: Vec<Item>, f: &F) -> (r: Vec<Item2>)
    requires
        forall|i: int| 0 <= i < items@.len() ==> f.requires((#[trigger] items@[i],)),
    ensures
        r@.len() == items@.len(),
        forall|i: int| 0 <= i < items@.len() ==> f.ensures((items@[i],), #[trigger] r@[i]),
{
    broadcast use vstd::std_specs::vec::axiom_spec_into_iter;

    let ghost orig = items@;
    let mut out: Vec<Item2> = Vec::new();
    for x in it: items.into_iter()
        invariant
            it.seq() == orig,
            forall|i: int| 0 <= i < orig.len() ==> f.requires((#[trigger] orig[i],)),
            out@.len() == it.index(),
            forall|i: int| 0 <= i < it.index() ==> f.ensures((orig[i],), #[trigger] out@[i]),
    {
        assert(f.requires((orig[it.index() as int],)));
        let y = f(x);
        out.push(y);
    }
    out
}

impl<Item> Scope<Item> {
    fn map<Item2, F: Fn(Item) -> Item2>(self, f: &F) -> (r: Scope<Item2>)
        requires
            self.wf(),
            forall|i: int| 0 <= i < self.items@.len() ==> f.requires((#[trigger] self.items@[i],)),
        ensures
            r.wf(),
            r.parent == self.parent,
            r.keys@ == self.keys@,
            r.items@.len() == self.items@.len(),
            forall|i: int| 0 <= i < self.items@.len() ==> f.ensures((self.items@[i],), #[trigger] r.items@[i]),
    {
        let Scope { parent, keys, items } = self;
        let items = map_items(items, f);
        Scope { parent, keys, items }
    }
}

/// Whether `b` is `a` with every item replaced by a result of `f` on it.
pub open spec fn mapped_view<Item, Item2, F: Fn(Item) -> Item2>(
    a: Seq<ScopeView<Item>>,
    b: Seq<ScopeView<Item2>>,
    f: F,
) -> bool {
    &&& b.len() == a.len()
    &&& forall|i: int|
        0 <= i < a.len() ==> {
            &&& (#[trigger] b[i]).parent == a[i].parent
            &&& b[i].items.dom() == a[i].items.dom()
            &&& forall|k: Seq<char>| #[trigger]
                a[i].items.contains_key(k) ==> f.ensures((a[i].items[k],), b[i].items[k])
        }
}

impl<Item> Universe<Item> {
    /// The same scopes, with every item replaced by what `f` computes from it.
    pub fn map<Item2, F: Fn(Item) -> Item2>(self, f: F) -> (r: Universe<Item2>)
        requires
            self.wf(),
            forall|i: int, k: Seq<char>|
                0 <= i < self@.len() && #[trigger] self@[i].items.contains_key(k) ==> f.requires((self@[i].items[k],)),
        ensures
            r.wf(),
            r.spec_root_scope_id() == self.spec_root_scope_id(),
            mapped_view(self@, r@, f),
    {
        broadcast use vstd::std_specs::vec::axiom_spec_into_iter;

        let ghost old_scopes = self.scopes@;
        let ghost old_view = self@;
        proof {
            assert forall|i: int, j: int| 0 <= i < old_scopes.len() && 0 <= j < old_scopes[i].items@.len() implies f.requires(
                (#[trigger] old_scopes[i].items@[j],),
            ) by {
                let a = old_scopes[i];
                assert(a.wf());
                lemma_items_map_get(a.keys@, a.items@, j);
                assert(old_view[i] == scope_view(a));
                assert(old_view[i].items.contains_key(a.keys@[j]@));
            }
        }
        let Universe { scopes, root_scope_id } = self;
        let mut out: Vec<Scope<Item2>> = Vec::new();
        for sc in it: scopes.into_iter()
            invariant
                it.seq() == old_scopes,
                forall|i: int, j: int|
                    0 <= i < old_scopes.len() && 0 <= j < old_scopes[i].items@.len() ==> f.requires(
                        (#[trigger] old_scopes[i].items@[j],),
                    ),
                forall|i: int| 0 <= i < old_scopes.len() ==> (#[trigger] old_scopes[i]).wf(),
                out@.len() == it.index(),
                forall|i: int|
                    0 <= i < it.index() ==> {
                        &&& (#[trigger] out@[i]).wf()
                        &&& out@[i].parent == old_scopes[i].parent
                        &&& out@[i].keys@ == old_scopes[i].keys@
                        &&& out@[i].items@.len() == old_scopes[i].items@.len()
                        &&& forall|j: int|
                            0 <= j < old_scopes[i].items@.len() ==> f.ensures(
                                (old_scopes[i].items@[j],),
                                #[trigger] out@[i].items@[j],
                            )
                    },
        {
            assert(sc == old_scopes[it.index() as int]);
            let m = sc.map(&f);
            out.push(m);
        }
        let r = Universe { scopes: out, root_scope_id };
        proof {
            assert forall|i: int| 0 <= i < old_view.len() implies {
                &&& (#[trigger] r@[i]).parent == old_view[i].parent
                &&& r@[i].items.dom() == old_view[i].items.dom()
                &&& forall|k: Seq<char>| #[trigger]
                    old_view[i].items.contains_key(k) ==> f.ensures((old_view[i].items[k],), r@[i].items[k])
            } by {
                let a = old_scopes[i];
                let b = r.scopes@[i];
                assert(a.wf());
                assert forall|k: Seq<char>| r@[i].items.contains_key(k) <==> old_view[i].items.contains_key(k) by {
                    lemma_items_map_domain(a.keys@, a.items@, k);
                    lemma_items_map_domain(b.keys@, b.items@, k);
                }
                assert(r@[i].items.dom() =~= old_view[i].items.dom());
                assert forall|k: Seq<char>| #[trigger]
                    old_view[i].items.contains_key(k) implies f.ensures((old_view[i].items[k],), r@[i].items[k]) by {
                    lemma_items_map_domain(a.keys@, a.items@, k);
                    let j = choose|j: int| 0 <= j < a.keys@.len() && #[trigger] a.keys@[j]@ == k;
                    lemma_items_map_get(a.keys@, a.items@, j);
                    lemma_items_map_get(b.keys@, b.items@, j);
                }
            }
        }
        r
    }
}

proof fn lemma_items_map_values<Item, Item2>(keys: Seq<String>, items: Seq<Item>, g: spec_fn(Item) -> Item2)
    requires
        keys.len() == items.len(),
    ensures
        items_map(keys, items.map_values(g)) == items_map(keys, items).map_values(g),
    decreases keys.len(),
{
    if keys.len() > 0 {
        lemma_items_map_values(keys.drop_last(), items.drop_last(), g);
        assert(items.map_values(g).drop_last() =~= items.drop_last().map_values(g));
        assert(items_map(keys, items.map_values(g)) =~= items_map(keys, items).map_values(g));
    } else {
        assert(items_map(keys, items.map_values(g)) =~= items_map(keys, items).map_values(g));
    }
}

impl<Item> Universe<Item> {
    /// The same scopes and names, each name marked `false`.
    pub fn unmarked(&self) -> (r: Universe<bool>)
        requires
            self.wf(),
        ensures
            r.wf(),
            r@ == map_scopes(self@, |it: Item| false),
    {
        let mut out: Vec<Scope<bool>> = Vec::new();
        let n = self.scopes.len();
        let mut i: usize = 0;
        while i < n
            invariant
                n == self.scopes@.len(),
                i <= n,
                self.wf(),
                out@.len() == i,
                forall|k: int|
                    0 <= k < i ==> {
                        &&& (#[trigger] out@[k]).wf()
                        &&& out@[k].parent == self.scopes@[k].parent
                        &&& out@[k].keys@ == self.scopes@[k].keys@
                        &&& out@[k].items@ == self.scopes@[k].items@.map_values(|it: Item| false)
                    },
            decreases n - i,
        {
            let sc = &self.scopes[i];
            let m = sc.keys.len();
            let mut keys: Vec<String> = Vec::new();
            let mut items: Vec<bool> = Vec::new();
            let mut j: usize = 0;
            while j < m
                invariant
                    m == sc.keys@.len(),
                    j <= m,
                    keys@ == sc.keys@.take(j as int),
                    items@ == Seq::new(j as nat, |x: int| false),
                decreases m - j,
            {
                keys.push(sc.keys[j].clone());
                items.push(false);
                proof {
                    assert(sc.keys@.take(j + 1) == sc.keys@.take(j as int).push(sc.keys@[j as int]));
                    assert(items@ =~= Seq::new((j + 1) as nat, |x: int| false));
                }
                j = j + 1;
            }
            proof {
                assert(self.scopes@[i as int].wf());
                assert(keys@ =~= sc.keys@);
                assert(items@ =~= sc.items@.map_values(|it: Item| false));
            }
            out.push(Scope { parent: sc.parent, keys, items });
            i = i + 1;
        }
        let r = Universe { scopes: out, root_scope_id: self.root_scope_id };
        proof {
            assert forall|k: int| 0 <= k < n implies #[trigger] r@[k] == map_scopes(self@, |it: Item| false)[k] by {
                let a = self.scopes@[k];
                assert(a.wf());
                lemma_items_map_values(a.keys@, a.items@, |it: Item| false);
                assert(r.scopes@[k].items@ == a.items@.map_values(|it: Item| false));
            }
            assert(r@ =~= map_scopes(self@, |it: Item| false));
        }
        r
    }
}

// ---------------------------------------------------------------------------
// Laws of lookup.
// ---------------------------------------------------------------------------

/// `u` with `key` declared as `item` in scope `s`.
pub open spec fn insert_item<Item>(u: Seq<ScopeView<Item>>, s: nat, key: Seq<char>, item: Item) -> Seq<
    ScopeView<Item>,
> {
    u.update(s as int, ScopeView { parent: u[s as int].parent, items: u[s as int].items.insert(key, item) })
}

/// `u` with a new empty scope whose parent is `parent`.
pub open spec fn add_scope<Item>(u: Seq<ScopeView<Item>>, parent: nat) -> Seq<ScopeView<Item>> {
    u.push(ScopeView { parent: Some(parent), items: Map::empty() })
}

/// A lookup of `key` from scope `s` finds what was last declared under `key`
/// in `s`.
pub proof fn law_lookup_after_insert<Item>(u: Seq<ScopeView<Item>>, s: nat, key: Seq<char>, item: Item)
    requires
        s < u.len(),
    ensures
        lookup_view(insert_item(u, s, key, item), s, key) == Some(item),
{
}

/// Declaring `key` changes no lookup of another name, from any scope.
pub proof fn law_insert_keeps_other_lookups<Item>(
    u: Seq<ScopeView<Item>>,
    s: nat,
    key: Seq<char>,
    item: Item,
    t: nat,
    other: Seq<char>,
)
    requires
        s < u.len(),
        other != key,
    ensures
        lookup_view(insert_item(u, s, key, item), t, other) == lookup_view(u, t, other),
    decreases t,
{
    let v = insert_item(u, s, key, item);
    if t < u.len() {
        assert(v[t as int].items.contains_key(other) == u[t as int].items.contains_key(other));
        if !u[t as int].items.contains_key(other) {
            if let Some(p) = u[t as int].parent {
                if p < t {
                    law_insert_keeps_other_lookups(u, s, key, item, p, other);
                }
            }
        }
    }
}

/// Adding a scope changes no lookup from the scopes that were there.
pub proof fn law_add_scope_keeps_lookups<Item>(u: Seq<ScopeView<Item>>, parent: nat, t: nat, key: Seq<char>)
    requires
        t < u.len(),
    ensures
        lookup_view(add_scope(u, parent), t, key) == lookup_view(u, t, key),
    decreases t,
{
    let v = add_scope(u, parent);
    assert(v[t as int] == u[t as int]);
    if !u[t as int].items.contains_key(key) {
        if let Some(p) = u[t as int].parent {
            if p < t {
                law_add_scope_keeps_lookups(u, parent, p, key);
            }
        }
    }
}

/// A new scope sees what its parent sees.
pub proof fn law_subscope_inherits<Item>(u: Seq<ScopeView<Item>>, parent: nat, key: Seq<char>)
    requires
        parent < u.len(),
    ensures
        lookup_view(add_scope(u, parent), u.len(), key) == lookup_view(u, parent, key),
{
    law_add_scope_keeps_lookups(u, parent, parent, key);
}

/// A name declared in a new scope shadows the parent's: lookups from the new
/// scope find the new item, lookups from the parent still find the old one.
pub proof fn law_shadowing<Item>(u: Seq<ScopeView<Item>>, parent: nat, key: Seq<char>, item: Item)
    requires
        parent < u.len(),
    ensures
        lookup_view(insert_item(add_scope(u, parent), u.len(), key, item), u.len(), key) == Some(item),
        lookup_view(insert_item(add_scope(u, parent), u.len(), key, item), parent, key) == lookup_view(
            u,
            parent,
            key,
        ),
{
    let v = add_scope(u, parent);
    law_add_scope_keeps_lookups(u, parent, parent, key);
    lemma_lookup_ignores_later(v, u.len() as nat, key, item, parent);
}

proof fn lemma_lookup_ignores_later<Item>(u: Seq<ScopeView<Item>>, s: nat, key: Seq<char>, item: Item, t: nat)
    requires
        s < u.len(),
        t < s,
    ensures
        lookup_view(insert_item(u, s, key, item), t, key) == lookup_view(u, t, key),
    decreases t,
{
    let v = insert_item(u, s, key, item);
    assert(v[t as int] == u[t as int]);
    if !u[t as int].items.contains_key(key) {
        if let Some(p) = u[t as int].parent {
            if p < t {
                lemma_lookup_ignores_later(u, s, key, item, p);
            }
        }
    }
}

/// After `map`, a lookup finds an item exactly where it found one before, and
/// the item found is a result of `f` on the one found before.
pub proof fn law_map_lookup<Item, Item2, F: Fn(Item) -> Item2>(
    a: Seq<ScopeView<Item>>,
    b: Seq<ScopeView<Item2>>,
    f: F,
    s: nat,
    key: Seq<char>,
)
    requires
        mapped_view(a, b, f),
    ensures
        lookup_view(b, s, key) is Some <==> lookup_view(a, s, key) is Some,
        lookup_view(a, s, key) is Some ==> f.ensures((lookup_view(a, s, key)->0,), lookup_view(b, s, key)->0),
    decreases s,
{
    if s < a.len() {
        assert(b[s as int].items.dom() == a[s as int].items.dom());
        assert(b[s as int].items.contains_key(key) == a[s as int].items.contains_key(key));
        if a[s as int].items.contains_key(key) {
        } else {
            if let Some(p) = a[s as int].parent {
                if p < s {
                    law_map_lookup(a, b, f, p, key);
                }
            }
        }
    }
}

/// `u` with every item replaced by `f` of it.
pub open spec fn map_scopes<A, B>(u: Seq<ScopeView<A>>, f: spec_fn(A) -> B) -> Seq<ScopeView<B>> {
    Seq::new(u.len(), |i: int| ScopeView { parent: u[i].parent, items: u[i].items.map_values(f) })
}

pub proof fn lemma_map_scopes_lookup<A, B>(u: Seq<ScopeView<A>>, f: spec_fn(A) -> B, s: nat, key: Seq<char>)
    ensures
        lookup_view(map_scopes(u, f), s, key) == match lookup_view(u, s, key) {
            Some(it) => Some(f(it)),
            None => None,
        },
        defining_scope(map_scopes(u, f), s, key) == defining_scope(u, s, key),
    decreases s,
{
    let v = map_scopes(u, f);
    if s < u.len() {
        assert(v[s as int].items.contains_key(key) == u[s as int].items.contains_key(key));
        if !u[s as int].items.contains_key(key) {
            if let Some(p) = u[s as int].parent {
                if p < s {
                    lemma_map_scopes_lookup(u, f, p, key);
                }
            }
        }
    }
}

pub proof fn lemma_map_scopes_insert<A, B>(u: Seq<ScopeView<A>>, f: spec_fn(A) -> B, d: nat, key: Seq<char>, item: A)
    requires
        d < u.len(),
    ensures
        map_scopes(insert_item(u, d, key, item), f) == insert_item(map_scopes(u, f), d, key, f(item)),
{
    let a = map_scopes(insert_item(u, d, key, item), f);
    let b = insert_item(map_scopes(u, f), d, key, f(item));
    assert forall|i: int| 0 <= i < a.len() implies a[i] == b[i] by {
        if i == d {
            assert(a[i].items =~= b[i].items);
        }
    }
    assert(a =~= b);
}

/// A read handle on one scope of a universe.
pub struct ScopeRef<'a, Item> {
    pub universe: &'a Universe<Item>,
    pub scope: ScopeId,
}

/// A write handle on one scope of a universe.
pub struct ScopeRefMut<'a, Item> {
    pub universe: &'a mut Universe<Item>,
    pub scope: ScopeId,
}

impl<'a, Item> ScopeRef<'a, Item> {
    /// Looks `key` up in this scope, then in its ancestors.
    pub fn lookup(&self, key: &str) -> (r: Option<&Item>)
        requires
            self.universe.wf(),
            self.universe.valid(self.scope),
        ensures
            match r {
                Some(x) => self.universe.lookup_spec(self.scope, key@) == Some(*x),
                None => self.universe.lookup_spec(self.scope, key@) is None,
            },
    {
        self.universe.scope_lookup(self.scope, key)
    }
}

impl<'a, Item> ScopeRefMut<'a, Item> {
    /// Looks `key` up in this scope, then in its ancestors.
    pub fn lookup(&self, key: &str) -> (r: Option<&Item>)
        requires
            self.universe.wf(),
            self.universe.valid(self.scope),
        ensures
            match r {
                Some(x) => old(self.universe).lookup_spec(self.scope, key@) == Some(*x),
                None => old(self.universe).lookup_spec(self.scope, key@) is None,
            },
    {
        self.universe.scope_lookup(self.scope, key)
    }

    /// Replaces the item a lookup of `key` finds by what `f` computes from it.
    pub fn lookup_and_modify<F: FnOnce(&Item) -> Item>(&mut self, key: &str, f: F) -> (r: bool)
        requires
            old(self).universe.wf(),
            old(self).universe.valid(old(self).scope),
            match defining_scope(old(self).universe@, old(self).scope.idx(), key@) {
                Some(d) => f.requires((&old(self).universe@[d as int].items[key@],)),
                None => true,
            },
        ensures
            final(self).scope == old(self).scope,
            *final(final(self).universe) == *final(old(self).universe),
            final(self).universe.wf(),
            r == old(self).universe.lookup_spec(old(self).scope, key@) is Some,
            match defining_scope(old(self).universe@, old(self).scope.idx(), key@) {
                Some(d) => exists|v: Item|
                    {
                        &&& f.ensures((&old(self).universe@[d as int].items[key@],), v)
                        &&& final(self).universe@ == old(self).universe@.update(
                            d as int,
                            ScopeView {
                                parent: old(self).universe@[d as int].parent,
                                items: old(self).universe@[d as int].items.insert(key@, v),
                            },
                        )
                    },
                None => *final(self).universe == *old(self).universe,
            },
    {
        let s = self.scope;
        self.universe.scope_lookup_and_modify(s, key, f)
    }

    /// Creates an empty child scope of this scope.
    pub fn new_subscope(&mut self) -> (r: ScopeId)
        requires
            old(self).universe.wf(),
            old(self).universe.valid(old(self).scope),
        ensures
            final(self).scope == old(self).scope,
            *final(final(self).universe) == *final(old(self).universe),
            final(self).universe.wf(),
            r.idx() == old(self).universe@.len(),
            final(self).universe@ == old(self).universe@.push(
                ScopeView { parent: Some(old(self).scope.idx()), items: Map::empty() },
            ),
    {
        let s = self.scope;
        self.universe.new_scope(s)
    }

    /// Declares `key` as `item` in this scope.
    pub fn insert(&mut self, key: String, item: Item)
        requires
            old(self).universe.wf(),
            old(self).universe.valid(old(self).scope),
        ensures
            final(self).scope == old(self).scope,
            *final(final(self).universe) == *final(old(self).universe),
            final(self).universe.wf(),
            final(self).universe@ == old(self).universe@.update(
                old(self).scope.idx() as int,
                ScopeView {
                    parent: old(self).universe@[old(self).scope.idx() as int].parent,
                    items: old(self).universe@[old(self).scope.idx() as int].items.insert(key@, item),
                },
            ),
    {
        let s = self.scope;
        self.universe.scope_insert(s, key, item)
    }
}

} // verus!
