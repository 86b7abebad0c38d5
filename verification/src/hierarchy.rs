//! The class hierarchy query: ancestors found by walking parent names
//! upwards, and the immediate children found in one pass over the index.

use crate::cache::{entry_views, lemma_member_located, CacheData, Located};
use crate::query::QueryEngine;
use crate::symbol::{is_type_kind, Symbol};
use crate::text::{contains_str, texts};
use vstd::prelude::*;

verus! {

/// A type by name, with the file that declares it and the line where its
/// declaration starts.
#[derive(Debug)]
pub struct ClassRef {
    pub name: String,
    pub file: String,
    pub line: u32,
}

/// The mathematical content of a `ClassRef`.
pub struct RefView {
    pub name: Seq<char>,
    pub file: Seq<char>,
    pub line: u32,
}

impl View for ClassRef {
    type V = RefView;

    open spec fn view(&self) -> RefView {
        RefView { name: self.name@, file: self.file@, line: self.line }
    }
}

/// The contents of a list of type references.
pub open spec fn ref_views(v: Seq<ClassRef>) -> Seq<RefView> {
    v.map_values(|r: ClassRef| r@)
}

/// The names of a list of type references.
pub open spec fn ref_names(v: Seq<RefView>) -> Seq<Seq<char>> {
    v.map_values(|r: RefView| r.name)
}

/// A type with its ancestors and its immediate children.
#[derive(Debug)]
pub struct ClassHierarchy {
    pub class: String,
    pub file: String,
    pub parents: Vec<ClassRef>,
    pub children: Vec<ClassRef>,
}

/// The mathematical content of a `ClassHierarchy`.
pub struct HierarchyView {
    pub class: Seq<char>,
    pub file: Seq<char>,
    pub parents: Seq<RefView>,
    pub children: Seq<RefView>,
}

impl View for ClassHierarchy {
    type V = HierarchyView;

    open spec fn view(&self) -> HierarchyView {
        HierarchyView {
            class: self.class@,
            file: self.file@,
            parents: ref_views(self.parents@),
            children: ref_views(self.children@),
        }
    }
}

/// Why a hierarchy query gave no hierarchy.
#[derive(Debug)]
pub enum QueryError {
    /// The index declares no type of this name.
    ClassNotFound(String),
}

/// Whether a symbol declares a type called `name`.
pub open spec fn declares(s: Symbol, name: Seq<char>) -> bool {
    is_type_kind(s.kind) && s.name@ == name
}

/// The first symbol of a list that declares a type called `name`.
pub open spec fn first_type_named(symbols: Seq<Symbol>, name: Seq<char>) -> Option<Symbol>
    decreases symbols.len(),
{
    if symbols.len() == 0 {
        None
    } else if declares(symbols[0], name) {
        Some(symbols[0])
    } else {
        first_type_named(symbols.drop_first(), name)
    }
}

/// Whatever `first_type_named` finds is a member of the list and declares
/// the name.
pub proof fn lemma_first_type_named(symbols: Seq<Symbol>, name: Seq<char>)
    ensures
        match first_type_named(symbols, name) {
            Some(s) => symbols.contains(s) && declares(s, name),
            None => forall|i: int| 0 <= i < symbols.len() ==> !declares(#[trigger] symbols[i], name),
        },
    decreases symbols.len(),
{
    if symbols.len() > 0 {
        if declares(symbols[0], name) {
            assert(symbols.contains(symbols[0]));
        } else {
            let rest = symbols.drop_first();
            lemma_first_type_named(rest, name);
            match first_type_named(rest, name) {
                Some(s) => {
                    let i = rest.index_of(s);
                    assert(symbols[i + 1] == s);
                },
                None => {
                    assert forall|i: int| 0 <= i < symbols.len() implies !declares(
                        #[trigger] symbols[i],
                        name,
                    ) by {
                        if i > 0 {
                            assert(rest[i - 1] == symbols[i]);
                        }
                    }
                },
            }
        }
    }
}

impl CacheData {
    /// The file that the class map gives for `name`.
    pub open spec fn class_file(&self, name: Seq<char>) -> Option<Seq<char>> {
        if self.class_map.has(name) {
            Some(self.class_map.value_of(name)@)
        } else {
            None
        }
    }

    /// The declaration of `name` in the indexed file `file`.
    pub open spec fn class_symbol_in(&self, name: Seq<char>, file: Seq<char>) -> Option<Symbol> {
        if self.index.has(file) {
            first_type_named(self.index.value_of(file).symbols@, name)
        } else {
            None
        }
    }

    /// The declaration that `name` resolves to: the one in the file that the
    /// class map gives for it.
    pub open spec fn class_symbol(&self, name: Seq<char>) -> Option<Symbol> {
        match self.class_file(name) {
            Some(file) => self.class_symbol_in(name, file),
            None => None,
        }
    }

    /// The declaration of `name` in the indexed file `file`, if there is one.
    pub fn find_class_symbol_in_file(&self, name: &str, file: &str) -> (r: Option<&Symbol>)
        ensures
            match r {
                Some(s) => self.class_symbol_in(name@, file@) == Some(*s),
                None => self.class_symbol_in(name@, file@) is None,
            },
    {
        match self.index.get(file) {
            None => None,
            Some(fi) => {
                let mut i: usize = 0;
                proof {
                    assert(fi.symbols@.skip(0) =~= fi.symbols@);
                }
                while i < fi.symbols.len()
                    invariant
                        i <= fi.symbols.len(),
                        self.index.has(file@),
                        *fi == self.index.value_of(file@),
                        first_type_named(fi.symbols@, name@) == first_type_named(
                            fi.symbols@.skip(i as int),
                            name@,
                        ),
                    decreases fi.symbols.len() - i,
                {
                    let s = &fi.symbols[i];
                    proof {
                        assert(fi.symbols@.skip(i as int)[0] == *s);
                        assert(fi.symbols@.skip(i as int).drop_first() =~= fi.symbols@.skip(i + 1));
                    }
                    if s.kind.is_type() && s.name.as_str().eq(name) {
                        return Some(s);
                    }
                    i += 1;
                }
                None
            },
        }
    }

    /// The declaration that `name` resolves to, with its file.
    pub fn find_class_symbol(&self, name: &str) -> (r: Option<(&String, &Symbol)>)
        ensures
            match r {
                Some((file, s)) => self.class_file(name@) == Some(file@) && self.class_symbol(name@)
                    == Some(*s),
                None => self.class_symbol(name@) is None,
            },
    {
        match self.class_map.get(name) {
            None => None,
            Some(file) => match self.find_class_symbol_in_file(name, file.as_str()) {
                Some(s) => Some((file, s)),
                None => None,
            },
        }
    }
}

/// The state of the walk towards the ancestors.
pub struct Climb {
    /// The ancestors found so far.
    pub parents: Seq<RefView>,
    /// The names that have been taken from the queue and handled.
    pub visited: Seq<Seq<char>>,
    /// The names still to handle, first in first out.
    pub queue: Seq<Seq<char>>,
}

/// How many of `keys` are not among `visited`.
pub open spec fn unvisited_count(keys: Seq<Seq<char>>, visited: Seq<Seq<char>>) -> nat
    decreases keys.len(),
{
    if keys.len() == 0 {
        0
    } else {
        unvisited_count(keys.drop_last(), visited) + if visited.contains(keys.last()) {
            0nat
        } else {
            1nat
        }
    }
}

/// Visiting one more name never raises the count of unvisited keys, and
/// lowers it where the name is an unvisited key.
pub proof fn lemma_unvisited_count_push(keys: Seq<Seq<char>>, visited: Seq<Seq<char>>, name: Seq<char>)
    ensures
        unvisited_count(keys, visited.push(name)) <= unvisited_count(keys, visited),
        keys.contains(name) && !visited.contains(name) ==> unvisited_count(
            keys,
            visited.push(name),
        ) < unvisited_count(keys, visited),
    decreases keys.len(),
{
    if keys.len() > 0 {
        let rest = keys.drop_last();
        let last = keys.last();
        lemma_unvisited_count_push(rest, visited, name);
        let more = visited.push(name);
        assert(more[visited.len() as int] == name);
        if visited.contains(last) {
            let i = visited.index_of(last);
            assert(more[i] == last);
        }
        if more.contains(last) && !visited.contains(last) {
            let i = more.index_of(last);
            if i < visited.len() {
                assert(visited[i] == last);
            }
            assert(last == name);
        }
        if keys.contains(name) && !visited.contains(name) {
            if last != name {
                let i = keys.index_of(name);
                assert(rest[i] == name);
            }
        }
    }
}

/// The parent names of a declaration that have not been visited, in order.
pub open spec fn fresh_parents(s: Symbol, visited: Seq<Seq<char>>) -> Seq<Seq<char>> {
    texts(s.parent_classes@).filter(|p: Seq<char>| !visited.contains(p))
}

/// The walk after the first name of the queue has been handled. A name
/// visited before is dropped. A new name is marked; where it resolves to a
/// declaration it is recorded as an ancestor, unless it is the name the walk
/// started from, and its unvisited parents join the queue.
pub open spec fn climb_step(cache: CacheData, start: Seq<char>, c: Climb) -> Climb
    recommends
        c.queue.len() > 0,
{
    let current = c.queue[0];
    let rest = c.queue.drop_first();
    if c.visited.contains(current) {
        Climb { parents: c.parents, visited: c.visited, queue: rest }
    } else {
        let visited = c.visited.push(current);
        match cache.class_file(current) {
            None => Climb { parents: c.parents, visited, queue: rest },
            Some(file) => match cache.class_symbol_in(current, file) {
                None => Climb { parents: c.parents, visited, queue: rest },
                Some(s) => Climb {
                    parents: if current != start {
                        c.parents.push(RefView { name: current, file, line: s.start_line })
                    } else {
                        c.parents
                    },
                    visited,
                    queue: rest + fresh_parents(s, visited),
                },
            },
        }
    }
}

/// Every step handles an unvisited type of the class map, or else shortens
/// the queue without adding to the visited types of the class map.
pub proof fn lemma_climb_step_decreases(cache: CacheData, start: Seq<char>, c: Climb)
    requires
        c.queue.len() > 0,
    ensures
        ({
            let next = climb_step(cache, start, c);
            let keys = cache.class_map.keys();
            unvisited_count(keys, next.visited) < unvisited_count(keys, c.visited) || (
            unvisited_count(keys, next.visited) == unvisited_count(keys, c.visited)
                && next.queue.len() < c.queue.len())
        }),
{
    let current = c.queue[0];
    lemma_unvisited_count_push(cache.class_map.keys(), c.visited, current);
}

/// The ancestors found when the walk is run until its queue is empty.
pub open spec fn climb(cache: CacheData, start: Seq<char>, c: Climb) -> Seq<RefView>
    decreases unvisited_count(cache.class_map.keys(), c.visited), c.queue.len(),
{
    if c.queue.len() == 0 {
        c.parents
    } else {
        proof {
            lemma_climb_step_decreases(cache, start, c);
        }
        climb(cache, start, climb_step(cache, start, c))
    }
}

/// The ancestors of `name`: every type reached by following parent names
/// upwards through declarations that the class map resolves, each once, in
/// breadth-first order, without `name` itself.
pub open spec fn parents_of(cache: CacheData, name: Seq<char>) -> Seq<RefView> {
    climb(cache, name, Climb { parents: Seq::empty(), visited: Seq::empty(), queue: seq![name] })
}

/// The reference under which a located symbol is listed as a child of
/// `name`, if it is a type that names `name` among its parents.
pub open spec fn child_ref(e: Located, name: Seq<char>) -> Option<RefView> {
    if is_type_kind(e.symbol.kind) && texts(e.symbol.parent_classes@).contains(name) {
        Some(RefView { name: e.symbol.name@, file: e.file, line: e.symbol.start_line })
    } else {
        None
    }
}

/// The immediate children of `name`: every type symbol of the index that
/// names `name` among its parents, in the order of the index.
pub open spec fn children_of(cache: CacheData, name: Seq<char>) -> Seq<RefView> {
    cache.located().filter_map(|e: Located| child_ref(e, name))
}

/// The hierarchy of `name`; none where `name` resolves to no declaration.
pub open spec fn hierarchy_of(cache: CacheData, name: Seq<char>) -> Option<HierarchyView> {
    if cache.class_symbol(name) is Some {
        Some(
            HierarchyView {
                class: name,
                file: cache.class_file(name)->0,
                parents: parents_of(cache, name),
                children: children_of(cache, name),
            },
        )
    } else {
        None
    }
}

/// An ancestor found once stays in the list to the end of the walk.
pub proof fn lemma_climb_keeps(cache: CacheData, start: Seq<char>, c: Climb, r: RefView)
    requires
        c.parents.contains(r),
    ensures
        climb(cache, start, c).contains(r),
    decreases unvisited_count(cache.class_map.keys(), c.visited), c.queue.len(),
{
    if c.queue.len() > 0 {
        lemma_climb_step_decreases(cache, start, c);
        let next = climb_step(cache, start, c);
        let i = c.parents.index_of(r);
        assert(next.parents[i] == r);
        lemma_climb_keeps(cache, start, next, r);
    }
}

/// Whether every visited name that resolves to a declaration, the starting
/// name aside, is recorded as an ancestor.
pub open spec fn climb_recorded(cache: CacheData, start: Seq<char>, c: Climb) -> bool {
    forall|n: Seq<char>|
        #![trigger c.visited.contains(n)]
        c.visited.contains(n) && n != start && cache.class_symbol(n) is Some ==> ref_names(
            c.parents,
        ).contains(n)
}

/// A name that resolves to a declaration and is queued or visited, the
/// starting name aside, is among the ancestors at the end of the walk.
pub proof fn lemma_climb_emits(cache: CacheData, start: Seq<char>, c: Climb, a: Seq<char>)
    requires
        a != start,
        cache.class_symbol(a) is Some,
        climb_recorded(cache, start, c),
        c.queue.contains(a) || c.visited.contains(a),
    ensures
        ref_names(climb(cache, start, c)).contains(a),
    decreases unvisited_count(cache.class_map.keys(), c.visited), c.queue.len(),
{
    if c.queue.len() > 0 {
        lemma_climb_step_decreases(cache, start, c);
        let next = climb_step(cache, start, c);
        let current = c.queue[0];
        let rest = c.queue.drop_first();
        // every ancestor recorded before is recorded after
        assert forall|n: Seq<char>| ref_names(c.parents).contains(n) implies ref_names(
            next.parents,
        ).contains(n) by {
            let i = ref_names(c.parents).index_of(n);
            assert(next.parents[i] == c.parents[i]);
            assert(ref_names(next.parents)[i] == n);
        }
        // every name visited before is visited after
        assert forall|n: Seq<char>| c.visited.contains(n) implies next.visited.contains(n) by {
            let i = c.visited.index_of(n);
            assert(next.visited[i] == n);
        }
        assert forall|n: Seq<char>|
            #![trigger next.visited.contains(n)]
            next.visited.contains(n) && n != start && cache.class_symbol(n) is Some implies ref_names(
                next.parents,
            ).contains(n) by {
            if !c.visited.contains(n) {
                let i = next.visited.index_of(n);
                assert(next.visited[i] == n);
                if i < c.visited.len() {
                    assert(c.visited[i] == n);
                }
                assert(n == current);
                let file = cache.class_file(current)->0;
                let sym = cache.class_symbol_in(current, file)->0;
                let r = RefView { name: current, file, line: sym.start_line };
                assert(next.parents == c.parents.push(r));
                assert(ref_names(next.parents)[c.parents.len() as int] == n);
            }
        }
        if !c.visited.contains(a) {
            let i = c.queue.index_of(a);
            if i == 0 {
                if !c.visited.contains(current) {
                    assert(next.visited[c.visited.len() as int] == a);
                }
            } else {
                assert(rest[i - 1] == a);
                assert(next.queue[i - 1] == a);
            }
        }
        lemma_climb_emits(cache, start, next, a);
    } else {
        assert(c.visited.contains(a));
    }
}

/// A located symbol that is a child of `name` is listed among the children.
pub proof fn lemma_child_listed(entries: Seq<Located>, name: Seq<char>, e: Located)
    requires
        entries.contains(e),
        child_ref(e, name) is Some,
    ensures
        entries.filter_map(|x: Located| child_ref(x, name)).contains(child_ref(e, name)->0),
    decreases entries.len(),
{
    let f = |x: Located| child_ref(x, name);
    let r = child_ref(e, name)->0;
    let rest = entries.drop_last();
    if entries.last() == e {
        let out = rest.filter_map(f) + seq![r];
        assert(out[rest.filter_map(f).len() as int] == r);
    } else {
        let i = entries.index_of(e);
        assert(rest[i] == e);
        lemma_child_listed(rest, name, e);
        let j = rest.filter_map(f).index_of(r);
        match f(entries.last()) {
            Some(x) => {
                assert((rest.filter_map(f) + seq![x])[j] == r);
            },
            None => {},
        }
    }
}

/// Hierarchy symmetry. Let the declaration that `b` resolves to name `a`
/// among its parents, let `a` resolve to a declaration too, and let the two
/// names differ. Then `a` is among the ancestors of `b`, and `b` is among
/// the children of `a`.
pub proof fn lemma_hierarchy_symmetry(cache: CacheData, a: Seq<char>, b: Seq<char>)
    requires
        a != b,
        cache.class_symbol(a) is Some,
        cache.class_symbol(b) is Some,
        texts(cache.class_symbol(b)->0.parent_classes@).contains(a),
    ensures
        ref_names(parents_of(cache, b)).contains(a),
        ref_names(children_of(cache, a)).contains(b),
{
    let file = cache.class_file(b)->0;
    let sym = cache.class_symbol(b)->0;
    // upwards
    let c0 = Climb { parents: Seq::empty(), visited: Seq::empty(), queue: seq![b] };
    lemma_climb_step_decreases(cache, b, c0);
    let c1 = climb_step(cache, b, c0);
    assert(c0.queue[0] == b);
    assert(c1.visited == Seq::<Seq<char>>::empty().push(b));
    assert(c1.parents == c0.parents);
    let pred = |p: Seq<char>| !c1.visited.contains(p);
    assert forall|n: Seq<char>| c1.visited.contains(n) implies n == b by {
        let i = c1.visited.index_of(n);
        assert(c1.visited[i] == n);
    }
    assert(pred(a));
    let ps = texts(sym.parent_classes@);
    let i = ps.index_of(a);
    ps.lemma_filter_contains(pred, i);
    assert(fresh_parents(sym, c1.visited).contains(a));
    let k = fresh_parents(sym, c1.visited).index_of(a);
    assert(c1.queue[c0.queue.drop_first().len() + k] == a);
    assert(climb_recorded(cache, b, c1));
    lemma_climb_emits(cache, b, c1, a);
    // downwards
    cache.index.lemma_same_len();
    lemma_first_type_named(cache.index.value_of(file).symbols@, b);
    let keys = cache.index.keys();
    let files = cache.index.values();
    let fi = keys.index_of(file);
    assert(0 <= fi < keys.len() && keys[fi] == file);
    let j = files[fi].symbols@.index_of(sym);
    assert(files[fi].symbols@[j] == sym);
    lemma_member_located(keys, files, fi, j);
    let e = Located { file, symbol: sym };
    lemma_child_listed(cache.located(), a, e);
    let kids = children_of(cache, a);
    let r = child_ref(e, a)->0;
    let m = kids.index_of(r);
    assert(kids[m] == r);
    assert(ref_names(kids)[m] == b);
}

/// The unvisited ones among `parents`, in order.
fn select_fresh(parents: &Vec<String>, visited: &Vec<String>) -> (r: Vec<String>)
    ensures
        texts(r@) == texts(parents@).filter(|p: Seq<char>| !texts(visited@).contains(p)),
{
    let ghost pred = |p: Seq<char>| !texts(visited@).contains(p);
    let mut r: Vec<String> = Vec::new();
    let mut i: usize = 0;
    proof {
        assert(texts(parents@).take(0) =~= Seq::empty());
        assert(texts(r@) =~= Seq::<Seq<char>>::empty().filter(pred)) by {
            reveal(Seq::filter);
        }
    }
    while i < parents.len()
        invariant
            i <= parents.len(),
            pred == (|p: Seq<char>| !texts(visited@).contains(p)),
            texts(r@) == texts(parents@).take(i as int).filter(pred),
        decreases parents.len() - i,
    {
        let p = &parents[i];
        let ghost before = texts(r@);
        proof {
            assert(texts(parents@).take(i as int).push(p@) =~= texts(parents@).take(i + 1));
            texts(parents@).take(i as int).lemma_filter_push(p@, pred);
        }
        if !contains_str(visited, p.as_str()) {
            r.push(p.clone());
            proof {
                assert(texts(r@) =~= before.push(p@));
            }
        }
        i += 1;
    }
    proof {
        assert(texts(parents@).take(parents.len() as int) =~= texts(parents@));
    }
    r
}

impl QueryEngine {
    /// The ancestors of `class_name`.
    fn collect_parents(&self, class_name: &str) -> (parents: Vec<ClassRef>)
        ensures
            ref_views(parents@) == parents_of(self.cache, class_name@),
    {
        let mut parents: Vec<ClassRef> = Vec::new();
        let mut visited: Vec<String> = Vec::new();
        let mut queue: Vec<String> = Vec::new();
        queue.push(class_name.to_string());
        proof {
            assert(ref_views(parents@) =~= Seq::empty());
            assert(texts(visited@) =~= Seq::empty());
            assert(texts(queue@) =~= seq![class_name@]);
        }
        while queue.len() > 0
            invariant
                climb(
                    self.cache,
                    class_name@,
                    Climb {
                        parents: ref_views(parents@),
                        visited: texts(visited@),
                        queue: texts(queue@),
                    },
                ) == parents_of(self.cache, class_name@),
            decreases unvisited_count(self.cache.class_map.keys(), texts(visited@)), queue.len(),
        {
            let ghost before = Climb {
                parents: ref_views(parents@),
                visited: texts(visited@),
                queue: texts(queue@),
            };
            proof {
                lemma_climb_step_decreases(self.cache, class_name@, before);
            }
            let current = queue.remove(0);
            proof {
                assert(texts(queue@) =~= before.queue.drop_first());
                assert(current@ == before.queue[0]);
            }
            if !contains_str(&visited, current.as_str()) {
                visited.push(current.clone());
                proof {
                    assert(texts(visited@) =~= before.visited.push(current@));
                }
                match self.cache.class_map.get(current.as_str()) {
                    None => {},
                    Some(file) => {
                        match self.cache.find_class_symbol_in_file(current.as_str(), file.as_str()) {
                            None => {},
                            Some(s) => {
                                if !current.as_str().eq(class_name) {
                                    let r = ClassRef {
                                        name: current.clone(),
                                        file: file.clone(),
                                        line: s.start_line,
                                    };
                                    parents.push(r);
                                    proof {
                                        assert(ref_views(parents@) =~= before.parents.push(r@));
                                    }
                                }
                                let mut fresh = select_fresh(&s.parent_classes, &visited);
                                let ghost fresh_view = texts(fresh@);
                                let ghost queue_view = texts(queue@);
                                queue.append(&mut fresh);
                                proof {
                                    assert(texts(queue@) =~= queue_view + fresh_view);
                                }
                            },
                        }
                    },
                }
            }
            proof {
                let after = Climb {
                    parents: ref_views(parents@),
                    visited: texts(visited@),
                    queue: texts(queue@),
                };
                assert(after == climb_step(self.cache, class_name@, before));
            }
        }
        parents
    }

    /// The immediate children of `class_name`.
    fn collect_children(&self, class_name: &str) -> (children: Vec<ClassRef>)
        ensures
            ref_views(children@) == children_of(self.cache, class_name@),
    {
        let all = self.cache.entries();
        let ghost f = |e: Located| child_ref(e, class_name@);
        let mut children: Vec<ClassRef> = Vec::new();
        let mut i: usize = 0;
        proof {
            assert(entry_views(all@).take(0) =~= Seq::empty());
            assert(ref_views(children@) =~= Seq::empty());
        }
        while i < all.len()
            invariant
                i <= all.len(),
                f == (|e: Located| child_ref(e, class_name@)),
                ref_views(children@) == entry_views(all@).take(i as int).filter_map(f),
            decreases all.len() - i,
        {
            let file = all[i].0;
            let s = all[i].1;
            let ghost before = ref_views(children@);
            proof {
                entry_views(all@).lemma_filter_map_take_succ(f, i as int);
                assert(entry_views(all@)[i as int] == (Located { file: file@, symbol: *s }));
            }
            if s.kind.is_type() && contains_str(&s.parent_classes, class_name) {
                let r = ClassRef { name: s.name.clone(), file: file.clone(), line: s.start_line };
                children.push(r);
                proof {
                    assert(ref_views(children@) =~= before + seq![r@]);
                }
            } else {
                proof {
                    assert(before + Seq::<RefView>::empty() =~= before);
                }
            }
            i += 1;
        }
        proof {
            assert(entry_views(all@).take(all.len() as int) =~= entry_views(all@));
        }
        children
    }

    /// The hierarchy of `class_name`: its ancestors, breadth first, and its
    /// immediate children. Fails exactly when the name resolves to no
    /// declaration of the index.
    pub fn get_class_hierarchy(&self, class_name: &str) -> (r: Result<ClassHierarchy, QueryError>)
        ensures
            match r {
                Ok(h) => hierarchy_of(self.cache, class_name@) == Some(h@)
                    && crate::ancestry::parents_ok(self.cache, class_name@, h@.parents),
                Err(QueryError::ClassNotFound(n)) => hierarchy_of(self.cache, class_name@) is None
                    && n@ == class_name@,
            },
    {
        proof {
            crate::ancestry::lemma_parents_reach(self.cache, class_name@);
        }
        match self.cache.find_class_symbol(class_name) {
            None => Err(QueryError::ClassNotFound(class_name.to_string())),
            Some((file, _symbol)) => {
                let parents = self.collect_parents(class_name);
                let children = self.collect_children(class_name);
                Ok(
                    ClassHierarchy {
                        class: class_name.to_string(),
                        file: file.clone(),
                        parents,
                        children,
                    },
                )
            },
        }
    }
}

} // verus!
