//! Where a dependency cycle is found whatever the rest of the manifest
//! holds.
//!
//! The walk of a manifest reads the dependencies of a package in order,
//! and stops at the first that cannot be built. So a cycle is found as
//! soon as the walk comes to it, if only what stands before it on the way
//! has no defect: the packages that lead to the cycle must have readable
//! names and lists, and the dependencies that are listed before the one
//! that leads on must be without defect in all that they reach. What is
//! listed behind is never read.

use vstd::prelude::*;
use crate::acyclic::{
    acyclic, cached, chain_ok, clean_deps, clean_object, depends_on, fields_ok, fresh_reads_clean,
    items_ok, items_read_clean, kept, lemma_chain_stays_built, lemma_collect_sound,
    lemma_deps_sound, lemma_object_sound, lemma_walk_fails_on_cycle_only, lists,
    object_reads_clean, only_cycle, path_free, sound,
};
use crate::builder::{
    build_object_spec, collect_spec, deps_spec, items_of, lemma_collect_err_stays, name_readable,
    roots_spec, start_state, BuildState,
};
use crate::error::MagErrorView;
use crate::manifest::{
    field_path, item_path, lookup_spec, root_path, Manifest, ManifestValue, Slot,
};
use crate::package::PackageView;
use crate::reader::lemma_field_value_ok;

verus! {

/// Every object that `o` reaches through dependencies, `o` itself too,
/// has no defect of its own.
pub open spec fn deep_clean(m: &Manifest, o: usize) -> bool {
    forall|chain: Seq<usize>|
        chain.len() > 0 && chain[0] == o && #[trigger] chain_ok(m, chain) ==> clean_object(
            m,
            chain.last() as int,
        )
}

/// The item is an object that is without defect in all that it reaches.
pub open spec fn deep_item(m: &Manifest, item: Slot) -> bool {
    match item {
        Slot::Value(ManifestValue::Obj(d)) => deep_clean(m, d),
        _ => false,
    }
}

/// The first `n` items are objects without defect in all that they reach.
pub open spec fn deep_items(m: &Manifest, items: Seq<Slot>, n: int) -> bool {
    forall|k: int| 0 <= k < n ==> deep_item(m, #[trigger] items[k])
}

/// An object without defect in all that it reaches has no defect of its
/// own, and what it depends on is without defect in all that it reaches.
pub proof fn lemma_deep_clean_step(m: &Manifest, o: usize, d: usize)
    requires
        deep_clean(m, o),
    ensures
        clean_object(m, o as int),
        depends_on(m, o, d) ==> deep_clean(m, d),
{
    let alone = seq![o];
    assert(chain_ok(m, alone));
    assert(alone.last() == o);
    if depends_on(m, o, d) {
        assert forall|chain: Seq<usize>|
            chain.len() > 0 && chain[0] == d && #[trigger] chain_ok(m, chain) implies clean_object(
            m,
            chain.last() as int,
        ) by {
            let longer = seq![o] + chain;
            assert forall|i: int| 0 <= i < longer.len() - 1 implies depends_on(
                m,
                #[trigger] longer[i],
                longer[i + 1],
            ) by {
                if i == 0 {
                    assert(longer[0] == o && longer[1] == chain[0]);
                } else {
                    assert(longer[i] == chain[i - 1] && longer[i + 1] == chain[i]);
                    assert(depends_on(m, chain[i - 1], chain[i]));
                }
            }
            assert(chain_ok(m, longer));
            assert(longer[0] == o);
            assert(longer.last() == chain.last());
        }
    }
}

/// The walk of an object without defect in all that it reaches reads no defect.
pub proof fn lemma_deep_object_reads(
    m: &Manifest,
    st: BuildState,
    obj: usize,
    path: Seq<usize>,
    at: Seq<char>,
)
    requires
        m.wf(),
        obj < m.objects@.len(),
        deep_clean(m, obj),
    ensures
        object_reads_clean(m, st, obj, path, at),
    decreases m.objects@.len() - path.len(), 0int, 0int,
{
    if st.cache[obj as int] is Some || path.contains(obj) || path.len() >= m.objects@.len() {
    } else {
        lemma_deep_fresh_reads(m, st, obj, path.push(obj), at);
    }
}

/// The walk of an entered object without defect in all that it reaches reads no defect.
pub proof fn lemma_deep_fresh_reads(
    m: &Manifest,
    st: BuildState,
    obj: usize,
    path: Seq<usize>,
    at: Seq<char>,
)
    requires
        m.wf(),
        obj < m.objects@.len(),
        deep_clean(m, obj),
    ensures
        fresh_reads_clean(m, st, obj, path, at),
    decreases m.objects@.len() - path.len(), 3int, 0int,
{
    let fields = m.objects@[obj as int]@;
    lemma_deep_clean_step(m, obj, obj);
    assert(crate::reader::read_name_spec(fields, at) is Ok);
    assert(crate::reader::read_build_spec(fields, at) is Ok);
    assert(crate::reader::read_fetch_spec(m, fields, at) is Ok);
    lemma_deep_deps_read(m, st, obj, "runDeps"@, path, at);
    let (st1, run) = deps_spec(m, st, fields, "runDeps"@, path, at);
    lemma_deep_deps_read(m, st1, obj, "buildDeps"@, path, at);
}

/// The items of a dependency list of an object without defect in all
/// that it reaches are objects of the same kind.
pub proof fn lemma_deep_list(m: &Manifest, obj: usize, field: Seq<char>)
    requires
        m.wf(),
        obj < m.objects@.len(),
        deep_clean(m, obj),
        field == "runDeps"@ || field == "buildDeps"@,
    ensures
        deep_items(
            m,
            items_of(m, m.objects@[obj as int]@, field),
            items_of(m, m.objects@[obj as int]@, field).len() as int,
        ),
        clean_deps(m, m.objects@[obj as int]@, field),
{
    let fields = m.objects@[obj as int]@;
    let items = items_of(m, fields, field);
    lemma_deep_clean_step(m, obj, obj);
    assert forall|k: int| 0 <= k < items.len() implies deep_item(m, #[trigger] items[k]) by {
        let d = items[k]->Value_0->Obj_0;
        assert(items[k] == Slot::Value(ManifestValue::Obj(d)));
        assert(lists(items, d));
        assert(depends_on(m, obj, d));
        lemma_deep_clean_step(m, obj, d);
    }
}

/// The walk of a dependency list of an object without defect in all that
/// it reaches reads no defect.
pub proof fn lemma_deep_deps_read(
    m: &Manifest,
    st: BuildState,
    obj: usize,
    field: Seq<char>,
    path: Seq<usize>,
    at: Seq<char>,
)
    requires
        m.wf(),
        obj < m.objects@.len(),
        deep_clean(m, obj),
        field == "runDeps"@ || field == "buildDeps"@,
    ensures
        crate::acyclic::deps_read_clean(m, st, m.objects@[obj as int]@, field, path, at),
    decreases m.objects@.len() - path.len(), 2int, 0int,
{
    let fields = m.objects@[obj as int]@;
    lemma_deep_list(m, obj, field);
    match lookup_spec(fields, field) {
        Some(Slot::Value(ManifestValue::Arr(a))) => {
            lemma_fields_ok(m, obj);
            lemma_field_value_ok(m, fields, field);
            let items = m.arrays@[a as int]@;
            lemma_items_ok(m, a);
            lemma_deep_items_read(m, st, items, path, field_path(at, field), items.len() as int);
        },
        _ => {},
    }
}

/// The fields of an object of a well-formed manifest name what the manifest holds.
pub proof fn lemma_fields_ok(m: &Manifest, obj: usize)
    requires
        m.wf(),
        obj < m.objects@.len(),
    ensures
        fields_ok(m, m.objects@[obj as int]@),
{
    let fields = m.objects@[obj as int]@;
    assert forall|k: int| 0 <= k < fields.len() implies m.slot_ok((#[trigger] fields[k]).slot) by {
        assert(m.slot_ok(m.objects@[obj as int]@[k].slot));
    }
}

/// The items of an array of a well-formed manifest name what the manifest holds.
pub proof fn lemma_items_ok(m: &Manifest, a: usize)
    requires
        m.wf(),
        a < m.arrays@.len(),
    ensures
        items_ok(m, m.arrays@[a as int]@),
{
    let items = m.arrays@[a as int]@;
    assert forall|k: int| 0 <= k < items.len() implies m.slot_ok(#[trigger] items[k]) by {
        assert(m.slot_ok(m.arrays@[a as int]@[k]));
    }
}

/// The walk of items that are without defect in all that they reach reads no defect.
pub proof fn lemma_deep_items_read(
    m: &Manifest,
    st: BuildState,
    items: Seq<Slot>,
    path: Seq<usize>,
    at: Seq<char>,
    n: int,
)
    requires
        m.wf(),
        items_ok(m, items),
        0 <= n <= items.len(),
        deep_items(m, items, n),
    ensures
        items_read_clean(m, st, items, path, at, n),
    decreases m.objects@.len() - path.len(), 1int, n,
{
    if n > 0 {
        lemma_deep_items_read(m, st, items, path, at, n - 1);
        let (st1, front) = collect_spec(m, st, items, path, at, n - 1);
        assert(deep_item(m, items[n - 1]));
        match items[n - 1] {
            Slot::Value(ManifestValue::Obj(o)) => {
                assert(m.slot_ok(items[n - 1]));
                lemma_deep_object_reads(m, st1, o, path, item_path(at, n - 1));
            },
            _ => {},
        }
    }
}

/// An object that leads to a cycle is not built: where a chain of
/// dependencies from it passes an object twice, or ends at an object that
/// is being built, its walk fails.
pub proof fn lemma_object_on_cycle_fails(
    m: &Manifest,
    st: BuildState,
    obj: usize,
    path: Seq<usize>,
    at: Seq<char>,
    chain: Seq<usize>,
)
    requires
        m.wf(),
        obj < m.objects@.len(),
        sound(m, st),
        path_free(st, path),
        chain.len() > 0,
        chain[0] == obj,
        chain_ok(m, chain),
        !chain.no_duplicates() || path.contains(chain.last()),
    ensures
        build_object_spec(m, st, obj, path, at).1 is Err,
{
    lemma_object_sound(m, st, obj, path, at);
    let (st1, r) = build_object_spec(m, st, obj, path, at);
    if r is Ok {
        assert(cached(st1, chain[0]));
        assert(acyclic(m, st1));
        assert(chain.no_duplicates());
        lemma_chain_stays_built(m, st1, chain, chain.len() - 1);
        let i = choose|i: int| 0 <= i < path.len() && path[i] == chain.last();
        assert(!cached(st1, path[i]));
    }
}

/// One step on the way to a cycle: the object, which of its two lists
/// leads on, and the index in that list of the dependency that leads on.
pub struct TrailStep {
    pub obj: usize,
    pub build_time: bool,
    pub index: int,
}

/// The dependency list `field` of the object `obj` can be read as a list.
pub open spec fn list_readable(m: &Manifest, obj: usize, field: Seq<char>) -> bool {
    match lookup_spec(m.objects@[obj as int]@, field) {
        None => true,
        Some(Slot::Value(ManifestValue::Null)) => true,
        Some(Slot::Value(ManifestValue::Arr(_))) => true,
        _ => false,
    }
}

/// The step leads on to `next`, and what the walk reads of its object
/// before it comes to `next` has no defect: the name and the lists can be
/// read, and the dependencies listed before `next` (all run-time ones,
/// where `next` is a build-time dependency) are without defect in all
/// that they reach.
pub open spec fn step_ok(m: &Manifest, s: TrailStep, next: usize) -> bool {
    let fields = m.objects@[s.obj as int]@;
    let run = items_of(m, fields, "runDeps"@);
    let bld = items_of(m, fields, "buildDeps"@);
    &&& s.obj < m.objects@.len()
    &&& name_readable(m, s.obj)
    &&& list_readable(m, s.obj, "runDeps"@)
    &&& if s.build_time {
        &&& deep_items(m, run, run.len() as int)
        &&& list_readable(m, s.obj, "buildDeps"@)
        &&& 0 <= s.index < bld.len()
        &&& deep_items(m, bld, s.index)
        &&& bld[s.index] == Slot::Value(ManifestValue::Obj(next))
    } else {
        &&& 0 <= s.index < run.len()
        &&& deep_items(m, run, s.index)
        &&& run[s.index] == Slot::Value(ManifestValue::Obj(next))
    }
}

/// The object that step `i` leads on to: that of the next step, or, from
/// the last step, `back`.
pub open spec fn leads_to(steps: Seq<TrailStep>, back: usize, i: int) -> usize {
    if i + 1 < steps.len() {
        steps[i + 1].obj
    } else {
        back
    }
}

/// The objects of the first `n` steps.
pub open spec fn objects_of(steps: Seq<TrailStep>, n: int) -> Seq<usize> {
    Seq::new(n as nat, |i: int| steps[i].obj)
}

/// The steps are a way into a cycle: each leads on to the next, the last
/// leads back to the object of one of them, and what the walk reads
/// before each step on has no defect.
pub open spec fn trail_ok(m: &Manifest, steps: Seq<TrailStep>, back: usize) -> bool {
    &&& steps.len() > 0
    &&& forall|i: int| 0 <= i < steps.len() ==> step_ok(m, #[trigger] steps[i], leads_to(steps, back, i))
    &&& exists|j: int| 0 <= j < steps.len() && (#[trigger] steps[j]).obj == back
}

/// The objects from step `i` on, and then `back`.
pub open spec fn rest_chain(steps: Seq<TrailStep>, back: usize, i: int) -> Seq<usize> {
    Seq::new((steps.len() - i + 1) as nat, |k: int| leads_to(steps, back, i + k - 1))
}

/// From step `i` on the objects depend on each other in turn.
pub proof fn lemma_rest_is_chain(m: &Manifest, steps: Seq<TrailStep>, back: usize, i: int)
    requires
        trail_ok(m, steps, back),
        0 < i <= steps.len(),
    ensures
        chain_ok(m, rest_chain(steps, back, i)),
        rest_chain(steps, back, i).len() == steps.len() - i + 1,
        rest_chain(steps, back, i)[0] == leads_to(steps, back, i - 1),
        rest_chain(steps, back, i).last() == back,
{
    let chain = rest_chain(steps, back, i);
    assert forall|k: int| 0 <= k < chain.len() - 1 implies depends_on(
        m,
        #[trigger] chain[k],
        chain[k + 1],
    ) by {
        let s = steps[i + k];
        assert(step_ok(m, s, leads_to(steps, back, i + k)));
        assert(chain[k] == s.obj);
        assert(chain[k + 1] == leads_to(steps, back, i + k));
        let fields = m.objects@[s.obj as int]@;
        if s.build_time {
            assert(lists(items_of(m, fields, "buildDeps"@), chain[k + 1]));
        } else {
            assert(lists(items_of(m, fields, "runDeps"@), chain[k + 1]));
        }
    }
}

/// What step `i - 1` leads on to cannot be built while the objects of
/// the steps before it are being built.
pub proof fn lemma_next_fails(
    m: &Manifest,
    st: BuildState,
    steps: Seq<TrailStep>,
    back: usize,
    i: int,
    at: Seq<char>,
)
    requires
        m.wf(),
        trail_ok(m, steps, back),
        0 < i <= steps.len(),
        sound(m, st),
        path_free(st, objects_of(steps, i)),
        leads_to(steps, back, i - 1) < m.objects@.len(),
    ensures
        build_object_spec(m, st, leads_to(steps, back, i - 1), objects_of(steps, i), at).1 is Err,
{
    let chain = rest_chain(steps, back, i);
    let path = objects_of(steps, i);
    lemma_rest_is_chain(m, steps, back, i);
    let j = choose|j: int| 0 <= j < steps.len() && (#[trigger] steps[j]).obj == back;
    if j < i {
        assert(path[j] == back);
        assert(path.contains(chain.last()));
    } else {
        assert(chain[j - i] == steps[j].obj);
        assert(chain[chain.len() - 1] == back);
        assert(j - i != chain.len() - 1);
        assert(!chain.no_duplicates());
    }
    lemma_object_on_cycle_fails(m, st, leads_to(steps, back, i - 1), path, at, chain);
}

/// Behind an item at which the walk has stopped nothing is read.
pub proof fn lemma_items_unread(
    m: &Manifest,
    st: BuildState,
    items: Seq<Slot>,
    path: Seq<usize>,
    at: Seq<char>,
    from: int,
    n: int,
)
    requires
        0 <= from <= n,
        items_read_clean(m, st, items, path, at, from),
        collect_spec(m, st, items, path, at, from).1 is Err,
    ensures
        items_read_clean(m, st, items, path, at, n),
        collect_spec(m, st, items, path, at, n).1 is Err,
    decreases n - from,
{
    if from < n {
        lemma_items_unread(m, st, items, path, at, from, n - 1);
        lemma_collect_err_stays(m, st, items, path, at, from, n - 1);
        lemma_collect_err_stays(m, st, items, path, at, from, n);
    }
}

/// The walk of the list through which step `i` leads on reads no defect,
/// and fails.
pub proof fn lemma_trail_list(
    m: &Manifest,
    st: BuildState,
    steps: Seq<TrailStep>,
    back: usize,
    i: int,
    items: Seq<Slot>,
    at: Seq<char>,
)
    requires
        m.wf(),
        trail_ok(m, steps, back),
        0 <= i < steps.len(),
        sound(m, st),
        path_free(st, objects_of(steps, i + 1)),
        items_ok(m, items),
        0 <= steps[i].index < items.len(),
        deep_items(m, items, steps[i].index),
        items[steps[i].index] == Slot::Value(ManifestValue::Obj(leads_to(steps, back, i))),
    ensures
        items_read_clean(m, st, items, objects_of(steps, i + 1), at, items.len() as int),
        collect_spec(m, st, items, objects_of(steps, i + 1), at, items.len() as int).1 is Err,
    decreases steps.len() - i, 0int,
{
    let k = steps[i].index;
    let path = objects_of(steps, i + 1);
    let next = leads_to(steps, back, i);
    lemma_deep_items_read(m, st, items, path, at, k);
    lemma_collect_sound(m, st, items, path, at, k);
    let (st_k, front) = collect_spec(m, st, items, path, at, k);
    assert(m.slot_ok(items[k]));
    if front is Ok {
        let here = item_path(at, k);
        if st_k.cache[next as int] is Some || path.contains(next) || path.len()
            >= m.objects@.len() {
        } else {
            assert(i + 1 < steps.len()) by {
                if i + 1 >= steps.len() {
                    let j = choose|j: int| 0 <= j < steps.len() && (#[trigger] steps[j]).obj == back;
                    assert(path[j] == back);
                }
            }
            let entered = path.push(next);
            assert(entered =~= objects_of(steps, i + 2));
            assert(path_free(st_k, entered)) by {
                assert forall|x: int| 0 <= x < entered.len() implies !cached(
                    st_k,
                    #[trigger] entered[x],
                ) by {
                    if x < path.len() {
                        assert(entered[x] == path[x]);
                    }
                }
            }
            lemma_trail_fresh(m, st_k, steps, back, i + 1, here);
        }
        assert(object_reads_clean(m, st_k, next, path, here));
        lemma_next_fails(m, st_k, steps, back, i + 1, here);
    } else {
        lemma_collect_err_stays(m, st, items, path, at, k, k + 1);
    }
    assert(items_read_clean(m, st, items, path, at, k + 1));
    assert(collect_spec(m, st, items, path, at, k + 1).1 is Err);
    lemma_items_unread(m, st, items, path, at, k + 1, items.len() as int);
}

/// The walk of the object of step `i`, entered behind the objects of the
/// steps before it, reads no defect.
pub proof fn lemma_trail_fresh(
    m: &Manifest,
    st: BuildState,
    steps: Seq<TrailStep>,
    back: usize,
    i: int,
    at: Seq<char>,
)
    requires
        m.wf(),
        trail_ok(m, steps, back),
        0 <= i < steps.len(),
        sound(m, st),
        path_free(st, objects_of(steps, i + 1)),
    ensures
        fresh_reads_clean(m, st, steps[i].obj, objects_of(steps, i + 1), at),
    decreases steps.len() - i, 1int,
{
    let s = steps[i];
    let path = objects_of(steps, i + 1);
    let fields = m.objects@[s.obj as int]@;
    assert(step_ok(m, s, leads_to(steps, back, i)));
    lemma_fields_ok(m, s.obj);
    assert(crate::reader::read_name_spec(fields, at) is Ok);
    let here = field_path(at, "runDeps"@);
    match lookup_spec(fields, "runDeps"@) {
        Some(Slot::Value(ManifestValue::Arr(a))) => {
            lemma_field_value_ok(m, fields, "runDeps"@);
            lemma_items_ok(m, a);
            let items = m.arrays@[a as int]@;
            if s.build_time {
                lemma_deep_items_read(m, st, items, path, here, items.len() as int);
            } else {
                lemma_trail_list(m, st, steps, back, i, items, here);
            }
        },
        _ => {},
    }
    let (st1, run) = deps_spec(m, st, fields, "runDeps"@, path, at);
    if run is Ok {
        lemma_deps_sound(m, st, fields, "runDeps"@, path, at);
        let there = field_path(at, "buildDeps"@);
        match lookup_spec(fields, "buildDeps"@) {
            Some(Slot::Value(ManifestValue::Arr(b))) => {
                lemma_field_value_ok(m, fields, "buildDeps"@);
                lemma_items_ok(m, b);
                lemma_trail_list(m, st1, steps, back, i, m.arrays@[b as int]@, there);
            },
            _ => {},
        }
    }
}

/// A package that leads into a cycle fails with `DependencyCycle` if only
/// what the walk reads on the way is without defect: the packages on the
/// way have readable names and lists, and the dependencies that are
/// listed before the one that leads on are without defect in all that
/// they reach. A defect of anything else, such as a dependency that is
/// listed behind the one that closes the cycle, makes no difference.
pub proof fn lemma_cycle_behind_clean_dependencies(
    m: &Manifest,
    nodes: Seq<PackageView>,
    steps: Seq<TrailStep>,
    back: usize,
)
    requires
        m.wf(),
        trail_ok(m, steps, back),
    ensures
        roots_spec(m, start_state(m, nodes), ManifestValue::Obj(steps[0].obj)).1 == Err::<
            Seq<usize>,
            _,
        >(MagErrorView::DependencyCycle),
{
    let st = start_state(m, nodes);
    let root = steps[0].obj;
    let value = ManifestValue::Obj(root);
    assert(step_ok(m, steps[0], leads_to(steps, back, 0)));
    assert(sound(m, st));
    let entered = Seq::<usize>::empty().push(root);
    assert(entered =~= objects_of(steps, 1));
    assert(path_free(st, entered));
    lemma_trail_fresh(m, st, steps, back, 0, root_path());
    assert(object_reads_clean(m, st, root, Seq::empty(), root_path()));
    lemma_walk_fails_on_cycle_only(m, st, value);
    assert(path_free(st, objects_of(steps, 0)));
    assert(objects_of(steps, 0) =~= Seq::<usize>::empty());
    let chain = seq![root] + rest_chain(steps, back, 1);
    lemma_rest_is_chain(m, steps, back, 1);
    let rest = rest_chain(steps, back, 1);
    assert forall|k: int| 0 <= k < chain.len() - 1 implies depends_on(
        m,
        #[trigger] chain[k],
        chain[k + 1],
    ) by {
        if k == 0 {
            assert(chain[0] == root && chain[1] == rest[0]);
            let fields = m.objects@[root as int]@;
            if steps[0].build_time {
                assert(lists(items_of(m, fields, "buildDeps"@), rest[0]));
            } else {
                assert(lists(items_of(m, fields, "runDeps"@), rest[0]));
            }
        } else {
            assert(chain[k] == rest[k - 1] && chain[k + 1] == rest[k]);
            assert(depends_on(m, rest[k - 1], rest[k]));
        }
    }
    assert(chain_ok(m, chain));
    let j = choose|j: int| 0 <= j < steps.len() && (#[trigger] steps[j]).obj == back;
    assert(chain[j] == steps[j].obj) by {
        if j > 0 {
            assert(chain[j] == rest[j - 1]);
        }
    }
    assert(chain[chain.len() - 1] == back);
    assert(!chain.no_duplicates());
    lemma_object_on_cycle_fails(m, st, root, Seq::empty(), root_path(), chain);
    assert(only_cycle(roots_spec(m, st, value).1));
}

} // verus!
