//! Why a manifest with a dependency cycle is never built.
//!
//! The builder's walk keeps two things true of the objects it has built:
//! what a built object depends on is built too, and no chain of
//! dependencies that starts at a built object comes back to an object it
//! has passed. An object joins the built ones only when its walk is done,
//! and by then everything it depends on was built before it. So a walk
//! that ends well has met no cycle.
//!
//! A walk that meets a cycle fails, and it fails with the finding of the
//! cycle unless it has read a defect before: what lies behind the place
//! where the walk stops is not read and cannot change the outcome.

use vstd::prelude::*;
use crate::builder::{
    build_fresh_spec, build_object_spec, collect_spec, deps_spec, items_of, register_spec,
    root_items_spec, roots_spec, start_state, BuildState,
};
use crate::error::MagErrorView;
use crate::manifest::{
    field_path, get_field_spec, item_path, lookup_spec, root_path, Field, Manifest,
    ManifestValue, Slot,
};
use crate::package::PackageView;
use crate::reader::{lemma_field_value_ok, read_build_spec, read_fetch_spec, read_name_spec};

verus! {

/// The object `o` was built.
pub open spec fn cached(st: BuildState, o: usize) -> bool {
    (o as int) < st.cache.len() && st.cache[o as int] is Some
}

/// The list `items` names the object `d`.
pub open spec fn lists(items: Seq<Slot>, d: usize) -> bool {
    exists|k: int| 0 <= k < items.len() && #[trigger] items[k] == Slot::Value(ManifestValue::Obj(d))
}

/// The object `a` depends on the object `d`, at run time or at build time.
pub open spec fn depends_on(m: &Manifest, a: usize, d: usize) -> bool {
    lists(items_of(m, m.objects@[a as int]@, "runDeps"@), d) || lists(
        items_of(m, m.objects@[a as int]@, "buildDeps"@),
        d,
    )
}

/// In `chain` each object depends on the next.
pub open spec fn chain_ok(m: &Manifest, chain: Seq<usize>) -> bool {
    forall|i: int| 0 <= i < chain.len() - 1 ==> depends_on(m, #[trigger] chain[i], chain[i + 1])
}

/// What a built object depends on is built.
pub open spec fn closed(m: &Manifest, st: BuildState) -> bool {
    forall|c: usize, d: usize| cached(st, c) && #[trigger] depends_on(m, c, d) ==> cached(st, d)
}

/// No chain of dependencies from a built object passes an object twice.
pub open spec fn acyclic(m: &Manifest, st: BuildState) -> bool {
    forall|chain: Seq<usize>|
        chain.len() > 0 && cached(st, chain[0]) && #[trigger] chain_ok(m, chain)
            ==> chain.no_duplicates()
}

/// What the walk keeps true of the objects built.
pub open spec fn sound(m: &Manifest, st: BuildState) -> bool {
    &&& st.cache.len() == m.objects@.len()
    &&& closed(m, st)
    &&& acyclic(m, st)
}

/// None of the objects of `path` was built.
pub open spec fn path_free(st: BuildState, path: Seq<usize>) -> bool {
    forall|i: int| 0 <= i < path.len() ==> !cached(st, #[trigger] path[i])
}

/// What was built in `before` is built in `after`.
pub open spec fn grows(before: BuildState, after: BuildState) -> bool {
    &&& after.cache.len() == before.cache.len()
    &&& forall|o: usize| #[trigger] cached(before, o) ==> cached(after, o)
}

/// The item is an object that was built.
pub open spec fn item_done(st: BuildState, item: Slot) -> bool {
    match item {
        Slot::Value(ManifestValue::Obj(d)) => cached(st, d),
        _ => false,
    }
}

/// The first `n` items are objects that were built.
pub open spec fn items_done(st: BuildState, items: Seq<Slot>, n: int) -> bool {
    forall|k: int| 0 <= k < n ==> item_done(st, #[trigger] items[k])
}

/// Every item names only arrays and objects that the manifest holds.
pub open spec fn items_ok(m: &Manifest, items: Seq<Slot>) -> bool {
    forall|k: int| 0 <= k < items.len() ==> m.slot_ok(#[trigger] items[k])
}

/// Every field names only arrays and objects that the manifest holds.
pub open spec fn fields_ok(m: &Manifest, fields: Seq<Field>) -> bool {
    forall|k: int| 0 <= k < fields.len() ==> m.slot_ok((#[trigger] fields[k]).slot)
}

/// A chain that starts at a built object passes built objects only.
pub proof fn lemma_chain_stays_built(m: &Manifest, st: BuildState, chain: Seq<usize>, i: int)
    requires
        closed(m, st),
        chain.len() > 0,
        cached(st, chain[0]),
        chain_ok(m, chain),
        0 <= i < chain.len(),
    ensures
        cached(st, chain[i]),
    decreases i,
{
    if i > 0 {
        lemma_chain_stays_built(m, st, chain, i - 1);
        assert(depends_on(m, chain[i - 1], chain[i]));
    }
}

/// The end of a chain is a chain.
pub proof fn lemma_chain_tail(m: &Manifest, chain: Seq<usize>)
    requires
        chain.len() > 0,
        chain_ok(m, chain),
    ensures
        chain_ok(m, chain.subrange(1, chain.len() as int)),
{
    let rest = chain.subrange(1, chain.len() as int);
    assert forall|i: int| 0 <= i < rest.len() - 1 implies depends_on(
        m,
        #[trigger] rest[i],
        rest[i + 1],
    ) by {
        assert(rest[i] == chain[i + 1]);
        assert(rest[i + 1] == chain[i + 2]);
        assert(depends_on(m, chain[i + 1], chain[i + 2]));
    }
}

/// An object joins the built ones soundly once all it depends on is built.
pub proof fn lemma_register_sound(m: &Manifest, st: BuildState, after: BuildState, o: usize)
    requires
        sound(m, st),
        (o as int) < st.cache.len(),
        !cached(st, o),
        forall|d: usize| #[trigger] depends_on(m, o, d) ==> cached(st, d),
        after.cache.len() == st.cache.len(),
        cached(after, o),
        forall|x: usize| x != o ==> cached(after, x) == #[trigger] cached(st, x),
    ensures
        sound(m, after),
        grows(st, after),
{
    assert forall|c: usize, d: usize| cached(after, c) && #[trigger] depends_on(
        m,
        c,
        d,
    ) implies cached(after, d) by {
        if c != o {
            assert(cached(st, c));
        }
        assert(cached(st, d));
    }
    assert forall|chain: Seq<usize>|
        chain.len() > 0 && cached(after, chain[0]) && #[trigger] chain_ok(
            m,
            chain,
        ) implies chain.no_duplicates() by {
        if chain[0] != o {
            assert(cached(st, chain[0]));
        } else {
            let rest = chain.subrange(1, chain.len() as int);
            lemma_chain_tail(m, chain);
            if rest.len() > 0 {
                assert(rest[0] == chain[1]);
                assert(depends_on(m, chain[0], chain[1]));
                assert(cached(st, rest[0]));
                assert(rest.no_duplicates());
                assert forall|a: int, b: int|
                    0 <= a < chain.len() && 0 <= b < chain.len() && a != b implies chain[a]
                    != chain[b] by {
                    if a > 0 {
                        lemma_chain_stays_built(m, st, rest, a - 1);
                        assert(rest[a - 1] == chain[a]);
                    }
                    if b > 0 {
                        lemma_chain_stays_built(m, st, rest, b - 1);
                        assert(rest[b - 1] == chain[b]);
                    }
                    if a > 0 && b > 0 {
                        assert(rest[a - 1] != rest[b - 1]);
                    }
                }
            }
        }
    }
    assert forall|x: usize| #[trigger] cached(st, x) implies cached(after, x) by {
        assert(x != o);
    }
}

/// What holds after a step of the walk that began soundly along `path`.
pub open spec fn kept(m: &Manifest, before: BuildState, after: BuildState, path: Seq<usize>) -> bool {
    &&& sound(m, after)
    &&& grows(before, after)
    &&& path_free(after, path)
}

/// The walk of an object keeps what is built sound; where it ends well,
/// the object is built.
pub proof fn lemma_object_sound(
    m: &Manifest,
    st: BuildState,
    obj: usize,
    path: Seq<usize>,
    at: Seq<char>,
)
    requires
        m.wf(),
        obj < m.objects@.len(),
        sound(m, st),
        path_free(st, path),
    ensures
        kept(m, st, build_object_spec(m, st, obj, path, at).0, path),
        build_object_spec(m, st, obj, path, at).1 is Ok ==> cached(
            build_object_spec(m, st, obj, path, at).0,
            obj,
        ),
    decreases m.objects@.len() - path.len(), 0int, 0int,
{
    if st.cache[obj as int] is Some {
    } else if path.contains(obj) {
    } else if path.len() >= m.objects@.len() {
    } else {
        let entered = path.push(obj);
        assert(path_free(st, entered)) by {
            assert forall|i: int| 0 <= i < entered.len() implies !cached(
                st,
                #[trigger] entered[i],
            ) by {
                if i < path.len() {
                    assert(entered[i] == path[i]);
                }
            }
        }
        assert(entered.drop_last() =~= path);
        lemma_fresh_sound(m, st, obj, entered, at);
    }
}

/// The walk of an object that is entered keeps what is built sound;
/// where it ends well, the object is built.
pub proof fn lemma_fresh_sound(
    m: &Manifest,
    st: BuildState,
    obj: usize,
    path: Seq<usize>,
    at: Seq<char>,
)
    requires
        m.wf(),
        obj < m.objects@.len(),
        sound(m, st),
        path.len() > 0,
        path.last() == obj,
        !path.drop_last().contains(obj),
        path_free(st, path),
    ensures
        kept(m, st, build_fresh_spec(m, st, obj, path, at).0, path.drop_last()),
        build_fresh_spec(m, st, obj, path, at).1 is Ok ==> cached(
            build_fresh_spec(m, st, obj, path, at).0,
            obj,
        ),
    decreases m.objects@.len() - path.len(), 3int, 0int,
{
    let fields = m.objects@[obj as int]@;
    let before = path.drop_last();
    assert(fields_ok(m, fields)) by {
        assert forall|k: int| 0 <= k < fields.len() implies m.slot_ok(
            (#[trigger] fields[k]).slot,
        ) by {
            assert(m.slot_ok(m.objects@[obj as int]@[k].slot));
        }
    }
    assert(path_free(st, before)) by {
        assert forall|i: int| 0 <= i < before.len() implies !cached(st, #[trigger] before[i]) by {
            assert(before[i] == path[i]);
        }
    }
    match read_name_spec(fields, at) {
        Err(_) => {},
        Ok(name) => {
            lemma_deps_sound(m, st, fields, "runDeps"@, path, at);
            let (st1, run) = deps_spec(m, st, fields, "runDeps"@, path, at);
            lemma_path_free_front(st1, path);
            match run {
                Err(_) => {},
                Ok(run_deps) => {
                    lemma_deps_sound(m, st1, fields, "buildDeps"@, path, at);
                    let (st2, bld) = deps_spec(m, st1, fields, "buildDeps"@, path, at);
                    lemma_path_free_front(st2, path);
                    lemma_grows_trans(st, st1, st2);
                    match bld {
                        Err(_) => {},
                        Ok(build_deps) => match read_build_spec(fields, at) {
                            Err(_) => {},
                            Ok(build) => match read_fetch_spec(m, fields, at) {
                                Err(_) => {},
                                Ok(fetch) => {
                                    let (st3, r) = register_spec(
                                        st2,
                                        obj,
                                        name,
                                        build,
                                        fetch,
                                        run_deps,
                                        build_deps,
                                    );
                                    assert(!cached(st2, obj)) by {
                                        assert(path[path.len() - 1] == obj);
                                    }
                                    let run_items = items_of(m, fields, "runDeps"@);
                                    let build_items = items_of(m, fields, "buildDeps"@);
                                    assert forall|d: usize| #[trigger]
                                        depends_on(m, obj, d) implies cached(st2, d) by {
                                        if lists(run_items, d) {
                                            let k = choose|k: int|
                                                0 <= k < run_items.len()
                                                    && #[trigger] run_items[k] == Slot::Value(
                                                    ManifestValue::Obj(d),
                                                );
                                            assert(item_done(st1, run_items[k]));
                                            assert(cached(st1, d));
                                        } else {
                                            let k = choose|k: int|
                                                0 <= k < build_items.len()
                                                    && #[trigger] build_items[k] == Slot::Value(
                                                    ManifestValue::Obj(d),
                                                );
                                            assert(item_done(st2, build_items[k]));
                                        }
                                    }
                                    assert forall|x: usize| x != obj implies cached(st3, x)
                                        == #[trigger] cached(st2, x) by {}
                                    lemma_register_sound(m, st2, st3, obj);
                                    lemma_grows_trans(st, st2, st3);
                                    assert(path_free(st3, before)) by {
                                        assert forall|i: int| 0 <= i < before.len() implies !cached(
                                            st3,
                                            #[trigger] before[i],
                                        ) by {
                                            assert(before.contains(before[i]));
                                            assert(before[i] != obj);
                                            assert(!cached(st2, before[i]));
                                        }
                                    }
                                },
                            },
                        },
                    }
                },
            }
        },
    }
}

/// A path that is free of built objects is so without its last object.
pub proof fn lemma_path_free_front(st: BuildState, path: Seq<usize>)
    requires
        path.len() > 0,
        path_free(st, path),
    ensures
        path_free(st, path.drop_last()),
{
    let before = path.drop_last();
    assert forall|i: int| 0 <= i < before.len() implies !cached(st, #[trigger] before[i]) by {
        assert(before[i] == path[i]);
    }
}

/// What is built stays built.
pub proof fn lemma_grows_trans(a: BuildState, b: BuildState, c: BuildState)
    requires
        grows(a, b),
        grows(b, c),
    ensures
        grows(a, c),
{
    assert forall|o: usize| #[trigger] cached(a, o) implies cached(c, o) by {
        assert(cached(b, o));
    }
}

/// The walk of a dependency list keeps what is built sound; where it
/// ends well, every item of the list is an object that was built.
pub proof fn lemma_deps_sound(
    m: &Manifest,
    st: BuildState,
    fields: Seq<Field>,
    field: Seq<char>,
    path: Seq<usize>,
    at: Seq<char>,
)
    requires
        m.wf(),
        fields_ok(m, fields),
        sound(m, st),
        path_free(st, path),
    ensures
        kept(m, st, deps_spec(m, st, fields, field, path, at).0, path),
        deps_spec(m, st, fields, field, path, at).1 is Ok ==> items_done(
            deps_spec(m, st, fields, field, path, at).0,
            items_of(m, fields, field),
            items_of(m, fields, field).len() as int,
        ),
    decreases m.objects@.len() - path.len(), 2int, 0int,
{
    match lookup_spec(fields, field) {
        Some(Slot::Value(ManifestValue::Arr(a))) => {
            lemma_field_value_ok(m, fields, field);
            let items = m.arrays@[a as int]@;
            assert(items_ok(m, items)) by {
                assert forall|k: int| 0 <= k < items.len() implies m.slot_ok(
                    #[trigger] items[k],
                ) by {
                    assert(m.slot_ok(m.arrays@[a as int]@[k]));
                }
            }
            lemma_collect_sound(m, st, items, path, field_path(at, field), items.len() as int);
        },
        _ => {},
    }
}

/// The walk of the first `n` items of a dependency list keeps what is
/// built sound; where it ends well, these items are objects that were built.
pub proof fn lemma_collect_sound(
    m: &Manifest,
    st: BuildState,
    items: Seq<Slot>,
    path: Seq<usize>,
    at: Seq<char>,
    n: int,
)
    requires
        m.wf(),
        items_ok(m, items),
        0 <= n <= items.len(),
        sound(m, st),
        path_free(st, path),
    ensures
        kept(m, st, collect_spec(m, st, items, path, at, n).0, path),
        collect_spec(m, st, items, path, at, n).1 is Ok ==> items_done(
            collect_spec(m, st, items, path, at, n).0,
            items,
            n,
        ),
    decreases m.objects@.len() - path.len(), 1int, n,
{
    if n > 0 {
        lemma_collect_sound(m, st, items, path, at, n - 1);
        let (st1, front) = collect_spec(m, st, items, path, at, n - 1);
        match front {
            Err(_) => {},
            Ok(acc) => match items[n - 1] {
                Slot::Value(ManifestValue::Obj(o)) => {
                    assert(m.slot_ok(items[n - 1]));
                    lemma_object_sound(m, st1, o, path, item_path(at, n - 1));
                    let (st2, r) = build_object_spec(m, st1, o, path, item_path(at, n - 1));
                    lemma_grows_trans(st, st1, st2);
                    if r is Ok {
                        assert forall|k: int| 0 <= k < n implies item_done(
                            st2,
                            #[trigger] items[k],
                        ) by {
                            if k < n - 1 {
                                assert(item_done(st1, items[k]));
                            }
                        }
                    }
                },
                _ => {},
            },
        }
    }
}

/// The walk of the first `n` roots keeps what is built sound; where it
/// ends well, these roots are objects that were built.
pub proof fn lemma_root_items_sound(m: &Manifest, st: BuildState, items: Seq<Slot>, n: int)
    requires
        m.wf(),
        items_ok(m, items),
        0 <= n <= items.len(),
        sound(m, st),
    ensures
        sound(m, root_items_spec(m, st, items, n).0),
        grows(st, root_items_spec(m, st, items, n).0),
        root_items_spec(m, st, items, n).1 is Ok ==> items_done(
            root_items_spec(m, st, items, n).0,
            items,
            n,
        ),
    decreases n,
{
    if n > 0 {
        lemma_root_items_sound(m, st, items, n - 1);
        let (st1, front) = root_items_spec(m, st, items, n - 1);
        match front {
            Err(_) => {},
            Ok(acc) => match items[n - 1] {
                Slot::Value(ManifestValue::Obj(o)) => {
                    assert(m.slot_ok(items[n - 1]));
                    lemma_object_sound(m, st1, o, Seq::empty(), item_path(root_path(), n - 1));
                    let (st2, r) = build_object_spec(
                        m,
                        st1,
                        o,
                        Seq::empty(),
                        item_path(root_path(), n - 1),
                    );
                    lemma_grows_trans(st, st1, st2);
                    if r is Ok {
                        assert forall|k: int| 0 <= k < n implies item_done(
                            st2,
                            #[trigger] items[k],
                        ) by {
                            if k < n - 1 {
                                assert(item_done(st1, items[k]));
                            }
                        }
                    }
                },
                _ => {},
            },
        }
    }
}

/// The object `o` is a root of the manifest whose value is `root`.
pub open spec fn is_root(m: &Manifest, root: ManifestValue, o: usize) -> bool {
    match root {
        ManifestValue::Obj(r) => r == o,
        ManifestValue::Arr(a) => lists(m.arrays@[a as int]@, o),
        _ => false,
    }
}

/// A manifest in which a package reaches itself through its dependencies
/// is not built: where the walk of a manifest ends well, every chain of
/// dependencies that starts at one of its roots passes no object twice.
pub proof fn lemma_built_manifest_has_no_cycle(
    m: &Manifest,
    nodes: Seq<PackageView>,
    root: ManifestValue,
    chain: Seq<usize>,
)
    requires
        m.wf(),
        m.slot_ok(Slot::Value(root)),
        roots_spec(m, start_state(m, nodes), root).1 is Ok,
        chain.len() > 0,
        is_root(m, root, chain[0]),
        chain_ok(m, chain),
    ensures
        chain.no_duplicates(),
{
    let st = start_state(m, nodes);
    assert(sound(m, st));
    match root {
        ManifestValue::Obj(r) => {
            lemma_object_sound(m, st, r, Seq::empty(), root_path());
            let (st1, res) = build_object_spec(m, st, r, Seq::empty(), root_path());
            assert(cached(st1, chain[0]));
            assert(acyclic(m, st1));
        },
        ManifestValue::Arr(a) => {
            let items = m.arrays@[a as int]@;
            assert(items_ok(m, items)) by {
                assert forall|k: int| 0 <= k < items.len() implies m.slot_ok(
                    #[trigger] items[k],
                ) by {
                    assert(m.slot_ok(m.arrays@[a as int]@[k]));
                }
            }
            lemma_root_items_sound(m, st, items, items.len() as int);
            let (st1, res) = root_items_spec(m, st, items, items.len() as int);
            let k = choose|k: int|
                0 <= k < items.len() && #[trigger] items[k] == Slot::Value(
                    ManifestValue::Obj(chain[0]),
                );
            assert(item_done(st1, items[k]));
            assert(acyclic(m, st1));
        },
        _ => {},
    }
}

/// A package that depends on itself, directly or through others, makes
/// the walk of its manifest fail.
pub proof fn lemma_cycle_is_refused(
    m: &Manifest,
    nodes: Seq<PackageView>,
    root: ManifestValue,
    chain: Seq<usize>,
)
    requires
        m.wf(),
        m.slot_ok(Slot::Value(root)),
        chain.len() > 0,
        is_root(m, root, chain[0]),
        chain_ok(m, chain),
        !chain.no_duplicates(),
    ensures
        roots_spec(m, start_state(m, nodes), root).1 is Err,
{
    if roots_spec(m, start_state(m, nodes), root).1 is Ok {
        lemma_built_manifest_has_no_cycle(m, nodes, root, chain);
    }
}

/// The dependency list `field` among `fields` is absent, or a list of objects.
pub open spec fn clean_deps(m: &Manifest, fields: Seq<Field>, field: Seq<char>) -> bool {
    match lookup_spec(fields, field) {
        None => true,
        Some(Slot::Value(ManifestValue::Null)) => true,
        Some(Slot::Value(ManifestValue::Arr(a))) => forall|k: int|
            0 <= k < m.arrays@[a as int]@.len() ==> (#[trigger] m.arrays@[a as int]@[k]) is Value
                && m.arrays@[a as int]@[k]->Value_0 is Obj,
        _ => false,
    }
}

/// The object `o` has no defect of its own: its name, its script and its
/// fetch list can be read, and its dependency lists are lists of objects.
pub open spec fn clean_object(m: &Manifest, o: int) -> bool {
    let fields = m.objects@[o]@;
    &&& forall|at: Seq<char>| #[trigger] read_name_spec(fields, at) is Ok
    &&& forall|at: Seq<char>| #[trigger] read_build_spec(fields, at) is Ok
    &&& forall|at: Seq<char>| #[trigger] read_fetch_spec(m, fields, at) is Ok
    &&& clean_deps(m, fields, "runDeps"@)
    &&& clean_deps(m, fields, "buildDeps"@)
}

/// No object of the manifest has a defect of its own.
pub open spec fn clean(m: &Manifest) -> bool {
    forall|o: int| 0 <= o < m.objects@.len() ==> #[trigger] clean_object(m, o)
}

/// The outcome is a package, or the finding of a cycle.
pub open spec fn only_cycle<T>(r: Result<T, MagErrorView>) -> bool {
    match r {
        Ok(_) => true,
        Err(e) => e == MagErrorView::DependencyCycle,
    }
}

/// What the walk of the object `obj` reads has no defect. The walk reads
/// nothing of an object that is built already or that closes a cycle; of
/// any other it reads the name, then the lists of dependencies item by
/// item, and, where these were built, the script and the fetch list.
pub open spec fn object_reads_clean(
    m: &Manifest,
    st: BuildState,
    obj: usize,
    path: Seq<usize>,
    at: Seq<char>,
) -> bool
    decreases m.objects@.len() - path.len(), 0int, 0int,
{
    if st.cache[obj as int] is Some || path.contains(obj) || path.len() >= m.objects@.len() {
        true
    } else {
        fresh_reads_clean(m, st, obj, path.push(obj), at)
    }
}

/// What the walk of the entered object `obj` reads has no defect.
pub open spec fn fresh_reads_clean(
    m: &Manifest,
    st: BuildState,
    obj: usize,
    path: Seq<usize>,
    at: Seq<char>,
) -> bool
    decreases m.objects@.len() - path.len(), 3int, 0int,
{
    let fields = m.objects@[obj as int]@;
    let (st1, run) = deps_spec(m, st, fields, "runDeps"@, path, at);
    let (st2, bld) = deps_spec(m, st1, fields, "buildDeps"@, path, at);
    &&& read_name_spec(fields, at) is Ok
    &&& deps_read_clean(m, st, fields, "runDeps"@, path, at)
    &&& run is Ok ==> deps_read_clean(m, st1, fields, "buildDeps"@, path, at)
    &&& run is Ok && bld is Ok ==> read_build_spec(fields, at) is Ok && read_fetch_spec(
        m,
        fields,
        at,
    ) is Ok
}

/// What the walk reads of the dependency list `field` has no defect: the
/// field is absent, or a list whose items, as far as the walk goes, are
/// objects of which it reads no defect.
pub open spec fn deps_read_clean(
    m: &Manifest,
    st: BuildState,
    fields: Seq<Field>,
    field: Seq<char>,
    path: Seq<usize>,
    at: Seq<char>,
) -> bool
    decreases m.objects@.len() - path.len(), 2int, 0int,
{
    match get_field_spec(fields, field, at) {
        Ok(None) => true,
        Ok(Some(ManifestValue::Null)) => true,
        Ok(Some(ManifestValue::Arr(a))) => items_read_clean(
            m,
            st,
            m.arrays@[a as int]@,
            path,
            field_path(at, field),
            m.arrays@[a as int]@.len() as int,
        ),
        _ => false,
    }
}

/// What the walk reads of the first `n` items of a dependency list has no
/// defect. An item that follows one at which the walk has stopped is not
/// read, and nothing is asked of it.
pub open spec fn items_read_clean(
    m: &Manifest,
    st: BuildState,
    items: Seq<Slot>,
    path: Seq<usize>,
    at: Seq<char>,
    n: int,
) -> bool
    decreases m.objects@.len() - path.len(), 1int, n,
{
    if n <= 0 {
        true
    } else {
        let (st1, front) = collect_spec(m, st, items, path, at, n - 1);
        &&& items_read_clean(m, st, items, path, at, n - 1)
        &&& front is Ok ==> match items[n - 1] {
            Slot::Value(ManifestValue::Obj(o)) => object_reads_clean(
                m,
                st1,
                o,
                path,
                item_path(at, n - 1),
            ),
            _ => false,
        }
    }
}

/// What the walk reads of the first `n` roots has no defect.
pub open spec fn root_items_read_clean(m: &Manifest, st: BuildState, items: Seq<Slot>, n: int) -> bool
    decreases n,
{
    if n <= 0 {
        true
    } else {
        let (st1, front) = root_items_spec(m, st, items, n - 1);
        &&& root_items_read_clean(m, st, items, n - 1)
        &&& front is Ok ==> match items[n - 1] {
            Slot::Value(ManifestValue::Obj(o)) => object_reads_clean(
                m,
                st1,
                o,
                Seq::empty(),
                item_path(root_path(), n - 1),
            ),
            _ => false,
        }
    }
}

/// What the walk of the manifest reads has no defect: the manifest is an
/// object or a list, and whatever the walk reads before it stops can be
/// read. Of what lies behind the place where the walk stops, nothing is
/// asked.
pub open spec fn roots_read_clean(m: &Manifest, st: BuildState, root: ManifestValue) -> bool {
    match root {
        ManifestValue::Arr(a) => root_items_read_clean(
            m,
            st,
            m.arrays@[a as int]@,
            m.arrays@[a as int]@.len() as int,
        ),
        ManifestValue::Obj(o) => object_reads_clean(m, st, o, Seq::empty(), root_path()),
        _ => false,
    }
}

/// Where the walk of an object reads no defect, it fails only on a cycle.
pub proof fn lemma_object_fails_on_cycle_only(
    m: &Manifest,
    st: BuildState,
    obj: usize,
    path: Seq<usize>,
    at: Seq<char>,
)
    requires
        object_reads_clean(m, st, obj, path, at),
    ensures
        only_cycle(build_object_spec(m, st, obj, path, at).1),
    decreases m.objects@.len() - path.len(), 0int, 0int,
{
    if st.cache[obj as int] is Some {
    } else if path.contains(obj) {
    } else if path.len() >= m.objects@.len() {
    } else {
        lemma_fresh_fails_on_cycle_only(m, st, obj, path.push(obj), at);
    }
}

/// Where the walk of an entered object reads no defect, it fails only on a cycle.
pub proof fn lemma_fresh_fails_on_cycle_only(
    m: &Manifest,
    st: BuildState,
    obj: usize,
    path: Seq<usize>,
    at: Seq<char>,
)
    requires
        fresh_reads_clean(m, st, obj, path, at),
    ensures
        only_cycle(build_fresh_spec(m, st, obj, path, at).1),
    decreases m.objects@.len() - path.len(), 3int, 0int,
{
    let fields = m.objects@[obj as int]@;
    lemma_deps_fail_on_cycle_only(m, st, fields, "runDeps"@, path, at);
    let (st1, run) = deps_spec(m, st, fields, "runDeps"@, path, at);
    if run is Ok {
        lemma_deps_fail_on_cycle_only(m, st1, fields, "buildDeps"@, path, at);
    }
}

/// Where the walk of a dependency list reads no defect, it fails only on a cycle.
pub proof fn lemma_deps_fail_on_cycle_only(
    m: &Manifest,
    st: BuildState,
    fields: Seq<Field>,
    field: Seq<char>,
    path: Seq<usize>,
    at: Seq<char>,
)
    requires
        deps_read_clean(m, st, fields, field, path, at),
    ensures
        only_cycle(deps_spec(m, st, fields, field, path, at).1),
    decreases m.objects@.len() - path.len(), 2int, 0int,
{
    match get_field_spec(fields, field, at) {
        Ok(Some(ManifestValue::Arr(a))) => {
            let items = m.arrays@[a as int]@;
            lemma_items_fail_on_cycle_only(
                m,
                st,
                items,
                path,
                field_path(at, field),
                items.len() as int,
            );
        },
        _ => {},
    }
}

/// Where the walk of the first `n` items reads no defect, it fails only on a cycle.
pub proof fn lemma_items_fail_on_cycle_only(
    m: &Manifest,
    st: BuildState,
    items: Seq<Slot>,
    path: Seq<usize>,
    at: Seq<char>,
    n: int,
)
    requires
        items_read_clean(m, st, items, path, at, n),
    ensures
        only_cycle(collect_spec(m, st, items, path, at, n).1),
    decreases m.objects@.len() - path.len(), 1int, n,
{
    if n > 0 {
        lemma_items_fail_on_cycle_only(m, st, items, path, at, n - 1);
        let (st1, front) = collect_spec(m, st, items, path, at, n - 1);
        match front {
            Err(_) => {},
            Ok(acc) => match items[n - 1] {
                Slot::Value(ManifestValue::Obj(o)) => {
                    lemma_object_fails_on_cycle_only(m, st1, o, path, item_path(at, n - 1));
                },
                _ => {},
            },
        }
    }
}

/// Where the walk of the first `n` roots reads no defect, it fails only on a cycle.
pub proof fn lemma_root_items_fail_on_cycle_only(
    m: &Manifest,
    st: BuildState,
    items: Seq<Slot>,
    n: int,
)
    requires
        root_items_read_clean(m, st, items, n),
    ensures
        only_cycle(root_items_spec(m, st, items, n).1),
    decreases n,
{
    if n > 0 {
        lemma_root_items_fail_on_cycle_only(m, st, items, n - 1);
        let (st1, front) = root_items_spec(m, st, items, n - 1);
        match front {
            Err(_) => {},
            Ok(acc) => match items[n - 1] {
                Slot::Value(ManifestValue::Obj(o)) => {
                    lemma_object_fails_on_cycle_only(
                        m,
                        st1,
                        o,
                        Seq::empty(),
                        item_path(root_path(), n - 1),
                    );
                },
                _ => {},
            },
        }
    }
}

/// Where the walk of a manifest reads no defect, it fails only on a cycle.
pub proof fn lemma_walk_fails_on_cycle_only(m: &Manifest, st: BuildState, root: ManifestValue)
    requires
        roots_read_clean(m, st, root),
    ensures
        only_cycle(roots_spec(m, st, root).1),
{
    match root {
        ManifestValue::Arr(a) => {
            let items = m.arrays@[a as int]@;
            lemma_root_items_fail_on_cycle_only(m, st, items, items.len() as int);
        },
        ManifestValue::Obj(o) => {
            lemma_object_fails_on_cycle_only(m, st, o, Seq::empty(), root_path());
        },
        _ => {},
    }
}

/// A manifest in which a package reaches itself through its dependencies
/// fails with `DependencyCycle`, whenever what the walk reads before it
/// meets the cycle has no defect. Whether anything that the walk does not
/// come to has a defect makes no difference.
pub proof fn lemma_cycle_fails_with_dependency_cycle(
    m: &Manifest,
    nodes: Seq<PackageView>,
    root: ManifestValue,
    chain: Seq<usize>,
)
    requires
        m.wf(),
        m.slot_ok(Slot::Value(root)),
        roots_read_clean(m, start_state(m, nodes), root),
        chain.len() > 0,
        is_root(m, root, chain[0]),
        chain_ok(m, chain),
        !chain.no_duplicates(),
    ensures
        roots_spec(m, start_state(m, nodes), root).1 == Err::<Seq<usize>, _>(
            MagErrorView::DependencyCycle,
        ),
{
    lemma_cycle_is_refused(m, nodes, root, chain);
    lemma_walk_fails_on_cycle_only(m, start_state(m, nodes), root);
}

/// In a manifest without defect the walk of an object reads no defect.
pub proof fn lemma_clean_object_reads(
    m: &Manifest,
    st: BuildState,
    obj: usize,
    path: Seq<usize>,
    at: Seq<char>,
)
    requires
        m.wf(),
        clean(m),
        obj < m.objects@.len(),
    ensures
        object_reads_clean(m, st, obj, path, at),
    decreases m.objects@.len() - path.len(), 0int, 0int,
{
    if st.cache[obj as int] is Some || path.contains(obj) || path.len() >= m.objects@.len() {
    } else {
        lemma_clean_fresh_reads(m, st, obj, path.push(obj), at);
    }
}

/// In a manifest without defect the walk of an entered object reads no defect.
pub proof fn lemma_clean_fresh_reads(
    m: &Manifest,
    st: BuildState,
    obj: usize,
    path: Seq<usize>,
    at: Seq<char>,
)
    requires
        m.wf(),
        clean(m),
        obj < m.objects@.len(),
    ensures
        fresh_reads_clean(m, st, obj, path, at),
    decreases m.objects@.len() - path.len(), 3int, 0int,
{
    let fields = m.objects@[obj as int]@;
    assert(clean_object(m, obj as int));
    assert(fields_ok(m, fields)) by {
        assert forall|k: int| 0 <= k < fields.len() implies m.slot_ok(
            (#[trigger] fields[k]).slot,
        ) by {
            assert(m.slot_ok(m.objects@[obj as int]@[k].slot));
        }
    }
    assert(read_name_spec(fields, at) is Ok);
    assert(read_build_spec(fields, at) is Ok);
    assert(read_fetch_spec(m, fields, at) is Ok);
    lemma_clean_deps_read(m, st, fields, "runDeps"@, path, at);
    let (st1, run) = deps_spec(m, st, fields, "runDeps"@, path, at);
    lemma_clean_deps_read(m, st1, fields, "buildDeps"@, path, at);
}

/// In a manifest without defect the walk of a clean dependency list reads no defect.
pub proof fn lemma_clean_deps_read(
    m: &Manifest,
    st: BuildState,
    fields: Seq<Field>,
    field: Seq<char>,
    path: Seq<usize>,
    at: Seq<char>,
)
    requires
        m.wf(),
        clean(m),
        fields_ok(m, fields),
        clean_deps(m, fields, field),
    ensures
        deps_read_clean(m, st, fields, field, path, at),
    decreases m.objects@.len() - path.len(), 2int, 0int,
{
    match lookup_spec(fields, field) {
        Some(Slot::Value(ManifestValue::Arr(a))) => {
            lemma_field_value_ok(m, fields, field);
            let items = m.arrays@[a as int]@;
            assert(items_ok(m, items)) by {
                assert forall|k: int| 0 <= k < items.len() implies m.slot_ok(
                    #[trigger] items[k],
                ) by {
                    assert(m.slot_ok(m.arrays@[a as int]@[k]));
                }
            }
            lemma_clean_items_read(m, st, items, path, field_path(at, field), items.len() as int);
        },
        _ => {},
    }
}

/// In a manifest without defect the walk of a list of objects reads no defect.
pub proof fn lemma_clean_items_read(
    m: &Manifest,
    st: BuildState,
    items: Seq<Slot>,
    path: Seq<usize>,
    at: Seq<char>,
    n: int,
)
    requires
        m.wf(),
        clean(m),
        items_ok(m, items),
        0 <= n <= items.len(),
        forall|k: int| 0 <= k < items.len() ==> (#[trigger] items[k]) is Value && items[k]->Value_0 is Obj,
    ensures
        items_read_clean(m, st, items, path, at, n),
    decreases m.objects@.len() - path.len(), 1int, n,
{
    if n > 0 {
        lemma_clean_items_read(m, st, items, path, at, n - 1);
        let (st1, front) = collect_spec(m, st, items, path, at, n - 1);
        assert(items[n - 1] is Value && items[n - 1]->Value_0 is Obj);
        match items[n - 1] {
            Slot::Value(ManifestValue::Obj(o)) => {
                assert(m.slot_ok(items[n - 1]));
                lemma_clean_object_reads(m, st1, o, path, item_path(at, n - 1));
            },
            _ => {},
        }
    }
}

/// A manifest without defect that is a package which reaches itself
/// through its dependencies fails with `DependencyCycle`.
pub proof fn lemma_cycle_in_clean_manifest(
    m: &Manifest,
    nodes: Seq<PackageView>,
    root: usize,
    chain: Seq<usize>,
)
    requires
        m.wf(),
        clean(m),
        root < m.objects@.len(),
        chain.len() > 0,
        chain[0] == root,
        chain_ok(m, chain),
        !chain.no_duplicates(),
    ensures
        roots_spec(m, start_state(m, nodes), ManifestValue::Obj(root)).1 == Err::<Seq<usize>, _>(
            MagErrorView::DependencyCycle,
        ),
{
    lemma_clean_object_reads(m, start_state(m, nodes), root, Seq::empty(), root_path());
    lemma_cycle_fails_with_dependency_cycle(m, nodes, ManifestValue::Obj(root), chain);
}

} // verus!
