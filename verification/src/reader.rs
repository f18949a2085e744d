//! Reading the fields of a package object out of the manifest.
//!
//! Each reader comes with a spec function that says which value or which
//! diagnostic it gives; the first defect found, in reading order, decides.
//! Every diagnostic carries the path of the place where the defect lies.

use vstd::prelude::*;
use crate::error::{MagError, MagErrorView};
use crate::manifest::{
    defect, defect_at, field_path, field_path_of, get_field, get_field_spec, item_path,
    item_path_of, lookup_spec, shape_defect, shape_defect_at, Field, Manifest, ManifestValue,
    Slot,
};
use crate::package::{
    fetches_view, name_defect, strings_view, validate_package_name, FetchResource,
    FetchResourceView,
};

verus! {

/// The display name of the package object at `at`: absent, or a valid name.
pub open spec fn read_name_spec(fields: Seq<Field>, at: Seq<char>) -> Result<
    Option<Seq<char>>,
    MagErrorView,
> {
    match get_field_spec(fields, "name"@, at) {
        Err(e) => Err(e),
        Ok(None) => Ok(None),
        Ok(Some(ManifestValue::Null)) => Ok(None),
        Ok(Some(ManifestValue::Str(s))) => match name_defect(s@) {
            Some(complaint) => Err(defect(field_path(at, "name"@), complaint)),
            None => Ok(Some(s@)),
        },
        Ok(Some(other)) => Err(shape_defect(field_path(at, "name"@), "expected a string"@, other)),
    }
}

/// Reads the optional display name of the package object at `at` and validates it.
pub fn read_package_name(fields: &Vec<Field>, at: &str) -> (r: Result<Option<String>, MagError>)
    ensures
        match r {
            Ok(Some(n)) => read_name_spec(fields@, at@) == Ok::<_, MagErrorView>(Some(n@)),
            Ok(None) => read_name_spec(fields@, at@) == Ok::<Option<Seq<char>>, MagErrorView>(
                None,
            ),
            Err(e) => read_name_spec(fields@, at@) == Err::<Option<Seq<char>>, _>(e@),
        },
{
    match get_field(fields, "name", at) {
        Err(e) => Err(e),
        Ok(None) => Ok(None),
        Ok(Some(ManifestValue::Null)) => Ok(None),
        Ok(Some(ManifestValue::Str(s))) => {
            let here = field_path_of(at, "name");
            match validate_package_name(s.as_str(), here.as_str()) {
                Err(e) => Err(e),
                Ok(_) => Ok(Some(s.clone())),
            }
        },
        Ok(Some(other)) => Err(
            shape_defect_at(field_path_of(at, "name"), "expected a string", other),
        ),
    }
}

/// The build script of the package object at `at`: empty where none is given.
pub open spec fn read_build_spec(fields: Seq<Field>, at: Seq<char>) -> Result<
    Seq<char>,
    MagErrorView,
> {
    match get_field_spec(fields, "build"@, at) {
        Err(e) => Err(e),
        Ok(None) => Ok(Seq::empty()),
        Ok(Some(ManifestValue::Null)) => Ok(Seq::empty()),
        Ok(Some(ManifestValue::Str(s))) => Ok(s@),
        Ok(Some(other)) => Err(
            shape_defect(field_path(at, "build"@), "expected a string"@, other),
        ),
    }
}

/// Reads the build script of the package object at `at`.
pub fn read_build_script(fields: &Vec<Field>, at: &str) -> (r: Result<String, MagError>)
    ensures
        match r {
            Ok(s) => read_build_spec(fields@, at@) == Ok::<_, MagErrorView>(s@),
            Err(e) => read_build_spec(fields@, at@) == Err::<Seq<char>, _>(e@),
        },
{
    match get_field(fields, "build", at) {
        Err(e) => Err(e),
        Ok(None) => Ok(String::new()),
        Ok(Some(ManifestValue::Null)) => Ok(String::new()),
        Ok(Some(ManifestValue::Str(s))) => Ok(s.clone()),
        Ok(Some(other)) => Err(
            shape_defect_at(field_path_of(at, "build"), "expected a string", other),
        ),
    }
}

/// A string field of the object at `at` that must be there.
pub open spec fn required_string_spec(
    fields: Seq<Field>,
    field: Seq<char>,
    at: Seq<char>,
) -> Result<Seq<char>, MagErrorView> {
    match get_field_spec(fields, field, at) {
        Err(e) => Err(e),
        Ok(Some(ManifestValue::Str(s))) => Ok(s@),
        Ok(None) => Err(defect(field_path(at, field), "missing required field"@)),
        Ok(Some(ManifestValue::Null)) => Err(
            defect(field_path(at, field), "missing required field"@),
        ),
        Ok(Some(other)) => Err(shape_defect(field_path(at, field), "expected a string"@, other)),
    }
}

/// Reads a string field of the object at `at` that must be there.
pub fn read_required_string(fields: &Vec<Field>, field: &str, at: &str) -> (r: Result<
    String,
    MagError,
>)
    ensures
        match r {
            Ok(s) => required_string_spec(fields@, field@, at@) == Ok::<_, MagErrorView>(s@),
            Err(e) => required_string_spec(fields@, field@, at@) == Err::<Seq<char>, _>(e@),
        },
{
    match get_field(fields, field, at) {
        Err(e) => Err(e),
        Ok(Some(ManifestValue::Str(s))) => Ok(s.clone()),
        Ok(None) => Err(defect_at(field_path_of(at, field), "missing required field")),
        Ok(Some(ManifestValue::Null)) => Err(
            defect_at(field_path_of(at, field), "missing required field"),
        ),
        Ok(Some(other)) => Err(
            shape_defect_at(field_path_of(at, field), "expected a string", other),
        ),
    }
}

/// The first `n` items of the array of strings at `at`.
pub open spec fn string_items_spec(items: Seq<Slot>, at: Seq<char>, n: int) -> Result<
    Seq<Seq<char>>,
    MagErrorView,
>
    decreases n,
{
    if n <= 0 {
        Ok(Seq::empty())
    } else {
        match string_items_spec(items, at, n - 1) {
            Err(e) => Err(e),
            Ok(acc) => match items[n - 1] {
                Slot::Failed(message) => Err(defect(item_path(at, n - 1), message@)),
                Slot::Value(ManifestValue::Str(s)) => Ok(acc.push(s@)),
                Slot::Value(other) => Err(
                    shape_defect(item_path(at, n - 1), "expected a string"@, other),
                ),
            },
        }
    }
}

/// Once a prefix of an array of strings is rejected, the whole array is, for the same reason.
pub proof fn lemma_string_items_err_stays(items: Seq<Slot>, at: Seq<char>, n: int, total: int)
    requires
        0 <= n <= total,
        string_items_spec(items, at, n) is Err,
    ensures
        string_items_spec(items, at, total) == string_items_spec(items, at, n),
    decreases total - n,
{
    if n < total {
        lemma_string_items_err_stays(items, at, n, total - 1);
    }
}

/// An optional field of the object at `at` that holds an array of strings.
pub open spec fn string_array_spec(
    m: &Manifest,
    fields: Seq<Field>,
    field: Seq<char>,
    at: Seq<char>,
) -> Result<Seq<Seq<char>>, MagErrorView> {
    match get_field_spec(fields, field, at) {
        Err(e) => Err(e),
        Ok(None) => Ok(Seq::empty()),
        Ok(Some(ManifestValue::Null)) => Ok(Seq::empty()),
        Ok(Some(ManifestValue::Arr(a))) => string_items_spec(
            m.arrays@[a as int]@,
            field_path(at, field),
            m.arrays@[a as int]@.len() as int,
        ),
        Ok(Some(other)) => Err(
            shape_defect(field_path(at, field), "expected an array of strings"@, other),
        ),
    }
}

/// Reads an optional field of the object at `at` that holds an array of strings.
pub fn read_string_array(m: &Manifest, fields: &Vec<Field>, field: &str, at: &str) -> (r: Result<
    Vec<String>,
    MagError,
>)
    requires
        m.wf(),
        forall|k: int| 0 <= k < fields@.len() ==> m.slot_ok((#[trigger] fields@[k]).slot),
    ensures
        match r {
            Ok(v) => string_array_spec(m, fields@, field@, at@) == Ok::<_, MagErrorView>(
                strings_view(v@),
            ),
            Err(e) => string_array_spec(m, fields@, field@, at@) == Err::<Seq<Seq<char>>, _>(e@),
        },
{
    match get_field(fields, field, at) {
        Err(e) => Err(e),
        Ok(None) => {
            let out: Vec<String> = Vec::new();
            assert(strings_view(out@) =~= Seq::<Seq<char>>::empty());
            Ok(out)
        },
        Ok(Some(ManifestValue::Null)) => {
            let out: Vec<String> = Vec::new();
            assert(strings_view(out@) =~= Seq::<Seq<char>>::empty());
            Ok(out)
        },
        Ok(Some(ManifestValue::Arr(a))) => {
            proof {
                lemma_field_value_ok(m, fields@, field@);
            }
            let items = &m.arrays[*a];
            let here = field_path_of(at, field);
            let mut out: Vec<String> = Vec::new();
            let mut i: usize = 0;
            assert(strings_view(out@) =~= Seq::<Seq<char>>::empty());
            while i < items.len()
                invariant
                    i <= items@.len(),
                    get_field_spec(fields@, field@, at@) == Ok::<_, MagErrorView>(
                        Some(ManifestValue::Arr(*a)),
                    ),
                    items == m.arrays@[*a as int],
                    here@ == field_path(at@, field@),
                    string_items_spec(items@, here@, i as int) == Ok::<_, MagErrorView>(
                        strings_view(out@),
                    ),
                decreases items@.len() - i,
            {
                proof {
                    if string_items_spec(items@, here@, i + 1) is Err {
                        lemma_string_items_err_stays(items@, here@, i + 1, items@.len() as int);
                    }
                }
                match &items[i] {
                    Slot::Failed(message) => {
                        return Err(
                            defect_at(item_path_of(here.as_str(), i), message.as_str()),
                        );
                    },
                    Slot::Value(ManifestValue::Str(s)) => {
                        let ghost before = strings_view(out@);
                        out.push(s.clone());
                        assert(strings_view(out@) =~= before.push(s@));
                    },
                    Slot::Value(other) => {
                        return Err(
                            shape_defect_at(
                                item_path_of(here.as_str(), i),
                                "expected a string",
                                other,
                            ),
                        );
                    },
                }
                i = i + 1;
            }
            Ok(out)
        },
        Ok(Some(other)) => Err(
            shape_defect_at(field_path_of(at, field), "expected an array of strings", other),
        ),
    }
}

/// A value read from a field names only arrays and objects that the manifest holds.
pub proof fn lemma_field_value_ok(m: &Manifest, fields: Seq<Field>, name: Seq<char>)
    requires
        forall|k: int| 0 <= k < fields.len() ==> m.slot_ok((#[trigger] fields[k]).slot),
    ensures
        match lookup_spec(fields, name) {
            Some(slot) => m.slot_ok(slot),
            None => true,
        },
{
    lemma_find_field_in_range(fields, name, 0);
}

/// A field found lies within the object and carries the name asked for.
pub proof fn lemma_find_field_in_range(fields: Seq<Field>, name: Seq<char>, from: int)
    requires
        0 <= from,
    ensures
        match crate::manifest::find_field(fields, name, from) {
            Some(k) => from <= k < fields.len() && fields[k].name@ == name,
            None => true,
        },
    decreases fields.len() - from,
{
    if from < fields.len() && fields[from].name@ != name {
        lemma_find_field_in_range(fields, name, from + 1);
    }
}

/// The fetch resource declared by item `index` of the fetch list at `at`.
pub open spec fn fetch_item_spec(m: &Manifest, item: Slot, at: Seq<char>, index: int) -> Result<
    FetchResourceView,
    MagErrorView,
> {
    let here = item_path(at, index);
    match item {
        Slot::Failed(message) => Err(defect(here, message@)),
        Slot::Value(ManifestValue::Obj(o)) => {
            let fields = m.objects@[o as int]@;
            match required_string_spec(fields, "filename"@, here) {
                Err(e) => Err(e),
                Ok(filename) => match required_string_spec(fields, "sha256"@, here) {
                    Err(e) => Err(e),
                    Ok(sha256) => match string_array_spec(m, fields, "urls"@, here) {
                        Err(e) => Err(e),
                        Ok(urls) => Ok(FetchResourceView { filename, sha256, urls }),
                    },
                },
            }
        },
        Slot::Value(other) => Err(shape_defect(here, "expected an object"@, other)),
    }
}

/// The first `n` items of the fetch list at `at`.
pub open spec fn fetch_items_spec(m: &Manifest, items: Seq<Slot>, at: Seq<char>, n: int) -> Result<
    Seq<FetchResourceView>,
    MagErrorView,
>
    decreases n,
{
    if n <= 0 {
        Ok(Seq::empty())
    } else {
        match fetch_items_spec(m, items, at, n - 1) {
            Err(e) => Err(e),
            Ok(acc) => match fetch_item_spec(m, items[n - 1], at, n - 1) {
                Err(e) => Err(e),
                Ok(f) => Ok(acc.push(f)),
            },
        }
    }
}

/// Once a prefix of the fetch list is rejected, the whole list is, for the same reason.
pub proof fn lemma_fetch_items_err_stays(
    m: &Manifest,
    items: Seq<Slot>,
    at: Seq<char>,
    n: int,
    total: int,
)
    requires
        0 <= n <= total,
        fetch_items_spec(m, items, at, n) is Err,
    ensures
        fetch_items_spec(m, items, at, total) == fetch_items_spec(m, items, at, n),
    decreases total - n,
{
    if n < total {
        lemma_fetch_items_err_stays(m, items, at, n, total - 1);
    }
}

/// The fetch list of the package object at `at`: empty where none is given.
pub open spec fn read_fetch_spec(m: &Manifest, fields: Seq<Field>, at: Seq<char>) -> Result<
    Seq<FetchResourceView>,
    MagErrorView,
> {
    match get_field_spec(fields, "fetch"@, at) {
        Err(e) => Err(e),
        Ok(None) => Ok(Seq::empty()),
        Ok(Some(ManifestValue::Null)) => Ok(Seq::empty()),
        Ok(Some(ManifestValue::Arr(a))) => fetch_items_spec(
            m,
            m.arrays@[a as int]@,
            field_path(at, "fetch"@),
            m.arrays@[a as int]@.len() as int,
        ),
        Ok(Some(other)) => Err(
            shape_defect(field_path(at, "fetch"@), "expected an array of objects"@, other),
        ),
    }
}

/// Reads item `index` of the fetch list at `at`.
pub fn read_fetch_item(m: &Manifest, item: &Slot, at: &str, index: usize) -> (r: Result<
    FetchResource,
    MagError,
>)
    requires
        m.wf(),
        m.slot_ok(*item),
    ensures
        match r {
            Ok(f) => fetch_item_spec(m, *item, at@, index as int) == Ok::<_, MagErrorView>(f@),
            Err(e) => fetch_item_spec(m, *item, at@, index as int) == Err::<FetchResourceView, _>(
                e@,
            ),
        },
{
    let here = item_path_of(at, index);
    match item {
        Slot::Failed(message) => Err(defect_at(here, message.as_str())),
        Slot::Value(ManifestValue::Obj(o)) => {
            let fields = &m.objects[*o];
            let filename = match read_required_string(fields, "filename", here.as_str()) {
                Err(e) => {
                    return Err(e);
                },
                Ok(s) => s,
            };
            let sha256 = match read_required_string(fields, "sha256", here.as_str()) {
                Err(e) => {
                    return Err(e);
                },
                Ok(s) => s,
            };
            let urls = match read_string_array(m, fields, "urls", here.as_str()) {
                Err(e) => {
                    return Err(e);
                },
                Ok(v) => v,
            };
            Ok(FetchResource { filename, sha256, urls })
        },
        Slot::Value(other) => Err(shape_defect_at(here, "expected an object", other)),
    }
}

/// Reads the fetch list of the package object at `at`.
pub fn read_fetch_list(m: &Manifest, fields: &Vec<Field>, at: &str) -> (r: Result<
    Vec<FetchResource>,
    MagError,
>)
    requires
        m.wf(),
        forall|k: int| 0 <= k < fields@.len() ==> m.slot_ok((#[trigger] fields@[k]).slot),
    ensures
        match r {
            Ok(v) => read_fetch_spec(m, fields@, at@) == Ok::<_, MagErrorView>(fetches_view(v@)),
            Err(e) => read_fetch_spec(m, fields@, at@) == Err::<Seq<FetchResourceView>, _>(e@),
        },
{
    match get_field(fields, "fetch", at) {
        Err(e) => Err(e),
        Ok(None) => {
            let out: Vec<FetchResource> = Vec::new();
            assert(fetches_view(out@) =~= Seq::<FetchResourceView>::empty());
            Ok(out)
        },
        Ok(Some(ManifestValue::Null)) => {
            let out: Vec<FetchResource> = Vec::new();
            assert(fetches_view(out@) =~= Seq::<FetchResourceView>::empty());
            Ok(out)
        },
        Ok(Some(ManifestValue::Arr(a))) => {
            proof {
                lemma_field_value_ok(m, fields@, "fetch"@);
            }
            let items = &m.arrays[*a];
            let here = field_path_of(at, "fetch");
            let mut out: Vec<FetchResource> = Vec::new();
            let mut i: usize = 0;
            assert(fetches_view(out@) =~= Seq::<FetchResourceView>::empty());
            while i < items.len()
                invariant
                    m.wf(),
                    *a < m.arrays@.len(),
                    items == m.arrays@[*a as int],
                    i <= items@.len(),
                    here@ == field_path(at@, "fetch"@),
                    get_field_spec(fields@, "fetch"@, at@) == Ok::<_, MagErrorView>(
                        Some(ManifestValue::Arr(*a)),
                    ),
                    fetch_items_spec(m, items@, here@, i as int) == Ok::<_, MagErrorView>(
                        fetches_view(out@),
                    ),
                decreases items@.len() - i,
            {
                let ghost before = fetches_view(out@);
                proof {
                    if fetch_items_spec(m, items@, here@, i + 1) is Err {
                        lemma_fetch_items_err_stays(m, items@, here@, i + 1, items@.len() as int);
                    }
                }
                match read_fetch_item(m, &items[i], here.as_str(), i) {
                    Err(e) => {
                        return Err(e);
                    },
                    Ok(f) => {
                        out.push(f);
                        assert(fetches_view(out@) =~= before.push(f@));
                    },
                }
                i = i + 1;
            }
            Ok(out)
        },
        Ok(Some(other)) => Err(
            shape_defect_at(field_path_of(at, "fetch"), "expected an array of objects", other),
        ),
    }
}

} // verus!
