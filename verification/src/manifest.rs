//! The evaluated manifest, as the graph builder reads it.
//!
//! A manifest is a graph of values. Arrays and objects live in two arenas
//! and are named by their index there, so that one object can be reached
//! along several paths, and along a cycle. An object's index is its
//! identity. Every child of an array or an object is a [`Slot`]: a value,
//! or the diagnostic with which its evaluation failed.
//!
//! A defect of the manifest is reported with the path of the place where
//! it lies: `$` is the root, `$[2]` an item of it, `$.fetch[0].urls[1]` an
//! item of a field of an item of a field.

use vstd::prelude::*;
use crate::error::{MagError, MagErrorView};
use crate::text::{concat3, decimal, decimal_spec, str_eq};

verus! {

/// One evaluated value.
#[derive(Debug)]
pub enum ManifestValue {
    Null,
    Bool(bool),
    /// A number; the builder reads no number, so its value is not kept.
    Num,
    Str(String),
    /// An array, by its index among the manifest's arrays.
    Arr(usize),
    /// An object, by its index among the manifest's objects.
    Obj(usize),
    Func,
}

/// A child of an array or of an object.
#[derive(Debug)]
pub enum Slot {
    /// The child evaluated to this value.
    Value(ManifestValue),
    /// The child's evaluation failed with this diagnostic.
    Failed(String),
}

/// A named child of an object.
#[derive(Debug)]
pub struct Field {
    pub name: String,
    pub slot: Slot,
}

/// The arenas of one evaluated manifest.
#[derive(Debug)]
pub struct Manifest {
    pub arrays: Vec<Vec<Slot>>,
    pub objects: Vec<Vec<Field>>,
}

/// The name of a value's type, as diagnostics print it.
pub open spec fn kind_name_spec(v: ManifestValue) -> Seq<char> {
    match v {
        ManifestValue::Null => "Null"@,
        ManifestValue::Bool(_) => "Bool"@,
        ManifestValue::Num => "Num"@,
        ManifestValue::Str(_) => "Str"@,
        ManifestValue::Arr(_) => "Arr"@,
        ManifestValue::Obj(_) => "Obj"@,
        ManifestValue::Func => "Func"@,
    }
}

/// The index of the first field at or after `from` that is called `name`.
pub open spec fn find_field(fields: Seq<Field>, name: Seq<char>, from: int) -> Option<int>
    decreases fields.len() - from,
{
    if from < 0 || from >= fields.len() {
        None
    } else if fields[from].name@ == name {
        Some(from)
    } else {
        find_field(fields, name, from + 1)
    }
}

/// The child called `name` of an object, if it has one.
pub open spec fn lookup_spec(fields: Seq<Field>, name: Seq<char>) -> Option<Slot> {
    match find_field(fields, name, 0) {
        Some(k) => Some(fields[k].slot),
        None => None,
    }
}

/// The path of the manifest's root.
pub open spec fn root_path() -> Seq<char> {
    "$"@
}

/// The path of the field `field` of what lies at `at`.
pub open spec fn field_path(at: Seq<char>, field: Seq<char>) -> Seq<char> {
    at + "."@ + field
}

/// The path of item `index` of the array at `at`.
pub open spec fn item_path(at: Seq<char>, index: int) -> Seq<char> {
    at + "["@ + decimal_spec(index as nat) + "]"@
}

/// The diagnostic for a defect of the manifest at the path `at`.
pub open spec fn defect(at: Seq<char>, message: Seq<char>) -> MagErrorView {
    MagErrorView::Evaluation { context: at, message }
}

/// The diagnostic for a value of the wrong type at the path `at`.
pub open spec fn shape_defect(at: Seq<char>, expected: Seq<char>, v: ManifestValue) -> MagErrorView {
    defect(at, expected + ", got "@ + kind_name_spec(v))
}

/// What reading the field `name` of the object at `at` gives: nothing, a
/// value, or the failure of its evaluation.
pub open spec fn get_field_spec(fields: Seq<Field>, name: Seq<char>, at: Seq<char>) -> Result<
    Option<ManifestValue>,
    MagErrorView,
> {
    match lookup_spec(fields, name) {
        None => Ok(None),
        Some(Slot::Value(v)) => Ok(Some(v)),
        Some(Slot::Failed(message)) => Err(defect(field_path(at, name), message@)),
    }
}

impl Manifest {
    /// A slot names only arrays and objects that the manifest holds.
    pub open spec fn slot_ok(&self, slot: Slot) -> bool {
        match slot {
            Slot::Value(ManifestValue::Arr(a)) => a < self.arrays@.len(),
            Slot::Value(ManifestValue::Obj(o)) => o < self.objects@.len(),
            _ => true,
        }
    }

    /// Every slot of the manifest names only arrays and objects that it holds.
    pub open spec fn wf(&self) -> bool {
        &&& forall|a: int, k: int|
            0 <= a < self.arrays@.len() && 0 <= k < self.arrays@[a]@.len() ==> self.slot_ok(
                #[trigger] self.arrays@[a]@[k],
            )
        &&& forall|o: int, k: int|
            0 <= o < self.objects@.len() && 0 <= k < self.objects@[o]@.len() ==> self.slot_ok(
                (#[trigger] self.objects@[o]@[k]).slot,
            )
    }

    /// A manifest without arrays and objects.
    pub fn new() -> (m: Manifest)
        ensures
            m.wf(),
            m.arrays@.len() == 0,
            m.objects@.len() == 0,
    {
        Manifest { arrays: Vec::new(), objects: Vec::new() }
    }

    fn check_slot(&self, slot: &Slot) -> (ok: bool)
        ensures
            ok == self.slot_ok(*slot),
    {
        match slot {
            Slot::Value(ManifestValue::Arr(a)) => *a < self.arrays.len(),
            Slot::Value(ManifestValue::Obj(o)) => *o < self.objects.len(),
            _ => true,
        }
    }

    /// Whether `value` names only an array or an object that the manifest holds.
    pub fn holds(&self, value: &ManifestValue) -> (ok: bool)
        ensures
            ok == self.slot_ok(Slot::Value(*value)),
    {
        match value {
            ManifestValue::Arr(a) => *a < self.arrays.len(),
            ManifestValue::Obj(o) => *o < self.objects.len(),
            _ => true,
        }
    }

    /// Whether every slot names only arrays and objects that the manifest holds.
    pub fn well_formed(&self) -> (ok: bool)
        ensures
            ok == self.wf(),
    {
        let mut a: usize = 0;
        while a < self.arrays.len()
            invariant
                a <= self.arrays@.len(),
                forall|i: int, k: int|
                    0 <= i < a && 0 <= k < self.arrays@[i]@.len() ==> self.slot_ok(
                        #[trigger] self.arrays@[i]@[k],
                    ),
            decreases self.arrays@.len() - a,
        {
            let items = &self.arrays[a];
            let mut k: usize = 0;
            while k < items.len()
                invariant
                    a < self.arrays@.len(),
                    items == self.arrays@[a as int],
                    k <= items@.len(),
                    forall|j: int| 0 <= j < k ==> self.slot_ok(#[trigger] items@[j]),
                decreases items@.len() - k,
            {
                if !self.check_slot(&items[k]) {
                    assert(!self.slot_ok(self.arrays@[a as int]@[k as int]));
                    return false;
                }
                k = k + 1;
            }
            a = a + 1;
        }
        let mut o: usize = 0;
        while o < self.objects.len()
            invariant
                o <= self.objects@.len(),
                forall|i: int, k: int|
                    0 <= i < self.arrays@.len() && 0 <= k < self.arrays@[i]@.len()
                        ==> self.slot_ok(#[trigger] self.arrays@[i]@[k]),
                forall|i: int, k: int|
                    0 <= i < o && 0 <= k < self.objects@[i]@.len() ==> self.slot_ok(
                        (#[trigger] self.objects@[i]@[k]).slot,
                    ),
            decreases self.objects@.len() - o,
        {
            let fields = &self.objects[o];
            let mut k: usize = 0;
            while k < fields.len()
                invariant
                    o < self.objects@.len(),
                    fields == self.objects@[o as int],
                    k <= fields@.len(),
                    forall|j: int| 0 <= j < k ==> self.slot_ok((#[trigger] fields@[j]).slot),
                decreases fields@.len() - k,
            {
                if !self.check_slot(&fields[k].slot) {
                    assert(!self.slot_ok(self.objects@[o as int]@[k as int].slot));
                    return false;
                }
                k = k + 1;
            }
            o = o + 1;
        }
        true
    }
}

/// The name of a value's type, as diagnostics print it.
pub fn kind_name(v: &ManifestValue) -> (out: String)
    ensures
        out@ == kind_name_spec(*v),
{
    match v {
        ManifestValue::Null => String::from_str("Null"),
        ManifestValue::Bool(_) => String::from_str("Bool"),
        ManifestValue::Num => String::from_str("Num"),
        ManifestValue::Str(_) => String::from_str("Str"),
        ManifestValue::Arr(_) => String::from_str("Arr"),
        ManifestValue::Obj(_) => String::from_str("Obj"),
        ManifestValue::Func => String::from_str("Func"),
    }
}

/// The path of the field `field` of what lies at `at`.
pub fn field_path_of(at: &str, field: &str) -> (out: String)
    ensures
        out@ == field_path(at@, field@),
{
    concat3(at, ".", field)
}

/// The path of item `index` of the array at `at`.
pub fn item_path_of(at: &str, index: usize) -> (out: String)
    ensures
        out@ == item_path(at@, index as int),
{
    let digits = decimal(index as u64);
    let mut out = concat3(at, "[", digits.as_str());
    out.append("]");
    out
}

/// The diagnostic for a defect of the manifest at the path `at`.
pub fn defect_at(at: String, message: &str) -> (e: MagError)
    ensures
        e@ == defect(at@, message@),
{
    MagError::Evaluation { context: at, message: String::from_str(message) }
}

/// The diagnostic for a value of the wrong type at the path `at`.
pub fn shape_defect_at(at: String, expected: &str, v: &ManifestValue) -> (e: MagError)
    ensures
        e@ == shape_defect(at@, expected@, *v),
{
    let kind = kind_name(v);
    MagError::Evaluation { context: at, message: concat3(expected, ", got ", kind.as_str()) }
}

/// Reads the field `name` of the object at the path `at`.
pub fn get_field<'a>(fields: &'a Vec<Field>, name: &str, at: &str) -> (r: Result<
    Option<&'a ManifestValue>,
    MagError,
>)
    ensures
        match r {
            Ok(Some(v)) => get_field_spec(fields@, name@, at@) == Ok::<_, MagErrorView>(Some(*v)),
            Ok(None) => get_field_spec(fields@, name@, at@) == Ok::<
                Option<ManifestValue>,
                MagErrorView,
            >(None),
            Err(e) => get_field_spec(fields@, name@, at@) == Err::<Option<ManifestValue>, _>(e@),
        },
{
    let mut i: usize = 0;
    while i < fields.len()
        invariant
            i <= fields@.len(),
            find_field(fields@, name@, 0) == find_field(fields@, name@, i as int),
        decreases fields@.len() - i,
    {
        if str_eq(fields[i].name.as_str(), name) {
            match &fields[i].slot {
                Slot::Value(v) => {
                    return Ok(Some(v));
                },
                Slot::Failed(message) => {
                    return Err(defect_at(field_path_of(at, name), message.as_str()));
                },
            }
        }
        i = i + 1;
    }
    Ok(None)
}

} // verus!
