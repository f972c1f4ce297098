//! Operations on JSON documents and their application.
//!
//! An `Assign` operation replaces, inserts or deletes the member of an object that
//! a dotted path names; a `Splice` operation removes a range of an array that a
//! dotted path names and inserts other elements in its place.
use vstd::prelude::*;
use vstd::string::*;
use crate::json::{
    child, entries_view, entry_insert, entry_remove, find_entry, insert_entry,
    lemma_values_view_push, lemma_view_shape, remove_entry, values_view, well_formed, JsonView,
    Value,
};
use crate::text::{
    lemma_split_dots_nonempty, decimal, occurs_in, split_dots, split_dots_exec, usize_text,
    contains,
};

verus! {

/// A dotted path into a document: `"a.b"` is member `b` of member `a`.
pub type Path = String;

/// A revision of an object.
pub type RevId = i64;

/// The identifier of an object.
pub type ObjectId = String;

/// The revision of the snapshot that every object starts from.
pub const ZERO_REV_ID: RevId = 0;

/// An operation on a JSON document.
#[derive(Debug, PartialEq)]
pub enum Operation {
    /// Sets member `path` of an object to `value`, or deletes it when `value` is `None`.
    /// The empty path stands for the whole document.
    Assign { path: Path, value: Option<Value> },
    /// Removes `remove` elements of the array at `path`, from `index` on, and puts
    /// the elements of the array `insert` in their place.
    Splice { path: Path, index: usize, remove: usize, insert: Value },
}

/// The content of an [`Operation`].
pub enum OpView {
    Assign { path: Seq<char>, value: Option<JsonView> },
    Splice { path: Seq<char>, index: int, remove: int, insert: JsonView },
}

pub open spec fn opt_view(v: Option<Value>) -> Option<JsonView> {
    match v {
        Some(x) => Some(x@),
        None => None,
    }
}

impl View for Operation {
    type V = OpView;

    open spec fn view(&self) -> OpView {
        match self {
            Operation::Assign { path, value } => OpView::Assign { path: path@, value: opt_view(*value) },
            Operation::Splice { path, index, remove, insert } => OpView::Splice {
                path: path@,
                index: *index as int,
                remove: *remove as int,
                insert: insert@,
            },
        }
    }
}

impl OpView {
    pub open spec fn path(self) -> Seq<char> {
        match self {
            OpView::Assign { path, .. } => path,
            OpView::Splice { path, .. } => path,
        }
    }
}

/// What the elements of an array are, as far as a splice checks them.
#[derive(Clone, Copy, Debug, PartialEq, Eq, Structural)]
pub enum ElemKind {
    Number,
    Bool,
    Str,
    Object,
}

/// Why an operation does not apply to a document.
pub enum Failure {
    /// An `Assign` of the whole document without a value.
    SetWithoutValue,
    /// A splice's insert, or the value it splices, is not an array.
    NotArray,
    /// A key along the path is missing.
    Key(Seq<char>),
    /// An `Assign` whose parent is not an object.
    NotObject,
    /// A splice range that does not fit in the array: its length, index and removal count.
    Range(int, int, int),
    /// The array and the inserted elements start with elements of this kind, but not all are.
    Mixed(ElemKind),
    /// The array and the inserted elements start with elements of different kinds.
    DifferentTypes,
    /// Spliced objects without an `"id"` member.
    MissingId,
}

pub open spec fn kind_of(v: JsonView) -> Option<ElemKind> {
    match v {
        JsonView::Number(_) => Some(ElemKind::Number),
        JsonView::Bool(_) => Some(ElemKind::Bool),
        JsonView::Str(_) => Some(ElemKind::Str),
        JsonView::Object(_) => Some(ElemKind::Object),
        _ => None,
    }
}

pub open spec fn all_of_kind(s: Seq<JsonView>, k: ElemKind) -> bool {
    forall|i: int| 0 <= i < s.len() ==> kind_of(#[trigger] s[i]) == Some(k)
}

/// An object with an `"id"` member.
pub open spec fn has_id(v: JsonView) -> bool {
    child(v, "id"@) is Some
}

pub open spec fn all_have_id(s: Seq<JsonView>) -> bool {
    forall|i: int| 0 <= i < s.len() ==> has_id(#[trigger] s[i])
}

/// Whether elements `b` may be spliced into the array `a`: all elements of both
/// must be of one kind (numbers, booleans, strings, or objects that all have an
/// `"id"`), the kind of the first element of `a` (of `b` when `a` is empty).
/// Removing only (`b` empty) is always allowed.
pub open spec fn type_check(a: Seq<JsonView>, b: Seq<JsonView>) -> Option<Failure> {
    if b.len() == 0 {
        None
    } else if a.len() == 0 {
        match kind_of(b[0]) {
            None => Some(Failure::DifferentTypes),
            Some(k) => if !all_of_kind(b, k) {
                Some(Failure::Mixed(k))
            } else if k == ElemKind::Object && !all_have_id(b) {
                Some(Failure::MissingId)
            } else {
                None
            },
        }
    } else if kind_of(a[0]) is Some && kind_of(a[0]) == kind_of(b[0]) {
        let k = kind_of(a[0])->0;
        if !(all_of_kind(a, k) && all_of_kind(b, k)) {
            Some(Failure::Mixed(k))
        } else if k == ElemKind::Object && !(all_have_id(a) && all_have_id(b)) {
            Some(Failure::MissingId)
        } else {
            None
        }
    } else {
        Some(Failure::DifferentTypes)
    }
}

/// The array `a` with `remove` elements from `index` on replaced by `ins`.
pub open spec fn splice_seq(a: Seq<JsonView>, index: int, remove: int, ins: Seq<JsonView>) -> Result<
    Seq<JsonView>,
    Failure,
> {
    if a.len() < index + remove {
        Err(Failure::Range(a.len() as int, index, remove))
    } else {
        match type_check(a, ins) {
            Some(f) => Err(f),
            None => Ok(a.take(index) + ins + a.skip(index + remove)),
        }
    }
}

/// The members `e` with the value of the first member with key `k` replaced by `v`.
pub open spec fn entry_update(e: Seq<(Seq<char>, JsonView)>, k: Seq<char>, v: JsonView) -> Seq<
    (Seq<char>, JsonView),
>
    decreases e.len(),
{
    if e.len() == 0 {
        e
    } else if e[0].0 == k {
        seq![(k, v)] + e.drop_first()
    } else {
        seq![e[0]] + entry_update(e.drop_first(), k, v)
    }
}

/// `v` with member `k` replaced by `c`, where `v` is an object.
pub open spec fn with_child(v: JsonView, k: Seq<char>, c: JsonView) -> JsonView {
    match v {
        JsonView::Object(e) => JsonView::Object(entry_update(e, k, c)),
        _ => v,
    }
}

/// `v` with the member that the path `segs` names set to `value` (or deleted).
pub open spec fn set_in(v: JsonView, segs: Seq<Seq<char>>, value: Option<JsonView>) -> Result<
    JsonView,
    Failure,
>
    decreases segs.len(),
{
    if segs.len() <= 1 {
        match v {
            JsonView::Object(e) => Ok(
                JsonView::Object(
                    match value {
                        Some(x) => entry_insert(e, segs[0], x),
                        None => entry_remove(e, segs[0]),
                    },
                ),
            ),
            _ => Err(Failure::NotObject),
        }
    } else {
        match child(v, segs[0]) {
            None => Err(Failure::Key(segs[0])),
            Some(c) => match set_in(c, segs.drop_first(), value) {
                Ok(c2) => Ok(with_child(v, segs[0], c2)),
                Err(f) => Err(f),
            },
        }
    }
}

/// `v` with the array that the path `segs` names spliced.
pub open spec fn splice_in(
    v: JsonView,
    segs: Seq<Seq<char>>,
    index: int,
    remove: int,
    ins: Seq<JsonView>,
) -> Result<JsonView, Failure>
    decreases segs.len(),
{
    if segs.len() <= 1 {
        match child(v, segs[0]) {
            None => Err(Failure::Key(segs[0])),
            Some(JsonView::Array(a)) => match splice_seq(a, index, remove, ins) {
                Ok(a2) => Ok(with_child(v, segs[0], JsonView::Array(a2))),
                Err(f) => Err(f),
            },
            Some(_) => Err(Failure::NotArray),
        }
    } else {
        match child(v, segs[0]) {
            None => Err(Failure::Key(segs[0])),
            Some(c) => match splice_in(c, segs.drop_first(), index, remove, ins) {
                Ok(c2) => Ok(with_child(v, segs[0], c2)),
                Err(f) => Err(f),
            },
        }
    }
}

/// The document that applying `op` to `v` gives, or why it does not apply.
pub open spec fn apply_spec(op: OpView, v: JsonView) -> Result<JsonView, Failure> {
    match op {
        OpView::Assign { path, value } => if path.len() == 0 {
            match value {
                Some(x) => Ok(x),
                None => Err(Failure::SetWithoutValue),
            }
        } else {
            set_in(v, split_dots(path), value)
        },
        OpView::Splice { path, index, remove, insert } => match insert {
            JsonView::Array(ins) => splice_in(v, split_dots(path), index, remove, ins),
            _ => Err(Failure::NotArray),
        },
    }
}

/// Every value that an operation puts into a document is well formed, and a
/// splice's index and count are natural numbers.
pub open spec fn op_well_formed(op: OpView) -> bool {
    match op {
        OpView::Assign { value, .. } => value matches Some(x) ==> well_formed(x),
        OpView::Splice { index, remove, insert, .. } => 0 <= index && 0 <= remove && well_formed(
            insert,
        ),
    }
}

/// An error of the operational transformation.
#[derive(Debug)]
pub enum OtError {
    Index(String),
    InvalidSetOp(),
    Key(String),
    NoId(),
    Operation(String),
    Path(String),
    Rebase(String),
    Type(String),
    ValueIsNotArray(),
}

/// The content of an [`OtError`].
pub enum OtErrorView {
    Index(Seq<char>),
    InvalidSetOp,
    Key(Seq<char>),
    NoId,
    Operation(Seq<char>),
    Path(Seq<char>),
    Rebase(Seq<char>),
    Type(Seq<char>),
    ValueIsNotArray,
}

impl View for OtError {
    type V = OtErrorView;

    open spec fn view(&self) -> OtErrorView {
        match self {
            OtError::Index(m) => OtErrorView::Index(m@),
            OtError::InvalidSetOp() => OtErrorView::InvalidSetOp,
            OtError::Key(m) => OtErrorView::Key(m@),
            OtError::NoId() => OtErrorView::NoId,
            OtError::Operation(m) => OtErrorView::Operation(m@),
            OtError::Path(m) => OtErrorView::Path(m@),
            OtError::Rebase(m) => OtErrorView::Rebase(m@),
            OtError::Type(m) => OtErrorView::Type(m@),
            OtError::ValueIsNotArray() => OtErrorView::ValueIsNotArray,
        }
    }
}

/// The text of an error, as it is displayed.
pub open spec fn ot_error_text(e: OtErrorView) -> Seq<char> {
    match e {
        OtErrorView::Index(m) => "IndexError: "@ + m,
        OtErrorView::InvalidSetOp => "NoId"@,
        OtErrorView::Key(m) => "KeyError: "@ + m,
        OtErrorView::NoId => "NoId"@,
        OtErrorView::Operation(m) => "Operation: "@ + m,
        OtErrorView::Path(m) => "PathError: "@ + m,
        OtErrorView::Rebase(m) => "Rebase: "@ + m,
        OtErrorView::Type(m) => "TypeError: "@ + m,
        OtErrorView::ValueIsNotArray => "ValueIsNotArray"@,
    }
}

pub open spec fn kind_name(k: ElemKind) -> Seq<char> {
    match k {
        ElemKind::Number => "Number"@,
        ElemKind::Bool => "Bool"@,
        ElemKind::Str => "String"@,
        ElemKind::Object => "Object"@,
    }
}

/// The error that [`Operation::apply_to`] reports for a failure.
pub open spec fn ot_error_for(f: Failure) -> OtErrorView {
    match f {
        Failure::SetWithoutValue => OtErrorView::Operation(
            "set operation with an empty path and no value is undefined"@,
        ),
        Failure::NotArray => OtErrorView::ValueIsNotArray,
        Failure::Key(k) => OtErrorView::Key(k),
        Failure::NotObject => OtErrorView::Type("value is expected to be a Value::Object"@),
        Failure::Range(len, index, remove) => OtErrorView::Index(
            "len "@ + decimal(len as nat) + " <= index "@ + decimal(index as nat) + " + remove "@
                + decimal(remove as nat),
        ),
        Failure::Mixed(k) => OtErrorView::Type("not all array elements of type "@ + kind_name(k)),
        Failure::DifferentTypes => OtErrorView::Type("arrays have different types"@),
        Failure::MissingId => OtErrorView::NoId,
    }
}

impl OtError {
    /// The text of the error.
    pub fn to_string(&self) -> (s: String)
        ensures
            s@ == ot_error_text(self@),
    {
        match self {
            OtError::Index(e) => String::from_str("IndexError: ").concat(e.as_str()),
            OtError::InvalidSetOp() => String::from_str("NoId"),
            OtError::Key(e) => String::from_str("KeyError: ").concat(e.as_str()),
            OtError::NoId() => String::from_str("NoId"),
            OtError::Operation(e) => String::from_str("Operation: ").concat(e.as_str()),
            OtError::Path(e) => String::from_str("PathError: ").concat(e.as_str()),
            OtError::Rebase(e) => String::from_str("Rebase: ").concat(e.as_str()),
            OtError::Type(e) => String::from_str("TypeError: ").concat(e.as_str()),
            OtError::ValueIsNotArray() => String::from_str("ValueIsNotArray"),
        }
    }
}

/// A failure, as the executable code reports it.
pub enum ApplyFailure {
    SetWithoutValue,
    NotArray,
    Key(String),
    NotObject,
    Range(usize, usize, usize),
    Mixed(ElemKind),
    DifferentTypes,
    MissingId,
}

impl View for ApplyFailure {
    type V = Failure;

    open spec fn view(&self) -> Failure {
        match self {
            ApplyFailure::SetWithoutValue => Failure::SetWithoutValue,
            ApplyFailure::NotArray => Failure::NotArray,
            ApplyFailure::Key(k) => Failure::Key(k@),
            ApplyFailure::NotObject => Failure::NotObject,
            ApplyFailure::Range(l, i, r) => Failure::Range(*l as int, *i as int, *r as int),
            ApplyFailure::Mixed(k) => Failure::Mixed(*k),
            ApplyFailure::DifferentTypes => Failure::DifferentTypes,
            ApplyFailure::MissingId => Failure::MissingId,
        }
    }
}

fn kind_name_exec(k: ElemKind) -> (s: &'static str)
    ensures
        s@ == kind_name(k),
{
    match k {
        ElemKind::Number => "Number",
        ElemKind::Bool => "Bool",
        ElemKind::Str => "String",
        ElemKind::Object => "Object",
    }
}

/// The error of the operational transformation that reports a failure.
pub fn ot_error_of(f: ApplyFailure) -> (e: OtError)
    ensures
        e@ == ot_error_for(f@),
{
    match f {
        ApplyFailure::SetWithoutValue => OtError::Operation(
            String::from_str("set operation with an empty path and no value is undefined"),
        ),
        ApplyFailure::NotArray => OtError::ValueIsNotArray(),
        ApplyFailure::Key(k) => OtError::Key(k),
        ApplyFailure::NotObject => OtError::Type(
            String::from_str("value is expected to be a Value::Object"),
        ),
        ApplyFailure::Range(len, index, remove) => {
            let mut m = String::from_str("len ");
            m.append(usize_text(len).as_str());
            m.append(" <= index ");
            m.append(usize_text(index).as_str());
            m.append(" + remove ");
            m.append(usize_text(remove).as_str());
            OtError::Index(m)
        },
        ApplyFailure::Mixed(k) => {
            let mut m = String::from_str("not all array elements of type ");
            m.append(kind_name_exec(k));
            OtError::Type(m)
        },
        ApplyFailure::DifferentTypes => OtError::Type(
            String::from_str("arrays have different types"),
        ),
        ApplyFailure::MissingId => OtError::NoId(),
    }
}

/// The kind of an array element, if a splice accepts elements of its kind.
pub fn kind_of_value(v: &Value) -> (k: Option<ElemKind>)
    ensures
        k == kind_of(v@),
{
    proof {
        lemma_view_shape(*v);
    }
    match v {
        Value::Number(_) => Some(ElemKind::Number),
        Value::Bool(_) => Some(ElemKind::Bool),
        Value::String(_) => Some(ElemKind::Str),
        Value::Object(_) => Some(ElemKind::Object),
        _ => None,
    }
}

/// Whether `v` is an object with an `"id"` member.
pub fn has_id_value(v: &Value) -> (r: bool)
    ensures
        r == has_id(v@),
{
    proof {
        lemma_view_shape(*v);
    }
    match v {
        Value::Object(o) => find_entry(o, "id").is_some(),
        _ => false,
    }
}

fn all_of_kind_exec(s: &Vec<Value>, k: ElemKind) -> (r: bool)
    ensures
        r == all_of_kind(values_view(s@), k),
{
    let mut i: usize = 0;
    while i < s.len()
        invariant
            i <= s@.len(),
            forall|j: int| 0 <= j < i ==> kind_of(#[trigger] values_view(s@)[j]) == Some(k),
        decreases s.len() - i,
    {
        if kind_of_value(&s[i]) != Some(k) {
            assert(values_view(s@)[i as int] == s@[i as int]@);
            return false;
        }
        assert(values_view(s@)[i as int] == s@[i as int]@);
        i = i + 1;
    }
    true
}

fn all_have_id_exec(s: &Vec<Value>) -> (r: bool)
    ensures
        r == all_have_id(values_view(s@)),
{
    let mut i: usize = 0;
    while i < s.len()
        invariant
            i <= s@.len(),
            forall|j: int| 0 <= j < i ==> has_id(#[trigger] values_view(s@)[j]),
        decreases s.len() - i,
    {
        assert(values_view(s@)[i as int] == s@[i as int]@);
        if !has_id_value(&s[i]) {
            return false;
        }
        i = i + 1;
    }
    true
}

/// Elements of arrays that are spliced together must have the same type; if they
/// are objects, each one must have an `"id"` member.
pub fn check_type_consistency(a: &Vec<Value>, b: &Vec<Value>) -> (r: Option<ApplyFailure>)
    ensures
        match r {
            None => type_check(values_view(a@), values_view(b@)) is None,
            Some(f) => type_check(values_view(a@), values_view(b@)) == Some(f@),
        },
{
    let ghost av = values_view(a@);
    let ghost bv = values_view(b@);
    if b.len() == 0 {
        return None;
    }
    assert(bv[0] == b@[0]@);
    if a.len() == 0 {
        return match kind_of_value(&b[0]) {
            None => Some(ApplyFailure::DifferentTypes),
            Some(k) => if !all_of_kind_exec(b, k) {
                Some(ApplyFailure::Mixed(k))
            } else if k == ElemKind::Object && !all_have_id_exec(b) {
                Some(ApplyFailure::MissingId)
            } else {
                None
            },
        };
    }
    assert(av[0] == a@[0]@);
    assert(bv[0] == b@[0]@);
    let ka = kind_of_value(&a[0]);
    let kb = kind_of_value(&b[0]);
    match ka {
        None => Some(ApplyFailure::DifferentTypes),
        Some(k) => {
            if kb != Some(k) {
                return Some(ApplyFailure::DifferentTypes);
            }
            if !(all_of_kind_exec(a, k) && all_of_kind_exec(b, k)) {
                return Some(ApplyFailure::Mixed(k));
            }
            if k == ElemKind::Object && !(all_have_id_exec(a) && all_have_id_exec(b)) {
                return Some(ApplyFailure::MissingId);
            }
            None
        },
    }
}

/// Replaces the value of member `i`, whose key is `k`, keeping its place.
proof fn lemma_entry_update_at(e: Seq<(Seq<char>, JsonView)>, k: Seq<char>, v: JsonView, i: int)
    requires
        0 <= i < e.len(),
        e[i].0 == k,
        forall|j: int| 0 <= j < i ==> e[j].0 != k,
    ensures
        entry_update(e, k, v) == e.update(i, (k, v)),
    decreases i,
{
    if i > 0 {
        lemma_entry_update_at(e.drop_first(), k, v, i - 1);
        assert(e.update(i, (k, v)) =~= seq![e[0]] + e.drop_first().update(i - 1, (k, v)));
    } else {
        assert(e.update(0, (k, v)) =~= seq![(k, v)] + e.drop_first());
    }
}

pub open spec fn segs_view(segs: Seq<String>) -> Seq<Seq<char>> {
    segs.map_values(|s: String| s@)
}

/// Sets (or deletes) the member at the path `segs[d..]` of `v`.
fn set_at(v: Value, segs: &Vec<String>, d: usize, value: Option<Value>) -> (r: Result<
    Value,
    ApplyFailure,
>)
    requires
        d < segs@.len(),
    ensures
        match r {
            Ok(w) => set_in(v@, segs_view(segs@).skip(d as int), opt_view(value)) == Ok::<
                JsonView,
                Failure,
            >(w@),
            Err(f) => set_in(v@, segs_view(segs@).skip(d as int), opt_view(value)) == Err::<
                JsonView,
                Failure,
            >(f@),
        },
    decreases segs@.len() - d,
{
    let ghost rest = segs_view(segs@).skip(d as int);
    proof {
        lemma_view_shape(v);
        assert(rest[0] == segs@[d as int]@);
        assert(rest.len() == segs@.len() - d);
    }
    if d == segs.len() - 1 {
        match v {
            Value::Object(mut o) => {
                match value {
                    Some(x) => {
                        let k = segs[d].clone();
                        insert_entry(&mut o, k, x);
                    },
                    None => {
                        let _ = remove_entry(&mut o, segs[d].as_str());
                    },
                }
                proof {
                    lemma_view_shape(Value::Object(o));
                }
                Ok(Value::Object(o))
            },
            _ => Err(ApplyFailure::NotObject),
        }
    } else {
        proof {
            assert(rest.drop_first() =~= segs_view(segs@).skip(d + 1));
        }
        match v {
            Value::Object(mut o) => {
                let ghost e = entries_view(o@);
                match find_entry(&o, segs[d].as_str()) {
                    None => Err(ApplyFailure::Key(segs[d].clone())),
                    Some(i) => {
                        let (k, c) = o.remove(i);
                        match set_at(c, segs, d + 1, value) {
                            Ok(c2) => {
                                let ghost c2v = c2@;
                                o.insert(i, (k, c2));
                                proof {
                                    assert forall|j: int| 0 <= j < i implies e[j].0
                                        != segs@[d as int]@ by {
                                        assert(e[j].0 == o@[j].0@);
                                    }
                                    lemma_entry_update_at(e, segs@[d as int]@, c2v, i as int);
                                    assert(entries_view(o@) =~= e.update(
                                        i as int,
                                        (segs@[d as int]@, c2v),
                                    ));
                                    lemma_view_shape(Value::Object(o));
                                }
                                Ok(Value::Object(o))
                            },
                            Err(f) => Err(f),
                        }
                    },
                }
            },
            _ => Err(ApplyFailure::Key(segs[d].clone())),
        }
    }
}

/// Replaces `remove` elements of `a` from `index` on with the elements of `ins`.
fn splice_vec(a: &Vec<Value>, index: usize, remove: usize, ins: &Vec<Value>) -> (r: Result<
    Vec<Value>,
    ApplyFailure,
>)
    ensures
        match r {
            Ok(w) => splice_seq(values_view(a@), index as int, remove as int, values_view(ins@))
                == Ok::<Seq<JsonView>, Failure>(values_view(w@)),
            Err(f) => splice_seq(values_view(a@), index as int, remove as int, values_view(ins@))
                == Err::<Seq<JsonView>, Failure>(f@),
        },
{
    let ghost av = values_view(a@);
    let ghost iv = values_view(ins@);
    if index > a.len() || remove > a.len() - index {
        return Err(ApplyFailure::Range(a.len(), index, remove));
    }
    match check_type_consistency(a, ins) {
        Some(f) => Err(f),
        None => {
            let mut out: Vec<Value> = Vec::new();
            let mut j: usize = 0;
            while j < index
                invariant
                    index <= a@.len(),
                    j <= index,
                    values_view(out@) =~= av.take(j as int),
                    av == values_view(a@),
                decreases index - j,
            {
                let x = a[j].duplicate();
                proof {
                    lemma_values_view_push(out@, x);
                    assert(av[j as int] == a@[j as int]@);
                }
                out.push(x);
                j = j + 1;
                assert(values_view(out@) =~= av.take(j as int));
            }
            let mut j: usize = 0;
            while j < ins.len()
                invariant
                    index <= a@.len(),
                    j <= ins@.len(),
                    values_view(out@) =~= av.take(index as int) + iv.take(j as int),
                    av == values_view(a@),
                    iv == values_view(ins@),
                decreases ins.len() - j,
            {
                let x = ins[j].duplicate();
                proof {
                    lemma_values_view_push(out@, x);
                    assert(iv[j as int] == ins@[j as int]@);
                }
                out.push(x);
                j = j + 1;
                assert(values_view(out@) =~= av.take(index as int) + iv.take(j as int));
            }
            let mut j: usize = index + remove;
            while j < a.len()
                invariant
                    index + remove <= j <= a@.len(),
                    values_view(out@) =~= av.take(index as int) + iv + av.subrange(
                        index + remove,
                        j as int,
                    ),
                    av == values_view(a@),
                    iv == values_view(ins@),
                decreases a.len() - j,
            {
                let x = a[j].duplicate();
                proof {
                    lemma_values_view_push(out@, x);
                    assert(av[j as int] == a@[j as int]@);
                }
                out.push(x);
                j = j + 1;
                assert(values_view(out@) =~= av.take(index as int) + iv + av.subrange(
                    index + remove,
                    j as int,
                ));
            }
            assert(av.subrange(index + remove, a@.len() as int) =~= av.skip(index + remove));
            assert(iv.take(ins@.len() as int) =~= iv);
            Ok(out)
        },
    }
}

/// Splices the array at the path `segs[d..]` of `v`.
fn splice_at(v: Value, segs: &Vec<String>, d: usize, index: usize, remove: usize, ins: &Vec<Value>) -> (r:
    Result<Value, ApplyFailure>)
    requires
        d < segs@.len(),
    ensures
        match r {
            Ok(w) => splice_in(
                v@,
                segs_view(segs@).skip(d as int),
                index as int,
                remove as int,
                values_view(ins@),
            ) == Ok::<JsonView, Failure>(w@),
            Err(f) => splice_in(
                v@,
                segs_view(segs@).skip(d as int),
                index as int,
                remove as int,
                values_view(ins@),
            ) == Err::<JsonView, Failure>(f@),
        },
    decreases segs@.len() - d,
{
    let ghost rest = segs_view(segs@).skip(d as int);
    proof {
        lemma_view_shape(v);
        assert(rest[0] == segs@[d as int]@);
        assert(rest.len() == segs@.len() - d);
        assert(rest.drop_first() =~= segs_view(segs@).skip(d + 1));
    }
    match v {
        Value::Object(mut o) => {
            let ghost e = entries_view(o@);
            match find_entry(&o, segs[d].as_str()) {
                None => Err(ApplyFailure::Key(segs[d].clone())),
                Some(i) => {
                    let (k, c) = o.remove(i);
                    let res = if d == segs.len() - 1 {
                        proof {
                            lemma_view_shape(c);
                        }
                        match c {
                            Value::Array(a) => match splice_vec(&a, index, remove, ins) {
                                Ok(a2) => {
                                    proof {
                                        lemma_view_shape(Value::Array(a2));
                                    }
                                    Ok(Value::Array(a2))
                                },
                                Err(f) => Err(f),
                            },
                            _ => Err(ApplyFailure::NotArray),
                        }
                    } else {
                        splice_at(c, segs, d + 1, index, remove, ins)
                    };
                    match res {
                        Ok(c2) => {
                            let ghost c2v = c2@;
                            o.insert(i, (k, c2));
                            proof {
                                assert forall|j: int| 0 <= j < i implies e[j].0
                                    != segs@[d as int]@ by {
                                    assert(e[j].0 == o@[j].0@);
                                }
                                lemma_entry_update_at(e, segs@[d as int]@, c2v, i as int);
                                assert(entries_view(o@) =~= e.update(
                                    i as int,
                                    (segs@[d as int]@, c2v),
                                ));
                                lemma_view_shape(Value::Object(o));
                            }
                            Ok(Value::Object(o))
                        },
                        Err(f) => Err(f),
                    }
                },
            }
        },
        _ => Err(ApplyFailure::Key(segs[d].clone())),
    }
}

/// Applies `op` to `value`: the document it gives, or why it does not apply.
pub fn apply_operation(op: &Operation, value: Value) -> (r: Result<Value, ApplyFailure>)
    ensures
        match r {
            Ok(w) => apply_spec(op@, value@) == Ok::<JsonView, Failure>(w@),
            Err(f) => apply_spec(op@, value@) == Err::<JsonView, Failure>(f@),
        },
{
    match op {
        Operation::Assign { path, value: op_value } => {
            if path.as_str().is_empty() {
                return match op_value {
                    Some(x) => Ok(x.duplicate()),
                    None => Err(ApplyFailure::SetWithoutValue),
                };
            }
            let segs = split_dots_exec(path.as_str());
            proof {
                lemma_split_dots_nonempty(path@);
                assert(segs_view(segs@) =~= split_dots(path@));
                assert(segs_view(segs@).skip(0) =~= segs_view(segs@));
            }
            let v = match op_value {
                Some(x) => Some(x.duplicate()),
                None => None,
            };
            set_at(value, &segs, 0, v)
        },
        Operation::Splice { path, index, remove, insert } => {
            proof {
                lemma_view_shape(*insert);
            }
            match insert {
                Value::Array(ins) => {
                    let segs = split_dots_exec(path.as_str());
                    proof {
                        lemma_split_dots_nonempty(path@);
                        assert(segs_view(segs@) =~= split_dots(path@));
                        assert(segs_view(segs@).skip(0) =~= segs_view(segs@));
                    }
                    splice_at(value, &segs, 0, *index, *remove, ins)
                },
                _ => Err(ApplyFailure::NotArray),
            }
        },
    }
}

impl Operation {
    /// An `Assign` of `value` at `path`.
    pub fn new_set(path: Path, value: Value) -> (op: Operation)
        ensures
            op@ == (OpView::Assign { path: path@, value: Some(value@) }),
    {
        Operation::Assign { path, value: Some(value) }
    }

    /// An `Assign` of `value` at `path`; a `Assign` of the whole document without a
    /// value is refused.
    pub fn try_new_set(path: Path, value: Option<Value>) -> (r: Result<Operation, OtError>)
        ensures
            match r {
                Ok(op) => path@.len() != 0 || value is Some,
                Err(e) => path@.len() == 0 && value is None && e@ == OtErrorView::InvalidSetOp,
            },
            r matches Ok(op) ==> op@ == (OpView::Assign { path: path@, value: opt_view(value) }),
    {
        if path.as_str().is_empty() && value.is_none() {
            Err(OtError::InvalidSetOp())
        } else {
            Ok(Operation::Assign { path, value })
        }
    }

    /// A `Splice` at `path`; an `insert` that is not an array is refused.
    pub fn try_new_splice(path: Path, index: usize, remove: usize, insert: Value) -> (r: Result<
        Operation,
        OtError,
    >)
        ensures
            match r {
                Ok(op) => insert@ is Array && op@ == (OpView::Splice {
                    path: path@,
                    index: index as int,
                    remove: remove as int,
                    insert: insert@,
                }),
                Err(e) => !(insert@ is Array) && e@ == OtErrorView::ValueIsNotArray,
            },
    {
        proof {
            lemma_view_shape(insert);
        }
        match insert {
            Value::Array(_) => Ok(Operation::Splice { path, index, remove, insert }),
            _ => Err(OtError::ValueIsNotArray()),
        }
    }

    /// The path the operation works on.
    pub fn path(&self) -> (p: Path)
        ensures
            p@ == self@.path(),
    {
        match self {
            Operation::Assign { path, .. } => path.clone(),
            Operation::Splice { path, .. } => path.clone(),
        }
    }

    /// Whether `p` occurs in the operation's path.
    pub fn path_contains(&self, p: &str) -> (r: bool)
        ensures
            r == occurs_in(self@.path(), p@),
    {
        match self {
            Operation::Assign { path, .. } => contains(path.as_str(), p),
            Operation::Splice { path, .. } => contains(path.as_str(), p),
        }
    }

    /// Whether two operations are the same.
    pub fn same_as(&self, other: &Operation) -> (r: bool)
        ensures
            r == (self@ == other@),
    {
        match (self, other) {
            (Operation::Assign { path: p1, value: v1 }, Operation::Assign { path: p2, value: v2 }) => {
                if !crate::text::same_text(p1.as_str(), p2.as_str()) {
                    return false;
                }
                match (v1, v2) {
                    (None, None) => true,
                    (Some(a), Some(b)) => a.same_as(b),
                    _ => false,
                }
            },
            (
                Operation::Splice { path: p1, index: i1, remove: r1, insert: n1 },
                Operation::Splice { path: p2, index: i2, remove: r2, insert: n2 },
            ) => {
                crate::text::same_text(p1.as_str(), p2.as_str()) && *i1 == *i2 && *r1 == *r2
                    && n1.same_as(n2)
            },
            _ => false,
        }
    }

    /// A copy of the operation.
    pub fn duplicate(&self) -> (r: Operation)
        ensures
            r@ == self@,
    {
        match self {
            Operation::Assign { path, value } => Operation::Assign {
                path: path.clone(),
                value: match value {
                    Some(v) => Some(v.duplicate()),
                    None => None,
                },
            },
            Operation::Splice { path, index, remove, insert } => Operation::Splice {
                path: path.clone(),
                index: *index,
                remove: *remove,
                insert: insert.duplicate(),
            },
        }
    }

    /// Applies the operation to `value`.
    ///
    /// An `Assign` with the empty path gives its value (and fails without one); any
    /// other `Assign` walks the objects along the path and sets or deletes the last
    /// key in the object it reaches. A `Splice` walks the objects along the path
    /// to an array and splices it, if the range fits and the elements agree in type.
    pub fn apply_to(&self, value: Value) -> (r: Result<Value, OtError>)
        ensures
            match r {
                Ok(w) => apply_spec(self@, value@) == Ok::<JsonView, Failure>(w@),
                Err(e) => exists|f: Failure|
                    apply_spec(self@, value@) == Err::<JsonView, Failure>(f) && e@
                        == ot_error_for(f),
            },
            well_formed(value@) && op_well_formed(self@) ==> (r matches Ok(w) ==> well_formed(w@)),
    {
        proof {
            if well_formed(value@) && op_well_formed(self@) {
                crate::laws::law_apply_keeps_well_formed(self@, value@);
            }
        }
        match apply_operation(self, value) {
            Ok(w) => Ok(w),
            Err(f) => Err(ot_error_of(f)),
        }
    }
}

} // verus!
