//! The runtime value model: object instances. Every runtime value is an
//! instance: an optional type declaration, a contiguous byte buffer, and an
//! optional field map giving each field's offset and size inside the buffer.

use vstd::prelude::*;
use std::rc::Rc;
use crate::error::{ErrKind, Error, ErrorV};
use crate::text::str_eq;
use crate::types::{is_primitive_name, primitive_type_dec_v, DecArg, DecArgV, TypeDec, TypeDecV};

verus! {

broadcast use vstd::std_specs::vec::group_vec_axioms;

/// Mathematical model of one field map entry: the field's name, its byte
/// offset inside the instance, and its size in bytes.
#[verifier::ext_equal]
pub struct FieldEntryV {
    pub name: Seq<char>,
    pub offset: nat,
    pub size: nat,
}

/// Mathematical model of an [`ObjectInstance`].
#[verifier::ext_equal]
pub struct InstanceV {
    pub ty: Option<TypeDecV>,
    pub data: Seq<u8>,
    pub fields: Option<Seq<FieldEntryV>>,
}

/// The sum of the sizes of the first `k` field entries: the byte offset at
/// which field `k` starts.
pub open spec fn size_sum(entries: Seq<FieldEntryV>, k: int) -> nat
    decreases k,
{
    if k <= 0 {
        0
    } else {
        size_sum(entries, k - 1) + entries[k - 1].size
    }
}

/// A field map is well formed for a buffer of `total` bytes when every
/// field's offset is the sum of the sizes of the fields before it and the
/// fields together cover the buffer exactly: the spans are in declaration
/// order, non-overlapping, and their union is the whole buffer.
pub open spec fn fields_wf(entries: Seq<FieldEntryV>, total: nat) -> bool {
    &&& forall|k: int| 0 <= k < entries.len() ==> (#[trigger] entries[k].offset) == size_sum(
        entries,
        k,
    )
    &&& size_sum(entries, entries.len() as int) == total
}

/// Well-formedness of an instance: if a field map is present it describes
/// the data buffer exactly.
pub open spec fn inst_wf(v: InstanceV) -> bool {
    match v.fields {
        Some(entries) => fields_wf(entries, v.data.len()),
        None => true,
    }
}

/// `size_sum` grows with `k`.
pub proof fn lemma_size_sum_mono(entries: Seq<FieldEntryV>, j: int, k: int)
    requires
        0 <= j <= k,
    ensures
        size_sum(entries, j) <= size_sum(entries, k),
    decreases k,
{
    if j < k {
        lemma_size_sum_mono(entries, j, k - 1);
    }
}

/// The first field entry with the given name, walking in declaration order.
pub open spec fn find_field(entries: Seq<FieldEntryV>, name: Seq<char>) -> Option<FieldEntryV>
    decreases entries.len(),
{
    if entries.len() == 0 {
        None
    } else if entries[0].name == name {
        Some(entries[0])
    } else {
        find_field(entries.drop_first(), name)
    }
}

/// The first declared field with the given name in a type declaration.
pub open spec fn find_dec_arg(fields: Seq<DecArgV>, name: Seq<char>) -> Option<DecArgV>
    decreases fields.len(),
{
    if fields.len() == 0 {
        None
    } else if fields[0].name == name {
        Some(fields[0])
    } else {
        find_dec_arg(fields.drop_first(), name)
    }
}

/// The type carried by a field extracted from an instance: the primitive
/// declaration when the field is declared with a primitive type, and no type
/// otherwise (sub-record types are not yet inferred).
pub open spec fn field_ty_v(ty: Option<TypeDecV>, name: Seq<char>) -> Option<TypeDecV> {
    match ty {
        None => None,
        Some(t) => match find_dec_arg(t.fields, name) {
            None => None,
            Some(d) => if is_primitive_name(d.ty) {
                Some(primitive_type_dec_v(d.ty))
            } else {
                None
            },
        },
    }
}

/// What `get_field` returns: the slice of the buffer described by the named
/// entry, carrying the field's primitive type when it has one, and no field
/// map of its own. Accessing a field of an instance without a field map, or
/// a name with no entry, is an error.
pub open spec fn get_field_v(v: InstanceV, name: Seq<char>) -> Result<InstanceV, ErrorV> {
    match v.fields {
        None => Err(
            ErrorV {
                kind: ErrKind::Context,
                msg: "cannot access field "@ + name + " on an instance with no fields"@,
            },
        ),
        Some(entries) => match find_field(entries, name) {
            None => Err(ErrorV { kind: ErrKind::Context, msg: "field not found: "@ + name }),
            Some(e) => Ok(
                InstanceV {
                    ty: field_ty_v(v.ty, name),
                    data: v.data.subrange(e.offset as int, e.offset + e.size as int),
                    fields: None,
                },
            ),
        },
    }
}

/// Structural equality of instances: same type name (or both untyped) and
/// same bytes.
pub open spec fn inst_eq_v(a: InstanceV, b: InstanceV) -> bool {
    &&& match (a.ty, b.ty) {
        (Some(ta), Some(tb)) => ta.name == tb.name,
        (None, None) => true,
        _ => false,
    }
    &&& a.data == b.data
}

/// The concatenation of the data buffers of the first `k` instances.
pub open spec fn concat_data(insts: Seq<InstanceV>, k: int) -> Seq<u8>
    decreases k,
{
    if k <= 0 {
        Seq::empty()
    } else {
        concat_data(insts, k - 1) + insts[k - 1].data
    }
}

/// The field map produced by laying the first `k` field instances out one
/// after the other: each entry's offset is the total size of the data before
/// it.
pub open spec fn layout_fields(names: Seq<Seq<char>>, insts: Seq<InstanceV>, k: int) -> Seq<
    FieldEntryV,
>
    decreases k,
{
    if k <= 0 {
        Seq::empty()
    } else {
        layout_fields(names, insts, k - 1).push(
            FieldEntryV {
                name: names[k - 1],
                offset: concat_data(insts, k - 1).len(),
                size: insts[k - 1].data.len(),
            },
        )
    }
}

/// The instance produced by instantiating a record type from field names and
/// already-evaluated field instances: the declaration itself, the
/// concatenation of the fields' bytes, and the cumulative field map.
pub open spec fn record_instance_v(
    ty: TypeDecV,
    names: Seq<Seq<char>>,
    insts: Seq<InstanceV>,
) -> InstanceV {
    InstanceV {
        ty: Some(ty),
        data: concat_data(insts, insts.len() as int),
        fields: Some(layout_fields(names, insts, insts.len() as int)),
    }
}

/// Appending another instance does not change the concatenation of the
/// first `k` buffers.
pub proof fn lemma_concat_data_push(insts: Seq<InstanceV>, x: InstanceV, k: int)
    requires
        0 <= k <= insts.len(),
    ensures
        concat_data(insts.push(x), k) == concat_data(insts, k),
    decreases k,
{
    if k > 0 {
        lemma_concat_data_push(insts, x, k - 1);
        assert(insts.push(x)[k - 1] == insts[k - 1]);
    }
}

/// Appending another field does not change the layout of the first `k`
/// fields.
pub proof fn lemma_layout_fields_push(
    names: Seq<Seq<char>>,
    insts: Seq<InstanceV>,
    nx: Seq<char>,
    x: InstanceV,
    k: int,
)
    requires
        0 <= k <= names.len(),
        0 <= k <= insts.len(),
    ensures
        layout_fields(names.push(nx), insts.push(x), k) == layout_fields(names, insts, k),
    decreases k,
{
    if k > 0 {
        lemma_layout_fields_push(names, insts, nx, x, k - 1);
        lemma_concat_data_push(insts, x, k - 1);
        assert(names.push(nx)[k - 1] == names[k - 1]);
        assert(insts.push(x)[k - 1] == insts[k - 1]);
        assert(layout_fields(names.push(nx), insts.push(x), k) =~= layout_fields(names, insts, k));
    }
}

/// Each entry of the laid-out field map, by index.
pub proof fn lemma_layout_index(names: Seq<Seq<char>>, insts: Seq<InstanceV>, n: int, j: int)
    requires
        0 <= j < n,
    ensures
        layout_fields(names, insts, n).len() == n,
        layout_fields(names, insts, n)[j] == (FieldEntryV {
            name: names[j],
            offset: concat_data(insts, j).len(),
            size: insts[j].data.len(),
        }),
    decreases n,
{
    lemma_layout_len(names, insts, n);
    lemma_layout_len(names, insts, n - 1);
    if j < n - 1 {
        lemma_layout_index(names, insts, n - 1, j);
    }
}

/// The length of the laid-out field map.
pub proof fn lemma_layout_len(names: Seq<Seq<char>>, insts: Seq<InstanceV>, n: int)
    requires
        0 <= n,
    ensures
        layout_fields(names, insts, n).len() == n,
    decreases n,
{
    if n > 0 {
        lemma_layout_len(names, insts, n - 1);
    }
}

/// The cumulative size of the first `k` laid-out entries is the length of
/// the first `k` concatenated buffers.
proof fn lemma_layout_size_sum(names: Seq<Seq<char>>, insts: Seq<InstanceV>, n: int, k: int)
    requires
        0 <= k <= n,
    ensures
        size_sum(layout_fields(names, insts, n), k) == concat_data(insts, k).len(),
    decreases k,
{
    if k > 0 {
        lemma_layout_size_sum(names, insts, n, k - 1);
        lemma_layout_index(names, insts, n, k - 1);
    }
}

/// Concatenated data only grows.
proof fn lemma_concat_data_mono(insts: Seq<InstanceV>, j: int, k: int)
    requires
        0 <= j <= k,
    ensures
        concat_data(insts, j).len() <= concat_data(insts, k).len(),
    decreases k,
{
    if j < k {
        lemma_concat_data_mono(insts, j, k - 1);
    }
}

/// The bytes of field `k` sit unchanged at the field's span inside the
/// concatenation of the first `n` buffers.
proof fn lemma_concat_field_bytes(insts: Seq<InstanceV>, n: int, k: int)
    requires
        0 <= k < n,
    ensures
        concat_data(insts, k).len() + insts[k].data.len() <= concat_data(insts, n).len(),
        concat_data(insts, n).subrange(
            concat_data(insts, k).len() as int,
            concat_data(insts, k).len() + insts[k].data.len() as int,
        ) == insts[k].data,
    decreases n,
{
    let off = concat_data(insts, k).len() as int;
    let sz = insts[k].data.len() as int;
    if k == n - 1 {
        assert(concat_data(insts, n) == concat_data(insts, k) + insts[k].data);
        assert(concat_data(insts, n).subrange(off, off + sz) =~= insts[k].data);
    } else {
        lemma_concat_field_bytes(insts, n - 1, k);
        assert(concat_data(insts, n) == concat_data(insts, n - 1) + insts[n - 1].data);
        assert(concat_data(insts, n).subrange(off, off + sz) =~= concat_data(
            insts,
            n - 1,
        ).subrange(off, off + sz));
    }
}

/// Law: record layout. Instantiating a record from field instances
/// `e_0 .. e_{m-1}` yields an instance whose size is the sum of the fields'
/// sizes, whose field map entry `k` is named `n_k` with offset the total
/// size of the preceding fields and size the size of `e_k`, and whose bytes
/// at that span are exactly the bytes of `e_k`.
pub proof fn lemma_record_layout(ty: TypeDecV, names: Seq<Seq<char>>, insts: Seq<InstanceV>)
    requires
        names.len() == insts.len(),
    ensures
        inst_wf(record_instance_v(ty, names, insts)),
        record_instance_v(ty, names, insts).fields->0.len() == insts.len(),
        forall|k: int|
            0 <= k < insts.len() ==> (#[trigger] record_instance_v(ty, names, insts).fields->0[k])
                == (FieldEntryV {
                name: names[k],
                offset: concat_data(insts, k).len(),
                size: insts[k].data.len(),
            }),
        forall|k: int|
            0 <= k < insts.len() ==> record_instance_v(ty, names, insts).data.subrange(
                concat_data(insts, k).len() as int,
                concat_data(insts, k).len() + (#[trigger] insts[k].data).len() as int,
            ) == insts[k].data,
{
    let n = insts.len() as int;
    let r = record_instance_v(ty, names, insts);
    lemma_layout_len(names, insts, n);
    assert forall|k: int| 0 <= k < n implies (#[trigger] r.fields->0[k]) == (FieldEntryV {
        name: names[k],
        offset: concat_data(insts, k).len(),
        size: insts[k].data.len(),
    }) by {
        lemma_layout_index(names, insts, n, k);
    }
    assert forall|k: int| 0 <= k < n implies (#[trigger] r.fields->0[k]).offset == size_sum(
        r.fields->0,
        k,
    ) by {
        lemma_layout_size_sum(names, insts, n, k);
    }
    lemma_layout_size_sum(names, insts, n, n);
    assert forall|k: int| 0 <= k < n implies r.data.subrange(
        concat_data(insts, k).len() as int,
        concat_data(insts, k).len() + (#[trigger] insts[k].data).len() as int,
    ) == insts[k].data by {
        lemma_concat_field_bytes(insts, n, k);
    }
}

/// The first matching entry is entry `k` when no earlier entry shares its
/// name.
proof fn lemma_find_field_first(entries: Seq<FieldEntryV>, name: Seq<char>, k: int)
    requires
        0 <= k < entries.len(),
        entries[k].name == name,
        forall|j: int| 0 <= j < k ==> (#[trigger] entries[j]).name != name,
    ensures
        find_field(entries, name) == Some(entries[k]),
    decreases k,
{
    if k > 0 {
        lemma_find_field_first(entries.drop_first(), name, k - 1);
        assert forall|j: int| 0 <= j < k - 1 implies (#[trigger] entries.drop_first()[j]).name
            != name by {
            assert(entries.drop_first()[j] == entries[j + 1]);
        }
    }
}

/// Law: field round trip. Extracting field `n_k` from the instance produced
/// by instantiating a record from field instances yields exactly the bytes
/// of the field instance `e_k`, provided no earlier field shares its name.
/// In particular, for a single field, `get_field` returns its bytes
/// unchanged.
pub proof fn lemma_record_field_round_trip(
    ty: TypeDecV,
    names: Seq<Seq<char>>,
    insts: Seq<InstanceV>,
    k: int,
)
    requires
        names.len() == insts.len(),
        0 <= k < names.len(),
        forall|j: int| 0 <= j < k ==> names[j] != names[k],
    ensures
        get_field_v(record_instance_v(ty, names, insts), names[k]) is Ok,
        get_field_v(record_instance_v(ty, names, insts), names[k])->Ok_0.data == insts[k].data,
{
    let n = insts.len() as int;
    let r = record_instance_v(ty, names, insts);
    lemma_record_layout(ty, names, insts);
    let entries = r.fields->0;
    assert forall|j: int| 0 <= j < k implies (#[trigger] entries[j]).name != names[k] by {
        lemma_layout_index(names, insts, n, j);
    }
    lemma_layout_index(names, insts, n, k);
    lemma_find_field_first(entries, names[k], k);
    lemma_concat_field_bytes(insts, n, k);
}

/// One entry of an instance's field map.
#[derive(Debug)]
pub struct FieldEntry {
    name: String,
    offset: usize,
    size: usize,
}

impl View for FieldEntry {
    type V = FieldEntryV;

    closed spec fn view(&self) -> FieldEntryV {
        FieldEntryV { name: self.name@, offset: self.offset as nat, size: self.size as nat }
    }
}

impl FieldEntry {
    /// Create a field map entry.
    pub fn new(name: String, offset: usize, size: usize) -> (r: FieldEntry)
        ensures
            r@ == (FieldEntryV { name: name@, offset: offset as nat, size: size as nat }),
    {
        FieldEntry { name, offset, size }
    }
}

impl Clone for FieldEntry {
    fn clone(&self) -> (r: Self)
        ensures
            r@ == self@,
    {
        FieldEntry { name: self.name.clone(), offset: self.offset, size: self.size }
    }
}

/// An instance's field map: the fields in declaration order, each with its
/// offset and size.
#[derive(Debug)]
pub struct FieldsMap {
    entries: Vec<FieldEntry>,
}

impl View for FieldsMap {
    type V = Seq<FieldEntryV>;

    closed spec fn view(&self) -> Seq<FieldEntryV> {
        self.entries@.map_values(|e: FieldEntry| e@)
    }
}

impl Clone for FieldsMap {
    fn clone(&self) -> (r: Self)
        ensures
            r@ == self@,
    {
        let mut entries: Vec<FieldEntry> = Vec::new();
        let mut i: usize = 0;
        while i < self.entries.len()
            invariant
                i <= self.entries.len(),
                entries@.len() == i as int,
                forall|j: int| 0 <= j < i ==> entries@[j]@ == self.entries@[j]@,
            decreases self.entries.len() - i,
        {
            entries.push(self.entries[i].clone());
            i = i + 1;
        }
        let r = FieldsMap { entries };
        proof {
            assert(r@ =~= self@);
        }
        r
    }
}

impl FieldsMap {
    /// Create an empty field map.
    pub fn new() -> (r: FieldsMap)
        ensures
            r@ == Seq::<FieldEntryV>::empty(),
    {
        let r = FieldsMap { entries: Vec::new() };
        proof {
            assert(r@ =~= Seq::<FieldEntryV>::empty());
        }
        r
    }

    /// Append an entry to the field map.
    pub fn push(&mut self, entry: FieldEntry)
        ensures
            final(self)@ == old(self)@.push(entry@),
    {
        self.entries.push(entry);
        proof {
            assert(self@ =~= old(self)@.push(entry@));
        }
    }

    /// The number of fields in the map.
    pub fn len(&self) -> (r: usize)
        ensures
            r as int == self@.len(),
    {
        self.entries.len()
    }

    /// Look a field up by name: its offset and size, walking the entries in
    /// declaration order.
    pub fn get(&self, name: &str) -> (r: Option<(usize, usize)>)
        ensures
            match (r, find_field(self@, name@)) {
                (Some(p), Some(e)) => p.0 as nat == e.offset && p.1 as nat == e.size,
                (None, None) => true,
                _ => false,
            },
    {
        let mut i: usize = 0;
        proof {
            assert(self@.skip(0) =~= self@);
        }
        while i < self.entries.len()
            invariant
                i <= self.entries.len(),
                find_field(self@, name@) == find_field(self@.skip(i as int), name@),
            decreases self.entries.len() - i,
        {
            proof {
                assert(self@.skip(i as int)[0] == self@[i as int]);
                assert(self@.skip(i as int).drop_first() =~= self@.skip(i as int + 1));
            }
            if str_eq(self.entries[i].name.as_str(), name) {
                return Some((self.entries[i].offset, self.entries[i].size));
            }
            i = i + 1;
        }
        proof {
            assert(self@.skip(i as int).len() == 0);
        }
        None
    }
}

/// Copy `count` bytes of `data` starting at `from` into a fresh buffer.
pub(crate) fn copy_range(data: &Vec<u8>, from: usize, count: usize) -> (r: Vec<u8>)
    requires
        from + count <= data@.len(),
    ensures
        r@ == data@.subrange(from as int, from + count),
{
    let n = data.len();
    let mut r: Vec<u8> = Vec::new();
    let mut i: usize = 0;
    while i < count
        invariant
            from + count <= n,
            n as int == data@.len(),
            i <= count,
            r@.len() == i as int,
            forall|j: int| 0 <= j < i ==> r@[j] == data@[from + j],
        decreases count - i,
    {
        r.push(data[from + i]);
        i = i + 1;
    }
    proof {
        assert(r@ =~= data@.subrange(from as int, from + count));
    }
    r
}

/// Byte-by-byte equality of two buffers.
fn bytes_eq(a: &Vec<u8>, b: &Vec<u8>) -> (r: bool)
    ensures
        r == (a@ == b@),
{
    if a.len() != b.len() {
        proof {
            assert(a@.len() != b@.len());
        }
        return false;
    }
    let mut i: usize = 0;
    while i < a.len()
        invariant
            a@.len() == b@.len(),
            i <= a@.len(),
            forall|j: int| 0 <= j < i ==> a@[j] == b@[j],
        decreases a@.len() - i,
    {
        if a[i] != b[i] {
            return false;
        }
        i = i + 1;
    }
    proof {
        assert(a@ =~= b@);
    }
    true
}

/// The runtime representation of any value: an optional type declaration, a
/// contiguous byte buffer, and an optional field map.
///
/// Instances compare structurally, by type name and bytes, not by identity.
#[derive(Debug)]
pub struct ObjectInstance {
    ty: Option<Rc<TypeDec>>,
    data: Vec<u8>,
    fields: Option<FieldsMap>,
}

impl View for ObjectInstance {
    type V = InstanceV;

    closed spec fn view(&self) -> InstanceV {
        InstanceV {
            ty: match self.ty {
                Some(t) => Some(t@),
                None => None,
            },
            data: self.data@,
            fields: match self.fields {
                Some(f) => Some(f@),
                None => None,
            },
        }
    }
}

impl ObjectInstance {
    /// Every instance's field map, when present, describes its buffer
    /// exactly.
    #[verifier::type_invariant]
    pub closed spec fn wf(self) -> bool {
        inst_wf(self@)
    }

    /// Build an instance from its parts. The size must equal the buffer's
    /// length and the field map, if any, must lay the buffer out exactly.
    pub fn new(
        ty: Option<Rc<TypeDec>>,
        size: usize,
        data: Vec<u8>,
        fields: Option<FieldsMap>,
    ) -> (r: ObjectInstance)
        requires
            size as int == data@.len(),
            match fields {
                Some(f) => fields_wf(f@, data@.len() as nat),
                None => true,
            },
        ensures
            r@.ty == match ty {
                Some(t) => Some(t@),
                None => None::<TypeDecV>,
            },
            r@.data == data@,
            r@.fields == match fields {
                Some(f) => Some(f@),
                None => None::<Seq<FieldEntryV>>,
            },
    {
        ObjectInstance { ty, data, fields }
    }

    /// The instance's size in bytes.
    pub fn size(&self) -> (r: usize)
        ensures
            r as int == self@.data.len(),
    {
        self.data.len()
    }

    /// The instance's raw bytes.
    pub fn data(&self) -> (r: &Vec<u8>)
        ensures
            r@ == self@.data,
    {
        &self.data
    }

    /// The instance's field map, if it has one.
    pub fn fields(&self) -> (r: &Option<FieldsMap>)
        ensures
            match (r, self@.fields) {
                (Some(f), Some(fv)) => f@ == fv,
                (None, None) => true,
                _ => false,
            },
    {
        &self.fields
    }

    /// The instance's type declaration, if it carries one.
    pub fn ty(&self) -> (r: Option<&Rc<TypeDec>>)
        ensures
            match (r, self@.ty) {
                (Some(t), Some(tv)) => t@ == tv,
                (None, None) => true,
                _ => false,
            },
    {
        self.ty.as_ref()
    }

    /// Replace the carried type declaration. Used during record-field
    /// extraction, where sub-field types are not inferred.
    pub fn set_ty(&mut self, ty: Option<Rc<TypeDec>>)
        ensures
            final(self)@ == (InstanceV {
                ty: match ty {
                    Some(t) => Some(t@),
                    None => None::<TypeDecV>,
                },
                ..old(self)@
            }),
    {
        proof {
            use_type_invariant(&*self);
        }
        self.ty = ty;
    }

    /// Extract a field: slice the bytes described by the field map entry of
    /// the given name. The returned instance carries the field's primitive
    /// type, when it has one, and no field map of its own.
    pub fn get_field(&self, name: &str) -> (r: Result<ObjectInstance, Error>)
        ensures
            match (r, get_field_v(self@, name@)) {
                (Ok(inst), Ok(iv)) => inst@ == iv,
                (Err(e), Err(ev)) => e@ == ev,
                _ => false,
            },
    {
        proof {
            use_type_invariant(&*self);
        }
        let fm = match &self.fields {
            None => {
                let mut m = "cannot access field ".to_owned();
                m.append(name);
                m.append(" on an instance with no fields");
                return Err(Error::new(ErrKind::Context).with_msg(m));
            },
            Some(fm) => fm,
        };
        let entry = match fm.get(name) {
            None => {
                let mut m = "field not found: ".to_owned();
                m.append(name);
                return Err(Error::new(ErrKind::Context).with_msg(m));
            },
            Some(e) => e,
        };
        let (offset, size) = entry;
        proof {
            let entries = self@.fields->0;
            let e = find_field(entries, name@);
            lemma_find_field_in_range(entries, name@);
            let k = choose|k: int|
                0 <= k < entries.len() && entries[k] == e->0 && entries[k].offset == size_sum(
                    entries,
                    k,
                );
            lemma_size_sum_mono(entries, k + 1, entries.len() as int);
        }
        let bytes = copy_range(&self.data, offset, size);
        let fty: Option<Rc<TypeDec>> = match &self.ty {
            None => None,
            Some(dec) => {
                match find_arg(dec, name) {
                    None => None,
                    Some(d) => {
                        if d.get_type().is_primitive() {
                            let prim = TypeDec::new(d.get_type().id().to_owned(), Vec::new());
                            proof {
                                assert(prim@ =~= primitive_type_dec_v(d@.ty));
                            }
                            Some(Rc::new(prim))
                        } else {
                            None
                        }
                    },
                }
            },
        };
        let r = ObjectInstance { ty: fty, data: bytes, fields: None };
        proof {
            assert(r@ =~~= get_field_v(self@, name@)->Ok_0);
        }
        Ok(r)
    }
}

/// A found field entry lies at some index, where its offset is the
/// cumulative size of the entries before it (given a well-formed map).
proof fn lemma_find_field_in_range(entries: Seq<FieldEntryV>, name: Seq<char>)
    ensures
        find_field(entries, name) is Some ==> exists|k: int|
            0 <= k < entries.len() && entries[k] == find_field(entries, name)->0,
    decreases entries.len(),
{
    if entries.len() > 0 && entries[0].name != name {
        lemma_find_field_in_range(entries.drop_first(), name);
        if find_field(entries, name) is Some {
            let k = choose|k: int|
                0 <= k < entries.drop_first().len() && entries.drop_first()[k] == find_field(
                    entries.drop_first(),
                    name,
                )->0;
            assert(entries[k + 1] == find_field(entries, name)->0);
        }
    }
}

/// Find the first declared field with the given name.
fn find_arg<'a>(dec: &'a TypeDec, name: &str) -> (r: Option<&'a DecArg>)
    ensures
        match (r, find_dec_arg(dec@.fields, name@)) {
            (Some(d), Some(dv)) => d@ == dv,
            (None, None) => true,
            _ => false,
        },
{
    let fields = dec.fields();
    let ghost fv = dec@.fields;
    let mut i: usize = 0;
    proof {
        assert(fv.skip(0) =~= fv);
    }
    while i < fields.len()
        invariant
            fv == dec@.fields,
            fv == fields@.map_values(|d: DecArg| d@),
            i <= fields@.len(),
            find_dec_arg(fv, name@) == find_dec_arg(fv.skip(i as int), name@),
        decreases fields@.len() - i,
    {
        proof {
            assert(fv.skip(i as int)[0] == fv[i as int]);
            assert(fv.skip(i as int).drop_first() =~= fv.skip(i as int + 1));
        }
        if str_eq(fields[i].name(), name) {
            proof {
                assert(fv[i as int] == fields@[i as int]@);
                assert(fv[i as int].name == name@);
                assert(find_dec_arg(fv.skip(i as int), name@) == Some(fv[i as int]));
            }
            return Some(&fields[i]);
        }
        i = i + 1;
    }
    proof {
        assert(fv.skip(i as int).len() == 0);
    }
    None
}

impl Clone for ObjectInstance {
    fn clone(&self) -> (r: Self)
        ensures
            r@ == self@,
    {
        proof {
            use_type_invariant(&*self);
        }
        let ty: Option<Rc<TypeDec>> = match &self.ty {
            Some(rc) => Some(rc.clone()),
            None => None,
        };
        let data = copy_range(&self.data, 0, self.data.len());
        let fields: Option<FieldsMap> = match &self.fields {
            Some(f) => Some(f.clone()),
            None => None,
        };
        let r = ObjectInstance { ty, data, fields };
        proof {
            assert(data@ =~= self@.data);
            assert(r@ =~~= self@);
        }
        r
    }
}

impl PartialEq for ObjectInstance {
    /// Structural comparison: same type name (or both untyped), same bytes.
    fn eq(&self, other: &Self) -> (r: bool) {
        let names_eq = match (&self.ty, &other.ty) {
            (Some(a), Some(b)) => str_eq(a.name(), b.name()),
            (None, None) => true,
            _ => false,
        };
        names_eq && bytes_eq(&self.data, &other.data)
    }
}

impl vstd::std_specs::cmp::PartialEqSpecImpl for ObjectInstance {
    open spec fn obeys_eq_spec() -> bool {
        true
    }

    open spec fn eq_spec(&self, other: &Self) -> bool {
        inst_eq_v(self@, other@)
    }
}

/// The model of the instance holding an integer: eight little-endian
/// two's-complement bytes, typed `int`.
pub open spec fn int_instance_v(n: i64) -> InstanceV {
    InstanceV {
        ty: Some(primitive_type_dec_v("int"@)),
        data: vstd::bytes::spec_u64_to_le_bytes(n as u64),
        fields: None,
    }
}

/// The model of the instance holding a boolean: one byte, zero or one,
/// typed `bool`.
pub open spec fn bool_instance_v(b: bool) -> InstanceV {
    InstanceV {
        ty: Some(primitive_type_dec_v("bool"@)),
        data: seq![if b { 1u8 } else { 0u8 }],
        fields: None,
    }
}

/// The model of the instance holding a character: four little-endian bytes
/// holding the Unicode scalar value, typed `char`.
pub open spec fn char_instance_v(c: char) -> InstanceV {
    InstanceV {
        ty: Some(primitive_type_dec_v("char"@)),
        data: vstd::bytes::spec_u32_to_le_bytes(c as u32),
        fields: None,
    }
}

/// The model of the instance holding a string: its UTF-8 bytes, without a
/// terminator, typed `string`.
pub open spec fn string_instance_v(s: Seq<char>) -> InstanceV {
    InstanceV {
        ty: Some(primitive_type_dec_v("string"@)),
        data: vstd::utf8::encode_utf8(s),
        fields: None,
    }
}

/// Build the declaration of a primitive type: a name and no fields.
fn primitive_type_dec(name: &str) -> (r: Rc<TypeDec>)
    ensures
        r@ == primitive_type_dec_v(name@),
{
    let dec = TypeDec::new(name.to_owned(), Vec::new());
    proof {
        assert(dec@ =~= primitive_type_dec_v(name@));
    }
    Rc::new(dec)
}

/// An integer value of the language.
#[derive(Debug)]
pub struct JkInt {
    value: i64,
}

impl JkInt {
    /// Wrap a machine integer.
    pub fn from(value: i64) -> (r: JkInt)
        ensures
            r@ == value,
    {
        JkInt { value }
    }

    /// The instance holding this integer.
    pub fn to_instance(&self) -> (r: ObjectInstance)
        ensures
            r@ == int_instance_v(self@),
    {
        let data = vstd::bytes::u64_to_le_bytes(self.value as u64);
        let r = ObjectInstance { ty: Some(primitive_type_dec("int")), data, fields: None };
        proof {
            assert(r@ =~~= int_instance_v(self@));
        }
        r
    }
}

impl View for JkInt {
    type V = i64;

    closed spec fn view(&self) -> i64 {
        self.value
    }
}

/// A boolean value of the language.
#[derive(Debug)]
pub struct JkBool {
    value: bool,
}

impl View for JkBool {
    type V = bool;

    closed spec fn view(&self) -> bool {
        self.value
    }
}

impl JkBool {
    /// Wrap a boolean.
    pub fn from(value: bool) -> (r: JkBool)
        ensures
            r@ == value,
    {
        JkBool { value }
    }

    /// The instance holding this boolean.
    pub fn to_instance(&self) -> (r: ObjectInstance)
        ensures
            r@ == bool_instance_v(self@),
    {
        let byte: u8 = if self.value {
            1
        } else {
            0
        };
        let mut data: Vec<u8> = Vec::new();
        data.push(byte);
        let r = ObjectInstance { ty: Some(primitive_type_dec("bool")), data, fields: None };
        proof {
            assert(r@.data =~= bool_instance_v(self@).data);
            assert(r@ =~~= bool_instance_v(self@));
        }
        r
    }
}

/// A character value of the language.
#[derive(Debug)]
pub struct JkChar {
    value: char,
}

impl View for JkChar {
    type V = char;

    closed spec fn view(&self) -> char {
        self.value
    }
}

impl JkChar {
    /// Wrap a character.
    pub fn from(value: char) -> (r: JkChar)
        ensures
            r@ == value,
    {
        JkChar { value }
    }

    /// The instance holding this character.
    pub fn to_instance(&self) -> (r: ObjectInstance)
        ensures
            r@ == char_instance_v(self@),
    {
        let data = vstd::bytes::u32_to_le_bytes(self.value as u32);
        let r = ObjectInstance { ty: Some(primitive_type_dec("char")), data, fields: None };
        proof {
            assert(r@ =~~= char_instance_v(self@));
        }
        r
    }
}

/// A string value of the language.
#[derive(Debug)]
pub struct JkString {
    value: String,
}

impl View for JkString {
    type V = Seq<char>;

    closed spec fn view(&self) -> Seq<char> {
        self.value@
    }
}

impl JkString {
    /// Wrap a string.
    pub fn from(value: &str) -> (r: JkString)
        ensures
            r@ == value@,
    {
        JkString { value: value.to_owned() }
    }

    /// The instance holding this string: its UTF-8 bytes.
    pub fn to_instance(&self) -> (r: ObjectInstance)
        ensures
            r@ == string_instance_v(self@),
    {
        let data = self.value.as_str().as_bytes_vec();
        let r = ObjectInstance { ty: Some(primitive_type_dec("string")), data, fields: None };
        proof {
            assert(r@ =~~= string_instance_v(self@));
        }
        r
    }
}

} // verus!

