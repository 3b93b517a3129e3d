//! The schema model: the declared universe of types, their fields, and the
//! root operation types, queried by name and by identifier.

use vstd::prelude::*;

verus! {

/// The kind of a declared schema type.
#[derive(Clone, Copy, PartialEq, Eq, Structural, Debug)]
pub enum TypeKind {
    Object,
    Interface,
    Union,
    Enum,
    Scalar,
    InputObject,
}

/// A tagged reference to exactly one declared schema type. The payload is
/// the type's index in the schema's type sequence; the tag repeats the
/// type's kind. Cheaply copyable; owned by the schema.
#[derive(Clone, Copy, PartialEq, Eq, Structural, Debug, Hash, PartialOrd, Ord)]
pub enum TypeId {
    Object(usize),
    Interface(usize),
    Union(usize),
    Enum(usize),
    Scalar(usize),
    InputObject(usize),
}

/// A stable identifier for one field declared on one object or interface
/// type: the owning type's index and the field's position on it.
#[derive(Clone, Copy, PartialEq, Eq, Structural, Debug, Hash)]
pub struct StoredFieldId {
    pub type_index: usize,
    pub field_index: usize,
}

/// One field declared on an object or interface type.
pub struct SchemaField {
    pub name: String,
    /// The field's declared type.
    pub field_type: TypeId,
}

/// One declared schema type.
pub struct SchemaType {
    pub name: String,
    pub kind: TypeKind,
    /// Declared fields; empty unless `kind` is `Object` or `Interface`.
    pub fields: Vec<SchemaField>,
}

/// The declared universe of types and root operation types. Immutable and
/// only read during resolution and view traversal.
pub struct Schema {
    pub types: Vec<SchemaType>,
    /// Index of the object type that query operations select against.
    pub query_root: Option<usize>,
    /// Index of the object type that mutation operations select against.
    pub mutation_root: Option<usize>,
    /// Index of the object type that subscription operations would select
    /// against; kept so a schema can declare it, though subscriptions are
    /// reported as unsupported by resolution.
    pub subscription_root: Option<usize>,
}

impl TypeId {
    /// The index into the schema's type sequence, whatever the tag.
    pub open spec fn index_spec(self) -> int {
        match self {
            TypeId::Object(i) => i as int,
            TypeId::Interface(i) => i as int,
            TypeId::Union(i) => i as int,
            TypeId::Enum(i) => i as int,
            TypeId::Scalar(i) => i as int,
            TypeId::InputObject(i) => i as int,
        }
    }

    /// The kind this identifier is tagged with.
    pub open spec fn kind_spec(self) -> TypeKind {
        match self {
            TypeId::Object(_) => TypeKind::Object,
            TypeId::Interface(_) => TypeKind::Interface,
            TypeId::Union(_) => TypeKind::Union,
            TypeId::Enum(_) => TypeKind::Enum,
            TypeId::Scalar(_) => TypeKind::Scalar,
            TypeId::InputObject(_) => TypeKind::InputObject,
        }
    }

    /// A selection set may only be resolved against an object or interface;
    /// every other kind must carry an empty selection set.
    pub open spec fn is_selectable(self) -> bool {
        self is Object || self is Interface
    }

    /// The index into the schema's type sequence.
    pub fn index(&self) -> (r: usize)
        ensures
            r as int == self.index_spec(),
    {
        match self {
            TypeId::Object(i) => *i,
            TypeId::Interface(i) => *i,
            TypeId::Union(i) => *i,
            TypeId::Enum(i) => *i,
            TypeId::Scalar(i) => *i,
            TypeId::InputObject(i) => *i,
        }
    }

    /// Whether a selection set may be resolved against this type.
    pub fn selectable(&self) -> (r: bool)
        ensures
            r == self.is_selectable(),
    {
        match self {
            TypeId::Object(_) => true,
            TypeId::Interface(_) => true,
            _ => false,
        }
    }
}

/// The identifier whose tag matches the kind of the type at `index`.
pub open spec fn type_id_for(kind: TypeKind, index: usize) -> TypeId {
    match kind {
        TypeKind::Object => TypeId::Object(index),
        TypeKind::Interface => TypeId::Interface(index),
        TypeKind::Union => TypeId::Union(index),
        TypeKind::Enum => TypeId::Enum(index),
        TypeKind::Scalar => TypeId::Scalar(index),
        TypeKind::InputObject => TypeId::InputObject(index),
    }
}

impl Schema {
    /// A type identifier is valid when its index is in range and its tag
    /// agrees with the kind declared there.
    pub open spec fn valid_type_id(self, id: TypeId) -> bool {
        &&& 0 <= id.index_spec() < self.types@.len()
        &&& self.types@[id.index_spec()].kind == id.kind_spec()
    }

    /// A field identifier is valid when it points at a declared field of a
    /// declared object or interface type.
    pub open spec fn valid_field_id(self, id: StoredFieldId) -> bool {
        &&& id.type_index < self.types@.len()
        &&& (self.types@[id.type_index as int].kind == TypeKind::Object
            || self.types@[id.type_index as int].kind == TypeKind::Interface)
        &&& id.field_index < self.types@[id.type_index as int].fields@.len()
    }

    /// The declared type of the field `id` points at.
    pub open spec fn field_type_spec(self, id: StoredFieldId) -> TypeId {
        self.types@[id.type_index as int].fields@[id.field_index as int].field_type
    }

    /// Well-formedness: type names are unique, every field's declared type
    /// is a valid identifier, and each declared root is an object type.
    pub open spec fn wf(self) -> bool {
        &&& forall|i: int, j: int|
            0 <= i < j < self.types@.len() ==> self.types@[i].name@ != self.types@[j].name@
        &&& forall|i: int, k: int|
            0 <= i < self.types@.len() && 0 <= k < self.types@[i].fields@.len()
                ==> self.valid_type_id(#[trigger] self.types@[i].fields@[k].field_type)
        &&& match self.query_root {
            Some(r) => r < self.types@.len() && self.types@[r as int].kind == TypeKind::Object,
            None => true,
        }
        &&& match self.mutation_root {
            Some(r) => r < self.types@.len() && self.types@[r as int].kind == TypeKind::Object,
            None => true,
        }
        &&& match self.subscription_root {
            Some(r) => r < self.types@.len() && self.types@[r as int].kind == TypeKind::Object,
            None => true,
        }
    }
}

/// The index of the first type named `name` in `types`, scanning from `from`.
pub open spec fn find_type_from(types: Seq<SchemaType>, name: Seq<char>, from: int) -> Option<int>
    decreases types.len() - from,
{
    if from < 0 || from >= types.len() {
        None
    } else if types[from].name@ == name {
        Some(from)
    } else {
        find_type_from(types, name, from + 1)
    }
}

/// The index of the first field named `name` on the type `fields` belongs
/// to, scanning from `from`.
pub open spec fn find_field_from(fields: Seq<SchemaField>, name: Seq<char>, from: int) -> Option<
    int,
>
    decreases fields.len() - from,
{
    if from < 0 || from >= fields.len() {
        None
    } else if fields[from].name@ == name {
        Some(from)
    } else {
        find_field_from(fields, name, from + 1)
    }
}

impl Schema {
    /// Looks a declared type up by name; the returned identifier is tagged
    /// with the declared kind.
    pub open spec fn find_type_spec(self, name: Seq<char>) -> Option<TypeId> {
        match find_type_from(self.types@, name, 0) {
            Some(i) => Some(type_id_for(self.types@[i].kind, i as usize)),
            None => None,
        }
    }

    /// Looks a declared type up by name.
    pub fn find_type(&self, name: &String) -> (r: Option<TypeId>)
        ensures
            r == self.find_type_spec(name@),
            r matches Some(id) ==> self.valid_type_id(id),
    {
        let n = self.types.len();
        let mut i: usize = 0;
        while i < n
            invariant
                n == self.types@.len(),
                i <= n,
                find_type_from(self.types@, name@, 0) == find_type_from(self.types@, name@, i as int),
            decreases n - i,
        {
            if self.types[i].name == *name {
                return Some(type_id_for_exec(self.types[i].kind, i));
            }
            i += 1;
        }
        None
    }

    /// Looks a field up by name on the object or interface type at
    /// `type_index`.
    pub fn field_by_name(&self, type_index: usize, name: &String) -> (r: Option<usize>)
        requires
            type_index < self.types@.len(),
        ensures
            match r {
                Some(k) => find_field_from(self.types@[type_index as int].fields@, name@, 0)
                    == Some(k as int) && k < self.types@[type_index as int].fields@.len(),
                None => find_field_from(self.types@[type_index as int].fields@, name@, 0) is None,
            },
    {
        let fields = &self.types[type_index].fields;
        let n = fields.len();
        let mut i: usize = 0;
        while i < n
            invariant
                n == fields@.len(),
                i <= n,
                fields@ == self.types@[type_index as int].fields@,
                find_field_from(fields@, name@, 0) == find_field_from(fields@, name@, i as int),
            decreases n - i,
        {
            if fields[i].name == *name {
                return Some(i);
            }
            i += 1;
        }
        None
    }
}

impl Schema {
    /// Decides well-formedness, so a caller that assembled a schema can
    /// check it before resolving documents against it.
    pub fn is_well_formed(&self) -> (r: bool)
        ensures
            r == self.wf(),
    {
        let n = self.types.len();
        // Unique type names.
        let mut i: usize = 0;
        while i < n
            invariant
                n == self.types@.len(),
                i <= n,
                forall|p: int, q: int| 0 <= p < q < i ==> self.types@[p].name@ != self.types@[q].name@,
            decreases n - i,
        {
            let mut j: usize = 0;
            while j < i
                invariant
                    n == self.types@.len(),
                    i < n,
                    j <= i,
                    forall|q: int| 0 <= q < j ==> self.types@[q].name@ != self.types@[i as int].name@,
                decreases i - j,
            {
                if self.types[j].name == self.types[i].name {
                    return false;
                }
                j += 1;
            }
            i += 1;
        }
        // Every field's declared type is a valid identifier.
        let mut i: usize = 0;
        while i < n
            invariant
                n == self.types@.len(),
                i <= n,
                forall|p: int, q: int| 0 <= p < q < n ==> self.types@[p].name@ != self.types@[q].name@,
                forall|p: int, k: int|
                    0 <= p < i && 0 <= k < self.types@[p].fields@.len() ==> self.valid_type_id(
                        #[trigger] self.types@[p].fields@[k].field_type,
                    ),
            decreases n - i,
        {
            let nf = self.types[i].fields.len();
            let mut k: usize = 0;
            while k < nf
                invariant
                    n == self.types@.len(),
                    i < n,
                    nf == self.types@[i as int].fields@.len(),
                    k <= nf,
                    forall|q: int|
                        0 <= q < k ==> self.valid_type_id(
                            #[trigger] self.types@[i as int].fields@[q].field_type,
                        ),
                decreases nf - k,
            {
                if !self.check_type_id(self.types[i].fields[k].field_type) {
                    return false;
                }
                k += 1;
            }
            i += 1;
        }
        // Each declared root is an object type.
        if !self.check_root(self.query_root) {
            return false;
        }
        if !self.check_root(self.mutation_root) {
            return false;
        }
        if !self.check_root(self.subscription_root) {
            return false;
        }
        true
    }

    /// Decides whether a declared root, if present, is an object type.
    fn check_root(&self, root: Option<usize>) -> (r: bool)
        ensures
            r == match root {
                Some(x) => x < self.types@.len() && self.types@[x as int].kind == TypeKind::Object,
                None => true,
            },
    {
        match root {
            Some(x) => {
                if x >= self.types.len() {
                    return false;
                }
                self.types[x].kind == TypeKind::Object
            },
            None => true,
        }
    }

    /// Decides validity of one type identifier.
    pub fn check_type_id(&self, id: TypeId) -> (r: bool)
        ensures
            r == self.valid_type_id(id),
    {
        let idx = id.index();
        if idx >= self.types.len() {
            return false;
        }
        self.types[idx].kind == id.kind()
    }
}

impl TypeId {
    /// The kind this identifier is tagged with.
    pub fn kind(&self) -> (r: TypeKind)
        ensures
            r == self.kind_spec(),
    {
        match self {
            TypeId::Object(_) => TypeKind::Object,
            TypeId::Interface(_) => TypeKind::Interface,
            TypeId::Union(_) => TypeKind::Union,
            TypeId::Enum(_) => TypeKind::Enum,
            TypeId::Scalar(_) => TypeKind::Scalar,
            TypeId::InputObject(_) => TypeKind::InputObject,
        }
    }
}

/// The executable counterpart of `type_id_for`.
pub fn type_id_for_exec(kind: TypeKind, index: usize) -> (r: TypeId)
    ensures
        r == type_id_for(kind, index),
{
    match kind {
        TypeKind::Object => TypeId::Object(index),
        TypeKind::Interface => TypeId::Interface(index),
        TypeKind::Union => TypeId::Union(index),
        TypeKind::Enum => TypeId::Enum(index),
        TypeKind::Scalar => TypeId::Scalar(index),
        TypeKind::InputObject => TypeId::InputObject(index),
    }
}

} // verus!
