//! What is generated for a type definition that is to be a formula.

use vstd::prelude::*;

verus! {

/// How the fields of an aggregate or of a variant are written down.
#[derive(Clone, Copy, Debug, PartialEq, Eq, Structural, Hash)]
pub enum FieldsKind {
    /// Fields with names, in braces.
    Named,
    /// Fields without names, in parentheses.
    Unnamed,
    /// No fields at all.
    Unit,
}

/// One field of a type definition.
#[derive(Clone, Copy, Debug, PartialEq, Eq, Structural, Hash)]
pub struct FieldDef {
    /// Stands for the field's type: two fields have the same number where their types
    /// are written alike.
    pub type_id: u64,
    /// Whether the type mentions a type parameter of the definition.
    pub generic: bool,
}

/// The fields of an aggregate or of one variant, in declared order.
#[derive(Debug, PartialEq, Eq)]
pub struct FieldsDef {
    pub kind: FieldsKind,
    pub fields: Vec<FieldDef>,
}

/// The body of a type definition.
#[derive(Debug, PartialEq, Eq)]
pub enum DataDef {
    Struct(FieldsDef),
    /// Variants in declared order.
    Enum(Vec<FieldsDef>),
    Union,
}

/// What the attributes on the definition name.
#[derive(Clone, Copy, Debug, PartialEq, Eq, Structural, Hash)]
pub struct DeriveArgs {
    /// A formula to serialize as.
    pub serialize: bool,
    /// A formula to deserialize as.
    pub deserialize: bool,
    /// A formula for both.
    pub common: bool,
    /// A formula for serializing by value.
    pub owned: bool,
    /// A variant of a formula.
    pub variant: bool,
}

/// A type definition with its attributes.
#[derive(Debug, PartialEq, Eq)]
pub struct DeriveInput {
    pub args: DeriveArgs,
    pub data: DataDef,
}

/// Why no formula is derived for a definition.
#[derive(Clone, Copy, Debug, PartialEq, Eq, Structural, Hash)]
pub enum DeriveError {
    /// A type that is a formula itself names another formula to be written as.
    FormulaSpecified,
    /// A type that is a formula itself names a variant.
    VariantSpecified,
    /// The definition is a union.
    Union,
    /// The definition has more variants than a discriminant counts.
    TooManyVariants,
}

/// What is generated for a definition.
#[derive(Debug, PartialEq, Eq)]
pub struct Plan {
    /// For the aggregate, or for each variant in declared order: the indices of its
    /// fields that get a named constant, which are all of them where the fields have
    /// names and none where they have not.
    pub field_ids: Vec<Vec<usize>>,
    /// The discriminant of each variant, in declared order; empty for an aggregate.
    pub variant_ids: Vec<u32>,
    /// The types that must be formulas themselves for the definition to be one: the
    /// generic field types, each once.
    pub bounds: Vec<u64>,
}

/// The indices that get a named constant among `count` fields of this kind.
pub open spec fn named_ids(kind: FieldsKind, count: nat) -> Seq<usize> {
    if kind == FieldsKind::Named {
        Seq::new(count, |i: int| i as usize)
    } else {
        Seq::empty()
    }
}

/// Whether a generic field among the first `k` of `fields` has the type `id`.
pub open spec fn bound_among(fields: Seq<FieldDef>, k: int, id: u64) -> bool {
    exists|i: int| 0 <= i < k && i < fields.len() && #[trigger] fields[i].generic && fields[i].type_id == id
}

/// Whether a generic field of the first `k` of `groups` has the type `id`.
pub open spec fn bound_in(groups: Seq<FieldsDef>, k: int, id: u64) -> bool {
    exists|v: int|
        0 <= v < k && v < groups.len() && bound_among(
            (#[trigger] groups[v]).fields@,
            groups[v].fields@.len() as int,
            id,
        )
}

/// The groups of fields of a definition: one for an aggregate, one for each variant of
/// a sum type.
pub open spec fn groups_of(data: DataDef) -> Seq<FieldsDef> {
    match data {
        DataDef::Struct(fields) => seq![fields],
        DataDef::Enum(variants) => variants@,
        DataDef::Union => Seq::empty(),
    }
}

/// Whether `id` is among `ids`.
pub fn contains(ids: &Vec<u64>, id: u64) -> (found: bool)
    ensures
        found == ids@.contains(id),
{
    let mut i: usize = 0;
    while i < ids.len()
        invariant
            i <= ids@.len(),
            forall|j: int| 0 <= j < i ==> ids@[j] != id,
        decreases ids@.len() - i,
    {
        if ids[i] == id {
            return true;
        }
        i = i + 1;
    }
    false
}

/// The indices `0..count` where the fields have names, none where they have not.
pub fn field_ids(kind: FieldsKind, count: usize) -> (ids: Vec<usize>)
    ensures
        ids@ == named_ids(kind, count as nat),
{
    let mut ids: Vec<usize> = Vec::new();
    if kind == FieldsKind::Named {
        let mut i: usize = 0;
        while i < count
            invariant
                i <= count,
                ids@.len() == i,
                forall|j: int| 0 <= j < i ==> ids@[j] == j,
            decreases count - i,
        {
            ids.push(i);
            i = i + 1;
        }
    }
    assert(ids@ =~= named_ids(kind, count as nat));
    ids
}

/// Adds to `bounds` the types of the generic fields that it does not hold yet.
pub fn collect_bounds(fields: &Vec<FieldDef>, bounds: &mut Vec<u64>)
    requires
        old(bounds)@.no_duplicates(),
    ensures
        final(bounds)@.no_duplicates(),
        forall|id: u64|
            final(bounds)@.contains(id) <==> old(bounds)@.contains(id) || bound_among(
                fields@,
                fields@.len() as int,
                id,
            ),
{
    let mut i: usize = 0;
    while i < fields.len()
        invariant
            i <= fields@.len(),
            bounds@.no_duplicates(),
            forall|id: u64|
                bounds@.contains(id) <==> old(bounds)@.contains(id) || bound_among(
                    fields@,
                    i as int,
                    id,
                ),
        decreases fields@.len() - i,
    {
        let field = fields[i];
        let ghost before = bounds@;
        if field.generic && !contains(bounds, field.type_id) {
            bounds.push(field.type_id);
            assert(forall|id: u64| bounds@.contains(id) <==> before.contains(id) || id == field.type_id) by {
                assert forall|id: u64| bounds@.contains(id) implies before.contains(id) || id
                    == field.type_id by {
                    let j = choose|j: int| 0 <= j < bounds@.len() && bounds@[j] == id;
                    if j < before.len() {
                        assert(before[j] == id);
                    }
                }
                assert forall|id: u64| before.contains(id) || id == field.type_id implies bounds@.contains(
                    id,
                ) by {
                    if before.contains(id) {
                        let j = choose|j: int| 0 <= j < before.len() && before[j] == id;
                        assert(bounds@[j] == id);
                    } else {
                        assert(bounds@[before.len() as int] == id);
                    }
                }
            }
        }
        assert forall|id: u64|
            bounds@.contains(id) <==> old(bounds)@.contains(id) || bound_among(
                fields@,
                i + 1,
                id,
            ) by {
            if bound_among(fields@, i + 1, id) && !bound_among(fields@, i as int, id) {
                let j = choose|j: int|
                    0 <= j < i + 1 && j < fields@.len() && #[trigger] fields@[j].generic
                        && fields@[j].type_id == id;
                assert(j == i);
            }
            if field.generic && field.type_id == id {
                assert(fields@[i as int].generic && fields@[i as int].type_id == id);
            }
            if bound_among(fields@, i as int, id) {
                let j = choose|j: int|
                    0 <= j < i && j < fields@.len() && #[trigger] fields@[j].generic
                        && fields@[j].type_id == id;
                assert(fields@[j].generic);
            }
        }
        i = i + 1;
    }
}

/// Plans what is generated for a type definition that is to be a formula. Refuses, in
/// this order: a definition that names a formula to be written as; one that names a
/// variant; a union; a sum type of more variants than a discriminant counts.
pub fn derive(input: &DeriveInput) -> (result: Result<Plan, DeriveError>)
    ensures
        match result {
            Err(DeriveError::FormulaSpecified) => input.args.serialize || input.args.deserialize
                || input.args.common || input.args.owned,
            Err(DeriveError::VariantSpecified) => {
                &&& !(input.args.serialize || input.args.deserialize || input.args.common
                    || input.args.owned)
                &&& input.args.variant
            },
            Err(DeriveError::Union) => {
                &&& !(input.args.serialize || input.args.deserialize || input.args.common
                    || input.args.owned)
                &&& !input.args.variant
                &&& input.data is Union
            },
            Err(DeriveError::TooManyVariants) => {
                &&& !(input.args.serialize || input.args.deserialize || input.args.common
                    || input.args.owned)
                &&& !input.args.variant
                &&& input.data matches DataDef::Enum(variants)
                &&& variants@.len() > u32::MAX
            },
            Ok(plan) => {
                &&& !(input.args.serialize || input.args.deserialize || input.args.common
                    || input.args.owned)
                &&& !input.args.variant
                &&& input.data !is Union
                &&& plan.field_ids@.len() == groups_of(input.data).len()
                &&& forall|v: int|
                    0 <= v < plan.field_ids@.len() ==> (#[trigger] plan.field_ids@[v])@
                        == named_ids(
                        groups_of(input.data)[v].kind,
                        groups_of(input.data)[v].fields@.len(),
                    )
                &&& input.data is Struct ==> plan.variant_ids@.len() == 0
                &&& input.data matches DataDef::Enum(variants) ==> {
                    &&& variants@.len() <= u32::MAX
                    &&& plan.variant_ids@.len() == variants@.len()
                    &&& forall|v: int|
                        0 <= v < variants@.len() ==> #[trigger] plan.variant_ids@[v] == v
                }
                &&& plan.bounds@.no_duplicates()
                &&& forall|id: u64|
                    plan.bounds@.contains(id) <==> bound_in(
                        groups_of(input.data),
                        groups_of(input.data).len() as int,
                        id,
                    )
            },
        },
{
    if input.args.serialize || input.args.deserialize || input.args.common || input.args.owned {
        return Err(DeriveError::FormulaSpecified);
    }
    if input.args.variant {
        return Err(DeriveError::VariantSpecified);
    }
    match &input.data {
        DataDef::Union => Err(DeriveError::Union),
        DataDef::Struct(group) => {
            let mut bounds: Vec<u64> = Vec::new();
            collect_bounds(&group.fields, &mut bounds);
            let mut ids: Vec<Vec<usize>> = Vec::new();
            ids.push(field_ids(group.kind, group.fields.len()));
            let ghost groups = groups_of(input.data);
            assert(groups[0] == *group);
            assert forall|id: u64|
                bounds@.contains(id) <==> bound_in(groups, groups.len() as int, id) by {
                if bound_in(groups, 1, id) {
                    let v = choose|v: int|
                        0 <= v < 1 && v < groups.len() && bound_among(
                            (#[trigger] groups[v]).fields@,
                            groups[v].fields@.len() as int,
                            id,
                        );
                    assert(v == 0);
                }
                if bound_among(group.fields@, group.fields@.len() as int, id) {
                    assert(bound_among(groups[0].fields@, groups[0].fields@.len() as int, id));
                }
            }
            Ok(Plan { field_ids: ids, variant_ids: Vec::new(), bounds })
        },
        DataDef::Enum(variants) => {
            if variants.len() > 0xffff_ffff {
                return Err(DeriveError::TooManyVariants);
            }
            let mut bounds: Vec<u64> = Vec::new();
            let mut ids: Vec<Vec<usize>> = Vec::new();
            let mut tags: Vec<u32> = Vec::new();
            let mut v: usize = 0;
            while v < variants.len()
                invariant
                    v <= variants@.len() <= u32::MAX,
                    ids@.len() == v,
                    tags@.len() == v,
                    forall|w: int|
                        0 <= w < v ==> (#[trigger] ids@[w])@ == named_ids(
                            variants@[w].kind,
                            variants@[w].fields@.len(),
                        ),
                    forall|w: int| 0 <= w < v ==> #[trigger] tags@[w] == w,
                    bounds@.no_duplicates(),
                    forall|id: u64| bounds@.contains(id) <==> bound_in(variants@, v as int, id),
                decreases variants@.len() - v,
            {
                let group = &variants[v];
                let ghost before = bounds@;
                collect_bounds(&group.fields, &mut bounds);
                ids.push(field_ids(group.kind, group.fields.len()));
                tags.push(v as u32);
                assert forall|id: u64|
                    bounds@.contains(id) <==> bound_in(variants@, v + 1, id) by {
                    if bound_in(variants@, v + 1, id) && !bound_in(variants@, v as int, id) {
                        let w = choose|w: int|
                            0 <= w < v + 1 && w < variants@.len() && bound_among(
                                (#[trigger] variants@[w]).fields@,
                                variants@[w].fields@.len() as int,
                                id,
                            );
                        assert(w == v);
                    }
                    if bound_among(group.fields@, group.fields@.len() as int, id) {
                        assert(bound_among(
                            variants@[v as int].fields@,
                            variants@[v as int].fields@.len() as int,
                            id,
                        ));
                    }
                    if bound_in(variants@, v as int, id) {
                        let w = choose|w: int|
                            0 <= w < v && w < variants@.len() && bound_among(
                                (#[trigger] variants@[w]).fields@,
                                variants@[w].fields@.len() as int,
                                id,
                            );
                        assert(bound_among(
                            variants@[w].fields@,
                            variants@[w].fields@.len() as int,
                            id,
                        ));
                    }
                }
                v = v + 1;
            }
            Ok(Plan { field_ids: ids, variant_ids: tags, bounds })
        },
    }
}

} // verus!
