//! Formulas, the facts known of them before any value is seen, and their validity.

use vstd::prelude::*;

verus! {

broadcast use vstd::std_specs::vec::group_vec_axioms;

/// Bytes taken by a discriminant, a length or an offset on the wire.
pub const WORD: usize = 4;

/// Bytes taken by a length and offset pair that points into the trailing lane.
pub const REFERENCE: usize = 8;

/// The fixed-width scalar formulas.
#[derive(Clone, Copy, Debug, PartialEq, Eq, Structural, Hash)]
pub enum Primitive {
    U8,
    U16,
    U32,
    U64,
    U128,
    I8,
    I16,
    I32,
    I64,
    I128,
    /// Single precision number, carried as its bit pattern.
    Float32,
    /// Double precision number, carried as its bit pattern.
    Float64,
    Bool,
    /// Portable size.
    Usize,
    /// Portable signed size.
    Isize,
}

impl Primitive {
    pub open spec fn spec_width(self) -> usize {
        match self {
            Primitive::U8 | Primitive::I8 | Primitive::Bool => 1,
            Primitive::U16 | Primitive::I16 => 2,
            Primitive::U32 | Primitive::I32 | Primitive::Float32 => 4,
            Primitive::Usize | Primitive::Isize => WORD,
            Primitive::U64 | Primitive::I64 | Primitive::Float64 => 8,
            Primitive::U128 | Primitive::I128 => 16,
        }
    }

    /// Number of bytes every value of this formula occupies.
    #[verifier::when_used_as_spec(spec_width)]
    pub fn width(self) -> (w: usize)
        ensures
            w == self.spec_width(),
            1 <= w <= 16,
    {
        match self {
            Primitive::U8 | Primitive::I8 | Primitive::Bool => 1,
            Primitive::U16 | Primitive::I16 => 2,
            Primitive::U32 | Primitive::I32 | Primitive::Float32 => 4,
            Primitive::Usize | Primitive::Isize => WORD,
            Primitive::U64 | Primitive::I64 | Primitive::Float64 => 8,
            Primitive::U128 | Primitive::I128 => 16,
        }
    }

    pub open spec fn spec_is_signed(self) -> bool {
        match self {
            Primitive::I8 | Primitive::I16 | Primitive::I32 | Primitive::I64 | Primitive::I128
            | Primitive::Isize => true,
            _ => false,
        }
    }

    /// Whether values of this formula are two's complement integers.
    #[verifier::when_used_as_spec(spec_is_signed)]
    pub fn is_signed(self) -> (s: bool)
        ensures
            s == self.spec_is_signed(),
    {
        match self {
            Primitive::I8 | Primitive::I16 | Primitive::I32 | Primitive::I64 | Primitive::I128
            | Primitive::Isize => true,
            _ => false,
        }
    }
}

/// What is known of a formula before any value is seen.
#[derive(Clone, Copy, Debug, PartialEq, Eq)]
pub struct SizeFacts {
    /// Upper bound of the inline lane, `None` when there is none.
    pub max_stack_size: Option<usize>,
    /// Every value occupies the same number of bytes in the inline lane.
    pub exact_size: bool,
    /// No value writes to the trailing lane.
    pub heapless: bool,
}

/// Sum of two bounds; an absent bound absorbs, and so does a sum beyond `usize`.
pub open spec fn spec_sum_size(a: Option<usize>, b: Option<usize>) -> Option<usize> {
    match (a, b) {
        (Some(x), Some(y)) => if x + y <= usize::MAX {
            Some((x + y) as usize)
        } else {
            None
        },
        _ => None,
    }
}

#[verifier::when_used_as_spec(spec_sum_size)]
pub fn sum_size(a: Option<usize>, b: Option<usize>) -> (sum: Option<usize>)
    ensures
        sum == spec_sum_size(a, b),
{
    match (a, b) {
        (Some(x), Some(y)) => x.checked_add(y),
        _ => None,
    }
}

/// Larger of two bounds; an absent bound absorbs.
pub open spec fn spec_max_size(a: Option<usize>, b: Option<usize>) -> Option<usize> {
    match (a, b) {
        (Some(x), Some(y)) => if x >= y {
            Some(x)
        } else {
            Some(y)
        },
        _ => None,
    }
}

#[verifier::when_used_as_spec(spec_max_size)]
pub fn max_size(a: Option<usize>, b: Option<usize>) -> (max: Option<usize>)
    ensures
        max == spec_max_size(a, b),
{
    match (a, b) {
        (Some(x), Some(y)) => if x >= y {
            Some(x)
        } else {
            Some(y)
        },
        _ => None,
    }
}

/// The shape of a type's encoding.
#[derive(Debug, PartialEq, Eq)]
pub enum Formula {
    Primitive(Primitive),
    /// Raw bytes.
    Bytes,
    /// Fields in declared order.
    Struct(Vec<Formula>),
    /// Variants in declared order, each with its fields in declared order.
    Enum(Vec<Vec<Formula>>),
    /// Any number of elements of one formula.
    Sequence(Box<Formula>),
}

/// Sum of the bounds of the first `k` fields.
pub open spec fn fields_max(fields: Seq<Formula>, k: nat) -> Option<usize>
    decreases fields, k,
{
    if k == 0 || k > fields.len() {
        Some(0)
    } else {
        spec_sum_size(fields_max(fields, (k - 1) as nat), fields[k - 1].max_stack_size())
    }
}

/// Whether none of the first `k` fields writes to the trailing lane.
pub open spec fn fields_heapless(fields: Seq<Formula>, k: nat) -> bool
    decreases fields, k,
{
    if k == 0 || k > fields.len() {
        true
    } else {
        fields_heapless(fields, (k - 1) as nat) && fields[k - 1].heapless()
    }
}

/// Exactness of an aggregate: that of its last field, if it has one.
pub open spec fn fields_exact(fields: Seq<Formula>) -> bool
    decreases fields, 0nat,
{
    if fields.len() == 0 {
        true
    } else {
        fields.last().exact_size()
    }
}

/// Largest aggregate bound among the first `k` variants.
pub open spec fn variants_max(variants: Seq<Vec<Formula>>, k: nat) -> Option<usize>
    decreases variants, k,
{
    if k == 0 || k > variants.len() {
        Some(0)
    } else {
        spec_max_size(
            variants_max(variants, (k - 1) as nat),
            fields_max(variants[k - 1]@, variants[k - 1]@.len()),
        )
    }
}

/// Whether no field of the first `k` variants writes to the trailing lane.
pub open spec fn variants_heapless(variants: Seq<Vec<Formula>>, k: nat) -> bool
    decreases variants, k,
{
    if k == 0 || k > variants.len() {
        true
    } else {
        variants_heapless(variants, (k - 1) as nat) && fields_heapless(
            variants[k - 1]@,
            variants[k - 1]@.len(),
        )
    }
}

/// Whether each of the first `k` variants is exact, bounded, and as large as the first one.
pub open spec fn variants_exact(variants: Seq<Vec<Formula>>, k: nat) -> bool
    decreases variants, k,
{
    if k == 0 || k > variants.len() {
        true
    } else {
        &&& variants_exact(variants, (k - 1) as nat)
        &&& fields_exact(variants[k - 1]@)
        &&& fields_max(variants[k - 1]@, variants[k - 1]@.len()) is Some
        &&& fields_max(variants[k - 1]@, variants[k - 1]@.len()) == fields_max(
            variants[0]@,
            variants[0]@.len(),
        )
    }
}

/// Whether an aggregate of these fields can be laid out.
pub open spec fn fields_valid(fields: Seq<Formula>) -> bool
    decreases fields, 0nat,
{
    &&& forall|i: int| 0 <= i < fields.len() ==> (#[trigger] fields[i]).valid()
    &&& forall|i: int|
        0 <= i < fields.len() - 1 ==> {
            ||| (#[trigger] fields[i]).fixed_size() is Some
            ||| fields[i].max_stack_size() is None
        }
    &&& (forall|i: int| 0 <= i < fields.len() ==> (#[trigger] fields[i]).max_stack_size() is Some)
        ==> fields_max(fields, fields.len()) is Some
}

impl Formula {
    /// Upper bound of the inline lane.
    pub open spec fn max_stack_size(&self) -> Option<usize>
        decreases self,
    {
        match self {
            Formula::Primitive(p) => Some(p.spec_width()),
            Formula::Bytes => None,
            Formula::Struct(fields) => fields_max(fields@, fields@.len()),
            Formula::Enum(variants) => spec_sum_size(
                Some(WORD),
                variants_max(variants@, variants@.len()),
            ),
            Formula::Sequence(element) => if element.max_stack_size() == Some(0usize) {
                Some(REFERENCE)
            } else {
                None
            },
        }
    }

    /// Whether every value occupies the same number of bytes in the inline lane.
    pub open spec fn exact_size(&self) -> bool
        decreases self,
    {
        match self {
            Formula::Primitive(_) => true,
            Formula::Bytes => false,
            Formula::Struct(fields) => fields_exact(fields@),
            Formula::Enum(variants) => variants_exact(variants@, variants@.len()),
            Formula::Sequence(element) => element.max_stack_size() == Some(0usize),
        }
    }

    /// Whether no value writes to the trailing lane.
    pub open spec fn heapless(&self) -> bool
        decreases self,
    {
        match self {
            Formula::Primitive(_) => true,
            Formula::Bytes => false,
            Formula::Struct(fields) => fields_heapless(fields@, fields@.len()),
            Formula::Enum(variants) => variants_heapless(variants@, variants@.len()),
            Formula::Sequence(element) => element.max_stack_size() == Some(0usize)
                && element.heapless(),
        }
    }

    /// The size of the inline lane where it is known and the same for every value.
    pub open spec fn fixed_size(&self) -> Option<usize> {
        if self.exact_size() {
            self.max_stack_size()
        } else {
            None
        }
    }

    /// Whether the formula can be laid out: inside every aggregate, a field before the
    /// last one has a fixed size or no bound at all, and the bounds add up within `usize`.
    pub open spec fn valid(&self) -> bool
        decreases self, 0nat,
    {
        match self {
            Formula::Primitive(_) => true,
            Formula::Bytes => true,
            Formula::Struct(fields) => fields_valid(fields@),
            Formula::Enum(variants) => {
                &&& forall|i: int|
                    0 <= i < variants@.len() ==> fields_valid((#[trigger] variants@[i])@)
                &&& variants_max(variants@, variants@.len()) is Some ==> self.max_stack_size() is Some
            },
            Formula::Sequence(element) => element.valid(),
        }
    }

    /// The three facts together.
    pub open spec fn spec_facts(&self) -> SizeFacts {
        SizeFacts {
            max_stack_size: self.max_stack_size(),
            exact_size: self.exact_size(),
            heapless: self.heapless(),
        }
    }

    /// Computes the facts of this formula from those of its parts.
    pub fn facts(&self) -> (facts: SizeFacts)
        ensures
            facts == self.spec_facts(),
        decreases self,
    {
        match self {
            Formula::Primitive(p) => SizeFacts {
                max_stack_size: Some(p.width()),
                exact_size: true,
                heapless: true,
            },
            Formula::Bytes => SizeFacts { max_stack_size: None, exact_size: false, heapless: false },
            Formula::Struct(fields) => struct_facts(fields),
            Formula::Enum(variants) => enum_facts(variants),
            Formula::Sequence(element) => sequence_facts(element.facts()),
        }
    }

    /// The size of the inline lane where it is known and the same for every value.
    pub fn fixed(&self) -> (size: Option<usize>)
        ensures
            size == self.fixed_size(),
    {
        let facts = self.facts();
        if facts.exact_size {
            facts.max_stack_size
        } else {
            None
        }
    }

    /// Whether the formula can be laid out.
    pub fn is_valid(&self) -> (ok: bool)
        ensures
            ok == self.valid(),
        decreases self,
    {
        match self {
            Formula::Primitive(_) => true,
            Formula::Bytes => true,
            Formula::Struct(fields) => fields_are_valid(fields),
            Formula::Enum(variants) => {
                if !variants_are_valid(variants) {
                    return false;
                }
                let largest = enum_largest(variants);
                largest.is_none() || sum_size(Some(WORD), largest).is_some()
            },
            Formula::Sequence(element) => element.is_valid(),
        }
    }
}

/// The facts of a sequence, from those of its element.
pub fn sequence_facts(element: SizeFacts) -> (facts: SizeFacts)
    ensures
        facts.max_stack_size == if element.max_stack_size == Some(0usize) {
            Some(REFERENCE)
        } else {
            None
        },
        facts.exact_size == (element.max_stack_size == Some(0usize)),
        facts.heapless == (element.max_stack_size == Some(0usize) && element.heapless),
{
    let degenerate = match element.max_stack_size {
        Some(size) => size == 0,
        None => false,
    };
    SizeFacts {
        max_stack_size: if degenerate {
            Some(REFERENCE)
        } else {
            None
        },
        exact_size: degenerate,
        heapless: degenerate && element.heapless,
    }
}

/// The facts of an aggregate: bounds add up, exactness is that of the last field, and
/// the aggregate is heapless where every field is.
pub fn struct_facts(fields: &Vec<Formula>) -> (facts: SizeFacts)
    ensures
        facts.max_stack_size == fields_max(fields@, fields@.len()),
        facts.exact_size == fields_exact(fields@),
        facts.heapless == fields_heapless(fields@, fields@.len()),
    decreases fields,
{
    let mut max: Option<usize> = Some(0);
    let mut exact = true;
    let mut heapless = true;
    let mut i: usize = 0;
    while i < fields.len()
        invariant
            i <= fields@.len(),
            max == fields_max(fields@, i as nat),
            heapless == fields_heapless(fields@, i as nat),
            exact == (i == 0 || fields@[i - 1].exact_size()),
        decreases fields@.len() - i,
    {
        let field = fields[i].facts();
        max = sum_size(max, field.max_stack_size);
        exact = field.exact_size;
        heapless = heapless && field.heapless;
        i = i + 1;
    }
    SizeFacts { max_stack_size: max, exact_size: exact, heapless }
}

/// The largest aggregate bound among the variants.
pub fn enum_largest(variants: &Vec<Vec<Formula>>) -> (largest: Option<usize>)
    ensures
        largest == variants_max(variants@, variants@.len()),
    decreases variants,
{
    let mut largest: Option<usize> = Some(0);
    let mut i: usize = 0;
    while i < variants.len()
        invariant
            i <= variants@.len(),
            largest == variants_max(variants@, i as nat),
        decreases variants@.len() - i,
    {
        let variant = struct_facts(&variants[i]);
        largest = max_size(largest, variant.max_stack_size);
        i = i + 1;
    }
    largest
}

/// The facts of a sum type: a discriminant before the largest variant; exact where all
/// variants are exact and of one bounded size; heapless where every field is.
pub fn enum_facts(variants: &Vec<Vec<Formula>>) -> (facts: SizeFacts)
    ensures
        facts.max_stack_size == spec_sum_size(
            Some(WORD),
            variants_max(variants@, variants@.len()),
        ),
        facts.exact_size == variants_exact(variants@, variants@.len()),
        facts.heapless == variants_heapless(variants@, variants@.len()),
    decreases variants,
{
    let mut largest: Option<usize> = Some(0);
    let mut exact = true;
    let mut heapless = true;
    let mut common: Option<usize> = None;
    let mut i: usize = 0;
    while i < variants.len()
        invariant
            i <= variants@.len(),
            largest == variants_max(variants@, i as nat),
            heapless == variants_heapless(variants@, i as nat),
            exact == variants_exact(variants@, i as nat),
            i > 0 ==> common == fields_max(variants@[i - 1]@, variants@[i - 1]@.len()),
            i == 0 ==> common is None,
        decreases variants@.len() - i,
    {
        let variant = struct_facts(&variants[i]);
        exact = exact && variant.exact_size;
        let same = match (common, variant.max_stack_size) {
            (_, None) => false,
            (None, _) => true,
            (Some(a), Some(b)) => a == b,
        };
        proof {
            if i > 0 && variants_exact(variants@, i as nat) {
                crate::soundness::lemma_variants_exact_terms(variants@, i as nat);
            }
        }
        exact = exact && same;
        common = variant.max_stack_size;
        largest = max_size(largest, variant.max_stack_size);
        heapless = heapless && variant.heapless;
        i = i + 1;
    }
    SizeFacts { max_stack_size: sum_size(Some(WORD), largest), exact_size: exact, heapless }
}

/// Whether the fields of every variant can be laid out.
pub fn variants_are_valid(variants: &Vec<Vec<Formula>>) -> (ok: bool)
    ensures
        ok == (forall|i: int| 0 <= i < variants@.len() ==> fields_valid((#[trigger] variants@[i])@)),
    decreases variants,
{
    let mut i: usize = 0;
    while i < variants.len()
        invariant
            i <= variants@.len(),
            forall|j: int| 0 <= j < i ==> fields_valid((#[trigger] variants@[j])@),
        decreases variants@.len() - i,
    {
        if !fields_are_valid(&variants[i]) {
            return false;
        }
        i = i + 1;
    }
    true
}

/// Whether an aggregate of these fields can be laid out.
pub fn fields_are_valid(fields: &Vec<Formula>) -> (ok: bool)
    ensures
        ok == fields_valid(fields@),
    decreases fields,
{
    let n = fields.len();
    let mut bounded = true;
    let mut i: usize = 0;
    while i < n
        invariant
            n == fields@.len(),
            i <= n,
            forall|j: int| 0 <= j < i ==> (#[trigger] fields@[j]).valid(),
            forall|j: int|
                0 <= j < i && j < n - 1 ==> {
                    ||| (#[trigger] fields@[j]).fixed_size() is Some
                    ||| fields@[j].max_stack_size() is None
                },
            bounded == (forall|j: int|
                0 <= j < i ==> (#[trigger] fields@[j]).max_stack_size() is Some),
        decreases n - i,
    {
        if !fields[i].is_valid() {
            return false;
        }
        let facts = fields[i].facts();
        if i + 1 < n && facts.max_stack_size.is_some() && !facts.exact_size {
            return false;
        }
        bounded = bounded && facts.max_stack_size.is_some();
        i = i + 1;
    }
    !bounded || struct_facts(fields).max_stack_size.is_some()
}

} // verus!
