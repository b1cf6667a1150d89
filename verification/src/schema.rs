//! Table schemas: fields that carry ids, nested to any depth.

use crate::text::{decimal_text, digits, integer_text, lemma_digits_read_back};
use std::sync::Arc;
use vstd::prelude::*;
use vstd::string::StringExecFns;

verus! {

/// A type whose values have no parts.
#[derive(Debug, Clone, Copy, PartialEq, Eq, Structural)]
pub enum PrimitiveType {
    Boolean,
    Int,
    Long,
    Float,
    Double,
    Decimal { precision: u32, scale: u32 },
    Date,
    Time,
    Timestamp,
    Timestamptz,
    TimestampNs,
    TimestamptzNs,
    String,
    Uuid,
    Fixed(u64),
    Binary,
}

/// A semi-structured value, whose shape the schema does not give.
#[derive(Debug, Clone, Copy, PartialEq, Eq, Structural)]
pub struct VariantType;

/// A record of named fields.
#[derive(Debug)]
pub struct StructType {
    pub fields: Vec<Arc<NestedField>>,
}

/// Any number of elements of one type.
#[derive(Debug)]
pub struct ListType {
    pub element_field: Arc<NestedField>,
}

/// Any number of keys of one type, each with a value of another.
#[derive(Debug)]
pub struct MapType {
    pub key_field: Arc<NestedField>,
    pub value_field: Arc<NestedField>,
}

#[derive(Debug)]
pub enum Type {
    Primitive(PrimitiveType),
    Struct(StructType),
    List(ListType),
    Mapping(MapType),
    Variant(VariantType),
}

/// A field: a column of a table, or a part of the type of one.
#[derive(Debug)]
pub struct NestedField {
    pub id: i32,
    pub name: String,
    pub required: bool,
    pub field_type: Box<Type>,
}

/// The top-level fields of a table or of a file.
#[derive(Debug)]
pub struct Schema {
    pub fields: Vec<Arc<NestedField>>,
}

/// The ids of the leaves of `field`, depth first. A leaf is a field without parts.
pub open spec fn leaf_ids(field: NestedField) -> Seq<i32>
    decreases field,
{
    match *field.field_type {
        Type::Primitive(_) | Type::Variant(_) => seq![field.id],
        Type::Struct(s) => leaf_ids_of_all(s.fields@),
        Type::List(l) => leaf_ids(*l.element_field),
        Type::Mapping(m) => leaf_ids(*m.key_field) + leaf_ids(*m.value_field),
    }
}

/// The ids of the leaves of each of `fields`, in order.
pub open spec fn leaf_ids_of_all(fields: Seq<Arc<NestedField>>) -> Seq<i32>
    decreases fields,
{
    if fields.len() == 0 {
        seq![]
    } else {
        leaf_ids_of_all(fields.drop_last()) + leaf_ids(*fields.last())
    }
}

/// Whether `field_type` is a variant, or has one among its parts at any depth.
pub open spec fn contains_variant(field_type: Type) -> bool
    decreases field_type,
{
    match field_type {
        Type::Variant(_) => true,
        Type::Primitive(_) => false,
        Type::Struct(s) => exists|i: int|
            0 <= i < s.fields@.len() && contains_variant(*(#[trigger] s.fields@[i]).field_type),
        Type::List(l) => contains_variant(*l.element_field.field_type),
        Type::Mapping(m) => contains_variant(*m.key_field.field_type) || contains_variant(
            *m.value_field.field_type,
        ),
    }
}

/// The field with the id `id` among `field` and its parts. Where several carry the id, the
/// outermost one of the last part that has it.
pub open spec fn find_in_field(field: NestedField, id: i32) -> Option<NestedField>
    decreases field,
{
    if field.id == id {
        Some(field)
    } else {
        match *field.field_type {
            Type::Primitive(_) | Type::Variant(_) => None,
            Type::Struct(s) => find_in_all(s.fields@, id),
            Type::List(l) => find_in_field(*l.element_field, id),
            Type::Mapping(m) => match find_in_field(*m.value_field, id) {
                Some(found) => Some(found),
                None => find_in_field(*m.key_field, id),
            },
        }
    }
}

/// The field with the id `id` among `fields` and their parts; of several, as for one field.
pub open spec fn find_in_all(fields: Seq<Arc<NestedField>>, id: i32) -> Option<NestedField>
    decreases fields,
{
    if fields.len() == 0 {
        None
    } else {
        match find_in_field(*fields.last(), id) {
            Some(found) => Some(found),
            None => find_in_all(fields.drop_last(), id),
        }
    }
}

/// How a primitive type reads.
pub open spec fn primitive_text(p: PrimitiveType) -> Seq<char> {
    match p {
        PrimitiveType::Boolean => "boolean"@,
        PrimitiveType::Int => "int"@,
        PrimitiveType::Long => "long"@,
        PrimitiveType::Float => "float"@,
        PrimitiveType::Double => "double"@,
        PrimitiveType::Decimal { precision, scale } => "decimal("@ + decimal_text(precision as int)
            + ","@ + decimal_text(scale as int) + ")"@,
        PrimitiveType::Date => "date"@,
        PrimitiveType::Time => "time"@,
        PrimitiveType::Timestamp => "timestamp"@,
        PrimitiveType::Timestamptz => "timestamptz"@,
        PrimitiveType::TimestampNs => "timestamp_ns"@,
        PrimitiveType::TimestamptzNs => "timestamptz_ns"@,
        PrimitiveType::String => "string"@,
        PrimitiveType::Uuid => "uuid"@,
        PrimitiveType::Fixed(size) => "fixed("@ + decimal_text(size as int) + ")"@,
        PrimitiveType::Binary => "binary"@,
    }
}

/// How a type reads. A struct names the types of its fields.
pub open spec fn type_text(t: Type) -> Seq<char>
    decreases t,
{
    match t {
        Type::Primitive(p) => primitive_text(p),
        Type::Struct(s) => "struct<"@ + field_types_text(s.fields@) + ">"@,
        Type::List(_) => "list"@,
        Type::Mapping(_) => "map"@,
        Type::Variant(_) => "variant"@,
    }
}

/// The types of the fields, one behind another.
pub open spec fn field_types_text(fields: Seq<Arc<NestedField>>) -> Seq<char>
    decreases fields,
{
    if fields.len() == 0 {
        seq![]
    } else {
        field_types_text(fields.drop_last()) + type_text(*fields.last().field_type)
    }
}

impl PrimitiveType {
    pub fn to_string(&self) -> (s: String)
        ensures
            s@ == primitive_text(*self),
    {
        let mut s = String::new();
        match self {
            PrimitiveType::Boolean => s.append("boolean"),
            PrimitiveType::Int => s.append("int"),
            PrimitiveType::Long => s.append("long"),
            PrimitiveType::Float => s.append("float"),
            PrimitiveType::Double => s.append("double"),
            PrimitiveType::Decimal { precision, scale } => {
                s.append("decimal(");
                s.append(integer_text(*precision as i128).as_str());
                s.append(",");
                s.append(integer_text(*scale as i128).as_str());
                s.append(")");
            },
            PrimitiveType::Date => s.append("date"),
            PrimitiveType::Time => s.append("time"),
            PrimitiveType::Timestamp => s.append("timestamp"),
            PrimitiveType::Timestamptz => s.append("timestamptz"),
            PrimitiveType::TimestampNs => s.append("timestamp_ns"),
            PrimitiveType::TimestamptzNs => s.append("timestamptz_ns"),
            PrimitiveType::String => s.append("string"),
            PrimitiveType::Uuid => s.append("uuid"),
            PrimitiveType::Fixed(size) => {
                s.append("fixed(");
                s.append(integer_text(*size as i128).as_str());
                s.append(")");
            },
            PrimitiveType::Binary => s.append("binary"),
        }
        assert(s@ =~= primitive_text(*self));
        s
    }
}

impl StructType {
    pub fn new(fields: Vec<Arc<NestedField>>) -> (s: StructType)
        ensures
            s.fields == fields,
    {
        StructType { fields }
    }
}

impl MapType {
    /// A map whose values must be there.
    pub fn required(key_id: i32, key_type: Type, value_id: i32, value_type: Type) -> (map: MapType)
        ensures
            map.key_field.id == key_id,
            map.key_field.name@ == "key"@,
            map.key_field.required,
            *map.key_field.field_type == key_type,
            map.value_field.id == value_id,
            map.value_field.name@ == "value"@,
            map.value_field.required,
            *map.value_field.field_type == value_type,
    {
        MapType {
            key_field: Arc::new(NestedField::required(key_id, "key", key_type)),
            value_field: Arc::new(NestedField::required(value_id, "value", value_type)),
        }
    }
}

impl Type {
    /// The primitive type, where this is one.
    pub fn as_primitive_type(&self) -> (p: Option<&PrimitiveType>)
        ensures
            p == (match *self {
                Type::Primitive(own) => Some(&own),
                _ => None,
            }),
    {
        match self {
            Type::Primitive(own) => Some(own),
            _ => None,
        }
    }

    pub fn to_string(&self) -> (s: String)
        ensures
            s@ == type_text(*self),
        decreases self,
    {
        let mut s = String::new();
        match self {
            Type::Primitive(p) => {
                let own = p.to_string();
                s.append(own.as_str());
            },
            Type::Struct(st) => {
                s.append("struct<");
                let mut i: usize = 0;
                while i < st.fields.len()
                    invariant
                        i <= st.fields.len(),
                        decreases_to!(self => st),
                        s@ == "struct<"@ + field_types_text(st.fields@.take(i as int)),
                    decreases st.fields.len() - i,
                {
                    let part = st.fields[i].field_type.to_string();
                    s.append(part.as_str());
                    assert(st.fields@.take(i + 1).drop_last() =~= st.fields@.take(i as int));
                    i = i + 1;
                }
                assert(st.fields@.take(st.fields.len() as int) =~= st.fields@);
                s.append(">");
            },
            Type::List(_) => s.append("list"),
            Type::Mapping(_) => s.append("map"),
            Type::Variant(_) => s.append("variant"),
        }
        assert(s@ =~= type_text(*self));
        s
    }
}

impl NestedField {
    /// A field whose values must be there.
    pub fn required(id: i32, name: &str, field_type: Type) -> (field: NestedField)
        ensures
            field.id == id,
            field.name@ == name@,
            field.required,
            *field.field_type == field_type,
    {
        NestedField { id, name: name.to_string(), required: true, field_type: Box::new(field_type) }
    }

    /// A field whose values may be null.
    pub fn optional(id: i32, name: &str, field_type: Type) -> (field: NestedField)
        ensures
            field.id == id,
            field.name@ == name@,
            !field.required,
            *field.field_type == field_type,
    {
        NestedField {
            id,
            name: name.to_string(),
            required: false,
            field_type: Box::new(field_type),
        }
    }
}

/// The field with the id `id` among `field` and its parts.
fn field_by_id_in_field(field: &NestedField, id: i32) -> (found: Option<&NestedField>)
    ensures
        found == (match find_in_field(*field, id) {
            Some(f) => Some(&f),
            None => None,
        }),
    decreases field,
{
    if field.id == id {
        return Some(field);
    }
    match &*field.field_type {
        Type::Primitive(_) => None,
        Type::Variant(_) => None,
        Type::Struct(s) => {
            let mut i: usize = s.fields.len();
            assert(s.fields@.take(i as int) =~= s.fields@);
            while i > 0
                invariant
                    i <= s.fields.len(),
                    decreases_to!(field => s.fields),
                    find_in_all(s.fields@, id) == find_in_all(s.fields@.take(i as int), id),
                    field.id != id,
                    *field.field_type == Type::Struct(*s),
                decreases i,
            {
                i = i - 1;
                assert(s.fields@.take(i + 1).drop_last() =~= s.fields@.take(i as int));
                match field_by_id_in_field(&s.fields[i], id) {
                    Some(found) => {
                        return Some(found);
                    },
                    None => {},
                }
            }
            None
        },
        Type::List(l) => field_by_id_in_field(&l.element_field, id),
        Type::Mapping(m) => match field_by_id_in_field(&m.value_field, id) {
            Some(found) => Some(found),
            None => field_by_id_in_field(&m.key_field, id),
        },
    }
}

impl Schema {
    pub fn new(fields: Vec<Arc<NestedField>>) -> (schema: Schema)
        ensures
            schema.fields == fields,
    {
        Schema { fields }
    }

    /// The field with the id `id`, at any depth.
    pub open spec fn field(self, id: i32) -> Option<NestedField> {
        find_in_all(self.fields@, id)
    }

    pub fn field_by_id(&self, id: i32) -> (found: Option<&NestedField>)
        ensures
            found == (match self.field(id) {
                Some(f) => Some(&f),
                None => None,
            }),
    {
        let mut i: usize = self.fields.len();
        assert(self.fields@.take(i as int) =~= self.fields@);
        while i > 0
            invariant
                i <= self.fields.len(),
                self.field(id) == find_in_all(self.fields@.take(i as int), id),
            decreases i,
        {
            i = i - 1;
            assert(self.fields@.take(i + 1).drop_last() =~= self.fields@.take(i as int));
            match field_by_id_in_field(&self.fields[i], id) {
                Some(found) => {
                    return Some(found);
                },
                None => {},
            }
        }
        None
    }
}

/// Whether `field_type` is, or transitively contains, a variant type.
pub fn type_contains_variant(field_type: &Type) -> (found: bool)
    ensures
        found == contains_variant(*field_type),
    decreases field_type,
{
    match field_type {
        Type::Variant(_) => true,
        Type::Primitive(_) => false,
        Type::Struct(s) => {
            let mut i: usize = 0;
            while i < s.fields.len()
                invariant
                    i <= s.fields.len(),
                    decreases_to!(field_type => s.fields),
                    *field_type == Type::Struct(*s),
                    forall|j: int|
                        0 <= j < i ==> !contains_variant(*(#[trigger] s.fields@[j]).field_type),
                decreases s.fields.len() - i,
            {
                if type_contains_variant(&s.fields[i].field_type) {
                    return true;
                }
                i = i + 1;
            }
            false
        },
        Type::List(l) => type_contains_variant(&l.element_field.field_type),
        Type::Mapping(m) => type_contains_variant(&m.key_field.field_type)
            || type_contains_variant(&m.value_field.field_type),
    }
}

/// Each leaf of a field is found in it by its id.
pub proof fn leaves_are_found_in_their_field(field: &NestedField, id: i32)
    ensures
        leaf_ids(*field).contains(id) ==> find_in_field(*field, id) is Some,
    decreases field,
{
    lemma_contains_in_sum(id);
    match *field.field_type {
        Type::Primitive(_) => {},
        Type::Variant(_) => {},
        Type::Struct(s) => leaves_are_found_in_their_fields(s.fields@, id),
        Type::List(l) => leaves_are_found_in_their_field(&l.element_field, id),
        Type::Mapping(m) => {
            leaves_are_found_in_their_field(&m.key_field, id);
            leaves_are_found_in_their_field(&m.value_field, id);
        },
    }
}

/// Each leaf of some fields is found among them by its id.
pub proof fn leaves_are_found_in_their_fields(fields: Seq<Arc<NestedField>>, id: i32)
    ensures
        leaf_ids_of_all(fields).contains(id) ==> find_in_all(fields, id) is Some,
    decreases fields,
{
    lemma_contains_in_sum(id);
    if fields.len() > 0 {
        leaves_are_found_in_their_field(&fields.last(), id);
        leaves_are_found_in_their_fields(fields.drop_last(), id);
    }
}

pub(crate) proof fn lemma_contains_in_sum(id: i32)
    ensures
        forall|first: Seq<i32>, second: Seq<i32>| #[trigger]
            (first + second).contains(id) <==> first.contains(id) || second.contains(id),
{
    assert forall|first: Seq<i32>, second: Seq<i32>| #[trigger]
        (first + second).contains(id) <==> first.contains(id) || second.contains(id) by {
        if (first + second).contains(id) {
            let i = choose|i: int| 0 <= i < (first + second).len() && (first + second)[i] == id;
            if i < first.len() {
                assert(first[i] == id);
            } else {
                assert(second[i - first.len()] == id);
            }
        }
        if first.contains(id) {
            let i = choose|i: int| 0 <= i < first.len() && first[i] == id;
            assert((first + second)[i] == id);
        }
        if second.contains(id) {
            let i = choose|i: int| 0 <= i < second.len() && second[i] == id;
            assert((first + second)[first.len() + i] == id);
        }
    }
}

/// The leaves of a part of a field are found in the field.
proof fn lemma_leaf_of_part(field: &NestedField, part: i32, id: i32)
    ensures
        find_in_field(*field, part) is Some && leaf_ids(
            find_in_field(*field, part)->0,
        ).contains(id) ==> find_in_field(*field, id) is Some,
    decreases field,
{
    leaves_are_found_in_their_field(field, id);
    match *field.field_type {
        Type::Primitive(_) => {},
        Type::Variant(_) => {},
        Type::Struct(s) => lemma_leaf_of_part_of_all(s.fields@, part, id),
        Type::List(l) => lemma_leaf_of_part(&l.element_field, part, id),
        Type::Mapping(m) => {
            lemma_leaf_of_part(&m.key_field, part, id);
            lemma_leaf_of_part(&m.value_field, part, id);
        },
    }
}

proof fn lemma_leaf_of_part_of_all(fields: Seq<Arc<NestedField>>, part: i32, id: i32)
    ensures
        find_in_all(fields, part) is Some && leaf_ids(find_in_all(fields, part)->0).contains(id)
            ==> find_in_all(fields, id) is Some,
    decreases fields,
{
    if fields.len() > 0 {
        lemma_leaf_of_part(&fields.last(), part, id);
        lemma_leaf_of_part_of_all(fields.drop_last(), part, id);
    }
}

/// The leaves of a field of a schema are fields of that schema.
pub proof fn leaves_are_fields(schema: &Schema, part: i32, id: i32)
    requires
        schema.field(part) is Some,
        leaf_ids(schema.field(part)->0).contains(id),
    ensures
        schema.field(id) is Some,
{
    lemma_leaf_of_part_of_all(schema.fields@, part, id);
}

/// The digits of a number hold no comma and no bracket, and begin with none.
proof fn lemma_digits_are_digits(n: nat)
    ensures
        digits(n).len() > 0,
        forall|i: int| 0 <= i < digits(n).len() ==> '0' <= #[trigger] digits(n)[i] <= '9',
    decreases n,
{
    if n >= 10 {
        lemma_digits_are_digits(n / 10);
        assert forall|i: int| 0 <= i < digits(n).len() implies '0' <= #[trigger] digits(n)[i]
            <= '9' by {
            if i < digits(n / 10).len() {
                assert(digits(n)[i] == digits(n / 10)[i]);
            }
        }
    }
}

/// Where two texts that start with digits go on with the same other character, the digits are the
/// same.
proof fn lemma_same_digits(
    first: nat,
    second: nat,
    mark: char,
    first_rest: Seq<char>,
    second_rest: Seq<char>,
)
    requires
        mark < '0',
        digits(first) + seq![mark] + first_rest == digits(second) + seq![mark] + second_rest,
    ensures
        digits(first) == digits(second),
        first_rest == second_rest,
{
    lemma_digits_are_digits(first);
    lemma_digits_are_digits(second);
    let one = digits(first) + seq![mark] + first_rest;
    let other = digits(second) + seq![mark] + second_rest;
    let n = digits(first).len() as int;
    let m = digits(second).len() as int;
    assert(one[n] == mark);
    assert(other[m] == mark);
    if n < m {
        assert(other[n] == digits(second)[n]);
    }
    if m < n {
        assert(one[m] == digits(first)[m]);
    }
    assert(digits(first) =~= one.take(n));
    assert(digits(second) =~= other.take(n));
    assert(first_rest =~= one.skip(n + 1));
    assert(second_rest =~= other.skip(n + 1));
}

/// The length and the first character of how a primitive type reads, but for the types that write
/// numbers.
proof fn lemma_length_and_start(p: PrimitiveType)
    ensures
        ({
            let text = primitive_text(p);
            match p {
                PrimitiveType::Boolean => text.len() == 7,
                PrimitiveType::Int => text.len() == 3,
                PrimitiveType::Long => text.len() == 4 && text[0] == 'l',
                PrimitiveType::Float => text.len() == 5,
                PrimitiveType::Double => text.len() == 6 && text[0] == 'd',
                PrimitiveType::Date => text.len() == 4 && text[0] == 'd',
                PrimitiveType::Time => text.len() == 4 && text[0] == 't',
                PrimitiveType::Timestamp => text.len() == 9 && text[0] == 't',
                PrimitiveType::Timestamptz => text.len() == 11 && text[0] == 't',
                PrimitiveType::TimestampNs => text.len() == 12 && text[0] == 't',
                PrimitiveType::TimestamptzNs => text.len() == 14 && text[0] == 't',
                PrimitiveType::String => text.len() == 6 && text[0] == 's',
                PrimitiveType::Uuid => text.len() == 4 && text[0] == 'u',
                PrimitiveType::Binary => text.len() == 6 && text[0] == 'b',
                _ => true,
            }
        }),
{
    reveal_strlit("boolean");
    reveal_strlit("int");
    reveal_strlit("long");
    reveal_strlit("float");
    reveal_strlit("double");
    reveal_strlit("date");
    reveal_strlit("time");
    reveal_strlit("timestamp");
    reveal_strlit("timestamptz");
    reveal_strlit("timestamp_ns");
    reveal_strlit("timestamptz_ns");
    reveal_strlit("string");
    reveal_strlit("uuid");
    reveal_strlit("binary");
}

/// Different primitive types read differently.
pub proof fn primitive_types_read_differently(a: PrimitiveType, b: PrimitiveType)
    requires
        primitive_text(a) == primitive_text(b),
    ensures
        a == b,
{
    reveal_strlit("float");
    reveal_strlit("decimal(");
    reveal_strlit(",");
    reveal_strlit(")");
    reveal_strlit("fixed(");
    let one = primitive_text(a);
    let other = primitive_text(b);
    assert(one.len() == other.len() && one[0] == other[0] && one[1] == other[1]);
    if let PrimitiveType::Decimal { precision, scale } = a {
        lemma_digits_are_digits(precision as nat);
        assert(one[0] == 'd' && one[1] == 'e' && one[7] == '(');
        if let PrimitiveType::Decimal { precision: digits_b, scale: scale_b } = b {
            let rest = digits(scale as nat) + seq![')'];
            let rest_b = digits(scale_b as nat) + seq![')'];
            assert(one.skip(8) =~= digits(precision as nat) + seq![','] + rest);
            assert(other.skip(8) =~= digits(digits_b as nat) + seq![','] + rest_b);
            lemma_same_digits(precision as nat, digits_b as nat, ',', rest, rest_b);
            assert(rest =~= digits(scale as nat) + seq![')'] + seq![]);
            assert(rest_b =~= digits(scale_b as nat) + seq![')'] + seq![]);
            lemma_same_digits(scale as nat, scale_b as nat, ')', seq![], seq![]);
            lemma_digits_read_back(precision as nat);
            lemma_digits_read_back(digits_b as nat);
            lemma_digits_read_back(scale as nat);
            lemma_digits_read_back(scale_b as nat);
        }
    }
    if let PrimitiveType::Decimal { precision, scale } = b {
        assert(other[0] == 'd' && other[1] == 'e' && other[7] == '(');
    }
    if let PrimitiveType::Fixed(size) = a {
        assert(one[0] == 'f' && one[1] == 'i');
        if let PrimitiveType::Fixed(size_b) = b {
            assert(one.skip(6) =~= digits(size as nat) + seq![')'] + seq![]);
            assert(other.skip(6) =~= digits(size_b as nat) + seq![')'] + seq![]);
            lemma_same_digits(size as nat, size_b as nat, ')', seq![], seq![]);
            lemma_digits_read_back(size as nat);
            lemma_digits_read_back(size_b as nat);
        }
    }
    if let PrimitiveType::Fixed(size) = b {
        assert(other[0] == 'f' && other[1] == 'i');
    }
    lemma_length_and_start(a);
    lemma_length_and_start(b);
}

/// A struct reads by the types of its fields, one after another; a list, a map and a variant read
/// by what they are alone.
pub proof fn types_read_by_their_kind(t: Type)
    ensures
        t matches Type::Primitive(p) ==> type_text(t) == primitive_text(p),
        t matches Type::Struct(s) ==> type_text(t) == "struct<"@ + s.fields@.map_values(
            |field: Arc<NestedField>| type_text(*field.field_type),
        ).flatten() + ">"@,
        t is List ==> type_text(t) == "list"@,
        t is Mapping ==> type_text(t) == "map"@,
        t is Variant ==> type_text(t) == "variant"@,
{
    if let Type::Struct(s) = t {
        lemma_field_types_text(s.fields@);
    }
}

proof fn lemma_field_types_text(fields: Seq<Arc<NestedField>>)
    ensures
        field_types_text(fields) == fields.map_values(
            |field: Arc<NestedField>| type_text(*field.field_type),
        ).flatten(),
    decreases fields.len(),
{
    let all = fields.map_values(|field: Arc<NestedField>| type_text(*field.field_type));
    if fields.len() > 0 {
        let shorter = fields.drop_last();
        let before = shorter.map_values(|field: Arc<NestedField>| type_text(*field.field_type));
        lemma_field_types_text(shorter);
        assert(all =~= before.push(all.last()));
        before.lemma_flatten_push(all.last());
    } else {
        assert(all.flatten() =~= seq![]);
    }
}

} // verus!
