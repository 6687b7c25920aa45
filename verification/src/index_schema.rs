//! What is read of a Tantivy index: the fields of its schema, and the field of a term.

use tantivy::schema::Schema;
use vstd::prelude::*;

verus! {

/// `tantivy::schema::Schema`, of which only the contract below is known.
#[verifier::external_type_specification]
#[verifier::external_body]
pub struct ExSchema(tantivy::schema::Schema);

/// What a schema holds: the number of the field of each name.
pub uninterp spec fn schema_fields(schema: Schema) -> Map<Seq<char>, u32>;

/// The number that the first four bytes stand for, the highest byte first.
pub open spec fn leading_number(bytes: Seq<u8>) -> int {
    bytes[0] as int * 0x100_0000 + bytes[1] as int * 0x1_0000 + bytes[2] as int * 0x100
        + bytes[3] as int
}

/// `Schema::get_field`: the field of that name, where the schema has one.
#[verifier::external_body]
pub(crate) fn field_named(schema: &Schema, name: &str) -> (field: Option<u32>)
    ensures
        field == (if schema_fields(*schema).contains_key(name@) {
            Some(schema_fields(*schema)[name@])
        } else {
            None
        }),
{
    schema.get_field(name).ok().map(|field| field.field_id())
}

/// `Term::field`: a serialised term starts with the number of its field.
#[verifier::external_body]
pub(crate) fn field_of_term(bytes: &Vec<u8>) -> (field: u32)
    requires
        4 <= bytes@.len(),
    ensures
        field == leading_number(bytes@),
{
    tantivy::Term::wrap(bytes.as_slice()).field().field_id()
}

/// The number determines the four bytes that it is read of, and nothing behind them matters.
pub proof fn law_leading_number_digits(bytes: Seq<u8>)
    requires
        4 <= bytes.len(),
    ensures
        0 <= leading_number(bytes) <= u32::MAX,
        leading_number(bytes) / 0x100_0000 == bytes[0],
        leading_number(bytes) / 0x1_0000 % 0x100 == bytes[1],
        leading_number(bytes) / 0x100 % 0x100 == bytes[2],
        leading_number(bytes) % 0x100 == bytes[3],
{
}

} // verus!
