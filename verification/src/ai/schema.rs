//! The closed Draft 2020-12 schema of the only provider response the host
//! accepts. There is no action, command, path, SQL, tool-call, risk or
//! confidence field.

use vstd::prelude::*;

verus! {

pub const OUTPUT_SCHEMA_ID: &'static str = "dataforge.ai-suggestions/0.7.0";

/// The schema document, in canonical JSON (keys sorted, no white space).
pub const OUTPUT_SCHEMA_TEXT: &'static str = "{\"$id\":\"dataforge.ai-suggestions/0.7.0\",\"$schema\":\"https://json-schema.org/draft/2020-12/schema\",\"additionalProperties\":false,\"properties\":{\"automatic_action\":{\"const\":false},\"explanation\":{\"maxLength\":4096,\"minLength\":1,\"type\":\"string\"},\"schema_version\":{\"const\":\"dataforge.ai-suggestions/0.7.0\"},\"suggestions\":{\"items\":{\"additionalProperties\":false,\"properties\":{\"evidence_ids\":{\"items\":{\"pattern\":\"^[A-Za-z0-9][A-Za-z0-9_.:-]{0,127}$\",\"type\":\"string\"},\"maxItems\":16,\"minItems\":1,\"type\":\"array\",\"uniqueItems\":true},\"explanation\":{\"maxLength\":4096,\"minLength\":1,\"type\":\"string\"},\"id\":{\"pattern\":\"^[A-Z][A-Z0-9_]{0,63}$\",\"type\":\"string\"},\"label\":{\"pattern\":\"^[A-Za-z0-9][A-Za-z0-9 _.-]{0,127}$\",\"type\":\"string\"}},\"required\":[\"id\",\"label\",\"explanation\",\"evidence_ids\"],\"type\":\"object\"},\"maxItems\":32,\"type\":\"array\"}},\"required\":[\"schema_version\",\"automatic_action\",\"explanation\",\"suggestions\"],\"type\":\"object\"}";

/// The output schema, as canonical JSON text.
pub fn output_schema() -> (schema: String)
    ensures
        schema@ == OUTPUT_SCHEMA_TEXT@,
{
    crate::text::copy_str(OUTPUT_SCHEMA_TEXT)
}

} // verus!
