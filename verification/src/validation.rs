//! Input validation: tool call inputs are checked against the input schema
//! of their tool before they reach the policy engine and the executor.

use vstd::prelude::*;
use crate::json::{JsonValue, member_keys};
use crate::search::lemma_first_index_of;
use crate::text::{chars_of, str_eq};

verus! {

/// Why a tool call was refused by the validator.
#[derive(Debug, Clone)]
pub enum ValidationError {
    ToolNotFound(String),
    InvalidInput { tool_id: String, message: String },
    MissingField { tool_id: String, field: String },
}

impl ValidationError {
    /// The text that describes the error.
    pub open spec fn spec_describe(self) -> Seq<char> {
        match self {
            ValidationError::ToolNotFound(id) => "Tool '"@ + id@ + "' not found in registry"@,
            ValidationError::InvalidInput { tool_id, message } => "Invalid input for tool '"@
                + tool_id@ + "': "@ + message@,
            ValidationError::MissingField { tool_id, field } => "Missing required field '"@
                + field@ + "' for tool '"@ + tool_id@ + "'"@,
        }
    }

    /// The text that describes the error.
    pub fn describe(&self) -> (text: String)
        ensures
            text@ == self.spec_describe(),
    {
        match self {
            ValidationError::ToolNotFound(id) => {
                let mut t = String::from_str("Tool '");
                t.append(id.as_str());
                t.append("' not found in registry");
                t
            },
            ValidationError::InvalidInput { tool_id, message } => {
                let mut t = String::from_str("Invalid input for tool '");
                t.append(tool_id.as_str());
                t.append("': ");
                t.append(message.as_str());
                t
            },
            ValidationError::MissingField { tool_id, field } => {
                let mut t = String::from_str("Missing required field '");
                t.append(field.as_str());
                t.append("' for tool '");
                t.append(tool_id.as_str());
                t.append("'");
                t
            },
        }
    }
}

/// The entries of the `required` array of a schema (none if the schema has
/// no such array).
pub open spec fn required_fields(schema: JsonValue) -> Seq<JsonValue> {
    match schema.spec_get("required"@) {
        Some(JsonValue::Array(fields)) => fields@,
        _ => Seq::empty(),
    }
}

/// `field` names a member that `input` lacks. Entries of the `required` array
/// that are not strings name nothing.
pub open spec fn is_missing(input: JsonValue, field: JsonValue) -> bool {
    match field {
        JsonValue::Str(name) => input.spec_get(name@) is None,
        _ => false,
    }
}

/// The index of the first required field that `input` lacks, or -1.
pub open spec fn first_missing(input: JsonValue, fields: Seq<JsonValue>) -> int
    decreases fields.len(),
{
    if fields.len() == 0 {
        -1
    } else {
        let i = first_missing(input, fields.drop_last());
        if i >= 0 {
            i
        } else if is_missing(input, fields.last()) {
            fields.len() - 1
        } else {
            -1
        }
    }
}

/// The name in a string entry.
pub open spec fn field_name(field: JsonValue) -> Seq<char> {
    match field {
        JsonValue::Str(name) => name@,
        _ => Seq::empty(),
    }
}

/// The type that the schema's `properties` declare for the member `name`: the
/// string under `properties.<name>.type`, if there is one.
pub open spec fn declared_type(schema: JsonValue, name: Seq<char>) -> Option<Seq<char>> {
    match schema.spec_get("properties"@) {
        Some(props) => match props.spec_get(name) {
            Some(prop) => match prop.spec_get("type"@) {
                Some(JsonValue::Str(t)) => Some(t@),
                _ => None,
            },
            None => None,
        },
        None => None,
    }
}

pub open spec fn is_ascii_digit(c: char) -> bool {
    '0' <= c && c <= '9'
}

/// Number text without a fraction or an exponent: an optional minus sign
/// followed by one or more digits.
pub open spec fn is_integer_text(s: Seq<char>) -> bool {
    let start: int = if s.len() > 0 && s[0] == '-' {
        1
    } else {
        0
    };
    start < s.len() && forall|i: int| start <= i < s.len() ==> is_ascii_digit(#[trigger] s[i])
}

/// `v` is of the JSON Schema type named `t`. A type name that JSON Schema does
/// not define constrains nothing.
pub open spec fn has_json_type(v: JsonValue, t: Seq<char>) -> bool {
    if t == "object"@ {
        v is Object
    } else if t == "array"@ {
        v is Array
    } else if t == "string"@ {
        v is Str
    } else if t == "boolean"@ {
        v is Bool
    } else if t == "null"@ {
        v is Null
    } else if t == "number"@ {
        v is Number
    } else if t == "integer"@ {
        v matches JsonValue::Number(n) && is_integer_text(n@)
    } else {
        true
    }
}

/// The member's value is not of the type that the schema declares for it.
pub open spec fn breaks_declared_type(schema: JsonValue, member: (String, JsonValue)) -> bool {
    match declared_type(schema, member.0@) {
        Some(t) => !has_json_type(member.1, t),
        None => false,
    }
}

/// The index of the first member that breaks its declared type, or -1.
pub open spec fn first_type_error(schema: JsonValue, members: Seq<(String, JsonValue)>) -> int
    decreases members.len(),
{
    if members.len() == 0 {
        -1
    } else {
        let i = first_type_error(schema, members.drop_last());
        if i >= 0 {
            i
        } else if breaks_declared_type(schema, members.last()) {
            members.len() - 1
        } else {
            -1
        }
    }
}

/// The members of an object (none for any other value).
pub open spec fn object_members(v: JsonValue) -> Seq<(String, JsonValue)> {
    match v {
        JsonValue::Object(members) => members@,
        _ => Seq::empty(),
    }
}

/// The message for a member `name` whose value is not of type `t`.
pub open spec fn type_error_message(name: Seq<char>, t: Seq<char>) -> Seq<char> {
    "Field '"@ + name + "' must be of type "@ + t
}

/// Validates tool call inputs against their tools' schemas.
pub struct InputValidator;

impl InputValidator {
    pub fn new() -> (v: Self) {
        InputValidator
    }

    /// Validate a tool call input against the tool's JSON schema: the input
    /// must be an object, must have every member that the schema's `required`
    /// array names, and each member whose type the schema's `properties`
    /// declare must be of that type. The first failing check decides the error.
    pub fn validate(&self, tool_id: &str, input: &JsonValue, schema: &JsonValue) -> (r: Result<
        (),
        ValidationError,
    >)
        ensures
            !(*input is Object) ==> (r matches Err(
                ValidationError::InvalidInput { tool_id: t, message: m },
            ) && t@ == tool_id@ && m@ == "Input must be a JSON object"@),
            *input is Object && first_missing(*input, required_fields(*schema)) >= 0 ==> (r matches Err(
                ValidationError::MissingField { tool_id: t, field: f },
            ) && t@ == tool_id@ && f@ == field_name(
                required_fields(*schema)[first_missing(*input, required_fields(*schema))],
            )),
            *input is Object && first_missing(*input, required_fields(*schema)) < 0
                && first_type_error(*schema, object_members(*input)) < 0 ==> r is Ok,
            *input is Object && first_missing(*input, required_fields(*schema)) < 0
                && first_type_error(*schema, object_members(*input)) >= 0 ==> ({
                let name = object_members(*input)[first_type_error(
                    *schema,
                    object_members(*input),
                )].0@;
                r matches Err(ValidationError::InvalidInput { tool_id: t, message: m }) && t@
                    == tool_id@ && m@ == type_error_message(name, declared_type(*schema, name)->0)
            }),
    {
        if !input.is_object() {
            return Err(
                ValidationError::InvalidInput {
                    tool_id: String::from_str(tool_id),
                    message: String::from_str("Input must be a JSON object"),
                },
            );
        }
        match check_required(tool_id, input, schema) {
            Err(e) => Err(e),
            Ok(()) => check_property_types(tool_id, input, schema),
        }
    }
}

/// Checks that `input` has every member that the schema's `required` array
/// names.
fn check_required(tool_id: &str, input: &JsonValue, schema: &JsonValue) -> (r: Result<
    (),
    ValidationError,
>)
    ensures
        first_missing(*input, required_fields(*schema)) < 0 ==> r is Ok,
        first_missing(*input, required_fields(*schema)) >= 0 ==> (r matches Err(
            ValidationError::MissingField { tool_id: t, field: f },
        ) && t@ == tool_id@ && f@ == field_name(
            required_fields(*schema)[first_missing(*input, required_fields(*schema))],
        )),
{
    let required = schema.get("required");
    match required {
        Some(JsonValue::Array(fields)) => {
            let ghost req = fields@;
            assert(required_fields(*schema) == req);
            let mut i: usize = 0;
            while i < fields.len()
                invariant
                    required_fields(*schema) == req,
                    req == fields@,
                    i <= fields.len(),
                    first_missing(*input, req.subrange(0, i as int)) < 0,
                decreases fields.len() - i,
            {
                assert(req.subrange(0, i + 1).drop_last() =~= req.subrange(0, i as int));
                match &fields[i] {
                    JsonValue::Str(name) => {
                        if input.get(name.as_str()).is_none() {
                            proof {
                                lemma_first_missing_prefix(*input, req, i + 1);
                            }
                            return Err(
                                ValidationError::MissingField {
                                    tool_id: String::from_str(tool_id),
                                    field: String::from_str(name.as_str()),
                                },
                            );
                        }
                    },
                    _ => {},
                }
                i = i + 1;
            }
            assert(req.subrange(0, fields.len() as int) =~= req);
            Ok(())
        },
        _ => {
            assert(required_fields(*schema) =~= Seq::<JsonValue>::empty());
            Ok(())
        },
    }
}

/// Checks each member of the object `input` against the type that the
/// schema's `properties` declare for it.
fn check_property_types(tool_id: &str, input: &JsonValue, schema: &JsonValue) -> (r: Result<
    (),
    ValidationError,
>)
    ensures
        first_type_error(*schema, object_members(*input)) < 0 ==> r is Ok,
        first_type_error(*schema, object_members(*input)) >= 0 ==> ({
            let name = object_members(*input)[first_type_error(*schema, object_members(*input))].0@;
            r matches Err(ValidationError::InvalidInput { tool_id: t, message: m }) && t@
                == tool_id@ && m@ == type_error_message(name, declared_type(*schema, name)->0)
        }),
{
    match input {
        JsonValue::Object(members) => {
            let ghost ms = members@;
            let mut i: usize = 0;
            while i < members.len()
                invariant
                    ms == members@,
                    object_members(*input) == ms,
                    i <= members.len(),
                    first_type_error(*schema, ms.subrange(0, i as int)) < 0,
                decreases members.len() - i,
            {
                assert(ms.subrange(0, i + 1).drop_last() =~= ms.subrange(0, i as int));
                let name = &members[i].0;
                match declared_type_of(schema, name.as_str()) {
                    Some(t) => {
                        if !has_json_type_exec(&members[i].1, t.as_str()) {
                            proof {
                                lemma_first_type_error_prefix(*schema, ms, i + 1);
                            }
                            let mut message = String::from_str("Field '");
                            message.append(name.as_str());
                            message.append("' must be of type ");
                            message.append(t.as_str());
                            return Err(
                                ValidationError::InvalidInput {
                                    tool_id: String::from_str(tool_id),
                                    message,
                                },
                            );
                        }
                    },
                    None => {},
                }
                i = i + 1;
            }
            assert(ms.subrange(0, members.len() as int) =~= ms);
            Ok(())
        },
        _ => Ok(()),
    }
}

/// The type that the schema declares for the member `name`.
fn declared_type_of<'a>(schema: &'a JsonValue, name: &str) -> (r: Option<&'a String>)
    ensures
        match r {
            Some(t) => declared_type(*schema, name@) == Some(t@),
            None => declared_type(*schema, name@) is None,
        },
{
    match schema.get("properties") {
        Some(props) => match props.get(name) {
            Some(prop) => match prop.get("type") {
                Some(JsonValue::Str(t)) => Some(t),
                _ => None,
            },
            None => None,
        },
        None => None,
    }
}

/// Whether the text is an integer: an optional minus sign, then digits.
fn is_integer_text_exec(s: &str) -> (r: bool)
    ensures
        r == is_integer_text(s@),
{
    let cs = chars_of(s);
    let start: usize = if cs.len() > 0 && cs[0] == '-' {
        1
    } else {
        0
    };
    if start >= cs.len() {
        return false;
    }
    let mut i: usize = start;
    while i < cs.len()
        invariant
            cs@ == s@,
            start <= i <= cs.len(),
            start == (if s@.len() > 0 && s@[0] == '-' { 1int } else { 0int }),
            forall|j: int| start <= j < i ==> is_ascii_digit(#[trigger] s@[j]),
        decreases cs.len() - i,
    {
        let c = cs[i];
        if !('0' <= c && c <= '9') {
            assert(!is_ascii_digit(s@[i as int]));
            return false;
        }
        i = i + 1;
    }
    true
}

/// Whether `v` is of the JSON Schema type named `t`.
fn has_json_type_exec(v: &JsonValue, t: &str) -> (r: bool)
    ensures
        r == has_json_type(*v, t@),
{
    if str_eq(t, "object") {
        v.is_object()
    } else if str_eq(t, "array") {
        match v {
            JsonValue::Array(_) => true,
            _ => false,
        }
    } else if str_eq(t, "string") {
        match v {
            JsonValue::Str(_) => true,
            _ => false,
        }
    } else if str_eq(t, "boolean") {
        match v {
            JsonValue::Bool(_) => true,
            _ => false,
        }
    } else if str_eq(t, "null") {
        match v {
            JsonValue::Null => true,
            _ => false,
        }
    } else if str_eq(t, "number") {
        match v {
            JsonValue::Number(_) => true,
            _ => false,
        }
    } else if str_eq(t, "integer") {
        match v {
            JsonValue::Number(n) => is_integer_text_exec(n.as_str()),
            _ => false,
        }
    } else {
        true
    }
}

/// Once a prefix holds a member of the wrong type, the whole sequence has the
/// same first such member.
proof fn lemma_first_type_error_prefix(
    schema: JsonValue,
    members: Seq<(String, JsonValue)>,
    k: int,
)
    requires
        0 <= k <= members.len(),
        first_type_error(schema, members.subrange(0, k)) >= 0,
    ensures
        first_type_error(schema, members) == first_type_error(schema, members.subrange(0, k)),
    decreases members.len() - k,
{
    if k < members.len() {
        assert(members.subrange(0, k + 1).drop_last() =~= members.subrange(0, k));
        lemma_first_type_error_prefix(schema, members, k + 1);
    } else {
        assert(members.subrange(0, k) =~= members);
    }
}

/// Once a prefix holds a missing field, the whole sequence has the same first
/// missing field.
proof fn lemma_first_missing_prefix(input: JsonValue, fields: Seq<JsonValue>, k: int)
    requires
        0 <= k <= fields.len(),
        first_missing(input, fields.subrange(0, k)) >= 0,
    ensures
        first_missing(input, fields) == first_missing(input, fields.subrange(0, k)),
    decreases fields.len() - k,
{
    if k < fields.len() {
        assert(fields.subrange(0, k + 1).drop_last() =~= fields.subrange(0, k));
        lemma_first_missing_prefix(input, fields, k + 1);
    } else {
        assert(fields.subrange(0, k) =~= fields);
    }
}

} // verus!

verus! {

/// The validator's rule: an object input passes exactly when every string
/// entry of the schema's `required` array names one of its members.
pub proof fn law_valid_iff_required_present(input: JsonValue, fields: Seq<JsonValue>)
    ensures
        (first_missing(input, fields) < 0) == (forall|i: int|
            0 <= i < fields.len() ==> !is_missing(input, #[trigger] fields[i])),
        first_missing(input, fields) >= 0 ==> {
            let k = first_missing(input, fields);
            &&& k < fields.len()
            &&& is_missing(input, fields[k])
            &&& forall|i: int| 0 <= i < k ==> !is_missing(input, #[trigger] fields[i])
        },
    decreases fields.len(),
{
    if fields.len() > 0 {
        let d = fields.drop_last();
        law_valid_iff_required_present(input, d);
        assert forall|i: int| 0 <= i < d.len() implies #[trigger] d[i] == fields[i] by {}
        if first_missing(input, fields) < 0 {
            assert forall|i: int| 0 <= i < fields.len() implies !is_missing(
                input,
                #[trigger] fields[i],
            ) by {
                if i < d.len() {
                    assert(d[i] == fields[i]);
                }
            }
        } else {
            let k = first_missing(input, fields);
            if first_missing(input, d) >= 0 {
                assert(d[k] == fields[k]);
                assert forall|i: int| 0 <= i < k implies !is_missing(input, #[trigger] fields[i]) by {
                    assert(d[i] == fields[i]);
                }
            } else {
                assert forall|i: int| 0 <= i < k implies !is_missing(input, #[trigger] fields[i]) by {
                    assert(d[i] == fields[i]);
                }
            }
        }
    }
}

} // verus!

verus! {

/// The type rule: an object input passes the type check exactly when none of
/// its members breaks the type that the schema declares for it, and a failure
/// names the first member that does.
pub proof fn law_types_checked_member_by_member(schema: JsonValue, members: Seq<(String, JsonValue)>)
    ensures
        (first_type_error(schema, members) < 0) == (forall|i: int|
            0 <= i < members.len() ==> !breaks_declared_type(schema, #[trigger] members[i])),
        first_type_error(schema, members) >= 0 ==> {
            let k = first_type_error(schema, members);
            &&& k < members.len()
            &&& breaks_declared_type(schema, members[k])
            &&& forall|i: int| 0 <= i < k ==> !breaks_declared_type(schema, #[trigger] members[i])
        },
    decreases members.len(),
{
    if members.len() > 0 {
        let d = members.drop_last();
        law_types_checked_member_by_member(schema, d);
        assert forall|i: int| 0 <= i < d.len() implies #[trigger] d[i] == members[i] by {}
        if first_type_error(schema, members) < 0 {
            assert forall|i: int| 0 <= i < members.len() implies !breaks_declared_type(
                schema,
                #[trigger] members[i],
            ) by {
                if i < d.len() {
                    assert(d[i] == members[i]);
                }
            }
        } else {
            let k = first_type_error(schema, members);
            if first_type_error(schema, d) >= 0 {
                assert(d[k] == members[k]);
            }
            assert forall|i: int| 0 <= i < k implies !breaks_declared_type(
                schema,
                #[trigger] members[i],
            ) by {
                assert(d[i] == members[i]);
            }
        }
    }
}

} // verus!

verus! {

/// A required field counts as missing exactly when the input object has no
/// member of that name, whatever the values of its members (`null` included):
/// an object holding a member for every string in `required` passes the
/// required check, and one lacking a member for some string there fails it.
pub proof fn law_required_means_member_present(input: JsonValue, fields: Seq<JsonValue>)
    requires
        input is Object,
    ensures
        (forall|i: int|
            0 <= i < fields.len() && (#[trigger] fields[i]) is Str ==> exists|j: int|
                0 <= j < input->Object_0@.len() && input->Object_0@[j].0@ == fields[i]->Str_0@)
            ==> first_missing(input, fields) < 0,
        (exists|i: int|
            0 <= i < fields.len() && (#[trigger] fields[i]) is Str && forall|j: int|
                0 <= j < input->Object_0@.len() ==> input->Object_0@[j].0@ != fields[i]->Str_0@)
            ==> first_missing(input, fields) >= 0,
{
    let m = input->Object_0@;
    let keys = member_keys(m);
    law_valid_iff_required_present(input, fields);
    assert forall|i: int| 0 <= i < fields.len() && (#[trigger] fields[i]) is Str implies (
    is_missing(input, fields[i]) <==> !(exists|j: int|
        0 <= j < m.len() && m[j].0@ == fields[i]->Str_0@)) by {
        let name = fields[i]->Str_0@;
        lemma_first_index_of(keys, name);
        if exists|j: int| 0 <= j < m.len() && m[j].0@ == name {
            let j = choose|j: int| 0 <= j < m.len() && m[j].0@ == name;
            assert(keys[j] == name);
        }
        if keys.contains(name) {
            let j = choose|j: int| 0 <= j < keys.len() && keys[j] == name;
            assert(m[j].0@ == name);
        }
    }
}

} // verus!
