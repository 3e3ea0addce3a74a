//! Tool schemas: names, descriptions, input schemas, and the checks on them and on call
//! arguments.

use vstd::prelude::*;
use crate::error::{AgentCoreError, AgentCoreResult};
use crate::json::{array_view, empty_object, fields_set, keys_sorted, str_at, Json, JsonV};
use crate::text::{char_is_ws, chars_of, dup_string, is_blank, is_ws, owned, str_is_blank};

verus! {

/// The characters a tool name may hold.
pub open spec fn name_char_ok(c: char) -> bool {
    ('a' <= c && c <= 'z') || ('A' <= c && c <= 'Z') || ('0' <= c && c <= '9') || c == '_' || c == '-' || c == '.'
}

/// Why a tool name is refused; `None` when it is accepted.
pub open spec fn tool_name_error(name: Seq<char>) -> Option<Seq<char>> {
    if is_blank(name) {
        Some("tool name must not be empty"@)
    } else if is_ws(name[0]) || is_ws(name.last()) {
        Some("tool name `"@ + name + "` must not contain leading or trailing whitespace"@)
    } else if exists|i: int| 0 <= i < name.len() && !name_char_ok(#[trigger] name[i]) {
        Some("tool name `"@ + name + "` contains unsupported characters"@)
    } else {
        None
    }
}

/// Checks a tool name: not blank, no surrounding whitespace, only ASCII letters, digits,
/// `_`, `-` and `.`.
pub fn validate_tool_name(name: &str) -> (r: AgentCoreResult<()>)
    ensures
        match tool_name_error(name@) {
            Some(t) => r matches Err(AgentCoreError::InvalidConfig(s)) && s@ == t,
            None => r is Ok,
        },
{
    if str_is_blank(name) {
        return Err(AgentCoreError::InvalidConfig(owned("tool name must not be empty")));
    }
    let cs = chars_of(name);
    if char_is_ws(cs[0]) || char_is_ws(cs[cs.len() - 1]) {
        let mut t = owned("tool name `");
        t.append(name);
        t.append("` must not contain leading or trailing whitespace");
        return Err(AgentCoreError::InvalidConfig(t));
    }
    let mut i: usize = 0;
    while i < cs.len()
        invariant
            i <= cs.len(),
            cs@ == name@,
            !is_blank(name@),
            !is_ws(name@[0]) && !is_ws(name@.last()),
            forall|k: int| 0 <= k < i ==> name_char_ok(#[trigger] name@[k]),
        decreases cs.len() - i,
    {
        let c = cs[i];
        let ok = ('a' <= c && c <= 'z') || ('A' <= c && c <= 'Z') || ('0' <= c && c <= '9') || c == '_' || c == '-' || c == '.';
        if !ok {
            assert(!name_char_ok(name@[i as int]));
            let mut t = owned("tool name `");
            t.append(name);
            t.append("` contains unsupported characters");
            return Err(AgentCoreError::InvalidConfig(t));
        }
        i += 1;
    }
    Ok(())
}

/// A tool's schema.
#[derive(Debug, Clone, PartialEq)]
pub struct ToolSchema {
    pub name: String,
    pub description: String,
    pub input_schema: Json,
    pub output_schema: Option<Json>,
    pub annotations: Vec<(String, Json)>,
}

/// The mathematical value of a [`ToolSchema`].
pub struct SchemaV {
    pub name: Seq<char>,
    pub description: Seq<char>,
    pub input: JsonV,
    pub output: Option<JsonV>,
    pub annotations: Seq<(Seq<char>, JsonV)>,
}

impl ToolSchema {
    pub open spec fn view(&self) -> SchemaV {
        SchemaV {
            name: self.name@,
            description: self.description@,
            input: self.input_schema.view(),
            output: match self.output_schema {
                Some(o) => Some(o.view()),
                None => None,
            },
            annotations: crate::json::object_view(self.annotations@),
        }
    }

    pub fn dup(&self) -> (r: ToolSchema)
        ensures
            r@ == self@,
    {
        ToolSchema {
            name: crate::text::dup_string(&self.name),
            description: crate::text::dup_string(&self.description),
            input_schema: crate::json::json_dup(&self.input_schema),
            output_schema: match &self.output_schema {
                Some(o) => Some(crate::json::json_dup(o)),
                None => None,
            },
            annotations: crate::json::dup_fields(&self.annotations),
        }
    }
}

/// Why a schema is refused; `None` when it is accepted.
pub open spec fn schema_error(name: Seq<char>, description: Seq<char>, input: JsonV) -> Option<Seq<char>> {
    if tool_name_error(name) is Some {
        tool_name_error(name)
    } else if is_blank(description) {
        Some("tool `"@ + name + "` description must not be empty"@)
    } else if !(input is Object) {
        Some("tool `"@ + name + "` input schema must be a JSON object"@)
    } else {
        None
    }
}

/// The first string of a `required` list that the arguments lack (other entries are
/// skipped).
pub open spec fn missing_required(list: Seq<JsonV>, args: JsonV) -> Option<Seq<char>>
    decreases list.len(),
{
    if list.len() == 0 {
        None
    } else {
        match list[0] {
            JsonV::Str(name) => if args.get(name) is None {
                Some(name)
            } else {
                missing_required(list.drop_first(), args)
            },
            _ => missing_required(list.drop_first(), args),
        }
    }
}

/// The first required argument missing: `None` when the schema lists none or all are there.
pub open spec fn first_missing_arg(schema: JsonV, args: JsonV) -> Option<Seq<char>> {
    match schema.get("required"@) {
        Some(JsonV::Array(a)) => missing_required(a, args),
        _ => None,
    }
}

/// The function-tool form of a schema, as providers take it.
pub open spec fn function_tool_json(name: Seq<char>, description: Seq<char>, parameters: JsonV) -> JsonV {
    empty_object().with("type"@, JsonV::Str("function"@)).with("name"@, JsonV::Str(name)).with(
        "description"@,
        JsonV::Str(description),
    ).with("parameters"@, parameters)
}

impl ToolSchema {
    /// A checked schema.
    pub fn new(name: &str, description: &str, input_schema: Json) -> (r: AgentCoreResult<ToolSchema>)
        ensures
            match schema_error(name@, description@, input_schema.view()) {
                Some(t) => r matches Err(AgentCoreError::InvalidConfig(s)) && s@ == t,
                None => r matches Ok(s) && s.name@ == name@ && s.description@ == description@ && s.input_schema == input_schema
                    && s.output_schema is None && s.annotations@.len() == 0,
            },
    {
        let schema = ToolSchema {
            name: owned(name),
            description: owned(description),
            input_schema,
            output_schema: None,
            annotations: Vec::new(),
        };
        match schema.validate_metadata() {
            Ok(()) => Ok(schema),
            Err(e) => Err(e),
        }
    }

    /// A schema taking an object with no properties.
    pub fn empty_object(name: &str, description: &str) -> (r: AgentCoreResult<ToolSchema>)
        ensures
            match schema_error(name@, description@, empty_object()) {
                Some(t) => r matches Err(AgentCoreError::InvalidConfig(s)) && s@ == t,
                None => r matches Ok(s) && s.name@ == name@ && s.description@ == description@ && s.input_schema.view()
                    == empty_object().with("type"@, JsonV::Str("object"@)).with("properties"@, empty_object()).with(
                    "additionalProperties"@,
                    JsonV::Bool(false),
                ),
            },
    {
        let mut schema = Json::new_object();
        schema.set("type", Json::str_of("object"));
        schema.set("properties", Json::new_object());
        schema.set("additionalProperties", Json::Bool(false));
        ToolSchema::new(name, description, schema)
    }

    pub fn with_output_schema(self, output_schema: Json) -> (r: ToolSchema)
        ensures
            r == (ToolSchema { output_schema: Some(output_schema), ..self }),
    {
        let mut s = self;
        s.output_schema = Some(output_schema);
        s
    }

    pub fn with_annotation(self, key: &str, value: Json) -> (r: ToolSchema)
        requires
            keys_sorted(crate::json::object_view(self.annotations@)),
        ensures
            crate::json::object_view(r.annotations@) == crate::json::fields_insert(crate::json::object_view(self.annotations@), key@, value.view()),
            r.name == self.name && r.description == self.description && r.input_schema == self.input_schema
                && r.output_schema == self.output_schema,
    {
        let mut s = self;
        fields_set(&mut s.annotations, key, value);
        s
    }

    /// Checks the name, a non-blank description and an object input schema.
    pub fn validate_metadata(&self) -> (r: AgentCoreResult<()>)
        ensures
            match schema_error(self.name@, self.description@, self.input_schema.view()) {
                Some(t) => r matches Err(AgentCoreError::InvalidConfig(s)) && s@ == t,
                None => r is Ok,
            },
    {
        validate_tool_name(self.name.as_str())?;
        if str_is_blank(self.description.as_str()) {
            let mut t = owned("tool `");
            t.append(self.name.as_str());
            t.append("` description must not be empty");
            return Err(AgentCoreError::InvalidConfig(t));
        }
        if !self.input_schema.is_object() {
            let mut t = owned("tool `");
            t.append(self.name.as_str());
            t.append("` input schema must be a JSON object");
            return Err(AgentCoreError::InvalidConfig(t));
        }
        Ok(())
    }

    /// Checks call arguments: an object holding every name the schema's `required` array
    /// lists.
    pub fn validate_arguments(&self, arguments: &Json) -> (r: AgentCoreResult<()>)
        ensures
            !(arguments.view() is Object) ==> (r matches Err(AgentCoreError::InvalidInput(s)) && s@ == "tool `"@ + self.name@
                + "` arguments must be a JSON object"@),
            arguments.view() is Object ==> match first_missing_arg(self.input_schema.view(), arguments.view()) {
                Some(f) => r matches Err(AgentCoreError::InvalidInput(s)) && s@ == "tool `"@ + self.name@ + "` missing required argument `"@
                    + f + "`"@,
                None => r is Ok,
            },
    {
        if !arguments.is_object() {
            let mut t = owned("tool `");
            t.append(self.name.as_str());
            t.append("` arguments must be a JSON object");
            return Err(AgentCoreError::InvalidInput(t));
        }
        let required = match self.input_schema.get("required") {
            Some(v) => v.as_array(),
            None => None,
        };
        match required {
            None => Ok(()),
            Some(list) => {
                let ghost lv = array_view(list@);
                proof {
                    assert(lv.subrange(0, lv.len() as int) =~= lv);
                }
                let mut i: usize = 0;
                while i < list.len()
                    invariant
                        i <= list.len(),
                        lv == array_view(list@),
                        arguments.view() is Object,
                        self.input_schema.view().get("required"@) == Some(JsonV::Array(lv)),
                        missing_required(lv, arguments.view()) == missing_required(lv.subrange(i as int, lv.len() as int), arguments.view()),
                    decreases list.len() - i,
                {
                    let ghost sub = lv.subrange(i as int, lv.len() as int);
                    assert(sub[0] == lv[i as int]);
                    assert(sub.drop_first() =~= lv.subrange(i + 1, lv.len() as int));
                    if let Some(field) = list[i].as_str() {
                        if arguments.get(field).is_none() {
                            let mut t = owned("tool `");
                            t.append(self.name.as_str());
                            t.append("` missing required argument `");
                            t.append(field);
                            t.append("`");
                            return Err(AgentCoreError::InvalidInput(t));
                        }
                    }
                    i += 1;
                }
                proof {
                    assert(lv.subrange(i as int, lv.len() as int).len() == 0);
                }
                Ok(())
            },
        }
    }

    /// The function-tool form of the schema: type, name, description and parameters.
    pub fn to_function_tool_schema(&self) -> (r: Json)
        ensures
            r.view() == function_tool_json(self.name@, self.description@, self.input_schema.view()),
    {
        let mut o = Json::new_object();
        o.set("type", Json::str_of("function"));
        o.set("name", Json::str_of(self.name.as_str()));
        o.set("description", Json::str_of(self.description.as_str()));
        o.set("parameters", self.input_schema.dup());
        o
    }
}

} // verus!
