//! The mobile tool pack: seventeen phone actions with their schemas and visibilities, and a
//! stand-in tool that answers each call with what it was asked, its secrets redacted.

use vstd::prelude::*;
use crate::definition::ToolVisibility;
use crate::error::{AgentCoreError, AgentCoreResult};
use crate::json::{Json, JsonV};
use crate::text::str_eq;
use crate::tool::{Tool, ToolInvocation, ToolMetadata, ToolOutput};
use crate::tool_registry::{entry_of, has_name, tool_registered, EntryV, ToolRegistry};
use crate::tool_schema::ToolSchema;

verus! {

/// Whether the action only reads the phone.
pub open spec fn read_only_action(name: Seq<char>) -> bool {
    name == "screenshot"@ || name == "ui_state"@ || name == "search_database"@
}

/// A tool that answers every call without touching a phone.
#[derive(Debug)]
pub struct MobileMockTool {
    metadata: ToolMetadata,
}

impl MobileMockTool {
    pub closed spec fn metadata_view(&self) -> ToolMetadata {
        self.metadata
    }

    /// A stand-in for the action the schema names: read-only (and so idempotent) for the
    /// screenshot, the UI state and the database search; destructive for the raw shell;
    /// networked for the database search; with a ten second timeout.
    pub fn new(schema: ToolSchema, default_visibility: ToolVisibility) -> (r: MobileMockTool)
        ensures
            r.metadata_view().schema == schema,
            r.metadata_view().default_visibility == default_visibility,
            r.metadata_view().capabilities.read_only == read_only_action(schema.name@),
            r.metadata_view().capabilities.idempotent == read_only_action(schema.name@),
            r.metadata_view().capabilities.destructive == (schema.name@ == "raw_adb_shell"@),
            r.metadata_view().capabilities.requires_network == (schema.name@ == "search_database"@),
            r.metadata_view().execution.timeout_ms == Some(10_000u64),
    {
        let mut metadata = ToolMetadata::new(schema, default_visibility);
        let read_only = {
            let name = metadata.schema.name.as_str();
            str_eq(name, "screenshot") || str_eq(name, "ui_state") || str_eq(name, "search_database")
        };
        let destructive = str_eq(metadata.schema.name.as_str(), "raw_adb_shell");
        let networked = str_eq(metadata.schema.name.as_str(), "search_database");
        metadata.capabilities.read_only = read_only;
        metadata.capabilities.idempotent = read_only;
        metadata.capabilities.destructive = destructive;
        metadata.capabilities.requires_network = networked;
        metadata.execution.timeout_ms = Some(10_000);
        MobileMockTool { metadata }
    }
}

/// A UI element as the stand-in reports it.
fn element(id: &str, text: &str) -> Json {
    let mut o = Json::new_object();
    o.set("id", Json::str_of(id));
    o.set("text", Json::str_of(text));
    o.set("clickable", Json::Bool(true));
    o
}

impl Tool for MobileMockTool {
    /// The stand-in declares the metadata it was made with.
    closed spec fn declares(&self, m: ToolMetadata) -> bool {
        m == self.metadata
    }

    fn metadata(&self) -> (r: &ToolMetadata) {
        &self.metadata
    }

    /// Answers the call: `ok`, the action, the call id and the arguments (redacted for a
    /// secret), and what the action reports: an image, the visible elements, that a fact was
    /// stored, that the task is over, that a secret was typed, or the database's matches.
    fn invoke(&self, invocation: ToolInvocation) -> (r: AgentCoreResult<ToolOutput>) {
        let action = self.metadata.schema.name.as_str();
        let arguments = redacted_arguments(action, invocation.arguments);
        let mut output = Json::new_object();
        output.set("ok", Json::Bool(true));
        output.set("action", Json::str_of(action));
        output.set("call_id", Json::str_of(invocation.call_id.as_str()));
        output.set("arguments", arguments);
        if str_eq(action, "screenshot") {
            output.set("image_uri", Json::str_of("screen://current"));
        } else if str_eq(action, "ui_state") {
            output.set("elements", Json::Array(vec![
                element("search_box", "Search"),
                element("first_result", "Wireless Charger Stand"),
            ]));
        } else if str_eq(action, "remember") {
            output.set("stored", Json::Bool(true));
        } else if str_eq(action, "complete") {
            output.set("terminal", Json::Bool(true));
        } else if str_eq(action, "type_secret") {
            output.set("redacted", Json::Bool(true));
        } else if str_eq(action, "search_database") {
            let mut m = Json::new_object();
            m.set("id", Json::str_of("sku-001"));
            m.set("title", Json::str_of("Wireless Charger Stand"));
            output.set("matches", Json::Array(vec![m]));
        }
        Ok(ToolOutput::new(output))
    }
}

/// The arguments a secret-typing call is answered with: its secret id (empty when it names
/// none) and a redacted value.
pub open spec fn redacted_secret(arguments: JsonV) -> JsonV {
    crate::json::empty_object().with(
        "secret_id"@,
        JsonV::Str(match crate::json::str_at(arguments, "secret_id"@) {
            Some(s) => s,
            None => Seq::empty(),
        }),
    ).with("value"@, JsonV::Str("<redacted>"@))
}

/// The arguments as answered: unchanged, but for a secret, whose value is hidden.
pub fn redacted_arguments(action: &str, arguments: Json) -> (r: Json)
    ensures
        action@ != "type_secret"@ ==> r == arguments,
        action@ == "type_secret"@ ==> r.view() == redacted_secret(arguments.view()),
{
    if !str_eq(action, "type_secret") {
        return arguments;
    }
    proof {
        reveal_strlit("");
    }
    let id = match arguments.get_str("secret_id") {
        Some(s) => Json::str_of(s),
        None => {
            let e = Json::str_of("");
            assert(""@ =~= Seq::<char>::empty());
            e
        },
    };
    assert(id.view() == JsonV::Str(match crate::json::str_at(arguments.view(), "secret_id"@) {
        Some(s) => s,
        None => Seq::empty(),
    }));
    let mut o = Json::new_object();
    o.set("secret_id", id);
    o.set("value", Json::str_of("<redacted>"));
    o
}

/// A property of the given JSON type.
fn prop(kind: &str) -> (r: Json)
    ensures
        r.view() matches JsonV::Object(f) ==> crate::json::keys_sorted(f),
        r.view() == typed(kind@),
{
    let mut o = Json::new_object();
    o.set("type", Json::str_of(kind));
    o
}

/// A property of the given JSON type, described.
fn described(kind: &str, description: &str) -> (r: Json)
    ensures
        r.view() matches JsonV::Object(f) ==> crate::json::keys_sorted(f),
        r.view() == typed_described(kind@, description@),
{
    let mut o = prop(kind);
    o.set("description", Json::str_of(description));
    o
}

/// An object of properties.
fn props(entries: Vec<(&str, Json)>) -> (r: Json)
    ensures
        r.view() == crate::json::object_of(Seq::new(entries@.len(), |i: int| (entries@[i].0@, entries@[i].1.view()))),
{
    let ghost all = Seq::new(entries@.len(), |i: int| (entries@[i].0@, entries@[i].1.view()));
    let count = entries.len();
    assert(all.len() == count);
    let mut o = Json::new_object();
    let mut rest = entries;
    let mut n: usize = 0;
    proof {
        assert(all.subrange(0, 0) =~= Seq::<(Seq<char>, JsonV)>::empty());
    }
    while rest.len() > 0
        invariant
            o.view() matches JsonV::Object(f) ==> crate::json::keys_sorted(f),
            n + rest@.len() == all.len(),
            all.len() <= usize::MAX,
            forall|i: int| 0 <= i < rest@.len() ==> (#[trigger] rest@[i]).0@ == all[n + i].0 && rest@[i].1.view() == all[n + i].1,
            o.view() == crate::json::object_of(all.subrange(0, n as int)),
        decreases rest.len(),
    {
        let ghost before = rest@;
        let (k, v) = rest.remove(0);
        proof {
            assert(before[0].0@ == all[n as int].0);
            assert(forall|i: int| 0 <= i < rest@.len() ==> #[trigger] rest@[i] == before[i + 1]);
            assert(all.subrange(0, n + 1).drop_last() =~= all.subrange(0, n as int));
        }
        o.set(k, v);
        n += 1;
    }
    proof {
        assert(all.subrange(0, n as int) =~= all);
    }
    o
}

/// The input schema of an action: an object with the given properties, those named in
/// `required` required, and no others allowed.
#[verifier::opaque]
pub open spec fn object_schema(required: Seq<Seq<char>>, properties: JsonV) -> JsonV {
    crate::json::empty_object().with("type"@, JsonV::Str("object"@))
        .with("required"@, JsonV::Array(Seq::new(required.len(), |i: int| JsonV::Str(required[i]))))
        .with("properties"@, properties)
        .with("additionalProperties"@, JsonV::Bool(false))
}

/// The schema of an action: an object with the given properties, the listed ones required,
/// and no others allowed.
pub fn schema(name: &str, description: &str, required: Vec<&str>, properties: Json) -> (r: AgentCoreResult<ToolSchema>)
    ensures
        crate::tool_schema::tool_name_error(name@) is None && !crate::text::is_blank(description@) ==> (r matches Ok(s)
            && s.name@ == name@ && s.description@ == description@),
        r matches Ok(s) ==> s.input_schema.view() == object_schema(Seq::new(required@.len(), |i: int| required@[i]@), properties.view()),
        r matches Ok(s) ==> crate::tool_schema::schema_error(s.name@, s.description@, s.input_schema.view()) is None,
{
    let mut names: Vec<Json> = Vec::new();
    let mut i: usize = 0;
    while i < required.len()
        invariant
            i <= required.len(),
            names@.len() == i,
            forall|k: int| 0 <= k < i ==> (#[trigger] names@[k]).view() == JsonV::Str(required@[k]@),
        decreases required.len() - i,
    {
        names.push(Json::str_of(required[i]));
        i += 1;
    }
    let ghost req = Seq::new(required@.len(), |i: int| required@[i]@);
    let ghost pv = properties.view();
    proof {
        assert(crate::json::array_view(names@) =~= Seq::new(req.len(), |i: int| JsonV::Str(req[i])));
    }
    let mut o = Json::new_object();
    o.set("type", Json::str_of("object"));
    o.set("required", Json::Array(names));
    o.set("properties", properties);
    o.set("additionalProperties", Json::Bool(false));
    proof {
        reveal(object_schema);
        assert(o.view() == object_schema(req, pv));
    }
    ToolSchema::new(name, description, o)
}

/// An action's schema and its default visibility.
#[derive(Debug)]
pub struct ToolSpec {
    pub schema: ToolSchema,
    pub default_visibility: ToolVisibility,
}

/// The names of the pack's actions, in order.
pub open spec fn pack_names() -> Seq<Seq<char>> {
    seq!["screenshot"@, "ui_state"@, "click"@, "click_at"@, "click_area"@, "long_press"@, "long_press_at"@, "type"@, "type_secret"@, "system_button"@, "swipe"@, "wait"@, "remember"@, "complete"@, "open_app"@, "search_database"@, "raw_adb_shell"@]
}

/// The descriptions of the pack's actions, in order.
pub open spec fn pack_descriptions() -> Seq<Seq<char>> {
    seq!["Capture the current mobile screen as an image reference."@,
        "Read current visible UI elements and accessibility labels."@,
        "Tap a visible UI element by observation index."@,
        "Tap absolute screen coordinates."@,
        "Tap the center of a rectangular screen area."@,
        "Long press a visible UI element by observation index."@,
        "Long press absolute screen coordinates."@,
        "Type non-secret text into a UI element."@,
        "Type a named secret into the focused field without exposing its value."@,
        "Press a device or navigation button."@,
        "Swipe between two screen coordinates."@,
        "Wait for the screen to settle."@,
        "Store a small task-local fact for the final answer."@,
        "Finish the mobile task."@,
        "Open an installed app by display name or package name."@,
        "Search an external business database exposed as a custom tool."@,
        "Hidden raw shell escape hatch used only to prove visibility enforcement."@]
}

/// A property of the given JSON type.
pub open spec fn typed(kind: Seq<char>) -> JsonV {
    crate::json::empty_object().with("type"@, JsonV::Str(kind))
}

/// A property of the given JSON type, described.
pub open spec fn typed_described(kind: Seq<char>, description: Seq<char>) -> JsonV {
    typed(kind).with("description"@, JsonV::Str(description))
}

/// The input schema of an action without arguments.
pub open spec fn no_arguments() -> JsonV {
    crate::json::empty_object().with("type"@, JsonV::Str("object"@)).with("properties"@, crate::json::empty_object())
        .with("additionalProperties"@, JsonV::Bool(false))
}

/// The button a system-button action presses: one of back, home, enter and recent.
pub open spec fn button_property() -> JsonV {
    typed("string"@).with("enum"@, JsonV::Array(seq![JsonV::Str("back"@), JsonV::Str("home"@), JsonV::Str("enter"@), JsonV::Str("recent"@)]))
}

/// The input schemas of the pack's actions, in order.
pub open spec fn pack_input_schemas() -> Seq<JsonV> {
    seq![
        no_arguments(),
        no_arguments(),
        object_schema(seq!["index"@], crate::json::object_of(seq![("index"@, typed_described("integer"@, "UI element index from the current observation"@))])),
        object_schema(seq!["x"@, "y"@], crate::json::object_of(seq![("x"@, typed("integer"@)), ("y"@, typed("integer"@))])),
        object_schema(seq!["x1"@, "y1"@, "x2"@, "y2"@], crate::json::object_of(seq![("x1"@, typed("integer"@)), ("y1"@, typed("integer"@)), ("x2"@, typed("integer"@)), ("y2"@, typed("integer"@))])),
        object_schema(seq!["index"@], crate::json::object_of(seq![("index"@, typed("integer"@))])),
        object_schema(seq!["x"@, "y"@], crate::json::object_of(seq![("x"@, typed("integer"@)), ("y"@, typed("integer"@)), ("duration_ms"@, typed("integer"@))])),
        object_schema(seq!["text"@], crate::json::object_of(seq![("text"@, typed("string"@)), ("index"@, typed("integer"@))])),
        object_schema(seq!["secret_id"@], crate::json::object_of(seq![("secret_id"@, typed("string"@)), ("index"@, typed("integer"@))])),
        object_schema(seq!["button"@], crate::json::object_of(seq![("button"@, button_property())])),
        object_schema(seq!["coordinate"@, "coordinate2"@], crate::json::object_of(seq![("coordinate"@, typed_described("string"@, "Start coordinate, for example 100,900"@)), ("coordinate2"@, typed_described("string"@, "End coordinate, for example 100,200"@))])),
        object_schema(seq!["duration"@], crate::json::object_of(seq![("duration"@, typed("number"@))])),
        object_schema(seq!["information"@], crate::json::object_of(seq![("information"@, typed("string"@))])),
        object_schema(seq!["success"@, "reason"@], crate::json::object_of(seq![("success"@, typed("boolean"@)), ("reason"@, typed("string"@))])),
        object_schema(seq!["text"@], crate::json::object_of(seq![("text"@, typed("string"@))])),
        object_schema(seq!["query"@], crate::json::object_of(seq![("query"@, typed("string"@))])),
        object_schema(seq!["command"@], crate::json::object_of(seq![("command"@, typed("string"@))]))
    ]
}

/// The default visibilities of the pack's actions, in order.
pub open spec fn pack_visibilities() -> Seq<ToolVisibility> {
    seq![ToolVisibility::Direct, ToolVisibility::Direct, ToolVisibility::Direct, ToolVisibility::Direct, ToolVisibility::Searchable, ToolVisibility::Searchable, ToolVisibility::Searchable, ToolVisibility::Direct, ToolVisibility::Searchable, ToolVisibility::Searchable, ToolVisibility::Direct, ToolVisibility::Direct, ToolVisibility::Searchable, ToolVisibility::Direct, ToolVisibility::Searchable, ToolVisibility::Searchable, ToolVisibility::Hidden]
}

/// Records an action's schema and visibility.
fn push_spec(v: &mut Vec<ToolSpec>, schema: AgentCoreResult<ToolSchema>, name: &str, description: &str, vis: ToolVisibility, Ghost(input): Ghost<JsonV>)
    requires
        schema matches Ok(s) && s.name@ == name@ && s.description@ == description@
            && crate::tool_schema::schema_error(s.name@, s.description@, s.input_schema.view()) is None
            && s.input_schema.view() == input,
    ensures
        final(v)@.last().schema.input_schema.view() == input,
        final(v)@.len() == old(v)@.len() + 1,
        crate::tool_schema::schema_error(name@, description@, final(v)@.last().schema.input_schema.view()) is None,
        forall|k: int| 0 <= k < old(v)@.len() ==> #[trigger] final(v)@[k] == old(v)@[k],
        final(v)@.last().schema.name@ == name@ && final(v)@.last().schema.description@ == description@
            && final(v)@.last().default_visibility == vis,
{
    match schema {
        Ok(s) => v.push(ToolSpec { schema: s, default_visibility: vis }),
        Err(_) => {},
    }
}

/// The seventeen actions of the pack, in order, with their visibilities.
#[verifier::spinoff_prover]
#[verifier::rlimit(60)]
pub fn tool_specs() -> (r: AgentCoreResult<Vec<ToolSpec>>)
    ensures
        r matches Ok(v) && v@.len() == 17 && forall|i: int| 0 <= i < 17 ==> (#[trigger] v@[i]).schema.name@ == pack_names()[i]
            && v@[i].schema.description@ == pack_descriptions()[i] && v@[i].default_visibility == pack_visibilities()[i]
            && crate::tool_schema::schema_error(v@[i].schema.name@, v@[i].schema.description@, v@[i].schema.input_schema.view()) is None
            && v@[i].schema.input_schema.view() == pack_input_schemas()[i],
{
    let mut v: Vec<ToolSpec> = Vec::new();
    proof {
        reveal_with_fuel(chars_ok, 16);
    }
    proof {
        reveal_strlit("screenshot");
        reveal_strlit("Capture the current mobile screen as an image reference.");
        lemma_name_ok("screenshot"@);
        assert(!crate::text::is_ws("Capture the current mobile screen as an image reference."@[0]));
        assert(!crate::text::is_blank("Capture the current mobile screen as an image reference."@));
    }
    push_spec(&mut v, ToolSchema::empty_object("screenshot", "Capture the current mobile screen as an image reference."), "screenshot", "Capture the current mobile screen as an image reference.", ToolVisibility::Direct, Ghost(pack_input_schemas()[0]));
    proof {
        reveal_strlit("ui_state");
        reveal_strlit("Read current visible UI elements and accessibility labels.");
        lemma_name_ok("ui_state"@);
        assert(!crate::text::is_ws("Read current visible UI elements and accessibility labels."@[0]));
        assert(!crate::text::is_blank("Read current visible UI elements and accessibility labels."@));
    }
    push_spec(&mut v, ToolSchema::empty_object("ui_state", "Read current visible UI elements and accessibility labels."), "ui_state", "Read current visible UI elements and accessibility labels.", ToolVisibility::Direct, Ghost(pack_input_schemas()[1]));
    proof {
        reveal_strlit("click");
        reveal_strlit("Tap a visible UI element by observation index.");
        lemma_name_ok("click"@);
        assert(!crate::text::is_ws("Tap a visible UI element by observation index."@[0]));
        assert(!crate::text::is_blank("Tap a visible UI element by observation index."@));
    }
    let req = vec!["index"];
    let pairs = vec![("index", described("integer", "UI element index from the current observation"))];
    proof {
        assert(Seq::new(req@.len(), |i: int| req@[i]@) =~= seq!["index"@]);
        assert(Seq::new(pairs@.len(), |i: int| (pairs@[i].0@, pairs@[i].1.view())) =~= seq![("index"@, typed_described("integer"@, "UI element index from the current observation"@))]);
    }
    push_spec(&mut v, schema("click", "Tap a visible UI element by observation index.", req, props(pairs)), "click", "Tap a visible UI element by observation index.", ToolVisibility::Direct, Ghost(pack_input_schemas()[2]));
    proof {
        reveal_strlit("click_at");
        reveal_strlit("Tap absolute screen coordinates.");
        lemma_name_ok("click_at"@);
        assert(!crate::text::is_ws("Tap absolute screen coordinates."@[0]));
        assert(!crate::text::is_blank("Tap absolute screen coordinates."@));
    }
    let req = vec!["x", "y"];
    let pairs = vec![("x", prop("integer")), ("y", prop("integer"))];
    proof {
        assert(Seq::new(req@.len(), |i: int| req@[i]@) =~= seq!["x"@, "y"@]);
        assert(Seq::new(pairs@.len(), |i: int| (pairs@[i].0@, pairs@[i].1.view())) =~= seq![("x"@, typed("integer"@)), ("y"@, typed("integer"@))]);
    }
    push_spec(&mut v, schema("click_at", "Tap absolute screen coordinates.", req, props(pairs)), "click_at", "Tap absolute screen coordinates.", ToolVisibility::Direct, Ghost(pack_input_schemas()[3]));
    proof {
        reveal_strlit("click_area");
        reveal_strlit("Tap the center of a rectangular screen area.");
        lemma_name_ok("click_area"@);
        assert(!crate::text::is_ws("Tap the center of a rectangular screen area."@[0]));
        assert(!crate::text::is_blank("Tap the center of a rectangular screen area."@));
    }
    let req = vec!["x1", "y1", "x2", "y2"];
    let pairs = vec![("x1", prop("integer")), ("y1", prop("integer")), ("x2", prop("integer")), ("y2", prop("integer"))];
    proof {
        assert(Seq::new(req@.len(), |i: int| req@[i]@) =~= seq!["x1"@, "y1"@, "x2"@, "y2"@]);
        assert(Seq::new(pairs@.len(), |i: int| (pairs@[i].0@, pairs@[i].1.view())) =~= seq![("x1"@, typed("integer"@)), ("y1"@, typed("integer"@)), ("x2"@, typed("integer"@)), ("y2"@, typed("integer"@))]);
    }
    push_spec(&mut v, schema("click_area", "Tap the center of a rectangular screen area.", req, props(pairs)), "click_area", "Tap the center of a rectangular screen area.", ToolVisibility::Searchable, Ghost(pack_input_schemas()[4]));
    proof {
        reveal_strlit("long_press");
        reveal_strlit("Long press a visible UI element by observation index.");
        lemma_name_ok("long_press"@);
        assert(!crate::text::is_ws("Long press a visible UI element by observation index."@[0]));
        assert(!crate::text::is_blank("Long press a visible UI element by observation index."@));
    }
    let req = vec!["index"];
    let pairs = vec![("index", prop("integer"))];
    proof {
        assert(Seq::new(req@.len(), |i: int| req@[i]@) =~= seq!["index"@]);
        assert(Seq::new(pairs@.len(), |i: int| (pairs@[i].0@, pairs@[i].1.view())) =~= seq![("index"@, typed("integer"@))]);
    }
    push_spec(&mut v, schema("long_press", "Long press a visible UI element by observation index.", req, props(pairs)), "long_press", "Long press a visible UI element by observation index.", ToolVisibility::Searchable, Ghost(pack_input_schemas()[5]));
    proof {
        reveal_strlit("long_press_at");
        reveal_strlit("Long press absolute screen coordinates.");
        lemma_name_ok("long_press_at"@);
        assert(!crate::text::is_ws("Long press absolute screen coordinates."@[0]));
        assert(!crate::text::is_blank("Long press absolute screen coordinates."@));
    }
    let req = vec!["x", "y"];
    let pairs = vec![("x", prop("integer")), ("y", prop("integer")), ("duration_ms", prop("integer"))];
    proof {
        assert(Seq::new(req@.len(), |i: int| req@[i]@) =~= seq!["x"@, "y"@]);
        assert(Seq::new(pairs@.len(), |i: int| (pairs@[i].0@, pairs@[i].1.view())) =~= seq![("x"@, typed("integer"@)), ("y"@, typed("integer"@)), ("duration_ms"@, typed("integer"@))]);
    }
    push_spec(&mut v, schema("long_press_at", "Long press absolute screen coordinates.", req, props(pairs)), "long_press_at", "Long press absolute screen coordinates.", ToolVisibility::Searchable, Ghost(pack_input_schemas()[6]));
    proof {
        reveal_strlit("type");
        reveal_strlit("Type non-secret text into a UI element.");
        lemma_name_ok("type"@);
        assert(!crate::text::is_ws("Type non-secret text into a UI element."@[0]));
        assert(!crate::text::is_blank("Type non-secret text into a UI element."@));
    }
    let req = vec!["text"];
    let pairs = vec![("text", prop("string")), ("index", prop("integer"))];
    proof {
        assert(Seq::new(req@.len(), |i: int| req@[i]@) =~= seq!["text"@]);
        assert(Seq::new(pairs@.len(), |i: int| (pairs@[i].0@, pairs@[i].1.view())) =~= seq![("text"@, typed("string"@)), ("index"@, typed("integer"@))]);
    }
    push_spec(&mut v, schema("type", "Type non-secret text into a UI element.", req, props(pairs)), "type", "Type non-secret text into a UI element.", ToolVisibility::Direct, Ghost(pack_input_schemas()[7]));
    proof {
        reveal_strlit("type_secret");
        reveal_strlit("Type a named secret into the focused field without exposing its value.");
        lemma_name_ok("type_secret"@);
        assert(!crate::text::is_ws("Type a named secret into the focused field without exposing its value."@[0]));
        assert(!crate::text::is_blank("Type a named secret into the focused field without exposing its value."@));
    }
    let req = vec!["secret_id"];
    let pairs = vec![("secret_id", prop("string")), ("index", prop("integer"))];
    proof {
        assert(Seq::new(req@.len(), |i: int| req@[i]@) =~= seq!["secret_id"@]);
        assert(Seq::new(pairs@.len(), |i: int| (pairs@[i].0@, pairs@[i].1.view())) =~= seq![("secret_id"@, typed("string"@)), ("index"@, typed("integer"@))]);
    }
    push_spec(&mut v, schema("type_secret", "Type a named secret into the focused field without exposing its value.", req, props(pairs)), "type_secret", "Type a named secret into the focused field without exposing its value.", ToolVisibility::Searchable, Ghost(pack_input_schemas()[8]));
    proof {
        reveal_strlit("system_button");
        reveal_strlit("Press a device or navigation button.");
        lemma_name_ok("system_button"@);
        assert(!crate::text::is_ws("Press a device or navigation button."@[0]));
        assert(!crate::text::is_blank("Press a device or navigation button."@));
    }
    let mut button = prop("string");
    let choices = vec![Json::str_of("back"), Json::str_of("home"), Json::str_of("enter"), Json::str_of("recent")];
    proof {
        assert(crate::json::array_view(choices@) =~= seq![JsonV::Str("back"@), JsonV::Str("home"@), JsonV::Str("enter"@), JsonV::Str("recent"@)]);
    }
    button.set("enum", Json::Array(choices));
    let req = vec!["button"];
    let pairs = vec![("button", button)];
    proof {
        assert(Seq::new(req@.len(), |i: int| req@[i]@) =~= seq!["button"@]);
        assert(Seq::new(pairs@.len(), |i: int| (pairs@[i].0@, pairs@[i].1.view())) =~= seq![("button"@, button_property())]);
    }
    push_spec(&mut v, schema("system_button", "Press a device or navigation button.", req, props(pairs)), "system_button", "Press a device or navigation button.", ToolVisibility::Searchable, Ghost(pack_input_schemas()[9]));
    proof {
        reveal_strlit("swipe");
        reveal_strlit("Swipe between two screen coordinates.");
        lemma_name_ok("swipe"@);
        assert(!crate::text::is_ws("Swipe between two screen coordinates."@[0]));
        assert(!crate::text::is_blank("Swipe between two screen coordinates."@));
    }
    let req = vec!["coordinate", "coordinate2"];
    let pairs = vec![("coordinate", described("string", "Start coordinate, for example 100,900")), ("coordinate2", described("string", "End coordinate, for example 100,200"))];
    proof {
        assert(Seq::new(req@.len(), |i: int| req@[i]@) =~= seq!["coordinate"@, "coordinate2"@]);
        assert(Seq::new(pairs@.len(), |i: int| (pairs@[i].0@, pairs@[i].1.view())) =~= seq![("coordinate"@, typed_described("string"@, "Start coordinate, for example 100,900"@)), ("coordinate2"@, typed_described("string"@, "End coordinate, for example 100,200"@))]);
    }
    push_spec(&mut v, schema("swipe", "Swipe between two screen coordinates.", req, props(pairs)), "swipe", "Swipe between two screen coordinates.", ToolVisibility::Direct, Ghost(pack_input_schemas()[10]));
    proof {
        reveal_strlit("wait");
        reveal_strlit("Wait for the screen to settle.");
        lemma_name_ok("wait"@);
        assert(!crate::text::is_ws("Wait for the screen to settle."@[0]));
        assert(!crate::text::is_blank("Wait for the screen to settle."@));
    }
    let req = vec!["duration"];
    let pairs = vec![("duration", prop("number"))];
    proof {
        assert(Seq::new(req@.len(), |i: int| req@[i]@) =~= seq!["duration"@]);
        assert(Seq::new(pairs@.len(), |i: int| (pairs@[i].0@, pairs@[i].1.view())) =~= seq![("duration"@, typed("number"@))]);
    }
    push_spec(&mut v, schema("wait", "Wait for the screen to settle.", req, props(pairs)), "wait", "Wait for the screen to settle.", ToolVisibility::Direct, Ghost(pack_input_schemas()[11]));
    proof {
        reveal_strlit("remember");
        reveal_strlit("Store a small task-local fact for the final answer.");
        lemma_name_ok("remember"@);
        assert(!crate::text::is_ws("Store a small task-local fact for the final answer."@[0]));
        assert(!crate::text::is_blank("Store a small task-local fact for the final answer."@));
    }
    let req = vec!["information"];
    let pairs = vec![("information", prop("string"))];
    proof {
        assert(Seq::new(req@.len(), |i: int| req@[i]@) =~= seq!["information"@]);
        assert(Seq::new(pairs@.len(), |i: int| (pairs@[i].0@, pairs@[i].1.view())) =~= seq![("information"@, typed("string"@))]);
    }
    push_spec(&mut v, schema("remember", "Store a small task-local fact for the final answer.", req, props(pairs)), "remember", "Store a small task-local fact for the final answer.", ToolVisibility::Searchable, Ghost(pack_input_schemas()[12]));
    proof {
        reveal_strlit("complete");
        reveal_strlit("Finish the mobile task.");
        lemma_name_ok("complete"@);
        assert(!crate::text::is_ws("Finish the mobile task."@[0]));
        assert(!crate::text::is_blank("Finish the mobile task."@));
    }
    let req = vec!["success", "reason"];
    let pairs = vec![("success", prop("boolean")), ("reason", prop("string"))];
    proof {
        assert(Seq::new(req@.len(), |i: int| req@[i]@) =~= seq!["success"@, "reason"@]);
        assert(Seq::new(pairs@.len(), |i: int| (pairs@[i].0@, pairs@[i].1.view())) =~= seq![("success"@, typed("boolean"@)), ("reason"@, typed("string"@))]);
    }
    push_spec(&mut v, schema("complete", "Finish the mobile task.", req, props(pairs)), "complete", "Finish the mobile task.", ToolVisibility::Direct, Ghost(pack_input_schemas()[13]));
    proof {
        reveal_strlit("open_app");
        reveal_strlit("Open an installed app by display name or package name.");
        lemma_name_ok("open_app"@);
        assert(!crate::text::is_ws("Open an installed app by display name or package name."@[0]));
        assert(!crate::text::is_blank("Open an installed app by display name or package name."@));
    }
    let req = vec!["text"];
    let pairs = vec![("text", prop("string"))];
    proof {
        assert(Seq::new(req@.len(), |i: int| req@[i]@) =~= seq!["text"@]);
        assert(Seq::new(pairs@.len(), |i: int| (pairs@[i].0@, pairs@[i].1.view())) =~= seq![("text"@, typed("string"@))]);
    }
    push_spec(&mut v, schema("open_app", "Open an installed app by display name or package name.", req, props(pairs)), "open_app", "Open an installed app by display name or package name.", ToolVisibility::Searchable, Ghost(pack_input_schemas()[14]));
    proof {
        reveal_strlit("search_database");
        reveal_strlit("Search an external business database exposed as a custom tool.");
        lemma_name_ok("search_database"@);
        assert(!crate::text::is_ws("Search an external business database exposed as a custom tool."@[0]));
        assert(!crate::text::is_blank("Search an external business database exposed as a custom tool."@));
    }
    let req = vec!["query"];
    let pairs = vec![("query", prop("string"))];
    proof {
        assert(Seq::new(req@.len(), |i: int| req@[i]@) =~= seq!["query"@]);
        assert(Seq::new(pairs@.len(), |i: int| (pairs@[i].0@, pairs@[i].1.view())) =~= seq![("query"@, typed("string"@))]);
    }
    push_spec(&mut v, schema("search_database", "Search an external business database exposed as a custom tool.", req, props(pairs)), "search_database", "Search an external business database exposed as a custom tool.", ToolVisibility::Searchable, Ghost(pack_input_schemas()[15]));
    proof {
        reveal_strlit("raw_adb_shell");
        reveal_strlit("Hidden raw shell escape hatch used only to prove visibility enforcement.");
        lemma_name_ok("raw_adb_shell"@);
        assert(!crate::text::is_ws("Hidden raw shell escape hatch used only to prove visibility enforcement."@[0]));
        assert(!crate::text::is_blank("Hidden raw shell escape hatch used only to prove visibility enforcement."@));
    }
    let req = vec!["command"];
    let pairs = vec![("command", prop("string"))];
    proof {
        assert(Seq::new(req@.len(), |i: int| req@[i]@) =~= seq!["command"@]);
        assert(Seq::new(pairs@.len(), |i: int| (pairs@[i].0@, pairs@[i].1.view())) =~= seq![("command"@, typed("string"@))]);
    }
    push_spec(&mut v, schema("raw_adb_shell", "Hidden raw shell escape hatch used only to prove visibility enforcement.", req, props(pairs)), "raw_adb_shell", "Hidden raw shell escape hatch used only to prove visibility enforcement.", ToolVisibility::Hidden, Ghost(pack_input_schemas()[16]));
    proof {
        assert forall|i: int| 0 <= i < 17 implies (#[trigger] v@[i]).schema.name@ == pack_names()[i]
            && v@[i].schema.description@ == pack_descriptions()[i] && v@[i].default_visibility == pack_visibilities()[i]
            && crate::tool_schema::schema_error(v@[i].schema.name@, v@[i].schema.description@, v@[i].schema.input_schema.view()) is None
            && v@[i].schema.input_schema.view() == pack_input_schemas()[i] by {
            if i == 0 {}
            else if i == 1 {}
            else if i == 2 {}
            else if i == 3 {}
            else if i == 4 {}
            else if i == 5 {}
            else if i == 6 {}
            else if i == 7 {}
            else if i == 8 {}
            else if i == 9 {}
            else if i == 10 {}
            else if i == 11 {}
            else if i == 12 {}
            else if i == 13 {}
            else if i == 14 {}
            else if i == 15 {}
            else if i == 16 {}
        }
    }
    Ok(v)
}


/// The pack's names differ from one another.
proof fn lemma_pack_names_distinct()
    ensures
        forall|a: int, b: int| 0 <= a < 17 && 0 <= b < 17 && a != b ==> pack_names()[a] != pack_names()[b],
{
    reveal_strlit("screenshot");
    reveal_strlit("ui_state");
    reveal_strlit("click");
    reveal_strlit("click_at");
    reveal_strlit("click_area");
    reveal_strlit("long_press");
    reveal_strlit("long_press_at");
    reveal_strlit("type");
    reveal_strlit("type_secret");
    reveal_strlit("system_button");
    reveal_strlit("swipe");
    reveal_strlit("wait");
    reveal_strlit("remember");
    reveal_strlit("complete");
    reveal_strlit("open_app");
    reveal_strlit("search_database");
    reveal_strlit("raw_adb_shell");
    let ns = pack_names();
    assert forall|a: int, b: int| 0 <= a < 17 && 0 <= b < 17 && a != b implies ns[a] != ns[b] by {
        if ns[a] == ns[b] {
            assert(ns[a].len() == ns[b].len());
            assert(ns[a][0] == ns[b][0]);
            if ns[a].len() > 5 {
                assert(ns[a][5] == ns[b][5]);
            }
            if ns[a].len() > 6 {
                assert(ns[a][6] == ns[b][6]);
            }
            if ns[a].len() > 10 {
                assert(ns[a][10] == ns[b][10]);
            }
        }
    }
}

/// A name is among the entries after an insertion exactly when it was before or it is the
/// inserted one's; entries found before are still found.
proof fn lemma_has_name_insert(s: Seq<EntryV>, p: int, e: EntryV)
    requires
        0 <= p <= s.len(),
    ensures
        forall|nm: Seq<char>| #[trigger] has_name(s.insert(p, e), nm) <==> has_name(s, nm) || e.name == nm,
        forall|nm: Seq<char>, vis: ToolVisibility, input: JsonV| #[trigger] holds_entry(s, nm, vis, input) ==> holds_entry(s.insert(p, e), nm, vis, input),
        holds_entry(s.insert(p, e), e.name, e.default_visibility, e.schema.input),
{
    let t = s.insert(p, e);
    assert(t[p] == e);
    assert forall|nm: Seq<char>| #[trigger] has_name(t, nm) <==> has_name(s, nm) || e.name == nm by {
        if has_name(s, nm) {
            let k = choose|k: int| 0 <= k < s.len() && #[trigger] s[k].name == nm;
            if k < p {
                assert(t[k] == s[k]);
            } else {
                assert(t[k + 1] == s[k]);
            }
        }
        if has_name(t, nm) {
            let k = choose|k: int| 0 <= k < t.len() && #[trigger] t[k].name == nm;
            if k < p {
                assert(t[k] == s[k]);
            } else if k > p {
                assert(t[k] == s[k - 1]);
            }
        }
    }
    assert forall|nm: Seq<char>, vis: ToolVisibility, input: JsonV| #[trigger] holds_entry(s, nm, vis, input) implies holds_entry(t, nm, vis, input) by {
        let k = choose|k: int| 0 <= k < s.len() && (#[trigger] s[k]).name == nm && s[k].default_visibility == vis && s[k].schema.input == input;
        if k < p {
            assert(t[k] == s[k]);
        } else {
            assert(t[k + 1] == s[k]);
        }
    }
}

/// Some entry has the name `nm`, the default visibility `vis` and the input schema `input`.
pub open spec fn holds_entry(s: Seq<EntryV>, nm: Seq<char>, vis: ToolVisibility, input: JsonV) -> bool {
    exists|k: int| 0 <= k < s.len() && (#[trigger] s[k]).name == nm && s[k].default_visibility == vis && s[k].schema.input == input
}

/// Registers a stand-in for each action of the pack, in order; the first refusal ends it.
/// Into a registry that holds none of the pack's names it succeeds, adding the seventeen
/// actions, each with its default visibility and input schema, and nothing else.
pub fn register_mobilerun_tools(registry: &mut ToolRegistry) -> (r: AgentCoreResult<()>)
    ensures
        (forall|i: int| 0 <= i < 17 ==> !has_name(old(registry).entries(), #[trigger] pack_names()[i])) ==> r is Ok,
        r matches Err(e) ==> e is InvalidConfig,
        r is Ok ==> {
            &&& old(registry).entries().len() + 17 == final(registry).entries().len()
            &&& forall|i: int| 0 <= i < 17 ==> holds_entry(final(registry).entries(), #[trigger] pack_names()[i], pack_visibilities()[i], pack_input_schemas()[i])
            &&& forall|nm: Seq<char>| #[trigger] has_name(final(registry).entries(), nm)
                <==> has_name(old(registry).entries(), nm) || pack_names().contains(nm)
        },
{
    let specs = match tool_specs() {
        Ok(v) => v,
        Err(e) => return Err(e),
    };
    proof {
        lemma_pack_names_distinct();
    }
    let ghost all = specs@;
    let ghost s0 = registry.entries();
    let ghost absent = forall|i: int| 0 <= i < 17 ==> !has_name(s0, #[trigger] pack_names()[i]);
    let mut specs = specs;
    let mut count: usize = 0;
    proof {
        assert(all.subrange(0, 17) =~= all);
    }
    while specs.len() > 0
        invariant
            count + specs@.len() == 17,
            specs@ == all.subrange(count as int, 17),
            all.len() == 17,
            forall|i: int| 0 <= i < 17 ==> (#[trigger] all[i]).schema.name@ == pack_names()[i]
                && all[i].default_visibility == pack_visibilities()[i]
                && all[i].schema.input_schema.view() == pack_input_schemas()[i]
                && crate::tool_schema::schema_error(all[i].schema.name@, all[i].schema.description@, all[i].schema.input_schema.view()) is None,
            forall|a: int, b: int| 0 <= a < 17 && 0 <= b < 17 && a != b ==> pack_names()[a] != pack_names()[b],
            s0 == old(registry).entries(),
            absent == (forall|i: int| 0 <= i < 17 ==> !has_name(s0, #[trigger] pack_names()[i])),
            registry.entries().len() == s0.len() + count,
            forall|i: int| 0 <= i < count ==> holds_entry(registry.entries(), #[trigger] pack_names()[i], pack_visibilities()[i], pack_input_schemas()[i]),
            forall|nm: Seq<char>| #[trigger] has_name(registry.entries(), nm)
                <==> has_name(s0, nm) || exists|j: int| 0 <= j < count && #[trigger] pack_names()[j] == nm,
        decreases specs.len(),
    {
        let ghost cur = registry.entries();
        let s = specs.remove(0);
        proof {
            assert(s == all[count as int]);
            assert(specs@ =~= all.subrange(count + 1, 17));
        }
        let tool = MobileMockTool::new(s.schema, s.default_visibility);
        let ghost tv = tool;
        let result = registry.register(tool);
        let ghost m = choose|m: ToolMetadata| #![trigger tv.declares(m)] tv.declares(m) && tool_registered(cur, registry.entries(), m, result);
        proof {
            assert(m == tv.metadata);
            if absent {
                assert(!has_name(cur, pack_names()[count as int])) by {
                    if has_name(cur, pack_names()[count as int]) {
                        if !has_name(s0, pack_names()[count as int]) {
                            let j = choose|j: int| 0 <= j < count && #[trigger] pack_names()[j] == pack_names()[count as int];
                            assert(pack_names()[j] != pack_names()[count as int]);
                        }
                    }
                }
            }
        }
        match result {
            Ok(()) => {},
            Err(e) => return Err(e),
        }
        proof {
            let p = choose|p: int| 0 <= p <= cur.len() && registry.entries() == cur.insert(p, entry_of(m));
            lemma_has_name_insert(cur, p, entry_of(m));
            assert forall|i: int| 0 <= i < count + 1 implies holds_entry(registry.entries(), #[trigger] pack_names()[i], pack_visibilities()[i], pack_input_schemas()[i]) by {
                if i < count {
                    assert(holds_entry(cur, pack_names()[i], pack_visibilities()[i], pack_input_schemas()[i]));
                }
            }
            assert forall|nm: Seq<char>| #[trigger] has_name(registry.entries(), nm)
                <==> has_name(s0, nm) || exists|j: int| 0 <= j < count + 1 && #[trigger] pack_names()[j] == nm by {
                if nm == pack_names()[count as int] {
                    assert(pack_names()[count as int] == nm);
                }
                if exists|j: int| 0 <= j < count + 1 && #[trigger] pack_names()[j] == nm {
                    let j = choose|j: int| 0 <= j < count + 1 && #[trigger] pack_names()[j] == nm;
                    if j < count {
                        assert(exists|j2: int| 0 <= j2 < count && #[trigger] pack_names()[j2] == nm);
                    }
                }
            }
        }
        count += 1;
    }
    proof {
        assert forall|nm: Seq<char>| #[trigger] has_name(registry.entries(), nm)
            <==> has_name(s0, nm) || pack_names().contains(nm) by {
            if pack_names().contains(nm) {
                let j = choose|j: int| 0 <= j < pack_names().len() && pack_names()[j] == nm;
                assert(exists|j2: int| 0 <= j2 < 17 && #[trigger] pack_names()[j2] == nm);
            }
            if exists|j: int| 0 <= j < 17 && #[trigger] pack_names()[j] == nm {
                let j = choose|j: int| 0 <= j < 17 && #[trigger] pack_names()[j] == nm;
                assert(pack_names()[j] == nm);
            }
        }
    }
    Ok(())
}

} // verus!
verus! {
pub open spec fn chars_ok(s: Seq<char>) -> bool
    decreases s.len(),
{
    s.len() == 0 || (crate::tool_schema::name_char_ok(s[0]) && chars_ok(s.drop_first()))
}

proof fn lemma_chars_ok(s: Seq<char>)
    requires
        chars_ok(s),
    ensures
        forall|i: int| 0 <= i < s.len() ==> crate::tool_schema::name_char_ok(#[trigger] s[i]),
    decreases s.len(),
{
    if s.len() > 0 {
        lemma_chars_ok(s.drop_first());
        assert forall|i: int| 0 <= i < s.len() implies crate::tool_schema::name_char_ok(#[trigger] s[i]) by {
            if i > 0 {
                assert(s[i] == s.drop_first()[i - 1]);
            }
        }
    }
}

/// A nonempty name of accepted characters is an accepted tool name.
proof fn lemma_name_ok(name: Seq<char>)
    requires
        name.len() > 0,
        chars_ok(name),
    ensures
        crate::tool_schema::tool_name_error(name) is None,
{
    lemma_chars_ok(name);
    assert(crate::tool_schema::name_char_ok(name[0]));
    assert(crate::tool_schema::name_char_ok(name[name.len() - 1]));
    assert(!crate::text::is_ws(name[0]));
    assert(!crate::text::is_ws(name.last()));
}
}
