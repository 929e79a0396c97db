//! The schemas written by hand rather than derived: the formatted values
//! (durations, sizes) and the fields that take either a compact string or a
//! spelled-out object. Each is the JSON value a schema generator files under
//! the type's name in `definitions`; the predicates below say exactly what
//! each one holds.

use vstd::prelude::*;

use crate::schema::{entry_index, is_string_form, is_text, kept_forms, shorthand_dropped, Json};

verus! {

// ---------------------------------------------------------------------
// Reading a schema value
// ---------------------------------------------------------------------

/// The value of the `i`th entry of the object `v`.
pub open spec fn value_at(v: Json, i: int) -> Json {
    v->Object_0@[i].1
}

/// Whether `v` is an object whose entries have the keys `keys`, in order.
pub open spec fn keyed(v: Json, keys: Seq<Seq<char>>) -> bool {
    &&& v is Object
    &&& v->Object_0@.len() == keys.len()
    &&& forall|i: int| 0 <= i < keys.len() ==> #[trigger] v->Object_0@[i].0@ == keys[i]
}

/// Whether `v` is an array of the texts `items`, in order.
pub open spec fn texts(v: Json, items: Seq<Seq<char>>) -> bool {
    &&& v is Array
    &&& v->Array_0@.len() == items.len()
    &&& forall|i: int| 0 <= i < items.len() ==> is_text(#[trigger] v->Array_0@[i], items[i])
}

/// Whether `v` is the number written `digits`.
pub open spec fn is_number(v: Json, digits: Seq<char>) -> bool {
    v matches Json::Number(n) && n@ == digits
}

/// Whether `p` is `{"type": ty, "description": description}`.
pub open spec fn typed(p: Json, ty: Seq<char>, description: Seq<char>) -> bool {
    &&& keyed(p, seq!["type"@, "description"@])
    &&& is_text(value_at(p, 0), ty)
    &&& is_text(value_at(p, 1), description)
}

/// Whether `p` is `{"const": value, "description": description}`: the tag
/// that tells one object form from another.
pub open spec fn constant(p: Json, value: Seq<char>, description: Seq<char>) -> bool {
    &&& keyed(p, seq!["const"@, "description"@])
    &&& is_text(value_at(p, 0), value)
    &&& is_text(value_at(p, 1), description)
}

/// Whether `v` is `{"oneOf": [...]}` with `n` forms.
pub open spec fn one_of(v: Json, n: int) -> bool {
    &&& keyed(v, seq!["oneOf"@])
    &&& value_at(v, 0) is Array
    &&& value_at(v, 0)->Array_0@.len() == n
}

/// The `i`th form of a `oneOf`.
pub open spec fn form(v: Json, i: int) -> Json {
    value_at(v, 0)->Array_0@[i]
}

/// Whether `f` is a closed object form: of type `object`, with the
/// properties `properties` (in order), the required keys `required`, and no
/// other property allowed.
pub open spec fn object_form(f: Json, properties: Seq<Seq<char>>, required: Seq<Seq<char>>) -> bool {
    &&& keyed(f, seq!["type"@, "properties"@, "required"@, "additionalProperties"@])
    &&& is_text(value_at(f, 0), "object"@)
    &&& keyed(value_at(f, 1), properties)
    &&& texts(value_at(f, 2), required)
    &&& value_at(f, 3) == Json::Bool(false)
}

/// The schema of the `i`th property of an object form.
pub open spec fn property(f: Json, i: int) -> Json {
    value_at(value_at(f, 1), i)
}

/// Whether `f` is a string form with a description and examples.
pub open spec fn string_form(f: Json, description: Seq<char>, examples: Seq<Seq<char>>) -> bool {
    &&& keyed(f, seq!["type"@, "description"@, "examples"@])
    &&& is_text(value_at(f, 0), "string"@)
    &&& is_text(value_at(f, 1), description)
    &&& texts(value_at(f, 2), examples)
}

/// Whether `f` is a string form that also gives the `pattern` it must match.
pub open spec fn pattern_form(
    f: Json,
    pattern: Seq<char>,
    description: Seq<char>,
    examples: Seq<Seq<char>>,
) -> bool {
    &&& keyed(f, seq!["type"@, "pattern"@, "description"@, "examples"@])
    &&& is_text(value_at(f, 0), "string"@)
    &&& is_text(value_at(f, 1), pattern)
    &&& is_text(value_at(f, 2), description)
    &&& texts(value_at(f, 3), examples)
}

// ---------------------------------------------------------------------
// Building one
// ---------------------------------------------------------------------

/// The JSON text `s`.
fn text(s: &str) -> (v: Json)
    ensures
        is_text(v, s@),
{
    Json::Text(s.to_string())
}

/// The JSON number written `digits`.
fn number(digits: &str) -> (v: Json)
    ensures
        is_number(v, digits@),
{
    Json::Number(digits.to_string())
}

/// An object entry.
fn entry(key: &str, value: Json) -> (e: (String, Json))
    ensures
        e.0@ == key@,
        e.1 == value,
{
    (key.to_string(), value)
}

/// An array of one text.
fn texts1(a: &str) -> (v: Json)
    ensures
        texts(v, seq![a@]),
{
    let mut items: Vec<Json> = Vec::new();
    items.push(text(a));
    Json::Array(items)
}

/// An array of two texts.
fn texts2(a: &str, b: &str) -> (v: Json)
    ensures
        texts(v, seq![a@, b@]),
{
    let mut items: Vec<Json> = Vec::new();
    items.push(text(a));
    items.push(text(b));
    Json::Array(items)
}

/// An array of three texts.
fn texts3(a: &str, b: &str, c: &str) -> (v: Json)
    ensures
        texts(v, seq![a@, b@, c@]),
{
    let mut items: Vec<Json> = Vec::new();
    items.push(text(a));
    items.push(text(b));
    items.push(text(c));
    Json::Array(items)
}

/// An array of four texts.
fn texts4(a: &str, b: &str, c: &str, d: &str) -> (v: Json)
    ensures
        texts(v, seq![a@, b@, c@, d@]),
{
    let mut items: Vec<Json> = Vec::new();
    items.push(text(a));
    items.push(text(b));
    items.push(text(c));
    items.push(text(d));
    Json::Array(items)
}

/// `{"type": ty, "description": description}`.
fn typed_value(ty: &str, description: &str) -> (p: Json)
    ensures
        typed(p, ty@, description@),
{
    let mut entries: Vec<(String, Json)> = Vec::new();
    entries.push(entry("type", text(ty)));
    entries.push(entry("description", text(description)));
    Json::Object(entries)
}

/// `{"const": value, "description": description}`.
fn constant_value(value: &str, description: &str) -> (p: Json)
    ensures
        constant(p, value@, description@),
{
    let mut entries: Vec<(String, Json)> = Vec::new();
    entries.push(entry("const", text(value)));
    entries.push(entry("description", text(description)));
    Json::Object(entries)
}

/// `{"oneOf": forms}`.
fn one_of_value(forms: Vec<Json>) -> (v: Json)
    ensures
        keyed(v, seq!["oneOf"@]),
        value_at(v, 0) == Json::Array(forms),
{
    let mut entries: Vec<(String, Json)> = Vec::new();
    entries.push(entry("oneOf", Json::Array(forms)));
    Json::Object(entries)
}

/// A closed object form with the given properties and required keys.
fn object_form_value(properties: Vec<(String, Json)>, required: Json) -> (f: Json)
    ensures
        keyed(f, seq!["type"@, "properties"@, "required"@, "additionalProperties"@]),
        is_text(value_at(f, 0), "object"@),
        value_at(f, 1) == Json::Object(properties),
        value_at(f, 2) == required,
        value_at(f, 3) == Json::Bool(false),
{
    let mut entries: Vec<(String, Json)> = Vec::new();
    entries.push(entry("type", text("object")));
    entries.push(entry("properties", Json::Object(properties)));
    entries.push(entry("required", required));
    entries.push(entry("additionalProperties", Json::Bool(false)));
    Json::Object(entries)
}

/// A string form with a description and examples.
fn string_form_value(description: &str, examples: Json) -> (f: Json)
    ensures
        keyed(f, seq!["type"@, "description"@, "examples"@]),
        is_text(value_at(f, 0), "string"@),
        is_text(value_at(f, 1), description@),
        value_at(f, 2) == examples,
{
    let mut entries: Vec<(String, Json)> = Vec::new();
    entries.push(entry("type", text("string")));
    entries.push(entry("description", text(description)));
    entries.push(entry("examples", examples));
    Json::Object(entries)
}

/// A string form with its pattern, a description and examples.
fn pattern_form_value(pattern: &str, description: &str, examples: Json) -> (f: Json)
    ensures
        keyed(f, seq!["type"@, "pattern"@, "description"@, "examples"@]),
        is_text(value_at(f, 0), "string"@),
        is_text(value_at(f, 1), pattern@),
        is_text(value_at(f, 2), description@),
        value_at(f, 3) == examples,
{
    let mut entries: Vec<(String, Json)> = Vec::new();
    entries.push(entry("type", text("string")));
    entries.push(entry("pattern", text(pattern)));
    entries.push(entry("description", text(description)));
    entries.push(entry("examples", examples));
    Json::Object(entries)
}

// ---------------------------------------------------------------------
// Durations and sizes
// ---------------------------------------------------------------------

/// The grammar of a duration: Go-style `<number><unit>` components, or a
/// bare `0`.
pub const DURATION_PATTERN: &'static str = "^\\+?(0|([0-9]*\\.?[0-9]+(ns|us|µs|μs|ms|s|m|h))+)$";

/// What a duration's schema says of it.
pub const DURATION: &'static str = "A duration, in Batect's Go-style format: one or more <number><unit> components, where a unit is one of ns, us (or µs/μs), ms, s, m, h — for example \"500ms\", \"2s\", \"1m30s\", \"1.5h\". A bare \"0\" is also accepted. Must not be negative.";

/// Whether `s` is the schema of a duration (a health check's `interval`,
/// `start_period` or `timeout`): a string matching the same grammar the
/// configuration parser enforces, no stricter.
pub open spec fn is_duration_schema(s: Json) -> bool {
    pattern_form(s, DURATION_PATTERN@, DURATION@, seq!["2s"@, "1m30s"@, "500ms"@, "0"@])
}

/// The schema of a duration.
pub fn duration_schema() -> (schema: Json)
    ensures
        is_duration_schema(schema),
{
    pattern_form_value(DURATION_PATTERN, DURATION, texts4("2s", "1m30s", "500ms", "0"))
}

/// What the string form of a size says of it.
pub const SIZE_STRING: &'static str = "A size, as a number optionally suffixed with a unit: b (bytes, the default), k, m or g — for example \"128m\".";

/// What the number form of a size says of it.
pub const SIZE_BYTES: &'static str = "A size in bytes.";

/// Whether `s` is the schema of a size (`shm_size`): a string with an
/// optional unit, or a plain number of bytes.
pub open spec fn is_byte_size_schema(s: Json) -> bool {
    &&& one_of(s, 2)
    &&& pattern_form(form(s, 0), "^[0-9]+[bkmgBKMG]?$"@, SIZE_STRING@, seq!["128m"@, "1g"@, "512k"@])
    &&& keyed(form(s, 1), seq!["type"@, "minimum"@, "description"@])
    &&& is_text(value_at(form(s, 1), 0), "integer"@)
    &&& is_number(value_at(form(s, 1), 1), "0"@)
    &&& is_text(value_at(form(s, 1), 2), SIZE_BYTES@)
}

/// The schema of a size.
pub fn byte_size_schema() -> (schema: Json)
    ensures
        is_byte_size_schema(schema),
{
    let string = pattern_form_value("^[0-9]+[bkmgBKMG]?$", SIZE_STRING, texts3("128m", "1g", "512k"));
    let mut bytes: Vec<(String, Json)> = Vec::new();
    bytes.push(entry("type", text("integer")));
    bytes.push(entry("minimum", number("0")));
    bytes.push(entry("description", text(SIZE_BYTES)));
    let mut forms: Vec<Json> = Vec::new();
    forms.push(string);
    forms.push(Json::Object(bytes));
    one_of_value(forms)
}

/// The shared shape of the fields Batect accepts either as a compact string
/// or as a spelled-out object: a `oneOf` of the two schemas.
pub fn string_or_object(string: Json, object: Json) -> (schema: Json)
    ensures
        keyed(schema, seq!["oneOf"@]),
        value_at(schema, 0) matches Json::Array(forms) && forms@ == seq![string, object],
{
    let mut forms: Vec<Json> = Vec::new();
    forms.push(string);
    forms.push(object);
    one_of_value(forms)
}

// ---------------------------------------------------------------------
// Ports
// ---------------------------------------------------------------------

/// What a port range's number form says of it.
pub const SINGLE_PORT: &'static str = "A single port.";

/// What a port range's string form says of it.
pub const PORT_RANGE: &'static str = "A single port (\"8080\") or an inclusive range of consecutive ports (\"1000-1010\", given in ascending order).";

/// Whether `s` is the schema of a port range: a port number from 1 to
/// 65535, or a string naming one port or an ascending range.
pub open spec fn is_port_range_schema(s: Json) -> bool {
    &&& one_of(s, 2)
    &&& keyed(form(s, 0), seq!["type"@, "minimum"@, "maximum"@, "description"@])
    &&& is_text(value_at(form(s, 0), 0), "integer"@)
    &&& is_number(value_at(form(s, 0), 1), "1"@)
    &&& is_number(value_at(form(s, 0), 2), "65535"@)
    &&& is_text(value_at(form(s, 0), 3), SINGLE_PORT@)
    &&& keyed(form(s, 1), seq!["type"@, "pattern"@, "description"@])
    &&& is_text(value_at(form(s, 1), 0), "string"@)
    &&& is_text(value_at(form(s, 1), 1), "^[0-9]+(-[0-9]+)?$"@)
    &&& is_text(value_at(form(s, 1), 2), PORT_RANGE@)
}

/// The schema of a port range.
pub fn port_range_schema() -> (schema: Json)
    ensures
        is_port_range_schema(schema),
{
    let mut single: Vec<(String, Json)> = Vec::new();
    single.push(entry("type", text("integer")));
    single.push(entry("minimum", number("1")));
    single.push(entry("maximum", number("65535")));
    single.push(entry("description", text(SINGLE_PORT)));
    let mut range: Vec<(String, Json)> = Vec::new();
    range.push(entry("type", text("string")));
    range.push(entry("pattern", text("^[0-9]+(-[0-9]+)?$")));
    range.push(entry("description", text(PORT_RANGE)));
    let mut forms: Vec<Json> = Vec::new();
    forms.push(Json::Object(single));
    forms.push(Json::Object(range));
    one_of_value(forms)
}

/// Whether `r` refers to the port range's definition, as a draft-07
/// schema does: `{"$ref": "#/definitions/PortRange"}`.
pub open spec fn is_port_range_reference(r: Json) -> bool {
    &&& keyed(r, seq!["$ref"@])
    &&& is_text(value_at(r, 0), "#/definitions/PortRange"@)
}

/// A reference to the port range's definition.
fn port_range_reference() -> (r: Json)
    ensures
        is_port_range_reference(r),
{
    let mut entries: Vec<(String, Json)> = Vec::new();
    entries.push(entry("$ref", text("#/definitions/PortRange")));
    Json::Object(entries)
}

/// The grammar of a port mapping's string form.
pub const PORT_MAPPING_PATTERN: &'static str = "^[0-9]+(-[0-9]+)?:[0-9]+(-[0-9]+)?(/[a-zA-Z]+)?$";

/// What a port mapping's string form says of it.
pub const PORT_MAPPING: &'static str = "A port mapping, as \"local:container\", with optional ranges and protocol: \"local:container\", \"from-to:from-to\", \"local:container/protocol\". The protocol defaults to tcp.";

/// What a port mapping's `protocol` says of it.
pub const PROTOCOL: &'static str = "The protocol to map. Defaults to tcp.";

/// Whether `s` is the schema of a port mapping: the string
/// `local:container[/protocol]`, or an object whose `local` and `container`
/// are port ranges (by reference) and whose `protocol` is optional.
pub open spec fn is_port_mapping_schema(s: Json) -> bool {
    &&& one_of(s, 2)
    &&& pattern_form(
        form(s, 0),
        PORT_MAPPING_PATTERN@,
        PORT_MAPPING@,
        seq!["8080:80"@, "1000-1010:2000-2010"@, "8080:80/tcp"@],
    )
    &&& object_form(form(s, 1), seq!["local"@, "container"@, "protocol"@], seq!["local"@, "container"@])
    &&& is_port_range_reference(property(form(s, 1), 0))
    &&& is_port_range_reference(property(form(s, 1), 1))
    &&& typed(property(form(s, 1), 2), "string"@, PROTOCOL@)
}

/// The schema of a port mapping.
pub fn port_mapping_schema() -> (schema: Json)
    ensures
        is_port_mapping_schema(schema),
{
    let string = pattern_form_value(
        PORT_MAPPING_PATTERN,
        PORT_MAPPING,
        texts3("8080:80", "1000-1010:2000-2010", "8080:80/tcp"),
    );
    let mut properties: Vec<(String, Json)> = Vec::new();
    properties.push(entry("local", port_range_reference()));
    properties.push(entry("container", port_range_reference()));
    properties.push(entry("protocol", typed_value("string", PROTOCOL)));
    let object = object_form_value(properties, texts2("local", "container"));
    string_or_object(string, object)
}

// ---------------------------------------------------------------------
// Devices
// ---------------------------------------------------------------------

/// What a device mount's string form says of it.
pub const DEVICE_STRING: &'static str = "A device mount, as \"local_path:container_path\" or \"local_path:container_path:options\", where options is Docker's cgroup permissions string.";

/// What a device mount's `local` says of it.
pub const DEVICE_LOCAL: &'static str = "The path to the device on the host.";

/// What a device mount's `container` says of it.
pub const DEVICE_CONTAINER: &'static str = "The path the device is available at inside the container.";

/// What a device mount's `options` says of it.
pub const DEVICE_OPTIONS: &'static str = "Docker's cgroup permissions string (for example \"rwm\"). Docker's own default applies when omitted.";

/// Whether `s` is the schema of a device mount: the string
/// `local:container[:options]`, or the same three as an object.
pub open spec fn is_device_mount_schema(s: Json) -> bool {
    &&& one_of(s, 2)
    &&& string_form(form(s, 0), DEVICE_STRING@, seq!["/dev/kvm:/dev/kvm"@, "/dev/sda:/dev/xvda:rwm"@])
    &&& object_form(form(s, 1), seq!["local"@, "container"@, "options"@], seq!["local"@, "container"@])
    &&& typed(property(form(s, 1), 0), "string"@, DEVICE_LOCAL@)
    &&& typed(property(form(s, 1), 1), "string"@, DEVICE_CONTAINER@)
    &&& typed(property(form(s, 1), 2), "string"@, DEVICE_OPTIONS@)
}

/// The schema of a device mount.
pub fn device_mount_schema() -> (schema: Json)
    ensures
        is_device_mount_schema(schema),
{
    let string = string_form_value(DEVICE_STRING, texts2("/dev/kvm:/dev/kvm", "/dev/sda:/dev/xvda:rwm"));
    let mut properties: Vec<(String, Json)> = Vec::new();
    properties.push(entry("local", typed_value("string", DEVICE_LOCAL)));
    properties.push(entry("container", typed_value("string", DEVICE_CONTAINER)));
    properties.push(entry("options", typed_value("string", DEVICE_OPTIONS)));
    let object = object_form_value(properties, texts2("local", "container"));
    string_or_object(string, object)
}

// ---------------------------------------------------------------------
// Volumes
// ---------------------------------------------------------------------

/// What a volume's string form says of it.
pub const VOLUME_STRING: &'static str = "A host path bind-mounted into the container, as \"local_path:container_path\" or \"local_path:container_path:options\". Only local mounts have this compact form — cache and tmpfs mounts must use the object form.";

/// What a local mount's tag says of it.
pub const LOCAL_MOUNT: &'static str = "A host path bind-mounted into the container. The default when 'type' is omitted.";

/// What a local mount's `local` says of it.
pub const HOST_PATH: &'static str = "The path on the host, resolved relative to the directory of the file declaring it. Supports expressions.";

/// What a mount's `container` says of it.
pub const CONTAINER_PATH: &'static str = "The path inside the container.";

/// What a local or cache mount's `options` says of it.
pub const MOUNT_OPTIONS: &'static str = "Docker mount options (for example \"ro\").";

/// What a cache mount's tag says of it.
pub const CACHE_MOUNT: &'static str = "A cache that persists between ratect invocations — a Docker volume by default, or a directory under .batect/caches with --cache-type=directory.";

/// What a cache mount's `name` says of it.
pub const CACHE_NAME: &'static str = "The cache's name, unique within this project.";

/// What a tmpfs mount's tag says of it.
pub const TMPFS_MOUNT: &'static str = "An in-memory filesystem, lost when the container exits.";

/// What a tmpfs mount's `options` says of it.
pub const TMPFS_OPTIONS: &'static str = "tmpfs options, forwarded to Docker verbatim (for example \"size=64m,mode=1770\").";

/// Whether `s` is the schema of a volume mount: a local mount as a string,
/// or one of three object forms told apart by `type` (`local`, the
/// default; `cache`; `tmpfs`).
pub open spec fn is_volume_mount_schema(s: Json) -> bool {
    &&& one_of(s, 4)
    &&& string_form(form(s, 0), VOLUME_STRING@, seq![".:/code"@, "./data:/data:ro"@])
    &&& object_form(form(s, 1), seq!["type"@, "local"@, "container"@, "options"@], seq!["local"@, "container"@])
    &&& constant(property(form(s, 1), 0), "local"@, LOCAL_MOUNT@)
    &&& typed(property(form(s, 1), 1), "string"@, HOST_PATH@)
    &&& typed(property(form(s, 1), 2), "string"@, CONTAINER_PATH@)
    &&& typed(property(form(s, 1), 3), "string"@, MOUNT_OPTIONS@)
    &&& object_form(
        form(s, 2),
        seq!["type"@, "name"@, "container"@, "options"@],
        seq!["type"@, "name"@, "container"@],
    )
    &&& constant(property(form(s, 2), 0), "cache"@, CACHE_MOUNT@)
    &&& typed(property(form(s, 2), 1), "string"@, CACHE_NAME@)
    &&& typed(property(form(s, 2), 2), "string"@, CONTAINER_PATH@)
    &&& typed(property(form(s, 2), 3), "string"@, MOUNT_OPTIONS@)
    &&& object_form(form(s, 3), seq!["type"@, "container"@, "options"@], seq!["type"@, "container"@])
    &&& constant(property(form(s, 3), 0), "tmpfs"@, TMPFS_MOUNT@)
    &&& typed(property(form(s, 3), 1), "string"@, CONTAINER_PATH@)
    &&& typed(property(form(s, 3), 2), "string"@, TMPFS_OPTIONS@)
}

/// The schema of a volume mount.
pub fn volume_mount_schema() -> (schema: Json)
    ensures
        is_volume_mount_schema(schema),
{
    let string = string_form_value(VOLUME_STRING, texts2(".:/code", "./data:/data:ro"));

    let mut local: Vec<(String, Json)> = Vec::new();
    local.push(entry("type", constant_value("local", LOCAL_MOUNT)));
    local.push(entry("local", typed_value("string", HOST_PATH)));
    local.push(entry("container", typed_value("string", CONTAINER_PATH)));
    local.push(entry("options", typed_value("string", MOUNT_OPTIONS)));
    let local = object_form_value(local, texts2("local", "container"));

    let mut cache: Vec<(String, Json)> = Vec::new();
    cache.push(entry("type", constant_value("cache", CACHE_MOUNT)));
    cache.push(entry("name", typed_value("string", CACHE_NAME)));
    cache.push(entry("container", typed_value("string", CONTAINER_PATH)));
    cache.push(entry("options", typed_value("string", MOUNT_OPTIONS)));
    let cache = object_form_value(cache, texts3("type", "name", "container"));

    let mut tmpfs: Vec<(String, Json)> = Vec::new();
    tmpfs.push(entry("type", constant_value("tmpfs", TMPFS_MOUNT)));
    tmpfs.push(entry("container", typed_value("string", CONTAINER_PATH)));
    tmpfs.push(entry("options", typed_value("string", TMPFS_OPTIONS)));
    let tmpfs = object_form_value(tmpfs, texts2("type", "container"));

    let mut forms: Vec<Json> = Vec::new();
    forms.push(string);
    forms.push(local);
    forms.push(cache);
    forms.push(tmpfs);
    one_of_value(forms)
}

// ---------------------------------------------------------------------
// Includes
// ---------------------------------------------------------------------

/// What an include's string form says of it.
pub const INCLUDE_STRING: &'static str = "The path to another configuration file to merge into this one, relative to this file's own directory.";

/// What a file include's tag says of it.
pub const FILE_INCLUDE: &'static str = "A local configuration file. The default when 'type' is omitted.";

/// What a file include's `path` says of it.
pub const FILE_PATH: &'static str = "The path to the file, relative to this file's own directory.";

/// What a Git include's tag says of it.
pub const GIT_INCLUDE: &'static str = "A bundle from a Git repository, cloned once and cached under ~/.ratect/incl.";

/// What a Git include's `repo` says of it.
pub const GIT_REPO: &'static str = "The repository to clone.";

/// What a Git include's `ref` says of it.
pub const GIT_REF: &'static str = "The tag, branch or commit to check out.";

/// What a Git include's `path` says of it.
pub const GIT_PATH: &'static str = "The file to include from within the repository. Defaults to batect-bundle.yml.";

/// What a Git include's `allow_host_paths` says of it.
pub const GIT_HOST_PATHS: &'static str = "Let this bundle's containers resolve 'volumes'/'build_directory' paths outside the usual containment (its own clone, or your project directory) — for a bundle you trust that needs, say, a shared cache under your home directory. Applies only to the bundle named here, never to bundles it includes itself, and only when set in your own configuration. Defaults to false.";

/// Whether `s` is the schema of an include entry: a file's path as a
/// string, or one of two object forms told apart by `type` (`file`, the
/// default; `git`, which needs `repo` and `ref`).
pub open spec fn is_include_schema(s: Json) -> bool {
    &&& one_of(s, 3)
    &&& string_form(form(s, 0), INCLUDE_STRING@, seq!["tasks/build.yml"@])
    &&& object_form(form(s, 1), seq!["type"@, "path"@], seq!["path"@])
    &&& constant(property(form(s, 1), 0), "file"@, FILE_INCLUDE@)
    &&& typed(property(form(s, 1), 1), "string"@, FILE_PATH@)
    &&& object_form(
        form(s, 2),
        seq!["type"@, "repo"@, "ref"@, "path"@, "allow_host_paths"@],
        seq!["type"@, "repo"@, "ref"@],
    )
    &&& constant(property(form(s, 2), 0), "git"@, GIT_INCLUDE@)
    &&& typed(property(form(s, 2), 1), "string"@, GIT_REPO@)
    &&& typed(property(form(s, 2), 2), "string"@, GIT_REF@)
    &&& typed(property(form(s, 2), 3), "string"@, GIT_PATH@)
    &&& typed(property(form(s, 2), 4), "boolean"@, GIT_HOST_PATHS@)
}

/// The schema of an include entry.
pub fn include_schema() -> (schema: Json)
    ensures
        is_include_schema(schema),
{
    let string = string_form_value(INCLUDE_STRING, texts1("tasks/build.yml"));

    let mut file: Vec<(String, Json)> = Vec::new();
    file.push(entry("type", constant_value("file", FILE_INCLUDE)));
    file.push(entry("path", typed_value("string", FILE_PATH)));
    let file = object_form_value(file, texts1("path"));

    let mut git: Vec<(String, Json)> = Vec::new();
    git.push(entry("type", constant_value("git", GIT_INCLUDE)));
    git.push(entry("repo", typed_value("string", GIT_REPO)));
    git.push(entry("ref", typed_value("string", GIT_REF)));
    git.push(entry("path", typed_value("string", GIT_PATH)));
    git.push(entry("allow_host_paths", typed_value("boolean", GIT_HOST_PATHS)));
    let git = object_form_value(git, texts3("type", "repo", "ref"));

    let mut forms: Vec<Json> = Vec::new();
    forms.push(string);
    forms.push(file);
    forms.push(git);
    one_of_value(forms)
}

// ---------------------------------------------------------------------
// Build secrets
// ---------------------------------------------------------------------

/// What a build secret's `environment` says of it.
pub const SECRET_ENVIRONMENT: &'static str = "The name of a host environment variable to read the secret's value from.";

/// What a build secret's `path` says of it.
pub const SECRET_PATH: &'static str = "The path to a file on the host containing the secret's value. Supports expressions.";

/// What a build secret says of itself.
pub const BUILD_SECRET: &'static str = "A secret exposed to a build via BuildKit's secret mounts. Exactly one of 'environment' or 'path' is required.";

/// Whether `s` is the schema of a build secret: an object with exactly one
/// of `environment` or `path`.
pub open spec fn is_build_secret_schema(s: Json) -> bool {
    &&& keyed(s, seq!["oneOf"@, "description"@])
    &&& value_at(s, 0) is Array
    &&& value_at(s, 0)->Array_0@.len() == 2
    &&& object_form(form(s, 0), seq!["environment"@], seq!["environment"@])
    &&& typed(property(form(s, 0), 0), "string"@, SECRET_ENVIRONMENT@)
    &&& object_form(form(s, 1), seq!["path"@], seq!["path"@])
    &&& typed(property(form(s, 1), 0), "string"@, SECRET_PATH@)
    &&& is_text(value_at(s, 1), BUILD_SECRET@)
}

/// The schema of a build secret.
pub fn build_secret_schema() -> (schema: Json)
    ensures
        is_build_secret_schema(schema),
{
    let mut environment: Vec<(String, Json)> = Vec::new();
    environment.push(entry("environment", typed_value("string", SECRET_ENVIRONMENT)));
    let environment = object_form_value(environment, texts1("environment"));

    let mut path: Vec<(String, Json)> = Vec::new();
    path.push(entry("path", typed_value("string", SECRET_PATH)));
    let path = object_form_value(path, texts1("path"));

    let mut forms: Vec<Json> = Vec::new();
    forms.push(environment);
    forms.push(path);
    let mut entries: Vec<(String, Json)> = Vec::new();
    entries.push(entry("oneOf", Json::Array(forms)));
    entries.push(entry("description", text(BUILD_SECRET)));
    Json::Object(entries)
}

// ---------------------------------------------------------------------
// Their definitions
// ---------------------------------------------------------------------

/// Whether `definitions` are the hand-written schemas under the names a
/// schema's `definitions` files them by, in this order: `PortRange`,
/// `PortMapping`, `DeviceMount`, `VolumeMount`, `Include`, `BuildSecret`.
pub open spec fn are_hand_written_definitions(definitions: Seq<(String, Json)>) -> bool {
    &&& definitions.len() == 6
    &&& definitions[0].0@ == "PortRange"@ && is_port_range_schema(definitions[0].1)
    &&& definitions[1].0@ == "PortMapping"@ && is_port_mapping_schema(definitions[1].1)
    &&& definitions[2].0@ == "DeviceMount"@ && is_device_mount_schema(definitions[2].1)
    &&& definitions[3].0@ == "VolumeMount"@ && is_volume_mount_schema(definitions[3].1)
    &&& definitions[4].0@ == "Include"@ && is_include_schema(definitions[4].1)
    &&& definitions[5].0@ == "BuildSecret"@ && is_build_secret_schema(definitions[5].1)
}

/// The hand-written schemas of the string-or-object fields, each under its
/// definition's name.
pub fn hand_written_definitions() -> (definitions: Vec<(String, Json)>)
    ensures
        are_hand_written_definitions(definitions@),
{
    let mut definitions: Vec<(String, Json)> = Vec::new();
    definitions.push(entry("PortRange", port_range_schema()));
    definitions.push(entry("PortMapping", port_mapping_schema()));
    definitions.push(entry("DeviceMount", device_mount_schema()));
    definitions.push(entry("VolumeMount", volume_mount_schema()));
    definitions.push(entry("Include", include_schema()));
    definitions.push(entry("BuildSecret", build_secret_schema()));
    definitions
}

// ---------------------------------------------------------------------
// Their native shape
// ---------------------------------------------------------------------

/// Whether `f`'s first entry is its `type`, the text `ty`.
pub open spec fn first_typed(f: Json, ty: Seq<char>) -> bool {
    &&& f is Object
    &&& f->Object_0@.len() > 0
    &&& f->Object_0@[0].0@ == "type"@
    &&& is_text(value_at(f, 0), ty)
}

/// A form whose `type` comes first is the string shorthand exactly when
/// that type is `string`.
proof fn lemma_first_typed(f: Json, ty: Seq<char>)
    requires
        first_typed(f, ty),
    ensures
        is_string_form(f) <==> ty == "string"@,
{
    assert(entry_index(f->Object_0@, "type"@) == 0);
}

/// The forms kept of a `oneOf` whose first form is the string shorthand
/// and whose others are objects: all but the first.
proof fn lemma_kept_after_shorthand(forms: Seq<Json>)
    requires
        forms.len() >= 1,
        first_typed(forms[0], "string"@),
        forall|i: int| 1 <= i < forms.len() ==> first_typed(#[trigger] forms[i], "object"@),
    ensures
        kept_forms(forms) == forms.drop_first(),
    decreases forms.len(),
{
    reveal_strlit("string");
    reveal_strlit("object");
    lemma_first_typed(forms[0], "string"@);
    if forms.len() == 1 {
        assert(kept_forms(forms.drop_last()) =~= Seq::<Json>::empty());
        assert(forms.drop_first() =~= Seq::<Json>::empty());
    } else {
        let last = forms.last();
        lemma_first_typed(last, "object"@);
        let shorter = forms.drop_last();
        assert forall|i: int| 1 <= i < shorter.len() implies first_typed(#[trigger] shorter[i], "object"@) by {
            assert(shorter[i] == forms[i]);
        }
        assert(shorter[0] == forms[0]);
        lemma_kept_after_shorthand(shorter);
        assert("object"@[0] != "string"@[0]);
        assert(forms.drop_first() =~= shorter.drop_first().push(last));
    }
}

/// Whether `s`'s `oneOf` is its first entry, with the string shorthand
/// first and object forms after it.
spec fn shorthand_then_objects(s: Json) -> bool {
    &&& s is Object
    &&& s->Object_0@.len() > 0
    &&& s->Object_0@[0].0@ == "oneOf"@
    &&& value_at(s, 0) is Array
    &&& value_at(s, 0)->Array_0@.len() >= 1
    &&& first_typed(form(s, 0), "string"@)
    &&& forall|i: int| 1 <= i < value_at(s, 0)->Array_0@.len() ==> first_typed(#[trigger] form(s, i), "object"@)
}

/// What dropping the shorthand does to such a schema: the forms after the
/// first are kept, in order.
proof fn lemma_shorthand_dropped(s: Json, after: Json)
    requires
        shorthand_then_objects(s),
        shorthand_dropped(s, after),
    ensures
        value_at(s, 0)->Array_0@.len() == 2 ==> after == form(s, 1),
        value_at(s, 0)->Array_0@.len() != 2 ==> {
            &&& after is Object
            &&& after->Object_0@.len() == s->Object_0@.len()
            &&& after->Object_0@[0].0 == s->Object_0@[0].0
            &&& value_at(after, 0) is Array
            &&& value_at(after, 0)->Array_0@ == value_at(s, 0)->Array_0@.drop_first()
            &&& forall|j: int| 1 <= j < s->Object_0@.len() ==> #[trigger] after->Object_0@[j] == s->Object_0@[j]
        },
{
    let forms = value_at(s, 0)->Array_0@;
    assert(entry_index(s->Object_0@, "oneOf"@) == 0);
    assert forall|i: int| 1 <= i < forms.len() implies first_typed(#[trigger] forms[i], "object"@) by {
        assert(forms[i] == form(s, i));
    }
    lemma_kept_after_shorthand(forms);
}

/// The native volume-mount schema: the string shorthand dropped, the local,
/// cache and tmpfs object forms kept, in that order.
pub proof fn lemma_native_volume_mounts_are_objects(before: Json, after: Json)
    requires
        is_volume_mount_schema(before),
        shorthand_dropped(before, after),
    ensures
        one_of(after, 3),
        form(after, 0) == form(before, 1),
        form(after, 1) == form(before, 2),
        form(after, 2) == form(before, 3),
{
    assert(forall|i: int| 1 <= i < 4 ==> first_typed(#[trigger] form(before, i), "object"@));
    lemma_shorthand_dropped(before, after);
}

/// The native include schema: the string shorthand dropped, the file and
/// Git object forms kept, in that order.
pub proof fn lemma_native_includes_are_objects(before: Json, after: Json)
    requires
        is_include_schema(before),
        shorthand_dropped(before, after),
    ensures
        one_of(after, 2),
        form(after, 0) == form(before, 1),
        form(after, 1) == form(before, 2),
{
    assert(forall|i: int| 1 <= i < 3 ==> first_typed(#[trigger] form(before, i), "object"@));
    lemma_shorthand_dropped(before, after);
}

/// The native port-mapping and device-mount schemas: with the string
/// shorthand dropped, a single form is left, and the schema is that
/// object.
pub proof fn lemma_native_mappings_are_objects(before: Json, after: Json)
    requires
        is_port_mapping_schema(before) || is_device_mount_schema(before),
        shorthand_dropped(before, after),
    ensures
        after == form(before, 1),
        keyed(after, seq!["type"@, "properties"@, "required"@, "additionalProperties"@]),
        is_text(value_at(after, 0), "object"@),
{
    assert(forall|i: int| 1 <= i < 2 ==> first_typed(#[trigger] form(before, i), "object"@));
    lemma_shorthand_dropped(before, after);
}

} // verus!
