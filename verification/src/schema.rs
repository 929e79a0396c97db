//! The editor-facing JSON Schemas for configuration files: the generated
//! schema's Rust doc comments summarized into tooltips, and the
//! Batect-compatible schema turned into the native `ratect.toml` one.

use vstd::prelude::*;

use crate::text::{
    chars_of, find_char_from, index_of_char, lemma_index_of_char, lemma_index_of_char_bounds, string_of_range, trim, trimmed,
};

verus! {

/// Whether `s` begins with `prefix`.
pub open spec fn starts_with(s: Seq<char>, prefix: Seq<char>) -> bool {
    prefix.len() <= s.len() && s.take(prefix.len() as int) == prefix
}

/// `stripped` leaves a text with no complete `[...]` as it is.
proof fn lemma_stripped_plain(text: Seq<char>)
    requires
        index_of_char(text, '[') < 0 || index_of_char(text.skip(index_of_char(text, '[')), ']') < 0,
    ensures
        stripped(text) == text,
{
    reveal(stripped);
}

/// One step of `stripped`: the first `[label]` of `text`, at `open` and
/// `close`, and what follows it.
proof fn lemma_stripped_step(text: Seq<char>, open: int, close: int)
    requires
        0 <= open < close < text.len(),
        index_of_char(text, '[') == open,
        index_of_char(text.skip(open), ']') == close - open,
    ensures
        ({
            let label = text.subrange(open + 1, close);
            let before = text.take(open);
            let after = text.skip(close + 1);
            if after.len() > 0 && after[0] == '(' && index_of_char(after.skip(1), ')') >= 0 {
                let target = after.skip(1);
                let end = index_of_char(target, ')');
                if starts_with(target.take(end), "http"@) {
                    stripped(text) == before + "["@ + label + "]("@ + target.take(end) + ")"@ + stripped(
                        target.skip(end + 1),
                    )
                } else {
                    stripped(text) == before + label + stripped(target.skip(end + 1))
                }
            } else {
                stripped(text) == before + label + stripped(after)
            }
        }),
{
    reveal(stripped);
}

/// `text` with rustdoc's two intra-doc link forms rewritten, since neither
/// means anything outside rustdoc: `[label]` becomes `label`, and
/// `[label](target)` becomes `label` too, unless `target` starts with
/// `http`, a real link an editor can follow, which survives untouched.
#[verifier::opaque]
pub open spec fn stripped(text: Seq<char>) -> Seq<char>
    decreases text.len(),
{
    let open = index_of_char(text, '[');
    proof {
        lemma_index_of_char_bounds(text, '[');
    }
    if open < 0 {
        text
    } else {
        let close = index_of_char(text.skip(open), ']');
        proof {
            lemma_index_of_char_bounds(text.skip(open), ']');
        }
        if close < 0 {
            text
        } else {
            let close = open + close;
            let label = text.subrange(open + 1, close);
            let before = text.take(open);
            let after = text.skip(close + 1);
            if after.len() > 0 && after[0] == '(' && index_of_char(after.skip(1), ')') >= 0 {
                let target = after.skip(1);
                let end = index_of_char(target, ')');
                proof {
                    lemma_index_of_char_bounds(target, ')');
                }
                if starts_with(target.take(end), "http"@) {
                    before + "["@ + label + "]("@ + target.take(end) + ")"@ + stripped(target.skip(end + 1))
                } else {
                    before + label + stripped(target.skip(end + 1))
                }
            } else {
                before + label + stripped(after)
            }
        }
    }
}

/// Whether `chars[from..to]` begins with `http`.
fn begins_with_http(chars: &Vec<char>, from: usize, to: usize) -> (http: bool)
    requires
        from <= to <= chars.len(),
    ensures
        http == starts_with(chars@.subrange(from as int, to as int), "http"@),
{
    proof {
        reveal_strlit("http");
    }
    let ghost s = chars@.subrange(from as int, to as int);
    if to - from < 4 {
        return false;
    }
    let found = chars[from] == 'h' && chars[from + 1] == 't' && chars[from + 2] == 't' && chars[from + 3] == 'p';
    proof {
        if found {
            assert(s.take(4) =~= "http"@);
        } else {
            assert(s.take(4) != "http"@) by {
                if s.take(4) == "http"@ {
                    assert(s.take(4)[0] == 'h' && s.take(4)[1] == 't' && s.take(4)[2] == 't' && s.take(4)[3] == 'p');
                }
            }
        }
    }
    found
}

/// `[`Container::volumes`]` becomes `` `Container::volumes` `` and
/// `[expressions](#expressions)` becomes `expressions`; a link to a real
/// URL survives untouched.
#[verifier::rlimit(60)]
pub fn strip_intra_doc_links(text: &str) -> (output: String)
    ensures
        output@ == stripped(text@),
{
    let chars = chars_of(text);
    let mut output = String::new();
    let mut pos: usize = 0;
    assert(chars@.skip(0) =~= text@);
    assert(output@ + stripped(text@) =~= stripped(text@));
    while pos < chars.len()
        invariant
            pos <= chars.len(),
            chars@ == text@,
            output@ + stripped(chars@.skip(pos as int)) == stripped(text@),
        decreases chars.len() - pos,
    {
        let ghost rest = chars@.skip(pos as int);
        let open = match find_char_from(&chars, pos, '[') {
            None => {
                output.append(string_of_range(chars.as_slice(), pos, chars.len()).as_str());
                proof {
                    assert(chars@.subrange(pos as int, chars.len() as int) =~= rest);
                    assert(chars@.skip(chars.len() as int) =~= Seq::<char>::empty());
                    lemma_stripped_plain(rest);
                    lemma_stripped_plain(Seq::<char>::empty());
                }
                pos = chars.len();
                continue;
            },
            Some(k) => k,
        };
        assert(rest.skip(open - pos) =~= chars@.skip(open as int));
        let close = match find_char_from(&chars, open, ']') {
            None => {
                output.append(string_of_range(chars.as_slice(), pos, chars.len()).as_str());
                proof {
                    assert(chars@.subrange(pos as int, chars.len() as int) =~= rest);
                    assert(chars@.skip(chars.len() as int) =~= Seq::<char>::empty());
                    lemma_stripped_plain(rest);
                    lemma_stripped_plain(Seq::<char>::empty());
                }
                pos = chars.len();
                continue;
            },
            Some(k) => k,
        };
        proof {
            lemma_stripped_step(rest, open - pos, close - pos);
        }
        let before = string_of_range(chars.as_slice(), pos, open);
        let label = string_of_range(chars.as_slice(), open + 1, close);
        assert(before@ =~= rest.take(open - pos));
        assert(label@ =~= rest.subrange(open - pos + 1, close - pos));
        let after = close + 1;
        assert(rest.skip(close - pos + 1) =~= chars@.skip(after as int));
        output.append(before.as_str());
        if after < chars.len() && chars[after] == '(' {
            assert(chars@.skip(after as int).skip(1) =~= chars@.skip(after + 1));
            match find_char_from(&chars, after + 1, ')') {
                Some(end) => {
                    let target = string_of_range(chars.as_slice(), after + 1, end);
                    assert(target@ =~= chars@.skip(after + 1).take(end - after - 1));
                    assert(chars@.skip(after + 1).skip(end - after - 1 + 1) =~= chars@.skip(end + 1));
                    if begins_with_http(&chars, after + 1, end) {
                        output.append("[");
                        output.append(label.as_str());
                        output.append("](");
                        output.append(target.as_str());
                        output.append(")");
                    } else {
                        output.append(label.as_str());
                    }
                    pos = end + 1;
                },
                None => {
                    output.append(label.as_str());
                    pos = after;
                },
            }
        } else {
            output.append(label.as_str());
            pos = after;
        }
    }
    assert(chars@.skip(pos as int) =~= Seq::<char>::empty());
    proof {
        lemma_stripped_plain(Seq::<char>::empty());
    }
    output
}

/// Where `s`'s first paragraph ends: the first blank line (`"\n\n"`), or -1.
pub open spec fn paragraph_end(s: Seq<char>) -> int
    decreases s.len(),
{
    if s.len() < 2 {
        -1
    } else if s[0] == '\n' && s[1] == '\n' {
        0
    } else {
        let rest = paragraph_end(s.drop_first());
        if rest < 0 {
            -1
        } else {
            rest + 1
        }
    }
}

/// `s`'s first paragraph.
pub open spec fn first_paragraph(s: Seq<char>) -> Seq<char> {
    if paragraph_end(s) < 0 {
        s
    } else {
        s.take(paragraph_end(s))
    }
}

/// The lines of `s` each trimmed and joined onto one line with spaces.
#[verifier::opaque]
pub open spec fn reflowed(s: Seq<char>) -> Seq<char>
    decreases s.len(),
{
    let k = index_of_char(s, '\n');
    proof {
        lemma_index_of_char_bounds(s, '\n');
    }
    if k < 0 {
        trimmed(s)
    } else {
        trimmed(s.take(k)) + " "@ + reflowed(s.skip(k + 1))
    }
}

/// One doc comment as a tooltip: its first paragraph only (rustdoc's own
/// summary convention; what follows is for contributors), reflowed onto one
/// line, with rustdoc's intra-doc link brackets removed.
pub open spec fn summary(description: Seq<char>) -> Seq<char> {
    stripped(trimmed(reflowed(first_paragraph(description))))
}

/// Whether a blank line starts at `k` in `s`.
pub open spec fn blank_line_at(s: Seq<char>, k: int) -> bool {
    0 <= k && k + 1 < s.len() && s[k] == '\n' && s[k + 1] == '\n'
}

/// `paragraph_end` is `j`, the first blank line.
proof fn lemma_paragraph_end(s: Seq<char>, j: int)
    requires
        0 <= j,
        forall|k: int| 0 <= k < j ==> !#[trigger] blank_line_at(s, k),
        j + 1 < s.len() ==> s[j] == '\n' && s[j + 1] == '\n',
        j + 1 >= s.len() ==> j == s.len() || j + 1 == s.len() || s.len() < 2,
    ensures
        paragraph_end(s) == if j + 1 < s.len() { j } else { -1 },
    decreases s.len(),
{
    if s.len() >= 2 && j > 0 {
        let t = s.drop_first();
        assert forall|k: int| 0 <= k < j - 1 implies !#[trigger] blank_line_at(t, k) by {
            assert(!blank_line_at(s, k + 1));
            if k + 1 < t.len() {
                assert(t[k] == s[k + 1] && t[k + 1] == s[k + 2]);
            }
        }
        assert(!blank_line_at(s, 0));
        lemma_paragraph_end(t, j - 1);
    }
}

/// The lines of `chars[..end]`, each trimmed, joined with spaces.
fn reflow(chars: &Vec<char>, end: usize) -> (text: String)
    requires
        end <= chars.len(),
    ensures
        text@ == reflowed(chars@.take(end as int)),
{
    let ghost para = chars@.take(end as int);
    let line_chars = crate::text::string_of_range(chars.as_slice(), 0, end);
    let line_vec = chars_of(line_chars.as_str());
    assert(line_vec@ =~= para);
    let mut text = String::new();
    let mut pos: usize = 0;
    let mut done = false;
    assert(line_vec@.skip(0) =~= para);
    while !done
        invariant
            pos <= line_vec.len(),
            line_vec@ == para,
            !done ==> text@ + reflowed(para.skip(pos as int)) == reflowed(para),
            done ==> text@ == reflowed(para),
        decreases line_vec.len() - pos + if done { 0int } else { 1int },
    {
        let ghost rest = para.skip(pos as int);
        proof {
            reveal(reflowed);
        }
        match find_char_from(&line_vec, pos, '\n') {
            None => {
                let line = string_of_range(line_vec.as_slice(), pos, line_vec.len());
                assert(line@ =~= rest);
                let t = trim(line.as_str());
                text.append(t.as_str());
                done = true;
            },
            Some(k) => {
                let line = string_of_range(line_vec.as_slice(), pos, k);
                assert(line@ =~= rest.take(k - pos));
                assert(rest.skip(k - pos + 1) =~= para.skip(k + 1));
                let t = trim(line.as_str());
                text.append(t.as_str());
                text.append(" ");
                pos = k + 1;
            },
        }
    }
    text
}

/// One doc comment as an editor tooltip: its first paragraph, reflowed
/// onto one line, trimmed, with rustdoc's link brackets removed. Ordinary
/// Markdown, real links and backticks included, is left alone.
pub fn summarize(description: &str) -> (tooltip: String)
    ensures
        tooltip@ == summary(description@),
{
    let chars = chars_of(description);
    let mut end = chars.len();
    if chars.len() >= 2 {
        let mut k: usize = 0;
        while k + 1 < chars.len() && !(chars[k] == '\n' && chars[k + 1] == '\n')
            invariant
                chars@ == description@,
                k + 1 <= chars.len(),
                forall|m: int| 0 <= m < k ==> !#[trigger] blank_line_at(chars@, m),
            decreases chars.len() - k,
        {
            k = k + 1;
        }
        proof {
            lemma_paragraph_end(description@, k as int);
        }
        if k + 1 < chars.len() {
            end = k;
        }
    } else {
        proof {
            lemma_paragraph_end(description@, 0);
        }
    }
    assert(chars@.take(end as int) =~= first_paragraph(description@));
    let one_line = reflow(&chars, end);
    let trimmed_line = trim(one_line.as_str());
    strip_intra_doc_links(trimmed_line.as_str())
}

// ---------------------------------------------------------------------
// Schemas as JSON values
// ---------------------------------------------------------------------

/// A JSON value, as the schemas are built from. A number is kept as the
/// text it is written as; an object's entries are in order, each key once.
#[derive(Debug)]
pub enum Json {
    Null,
    Bool(bool),
    Number(String),
    Text(String),
    Array(Vec<Json>),
    Object(Vec<(String, Json)>),
}

/// Whether every `description` text anywhere in `before` has been replaced
/// by its summary in `after`, which is otherwise the same value.
pub open spec fn summarized(before: Json, after: Json) -> bool
    decreases before,
{
    match before {
        Json::Array(items) => match after {
            Json::Array(out) => out@.len() == items@.len() && forall|i: int|
                0 <= i < items@.len() ==> summarized(#[trigger] items@[i], out@[i]),
            _ => false,
        },
        Json::Object(entries) => match after {
            Json::Object(out) => out@.len() == entries@.len() && forall|i: int|
                0 <= i < entries@.len() ==> #[trigger] out@[i].0 == entries@[i].0 && (if entries@[i].0@
                    == "description"@ && entries@[i].1 is Text {
                    out@[i].1 matches Json::Text(t) && t@ == summary(entries@[i].1->Text_0@)
                } else {
                    summarized(entries@[i].1, out@[i].1)
                }),
            _ => false,
        },
        _ => after == before,
    }
}

/// Rewrites every `description` in a generated schema from the Rust doc
/// comment it came from into an editor tooltip (see [`summarize`]): a pass
/// over the finished JSON, so no field's documentation is written twice.
#[verifier::loop_isolation(false)]
#[verifier::spinoff_prover]
pub fn summarize_descriptions(value: Json) -> (out: Json)
    ensures
        summarized(value, out),
    decreases value,
{
    let ghost whole = value;
    match value {
        Json::Array(items) => {
            let ghost all = items@;
            let mut out: Vec<Json> = Vec::new();
            for item in it: items.into_iter()
                invariant
                    it.seq() == all,
                    whole == Json::Array(items),
                    out@.len() == it.index(),
                    forall|i: int| 0 <= i < out@.len() ==> summarized(#[trigger] all[i], out@[i]),
            {
                proof {
                    let k = it.index();
                    assert(item == all[k]);
                    assert(whole->Array_0 == items);
                    assert(decreases_to!(whole => whole->Array_0));
                    assert(decreases_to!(whole->Array_0 => whole->Array_0@));
                    assert(decreases_to!(whole->Array_0@ => whole->Array_0@[k]));
                    assert(decreases_to!(whole => item));
                }
                let summarized_item = summarize_descriptions(item);
                out.push(summarized_item);
            }
            Json::Array(out)
        },
        Json::Object(entries) => {
            let ghost all = entries@;
            let mut out: Vec<(String, Json)> = Vec::new();
            for entry in it: entries.into_iter()
                invariant
                    it.seq() == all,
                    whole == Json::Object(entries),
                    out@.len() == it.index(),
                    forall|i: int|
                        0 <= i < out@.len() ==> #[trigger] out@[i].0 == all[i].0 && (if all[i].0@ == "description"@
                            && all[i].1 is Text {
                            out@[i].1 matches Json::Text(t) && t@ == summary(all[i].1->Text_0@)
                        } else {
                            summarized(all[i].1, out@[i].1)
                        }),
            {
                let ghost k = it.index();
                assert(entry == all[k]);
                let (key, child) = entry;
                assert(key == all[k].0 && child == all[k].1);
                let is_description = crate::text::str_eq(key.as_str(), "description");
                let new_child = match child {
                    Json::Text(t) => {
                        if is_description {
                            Json::Text(summarize(t.as_str()))
                        } else {
                            Json::Text(t)
                        }
                    },
                    other => {
                        proof {
                            assert(whole->Object_0 == entries);
                            assert(decreases_to!(whole => whole->Object_0));
                            assert(decreases_to!(whole->Object_0 => whole->Object_0@));
                            assert(decreases_to!(whole->Object_0@ => whole->Object_0@[k]));
                            assert(decreases_to!(whole->Object_0@[k] => whole->Object_0@[k].1));
                            assert(decreases_to!(whole => other));
                        }
                        summarize_descriptions(other)
                    },
                };
                out.push((key, new_child));
            }
            Json::Object(out)
        },
        other => other,
    }
}

/// The position of the first entry of `entries` with key `key`, or -1.
pub open spec fn entry_index(entries: Seq<(String, Json)>, key: Seq<char>) -> int
    decreases entries.len(),
{
    if entries.len() == 0 {
        -1
    } else if entries[0].0@ == key {
        0
    } else {
        let rest = entry_index(entries.drop_first(), key);
        if rest < 0 {
            -1
        } else {
            rest + 1
        }
    }
}

/// `entry_index` is `j`: the first entry with key `key`, or -1 for none.
proof fn lemma_entry_index(entries: Seq<(String, Json)>, key: Seq<char>, j: int)
    requires
        0 <= j <= entries.len(),
        forall|m: int| 0 <= m < j ==> #[trigger] entries[m].0@ != key,
        j < entries.len() ==> entries[j].0@ == key,
    ensures
        entry_index(entries, key) == if j == entries.len() { -1 } else { j },
    decreases entries.len(),
{
    if entries.len() > 0 && j > 0 {
        assert forall|m: int| 0 <= m < j - 1 implies #[trigger] entries.drop_first()[m].0@ != key by {
            assert(entries[m + 1].0@ != key);
        }
        lemma_entry_index(entries.drop_first(), key, j - 1);
    }
}

/// The value of `value`'s field `key`, where `value` is an object that has
/// one.
pub open spec fn field_of(value: Json, key: Seq<char>) -> Option<Json> {
    match value {
        Json::Object(entries) => if entry_index(entries@, key) >= 0 {
            Some(entries@[entry_index(entries@, key)].1)
        } else {
            None
        },
        _ => None,
    }
}

/// Where the entry with key `key` is in `entries`, if any.
fn find_entry(entries: &Vec<(String, Json)>, key: &str) -> (found: Option<usize>)
    ensures
        found is None ==> entry_index(entries@, key@) == -1,
        found is None ==> forall|m: int| 0 <= m < entries@.len() ==> #[trigger] entries@[m].0@ != key@,
        found matches Some(i) ==> i < entries@.len() && entry_index(entries@, key@) == i && entries@[i as int].0@
            == key@,
{
    let mut i: usize = 0;
    while i < entries.len()
        invariant
            i <= entries@.len(),
            forall|m: int| 0 <= m < i ==> #[trigger] entries@[m].0@ != key@,
        decreases entries.len() - i,
    {
        if crate::text::str_eq(entries[i].0.as_str(), key) {
            proof {
                lemma_entry_index(entries@, key@, i as int);
            }
            return Some(i);
        }
        i = i + 1;
    }
    proof {
        lemma_entry_index(entries@, key@, i as int);
    }
    None
}

/// The schemas the native format adds or corrects.
#[derive(Clone, Copy, Debug, PartialEq, Eq, Structural)]
pub enum NativeProperty {
    /// A cache volume's `scope`.
    CacheScope,
    /// A Git include's `path`, whose default differs in the native format.
    GitPath,
    /// A Git include's `allow_nested_git_includes`.
    NestedGit,
    /// A container's native-only `extends`.
    Extends,
    /// A container's `image`, whose description differs in the native
    /// format.
    Image,
}

/// Whether `entry` is the key `key` with the text `text`.
pub open spec fn text_entry(entry: (String, Json), key: Seq<char>, text: Seq<char>) -> bool {
    &&& entry.0@ == key
    &&& entry.1 matches Json::Text(t) && t@ == text
}

/// Whether `value` is an array of the two texts `a` and `b`.
pub open spec fn two_texts(value: Json, a: Seq<char>, b: Seq<char>) -> bool {
    &&& value matches Json::Array(v)
    &&& value->Array_0@.len() == 2
    &&& value->Array_0@[0] matches Json::Text(x) && x@ == a
    &&& value->Array_0@[1] matches Json::Text(y) && y@ == b
}

/// The description of a native property's schema.
pub open spec fn native_description(which: NativeProperty) -> Seq<char> {
    match which {
        NativeProperty::CacheScope =>
            "Whether this cache is private to the project (the default) or shared with every other project on this machine. A shared cache carries no project key, so one Cargo registry or npm cache is populated once and reused everywhere."@,
        NativeProperty::GitPath =>
            "The file to include from within the repository. Defaults to ratect-bundle.toml, then batect-bundle.yml."@,
        NativeProperty::NestedGit =>
            "Let this bundle declare Git includes of its own, fetching configuration from remotes you have not named. Refused by default. Applies only to the bundle named here — the bundles it admits cannot pass the permission on — and only when set in your own configuration. Defaults to false."@,
        NativeProperty::Extends =>
            "Inherit every field from another container by name, then override only the fields set here — ratect's native replacement for YAML anchors. Shallow and per-field: a field set here replaces the inherited one; a field left unset is taken from the named container."@,
        NativeProperty::Image =>
            "The image to run, in Docker's own `name:tag` form. Supports expressions, so a tag can be chosen per run — e.g. \"my-repo/my-image:${IMAGE_TAG:-latest}\". Usually paired with `build_directory` as the alternative, though `extends` makes both — or neither — legal on one container."@,
    }
}

/// Whether `value` is the schema of the native property `which`: its
/// description, and its type (one of two texts for a cache's scope, a
/// string or nothing for an image).
pub open spec fn native_schema(which: NativeProperty, value: Json) -> bool {
    &&& value matches Json::Object(e)
    &&& value->Object_0@.len() == 2
    &&& text_entry(value->Object_0@[1], "description"@, native_description(which))
    &&& match which {
        NativeProperty::CacheScope => value->Object_0@[0].0@ == "enum"@ && two_texts(
            value->Object_0@[0].1,
            "project"@,
            "shared"@,
        ),
        NativeProperty::GitPath => text_entry(value->Object_0@[0], "type"@, "string"@),
        NativeProperty::NestedGit => text_entry(value->Object_0@[0], "type"@, "boolean"@),
        NativeProperty::Extends => text_entry(value->Object_0@[0], "type"@, "string"@),
        NativeProperty::Image => value->Object_0@[0].0@ == "type"@ && two_texts(
            value->Object_0@[0].1,
            "string"@,
            "null"@,
        ),
    }
}

/// The JSON text `text`.
fn json_text(text: &str) -> (value: Json)
    ensures
        value matches Json::Text(t) && t@ == text@,
{
    Json::Text(text.to_string())
}

/// The schema of the native property `which`.
fn native_schema_value(which: NativeProperty) -> (value: Json)
    ensures
        native_schema(which, value),
{
    let description = match which {
        NativeProperty::CacheScope => json_text(
            "Whether this cache is private to the project (the default) or shared with every other project on this machine. A shared cache carries no project key, so one Cargo registry or npm cache is populated once and reused everywhere.",
        ),
        NativeProperty::GitPath => json_text(
            "The file to include from within the repository. Defaults to ratect-bundle.toml, then batect-bundle.yml.",
        ),
        NativeProperty::NestedGit => json_text(
            "Let this bundle declare Git includes of its own, fetching configuration from remotes you have not named. Refused by default. Applies only to the bundle named here — the bundles it admits cannot pass the permission on — and only when set in your own configuration. Defaults to false.",
        ),
        NativeProperty::Extends => json_text(
            "Inherit every field from another container by name, then override only the fields set here — ratect's native replacement for YAML anchors. Shallow and per-field: a field set here replaces the inherited one; a field left unset is taken from the named container.",
        ),
        NativeProperty::Image => json_text(
            "The image to run, in Docker's own `name:tag` form. Supports expressions, so a tag can be chosen per run — e.g. \"my-repo/my-image:${IMAGE_TAG:-latest}\". Usually paired with `build_directory` as the alternative, though `extends` makes both — or neither — legal on one container.",
        ),
    };
    let first = match which {
        NativeProperty::CacheScope => {
            let mut values: Vec<Json> = Vec::new();
            values.push(json_text("project"));
            values.push(json_text("shared"));
            ("enum".to_string(), Json::Array(values))
        },
        NativeProperty::GitPath => ("type".to_string(), json_text("string")),
        NativeProperty::NestedGit => ("type".to_string(), json_text("boolean")),
        NativeProperty::Extends => ("type".to_string(), json_text("string")),
        NativeProperty::Image => {
            let mut values: Vec<Json> = Vec::new();
            values.push(json_text("string"));
            values.push(json_text("null"));
            ("type".to_string(), Json::Array(values))
        },
    };
    let mut entries: Vec<(String, Json)> = Vec::new();
    entries.push(first);
    entries.push(("description".to_string(), description));
    Json::Object(entries)
}

/// Replaces the value of the entry at `j` with `value`, keeping its key,
/// and returns the value it had.
fn replace_value(entries: &mut Vec<(String, Json)>, j: usize, value: Json) -> (previous: Json)
    requires
        j < old(entries)@.len(),
    ensures
        final(entries)@ == old(entries)@.update(j as int, (old(entries)@[j as int].0, value)),
        previous == old(entries)@[j as int].1,
{
    let (key, previous) = entries.remove(j);
    entries.insert(j, (key, value));
    assert(final(entries)@ =~= old(entries)@.update(j as int, (old(entries)@[j as int].0, value)));
    previous
}

/// Whether two entry lists have the same keys in the same order.
pub open spec fn same_keys(a: Seq<(String, Json)>, b: Seq<(String, Json)>) -> bool {
    a.len() == b.len() && forall|j: int| 0 <= j < a.len() ==> #[trigger] a[j].0 == b[j].0
}

/// Entries with the same keys find every key at the same place.
proof fn lemma_same_keys_same_index(a: Seq<(String, Json)>, b: Seq<(String, Json)>, key: Seq<char>)
    requires
        same_keys(a, b),
    ensures
        entry_index(a, key) == entry_index(b, key),
    decreases a.len(),
{
    if a.len() > 0 {
        assert(a[0].0 == b[0].0);
        assert(same_keys(a.drop_first(), b.drop_first())) by {
            assert forall|j: int| 0 <= j < a.drop_first().len() implies #[trigger] a.drop_first()[j].0
                == b.drop_first()[j].0 by {
                assert(a[j + 1].0 == b[j + 1].0);
            }
        }
        lemma_same_keys_same_index(a.drop_first(), b.drop_first(), key);
    }
}

/// Whether `after` is `before` with the entry `key` set to the schema of
/// `which`: in place where `before` has one, appended where it has none.
pub open spec fn inserted(
    before: Seq<(String, Json)>,
    after: Seq<(String, Json)>,
    key: Seq<char>,
    which: NativeProperty,
) -> bool {
    let i = entry_index(before, key);
    if i >= 0 {
        &&& after.len() == before.len()
        &&& forall|j: int| 0 <= j < before.len() && j != i ==> #[trigger] after[j] == before[j]
        &&& after[i].0 == before[i].0
        &&& native_schema(which, after[i].1)
    } else {
        &&& after.len() == before.len() + 1
        &&& forall|j: int| 0 <= j < before.len() ==> #[trigger] after[j] == before[j]
        &&& after[before.len() as int].0@ == key
        &&& native_schema(which, after[before.len() as int].1)
    }
}

/// Sets the entry `key` of `entries` to the schema of `which`, as
/// `serde_json::Map::insert` does.
fn insert_entry(entries: &mut Vec<(String, Json)>, key: &str, which: NativeProperty)
    ensures
        inserted(old(entries)@, final(entries)@, key@, which),
{
    match find_entry(entries, key) {
        Some(i) => {
            replace_value(entries, i, native_schema_value(which));
        },
        None => {
            entries.push((key.to_string(), native_schema_value(which)));
        },
    }
}

/// Whether `a` and `b` are the same value, the elements of an array or
/// the entries of an object compared as they stand.
pub open spec fn same_json(a: Json, b: Json) -> bool {
    match (a, b) {
        (Json::Array(x), Json::Array(y)) => x@ == y@,
        (Json::Object(x), Json::Object(y)) => x@ == y@,
        _ => a == b,
    }
}

/// Whether `form` is the compact string form of a field: its `type` is
/// `"string"`.
pub open spec fn is_string_form(form: Json) -> bool {
    field_of(form, "type"@) matches Some(t) && t matches Json::Text(x) && x@ == "string"@
}

/// Whether `form` is the compact string form.
fn string_form(form: &Json) -> (string: bool)
    ensures
        string == is_string_form(*form),
{
    match form {
        Json::Object(entries) => match find_entry(entries, "type") {
            Some(i) => match &entries[i].1 {
                Json::Text(t) => crate::text::str_eq(t.as_str(), "string"),
                _ => false,
            },
            None => false,
        },
        _ => false,
    }
}

/// The forms that are not the compact string form, in order.
pub open spec fn kept_forms(forms: Seq<Json>) -> Seq<Json>
    decreases forms.len(),
{
    if forms.len() == 0 {
        Seq::empty()
    } else if is_string_form(forms.last()) {
        kept_forms(forms.drop_last())
    } else {
        kept_forms(forms.drop_last()).push(forms.last())
    }
}

/// Whether `after` is `before` with the compact string form dropped from
/// its `oneOf`, and the `oneOf` unwrapped where a single form remains.
pub open spec fn shorthand_dropped(before: Json, after: Json) -> bool {
    match before {
        Json::Object(entries) => {
            let i = entry_index(entries@, "oneOf"@);
            if i >= 0 && entries@[i].1 is Array {
                let kept = kept_forms(entries@[i].1->Array_0@);
                if kept.len() == 1 {
                    after == kept[0]
                } else {
                    &&& after matches Json::Object(out)
                    &&& after->Object_0@.len() == entries@.len()
                    &&& forall|j: int|
                        0 <= j < entries@.len() && j != i ==> #[trigger] after->Object_0@[j] == entries@[j]
                    &&& after->Object_0@[i].0 == entries@[i].0
                    &&& after->Object_0@[i].1 matches Json::Array(items)
                    &&& after->Object_0@[i].1->Array_0@ == kept
                }
            } else {
                same_json(after, before)
            }
        },
        _ => same_json(after, before),
    }
}

/// Removes the `type: string` shorthand from a definition's `oneOf` of
/// accepted forms, leaving the object forms; a single remaining form is
/// unwrapped, so the definition is that object.
pub fn drop_string_shorthand(definition: Json) -> (dropped: Json)
    ensures
        shorthand_dropped(definition, dropped),
{
    let ghost before = definition;
    match definition {
        Json::Object(entries) => {
            let mut entries = entries;
            let i = match find_entry(&entries, "oneOf") {
                Some(i) => i,
                None => {
                    return Json::Object(entries);
                },
            };
            let ghost initial = entries@;
            let ghost entries_before = entries;
            let value = replace_value(&mut entries, i, Json::Null);
            match value {
                Json::Array(forms) => {
                    let ghost all = forms@;
                    assert(before == Json::Object(entries_before));
                    assert(entries_before@ == initial);
                    assert(initial[i as int].1 == Json::Array(forms));
                    assert(initial[i as int].1->Array_0@ == all);
                    let mut kept: Vec<Json> = Vec::new();
                    for form in it: forms.into_iter()
                        invariant
                            it.seq() == all,
                            kept@ == kept_forms(all.take(it.index() as int)),
                    {
                        let ghost k = it.index();
                        assert(all.take(k + 1).drop_last() =~= all.take(k));
                        assert(all.take(k + 1).last() == form);
                        if !string_form(&form) {
                            kept.push(form);
                        }
                    }
                    assert(all.take(all.len() as int) =~= all);
                    if kept.len() == 1 {
                        let ghost single = kept@[0];
                        let only = kept.pop();
                        assert(only == Some(single));
                        match only {
                            Some(form) => {
                                assert(kept_forms(initial[i as int].1->Array_0@).len() == 1);
                                assert(form == kept_forms(initial[i as int].1->Array_0@)[0]);
                                assert(shorthand_dropped(before, form));
                                form
                            },
                            None => Json::Null,
                        }
                    } else {
                        replace_value(&mut entries, i, Json::Array(kept));
                        proof {
                            assert(entries@ =~= initial.update(i as int, (initial[i as int].0, entries@[i as int].1)));
                        }
                        let result = Json::Object(entries);
                        assert(shorthand_dropped(before, result));
                        result
                    }
                },
                other => {
                    replace_value(&mut entries, i, other);
                    assert(entries@ =~= initial);
                    let result = Json::Object(entries);
                    assert(shorthand_dropped(before, result));
                    result
                },
            }
        },
        other => other,
    }
}

/// Whether `form` is the one form of a tagged `oneOf` whose `type` const is
/// `tag`: its `properties.type.const` is that text.
pub open spec fn tagged(form: Json, tag: Seq<char>) -> bool {
    &&& field_of(form, "properties"@) is Some
    &&& field_of(field_of(form, "properties"@).unwrap(), "type"@) is Some
    &&& field_of(field_of(field_of(form, "properties"@).unwrap(), "type"@).unwrap(), "const"@) is Some
    &&& field_of(field_of(field_of(form, "properties"@).unwrap(), "type"@).unwrap(), "const"@).unwrap() matches Json::Text(
        c,
    ) && c@ == tag
}

/// The value of `value`'s field `key`, where it is an object with one.
fn get_field<'a>(value: &'a Json, key: &str) -> (field: Option<&'a Json>)
    ensures
        field is Some <==> field_of(*value, key@) is Some,
        field matches Some(f) ==> *f == field_of(*value, key@).unwrap(),
{
    match value {
        Json::Object(entries) => match find_entry(entries, key) {
            Some(i) => Some(&entries[i].1),
            None => None,
        },
        _ => None,
    }
}

/// Whether `form` is tagged `tag`.
fn is_tagged(form: &Json, tag: &str) -> (is: bool)
    ensures
        is == tagged(*form, tag@),
{
    let properties = match get_field(form, "properties") {
        Some(p) => p,
        None => {
            return false;
        },
    };
    let kind = match get_field(properties, "type") {
        Some(t) => t,
        None => {
            return false;
        },
    };
    match get_field(kind, "const") {
        Some(Json::Text(c)) => crate::text::str_eq(c.as_str(), tag),
        _ => false,
    }
}

/// Whether `after` is the form `before` with the property `property` set
/// to the schema of `which` where `before` is tagged `tag` and has an
/// object of properties; otherwise `before` as it is.
pub open spec fn form_extended(
    before: Json,
    after: Json,
    tag: Seq<char>,
    property: Seq<char>,
    which: NativeProperty,
) -> bool {
    if tagged(before, tag) && field_of(before, "properties"@).unwrap() is Object {
        let e = before->Object_0@;
        let i = entry_index(e, "properties"@);
        &&& after matches Json::Object(out)
        &&& after->Object_0@.len() == e.len()
        &&& forall|j: int| 0 <= j < e.len() && j != i ==> #[trigger] after->Object_0@[j] == e[j]
        &&& after->Object_0@[i].0 == e[i].0
        &&& after->Object_0@[i].1 matches Json::Object(np)
        &&& inserted(e[i].1->Object_0@, after->Object_0@[i].1->Object_0@, property, which)
    } else {
        same_json(after, before)
    }
}

/// Sets `property` in a form tagged `tag`.
fn extend_form(form: Json, tag: &str, property: &str, which: NativeProperty) -> (extended: Json)
    ensures
        form_extended(form, extended, tag@, property@, which),
{
    if !is_tagged(&form, tag) {
        return form;
    }
    let ghost before = form;
    match form {
        Json::Object(entries) => {
            let mut entries = entries;
            let ghost initial = entries@;
            match find_entry(&entries, "properties") {
                Some(i) => {
                    let value = replace_value(&mut entries, i, Json::Null);
                    match value {
                        Json::Object(props) => {
                            let mut props = props;
                            insert_entry(&mut props, property, which);
                            replace_value(&mut entries, i, Json::Object(props));
                            Json::Object(entries)
                        },
                        other => {
                            replace_value(&mut entries, i, other);
                            assert(entries@ =~= initial);
                            Json::Object(entries)
                        },
                    }
                },
                None => Json::Object(entries),
            }
        },
        other => other,
    }
}

/// Whether `after` is the definition `before` with `property` set to the
/// schema of `which` in its form tagged `tag`: each form of its `oneOf`, or
/// the definition itself where it has no `oneOf` (a single remaining form
/// having been unwrapped).
pub open spec fn property_added(
    before: Json,
    after: Json,
    tag: Seq<char>,
    property: Seq<char>,
    which: NativeProperty,
) -> bool {
    if before is Object && entry_index(before->Object_0@, "oneOf"@) >= 0 && before->Object_0@[entry_index(
        before->Object_0@,
        "oneOf"@,
    )].1 is Array {
        let e = before->Object_0@;
        let i = entry_index(e, "oneOf"@);
        let forms = e[i].1->Array_0@;
        &&& after matches Json::Object(out)
        &&& after->Object_0@.len() == e.len()
        &&& forall|j: int| 0 <= j < e.len() && j != i ==> #[trigger] after->Object_0@[j] == e[j]
        &&& after->Object_0@[i].0 == e[i].0
        &&& after->Object_0@[i].1 matches Json::Array(nf)
        &&& after->Object_0@[i].1->Array_0@.len() == forms.len()
        &&& forall|k: int|
            0 <= k < forms.len() ==> form_extended(
                #[trigger] forms[k],
                after->Object_0@[i].1->Array_0@[k],
                tag,
                property,
                which,
            )
    } else {
        form_extended(before, after, tag, property, which)
    }
}

/// Adds the native-only `property` to the one form of a tagged `oneOf`
/// whose `type` const is `tag`, found by its tag rather than its position.
/// Such fields are kept out of the Batect-compatible schema, since Batect
/// has no such field.
pub fn add_native_property(definition: Json, tag: &str, property: &str, which: NativeProperty) -> (added: Json)
    ensures
        property_added(definition, added, tag@, property@, which),
{
    let ghost before = definition;
    match definition {
        Json::Object(entries) => {
            let mut entries = entries;
            let ghost initial = entries@;
            match find_entry(&entries, "oneOf") {
                Some(i) => {
                    let value = replace_value(&mut entries, i, Json::Null);
                    match value {
                        Json::Array(forms) => {
                            let ghost all = forms@;
                            let mut extended: Vec<Json> = Vec::new();
                            for form in it: forms.into_iter()
                                invariant
                                    it.seq() == all,
                                    extended@.len() == it.index(),
                                    forall|k: int|
                                        0 <= k < extended@.len() ==> form_extended(
                                            #[trigger] all[k],
                                            extended@[k],
                                            tag@,
                                            property@,
                                            which,
                                        ),
                            {
                                let ghost k = it.index();
                                assert(form == all[k]);
                                extended.push(extend_form(form, tag, property, which));
                            }
                            replace_value(&mut entries, i, Json::Array(extended));
                            Json::Object(entries)
                        },
                        other => {
                            replace_value(&mut entries, i, other);
                            assert(entries@ =~= initial);
                            let whole = Json::Object(entries);
                            let result = extend_form(whole, tag, property, which);
                            assert(form_extended(before, result, tag@, property@, which));
                            result
                        },
                    }
                },
                None => {
                    let whole = Json::Object(entries);
                    let result = extend_form(whole, tag, property, which);
                    assert(form_extended(before, result, tag@, property@, which));
                    result
                },
            }
        },
        other => extend_form(other, tag, property, which),
    }
}

/// Whether `after` is the container definition `before` with the native
/// `extends` field added to its properties and its `image` description
/// corrected, where it has an object of properties; otherwise `before`.
pub open spec fn container_extended(before: Json, after: Json) -> bool {
    if field_of(before, "properties"@) matches Some(p) && p is Object {
        let e = before->Object_0@;
        let i = entry_index(e, "properties"@);
        &&& after matches Json::Object(out)
        &&& after->Object_0@.len() == e.len()
        &&& forall|j: int| 0 <= j < e.len() && j != i ==> #[trigger] after->Object_0@[j] == e[j]
        &&& after->Object_0@[i].0 == e[i].0
        &&& after->Object_0@[i].1 matches Json::Object(np)
        &&& exists|mid: Seq<(String, Json)>|
            #![trigger inserted(e[i].1->Object_0@, mid, "extends"@, NativeProperty::Extends)]
            inserted(e[i].1->Object_0@, mid, "extends"@, NativeProperty::Extends) && inserted(
                mid,
                after->Object_0@[i].1->Object_0@,
                "image"@,
                NativeProperty::Image,
            )
    } else {
        same_json(after, before)
    }
}

/// Adds the native-only `extends` field to a container definition, and
/// corrects its `image` description: this format resolves expressions in
/// `image`, and `extends` lifts the rule that exactly one of `image` and
/// `build_directory` is set.
fn extend_container(definition: Json) -> (extended: Json)
    ensures
        container_extended(definition, extended),
{
    let ghost before = definition;
    match definition {
        Json::Object(entries) => {
            let mut entries = entries;
            let ghost initial = entries@;
            match find_entry(&entries, "properties") {
                Some(i) => {
                    let value = replace_value(&mut entries, i, Json::Null);
                    match value {
                        Json::Object(props) => {
                            let mut props = props;
                            let ghost start = props@;
                            insert_entry(&mut props, "extends", NativeProperty::Extends);
                            let ghost mid = props@;
                            insert_entry(&mut props, "image", NativeProperty::Image);
                            replace_value(&mut entries, i, Json::Object(props));
                            let result = Json::Object(entries);
                            assert(inserted(start, mid, "extends"@, NativeProperty::Extends));
                            result
                        },
                        other => {
                            replace_value(&mut entries, i, other);
                            assert(entries@ =~= initial);
                            Json::Object(entries)
                        },
                    }
                },
                None => Json::Object(entries),
            }
        },
        other => other,
    }
}

/// Whether a definition named `name` became `new` from `old` in the native
/// schema: the compact string forms dropped for port mappings, device
/// mounts, volume mounts and includes; a cache volume's `scope` added; an
/// include's `path` corrected and `allow_nested_git_includes` added; a
/// container's `extends` added; any other definition untouched.
pub open spec fn native_step(name: Seq<char>, old: Json, new: Json) -> bool {
    if name == "PortMapping"@ || name == "DeviceMount"@ {
        shorthand_dropped(old, new)
    } else if name == "VolumeMount"@ {
        exists|m: Json|
            #![trigger shorthand_dropped(old, m)]
            shorthand_dropped(old, m) && property_added(m, new, "cache"@, "scope"@, NativeProperty::CacheScope)
    } else if name == "Include"@ {
        exists|m1: Json, m2: Json|
            #![trigger shorthand_dropped(old, m1), property_added(m1, m2, "git"@, "path"@, NativeProperty::GitPath)]
            shorthand_dropped(old, m1) && property_added(m1, m2, "git"@, "path"@, NativeProperty::GitPath)
                && property_added(m2, new, "git"@, "allow_nested_git_includes"@, NativeProperty::NestedGit)
    } else if name == "Container"@ {
        container_extended(old, new)
    } else {
        new == old
    }
}

/// Whether the definition at `j` of `defs` became `new`: the first
/// definition of each name is made native, a later one of the same name is
/// untouched.
pub open spec fn definition_made_native(defs: Seq<(String, Json)>, j: int, old: Json, new: Json) -> bool {
    if entry_index(defs, defs[j].0@) == j {
        native_step(defs[j].0@, old, new)
    } else {
        new == old
    }
}

/// Whether `after` is the schema `before` in the native format's shape:
/// each of its `definitions` made native, everything else untouched.
pub open spec fn made_native(before: Json, after: Json) -> bool {
    if field_of(before, "definitions"@) matches Some(d) && d is Object {
        let e = before->Object_0@;
        let i = entry_index(e, "definitions"@);
        let defs = e[i].1->Object_0@;
        &&& after matches Json::Object(out)
        &&& after->Object_0@.len() == e.len()
        &&& forall|j: int| 0 <= j < e.len() && j != i ==> #[trigger] after->Object_0@[j] == e[j]
        &&& after->Object_0@[i].0 == e[i].0
        &&& after->Object_0@[i].1 matches Json::Object(nd)
        &&& after->Object_0@[i].1->Object_0@.len() == defs.len()
        &&& forall|j: int|
            0 <= j < defs.len() ==> #[trigger] after->Object_0@[i].1->Object_0@[j].0 == defs[j].0
                && definition_made_native(defs, j, defs[j].1, after->Object_0@[i].1->Object_0@[j].1)
    } else {
        same_json(after, before)
    }
}

/// Whether each of `out` is the definition at the same place of `defs`
/// made native.
pub open spec fn prefix_made_native(defs: Seq<(String, Json)>, out: Seq<(String, Json)>) -> bool {
    forall|m: int|
        0 <= m < out.len() ==> #[trigger] out[m].0 == defs[m].0 && definition_made_native(defs, m, defs[m].1, out[m].1)
}

/// The definition named `name` made native.
fn make_definition_native(name: &str, old: Json) -> (new: Json)
    ensures
        native_step(name@, old, new),
{
    if crate::text::str_eq(name, "PortMapping") || crate::text::str_eq(name, "DeviceMount") {
        drop_string_shorthand(old)
    } else if crate::text::str_eq(name, "VolumeMount") {
        let dropped = drop_string_shorthand(old);
        let ghost m = dropped;
        let added = add_native_property(dropped, "cache", "scope", NativeProperty::CacheScope);
        assert(shorthand_dropped(old, m));
        added
    } else if crate::text::str_eq(name, "Include") {
        let dropped = drop_string_shorthand(old);
        let ghost m1 = dropped;
        let with_path = add_native_property(dropped, "git", "path", NativeProperty::GitPath);
        let ghost m2 = with_path;
        let added = add_native_property(with_path, "git", "allow_nested_git_includes", NativeProperty::NestedGit);
        assert(shorthand_dropped(old, m1) && property_added(m1, m2, "git"@, "path"@, NativeProperty::GitPath));
        added
    } else if crate::text::str_eq(name, "Container") {
        extend_container(old)
    } else {
        old
    }
}

/// Transforms the Batect-compatible schema into the native format's: the
/// list entries become object-only, and a container gains `extends`.
/// Everything else is identical, since both formats parse into the same
/// configuration.
#[verifier::spinoff_prover]
pub fn make_native(json: Json) -> (native: Json)
    ensures
        made_native(json, native),
{
    let ghost before = json;
    match json {
        Json::Object(entries) => {
            let mut entries = entries;
            let ghost initial = entries@;
            let i = match find_entry(&entries, "definitions") {
                Some(i) => i,
                None => {
                    return Json::Object(entries);
                },
            };
            let value = replace_value(&mut entries, i, Json::Null);
            match value {
                Json::Object(defs) => {
                    let ghost all = defs@;
                    let mut out: Vec<(String, Json)> = Vec::new();
                    for entry in it: defs.into_iter()
                        invariant
                            it.seq() == all,
                            out@.len() == it.index(),
                            prefix_made_native(all, out@),
                    {
                        let ghost k = it.index();
                        assert(entry == all[k]);
                        let (key, old) = entry;
                        assert(key == all[k].0 && old == all[k].1);
                        let first = find_entry(&out, key.as_str()).is_none();
                        proof {
                            if first {
                                assert forall|m: int| 0 <= m < k implies #[trigger] all[m].0@ != key@ by {
                                    assert(out@[m].0 == all[m].0);
                                }
                                lemma_entry_index(all, key@, k);
                            } else {
                                let m = entry_index(out@, key@);
                                assert(out@[m].0@ == key@);
                                assert(all[m].0 == out@[m].0);
                                lemma_entry_index_at_most(all, key@, m);
                            }
                        }
                        let new = if first {
                            make_definition_native(key.as_str(), old)
                        } else {
                            old
                        };
                        proof {
                            if first {
                                assert(entry_index(all, all[k].0@) == k);
                            } else {
                                assert(entry_index(all, all[k].0@) < k);
                            }
                            assert(definition_made_native(all, k, all[k].1, new));
                        }
                        let ghost prev = out@;
                        out.push((key, new));
                        proof {
                            assert forall|m: int| 0 <= m < out@.len() implies #[trigger] out@[m].0 == all[m].0
                                && definition_made_native(all, m, all[m].1, out@[m].1) by {
                                if m < k {
                                    assert(out@[m] == prev[m]);
                                }
                            }
                            assert(prefix_made_native(all, out@));
                        }
                    }
                    replace_value(&mut entries, i, Json::Object(out));
                    Json::Object(entries)
                },
                other => {
                    replace_value(&mut entries, i, other);
                    assert(entries@ =~= initial);
                    Json::Object(entries)
                },
            }
        },
        other => other,
    }
}

/// A key that is at `m` is first found no later than `m`.
proof fn lemma_entry_index_at_most(entries: Seq<(String, Json)>, key: Seq<char>, m: int)
    requires
        0 <= m < entries.len(),
        entries[m].0@ == key,
    ensures
        0 <= entry_index(entries, key) <= m,
    decreases entries.len(),
{
    if m > 0 && entries[0].0@ != key {
        assert(entries.drop_first()[m - 1] == entries[m]);
        lemma_entry_index_at_most(entries.drop_first(), key, m - 1);
    }
}

/// Whether `after` is `before` with the entry `key` set: in place where
/// `before` has one, appended where it has none; every other entry kept.
pub open spec fn entry_set(before: Seq<(String, Json)>, after: Seq<(String, Json)>, key: Seq<char>) -> bool {
    let i = entry_index(before, key);
    if i >= 0 {
        &&& after.len() == before.len()
        &&& forall|j: int| 0 <= j < before.len() && j != i ==> #[trigger] after[j] == before[j]
        &&& after[i].0 == before[i].0
    } else {
        &&& after.len() == before.len() + 1
        &&& forall|j: int| 0 <= j < before.len() ==> #[trigger] after[j] == before[j]
        &&& after[before.len() as int].0@ == key
    }
}

/// The value the entry `key` was set to, going from `before` to `after`.
pub open spec fn set_value(before: Seq<(String, Json)>, after: Seq<(String, Json)>, key: Seq<char>) -> Json {
    if entry_index(before, key) >= 0 {
        after[entry_index(before, key)].1
    } else {
        after[before.len() as int].1
    }
}

/// Whether `value` is the text `text`.
pub open spec fn is_text(value: Json, text: Seq<char>) -> bool {
    value matches Json::Text(t) && t@ == text
}

/// Sets the entry `key` of `entries` to `value`, as
/// `serde_json::Map::insert` does.
fn set_entry(entries: &mut Vec<(String, Json)>, key: &str, value: Json)
    ensures
        entry_set(old(entries)@, final(entries)@, key@),
        set_value(old(entries)@, final(entries)@, key@) == value,
{
    match find_entry(entries, key) {
        Some(i) => {
            replace_value(entries, i, value);
        },
        None => {
            entries.push((key.to_string(), value));
        },
    }
}

/// The description the Batect-compatible schema gives itself.
pub open spec fn compat_description() -> Seq<char> {
    "A Ratect (batect-compatible) task configuration file. Describes the subset of Batect's own configuration format that Ratect actually accepts — see https://github.com/or1can/ratect/blob/main/docs/differences-from-batect.md"@
}

/// The description the native schema gives itself.
pub open spec fn native_root_description() -> Seq<char> {
    "A ratect.toml native task configuration file — the format the `ratect` binary reads by default. See https://github.com/or1can/ratect/blob/main/docs/ratect-config-reference.md"@
}

/// What an extension key's schema says of it.
pub open spec fn extension_description() -> Seq<char> {
    "An extension: ignored by Ratect, and used only to hold a YAML anchor that the rest of the file aliases."@
}

/// Whether `value` admits Batect extensions: a top-level key starting with
/// `.` holds an anchor for the rest of the file and is otherwise ignored.
pub open spec fn extension_pattern(value: Json) -> bool {
    &&& value matches Json::Object(p)
    &&& value->Object_0@.len() == 1
    &&& value->Object_0@[0].0@ == "^\\."@
    &&& value->Object_0@[0].1 matches Json::Object(d)
    &&& value->Object_0@[0].1->Object_0@.len() == 1
    &&& text_entry(value->Object_0@[0].1->Object_0@[0], "description"@, extension_description())
}

/// The pattern admitting Batect extensions.
fn extension_pattern_value() -> (value: Json)
    ensures
        extension_pattern(value),
{
    let mut description: Vec<(String, Json)> = Vec::new();
    description.push(
        (
            "description".to_string(),
            json_text(
                "An extension: ignored by Ratect, and used only to hold a YAML anchor that the rest of the file aliases.",
            ),
        ),
    );
    let mut pattern: Vec<(String, Json)> = Vec::new();
    pattern.push(("^\\.".to_string(), Json::Object(description)));
    Json::Object(pattern)
}

/// Whether `after` is the root schema `before` with its title and
/// description set.
pub open spec fn titled(
    before: Seq<(String, Json)>,
    after: Seq<(String, Json)>,
    title: Seq<char>,
    description: Seq<char>,
) -> bool {
    exists|m: Seq<(String, Json)>|
        #![trigger entry_set(before, m, "title"@)]
        entry_set(before, m, "title"@) && is_text(set_value(before, m, "title"@), title) && entry_set(
            m,
            after,
            "description"@,
        ) && is_text(set_value(m, after, "description"@), description)
}

/// The schema for a Batect-compatible `batect.yml`, from the one generated
/// for a configuration file: descriptions summarized, titled and described,
/// and admitting Batect's `.`-prefixed extension keys, which
/// `additionalProperties: false` would otherwise refuse.
pub fn config_file_schema(generated: Json) -> (schema: Json)
    requires
        generated is Object,
    ensures
        exists|s: Json|
            #![trigger summarized(generated, s)]
            summarized(generated, s) && s is Object && schema is Object && exists|m: Seq<(String, Json)>|
                #![trigger titled(s->Object_0@, m, "Ratect configuration"@, compat_description())]
                titled(s->Object_0@, m, "Ratect configuration"@, compat_description()) && entry_set(
                    m,
                    schema->Object_0@,
                    "patternProperties"@,
                ) && extension_pattern(set_value(m, schema->Object_0@, "patternProperties"@)),
{
    let summarized_schema = summarize_descriptions(generated);
    let ghost s = summarized_schema;
    match summarized_schema {
        Json::Object(entries) => {
            let mut entries = entries;
            let ghost start = entries@;
            set_entry(&mut entries, "title", json_text("Ratect configuration"));
            let ghost after_title = entries@;
            set_entry(
                &mut entries,
                "description",
                json_text(
                    "A Ratect (batect-compatible) task configuration file. Describes the subset of Batect's own configuration format that Ratect actually accepts — see https://github.com/or1can/ratect/blob/main/docs/differences-from-batect.md",
                ),
            );
            let ghost m = entries@;
            set_entry(&mut entries, "patternProperties", extension_pattern_value());
            let result = Json::Object(entries);
            assert(entry_set(start, after_title, "title"@));
            assert(titled(start, m, "Ratect configuration"@, compat_description()));
            assert(summarized(generated, s));
            result
        },
        other => other,
    }
}

/// The schema for a native `ratect.toml`, from the one generated for a
/// configuration file: descriptions summarized, made native (see
/// [`make_native`]), titled and described.
pub fn native_config_file_schema(generated: Json) -> (schema: Json)
    requires
        generated is Object,
    ensures
        exists|s: Json, n: Json|
            #![trigger summarized(generated, s), made_native(s, n)]
            summarized(generated, s) && made_native(s, n) && n is Object && schema is Object && titled(
                n->Object_0@,
                schema->Object_0@,
                "Ratect native configuration"@,
                native_root_description(),
            ),
{
    let summarized_schema = summarize_descriptions(generated);
    let ghost s = summarized_schema;
    let native = make_native(summarized_schema);
    let ghost n = native;
    match native {
        Json::Object(entries) => {
            let mut entries = entries;
            let ghost start = entries@;
            set_entry(&mut entries, "title", json_text("Ratect native configuration"));
            set_entry(
                &mut entries,
                "description",
                json_text(
                    "A ratect.toml native task configuration file — the format the `ratect` binary reads by default. See https://github.com/or1can/ratect/blob/main/docs/ratect-config-reference.md",
                ),
            );
            let result = Json::Object(entries);
            assert(summarized(generated, s) && made_native(s, n));
            result
        },
        other => other,
    }
}

} // verus!
