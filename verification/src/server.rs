//! The logic of the tool surface that is independent of the transport: the
//! glob filter on read lines, the `format` switch, and the concise text
//! rendering of a JSON result.
use vstd::prelude::*;

use crate::glob::{
    all_plain, glob_test_each, lemma_tested_each_answers, named_answers_each, outcomes, outcomes_of,
    plain, tested_each, GlobTest,
};
use crate::text::join_strings;
use crate::types::views;

verus! {

/// The lines whose outcome (one per line, in order) is a match.
pub open spec fn kept(lines: Seq<Seq<char>>, outcomes: Seq<Option<bool>>) -> Seq<Seq<char>>
    decreases lines.len(),
{
    if lines.len() == 0 {
        Seq::empty()
    } else {
        let rest = kept(lines.drop_last(), outcomes.drop_last());
        if outcomes.last() == Some(true) {
            rest.push(lines.last())
        } else {
            rest
        }
    }
}

/// Keeps the lines whose outcome is a match, in order.
pub fn keep_matching(lines: Vec<String>, outcomes: &Vec<Option<bool>>) -> (k: Vec<String>)
    requires
        outcomes@.len() == lines@.len(),
    ensures
        views(k@) == kept(views(lines@), outcomes@),
{
    let ghost all = views(lines@);
    let mut k: Vec<String> = Vec::new();
    let mut i: usize = 0;
    while i < lines.len()
        invariant
            i <= lines@.len(),
            outcomes@.len() == lines@.len(),
            all == views(lines@),
            views(k@) == kept(all.take(i as int), outcomes@.take(i as int)),
        decreases lines@.len() - i,
    {
        proof {
            assert(all.take(i + 1).drop_last() =~= all.take(i as int));
            assert(outcomes@.take(i + 1).drop_last() =~= outcomes@.take(i as int));
            assert(all.take(i + 1).last() == lines@[i as int]@);
        }
        if outcomes[i] == Some(true) {
            k.push(lines[i].clone());
            assert(views(k@) =~= kept(all.take(i as int), outcomes@.take(i as int)).push(
                lines@[i as int]@,
            ));
        }
        i = i + 1;
    }
    assert(all.take(lines@.len() as int) =~= all);
    assert(outcomes@.take(lines@.len() as int) =~= outcomes@);
    k
}

/// Apply an optional glob filter to a set of lines.
///
/// A `None` pattern returns the lines unchanged. Otherwise each line is tested
/// against the glob (what it matches is globset's) and the matching lines are
/// kept in order; a pattern that fails to compile matches nothing.
pub fn filter_lines(lines: Vec<String>, pattern: Option<&str>) -> (k: Vec<String>)
    ensures
        match pattern {
            None => views(k@) == views(lines@),
            Some(p) => exists|tests: Seq<GlobTest>|
                tested_each(tests, p@, views(lines@)) && views(k@) == #[trigger] kept(
                    views(lines@),
                    outcomes(tests),
                ),
        },
        pattern matches Some(p) && plain(p@) && all_plain(views(lines@)) ==> views(k@) == kept(
            views(lines@),
            named_answers_each(pattern->0@, views(lines@)),
        ),
{
    match pattern {
        None => lines,
        Some(p) => {
            let tests = glob_test_each(p, &lines);
            let answers = outcomes_of(&tests);
            let ghost all = views(lines@);
            let k = keep_matching(lines, &answers);
            assert(views(k@) == kept(all, outcomes(tests@)));
            proof {
                if plain(p@) && all_plain(all) {
                    lemma_tested_each_answers(tests@, p@, all);
                }
            }
            k
        },
    }
}

/// The default of the boolean tool flags (`raw`, `cleanup`, `notify_on_exit`).
pub fn default_false() -> (b: bool)
    ensures
        !b,
{
    false
}

/// Normalise the optional `format` field to `"json"` vs anything-else (text).
pub fn is_json(format: &Option<String>) -> (j: bool)
    ensures
        j == (format matches Some(f) && f@ == "json"@),
{
    match format {
        Some(f) => *f == String::from_str("json"),
        None => false,
    }
}

/// The lines of a read, one per line of text.
pub fn join_lines(lines: &Vec<String>) -> (text: String)
    ensures
        text@ == crate::text::join(views(lines@), "\n"@),
{
    let t = join_strings(lines.as_slice(), "\n");
    assert(lines@.map_values(|p: String| p@) =~= views(lines@));
    t
}

/// The text of a read: the lines the optional glob keeps, one per line.
pub fn read_text(lines: Vec<String>, pattern: Option<&str>) -> (text: String)
    ensures
        match pattern {
            None => text@ == crate::text::join(views(lines@), "\n"@),
            Some(p) => exists|tests: Seq<GlobTest>|
                tested_each(tests, p@, views(lines@)) && text@ == crate::text::join(
                    #[trigger] kept(views(lines@), outcomes(tests)),
                    "\n"@,
                ),
        },
        pattern matches Some(p) && plain(p@) && all_plain(views(lines@)) ==> text@
            == crate::text::join(
            kept(views(lines@), named_answers_each(pattern->0@, views(lines@))),
            "\n"@,
        ),
{
    let kept_lines = filter_lines(lines, pattern);
    join_lines(&kept_lines)
}

/// A JSON value as the text renderer reads it. Values other than strings
/// carry their compact JSON text as produced by the serializer.
pub enum JsonValue {
    /// A JSON string.
    Str(String),
    /// A number, a boolean or `null`, by its JSON text.
    Scalar(String),
    /// An array: its elements, and its JSON text.
    Array(Vec<JsonValue>, String),
    /// An object: its fields in order, and its JSON text.
    Object(Vec<(String, JsonValue)>, String),
}

/// How a field value is shown: a string bare, anything else as JSON.
pub open spec fn shown_value(v: JsonValue) -> Seq<char> {
    match v {
        JsonValue::Str(s) => s@,
        JsonValue::Scalar(t) => t@,
        JsonValue::Array(_, t) => t@,
        JsonValue::Object(_, t) => t@,
    }
}

/// The line of an object field: `key: value`.
pub open spec fn field_line(key: Seq<char>, value: JsonValue) -> Seq<char> {
    key + ": "@ + shown_value(value)
}

/// The lines of an object's fields.
pub open spec fn field_lines(fields: Seq<(String, JsonValue)>) -> Seq<Seq<char>>
    decreases fields.len(),
{
    if fields.len() == 0 {
        Seq::empty()
    } else {
        field_lines(fields.drop_last()).push(field_line(fields.last().0@, fields.last().1))
    }
}

/// The concise text of a JSON value: an object as one `key: value` line per
/// field, an array as the text of each element on its own lines, a string
/// without quotes, anything else as its JSON text.
pub open spec fn human_text(v: JsonValue) -> Seq<char>
    decreases v, 0int,
{
    match v {
        JsonValue::Str(s) => s@,
        JsonValue::Scalar(t) => t@,
        JsonValue::Array(items, _) => crate::text::join(item_texts(items@), "\n"@),
        JsonValue::Object(fields, _) => crate::text::join(field_lines(fields@), "\n"@),
    }
}

/// The texts of array elements.
pub open spec fn item_texts(items: Seq<JsonValue>) -> Seq<Seq<char>>
    decreases items, 1int,
{
    if items.len() == 0 {
        Seq::empty()
    } else {
        item_texts(items.drop_last()).push(human_text(items.last()))
    }
}

/// Render a JSON value as concise human-readable text.
pub fn human(v: &JsonValue) -> (text: String)
    ensures
        text@ == human_text(*v),
    decreases v,
{
    match v {
        JsonValue::Str(s) => s.clone(),
        JsonValue::Scalar(t) => t.clone(),
        JsonValue::Array(items, _) => {
            let mut parts: Vec<String> = Vec::new();
            let mut i: usize = 0;
            while i < items.len()
                invariant
                    i <= items@.len(),
                    views(parts@) == item_texts(items@.take(i as int)),
                    *v is Array,
                    (*v)->Array_0 == *items,
                decreases items@.len() - i,
            {
                proof {
                    assert(decreases_to!(items@ => items@[i as int]));
                    assert(decreases_to!(*items => items@));
                    assert(decreases_to!(*v => (*v)->Array_0));
                }
                let part = human(&items[i]);
                parts.push(part);
                proof {
                    assert(items@.take(i + 1).drop_last() =~= items@.take(i as int));
                    assert(views(parts@) =~= item_texts(items@.take(i + 1)));
                }
                i = i + 1;
            }
            assert(items@.take(items@.len() as int) =~= items@);
            join_lines(&parts)
        },
        JsonValue::Object(fields, _) => {
            let mut parts: Vec<String> = Vec::new();
            let mut i: usize = 0;
            while i < fields.len()
                invariant
                    i <= fields@.len(),
                    views(parts@) == field_lines(fields@.take(i as int)),
                decreases fields@.len() - i,
            {
                let (key, value) = &fields[i];
                let shown = match value {
                    JsonValue::Str(s) => s.clone(),
                    JsonValue::Scalar(t) => t.clone(),
                    JsonValue::Array(_, t) => t.clone(),
                    JsonValue::Object(_, t) => t.clone(),
                };
                let line = key.clone().concat(": ").concat(shown.as_str());
                parts.push(line);
                proof {
                    assert(fields@.take(i + 1).drop_last() =~= fields@.take(i as int));
                    assert(views(parts@) =~= field_lines(fields@.take(i + 1)));
                }
                i = i + 1;
            }
            assert(fields@.take(fields@.len() as int) =~= fields@);
            join_lines(&parts)
        },
    }
}

/// The text of an array is the texts of its elements, each on its own lines:
/// adding an element after at least one other adds exactly one newline and
/// then the element's text; a single element is shown as itself, and an empty
/// array as nothing.
pub proof fn law_array_text_one_newline_between(
    items: Vec<JsonValue>,
    more: Vec<JsonValue>,
    x: JsonValue,
    t1: String,
    t2: String,
)
    requires
        more@ == items@.push(x),
    ensures
        items@.len() >= 1 ==> human_text(JsonValue::Array(more, t2)) == human_text(
            JsonValue::Array(items, t1),
        ) + seq!['\n'] + human_text(x),
        items@.len() == 0 ==> human_text(JsonValue::Array(more, t2)) == human_text(x),
        items@.len() == 0 ==> human_text(JsonValue::Array(items, t1)).len() == 0,
{
    reveal_strlit("\n");
    assert("\n"@ =~= seq!['\n']);
    assert(more@.drop_last() =~= items@);
    assert(item_texts(more@) == item_texts(items@).push(human_text(x)));
    let parts = item_texts(more@);
    assert(parts.drop_last() =~= item_texts(items@));
    if items@.len() == 0 {
        assert(item_texts(items@) =~= Seq::<Seq<char>>::empty());
        assert(parts =~= seq![human_text(x)]);
    } else {
        lemma_item_texts_len(items@);
    }
}

/// There is one text per element.
proof fn lemma_item_texts_len(items: Seq<JsonValue>)
    ensures
        item_texts(items).len() == items.len(),
    decreases items.len(),
{
    if items.len() > 0 {
        lemma_item_texts_len(items.drop_last());
    }
}

/// The text of an object is one `key: value` line per field: adding a field
/// after at least one other adds exactly one newline, then the key, `: ` and
/// the value (a string value bare).
pub proof fn law_object_text_one_line_per_field(
    fields: Vec<(String, JsonValue)>,
    more: Vec<(String, JsonValue)>,
    key: String,
    value: String,
    t1: String,
    t2: String,
)
    requires
        more@ == fields@.push((key, JsonValue::Str(value))),
    ensures
        fields@.len() >= 1 ==> human_text(JsonValue::Object(more, t2)) == human_text(
            JsonValue::Object(fields, t1),
        ) + seq!['\n'] + key@ + seq![':', ' '] + value@,
        fields@.len() == 0 ==> human_text(JsonValue::Object(more, t2)) == key@ + seq![':', ' ']
            + value@,
{
    reveal_strlit("\n");
    reveal_strlit(": ");
    assert("\n"@ =~= seq!['\n']);
    assert(": "@ =~= seq![':', ' ']);
    assert(more@.drop_last() =~= fields@);
    let parts = field_lines(more@);
    assert(parts.drop_last() =~= field_lines(fields@));
    if fields@.len() == 0 {
        assert(field_lines(fields@) =~= Seq::<Seq<char>>::empty());
        assert(parts =~= seq![field_line(key@, JsonValue::Str(value))]);
    } else {
        lemma_field_lines_len(fields@);
    }
}

/// There is one line per field.
proof fn lemma_field_lines_len(fields: Seq<(String, JsonValue)>)
    ensures
        field_lines(fields).len() == fields.len(),
    decreases fields.len(),
{
    if fields.len() > 0 {
        lemma_field_lines_len(fields.drop_last());
    }
}

} // verus!
