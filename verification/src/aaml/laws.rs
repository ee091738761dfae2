//! Facts about documents that hold for every input.

use vstd::prelude::*;
use super::DocModel;
use super::lookup::find_obj_spec;
use super::merge::{absorb, accumulate_spec, derive_spec, import_spec, inherit_spec, lines_of, merge_lines_spec, merge_spec, process_assignment_spec, process_line_spec, select_spec};
use super::parsing::{comment_at, comment_start, depth_step, first_top_level, is_close, is_open, next_quote, parse_assignment_spec, strip_comment_spec, unwrap_quotes_spec, wrapped_in};
use super::validation::{
    against_schemas_spec, apply_fields_spec, item_spec, list_items_spec, list_spec,
    resolve_type_spec, typed_field_spec, unknown_type,
};
use crate::commands::schema::SchemaModel;
use crate::types::list::parse_items_spec;
use crate::commands::derive::DeriveArg;
use crate::error::ErrorModel;
use crate::table::{contains, lemma_position, lemma_put, lemma_put_absent, lookup, position, put, put_absent};
use crate::text::{
    is_ascii_space, is_space, leading_spaces, lemma_leading_spaces, lemma_leading_spaces_first,
    lemma_trailing_spaces, lemma_trailing_spaces_last, lemma_trim_shape, trailing_spaces, trim,
    trim_end, trim_start,
};
use crate::types::list::list_inner;
use crate::types::resolve_builtin_spec;

verus! {

/// A text without `=` and without brackets.
pub open spec fn plain_key(key: Seq<char>) -> bool {
    forall|i: int|
        0 <= i < key.len() ==> (#[trigger] key[i]) != '=' && !is_open(key[i]) && !is_close(key[i])
}

/// A value that is neither a bracketed literal nor wrapped in quotes.
pub open spec fn plain_value(value: Seq<char>) -> bool {
    let t = trim(value);
    &&& !(t.len() > 0 && is_open(t[0]))
    &&& !wrapped_in(t, '"', '"')
    &&& !wrapped_in(t, '\'', '\'')
}

proof fn lemma_separator_after_key(key: Seq<char>, rest: Seq<char>, i: int)
    requires
        plain_key(key),
        0 <= i <= key.len(),
    ensures
        first_top_level(key + seq!['='] + rest, i, 0, false) == key.len(),
    decreases key.len() - i,
{
    let s = key + seq!['='] + rest;
    if i < key.len() {
        assert(s[i] == key[i]);
        lemma_separator_after_key(key, rest, i + 1);
    } else {
        assert(s[i] == '=');
    }
}

/// An assignment stores the key and the value as written, trimmed:
/// where the key holds no `=` and no bracket, the value is neither
/// bracketed nor quoted, and no schema rejects it, the line
/// `key=value` succeeds, and a lookup of the trimmed key then gives the
/// trimmed value, whatever the document held before.
pub proof fn lemma_assignment_round_trip(doc: DocModel, key: Seq<char>, value: Seq<char>, n: nat)
    requires
        plain_key(key),
        trim(key).len() > 0,
        plain_value(value),
        against_schemas_spec(doc, trim(key), trim(value), 0) is Ok,
    ensures
        parse_assignment_spec(key + seq!['='] + value) == Ok::<_, Seq<char>>(
            (trim(key), trim(value)),
        ),
        process_assignment_spec(doc, key + seq!['='] + value, n).result is Ok,
        lookup(process_assignment_spec(doc, key + seq!['='] + value, n).doc.map, trim(key))
            == Some(trim(value)),
        find_obj_spec(process_assignment_spec(doc, key + seq!['='] + value, n).doc.map, trim(key))
            == Some(trim(value)),
{
    let s = key + seq!['='] + value;
    lemma_separator_after_key(key, value, 0);
    assert(s.take(key.len() as int) =~= key);
    assert(s.skip(key.len() as int + 1) =~= value);
    lemma_trim_shape(value);
    lemma_put(doc.map, trim(key), trim(value), trim(key));
}

/// The last assignment wins: after an assignment succeeds, its key is
/// bound to its value, whatever the key was bound to before, and every
/// other key is bound as before. A merge that runs the same lines
/// later, as `@import` does, therefore replaces earlier values.
pub proof fn lemma_assignment_overwrites(doc: DocModel, line: Seq<char>, n: nat, other: Seq<char>)
    requires
        process_assignment_spec(doc, line, n).result is Ok,
    ensures
        parse_assignment_spec(line) matches Ok((key, value)) && lookup(
            process_assignment_spec(doc, line, n).doc.map,
            key,
        ) == Some(value) && (other != key ==> lookup(
            process_assignment_spec(doc, line, n).doc.map,
            other,
        ) == lookup(doc.map, other)),
{
    match parse_assignment_spec(line) {
        Ok((key, value)) => {
            lemma_put(doc.map, key, value, other);
        },
        Err(_) => {},
    }
}

/// The quote that is open after `s[i..]` is read with `q` open.
pub open spec fn quote_after(s: Seq<char>, i: int, q: Option<char>) -> Option<char>
    decreases s.len() - i,
{
    if i < 0 || i >= s.len() {
        q
    } else {
        quote_after(s, i + 1, next_quote(q, s[i]))
    }
}

/// A line without a comment whose quotes are all closed.
pub open spec fn comment_free(line: Seq<char>) -> bool {
    comment_start(line, 0, None) == line.len() && quote_after(line, 0, None) is None
}

/// What follows the `#` of a comment: nothing, or white space first.
pub open spec fn comment_text(tail: Seq<char>) -> bool {
    tail.len() == 0 || is_ascii_space(tail[0])
}

proof fn lemma_comment_found(line: Seq<char>, tail: Seq<char>, i: int, q: Option<char>)
    requires
        0 <= i <= line.len(),
        comment_start(line, i, q) == line.len(),
        quote_after(line, i, q) is None,
        comment_text(tail),
    ensures
        comment_start(line + seq![' ', '#'] + tail, i, q) == line.len() + 1,
    decreases line.len() - i,
{
    let s = line + seq![' ', '#'] + tail;
    if i < line.len() {
        assert(s[i] == line[i]);
        if i > 0 {
            assert(s[i - 1] == line[i - 1]);
        }
        if i + 1 < line.len() {
            assert(s[i + 1] == line[i + 1]);
        } else {
            assert(s[i + 1] == ' ');
        }
        assert(comment_at(s, i) == comment_at(line, i));
        super::parsing::lemma_comment_start_bounds(line, i + 1, next_quote(q, line[i]));
        lemma_comment_found(line, tail, i + 1, next_quote(q, line[i]));
    } else {
        assert(s[i] == ' ');
        assert(s[i + 1] == '#');
        if tail.len() > 0 {
            assert(s[i + 2] == tail[0]);
        }
        assert(comment_at(s, i + 1));
        assert(comment_start(s, i + 1, None) == i + 1);
    }
}

proof fn lemma_trim_ignores_last_space(s: Seq<char>)
    ensures
        trim(s.push(' ')) == trim(s),
{
    let t = s.push(' ');
    lemma_leading_spaces_first(s);
    lemma_leading_spaces_first(t);
    let a = leading_spaces(s) as int;
    if a == s.len() {
        assert forall|j: int| 0 <= j < t.len() implies is_space(#[trigger] t[j]) by {
            if j < s.len() {
                assert(t[j] == s[j]);
            }
        }
        lemma_leading_spaces(t, t.len() as int);
        lemma_trailing_spaces(trim_start(t), 0);
        lemma_trailing_spaces(trim_start(s), 0);
        assert(trim(t) =~= trim(s));
    } else {
        assert forall|j: int| 0 <= j < a implies is_space(#[trigger] t[j]) by {
            assert(t[j] == s[j]);
        }
        assert(t[a] == s[a]);
        lemma_leading_spaces(t, a);
        let u = trim_start(s);
        let v = trim_start(t);
        assert(v =~= u.push(' '));
        assert(v.drop_last() =~= u);
        assert(trim_end(v) == trim_end(u)) by {
            assert(trailing_spaces(v) == 1 + trailing_spaces(u));
            assert(v.take(v.len() - trailing_spaces(v)) =~= u.take(u.len() - trailing_spaces(u)))
                by {
                lemma_trailing_spaces_last(u);
            }
        }
    }
}

/// A trailing comment changes nothing: a line without a comment and
/// with its quotes closed is processed in the same way with ` #` and
/// any comment text behind it.
pub proof fn lemma_comment_invariance(
    doc: DocModel,
    line: Seq<char>,
    tail: Seq<char>,
    n: nat,
    files: Seq<(Seq<char>, Seq<char>)>,
)
    requires
        comment_free(line),
        comment_text(tail),
    ensures
        strip_comment_spec(line + seq![' ', '#'] + tail) == line.push(' '),
        trim(strip_comment_spec(line + seq![' ', '#'] + tail)) == trim(strip_comment_spec(line)),
        process_line_spec(doc, line + seq![' ', '#'] + tail, n, files) == process_line_spec(
            doc,
            line,
            n,
            files,
        ),
{
    let s = line + seq![' ', '#'] + tail;
    lemma_comment_found(line, tail, 0, None);
    assert(s.take(line.len() as int + 1) =~= line.push(' '));
    assert(line.take(line.len() as int) =~= line);
    lemma_trim_ignores_last_space(line);
}

/// Inheriting keeps what a document has: every key of `into` is bound
/// in `absorb(into, from, i)` as it was, and a key that `into` lacks is
/// bound to the value of its first entry in `from[i..]`.
pub proof fn lemma_absorb<T>(
    into: Seq<(Seq<char>, T)>,
    from: Seq<(Seq<char>, T)>,
    i: int,
    key: Seq<char>,
)
    requires
        0 <= i <= from.len(),
    ensures
        contains(into, key) ==> lookup(absorb(into, from, i), key) == lookup(into, key),
        !contains(into, key) && position(from, key, i) < from.len() ==> lookup(
            absorb(into, from, i),
            key,
        ) == Some(from[position(from, key, i)].1),
        !contains(into, key) && position(from, key, i) >= from.len() ==> !contains(
            absorb(into, from, i),
            key,
        ),
    decreases from.len() - i,
{
    if i < from.len() {
        let next = put_absent(into, from[i].0, from[i].1);
        lemma_put_absent(into, from[i].0, from[i].1, key);
        lemma_position(next, key, 0);
        lemma_position(into, key, 0);
        lemma_absorb(next, from, i + 1, key);
    }
}

proof fn lemma_select_keeps(
    into: Seq<(Seq<char>, crate::commands::schema::SchemaModel)>,
    base: Seq<(Seq<char>, crate::commands::schema::SchemaModel)>,
    selectors: Seq<Seq<char>>,
    path: Seq<char>,
    i: int,
    name: Seq<char>,
)
    requires
        0 <= i <= selectors.len(),
    ensures
        contains(into, name) ==> lookup(select_spec(into, base, selectors, path, i).schemas, name)
            == lookup(into, name),
        !contains(into, name) && !selectors.contains(name) ==> !contains(
            select_spec(into, base, selectors, path, i).schemas,
            name,
        ),
    decreases selectors.len() - i,
{
    if i < selectors.len() {
        match lookup(base, selectors[i]) {
            None => {},
            Some(schema) => {
                let next = put_absent(into, selectors[i], schema);
                lemma_put_absent(into, selectors[i], schema, name);
                lemma_position(next, name, 0);
                lemma_position(into, name, 0);
                lemma_select_keeps(next, base, selectors, path, i + 1, name);
            },
        }
    }
}

proof fn lemma_select_takes(
    into: Seq<(Seq<char>, SchemaModel)>,
    base: Seq<(Seq<char>, SchemaModel)>,
    selectors: Seq<Seq<char>>,
    path: Seq<char>,
    i: int,
    k: int,
)
    requires
        0 <= i <= k < selectors.len(),
        select_spec(into, base, selectors, path, i).result is Ok,
    ensures
        contains(base, selectors[k]),
        contains(select_spec(into, base, selectors, path, i).schemas, selectors[k]),
    decreases selectors.len() - i,
{
    match lookup(base, selectors[i]) {
        None => {},
        Some(schema) => {
            let next = put_absent(into, selectors[i], schema);
            if i < k {
                lemma_select_takes(next, base, selectors, path, i + 1, k);
            } else {
                lemma_put_absent(into, selectors[i], schema, selectors[i]);
                lemma_position(next, selectors[i], 0);
                lemma_position(into, selectors[i], 0);
                lemma_select_keeps(next, base, selectors, path, i + 1, selectors[i]);
            }
        },
    }
}

/// With selectors, a derive that succeeds has taken every selected
/// schema: each is in the base, and each is in the document after.
pub proof fn lemma_derive_takes_selected(doc: DocModel, base: DocModel, arg: DeriveArg, k: int)
    requires
        0 <= k < arg.selectors.len(),
        inherit_spec(doc, base, arg).result is Ok,
    ensures
        contains(base.schemas, arg.selectors[k]),
        contains(inherit_spec(doc, base, arg).doc.schemas, arg.selectors[k]),
{
    lemma_select_takes(doc.schemas, base.schemas, arg.selectors, arg.path, 0, k);
}

/// The child wins: after a document has inherited from a base, every
/// key and every schema that it had is bound as before; a key that it
/// lacked is bound as in the base; and with selectors, a schema that
/// it lacked and that no selector names stays absent.
pub proof fn lemma_derive_child_wins(doc: DocModel, base: DocModel, arg: DeriveArg, name: Seq<char>)
    ensures
        contains(doc.map, name) ==> lookup(inherit_spec(doc, base, arg).doc.map, name) == lookup(
            doc.map,
            name,
        ),
        contains(doc.schemas, name) ==> lookup(inherit_spec(doc, base, arg).doc.schemas, name)
            == lookup(doc.schemas, name),
        inherit_spec(doc, base, arg).result is Ok && !contains(doc.map, name) ==> lookup(
            inherit_spec(doc, base, arg).doc.map,
            name,
        ) == lookup(base.map, name),
        arg.selectors.len() > 0 && !contains(doc.schemas, name) && !arg.selectors.contains(name)
            ==> !contains(inherit_spec(doc, base, arg).doc.schemas, name),
{
    lemma_absorb(doc.map, base.map, 0, name);
    lemma_absorb(doc.schemas, base.schemas, 0, name);
    lemma_select_keeps(doc.schemas, base.schemas, arg.selectors, arg.path, 0, name);
    lemma_position(base.map, name, 0);
}

/// A type name that is no registered type, no registered schema, no
/// `list<T>` and no built-in type fails every value, and the error
/// names the type.
pub proof fn lemma_unknown_type_fails(
    doc: DocModel,
    ty: Seq<char>,
    value: Seq<char>,
    schema: Seq<char>,
    field: Seq<char>,
)
    requires
        resolve_type_spec(doc, ty) is None,
    ensures
        resolve_type_spec(doc, ty) is None <==> !contains(doc.types, ty) && !contains(
            doc.schemas,
            ty,
        ) && list_inner(ty) is None && resolve_builtin_spec(ty) is Err,
        typed_field_spec(doc, ty, value, schema, field) == Err::<(), _>(
            ErrorModel::Schema { schema, field, ty, details: unknown_type(ty) },
        ),
{
}

/// The quote that is open before `s[i]`: the state of a scan of
/// `s[..i]` that starts outside quotes.
pub open spec fn quote_at(s: Seq<char>, i: int) -> Option<char>
    decreases i,
{
    if i <= 0 {
        None
    } else {
        next_quote(quote_at(s, i - 1), s[i - 1])
    }
}

/// The nesting depth before `s[i]`: brackets opened minus brackets
/// closed in `s[..i]`.
pub open spec fn depth_at(s: Seq<char>, i: int) -> int
    decreases i,
{
    if i <= 0 {
        0
    } else {
        depth_step(depth_at(s, i - 1), s[i - 1])
    }
}

proof fn lemma_comment_start_from(s: Seq<char>, i: int)
    requires
        0 <= i <= s.len(),
    ensures
        i <= comment_start(s, i, quote_at(s, i)) <= s.len(),
        comment_start(s, i, quote_at(s, i)) < s.len() ==> quote_at(
            s,
            comment_start(s, i, quote_at(s, i)),
        ) is None && comment_at(s, comment_start(s, i, quote_at(s, i))),
        forall|j: int|
            i <= j < comment_start(s, i, quote_at(s, i)) ==> !(quote_at(s, j) is None
                && #[trigger] comment_at(s, j)),
    decreases s.len() - i,
{
    if i < s.len() && !(quote_at(s, i) is None && comment_at(s, i)) {
        lemma_comment_start_from(s, i + 1);
    }
}

/// Where a line is cut: at the first `#` that stands outside quotes
/// with white space or a line boundary on both sides, and at the end
/// of the line where there is none.
pub proof fn lemma_strip_comment_cut(s: Seq<char>)
    ensures
        0 <= comment_start(s, 0, None) <= s.len(),
        comment_start(s, 0, None) < s.len() ==> quote_at(s, comment_start(s, 0, None)) is None
            && comment_at(s, comment_start(s, 0, None)),
        forall|j: int|
            0 <= j < comment_start(s, 0, None) ==> !(quote_at(s, j) is None && #[trigger] comment_at(
                s,
                j,
            )),
{
    lemma_comment_start_from(s, 0);
}

proof fn lemma_first_top_level_from(s: Seq<char>, i: int, colon: bool)
    requires
        0 <= i <= s.len(),
    ensures
        i <= first_top_level(s, i, depth_at(s, i), colon) <= s.len(),
        first_top_level(s, i, depth_at(s, i), colon) < s.len() ==> depth_at(
            s,
            first_top_level(s, i, depth_at(s, i), colon),
        ) == 0 && super::parsing::is_separator(
            s[first_top_level(s, i, depth_at(s, i), colon)],
            colon,
        ),
        forall|j: int|
            i <= j < first_top_level(s, i, depth_at(s, i), colon) ==> !(depth_at(s, j) == 0
                && super::parsing::is_separator(#[trigger] s[j], colon)),
    decreases s.len() - i,
{
    if i < s.len() && !(depth_at(s, i) == 0 && super::parsing::is_separator(s[i], colon)) {
        lemma_first_top_level_from(s, i + 1, colon);
    }
}

/// Where a name ends and its value begins: at the first `=` (or `:`,
/// with `colon`) that has as many closing as opening brackets before
/// it, and nowhere where there is none.
pub proof fn lemma_first_separator(s: Seq<char>, colon: bool)
    ensures
        0 <= first_top_level(s, 0, 0, colon) <= s.len(),
        first_top_level(s, 0, 0, colon) < s.len() ==> depth_at(s, first_top_level(s, 0, 0, colon))
            == 0 && super::parsing::is_separator(s[first_top_level(s, 0, 0, colon)], colon),
        forall|j: int|
            0 <= j < first_top_level(s, 0, 0, colon) ==> !(depth_at(s, j) == 0
                && super::parsing::is_separator(#[trigger] s[j], colon)),
{
    lemma_first_top_level_from(s, 0, colon);
}

/// A list fails with the verdict of its first failing item: where the
/// items before the `k`-th fit and the `k`-th fails with `e`, the list
/// fails with `e`.
pub proof fn lemma_list_reports_first_failure(
    doc: DocModel,
    value: Seq<char>,
    inner: Seq<char>,
    k: int,
    e: ErrorModel,
)
    requires
        parse_items_spec(value) is Some,
        0 <= k < parse_items_spec(value)->Some_0.len(),
        forall|j: int|
            0 <= j < k ==> item_spec(doc, inner, #[trigger] parse_items_spec(value)->Some_0[j])
                is Ok,
        item_spec(doc, inner, parse_items_spec(value)->Some_0[k]) == Err::<(), _>(e),
    ensures
        list_spec(doc, value, inner) == Err::<(), _>(e),
{
    lemma_list_from(doc, value, inner, k, e, 0);
}

proof fn lemma_list_from(
    doc: DocModel,
    value: Seq<char>,
    inner: Seq<char>,
    k: int,
    e: ErrorModel,
    i: int,
)
    requires
        parse_items_spec(value) is Some,
        0 <= i <= k < parse_items_spec(value)->Some_0.len(),
        forall|j: int|
            0 <= j < k ==> item_spec(doc, inner, #[trigger] parse_items_spec(value)->Some_0[j])
                is Ok,
        item_spec(doc, inner, parse_items_spec(value)->Some_0[k]) == Err::<(), _>(e),
    ensures
        list_items_spec(doc, value, inner, i) == Err::<(), _>(e),
    decreases k - i,
{
    if i < k {
        lemma_list_from(doc, value, inner, k, e, i + 1);
    }
}

/// The verdict on one field of a map that is held against a schema:
/// an absent field passes where it is optional, a present one where
/// it fits its type.
pub open spec fn field_passes(
    doc: DocModel,
    name: Seq<char>,
    schema: SchemaModel,
    data: Seq<(Seq<char>, Seq<char>)>,
    i: int,
) -> bool {
    match lookup(data, schema.fields[i].0) {
        None => schema.is_optional(schema.fields[i].0),
        Some(v) => typed_field_spec(doc, schema.fields[i].1, v, name, schema.fields[i].0) is Ok,
    }
}

/// A map fits a schema exactly when every declared field passes:
/// optional fields may be absent, and nothing else may.
pub proof fn lemma_apply_schema_passes(
    doc: DocModel,
    name: Seq<char>,
    schema: SchemaModel,
    data: Seq<(Seq<char>, Seq<char>)>,
    i: int,
)
    requires
        0 <= i <= schema.fields.len(),
    ensures
        apply_fields_spec(doc, name, schema, data, i) is Ok <==> forall|j: int|
            i <= j < schema.fields.len() ==> field_passes(doc, name, schema, data, j),
    decreases schema.fields.len() - i,
{
    if i < schema.fields.len() {
        lemma_apply_schema_passes(doc, name, schema, data, i + 1);
        if apply_fields_spec(doc, name, schema, data, i) is Ok {
            assert(field_passes(doc, name, schema, data, i));
            assert forall|j: int| i <= j < schema.fields.len() implies field_passes(
                doc,
                name,
                schema,
                data,
                j,
            ) by {}
        } else if field_passes(doc, name, schema, data, i) {
            assert(!(apply_fields_spec(doc, name, schema, data, i + 1) is Ok));
        }
    }
}

/// The pieces in a row, with `sep` between each two.
pub open spec fn joined(pieces: Seq<Seq<char>>, sep: char) -> Seq<char>
    decreases pieces.len(),
{
    if pieces.len() == 0 {
        Seq::empty()
    } else if pieces.len() == 1 {
        pieces[0]
    } else {
        joined(pieces.drop_last(), sep).push(sep) + pieces.last()
    }
}

/// The pieces in a row, with `sep` after each.
pub open spec fn closed_pieces(pieces: Seq<Seq<char>>, sep: char) -> Seq<char> {
    if pieces.len() == 0 {
        Seq::empty()
    } else {
        joined(pieces, sep).push(sep)
    }
}

proof fn lemma_joined_push(acc: Seq<Seq<char>>, piece: Seq<char>, sep: char)
    ensures
        joined(acc.push(piece), sep) == closed_pieces(acc, sep) + piece,
{
    let next = acc.push(piece);
    assert(next.drop_last() =~= acc);
    assert(next.last() == piece);
    if acc.len() == 0 {
        assert(next[0] == piece);
        assert(Seq::<char>::empty() + piece =~= piece);
    }
}

proof fn lemma_pieces_join(s: Seq<char>, i: int, d: int, start: int, acc: Seq<Seq<char>>)
    requires
        0 <= start <= i <= s.len(),
        closed_pieces(acc, ',') == s.take(start),
    ensures
        joined(super::parsing::pieces_from(s, i, d, start, acc), ',') == s,
    decreases s.len() - i,
{
    if i >= s.len() {
        let piece = s.subrange(start, s.len() as int);
        lemma_joined_push(acc, piece, ',');
        assert(s.take(start) + piece =~= s);
    } else if d == 0 && s[i] == ',' {
        let piece = s.subrange(start, i);
        let next = acc.push(piece);
        lemma_joined_push(acc, piece, ',');
        assert((s.take(start) + piece).push(',') =~= s.take(i + 1));
        lemma_pieces_join(s, i + 1, d, i + 1, next);
    } else {
        lemma_pieces_join(s, i + 1, depth_step(d, s[i]), start, acc);
    }
}

/// Splitting loses nothing: the pieces of a text between its
/// top-level commas, put in a row with commas between them, are the
/// text.
pub proof fn lemma_top_level_pieces_join(s: Seq<char>)
    ensures
        joined(super::parsing::top_level_pieces(s), ',') == s,
{
    assert(s.take(0) =~= Seq::<char>::empty());
    lemma_pieces_join(s, 0, 0, 0, Seq::empty());
}

proof fn lemma_split_join(s: Seq<char>, sep: char, i: int, start: int, acc: Seq<Seq<char>>)
    requires
        0 <= start <= i <= s.len(),
        closed_pieces(acc, sep) == s.take(start),
    ensures
        joined(crate::text::split_from(s, sep, i, start, acc), sep) == s,
    decreases s.len() - i,
{
    if i >= s.len() {
        let piece = s.subrange(start, s.len() as int);
        lemma_joined_push(acc, piece, sep);
        assert(s.take(start) + piece =~= s);
    } else if s[i] == sep {
        let piece = s.subrange(start, i);
        let next = acc.push(piece);
        lemma_joined_push(acc, piece, sep);
        assert((s.take(start) + piece).push(sep) =~= s.take(i + 1));
        lemma_split_join(s, sep, i + 1, i + 1, next);
    } else {
        lemma_split_join(s, sep, i + 1, start, acc);
    }
}

/// The pieces of a text between the occurrences of a separator, put
/// in a row with the separator between them, are the text.
pub proof fn lemma_split_on_join(s: Seq<char>, sep: char)
    ensures
        joined(crate::text::split_on(s, sep), sep) == s,
{
    assert(s.take(0) =~= Seq::<char>::empty());
    lemma_split_join(s, sep, 0, 0, Seq::empty());
}

/// A text that is one plain assignment and nothing else: no line
/// feed, no `#`, no white space at its ends, no `@` in front.
pub open spec fn plain_line(key: Seq<char>, value: Seq<char>) -> bool {
    let line = key + seq!['='] + value;
    &&& plain_key(key)
    &&& trim(key).len() > 0
    &&& plain_value(value)
    &&& trim(line) == line
    &&& line[0] != '@'
    &&& forall|i: int| 0 <= i < line.len() ==> (#[trigger] line[i]) != '\n' && line[i] != '#'
}

proof fn lemma_no_comment(s: Seq<char>, i: int, q: Option<char>)
    requires
        0 <= i <= s.len(),
        forall|j: int| 0 <= j < s.len() ==> (#[trigger] s[j]) != '#',
    ensures
        comment_start(s, i, q) == s.len(),
    decreases s.len() - i,
{
    if i < s.len() {
        assert(s[i] != '#');
        lemma_no_comment(s, i + 1, next_quote(q, s[i]));
    }
}

proof fn lemma_one_line(s: Seq<char>, i: int)
    requires
        0 <= i <= s.len(),
        forall|j: int| 0 <= j < s.len() ==> (#[trigger] s[j]) != '\n',
    ensures
        crate::text::split_from(s, '\n', i, 0, Seq::empty()) == seq![s],
    decreases s.len() - i,
{
    if i < s.len() {
        assert(s[i] != '\n');
        lemma_one_line(s, i + 1);
    } else {
        assert(s.subrange(0, s.len() as int) =~= s);
        assert(Seq::<Seq<char>>::empty().push(s) =~= seq![s]);
    }
}

/// A text that is one plain assignment is merged as that assignment:
/// the merge succeeds where no schema rejects the value, and binds
/// the key to the value, whatever the document held and whichever
/// files are at hand.
pub proof fn lemma_merge_plain_line(
    doc: DocModel,
    key: Seq<char>,
    value: Seq<char>,
    files: Seq<(Seq<char>, Seq<char>)>,
)
    requires
        plain_line(key, value),
        against_schemas_spec(doc, trim(key), trim(value), 0) is Ok,
    ensures
        merge_spec(doc, key + seq!['='] + value, files) == process_assignment_spec(
            doc,
            key + seq!['='] + value,
            1,
        ),
        merge_spec(doc, key + seq!['='] + value, files).result is Ok,
        lookup(merge_spec(doc, key + seq!['='] + value, files).doc.map, trim(key)) == Some(
            trim(value),
        ),
{
    let line = key + seq!['='] + value;
    lemma_assignment_round_trip(doc, key, value, 1);
    lemma_one_line(line, 0);
    lemma_no_comment(line, 0, None);
    assert(line.len() > 0);
    let lines = lines_of(line);
    assert(lines == seq![line]);
    assert(lines[0] == line);
    assert(line.take(line.len() as int) =~= line);
    assert(strip_comment_spec(line) == line);
    let stripped = trim(strip_comment_spec(line));
    assert(stripped == line);
    assert(!super::parsing::needs_accumulation_spec(stripped));
    let step = process_line_spec(doc, line, 1, files);
    assert(step == process_assignment_spec(doc, line, 1));
    let g = accumulate_spec(doc, line, 1, None, files);
    assert(g.step == step);
    assert(g.pending is None);
    assert(g.ready is None);
    assert(merge_lines_spec(step.doc, lines, 1, None, files) == super::merge::done(step.doc));
    assert(merge_lines_spec(doc, lines, 0, None, files) == step);
}

/// Imported values win: where `@import` names a file whose text is one
/// plain assignment, the key is bound to the value from the file
/// after the import, whatever the document bound it to before.
pub proof fn lemma_import_precedence(
    doc: DocModel,
    args: Seq<char>,
    key: Seq<char>,
    value: Seq<char>,
    files: Seq<(Seq<char>, Seq<char>)>,
)
    requires
        trim(args).len() > 0,
        lookup(files, unwrap_quotes_spec(trim(args))) == Some(key + seq!['='] + value),
        plain_line(key, value),
        against_schemas_spec(doc, trim(key), trim(value), 0) is Ok,
    ensures
        import_spec(doc, args, files).result is Ok,
        lookup(import_spec(doc, args, files).doc.map, trim(key)) == Some(trim(value)),
{
    let path = unwrap_quotes_spec(trim(args));
    lemma_merge_plain_line(doc, key, value, crate::table::without(files, path));
}

/// Derived values lose: whatever `@derive` names and however it ends,
/// every key that the document had is bound after it as before.
pub proof fn lemma_derive_precedence(
    doc: DocModel,
    args: Seq<char>,
    files: Seq<(Seq<char>, Seq<char>)>,
    key: Seq<char>,
)
    requires
        contains(doc.map, key),
    ensures
        lookup(derive_spec(doc, args, files).doc.map, key) == lookup(doc.map, key),
{
    let raw = trim(args);
    if raw.len() > 0 {
        let arg = crate::commands::derive::parse_derive_arg_spec(raw);
        match lookup(files, arg.path) {
            None => {},
            Some(text) => {
                let base = merge_spec(DocModel::empty(), text, crate::table::without(files, arg.path));
                if base.result is Ok {
                    lemma_derive_child_wins(doc, base.doc, arg, key);
                }
            },
        }
    }
}

} // verus!
