//! The `@schema` directive: `@schema Name { field: type, field*: type }`.
//!
//! A field whose name ends in `*` is optional: it may be absent, but
//! where it is present its value must fit the declared type.

use vstd::prelude::*;
use vstd::string::StringExecFns;
use vstd::string::StrSliceExecFns;
use crate::aaml::AAML;
use crate::aaml::merge::schema_directive_spec;
use crate::error::{AamlError, ErrorModel, outcome};
use crate::table::{Table, put};
use crate::text::{
    char_is_space, chars_of, find_char, index_of_char, is_space, join3, join5,
    last_index_of_char, rfind_char, string_of_range, texts, trim, trim_str,
};

verus! {

/// A schema: its fields with their declared types, in the order of
/// declaration, and the names of the optional ones.
#[derive(Debug)]
pub struct SchemaDef {
    /// Field name to type name.
    pub fields: Table<String>,
    /// The fields declared with `*`.
    pub optional_fields: Vec<String>,
}

impl Clone for SchemaDef {
    fn clone(&self) -> (r: Self)
        ensures
            r@ == self@,
    {
        self.duplicate()
    }
}

/// What a [`SchemaDef`] stands for in specifications.
pub struct SchemaModel {
    pub fields: Seq<(Seq<char>, Seq<char>)>,
    pub optional: Seq<Seq<char>>,
}

impl View for SchemaDef {
    type V = SchemaModel;

    open spec fn view(&self) -> SchemaModel {
        SchemaModel { fields: self.fields@, optional: texts(self.optional_fields@) }
    }
}

impl SchemaModel {
    /// A schema without fields.
    pub open spec fn empty() -> SchemaModel {
        SchemaModel { fields: Seq::empty(), optional: Seq::empty() }
    }

    /// Whether `field` was declared with `*`.
    pub open spec fn is_optional(self, field: Seq<char>) -> bool {
        self.optional.contains(field)
    }

    /// The schema with one more declaration; a later declaration of a
    /// field replaces its type, and a field once optional stays so.
    pub open spec fn declare(self, field: Seq<char>, ty: Seq<char>, optional: bool) -> SchemaModel {
        SchemaModel {
            fields: put(self.fields, field, ty),
            optional: if optional && !self.optional.contains(field) {
                self.optional.push(field)
            } else {
                self.optional
            },
        }
    }
}

/// Whether `v` holds a string with the text `s`.
pub fn holds_text(v: &Vec<String>, s: &str) -> (r: bool)
    ensures
        r == texts(v@).contains(s@),
{
    let n: usize = v.len();
    let mut i: usize = 0;
    while i < n
        invariant
            i <= n,
            n == v@.len(),
            forall|j: int| 0 <= j < i ==> texts(v@)[j] != s@,
        decreases n - i,
    {
        if crate::text::str_eq(v[i].as_str(), s) {
            proof {
                assert(texts(v@)[i as int] == s@);
            }
            return true;
        }
        i += 1;
    }
    false
}

impl SchemaDef {
    /// A schema without fields.
    pub fn new() -> (r: Self)
        ensures
            r@ == SchemaModel::empty(),
    {
        let r = SchemaDef { fields: Table::new(), optional_fields: Vec::new() };
        proof {
            assert(texts(r.optional_fields@) =~= Seq::empty());
        }
        r
    }

    /// Whether `field` was declared with `*`.
    pub fn is_optional(&self, field: &str) -> (r: bool)
        ensures
            r == self@.is_optional(field@),
    {
        holds_text(&self.optional_fields, field)
    }

    /// Declares `field` with the type `ty`.
    pub fn declare(&mut self, field: String, ty: String, optional: bool)
        ensures
            final(self)@ == old(self)@.declare(field@, ty@, optional),
    {
        if optional && !holds_text(&self.optional_fields, field.as_str()) {
            let name = field.clone();
            proof {
                assert(texts(self.optional_fields@.push(name)) =~= texts(
                    self.optional_fields@,
                ).push(field@));
            }
            self.optional_fields.push(name);
        }
        self.fields.insert(field, ty);
    }

    /// A copy of the schema.
    pub fn duplicate(&self) -> (r: Self)
        ensures
            r@ == self@,
    {
        let m: usize = self.optional_fields.len();
        let mut optional: Vec<String> = Vec::new();
        let mut j: usize = 0;
        while j < m
            invariant
                j <= m,
                m == self.optional_fields@.len(),
                texts(optional@) == texts(self.optional_fields@).take(j as int),
            decreases m - j,
        {
            let name = self.optional_fields[j].clone();
            proof {
                assert(texts(self.optional_fields@)[j as int] == self.optional_fields@[j as int]@);
                assert(texts(optional@.push(name)) =~= texts(optional@).push(name@));
                assert(texts(self.optional_fields@).take(j + 1) =~= texts(
                    self.optional_fields@,
                ).take(j as int).push(name@));
            }
            optional.push(name);
            j += 1;
        }
        proof {
            assert(texts(self.optional_fields@).take(m as int) =~= texts(self.optional_fields@));
        }
        SchemaDef { fields: self.fields.duplicate(), optional_fields: optional }
    }
}

/// An error of the `@schema` directive.
pub open spec fn schema_error(msg: Seq<char>) -> ErrorModel {
    ErrorModel::Directive("schema"@, msg)
}

/// The name and the body of a schema declaration: what stands before
/// the first `{`, trimmed, and what stands between it and the last `}`.
pub open spec fn parse_header_spec(args: Seq<char>) -> Result<(Seq<char>, Seq<char>), ErrorModel> {
    let open = find_char(args, '{', 0);
    if open >= args.len() {
        Err(schema_error("Expected '{'"@))
    } else {
        let name = trim(args.take(open));
        let rest = args.skip(open + 1);
        if name.len() == 0 {
            Err(schema_error("Schema name is empty"@))
        } else if rfind_char(rest, '}') < 0 {
            Err(schema_error("Expected '}'"@))
        } else {
            Ok((name, rest.take(rfind_char(rest, '}'))))
        }
    }
}

/// Whether `c` stands between two words of a schema body.
pub open spec fn is_gap(c: char) -> bool {
    is_space(c) || c == ','
}

/// `acc` with `piece` at its end, unless `piece` is empty.
pub open spec fn push_word(acc: Seq<Seq<char>>, piece: Seq<char>) -> Seq<Seq<char>> {
    if piece.len() > 0 {
        acc.push(piece)
    } else {
        acc
    }
}

/// The words of `s` from `i` on, where the open word began at `start`
/// and `acc` holds the words closed so far.
pub open spec fn words_from(s: Seq<char>, i: int, start: int, acc: Seq<Seq<char>>) -> Seq<
    Seq<char>,
>
    decreases s.len() - i,
{
    if i < 0 || i >= s.len() {
        push_word(acc, s.subrange(start, s.len() as int))
    } else if is_gap(s[i]) {
        words_from(s, i + 1, i + 1, push_word(acc, s.subrange(start, i)))
    } else {
        words_from(s, i + 1, start, acc)
    }
}

/// The words of a schema body: what stands between white space and
/// commas.
pub open spec fn words_of(s: Seq<char>) -> Seq<Seq<char>> {
    words_from(s, 0, 0, Seq::empty())
}

/// Splits a schema body into its words.
pub fn split_words(s: &str) -> (r: Vec<String>)
    ensures
        texts(r@) == words_of(s@),
{
    let cs = chars_of(s);
    let n: usize = cs.len();
    let mut words: Vec<String> = Vec::new();
    let mut start: usize = 0;
    let mut i: usize = 0;
    proof {
        assert(texts(words@) =~= Seq::empty());
    }
    while i < n
        invariant
            start <= i <= n,
            n == cs@.len(),
            cs@ == s@,
            words_of(s@) == words_from(s@, i as int, start as int, texts(words@)),
        decreases n - i,
    {
        let c = cs[i];
        if char_is_space(c) || c == ',' {
            if i > start {
                let w = string_of_range(cs.as_slice(), start, i);
                proof {
                    assert(texts(words@.push(w)) =~= texts(words@).push(w@));
                }
                words.push(w);
            }
            start = i + 1;
        }
        i += 1;
    }
    if n > start {
        let w = string_of_range(cs.as_slice(), start, n);
        proof {
            assert(texts(words@.push(w)) =~= texts(words@).push(w@));
        }
        words.push(w);
    }
    words
}

/// `s` without the `*` characters at its end.
pub open spec fn strip_stars(s: Seq<char>) -> Seq<char>
    decreases s.len(),
{
    if s.len() > 0 && s.last() == '*' {
        strip_stars(s.drop_last())
    } else {
        s
    }
}

/// One field declaration, read from the word at `i` and, where the
/// type does not follow the colon directly, from the word after it.
pub struct FieldDecl {
    pub field: Seq<char>,
    pub ty: Seq<char>,
    pub optional: bool,
    /// Index of the first word after the declaration.
    pub next: int,
}

/// The error for a word without `:`.
pub open spec fn bad_field(token: Seq<char>) -> ErrorModel {
    schema_error("Bad field: '"@ + token + "'"@)
}

/// The error for a field whose type is missing.
pub open spec fn no_type(field_raw: Seq<char>) -> ErrorModel {
    schema_error("Bad field: '"@ + field_raw + ":' has no type"@)
}

/// The error for a declaration with an empty name or an empty type.
pub open spec fn bad_pair(field: Seq<char>, ty: Seq<char>) -> ErrorModel {
    schema_error("Bad field: '"@ + field + ": "@ + ty + "'"@)
}

/// The declaration that starts at word `i`.
pub open spec fn parse_field_spec(words: Seq<Seq<char>>, i: int) -> Result<FieldDecl, ErrorModel>
    recommends
        0 <= i < words.len(),
{
    let token = words[i];
    let colon = find_char(token, ':', 0);
    if colon >= token.len() {
        Err(bad_field(token))
    } else {
        let field_raw = token.take(colon);
        let after = token.skip(colon + 1);
        if after.len() == 0 && i + 1 >= words.len() {
            Err(no_type(field_raw))
        } else {
            let ty = if after.len() == 0 {
                words[i + 1]
            } else {
                after
            };
            let next = if after.len() == 0 {
                i + 2
            } else {
                i + 1
            };
            let optional = field_raw.len() > 0 && field_raw.last() == '*';
            let field = if optional {
                strip_stars(field_raw)
            } else {
                field_raw
            };
            if field.len() == 0 || ty.len() == 0 {
                Err(bad_pair(field, ty))
            } else {
                Ok(FieldDecl { field, ty, optional, next })
            }
        }
    }
}

/// The schema declared by `words[i..]`, added to `acc`.
pub open spec fn fields_of(words: Seq<Seq<char>>, i: int, acc: SchemaModel) -> Result<
    SchemaModel,
    ErrorModel,
>
    decreases words.len() - i,
{
    if i < 0 || i >= words.len() {
        Ok(acc)
    } else {
        match parse_field_spec(words, i) {
            Err(e) => Err(e),
            Ok(d) => fields_of(words, d.next, acc.declare(d.field, d.ty, d.optional)),
        }
    }
}

/// The name and the definition that a `@schema` argument declares.
pub open spec fn parse_schema_spec(args: Seq<char>) -> Result<(Seq<char>, SchemaModel), ErrorModel> {
    match parse_header_spec(trim(args)) {
        Err(e) => Err(e),
        Ok((name, body)) => match fields_of(words_of(body), 0, SchemaModel::empty()) {
            Err(e) => Err(e),
            Ok(schema) => Ok((name, schema)),
        },
    }
}

/// Handler of the `@schema` directive.
#[derive(Clone, Copy, Debug, PartialEq, Eq, Structural)]
pub struct SchemaCommand;

impl SchemaCommand {
    /// The directive's name.
    pub fn name(&self) -> (r: &'static str)
        ensures
            r@ == "schema"@,
    {
        "schema"
    }

    /// Splits `args` into the schema name and the text between `{`
    /// and the last `}`.
    pub fn parse_header<'a>(args: &'a str) -> (r: Result<(&'a str, &'a str), AamlError>)
        ensures
            match r {
                Ok((name, body)) => parse_header_spec(args@) == Ok::<_, ErrorModel>(
                    (name@, body@),
                ),
                Err(e) => parse_header_spec(args@) == Err::<(Seq<char>, Seq<char>), _>(e@),
            },
    {
        let cs = chars_of(args);
        let n: usize = cs.len();
        let open = index_of_char(cs.as_slice(), '{', 0);
        if open >= n {
            return Err(
                AamlError::DirectiveError(
                    String::from_str("schema"),
                    String::from_str("Expected '{'"),
                ),
            );
        }
        proof {
            assert(args@.subrange(0, open as int) =~= args@.take(open as int));
            assert(args@.subrange(open + 1, n as int) =~= args@.skip(open + 1));
        }
        let name = trim_str(args.substring_char(0, open));
        if name.unicode_len() == 0 {
            return Err(
                AamlError::DirectiveError(
                    String::from_str("schema"),
                    String::from_str("Schema name is empty"),
                ),
            );
        }
        let rest = args.substring_char(open + 1, n);
        let rs = chars_of(rest);
        let close = last_index_of_char(rs.as_slice(), '}');
        if close >= rs.len() {
            return Err(
                AamlError::DirectiveError(
                    String::from_str("schema"),
                    String::from_str("Expected '}'"),
                ),
            );
        }
        proof {
            assert(rest@.subrange(0, close as int) =~= rest@.take(close as int));
        }
        Ok((name, rest.substring_char(0, close)))
    }

    /// Reads the declaration that starts at word `i`: the field name,
    /// its type, whether it is optional, and the index of the word
    /// after it.
    pub fn parse_field(words: &Vec<String>, i: usize) -> (r: Result<
        (String, String, bool, usize),
        AamlError,
    >)
        requires
            i < words@.len(),
        ensures
            match r {
                Ok((field, ty, optional, next)) => parse_field_spec(texts(words@), i as int)
                    == Ok::<_, ErrorModel>(
                    FieldDecl { field: field@, ty: ty@, optional, next: next as int },
                ) && i < next <= words@.len(),
                Err(e) => parse_field_spec(texts(words@), i as int) == Err::<FieldDecl, _>(e@),
            },
    {
        let count: usize = words.len();
        let token = words[i].as_str();
        proof {
            assert(texts(words@)[i as int] == words@[i as int]@);
            if i + 1 < words@.len() {
                assert(texts(words@)[i + 1] == words@[i + 1]@);
            }
        }
        let cs = chars_of(token);
        let n: usize = cs.len();
        let colon = index_of_char(cs.as_slice(), ':', 0);
        if colon >= n {
            return Err(
                AamlError::DirectiveError(
                    String::from_str("schema"),
                    join3("Bad field: '", token, "'"),
                ),
            );
        }
        proof {
            assert(token@.subrange(0, colon as int) =~= token@.take(colon as int));
            assert(token@.subrange(colon + 1, n as int) =~= token@.skip(colon + 1));
        }
        let field_raw = token.substring_char(0, colon);
        let after = token.substring_char(colon + 1, n);
        let direct = colon + 1 < n;
        if !direct && i + 1 >= count {
            return Err(
                AamlError::DirectiveError(
                    String::from_str("schema"),
                    join3("Bad field: '", field_raw, ":' has no type"),
                ),
            );
        }
        let ty: &str = if direct {
            after
        } else {
            words[i + 1].as_str()
        };
        let next: usize = if direct {
            i + 1
        } else {
            i + 2
        };
        let optional = colon > 0 && cs[colon - 1] == '*';
        proof {
            if colon > 0 {
                assert(field_raw@.last() == cs@[colon - 1]);
            }
        }
        let mut end: usize = colon;
        if optional {
            while end > 0 && cs[end - 1] == '*'
                invariant
                    end <= colon <= cs@.len(),
                    cs@ == token@,
                    strip_stars(token@.take(colon as int)) == strip_stars(token@.take(end as int)),
                decreases end,
            {
                proof {
                    assert(token@.take(end as int).drop_last() =~= token@.take(end - 1));
                }
                end -= 1;
            }
        }
        proof {
            assert(token@.subrange(0, end as int) =~= token@.take(end as int));
        }
        let field = token.substring_char(0, end);
        if field.unicode_len() == 0 || ty.unicode_len() == 0 {
            return Err(
                AamlError::DirectiveError(
                    String::from_str("schema"),
                    join5("Bad field: '", field, ": ", ty, "'"),
                ),
            );
        }
        Ok((String::from_str(field), String::from_str(ty), optional, next))
    }

    /// Reads `Name { field: type, field*: type, ... }`.
    pub fn parse(args: &str) -> (r: Result<(String, SchemaDef), AamlError>)
        ensures
            match r {
                Ok((name, schema)) => parse_schema_spec(args@) == Ok::<_, ErrorModel>(
                    (name@, schema@),
                ),
                Err(e) => parse_schema_spec(args@) == Err::<(Seq<char>, SchemaModel), _>(e@),
            },
    {
        let (name, body) = match SchemaCommand::parse_header(trim_str(args)) {
            Ok(p) => p,
            Err(e) => {
                return Err(e);
            },
        };
        let words = split_words(body);
        let mut schema = SchemaDef::new();
        let n: usize = words.len();
        let mut i: usize = 0;
        while i < n
            invariant
                i <= n,
                n == words@.len(),
                parse_header_spec(trim(args@)) == Ok::<_, ErrorModel>((name@, body@)),
                texts(words@) == words_of(body@),
                fields_of(texts(words@), 0, SchemaModel::empty()) == fields_of(
                    texts(words@),
                    i as int,
                    schema@,
                ),
            decreases n - i,
        {
            match SchemaCommand::parse_field(&words, i) {
                Err(e) => {
                    return Err(e);
                },
                Ok((field, ty, optional, next)) => {
                    schema.declare(field, ty, optional);
                    i = next;
                },
            }
        }
        Ok((String::from_str(name), schema))
    }

    /// Reads the schema and registers it in `aaml`, in place of any
    /// schema of the same name.
    pub fn execute(&self, aaml: &mut AAML, args: &str) -> (r: Result<(), AamlError>)
        ensures
            final(aaml)@ == schema_directive_spec(old(aaml)@, args@).doc,
            outcome(r) == schema_directive_spec(old(aaml)@, args@).result,
    {
        match SchemaCommand::parse(args) {
            Ok((name, schema)) => {
                aaml.register_schema(name, schema);
                Ok(())
            },
            Err(e) => Err(e),
        }
    }
}

} // verus!
