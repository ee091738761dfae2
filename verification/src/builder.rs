//! Writing documents: a builder that gathers lines of text.
//!
//! Each method appends one statement. A line feed is put between
//! statements, none before the first and none after the last.

use vstd::prelude::*;
use vstd::string::StringExecFns;
use vstd::string::StrSliceExecFns;
use crate::text::push_char;

verus! {

/// One field declaration of a `@schema` block.
#[derive(Debug, Clone)]
pub struct SchemaField {
    name: String,
    ty: String,
    optional: bool,
}

/// What a [`SchemaField`] stands for in specifications.
pub struct FieldModel {
    pub name: Seq<char>,
    pub ty: Seq<char>,
    pub optional: bool,
}

impl View for SchemaField {
    type V = FieldModel;

    closed spec fn view(&self) -> FieldModel {
        FieldModel { name: self.name@, ty: self.ty@, optional: self.optional }
    }
}

impl FieldModel {
    /// The declaration as it is written: `name: type`, or `name*: type`
    /// for an optional field.
    pub open spec fn text(self) -> Seq<char> {
        if self.optional {
            self.name + "*: "@ + self.ty
        } else {
            self.name + ": "@ + self.ty
        }
    }
}

impl SchemaField {
    /// A required field, written `name: type`.
    pub fn required(name: &str, ty: &str) -> (r: Self)
        ensures
            r@ == (FieldModel { name: name@, ty: ty@, optional: false }),
    {
        SchemaField { name: String::from_str(name), ty: String::from_str(ty), optional: false }
    }

    /// An optional field, written `name*: type`.
    pub fn optional(name: &str, ty: &str) -> (r: Self)
        ensures
            r@ == (FieldModel { name: name@, ty: ty@, optional: true }),
    {
        SchemaField { name: String::from_str(name), ty: String::from_str(ty), optional: true }
    }

    /// The declaration as it is written in a schema.
    pub fn to_aaml(&self) -> (r: String)
        ensures
            r@ == self@.text(),
    {
        let mut out = self.name.clone();
        if self.optional {
            out.append("*: ");
        } else {
            out.append(": ");
        }
        out.append(self.ty.as_str());
        out
    }
}

/// Gathers the statements of a document.
pub struct AAMBuilder {
    buffer: String,
}

impl View for AAMBuilder {
    type V = Seq<char>;

    closed spec fn view(&self) -> Seq<char> {
        self.buffer@
    }
}

/// `buf`, ready for another statement: with a line feed at its end
/// unless it is empty.
pub open spec fn separated(buf: Seq<char>) -> Seq<char> {
    if buf.len() == 0 {
        buf
    } else {
        buf.push('\n')
    }
}

/// What a slice of fields stands for in specifications.
pub open spec fn field_models(fields: Seq<SchemaField>) -> Seq<FieldModel> {
    fields.map_values(|f: SchemaField| f@)
}

/// The first `n` declarations with `, ` between them.
pub open spec fn fields_inline(fields: Seq<FieldModel>, n: int) -> Seq<char>
    decreases n,
{
    if n <= 0 {
        Seq::empty()
    } else if n == 1 {
        fields[0].text()
    } else {
        fields_inline(fields, n - 1) + ", "@ + fields[n - 1].text()
    }
}

/// The first `n` declarations, each on a line of its own, indented.
pub open spec fn fields_block(fields: Seq<FieldModel>, n: int) -> Seq<char>
    decreases n,
{
    if n <= 0 {
        Seq::empty()
    } else {
        fields_block(fields, n - 1).push('\n') + "    "@ + fields[n - 1].text()
    }
}

/// The first `n` names, each after `::`.
pub open spec fn selector_tail(names: Seq<&str>, n: int) -> Seq<char>
    decreases n,
{
    if n <= 0 {
        Seq::empty()
    } else {
        selector_tail(names, n - 1) + "::"@ + names[n - 1]@
    }
}

impl AAMBuilder {
    /// An empty builder.
    pub fn new() -> (r: Self)
        ensures
            r@ == Seq::<char>::empty(),
    {
        AAMBuilder { buffer: String::new() }
    }

    /// An empty builder that expects `capacity` bytes of text. The
    /// number is a hint: the builder holds no text, whatever it is.
    pub fn with_capacity(capacity: usize) -> (r: Self)
        ensures
            r@ == Seq::<char>::empty(),
    {
        AAMBuilder { buffer: String::new() }
    }

    fn push_sep(&mut self)
        ensures
            final(self)@ == separated(old(self)@),
    {
        if self.buffer.as_str().unicode_len() != 0 {
            push_char(&mut self.buffer, '\n');
        }
    }

    /// Appends the assignment `key = value`.
    pub fn add_line(&mut self, key: &str, value: &str) -> (r: &mut Self)
        ensures
            r@ == separated(old(self)@) + key@ + " = "@ + value@,
            *final(self) == *final(r),
    {
        self.push_sep();
        self.buffer.append(key);
        self.buffer.append(" = ");
        self.buffer.append(value);
        self
    }

    /// Appends the comment `# text`.
    pub fn comment(&mut self, text: &str) -> (r: &mut Self)
        ensures
            r@ == separated(old(self)@) + "# "@ + text@,
            *final(self) == *final(r),
    {
        self.push_sep();
        self.buffer.append("# ");
        self.buffer.append(text);
        self
    }

    /// Appends `@schema Name { field: type, field*: type }`.
    pub fn schema(&mut self, name: &str, fields: &[SchemaField]) -> (r: &mut Self)
        ensures
            r@ == separated(old(self)@) + "@schema "@ + name@ + " { "@ + fields_inline(
                field_models(fields@),
                fields@.len() as int,
            ) + " }"@,
            *final(self) == *final(r),
    {
        self.push_sep();
        self.buffer.append("@schema ");
        self.buffer.append(name);
        self.buffer.append(" { ");
        let ghost head = self.buffer@;
        let n: usize = fields.len();
        let mut i: usize = 0;
        proof {
            assert(head + Seq::<char>::empty() =~= head);
        }
        while i < n
            invariant
                i <= n,
                n == fields@.len(),
                self.buffer@ == head + fields_inline(field_models(fields@), i as int),
            decreases n - i,
        {
            let ghost before = self.buffer@;
            if i > 0 {
                self.buffer.append(", ");
            }
            let text = fields[i].to_aaml();
            self.buffer.append(text.as_str());
            proof {
                assert(field_models(fields@)[i as int] == fields@[i as int]@);
                assert(self.buffer@ =~= head + fields_inline(field_models(fields@), i + 1));
            }
            i += 1;
        }
        self.buffer.append(" }");
        proof {
            assert(self.buffer@ =~= separated(old(self)@) + "@schema "@ + name@ + " { "@
                + fields_inline(field_models(fields@), fields@.len() as int) + " }"@);
        }
        self
    }

    /// Appends a `@schema` block with each field on a line of its own.
    pub fn schema_multiline(&mut self, name: &str, fields: &[SchemaField]) -> (r: &mut Self)
        ensures
            r@ == (separated(old(self)@) + "@schema "@ + name@ + " {"@ + fields_block(
                field_models(fields@),
                fields@.len() as int,
            )).push('\n').push('}'),
            *final(self) == *final(r),
    {
        self.push_sep();
        self.buffer.append("@schema ");
        self.buffer.append(name);
        self.buffer.append(" {");
        let ghost head = self.buffer@;
        let n: usize = fields.len();
        let mut i: usize = 0;
        proof {
            assert(head + Seq::<char>::empty() =~= head);
        }
        while i < n
            invariant
                i <= n,
                n == fields@.len(),
                self.buffer@ == head + fields_block(field_models(fields@), i as int),
            decreases n - i,
        {
            push_char(&mut self.buffer, '\n');
            self.buffer.append("    ");
            let text = fields[i].to_aaml();
            self.buffer.append(text.as_str());
            proof {
                assert(field_models(fields@)[i as int] == fields@[i as int]@);
                assert(self.buffer@ =~= head + fields_block(field_models(fields@), i + 1));
            }
            i += 1;
        }
        push_char(&mut self.buffer, '\n');
        push_char(&mut self.buffer, '}');
        self
    }

    /// Appends `@derive path`, followed by `::Name` for each schema to
    /// select.
    pub fn derive(&mut self, path: &str, schemas: &[&str]) -> (r: &mut Self)
        ensures
            r@ == separated(old(self)@) + "@derive "@ + path@ + selector_tail(
                schemas@,
                schemas@.len() as int,
            ),
            *final(self) == *final(r),
    {
        self.push_sep();
        self.buffer.append("@derive ");
        self.buffer.append(path);
        let ghost head = self.buffer@;
        let n: usize = schemas.len();
        let mut i: usize = 0;
        proof {
            assert(head + Seq::<char>::empty() =~= head);
        }
        while i < n
            invariant
                i <= n,
                n == schemas@.len(),
                self.buffer@ == head + selector_tail(schemas@, i as int),
            decreases n - i,
        {
            self.buffer.append("::");
            self.buffer.append(schemas[i]);
            proof {
                assert(self.buffer@ =~= head + selector_tail(schemas@, i + 1));
            }
            i += 1;
        }
        self
    }

    /// Appends `@import path`.
    pub fn import(&mut self, path: &str) -> (r: &mut Self)
        ensures
            r@ == separated(old(self)@) + "@import "@ + path@,
            *final(self) == *final(r),
    {
        self.push_sep();
        self.buffer.append("@import ");
        self.buffer.append(path);
        self
    }

    /// Appends `@type alias = type`.
    pub fn type_alias(&mut self, alias: &str, ty: &str) -> (r: &mut Self)
        ensures
            r@ == separated(old(self)@) + "@type "@ + alias@ + " = "@ + ty@,
            *final(self) == *final(r),
    {
        self.push_sep();
        self.buffer.append("@type ");
        self.buffer.append(alias);
        self.buffer.append(" = ");
        self.buffer.append(ty);
        self
    }

    /// Appends a line as it is.
    pub fn add_raw(&mut self, raw_line: &str) -> (r: &mut Self)
        ensures
            r@ == separated(old(self)@) + raw_line@,
            *final(self) == *final(r),
    {
        self.push_sep();
        self.buffer.append(raw_line);
        self
    }

    /// The gathered text; the builder is used up.
    pub fn build(self) -> (r: String)
        ensures
            r@ == self@,
    {
        self.buffer
    }

    /// A copy of the gathered text.
    pub fn as_string(&self) -> (r: String)
        ensures
            r@ == self@,
    {
        self.buffer.clone()
    }

    /// The gathered text as a string slice.
    pub fn as_str(&self) -> (r: &str)
        ensures
            r@ == self@,
    {
        self.buffer.as_str()
    }
}

impl core::ops::Deref for AAMBuilder {
    type Target = str;

    fn deref(&self) -> (r: &str)
        ensures
            r@ == self@,
    {
        self.buffer.as_str()
    }
}

impl Default for AAMBuilder {
    fn default() -> (r: Self)
        ensures
            r@ == Seq::<char>::empty(),
    {
        AAMBuilder::new()
    }
}

} // verus!
