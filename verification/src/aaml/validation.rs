//! Validation of values against schemas: single fields, inline
//! objects, lists, whole maps, and the completeness of a document.

use vstd::prelude::*;
use vstd::string::StringExecFns;
use super::{AAML, DocModel};
use super::parsing::{
    is_inline_object, is_inline_object_spec, lemma_inline_values_shorter, pair_texts,
    parse_inline_object, parse_inline_object_spec,
};
use crate::commands::schema::SchemaModel;
use crate::commands::typecm::{TypeDefinition, TypeModel, type_check};
use crate::error::{AamlError, ErrorModel, outcome};
use crate::table::{Table, contains, lemma_lookup_last_member, lookup, lookup_last};
use crate::text::{as_strs, join3, join5, slices, str_eq, texts};
use crate::types::list::{
    ListType, lemma_items_shorter, lemma_list_inner_shorter, list_inner, parse_items_spec,
};
use crate::types::{
    BuiltinModel, BuiltinType, Type, check_builtin, resolve_builtin, resolve_builtin_spec,
    validate_builtin,
};

verus! {

/// The text of a failure, or nothing for a success.
pub open spec fn fault_of(r: Result<(), ErrorModel>) -> Option<Seq<char>> {
    match r {
        Ok(_) => None,
        Err(e) => Some(e.message()),
    }
}

/// The detail of the error for a type name that resolves to nothing.
pub open spec fn unknown_type(ty: Seq<char>) -> Seq<char> {
    "Unknown type '"@ + ty + "'"@
}

/// The error for a value that should be an inline object and is none.
pub open spec fn not_an_object(name: Seq<char>, value: Seq<char>) -> ErrorModel {
    ErrorModel::InvalidValue(
        "Field typed as schema '"@ + name + "' must be an inline object '{ k = v, ... }', got: '"@
            + value + "'"@,
    )
}

/// The error for an inline object that cannot be read.
pub open spec fn object_unreadable(name: Seq<char>, cause: Seq<char>) -> ErrorModel {
    ErrorModel::InvalidValue("Failed to parse inline object for schema '"@ + name + "': "@ + cause)
}

/// The error for a required field that an inline object lacks.
pub open spec fn missing_in_object(name: Seq<char>, field: Seq<char>, ty: Seq<char>) -> ErrorModel {
    ErrorModel::Schema {
        schema: name,
        field,
        ty,
        details: "Missing field '"@ + field + "' in inline object for schema '"@ + name + "'"@,
    }
}

/// The error for a value that should be a list literal and is none.
pub open spec fn not_a_list_literal(value: Seq<char>) -> ErrorModel {
    ErrorModel::InvalidValue("Expected a list literal '[…]', got '"@ + value + "'"@)
}

/// The error for a list item that its type rejected because of `cause`.
pub open spec fn list_item_failed(item: Seq<char>, inner: Seq<char>, cause: ErrorModel) -> ErrorModel {
    ErrorModel::InvalidValue(
        "List item '"@ + item + "' failed for type '"@ + inner + "': "@ + cause.message(),
    )
}

/// The error for an item type that resolves to nothing.
pub open spec fn unknown_list_type(inner: Seq<char>) -> ErrorModel {
    ErrorModel::NotFound("Unknown list element type '"@ + inner + "'"@)
}

/// The error for a required field that has no value.
pub open spec fn missing_required(schema: Seq<char>, field: Seq<char>, ty: Seq<char>) -> ErrorModel {
    ErrorModel::Schema { schema, field, ty, details: "Missing required field '"@ + field + "'"@ }
}

/// The verdict on `value` as the field `field` of the schema
/// `schema`, declared with the type `ty`. Any failure is reported as
/// a schema error that names the schema, the field and the type, with
/// the cause as its detail.
pub open spec fn typed_field_spec(
    doc: DocModel,
    ty: Seq<char>,
    value: Seq<char>,
    schema: Seq<char>,
    field: Seq<char>,
) -> Result<(), ErrorModel>
    decreases value.len(), ty.len(), 3nat, 0nat,
{
    match field_fault(doc, ty, value) {
        None => Ok(()),
        Some(details) => Err(ErrorModel::Schema { schema, field, ty, details }),
    }
}

/// What a type name resolves to.
#[derive(Debug)]
pub enum TypeRef<'a> {
    /// A type registered with `@type`.
    Custom(&'a TypeDefinition),
    /// A registered schema, by its name.
    SchemaName(String),
    /// A list, by the name of the type of its items.
    ListOf(String),
    /// A built-in type.
    Builtin(BuiltinType),
}

/// What a [`TypeRef`] stands for in specifications.
pub enum TypeRefModel {
    Custom(TypeModel),
    SchemaName(Seq<char>),
    ListOf(Seq<char>),
    Builtin(BuiltinModel),
}

impl<'a> View for TypeRef<'a> {
    type V = TypeRefModel;

    open spec fn view(&self) -> TypeRefModel {
        match self {
            TypeRef::Custom(def) => TypeRefModel::Custom(def@),
            TypeRef::SchemaName(name) => TypeRefModel::SchemaName(name@),
            TypeRef::ListOf(inner) => TypeRefModel::ListOf(inner@),
            TypeRef::Builtin(b) => TypeRefModel::Builtin(b@),
        }
    }
}

/// What the type name `name` resolves to, in a fixed order of
/// precedence: a type registered under exactly that name, a schema
/// registered under exactly that name, `list<T>`, a built-in type;
/// nothing where none of these matches.
pub open spec fn resolve_type_spec(doc: DocModel, name: Seq<char>) -> Option<TypeRefModel> {
    if contains(doc.types, name) {
        Some(TypeRefModel::Custom(lookup(doc.types, name)->Some_0))
    } else if contains(doc.schemas, name) {
        Some(TypeRefModel::SchemaName(name))
    } else if list_inner(name) is Some {
        Some(TypeRefModel::ListOf(list_inner(name)->Some_0))
    } else {
        match resolve_builtin_spec(name) {
            Ok(b) => Some(TypeRefModel::Builtin(b)),
            Err(_) => None,
        }
    }
}

/// Why `value` does not fit the type named `ty`, or nothing where it
/// fits. A name that resolves to nothing fits no value.
pub open spec fn field_fault(doc: DocModel, ty: Seq<char>, value: Seq<char>) -> Option<Seq<char>>
    decreases value.len(), ty.len(), 2nat, 0nat,
{
    match resolve_type_spec(doc, ty) {
        None => Some(unknown_type(ty)),
        Some(TypeRefModel::Custom(def)) => fault_of(type_check(def, value)),
        Some(TypeRefModel::SchemaName(name)) => fault_of(object_spec(doc, value, name)),
        Some(TypeRefModel::ListOf(inner)) => {
            proof {
                lemma_list_inner_shorter(ty);
            }
            fault_of(list_spec(doc, value, inner))
        },
        Some(TypeRefModel::Builtin(b)) => fault_of(check_builtin(b, value)),
    }
}

/// The verdict on `value` as an inline object of the schema `name`:
/// every declared field that is present must fit its type, and every
/// required field must be present. Keys that the schema does not
/// declare are ignored. Where a key is written twice, the last counts.
pub open spec fn object_spec(doc: DocModel, value: Seq<char>, name: Seq<char>) -> Result<
    (),
    ErrorModel,
>
    decreases value.len(), name.len(), 1nat, 0nat,
{
    if !is_inline_object_spec(value) {
        Err(not_an_object(name, value))
    } else {
        match parse_inline_object_spec(value) {
            Err(e) => Err(object_unreadable(name, e)),
            Ok(_) => object_fields_spec(doc, value, name, 0),
        }
    }
}

/// The schema registered under `name`, or one without fields.
pub open spec fn schema_of(doc: DocModel, name: Seq<char>) -> SchemaModel {
    match lookup(doc.schemas, name) {
        Some(s) => s,
        None => SchemaModel::empty(),
    }
}

/// The verdict on the fields of the schema `name` from the `i`-th on,
/// read from the inline object `value`.
pub open spec fn object_fields_spec(
    doc: DocModel,
    value: Seq<char>,
    name: Seq<char>,
    i: int,
) -> Result<(), ErrorModel>
    decreases value.len(), name.len(), 0nat, schema_of(doc, name).fields.len() - i,
{
    let schema = schema_of(doc, name);
    if i < 0 || i >= schema.fields.len() {
        Ok(())
    } else {
        match parse_inline_object_spec(value) {
            Err(_) => Ok(()),
            Ok(pairs) => {
                let (field, ty) = schema.fields[i];
                match lookup_last(pairs, field) {
                    None => if schema.is_optional(field) {
                        object_fields_spec(doc, value, name, i + 1)
                    } else {
                        Err(missing_in_object(name, field, ty))
                    },
                    Some(v) => {
                        proof {
                            lemma_inline_values_shorter(value);
                            lemma_lookup_last_member(pairs, field);
                        }
                        match typed_field_spec(doc, ty, v, name, field) {
                            Err(e) => Err(e),
                            Ok(_) => object_fields_spec(doc, value, name, i + 1),
                        }
                    },
                }
            },
        }
    }
}

/// The verdict on `value` as a list whose items have the type named
/// `inner`.
pub open spec fn list_spec(doc: DocModel, value: Seq<char>, inner: Seq<char>) -> Result<
    (),
    ErrorModel,
>
    decreases value.len(), inner.len(), 1nat, 0nat,
{
    match parse_items_spec(value) {
        None => Err(not_a_list_literal(value)),
        Some(_) => list_items_spec(doc, value, inner, 0),
    }
}

/// The verdict on one item of a list whose items have the type
/// named `inner`. The name is resolved as a field's type is. A
/// failure inside an item that is an object or a list is reported as
/// it is; any other names the item.
pub open spec fn item_spec(doc: DocModel, inner: Seq<char>, item: Seq<char>) -> Result<
    (),
    ErrorModel,
>
    decreases item.len(), inner.len(), 2nat, 0nat,
{
    match resolve_type_spec(doc, inner) {
        None => Err(unknown_list_type(inner)),
        Some(TypeRefModel::Custom(def)) => match type_check(def, item) {
            Err(e) => Err(list_item_failed(item, inner, e)),
            Ok(_) => Ok(()),
        },
        Some(TypeRefModel::SchemaName(name)) => object_spec(doc, item, name),
        Some(TypeRefModel::ListOf(deeper)) => {
            proof {
                lemma_list_inner_shorter(inner);
            }
            list_spec(doc, item, deeper)
        },
        Some(TypeRefModel::Builtin(b)) => match check_builtin(b, item) {
            Err(e) => Err(list_item_failed(item, inner, e)),
            Ok(_) => Ok(()),
        },
    }
}

/// The verdict on the items of the list `value` from the `i`-th on:
/// that of the first item that fails, or success.
pub open spec fn list_items_spec(
    doc: DocModel,
    value: Seq<char>,
    inner: Seq<char>,
    i: int,
) -> Result<(), ErrorModel>
    decreases value.len(), inner.len(), 0nat, parse_items_spec(value)->Some_0.len() - i,
{
    match parse_items_spec(value) {
        None => Ok(()),
        Some(items) => if i < 0 || i >= items.len() {
            Ok(())
        } else {
            proof {
                lemma_items_shorter(value);
            }
            match item_spec(doc, inner, items[i]) {
                Err(e) => Err(e),
                Ok(_) => list_items_spec(doc, value, inner, i + 1),
            }
        },
    }
}

/// The value of the last pair whose key is `key`.
pub fn last_value<'a>(pairs: &'a Vec<(String, String)>, key: &str) -> (r: Option<&'a String>)
    ensures
        match r {
            Some(v) => lookup_last(pair_texts(pairs@), key@) == Some(v@),
            None => lookup_last(pair_texts(pairs@), key@) is None,
        },
{
    let mut i: usize = pairs.len();
    proof {
        assert(pair_texts(pairs@).take(i as int) =~= pair_texts(pairs@));
    }
    while i > 0
        invariant
            i <= pairs@.len(),
            lookup_last(pair_texts(pairs@), key@) == lookup_last(
                pair_texts(pairs@).take(i as int),
                key@,
            ),
        decreases i,
    {
        proof {
            assert(pair_texts(pairs@).take(i as int).drop_last() =~= pair_texts(pairs@).take(
                i - 1,
            ));
            assert(pair_texts(pairs@).take(i as int).last() == (
                pairs@[i - 1].0@,
                pairs@[i - 1].1@,
            ));
        }
        if str_eq(pairs[i - 1].0.as_str(), key) {
            return Some(&pairs[i - 1].1);
        }
        i -= 1;
    }
    None
}

impl AAML {
    /// Resolves a type name: to the type registered under it, else to
    /// the schema registered under it, else to `list<T>`, else to the
    /// built-in type of that name. A name that is none of these is
    /// reported as not found.
    pub fn resolve_type<'a>(&'a self, name: &str) -> (r: Result<TypeRef<'a>, AamlError>)
        ensures
            match r {
                Ok(t) => resolve_type_spec(self@, name@) == Some(t@),
                Err(e) => resolve_type_spec(self@, name@) is None && e@ == ErrorModel::NotFound(
                    name@,
                ),
            },
    {
        if let Some(def) = self.types.get(name) {
            Ok(TypeRef::Custom(def))
        } else if self.schemas.contains_key(name) {
            Ok(TypeRef::SchemaName(String::from_str(name)))
        } else if let Some(inner) = ListType::parse_inner(name) {
            Ok(TypeRef::ListOf(inner))
        } else {
            match resolve_builtin(name) {
                Ok(b) => Ok(TypeRef::Builtin(b)),
                Err(_) => Err(AamlError::NotFound(String::from_str(name))),
            }
        }
    }

    /// Validates `value` as the field `field` of the schema
    /// `schema_name`, declared with the type `ty`.
    ///
    /// The type name is resolved in this order: a registered type, a
    /// registered schema (the value must be an inline object), `list<T>`
    /// (the value must be a list literal), a built-in type.
    pub fn validate_typed_field(
        &self,
        ty: &str,
        value: &str,
        schema_name: &str,
        field: &str,
    ) -> (r: Result<(), AamlError>)
        ensures
            outcome(r) == typed_field_spec(self@, ty@, value@, schema_name@, field@),
        decreases value@.len(), ty@.len(), 3nat, 0nat,
    {
        let verdict: Result<(), AamlError> = match self.resolve_type(ty) {
            Err(_) => {
                return Err(
                    AamlError::SchemaValidationError {
                        schema: String::from_str(schema_name),
                        field: String::from_str(field),
                        ty: String::from_str(ty),
                        details: join3("Unknown type '", ty, "'"),
                    },
                );
            },
            Ok(TypeRef::Custom(def)) => def.validate(value),
            Ok(TypeRef::SchemaName(name)) => self.validate_inline_object_against_schema(
                value,
                name.as_str(),
            ),
            Ok(TypeRef::ListOf(inner)) => {
                proof {
                    lemma_list_inner_shorter(ty@);
                }
                self.validate_list_value(value, inner.as_str())
            },
            Ok(TypeRef::Builtin(b)) => validate_builtin(&b, value),
        };
        match verdict {
            Ok(_) => Ok(()),
            Err(e) => Err(
                AamlError::SchemaValidationError {
                    schema: String::from_str(schema_name),
                    field: String::from_str(field),
                    ty: String::from_str(ty),
                    details: e.to_string(),
                },
            ),
        }
    }

    /// Validates an inline object literal `{ key = val, ... }` against
    /// the schema registered under `schema_name`.
    pub fn validate_inline_object_against_schema(&self, value: &str, schema_name: &str) -> (r:
        Result<(), AamlError>)
        ensures
            outcome(r) == object_spec(self@, value@, schema_name@),
        decreases value@.len(), schema_name@.len(), 1nat, 0nat,
    {
        if !is_inline_object(value) {
            return Err(
                AamlError::InvalidValue(
                    join5(
                        "Field typed as schema '",
                        schema_name,
                        "' must be an inline object '{ k = v, ... }', got: '",
                        value,
                        "'",
                    ),
                ),
            );
        }
        let pairs = match parse_inline_object(value) {
            Ok(pairs) => pairs,
            Err(e) => {
                let mut msg = join3("Failed to parse inline object for schema '", schema_name, "': ");
                msg.append(e.as_str());
                return Err(AamlError::InvalidValue(msg));
            },
        };
        let schema = match self.schemas.get(schema_name) {
            Some(s) => s,
            None => {
                return Ok(());
            },
        };
        let n: usize = schema.fields.len();
        let mut i: usize = 0;
        while i < n
            invariant
                i <= n,
                n == schema@.fields.len(),
                schema_of(self@, schema_name@) == schema@,
                parse_inline_object_spec(value@) == Ok::<_, Seq<char>>(pair_texts(pairs@)),
                forall|k: int|
                    0 <= k < pairs@.len() ==> (#[trigger] pairs@[k]).1@.len() < value@.len(),
                object_spec(self@, value@, schema_name@) == object_fields_spec(
                    self@,
                    value@,
                    schema_name@,
                    i as int,
                ),
            decreases n - i,
        {
            let field = schema.fields.key_at(i);
            let ty = schema.fields.value_at(i);
            match last_value(&pairs, field.as_str()) {
                None => {
                    if !schema.is_optional(field.as_str()) {
                        let mut msg = join5(
                            "Missing field '",
                            field.as_str(),
                            "' in inline object for schema '",
                            schema_name,
                            "'",
                        );
                        return Err(
                            AamlError::SchemaValidationError {
                                schema: String::from_str(schema_name),
                                field: field.clone(),
                                ty: ty.clone(),
                                details: msg,
                            },
                        );
                    }
                },
                Some(v) => {
                    proof {
                        lemma_inline_values_shorter(value@);
                        lemma_lookup_last_member(pair_texts(pairs@), field@);
                    }
                    match self.validate_typed_field(
                        ty.as_str(),
                        v.as_str(),
                        schema_name,
                        field.as_str(),
                    ) {
                        Ok(_) => {},
                        Err(e) => {
                            return Err(e);
                        },
                    }
                },
            }
            i += 1;
        }
        Ok(())
    }

    /// Validates one item of a list whose items have the type named
    /// `inner`.
    pub fn validate_list_item(&self, item: &str, inner: &str) -> (r: Result<(), AamlError>)
        ensures
            outcome(r) == item_spec(self@, inner@, item@),
        decreases item@.len(), inner@.len(), 2nat, 0nat,
    {
        match self.resolve_type(inner) {
            Err(_) => Err(AamlError::NotFound(join3("Unknown list element type '", inner, "'"))),
            Ok(TypeRef::Custom(def)) => match def.validate(item) {
                Ok(_) => Ok(()),
                Err(e) => Err(item_error(item, inner, &e)),
            },
            Ok(TypeRef::SchemaName(name)) => self.validate_inline_object_against_schema(
                item,
                name.as_str(),
            ),
            Ok(TypeRef::ListOf(deeper)) => {
                proof {
                    lemma_list_inner_shorter(inner@);
                }
                self.validate_list_value(item, deeper.as_str())
            },
            Ok(TypeRef::Builtin(b)) => match validate_builtin(&b, item) {
                Ok(_) => Ok(()),
                Err(e) => Err(item_error(item, inner, &e)),
            },
        }
    }

    /// Validates a `[item, …]` literal whose items have the type named
    /// `inner`.
    pub fn validate_list_value(&self, value: &str, inner: &str) -> (r: Result<(), AamlError>)
        ensures
            outcome(r) == list_spec(self@, value@, inner@),
        decreases value@.len(), inner@.len(), 1nat, 0nat,
    {
        let items = match ListType::parse_items(value) {
            Some(items) => items,
            None => {
                return Err(
                    AamlError::InvalidValue(join3("Expected a list literal '[…]', got '", value, "'")),
                );
            },
        };
        let n: usize = items.len();
        let mut i: usize = 0;
        proof {
            lemma_items_shorter(value@);
        }
        while i < n
            invariant
                i <= n,
                n == items@.len(),
                parse_items_spec(value@) == Some(texts(items@)),
                forall|k: int|
                    0 <= k < items@.len() ==> (#[trigger] texts(items@)[k]).len() < value@.len(),
                list_spec(self@, value@, inner@) == list_items_spec(self@, value@, inner@, i as int),
            decreases n - i,
        {
            let item = items[i].as_str();
            proof {
                assert(texts(items@)[i as int] == items@[i as int]@);
            }
            match self.validate_list_item(item, inner) {
                Ok(_) => {},
                Err(e) => {
                    return Err(e);
                },
            }
            i += 1;
        }
        Ok(())
    }
}

/// The error for a list item that does not fit the item type.
fn item_error(item: &str, inner: &str, cause: &AamlError) -> (r: AamlError)
    ensures
        r@ == list_item_failed(item@, inner@, cause@),
{
    let text = cause.to_string();
    let mut msg = join5("List item '", item, "' failed for type '", inner, "': ");
    msg.append(text.as_str());
    AamlError::InvalidValue(msg)
}

/// The verdict on the assignment `field = value`: the first schema,
/// in the order of registration from the `i`-th on, that declares the
/// field decides; where none declares it, the value passes.
pub open spec fn against_schemas_spec(
    doc: DocModel,
    field: Seq<char>,
    value: Seq<char>,
    i: int,
) -> Result<(), ErrorModel>
    decreases doc.schemas.len() - i,
{
    if i < 0 || i >= doc.schemas.len() {
        Ok(())
    } else {
        let (name, schema) = doc.schemas[i];
        match lookup(schema.fields, field) {
            Some(ty) => typed_field_spec(doc, ty, value, name, field),
            None => against_schemas_spec(doc, field, value, i + 1),
        }
    }
}

/// The first required field of `schema`, from the `j`-th on, that has
/// no value in the document, as an error; success where there is none.
pub open spec fn schema_complete_spec(
    doc: DocModel,
    name: Seq<char>,
    schema: SchemaModel,
    j: int,
) -> Result<(), ErrorModel>
    decreases schema.fields.len() - j,
{
    if j < 0 || j >= schema.fields.len() {
        Ok(())
    } else {
        let (field, ty) = schema.fields[j];
        if !schema.is_optional(field) && !contains(doc.map, field) {
            Err(missing_required(name, field, ty))
        } else {
            schema_complete_spec(doc, name, schema, j + 1)
        }
    }
}

/// The completeness of the schemas named by `names[i..]`, taken in
/// that order; a name that is not registered is passed over.
pub open spec fn completeness_for_spec(doc: DocModel, names: Seq<Seq<char>>, i: int) -> Result<
    (),
    ErrorModel,
>
    decreases names.len() - i,
{
    if i < 0 || i >= names.len() {
        Ok(())
    } else {
        let verdict = match lookup(doc.schemas, names[i]) {
            Some(schema) => schema_complete_spec(doc, names[i], schema, 0),
            None => Ok(()),
        };
        match verdict {
            Err(e) => Err(e),
            Ok(_) => completeness_for_spec(doc, names, i + 1),
        }
    }
}

/// The names of the registered schemas, in the order of registration.
pub open spec fn schema_names_spec(doc: DocModel) -> Seq<Seq<char>> {
    doc.schemas.map_values(|e: (Seq<char>, SchemaModel)| e.0)
}

/// The completeness of every registered schema.
pub open spec fn completeness_spec(doc: DocModel) -> Result<(), ErrorModel> {
    completeness_for_spec(doc, schema_names_spec(doc), 0)
}

/// The error for a schema name that is not registered.
pub open spec fn schema_not_found(name: Seq<char>) -> ErrorModel {
    ErrorModel::NotFound("Schema '"@ + name + "' not found"@)
}

/// The verdict on the fields of `schema` from the `i`-th on, read
/// from `data`.
pub open spec fn apply_fields_spec(
    doc: DocModel,
    name: Seq<char>,
    schema: SchemaModel,
    data: Seq<(Seq<char>, Seq<char>)>,
    i: int,
) -> Result<(), ErrorModel>
    decreases schema.fields.len() - i,
{
    if i < 0 || i >= schema.fields.len() {
        Ok(())
    } else {
        let (field, ty) = schema.fields[i];
        let verdict = match lookup(data, field) {
            None => if schema.is_optional(field) {
                Ok(())
            } else {
                Err(missing_required(name, field, ty))
            },
            Some(v) => typed_field_spec(doc, ty, v, name, field),
        };
        match verdict {
            Err(e) => Err(e),
            Ok(_) => apply_fields_spec(doc, name, schema, data, i + 1),
        }
    }
}

/// The verdict on `data` as a value of the schema `name`: the fields
/// are taken in the order of declaration, and the first that is
/// missing though required, or present though ill-typed, is reported.
pub open spec fn apply_schema_spec(
    doc: DocModel,
    name: Seq<char>,
    data: Seq<(Seq<char>, Seq<char>)>,
) -> Result<(), ErrorModel> {
    match lookup(doc.schemas, name) {
        None => Err(schema_not_found(name)),
        Some(schema) => apply_fields_spec(doc, name, schema, data, 0),
    }
}

impl AAML {
    /// Validates the assignment `field = value` against the first
    /// registered schema that declares `field`.
    pub fn validate_against_schemas(&self, field: &str, value: &str) -> (r: Result<(), AamlError>)
        ensures
            outcome(r) == against_schemas_spec(self@, field@, value@, 0),
    {
        let n: usize = self.schemas.len();
        let mut i: usize = 0;
        while i < n
            invariant
                i <= n,
                n == self@.schemas.len(),
                against_schemas_spec(self@, field@, value@, 0) == against_schemas_spec(
                    self@,
                    field@,
                    value@,
                    i as int,
                ),
            decreases n - i,
        {
            let schema = self.schemas.value_at(i);
            if let Some(ty) = schema.fields.get(field) {
                return self.validate_typed_field(
                    ty.as_str(),
                    value,
                    self.schemas.key_at(i).as_str(),
                    field,
                );
            }
            i += 1;
        }
        Ok(())
    }

    /// The names of the registered schemas, in the order of
    /// registration.
    pub fn schema_names(&self) -> (r: Vec<String>)
        ensures
            texts(r@) == schema_names_spec(self@),
    {
        let n: usize = self.schemas.len();
        let mut names: Vec<String> = Vec::new();
        let mut i: usize = 0;
        while i < n
            invariant
                i <= n,
                n == self@.schemas.len(),
                texts(names@) == schema_names_spec(self@).take(i as int),
            decreases n - i,
        {
            let name = self.schemas.key_at(i).clone();
            proof {
                assert(texts(names@.push(name)) =~= texts(names@).push(name@));
                assert(schema_names_spec(self@).take(i + 1) =~= schema_names_spec(self@).take(
                    i as int,
                ).push(name@));
            }
            names.push(name);
            i += 1;
        }
        proof {
            assert(schema_names_spec(self@).take(n as int) =~= schema_names_spec(self@));
        }
        names
    }

    /// Checks that every required field of every registered schema has
    /// a value in the document.
    pub fn validate_schemas_completeness(&self) -> (r: Result<(), AamlError>)
        ensures
            outcome(r) == completeness_spec(self@),
    {
        let names = self.schema_names();
        let names = as_strs(&names);
        self.validate_schemas_completeness_for(names.as_slice())
    }

    /// Checks the required fields of the named schemas only.
    pub fn validate_schemas_completeness_for(&self, schema_names: &[&str]) -> (r: Result<
        (),
        AamlError,
    >)
        ensures
            outcome(r) == completeness_for_spec(self@, slices(schema_names@), 0),
    {
        let n: usize = schema_names.len();
        let mut i: usize = 0;
        while i < n
            invariant
                i <= n,
                n == schema_names@.len(),
                completeness_for_spec(self@, slices(schema_names@), 0) == completeness_for_spec(
                    self@,
                    slices(schema_names@),
                    i as int,
                ),
            decreases n - i,
        {
            let name = schema_names[i];
            proof {
                assert(slices(schema_names@)[i as int] == schema_names@[i as int]@);
            }
            if let Some(schema) = self.schemas.get(name) {
                let m: usize = schema.fields.len();
                let mut j: usize = 0;
                while j < m
                    invariant
                        j <= m,
                        m == schema@.fields.len(),
                        i < n,
                        n == schema_names@.len(),
                        slices(schema_names@)[i as int] == name@,
                        lookup(self@.schemas, name@) == Some(schema@),
                        completeness_for_spec(self@, slices(schema_names@), 0)
                            == completeness_for_spec(self@, slices(schema_names@), i as int),
                        schema_complete_spec(self@, name@, schema@, 0) == schema_complete_spec(
                            self@,
                            name@,
                            schema@,
                            j as int,
                        ),
                    decreases m - j,
                {
                    let field = schema.fields.key_at(j);
                    if !schema.is_optional(field.as_str()) && !self.map.contains_key(
                        field.as_str(),
                    ) {
                        return Err(
                            AamlError::SchemaValidationError {
                                schema: String::from_str(name),
                                field: field.clone(),
                                ty: schema.fields.value_at(j).clone(),
                                details: join3("Missing required field '", field.as_str(), "'"),
                            },
                        );
                    }
                    j += 1;
                }
            }
            i += 1;
        }
        Ok(())
    }

    /// Validates a whole map against the schema `schema_name`, without
    /// touching the document.
    ///
    /// A required field must be present and fit its type; an optional
    /// field must fit its type where it is present. The fields are
    /// taken in the order of their declaration.
    pub fn apply_schema(&self, schema_name: &str, data: &Table<String>) -> (r: Result<
        (),
        AamlError,
    >)
        ensures
            outcome(r) == apply_schema_spec(self@, schema_name@, data@),
    {
        let schema = match self.schemas.get(schema_name) {
            Some(s) => s,
            None => {
                return Err(AamlError::NotFound(join3("Schema '", schema_name, "' not found")));
            },
        };
        let n: usize = schema.fields.len();
        let mut i: usize = 0;
        while i < n
            invariant
                i <= n,
                n == schema@.fields.len(),
                apply_schema_spec(self@, schema_name@, data@) == apply_fields_spec(
                    self@,
                    schema_name@,
                    schema@,
                    data@,
                    i as int,
                ),
            decreases n - i,
        {
            let field = schema.fields.key_at(i);
            let ty = schema.fields.value_at(i);
            match data.get(field.as_str()) {
                None => {
                    if !schema.is_optional(field.as_str()) {
                        return Err(
                            AamlError::SchemaValidationError {
                                schema: String::from_str(schema_name),
                                field: field.clone(),
                                ty: ty.clone(),
                                details: join3("Missing required field '", field.as_str(), "'"),
                            },
                        );
                    }
                },
                Some(v) => {
                    match self.validate_typed_field(
                        ty.as_str(),
                        v.as_str(),
                        schema_name,
                        field.as_str(),
                    ) {
                        Ok(_) => {},
                        Err(e) => {
                            return Err(e);
                        },
                    }
                },
            }
            i += 1;
        }
        Ok(())
    }
}

} // verus!
