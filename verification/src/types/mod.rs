//! The types that a schema field can be declared with, and their
//! value grammars.

use vstd::prelude::*;
use vstd::string::StringExecFns;
use vstd::string::StrSliceExecFns;
use crate::error::{AamlError, ErrorModel, outcome};
use crate::text::{chars_of, find_in, find_text, join3, join5, str_eq, texts};
use crate::types::list::{ListType, lemma_list_inner_shorter, list_inner, parse_items_spec};
use crate::types::math::{MathTypes, math_check, math_named};
use crate::types::physics::{PhysicsTypes, physics_check, physics_named};
use crate::types::primitive_type::{PrimitiveType, primitive_check, primitive_named};
use crate::types::time::{TimeTypes, time_check, time_named};

pub mod grammar;
pub mod list;
pub mod math;
pub mod physics;
pub mod primitive_type;
pub mod time;

verus! {

/// What every type of the language offers: a lookup by name, the
/// primitive type that stands for it, and a verdict on a value.
pub trait Type: Sized {
    /// What `from_name` returns for `name`.
    spec fn named(name: Seq<char>) -> Result<Self, ErrorModel>;

    /// The primitive type that represents this type best.
    spec fn base(&self) -> PrimitiveType;

    /// The verdict of this type on `value`.
    spec fn check(&self, value: Seq<char>) -> Result<(), ErrorModel>;

    /// Builds the type from its name.
    fn from_name(name: &str) -> (r: Result<Self, AamlError>)
        ensures
            match r {
                Ok(t) => Self::named(name@) == Ok::<Self, ErrorModel>(t),
                Err(e) => Self::named(name@) == Err::<Self, ErrorModel>(e@),
            },
    ;

    /// The primitive type that represents this type best.
    fn base_type(&self) -> (r: PrimitiveType)
        ensures
            r == self.base(),
    ;

    /// Checks `value` against this type.
    fn validate(&self, value: &str) -> (r: Result<(), AamlError>)
        ensures
            outcome(r) == self.check(value@),
    ;
}

/// A built-in type, as a type name resolves to it.
#[derive(Clone, Debug)]
pub enum BuiltinType {
    Primitive(PrimitiveType),
    Math(MathTypes),
    Time(TimeTypes),
    Physics(PhysicsTypes),
    List(ListType),
}

/// What a [`BuiltinType`] stands for in specifications.
pub enum BuiltinModel {
    Primitive(PrimitiveType),
    Math(MathTypes),
    Time(TimeTypes),
    Physics(PhysicsTypes),
    List(Seq<char>),
}

impl View for BuiltinType {
    type V = BuiltinModel;

    open spec fn view(&self) -> BuiltinModel {
        match self {
            BuiltinType::Primitive(p) => BuiltinModel::Primitive(*p),
            BuiltinType::Math(m) => BuiltinModel::Math(*m),
            BuiltinType::Time(t) => BuiltinModel::Time(*t),
            BuiltinType::Physics(p) => BuiltinModel::Physics(*p),
            BuiltinType::List(l) => BuiltinModel::List(l.inner_type@),
        }
    }
}

/// The built-in type that a path denotes: `list<T>`, then
/// `module::name` for the modules `math`, `time` and `physics`, then
/// a primitive name.
pub open spec fn resolve_builtin_spec(path: Seq<char>) -> Result<BuiltinModel, ErrorModel> {
    match list_inner(path) {
        Some(inner) => Ok(BuiltinModel::List(inner)),
        None => {
            let p = find_text(path, "::"@, 0);
            if p >= path.len() {
                match primitive_named(path) {
                    Some(t) => Ok(BuiltinModel::Primitive(t)),
                    None => Err(ErrorModel::NotFound(path)),
                }
            } else {
                let module = path.take(p);
                let name = path.skip(p + "::"@.len());
                if module == "math"@ {
                    match math_named(name) {
                        Some(t) => Ok(BuiltinModel::Math(t)),
                        None => Err(ErrorModel::NotFound(name)),
                    }
                } else if module == "time"@ {
                    match time_named(name) {
                        Some(t) => Ok(BuiltinModel::Time(t)),
                        None => Err(ErrorModel::NotFound(name)),
                    }
                } else if module == "physics"@ {
                    match physics_named(name) {
                        Some(t) => Ok(BuiltinModel::Physics(t)),
                        None => Err(ErrorModel::NotFound(name)),
                    }
                } else {
                    Err(ErrorModel::NotFound(path))
                }
            }
        },
    }
}

/// How deep a type can still nest: one more than the length of the
/// item type's name for a list, zero for any other type.
pub open spec fn weight(b: BuiltinModel) -> nat {
    match b {
        BuiltinModel::List(inner) => inner.len() + 1,
        _ => 0,
    }
}

/// A type that a name resolves to nests less deep than the name is long.
pub proof fn lemma_resolved_weight(path: Seq<char>)
    ensures
        resolve_builtin_spec(path) matches Ok(b) ==> weight(b) <= path.len(),
{
    lemma_list_inner_shorter(path);
}

/// The error for a value that should be a list literal and is none.
pub open spec fn not_a_list(value: Seq<char>) -> ErrorModel {
    ErrorModel::InvalidValue(
        "Expected a list literal in the form [item, item, ...], got '"@ + value + "'"@,
    )
}

/// The error for an item type that is no built-in type.
pub open spec fn unknown_item_type(inner: Seq<char>) -> ErrorModel {
    ErrorModel::NotFound("Unknown list element type '"@ + inner + "'"@)
}

/// The error for a list item that the item type rejected because of
/// `cause`.
pub open spec fn item_failed(item: Seq<char>, inner: Seq<char>, cause: ErrorModel) -> ErrorModel {
    ErrorModel::InvalidValue(
        "List item '"@ + item + "' failed validation for type '"@ + inner + "': "@
            + cause.message(),
    )
}

/// The verdict of a built-in type on `value`.
pub open spec fn check_builtin(b: BuiltinModel, value: Seq<char>) -> Result<(), ErrorModel>
    decreases weight(b), 2nat, 0nat,
{
    match b {
        BuiltinModel::Primitive(p) => primitive_check(p, value),
        BuiltinModel::Math(m) => math_check(m, value),
        BuiltinModel::Time(t) => time_check(t, value),
        BuiltinModel::Physics(p) => physics_check(p, value),
        BuiltinModel::List(inner) => check_list(inner, value),
    }
}

/// The verdict of `list<inner>` on `value`: it must be a list literal,
/// `inner` must be a built-in type, and every item must fit it. The
/// first item that does not fit is named.
pub open spec fn check_list(inner: Seq<char>, value: Seq<char>) -> Result<(), ErrorModel>
    decreases inner.len() + 1, 1nat, 0nat,
{
    match parse_items_spec(value) {
        None => Err(not_a_list(value)),
        Some(items) => match resolve_builtin_spec(inner) {
            Err(_) => Err(unknown_item_type(inner)),
            Ok(_) => check_items(inner, items, 0),
        },
    }
}

/// The verdict of the item type `inner` on `items[i..]`.
pub open spec fn check_items(inner: Seq<char>, items: Seq<Seq<char>>, i: int) -> Result<
    (),
    ErrorModel,
>
    decreases inner.len() + 1, 0nat, items.len() - i,
{
    if i < 0 || i >= items.len() {
        Ok(())
    } else {
        match resolve_builtin_spec(inner) {
            Err(_) => Err(unknown_item_type(inner)),
            Ok(b) => {
                proof {
                    lemma_resolved_weight(inner);
                }
                match check_builtin(b, items[i]) {
                    Err(e) => Err(item_failed(items[i], inner, e)),
                    Ok(_) => check_items(inner, items, i + 1),
                }
            },
        }
    }
}

/// Resolves a type from a module path or a primitive name.
pub fn resolve_builtin(path: &str) -> (r: Result<BuiltinType, AamlError>)
    ensures
        match r {
            Ok(b) => resolve_builtin_spec(path@) == Ok::<_, ErrorModel>(b@),
            Err(e) => resolve_builtin_spec(path@) == Err::<BuiltinModel, _>(e@),
        },
{
    if let Some(inner) = ListType::parse_inner(path) {
        return Ok(BuiltinType::List(ListType::new(inner)));
    }
    let cs = chars_of(path);
    let sep = chars_of("::");
    let n: usize = cs.len();
    let p = find_in(cs.as_slice(), sep.as_slice(), 0);
    if p >= n {
        return match PrimitiveType::from_name(path) {
            Ok(t) => Ok(BuiltinType::Primitive(t)),
            Err(e) => Err(e),
        };
    }
    proof {
        assert(path@.subrange(0, p as int) =~= path@.take(p as int));
        assert(path@.subrange(p + sep@.len(), n as int) =~= path@.skip(p + "::"@.len()));
    }
    let module = path.substring_char(0, p);
    let name = path.substring_char(p + sep.len(), n);
    if str_eq(module, "math") {
        match MathTypes::from_name(name) {
            Ok(t) => Ok(BuiltinType::Math(t)),
            Err(e) => Err(e),
        }
    } else if str_eq(module, "time") {
        match TimeTypes::from_name(name) {
            Ok(t) => Ok(BuiltinType::Time(t)),
            Err(e) => Err(e),
        }
    } else if str_eq(module, "physics") {
        match PhysicsTypes::from_name(name) {
            Ok(t) => Ok(BuiltinType::Physics(t)),
            Err(e) => Err(e),
        }
    } else {
        Err(AamlError::NotFound(String::from_str(path)))
    }
}

/// Checks `value` against a built-in type.
pub fn validate_builtin(b: &BuiltinType, value: &str) -> (r: Result<(), AamlError>)
    ensures
        outcome(r) == check_builtin(b@, value@),
    decreases weight(b@), 2nat, 0nat,
{
    match b {
        BuiltinType::Primitive(p) => p.validate(value),
        BuiltinType::Math(m) => m.validate(value),
        BuiltinType::Time(t) => t.validate(value),
        BuiltinType::Physics(p) => p.validate(value),
        BuiltinType::List(l) => validate_list(l.inner_type.as_str(), value),
    }
}

/// Checks the list literal `value` against the item type `inner`.
pub fn validate_list(inner: &str, value: &str) -> (r: Result<(), AamlError>)
    ensures
        outcome(r) == check_list(inner@, value@),
    decreases inner@.len() + 1, 1nat, 0nat,
{
    let items = match ListType::parse_items(value) {
        Some(items) => items,
        None => {
            return Err(
                AamlError::InvalidValue(
                    join3(
                        "Expected a list literal in the form [item, item, ...], got '",
                        value,
                        "'",
                    ),
                ),
            );
        },
    };
    let b = match resolve_builtin(inner) {
        Ok(b) => b,
        Err(_) => {
            return Err(AamlError::NotFound(join3("Unknown list element type '", inner, "'")));
        },
    };
    proof {
        lemma_resolved_weight(inner@);
    }
    let n: usize = items.len();
    let mut i: usize = 0;
    while i < n
        invariant
            i <= n,
            n == items@.len(),
            resolve_builtin_spec(inner@) == Ok::<_, ErrorModel>(b@),
            weight(b@) <= inner@.len(),
            check_list(inner@, value@) == check_items(inner@, texts(items@), i as int),
        decreases n - i,
    {
        proof {
            assert(texts(items@)[i as int] == items@[i as int]@);
        }
        match validate_builtin(&b, items[i].as_str()) {
            Ok(_) => {},
            Err(e) => {
                let cause = e.to_string();
                let mut msg = join5(
                    "List item '",
                    items[i].as_str(),
                    "' failed validation for type '",
                    inner,
                    "': ",
                );
                msg.append(cause.as_str());
                return Err(AamlError::InvalidValue(msg));
            },
        }
        i += 1;
    }
    Ok(())
}

} // verus!
