use crate::array::Array;
use crate::datum::FromDatum;
use crate::variadic::VariadicArray;
use core::any::TypeId;
use vstd::prelude::*;
use vstd::string::StringExecFns;

verus! {

/// std's `TypeId`: an opaque value that is carried through and never looked into.
#[verifier::external_type_specification]
#[verifier::external_body]
pub struct ExTypeId(TypeId);

/// `Clone::clone` of std's `TypeId`, which is `Copy`: the clone is the
/// identifier itself.
pub assume_specification[ <TypeId as Clone>::clone ](id: &TypeId) -> (copy: TypeId)
    ensures
        copy == *id,
;

/// `Clone::clone` of std's `Result`. Nothing is claimed of the clone: it is
/// made by the `clone` of what the result holds.
pub assume_specification<T: Clone, E: Clone>[ <Result<T, E> as Clone>::clone ](
    result: &Result<T, E>,
) -> (copy: Result<T, E>)
;

/// Why a type cannot stand as the argument of a function.
#[derive(Clone, Copy, Debug, Hash, Ord, PartialOrd, PartialEq, Eq)]
pub enum ArgumentError {
    SetOf,
    Table,
    BareU8,
    SkipInArray,
    Datum,
    NotValidAsArgument(&'static str),
}

/// How a type is written in SQL.
#[derive(Clone, Debug, Hash, Eq, PartialEq, Ord, PartialOrd)]
pub enum SqlMapping {
    /// By this text.
    As(String),
    /// As a composite type, named elsewhere.
    Composite { array_brackets: bool },
    /// As the source spells it.
    Source { array_brackets: bool },
    /// Not at all.
    Skip,
}

/// What a `SqlMapping` holds.
pub enum SqlMappingView {
    As(Seq<char>),
    Composite { array_brackets: bool },
    Source { array_brackets: bool },
    Skip,
}

impl View for SqlMapping {
    type V = SqlMappingView;

    open spec fn view(&self) -> SqlMappingView {
        match self {
            SqlMapping::As(sql) => SqlMappingView::As(sql@),
            SqlMapping::Composite { array_brackets } => SqlMappingView::Composite {
                array_brackets: *array_brackets,
            },
            SqlMapping::Source { array_brackets } => SqlMappingView::Source {
                array_brackets: *array_brackets,
            },
            SqlMapping::Skip => SqlMappingView::Skip,
        }
    }
}

/// What a function returns, as SQL declares it.
#[derive(Clone, Debug, Hash, Eq, PartialEq, Ord, PartialOrd)]
pub enum Returns {
    One(SqlMapping),
    SetOf(SqlMapping),
    Table(Vec<SqlMapping>),
}

/// What a `Returns` holds.
pub enum ReturnsView {
    One(SqlMappingView),
    SetOf(SqlMappingView),
    Table(Seq<SqlMappingView>),
}

impl View for Returns {
    type V = ReturnsView;

    open spec fn view(&self) -> ReturnsView {
        match self {
            Returns::One(mapping) => ReturnsView::One(mapping@),
            Returns::SetOf(mapping) => ReturnsView::SetOf(mapping@),
            Returns::Table(columns) => ReturnsView::Table(
                Seq::new(columns@.len(), |i: int| columns@[i]@),
            ),
        }
    }
}

/// Why a type cannot stand as what a function returns.
#[derive(Clone, Copy, Debug, Hash, Ord, PartialOrd, PartialEq, Eq)]
pub enum ReturnsError {
    NestedSetOf,
    NestedTable,
    SetOfContainingTable,
    TableContainingSetOf,
    SetOfInArray,
    TableInArray,
    BareU8,
    SkipInArray,
    Datum,
}

/// The SQL text of what a function returns.
#[derive(Clone, Debug, Hash, Eq, PartialEq, Ord, PartialOrd)]
pub enum ReturnVariant {
    Plain(String),
    SetOf(String),
    Table(Vec<String>),
}

/// Why a return type has no SQL text.
#[derive(Clone, Copy, Debug, Hash, Ord, PartialOrd, PartialEq, Eq)]
pub enum ReturnVariantError {
    NestedSetOf,
    NestedTable,
    SetOfContainingTable,
    TableContainingSetOf,
    SetOfInArray,
    TableInArray,
    BareU8,
}

impl ReturnVariantError {
    /// The message that `to_string` gives.
    pub open spec fn message(self) -> Seq<char> {
        match self {
            ReturnVariantError::NestedSetOf => "Nested SetReturningFunctionIterator in return type"@,
            ReturnVariantError::NestedTable => "Nested TableIterator in return type"@,
            ReturnVariantError::SetOfContainingTable => "SetReturningFunctionIterator containing TableIterator in return type"@,
            ReturnVariantError::TableContainingSetOf => "TableIterator containing SetReturningFunctionIterator in return type"@,
            ReturnVariantError::SetOfInArray => "TableIterator inside Array is not valid"@,
            ReturnVariantError::TableInArray => "TableIterator inside Array is not valid"@,
            ReturnVariantError::BareU8 => "Canot use bare u8"@,
        }
    }

    /// The error in words.
    pub fn to_string(&self) -> (text: String)
        ensures
            text@ == self.message(),
    {
        match self {
            ReturnVariantError::NestedSetOf => {
                "Nested SetReturningFunctionIterator in return type".to_owned()
            },
            ReturnVariantError::NestedTable => { "Nested TableIterator in return type".to_owned() },
            ReturnVariantError::SetOfContainingTable => {
                "SetReturningFunctionIterator containing TableIterator in return type".to_owned()
            },
            ReturnVariantError::TableContainingSetOf => {
                "TableIterator containing SetReturningFunctionIterator in return type".to_owned()
            },
            ReturnVariantError::SetOfInArray => {
                "TableIterator inside Array is not valid".to_owned()
            },
            ReturnVariantError::TableInArray => {
                "TableIterator inside Array is not valid".to_owned()
            },
            ReturnVariantError::BareU8 => { "Canot use bare u8".to_owned() },
        }
    }
}

/// What is known of a type that a function takes or returns.
#[derive(Clone, Debug, Hash, Eq, PartialEq, Ord, PartialOrd)]
pub struct FunctionMetadataTypeEntity {
    pub type_id: TypeId,
    pub rust_type_name: &'static str,
    pub argument_sql: Result<Option<String>, ArgumentError>,
    pub return_sql: Result<ReturnVariant, ReturnVariantError>,
    pub variadic: bool,
    pub optional: bool,
}

/// What a fallible `SqlMapping` holds.
pub open spec fn argument_view(mapping: Result<SqlMapping, ArgumentError>) -> Result<
    SqlMappingView,
    ArgumentError,
> {
    match mapping {
        Ok(mapping) => Ok(mapping@),
        Err(e) => Err(e),
    }
}

/// What a fallible `Returns` holds.
pub open spec fn returns_view(declared: Result<Returns, ReturnsError>) -> Result<
    ReturnsView,
    ReturnsError,
> {
    match declared {
        Ok(declared) => Ok(declared@),
        Err(e) => Err(e),
    }
}

/// The SQL of an array as an argument, from that of its element type:
/// text gets `[]` behind it, composite and source mappings get their
/// brackets, and a type without SQL cannot be the element of an array.
pub open spec fn array_argument(element: Result<SqlMappingView, ArgumentError>) -> Result<
    SqlMappingView,
    ArgumentError,
> {
    match element {
        Ok(SqlMappingView::As(sql)) => Ok(SqlMappingView::As(sql + "[]"@)),
        Ok(SqlMappingView::Skip) => Err(ArgumentError::SkipInArray),
        Ok(SqlMappingView::Composite { .. }) => Ok(
            SqlMappingView::Composite { array_brackets: true },
        ),
        Ok(SqlMappingView::Source { .. }) => Ok(SqlMappingView::Source { array_brackets: true }),
        Err(e) => Err(e),
    }
}

/// The SQL of an array as what a function returns, from that of its
/// element type: one value becomes an array as an argument does, and neither
/// a set nor a table can be the element of an array.
pub open spec fn array_returns(element: Result<ReturnsView, ReturnsError>) -> Result<
    ReturnsView,
    ReturnsError,
> {
    match element {
        Ok(ReturnsView::One(SqlMappingView::As(sql))) => Ok(
            ReturnsView::One(SqlMappingView::As(sql + "[]"@)),
        ),
        Ok(ReturnsView::One(SqlMappingView::Composite { .. })) => Ok(
            ReturnsView::One(SqlMappingView::Composite { array_brackets: true }),
        ),
        Ok(ReturnsView::One(SqlMappingView::Source { .. })) => Ok(
            ReturnsView::One(SqlMappingView::Source { array_brackets: true }),
        ),
        Ok(ReturnsView::One(SqlMappingView::Skip)) => Err(ReturnsError::SkipInArray),
        Ok(ReturnsView::SetOf(_)) => Err(ReturnsError::SetOfInArray),
        Ok(ReturnsView::Table(_)) => Err(ReturnsError::TableInArray),
        Err(e) => Err(e),
    }
}

/// The SQL of an array as an argument, from that of its element type.
pub fn argument_sql(element: Result<SqlMapping, ArgumentError>) -> (r: Result<
    SqlMapping,
    ArgumentError,
>)
    ensures
        argument_view(r) == array_argument(argument_view(element)),
{
    match element {
        Ok(SqlMapping::As(sql)) => Ok(SqlMapping::As(sql.concat("[]"))),
        Ok(SqlMapping::Skip) => Err(ArgumentError::SkipInArray),
        Ok(SqlMapping::Composite { .. }) => Ok(SqlMapping::Composite { array_brackets: true }),
        Ok(SqlMapping::Source { .. }) => Ok(SqlMapping::Source { array_brackets: true }),
        Err(e) => Err(e),
    }
}

/// The SQL of an array as what a function returns, from that of its
/// element type.
pub fn return_sql(element: Result<Returns, ReturnsError>) -> (r: Result<Returns, ReturnsError>)
    ensures
        returns_view(r) == array_returns(returns_view(element)),
{
    match element {
        Ok(Returns::One(SqlMapping::As(sql))) => Ok(Returns::One(SqlMapping::As(sql.concat("[]")))),
        Ok(Returns::One(SqlMapping::Composite { array_brackets: _ })) => Ok(
            Returns::One(SqlMapping::Composite { array_brackets: true }),
        ),
        Ok(Returns::One(SqlMapping::Source { array_brackets: _ })) => Ok(
            Returns::One(SqlMapping::Source { array_brackets: true }),
        ),
        Ok(Returns::One(SqlMapping::Skip)) => Err(ReturnsError::SkipInArray),
        Ok(Returns::SetOf(_)) => Err(ReturnsError::SetOfInArray),
        Ok(Returns::Table(_)) => Err(ReturnsError::TableInArray),
        Err(e) => Err(e),
    }
}

impl<T: FromDatum> Array<T> {
    /// The SQL of the array as an argument, from that of its element type.
    pub fn argument_sql(element: Result<SqlMapping, ArgumentError>) -> (r: Result<
        SqlMapping,
        ArgumentError,
    >)
        ensures
            argument_view(r) == array_argument(argument_view(element)),
    {
        self::argument_sql(element)
    }

    /// The SQL of the array as what a function returns, from that of its
    /// element type.
    pub fn return_sql(element: Result<Returns, ReturnsError>) -> (r: Result<Returns, ReturnsError>)
        ensures
            returns_view(r) == array_returns(returns_view(element)),
    {
        self::return_sql(element)
    }
}

impl<T: FromDatum> VariadicArray<T> {
    /// The SQL of the array as an argument, from that of its element type.
    pub fn argument_sql(element: Result<SqlMapping, ArgumentError>) -> (r: Result<
        SqlMapping,
        ArgumentError,
    >)
        ensures
            argument_view(r) == array_argument(argument_view(element)),
    {
        self::argument_sql(element)
    }

    /// The SQL of the array as what a function returns, from that of its
    /// element type.
    pub fn return_sql(element: Result<Returns, ReturnsError>) -> (r: Result<Returns, ReturnsError>)
        ensures
            returns_view(r) == array_returns(returns_view(element)),
    {
        self::return_sql(element)
    }

    /// Whether the type takes the trailing arguments of a call: it does.
    pub fn variadic() -> (b: bool)
        ensures
            b,
    {
        true
    }
}

} // verus!
