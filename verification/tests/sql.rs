use pgrx_array::array::Array;
use pgrx_array::sql::{
    argument_sql, return_sql, ArgumentError, FunctionMetadataTypeEntity, ReturnVariant,
    ReturnVariantError, Returns, ReturnsError, SqlMapping,
};
use pgrx_array::variadic::VariadicArray;
use std::any::TypeId;

#[test]
fn array_argument_gets_brackets() {
    assert_eq!(
        argument_sql(Ok(SqlMapping::As(String::from("int4")))),
        Ok(SqlMapping::As(String::from("int4[]")))
    );
    assert_eq!(
        argument_sql(Ok(SqlMapping::As(String::new()))),
        Ok(SqlMapping::As(String::from("[]")))
    );
    assert_eq!(
        argument_sql(Ok(SqlMapping::Composite { array_brackets: false })),
        Ok(SqlMapping::Composite { array_brackets: true })
    );
    assert_eq!(
        argument_sql(Ok(SqlMapping::Source { array_brackets: false })),
        Ok(SqlMapping::Source { array_brackets: true })
    );
    assert_eq!(
        argument_sql(Ok(SqlMapping::Source { array_brackets: true })),
        Ok(SqlMapping::Source { array_brackets: true })
    );
}

#[test]
fn array_argument_errors() {
    assert_eq!(argument_sql(Ok(SqlMapping::Skip)), Err(ArgumentError::SkipInArray));
    assert_eq!(argument_sql(Err(ArgumentError::BareU8)), Err(ArgumentError::BareU8));
    assert_eq!(argument_sql(Err(ArgumentError::SetOf)), Err(ArgumentError::SetOf));
    assert_eq!(
        argument_sql(Err(ArgumentError::NotValidAsArgument("()"))),
        Err(ArgumentError::NotValidAsArgument("()"))
    );
}

#[test]
fn array_return_gets_brackets() {
    assert_eq!(
        return_sql(Ok(Returns::One(SqlMapping::As(String::from("text"))))),
        Ok(Returns::One(SqlMapping::As(String::from("text[]"))))
    );
    assert_eq!(
        return_sql(Ok(Returns::One(SqlMapping::Composite { array_brackets: false }))),
        Ok(Returns::One(SqlMapping::Composite { array_brackets: true }))
    );
    assert_eq!(
        return_sql(Ok(Returns::One(SqlMapping::Source { array_brackets: false }))),
        Ok(Returns::One(SqlMapping::Source { array_brackets: true }))
    );
}

#[test]
fn array_return_errors() {
    assert_eq!(return_sql(Ok(Returns::One(SqlMapping::Skip))), Err(ReturnsError::SkipInArray));
    assert_eq!(
        return_sql(Ok(Returns::SetOf(SqlMapping::As(String::from("int4"))))),
        Err(ReturnsError::SetOfInArray)
    );
    assert_eq!(return_sql(Ok(Returns::Table(vec![]))), Err(ReturnsError::TableInArray));
    assert_eq!(
        return_sql(Ok(Returns::Table(vec![SqlMapping::Skip]))),
        Err(ReturnsError::TableInArray)
    );
    assert_eq!(return_sql(Err(ReturnsError::NestedTable)), Err(ReturnsError::NestedTable));
    assert_eq!(return_sql(Err(ReturnsError::Datum)), Err(ReturnsError::Datum));
}

#[test]
fn arrays_of_both_kinds_map_alike() {
    let element = || Ok(SqlMapping::As(String::from("int8")));
    assert_eq!(Array::<i64>::argument_sql(element()), argument_sql(element()));
    assert_eq!(VariadicArray::<i64>::argument_sql(element()), argument_sql(element()));
    let returned = || Ok(Returns::One(SqlMapping::As(String::from("int8"))));
    assert_eq!(Array::<i64>::return_sql(returned()), return_sql(returned()));
    assert_eq!(VariadicArray::<i64>::return_sql(returned()), return_sql(returned()));
    assert_eq!(
        VariadicArray::<i64>::return_sql(Ok(Returns::Table(vec![]))),
        Err(ReturnsError::TableInArray)
    );
    assert!(VariadicArray::<i64>::variadic());
}

#[test]
fn return_variant_error_messages() {
    assert_eq!(
        ReturnVariantError::NestedSetOf.to_string(),
        "Nested SetReturningFunctionIterator in return type"
    );
    assert_eq!(ReturnVariantError::NestedTable.to_string(), "Nested TableIterator in return type");
    assert_eq!(
        ReturnVariantError::SetOfContainingTable.to_string(),
        "SetReturningFunctionIterator containing TableIterator in return type"
    );
    assert_eq!(
        ReturnVariantError::TableContainingSetOf.to_string(),
        "TableIterator containing SetReturningFunctionIterator in return type"
    );
    assert_eq!(
        ReturnVariantError::SetOfInArray.to_string(),
        "TableIterator inside Array is not valid"
    );
    assert_eq!(
        ReturnVariantError::TableInArray.to_string(),
        "TableIterator inside Array is not valid"
    );
    assert_eq!(ReturnVariantError::BareU8.to_string(), "Canot use bare u8");
}

#[test]
fn type_entity_holds_its_fields() {
    let entity = FunctionMetadataTypeEntity {
        type_id: TypeId::of::<Vec<i32>>(),
        rust_type_name: "Vec<i32>",
        argument_sql: Ok(Some(String::from("int4[]"))),
        return_sql: Ok(ReturnVariant::Plain(String::from("int4[]"))),
        variadic: false,
        optional: false,
    };
    let copy = entity.clone();
    assert_eq!(copy, entity);
    assert_eq!(copy.type_id, TypeId::of::<Vec<i32>>());
    assert_eq!(copy.return_sql, Ok(ReturnVariant::Plain(String::from("int4[]"))));
    let failed = FunctionMetadataTypeEntity {
        return_sql: Err(ReturnVariantError::SetOfInArray),
        argument_sql: Err(ArgumentError::SetOf),
        ..entity.clone()
    };
    assert_ne!(failed, entity);
    assert!(ReturnVariant::Plain(String::from("a")) < ReturnVariant::SetOf(String::from("a")));
    assert!(ReturnVariantError::NestedSetOf < ReturnVariantError::BareU8);
}
