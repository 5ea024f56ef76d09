use rust_db_engine::query::parser::{Expression, Identifier};
use rust_db_engine::schema::schema::{
    create_table, drop_table, get_column_names_from_schema, is_valid_data_type,
    map_string_to_rule, parse_expression, Column, ConstraintType, DataType, RuleAction, Schema,
    Table,
};

#[test]
fn test_data_type_from_str() {
    assert_eq!(DataType::from("int"), DataType::Int);
    assert_eq!(DataType::from("integer"), DataType::Int);
    assert_eq!(DataType::from("string"), DataType::String);
    assert_eq!(DataType::from("text"), DataType::String);
    assert_eq!(DataType::from("varchar"), DataType::String);
    assert_eq!(DataType::from("uuid"), DataType::UUID);
    assert_eq!(DataType::from("datetime"), DataType::DateTime);
}

#[test]
fn test_map_string_to_rule() {
    // Test NOT NULL constraint
    let rule = map_string_to_rule("NOT NULL").unwrap();
    assert!(matches!(rule.constraint_type, ConstraintType::NotNull));
    assert!(matches!(rule.action, RuleAction::Reject));

    // Test UNIQUE constraint
    let rule = map_string_to_rule("UNIQUE").unwrap();
    assert!(matches!(rule.constraint_type, ConstraintType::Unique));
    assert!(matches!(rule.action, RuleAction::Reject));

    // Test CHECK constraint
    let rule = map_string_to_rule("CHECK (age > 18)").unwrap();
    match rule.constraint_type {
        ConstraintType::Check(Expression::Comparison { left, operator, right }) => {
            assert_eq!(left, Identifier::Name("age".to_string()));
            assert_eq!(operator, ">".to_string());
            assert_eq!(right, Identifier::Literal("18".to_string(), Some(DataType::Int)));
        },
        _ => panic!("Expected Check constraint"),
    }
}

#[test]
fn test_parse_expression() {
    // Test basic comparison
    let expr = parse_expression("age > 18").unwrap();
    match expr {
        Expression::Comparison { left, operator, right } => {
            assert_eq!(left, Identifier::Name("age".to_string()));
            assert_eq!(operator, ">".to_string());
            assert_eq!(right, Identifier::Literal("18".to_string(), Some(DataType::Int)));
        },
        _ => panic!("Expected Comparison expression"),
    }

    // Test string comparison
    let expr = parse_expression("name = 'John'").unwrap();
    match expr {
        Expression::Comparison { left, operator, right } => {
            assert_eq!(left, Identifier::Name("name".to_string()));
            assert_eq!(operator, "=".to_string());
            assert_eq!(right, Identifier::Literal("John".to_string(), Some(DataType::String)));
        },
        _ => panic!("Expected Comparison expression"),
    }
}

#[test]
fn test_is_valid_data_type() {
    // Test Integer validation
    assert!(is_valid_data_type(&DataType::Int, "123"));
    assert!(!is_valid_data_type(&DataType::Int, "abc"));

    // Test String validation
    assert!(is_valid_data_type(&DataType::String, "any string"));

    // Test UUID validation
    assert!(is_valid_data_type(&DataType::UUID, "550e8400-e29b-41d4-a716-446655440000"));
    assert!(!is_valid_data_type(&DataType::UUID, "invalid-uuid"));

    // Test DateTime validation
    assert!(is_valid_data_type(&DataType::DateTime, "2024-03-21 15:30:00"));
    assert!(!is_valid_data_type(&DataType::DateTime, "invalid-date"));
}

#[test]
fn test_create_table() {
    let mut schema = Schema::default();
    let table = Table {
        name: "test_table".to_string(),
        columns: vec![Column {
            name: "name".to_string(),
            data_type: DataType::String,
            rules: vec![],
        }],
    };

    create_table(&mut schema, &table);

    // Verify both initial and updates tables were created
    assert!(schema.tables.contains_key("test_table_initial"));
    assert!(schema.tables.contains_key("test_table_updates"));
}

fn table(name: &str, column: &str) -> Table {
    Table {
        name: name.to_string(),
        columns: vec![Column {
            name: column.to_string(),
            data_type: DataType::Int,
            rules: vec![],
        }],
    }
}

#[test]
fn a_new_table_has_a_uuid_and_a_timestamp() {
    let mut schema = Schema::default();
    create_table(&mut schema, &table("t", "a"));
    let names = get_column_names_from_schema(&schema, "t").unwrap();
    assert_eq!(names, vec!["UUID", "a", "timestamp"]);
    let stored = schema.tables.get("t_initial").unwrap();
    assert_eq!(stored.name, "t_initial");
    assert_eq!(stored.columns[0].data_type, DataType::UUID);
    assert!(matches!(stored.columns[0].rules[0].constraint_type, ConstraintType::NotNull));
    assert!(matches!(stored.columns[0].rules[0].action, RuleAction::Reject));
    assert_eq!(stored.columns[2].data_type, DataType::DateTime);
}

#[test]
fn dropping_a_table_undoes_its_creation() {
    let mut schema = Schema::default();
    create_table(&mut schema, &table("other", "x"));
    create_table(&mut schema, &table("t", "a"));
    drop_table(&mut schema, "t");
    assert!(!schema.tables.contains_key("t_initial"));
    assert!(!schema.tables.contains_key("t_updates"));
    assert!(schema.tables.contains_key("other_initial"));
    assert_eq!(schema.tables.len(), 2);
}

#[test]
fn a_table_that_is_not_there_has_no_columns() {
    let schema = Schema::default();
    let e = get_column_names_from_schema(&schema, "t").err().unwrap();
    assert_eq!(e.message, "Table 't' or 't_initial' not found");
}

#[test]
fn unknown_names_of_types_are_told_apart() {
    assert_eq!(DataType::parse("INT"), Some(DataType::Int));
    assert_eq!(DataType::parse("invalid"), None);
    assert_eq!(DataType::parse("VarChar"), Some(DataType::String));
}

#[test]
fn unknown_constraints_are_no_rules() {
    assert!(map_string_to_rule("FOREIGN KEY").is_none());
    assert!(map_string_to_rule("CHECK age").is_none());
    assert!(parse_expression("age").is_none());
}
